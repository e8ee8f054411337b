//! The JSON navigation, against real serde_json values.

use bevy_vrma::error::VrmError;
use bevy_vrma::vrm::extensions::{obtain_vrmc_springs, obtain_vrmc_vrm, VrmExtensions, VrmcVrm,
    Humanoid, VrmMeta};

fn object(entries: &[(&str, serde_json::Value)]) -> serde_json::Map<String, serde_json::Value> {
    let mut m = serde_json::Map::new();
    for (k, v) in entries {
        m.insert(k.to_string(), v.clone());
    }
    m
}

#[test]
fn obtain_vrmc_vrm_prefers_the_vrm_block() {
    let m = object(&[
        ("VRMC_vrm", serde_json::Value::from(42i64)),
        ("VRMC_vrm_animation", serde_json::Value::from(7i64)),
    ]);
    assert_eq!(obtain_vrmc_vrm(&m), Ok(serde_json::Value::from(42i64)));
}

#[test]
fn obtain_vrmc_vrm_falls_back_to_the_animation_block() {
    let m = object(&[("VRMC_vrm_animation", serde_json::Value::from(7i64))]);
    assert_eq!(obtain_vrmc_vrm(&m), Ok(serde_json::Value::from(7i64)));
}

#[test]
fn obtain_vrmc_vrm_reports_the_missing_block() {
    let m = object(&[("other", serde_json::Value::Null)]);
    assert_eq!(obtain_vrmc_vrm(&m), Err(VrmError::NotFoundVrmcVrm));
}

#[test]
fn obtain_vrmc_springs_finds_or_reports() {
    let with = object(&[("VRMC_springBone", serde_json::Value::from(true))]);
    assert_eq!(obtain_vrmc_springs(&with), Ok(serde_json::Value::from(true)));
    let without = object(&[]);
    assert_eq!(obtain_vrmc_springs(&without), Err(VrmError::NotFoundVrmcSpringBone));
}

#[test]
fn extension_name_comes_from_the_meta_block() {
    let named = VrmExtensions {
        vrmc_vrm: VrmcVrm {
            meta: Some(VrmMeta { name: Some("Mascot".to_string()) }),
            humanoid: Humanoid { human_bones: Vec::new() },
        },
        vrmc_spring_bone: None,
    };
    assert_eq!(named.name(), Some("Mascot".to_string()));
    let unnamed = VrmExtensions {
        vrmc_vrm: VrmcVrm { meta: None, humanoid: Humanoid { human_bones: Vec::new() } },
        vrmc_spring_bone: None,
    };
    assert_eq!(unnamed.name(), None);
}
