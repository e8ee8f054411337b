//! Smaller items: paths, expression names, and the coordinate bound.

use bevy_vrma::math::{norm_fixed, Vec3, COORD_LIMIT};
use bevy_vrma::vrm::extensions::Humanoid;
use bevy_vrma::vrm::{VrmExpression, VrmPath};
use bevy_vrma::vrma::spawn::{VrmaExpressionNames, VrmaExpressions, VrmaExtensions, VrmcVrmAnimation};

#[test]
fn vrm_path_keeps_the_path() {
    let p = VrmPath::new("models/avatar.vrm".to_string());
    assert_eq!(p.0, "models/avatar.vrm".to_string());
}

#[test]
fn expression_names_follow_the_presets() {
    let with = VrmaExtensions {
        vrmc_vrm_animation: VrmcVrmAnimation {
            expressions: Some(VrmaExpressions {
                preset: vec!["happy".to_string(), "sad".to_string()],
            }),
            humanoid: Humanoid { human_bones: Vec::new() },
        },
    };
    let names = VrmaExpressionNames::new(&with);
    assert_eq!(
        names.0,
        vec![VrmExpression("happy".to_string()), VrmExpression("sad".to_string())]
    );
    let without = VrmaExtensions {
        vrmc_vrm_animation: VrmcVrmAnimation {
            expressions: None,
            humanoid: Humanoid { human_bones: Vec::new() },
        },
    };
    assert_eq!(VrmaExpressionNames::new(&without).0.len(), 0);
}

#[test]
fn norm_at_the_coordinate_bound() {
    // the largest coordinates the model accepts still have an exact norm
    let v = Vec3::new(COORD_LIMIT, COORD_LIMIT, COORD_LIMIT);
    let n = norm_fixed(&v);
    assert_eq!(n, 1_732_050_807);
}
