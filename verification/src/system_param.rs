pub mod vrm_animation_players;
