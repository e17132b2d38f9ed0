use killer_critters::geom::Vec2Fx;
use killer_critters::models::{AnimalAnimation, BombAnimation};
use killer_critters::player::{control_from_buttons, PlayerAction, PlayerControl};

#[test]
fn test_is_something() {
    let idle = PlayerControl {
        motion: Vec2Fx::new(0, 0),
        action: PlayerAction::Idle,
    };
    assert!(!idle.is_something());
    let moving = PlayerControl {
        motion: Vec2Fx::new(0, -1000),
        action: PlayerAction::Idle,
    };
    assert!(moving.is_something());
    let acting = PlayerControl {
        motion: Vec2Fx::new(0, 0),
        action: PlayerAction::DropBomb,
    };
    assert!(acting.is_something());
}

#[test]
fn test_control_from_buttons_axes() {
    let c = control_from_buttons(true, false, false, false, false);
    assert_eq!(c.motion, Vec2Fx::new(0, -1000));
    assert_eq!(c.action, PlayerAction::Idle);

    let c = control_from_buttons(false, true, false, false, false);
    assert_eq!(c.motion, Vec2Fx::new(0, 1000));

    let c = control_from_buttons(false, false, true, false, false);
    assert_eq!(c.motion, Vec2Fx::new(-1000, 0));

    let c = control_from_buttons(false, false, false, true, false);
    assert_eq!(c.motion, Vec2Fx::new(1000, 0));
}

#[test]
fn test_control_from_buttons_diagonal_is_normalized() {
    let c = control_from_buttons(true, false, false, true, false);
    assert_eq!(c.motion, Vec2Fx::new(707, -707));
}

#[test]
fn test_control_from_buttons_cancel_and_drop() {
    let c = control_from_buttons(true, true, true, true, true);
    assert_eq!(c.motion, Vec2Fx::new(0, 0));
    assert_eq!(c.action, PlayerAction::DropBomb);
}

#[test]
fn test_animation_indices() {
    assert_eq!(AnimalAnimation::Run.to_node_index(), 1);
    assert_eq!(AnimalAnimation::Walk.to_node_index(), 2);
    assert_eq!(AnimalAnimation::Idle.to_node_index(), 3);
    assert_eq!(AnimalAnimation::Jump.to_node_index(), 4);
    assert_eq!(AnimalAnimation::Run.to_gltf_animation_index(), 13);
    assert_eq!(AnimalAnimation::Walk.to_gltf_animation_index(), 16);
    assert_eq!(AnimalAnimation::Idle.to_gltf_animation_index(), 8);
    assert_eq!(AnimalAnimation::Jump.to_gltf_animation_index(), 11);
    assert_eq!(BombAnimation::Pulsate.to_node_index(), 1);
    assert_eq!(BombAnimation::Pulsate.to_gltf_animation_index(), 0);
}
