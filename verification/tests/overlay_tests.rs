use boltscribe::overlay::{
    overlay_collection_behavior, overlay_position, CAN_JOIN_ALL_APPLICATIONS, FULL_SCREEN_AUXILIARY, IGNORES_CYCLE,
    MOVE_TO_ACTIVE_SPACE, TRANSIENT,
};

// Other AppKit collection-behaviour flags, which the overlay must not carry.
const CAN_JOIN_ALL_SPACES: u64 = 1 << 0;
const MANAGED: u64 = 1 << 2;
const STATIONARY: u64 = 1 << 4;
const PARTICIPATES_IN_CYCLE: u64 = 1 << 5;
const FULL_SCREEN_PRIMARY: u64 = 1 << 7;
const FULL_SCREEN_NONE: u64 = 1 << 9;
const PRIMARY: u64 = 1 << 16;
const AUXILIARY: u64 = 1 << 17;

#[test]
fn overlay_behavior_follows_active_space_and_can_join_current_full_screen() {
    let behavior = overlay_collection_behavior(true);

    assert_eq!(behavior, 0x4014a);
    assert_ne!(behavior & MOVE_TO_ACTIVE_SPACE, 0);
    assert_ne!(behavior & FULL_SCREEN_AUXILIARY, 0);
    assert_ne!(behavior & CAN_JOIN_ALL_APPLICATIONS, 0);
    assert_ne!(behavior & TRANSIENT, 0);
    assert_ne!(behavior & IGNORES_CYCLE, 0);
    assert_eq!(
        behavior
            & (CAN_JOIN_ALL_SPACES
                | FULL_SCREEN_PRIMARY
                | FULL_SCREEN_NONE
                | PRIMARY
                | AUXILIARY
                | MANAGED
                | STATIONARY
                | PARTICIPATES_IN_CYCLE),
        0
    );
}

#[test]
fn overlay_behavior_keeps_pre_macos_13_compatibility() {
    let behavior = overlay_collection_behavior(false);

    assert_eq!(behavior, 0x14a);
    assert_ne!(behavior & MOVE_TO_ACTIVE_SPACE, 0);
    assert_ne!(behavior & FULL_SCREEN_AUXILIARY, 0);
    assert_ne!(behavior & TRANSIENT, 0);
    assert_eq!(behavior & CAN_JOIN_ALL_SPACES, 0);
    assert_eq!(behavior & CAN_JOIN_ALL_APPLICATIONS, 0);
}

#[test]
fn overlay_position_handles_negative_coordinate_monitor() {
    // Centred: (954 - 157) / 2 rounds down to 398 whole pixels.
    assert_eq!(overlay_position(-954, -644, 954, 1696, 157, 39, 28, 0, 0), (-556, 985));
}

#[test]
fn overlay_position_clamps_offsets_inside_work_area() {
    assert_eq!(overlay_position(100, 50, 800, 600, 300, 80, 28, 4000, -4000), (600, 570));
    assert_eq!(overlay_position(100, 50, 800, 600, 300, 80, 28, -4000, 4000), (100, 50));
    assert_eq!(overlay_position(100, 50, 800, 600, 300, 80, 28, 10, 20), (360, 522));
}

#[test]
fn an_overlay_wider_than_the_work_area_sits_at_its_left_edge() {
    assert_eq!(overlay_position(0, 0, 200, 100, 300, 80, 28, 50, 0), (0, 0));
}
