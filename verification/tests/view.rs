use game_debug::view::{short_mode, CameraMode, GlobalPreset, MoveAxes, MoveKeys};

#[test]
fn keys_fold_to_heading_input() {
    assert_eq!(MoveKeys::default().input(), MoveAxes { thrust: 0, turn: 0 });
    let keys = MoveKeys {
        north: true,
        east: true,
        ..MoveKeys::default()
    };
    // Thrust forward + turn right.
    assert_eq!(keys.input(), MoveAxes { thrust: 1, turn: 1 });
    // Opposing pairs cancel.
    let stuck = MoveKeys {
        north: true,
        south: true,
        west: true,
        east: true,
    };
    assert_eq!(stuck.input(), MoveAxes { thrust: 0, turn: 0 });
}

#[test]
fn keys_fold_backward_and_left() {
    let keys = MoveKeys {
        south: true,
        west: true,
        ..MoveKeys::default()
    };
    assert_eq!(keys.input(), MoveAxes { thrust: -1, turn: -1 });
}

#[test]
fn presets_follow_button_order() {
    assert_eq!(GlobalPreset::from_index(0), Some(GlobalPreset::Top));
    assert_eq!(GlobalPreset::from_index(1), Some(GlobalPreset::Bottom));
    assert_eq!(GlobalPreset::from_index(2), Some(GlobalPreset::Right));
    assert_eq!(GlobalPreset::from_index(3), Some(GlobalPreset::Perspective));
    assert_eq!(GlobalPreset::from_index(4), None);
    assert_eq!(GlobalPreset::from_index(usize::MAX), None);
    let labels: Vec<&str> = (0..4)
        .map(|i| GlobalPreset::from_index(i).unwrap().label())
        .collect();
    assert_eq!(labels, ["Top", "Bot", "Right", "Persp"]);
}

#[test]
fn camera_mode_labels() {
    assert_eq!(short_mode(CameraMode::Follow), "follow");
    assert_eq!(short_mode(CameraMode::FirstPerson), "first");
    assert_eq!(short_mode(CameraMode::ThirdPerson), "third");
    assert_eq!(short_mode(CameraMode::Global), "global");
}
