use voxel_world::camera_controller::CameraController;

fn pressed(c: &CameraController) -> [bool; 6] {
    [
        c.is_forward_pressed,
        c.is_backward_pressed,
        c.is_left_pressed,
        c.is_right_pressed,
        c.is_up_pressed,
        c.is_down_pressed,
    ]
}

#[test]
fn controller_starts_with_nothing_pressed() {
    let c = CameraController::default();
    assert_eq!(pressed(&c), [false; 6]);
}

#[test]
fn each_movement_key_sets_its_own_flag() {
    let keys = ['W', 'S', 'A', 'D', 'E', 'Q'];
    for (i, k) in keys.iter().enumerate() {
        let mut c = CameraController::default();
        c.process_key(*k, true);
        let mut expected = [false; 6];
        expected[i] = true;
        assert_eq!(pressed(&c), expected);
        c.process_key(*k, false);
        assert_eq!(pressed(&c), [false; 6]);
    }
}

#[test]
fn other_keys_change_nothing() {
    let mut c = CameraController::default();
    c.process_key('W', true);
    c.process_key('X', false);
    c.process_key('w', false);
    assert_eq!(pressed(&c), [true, false, false, false, false, false]);
}
