use iridium::{Key, Movement};

#[test]
fn default_movement_is_none() {
    let m = Movement::default();
    assert!(!m.strafe_forward);
    assert!(!m.strafe_back);
    assert!(!m.strafe_left);
    assert!(!m.strafe_right);
    assert!(!m.pitch_up);
    assert!(!m.pitch_down);
    assert!(!m.yaw_left);
    assert!(!m.yaw_right);
    assert!(!m.any_movement());
}

#[test]
fn any_single_flag_is_a_movement() {
    let none = Movement::default();
    let each = [
        Movement { strafe_forward: true, ..none },
        Movement { strafe_back: true, ..none },
        Movement { strafe_left: true, ..none },
        Movement { strafe_right: true, ..none },
        Movement { pitch_up: true, ..none },
        Movement { pitch_down: true, ..none },
        Movement { yaw_left: true, ..none },
        Movement { yaw_right: true, ..none },
    ];
    for m in each {
        assert!(m.any_movement());
    }
    let both = Movement { strafe_left: true, yaw_right: true, ..none };
    assert!(both.any_movement());
}

#[test]
fn keys_ask_for_their_movement() {
    let none = Movement::default();
    assert_eq!(Movement::from_key(Key::W), Movement { strafe_forward: true, ..none });
    assert_eq!(Movement::from_key(Key::S), Movement { strafe_back: true, ..none });
    assert_eq!(Movement::from_key(Key::A), Movement { strafe_left: true, ..none });
    assert_eq!(Movement::from_key(Key::D), Movement { strafe_right: true, ..none });
    assert_eq!(Movement::from_key(Key::Other), none);
    assert!(!Movement::from_key(Key::Other).any_movement());
}
