use minceraft::faces::Step;
use minceraft::input::{Key, KeyAction, Keyboard};

const TRACKED: [Key; 10] = [
    Key::KeyW, Key::KeyS, Key::KeyA, Key::KeyD, Key::Space, Key::ControlLeft,
    Key::ArrowLeft, Key::ArrowRight, Key::ArrowUp, Key::ArrowDown,
];

fn s(x: i8, y: i8, z: i8) -> Step {
    Step { x, y, z }
}

#[test]
fn nothing_held_at_start() {
    let kb = Keyboard::new();
    for k in TRACKED {
        assert!(!kb.is_held(k));
    }
    assert!(kb.movement_steps().is_empty());
    assert!(kb.rotation_steps().is_empty());
}

#[test]
fn escape_press_exits_and_changes_nothing() {
    let mut kb = Keyboard::new();
    kb.key_event(Key::KeyW, true);
    assert_eq!(kb.key_event(Key::Escape, true), KeyAction::Exit);
    assert!(kb.is_held(Key::KeyW));
    assert_eq!(kb.key_event(Key::Escape, false), KeyAction::Continue);
    assert!(!kb.is_held(Key::Escape));
}

#[test]
fn press_and_release_are_recorded() {
    let mut kb = Keyboard::new();
    assert_eq!(kb.key_event(Key::KeyD, true), KeyAction::Continue);
    assert!(kb.is_held(Key::KeyD));
    assert!(!kb.is_held(Key::KeyA));
    kb.key_event(Key::KeyD, false);
    assert!(!kb.is_held(Key::KeyD));
    for k in TRACKED {
        assert!(!kb.is_held(k));
    }
}

#[test]
fn other_keys_are_recorded_too() {
    let mut kb = Keyboard::new();
    assert_eq!(kb.key_event(Key::Other(16), true), KeyAction::Continue);
    assert!(kb.is_held(Key::Other(16)));
    assert!(!kb.is_held(Key::Other(17)));
    kb.key_event(Key::Other(17), true);
    kb.key_event(Key::Other(16), false);
    assert!(!kb.is_held(Key::Other(16)));
    assert!(kb.is_held(Key::Other(17)));
    for k in TRACKED {
        assert!(!kb.is_held(k));
    }
    assert!(kb.movement_steps().is_empty());
}

#[test]
fn movement_in_table_order() {
    let mut kb = Keyboard::new();
    kb.key_event(Key::ControlLeft, true);
    kb.key_event(Key::KeyD, true);
    kb.key_event(Key::KeyW, true);
    assert_eq!(kb.movement_steps(), vec![s(0, 0, 1), s(1, 0, 0), s(0, -1, 0)]);
    for k in TRACKED {
        kb.key_event(k, true);
    }
    assert_eq!(
        kb.movement_steps(),
        vec![s(0, 0, 1), s(0, 0, -1), s(-1, 0, 0), s(1, 0, 0), s(0, 1, 0), s(0, -1, 0)]
    );
    assert_eq!(kb.rotation_steps(), vec![s(0, 0, -1), s(0, 0, 1), s(1, 0, 0), s(-1, 0, 0)]);
}

#[test]
fn rotation_keys() {
    let mut kb = Keyboard::new();
    kb.key_event(Key::ArrowUp, true);
    kb.key_event(Key::ArrowRight, true);
    assert_eq!(kb.rotation_steps(), vec![s(0, 0, 1), s(1, 0, 0)]);
    assert!(kb.movement_steps().is_empty());
    kb.key_event(Key::ArrowRight, false);
    assert_eq!(kb.rotation_steps(), vec![s(1, 0, 0)]);
}
