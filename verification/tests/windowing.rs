use thallium_ecs::{Keyboard, WindowSize};

const KEY_W: u32 = 17;
const KEY_S: u32 = 31;

#[test]
fn window_size_accessors() {
    let size = WindowSize::new(800, 600);
    assert_eq!(size.width(), 800);
    assert_eq!(size.height(), 600);
}

#[test]
fn keyboard_key_states() {
    let mut keyboard = Keyboard::new();
    assert!(!keyboard.key_down(KEY_W));
    assert!(keyboard.key_up(KEY_W));
    assert!(!keyboard.key_pressed(KEY_W));
    assert!(!keyboard.key_released(KEY_W));

    keyboard.set_key(KEY_W, true, 0);
    assert!(keyboard.key_down(KEY_W));
    assert!(!keyboard.key_up(KEY_W));
    assert!(keyboard.key_pressed(KEY_W));
    assert!(!keyboard.key_released(KEY_W));
    assert!(keyboard.key_up(KEY_S));

    keyboard.set_current_tick(1);
    assert!(keyboard.key_down(KEY_W));
    assert!(!keyboard.key_pressed(KEY_W));

    keyboard.set_key(KEY_W, false, 1);
    assert!(keyboard.key_up(KEY_W));
    assert!(keyboard.key_released(KEY_W));
}

#[test]
fn keyboard_since_queries() {
    let mut keyboard = Keyboard::new();
    keyboard.set_key(KEY_W, true, 3);
    assert!(keyboard.key_pressed_since(KEY_W, 5));
    assert!(!keyboard.key_pressed_since(KEY_W, 3));
    assert!(!keyboard.key_released_since(KEY_W, 5));

    keyboard.set_key(KEY_W, false, 4);
    assert!(keyboard.key_released_since(KEY_W, 6));
    assert!(!keyboard.key_released_since(KEY_W, 4));
    assert!(!keyboard.key_pressed_since(KEY_W, 6));
}
