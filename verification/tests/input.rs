use hbview3::input::{InputState, KEY_A, KEY_B, KEY_START};

#[test]
fn new_state_has_no_keys() {
    let s = InputState::new();
    assert_eq!(s.keys_held(), 0);
    assert_eq!(s.keys_down(), 0);
}

#[test]
fn press_marks_key_held_and_down() {
    let mut s = InputState::new();
    s.press(KEY_A);
    assert_eq!(s.keys_held(), KEY_A);
    assert_eq!(s.keys_down(), KEY_A);
}

#[test]
fn press_of_held_key_is_not_down_again() {
    let mut s = InputState::new();
    s.press(KEY_A);
    s.begin_frame();
    s.press(KEY_A);
    assert_eq!(s.keys_held(), KEY_A);
    assert_eq!(s.keys_down(), 0);
}

#[test]
fn release_clears_held_only() {
    let mut s = InputState::new();
    s.press(KEY_A);
    s.press(KEY_B);
    s.release(KEY_A);
    assert_eq!(s.keys_held(), KEY_B);
    assert_eq!(s.keys_down(), KEY_A | KEY_B);
}

#[test]
fn begin_frame_resets_down_keeps_held() {
    let mut s = InputState::new();
    s.press(KEY_START);
    s.begin_frame();
    assert_eq!(s.keys_down(), 0);
    assert_eq!(s.keys_held(), KEY_START);
}

#[test]
fn press_then_release_of_fresh_key_restores_held() {
    let mut s = InputState::new();
    s.press(KEY_B);
    s.begin_frame();
    let before = s.keys_held();
    s.press(KEY_A);
    s.release(KEY_A);
    assert_eq!(s.keys_held(), before);
}

#[test]
fn default_state_is_empty() {
    let s = InputState::default();
    assert_eq!(s.keys_held(), 0);
    assert_eq!(s.keys_down(), 0);
}
