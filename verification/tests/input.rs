use rustlock::input::{feedback_active, InputAction, InputHandler, Key, KeyModifiers};

fn plain() -> KeyModifiers {
    KeyModifiers { ctrl: false, caps_lock: false }
}

fn typed(h: &mut InputHandler, text: &str) -> InputAction {
    h.handle_key_event(Key::Other, Some(text.to_string()), plain())
}

#[test]
fn typing_inserts_printable_ascii_at_the_cursor() {
    let mut h = InputHandler::new();
    assert!(matches!(typed(&mut h, "ab"), InputAction::PasswordChanged));
    assert_eq!(h.password_length(), 2);
    assert_eq!(h.cursor_position(), 2);
    assert!(matches!(h.handle_key_event(Key::Left, None, plain()), InputAction::CursorMoved));
    assert!(matches!(typed(&mut h, "X"), InputAction::PasswordChanged));
    assert_eq!(h.cursor_position(), 2);
    match h.handle_key_event(Key::Return, None, plain()) {
        InputAction::SubmitPassword(p) => assert_eq!(p.as_str(), "aXb"),
        _ => panic!("Enter must submit the password"),
    }
    assert_eq!(h.password_length(), 0);
    assert_eq!(h.cursor_position(), 0);
}

#[test]
fn control_and_non_ascii_characters_are_dropped() {
    let mut h = InputHandler::new();
    assert!(matches!(typed(&mut h, "\u{1}é\u{7f}a b"), InputAction::PasswordChanged));
    assert_eq!(h.password_length(), 3);
    match h.handle_key_event(Key::KpEnter, None, plain()) {
        InputAction::SubmitPassword(p) => assert_eq!(p.as_str(), "a b"),
        _ => panic!("keypad Enter must submit the password"),
    }
}

#[test]
fn key_without_text_is_ignored() {
    let mut h = InputHandler::new();
    assert!(matches!(h.handle_key_event(Key::Other, None, plain()), InputAction::Ignored));
}

#[test]
fn backspace_removes_before_the_cursor() {
    let mut h = InputHandler::new();
    typed(&mut h, "ab");
    h.handle_key_event(Key::Left, None, plain());
    assert!(matches!(h.handle_key_event(Key::BackSpace, None, plain()), InputAction::PasswordChanged));
    assert_eq!(h.password_length(), 1);
    assert_eq!(h.cursor_position(), 0);
    // at the start nothing is removed, yet the change is reported
    assert!(matches!(h.handle_key_event(Key::BackSpace, None, plain()), InputAction::PasswordChanged));
    assert_eq!(h.password_length(), 1);
    h.handle_key_event(Key::End, None, plain());
    assert!(matches!(h.handle_key_event(Key::BackSpace, None, plain()), InputAction::PasswordCleared));
    assert_eq!(h.password_length(), 0);
}

#[test]
fn delete_removes_at_the_cursor() {
    let mut h = InputHandler::new();
    typed(&mut h, "xy");
    assert!(matches!(h.handle_key_event(Key::Delete, None, plain()), InputAction::Ignored));
    h.handle_key_event(Key::Home, None, plain());
    assert!(matches!(h.handle_key_event(Key::Delete, None, plain()), InputAction::PasswordChanged));
    assert!(matches!(h.handle_key_event(Key::Delete, None, plain()), InputAction::PasswordCleared));
    assert_eq!(h.password_length(), 0);
}

#[test]
fn cursor_moves_stay_within_the_password() {
    let mut h = InputHandler::new();
    assert!(matches!(h.handle_key_event(Key::Left, None, plain()), InputAction::Ignored));
    assert!(matches!(h.handle_key_event(Key::Right, None, plain()), InputAction::Ignored));
    typed(&mut h, "abc");
    assert!(matches!(h.handle_key_event(Key::Right, None, plain()), InputAction::Ignored));
    assert!(matches!(h.handle_key_event(Key::Home, None, plain()), InputAction::CursorMoved));
    assert_eq!(h.cursor_position(), 0);
    assert!(matches!(h.handle_key_event(Key::Home, None, plain()), InputAction::Ignored));
    assert!(matches!(h.handle_key_event(Key::Right, None, plain()), InputAction::CursorMoved));
    assert!(matches!(h.handle_key_event(Key::End, None, plain()), InputAction::CursorMoved));
    assert_eq!(h.cursor_position(), 3);
}

#[test]
fn control_u_clears_the_password() {
    let mut h = InputHandler::new();
    let ctrl = KeyModifiers { ctrl: true, caps_lock: false };
    assert!(matches!(h.handle_key_event(Key::U, Some("u".to_string()), ctrl), InputAction::Ignored));
    typed(&mut h, "secret");
    assert!(matches!(h.handle_key_event(Key::U, Some("u".to_string()), ctrl), InputAction::PasswordCleared));
    assert_eq!(h.password_length(), 0);
    assert_eq!(h.cursor_position(), 0);
    // without Control, u is typed
    typed(&mut h, "u");
    assert_eq!(h.password_length(), 1);
}

#[test]
fn escape_cancels_and_caps_lock_is_tracked() {
    let mut h = InputHandler::new();
    assert!(!h.caps_lock());
    let caps = KeyModifiers { ctrl: false, caps_lock: true };
    assert!(matches!(h.handle_key_event(Key::Escape, None, caps), InputAction::Cancel));
    assert!(h.caps_lock());
}

#[test]
fn feedback_windows() {
    let mut h = InputHandler::new();
    assert!(!h.should_show_wrong_password());
    assert!(!h.should_show_key_highlight());
    h.set_wrong_password_feedback();
    h.set_key_highlight();
    assert!(h.should_show_wrong_password());
    assert!(h.should_show_key_highlight());
    h.update();
    assert!(feedback_active(Some(999_999_999), 1000));
    assert!(!feedback_active(Some(1_000_000_000), 1000));
    assert!(!feedback_active(None, 1000));
}

#[test]
fn backspace_undoes_typing_a_character() {
    let mut h = InputHandler::new();
    typed(&mut h, "abc");
    h.handle_key_event(Key::Left, None, plain());
    typed(&mut h, "Z");
    assert_eq!((h.password_length(), h.cursor_position()), (4, 3));
    h.handle_key_event(Key::BackSpace, None, plain());
    assert_eq!((h.password_length(), h.cursor_position()), (3, 2));
    match h.handle_key_event(Key::Return, None, plain()) {
        InputAction::SubmitPassword(p) => assert_eq!(p.as_str(), "abc"),
        _ => panic!("Enter must submit the password"),
    }
}
