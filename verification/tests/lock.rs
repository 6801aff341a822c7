use rustlock::auth::{pam_request, pam_request_for, PamConversation};
use rustlock::input::{InputAction, Key, KeyModifiers};
use rustlock::lock::{submitted_password, LockManager, LockedSurface};
use rustlock::secret::Secret;

fn no_modifiers() -> KeyModifiers {
    KeyModifiers { ctrl: false, caps_lock: false }
}

#[test]
fn surfaces_need_a_drawable_size() {
    assert!(LockedSurface::new(0, 100, false).is_none());
    assert!(LockedSurface::new(100, -5, false).is_none());
    let s = LockedSurface::new(800, 600, false).unwrap();
    assert_eq!(s.dimensions(), (800, 600));
    assert_eq!(s.input_handler().password_length(), 0);
}

#[test]
fn resize_ignores_undrawable_sizes() {
    let mut s = LockedSurface::new(800, 600, false).unwrap();
    s.resize(0, 10);
    assert_eq!(s.dimensions(), (800, 600));
    s.resize(1024, 768);
    assert_eq!(s.dimensions(), (1024, 768));
}

#[test]
fn surface_reports_only_keys_that_change_something() {
    let mut s = LockedSurface::new(10, 10, false).unwrap();
    assert!(s.handle_key_event(Key::Left, None, no_modifiers()).is_none());
    assert!(matches!(
        s.handle_key_event(Key::Other, Some("pw".to_string()), no_modifiers()),
        Some(InputAction::PasswordChanged)
    ));
    assert!(!s.input_handler().should_show_key_highlight());
    match s.handle_key_event(Key::KpEnter, None, no_modifiers()) {
        Some(InputAction::SubmitPassword(p)) => assert_eq!(p.as_str(), "pw"),
        _ => panic!("Enter must submit"),
    }
    assert!(s.input_handler().should_show_key_highlight());
}

#[test]
fn feedback_starts_when_it_becomes_active() {
    let mut s = LockedSurface::new(10, 10, false).unwrap();
    let starts = s.update();
    assert!(!starts.wrong_password && !starts.key_highlight);
    s.show_wrong_password();
    let starts = s.update();
    assert!(starts.wrong_password);
    assert!(!s.update().wrong_password);
    let both = s.observe_feedback(false, true);
    assert!(!both.wrong_password && both.key_highlight);
}

#[test]
fn manager_adds_only_drawable_surfaces() {
    let mut m = LockManager::new(false);
    assert!(!m.is_locked());
    assert!(m.add_surface(1920, 1080));
    assert!(!m.add_surface(0, 1080));
    assert_eq!(m.surface_count(), 1);
    assert!(m.get_surface(1).is_none());
    assert_eq!(m.get_surface(0).unwrap().dimensions(), (1920, 1080));
    m.lock();
    assert!(m.is_locked());
    m.unlock();
    assert!(!m.is_locked());
}

#[test]
fn first_surface_without_outputs_has_the_default_size() {
    let mut m = LockManager::new(false);
    m.initialize_lock_surfaces();
    assert_eq!(m.surface_count(), 1);
    assert_eq!(m.get_surface(0).unwrap().dimensions(), (1920, 1080));
    m.initialize_lock_surfaces();
    assert_eq!(m.surface_count(), 1);
}

#[test]
fn every_surface_gets_the_key() {
    let mut m = LockManager::new(false);
    m.add_surface(100, 100);
    m.add_surface(200, 100);
    let a = m.handle_key_event(Key::Other, Some("abc".to_string()), no_modifiers());
    assert!(matches!(a, Some(InputAction::PasswordChanged)));
    assert_eq!(m.get_surface(0).unwrap().input_handler().password_length(), 3);
    assert_eq!(m.get_surface(1).unwrap().input_handler().password_length(), 3);
    assert!(m.handle_key_event(Key::End, None, no_modifiers()).is_none());
    match m.handle_key_event(Key::Return, None, no_modifiers()) {
        Some(InputAction::SubmitPassword(p)) => assert_eq!(p.as_str(), "abc"),
        _ => panic!("Enter must submit"),
    }
    assert_eq!(m.get_surface(1).unwrap().input_handler().password_length(), 0);
    m.show_wrong_password();
    let starts = m.update();
    assert_eq!(starts.len(), 2);
    assert!(starts[0].wrong_password && starts[1].wrong_password);
}

#[test]
fn manager_without_surfaces_reports_nothing() {
    let mut m = LockManager::new(false);
    assert!(m.handle_key_event(Key::Return, None, no_modifiers()).is_none());
}

#[test]
fn conversation_gives_the_password_once() {
    let mut c = PamConversation::new(Secret::new("hunter2"));
    assert!(c.prompt_echo_on().is_none());
    assert!(!c.radio_prompt());
    assert_eq!(c.prompt_echo_off().unwrap().as_str(), "hunter2");
    assert!(c.prompt_echo_off().is_none());
}

#[test]
fn pam_request_names_the_service() {
    if let Some(mut r) = pam_request("login", Secret::new("pw")) {
        assert_eq!(r.service, "login");
        assert!(!r.user.is_empty());
        assert_eq!(r.conversation.prompt_echo_off().unwrap().as_str(), "pw");
    }
}

#[test]
fn only_non_empty_submissions_are_authenticated() {
    let p = submitted_password(Some(InputAction::SubmitPassword(Secret::new("pw"))));
    assert_eq!(p.unwrap().as_str(), "pw");
    assert!(submitted_password(Some(InputAction::SubmitPassword(Secret::new("")))).is_none());
    assert!(submitted_password(Some(InputAction::Cancel)).is_none());
    assert!(submitted_password(None).is_none());
}

#[test]
fn pam_request_needs_a_user_name() {
    assert!(pam_request_for("login", None, Secret::new("pw")).is_none());
    let mut r = pam_request_for("login", Some("alice".to_string()), Secret::new("pw")).unwrap();
    assert_eq!(r.service, "login");
    assert_eq!(r.user, "alice");
    assert_eq!(r.conversation.prompt_echo_off().unwrap().as_str(), "pw");
}

#[test]
fn new_surfaces_have_a_background_exactly_with_screenshots() {
    let shot = LockedSurface::new(800, 600, true).unwrap();
    assert!(shot.has_background());
    assert!(!shot.has_wayland_surface());
    let mut plain = LockedSurface::new(800, 600, false).unwrap();
    assert!(!plain.has_background());
    plain.set_wayland_surface();
    assert!(plain.has_wayland_surface());
    assert!(!plain.has_background());
    assert_eq!(plain.dimensions(), (800, 600));
    let mut m = LockManager::new(true);
    assert!(m.add_surface(640, 480));
    let s = m.get_surface(0).unwrap();
    assert!(s.has_background());
    assert!(!s.has_wayland_surface());
}
