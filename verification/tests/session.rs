use rustlock::input::Key;
use rustlock::system::SystemCommand;
use rustlock::session::{
    output_size, AuthEffect, KeyRoute, LockSession, TickAction, CAPTURE_TIMEOUT_MS,
    DEFAULT_OUTPUT_HEIGHT, DEFAULT_OUTPUT_WIDTH,
};

#[test]
fn any_key_within_the_grace_period_unlocks() {
    let mut s = LockSession::new();
    s.lock_acquired();
    s.locked(1_000, 5_000);
    assert_eq!(s.handle_key(Key::Other, 3_000), KeyRoute::GraceUnlock(AuthEffect::UnlockRequested));
    assert!(s.is_unlocking());
    assert_eq!(s.tick(3_100), TickAction::AwaitUnlock);
}

#[test]
fn grace_period_without_a_lock_exits() {
    let mut s = LockSession::new();
    s.locked(0, 10);
    assert_eq!(s.handle_key(Key::U, 5), KeyRoute::GraceUnlock(AuthEffect::Exit));
    assert!(s.should_exit());
    assert_eq!(s.tick(6), TickAction::RedrawAndStop);
}

#[test]
fn keys_after_the_grace_period_are_routed() {
    let mut s = LockSession::new();
    s.lock_acquired();
    s.locked(1_000, 5_000);
    assert_eq!(s.handle_key(Key::Return, 6_000), KeyRoute::SubmitPassword);
    assert_eq!(s.handle_key(Key::BackSpace, 1_500), KeyRoute::Forward);
    assert_eq!(s.handle_key(Key::KpEnter, 1_600), KeyRoute::Forward);
    assert!(!s.is_unlocking());
}

#[test]
fn an_authentication_result_ends_the_grace_period() {
    let mut s = LockSession::new();
    s.lock_acquired();
    s.locked(0, 1_000_000);
    assert_eq!(s.handle_auth_result(false), AuthEffect::ShowWrongPassword);
    assert_eq!(s.handle_key(Key::Other, 10), KeyRoute::Forward);
    assert_eq!(s.tick(20), TickAction::RedrawAndContinue);
    assert_eq!(s.handle_auth_result(true), AuthEffect::UnlockRequested);
    assert!(s.is_unlocking());
}

#[test]
fn finished_lock_stops_the_timer() {
    let mut s = LockSession::new();
    s.lock_acquired();
    assert_eq!(s.tick(0), TickAction::RedrawAndContinue);
    s.finished();
    assert!(s.should_exit());
    assert_eq!(s.tick(1), TickAction::RedrawAndStop);
}

#[test]
fn expired_grace_period_ends_on_tick() {
    let mut s = LockSession::new();
    s.lock_acquired();
    s.locked(0, 100);
    assert_eq!(s.tick(100), TickAction::RedrawAndContinue);
    assert_eq!(s.handle_key(Key::Other, 50), KeyRoute::Forward);
}

#[test]
fn captures_are_awaited_until_done_or_timeout() {
    let mut s = LockSession::new();
    s.begin_captures(2);
    assert_eq!(s.pending_captures(), 2);
    assert!(s.awaiting_captures(0));
    assert!(!s.awaiting_captures(CAPTURE_TIMEOUT_MS as u128));
    s.capture_done();
    assert!(s.awaiting_captures(1_999));
    s.capture_done();
    assert_eq!(s.pending_captures(), 0);
    assert!(!s.awaiting_captures(0));
}

#[test]
fn outputs_without_a_mode_get_the_default_size() {
    assert_eq!(output_size(None), (DEFAULT_OUTPUT_WIDTH, DEFAULT_OUTPUT_HEIGHT));
    assert_eq!(output_size(None), (1920, 1080));
    assert_eq!(output_size(Some((2560, 1440))), (2560, 1440));
}

#[test]
fn function_keys_control_the_session() {
    let mut s = LockSession::new();
    s.lock_acquired();
    assert_eq!(s.handle_key(Key::F1, 0), KeyRoute::SessionCommand(SystemCommand::Suspend));
    assert_eq!(s.handle_key(Key::F2, 0), KeyRoute::SessionCommand(SystemCommand::Reboot));
    assert_eq!(s.handle_key(Key::F3, 0), KeyRoute::SessionCommand(SystemCommand::PowerOff));
    assert!(!s.is_unlocking());
}

#[test]
fn function_keys_unlock_within_the_grace_period() {
    let mut s = LockSession::new();
    s.lock_acquired();
    s.locked(0, 100);
    assert_eq!(s.handle_key(Key::F3, 50), KeyRoute::GraceUnlock(AuthEffect::UnlockRequested));
}
