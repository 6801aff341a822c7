//! The decisions of a locked session: the grace period, authentication
//! results, key routing, the frame timer and screen capture. The event loop
//! that drives them reads the clock and passes the time in nanoseconds on
//! its own monotonic scale.
use vstd::prelude::*;
use crate::input::Key;
use crate::system::SystemCommand;

verus! {

/// Interval of the frame timer, in milliseconds.
pub const FRAME_INTERVAL_MS: u64 = 16;

/// Interval of the frame timer while an unlock is pending, in milliseconds.
pub const UNLOCK_POLL_MS: u64 = 100;

/// How long screen capture may take before locking goes ahead, in milliseconds.
pub const CAPTURE_TIMEOUT_MS: u64 = 2000;

/// Output size used when an output reports no mode.
pub const DEFAULT_OUTPUT_WIDTH: i32 = 1920;

/// Output size used when an output reports no mode.
pub const DEFAULT_OUTPUT_HEIGHT: i32 = 1080;

/// What follows an authentication result.
#[derive(Clone, Copy, Debug, PartialEq, Eq, Structural)]
pub enum AuthEffect {
    /// Ask the compositor to unlock and wait for it to finish.
    UnlockRequested,
    /// No lock is held: leave at once.
    Exit,
    /// Show wrong-password feedback on every surface.
    ShowWrongPassword,
}

/// Where a key press goes.
#[derive(Clone, Copy, Debug, PartialEq, Eq, Structural)]
pub enum KeyRoute {
    /// The key arrived within the grace period and counts as a successful
    /// authentication, with this effect.
    GraceUnlock(AuthEffect),
    /// A function key: carry out this session command.
    SessionCommand(SystemCommand),
    /// Enter: collect the typed password from the surfaces and submit it.
    SubmitPassword,
    /// Any other key: hand it to the lock manager.
    Forward,
}

/// What the frame timer does.
#[derive(Clone, Copy, Debug, PartialEq, Eq, Structural)]
pub enum TickAction {
    /// An unlock is pending: draw nothing, come back after `UNLOCK_POLL_MS`.
    AwaitUnlock,
    /// Update and commit every surface, then come back after `FRAME_INTERVAL_MS`.
    RedrawAndContinue,
    /// Update and commit every surface, then stop the timer.
    RedrawAndStop,
}

/// The session command of a function key: F1 suspends, F2 reboots, F3
/// powers off.
pub open spec fn spec_session_command(key: Key) -> Option<SystemCommand> {
    match key {
        Key::F1 => Some(SystemCommand::Suspend),
        Key::F2 => Some(SystemCommand::Reboot),
        Key::F3 => Some(SystemCommand::PowerOff),
        _ => None,
    }
}

/// The session command of a function key: F1 suspends, F2 reboots, F3
/// powers off; other keys have none.
pub fn session_command(key: Key) -> (command: Option<SystemCommand>)
    ensures
        command == spec_session_command(key),
{
    match key {
        Key::F1 => Some(SystemCommand::Suspend),
        Key::F2 => Some(SystemCommand::Reboot),
        Key::F3 => Some(SystemCommand::PowerOff),
        _ => None,
    }
}

/// Where a key goes once no grace period applies: a function key to its
/// session command, Enter to password submission, anything else to the lock
/// manager.
pub open spec fn spec_key_route(key: Key) -> KeyRoute {
    match spec_session_command(key) {
        Some(command) => KeyRoute::SessionCommand(command),
        None => if key == Key::Return {
            KeyRoute::SubmitPassword
        } else {
            KeyRoute::Forward
        },
    }
}

/// The state of a locked session.
pub struct LockSession {
    grace_deadline: Option<u128>,
    unlocking: bool,
    exit: bool,
    lock_held: bool,
    pending_captures: usize,
}

/// The effect of an authentication result, given whether a lock is held.
pub open spec fn spec_auth_effect(success: bool, lock_held: bool) -> AuthEffect {
    if !success {
        AuthEffect::ShowWrongPassword
    } else if lock_held {
        AuthEffect::UnlockRequested
    } else {
        AuthEffect::Exit
    }
}

impl LockSession {
    pub closed spec fn spec_grace_deadline(&self) -> Option<u128> {
        self.grace_deadline
    }

    pub closed spec fn spec_unlocking(&self) -> bool {
        self.unlocking
    }

    pub closed spec fn spec_exit(&self) -> bool {
        self.exit
    }

    pub closed spec fn spec_lock_held(&self) -> bool {
        self.lock_held
    }

    pub closed spec fn spec_pending_captures(&self) -> int {
        self.pending_captures as int
    }

    /// A session before the compositor has locked: no grace period, nothing
    /// pending.
    pub fn new() -> (s: Self)
        ensures
            s.spec_grace_deadline() is None,
            !s.spec_unlocking(),
            !s.spec_exit(),
            !s.spec_lock_held(),
            s.spec_pending_captures() == 0,
    {
        LockSession {
            grace_deadline: None,
            unlocking: false,
            exit: false,
            lock_held: false,
            pending_captures: 0,
        }
    }

    /// A session lock object has been obtained from the compositor.
    pub fn lock_acquired(&mut self)
        ensures
            final(self).spec_lock_held(),
            final(self).spec_grace_deadline() == old(self).spec_grace_deadline(),
            final(self).spec_unlocking() == old(self).spec_unlocking(),
            final(self).spec_exit() == old(self).spec_exit(),
            final(self).spec_pending_captures() == old(self).spec_pending_captures(),
    {
        self.lock_held = true;
    }

    /// The compositor confirmed the lock at `now_ns`: any key within
    /// `grace_ns` from now unlocks without a password.
    pub fn locked(&mut self, now_ns: u128, grace_ns: u128)
        requires
            now_ns + grace_ns <= u128::MAX,
        ensures
            final(self).spec_grace_deadline() == Some((now_ns + grace_ns) as u128),
            final(self).spec_unlocking() == old(self).spec_unlocking(),
            final(self).spec_exit() == old(self).spec_exit(),
            final(self).spec_lock_held() == old(self).spec_lock_held(),
            final(self).spec_pending_captures() == old(self).spec_pending_captures(),
    {
        self.grace_deadline = Some(now_ns + grace_ns);
    }

    /// The compositor ended the lock: leave.
    pub fn finished(&mut self)
        ensures
            final(self).spec_exit(),
            final(self).spec_grace_deadline() == old(self).spec_grace_deadline(),
            final(self).spec_unlocking() == old(self).spec_unlocking(),
            final(self).spec_lock_held() == old(self).spec_lock_held(),
            final(self).spec_pending_captures() == old(self).spec_pending_captures(),
    {
        self.exit = true;
    }

    /// An authentication result arrived. Any result ends the grace period; a
    /// success requests the unlock (or, with no lock held, leaves); a
    /// failure asks for wrong-password feedback.
    pub fn handle_auth_result(&mut self, success: bool) -> (effect: AuthEffect)
        ensures
            effect == spec_auth_effect(success, old(self).spec_lock_held()),
            final(self).spec_grace_deadline() is None,
            final(self).spec_unlocking() == (old(self).spec_unlocking() || (success
                && old(self).spec_lock_held())),
            final(self).spec_exit() == (old(self).spec_exit() || (success
                && !old(self).spec_lock_held())),
            final(self).spec_lock_held() == old(self).spec_lock_held(),
            final(self).spec_pending_captures() == old(self).spec_pending_captures(),
    {
        self.grace_deadline = None;
        if success {
            if self.lock_held {
                self.unlocking = true;
                AuthEffect::UnlockRequested
            } else {
                self.exit = true;
                AuthEffect::Exit
            }
        } else {
            AuthEffect::ShowWrongPassword
        }
    }

    /// A key was pressed at `now_ns`. Before its deadline, the grace period
    /// turns any key into a successful authentication; past it, the grace
    /// period ends. Otherwise F1, F2 and F3 suspend, reboot and power off,
    /// Enter submits the password and every other key goes to the lock
    /// manager.
    pub fn handle_key(&mut self, key: Key, now_ns: u128) -> (route: KeyRoute)
        ensures
            match old(self).spec_grace_deadline() {
                Some(deadline) if now_ns < deadline => {
                    &&& route == KeyRoute::GraceUnlock(
                        spec_auth_effect(true, old(self).spec_lock_held()),
                    )
                    &&& final(self).spec_unlocking() == (old(self).spec_unlocking()
                        || old(self).spec_lock_held())
                    &&& final(self).spec_exit() == (old(self).spec_exit()
                        || !old(self).spec_lock_held())
                },
                _ => {
                    &&& route == spec_key_route(key)
                    &&& final(self).spec_unlocking() == old(self).spec_unlocking()
                    &&& final(self).spec_exit() == old(self).spec_exit()
                },
            },
            final(self).spec_grace_deadline() is None,
            final(self).spec_lock_held() == old(self).spec_lock_held(),
            final(self).spec_pending_captures() == old(self).spec_pending_captures(),
    {
        match self.grace_deadline {
            Some(deadline) => {
                if now_ns < deadline {
                    let effect = self.handle_auth_result(true);
                    return KeyRoute::GraceUnlock(effect);
                } else {
                    self.grace_deadline = None;
                }
            },
            None => {},
        }
        match session_command(key) {
            Some(command) => KeyRoute::SessionCommand(command),
            None => if key == Key::Return {
                KeyRoute::SubmitPassword
            } else {
                KeyRoute::Forward
            },
        }
    }

    /// The frame timer fired at `now_ns`: an expired grace period ends; a
    /// pending unlock suspends drawing; otherwise the surfaces are redrawn and
    /// the timer stops once the session is to exit.
    pub fn tick(&mut self, now_ns: u128) -> (action: TickAction)
        ensures
            final(self).spec_grace_deadline() == (match old(self).spec_grace_deadline() {
                Some(deadline) => if now_ns >= deadline {
                    None
                } else {
                    Some(deadline)
                },
                None => None,
            }),
            action == (if old(self).spec_unlocking() {
                TickAction::AwaitUnlock
            } else if old(self).spec_exit() {
                TickAction::RedrawAndStop
            } else {
                TickAction::RedrawAndContinue
            }),
            final(self).spec_unlocking() == old(self).spec_unlocking(),
            final(self).spec_exit() == old(self).spec_exit(),
            final(self).spec_lock_held() == old(self).spec_lock_held(),
            final(self).spec_pending_captures() == old(self).spec_pending_captures(),
    {
        match self.grace_deadline {
            Some(deadline) => {
                if now_ns >= deadline {
                    self.grace_deadline = None;
                }
            },
            None => {},
        }
        if self.unlocking {
            TickAction::AwaitUnlock
        } else if self.exit {
            TickAction::RedrawAndStop
        } else {
            TickAction::RedrawAndContinue
        }
    }

    /// Whether the session is to end.
    pub fn should_exit(&self) -> (exit: bool)
        ensures
            exit == self.spec_exit(),
    {
        self.exit
    }

    /// Whether an unlock has been requested.
    pub fn is_unlocking(&self) -> (unlocking: bool)
        ensures
            unlocking == self.spec_unlocking(),
    {
        self.unlocking
    }

    /// Screen capture starts for `outputs` outputs.
    pub fn begin_captures(&mut self, outputs: usize)
        ensures
            final(self).spec_pending_captures() == outputs,
            final(self).spec_grace_deadline() == old(self).spec_grace_deadline(),
            final(self).spec_unlocking() == old(self).spec_unlocking(),
            final(self).spec_exit() == old(self).spec_exit(),
            final(self).spec_lock_held() == old(self).spec_lock_held(),
    {
        self.pending_captures = outputs;
    }

    /// One capture finished, failed or could not be started.
    pub fn capture_done(&mut self)
        requires
            old(self).spec_pending_captures() > 0,
        ensures
            final(self).spec_pending_captures() == old(self).spec_pending_captures() - 1,
            final(self).spec_grace_deadline() == old(self).spec_grace_deadline(),
            final(self).spec_unlocking() == old(self).spec_unlocking(),
            final(self).spec_exit() == old(self).spec_exit(),
            final(self).spec_lock_held() == old(self).spec_lock_held(),
    {
        self.pending_captures = self.pending_captures - 1;
    }

    /// How many captures are still outstanding.
    pub fn pending_captures(&self) -> (n: usize)
        ensures
            n == self.spec_pending_captures(),
    {
        self.pending_captures
    }

    /// Whether to keep waiting for captures after `elapsed_ms`: some are
    /// outstanding and the capture timeout has not passed.
    pub fn awaiting_captures(&self, elapsed_ms: u128) -> (wait: bool)
        ensures
            wait == (self.spec_pending_captures() > 0 && elapsed_ms < CAPTURE_TIMEOUT_MS),
    {
        self.pending_captures > 0 && elapsed_ms < CAPTURE_TIMEOUT_MS as u128
    }
}

/// The size of an output: its first mode, or the default size when it
/// reports none.
pub fn output_size(first_mode: Option<(i32, i32)>) -> (size: (i32, i32))
    ensures
        size == (match first_mode {
            Some(m) => m,
            None => (DEFAULT_OUTPUT_WIDTH, DEFAULT_OUTPUT_HEIGHT),
        }),
{
    match first_mode {
        Some(m) => m,
        None => (DEFAULT_OUTPUT_WIDTH, DEFAULT_OUTPUT_HEIGHT),
    }
}

} // verus!
