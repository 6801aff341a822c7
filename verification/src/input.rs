//! Keyboard input for password entry.
use vstd::prelude::*;
use std::time::Instant;
use crate::clock::{now, nanos_since};
use crate::secret::{
    Secret,
    secret_text,
    all_ascii,
    empty_secret,
    secret_len,
    secret_insert,
    secret_remove,
    secret_clear,
    secret_clone,
    secret_is_empty,
};

verus! {

/// The keys that password entry treats specially; every other key is `Other`.
#[derive(Clone, Copy, Debug, PartialEq, Eq, Structural)]
pub enum Key {
    BackSpace,
    Return,
    KpEnter,
    Escape,
    Left,
    Right,
    Home,
    End,
    Delete,
    /// The letter `u` (cleared together with Control).
    U,
    /// Function keys, which control the session.
    F1,
    F2,
    F3,
    Other,
}

/// The modifier state that password entry reads.
#[derive(Clone, Copy, Debug, PartialEq, Eq, Structural)]
pub struct KeyModifiers {
    pub ctrl: bool,
    pub caps_lock: bool,
}

/// Actions that can result from keyboard input
pub enum InputAction {
    /// The key changed nothing.
    Ignored,
    PasswordChanged,
    PasswordCleared,
    CursorMoved,
    SubmitPassword(Secret),
    Cancel,
}

/// How long wrong-password feedback stays visible, in milliseconds.
pub const WRONG_PASSWORD_FEEDBACK_MS: u64 = 1000;

/// How long key-highlight feedback stays visible, in milliseconds.
pub const KEY_HIGHLIGHT_FEEDBACK_MS: u64 = 200;

/// Characters that password entry accepts: printable ASCII.
pub open spec fn accepted_char(c: char) -> bool {
    0x20 <= (c as u32) < 0x7f
}

/// The characters of `text` that password entry accepts, in order.
pub open spec fn accepted(text: Seq<char>) -> Seq<char>
    decreases text.len(),
{
    if text.len() == 0 {
        Seq::empty()
    } else {
        let rest = accepted(text.drop_last());
        if accepted_char(text.last()) {
            rest.push(text.last())
        } else {
            rest
        }
    }
}

/// The password and cursor after a key press.
pub open spec fn key_effect(
    password: Seq<char>,
    cursor: int,
    key: Key,
    text: Option<Seq<char>>,
    ctrl: bool,
) -> (Seq<char>, int) {
    if ctrl && key == Key::U {
        if password.len() > 0 {
            (Seq::empty(), 0)
        } else {
            (password, cursor)
        }
    } else {
        match key {
            Key::BackSpace => if password.len() > 0 && cursor > 0 {
                (password.remove(cursor - 1), cursor - 1)
            } else {
                (password, cursor)
            },
            Key::Return | Key::KpEnter => (Seq::empty(), 0),
            Key::Escape => (password, cursor),
            Key::Left => if cursor > 0 {
                (password, cursor - 1)
            } else {
                (password, cursor)
            },
            Key::Right => if cursor < password.len() {
                (password, cursor + 1)
            } else {
                (password, cursor)
            },
            Key::Home => (password, 0),
            Key::End => (password, password.len() as int),
            Key::Delete => if cursor < password.len() {
                (password.remove(cursor), cursor)
            } else {
                (password, cursor)
            },
            _ => match text {
                Some(t) => (
                    password.subrange(0, cursor) + accepted(t) + password.subrange(
                        cursor,
                        password.len() as int,
                    ),
                    cursor + accepted(t).len(),
                ),
                None => (password, cursor),
            },
        }
    }
}

/// The action that a key press reports, given the password and cursor before it.
pub open spec fn key_action(
    action: InputAction,
    password: Seq<char>,
    cursor: int,
    key: Key,
    text: Option<Seq<char>>,
    ctrl: bool,
) -> bool {
    if ctrl && key == Key::U {
        if password.len() > 0 {
            action is PasswordCleared
        } else {
            action is Ignored
        }
    } else {
        match key {
            Key::BackSpace => if password.len() == 1 && cursor > 0 {
                action is PasswordCleared
            } else {
                action is PasswordChanged
            },
            Key::Return | Key::KpEnter => action matches InputAction::SubmitPassword(p) && secret_text(p)
                == password,
            Key::Escape => action is Cancel,
            Key::Left | Key::Home => if cursor > 0 {
                action is CursorMoved
            } else {
                action is Ignored
            },
            Key::Right | Key::End => if cursor < password.len() {
                action is CursorMoved
            } else {
                action is Ignored
            },
            Key::Delete => if cursor < password.len() {
                if password.len() == 1 {
                    action is PasswordCleared
                } else {
                    action is PasswordChanged
                }
            } else {
                action is Ignored
            },
            _ => if text is Some {
                action is PasswordChanged
            } else {
                action is Ignored
            },
        }
    }
}

/// Every character is accepted by password entry.
pub open spec fn all_accepted(password: Seq<char>) -> bool {
    forall|i: int| 0 <= i < password.len() ==> accepted_char(#[trigger] password[i])
}

/// Whether a feedback that started `elapsed_nanos` ago (if it started) is
/// still within its window of `window_ms` milliseconds.
pub open spec fn spec_feedback_active(elapsed_nanos: Option<u128>, window_ms: u64) -> bool {
    match elapsed_nanos {
        Some(e) => e < window_ms * 1_000_000,
        None => false,
    }
}

/// Whether a feedback that started `elapsed_nanos` ago (if it started) is
/// still within its window of `window_ms` milliseconds.
pub fn feedback_active(elapsed_nanos: Option<u128>, window_ms: u64) -> (active: bool)
    ensures
        active == spec_feedback_active(elapsed_nanos, window_ms),
{
    match elapsed_nanos {
        Some(e) => e < (window_ms as u128) * 1_000_000,
        None => false,
    }
}

proof fn lemma_accepted_chars(text: Seq<char>)
    ensures
        all_accepted(accepted(text)),
        accepted(text).len() <= text.len(),
    decreases text.len(),
{
    if text.len() > 0 {
        lemma_accepted_chars(text.drop_last());
    }
}

proof fn lemma_accepted_prefix_len(text: Seq<char>, i: int)
    requires
        0 <= i <= text.len(),
    ensures
        accepted(text.take(i)).len() <= accepted(text).len(),
    decreases text.len() - i,
{
    if i < text.len() {
        lemma_accepted_prefix_len(text, i + 1);
        assert(text.take(i + 1).drop_last() =~= text.take(i));
    } else {
        assert(text.take(i) =~= text);
    }
}

/// Handles keyboard input for password entry
pub struct InputHandler {
    password_buffer: Secret,
    cursor_position: usize,
    wrong_password_timer: Option<Instant>,
    key_highlight_timer: Option<Instant>,
    caps_lock: bool,
}

impl InputHandler {
    /// The password typed so far.
    pub closed spec fn spec_password(&self) -> Seq<char> {
        secret_text(self.password_buffer)
    }

    /// The cursor's position in the password.
    pub closed spec fn spec_cursor(&self) -> int {
        self.cursor_position as int
    }

    /// The Caps Lock state of the last key press.
    pub closed spec fn spec_caps_lock(&self) -> bool {
        self.caps_lock
    }

    /// When wrong-password feedback was last started.
    pub closed spec fn spec_wrong_password_timer(&self) -> Option<Instant> {
        self.wrong_password_timer
    }

    /// When key-highlight feedback was last started.
    pub closed spec fn spec_key_highlight_timer(&self) -> Option<Instant> {
        self.key_highlight_timer
    }

    /// Whether wrong-password feedback has ever been started.
    pub closed spec fn spec_wrong_password_started(&self) -> bool {
        self.wrong_password_timer is Some
    }

    /// Whether key-highlight feedback has ever been started.
    pub closed spec fn spec_key_highlight_started(&self) -> bool {
        self.key_highlight_timer is Some
    }

    /// The cursor lies within the password, which holds printable ASCII only
    /// and fits in a `String`.
    pub open spec fn wf(&self) -> bool {
        &&& 0 <= self.spec_cursor() <= self.spec_password().len()
        &&& all_accepted(self.spec_password())
        &&& self.spec_password().len() <= isize::MAX
    }

    pub fn new() -> (handler: Self)
        ensures
            handler.wf(),
            handler.spec_password() == Seq::<char>::empty(),
            handler.spec_cursor() == 0,
            !handler.spec_caps_lock(),
            !handler.spec_wrong_password_started(),
            !handler.spec_key_highlight_started(),
    {
        InputHandler {
            password_buffer: empty_secret(),
            cursor_position: 0,
            wrong_password_timer: None,
            key_highlight_timer: None,
            caps_lock: false,
        }
    }

    /// Handle a key event: `key` and the text it types, if any, with the
    /// modifiers held.
    pub fn handle_key_event(
        &mut self,
        key: Key,
        utf8: Option<String>,
        modifiers: KeyModifiers,
    ) -> (action: InputAction)
        requires
            old(self).wf(),
            utf8 matches Some(t) ==> old(self).spec_password().len() + accepted(t@).len() <= isize::MAX,
        ensures
            final(self).wf(),
            final(self).spec_caps_lock() == modifiers.caps_lock,
            (final(self).spec_password(), final(self).spec_cursor()) == key_effect(
                old(self).spec_password(),
                old(self).spec_cursor(),
                key,
                match utf8 {
                    Some(t) => Some(t@),
                    None => None,
                },
                modifiers.ctrl,
            ),
            key_action(
                action,
                old(self).spec_password(),
                old(self).spec_cursor(),
                key,
                match utf8 {
                    Some(t) => Some(t@),
                    None => None,
                },
                modifiers.ctrl,
            ),
            final(self).spec_wrong_password_timer() == old(self).spec_wrong_password_timer(),
            final(self).spec_key_highlight_timer() == old(self).spec_key_highlight_timer(),
    {
        self.caps_lock = modifiers.caps_lock;
        proof {
            assert(all_ascii(secret_text(self.password_buffer)));
        }
        if modifiers.ctrl && key == Key::U {
            if !secret_is_empty(&self.password_buffer) {
                secret_clear(&mut self.password_buffer);
                self.cursor_position = 0;
                return InputAction::PasswordCleared;
            }
            return InputAction::Ignored;
        }
        match key {
            Key::BackSpace => {
                if !secret_is_empty(&self.password_buffer) && self.cursor_position > 0 {
                    self.cursor_position = self.cursor_position - 1;
                    secret_remove(&mut self.password_buffer, self.cursor_position);
                    if secret_is_empty(&self.password_buffer) {
                        return InputAction::PasswordCleared;
                    }
                }
                return InputAction::PasswordChanged;
            },
            Key::Return | Key::KpEnter => {
                let password = secret_clone(&self.password_buffer);
                secret_clear(&mut self.password_buffer);
                self.cursor_position = 0;
                return InputAction::SubmitPassword(password);
            },
            Key::Escape => {
                return InputAction::Cancel;
            },
            Key::Left => {
                if self.cursor_position > 0 {
                    self.cursor_position = self.cursor_position - 1;
                    return InputAction::CursorMoved;
                }
                return InputAction::Ignored;
            },
            Key::Right => {
                if self.cursor_position < secret_len(&self.password_buffer) {
                    self.cursor_position = self.cursor_position + 1;
                    return InputAction::CursorMoved;
                }
                return InputAction::Ignored;
            },
            Key::Home => {
                if self.cursor_position > 0 {
                    self.cursor_position = 0;
                    return InputAction::CursorMoved;
                }
                return InputAction::Ignored;
            },
            Key::End => {
                let len = secret_len(&self.password_buffer);
                if self.cursor_position < len {
                    self.cursor_position = len;
                    return InputAction::CursorMoved;
                }
                return InputAction::Ignored;
            },
            Key::Delete => {
                if self.cursor_position < secret_len(&self.password_buffer) {
                    secret_remove(&mut self.password_buffer, self.cursor_position);
                    if secret_is_empty(&self.password_buffer) {
                        return InputAction::PasswordCleared;
                    }
                    return InputAction::PasswordChanged;
                }
                return InputAction::Ignored;
            },
            _ => {},
        }
        match utf8 {
            Some(txt) => {
                self.insert_text(txt.as_str());
                InputAction::PasswordChanged
            },
            None => InputAction::Ignored,
        }
    }

    /// Inserts the accepted characters of `txt` at the cursor, moving the
    /// cursor past them.
    fn insert_text(&mut self, txt: &str)
        requires
            old(self).wf(),
            old(self).spec_password().len() + accepted(txt@).len() <= isize::MAX,
        ensures
            final(self).wf(),
            final(self).spec_password() == old(self).spec_password().subrange(0, old(self).spec_cursor())
                + accepted(txt@) + old(self).spec_password().subrange(
                old(self).spec_cursor(),
                old(self).spec_password().len() as int,
            ),
            final(self).spec_cursor() == old(self).spec_cursor() + accepted(txt@).len(),
            final(self).spec_caps_lock() == old(self).spec_caps_lock(),
            final(self).spec_wrong_password_timer() == old(self).spec_wrong_password_timer(),
            final(self).spec_key_highlight_timer() == old(self).spec_key_highlight_timer(),
    {
        let ghost pw0 = self.spec_password();
        let ghost cur0 = self.spec_cursor();
        let ghost prefix = pw0.subrange(0, cur0);
        let ghost suffix = pw0.subrange(cur0, pw0.len() as int);
        let n = txt.unicode_len();
        let mut i: usize = 0;
        while i < n
            invariant
                i <= n,
                n == txt@.len(),
                self.wf(),
                pw0.len() + accepted(txt@).len() <= isize::MAX,
                self.spec_password() == prefix + accepted(txt@.take(i as int)) + suffix,
                self.spec_cursor() == cur0 + accepted(txt@.take(i as int)).len(),
                self.spec_caps_lock() == old(self).spec_caps_lock(),
                self.wrong_password_timer == old(self).wrong_password_timer,
                self.key_highlight_timer == old(self).key_highlight_timer,
                prefix.len() == cur0,
                prefix + suffix == pw0,
            decreases n - i,
        {
            let c = txt.get_char(i);
            proof {
                lemma_accepted_chars(txt@.take(i as int));
                assert(txt@.take(i + 1).drop_last() =~= txt@.take(i as int));
                assert(txt@.take(i + 1).last() == c);
                lemma_accepted_prefix_len(txt@, i + 1);
            }
            let code = c as u32;
            if 0x20 <= code && code < 0x7f {
                proof {
                    assert(all_ascii(secret_text(self.password_buffer)));
                }
                secret_insert(&mut self.password_buffer, self.cursor_position, c);
                self.cursor_position = self.cursor_position + 1;
                proof {
                    let acc = accepted(txt@.take(i as int));
                    assert((prefix + acc + suffix).insert(cur0 + acc.len(), c) =~= prefix + acc.push(c)
                        + suffix);
                }
            }
            i = i + 1;
        }
        assert(txt@.take(n as int) =~= txt@);
    }

    pub fn password_length(&self) -> (len: usize)
        requires
            self.wf(),
        ensures
            len == self.spec_password().len(),
    {
        secret_len(&self.password_buffer)
    }

    pub fn cursor_position(&self) -> (pos: usize)
        ensures
            pos == self.spec_cursor(),
    {
        self.cursor_position
    }

    /// Set wrong password feedback timer
    pub fn set_wrong_password_feedback(&mut self)
        ensures
            final(self).spec_wrong_password_started(),
            final(self).spec_password() == old(self).spec_password(),
            final(self).spec_cursor() == old(self).spec_cursor(),
            final(self).spec_caps_lock() == old(self).spec_caps_lock(),
            final(self).spec_key_highlight_timer() == old(self).spec_key_highlight_timer(),
            old(self).wf() ==> final(self).wf(),
    {
        self.wrong_password_timer = Some(now());
    }

    /// Check if wrong password feedback should be shown: only within
    /// `WRONG_PASSWORD_FEEDBACK_MS` of it being set.
    pub fn should_show_wrong_password(&self) -> (show: bool)
        ensures
            !self.spec_wrong_password_started() ==> !show,
    {
        let elapsed = match &self.wrong_password_timer {
            Some(t) => Some(nanos_since(t)),
            None => None,
        };
        feedback_active(elapsed, WRONG_PASSWORD_FEEDBACK_MS)
    }

    /// Set key highlight timer (for visual feedback)
    pub fn set_key_highlight(&mut self)
        ensures
            final(self).spec_key_highlight_started(),
            final(self).spec_password() == old(self).spec_password(),
            final(self).spec_cursor() == old(self).spec_cursor(),
            final(self).spec_caps_lock() == old(self).spec_caps_lock(),
            final(self).spec_wrong_password_timer() == old(self).spec_wrong_password_timer(),
            old(self).wf() ==> final(self).wf(),
    {
        self.key_highlight_timer = Some(now());
    }

    /// Check if key highlight should be shown: only within
    /// `KEY_HIGHLIGHT_FEEDBACK_MS` of it being set.
    pub fn should_show_key_highlight(&self) -> (show: bool)
        ensures
            !self.spec_key_highlight_started() ==> !show,
    {
        let elapsed = match &self.key_highlight_timer {
            Some(t) => Some(nanos_since(t)),
            None => None,
        };
        feedback_active(elapsed, KEY_HIGHLIGHT_FEEDBACK_MS)
    }

    /// Update timers (should be called periodically)
    pub fn update(&mut self)
        ensures
            *final(self) == *old(self),
    {
    }

    /// Get the current Caps Lock state
    pub fn caps_lock(&self) -> (on: bool)
        ensures
            on == self.spec_caps_lock(),
    {
        self.caps_lock
    }
}

/// Typing a printable character and then pressing Backspace gives back the
/// password and cursor from before.
pub proof fn lemma_backspace_undoes_typing(password: Seq<char>, cursor: int, c: char)
    requires
        0 <= cursor <= password.len(),
        accepted_char(c),
    ensures
        ({
            let (typed, at) = key_effect(password, cursor, Key::Other, Some(seq![c]), false);
            key_effect(typed, at, Key::BackSpace, None, false)
        }) == (password, cursor),
{
    assert(accepted(seq![c]) =~= seq![c]) by {
        let one = seq![c];
        assert(one.drop_last() =~= Seq::<char>::empty());
        assert(accepted(Seq::<char>::empty()) =~= Seq::<char>::empty());
        assert(one.last() == c);
        assert(accepted(one) == accepted(one.drop_last()).push(c));
    }
    let typed = password.subrange(0, cursor) + seq![c] + password.subrange(cursor, password.len() as int);
    assert(typed.remove(cursor) =~= password);
}

/// Typing `text` into an empty password and pressing Enter submits exactly
/// the printable ASCII characters of `text` and leaves the password empty.
pub proof fn lemma_submit_gives_typed_text(text: Seq<char>, action: InputAction)
    ensures
        ({
            let (typed, at) = key_effect(Seq::empty(), 0, Key::Other, Some(text), false);
            &&& key_action(action, typed, at, Key::Return, None, false) <==> (action matches InputAction::SubmitPassword(p) && secret_text(p) == accepted(text))
            &&& key_effect(typed, at, Key::Return, None, false) == (Seq::<char>::empty(), 0int)
        }),
{
    let empty = Seq::<char>::empty();
    assert(empty.subrange(0, 0) + accepted(text) + empty.subrange(0, 0) =~= accepted(text));
}

/// Delete removes the character under the cursor: the characters before the
/// cursor stay where they are, each one after it moves one place to the left,
/// and the cursor stays; with the cursor at the end nothing changes.
pub proof fn lemma_delete_removes_char_under_cursor(
    password: Seq<char>,
    cursor: int,
    text: Option<Seq<char>>,
    ctrl: bool,
)
    requires
        0 <= cursor <= password.len(),
    ensures
        ({
            let (after, at) = key_effect(password, cursor, Key::Delete, text, ctrl);
            &&& at == cursor
            &&& cursor < password.len() ==> {
                &&& after.len() == password.len() - 1
                &&& forall|i: int| 0 <= i < cursor ==> after[i] == password[i]
                &&& forall|i: int| cursor <= i < after.len() ==> after[i] == password[i + 1]
            }
            &&& cursor == password.len() ==> after == password
        }),
{
}

/// Backspace removes the character before the cursor: the characters before
/// it stay, each one from the cursor on moves one place to the left, and the
/// cursor moves one place left; with the cursor at the start nothing changes.
pub proof fn lemma_backspace_removes_char_before_cursor(
    password: Seq<char>,
    cursor: int,
    text: Option<Seq<char>>,
    ctrl: bool,
)
    requires
        0 <= cursor <= password.len(),
    ensures
        ({
            let (after, at) = key_effect(password, cursor, Key::BackSpace, text, ctrl);
            &&& cursor > 0 ==> {
                &&& at == cursor - 1
                &&& after.len() == password.len() - 1
                &&& forall|i: int| 0 <= i < cursor - 1 ==> after[i] == password[i]
                &&& forall|i: int| cursor - 1 <= i < after.len() ==> after[i] == password[i + 1]
            }
            &&& cursor == 0 ==> after == password && at == 0
        }),
{
}

/// A feedback is shown only once it has been started, and only until its
/// window has passed: from `window_ms` milliseconds after it started it is
/// no longer shown, and it is not shown again as more time passes.
pub proof fn lemma_feedback_shown_within_its_window(e1: u128, e2: u128, window_ms: u64)
    requires
        e1 <= e2,
    ensures
        !spec_feedback_active(None, window_ms),
        e1 >= window_ms * 1_000_000 ==> !spec_feedback_active(Some(e1), window_ms),
        e1 < window_ms * 1_000_000 ==> spec_feedback_active(Some(e1), window_ms),
        spec_feedback_active(Some(e2), window_ms) ==> spec_feedback_active(Some(e1), window_ms),
        e1 >= 1_000_000_000 ==> !spec_feedback_active(Some(e1), WRONG_PASSWORD_FEEDBACK_MS)
            && !spec_feedback_active(Some(e1), KEY_HIGHLIGHT_FEEDBACK_MS),
{
}

} // verus!
