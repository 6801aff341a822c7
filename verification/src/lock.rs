//! The lock surfaces, one per output, and the manager that hands key presses
//! to them. A surface here holds what the logic reads: its size, its password
//! entry and the latches that start visual feedback; what it draws with lives
//! beside it, in the program around the library.
use vstd::prelude::*;
use crate::input::{InputAction, InputHandler, Key, KeyModifiers, key_effect, key_action, accepted};
use crate::secret::{Secret, secret_text};
use crate::session::{DEFAULT_OUTPUT_WIDTH, DEFAULT_OUTPUT_HEIGHT};
use crate::surface::{FeedbackLatch, spec_valid_dimensions};

verus! {

/// The text a key press types, as characters.
pub open spec fn typed_text(utf8: Option<String>) -> Option<Seq<char>> {
    match utf8 {
        Some(t) => Some(t@),
        None => None,
    }
}

/// Whether a key submits the password.
pub open spec fn submits(key: Key) -> bool {
    key == Key::Return || key == Key::KpEnter
}

/// Which visual feedback is to start on this frame.
#[derive(Clone, Copy, Debug, PartialEq, Eq, Structural)]
pub struct FeedbackStarts {
    pub wrong_password: bool,
    pub key_highlight: bool,
}

/// The locked surface of one output.
pub struct LockedSurface {
    width: i32,
    height: i32,
    input_handler: InputHandler,
    wrong_password: FeedbackLatch,
    key_highlight: FeedbackLatch,
    background: bool,
    wayland_surface: bool,
}

impl LockedSurface {
    pub closed spec fn spec_width(&self) -> i32 {
        self.width
    }

    pub closed spec fn spec_height(&self) -> i32 {
        self.height
    }

    /// The password entry of this surface.
    pub closed spec fn spec_input(&self) -> InputHandler {
        self.input_handler
    }

    /// Whether wrong-password feedback is being shown.
    pub closed spec fn spec_wrong_password_shown(&self) -> bool {
        self.wrong_password.spec_shown()
    }

    /// Whether key-highlight feedback is being shown.
    pub closed spec fn spec_key_highlight_shown(&self) -> bool {
        self.key_highlight.spec_shown()
    }

    /// Whether the surface has a background of its own to draw.
    pub closed spec fn spec_has_background(&self) -> bool {
        self.background
    }

    /// Whether the compositor's surface for this output is attached.
    pub closed spec fn spec_has_wayland_surface(&self) -> bool {
        self.wayland_surface
    }

    /// `after` has the same background and compositor surface as this one.
    pub open spec fn keeps_attachments(self, after: Self) -> bool {
        &&& after.spec_has_background() == self.spec_has_background()
        &&& after.spec_has_wayland_surface() == self.spec_has_wayland_surface()
    }

    /// The size is drawable and the password entry is well formed.
    pub open spec fn wf(&self) -> bool {
        &&& spec_valid_dimensions(self.spec_width(), self.spec_height())
        &&& self.spec_input().wf()
    }

    /// The password entry reports `action` for a key press on this surface.
    pub open spec fn reports(
        self,
        action: Option<InputAction>,
        key: Key,
        text: Option<Seq<char>>,
        ctrl: bool,
    ) -> bool {
        match action {
            None => self.ignores(key, text, ctrl),
            Some(a) => !(a is Ignored) && key_action(
                a,
                self.spec_input().spec_password(),
                self.spec_input().spec_cursor(),
                key,
                text,
                ctrl,
            ),
        }
    }

    /// A key press changes nothing that this surface reports.
    pub open spec fn ignores(self, key: Key, text: Option<Seq<char>>, ctrl: bool) -> bool {
        key_action(
            InputAction::Ignored,
            self.spec_input().spec_password(),
            self.spec_input().spec_cursor(),
            key,
            text,
            ctrl,
        )
    }

    /// `after` is this surface after a key press: the password entry took
    /// the key, and a submitting key started the key highlight.
    pub open spec fn key_press(
        self,
        after: Self,
        key: Key,
        text: Option<Seq<char>>,
        modifiers: KeyModifiers,
    ) -> bool {
        &&& after.wf()
        &&& after.spec_width() == self.spec_width()
        &&& after.spec_height() == self.spec_height()
        &&& (after.spec_input().spec_password(), after.spec_input().spec_cursor()) == key_effect(
            self.spec_input().spec_password(),
            self.spec_input().spec_cursor(),
            key,
            text,
            modifiers.ctrl,
        )
        &&& after.spec_input().spec_caps_lock() == modifiers.caps_lock
        &&& after.spec_input().spec_wrong_password_timer()
            == self.spec_input().spec_wrong_password_timer()
        &&& if submits(key) {
            after.spec_input().spec_key_highlight_started()
        } else {
            after.spec_input().spec_key_highlight_timer()
                == self.spec_input().spec_key_highlight_timer()
        }
        &&& after.spec_wrong_password_shown() == self.spec_wrong_password_shown()
        &&& after.spec_key_highlight_shown() == self.spec_key_highlight_shown()
        &&& self.keeps_attachments(after)
    }

    /// `after` is this surface after a frame update that reported `starts`:
    /// only the feedback latches changed, and a feedback starts only when it
    /// was not shown.
    pub open spec fn frame_update(self, after: Self, starts: FeedbackStarts) -> bool {
        &&& after.wf()
        &&& after.spec_input() == self.spec_input()
        &&& after.spec_width() == self.spec_width()
        &&& after.spec_height() == self.spec_height()
        &&& !self.spec_input().spec_wrong_password_started() ==> !starts.wrong_password
            && !after.spec_wrong_password_shown()
        &&& !self.spec_input().spec_key_highlight_started() ==> !starts.key_highlight
            && !after.spec_key_highlight_shown()
        &&& starts.wrong_password ==> !self.spec_wrong_password_shown()
            && after.spec_wrong_password_shown()
        &&& starts.key_highlight ==> !self.spec_key_highlight_shown()
            && after.spec_key_highlight_shown()
        &&& self.keeps_attachments(after)
    }

    /// `after` is this surface with wrong-password feedback started and
    /// nothing else of its password entry changed.
    pub open spec fn wrong_password_set(self, after: Self) -> bool {
        &&& after.wf()
        &&& after.spec_input().spec_wrong_password_started()
        &&& after.spec_input().spec_password() == self.spec_input().spec_password()
        &&& after.spec_input().spec_cursor() == self.spec_input().spec_cursor()
        &&& after.spec_input().spec_key_highlight_timer()
            == self.spec_input().spec_key_highlight_timer()
        &&& after.spec_width() == self.spec_width()
        &&& after.spec_height() == self.spec_height()
        &&& after.spec_wrong_password_shown() == self.spec_wrong_password_shown()
        &&& after.spec_key_highlight_shown() == self.spec_key_highlight_shown()
        &&& self.keeps_attachments(after)
    }

    /// A surface of `width` by `height`, or none when either side is not
    /// positive. It starts with an empty password and no feedback, has a
    /// background of its own exactly when screenshots are on, and has no
    /// compositor surface yet.
    pub fn new(width: i32, height: i32, screenshots: bool) -> (surface: Option<Self>)
        ensures
            surface is None <==> !spec_valid_dimensions(width, height),
            surface matches Some(s) ==> {
                &&& s.wf()
                &&& s.spec_width() == width
                &&& s.spec_height() == height
                &&& s.spec_input().spec_password() == Seq::<char>::empty()
                &&& s.spec_input().spec_cursor() == 0
                &&& !s.spec_input().spec_caps_lock()
                &&& !s.spec_input().spec_wrong_password_started()
                &&& !s.spec_input().spec_key_highlight_started()
                &&& !s.spec_wrong_password_shown()
                &&& !s.spec_key_highlight_shown()
                &&& s.spec_has_background() == screenshots
                &&& !s.spec_has_wayland_surface()
            },
    {
        if width <= 0 || height <= 0 {
            return None;
        }
        Some(
            LockedSurface {
                width,
                height,
                input_handler: InputHandler::new(),
                wrong_password: FeedbackLatch::new(),
                key_highlight: FeedbackLatch::new(),
                background: screenshots,
                wayland_surface: false,
            },
        )
    }

    /// The output's size.
    pub fn dimensions(&self) -> (size: (i32, i32))
        ensures
            size == (self.spec_width(), self.spec_height()),
    {
        (self.width, self.height)
    }

    /// Whether the surface has a background of its own.
    pub fn has_background(&self) -> (present: bool)
        ensures
            present == self.spec_has_background(),
    {
        self.background
    }

    /// Whether the compositor's surface is attached.
    pub fn has_wayland_surface(&self) -> (attached: bool)
        ensures
            attached == self.spec_has_wayland_surface(),
    {
        self.wayland_surface
    }

    /// The compositor's surface for this output is attached; nothing else
    /// changes.
    pub fn set_wayland_surface(&mut self)
        ensures
            final(self).spec_has_wayland_surface(),
            final(self).spec_has_background() == old(self).spec_has_background(),
            final(self).spec_width() == old(self).spec_width(),
            final(self).spec_height() == old(self).spec_height(),
            final(self).spec_input() == old(self).spec_input(),
            final(self).spec_wrong_password_shown() == old(self).spec_wrong_password_shown(),
            final(self).spec_key_highlight_shown() == old(self).spec_key_highlight_shown(),
    {
        self.wayland_surface = true;
    }

    /// The output changed size; a size that cannot be drawn is ignored.
    pub fn resize(&mut self, width: i32, height: i32)
        requires
            old(self).wf(),
        ensures
            final(self).wf(),
            spec_valid_dimensions(width, height) ==> final(self).spec_width() == width
                && final(self).spec_height() == height,
            !spec_valid_dimensions(width, height) ==> final(self).spec_width() == old(
                self,
            ).spec_width() && final(self).spec_height() == old(self).spec_height(),
            final(self).spec_input() == old(self).spec_input(),
            final(self).spec_wrong_password_shown() == old(self).spec_wrong_password_shown(),
            final(self).spec_key_highlight_shown() == old(self).spec_key_highlight_shown(),
            old(self).keeps_attachments(*final(self)),
    {
        if width <= 0 || height <= 0 {
            return;
        }
        self.width = width;
        self.height = height;
    }

    /// The password entry of this surface.
    pub fn input_handler(&self) -> (handler: &InputHandler)
        ensures
            *handler == self.spec_input(),
    {
        &self.input_handler
    }

    /// Start wrong-password feedback.
    pub fn show_wrong_password(&mut self)
        requires
            old(self).wf(),
        ensures
            old(self).wrong_password_set(*final(self)),
    {
        self.input_handler.set_wrong_password_feedback();
    }

    /// Start key-highlight feedback.
    pub fn show_key_highlight(&mut self)
        requires
            old(self).wf(),
        ensures
            final(self).wf(),
            final(self).spec_input().spec_key_highlight_started(),
            final(self).spec_input().spec_password() == old(self).spec_input().spec_password(),
            final(self).spec_input().spec_cursor() == old(self).spec_input().spec_cursor(),
            final(self).spec_input().spec_wrong_password_timer() == old(
                self,
            ).spec_input().spec_wrong_password_timer(),
            final(self).spec_width() == old(self).spec_width(),
            final(self).spec_height() == old(self).spec_height(),
            final(self).spec_wrong_password_shown() == old(self).spec_wrong_password_shown(),
            final(self).spec_key_highlight_shown() == old(self).spec_key_highlight_shown(),
            old(self).keeps_attachments(*final(self)),
    {
        self.input_handler.set_key_highlight();
    }

    /// A key press on this surface. The password entry takes it; an action
    /// that changes nothing is reported as none, and submitting the password
    /// also starts the key highlight.
    pub fn handle_key_event(
        &mut self,
        key: Key,
        utf8: Option<String>,
        modifiers: KeyModifiers,
    ) -> (action: Option<InputAction>)
        requires
            old(self).wf(),
            utf8 matches Some(t) ==> old(self).spec_input().spec_password().len() + accepted(t@).len()
                <= isize::MAX,
        ensures
            old(self).key_press(*final(self), key, typed_text(utf8), modifiers),
            old(self).reports(action, key, typed_text(utf8), modifiers.ctrl),
    {
        let action = self.input_handler.handle_key_event(key, utf8, modifiers);
        match action {
            InputAction::Ignored => None,
            InputAction::SubmitPassword(p) => {
                self.input_handler.set_key_highlight();
                Some(InputAction::SubmitPassword(p))
            },
            other => Some(other),
        }
    }

    /// Which feedback to start, given whether each is active now: each starts
    /// when it becomes active, and its latch follows whether it is active.
    pub fn observe_feedback(&mut self, wrong_password_active: bool, key_highlight_active: bool) -> (starts: FeedbackStarts)
        requires
            old(self).wf(),
        ensures
            final(self).wf(),
            starts.wrong_password == (wrong_password_active && !old(self).spec_wrong_password_shown()),
            starts.key_highlight == (key_highlight_active && !old(self).spec_key_highlight_shown()),
            final(self).spec_wrong_password_shown() == wrong_password_active,
            final(self).spec_key_highlight_shown() == key_highlight_active,
            final(self).spec_input() == old(self).spec_input(),
            final(self).spec_width() == old(self).spec_width(),
            final(self).spec_height() == old(self).spec_height(),
            old(self).keeps_attachments(*final(self)),
    {
        let wrong_password = self.wrong_password.observe(wrong_password_active);
        let key_highlight = self.key_highlight.observe(key_highlight_active);
        FeedbackStarts { wrong_password, key_highlight }
    }

    /// The per-frame update: reads whether each feedback is still within its
    /// window and starts the ones that became active. A feedback that was
    /// never started is not active.
    pub fn update(&mut self) -> (starts: FeedbackStarts)
        requires
            old(self).wf(),
        ensures
            old(self).frame_update(*final(self), starts),
    {
        self.input_handler.update();
        let wrong = self.input_handler.should_show_wrong_password();
        let highlight = self.input_handler.should_show_key_highlight();
        self.observe_feedback(wrong, highlight)
    }
}

/// Manager for all locked surfaces (multiple outputs)
pub struct LockManager {
    surfaces: Vec<LockedSurface>,
    locked: bool,
    screenshots: bool,
}

impl LockManager {
    /// The surfaces, in the order they were added.
    pub closed spec fn spec_surfaces(&self) -> Seq<LockedSurface> {
        self.surfaces@
    }

    pub closed spec fn spec_locked(&self) -> bool {
        self.locked
    }

    /// Whether new surfaces get a background of their own.
    pub closed spec fn spec_screenshots(&self) -> bool {
        self.screenshots
    }

    /// Every surface is well formed.
    pub open spec fn wf(&self) -> bool {
        forall|i: int| 0 <= i < self.spec_surfaces().len() ==> #[trigger] self.spec_surfaces()[i].wf()
    }

    /// No surfaces, not locked; surfaces added later have a background of
    /// their own exactly when `screenshots` is on.
    pub fn new(screenshots: bool) -> (m: Self)
        ensures
            m.wf(),
            m.spec_surfaces() == Seq::<LockedSurface>::empty(),
            !m.spec_locked(),
            m.spec_screenshots() == screenshots,
    {
        LockManager { surfaces: Vec::new(), locked: false, screenshots }
    }

    /// Add a surface for an output of `width` by `height`; returns whether
    /// the size could be drawn and the surface was added.
    pub fn add_surface(&mut self, width: i32, height: i32) -> (added: bool)
        requires
            old(self).wf(),
        ensures
            final(self).wf(),
            added == spec_valid_dimensions(width, height),
            added ==> final(self).spec_surfaces().len() == old(self).spec_surfaces().len() + 1
                && final(self).spec_surfaces().drop_last() == old(self).spec_surfaces() && {
                let s = final(self).spec_surfaces().last();
                &&& s.spec_width() == width
                &&& s.spec_height() == height
                &&& s.spec_input().spec_password() == Seq::<char>::empty()
                &&& s.spec_input().spec_cursor() == 0
                &&& s.spec_has_background() == old(self).spec_screenshots()
                &&& !s.spec_has_wayland_surface()
            },
            !added ==> final(self).spec_surfaces() == old(self).spec_surfaces(),
            final(self).spec_locked() == old(self).spec_locked(),
            final(self).spec_screenshots() == old(self).spec_screenshots(),
    {
        match LockedSurface::new(width, height, self.screenshots) {
            Some(surface) => {
                let ghost added = surface;
                self.surfaces.push(surface);
                assert(self.surfaces@.drop_last() =~= old(self).surfaces@);
                assert forall|k: int| 0 <= k < self.surfaces@.len() implies #[trigger] self.surfaces@[k].wf() by {
                    if k < old(self).surfaces@.len() {
                        assert(self.surfaces@[k] == old(self).spec_surfaces()[k]);
                        assert(old(self).spec_surfaces()[k].wf());
                    } else {
                        assert(self.surfaces@[k] == added);
                    }
                }
                true
            },
            None => false,
        }
    }

    /// Give every surface a key press. The action reported is that of the
    /// first surface whose password entry reports one; none when every
    /// surface reports nothing.
    pub fn handle_key_event(
        &mut self,
        key: Key,
        utf8: Option<String>,
        modifiers: KeyModifiers,
    ) -> (action: Option<InputAction>)
        requires
            old(self).wf(),
            utf8 matches Some(t) ==> forall|i: int|
                0 <= i < old(self).spec_surfaces().len() ==> #[trigger] old(
                    self,
                ).spec_surfaces()[i].spec_input().spec_password().len() + accepted(t@).len()
                    <= isize::MAX,
        ensures
            final(self).wf(),
            final(self).spec_locked() == old(self).spec_locked(),
            final(self).spec_screenshots() == old(self).spec_screenshots(),
            final(self).spec_surfaces().len() == old(self).spec_surfaces().len(),
            forall|i: int|
                0 <= i < old(self).spec_surfaces().len() ==> #[trigger] old(
                    self,
                ).spec_surfaces()[i].key_press(
                    final(self).spec_surfaces()[i],
                    key,
                    typed_text(utf8),
                    modifiers,
                ),
            action is None ==> forall|i: int|
                0 <= i < old(self).spec_surfaces().len() ==> #[trigger] old(
                    self,
                ).spec_surfaces()[i].ignores(key, typed_text(utf8), modifiers.ctrl),
            action is Some ==> exists|i: int|
                0 <= i < old(self).spec_surfaces().len() && (forall|j: int|
                    0 <= j < i ==> #[trigger] old(self).spec_surfaces()[j].ignores(
                        key,
                        typed_text(utf8),
                        modifiers.ctrl,
                    )) && #[trigger] old(self).spec_surfaces()[i].reports(
                    action,
                    key,
                    typed_text(utf8),
                    modifiers.ctrl,
                ),
    {
        let ghost text = typed_text(utf8);
        let ghost before = self.surfaces@;
        let mut result: Option<InputAction> = None;
        let ghost mut first: int = 0;
        let mut i: usize = 0;
        while i < self.surfaces.len()
            invariant
                i <= self.surfaces@.len(),
                self.surfaces@.len() == before.len(),
                self.locked == old(self).locked,
                self.screenshots == old(self).screenshots,
                text == typed_text(utf8),
                forall|k: int| 0 <= k < before.len() ==> #[trigger] before[k].wf(),
                utf8 matches Some(t) ==> forall|k: int|
                    0 <= k < before.len() ==> #[trigger] before[k].spec_input().spec_password().len()
                        + accepted(t@).len() <= isize::MAX,
                forall|k: int|
                    0 <= k < i ==> #[trigger] before[k].key_press(
                        self.surfaces@[k],
                        key,
                        text,
                        modifiers,
                    ),
                forall|k: int| i <= k < before.len() ==> #[trigger] self.surfaces@[k] == before[k],
                result is None ==> forall|k: int|
                    0 <= k < i ==> #[trigger] before[k].ignores(key, text, modifiers.ctrl),
                result is Some ==> {
                    &&& 0 <= first < i
                    &&& forall|j: int|
                        0 <= j < first ==> #[trigger] before[j].ignores(key, text, modifiers.ctrl)
                    &&& before[first].reports(result, key, text, modifiers.ctrl)
                },
            decreases before.len() - i,
        {
            let copy = match &utf8 {
                Some(t) => Some(t.clone()),
                None => None,
            };
            assert(typed_text(copy) == text);
            let ghost old_k = self.surfaces@[i as int];
            let action = self.surfaces[i].handle_key_event(key, copy, modifiers);
            proof {
                assert(old_k == before[i as int]);
            }
            if result.is_none() {
                match action {
                    Some(a) => {
                        proof {
                            first = i as int;
                        }
                        result = Some(a);
                    },
                    None => {},
                }
            }
            i = i + 1;
        }
        assert forall|k: int| 0 <= k < self.surfaces@.len() implies #[trigger] self.surfaces@[k].wf() by {
            assert(before[k].key_press(self.surfaces@[k], key, text, modifiers));
        }
        result
    }

    /// The per-frame update of every surface; for each, which feedback starts.
    pub fn update(&mut self) -> (starts: Vec<FeedbackStarts>)
        requires
            old(self).wf(),
        ensures
            final(self).wf(),
            final(self).spec_locked() == old(self).spec_locked(),
            final(self).spec_screenshots() == old(self).spec_screenshots(),
            final(self).spec_surfaces().len() == old(self).spec_surfaces().len(),
            starts.len() == old(self).spec_surfaces().len(),
            forall|i: int|
                0 <= i < old(self).spec_surfaces().len() ==> #[trigger] old(
                    self,
                ).spec_surfaces()[i].frame_update(final(self).spec_surfaces()[i], starts@[i]),
    {
        let ghost before = self.surfaces@;
        let mut starts: Vec<FeedbackStarts> = Vec::new();
        let mut i: usize = 0;
        while i < self.surfaces.len()
            invariant
                i <= self.surfaces@.len(),
                self.surfaces@.len() == before.len(),
                self.locked == old(self).locked,
                self.screenshots == old(self).screenshots,
                starts@.len() == i,
                forall|k: int| 0 <= k < before.len() ==> #[trigger] before[k].wf(),
                forall|k: int| 0 <= k < i ==> #[trigger] self.surfaces@[k].wf(),
                forall|k: int|
                    0 <= k < i ==> #[trigger] before[k].frame_update(self.surfaces@[k], starts@[k]),
                forall|k: int| i <= k < before.len() ==> #[trigger] self.surfaces@[k] == before[k],
            decreases before.len() - i,
        {
            let s = self.surfaces[i].update();
            starts.push(s);
            i = i + 1;
        }
        starts
    }

    /// Whether the session is locked.
    pub fn is_locked(&self) -> (locked: bool)
        ensures
            locked == self.spec_locked(),
    {
        self.locked
    }

    /// Lock the session
    pub fn lock(&mut self)
        ensures
            final(self).spec_locked(),
            final(self).spec_surfaces() == old(self).spec_surfaces(),
            final(self).spec_screenshots() == old(self).spec_screenshots(),
    {
        self.locked = true;
    }

    /// Unlock the session
    pub fn unlock(&mut self)
        ensures
            !final(self).spec_locked(),
            final(self).spec_surfaces() == old(self).spec_surfaces(),
            final(self).spec_screenshots() == old(self).spec_screenshots(),
    {
        self.locked = false;
    }

    /// Get the number of locked surfaces
    pub fn surface_count(&self) -> (n: usize)
        ensures
            n == self.spec_surfaces().len(),
    {
        self.surfaces.len()
    }

    /// The surface at `index`, if there is one.
    pub fn get_surface(&self, index: usize) -> (surface: Option<&LockedSurface>)
        ensures
            index < self.spec_surfaces().len() ==> surface == Some(&self.spec_surfaces()[index as int]),
            index >= self.spec_surfaces().len() ==> surface is None,
    {
        if index < self.surfaces.len() {
            Some(&self.surfaces[index])
        } else {
            None
        }
    }

    /// The output of the surface at `index` changed size; a size that cannot
    /// be drawn, or an index past the last surface, changes nothing.
    pub fn resize_surface(&mut self, index: usize, width: i32, height: i32)
        requires
            old(self).wf(),
        ensures
            final(self).wf(),
            final(self).spec_locked() == old(self).spec_locked(),
            final(self).spec_screenshots() == old(self).spec_screenshots(),
            final(self).spec_surfaces().len() == old(self).spec_surfaces().len(),
            forall|i: int|
                0 <= i < old(self).spec_surfaces().len() && i != index
                    ==> #[trigger] final(self).spec_surfaces()[i] == old(self).spec_surfaces()[i],
            index < old(self).spec_surfaces().len() ==> {
                let (b, a) = (old(self).spec_surfaces()[index as int], final(self).spec_surfaces()[index as int]);
                &&& a.spec_input() == b.spec_input()
                &&& a.spec_wrong_password_shown() == b.spec_wrong_password_shown()
                &&& a.spec_key_highlight_shown() == b.spec_key_highlight_shown()
                &&& if spec_valid_dimensions(width, height) {
                    a.spec_width() == width && a.spec_height() == height
                } else {
                    a.spec_width() == b.spec_width() && a.spec_height() == b.spec_height()
                }
            },
    {
        if index < self.surfaces.len() {
            proof {
                assert(self.spec_surfaces()[index as int].wf());
            }
            self.surfaces[index].resize(width, height);
            assert forall|k: int| 0 <= k < self.surfaces@.len() implies #[trigger] self.surfaces@[k].wf() by {
                if k != index {
                    assert(self.surfaces@[k] == old(self).spec_surfaces()[k]);
                    assert(old(self).spec_surfaces()[k].wf());
                }
            }
        }
    }

    /// Start wrong-password feedback on every surface.
    pub fn show_wrong_password(&mut self)
        requires
            old(self).wf(),
        ensures
            final(self).wf(),
            final(self).spec_locked() == old(self).spec_locked(),
            final(self).spec_screenshots() == old(self).spec_screenshots(),
            final(self).spec_surfaces().len() == old(self).spec_surfaces().len(),
            forall|i: int|
                0 <= i < old(self).spec_surfaces().len() ==> #[trigger] old(
                    self,
                ).spec_surfaces()[i].wrong_password_set(final(self).spec_surfaces()[i]),
    {
        let ghost before = self.surfaces@;
        let mut i: usize = 0;
        while i < self.surfaces.len()
            invariant
                i <= self.surfaces@.len(),
                self.surfaces@.len() == before.len(),
                self.locked == old(self).locked,
                self.screenshots == old(self).screenshots,
                forall|k: int| 0 <= k < before.len() ==> #[trigger] before[k].wf(),
                forall|k: int| 0 <= k < i ==> #[trigger] self.surfaces@[k].wf(),
                forall|k: int|
                    0 <= k < i ==> #[trigger] before[k].wrong_password_set(self.surfaces@[k]),
                forall|k: int| i <= k < before.len() ==> #[trigger] self.surfaces@[k] == before[k],
            decreases before.len() - i,
        {
            self.surfaces[i].show_wrong_password();
            i = i + 1;
        }
    }

    /// Once the session is locked: with no surface yet, add one of the
    /// default output size.
    pub fn initialize_lock_surfaces(&mut self)
        requires
            old(self).wf(),
        ensures
            final(self).wf(),
            final(self).spec_locked() == old(self).spec_locked(),
            final(self).spec_screenshots() == old(self).spec_screenshots(),
            old(self).spec_surfaces().len() > 0 ==> final(self).spec_surfaces() == old(
                self,
            ).spec_surfaces(),
            old(self).spec_surfaces().len() == 0 ==> final(self).spec_surfaces().len() == 1
                && final(self).spec_surfaces()[0].spec_width() == DEFAULT_OUTPUT_WIDTH
                && final(self).spec_surfaces()[0].spec_height() == DEFAULT_OUTPUT_HEIGHT,
    {
        if self.surfaces.len() == 0 {
            self.add_surface(DEFAULT_OUTPUT_WIDTH, DEFAULT_OUTPUT_HEIGHT);
        }
    }
}

/// The password to authenticate after a key press: the one submitted,
/// unless it is empty.
pub fn submitted_password(action: Option<InputAction>) -> (password: Option<Secret>)
    ensures
        password == (match action {
            Some(InputAction::SubmitPassword(p)) => if secret_text(p).len() > 0 {
                Some(p)
            } else {
                None
            },
            _ => None,
        }),
{
    match action {
        Some(InputAction::SubmitPassword(p)) => {
            if p.is_empty() {
                None
            } else {
                Some(p)
            }
        },
        _ => None,
    }
}

/// Two surfaces that show the same password, with the cursor at the same
/// place, still do after both take the same key press.
pub proof fn lemma_surfaces_stay_in_step(
    a: LockedSurface,
    b: LockedSurface,
    a_after: LockedSurface,
    b_after: LockedSurface,
    key: Key,
    text: Option<Seq<char>>,
    modifiers: KeyModifiers,
)
    requires
        a.key_press(a_after, key, text, modifiers),
        b.key_press(b_after, key, text, modifiers),
        a.spec_input().spec_password() == b.spec_input().spec_password(),
        a.spec_input().spec_cursor() == b.spec_input().spec_cursor(),
    ensures
        a_after.spec_input().spec_password() == b_after.spec_input().spec_password(),
        a_after.spec_input().spec_cursor() == b_after.spec_input().spec_cursor(),
        a.reports(None, key, text, modifiers.ctrl) == b.reports(None, key, text, modifiers.ctrl),
{
}

} // verus!
