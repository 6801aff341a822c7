//! State shared by the lock surfaces: sizes, the placeholder background and
//! the latches that start visual feedback once.
use vstd::prelude::*;

verus! {

/// A surface of this size can be drawn.
pub open spec fn spec_valid_dimensions(width: i32, height: i32) -> bool {
    width > 0 && height > 0
}

/// Whether a surface of this size can be drawn: both sides positive.
pub fn valid_dimensions(width: i32, height: i32) -> (ok: bool)
    ensures
        ok == spec_valid_dimensions(width, height),
{
    width > 0 && height > 0
}

/// The bytes of the placeholder background pixel: dark grey, opaque.
pub open spec fn placeholder_pixel(k: int) -> u8 {
    if k == 0 {
        40
    } else if k == 1 {
        44
    } else if k == 2 {
        52
    } else {
        255
    }
}

/// A background of `width` by `height` pixels, every pixel the bytes
/// `[40, 44, 52, 255]`.
pub fn placeholder_background(width: i32, height: i32) -> (data: Vec<u8>)
    requires
        width > 0,
        height > 0,
        width * height * 4 <= i32::MAX,
    ensures
        data.len() == width * height * 4,
        forall|i: int| 0 <= i < data.len() ==> #[trigger] data@[i] == placeholder_pixel(i % 4),
{
    assert(width * height <= width * height * 4 && width * height * 4 == 4 * (width * height))
        by (nonlinear_arith)
        requires
            width > 0,
            height > 0,
    ;
    let total = (width * height * 4) as usize;
    let pixels = (width * height) as usize;
    let mut data: Vec<u8> = vec![0u8; total];
    let mut i: usize = 0;
    while i < pixels
        invariant
            i <= pixels,
            total == 4 * pixels,
            data.len() == total,
            forall|j: int| 0 <= j < 4 * i ==> #[trigger] data@[j] == placeholder_pixel(j % 4),
        decreases pixels - i,
    {
        let offset = i * 4;
        data[offset] = 40;
        data[offset + 1] = 44;
        data[offset + 2] = 52;
        data[offset + 3] = 255;
        i = i + 1;
    }
    data
}

/// Remembers whether a visual feedback is being shown, so that it is started
/// once each time its condition becomes true.
#[derive(Clone, Copy, Debug, PartialEq, Eq, Structural)]
pub struct FeedbackLatch {
    shown: bool,
}

impl FeedbackLatch {
    pub closed spec fn spec_shown(self) -> bool {
        self.shown
    }

    /// A latch that shows nothing.
    pub fn new() -> (latch: Self)
        ensures
            !latch.spec_shown(),
    {
        FeedbackLatch { shown: false }
    }

    /// The feedback condition is `active` now. Returns whether the feedback
    /// is to be started: it is active and was not shown; afterwards the latch
    /// is shown exactly when the condition is active.
    pub fn observe(&mut self, active: bool) -> (start: bool)
        ensures
            start == (active && !old(self).spec_shown()),
            final(self).spec_shown() == active,
    {
        if active && !self.shown {
            self.shown = true;
            true
        } else {
            if !active && self.shown {
                self.shown = false;
            }
            false
        }
    }

    /// Whether the feedback is being shown.
    pub fn is_shown(&self) -> (shown: bool)
        ensures
            shown == self.spec_shown(),
    {
        self.shown
    }
}

} // verus!
