//! The transition animator: a single countdown timer drives a normalized
//! progress value, and every cell's rendered vertical offset approaches its
//! resting position with a stagger that grows with the cell's horizontal
//! coordinate. Purely presentational: nothing here touches puzzle state.
//!
//! Time is integer milliseconds and progress is in permille, so that the
//! interpolation is exact; a renderer divides by 1000 at the very edge.

use vstd::prelude::*;

verus! {

/// Full scale of the normalized progress value.
pub const PROGRESS_SCALE: u32 = 1000;

/// Horizontal coordinate where the reveal stagger starts.
pub const STAGGER_START: i32 = 2;

/// Per-column stagger, in permille of progress per cell.
pub const STAGGER_STEP: u32 = 20;

/// A countdown timer of fixed duration driving the grid reveal.
#[derive(Clone, Copy, PartialEq, Eq, Structural, Debug)]
pub struct TransitionTimer {
    pub elapsed_ms: u32,
    pub duration_ms: u32,
}

impl TransitionTimer {
    pub open spec fn wf(self) -> bool {
        0 < self.duration_ms && self.elapsed_ms <= self.duration_ms
    }

    pub open spec fn finished(self) -> bool {
        self.elapsed_ms == self.duration_ms
    }

    /// Normalized progress in permille: elapsed over duration.
    pub open spec fn progress_spec(self) -> int {
        self.elapsed_ms * PROGRESS_SCALE / (self.duration_ms as int)
    }

    pub fn new(duration_ms: u32) -> (r: TransitionTimer)
        requires
            0 < duration_ms,
        ensures
            r.wf(),
            r.duration_ms == duration_ms,
            r.elapsed_ms == 0,
    {
        TransitionTimer { elapsed_ms: 0, duration_ms }
    }

    /// Advance the timer by `delta_ms`, capping at the duration. Returns
    /// whether the countdown has completed.
    pub fn tick(&mut self, delta_ms: u32) -> (done: bool)
        requires
            old(self).wf(),
        ensures
            final(self).wf(),
            final(self).duration_ms == old(self).duration_ms,
            final(self).elapsed_ms == if old(self).elapsed_ms + delta_ms
                <= old(self).duration_ms {
                old(self).elapsed_ms + delta_ms
            } else {
                old(self).duration_ms as int
            },
            done == final(self).finished(),
    {
        if delta_ms >= self.duration_ms - self.elapsed_ms {
            self.elapsed_ms = self.duration_ms;
        } else {
            self.elapsed_ms = self.elapsed_ms + delta_ms;
        }
        self.elapsed_ms == self.duration_ms
    }

    /// Current progress in permille, between 0 and the full scale.
    pub fn progress_permille(&self) -> (p: u32)
        requires
            self.wf(),
        ensures
            p == self.progress_spec(),
            p <= PROGRESS_SCALE,
            self.finished() ==> p == PROGRESS_SCALE,
    {
        proof {
            assert((self.elapsed_ms as int) * (PROGRESS_SCALE as int) / (self.duration_ms as int)
                <= PROGRESS_SCALE && (self.elapsed_ms == self.duration_ms ==> (
            self.elapsed_ms as int) * (PROGRESS_SCALE as int) / (self.duration_ms as int)
                == PROGRESS_SCALE)) by (nonlinear_arith)
                requires
                    0 < self.duration_ms,
                    self.elapsed_ms <= self.duration_ms;
        }
        (((self.elapsed_ms as u64) * (PROGRESS_SCALE as u64)) / (self.duration_ms as u64)) as u32
    }
}

/// The fraction, in permille, by which a cell in column `x` approaches its
/// resting position at reveal progress `p`: the staggered wave
/// `clamp((x - k) * step + p, 0, full scale)`.
pub open spec fn reveal_offset_spec(x: int, p: int) -> int {
    let raw = (x - STAGGER_START) * STAGGER_STEP + p;
    if raw < 0 {
        0
    } else if raw > PROGRESS_SCALE {
        PROGRESS_SCALE as int
    } else {
        raw
    }
}

/// Compute the staggered reveal offset for the cell in column `x`.
pub fn reveal_offset_permille(x: i32, progress_permille: u32) -> (r: u32)
    requires
        progress_permille <= PROGRESS_SCALE,
    ensures
        r == reveal_offset_spec(x as int, progress_permille as int),
        r <= PROGRESS_SCALE,
{
    let stagger: i64 = x as i64 - STAGGER_START as i64;
    proof {
        assert(stagger * (STAGGER_STEP as i64) <= 0x7fff_ffff_ffffi64 && stagger * (
        STAGGER_STEP as i64) >= -0x7fff_ffff_ffffi64) by (nonlinear_arith)
            requires
                -0x8000_0000_2i64 <= stagger <= 0x8000_0000_2i64;
    }
    let raw: i64 = stagger * (STAGGER_STEP as i64) + progress_permille as i64;
    if raw < 0 {
        0
    } else if raw > PROGRESS_SCALE as i64 {
        PROGRESS_SCALE
    } else {
        raw as u32
    }
}

/// The next sprite frame of a cyclic animation over frames
/// `first ..= last`: past the last frame the cycle restarts.
pub fn next_frame(index: usize, first: usize, last: usize) -> (r: usize)
    requires
        index < usize::MAX,
    ensures
        r == if index >= last {
            first as int
        } else {
            index + 1
        },
{
    if index >= last {
        first
    } else {
        index + 1
    }
}

} // verus!
