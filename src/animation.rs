use vstd::prelude::*;

verus! {

/// Milliseconds in one second: a frame is due once `elapsed * fps` reaches it.
pub const MILLIS_PER_SECOND: u64 = 1000;

/// Frame-cycling clock of one animated entity.
///
/// The displayed index advances by one each `1 / fps` seconds, wrapping from
/// `last_sprite_index` back to `first_sprite_index`. When a frame is due the
/// time accumulated in the current frame is dropped, not carried over.
#[derive(Clone, Copy, Debug, PartialEq, Eq, Structural)]
pub struct AnimationConfig {
    pub first_sprite_index: usize,
    pub last_sprite_index: usize,
    pub fps: u8,
    /// Milliseconds spent on the displayed frame so far.
    pub elapsed_ms: u64,
    /// The displayed frame.
    pub index: usize,
}

/// The frame shown after `index`: the next one, or `first` once `last` is reached.
pub open spec fn next_index(first: usize, last: usize, index: usize) -> usize {
    if index >= last {
        first
    } else {
        (index + 1) as usize
    }
}

/// Whether `elapsed_ms` milliseconds reach one frame period at `fps` frames per second.
pub open spec fn frame_due(elapsed_ms: int, fps: int) -> bool {
    elapsed_ms * fps >= MILLIS_PER_SECOND
}

impl AnimationConfig {
    /// A positive rate, and less than one frame period spent on the displayed frame.
    pub open spec fn wf(self) -> bool {
        &&& self.fps > 0
        &&& !frame_due(self.elapsed_ms as int, self.fps as int)
    }

    /// The clock after `dt_ms` more milliseconds.
    pub open spec fn ticked(self, dt_ms: int) -> AnimationConfig {
        let e = self.elapsed_ms + dt_ms;
        if frame_due(e, self.fps as int) {
            AnimationConfig {
                index: next_index(self.first_sprite_index, self.last_sprite_index, self.index),
                elapsed_ms: 0,
                ..self
            }
        } else {
            AnimationConfig { elapsed_ms: e as u64, ..self }
        }
    }

    /// A clock on frames `first..=last` at `fps` frames per second, showing `first`.
    /// A rate of zero is a configuration error and is not accepted.
    pub fn new(first: usize, last: usize, fps: u8) -> (r: AnimationConfig)
        requires
            fps > 0,
        ensures
            r.wf(),
            r == (AnimationConfig {
                first_sprite_index: first,
                last_sprite_index: last,
                fps,
                elapsed_ms: 0,
                index: first,
            }),
    {
        AnimationConfig { first_sprite_index: first, last_sprite_index: last, fps, elapsed_ms: 0, index: first }
    }

    /// Advances the clock by `dt_ms` milliseconds.
    pub fn tick(&mut self, dt_ms: u32)
        requires
            old(self).wf(),
        ensures
            final(self).wf(),
            *final(self) == old(self).ticked(dt_ms as int),
    {
        assert(self.elapsed_ms < 1000) by (nonlinear_arith)
            requires self.elapsed_ms * self.fps < 1000, self.fps >= 1;
        let e: u64 = self.elapsed_ms + dt_ms as u64;
        assert(e * (self.fps as u64) <= (1000 + 0x1_0000_0000) * 255) by (nonlinear_arith)
            requires e <= 1000 + 0x1_0000_0000, self.fps <= 255;
        if e * (self.fps as u64) >= MILLIS_PER_SECOND {
            self.index = if self.index >= self.last_sprite_index {
                self.first_sprite_index
            } else {
                self.index + 1
            };
            self.elapsed_ms = 0;
        } else {
            self.elapsed_ms = e;
        }
    }
}

} // verus!
