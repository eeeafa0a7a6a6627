use vstd::prelude::*;

verus! {

/// Milliseconds that each frame of the explosion stays on screen.
pub const FRAME_MILLIS: u64 = 70;

/// The explosion shown where a shot hits a ship: a run of `max_frame` frames,
/// advanced by the clock. `frame` is the frame shown, -1 when none is;
/// `elapsed_time` is the clock reading, in milliseconds, when the frame last
/// changed.
pub struct Animation {
    pub in_play: bool,
    pub frame: i32,
    pub max_frame: i32,
    pub elapsed_time: u64,
}

impl Animation {
    /// The frame shown is -1 or one of the run.
    pub open spec fn wf(&self) -> bool {
        -1 <= self.frame < self.max_frame
    }

    /// An explosion of nine frames, not playing.
    pub fn new() -> (r: Animation)
        ensures
            r.wf(),
            !r.in_play,
            r.frame == -1,
            r.max_frame == 9,
            r.elapsed_time == 0,
    {
        Animation { in_play: false, frame: -1, max_frame: 9, elapsed_time: 0 }
    }

    /// Advances the explosion to clock reading `millis`: when it is playing
    /// and the current frame has been shown for at least `FRAME_MILLIS`, the
    /// next frame comes, or the explosion stops after its last frame. Returns
    /// whether a new frame is to be shown.
    pub fn update_frame(&mut self, millis: u64) -> (r: bool)
        requires
            old(self).wf(),
        ensures
            final(self).wf(),
            final(self).max_frame == old(self).max_frame,
            if old(self).in_play && old(self).elapsed_time + FRAME_MILLIS <= millis {
                &&& final(self).elapsed_time == millis
                &&& if old(self).frame + 1 >= old(self).max_frame {
                    &&& !r
                    &&& !final(self).in_play
                    &&& final(self).frame == -1
                } else {
                    &&& r
                    &&& final(self).in_play
                    &&& final(self).frame == old(self).frame + 1
                }
            } else {
                !r && *final(self) == *old(self)
            },
    {
        if self.in_play && millis >= FRAME_MILLIS && self.elapsed_time <= millis - FRAME_MILLIS {
            self.elapsed_time = millis;
            self.frame = self.frame + 1;
            if self.frame >= self.max_frame {
                self.in_play = false;
                self.frame = -1;
                false
            } else {
                true
            }
        } else {
            false
        }
    }

    /// Starts the explosion unless it is already playing; returns whether it
    /// started, in which case the caller moves it to where the shot fell.
    pub fn play(&mut self) -> (r: bool)
        ensures
            r == !old(self).in_play,
            final(self).in_play,
            final(self).frame == old(self).frame,
            final(self).max_frame == old(self).max_frame,
            final(self).elapsed_time == old(self).elapsed_time,
    {
        if !self.in_play {
            self.in_play = true;
            true
        } else {
            false
        }
    }
}

} // verus!
