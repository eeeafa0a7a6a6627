use vstd::prelude::*;

verus! {

/// Turns the level of a mouse button, polled once per frame, into single
/// clicks: a click fires on the frame the button goes down, and not again
/// until it has been released.
pub struct ClickLatch {
    pub down: bool,
}

impl ClickLatch {
    /// A latch for a button that is up.
    pub fn new() -> (r: ClickLatch)
        ensures
            !r.down,
    {
        ClickLatch { down: false }
    }

    /// Records this frame's button level; returns whether it is a new click.
    pub fn press(&mut self, button_down: bool) -> (r: bool)
        ensures
            r == (button_down && !old(self).down),
            final(self).down == button_down,
    {
        if button_down {
            if !self.down {
                self.down = true;
                true
            } else {
                false
            }
        } else {
            self.down = false;
            false
        }
    }
}

} // verus!
