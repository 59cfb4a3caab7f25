//! Colours with saturating per-channel arithmetic.
use vstd::prelude::*;

verus! {

/// An RGB colour: red, green and blue channels of eight bits each.
#[derive(Clone, Copy, PartialEq, Eq, Structural, Debug, Default)]
pub struct RGB(pub u8, pub u8, pub u8);

/// `a + b` clamped to the channel range.
pub open spec fn channel_add(a: u8, b: u8) -> u8 {
    if a + b > 255 { 255 } else { (a + b) as u8 }
}

/// `a - b` clamped to the channel range.
pub open spec fn channel_sub(a: u8, b: u8) -> u8 {
    if a - b < 0 { 0 } else { (a - b) as u8 }
}

impl RGB {
    pub fn from_tup(t: (u8, u8, u8)) -> (r: RGB)
        ensures
            r == RGB(t.0, t.1, t.2),
    {
        RGB(t.0, t.1, t.2)
    }

    /// Brighten each channel by the matching channel of `o`, stopping at 255.
    pub fn lighten(self, o: RGB) -> (r: RGB)
        ensures
            r == RGB(channel_add(self.0, o.0), channel_add(self.1, o.1), channel_add(self.2, o.2)),
            0 <= r.0 <= 255 && 0 <= r.1 <= 255 && 0 <= r.2 <= 255,
    {
        RGB(self.0.saturating_add(o.0), self.1.saturating_add(o.1), self.2.saturating_add(o.2))
    }

    /// Darken each channel by the matching channel of `o`, stopping at 0.
    pub fn darken(self, o: RGB) -> (r: RGB)
        ensures
            r == RGB(channel_sub(self.0, o.0), channel_sub(self.1, o.1), channel_sub(self.2, o.2)),
            0 <= r.0 <= 255 && 0 <= r.1 <= 255 && 0 <= r.2 <= 255,
    {
        RGB(self.0.saturating_sub(o.0), self.1.saturating_sub(o.1), self.2.saturating_sub(o.2))
    }
}

} // verus!
