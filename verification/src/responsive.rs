//! Window-width breakpoints and the elements hidden at them.
use vstd::prelude::*;

verus! {

#[derive(Clone, Copy, PartialEq, Eq, Debug, Structural)]
pub enum Breakpoint {
    Mobile,
    Tablet,
    Desktop,
}

/// The breakpoint of a window `width` logical pixels wide: below 768 is mobile, below
/// 1024 is tablet, the rest is desktop.
pub open spec fn breakpoint_of(width: nat) -> Breakpoint {
    if width < 768 {
        Breakpoint::Mobile
    } else if width < 1024 {
        Breakpoint::Tablet
    } else {
        Breakpoint::Desktop
    }
}

impl Breakpoint {
    /// The breakpoint of a window whose width, in logical pixels rounded down, is `width`.
    pub fn for_width(width: u32) -> (r: Breakpoint)
        ensures
            r == breakpoint_of(width as nat),
    {
        if width < 768 {
            Breakpoint::Mobile
        } else if width < 1024 {
            Breakpoint::Tablet
        } else {
            Breakpoint::Desktop
        }
    }

    /// Whether an element hidden at the breakpoint `self` is hidden when the window is at
    /// `current`.
    pub fn hides_at(self, current: Breakpoint) -> (r: bool)
        ensures
            r == (self == current),
    {
        self == current
    }
}

/// Breakpoints grow with the width.
pub proof fn law_breakpoints_grow_with_width(a: nat, b: nat)
    requires
        a <= b,
    ensures
        breakpoint_of(a) == Breakpoint::Desktop ==> breakpoint_of(b) == Breakpoint::Desktop,
        breakpoint_of(b) == Breakpoint::Mobile ==> breakpoint_of(a) == Breakpoint::Mobile,
{
}

} // verus!
