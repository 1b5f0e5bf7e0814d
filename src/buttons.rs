use vstd::prelude::*;

verus! {

/// The point of the viewport that a button is placed from.
#[derive(Clone, Copy, Debug, PartialEq, Eq, Structural, Hash)]
pub enum Anchor {
    TopLeft,
    TopRight,
    BottomLeft,
    BottomRight,
    Center,
    TopCenter,
    BottomCenter,
    LeftCenter,
    RightCenter,
}

impl Anchor {
    /// The anchor's horizontal position in halves of the viewport's width, from the left.
    pub open spec fn spec_x(self) -> u8 {
        match self {
            Anchor::TopLeft | Anchor::BottomLeft | Anchor::LeftCenter => 0,
            Anchor::Center | Anchor::TopCenter | Anchor::BottomCenter => 1,
            Anchor::TopRight | Anchor::BottomRight | Anchor::RightCenter => 2,
        }
    }

    /// The anchor's vertical position in halves of the viewport's height, from the bottom.
    pub open spec fn spec_y(self) -> u8 {
        match self {
            Anchor::BottomLeft | Anchor::BottomRight | Anchor::BottomCenter => 0,
            Anchor::Center | Anchor::LeftCenter | Anchor::RightCenter => 1,
            Anchor::TopLeft | Anchor::TopRight | Anchor::TopCenter => 2,
        }
    }

    /// The anchor's position in the viewport in halves of its size, from the
    /// bottom-left corner: each component is 0, 1 or 2.
    pub fn v_halves(&self) -> (r: (u8, u8))
        ensures
            r == (self.spec_x(), self.spec_y()),
    {
        match self {
            Anchor::TopLeft => (0, 2),
            Anchor::TopRight => (2, 2),
            Anchor::BottomLeft => (0, 0),
            Anchor::BottomRight => (2, 0),
            Anchor::Center => (1, 1),
            Anchor::TopCenter => (1, 2),
            Anchor::BottomCenter => (1, 0),
            Anchor::LeftCenter => (0, 1),
            Anchor::RightCenter => (2, 1),
        }
    }
}

} // verus!
