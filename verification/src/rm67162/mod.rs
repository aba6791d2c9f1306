//! The RM67162 panel: orientation, and the DMA driver in [`dma`].
use vstd::prelude::*;

pub mod dma;
pub mod laws;

verus! {

/// How the panel is mounted relative to its native portrait scan order.
#[derive(Clone, Copy, Debug, PartialEq, Eq, Structural)]
pub enum Orientation {
    Portrait,
    Landscape,
    PortraitFlipped,
    LandscapeFlipped,
}

/// The MADCTL register value (command 0x36) for an orientation:
/// bit 7 mirrors rows, bit 6 mirrors columns, bit 5 swaps rows and columns.
pub open spec fn madctr_of(o: Orientation) -> u8 {
    match o {
        Orientation::Portrait => 0x00,
        Orientation::PortraitFlipped => 0xC0,
        Orientation::Landscape => 0x60,
        Orientation::LandscapeFlipped => 0xA0,
    }
}

/// Whether rows and columns are swapped, so that the long side is horizontal.
pub open spec fn is_landscape(o: Orientation) -> bool {
    o is Landscape || o is LandscapeFlipped
}

impl Orientation {
    /// The MADCTL byte that selects this orientation.
    pub fn to_madctr(&self) -> (r: u8)
        ensures
            r == madctr_of(*self),
    {
        match self {
            Orientation::Portrait => 0x00,
            Orientation::PortraitFlipped => 0xC0,
            Orientation::Landscape => 0x60,
            Orientation::LandscapeFlipped => 0xA0,
        }
    }

    /// Whether this orientation puts the long side of the panel horizontal.
    pub fn is_landscape(&self) -> (r: bool)
        ensures
            r == is_landscape(*self),
    {
        matches!(self, Orientation::Landscape | Orientation::LandscapeFlipped)
    }
}

} // verus!
