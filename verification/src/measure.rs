//! Measurements: how much width a renderable needs.
use vstd::prelude::*;

verus! {

/// The range of widths that a renderable can be drawn in: it needs at least
/// `minimum` cells and uses at most `maximum`.
#[derive(Debug, Clone, Copy, PartialEq, Eq, Structural)]
pub struct Measurement {
    pub minimum: usize,
    pub maximum: usize,
}

impl Measurement {
    /// A measurement from `minimum` to `maximum`.
    pub fn new(minimum: usize, maximum: usize) -> (m: Measurement)
        ensures
            m == (Measurement { minimum, maximum }),
    {
        Measurement { minimum, maximum }
    }

    /// The measurement of something that takes exactly `width` cells.
    pub fn exact(width: usize) -> (m: Measurement)
        ensures
            m == (Measurement { minimum: width, maximum: width }),
    {
        Measurement { minimum: width, maximum: width }
    }

    /// The measurement with no part above `width`.
    pub open spec fn capped(self, width: usize) -> Measurement {
        Measurement {
            minimum: if self.minimum <= width {
                self.minimum
            } else {
                width
            },
            maximum: if self.maximum <= width {
                self.maximum
            } else {
                width
            },
        }
    }

    /// The measurement with no part above `width`.
    pub fn with_maximum(self, width: usize) -> (m: Measurement)
        ensures
            m == self.capped(width),
    {
        Measurement {
            minimum: if self.minimum <= width {
                self.minimum
            } else {
                width
            },
            maximum: if self.maximum <= width {
                self.maximum
            } else {
                width
            },
        }
    }

    /// The measurement of `child` within `max_width` cells; of something
    /// that cannot be measured, anything from nothing to `max_width`.
    pub fn get<M: RichMeasure>(max_width: usize, child: Option<&M>) -> (m: Measurement)
        ensures
            m == match child {
                Some(c) => c.measured(max_width).capped(max_width),
                None => Measurement { minimum: 0, maximum: max_width },
            },
    {
        match child {
            Some(c) => c.rich_measure(max_width).with_maximum(max_width),
            None => Measurement { minimum: 0, maximum: max_width },
        }
    }
}

/// Something that can say how much width it needs.
pub trait RichMeasure {
    /// The width needed when up to `max_width` cells can be had. An
    /// implementation that does not say what it is leaves it unknown.
    open spec fn measured(&self, max_width: usize) -> Measurement {
        arbitrary()
    }

    /// Measures the width needed when up to `max_width` cells can be had.
    fn rich_measure(&self, max_width: usize) -> (m: Measurement)
        ensures
            m == self.measured(max_width),
    ;
}

} // verus!
