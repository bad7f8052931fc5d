//! Constrain: limits the width that a renderable is drawn in.
use crate::measure::{Measurement, RichMeasure};
use crate::renderables::Renderable;
use crate::segment::{Line, Segment};
use vstd::prelude::*;

verus! {

/// What a `Constrain` wraps: something that is only drawn, or something
/// that can be measured as well.
pub enum ConstrainChild<R> {
    Renderable(R),
    Measurable(R),
}

impl<R> ConstrainChild<R> {
    /// The wrapped value.
    pub open spec fn inner(self) -> R {
        match self {
            ConstrainChild::Renderable(value) => value,
            ConstrainChild::Measurable(value) => value,
        }
    }

    /// The wrapped value, to draw it.
    pub fn as_renderable(&self) -> (out: &R)
        ensures
            *out == self.inner(),
    {
        match self {
            ConstrainChild::Renderable(value) => value,
            ConstrainChild::Measurable(value) => value,
        }
    }

    /// The wrapped value, to measure it, if it was given as measurable.
    pub fn as_measurable(&self) -> (out: Option<&R>)
        ensures
            match out {
                Some(value) => *self == ConstrainChild::Measurable(*value),
                None => *self is Renderable,
            },
    {
        match self {
            ConstrainChild::Renderable(_) => None,
            ConstrainChild::Measurable(value) => Some(value),
        }
    }
}

/// Constrain the width of a renderable to a given number of characters.
pub struct Constrain<R> {
    child: ConstrainChild<R>,
    width: Option<usize>,
}

/// A `Constrain` as a plain value.
pub struct ConstrainModel<R> {
    /// What is wrapped.
    pub child: ConstrainChild<R>,
    /// The width that the child is held to, if any.
    pub width: Option<usize>,
}

impl<R> View for Constrain<R> {
    type V = ConstrainModel<R>;

    closed spec fn view(&self) -> ConstrainModel<R> {
        ConstrainModel { child: self.child, width: self.width }
    }
}

impl<R> Constrain<R> {
    /// Create a `Constrain` wrapper around any renderable. Without a width
    /// the wrapper changes nothing.
    pub fn new(renderable: R, width: Option<usize>) -> (out: Constrain<R>)
        ensures
            out@ == (ConstrainModel { child: ConstrainChild::Renderable(renderable), width }),
    {
        Constrain { child: ConstrainChild::Renderable(renderable), width }
    }

    /// Create a `Constrain` wrapper around a boxed renderable.
    pub fn new_boxed(renderable: Box<R>, width: Option<usize>) -> (out: Constrain<R>)
        ensures
            out@ == (ConstrainModel { child: ConstrainChild::Renderable(*renderable), width }),
    {
        Constrain { child: ConstrainChild::Renderable(*renderable), width }
    }

    /// Create a `Constrain` wrapper around a renderable that supports
    /// measurement.
    pub fn new_measurable(renderable: R, width: Option<usize>) -> (out: Constrain<R>)
        ensures
            out@ == (ConstrainModel { child: ConstrainChild::Measurable(renderable), width }),
    {
        Constrain { child: ConstrainChild::Measurable(renderable), width }
    }

    /// Set / clear the constrain width.
    pub fn width(self, width: Option<usize>) -> (out: Constrain<R>)
        ensures
            out@ == (ConstrainModel { width, ..self@ }),
    {
        Constrain { child: self.child, width }
    }
}

impl<R: Renderable> Renderable for Constrain<R> {
    open spec fn rendered(&self, width: usize, height: usize) -> Line {
        match self@.width {
            None => self@.child.inner().rendered(width, height),
            Some(limit) => self@.child.inner().rendered(
                if limit <= width {
                    limit
                } else {
                    width
                },
                height,
            ),
        }
    }

    /// Draws the child in the smaller of the constrain width and the width
    /// given; in the width given where there is no constrain width.
    fn render(&self, width: usize, height: usize) -> (out: Vec<Segment>) {
        match self.width {
            None => self.child.as_renderable().render(width, height),
            Some(limit) => {
                let narrow = if limit <= width {
                    limit
                } else {
                    width
                };
                self.child.as_renderable().render(narrow, height)
            },
        }
    }
}

impl<R: RichMeasure> RichMeasure for Constrain<R> {
    open spec fn measured(&self, max_width: usize) -> Measurement {
        let within = match self@.width {
            Some(limit) => limit,
            None => max_width,
        };
        match self@.child {
            ConstrainChild::Measurable(value) => value.measured(within).capped(within),
            ConstrainChild::Renderable(_) => Measurement { minimum: 0, maximum: within },
        }
    }

    /// Measures the child within the constrain width, or within the width
    /// given where there is none.
    fn rich_measure(&self, max_width: usize) -> (m: Measurement) {
        let within = match self.width {
            Some(limit) => limit,
            None => max_width,
        };
        Measurement::get(within, self.child.as_measurable())
    }
}

} // verus!
