//! Renderable components.
use crate::segment::{Line, Segment};
use vstd::prelude::*;

pub mod constrain;
pub mod emoji;
pub mod json;
pub mod layout;
pub mod progress;
pub mod resolve;
pub mod rule;
pub mod traceback;

verus! {

/// Content that can draw itself into a stream of segments for a given width
/// and height.
///
/// What an implementation draws is a function of the value and of the two
/// dimensions: `rendered` names it, and `render` computes it. The stream need
/// not fit the dimensions; whoever asks for it cuts and pads it.
pub trait Renderable {
    /// The segments drawn for a space of `width` by `height` cells. An
    /// implementation that does not say what it draws leaves them unknown.
    open spec fn rendered(&self, width: usize, height: usize) -> Line {
        arbitrary()
    }

    /// Draws the content for a space of `width` by `height` cells.
    fn render(&self, width: usize, height: usize) -> (out: Vec<Segment>)
        ensures
            out.deep_view() == self.rendered(width, height),
    ;
}

} // verus!
