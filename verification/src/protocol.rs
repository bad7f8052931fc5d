//! Protocol-style extensibility: the rule by which a chain of casts ends.
//!
//! A value with a cast hook says what it is to be rendered as: a string, a
//! renderable, or another value with a cast hook, which is then asked in
//! turn. The types of the values that were asked are remembered, so that
//! values that cast to each other in a circle do not keep the cast going
//! for ever.
use vstd::prelude::*;

verus! {

/// What a cast gave.
#[derive(Debug, Clone, Copy, PartialEq, Eq, Structural)]
pub enum CastKind {
    /// A string.
    Str,
    /// A renderable that has no cast hook.
    Renderable,
    /// A value with a cast hook of its own.
    Castable,
}

/// What to do with the result of a cast.
#[derive(Debug, Clone, Copy, PartialEq, Eq, Structural)]
pub enum CastAction {
    /// The result is the outcome of the whole cast.
    Finish,
    /// The type of the result is remembered, and the result is cast again.
    CastAgain,
}

/// The rule of the cast: it goes on with a castable result whose type was
/// not seen before, and ends with every other result.
pub open spec fn action_for(kind: CastKind, seen_before: bool) -> CastAction {
    if kind == CastKind::Castable && !seen_before {
        CastAction::CastAgain
    } else {
        CastAction::Finish
    }
}

/// Decides what to do with the result of a cast; `seen_before` says whether
/// a result of its type was met earlier in the same cast.
pub fn cast_step(kind: CastKind, seen_before: bool) -> (action: CastAction)
    ensures
        action == action_for(kind, seen_before),
{
    match kind {
        CastKind::Castable => {
            if seen_before {
                CastAction::Finish
            } else {
                CastAction::CastAgain
            }
        },
        _ => CastAction::Finish,
    }
}

} // verus!
