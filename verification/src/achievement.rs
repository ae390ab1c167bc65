//! The catalog record and the per-item derived state.

use vstd::prelude::*;

verus! {

/// One entry of the remote catalog: a stable id, a display name, and the ids
/// of the achievements that are mutually exclusive with this one. `related`
/// is directed: that `a` lists `b` does not mean that `b` lists `a`.
pub struct Achievement {
    pub id: i64,
    pub name: String,
    pub related: Vec<i64>,
}

/// The derived, mutable state of one achievement: whether the user completed
/// it, and whether a related achievement's completion disabled it.
#[derive(Clone, Copy, PartialEq, Eq, Structural, Debug)]
pub struct AchState {
    pub completed: bool,
    pub disabled: bool,
}

} // verus!
