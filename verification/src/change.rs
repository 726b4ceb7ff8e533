//! What a change does and the approval lane it lands in.

use vstd::prelude::*;

verus! {

/// What a change does to a resource.
#[derive(Debug, Clone, Copy, PartialEq, Eq, Hash)]
pub enum Operation {
    Create,
    Update,
    Delete,
}

/// The approval lane of a change: green merges on its own, yellow needs a approver, red needs a
/// approver who confirms by name.
#[derive(Debug, Clone, Copy, PartialEq, Eq)]
pub enum Lane {
    Green,
    Yellow,
    Red,
}

/// How risky a lane is: green below yellow below red.
pub open spec fn rank(lane: Lane) -> int {
    match lane {
        Lane::Green => 0,
        Lane::Yellow => 1,
        Lane::Red => 2,
    }
}

/// The riskier of two lanes, the left one on a tie.
pub open spec fn riskier(left: Lane, right: Lane) -> Lane {
    if rank(right) > rank(left) {
        right
    } else {
        left
    }
}

/// The riskier of two lanes. One merge request carries the whole bundle, so it has to be
/// approved at the level of the riskiest thing in it.
pub fn riskiest(left: Lane, right: Lane) -> (r: Lane)
    ensures
        r == riskier(left, right),
{
    let rank_of = |lane: Lane| -> (n: u8)
        ensures
            n as int == rank(lane),
        {
            match lane {
                Lane::Green => 0,
                Lane::Yellow => 1,
                Lane::Red => 2,
            }
        };
    if rank_of(right) > rank_of(left) {
        right
    } else {
        left
    }
}

/// The riskiest lane is at least as risky as each of the two, and is one of them.
pub proof fn riskiest_dominates(left: Lane, right: Lane)
    ensures
        rank(riskier(left, right)) >= rank(left),
        rank(riskier(left, right)) >= rank(right),
        riskier(left, right) == left || riskier(left, right) == right,
{
}

/// Combining lanes does not depend on the order they are met in: it is commutative up to
/// rank and associative.
pub proof fn riskiest_is_a_maximum(a: Lane, b: Lane, c: Lane)
    ensures
        riskier(a, b) == riskier(b, a),
        riskier(riskier(a, b), c) == riskier(a, riskier(b, c)),
        riskier(a, Lane::Green) == a,
        riskier(a, a) == a,
{
}

} // verus!
