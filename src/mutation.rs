//! Per-parameter mutation decisions.

use vstd::prelude::*;
use crate::random::random_below;

verus! {

/// Chances are drawn as a roll in `[0, ROLL_RANGE)`.
pub const ROLL_RANGE: usize = 1000;

/// A parameter is replaced by a fresh value when its reset roll is below this
/// (a chance of 2%).
pub const RESET_PER_MILLE: usize = 20;

/// A parameter is perturbed when its nudge roll is below this (a chance of 3%).
pub const NUDGE_PER_MILLE: usize = 30;

/// What happens to one parameter after crossover. Both may happen: the
/// reset comes first, the nudge is then added to the fresh value.
#[derive(Clone, Copy, Debug, PartialEq, Eq, Structural)]
pub struct Mutation {
    pub reset: bool,
    pub nudge: bool,
}

/// The decision that two rolls give: each flag depends on its own roll only.
pub open spec fn decided(reset_roll: usize, nudge_roll: usize) -> Mutation {
    Mutation { reset: reset_roll < RESET_PER_MILLE, nudge: nudge_roll < NUDGE_PER_MILLE }
}

/// Turns a reset roll and a nudge roll into the decision for one parameter.
pub fn mutation_from_rolls(reset_roll: usize, nudge_roll: usize) -> (m: Mutation)
    ensures
        m == decided(reset_roll, nudge_roll),
{
    Mutation { reset: reset_roll < RESET_PER_MILLE, nudge: nudge_roll < NUDGE_PER_MILLE }
}

/// Draws the decision for one parameter, with two independent rolls.
pub fn draw_mutation() -> (m: Mutation)
    ensures
        exists|a: usize, b: usize| a < ROLL_RANGE && b < ROLL_RANGE && m == decided(a, b),
{
    let reset_roll = random_below(ROLL_RANGE);
    let nudge_roll = random_below(ROLL_RANGE);
    mutation_from_rolls(reset_roll, nudge_roll)
}

/// Draws the decisions for `count` parameters, each from rolls of its own.
pub fn draw_mutations(count: usize) -> (plan: Vec<Mutation>)
    ensures
        plan@.len() == count,
{
    let mut plan: Vec<Mutation> = Vec::new();
    let mut i: usize = 0;
    while i < count
        invariant
            i <= count,
            plan@.len() == i,
        decreases count - i,
    {
        plan.push(draw_mutation());
        i = i + 1;
    }
    plan
}

} // verus!
