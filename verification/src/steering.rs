//! Sensing and the steering rule.
//!
//! An agent probes the field at three places: ahead, ahead to its left and
//! ahead to its right. Where any probe falls off the grid the agent keeps
//! its heading. Otherwise it turns toward the side that is strictly richer
//! than what lies ahead while the other side is strictly poorer, and keeps
//! its heading in every other case, ties included.

use vstd::prelude::*;
use crate::field::{Field, inside};

verus! {

/// What the steering rule decides for one agent.
#[derive(Clone, Copy, PartialEq, Eq, Debug, Structural)]
pub enum Turn {
    /// Raise the heading by one turn step.
    Left,
    /// Lower the heading by one turn step.
    Right,
    /// Keep the heading.
    Straight,
}

/// How the sample ahead stands to a sample at one side.
#[derive(Clone, Copy, PartialEq, Eq, Debug, Structural)]
pub enum Relation {
    /// The sample ahead is strictly less than the one at the side.
    Less,
    /// The two samples are equal.
    Equal,
    /// The sample ahead is strictly greater than the one at the side.
    Greater,
    /// The two samples cannot be ordered.
    Unordered,
}

/// The three places that one agent probes, as cell coordinates. They may
/// lie off the grid.
#[derive(Clone, Copy, Debug)]
pub struct Probes {
    pub forward: (i64, i64),
    pub left: (i64, i64),
    pub right: (i64, i64),
}

/// The steering rule, from how the sample ahead stands to the left sample
/// and to the right sample.
pub open spec fn turn_for(to_left: Relation, to_right: Relation) -> Turn {
    if to_left == Relation::Less && to_right == Relation::Greater {
        Turn::Right
    } else if to_left == Relation::Greater && to_right == Relation::Less {
        Turn::Left
    } else {
        Turn::Straight
    }
}

/// The number of turn steps by which a turn changes the heading.
pub open spec fn heading_steps(turn: Turn) -> int {
    match turn {
        Turn::Left => 1,
        Turn::Right => -1,
        Turn::Straight => 0,
    }
}

/// The three samples of an agent, ahead, left and right, or nothing where
/// a probe lies off the grid.
pub open spec fn sampled<T>(g: Seq<Seq<T>>, p: Probes) -> Option<(T, T, T)> {
    if inside(g, p.forward.0 as int, p.forward.1 as int) && inside(
        g,
        p.left.0 as int,
        p.left.1 as int,
    ) && inside(g, p.right.0 as int, p.right.1 as int) {
        Some(
            (
                g[p.forward.0 as int][p.forward.1 as int],
                g[p.left.0 as int][p.left.1 as int],
                g[p.right.0 as int][p.right.1 as int],
            ),
        )
    } else {
        None
    }
}

/// `turn` is what the rule gives for an agent with probes `p` on the grid
/// `g`, where `compare` tells how the sample ahead stands to a side sample.
pub open spec fn steered<T, C: Fn(T, T) -> Relation>(
    g: Seq<Seq<T>>,
    p: Probes,
    compare: C,
    turn: Turn,
) -> bool {
    match sampled(g, p) {
        None => turn == Turn::Straight,
        Some((ahead, left, right)) => exists|to_left: Relation, to_right: Relation|
            #![trigger turn_for(to_left, to_right)]
            compare.ensures((ahead, left), to_left) && compare.ensures((ahead, right), to_right)
                && turn == turn_for(to_left, to_right),
    }
}

/// Applies the steering rule.
pub fn steer(to_left: Relation, to_right: Relation) -> (turn: Turn)
    ensures
        turn == turn_for(to_left, to_right),
{
    if to_left == Relation::Less && to_right == Relation::Greater {
        Turn::Right
    } else if to_left == Relation::Greater && to_right == Relation::Less {
        Turn::Left
    } else {
        Turn::Straight
    }
}

impl Turn {
    /// The number of turn steps to add to the heading: one for a left
    /// turn, minus one for a right turn, none to go straight.
    pub fn steps(self) -> (n: i32)
        ensures
            n == heading_steps(self),
    {
        match self {
            Turn::Left => 1,
            Turn::Right => -1,
            Turn::Straight => 0,
        }
    }
}

/// Where the sample ahead equals either side sample, the agent keeps its
/// heading, whatever the other side holds.
pub proof fn lemma_tie_goes_straight(other: Relation)
    ensures
        turn_for(Relation::Equal, other) == Turn::Straight,
        turn_for(other, Relation::Equal) == Turn::Straight,
        heading_steps(turn_for(Relation::Equal, Relation::Equal)) == 0,
{
}

/// A turn is made only when one side is strictly richer and the other
/// strictly poorer than what lies ahead.
pub proof fn lemma_turn_needs_strict_slope(to_left: Relation, to_right: Relation)
    ensures
        turn_for(to_left, to_right) == Turn::Right <==> (to_left == Relation::Less && to_right
            == Relation::Greater),
        turn_for(to_left, to_right) == Turn::Left <==> (to_left == Relation::Greater && to_right
            == Relation::Less),
{
}

impl<T: Copy> Field<T> {
    /// Reads the field at the three probes. Gives the samples ahead, left
    /// and right where all three probes lie on the grid, and nothing
    /// otherwise.
    pub fn sense(&self, probes: &Probes) -> (s: Option<(T, T, T)>)
        ensures
            s == sampled(self@, *probes),
    {
        let ahead: Option<T> = self.get(probes.forward.0, probes.forward.1);
        let left: Option<T> = self.get(probes.left.0, probes.left.1);
        let right: Option<T> = self.get(probes.right.0, probes.right.1);
        match (ahead, left, right) {
            (Some(a), Some(l), Some(r)) => Some((a, l, r)),
            _ => None,
        }
    }

    /// Decides the turn of one agent from the field as it stands.
    pub fn steer<C: Fn(T, T) -> Relation>(&self, probes: &Probes, compare: &C) -> (turn: Turn)
        requires
            forall|a: T, b: T| compare.requires((a, b)),
        ensures
            steered(self@, *probes, *compare, turn),
    {
        match self.sense(probes) {
            None => Turn::Straight,
            Some((ahead, left, right)) => {
                let to_left: Relation = compare(ahead, left);
                let to_right: Relation = compare(ahead, right);
                steer(to_left, to_right)
            },
        }
    }

    /// Decides the turn of every agent from the field as it stands. No
    /// agent's outcome depends on another's.
    pub fn steer_all<C: Fn(T, T) -> Relation>(&self, probes: &Vec<Probes>, compare: &C) -> (turns:
        Vec<Turn>)
        requires
            forall|a: T, b: T| compare.requires((a, b)),
        ensures
            turns.len() == probes.len(),
            forall|i: int|
                0 <= i < probes.len() ==> steered(self@, probes[i], *compare, #[trigger] turns[i]),
    {
        let mut turns: Vec<Turn> = Vec::with_capacity(probes.len());
        let mut i: usize = 0;
        while i < probes.len()
            invariant
                i <= probes.len(),
                turns.len() == i,
                forall|a: T, b: T| compare.requires((a, b)),
                forall|k: int|
                    0 <= k < i ==> steered(self@, probes[k], *compare, #[trigger] turns[k]),
            decreases probes.len() - i,
        {
            let turn: Turn = self.steer(&probes[i], compare);
            turns.push(turn);
            i += 1;
        }
        turns
    }
}

} // verus!
