//! The outcome of every phase is fixed by its inputs.
//!
//! The functions that a phase is given are described by what they may
//! return. Where each of them returns one value only for given arguments,
//! there is one field only that a phase can produce, and one turn only
//! that steering can decide.

use vstd::prelude::*;
use crate::field::{inside, mapped, same_shape, zipped};
use crate::simulation::{applied, deposited, is_chain, settled};
use crate::state::{advanced_all, located_all, stepped, steered_all, Rules, StateView};
use crate::steering::{sampled, steered, Probes, Relation, Turn};
use crate::stencil::{diffused, rolled, stencilled};

verus! {

/// `f` has one possible result for each argument.
pub open spec fn single_valued<T, F: Fn(T) -> T>(f: F) -> bool {
    forall|a: T, r1: T, r2: T|
        #![trigger f.ensures((a,), r1), f.ensures((a,), r2)]
        f.ensures((a,), r1) && f.ensures((a,), r2) ==> r1 == r2
}

/// `f` has one possible result for each pair of arguments.
pub open spec fn single_valued_pairs<T, R, F: Fn(T, T) -> R>(f: F) -> bool {
    forall|a: T, b: T, r1: R, r2: R|
        #![trigger f.ensures((a, b), r1), f.ensures((a, b), r2)]
        f.ensures((a, b), r1) && f.ensures((a, b), r2) ==> r1 == r2
}

/// `f` has one possible result for each cell with its four neighbours.
pub open spec fn single_valued_stencil<T, F: Fn(T, T, T, T, T) -> T>(f: F) -> bool {
    forall|c: T, xb: T, yb: T, xa: T, ya: T, r1: T, r2: T|
        #![trigger f.ensures((c, xb, yb, xa, ya), r1), f.ensures((c, xb, yb, xa, ya), r2)]
        f.ensures((c, xb, yb, xa, ya), r1) && f.ensures((c, xb, yb, xa, ya), r2) ==> r1 == r2
}

/// Two grids of one shape that agree in every cell are the same grid.
pub proof fn lemma_grids_equal<T>(a: Seq<Seq<T>>, b: Seq<Seq<T>>)
    requires
        same_shape(a, b),
        forall|x: int, y: int| inside(a, x, y) ==> a[x][y] == b[x][y],
    ensures
        a == b,
{
    assert forall|x: int| 0 <= x < a.len() implies a[x] =~= b[x] by {
        assert forall|y: int| 0 <= y < a[x].len() implies a[x][y] == b[x][y] by {
            assert(inside(a, x, y));
        }
    }
}

/// Two runs of calls of a single-valued function from one value agree at
/// every place that both reach.
proof fn lemma_chains_agree<T, F: Fn(T) -> T>(f: F, c1: Seq<T>, c2: Seq<T>, i: nat)
    requires
        single_valued(f),
        is_chain(f, c1),
        is_chain(f, c2),
        c1.len() > i,
        c2.len() > i,
        c1[0] == c2[0],
    ensures
        c1[i as int] == c2[i as int],
    decreases i,
{
    if i > 0 {
        let less = (i - 1) as nat;
        lemma_chains_agree(f, c1, c2, less);
    }
}

/// A run of calls of a single-valued function ends in one value.
pub proof fn lemma_applied_single_valued<T, F: Fn(T) -> T>(
    f: F,
    from: T,
    to1: T,
    to2: T,
    times: nat,
)
    requires
        single_valued(f),
        applied(f, from, to1, times),
        applied(f, from, to2, times),
    ensures
        to1 == to2,
{
    let c1 = choose|chain: Seq<T>|
        #![trigger is_chain(f, chain)]
        chain.len() == times + 1 && chain[0] == from && chain[times as int] == to1 && is_chain(
            f,
            chain,
        );
    let c2 = choose|chain: Seq<T>|
        #![trigger is_chain(f, chain)]
        chain.len() == times + 1 && chain[0] == from && chain[times as int] == to2 && is_chain(
            f,
            chain,
        );
    lemma_chains_agree(f, c1, c2, times);
}

/// A cyclic shift has one outcome.
pub proof fn lemma_roll_deterministic<T>(
    before: Seq<Seq<T>>,
    dx: int,
    dy: int,
    a1: Seq<Seq<T>>,
    a2: Seq<Seq<T>>,
)
    requires
        rolled(before, dx, dy, a1),
        rolled(before, dx, dy, a2),
    ensures
        a1 == a2,
{
    lemma_grids_equal(a1, a2);
}

/// Mapping a single-valued function over a grid has one outcome.
pub proof fn lemma_map_deterministic<T, F: Fn(T) -> T>(
    before: Seq<Seq<T>>,
    f: F,
    a1: Seq<Seq<T>>,
    a2: Seq<Seq<T>>,
)
    requires
        single_valued(f),
        mapped(before, f, a1),
        mapped(before, f, a2),
    ensures
        a1 == a2,
{
    lemma_grids_equal(a1, a2);
}

/// Combining two grids cell by cell with a single-valued function has one
/// outcome.
pub proof fn lemma_zip_deterministic<T, F: Fn(T, T) -> T>(
    left: Seq<Seq<T>>,
    right: Seq<Seq<T>>,
    f: F,
    a1: Seq<Seq<T>>,
    a2: Seq<Seq<T>>,
)
    requires
        single_valued_pairs(f),
        zipped(left, right, f, a1),
        zipped(left, right, f, a2),
    ensures
        a1 == a2,
{
    lemma_grids_equal(a1, a2);
}

/// The stencil with a single-valued function has one outcome.
pub proof fn lemma_stencil_deterministic<T, F: Fn(T, T, T, T, T) -> T>(
    before: Seq<Seq<T>>,
    f: F,
    a1: Seq<Seq<T>>,
    a2: Seq<Seq<T>>,
)
    requires
        single_valued_stencil(f),
        stencilled(before, f, a1),
        stencilled(before, f, a2),
    ensures
        a1 == a2,
{
    lemma_grids_equal(a1, a2);
}

/// Diffusion with single-valued functions has one outcome.
pub proof fn lemma_diffuse_deterministic<T, F: Fn(T, T, T, T, T) -> T, M: Fn(T, T) -> T>(
    before: Seq<Seq<T>>,
    stencil: F,
    mix: M,
    a1: Seq<Seq<T>>,
    a2: Seq<Seq<T>>,
)
    requires
        single_valued_stencil(stencil),
        single_valued_pairs(mix),
        diffused(before, stencil, mix, a1),
        diffused(before, stencil, mix, a2),
    ensures
        a1 == a2,
{
    let lap1 = choose|lap: Seq<Seq<T>>| #[trigger]
        stencilled(before, stencil, lap) && zipped(before, lap, mix, a1);
    let lap2 = choose|lap: Seq<Seq<T>>| #[trigger]
        stencilled(before, stencil, lap) && zipped(before, lap, mix, a2);
    lemma_stencil_deterministic(before, stencil, lap1, lap2);
    lemma_zip_deterministic(before, lap1, mix, a1, a2);
}

/// Depositing with a single-valued function has one outcome, whatever the
/// agents' cells.
pub proof fn lemma_deposit_deterministic<T, D: Fn(T) -> T>(
    before: Seq<Seq<T>>,
    cells: Seq<(usize, usize)>,
    deposit: D,
    a1: Seq<Seq<T>>,
    a2: Seq<Seq<T>>,
)
    requires
        single_valued(deposit),
        deposited(before, cells, deposit, a1),
        deposited(before, cells, deposit, a2),
    ensures
        a1 == a2,
{
    assert forall|x: int, y: int| inside(a1, x, y) implies a1[x][y] == a2[x][y] by {
        lemma_applied_single_valued(
            deposit,
            before[x][y],
            a1[x][y],
            a2[x][y],
            crate::simulation::occupancy(cells, x, y),
        );
    }
    lemma_grids_equal(a1, a2);
}

/// The field phases of a step, run twice from one field with the same
/// agents' cells and the same single-valued functions, end in one field.
pub proof fn lemma_settle_deterministic<
    T,
    D: Fn(T) -> T,
    F: Fn(T, T, T, T, T) -> T,
    M: Fn(T, T) -> T,
    K: Fn(T) -> T,
>(
    before: Seq<Seq<T>>,
    cells: Seq<(usize, usize)>,
    deposit: D,
    stencil: F,
    mix: M,
    decay: K,
    a1: Seq<Seq<T>>,
    a2: Seq<Seq<T>>,
)
    requires
        single_valued(deposit),
        single_valued_stencil(stencil),
        single_valued_pairs(mix),
        single_valued(decay),
        settled(before, cells, deposit, stencil, mix, decay, a1),
        settled(before, cells, deposit, stencil, mix, decay, a2),
    ensures
        a1 == a2,
{
    let (fed1, mixed1) = choose|fed: Seq<Seq<T>>, mixed: Seq<Seq<T>>|
        #![trigger diffused(fed, stencil, mix, mixed)]
        deposited(before, cells, deposit, fed) && diffused(fed, stencil, mix, mixed) && mapped(
            mixed,
            decay,
            a1,
        );
    let (fed2, mixed2) = choose|fed: Seq<Seq<T>>, mixed: Seq<Seq<T>>|
        #![trigger diffused(fed, stencil, mix, mixed)]
        deposited(before, cells, deposit, fed) && diffused(fed, stencil, mix, mixed) && mapped(
            mixed,
            decay,
            a2,
        );
    lemma_deposit_deterministic(before, cells, deposit, fed1, fed2);
    lemma_diffuse_deterministic(fed1, stencil, mix, mixed1, mixed2);
    lemma_map_deterministic(mixed1, decay, a1, a2);
}

/// Steering with a single-valued comparison decides one turn.
pub proof fn lemma_steer_deterministic<T, C: Fn(T, T) -> Relation>(
    g: Seq<Seq<T>>,
    p: Probes,
    compare: C,
    t1: Turn,
    t2: Turn,
)
    requires
        single_valued_pairs(compare),
        steered(g, p, compare, t1),
        steered(g, p, compare, t2),
    ensures
        t1 == t2,
{
    match sampled(g, p) {
        None => {},
        Some((ahead, left, right)) => {
            let (l1, r1) = choose|to_left: Relation, to_right: Relation|
                #![trigger crate::steering::turn_for(to_left, to_right)]
                compare.ensures((ahead, left), to_left) && compare.ensures(
                    (ahead, right),
                    to_right,
                ) && t1 == crate::steering::turn_for(to_left, to_right);
            let (l2, r2) = choose|to_left: Relation, to_right: Relation|
                #![trigger crate::steering::turn_for(to_left, to_right)]
                compare.ensures((ahead, left), to_left) && compare.ensures(
                    (ahead, right),
                    to_right,
                ) && t2 == crate::steering::turn_for(to_left, to_right);
        },
    }
}

/// `sense` has one possible result for each agent.
pub open spec fn single_valued_sense<A, S: Fn(&A) -> Probes>(sense: S) -> bool {
    forall|a: A, r1: Probes, r2: Probes|
        #![trigger sense.ensures((&a,), r1), sense.ensures((&a,), r2)]
        sense.ensures((&a,), r1) && sense.ensures((&a,), r2) ==> r1 == r2
}

/// `advance` has one possible result for each agent and turn.
pub open spec fn single_valued_advance<A, V: Fn(&A, Turn) -> A>(advance: V) -> bool {
    forall|a: A, t: Turn, r1: A, r2: A|
        #![trigger advance.ensures((&a, t), r1), advance.ensures((&a, t), r2)]
        advance.ensures((&a, t), r1) && advance.ensures((&a, t), r2) ==> r1 == r2
}

/// `locate` has one possible result for each agent.
pub open spec fn single_valued_locate<A, L: Fn(&A) -> (i64, i64)>(locate: L) -> bool {
    forall|a: A, r1: (i64, i64), r2: (i64, i64)|
        #![trigger locate.ensures((&a,), r1), locate.ensures((&a,), r2)]
        locate.ensures((&a,), r1) && locate.ensures((&a,), r2) ==> r1 == r2
}

/// Every rule has one possible result for given arguments: none draws on
/// chance or on anything but what it is handed.
pub open spec fn single_valued_rules<
    A,
    T,
    S: Fn(&A) -> Probes,
    C: Fn(T, T) -> Relation,
    V: Fn(&A, Turn) -> A,
    L: Fn(&A) -> (i64, i64),
    D: Fn(T) -> T,
    F: Fn(T, T, T, T, T) -> T,
    M: Fn(T, T) -> T,
    K: Fn(T) -> T,
>(rules: Rules<S, C, V, L, D, F, M, K>) -> bool {
    &&& single_valued_sense::<A, S>(rules.sense)
    &&& single_valued_pairs::<T, Relation, C>(rules.compare)
    &&& single_valued_advance::<A, V>(rules.advance)
    &&& single_valued_locate::<A, L>(rules.locate)
    &&& single_valued::<T, D>(rules.deposit)
    &&& single_valued_stencil::<T, F>(rules.stencil)
    &&& single_valued_pairs::<T, T, M>(rules.mix)
    &&& single_valued::<T, K>(rules.decay)
}

/// A time step taken twice from one state under the same single-valued
/// rules ends in one state: the same agents and the same field.
pub proof fn lemma_step_deterministic<
    A,
    T,
    S: Fn(&A) -> Probes,
    C: Fn(T, T) -> Relation,
    V: Fn(&A, Turn) -> A,
    L: Fn(&A) -> (i64, i64),
    D: Fn(T) -> T,
    F: Fn(T, T, T, T, T) -> T,
    M: Fn(T, T) -> T,
    K: Fn(T) -> T,
>(
    before: StateView<A, T>,
    rules: Rules<S, C, V, L, D, F, M, K>,
    a1: StateView<A, T>,
    a2: StateView<A, T>,
)
    requires
        single_valued_rules::<A, T, S, C, V, L, D, F, M, K>(rules),
        stepped(before, rules, a1),
        stepped(before, rules, a2),
    ensures
        a1 == a2,
{
    let (turns1, cells1) = choose|turns: Seq<Turn>, cells: Seq<(usize, usize)>|
        #![trigger advanced_all(before.agents, turns, rules.advance, a1.agents), located_all(a1.agents, rules.locate, before.field, cells)]
        steered_all(before.field, before.agents, rules.sense, rules.compare, turns)
            && advanced_all(before.agents, turns, rules.advance, a1.agents) && located_all(
            a1.agents,
            rules.locate,
            before.field,
            cells,
        ) && settled(
            before.field,
            cells,
            rules.deposit,
            rules.stencil,
            rules.mix,
            rules.decay,
            a1.field,
        );
    let (turns2, cells2) = choose|turns: Seq<Turn>, cells: Seq<(usize, usize)>|
        #![trigger advanced_all(before.agents, turns, rules.advance, a2.agents), located_all(a2.agents, rules.locate, before.field, cells)]
        steered_all(before.field, before.agents, rules.sense, rules.compare, turns)
            && advanced_all(before.agents, turns, rules.advance, a2.agents) && located_all(
            a2.agents,
            rules.locate,
            before.field,
            cells,
        ) && settled(
            before.field,
            cells,
            rules.deposit,
            rules.stencil,
            rules.mix,
            rules.decay,
            a2.field,
        );
    assert forall|i: int| 0 <= i < before.agents.len() implies turns1[i] == turns2[i] by {
        let agent = before.agents[i];
        let p = choose|p: Probes| #[trigger]
            rules.sense.ensures((&agent,), p) && steered(before.field, p, rules.compare, turns1[i]);
        lemma_steer_deterministic(before.field, p, rules.compare, turns1[i], turns2[i]);
    }
    assert(a1.agents =~= a2.agents);
    assert(cells1 =~= cells2);
    lemma_settle_deterministic(
        before.field,
        cells1,
        rules.deposit,
        rules.stencil,
        rules.mix,
        rules.decay,
        a1.field,
        a2.field,
    );
}

} // verus!
