//! What one time step does to the field once the agents have moved:
//! deposit at the agents' cells, diffusion, decay, in that order.

use vstd::prelude::*;
use vstd::arithmetic::power::pow;
use crate::field::{Field, inside, mapped, same_shape};
use crate::stencil::diffused;

verus! {

/// The number of entries of `cells` that name the cell `(x, y)`.
pub open spec fn occupancy(cells: Seq<(usize, usize)>, x: int, y: int) -> nat
    decreases cells.len(),
{
    if cells.len() == 0 {
        0
    } else {
        let rest = occupancy(cells.drop_last(), x, y);
        if cells.last().0 == x && cells.last().1 == y {
            rest + 1
        } else {
            rest
        }
    }
}

/// `chain` is a run of calls of `f`: each of its values but the first is
/// one that `f` may return for the value before it.
pub open spec fn is_chain<T, F: Fn(T) -> T>(f: F, chain: Seq<T>) -> bool {
    forall|i: int| 0 <= i < chain.len() - 1 ==> f.ensures((#[trigger] chain[i],), chain[i + 1])
}

/// `to` is a value that `times` calls of `f` in a row may lead to from
/// `from`, each call taking what the one before returned.
pub open spec fn applied<T, F: Fn(T) -> T>(f: F, from: T, to: T, times: nat) -> bool {
    exists|chain: Seq<T>|
        #![trigger is_chain(f, chain)]
        chain.len() == times + 1 && chain[0] == from && chain[times as int] == to && is_chain(
            f,
            chain,
        )
}

/// No call at all leaves a value as it is.
pub proof fn lemma_applied_never<T, F: Fn(T) -> T>(f: F, value: T)
    ensures
        applied(f, value, value, 0),
{
    let chain = seq![value];
    assert(is_chain(f, chain));
}

/// One more call of `f` extends a run of calls by one.
pub proof fn lemma_applied_once_more<T, F: Fn(T) -> T>(f: F, from: T, mid: T, to: T, times: nat)
    requires
        applied(f, from, mid, times),
        f.ensures((mid,), to),
    ensures
        applied(f, from, to, times + 1),
{
    let chain = choose|chain: Seq<T>|
        #![trigger is_chain(f, chain)]
        chain.len() == times + 1 && chain[0] == from && chain[times as int] == mid && is_chain(
            f,
            chain,
        );
    let longer = chain.push(to);
    assert forall|i: int| 0 <= i < longer.len() - 1 implies f.ensures(
        (#[trigger] longer[i],),
        longer[i + 1],
    ) by {}
    assert(is_chain(f, longer));
}

/// `after` has the shape of `before`, and each of its cells has received
/// `f` once for every entry of `cells` that names it, and not otherwise.
pub open spec fn deposited<T, F: Fn(T) -> T>(
    before: Seq<Seq<T>>,
    cells: Seq<(usize, usize)>,
    f: F,
    after: Seq<Seq<T>>,
) -> bool {
    &&& same_shape(before, after)
    &&& forall|x: int, y: int|
        inside(before, x, y) ==> applied(f, before[x][y], #[trigger] after[x][y], occupancy(cells, x, y))
}

/// `after` is what the three field phases of a step make of `before`:
/// deposit at `cells`, then diffusion of the field with the deposits in
/// it, then decay of every cell. The shape of the field stays.
pub open spec fn settled<
    T,
    D: Fn(T) -> T,
    F: Fn(T, T, T, T, T) -> T,
    M: Fn(T, T) -> T,
    K: Fn(T) -> T,
>(
    before: Seq<Seq<T>>,
    cells: Seq<(usize, usize)>,
    deposit: D,
    stencil: F,
    mix: M,
    decay: K,
    after: Seq<Seq<T>>,
) -> bool {
    &&& same_shape(before, after)
    &&& exists|fed: Seq<Seq<T>>, mixed: Seq<Seq<T>>|
        #![trigger diffused(fed, stencil, mix, mixed)]
        deposited(before, cells, deposit, fed) && diffused(fed, stencil, mix, mixed) && mapped(
            mixed,
            decay,
            after,
        )
}

impl<T: Copy> Field<T> {
    /// Lets every agent deposit into the cell it occupies: for each entry
    /// of `cells` in turn, replaces that cell by `deposit` of it. Agents on
    /// one cell add up.
    pub fn deposit_all<D: Fn(T) -> T>(&mut self, cells: &Vec<(usize, usize)>, deposit: &D)
        requires
            forall|i: int|
                0 <= i < cells.len() ==> inside(
                    old(self)@,
                    (#[trigger] cells[i]).0 as int,
                    cells[i].1 as int,
                ),
            forall|v: T| deposit.requires((v,)),
        ensures
            deposited(old(self)@, cells@, *deposit, final(self)@),
    {
        let ghost before = self@;
        // Asking for the width brings the field's shape into view.
        let w: usize = self.width();
        let mut i: usize = 0;
        proof {
            assert forall|x: int, y: int| inside(before, x, y) implies applied(
                *deposit,
                before[x][y],
                #[trigger] self@[x][y],
                occupancy(cells@.take(0), x, y),
            ) by {
                lemma_applied_never(*deposit, before[x][y]);
            }
        }
        while i < cells.len()
            invariant
                i <= cells.len(),
                before == old(self)@,
                forall|k: int|
                    0 <= k < cells.len() ==> inside(
                        before,
                        (#[trigger] cells[k]).0 as int,
                        cells[k].1 as int,
                    ),
                forall|v: T| deposit.requires((v,)),
                deposited(before, cells@.take(i as int), *deposit, self@),
            decreases cells.len() - i,
        {
            let (cx, cy) = cells[i];
            let ghost now = self@;
            self.update(cx, cy, deposit);
            let ghost fed = self@[cx as int][cy as int];
            proof {
                let seen = cells@.take(i as int);
                let next = cells@.take(i + 1);
                assert(next.drop_last() =~= seen);
                assert forall|x: int, y: int| inside(before, x, y) implies applied(
                    *deposit,
                    before[x][y],
                    #[trigger] self@[x][y],
                    occupancy(next, x, y),
                ) by {
                    if x == cx && y == cy {
                        lemma_applied_once_more(
                            *deposit,
                            before[x][y],
                            now[x][y],
                            fed,
                            occupancy(seen, x, y),
                        );
                    }
                }
            }
            i += 1;
        }
        proof {
            assert(cells@.take(cells.len() as int) =~= cells@);
        }
    }

    /// The field's share of one time step, run after the agents have
    /// steered and moved: every agent deposits into the cell it occupies,
    /// the field with the deposits in it is diffused, and every cell
    /// decays. The phases always run, and always in this order.
    pub fn settle<D: Fn(T) -> T, F: Fn(T, T, T, T, T) -> T, M: Fn(T, T) -> T, K: Fn(T) -> T>(
        &mut self,
        cells: &Vec<(usize, usize)>,
        deposit: &D,
        stencil: &F,
        mix: &M,
        decay: &K,
    )
        requires
            forall|i: int|
                0 <= i < cells.len() ==> inside(
                    old(self)@,
                    (#[trigger] cells[i]).0 as int,
                    cells[i].1 as int,
                ),
            forall|v: T| deposit.requires((v,)),
            forall|c: T, xb: T, yb: T, xa: T, ya: T| stencil.requires((c, xb, yb, xa, ya)),
            forall|a: T, b: T| mix.requires((a, b)),
            forall|v: T| decay.requires((v,)),
        ensures
            settled(old(self)@, cells@, *deposit, *stencil, *mix, *decay, final(self)@),
    {
        self.deposit_all(cells, deposit);
        self.diffuse(stencil, mix);
        let faded: Field<T> = self.map(decay);
        *self = faded;
    }
}

/// `history` is a run of steps without agents: each of its fields but the
/// first is what the field phases make of the one before it when nobody
/// deposits.
pub open spec fn idle_run<
    T,
    D: Fn(T) -> T,
    F: Fn(T, T, T, T, T) -> T,
    M: Fn(T, T) -> T,
    K: Fn(T) -> T,
>(history: Seq<Seq<Seq<T>>>, deposit: D, stencil: F, mix: M, decay: K) -> bool {
    &&& history.len() > 0
    &&& forall|i: int|
        0 <= i < history.len() - 1 ==> settled(
            #[trigger] history[i],
            Seq::<(usize, usize)>::empty(),
            deposit,
            stencil,
            mix,
            decay,
            history[i + 1],
        )
}

/// Along a run of calls of a function that adds `inc`, the value at
/// place `i` is the first value and `i` times `inc`.
proof fn lemma_chain_adds<D: Fn(i64) -> i64>(deposit: D, inc: int, chain: Seq<i64>, i: nat)
    requires
        forall|v: i64, r: i64| #[trigger] deposit.ensures((v,), r) ==> r == v + inc,
        is_chain(deposit, chain),
        i < chain.len(),
    ensures
        chain[i as int] == chain[0] + i * inc,
    decreases i,
{
    if i > 0 {
        let less = (i - 1) as nat;
        lemma_chain_adds(deposit, inc, chain, less);
        assert(less * inc + inc == i * inc) by (nonlinear_arith)
            requires
                less + 1 == i,
        ;
    } else {
        assert(i * inc == 0) by (nonlinear_arith)
            requires
                i == 0,
        ;
    }
}

/// Where `k` agents occupy a cell and a deposit adds `inc`, the cell
/// holds `k * inc` more after the deposits than before.
pub proof fn lemma_applied_adds<D: Fn(i64) -> i64>(
    deposit: D,
    inc: int,
    from: i64,
    to: i64,
    times: nat,
)
    requires
        forall|v: i64, r: i64| #[trigger] deposit.ensures((v,), r) ==> r == v + inc,
        applied(deposit, from, to, times),
    ensures
        to == from + times * inc,
{
    let chain = choose|chain: Seq<i64>|
        #![trigger is_chain(deposit, chain)]
        chain.len() == times + 1 && chain[0] == from && chain[times as int] == to && is_chain(
            deposit,
            chain,
        );
    lemma_chain_adds(deposit, inc, chain, times);
}

/// Along a run of calls of a function that multiplies by `factor`, the
/// value at place `i` is the first value times the `i`-th power of
/// `factor`.
proof fn lemma_chain_scales<K: Fn(i64) -> i64>(decay: K, factor: int, chain: Seq<i64>, i: nat)
    requires
        forall|v: i64, r: i64| #[trigger] decay.ensures((v,), r) ==> r == v * factor,
        is_chain(decay, chain),
        i < chain.len(),
    ensures
        chain[i as int] == chain[0] * pow(factor, i),
    decreases i,
{
    reveal(pow);
    if i > 0 {
        let less = (i - 1) as nat;
        lemma_chain_scales(decay, factor, chain, less);
        assert(chain[0] * pow(factor, less) * factor == chain[0] * (factor * pow(factor, less)))
            by (nonlinear_arith);
    }
}

/// Where a decay multiplies by `factor`, a cell that has decayed `n` times
/// holds its first value times the `n`-th power of `factor`.
pub proof fn lemma_applied_scales<K: Fn(i64) -> i64>(
    decay: K,
    factor: int,
    from: i64,
    to: i64,
    times: nat,
)
    requires
        forall|v: i64, r: i64| #[trigger] decay.ensures((v,), r) ==> r == v * factor,
        applied(decay, from, to, times),
    ensures
        to == from * pow(factor, times),
{
    let chain = choose|chain: Seq<i64>|
        #![trigger is_chain(decay, chain)]
        chain.len() == times + 1 && chain[0] == from && chain[times as int] == to && is_chain(
            decay,
            chain,
        );
    lemma_chain_scales(decay, factor, chain, times);
}

/// A step without agents and with a mix that keeps the cell as it is does
/// nothing but decay: each cell of the result is the decay of the cell in
/// the same place.
pub proof fn lemma_idle_step_only_decays<
    T,
    D: Fn(T) -> T,
    F: Fn(T, T, T, T, T) -> T,
    M: Fn(T, T) -> T,
    K: Fn(T) -> T,
>(before: Seq<Seq<T>>, deposit: D, stencil: F, mix: M, decay: K, after: Seq<Seq<T>>)
    requires
        settled(before, Seq::<(usize, usize)>::empty(), deposit, stencil, mix, decay, after),
        forall|a: T, b: T, r: T| #[trigger] mix.ensures((a, b), r) ==> r == a,
    ensures
        mapped(before, decay, after),
{
    let none = Seq::<(usize, usize)>::empty();
    let (fed, mixed) = choose|fed: Seq<Seq<T>>, mixed: Seq<Seq<T>>|
        #![trigger diffused(fed, stencil, mix, mixed)]
        deposited(before, none, deposit, fed) && diffused(fed, stencil, mix, mixed) && mapped(
            mixed,
            decay,
            after,
        );
    // Nobody deposits, so the field enters diffusion as it was.
    crate::determinism::lemma_grids_equal(before, fed);
    // The mix keeps each cell, so diffusion changes nothing either.
    crate::determinism::lemma_grids_equal(fed, mixed);
}

/// Over a run of `n` steps without agents and with a mix that keeps the
/// cell as it is, a cell decays `n` times and nothing else happens to it.
pub proof fn lemma_idle_run_decays<
    T,
    D: Fn(T) -> T,
    F: Fn(T, T, T, T, T) -> T,
    M: Fn(T, T) -> T,
    K: Fn(T) -> T,
>(history: Seq<Seq<Seq<T>>>, deposit: D, stencil: F, mix: M, decay: K, x: int, y: int)
    requires
        idle_run(history, deposit, stencil, mix, decay),
        forall|a: T, b: T, r: T| #[trigger] mix.ensures((a, b), r) ==> r == a,
        inside(history[0], x, y),
    ensures
        inside(history.last(), x, y),
        applied(decay, history[0][x][y], history.last()[x][y], (history.len() - 1) as nat),
    decreases history.len(),
{
    if history.len() == 1 {
        lemma_applied_never(decay, history[0][x][y]);
    } else {
        let earlier = history.drop_last();
        assert forall|i: int| 0 <= i < earlier.len() - 1 implies settled(
            #[trigger] earlier[i],
            Seq::<(usize, usize)>::empty(),
            deposit,
            stencil,
            mix,
            decay,
            earlier[i + 1],
        ) by {}
        lemma_idle_run_decays(earlier, deposit, stencil, mix, decay, x, y);
        let last_but_one = history[history.len() - 2];
        lemma_idle_step_only_decays(last_but_one, deposit, stencil, mix, decay, history.last());
        lemma_applied_once_more(
            decay,
            history[0][x][y],
            last_but_one[x][y],
            history.last()[x][y],
            (earlier.len() - 1) as nat,
        );
    }
}

} // verus!
