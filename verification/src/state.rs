//! The whole simulation: the agents, the field, and one time step over
//! both.
//!
//! What an agent is, and all arithmetic on agents and cells, is given by
//! the caller as a set of rules. This module fixes what happens when: all
//! agents steer by the field as the last step left it, then all agents
//! move, then the field takes the deposits, diffuses and decays.

use vstd::prelude::*;
use crate::field::{
    config_fault, grid_height, grid_width, inside, is_grid, same_shape, Config, ConfigError,
    Field,
};
use crate::simulation::settled;
use crate::steering::{steered, Probes, Relation, Turn};
use crate::torus::{loop_coord, wrap};

verus! {

/// The width of the grid that the simulation is run on.
pub const WIDTH: i64 = 512;

/// The height of the grid that the simulation is run on.
pub const HEIGHT: i64 = 512;

/// The number of agents that the simulation is run with.
pub const POPULATION: i64 = 10000;

/// The functions that say how agents and cells behave.
pub struct Rules<S, C, V, L, D, F, M, K> {
    /// The three places that an agent probes.
    pub sense: S,
    /// How the sample ahead stands to a sample at one side.
    pub compare: C,
    /// The agent after it has made the given turn and moved.
    pub advance: V,
    /// The cell that an agent occupies.
    pub locate: L,
    /// A cell after one agent's deposit.
    pub deposit: D,
    /// The stencil's value for a cell and its four neighbours: the one in
    /// the column before, in the row before, in the column after, in the
    /// row after.
    pub stencil: F,
    /// A cell with its share of the stencil's value mixed in.
    pub mix: M,
    /// A cell after one step's decay.
    pub decay: K,
}

/// The agents and the field of a simulation, and the number of agents that
/// it starts with.
pub struct StateView<A, T> {
    pub agents: Seq<A>,
    pub field: Seq<Seq<T>>,
    pub population: nat,
}

/// A simulation between two steps.
pub struct State<A, T> {
    population: usize,
    agents: Vec<A>,
    field: Field<T>,
}

impl<A, T> View for State<A, T> {
    type V = StateView<A, T>;

    closed spec fn view(&self) -> StateView<A, T> {
        StateView { agents: self.agents@, field: self.field@, population: self.population as nat }
    }
}

/// `agents` are `count` agents, the one at each index being one that
/// `spawn` may return for that index.
pub open spec fn spawned<A, W: Fn(usize) -> A>(agents: Seq<A>, count: nat, spawn: W) -> bool {
    &&& agents.len() == count
    &&& forall|i: int| 0 <= i < count ==> spawn.ensures((i as usize,), #[trigger] agents[i])
}

/// `state` is a simulation at its start: a grid of the given size with
/// `blank` in every cell, and as many freshly spawned agents as the
/// population asks for.
pub open spec fn fresh<A, T, W: Fn(usize) -> A>(
    state: StateView<A, T>,
    width: int,
    height: int,
    population: int,
    blank: T,
    spawn: W,
) -> bool {
    &&& is_grid(state.field)
    &&& grid_width(state.field) == width
    &&& grid_height(state.field) == height
    &&& forall|x: int, y: int| inside(state.field, x, y) ==> #[trigger] state.field[x][y] == blank
    &&& state.population == population
    &&& spawned(state.agents, state.population, spawn)
}

/// `turn` is the turn that the steering rule gives `agent` on `field`.
pub open spec fn steered_one<A, T, S: Fn(&A) -> Probes, C: Fn(T, T) -> Relation>(
    field: Seq<Seq<T>>,
    agent: A,
    sense: S,
    compare: C,
    turn: Turn,
) -> bool {
    exists|p: Probes| #[trigger] sense.ensures((&agent,), p) && steered(field, p, compare, turn)
}

/// `turns` holds for each agent the turn that the steering rule gives it
/// on `field`.
pub open spec fn steered_all<A, T, S: Fn(&A) -> Probes, C: Fn(T, T) -> Relation>(
    field: Seq<Seq<T>>,
    agents: Seq<A>,
    sense: S,
    compare: C,
    turns: Seq<Turn>,
) -> bool {
    &&& turns.len() == agents.len()
    &&& forall|i: int|
        0 <= i < agents.len() ==> steered_one(field, agents[i], sense, compare, #[trigger] turns[i])
}

/// `after` holds each agent of `agents` after its turn and its move.
pub open spec fn advanced_all<A, V: Fn(&A, Turn) -> A>(
    agents: Seq<A>,
    turns: Seq<Turn>,
    advance: V,
    after: Seq<A>,
) -> bool {
    &&& after.len() == agents.len()
    &&& forall|i: int|
        0 <= i < agents.len() ==> advance.ensures((&agents[i], turns[i]), #[trigger] after[i])
}

/// `cell` is the cell that `agent` occupies, taken around the edges of
/// the grid where the agent reports a place beyond them.
pub open spec fn located_one<A, T, L: Fn(&A) -> (i64, i64)>(
    agent: A,
    locate: L,
    field: Seq<Seq<T>>,
    cell: (usize, usize),
) -> bool {
    exists|place: (i64, i64)| #[trigger]
        locate.ensures((&agent,), place) && cell.0 == wrap(place.0 as int, 0, grid_width(field))
            && cell.1 == wrap(place.1 as int, 0, grid_height(field))
}

/// `cells` holds for each agent the cell that it occupies.
pub open spec fn located_all<A, T, L: Fn(&A) -> (i64, i64)>(
    agents: Seq<A>,
    locate: L,
    field: Seq<Seq<T>>,
    cells: Seq<(usize, usize)>,
) -> bool {
    &&& cells.len() == agents.len()
    &&& forall|i: int|
        0 <= i < agents.len() ==> located_one(agents[i], locate, field, #[trigger] cells[i])
}

/// `after` is the simulation one time step after `before`: every agent has
/// steered by the field of `before`, then moved; the field has then taken
/// a deposit at each agent's new cell, has been diffused, and has decayed.
/// No agent is gained or lost, and the shape of the field stays.
pub open spec fn stepped<
    A,
    T,
    S: Fn(&A) -> Probes,
    C: Fn(T, T) -> Relation,
    V: Fn(&A, Turn) -> A,
    L: Fn(&A) -> (i64, i64),
    D: Fn(T) -> T,
    F: Fn(T, T, T, T, T) -> T,
    M: Fn(T, T) -> T,
    K: Fn(T) -> T,
>(before: StateView<A, T>, rules: Rules<S, C, V, L, D, F, M, K>, after: StateView<A, T>) -> bool {
    &&& after.population == before.population
    &&& after.agents.len() == before.agents.len()
    &&& same_shape(before.field, after.field)
    &&& exists|turns: Seq<Turn>, cells: Seq<(usize, usize)>|
        #![trigger advanced_all(before.agents, turns, rules.advance, after.agents), located_all(after.agents, rules.locate, before.field, cells)]
        steered_all(before.field, before.agents, rules.sense, rules.compare, turns)
            && advanced_all(before.agents, turns, rules.advance, after.agents) && located_all(
            after.agents,
            rules.locate,
            before.field,
            cells,
        ) && settled(
            before.field,
            cells,
            rules.deposit,
            rules.stencil,
            rules.mix,
            rules.decay,
            after.field,
        )
}

/// A step of a simulation without agents does to the field what the field
/// phases do when nobody deposits.
pub proof fn lemma_step_without_agents<
    A,
    T,
    S: Fn(&A) -> Probes,
    C: Fn(T, T) -> Relation,
    V: Fn(&A, Turn) -> A,
    L: Fn(&A) -> (i64, i64),
    D: Fn(T) -> T,
    F: Fn(T, T, T, T, T) -> T,
    M: Fn(T, T) -> T,
    K: Fn(T) -> T,
>(before: StateView<A, T>, rules: Rules<S, C, V, L, D, F, M, K>, after: StateView<A, T>)
    requires
        before.agents.len() == 0,
        stepped(before, rules, after),
    ensures
        after.agents.len() == 0,
        settled(
            before.field,
            Seq::<(usize, usize)>::empty(),
            rules.deposit,
            rules.stencil,
            rules.mix,
            rules.decay,
            after.field,
        ),
{
    let (turns, cells) = choose|turns: Seq<Turn>, cells: Seq<(usize, usize)>|
        #![trigger advanced_all(before.agents, turns, rules.advance, after.agents), located_all(after.agents, rules.locate, before.field, cells)]
        steered_all(before.field, before.agents, rules.sense, rules.compare, turns)
            && advanced_all(before.agents, turns, rules.advance, after.agents) && located_all(
            after.agents,
            rules.locate,
            before.field,
            cells,
        ) && settled(
            before.field,
            cells,
            rules.deposit,
            rules.stencil,
            rules.mix,
            rules.decay,
            after.field,
        );
}

/// Spawns `count` agents, the one at each index from that index.
fn spawn_all<A, W: Fn(usize) -> A>(count: usize, spawn: &W) -> (agents: Vec<A>)
    requires
        forall|i: usize| spawn.requires((i,)),
    ensures
        spawned(agents@, count as nat, *spawn),
{
    let mut agents: Vec<A> = Vec::with_capacity(count);
    let mut i: usize = 0;
    while i < count
        invariant
            i <= count,
            agents.len() == i,
            forall|k: usize| spawn.requires((k,)),
            forall|k: int| 0 <= k < i ==> spawn.ensures((k as usize,), #[trigger] agents@[k]),
        decreases count - i,
    {
        agents.push(spawn(i));
        i += 1;
    }
    agents
}

impl<A, T: Copy> State<A, T> {
    /// A simulation at its start, or the reason why the parameters do not
    /// allow one. Nothing is spawned where they do not.
    pub fn initialize<W: Fn(usize) -> A>(
        width: i64,
        height: i64,
        agents: i64,
        blank: T,
        spawn: &W,
    ) -> (r: Result<State<A, T>, ConfigError>)
        requires
            forall|i: usize| spawn.requires((i,)),
        ensures
            match config_fault(width as int, height as int, agents as int) {
                Some(fault) => r matches Err(e) && e == fault,
                None => r matches Ok(state) && fresh(
                    state@,
                    width as int,
                    height as int,
                    agents as int,
                    blank,
                    *spawn,
                ),
            },
    {
        match Config::new(width, height, agents) {
            Err(fault) => Err(fault),
            Ok(config) => {
                let field: Field<T> = Field::new(&config, blank);
                let population: usize = config.population();
                let agents: Vec<A> = spawn_all(population, spawn);
                Ok(State { population, agents, field })
            },
        }
    }

    /// A simulation made of the given agents and field. Their number is
    /// the number that a reset goes back to.
    pub fn assemble(agents: Vec<A>, field: Field<T>) -> (state: State<A, T>)
        ensures
            state@.agents == agents@,
            state@.field == field@,
            state@.population == agents@.len(),
    {
        State { population: agents.len(), agents, field }
    }

    /// The agents.
    pub fn agents(&self) -> (agents: &Vec<A>)
        ensures
            agents@ == self@.agents,
    {
        &self.agents
    }

    /// The field.
    pub fn field(&self) -> (field: &Field<T>)
        ensures
            field@ == self@.field,
            is_grid(self@.field),
    {
        // Asking for the width brings the field's shape into view.
        let w: usize = self.field.width();
        &self.field
    }

    /// The number of agents that the simulation starts with.
    pub fn population(&self) -> (n: usize)
        ensures
            n == self@.population,
    {
        self.population
    }

    /// Starts over: puts `blank` into every cell of the field and replaces
    /// the agents by as many freshly spawned ones as the simulation
    /// started with.
    pub fn reset<W: Fn(usize) -> A>(&mut self, blank: T, spawn: &W)
        requires
            forall|i: usize| spawn.requires((i,)),
        ensures
            fresh(
                final(self)@,
                grid_width(old(self)@.field),
                grid_height(old(self)@.field),
                old(self)@.population as int,
                blank,
                *spawn,
            ),
    {
        self.field.reset(blank);
        self.agents = spawn_all(self.population, spawn);
    }

    /// One time step. The phases always run, and always in this order:
    /// every agent steers by the field as it stands; every agent moves;
    /// every agent deposits into the cell it occupies; the field is
    /// diffused; the field decays.
    pub fn step<
        S: Fn(&A) -> Probes,
        C: Fn(T, T) -> Relation,
        V: Fn(&A, Turn) -> A,
        L: Fn(&A) -> (i64, i64),
        D: Fn(T) -> T,
        F: Fn(T, T, T, T, T) -> T,
        M: Fn(T, T) -> T,
        K: Fn(T) -> T,
    >(&mut self, rules: &Rules<S, C, V, L, D, F, M, K>)
        requires
            forall|a: &A| rules.sense.requires((a,)),
            forall|a: T, b: T| rules.compare.requires((a, b)),
            forall|a: &A, t: Turn| rules.advance.requires((a, t)),
            forall|a: &A| rules.locate.requires((a,)),
            forall|v: T| rules.deposit.requires((v,)),
            forall|c: T, xb: T, yb: T, xa: T, ya: T| rules.stencil.requires((c, xb, yb, xa, ya)),
            forall|a: T, b: T| rules.mix.requires((a, b)),
            forall|v: T| rules.decay.requires((v,)),
        ensures
            stepped(old(self)@, *rules, final(self)@),
    {
        let n: usize = self.agents.len();
        let w: usize = self.field.width();
        let h: usize = self.field.height();
        let ghost before = self@;

        let mut probes: Vec<Probes> = Vec::with_capacity(n);
        let mut i: usize = 0;
        while i < n
            invariant
                self@ == before,
                n == self.agents.len(),
                i <= n,
                probes.len() == i,
                forall|a: &A| rules.sense.requires((a,)),
                forall|k: int|
                    0 <= k < i ==> rules.sense.ensures((&before.agents[k],), #[trigger] probes@[k]),
            decreases n - i,
        {
            probes.push((rules.sense)(&self.agents[i]));
            i += 1;
        }
        let turns: Vec<Turn> = self.field.steer_all(&probes, &rules.compare);
        proof {
            assert forall|k: int| 0 <= k < n implies steered_one(
                before.field,
                before.agents[k],
                rules.sense,
                rules.compare,
                #[trigger] turns@[k],
            ) by {}
        }

        let mut i: usize = 0;
        while i < n
            invariant
                self@.field == before.field,
                self@.population == before.population,
                n == self.agents.len(),
                n == before.agents.len(),
                turns.len() == n,
                i <= n,
                forall|a: &A, t: Turn| rules.advance.requires((a, t)),
                forall|k: int|
                    0 <= k < i ==> rules.advance.ensures(
                        (&before.agents[k], turns@[k]),
                        #[trigger] self.agents@[k],
                    ),
                forall|k: int| i <= k < n ==> self.agents@[k] == before.agents[k],
            decreases n - i,
        {
            let moved: A = (rules.advance)(&self.agents[i], turns[i]);
            self.agents[i] = moved;
            i += 1;
        }

        let mut cells: Vec<(usize, usize)> = Vec::with_capacity(n);
        let mut i: usize = 0;
        while i < n
            invariant
                n == self.agents.len(),
                w == grid_width(before.field),
                h == grid_height(before.field),
                0 < w <= i64::MAX,
                0 < h <= i64::MAX,
                i <= n,
                cells.len() == i,
                forall|a: &A| rules.locate.requires((a,)),
                forall|k: int|
                    0 <= k < i ==> inside(
                        before.field,
                        (#[trigger] cells@[k]).0 as int,
                        cells@[k].1 as int,
                    ),
                forall|k: int|
                    0 <= k < i ==> located_one(
                        self.agents@[k],
                        rules.locate,
                        before.field,
                        #[trigger] cells@[k],
                    ),
            decreases n - i,
        {
            let place: (i64, i64) = (rules.locate)(&self.agents[i]);
            let cx: i64 = loop_coord(place.0, 0, w as i64);
            let cy: i64 = loop_coord(place.1, 0, h as i64);
            proof {
                assert(located_one(
                    self.agents@[i as int],
                    rules.locate,
                    before.field,
                    (cx as usize, cy as usize),
                ));
            }
            cells.push((cx as usize, cy as usize));
            i += 1;
        }

        self.field.settle(&cells, &rules.deposit, &rules.stencil, &rules.mix, &rules.decay);
        proof {
            assert(advanced_all(before.agents, turns@, rules.advance, self@.agents));
            assert(located_all(self@.agents, rules.locate, before.field, cells@));
            assert(settled(
                before.field,
                cells@,
                rules.deposit,
                rules.stencil,
                rules.mix,
                rules.decay,
                self@.field,
            ));
        }
    }
}

} // verus!
