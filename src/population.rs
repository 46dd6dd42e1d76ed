//! The generational controller: per-tick bookkeeping of fitness and crashes,
//! the end-of-generation rule, ranking by fitness and parent selection.

use vstd::prelude::*;
use crate::mutation::{draw_mutations, Mutation};
use crate::network::{crossover_of, cuts_in_range, lemma_crossover_keeps_shape, Network};

verus! {

/// Ticks in one generation, at most.
pub const GENERATION_TIME: u32 = 1000;

/// Why a population could not be made.
#[derive(Clone, Copy, Debug, PartialEq, Eq, Structural)]
pub enum PopulationError {
    /// Fewer than the two vehicles that reproduction takes as parents.
    TooSmall,
}

/// `order` lists every index of `fitness` once, fittest first; vehicles of equal
/// fitness keep their relative order.
pub open spec fn ranked(fitness: Seq<u64>, order: Seq<usize>) -> bool {
    &&& order.len() == fitness.len()
    &&& order.no_duplicates()
    &&& forall|k: int| 0 <= k < order.len() ==> (#[trigger] order[k] as int) < fitness.len()
    &&& forall|j: int| 0 <= j < fitness.len() ==> #[trigger] order.contains(j as usize)
    &&& forall|a: int, b: int| 0 <= a < b < order.len()
        ==> fitness[#[trigger] order[a] as int] >= fitness[#[trigger] order[b] as int]
    &&& forall|a: int, b: int| 0 <= a < b < order.len()
        && fitness[#[trigger] order[a] as int] == fitness[#[trigger] order[b] as int] ==> order[a] < order[b]
}

/// The indices of `fitness`, sorted by fitness from highest to lowest, ties in
/// index order.
pub fn rank_by_fitness(fitness: &Vec<u64>) -> (order: Vec<usize>)
    ensures
        ranked(fitness@, order@),
{
    let mut order: Vec<usize> = Vec::new();
    let mut i: usize = 0;
    while i < fitness.len()
        invariant
            i <= fitness@.len(),
            order@.len() == i,
            order@.no_duplicates(),
            forall|k: int| 0 <= k < order@.len() ==> (#[trigger] order@[k] as int) < i,
            forall|j: int| 0 <= j < i ==> #[trigger] order@.contains(j as usize),
            forall|a: int, b: int| 0 <= a < b < order@.len()
                ==> fitness@[#[trigger] order@[a] as int] >= fitness@[#[trigger] order@[b] as int],
            forall|a: int, b: int| 0 <= a < b < order@.len()
                && fitness@[#[trigger] order@[a] as int] == fitness@[#[trigger] order@[b] as int] ==> order@[a] < order@[b],
        decreases fitness@.len() - i,
    {
        let key = fitness[i];
        let mut pos: usize = 0;
        while pos < order.len() && fitness[order[pos]] >= key
            invariant
                i < fitness@.len(),
                key == fitness@[i as int],
                pos <= order@.len(),
                forall|k: int| 0 <= k < order@.len() ==> (#[trigger] order@[k] as int) < i,
                forall|k: int| 0 <= k < pos ==> fitness@[#[trigger] order@[k] as int] >= key,
            decreases order@.len() - pos,
        {
            pos = pos + 1;
        }
        let ghost before = order@;
        order.insert(pos, i);
        proof {
            let after = order@;
            assert(after == before.insert(pos as int, i));
            assert forall|k: int| 0 <= k < after.len() implies
                (#[trigger] after[k] as int) < i + 1 && (k != pos ==> after[k] < i) by {
                if k < pos {
                    assert(after[k] == before[k]);
                } else if k > pos {
                    assert(after[k] == before[k - 1]);
                }
            }
            // Entries after `pos` are strictly less fit than the new one.
            assert forall|k: int| pos <= k < before.len() implies fitness@[#[trigger] before[k] as int] < key by {
                if k > pos {
                    assert(fitness@[before[pos as int] as int] >= fitness@[before[k] as int]);
                }
            }
            assert forall|a: int, b: int| 0 <= a < b < after.len() && a != b implies after[a] != after[b] by {
                if a != pos && b != pos {
                    let a0 = if a < pos { a } else { a - 1 };
                    let b0 = if b < pos { b } else { b - 1 };
                    assert(after[a] == before[a0] && after[b] == before[b0]);
                }
            }
            assert(after.no_duplicates());
            assert forall|j: int| 0 <= j < i + 1 implies #[trigger] after.contains(j as usize) by {
                if j == i {
                    assert(after[pos as int] == i);
                } else {
                    assert(before.contains(j as usize));
                    let w = choose|w: int| 0 <= w < before.len() && before[w] == j as usize;
                    if w < pos {
                        assert(after[w] == before[w]);
                    } else {
                        assert(after[w + 1] == before[w]);
                    }
                }
            }
            assert forall|a: int, b: int| 0 <= a < b < after.len() implies
                fitness@[#[trigger] after[a] as int] >= fitness@[#[trigger] after[b] as int]
                && (fitness@[after[a] as int] == fitness@[after[b] as int] ==> after[a] < after[b]) by {
                let a0 = if a < pos { a } else { a - 1 };
                let b0 = if b < pos { b } else { b - 1 };
                if a == pos {
                    assert(after[b] == before[b0]);
                } else if b == pos {
                    assert(after[a] == before[a0]);
                } else {
                    assert(after[a] == before[a0] && after[b] == before[b0]);
                }
            }
        }
        i = i + 1;
    }
    order
}

/// The ranking is determined by the fitness values alone: two orders that both
/// rank the same fitness values are the same order. So the parents and the best
/// fitness that end a generation follow from its fitness values.
pub proof fn lemma_ranking_unique(fitness: Seq<u64>, first: Seq<usize>, second: Seq<usize>)
    requires
        ranked(fitness, first),
        ranked(fitness, second),
    ensures
        first == second,
{
    lemma_ranking_prefix(fitness, first, second, first.len() as int);
    assert(first =~= second);
}

/// Two rankings of the same fitness values agree on their first `k` entries.
proof fn lemma_ranking_prefix(fitness: Seq<u64>, first: Seq<usize>, second: Seq<usize>, k: int)
    requires
        ranked(fitness, first),
        ranked(fitness, second),
        0 <= k <= first.len(),
    ensures
        forall|m: int| 0 <= m < k ==> first[m] == second[m],
    decreases k,
{
    if k > 0 {
        let i = k - 1;
        lemma_ranking_prefix(fitness, first, second, i);
        let (x, y) = (first[i], second[i]);
        if x != y {
            assert(first.contains(y as int as usize));
            let m = choose|m: int| 0 <= m < first.len() && first[m] == y;
            if m < i {
                assert(second[m] == y);
            }
            assert(second.contains(x as int as usize));
            let n = choose|n: int| 0 <= n < second.len() && second[n] == x;
            if n < i {
                assert(first[n] == x);
            }
            assert(fitness[first[i] as int] >= fitness[first[m] as int]);
            assert(fitness[second[i] as int] >= fitness[second[n] as int]);
        }
    }
}

/// The decimal digits of `n`, most significant first, without leading zeros.
pub open spec fn decimal(n: nat) -> Seq<u8>
    decreases n,
{
    if n < 10 {
        seq![(48 + n) as u8]
    } else {
        decimal(n / 10).push((48 + n % 10) as u8)
    }
}

/// Appends the decimal digits of `n` to `out`.
fn push_decimal(out: &mut Vec<u8>, n: u64)
    ensures
        final(out)@ == old(out)@ + decimal(n as nat),
    decreases n,
{
    if n >= 10 {
        push_decimal(out, n / 10);
    }
    let digit: u8 = (n % 10) as u8;
    out.push(48u8 + digit);
    proof {
        if n >= 10 {
            assert(final(out)@ =~= old(out)@ + decimal(n as nat));
        } else {
            assert(final(out)@ =~= old(out)@ + decimal(n as nat));
        }
    }
}

/// The fitness log's line for one generation: `generation,best_fitness` and a
/// line feed.
pub open spec fn log_line(generation: nat, best_fitness: nat) -> Seq<u8> {
    decimal(generation) + seq![44u8] + decimal(best_fitness) + seq![10u8]
}

/// What the end of a generation decided.
pub struct Regeneration {
    /// Index of the generation that ended.
    pub generation: u64,
    /// Highest fitness reached in it.
    pub best_fitness: u64,
    /// The vehicles by fitness, fittest first (see `ranked`).
    pub ranking: Vec<usize>,
    /// The two parents of every vehicle of the next generation.
    pub first_parent: usize,
    pub second_parent: usize,
}

impl Regeneration {
    /// The record that this generation appends to the fitness log.
    pub fn log_record(&self) -> (line: Vec<u8>)
        ensures
            line@ == log_line(self.generation as nat, self.best_fitness as nat),
    {
        let mut line: Vec<u8> = Vec::new();
        push_decimal(&mut line, self.generation);
        line.push(44u8);
        push_decimal(&mut line, self.best_fitness);
        line.push(10u8);
        assert(line@ =~= log_line(self.generation as nat, self.best_fitness as nat));
        line
    }
}

/// The controller's state, as plain values.
pub struct PopulationView {
    pub generation: nat,
    pub timer: nat,
    pub fitness: Seq<u64>,
    pub crashed: Seq<bool>,
}

/// Generation and tick counters, and each vehicle's fitness and crash flag.
/// Vehicle `i` of the caller's fleet is entry `i` here.
pub struct Population {
    generation: u64,
    timer: u32,
    fitness: Vec<u64>,
    crashed: Vec<bool>,
}

impl View for Population {
    type V = PopulationView;

    closed spec fn view(&self) -> PopulationView {
        PopulationView {
            generation: self.generation as nat,
            timer: self.timer as nat,
            fitness: self.fitness@,
            crashed: self.crashed@,
        }
    }
}

/// Every vehicle has crashed.
pub open spec fn all_crashed(crashed: Seq<bool>) -> bool {
    forall|i: int| 0 <= i < crashed.len() ==> #[trigger] crashed[i]
}

impl Population {
    /// At least two vehicles, one flag per fitness entry, and no vehicle has
    /// gathered more fitness than there were ticks.
    pub open spec fn wf(&self) -> bool {
        &&& self@.fitness.len() == self@.crashed.len()
        &&& self@.fitness.len() >= 2
        &&& self@.timer <= GENERATION_TIME
        &&& forall|i: int| 0 <= i < self@.fitness.len() ==> #[trigger] self@.fitness[i] <= self@.timer
    }

    /// The generation ends when its tick budget is spent or when every vehicle
    /// has crashed.
    pub open spec fn over(&self) -> bool {
        ended(self@)
    }

    /// Generation 0 of `size` vehicles, none crashed, all without fitness.
    pub fn new(size: usize) -> (r: Result<Population, PopulationError>)
        ensures
            size < 2 <==> r == Err::<Population, PopulationError>(PopulationError::TooSmall),
            r matches Ok(p) ==> {
                &&& p.wf()
                &&& p@.generation == 0
                &&& p@.timer == 0
                &&& p@.fitness == Seq::new(size as nat, |i: int| 0u64)
                &&& p@.crashed == Seq::new(size as nat, |i: int| false)
            },
    {
        if size < 2 {
            return Err(PopulationError::TooSmall);
        }
        let (fitness, crashed) = fresh_entries(size);
        Ok(Population { generation: 0, timer: 0, fitness, crashed })
    }

    /// Number of vehicles.
    pub fn size(&self) -> (n: usize)
        ensures
            n == self@.fitness.len(),
    {
        self.fitness.len()
    }

    /// Index of the current generation.
    pub fn generation(&self) -> (g: u64)
        ensures
            g == self@.generation,
    {
        self.generation
    }

    /// Ticks spent in the current generation.
    pub fn timer(&self) -> (t: u32)
        ensures
            t == self@.timer,
    {
        self.timer
    }

    /// Fitness of vehicle `i`.
    pub fn fitness(&self, i: usize) -> (f: u64)
        requires
            i < self@.fitness.len(),
        ensures
            f == self@.fitness[i as int],
    {
        self.fitness[i]
    }

    /// Whether vehicle `i` has crashed.
    pub fn is_crashed(&self, i: usize) -> (c: bool)
        requires
            i < self@.crashed.len(),
        ensures
            c == self@.crashed[i as int],
    {
        self.crashed[i]
    }

    /// Whether every vehicle has crashed.
    pub fn all_cars_crashed(&self) -> (r: bool)
        ensures
            r == all_crashed(self@.crashed),
    {
        let mut i: usize = 0;
        while i < self.crashed.len()
            invariant
                i <= self.crashed@.len(),
                forall|k: int| 0 <= k < i ==> #[trigger] self.crashed@[k],
            decreases self.crashed@.len() - i,
        {
            if !self.crashed[i] {
                return false;
            }
            i = i + 1;
        }
        true
    }

    /// Whether the current generation has ended (see `over`).
    pub fn generation_over(&self) -> (r: bool)
        ensures
            r == self.over(),
    {
        self.timer >= GENERATION_TIME || self.all_cars_crashed()
    }

    /// What the end of the current generation decides (see `regenerated`),
    /// without ending it.
    pub fn regeneration(&self) -> (r: Regeneration)
        requires
            self.wf(),
        ensures
            regenerated(self@.fitness, self@.generation, r),
    {
        let size = self.fitness.len();
        let ranking = rank_by_fitness(&self.fitness);
        let first_parent = ranking[0];
        let second_parent = ranking[1];
        let best_fitness = self.fitness[first_parent];
        proof {
            assert forall|i: int| 0 <= i < size implies best_fitness >= #[trigger] self.fitness@[i] by {
                assert(ranking@.contains(i as usize));
                let w = choose|w: int| 0 <= w < ranking@.len() && ranking@[w] == i as usize;
                if w > 0 {
                    assert(self.fitness@[ranking@[0] as int] >= self.fitness@[ranking@[w] as int]);
                }
            }
        }
        Regeneration { generation: self.generation, best_fitness, ranking, first_parent, second_parent }
    }

    /// One tick of the controller. If the current generation is over (tick
    /// budget spent, or every vehicle crashed), it first ends it: the vehicles
    /// are ranked, the two fittest become the parents of the next generation,
    /// and that generation starts with every vehicle new. Then `on_track[i]`,
    /// whether vehicle `i` is on the track after its move, is recorded: a
    /// vehicle still running gains one point of fitness if it is and crashes if
    /// it is not; a crashed vehicle stays as it was. Returns what the end of
    /// the generation decided, if it ended.
    pub fn update(&mut self, on_track: &Vec<bool>) -> (r: Option<Regeneration>)
        requires
            old(self).wf(),
            old(self)@.generation < u64::MAX,
            on_track@.len() == old(self)@.fitness.len(),
        ensures
            final(self).wf(),
            final(self)@ == next_state(old(self)@, on_track@),
            ended(old(self)@) <==> r is Some,
            r matches Some(g) ==> regenerated(old(self)@.fitness, old(self)@.generation, g),
    {
        let r = if self.generation_over() {
            let g = self.regeneration();
            let (fitness, crashed) = fresh_entries(self.fitness.len());
            self.fitness = fitness;
            self.crashed = crashed;
            self.timer = 0;
            self.generation = self.generation + 1;
            assert(self@ == restarted(old(self)@));
            Some(g)
        } else {
            None
        };
        self.tick(on_track);
        r
    }

    /// Records one tick, as `ticked` says.
    fn tick(&mut self, on_track: &Vec<bool>)
        requires
            old(self).wf(),
            old(self)@.timer < GENERATION_TIME,
            on_track@.len() == old(self)@.fitness.len(),
        ensures
            final(self).wf(),
            final(self)@ == ticked(old(self)@, on_track@),
    {
        let ghost start = self@;
        let mut i: usize = 0;
        while i < self.fitness.len()
            invariant
                start.fitness.len() == start.crashed.len(),
                start.timer < GENERATION_TIME,
                self.timer == start.timer,
                self.generation == start.generation,
                on_track@.len() == start.fitness.len(),
                self.fitness@.len() == start.fitness.len(),
                self.crashed@.len() == start.crashed.len(),
                i <= self.fitness@.len(),
                forall|k: int| 0 <= k < start.fitness.len() ==> #[trigger] start.fitness[k] <= start.timer,
                forall|k: int| i <= k < self.fitness@.len() ==> #[trigger] self.fitness@[k] == start.fitness[k],
                forall|k: int| i <= k < self.crashed@.len() ==> #[trigger] self.crashed@[k] == start.crashed[k],
                forall|k: int| 0 <= k < i ==> #[trigger] self.crashed@[k] == (start.crashed[k] || !on_track@[k]),
                forall|k: int| 0 <= k < i ==> #[trigger] self.fitness@[k] == ticked_fitness(start, on_track@, k),
            decreases self.fitness@.len() - i,
        {
            if !self.crashed[i] {
                if on_track[i] {
                    let f = self.fitness[i];
                    assert(start.fitness[i as int] <= start.timer);
                    self.fitness.set(i, f + 1);
                } else {
                    self.crashed.set(i, true);
                }
            }
            i = i + 1;
        }
        self.timer = self.timer + 1;
        assert forall|k: int| 0 <= k < self@.fitness.len() implies #[trigger] self@.fitness[k] <= self@.timer by {
            assert(start.fitness[k] <= start.timer);
            assert(self.fitness@[k] == ticked_fitness(start, on_track@, k));
        }
        assert(self@.fitness =~= ticked(start, on_track@).fitness);
        assert(self@.crashed =~= ticked(start, on_track@).crashed);
    }
}

/// The generation ends when its tick budget is spent or when every vehicle has
/// crashed.
pub open spec fn ended(v: PopulationView) -> bool {
    v.timer >= GENERATION_TIME || all_crashed(v.crashed)
}

/// Fitness of vehicle `k` after a tick with the on-track flags `on_track`.
pub open spec fn ticked_fitness(v: PopulationView, on_track: Seq<bool>, k: int) -> u64 {
    if !v.crashed[k] && on_track[k] { (v.fitness[k] + 1) as u64 } else { v.fitness[k] }
}

/// The state after one tick within a generation: running vehicles on the track
/// gain a point, running vehicles off it crash, and the tick counter advances.
pub open spec fn ticked(v: PopulationView, on_track: Seq<bool>) -> PopulationView {
    PopulationView {
        generation: v.generation,
        timer: v.timer + 1,
        fitness: Seq::new(v.fitness.len(), |k: int| ticked_fitness(v, on_track, k)),
        crashed: Seq::new(v.crashed.len(), |k: int| v.crashed[k] || !on_track[k]),
    }
}

/// The first state of the next generation: every vehicle new, no ticks spent.
pub open spec fn restarted(v: PopulationView) -> PopulationView {
    PopulationView {
        generation: v.generation + 1,
        timer: 0,
        fitness: Seq::new(v.fitness.len(), |k: int| 0u64),
        crashed: Seq::new(v.fitness.len(), |k: int| false),
    }
}

/// The state after `Population::update`: a generation that is over is
/// restarted first, then the tick is recorded.
pub open spec fn next_state(v: PopulationView, on_track: Seq<bool>) -> PopulationView {
    if ended(v) { ticked(restarted(v), on_track) } else { ticked(v, on_track) }
}

/// `r` is what ending a generation with index `generation` and the given
/// fitness values decides: the vehicles ranked (see `ranked`), the first two of
/// the ranking as parents, and the highest fitness.
pub open spec fn regenerated(fitness: Seq<u64>, generation: nat, r: Regeneration) -> bool {
    &&& ranked(fitness, r.ranking@)
    &&& r.first_parent == r.ranking@[0]
    &&& r.second_parent == r.ranking@[1]
    &&& r.generation == generation
    &&& r.best_fitness == fitness[r.first_parent as int]
    &&& forall|i: int| 0 <= i < fitness.len() ==> r.best_fitness >= #[trigger] fitness[i]
}

/// Ending a generation is deterministic: two records that both follow from the
/// same fitness values and generation index agree on the ranking, the parents,
/// the generation and the best fitness. With `update`'s next state a function
/// of the state and the on-track flags, two runs from the same state with the
/// same flags log the same records.
pub proof fn lemma_regeneration_unique(fitness: Seq<u64>, generation: nat, a: Regeneration, b: Regeneration)
    requires
        regenerated(fitness, generation, a),
        regenerated(fitness, generation, b),
    ensures
        a.ranking@ == b.ranking@,
        a.first_parent == b.first_parent,
        a.second_parent == b.second_parent,
        a.generation == b.generation,
        a.best_fitness == b.best_fitness,
{
    lemma_ranking_unique(fitness, a.ranking@, b.ranking@);
}

/// `size` fitness entries at zero and `size` crash flags cleared.
fn fresh_entries(size: usize) -> (r: (Vec<u64>, Vec<bool>))
    ensures
        r.0@ == Seq::new(size as nat, |i: int| 0u64),
        r.1@ == Seq::new(size as nat, |i: int| false),
{
    let mut fitness: Vec<u64> = Vec::new();
    let mut crashed: Vec<bool> = Vec::new();
    let mut i: usize = 0;
    while i < size
        invariant
            i <= size,
            fitness@ == Seq::new(i as nat, |k: int| 0u64),
            crashed@ == Seq::new(i as nat, |k: int| false),
        decreases size - i,
    {
        fitness.push(0);
        crashed.push(false);
        i = i + 1;
        assert(fitness@ =~= Seq::new(i as nat, |k: int| 0u64));
        assert(crashed@ =~= Seq::new(i as nat, |k: int| false));
    }
    (fitness, crashed)
}

/// A child network and the mutations to apply to it: entry `[i][j]` of each
/// plan is for weight (or bias) `j` of layer `i`.
pub struct Offspring<W> {
    pub brain: Network<W>,
    pub weight_mutations: Vec<Vec<Mutation>>,
    pub bias_mutations: Vec<Vec<Mutation>>,
}

/// `child` comes from `first` and `second`: its network is their crossover at
/// cut points within range, and it has one mutation decision per parameter.
pub open spec fn offspring_of<W>(first: &Network<W>, second: &Network<W>, child: &Offspring<W>) -> bool {
    &&& exists|cuts: Seq<(usize, usize)>| cuts_in_range(first, cuts) && crossover_of(first, second, cuts, &child.brain)
    &&& child.weight_mutations@.len() == first.layers@.len()
    &&& child.bias_mutations@.len() == first.layers@.len()
    &&& forall|i: int| 0 <= i < first.layers@.len() ==> {
        &&& (#[trigger] child.weight_mutations@[i])@.len() == first.layers@[i].weights@.len()
        &&& child.bias_mutations@[i]@.len() == first.layers@[i].bias@.len()
    }
}

/// A child of two parent networks of the same shape: single-point crossover in
/// every layer, then a mutation decision drawn for every parameter. The parents
/// are read, never changed.
pub fn reproduce<W: Copy>(first: &Network<W>, second: &Network<W>) -> (child: Offspring<W>)
    requires
        first.wf(),
        first.drawable(),
        first.same_shape(second),
    ensures
        offspring_of(first, second, &child),
{
    let brain = first.breed(second);
    let mut weight_mutations: Vec<Vec<Mutation>> = Vec::new();
    let mut bias_mutations: Vec<Vec<Mutation>> = Vec::new();
    let mut i: usize = 0;
    while i < first.layers.len()
        invariant
            i <= first.layers@.len(),
            weight_mutations@.len() == i,
            bias_mutations@.len() == i,
            forall|k: int| 0 <= k < i ==> {
                &&& (#[trigger] weight_mutations@[k])@.len() == first.layers@[k].weights@.len()
                &&& bias_mutations@[k]@.len() == first.layers@[k].bias@.len()
            },
        decreases first.layers@.len() - i,
    {
        weight_mutations.push(draw_mutations(first.layers[i].weights.len()));
        bias_mutations.push(draw_mutations(first.layers[i].bias.len()));
        i = i + 1;
    }
    Offspring { brain, weight_mutations, bias_mutations }
}

/// The whole next generation: `size` children of the same two parents, each
/// crossed and mutated on draws of its own.
pub fn next_generation<W: Copy>(first: &Network<W>, second: &Network<W>, size: usize) -> (children: Vec<Offspring<W>>)
    requires
        first.wf(),
        first.drawable(),
        first.same_shape(second),
    ensures
        children@.len() == size,
        forall|i: int| 0 <= i < size ==> offspring_of(first, second, #[trigger] &children@[i]),
{
    let mut children: Vec<Offspring<W>> = Vec::new();
    let mut i: usize = 0;
    while i < size
        invariant
            first.wf(),
            first.drawable(),
            first.same_shape(second),
            i <= size,
            children@.len() == i,
            forall|k: int| 0 <= k < i ==> offspring_of(first, second, #[trigger] &children@[k]),
        decreases size - i,
    {
        children.push(reproduce(first, second));
        i = i + 1;
    }
    children
}

/// Reproduction keeps the shape: whatever cut points were drawn, the child's
/// network has the parents' layers, sizes, activations and parameter counts,
/// and is well formed when the parents are.
pub proof fn lemma_offspring_keeps_shape<W>(first: &Network<W>, second: &Network<W>, child: &Offspring<W>)
    requires
        first.same_shape(second),
        offspring_of(first, second, child),
    ensures
        child.brain.same_shape(first),
        child.brain.same_shape(second),
        first.wf() ==> child.brain.wf(),
{
    let cuts = choose|cuts: Seq<(usize, usize)>| cuts_in_range(first, cuts) && crossover_of(first, second, cuts, &child.brain);
    lemma_crossover_keeps_shape(first, second, cuts, &child.brain);
}

} // verus!
