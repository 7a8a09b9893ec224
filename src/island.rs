use crate::character::{offspring, stat_points, virtues_valid, Character};
use crate::combat::{can_fight, Combat};
use crate::dies::Dice;
use vstd::prelude::*;

verus! {

/// The fights each pairing of combatants runs when fitness is measured.
pub const NB_FIGHTS: u64 = 100;

/// A combatant the optimizer can fight and mutate.
pub open spec fn fit_member(c: Character) -> bool {
    &&& c.wf()
    &&& virtues_valid(c.virtues@)
    &&& c.base_stats.in_range()
    &&& c.base_stats.total_cost() <= stat_points(c.virtues@)
    &&& c.default_size == 0
}

/// A row of fight results against `n` members: wins against each, at most
/// `NB_FIGHTS` apiece.
pub open spec fn row_ok(row: Seq<u64>, n: int) -> bool {
    row.len() == n && forall|k: int| 0 <= k < n ==> #[trigger] row[k] <= NB_FIGHTS
}

/// The wins in `row` over its first `n` entries, leaving out position `skip`.
pub open spec fn wins_of(row: Seq<u64>, skip: int, n: int) -> int
    decreases n,
{
    if n <= 0 {
        0
    } else {
        wins_of(row, skip, n - 1) + if n - 1 == skip {
            0
        } else {
            row[n - 1] as int
        }
    }
}

/// With `results` the fight results of `n` members (row `i` holds the wins
/// of member `i` against each member), the member at `best` has the largest
/// fitness, the first among equals, and that fitness is `wins`.
pub open spec fn selected(results: Seq<Seq<u64>>, n: int, best: int, wins: int) -> bool {
    &&& results.len() == n
    &&& forall|i: int| 0 <= i < n ==> #[trigger] row_ok(results[i], n)
    &&& 0 <= best < n
    &&& forall|j: int| 0 <= j < n ==> wins_of(#[trigger] results[j], j, n) <= wins_of(results[best], best, n)
    &&& forall|j: int| 0 <= j < best ==> wins_of(#[trigger] results[j], j, n) < wins_of(results[best], best, n)
    &&& wins == wins_of(results[best], best, n)
}

/// The outcome of one generation of `n` members, for some fight results.
pub open spec fn generation_result(n: int, best: int, wins: int) -> bool {
    exists|results: Seq<Seq<u64>>| #[trigger] selected(results, n, best, wins)
}

/// `child` is a mutation of `parent` for some position.
pub open spec fn descends(child: Character, parent: Character) -> bool {
    exists|k: usize| offspring(child, parent, k)
}

/// The record of one generation: its best combatant, the fights that
/// combatant won and the fights it ran; its fitness is `wins / fights`.
pub struct Generation {
    pub best: Character,
    pub wins: u64,
    pub fights: u64,
}

/// A population evolved by truncation selection: each generation is replaced
/// by mutations of the previous generation's best combatant.
pub struct Island {
    pub name: String,
    pub mutation: u32,
    pub lambda: usize,
    pub population: Vec<Character>,
}

proof fn lemma_wins_bounded(row: Seq<u64>, skip: int, n: int)
    requires
        0 <= skip < n,
        row_ok(row, n),
    ensures
        0 <= wins_of(row, skip, n) <= NB_FIGHTS * (n - 1),
{
    lemma_wins_prefix(row, skip, n, n);
}

proof fn lemma_wins_prefix(row: Seq<u64>, skip: int, n: int, j: int)
    requires
        0 <= skip < n,
        0 <= j <= n,
        row_ok(row, n),
    ensures
        0 <= wins_of(row, skip, j) <= NB_FIGHTS * (j - if j > skip {
            1int
        } else {
            0int
        }),
    decreases j,
{
    if j > 0 {
        lemma_wins_prefix(row, skip, n, j - 1);
    }
}

impl Island {
    /// The population has its fixed size, and every member can fight and be
    /// mutated.
    pub open spec fn wf(&self) -> bool {
        &&& self.mutation <= 100
        &&& self.population@.len() == self.lambda
        &&& self.lambda * NB_FIGHTS <= u64::MAX
        &&& forall|k: int| 0 <= k < self.population@.len() ==> fit_member(#[trigger] self.population@[k])
    }

    /// The fixed size of the population.
    pub open spec fn size(&self) -> nat {
        self.lambda as nat
    }

    /// An island of `lambda` random combatants named after their positions.
    pub fn new(name: String, lambda: usize, mutation: u32, dice: &mut Dice) -> (r: Self)
        requires
            mutation <= 100,
            lambda * NB_FIGHTS <= u64::MAX,
        ensures
            r.wf(),
            r.name == name,
            r.mutation == mutation,
            r.size() == lambda,
            forall|k: int|
                0 <= k < lambda ==> vstd::string::to_string_from_display_ensures::<usize>(
                    &(k as usize),
                    #[trigger] r.population@[k].name,
                ),
    {
        let mut population: Vec<Character> = Vec::new();
        let mut i: usize = 0;
        while i < lambda
            invariant
                i <= lambda,
                population@.len() == i,
                forall|k: int| 0 <= k < population@.len() ==> fit_member(#[trigger] population@[k]),
                forall|k: int|
                    0 <= k < population@.len() ==> vstd::string::to_string_from_display_ensures::<usize>(
                        &(k as usize),
                        #[trigger] population@[k].name,
                    ),
            decreases lambda - i,
        {
            let c = Character::randomize(i.to_string(), dice);
            population.push(c);
            i = i + 1;
        }
        Island { name, mutation, lambda, population }
    }

    /// Runs `nb_run` generations. Each one measures every combatant's
    /// fitness against all the others, keeps the fittest (the first of
    /// equals), and replaces the population with mutations of it, named by
    /// position.
    pub fn run(&mut self, nb_run: u32, dice: &mut Dice) -> (r: Vec<Generation>)
        requires
            old(self).wf(),
            old(self).size() > 0,
        ensures
            final(self).wf(),
            final(self).size() == old(self).size(),
            final(self).name == old(self).name,
            final(self).mutation == old(self).mutation,
            r@.len() == nb_run,
            forall|g: int|
                0 <= g < r@.len() ==> {
                    let gen = #[trigger] r@[g];
                    &&& fit_member(gen.best)
                    &&& gen.fights == NB_FIGHTS * (old(self).size() - 1)
                    &&& gen.wins <= gen.fights
                },
            forall|g: int|
                0 < g < r@.len() ==> descends(#[trigger] r@[g].best, r@[g - 1].best),
            nb_run > 0 ==> forall|k: int|
                0 <= k < final(self).population@.len() ==> offspring(
                    #[trigger] final(self).population@[k],
                    r@[nb_run - 1].best,
                    k as usize,
                ),
            nb_run == 0 ==> final(self).population == old(self).population,
    {
        let mut history: Vec<Generation> = Vec::new();
        let mut generation: u64 = 0;
        while generation < nb_run as u64
            invariant
                self.wf(),
                self.lambda == old(self).lambda,
                self.name == old(self).name,
                self.mutation == old(self).mutation,
                self.lambda > 0,
                generation <= nb_run,
                history@.len() == generation,
                generation == 0 ==> self.population == old(self).population,
                forall|g: int|
                    0 <= g < history@.len() ==> {
                        let gen = #[trigger] history@[g];
                        &&& fit_member(gen.best)
                        &&& gen.fights == NB_FIGHTS * (self.lambda - 1)
                        &&& gen.wins <= gen.fights
                    },
                forall|g: int|
                    0 < g < history@.len() ==> descends(#[trigger] history@[g].best, history@[g - 1].best),
                generation > 0 ==> forall|k: int|
                    0 <= k < self.population@.len() ==> offspring(
                        #[trigger] self.population@[k],
                        history@[generation - 1].best,
                        k as usize,
                    ),
            decreases nb_run - generation,
        {
            let (best_index, wins) = Self::do_1_generation(&self.population, dice);
            proof {
                let results = choose|results: Seq<Seq<u64>>| selected(results, self.lambda as int, best_index as int, wins as int);
                lemma_wins_bounded(results[best_index as int], best_index as int, self.lambda as int);
            }
            let ghost previous = self.population@;
            let best = self.population.remove(best_index);
            assert(best == previous[best_index as int]);
            assert(fit_member(best));
            proof {
                if generation > 0 {
                    assert(offspring(best, history@[generation - 1].best, best_index));
                }
            }
            let mut next: Vec<Character> = Vec::new();
            let mut i: usize = 0;
            while i < self.lambda
                invariant
                    i <= self.lambda,
                    self.mutation <= 100,
                    fit_member(best),
                    next@.len() == i,
                    forall|k: int| 0 <= k < next@.len() ==> fit_member(#[trigger] next@[k]),
                    forall|k: int| 0 <= k < next@.len() ==> offspring(#[trigger] next@[k], best, k as usize),
                decreases self.lambda - i,
            {
                next.push(best.mutate(self.mutation, i, dice));
                i = i + 1;
            }
            self.population = next;
            let fights = NB_FIGHTS * (self.lambda as u64 - 1);
            let ghost before = history@;
            history.push(Generation { best, wins, fights });
            proof {
                assert forall|g: int|
                    0 < g < history@.len() implies descends(#[trigger] history@[g].best, history@[g - 1].best) by {
                    if g < before.len() {
                        assert(history@[g] == before[g] && history@[g - 1] == before[g - 1]);
                    } else {
                        assert(offspring(history@[g].best, history@[g - 1].best, best_index));
                    }
                }
            }
            generation = generation + 1;
        }
        history
    }

    /// The position of the fittest combatant and the fights it won.
    fn do_1_generation(population: &Vec<Character>, dice: &mut Dice) -> (r: (usize, u64))
        requires
            population@.len() > 0,
            population@.len() * NB_FIGHTS <= u64::MAX,
            forall|k: int| 0 <= k < population@.len() ==> fit_member(#[trigger] population@[k]),
        ensures
            generation_result(population@.len() as int, r.0 as int, r.1 as int),
    {
        let ghost n = population@.len() as int;
        let ghost mut results: Seq<Seq<u64>> = Seq::empty();
        let mut fitness: Vec<u64> = Vec::new();
        let mut i: usize = 0;
        while i < population.len()
            invariant
                i <= population@.len(),
                n == population@.len(),
                population@.len() * NB_FIGHTS <= u64::MAX,
                forall|k: int| 0 <= k < population@.len() ==> fit_member(#[trigger] population@[k]),
                fitness@.len() == i,
                results.len() == i,
                forall|k: int| 0 <= k < i ==> #[trigger] row_ok(results[k], n),
                forall|k: int| 0 <= k < i ==> #[trigger] fitness@[k] == wins_of(results[k], k, n),
                forall|k: int| 0 <= k < i ==> #[trigger] fitness@[k] <= NB_FIGHTS * (n - 1),
            decreases population@.len() - i,
        {
            let row = Self::fight_row(population, i, dice);
            let f = Self::calculate_fitness(&row, i);
            proof {
                let pre = results;
                results = results.push(row@);
                assert forall|k: int| 0 <= k < i + 1 implies #[trigger] row_ok(results[k], n) by {
                    if k < i {
                        assert(results[k] == pre[k]);
                    }
                }
            }
            fitness.push(f);
            proof {
                assert forall|k: int| 0 <= k < i + 1 implies #[trigger] fitness@[k] == wins_of(results[k], k, n) by {
                    if k < i {
                        assert(results[k] == results.drop_last()[k]);
                    }
                }
            }
            i = i + 1;
        }
        let best = Self::select_best(&fitness);
        let wins = fitness[best];
        assert(fitness@[best as int] == wins_of(results[best as int], best as int, n));
        assert forall|j: int| 0 <= j < n implies wins_of(#[trigger] results[j], j, n) <= wins_of(
            results[best as int],
            best as int,
            n,
        ) by {
            assert(fitness@[j] == wins_of(results[j], j, n));
        }
        assert forall|j: int| 0 <= j < best implies wins_of(#[trigger] results[j], j, n) < wins_of(
            results[best as int],
            best as int,
            n,
        ) by {
            assert(fitness@[j] == wins_of(results[j], j, n));
        }
        assert(selected(results, n, best as int, wins as int));
        (best, wins)
    }

    /// The fights the combatant at `index` wins against each member, in
    /// position order: `NB_FIGHTS` against each other member, none against
    /// itself.
    fn fight_row(population: &Vec<Character>, index: usize, dice: &mut Dice) -> (r: Vec<u64>)
        requires
            index < population@.len(),
            forall|k: int| 0 <= k < population@.len() ==> fit_member(#[trigger] population@[k]),
        ensures
            row_ok(r@, population@.len() as int),
            r@[index as int] == 0,
    {
        let mut row: Vec<u64> = Vec::new();
        let mut j: usize = 0;
        while j < population.len()
            invariant
                j <= population@.len(),
                index < population@.len(),
                forall|k: int| 0 <= k < population@.len() ==> fit_member(#[trigger] population@[k]),
                row@.len() == j,
                forall|k: int| 0 <= k < j ==> #[trigger] row@[k] <= NB_FIGHTS,
                index < j ==> row@[index as int] == 0,
            decreases population@.len() - j,
        {
            if j != index {
                let w = Self::run_fights(&population[index], &population[j], dice);
                row.push(w);
            } else {
                row.push(0);
            }
            j = j + 1;
        }
        row
    }

    /// The fitness of the member at `index`: the fights it won against every
    /// other member, read from its row of results.
    pub fn calculate_fitness(row: &Vec<u64>, index: usize) -> (r: u64)
        requires
            row_ok(row@, row@.len() as int),
            row@.len() * NB_FIGHTS <= u64::MAX,
        ensures
            r == wins_of(row@, index as int, row@.len() as int),
            r <= NB_FIGHTS * (row@.len() - 1) || (index >= row@.len() && r <= NB_FIGHTS * row@.len()),
    {
        let mut wins: u64 = 0;
        let mut j: usize = 0;
        while j < row.len()
            invariant
                j <= row@.len(),
                row_ok(row@, row@.len() as int),
                row@.len() * NB_FIGHTS <= u64::MAX,
                wins == wins_of(row@, index as int, j as int),
                wins <= NB_FIGHTS * (j - if j > index {
                    1int
                } else {
                    0int
                }),
            decreases row@.len() - j,
        {
            if j != index {
                wins = wins + row[j];
            }
            j = j + 1;
        }
        wins
    }

    /// The fights `c1` wins out of `NB_FIGHTS` against `c2`.
    fn run_fights(c1: &Character, c2: &Character, dice: &mut Dice) -> (r: u64)
        requires
            can_fight(*c1, *c2),
        ensures
            r <= NB_FIGHTS,
    {
        let mut wins: u64 = 0;
        let mut n: u64 = 0;
        while n < NB_FIGHTS
            invariant
                n <= NB_FIGHTS,
                wins <= n,
                can_fight(*c1, *c2),
            decreases NB_FIGHTS - n,
        {
            if Combat::run(c1, c2, dice) {
                wins = wins + 1;
            }
            n = n + 1;
        }
        wins
    }

    /// The position of the largest fitness, the first one among equals.
    pub fn select_best(fitness: &Vec<u64>) -> (r: usize)
        requires
            fitness@.len() > 0,
        ensures
            r < fitness@.len(),
            forall|j: int| 0 <= j < fitness@.len() ==> fitness@[j] <= fitness@[r as int],
            forall|j: int| 0 <= j < r ==> fitness@[j] < fitness@[r as int],
    {
        let mut best: usize = 0;
        let mut k: usize = 1;
        while k < fitness.len()
            invariant
                1 <= k <= fitness@.len(),
                best < k,
                forall|j: int| 0 <= j < k ==> fitness@[j] <= fitness@[best as int],
                forall|j: int| 0 <= j < best ==> fitness@[j] < fitness@[best as int],
            decreases fitness@.len() - k,
        {
            if fitness[k] > fitness[best] {
                best = k;
            }
            k = k + 1;
        }
        best
    }
}

} // verus!
