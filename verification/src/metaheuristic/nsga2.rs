//! NSGA-II: a population evolves by tournament, crossing and mutation, and
//! each generation keeps its best members by front and crowding distance.
use vstd::prelude::*;
use vstd::string::*;
use crate::arithmetic::{precedes, Arithmetic};
use crate::metaheuristic::dominance::{
    comparable, dominates_spec, evaluated, front_of, lemma_sort_places_everyone, levels, relation,
};
use crate::metaheuristic::objects::{Solution, Variable, VariableDefinition};
use crate::metaheuristic::selection::{prepare, prepared, tournament_selection};
use crate::metaheuristic::sorting::{ahead, lemma_sort_by, sort_by, sort_population};
use crate::metaheuristic::variation::{
    crossed, crossing, crossover, fitting, lemma_crossed_fits, lemma_crossing_crossed,
    all_within, lemma_crossing_within, lemma_mutated_fits, lemma_mutating_within,
    lemma_sampled_within, mutate, mutated, mutating, sampled,
    random_variables, valid, Variation,
};

verus! {

/// What was found for one parameter of an algorithm's configuration.
#[derive(Clone, Copy, Debug)]
pub enum Setting<T> {
    /// The configuration does not name the parameter.
    Missing,
    /// The text of the parameter is no value of its kind.
    Invalid,
    /// The value.
    Given(T),
}

/// The parameters of NSGA-II.
#[derive(Clone, Debug)]
pub struct NSGAII<P> {
    pub population_size: usize,
    pub variable_definitions: Vec<VariableDefinition<P>>,
    pub num_objectives: usize,
    pub mutation_rate: P,
    pub crossover_rate: P,
}

/// Whether the evaluator accepts every population and answers each with one
/// row of at least `n` objectives per member.
pub open spec fn scoring<P, E: Fn(&Vec<Solution<P>>) -> Vec<Vec<P>>>(evaluate: E, n: int) -> bool {
    &&& forall|population: Vec<Solution<P>>| call_requires(evaluate, (&population,))
    &&& forall|population: Vec<Solution<P>>, rows: Vec<Vec<P>>|
        call_ensures(evaluate, (&population,), rows) ==> rows.len() == population.len() && forall|
            i: int,
        |
            0 <= i < rows.len() ==> (#[trigger] rows[i]).len() >= n
}

/// Whether `objectives` is a row that the evaluator has answered with.
pub open spec fn scored_by<P, E: Fn(&Vec<Solution<P>>) -> Vec<Vec<P>>>(
    evaluate: E,
    objectives: Vec<P>,
) -> bool {
    exists|population: Vec<Solution<P>>, rows: Vec<Vec<P>>, i: int|
        #![trigger call_ensures(evaluate, (&population,), rows), rows[i]]
        call_ensures(evaluate, (&population,), rows) && 0 <= i < rows.len() && rows[i]
            == objectives
}

/// Whether the member carries the evaluator's answer for its variables: the
/// row that the evaluator answered with for a population, every member of
/// which fits the domains, in which the member's variables stood at the
/// row's place.
pub open spec fn judged_by<P, E: Fn(&Vec<Solution<P>>) -> Vec<Vec<P>>>(
    evaluate: E,
    definitions: Seq<VariableDefinition<P>>,
    member: Solution<P>,
) -> bool {
    exists|population: Vec<Solution<P>>, rows: Vec<Vec<P>>, i: int|
        #![trigger call_ensures(evaluate, (&population,), rows), rows[i]]
        call_ensures(evaluate, (&population,), rows) && 0 <= i < rows.len() && i
            < population.len() && population[i].variables == member.variables && rows[i]
            == member.objectives && all_fitting(population@, definitions)
}

/// Whether every member fits the domains.
pub open spec fn all_fitting<P>(
    population: Seq<Solution<P>>,
    definitions: Seq<VariableDefinition<P>>,
) -> bool {
    forall|j: int| 0 <= j < population.len() ==> fitting((#[trigger] population[j]).variables@, definitions)
}

/// Whether, on each of the first `n` objectives, "not less" is transitive
/// among all the rows that the evaluator answers with. It is so for an
/// evaluator whose numbers can all be compared with each other.
#[verifier::opaque]
pub open spec fn orderly<P, L: Fn(&P, &P) -> bool, E: Fn(&Vec<Solution<P>>) -> Vec<Vec<P>>>(
    less: L,
    evaluate: E,
    n: int,
) -> bool {
    forall|a: Vec<P>, b: Vec<P>, c: Vec<P>, m: int|
        #![trigger precedes(less, a@[m], b@[m]), precedes(less, b@[m], c@[m])]
        scored_by(evaluate, a) && scored_by(evaluate, b) && scored_by(evaluate, c) && 0 <= m < n
            && !precedes(less, a@[m], b@[m]) && !precedes(less, b@[m], c@[m]) ==> !precedes(
            less,
            a@[m],
            c@[m],
        )
}

/// Whether every member fits the domains and carries the evaluator's answer
/// for its variables.
pub open spec fn settled<P, E: Fn(&Vec<Solution<P>>) -> Vec<Vec<P>>>(
    evaluate: E,
    definitions: Seq<VariableDefinition<P>>,
    population: Seq<Solution<P>>,
    n: int,
) -> bool {
    forall|i: int|
        0 <= i < population.len() ==> fitting((#[trigger] population[i]).variables@, definitions)
            && judged_by(evaluate, definitions, population[i]) && population[i].objectives.len() >= n
}

/// Whether no member of rank 0 dominates another member of rank 0.
pub open spec fn pareto<P, L: Fn(&P, &P) -> bool>(
    less: L,
    population: Seq<Solution<P>>,
    n: int,
) -> bool {
    forall|a: int, b: int|
        0 <= a < population.len() && 0 <= b < population.len() && (#[trigger] population[a]).rank
            == 0 && (#[trigger] population[b]).rank == 0 ==> !dominates_spec(
            less,
            population[a].objectives@,
            population[b].objectives@,
            n,
        )
}

/// Rows of an orderly evaluator can all be compared.
pub proof fn lemma_settled_comparable<P, L: Fn(&P, &P) -> bool, E: Fn(&Vec<Solution<P>>) -> Vec<
    Vec<P>,
>>(less: L, evaluate: E, definitions: Seq<VariableDefinition<P>>, population: Seq<Solution<P>>, n: int)
    requires
        orderly(less, evaluate, n),
        settled(evaluate, definitions, population, n),
    ensures
        comparable(less, population, n),
{
    reveal(orderly);
    reveal(comparable);
    assert forall|i: int, j: int, k: int, m: int|
        0 <= i < population.len() && 0 <= j < population.len() && 0 <= k < population.len() && 0
            <= m < n && !precedes(
            less,
            #[trigger] population[i].objectives@[m],
            #[trigger] population[j].objectives@[m],
        ) && !precedes(
            less,
            population[j].objectives@[m],
            #[trigger] population[k].objectives@[m],
        ) implies !precedes(less, population[i].objectives@[m], population[k].objectives@[m]) by {
        let a = population[i].objectives;
        let b = population[j].objectives;
        let c = population[k].objectives;
        assert(judged_by(evaluate, definitions, population[i]) && judged_by(
            evaluate,
            definitions,
            population[j],
        ) && judged_by(evaluate, definitions, population[k]));
        assert(scored_by(evaluate, a) && scored_by(evaluate, b) && scored_by(evaluate, c));
        assert(!precedes(less, a@[m], b@[m]) && !precedes(less, b@[m], c@[m]));
    }
}

/// Sorts a population for selection and keeps its first `population_size`
/// members: the fronts in their order, and of the last front that is kept
/// the members of the greatest crowding distance.
pub fn next_generation<P: Copy, A, S, D, L, C>(
    ops: &Arithmetic<P, A, S, D, L, C>,
    population: Vec<Solution<P>>,
    population_size: usize,
    num_objectives: usize,
) -> (survivors: Vec<Solution<P>>) where
    A: Fn(&P, &P) -> P,
    S: Fn(&P, &P) -> P,
    D: Fn(&P, &P) -> P,
    L: Fn(&P, &P) -> bool,
    C: Fn(i64) -> P,

    requires
        ops.wf(),
        evaluated(population@, num_objectives as int),
    ensures
        survivors.len() == if population_size <= population.len() {
            population_size
        } else {
            population.len()
        },
        exists|fronts: Seq<Vec<usize>>, ready: Seq<Solution<P>>|
            prepared(ops, population@, ready, fronts, num_objectives as int) && survivors@
                == sort_by(ahead(ops.less), ready).take(survivors.len() as int),
        forall|k: int|
            0 <= k < survivors.len() ==> exists|x: int|
                0 <= x < population.len() && (#[trigger] survivors[k]).variables
                    == population[x].variables && survivors[k].objectives
                    == population[x].objectives,
        comparable(ops.less, population@, num_objectives as int) ==> pareto(
            ops.less,
            survivors@,
            num_objectives as int,
        ),
{
    let ghost start = population@;
    let ghost n = num_objectives as int;
    let mut population = population;
    let fronts = prepare(ops, &mut population, num_objectives);
    let ghost ready = population@;
    sort_population(&ops.less, &mut population);
    let ghost sorted = population@;
    population.truncate(population_size);
    proof {
        lemma_sort_by(ahead(ops.less), ready);
        assert(population@ =~= sorted.take(population.len() as int));
        assert forall|k: int| 0 <= k < population.len() implies exists|x: int|
            0 <= x < start.len() && (#[trigger] population[k]).variables == start[x].variables
                && population[k].objectives == start[x].objectives && population[k].rank
                == ready[x].rank && population[k] == ready[x] by {
            assert(population[k] == sorted[k]);
            assert(sorted.contains(sorted[k]));
            assert(ready.contains(sorted[k]));
            let x = choose|x: int| 0 <= x < ready.len() && ready[x] == sorted[k];
            assert(ready[x].variables == start[x].variables);
        }
        if comparable(ops.less, start, n) {
            lemma_sort_places_everyone(ops.less, start, n, fronts@);
            let dom = relation(ops.less, start, n);
            let level = levels(fronts@, start.len() as int);
            assert forall|a: int, b: int|
                0 <= a < population.len() && 0 <= b < population.len() && (
                #[trigger] population[a]).rank == 0 && (#[trigger] population[b]).rank
                    == 0 implies !dominates_spec(
                ops.less,
                population[a].objectives@,
                population[b].objectives@,
                n,
            ) by {
                let x = choose|x: int|
                    0 <= x < start.len() && population[a].variables == start[x].variables
                        && population[a].objectives == start[x].objectives && population[a].rank
                        == ready[x].rank && population[a] == ready[x];
                let y = choose|y: int|
                    0 <= y < start.len() && population[b].variables == start[y].variables
                        && population[b].objectives == start[y].objectives && population[b].rank
                        == ready[y].rank && population[b] == ready[y];
                assert(0 <= front_of(fronts@, x));
                assert(0 <= front_of(fronts@, y));
                assert(level[y] == front_of(fronts@, y));
                assert(level[y] == 0);
                assert(!dom(x, y));
            }
        }
    }
    population
}

/// Asks the evaluator once for the objectives of the population and hands
/// each member its row of the answer.
pub fn score<P, E: Fn(&Vec<Solution<P>>) -> Vec<Vec<P>>>(
    evaluate: &E,
    population: &mut Vec<Solution<P>>,
    num_objectives: usize,
)
    requires
        scoring(*evaluate, num_objectives as int),
    ensures
        final(population).len() == old(population).len(),
        exists|rows: Vec<Vec<P>>| #[trigger]
            call_ensures(*evaluate, (&*old(population),), rows) && rows.len() == old(
                population,
            ).len() && forall|i: int|
                0 <= i < rows.len() ==> (#[trigger] final(population)[i]).objectives == rows[i],
        forall|i: int|
            0 <= i < old(population).len() ==> {
                &&& (#[trigger] final(population)[i]).variables == old(population)[i].variables
                &&& final(population)[i].rank == old(population)[i].rank
                &&& final(population)[i].crowding_distance == old(population)[i].crowding_distance
                &&& final(population)[i].objectives.len() >= num_objectives
            },
{
    let ghost asked = *population;
    let mut rows = evaluate(population);
    let ghost answered = rows;
    let mut k: usize = rows.len();
    while k > 0
        invariant
            call_ensures(*evaluate, (&asked,), answered),
            answered.len() == asked.len(),
            forall|i: int| 0 <= i < answered.len() ==> (#[trigger] answered[i]).len() >= num_objectives,
            k <= answered.len(),
            rows@ == answered@.subrange(0, k as int),
            population.len() == asked.len(),
            forall|i: int| 0 <= i < k ==> #[trigger] population[i] == asked[i],
            forall|i: int|
                k <= i < asked.len() ==> (#[trigger] population[i]).variables == asked[i].variables
                    && population[i].rank == asked[i].rank && population[i].crowding_distance
                    == asked[i].crowding_distance && population[i].objectives == answered[i],
        decreases k,
    {
        k -= 1;
        match rows.pop() {
            Some(row) => {
                assert(row == answered[k as int]);
                population[k].objectives = row;
            },
            None => {},
        }
        assert(rows@ =~= answered@.subrange(0, k as int));
    }
    proof {
        assert(call_ensures(*evaluate, (&asked,), answered) && answered.len() == asked.len()
            && forall|i: int|
            0 <= i < answered.len() ==> (#[trigger] population[i]).objectives == answered[i]);
    }
}

/// A member with the variables and the objectives of one that carries the
/// evaluator's answer carries it too.
pub proof fn lemma_judged_alike<P, E: Fn(&Vec<Solution<P>>) -> Vec<Vec<P>>>(
    evaluate: E,
    definitions: Seq<VariableDefinition<P>>,
    one: Solution<P>,
    other: Solution<P>,
)
    requires
        judged_by(evaluate, definitions, one),
        other.variables == one.variables,
        other.objectives == one.objectives,
    ensures
        judged_by(evaluate, definitions, other),
{
    let (population, rows, i) = choose|population: Vec<Solution<P>>, rows: Vec<Vec<P>>, i: int|
        #![trigger call_ensures(evaluate, (&population,), rows), rows[i]]
        call_ensures(evaluate, (&population,), rows) && 0 <= i < rows.len() && i
            < population.len() && population[i].variables == one.variables && rows[i]
            == one.objectives && all_fitting(population@, definitions);
    assert(call_ensures(evaluate, (&population,), rows) && 0 <= i < rows.len() && i
        < population.len() && population[i].variables == other.variables && rows[i]
        == other.objectives && all_fitting(population@, definitions));
}

/// The members of a population that fits the domains carry the evaluator's
/// answer once each was handed its row of the answer for that population.
pub proof fn lemma_scored_judged<P, E: Fn(&Vec<Solution<P>>) -> Vec<Vec<P>>>(
    evaluate: E,
    definitions: Seq<VariableDefinition<P>>,
    asked: Vec<Solution<P>>,
    scored: Seq<Solution<P>>,
)
    requires
        all_fitting(asked@, definitions),
        scored.len() == asked.len(),
        forall|i: int| 0 <= i < asked.len() ==> (#[trigger] scored[i]).variables == asked[i].variables,
        exists|rows: Vec<Vec<P>>| #[trigger]
            call_ensures(evaluate, (&asked,), rows) && rows.len() == asked.len() && forall|i: int|
                0 <= i < rows.len() ==> (#[trigger] scored[i]).objectives == rows[i],
    ensures
        forall|i: int| 0 <= i < scored.len() ==> judged_by(evaluate, definitions, #[trigger] scored[i]),
{
    let rows = choose|rows: Vec<Vec<P>>| #[trigger]
        call_ensures(evaluate, (&asked,), rows) && rows.len() == asked.len() && forall|i: int|
            0 <= i < rows.len() ==> (#[trigger] scored[i]).objectives == rows[i];
    assert forall|i: int| 0 <= i < scored.len() implies judged_by(
        evaluate,
        definitions,
        #[trigger] scored[i],
    ) by {
        assert(call_ensures(evaluate, (&asked,), rows) && 0 <= i < rows.len() && i < asked.len()
            && asked[i].variables == scored[i].variables && rows[i] == scored[i].objectives
            && all_fitting(asked@, definitions));
    }
}

/// Whether `child` holds the variables of a child of two parents: the
/// parents are crossed, and `child` is what a mutation makes of one of their
/// two children.
pub open spec fn bred<P, H, M, X, XI, Y, YI>(
    variation: &Variation<P, H, M, X, XI, Y, YI>,
    crossover_rate: P,
    mutation_rate: P,
    definitions: Seq<VariableDefinition<P>>,
    parent1: Seq<Variable<P>>,
    parent2: Seq<Variable<P>>,
    child: Seq<Variable<P>>,
) -> bool where
    H: Fn(&P) -> bool,
    M: Fn(&P, &P) -> P,
    X: Fn(&P, &P, &P, &P) -> (P, P),
    XI: Fn(i64, i64, i64, i64) -> (i64, i64),
    Y: Fn(&P, &P, &P) -> P,
    YI: Fn(i64, i64, i64) -> i64,
 {
    exists|first: Seq<Variable<P>>, second: Seq<Variable<P>>| #[trigger]
        crossing(variation, crossover_rate, definitions, parent1, parent2, first, second) && (
        mutating(variation, mutation_rate, definitions, first, child) || mutating(
            variation,
            mutation_rate,
            definitions,
            second,
            child,
        ))
}

proof fn lemma_children_fit<P, H, M, X, XI, Y, YI>(
    variation: &Variation<P, H, M, X, XI, Y, YI>,
    definitions: Seq<VariableDefinition<P>>,
    parent1: Seq<Variable<P>>,
    parent2: Seq<Variable<P>>,
    child1: Seq<Variable<P>>,
    child2: Seq<Variable<P>>,
) where
    H: Fn(&P) -> bool,
    M: Fn(&P, &P) -> P,
    X: Fn(&P, &P, &P, &P) -> (P, P),
    XI: Fn(i64, i64, i64, i64) -> (i64, i64),
    Y: Fn(&P, &P, &P) -> P,
    YI: Fn(i64, i64, i64) -> i64,

    requires
        valid(definitions),
        fitting(parent1, definitions),
        fitting(parent2, definitions),
        child1.len() == parent1.len(),
        child2.len() == parent2.len(),
        forall|i: int|
            0 <= i < definitions.len() ==> crossed(
                variation,
                definitions[i],
                parent1[i],
                parent2[i],
                #[trigger] child1[i],
                child2[i],
            ),
    ensures
        fitting(child1, definitions),
        fitting(child2, definitions),
{
    assert forall|i: int| 0 <= i < definitions.len() implies (#[trigger] child1[i]).fits(
        definitions[i],
    ) && child2[i].fits(definitions[i]) by {
        assert(parent1[i].fits(definitions[i]));
        assert(parent2[i].fits(definitions[i]));
        lemma_crossed_fits(variation, definitions[i], parent1[i], parent2[i], child1[i], child2[i]);
    }
    assert forall|i: int| 0 <= i < definitions.len() implies (#[trigger] child2[i]).fits(
        definitions[i],
    ) by {
        assert(child1[i].fits(definitions[i]) && child2[i].fits(definitions[i]));
    }
}

proof fn lemma_mutant_fits<P, H, M, X, XI, Y, YI>(
    variation: &Variation<P, H, M, X, XI, Y, YI>,
    rate: P,
    definitions: Seq<VariableDefinition<P>>,
    before: Seq<Variable<P>>,
    after: Seq<Variable<P>>,
) where
    H: Fn(&P) -> bool,
    M: Fn(&P, &P) -> P,
    X: Fn(&P, &P, &P, &P) -> (P, P),
    XI: Fn(i64, i64, i64, i64) -> (i64, i64),
    Y: Fn(&P, &P, &P) -> P,
    YI: Fn(i64, i64, i64) -> i64,

    requires
        valid(definitions),
        fitting(before, definitions),
        after.len() == before.len(),
        forall|i: int|
            0 <= i < definitions.len() ==> mutated(
                variation,
                rate,
                definitions[i],
                before[i],
                #[trigger] after[i],
            ),
    ensures
        fitting(after, definitions),
{
    assert forall|i: int| 0 <= i < definitions.len() implies (#[trigger] after[i]).fits(
        definitions[i],
    ) by {
        assert(before[i].fits(definitions[i]));
        lemma_mutated_fits(variation, rate, definitions[i], before[i], after[i]);
    }
}

/// With moves that keep numbers within their bounds, a child bred from
/// parents within the domains lies within the domains.
pub proof fn lemma_bred_within<P, H, M, X, XI, Y, YI, L: Fn(&P, &P) -> bool>(
    variation: &Variation<P, H, M, X, XI, Y, YI>,
    less: L,
    crossover_rate: P,
    mutation_rate: P,
    definitions: Seq<VariableDefinition<P>>,
    parent1: Seq<Variable<P>>,
    parent2: Seq<Variable<P>>,
    child: Seq<Variable<P>>,
) where
    H: Fn(&P) -> bool,
    M: Fn(&P, &P) -> P,
    X: Fn(&P, &P, &P, &P) -> (P, P),
    XI: Fn(i64, i64, i64, i64) -> (i64, i64),
    Y: Fn(&P, &P, &P) -> P,
    YI: Fn(i64, i64, i64) -> i64,

    requires
        variation.bounded(less),
        valid(definitions),
        all_within(less, parent1, definitions),
        all_within(less, parent2, definitions),
        bred(variation, crossover_rate, mutation_rate, definitions, parent1, parent2, child),
    ensures
        all_within(less, child, definitions),
{
    let (first, second) = choose|first: Seq<Variable<P>>, second: Seq<Variable<P>>| #[trigger]
        crossing(variation, crossover_rate, definitions, parent1, parent2, first, second) && (
        mutating(variation, mutation_rate, definitions, first, child) || mutating(
            variation,
            mutation_rate,
            definitions,
            second,
            child,
        ));
    lemma_crossing_within(
        variation,
        less,
        crossover_rate,
        definitions,
        parent1,
        parent2,
        first,
        second,
    );
    if mutating(variation, mutation_rate, definitions, first, child) {
        lemma_mutating_within(variation, less, mutation_rate, definitions, first, child);
    } else {
        lemma_mutating_within(variation, less, mutation_rate, definitions, second, child);
    }
}

impl<P: Copy> NSGAII<P> {
    /// The algorithm with the given parameters.
    pub fn new(
        population_size: usize,
        variable_definitions: Vec<VariableDefinition<P>>,
        num_objectives: usize,
        mutation_rate: P,
        crossover_rate: P,
    ) -> (algorithm: Self)
        ensures
            algorithm.population_size == population_size,
            algorithm.variable_definitions == variable_definitions,
            algorithm.num_objectives == num_objectives,
            algorithm.mutation_rate == mutation_rate,
            algorithm.crossover_rate == crossover_rate,
    {
        NSGAII {
            population_size,
            variable_definitions,
            num_objectives,
            mutation_rate,
            crossover_rate,
        }
    }

    /// The algorithm from the parameters found in a configuration: an error
    /// that says so where one is missing and, where none is missing, an error
    /// that says so where one is invalid.
    pub fn new_from_json(
        population_size: Setting<usize>,
        mutation_rate: Setting<P>,
        crossover_rate: Setting<P>,
        variable_definitions: Vec<VariableDefinition<P>>,
        num_objectives: usize,
    ) -> (made: Result<Self, String>)
        ensures
            match (population_size, mutation_rate, crossover_rate) {
                (Setting::Given(size), Setting::Given(mutation), Setting::Given(crossing)) => made
                    matches Ok(algorithm) && algorithm.population_size == size
                    && algorithm.variable_definitions == variable_definitions
                    && algorithm.num_objectives == num_objectives && algorithm.mutation_rate
                    == mutation && algorithm.crossover_rate == crossing,
                _ => made matches Err(message) && message@ == if population_size is Missing
                    || mutation_rate is Missing || crossover_rate is Missing {
                    "Missing parameters for the algorithm"@
                } else {
                    "Invalid parameters for the algorithm"@
                },
            },
    {
        match (population_size, mutation_rate, crossover_rate) {
            (Setting::Given(size), Setting::Given(mutation), Setting::Given(crossing)) => Ok(
                NSGAII {
                    population_size: size,
                    variable_definitions,
                    num_objectives,
                    mutation_rate: mutation,
                    crossover_rate: crossing,
                },
            ),
            (Setting::Missing, _, _) | (_, Setting::Missing, _) | (_, _, Setting::Missing) => Err(
                String::from_str("Missing parameters for the algorithm"),
            ),
            _ => Err(String::from_str("Invalid parameters for the algorithm")),
        }
    }

    /// A population of `population_size` random solutions: every variable a
    /// random value of its domain, every objective zero.
    pub fn initialize_population<A, S, D, L, C, H, M, X, XI, Y, YI>(
        &self,
        ops: &Arithmetic<P, A, S, D, L, C>,
        variation: &Variation<P, H, M, X, XI, Y, YI>,
    ) -> (population: Vec<Solution<P>>) where
        A: Fn(&P, &P) -> P,
        S: Fn(&P, &P) -> P,
        D: Fn(&P, &P) -> P,
        L: Fn(&P, &P) -> bool,
        C: Fn(i64) -> P,
        H: Fn(&P) -> bool,
        M: Fn(&P, &P) -> P,
        X: Fn(&P, &P, &P, &P) -> (P, P),
        XI: Fn(i64, i64, i64, i64) -> (i64, i64),
        Y: Fn(&P, &P, &P) -> P,
        YI: Fn(i64, i64, i64) -> i64,

        requires
            ops.wf(),
            variation.wf(),
            valid(self.variable_definitions@),
        ensures
            population.len() == self.population_size,
            forall|i: int|
                0 <= i < population.len() ==> sampled(
                    variation.sample,
                    self.variable_definitions@,
                    (#[trigger] population[i]).variables@,
                ) && population[i].objectives@ == Seq::new(
                    self.num_objectives as nat,
                    |k: int| ops.number(0),
                ) && population[i].rank == 0 && population[i].crowding_distance == ops.number(0),
    {
        let zero = ops.count(0);
        let mut population: Vec<Solution<P>> = Vec::with_capacity(self.population_size);
        let mut made: usize = 0;
        while made < self.population_size
            invariant
                ops.wf(),
                variation.wf(),
                valid(self.variable_definitions@),
                zero == ops.number(0),
                made <= self.population_size,
                population.len() == made,
                forall|i: int|
                    0 <= i < population.len() ==> sampled(
                        variation.sample,
                        self.variable_definitions@,
                        (#[trigger] population[i]).variables@,
                    ) && population[i].objectives@ == Seq::new(
                        self.num_objectives as nat,
                        |k: int| ops.number(0),
                    ) && population[i].rank == 0 && population[i].crowding_distance == ops.number(
                        0,
                    ),
            decreases self.population_size - made,
        {
            let variables = random_variables(&variation.sample, &self.variable_definitions);
            let mut objectives: Vec<P> = Vec::with_capacity(self.num_objectives);
            let mut k: usize = 0;
            while k < self.num_objectives
                invariant
                    k <= self.num_objectives,
                    objectives.len() == k,
                    forall|j: int| 0 <= j < k ==> objectives[j] == zero,
                decreases self.num_objectives - k,
            {
                objectives.push(zero);
                k += 1;
            }
            assert(objectives@ =~= Seq::new(self.num_objectives as nat, |k: int| ops.number(0)));
            population.push(Solution::new(variables, objectives, zero));
            made += 1;
        }
        population
    }

    /// Runs the algorithm for a number of generations and returns the last
    /// population. It has `population_size` members; each fits the domains
    /// and carries the evaluator's answer for its variables. After at least
    /// one generation, and with an evaluator whose numbers can all be
    /// compared, no member of rank 0 dominates another member of rank 0.
    /// With moves that keep numbers within their bounds, every number of a
    /// member lies between the bounds of its domain.
    pub fn run<A, S, D, L, C, H, M, X, XI, Y, YI, E>(
        &self,
        ops: &Arithmetic<P, A, S, D, L, C>,
        variation: &Variation<P, H, M, X, XI, Y, YI>,
        generations: usize,
        evaluate: &E,
    ) -> (population: Vec<Solution<P>>) where
        A: Fn(&P, &P) -> P,
        S: Fn(&P, &P) -> P,
        D: Fn(&P, &P) -> P,
        L: Fn(&P, &P) -> bool,
        C: Fn(i64) -> P,
        H: Fn(&P) -> bool,
        M: Fn(&P, &P) -> P,
        X: Fn(&P, &P, &P, &P) -> (P, P),
        XI: Fn(i64, i64, i64, i64) -> (i64, i64),
        Y: Fn(&P, &P, &P) -> P,
        YI: Fn(i64, i64, i64) -> i64,
        E: Fn(&Vec<Solution<P>>) -> Vec<Vec<P>>,

        requires
            ops.wf(),
            variation.wf(),
            valid(self.variable_definitions@),
            scoring(*evaluate, self.num_objectives as int),
        ensures
            population.len() == self.population_size,
            settled(
                *evaluate,
                self.variable_definitions@,
                population@,
                self.num_objectives as int,
            ),
            generations >= 1 && orderly(ops.less, *evaluate, self.num_objectives as int) ==> pareto(
                ops.less,
                population@,
                self.num_objectives as int,
            ),
            variation.bounded(ops.less) ==> forall|i: int|
                0 <= i < population.len() ==> all_within(
                    ops.less,
                    (#[trigger] population[i]).variables@,
                    self.variable_definitions@,
                ),
    {
        let mut population = self.initialize_population(ops, variation);
        proof {
            if variation.bounded(ops.less) {
                assert forall|i: int| 0 <= i < population.len() implies all_within(
                    ops.less,
                    (#[trigger] population[i]).variables@,
                    self.variable_definitions@,
                ) by {
                    lemma_sampled_within(
                        variation,
                        ops.less,
                        self.variable_definitions@,
                        population[i].variables@,
                    );
                }
            }
        }
        let ghost made = population@;
        let ghost asked = population;
        score(evaluate, &mut population, self.num_objectives);
        proof {
            assert(all_fitting(asked@, self.variable_definitions@)) by {
                assert forall|j: int| 0 <= j < asked.len() implies fitting(
                    (#[trigger] asked@[j]).variables@,
                    self.variable_definitions@,
                ) by {
                    assert(sampled(variation.sample, self.variable_definitions@, asked[j].variables@));
                }
            }
            lemma_scored_judged(*evaluate, self.variable_definitions@, asked, population@);
            assert forall|i: int| 0 <= i < population.len() implies (variation.bounded(ops.less)
                ==> all_within(
                ops.less,
                (#[trigger] population[i]).variables@,
                self.variable_definitions@,
            )) && fitting(population[i].variables@, self.variable_definitions@) by {
                assert(population[i].variables == made[i].variables);
                assert(sampled(variation.sample, self.variable_definitions@, made[i].variables@));
            }
        }
        let mut generation: usize = 0;
        while generation < generations
            invariant
                ops.wf(),
                variation.wf(),
                valid(self.variable_definitions@),
                scoring(*evaluate, self.num_objectives as int),
                generation <= generations,
                population.len() == self.population_size,
                settled(
                    *evaluate,
                    self.variable_definitions@,
                    population@,
                    self.num_objectives as int,
                ),
                generation >= 1 && orderly(ops.less, *evaluate, self.num_objectives as int)
                    ==> pareto(ops.less, population@, self.num_objectives as int),
                variation.bounded(ops.less) ==> forall|i: int|
                    0 <= i < population.len() ==> all_within(
                        ops.less,
                        (#[trigger] population[i]).variables@,
                        self.variable_definitions@,
                    ),
            decreases generations - generation,
        {
            let mut offspring = self.make_offspring(ops, variation, &population);
            let ghost newborn = offspring@;
            proof {
                if variation.bounded(ops.less) {
                    assert forall|i: int| 0 <= i < newborn.len() implies all_within(
                        ops.less,
                        (#[trigger] newborn[i]).variables@,
                        self.variable_definitions@,
                    ) by {
                        self.lemma_descended_within(variation, ops.less, population@, newborn[i]);
                    }
                }
            }
            let ghost asked = offspring;
            score(evaluate, &mut offspring, self.num_objectives);
            proof {
                lemma_scored_judged(*evaluate, self.variable_definitions@, asked, offspring@);
            }
            let ghost parents = population@;
            let ghost children = offspring@;
            population.append(&mut offspring);
            proof {
                assert(population@ == parents + children);
                assert forall|i: int| 0 <= i < population.len() implies fitting(
                    (#[trigger] population[i]).variables@,
                    self.variable_definitions@,
                ) && judged_by(*evaluate, self.variable_definitions@, population[i])
                    && population[i].objectives.len() >= self.num_objectives by {
                    if i < parents.len() {
                        assert(population[i] == parents[i]);
                    } else {
                        assert(population[i] == children[i - parents.len()]);
                    }
                }
                if variation.bounded(ops.less) {
                    assert forall|i: int| 0 <= i < population.len() implies all_within(
                        ops.less,
                        (#[trigger] population[i]).variables@,
                        self.variable_definitions@,
                    ) by {
                        if i < parents.len() {
                            assert(population[i] == parents[i]);
                        } else {
                            let j = i - parents.len();
                            assert(population[i] == children[j]);
                            assert(children[j].variables == newborn[j].variables);
                        }
                    }
                }
                if orderly(ops.less, *evaluate, self.num_objectives as int) {
                    lemma_settled_comparable(
                        ops.less,
                        *evaluate,
                        self.variable_definitions@,
                        population@,
                        self.num_objectives as int,
                    );
                }
            }
            let ghost combined = population@;
            population =
            next_generation(ops, population, self.population_size, self.num_objectives);
            proof {
                assert forall|k: int| 0 <= k < population.len() implies fitting(
                    (#[trigger] population[k]).variables@,
                    self.variable_definitions@,
                ) && judged_by(*evaluate, self.variable_definitions@, population[k])
                    && population[k].objectives.len() >= self.num_objectives by {
                    let x = choose|x: int|
                        0 <= x < combined.len() && population[k].variables == combined[x].variables
                            && population[k].objectives == combined[x].objectives;
                    assert(fitting(combined[x].variables@, self.variable_definitions@));
                    lemma_judged_alike(
                        *evaluate,
                        self.variable_definitions@,
                        combined[x],
                        population[k],
                    );
                }
                if variation.bounded(ops.less) {
                    assert forall|k: int| 0 <= k < population.len() implies all_within(
                        ops.less,
                        (#[trigger] population[k]).variables@,
                        self.variable_definitions@,
                    ) by {
                        let x = choose|x: int|
                            0 <= x < combined.len() && population[k].variables
                                == combined[x].variables && population[k].objectives
                                == combined[x].objectives;
                        assert(all_within(
                            ops.less,
                            combined[x].variables@,
                            self.variable_definitions@,
                        ));
                    }
                }
            }
            generation += 1;
        }
        population
    }

    /// With moves that keep numbers within their bounds, a child bred from
    /// members within the domains lies within the domains.
    pub proof fn lemma_descended_within<H, M, X, XI, Y, YI, L: Fn(&P, &P) -> bool>(
        &self,
        variation: &Variation<P, H, M, X, XI, Y, YI>,
        less: L,
        population: Seq<Solution<P>>,
        child: Solution<P>,
    ) where
        H: Fn(&P) -> bool,
        M: Fn(&P, &P) -> P,
        X: Fn(&P, &P, &P, &P) -> (P, P),
        XI: Fn(i64, i64, i64, i64) -> (i64, i64),
        Y: Fn(&P, &P, &P) -> P,
        YI: Fn(i64, i64, i64) -> i64,

        requires
            variation.bounded(less),
            valid(self.variable_definitions@),
            forall|i: int|
                0 <= i < population.len() ==> all_within(
                    less,
                    (#[trigger] population[i]).variables@,
                    self.variable_definitions@,
                ),
            self.descended(variation, population, child),
        ensures
            all_within(less, child.variables@, self.variable_definitions@),
    {
        let (a, b) = choose|a: int, b: int|
            #![trigger population[a], population[b]]
            0 <= a < population.len() && 0 <= b < population.len() && bred(
                variation,
                self.crossover_rate,
                self.mutation_rate,
                self.variable_definitions@,
                population[a].variables@,
                population[b].variables@,
                child.variables@,
            );
        assert(all_within(less, population[a].variables@, self.variable_definitions@));
        assert(all_within(less, population[b].variables@, self.variable_definitions@));
        lemma_bred_within(
            variation,
            less,
            self.crossover_rate,
            self.mutation_rate,
            self.variable_definitions@,
            population[a].variables@,
            population[b].variables@,
            child.variables@,
        );
    }

    /// Whether `child` is bred from two members of the population.
    pub open spec fn descended<H, M, X, XI, Y, YI>(
        &self,
        variation: &Variation<P, H, M, X, XI, Y, YI>,
        population: Seq<Solution<P>>,
        child: Solution<P>,
    ) -> bool where
        H: Fn(&P) -> bool,
        M: Fn(&P, &P) -> P,
        X: Fn(&P, &P, &P, &P) -> (P, P),
        XI: Fn(i64, i64, i64, i64) -> (i64, i64),
        Y: Fn(&P, &P, &P) -> P,
        YI: Fn(i64, i64, i64) -> i64,
     {
        exists|a: int, b: int|
            #![trigger population[a], population[b]]
            0 <= a < population.len() && 0 <= b < population.len() && bred(
                variation,
                self.crossover_rate,
                self.mutation_rate,
                self.variable_definitions@,
                population[a].variables@,
                population[b].variables@,
                child.variables@,
            )
    }

    /// As many children as the population has members: two parents are
    /// chosen by tournament, crossed and their children mutated, until the
    /// number is reached. Every child is bred from two members of the
    /// population and fits the domains.
    pub fn make_offspring<A, S, D, L, C, H, M, X, XI, Y, YI>(
        &self,
        ops: &Arithmetic<P, A, S, D, L, C>,
        variation: &Variation<P, H, M, X, XI, Y, YI>,
        population: &Vec<Solution<P>>,
    ) -> (offspring: Vec<Solution<P>>) where
        A: Fn(&P, &P) -> P,
        S: Fn(&P, &P) -> P,
        D: Fn(&P, &P) -> P,
        L: Fn(&P, &P) -> bool,
        C: Fn(i64) -> P,
        H: Fn(&P) -> bool,
        M: Fn(&P, &P) -> P,
        X: Fn(&P, &P, &P, &P) -> (P, P),
        XI: Fn(i64, i64, i64, i64) -> (i64, i64),
        Y: Fn(&P, &P, &P) -> P,
        YI: Fn(i64, i64, i64) -> i64,

        requires
            ops.wf(),
            variation.wf(),
            valid(self.variable_definitions@),
            population.len() == self.population_size,
            forall|i: int|
                0 <= i < population.len() ==> fitting(
                    (#[trigger] population[i]).variables@,
                    self.variable_definitions@,
                ),
        ensures
            offspring.len() == self.population_size,
            forall|i: int|
                0 <= i < offspring.len() ==> self.descended(
                    variation,
                    population@,
                    #[trigger] offspring[i],
                ) && fitting(offspring[i].variables@, self.variable_definitions@),
    {
        let mut offspring: Vec<Solution<P>> = Vec::with_capacity(self.population_size);
        while offspring.len() < self.population_size
            invariant
                ops.wf(),
                variation.wf(),
                valid(self.variable_definitions@),
                population.len() == self.population_size,
                offspring.len() <= self.population_size,
                forall|i: int|
                    0 <= i < population.len() ==> fitting(
                        (#[trigger] population[i]).variables@,
                        self.variable_definitions@,
                    ),
                forall|i: int|
                    0 <= i < offspring.len() ==> self.descended(
                        variation,
                        population@,
                        #[trigger] offspring[i],
                    ) && fitting(offspring[i].variables@, self.variable_definitions@),
            decreases self.population_size - offspring.len(),
        {
            let first = tournament_selection(&ops.less, population);
            let second = tournament_selection(&ops.less, population);
            assert(fitting(population[first as int].variables@, self.variable_definitions@));
            assert(fitting(population[second as int].variables@, self.variable_definitions@));
            let (mut child1, mut child2) = crossover(
                variation,
                &self.variable_definitions,
                &self.crossover_rate,
                &population[first],
                &population[second],
            );
            proof {
                lemma_crossing_crossed(
                    variation,
                    self.crossover_rate,
                    self.variable_definitions@,
                    population[first as int].variables@,
                    population[second as int].variables@,
                    child1.variables@,
                    child2.variables@,
                );
                lemma_children_fit(
                    variation,
                    self.variable_definitions@,
                    population[first as int].variables@,
                    population[second as int].variables@,
                    child1.variables@,
                    child2.variables@,
                );
            }
            let ghost crossed1 = child1.variables@;
            let ghost crossed2 = child2.variables@;
            mutate(variation, &self.variable_definitions, &self.mutation_rate, &mut child1);
            mutate(variation, &self.variable_definitions, &self.mutation_rate, &mut child2);
            proof {
                lemma_mutant_fits(
                    variation,
                    self.mutation_rate,
                    self.variable_definitions@,
                    crossed1,
                    child1.variables@,
                );
                lemma_mutant_fits(
                    variation,
                    self.mutation_rate,
                    self.variable_definitions@,
                    crossed2,
                    child2.variables@,
                );
            }
            proof {
                let one = population@[first as int];
                let two = population@[second as int];
                assert(crossing(
                    variation,
                    self.crossover_rate,
                    self.variable_definitions@,
                    one.variables@,
                    two.variables@,
                    crossed1,
                    crossed2,
                ));
                assert(bred(
                    variation,
                    self.crossover_rate,
                    self.mutation_rate,
                    self.variable_definitions@,
                    one.variables@,
                    two.variables@,
                    child1.variables@,
                ));
                assert(bred(
                    variation,
                    self.crossover_rate,
                    self.mutation_rate,
                    self.variable_definitions@,
                    one.variables@,
                    two.variables@,
                    child2.variables@,
                ));
                assert(self.descended(variation, population@, child1));
                assert(self.descended(variation, population@, child2));
            }
            let ghost born = offspring@;
            offspring.push(child1);
            if offspring.len() < self.population_size {
                offspring.push(child2);
            }
            proof {
                assert forall|i: int| 0 <= i < offspring.len() implies self.descended(
                    variation,
                    population@,
                    #[trigger] offspring[i],
                ) && fitting(offspring[i].variables@, self.variable_definitions@) by {
                    if i < born.len() {
                        assert(offspring[i] == born[i]);
                    }
                }
            }
        }
        offspring
    }
}

} // verus!
