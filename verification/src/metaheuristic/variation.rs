//! Making new solutions: at random within the domains, by crossing two
//! parents, and by mutating one solution. The formulas that move a number are
//! the caller's; the library decides which variables are moved and keeps
//! every integer within its bounds.
use vstd::prelude::*;
use crate::arithmetic::precedes;
use crate::metaheuristic::objects::{Solution, Variable, VariableDefinition};
use crate::random::{random_between, random_bool};

verus! {

/// The random moves that the caller supplies for numbers of type `P`.
pub struct Variation<P, H, M, X, XI, Y, YI> {
    /// Whether an event of the given probability happens this time.
    pub chance: H,
    /// A number between two bounds.
    pub sample: M,
    /// Two children of two numbers within two bounds.
    pub blend: X,
    /// Two children of two integers within two bounds, before clamping.
    pub blend_integer: XI,
    /// A mutation of a number within two bounds.
    pub perturb: Y,
    /// A mutation of an integer within two bounds, before clamping.
    pub perturb_integer: YI,
    /// Nothing; it ties the type of the numbers to the moves.
    pub numbers: core::marker::PhantomData<P>,
}

impl<P, H, M, X, XI, Y, YI> Variation<P, H, M, X, XI, Y, YI> where
    H: Fn(&P) -> bool,
    M: Fn(&P, &P) -> P,
    X: Fn(&P, &P, &P, &P) -> (P, P),
    XI: Fn(i64, i64, i64, i64) -> (i64, i64),
    Y: Fn(&P, &P, &P) -> P,
    YI: Fn(i64, i64, i64) -> i64,
 {
    /// Every move accepts every argument.
    pub open spec fn wf(&self) -> bool {
        &&& forall|p: P| call_requires(self.chance, (&p,))
        &&& forall|a: P, b: P| call_requires(self.sample, (&a, &b))
        &&& forall|a: P, b: P, c: P, d: P| call_requires(self.blend, (&a, &b, &c, &d))
        &&& forall|a: i64, b: i64, c: i64, d: i64| call_requires(self.blend_integer, (a, b, c, d))
        &&& forall|a: P, b: P, c: P| call_requires(self.perturb, (&a, &b, &c))
        &&& forall|a: i64, b: i64, c: i64| call_requires(self.perturb_integer, (a, b, c))
    }

    /// Whether the moves keep numbers within their bounds by the comparison
    /// `less`: what is sampled, blended or mutated within two bounds lies
    /// between them.
    pub open spec fn bounded<L: Fn(&P, &P) -> bool>(&self, less: L) -> bool {
        &&& forall|min: P, max: P, v: P| #[trigger]
            call_ensures(self.sample, (&min, &max), v) ==> between(less, v, min, max)
        &&& forall|a: P, b: P, min: P, max: P, v: (P, P)| #[trigger]
            call_ensures(self.blend, (&a, &b, &min, &max), v) ==> between(less, v.0, min, max)
                && between(less, v.1, min, max)
        &&& forall|a: P, min: P, max: P, v: P| #[trigger]
            call_ensures(self.perturb, (&a, &min, &max), v) ==> between(less, v, min, max)
    }
}

/// Whether a number lies between two bounds by the comparison `less`: it is
/// not less than the lower one, nor is the upper one less than it.
pub open spec fn between<P, L: Fn(&P, &P) -> bool>(less: L, value: P, min: P, max: P) -> bool {
    !precedes(less, value, min) && !precedes(less, max, value)
}

/// Whether a value fits its domain and, where it is a number, lies between
/// the bounds of the domain.
pub open spec fn within<P, L: Fn(&P, &P) -> bool>(
    less: L,
    variable: Variable<P>,
    definition: VariableDefinition<P>,
) -> bool {
    variable.fits(definition) && match (definition, variable) {
        (VariableDefinition::Float(min, max), Variable::Float(value)) => between(
            less,
            value,
            min,
            max,
        ),
        _ => true,
    }
}

/// Whether the variables are as many as the domains and each lies within
/// its domain.
pub open spec fn all_within<P, L: Fn(&P, &P) -> bool>(
    less: L,
    variables: Seq<Variable<P>>,
    definitions: Seq<VariableDefinition<P>>,
) -> bool {
    &&& variables.len() == definitions.len()
    &&& forall|i: int|
        0 <= i < definitions.len() ==> within(less, #[trigger] variables[i], definitions[i])
}

/// Whether the variables are random values of the domains: they fit them,
/// and each number is what the sampling gave for its bounds.
pub open spec fn sampled<P, M: Fn(&P, &P) -> P>(
    sample: M,
    definitions: Seq<VariableDefinition<P>>,
    variables: Seq<Variable<P>>,
) -> bool {
    &&& fitting(variables, definitions)
    &&& forall|i: int|
        0 <= i < definitions.len() ==> (definitions[i] matches VariableDefinition::Float(min, max)
            ==> #[trigger] variables[i] matches Variable::Float(v) && call_ensures(
            sample,
            (&min, &max),
            v,
        ))
}

/// Whether the bounds of every integer domain are in order.
pub open spec fn valid<P>(definitions: Seq<VariableDefinition<P>>) -> bool {
    forall|i: int|
        0 <= i < definitions.len() ==> match #[trigger] definitions[i] {
            VariableDefinition::Integer(min, max) => min <= max,
            _ => true,
        }
}

/// Whether the variables are as many as the domains and each fits its domain.
pub open spec fn fitting<P>(
    variables: Seq<Variable<P>>,
    definitions: Seq<VariableDefinition<P>>,
) -> bool {
    &&& variables.len() == definitions.len()
    &&& forall|i: int| 0 <= i < definitions.len() ==> (#[trigger] variables[i]).fits(definitions[i])
}

/// `value` brought into the bounds.
pub open spec fn clamped(value: int, min: int, max: int) -> int {
    if value < min {
        min
    } else if value > max {
        max
    } else {
        value
    }
}

/// Brings an integer into its bounds.
pub fn clamp(value: i64, min: i64, max: i64) -> (r: i64)
    requires
        min <= max,
    ensures
        r == clamped(value as int, min as int, max as int),
{
    if value < min {
        min
    } else if value > max {
        max
    } else {
        value
    }
}

/// A copy of a solution.
pub fn copy_solution<P: Copy>(solution: &Solution<P>) -> (copy: Solution<P>)
    ensures
        copy.variables@ == solution.variables@,
        copy.objectives@ == solution.objectives@,
        copy.crowding_distance == solution.crowding_distance,
        copy.rank == solution.rank,
{
    let mut variables: Vec<Variable<P>> = Vec::with_capacity(solution.variables.len());
    let mut i: usize = 0;
    while i < solution.variables.len()
        invariant
            i <= solution.variables.len(),
            variables@ == solution.variables@.subrange(0, i as int),
        decreases solution.variables.len() - i,
    {
        variables.push(solution.variables[i]);
        assert(variables@ =~= solution.variables@.subrange(0, i + 1));
        i += 1;
    }
    assert(solution.variables@.subrange(0, i as int) =~= solution.variables@);
    let mut objectives: Vec<P> = Vec::with_capacity(solution.objectives.len());
    let mut j: usize = 0;
    while j < solution.objectives.len()
        invariant
            j <= solution.objectives.len(),
            objectives@ == solution.objectives@.subrange(0, j as int),
        decreases solution.objectives.len() - j,
    {
        objectives.push(solution.objectives[j]);
        assert(objectives@ =~= solution.objectives@.subrange(0, j + 1));
        j += 1;
    }
    assert(solution.objectives@.subrange(0, j as int) =~= solution.objectives@);
    Solution {
        variables,
        objectives,
        crowding_distance: solution.crowding_distance,
        rank: solution.rank,
    }
}

/// What a crossing makes of the variables at one position once the coin
/// has been tossed. Without a swap the children keep the parents' values.
/// With one, two numbers become the blend of the two values, two integers
/// the blend brought into the bounds, and in a boolean domain the children
/// exchange the values; variables of another kind than their domain are
/// kept.
pub open spec fn swapped<P, H, M, X, XI, Y, YI>(
    variation: &Variation<P, H, M, X, XI, Y, YI>,
    definition: VariableDefinition<P>,
    parent1: Variable<P>,
    parent2: Variable<P>,
    child1: Variable<P>,
    child2: Variable<P>,
    swap: bool,
) -> bool where
    H: Fn(&P) -> bool,
    M: Fn(&P, &P) -> P,
    X: Fn(&P, &P, &P, &P) -> (P, P),
    XI: Fn(i64, i64, i64, i64) -> (i64, i64),
    Y: Fn(&P, &P, &P) -> P,
    YI: Fn(i64, i64, i64) -> i64,
 {
    if swap {
        match (definition, parent1, parent2) {
            (
                VariableDefinition::Float(min, max),
                Variable::Float(y1),
                Variable::Float(y2),
            ) => exists|blend: (P, P)|
                call_ensures(variation.blend, (&y1, &y2, &min, &max), blend) && child1
                    == Variable::Float(blend.0) && child2 == Variable::Float(blend.1),
            (
                VariableDefinition::Integer(min, max),
                Variable::Integer(y1),
                Variable::Integer(y2),
            ) => exists|raw: (i64, i64)|
                call_ensures(variation.blend_integer, (y1, y2, min, max), raw) && child1
                    == Variable::<P>::Integer(clamped(raw.0 as int, min as int, max as int) as i64)
                    && child2 == Variable::<P>::Integer(
                    clamped(raw.1 as int, min as int, max as int) as i64,
                ),
            (VariableDefinition::Boolean, _, _) => child1 == parent2 && child2 == parent1,
            _ => child1 == parent1 && child2 == parent2,
        }
    } else {
        child1 == parent1 && child2 == parent2
    }
}

/// What a crossing makes of the variables at one position: what the toss
/// of a coin decides.
pub open spec fn crossed<P, H, M, X, XI, Y, YI>(
    variation: &Variation<P, H, M, X, XI, Y, YI>,
    definition: VariableDefinition<P>,
    parent1: Variable<P>,
    parent2: Variable<P>,
    child1: Variable<P>,
    child2: Variable<P>,
) -> bool where
    H: Fn(&P) -> bool,
    M: Fn(&P, &P) -> P,
    X: Fn(&P, &P, &P, &P) -> (P, P),
    XI: Fn(i64, i64, i64, i64) -> (i64, i64),
    Y: Fn(&P, &P, &P) -> P,
    YI: Fn(i64, i64, i64) -> i64,
 {
    exists|swap: bool| #[trigger]
        swapped(variation, definition, parent1, parent2, child1, child2, swap)
}

/// What a crossing at the probability `rate` makes of the variables of two
/// parents. The chance is asked once. Where it hits, the variables at each
/// position that has a domain are crossed; where not, the children keep all
/// the parents' variables. Variables beyond the domains are kept.
pub open spec fn crossing<P, H, M, X, XI, Y, YI>(
    variation: &Variation<P, H, M, X, XI, Y, YI>,
    rate: P,
    definitions: Seq<VariableDefinition<P>>,
    parent1: Seq<Variable<P>>,
    parent2: Seq<Variable<P>>,
    child1: Seq<Variable<P>>,
    child2: Seq<Variable<P>>,
) -> bool where
    H: Fn(&P) -> bool,
    M: Fn(&P, &P) -> P,
    X: Fn(&P, &P, &P, &P) -> (P, P),
    XI: Fn(i64, i64, i64, i64) -> (i64, i64),
    Y: Fn(&P, &P, &P) -> P,
    YI: Fn(i64, i64, i64) -> i64,
 {
    &&& child1.len() == parent1.len()
    &&& child2.len() == parent2.len()
    &&& exists|go: bool| #[trigger]
        call_ensures(variation.chance, (&rate,), go) && forall|i: int|
            0 <= i < definitions.len() ==> if go {
                crossed(
                    variation,
                    definitions[i],
                    parent1[i],
                    parent2[i],
                    #[trigger] child1[i],
                    child2[i],
                )
            } else {
                child1[i] == parent1[i] && child2[i] == parent2[i]
            }
    &&& forall|i: int| definitions.len() <= i < parent1.len() ==> #[trigger] child1[i] == parent1[i]
    &&& forall|i: int| definitions.len() <= i < parent2.len() ==> #[trigger] child2[i] == parent2[i]
}

/// Crosses the variables of two parents at one position where the coin
/// says so, and hands them back as they are where not.
pub fn cross_variable<P: Copy, H, M, X, XI, Y, YI>(
    variation: &Variation<P, H, M, X, XI, Y, YI>,
    definition: VariableDefinition<P>,
    parent1: Variable<P>,
    parent2: Variable<P>,
    swap: bool,
) -> (children: (Variable<P>, Variable<P>)) where
    H: Fn(&P) -> bool,
    M: Fn(&P, &P) -> P,
    X: Fn(&P, &P, &P, &P) -> (P, P),
    XI: Fn(i64, i64, i64, i64) -> (i64, i64),
    Y: Fn(&P, &P, &P) -> P,
    YI: Fn(i64, i64, i64) -> i64,

    requires
        variation.wf(),
        definition matches VariableDefinition::Integer(min, max) ==> min <= max,
    ensures
        swapped(variation, definition, parent1, parent2, children.0, children.1, swap),
{
    if !swap {
        return (parent1, parent2);
    }
    match (definition, parent1, parent2) {
        (VariableDefinition::Float(min, max), Variable::Float(y1), Variable::Float(y2)) => {
            let blend = (variation.blend)(&y1, &y2, &min, &max);
            (Variable::Float(blend.0), Variable::Float(blend.1))
        },
        (VariableDefinition::Integer(min, max), Variable::Integer(y1), Variable::Integer(y2)) => {
            let raw = (variation.blend_integer)(y1, y2, min, max);
            (Variable::Integer(clamp(raw.0, min, max)), Variable::Integer(clamp(raw.1, min, max)))
        },
        (VariableDefinition::Boolean, first, second) => (second, first),
        _ => (parent1, parent2),
    }
}

/// Crosses two parents into two children. The chance is asked once at the
/// probability `crossover_rate`; where it hits, a coin is tossed for each
/// variable, and the variable is crossed as its domain says where the coin
/// says so. In every other respect the children are copies of the parents.
pub fn crossover<P: Copy, H, M, X, XI, Y, YI>(
    variation: &Variation<P, H, M, X, XI, Y, YI>,
    definitions: &Vec<VariableDefinition<P>>,
    crossover_rate: &P,
    parent1: &Solution<P>,
    parent2: &Solution<P>,
) -> (children: (Solution<P>, Solution<P>)) where
    H: Fn(&P) -> bool,
    M: Fn(&P, &P) -> P,
    X: Fn(&P, &P, &P, &P) -> (P, P),
    XI: Fn(i64, i64, i64, i64) -> (i64, i64),
    Y: Fn(&P, &P, &P) -> P,
    YI: Fn(i64, i64, i64) -> i64,

    requires
        variation.wf(),
        valid(definitions@),
        parent1.variables.len() >= definitions.len(),
        parent2.variables.len() >= definitions.len(),
    ensures
        children.0.objectives@ == parent1.objectives@,
        children.1.objectives@ == parent2.objectives@,
        children.0.crowding_distance == parent1.crowding_distance,
        children.1.crowding_distance == parent2.crowding_distance,
        children.0.rank == parent1.rank,
        children.1.rank == parent2.rank,
        crossing(
            variation,
            *crossover_rate,
            definitions@,
            parent1.variables@,
            parent2.variables@,
            children.0.variables@,
            children.1.variables@,
        ),
{
    let mut child1 = copy_solution(parent1);
    let mut child2 = copy_solution(parent2);
    let go = (variation.chance)(crossover_rate);
    assert(call_ensures(variation.chance, (&*crossover_rate,), go));
    if go {
        let mut i: usize = 0;
        while i < definitions.len()
            invariant
                variation.wf(),
                valid(definitions@),
                i <= definitions.len(),
                parent1.variables.len() >= definitions.len(),
                parent2.variables.len() >= definitions.len(),
                child1.variables.len() == parent1.variables.len(),
                child2.variables.len() == parent2.variables.len(),
                child1.objectives@ == parent1.objectives@,
                child2.objectives@ == parent2.objectives@,
                child1.crowding_distance == parent1.crowding_distance,
                child2.crowding_distance == parent2.crowding_distance,
                child1.rank == parent1.rank,
                child2.rank == parent2.rank,
                forall|k: int|
                    0 <= k < i ==> crossed(
                        variation,
                        definitions[k],
                        parent1.variables[k],
                        parent2.variables[k],
                        #[trigger] child1.variables[k],
                        child2.variables[k],
                    ),
                forall|k: int|
                    i <= k < parent1.variables.len() ==> #[trigger] child1.variables[k]
                        == parent1.variables[k],
                forall|k: int|
                    i <= k < parent2.variables.len() ==> #[trigger] child2.variables[k]
                        == parent2.variables[k],
            decreases definitions.len() - i,
        {
            let swap = random_bool();
            let crossed = cross_variable(
                variation,
                definitions[i],
                parent1.variables[i],
                parent2.variables[i],
                swap,
            );
            child1.variables.set(i, crossed.0);
            child2.variables.set(i, crossed.1);
            assert(swapped(
                variation,
                definitions[i as int],
                parent1.variables[i as int],
                parent2.variables[i as int],
                child1.variables[i as int],
                child2.variables[i as int],
                swap,
            ));
            i += 1;
        }
    }
    (child1, child2)
}

/// Where two parents were crossed, the variables at each position that has
/// a domain are what a crossing makes of them.
pub proof fn lemma_crossing_crossed<P, H, M, X, XI, Y, YI>(
    variation: &Variation<P, H, M, X, XI, Y, YI>,
    rate: P,
    definitions: Seq<VariableDefinition<P>>,
    parent1: Seq<Variable<P>>,
    parent2: Seq<Variable<P>>,
    child1: Seq<Variable<P>>,
    child2: Seq<Variable<P>>,
) where
    H: Fn(&P) -> bool,
    M: Fn(&P, &P) -> P,
    X: Fn(&P, &P, &P, &P) -> (P, P),
    XI: Fn(i64, i64, i64, i64) -> (i64, i64),
    Y: Fn(&P, &P, &P) -> P,
    YI: Fn(i64, i64, i64) -> i64,

    requires
        crossing(variation, rate, definitions, parent1, parent2, child1, child2),
    ensures
        forall|i: int|
            0 <= i < definitions.len() ==> crossed(
                variation,
                definitions[i],
                parent1[i],
                parent2[i],
                #[trigger] child1[i],
                child2[i],
            ),
{
    assert forall|i: int| 0 <= i < definitions.len() implies crossed(
        variation,
        definitions[i],
        parent1[i],
        parent2[i],
        #[trigger] child1[i],
        child2[i],
    ) by {
        if child1[i] == parent1[i] && child2[i] == parent2[i] {
            assert(swapped(
                variation,
                definitions[i],
                parent1[i],
                parent2[i],
                child1[i],
                child2[i],
                false,
            ));
        }
    }
}

/// What a mutation makes of one variable once the chance has spoken.
/// Without a hit the variable keeps its value. With one, a number becomes a
/// mutation of the value, an integer is brought into its bounds, and a
/// boolean takes the opposite value; a variable of another kind than its
/// domain keeps its value.
pub open spec fn moved<P, H, M, X, XI, Y, YI>(
    variation: &Variation<P, H, M, X, XI, Y, YI>,
    definition: VariableDefinition<P>,
    before: Variable<P>,
    after: Variable<P>,
    hit: bool,
) -> bool where
    H: Fn(&P) -> bool,
    M: Fn(&P, &P) -> P,
    X: Fn(&P, &P, &P, &P) -> (P, P),
    XI: Fn(i64, i64, i64, i64) -> (i64, i64),
    Y: Fn(&P, &P, &P) -> P,
    YI: Fn(i64, i64, i64) -> i64,
 {
    if hit {
        match (definition, before) {
            (VariableDefinition::Float(min, max), Variable::Float(y)) => after matches Variable::Float(
                z,
            ) && call_ensures(variation.perturb, (&y, &min, &max), z),
            (VariableDefinition::Integer(min, max), Variable::Integer(y)) => exists|raw: i64|
                call_ensures(variation.perturb_integer, (y, min, max), raw) && after
                    == Variable::<P>::Integer(clamped(raw as int, min as int, max as int) as i64),
            (VariableDefinition::Boolean, Variable::Boolean(y)) => after == Variable::<P>::Boolean(
                !y,
            ),
            _ => after == before,
        }
    } else {
        after == before
    }
}

/// What a mutation at the probability `rate` makes of one variable: the
/// chance is asked once, and the variable is moved as its answer says.
pub open spec fn mutated<P, H, M, X, XI, Y, YI>(
    variation: &Variation<P, H, M, X, XI, Y, YI>,
    rate: P,
    definition: VariableDefinition<P>,
    before: Variable<P>,
    after: Variable<P>,
) -> bool where
    H: Fn(&P) -> bool,
    M: Fn(&P, &P) -> P,
    X: Fn(&P, &P, &P, &P) -> (P, P),
    XI: Fn(i64, i64, i64, i64) -> (i64, i64),
    Y: Fn(&P, &P, &P) -> P,
    YI: Fn(i64, i64, i64) -> i64,
 {
    exists|hit: bool| #[trigger]
        call_ensures(variation.chance, (&rate,), hit) && moved(
            variation,
            definition,
            before,
            after,
            hit,
        )
}

/// What a mutation at the probability `rate` makes of the variables of a
/// solution: each one that has a domain is mutated, the others are kept.
pub open spec fn mutating<P, H, M, X, XI, Y, YI>(
    variation: &Variation<P, H, M, X, XI, Y, YI>,
    rate: P,
    definitions: Seq<VariableDefinition<P>>,
    before: Seq<Variable<P>>,
    after: Seq<Variable<P>>,
) -> bool where
    H: Fn(&P) -> bool,
    M: Fn(&P, &P) -> P,
    X: Fn(&P, &P, &P, &P) -> (P, P),
    XI: Fn(i64, i64, i64, i64) -> (i64, i64),
    Y: Fn(&P, &P, &P) -> P,
    YI: Fn(i64, i64, i64) -> i64,
 {
    &&& after.len() == before.len()
    &&& forall|i: int|
        0 <= i < definitions.len() ==> mutated(
            variation,
            rate,
            definitions[i],
            before[i],
            #[trigger] after[i],
        )
    &&& forall|i: int| definitions.len() <= i < before.len() ==> #[trigger] after[i] == before[i]
}

/// Moves one variable where the chance has hit it, and hands it back as it
/// is where not.
pub fn mutate_variable<P: Copy, H, M, X, XI, Y, YI>(
    variation: &Variation<P, H, M, X, XI, Y, YI>,
    definition: VariableDefinition<P>,
    before: Variable<P>,
    hit: bool,
) -> (after: Variable<P>) where
    H: Fn(&P) -> bool,
    M: Fn(&P, &P) -> P,
    X: Fn(&P, &P, &P, &P) -> (P, P),
    XI: Fn(i64, i64, i64, i64) -> (i64, i64),
    Y: Fn(&P, &P, &P) -> P,
    YI: Fn(i64, i64, i64) -> i64,

    requires
        variation.wf(),
        definition matches VariableDefinition::Integer(min, max) ==> min <= max,
    ensures
        moved(variation, definition, before, after, hit),
{
    if !hit {
        return before;
    }
    match (definition, before) {
        (VariableDefinition::Float(min, max), Variable::Float(y)) => {
            Variable::Float((variation.perturb)(&y, &min, &max))
        },
        (VariableDefinition::Integer(min, max), Variable::Integer(y)) => {
            let raw = (variation.perturb_integer)(y, min, max);
            Variable::Integer(clamp(raw, min, max))
        },
        (VariableDefinition::Boolean, Variable::Boolean(y)) => Variable::Boolean(!y),
        _ => before,
    }
}

/// Mutates a solution: for each variable the chance is asked at the
/// probability `mutation_rate`, and the variable is moved where it hits.
/// Nothing but the variables changes.
pub fn mutate<P: Copy, H, M, X, XI, Y, YI>(
    variation: &Variation<P, H, M, X, XI, Y, YI>,
    definitions: &Vec<VariableDefinition<P>>,
    mutation_rate: &P,
    solution: &mut Solution<P>,
) where
    H: Fn(&P) -> bool,
    M: Fn(&P, &P) -> P,
    X: Fn(&P, &P, &P, &P) -> (P, P),
    XI: Fn(i64, i64, i64, i64) -> (i64, i64),
    Y: Fn(&P, &P, &P) -> P,
    YI: Fn(i64, i64, i64) -> i64,

    requires
        variation.wf(),
        valid(definitions@),
        old(solution).variables.len() >= definitions.len(),
    ensures
        final(solution).objectives == old(solution).objectives,
        final(solution).crowding_distance == old(solution).crowding_distance,
        final(solution).rank == old(solution).rank,
        mutating(
            variation,
            *mutation_rate,
            definitions@,
            old(solution).variables@,
            final(solution).variables@,
        ),
{
    let ghost start = *solution;
    let mut i: usize = 0;
    while i < definitions.len()
        invariant
            variation.wf(),
            valid(definitions@),
            i <= definitions.len(),
            start.variables.len() >= definitions.len(),
            solution.variables.len() == start.variables.len(),
            solution.objectives == start.objectives,
            solution.crowding_distance == start.crowding_distance,
            solution.rank == start.rank,
            forall|k: int|
                0 <= k < i ==> mutated(
                    variation,
                    *mutation_rate,
                    definitions[k],
                    start.variables[k],
                    #[trigger] solution.variables[k],
                ),
            forall|k: int|
                i <= k < start.variables.len() ==> #[trigger] solution.variables[k]
                    == start.variables[k],
        decreases definitions.len() - i,
    {
        let hit = (variation.chance)(mutation_rate);
        let after = mutate_variable(variation, definitions[i], solution.variables[i], hit);
        solution.variables.set(i, after);
        assert(call_ensures(variation.chance, (&*mutation_rate,), hit));
        i += 1;
    }
}

/// Crossing keeps variables within their domains.
pub proof fn lemma_crossed_fits<P, H, M, X, XI, Y, YI>(
    variation: &Variation<P, H, M, X, XI, Y, YI>,
    definition: VariableDefinition<P>,
    parent1: Variable<P>,
    parent2: Variable<P>,
    child1: Variable<P>,
    child2: Variable<P>,
) where
    H: Fn(&P) -> bool,
    M: Fn(&P, &P) -> P,
    X: Fn(&P, &P, &P, &P) -> (P, P),
    XI: Fn(i64, i64, i64, i64) -> (i64, i64),
    Y: Fn(&P, &P, &P) -> P,
    YI: Fn(i64, i64, i64) -> i64,

    requires
        crossed(variation, definition, parent1, parent2, child1, child2),
        parent1.fits(definition),
        parent2.fits(definition),
        definition matches VariableDefinition::Integer(min, max) ==> min <= max,
    ensures
        child1.fits(definition),
        child2.fits(definition),
{
}

/// Mutation keeps a variable within its domain.
pub proof fn lemma_mutated_fits<P, H, M, X, XI, Y, YI>(
    variation: &Variation<P, H, M, X, XI, Y, YI>,
    rate: P,
    definition: VariableDefinition<P>,
    before: Variable<P>,
    after: Variable<P>,
) where
    H: Fn(&P) -> bool,
    M: Fn(&P, &P) -> P,
    X: Fn(&P, &P, &P, &P) -> (P, P),
    XI: Fn(i64, i64, i64, i64) -> (i64, i64),
    Y: Fn(&P, &P, &P) -> P,
    YI: Fn(i64, i64, i64) -> i64,

    requires
        mutated(variation, rate, definition, before, after),
        before.fits(definition),
        definition matches VariableDefinition::Integer(min, max) ==> min <= max,
    ensures
        after.fits(definition),
{
}

/// With moves that keep numbers within their bounds, random values lie
/// within their domains.
pub proof fn lemma_sampled_within<P, H, M, X, XI, Y, YI, L: Fn(&P, &P) -> bool>(
    variation: &Variation<P, H, M, X, XI, Y, YI>,
    less: L,
    definitions: Seq<VariableDefinition<P>>,
    variables: Seq<Variable<P>>,
) where
    H: Fn(&P) -> bool,
    M: Fn(&P, &P) -> P,
    X: Fn(&P, &P, &P, &P) -> (P, P),
    XI: Fn(i64, i64, i64, i64) -> (i64, i64),
    Y: Fn(&P, &P, &P) -> P,
    YI: Fn(i64, i64, i64) -> i64,

    requires
        variation.bounded(less),
        sampled(variation.sample, definitions, variables),
    ensures
        all_within(less, variables, definitions),
{
    assert forall|i: int| 0 <= i < definitions.len() implies within(
        less,
        #[trigger] variables[i],
        definitions[i],
    ) by {
        assert(variables[i].fits(definitions[i]));
    }
}

/// With moves that keep numbers within their bounds, the children of
/// parents within the domains lie within the domains.
pub proof fn lemma_crossing_within<P, H, M, X, XI, Y, YI, L: Fn(&P, &P) -> bool>(
    variation: &Variation<P, H, M, X, XI, Y, YI>,
    less: L,
    rate: P,
    definitions: Seq<VariableDefinition<P>>,
    parent1: Seq<Variable<P>>,
    parent2: Seq<Variable<P>>,
    child1: Seq<Variable<P>>,
    child2: Seq<Variable<P>>,
) where
    H: Fn(&P) -> bool,
    M: Fn(&P, &P) -> P,
    X: Fn(&P, &P, &P, &P) -> (P, P),
    XI: Fn(i64, i64, i64, i64) -> (i64, i64),
    Y: Fn(&P, &P, &P) -> P,
    YI: Fn(i64, i64, i64) -> i64,

    requires
        variation.bounded(less),
        valid(definitions),
        all_within(less, parent1, definitions),
        all_within(less, parent2, definitions),
        crossing(variation, rate, definitions, parent1, parent2, child1, child2),
    ensures
        all_within(less, child1, definitions),
        all_within(less, child2, definitions),
{
    lemma_crossing_crossed(variation, rate, definitions, parent1, parent2, child1, child2);
    assert forall|i: int| 0 <= i < definitions.len() implies within(
        less,
        #[trigger] child1[i],
        definitions[i],
    ) && within(less, child2[i], definitions[i]) by {
        assert(within(less, parent1[i], definitions[i]));
        assert(within(less, parent2[i], definitions[i]));
        assert(crossed(variation, definitions[i], parent1[i], parent2[i], child1[i], child2[i]));
    }
    assert forall|i: int| 0 <= i < definitions.len() implies within(
        less,
        #[trigger] child2[i],
        definitions[i],
    ) by {
        assert(within(less, child1[i], definitions[i]) && within(less, child2[i], definitions[i]));
    }
}

/// With moves that keep numbers within their bounds, a mutation of
/// variables within the domains lies within the domains.
pub proof fn lemma_mutating_within<P, H, M, X, XI, Y, YI, L: Fn(&P, &P) -> bool>(
    variation: &Variation<P, H, M, X, XI, Y, YI>,
    less: L,
    rate: P,
    definitions: Seq<VariableDefinition<P>>,
    before: Seq<Variable<P>>,
    after: Seq<Variable<P>>,
) where
    H: Fn(&P) -> bool,
    M: Fn(&P, &P) -> P,
    X: Fn(&P, &P, &P, &P) -> (P, P),
    XI: Fn(i64, i64, i64, i64) -> (i64, i64),
    Y: Fn(&P, &P, &P) -> P,
    YI: Fn(i64, i64, i64) -> i64,

    requires
        variation.bounded(less),
        valid(definitions),
        all_within(less, before, definitions),
        mutating(variation, rate, definitions, before, after),
    ensures
        all_within(less, after, definitions),
{
    assert forall|i: int| 0 <= i < definitions.len() implies within(
        less,
        #[trigger] after[i],
        definitions[i],
    ) by {
        assert(within(less, before[i], definitions[i]));
        assert(mutated(variation, rate, definitions[i], before[i], after[i]));
    }
}

/// A random value for every domain: a number from the caller's sampling, an
/// integer within its bounds, or a boolean.
pub fn random_variables<P: Copy, M: Fn(&P, &P) -> P>(
    sample: &M,
    definitions: &Vec<VariableDefinition<P>>,
) -> (variables: Vec<Variable<P>>)
    requires
        forall|a: P, b: P| call_requires(*sample, (&a, &b)),
        valid(definitions@),
    ensures
        sampled(*sample, definitions@, variables@),
{
    let mut variables: Vec<Variable<P>> = Vec::with_capacity(definitions.len());
    let mut i: usize = 0;
    while i < definitions.len()
        invariant
            forall|a: P, b: P| call_requires(*sample, (&a, &b)),
            valid(definitions@),
            i <= definitions.len(),
            variables.len() == i,
            forall|k: int| 0 <= k < i ==> (#[trigger] variables[k]).fits(definitions[k]),
            forall|k: int|
                0 <= k < i ==> (definitions[k] matches VariableDefinition::Float(min, max)
                    ==> #[trigger] variables[k] matches Variable::Float(v) && call_ensures(
                    *sample,
                    (&min, &max),
                    v,
                )),
        decreases definitions.len() - i,
    {
        let variable = match definitions[i] {
            VariableDefinition::Float(min, max) => Variable::Float(sample(&min, &max)),
            VariableDefinition::Integer(min, max) => Variable::Integer(random_between(min, max)),
            VariableDefinition::Boolean => Variable::Boolean(random_bool()),
        };
        variables.push(variable);
        i += 1;
    }
    variables
}

} // verus!
