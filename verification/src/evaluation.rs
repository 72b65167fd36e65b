//! What the evaluation of a strategy is made of: the variables of each
//! indicator, the objectives counted from a signal, and the choice of the
//! optimizer.
use vstd::prelude::*;
use vstd::string::*;
use crate::arithmetic::Arithmetic;
use crate::metaheuristic::descent::MultiObjectiveDescent;
use crate::metaheuristic::nsga2::NSGAII;
use crate::metaheuristic::objects::Variable;
use crate::text::spells;

verus! {

/// An optimizer of either kind.
#[derive(Clone, Debug)]
pub enum Metaheuristic<P> {
    NSGAII(NSGAII<P>),
    MultiObjectiveDescent(MultiObjectiveDescent<P>),
}

/// The position at which the variables of part `k` begin: behind those of
/// the parts before it.
pub open spec fn offset(lengths: Seq<usize>, k: int) -> int
    decreases k,
{
    if k <= 0 {
        0
    } else {
        offset(lengths, k - 1) + lengths[k - 1]
    }
}

/// The offsets do not fall.
pub proof fn lemma_offsets_rise(lengths: Seq<usize>, i: int, j: int)
    requires
        0 <= i <= j <= lengths.len(),
    ensures
        0 <= offset(lengths, i) <= offset(lengths, j),
    decreases j,
{
    if i < j {
        lemma_offsets_rise(lengths, i, j - 1);
    } else if i > 0 {
        lemma_offsets_rise(lengths, i - 1, i - 1);
        lemma_offsets_rise(lengths, 0, i - 1);
    }
}

/// Splits the variables of a solution into the parts of the indicators: part
/// `k` holds `lengths[k]` variables and begins where part `k - 1` ends.
pub fn partition<P: Copy>(variables: &Vec<Variable<P>>, lengths: &Vec<usize>) -> (parts: Vec<
    Vec<Variable<P>>,
>)
    requires
        offset(lengths@, lengths.len() as int) <= variables.len(),
    ensures
        parts.len() == lengths.len(),
        forall|k: int|
            0 <= k < parts.len() ==> (#[trigger] parts[k])@ == variables@.subrange(
                offset(lengths@, k),
                offset(lengths@, k + 1),
            ),
{
    let mut parts: Vec<Vec<Variable<P>>> = Vec::with_capacity(lengths.len());
    let mut begin: usize = 0;
    let mut k: usize = 0;
    while k < lengths.len()
        invariant
            offset(lengths@, lengths.len() as int) <= variables.len(),
            k <= lengths.len(),
            begin == offset(lengths@, k as int),
            parts.len() == k,
            forall|t: int|
                0 <= t < k ==> (#[trigger] parts[t])@ == variables@.subrange(
                    offset(lengths@, t),
                    offset(lengths@, t + 1),
                ),
        decreases lengths.len() - k,
    {
        proof {
            lemma_offsets_rise(lengths@, k + 1, lengths.len() as int);
        }
        let end = begin + lengths[k];
        let mut part: Vec<Variable<P>> = Vec::with_capacity(lengths[k]);
        let mut j: usize = begin;
        while j < end
            invariant
                begin <= j <= end,
                end <= variables.len(),
                part@ == variables@.subrange(begin as int, j as int),
            decreases end - j,
        {
            part.push(variables[j]);
            assert(part@ =~= variables@.subrange(begin as int, j + 1));
            j += 1;
        }
        parts.push(part);
        begin = end;
        k += 1;
    }
    parts
}

/// The number of positions at which a signal is true.
pub open spec fn trues(values: Seq<bool>) -> int
    decreases values.len(),
{
    if values.len() == 0 {
        0
    } else {
        trues(values.drop_last()) + if values.last() {
            1int
        } else {
            0int
        }
    }
}

/// The count is at most the length.
pub proof fn lemma_trues_bound(values: Seq<bool>)
    ensures
        0 <= trues(values) <= values.len(),
    decreases values.len(),
{
    if values.len() > 0 {
        lemma_trues_bound(values.drop_last());
    }
}

/// Counts the positions at which a signal is true.
pub fn count_true(values: &Vec<bool>) -> (count: usize)
    ensures
        count == trues(values@),
{
    let mut count: usize = 0;
    let mut i: usize = 0;
    while i < values.len()
        invariant
            i <= values.len(),
            count <= i,
            count == trues(values@.subrange(0, i as int)),
        decreases values.len() - i,
    {
        proof {
            assert(values@.subrange(0, i + 1).drop_last() =~= values@.subrange(0, i as int));
        }
        if values[i] {
            count += 1;
        }
        i += 1;
    }
    assert(values@.subrange(0, i as int) =~= values@);
    count
}

/// The objectives of a strategy whose first signal is given: the number of
/// positions at which the signal is true, then two zeros.
pub fn objectives_of<P: Copy, A, S, D, L, C>(
    ops: &Arithmetic<P, A, S, D, L, C>,
    signal: &Vec<bool>,
) -> (objectives: Vec<P>) where
    A: Fn(&P, &P) -> P,
    S: Fn(&P, &P) -> P,
    D: Fn(&P, &P) -> P,
    L: Fn(&P, &P) -> bool,
    C: Fn(i64) -> P,

    requires
        ops.wf(),
        signal.len() <= i64::MAX,
    ensures
        objectives@ == seq![ops.number(trues(signal@) as i64), ops.number(0), ops.number(0)],
{
    proof {
        lemma_trues_bound(signal@);
    }
    let count = count_true(signal);
    let mut objectives: Vec<P> = Vec::with_capacity(3);
    objectives.push(ops.count(count as i64));
    objectives.push(ops.count(0));
    objectives.push(ops.count(0));
    assert(objectives@ =~= seq![
        ops.number(trues(signal@) as i64),
        ops.number(0),
        ops.number(0),
    ]);
    objectives
}

/// The optimizer of the given name, where it could be made: an error that
/// names the optimizer that could not be made, or that says that the name is
/// unknown.
pub fn choose_algorithm<P>(
    algorithm_name: &str,
    nsga2: Result<NSGAII<P>, String>,
    descent: Result<MultiObjectiveDescent<P>, String>,
) -> (chosen: Result<Metaheuristic<P>, String>)
    ensures
        algorithm_name@ == "NSGA-II"@ ==> match nsga2 {
            Ok(algorithm) => chosen == Ok::<Metaheuristic<P>, String>(
                Metaheuristic::NSGAII(algorithm),
            ),
            Err(_) => chosen matches Err(message) && message@
                == "Error creating NSGA-II algorithm"@,
        },
        algorithm_name@ != "NSGA-II"@ && algorithm_name@ == "Multi-Objective Simple Descent"@
            ==> match descent {
            Ok(algorithm) => chosen == Ok::<Metaheuristic<P>, String>(
                Metaheuristic::MultiObjectiveDescent(algorithm),
            ),
            Err(_) => chosen matches Err(message) && message@
                == "Error creating Multi-Objective Simple Descent algorithm"@,
        },
        algorithm_name@ != "NSGA-II"@ && algorithm_name@ != "Multi-Objective Simple Descent"@
            ==> (chosen matches Err(message) && message@ == "Unknown algorithm"@),
{
    let name = String::from_str(algorithm_name);
    if spells(&name, "NSGA-II") {
        match nsga2 {
            Ok(algorithm) => Ok(Metaheuristic::NSGAII(algorithm)),
            Err(_) => Err(String::from_str("Error creating NSGA-II algorithm")),
        }
    } else if spells(&name, "Multi-Objective Simple Descent") {
        match descent {
            Ok(algorithm) => Ok(Metaheuristic::MultiObjectiveDescent(algorithm)),
            Err(_) => Err(
                String::from_str("Error creating Multi-Objective Simple Descent algorithm"),
            ),
        }
    } else {
        Err(String::from_str("Unknown algorithm"))
    }
}

} // verus!
