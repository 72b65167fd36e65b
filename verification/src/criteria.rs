//! Boolean trading signals derived from two series of numbers.
use vstd::prelude::*;
use crate::arithmetic::Arithmetic;

verus! {

/// Where a comparison changes: at position `i >= 1` the crossing is up when
/// the comparison is false at `i - 1` and true at `i`, and down when it is
/// true at `i - 1` and false at `i`. Position 0 has no earlier sample and is
/// never a crossing.
pub open spec fn crossings(compare: Seq<bool>, up: bool) -> Seq<bool> {
    Seq::new(
        compare.len(),
        |i: int|
            i >= 1 && if up {
                !compare[i - 1] && compare[i]
            } else {
                compare[i - 1] && !compare[i]
            },
    )
}

/// Position by position, whether the first series is above the second; false
/// where the second series has ended.
pub open spec fn above<P, A, S, D, L, C>(
    ops: &Arithmetic<P, A, S, D, L, C>,
    first: Seq<P>,
    second: Seq<P>,
) -> Seq<bool> where
    A: Fn(&P, &P) -> P,
    S: Fn(&P, &P) -> P,
    D: Fn(&P, &P) -> P,
    L: Fn(&P, &P) -> bool,
    C: Fn(i64) -> P,
 {
    Seq::new(first.len(), |i: int| i < second.len() && ops.lt(second[i], first[i]))
}

/// The positions at which a comparison changes in one direction.
#[derive(Debug, Clone)]
pub struct CrossCriterion {
    pub values: Vec<bool>,
}

/// Position by position, whether one series is above another.
#[derive(Debug, Clone)]
pub struct CompareCriterion {
    pub values: Vec<bool>,
}

/// A boolean signal of either kind.
#[derive(Debug, Clone)]
pub enum Criterion {
    Cross(CrossCriterion),
    Compare(CompareCriterion),
}

/// The values of a signal of either kind.
pub open spec fn signal(criterion: Criterion) -> Seq<bool> {
    match criterion {
        Criterion::Cross(criterion) => criterion.values@,
        Criterion::Compare(criterion) => criterion.values@,
    }
}

/// What every signal offers: its values, one per candlestick.
pub trait CriterionTrait {
    /// The values of the signal.
    spec fn series(&self) -> Seq<bool>;

    fn get_values(&self) -> (values: &Vec<bool>)
        ensures
            values@ == self.series(),
    ;

    fn is_empty(&self) -> (empty: bool)
        ensures
            empty == (self.series().len() == 0),
    ;
}

impl CrossCriterion {
    /// The crossings of a signal: upwards where `cross_side` is true,
    /// downwards otherwise.
    pub fn new_from(compare_criterion: &Criterion, cross_side: bool) -> (cross: CrossCriterion)
        ensures
            cross.values@ == crossings(compare_criterion.series(), cross_side),
    {
        let compare = compare_criterion.get_values();
        let size = compare.len();
        let mut values: Vec<bool> = Vec::with_capacity(size);
        if size > 0 {
            values.push(false);
        }
        let mut i: usize = 1;
        while i < size
            invariant
                size == compare.len(),
                compare@ == compare_criterion.series(),
                size > 0 ==> 1 <= i <= size,
                size > 0 ==> values.len() == i,
                size == 0 ==> values.len() == 0,
                forall|k: int|
                    0 <= k < values.len() ==> values[k] == crossings(compare@, cross_side)[k],
            decreases size - i,
        {
            let change = if cross_side {
                !compare[i - 1] && compare[i]
            } else {
                compare[i - 1] && !compare[i]
            };
            values.push(change);
            i += 1;
        }
        assert(values@ =~= crossings(compare@, cross_side));
        CrossCriterion { values }
    }
}

impl CompareCriterion {
    /// Compares two series position by position: the value is true where the
    /// number of `vec1` is greater than the number of `vec2`. The signal is as
    /// long as `vec1`; where `vec2` has ended it is false.
    pub fn new<P, A, S, D, L, C>(
        vec1: &Vec<P>,
        vec2: &Vec<P>,
        ops: &Arithmetic<P, A, S, D, L, C>,
    ) -> (compare: CompareCriterion) where
        A: Fn(&P, &P) -> P,
        S: Fn(&P, &P) -> P,
        D: Fn(&P, &P) -> P,
        L: Fn(&P, &P) -> bool,
        C: Fn(i64) -> P,

        requires
            ops.wf(),
        ensures
            compare.values@ == above(ops, vec1@, vec2@),
    {
        let size = vec1.len();
        let mut values: Vec<bool> = Vec::with_capacity(size);
        let mut i: usize = 0;
        while i < size
            invariant
                ops.wf(),
                size == vec1.len(),
                i <= size,
                values.len() == i,
                forall|k: int| 0 <= k < i ==> values[k] == above(ops, vec1@, vec2@)[k],
            decreases size - i,
        {
            let value = if i < vec2.len() {
                ops.below(&vec2[i], &vec1[i])
            } else {
                false
            };
            values.push(value);
            i += 1;
        }
        assert(values@ =~= above(ops, vec1@, vec2@));
        CompareCriterion { values }
    }
}

impl CriterionTrait for CrossCriterion {
    open spec fn series(&self) -> Seq<bool> {
        self.values@
    }

    fn get_values(&self) -> (values: &Vec<bool>) {
        &self.values
    }

    fn is_empty(&self) -> (empty: bool) {
        self.values.len() == 0
    }
}

impl CriterionTrait for CompareCriterion {
    open spec fn series(&self) -> Seq<bool> {
        self.values@
    }

    fn get_values(&self) -> (values: &Vec<bool>) {
        &self.values
    }

    fn is_empty(&self) -> (empty: bool) {
        self.values.len() == 0
    }
}

impl CriterionTrait for Criterion {
    open spec fn series(&self) -> Seq<bool> {
        signal(*self)
    }

    fn get_values(&self) -> (values: &Vec<bool>) {
        match self {
            Criterion::Cross(criterion) => criterion.get_values(),
            Criterion::Compare(criterion) => criterion.get_values(),
        }
    }

    fn is_empty(&self) -> (empty: bool) {
        match self {
            Criterion::Cross(criterion) => criterion.is_empty(),
            Criterion::Compare(criterion) => criterion.is_empty(),
        }
    }
}

/// An upward crossing and a downward crossing never fall on the same
/// position, and the comparison differs from its earlier value exactly at the
/// positions that hold one of them.
pub proof fn lemma_crossings_mark_changes(compare: Seq<bool>, i: int)
    requires
        0 <= i < compare.len(),
    ensures
        !(crossings(compare, true)[i] && crossings(compare, false)[i]),
        i == 0 ==> !crossings(compare, true)[i] && !crossings(compare, false)[i],
        i >= 1 ==> ((crossings(compare, true)[i] || crossings(compare, false)[i]) <==> compare[i]
            != compare[i - 1]),
        i >= 1 ==> (crossings(compare, true)[i] <==> !compare[i - 1] && compare[i]),
        i >= 1 ==> (crossings(compare, false)[i] <==> compare[i - 1] && !compare[i]),
{
}

} // verus!
