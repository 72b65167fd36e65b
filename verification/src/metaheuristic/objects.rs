//! Variables, their domains and candidate solutions.
use vstd::prelude::*;

verus! {

/// The value of one variable of the optimization problem.
#[derive(Clone, Copy, Debug)]
pub enum Variable<P> {
    Float(P),
    Integer(i64),
    Boolean(bool),
}

/// The domain of one variable: the bounds of a number, or a boolean.
#[derive(Clone, Copy, Debug)]
pub enum VariableDefinition<P> {
    Float(P, P),
    Integer(i64, i64),
    Boolean,
}

/// A candidate solution: its variables, the objectives it was evaluated to
/// (smaller is better), and what the optimizer ranks it by.
#[derive(Clone, Debug)]
pub struct Solution<P> {
    pub variables: Vec<Variable<P>>,
    pub objectives: Vec<P>,
    pub crowding_distance: P,
    pub rank: usize,
}

impl<P> Variable<P> {
    /// Whether the value is of the kind that the domain asks for and, for an
    /// integer, within its bounds.
    pub open spec fn fits(self, definition: VariableDefinition<P>) -> bool {
        match (definition, self) {
            (VariableDefinition::Float(_, _), Variable::Float(_)) => true,
            (VariableDefinition::Integer(min, max), Variable::Integer(value)) => min <= value
                <= max,
            (VariableDefinition::Boolean, Variable::Boolean(_)) => true,
            _ => false,
        }
    }
}

impl<P> Solution<P> {
    /// A solution of rank 0 with the given crowding distance.
    pub fn new(variables: Vec<Variable<P>>, objectives: Vec<P>, crowding_distance: P) -> (s: Self)
        ensures
            s.variables == variables,
            s.objectives == objectives,
            s.crowding_distance == crowding_distance,
            s.rank == 0,
    {
        Solution { variables, objectives, crowding_distance, rank: 0 }
    }

    /// Whether two solutions differ at most in their rank.
    pub open spec fn same_but_rank(self, other: Self) -> bool {
        &&& self.variables == other.variables
        &&& self.objectives == other.objectives
        &&& self.crowding_distance == other.crowding_distance
    }
}

} // verus!
