//! Inferable types and the equality constraints between them.

use vstd::prelude::*;
use crate::pos::Spanned;
use crate::shared::Type;

verus! {

/// The identifier of a type variable: its index in the unification table.
pub type VarId = usize;

/// A type that inference may still have to find.
#[derive(Clone, Copy, Debug, PartialEq, Eq)]
pub enum InferType {
    /// A placeholder that unification will bind.
    Variable(VarId),
    /// A known type, with the span that justifies it.
    Resolved(Spanned<Type>),
}

/// The obligation that two inferable types are the same concrete type.
#[derive(Clone, Copy, Debug, PartialEq, Eq)]
pub struct Constraint(pub InferType, pub InferType);

/// Constraints in the order in which the program text gives rise to them.
#[derive(Clone, Debug, PartialEq, Eq)]
pub struct Constraints {
    pub list: Vec<Constraint>,
}

impl View for Constraints {
    type V = Seq<Constraint>;

    open spec fn view(&self) -> Seq<Constraint> {
        self.list@
    }
}

impl Constraints {
    /// No constraints.
    pub fn empty() -> (constraints: Constraints)
        ensures
            constraints@ == Seq::<Constraint>::empty(),
    {
        Constraints { list: Vec::new() }
    }

    /// These constraints followed by `constraint`.
    pub fn and(self, constraint: Constraint) -> (constraints: Constraints)
        ensures
            constraints@ == self@.push(constraint),
    {
        let mut list = self.list;
        list.push(constraint);
        Constraints { list }
    }

    /// Appends `other`, keeping the order of both.
    pub fn append(&mut self, other: Constraints)
        ensures
            final(self)@ == old(self)@ + other@,
    {
        let mut tail = other.list;
        self.list.append(&mut tail);
    }

    /// How many constraints there are.
    pub fn len(&self) -> (len: usize)
        ensures
            len == self@.len(),
    {
        self.list.len()
    }

    /// The constraint at `index`, if there is one.
    pub fn get(&self, index: usize) -> (constraint: Option<Constraint>)
        ensures
            constraint == (if index < self@.len() {
                Some(self@[index as int])
            } else {
                None
            }),
    {
        if index < self.list.len() {
            Some(self.list[index])
        } else {
            None
        }
    }
}

} // verus!
