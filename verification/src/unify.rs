//! The unification table: an arena of type variables kept as a union-find
//! forest in which every link points from a higher index to a lower one.

use vstd::prelude::*;
use crate::infer::{Constraint, Constraints, InferType, VarId};
use crate::pos::Spanned;
use crate::shared::{Type, TypeError};

verus! {

/// What is known of one type variable: the least variable it has been
/// unified with, and the concrete type of its class, if it has one.
pub struct Class {
    pub rep: int,
    pub ty: Option<Spanned<Type>>,
}

/// The mathematical content of a unification table: one `Class` per variable.
pub struct TableView {
    pub vars: Seq<Class>,
}

impl TableView {
    /// The table without variables.
    pub open spec fn empty() -> TableView {
        TableView { vars: Seq::empty() }
    }

    /// The number of variables allocated so far.
    pub open spec fn len(self) -> nat {
        self.vars.len()
    }

    /// Whether every variable that `ty` mentions belongs to this table.
    pub open spec fn knows(self, ty: InferType) -> bool {
        ty matches InferType::Variable(v) ==> v < self.vars.len()
    }

    /// The representative of the class of `v`.
    pub open spec fn rep(self, v: int) -> int {
        self.vars[v].rep
    }

    /// The concrete type `v` is bound to; `None` while it is free, and for
    /// a variable this table never allocated.
    pub open spec fn resolve(self, v: int) -> Option<Spanned<Type>> {
        if 0 <= v < self.vars.len() {
            self.vars[v].ty
        } else {
            None
        }
    }

    /// The concrete type that `ty` stands for, as far as it is known.
    pub open spec fn ty_of(self, ty: InferType) -> Option<Spanned<Type>> {
        match ty {
            InferType::Variable(v) => self.resolve(v as int),
            InferType::Resolved(concrete) => Some(concrete),
        }
    }

    /// Whether `v` is in the class of the variable `of`; false when `of`
    /// is no variable.
    pub open spec fn in_class(self, v: int, of: InferType) -> bool {
        of matches InferType::Variable(u) && self.vars[v].rep == self.vars[u as int].rep
    }

    /// The representative of the class that joining `a` and `b` gives:
    /// the lower of their representatives.
    pub open spec fn target(self, a: InferType, b: InferType) -> int {
        match (a, b) {
            (InferType::Variable(u), InferType::Variable(w)) => if self.rep(u as int) <= self.rep(
                w as int,
            ) {
                self.rep(u as int)
            } else {
                self.rep(w as int)
            },
            (InferType::Variable(u), InferType::Resolved(_)) => self.rep(u as int),
            (InferType::Resolved(_), InferType::Variable(w)) => self.rep(w as int),
            (InferType::Resolved(_), InferType::Resolved(_)) => 0,
        }
    }

    /// The table in which the classes of `a` and `b` are one class whose
    /// type is `ty`; every other variable is as before.
    pub open spec fn join(self, a: InferType, b: InferType, ty: Option<Spanned<Type>>) -> TableView {
        TableView {
            vars: Seq::new(
                self.vars.len(),
                |v: int|
                    if self.in_class(v, a) || self.in_class(v, b) {
                        Class { rep: self.target(a, b), ty }
                    } else {
                        self.vars[v]
                    },
            ),
        }
    }

    /// What unifying `a` with `b` does. Two known types with different
    /// nodes are a mismatch, reported with `a`'s type on the left.
    /// Otherwise the two classes are joined, under the type of `a` if it
    /// has one, else under that of `b`.
    pub open spec fn unify(self, a: InferType, b: InferType) -> Result<TableView, TypeError> {
        match (self.ty_of(a), self.ty_of(b)) {
            (Some(left), Some(right)) => if left.node == right.node {
                Ok(self.join(a, b, Some(left)))
            } else {
                Err(TypeError::Mismatch { left, right })
            },
            (Some(left), None) => Ok(self.join(a, b, Some(left))),
            (None, Some(right)) => Ok(self.join(a, b, Some(right))),
            (None, None) => Ok(self.join(a, b, None)),
        }
    }

    /// The table with one more variable, free and alone in its class.
    pub open spec fn fresh(self) -> TableView {
        TableView { vars: self.vars.push(Class { rep: self.vars.len() as int, ty: None }) }
    }

    /// The table after `count` further variables were allocated.
    pub open spec fn grown(self, count: nat) -> TableView
        decreases count,
    {
        if count == 0 {
            self
        } else {
            self.grown((count - 1) as nat).fresh()
        }
    }

    /// Growing by `more` after growing by `count` is growing by both; each
    /// new variable adds one to the length.
    pub proof fn lemma_grown(self, count: nat, more: nat)
        ensures
            self.grown(count).grown(more) == self.grown(count + more),
            self.grown(count).len() == self.len() + count,
            self.grown(count + 1) == self.grown(count).fresh(),
        decreases more, count,
    {
        if more > 0 {
            self.lemma_grown(count, (more - 1) as nat);
        }
        if count > 0 {
            self.lemma_grown((count - 1) as nat, 0);
        }
    }

    /// What solving `constraints` in order does: the first mismatch ends it.
    pub open spec fn solve(self, constraints: Seq<Constraint>) -> Result<TableView, TypeError>
        decreases constraints.len(),
    {
        if constraints.len() == 0 {
            Ok(self)
        } else {
            match self.unify(constraints[0].0, constraints[0].1) {
                Ok(next) => next.solve(constraints.skip(1)),
                Err(error) => Err(error),
            }
        }
    }

    /// Whether every constraint mentions only variables of this table.
    pub open spec fn knows_all(self, constraints: Seq<Constraint>) -> bool {
        forall|i: int|
            0 <= i < constraints.len() ==> self.knows(#[trigger] constraints[i].0) && self.knows(
                constraints[i].1,
            )
    }

    /// Whether `a` and `b` are known to be one type: two variables of one
    /// class, a variable bound to a type with the node of the known type,
    /// or two known types with the same node.
    pub open spec fn unified(self, a: InferType, b: InferType) -> bool {
        match (a, b) {
            (InferType::Variable(u), InferType::Variable(w)) => self.rep(u as int) == self.rep(
                w as int,
            ),
            (InferType::Variable(u), InferType::Resolved(known)) => self.resolve(u as int)
                matches Some(bound) && bound.node == known.node,
            (InferType::Resolved(known), InferType::Variable(w)) => self.resolve(w as int)
                matches Some(bound) && bound.node == known.node,
            (InferType::Resolved(left), InferType::Resolved(right)) => left.node == right.node,
        }
    }

    /// The shape every table has: a representative is the least member of
    /// its class, represents itself, and shares its type with the class.
    pub open spec fn wf(self) -> bool {
        &&& self.vars.len() <= usize::MAX
        &&& forall|v: int|
            0 <= v < self.vars.len() ==> {
                &&& 0 <= #[trigger] self.rep(v) <= v
                &&& self.rep(self.rep(v)) == self.rep(v)
                &&& self.resolve(self.rep(v)) == self.resolve(v)
            }
    }
}

/// One cell of the arena.
#[derive(Clone, Copy, Debug)]
enum Slot {
    /// The representative of a class, with the type of the class.
    Root(Option<Spanned<Type>>),
    /// A variable unified with the variable at a lower index.
    Link(usize),
}

/// Every link points to a lower index.
spec fn links_descend(slots: Seq<Slot>) -> bool {
    forall|v: int| 0 <= v < slots.len() ==> (#[trigger] slots[v] matches Slot::Link(p) ==> p < v)
}

/// The root that the links lead to from `v`.
spec fn root_of(slots: Seq<Slot>, v: int) -> int
    decreases v,
{
    if 0 <= v < slots.len() {
        match slots[v] {
            Slot::Link(p) => if p < v {
                root_of(slots, p as int)
            } else {
                v
            },
            Slot::Root(_) => v,
        }
    } else {
        v
    }
}

/// The type stored at the root of `v`.
spec fn binding(slots: Seq<Slot>, v: int) -> Option<Spanned<Type>> {
    match slots[root_of(slots, v)] {
        Slot::Root(ty) => ty,
        Slot::Link(_) => None,
    }
}

spec fn view_of(slots: Seq<Slot>) -> TableView {
    TableView {
        vars: Seq::new(
            slots.len(),
            |v: int| Class { rep: root_of(slots, v), ty: binding(slots, v) },
        ),
    }
}

proof fn lemma_root(slots: Seq<Slot>, v: int)
    requires
        links_descend(slots),
        0 <= v < slots.len(),
    ensures
        0 <= root_of(slots, v) <= v,
        slots[root_of(slots, v)] is Root,
        root_of(slots, root_of(slots, v)) == root_of(slots, v),
    decreases v,
{
    if let Slot::Link(p) = slots[v] {
        lemma_root(slots, p as int);
    }
}

/// Roots depend only on the slots at or below the variable.
proof fn lemma_same_prefix(s1: Seq<Slot>, s2: Seq<Slot>, v: int)
    requires
        0 <= v < s1.len(),
        v < s2.len(),
        forall|i: int| 0 <= i <= v ==> s1[i] == s2[i],
    ensures
        root_of(s1, v) == root_of(s2, v),
    decreases v,
{
    if let Slot::Link(p) = s1[v] {
        if p < v {
            lemma_same_prefix(s1, s2, p as int);
        }
    }
}

/// Changing what a root holds moves no variable to another root.
proof fn lemma_rebind(slots: Seq<Slot>, r: int, ty: Option<Spanned<Type>>, v: int)
    requires
        links_descend(slots),
        0 <= r < slots.len(),
        slots[r] is Root,
        0 <= v < slots.len(),
    ensures
        root_of(slots.update(r, Slot::Root(ty)), v) == root_of(slots, v),
    decreases v,
{
    if let Slot::Link(p) = slots[v] {
        lemma_rebind(slots, r, ty, p as int);
    }
}

/// Linking the root `hi` to the lower root `lo` moves the class of `hi`,
/// and nothing else, under `lo`.
proof fn lemma_link(slots: Seq<Slot>, hi: usize, lo: usize, v: int)
    requires
        links_descend(slots),
        lo < hi < slots.len(),
        slots[hi as int] is Root,
        slots[lo as int] is Root,
        0 <= v < slots.len(),
    ensures
        root_of(slots.update(hi as int, Slot::Link(lo)), v) == (if root_of(slots, v) == hi {
            lo as int
        } else {
            root_of(slots, v)
        }),
    decreases v,
{
    let linked = slots.update(hi as int, Slot::Link(lo));
    if v == hi {
        assert(root_of(linked, lo as int) == lo);
    } else if let Slot::Link(p) = slots[v] {
        lemma_link(slots, hi, lo, p as int);
    }
}

proof fn lemma_view_wf(slots: Seq<Slot>)
    requires
        links_descend(slots),
        slots.len() <= usize::MAX,
    ensures
        view_of(slots).wf(),
{
    let view = view_of(slots);
    assert forall|v: int| 0 <= v < view.vars.len() implies {
        &&& 0 <= #[trigger] view.rep(v) <= v
        &&& view.rep(view.rep(v)) == view.rep(v)
        &&& view.resolve(view.rep(v)) == view.resolve(v)
    } by {
        lemma_root(slots, v);
    }
}

/// An arena of type variables, each free or bound, directly or through the
/// variables it was unified with, to a concrete type.
pub struct UnifyTable {
    slots: Vec<Slot>,
}

impl View for UnifyTable {
    type V = TableView;

    closed spec fn view(&self) -> TableView {
        view_of(self.slots@)
    }
}

impl UnifyTable {
    #[verifier::type_invariant]
    spec fn well_linked(self) -> bool {
        links_descend(self.slots@)
    }

    /// A table without variables.
    pub fn new() -> (table: UnifyTable)
        ensures
            table@ == TableView::empty(),
            table@.wf(),
    {
        let table = UnifyTable { slots: Vec::new() };
        proof {
            lemma_view_wf(table.slots@);
            assert(table@.vars =~= TableView::empty().vars);
        }
        table
    }

    /// The number of variables allocated so far.
    pub fn len(&self) -> (len: usize)
        ensures
            len == self@.len(),
            self@.wf(),
    {
        proof {
            use_type_invariant(self);
        }
        let len = self.slots.len();
        proof {
            lemma_view_wf(self.slots@);
        }
        len
    }

    /// Whether every variable that `ty` mentions belongs to this table.
    pub fn knows(&self, ty: InferType) -> (known: bool)
        ensures
            known == self@.knows(ty),
    {
        match ty {
            InferType::Variable(v) => v < self.slots.len(),
            InferType::Resolved(_) => true,
        }
    }

    /// Allocates a variable: free, alone in its class, and numbered one
    /// above the last one.
    pub fn fresh(&mut self) -> (variable: VarId)
        ensures
            variable == old(self)@.len(),
            final(self)@ == old(self)@.fresh(),
            final(self)@.wf(),
    {
        proof {
            use_type_invariant(&*self);
        }
        let mut slots = Vec::new();
        std::mem::swap(&mut slots, &mut self.slots);
        let ghost before = slots@;
        let variable = slots.len();
        slots.push(Slot::Root(None));
        proof {
            assert(slots.len() == slots@.len());
            assert forall|v: int| 0 <= v < slots@.len() implies view_of(slots@).vars[v]
                == view_of(before).fresh().vars[v] by {
                if v < before.len() {
                    lemma_same_prefix(slots@, before, v);
                    lemma_root(before, v);
                }
            }
            assert(view_of(slots@).vars =~= view_of(before).fresh().vars);
            lemma_view_wf(slots@);
        }
        self.slots = slots;
        variable
    }

    /// The root of the class of `v`.
    fn find(&self, v: usize) -> (root: usize)
        requires
            v < self.slots.len(),
        ensures
            root == root_of(self.slots@, v as int),
            root <= v,
            self.slots@[root as int] is Root,
    {
        proof {
            use_type_invariant(self);
            lemma_root(self.slots@, v as int);
        }
        let mut current = v;
        loop
            invariant
                current <= v < self.slots.len(),
                links_descend(self.slots@),
                root_of(self.slots@, current as int) == root_of(self.slots@, v as int),
            decreases current,
        {
            match self.slots[current] {
                Slot::Link(parent) => {
                    current = parent;
                },
                Slot::Root(_) => {
                    return current;
                },
            }
        }
    }

    /// The concrete type that `v` is bound to, if it is bound.
    pub fn resolve(&self, v: VarId) -> (ty: Option<Spanned<Type>>)
        ensures
            ty == self@.resolve(v as int),
    {
        if v < self.slots.len() {
            let root = self.find(v);
            match self.slots[root] {
                Slot::Root(ty) => ty,
                Slot::Link(_) => None,
            }
        } else {
            None
        }
    }

    /// The root of `ty`, if it is a variable, and the type it stands for.
    fn locate(&self, ty: InferType) -> (found: (Option<usize>, Option<Spanned<Type>>))
        requires
            self@.knows(ty),
        ensures
            found.1 == self@.ty_of(ty),
            match ty {
                InferType::Variable(v) => found.0 == Some(root_of(self.slots@, v as int) as usize)
                    && root_of(self.slots@, v as int) < self.slots.len()
                    && self.slots@[root_of(self.slots@, v as int)] is Root,
                InferType::Resolved(_) => found.0.is_none(),
            },
    {
        match ty {
            InferType::Variable(v) => {
                let root = self.find(v);
                (Some(root), self.resolve(v))
            },
            InferType::Resolved(concrete) => (None, Some(concrete)),
        }
    }

    /// Makes `a` and `b` the same type. Two variables are put into one
    /// class; a variable and a known type bind the variable's class; two
    /// known types must have the same node. On a mismatch nothing changes.
    pub fn unify(&mut self, a: InferType, b: InferType) -> (result: Result<(), TypeError>)
        requires
            old(self)@.knows(a),
            old(self)@.knows(b),
        ensures
            match result {
                Ok(()) => old(self)@.unify(a, b) == Ok::<TableView, TypeError>(final(self)@),
                Err(error) => old(self)@.unify(a, b) == Err::<TableView, TypeError>(error)
                    && final(self)@ == old(self)@,
            },
            final(self)@.len() == old(self)@.len(),
            final(self)@.wf(),
    {
        proof {
            assert(self.slots.len() == self.slots@.len());
            use_type_invariant(&*self);
            lemma_view_wf(self.slots@);
        }
        let (root_a, ty_a) = self.locate(a);
        let (root_b, ty_b) = self.locate(b);
        let ty = match (ty_a, ty_b) {
            (Some(left), Some(right)) => {
                if !(left.node == right.node) {
                    return Err(TypeError::Mismatch { left, right });
                }
                Some(left)
            },
            (Some(left), None) => Some(left),
            (None, Some(right)) => Some(right),
            (None, None) => None,
        };
        let (low, high) = match (root_a, root_b) {
            (Some(ra), Some(rb)) => if ra <= rb {
                (ra, rb)
            } else {
                (rb, ra)
            },
            (Some(ra), None) => (ra, ra),
            (None, Some(rb)) => (rb, rb),
            (None, None) => {
                proof {
                    assert(self@.join(a, b, ty).vars =~= self@.vars);
                }
                return Ok(());
            },
        };
        let mut slots = Vec::new();
        std::mem::swap(&mut slots, &mut self.slots);
        let ghost before = slots@;
        if low < high {
            slots.set(high, Slot::Link(low));
        }
        let ghost linked = slots@;
        slots.set(low, Slot::Root(ty));
        proof {
            assert forall|v: int| 0 <= v < before.len() implies view_of(slots@).vars[v]
                == view_of(before).join(a, b, ty).vars[v] by {
                lemma_root(before, v);
                if low < high {
                    lemma_link(before, high, low, v);
                }
                lemma_rebind(linked, low as int, ty, v);
                let old_root = root_of(before, v);
                let new_root = root_of(slots@, v);
                assert(new_root == (if old_root == high {
                    low as int
                } else {
                    old_root
                }));
                assert(view_of(before).vars[v].rep == old_root);
            }
            assert(view_of(slots@).vars =~= view_of(before).join(a, b, ty).vars);
            lemma_view_wf(slots@);
        }
        self.slots = slots;
        Ok(())
    }

    /// Unifies the two sides of each constraint, in order. The first
    /// mismatch ends the pass and is returned; the table is then as it was
    /// before the pass, so that no half-made substitution is seen.
    pub fn solve(&mut self, constraints: &Constraints) -> (result: Result<(), TypeError>)
        requires
            old(self)@.knows_all(constraints@),
        ensures
            match result {
                Ok(()) => old(self)@.solve(constraints@) == Ok::<TableView, TypeError>(
                    final(self)@,
                ),
                Err(error) => old(self)@.solve(constraints@) == Err::<TableView, TypeError>(error)
                    && final(self)@ == old(self)@,
            },
            final(self)@.len() == old(self)@.len(),
            final(self)@.wf(),
    {
        proof {
            assert(self.slots.len() == self.slots@.len());
            use_type_invariant(&*self);
            lemma_view_wf(self.slots@);
        }
        let saved = copy_slots(&self.slots);
        let ghost before = self@;
        let mut index: usize = 0;
        assert(constraints@.skip(0) =~= constraints@);
        while index < constraints.list.len()
            invariant
                index <= constraints@.len(),
                self@.len() == before.len(),
                self@.wf(),
                before.knows_all(constraints@),
                before.solve(constraints@) == self@.solve(constraints@.skip(index as int)),
                saved@ == old(self).slots@,
                links_descend(saved@),
                before == view_of(saved@),
            decreases constraints@.len() - index,
        {
            let Constraint(left, right) = constraints.list[index];
            let ghost now = self@;
            assert(constraints@.skip(index as int)[0] == constraints@[index as int]);
            assert(constraints@.skip(index as int).skip(1) =~= constraints@.skip(index + 1));
            assert(before.knows(constraints@[index as int].0));
            match self.unify(left, right) {
                Ok(()) => {},
                Err(error) => {
                    proof {
                        lemma_view_wf(saved@);
                    }
                    self.slots = saved;
                    return Err(error);
                },
            }
            index = index + 1;
        }
        Ok(())
    }

    /// Ends an inference pass: the concrete type of every variable, in the
    /// order of allocation, or the lowest variable that is still free.
    pub fn finalize(&self) -> (result: Result<Vec<Spanned<Type>>, TypeError>)
        ensures
            match result {
                Ok(types) => types@.len() == self@.len() && forall|v: int|
                    0 <= v < types@.len() ==> self@.resolve(v) == Some(#[trigger] types@[v]),
                Err(error) => {
                    &&& error matches TypeError::Ambiguous { variable }
                    &&& variable < self@.len()
                    &&& self@.resolve(variable as int).is_none()
                    &&& forall|v: int| 0 <= v < variable ==> self@.resolve(v).is_some()
                },
            },
    {
        let mut types: Vec<Spanned<Type>> = Vec::new();
        let mut variable: usize = 0;
        while variable < self.slots.len()
            invariant
                variable <= self.slots@.len(),
                types@.len() == variable,
                forall|v: int| 0 <= v < variable ==> self@.resolve(v) == Some(#[trigger] types@[v]),
                forall|v: int| 0 <= v < variable ==> (#[trigger] self@.resolve(v)).is_some(),
            decreases self.slots@.len() - variable,
        {
            match self.resolve(variable) {
                Some(ty) => {
                    types.push(ty);
                },
                None => {
                    return Err(TypeError::Ambiguous { variable });
                },
            }
            variable = variable + 1;
        }
        Ok(types)
    }
}

fn copy_slots(slots: &Vec<Slot>) -> (copy: Vec<Slot>)
    ensures
        copy@ == slots@,
{
    let mut copy: Vec<Slot> = Vec::new();
    let mut index: usize = 0;
    while index < slots.len()
        invariant
            index <= slots@.len(),
            copy@ == slots@.take(index as int),
        decreases slots@.len() - index,
    {
        copy.push(slots[index]);
        assert(slots@.take(index + 1) =~= slots@.take(index as int).push(slots@[index as int]));
        index = index + 1;
    }
    assert(slots@.take(index as int) =~= slots@);
    copy
}

/// Two known types unify exactly when their nodes are equal; the table is
/// then unchanged, and otherwise the mismatch names both, spans included.
pub proof fn lemma_unify_known_types(table: TableView, left: Spanned<Type>, right: Spanned<Type>)
    ensures
        left.node == right.node ==> table.unify(
            InferType::Resolved(left),
            InferType::Resolved(right),
        ) == Ok::<TableView, TypeError>(table),
        left.node != right.node ==> table.unify(
            InferType::Resolved(left),
            InferType::Resolved(right),
        ) == Err::<TableView, TypeError>(TypeError::Mismatch { left, right }),
{
    let a = InferType::Resolved(left);
    let b = InferType::Resolved(right);
    assert(table.join(a, b, Some(left)).vars =~= table.vars);
}

/// Unifying a free variable with a known type binds the variable: it then
/// resolves to exactly that type.
pub proof fn lemma_unify_binds(table: TableView, v: VarId, ty: Spanned<Type>)
    requires
        v < table.len(),
        table.resolve(v as int).is_none(),
    ensures
        table.unify(InferType::Variable(v), InferType::Resolved(ty)) is Ok,
        table.unify(InferType::Variable(v), InferType::Resolved(ty)).unwrap().resolve(v as int)
            == Some(ty),
        table.unify(InferType::Resolved(ty), InferType::Variable(v)) is Ok,
        table.unify(InferType::Resolved(ty), InferType::Variable(v)).unwrap().resolve(v as int)
            == Some(ty),
{
}

/// Unification does not depend on the order of its operands: it succeeds
/// one way round exactly when it succeeds the other, and then gives the
/// same classes, bound to types with the same node.
pub proof fn lemma_unify_symmetric(table: TableView, a: InferType, b: InferType)
    requires
        table.knows(a),
        table.knows(b),
    ensures
        table.unify(a, b) is Ok <==> table.unify(b, a) is Ok,
        table.unify(a, b) matches Ok(forth) ==> table.unify(b, a) matches Ok(back) && forall|
            v: int,
        |
            0 <= v < table.len() ==> {
                &&& #[trigger] forth.rep(v) == back.rep(v)
                &&& forth.resolve(v).is_some() == back.resolve(v).is_some()
                &&& forth.resolve(v) matches Some(x) ==> back.resolve(v).unwrap().node == x.node
            },
{
}

/// Unification is transitive: once `a` and `b` are unified, binding `b` to
/// a type binds `a` to a type with the same node, and to that very type
/// if `b` was free.
pub proof fn lemma_unify_transitive(table: TableView, a: VarId, b: VarId, ty: Spanned<Type>)
    requires
        a < table.len(),
        b < table.len(),
        table.unify(InferType::Variable(a), InferType::Variable(b)) is Ok,
        table.unify(InferType::Variable(a), InferType::Variable(b)).unwrap().unify(
            InferType::Variable(b),
            InferType::Resolved(ty),
        ) is Ok,
    ensures
        ({
            let joined = table.unify(InferType::Variable(a), InferType::Variable(b)).unwrap();
            let bound = joined.unify(InferType::Variable(b), InferType::Resolved(ty)).unwrap();
            &&& bound.resolve(a as int) matches Some(found) && found.node == ty.node
            &&& joined.resolve(b as int).is_none() ==> bound.resolve(a as int) == Some(ty)
        }),
{
}

/// A successful unification leaves its two operands unified.
pub proof fn lemma_unify_unifies(table: TableView, a: InferType, b: InferType)
    requires
        table.wf(),
        table.knows(a),
        table.knows(b),
        table.unify(a, b) is Ok,
    ensures
        table.unify(a, b).unwrap().unified(a, b),
        table.unify(a, b).unwrap().wf(),
        table.unify(a, b).unwrap().len() == table.len(),
{
    let after = table.unify(a, b).unwrap();
    assert forall|v: int| 0 <= v < after.vars.len() implies {
        &&& 0 <= #[trigger] after.rep(v) <= v
        &&& after.rep(after.rep(v)) == after.rep(v)
        &&& after.resolve(after.rep(v)) == after.resolve(v)
    } by {
        assert(0 <= table.rep(v) <= v);
        assert(0 <= table.rep(table.rep(v)) <= table.rep(v));
        if let InferType::Variable(u) = a {
            assert(0 <= table.rep(u as int) <= u);
            assert(table.rep(table.rep(u as int)) == table.rep(u as int));
        }
        if let InferType::Variable(w) = b {
            assert(0 <= table.rep(w as int) <= w);
            assert(table.rep(table.rep(w as int)) == table.rep(w as int));
        }
    }
}

/// What has been unified stays unified: a later successful unification
/// only joins classes and binds free ones.
pub proof fn lemma_unify_keeps_unified(
    table: TableView,
    a: InferType,
    b: InferType,
    c: InferType,
    d: InferType,
)
    requires
        table.wf(),
        table.knows(a),
        table.knows(b),
        table.knows(c),
        table.knows(d),
        table.unified(a, b),
        table.unify(c, d) is Ok,
    ensures
        table.unify(c, d).unwrap().unified(a, b),
{
    if let InferType::Variable(u) = a {
        assert(table.resolve(table.rep(u as int)) == table.resolve(u as int));
    }
    if let InferType::Variable(w) = b {
        assert(table.resolve(table.rep(w as int)) == table.resolve(w as int));
    }
    if let InferType::Variable(p) = c {
        assert(table.resolve(table.rep(p as int)) == table.resolve(p as int));
    }
    if let InferType::Variable(q) = d {
        assert(table.resolve(table.rep(q as int)) == table.resolve(q as int));
    }
}

/// Types that are unified and known have the same node.
pub proof fn lemma_unified_same_node(table: TableView, a: InferType, b: InferType)
    requires
        table.wf(),
        table.knows(a),
        table.knows(b),
        table.unified(a, b),
    ensures
        table.ty_of(a).is_some() == table.ty_of(b).is_some(),
        table.ty_of(a) matches Some(left) ==> table.ty_of(b).unwrap().node == left.node,
{
    if let InferType::Variable(u) = a {
        assert(table.resolve(table.rep(u as int)) == table.resolve(u as int));
    }
    if let InferType::Variable(w) = b {
        assert(table.resolve(table.rep(w as int)) == table.resolve(w as int));
    }
}

/// Constraints that a table knows stay known when they are put together.
pub proof fn lemma_knows_all_concat(
    table: TableView,
    front: Seq<Constraint>,
    back: Seq<Constraint>,
)
    requires
        table.knows_all(front),
        table.knows_all(back),
    ensures
        table.knows_all(front + back),
{
    let all = front + back;
    assert forall|i: int| 0 <= i < all.len() implies table.knows(#[trigger] all[i].0)
        && table.knows(all[i].1) by {
        if i < front.len() {
            assert(table.knows(front[i].0));
        } else {
            assert(table.knows(back[i - front.len()].0));
        }
    }
}

/// Solving keeps the shape of the table, and keeps unified what was.
pub proof fn lemma_solve_keeps_unified(
    table: TableView,
    constraints: Seq<Constraint>,
    a: InferType,
    b: InferType,
)
    requires
        table.wf(),
        table.knows(a),
        table.knows(b),
        table.knows_all(constraints),
        table.unified(a, b),
        table.solve(constraints) is Ok,
    ensures
        table.solve(constraints).unwrap().unified(a, b),
        table.solve(constraints).unwrap().wf(),
        table.solve(constraints).unwrap().len() == table.len(),
    decreases constraints.len(),
{
    if constraints.len() > 0 {
        let Constraint(c, d) = constraints[0];
        assert(table.knows(constraints[0].0));
        lemma_unify_unifies(table, c, d);
        lemma_unify_keeps_unified(table, a, b, c, d);
        let next = table.unify(c, d).unwrap();
        assert forall|i: int| 0 <= i < constraints.skip(1).len() implies next.knows(
            #[trigger] constraints.skip(1)[i].0,
        ) && next.knows(constraints.skip(1)[i].1) by {
            assert(table.knows(constraints[i + 1].0));
        }
        lemma_solve_keeps_unified(next, constraints.skip(1), a, b);
    }
}

/// Every constraint of a pass that succeeded holds at its end.
pub proof fn lemma_solve_unifies(table: TableView, constraints: Seq<Constraint>, index: int)
    requires
        table.wf(),
        table.knows_all(constraints),
        table.solve(constraints) is Ok,
        0 <= index < constraints.len(),
    ensures
        table.solve(constraints).unwrap().unified(constraints[index].0, constraints[index].1),
    decreases constraints.len(),
{
    let Constraint(c, d) = constraints[0];
    assert(table.knows(constraints[0].0));
    assert(table.knows(constraints[index].0));
    lemma_unify_unifies(table, c, d);
    let next = table.unify(c, d).unwrap();
    let rest = constraints.skip(1);
    assert forall|i: int| 0 <= i < rest.len() implies next.knows(#[trigger] rest[i].0)
        && next.knows(rest[i].1) by {
        assert(table.knows(constraints[i + 1].0));
    }
    if index == 0 {
        lemma_solve_keeps_unified(next, rest, c, d);
    } else {
        lemma_solve_unifies(next, rest, index - 1);
    }
}

} // verus!
