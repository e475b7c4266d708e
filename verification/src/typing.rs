//! One inference pass over the body of a function: annotate, collect the
//! constraints, require the declared return type, and solve.

use vstd::prelude::*;
use crate::annotated::{
    constraints_before, env_known, lemma_block_constraints_known, void_type, Annotated, Block,
    TypeEnv,
};
use crate::infer::{Constraint, InferType};
use crate::pos::Spanned;
use crate::resolved;
use crate::shared::{Type, TypeError};
use crate::unify::{lemma_knows_all_concat, lemma_solve_unifies, TableView, UnifyTable};

verus! {

impl resolved::Block {
    /// The type of the value of this block once it is annotated: that of
    /// its last expression, or void.
    pub open spec fn value_ty(self, first: nat, env: Seq<InferType>) -> InferType {
        let len = self.expressions@.len() as int;
        if len == 0 {
            void_type()
        } else {
            self.expressions@[len - 1].annotated(first + self.fresh_before(len - 1), env).ty
        }
    }

    /// The type variable of this block once it is annotated: the one after
    /// the variables of its expressions.
    pub open spec fn block_ty(self, first: nat) -> InferType {
        InferType::Variable((first + self.fresh_before(self.expressions@.len() as int)) as usize)
    }

    /// The constraints of the first `count` expressions once they are
    /// annotated, in order.
    pub open spec fn constraints_upto(self, first: nat, env: Seq<InferType>, count: int) -> Seq<
        Constraint,
    >
        decreases count,
    {
        if count <= 0 {
            Seq::empty()
        } else {
            self.constraints_upto(first, env, count - 1) + self.expressions@[count - 1].annotated(
                first + self.fresh_before(count - 1),
                env,
            ).constraints_spec()
        }
    }

    /// The constraints of this block once it is annotated.
    pub open spec fn constraints(self, first: nat, env: Seq<InferType>) -> Seq<Constraint> {
        seq![Constraint(self.value_ty(first, env), self.block_ty(first))] + self.constraints_upto(
            first,
            env,
            self.expressions@.len() as int,
        )
    }

    /// The constraints of a function body: those of the block, and then
    /// that the block has the declared return type.
    pub open spec fn body_constraints(
        self,
        first: nat,
        env: Seq<InferType>,
        ret: Spanned<Type>,
    ) -> Seq<Constraint> {
        self.constraints(first, env).push(
            Constraint(self.block_ty(first), InferType::Resolved(ret)),
        )
    }
}

proof fn lemma_prefix_constraints(
    annotated: Annotated<Block>,
    block: resolved::Block,
    first: nat,
    env: Seq<InferType>,
    count: int,
)
    requires
        annotated.annotates(block, first, env),
        0 <= count <= block.expressions@.len(),
    ensures
        constraints_before(annotated.item.expressions@, count) == block.constraints_upto(
            first,
            env,
            count,
        ),
    decreases count,
{
    if count > 0 {
        lemma_prefix_constraints(annotated, block, first, env, count - 1);
        assert(annotated.item.expressions@[count - 1] == block.expressions@[count - 1].annotated(
            first + block.fresh_before(count - 1),
            env,
        ));
    }
}

/// The constraints of an annotated block are those that its resolved
/// block determines.
pub proof fn lemma_annotation_constraints(
    annotated: Annotated<Block>,
    block: resolved::Block,
    first: nat,
    env: Seq<InferType>,
)
    requires
        annotated.annotates(block, first, env),
    ensures
        annotated.ty == block.block_ty(first),
        annotated.item.last_ty_spec() == block.value_ty(first, env),
        annotated.constraints_spec() == block.constraints(first, env),
{
    let len = block.expressions@.len() as int;
    lemma_prefix_constraints(annotated, block, first, env, len);
    if len > 0 {
        assert(annotated.item.expressions@[len - 1] == block.expressions@[len - 1].annotated(
            first + block.fresh_before(len - 1),
            env,
        ));
    }
}

/// Infers the types of the body of a function whose return type is `ret`
/// and whose bindings have the types `env`. The block is annotated with
/// new variables of `vars`, and its constraints, with the one that makes
/// the block of type `ret`, are solved in order. The first mismatch is
/// returned; the new variables are then left free.
pub fn infer_body(
    block: resolved::Block,
    vars: &mut UnifyTable,
    env: &TypeEnv,
    ret: Spanned<Type>,
) -> (inferred: Result<Annotated<Block>, TypeError>)
    requires
        block.closed_in(env@.len()),
        env_known(old(vars)@, env@),
    ensures
        final(vars)@.wf(),
        final(vars)@.len() == old(vars)@.len() + block.fresh_count(),
        match inferred {
            Ok(annotated) => {
                &&& annotated.annotates(block, old(vars)@.len(), env@)
                &&& old(vars)@.grown(block.fresh_count()).solve(
                    block.body_constraints(old(vars)@.len(), env@, ret),
                ) == Ok::<TableView, TypeError>(final(vars)@)
                &&& final(vars)@.ty_of(annotated.ty) matches Some(found) && found.node == ret.node
            },
            Err(error) => {
                &&& old(vars)@.grown(block.fresh_count()).solve(
                    block.body_constraints(old(vars)@.len(), env@, ret),
                ) == Err::<TableView, TypeError>(error)
                &&& final(vars)@ == old(vars)@.grown(block.fresh_count())
            },
        },
{
    let first = vars.len();
    let ghost start = vars@;
    let ghost resolved_block = block;
    let annotated = Block::from(block, vars, env);
    let ghost table = vars@;
    proof {

        start.lemma_grown(resolved_block.fresh_count(), 0);
        assert(env_known(table, env@)) by {
            assert forall|i: int| 0 <= i < env@.len() implies table.knows(#[trigger] env@[i]) by {
                assert(start.knows(env@[i]));
            }
        }
        lemma_block_constraints_known(annotated, resolved_block, first as nat, env@, table);
        lemma_annotation_constraints(annotated, resolved_block, first as nat, env@);
    }
    let declared = Constraint(annotated.ty, InferType::Resolved(ret));
    let constraints = annotated.constraints().and(declared);
    proof {
        assert(constraints@ =~= annotated.constraints_spec() + seq![declared]);
        assert(table.knows_all(seq![declared]));
        lemma_knows_all_concat(table, annotated.constraints_spec(), seq![declared]);
        assert(constraints@ == resolved_block.body_constraints(first as nat, env@, ret));
    }
    match vars.solve(&constraints) {
        Err(error) => Err(error),
        Ok(()) => {
            proof {
                lemma_solve_unifies(table, constraints@, constraints@.len() - 1);
            }
            Ok(annotated)
        },
    }
}

/// The scope of a function: each parameter with its declared type.
pub open spec fn scope_of(parameters: Seq<Spanned<Type>>) -> Seq<InferType> {
    parameters.map_values(|declared: Spanned<Type>| InferType::Resolved(declared))
}

/// What a whole pass over a function gives: the table in which the
/// constraints of the body are solved, or the first mismatch among them.
pub open spec fn pass_spec(
    body: resolved::Block,
    parameters: Seq<Spanned<Type>>,
    ret: Spanned<Type>,
) -> Result<TableView, TypeError> {
    TableView::empty().grown(body.fresh_count()).solve(
        body.body_constraints(0, scope_of(parameters), ret),
    )
}

/// Infers the types of a function from the declared types of its
/// parameters and of its result, in a table of its own. The pass gives the
/// annotated body and the concrete type of every variable, by number. It
/// fails with the first mismatch among the constraints of the body, or
/// else with the lowest variable that no constraint has bound.
pub fn infer_function(
    parameters: &Vec<Spanned<Type>>,
    ret: Spanned<Type>,
    body: resolved::Block,
) -> (inferred: Result<(Annotated<Block>, Vec<Spanned<Type>>), TypeError>)
    requires
        body.closed_in(parameters@.len()),
    ensures
        match inferred {
            Ok((annotated, types)) => {
                &&& annotated.annotates(body, 0, scope_of(parameters@))
                &&& pass_spec(body, parameters@, ret) matches Ok(solved)
                &&& types@.len() == solved.len()
                &&& forall|v: int|
                    0 <= v < types@.len() ==> solved.resolve(v) == Some(#[trigger] types@[v])
                &&& annotated.ty matches InferType::Variable(whole)
                &&& whole < types@.len()
                &&& types@[whole as int].node == ret.node
            },
            Err(error) => match pass_spec(body, parameters@, ret) {
                Err(mismatch) => error == mismatch,
                Ok(solved) => {
                    &&& error matches TypeError::Ambiguous { variable }
                    &&& variable < solved.len()
                    &&& solved.resolve(variable as int).is_none()
                    &&& forall|v: int| 0 <= v < variable ==> solved.resolve(v).is_some()
                },
            },
        },
{
    let mut env = TypeEnv::new();
    let mut index: usize = 0;
    while index < parameters.len()
        invariant
            index <= parameters@.len(),
            env@ == scope_of(parameters@.take(index as int)),
        decreases parameters@.len() - index,
    {
        env.bind(InferType::Resolved(parameters[index]));
        assert(env@ =~= scope_of(parameters@.take(index + 1)));
        index = index + 1;
    }
    assert(parameters@.take(index as int) =~= parameters@);
    let mut vars = UnifyTable::new();
    let ghost resolved_body = body;
    let annotated = match infer_body(body, &mut vars, &env, ret) {
        Ok(annotated) => annotated,
        Err(error) => {
            return Err(error);
        },
    };
    match vars.finalize() {
        Ok(types) => {
            proof {
                lemma_annotation_constraints(annotated, resolved_body, 0, env@);
            }
            Ok((annotated, types))
        },
        Err(error) => Err(error),
    }
}

} // verus!
