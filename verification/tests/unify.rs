use argon::infer::{Constraint, Constraints, InferType};
use argon::pos::{Span, Spanned};
use argon::shared::{Type, TypeError};
use argon::unify::UnifyTable;

fn int32() -> Spanned<Type> {
    Type::I32.at(3, 6)
}

fn boolean() -> Spanned<Type> {
    Type::Bool.at(10, 14)
}

#[test]
fn fresh_variables_count_up_and_are_free() {
    let mut table = UnifyTable::new();
    assert_eq!(table.len(), 0);
    assert_eq!(table.fresh(), 0);
    assert_eq!(table.fresh(), 1);
    assert_eq!(table.fresh(), 2);
    assert_eq!(table.len(), 3);
    assert_eq!(table.resolve(0), None);
    assert_eq!(table.resolve(2), None);
    assert_eq!(table.resolve(7), None);
    assert!(table.knows(InferType::Variable(2)));
    assert!(!table.knows(InferType::Variable(3)));
    assert!(table.knows(InferType::Resolved(int32())));
}

#[test]
fn equal_known_types_unify() {
    let mut table = UnifyTable::new();
    let elsewhere = Type::I32.at(20, 23);
    assert_eq!(table.unify(InferType::Resolved(int32()), InferType::Resolved(elsewhere)), Ok(()));
    assert_eq!(table.len(), 0);
}

#[test]
fn different_known_types_fail_with_both_spans() {
    let mut table = UnifyTable::new();
    let result = table.unify(InferType::Resolved(int32()), InferType::Resolved(boolean()));
    assert_eq!(result, Err(TypeError::Mismatch { left: int32(), right: boolean() }));
    match result {
        Err(TypeError::Mismatch { left, right }) => {
            assert_eq!(left.span, Span::Bytes { start: 3, end: 6 });
            assert_eq!(right.span, Span::Bytes { start: 10, end: 14 });
        }
        _ => panic!("a mismatch was expected"),
    }
}

#[test]
fn variable_with_known_type_binds_the_variable() {
    let mut table = UnifyTable::new();
    let v = table.fresh();
    assert_eq!(table.unify(InferType::Variable(v), InferType::Resolved(int32())), Ok(()));
    assert_eq!(table.resolve(v), Some(int32()));
}

#[test]
fn known_type_with_variable_binds_the_variable() {
    let mut table = UnifyTable::new();
    let v = table.fresh();
    assert_eq!(table.unify(InferType::Resolved(boolean()), InferType::Variable(v)), Ok(()));
    assert_eq!(table.resolve(v), Some(boolean()));
}

#[test]
fn unification_is_transitive() {
    let mut table = UnifyTable::new();
    let a = table.fresh();
    let b = table.fresh();
    assert_eq!(table.unify(InferType::Variable(a), InferType::Variable(b)), Ok(()));
    assert_eq!(table.resolve(a), None);
    assert_eq!(table.unify(InferType::Variable(b), InferType::Resolved(int32())), Ok(()));
    assert_eq!(table.resolve(a), Some(int32()));
    assert_eq!(table.resolve(b), Some(int32()));
}

#[test]
fn unification_is_transitive_from_the_higher_variable() {
    let mut table = UnifyTable::new();
    let a = table.fresh();
    let b = table.fresh();
    let c = table.fresh();
    assert_eq!(table.unify(InferType::Variable(c), InferType::Variable(b)), Ok(()));
    assert_eq!(table.unify(InferType::Variable(b), InferType::Variable(a)), Ok(()));
    assert_eq!(table.unify(InferType::Variable(c), InferType::Resolved(boolean())), Ok(()));
    assert_eq!(table.resolve(a), Some(boolean()));
    assert_eq!(table.resolve(b), Some(boolean()));
    assert_eq!(table.resolve(c), Some(boolean()));
}

#[test]
fn bound_variable_rejects_another_type_and_keeps_its_own() {
    let mut table = UnifyTable::new();
    let v = table.fresh();
    assert_eq!(table.unify(InferType::Variable(v), InferType::Resolved(int32())), Ok(()));
    assert_eq!(
        table.unify(InferType::Variable(v), InferType::Resolved(boolean())),
        Err(TypeError::Mismatch { left: int32(), right: boolean() })
    );
    assert_eq!(table.resolve(v), Some(int32()));
}

#[test]
fn two_bound_classes_with_different_types_do_not_join() {
    let mut table = UnifyTable::new();
    let a = table.fresh();
    let b = table.fresh();
    assert_eq!(table.unify(InferType::Variable(a), InferType::Resolved(int32())), Ok(()));
    assert_eq!(table.unify(InferType::Variable(b), InferType::Resolved(boolean())), Ok(()));
    assert_eq!(
        table.unify(InferType::Variable(b), InferType::Variable(a)),
        Err(TypeError::Mismatch { left: boolean(), right: int32() })
    );
    assert_eq!(table.resolve(a), Some(int32()));
    assert_eq!(table.resolve(b), Some(boolean()));
}

#[test]
fn joining_a_bound_class_binds_the_free_one() {
    let mut table = UnifyTable::new();
    let a = table.fresh();
    let b = table.fresh();
    assert_eq!(table.unify(InferType::Variable(b), InferType::Resolved(int32())), Ok(()));
    assert_eq!(table.unify(InferType::Variable(a), InferType::Variable(b)), Ok(()));
    assert_eq!(table.resolve(a), Some(int32()));
}

#[test]
fn solve_takes_constraints_in_order() {
    let mut table = UnifyTable::new();
    let a = table.fresh();
    let b = table.fresh();
    let constraints = Constraints::empty()
        .and(Constraint(InferType::Variable(a), InferType::Variable(b)))
        .and(Constraint(InferType::Variable(b), InferType::Resolved(int32())));
    assert!(table.knows(InferType::Variable(a)) && table.knows(InferType::Variable(b)));
    assert_eq!(table.solve(&constraints), Ok(()));
    assert_eq!(table.resolve(a), Some(int32()));
    assert_eq!(table.finalize(), Ok(vec![int32(), int32()]));
}

#[test]
fn solve_reports_the_first_mismatch_and_restores_the_table() {
    let mut table = UnifyTable::new();
    let a = table.fresh();
    let b = table.fresh();
    let constraints = Constraints::empty()
        .and(Constraint(InferType::Variable(a), InferType::Resolved(int32())))
        .and(Constraint(InferType::Variable(a), InferType::Resolved(boolean())))
        .and(Constraint(InferType::Variable(b), InferType::Resolved(boolean())));
    assert_eq!(
        table.solve(&constraints),
        Err(TypeError::Mismatch { left: int32(), right: boolean() })
    );
    assert_eq!(table.resolve(a), None);
    assert_eq!(table.resolve(b), None);
    assert_eq!(table.len(), 2);
}

#[test]
fn finalize_reports_the_lowest_free_variable() {
    let mut table = UnifyTable::new();
    let a = table.fresh();
    let b = table.fresh();
    let c = table.fresh();
    assert_eq!(table.unify(InferType::Variable(a), InferType::Resolved(int32())), Ok(()));
    assert_eq!(table.finalize(), Err(TypeError::Ambiguous { variable: b }));
    assert_eq!(table.unify(InferType::Variable(b), InferType::Variable(c)), Ok(()));
    assert_eq!(table.finalize(), Err(TypeError::Ambiguous { variable: b }));
    assert_eq!(table.unify(InferType::Variable(c), InferType::Resolved(boolean())), Ok(()));
    assert_eq!(table.finalize(), Ok(vec![int32(), boolean(), boolean()]));
}

#[test]
fn finalize_of_an_empty_table_is_empty() {
    let table = UnifyTable::new();
    assert_eq!(table.finalize(), Ok(vec![]));
}

#[test]
fn constraints_keep_their_order_when_appended() {
    let first = Constraint(InferType::Variable(0), InferType::Variable(1));
    let second = Constraint(InferType::Variable(1), InferType::Resolved(int32()));
    let third = Constraint(InferType::Variable(2), InferType::Variable(0));
    let mut constraints = Constraints::empty().and(first);
    constraints.append(Constraints::empty().and(second).and(third));
    assert_eq!(constraints.len(), 3);
    assert_eq!(constraints.get(0), Some(first));
    assert_eq!(constraints.get(1), Some(second));
    assert_eq!(constraints.get(2), Some(third));
    assert_eq!(constraints.get(3), None);
    assert_eq!(Constraints::empty().len(), 0);
}

#[test]
fn synthetic_types_carry_their_label() {
    let void = Type::Void.synthetic("void");
    assert_eq!(void.node, Type::Void);
    assert_eq!(void.span, Span::Synthetic("void"));
    let spanned = Spanned::new(Type::U64, Span::Bytes { start: 1, end: 4 });
    assert_eq!(spanned, Type::U64.at(1, 4));
}
