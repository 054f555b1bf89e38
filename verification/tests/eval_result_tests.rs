use pil_core::eval_result::{
    BitConstraint, Constraint, EvalError, EvalStatus, EvalValue, IncompleteCause,
};
use pil_core::number::FieldElement;

fn cause(i: usize) -> IncompleteCause {
    match i {
        0 => IncompleteCause::PreviousValueUnknown("x".to_string()),
        1 => IncompleteCause::BitUnconstrained(vec![2]),
        2 => IncompleteCause::OverlappingBitConstraints,
        3 => IncompleteCause::MultipleLookupMatches,
        4 => IncompleteCause::MultipleLinearSolutions,
        5 => IncompleteCause::QuadraticTerm,
        6 => IncompleteCause::DivisionTerm,
        7 => IncompleteCause::ExponentiationTerm,
        _ => IncompleteCause::NotConcrete,
    }
}

#[test]
fn status_complete_combines_to_complete() {
    let r = EvalStatus::Complete.combine(EvalStatus::Complete);
    assert_eq!(r, EvalStatus::Complete);
}

#[test]
fn status_incomplete_wins_over_complete() {
    let r = EvalStatus::Complete.combine(EvalStatus::Incomplete(cause(2)));
    assert_eq!(r, EvalStatus::Incomplete(cause(2)));
    let r = EvalStatus::Incomplete(cause(0)).combine(EvalStatus::Complete);
    assert_eq!(r, EvalStatus::Incomplete(cause(0)));
}

#[test]
fn status_two_incomplete_merge_causes() {
    let r = EvalStatus::Incomplete(cause(0)).combine(EvalStatus::Incomplete(cause(1)));
    assert_eq!(
        r,
        EvalStatus::Incomplete(IncompleteCause::Multiple(vec![cause(0), cause(1)]))
    );
}

#[test]
fn cause_pair_combination_keeps_both_in_order() {
    let r = cause(5).combine(cause(6));
    assert_eq!(r, IncompleteCause::Multiple(vec![cause(5), cause(6)]));
}

#[test]
fn cause_combination_flattens_regardless_of_grouping() {
    let flat = IncompleteCause::Multiple(vec![cause(0), cause(1), cause(2), cause(3)]);
    let left = cause(0).combine(cause(1)).combine(cause(2)).combine(cause(3));
    assert_eq!(left, flat);
    let right = cause(0).combine(cause(1).combine(cause(2).combine(cause(3))));
    assert_eq!(right, flat);
    let mixed = cause(0).combine(cause(1)).combine(cause(2).combine(cause(3)));
    assert_eq!(mixed, flat);
}

#[test]
fn cause_combination_flattens_nested_aggregates() {
    let nested = IncompleteCause::Multiple(vec![IncompleteCause::Multiple(vec![
        cause(4),
        cause(5),
    ])]);
    let r = nested.combine(cause(6));
    assert_eq!(
        r,
        IncompleteCause::Multiple(vec![cause(4), cause(5), cause(6)])
    );
}

#[test]
fn value_combine_concatenates_constraints_in_order() {
    let mut a = EvalValue::complete(vec![
        (0, Constraint::Assignment(FieldElement { value: 1 })),
        (7, Constraint::BitConstraint(BitConstraint { mask: 0xff })),
    ]);
    let b = EvalValue::incomplete_with_constraints(
        vec![(3, Constraint::Assignment(FieldElement { value: 9 }))],
        IncompleteCause::NotConcrete,
    );
    a.combine(b);
    assert_eq!(a.constraints.len(), 3);
    assert_eq!(a.constraints[0].0, 0);
    assert_eq!(a.constraints[1].0, 7);
    assert_eq!(a.constraints[2].0, 3);
    assert_eq!(
        a.constraints[2].1,
        Constraint::Assignment(FieldElement { value: 9 })
    );
    assert!(!a.is_complete());
    assert_eq!(a.status, EvalStatus::Incomplete(IncompleteCause::NotConcrete));
}

#[test]
fn value_constructors_and_flags() {
    let v = EvalValue::complete(vec![]);
    assert!(v.is_complete());
    assert!(v.is_empty());
    let v = EvalValue::incomplete(IncompleteCause::SolvingFailed);
    assert!(!v.is_complete());
    assert!(v.is_empty());
    assert_eq!(v.status, EvalStatus::Incomplete(IncompleteCause::SolvingFailed));
    let v = EvalValue::incomplete_with_constraints(
        vec![(1, Constraint::Assignment(FieldElement { value: 4 }))],
        IncompleteCause::NoMatchArmFound,
    );
    assert!(!v.is_empty());
    assert!(!v.is_complete());
}

#[test]
fn identity_with_unknown_previous_value_is_incomplete() {
    // An identity `x' = x` evaluated at a row where the current value of `x`
    // is unknown reports exactly this: no constraints learned, held up by
    // the unknown previous value.
    let v = EvalValue::incomplete(IncompleteCause::PreviousValueUnknown("x".to_string()));
    assert!(v.constraints.is_empty());
    assert_eq!(
        v.status,
        EvalStatus::Incomplete(IncompleteCause::PreviousValueUnknown("x".to_string()))
    );
}

#[test]
fn unconstrained_operand_is_reported_by_index() {
    // For `x + y == 3` with `x` known to occupy one bit and `y` without bit
    // knowledge, the evaluation is held up by the unconstrained operand `y`.
    let index_of_y = 1usize;
    let v = EvalValue::incomplete(IncompleteCause::BitUnconstrained(vec![index_of_y]));
    assert!(v.constraints.is_empty());
    assert_eq!(
        v.status,
        EvalStatus::Incomplete(IncompleteCause::BitUnconstrained(vec![1]))
    );
}

#[test]
fn status_from_cause() {
    let s = EvalStatus::from(IncompleteCause::QuadraticTerm);
    assert_eq!(s, EvalStatus::Incomplete(IncompleteCause::QuadraticTerm));
}

#[test]
fn error_combination_keeps_both_and_renders_both() {
    let r = EvalError::RowsExhausted.combine(EvalError::FixedLookupFailed);
    assert_eq!(
        r,
        EvalError::Multiple(vec![EvalError::RowsExhausted, EvalError::FixedLookupFailed])
    );
    let text = r.render();
    assert!(text.contains("Table rows exhausted"));
    assert!(text.contains("Lookup into fixed columns failed: no match"));
}

#[test]
fn error_combination_flattens() {
    let left = EvalError::RowsExhausted.combine(EvalError::FixedLookupFailed);
    let r = left.combine(EvalError::ConflictingBitConstraints);
    assert_eq!(
        r,
        EvalError::Multiple(vec![
            EvalError::RowsExhausted,
            EvalError::FixedLookupFailed,
            EvalError::ConflictingBitConstraints,
        ])
    );
}

#[test]
fn error_messages() {
    assert_eq!(EvalError::RowsExhausted.render(), "Table rows exhausted");
    assert_eq!(
        EvalError::ConstraintUnsatisfiable("2 = 1".to_string()).render(),
        "Linear constraint is not satisfiable: 2 = 1"
    );
    assert_eq!(
        EvalError::ConflictingBitConstraints.render(),
        "Bit constraints in the expression are conflicting or do not match the constant / offset."
    );
    assert_eq!(
        EvalError::Generic("boom".to_string()).render(),
        "boom"
    );
}

#[test]
fn error_from_string() {
    let e = EvalError::from("something odd".to_string());
    assert_eq!(e, EvalError::Generic("something odd".to_string()));
}

#[test]
fn value_combine_of_two_incomplete_sides_merges_causes() {
    let mut a = EvalValue::incomplete_with_constraints(
        vec![(2, Constraint::Assignment(FieldElement { value: 5 }))],
        IncompleteCause::NonConstantLeftSelector,
    );
    let b = EvalValue::incomplete(IncompleteCause::NoMatchArmFound);
    a.combine(b);
    assert_eq!(a.constraints.len(), 1);
    assert_eq!(
        a.status,
        EvalStatus::Incomplete(IncompleteCause::Multiple(vec![
            IncompleteCause::NonConstantLeftSelector,
            IncompleteCause::NoMatchArmFound,
        ]))
    );
}
