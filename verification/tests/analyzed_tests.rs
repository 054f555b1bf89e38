use pil_core::analyzed::{
    Analyzed, Expression, Polynomial, PolynomialType, RepeatedArray, SourceRef,
    StatementIdentifier,
};
use pil_core::number::FieldElement;

fn source() -> SourceRef {
    SourceRef {
        file: "input.pil".to_string(),
        line: 1,
    }
}

fn poly(id: u64, name: &str, t: PolynomialType, length: Option<u64>) -> Polynomial {
    Polynomial {
        id,
        source: source(),
        absolute_name: name.to_string(),
        poly_type: t,
        degree: 16,
        length,
    }
}

fn sample() -> Analyzed {
    Analyzed {
        constants: vec![("N".to_string(), FieldElement { value: 16 })],
        definitions: vec![
            (
                "w".to_string(),
                (poly(0, "w", PolynomialType::Committed, None), None),
            ),
            (
                "f".to_string(),
                (poly(1, "f", PolynomialType::Constant, Some(2)), None),
            ),
            (
                "ws".to_string(),
                (poly(2, "ws", PolynomialType::Committed, Some(3)), None),
            ),
            (
                "mid".to_string(),
                (poly(3, "mid", PolynomialType::Intermediate, None), None),
            ),
        ],
        public_declarations: vec![],
        identities: vec![],
        source_order: vec![
            StatementIdentifier::Definition("w".to_string()),
            StatementIdentifier::PublicDeclaration("out".to_string()),
            StatementIdentifier::Definition("f".to_string()),
            StatementIdentifier::Identity(0),
            StatementIdentifier::Definition("ws".to_string()),
            StatementIdentifier::Definition("mid".to_string()),
        ],
    }
}

#[test]
fn counts_sum_declared_lengths_per_type() {
    let a = sample();
    assert_eq!(a.commitment_count(), 4);
    assert_eq!(a.constant_count(), 2);
    assert_eq!(a.intermediate_count(), 1);
}

#[test]
fn counts_partition_the_total() {
    let a = sample();
    let total: usize = a
        .definitions
        .iter()
        .map(|(_, (p, _))| p.length.unwrap_or(1) as usize)
        .sum();
    assert_eq!(
        a.commitment_count() + a.intermediate_count() + a.constant_count(),
        total
    );
}

#[test]
fn definitions_in_source_order_follows_source_order() {
    let a = sample();
    let committed = a.definitions_in_source_order(PolynomialType::Committed);
    let names: Vec<&str> = committed
        .iter()
        .map(|d| d.0.absolute_name.as_str())
        .collect();
    assert_eq!(names, vec!["w", "ws"]);
    let constants = a.definitions_in_source_order(PolynomialType::Constant);
    assert_eq!(constants.len(), 1);
    assert_eq!(constants[0].0.absolute_name, "f");
}

#[test]
fn source_order_wrappers_match() {
    let a = sample();
    let committed = a.committed_polys_in_source_order();
    assert_eq!(committed.len(), 2);
    assert_eq!(committed[0].0.absolute_name, "w");
    assert_eq!(committed[1].0.absolute_name, "ws");
    let constants = a.constant_polys_in_source_order();
    assert_eq!(constants.len(), 1);
    assert_eq!(constants[0].0.absolute_name, "f");
}

#[test]
fn is_array_reflects_length() {
    assert!(!poly(0, "w", PolynomialType::Committed, None).is_array());
    assert!(poly(1, "ws", PolynomialType::Committed, Some(4)).is_array());
}

#[test]
fn repeated_array_size_is_len_times_repetitions() {
    let a = RepeatedArray::new(
        vec![
            Expression::Number(FieldElement { value: 1 }),
            Expression::Number(FieldElement { value: 2 }),
        ],
        3,
    )
    .unwrap();
    assert_eq!(a.size(), 6);
}

#[test]
fn repeated_array_rejects_invariant_violations() {
    // Zero repetitions of a non-empty list violate the invariant.
    assert!(RepeatedArray::new(vec![Expression::Number(FieldElement { value: 1 })], 0).is_none());
    // An empty list with more than one repetition violates the invariant.
    assert!(RepeatedArray::new(vec![], 2).is_none());
    // The allowed edge shapes.
    assert_eq!(RepeatedArray::new(vec![], 0).unwrap().size(), 0);
    assert_eq!(RepeatedArray::new(vec![], 1).unwrap().size(), 0);
}
