use pil_core::data_parser::{
    extract_data_objects, extract_data_value, Argument, Constant, DataValue, Statement,
};

fn sym(s: &str) -> Argument {
    Argument::Symbol(s.to_string())
}

fn num(n: i64) -> Argument {
    Argument::Constant(Constant::Number(n))
}

#[test]
fn data_value_sizes() {
    assert_eq!(DataValue::Direct(vec![1, 2, 3]).size(), 3);
    assert_eq!(DataValue::Reference("other".to_string()).size(), 4);
    assert_eq!(DataValue::Direct(vec![]).size(), 0);
}

#[test]
fn zero_directive_gives_zero_bytes() {
    let r = extract_data_value(".zero", &[num(3)]);
    assert_eq!(r, vec![DataValue::Direct(vec![0, 0, 0])]);
    // A second argument is tolerated.
    let r = extract_data_value(".zero", &[num(2), num(8)]);
    assert_eq!(r, vec![DataValue::Direct(vec![0, 0])]);
}

#[test]
fn ascii_directive_gives_bytes_verbatim() {
    let r = extract_data_value(".ascii", &[Argument::StringLiteral(vec![104, 105])]);
    assert_eq!(r, vec![DataValue::Direct(vec![104, 105])]);
}

#[test]
fn asciz_directive_appends_terminator() {
    let r = extract_data_value(".asciz", &[Argument::StringLiteral(vec![104, 105])]);
    assert_eq!(r, vec![DataValue::Direct(vec![104, 105, 0])]);
}

#[test]
fn word_directive_encodes_little_endian_and_references() {
    let r = extract_data_value(".word", &[num(0x01020304), sym("other")]);
    assert_eq!(
        r,
        vec![
            DataValue::Direct(vec![4, 3, 2, 1]),
            DataValue::Reference("other".to_string()),
        ]
    );
}

#[test]
fn word_directive_truncates_to_low_32_bits() {
    let r = extract_data_value(".word", &[num(-1)]);
    assert_eq!(r, vec![DataValue::Direct(vec![255, 255, 255, 255])]);
}

#[test]
fn byte_directive_truncates_to_low_8_bits() {
    let r = extract_data_value(".byte", &[num(7), num(300)]);
    assert_eq!(r, vec![DataValue::Direct(vec![7, 44])]);
}

#[test]
fn objects_collect_data_under_their_label() {
    let statements = vec![
        Statement::Directive(".type".to_string(), vec![sym("msg"), sym("@object")]),
        Statement::Label("msg".to_string()),
        Statement::Directive(".ascii".to_string(), vec![Argument::StringLiteral(vec![104, 105])]),
        Statement::Directive(".word".to_string(), vec![sym("msg")]),
        Statement::Directive(".size".to_string(), vec![sym("msg"), num(6)]),
    ];
    let objects = extract_data_objects(&statements);
    assert_eq!(objects.len(), 1);
    assert_eq!(objects[0].0, "msg");
    assert_eq!(
        objects[0].1,
        vec![
            DataValue::Direct(vec![104, 105]),
            DataValue::Reference("msg".to_string()),
        ]
    );
}

#[test]
fn sized_object_without_elements_is_created_empty() {
    let statements = vec![
        Statement::Label("empty".to_string()),
        Statement::Directive(".size".to_string(), vec![sym("empty"), num(0)]),
    ];
    let objects = extract_data_objects(&statements);
    assert_eq!(objects.len(), 1);
    assert_eq!(objects[0].0, "empty");
    assert!(objects[0].1.is_empty());
}

#[test]
fn data_under_undeclared_label_is_ignored() {
    let statements = vec![
        Statement::Label("code".to_string()),
        Statement::Directive(".ascii".to_string(), vec![Argument::StringLiteral(vec![1])]),
        Statement::Instruction("ret".to_string(), vec![]),
    ];
    let objects = extract_data_objects(&statements);
    assert!(objects.is_empty());
}

#[test]
fn type_directive_of_other_kinds_is_ignored() {
    let statements = vec![
        Statement::Directive(".type".to_string(), vec![sym("f"), sym("@function")]),
    ];
    let objects = extract_data_objects(&statements);
    assert!(objects.is_empty());
}
