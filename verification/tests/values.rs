use kurisu::chunk::Chunk;
use kurisu::opcode::OpCode;
use kurisu::value::{Object, Value};
use kurisu::vm::{RunStep, VM};

#[test]
fn falsey_values() {
    assert!(Value::Nil.is_falsey());
    assert!(Value::Boolean(false).is_falsey());
    assert!(!Value::Boolean(true).is_falsey());
    assert!(!Value::Number(0f64.to_bits()).is_falsey());
    assert!(!Value::string_obj(String::new()).is_falsey());
}

#[test]
fn variant_predicates() {
    let n = Value::Number(2.5f64.to_bits());
    assert!(n.is_number());
    assert!(!n.is_string());
    assert_eq!(f64::from_bits(n.to_number()), 2.5);
    let s = Value::string_obj("hi".to_string());
    assert!(s.is_string());
    assert!(!s.is_number());
    assert_eq!(s.as_string(), "hi");
}

#[test]
fn object_accessors() {
    let o = Object::String("abc".to_string());
    assert!(o.is_string());
    assert_eq!(o.as_string(), "abc");
}

#[test]
fn decided_equality() {
    assert_eq!(Value::Nil.eq_decided(&Value::Nil), Some(true));
    assert_eq!(
        Value::Boolean(true).eq_decided(&Value::Boolean(false)),
        Some(false)
    );
    assert_eq!(
        Value::Boolean(true).eq_decided(&Value::Number(1f64.to_bits())),
        Some(false)
    );
    assert_eq!(
        Value::string_obj("x".to_string()).eq_decided(&Value::string_obj("x".to_string())),
        Some(true)
    );
    assert_eq!(
        Value::Number(1f64.to_bits()).eq_decided(&Value::Number(1f64.to_bits())),
        None
    );
}

#[test]
fn display_text_of_non_numbers() {
    assert_eq!(Value::Nil.display_text().unwrap(), "nil");
    assert_eq!(Value::Boolean(true).display_text().unwrap(), "true");
    assert_eq!(Value::Boolean(false).display_text().unwrap(), "false");
    assert_eq!(
        Value::string_obj("raw text".to_string()).display_text().unwrap(),
        "raw text"
    );
    assert!(Value::Number(1f64.to_bits()).display_text().is_none());
}

#[test]
fn deep_clone_copies_string_contents() {
    let original = Value::string_obj("shared".to_string());
    let copy = original.clone();
    assert_eq!(copy.as_string(), "shared");
    drop(original);
    assert_eq!(copy.as_string(), "shared");
}

#[test]
fn unknown_opcode_is_a_bytecode_integrity_fault() {
    let mut chunk = Chunk::new();
    chunk.append(42, 1);
    let mut vm = VM::new();
    assert!(matches!(vm.start(chunk), RunStep::CompileFault));
}

#[test]
fn return_on_an_empty_stack_is_an_integrity_fault() {
    let mut chunk = Chunk::new();
    chunk.append(OpCode::Return.as_byte(), 1);
    let mut vm = VM::new();
    assert!(matches!(vm.start(chunk), RunStep::CompileFault));
}

#[test]
fn hand_built_chunk_runs_not_instruction() {
    let mut chunk = Chunk::new();
    chunk.append(OpCode::Nil.as_byte(), 1);
    chunk.append(OpCode::Not.as_byte(), 1);
    chunk.append(OpCode::Return.as_byte(), 1);
    let mut vm = VM::new();
    assert!(matches!(vm.start(chunk), RunStep::Finished));
    assert_eq!(vm.output().last().unwrap(), "true");
}
