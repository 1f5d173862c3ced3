use kurisu::compiler;
use kurisu::vm::{NumReply, NumRequest, RunStep, VM, VMError};

fn answer(req: NumRequest) -> NumReply {
    match req {
        NumRequest::Negate(a) => NumReply::Bits((-f64::from_bits(a)).to_bits()),
        NumRequest::Add(a, b) => NumReply::Bits((f64::from_bits(a) + f64::from_bits(b)).to_bits()),
        NumRequest::Subtract(a, b) => {
            NumReply::Bits((f64::from_bits(a) - f64::from_bits(b)).to_bits())
        }
        NumRequest::Multiply(a, b) => {
            NumReply::Bits((f64::from_bits(a) * f64::from_bits(b)).to_bits())
        }
        NumRequest::Divide(a, b) => {
            NumReply::Bits((f64::from_bits(a) / f64::from_bits(b)).to_bits())
        }
        NumRequest::Equals(a, b) => NumReply::Truth(f64::from_bits(a) == f64::from_bits(b)),
        NumRequest::GreaterThan(a, b) => NumReply::Truth(f64::from_bits(a) > f64::from_bits(b)),
        NumRequest::LessThan(a, b) => NumReply::Truth(f64::from_bits(a) < f64::from_bits(b)),
        NumRequest::Print(a) => NumReply::Text(format!("{}", f64::from_bits(a))),
    }
}

fn interpret(vm: &mut VM, source: &str) -> Result<(), VMError> {
    let lexemes = compiler::number_lexemes(source);
    let numbers: Vec<u64> = lexemes
        .iter()
        .map(|s| s.parse::<f64>().unwrap().to_bits())
        .collect();
    let chunk = match compiler::compile(source, &numbers) {
        Some(c) => c,
        None => return Err(VMError::Compile),
    };
    let mut step = vm.start(chunk);
    loop {
        match step {
            RunStep::Finished => return Ok(()),
            RunStep::CompileFault => return Err(VMError::Compile),
            RunStep::RuntimeFault => return Err(VMError::Runtime),
            RunStep::Await(req) => step = vm.resume(answer(req)),
        }
    }
}

fn printed(source: &str) -> String {
    let mut vm = VM::new();
    interpret(&mut vm, source).expect("interpretation failed");
    vm.output().last().expect("nothing printed").clone()
}

#[test]
fn precedence_multiplication_binds_tighter() {
    assert_eq!(printed("1 + 2 * 3"), "7");
}

#[test]
fn precedence_grouping_overrides() {
    assert_eq!(printed("(1 + 2) * 3"), "9");
}

#[test]
fn precedence_unary_binds_tighter_than_binary() {
    assert_eq!(printed("-1 + 2"), "1");
}

#[test]
fn bare_constant_prints_itself() {
    assert_eq!(printed("1"), "1");
}

#[test]
fn end_to_end_arithmetic() {
    assert_eq!(printed("(-1 + 2) * 3 - 4 / 2"), "1");
}

#[test]
fn fractional_literals_evaluate() {
    assert_eq!(printed("1.5 + 0.25"), "1.75");
}

#[test]
fn division_by_zero_follows_ieee() {
    assert_eq!(printed("1 / 0"), "inf");
}

#[test]
fn cross_type_subtraction_is_a_runtime_error() {
    let mut vm = VM::new();
    assert!(matches!(
        interpret(&mut vm, "1 - \"a\""),
        Err(VMError::Runtime)
    ));
    let diags = vm.runtime_diagnostics();
    assert_eq!(diags.len(), 1);
    assert_eq!(diags[0].message, "Operands must be numbers");
    assert_eq!(diags[0].line, 1);
}

#[test]
fn string_concatenation_evaluates() {
    assert_eq!(printed("\"a\" + \"b\""), "ab");
}

#[test]
fn negating_a_string_is_a_runtime_error() {
    let mut vm = VM::new();
    assert!(matches!(
        interpret(&mut vm, "-\"a\""),
        Err(VMError::Runtime)
    ));
    let diags = vm.runtime_diagnostics();
    assert_eq!(diags.len(), 1);
    assert_eq!(diags[0].message, "Operand must be a number");
}

#[test]
fn falsey_nil_and_false_truthy_everything_else() {
    assert_eq!(printed("!nil"), "true");
    assert_eq!(printed("!false"), "true");
    assert_eq!(printed("!true"), "false");
    assert_eq!(printed("!0"), "false");
    assert_eq!(printed("!\"s\""), "false");
    assert_eq!(printed("!!nil"), "false");
}

#[test]
fn equality_nil_equals_nil() {
    assert_eq!(printed("nil == nil"), "true");
}

#[test]
fn equality_cross_variant_is_false() {
    assert_eq!(printed("1 == true"), "false");
    assert_eq!(printed("\"1\" == 1"), "false");
}

#[test]
fn equality_strings_compare_by_contents() {
    assert_eq!(printed("\"ab\" == \"a\" + \"b\""), "true");
    assert_eq!(printed("\"ab\" == \"ba\""), "false");
}

#[test]
fn equality_numbers_compare_by_value() {
    assert_eq!(printed("1 == 1"), "true");
    assert_eq!(printed("1 == 2"), "false");
    assert_eq!(printed("1 != 2"), "true");
}

#[test]
fn comparisons_on_numbers() {
    assert_eq!(printed("1 < 2"), "true");
    assert_eq!(printed("2 <= 1"), "false");
    assert_eq!(printed("2 > 1"), "true");
    assert_eq!(printed("1 >= 2"), "false");
}

#[test]
fn comparisons_require_numbers() {
    let mut vm = VM::new();
    assert!(matches!(
        interpret(&mut vm, "\"a\" < \"b\""),
        Err(VMError::Runtime)
    ));
    assert_eq!(vm.runtime_diagnostics()[0].message, "Operands must be numbers");
}

#[test]
fn long_form_constants_run_end_to_end() {
    // 300 literals overflow the one-byte index space at the 257th
    // insertion, so the later loads take the 5-byte long form.
    let mut source = String::from("0");
    for _ in 0..299 {
        source.push_str(" + 1");
    }
    assert_eq!(printed(&source), "299");
}

#[test]
fn one_machine_interprets_many_programs() {
    let mut vm = VM::new();
    interpret(&mut vm, "1 + 1").unwrap();
    interpret(&mut vm, "\"a\" + \"b\"").unwrap();
    let out: Vec<String> = vm.output().clone();
    assert_eq!(out, vec!["2".to_string(), "ab".to_string()]);
}

#[test]
fn booleans_print_their_names() {
    assert_eq!(printed("true"), "true");
    assert_eq!(printed("nil"), "nil");
    assert_eq!(printed("\"hi\""), "hi");
}
