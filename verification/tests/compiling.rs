use kurisu::compiler::{self, DiagLoc};
use kurisu::vm::{RunStep, VM};

fn numbers_for(source: &str) -> Vec<u64> {
    compiler::number_lexemes(source)
        .iter()
        .map(|s| s.parse::<f64>().unwrap().to_bits())
        .collect()
}

#[test]
fn number_lexemes_come_in_scan_order() {
    let lexemes = compiler::number_lexemes("1 + 2.5 * (30 - 4.)");
    assert_eq!(lexemes, vec!["1", "2.5", "30", "4."]);
}

#[test]
fn compile_succeeds_on_a_plain_expression() {
    let source = "1 + 2";
    assert!(compiler::compile(source, &numbers_for(source)).is_some());
}

#[test]
fn unterminated_string_is_a_compile_error() {
    let source = "\"abc";
    let (chunk, diags) = compiler::compile_with_diagnostics(source, &numbers_for(source));
    assert!(chunk.is_none());
    assert!(diags.iter().any(|d| d.message == "Unterminated string"));
}

#[test]
fn unexpected_character_is_a_compile_error() {
    let source = "1 + @";
    let (chunk, diags) = compiler::compile_with_diagnostics(source, &numbers_for(source));
    assert!(chunk.is_none());
    assert!(diags
        .iter()
        .any(|d| d.message == "Unexpected character." && matches!(d.location, DiagLoc::Bare)));
}

#[test]
fn missing_operand_reports_expect_expression() {
    let source = "1 +";
    let (chunk, diags) = compiler::compile_with_diagnostics(source, &numbers_for(source));
    assert!(chunk.is_none());
    assert_eq!(diags.len(), 1);
    assert_eq!(diags[0].message, "Expect expression");
    assert!(matches!(diags[0].location, DiagLoc::AtEnd));
}

#[test]
fn unclosed_grouping_reports_the_paren() {
    let source = "(1 + 2";
    let (chunk, diags) = compiler::compile_with_diagnostics(source, &numbers_for(source));
    assert!(chunk.is_none());
    assert_eq!(diags[0].message, "Expect ')' after expression");
}

#[test]
fn trailing_tokens_report_expected_end() {
    let source = "1 2";
    let (chunk, diags) = compiler::compile_with_diagnostics(source, &numbers_for(source));
    assert!(chunk.is_none());
    assert_eq!(diags[0].message, "Expected end of expression");
    assert!(matches!(&diags[0].location, DiagLoc::At(s) if s == "2"));
}

#[test]
fn panic_mode_suppresses_cascading_diagnostics() {
    let source = "+ + +";
    let (chunk, diags) = compiler::compile_with_diagnostics(source, &numbers_for(source));
    assert!(chunk.is_none());
    assert_eq!(diags.len(), 1);
}

#[test]
fn diagnostics_carry_the_source_line() {
    let source = "1 +\n+";
    let (chunk, diags) = compiler::compile_with_diagnostics(source, &numbers_for(source));
    assert!(chunk.is_none());
    assert_eq!(diags[0].line, 2);
}

#[test]
fn compiled_chunk_runs_without_integrity_faults() {
    let source = "!(nil == nil)";
    let chunk = compiler::compile(source, &numbers_for(source)).expect("compiles");
    let mut vm = VM::new();
    assert!(matches!(vm.start(chunk), RunStep::Finished));
    assert_eq!(vm.output().last().unwrap(), "false");
}
