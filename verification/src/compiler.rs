//! The single-pass compiler: a precedence-climbing parser that pulls
//! tokens from the scanner and emits bytecode straight into a chunk, with
//! panic-mode error recovery and structured diagnostics.

use vstd::prelude::*;

use crate::chunk::{
    append_constant_model, append_model, chunk_extends, code_wf, empty_chunk,
    lemma_chunk_extends_append, lemma_chunk_extends_append_constant, lemma_chunk_extends_refl,
    lemma_chunk_extends_trans, lemma_code_wf_append, lemma_code_wf_append_constant,
    lemma_seg_depth_concat, lemma_seg_depth_frame, seg_depth, Chunk, ChunkV,
};
use crate::opcode::{opcode_of, opcode_value, OpCode};
use crate::scanner::{lemma_scan_progress, scan_spec, Scanner, Token, TokenType};
use crate::value::{string_views, Value, ValueV};

verus! {

/// Where a compile diagnostic points: the end of the source, a concrete
/// lexeme, or nowhere extra (the token was itself an error token carrying
/// its own message).
pub enum DiagLoc {
    AtEnd,
    At(String),
    Bare,
}

/// One compile diagnostic; a driver renders it as
/// `[line N] Error <location>: <message>`.
pub struct CompileDiag {
    pub line: usize,
    pub location: DiagLoc,
    pub message: String,
}

/// Infix binding strength, lowest to highest.
#[derive(Debug, Clone, Copy, PartialEq, Eq, Structural)]
pub enum Precedence {
    PrecNone,
    Assignment,
    Or,
    And,
    Equality,
    Comparison,
    Term,
    Factor,
    Unary,
    Call,
    Primary,
}

/// The numeric level of a precedence, for threshold comparisons.
pub open spec fn prec_level(p: Precedence) -> u8 {
    match p {
        Precedence::PrecNone => 0,
        Precedence::Assignment => 1,
        Precedence::Or => 2,
        Precedence::And => 3,
        Precedence::Equality => 4,
        Precedence::Comparison => 5,
        Precedence::Term => 6,
        Precedence::Factor => 7,
        Precedence::Unary => 8,
        Precedence::Call => 9,
        Precedence::Primary => 10,
    }
}

fn prec_level_exec(p: Precedence) -> (r: u8)
    ensures
        r == prec_level(p),
{
    match p {
        Precedence::PrecNone => 0,
        Precedence::Assignment => 1,
        Precedence::Or => 2,
        Precedence::And => 3,
        Precedence::Equality => 4,
        Precedence::Comparison => 5,
        Precedence::Term => 6,
        Precedence::Factor => 7,
        Precedence::Unary => 8,
        Precedence::Call => 9,
        Precedence::Primary => 10,
    }
}

/// The precedence one level above `p`.
fn precedence_above(p: Precedence) -> (r: Precedence)
    requires
        prec_level(p) < 10,
    ensures
        prec_level(r) == prec_level(p) + 1,
{
    match p {
        Precedence::PrecNone => Precedence::Assignment,
        Precedence::Assignment => Precedence::Or,
        Precedence::Or => Precedence::And,
        Precedence::And => Precedence::Equality,
        Precedence::Equality => Precedence::Comparison,
        Precedence::Comparison => Precedence::Term,
        Precedence::Term => Precedence::Factor,
        Precedence::Factor => Precedence::Unary,
        Precedence::Unary => Precedence::Call,
        Precedence::Call => Precedence::Primary,
        Precedence::Primary => Precedence::Primary,
    }
}

/// The parse routine a token kind supplies when it opens an expression.
#[derive(Debug, Clone, Copy, PartialEq, Eq, Structural)]
pub enum PrefixRule {
    NoPrefix,
    Grouping,
    UnaryOp,
    NumberLit,
    StringLit,
    Literal,
}

/// The parse routine a token kind supplies when it joins two operands.
#[derive(Debug, Clone, Copy, PartialEq, Eq, Structural)]
pub enum InfixRule {
    NoInfix,
    Binary,
}

/// One row of the parse table: the optional prefix routine, the optional
/// infix routine, and the infix binding precedence of a token kind.
#[derive(Debug, Clone, Copy, PartialEq, Eq, Structural)]
pub struct ParseRule {
    pub prefix: PrefixRule,
    pub infix: InfixRule,
    pub precedence: Precedence,
}

/// The immutable mapping from token kind to its parse rule.
pub open spec fn rule_of_spec(t: TokenType) -> ParseRule {
    match t {
        TokenType::LeftParen => ParseRule {
            prefix: PrefixRule::Grouping,
            infix: InfixRule::NoInfix,
            precedence: Precedence::PrecNone,
        },
        TokenType::Minus => ParseRule {
            prefix: PrefixRule::UnaryOp,
            infix: InfixRule::Binary,
            precedence: Precedence::Term,
        },
        TokenType::Plus => ParseRule {
            prefix: PrefixRule::NoPrefix,
            infix: InfixRule::Binary,
            precedence: Precedence::Term,
        },
        TokenType::Slash => ParseRule {
            prefix: PrefixRule::NoPrefix,
            infix: InfixRule::Binary,
            precedence: Precedence::Factor,
        },
        TokenType::Star => ParseRule {
            prefix: PrefixRule::NoPrefix,
            infix: InfixRule::Binary,
            precedence: Precedence::Factor,
        },
        TokenType::Bang => ParseRule {
            prefix: PrefixRule::UnaryOp,
            infix: InfixRule::NoInfix,
            precedence: Precedence::PrecNone,
        },
        TokenType::BangEqual => ParseRule {
            prefix: PrefixRule::NoPrefix,
            infix: InfixRule::Binary,
            precedence: Precedence::Equality,
        },
        TokenType::EqualEqual => ParseRule {
            prefix: PrefixRule::NoPrefix,
            infix: InfixRule::Binary,
            precedence: Precedence::Equality,
        },
        TokenType::Greater => ParseRule {
            prefix: PrefixRule::NoPrefix,
            infix: InfixRule::Binary,
            precedence: Precedence::Comparison,
        },
        TokenType::GreaterEqual => ParseRule {
            prefix: PrefixRule::NoPrefix,
            infix: InfixRule::Binary,
            precedence: Precedence::Comparison,
        },
        TokenType::Less => ParseRule {
            prefix: PrefixRule::NoPrefix,
            infix: InfixRule::Binary,
            precedence: Precedence::Comparison,
        },
        TokenType::LessEqual => ParseRule {
            prefix: PrefixRule::NoPrefix,
            infix: InfixRule::Binary,
            precedence: Precedence::Comparison,
        },
        TokenType::Number => ParseRule {
            prefix: PrefixRule::NumberLit,
            infix: InfixRule::NoInfix,
            precedence: Precedence::PrecNone,
        },
        TokenType::String => ParseRule {
            prefix: PrefixRule::StringLit,
            infix: InfixRule::NoInfix,
            precedence: Precedence::PrecNone,
        },
        TokenType::Nil => ParseRule {
            prefix: PrefixRule::Literal,
            infix: InfixRule::NoInfix,
            precedence: Precedence::PrecNone,
        },
        TokenType::True => ParseRule {
            prefix: PrefixRule::Literal,
            infix: InfixRule::NoInfix,
            precedence: Precedence::PrecNone,
        },
        TokenType::False => ParseRule {
            prefix: PrefixRule::Literal,
            infix: InfixRule::NoInfix,
            precedence: Precedence::PrecNone,
        },
        _ => ParseRule {
            prefix: PrefixRule::NoPrefix,
            infix: InfixRule::NoInfix,
            precedence: Precedence::PrecNone,
        },
    }
}

/// Looks up the parse rule of a token kind.
fn rule_of(t: TokenType) -> (r: ParseRule)
    ensures
        r == rule_of_spec(t),
        r.precedence != Precedence::PrecNone ==> r.infix == InfixRule::Binary && t
            != TokenType::Eof,
        prec_level(r.precedence) <= 7,
{
    match t {
        TokenType::LeftParen => ParseRule {
            prefix: PrefixRule::Grouping,
            infix: InfixRule::NoInfix,
            precedence: Precedence::PrecNone,
        },
        TokenType::Minus => ParseRule {
            prefix: PrefixRule::UnaryOp,
            infix: InfixRule::Binary,
            precedence: Precedence::Term,
        },
        TokenType::Plus => ParseRule {
            prefix: PrefixRule::NoPrefix,
            infix: InfixRule::Binary,
            precedence: Precedence::Term,
        },
        TokenType::Slash => ParseRule {
            prefix: PrefixRule::NoPrefix,
            infix: InfixRule::Binary,
            precedence: Precedence::Factor,
        },
        TokenType::Star => ParseRule {
            prefix: PrefixRule::NoPrefix,
            infix: InfixRule::Binary,
            precedence: Precedence::Factor,
        },
        TokenType::Bang => ParseRule {
            prefix: PrefixRule::UnaryOp,
            infix: InfixRule::NoInfix,
            precedence: Precedence::PrecNone,
        },
        TokenType::BangEqual => ParseRule {
            prefix: PrefixRule::NoPrefix,
            infix: InfixRule::Binary,
            precedence: Precedence::Equality,
        },
        TokenType::EqualEqual => ParseRule {
            prefix: PrefixRule::NoPrefix,
            infix: InfixRule::Binary,
            precedence: Precedence::Equality,
        },
        TokenType::Greater => ParseRule {
            prefix: PrefixRule::NoPrefix,
            infix: InfixRule::Binary,
            precedence: Precedence::Comparison,
        },
        TokenType::GreaterEqual => ParseRule {
            prefix: PrefixRule::NoPrefix,
            infix: InfixRule::Binary,
            precedence: Precedence::Comparison,
        },
        TokenType::Less => ParseRule {
            prefix: PrefixRule::NoPrefix,
            infix: InfixRule::Binary,
            precedence: Precedence::Comparison,
        },
        TokenType::LessEqual => ParseRule {
            prefix: PrefixRule::NoPrefix,
            infix: InfixRule::Binary,
            precedence: Precedence::Comparison,
        },
        TokenType::Number => ParseRule {
            prefix: PrefixRule::NumberLit,
            infix: InfixRule::NoInfix,
            precedence: Precedence::PrecNone,
        },
        TokenType::String => ParseRule {
            prefix: PrefixRule::StringLit,
            infix: InfixRule::NoInfix,
            precedence: Precedence::PrecNone,
        },
        TokenType::Nil => ParseRule {
            prefix: PrefixRule::Literal,
            infix: InfixRule::NoInfix,
            precedence: Precedence::PrecNone,
        },
        TokenType::True => ParseRule {
            prefix: PrefixRule::Literal,
            infix: InfixRule::NoInfix,
            precedence: Precedence::PrecNone,
        },
        TokenType::False => ParseRule {
            prefix: PrefixRule::Literal,
            infix: InfixRule::NoInfix,
            precedence: Precedence::PrecNone,
        },
        _ => ParseRule {
            prefix: PrefixRule::NoPrefix,
            infix: InfixRule::NoInfix,
            precedence: Precedence::PrecNone,
        },
    }
}

/// Clamps a scanner line number into the chunk's 32-bit line table.
pub open spec fn line_u32(l: int) -> u32 {
    if l > u32::MAX {
        u32::MAX
    } else if l < 0 {
        0
    } else {
        l as u32
    }
}

fn line_u32_exec(l: usize) -> (r: u32)
    ensures
        r == line_u32(l as int),
{
    if l > u32::MAX as usize {
        u32::MAX
    } else {
        l as u32
    }
}

/// The single-pass compiler's state: one token of lookahead over the
/// scanner, the chunk under construction, the sticky error flag with its
/// cascade-suppressing panic mode, the collected diagnostics, and the
/// host-supplied values of the source's number literals, consumed in scan
/// order.
struct Parser {
    previous: Token,
    current: Token,
    had_error: bool,
    panic_mode: bool,
    scanner: Scanner,
    chunk: Chunk,
    diags: Vec<CompileDiag>,
    numbers: Vec<u64>,
    num_index: usize,
}

/// Whether a token kind is a constant-loading literal: a number or a
/// string.
pub open spec fn lit_operand(t: TokenType) -> bool {
    t == TokenType::Number || t == TokenType::String
}

/// The constant a literal token loads: for a number, the host value at
/// `idx`; for a string, the lexeme's text with its quotes stripped.
pub open spec fn operand_value(
    numbers: Seq<u64>,
    idx: int,
    kind: TokenType,
    text: Seq<char>,
) -> ValueV {
    if kind == TokenType::Number {
        ValueV::Number(numbers[idx])
    } else {
        ValueV::Str(string_content(text))
    }
}

/// How many host values a literal token consumes: one for a number, none
/// for a string.
pub open spec fn nums_used(t: TokenType) -> int {
    if t == TokenType::Number {
        1int
    } else {
        0int
    }
}

/// The lookahead holds a literal (number or string), the rest of the
/// source scans as end-of-input, a host value is still available where
/// the literal needs one, and the pool can take one more constant: the
/// situation in which `parse_precedence` is guaranteed to succeed
/// outright.
spec fn single_literal_ahead(p: &Parser) -> bool {
    &&& lit_operand(p.current.type_)
    &&& scan_spec(p.scanner@.source, p.scanner@.current, p.scanner@.line).kind == TokenType::Eof
    &&& (p.current.type_ == TokenType::Number ==> p.num_index < p.numbers@.len())
    &&& p.chunk@.constants.len() < 0xffff_ffff
}

/// What holds after an expression position turned out to hold a token
/// with no prefix rule: `Expect expression` is recorded against it —
/// unless panic mode had already swallowed diagnostics — the error flag is
/// set, and nothing was emitted.
spec fn missing_prefix_post(pre: &Parser, post: &Parser) -> bool {
    rule_of_spec(pre.current.type_).prefix == PrefixRule::NoPrefix ==> {
        &&& post.chunk == pre.chunk
        &&& post.had_error
        &&& (!pre.panic_mode && scan_spec(
            pre.scanner@.source,
            pre.scanner@.current,
            pre.scanner@.line,
        ).kind != TokenType::Error) ==> {
            &&& post.diags@.len() == pre.diags@.len() + 1
            &&& post.diags@.subrange(0, pre.diags@.len() as int) == pre.diags@
            &&& post.diags@.last().message@ == "Expect expression"@
            &&& post.diags@.last().line == pre.current.line
            &&& (pre.current.type_ == TokenType::Eof ==> post.diags@.last().location is AtEnd)
            &&& (pre.current.type_ != TokenType::Eof && pre.current.type_ != TokenType::Error
                ==> (post.diags@.last().location matches DiagLoc::At(lex) && lex@
                == pre.current.name@))
        }
    }
}

/// `b` extends `a`: diagnostics are only ever appended, never rewritten.
pub open spec fn diags_extend(a: Seq<CompileDiag>, b: Seq<CompileDiag>) -> bool {
    &&& a.len() <= b.len()
    &&& a == b.subrange(0, a.len() as int)
}

proof fn lemma_diags_extend_refl(a: Seq<CompileDiag>)
    ensures
        diags_extend(a, a),
{
    assert(a =~= a.subrange(0, a.len() as int));
}

proof fn lemma_diags_extend_trans(a: Seq<CompileDiag>, b: Seq<CompileDiag>, c: Seq<CompileDiag>)
    requires
        diags_extend(a, b),
        diags_extend(b, c),
    ensures
        diags_extend(a, c),
{
    assert(a =~= c.subrange(0, a.len() as int));
}

/// The code emitted between offsets `lo` and `hi` raises any starting
/// stack depth of at least `base` by exactly `gain`, and never underflows
/// on the way: the balanced-stack-effect property of the code a parse
/// routine appends.
pub open spec fn emits_depth(code: Seq<u8>, lo: int, hi: int, base: int, gain: int) -> bool {
    forall|dd: int| dd >= base ==> seg_depth(code, lo, hi, dd) == Some(dd + gain)
}

/// One whole constant-load instruction appended at the end of `pre`'s
/// code pushes exactly one value.
proof fn lemma_constant_load_depth(pre: ChunkV, post: ChunkV)
    requires
        pre.constants.len() < 0xffff_ffff,
        post == append_constant_model(pre, post.constants.last(), post.lines.last()),
    ensures
        emits_depth(post.code, pre.code.len() as int, post.code.len() as int, 0, 1),
{
    let lo = pre.code.len() as int;
    let hi = post.code.len() as int;
    let idx = pre.constants.len() as int;
    assert forall|dd: int| dd >= 0 implies seg_depth(post.code, lo, hi, dd) == Some(dd + 1) by {
        if idx < 256 {
            assert(post.code[lo] == opcode_value(OpCode::Constant));
            assert(hi == lo + 2);
            assert(seg_depth(post.code, lo + 2, hi, dd + 1) == Some(dd + 1));
        } else {
            assert(post.code[lo] == opcode_value(OpCode::ConstantLong));
            assert(hi == lo + 5);
            assert(seg_depth(post.code, lo + 5, hi, dd + 1) == Some(dd + 1));
        }
    }
}

/// One `Nil`, `True` or `False` byte appended at the end of `pre`'s code
/// pushes exactly one value.
proof fn lemma_push_literal_depth(pre: ChunkV, post: ChunkV)
    requires
        post.code == pre.code.push(opcode_value(OpCode::Nil)) || post.code == pre.code.push(
            opcode_value(OpCode::True),
        ) || post.code == pre.code.push(opcode_value(OpCode::False)),
    ensures
        emits_depth(post.code, pre.code.len() as int, post.code.len() as int, 0, 1),
{
    let lo = pre.code.len() as int;
    let hi = post.code.len() as int;
    assert forall|dd: int| dd >= 0 implies seg_depth(post.code, lo, hi, dd) == Some(dd + 1) by {
        assert(seg_depth(post.code, lo + 1, hi, dd + 1) == Some(dd + 1));
    }
}

/// Composes an operand's balanced segment with the operator byte or two
/// appended after it: the operand code between `pre` and `mid` raises any
/// depth `dd >= base` by one, and the one or two operand-less operator
/// bytes between `mid` and `post` consume what their instructions need,
/// landing on `dd + gain`.
proof fn lemma_operator_tail_depth(pre: ChunkV, mid: ChunkV, post: ChunkV, base: int, gain: int)
    requires
        emits_depth(mid.code, pre.code.len() as int, mid.code.len() as int, 0, 1),
        chunk_extends(mid, post),
        base >= 0,
        forall|dd: int| dd >= base ==> #[trigger] seg_depth(
            post.code,
            mid.code.len() as int,
            post.code.len() as int,
            dd + 1,
        ) == Some(dd + gain),
    ensures
        emits_depth(post.code, pre.code.len() as int, post.code.len() as int, base, gain),
{
    let lo = pre.code.len() as int;
    let l1 = mid.code.len() as int;
    let hi = post.code.len() as int;
    assert forall|dd: int| dd >= base implies seg_depth(post.code, lo, hi, dd) == Some(dd + gain) by {
        assert forall|i: int| lo <= i < l1 implies mid.code[i] == post.code[i] by {
            assert(mid.code[i] == post.code.subrange(0, l1)[i]);
        }
        assert(seg_depth(mid.code, lo, l1, dd) == Some(dd + 1));
        lemma_seg_depth_frame(mid.code, post.code, lo, l1, dd);
        lemma_seg_depth_concat(post.code, lo, l1, hi, dd);
    }
}

/// The instruction byte an arithmetic infix operator compiles to.
pub open spec fn binop_byte(t: TokenType) -> u8 {
    match t {
        TokenType::Plus => opcode_value(OpCode::Add),
        TokenType::Minus => opcode_value(OpCode::Subtract),
        TokenType::Star => opcode_value(OpCode::Multiply),
        TokenType::Slash => opcode_value(OpCode::Divide),
        _ => opcode_value(OpCode::Unknown),
    }
}

/// Whether `t` is one of the four arithmetic infix operators.
pub open spec fn is_arith_op(t: TokenType) -> bool {
    t == TokenType::Plus || t == TokenType::Minus || t == TokenType::Star || t == TokenType::Slash
}

/// The lookahead holds a literal (number or string), an arithmetic
/// operator follows, then a second literal, then end-of-input; a host
/// value is still available for each number among them and the pool has
/// two slots: the situation in which `parse_precedence` is guaranteed to
/// compile a whole binary expression outright.
spec fn lit_op_lit_ahead(s: &Parser) -> bool {
    let src = s.scanner@.source;
    let s_op = scan_spec(src, s.scanner@.current, s.scanner@.line);
    let s_rhs = scan_spec(src, s_op.end, s_op.line);
    let s_eof = scan_spec(src, s_rhs.end, s_rhs.line);
    &&& lit_operand(s.current.type_)
    &&& is_arith_op(s_op.kind)
    &&& lit_operand(s_rhs.kind)
    &&& s_eof.kind == TokenType::Eof
    &&& s.num_index + nums_used(s.current.type_) + nums_used(s_rhs.kind) <= s.numbers@.len()
    &&& s.chunk@.constants.len() + 1 < 0xffff_ffff
}

/// What compiling a whole `literal operator literal` expression leaves
/// behind: both constants loaded in order, the operator's instruction
/// after them, the lookahead at end-of-input, and no error.
spec fn lit_op_lit_post(pre: &Parser, post: &Parser) -> bool {
    let src = pre.scanner@.source;
    let s_op = scan_spec(src, pre.scanner@.current, pre.scanner@.line);
    let s_rhs = scan_spec(src, s_op.end, s_op.line);
    let s_eof = scan_spec(src, s_rhs.end, s_rhs.line);
    &&& post.chunk@ == append_model(
        append_constant_model(
            append_constant_model(
                pre.chunk@,
                operand_value(
                    pre.numbers@,
                    pre.num_index as int,
                    pre.current.type_,
                    pre.current.name@,
                ),
                line_u32(pre.current.line as int),
            ),
            operand_value(
                pre.numbers@,
                pre.num_index + nums_used(pre.current.type_),
                s_rhs.kind,
                s_rhs.text,
            ),
            line_u32(s_rhs.line),
        ),
        binop_byte(s_op.kind),
        line_u32(s_rhs.line),
    )
    &&& post.num_index == pre.num_index + nums_used(pre.current.type_) + nums_used(s_rhs.kind)
    &&& post.had_error == pre.had_error
    &&& post.panic_mode == pre.panic_mode
    &&& post.diags == pre.diags
    &&& post.numbers == pre.numbers
    &&& post.current.type_ == TokenType::Eof
    &&& post.current.line == s_eof.line
}

/// The lookahead holds an arithmetic operator, a literal follows, then
/// end-of-input, with a host value available where the literal needs one
/// and a pool slot free: the infix loop is guaranteed to finish the
/// expression in one step.
spec fn op_literal_eof_ahead(s: &Parser) -> bool {
    let src = s.scanner@.source;
    let s_rhs = scan_spec(src, s.scanner@.current, s.scanner@.line);
    let s_eof = scan_spec(src, s_rhs.end, s_rhs.line);
    &&& is_arith_op(s.current.type_)
    &&& lit_operand(s_rhs.kind)
    &&& s_eof.kind == TokenType::Eof
    &&& (s_rhs.kind == TokenType::Number ==> s.num_index < s.numbers@.len())
    &&& s.chunk@.constants.len() < 0xffff_ffff
}

/// What one pass of the infix loop leaves behind in the situation of
/// `op_literal_eof_ahead`: the right operand's constant and the operator's
/// instruction appended, the lookahead at end-of-input, and no error.
spec fn op_done_post(pre: &Parser, post: &Parser) -> bool {
    let src = pre.scanner@.source;
    let s_rhs = scan_spec(src, pre.scanner@.current, pre.scanner@.line);
    let s_eof = scan_spec(src, s_rhs.end, s_rhs.line);
    &&& post.chunk@ == append_model(
        append_constant_model(
            pre.chunk@,
            operand_value(pre.numbers@, pre.num_index as int, s_rhs.kind, s_rhs.text),
            line_u32(s_rhs.line),
        ),
        binop_byte(pre.current.type_),
        line_u32(s_rhs.line),
    )
    &&& post.num_index == pre.num_index + nums_used(s_rhs.kind)
    &&& post.had_error == pre.had_error
    &&& post.panic_mode == pre.panic_mode
    &&& post.diags == pre.diags
    &&& post.numbers == pre.numbers
    &&& post.current.type_ == TokenType::Eof
    &&& post.current.line == s_eof.line
}

/// The parser invariant: scanner and chunk are well formed, the emitted
/// code is structurally sound, diagnostics and the error flags agree, and
/// once the lookahead is `Eof` the scanner is parked at the end.
spec fn pwf(p: &Parser) -> bool {
    &&& p.scanner.wf()
    &&& p.chunk.wf()
    &&& code_wf(p.chunk@, 0)
    &&& p.num_index <= p.numbers@.len()
    &&& (p.had_error <==> p.diags@.len() > 0)
    &&& (p.panic_mode ==> p.had_error)
    &&& (p.current.type_ == TokenType::Eof ==> p.scanner@.current == p.scanner@.source.len())
}

/// The parser's termination measure: unconsumed characters, plus one while
/// the lookahead still holds a real token.
spec fn pmeasure(p: &Parser) -> int {
    p.scanner@.source.len() - p.scanner@.current + if p.current.type_ == TokenType::Eof {
        0int
    } else {
        1int
    }
}

/// The values of the `Number` constants a pool holds, in pool order.
pub open spec fn number_constants(s: Seq<ValueV>) -> Seq<u64>
    decreases s.len(),
{
    if s.len() == 0 {
        Seq::empty()
    } else {
        let rest = number_constants(s.drop_last());
        match s.last() {
            ValueV::Number(b) => rest.push(b),
            _ => rest,
        }
    }
}

proof fn lemma_number_constants_push(s: Seq<ValueV>, v: ValueV)
    ensures
        number_constants(s.push(v)) == match v {
            ValueV::Number(b) => number_constants(s).push(b),
            _ => number_constants(s),
        },
{
    assert(s.push(v).drop_last() =~= s);
}

/// The text a string literal's lexeme carries: the lexeme with its two
/// enclosing quotes stripped (defensively empty on a shorter lexeme).
pub open spec fn string_content(text: Seq<char>) -> Seq<char> {
    if text.len() >= 2 {
        text.subrange(1, text.len() - 1)
    } else {
        Seq::empty()
    }
}

/// The number literals loaded into the pool so far are exactly the first
/// `num_index` host-supplied values, in order — or an error has already
/// been recorded and the chunk will be discarded.
spec fn nums_ok(p: &Parser) -> bool {
    number_constants(p.chunk@.constants) == p.numbers@.take(p.num_index as int) || p.had_error
}

impl Parser {
    /// Records a diagnostic against `token` — unless panic mode already
    /// swallowed it — and makes the error sticky.
    fn error_at(&mut self, token: &Token, message: &str)
        requires
            old(self).panic_mode ==> old(self).had_error,
        ensures
            final(self).scanner == old(self).scanner,
            final(self).current == old(self).current,
            final(self).previous == old(self).previous,
            final(self).chunk == old(self).chunk,
            final(self).numbers == old(self).numbers,
            final(self).num_index == old(self).num_index,
            final(self).had_error,
            final(self).panic_mode,
            old(self).panic_mode ==> *final(self) == *old(self),
            old(self).panic_mode ==> final(self).diags == old(self).diags,
            !old(self).panic_mode ==> final(self).diags@.len() == old(self).diags@.len() + 1,
            diags_extend(old(self).diags@, final(self).diags@),
            old(self).had_error ==> final(self).had_error,
            (old(self).had_error <==> old(self).diags@.len() > 0) ==> (final(self).had_error
                <==> final(self).diags@.len() > 0),
            !old(self).panic_mode ==> ({
                let d = final(self).diags@.last();
                &&& d.message@ == message@
                &&& d.line == token.line
                &&& (token.type_ == TokenType::Eof ==> d.location is AtEnd)
                &&& (token.type_ == TokenType::Error ==> d.location is Bare)
                &&& (token.type_ != TokenType::Eof && token.type_ != TokenType::Error
                    ==> (d.location matches DiagLoc::At(lex) && lex@ == token.name@))
            }),
    {
        if self.panic_mode {
            proof {
                lemma_diags_extend_refl(self.diags@);
            }
            return ;
        }
        self.panic_mode = true;
        let location = if token.type_ == TokenType::Eof {
            DiagLoc::AtEnd
        } else if token.type_ == TokenType::Error {
            DiagLoc::Bare
        } else {
            DiagLoc::At(token.name.clone())
        };
        self.diags.push(CompileDiag { line: token.line, location, message: message.to_owned() });
        self.had_error = true;
        proof {
            assert(old(self).diags@ =~= self.diags@.subrange(0, old(self).diags@.len() as int));
        }
    }

    /// Reports against the lookahead token.
    fn error_at_current(&mut self, message: &str)
        requires
            old(self).panic_mode ==> old(self).had_error,
        ensures
            final(self).scanner == old(self).scanner,
            final(self).current == old(self).current,
            final(self).previous == old(self).previous,
            final(self).chunk == old(self).chunk,
            final(self).numbers == old(self).numbers,
            final(self).num_index == old(self).num_index,
            final(self).had_error,
            final(self).panic_mode,
            old(self).had_error ==> final(self).had_error,
            (old(self).had_error <==> old(self).diags@.len() > 0) ==> (final(self).had_error
                <==> final(self).diags@.len() > 0),
            diags_extend(old(self).diags@, final(self).diags@),
            old(self).panic_mode ==> final(self).diags == old(self).diags,
            !old(self).panic_mode ==> final(self).diags@.len() == old(self).diags@.len() + 1,
            !old(self).panic_mode ==> ({
                let d = final(self).diags@.last();
                &&& d.message@ == message@
                &&& d.line == old(self).current.line
                &&& (old(self).current.type_ == TokenType::Eof ==> d.location is AtEnd)
                &&& (old(self).current.type_ == TokenType::Error ==> d.location is Bare)
                &&& (old(self).current.type_ != TokenType::Eof && old(self).current.type_
                    != TokenType::Error ==> (d.location matches DiagLoc::At(lex) && lex@ == old(
                    self,
                ).current.name@))
            }),
    {
        let token = self.current.clone();
        self.error_at(&token, message);
    }

    /// Reports against the token just consumed.
    fn error(&mut self, message: &str)
        requires
            old(self).panic_mode ==> old(self).had_error,
        ensures
            final(self).scanner == old(self).scanner,
            final(self).current == old(self).current,
            final(self).previous == old(self).previous,
            final(self).chunk == old(self).chunk,
            final(self).numbers == old(self).numbers,
            final(self).num_index == old(self).num_index,
            final(self).had_error,
            final(self).panic_mode,
            old(self).had_error ==> final(self).had_error,
            (old(self).had_error <==> old(self).diags@.len() > 0) ==> (final(self).had_error
                <==> final(self).diags@.len() > 0),
            diags_extend(old(self).diags@, final(self).diags@),
            old(self).panic_mode ==> final(self).diags == old(self).diags,
            !old(self).panic_mode ==> final(self).diags@.len() == old(self).diags@.len() + 1,
            !old(self).panic_mode ==> ({
                let d = final(self).diags@.last();
                &&& d.message@ == message@
                &&& d.line == old(self).previous.line
                &&& (old(self).previous.type_ == TokenType::Eof ==> d.location is AtEnd)
                &&& (old(self).previous.type_ == TokenType::Error ==> d.location is Bare)
                &&& (old(self).previous.type_ != TokenType::Eof && old(self).previous.type_
                    != TokenType::Error ==> (d.location matches DiagLoc::At(lex) && lex@ == old(
                    self,
                ).previous.name@))
            }),
    {
        let token = self.previous.clone();
        self.error_at(&token, message);
    }

    /// Appends one simple (operand-less) instruction byte at the previous
    /// token's source line.
    fn emit_byte(&mut self, byte: u8)
        requires
            pwf(old(self)),
            opcode_of(byte) != OpCode::Constant,
            opcode_of(byte) != OpCode::ConstantLong,
        ensures
            pwf(final(self)),
            final(self).scanner == old(self).scanner,
            final(self).current == old(self).current,
            final(self).previous == old(self).previous,
            final(self).diags == old(self).diags,
            final(self).had_error == old(self).had_error,
            final(self).panic_mode == old(self).panic_mode,
            final(self).numbers == old(self).numbers,
            final(self).num_index == old(self).num_index,
            final(self).chunk@ == append_model(
                old(self).chunk@,
                byte,
                line_u32(old(self).previous.line as int),
            ),
            chunk_extends(old(self).chunk@, final(self).chunk@),
            diags_extend(old(self).diags@, final(self).diags@),
    {
        let ghost m0 = self.chunk@;
        let l = line_u32_exec(self.previous.line);
        self.chunk.append(byte, l);
        proof {
            lemma_code_wf_append(m0, byte, l, 0);
            lemma_chunk_extends_append(m0, byte, l);
            lemma_diags_extend_refl(self.diags@);
        }
    }

    fn emit_bytes(&mut self, byte1: u8, byte2: u8)
        requires
            pwf(old(self)),
            opcode_of(byte1) != OpCode::Constant,
            opcode_of(byte1) != OpCode::ConstantLong,
            opcode_of(byte2) != OpCode::Constant,
            opcode_of(byte2) != OpCode::ConstantLong,
        ensures
            pwf(final(self)),
            final(self).scanner == old(self).scanner,
            final(self).current == old(self).current,
            final(self).previous == old(self).previous,
            final(self).diags == old(self).diags,
            final(self).had_error == old(self).had_error,
            final(self).panic_mode == old(self).panic_mode,
            final(self).numbers == old(self).numbers,
            final(self).num_index == old(self).num_index,
            final(self).chunk@ == append_model(
                append_model(old(self).chunk@, byte1, line_u32(old(self).previous.line as int)),
                byte2,
                line_u32(old(self).previous.line as int),
            ),
            chunk_extends(old(self).chunk@, final(self).chunk@),
            diags_extend(old(self).diags@, final(self).diags@),
    {
        let ghost m0 = self.chunk@;
        self.emit_byte(byte1);
        let ghost m1 = self.chunk@;
        self.emit_byte(byte2);
        proof {
            lemma_chunk_extends_trans(m0, m1, self.chunk@);
            lemma_diags_extend_refl(self.diags@);
        }
    }

    /// Appends the trailing `Return` every compiled chunk ends with.
    fn emit_return(&mut self)
        requires
            pwf(old(self)),
        ensures
            pwf(final(self)),
            final(self).scanner == old(self).scanner,
            final(self).current == old(self).current,
            final(self).previous == old(self).previous,
            final(self).diags == old(self).diags,
            final(self).had_error == old(self).had_error,
            final(self).panic_mode == old(self).panic_mode,
            final(self).numbers == old(self).numbers,
            final(self).num_index == old(self).num_index,
            final(self).chunk@ == append_model(
                old(self).chunk@,
                opcode_value(OpCode::Return),
                line_u32(old(self).previous.line as int),
            ),
            chunk_extends(old(self).chunk@, final(self).chunk@),
            diags_extend(old(self).diags@, final(self).diags@),
    {
        self.emit_byte(OpCode::Return.as_byte());
    }

    /// Appends a constant-load of `val`; the chunk picks the encoding
    /// width. A pool that cannot take one more index is a compile error.
    fn emit_constant(&mut self, val: Value)
        requires
            pwf(old(self)),
        ensures
            pwf(final(self)),
            final(self).scanner == old(self).scanner,
            final(self).current == old(self).current,
            final(self).previous == old(self).previous,
            final(self).numbers == old(self).numbers,
            final(self).num_index == old(self).num_index,
            old(self).had_error ==> final(self).had_error,
            old(self).chunk@.constants.len() < 0xffff_ffff ==> final(self).chunk@
                == append_constant_model(
                old(self).chunk@,
                val@,
                line_u32(old(self).previous.line as int),
            ) && final(self).diags == old(self).diags
                && final(self).had_error == old(self).had_error
                && final(self).panic_mode == old(self).panic_mode,
            old(self).chunk@.constants.len() >= 0xffff_ffff ==> final(self).chunk == old(
                self,
            ).chunk && final(self).had_error,
            chunk_extends(old(self).chunk@, final(self).chunk@),
            diags_extend(old(self).diags@, final(self).diags@),
    {
        let ghost m0 = self.chunk@;
        if self.chunk.constants_len() < 0xffff_ffffusize {
            let l = line_u32_exec(self.previous.line);
            let ghost v = val@;
            self.chunk.append_constant(val, l);
            proof {
                lemma_code_wf_append_constant(m0, v, l, 0);
                lemma_chunk_extends_append_constant(m0, v, l);
                lemma_diags_extend_refl(self.diags@);
            }
        } else {
            self.error("Too many constants in one chunk");
            proof {
                lemma_chunk_extends_refl(m0);
            }
        }
    }

    /// Pulls the next real token into the lookahead, reporting — and
    /// stepping past — any error tokens the scanner hands back on the way.
    fn advance(&mut self)
        requires
            pwf(old(self)),
        ensures
            pwf(final(self)),
            final(self).previous.type_ == old(self).current.type_,
            final(self).previous.name@ == old(self).current.name@,
            final(self).previous.line == old(self).current.line,
            final(self).current.type_ != TokenType::Error,
            final(self).chunk == old(self).chunk,
            final(self).numbers == old(self).numbers,
            final(self).num_index == old(self).num_index,
            final(self).scanner@.source == old(self).scanner@.source,
            old(self).had_error ==> final(self).had_error,
            nums_ok(old(self)) ==> nums_ok(final(self)),
            pmeasure(final(self)) <= pmeasure(old(self)),
            old(self).current.type_ != TokenType::Eof ==> pmeasure(final(self)) < pmeasure(
                old(self),
            ),
            diags_extend(old(self).diags@, final(self).diags@),
            ({
                let sp = scan_spec(
                    old(self).scanner@.source,
                    old(self).scanner@.current,
                    old(self).scanner@.line,
                );
                sp.kind == TokenType::Error ==> final(self).had_error && (!old(self).panic_mode
                    ==> {
                    &&& final(self).diags@.len() == old(self).diags@.len() + 1
                    &&& final(self).diags@.last().message@ == sp.text
                    &&& final(self).diags@.last().line == sp.line
                    &&& final(self).diags@.last().location is Bare
                })
            }),
            ({
                let sp = scan_spec(
                    old(self).scanner@.source,
                    old(self).scanner@.current,
                    old(self).scanner@.line,
                );
                sp.kind != TokenType::Error ==> {
                    &&& final(self).current.type_ == sp.kind
                    &&& final(self).current.name@ == sp.text
                    &&& final(self).current.line == sp.line
                    &&& final(self).scanner@.current == sp.end
                    &&& final(self).scanner@.line == sp.line
                    &&& final(self).had_error == old(self).had_error
                    &&& final(self).panic_mode == old(self).panic_mode
                    &&& final(self).diags == old(self).diags
                }
            }),
    {
        let ghost src = self.scanner@.source;
        let ghost cur0 = self.scanner@.current;
        let ghost l0 = self.scanner@.line;
        let ghost eof0 = self.current.type_ == TokenType::Eof;
        core::mem::swap(&mut self.previous, &mut self.current);
        proof {
            lemma_diags_extend_refl(self.diags@);
        }
        loop
            invariant_except_break
                scan_spec(src, cur0, l0).kind != TokenType::Error ==> {
                    &&& self.scanner@.current == cur0
                    &&& self.scanner@.line == l0
                    &&& self.had_error == old(self).had_error
                    &&& self.panic_mode == old(self).panic_mode
                    &&& self.diags == old(self).diags
                },
            invariant
                self.scanner.wf(),
                self.scanner@.source == src,
                src == old(self).scanner@.source,
                cur0 == old(self).scanner@.current,
                l0 == old(self).scanner@.line,
                eof0 == (old(self).current.type_ == TokenType::Eof),
                cur0 <= self.scanner@.current <= src.len(),
                self.scanner@.current == cur0 ==> self.scanner@.line == l0 && self.had_error
                    == old(self).had_error && self.panic_mode == old(self).panic_mode
                    && self.diags == old(self).diags,
                eof0 ==> self.scanner@.current == cur0 && cur0 == src.len(),
                self.previous == old(self).current,
                self.chunk == old(self).chunk,
                self.chunk.wf(),
                code_wf(self.chunk@, 0),
                self.numbers == old(self).numbers,
                self.num_index == old(self).num_index,
                self.num_index <= self.numbers@.len(),
                (self.had_error <==> self.diags@.len() > 0),
                (self.panic_mode ==> self.had_error),
                old(self).had_error ==> self.had_error,
                diags_extend(old(self).diags@, self.diags@),
                scan_spec(src, cur0, l0).kind == TokenType::Error && self.scanner@.current > cur0
                    ==> self.had_error && self.panic_mode && (!old(self).panic_mode ==> {
                    &&& self.diags@.len() == old(self).diags@.len() + 1
                    &&& self.diags@.last().message@ == scan_spec(src, cur0, l0).text
                    &&& self.diags@.last().line == scan_spec(src, cur0, l0).line
                    &&& self.diags@.last().location is Bare
                }),
            ensures
                self.current.type_ != TokenType::Error,
                self.current.type_ == TokenType::Eof ==> self.scanner@.current == src.len(),
                self.current.type_ != TokenType::Eof ==> self.scanner@.current > cur0,
                diags_extend(old(self).diags@, self.diags@),
                scan_spec(src, cur0, l0).kind == TokenType::Error ==> self.had_error && (!old(
                    self,
                ).panic_mode ==> {
                    &&& self.diags@.len() == old(self).diags@.len() + 1
                    &&& self.diags@.last().message@ == scan_spec(src, cur0, l0).text
                    &&& self.diags@.last().line == scan_spec(src, cur0, l0).line
                    &&& self.diags@.last().location is Bare
                }),
                scan_spec(src, cur0, l0).kind != TokenType::Error ==> {
                    &&& self.current.type_ == scan_spec(src, cur0, l0).kind
                    &&& self.current.name@ == scan_spec(src, cur0, l0).text
                    &&& self.current.line == scan_spec(src, cur0, l0).line
                    &&& self.scanner@.current == scan_spec(src, cur0, l0).end
                    &&& self.scanner@.line == scan_spec(src, cur0, l0).line
                    &&& self.had_error == old(self).had_error
                    &&& self.panic_mode == old(self).panic_mode
                    &&& self.diags == old(self).diags
                },
            decreases src.len() - self.scanner@.current,
        {
            proof {
                lemma_scan_progress(src, self.scanner@.current, self.scanner@.line);
            }
            let t = self.scanner.scan_token();
            self.current = t;
            if self.current.type_ != TokenType::Error {
                break ;
            }
            let msg = self.current.name.clone();
            let ghost d0 = self.diags@;
            self.error_at_current(msg.as_str());
            proof {
                lemma_diags_extend_trans(old(self).diags@, d0, self.diags@);
            }
        }
    }

    /// Consumes the lookahead when it has the wanted kind; reports
    /// `message` against it otherwise.
    fn consume(&mut self, type_: TokenType, message: &str)
        requires
            pwf(old(self)),
        ensures
            pwf(final(self)),
            final(self).chunk == old(self).chunk,
            final(self).numbers == old(self).numbers,
            final(self).num_index == old(self).num_index,
            final(self).scanner@.source == old(self).scanner@.source,
            old(self).had_error ==> final(self).had_error,
            nums_ok(old(self)) ==> nums_ok(final(self)),
            pmeasure(final(self)) <= pmeasure(old(self)),
            diags_extend(old(self).diags@, final(self).diags@),
            old(self).current.type_ == type_ && type_ != TokenType::Error
                ==> final(self).previous.type_ == type_,
            old(self).current.type_ != type_ ==> final(self).had_error,
            old(self).current.type_ != type_ && !old(self).panic_mode ==> ({
                let d = final(self).diags@.last();
                &&& final(self).diags@.len() == old(self).diags@.len() + 1
                &&& d.message@ == message@
                &&& d.line == old(self).current.line
                &&& (old(self).current.type_ == TokenType::Eof ==> d.location is AtEnd)
                &&& (old(self).current.type_ != TokenType::Eof && old(self).current.type_
                    != TokenType::Error ==> (d.location matches DiagLoc::At(lex) && lex@ == old(
                    self,
                ).current.name@))
            }),
            old(self).current.type_ == TokenType::Eof && type_ == TokenType::Eof ==> {
                &&& final(self).had_error == old(self).had_error
                &&& final(self).panic_mode == old(self).panic_mode
                &&& final(self).diags == old(self).diags
                &&& final(self).previous.line == old(self).current.line
            },
    {
        if self.current.type_ == type_ {
            self.advance();
            return ;
        }
        self.error_at_current(message);
    }

    /// Parses one expression: everything at assignment precedence or
    /// tighter.
    fn expression(&mut self)
        requires
            pwf(old(self)),
        ensures
            pwf(final(self)),
            final(self).numbers == old(self).numbers,
            final(self).scanner@.source == old(self).scanner@.source,
            old(self).had_error ==> final(self).had_error,
            nums_ok(old(self)) ==> nums_ok(final(self)),
            pmeasure(final(self)) <= pmeasure(old(self)),
            chunk_extends(old(self).chunk@, final(self).chunk@),
            diags_extend(old(self).diags@, final(self).diags@),
            missing_prefix_post(old(self), final(self)),
            lit_op_lit_ahead(old(self)) ==> lit_op_lit_post(old(self), final(self)),
            !final(self).had_error ==> emits_depth(
                final(self).chunk@.code,
                old(self).chunk@.code.len() as int,
                final(self).chunk@.code.len() as int,
                0,
                1,
            ),
            single_literal_ahead(old(self)) ==> {
                &&& final(self).chunk@ == append_constant_model(
                    old(self).chunk@,
                    operand_value(
                        old(self).numbers@,
                        old(self).num_index as int,
                        old(self).current.type_,
                        old(self).current.name@,
                    ),
                    line_u32(old(self).current.line as int),
                )
                &&& final(self).num_index == old(self).num_index + nums_used(
                    old(self).current.type_,
                )
                &&& final(self).had_error == old(self).had_error
                &&& final(self).panic_mode == old(self).panic_mode
                &&& final(self).diags == old(self).diags
                &&& final(self).current.type_ == TokenType::Eof
                &&& final(self).current.line == scan_spec(
                    old(self).scanner@.source,
                    old(self).scanner@.current,
                    old(self).scanner@.line,
                ).line
                &&& final(self).previous.line == old(self).current.line
            },
        decreases pmeasure(old(self)), 1int,
    {
        self.parse_precedence(Precedence::Assignment);
    }

    /// The precedence-climbing core: consumes one token and runs its
    /// prefix routine — `Expect expression` if it has none — then keeps
    /// consuming operators while the lookahead's infix precedence is at
    /// least `p`, running each one's infix routine.
    fn parse_precedence(&mut self, p: Precedence)
        requires
            pwf(old(self)),
            prec_level(p) >= 1,
        ensures
            pwf(final(self)),
            final(self).numbers == old(self).numbers,
            final(self).scanner@.source == old(self).scanner@.source,
            old(self).had_error ==> final(self).had_error,
            nums_ok(old(self)) ==> nums_ok(final(self)),
            pmeasure(final(self)) <= pmeasure(old(self)),
            chunk_extends(old(self).chunk@, final(self).chunk@),
            diags_extend(old(self).diags@, final(self).diags@),
            missing_prefix_post(old(self), final(self)),
            rule_of_spec(old(self).current.type_).prefix != PrefixRule::NoPrefix ==> prec_level(
                rule_of_spec(final(self).current.type_).precedence,
            ) < prec_level(p),
            lit_op_lit_ahead(old(self)) && prec_level(p) <= 6 ==> lit_op_lit_post(
                old(self),
                final(self),
            ),
            !final(self).had_error ==> emits_depth(
                final(self).chunk@.code,
                old(self).chunk@.code.len() as int,
                final(self).chunk@.code.len() as int,
                0,
                1,
            ),
            single_literal_ahead(old(self)) ==> {
                &&& final(self).chunk@ == append_constant_model(
                    old(self).chunk@,
                    operand_value(
                        old(self).numbers@,
                        old(self).num_index as int,
                        old(self).current.type_,
                        old(self).current.name@,
                    ),
                    line_u32(old(self).current.line as int),
                )
                &&& final(self).num_index == old(self).num_index + nums_used(
                    old(self).current.type_,
                )
                &&& final(self).had_error == old(self).had_error
                &&& final(self).panic_mode == old(self).panic_mode
                &&& final(self).diags == old(self).diags
                &&& final(self).current.type_ == TokenType::Eof
                &&& final(self).current.line == scan_spec(
                    old(self).scanner@.source,
                    old(self).scanner@.current,
                    old(self).scanner@.line,
                ).line
                &&& final(self).previous.line == old(self).current.line
            },
        decreases pmeasure(old(self)), 0int,
    {
        let ghost m0 = pmeasure(old(self));
        self.advance();
        let ghost dpre = self.diags@;
        let prefix = rule_of(self.previous.type_).prefix;
        match prefix {
            PrefixRule::NoPrefix => {
                let ghost d1 = self.diags@;
                self.error("Expect expression");
                proof {
                    lemma_chunk_extends_refl(self.chunk@);
                    lemma_diags_extend_trans(old(self).diags@, d1, self.diags@);
                }
                return ;
            },
            PrefixRule::Grouping => {
                proof {
                    assert(old(self).current.type_ != TokenType::Eof);
                }
                self.grouping();
            },
            PrefixRule::UnaryOp => {
                proof {
                    assert(old(self).current.type_ != TokenType::Eof);
                }
                self.unary();
            },
            PrefixRule::NumberLit => self.number(),
            PrefixRule::StringLit => self.string(),
            PrefixRule::Literal => self.literal(),
        }
        let ghost pre_loop = *self;
        proof {
            lemma_diags_extend_trans(old(self).diags@, dpre, self.diags@);
        }
        loop
            invariant
                pre_loop.current.type_ == TokenType::Eof ==> *self == pre_loop,
                op_literal_eof_ahead(&pre_loop) && prec_level(p) <= 6 ==> (*self == pre_loop
                    || op_done_post(&pre_loop, self)),
                pwf(self),
                self.numbers == old(self).numbers,
                self.scanner@.source == old(self).scanner@.source,
                old(self).had_error ==> self.had_error,
                nums_ok(old(self)) ==> nums_ok(self),
                chunk_extends(old(self).chunk@, self.chunk@),
                diags_extend(old(self).diags@, self.diags@),
                !self.had_error ==> emits_depth(
                    self.chunk@.code,
                    old(self).chunk@.code.len() as int,
                    self.chunk@.code.len() as int,
                    0,
                    1,
                ),
                m0 == pmeasure(old(self)),
                pmeasure(self) < m0,
                prec_level(p) >= 1,
            ensures
                pre_loop.current.type_ == TokenType::Eof ==> *self == pre_loop,
                op_literal_eof_ahead(&pre_loop) && prec_level(p) <= 6 ==> (*self == pre_loop
                    || op_done_post(&pre_loop, self)),
                pwf(self),
                self.numbers == old(self).numbers,
                self.scanner@.source == old(self).scanner@.source,
                old(self).had_error ==> self.had_error,
                nums_ok(old(self)) ==> nums_ok(self),
                chunk_extends(old(self).chunk@, self.chunk@),
                diags_extend(old(self).diags@, self.diags@),
                !self.had_error ==> emits_depth(
                    self.chunk@.code,
                    old(self).chunk@.code.len() as int,
                    self.chunk@.code.len() as int,
                    0,
                    1,
                ),
                prec_level(rule_of_spec(self.current.type_).precedence) < prec_level(p),
                pmeasure(self) < m0,
            decreases pmeasure(self),
        {
            let rule = rule_of(self.current.type_);
            if prec_level_exec(p) > prec_level_exec(rule.precedence) {
                break ;
            }
            proof {
                assert(self.current.type_ != TokenType::Eof);
            }
            let ghost mt = self.chunk@;
            let ghost dt = self.diags@;
            self.advance();
            let ghost dt2 = self.diags@;
            let infix = rule_of(self.previous.type_).infix;
            match infix {
                InfixRule::Binary => self.binary(),
                InfixRule::NoInfix => {},
            }
            proof {
                lemma_chunk_extends_trans(old(self).chunk@, mt, self.chunk@);
                lemma_diags_extend_trans(dt, dt2, self.diags@);
                lemma_diags_extend_trans(old(self).diags@, dt, self.diags@);
                if !self.had_error {
                    lemma_operator_tail_depth(old(self).chunk@, mt, self.chunk@, 0, 1);
                }
            }
        }
    }

    /// `(` expression `)`: parses the inner expression and requires the
    /// closing parenthesis.
    fn grouping(&mut self)
        requires
            pwf(old(self)),
        ensures
            pwf(final(self)),
            final(self).numbers == old(self).numbers,
            final(self).scanner@.source == old(self).scanner@.source,
            old(self).had_error ==> final(self).had_error,
            nums_ok(old(self)) ==> nums_ok(final(self)),
            pmeasure(final(self)) <= pmeasure(old(self)),
            chunk_extends(old(self).chunk@, final(self).chunk@),
            diags_extend(old(self).diags@, final(self).diags@),
            !final(self).had_error ==> emits_depth(
                final(self).chunk@.code,
                old(self).chunk@.code.len() as int,
                final(self).chunk@.code.len() as int,
                0,
                1,
            ),
        decreases pmeasure(old(self)), 2int,
    {
        let ghost d0 = self.diags@;
        self.expression();
        let ghost d1 = self.diags@;
        self.consume(TokenType::RightParen, "Expect ')' after expression");
        proof {
            lemma_diags_extend_trans(d0, d1, self.diags@);
        }
    }

    /// A prefix operator: parses its operand at unary precedence, then
    /// emits `Negate` for `-` and `Not` for `!`.
    fn unary(&mut self)
        requires
            pwf(old(self)),
            rule_of_spec(old(self).previous.type_).prefix == PrefixRule::UnaryOp,
        ensures
            pwf(final(self)),
            final(self).numbers == old(self).numbers,
            final(self).scanner@.source == old(self).scanner@.source,
            old(self).had_error ==> final(self).had_error,
            nums_ok(old(self)) ==> nums_ok(final(self)),
            pmeasure(final(self)) <= pmeasure(old(self)),
            chunk_extends(old(self).chunk@, final(self).chunk@),
            diags_extend(old(self).diags@, final(self).diags@),
            !final(self).had_error ==> emits_depth(
                final(self).chunk@.code,
                old(self).chunk@.code.len() as int,
                final(self).chunk@.code.len() as int,
                0,
                1,
            ),
            ({
                let c = final(self).chunk@.code;
                let op = old(self).previous.type_;
                &&& (op == TokenType::Minus ==> c.len() >= 1 && c.last() == opcode_value(
                    OpCode::Negate,
                ))
                &&& (op == TokenType::Bang ==> c.len() >= 1 && c.last() == opcode_value(
                    OpCode::Not,
                ))
            }),
        decreases pmeasure(old(self)), 1int,
    {
        let type_ = self.previous.type_;
        let ghost m0 = self.chunk@;
        self.parse_precedence(Precedence::Unary);
        let ghost m1 = self.chunk@;
        let ghost d1 = self.diags@;
        match type_ {
            TokenType::Minus => self.emit_byte(OpCode::Negate.as_byte()),
            TokenType::Bang => self.emit_byte(OpCode::Not.as_byte()),
            _ => (),
        }
        proof {
            lemma_chunk_extends_refl(m1);
            lemma_chunk_extends_trans(m0, m1, self.chunk@);
            lemma_diags_extend_refl(d1);
            lemma_diags_extend_trans(old(self).diags@, d1, self.diags@);
            if !self.had_error {
                let c = self.chunk@.code;
                let l1 = m1.code.len() as int;
                assert forall|dd: int| dd >= 0 implies #[trigger] seg_depth(
                    c,
                    l1,
                    c.len() as int,
                    dd + 1,
                ) == Some(dd + 1) by {
                    assert(seg_depth(c, l1 + 1, c.len() as int, dd + 1) == Some(dd + 1));
                }
                lemma_operator_tail_depth(m0, m1, self.chunk@, 0, 1);
            }
        }
    }

    /// An infix operator: parses the right operand one precedence level
    /// above its own (left associativity), then emits its instruction —
    /// the negated comparisons as a comparison followed by `Not`.
    fn binary(&mut self)
        requires
            pwf(old(self)),
            rule_of_spec(old(self).previous.type_).infix == InfixRule::Binary,
        ensures
            pwf(final(self)),
            final(self).numbers == old(self).numbers,
            final(self).scanner@.source == old(self).scanner@.source,
            old(self).had_error ==> final(self).had_error,
            nums_ok(old(self)) ==> nums_ok(final(self)),
            pmeasure(final(self)) <= pmeasure(old(self)),
            chunk_extends(old(self).chunk@, final(self).chunk@),
            diags_extend(old(self).diags@, final(self).diags@),
            !final(self).had_error ==> emits_depth(
                final(self).chunk@.code,
                old(self).chunk@.code.len() as int,
                final(self).chunk@.code.len() as int,
                1,
                0,
            ),
            single_literal_ahead(old(self)) && is_arith_op(old(self).previous.type_) ==> {
                &&& final(self).chunk@ == append_model(
                    append_constant_model(
                        old(self).chunk@,
                        operand_value(
                            old(self).numbers@,
                            old(self).num_index as int,
                            old(self).current.type_,
                            old(self).current.name@,
                        ),
                        line_u32(old(self).current.line as int),
                    ),
                    binop_byte(old(self).previous.type_),
                    line_u32(old(self).current.line as int),
                )
                &&& final(self).num_index == old(self).num_index + nums_used(
                    old(self).current.type_,
                )
                &&& final(self).had_error == old(self).had_error
                &&& final(self).panic_mode == old(self).panic_mode
                &&& final(self).diags == old(self).diags
                &&& final(self).numbers == old(self).numbers
                &&& final(self).current.type_ == TokenType::Eof
                &&& final(self).current.line == scan_spec(
                    old(self).scanner@.source,
                    old(self).scanner@.current,
                    old(self).scanner@.line,
                ).line
            },
            ({
                let c = final(self).chunk@.code;
                let op = old(self).previous.type_;
                &&& (op == TokenType::Plus ==> c.len() >= 1 && c.last() == opcode_value(
                    OpCode::Add,
                ))
                &&& (op == TokenType::Minus ==> c.len() >= 1 && c.last() == opcode_value(
                    OpCode::Subtract,
                ))
                &&& (op == TokenType::Star ==> c.len() >= 1 && c.last() == opcode_value(
                    OpCode::Multiply,
                ))
                &&& (op == TokenType::Slash ==> c.len() >= 1 && c.last() == opcode_value(
                    OpCode::Divide,
                ))
                &&& (op == TokenType::EqualEqual ==> c.len() >= 1 && c.last() == opcode_value(
                    OpCode::Equal,
                ))
                &&& (op == TokenType::Greater ==> c.len() >= 1 && c.last() == opcode_value(
                    OpCode::Greater,
                ))
                &&& (op == TokenType::Less ==> c.len() >= 1 && c.last() == opcode_value(
                    OpCode::Less,
                ))
                &&& (op == TokenType::BangEqual ==> c.len() >= 2 && c[c.len() - 2]
                    == opcode_value(OpCode::Equal) && c.last() == opcode_value(OpCode::Not))
                &&& (op == TokenType::GreaterEqual ==> c.len() >= 2 && c[c.len() - 2]
                    == opcode_value(OpCode::Less) && c.last() == opcode_value(OpCode::Not))
                &&& (op == TokenType::LessEqual ==> c.len() >= 2 && c[c.len() - 2]
                    == opcode_value(OpCode::Greater) && c.last() == opcode_value(OpCode::Not))
            }),
        decreases pmeasure(old(self)), 1int,
    {
        let operator_type = self.previous.type_;
        let rule = rule_of(operator_type);
        let ghost m0 = self.chunk@;
        self.parse_precedence(precedence_above(rule.precedence));
        let ghost m1 = self.chunk@;
        let ghost d1 = self.diags@;
        match operator_type {
            TokenType::Plus => self.emit_byte(OpCode::Add.as_byte()),
            TokenType::Minus => self.emit_byte(OpCode::Subtract.as_byte()),
            TokenType::Star => self.emit_byte(OpCode::Multiply.as_byte()),
            TokenType::Slash => self.emit_byte(OpCode::Divide.as_byte()),
            TokenType::BangEqual => self.emit_bytes(
                OpCode::Equal.as_byte(),
                OpCode::Not.as_byte(),
            ),
            TokenType::EqualEqual => self.emit_byte(OpCode::Equal.as_byte()),
            TokenType::Greater => self.emit_byte(OpCode::Greater.as_byte()),
            TokenType::GreaterEqual => self.emit_bytes(
                OpCode::Less.as_byte(),
                OpCode::Not.as_byte(),
            ),
            TokenType::Less => self.emit_byte(OpCode::Less.as_byte()),
            TokenType::LessEqual => self.emit_bytes(
                OpCode::Greater.as_byte(),
                OpCode::Not.as_byte(),
            ),
            _ => (),
        }
        proof {
            lemma_chunk_extends_refl(m1);
            lemma_chunk_extends_trans(m0, m1, self.chunk@);
            lemma_diags_extend_refl(d1);
            lemma_diags_extend_trans(old(self).diags@, d1, self.diags@);
            if !self.had_error {
                let c = self.chunk@.code;
                let l1 = m1.code.len() as int;
                assert forall|dd: int| dd >= 1 implies #[trigger] seg_depth(
                    c,
                    l1,
                    c.len() as int,
                    dd + 1,
                ) == Some(dd) by {
                    if c.len() == l1 + 1 {
                        assert(seg_depth(c, l1 + 1, c.len() as int, dd) == Some(dd));
                    } else {
                        assert(seg_depth(c, l1 + 2, c.len() as int, dd) == Some(dd));
                        assert(seg_depth(c, l1 + 1, c.len() as int, dd) == Some(dd));
                    }
                }
                lemma_operator_tail_depth(m0, m1, self.chunk@, 1, 0);
            }
        }
    }

    /// A number literal: loads the next host-supplied value — they arrive
    /// in scan order, one per number literal of the source — into the
    /// constant pool.
    fn number(&mut self)
        requires
            pwf(old(self)),
        ensures
            pwf(final(self)),
            final(self).numbers == old(self).numbers,
            final(self).scanner == old(self).scanner,
            final(self).current == old(self).current,
            final(self).previous == old(self).previous,
            old(self).had_error ==> final(self).had_error,
            nums_ok(old(self)) ==> nums_ok(final(self)),
            old(self).num_index < old(self).numbers@.len() && old(self).chunk@.constants.len()
                < 0xffff_ffff ==> {
                &&& final(self).chunk@ == append_constant_model(
                    old(self).chunk@,
                    ValueV::Number(old(self).numbers@[old(self).num_index as int]),
                    line_u32(old(self).previous.line as int),
                )
                &&& final(self).num_index == old(self).num_index + 1
                &&& final(self).had_error == old(self).had_error
                &&& final(self).panic_mode == old(self).panic_mode
                &&& final(self).diags == old(self).diags
            },
            old(self).num_index >= old(self).numbers@.len() ==> final(self).chunk == old(
                self,
            ).chunk && final(self).had_error,
            chunk_extends(old(self).chunk@, final(self).chunk@),
            diags_extend(old(self).diags@, final(self).diags@),
            !final(self).had_error ==> emits_depth(
                final(self).chunk@.code,
                old(self).chunk@.code.len() as int,
                final(self).chunk@.code.len() as int,
                0,
                1,
            ),
        decreases pmeasure(old(self)), 1int,
    {
        if self.num_index < self.numbers.len() {
            let ghost pre = *self;
            let bits = self.numbers[self.num_index];
            self.num_index += 1;
            self.emit_constant(Value::Number(bits));
            proof {
                if nums_ok(&pre) && !self.had_error {
                    lemma_number_constants_push(pre.chunk@.constants, ValueV::Number(bits));
                    assert(pre.numbers@.take(pre.num_index + 1) =~= pre.numbers@.take(
                        pre.num_index as int,
                    ).push(bits));
                }
                if !self.had_error {
                    lemma_constant_load_depth(pre.chunk@, self.chunk@);
                }
            }
        } else {
            self.error("Missing host value for number literal");
            proof {
                lemma_chunk_extends_refl(self.chunk@);
            }
        }
    }

    /// A string literal: strips the quotes off the lexeme and loads the
    /// owned text into the constant pool.
    fn string(&mut self)
        requires
            pwf(old(self)),
        ensures
            pwf(final(self)),
            final(self).numbers == old(self).numbers,
            final(self).scanner == old(self).scanner,
            final(self).current == old(self).current,
            final(self).previous == old(self).previous,
            old(self).had_error ==> final(self).had_error,
            nums_ok(old(self)) ==> nums_ok(final(self)),
            final(self).num_index == old(self).num_index,
            old(self).chunk@.constants.len() < 0xffff_ffff ==> {
                &&& final(self).chunk@ == append_constant_model(
                    old(self).chunk@,
                    ValueV::Str(string_content(old(self).previous.name@)),
                    line_u32(old(self).previous.line as int),
                )
                &&& final(self).had_error == old(self).had_error
                &&& final(self).panic_mode == old(self).panic_mode
                &&& final(self).diags == old(self).diags
            },
            chunk_extends(old(self).chunk@, final(self).chunk@),
            diags_extend(old(self).diags@, final(self).diags@),
            !final(self).had_error ==> emits_depth(
                final(self).chunk@.code,
                old(self).chunk@.code.len() as int,
                final(self).chunk@.code.len() as int,
                0,
                1,
            ),
        decreases pmeasure(old(self)), 1int,
    {
        let n = self.previous.name.as_str().unicode_len();
        let content: String = if n >= 2 {
            self.previous.name.as_str().substring_char(1, n - 1).to_owned()
        } else {
            String::new()
        };
        let ghost pre = *self;
        let ghost text = content@;
        self.emit_constant(Value::string_obj(content));
        proof {
            if nums_ok(&pre) && !self.had_error {
                lemma_number_constants_push(pre.chunk@.constants, ValueV::Str(text));
            }
            if !self.had_error {
                lemma_constant_load_depth(pre.chunk@, self.chunk@);
            }
        }
    }

    /// `nil`, `true` or `false`: emits the corresponding push instruction.
    fn literal(&mut self)
        requires
            pwf(old(self)),
            rule_of_spec(old(self).previous.type_).prefix == PrefixRule::Literal,
        ensures
            pwf(final(self)),
            final(self).numbers == old(self).numbers,
            final(self).scanner == old(self).scanner,
            final(self).current == old(self).current,
            final(self).previous == old(self).previous,
            old(self).had_error ==> final(self).had_error,
            nums_ok(old(self)) ==> nums_ok(final(self)),
            final(self).had_error == old(self).had_error,
            final(self).panic_mode == old(self).panic_mode,
            final(self).diags == old(self).diags,
            final(self).num_index == old(self).num_index,
            old(self).previous.type_ == TokenType::Nil ==> final(self).chunk@ == append_model(
                old(self).chunk@,
                opcode_value(OpCode::Nil),
                line_u32(old(self).previous.line as int),
            ),
            old(self).previous.type_ == TokenType::True ==> final(self).chunk@ == append_model(
                old(self).chunk@,
                opcode_value(OpCode::True),
                line_u32(old(self).previous.line as int),
            ),
            old(self).previous.type_ == TokenType::False ==> final(self).chunk@ == append_model(
                old(self).chunk@,
                opcode_value(OpCode::False),
                line_u32(old(self).previous.line as int),
            ),
            chunk_extends(old(self).chunk@, final(self).chunk@),
            diags_extend(old(self).diags@, final(self).diags@),
            emits_depth(
                final(self).chunk@.code,
                old(self).chunk@.code.len() as int,
                final(self).chunk@.code.len() as int,
                0,
                1,
            ),
        decreases pmeasure(old(self)), 1int,
    {
        let ghost m0 = self.chunk@;
        match self.previous.type_ {
            TokenType::Nil => self.emit_byte(OpCode::Nil.as_byte()),
            TokenType::True => self.emit_byte(OpCode::True.as_byte()),
            TokenType::False => self.emit_byte(OpCode::False.as_byte()),
            _ => {
                proof {
                    lemma_chunk_extends_refl(self.chunk@);
                    lemma_diags_extend_refl(self.diags@);
                }
            },
        }
        proof {
            lemma_push_literal_depth(m0, self.chunk@);
        }
    }
}

/// The lexemes of the source's number literals from cursor `pos` on, in
/// scan order.
pub open spec fn number_lexemes_spec(src: Seq<char>, pos: int, line: int) -> Seq<Seq<char>>
    decreases src.len() - pos,
        when 0 <= pos <= src.len()
        via number_lexemes_spec_decreases
{
    let sp = scan_spec(src, pos, line);
    if sp.kind == TokenType::Eof {
        Seq::empty()
    } else {
        let rest = number_lexemes_spec(src, sp.end, sp.line);
        if sp.kind == TokenType::Number {
            seq![sp.text] + rest
        } else {
            rest
        }
    }
}

#[via_fn]
proof fn number_lexemes_spec_decreases(src: Seq<char>, pos: int, line: int) {
    lemma_scan_progress(src, pos, line);
}

/// Scans the whole source and returns the lexemes of its number literals
/// in scan order. The host parses each into an IEEE-754 double and hands
/// the bit patterns to `compile`, which consumes them in the same order.
pub fn number_lexemes(source: &str) -> (r: Vec<String>)
    requires
        source@.len() < usize::MAX,
    ensures
        string_views(r@) == number_lexemes_spec(source@, 0, 1),
{
    let mut scanner = Scanner::new(source);
    let mut out: Vec<String> = Vec::new();
    loop
        invariant
            scanner.wf(),
            scanner@.source == source@,
            string_views(out@) + number_lexemes_spec(source@, scanner@.current, scanner@.line)
                == number_lexemes_spec(source@, 0, 1),
        ensures
            string_views(out@) == number_lexemes_spec(source@, 0, 1),
        decreases source@.len() - scanner@.current,
    {
        let ghost pos0 = scanner@.current;
        let ghost line0 = scanner@.line;
        proof {
            lemma_scan_progress(source@, pos0, line0);
        }
        let t = scanner.scan_token();
        if t.type_ == TokenType::Eof {
            proof {
                assert(number_lexemes_spec(source@, pos0, line0) =~= Seq::<Seq<char>>::empty());
                assert(string_views(out@) + Seq::<Seq<char>>::empty() =~= string_views(out@));
            }
            break ;
        }
        let ghost rest = number_lexemes_spec(source@, scanner@.current, scanner@.line);
        if t.type_ == TokenType::Number {
            proof {
                assert(number_lexemes_spec(source@, pos0, line0) =~= seq![t.name@] + rest);
            }
            let ghost old_out = out@;
            out.push(t.name);
            proof {
                assert(string_views(out@) =~= string_views(old_out) + seq![t.name@]);
                assert(string_views(old_out) + (seq![t.name@] + rest) =~= (string_views(old_out) + seq![
                    t.name@,
                ]) + rest);
            }
        } else {
            proof {
                assert(number_lexemes_spec(source@, pos0, line0) =~= rest);
            }
        }
    }
    out
}

/// Copies a vector of host-supplied bit patterns.
fn copy_numbers(v: &Vec<u64>) -> (r: Vec<u64>)
    ensures
        r@ == v@,
{
    let mut r: Vec<u64> = Vec::new();
    let n = v.len();
    let mut i: usize = 0;
    while i < n
        invariant
            i <= n,
            n == v@.len(),
            r@ == v@.subrange(0, i as int),
        decreases n - i,
    {
        r.push(v[i]);
        i += 1;
        proof {
            assert(r@ =~= v@.subrange(0, i as int));
        }
    }
    proof {
        assert(r@ =~= v@);
    }
    r
}

/// Compiles one expression into a fresh chunk. `numbers` holds the values
/// of the source's number literals — `number_lexemes` gives their lexemes
/// — in scan order. On success the chunk is structurally sound, ends in
/// `Return`, has balanced stack effects from any starting depth (so the
/// machine can never underflow on it), and its number constants are, in
/// pool order, a prefix of the supplied values; on any parse error the
/// diagnostics say what went wrong and no chunk is produced. For a source
/// that opens with a lexical error, an empty source, a bare literal, and
/// a `literal operator literal` expression, the outcome — the exact
/// emitted instructions, or the exact first diagnostic — is pinned
/// outright.
pub fn compile_with_diagnostics(source: &str, numbers: &Vec<u64>) -> (r: (
    Option<Chunk>,
    Vec<CompileDiag>,
))
    requires
        source@.len() < usize::MAX,
    ensures
        r.0 is Some <==> r.1@.len() == 0,
        r.0 matches Some(chunk) ==> {
            &&& chunk.wf()
            &&& code_wf(chunk@, 0)
            &&& chunk@.code.len() > 0
            &&& opcode_of(chunk@.code[chunk@.code.len() - 1]) == OpCode::Return
            &&& number_constants(chunk@.constants).is_prefix_of(numbers@)
            &&& forall|dd: int|
                dd >= 0 ==> #[trigger] seg_depth(chunk@.code, 0, chunk@.code.len() as int, dd)
                    == Some(dd)
        },
        ({
            let first = scan_spec(source@, 0, 1);
            let second = scan_spec(source@, first.end, first.line);
            lit_operand(first.kind) && second.kind == TokenType::Eof && numbers@.len()
                >= nums_used(first.kind) ==> (r.0 matches Some(chunk) && chunk@ == append_model(
                append_constant_model(
                    empty_chunk(),
                    operand_value(numbers@, 0, first.kind, first.text),
                    line_u32(first.line),
                ),
                opcode_value(OpCode::Return),
                line_u32(second.line),
            ))
        }),
        ({
            let t1 = scan_spec(source@, 0, 1);
            let t2 = scan_spec(source@, t1.end, t1.line);
            let t3 = scan_spec(source@, t2.end, t2.line);
            let t4 = scan_spec(source@, t3.end, t3.line);
            lit_operand(t1.kind) && is_arith_op(t2.kind) && lit_operand(t3.kind) && t4.kind
                == TokenType::Eof && numbers@.len() >= nums_used(t1.kind) + nums_used(t3.kind)
                ==> (r.0 matches Some(chunk) && chunk@ == append_model(
                append_model(
                    append_constant_model(
                        append_constant_model(
                            empty_chunk(),
                            operand_value(numbers@, 0, t1.kind, t1.text),
                            line_u32(t1.line),
                        ),
                        operand_value(numbers@, nums_used(t1.kind), t3.kind, t3.text),
                        line_u32(t3.line),
                    ),
                    binop_byte(t2.kind),
                    line_u32(t3.line),
                ),
                opcode_value(OpCode::Return),
                line_u32(t4.line),
            ))
        }),
        ({
            let first = scan_spec(source@, 0, 1);
            first.kind == TokenType::Error ==> (r.0 is None && r.1@.len() >= 1
                && r.1@[0].message@ == first.text && r.1@[0].line == first.line
                && r.1@[0].location is Bare)
        }),
        ({
            let first = scan_spec(source@, 0, 1);
            first.kind == TokenType::Eof ==> (r.0 is None && r.1@.len() >= 1
                && r.1@[0].message@ == "Expect expression"@ && r.1@[0].location is AtEnd)
        }),
{
    let mut parser = Parser {
        previous: Token::new(),
        current: Token::new(),
        had_error: false,
        panic_mode: false,
        scanner: Scanner::new(source),
        chunk: Chunk::new(),
        diags: Vec::new(),
        numbers: copy_numbers(numbers),
        num_index: 0,
    };
    proof {
        assert(number_constants(parser.chunk@.constants) =~= parser.numbers@.take(
            parser.num_index as int,
        ));
        assert(parser.chunk@ =~= empty_chunk());
    }
    parser.advance();
    let ghost d_a = parser.diags@;
    proof {
        if scan_spec(source@, 0, 1).kind == TokenType::Eof {
            assert(scan_spec(source@, source@.len() as int, scan_spec(source@, 0, 1).line).kind
                == TokenType::Eof);
        }
    }
    parser.expression();
    let ghost d_e = parser.diags@;
    parser.consume(TokenType::Eof, "Expected end of expression");
    let ghost d_c = parser.diags@;
    let ghost m_e = parser.chunk@;
    parser.emit_return();
    proof {
        lemma_diags_extend_trans(d_a, d_e, d_c);
        lemma_diags_extend_trans(d_a, d_c, parser.diags@);
        lemma_diags_extend_trans(d_e, d_c, parser.diags@);
        if !parser.had_error {
            let c = parser.chunk@.code;
            let le = m_e.code.len() as int;
            assert forall|dd: int| dd >= 0 implies #[trigger] seg_depth(c, 0, c.len() as int, dd)
                == Some(dd) by {
                assert(seg_depth(m_e.code, 0, le, dd) == Some(dd + 1));
                lemma_seg_depth_frame(m_e.code, c, 0, le, dd);
                lemma_seg_depth_concat(c, 0, le, c.len() as int, dd);
                assert(c[le] == opcode_value(OpCode::Return));
                assert(c.len() == le + 1);
                assert(seg_depth(c, le + 1, c.len() as int, dd) == Some(dd));
                assert(seg_depth(c, le, c.len() as int, dd + 1) == Some(dd));
            }
        }
        if !parser.had_error {
            assert(number_constants(parser.chunk@.constants) =~= parser.numbers@.subrange(
                0,
                number_constants(parser.chunk@.constants).len() as int,
            ));
        }
    }
    let Parser { chunk, diags, had_error, .. } = parser;
    if had_error {
        (None, diags)
    } else {
        (Some(chunk), diags)
    }
}

/// Compiles one expression into a fresh chunk, dropping the diagnostics:
/// `None` exactly when a parse error occurred.
pub fn compile(source: &str, numbers: &Vec<u64>) -> (r: Option<Chunk>)
    requires
        source@.len() < usize::MAX,
    ensures
        r matches Some(chunk) ==> {
            &&& chunk.wf()
            &&& code_wf(chunk@, 0)
            &&& chunk@.code.len() > 0
            &&& opcode_of(chunk@.code[chunk@.code.len() - 1]) == OpCode::Return
            &&& number_constants(chunk@.constants).is_prefix_of(numbers@)
            &&& forall|dd: int|
                dd >= 0 ==> #[trigger] seg_depth(chunk@.code, 0, chunk@.code.len() as int, dd)
                    == Some(dd)
        },
        ({
            let first = scan_spec(source@, 0, 1);
            let second = scan_spec(source@, first.end, first.line);
            lit_operand(first.kind) && second.kind == TokenType::Eof && numbers@.len()
                >= nums_used(first.kind) ==> (r matches Some(chunk) && chunk@ == append_model(
                append_constant_model(
                    empty_chunk(),
                    operand_value(numbers@, 0, first.kind, first.text),
                    line_u32(first.line),
                ),
                opcode_value(OpCode::Return),
                line_u32(second.line),
            ))
        }),
        ({
            let t1 = scan_spec(source@, 0, 1);
            let t2 = scan_spec(source@, t1.end, t1.line);
            let t3 = scan_spec(source@, t2.end, t2.line);
            let t4 = scan_spec(source@, t3.end, t3.line);
            lit_operand(t1.kind) && is_arith_op(t2.kind) && lit_operand(t3.kind) && t4.kind
                == TokenType::Eof && numbers@.len() >= nums_used(t1.kind) + nums_used(t3.kind)
                ==> (r matches Some(chunk) && chunk@ == append_model(
                append_model(
                    append_constant_model(
                        append_constant_model(
                            empty_chunk(),
                            operand_value(numbers@, 0, t1.kind, t1.text),
                            line_u32(t1.line),
                        ),
                        operand_value(numbers@, nums_used(t1.kind), t3.kind, t3.text),
                        line_u32(t3.line),
                    ),
                    binop_byte(t2.kind),
                    line_u32(t3.line),
                ),
                opcode_value(OpCode::Return),
                line_u32(t4.line),
            ))
        }),
        scan_spec(source@, 0, 1).kind == TokenType::Error ==> r is None,
        scan_spec(source@, 0, 1).kind == TokenType::Eof ==> r is None,
{
    let (chunk, _diags) = compile_with_diagnostics(source, numbers);
    chunk
}

} // verus!
