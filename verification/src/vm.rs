//! The virtual machine: decodes and executes a chunk over an operand
//! stack, handing each floating-point step out to the host, against a
//! full execution model.

use vstd::prelude::*;

use crate::chunk::{
    append_constant_model, append_model, code_wf, constant_operand_index, empty_chunk, seg_depth,
    Chunk, ChunkV,
};
use crate::opcode::OpCode;
use crate::opcode::opcode_of;
use crate::value::{
    string_views, val_bits, val_display_decided, val_eq_decided, val_falsey, Value, ValueV,
};

verus! {

/// The two failure kinds an interpretation can end in: a compile error —
/// including a bytecode-integrity violation discovered while decoding —
/// or a runtime type error.
#[derive(Debug, Clone, Copy, PartialEq, Eq, Structural)]
pub enum VMError {
    Compile,
    Runtime,
}

/// A request for IEEE-754 double arithmetic that the host must answer
/// before the run can continue. Operands and results travel as the raw
/// bit patterns of doubles; `Print` asks for the decimal rendering of the
/// value a `Return` is about to emit.
#[derive(Debug, Clone, Copy, PartialEq, Eq, Structural)]
pub enum NumRequest {
    Negate(u64),
    Add(u64, u64),
    Subtract(u64, u64),
    Multiply(u64, u64),
    Divide(u64, u64),
    Equals(u64, u64),
    GreaterThan(u64, u64),
    LessThan(u64, u64),
    Print(u64),
}

/// The host's answer to a request: a result bit pattern for arithmetic, a
/// truth value for a comparison, rendered text for `Print`.
pub enum NumReply {
    Bits(u64),
    Truth(bool),
    Text(String),
}

/// What one call into the virtual machine comes back with: the run ended
/// (successfully, or with one of the two faults), or it stands waiting
/// for the host to answer `NumRequest`.
#[derive(Debug, Clone, Copy, PartialEq, Eq, Structural)]
pub enum RunStep {
    Finished,
    CompileFault,
    RuntimeFault,
    Await(NumRequest),
}

/// One recorded runtime diagnostic; a driver renders it as the message
/// followed by `[line N] in script`.
pub struct RuntimeDiag {
    pub message: String,
    pub line: u32,
}

/// The model of a runtime diagnostic.
pub ghost struct RtDiagV {
    pub message: Seq<char>,
    pub line: u32,
}

/// The model of the machine state: the loaded chunk, the instruction
/// pointer, the operand stack, the request the machine stands waiting on
/// (if any), everything printed so far, and the runtime diagnostics.
pub ghost struct VMV {
    pub chunk: ChunkV,
    pub ip: int,
    pub stack: Seq<ValueV>,
    pub pending: Option<NumRequest>,
    pub output: Seq<Seq<char>>,
    pub diags: Seq<RtDiagV>,
}

/// How executing from `ip` ends, as far as the library alone can take it:
/// a successful halt (with the text printed, where the library could
/// render it), one of the two faults, or a wait for host arithmetic with
/// the machine state the wait leaves behind.
pub ghost enum StepV {
    Done { stack: Seq<ValueV>, printed: Option<Seq<char>> },
    IntegrityFault { stack: Seq<ValueV> },
    RuntimeFault { line: u32, message: Seq<char>, stack: Seq<ValueV> },
    Await { req: NumRequest, ip: int, stack: Seq<ValueV> },
}

/// The virtual machine's execution model: decodes and dispatches
/// instructions from `ip` until the run halts, faults, or needs the host.
/// Every decode is defensive — a truncated operand, an index outside the
/// pool, a stack too short for an instruction, or an unknown opcode is an
/// integrity fault, never undefined behaviour.
pub open spec fn exec_until(m: ChunkV, ip: int, stack: Seq<ValueV>) -> StepV
    decreases m.code.len() - ip,
{
    if ip < 0 {
        StepV::IntegrityFault { stack }
    } else if ip >= m.code.len() {
        StepV::Done { stack, printed: None }
    } else {
        let op = opcode_of(m.code[ip]);
        match op {
            OpCode::Return => if stack.len() == 0 {
                StepV::IntegrityFault { stack }
            } else {
                let v = stack.last();
                match val_display_decided(v) {
                    Some(text) => StepV::Done { stack: stack.drop_last(), printed: Some(text) },
                    None => StepV::Await {
                        req: NumRequest::Print(val_bits(v)),
                        ip: ip + 1,
                        stack: stack.drop_last(),
                    },
                }
            },
            OpCode::Constant => match constant_operand_index(m, ip + 1, false) {
                Some(i) => exec_until(m, ip + 2, stack.push(m.constants[i])),
                None => StepV::IntegrityFault { stack },
            },
            OpCode::ConstantLong => match constant_operand_index(m, ip + 1, true) {
                Some(i) => exec_until(m, ip + 5, stack.push(m.constants[i])),
                None => StepV::IntegrityFault { stack },
            },
            OpCode::Nil => exec_until(m, ip + 1, stack.push(ValueV::Nil)),
            OpCode::True => exec_until(m, ip + 1, stack.push(ValueV::Boolean(true))),
            OpCode::False => exec_until(m, ip + 1, stack.push(ValueV::Boolean(false))),
            OpCode::Negate => if stack.len() == 0 {
                StepV::IntegrityFault { stack }
            } else if !(stack.last() is Number) {
                StepV::RuntimeFault {
                    line: m.lines[ip],
                    message: "Operand must be a number"@,
                    stack,
                }
            } else {
                StepV::Await {
                    req: NumRequest::Negate(val_bits(stack.last())),
                    ip: ip + 1,
                    stack: stack.drop_last(),
                }
            },
            OpCode::Not => if stack.len() == 0 {
                StepV::IntegrityFault { stack }
            } else {
                exec_until(
                    m,
                    ip + 1,
                    stack.drop_last().push(ValueV::Boolean(val_falsey(stack.last()))),
                )
            },
            OpCode::Add => if stack.len() < 2 {
                StepV::IntegrityFault { stack }
            } else {
                let b = stack.last();
                let a = stack[stack.len() - 2];
                if a is Str && b is Str {
                    exec_until(
                        m,
                        ip + 1,
                        stack.drop_last().drop_last().push(ValueV::Str(a->Str_0 + b->Str_0)),
                    )
                } else if a is Number && b is Number {
                    StepV::Await {
                        req: NumRequest::Add(val_bits(a), val_bits(b)),
                        ip: ip + 1,
                        stack: stack.drop_last().drop_last(),
                    }
                } else {
                    StepV::RuntimeFault {
                        line: m.lines[ip],
                        message: "Operands must be numbers"@,
                        stack,
                    }
                }
            },
            OpCode::Subtract => binary_num_step(m, ip, stack),
            OpCode::Multiply => binary_num_step(m, ip, stack),
            OpCode::Divide => binary_num_step(m, ip, stack),
            OpCode::Equal => if stack.len() < 2 {
                StepV::IntegrityFault { stack }
            } else {
                let b = stack.last();
                let a = stack[stack.len() - 2];
                match val_eq_decided(a, b) {
                    Some(r) => exec_until(
                        m,
                        ip + 1,
                        stack.drop_last().drop_last().push(ValueV::Boolean(r)),
                    ),
                    None => StepV::Await {
                        req: NumRequest::Equals(val_bits(a), val_bits(b)),
                        ip: ip + 1,
                        stack: stack.drop_last().drop_last(),
                    },
                }
            },
            OpCode::Greater => binary_num_step(m, ip, stack),
            OpCode::Less => binary_num_step(m, ip, stack),
            OpCode::Unknown => StepV::IntegrityFault { stack },
        }
    }
}

/// The shared shape of the numbers-only binary instructions at `ip`: an
/// integrity fault on a short stack, a runtime fault unless both operands
/// are numbers, otherwise a wait for the matching host request.
pub open spec fn binary_num_step(m: ChunkV, ip: int, stack: Seq<ValueV>) -> StepV
    recommends
        0 <= ip < m.code.len(),
{
    if stack.len() < 2 {
        StepV::IntegrityFault { stack }
    } else {
        let b = stack.last();
        let a = stack[stack.len() - 2];
        if a is Number && b is Number {
            StepV::Await {
                req: match opcode_of(m.code[ip]) {
                    OpCode::Subtract => NumRequest::Subtract(val_bits(a), val_bits(b)),
                    OpCode::Multiply => NumRequest::Multiply(val_bits(a), val_bits(b)),
                    OpCode::Divide => NumRequest::Divide(val_bits(a), val_bits(b)),
                    OpCode::Greater => NumRequest::GreaterThan(val_bits(a), val_bits(b)),
                    _ => NumRequest::LessThan(val_bits(a), val_bits(b)),
                },
                ip: ip + 1,
                stack: stack.drop_last().drop_last(),
            }
        } else {
            StepV::RuntimeFault { line: m.lines[ip], message: "Operands must be numbers"@, stack }
        }
    }
}

/// Balanced, structurally sound bytecode never faults on integrity — so a
/// chunk `compile` produced, which carries both guarantees, cannot
/// underflow the operand stack or trip on its own encoding, from any
/// starting stack. Execution only halts, raises a runtime type fault, or
/// awaits the host; and whenever it awaits arithmetic, the machine it
/// leaves behind is balanced again for the value the host pushes back, so
/// the guarantee carries through every `resume`.
pub proof fn lemma_balanced_run_no_integrity(m: ChunkV, ip: int, stack: Seq<ValueV>)
    requires
        0 <= ip,
        code_wf(m, ip),
        seg_depth(m.code, ip, m.code.len() as int, stack.len() as int) is Some,
    ensures
        !(exec_until(m, ip, stack) is IntegrityFault),
        exec_until(m, ip, stack) matches StepV::Await { req, ip: ip2, stack: stack2 } ==> (req
            is Print || (code_wf(m, ip2) && seg_depth(
            m.code,
            ip2,
            m.code.len() as int,
            stack2.len() as int + 1,
        ) is Some)),
    decreases m.code.len() - ip,
{
    let end = m.code.len() as int;
    let d = stack.len() as int;
    if 0 <= ip < end {
        let op = opcode_of(m.code[ip]);
        match op {
            OpCode::Return => {},
            OpCode::Constant => {
                let i = constant_operand_index(m, ip + 1, false)->0;
                lemma_balanced_run_no_integrity(m, ip + 2, stack.push(m.constants[i]));
            },
            OpCode::ConstantLong => {
                let i = constant_operand_index(m, ip + 1, true)->0;
                lemma_balanced_run_no_integrity(m, ip + 5, stack.push(m.constants[i]));
            },
            OpCode::Nil => {
                lemma_balanced_run_no_integrity(m, ip + 1, stack.push(ValueV::Nil));
            },
            OpCode::True => {
                lemma_balanced_run_no_integrity(m, ip + 1, stack.push(ValueV::Boolean(true)));
            },
            OpCode::False => {
                lemma_balanced_run_no_integrity(m, ip + 1, stack.push(ValueV::Boolean(false)));
            },
            OpCode::Negate => {},
            OpCode::Not => {
                lemma_balanced_run_no_integrity(
                    m,
                    ip + 1,
                    stack.drop_last().push(ValueV::Boolean(val_falsey(stack.last()))),
                );
            },
            OpCode::Add => {
                let b = stack.last();
                let a = stack[stack.len() - 2];
                if a is Str && b is Str {
                    lemma_balanced_run_no_integrity(
                        m,
                        ip + 1,
                        stack.drop_last().drop_last().push(ValueV::Str(a->Str_0 + b->Str_0)),
                    );
                }
            },
            OpCode::Equal => {
                let b = stack.last();
                let a = stack[stack.len() - 2];
                match val_eq_decided(a, b) {
                    Some(r) => {
                        lemma_balanced_run_no_integrity(
                            m,
                            ip + 1,
                            stack.drop_last().drop_last().push(ValueV::Boolean(r)),
                        );
                    },
                    None => {},
                }
            },
            _ => {},
        }
    }
}

/// The request an arithmetic instruction hands the host for the two
/// number operands `a` (below) and `b` (on top).
pub open spec fn arith_request(op: OpCode, a: u64, b: u64) -> NumRequest {
    match op {
        OpCode::Add => NumRequest::Add(a, b),
        OpCode::Subtract => NumRequest::Subtract(a, b),
        OpCode::Multiply => NumRequest::Multiply(a, b),
        OpCode::Divide => NumRequest::Divide(a, b),
        _ => NumRequest::Print(0),
    }
}

/// How a whole `constant, constant, arithmetic operator, Return` chunk —
/// the shape `compile` pins for a `literal operator literal` source —
/// runs from the empty stack, by the operands' types: two strings under
/// `Add` concatenate and the run prints the joined text by itself; two
/// numbers hand the operator's request to the host; any other pairing is
/// the runtime type fault `Operands must be numbers` at the operator's
/// line, with both operands still on the stack.
pub proof fn lemma_two_constant_program(
    m: ChunkV,
    v1: ValueV,
    v2: ValueV,
    op: OpCode,
    l1: u32,
    l2: u32,
    l3: u32,
)
    requires
        op == OpCode::Add || op == OpCode::Subtract || op == OpCode::Multiply || op
            == OpCode::Divide,
        m == append_model(
            append_model(
                append_constant_model(append_constant_model(empty_chunk(), v1, l1), v2, l2),
                crate::opcode::opcode_value(op),
                l2,
            ),
            crate::opcode::opcode_value(OpCode::Return),
            l3,
        ),
    ensures
        v1 is Str && v2 is Str && op == OpCode::Add ==> exec_until(m, 0, Seq::empty())
            == (StepV::Done { stack: Seq::<ValueV>::empty(), printed: Some(v1->Str_0 + v2->Str_0) }),
        v1 is Number && v2 is Number ==> exec_until(m, 0, Seq::empty()) == (StepV::Await {
            req: arith_request(op, val_bits(v1), val_bits(v2)),
            ip: 5,
            stack: Seq::<ValueV>::empty(),
        }),
        !(v1 is Number && v2 is Number) && !(v1 is Str && v2 is Str && op == OpCode::Add)
            ==> exec_until(m, 0, Seq::empty()) == (StepV::RuntimeFault {
            line: l2,
            message: "Operands must be numbers"@,
            stack: seq![v1, v2],
        }),
{
    reveal_with_fuel(exec_until, 6);
    assert(m.code.len() == 6);
    assert(m.code[0] == crate::opcode::opcode_value(OpCode::Constant));
    assert(m.code[1] == 0);
    assert(m.code[2] == crate::opcode::opcode_value(OpCode::Constant));
    assert(m.code[3] == 1);
    assert(m.code[4] == crate::opcode::opcode_value(op));
    assert(m.code[5] == crate::opcode::opcode_value(OpCode::Return));
    assert(m.constants =~= seq![v1, v2]);
    assert(m.lines[4] == l2);
    assert(constant_operand_index(m, 1, false) == Some(0int));
    assert(constant_operand_index(m, 3, false) == Some(1int));
    let s0 = Seq::<ValueV>::empty();
    let s1 = s0.push(v1);
    let s2 = s1.push(v2);
    assert(s2.last() == v2 && s2[s2.len() - 2] == v1);
    assert(s2.drop_last() =~= s1);
    assert(s1.drop_last() =~= s0);
    assert(exec_until(m, 0, s0) == exec_until(m, 2, s1));
    assert(exec_until(m, 2, s1) == exec_until(m, 4, s2));
    if v1 is Str && v2 is Str && op == OpCode::Add {
        let joined = s2.drop_last().drop_last().push(ValueV::Str(v1->Str_0 + v2->Str_0));
        assert(exec_until(m, 4, s2) == exec_until(m, 5, joined));
        assert(joined.last() == ValueV::Str(v1->Str_0 + v2->Str_0));
        assert(joined.drop_last() =~= Seq::<ValueV>::empty());
    } else if v1 is Number && v2 is Number {
        assert(s2.drop_last().drop_last() =~= s0);
    } else {
        assert(s2 =~= seq![v1, v2]);
    }
}

/// Unary logical negation is total: with an operand on the stack, a `Not`
/// instruction never faults, whatever the operand's type — it replaces the
/// top of the stack with the boolean of its falsey-ness and execution
/// continues.
pub proof fn lemma_not_is_total(m: ChunkV, ip: int, stack: Seq<ValueV>)
    requires
        0 <= ip < m.code.len(),
        opcode_of(m.code[ip]) == OpCode::Not,
        stack.len() > 0,
    ensures
        exec_until(m, ip, stack) == exec_until(
            m,
            ip + 1,
            stack.drop_last().push(ValueV::Boolean(val_falsey(stack.last()))),
        ),
{
}

/// The equality instruction succeeds regardless of its operands' types:
/// with two operands on the stack it never raises a type fault — the
/// library decides every pair itself except two numbers, which it hands
/// to the host's IEEE comparison.
pub proof fn lemma_equal_never_type_faults(m: ChunkV, ip: int, stack: Seq<ValueV>)
    requires
        0 <= ip < m.code.len(),
        opcode_of(m.code[ip]) == OpCode::Equal,
        stack.len() >= 2,
    ensures
        exec_until(m, ip, stack) == match val_eq_decided(stack[stack.len() - 2], stack.last()) {
            Some(r) => exec_until(
                m,
                ip + 1,
                stack.drop_last().drop_last().push(ValueV::Boolean(r)),
            ),
            None => StepV::Await {
                req: NumRequest::Equals(
                    val_bits(stack[stack.len() - 2]),
                    val_bits(stack.last()),
                ),
                ip: ip + 1,
                stack: stack.drop_last().drop_last(),
            },
        },
{
}

/// What a call that came back with `r` did to the machine, when the
/// execution model says the segment ends as `step`.
pub open spec fn step_post(pre: VMV, post: VMV, r: RunStep, step: StepV) -> bool {
    &&& post.chunk == pre.chunk
    &&& match step {
        StepV::Done { stack, printed } => {
            &&& r == RunStep::Finished
            &&& post.stack == stack
            &&& post.pending is None
            &&& post.diags == pre.diags
            &&& match printed {
                Some(t) => post.output == pre.output.push(t),
                None => post.output == pre.output,
            }
        },
        StepV::IntegrityFault { stack } => {
            &&& r == RunStep::CompileFault
            &&& post.stack == stack
            &&& post.pending is None
            &&& post.output == pre.output
            &&& post.diags == pre.diags
        },
        StepV::RuntimeFault { line, message, stack } => {
            &&& r == RunStep::RuntimeFault
            &&& post.stack == stack
            &&& post.pending is None
            &&& post.output == pre.output
            &&& post.diags == pre.diags.push(RtDiagV { message, line })
        },
        StepV::Await { req, ip, stack } => {
            &&& r == RunStep::Await(req)
            &&& post.pending == Some(req)
            &&& post.ip == ip
            &&& post.stack == stack
            &&& post.output == pre.output
            &&& post.diags == pre.diags
        },
    }
}

/// The virtual machine: owns the chunk it executes, an instruction
/// pointer into it, and the operand stack. The stack persists across
/// runs; the chunk and instruction pointer are replaced wholesale by each
/// `start`.
pub struct VM {
    chunk: Chunk,
    ip: usize,
    stack: Vec<Value>,
    pending: Option<NumRequest>,
    output: Vec<String>,
    runtime_diags: Vec<RuntimeDiag>,
}

/// The value models of a stack of runtime values.
pub open spec fn stack_views(s: Seq<Value>) -> Seq<ValueV> {
    s.map_values(|v: Value| v@)
}

/// The models of recorded runtime diagnostics.
pub open spec fn diag_views(s: Seq<RuntimeDiag>) -> Seq<RtDiagV> {
    s.map_values(|d: RuntimeDiag| RtDiagV { message: d.message@, line: d.line })
}

impl View for VM {
    type V = VMV;

    closed spec fn view(&self) -> VMV {
        VMV {
            chunk: self.chunk@,
            ip: self.ip as int,
            stack: stack_views(self.stack@),
            pending: self.pending,
            output: string_views(self.output@),
            diags: diag_views(self.runtime_diags@),
        }
    }
}

proof fn lemma_stack_views(s: Seq<Value>, v: Value)
    ensures
        stack_views(s.push(v)) == stack_views(s).push(v@),
        stack_views(s).len() == s.len(),
        s.len() > 0 ==> stack_views(s.drop_last()) == stack_views(s).drop_last(),
        s.len() > 0 ==> stack_views(s).last() == s.last()@,
        s.len() > 1 ==> stack_views(s)[stack_views(s).len() - 2] == s[s.len() - 2]@,
{
    assert(stack_views(s.push(v)) =~= stack_views(s).push(v@));
    if s.len() > 0 {
        assert(stack_views(s.drop_last()) =~= stack_views(s).drop_last());
    }
}

proof fn lemma_string_views_push(s: Seq<String>, x: String)
    ensures
        string_views(s.push(x)) == string_views(s).push(x@),
{
    assert(string_views(s.push(x)) =~= string_views(s).push(x@));
}

proof fn lemma_diag_views_push(s: Seq<RuntimeDiag>, d: RuntimeDiag)
    ensures
        diag_views(s.push(d)) == diag_views(s).push(RtDiagV { message: d.message@, line: d.line }),
{
    assert(diag_views(s.push(d)) =~= diag_views(s).push(
        RtDiagV { message: d.message@, line: d.line },
    ));
}

impl VM {
    /// Removes and returns the top of the operand stack.
    fn pop_value(&mut self) -> (v: Value)
        requires
            old(self).stack@.len() > 0,
        ensures
            v == old(self).stack@.last(),
            final(self).stack@ == old(self).stack@.drop_last(),
            final(self).chunk == old(self).chunk,
            final(self).ip == old(self).ip,
            final(self).pending == old(self).pending,
            final(self).output == old(self).output,
            final(self).runtime_diags == old(self).runtime_diags,
    {
        match self.stack.pop() {
            Some(v) => v,
            None => {
                proof {
                    assert(false);
                }
                Value::Nil
            },
        }
    }

    /// Records a runtime diagnostic: the message and the faulting line.
    fn runtime_error(&mut self, msg: &str, line: u32)
        ensures
            diag_views(final(self).runtime_diags@) == diag_views(old(self).runtime_diags@).push(
                RtDiagV { message: msg@, line },
            ),
            final(self).chunk == old(self).chunk,
            final(self).ip == old(self).ip,
            final(self).stack == old(self).stack,
            final(self).pending == old(self).pending,
            final(self).output == old(self).output,
    {
        let d = RuntimeDiag { message: msg.to_owned(), line };
        proof {
            lemma_diag_views_push(self.runtime_diags@, d);
        }
        self.runtime_diags.push(d);
    }

    /// Decodes and executes instructions until the run halts, faults, or
    /// needs the host, exactly as `exec_until` describes.
    fn run(&mut self) -> (r: RunStep)
        requires
            old(self).wf(),
            old(self)@.pending is None,
        ensures
            final(self).wf(),
            step_post(
                old(self)@,
                final(self)@,
                r,
                exec_until(old(self)@.chunk, old(self)@.ip, old(self)@.stack),
            ),
    {
        let ghost m = self@.chunk;
        let ghost step0 = exec_until(self@.chunk, self@.ip, self@.stack);
        loop
            invariant
                self.wf(),
                self@.chunk == old(self)@.chunk,
                m == self@.chunk,
                self@.pending is None,
                self@.output == old(self)@.output,
                self@.diags == old(self)@.diags,
                step0 == exec_until(m, self@.ip, self@.stack),
                step0 == exec_until(old(self)@.chunk, old(self)@.ip, old(self)@.stack),
            decreases m.code.len() - self@.ip,
        {
            let n = self.chunk.len();
            if self.ip >= n {
                return RunStep::Finished;
            }
            let ip_instr = self.ip;
            let byte = self.chunk.next_byte(&mut self.ip);
            let op = OpCode::from(byte);
            match op {
                OpCode::Return => {
                    if self.stack.len() == 0 {
                        return RunStep::CompileFault;
                    }
                    proof {
                        lemma_stack_views(self.stack@, Value::Nil);
                    }
                    let v = self.pop_value();
                    proof {
                        lemma_stack_views(self.stack@, Value::Nil);
                    }
                    match v.display_text() {
                        Some(text) => {
                            proof {
                                lemma_string_views_push(self.output@, text);
                            }
                            self.output.push(text);
                            return RunStep::Finished;
                        },
                        None => {
                            let req = NumRequest::Print(v.to_number());
                            self.pending = Some(req);
                            return RunStep::Await(req);
                        },
                    }
                },
                OpCode::Constant => {
                    match self.chunk.read_constant(&mut self.ip, false) {
                        Some(val) => {
                            proof {
                                lemma_stack_views(self.stack@, val);
                            }
                            self.stack.push(val);
                        },
                        None => {
                            return RunStep::CompileFault;
                        },
                    }
                },
                OpCode::ConstantLong => {
                    match self.chunk.read_constant(&mut self.ip, true) {
                        Some(val) => {
                            proof {
                                lemma_stack_views(self.stack@, val);
                            }
                            self.stack.push(val);
                        },
                        None => {
                            return RunStep::CompileFault;
                        },
                    }
                },
                OpCode::Nil => {
                    proof {
                        lemma_stack_views(self.stack@, Value::Nil);
                    }
                    self.stack.push(Value::Nil);
                },
                OpCode::True => {
                    proof {
                        lemma_stack_views(self.stack@, Value::Boolean(true));
                    }
                    self.stack.push(Value::Boolean(true));
                },
                OpCode::False => {
                    proof {
                        lemma_stack_views(self.stack@, Value::Boolean(false));
                    }
                    self.stack.push(Value::Boolean(false));
                },
                OpCode::Negate => {
                    let n_stack = self.stack.len();
                    if n_stack == 0 {
                        return RunStep::CompileFault;
                    }
                    proof {
                        lemma_stack_views(self.stack@, Value::Nil);
                    }
                    if !self.stack[n_stack - 1].is_number() {
                        let line = self.chunk.line_at(ip_instr);
                        self.runtime_error("Operand must be a number", line);
                        return RunStep::RuntimeFault;
                    }
                    let v = self.pop_value();
                    let req = NumRequest::Negate(v.to_number());
                    self.pending = Some(req);
                    return RunStep::Await(req);
                },
                OpCode::Not => {
                    if self.stack.len() == 0 {
                        return RunStep::CompileFault;
                    }
                    proof {
                        lemma_stack_views(self.stack@, Value::Nil);
                    }
                    let v = self.pop_value();
                    let b = Value::Boolean(v.is_falsey());
                    proof {
                        lemma_stack_views(self.stack@, b);
                    }
                    self.stack.push(b);
                },
                OpCode::Add => {
                    let n_stack = self.stack.len();
                    if n_stack < 2 {
                        return RunStep::CompileFault;
                    }
                    proof {
                        lemma_stack_views(self.stack@, Value::Nil);
                    }
                    if self.stack[n_stack - 1].is_string() && self.stack[n_stack - 2].is_string() {
                        let b = self.pop_value();
                        proof {
                            lemma_stack_views(self.stack@, Value::Nil);
                        }
                        let a = self.pop_value();
                        let mut s = a.as_string().to_owned();
                        s.append(b.as_string());
                        let joined = Value::string_obj(s);
                        proof {
                            lemma_stack_views(self.stack@, joined);
                        }
                        self.stack.push(joined);
                    } else if self.stack[n_stack - 1].is_number() && self.stack[n_stack
                        - 2].is_number() {
                        let b = self.pop_value();
                        proof {
                            lemma_stack_views(self.stack@, Value::Nil);
                        }
                        let a = self.pop_value();
                        let req = NumRequest::Add(a.to_number(), b.to_number());
                        self.pending = Some(req);
                        return RunStep::Await(req);
                    } else {
                        let line = self.chunk.line_at(ip_instr);
                        self.runtime_error("Operands must be numbers", line);
                        return RunStep::RuntimeFault;
                    }
                },
                OpCode::Subtract => {
                    match self.numeric_operands(ip_instr) {
                        Some((a, b)) => {
                            let req = NumRequest::Subtract(a, b);
                            self.pending = Some(req);
                            return RunStep::Await(req);
                        },
                        None => {
                            return self.numeric_fault(ip_instr);
                        },
                    }
                },
                OpCode::Multiply => {
                    match self.numeric_operands(ip_instr) {
                        Some((a, b)) => {
                            let req = NumRequest::Multiply(a, b);
                            self.pending = Some(req);
                            return RunStep::Await(req);
                        },
                        None => {
                            return self.numeric_fault(ip_instr);
                        },
                    }
                },
                OpCode::Divide => {
                    match self.numeric_operands(ip_instr) {
                        Some((a, b)) => {
                            let req = NumRequest::Divide(a, b);
                            self.pending = Some(req);
                            return RunStep::Await(req);
                        },
                        None => {
                            return self.numeric_fault(ip_instr);
                        },
                    }
                },
                OpCode::Equal => {
                    let n_stack = self.stack.len();
                    if n_stack < 2 {
                        return RunStep::CompileFault;
                    }
                    proof {
                        lemma_stack_views(self.stack@, Value::Nil);
                    }
                    let b = self.pop_value();
                    proof {
                        lemma_stack_views(self.stack@, Value::Nil);
                    }
                    let a = self.pop_value();
                    match a.eq_decided(&b) {
                        Some(r) => {
                            let res = Value::Boolean(r);
                            proof {
                                lemma_stack_views(self.stack@, res);
                            }
                            self.stack.push(res);
                        },
                        None => {
                            let req = NumRequest::Equals(a.to_number(), b.to_number());
                            self.pending = Some(req);
                            return RunStep::Await(req);
                        },
                    }
                },
                OpCode::Greater => {
                    match self.numeric_operands(ip_instr) {
                        Some((a, b)) => {
                            let req = NumRequest::GreaterThan(a, b);
                            self.pending = Some(req);
                            return RunStep::Await(req);
                        },
                        None => {
                            return self.numeric_fault(ip_instr);
                        },
                    }
                },
                OpCode::Less => {
                    match self.numeric_operands(ip_instr) {
                        Some((a, b)) => {
                            let req = NumRequest::LessThan(a, b);
                            self.pending = Some(req);
                            return RunStep::Await(req);
                        },
                        None => {
                            return self.numeric_fault(ip_instr);
                        },
                    }
                },
                OpCode::Unknown => {
                    return RunStep::CompileFault;
                },
            }
        }
    }

    /// Pops the two numeric operands of a numbers-only binary instruction
    /// at `ip_instr`, or leaves the stack alone when the instruction must
    /// fault: `None` with the stack too short or an operand non-numeric.
    fn numeric_operands(&mut self, ip_instr: usize) -> (r: Option<(u64, u64)>)
        ensures
            final(self).chunk == old(self).chunk,
            final(self).ip == old(self).ip,
            final(self).pending == old(self).pending,
            final(self).output == old(self).output,
            final(self).runtime_diags == old(self).runtime_diags,
            match r {
                Some((a, b)) => {
                    &&& old(self)@.stack.len() >= 2
                    &&& old(self)@.stack.last() is Number
                    &&& old(self)@.stack[old(self)@.stack.len() - 2] is Number
                    &&& a == val_bits(old(self)@.stack[old(self)@.stack.len() - 2])
                    &&& b == val_bits(old(self)@.stack.last())
                    &&& final(self)@.stack == old(self)@.stack.drop_last().drop_last()
                },
                None => {
                    &&& final(self).stack == old(self).stack
                    &&& !(old(self)@.stack.len() >= 2 && old(self)@.stack.last() is Number && old(
                        self,
                    )@.stack[old(self)@.stack.len() - 2] is Number)
                },
            },
    {
        let n_stack = self.stack.len();
        if n_stack < 2 {
            return None;
        }
        proof {
            lemma_stack_views(self.stack@, Value::Nil);
        }
        if self.stack[n_stack - 1].is_number() && self.stack[n_stack - 2].is_number() {
            let b = self.pop_value();
            proof {
                lemma_stack_views(self.stack@, Value::Nil);
            }
            let a = self.pop_value();
            Some((a.to_number(), b.to_number()))
        } else {
            None
        }
    }

    /// Reports the shared numbers-only fault of a binary instruction: an
    /// integrity fault on a short stack, the runtime diagnostic otherwise.
    fn numeric_fault(&mut self, ip_instr: usize) -> (r: RunStep)
        requires
            old(self).wf(),
            ip_instr < old(self)@.chunk.code.len(),
            !(old(self)@.stack.len() >= 2 && old(self)@.stack.last() is Number && old(
                self,
            )@.stack[old(self)@.stack.len() - 2] is Number),
        ensures
            final(self).wf(),
            final(self)@.chunk == old(self)@.chunk,
            final(self)@.stack == old(self)@.stack,
            final(self)@.ip == old(self)@.ip,
            final(self)@.pending == old(self)@.pending,
            ({
                let step = binary_num_step(old(self)@.chunk, ip_instr as int, old(self)@.stack);
                match step {
                    StepV::IntegrityFault { stack } => r == RunStep::CompileFault
                        && final(self)@.output == old(self)@.output
                        && final(self)@.diags == old(self)@.diags,
                    StepV::RuntimeFault { line, message, stack } => r == RunStep::RuntimeFault
                        && final(self)@.output == old(self)@.output
                        && final(self)@.diags == old(self)@.diags.push(RtDiagV { message, line }),
                    _ => false,
                }
            }),
    {
        proof {
            lemma_stack_views(self.stack@, Value::Nil);
        }
        if self.stack.len() < 2 {
            return RunStep::CompileFault;
        }
        let line = self.chunk.line_at(ip_instr);
        self.runtime_error("Operands must be numbers", line);
        RunStep::RuntimeFault
    }

    /// The machine's invariant: its chunk keeps a line entry per byte.
    pub open spec fn wf(&self) -> bool {
        crate::chunk::chunk_wf(self@.chunk)
    }

    /// Installs a compiled chunk wholesale, resets the instruction
    /// pointer to its top, and runs until the machine halts, faults, or
    /// needs the host. The operand stack persists from earlier runs.
    pub fn start(&mut self, chunk: Chunk) -> (r: RunStep)
        requires
            old(self).wf(),
            chunk.wf(),
        ensures
            final(self).wf(),
            step_post(
                VMV { chunk: chunk@, ip: 0, pending: None, ..old(self)@ },
                final(self)@,
                r,
                exec_until(chunk@, 0, old(self)@.stack),
            ),
    {
        self.chunk = chunk;
        self.ip = 0;
        self.pending = None;
        self.run()
    }

    /// Answers the request the machine stands waiting on: an arithmetic
    /// result or a comparison truth is pushed and execution continues;
    /// the rendered text answering `Print` is emitted and the run ends.
    pub fn resume(&mut self, reply: NumReply) -> (r: RunStep)
        requires
            old(self).wf(),
            old(self)@.pending matches Some(req) && match (req, reply) {
                (NumRequest::Print(_), NumReply::Text(_)) => true,
                (NumRequest::Equals(_, _), NumReply::Truth(_)) => true,
                (NumRequest::GreaterThan(_, _), NumReply::Truth(_)) => true,
                (NumRequest::LessThan(_, _), NumReply::Truth(_)) => true,
                (NumRequest::Negate(_), NumReply::Bits(_)) => true,
                (NumRequest::Add(_, _), NumReply::Bits(_)) => true,
                (NumRequest::Subtract(_, _), NumReply::Bits(_)) => true,
                (NumRequest::Multiply(_, _), NumReply::Bits(_)) => true,
                (NumRequest::Divide(_, _), NumReply::Bits(_)) => true,
                _ => false,
            },
        ensures
            final(self).wf(),
            reply matches NumReply::Text(s) ==> {
                &&& r == RunStep::Finished
                &&& final(self)@.chunk == old(self)@.chunk
                &&& final(self)@.stack == old(self)@.stack
                &&& final(self)@.pending is None
                &&& final(self)@.output == old(self)@.output.push(s@)
                &&& final(self)@.diags == old(self)@.diags
            },
            reply matches NumReply::Truth(t) ==> step_post(
                old(self)@,
                final(self)@,
                r,
                exec_until(
                    old(self)@.chunk,
                    old(self)@.ip,
                    old(self)@.stack.push(ValueV::Boolean(t)),
                ),
            ),
            reply matches NumReply::Bits(b) ==> step_post(
                old(self)@,
                final(self)@,
                r,
                exec_until(
                    old(self)@.chunk,
                    old(self)@.ip,
                    old(self)@.stack.push(ValueV::Number(b)),
                ),
            ),
    {
        self.pending = None;
        match reply {
            NumReply::Bits(b) => {
                let v = Value::Number(b);
                proof {
                    lemma_stack_views(self.stack@, v);
                }
                self.stack.push(v);
                self.run()
            },
            NumReply::Truth(t) => {
                let v = Value::Boolean(t);
                proof {
                    lemma_stack_views(self.stack@, v);
                }
                self.stack.push(v);
                self.run()
            },
            NumReply::Text(s) => {
                proof {
                    lemma_string_views_push(self.output@, s);
                }
                self.output.push(s);
                RunStep::Finished
            },
        }
    }

    /// Everything the machine has printed, oldest first.
    pub fn output(&self) -> (r: &Vec<String>)
        ensures
            string_views(r@) == self@.output,
    {
        &self.output
    }

    /// The recorded runtime diagnostics, oldest first.
    pub fn runtime_diagnostics(&self) -> (r: &Vec<RuntimeDiag>)
        ensures
            diag_views(r@) == self@.diags,
    {
        &self.runtime_diags
    }

    /// The request the machine stands waiting on, if any.
    pub fn pending_request(&self) -> (r: Option<NumRequest>)
        ensures
            r == self@.pending,
    {
        self.pending
    }

    pub fn new() -> (r: Self)
        ensures
            r.wf(),
            r@.stack == Seq::<ValueV>::empty(),
            r@.pending is None,
            r@.output == Seq::<Seq<char>>::empty(),
            r@.diags == Seq::<RtDiagV>::empty(),
    {
        let r = VM {
            chunk: Chunk::new(),
            ip: 0,
            stack: Vec::new(),
            pending: None,
            output: Vec::new(),
            runtime_diags: Vec::new(),
        };
        proof {
            assert(r@.stack =~= Seq::<ValueV>::empty());
            assert(r@.output =~= Seq::<Seq<char>>::empty());
            assert(r@.diags =~= Seq::<RtDiagV>::empty());
        }
        r
    }
}

} // verus!
