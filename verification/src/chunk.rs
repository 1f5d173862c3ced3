//! The bytecode container: an append-only instruction buffer, a parallel
//! per-byte source-line table, and an ordered constant pool, with the
//! per-insertion short/long constant encoding and its round-trip proof.

use vstd::prelude::*;

use crate::opcode::{opcode_of, opcode_value, OpCode};
use crate::value::{Value, ValueV};

verus! {

/// The mathematical model of a chunk: the instruction byte stream, the
/// parallel per-byte line table, and the ordered constant pool.
#[verifier::ext_equal]
pub ghost struct ChunkV {
    pub code: Seq<u8>,
    pub constants: Seq<ValueV>,
    pub lines: Seq<u32>,
}

/// The models of the values a sequence of runtime values holds.
pub open spec fn vals(s: Seq<Value>) -> Seq<ValueV> {
    s.map_values(|v: Value| v@)
}

/// Chunk well-formedness: one line-table entry per instruction byte.
pub open spec fn chunk_wf(m: ChunkV) -> bool {
    m.lines.len() == m.code.len()
}

/// Appending one raw instruction byte with its source line.
pub open spec fn append_model(m: ChunkV, byte: u8, line: u32) -> ChunkV {
    ChunkV { code: m.code.push(byte), constants: m.constants, lines: m.lines.push(line) }
}

/// A 32-bit big-endian value reassembled from four bytes.
pub open spec fn be32(b0: u8, b1: u8, b2: u8, b3: u8) -> u32 {
    ((b0 as u32) << 24) | ((b1 as u32) << 16) | ((b2 as u32) << 8) | (b3 as u32)
}

/// The bytes of one constant-load instruction for pool index `idx` when the
/// pool already holds `idx` constants: a 2-byte short form while the index
/// fits in one byte, the 5-byte big-endian long form from index 256 on.
pub open spec fn constant_instr_bytes(idx: int) -> Seq<u8> {
    if idx < 256 {
        seq![opcode_value(OpCode::Constant), idx as u8]
    } else {
        seq![
            opcode_value(OpCode::ConstantLong),
            ((idx as u32) >> 24) as u8,
            (((idx as u32) >> 16) & 0xff) as u8,
            (((idx as u32) >> 8) & 0xff) as u8,
            ((idx as u32) & 0xff) as u8,
        ]
    }
}

/// Appending one constant: the value is pushed onto the pool and a
/// constant-load instruction referencing it is emitted, every byte tagged
/// with the same source line. The short/long choice is made per insertion.
pub open spec fn append_constant_model(m: ChunkV, v: ValueV, line: u32) -> ChunkV {
    let idx = m.constants.len() as int;
    let instr = constant_instr_bytes(idx);
    ChunkV {
        code: m.code + instr,
        constants: m.constants.push(v),
        lines: m.lines + Seq::new(instr.len(), |i: int| line),
    }
}

/// Decoding a code stream that consists only of constant-load instructions,
/// from `ip` to the end: the sequence of constants loaded, in order, or
/// `None` if any instruction is malformed (wrong opcode, truncated operand,
/// or an index outside the pool).
pub open spec fn decode_constants(code: Seq<u8>, constants: Seq<ValueV>, ip: int) -> Option<
    Seq<ValueV>,
>
    decreases code.len() - ip,
{
    if ip < 0 || ip >= code.len() {
        if ip == code.len() {
            Some(Seq::empty())
        } else {
            None
        }
    } else if opcode_of(code[ip]) == OpCode::Constant {
        if ip + 2 <= code.len() {
            let idx = code[ip + 1] as int;
            if idx < constants.len() {
                match decode_constants(code, constants, ip + 2) {
                    Some(rest) => Some(seq![constants[idx]] + rest),
                    None => None,
                }
            } else {
                None
            }
        } else {
            None
        }
    } else if opcode_of(code[ip]) == OpCode::ConstantLong {
        if ip + 5 <= code.len() {
            let idx = be32(code[ip + 1], code[ip + 2], code[ip + 3], code[ip + 4]) as int;
            if idx < constants.len() {
                match decode_constants(code, constants, ip + 5) {
                    Some(rest) => Some(seq![constants[idx]] + rest),
                    None => None,
                }
            } else {
                None
            }
        } else {
            None
        }
    } else {
        None
    }
}

/// One decoded instruction: its opcode, its operand where it has one, and
/// the offset of the next instruction. A constant-load whose operand bytes
/// are cut off by the end of the stream reports no operand and stops the
/// walk at the end.
pub ghost struct InstrV {
    pub op: OpCode,
    pub operand: Option<u32>,
    pub next: int,
}

/// Decoding the single instruction that starts at `off`.
pub open spec fn instr_at(m: ChunkV, off: int) -> InstrV
    recommends
        0 <= off < m.code.len(),
{
    let op = opcode_of(m.code[off]);
    match op {
        OpCode::Constant => if off + 2 <= m.code.len() {
            InstrV { op, operand: Some(m.code[off + 1] as u32), next: off + 2 }
        } else {
            InstrV { op, operand: None, next: m.code.len() as int }
        },
        OpCode::ConstantLong => if off + 5 <= m.code.len() {
            InstrV {
                op,
                operand: Some(be32(m.code[off + 1], m.code[off + 2], m.code[off + 3], m.code[off + 4])),
                next: off + 5,
            }
        } else {
            InstrV { op, operand: None, next: m.code.len() as int }
        },
        _ => InstrV { op, operand: None, next: off + 1 },
    }
}

/// An append-only instruction buffer, its parallel source-line table, and
/// its ordered constant pool.
pub struct Chunk {
    code: Vec<u8>,
    constants: Vec<Value>,
    lines: Vec<u32>,
}

impl View for Chunk {
    type V = ChunkV;

    closed spec fn view(&self) -> ChunkV {
        ChunkV { code: self.code@, constants: vals(self.constants@), lines: self.lines@ }
    }
}

impl Chunk {
    pub open spec fn wf(&self) -> bool {
        chunk_wf(self@)
    }

    pub fn new() -> (r: Self)
        ensures
            r.wf(),
            r@.code == Seq::<u8>::empty(),
            r@.constants == Seq::<ValueV>::empty(),
            r@.lines == Seq::<u32>::empty(),
    {
        let r = Chunk { code: Vec::new(), constants: Vec::new(), lines: Vec::new() };
        proof {
            assert(r@.constants =~= Seq::<ValueV>::empty());
        }
        r
    }

    /// Appends one raw instruction byte, tagged with its source line.
    pub fn append(&mut self, byte: u8, line: u32)
        requires
            old(self).wf(),
        ensures
            final(self).wf(),
            final(self)@ == append_model(old(self)@, byte, line),
    {
        self.code.push(byte);
        self.lines.push(line);
        proof {
            assert(self@ =~= append_model(old(self)@, byte, line));
        }
    }

    /// Appends `val` to the constant pool and emits the constant-load
    /// instruction referencing it, choosing the short or the long form by
    /// the pool size at this insertion.
    pub fn append_constant(&mut self, val: Value, line: u32)
        requires
            old(self).wf(),
            old(self)@.constants.len() < 0x1_0000_0000,
        ensures
            final(self).wf(),
            final(self)@ == append_constant_model(old(self)@, val@, line),
    {
        let ghost old_model = self@;
        let idx_usize = self.constants.len();
        self.constants.push(val);
        let idx = idx_usize as u32;
        if idx < 256 {
            self.append_raw(OpCode::Constant.as_byte(), line);
            self.append_raw(idx as u8, line);
        } else {
            self.append_raw(OpCode::ConstantLong.as_byte(), line);
            self.append_raw((idx >> 24) as u8, line);
            self.append_raw(((idx >> 16) & 0xff) as u8, line);
            self.append_raw(((idx >> 8) & 0xff) as u8, line);
            self.append_raw((idx & 0xff) as u8, line);
        }
        proof {
            assert(self@ =~= append_constant_model(old_model, val@, line));
        }
    }

    /// `append` on a chunk whose constant pool was already extended; shares
    /// the byte-and-line push between the two public appenders.
    fn append_raw(&mut self, byte: u8, line: u32)
        requires
            chunk_wf(old(self)@),
        ensures
            chunk_wf(final(self)@),
            final(self)@.code == old(self)@.code.push(byte),
            final(self)@.lines == old(self)@.lines.push(line),
            final(self)@.constants == old(self)@.constants,
    {
        self.code.push(byte);
        self.lines.push(line);
    }

    /// Reads the byte at `*ip` and advances the pointer past it.
    pub fn next_byte(&self, ip: &mut usize) -> (byte: u8)
        requires
            *old(ip) < self@.code.len(),
        ensures
            byte == self@.code[*old(ip) as int],
            *final(ip) == *old(ip) + 1,
    {
        let n = self.code.len();
        proof {
            assert(*ip < n);
        }
        let byte = self.code[*ip];
        *ip += 1;
        byte
    }

    /// Decodes a constant-load operand at `*ip`, advances the pointer past
    /// it, and returns a deep copy of the referenced constant — or `None`
    /// when the operand is truncated or the index is outside the pool, in
    /// which case the pointer is left unchanged.
    pub fn read_constant(&self, ip: &mut usize, is_long: bool) -> (r: Option<Value>)
        ensures
            match r {
                Some(v) => {
                    let width = if is_long { 4int } else { 1int };
                    &&& *old(ip) + width <= self@.code.len()
                    &&& *final(ip) == *old(ip) + width
                    &&& constant_operand_index(self@, *old(ip) as int, is_long) is Some
                    &&& v@ == self@.constants[constant_operand_index(
                        self@,
                        *old(ip) as int,
                        is_long,
                    )->0]
                },
                None => {
                    &&& *final(ip) == *old(ip)
                    &&& (*old(ip) + (if is_long { 4int } else { 1int }) > self@.code.len()
                        || constant_operand_index(self@, *old(ip) as int, is_long) is None)
                },
            },
    {
        let n = self.code.len();
        if is_long {
            if n < 4 || *ip > n - 4 {
                return None;
            }
            let b0 = self.code[*ip];
            let b1 = self.code[*ip + 1];
            let b2 = self.code[*ip + 2];
            let b3 = self.code[*ip + 3];
            let idx = ((b0 as u32) << 24) | ((b1 as u32) << 16) | ((b2 as u32) << 8) | (b3 as u32);
            if (idx as usize) < self.constants.len() {
                let v = self.constants[idx as usize].clone();
                *ip += 4;
                Some(v)
            } else {
                None
            }
        } else {
            if *ip >= n {
                return None;
            }
            let idx = self.code[*ip] as usize;
            if idx < self.constants.len() {
                let v = self.constants[idx].clone();
                *ip += 1;
                Some(v)
            } else {
                None
            }
        }
    }

    /// Reads a constant-load operand that is known to be well formed; the
    /// sequential-decode helper the virtual machine's trusted-good paths
    /// and the disassembler share.
    pub fn get_constant(&self, ip: &mut usize, is_long: bool) -> (r: Value)
        requires
            *old(ip) + (if is_long { 4int } else { 1int }) <= self@.code.len(),
            constant_operand_index(self@, *old(ip) as int, is_long) is Some,
        ensures
            *final(ip) == *old(ip) + (if is_long { 4int } else { 1int }),
            r@ == self@.constants[constant_operand_index(self@, *old(ip) as int, is_long)->0],
    {
        let r = self.read_constant(ip, is_long);
        match r {
            Some(v) => v,
            None => {
                proof {
                    assert(false);
                }
                Value::Nil
            },
        }
    }

    pub fn len(&self) -> (r: usize)
        ensures
            r == self@.code.len(),
    {
        self.code.len()
    }

    /// How many constants the pool holds.
    pub fn constants_len(&self) -> (r: usize)
        ensures
            r == self@.constants.len(),
    {
        self.constants.len()
    }

    /// The source line recorded for the instruction byte at `offset`.
    pub fn line_at(&self, offset: usize) -> (r: u32)
        requires
            offset < self@.lines.len(),
        ensures
            r == self@.lines[offset as int],
    {
        self.lines[offset]
    }
}

/// Structural well-formedness of the instruction stream from `ip` to the
/// end: instruction boundaries land exactly on the end of the stream, and
/// every constant-load carries its full operand and refers into the pool.
pub open spec fn code_wf(m: ChunkV, ip: int) -> bool
    decreases m.code.len() - ip,
{
    if ip < 0 || ip >= m.code.len() {
        ip == m.code.len()
    } else {
        let op = opcode_of(m.code[ip]);
        if op == OpCode::Constant {
            &&& ip + 2 <= m.code.len()
            &&& (m.code[ip + 1] as int) < m.constants.len()
            &&& code_wf(m, ip + 2)
        } else if op == OpCode::ConstantLong {
            &&& ip + 5 <= m.code.len()
            &&& (be32(m.code[ip + 1], m.code[ip + 2], m.code[ip + 3], m.code[ip + 4]) as int)
                < m.constants.len()
            &&& code_wf(m, ip + 5)
        } else {
            code_wf(m, ip + 1)
        }
    }
}

/// Appending a one-byte instruction keeps the stream well formed.
pub proof fn lemma_code_wf_append(m: ChunkV, byte: u8, line: u32, ip: int)
    requires
        0 <= ip,
        code_wf(m, ip),
        opcode_of(byte) != OpCode::Constant,
        opcode_of(byte) != OpCode::ConstantLong,
    ensures
        code_wf(append_model(m, byte, line), ip),
    decreases m.code.len() - ip,
{
    let m2 = append_model(m, byte, line);
    if ip == m.code.len() {
        assert(m2.code[ip] == byte);
        assert(code_wf(m2, ip + 1));
    } else {
        let op = opcode_of(m.code[ip]);
        assert(m2.code[ip] == m.code[ip]);
        if op == OpCode::Constant {
            assert(m2.code[ip + 1] == m.code[ip + 1]);
            lemma_code_wf_append(m, byte, line, ip + 2);
        } else if op == OpCode::ConstantLong {
            assert(m2.code[ip + 1] == m.code[ip + 1]);
            assert(m2.code[ip + 2] == m.code[ip + 2]);
            assert(m2.code[ip + 3] == m.code[ip + 3]);
            assert(m2.code[ip + 4] == m.code[ip + 4]);
            lemma_code_wf_append(m, byte, line, ip + 5);
        } else {
            lemma_code_wf_append(m, byte, line, ip + 1);
        }
    }
}

/// Appending a whole constant-load instruction keeps the stream well
/// formed: the new operand is complete and its index lands on the value
/// just pushed.
pub proof fn lemma_code_wf_append_constant(m: ChunkV, v: ValueV, line: u32, ip: int)
    requires
        0 <= ip,
        code_wf(m, ip),
        m.constants.len() < 0x1_0000_0000,
    ensures
        code_wf(append_constant_model(m, v, line), ip),
    decreases m.code.len() - ip,
{
    let m2 = append_constant_model(m, v, line);
    let idx = m.constants.len() as int;
    if ip == m.code.len() {
        if idx < 256 {
            assert(m2.code[ip] == opcode_value(OpCode::Constant));
            assert(m2.code[ip + 1] == idx as u8);
            assert((idx as u8) as int == idx);
            assert(code_wf(m2, ip + 2));
        } else {
            let x = idx as u32;
            assert(m2.code[ip] == opcode_value(OpCode::ConstantLong));
            assert(be32(
                (x >> 24) as u8,
                ((x >> 16) & 0xff) as u8,
                ((x >> 8) & 0xff) as u8,
                (x & 0xff) as u8,
            ) == x) by (bit_vector);
            assert(code_wf(m2, ip + 5));
        }
    } else {
        let op = opcode_of(m.code[ip]);
        assert(m2.code[ip] == m.code[ip]);
        if op == OpCode::Constant {
            assert(m2.code[ip + 1] == m.code[ip + 1]);
            lemma_code_wf_append_constant(m, v, line, ip + 2);
        } else if op == OpCode::ConstantLong {
            assert(m2.code[ip + 1] == m.code[ip + 1]);
            assert(m2.code[ip + 2] == m.code[ip + 2]);
            assert(m2.code[ip + 3] == m.code[ip + 3]);
            assert(m2.code[ip + 4] == m.code[ip + 4]);
            lemma_code_wf_append_constant(m, v, line, ip + 5);
        } else {
            lemma_code_wf_append_constant(m, v, line, ip + 1);
        }
    }
}

/// Tracks the operand-stack depth through the instructions of
/// `code[ip..end)`, starting from depth `d`: the depth after the segment,
/// or `None` when an instruction is truncated by `end`, is unknown, or
/// would need more operands than the depth provides. A `None`-free
/// segment can never underflow the stack.
pub open spec fn seg_depth(code: Seq<u8>, ip: int, end: int, d: int) -> Option<int>
    decreases end - ip,
{
    if ip >= end || ip < 0 {
        if ip == end {
            Some(d)
        } else {
            None
        }
    } else {
        let op = opcode_of(code[ip]);
        match op {
            OpCode::Constant => if ip + 2 <= end {
                seg_depth(code, ip + 2, end, d + 1)
            } else {
                None
            },
            OpCode::ConstantLong => if ip + 5 <= end {
                seg_depth(code, ip + 5, end, d + 1)
            } else {
                None
            },
            OpCode::Nil => seg_depth(code, ip + 1, end, d + 1),
            OpCode::True => seg_depth(code, ip + 1, end, d + 1),
            OpCode::False => seg_depth(code, ip + 1, end, d + 1),
            OpCode::Negate => if d >= 1 {
                seg_depth(code, ip + 1, end, d)
            } else {
                None
            },
            OpCode::Not => if d >= 1 {
                seg_depth(code, ip + 1, end, d)
            } else {
                None
            },
            OpCode::Return => if d >= 1 {
                seg_depth(code, ip + 1, end, d - 1)
            } else {
                None
            },
            OpCode::Unknown => None,
            _ => if d >= 2 {
                seg_depth(code, ip + 1, end, d - 1)
            } else {
                None
            },
        }
    }
}

/// Depth tracking composes over adjacent segments.
pub proof fn lemma_seg_depth_concat(code: Seq<u8>, a: int, b: int, c: int, d: int)
    requires
        0 <= a <= b <= c,
        seg_depth(code, a, b, d) is Some,
    ensures
        seg_depth(code, a, c, d) == seg_depth(code, b, c, seg_depth(code, a, b, d)->0),
    decreases b - a,
{
    if a < b {
        let op = opcode_of(code[a]);
        match op {
            OpCode::Constant => {
                lemma_seg_depth_concat(code, a + 2, b, c, d + 1);
            },
            OpCode::ConstantLong => {
                lemma_seg_depth_concat(code, a + 5, b, c, d + 1);
            },
            OpCode::Nil => {
                lemma_seg_depth_concat(code, a + 1, b, c, d + 1);
            },
            OpCode::True => {
                lemma_seg_depth_concat(code, a + 1, b, c, d + 1);
            },
            OpCode::False => {
                lemma_seg_depth_concat(code, a + 1, b, c, d + 1);
            },
            OpCode::Negate => {
                lemma_seg_depth_concat(code, a + 1, b, c, d);
            },
            OpCode::Not => {
                lemma_seg_depth_concat(code, a + 1, b, c, d);
            },
            OpCode::Return => {
                lemma_seg_depth_concat(code, a + 1, b, c, d - 1);
            },
            OpCode::Unknown => {},
            _ => {
                lemma_seg_depth_concat(code, a + 1, b, c, d - 1);
            },
        }
    }
}

/// Depth tracking reads only the segment's own bytes.
pub proof fn lemma_seg_depth_frame(code1: Seq<u8>, code2: Seq<u8>, a: int, b: int, d: int)
    requires
        0 <= a,
        b <= code1.len(),
        b <= code2.len(),
        forall|i: int| a <= i < b ==> code1[i] == code2[i],
    ensures
        seg_depth(code1, a, b, d) == seg_depth(code2, a, b, d),
    decreases b - a,
{
    if a < b {
        let op = opcode_of(code1[a]);
        match op {
            OpCode::Constant => {
                if a + 2 <= b {
                    lemma_seg_depth_frame(code1, code2, a + 2, b, d + 1);
                }
            },
            OpCode::ConstantLong => {
                if a + 5 <= b {
                    lemma_seg_depth_frame(code1, code2, a + 5, b, d + 1);
                }
            },
            OpCode::Nil => {
                lemma_seg_depth_frame(code1, code2, a + 1, b, d + 1);
            },
            OpCode::True => {
                lemma_seg_depth_frame(code1, code2, a + 1, b, d + 1);
            },
            OpCode::False => {
                lemma_seg_depth_frame(code1, code2, a + 1, b, d + 1);
            },
            OpCode::Negate => {
                lemma_seg_depth_frame(code1, code2, a + 1, b, d);
            },
            OpCode::Not => {
                lemma_seg_depth_frame(code1, code2, a + 1, b, d);
            },
            OpCode::Return => {
                lemma_seg_depth_frame(code1, code2, a + 1, b, d - 1);
            },
            OpCode::Unknown => {},
            _ => {
                lemma_seg_depth_frame(code1, code2, a + 1, b, d - 1);
            },
        }
    }
}

/// `b` extends `a`: the code, line table and constant pool of `a` are
/// prefixes of `b`'s. Compilation only ever appends, so what a chunk
/// holds is never rewritten.
pub open spec fn chunk_extends(a: ChunkV, b: ChunkV) -> bool {
    &&& a.code.len() <= b.code.len()
    &&& a.code == b.code.subrange(0, a.code.len() as int)
    &&& a.lines.len() <= b.lines.len()
    &&& a.lines == b.lines.subrange(0, a.lines.len() as int)
    &&& a.constants.len() <= b.constants.len()
    &&& a.constants == b.constants.subrange(0, a.constants.len() as int)
}

pub proof fn lemma_chunk_extends_refl(a: ChunkV)
    ensures
        chunk_extends(a, a),
{
    assert(a.code =~= a.code.subrange(0, a.code.len() as int));
    assert(a.lines =~= a.lines.subrange(0, a.lines.len() as int));
    assert(a.constants =~= a.constants.subrange(0, a.constants.len() as int));
}

pub proof fn lemma_chunk_extends_trans(a: ChunkV, b: ChunkV, c: ChunkV)
    requires
        chunk_extends(a, b),
        chunk_extends(b, c),
    ensures
        chunk_extends(a, c),
{
    assert(a.code =~= c.code.subrange(0, a.code.len() as int));
    assert(a.lines =~= c.lines.subrange(0, a.lines.len() as int));
    assert(a.constants =~= c.constants.subrange(0, a.constants.len() as int));
}

pub proof fn lemma_chunk_extends_append(m: ChunkV, byte: u8, line: u32)
    ensures
        chunk_extends(m, append_model(m, byte, line)),
{
    let b = append_model(m, byte, line);
    assert(m.code =~= b.code.subrange(0, m.code.len() as int));
    assert(m.lines =~= b.lines.subrange(0, m.lines.len() as int));
    assert(m.constants =~= b.constants.subrange(0, m.constants.len() as int));
}

pub proof fn lemma_chunk_extends_append_constant(m: ChunkV, v: ValueV, line: u32)
    ensures
        chunk_extends(m, append_constant_model(m, v, line)),
{
    let b = append_constant_model(m, v, line);
    assert(m.code =~= b.code.subrange(0, m.code.len() as int));
    assert(m.lines =~= b.lines.subrange(0, m.lines.len() as int));
    assert(m.constants =~= b.constants.subrange(0, m.constants.len() as int));
}

/// A chunk with nothing in it, as `Chunk::new` builds it.
pub open spec fn empty_chunk() -> ChunkV {
    ChunkV { code: Seq::empty(), constants: Seq::empty(), lines: Seq::empty() }
}

/// Appending a whole sequence of constants in order, each tagged `line`.
pub open spec fn append_constants_model(m: ChunkV, vs: Seq<ValueV>, line: u32) -> ChunkV
    decreases vs.len(),
{
    if vs.len() == 0 {
        m
    } else {
        append_constants_model(append_constant_model(m, vs[0], line), vs.drop_first(), line)
    }
}

/// Line-table invariant for the raw appender: the table stays parallel to
/// the code, and the new byte is tagged with exactly the line handed in.
pub proof fn lemma_line_table_append(m: ChunkV, byte: u8, line: u32)
    requires
        chunk_wf(m),
    ensures
        chunk_wf(append_model(m, byte, line)),
        append_model(m, byte, line).lines[m.code.len() as int] == line,
{
}

/// Line-table invariant for the constant appender: the table stays parallel
/// to the code, and every byte of the new instruction — its first byte in
/// particular, the one the disassembler reports the line of — is tagged
/// with exactly the line handed in.
pub proof fn lemma_line_table_append_constant(m: ChunkV, v: ValueV, line: u32)
    requires
        chunk_wf(m),
    ensures
        chunk_wf(append_constant_model(m, v, line)),
        forall|j: int|
            m.code.len() <= j < append_constant_model(m, v, line).code.len()
                ==> append_constant_model(m, v, line).lines[j] == line,
{
}

/// The width policy is decided at each insertion by the pool size alone: an
/// index that still fits in one byte is emitted as the 2-byte short form,
/// and from index 256 on the 5-byte long form is emitted.
pub proof fn lemma_encoding_form(m: ChunkV, v: ValueV, line: u32)
    ensures
        m.constants.len() < 256 ==> append_constant_model(m, v, line).code =~= m.code + seq![
            opcode_value(OpCode::Constant),
            m.constants.len() as u8,
        ],
        m.constants.len() >= 256 ==> append_constant_model(m, v, line).code.len() == m.code.len()
            + 5 && append_constant_model(m, v, line).code[m.code.len() as int] == opcode_value(
            OpCode::ConstantLong,
        ),
{
}

/// Decoding commutes with appending one more constant: a fully decodable
/// all-constants stream stays decodable, and the decoded sequence gains
/// exactly the appended value.
proof fn lemma_decode_extend(m: ChunkV, v: ValueV, line: u32, ip: int, s: Seq<ValueV>)
    requires
        0 <= ip <= m.code.len(),
        m.constants.len() < 0x1_0000_0000,
        decode_constants(m.code, m.constants, ip) == Some(s),
    ensures
        decode_constants(
            append_constant_model(m, v, line).code,
            append_constant_model(m, v, line).constants,
            ip,
        ) == Some(s.push(v)),
    decreases m.code.len() - ip,
{
    let m2 = append_constant_model(m, v, line);
    let idx = m.constants.len() as int;
    if ip == m.code.len() {
        assert(s =~= Seq::<ValueV>::empty());
        if idx < 256 {
            assert(m2.code[ip] == opcode_value(OpCode::Constant));
            assert(m2.code[ip + 1] == idx as u8);
            assert((idx as u8) as int == idx);
            assert(ip + 2 == m2.code.len());
            assert(decode_constants(m2.code, m2.constants, ip + 2) == Some(Seq::<ValueV>::empty()));
            assert(decode_constants(m2.code, m2.constants, ip) == Some(
                seq![m2.constants[idx]] + Seq::<ValueV>::empty(),
            ));
            assert(seq![v] + Seq::<ValueV>::empty() =~= s.push(v));
        } else {
            let x = idx as u32;
            assert(m2.code[ip] == opcode_value(OpCode::ConstantLong));
            assert(m2.code[ip + 1] == ((x >> 24) as u8));
            assert(m2.code[ip + 2] == (((x >> 16) & 0xff) as u8));
            assert(m2.code[ip + 3] == (((x >> 8) & 0xff) as u8));
            assert(m2.code[ip + 4] == ((x & 0xff) as u8));
            assert(be32(
                (x >> 24) as u8,
                ((x >> 16) & 0xff) as u8,
                ((x >> 8) & 0xff) as u8,
                (x & 0xff) as u8,
            ) == x) by (bit_vector);
            assert(x as int == idx);
            assert(ip + 5 == m2.code.len());
            assert(decode_constants(m2.code, m2.constants, ip + 5) == Some(Seq::<ValueV>::empty()));
            assert(decode_constants(m2.code, m2.constants, ip) == Some(
                seq![m2.constants[idx]] + Seq::<ValueV>::empty(),
            ));
            assert(seq![v] + Seq::<ValueV>::empty() =~= s.push(v));
        }
    } else {
        assert(m2.code[ip] == m.code[ip]);
        let op = opcode_of(m.code[ip]);
        if op == OpCode::Constant {
            let i0 = m.code[ip + 1] as int;
            let rest = decode_constants(m.code, m.constants, ip + 2);
            assert(rest is Some);
            assert(s == seq![m.constants[i0]] + rest->0);
            assert(m2.code[ip + 1] == m.code[ip + 1]);
            assert(m2.constants[i0] == m.constants[i0]);
            lemma_decode_extend(m, v, line, ip + 2, rest->0);
            assert(seq![m.constants[i0]] + (rest->0).push(v) =~= s.push(v));
        } else {
            assert(op == OpCode::ConstantLong);
            let i0 = be32(m.code[ip + 1], m.code[ip + 2], m.code[ip + 3], m.code[ip + 4]) as int;
            let rest = decode_constants(m.code, m.constants, ip + 5);
            assert(rest is Some);
            assert(s == seq![m.constants[i0]] + rest->0);
            assert(m2.code[ip + 1] == m.code[ip + 1]);
            assert(m2.code[ip + 2] == m.code[ip + 2]);
            assert(m2.code[ip + 3] == m.code[ip + 3]);
            assert(m2.code[ip + 4] == m.code[ip + 4]);
            assert(be32(m2.code[ip + 1], m2.code[ip + 2], m2.code[ip + 3], m2.code[ip + 4])
                == be32(m.code[ip + 1], m.code[ip + 2], m.code[ip + 3], m.code[ip + 4]));
            assert(m2.constants[i0] == m.constants[i0]);
            lemma_decode_extend(m, v, line, ip + 5, rest->0);
            assert(seq![m.constants[i0]] + (rest->0).push(v) =~= s.push(v));
        }
    }
}

/// Round-trip encoding: appending any sequence of constants to a chunk
/// whose code decodes to exactly its pool — the fresh chunk in particular —
/// yields a chunk whose code, decoded in order, reproduces exactly the
/// inserted constants. Together with the width policy of
/// `lemma_encoding_form`, on a fresh chunk the first 256 insertions decode
/// through the short form and every later one through the long form.
pub proof fn lemma_constant_round_trip(m: ChunkV, vs: Seq<ValueV>, line: u32)
    requires
        decode_constants(m.code, m.constants, 0) == Some(m.constants),
        m.constants.len() + vs.len() < 0x1_0000_0000,
    ensures
        append_constants_model(m, vs, line).constants == m.constants + vs,
        decode_constants(
            append_constants_model(m, vs, line).code,
            append_constants_model(m, vs, line).constants,
            0,
        ) == Some(m.constants + vs),
    decreases vs.len(),
{
    if vs.len() == 0 {
        assert(m.constants + vs =~= m.constants);
    } else {
        let m1 = append_constant_model(m, vs[0], line);
        lemma_decode_extend(m, vs[0], line, 0, m.constants);
        assert(m1.constants =~= m.constants.push(vs[0]));
        lemma_constant_round_trip(m1, vs.drop_first(), line);
        assert(m.constants + vs =~= m1.constants + vs.drop_first());
    }
}

/// One entry of a disassembly listing: the instruction's offset, the source
/// line recorded for its first byte, its opcode and operand, and where the
/// next instruction starts. Rendering — including suppressing a line number
/// that repeats the previous entry's — is left to the caller.
pub struct InstrInfo {
    pub offset: usize,
    pub line: u32,
    pub op: OpCode,
    pub operand: Option<u32>,
    pub next_offset: usize,
}

/// What a correct disassembly entry for the instruction at `off` holds.
pub open spec fn instr_info_matches(m: ChunkV, off: int, info: InstrInfo) -> bool {
    &&& info.offset == off
    &&& info.line == m.lines[off]
    &&& info.op == instr_at(m, off).op
    &&& info.operand == instr_at(m, off).operand
    &&& info.next_offset == instr_at(m, off).next
}

impl Chunk {
    /// Decodes the one instruction at `offset` for a disassembly listing.
    /// The line reported is the chunk's line-table entry for the
    /// instruction's first byte.
    pub fn dissassemble_instruction(&self, offset: usize) -> (info: InstrInfo)
        requires
            self.wf(),
            offset < self@.code.len(),
        ensures
            instr_info_matches(self@, offset as int, info),
            offset < info.next_offset <= self@.code.len(),
    {
        let n = self.code.len();
        let line = self.lines[offset];
        let op = OpCode::from(self.code[offset]);
        match op {
            OpCode::Constant => {
                if n - offset >= 2 {
                    InstrInfo {
                        offset,
                        line,
                        op,
                        operand: Some(self.code[offset + 1] as u32),
                        next_offset: offset + 2,
                    }
                } else {
                    InstrInfo { offset, line, op, operand: None, next_offset: n }
                }
            },
            OpCode::ConstantLong => {
                if n - offset >= 5 {
                    let b0 = self.code[offset + 1];
                    let b1 = self.code[offset + 2];
                    let b2 = self.code[offset + 3];
                    let b3 = self.code[offset + 4];
                    let idx = ((b0 as u32) << 24) | ((b1 as u32) << 16) | ((b2 as u32) << 8) | (
                    b3 as u32);
                    InstrInfo { offset, line, op, operand: Some(idx), next_offset: offset + 5 }
                } else {
                    InstrInfo { offset, line, op, operand: None, next_offset: n }
                }
            },
            _ => InstrInfo { offset, line, op, operand: None, next_offset: offset + 1 },
        }
    }

    /// Walks the whole instruction stream opcode by opcode and returns the
    /// listing: entries start at offset 0, each picks up where the previous
    /// one ended, and the last one ends at the end of the stream.
    pub fn disassemble(&self) -> (r: Vec<InstrInfo>)
        requires
            self.wf(),
        ensures
            forall|i: int|
                0 <= i < r@.len() ==> instr_info_matches(self@, r@[i].offset as int, r@[i]),
            forall|i: int| 0 <= i < r@.len() - 1 ==> r@[i].next_offset == r@[i + 1].offset,
            r@.len() > 0 ==> r@[0].offset == 0 && r@[r@.len() - 1].next_offset == self@.code.len(),
            r@.len() == 0 ==> self@.code.len() == 0,
    {
        let mut out: Vec<InstrInfo> = Vec::new();
        let mut offset: usize = 0;
        let n = self.code.len();
        while offset < n
            invariant
                self.wf(),
                n == self@.code.len(),
                offset <= n,
                forall|i: int|
                    0 <= i < out@.len() ==> instr_info_matches(self@, out@[i].offset as int, out@[i]),
                forall|i: int| 0 <= i < out@.len() - 1 ==> out@[i].next_offset == out@[i + 1].offset,
                out@.len() > 0 ==> out@[0].offset == 0 && out@[out@.len() - 1].next_offset == offset,
                out@.len() == 0 ==> offset == 0,
            decreases n - offset,
        {
            let info = self.dissassemble_instruction(offset);
            offset = info.next_offset;
            out.push(info);
        }
        out
    }
}

/// The pool index a constant-load operand at `ip` refers to, if the operand
/// is in bounds of both the code stream and the pool.
pub open spec fn constant_operand_index(m: ChunkV, ip: int, is_long: bool) -> Option<int> {
    if is_long {
        if ip + 4 <= m.code.len() {
            let idx = be32(m.code[ip], m.code[ip + 1], m.code[ip + 2], m.code[ip + 3]) as int;
            if idx < m.constants.len() {
                Some(idx)
            } else {
                None
            }
        } else {
            None
        }
    } else {
        if ip + 1 <= m.code.len() {
            let idx = m.code[ip] as int;
            if idx < m.constants.len() {
                Some(idx)
            } else {
                None
            }
        } else {
            None
        }
    }
}

} // verus!
