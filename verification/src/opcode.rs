//! The instruction set: one-byte opcode tags, their encoding as bytes,
//! and the total, defensive decoding of any byte back to a tag.

use vstd::prelude::*;

verus! {

/// One-byte instruction tags. `Unknown` is the defensive sentinel that every
/// byte without a mapping decodes to; the compiler never emits it, but every
/// decoder must handle it without failing.
#[derive(Debug, Clone, Copy, PartialEq, Eq, Structural)]
pub enum OpCode {
    Unknown,
    Return,
    Constant,
    ConstantLong,
    Nil,
    True,
    False,
    Negate,
    Not,
    Add,
    Subtract,
    Multiply,
    Divide,
    Equal,
    Greater,
    Less,
}

/// The byte that encodes an opcode in an instruction stream.
pub open spec fn opcode_value(op: OpCode) -> u8 {
    match op {
        OpCode::Unknown => 0,
        OpCode::Return => 1,
        OpCode::Constant => 2,
        OpCode::ConstantLong => 3,
        OpCode::Nil => 4,
        OpCode::True => 5,
        OpCode::False => 6,
        OpCode::Negate => 7,
        OpCode::Not => 8,
        OpCode::Add => 9,
        OpCode::Subtract => 10,
        OpCode::Multiply => 11,
        OpCode::Divide => 12,
        OpCode::Equal => 13,
        OpCode::Greater => 14,
        OpCode::Less => 15,
    }
}

/// Total decoding of a byte: the inverse of `opcode_value` on the sixteen
/// mapped values, `Unknown` everywhere else.
pub open spec fn opcode_of(b: u8) -> OpCode {
    if b == 1 {
        OpCode::Return
    } else if b == 2 {
        OpCode::Constant
    } else if b == 3 {
        OpCode::ConstantLong
    } else if b == 4 {
        OpCode::Nil
    } else if b == 5 {
        OpCode::True
    } else if b == 6 {
        OpCode::False
    } else if b == 7 {
        OpCode::Negate
    } else if b == 8 {
        OpCode::Not
    } else if b == 9 {
        OpCode::Add
    } else if b == 10 {
        OpCode::Subtract
    } else if b == 11 {
        OpCode::Multiply
    } else if b == 12 {
        OpCode::Divide
    } else if b == 13 {
        OpCode::Equal
    } else if b == 14 {
        OpCode::Greater
    } else if b == 15 {
        OpCode::Less
    } else {
        OpCode::Unknown
    }
}

/// The printable mnemonic of an opcode.
pub open spec fn opcode_mnemonic(op: OpCode) -> Seq<char> {
    match op {
        OpCode::Unknown => "Unknown"@,
        OpCode::Return => "Return"@,
        OpCode::Constant => "Constant"@,
        OpCode::ConstantLong => "ConstantLong"@,
        OpCode::Nil => "Nil"@,
        OpCode::True => "True"@,
        OpCode::False => "False"@,
        OpCode::Negate => "Negate"@,
        OpCode::Not => "Not"@,
        OpCode::Add => "Add"@,
        OpCode::Subtract => "Subtract"@,
        OpCode::Multiply => "Multiply"@,
        OpCode::Divide => "Divide"@,
        OpCode::Equal => "Equal"@,
        OpCode::Greater => "Greater"@,
        OpCode::Less => "Less"@,
    }
}

impl OpCode {
    /// The byte this opcode is emitted as.
    pub fn as_byte(&self) -> (b: u8)
        ensures
            b == opcode_value(*self),
            opcode_of(b) == *self || *self == OpCode::Unknown,
    {
        match *self {
            OpCode::Unknown => 0,
            OpCode::Return => 1,
            OpCode::Constant => 2,
            OpCode::ConstantLong => 3,
            OpCode::Nil => 4,
            OpCode::True => 5,
            OpCode::False => 6,
            OpCode::Negate => 7,
            OpCode::Not => 8,
            OpCode::Add => 9,
            OpCode::Subtract => 10,
            OpCode::Multiply => 11,
            OpCode::Divide => 12,
            OpCode::Equal => 13,
            OpCode::Greater => 14,
            OpCode::Less => 15,
        }
    }

    /// The opcode's printable mnemonic, for disassembly listings.
    pub fn mnemonic(&self) -> (s: &'static str)
        ensures
            s@ == opcode_mnemonic(*self),
    {
        match *self {
            OpCode::Unknown => "Unknown",
            OpCode::Return => "Return",
            OpCode::Constant => "Constant",
            OpCode::ConstantLong => "ConstantLong",
            OpCode::Nil => "Nil",
            OpCode::True => "True",
            OpCode::False => "False",
            OpCode::Negate => "Negate",
            OpCode::Not => "Not",
            OpCode::Add => "Add",
            OpCode::Subtract => "Subtract",
            OpCode::Multiply => "Multiply",
            OpCode::Divide => "Divide",
            OpCode::Equal => "Equal",
            OpCode::Greater => "Greater",
            OpCode::Less => "Less",
        }
    }
}

impl From<u8> for OpCode {
    fn from(orig: u8) -> (r: Self) {
        if orig == 1 {
            OpCode::Return
        } else if orig == 2 {
            OpCode::Constant
        } else if orig == 3 {
            OpCode::ConstantLong
        } else if orig == 4 {
            OpCode::Nil
        } else if orig == 5 {
            OpCode::True
        } else if orig == 6 {
            OpCode::False
        } else if orig == 7 {
            OpCode::Negate
        } else if orig == 8 {
            OpCode::Not
        } else if orig == 9 {
            OpCode::Add
        } else if orig == 10 {
            OpCode::Subtract
        } else if orig == 11 {
            OpCode::Multiply
        } else if orig == 12 {
            OpCode::Divide
        } else if orig == 13 {
            OpCode::Equal
        } else if orig == 14 {
            OpCode::Greater
        } else if orig == 15 {
            OpCode::Less
        } else {
            OpCode::Unknown
        }
    }
}

impl vstd::std_specs::convert::FromSpecImpl<u8> for OpCode {
    open spec fn obeys_from_spec() -> bool {
        true
    }

    open spec fn from_spec(orig: u8) -> Self {
        opcode_of(orig)
    }
}

} // verus!
