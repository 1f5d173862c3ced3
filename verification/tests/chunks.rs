use kurisu::chunk::Chunk;
use kurisu::opcode::OpCode;
use kurisu::value::Value;

#[test]
fn round_trip_three_hundred_constants() {
    let mut chunk = Chunk::new();
    let total: usize = 300;
    for i in 0..total {
        chunk.append_constant(Value::Number(i as u64), 1);
    }
    let mut ip: usize = 0;
    let mut decoded: Vec<u64> = Vec::new();
    while ip < chunk.len() {
        let count = decoded.len();
        let byte = chunk.next_byte(&mut ip);
        let op = OpCode::from(byte);
        let is_long = match op {
            OpCode::Constant => {
                assert!(count < 256, "short form past the first 256 insertions");
                false
            }
            OpCode::ConstantLong => {
                assert!(count >= 256, "long form within the first 256 insertions");
                true
            }
            _ => panic!("unexpected opcode in an all-constants chunk"),
        };
        let val = chunk
            .read_constant(&mut ip, is_long)
            .expect("operand must decode");
        match val {
            Value::Number(bits) => decoded.push(bits),
            _ => panic!("decoded constant has the wrong variant"),
        }
    }
    let expected: Vec<u64> = (0..total as u64).collect();
    assert_eq!(decoded, expected);
}

#[test]
fn line_table_parallels_instructions() {
    let mut chunk = Chunk::new();
    chunk.append(OpCode::Nil.as_byte(), 7);
    chunk.append_constant(Value::Number(0), 9);
    chunk.append(OpCode::Return.as_byte(), 12);
    assert_eq!(chunk.len(), 4);
    for offset in 0..chunk.len() {
        let _ = chunk.line_at(offset);
    }
    assert_eq!(chunk.line_at(0), 7);
    assert_eq!(chunk.line_at(1), 9);
    assert_eq!(chunk.line_at(2), 9);
    assert_eq!(chunk.line_at(3), 12);
}

#[test]
fn disassembly_reports_the_appended_lines() {
    let mut chunk = Chunk::new();
    chunk.append(OpCode::Nil.as_byte(), 3);
    chunk.append_constant(Value::Boolean(true), 5);
    chunk.append(OpCode::Return.as_byte(), 5);
    let listing = chunk.disassemble();
    assert_eq!(listing.len(), 3);
    assert_eq!(listing[0].offset, 0);
    assert_eq!(listing[0].line, 3);
    assert_eq!(listing[0].op, OpCode::Nil);
    assert_eq!(listing[1].offset, 1);
    assert_eq!(listing[1].line, 5);
    assert_eq!(listing[1].op, OpCode::Constant);
    assert_eq!(listing[1].operand, Some(0));
    assert_eq!(listing[2].offset, 3);
    assert_eq!(listing[2].line, 5);
    assert_eq!(listing[2].op, OpCode::Return);
    assert_eq!(listing[2].next_offset, chunk.len());
}

#[test]
fn every_unmapped_byte_decodes_to_unknown() {
    assert_eq!(OpCode::from(0u8), OpCode::Unknown);
    assert_eq!(OpCode::from(16u8), OpCode::Unknown);
    assert_eq!(OpCode::from(200u8), OpCode::Unknown);
    assert_eq!(OpCode::from(9u8), OpCode::Add);
    assert_eq!(OpCode::from(1u8), OpCode::Return);
}

#[test]
fn opcode_bytes_round_trip() {
    let ops = [
        OpCode::Return,
        OpCode::Constant,
        OpCode::ConstantLong,
        OpCode::Nil,
        OpCode::True,
        OpCode::False,
        OpCode::Negate,
        OpCode::Not,
        OpCode::Add,
        OpCode::Subtract,
        OpCode::Multiply,
        OpCode::Divide,
        OpCode::Equal,
        OpCode::Greater,
        OpCode::Less,
    ];
    for op in ops {
        assert_eq!(OpCode::from(op.as_byte()), op);
    }
    assert_eq!(OpCode::Unknown.as_byte(), 0);
}

#[test]
fn read_constant_rejects_a_bad_index() {
    let mut chunk = Chunk::new();
    chunk.append(OpCode::Constant.as_byte(), 1);
    chunk.append(5, 1);
    let mut ip: usize = 1;
    assert!(chunk.read_constant(&mut ip, false).is_none());
    assert_eq!(ip, 1);
}

#[test]
fn truncated_constant_operand_stops_the_listing() {
    let mut chunk = Chunk::new();
    chunk.append(OpCode::Constant.as_byte(), 1);
    let info = chunk.dissassemble_instruction(0);
    assert_eq!(info.op, OpCode::Constant);
    assert_eq!(info.operand, None);
    assert_eq!(info.next_offset, chunk.len());
}

#[test]
fn mnemonics_name_the_opcodes() {
    assert_eq!(OpCode::ConstantLong.mnemonic(), "ConstantLong");
    assert_eq!(OpCode::Unknown.mnemonic(), "Unknown");
}
