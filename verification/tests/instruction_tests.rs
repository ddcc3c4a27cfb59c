use rpd::instruction::Instr;
use rpd::instruction::Instruction;
use rpd::instruction::Opcode;

#[test]
fn test_create_instrunction() {
    let inst = Instruction {
        opcode: Opcode::ZERO,
    };
    assert_eq!(inst.opcode, Opcode::ZERO);
}

#[test]
fn test_opcode_byte_table() {
    assert_eq!(Opcode::ZERO.to_byte(), 0);
    assert_eq!(Opcode::LOAD.to_byte(), 1);
    assert_eq!(Opcode::ADD.to_byte(), 2);
    assert_eq!(Opcode::SUB.to_byte(), 3);
    assert_eq!(Opcode::MUL.to_byte(), 4);
    assert_eq!(Opcode::DIV.to_byte(), 5);
    assert_eq!(Opcode::JMP.to_byte(), 6);
    assert_eq!(Opcode::EQ.to_byte(), 7);
    assert_eq!(Opcode::JEQ.to_byte(), 8);
    assert_eq!(Opcode::ALLOC.to_byte(), 9);
    assert_eq!(Opcode::INC.to_byte(), 10);
    assert_eq!(Opcode::DEC.to_byte(), 11);
    assert_eq!(Opcode::JNEQ.to_byte(), 12);
}

#[test]
fn test_unmapped_bytes_decode_to_illegal() {
    assert_eq!(Opcode::from_byte(13), Opcode::ILLEGAL);
    assert_eq!(Opcode::from_byte(255), Opcode::ILLEGAL);
}

#[test]
fn test_encode_load_big_endian() {
    let cell = Instr::Load {
        reg: 1,
        value: 0x0102,
    }
    .encode();
    assert_eq!(cell, [1, 1, 1, 2]);
}

#[test]
fn test_decode_of_encode_round_trips() {
    let cases = vec![
        Instr::Zero,
        Instr::Load {
            reg: 31,
            value: 65535,
        },
        Instr::Load { reg: 0, value: 0 },
        Instr::Add { dst: 3, a: 1, b: 2 },
        Instr::Sub { dst: 3, a: 1, b: 2 },
        Instr::Mul {
            dst: 0,
            a: 255,
            b: 7,
        },
        Instr::Div { dst: 9, a: 8, b: 7 },
        Instr::Jmp { target: 8 },
        Instr::Eq { a: 4, b: 5 },
        Instr::Jeq { target: 0 },
        Instr::Jneq { target: 252 },
        Instr::Alloc { reg: 0 },
        Instr::Inc { reg: 30 },
        Instr::Dec { reg: 1 },
    ];
    for instr in cases {
        let cell = instr.encode();
        assert_eq!(Instr::decode(&cell), Some(instr));
    }
}

#[test]
fn test_decode_illegal_cell() {
    assert_eq!(Instr::decode(&[200, 0, 0, 0]), None);
}
