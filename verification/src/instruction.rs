//! The opcode table and the fixed-width cell encoding.
//!
//! Every instruction occupies exactly one 4-byte cell:
//! `[opcode][operand0][operand1][operand2]`.  A 16-bit immediate occupies two
//! operand bytes in big-endian order; unused operand bytes are zero padding.

use vstd::prelude::*;

verus! {

/// The mnemonic opcodes of the machine.  `ZERO` is the sentinel no-op that
/// marks the end of a token stream; `ILLEGAL` stands for every byte value
/// that no opcode maps to.
#[derive(Debug, PartialEq, Eq, Structural, Clone, Copy)]
pub enum Opcode {
    ZERO,
    LOAD,
    ADD,
    SUB,
    MUL,
    DIV,
    JMP,
    EQ,
    JEQ,
    JNEQ,
    ALLOC,
    INC,
    DEC,
    ILLEGAL,
}

/// The byte value of an opcode in the wire format.  `ILLEGAL` has no
/// encoding of its own; it is given 255, an unmapped byte.
pub open spec fn opcode_value(op: Opcode) -> u8 {
    match op {
        Opcode::ZERO => 0,
        Opcode::LOAD => 1,
        Opcode::ADD => 2,
        Opcode::SUB => 3,
        Opcode::MUL => 4,
        Opcode::DIV => 5,
        Opcode::JMP => 6,
        Opcode::EQ => 7,
        Opcode::JEQ => 8,
        Opcode::ALLOC => 9,
        Opcode::INC => 10,
        Opcode::DEC => 11,
        Opcode::JNEQ => 12,
        Opcode::ILLEGAL => 255,
    }
}

/// The opcode that a byte value decodes to; every unmapped byte is `ILLEGAL`.
pub open spec fn opcode_of(byte: u8) -> Opcode {
    match byte {
        0 => Opcode::ZERO,
        1 => Opcode::LOAD,
        2 => Opcode::ADD,
        3 => Opcode::SUB,
        4 => Opcode::MUL,
        5 => Opcode::DIV,
        6 => Opcode::JMP,
        7 => Opcode::EQ,
        8 => Opcode::JEQ,
        9 => Opcode::ALLOC,
        10 => Opcode::INC,
        11 => Opcode::DEC,
        12 => Opcode::JNEQ,
        _ => Opcode::ILLEGAL,
    }
}

impl Opcode {
    /// The byte this opcode encodes to.  `ILLEGAL` cannot be encoded.
    pub fn to_byte(self) -> (r: u8)
        requires
            self != Opcode::ILLEGAL,
        ensures
            r == opcode_value(self),
            opcode_of(r) == self,
    {
        match self {
            Opcode::ZERO => 0,
            Opcode::LOAD => 1,
            Opcode::ADD => 2,
            Opcode::SUB => 3,
            Opcode::MUL => 4,
            Opcode::DIV => 5,
            Opcode::JMP => 6,
            Opcode::EQ => 7,
            Opcode::JEQ => 8,
            Opcode::ALLOC => 9,
            Opcode::INC => 10,
            Opcode::DEC => 11,
            Opcode::JNEQ => 12,
            Opcode::ILLEGAL => 255,
        }
    }

    /// The opcode a byte decodes to; unmapped bytes give `ILLEGAL`.
    pub fn from_byte(byte: u8) -> (r: Opcode)
        ensures
            r == opcode_of(byte),
    {
        match byte {
            0 => Opcode::ZERO,
            1 => Opcode::LOAD,
            2 => Opcode::ADD,
            3 => Opcode::SUB,
            4 => Opcode::MUL,
            5 => Opcode::DIV,
            6 => Opcode::JMP,
            7 => Opcode::EQ,
            8 => Opcode::JEQ,
            9 => Opcode::ALLOC,
            10 => Opcode::INC,
            11 => Opcode::DEC,
            12 => Opcode::JNEQ,
            _ => Opcode::ILLEGAL,
        }
    }
}

/// Encoding a non-`ILLEGAL` opcode and decoding the byte gives the opcode
/// back, and decoding any mapped byte and encoding again gives the byte back.
pub proof fn lemma_opcode_byte_round_trip(op: Opcode, byte: u8)
    ensures
        op != Opcode::ILLEGAL ==> opcode_of(opcode_value(op)) == op,
        byte <= 12 ==> opcode_value(opcode_of(byte)) == byte,
{
}

/// A bare instruction as the original front end held it: the opcode alone.
pub struct Instruction {
    pub opcode: Opcode,
}

impl Instruction {
    pub fn new(op: Opcode) -> (r: Instruction)
        ensures
            r.opcode == op,
    {
        Instruction { opcode: op }
    }
}

/// One decoded instruction cell: an opcode together with the operands its
/// cell carries.  Register numbers are kept as read, 0 to 255; whether a
/// register index is executable (below 32) is the machine's concern.
#[derive(Debug, PartialEq, Eq, Structural, Clone, Copy)]
pub enum Instr {
    Zero,
    Load { reg: u8, value: u16 },
    Add { dst: u8, a: u8, b: u8 },
    Sub { dst: u8, a: u8, b: u8 },
    Mul { dst: u8, a: u8, b: u8 },
    Div { dst: u8, a: u8, b: u8 },
    Jmp { target: u8 },
    Eq { a: u8, b: u8 },
    Jeq { target: u8 },
    Jneq { target: u8 },
    Alloc { reg: u8 },
    Inc { reg: u8 },
    Dec { reg: u8 },
}

/// The 4-byte cell an instruction encodes to.
pub open spec fn spec_encode(i: Instr) -> Seq<u8> {
    match i {
        Instr::Zero => seq![0u8, 0u8, 0u8, 0u8],
        Instr::Load { reg, value } => seq![
            1u8,
            reg,
            (value / 256) as u8,
            (value % 256) as u8,
        ],
        Instr::Add { dst, a, b } => seq![2u8, dst, a, b],
        Instr::Sub { dst, a, b } => seq![3u8, dst, a, b],
        Instr::Mul { dst, a, b } => seq![4u8, dst, a, b],
        Instr::Div { dst, a, b } => seq![5u8, dst, a, b],
        Instr::Jmp { target } => seq![6u8, target, 0u8, 0u8],
        Instr::Eq { a, b } => seq![7u8, a, b, 0u8],
        Instr::Jeq { target } => seq![8u8, target, 0u8, 0u8],
        Instr::Alloc { reg } => seq![9u8, reg, 0u8, 0u8],
        Instr::Inc { reg } => seq![10u8, reg, 0u8, 0u8],
        Instr::Dec { reg } => seq![11u8, reg, 0u8, 0u8],
        Instr::Jneq { target } => seq![12u8, target, 0u8, 0u8],
    }
}

/// What a 4-byte cell decodes to; `None` when the opcode byte is unmapped.
/// Padding bytes are ignored, as the machine ignores them.
pub open spec fn spec_decode(cell: Seq<u8>) -> Option<Instr>
    recommends
        cell.len() == 4,
{
    match opcode_of(cell[0]) {
        Opcode::ZERO => Some(Instr::Zero),
        Opcode::LOAD => Some(
            Instr::Load { reg: cell[1], value: (cell[2] as u16 * 256 + cell[3] as u16) as u16 },
        ),
        Opcode::ADD => Some(Instr::Add { dst: cell[1], a: cell[2], b: cell[3] }),
        Opcode::SUB => Some(Instr::Sub { dst: cell[1], a: cell[2], b: cell[3] }),
        Opcode::MUL => Some(Instr::Mul { dst: cell[1], a: cell[2], b: cell[3] }),
        Opcode::DIV => Some(Instr::Div { dst: cell[1], a: cell[2], b: cell[3] }),
        Opcode::JMP => Some(Instr::Jmp { target: cell[1] }),
        Opcode::EQ => Some(Instr::Eq { a: cell[1], b: cell[2] }),
        Opcode::JEQ => Some(Instr::Jeq { target: cell[1] }),
        Opcode::JNEQ => Some(Instr::Jneq { target: cell[1] }),
        Opcode::ALLOC => Some(Instr::Alloc { reg: cell[1] }),
        Opcode::INC => Some(Instr::Inc { reg: cell[1] }),
        Opcode::DEC => Some(Instr::Dec { reg: cell[1] }),
        Opcode::ILLEGAL => None,
    }
}

/// Round trip: decoding the cell an instruction encodes to gives the
/// instruction back, for every opcode and operand combination.
pub proof fn lemma_decode_encode(i: Instr)
    ensures
        spec_decode(spec_encode(i)) == Some(i),
{
    match i {
        Instr::Load { reg, value } => {
            assert(value / 256 < 256) by {
                assert(value < 65536);
            };
            assert((value / 256) as u16 * 256 + (value % 256) as u16 == value) by {
                assert(value == 256 * (value / 256) + value % 256);
            };
        },
        _ => {},
    }
}

impl Instr {
    /// Encode this instruction into its 4-byte cell.
    pub fn encode(&self) -> (r: [u8; 4])
        ensures
            r@ == spec_encode(*self),
    {
        match *self {
            Instr::Zero => [0, 0, 0, 0],
            Instr::Load { reg, value } => [1, reg, (value / 256) as u8, (value % 256) as u8],
            Instr::Add { dst, a, b } => [2, dst, a, b],
            Instr::Sub { dst, a, b } => [3, dst, a, b],
            Instr::Mul { dst, a, b } => [4, dst, a, b],
            Instr::Div { dst, a, b } => [5, dst, a, b],
            Instr::Jmp { target } => [6, target, 0, 0],
            Instr::Eq { a, b } => [7, a, b, 0],
            Instr::Jeq { target } => [8, target, 0, 0],
            Instr::Alloc { reg } => [9, reg, 0, 0],
            Instr::Inc { reg } => [10, reg, 0, 0],
            Instr::Dec { reg } => [11, reg, 0, 0],
            Instr::Jneq { target } => [12, target, 0, 0],
        }
    }

    /// Decode a 4-byte cell; `None` when the opcode byte is unmapped.
    pub fn decode(cell: &[u8; 4]) -> (r: Option<Instr>)
        ensures
            r == spec_decode(cell@),
    {
        let op = cell[0];
        match Opcode::from_byte(op) {
            Opcode::ZERO => Some(Instr::Zero),
            Opcode::LOAD => Some(
                Instr::Load { reg: cell[1], value: (cell[2] as u16) * 256 + (cell[3] as u16) },
            ),
            Opcode::ADD => Some(Instr::Add { dst: cell[1], a: cell[2], b: cell[3] }),
            Opcode::SUB => Some(Instr::Sub { dst: cell[1], a: cell[2], b: cell[3] }),
            Opcode::MUL => Some(Instr::Mul { dst: cell[1], a: cell[2], b: cell[3] }),
            Opcode::DIV => Some(Instr::Div { dst: cell[1], a: cell[2], b: cell[3] }),
            Opcode::JMP => Some(Instr::Jmp { target: cell[1] }),
            Opcode::EQ => Some(Instr::Eq { a: cell[1], b: cell[2] }),
            Opcode::JEQ => Some(Instr::Jeq { target: cell[1] }),
            Opcode::JNEQ => Some(Instr::Jneq { target: cell[1] }),
            Opcode::ALLOC => Some(Instr::Alloc { reg: cell[1] }),
            Opcode::INC => Some(Instr::Inc { reg: cell[1] }),
            Opcode::DEC => Some(Instr::Dec { reg: cell[1] }),
            Opcode::ILLEGAL => None,
        }
    }
}

} // verus!
