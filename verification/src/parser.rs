//! The syntax builder: tokens to one assembly instruction per line, and the
//! emitter that turns an instruction into its 4-byte cell.
//!
//! Exactly one of {opcode, label declaration, directive} is present in each
//! instruction the parser builds.  Operand arity and kind are checked per
//! opcode: three operands for ADD, SUB, MUL and DIV, two for LOAD and EQ,
//! one for JMP, JEQ, JNEQ, INC, DEC and ALLOC, each a register, an integer
//! or a label usage.  Errors are collected per instruction; the parser
//! continues with the next tokens rather than stopping.

use vstd::prelude::*;

use crate::instruction::Opcode;
use crate::instruction::opcode_value;
use crate::symbol::SymbolModel;
use crate::symbol_table::SymbolTable;
use crate::symbol_table::lookup;
use crate::token::Token;
use crate::token::TokenModel;
use crate::token::DirectiveType;
use crate::token::token_views;

verus! {

/// One malformed line.
#[derive(Debug, PartialEq, Eq, Structural, Clone, Copy)]
pub enum SyntaxError {
    /// A line began with a token that is no opcode, label or directive.
    ExpectedOpcode,
    /// An opcode's operand was missing or of the wrong kind.
    BadOperand,
    /// An `.asciiz` directive without its string literal.
    ExpectedStringLiteral,
}

/// The model of one parsed line.
#[verifier::ext_equal]
pub struct InstructionModel {
    pub opcode: Option<TokenModel>,
    pub label: Option<TokenModel>,
    pub directive: Option<TokenModel>,
    pub operand1: Option<TokenModel>,
    pub operand2: Option<TokenModel>,
    pub operand3: Option<TokenModel>,
}

/// One parsed source line: an opcode with its operands, a label
/// declaration, or a directive.  A jump's target travels in `label`.
#[derive(Debug, PartialEq)]
pub struct AssemblyInstruction {
    pub opcode: Option<Token>,
    pub label: Option<Token>,
    pub directive: Option<Token>,
    pub operand1: Option<Token>,
    pub operand2: Option<Token>,
    pub operand3: Option<Token>,
}

/// The model of an optional token.
pub open spec fn opt_view(t: Option<Token>) -> Option<TokenModel> {
    match t {
        Some(t) => Some(t@),
        None => None,
    }
}

impl View for AssemblyInstruction {
    type V = InstructionModel;

    open spec fn view(&self) -> InstructionModel {
        InstructionModel {
            opcode: opt_view(self.opcode),
            label: opt_view(self.label),
            directive: opt_view(self.directive),
            operand1: opt_view(self.operand1),
            operand2: opt_view(self.operand2),
            operand3: opt_view(self.operand3),
        }
    }
}

/// The models of a sequence of instructions, in order.
pub open spec fn instr_views(is: Seq<AssemblyInstruction>) -> Seq<InstructionModel> {
    is.map_values(|a: AssemblyInstruction| a@)
}

/// An instruction model with every slot empty.
pub open spec fn empty_instr() -> InstructionModel {
    InstructionModel {
        opcode: None,
        label: None,
        directive: None,
        operand1: None,
        operand2: None,
        operand3: None,
    }
}

/// Whether a token can stand as an operand.
pub open spec fn is_operand(t: TokenModel) -> bool {
    match t {
        TokenModel::Register { .. } => true,
        TokenModel::IntegerOp { .. } => true,
        TokenModel::LabelUsage { .. } => true,
        _ => false,
    }
}

pub open spec fn opt_is_operand(t: Option<TokenModel>) -> bool {
    match t {
        Some(t) => is_operand(t),
        None => false,
    }
}

/// The token at `i`, if the stream holds one.
pub open spec fn tok_at(ts: Seq<TokenModel>, i: int) -> Option<TokenModel> {
    if 0 <= i < ts.len() {
        Some(ts[i])
    } else {
        None
    }
}

pub open spec fn imin(a: int, b: int) -> int {
    if a < b {
        a
    } else {
        b
    }
}

/// What one `parse_instruction` call produces from position `i`, and the
/// position it leaves the parser at.
pub struct ParseStep {
    pub result: Result<InstructionModel, SyntaxError>,
    pub next: int,
}

/// Parsing one line that starts at token `i` (which must exist): a label
/// declaration or a directive stands alone; an opcode consumes its operand
/// tokens, as many as its arity asks, whether or not they are well formed.
pub open spec fn parse_one(ts: Seq<TokenModel>, i: int) -> ParseStep
    recommends
        0 <= i < ts.len(),
{
    let t = ts[i];
    match t {
        TokenModel::LabelDeclaration { .. } => ParseStep {
            result: Ok(InstructionModel { label: Some(t), ..empty_instr() }),
            next: i + 1,
        },
        TokenModel::Directive { directive_type, .. } => if directive_type
            == DirectiveType::Asciiz {
            match tok_at(ts, i + 1) {
                Some(nx) => if nx matches TokenModel::StringLiteral { .. } {
                    ParseStep {
                        result: Ok(
                            InstructionModel {
                                directive: Some(t),
                                operand1: Some(nx),
                                ..empty_instr()
                            },
                        ),
                        next: i + 2,
                    }
                } else {
                    ParseStep { result: Err(SyntaxError::ExpectedStringLiteral), next: i + 2 }
                },
                None => ParseStep {
                    result: Err(SyntaxError::ExpectedStringLiteral),
                    next: i + 1,
                },
            }
        } else {
            ParseStep {
                result: Ok(InstructionModel { directive: Some(t), ..empty_instr() }),
                next: i + 1,
            }
        },
        TokenModel::Op { code } => match code {
            Opcode::ADD | Opcode::SUB | Opcode::DIV | Opcode::MUL => {
                let o1 = tok_at(ts, i + 1);
                let o2 = tok_at(ts, i + 2);
                let o3 = tok_at(ts, i + 3);
                if !opt_is_operand(o1) || !opt_is_operand(o2) || !opt_is_operand(o3) {
                    ParseStep { result: Err(SyntaxError::BadOperand), next: imin(i + 4, ts.len() as int) }
                } else {
                    ParseStep {
                        result: Ok(
                            InstructionModel {
                                opcode: Some(t),
                                operand1: o1,
                                operand2: o2,
                                operand3: o3,
                                ..empty_instr()
                            },
                        ),
                        next: i + 4,
                    }
                }
            },
            Opcode::LOAD | Opcode::EQ => {
                let o1 = tok_at(ts, i + 1);
                let o2 = tok_at(ts, i + 2);
                if !opt_is_operand(o1) || !opt_is_operand(o2) {
                    ParseStep { result: Err(SyntaxError::BadOperand), next: imin(i + 3, ts.len() as int) }
                } else {
                    ParseStep {
                        result: Ok(
                            InstructionModel {
                                opcode: Some(t),
                                operand1: o1,
                                operand2: o2,
                                ..empty_instr()
                            },
                        ),
                        next: i + 3,
                    }
                }
            },
            Opcode::JMP | Opcode::JEQ | Opcode::JNEQ => {
                let o1 = tok_at(ts, i + 1);
                if !opt_is_operand(o1) {
                    ParseStep { result: Err(SyntaxError::BadOperand), next: imin(i + 2, ts.len() as int) }
                } else {
                    ParseStep {
                        result: Ok(
                            InstructionModel { opcode: Some(t), label: o1, ..empty_instr() },
                        ),
                        next: i + 2,
                    }
                }
            },
            Opcode::INC | Opcode::DEC | Opcode::ALLOC => {
                let o1 = tok_at(ts, i + 1);
                if !opt_is_operand(o1) {
                    ParseStep { result: Err(SyntaxError::BadOperand), next: imin(i + 2, ts.len() as int) }
                } else {
                    ParseStep {
                        result: Ok(
                            InstructionModel { opcode: Some(t), operand1: o1, ..empty_instr() },
                        ),
                        next: i + 2,
                    }
                }
            },
            _ => ParseStep {
                result: Ok(InstructionModel { opcode: Some(t), ..empty_instr() }),
                next: i + 1,
            },
        },
        _ => ParseStep { result: Err(SyntaxError::ExpectedOpcode), next: i + 1 },
    }
}

/// Every instruction and every syntax error from token `i` to the end of
/// the stream, in order.
pub open spec fn parse_all(ts: Seq<TokenModel>, i: int) -> (Seq<InstructionModel>, Seq<
    SyntaxError,
>)
    decreases ts.len() - i,
    via parse_all_decreases
{
    if 0 <= i < ts.len() {
        let st = parse_one(ts, i);
        let rest = parse_all(ts, st.next);
        match st.result {
            Ok(instr) => (seq![instr] + rest.0, rest.1),
            Err(e) => (rest.0, seq![e] + rest.1),
        }
    } else {
        (Seq::empty(), Seq::empty())
    }
}

#[via_fn]
proof fn parse_all_decreases(ts: Seq<TokenModel>, i: int) {
    if 0 <= i < ts.len() {
        lemma_parse_one_advances(ts, i);
    }
}

/// Each parsed line consumes at least one token and never runs past the
/// end of the stream.
proof fn lemma_parse_one_advances(ts: Seq<TokenModel>, i: int)
    requires
        0 <= i < ts.len(),
    ensures
        i < parse_one(ts, i).next <= ts.len(),
{
}

/// The low 16 bits of a signed 32-bit immediate, as the cell carries them.
pub open spec fn imm16(v: i32) -> int {
    (v as int) % 0x10000
}

/// The bytes one operand token contributes to a cell: a register number is
/// one byte, an immediate two bytes big-endian, a label usage the resolved
/// offset; `None` stands for an unresolved label.
pub open spec fn operand_bytes(t: TokenModel, st: Seq<SymbolModel>) -> Option<Seq<u8>> {
    match t {
        TokenModel::Register { reg_number } => Some(seq![reg_number]),
        TokenModel::IntegerOp { value } => Some(
            seq![(imm16(value) / 256) as u8, (imm16(value) % 256) as u8],
        ),
        TokenModel::LabelUsage { value } => match lookup(st, value) {
            Some(offset) => Some(seq![offset]),
            None => None,
        },
        _ => Some(Seq::empty()),
    }
}

pub open spec fn opt_operand_bytes(t: Option<TokenModel>, st: Seq<SymbolModel>) -> Option<
    Seq<u8>,
> {
    match t {
        Some(t) => operand_bytes(t, st),
        None => Some(Seq::empty()),
    }
}

/// A cell padded with trailing zero bytes up to the 4-byte width.
pub open spec fn pad_cell(s: Seq<u8>) -> Seq<u8> {
    if s.len() >= 4 {
        s
    } else {
        s + Seq::new((4 - s.len()) as nat, |j: int| 0u8)
    }
}

/// The encoded cell of one instruction: its opcode byte, then each operand
/// slot's bytes in order, padded to the cell width.  `None` when the
/// instruction has no encodable opcode or a label operand is unresolved.
pub open spec fn cell_bytes(i: InstructionModel, st: Seq<SymbolModel>) -> Option<Seq<u8>> {
    match i.opcode {
        Some(TokenModel::Op { code }) => if code == Opcode::ILLEGAL {
            None
        } else {
            match (
                opt_operand_bytes(i.label, st),
                opt_operand_bytes(i.operand1, st),
                opt_operand_bytes(i.operand2, st),
                opt_operand_bytes(i.operand3, st),
            ) {
                (Some(b0), Some(b1), Some(b2), Some(b3)) => Some(
                    pad_cell(seq![opcode_value(code)] + b0 + b1 + b2 + b3),
                ),
                _ => None,
            }
        },
        _ => None,
    }
}

impl AssemblyInstruction {
    /// The name this instruction declares as a label, if it is a
    /// label-declaration line.
    pub fn declared_label(&self) -> (r: Option<String>)
        ensures
            match (r, self@.label) {
                (Some(n), Some(TokenModel::LabelDeclaration { value })) => n@ == value,
                (None, _) => !(self@.label matches Some(TokenModel::LabelDeclaration { .. })),
                _ => false,
            },
    {
        match &self.label {
            Some(Token::LabelDeclaration { value }) => Some(value.clone()),
            _ => None,
        }
    }

    /// Whether this line carries an opcode (and so emits a cell).
    pub fn has_opcode(&self) -> (r: bool)
        ensures
            r == (self@.opcode matches Some(TokenModel::Op { .. })),
    {
        match &self.opcode {
            Some(Token::Op { .. }) => true,
            _ => false,
        }
    }

    /// The directive this line carries, if any.
    pub fn directive_type(&self) -> (r: Option<DirectiveType>)
        ensures
            match (r, self@.directive) {
                (Some(d), Some(TokenModel::Directive { directive_type, .. })) => d
                    == directive_type,
                (None, _) => !(self@.directive matches Some(TokenModel::Directive { .. })),
                _ => false,
            },
    {
        match &self.directive {
            Some(Token::Directive { directive_type, .. }) => Some(*directive_type),
            _ => None,
        }
    }

    /// The string payload in the first operand slot, if one is there.
    pub fn string_payload(&self) -> (r: Option<String>)
        ensures
            match (r, self@.operand1) {
                (Some(v), Some(TokenModel::StringLiteral { value })) => v@ == value,
                (None, _) => !(self@.operand1 matches Some(TokenModel::StringLiteral { .. })),
                _ => false,
            },
    {
        match &self.operand1 {
            Some(Token::StringLiteral { value }) => Some(value.clone()),
            _ => None,
        }
    }

    /// Encode this instruction against the symbol table: the padded cell,
    /// or nothing when the line has no encodable opcode or uses a label the
    /// table does not hold.
    pub fn to_bytes(&self, symbol_table: &SymbolTable) -> (r: Option<Vec<u8>>)
        ensures
            match (r, cell_bytes(self@, symbol_table@)) {
                (Some(v), Some(m)) => v@ == m,
                (None, None) => true,
                _ => false,
            },
    {
        let code = match &self.opcode {
            Some(Token::Op { code }) => *code,
            _ => {
                return None;
            },
        };
        if matches!(code, Opcode::ILLEGAL) {
            return None;
        }
        let mut bytes: Vec<u8> = Vec::new();
        bytes.push(code.to_byte());
        if let Some(tok) = &self.label {
            if !AssemblyInstruction::extract_operands(tok, &mut bytes, symbol_table) {
                return None;
            }
        }
        if let Some(tok) = &self.operand1 {
            if !AssemblyInstruction::extract_operands(tok, &mut bytes, symbol_table) {
                return None;
            }
        }
        if let Some(tok) = &self.operand2 {
            if !AssemblyInstruction::extract_operands(tok, &mut bytes, symbol_table) {
                return None;
            }
        }
        if let Some(tok) = &self.operand3 {
            if !AssemblyInstruction::extract_operands(tok, &mut bytes, symbol_table) {
                return None;
            }
        }
        let ghost unpadded = bytes@;
        proof {
            assert(bytes@ =~= unpadded + Seq::new(0, |j: int| 0u8));
        }
        while bytes.len() < 4
            invariant
                unpadded.len() <= bytes@.len(),
                bytes@.len() > unpadded.len() ==> bytes@.len() <= 4,
                bytes@ == unpadded + Seq::new((bytes@.len() - unpadded.len()) as nat, |j: int| 0u8),
            decreases 4 - bytes@.len(),
        {
            bytes.push(0);
            proof {
                assert(bytes@ =~= unpadded + Seq::new(
                    (bytes@.len() - unpadded.len()) as nat,
                    |j: int| 0u8,
                ));
            }
        }
        proof {
            assert(bytes@ =~= pad_cell(unpadded));
        }
        Some(bytes)
    }

    /// Append the bytes one operand contributes; reports failure only for a
    /// label the table does not hold, leaving the cell untouched.
    fn extract_operands(op: &Token, bytes: &mut Vec<u8>, st: &SymbolTable) -> (ok: bool)
        ensures
            match operand_bytes(op@, st@) {
                Some(bs) => ok && final(bytes)@ == old(bytes)@ + bs,
                None => !ok && final(bytes)@ == old(bytes)@,
            },
    {
        match op {
            Token::Register { reg_number } => {
                bytes.push(*reg_number);
                proof {
                    assert(bytes@ =~= old(bytes)@ + seq![op@->Register_reg_number]);
                }
                true
            },
            Token::IntegerOp { value } => {
                let v = *value;
                let unsigned: u32 = if v >= 0 {
                    v as u32
                } else {
                    ((v as i64) + 0x1_0000_0000i64) as u32
                };
                let low: u32 = unsigned % 65536;
                proof {
                    lemma_low16(v, unsigned);
                }
                let hi = (low / 256) as u8;
                let lo = (low % 256) as u8;
                bytes.push(hi);
                bytes.push(lo);
                proof {
                    assert(bytes@ =~= old(bytes)@ + seq![
                        (imm16(v) / 256) as u8,
                        (imm16(v) % 256) as u8,
                    ]);
                }
                true
            },
            Token::LabelUsage { value } => {
                match st.get_symbol_value(value.as_str()) {
                    Some(offset) => {
                        bytes.push(offset);
                        proof {
                            assert(bytes@ =~= old(bytes)@ + seq![offset]);
                        }
                        true
                    },
                    None => false,
                }
            },
            _ => {
                proof {
                    assert(bytes@ =~= old(bytes)@ + Seq::<u8>::empty());
                }
                true
            },
        }
    }
}

/// The low 16 bits computed through a 32-bit unsigned detour equal the
/// immediate's two's-complement truncation.
proof fn lemma_low16(v: i32, unsigned: u32)
    requires
        v >= 0 ==> unsigned == v,
        v < 0 ==> unsigned == v + 0x1_0000_0000,
    ensures
        unsigned % 65536 == imm16(v),
{
    if v < 0 {
        assert((0x10000 * 0x10000 + (v as int)) % 0x10000 == (v as int) % 0x10000) by {
            vstd::arithmetic::div_mod::lemma_mod_multiples_vanish(0x10000, v as int, 0x10000);
        };
    }
}

/// The bytes an operand slot is due to contribute: one for a register or
/// a resolved label, two for an immediate, none for an empty slot.
pub open spec fn opt_width(t: Option<TokenModel>) -> int {
    match t {
        Some(TokenModel::Register { .. }) => 1,
        Some(TokenModel::IntegerOp { .. }) => 2,
        Some(TokenModel::LabelUsage { .. }) => 1,
        _ => 0,
    }
}

/// A single valid instruction line encodes to exactly one 4-byte cell
/// whose first byte is the opcode's table value: this holds whenever the
/// line encodes at all and its operands are due at most the three operand
/// bytes a cell carries.
pub proof fn lemma_single_instruction_cell(
    i: InstructionModel,
    st: Seq<SymbolModel>,
    code: Opcode,
)
    requires
        i.opcode == Some(TokenModel::Op { code }),
        cell_bytes(i, st) is Some,
        opt_width(i.label) + opt_width(i.operand1) + opt_width(i.operand2) + opt_width(
            i.operand3,
        ) <= 3,
    ensures
        cell_bytes(i, st).unwrap().len() == 4,
        cell_bytes(i, st).unwrap()[0] == opcode_value(code),
{
    let b0 = opt_operand_bytes(i.label, st).unwrap();
    let b1 = opt_operand_bytes(i.operand1, st).unwrap();
    let b2 = opt_operand_bytes(i.operand2, st).unwrap();
    let b3 = opt_operand_bytes(i.operand3, st).unwrap();
    assert(b0.len() == opt_width(i.label));
    assert(b1.len() == opt_width(i.operand1));
    assert(b2.len() == opt_width(i.operand2));
    assert(b3.len() == opt_width(i.operand3));
    let raw = seq![opcode_value(code)] + b0 + b1 + b2 + b3;
    assert(raw.len() <= 4);
    assert(raw[0] == opcode_value(code));
    assert(cell_bytes(i, st).unwrap() == pad_cell(raw));
    assert(pad_cell(raw).len() == 4);
    assert(pad_cell(raw)[0] == opcode_value(code));
}

/// The model of the parser's state.
pub struct ParserModel {
    pub tokens: Seq<TokenModel>,
    pub current: nat,
}

/// The syntax builder: consumes a token stream, one instruction per line.
#[derive(Debug)]
pub struct Parser {
    tokens: Vec<Token>,
    current: usize,
}

impl View for Parser {
    type V = ParserModel;

    closed spec fn view(&self) -> ParserModel {
        ParserModel { tokens: token_views(self.tokens@), current: self.current as nat }
    }
}

impl Parser {
    /// The parser's position never runs past its token stream.
    pub closed spec fn wf(&self) -> bool {
        self.current <= self.tokens@.len()
    }

    pub fn new(tokens: Vec<Token>) -> (r: Parser)
        ensures
            r.wf(),
            r@ == (ParserModel { tokens: token_views(tokens@), current: 0 }),
    {
        Parser { tokens, current: 0 }
    }

    /// The next token, consumed, or nothing at the end of the stream.
    pub fn next_token(&mut self) -> (r: Option<Token>)
        requires
            old(self).wf(),
        ensures
            final(self).wf(),
            final(self)@.tokens == old(self)@.tokens,
            match tok_at(old(self)@.tokens, old(self)@.current as int) {
                Some(m) => {
                    &&& final(self)@.current == old(self)@.current + 1
                    &&& r matches Some(t) && t@ == m
                },
                None => final(self)@.current == old(self)@.current && r is None,
            },
    {
        if self.current < self.tokens.len() {
            let token = self.tokens[self.current].clone();
            self.current = self.current + 1;
            Some(token)
        } else {
            None
        }
    }

    /// Whether an operand slot holds a token of operand kind.
    fn check_if_operand(&self, token: &Option<Token>) -> (r: bool)
        ensures
            r == opt_is_operand(opt_view(*token)),
    {
        if let Some(token) = token {
            matches!(
                token,
                Token::IntegerOp { .. } | Token::Register { .. } | Token::LabelUsage { .. }
            )
        } else {
            false
        }
    }

    /// Whether a token is an opcode.
    fn is_opcode(&self, token: &Token) -> (r: bool)
        ensures
            r == (token@ matches TokenModel::Op { .. }),
    {
        matches!(token, Token::Op { .. })
    }

    /// Parse one line starting at the current token, which must exist.
    fn parse_instruction(&mut self) -> (r: Result<AssemblyInstruction, SyntaxError>)
        requires
            old(self).wf(),
            old(self)@.current < old(self)@.tokens.len(),
        ensures
            final(self).wf(),
            final(self)@.tokens == old(self)@.tokens,
            ({
                let st = parse_one(old(self)@.tokens, old(self)@.current as int);
                &&& final(self)@.current == st.next
                &&& match (r, st.result) {
                    (Ok(a), Ok(m)) => a@ == m,
                    (Err(e), Err(m)) => e == m,
                    _ => false,
                }
            }),
    {
        let ghost ts = self@.tokens;
        let ghost c0 = self@.current as int;
        let token = match self.next_token() {
            Some(t) => t,
            None => unreached(),
        };
        match token {
            Token::LabelDeclaration { .. } => Ok(
                AssemblyInstruction {
                    opcode: None,
                    label: Some(token),
                    directive: None,
                    operand1: None,
                    operand2: None,
                    operand3: None,
                },
            ),
            Token::Directive { directive_type, .. } => {
                if matches!(directive_type, DirectiveType::Asciiz) {
                    let nx = self.next_token();
                    match nx {
                        Some(nxt) => {
                            if matches!(nxt, Token::StringLiteral { .. }) {
                                Ok(
                                    AssemblyInstruction {
                                        opcode: None,
                                        label: None,
                                        directive: Some(token),
                                        operand1: Some(nxt),
                                        operand2: None,
                                        operand3: None,
                                    },
                                )
                            } else {
                                Err(SyntaxError::ExpectedStringLiteral)
                            }
                        },
                        None => Err(SyntaxError::ExpectedStringLiteral),
                    }
                } else {
                    Ok(
                        AssemblyInstruction {
                            opcode: None,
                            label: None,
                            directive: Some(token),
                            operand1: None,
                            operand2: None,
                            operand3: None,
                        },
                    )
                }
            },
            Token::Op { code } => {
                match code {
                    Opcode::ADD | Opcode::SUB | Opcode::DIV | Opcode::MUL => {
                        let op1 = self.next_token();
                        let op2 = self.next_token();
                        let op3 = self.next_token();
                        if !self.check_if_operand(&op1) {
                            Err(SyntaxError::BadOperand)
                        } else if !self.check_if_operand(&op2) {
                            Err(SyntaxError::BadOperand)
                        } else if !self.check_if_operand(&op3) {
                            Err(SyntaxError::BadOperand)
                        } else {
                            Ok(
                                AssemblyInstruction {
                                    opcode: Some(token),
                                    label: None,
                                    directive: None,
                                    operand1: op1,
                                    operand2: op2,
                                    operand3: op3,
                                },
                            )
                        }
                    },
                    Opcode::LOAD | Opcode::EQ => {
                        let op1 = self.next_token();
                        let op2 = self.next_token();
                        if !self.check_if_operand(&op1) {
                            Err(SyntaxError::BadOperand)
                        } else if !self.check_if_operand(&op2) {
                            Err(SyntaxError::BadOperand)
                        } else {
                            Ok(
                                AssemblyInstruction {
                                    opcode: Some(token),
                                    label: None,
                                    directive: None,
                                    operand1: op1,
                                    operand2: op2,
                                    operand3: None,
                                },
                            )
                        }
                    },
                    Opcode::JMP | Opcode::JEQ | Opcode::JNEQ => {
                        let op = self.next_token();
                        if !self.check_if_operand(&op) {
                            Err(SyntaxError::BadOperand)
                        } else {
                            Ok(
                                AssemblyInstruction {
                                    opcode: Some(token),
                                    label: op,
                                    directive: None,
                                    operand1: None,
                                    operand2: None,
                                    operand3: None,
                                },
                            )
                        }
                    },
                    Opcode::INC | Opcode::DEC | Opcode::ALLOC => {
                        let op = self.next_token();
                        if !self.check_if_operand(&op) {
                            Err(SyntaxError::BadOperand)
                        } else {
                            Ok(
                                AssemblyInstruction {
                                    opcode: Some(token),
                                    label: None,
                                    directive: None,
                                    operand1: op,
                                    operand2: None,
                                    operand3: None,
                                },
                            )
                        }
                    },
                    _ => Ok(
                        AssemblyInstruction {
                            opcode: Some(token),
                            label: None,
                            directive: None,
                            operand1: None,
                            operand2: None,
                            operand3: None,
                        },
                    ),
                }
            },
            _ => Err(SyntaxError::ExpectedOpcode),
        }
    }

    /// Parse the whole stream: every instruction in order when no line was
    /// malformed, else every syntax error, in order.
    pub fn parse(&mut self) -> (r: Result<Vec<AssemblyInstruction>, Vec<SyntaxError>>)
        requires
            old(self).wf(),
        ensures
            final(self).wf(),
            ({
                let (instrs, errs) = parse_all(old(self)@.tokens, old(self)@.current as int);
                match r {
                    Ok(is) => errs.len() == 0 && instr_views(is@) == instrs,
                    Err(es) => errs.len() > 0 && es@ == errs,
                }
            }),
    {
        let ghost ts = self@.tokens;
        let ghost c0 = self@.current as int;
        let mut errors: Vec<SyntaxError> = Vec::new();
        let mut instructions: Vec<AssemblyInstruction> = Vec::new();
        while self.current < self.tokens.len()
            invariant
                self.wf(),
                ts == old(self)@.tokens,
                c0 == old(self)@.current as int,
                self@.tokens == ts,
                instr_views(instructions@) + parse_all(ts, self@.current as int).0 == parse_all(
                    ts,
                    c0,
                ).0,
                errors@ + parse_all(ts, self@.current as int).1 == parse_all(ts, c0).1,
            decreases ts.len() - self@.current,
        {
            let ghost cur = self@.current as int;
            proof {
                lemma_parse_one_advances(ts, cur);
            }
            let parsed = self.parse_instruction();
            match parsed {
                Ok(instr) => {
                    proof {
                        assert(instr_views(instructions@.push(instr)) =~= instr_views(
                            instructions@,
                        ).push(instr@));
                        assert(instr_views(instructions@).push(instr@) + parse_all(
                            ts,
                            self@.current as int,
                        ).0 =~= instr_views(instructions@) + parse_all(ts, cur).0);
                        assert(errors@ + parse_all(ts, self@.current as int).1 =~= errors@
                            + parse_all(ts, cur).1);
                    }
                    instructions.push(instr);
                },
                Err(e) => {
                    proof {
                        assert(errors@.push(e) + parse_all(ts, self@.current as int).1 =~= errors@
                            + parse_all(ts, cur).1);
                        assert(instr_views(instructions@) + parse_all(
                            ts,
                            self@.current as int,
                        ).0 =~= instr_views(instructions@) + parse_all(ts, cur).0);
                    }
                    errors.push(e);
                },
            }
        }
        proof {
            assert(parse_all(ts, self@.current as int).0 =~= Seq::<InstructionModel>::empty());
            assert(parse_all(ts, self@.current as int).1 =~= Seq::<SyntaxError>::empty());
            assert(instr_views(instructions@) =~= parse_all(ts, c0).0);
            assert(errors@ =~= parse_all(ts, c0).1);
        }
        if !errors.is_empty() {
            return Err(errors);
        }
        Ok(instructions)
    }
}

} // verus!
