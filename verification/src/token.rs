//! Lexical tokens and their mathematical model.

use vstd::prelude::*;

use crate::instruction::Opcode;

verus! {

/// One kind of section or data directive in source text.
#[derive(Debug, PartialEq, Eq, Structural, Clone, Copy)]
pub enum DirectiveType {
    Code,
    Data,
    Asciiz,
}

/// One lexical unit of assembly source.
#[derive(Debug, PartialEq)]
pub enum Token {
    Op { code: Opcode },
    LabelDeclaration { value: String },
    LabelUsage { value: String },
    Register { reg_number: u8 },
    IntegerOp { value: i32 },
    Directive { directive_type: DirectiveType, literal: String },
    StringLiteral { value: String },
}

/// The model of a token: the same shape with text as character sequences.
pub enum TokenModel {
    Op { code: Opcode },
    LabelDeclaration { value: Seq<char> },
    LabelUsage { value: Seq<char> },
    Register { reg_number: u8 },
    IntegerOp { value: i32 },
    Directive { directive_type: DirectiveType, literal: Seq<char> },
    StringLiteral { value: Seq<char> },
}

impl View for Token {
    type V = TokenModel;

    open spec fn view(&self) -> TokenModel {
        match self {
            Token::Op { code } => TokenModel::Op { code: *code },
            Token::LabelDeclaration { value } => TokenModel::LabelDeclaration { value: value@ },
            Token::LabelUsage { value } => TokenModel::LabelUsage { value: value@ },
            Token::Register { reg_number } => TokenModel::Register { reg_number: *reg_number },
            Token::IntegerOp { value } => TokenModel::IntegerOp { value: *value },
            Token::Directive { directive_type, literal } => TokenModel::Directive {
                directive_type: *directive_type,
                literal: literal@,
            },
            Token::StringLiteral { value } => TokenModel::StringLiteral { value: value@ },
        }
    }
}

impl Clone for Token {
    /// A clone is equal to the original, field for field.
    fn clone(&self) -> (res: Token)
        ensures
            res@ == self@,
    {
        match self {
            Token::Op { code } => Token::Op { code: *code },
            Token::LabelDeclaration { value } => Token::LabelDeclaration { value: value.clone() },
            Token::LabelUsage { value } => Token::LabelUsage { value: value.clone() },
            Token::Register { reg_number } => Token::Register { reg_number: *reg_number },
            Token::IntegerOp { value } => Token::IntegerOp { value: *value },
            Token::Directive { directive_type, literal } => Token::Directive {
                directive_type: *directive_type,
                literal: literal.clone(),
            },
            Token::StringLiteral { value } => Token::StringLiteral { value: value.clone() },
        }
    }
}

/// The models of a sequence of tokens, in order.
pub open spec fn token_views(ts: Seq<Token>) -> Seq<TokenModel> {
    ts.map_values(|t: Token| t@)
}

} // verus!
