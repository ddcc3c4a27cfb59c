use rpd::instruction::Opcode;
use rpd::parser::Parser;
use rpd::parser::SyntaxError;
use rpd::symbol_table::SymbolTable;
use rpd::token::DirectiveType;
use rpd::token::Token;

fn parse_and_check(tokens: Vec<Token>, expected_bytes: Option<&[u8]>, expected_len: usize) {
    let mut parser = Parser::new(tokens);
    let insts = parser.parse();
    assert!(insts.is_ok());
    let insts = insts.unwrap();
    assert_eq!(insts.len(), expected_len);
    if let Some(expected_bytes) = expected_bytes {
        let st = SymbolTable::new();
        let bytes = insts[0].to_bytes(&st);
        assert!(bytes.is_some());
        if let Some(bytes) = bytes {
            assert_eq!(bytes.len(), expected_bytes.len());
            assert_eq!(bytes, expected_bytes);
        }
    }
}

#[test]
fn test_parse_load() {
    let tokens = vec![
        Token::Op { code: Opcode::LOAD },
        Token::Register { reg_number: 1 },
        Token::IntegerOp { value: 10 },
    ];
    parse_and_check(tokens, Some(&[1, 1, 0, 10]), 1);
}

#[test]
fn test_parse_add() {
    let tokens = vec![
        Token::Op { code: Opcode::ADD },
        Token::Register { reg_number: 2 },
        Token::Register { reg_number: 0 },
        Token::Register { reg_number: 1 },
    ];
    parse_and_check(tokens, Some(&[2, 2, 0, 1]), 1);
}

#[test]
fn test_parse_sub() {
    let tokens = vec![
        Token::Op { code: Opcode::SUB },
        Token::Register { reg_number: 2 },
        Token::Register { reg_number: 0 },
        Token::Register { reg_number: 1 },
    ];
    parse_and_check(tokens, Some(&[3, 2, 0, 1]), 1);
}

#[test]
fn test_parse_mul() {
    let tokens = vec![
        Token::Op { code: Opcode::MUL },
        Token::Register { reg_number: 2 },
        Token::Register { reg_number: 0 },
        Token::Register { reg_number: 1 },
    ];
    parse_and_check(tokens, Some(&[4, 2, 0, 1]), 1);
}

#[test]
fn test_parse_div() {
    let tokens = vec![
        Token::Op { code: Opcode::DIV },
        Token::Register { reg_number: 2 },
        Token::Register { reg_number: 0 },
        Token::Register { reg_number: 1 },
    ];
    parse_and_check(tokens, Some(&[5, 2, 0, 1]), 1);
}

#[test]
fn test_parse_jmp() {
    let tokens = vec![
        Token::Op { code: Opcode::JMP },
        Token::Register { reg_number: 10 },
    ];
    parse_and_check(tokens, Some(&[6, 10, 0, 0]), 1);
}

#[test]
fn test_parse_eq() {
    let tokens = vec![
        Token::Op { code: Opcode::EQ },
        Token::Register { reg_number: 1 },
        Token::Register { reg_number: 2 },
    ];
    parse_and_check(tokens, Some(&[7, 1, 2, 0]), 1);
}

#[test]
fn test_parse_jeq() {
    let tokens = vec![
        Token::Op { code: Opcode::JEQ },
        Token::Register { reg_number: 5 },
    ];
    parse_and_check(tokens, Some(&[8, 5, 0, 0]), 1);
}

#[test]
fn test_parse_alloc() {
    let tokens = vec![
        Token::Op {
            code: Opcode::ALLOC,
        },
        Token::Register { reg_number: 5 },
    ];
    parse_and_check(tokens, Some(&[9, 5, 0, 0]), 1);
}

#[test]
fn test_parse_inc() {
    let tokens = vec![
        Token::Op { code: Opcode::INC },
        Token::Register { reg_number: 5 },
    ];
    parse_and_check(tokens, Some(&[10, 5, 0, 0]), 1);
}

#[test]
fn test_parse_dec() {
    let tokens = vec![
        Token::Op { code: Opcode::DEC },
        Token::Register { reg_number: 5 },
    ];
    parse_and_check(tokens, Some(&[11, 5, 0, 0]), 1);
}

#[test]
fn test_parse_labels() {
    let tokens = vec![
        Token::Op { code: Opcode::JMP },
        Token::LabelUsage {
            value: "label".to_string(),
        },
    ];
    parse_and_check(tokens, None, 1);
}

#[test]
fn test_parse_directives() {
    let tokens = vec![
        Token::Directive {
            directive_type: DirectiveType::Data,
            literal: ".data".to_string(),
        },
        Token::LabelDeclaration {
            value: "test".to_string(),
        },
        Token::Directive {
            directive_type: DirectiveType::Asciiz,
            literal: ".asciiz".to_string(),
        },
        Token::StringLiteral {
            value: "goodbye world!".to_string(),
        },
    ];
    let mut parser = Parser::new(tokens);
    let result_parse = parser.parse();
    assert!(result_parse.is_ok());
}

#[test]
fn test_parse_expected_opcode() {
    let tokens = vec![Token::Register { reg_number: 1 }];
    let mut parser = Parser::new(tokens);
    let result = parser.parse();
    assert_eq!(result, Err(vec![SyntaxError::ExpectedOpcode]));
}

#[test]
fn test_parse_bad_operand() {
    let tokens = vec![
        Token::Op { code: Opcode::ADD },
        Token::Register { reg_number: 1 },
        Token::Register { reg_number: 2 },
    ];
    let mut parser = Parser::new(tokens);
    let result = parser.parse();
    assert_eq!(result, Err(vec![SyntaxError::BadOperand]));
}

#[test]
fn test_parse_missing_string_literal() {
    let tokens = vec![
        Token::Directive {
            directive_type: DirectiveType::Asciiz,
            literal: ".asciiz".to_string(),
        },
        Token::Op { code: Opcode::ZERO },
    ];
    let mut parser = Parser::new(tokens);
    let result = parser.parse();
    assert_eq!(result, Err(vec![SyntaxError::ExpectedStringLiteral]));
}

#[test]
fn test_parse_collects_all_errors() {
    let tokens = vec![
        Token::Register { reg_number: 1 },
        Token::Op { code: Opcode::JMP },
        Token::Op { code: Opcode::ZERO },
        Token::Register { reg_number: 2 },
    ];
    let mut parser = Parser::new(tokens);
    let result = parser.parse();
    assert_eq!(
        result,
        Err(vec![
            SyntaxError::ExpectedOpcode,
            SyntaxError::BadOperand,
            SyntaxError::ExpectedOpcode,
        ])
    );
}
