use rpd::instruction::Opcode;
use rpd::lexer::Lexer;
use rpd::token::DirectiveType;
use rpd::token::Token;

fn tokenize_and_check(input: &str, expected_tokens: &[Token], expected_len: usize) {
    let mut lexer = Lexer::new(input.to_string());
    let result_tokenization = lexer.tokenize();
    assert!(result_tokenization.is_ok());
    let tokens = result_tokenization.unwrap();
    assert_eq!(tokens.len(), expected_len);
    assert_eq!(tokens, expected_tokens.to_vec());
}

fn tokenize_and_expect_error(input: &str) {
    let mut lexer = Lexer::new(input.to_string());
    let result_tokenization = lexer.tokenize();
    assert!(!result_tokenization.is_ok());
    if let Err(errors) = result_tokenization {
        assert_eq!(errors.len(), 1);
    }
}

#[test]
fn test_tokenize_load() {
    tokenize_and_check(
        "load $1 #10",
        &[
            Token::Op { code: Opcode::LOAD },
            Token::Register { reg_number: 1 },
            Token::IntegerOp { value: 10 },
        ],
        3,
    );
}

#[test]
fn test_tokenize_add() {
    tokenize_and_check(
        "add $1 $2 $3",
        &[
            Token::Op { code: Opcode::ADD },
            Token::Register { reg_number: 1 },
            Token::Register { reg_number: 2 },
            Token::Register { reg_number: 3 },
        ],
        4,
    );
}

#[test]
fn test_tokenize_sub() {
    tokenize_and_check(
        "sub $1 $2 $3",
        &[
            Token::Op { code: Opcode::SUB },
            Token::Register { reg_number: 1 },
            Token::Register { reg_number: 2 },
            Token::Register { reg_number: 3 },
        ],
        4,
    );
}

#[test]
fn test_tokenize_div() {
    tokenize_and_check(
        "div $1 $2 $3",
        &[
            Token::Op { code: Opcode::DIV },
            Token::Register { reg_number: 1 },
            Token::Register { reg_number: 2 },
            Token::Register { reg_number: 3 },
        ],
        4,
    );
}

#[test]
fn test_tokenize_mul() {
    tokenize_and_check(
        "mul $1 $2 $3",
        &[
            Token::Op { code: Opcode::MUL },
            Token::Register { reg_number: 1 },
            Token::Register { reg_number: 2 },
            Token::Register { reg_number: 3 },
        ],
        4,
    );
}

#[test]
fn test_tokenize_jmp() {
    tokenize_and_check(
        "jmp $1",
        &[
            Token::Op { code: Opcode::JMP },
            Token::Register { reg_number: 1 },
        ],
        2,
    );
}

#[test]
fn test_tokenize_eq() {
    tokenize_and_check(
        "eq $1 $2",
        &[
            Token::Op { code: Opcode::EQ },
            Token::Register { reg_number: 1 },
            Token::Register { reg_number: 2 },
        ],
        3,
    );
}

#[test]
fn test_tokenize_jeq() {
    tokenize_and_check(
        "jeq $1",
        &[
            Token::Op { code: Opcode::JEQ },
            Token::Register { reg_number: 1 },
        ],
        2,
    );
}

#[test]
fn test_tokenize_alloc() {
    tokenize_and_check(
        "alloc $0",
        &[
            Token::Op {
                code: Opcode::ALLOC,
            },
            Token::Register { reg_number: 0 },
        ],
        2,
    );
}

#[test]
fn test_tokenize_inc() {
    tokenize_and_check(
        "inc $0",
        &[
            Token::Op { code: Opcode::INC },
            Token::Register { reg_number: 0 },
        ],
        2,
    );
}

#[test]
fn test_tokenize_dec() {
    tokenize_and_check(
        "dec $0",
        &[
            Token::Op { code: Opcode::DEC },
            Token::Register { reg_number: 0 },
        ],
        2,
    );
}

#[test]
fn test_tokenize_label_decl() {
    tokenize_and_check(
        r###"
                test_label:
                load $1 #10
                jmp @test_label
            "###,
        &[
            Token::LabelDeclaration {
                value: "test_label".to_string(),
            },
            Token::Op { code: Opcode::LOAD },
            Token::Register { reg_number: 1 },
            Token::IntegerOp { value: 10 },
            Token::Op { code: Opcode::JMP },
            Token::LabelUsage {
                value: "test_label".to_string(),
            },
            Token::Op { code: Opcode::ZERO },
        ],
        7,
    );
}

#[test]
fn test_tokenize_directives() {
    tokenize_and_check(
        r###"
                .data
                string: .asciiz "hello world!"
            "###,
        &[
            Token::Directive {
                directive_type: DirectiveType::Data,
                literal: ".data".to_string(),
            },
            Token::LabelDeclaration {
                value: "string".to_string(),
            },
            Token::Directive {
                directive_type: DirectiveType::Asciiz,
                literal: ".asciiz".to_string(),
            },
            Token::StringLiteral {
                value: "hello world!".to_string(),
            },
            Token::Op { code: Opcode::ZERO },
        ],
        5,
    )
}

#[test]
fn test_errors() {
    tokenize_and_expect_error("load $1 gibrish");
}

#[test]
fn test_register_number_out_of_range() {
    tokenize_and_expect_error("load $300 #10");
}

#[test]
fn test_integer_literal_out_of_range() {
    tokenize_and_expect_error("load $1 #99999999999");
}

#[test]
fn test_unterminated_string_literal() {
    tokenize_and_expect_error(".asciiz \"no closing quote");
}

#[test]
fn test_unexpected_character() {
    tokenize_and_expect_error("load $1 #10 ~");
}

#[test]
fn test_missing_register_number() {
    tokenize_and_expect_error("load $x #10");
}

#[test]
fn test_missing_integer_number() {
    tokenize_and_expect_error("load $1 #x");
}
