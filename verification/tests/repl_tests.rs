use rpd::repl::HexParseError;
use rpd::repl::REPL;

#[test]
fn test_repl_starts_empty() {
    let repl = REPL::new();
    assert_eq!(repl.history.len(), 0);
    assert_eq!(repl.vm.registers, [0; 32]);
    assert_eq!(repl.vm.program.len(), 0);
    assert_eq!(repl.vm.heap.len(), 0);
}

#[test]
fn test_parse_hex_bytes() {
    let mut repl = REPL::new();
    assert_eq!(repl.parse_hex("01 ff AB"), Ok(vec![1, 255, 171]));
    assert_eq!(repl.parse_hex("0"), Ok(vec![0]));
    assert_eq!(repl.parse_hex("+10"), Ok(vec![16]));
}

#[test]
fn test_parse_hex_rejects_stray_characters() {
    let mut repl = REPL::new();
    assert_eq!(repl.parse_hex("xyz"), Err(HexParseError));
    assert_eq!(repl.parse_hex(""), Err(HexParseError));
    assert_eq!(repl.parse_hex("1  2"), Err(HexParseError));
    assert_eq!(repl.parse_hex("100"), Err(HexParseError));
}

#[test]
fn test_parse_hex_drives_the_machine() {
    let mut repl = REPL::new();
    let bytes = repl.parse_hex("01 01 00 0a").unwrap();
    repl.vm.append_to_program(bytes);
    let outcome = repl.vm.run(100);
    assert_eq!(outcome, Ok(true));
    assert_eq!(repl.vm.registers[1], 10);
}
