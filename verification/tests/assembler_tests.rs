use rpd::assembler::compile;
use rpd::assembler::Assembler;
use rpd::assembler::CompileError;
use rpd::assembler::ResolutionError;
use rpd::symbol::Symbol;
use rpd::symbol::SymbolType;
use rpd::symbol_table::SymbolTable;
use rpd::vm::VM;

#[test]
fn test_compile_three_line_program() {
    let bytes = compile("load $1 #10\nload $2 #20\nadd $3 $1 $2\n".to_string()).unwrap();
    assert_eq!(bytes, vec![1, 1, 0, 10, 1, 2, 0, 20, 2, 3, 1, 2]);
    let mut vm = VM::new_with_program(bytes);
    let outcome = vm.run(1000);
    assert_eq!(outcome, Ok(true));
    assert_eq!(vm.registers[3], 30);
}

#[test]
fn test_compile_single_line_is_one_cell() {
    let bytes = compile("inc $7".to_string()).unwrap();
    assert_eq!(bytes.len(), 4);
    assert_eq!(bytes[0], 10);
}

#[test]
fn test_scan_error_gives_diagnostics_and_no_bytecode() {
    let result = compile("load $1 gibberish".to_string());
    assert!(result.is_err());
    let diagnostics = result.unwrap_err();
    assert!(diagnostics.len() > 0);
}

#[test]
fn test_compile_is_idempotent() {
    let source = "jmp @end\ninc $0\nend: dec $1\n";
    let mut assembler = Assembler::new(source.to_string());
    let first = assembler.assemble().unwrap();
    let second = assembler.assemble().unwrap();
    assert_eq!(first, second);
    assert_eq!(assembler.bytecode, first);
}

#[test]
fn test_forward_label_reference_resolves() {
    // The jump target is declared two lines later: the label line stands at
    // the third instruction slot, 8 bytes in, where the DEC cell is emitted.
    let bytes = compile("jmp @loop\ninc $0\nloop: dec $1\n".to_string()).unwrap();
    assert_eq!(bytes, vec![6, 8, 0, 0, 10, 0, 0, 0, 11, 1, 0, 0]);
}

#[test]
fn test_backward_label_reference_resolves() {
    let bytes = compile("start: inc $0\njmp @start\n".to_string()).unwrap();
    assert_eq!(bytes, vec![10, 0, 0, 0, 6, 0, 0, 0]);
}

#[test]
fn test_load_encodes_immediate_big_endian() {
    let bytes = compile("load $1 #258".to_string()).unwrap();
    assert_eq!(bytes, vec![1, 1, 1, 2]);
}

#[test]
fn test_undefined_label_is_an_error() {
    let result = compile("jmp @nowhere\n".to_string());
    assert_eq!(
        result,
        Err(vec![CompileError::Resolution(
            ResolutionError::UndefinedLabel
        )])
    );
}

#[test]
fn test_duplicate_label_is_an_error() {
    let result = compile("twice: inc $0\ntwice: dec $0\n".to_string());
    assert_eq!(
        result,
        Err(vec![CompileError::Resolution(
            ResolutionError::DuplicateLabel
        )])
    );
}

#[test]
fn test_label_offset_out_of_range_is_an_error() {
    let mut source = String::new();
    for _ in 0..64 {
        source.push_str("inc $0\n");
    }
    source.push_str("far: dec $0\njmp @far\n");
    let result = compile(source);
    assert_eq!(
        result,
        Err(vec![CompileError::Resolution(
            ResolutionError::OffsetOutOfRange
        )])
    );
}

#[test]
fn test_syntax_error_is_reported() {
    let result = compile("add $1 $2\n".to_string());
    assert!(matches!(
        result.unwrap_err()[0],
        CompileError::Syntax(_)
    ));
}

#[test]
fn test_asciiz_feeds_the_data_section() {
    let source = ".data\ngreeting: .asciiz \"hi\"\n.code\nload $1 #10\n";
    let mut assembler = Assembler::new(source.to_string());
    let bytes = assembler.assemble().unwrap();
    assert_eq!(bytes, vec![1, 1, 0, 10]);
    assert_eq!(assembler.read_only_secion, vec![b'h', b'i', 0]);
}

#[test]
fn test_symbol_table_first_definition_wins() {
    let mut table = SymbolTable::new();
    table.add_symbol(Symbol::new("x".to_string(), 4, SymbolType::Label));
    table.add_symbol(Symbol::new("x".to_string(), 8, SymbolType::Label));
    assert_eq!(table.get_symbol_value("x"), Some(4));
    assert_eq!(table.get_symbol_value("y"), None);
}

#[test]
fn test_load_then_run_leaves_the_immediate() {
    let bytes = compile("load $5 #65535\n".to_string()).unwrap();
    let mut vm = VM::new_with_program(bytes);
    let outcome = vm.run(1000);
    assert_eq!(outcome, Ok(true));
    assert_eq!(vm.registers[5], 65535);
}

#[test]
fn test_sub_and_mul_laws_on_a_run() {
    let bytes =
        compile("load $1 #100\nload $2 #7\nsub $3 $1 $2\nmul $4 $1 $2\n".to_string()).unwrap();
    let mut vm = VM::new_with_program(bytes);
    let outcome = vm.run(1000);
    assert_eq!(outcome, Ok(true));
    assert_eq!(vm.registers[3], 93);
    assert_eq!(vm.registers[4], 700);
}

#[test]
fn test_compiled_alloc_grows_heap() {
    let bytes = compile("load $0 #32\nalloc $0\n".to_string()).unwrap();
    let mut vm = VM::new_with_program(bytes);
    let outcome = vm.run(1000);
    assert_eq!(outcome, Ok(true));
    assert_eq!(vm.heap.len(), 32);
    assert!(vm.heap.iter().all(|b| *b == 0));
}

#[test]
fn test_jeq_takes_the_branch_on_equality() {
    // EQ sets the flag, JEQ jumps over the INC at offset 12 to the DEC at 16.
    let source = "eq $1 $2\njeq @done\ninc $0\ndone: dec $3\n";
    let bytes = compile(source.to_string()).unwrap();
    let mut vm = VM::new_with_program(bytes);
    let outcome = vm.run(1000);
    assert_eq!(outcome, Ok(true));
    assert_eq!(vm.registers[0], 0);
    assert_eq!(vm.registers[3], -1);
}
