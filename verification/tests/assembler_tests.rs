use sysprog::assembler::{Assembler, ErrorType, IntermediateCode, ValueKind};

#[test]
fn it_works() {
    let source_lines: Vec<String> = r#"
START 300
BEGIN: READ NUM
LOOP: MOVEM AREG NUM
PRINT NUM
MUL AREG NUM
COMP AREG HUNDRED
BC LT LOOP
STOP
NUM: DS 2
HUNDRED: DC 100
END
"#
    .lines()
    .map(str::trim)
    .filter(|line| !line.is_empty())
    .map(String::from)
    .collect();
    let mut assembler = Assembler::new();
    assembler.pass1(&source_lines);

    assert!(assembler.error_table.is_empty());

    assert_eq!(assembler.symbol_table.len(), 4);

    assert_eq!(assembler.symbol_table[0].name, "BEGIN");
    assert_eq!(assembler.symbol_table[0].address, 300);
    assert!(assembler.symbol_table[0].defined);
    assert!(!assembler.symbol_table[0].used);

    assert_eq!(assembler.symbol_table[1].name, "NUM");
    assert_eq!(assembler.symbol_table[1].address, 307);
    assert!(assembler.symbol_table[1].defined);
    assert!(assembler.symbol_table[1].used);

    assert_eq!(assembler.symbol_table[2].name, "LOOP");
    assert_eq!(assembler.symbol_table[2].address, 301);
    assert!(assembler.symbol_table[2].defined);
    assert!(assembler.symbol_table[2].used);

    assert_eq!(assembler.symbol_table[3].name, "HUNDRED");
    assert_eq!(assembler.symbol_table[3].address, 309);
    assert!(assembler.symbol_table[3].defined);
    assert!(assembler.symbol_table[3].used);

    assert_eq!(assembler.intermediate_code_table.len(), 8);

    let expected = vec![
        IntermediateCode { address: 300, opcode: 9, reg: None, kind: ValueKind::Symbol, value: 1 },
        IntermediateCode { address: 301, opcode: 5, reg: Some(0), kind: ValueKind::Symbol, value: 0 },
        IntermediateCode { address: 302, opcode: 10, reg: None, kind: ValueKind::Symbol, value: 0 },
        IntermediateCode { address: 303, opcode: 3, reg: Some(0), kind: ValueKind::Symbol, value: 0 },
        IntermediateCode { address: 304, opcode: 6, reg: Some(0), kind: ValueKind::Symbol, value: 3 },
        IntermediateCode { address: 305, opcode: 7, reg: Some(0), kind: ValueKind::Symbol, value: 301 },
        IntermediateCode { address: 306, opcode: 0, reg: None, kind: ValueKind::Constant, value: 0 },
        IntermediateCode { address: 309, opcode: 12, reg: None, kind: ValueKind::Constant, value: 100 },
    ];

    for (entry, expected_entry) in assembler.intermediate_code_table.iter().zip(expected.iter()) {
        assert_eq!(entry.address, expected_entry.address);
        assert_eq!(entry.opcode, expected_entry.opcode);
        assert_eq!(entry.reg, expected_entry.reg);
        assert_eq!(entry.kind, expected_entry.kind);
        assert_eq!(entry.value, expected_entry.value);
    }
}

fn lines_of(src: &[&str]) -> Vec<String> {
    src.iter().map(|s| s.to_string()).collect()
}

#[test]
fn unknown_mnemonic_single_diagnostic() {
    let mut a = Assembler::new();
    a.pass1(&lines_of(&["FOO 1 2"]));
    assert_eq!(a.error_table.len(), 1);
    assert_eq!(a.error_table[0].line_number, 0);
    assert!(matches!(a.error_table[0].error_type, ErrorType::UnknownMnemonic));
    assert!(a.intermediate_code_table.is_empty());
}

#[test]
fn undefined_symbol_reported_after_pass() {
    let mut a = Assembler::new();
    a.pass1(&lines_of(&["READ X", "STOP"]));
    assert_eq!(a.error_table.len(), 1);
    assert_eq!(a.error_table[0].line_number, 0);
    match &a.error_table[0].error_type {
        ErrorType::UndefinedSymbol(name) => assert_eq!(name, "X"),
        other => panic!("expected UndefinedSymbol, got {:?}", other),
    }
    assert_eq!(a.intermediate_code_table.len(), 2);
}

#[test]
fn label_on_ds_binds_before_reservation() {
    let mut a = Assembler::new();
    a.pass1(&lines_of(&["START 100", "BUF: DS 5", "TAIL: DC 7"]));
    assert!(a.error_table.is_empty());
    assert_eq!(a.symbol_table[0].name, "BUF");
    assert_eq!(a.symbol_table[0].address, 100);
    assert_eq!(a.symbol_table[1].name, "TAIL");
    assert_eq!(a.symbol_table[1].address, 105);
    assert_eq!(a.intermediate_code_table[0].address, 105);
    assert_eq!(a.intermediate_code_table[0].value, 7);
}

#[test]
fn first_reference_yields_table_index() {
    let mut a = Assembler::new();
    a.pass1(&lines_of(&["READ A", "READ B", "READ A"]));
    // A is inserted at index 0, B at index 1; the first references carry
    // those indices, and the repeat of A carries its (placeholder) address.
    assert_eq!(a.intermediate_code_table[0].value, 0);
    assert_eq!(a.intermediate_code_table[1].value, 1);
    assert_eq!(a.intermediate_code_table[2].value, 0);
}

#[test]
fn defined_before_use_resolves_to_address() {
    let mut a = Assembler::new();
    a.pass1(&lines_of(&["START 50", "HERE: STOP", "BC ANY HERE"]));
    assert!(a.error_table.is_empty());
    assert_eq!(a.symbol_table[0].address, 50);
    assert_eq!(a.intermediate_code_table[1].opcode, 7);
    assert_eq!(a.intermediate_code_table[1].reg, Some(5));
    assert_eq!(a.intermediate_code_table[1].value, 50);
}

#[test]
fn location_counter_monotonic_without_start() {
    let mut a = Assembler::new();
    a.pass1(&lines_of(&["ADD AREG 1", "DS 3", "SUB BREG 2", "DC 9"]));
    assert!(a.error_table.is_empty());
    let addrs: Vec<usize> = a.intermediate_code_table.iter().map(|r| r.address).collect();
    // one record at 0, DS jumps the counter to 4, then 4 and 5.
    assert_eq!(addrs, vec![0, 4, 5]);
}

#[test]
fn invalid_register_degrades_operand() {
    let mut a = Assembler::new();
    a.pass1(&lines_of(&["ADD XREG 5"]));
    assert_eq!(a.error_table.len(), 1);
    assert_eq!(a.error_table[0].line_number, 0);
    assert!(matches!(a.error_table[0].error_type, ErrorType::InvalidValue));
    // the record is still emitted, with the degraded empty operand.
    assert_eq!(a.intermediate_code_table.len(), 1);
    assert_eq!(a.intermediate_code_table[0].opcode, 1);
    assert_eq!(a.intermediate_code_table[0].reg, None);
    assert_eq!(a.intermediate_code_table[0].kind, ValueKind::Symbol);
    assert_eq!(a.intermediate_code_table[0].value, 0);
}

#[test]
fn constant_operand_is_constant_kind() {
    let mut a = Assembler::new();
    a.pass1(&lines_of(&["MOVER AREG 42"]));
    assert!(a.error_table.is_empty());
    assert_eq!(a.intermediate_code_table[0].reg, Some(0));
    assert_eq!(a.intermediate_code_table[0].kind, ValueKind::Constant);
    assert_eq!(a.intermediate_code_table[0].value, 42);
}

#[test]
fn dc_without_operand_is_invalid() {
    let mut a = Assembler::new();
    a.pass1(&lines_of(&["DC"]));
    assert_eq!(a.error_table.len(), 1);
    assert!(matches!(a.error_table[0].error_type, ErrorType::InvalidOperand));
    assert!(a.intermediate_code_table.is_empty());
}

#[test]
fn bc_missing_tokens() {
    let mut a = Assembler::new();
    a.pass1(&lines_of(&["BC", "BC LT"]));
    assert_eq!(a.error_table.len(), 2);
    assert!(matches!(a.error_table[0].error_type, ErrorType::MissingConditionCode));
    assert_eq!(a.error_table[0].line_number, 0);
    assert!(matches!(a.error_table[1].error_type, ErrorType::MissingLabel));
    assert_eq!(a.error_table[1].line_number, 1);
    assert!(a.intermediate_code_table.is_empty());
}

#[test]
fn start_with_bad_address_is_diagnosed() {
    let mut a = Assembler::new();
    a.pass1(&lines_of(&["START abc", "STOP"]));
    assert_eq!(a.error_table.len(), 1);
    assert!(matches!(a.error_table[0].error_type, ErrorType::InvalidOperand));
    // the counter stays where it was.
    assert_eq!(a.intermediate_code_table[0].address, 0);
}

#[test]
fn duplicate_label_overwrites_silently() {
    let mut a = Assembler::new();
    a.pass1(&lines_of(&["X: STOP", "X: STOP"]));
    assert!(a.error_table.is_empty());
    assert_eq!(a.symbol_table.len(), 1);
    assert_eq!(a.symbol_table[0].address, 1);
}

#[test]
fn end_does_not_stop_the_pass() {
    let mut a = Assembler::new();
    a.pass1(&lines_of(&["STOP", "END", "STOP"]));
    assert_eq!(a.intermediate_code_table.len(), 2);
    assert_eq!(a.intermediate_code_table[1].address, 1);
}
