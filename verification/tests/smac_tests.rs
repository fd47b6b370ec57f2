use sysprog::smac0_simulator::{SMAC0, SmacError};

#[test]
fn parse_and_run_arithmetic_program() {
    let mut m = SMAC0::new();
    // MOVER r0 <- [5]; ADD r0 += [6]; MOVEM [7] <- r0; PRINT [7]; STOP.
    let program = "\
000 40005\n\
001 10006\n\
002 50007\n\
003 100007\n\
004 0\n\
005 20\n\
006 22\n\
007 0\n\
-1 000\n";
    m.parse_file(program.to_string());
    let out = m.execute(Vec::new(), 1000).unwrap();
    assert_eq!(out, vec![42]);
}

#[test]
fn read_feeds_from_inputs() {
    let mut m = SMAC0::new();
    let program = "000 90005\n001 100005\n002 0\n-1 000\n";
    m.parse_file(program.to_string());
    let out = m.execute(vec![33], 100).unwrap();
    assert_eq!(out, vec![33]);
}

#[test]
fn read_without_input_is_an_error() {
    let mut m = SMAC0::new();
    let program = "000 90005\n001 100005\n002 0\n-1 000\n";
    m.parse_file(program.to_string());
    assert_eq!(m.execute(Vec::new(), 100), Err(SmacError::InputExhausted));
}

#[test]
fn subtraction_underflow_faults() {
    let mut m = SMAC0::new();
    let program = "000 20001\n001 5\n-1 000\n";
    m.parse_file(program.to_string());
    assert_eq!(m.execute(Vec::new(), 100), Err(SmacError::Fault));
}

#[test]
fn branch_loop_hits_the_step_limit() {
    let mut m = SMAC0::new();
    // BC with the catch-all condition jumps back to 0 forever.
    let program = "000 75000\n001 3\n-1 000\n";
    m.parse_file(program.to_string());
    assert_eq!(m.execute(Vec::new(), 10), Err(SmacError::StepLimit));
}

#[test]
fn comparison_sets_condition_codes_for_branch() {
    let mut m = SMAC0::new();
    // MOVER r0 <- [5] (=1); COMP r0 with [6] (=2): r0 < [6], so BC LT
    // jumps over the first PRINT to the second.
    let program = "\
000 40005\n\
001 60006\n\
002 70005\n\
003 100006\n\
004 0\n\
005 1\n\
006 2\n\
-1 000\n";
    m.parse_file(program.to_string());
    let out = m.execute(Vec::new(), 100).unwrap();
    // the jump lands on address 5, whose cell (value 1) halts the run.
    assert_eq!(out, Vec::<usize>::new());
}

#[test]
fn short_value_is_an_invalid_instruction() {
    let mut m = SMAC0::new();
    // a 2-digit cell value is neither a halt nor an instruction.
    let program = "000 10\n001 3\n-1 000\n";
    m.parse_file(program.to_string());
    assert_eq!(m.execute(Vec::new(), 100), Err(SmacError::InvalidInstruction));
}

#[test]
fn unknown_opcode_is_rejected() {
    let mut m = SMAC0::new();
    // opcode 11 exists in no instruction table.
    let program = "000 110005\n001 3\n-1 000\n";
    m.parse_file(program.to_string());
    assert_eq!(m.execute(Vec::new(), 100), Err(SmacError::InvalidOpcode));
}

#[test]
fn malformed_listing_lines_are_ignored() {
    let mut m = SMAC0::new();
    let program = "garbage\n000 10\nxx yy\n-1 000\n";
    m.parse_file(program.to_string());
    // only the well-formed line loaded; pc == last == 0, so nothing runs.
    let out = m.execute(Vec::new(), 100).unwrap();
    assert_eq!(out, Vec::<usize>::new());
}
