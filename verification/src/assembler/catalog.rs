//! The fixed catalogs of the instruction set: mnemonic, register and
//! condition-code names with their numeric codes. Lookup is an exact,
//! case-sensitive string match, a pure function of the queried name.

use vstd::prelude::*;
use crate::text::str_eq;

verus! {

/// Opcode catalog: mnemonic name to opcode code.
pub open spec fn spec_opcode(name: Seq<char>) -> Option<usize> {
    if name == "STOP"@ {
        Some(0usize)
    } else if name == "ADD"@ {
        Some(1usize)
    } else if name == "SUB"@ {
        Some(2usize)
    } else if name == "MUL"@ {
        Some(3usize)
    } else if name == "MOVER"@ {
        Some(4usize)
    } else if name == "MOVEM"@ {
        Some(5usize)
    } else if name == "COMP"@ {
        Some(6usize)
    } else if name == "BC"@ {
        Some(7usize)
    } else if name == "DIV"@ {
        Some(8usize)
    } else if name == "READ"@ {
        Some(9usize)
    } else if name == "PRINT"@ {
        Some(10usize)
    } else if name == "DS"@ {
        Some(11usize)
    } else if name == "DC"@ {
        Some(12usize)
    } else {
        None
    }
}

/// Register catalog: register name to register code.
pub open spec fn spec_register(name: Seq<char>) -> Option<usize> {
    if name == "AREG"@ {
        Some(0usize)
    } else if name == "BREG"@ {
        Some(1usize)
    } else if name == "CREG"@ {
        Some(2usize)
    } else if name == "DREG"@ {
        Some(3usize)
    } else {
        None
    }
}

/// Condition-code catalog: condition name to condition code.
pub open spec fn spec_condition(name: Seq<char>) -> Option<usize> {
    if name == "LT"@ {
        Some(0usize)
    } else if name == "LE"@ {
        Some(1usize)
    } else if name == "EQ"@ {
        Some(2usize)
    } else if name == "GT"@ {
        Some(3usize)
    } else if name == "GE"@ {
        Some(4usize)
    } else if name == "ANY"@ {
        Some(5usize)
    } else {
        None
    }
}

/// Looks a mnemonic up in the opcode catalog. The result depends on the
/// queried name alone, so repeated lookups of one name always agree.
pub fn opcode_lookup(name: &str) -> (r: Option<usize>)
    ensures
        r == spec_opcode(name@),
{
    if str_eq(name, "STOP") {
        Some(0)
    } else if str_eq(name, "ADD") {
        Some(1)
    } else if str_eq(name, "SUB") {
        Some(2)
    } else if str_eq(name, "MUL") {
        Some(3)
    } else if str_eq(name, "MOVER") {
        Some(4)
    } else if str_eq(name, "MOVEM") {
        Some(5)
    } else if str_eq(name, "COMP") {
        Some(6)
    } else if str_eq(name, "BC") {
        Some(7)
    } else if str_eq(name, "DIV") {
        Some(8)
    } else if str_eq(name, "READ") {
        Some(9)
    } else if str_eq(name, "PRINT") {
        Some(10)
    } else if str_eq(name, "DS") {
        Some(11)
    } else if str_eq(name, "DC") {
        Some(12)
    } else {
        None
    }
}

/// Looks a register name up in the register catalog.
pub fn register_lookup(name: &str) -> (r: Option<usize>)
    ensures
        r == spec_register(name@),
{
    if str_eq(name, "AREG") {
        Some(0)
    } else if str_eq(name, "BREG") {
        Some(1)
    } else if str_eq(name, "CREG") {
        Some(2)
    } else if str_eq(name, "DREG") {
        Some(3)
    } else {
        None
    }
}

/// Looks a condition name up in the condition-code catalog.
pub fn condition_lookup(name: &str) -> (r: Option<usize>)
    ensures
        r == spec_condition(name@),
{
    if str_eq(name, "LT") {
        Some(0)
    } else if str_eq(name, "LE") {
        Some(1)
    } else if str_eq(name, "EQ") {
        Some(2)
    } else if str_eq(name, "GT") {
        Some(3)
    } else if str_eq(name, "GE") {
        Some(4)
    } else if str_eq(name, "ANY") {
        Some(5)
    } else {
        None
    }
}

} // verus!
