use sysprog::assembler::catalog::{condition_lookup, opcode_lookup, register_lookup};
use sysprog::text::{parse_usize, split_lines, str_contains, str_eq, str_starts_with, tokenize, trim};

#[test]
fn opcode_catalog_codes() {
    let table = [
        ("STOP", 0),
        ("ADD", 1),
        ("SUB", 2),
        ("MUL", 3),
        ("MOVER", 4),
        ("MOVEM", 5),
        ("COMP", 6),
        ("BC", 7),
        ("DIV", 8),
        ("READ", 9),
        ("PRINT", 10),
        ("DS", 11),
        ("DC", 12),
    ];
    for (name, code) in table {
        assert_eq!(opcode_lookup(name), Some(code));
        // lookup is idempotent: a second call returns the same code.
        assert_eq!(opcode_lookup(name), Some(code));
    }
    assert_eq!(opcode_lookup("NOP"), None);
    assert_eq!(opcode_lookup("stop"), None);
    assert_eq!(opcode_lookup(""), None);
}

#[test]
fn register_catalog_codes() {
    let table = [("AREG", 0), ("BREG", 1), ("CREG", 2), ("DREG", 3)];
    for (name, code) in table {
        assert_eq!(register_lookup(name), Some(code));
        assert_eq!(register_lookup(name), Some(code));
    }
    assert_eq!(register_lookup("EREG"), None);
}

#[test]
fn condition_catalog_codes() {
    let table = [("LT", 0), ("LE", 1), ("EQ", 2), ("GT", 3), ("GE", 4), ("ANY", 5)];
    for (name, code) in table {
        assert_eq!(condition_lookup(name), Some(code));
        assert_eq!(condition_lookup(name), Some(code));
    }
    assert_eq!(condition_lookup("NE"), None);
}

#[test]
fn tokenize_splits_on_whitespace() {
    let toks = tokenize("  LOOP:  MOVEM\tAREG NUM  ");
    let toks: Vec<&str> = toks.iter().map(|t| t.as_str()).collect();
    assert_eq!(toks, vec!["LOOP:", "MOVEM", "AREG", "NUM"]);
    assert!(tokenize("").is_empty());
    assert!(tokenize("   \t ").is_empty());
}

#[test]
fn parse_usize_accepts_digits_only() {
    assert_eq!(parse_usize("0"), Some(0));
    assert_eq!(parse_usize("300"), Some(300));
    assert_eq!(parse_usize("007"), Some(7));
    assert_eq!(parse_usize(""), None);
    assert_eq!(parse_usize("12a"), None);
    assert_eq!(parse_usize("-3"), None);
    assert_eq!(parse_usize("18446744073709551615"), Some(usize::MAX));
    assert_eq!(parse_usize("18446744073709551616"), None);
}

#[test]
fn trim_and_matching() {
    assert_eq!(trim("  a b  "), "a b");
    assert_eq!(trim("\t\r\n"), "");
    assert_eq!(trim("x"), "x");
    assert!(str_eq("abc", "abc"));
    assert!(!str_eq("abc", "abd"));
    assert!(str_starts_with("states: 3", "states:"));
    assert!(!str_starts_with("state", "states:"));
    assert!(str_contains("hello world", "lo wo"));
    assert!(!str_contains("hello", "world"));
    assert!(str_contains("anything", ""));
}

#[test]
fn split_lines_keeps_interior_empties() {
    let ls = split_lines("a\n\nb\n");
    let ls: Vec<&str> = ls.iter().map(|t| t.as_str()).collect();
    assert_eq!(ls, vec!["a", "", "b"]);
    assert!(split_lines("").is_empty());
    assert_eq!(split_lines("x").len(), 1);
}
