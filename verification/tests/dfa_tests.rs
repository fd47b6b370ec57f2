use sysprog::dfa_driver::{DFA, DFAInner};

const DESCRIPTION: &str = r#"
        states: 3
        symbols: 2
        start_state: 1
        final_states: 2
        transitions:
            0 0 1
            0 1 2
            1 0 1
            1 1 2
            2 0 0
            2 1 0
    "#;

#[test]
fn from_string_builds_and_validates() {
    let mut dfa = DFA::from_string(DESCRIPTION);
    // the automaton accepts exactly the words whose run from state 0
    // ends in state 2: those ending in a 1 after an even number of
    // trailing... concretely:
    assert!(dfa.validate(&[1]));
    assert!(dfa.validate(&[0, 1]));
    assert!(dfa.validate(&[0, 0, 1]));
    assert!(!dfa.validate(&[]));
    assert!(!dfa.validate(&[0]));
    assert!(!dfa.validate(&[1, 0]));
    assert!(!dfa.validate(&[1, 1]));
}

#[test]
fn out_of_range_symbol_rejects() {
    let mut dfa = DFA::from_string(DESCRIPTION);
    assert!(!dfa.validate(&[2]));
    assert!(!dfa.validate(&[1, 5]));
}

#[test]
fn built_by_hand_empty_has_no_final_states() {
    let inner = DFAInner::new();
    let mut dfa = DFA::new(inner, 0);
    assert!(!dfa.validate(&[]));
}

#[test]
fn build_resets_transitions_to_zero() {
    let mut inner = DFAInner::new();
    inner.build(2, 1);
    // all transitions lead to state 0, no final states: nothing accepted.
    let mut dfa = DFA::new(inner, 0);
    assert!(!dfa.validate(&[0, 0, 0]));
}

#[test]
fn transitions_before_headers_are_ignored() {
    // the transition section only takes effect after both size headers.
    let description = "transitions:\n0 0 1\nstates: 2\nsymbols: 1\nfinal_states: 1\n";
    let mut dfa = DFA::from_string(description);
    // the delta stays all-zero, so state 1 is never reached.
    assert!(!dfa.validate(&[0]));
}
