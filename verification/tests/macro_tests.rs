use sysprog::macro_processor::MacroProcessor;

fn lines_of(src: &[&str]) -> Vec<String> {
    src.iter().map(|s| s.to_string()).collect()
}

fn as_strs(v: &[String]) -> Vec<&str> {
    v.iter().map(|s| s.as_str()).collect()
}

#[test]
fn plain_lines_pass_through_trimmed() {
    let mut mp = MacroProcessor::new();
    let out = mp.macro_process(&lines_of(&["  MOVER AREG X ", "STOP"]));
    assert_eq!(as_strs(&out), vec!["MOVER AREG X", "STOP"]);
}

#[test]
fn positional_parameters_substitute() {
    let mut mp = MacroProcessor::new();
    let out = mp.macro_process(&lines_of(&[
        "MACRO",
        "INCR &ARG1 &ARG2",
        "ADD &ARG1 &ARG2",
        "MACROEND",
        "INCR AREG 7",
    ]));
    assert_eq!(as_strs(&out), vec!["ADD AREG 7"]);
}

#[test]
fn keyword_arguments_and_defaults() {
    let mut mp = MacroProcessor::new();
    let out = mp.macro_process(&lines_of(&[
        "MACRO",
        "LOADTWO &A &B=BREG",
        "MOVER &A X",
        "MOVER &B Y",
        "MACROEND",
        "LOADTWO AREG",
        "LOADTWO AREG B=CREG",
    ]));
    assert_eq!(
        as_strs(&out),
        vec!["MOVER AREG X", "MOVER BREG Y", "MOVER AREG X", "MOVER CREG Y"]
    );
}

#[test]
fn unset_parameter_is_left_in_place() {
    let mut mp = MacroProcessor::new();
    let out = mp.macro_process(&lines_of(&[
        "MACRO",
        "ONE &P",
        "PRINT &P",
        "MACROEND",
        "ONE",
    ]));
    // no argument, no default: the parameter text stays.
    assert_eq!(as_strs(&out), vec!["PRINT &P"]);
}

#[test]
fn macro_body_until_macroend_only() {
    let mut mp = MacroProcessor::new();
    let out = mp.macro_process(&lines_of(&[
        "MACRO",
        "M",
        "A",
        "B",
        "MACROEND",
        "AFTER",
        "M",
    ]));
    assert_eq!(as_strs(&out), vec!["AFTER", "A", "B"]);
}

#[test]
fn macros_persist_across_calls() {
    let mut mp = MacroProcessor::new();
    let _ = mp.macro_process(&lines_of(&["MACRO", "M", "BODY", "MACROEND"]));
    let out = mp.macro_process(&lines_of(&["M"]));
    assert_eq!(as_strs(&out), vec!["BODY"]);
}

#[test]
fn substitution_applies_in_binding_order() {
    let mut mp = MacroProcessor::new();
    let out = mp.macro_process(&lines_of(&[
        "MACRO",
        "M &A &AB",
        "USE &A &AB",
        "MACROEND",
        "M one two",
    ]));
    // `&A` is bound first, so its replacement also rewrites the `&A`
    // prefix of `&AB`, leaving the leftover `B` behind.
    assert_eq!(as_strs(&out), vec!["USE one oneB"]);
}
