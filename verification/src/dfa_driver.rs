//! A deterministic finite automaton: a transition table built
//! programmatically or parsed from a textual description, and a validator
//! that runs an input word through the table.

use vstd::prelude::*;
use vstd::string::*;
use crate::text::{
    digits_value, parses_as_usize, parse_usize, split_lines, split_lines_spec,
    starts_with_spec, str_starts_with, tokenize, tokens, trim, trim_spec, views_of,
};

verus! {

/// Model of the automaton structure.
#[verifier::ext_equal]
pub ghost struct DfaInnerModel {
    pub num_states: usize,
    pub num_symbols: usize,
    pub delta: Seq<Seq<usize>>,
    pub final_states: Seq<usize>,
}

/// Model of a running automaton.
#[verifier::ext_equal]
pub ghost struct DfaModel {
    pub inner: DfaInnerModel,
    pub current_state: usize,
}

/// The automaton structure: state and symbol counts, the transition
/// table, and the accepting states.
#[derive(Debug)]
pub struct DFAInner {
    num_states: usize,
    num_symbols: usize,
    delta: Vec<Vec<usize>>,
    final_states: Vec<usize>,
}

impl View for DFAInner {
    type V = DfaInnerModel;

    closed spec fn view(&self) -> DfaInnerModel {
        DfaInnerModel {
            num_states: self.num_states,
            num_symbols: self.num_symbols,
            delta: self.delta@.map_values(|r: Vec<usize>| r@),
            final_states: self.final_states@,
        }
    }
}

/// An all-zero transition table with `n` states over `m` symbols.
pub open spec fn zero_delta(n: usize, m: usize) -> Seq<Seq<usize>> {
    Seq::new(n as nat, |i: int| Seq::new(m as nat, |j: int| 0usize))
}

impl DFAInner {
    /// An empty automaton structure.
    pub fn new() -> (d: Self)
        ensures
            d@ == (DfaInnerModel {
                num_states: 0,
                num_symbols: 0,
                delta: Seq::<Seq<usize>>::empty(),
                final_states: Seq::<usize>::empty(),
            }),
    {
        let d = Self { num_states: 0, num_symbols: 0, delta: Vec::new(), final_states: Vec::new() };
        proof {
            assert(d@ =~~= (DfaInnerModel {
                num_states: 0,
                num_symbols: 0,
                delta: Seq::<Seq<usize>>::empty(),
                final_states: Seq::<usize>::empty(),
            }));
        }
        d
    }

    /// Sizes the automaton and resets every transition to state 0; the
    /// accepting states are kept.
    pub fn build(&mut self, num_states: usize, num_symbols: usize)
        ensures
            final(self)@ == (DfaInnerModel {
                num_states,
                num_symbols,
                delta: zero_delta(num_states, num_symbols),
                final_states: old(self)@.final_states,
            }),
    {
        self.num_states = num_states;
        self.num_symbols = num_symbols;
        let mut delta: Vec<Vec<usize>> = Vec::new();
        let mut i: usize = 0;
        while i < num_states
            invariant
                i <= num_states,
                delta@.len() == i,
                forall|p: int|
                    0 <= p < i ==> #[trigger] delta@[p]@ == Seq::new(
                        num_symbols as nat,
                        |j: int| 0usize,
                    ),
            decreases num_states - i,
        {
            let row: Vec<usize> = vec![0; num_symbols];
            proof {
                assert(row@ =~= Seq::new(num_symbols as nat, |j: int| 0usize));
            }
            delta.push(row);
            i += 1;
        }
        self.delta = delta;
        proof {
            assert(self@.delta =~= zero_delta(num_states, num_symbols));
            assert(self@ =~~= (DfaInnerModel {
                num_states,
                num_symbols,
                delta: zero_delta(num_states, num_symbols),
                final_states: old(self)@.final_states,
            }));
        }
    }

    /// Overwrites one transition.
    fn set_transition(&mut self, from_state: usize, symbol: usize, to_state: usize)
        requires
            from_state < old(self)@.delta.len(),
            symbol < old(self)@.delta[from_state as int].len(),
        ensures
            final(self)@ == (DfaInnerModel {
                delta: old(self)@.delta.update(
                    from_state as int,
                    old(self)@.delta[from_state as int].update(symbol as int, to_state),
                ),
                ..old(self)@
            }),
    {
        let row = vstd::std_specs::vec::vec_index_mut(&mut self.delta, from_state);
        row[symbol] = to_state;
        proof {
            assert(self@.delta =~= old(self)@.delta.update(
                from_state as int,
                old(self)@.delta[from_state as int].update(symbol as int, to_state),
            ));
            assert(self@ =~~= (DfaInnerModel {
                delta: old(self)@.delta.update(
                    from_state as int,
                    old(self)@.delta[from_state as int].update(symbol as int, to_state),
                ),
                ..old(self)@
            }));
        }
    }

    /// Marks a state accepting, once.
    fn add_final_state(&mut self, state: usize)
        ensures
            final(self)@ == (DfaInnerModel {
                final_states: if old(self)@.final_states.contains(state) {
                    old(self)@.final_states
                } else {
                    old(self)@.final_states.push(state)
                },
                ..old(self)@
            }),
    {
        if !self.is_final_state(state) {
            self.final_states.push(state);
        }
        proof {
            assert(self@ =~~= (DfaInnerModel {
                final_states: if old(self)@.final_states.contains(state) {
                    old(self)@.final_states
                } else {
                    old(self)@.final_states.push(state)
                },
                ..old(self)@
            }));
        }
    }

    /// Whether `state` is accepting.
    fn is_final_state(&self, state: usize) -> (b: bool)
        ensures
            b == self@.final_states.contains(state),
    {
        let n = self.final_states.len();
        let mut i: usize = 0;
        while i < n
            invariant
                i <= n,
                n == self@.final_states.len(),
                forall|j: int| 0 <= j < i ==> self@.final_states[j] != state,
            decreases n - i,
        {
            if self.final_states[i] == state {
                return true;
            }
            i += 1;
        }
        false
    }
}

/// The state the run stops in: transitions are followed until the input
/// ends, an out-of-range symbol appears, or the table has no row or
/// column for the step.
pub open spec fn run_state(inner: DfaInnerModel, st: usize, input: Seq<usize>) -> usize
    decreases input.len(),
{
    if input.len() == 0 {
        st
    } else if input[0] >= inner.num_symbols {
        st
    } else if st >= inner.delta.len() || input[0] >= inner.delta[st as int].len() {
        st
    } else {
        run_state(inner, inner.delta[st as int][input[0] as int], input.drop_first())
    }
}

/// Whether the run consumes the whole input without an out-of-range
/// symbol or a missing table entry.
pub open spec fn run_clean(inner: DfaInnerModel, st: usize, input: Seq<usize>) -> bool
    decreases input.len(),
{
    if input.len() == 0 {
        true
    } else if input[0] >= inner.num_symbols {
        false
    } else if st >= inner.delta.len() || input[0] >= inner.delta[st as int].len() {
        false
    } else {
        run_clean(inner, inner.delta[st as int][input[0] as int], input.drop_first())
    }
}

/// A word is valid when the run from state 0 consumes it cleanly and
/// stops in an accepting state.
pub open spec fn spec_validate(inner: DfaInnerModel, input: Seq<usize>) -> bool {
    run_clean(inner, 0, input) && inner.final_states.contains(run_state(inner, 0, input))
}

/// The parser state while reading a textual automaton description:
/// the header values seen so far, whether the transition section has
/// been reached, and the structure under construction.
#[verifier::ext_equal]
pub ghost struct ParseModel {
    pub num_states: usize,
    pub num_symbols: usize,
    pub start_state: usize,
    pub final_states: Seq<usize>,
    pub parsing_transitions: bool,
    pub obtained_states: bool,
    pub obtained_symbols: bool,
    pub built: bool,
    pub inner: DfaInnerModel,
}

pub open spec fn parse_init() -> ParseModel {
    ParseModel {
        num_states: 0,
        num_symbols: 0,
        start_state: 0,
        final_states: Seq::<usize>::empty(),
        parsing_transitions: false,
        obtained_states: false,
        obtained_symbols: false,
        built: false,
        inner: DfaInnerModel {
            num_states: 0,
            num_symbols: 0,
            delta: Seq::<Seq<usize>>::empty(),
            final_states: Seq::<usize>::empty(),
        },
    }
}

pub open spec fn all_parse(toks: Seq<Seq<char>>) -> bool {
    forall|i: int| 0 <= i < toks.len() ==> parses_as_usize(#[trigger] toks[i])
}

pub open spec fn parsed_values(toks: Seq<Seq<char>>) -> Seq<usize> {
    toks.map_values(|t: Seq<char>| digits_value(t) as usize)
}

/// One trimmed, nonempty description line. A header line whose numeric
/// payload does not read as a decimal is ignored; so is a transition
/// whose source state or symbol lies outside the built table.
pub open spec fn directive_step(st: ParseModel, t: Seq<char>) -> ParseModel {
    if starts_with_spec(t, "states:"@) {
        let p = trim_spec(t.skip("states:"@.len() as int));
        if parses_as_usize(p) {
            ParseModel { num_states: digits_value(p) as usize, obtained_states: true, ..st }
        } else {
            st
        }
    } else if starts_with_spec(t, "symbols:"@) {
        let p = trim_spec(t.skip("symbols:"@.len() as int));
        if parses_as_usize(p) {
            ParseModel { num_symbols: digits_value(p) as usize, obtained_symbols: true, ..st }
        } else {
            st
        }
    } else if starts_with_spec(t, "start_state:"@) {
        let p = trim_spec(t.skip("start_state:"@.len() as int));
        if parses_as_usize(p) {
            ParseModel { start_state: digits_value(p) as usize, ..st }
        } else {
            st
        }
    } else if starts_with_spec(t, "final_states:"@) {
        let toks = tokens(t.skip("final_states:"@.len() as int));
        if all_parse(toks) {
            ParseModel { final_states: parsed_values(toks), ..st }
        } else {
            st
        }
    } else if starts_with_spec(t, "transitions:"@) {
        if st.built {
            ParseModel { parsing_transitions: true, ..st }
        } else {
            st
        }
    } else if st.parsing_transitions {
        let parts = tokens(t);
        if parts.len() == 3 && all_parse(parts) {
            let f = digits_value(parts[0]) as usize;
            let sy = digits_value(parts[1]) as usize;
            let to = digits_value(parts[2]) as usize;
            if f < st.inner.delta.len() && sy < st.inner.delta[f as int].len() {
                ParseModel {
                    inner: DfaInnerModel {
                        delta: st.inner.delta.update(
                            f as int,
                            st.inner.delta[f as int].update(sy as int, to),
                        ),
                        ..st.inner
                    },
                    ..st
                }
            } else {
                st
            }
        } else {
            st
        }
    } else {
        st
    }
}

/// One raw description line: empty lines are skipped; after any other
/// line the table is built once both size headers have been seen.
pub open spec fn parse_line_step(st: ParseModel, line: Seq<char>) -> ParseModel {
    if line.len() == 0 {
        st
    } else {
        let st1 = directive_step(st, trim_spec(line));
        if st1.obtained_states && st1.obtained_symbols && !st1.built {
            ParseModel {
                built: true,
                inner: DfaInnerModel {
                    num_states: st1.num_states,
                    num_symbols: st1.num_symbols,
                    delta: zero_delta(st1.num_states, st1.num_symbols),
                    final_states: st1.inner.final_states,
                },
                ..st1
            }
        } else {
            st1
        }
    }
}

/// The first `n` description lines.
pub open spec fn parse_lines(st: ParseModel, lines: Seq<Seq<char>>, n: int) -> ParseModel
    decreases n,
{
    if n <= 0 {
        st
    } else {
        parse_line_step(parse_lines(st, lines, n - 1), lines[n - 1])
    }
}

/// The automaton a textual description denotes: the parsed structure
/// with the listed accepting states, positioned at the declared start
/// state.
pub open spec fn spec_from_string(s: Seq<char>) -> DfaModel {
    let lines = split_lines_spec(s);
    let p = parse_lines(parse_init(), lines, lines.len() as int);
    DfaModel {
        inner: DfaInnerModel { final_states: p.final_states, ..p.inner },
        current_state: p.start_state,
    }
}

/// A running automaton: the structure plus a current state.
#[derive(Debug)]
pub struct DFA {
    dfa_inner: DFAInner,
    current_state: usize,
}

impl View for DFA {
    type V = DfaModel;

    closed spec fn view(&self) -> DfaModel {
        DfaModel { inner: self.dfa_inner@, current_state: self.current_state }
    }
}

impl DFA {
    /// Wraps a structure with a starting state.
    pub fn new(dfa_inner: DFAInner, start_state: usize) -> (d: Self)
        ensures
            d@ == (DfaModel { inner: dfa_inner@, current_state: start_state }),
    {
        Self { dfa_inner, current_state: start_state }
    }

    /// Runs `input` from state 0 and reports whether it lands in an
    /// accepting state. An out-of-range symbol rejects; so does a step
    /// for which the table has no entry.
    pub fn validate(&mut self, input: &[usize]) -> (b: bool)
        ensures
            final(self)@.inner == old(self)@.inner,
            final(self)@.current_state == run_state(old(self)@.inner, 0, input@),
            b == spec_validate(old(self)@.inner, input@),
    {
        self.current_state = 0;
        let n = input.len();
        let mut i: usize = 0;
        proof {
            assert(input@.skip(0) =~= input@);
        }
        while i < n
            invariant
                i <= n,
                n == input@.len(),
                self@.inner == old(self)@.inner,
                run_state(old(self)@.inner, 0, input@) == run_state(
                    self@.inner,
                    self@.current_state,
                    input@.skip(i as int),
                ),
                run_clean(old(self)@.inner, 0, input@) == run_clean(
                    self@.inner,
                    self@.current_state,
                    input@.skip(i as int),
                ),
            decreases n - i,
        {
            proof {
                assert(input@.skip(i as int)[0] == input@[i as int]);
                assert(input@.skip(i as int).drop_first() =~= input@.skip(i + 1));
            }
            let symbol = input[i];
            if symbol >= self.dfa_inner.num_symbols {
                return false;
            }
            if self.current_state >= self.dfa_inner.delta.len() {
                return false;
            }
            let row = &self.dfa_inner.delta[self.current_state];
            if symbol >= row.len() {
                return false;
            }
            self.current_state = row[symbol];
            i += 1;
        }
        proof {
            assert(input@.skip(n as int) =~= Seq::<usize>::empty());
        }
        self.dfa_inner.is_final_state(self.current_state)
    }

    /// Builds an automaton from a textual description: `states:`,
    /// `symbols:` and `start_state:` headers, a `final_states:` list,
    /// and `from symbol to` triples after a `transitions:` marker (which
    /// takes effect only once both size headers have been seen).
    pub fn from_string(dfa_input: &str) -> (d: DFA)
        ensures
            d@ == spec_from_string(dfa_input@),
    {
        let lines = split_lines(dfa_input);
        let ghost lv = views_of(lines@);
        let mut num_states: usize = 0;
        let mut num_symbols: usize = 0;
        let mut start_state: usize = 0;
        let mut final_states: Vec<usize> = Vec::new();
        let mut parsing_transitions = false;
        let mut obtained_states = false;
        let mut obtained_symbols = false;
        let mut dfa_inner = DFAInner::new();
        let mut dfa_unbuilt = true;
        let n = lines.len();
        let mut i: usize = 0;
        while i < n
            invariant
                i <= n,
                n == lines@.len(),
                lv == views_of(lines@),
                ({
                    let p = parse_lines(parse_init(), lv, i as int);
                    &&& num_states == p.num_states
                    &&& num_symbols == p.num_symbols
                    &&& start_state == p.start_state
                    &&& final_states@ == p.final_states
                    &&& parsing_transitions == p.parsing_transitions
                    &&& obtained_states == p.obtained_states
                    &&& obtained_symbols == p.obtained_symbols
                    &&& dfa_unbuilt == !p.built
                    &&& dfa_inner@ == p.inner
                }),
            decreases n - i,
        {
            let ghost p0 = parse_lines(parse_init(), lv, i as int);
            let line = lines[i].as_str();
            proof {
                assert(line@ == lv[i as int]);
            }
            if line.unicode_len() > 0 {
                let t = trim(line);
                let tl = t.unicode_len();
                if str_starts_with(t, "states:") {
                    let pl = "states:".unicode_len();
                    let payload = trim(t.substring_char(pl, tl));
                    proof {
                        assert(t@.subrange(pl as int, tl as int) =~= t@.skip(
                            "states:"@.len() as int,
                        ));
                    }
                    match parse_usize(payload) {
                        Some(v) => {
                            num_states = v;
                            obtained_states = true;
                        },
                        None => {},
                    }
                } else if str_starts_with(t, "symbols:") {
                    let pl = "symbols:".unicode_len();
                    let payload = trim(t.substring_char(pl, tl));
                    proof {
                        assert(t@.subrange(pl as int, tl as int) =~= t@.skip(
                            "symbols:"@.len() as int,
                        ));
                    }
                    match parse_usize(payload) {
                        Some(v) => {
                            num_symbols = v;
                            obtained_symbols = true;
                        },
                        None => {},
                    }
                } else if str_starts_with(t, "start_state:") {
                    let pl = "start_state:".unicode_len();
                    let payload = trim(t.substring_char(pl, tl));
                    proof {
                        assert(t@.subrange(pl as int, tl as int) =~= t@.skip(
                            "start_state:"@.len() as int,
                        ));
                    }
                    match parse_usize(payload) {
                        Some(v) => start_state = v,
                        None => {},
                    }
                } else if str_starts_with(t, "final_states:") {
                    let pl = "final_states:".unicode_len();
                    let payload = t.substring_char(pl, tl);
                    proof {
                        assert(payload@ =~= t@.skip("final_states:"@.len() as int));
                    }
                    let toks = tokenize(payload);
                    match parse_all_usizes(&toks) {
                        Some(vs) => final_states = vs,
                        None => {},
                    }
                } else if str_starts_with(t, "transitions:") {
                    if !dfa_unbuilt {
                        parsing_transitions = true;
                    }
                } else if parsing_transitions {
                    let parts = tokenize(t);
                    proof {
                        assert(views_of(parts@) == tokens(t@));
                    }
                    if parts.len() == 3 {
                        let p0v = parse_usize(parts[0].as_str());
                        let p1v = parse_usize(parts[1].as_str());
                        let p2v = parse_usize(parts[2].as_str());
                        if let Some(f) = p0v {
                            if let Some(sy) = p1v {
                                if let Some(to) = p2v {
                                    proof {
                                        assert(all_parse(views_of(parts@))) by {
                                            assert(forall|q: int|
                                                0 <= q < 3 ==> parses_as_usize(
                                                    #[trigger] views_of(parts@)[q],
                                                ));
                                        }
                                    }
                                    if f < dfa_inner.delta.len() {
                                        let row_len = dfa_inner.delta[f].len();
                                        if sy < row_len {
                                            dfa_inner.set_transition(f, sy, to);
                                        }
                                    }
                                }
                            }
                        }
                        proof {
                            if p0v is None || p1v is None || p2v is None {
                                assert(!all_parse(views_of(parts@)));
                            }
                        }
                    }
                } else {
                }
                if obtained_states && obtained_symbols && dfa_unbuilt {
                    dfa_inner.build(num_states, num_symbols);
                    dfa_unbuilt = false;
                }
            }
            proof {
                let p1 = parse_lines(parse_init(), lv, i + 1);
                assert(p1 == parse_line_step(p0, lv[i as int]));
                assert(num_states == p1.num_states && num_symbols == p1.num_symbols
                    && start_state == p1.start_state && final_states@ == p1.final_states
                    && parsing_transitions == p1.parsing_transitions
                    && obtained_states == p1.obtained_states
                    && obtained_symbols == p1.obtained_symbols && dfa_unbuilt == !p1.built
                    && dfa_inner@ =~~= p1.inner);
            }
            i += 1;
        }
        dfa_inner.final_states = final_states;
        let d = DFA::new(dfa_inner, start_state);
        proof {
            assert(d@ =~~= spec_from_string(dfa_input@));
        }
        d
    }
}

/// Reads every token as an unsigned decimal, all or nothing.
fn parse_all_usizes(toks: &Vec<String>) -> (r: Option<Vec<usize>>)
    ensures
        match r {
            Some(vs) => all_parse(views_of(toks@)) && vs@ == parsed_values(views_of(toks@)),
            None => !all_parse(views_of(toks@)),
        },
{
    let ghost tv = views_of(toks@);
    let m = toks.len();
    let mut vs: Vec<usize> = Vec::new();
    let mut q: usize = 0;
    assert(parsed_values(tv.take(0)) =~= Seq::<usize>::empty());
    while q < m
        invariant
            q <= m,
            m == toks@.len(),
            tv == views_of(toks@),
            forall|j: int| 0 <= j < q ==> parses_as_usize(#[trigger] tv[j]),
            vs@ == parsed_values(tv.take(q as int)),
        decreases m - q,
    {
        match parse_usize(toks[q].as_str()) {
            Some(v) => {
                vs.push(v);
                proof {
                    assert(tv.take(q + 1).drop_last() =~= tv.take(q as int));
                    assert(parsed_values(tv.take(q + 1)) =~= parsed_values(
                        tv.take(q as int),
                    ).push(digits_value(tv[q as int]) as usize));
                }
            },
            None => {
                assert(!parses_as_usize(tv[q as int]));
                return None;
            },
        }
        q += 1;
    }
    proof {
        assert(tv.take(m as int) =~= tv);
    }
    Some(vs)
}

} // verus!
