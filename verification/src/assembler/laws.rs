//! General properties of the pass model, stated and proved once for all
//! inputs: catalog lookup is a pure function of the queried name, the
//! location counter never decreases without a START directive and advances
//! by exactly the emitted/reserved amount, a label binds before its own
//! line's counter effects, and operand references resolve to the table
//! index on first sight and to the bound address once defined.

use vstd::prelude::*;
use crate::text::{tokens, parses_as_usize, digits_value};
use crate::assembler::catalog::{spec_opcode, spec_register, spec_condition};
use crate::assembler::model::{
    AsmModel, SymModel, advance, bind_label_state, line_parts, line_step, ref_sym_state,
    ref_sym_value, run_lines, start_end_step, sym_index, sym_index_from,
};

verus! {

/// Catalog lookup is idempotent: the code returned for a name depends on
/// nothing but the name, so any two lookups of equal names, at any time,
/// return the same numeric code.
pub proof fn lemma_catalog_lookup_idempotent(a: Seq<char>, b: Seq<char>)
    requires
        a == b,
    ensures
        spec_opcode(a) == spec_opcode(b),
        spec_register(a) == spec_register(b),
        spec_condition(a) == spec_condition(b),
{
}

/// What `sym_index_from` returns: either -1 with no occurrence of `name`
/// at or after `i`, or the first such occurrence.
pub proof fn lemma_sym_index_from_spec(syms: Seq<SymModel>, name: Seq<char>, i: int)
    requires
        0 <= i <= syms.len(),
    ensures
        ({
            let r = sym_index_from(syms, name, i);
            (r == -1 && forall|j: int| i <= j < syms.len() ==> syms[j].name != name) || (i <= r
                < syms.len() && syms[r].name == name && forall|j: int|
                i <= j < r ==> syms[j].name != name)
        }),
    decreases syms.len() - i,
{
    if i < syms.len() && syms[i].name != name {
        lemma_sym_index_from_spec(syms, name, i + 1);
    }
}

/// Two tables with the same names in the same places are searched alike.
pub proof fn lemma_sym_index_from_same_names(
    s1: Seq<SymModel>,
    s2: Seq<SymModel>,
    name: Seq<char>,
    i: int,
)
    requires
        s1.len() == s2.len(),
        forall|j: int| 0 <= j < s1.len() ==> s1[j].name == s2[j].name,
        0 <= i <= s1.len(),
    ensures
        sym_index_from(s1, name, i) == sym_index_from(s2, name, i),
    decreases s1.len() - i,
{
    if i < s1.len() && s1[i].name != name {
        lemma_sym_index_from_same_names(s1, s2, name, i + 1);
    }
}

/// Appending an entry does not move an existing first occurrence.
pub proof fn lemma_sym_index_from_push(
    syms: Seq<SymModel>,
    x: SymModel,
    name: Seq<char>,
    i: int,
)
    requires
        0 <= i <= syms.len(),
        sym_index_from(syms, name, i) >= 0,
    ensures
        sym_index_from(syms.push(x), name, i) == sym_index_from(syms, name, i),
    decreases syms.len() - i,
{
    if i < syms.len() && syms[i].name != name {
        lemma_sym_index_from_push(syms, x, name, i + 1);
    }
}

/// First-reference placeholder law: the first ever operand reference to a
/// name not in the table yields the table index the new entry is inserted
/// at (0-based, insertion order), and the entry starts as an undefined,
/// used placeholder at address 0.
pub proof fn lemma_first_reference_placeholder(st: AsmModel, name: Seq<char>)
    requires
        sym_index(st.symbols, name) < 0,
    ensures
        ref_sym_value(st, name) == st.symbols.len() as usize,
        ref_sym_state(st, name).symbols == st.symbols.push(
            SymModel { name, address: 0, defined: false, used: true },
        ),
        ref_sym_state(st, name).code == st.code,
        ref_sym_state(st, name).diags == st.diags,
        ref_sym_state(st, name).lc == st.lc,
{
}

/// Defined-before-use resolution: an operand reference to a symbol that
/// is already defined at reference time yields its true bound address.
pub proof fn lemma_defined_before_use_resolution(st: AsmModel, name: Seq<char>)
    requires
        sym_index(st.symbols, name) >= 0,
        st.symbols[sym_index(st.symbols, name)].defined,
    ensures
        ref_sym_value(st, name) == st.symbols[sym_index(st.symbols, name)].address,
{
}

/// The mnemonic token of a tokenized line.
pub open spec fn line_mnemonic(toks: Seq<Seq<char>>) -> Seq<char> {
    line_parts(toks).1
}

/// Whether a tokenized line is a START directive (the one construct that
/// may move the location counter backwards).
pub open spec fn is_start_line(toks: Seq<Seq<char>>) -> bool {
    line_mnemonic(toks) == "START"@
}

/// Location-counter monotonicity, per line: without a START directive the
/// counter never decreases.
pub proof fn lemma_line_lc_monotonic(st: AsmModel, toks: Seq<Seq<char>>, ln: usize)
    requires
        !is_start_line(toks),
    ensures
        line_step(st, toks, ln).lc >= st.lc,
{
    let parts = line_parts(toks);
    let st1 = match parts.0 {
        Some(nm) => bind_label_state(st, nm),
        None => st,
    };
    assert(st1.lc == st.lc);
    let se = start_end_step(st1, parts.1, toks, parts.2, ln);
    if !se.1 {
        match spec_opcode(parts.1) {
            Some(code) => {
                if code == 11 {
                    let kk = parts.2;
                    if kk < toks.len() && parses_as_usize(toks[kk]) {
                        crate::text::lemma_digits_value_nonneg(toks[kk]);
                    }
                }
            },
            None => {},
        }
    }
}

/// A line sequence with no START directive anywhere.
pub open spec fn no_start_lines(lines: Seq<Seq<char>>) -> bool {
    forall|i: int| 0 <= i < lines.len() ==> !is_start_line(tokens(#[trigger] lines[i]))
}

/// Location-counter monotonicity, over a whole pass prefix: for any line
/// sequence without a START directive the counter is non-decreasing line
/// over line.
pub proof fn lemma_pass_lc_monotonic(st: AsmModel, lines: Seq<Seq<char>>, n: int)
    requires
        no_start_lines(lines),
        0 <= n <= lines.len(),
    ensures
        run_lines(st, lines, n).lc >= st.lc,
    decreases n,
{
    if n > 0 {
        lemma_pass_lc_monotonic(st, lines, n - 1);
        lemma_line_lc_monotonic(run_lines(st, lines, n - 1), tokens(lines[n - 1]), (n - 1) as usize);
    }
}

/// Exact location-counter accounting, per line, without a START
/// directive: the counter advances by exactly 1 per emitted record, by
/// the literal count for a DS line (which emits nothing), and not at all
/// otherwise.
pub proof fn lemma_lc_advance_per_line(st: AsmModel, toks: Seq<Seq<char>>, ln: usize)
    requires
        !is_start_line(toks),
    ensures
        ({
            let st1 = line_step(st, toks, ln);
            let code = spec_opcode(line_mnemonic(toks));
            let kk = line_parts(toks).2;
            &&& st.code.len() <= st1.code.len() <= st.code.len() + 1
            &&& (st1.code.len() == st.code.len() + 1 ==> st1.lc == advance(st.lc, 1))
            &&& (code == Some(11usize) ==> st1.code == st.code && (if kk < toks.len()
                && parses_as_usize(toks[kk]) {
                st1.lc == advance(st.lc, digits_value(toks[kk]))
            } else {
                st1.lc == st.lc
            }))
            &&& (st1.code.len() == st.code.len() && code != Some(11usize) ==> st1.lc == st.lc)
        }),
{
    reveal_strlit("STOP");
    reveal_strlit("ADD");
    reveal_strlit("SUB");
    reveal_strlit("MUL");
    reveal_strlit("MOVER");
    reveal_strlit("MOVEM");
    reveal_strlit("COMP");
    reveal_strlit("BC");
    reveal_strlit("DIV");
    reveal_strlit("READ");
    reveal_strlit("PRINT");
    reveal_strlit("DS");
    reveal_strlit("DC");
    reveal_strlit("START");
    reveal_strlit("END");
    let parts = line_parts(toks);
    let st1 = match parts.0 {
        Some(nm) => bind_label_state(st, nm),
        None => st,
    };
    let se = start_end_step(st1, parts.1, toks, parts.2, ln);
    if se.1 {
        assert(parts.1 == "END"@);
        assert("END"@.len() == 3 && "STOP"@.len() == 4 && "MOVER"@.len() == 5 && "MOVEM"@.len()
            == 5 && "COMP"@.len() == 4 && "BC"@.len() == 2 && "READ"@.len() == 4
            && "PRINT"@.len() == 5 && "DS"@.len() == 2 && "DC"@.len() == 2);
        assert("END"@[0] == 'E' && "ADD"@[0] == 'A' && "SUB"@[0] == 'S' && "MUL"@[0] == 'M'
            && "DIV"@[0] == 'D');
        assert(spec_opcode(parts.1) is None);
    }
}

/// Where a name is bound: the first entry of that name exists, is
/// defined, and carries `addr`.
pub open spec fn binds_at(syms: Seq<SymModel>, name: Seq<char>, addr: usize) -> bool {
    let i = sym_index(syms, name);
    i >= 0 && syms[i].defined && syms[i].address == addr
}

/// Binding a label binds its name to the current location counter.
proof fn lemma_binds_after_bind_label(st: AsmModel, name: Seq<char>)
    ensures
        binds_at(bind_label_state(st, name).symbols, name, st.lc),
{
    let i = sym_index(st.symbols, name);
    lemma_sym_index_from_spec(st.symbols, name, 0);
    if i >= 0 {
        let s2 = bind_label_state(st, name).symbols;
        lemma_sym_index_from_same_names(st.symbols, s2, name, 0);
    } else {
        let s2 = bind_label_state(st, name).symbols;
        lemma_sym_index_from_spec(s2, name, 0);
        assert(s2[s2.len() - 1].name == name);
    }
}

/// An operand reference never disturbs an existing binding, whichever
/// name it references.
proof fn lemma_ref_preserves_binding(
    st: AsmModel,
    other: Seq<char>,
    name: Seq<char>,
    addr: usize,
)
    requires
        binds_at(st.symbols, name, addr),
    ensures
        binds_at(ref_sym_state(st, other).symbols, name, addr),
{
    let i = sym_index(st.symbols, name);
    let j = sym_index(st.symbols, other);
    lemma_sym_index_from_spec(st.symbols, name, 0);
    lemma_sym_index_from_spec(st.symbols, other, 0);
    let s2 = ref_sym_state(st, other).symbols;
    if j >= 0 {
        lemma_sym_index_from_same_names(st.symbols, s2, name, 0);
    } else {
        lemma_sym_index_from_push(
            st.symbols,
            SymModel { name: other, address: 0, defined: false, used: true },
            name,
            0,
        );
    }
}

/// Label-before-effect ordering: a label on a line — in particular on a
/// DS/DC line — binds to the location-counter value *preceding* that
/// line's reservation or emission, and the rest of the line never moves
/// that binding.
pub proof fn lemma_label_before_effect(st: AsmModel, toks: Seq<Seq<char>>, ln: usize)
    requires
        toks.len() > 0,
        crate::assembler::model::is_label_token(toks[0]),
    ensures
        binds_at(line_step(st, toks, ln).symbols, toks[0].drop_last(), st.lc),
{
    let name = toks[0].drop_last();
    let parts = line_parts(toks);
    let st1 = bind_label_state(st, name);
    lemma_binds_after_bind_label(st, name);
    let se = start_end_step(st1, parts.1, toks, parts.2, ln);
    if !se.1 {
        match spec_opcode(parts.1) {
            Some(code) => {
                let kk = parts.2;
                if code == 1 || code == 2 || code == 3 || code == 8 || code == 4 || code == 5
                    || code == 6 {
                    if kk < toks.len() && spec_register(toks[kk]) is Some && kk + 1 < toks.len()
                        && !parses_as_usize(toks[kk + 1]) {
                        lemma_ref_preserves_binding(st1, toks[kk + 1], name, st.lc);
                    }
                } else if code == 9 || code == 10 {
                    if kk < toks.len() {
                        lemma_ref_preserves_binding(st1, toks[kk], name, st.lc);
                    }
                } else if code == 7 {
                    if kk < toks.len() && kk + 1 < toks.len() {
                        lemma_ref_preserves_binding(st1, toks[kk + 1], name, st.lc);
                    }
                }
            },
            None => {},
        }
    }
}

/// No two table entries share a name.
pub open spec fn unique_symbol_names(syms: Seq<SymModel>) -> bool {
    forall|i: int, j: int| 0 <= i < j < syms.len() ==> syms[i].name != syms[j].name
}

proof fn lemma_ref_sym_preserves_unique(st: AsmModel, name: Seq<char>)
    requires
        unique_symbol_names(st.symbols),
    ensures
        unique_symbol_names(ref_sym_state(st, name).symbols),
{
    let i = sym_index(st.symbols, name);
    lemma_sym_index_from_spec(st.symbols, name, 0);
    if i < 0 {
        let s2 = ref_sym_state(st, name).symbols;
        assert forall|p: int, q: int| 0 <= p < q < s2.len() implies s2[p].name != s2[q].name by {
            if q == s2.len() - 1 {
                assert(s2[p].name == st.symbols[p].name);
            }
        }
    }
}

proof fn lemma_bind_label_preserves_unique(st: AsmModel, name: Seq<char>)
    requires
        unique_symbol_names(st.symbols),
    ensures
        unique_symbol_names(bind_label_state(st, name).symbols),
{
    let i = sym_index(st.symbols, name);
    lemma_sym_index_from_spec(st.symbols, name, 0);
    if i >= 0 {
        let s2 = bind_label_state(st, name).symbols;
        assert forall|p: int, q: int| 0 <= p < q < s2.len() implies s2[p].name != s2[q].name by {
            assert(s2[p].name == st.symbols[p].name);
            assert(s2[q].name == st.symbols[q].name);
        }
    } else {
        let s2 = bind_label_state(st, name).symbols;
        assert forall|p: int, q: int| 0 <= p < q < s2.len() implies s2[p].name != s2[q].name by {
            if q == s2.len() - 1 {
                assert(s2[p].name == st.symbols[p].name);
            }
        }
    }
}

/// One line of the pass keeps the names unique.
pub proof fn lemma_line_step_preserves_unique(st: AsmModel, toks: Seq<Seq<char>>, ln: usize)
    requires
        unique_symbol_names(st.symbols),
    ensures
        unique_symbol_names(line_step(st, toks, ln).symbols),
{
    let parts = line_parts(toks);
    let st1 = match parts.0 {
        Some(nm) => bind_label_state(st, nm),
        None => st,
    };
    if parts.0 is Some {
        lemma_bind_label_preserves_unique(st, parts.0->0);
    }
    let se = start_end_step(st1, parts.1, toks, parts.2, ln);
    if !se.1 {
        match spec_opcode(parts.1) {
            Some(code) => {
                let kk = parts.2;
                if code == 1 || code == 2 || code == 3 || code == 8 || code == 4 || code == 5
                    || code == 6 {
                    if kk < toks.len() && spec_register(toks[kk]) is Some && kk + 1 < toks.len()
                        && !parses_as_usize(toks[kk + 1]) {
                        lemma_ref_sym_preserves_unique(st1, toks[kk + 1]);
                    }
                } else if code == 9 || code == 10 {
                    if kk < toks.len() {
                        lemma_ref_sym_preserves_unique(st1, toks[kk]);
                    }
                } else if code == 7 {
                    if kk < toks.len() && kk + 1 < toks.len() {
                        lemma_ref_sym_preserves_unique(st1, toks[kk + 1]);
                    }
                }
            },
            None => {},
        }
    }
}

/// A whole pass keeps the symbol-table names unique: starting from a
/// table with no duplicate names (the empty table included), no line
/// sequence ever produces one.
pub proof fn lemma_pass_preserves_unique(st: AsmModel, lines: Seq<Seq<char>>, n: int)
    requires
        unique_symbol_names(st.symbols),
        0 <= n <= lines.len(),
    ensures
        unique_symbol_names(run_lines(st, lines, n).symbols),
    decreases n,
{
    if n > 0 {
        lemma_pass_preserves_unique(st, lines, n - 1);
        lemma_line_step_preserves_unique(
            run_lines(st, lines, n - 1),
            tokens(lines[n - 1]),
            (n - 1) as usize,
        );
    }
}

} // verus!
