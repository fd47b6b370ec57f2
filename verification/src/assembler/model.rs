//! The mathematical model of one assembly pass: the symbol table, the
//! intermediate-code stream, the diagnostic list and the location counter,
//! together with the transition functions that a pass applies to them line
//! by line. The executable assembler is specified, method for method,
//! against these functions.

use vstd::prelude::*;
use crate::text::{tokens, parses_as_usize, digits_value};
use crate::assembler::ValueKind;
use crate::assembler::catalog::{spec_opcode, spec_register, spec_condition};

verus! {

/// One symbol-table entry: a name, the address it is bound to (0 is the
/// placeholder of a never-bound symbol), and its defined/used flags.
#[verifier::ext_equal]
pub ghost struct SymModel {
    pub name: Seq<char>,
    pub address: usize,
    pub defined: bool,
    pub used: bool,
}

/// One intermediate-code record.
#[verifier::ext_equal]
pub ghost struct RecModel {
    pub address: usize,
    pub opcode: usize,
    pub reg: Option<usize>,
    pub kind: ValueKind,
    pub value: usize,
}

/// The kinds of diagnostic a pass can accumulate.
#[verifier::ext_equal]
pub ghost enum DiagKind {
    InvalidValue,
    UnknownMnemonic,
    InvalidOperand,
    MissingLabel,
    MissingConditionCode,
    UndefinedSymbol(Seq<char>),
}

/// One diagnostic, keyed by the 0-based source line it arose on
/// (line 0 also collects the end-of-pass undefined-symbol sweep).
#[verifier::ext_equal]
pub ghost struct DiagModel {
    pub line_number: usize,
    pub kind: DiagKind,
}

/// The whole pass state.
#[verifier::ext_equal]
pub ghost struct AsmModel {
    pub symbols: Seq<SymModel>,
    pub code: Seq<RecModel>,
    pub diags: Seq<DiagModel>,
    pub lc: usize,
}

/// The empty state a fresh assembler starts from.
pub open spec fn init_model() -> AsmModel {
    AsmModel {
        symbols: Seq::<SymModel>::empty(),
        code: Seq::<RecModel>::empty(),
        diags: Seq::<DiagModel>::empty(),
        lc: 0,
    }
}

/// First index at or after `i` whose entry is named `name`, or -1.
pub open spec fn sym_index_from(syms: Seq<SymModel>, name: Seq<char>, i: int) -> int
    decreases syms.len() - i,
{
    if i < 0 || i >= syms.len() {
        -1
    } else if syms[i].name == name {
        i
    } else {
        sym_index_from(syms, name, i + 1)
    }
}

/// First index of `name` in the table, or -1 when absent.
pub open spec fn sym_index(syms: Seq<SymModel>, name: Seq<char>) -> int {
    sym_index_from(syms, name, 0)
}

/// State after an operand reference to `name`: an existing entry is marked
/// used; a new entry is appended with the address-0 placeholder.
pub open spec fn ref_sym_state(st: AsmModel, name: Seq<char>) -> AsmModel {
    let i = sym_index(st.symbols, name);
    if i >= 0 {
        AsmModel {
            symbols: st.symbols.update(i, SymModel { used: true, ..st.symbols[i] }),
            ..st
        }
    } else {
        AsmModel {
            symbols: st.symbols.push(
                SymModel { name, address: 0, defined: false, used: true },
            ),
            ..st
        }
    }
}

/// The value an operand reference to `name` yields: the current `address`
/// field of an existing entry (a real address only if already defined),
/// or the table index a new entry is inserted at.
pub open spec fn ref_sym_value(st: AsmModel, name: Seq<char>) -> usize {
    let i = sym_index(st.symbols, name);
    if i >= 0 {
        st.symbols[i].address
    } else {
        st.symbols.len() as usize
    }
}

/// State after a label occurrence of `name`: the entry is bound to the
/// current location counter and marked defined (re-binding overwrites
/// silently), or appended if new.
pub open spec fn bind_label_state(st: AsmModel, name: Seq<char>) -> AsmModel {
    let i = sym_index(st.symbols, name);
    if i >= 0 {
        AsmModel {
            symbols: st.symbols.update(
                i,
                SymModel { address: st.lc, defined: true, ..st.symbols[i] },
            ),
            ..st
        }
    } else {
        AsmModel {
            symbols: st.symbols.push(
                SymModel { name, address: st.lc, defined: true, used: false },
            ),
            ..st
        }
    }
}

/// Location-counter advance; saturates at the machine bound, which no
/// realistic program reaches.
pub open spec fn advance(lc: usize, k: int) -> usize {
    if lc + k <= usize::MAX {
        (lc + k) as usize
    } else {
        usize::MAX
    }
}

/// Appends one record stamped with the current location counter, then
/// advances the counter by 1.
pub open spec fn emit(
    st: AsmModel,
    opcode: usize,
    reg: Option<usize>,
    kind: ValueKind,
    value: usize,
) -> AsmModel {
    AsmModel {
        code: st.code.push(RecModel { address: st.lc, opcode, reg, kind, value }),
        lc: advance(st.lc, 1),
        ..st
    }
}

/// Appends one diagnostic.
pub open spec fn diag(st: AsmModel, line_number: usize, kind: DiagKind) -> AsmModel {
    AsmModel { diags: st.diags.push(DiagModel { line_number, kind }), ..st }
}

/// Operand parsing for the two-operand register instructions, over the
/// tokens of the line from index `k` on: the new state, the register code,
/// and the kind and value of the second operand. An unknown register name
/// yields a diagnostic and the degraded empty operand; a second token is a
/// constant when it reads as a decimal literal and a symbol reference
/// otherwise.
pub open spec fn operands_result(st: AsmModel, toks: Seq<Seq<char>>, k: int, ln: usize) -> (
    AsmModel,
    Option<usize>,
    ValueKind,
    usize,
) {
    if k >= toks.len() {
        (st, None::<usize>, ValueKind::Symbol, 0usize)
    } else {
        match spec_register(toks[k]) {
            None => (diag(st, ln, DiagKind::InvalidValue), None::<usize>, ValueKind::Symbol, 0usize),
            Some(rc) => {
                if k + 1 >= toks.len() {
                    (st, Some(rc), ValueKind::Symbol, 0usize)
                } else if parses_as_usize(toks[k + 1]) {
                    (st, Some(rc), ValueKind::Constant, digits_value(toks[k + 1]) as usize)
                } else {
                    (
                        ref_sym_state(st, toks[k + 1]),
                        Some(rc),
                        ValueKind::Symbol,
                        ref_sym_value(st, toks[k + 1]),
                    )
                }
            },
        }
    }
}

/// The DS directive: reserve space by advancing the location counter; a
/// missing count is ignored, a malformed one is a diagnostic.
pub open spec fn ds_step(st: AsmModel, toks: Seq<Seq<char>>, k: int, ln: usize) -> AsmModel {
    if k >= toks.len() {
        st
    } else if parses_as_usize(toks[k]) {
        AsmModel { lc: advance(st.lc, digits_value(toks[k])), ..st }
    } else {
        diag(st, ln, DiagKind::InvalidOperand)
    }
}

/// The DC directive: emit one constant record; a missing or malformed
/// value is a diagnostic.
pub open spec fn dc_step(st: AsmModel, toks: Seq<Seq<char>>, k: int, ln: usize) -> AsmModel {
    if k >= toks.len() {
        diag(st, ln, DiagKind::InvalidOperand)
    } else if parses_as_usize(toks[k]) {
        emit(st, 12, None::<usize>, ValueKind::Constant, digits_value(toks[k]) as usize)
    } else {
        diag(st, ln, DiagKind::InvalidOperand)
    }
}

/// Dispatch on an opcode code from the catalog, with `k` the index of the
/// first operand token.
pub open spec fn opcode_step(
    st: AsmModel,
    code: usize,
    toks: Seq<Seq<char>>,
    k: int,
    ln: usize,
) -> AsmModel {
    if code == 0 {
        emit(st, 0, None::<usize>, ValueKind::Constant, 0)
    } else if code == 1 || code == 2 || code == 3 || code == 8 || code == 4 || code == 5 || code
        == 6 {
        let r = operands_result(st, toks, k, ln);
        emit(r.0, code, r.1, r.2, r.3)
    } else if code == 9 || code == 10 {
        if k < toks.len() {
            let v = ref_sym_value(st, toks[k]);
            emit(ref_sym_state(st, toks[k]), code, None::<usize>, ValueKind::Symbol, v)
        } else {
            st
        }
    } else if code == 7 {
        if k < toks.len() {
            let cc = spec_condition(toks[k]);
            if k + 1 < toks.len() {
                let v = ref_sym_value(st, toks[k + 1]);
                emit(ref_sym_state(st, toks[k + 1]), 7, cc, ValueKind::Symbol, v)
            } else {
                diag(st, ln, DiagKind::MissingLabel)
            }
        } else {
            diag(st, ln, DiagKind::MissingConditionCode)
        }
    } else if code == 11 {
        ds_step(st, toks, k, ln)
    } else if code == 12 {
        dc_step(st, toks, k, ln)
    } else {
        st
    }
}

/// A token is a label when it ends with the colon terminator.
pub open spec fn is_label_token(t: Seq<char>) -> bool {
    t.len() > 0 && t.last() == ':'
}

/// Splits a tokenized line into its optional label (colon stripped), its
/// mnemonic (empty when absent), and the index of its first operand token.
pub open spec fn line_parts(toks: Seq<Seq<char>>) -> (Option<Seq<char>>, Seq<char>, int) {
    if toks.len() == 0 {
        (None::<Seq<char>>, Seq::<char>::empty(), 1int)
    } else if is_label_token(toks[0]) {
        (
            Some(toks[0].drop_last()),
            if toks.len() >= 2 {
                toks[1]
            } else {
                Seq::<char>::empty()
            },
            2int,
        )
    } else {
        (None::<Seq<char>>, toks[0], 1int)
    }
}

/// The START/END pseudo-directives, intercepted before catalog dispatch.
/// The second component says whether the mnemonic was one of the two.
/// START sets the location counter absolutely; a malformed address is a
/// diagnostic, a missing one is ignored. END is a no-op marker.
pub open spec fn start_end_step(
    st: AsmModel,
    mnemonic: Seq<char>,
    toks: Seq<Seq<char>>,
    k: int,
    ln: usize,
) -> (AsmModel, bool) {
    if mnemonic == "START"@ {
        if k < toks.len() {
            if parses_as_usize(toks[k]) {
                (AsmModel { lc: digits_value(toks[k]) as usize, ..st }, true)
            } else {
                (diag(st, ln, DiagKind::InvalidOperand), true)
            }
        } else {
            (st, true)
        }
    } else if mnemonic == "END"@ {
        (st, true)
    } else {
        (st, false)
    }
}

/// One full line: bind the label, if any, before every other effect of
/// the line; then START/END handling, catalog dispatch, or an
/// unknown-mnemonic diagnostic.
pub open spec fn line_step(st: AsmModel, toks: Seq<Seq<char>>, ln: usize) -> AsmModel {
    let parts = line_parts(toks);
    let st1 = match parts.0 {
        Some(name) => bind_label_state(st, name),
        None => st,
    };
    let se = start_end_step(st1, parts.1, toks, parts.2, ln);
    if se.1 {
        se.0
    } else {
        match spec_opcode(parts.1) {
            Some(code) => opcode_step(st1, code, toks, parts.2, ln),
            None => diag(st1, ln, DiagKind::UnknownMnemonic),
        }
    }
}

/// The first `n` lines of the pass, left to right.
pub open spec fn run_lines(st: AsmModel, lines: Seq<Seq<char>>, n: int) -> AsmModel
    decreases n,
{
    if n <= 0 {
        st
    } else {
        line_step(run_lines(st, lines, n - 1), tokens(lines[n - 1]), (n - 1) as usize)
    }
}

/// The diagnostics of the end-of-pass sweep: one `UndefinedSymbol` per
/// used-but-never-defined entry, in table order, at line number 0.
pub open spec fn sweep_diags(syms: Seq<SymModel>) -> Seq<DiagModel>
    decreases syms.len(),
{
    if syms.len() == 0 {
        Seq::<DiagModel>::empty()
    } else {
        let rest = sweep_diags(syms.drop_last());
        let s = syms.last();
        if s.used && !s.defined {
            rest.push(DiagModel { line_number: 0, kind: DiagKind::UndefinedSymbol(s.name) })
        } else {
            rest
        }
    }
}

/// The end-of-pass undefined-symbol sweep.
pub open spec fn sweep(st: AsmModel) -> AsmModel {
    AsmModel { diags: st.diags + sweep_diags(st.symbols), ..st }
}

/// A whole pass over `lines`, starting from state `st`.
pub open spec fn assemble(st: AsmModel, lines: Seq<Seq<char>>) -> AsmModel {
    sweep(run_lines(st, lines, lines.len() as int))
}

} // verus!
