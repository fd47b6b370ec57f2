//! The assembler front end: a single error-tolerant pass that resolves
//! labels, validates mnemonics and operands against the fixed catalogs,
//! and produces an intermediate-code stream, a symbol table and a
//! diagnostic list. Every method is specified against the transition
//! functions of [`model`].

pub mod catalog;
pub mod laws;
pub mod model;

use vstd::prelude::*;
use vstd::string::*;
use crate::text::{tokenize, parse_usize, str_eq, views_of};
use crate::assembler::catalog::{opcode_lookup, register_lookup, condition_lookup};
use crate::assembler::model::{
    AsmModel, DiagKind, DiagModel, RecModel, SymModel, assemble, bind_label_state, dc_step,
    diag, ds_step, emit, init_model, line_parts, line_step, opcode_step, operands_result,
    ref_sym_state, ref_sym_value, run_lines, start_end_step, sweep, sweep_diags, sym_index,
    sym_index_from,
};

verus! {

/// A symbol-table entry.
#[derive(Debug)]
pub struct Symbol {
    pub name: String,
    pub address: usize,
    pub defined: bool,
    pub used: bool,
}

impl View for Symbol {
    type V = SymModel;

    open spec fn view(&self) -> SymModel {
        SymModel {
            name: self.name@,
            address: self.address,
            defined: self.defined,
            used: self.used,
        }
    }
}

/// Whether a record's `value` field came from a constant literal or from
/// a symbol reference.
#[derive(Clone, Copy, Debug, PartialEq, Eq, Structural)]
pub enum ValueKind {
    Symbol,
    Constant,
}

/// One intermediate-code record, stamped with the location-counter value
/// at the time of emission.
#[derive(Debug)]
pub struct IntermediateCode {
    pub address: usize,
    pub opcode: usize,
    pub reg: Option<usize>,
    pub kind: ValueKind,
    pub value: usize,
}

impl View for IntermediateCode {
    type V = RecModel;

    open spec fn view(&self) -> RecModel {
        RecModel {
            address: self.address,
            opcode: self.opcode,
            reg: self.reg,
            kind: self.kind,
            value: self.value,
        }
    }
}

/// The kinds of diagnostic the pass accumulates.
#[derive(Debug)]
pub enum ErrorType {
    InvalidValue,
    UnknownMnemonic,
    InvalidOperand,
    MissingLabel,
    MissingConditionCode,
    UndefinedSymbol(String),
}

impl View for ErrorType {
    type V = DiagKind;

    open spec fn view(&self) -> DiagKind {
        match self {
            ErrorType::InvalidValue => DiagKind::InvalidValue,
            ErrorType::UnknownMnemonic => DiagKind::UnknownMnemonic,
            ErrorType::InvalidOperand => DiagKind::InvalidOperand,
            ErrorType::MissingLabel => DiagKind::MissingLabel,
            ErrorType::MissingConditionCode => DiagKind::MissingConditionCode,
            ErrorType::UndefinedSymbol(name) => DiagKind::UndefinedSymbol(name@),
        }
    }
}

/// One diagnostic, keyed by the 0-based line number it arose on.
#[derive(Debug)]
pub struct Error {
    pub line_number: usize,
    pub error_type: ErrorType,
}

impl View for Error {
    type V = DiagModel;

    open spec fn view(&self) -> DiagModel {
        DiagModel { line_number: self.line_number, kind: self.error_type@ }
    }
}

/// The assembler: the three result tables and the location counter.
pub struct Assembler {
    pub symbol_table: Vec<Symbol>,
    pub intermediate_code_table: Vec<IntermediateCode>,
    pub error_table: Vec<Error>,
    location_counter: usize,
}

impl View for Assembler {
    type V = AsmModel;

    closed spec fn view(&self) -> AsmModel {
        AsmModel {
            symbols: self.symbol_table@.map_values(|s: Symbol| s@),
            code: self.intermediate_code_table@.map_values(|r: IntermediateCode| r@),
            diags: self.error_table@.map_values(|e: Error| e@),
            lc: self.location_counter,
        }
    }
}

impl Assembler {
    /// A fresh assembler: empty tables, location counter 0.
    pub fn new() -> (a: Self)
        ensures
            a@ == init_model(),
    {
        let a = Self {
            symbol_table: Vec::new(),
            intermediate_code_table: Vec::new(),
            error_table: Vec::new(),
            location_counter: 0,
        };
        proof {
            assert(a@ =~~= init_model());
        }
        a
    }

    /// First table index holding `name`, if any.
    fn find_symbol(&self, name: &String) -> (r: Option<usize>)
        ensures
            match r {
                Some(i) => i == sym_index(self@.symbols, name@) && i < self.symbol_table@.len(),
                None => sym_index(self@.symbols, name@) == -1,
            },
    {
        let n = self.symbol_table.len();
        let mut j: usize = 0;
        while j < n
            invariant
                j <= n,
                n == self.symbol_table@.len(),
                sym_index(self@.symbols, name@) == sym_index_from(self@.symbols, name@, j as int),
            decreases n - j,
        {
            if self.symbol_table[j].name == *name {
                assert(self@.symbols[j as int].name == name@);
                return Some(j);
            }
            assert(self@.symbols[j as int].name != name@);
            j += 1;
        }
        None
    }

    /// Records an operand reference to `name`: marks an
    /// existing entry used and returns its current address field, or
    /// inserts a placeholder entry and returns its table index.
    fn add_symbol(&mut self, name: String) -> (idx: usize)
        ensures
            final(self)@ == ref_sym_state(old(self)@, name@),
            idx == ref_sym_value(old(self)@, name@),
    {
        let found = self.find_symbol(&name);
        match found {
            Some(i) => {
                let addr = self.symbol_table[i].address;
                let updated = Symbol {
                    name: self.symbol_table[i].name.clone(),
                    address: addr,
                    defined: self.symbol_table[i].defined,
                    used: true,
                };
                self.symbol_table[i] = updated;
                proof {
                    let m0 = old(self)@;
                    assert(self@.symbols =~= m0.symbols.update(
                        i as int,
                        SymModel { used: true, ..m0.symbols[i as int] },
                    ));
                    assert(self@ =~~= ref_sym_state(m0, name@));
                }
                addr
            },
            None => {
                let idx = self.symbol_table.len();
                self.symbol_table.push(
                    Symbol { name, address: 0, defined: false, used: true },
                );
                proof {
                    let m0 = old(self)@;
                    assert(self@.symbols =~= m0.symbols.push(
                        SymModel {
                            name: self.symbol_table@.last()@.name,
                            address: 0,
                            defined: false,
                            used: true,
                        },
                    ));
                    assert(self@ =~~= ref_sym_state(m0, self.symbol_table@.last()@.name));
                }
                idx
            },
        }
    }

    /// Binds `name` as a label at the current location counter: an
    /// existing entry is overwritten (silently, also when already
    /// defined), a new one inserted. Returns the bound address.
    fn add_symbol_as_label(&mut self, name: String) -> (addr: usize)
        ensures
            final(self)@ == bind_label_state(old(self)@, name@),
            addr == old(self)@.lc,
    {
        let found = self.find_symbol(&name);
        let address = self.location_counter;
        match found {
            Some(i) => {
                let updated = Symbol {
                    name: self.symbol_table[i].name.clone(),
                    address,
                    defined: true,
                    used: self.symbol_table[i].used,
                };
                self.symbol_table[i] = updated;
                proof {
                    let m0 = old(self)@;
                    assert(self@.symbols =~= m0.symbols.update(
                        i as int,
                        SymModel { address: m0.lc, defined: true, ..m0.symbols[i as int] },
                    ));
                    assert(self@ =~~= bind_label_state(m0, name@));
                }
                address
            },
            None => {
                self.symbol_table.push(
                    Symbol { name, address, defined: true, used: false },
                );
                proof {
                    let m0 = old(self)@;
                    assert(self@.symbols =~= m0.symbols.push(
                        SymModel {
                            name: self.symbol_table@.last()@.name,
                            address: m0.lc,
                            defined: true,
                            used: false,
                        },
                    ));
                    assert(self@ =~~= bind_label_state(m0, self.symbol_table@.last()@.name));
                }
                address
            },
        }
    }

    /// Appends one record stamped with the current location counter,
    /// then advances the counter.
    fn generate_intermediate_code(
        &mut self,
        opcode: usize,
        reg: Option<usize>,
        kind: ValueKind,
        value: usize,
    )
        ensures
            final(self)@ == emit(old(self)@, opcode, reg, kind, value),
    {
        let address = self.location_counter;
        self.intermediate_code_table.push(
            IntermediateCode { address, opcode, reg, kind, value },
        );
        if self.location_counter < usize::MAX {
            self.location_counter = self.location_counter + 1;
        }
        proof {
            let m0 = old(self)@;
            assert(self@.code =~= m0.code.push(
                RecModel { address: m0.lc, opcode, reg, kind, value },
            ));
            assert(self@ =~~= emit(m0, opcode, reg, kind, value));
        }
    }

    /// The end-of-pass sweep: one `UndefinedSymbol` diagnostic per
    /// used-but-never-defined entry, in table order, at line number 0.
    fn check_undefined_symbols(&mut self)
        ensures
            final(self)@ == sweep(old(self)@),
    {
        let ghost m0 = old(self)@;
        let n = self.symbol_table.len();
        let mut j: usize = 0;
        assert(m0.diags + sweep_diags(m0.symbols.take(0)) =~= m0.diags);
        while j < n
            invariant
                j <= n,
                n == self.symbol_table@.len(),
                self@.symbols == m0.symbols,
                self@.code == m0.code,
                self@.lc == m0.lc,
                self@.diags == m0.diags + sweep_diags(m0.symbols.take(j as int)),
            decreases n - j,
        {
            assert(m0.symbols.take(j + 1).drop_last() =~= m0.symbols.take(j as int));
            assert(m0.symbols.take(j + 1).last() == m0.symbols[j as int]);
            if self.symbol_table[j].used && !self.symbol_table[j].defined {
                let nm = self.symbol_table[j].name.clone();
                let ghost pre = self@.diags;
                self.error_table.push(
                    Error { line_number: 0, error_type: ErrorType::UndefinedSymbol(nm) },
                );
                proof {
                    assert(nm@ == m0.symbols[j as int].name);
                    let d = DiagModel {
                        line_number: 0,
                        kind: DiagKind::UndefinedSymbol(nm@),
                    };
                    assert(self@.diags =~= pre.push(d));
                    assert(sweep_diags(m0.symbols.take(j + 1)) == sweep_diags(
                        m0.symbols.take(j as int),
                    ).push(d));
                    assert(m0.diags + sweep_diags(m0.symbols.take(j as int)).push(d) =~= (
                    m0.diags + sweep_diags(m0.symbols.take(j as int))).push(d));
                }
            }
            j += 1;
        }
        proof {
            assert(m0.symbols.take(n as int) =~= m0.symbols);
            assert(self@ =~~= sweep(m0));
        }
    }

    /// Pushes one diagnostic.
    fn push_error(&mut self, line_number: usize, error_type: ErrorType)
        ensures
            final(self)@ == diag(old(self)@, line_number, error_type@),
    {
        let ghost k = error_type@;
        self.error_table.push(Error { line_number, error_type });
        proof {
            assert(self@.diags =~= old(self)@.diags.push(
                DiagModel { line_number, kind: k },
            ));
            assert(self@ =~~= diag(old(self)@, line_number, k));
        }
    }

    /// The DS directive: advance the location counter by the reserved
    /// count; nothing is emitted.
    fn process_ds(&mut self, toks: &Vec<String>, k: usize, line_number: usize)
        ensures
            final(self)@ == ds_step(old(self)@, views_of(toks@), k as int, line_number),
    {
        if k < toks.len() {
            match parse_usize(toks[k].as_str()) {
                Some(size) => {
                    if size <= usize::MAX - self.location_counter {
                        self.location_counter = self.location_counter + size;
                    } else {
                        self.location_counter = usize::MAX;
                    }
                    proof {
                        assert(self@ =~~= ds_step(
                            old(self)@,
                            views_of(toks@),
                            k as int,
                            line_number,
                        ));
                    }
                },
                None => {
                    self.push_error(line_number, ErrorType::InvalidOperand);
                },
            }
        }
    }

    /// The DC directive: emit one constant record at the current
    /// location counter.
    fn process_dc(&mut self, toks: &Vec<String>, k: usize, line_number: usize)
        ensures
            final(self)@ == dc_step(old(self)@, views_of(toks@), k as int, line_number),
    {
        if k < toks.len() {
            match parse_usize(toks[k].as_str()) {
                Some(value) => {
                    self.generate_intermediate_code(12, None, ValueKind::Constant, value);
                },
                None => {
                    self.push_error(line_number, ErrorType::InvalidOperand);
                },
            }
        } else {
            self.push_error(line_number, ErrorType::InvalidOperand);
        }
    }

    /// Intercepts the START/END pseudo-directives before catalog
    /// dispatch; returns whether the mnemonic was one of the two.
    fn handle_start_and_end(
        &mut self,
        mnemonic: &str,
        toks: &Vec<String>,
        k: usize,
        line_number: usize,
    ) -> (handled: bool)
        ensures
            ({
                let r = start_end_step(old(self)@, mnemonic@, views_of(toks@), k as int, line_number);
                final(self)@ == r.0 && handled == r.1
            }),
    {
        if str_eq(mnemonic, "START") {
            if k < toks.len() {
                match parse_usize(toks[k].as_str()) {
                    Some(addr) => {
                        self.location_counter = addr;
                        proof {
                            assert(self@ =~~= start_end_step(
                                old(self)@,
                                mnemonic@,
                                views_of(toks@),
                                k as int,
                                line_number,
                            ).0);
                        }
                    },
                    None => {
                        self.push_error(line_number, ErrorType::InvalidOperand);
                    },
                }
            }
            true
        } else if str_eq(mnemonic, "END") {
            true
        } else {
            false
        }
    }

    /// Operand parsing for the two-operand register instructions: an
    /// optional register token, then an optional constant-or-symbol
    /// token. An unknown register name yields a diagnostic and the
    /// degraded empty operand; the caller still emits a record.
    fn process_operands(&mut self, toks: &Vec<String>, k: usize, line_number: usize) -> (r: (
        Option<usize>,
        ValueKind,
        usize,
    ))
        ensures
            ({
                let s = operands_result(old(self)@, views_of(toks@), k as int, line_number);
                final(self)@ == s.0 && r.0 == s.1 && r.1 == s.2 && r.2 == s.3
            }),
    {
        if k >= toks.len() {
            return (None, ValueKind::Symbol, 0);
        }
        match register_lookup(toks[k].as_str()) {
            None => {
                self.push_error(line_number, ErrorType::InvalidValue);
                (None, ValueKind::Symbol, 0)
            },
            Some(reg_code) => {
                if k + 1 >= toks.len() {
                    return (Some(reg_code), ValueKind::Symbol, 0);
                }
                match parse_usize(toks[k + 1].as_str()) {
                    Some(constant_value) => (Some(reg_code), ValueKind::Constant, constant_value),
                    None => {
                        let value = self.add_symbol(toks[k + 1].clone());
                        (Some(reg_code), ValueKind::Symbol, value)
                    },
                }
            },
        }
    }

    /// Dispatch on an opcode code from the catalog, with `k` the index
    /// of the line's first operand token.
    fn process_opcode(&mut self, opcode_code: usize, toks: &Vec<String>, k: usize, line_number: usize)
        ensures
            final(self)@ == opcode_step(
                old(self)@,
                opcode_code,
                views_of(toks@),
                k as int,
                line_number,
            ),
    {
        match opcode_code {
            0 => self.generate_intermediate_code(0, None, ValueKind::Constant, 0),
            1 | 2 | 3 | 8 | 4 | 5 | 6 => {
                let operands = self.process_operands(toks, k, line_number);
                self.generate_intermediate_code(opcode_code, operands.0, operands.1, operands.2);
            },
            9 | 10 => {
                if k < toks.len() {
                    let value = self.add_symbol(toks[k].clone());
                    self.generate_intermediate_code(opcode_code, None, ValueKind::Symbol, value);
                }
            },
            7 => {
                if k < toks.len() {
                    let cond_code = condition_lookup(toks[k].as_str());
                    if k + 1 < toks.len() {
                        let value = self.add_symbol(toks[k + 1].clone());
                        self.generate_intermediate_code(7, cond_code, ValueKind::Symbol, value);
                    } else {
                        self.push_error(line_number, ErrorType::MissingLabel);
                    }
                } else {
                    self.push_error(line_number, ErrorType::MissingConditionCode);
                }
            },
            11 => self.process_ds(toks, k, line_number),
            12 => self.process_dc(toks, k, line_number),
            _ => {},
        }
    }

    /// The single left-to-right pass: tokenize each line, bind its label
    /// (if any) before every other effect, handle START/END, dispatch on
    /// the mnemonic or record an unknown-mnemonic diagnostic, and run
    /// the undefined-symbol sweep at the end. Diagnostics never abort
    /// the pass.
    pub fn pass1(&mut self, source_lines: &[String])
        ensures
            final(self)@ == assemble(old(self)@, views_of(source_lines@)),
    {
        let ghost all = views_of(source_lines@);
        proof {
            reveal_strlit("");
            assert(""@ =~= Seq::<char>::empty());
        }
        let n = source_lines.len();
        let mut i: usize = 0;
        while i < n
            invariant
                i <= n,
                n == source_lines@.len(),
                all == views_of(source_lines@),
                self@ == run_lines(old(self)@, all, i as int),
            decreases n - i,
        {
            let line: &String = &source_lines[i];
            let toks = tokenize(line.as_str());
            let ghost tv = views_of(toks@);
            proof {
                reveal_strlit("");
                assert(""@ =~= Seq::<char>::empty());
                assert(all[i as int] == line@);
                assert(tv == crate::text::tokens(line@));
            }
            let ghost st0 = self@;
            let ghost parts = line_parts(tv);

            let mut k: usize = 1;
            let mut mnemonic: &str = "";
            let mut label: Option<String> = None;
            if toks.len() > 0 {
                let t0 = toks[0].as_str();
                let t0_len = t0.unicode_len();
                proof {
                    assert(toks@[0]@.len() > 0);
                    assert(t0@ == tv[0]);
                }
                if t0.get_char(t0_len - 1) == ':' {
                    let stripped = t0.substring_char(0, t0_len - 1);
                    proof {
                        assert(stripped@ =~= tv[0].drop_last());
                    }
                    label = Some(String::from_str(stripped));
                    if toks.len() >= 2 {
                        mnemonic = toks[1].as_str();
                    }
                    k = 2;
                } else {
                    mnemonic = t0;
                    k = 1;
                }
            }
            proof {
                assert(mnemonic@ == parts.1);
                assert(k as int == parts.2);
            }

            if let Some(label_name) = label {
                let _ = self.add_symbol_as_label(label_name);
            }
            let ghost st1 = self@;
            proof {
                assert(st1 == match parts.0 {
                    Some(nm) => bind_label_state(st0, nm),
                    None => st0,
                });
            }

            if !self.handle_start_and_end(mnemonic, &toks, k, i) {
                match opcode_lookup(mnemonic) {
                    Some(code) => self.process_opcode(code, &toks, k, i),
                    None => self.push_error(i, ErrorType::UnknownMnemonic),
                }
            }
            proof {
                assert(self@ == line_step(st0, tv, i as usize));
                assert(self@ == run_lines(old(self)@, all, i + 1));
            }
            i += 1;
        }
        self.check_undefined_symbols();
        proof {
            assert(self@ == assemble(old(self)@, all));
        }
    }
}

} // verus!
