//! The fixed-width virtual machine the assembled programs target: 1000
//! memory cells, four registers and six condition codes. Instructions are
//! stored as 5- or 6-digit decimal numbers (two-digit opcode only in the
//! 6-digit form): opcode, register digit, three-digit memory operand.
//! The machine core decodes and steps; reading a program file, the
//! keyboard and the console live outside the library.

use vstd::prelude::*;
use crate::text::{digits_value, parses_as_usize, parse_usize, split_lines, split_lines_spec,
    str_starts_with, starts_with_spec, views_of};

verus! {

/// Model of the machine state.
#[verifier::ext_equal]
pub ghost struct SmacModel {
    pub memory: Seq<usize>,
    pub registers: Seq<usize>,
    pub condition_codes: Seq<bool>,
    pub pc: usize,
    pub last: usize,
}

impl SmacModel {
    /// The fixed shape of the machine: 1000 cells, 4 registers, 6
    /// condition codes, and a program end inside memory.
    pub open spec fn wf(self) -> bool {
        self.memory.len() == 1000 && self.registers.len() == 4 && self.condition_codes.len() == 6
            && self.last < 1000
    }
}

/// What one machine step did.
#[derive(Clone, Copy, Debug, PartialEq, Eq, Structural)]
pub enum StepOutcome {
    Halt,
    Cycle,
    Jump,
    ReadDone,
    NeedInput,
    Output(usize),
    Invalid,
    BadOpcode,
    Fault,
}

/// Why a run stopped early.
#[derive(Clone, Copy, Debug, PartialEq, Eq, Structural)]
pub enum SmacError {
    InvalidInstruction,
    InvalidOpcode,
    Fault,
    InputExhausted,
    StepLimit,
}

/// The machine.
pub struct SMAC0 {
    memory: Vec<usize>,
    registers: Vec<usize>,
    condition_codes: Vec<bool>,
    program_counter: usize,
    last_logical_addr: usize,
}

impl View for SMAC0 {
    type V = SmacModel;

    closed spec fn view(&self) -> SmacModel {
        SmacModel {
            memory: self.memory@,
            registers: self.registers@,
            condition_codes: self.condition_codes@,
            pc: self.program_counter,
            last: self.last_logical_addr,
        }
    }
}

/// The machine a fresh instance starts as: everything zeroed.
pub open spec fn init_smac() -> SmacModel {
    SmacModel {
        memory: Seq::new(1000, |i: int| 0usize),
        registers: Seq::new(4, |i: int| 0usize),
        condition_codes: Seq::new(6, |i: int| false),
        pc: 0,
        last: 0,
    }
}

/// One line of a program listing. A `-1` line sets the program counter
/// from its second field; any other line of the form `aaa v...` stores
/// the value at the three-digit address and records it as the last
/// loaded address. Lines of neither shape are ignored.
pub open spec fn load_line_step(st: SmacModel, line: Seq<char>) -> SmacModel {
    if starts_with_spec(line, "-1"@) {
        if line.len() >= 6 && parses_as_usize(line.subrange(3, 6)) {
            SmacModel { pc: digits_value(line.subrange(3, 6)) as usize, ..st }
        } else {
            st
        }
    } else {
        if line.len() >= 5 && parses_as_usize(line.subrange(0, 3)) && parses_as_usize(
            line.subrange(4, line.len() as int),
        ) && digits_value(line.subrange(0, 3)) < st.memory.len() {
            let addr = digits_value(line.subrange(0, 3)) as usize;
            let v = digits_value(line.subrange(4, line.len() as int)) as usize;
            SmacModel { memory: st.memory.update(addr as int, v), last: addr, ..st }
        } else {
            st
        }
    }
}

/// The first `n` lines of a program listing.
pub open spec fn load_lines(st: SmacModel, lines: Seq<Seq<char>>, n: int) -> SmacModel
    decreases n,
{
    if n <= 0 {
        st
    } else {
        load_line_step(load_lines(st, lines, n - 1), lines[n - 1])
    }
}

/// One machine step on the instruction under the program counter, with
/// `input` the value a READ consumes if one is available: the next
/// state and what happened. Values 0 to 9 halt; values outside the 5-
/// and 6-digit instruction range are invalid; a register or condition
/// digit outside its table, an arithmetic overflow, and a division by
/// zero are faults.
pub open spec fn spec_step(st: SmacModel, input: Option<usize>) -> (SmacModel, StepOutcome) {
    let v = st.memory[st.pc as int];
    if v <= 9 {
        (st, StepOutcome::Halt)
    } else if v < 10000 || v > 999999 {
        (st, StepOutcome::Invalid)
    } else {
        let opcode = v / 10000;
        let reg = (v / 1000) % 10;
        let mem = v % 1000;
        if opcode == 1 || opcode == 2 || opcode == 3 || opcode == 8 {
            if reg >= 4 {
                (st, StepOutcome::Fault)
            } else {
                let a = st.registers[reg as int];
                let b = st.memory[mem as int];
                let ok = if opcode == 1 {
                    a + b <= usize::MAX
                } else if opcode == 2 {
                    a >= b
                } else if opcode == 3 {
                    a * b <= usize::MAX
                } else {
                    b != 0
                };
                if !ok {
                    (st, StepOutcome::Fault)
                } else {
                    let r = if opcode == 1 {
                        (a + b) as usize
                    } else if opcode == 2 {
                        (a - b) as usize
                    } else if opcode == 3 {
                        (a * b) as usize
                    } else {
                        a / b
                    };
                    (
                        SmacModel {
                            registers: st.registers.update(reg as int, r),
                            pc: (st.pc + 1) as usize,
                            ..st
                        },
                        StepOutcome::Cycle,
                    )
                }
            }
        } else if opcode == 4 {
            if reg >= 4 {
                (st, StepOutcome::Fault)
            } else {
                (
                    SmacModel {
                        registers: st.registers.update(reg as int, st.memory[mem as int]),
                        pc: (st.pc + 1) as usize,
                        ..st
                    },
                    StepOutcome::Cycle,
                )
            }
        } else if opcode == 5 {
            if reg >= 4 {
                (st, StepOutcome::Fault)
            } else {
                (
                    SmacModel {
                        memory: st.memory.update(mem as int, st.registers[reg as int]),
                        pc: (st.pc + 1) as usize,
                        ..st
                    },
                    StepOutcome::Cycle,
                )
            }
        } else if opcode == 6 {
            if reg >= 4 {
                (st, StepOutcome::Fault)
            } else {
                let a = st.registers[reg as int];
                let b = st.memory[mem as int];
                let cc = seq![a < b, a <= b, a == b, a > b, a >= b, true];
                (
                    SmacModel { condition_codes: cc, pc: (st.pc + 1) as usize, ..st },
                    StepOutcome::Cycle,
                )
            }
        } else if opcode == 7 {
            if reg >= 6 {
                (st, StepOutcome::Fault)
            } else if st.condition_codes[reg as int] || reg == 5 {
                (SmacModel { pc: mem as usize, ..st }, StepOutcome::Jump)
            } else {
                (SmacModel { pc: (st.pc + 1) as usize, ..st }, StepOutcome::Cycle)
            }
        } else if opcode == 9 {
            match input {
                None => (st, StepOutcome::NeedInput),
                Some(x) => (
                    SmacModel {
                        memory: st.memory.update(mem as int, x),
                        pc: (st.pc + 1) as usize,
                        ..st
                    },
                    StepOutcome::ReadDone,
                ),
            }
        } else if opcode == 10 {
            (
                SmacModel { pc: (st.pc + 1) as usize, ..st },
                StepOutcome::Output(st.memory[mem as int]),
            )
        } else {
            (st, StepOutcome::BadOpcode)
        }
    }
}

/// A bounded run: steps from the current state until the program
/// counter reaches the last loaded address, a STOP executes, something
/// goes wrong, or the step budget runs out. Returns the final state,
/// the printed values in order, and how the run ended.
pub open spec fn spec_execute(st: SmacModel, inputs: Seq<usize>, fuel: nat) -> (
    SmacModel,
    Seq<usize>,
    Result<(), SmacError>,
)
    decreases fuel,
{
    if st.pc >= st.last {
        (st, Seq::<usize>::empty(), Ok(()))
    } else if fuel == 0 {
        (st, Seq::<usize>::empty(), Err(SmacError::StepLimit))
    } else {
        let r = spec_step(
            st,
            if inputs.len() > 0 {
                Some(inputs[0])
            } else {
                None
            },
        );
        match r.1 {
            StepOutcome::Halt => (r.0, Seq::<usize>::empty(), Ok(())),
            StepOutcome::Cycle => spec_execute(r.0, inputs, (fuel - 1) as nat),
            StepOutcome::Jump => spec_execute(r.0, inputs, (fuel - 1) as nat),
            StepOutcome::ReadDone => spec_execute(r.0, inputs.drop_first(), (fuel - 1) as nat),
            StepOutcome::NeedInput => (r.0, Seq::<usize>::empty(), Err(SmacError::InputExhausted)),
            StepOutcome::Output(x) => {
                let rec = spec_execute(r.0, inputs, (fuel - 1) as nat);
                (rec.0, seq![x] + rec.1, rec.2)
            },
            StepOutcome::Invalid => (r.0, Seq::<usize>::empty(), Err(SmacError::InvalidInstruction)),
            StepOutcome::BadOpcode => (r.0, Seq::<usize>::empty(), Err(SmacError::InvalidOpcode)),
            StepOutcome::Fault => (r.0, Seq::<usize>::empty(), Err(SmacError::Fault)),
        }
    }
}

impl SMAC0 {
    /// A zeroed machine.
    pub fn new() -> (m: Self)
        ensures
            m@ == init_smac(),
            m@.wf(),
    {
        let m = Self {
            memory: vec![0; 1000],
            registers: vec![0; 4],
            condition_codes: vec![false; 6],
            program_counter: 0,
            last_logical_addr: 0,
        };
        proof {
            assert(m@.memory =~= init_smac().memory);
            assert(m@.registers =~= init_smac().registers);
            assert(m@.condition_codes =~= init_smac().condition_codes);
            assert(m@ =~~= init_smac());
        }
        m
    }

    /// Whether the machine still has its fixed shape; true for every
    /// machine built by `new` and fed through `parse_file`.
    pub fn well_formed(&self) -> (b: bool)
        ensures
            b == self@.wf(),
    {
        self.memory.len() == 1000 && self.registers.len() == 4 && self.condition_codes.len() == 6
            && self.last_logical_addr < 1000
    }

    /// The current program counter.
    pub fn program_counter(&self) -> (pc: usize)
        ensures
            pc == self@.pc,
    {
        self.program_counter
    }

    /// The last loaded address.
    pub fn last_logical_addr(&self) -> (a: usize)
        ensures
            a == self@.last,
    {
        self.last_logical_addr
    }

    /// The memory cell at `addr`, if it exists.
    pub fn memory_at(&self, addr: usize) -> (v: Option<usize>)
        ensures
            match v {
                Some(x) => addr < self@.memory.len() && x == self@.memory[addr as int],
                None => addr >= self@.memory.len(),
            },
    {
        if addr < self.memory.len() {
            Some(self.memory[addr])
        } else {
            None
        }
    }

    /// Loads a program listing, line by line.
    pub fn parse_file(&mut self, contents: String)
        ensures
            final(self)@ == load_lines(
                old(self)@,
                split_lines_spec(contents@),
                split_lines_spec(contents@).len() as int,
            ),
            old(self)@.wf() ==> final(self)@.wf(),
    {
        let lines = split_lines(contents.as_str());
        let ghost lv = views_of(lines@);
        let n = lines.len();
        let mut i: usize = 0;
        while i < n
            invariant
                i <= n,
                n == lines@.len(),
                lv == views_of(lines@),
                self@ == load_lines(old(self)@, lv, i as int),
                old(self)@.wf() ==> self@.wf(),
            decreases n - i,
        {
            let line = lines[i].as_str();
            proof {
                assert(line@ == lv[i as int]);
            }
            let llen = line.unicode_len();
            if str_starts_with(line, "-1") {
                if llen >= 6 {
                    let field = line.substring_char(3, 6);
                    match parse_usize(field) {
                        Some(v) => self.program_counter = v,
                        None => {},
                    }
                }
            } else {
                if llen >= 5 {
                    let addr_str = line.substring_char(0, 3);
                    let val_str = line.substring_char(4, llen);
                    match parse_usize(addr_str) {
                        Some(addr) => {
                            match parse_usize(val_str) {
                                Some(v) => {
                                    if addr < self.memory.len() {
                                        self.memory[addr] = v;
                                        self.last_logical_addr = addr;
                                    }
                                },
                                None => {},
                            }
                        },
                        None => {},
                    }
                }
            }
            proof {
                assert(self@ =~~= load_lines(old(self)@, lv, i + 1));
            }
            i += 1;
        }
    }

    /// One machine step; `input` feeds a READ instruction, if the step
    /// turns out to be one.
    pub fn execute_line(&mut self, input: Option<usize>) -> (out: StepOutcome)
        requires
            old(self)@.wf(),
            old(self)@.pc < 1000,
        ensures
            final(self)@ == spec_step(old(self)@, input).0,
            out == spec_step(old(self)@, input).1,
            final(self)@.wf(),
    {
        let v = self.memory[self.program_counter];
        if v <= 9 {
            return StepOutcome::Halt;
        }
        if v < 10000 || v > 999999 {
            return StepOutcome::Invalid;
        }
        let opcode = v / 10000;
        let reg = (v / 1000) % 10;
        let mem = v % 1000;
        assert(mem < 1000);
        if opcode == 1 || opcode == 2 || opcode == 3 || opcode == 8 {
            if reg >= 4 {
                return StepOutcome::Fault;
            }
            let a = self.registers[reg];
            let b = self.memory[mem];
            let r = if opcode == 1 {
                match a.checked_add(b) {
                    Some(x) => x,
                    None => {
                        return StepOutcome::Fault;
                    },
                }
            } else if opcode == 2 {
                match a.checked_sub(b) {
                    Some(x) => x,
                    None => {
                        return StepOutcome::Fault;
                    },
                }
            } else if opcode == 3 {
                match a.checked_mul(b) {
                    Some(x) => x,
                    None => {
                        return StepOutcome::Fault;
                    },
                }
            } else {
                if b == 0 {
                    return StepOutcome::Fault;
                }
                a / b
            };
            self.registers[reg] = r;
            self.program_counter = self.program_counter + 1;
            StepOutcome::Cycle
        } else if opcode == 4 {
            if reg >= 4 {
                return StepOutcome::Fault;
            }
            self.registers[reg] = self.memory[mem];
            self.program_counter = self.program_counter + 1;
            StepOutcome::Cycle
        } else if opcode == 5 {
            if reg >= 4 {
                return StepOutcome::Fault;
            }
            self.memory[mem] = self.registers[reg];
            self.program_counter = self.program_counter + 1;
            StepOutcome::Cycle
        } else if opcode == 6 {
            if reg >= 4 {
                return StepOutcome::Fault;
            }
            let a = self.registers[reg];
            let b = self.memory[mem];
            self.condition_codes[0] = a < b;
            self.condition_codes[1] = a <= b;
            self.condition_codes[2] = a == b;
            self.condition_codes[3] = a > b;
            self.condition_codes[4] = a >= b;
            self.condition_codes[5] = true;
            self.program_counter = self.program_counter + 1;
            proof {
                let a2 = old(self)@.registers[reg as int];
                let b2 = old(self)@.memory[mem as int];
                assert(self@.condition_codes =~= seq![
                    a2 < b2,
                    a2 <= b2,
                    a2 == b2,
                    a2 > b2,
                    a2 >= b2,
                    true,
                ]);
            }
            StepOutcome::Cycle
        } else if opcode == 7 {
            if reg >= 6 {
                return StepOutcome::Fault;
            }
            if self.condition_codes[reg] || reg == 5 {
                self.program_counter = mem;
                StepOutcome::Jump
            } else {
                self.program_counter = self.program_counter + 1;
                StepOutcome::Cycle
            }
        } else if opcode == 9 {
            match input {
                None => StepOutcome::NeedInput,
                Some(x) => {
                    self.memory[mem] = x;
                    self.program_counter = self.program_counter + 1;
                    StepOutcome::ReadDone
                },
            }
        } else if opcode == 10 {
            let out_val = self.memory[mem];
            self.program_counter = self.program_counter + 1;
            StepOutcome::Output(out_val)
        } else {
            StepOutcome::BadOpcode
        }
    }

    /// Runs the loaded program on the given input values, within a step
    /// budget, collecting everything PRINT emits.
    pub fn execute(&mut self, inputs: Vec<usize>, max_steps: usize) -> (r: Result<
        Vec<usize>,
        SmacError,
    >)
        requires
            old(self)@.wf(),
        ensures
            ({
                let s = spec_execute(old(self)@, inputs@, max_steps as nat);
                &&& final(self)@ == s.0
                &&& final(self)@.wf()
                &&& match r {
                    Ok(outs) => s.2 is Ok && outs@ == s.1,
                    Err(e) => s.2 matches Err(m) && e == m,
                }
            }),
    {
        let mut outputs: Vec<usize> = Vec::new();
        let mut idx: usize = 0;
        let mut rem = max_steps;
        proof {
            assert(inputs@.skip(0) =~= inputs@);
            let full = spec_execute(old(self)@, inputs@, max_steps as nat);
            assert(Seq::<usize>::empty() + full.1 =~= full.1);
        }
        while self.program_counter < self.last_logical_addr
            invariant
                self@.wf(),
                idx <= inputs@.len(),
                ({
                    let full = spec_execute(old(self)@, inputs@, max_steps as nat);
                    let rest = spec_execute(self@, inputs@.skip(idx as int), rem as nat);
                    full.0 == rest.0 && full.1 == outputs@ + rest.1 && full.2 == rest.2
                }),
            decreases rem,
        {
            if rem == 0 {
                return Err(SmacError::StepLimit);
            }
            let ghost pre = self@;
            let ghost pre_inputs = inputs@.skip(idx as int);
            let inp = if idx < inputs.len() {
                Some(inputs[idx])
            } else {
                None
            };
            proof {
                if pre_inputs.len() > 0 {
                    assert(pre_inputs[0] == inputs@[idx as int]);
                }
            }
            let out = self.execute_line(inp);
            match out {
                StepOutcome::Halt => {
                    proof {
                        assert(outputs@ + Seq::<usize>::empty() =~= outputs@);
                    }
                    return Ok(outputs);
                },
                StepOutcome::Cycle => {},
                StepOutcome::Jump => {},
                StepOutcome::ReadDone => {
                    proof {
                        assert(pre_inputs.drop_first() =~= inputs@.skip(idx + 1));
                    }
                    idx = idx + 1;
                },
                StepOutcome::NeedInput => {
                    proof {
                        assert(outputs@ + Seq::<usize>::empty() =~= outputs@);
                    }
                    return Err(SmacError::InputExhausted);
                },
                StepOutcome::Output(x) => {
                    let ghost rec = spec_execute(self@, pre_inputs, (rem - 1) as nat);
                    proof {
                        assert(outputs@.push(x) + rec.1 =~= outputs@ + (seq![x] + rec.1));
                    }
                    outputs.push(x);
                },
                StepOutcome::Invalid => {
                    return Err(SmacError::InvalidInstruction);
                },
                StepOutcome::BadOpcode => {
                    return Err(SmacError::InvalidOpcode);
                },
                StepOutcome::Fault => {
                    return Err(SmacError::Fault);
                },
            }
            rem = rem - 1;
        }
        proof {
            assert(outputs@ + Seq::<usize>::empty() =~= outputs@);
        }
        Ok(outputs)
    }
}

} // verus!
