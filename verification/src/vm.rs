//! The register machine: a fetch-decode-execute loop over 4-byte cells.
//!
//! The machine holds 32 signed 32-bit registers, a remainder register, an
//! equality flag, a growable zero-filled heap and a program counter.  Every
//! instruction except a taken jump advances the counter by exactly 4, the
//! fixed cell width, however many operand bytes it used.  Jump targets are
//! literal operand bytes, never register-indirect, so control flow does not
//! depend on register state.  ADD, SUB, MUL, INC and DEC wrap per fixed-width
//! two's-complement semantics; division by zero and the one overflowing
//! division are fatal, as are unmapped opcode bytes, register indexes outside
//! 0 to 31, an instruction whose needed operand bytes run past the end of the
//! program, and a negative or impossible allocation.

use vstd::prelude::*;

use crate::instruction::Opcode;
use crate::instruction::opcode_of;

verus! {

/// A fatal condition met while executing one instruction.  The machine stops
/// at the first one and leaves its state as it was when the instruction began.
#[derive(Debug, PartialEq, Eq, Structural, Clone, Copy)]
pub enum RuntimeError {
    /// The opcode byte maps to no instruction.
    IllegalInstruction { byte: u8 },
    /// DIV with a zero divisor.
    DivisionByZero,
    /// Dividing the smallest value by minus one, the one quotient that does
    /// not fit a register.
    DivisionOverflow,
    /// A register operand byte outside the register file, 0 to 31.
    RegisterOutOfRange { index: u8 },
    /// The program ended before the operand bytes this instruction reads.
    TruncatedInstruction,
    /// ALLOC from a register holding a negative size.
    NegativeAllocation,
    /// ALLOC past the largest heap the address space can hold.
    OutOfMemory,
}

/// The machine.  All state is public so that a surrounding shell can inspect
/// registers, flags and heap between runs.
#[derive(Debug)]
pub struct VM {
    pub registers: [i32; 32],
    pub program_counter: usize,
    pub program: Vec<u8>,
    pub remainder: i32,
    pub equality_flag: bool,
    pub heap: Vec<u8>,
}

/// The mathematical state of the machine.
#[verifier::ext_equal]
pub struct VmState {
    pub registers: Seq<i32>,
    pub program_counter: nat,
    pub program: Seq<u8>,
    pub remainder: i32,
    pub equality_flag: bool,
    pub heap: Seq<u8>,
}

impl View for VM {
    type V = VmState;

    open spec fn view(&self) -> VmState {
        VmState {
            registers: self.registers@,
            program_counter: self.program_counter as nat,
            program: self.program@,
            remainder: self.remainder,
            equality_flag: self.equality_flag,
            heap: self.heap@,
        }
    }
}

/// The state of a machine that was just given a program.
pub open spec fn initial_state(program: Seq<u8>) -> VmState {
    VmState {
        registers: Seq::new(32, |i: int| 0i32),
        program_counter: 0,
        program,
        remainder: 0,
        equality_flag: false,
        heap: Seq::empty(),
    }
}

/// What one fetch-decode-execute step does to the state.
pub enum StepOutcome {
    /// The instruction completed; the machine may take another step.
    Continue,
    /// The counter stood at or past the end of the program: the run is over.
    Halt,
    /// A fatal condition; the state is the one the step began in.
    Fail(RuntimeError),
}

/// What a bounded run ends in.
pub enum RunOutcome {
    /// The step budget ran out before the program halted.
    Running,
    /// The counter ran off the end of the program.
    Halted,
    /// A step failed; the machine stopped there.
    Failed(RuntimeError),
}

/// The `k`-th operand byte of the cell at the program counter, if the
/// program holds it.
pub open spec fn spec_operand(s: VmState, k: int) -> Option<u8> {
    if s.program_counter + 1 + k < s.program.len() {
        Some(s.program[s.program_counter + 1 + k])
    } else {
        None
    }
}

/// The state with the counter advanced past the whole 4-byte cell.
pub open spec fn advanced(s: VmState) -> VmState {
    VmState { program_counter: (s.program_counter + 4) as nat, ..s }
}

/// Truncated (round toward zero) signed division, on values where the
/// quotient exists and fits; mirrors what the hardware division does.
pub open spec fn div_trunc(a: int, b: int) -> int {
    if a == 0 {
        0
    } else if a > 0 && b > 0 {
        a / b
    } else if a < 0 && b < 0 {
        (a * -1) / (b * -1)
    } else if a < 0 {
        ((a * -1) / b) * -1
    } else {
        (a / (b * -1)) * -1
    }
}

/// The remainder that pairs with `div_trunc`: it takes the dividend's sign.
pub open spec fn rem_trunc(a: int, b: int) -> int {
    if a == 0 {
        0
    } else if a > 0 && b > 0 {
        a % b
    } else if a < 0 && b < 0 {
        ((a * -1) % (b * -1)) * -1
    } else if a < 0 {
        ((a * -1) % b) * -1
    } else {
        a % (b * -1)
    }
}

pub open spec fn step_load(s: VmState) -> (VmState, StepOutcome) {
    match (spec_operand(s, 0), spec_operand(s, 1), spec_operand(s, 2)) {
        (Some(r), Some(hi), Some(lo)) => if r >= 32 {
            (s, StepOutcome::Fail(RuntimeError::RegisterOutOfRange { index: r }))
        } else {
            (
                VmState {
                    registers: s.registers.update(r as int, (hi * 256 + lo) as i32),
                    ..advanced(s)
                },
                StepOutcome::Continue,
            )
        },
        _ => (s, StepOutcome::Fail(RuntimeError::TruncatedInstruction)),
    }
}

/// ADD, SUB and MUL: destination register then two source registers,
/// wrapping on overflow.
pub open spec fn step_arith(s: VmState, code: Opcode) -> (VmState, StepOutcome) {
    match (spec_operand(s, 0), spec_operand(s, 1), spec_operand(s, 2)) {
        (Some(d), Some(a), Some(b)) => if a >= 32 {
            (s, StepOutcome::Fail(RuntimeError::RegisterOutOfRange { index: a }))
        } else if b >= 32 {
            (s, StepOutcome::Fail(RuntimeError::RegisterOutOfRange { index: b }))
        } else if d >= 32 {
            (s, StepOutcome::Fail(RuntimeError::RegisterOutOfRange { index: d }))
        } else {
            let av = s.registers[a as int];
            let bv = s.registers[b as int];
            let value = if code == Opcode::ADD {
                av.wrapping_add(bv)
            } else if code == Opcode::SUB {
                av.wrapping_sub(bv)
            } else {
                av.wrapping_mul(bv)
            };
            (
                VmState { registers: s.registers.update(d as int, value), ..advanced(s) },
                StepOutcome::Continue,
            )
        },
        _ => (s, StepOutcome::Fail(RuntimeError::TruncatedInstruction)),
    }
}

pub open spec fn step_div(s: VmState) -> (VmState, StepOutcome) {
    match (spec_operand(s, 0), spec_operand(s, 1), spec_operand(s, 2)) {
        (Some(d), Some(a), Some(b)) => if a >= 32 {
            (s, StepOutcome::Fail(RuntimeError::RegisterOutOfRange { index: a }))
        } else if b >= 32 {
            (s, StepOutcome::Fail(RuntimeError::RegisterOutOfRange { index: b }))
        } else if d >= 32 {
            (s, StepOutcome::Fail(RuntimeError::RegisterOutOfRange { index: d }))
        } else {
            let av = s.registers[a as int];
            let bv = s.registers[b as int];
            if bv == 0 {
                (s, StepOutcome::Fail(RuntimeError::DivisionByZero))
            } else if av == i32::MIN && bv == -1 {
                (s, StepOutcome::Fail(RuntimeError::DivisionOverflow))
            } else {
                (
                    VmState {
                        registers: s.registers.update(
                            d as int,
                            div_trunc(av as int, bv as int) as i32,
                        ),
                        remainder: rem_trunc(av as int, bv as int) as i32,
                        ..advanced(s)
                    },
                    StepOutcome::Continue,
                )
            }
        },
        _ => (s, StepOutcome::Fail(RuntimeError::TruncatedInstruction)),
    }
}

pub open spec fn step_jmp(s: VmState) -> (VmState, StepOutcome) {
    match spec_operand(s, 0) {
        Some(t) => (VmState { program_counter: t as nat, ..s }, StepOutcome::Continue),
        None => (s, StepOutcome::Fail(RuntimeError::TruncatedInstruction)),
    }
}

/// JEQ jumps when the equality flag holds `want == true`; JNEQ when it does
/// not.  A jump not taken falls through to the next cell.
pub open spec fn step_jump_if(s: VmState, want: bool) -> (VmState, StepOutcome) {
    match spec_operand(s, 0) {
        Some(t) => if s.equality_flag == want {
            (VmState { program_counter: t as nat, ..s }, StepOutcome::Continue)
        } else {
            (advanced(s), StepOutcome::Continue)
        },
        None => (s, StepOutcome::Fail(RuntimeError::TruncatedInstruction)),
    }
}

pub open spec fn step_eq(s: VmState) -> (VmState, StepOutcome) {
    match (spec_operand(s, 0), spec_operand(s, 1)) {
        (Some(a), Some(b)) => if a >= 32 {
            (s, StepOutcome::Fail(RuntimeError::RegisterOutOfRange { index: a }))
        } else if b >= 32 {
            (s, StepOutcome::Fail(RuntimeError::RegisterOutOfRange { index: b }))
        } else {
            (
                VmState {
                    equality_flag: s.registers[a as int] == s.registers[b as int],
                    ..advanced(s)
                },
                StepOutcome::Continue,
            )
        },
        _ => (s, StepOutcome::Fail(RuntimeError::TruncatedInstruction)),
    }
}

pub open spec fn step_alloc(s: VmState) -> (VmState, StepOutcome) {
    match spec_operand(s, 0) {
        Some(r) => if r >= 32 {
            (s, StepOutcome::Fail(RuntimeError::RegisterOutOfRange { index: r }))
        } else {
            let size = s.registers[r as int];
            if size < 0 {
                (s, StepOutcome::Fail(RuntimeError::NegativeAllocation))
            } else if s.heap.len() + size > usize::MAX {
                (s, StepOutcome::Fail(RuntimeError::OutOfMemory))
            } else {
                (
                    VmState { heap: s.heap + Seq::new(size as nat, |i: int| 0u8), ..advanced(s) },
                    StepOutcome::Continue,
                )
            }
        },
        None => (s, StepOutcome::Fail(RuntimeError::TruncatedInstruction)),
    }
}

/// INC when `up`, DEC otherwise; both wrap.
pub open spec fn step_crement(s: VmState, up: bool) -> (VmState, StepOutcome) {
    match spec_operand(s, 0) {
        Some(r) => if r >= 32 {
            (s, StepOutcome::Fail(RuntimeError::RegisterOutOfRange { index: r }))
        } else {
            let v = s.registers[r as int];
            let value = if up {
                v.wrapping_add(1)
            } else {
                v.wrapping_sub(1)
            };
            (
                VmState { registers: s.registers.update(r as int, value), ..advanced(s) },
                StepOutcome::Continue,
            )
        },
        None => (s, StepOutcome::Fail(RuntimeError::TruncatedInstruction)),
    }
}

/// One fetch-decode-execute step.  A counter at or past the end halts; the
/// sentinel ZERO opcode is a no-op cell; every other mapped opcode acts as
/// its section above says; an unmapped byte is fatal.
pub open spec fn spec_step(s: VmState) -> (VmState, StepOutcome) {
    if s.program_counter >= s.program.len() {
        (s, StepOutcome::Halt)
    } else {
        let byte = s.program[s.program_counter as int];
        match opcode_of(byte) {
            Opcode::ZERO => (advanced(s), StepOutcome::Continue),
            Opcode::LOAD => step_load(s),
            Opcode::ADD => step_arith(s, Opcode::ADD),
            Opcode::SUB => step_arith(s, Opcode::SUB),
            Opcode::MUL => step_arith(s, Opcode::MUL),
            Opcode::DIV => step_div(s),
            Opcode::JMP => step_jmp(s),
            Opcode::EQ => step_eq(s),
            Opcode::JEQ => step_jump_if(s, true),
            Opcode::JNEQ => step_jump_if(s, false),
            Opcode::ALLOC => step_alloc(s),
            Opcode::INC => step_crement(s, true),
            Opcode::DEC => step_crement(s, false),
            Opcode::ILLEGAL => (
                s,
                StepOutcome::Fail(RuntimeError::IllegalInstruction { byte }),
            ),
        }
    }
}

/// Up to `n` steps from `s`: the first halt or failure ends the run, and a
/// spent budget leaves the machine still running.
pub open spec fn spec_run(s: VmState, n: nat) -> (VmState, RunOutcome)
    decreases n,
{
    if n == 0 {
        (s, RunOutcome::Running)
    } else {
        let (s1, outcome) = spec_step(s);
        match outcome {
            StepOutcome::Halt => (s1, RunOutcome::Halted),
            StepOutcome::Fail(e) => (s1, RunOutcome::Failed(e)),
            StepOutcome::Continue => spec_run(s1, (n - 1) as nat),
        }
    }
}

/// How `execute_instrunction` reports a step outcome.
pub open spec fn step_result(o: StepOutcome) -> Result<bool, RuntimeError> {
    match o {
        StepOutcome::Continue => Ok(false),
        StepOutcome::Halt => Ok(true),
        StepOutcome::Fail(e) => Err(e),
    }
}

/// How `run` reports a run outcome.
pub open spec fn run_result(o: RunOutcome) -> Result<bool, RuntimeError> {
    match o {
        RunOutcome::Running => Ok(false),
        RunOutcome::Halted => Ok(true),
        RunOutcome::Failed(e) => Err(e),
    }
}

impl VM {
    /// A machine with no program: all registers zero, flags clear, heap empty.
    pub fn new() -> (r: VM)
        ensures
            r@ == initial_state(Seq::<u8>::empty()),
    {
        let vm = VM {
            program: Vec::new(),
            registers: [0; 32],
            program_counter: 0,
            remainder: 0,
            equality_flag: false,
            heap: Vec::new(),
        };
        proof {
            assert(vm@ =~= initial_state(Seq::<u8>::empty()));
        }
        vm
    }

    /// A fresh machine holding `program`.
    pub fn new_with_program(program: Vec<u8>) -> (r: VM)
        ensures
            r@ == initial_state(program@),
    {
        let vm = VM {
            program,
            registers: [0; 32],
            program_counter: 0,
            remainder: 0,
            equality_flag: false,
            heap: Vec::new(),
        };
        proof {
            assert(vm@ =~= initial_state(vm.program@));
        }
        vm
    }

    /// The `k`-th operand byte of the current cell, or the truncation error.
    fn operand(&self, k: usize) -> (r: Result<u8, RuntimeError>)
        requires
            self.program_counter < self.program@.len(),
            self.program@.len() + 4 <= usize::MAX,
            k < 3,
        ensures
            r == match spec_operand(self@, k as int) {
                Some(b) => Ok::<u8, RuntimeError>(b),
                None => Err::<u8, RuntimeError>(RuntimeError::TruncatedInstruction),
            },
    {
        let index = self.program_counter + 1 + k;
        if index < self.program.len() {
            Ok(self.program[index])
        } else {
            Err(RuntimeError::TruncatedInstruction)
        }
    }

    /// The value of register `r`, or the range error for a byte past the
    /// register file.
    fn reg_value(&self, r: u8) -> (res: Result<i32, RuntimeError>)
        ensures
            res == if r < 32 {
                Ok::<i32, RuntimeError>(self.registers@[r as int])
            } else {
                Err::<i32, RuntimeError>(RuntimeError::RegisterOutOfRange { index: r })
            },
    {
        if r < 32 {
            Ok(self.registers[r as usize])
        } else {
            Err(RuntimeError::RegisterOutOfRange { index: r })
        }
    }

    /// One fetch-decode-execute step.  `Ok(true)` reports a halt: the counter
    /// stood at or past the end.  `Ok(false)` reports one completed
    /// instruction.  On `Err` the machine stopped at a fatal condition with
    /// its state unchanged since the step began.
    pub fn execute_instrunction(&mut self) -> (r: Result<bool, RuntimeError>)
        requires
            old(self).program@.len() + 4 <= usize::MAX,
        ensures
            (final(self)@, r) == {
                let (s, o) = spec_step(old(self)@);
                (s, step_result(o))
            },
    {
        let ghost s0 = self@;
        let start = self.program_counter;
        if start >= self.program.len() {
            return Ok(true);
        }
        let byte = self.program[start];
        match Opcode::from_byte(byte) {
            Opcode::ZERO => {
                self.program_counter = start + 4;
                proof {
                    assert(self@ =~= advanced(s0));
                }
                Ok(false)
            },
            Opcode::LOAD => {
                let r = self.operand(0)?;
                let hi = self.operand(1)?;
                let lo = self.operand(2)?;
                if r >= 32 {
                    return Err(RuntimeError::RegisterOutOfRange { index: r });
                }
                let value = (hi as u16) * 256 + (lo as u16);
                self.registers[r as usize] = value as i32;
                self.program_counter = start + 4;
                proof {
                    assert(self@ =~= step_load(s0).0);
                }
                Ok(false)
            },
            Opcode::ADD => {
                let d = self.operand(0)?;
                let a = self.operand(1)?;
                let b = self.operand(2)?;
                let av = self.reg_value(a)?;
                let bv = self.reg_value(b)?;
                if d >= 32 {
                    return Err(RuntimeError::RegisterOutOfRange { index: d });
                }
                self.registers[d as usize] = av.wrapping_add(bv);
                self.program_counter = start + 4;
                proof {
                    assert(self@ =~= step_arith(s0, Opcode::ADD).0);
                }
                Ok(false)
            },
            Opcode::SUB => {
                let d = self.operand(0)?;
                let a = self.operand(1)?;
                let b = self.operand(2)?;
                let av = self.reg_value(a)?;
                let bv = self.reg_value(b)?;
                if d >= 32 {
                    return Err(RuntimeError::RegisterOutOfRange { index: d });
                }
                self.registers[d as usize] = av.wrapping_sub(bv);
                self.program_counter = start + 4;
                proof {
                    assert(self@ =~= step_arith(s0, Opcode::SUB).0);
                }
                Ok(false)
            },
            Opcode::MUL => {
                let d = self.operand(0)?;
                let a = self.operand(1)?;
                let b = self.operand(2)?;
                let av = self.reg_value(a)?;
                let bv = self.reg_value(b)?;
                if d >= 32 {
                    return Err(RuntimeError::RegisterOutOfRange { index: d });
                }
                self.registers[d as usize] = av.wrapping_mul(bv);
                self.program_counter = start + 4;
                proof {
                    assert(self@ =~= step_arith(s0, Opcode::MUL).0);
                }
                Ok(false)
            },
            Opcode::DIV => {
                let d = self.operand(0)?;
                let a = self.operand(1)?;
                let b = self.operand(2)?;
                let av = self.reg_value(a)?;
                let bv = self.reg_value(b)?;
                if d >= 32 {
                    return Err(RuntimeError::RegisterOutOfRange { index: d });
                }
                if bv == 0 {
                    return Err(RuntimeError::DivisionByZero);
                }
                if av == i32::MIN && bv == -1 {
                    return Err(RuntimeError::DivisionOverflow);
                }
                proof {
                    lemma_div_rem_in_range(av, bv);
                }
                let q = match av.checked_div(bv) {
                    Some(q) => q,
                    None => unreached(),
                };
                let rem = match av.checked_rem(bv) {
                    Some(rem) => rem,
                    None => unreached(),
                };
                self.registers[d as usize] = q;
                self.remainder = rem;
                self.program_counter = start + 4;
                proof {
                    assert(self@ =~= step_div(s0).0);
                }
                Ok(false)
            },
            Opcode::JMP => {
                let t = self.operand(0)?;
                self.program_counter = t as usize;
                proof {
                    assert(self@ =~= step_jmp(s0).0);
                }
                Ok(false)
            },
            Opcode::EQ => {
                let a = self.operand(0)?;
                let b = self.operand(1)?;
                let av = self.reg_value(a)?;
                let bv = self.reg_value(b)?;
                self.equality_flag = av == bv;
                self.program_counter = start + 4;
                proof {
                    assert(self@ =~= step_eq(s0).0);
                }
                Ok(false)
            },
            Opcode::JEQ => {
                let t = self.operand(0)?;
                if self.equality_flag {
                    self.program_counter = t as usize;
                } else {
                    self.program_counter = start + 4;
                }
                proof {
                    assert(self@ =~= step_jump_if(s0, true).0);
                }
                Ok(false)
            },
            Opcode::JNEQ => {
                let t = self.operand(0)?;
                if !self.equality_flag {
                    self.program_counter = t as usize;
                } else {
                    self.program_counter = start + 4;
                }
                proof {
                    assert(self@ =~= step_jump_if(s0, false).0);
                }
                Ok(false)
            },
            Opcode::ALLOC => {
                let r = self.operand(0)?;
                let size = self.reg_value(r)?;
                if size < 0 {
                    return Err(RuntimeError::NegativeAllocation);
                }
                let grow = size as usize;
                if self.heap.len() > usize::MAX - grow {
                    return Err(RuntimeError::OutOfMemory);
                }
                let ghost heap0 = self.heap@;
                let mut grown: usize = 0;
                while grown < grow
                    invariant
                        grown <= grow,
                        self.registers@ == s0.registers,
                        self.program@ == s0.program,
                        self.program_counter as nat == s0.program_counter,
                        self.remainder == s0.remainder,
                        self.equality_flag == s0.equality_flag,
                        self.heap@ =~= heap0 + Seq::new(grown as nat, |i: int| 0u8),
                        heap0.len() + grow <= usize::MAX,
                    decreases grow - grown,
                {
                    self.heap.push(0);
                    grown = grown + 1;
                    proof {
                        assert(self.heap@ =~= heap0 + Seq::new(grown as nat, |i: int| 0u8));
                    }
                }
                self.program_counter = start + 4;
                proof {
                    assert(self@ =~= step_alloc(s0).0);
                }
                Ok(false)
            },
            Opcode::INC => {
                let r = self.operand(0)?;
                let v = self.reg_value(r)?;
                self.registers[r as usize] = v.wrapping_add(1);
                self.program_counter = start + 4;
                proof {
                    assert(self@ =~= step_crement(s0, true).0);
                }
                Ok(false)
            },
            Opcode::DEC => {
                let r = self.operand(0)?;
                let v = self.reg_value(r)?;
                self.registers[r as usize] = v.wrapping_sub(1);
                self.program_counter = start + 4;
                proof {
                    assert(self@ =~= step_crement(s0, false).0);
                }
                Ok(false)
            },
            Opcode::ILLEGAL => Err(RuntimeError::IllegalInstruction { byte }),
        }
    }

    /// Take at most `max_steps` steps.  `Ok(true)` reports a halted program,
    /// `Ok(false)` a budget spent while the program was still running, and
    /// `Err` the first fatal condition.  The budget makes the loop total even
    /// though a program may jump backward forever; a shell that wants the
    /// original unbounded behaviour calls this in its own loop.
    pub fn run(&mut self, max_steps: usize) -> (r: Result<bool, RuntimeError>)
        requires
            old(self).program@.len() + 4 <= usize::MAX,
        ensures
            (final(self)@, r) == {
                let (s, o) = spec_run(old(self)@, max_steps as nat);
                (s, run_result(o))
            },
    {
        let ghost s0 = self@;
        let mut steps: usize = 0;
        while steps < max_steps
            invariant
                steps <= max_steps,
                old(self)@ == s0,
                self.program@.len() + 4 <= usize::MAX,
                spec_run(s0, max_steps as nat) == spec_run(self@, (max_steps - steps) as nat),
            decreases max_steps - steps,
        {
            let ghost before = self@;
            let ghost k = (max_steps - steps) as nat;
            let outcome = self.execute_instrunction();
            proof {
                assert(spec_run(before, k) == match spec_step(before) {
                    (s1, StepOutcome::Halt) => (s1, RunOutcome::Halted),
                    (s1, StepOutcome::Fail(e)) => (s1, RunOutcome::Failed(e)),
                    (s1, StepOutcome::Continue) => spec_run(s1, (k - 1) as nat),
                });
            }
            match outcome {
                Err(e) => {
                    proof {
                        assert(spec_step(before).1 == StepOutcome::Fail(e));
                        assert(self@ == spec_step(before).0);
                        assert(spec_run(before, k) == (self@, RunOutcome::Failed(e)));
                        assert(spec_run(s0, max_steps as nat) == (
                            self@,
                            RunOutcome::Failed(e),
                        ));
                    }
                    return Err(e);
                },
                Ok(true) => {
                    proof {
                        assert(spec_step(before).1 == StepOutcome::Halt);
                        assert(self@ == spec_step(before).0);
                        assert(spec_run(before, k) == (self@, RunOutcome::Halted));
                        assert(spec_run(s0, max_steps as nat) == (self@, RunOutcome::Halted));
                    }
                    return Ok(true);
                },
                Ok(false) => {
                    steps = steps + 1;
                },
            }
        }
        Ok(false)
    }

    /// Append freshly emitted bytecode to the program buffer; nothing else
    /// changes, so a later `run` resumes from the current counter.
    pub fn append_to_program(&mut self, prg: Vec<u8>)
        ensures
            final(self)@ == (VmState { program: old(self).program@ + prg@, ..old(self)@ }),
    {
        let mut rest = prg;
        self.program.append(&mut rest);
        proof {
            assert(self@ =~= VmState { program: old(self).program@ + prg@, ..old(self)@ });
        }
    }
}

/// The cell at the program counter, for stating what one instruction does.
pub open spec fn current_cell(s: VmState) -> Seq<u8> {
    s.program.subrange(s.program_counter as int, s.program_counter + 4int)
}

/// A machine state with the fixed register file the machine always has.
pub open spec fn wf(s: VmState) -> bool {
    s.registers.len() == 32
}

/// One step keeps the state well formed, never touches the program buffer,
/// and never shrinks or overwrites the heap: the heap only ever gains
/// zero-filled bytes at its end.
pub proof fn lemma_step_preserves_shape(s: VmState)
    requires
        wf(s),
    ensures
        wf(spec_step(s).0),
        spec_step(s).0.program == s.program,
        s.heap.is_prefix_of(spec_step(s).0.heap),
        forall|i: int|
            s.heap.len() <= i < spec_step(s).0.heap.len() ==> spec_step(s).0.heap[i] == 0,
{
    assert(s.heap.is_prefix_of(s.heap));
    if s.program_counter < s.program.len() {
        let s1 = spec_step(s).0;
        match opcode_of(s.program[s.program_counter as int]) {
            Opcode::ALLOC => {
                assert(s1.registers.len() == s.registers.len());
                assert(s.heap.is_prefix_of(s1.heap)) by {
                    assert(s1.heap.subrange(0, s.heap.len() as int) =~= s.heap);
                };
            },
            Opcode::LOAD => {
                assert(s1 == step_load(s).0);
                assert(s1.registers.len() == s.registers.len());
            },
            Opcode::ADD => {
                assert(s1 == step_arith(s, Opcode::ADD).0);
                assert(s1.registers.len() == s.registers.len());
            },
            Opcode::SUB => {
                assert(s1 == step_arith(s, Opcode::SUB).0);
                assert(s1.registers.len() == s.registers.len());
            },
            Opcode::MUL => {
                assert(s1 == step_arith(s, Opcode::MUL).0);
                assert(s1.registers.len() == s.registers.len());
            },
            Opcode::DIV => {
                assert(s1 == step_div(s).0);
                assert(s1.registers.len() == s.registers.len());
            },
            Opcode::EQ => {
                assert(s1 == step_eq(s).0);
                assert(s1.registers.len() == s.registers.len());
            },
            Opcode::INC => {
                assert(s1 == step_crement(s, true).0);
                assert(s1.registers.len() == s.registers.len());
            },
            Opcode::DEC => {
                assert(s1 == step_crement(s, false).0);
                assert(s1.registers.len() == s.registers.len());
            },
            _ => {
                assert(s1.registers == s.registers);
                assert(s1.heap == s.heap);
            },
        }
    }
}

/// A whole run keeps the state well formed, never touches the program
/// buffer, and never shrinks the heap: what ALLOC granted stays granted.
pub proof fn lemma_run_preserves_shape(s: VmState, n: nat)
    requires
        wf(s),
    ensures
        wf(spec_run(s, n).0),
        spec_run(s, n).0.program == s.program,
        s.heap.is_prefix_of(spec_run(s, n).0.heap),
    decreases n,
{
    assert(s.heap.is_prefix_of(s.heap));
    if n > 0 {
        let (s1, outcome) = spec_step(s);
        lemma_step_preserves_shape(s);
        match outcome {
            StepOutcome::Continue => {
                lemma_run_preserves_shape(s1, (n - 1) as nat);
                let end = spec_run(s1, (n - 1) as nat).0;
                assert(s.heap.is_prefix_of(end.heap)) by {
                    assert(s.heap =~= end.heap.subrange(0, s.heap.len() as int));
                };
            },
            _ => {},
        }
    }
}

/// `LOAD $r #v` followed by a run leaves `v` in register `r` and halts, for
/// every immediate `v` and every register: the immediate is treated as an
/// unsigned 16-bit value widened to 32 bits.
pub proof fn lemma_load_then_run(r: u8, v: u16, fuel: nat)
    requires
        r < 32,
        fuel >= 2,
    ensures
        ({
            let s0 = initial_state(crate::instruction::spec_encode(
                crate::instruction::Instr::Load { reg: r, value: v },
            ));
            spec_run(s0, fuel) == (
                VmState { registers: s0.registers.update(r as int, v as i32), ..advanced(s0) },
                RunOutcome::Halted,
            )
        }),
{
    let cell = crate::instruction::spec_encode(
        crate::instruction::Instr::Load { reg: r, value: v },
    );
    let s0 = initial_state(cell);
    assert(opcode_of(cell[0]) == Opcode::LOAD);
    assert(spec_operand(s0, 0) == Some(cell[1]));
    assert(spec_operand(s0, 1) == Some(cell[2]));
    assert(spec_operand(s0, 2) == Some(cell[3]));
    assert(cell[2] * 256 + cell[3] == v) by {
        assert(cell[2] == v / 256 && cell[3] == v % 256);
        assert(v == 256 * (v / 256) + v % 256);
    };
    let s1 = step_load(s0).0;
    assert(spec_step(s0) == (s1, StepOutcome::Continue));
    assert(s1.program_counter == 4 && s1.program.len() == 4);
    assert(spec_step(s1) == (s1, StepOutcome::Halt));
    assert(spec_run(s1, (fuel - 1) as nat) == (s1, RunOutcome::Halted));
    assert(spec_run(s0, fuel) == (s1, RunOutcome::Halted));
    assert(s1 =~= (VmState {
        registers: s0.registers.update(r as int, v as i32),
        ..advanced(s0)
    }));
}

/// `ADD $d $a $b` sets `registers[d]` to `registers[a] + registers[b]`
/// whenever that sum fits a register, and the step continues.
pub proof fn lemma_step_add(s: VmState, d: u8, a: u8, b: u8)
    requires
        s.program_counter + 4 <= s.program.len(),
        current_cell(s) == crate::instruction::spec_encode(
            crate::instruction::Instr::Add { dst: d, a, b },
        ),
        d < 32,
        a < 32,
        b < 32,
        i32::MIN <= s.registers[a as int] + s.registers[b as int] <= i32::MAX,
    ensures
        spec_step(s) == (
            VmState {
                registers: s.registers.update(
                    d as int,
                    (s.registers[a as int] + s.registers[b as int]) as i32,
                ),
                ..advanced(s)
            },
            StepOutcome::Continue,
        ),
{
    lemma_cell_bytes(s);
}

/// `SUB $d $a $b` sets `registers[d]` to the difference whenever it fits.
pub proof fn lemma_step_sub(s: VmState, d: u8, a: u8, b: u8)
    requires
        s.program_counter + 4 <= s.program.len(),
        current_cell(s) == crate::instruction::spec_encode(
            crate::instruction::Instr::Sub { dst: d, a, b },
        ),
        d < 32,
        a < 32,
        b < 32,
        i32::MIN <= s.registers[a as int] - s.registers[b as int] <= i32::MAX,
    ensures
        spec_step(s) == (
            VmState {
                registers: s.registers.update(
                    d as int,
                    (s.registers[a as int] - s.registers[b as int]) as i32,
                ),
                ..advanced(s)
            },
            StepOutcome::Continue,
        ),
{
    lemma_cell_bytes(s);
}

/// `MUL $d $a $b` sets `registers[d]` to the product whenever it fits.
pub proof fn lemma_step_mul(s: VmState, d: u8, a: u8, b: u8)
    requires
        s.program_counter + 4 <= s.program.len(),
        current_cell(s) == crate::instruction::spec_encode(
            crate::instruction::Instr::Mul { dst: d, a, b },
        ),
        d < 32,
        a < 32,
        b < 32,
        i32::MIN <= s.registers[a as int] * s.registers[b as int] <= i32::MAX,
    ensures
        spec_step(s) == (
            VmState {
                registers: s.registers.update(
                    d as int,
                    (s.registers[a as int] * s.registers[b as int]) as i32,
                ),
                ..advanced(s)
            },
            StepOutcome::Continue,
        ),
{
    lemma_cell_bytes(s);
    let x = s.registers[a as int];
    let y = s.registers[b as int];
    assert(vstd::wrapping::i32_specs::wrapping_mul(x, y) == (x * y) as i32) by {
        vstd::arithmetic::div_mod::lemma_small_mod((x * y - i32::MIN) as nat, 0x1_0000_0000);
        assert(vstd::wrapping::i32_specs::signed_crop(x * y) == (x * y) as i32) by {
            let range = 0x1_0000_0000int;
            let v = x * y;
            if v >= 0 {
                vstd::arithmetic::div_mod::lemma_small_mod(v as nat, range as nat);
            } else {
                vstd::arithmetic::div_mod::lemma_mod_sub_multiples_vanish(v, range);
                vstd::arithmetic::div_mod::lemma_small_mod((v + range) as nat, range as nat);
            }
        };
    };
}

/// `DIV $d $a $b` with a zero divisor is fatal: the machine reports the
/// division by zero and leaves every register, flag and buffer as it was.
pub proof fn lemma_step_div_by_zero(s: VmState, d: u8, a: u8, b: u8)
    requires
        s.program_counter + 4 <= s.program.len(),
        current_cell(s) == crate::instruction::spec_encode(
            crate::instruction::Instr::Div { dst: d, a, b },
        ),
        d < 32,
        a < 32,
        b < 32,
        s.registers[b as int] == 0,
    ensures
        spec_step(s) == (s, StepOutcome::Fail(RuntimeError::DivisionByZero)),
{
    lemma_cell_bytes(s);
}

/// `ALLOC $r` grows the heap by the size held in `r`, zero-filled, and
/// continues, whenever that size is not negative and fits the address space.
pub proof fn lemma_step_alloc_grows(s: VmState, r: u8)
    requires
        s.program_counter + 2 <= s.program.len(),
        opcode_of(s.program[s.program_counter as int]) == Opcode::ALLOC,
        s.program[s.program_counter + 1int] == r,
        r < 32,
        0 <= s.registers[r as int],
        s.heap.len() + s.registers[r as int] <= usize::MAX,
    ensures
        spec_step(s).1 == StepOutcome::Continue,
        spec_step(s).0 == (VmState {
            heap: s.heap + Seq::new(s.registers[r as int] as nat, |i: int| 0u8),
            ..advanced(s)
        }),
        spec_step(s).0.heap.len() == s.heap.len() + s.registers[r as int],
{
}

/// The operand bytes of the current cell, when the whole cell is in the
/// program, are the bytes after the opcode byte.
proof fn lemma_cell_bytes(s: VmState)
    requires
        s.program_counter + 4 <= s.program.len(),
    ensures
        s.program[s.program_counter as int] == current_cell(s)[0],
        spec_operand(s, 0) == Some(current_cell(s)[1]),
        spec_operand(s, 1) == Some(current_cell(s)[2]),
        spec_operand(s, 2) == Some(current_cell(s)[3]),
{
}

/// For a divisor that is neither zero nor the one overflowing pair, the
/// truncated quotient and remainder both fit a register.
proof fn lemma_div_rem_in_range(a: i32, b: i32)
    requires
        b != 0,
        !(a == i32::MIN && b == -1),
    ensures
        i32::MIN <= div_trunc(a as int, b as int) <= i32::MAX,
        i32::MIN <= rem_trunc(a as int, b as int) <= i32::MAX,
{
    let ai = a as int;
    let bi = b as int;
    if ai > 0 && bi > 0 {
        assert(0 <= ai / bi <= ai) by (nonlinear_arith)
            requires ai > 0 && bi > 0;
        assert(0 <= ai % bi < bi) by (nonlinear_arith)
            requires ai > 0 && bi > 0;
    } else if ai < 0 && bi < 0 {
        let p = ai * -1;
        let q = bi * -1;
        assert(p == -ai && q == -bi);
        if q == 1 {
            assert(ai >= i32::MIN + 1 || bi != -1);
            assert(bi == -1);
            assert(ai > i32::MIN);
            assert(p <= i32::MAX);
            assert(p / 1 == p) by (nonlinear_arith);
            assert(p % 1 == 0) by (nonlinear_arith);
        } else {
            assert(0 <= p / q && p / q * 2 <= p) by (nonlinear_arith)
                requires p > 0 && q >= 2;
            assert(0 <= p % q < q) by (nonlinear_arith)
                requires p > 0 && q >= 2;
        }
    } else if ai < 0 {
        let p = ai * -1;
        assert(0 <= p / bi <= p) by (nonlinear_arith)
            requires p > 0 && bi > 0;
        assert(0 <= p % bi < bi) by (nonlinear_arith)
            requires p > 0 && bi > 0;
    } else if ai > 0 {
        let q = bi * -1;
        assert(0 <= ai / q <= ai) by (nonlinear_arith)
            requires ai > 0 && q > 0;
        assert(0 <= ai % q < q) by (nonlinear_arith)
            requires ai > 0 && q > 0;
    }
}

} // verus!
