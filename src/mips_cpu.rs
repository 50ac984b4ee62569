use vstd::prelude::*;
use vstd::arithmetic::div_mod::{lemma_small_mod, lemma_mod_add_multiples_vanish, lemma_mod_sub_multiples_vanish};

use crate::fault::Fault;
use crate::mips_state::{
    CpuModel, MIPSState, model_wf, set_reg, store_word, word_at, word_fits, HI, LO, PC,
    PRINT_ADDR,
};

verus! {

/// Function keys of the register-register family (opcode 0).
pub const FN_JR: u32 = 0x08;
pub const FN_JALR: u32 = 0x09;
pub const FN_MFHI: u32 = 0x10;
pub const FN_MFLO: u32 = 0x12;
pub const FN_LIS: u32 = 0x14;
pub const FN_MULT: u32 = 0x18;
pub const FN_MULTU: u32 = 0x19;
pub const FN_DIV: u32 = 0x1a;
pub const FN_DIVU: u32 = 0x1b;
pub const FN_ADD: u32 = 0x20;
pub const FN_SUB: u32 = 0x22;
pub const FN_SLT: u32 = 0x2a;
pub const FN_SLTU: u32 = 0x2b;

/// Opcodes of the immediate family.
pub const OP_BEQ: u32 = 0x04;
pub const OP_BNE: u32 = 0x05;
pub const OP_LW: u32 = 0x23;
pub const OP_SW: u32 = 0x2b;

/// Register that receives the return address of `jalr`, and the sentinel.
pub const LINK_REG: u32 = 31;

/// Bits 31..26.
pub open spec fn opcode(i: u32) -> u32 {
    i >> 26
}

/// Bits 25..21.
pub open spec fn field_s(i: u32) -> u32 {
    (i >> 21) & 0x1f
}

/// Bits 20..16.
pub open spec fn field_t(i: u32) -> u32 {
    (i >> 16) & 0x1f
}

/// Bits 15..11.
pub open spec fn field_d(i: u32) -> u32 {
    (i >> 11) & 0x1f
}

/// Bits 10..0: shift amount and function code taken as one key.
pub open spec fn func_key(i: u32) -> u32 {
    i & 0x7ff
}

/// Bits 15..0 read as a signed 16-bit value.
pub open spec fn simm(i: u32) -> int {
    let u = i & 0xffff;
    if u >= 0x8000 {
        u - 0x1_0000
    } else {
        u as int
    }
}

/// A word read as a two's-complement signed 32-bit value.
pub open spec fn signed(w: u32) -> int {
    if w >= 0x8000_0000 {
        w - 0x1_0000_0000
    } else {
        w as int
    }
}

/// The word whose bits are the low 32 bits of `x`.
pub open spec fn wrap32(x: int) -> u32 {
    (x % 0x1_0000_0000) as u32
}

/// The low 64 bits of `x`, as a natural number.
pub open spec fn wrap64(x: int) -> int {
    x % 0x1_0000_0000_0000_0000
}

pub open spec fn abs(x: int) -> int {
    if x < 0 {
        -x
    } else {
        x
    }
}

/// Quotient rounded toward zero.
pub open spec fn trunc_div(a: int, b: int) -> int {
    if (a < 0) != (b < 0) {
        -(abs(a) / abs(b))
    } else {
        abs(a) / abs(b)
    }
}

/// Remainder of the quotient rounded toward zero: it takes the sign of `a`.
pub open spec fn trunc_rem(a: int, b: int) -> int {
    if a < 0 {
        -(abs(a) % abs(b))
    } else {
        abs(a) % abs(b)
    }
}

/// A step that did not fail: the new state and the word emitted, if any.
pub open spec fn done(regs: Seq<u32>, mem: Seq<u8>, out: Option<u32>) -> (
    CpuModel,
    Result<Option<u32>, Fault>,
) {
    (CpuModel { regs, mem }, Ok(out))
}

/// Effect of the register-register instruction `instr` fetched from the
/// address held in the program counter.
pub open spec fn exec_reg_spec(m: CpuModel, instr: u32) -> (CpuModel, Result<Option<u32>, Fault>) {
    let pc = m.regs[PC as int];
    let next = (pc + 4) as u32;
    let s = m.regs[field_s(instr) as int];
    let t = m.regs[field_t(instr) as int];
    let d = field_d(instr) as int;
    let adv = set_reg(m.regs, PC as int, next);
    let k = func_key(instr);
    if k == FN_ADD {
        done(set_reg(adv, d, wrap32(signed(s) + signed(t))), m.mem, None)
    } else if k == FN_SUB {
        done(set_reg(adv, d, wrap32(signed(s) - signed(t))), m.mem, None)
    } else if k == FN_MULT {
        let p = wrap64(signed(s) * signed(t));
        done(
            set_reg(
                set_reg(adv, HI as int, (p / 0x1_0000_0000) as u32),
                LO as int,
                (p % 0x1_0000_0000) as u32,
            ),
            m.mem,
            None,
        )
    } else if k == FN_MULTU {
        let p = s * t;
        done(
            set_reg(
                set_reg(adv, HI as int, (p / 0x1_0000_0000) as u32),
                LO as int,
                (p % 0x1_0000_0000) as u32,
            ),
            m.mem,
            None,
        )
    } else if k == FN_DIV || k == FN_DIVU {
        if t == 0 {
            (m, Err(Fault::DivideByZero))
        } else if k == FN_DIV {
            done(
                set_reg(
                    set_reg(adv, HI as int, wrap32(trunc_rem(signed(s), signed(t)))),
                    LO as int,
                    wrap32(trunc_div(signed(s), signed(t))),
                ),
                m.mem,
                None,
            )
        } else {
            done(
                set_reg(set_reg(adv, HI as int, (s % t) as u32), LO as int, (s / t) as u32),
                m.mem,
                None,
            )
        }
    } else if k == FN_MFHI {
        done(set_reg(adv, d, m.regs[HI as int]), m.mem, None)
    } else if k == FN_MFLO {
        done(set_reg(adv, d, m.regs[LO as int]), m.mem, None)
    } else if k == FN_LIS {
        if !word_fits(m.mem, next as int) {
            (m, Err(Fault::OutOfBounds { addr: next }))
        } else {
            done(
                set_reg(set_reg(m.regs, PC as int, (pc + 8) as u32), d, word_at(m.mem, next as int)),
                m.mem,
                None,
            )
        }
    } else if k == FN_SLT {
        done(set_reg(adv, d, if signed(s) < signed(t) { 1u32 } else { 0u32 }), m.mem, None)
    } else if k == FN_SLTU {
        done(set_reg(adv, d, if s < t { 1u32 } else { 0u32 }), m.mem, None)
    } else if k == FN_JR {
        done(set_reg(m.regs, PC as int, s), m.mem, None)
    } else if k == FN_JALR {
        done(set_reg(set_reg(m.regs, LINK_REG as int, next), PC as int, s), m.mem, None)
    } else {
        (m, Err(Fault::UnknownInstruction { instr }))
    }
}

/// Effect of the instruction `instr` fetched from the address held in the
/// program counter. The state is unchanged when the result is an error.
pub open spec fn execute_spec(m: CpuModel, instr: u32) -> (CpuModel, Result<Option<u32>, Fault>) {
    let pc = m.regs[PC as int];
    let next = (pc + 4) as u32;
    let s = m.regs[field_s(instr) as int];
    let t = m.regs[field_t(instr) as int];
    let ti = field_t(instr) as int;
    let adv = set_reg(m.regs, PC as int, next);
    let op = opcode(instr);
    if op == 0 {
        exec_reg_spec(m, instr)
    } else if op == OP_LW || op == OP_SW {
        let a = wrap32(signed(s) + simm(instr));
        if op == OP_SW && a == PRINT_ADDR {
            done(adv, m.mem, Some(t))
        } else if !word_fits(m.mem, a as int) {
            (m, Err(Fault::OutOfBounds { addr: a }))
        } else if op == OP_LW {
            done(set_reg(adv, ti, word_at(m.mem, a as int)), m.mem, None)
        } else {
            done(adv, store_word(m.mem, a as int, t), None)
        }
    } else if op == OP_BEQ || op == OP_BNE {
        let taken = if op == OP_BEQ { s == t } else { s != t };
        if taken {
            done(set_reg(m.regs, PC as int, wrap32(next + 4 * simm(instr))), m.mem, None)
        } else {
            done(adv, m.mem, None)
        }
    } else {
        (m, Err(Fault::UnknownInstruction { instr }))
    }
}

/// One fetch-decode-execute cycle: the word at the program counter is
/// fetched (a failed fetch leaves the state as it was) and executed.
pub open spec fn step_spec(m: CpuModel) -> (CpuModel, Result<Option<u32>, Fault>) {
    let pc = m.regs[PC as int];
    if !word_fits(m.mem, pc as int) {
        (m, Err(Fault::OutOfBounds { addr: pc }))
    } else {
        execute_spec(m, word_at(m.mem, pc as int))
    }
}

proof fn lemma_fields(i: u32)
    ensures
        field_s(i) < 32,
        field_t(i) < 32,
        field_d(i) < 32,
        func_key(i) < 0x800,
        i & 0xffff < 0x1_0000,
        opcode(i) < 64,
{
    assert((i >> 21) & 0x1f < 32 && (i >> 16) & 0x1f < 32 && (i >> 11) & 0x1f < 32) by (bit_vector);
    assert(i & 0x7ff < 0x800 && i & 0xffff < 0x1_0000 && i >> 26 < 64) by (bit_vector);
}

proof fn lemma_wrap(x: int, m: int)
    requires
        m > 0,
        -m <= x < 2 * m,
    ensures
        x % m == if x < 0 {
            x + m
        } else if x >= m {
            x - m
        } else {
            x
        },
{
    if x < 0 {
        lemma_mod_add_multiples_vanish(x, m);
        lemma_small_mod((x + m) as nat, m as nat);
    } else if x >= m {
        lemma_mod_sub_multiples_vanish(x, m);
        lemma_small_mod((x - m) as nat, m as nat);
    } else {
        lemma_small_mod(x as nat, m as nat);
    }
}

/// The low 32 bits of `x`.
fn wrap_i64(x: i64) -> (r: u32)
    requires
        -0x1_0000_0000 <= x < 0x2_0000_0000,
    ensures
        r == wrap32(x as int),
{
    proof {
        lemma_wrap(x as int, 0x1_0000_0000);
    }
    if x < 0 {
        (x + 0x1_0000_0000) as u32
    } else if x >= 0x1_0000_0000 {
        (x - 0x1_0000_0000) as u32
    } else {
        x as u32
    }
}

/// `w` read as a signed 32-bit value.
fn signed_of(w: u32) -> (r: i64)
    ensures
        r == signed(w),
        -0x8000_0000 <= r < 0x8000_0000,
{
    if w >= 0x8000_0000 {
        w as i64 - 0x1_0000_0000
    } else {
        w as i64
    }
}

/// The sign-extended 16-bit immediate of `instr`.
fn simm_of(instr: u32) -> (r: i64)
    ensures
        r == simm(instr),
        -0x8000 <= r < 0x8000,
{
    proof {
        lemma_fields(instr);
    }
    let u = instr & 0xffff;
    if u >= 0x8000 {
        u as i64 - 0x1_0000
    } else {
        u as i64
    }
}

/// Executes the register-register instruction `instr`, fetched from `pc`.
fn execute_reg(state: &mut MIPSState, instr: u32, pc: u32) -> (r: Result<Option<u32>, Fault>)
    requires
        old(state).wf(),
        pc == old(state)@.regs[PC as int],
        word_fits(old(state)@.mem, pc as int),
    ensures
        final(state).wf(),
        (final(state)@, r) == exec_reg_spec(old(state)@, instr),
{
    proof {
        lemma_fields(instr);
    }
    let next: u32 = pc + 4;
    let s_idx: u32 = (instr >> 21) & 0x1f;
    let t_idx: u32 = (instr >> 16) & 0x1f;
    let d: u32 = (instr >> 11) & 0x1f;
    let s = state.read_reg(s_idx);
    let t = state.read_reg(t_idx);
    let k: u32 = instr & 0x7ff;
    if k == FN_ADD {
        let v = wrap_i64(signed_of(s) + signed_of(t));
        state.write_reg(PC, next);
        state.write_reg(d, v);
    } else if k == FN_SUB {
        let v = wrap_i64(signed_of(s) - signed_of(t));
        state.write_reg(PC, next);
        state.write_reg(d, v);
    } else if k == FN_MULT {
        let si = signed_of(s);
        let ti = signed_of(t);
        assert(-0x4000_0000_0000_0000 <= si * ti <= 0x4000_0000_0000_0000) by (nonlinear_arith)
            requires
                -0x8000_0000 <= si < 0x8000_0000,
                -0x8000_0000 <= ti < 0x8000_0000,
        ;
        let p: i64 = si * ti;
        let u: u64 = if p >= 0 {
            p as u64
        } else {
            0xFFFF_FFFF_FFFF_FFFFu64 - ((-(p + 1)) as u64)
        };
        proof {
            lemma_wrap(p as int, 0x1_0000_0000_0000_0000);
        }
        state.write_reg(PC, next);
        state.write_reg(HI, (u / 0x1_0000_0000) as u32);
        state.write_reg(LO, (u % 0x1_0000_0000) as u32);
    } else if k == FN_MULTU {
        assert((s as int) * (t as int) <= 0xFFFF_FFFF * 0xFFFF_FFFF) by (nonlinear_arith)
            requires
                s <= 0xFFFF_FFFF,
                t <= 0xFFFF_FFFF,
        ;
        let u: u64 = (s as u64) * (t as u64);
        state.write_reg(PC, next);
        state.write_reg(HI, (u / 0x1_0000_0000) as u32);
        state.write_reg(LO, (u % 0x1_0000_0000) as u32);
    } else if k == FN_DIV || k == FN_DIVU {
        if t == 0 {
            return Err(Fault::DivideByZero);
        }
        if k == FN_DIV {
            let si = signed_of(s);
            let ti = signed_of(t);
            let sa: u64 = if si < 0 { (-si) as u64 } else { si as u64 };
            let ta: u64 = if ti < 0 { (-ti) as u64 } else { ti as u64 };
            let q: u64 = sa / ta;
            let rem: u64 = sa % ta;
            assert(q <= sa) by (nonlinear_arith)
                requires
                    ta >= 1,
                    q == sa / ta,
            ;
            let qi: i64 = if (si < 0) != (ti < 0) { -(q as i64) } else { q as i64 };
            let ri: i64 = if si < 0 { -(rem as i64) } else { rem as i64 };
            let lo = wrap_i64(qi);
            let hi = wrap_i64(ri);
            state.write_reg(PC, next);
            state.write_reg(HI, hi);
            state.write_reg(LO, lo);
        } else {
            state.write_reg(PC, next);
            state.write_reg(HI, s % t);
            state.write_reg(LO, s / t);
        }
    } else if k == FN_MFHI {
        let v = state.read_reg(HI);
        state.write_reg(PC, next);
        state.write_reg(d, v);
    } else if k == FN_MFLO {
        let v = state.read_reg(LO);
        state.write_reg(PC, next);
        state.write_reg(d, v);
    } else if k == FN_LIS {
        let lit = match state.read_mem(next) {
            Ok(w) => w,
            Err(e) => {
                return Err(e);
            },
        };
        state.write_reg(PC, pc + 8);
        state.write_reg(d, lit);
    } else if k == FN_SLT {
        let v: u32 = if signed_of(s) < signed_of(t) { 1 } else { 0 };
        state.write_reg(PC, next);
        state.write_reg(d, v);
    } else if k == FN_SLTU {
        let v: u32 = if s < t { 1 } else { 0 };
        state.write_reg(PC, next);
        state.write_reg(d, v);
    } else if k == FN_JR {
        state.write_reg(PC, s);
    } else if k == FN_JALR {
        state.write_reg(LINK_REG, next);
        state.write_reg(PC, s);
    } else {
        return Err(Fault::UnknownInstruction { instr });
    }
    Ok(None)
}

/// Performs one fetch-decode-execute cycle. On success it returns the word
/// written to the output port, if the instruction wrote one. On a fault the
/// state is left as it was.
pub fn step(state: &mut MIPSState) -> (r: Result<Option<u32>, Fault>)
    requires
        old(state).wf(),
    ensures
        final(state).wf(),
        (final(state)@, r) == step_spec(old(state)@),
{
    let pc = state.read_reg(PC);
    let instr = match state.read_mem(pc) {
        Ok(w) => w,
        Err(e) => {
            return Err(e);
        },
    };
    proof {
        lemma_fields(instr);
    }
    let op: u32 = instr >> 26;
    if op == 0 {
        return execute_reg(state, instr, pc);
    }
    let next: u32 = pc + 4;
    let s = state.read_reg((instr >> 21) & 0x1f);
    let t_idx: u32 = (instr >> 16) & 0x1f;
    let t = state.read_reg(t_idx);
    if op == OP_LW || op == OP_SW {
        let a = wrap_i64(signed_of(s) + simm_of(instr));
        if op == OP_SW {
            match state.write_mem(a, t) {
                Ok(out) => {
                    state.write_reg(PC, next);
                    Ok(out)
                },
                Err(e) => Err(e),
            }
        } else {
            match state.read_mem(a) {
                Ok(v) => {
                    state.write_reg(PC, next);
                    state.write_reg(t_idx, v);
                    Ok(None)
                },
                Err(e) => Err(e),
            }
        }
    } else if op == OP_BEQ || op == OP_BNE {
        let taken = if op == OP_BEQ { s == t } else { s != t };
        if taken {
            let target = wrap_i64(next as i64 + 4 * simm_of(instr));
            state.write_reg(PC, target);
        } else {
            state.write_reg(PC, next);
        }
        Ok(None)
    } else {
        Err(Fault::UnknownInstruction { instr })
    }
}

/// Written to the link register before a run; the run ends when the
/// program counter holds it.
pub const SENTINEL: u32 = 0xFEE1_DEAD;

/// Register holding the stack pointer, by convention.
pub const STACK_REG: u32 = 30;

/// Register holding the heap pointer, by convention.
pub const HEAP_REG: u32 = 28;

/// Register holding a procedure's return value, by convention.
pub const RET_REG: u32 = 3;

/// One past the highest stack address: the stack walk ends here.
pub const MEM_TOP: u32 = 0x100_0000;

/// Where the heap walk starts.
pub const HEAP_ORIGIN: u32 = 0x40_0000;

/// What a run counted: the steps it took and the lowest and highest values
/// that the stack and heap pointers held after a step.
#[derive(Debug, Clone, Copy, PartialEq, Eq, Structural)]
pub struct RunReport {
    pub cycles: u64,
    pub min_stack: u32,
    pub max_stack: u32,
    pub min_heap: u32,
    pub max_heap: u32,
}

pub open spec fn min_u32(a: u32, b: u32) -> u32 {
    if a <= b {
        a
    } else {
        b
    }
}

pub open spec fn max_u32(a: u32, b: u32) -> u32 {
    if a >= b {
        a
    } else {
        b
    }
}

/// The report before any step.
pub open spec fn initial_report() -> RunReport {
    RunReport { cycles: 0, min_stack: u32::MAX, max_stack: 0, min_heap: u32::MAX, max_heap: 0 }
}

/// The report after one more step that left the machine in `m`.
pub open spec fn record(st: RunReport, m: CpuModel) -> RunReport {
    let sp = m.regs[STACK_REG as int];
    let hp = m.regs[HEAP_REG as int];
    RunReport {
        cycles: (st.cycles + 1) as u64,
        min_stack: min_u32(st.min_stack, sp),
        max_stack: max_u32(st.max_stack, sp),
        min_heap: min_u32(st.min_heap, hp),
        max_heap: max_u32(st.max_heap, hp),
    }
}

/// Output after a step that emitted `o`.
pub open spec fn emit(out: Seq<u32>, o: Option<u32>) -> Seq<u32> {
    match o {
        Some(w) => out.push(w),
        None => out,
    }
}

/// The machine as a run starts it: the sentinel in the link register.
pub open spec fn run_start(m: CpuModel) -> CpuModel {
    CpuModel { regs: set_reg(m.regs, LINK_REG as int, SENTINEL), mem: m.mem }
}

/// The run loop from `m`, with report `st` so far, output `out` so far and
/// at most `fuel` further steps: the final machine, output, and outcome.
pub open spec fn run_spec(m: CpuModel, st: RunReport, fuel: nat, out: Seq<u32>) -> (
    CpuModel,
    Seq<u32>,
    Result<RunReport, Fault>,
)
    decreases fuel,
{
    if m.regs[PC as int] == SENTINEL {
        (m, out, Ok(st))
    } else if fuel == 0 {
        (m, out, Err(Fault::StepLimit))
    } else {
        let (m2, r) = step_spec(m);
        match r {
            Err(f) => (m2, out, Err(f)),
            Ok(o) => {
                let hp = m2.regs[HEAP_REG as int];
                let sp = m2.regs[STACK_REG as int];
                if hp > sp {
                    (m2, emit(out, o), Err(Fault::StackHeapCollision { heap: hp, stack: sp }))
                } else {
                    run_spec(m2, record(st, m2), (fuel - 1) as nat, emit(out, o))
                }
            },
        }
    }
}

impl RunReport {
    /// Bytes between the lowest and highest stack pointer seen.
    pub fn stack_usage(&self) -> (r: u32)
        ensures
            r == if self.max_stack >= self.min_stack {
                self.max_stack - self.min_stack
            } else {
                0
            },
    {
        if self.max_stack >= self.min_stack {
            self.max_stack - self.min_stack
        } else {
            0
        }
    }

    /// Bytes between the lowest and highest heap pointer seen.
    pub fn heap_usage(&self) -> (r: u32)
        ensures
            r == if self.max_heap >= self.min_heap {
                self.max_heap - self.min_heap
            } else {
                0
            },
    {
        if self.max_heap >= self.min_heap {
            self.max_heap - self.min_heap
        } else {
            0
        }
    }
}

/// Runs the machine until the program counter holds the sentinel, taking
/// at most `max_steps` steps. Words written to the output port are appended
/// to `output`. After every step the stack and heap pointers are recorded;
/// a heap pointer above the stack pointer ends the run with a fault.
pub fn run(state: &mut MIPSState, max_steps: u64, output: &mut Vec<u32>) -> (r: Result<RunReport, Fault>)
    requires
        old(state).wf(),
    ensures
        final(state).wf(),
        (final(state)@, final(output)@, r) == run_spec(
            run_start(old(state)@),
            initial_report(),
            max_steps as nat,
            old(output)@,
        ),
{
    state.write_reg(LINK_REG, SENTINEL);
    assert(state@ == run_start(old(state)@));
    let ghost goal = run_spec(state@, initial_report(), max_steps as nat, output@);
    let mut st = RunReport {
        cycles: 0,
        min_stack: u32::MAX,
        max_stack: 0,
        min_heap: u32::MAX,
        max_heap: 0,
    };
    loop
        invariant
            state.wf(),
            st.cycles <= max_steps,
            run_spec(state@, st, (max_steps - st.cycles) as nat, output@) == goal,
            goal == run_spec(run_start(old(state)@), initial_report(), max_steps as nat, old(output)@),
        decreases max_steps - st.cycles,
    {
        let pc = state.read_reg(PC);
        if pc == SENTINEL {
            return Ok(st);
        }
        if st.cycles == max_steps {
            return Err(Fault::StepLimit);
        }
        let o = match step(state) {
            Ok(o) => o,
            Err(e) => {
                return Err(e);
            },
        };
        match o {
            Some(w) => output.push(w),
            None => {},
        }
        let sp = state.read_reg(STACK_REG);
        let hp = state.read_reg(HEAP_REG);
        if hp > sp {
            return Err(Fault::StackHeapCollision { heap: hp, stack: sp });
        }
        st = RunReport {
            cycles: st.cycles + 1,
            min_stack: if sp < st.min_stack { sp } else { st.min_stack },
            max_stack: if sp > st.max_stack { sp } else { st.max_stack },
            min_heap: if hp < st.min_heap { hp } else { st.min_heap },
            max_heap: if hp > st.max_heap { hp } else { st.max_heap },
        };
    }
}

/// One word met by a chunk walk: its address, its value, and whether it is
/// the length header of a new chunk.
#[derive(Debug, Clone, Copy, PartialEq, Eq, Structural)]
pub struct ChunkWord {
    pub addr: u32,
    pub word: u32,
    pub chunk_start: bool,
}

/// The walk over the words from `a` up to `end`, where `left` bytes of the
/// current chunk remain (0: the next word is a chunk header). A header gives
/// its chunk's length in bytes, header included; each word consumes four of
/// them.
pub open spec fn walk_spec(mem: Seq<u8>, a: int, end: int, left: u32) -> Result<Seq<ChunkWord>, Fault>
    decreases (if a < end { end - a } else { 0 }),
{
    if a >= end {
        Ok(Seq::empty())
    } else if !word_fits(mem, a) {
        Err(Fault::OutOfBounds { addr: a as u32 })
    } else {
        let w = word_at(mem, a);
        let start = left == 0;
        let size = if start { w } else { left };
        let rest_left = if size >= 4 { (size - 4) as u32 } else { size };
        match walk_spec(mem, a + 4, end, rest_left) {
            Ok(rest) => Ok(seq![ChunkWord { addr: a as u32, word: w, chunk_start: start }] + rest),
            Err(e) => Err(e),
        }
    }
}

pub open spec fn prepend(acc: Seq<ChunkWord>, r: Result<Seq<ChunkWord>, Fault>) -> Result<Seq<ChunkWord>, Fault> {
    match r {
        Ok(rest) => Ok(acc + rest),
        Err(e) => Err(e),
    }
}

/// Walks the chunks that lie between `start` and `end`.
fn walk_chunks(state: &MIPSState, start: u32, end: u32) -> (r: Result<Vec<ChunkWord>, Fault>)
    requires
        state.wf(),
    ensures
        r matches Ok(v) ==> walk_spec(state@.mem, start as int, end as int, 0) == Ok::<Seq<ChunkWord>, Fault>(v@),
        r matches Err(e) ==> walk_spec(state@.mem, start as int, end as int, 0) == Err::<Seq<ChunkWord>, Fault>(e),
{
    let mut v: Vec<ChunkWord> = Vec::new();
    let mut a: u32 = start;
    let mut left: u32 = 0;
    assert(v@ + seq![] =~= seq![]);
    while a < end
        invariant
            state.wf(),
            walk_spec(state@.mem, start as int, end as int, 0) == prepend(
                v@,
                walk_spec(state@.mem, a as int, end as int, left),
            ),
        decreases (if a < end { end - a } else { 0 }),
    {
        let w = match state.read_mem(a) {
            Ok(w) => w,
            Err(e) => {
                return Err(e);
            },
        };
        let cw = ChunkWord { addr: a, word: w, chunk_start: left == 0 };
        let size = if left == 0 { w } else { left };
        let rest_left = if size >= 4 { size - 4 } else { size };
        proof {
            let rest = walk_spec(state@.mem, a + 4, end as int, rest_left);
            if let Ok(tail) = rest {
                assert(v@ + (seq![cw] + tail) =~= v@.push(cw) + tail);
            }
        }
        v.push(cw);
        left = rest_left;
        a = a + 4;
    }
    proof {
        assert(v@ + Seq::<ChunkWord>::empty() =~= v@);
    }
    Ok(v)
}

/// The stack as chunks: from the stack pointer up to the top of memory.
pub fn print_stack(state: &MIPSState) -> (r: Result<Vec<ChunkWord>, Fault>)
    requires
        state.wf(),
    ensures
        r matches Ok(v) ==> walk_spec(
            state@.mem,
            state@.regs[STACK_REG as int] as int,
            MEM_TOP as int,
            0,
        ) == Ok::<Seq<ChunkWord>, Fault>(v@),
        r matches Err(e) ==> walk_spec(
            state@.mem,
            state@.regs[STACK_REG as int] as int,
            MEM_TOP as int,
            0,
        ) == Err::<Seq<ChunkWord>, Fault>(e),
{
    let sp = state.read_reg(STACK_REG);
    walk_chunks(state, sp, MEM_TOP)
}

/// The heap as chunks: from the heap origin up to the heap pointer.
pub fn print_heap(state: &MIPSState) -> (r: Result<Vec<ChunkWord>, Fault>)
    requires
        state.wf(),
    ensures
        r matches Ok(v) ==> walk_spec(
            state@.mem,
            HEAP_ORIGIN as int,
            state@.regs[HEAP_REG as int] as int,
            0,
        ) == Ok::<Seq<ChunkWord>, Fault>(v@),
        r matches Err(e) ==> walk_spec(
            state@.mem,
            HEAP_ORIGIN as int,
            state@.regs[HEAP_REG as int] as int,
            0,
        ) == Err::<Seq<ChunkWord>, Fault>(e),
{
    let hp = state.read_reg(HEAP_REG);
    walk_chunks(state, HEAP_ORIGIN, hp)
}

/// Parameters held by a frame whose header reads `chunk`: the words after
/// the header and one more fixed word. A header below 8 holds none.
pub open spec fn frame_len(chunk: u32) -> nat {
    if chunk >= 8 {
        ((chunk - 8) / 4) as nat
    } else {
        0
    }
}

/// Address of parameter `i` of the frame at `sp`.
pub open spec fn param_addr(sp: u32, i: int) -> int {
    sp + 8 + 4 * i
}

/// The parameters of the frame at `sp`.
pub open spec fn frame_spec(mem: Seq<u8>, sp: u32) -> Result<Seq<u32>, Fault> {
    if !word_fits(mem, sp as int) {
        Err(Fault::OutOfBounds { addr: sp })
    } else {
        let n = frame_len(word_at(mem, sp as int));
        if n > 0 && !word_fits(mem, param_addr(sp, n - 1)) {
            Err(Fault::OutOfBounds { addr: wrap32(param_addr(sp, n - 1)) })
        } else {
            Ok(Seq::new(n, |i: int| word_at(mem, param_addr(sp, i))))
        }
    }
}

/// The parameters of the frame that the stack pointer points at, as words.
pub fn print_frame(state: &MIPSState) -> (r: Result<Vec<u32>, Fault>)
    requires
        state.wf(),
    ensures
        r matches Ok(v) ==> frame_spec(state@.mem, state@.regs[STACK_REG as int]) == Ok::<
            Seq<u32>,
            Fault,
        >(v@),
        r matches Err(e) ==> frame_spec(state@.mem, state@.regs[STACK_REG as int]) == Err::<
            Seq<u32>,
            Fault,
        >(e),
{
    let sp = state.read_reg(STACK_REG);
    let chunk = match state.read_mem(sp) {
        Ok(w) => w,
        Err(e) => {
            return Err(e);
        },
    };
    let n: u32 = if chunk >= 8 { (chunk - 8) / 4 } else { 0 };
    let ghost mem = state@.mem;
    let mut params: Vec<u32> = Vec::new();
    if n > 0 {
        let last: u64 = sp as u64 + 8 + 4 * (n as u64 - 1);
        if last + 4 > state.size() as u64 {
            proof {
                lemma_wrap(last as int, 0x1_0000_0000);
            }
            let addr: u32 = if last >= 0x1_0000_0000 { (last - 0x1_0000_0000) as u32 } else { last as u32 };
            return Err(Fault::OutOfBounds { addr });
        }
    }
    let mut i: u32 = 0;
    while i < n
        invariant
            state.wf(),
            state@.mem == mem,
            word_fits(mem, sp as int),
            n == frame_len(word_at(mem, sp as int)),
            n > 0 ==> word_fits(mem, param_addr(sp, n - 1)),
            i <= n,
            params@ == Seq::new(i as nat, |k: int| word_at(mem, param_addr(sp, k))),
        decreases n - i,
    {
        let a: u32 = sp + 8 + 4 * i;
        let w = match state.read_mem(a) {
            Ok(w) => w,
            Err(e) => {
                return Err(e);
            },
        };
        params.push(w);
        i = i + 1;
        assert(params@ =~= Seq::new(i as nat, |k: int| word_at(mem, param_addr(sp, k))));
    }
    Ok(params)
}

/// The value in the return-value register.
pub fn print_return(state: &MIPSState) -> (r: u32)
    requires
        state.wf(),
    ensures
        r == state@.regs[RET_REG as int],
{
    state.read_reg(RET_REG)
}

} // verus!
