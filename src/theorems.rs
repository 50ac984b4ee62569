use vstd::prelude::*;
use vstd::arithmetic::div_mod::{
    lemma_fundamental_div_mod, lemma_mod_add_multiples_vanish, lemma_small_mod,
};

use crate::fault::Fault;
use crate::mips_cpu::{
    abs, done, emit, execute_spec, field_d, func_key, opcode, record, run_spec, signed, simm,
    step_spec, trunc_div, trunc_rem, wrap32, FN_LIS, HEAP_REG, OP_BEQ, OP_BNE, SENTINEL,
    STACK_REG, RunReport,
};
use crate::mips_state::{
    CpuModel, model_wf, set_reg, store_word, word_at, word_fits, NUM_REGS, PC, PRINT_ADDR,
};

verus! {

/// Register 0 reads zero after any register write.
pub proof fn lemma_write_keeps_zero(regs: Seq<u32>, i: int, v: u32)
    requires
        regs.len() == NUM_REGS,
        regs[0] == 0,
        0 <= i < NUM_REGS,
    ensures
        set_reg(regs, i, v)[0] == 0,
        set_reg(regs, i, v).len() == NUM_REGS,
{
}

/// A step keeps the machine well formed, so register 0 still reads zero
/// after it, whatever the instruction wrote.
pub proof fn lemma_step_keeps_zero(m: CpuModel)
    requires
        model_wf(m),
    ensures
        model_wf(step_spec(m).0),
        step_spec(m).0.regs[0] == 0,
{
    let pc = m.regs[PC as int];
    if word_fits(m.mem, pc as int) {
        let i = word_at(m.mem, pc as int);
        assert((i >> 21) & 0x1f < 32 && (i >> 16) & 0x1f < 32 && (i >> 11) & 0x1f < 32) by (bit_vector);
    }
}

/// Storing a word and loading it back from the same address gives the word.
pub proof fn lemma_store_then_load(mem: Seq<u8>, a: int, w: u32)
    requires
        word_fits(mem, a),
    ensures
        store_word(mem, a, w).len() == mem.len(),
        word_at(store_word(mem, a, w), a) == w,
{
    let m2 = store_word(mem, a, w);
    let x = w as int;
    lemma_fundamental_div_mod(x, 0x100);
    lemma_fundamental_div_mod(x / 0x100, 0x100);
    lemma_fundamental_div_mod(x / 0x100 / 0x100, 0x100);
    assert(x / 0x100 / 0x100 == x / 0x1_0000) by (nonlinear_arith)
        requires
            x >= 0,
    ;
    assert(x / 0x1_0000 / 0x100 == x / 0x100_0000) by (nonlinear_arith)
        requires
            x >= 0,
    ;
    assert(x / 0x100_0000 < 0x100) by (nonlinear_arith)
        requires
            0 <= x < 0x1_0000_0000,
    ;
    assert(m2[a] == x % 0x100);
    assert(m2[a + 1] == x / 0x100 % 0x100);
    assert(m2[a + 2] == x / 0x1_0000 % 0x100);
    assert(m2[a + 3] == x / 0x100_0000);
}

/// Signed division: for a nonzero divisor the quotient rounds toward zero,
/// the remainder takes the dividend's sign and is smaller than the divisor,
/// and quotient times divisor plus remainder is the dividend. Outside the
/// one overflowing case (the most negative word divided by -1) both fit in
/// a word, so LO and HI read back as signed give them exactly.
pub proof fn lemma_div_identity(s: u32, t: u32)
    requires
        t != 0,
    ensures
        ({
            let a = signed(s);
            let b = signed(t);
            let q = trunc_div(a, b);
            let r = trunc_rem(a, b);
            &&& q * b + r == a
            &&& abs(r) < abs(b)
            &&& (r == 0 || (r < 0) == (a < 0))
            &&& abs(q) == abs(a) / abs(b)
            &&& !(s == 0x8000_0000 && t == 0xFFFF_FFFF) ==> signed(wrap32(q)) == q
                && signed(wrap32(r)) == r
                && signed(wrap32(q)) * b + signed(wrap32(r)) == a
        }),
{
    let a = signed(s);
    let b = signed(t);
    let q = trunc_div(a, b);
    let r = trunc_rem(a, b);
    let qa = abs(a) / abs(b);
    let ra = abs(a) % abs(b);
    lemma_fundamental_div_mod(abs(a), abs(b));
    assert(abs(a) == abs(b) * qa + ra);
    assert(0 <= ra < abs(b));
    assert(q * b + r == a) by (nonlinear_arith)
        requires
            abs(a) == abs(b) * qa + ra,
            a < 0 ==> abs(a) == -a,
            a >= 0 ==> abs(a) == a,
            b < 0 ==> abs(b) == -b,
            b >= 0 ==> abs(b) == b,
            q == if (a < 0) != (b < 0) { -qa } else { qa },
            r == if a < 0 { -ra } else { ra },
    ;
    assert(qa <= abs(a)) by (nonlinear_arith)
        requires
            abs(a) == abs(b) * qa + ra,
            abs(b) >= 1,
            ra >= 0,
            qa >= 0,
    ;
    assert(qa >= 0) by (nonlinear_arith)
        requires
            abs(a) >= 0,
            abs(b) >= 1,
            qa == abs(a) / abs(b),
    ;
    if !(s == 0x8000_0000 && t == 0xFFFF_FFFF) {
        assert(-0x8000_0000 <= q < 0x8000_0000) by {
            if qa == 0x8000_0000 {
                assert(abs(b) == 1) by (nonlinear_arith)
                    requires
                        abs(a) == abs(b) * qa + ra,
                        abs(a) <= 0x8000_0000,
                        qa == 0x8000_0000,
                        ra >= 0,
                        abs(b) >= 1,
                ;
            }
        }
        lemma_signed_wrap(q);
        lemma_signed_wrap(r);
    }
}

/// A word-sized signed value survives the trip to a word and back.
pub proof fn lemma_signed_wrap(x: int)
    requires
        -0x8000_0000 <= x < 0x8000_0000,
    ensures
        signed(wrap32(x)) == x,
{
    if x < 0 {
        lemma_mod_add_multiples_vanish(x, 0x1_0000_0000);
        lemma_small_mod((x + 0x1_0000_0000) as nat, 0x1_0000_0000);
    } else {
        lemma_small_mod(x as nat, 0x1_0000_0000);
    }
}

/// A `beq` or `bne` whose offset is zero leaves the program counter at the
/// next instruction whether or not it is taken, and changes nothing else.
pub proof fn lemma_branch_zero_offset(m: CpuModel)
    requires
        model_wf(m),
        word_fits(m.mem, m.regs[PC as int] as int),
        opcode(word_at(m.mem, m.regs[PC as int] as int)) == OP_BEQ || opcode(
            word_at(m.mem, m.regs[PC as int] as int),
        ) == OP_BNE,
        simm(word_at(m.mem, m.regs[PC as int] as int)) == 0,
    ensures
        step_spec(m) == done(
            set_reg(m.regs, PC as int, (m.regs[PC as int] + 4) as u32),
            m.mem,
            None,
        ),
{
    let next = m.regs[PC as int] + 4;
    lemma_small_mod(next as nat, 0x1_0000_0000);
}

/// `lis` loads the word after it into its destination register and moves
/// the program counter past that word.
pub proof fn lemma_lis_skips_literal(m: CpuModel)
    requires
        model_wf(m),
        word_fits(m.mem, m.regs[PC as int] + 4),
        opcode(word_at(m.mem, m.regs[PC as int] as int)) == 0,
        func_key(word_at(m.mem, m.regs[PC as int] as int)) == FN_LIS,
    ensures
        ({
            let pc = m.regs[PC as int];
            let d = field_d(word_at(m.mem, pc as int)) as int;
            let (m2, r) = step_spec(m);
            &&& r == Ok::<Option<u32>, Fault>(None)
            &&& m2.regs[PC as int] == pc + 8
            &&& d != 0 ==> m2.regs[d] == word_at(m.mem, pc + 4)
            &&& m2.mem == m.mem
        }),
{
    let i = word_at(m.mem, m.regs[PC as int] as int);
    assert((i >> 11) & 0x1f < 32) by (bit_vector);
}

/// The machine after `n` successful steps from `m`.
pub open spec fn steps_from(m: CpuModel, n: nat) -> CpuModel
    decreases n,
{
    if n == 0 {
        m
    } else {
        steps_from(step_spec(m).0, (n - 1) as nat)
    }
}

/// A run that ends without a fault ends exactly when the program counter
/// first holds the sentinel: its report counts the steps taken, every step
/// succeeded, and no earlier state held the sentinel.
pub proof fn lemma_run_ends_at_sentinel(m: CpuModel, st: RunReport, fuel: nat, out: Seq<u32>)
    requires
        st.cycles + fuel <= u64::MAX,
    ensures
        ({
            let (m2, out2, r) = run_spec(m, st, fuel, out);
            r is Ok ==> {
                let n = (r->Ok_0.cycles - st.cycles) as nat;
                &&& st.cycles <= r->Ok_0.cycles
                &&& n <= fuel
                &&& m2 == steps_from(m, n)
                &&& m2.regs[PC as int] == SENTINEL
                &&& forall|j: nat|
                    j < n ==> (#[trigger] steps_from(m, j)).regs[PC as int] != SENTINEL
                        && step_spec(steps_from(m, j)).1 is Ok
            }
        }),
    decreases fuel,
{
    if m.regs[PC as int] == SENTINEL || fuel == 0 {
    } else {
        let (m2, r) = step_spec(m);
        if let Ok(o) = r {
            let hp = m2.regs[HEAP_REG as int];
            let sp = m2.regs[STACK_REG as int];
            if hp <= sp {
                lemma_run_ends_at_sentinel(m2, record(st, m2), (fuel - 1) as nat, emit(out, o));
                let res = run_spec(m, st, fuel, out);
                if res.2 is Ok {
                    let n = (res.2->Ok_0.cycles - st.cycles) as nat;
                    assert(n >= 1);
                    assert(steps_from(m, n) == steps_from(m2, (n - 1) as nat));
                    assert forall|j: nat| j < n implies (#[trigger] steps_from(m, j)).regs[PC as int]
                        != SENTINEL && step_spec(steps_from(m, j)).1 is Ok by {
                        if j > 0 {
                            assert(steps_from(m, j) == steps_from(m2, (j - 1) as nat));
                        }
                    }
                }
            }
        }
    }
}

/// When a step leaves the heap pointer above the stack pointer, the run
/// stops right there with a collision fault: no further step is taken.
pub proof fn lemma_collision_stops_run(m: CpuModel, st: RunReport, fuel: nat, out: Seq<u32>)
    requires
        m.regs[PC as int] != SENTINEL,
        fuel > 0,
        step_spec(m).1 is Ok,
        step_spec(m).0.regs[HEAP_REG as int] > step_spec(m).0.regs[STACK_REG as int],
    ensures
        run_spec(m, st, fuel, out) == (
            step_spec(m).0,
            emit(out, step_spec(m).1->Ok_0),
            Err::<RunReport, Fault>(
                Fault::StackHeapCollision {
                    heap: step_spec(m).0.regs[HEAP_REG as int],
                    stack: step_spec(m).0.regs[STACK_REG as int],
                },
            ),
        ),
{
}

/// `sw $2, 0($1)` followed by `lw $3, 0($1)`: when register 1 holds an
/// address inside memory that is not the output port and the store does not
/// overwrite the load, the two steps succeed and register 3 ends up holding
/// what register 2 held.
pub proof fn lemma_store_load_program(m: CpuModel)
    requires
        model_wf(m),
        word_fits(m.mem, m.regs[PC as int] + 4),
        word_at(m.mem, m.regs[PC as int] as int) == 0xAC22_0000,
        word_at(m.mem, m.regs[PC as int] + 4) == 0x8C23_0000,
        m.regs[1] != PRINT_ADDR,
        word_fits(m.mem, m.regs[1] as int),
        m.regs[1] + 4 <= m.regs[PC as int] + 4 || m.regs[1] >= m.regs[PC as int] + 8,
    ensures
        ({
            let (m2, r2) = step_spec(m);
            let (m3, r3) = step_spec(m2);
            &&& r2 == Ok::<Option<u32>, Fault>(None)
            &&& r3 == Ok::<Option<u32>, Fault>(None)
            &&& m3.regs[3] == m.regs[2]
            &&& m3.regs[PC as int] == m.regs[PC as int] + 8
        }),
{
    let sw: u32 = 0xAC22_0000;
    let lw: u32 = 0x8C23_0000;
    assert(0xAC22_0000u32 >> 26u32 == 0x2bu32 && (0xAC22_0000u32 >> 21u32) & 0x1fu32 == 1u32
        && (0xAC22_0000u32 >> 16u32) & 0x1fu32 == 2u32 && 0xAC22_0000u32 & 0xffffu32 == 0u32)
        by (bit_vector);
    assert(0x8C23_0000u32 >> 26u32 == 0x23u32 && (0x8C23_0000u32 >> 21u32) & 0x1fu32 == 1u32
        && (0x8C23_0000u32 >> 16u32) & 0x1fu32 == 3u32 && 0x8C23_0000u32 & 0xffffu32 == 0u32)
        by (bit_vector);
    let a = m.regs[1];
    if a >= 0x8000_0000 {
        lemma_mod_add_multiples_vanish(a - 0x1_0000_0000, 0x1_0000_0000);
    }
    lemma_small_mod(a as nat, 0x1_0000_0000);
    assert(wrap32(signed(a) + simm(sw)) == a);
    let pc = m.regs[PC as int];
    let m2 = step_spec(m).0;
    let mem2 = store_word(m.mem, a as int, m.regs[2]);
    assert(m2.mem == mem2);
    assert(m2.regs[PC as int] == pc + 4);
    assert(word_at(mem2, pc + 4) == lw);
    lemma_store_then_load(m.mem, a as int, m.regs[2]);
}

} // verus!
