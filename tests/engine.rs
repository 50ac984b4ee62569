use mips_sim::fault::Fault;
use mips_sim::memory::Memory;
use mips_sim::mips_cpu::{
    print_frame, print_heap, print_return, print_stack, run, step, ChunkWord, RunReport,
    HEAP_ORIGIN, MEM_TOP, SENTINEL,
};
use mips_sim::mips_state::{MIPSState, HI, LO, PC, PRINT_ADDR};

fn r_type(s: u32, t: u32, d: u32, func: u32) -> u32 {
    (s << 21) | (t << 16) | (d << 11) | func
}

fn i_type(op: u32, s: u32, t: u32, imm: i16) -> u32 {
    (op << 26) | (s << 21) | (t << 16) | (imm as u16 as u32)
}

fn machine(words: &[u32], size: u32) -> MIPSState {
    let mut bytes: Vec<u8> = Vec::new();
    for w in words {
        bytes.extend_from_slice(&w.to_le_bytes());
    }
    while (bytes.len() as u32) < size {
        bytes.push(0);
    }
    MIPSState::new(Memory::from_vec(bytes))
}

const JR_31: u32 = 0x03E0_0008;

#[test]
fn add_end_to_end() {
    let mut st = machine(&[0x0022_1820], 4);
    st.write_reg(1, 5);
    st.write_reg(2, 3);
    assert_eq!(step(&mut st), Ok(None));
    assert_eq!(st.read_reg(3), 8);
    assert_eq!(st.read_reg(PC), 4);
}

#[test]
fn add_wraps_on_signed_overflow() {
    let mut st = machine(&[r_type(1, 2, 3, 0x20)], 4);
    st.write_reg(1, 0x7FFF_FFFF);
    st.write_reg(2, 1);
    assert_eq!(step(&mut st), Ok(None));
    assert_eq!(st.read_reg(3), 0x8000_0000);
}

#[test]
fn sub_wraps_on_signed_overflow() {
    let mut st = machine(&[r_type(1, 2, 3, 0x22)], 4);
    st.write_reg(1, 0x8000_0000);
    st.write_reg(2, 1);
    assert_eq!(step(&mut st), Ok(None));
    assert_eq!(st.read_reg(3), 0x7FFF_FFFF);
}

#[test]
fn add_to_register_zero_is_discarded() {
    let mut st = machine(&[r_type(1, 2, 0, 0x20)], 4);
    st.write_reg(1, 5);
    st.write_reg(2, 3);
    assert_eq!(step(&mut st), Ok(None));
    assert_eq!(st.read_reg(0), 0);
    assert_eq!(st.read_reg(PC), 4);
}

#[test]
fn mult_end_to_end() {
    let mut st = machine(&[0x0022_0018], 4);
    st.write_reg(1, 5);
    st.write_reg(2, 3);
    assert_eq!(step(&mut st), Ok(None));
    assert_eq!(st.read_reg(LO), 15);
    assert_eq!(st.read_reg(HI), 0);
}

#[test]
fn mult_negative_sign_extends_into_hi() {
    let mut st = machine(&[r_type(1, 2, 0, 0x18)], 4);
    st.write_reg(1, 0xFFFF_FFFF);
    st.write_reg(2, 2);
    assert_eq!(step(&mut st), Ok(None));
    assert_eq!(st.read_reg(LO), 0xFFFF_FFFE);
    assert_eq!(st.read_reg(HI), 0xFFFF_FFFF);
}

#[test]
fn multu_splits_product() {
    let mut st = machine(&[r_type(1, 2, 0, 0x19)], 4);
    st.write_reg(1, 0xFFFF_FFFF);
    st.write_reg(2, 2);
    assert_eq!(step(&mut st), Ok(None));
    assert_eq!(st.read_reg(LO), 0xFFFF_FFFE);
    assert_eq!(st.read_reg(HI), 1);
}

#[test]
fn div_truncates_toward_zero() {
    let mut st = machine(&[r_type(1, 2, 0, 0x1a)], 4);
    st.write_reg(1, (-7i32) as u32);
    st.write_reg(2, 2);
    assert_eq!(step(&mut st), Ok(None));
    assert_eq!(st.read_reg(LO) as i32, -3);
    assert_eq!(st.read_reg(HI) as i32, -1);
    let lo = st.read_reg(LO) as i32;
    let hi = st.read_reg(HI) as i32;
    assert_eq!(lo * 2 + hi, -7);
}

#[test]
fn div_by_negative_divisor() {
    let mut st = machine(&[r_type(1, 2, 0, 0x1a)], 4);
    st.write_reg(1, 7);
    st.write_reg(2, (-2i32) as u32);
    assert_eq!(step(&mut st), Ok(None));
    assert_eq!(st.read_reg(LO) as i32, -3);
    assert_eq!(st.read_reg(HI) as i32, 1);
}

#[test]
fn div_most_negative_by_minus_one_wraps() {
    let mut st = machine(&[r_type(1, 2, 0, 0x1a)], 4);
    st.write_reg(1, 0x8000_0000);
    st.write_reg(2, 0xFFFF_FFFF);
    assert_eq!(step(&mut st), Ok(None));
    assert_eq!(st.read_reg(LO), 0x8000_0000);
    assert_eq!(st.read_reg(HI), 0);
}

#[test]
fn divu_is_unsigned() {
    let mut st = machine(&[r_type(1, 2, 0, 0x1b)], 4);
    st.write_reg(1, 0xFFFF_FFF9);
    st.write_reg(2, 2);
    assert_eq!(step(&mut st), Ok(None));
    assert_eq!(st.read_reg(LO), 0x7FFF_FFFC);
    assert_eq!(st.read_reg(HI), 1);
}

#[test]
fn divide_by_zero_faults_and_changes_nothing() {
    for func in [0x1a, 0x1b] {
        let mut st = machine(&[r_type(1, 2, 0, func)], 4);
        st.write_reg(1, 9);
        assert_eq!(step(&mut st), Err(Fault::DivideByZero));
        assert_eq!(st.read_reg(PC), 0);
        assert_eq!(st.read_reg(LO), 0);
    }
}

#[test]
fn mfhi_and_mflo_copy_accumulators() {
    let mut st = machine(&[r_type(0, 0, 4, 0x10), r_type(0, 0, 5, 0x12)], 8);
    st.write_reg(HI, 11);
    st.write_reg(LO, 22);
    assert_eq!(step(&mut st), Ok(None));
    assert_eq!(step(&mut st), Ok(None));
    assert_eq!(st.read_reg(4), 11);
    assert_eq!(st.read_reg(5), 22);
    assert_eq!(st.read_reg(PC), 8);
}

#[test]
fn lis_loads_literal_and_skips_it() {
    let mut st = machine(&[0, r_type(0, 0, 7, 0x14), 0xCAFE_F00D, 0], 16);
    st.write_reg(PC, 4);
    assert_eq!(step(&mut st), Ok(None));
    assert_eq!(st.read_reg(7), 0xCAFE_F00D);
    assert_eq!(st.read_reg(PC), 12);
}

#[test]
fn lis_without_literal_is_out_of_bounds() {
    let mut st = machine(&[r_type(0, 0, 7, 0x14)], 4);
    assert_eq!(step(&mut st), Err(Fault::OutOfBounds { addr: 4 }));
    assert_eq!(st.read_reg(PC), 0);
    assert_eq!(st.read_reg(7), 0);
}

#[test]
fn slt_and_sltu_compare() {
    let mut st = machine(&[r_type(1, 2, 3, 0x2a), r_type(1, 2, 4, 0x2b)], 8);
    st.write_reg(1, 0xFFFF_FFFF);
    st.write_reg(2, 1);
    assert_eq!(step(&mut st), Ok(None));
    assert_eq!(step(&mut st), Ok(None));
    assert_eq!(st.read_reg(3), 1);
    assert_eq!(st.read_reg(4), 0);
}

#[test]
fn jr_and_jalr_jump_without_delay_slot() {
    let mut st = machine(&[r_type(1, 0, 0, 0x09), 0, 0, r_type(2, 0, 0, 0x08)], 16);
    st.write_reg(1, 12);
    st.write_reg(2, 4);
    assert_eq!(step(&mut st), Ok(None));
    assert_eq!(st.read_reg(31), 4);
    assert_eq!(st.read_reg(PC), 12);
    assert_eq!(step(&mut st), Ok(None));
    assert_eq!(st.read_reg(PC), 4);
}

#[test]
fn branch_with_zero_offset_falls_through() {
    for (op, a, b) in [(4u32, 1u32, 1u32), (4, 1, 2), (5, 1, 2), (5, 1, 1)] {
        let mut st = machine(&[i_type(op, 1, 2, 0)], 4);
        st.write_reg(1, a);
        st.write_reg(2, b);
        assert_eq!(step(&mut st), Ok(None));
        assert_eq!(st.read_reg(PC), 4);
    }
}

#[test]
fn branch_offsets_count_words_from_next_instruction() {
    let mut st = machine(&[0, 0, 0, i_type(4, 0, 0, -3)], 16);
    st.write_reg(PC, 12);
    assert_eq!(step(&mut st), Ok(None));
    assert_eq!(st.read_reg(PC), 4);
    let mut st = machine(&[i_type(5, 1, 0, 2)], 4);
    st.write_reg(1, 1);
    assert_eq!(step(&mut st), Ok(None));
    assert_eq!(st.read_reg(PC), 12);
}

#[test]
fn store_then_load_round_trip() {
    let mut st = machine(&[i_type(0x2b, 1, 2, 0), i_type(0x23, 1, 3, 0)], 32);
    st.write_reg(1, 16);
    st.write_reg(2, 0x8765_4321);
    assert_eq!(step(&mut st), Ok(None));
    assert_eq!(step(&mut st), Ok(None));
    assert_eq!(st.read_reg(3), 0x8765_4321);
    assert_eq!(st.read_mem(16), Ok(0x8765_4321));
}

#[test]
fn load_uses_signed_offset() {
    let mut st = machine(&[i_type(0x23, 1, 3, -4), 0x0BAD_F00D], 8);
    st.write_reg(1, 8);
    assert_eq!(step(&mut st), Ok(None));
    assert_eq!(st.read_reg(3), 0x0BAD_F00D);
}

#[test]
fn store_out_of_bounds_faults() {
    let mut st = machine(&[i_type(0x2b, 1, 2, 0)], 8);
    st.write_reg(1, 6);
    assert_eq!(step(&mut st), Err(Fault::OutOfBounds { addr: 6 }));
    assert_eq!(st.read_reg(PC), 0);
}

#[test]
fn store_to_output_port_emits_word() {
    let mut st = machine(&[i_type(0x2b, 1, 2, 0)], 8);
    st.write_reg(1, PRINT_ADDR);
    st.write_reg(2, 'h' as u32);
    assert_eq!(step(&mut st), Ok(Some('h' as u32)));
    assert_eq!(st.read_reg(PC), 4);
    assert_eq!(st.read_mem(4), Ok(0));
}

#[test]
fn unknown_instructions_fault() {
    let bad_func = r_type(1, 2, 3, 0x21);
    let mut st = machine(&[bad_func], 4);
    assert_eq!(step(&mut st), Err(Fault::UnknownInstruction { instr: bad_func }));
    assert_eq!(st.read_reg(PC), 0);
    let shifted_add = r_type(1, 2, 3, 0x20 | (1 << 6));
    let mut st = machine(&[shifted_add], 4);
    assert_eq!(step(&mut st), Err(Fault::UnknownInstruction { instr: shifted_add }));
    let bad_op = i_type(0x3f, 0, 0, 0);
    let mut st = machine(&[bad_op], 4);
    assert_eq!(step(&mut st), Err(Fault::UnknownInstruction { instr: bad_op }));
}

#[test]
fn fetch_out_of_bounds_faults() {
    let mut st = machine(&[0], 4);
    st.write_reg(PC, 4);
    assert_eq!(step(&mut st), Err(Fault::OutOfBounds { addr: 4 }));
}

#[test]
fn run_stops_at_sentinel_and_counts_steps() {
    let mut st = machine(&[0x0022_1820, JR_31], 8);
    st.write_reg(1, 5);
    st.write_reg(2, 3);
    st.write_reg(30, 8);
    let mut out: Vec<u32> = Vec::new();
    let report = run(&mut st, 100, &mut out).unwrap();
    assert_eq!(report.cycles, 2);
    assert_eq!(st.read_reg(PC), SENTINEL);
    assert_eq!(st.read_reg(31), SENTINEL);
    assert_eq!(st.read_reg(3), 8);
    assert_eq!(print_return(&st), 8);
    assert!(out.is_empty());
    assert_eq!(
        report,
        RunReport { cycles: 2, min_stack: 8, max_stack: 8, min_heap: 0, max_heap: 0 }
    );
    assert_eq!(report.stack_usage(), 0);
    assert_eq!(report.heap_usage(), 0);
}

#[test]
fn run_collects_output_port_words() {
    let mut st = machine(&[i_type(0x2b, 1, 2, 0), i_type(0x2b, 1, 3, 0), JR_31], 12);
    st.write_reg(1, PRINT_ADDR);
    st.write_reg(2, 'o' as u32);
    st.write_reg(3, 'k' as u32);
    let mut out: Vec<u32> = Vec::new();
    let report = run(&mut st, 100, &mut out).unwrap();
    assert_eq!(report.cycles, 3);
    assert_eq!(out, vec!['o' as u32, 'k' as u32]);
}

#[test]
fn run_tracks_stack_range() {
    // sp -= 8 (via sub with a literal), then sp += 8, then return
    let prog = [
        r_type(0, 0, 4, 0x14),
        8,
        r_type(30, 4, 30, 0x22),
        r_type(30, 4, 30, 0x20),
        JR_31,
    ];
    let mut st = machine(&prog, 20);
    st.write_reg(30, 64);
    let mut out: Vec<u32> = Vec::new();
    let report = run(&mut st, 100, &mut out).unwrap();
    assert_eq!(report.cycles, 4);
    assert_eq!(report.min_stack, 56);
    assert_eq!(report.max_stack, 64);
    assert_eq!(report.stack_usage(), 8);
}

#[test]
fn run_that_never_returns_hits_step_limit() {
    let mut st = machine(&[i_type(4, 0, 0, -1)], 4);
    let mut out: Vec<u32> = Vec::new();
    assert_eq!(run(&mut st, 10, &mut out), Err(Fault::StepLimit));
    assert_eq!(st.read_reg(PC), 0);
}

#[test]
fn run_aborts_on_stack_heap_collision() {
    let mut st = machine(&[r_type(0, 0, 28, 0x14), 200, JR_31], 12);
    st.write_reg(30, 100);
    let mut out: Vec<u32> = Vec::new();
    assert_eq!(
        run(&mut st, 100, &mut out),
        Err(Fault::StackHeapCollision { heap: 200, stack: 100 })
    );
    assert_eq!(st.read_reg(PC), 8);
    assert_eq!(st.read_reg(28), 200);
}

#[test]
fn run_passes_on_faults() {
    let mut st = machine(&[r_type(0, 0, 0, 0x3f)], 4);
    let mut out: Vec<u32> = Vec::new();
    assert_eq!(
        run(&mut st, 100, &mut out),
        Err(Fault::UnknownInstruction { instr: 0x3f })
    );
}

#[test]
fn stack_walk_splits_chunks_by_header() {
    let mut st = MIPSState::new(Memory::new(MEM_TOP));
    let sp = MEM_TOP - 20;
    st.write_reg(30, sp);
    assert_eq!(st.write_mem(sp, 12), Ok(None));
    assert_eq!(st.write_mem(sp + 4, 0xA), Ok(None));
    assert_eq!(st.write_mem(sp + 8, 0xB), Ok(None));
    assert_eq!(st.write_mem(sp + 12, 8), Ok(None));
    assert_eq!(st.write_mem(sp + 16, 0xC), Ok(None));
    let walk = print_stack(&st).unwrap();
    let starts: Vec<bool> = walk.iter().map(|c| c.chunk_start).collect();
    assert_eq!(starts, vec![true, false, false, true, false]);
    assert_eq!(walk[1], ChunkWord { addr: sp + 4, word: 0xA, chunk_start: false });
    assert_eq!(walk[4], ChunkWord { addr: sp + 16, word: 0xC, chunk_start: false });
}

#[test]
fn stack_walk_needs_memory_up_to_top() {
    let mut st = MIPSState::new(Memory::new(64));
    st.write_reg(30, 60);
    assert_eq!(print_stack(&st), Err(Fault::OutOfBounds { addr: 64 }));
}

#[test]
fn heap_walk_runs_from_origin_to_heap_pointer() {
    let mut st = MIPSState::new(Memory::new(HEAP_ORIGIN + 16));
    st.write_reg(28, HEAP_ORIGIN + 12);
    assert_eq!(st.write_mem(HEAP_ORIGIN, 8), Ok(None));
    assert_eq!(st.write_mem(HEAP_ORIGIN + 4, 5), Ok(None));
    assert_eq!(st.write_mem(HEAP_ORIGIN + 8, 0), Ok(None));
    let walk = print_heap(&st).unwrap();
    assert_eq!(
        walk,
        vec![
            ChunkWord { addr: HEAP_ORIGIN, word: 8, chunk_start: true },
            ChunkWord { addr: HEAP_ORIGIN + 4, word: 5, chunk_start: false },
            ChunkWord { addr: HEAP_ORIGIN + 8, word: 0, chunk_start: true },
        ]
    );
    st.write_reg(28, 0);
    assert_eq!(print_heap(&st), Ok(vec![]));
}

#[test]
fn frame_lists_parameters() {
    let mut st = MIPSState::new(Memory::new(64));
    st.write_reg(30, 16);
    assert_eq!(st.write_mem(16, 16), Ok(None));
    assert_eq!(st.write_mem(24, (-5i32) as u32), Ok(None));
    assert_eq!(st.write_mem(28, 9), Ok(None));
    assert_eq!(print_frame(&st), Ok(vec![(-5i32) as u32, 9]));
    assert_eq!(st.write_mem(16, 4), Ok(None));
    assert_eq!(print_frame(&st), Ok(vec![]));
    assert_eq!(st.write_mem(16, 64), Ok(None));
    assert_eq!(print_frame(&st), Err(Fault::OutOfBounds { addr: 76 }));
}
