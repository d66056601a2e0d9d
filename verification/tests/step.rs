use ff::{Field, PrimeField};
use jolt_r1cs::builder::R1CSBuilder;
use jolt_r1cs::field::{i64_to_f, FieldElement};
use jolt_r1cs::layout::{GET_INDEX, GET_TOTAL_LEN, MEMORY_ADDRESS_OFFSET};
use spartan2::provider::bn254::types::Scalar;

const RAM_START_ADDRESS: i64 = 0x8000_0000;

const IS_LOAD: usize = 2;
const IS_STORE: usize = 3;
const IS_JUMP: usize = 4;
const IS_BRANCH: usize = 5;
const IF_UPDATE_RD: usize = 6;
const IS_ADD: usize = 7;
const IS_SUB: usize = 8;
const IS_MUL: usize = 9;
const IS_ADVICE: usize = 10;
const IS_ASSERT_FALSE: usize = 11;
const IS_ASSERT_TRUE: usize = 12;
const SIGN_IMM: usize = 13;
const IS_CONCAT: usize = 14;
const IS_LUI_AUIPC: usize = 15;
const IS_SHIFT: usize = 16;

// The wires that the circuit allots, in order.
const IMMEDIATE: usize = 63;
const X: usize = 64;
const Y_RAW: usize = 65;
const Y: usize = 66;
const LOAD_OR_STORE_VALUE: usize = 67;
const IMMEDIATE_SIGNED: usize = 68;
const COMBINED_Z_CHUNKS: usize = 69;
const IS_MUL_X: usize = 70;
const IS_MUL_XY: usize = 71;
const CHUNK_Y_USED: usize = 72;
const RD_UPDATED: usize = 76;
const RD_LINKED: usize = 77;
const BRANCH_TAKEN: usize = 78;
const NEXT_PC_J: usize = 79;
const NEXT_PC_J_B: usize = 80;

/// The inputs of a step, wire by wire: everything after the constant and the
/// output state.
struct Step {
    inputs: Vec<FieldElement>,
}

impl Step {
    fn new() -> Step {
        Step { inputs: vec![i64_to_f(0); GET_TOTAL_LEN() - 3] }
    }

    fn set(&mut self, name: &str, offset: usize, value: i64) {
        let wire = GET_INDEX(name, offset).unwrap();
        self.inputs[wire - 3] = i64_to_f(value);
    }

    /// Sets the flags and the packed flags that go with them.
    fn flags(&mut self, set: &[usize]) {
        let mut packed: i64 = 0;
        for k in set {
            self.set("op_flags", *k, 1);
            packed += 1 << (16 - *k);
        }
        self.set("prog_v_rw", 5, packed);
    }

    /// The registers of the instruction, also as the first three addresses.
    fn registers(&mut self, rs1: i64, rs2: i64, rd: i64) {
        self.set("prog_v_rw", 1, rs1);
        self.set("prog_v_rw", 2, rs2);
        self.set("prog_v_rw", 3, rd);
        self.set("memreg_a_rw", 0, rs1);
        self.set("memreg_a_rw", 1, rs2);
        self.set("memreg_a_rw", 2, rd);
    }

    /// The values of the source registers, which reading leaves alone.
    fn sources(&mut self, rs1_val: i64, rs2_val: i64) {
        self.set("memreg_v_reads", 0, rs1_val);
        self.set("memreg_v_writes", 0, rs1_val);
        self.set("memreg_v_reads", 1, rs2_val);
        self.set("memreg_v_writes", 1, rs2_val);
    }

    fn build(&self) -> R1CSBuilder {
        R1CSBuilder::get_matrices(Some(self.inputs.clone())).unwrap()
    }
}

fn scalar(e: &FieldElement) -> Scalar {
    Scalar::from_repr(e.to_bytes().into()).unwrap()
}

fn coefficient(c: i64) -> Scalar {
    if c < 0 {
        Scalar::ZERO - Scalar::from(c.unsigned_abs())
    } else {
        Scalar::from(c as u64)
    }
}

fn row_value(matrix: &[(usize, usize, i64)], row: usize, z: &[Scalar]) -> Scalar {
    let mut sum = Scalar::ZERO;
    for (r, wire, c) in matrix {
        if *r == row {
            sum += z[*wire] * coefficient(*c);
        }
    }
    sum
}

/// The rows on which `(A z) * (B z) = C z` fails.
fn failing_rows(b: &R1CSBuilder) -> Vec<usize> {
    let z: Vec<Scalar> = b.z.as_ref().unwrap().iter().map(scalar).collect();
    let mut failing = vec![];
    for row in 0..b.num_constraints {
        if row_value(&b.A, row, &z) * row_value(&b.B, row, &z) != row_value(&b.C, row, &z) {
            failing.push(row);
        }
    }
    failing
}

fn value(b: &R1CSBuilder, wire: usize) -> FieldElement {
    b.z.as_ref().unwrap()[wire]
}

fn input(b: &R1CSBuilder, name: &str, offset: usize) -> FieldElement {
    value(b, GET_INDEX(name, offset).unwrap())
}

fn row_of(matrix: &[(usize, usize, i64)], row: usize) -> Vec<(usize, i64)> {
    matrix.iter().filter(|t| t.0 == row).map(|t| (t.1, t.2)).collect()
}

#[test]
fn test_get_matrices() {
    let instance = R1CSBuilder::get_matrices(None);
    println!("{:?}", instance.unwrap());
}

#[test]
fn test_get_matrices_all_zeros() {
    let instance = R1CSBuilder::get_matrices(Some(vec![i64_to_f(0); GET_TOTAL_LEN()])).unwrap();
    println!("z vector is {:?}", instance.z.unwrap());
}

#[test]
fn a_witness_longer_than_the_inputs_keeps_its_length_ahead() {
    let instance = R1CSBuilder::get_matrices(Some(vec![i64_to_f(0); GET_TOTAL_LEN()])).unwrap();
    assert_eq!(instance.num_variables, 81);
    assert_eq!(instance.z.as_ref().unwrap().len(), GET_TOTAL_LEN() + 3 + 18);
    assert_eq!(value(&instance, 0), i64_to_f(1));
    assert_eq!(value(&instance, 1), i64_to_f(1));
    // The wires go where they go with the right number of inputs; the three
    // slots too many end up behind them.
    let exact = R1CSBuilder::get_matrices(Some(vec![i64_to_f(0); GET_TOTAL_LEN() - 3])).unwrap();
    let z = instance.z.as_ref().unwrap();
    assert_eq!(&z[..81], &exact.z.as_ref().unwrap()[..]);
    assert_eq!(&z[81..], &[i64_to_f(0); 3]);
    assert_eq!(instance.A, exact.A);
}

#[test]
fn the_counts_are_fixed() {
    let bare = R1CSBuilder::get_matrices(None).unwrap();
    assert_eq!(bare.num_constraints, 49);
    assert_eq!(bare.num_aux, 18);
    assert_eq!(bare.num_inputs, 0);
    assert_eq!(bare.num_variables, 81);
    assert_eq!(bare.num_variables, GET_TOTAL_LEN() + bare.num_aux);
    assert!(bare.z.is_none());
    let full = Step::new().build();
    assert_eq!(full.num_constraints, 49);
    assert_eq!(full.num_variables, GET_TOTAL_LEN() + full.num_aux);
    assert_eq!(full.z.as_ref().unwrap().len(), full.num_variables);
}

#[test]
fn every_wire_of_every_entry_exists() {
    let b = R1CSBuilder::get_matrices(None).unwrap();
    for matrix in [&b.A, &b.B, &b.C] {
        assert!(!matrix.is_empty());
        for (row, wire, _) in matrix.iter() {
            assert!(*wire < b.num_variables);
            assert!(*row < b.num_constraints);
        }
    }
    // The last allotted wire is in use.
    assert!(b.C.iter().any(|t| t.1 == b.num_variables - 1));
}

#[test]
fn rows_are_in_order_and_all_there() {
    let b = R1CSBuilder::get_matrices(None).unwrap();
    for matrix in [&b.A, &b.B, &b.C] {
        for pair in matrix.windows(2) {
            assert!(pair[0].0 <= pair[1].0);
        }
    }
    let mut rows: Vec<usize> = b.A.iter().chain(b.B.iter()).chain(b.C.iter()).map(|t| t.0).collect();
    rows.sort();
    rows.dedup();
    assert_eq!(rows, (0..b.num_constraints).collect::<Vec<usize>>());
    // Every row has a left and a right factor.
    for row in 0..b.num_constraints {
        assert!(!row_of(&b.A, row).is_empty(), "row {}", row);
        assert!(!row_of(&b.B, row).is_empty(), "row {}", row);
    }
}

#[test]
fn the_matrices_do_not_depend_on_the_witness() {
    let bare = R1CSBuilder::get_matrices(None).unwrap();
    let zeros = Step::new().build();
    let mut step = Step::new();
    step.flags(&[0, 1, IS_ADD, IS_MUL, IS_CONCAT, IS_SHIFT]);
    step.registers(1, 2, 3);
    step.sources(5, 7);
    step.set("lookup_output", 0, 12);
    let busy = step.build();
    for other in [&zeros, &busy] {
        assert_eq!(bare.A, other.A);
        assert_eq!(bare.B, other.B);
        assert_eq!(bare.C, other.C);
        assert_eq!(bare.num_constraints, other.num_constraints);
        assert_eq!(bare.num_variables, other.num_variables);
        assert_eq!(bare.num_aux, other.num_aux);
    }
    assert_ne!(zeros.z, busy.z);
}

#[test]
fn the_first_rows_are_the_flag_packing_and_the_immediate() {
    let b = R1CSBuilder::get_matrices(None).unwrap();
    let flags: Vec<(usize, i64)> = (0..17).map(|k| (46 + k, 1i64 << (16 - k))).collect();
    assert_eq!(row_of(&b.A, 0), flags);
    assert_eq!(row_of(&b.B, 0), vec![(0, 1)]);
    assert_eq!(row_of(&b.C, 0), vec![(11, 1)]);
    // is_lui_auipc * (4096 * raw - raw) = immediate - raw
    assert_eq!(row_of(&b.A, 1), vec![(61, 1)]);
    assert_eq!(row_of(&b.B, 1), vec![(10, 4096), (10, -1)]);
    assert_eq!(row_of(&b.C, 1), vec![(IMMEDIATE, 1), (10, -1)]);
}

#[test]
fn the_rows_of_the_memory_checks() {
    let b = R1CSBuilder::get_matrices(None).unwrap();
    // The five register rows.
    assert_eq!(row_of(&b.A, 2), vec![(7, 1)]);
    assert_eq!(row_of(&b.C, 2), vec![(12, 1)]);
    assert_eq!(row_of(&b.A, 6), vec![(20, 1)]);
    assert_eq!(row_of(&b.C, 6), vec![(27, 1)]);
    // load_or_store_value is made of the three bytes written last.
    assert_eq!(row_of(&b.A, 10), vec![(30, 1), (31, 256), (32, 65536)]);
    assert_eq!(row_of(&b.C, 10), vec![(LOAD_OR_STORE_VALUE, 1)]);
    // The address of a load or store.
    assert_eq!(row_of(&b.A, 12), vec![(48, 1), (49, 1)]);
    assert_eq!(
        row_of(&b.B, 12),
        vec![(19, 1), (IMMEDIATE_SIGNED, 1), (15, -1), (0, -(MEMORY_ADDRESS_OFFSET as i64))]
    );
    assert_eq!(row_of(&b.C, 12), vec![]);
    // The byte addresses after the first.
    for i in 1..4usize {
        assert_eq!(row_of(&b.A, 12 + i), vec![(15 + i, 1), (15, -1), (0, -(i as i64))]);
        assert_eq!(row_of(&b.B, 12 + i), vec![(15 + i, 1)]);
        assert_eq!(row_of(&b.C, 12 + i), vec![]);
    }
    // A load leaves the memory bytes alone.
    for i in 0..4usize {
        assert_eq!(row_of(&b.A, 16 + i), vec![(22 + i, 1), (29 + i, -1)]);
        assert_eq!(row_of(&b.B, 16 + i), vec![(48, 1)]);
        assert_eq!(row_of(&b.C, 16 + i), vec![]);
    }
    // A store writes rs2_val.
    assert_eq!(row_of(&b.A, 20), vec![(49, 1)]);
    assert_eq!(row_of(&b.B, 20), vec![(LOAD_OR_STORE_VALUE, 1), (20, -1)]);
}

#[test]
fn the_rows_of_the_lookup_query() {
    let b = R1CSBuilder::get_matrices(None).unwrap();
    assert_eq!(row_of(&b.A, 21), vec![(41, 1 << 48), (42, 1 << 32), (43, 1 << 16), (44, 1)]);
    assert_eq!(row_of(&b.C, 21), vec![(COMBINED_Z_CHUNKS, 1)]);
    assert_eq!(row_of(&b.A, 22), vec![(53, 1)]);
    assert_eq!(row_of(&b.B, 22), vec![(COMBINED_Z_CHUNKS, 1), (X, -1), (Y, -1)]);
    assert_eq!(row_of(&b.A, 23), vec![(54, 1)]);
    assert_eq!(
        row_of(&b.B, 23),
        vec![(COMBINED_Z_CHUNKS, 1), (X, -1), (Y, 1), (0, -0x1_0000_0000)]
    );
    assert_eq!(row_of(&b.A, 24), vec![(55, 1)]);
    assert_eq!(row_of(&b.B, 24), vec![(X, 1)]);
    assert_eq!(row_of(&b.C, 24), vec![(IS_MUL_X, 1)]);
    assert_eq!(row_of(&b.A, 25), vec![(IS_MUL_X, 1)]);
    assert_eq!(row_of(&b.B, 25), vec![(Y, 1)]);
    assert_eq!(row_of(&b.C, 25), vec![(IS_MUL_XY, 1)]);
    assert_eq!(row_of(&b.B, 26), vec![(COMBINED_Z_CHUNKS, 1), (IS_MUL_XY, -1)]);
    // The chunks of x for a concatenated query.
    assert_eq!(
        row_of(&b.A, 27),
        vec![(33, 1 << 24), (34, 1 << 16), (35, 1 << 8), (36, 1), (X, -1)]
    );
    assert_eq!(row_of(&b.B, 27), vec![(60, 1)]);
    // Chunk 2 of the query: the chunk of y in use, then the chunk itself.
    assert_eq!(row_of(&b.A, 33), vec![(62, 1)]);
    assert_eq!(row_of(&b.B, 33), vec![(40, 1), (39, -1)]);
    assert_eq!(row_of(&b.C, 33), vec![(CHUNK_Y_USED + 2, 1), (39, -1)]);
    assert_eq!(row_of(&b.A, 34), vec![(43, 1), (CHUNK_Y_USED + 2, -1), (35, -256)]);
    assert_eq!(row_of(&b.B, 34), vec![(60, 1)]);
}

#[test]
fn the_last_rows_set_the_output_state() {
    let b = R1CSBuilder::get_matrices(None).unwrap();
    assert_eq!(row_of(&b.A, 44), vec![(3, 1), (0, 1)]);
    assert_eq!(row_of(&b.B, 44), vec![(0, 1)]);
    assert_eq!(row_of(&b.C, 44), vec![(1, 1)]);
    assert_eq!(row_of(&b.A, 45), vec![(51, 1)]);
    assert_eq!(row_of(&b.B, 45), vec![(45, 1)]);
    assert_eq!(row_of(&b.C, 45), vec![(BRANCH_TAKEN, 1)]);
    // is_jump * ((PC + 4) - lookup_output) = next_pc_j - lookup_output
    assert_eq!(row_of(&b.A, 46), vec![(50, 1)]);
    assert_eq!(row_of(&b.B, 46), vec![(4, 1), (0, 4), (45, -1)]);
    assert_eq!(row_of(&b.C, 46), vec![(NEXT_PC_J, 1), (45, -1)]);
    // taken * (next_pc_j - (PC + immediate_signed)) = next_pc_j_b - (PC + immediate_signed)
    assert_eq!(row_of(&b.A, 47), vec![(BRANCH_TAKEN, 1)]);
    assert_eq!(row_of(&b.B, 47), vec![(NEXT_PC_J, 1), (4, -1), (IMMEDIATE_SIGNED, -1)]);
    assert_eq!(row_of(&b.C, 47), vec![(NEXT_PC_J_B, 1), (4, -1), (IMMEDIATE_SIGNED, -1)]);
    assert_eq!(row_of(&b.A, 48), vec![(NEXT_PC_J_B, 1)]);
    assert_eq!(row_of(&b.B, 48), vec![(0, 1)]);
    assert_eq!(row_of(&b.C, 48), vec![(2, 1)]);
}

#[test]
fn all_zero_witness() {
    let b = R1CSBuilder::get_matrices(Some(vec![i64_to_f(0); GET_TOTAL_LEN() - 3])).unwrap();
    assert_eq!(b.num_constraints, 49);
    let z = b.z.as_ref().unwrap();
    assert_eq!(z.len(), 81);
    assert_eq!(z[0], i64_to_f(1));
    // With no sign flag the immediate is taken to be negative: 0 - 2^32, and
    // that is also where the program counter goes.
    assert_eq!(z[IMMEDIATE_SIGNED], i64_to_f(-0x1_0000_0000));
    assert_eq!(z[NEXT_PC_J_B], i64_to_f(-0x1_0000_0000));
    assert_eq!(z[2], i64_to_f(-0x1_0000_0000));
    assert_eq!(z[1], i64_to_f(1));
    for wire in 3..81 {
        if wire != IMMEDIATE_SIGNED && wire != NEXT_PC_J_B {
            assert!(z[wire].is_zero(), "wire {}", wire);
        }
    }
    assert_eq!(failing_rows(&b), Vec::<usize>::new());
}

#[test]
fn add_of_two_registers() {
    let mut step = Step::new();
    step.flags(&[0, 1, IS_ADD, IF_UPDATE_RD, SIGN_IMM]);
    step.registers(1, 2, 3);
    step.sources(5, 7);
    step.set("input_state", 0, 41);
    step.set("input_state", 1, 100);
    step.set("memreg_v_reads", 2, 99);
    step.set("memreg_v_writes", 2, 12);
    step.set("chunks_query", 3, 12);
    step.set("lookup_output", 0, 12);
    let b = step.build();
    assert_eq!(value(&b, COMBINED_Z_CHUNKS), i64_to_f(12));
    assert_eq!(value(&b, X), i64_to_f(5));
    assert_eq!(value(&b, Y_RAW), i64_to_f(7));
    // Without the advice flag the second operand is the lookup output.
    assert_eq!(value(&b, Y), i64_to_f(12));
    assert_eq!(input(&b, "memreg_v_writes", 2), input(&b, "lookup_output", 0));
    assert_eq!(input(&b, "memreg_v_writes", 2), i64_to_f(12));
    assert_eq!(value(&b, IMMEDIATE), i64_to_f(0));
    assert_eq!(value(&b, IMMEDIATE_SIGNED), i64_to_f(0));
    // output_state.PC = PC + 0
    assert_eq!(input(&b, "output_state", 1), i64_to_f(100));
    assert_eq!(input(&b, "output_state", 0), i64_to_f(42));
    // rd * if_update_rd_with_lookup_output = 3, and rd_val is the lookup output.
    assert_eq!(value(&b, RD_UPDATED), i64_to_f(3));
    // The addition row compares the query with x + y: 12 - 5 - 12.
    assert_eq!(failing_rows(&b), vec![22]);
}

#[test]
fn add_of_two_registers_with_advice() {
    let mut step = Step::new();
    step.flags(&[0, 1, IS_ADD, IF_UPDATE_RD, SIGN_IMM, IS_ADVICE]);
    step.registers(1, 2, 3);
    step.sources(5, 7);
    step.set("input_state", 1, 100);
    step.set("memreg_v_writes", 2, 12);
    step.set("chunks_query", 3, 12);
    step.set("lookup_output", 0, 12);
    let b = step.build();
    assert_eq!(value(&b, COMBINED_Z_CHUNKS), i64_to_f(12));
    assert_eq!(value(&b, X), i64_to_f(5));
    assert_eq!(value(&b, Y), i64_to_f(7));
    assert_eq!(input(&b, "output_state", 1), i64_to_f(100));
    assert_eq!(failing_rows(&b), Vec::<usize>::new());
}

#[test]
fn sub_of_two_registers() {
    let mut step = Step::new();
    step.flags(&[0, 1, IS_SUB, IF_UPDATE_RD, SIGN_IMM, IS_ADVICE]);
    step.registers(1, 2, 3);
    step.sources(10, 3);
    step.set("memreg_v_writes", 2, 7);
    // 10 - 3 + 2^32, in chunks of sixteen bits: 0, 1, 0, 7.
    step.set("chunks_query", 1, 1);
    step.set("chunks_query", 3, 7);
    step.set("lookup_output", 0, 7);
    let b = step.build();
    assert_eq!(value(&b, X), i64_to_f(10));
    assert_eq!(value(&b, Y), i64_to_f(3));
    assert_eq!(value(&b, COMBINED_Z_CHUNKS), i64_to_f(0x1_0000_0007));
    assert_eq!(0x1_0000_0007i64 % 0x1_0000_0000, 10 - 3);
    assert_eq!(failing_rows(&b), Vec::<usize>::new());
    // Without the bias of 2^32 the subtraction does not hold.
    step.set("chunks_query", 1, 0);
    assert_eq!(failing_rows(&step.build()), vec![23]);
}

#[test]
fn load_from_ram() {
    let mut step = Step::new();
    step.flags(&[0, IS_LOAD, SIGN_IMM]);
    step.registers(1, 0, 3);
    step.sources(RAM_START_ADDRESS, 0);
    step.set("input_state", 1, 0x8000_0010);
    step.set("prog_v_rw", 4, 4);
    let slot = RAM_START_ADDRESS + 4 - MEMORY_ADDRESS_OFFSET as i64;
    assert_eq!(slot, 36);
    for i in 0..4 {
        step.set("memreg_a_rw", 3 + i, slot + i as i64);
    }
    let bytes = [0x11, 0x22, 0x33, 0x44];
    for i in 0..4 {
        step.set("memreg_v_reads", 3 + i, bytes[i]);
        step.set("memreg_v_writes", 3 + i, bytes[i]);
    }
    step.set("memreg_v_writes", 2, 0x44_3322);
    let b = step.build();
    assert_eq!(value(&b, IMMEDIATE), i64_to_f(4));
    assert_eq!(value(&b, IMMEDIATE_SIGNED), i64_to_f(4));
    assert_eq!(value(&b, X), i64_to_f(RAM_START_ADDRESS));
    assert_eq!(value(&b, LOAD_OR_STORE_VALUE), i64_to_f(0x44_3322));
    for i in 0..4 {
        assert_eq!(input(&b, "memreg_v_reads", 3 + i), input(&b, "memreg_v_writes", 3 + i));
    }
    assert_eq!(failing_rows(&b), Vec::<usize>::new());

    // A wrong slot fails the address row, a changed byte the write-through
    // row of that byte, an unused later slot is let through.
    let mut wrong = Step { inputs: step.inputs.clone() };
    wrong.set("memreg_a_rw", 3, slot + 1);
    for i in 1..4 {
        wrong.set("memreg_a_rw", 3 + i, 0);
    }
    assert_eq!(failing_rows(&wrong.build()), vec![12]);
    let mut changed = Step { inputs: step.inputs.clone() };
    changed.set("memreg_v_reads", 3, 0x10);
    assert_eq!(failing_rows(&changed.build()), vec![16]);
    let mut unused = Step { inputs: step.inputs.clone() };
    unused.set("memreg_a_rw", 6, 0);
    assert_eq!(failing_rows(&unused.build()), Vec::<usize>::new());
}

#[test]
fn taken_branch() {
    let mut step = Step::new();
    step.flags(&[0, 1, IS_BRANCH]);
    step.registers(1, 2, 0);
    step.sources(9, 9);
    step.set("input_state", 1, 200);
    // No sign flag: the immediate 2^32 - 8 stands for -8.
    step.set("prog_v_rw", 4, 0xffff_fff8);
    step.set("lookup_output", 0, 1);
    let b = step.build();
    assert_eq!(value(&b, IMMEDIATE_SIGNED), i64_to_f(-8));
    assert_eq!(value(&b, BRANCH_TAKEN), i64_to_f(1));
    assert_eq!(value(&b, NEXT_PC_J), i64_to_f(1));
    assert_eq!(value(&b, NEXT_PC_J_B), i64_to_f(1));
    assert_eq!(value(&b, NEXT_PC_J), input(&b, "lookup_output", 0));
    assert_eq!(input(&b, "output_state", 1), i64_to_f(1));
}

#[test]
fn branch_not_taken() {
    let mut step = Step::new();
    step.flags(&[0, 1, IS_BRANCH]);
    step.set("input_state", 1, 200);
    step.set("prog_v_rw", 4, 0xffff_fff8);
    step.set("lookup_output", 0, 0);
    let b = step.build();
    assert_eq!(value(&b, BRANCH_TAKEN), i64_to_f(0));
    assert_eq!(value(&b, NEXT_PC_J_B), i64_to_f(192));
    assert_eq!(input(&b, "output_state", 1), i64_to_f(192));
}

#[test]
fn jump_and_link() {
    let mut step = Step::new();
    step.flags(&[IS_JUMP, SIGN_IMM]);
    step.registers(0, 0, 1);
    step.set("input_state", 1, 100);
    step.set("prog_v_rw", 4, 16);
    step.set("memreg_v_writes", 2, 104);
    step.set("lookup_output", 0, 116);
    let b = step.build();
    assert_eq!(value(&b, RD_LINKED), i64_to_f(1));
    assert_eq!(input(&b, "memreg_v_writes", 2), i64_to_f(104));
    assert_eq!(value(&b, NEXT_PC_J), i64_to_f(104));
    assert_eq!(value(&b, NEXT_PC_J_B), i64_to_f(116));
    assert_eq!(input(&b, "output_state", 1), input(&b, "lookup_output", 0));
    assert_eq!(failing_rows(&b), Vec::<usize>::new());
    // Any other return address fails the link row.
    step.set("memreg_v_writes", 2, 108);
    assert_eq!(failing_rows(&step.build()), vec![43]);
    // Register zero takes no link.
    step.registers(0, 0, 0);
    assert_eq!(failing_rows(&step.build()), Vec::<usize>::new());
}

#[test]
fn lui_shifts_the_immediate() {
    let mut step = Step::new();
    step.flags(&[IS_LUI_AUIPC, SIGN_IMM]);
    step.set("prog_v_rw", 4, 0x12345);
    let b = step.build();
    assert_eq!(value(&b, IMMEDIATE), i64_to_f(0x12345000));
    assert_eq!(value(&b, IMMEDIATE_SIGNED), i64_to_f(0x12345000));
}

#[test]
fn operands_without_flags() {
    let mut step = Step::new();
    step.flags(&[SIGN_IMM, IS_ADVICE]);
    step.sources(5, 7);
    step.set("input_state", 1, 100);
    step.set("prog_v_rw", 4, 9);
    step.set("lookup_output", 0, 12);
    let b = step.build();
    assert_eq!(value(&b, X), i64_to_f(100));
    assert_eq!(value(&b, Y_RAW), i64_to_f(9));
    assert_eq!(value(&b, Y), i64_to_f(9));
}

#[test]
fn multiplication_goes_through_two_wires() {
    let mut step = Step::new();
    step.flags(&[0, 1, IS_MUL, SIGN_IMM, IS_ADVICE]);
    step.sources(6, 7);
    step.set("chunks_query", 3, 42);
    step.set("lookup_output", 0, 42);
    let b = step.build();
    assert_eq!(value(&b, IS_MUL_X), i64_to_f(6));
    assert_eq!(value(&b, IS_MUL_XY), i64_to_f(42));
    assert_eq!(value(&b, COMBINED_Z_CHUNKS), i64_to_f(42));
    assert_eq!(failing_rows(&b), Vec::<usize>::new());
    step.set("chunks_query", 3, 43);
    assert_eq!(failing_rows(&step.build()), vec![26]);
}

#[test]
fn concatenated_query_of_a_shift() {
    let mut step = Step::new();
    step.flags(&[0, 1, SIGN_IMM, IS_ADVICE, IS_CONCAT, IS_SHIFT]);
    step.sources(0x0102_0304, 0x0000_0005);
    let x_chunks = [1, 2, 3, 4];
    let y_chunks = [0, 0, 0, 5];
    for k in 0..4 {
        step.set("chunks_x", k, x_chunks[k]);
        step.set("chunks_y", k, y_chunks[k]);
        // Each chunk of x is followed by the last chunk of y.
        step.set("chunks_query", k, x_chunks[k] * 256 + 5);
    }
    let b = step.build();
    for k in 0..4 {
        assert_eq!(value(&b, CHUNK_Y_USED + k), i64_to_f(5));
    }
    assert_eq!(failing_rows(&b), Vec::<usize>::new());

    // Without the shift flag each chunk of x goes with its own chunk of y.
    let mut plain = Step { inputs: step.inputs.clone() };
    plain.flags(&[0, 1, SIGN_IMM, IS_ADVICE, IS_CONCAT]);
    plain.set("op_flags", IS_SHIFT, 0);
    let b = plain.build();
    for k in 0..4 {
        assert_eq!(value(&b, CHUNK_Y_USED + k), i64_to_f(y_chunks[k]));
    }
    assert_eq!(failing_rows(&b), vec![30, 32, 34]);
}

#[test]
fn assert_instructions_look_at_the_lookup_output() {
    let mut step = Step::new();
    step.flags(&[SIGN_IMM, IS_ASSERT_FALSE]);
    step.set("lookup_output", 0, 1);
    assert_eq!(failing_rows(&step.build()), Vec::<usize>::new());
    step.set("lookup_output", 0, 0);
    assert_eq!(failing_rows(&step.build()), vec![37]);
    let mut step = Step::new();
    step.flags(&[SIGN_IMM, IS_ASSERT_TRUE]);
    step.set("lookup_output", 0, 0);
    assert_eq!(failing_rows(&step.build()), Vec::<usize>::new());
    step.set("lookup_output", 0, 1);
    assert_eq!(failing_rows(&step.build()), vec![38]);
}

#[test]
fn store_writes_the_second_source() {
    let mut step = Step::new();
    step.flags(&[0, IS_STORE, SIGN_IMM]);
    step.sources(RAM_START_ADDRESS, 0x03_0201);
    step.set("memreg_a_rw", 3, 0x20);
    step.set("memreg_v_writes", 4, 1);
    step.set("memreg_v_writes", 5, 2);
    step.set("memreg_v_writes", 6, 3);
    let b = step.build();
    assert_eq!(value(&b, LOAD_OR_STORE_VALUE), i64_to_f(0x03_0201));
    assert_eq!(failing_rows(&b), Vec::<usize>::new());
    step.set("memreg_v_writes", 6, 4);
    assert_eq!(failing_rows(&step.build()), vec![20]);
}

#[test]
fn wrongly_packed_flags_fail_the_first_row() {
    let mut step = Step::new();
    step.flags(&[SIGN_IMM, IS_ADD]);
    step.set("prog_v_rw", 5, 0);
    assert_eq!(failing_rows(&step.build()), vec![0]);
}

#[test]
fn convert_to_field_keeps_the_order() {
    let b = R1CSBuilder::get_matrices(None).unwrap();
    let (a, bb, c) = b.convert_to_field();
    assert_eq!(a.len(), b.A.len());
    assert_eq!(bb.len(), b.B.len());
    assert_eq!(c.len(), b.C.len());
    for (field, plain) in [(&a, &b.A), (&bb, &b.B), (&c, &b.C)] {
        for (f, p) in field.iter().zip(plain.iter()) {
            assert_eq!((f.0, f.1), (p.0, p.1));
            assert_eq!(f.2, i64_to_f(p.2));
            assert_eq!(scalar(&f.2), coefficient(p.2));
        }
    }
    assert_eq!(a[0], (0, 46, i64_to_f(65536)));
    assert_eq!(bb[2], (1, 10, i64_to_f(-1)));
}

#[test]
fn convert_to_field_of_a_small_builder() {
    let mut b = R1CSBuilder {
        A: vec![],
        B: vec![],
        C: vec![],
        num_constraints: 0,
        num_variables: 3,
        num_inputs: 0,
        num_aux: 0,
        z: None,
    };
    b.constr_abc(vec![(1, 2), (2, -3)], vec![(0, 1)], vec![]);
    let (a, bb, c) = b.convert_to_field();
    assert_eq!(a, vec![(0, 1, i64_to_f(2)), (0, 2, i64_to_f(-3))]);
    assert_eq!(bb, vec![(0, 0, i64_to_f(1))]);
    assert_eq!(c, vec![]);
    let mut minus_three = jolt_r1cs::field::modulus_bytes();
    minus_three[0] = 0xfe;
    minus_three[1] = 0xff;
    minus_three[2] = 0xff;
    minus_three[3] = 0xef;
    assert_eq!(a[1].2.to_bytes(), minus_three);
}

/// The rows that define a wire.
const DEFINING_ROWS: [usize; 20] =
    [1, 7, 8, 9, 10, 11, 21, 24, 25, 29, 31, 33, 35, 40, 42, 44, 45, 46, 47, 48];

#[test]
fn defining_rows_hold_whatever_the_inputs() {
    let mut seed: u64 = 0x9e37_79b9_7f4a_7c15;
    let mut next = move || {
        seed = seed.wrapping_mul(6364136223846793005).wrapping_add(1442695040888963407);
        (seed >> 33) as i64
    };
    for round in 0..32 {
        let mut step = Step::new();
        for wire in 3..46 {
            step.inputs[wire - 3] = i64_to_f(next() - (1 << 30));
        }
        // The lookup output is a bit, so that the branch is taken or not.
        step.set("lookup_output", 0, next() & 1);
        for k in 0..17 {
            step.set("op_flags", k, next() & 1);
        }
        let b = step.build();
        let failing = failing_rows(&b);
        for row in DEFINING_ROWS {
            assert!(!failing.contains(&row), "round {}: row {}", round, row);
        }
        // The constant and the inputs are where they were.
        assert_eq!(value(&b, 0), i64_to_f(1));
        for wire in 3..63 {
            assert_eq!(value(&b, wire), step.inputs[wire - 3]);
        }
    }
}

#[test]
fn a_choice_that_is_no_bit_fails_its_row() {
    let mut step = Step::new();
    step.flags(&[SIGN_IMM]);
    step.set("op_flags", 0, 2);
    step.set("prog_v_rw", 5, (1 << 3) + (2 << 16));
    step.sources(5, 0);
    step.set("input_state", 1, 100);
    let b = step.build();
    // The wire takes the arm for a set flag, but 2 * (5 - 100) is not 5 - 100.
    assert_eq!(value(&b, X), i64_to_f(5));
    assert_eq!(failing_rows(&b), vec![7]);
}
