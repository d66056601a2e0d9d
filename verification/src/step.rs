//! Building the constraints of one step of the virtual machine.

use crate::builder::R1CSBuilder;
use crate::circuit::{
    address_check, address_contiguity, assertions, byte_address, chunk_choice, chunk_concat,
    concat_query, extends, flag_packing, immediate, immediate_shaping, immediate_signed,
    lemma_step_assigns, lemma_step_by_step, load_or_store_value, load_write_through, lookup_query,
    next_pc, operand_selection, operand_x, operand_y, register_aliasing, signed_immediate,
    start_state, start_witness, step_counter, step_gates, store_value, value_assembly,
    witness_values, write_back,
};
use crate::field::{scalar_from_u64, FieldElement};
use crate::layout::{
    lemma_wires, total_width, ALL_ONES, C, GET_INDEX, GET_TOTAL_LEN, LOG_M, L_CHUNK,
    MEMORY_ADDRESS_OFFSET, MOPS, N_FLAGS, PC_IDX, STEP_NUM_IDX,
};
use crate::linear::{combine_chunks_vec, power_of_two, values, Endian};
use crate::model::{lemma_apply_effects, lemma_run_keeps, BuilderState, Gate};
use vstd::prelude::*;

verus! {

/// The builder has `rows` rows and has allotted `allotted` wires after the
/// input region, its witness has a slot for each, and its matrices are tidy.
spec fn at_stage(s: BuilderState, rows: nat, allotted: nat) -> bool {
    &&& s.num_constraints == rows
    &&& s.num_variables == total_width() + allotted
    &&& s.num_aux == allotted
    &&& s.roomy()
    &&& s.tidy()
}

impl R1CSBuilder {
    /// The flag bits make up the packed flags.
    fn pack_flags(&mut self) -> (done: Option<()>)
        requires
            at_stage(old(self)@, 0, 0),
        ensures
            done is Some,
            final(self)@ == old(self)@.run(flag_packing()),
            at_stage(final(self)@, 1, 0),
            old(self)@.grows(final(self)@, 1, 0),
    {
        broadcast use lemma_apply_effects;
        proof {
            lemma_wires();
            reveal_with_fuel(BuilderState::run_to, 2);
        }
        let op_flags_packed = GET_INDEX("prog_v_rw", 5)?;
        self.combine_constraint(
            GET_INDEX("op_flags", 0)?,
            1,
            N_FLAGS,
            op_flags_packed,
            Endian::Big,
        );
        Some(())
    }

    /// Allots the immediate: the raw immediate, shifted for `lui`/`auipc`.
    fn shape_immediate(&mut self) -> (immediate: Option<usize>)
        requires
            at_stage(old(self)@, 1, 0),
        ensures
            immediate == Some(crate::circuit::immediate()),
            final(self)@ == old(self)@.run(immediate_shaping()),
            at_stage(final(self)@, 2, 1),
            old(self)@.grows(final(self)@, 1, 1),
    {
        broadcast use lemma_apply_effects;
        proof {
            lemma_wires();
            reveal_with_fuel(BuilderState::run_to, 2);
        }
        let immediate_before_processing = GET_INDEX("prog_v_rw", 4)?;
        let is_lui_auipc = GET_INDEX("op_flags", 15)?;
        // immediate = is_lui_auipc ? immediate_before_processing << 12 : immediate_before_processing
        let shifted: i64 = 1 << 12;
        assert(1i64 << 12 == 4096) by (bit_vector);
        let immediate = self.if_else(
            vec![(is_lui_auipc, 1)],
            vec![(immediate_before_processing, 1)],
            vec![(immediate_before_processing, shifted)],
        );
        Some(immediate)
    }

    /// Ties the registers of the instruction to the first three memory operations.
    fn alias_registers(&mut self) -> (done: Option<()>)
        requires
            at_stage(old(self)@, 2, 1),
        ensures
            done is Some,
            final(self)@ == old(self)@.run(register_aliasing()),
            at_stage(final(self)@, 7, 1),
            old(self)@.grows(final(self)@, 5, 0),
    {
        broadcast use lemma_apply_effects;
        proof {
            lemma_wires();
            reveal_with_fuel(BuilderState::run_to, 6);
        }
        let rs1 = GET_INDEX("prog_v_rw", 1)?;
        let rs2 = GET_INDEX("prog_v_rw", 2)?;
        let rd = GET_INDEX("prog_v_rw", 3)?;
        self.eq_simple(rs1, GET_INDEX("memreg_a_rw", 0)?);
        self.eq_simple(rs2, GET_INDEX("memreg_a_rw", 1)?);
        self.eq_simple(rd, GET_INDEX("memreg_a_rw", 2)?);
        self.eq_simple(GET_INDEX("memreg_v_reads", 0)?, GET_INDEX("memreg_v_writes", 0)?);
        self.eq_simple(GET_INDEX("memreg_v_reads", 1)?, GET_INDEX("memreg_v_writes", 1)?);
        Some(())
    }

    /// Allots the two operands and returns them.
    fn select_operands(&mut self, immediate: usize) -> (operands: Option<(usize, usize)>)
        requires
            at_stage(old(self)@, 7, 1),
            immediate == crate::circuit::immediate(),
        ensures
            operands == Some((operand_x(), operand_y())),
            final(self)@ == old(self)@.run(operand_selection()),
            at_stage(final(self)@, 10, 4),
            old(self)@.grows(final(self)@, 3, 3),
    {
        broadcast use lemma_apply_effects;
        proof {
            lemma_wires();
            reveal_with_fuel(BuilderState::run_to, 4);
        }
        let pc = GET_INDEX("input_state", PC_IDX)?;
        let rs1_val = GET_INDEX("memreg_v_reads", 0)?;
        let rs2_val = GET_INDEX("memreg_v_reads", 1)?;
        let is_advice_instr = GET_INDEX("op_flags", 10)?;
        // x = op_flags[0] ? rs1_val : PC
        // _y = op_flags[1] ? rs2_val : immediate
        // y = is_advice_instr ? _y : lookup_output
        let x = self.if_else_simple(GET_INDEX("op_flags", 0)?, pc, rs1_val);
        let _y = self.if_else_simple(GET_INDEX("op_flags", 1)?, immediate, rs2_val);
        let y = self.if_else_simple(is_advice_instr, GET_INDEX("lookup_output", 0)?, _y);
        Some((x, y))
    }

    /// Allots the loaded or stored value.
    fn assemble_value(&mut self) -> (load_or_store_value: Option<usize>)
        requires
            at_stage(old(self)@, 10, 4),
        ensures
            load_or_store_value == Some(crate::circuit::load_or_store_value()),
            final(self)@ == old(self)@.run(value_assembly()),
            at_stage(final(self)@, 11, 5),
            old(self)@.grows(final(self)@, 1, 1),
    {
        broadcast use lemma_apply_effects;
        proof {
            lemma_wires();
            reveal_with_fuel(BuilderState::run_to, 2);
        }
        let value = self.combine_le(GET_INDEX("memreg_v_writes", MOPS - 3)?, 8, MOPS - 4);
        Some(value)
    }

    /// Allots the immediate with its sign.
    fn sign_immediate(&mut self, immediate: usize) -> (immediate_signed: Option<usize>)
        requires
            at_stage(old(self)@, 11, 5),
            immediate == crate::circuit::immediate(),
        ensures
            immediate_signed == Some(crate::circuit::immediate_signed()),
            final(self)@ == old(self)@.run(signed_immediate()),
            at_stage(final(self)@, 12, 6),
            old(self)@.grows(final(self)@, 1, 1),
    {
        broadcast use lemma_apply_effects;
        proof {
            lemma_wires();
            reveal_with_fuel(BuilderState::run_to, 2);
        }
        let sign_imm_flag = GET_INDEX("op_flags", 13)?;
        let bias: i64 = -ALL_ONES - 1;
        // immediate_signed = sign_imm_flag ? immediate : immediate - 2^32
        let immediate_signed = self.if_else(
            vec![(sign_imm_flag, 1)],
            vec![(immediate, 1), (0, bias)],
            vec![(immediate, 1)],
        );
        Some(immediate_signed)
    }

    /// A load or store addresses `rs1_val + immediate_signed`.
    fn check_address(&mut self, immediate_signed: usize) -> (done: Option<()>)
        requires
            at_stage(old(self)@, 12, 6),
            immediate_signed == crate::circuit::immediate_signed(),
        ensures
            done is Some,
            final(self)@ == old(self)@.run(address_check()),
            at_stage(final(self)@, 13, 6),
            old(self)@.grows(final(self)@, 1, 0),
    {
        broadcast use lemma_apply_effects;
        proof {
            lemma_wires();
            reveal_with_fuel(BuilderState::run_to, 2);
        }
        let is_load_instr = GET_INDEX("op_flags", 2)?;
        let is_store_instr = GET_INDEX("op_flags", 3)?;
        let rs1_val = GET_INDEX("memreg_v_reads", 0)?;
        // (is_load + is_store) * (rs1_val + immediate_signed - memreg_a_rw[3] - offset) = 0
        self.constr_abc(
            vec![(is_load_instr, 1), (is_store_instr, 1)],
            vec![
                (rs1_val, 1),
                (immediate_signed, 1),
                (GET_INDEX("memreg_a_rw", 3)?, -1),
                (0, -1 * MEMORY_ADDRESS_OFFSET as i64),
            ],
            vec![],
        );
        Some(())
    }

    /// The byte addresses after the first follow it, or are unused.
    #[verifier::loop_isolation(false)]
    #[verifier::rlimit(60)]
    fn check_byte_addresses(&mut self) -> (done: Option<()>)
        requires
            at_stage(old(self)@, 13, 6),
        ensures
            done is Some,
            final(self)@ == old(self)@.run(address_contiguity()),
            at_stage(final(self)@, 16, 6),
            old(self)@.grows(final(self)@, 3, 0),
    {
        broadcast use lemma_apply_effects;
        proof {
            lemma_wires();
            reveal_with_fuel(BuilderState::run_to, 4);
        }
        // (memreg_a_rw[3 + i] - memreg_a_rw[3] - i) * memreg_a_rw[3 + i] = 0
        for i in 1..MOPS - 3
            invariant
                self@ == old(self)@.run_to(address_contiguity(), i - 1),
                at_stage(self@, (12 + i) as nat, 6),
                old(self)@.grows(self@, (i - 1) as nat, 0),
        {
            let a = vec![
                (GET_INDEX("memreg_a_rw", 3 + i)?, 1),
                (GET_INDEX("memreg_a_rw", 3)?, -1),
                (0, i as i64 * -1),
            ];
            let b = vec![(GET_INDEX("memreg_a_rw", 3 + i)?, 1)];
            assert(address_contiguity()[i - 1] == byte_address(i as int));
            assert(byte_address(i as int) == Gate::Constraint { a: a@, b: b@, c: Seq::empty() });
            self.constr_abc(a, b, vec![]);
        }
        Some(())
    }

    /// A load leaves the memory bytes as they were.
    #[verifier::loop_isolation(false)]
    #[verifier::rlimit(60)]
    fn check_load_write_through(&mut self) -> (done: Option<()>)
        requires
            at_stage(old(self)@, 16, 6),
        ensures
            done is Some,
            final(self)@ == old(self)@.run(load_write_through()),
            at_stage(final(self)@, 20, 6),
            old(self)@.grows(final(self)@, 4, 0),
    {
        broadcast use lemma_apply_effects;
        proof {
            lemma_wires();
            reveal_with_fuel(BuilderState::run_to, 5);
        }
        let is_load_instr = GET_INDEX("op_flags", 2)?;
        // (memreg_v_reads[3 + i] - memreg_v_writes[3 + i]) * is_load = 0
        for i in 0..MOPS - 3
            invariant
                self@ == old(self)@.run_to(load_write_through(), i as int),
                at_stage(self@, (16 + i) as nat, 6),
                old(self)@.grows(self@, i as nat, 0),
        {
            self.constr_abc(
                vec![
                    (GET_INDEX("memreg_v_reads", 3 + i)?, 1),
                    (GET_INDEX("memreg_v_writes", 3 + i)?, -1),
                ],
                vec![(is_load_instr, 1)],
                vec![],
            );
        }
        Some(())
    }

    /// A store writes `rs2_val`.
    fn check_store(&mut self, load_or_store_value: usize) -> (done: Option<()>)
        requires
            at_stage(old(self)@, 20, 6),
            load_or_store_value == crate::circuit::load_or_store_value(),
        ensures
            done is Some,
            final(self)@ == old(self)@.run(store_value()),
            at_stage(final(self)@, 21, 6),
            old(self)@.grows(final(self)@, 1, 0),
    {
        broadcast use lemma_apply_effects;
        proof {
            lemma_wires();
            reveal_with_fuel(BuilderState::run_to, 2);
        }
        let is_store_instr = GET_INDEX("op_flags", 3)?;
        let rs2_val = GET_INDEX("memreg_v_reads", 1)?;
        // is_store * (load_or_store_value - rs2_val) = 0
        self.constr_abc(
            vec![(is_store_instr, 1)],
            vec![(load_or_store_value, 1), (rs2_val, -1)],
            vec![],
        );
        Some(())
    }

    /// Allots the lookup query and ties it to the operands of an addition, a
    /// subtraction and a multiplication.
    #[verifier::rlimit(60)]
    fn check_lookup_query(&mut self, x: usize, y: usize) -> (done: Option<()>)
        requires
            at_stage(old(self)@, 21, 6),
            x == operand_x(),
            y == operand_y(),
        ensures
            done is Some,
            final(self)@ == old(self)@.run(lookup_query()),
            at_stage(final(self)@, 27, 9),
            old(self)@.grows(final(self)@, 6, 3),
    {
        broadcast use lemma_apply_effects;
        proof {
            lemma_wires();
            reveal_with_fuel(BuilderState::run_to, 7);
        }
        let is_add_instr = GET_INDEX("op_flags", 7)?;
        let is_sub_instr = GET_INDEX("op_flags", 8)?;
        let is_mul_instr = GET_INDEX("op_flags", 9)?;
        let combined_z_chunks = self.combine_be(GET_INDEX("chunks_query", 0)?, LOG_M, C);
        // is_add * (combined_z_chunks - x - y) = 0
        self.constr_abc(
            vec![(is_add_instr, 1)],
            vec![(combined_z_chunks, 1), (x, -1), (y, -1)],
            vec![],
        );
        // is_sub * (combined_z_chunks - x + y - 2^32) = 0
        self.constr_abc(
            vec![(is_sub_instr, 1)],
            vec![(combined_z_chunks, 1), (x, -1), (y, 1), (0, -1 * (ALL_ONES + 1))],
            vec![],
        );
        // is_mul * (combined_z_chunks - is_mul * x * y) = 0
        let is_mul_x = self.multiply(vec![(is_mul_instr, 1)], vec![(x, 1)]);
        let is_mul_xy = self.multiply(vec![(is_mul_x, 1)], vec![(y, 1)]);
        self.constr_abc(
            vec![(is_mul_instr, 1)],
            vec![(combined_z_chunks, 1), (is_mul_xy, -1)],
            vec![],
        );
        Some(())
    }

    /// Ties the chunks of a concatenated query to the chunks of the operands.
    #[verifier::loop_isolation(false)]
    #[verifier::rlimit(60)]
    fn check_concat_query(&mut self, x: usize, y: usize) -> (done: Option<()>)
        requires
            at_stage(old(self)@, 27, 9),
            x == operand_x(),
            y == operand_y(),
        ensures
            done is Some,
            final(self)@ == old(self)@.run(concat_query()),
            at_stage(final(self)@, 37, 13),
            old(self)@.grows(final(self)@, 10, 4),
    {
        broadcast use lemma_apply_effects;
        proof {
            lemma_wires();
            reveal_with_fuel(BuilderState::run_to, 11);
        }
        let is_concat = GET_INDEX("op_flags", 14)?;
        let is_shift = GET_INDEX("op_flags", 16)?;
        // (chunks of x, most significant first - x) * is_concat = 0, and the same for y
        let mut x_chunks = combine_chunks_vec(GET_INDEX("chunks_x", 0)?, L_CHUNK, C);
        x_chunks.push((x, -1));
        self.constr_abc(x_chunks, vec![(is_concat, 1)], vec![]);
        let mut y_chunks = combine_chunks_vec(GET_INDEX("chunks_y", 0)?, L_CHUNK, C);
        y_chunks.push((y, -1));
        self.constr_abc(y_chunks, vec![(is_concat, 1)], vec![]);
        // chunk_y_used[i] = is_shift ? chunks_y[C - 1] : chunks_y[i]
        // (chunks_query[i] - chunk_y_used[i] - chunks_x[i] * 2^L_CHUNK) * is_concat = 0
        let chunk_weight = power_of_two(L_CHUNK);
        proof {
            vstd::arithmetic::power2::lemma2_to64();
        }
        for i in 0..C
            invariant
                self@ == old(self)@.run_to(concat_query(), 2 + 2 * i),
                at_stage(self@, (29 + 2 * i) as nat, (9 + i) as nat),
                old(self)@.grows(self@, (2 + 2 * i) as nat, i as nat),
        {
            assert(concat_query()[2 + 2 * i] == chunk_choice(i as int));
            assert(concat_query()[3 + 2 * i] == chunk_concat(i as int));
            let chunk_y_used_i = self.if_else_simple(
                is_shift,
                GET_INDEX("chunks_y", i)?,
                GET_INDEX("chunks_y", C - 1)?,
            );
            self.constr_abc(
                vec![
                    (GET_INDEX("chunks_query", i)?, 1),
                    (chunk_y_used_i, -1),
                    (GET_INDEX("chunks_x", i)?, chunk_weight * -1),
                ],
                vec![(is_concat, 1)],
                vec![],
            );
        }
        Some(())
    }

    /// The assert instructions look at the lookup output.
    fn check_assertions(&mut self) -> (done: Option<()>)
        requires
            at_stage(old(self)@, 37, 13),
        ensures
            done is Some,
            final(self)@ == old(self)@.run(assertions()),
            at_stage(final(self)@, 39, 13),
            old(self)@.grows(final(self)@, 2, 0),
    {
        broadcast use lemma_apply_effects;
        proof {
            lemma_wires();
            reveal_with_fuel(BuilderState::run_to, 3);
        }
        let is_assert_false_instr = GET_INDEX("op_flags", 11)?;
        let is_assert_true_instr = GET_INDEX("op_flags", 12)?;
        let lookup_output = GET_INDEX("lookup_output", 0)?;
        // is_assert_false * (1 - lookup_output) = 0
        self.constr_abc(
            vec![(is_assert_false_instr, 1)],
            vec![(lookup_output, -1), (0, 1)],
            vec![],
        );
        // is_assert_true * lookup_output = 0
        self.constr_abc(vec![(is_assert_true_instr, 1)], vec![(lookup_output, 1)], vec![]);
        Some(())
    }

    /// What is written to `rd` on a load, on an update and on a jump.
    #[verifier::rlimit(60)]
    fn check_write_back(&mut self, load_or_store_value: usize) -> (done: Option<()>)
        requires
            at_stage(old(self)@, 39, 13),
            load_or_store_value == crate::circuit::load_or_store_value(),
        ensures
            done is Some,
            final(self)@ == old(self)@.run(write_back()),
            at_stage(final(self)@, 44, 15),
            old(self)@.grows(final(self)@, 5, 2),
    {
        broadcast use lemma_apply_effects;
        proof {
            lemma_wires();
            reveal_with_fuel(BuilderState::run_to, 6);
        }
        let rd = GET_INDEX("prog_v_rw", 3)?;
        let pc = GET_INDEX("input_state", PC_IDX)?;
        let is_load_instr = GET_INDEX("op_flags", 2)?;
        let is_jump_instr = GET_INDEX("op_flags", 4)?;
        let if_update_rd_with_lookup_output = GET_INDEX("op_flags", 6)?;
        let lookup_output = GET_INDEX("lookup_output", 0)?;
        let rd_val = GET_INDEX("memreg_v_writes", 2)?;
        // is_load * (rd_val - load_or_store_value) = 0
        self.constr_abc(
            vec![(is_load_instr, 1)],
            vec![(rd_val, 1), (load_or_store_value, -1)],
            vec![],
        );
        // rd * if_update_rd_with_lookup_output * (rd_val - lookup_output) = 0
        self.constr_prod_0(
            vec![(rd, 1)],
            vec![(if_update_rd_with_lookup_output, 1)],
            vec![(rd_val, 1), (lookup_output, -1)],
        );
        // rd * is_jump * (rd_val - PC - 4) = 0
        self.constr_prod_0(
            vec![(rd, 1)],
            vec![(is_jump_instr, 1)],
            vec![(rd_val, 1), (pc, -1), (0, -4)],
        );
        Some(())
    }

    /// The step counter of the output state is one more than that of the input state.
    fn count_step(&mut self) -> (done: Option<()>)
        requires
            at_stage(old(self)@, 44, 15),
        ensures
            done is Some,
            final(self)@ == old(self)@.run(step_counter()),
            at_stage(final(self)@, 45, 15),
            old(self)@.grows(final(self)@, 1, 0),
    {
        broadcast use lemma_apply_effects;
        proof {
            lemma_wires();
            reveal_with_fuel(BuilderState::run_to, 2);
        }
        // output_state.step_num = input_state.step_num + 1
        let lc = vec![(GET_INDEX("input_state", STEP_NUM_IDX)?, 1), (0, 1)];
        let target = GET_INDEX("output_state", STEP_NUM_IDX)?;
        assert(step_counter()[0] == Gate::Assign { lc: lc@, target });
        self.eq(lc, target, true);
        Some(())
    }

    /// Allots the next program counter and gives it to the output state.
    #[verifier::rlimit(60)]
    fn set_next_pc(&mut self, immediate_signed: usize) -> (done: Option<()>)
        requires
            at_stage(old(self)@, 45, 15),
            immediate_signed == crate::circuit::immediate_signed(),
        ensures
            done is Some,
            final(self)@ == old(self)@.run(next_pc()),
            at_stage(final(self)@, 49, 18),
            old(self)@.grows(final(self)@, 4, 3),
    {
        broadcast use lemma_apply_effects;
        proof {
            lemma_wires();
            reveal_with_fuel(BuilderState::run_to, 5);
        }
        let pc = GET_INDEX("input_state", PC_IDX)?;
        let is_jump_instr = GET_INDEX("op_flags", 4)?;
        let is_branch_instr = GET_INDEX("op_flags", 5)?;
        let lookup_output = GET_INDEX("lookup_output", 0)?;
        let is_branch_times_lookup_output = self.multiply(
            vec![(is_branch_instr, 1)],
            vec![(lookup_output, 1)],
        );
        // next_pc_j = is_jump ? PC + 4 : lookup_output
        let next_pc_j = self.if_else(
            vec![(is_jump_instr, 1)],
            vec![(lookup_output, 1)],
            vec![(pc, 1), (0, 4)],
        );
        // next_pc_j_b = is_branch * lookup_output ? next_pc_j : PC + immediate_signed
        let next_pc_j_b = self.if_else(
            vec![(is_branch_times_lookup_output, 1)],
            vec![(pc, 1), (immediate_signed, 1)],
            vec![(next_pc_j, 1)],
        );
        // output_state.PC = next_pc_j_b
        self.eq(vec![(next_pc_j_b, 1)], GET_INDEX("output_state", PC_IDX)?, true);
        Some(())
    }

    /// Builds the constraints of one step. With a witness, the wires that the
    /// circuit defines receive their values on the way.
    #[verifier::rlimit(60)]
    pub fn get_matrices(inputs: Option<Vec<FieldElement>>) -> (built: Option<R1CSBuilder>)
        requires
            inputs matches Some(w) ==> w.len() + 3 >= total_width(),
        ensures
            built matches Some(b) && {
                &&& b@ == start_state(witness_values(inputs)).run(step_gates())
                &&& b@.tidy()
                &&& b.num_constraints == step_gates().len() == 49
                &&& b.num_variables == total_width() + b.num_aux == 81
                &&& b.z is Some <==> inputs is Some
                &&& inputs matches Some(w) ==> b.z.unwrap().len() == w.len() + 3 + b.num_aux
                &&& inputs matches Some(w) ==> (w.len() + 3 == total_width() ==> b.z.unwrap().len()
                    == b.num_variables)
                &&& inputs matches Some(w) ==> extends(values(w@), b@.z.unwrap())
            },
    {
        // The constant one and the two wires of the output state come first.
        let inputs_with_const_output = match inputs {
            Some(mut vec) => {
                vec.insert(0, scalar_from_u64(0));
                vec.insert(0, scalar_from_u64(0));
                vec.insert(0, scalar_from_u64(1));
                assert(values(vec@) =~= start_witness(values(inputs.unwrap()@)));
                Some(vec)
            },
            None => None,
        };

        let mut instance = R1CSBuilder {
            A: vec![],
            B: vec![],
            C: vec![],
            num_constraints: 0,
            num_variables: GET_TOTAL_LEN(),
            num_inputs: 0,
            num_aux: 0,
            z: inputs_with_const_output,
        };
        let ghost s0 = instance@;
        assert(s0 == start_state(witness_values(inputs)));

        instance.pack_flags()?;
        let immediate = instance.shape_immediate()?;
        instance.alias_registers()?;
        let (x, y) = instance.select_operands(immediate)?;
        let load_or_store_value = instance.assemble_value()?;
        let immediate_signed = instance.sign_immediate(immediate)?;
        instance.check_address(immediate_signed)?;
        instance.check_byte_addresses()?;
        instance.check_load_write_through()?;
        instance.check_store(load_or_store_value)?;
        instance.check_lookup_query(x, y)?;
        instance.check_concat_query(x, y)?;
        instance.check_assertions()?;
        instance.check_write_back(load_or_store_value)?;
        instance.count_step()?;
        instance.set_next_pc(immediate_signed)?;

        proof {
            lemma_step_by_step(s0);
            lemma_wires();
            if inputs is Some {
                let z = s0.run(step_gates()).z.unwrap();
                lemma_step_assigns(0);
                lemma_run_keeps(s0, step_gates(), 0);
                assert forall|i: int| 3 <= i < total_width() implies z[i] == s0.z.unwrap()[i] by {
                    lemma_step_assigns(i);
                    lemma_run_keeps(s0, step_gates(), i);
                }
            }
        }
        Some(instance)
    }
}

} // verus!
