//! The constraints of one step of the virtual machine, as a list of gates.

use crate::model::{
    lemma_concat_never_assigns, lemma_run_concat, lemma_run_ignores_witness, never_assigns, one_lc,
    unit, BuilderState, Gate,
};
use crate::field::FieldElement;
use crate::layout::{base_index, total_width};
use crate::linear::{be_terms, le_terms, values};
use vstd::prelude::*;

verus! {

/// The wire at `offset` inside the input group `name`.
pub open spec fn wire(name: &str, offset: int) -> usize {
    base_index(name@, offset).unwrap()
}

/// The instruction decode flag number `k`.
pub open spec fn flag(k: int) -> usize {
    wire("op_flags", k)
}

/// The `k`-th wire that the circuit allots after the input region.
pub open spec fn aux(k: int) -> usize {
    (total_width() + k) as usize
}

/// The program counter that the step starts from.
pub open spec fn pc() -> usize {
    wire("input_state", 1)
}

/// The value read from the first source register.
pub open spec fn rs1_val() -> usize {
    wire("memreg_v_reads", 0)
}

/// The value read from the second source register.
pub open spec fn rs2_val() -> usize {
    wire("memreg_v_reads", 1)
}

/// The value written to the destination register.
pub open spec fn rd_val() -> usize {
    wire("memreg_v_writes", 2)
}

/// The result of the lookup.
pub open spec fn lookup_output() -> usize {
    wire("lookup_output", 0)
}

/// The immediate after `lui`/`auipc` shaping.
pub open spec fn immediate() -> usize {
    aux(0)
}

/// The first operand.
pub open spec fn operand_x() -> usize {
    aux(1)
}

/// The second operand before advice is taken into account.
pub open spec fn operand_y_raw() -> usize {
    aux(2)
}

/// The second operand.
pub open spec fn operand_y() -> usize {
    aux(3)
}

/// The value loaded or stored, put together from its bytes.
pub open spec fn load_or_store_value() -> usize {
    aux(4)
}

/// The immediate with its sign.
pub open spec fn immediate_signed() -> usize {
    aux(5)
}

/// The lookup query, put together from its chunks.
pub open spec fn combined_z_chunks() -> usize {
    aux(6)
}

/// `is_mul * x`.
pub open spec fn is_mul_x() -> usize {
    aux(7)
}

/// `is_mul * x * y`.
pub open spec fn is_mul_xy() -> usize {
    aux(8)
}

/// The chunk of `y` that goes into chunk `k` of a concatenated query.
pub open spec fn chunk_y_used(k: int) -> usize {
    aux(9 + k)
}

/// `rd * if_update_rd_with_lookup_output`.
pub open spec fn rd_updated() -> usize {
    aux(13)
}

/// `rd * is_jump`.
pub open spec fn rd_linked() -> usize {
    aux(14)
}

/// `is_branch * lookup_output`: the branch is taken.
pub open spec fn branch_taken() -> usize {
    aux(15)
}

/// The next program counter as far as jumps decide it.
pub open spec fn next_pc_j() -> usize {
    aux(16)
}

/// The next program counter.
pub open spec fn next_pc_j_b() -> usize {
    aux(17)
}

/// The row `a * b = 0`.
pub open spec fn vanishes(a: Seq<(usize, i64)>, b: Seq<(usize, i64)>) -> Gate {
    Gate::Constraint { a, b, c: Seq::empty() }
}

/// The row that makes the wires `left` and `right` equal.
pub open spec fn same(left: usize, right: usize) -> Gate {
    Gate::Constraint { a: unit(left), b: one_lc(), c: unit(right) }
}

/// A new wire that is `when_set` where `choice` is not zero and `otherwise`
/// where it is.
pub open spec fn select(
    choice: Seq<(usize, i64)>,
    when_set: Seq<(usize, i64)>,
    otherwise: Seq<(usize, i64)>,
) -> Gate {
    Gate::Select { choice, x: otherwise, y: when_set }
}

/// The flag bits, most significant first, make up the packed flags that the
/// program memory holds.
pub open spec fn flag_packing() -> Seq<Gate> {
    seq![
        Gate::Constraint {
            a: be_terms(flag(0) as int, 1, 17),
            b: one_lc(),
            c: unit(wire("prog_v_rw", 5)),
        },
    ]
}

/// `immediate` is the raw immediate, shifted left by twelve bits for
/// `lui`/`auipc`.
pub open spec fn immediate_shaping() -> Seq<Gate> {
    seq![
        select(
            unit(flag(15)),
            [(wire("prog_v_rw", 4), 4096i64)]@,
            [(wire("prog_v_rw", 4), 1i64)]@,
        ),
    ]
}

/// The register numbers of the instruction are the addresses of the first
/// three memory operations, and reading a source register leaves it as it is.
pub open spec fn register_aliasing() -> Seq<Gate> {
    seq![
        same(wire("prog_v_rw", 1), wire("memreg_a_rw", 0)),
        same(wire("prog_v_rw", 2), wire("memreg_a_rw", 1)),
        same(wire("prog_v_rw", 3), wire("memreg_a_rw", 2)),
        same(wire("memreg_v_reads", 0), wire("memreg_v_writes", 0)),
        same(wire("memreg_v_reads", 1), wire("memreg_v_writes", 1)),
    ]
}

/// `x` is `rs1_val` under flag 0 and the program counter otherwise. The raw
/// second operand is `rs2_val` under flag 1 and the immediate otherwise, and
/// `y` is the raw second operand for an advice instruction and the lookup
/// output otherwise.
pub open spec fn operand_selection() -> Seq<Gate> {
    seq![
        select(unit(flag(0)), unit(rs1_val()), unit(pc())),
        select(unit(flag(1)), unit(rs2_val()), unit(immediate())),
        select(unit(flag(10)), unit(operand_y_raw()), unit(lookup_output())),
    ]
}

/// The loaded or stored value is made of the bytes written to memory, least
/// significant first.
pub open spec fn value_assembly() -> Seq<Gate> {
    seq![Gate::Sum { lc: le_terms(wire("memreg_v_writes", 4) as int, 8, 3) }]
}

/// `immediate_signed` is the immediate under the sign flag, and the immediate
/// less `2^32` otherwise.
pub open spec fn signed_immediate() -> Seq<Gate> {
    seq![
        select(
            unit(flag(13)),
            unit(immediate()),
            [(immediate(), 1i64), (0usize, -0x1_0000_0000i64)]@,
        ),
    ]
}

/// A load or store addresses `rs1_val + immediate_signed`, which is the first
/// memory slot plus the address offset.
pub open spec fn address_check() -> Seq<Gate> {
    seq![
        vanishes(
            [(flag(2), 1i64), (flag(3), 1i64)]@,
            [
                (rs1_val(), 1i64),
                (immediate_signed(), 1i64),
                (wire("memreg_a_rw", 3), -1i64),
                (0usize, -0x7fff_ffe0i64),
            ]@,
        ),
    ]
}

/// The byte address `i` places after the first is the first plus `i`, or zero.
pub open spec fn byte_address(i: int) -> Gate {
    vanishes(
        [
            (wire("memreg_a_rw", 3 + i), 1i64),
            (wire("memreg_a_rw", 3), -1i64),
            (0usize, (-i) as i64),
        ]@,
        unit(wire("memreg_a_rw", 3 + i)),
    )
}

/// The three byte addresses after the first follow it, or are unused.
pub open spec fn address_contiguity() -> Seq<Gate> {
    seq![byte_address(1), byte_address(2), byte_address(3)]
}

/// A load leaves memory byte `i` as it was.
pub open spec fn byte_kept(i: int) -> Gate {
    vanishes(
        [(wire("memreg_v_reads", 3 + i), 1i64), (wire("memreg_v_writes", 3 + i), -1i64)]@,
        unit(flag(2)),
    )
}

/// A load leaves the four memory bytes as they were.
pub open spec fn load_write_through() -> Seq<Gate> {
    seq![byte_kept(0), byte_kept(1), byte_kept(2), byte_kept(3)]
}

/// A store writes `rs2_val`.
pub open spec fn store_value() -> Seq<Gate> {
    seq![
        vanishes(unit(flag(3)), [(load_or_store_value(), 1i64), (rs2_val(), -1i64)]@),
    ]
}

/// The lookup query, put together from its chunks with the most significant
/// first, is `x + y` for an addition, `x - y + 2^32` for a subtraction and
/// `x * y` for a multiplication.
pub open spec fn lookup_query() -> Seq<Gate> {
    seq![
        Gate::Sum { lc: be_terms(wire("chunks_query", 0) as int, 16, 4) },
        vanishes(
            unit(flag(7)),
            [(combined_z_chunks(), 1i64), (operand_x(), -1i64), (operand_y(), -1i64)]@,
        ),
        vanishes(
            unit(flag(8)),
            [
                (combined_z_chunks(), 1i64),
                (operand_x(), -1i64),
                (operand_y(), 1i64),
                (0usize, -0x1_0000_0000i64),
            ]@,
        ),
        Gate::Product { x: unit(flag(9)), y: unit(operand_x()) },
        Gate::Product { x: unit(is_mul_x()), y: unit(operand_y()) },
        vanishes(unit(flag(9)), [(combined_z_chunks(), 1i64), (is_mul_xy(), -1i64)]@),
    ]
}

/// For a concatenated query, the chunks of `operand`, most significant first,
/// make up the operand.
pub open spec fn chunks_make(chunks: &str, operand: usize) -> Gate {
    vanishes(be_terms(wire(chunks, 0) as int, 8, 4).push((operand, -1i64)), unit(flag(14)))
}

/// The chunk of `y` used at position `k`: the last chunk of `y` for a shift,
/// chunk `k` otherwise.
pub open spec fn chunk_choice(k: int) -> Gate {
    select(unit(flag(16)), unit(wire("chunks_y", 3)), unit(wire("chunks_y", k)))
}

/// For a concatenated query, chunk `k` of the query is chunk `k` of `x`
/// followed by the eight bits of the chunk of `y` used there.
pub open spec fn chunk_concat(k: int) -> Gate {
    vanishes(
        [
            (wire("chunks_query", k), 1i64),
            (chunk_y_used(k), -1i64),
            (wire("chunks_x", k), -256i64),
        ]@,
        unit(flag(14)),
    )
}

/// The chunks of a concatenated query.
pub open spec fn concat_query() -> Seq<Gate> {
    seq![
        chunks_make("chunks_x", operand_x()),
        chunks_make("chunks_y", operand_y()),
        chunk_choice(0),
        chunk_concat(0),
        chunk_choice(1),
        chunk_concat(1),
        chunk_choice(2),
        chunk_concat(2),
        chunk_choice(3),
        chunk_concat(3),
    ]
}

/// `assert_false` wants the lookup output to be one, `assert_true` wants it to
/// be zero.
pub open spec fn assertions() -> Seq<Gate> {
    seq![
        vanishes(unit(flag(11)), [(lookup_output(), -1i64), (0usize, 1i64)]@),
        vanishes(unit(flag(12)), unit(lookup_output())),
    ]
}

/// What is written to `rd`: the loaded value on a load; the lookup output
/// where `rd` is not register zero and the update flag is set; the return
/// address where `rd` is not register zero on a jump.
pub open spec fn write_back() -> Seq<Gate> {
    seq![
        vanishes(unit(flag(2)), [(rd_val(), 1i64), (load_or_store_value(), -1i64)]@),
        Gate::Product { x: unit(wire("prog_v_rw", 3)), y: unit(flag(6)) },
        vanishes(unit(rd_updated()), [(rd_val(), 1i64), (lookup_output(), -1i64)]@),
        Gate::Product { x: unit(wire("prog_v_rw", 3)), y: unit(flag(4)) },
        vanishes(unit(rd_linked()), [(rd_val(), 1i64), (pc(), -1i64), (0usize, -4i64)]@),
    ]
}

/// The step counter goes up by one.
pub open spec fn step_counter() -> Seq<Gate> {
    seq![
        Gate::Assign {
            lc: [(wire("input_state", 0), 1i64), (0usize, 1i64)]@,
            target: wire("output_state", 0),
        },
    ]
}

/// The next program counter: `next_pc_j` is `PC + 4` on a jump and the lookup
/// output otherwise; the result is `next_pc_j` where a branch is taken and
/// `PC + immediate_signed` otherwise.
pub open spec fn next_pc() -> Seq<Gate> {
    seq![
        Gate::Product { x: unit(flag(5)), y: unit(lookup_output()) },
        select(unit(flag(4)), [(pc(), 1i64), (0usize, 4i64)]@, unit(lookup_output())),
        select(
            unit(branch_taken()),
            unit(next_pc_j()),
            [(pc(), 1i64), (immediate_signed(), 1i64)]@,
        ),
        Gate::Assign { lc: unit(next_pc_j_b()), target: wire("output_state", 1) },
    ]
}

/// The gates of one step of the machine, in the order in which they are built.
pub open spec fn step_gates() -> Seq<Gate> {
    flag_packing() + immediate_shaping() + register_aliasing() + operand_selection()
        + value_assembly() + signed_immediate() + address_check() + address_contiguity()
        + load_write_through() + store_value() + lookup_query() + concat_query() + assertions()
        + write_back() + step_counter() + next_pc()
}

/// The witness that construction starts from: the constant one, two slots for
/// the output state, and the inputs.
pub open spec fn start_witness(inputs: Seq<nat>) -> Seq<nat> {
    seq![1nat, 0nat, 0nat] + inputs
}

/// The builder before the first gate.
pub open spec fn start_state(inputs: Option<Seq<nat>>) -> BuilderState {
    BuilderState {
        a: Seq::empty(),
        b: Seq::empty(),
        c: Seq::empty(),
        num_constraints: 0,
        num_variables: total_width(),
        num_inputs: 0,
        num_aux: 0,
        z: match inputs {
            Some(w) => Some(start_witness(w)),
            None => None,
        },
    }
}

/// The residues of a witness, where there is one.
pub open spec fn witness_values(inputs: Option<Vec<FieldElement>>) -> Option<Seq<nat>> {
    match inputs {
        Some(w) => Some(values(w@)),
        None => None,
    }
}

/// Running the gates of a step is running its sixteen parts in order.
pub proof fn lemma_step_by_step(start: BuilderState)
    ensures
        start.run(step_gates()) == start.run(flag_packing()).run(immediate_shaping()).run(
            register_aliasing(),
        ).run(operand_selection()).run(value_assembly()).run(signed_immediate()).run(
            address_check(),
        ).run(address_contiguity()).run(load_write_through()).run(store_value()).run(
            lookup_query(),
        ).run(concat_query()).run(assertions()).run(write_back()).run(step_counter()).run(
            next_pc(),
        ),
        step_gates().len() == 49,
{
    let g1 = flag_packing();
    let g2 = g1 + immediate_shaping();
    let g3 = g2 + register_aliasing();
    let g4 = g3 + operand_selection();
    let g5 = g4 + value_assembly();
    let g6 = g5 + signed_immediate();
    let g7 = g6 + address_check();
    let g8 = g7 + address_contiguity();
    let g9 = g8 + load_write_through();
    let g10 = g9 + store_value();
    let g11 = g10 + lookup_query();
    let g12 = g11 + concat_query();
    let g13 = g12 + assertions();
    let g14 = g13 + write_back();
    let g15 = g14 + step_counter();
    lemma_run_concat(start, g1, immediate_shaping());
    lemma_run_concat(start, g2, register_aliasing());
    lemma_run_concat(start, g3, operand_selection());
    lemma_run_concat(start, g4, value_assembly());
    lemma_run_concat(start, g5, signed_immediate());
    lemma_run_concat(start, g6, address_check());
    lemma_run_concat(start, g7, address_contiguity());
    lemma_run_concat(start, g8, load_write_through());
    lemma_run_concat(start, g9, store_value());
    lemma_run_concat(start, g10, lookup_query());
    lemma_run_concat(start, g11, concat_query());
    lemma_run_concat(start, g12, assertions());
    lemma_run_concat(start, g13, write_back());
    lemma_run_concat(start, g14, step_counter());
    lemma_run_concat(start, g15, next_pc());
}

/// The only existing wires that a step assigns are the two of the output
/// state.
pub proof fn lemma_step_assigns(kept: int)
    requires
        kept != wire("output_state", 0),
        kept != wire("output_state", 1),
    ensures
        never_assigns(step_gates(), kept),
{
    assert(never_assigns(flag_packing(), kept));
    assert(never_assigns(immediate_shaping(), kept));
    assert(never_assigns(register_aliasing(), kept));
    assert(never_assigns(operand_selection(), kept));
    assert(never_assigns(value_assembly(), kept));
    assert(never_assigns(signed_immediate(), kept));
    assert(never_assigns(address_check(), kept));
    assert(never_assigns(address_contiguity(), kept));
    assert(never_assigns(load_write_through(), kept));
    assert(never_assigns(store_value(), kept));
    assert(never_assigns(lookup_query(), kept));
    assert(never_assigns(concat_query(), kept));
    assert(never_assigns(assertions(), kept));
    assert(never_assigns(write_back(), kept));
    assert(never_assigns(step_counter(), kept));
    assert(never_assigns(next_pc(), kept));
    let g1 = flag_packing();
    let g2 = g1 + immediate_shaping();
    let g3 = g2 + register_aliasing();
    let g4 = g3 + operand_selection();
    let g5 = g4 + value_assembly();
    let g6 = g5 + signed_immediate();
    let g7 = g6 + address_check();
    let g8 = g7 + address_contiguity();
    let g9 = g8 + load_write_through();
    let g10 = g9 + store_value();
    let g11 = g10 + lookup_query();
    let g12 = g11 + concat_query();
    let g13 = g12 + assertions();
    let g14 = g13 + write_back();
    let g15 = g14 + step_counter();
    lemma_concat_never_assigns(g1, immediate_shaping(), kept);
    lemma_concat_never_assigns(g2, register_aliasing(), kept);
    lemma_concat_never_assigns(g3, operand_selection(), kept);
    lemma_concat_never_assigns(g4, value_assembly(), kept);
    lemma_concat_never_assigns(g5, signed_immediate(), kept);
    lemma_concat_never_assigns(g6, address_check(), kept);
    lemma_concat_never_assigns(g7, address_contiguity(), kept);
    lemma_concat_never_assigns(g8, load_write_through(), kept);
    lemma_concat_never_assigns(g9, store_value(), kept);
    lemma_concat_never_assigns(g10, lookup_query(), kept);
    lemma_concat_never_assigns(g11, concat_query(), kept);
    lemma_concat_never_assigns(g12, assertions(), kept);
    lemma_concat_never_assigns(g13, write_back(), kept);
    lemma_concat_never_assigns(g14, step_counter(), kept);
    lemma_concat_never_assigns(g15, next_pc(), kept);
}

/// The witness `z` starts with the constant one, and after the two wires of
/// the output state holds the inputs as they were given.
pub open spec fn extends(inputs: Seq<nat>, z: Seq<nat>) -> bool {
    &&& z[0] == 1
    &&& forall|i: int| 3 <= i < total_width() ==> z[i] == inputs[i - 3]
}

/// The matrices of a step are the same with a witness, whatever it holds,
/// and without one.
pub proof fn lemma_matrices_ignore_witness(first: Option<Seq<nat>>, second: Option<Seq<nat>>)
    ensures
        start_state(first).run(step_gates()).same_shape(start_state(second).run(step_gates())),
{
    lemma_run_ignores_witness(start_state(first), start_state(second), step_gates());
}

} // verus!
