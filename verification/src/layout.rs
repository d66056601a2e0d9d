//! The fixed layout of the input region of the witness: named groups of
//! wires, laid out one after the other.

use vstd::prelude::*;
use vstd::string::StrSliceExecFns;

verus! {

/// Chunks per operand.
pub const C: usize = 4;

/// Instruction decode flags.
pub const N_FLAGS: usize = 17;

/// Word width in bits.
pub const W: usize = 32;

/// Bits per chunk of the lookup query.
pub const LOG_M: usize = 16;

/// Register and memory operations per step.
pub const MOPS: usize = 7;

/// Bits per operand chunk.
pub const L_CHUNK: usize = LOG_M / 2;

/// Offset subtracted from a RAM address to get its memory slot.
pub const MEMORY_ADDRESS_OFFSET: usize = 0x80000000 - 0x20;

/// Position of the step counter inside a machine state.
pub const STEP_NUM_IDX: usize = 0;

/// Position of the program counter inside a machine state.
pub const PC_IDX: usize = 1;

/// Wires per machine state.
pub const STATE_LENGTH: usize = 2;

/// The largest value of a machine word.
pub const ALL_ONES: i64 = 0xffffffff;

/// The groups of the input region, in order, each with its width.
pub open spec fn schema() -> Seq<(Seq<char>, nat)> {
    seq![
        ("CONSTANT"@, 1nat),
        ("output_state"@, 2nat),
        ("input_state"@, 2nat),
        ("prog_a_rw"@, 1nat),
        ("prog_v_rw"@, 6nat),
        ("memreg_a_rw"@, 7nat),
        ("memreg_v_reads"@, 7nat),
        ("memreg_v_writes"@, 7nat),
        ("chunks_x"@, 4nat),
        ("chunks_y"@, 4nat),
        ("chunks_query"@, 4nat),
        ("lookup_output"@, 1nat),
        ("op_flags"@, 17nat),
    ]
}

/// The first wire of the group at position `group`: the widths of the groups
/// before it, added up.
pub open spec fn first_wire(group: int) -> nat
    decreases group,
{
    if group <= 0 {
        0
    } else {
        first_wire(group - 1) + schema()[group - 1].1
    }
}

/// The width of the whole input region.
pub open spec fn total_width() -> nat {
    first_wire(schema().len() as int)
}

/// The position of the first group at or after `from` that is called `name`.
pub open spec fn find_group(name: Seq<char>, from: int) -> Option<int>
    decreases schema().len() - from,
{
    if from < 0 || from >= schema().len() {
        None
    } else if schema()[from].0 == name {
        Some(from)
    } else {
        find_group(name, from + 1)
    }
}

/// The wire at `offset` inside the group called `name`; `None` when no group
/// has that name or the group is not that wide.
pub open spec fn base_index(name: Seq<char>, offset: int) -> Option<usize> {
    match find_group(name, 0) {
        Some(group) => if 0 <= offset < schema()[group].1 {
            Some((first_wire(group) + offset) as usize)
        } else {
            None
        },
        None => None,
    }
}

/// The schema as a table of names and widths.
fn inputs() -> (table: Vec<(&'static str, usize)>)
    ensures
        table@.len() == schema().len(),
        forall|i: int|
            0 <= i < table@.len() ==> (#[trigger] table@[i]).0@ == schema()[i].0 && table@[i].1
                == schema()[i].1,
{
    vec![
        ("CONSTANT", 1),
        ("output_state", STATE_LENGTH),
        ("input_state", STATE_LENGTH),
        ("prog_a_rw", 1),
        ("prog_v_rw", 6),
        ("memreg_a_rw", 7),
        ("memreg_v_reads", 7),
        ("memreg_v_writes", 7),
        ("chunks_x", C),
        ("chunks_y", C),
        ("chunks_query", C),
        ("lookup_output", 1),
        ("op_flags", N_FLAGS),
    ]
}

/// Whether two strings hold the same characters.
fn same_name(a: &str, b: &str) -> (same: bool)
    ensures
        same == (a@ == b@),
{
    let n = a.unicode_len();
    if n != b.unicode_len() {
        return false;
    }
    let mut i: usize = 0;
    while i < n
        invariant
            i <= n,
            n == a@.len(),
            n == b@.len(),
            forall|j: int| 0 <= j < i ==> a@[j] == b@[j],
        decreases n - i,
    {
        if a.get_char(i) != b.get_char(i) {
            return false;
        }
        i = i + 1;
    }
    assert(a@ =~= b@);
    true
}

/// The first wire of every group lies inside the input region.
pub proof fn lemma_first_wire_bounds(group: int)
    requires
        0 <= group <= schema().len(),
    ensures
        first_wire(group) <= total_width(),
        total_width() == 63,
        group < schema().len() ==> first_wire(group) + schema()[group].1 <= total_width(),
{
    reveal_with_fuel(first_wire, 14);
}

/// Where each named group stands in the schema.
pub proof fn lemma_group_positions()
    ensures
        find_group("CONSTANT"@, 0) == Some(0int),
        find_group("output_state"@, 0) == Some(1int),
        find_group("input_state"@, 0) == Some(2int),
        find_group("prog_a_rw"@, 0) == Some(3int),
        find_group("prog_v_rw"@, 0) == Some(4int),
        find_group("memreg_a_rw"@, 0) == Some(5int),
        find_group("memreg_v_reads"@, 0) == Some(6int),
        find_group("memreg_v_writes"@, 0) == Some(7int),
        find_group("chunks_x"@, 0) == Some(8int),
        find_group("chunks_y"@, 0) == Some(9int),
        find_group("chunks_query"@, 0) == Some(10int),
        find_group("lookup_output"@, 0) == Some(11int),
        find_group("op_flags"@, 0) == Some(12int),
{
    reveal_strlit("CONSTANT");
    reveal_strlit("output_state");
    reveal_strlit("input_state");
    reveal_strlit("prog_a_rw");
    reveal_strlit("prog_v_rw");
    reveal_strlit("memreg_a_rw");
    reveal_strlit("memreg_v_reads");
    reveal_strlit("memreg_v_writes");
    reveal_strlit("chunks_x");
    reveal_strlit("chunks_y");
    reveal_strlit("chunks_query");
    reveal_strlit("lookup_output");
    reveal_strlit("op_flags");
    // Names of the same length differ in their first, sixth or eighth letter.
    assert("CONSTANT"@.len() == 8 && "CONSTANT"@[0] == 'C' && "CONSTANT"@[5] == 'A'
        && "CONSTANT"@[7] == 'T');
    assert("output_state"@.len() == 12 && "output_state"@[0] == 'o' && "output_state"@[5] == 't'
        && "output_state"@[7] == 's');
    assert("input_state"@.len() == 11 && "input_state"@[0] == 'i' && "input_state"@[5] == '_'
        && "input_state"@[7] == 't');
    assert("prog_a_rw"@.len() == 9 && "prog_a_rw"@[0] == 'p' && "prog_a_rw"@[5] == 'a'
        && "prog_a_rw"@[7] == 'r');
    assert("prog_v_rw"@.len() == 9 && "prog_v_rw"@[0] == 'p' && "prog_v_rw"@[5] == 'v'
        && "prog_v_rw"@[7] == 'r');
    assert("memreg_a_rw"@.len() == 11 && "memreg_a_rw"@[0] == 'm' && "memreg_a_rw"@[5] == 'g'
        && "memreg_a_rw"@[7] == 'a');
    assert("memreg_v_reads"@.len() == 14 && "memreg_v_reads"@[0] == 'm' && "memreg_v_reads"@[5] == 'g'
        && "memreg_v_reads"@[7] == 'v');
    assert("memreg_v_writes"@.len() == 15 && "memreg_v_writes"@[0] == 'm' && "memreg_v_writes"@[5] == 'g'
        && "memreg_v_writes"@[7] == 'v');
    assert("chunks_x"@.len() == 8 && "chunks_x"@[0] == 'c' && "chunks_x"@[5] == 's'
        && "chunks_x"@[7] == 'x');
    assert("chunks_y"@.len() == 8 && "chunks_y"@[0] == 'c' && "chunks_y"@[5] == 's'
        && "chunks_y"@[7] == 'y');
    assert("chunks_query"@.len() == 12 && "chunks_query"@[0] == 'c' && "chunks_query"@[5] == 's'
        && "chunks_query"@[7] == 'q');
    assert("lookup_output"@.len() == 13 && "lookup_output"@[0] == 'l' && "lookup_output"@[5] == 'p'
        && "lookup_output"@[7] == 'o');
    assert("op_flags"@.len() == 8 && "op_flags"@[0] == 'o' && "op_flags"@[5] == 'a'
        && "op_flags"@[7] == 's');
    reveal_with_fuel(find_group, 14);
}

/// The wire of every offset inside every named group.
pub proof fn lemma_wires()
    ensures
        total_width() == 63,
        forall|k: int| #[trigger] base_index("CONSTANT"@, k) == (if 0 <= k < 1 {
            Some((0 + k) as usize)
        } else {
            None
        }),
        forall|k: int| #[trigger] base_index("output_state"@, k) == (if 0 <= k < 2 {
            Some((1 + k) as usize)
        } else {
            None
        }),
        forall|k: int| #[trigger] base_index("input_state"@, k) == (if 0 <= k < 2 {
            Some((3 + k) as usize)
        } else {
            None
        }),
        forall|k: int| #[trigger] base_index("prog_a_rw"@, k) == (if 0 <= k < 1 {
            Some((5 + k) as usize)
        } else {
            None
        }),
        forall|k: int| #[trigger] base_index("prog_v_rw"@, k) == (if 0 <= k < 6 {
            Some((6 + k) as usize)
        } else {
            None
        }),
        forall|k: int| #[trigger] base_index("memreg_a_rw"@, k) == (if 0 <= k < 7 {
            Some((12 + k) as usize)
        } else {
            None
        }),
        forall|k: int| #[trigger] base_index("memreg_v_reads"@, k) == (if 0 <= k < 7 {
            Some((19 + k) as usize)
        } else {
            None
        }),
        forall|k: int| #[trigger] base_index("memreg_v_writes"@, k) == (if 0 <= k < 7 {
            Some((26 + k) as usize)
        } else {
            None
        }),
        forall|k: int| #[trigger] base_index("chunks_x"@, k) == (if 0 <= k < 4 {
            Some((33 + k) as usize)
        } else {
            None
        }),
        forall|k: int| #[trigger] base_index("chunks_y"@, k) == (if 0 <= k < 4 {
            Some((37 + k) as usize)
        } else {
            None
        }),
        forall|k: int| #[trigger] base_index("chunks_query"@, k) == (if 0 <= k < 4 {
            Some((41 + k) as usize)
        } else {
            None
        }),
        forall|k: int| #[trigger] base_index("lookup_output"@, k) == (if 0 <= k < 1 {
            Some((45 + k) as usize)
        } else {
            None
        }),
        forall|k: int| #[trigger] base_index("op_flags"@, k) == (if 0 <= k < 17 {
            Some((46 + k) as usize)
        } else {
            None
        }),
{
    lemma_group_positions();
    reveal_with_fuel(first_wire, 14);
}

/// The width of the input region of the witness.
#[allow(non_snake_case)]
pub fn GET_TOTAL_LEN() -> (len: usize)
    ensures
        len == total_width(),
        len == 63,
{
    let table = inputs();
    let mut total: usize = 0;
    let mut i: usize = 0;
    while i < table.len()
        invariant
            i <= table.len(),
            table@.len() == schema().len(),
            forall|j: int| 0 <= j < table@.len() ==> (#[trigger] table@[j]).1 == schema()[j].1,
            total == first_wire(i as int),
        decreases table.len() - i,
    {
        proof {
            lemma_first_wire_bounds(i as int);
        }
        total = total + table[i].1;
        i = i + 1;
    }
    proof {
        lemma_first_wire_bounds(i as int);
    }
    total
}

/// The index in the witness of the wire at `offset` inside the group `name`;
/// `None` when no group has that name or the group is not that wide.
#[allow(non_snake_case)]
pub fn GET_INDEX(name: &str, offset: usize) -> (index: Option<usize>)
    ensures
        index == base_index(name@, offset as int),
{
    let table = inputs();
    let mut total: usize = 0;
    let mut i: usize = 0;
    while i < table.len()
        invariant
            i <= table.len(),
            table@.len() == schema().len(),
            forall|j: int|
                0 <= j < table@.len() ==> (#[trigger] table@[j]).0@ == schema()[j].0 && table@[j].1
                    == schema()[j].1,
            total == first_wire(i as int),
            find_group(name@, 0) == find_group(name@, i as int),
        decreases table.len() - i,
    {
        proof {
            lemma_first_wire_bounds(i as int);
        }
        let (input_name, value) = table[i];
        if same_name(input_name, name) {
            if offset < value {
                return Some(total + offset);
            } else {
                return None;
            }
        }
        total = total + value;
        i = i + 1;
    }
    None
}

} // verus!
