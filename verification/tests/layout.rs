use jolt_r1cs::layout::{
    ALL_ONES, C, GET_INDEX, GET_TOTAL_LEN, LOG_M, L_CHUNK, MEMORY_ADDRESS_OFFSET, MOPS, N_FLAGS,
    PC_IDX, STATE_LENGTH, STEP_NUM_IDX, W,
};

#[test]
fn the_input_region_has_sixty_three_wires() {
    assert_eq!(GET_TOTAL_LEN(), 63);
    assert_eq!(GET_TOTAL_LEN(), 1 + 2 + 2 + 1 + 6 + 3 * MOPS + 3 * C + 1 + N_FLAGS);
}

#[test]
fn every_group_starts_where_the_one_before_ends() {
    let groups: [(&str, usize, usize); 13] = [
        ("CONSTANT", 0, 1),
        ("output_state", 1, 2),
        ("input_state", 3, 2),
        ("prog_a_rw", 5, 1),
        ("prog_v_rw", 6, 6),
        ("memreg_a_rw", 12, 7),
        ("memreg_v_reads", 19, 7),
        ("memreg_v_writes", 26, 7),
        ("chunks_x", 33, 4),
        ("chunks_y", 37, 4),
        ("chunks_query", 41, 4),
        ("lookup_output", 45, 1),
        ("op_flags", 46, 17),
    ];
    for (name, first, width) in groups {
        for offset in 0..width {
            assert_eq!(GET_INDEX(name, offset), Some(first + offset), "{} + {}", name, offset);
        }
        assert_eq!(GET_INDEX(name, width), None, "{} is {} wide", name, width);
        assert_eq!(GET_INDEX(name, usize::MAX), None);
    }
}

#[test]
fn the_last_wire_is_the_last_flag() {
    assert_eq!(GET_INDEX("op_flags", N_FLAGS - 1), Some(GET_TOTAL_LEN() - 1));
}

#[test]
fn unknown_names_have_no_index() {
    assert_eq!(GET_INDEX("", 0), None);
    assert_eq!(GET_INDEX("constant", 0), None);
    assert_eq!(GET_INDEX("CONSTANT ", 0), None);
    assert_eq!(GET_INDEX("op_flag", 0), None);
    assert_eq!(GET_INDEX("op_flagss", 0), None);
    assert_eq!(GET_INDEX("chunks_z", 0), None);
    assert_eq!(GET_INDEX("memreg_v_read", 0), None);
    assert_eq!(GET_INDEX("pc", 0), None);
}

#[test]
fn the_shape_parameters_are_the_documented_ones() {
    assert_eq!(W, 32);
    assert_eq!(C, 4);
    assert_eq!(L_CHUNK, 8);
    assert_eq!(LOG_M, 16);
    assert_eq!(N_FLAGS, 17);
    assert_eq!(MOPS, 7);
    assert_eq!(MEMORY_ADDRESS_OFFSET, 0x7fff_ffe0);
    assert_eq!(ALL_ONES, 0xffff_ffff);
    assert_eq!(STATE_LENGTH, 2);
    assert_eq!(STEP_NUM_IDX, 0);
    assert_eq!(PC_IDX, 1);
}
