use jolt_r1cs::linear::{
    combine_chunks_vec, combine_chunks_vec_le, power_of_two, subtract_vectors,
};

#[test]
fn subtracting_appends_the_negated_terms() {
    let x = vec![(1, 2), (3, -4)];
    let y = vec![(5, 6)];
    assert_eq!(subtract_vectors(x, y), vec![(5, 6), (1, -2), (3, 4)]);
}

#[test]
fn subtracting_keeps_repeated_wires_apart() {
    let x = vec![(7, 1)];
    let y = vec![(7, 1), (7, 3)];
    assert_eq!(subtract_vectors(x, y), vec![(7, 1), (7, 3), (7, -1)]);
}

#[test]
fn subtracting_nothing_changes_nothing() {
    assert_eq!(subtract_vectors(vec![], vec![(2, 9)]), vec![(2, 9)]);
    assert_eq!(subtract_vectors(vec![(2, 9)], vec![]), vec![(2, -9)]);
    assert_eq!(subtract_vectors(vec![], vec![]), vec![]);
}

#[test]
fn subtracting_the_extreme_coefficients() {
    assert_eq!(
        subtract_vectors(vec![(0, i64::MAX), (1, i64::MIN + 1)], vec![]),
        vec![(0, -i64::MAX), (1, i64::MAX)]
    );
}

#[test]
fn chunk_terms_run_from_the_most_significant() {
    assert_eq!(
        combine_chunks_vec(10, 8, 4),
        vec![(10, 1 << 24), (11, 1 << 16), (12, 1 << 8), (13, 1)]
    );
    assert_eq!(
        combine_chunks_vec(41, 16, 4),
        vec![(41, 1 << 48), (42, 1 << 32), (43, 1 << 16), (44, 1)]
    );
}

#[test]
fn chunk_terms_of_single_bits() {
    let terms = combine_chunks_vec(46, 1, 17);
    assert_eq!(terms.len(), 17);
    assert_eq!(terms[0], (46, 65536));
    assert_eq!(terms[1], (47, 32768));
    assert_eq!(terms[15], (61, 2));
    assert_eq!(terms[16], (62, 1));
}

#[test]
fn chunk_terms_at_the_edges() {
    assert_eq!(combine_chunks_vec(5, 8, 0), vec![]);
    assert_eq!(combine_chunks_vec(5, 8, 1), vec![(5, 1)]);
    assert_eq!(combine_chunks_vec(5, 1000, 1), vec![(5, 1)]);
    assert_eq!(combine_chunks_vec(0, 0, 3), vec![(0, 1), (1, 1), (2, 1)]);
    assert_eq!(combine_chunks_vec(0, 62, 2), vec![(0, 1 << 62), (1, 1)]);
    assert_eq!(combine_chunks_vec(0, 31, 3), vec![(0, 1 << 62), (1, 1 << 31), (2, 1)]);
    assert_eq!(combine_chunks_vec(usize::MAX, 8, 1), vec![(usize::MAX, 1)]);
}

#[test]
fn powers_of_two() {
    assert_eq!(power_of_two(0), 1);
    assert_eq!(power_of_two(1), 2);
    assert_eq!(power_of_two(12), 4096);
    assert_eq!(power_of_two(32), 0x1_0000_0000);
    assert_eq!(power_of_two(62), 0x4000_0000_0000_0000);
}

#[test]
fn little_endian_chunk_terms_run_from_the_least_significant() {
    assert_eq!(
        combine_chunks_vec_le(10, 8, 4),
        vec![(10, 1), (11, 1 << 8), (12, 1 << 16), (13, 1 << 24)]
    );
    assert_eq!(combine_chunks_vec_le(30, 8, 3), vec![(30, 1), (31, 256), (32, 65536)]);
    assert_eq!(combine_chunks_vec_le(5, 8, 0), vec![]);
    assert_eq!(combine_chunks_vec_le(5, 62, 2), vec![(5, 1), (6, 1 << 62)]);
    let mut reversed = combine_chunks_vec(0, 4, 5);
    reversed.reverse();
    let coefficients: Vec<i64> = reversed.iter().map(|t| t.1).collect();
    let expected: Vec<i64> = combine_chunks_vec_le(0, 4, 5).iter().map(|t| t.1).collect();
    assert_eq!(coefficients, expected);
}
