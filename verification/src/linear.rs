//! Linear combinations of wires: ordered lists of `(wire, coefficient)` terms.

use crate::field::{modulus, FieldElement};
use vstd::arithmetic::power2::pow2;
use vstd::prelude::*;

verus! {

/// The residues of a sequence of field elements.
pub open spec fn values(z: Seq<FieldElement>) -> Seq<nat> {
    z.map_values(|e: FieldElement| e.value())
}

/// The sum of `coefficient * z[wire]` over the terms of `lc`, taken over the
/// integers and as written: repeated wires are not merged.
pub open spec fn lc_sum(lc: Seq<(usize, i64)>, z: Seq<nat>) -> int
    decreases lc.len(),
{
    if lc.len() == 0 {
        0
    } else {
        lc_sum(lc.drop_last(), z) + lc.last().1 * z[lc.last().0 as int]
    }
}

/// The value of a linear combination under the witness `z`, in the field.
pub open spec fn lc_value(lc: Seq<(usize, i64)>, z: Seq<nat>) -> nat {
    (lc_sum(lc, z) % (modulus() as int)) as nat
}

/// Every wire that `lc` mentions is below `bound`.
pub open spec fn lc_in_range(lc: Seq<(usize, i64)>, bound: int) -> bool {
    forall|k: int| 0 <= k < lc.len() ==> (#[trigger] lc[k]).0 < bound
}

/// No coefficient of `lc` is the one `i64` that has no negation.
pub open spec fn lc_negatable(lc: Seq<(usize, i64)>) -> bool {
    forall|k: int| 0 <= k < lc.len() ==> (#[trigger] lc[k]).1 > i64::MIN
}

/// The terms of `lc` with every coefficient negated.
pub open spec fn negate(lc: Seq<(usize, i64)>) -> Seq<(usize, i64)> {
    Seq::new(lc.len(), |k: int| (lc[k].0, (-lc[k].1) as i64))
}

/// The terms `(start + k, 2^(width * (count - 1 - k)))` for `k` below `count`:
/// `count` chunks of `width` bits, most significant first.
pub open spec fn be_terms(start: int, width: nat, count: nat) -> Seq<(usize, i64)> {
    Seq::new(count, |k: int| ((start + k) as usize, pow2((width * (count - 1 - k)) as nat) as i64))
}

/// The terms `(start + k, 2^(width * k))` for `k` below `count`: `count`
/// chunks of `width` bits, least significant first.
pub open spec fn le_terms(start: int, width: nat, count: nat) -> Seq<(usize, i64)> {
    Seq::new(count, |k: int| ((start + k) as usize, pow2((width * k) as nat) as i64))
}

/// The order in which a run of chunks is read.
#[derive(Clone, Copy, Debug, PartialEq, Eq)]
pub enum Endian {
    /// The first chunk is the most significant.
    Big,
    /// The first chunk is the least significant.
    Little,
}

/// The terms of `count` chunks of `width` bits from wire `start` on, read in
/// the order `endian`.
pub open spec fn chunk_terms(start: int, width: nat, count: nat, endian: Endian) -> Seq<
    (usize, i64),
> {
    match endian {
        Endian::Big => be_terms(start, width, count),
        Endian::Little => le_terms(start, width, count),
    }
}

/// The sum of `2^(width * (count - 1 - k)) * z[start + k]` over the first
/// `upto` chunks.
pub open spec fn be_partial(z: Seq<nat>, start: int, width: nat, count: nat, upto: nat) -> int
    decreases upto,
{
    if upto == 0 {
        0
    } else {
        be_partial(z, start, width, count, (upto - 1) as nat) + pow2(
            (width * (count - upto)) as nat,
        ) * z[start + upto - 1]
    }
}

/// The number that `count` chunks of `width` bits from wire `start` on stand
/// for, most significant first: the sum of
/// `2^(width * (count - 1 - k)) * z[start + k]`.
pub open spec fn be_sum(z: Seq<nat>, start: int, width: nat, count: nat) -> int {
    be_partial(z, start, width, count, count)
}

/// The sum of `2^(width * k) * z[start + k]` over the first `upto` chunks.
pub open spec fn le_partial(z: Seq<nat>, start: int, width: nat, upto: nat) -> int
    decreases upto,
{
    if upto == 0 {
        0
    } else {
        le_partial(z, start, width, (upto - 1) as nat) + pow2((width * (upto - 1)) as nat) * z[start
            + upto - 1]
    }
}

/// The number that `count` chunks of `width` bits from wire `start` on stand
/// for, least significant first: the sum of `2^(width * k) * z[start + k]`.
pub open spec fn le_sum(z: Seq<nat>, start: int, width: nat, count: nat) -> int {
    le_partial(z, start, width, count)
}

/// `y - x`: the terms of `y` followed by the negated terms of `x`.
pub fn subtract_vectors(x: Vec<(usize, i64)>, y: Vec<(usize, i64)>) -> (r: Vec<(usize, i64)>)
    requires
        lc_negatable(x@),
    ensures
        r@ == y@ + negate(x@),
{
    let ghost minuend = y@;
    let mut y = y;
    let mut k: usize = 0;
    while k < x.len()
        invariant
            k <= x.len(),
            lc_negatable(x@),
            y@ == minuend + negate(x@).take(k as int),
        decreases x.len() - k,
    {
        let (idx, coeff) = x[k];
        y.push((idx, -coeff));
        k = k + 1;
    }
    y
}

/// The big-endian chunk terms: wire `start_idx + i` with coefficient
/// `2^((N - 1 - i) * L)`, for `i` below `N`.
#[allow(non_snake_case)]
pub fn combine_chunks_vec(start_idx: usize, L: usize, N: usize) -> (r: Vec<(usize, i64)>)
    requires
        start_idx + N <= usize::MAX + 1,
        N > 0 ==> L * (N - 1) <= 62,
    ensures
        r@ == be_terms(start_idx as int, L as nat, N as nat),
{
    let mut result: Vec<(usize, i64)> = Vec::new();
    let mut i: usize = 0;
    while i < N
        invariant
            i <= N,
            start_idx + N <= usize::MAX + 1,
            L * (N - 1) <= 62,
            result@ == be_terms(start_idx as int, L as nat, N as nat).take(i as int),
        decreases N - i,
    {
        proof {
            lemma_chunk_shift(L as nat, (N - 1 - i) as nat, (N - 1) as nat);
        }
        let coeff = power_of_two((N - 1 - i) * L);
        result.push((start_idx + i, coeff));
        i = i + 1;
    }
    result
}

/// The little-endian chunk terms: wire `start_idx + i` with coefficient
/// `2^(i * L)`, for `i` below `N`.
#[allow(non_snake_case)]
pub fn combine_chunks_vec_le(start_idx: usize, L: usize, N: usize) -> (r: Vec<(usize, i64)>)
    requires
        start_idx + N <= usize::MAX + 1,
        N > 0 ==> L * (N - 1) <= 62,
    ensures
        r@ == le_terms(start_idx as int, L as nat, N as nat),
{
    let mut result: Vec<(usize, i64)> = Vec::new();
    let mut i: usize = 0;
    while i < N
        invariant
            i <= N,
            start_idx + N <= usize::MAX + 1,
            L * (N - 1) <= 62,
            result@ == le_terms(start_idx as int, L as nat, N as nat).take(i as int),
        decreases N - i,
    {
        proof {
            lemma_chunk_shift(L as nat, i as nat, (N - 1) as nat);
        }
        result.push((start_idx + i, power_of_two(i * L)));
        i = i + 1;
    }
    result
}

/// `2^shift` as a coefficient.
pub fn power_of_two(shift: usize) -> (r: i64)
    requires
        shift <= 62,
    ensures
        r == pow2(shift as nat),
{
    proof {
        vstd::arithmetic::power2::lemma2_to64();
        vstd::arithmetic::power2::lemma2_to64_rest();
        vstd::arithmetic::power2::lemma_pow2_strictly_increases(shift as nat, 63);
        vstd::bits::lemma_u64_shl_is_mul(1u64, shift as u64);
    }
    let p: u64 = 1u64 << (shift as u64);
    p as i64
}

/// A chunk's shift is no more than that of the most significant chunk.
pub proof fn lemma_chunk_shift(width: nat, k: nat, top: nat)
    requires
        k <= top,
    ensures
        width * k <= width * top,
        k * width == width * k,
{
    assert(width * k <= width * top) by (nonlinear_arith)
        requires
            k <= top,
    ;
    assert(k * width == width * k) by (nonlinear_arith);
}

/// A power of two with an exponent of at most 62 is an `i64`.
pub proof fn lemma_pow2_fits(e: nat)
    requires
        e <= 62,
    ensures
        0 < pow2(e) <= 0x4000_0000_0000_0000,
        pow2(e) as i64 == pow2(e),
{
    vstd::arithmetic::power2::lemma2_to64_rest();
    vstd::arithmetic::power2::lemma_pow2_pos(e);
    if e < 62 {
        vstd::arithmetic::power2::lemma_pow2_strictly_increases(e, 62);
    }
}

/// The big-endian chunk terms evaluate to the number that the chunks stand
/// for.
pub proof fn lemma_be_terms_sum(z: Seq<nat>, start: int, width: nat, count: nat)
    requires
        0 <= start,
        start + count <= usize::MAX + 1,
        count > 0 ==> width * (count - 1) <= 62,
    ensures
        lc_sum(be_terms(start, width, count), z) == be_sum(z, start, width, count),
        lc_value(be_terms(start, width, count), z) == be_sum(z, start, width, count) % (
        modulus() as int),
{
    lemma_be_prefix(z, start, width, count, count);
    assert(be_terms(start, width, count).take(count as int) =~= be_terms(start, width, count));
}

proof fn lemma_be_prefix(z: Seq<nat>, start: int, width: nat, count: nat, upto: nat)
    requires
        0 <= start,
        start + count <= usize::MAX + 1,
        count > 0 ==> width * (count - 1) <= 62,
        upto <= count,
    ensures
        lc_sum(be_terms(start, width, count).take(upto as int), z) == be_partial(
            z,
            start,
            width,
            count,
            upto,
        ),
    decreases upto,
{
    let terms = be_terms(start, width, count);
    if upto > 0 {
        lemma_be_prefix(z, start, width, count, (upto - 1) as nat);
        assert(terms.take(upto as int).drop_last() =~= terms.take(upto - 1));
        assert(terms.take(upto as int).last() == terms[upto - 1]);
        lemma_chunk_shift(width, (count - upto) as nat, (count - 1) as nat);
        lemma_pow2_fits((width * (count - upto)) as nat);
    }
}

/// The little-endian chunk terms evaluate to the number that the chunks stand
/// for.
pub proof fn lemma_le_terms_sum(z: Seq<nat>, start: int, width: nat, count: nat)
    requires
        0 <= start,
        start + count <= usize::MAX + 1,
        count > 0 ==> width * (count - 1) <= 62,
    ensures
        lc_sum(le_terms(start, width, count), z) == le_sum(z, start, width, count),
        lc_value(le_terms(start, width, count), z) == le_sum(z, start, width, count) % (
        modulus() as int),
{
    lemma_le_prefix(z, start, width, count, count);
    assert(le_terms(start, width, count).take(count as int) =~= le_terms(start, width, count));
}

proof fn lemma_le_prefix(z: Seq<nat>, start: int, width: nat, count: nat, upto: nat)
    requires
        0 <= start,
        start + count <= usize::MAX + 1,
        count > 0 ==> width * (count - 1) <= 62,
        upto <= count,
    ensures
        lc_sum(le_terms(start, width, count).take(upto as int), z) == le_partial(
            z,
            start,
            width,
            upto,
        ),
    decreases upto,
{
    let terms = le_terms(start, width, count);
    if upto > 0 {
        lemma_le_prefix(z, start, width, count, (upto - 1) as nat);
        assert(terms.take(upto as int).drop_last() =~= terms.take(upto - 1));
        assert(terms.take(upto as int).last() == terms[upto - 1]);
        lemma_chunk_shift(width, (upto - 1) as nat, (count - 1) as nat);
        lemma_pow2_fits((width * (upto - 1)) as nat);
    }
}

/// The number that chunks stand for depends on the chunk wires alone.
pub proof fn lemma_chunks_local(z: Seq<nat>, other: Seq<nat>, start: int, width: nat, count: nat)
    requires
        forall|k: int| start <= k < start + count ==> z[k] == other[k],
    ensures
        be_sum(z, start, width, count) == be_sum(other, start, width, count),
        le_sum(z, start, width, count) == le_sum(other, start, width, count),
{
    lemma_partial_local(z, other, start, width, count, count);
}

proof fn lemma_partial_local(
    z: Seq<nat>,
    other: Seq<nat>,
    start: int,
    width: nat,
    count: nat,
    upto: nat,
)
    requires
        upto <= count,
        forall|k: int| start <= k < start + count ==> z[k] == other[k],
    ensures
        be_partial(z, start, width, count, upto) == be_partial(other, start, width, count, upto),
        le_partial(z, start, width, upto) == le_partial(other, start, width, upto),
    decreases upto,
{
    if upto > 0 {
        lemma_partial_local(z, other, start, width, count, (upto - 1) as nat);
    }
}

} // verus!
