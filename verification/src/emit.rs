//! Emission: the matrices with their coefficients mapped into the field.

use crate::builder::R1CSBuilder;
use crate::field::{field_of, i64_to_f, FieldElement};
use vstd::prelude::*;

verus! {

/// The entries of a matrix with each coefficient replaced by its residue.
pub open spec fn embed(m: Seq<(usize, usize, i64)>) -> Seq<(usize, usize, nat)> {
    Seq::new(m.len(), |k: int| (m[k].0, m[k].1, field_of(m[k].2 as int)))
}

/// The entries of a field-valued matrix with each element replaced by its
/// residue.
pub open spec fn residues(m: Seq<(usize, usize, FieldElement)>) -> Seq<(usize, usize, nat)> {
    Seq::new(m.len(), |k: int| (m[k].0, m[k].1, m[k].2.value()))
}

/// The entries of `m`, in order, with their coefficients in the field.
fn embed_matrix(m: &Vec<(usize, usize, i64)>) -> (emitted: Vec<(usize, usize, FieldElement)>)
    ensures
        residues(emitted@) == embed(m@),
{
    let mut emitted: Vec<(usize, usize, FieldElement)> = Vec::new();
    let mut k: usize = 0;
    while k < m.len()
        invariant
            k <= m.len(),
            residues(emitted@) == embed(m@).take(k as int),
        decreases m.len() - k,
    {
        let (row, idx, val) = m[k];
        let ghost before = emitted@;
        emitted.push((row, idx, i64_to_f(val)));
        k = k + 1;
        assert(residues(emitted@) =~= residues(before).push((row, idx, field_of(val as int))));
    }
    assert(embed(m@).take(k as int) =~= embed(m@));
    emitted
}

impl R1CSBuilder {
    /// The three matrices with their coefficients in the field, entry for
    /// entry and in the same order.
    pub fn convert_to_field(&self) -> (matrices: (
        Vec<(usize, usize, FieldElement)>,
        Vec<(usize, usize, FieldElement)>,
        Vec<(usize, usize, FieldElement)>,
    ))
        ensures
            residues(matrices.0@) == embed(self.A@),
            residues(matrices.1@) == embed(self.B@),
            residues(matrices.2@) == embed(self.C@),
    {
        (embed_matrix(&self.A), embed_matrix(&self.B), embed_matrix(&self.C))
    }
}

} // verus!
