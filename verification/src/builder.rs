//! The constraint builder: an append-only accumulator of the sparse matrices
//! `A`, `B`, `C` of a rank-1 constraint system, which extends the witness as
//! it allocates wires.

use crate::field::{i64_to_f, modulus, scalar_add, scalar_from_u64, scalar_mul, FieldElement};
use crate::linear::{
    be_sum, be_terms, chunk_terms, combine_chunks_vec, combine_chunks_vec_le, lc_in_range, lc_sum,
    lc_value, le_sum, le_terms, lemma_be_terms_sum, lemma_chunks_local, lemma_le_terms_sum,
    subtract_vectors, values, Endian,
};
use crate::model::{one_lc, tag, unit, BuilderState, Gate, ONE};
use vstd::prelude::*;

verus! {

/// A builder, step by step: the three matrices as lists of
/// `(row, wire, coefficient)`, the counters, and the witness if there is one.
#[derive(Debug)]
#[allow(non_snake_case)]
pub struct R1CSBuilder {
    pub A: Vec<(usize, usize, i64)>,
    pub B: Vec<(usize, usize, i64)>,
    pub C: Vec<(usize, usize, i64)>,
    pub num_constraints: usize,
    pub num_variables: usize,
    pub num_inputs: usize,
    pub num_aux: usize,
    pub z: Option<Vec<FieldElement>>,
}

impl View for R1CSBuilder {
    type V = BuilderState;

    open spec fn view(&self) -> BuilderState {
        BuilderState {
            a: self.A@,
            b: self.B@,
            c: self.C@,
            num_constraints: self.num_constraints as nat,
            num_variables: self.num_variables as nat,
            num_inputs: self.num_inputs as nat,
            num_aux: self.num_aux as nat,
            z: match self.z {
                Some(z) => Some(values(z@)),
                None => None,
            },
        }
    }
}

/// Adding one term to a sum commutes with reduction modulo the field's order.
proof fn lemma_accumulate(sum: int, coeff: int, wire: nat)
    ensures
        (((sum % (modulus() as int)) as nat + (wire * ((coeff % (modulus() as int)) as nat))
            % modulus()) % modulus()) as int == (sum + coeff * wire) % (modulus() as int),
{
    let p = modulus() as int;
    vstd::arithmetic::div_mod::lemma_mul_mod_noop_right(wire as int, coeff, p);
    vstd::arithmetic::div_mod::lemma_add_mod_noop(sum, wire * coeff, p);
    vstd::arithmetic::mul::lemma_mul_is_commutative(wire as int, coeff);
}

/// The terms of `vec` as entries of matrix row `row`.
fn prepend_row(row: usize, vec: Vec<(usize, i64)>) -> (entries: Vec<(usize, usize, i64)>)
    ensures
        entries@ == tag(row as nat, vec@),
{
    let mut entries: Vec<(usize, usize, i64)> = Vec::new();
    let mut k: usize = 0;
    while k < vec.len()
        invariant
            k <= vec.len(),
            entries@ == tag(row as nat, vec@).take(k as int),
        decreases vec.len() - k,
    {
        let (idx, val) = vec[k];
        entries.push((row, idx, val));
        k = k + 1;
    }
    entries
}

/// A copy of the terms of `lc`.
fn duplicate(lc: &Vec<(usize, i64)>) -> (copy: Vec<(usize, i64)>)
    ensures
        copy@ == lc@,
{
    let mut copy: Vec<(usize, i64)> = Vec::new();
    let mut k: usize = 0;
    while k < lc.len()
        invariant
            k <= lc.len(),
            copy@ == lc@.take(k as int),
        decreases lc.len() - k,
    {
        copy.push(lc[k]);
        k = k + 1;
    }
    copy
}

impl R1CSBuilder {
    /// Appends the row `a * b = c`.
    pub fn new_constraint(
        &mut self,
        a: Vec<(usize, i64)>,
        b: Vec<(usize, i64)>,
        c: Vec<(usize, i64)>,
    )
        requires
            old(self).num_constraints < usize::MAX,
        ensures
            final(self)@ == old(self)@.constrain(a@, b@, c@),
    {
        let row: usize = self.num_constraints;
        let mut entries_a = prepend_row(row, a);
        let mut entries_b = prepend_row(row, b);
        let mut entries_c = prepend_row(row, c);
        self.A.append(&mut entries_a);
        self.B.append(&mut entries_b);
        self.C.append(&mut entries_c);
        self.num_constraints += 1;
    }

    /// The value of `lc` under the witness, in the field.
    pub fn get_val_from_lc(&self, lc: &[(usize, i64)]) -> (value: FieldElement)
        requires
            self.z is Some,
            self@.reads(lc@),
        ensures
            value.value() == self@.eval(lc@),
    {
        let z = self.z.as_ref().unwrap();
        let mut acc = scalar_from_u64(0);
        let mut k: usize = 0;
        assert(values(z@).len() == z@.len());
        assert(lc_sum(lc@.take(0), values(z@)) == 0);
        while k < lc.len()
            invariant
                k <= lc.len(),
                lc_in_range(lc@, z@.len() as int),
                acc.value() == lc_value(lc@.take(k as int), values(z@)),
            decreases lc.len() - k,
        {
            let (idx, coeff) = lc[k];
            let term = scalar_mul(&z[idx], &i64_to_f(coeff));
            proof {
                let prefix = lc@.take(k as int + 1);
                assert(prefix.drop_last() =~= lc@.take(k as int));
                assert(prefix.last() == lc@[k as int]);
                lemma_accumulate(
                    lc_sum(lc@.take(k as int), values(z@)),
                    coeff as int,
                    values(z@)[idx as int],
                );
            }
            acc = scalar_add(&acc, &term);
            k = k + 1;
        }
        assert(lc@.take(k as int) =~= lc@);
        acc
    }

    /// Allots the next wire and returns its index.
    pub fn assign_aux(&mut self) -> (idx: usize)
        requires
            old(self).num_variables < usize::MAX,
            old(self).num_aux < usize::MAX,
        ensures
            idx == old(self).num_variables,
            final(self)@ == old(self)@.allot(),
    {
        match &mut self.z {
            Some(z) => {
                z.push(scalar_from_u64(0));
                assert(values(z@) =~= values(old(self).z.unwrap()@).push(0));
            },
            None => {},
        }
        let idx = self.num_variables;
        self.num_aux += 1;
        self.num_variables += 1;
        idx
    }

    /// Gives the wire `idx` its value, where there is a witness.
    fn set_wire(&mut self, idx: usize, value: FieldElement)
        requires
            old(self).z matches Some(z) ==> idx < z.len(),
        ensures
            final(self)@ == old(self)@.store(idx as int, value.value()),
    {
        match &mut self.z {
            Some(z) => {
                z[idx] = value;
                assert(values(z@) =~= values(old(self).z.unwrap()@).update(idx as int, value.value()));
            },
            None => {},
        }
    }

    /// Asserts `a * b = c`.
    pub fn constr_abc(&mut self, a: Vec<(usize, i64)>, b: Vec<(usize, i64)>, c: Vec<(usize, i64)>)
        requires
            old(self)@.admits(Gate::Constraint { a: a@, b: b@, c: c@ }),
        ensures
            final(self)@ == old(self)@.apply(Gate::Constraint { a: a@, b: b@, c: c@ }),
    {
        reveal(BuilderState::apply);
        self.new_constraint(a, b, c);
    }

    /// Asserts that the `N` wires from `start_idx` on, read as chunks of `L`
    /// bits in the order `endian`, make up the wire `result_idx`.
    #[allow(non_snake_case)]
    pub fn combine_constraint(
        &mut self,
        start_idx: usize,
        L: usize,
        N: usize,
        result_idx: usize,
        endian: Endian,
    )
        requires
            old(self).num_constraints < usize::MAX,
            start_idx + N <= usize::MAX + 1,
            N > 0 ==> L * (N - 1) <= 62,
        ensures
            final(self)@ == old(self)@.apply(
                Gate::Constraint {
                    a: chunk_terms(start_idx as int, L as nat, N as nat, endian),
                    b: one_lc(),
                    c: unit(result_idx),
                },
            ),
    {
        reveal(BuilderState::apply);
        let constraint_a = match endian {
            Endian::Big => combine_chunks_vec(start_idx, L, N),
            Endian::Little => combine_chunks_vec_le(start_idx, L, N),
        };
        let constraint_b = vec![ONE];
        let constraint_c = vec![(result_idx, 1)];
        self.new_constraint(constraint_a, constraint_b, constraint_c);
    }

    /// Allots a wire for the `N` wires from `start_idx` on read as chunks of
    /// `L` bits, least significant first, and returns it. Where the chunks
    /// are wires that exist already, the new wire holds the number that they
    /// stand for.
    #[allow(non_snake_case)]
    pub fn combine_le(&mut self, start_idx: usize, L: usize, N: usize) -> (result_idx: usize)
        requires
            old(self)@.admits(Gate::Sum { lc: le_terms(start_idx as int, L as nat, N as nat) }),
            start_idx + N <= usize::MAX + 1,
            N > 0 ==> L * (N - 1) <= 62,
        ensures
            result_idx == old(self).num_variables,
            final(self)@ == old(self)@.apply(
                Gate::Sum { lc: le_terms(start_idx as int, L as nat, N as nat) },
            ),
            final(self)@.z matches Some(z) ==> start_idx + N <= old(self).num_variables
                ==> z[result_idx as int] == le_sum(z, start_idx as int, L as nat, N as nat) % (
            modulus() as int),
    {
        reveal(BuilderState::apply);
        let result_idx = self.assign_aux();
        let constraint_a = combine_chunks_vec_le(start_idx, L, N);
        let constraint_b = vec![ONE];
        let constraint_c = vec![(result_idx, 1)];
        if self.z.is_some() {
            let result_value = self.get_val_from_lc(constraint_a.as_slice());
            self.set_wire(result_idx, result_value);
        }
        self.new_constraint(constraint_a, constraint_b, constraint_c);
        proof {
            if self@.z is Some && start_idx + N <= old(self).num_variables {
                let before = old(self)@.allot().z.unwrap();
                lemma_le_terms_sum(before, start_idx as int, L as nat, N as nat);
                lemma_chunks_local(self@.z.unwrap(), before, start_idx as int, L as nat, N as nat);
            }
        }
        result_idx
    }

    /// Allots a wire for the `N` wires from `start_idx` on read as chunks of
    /// `L` bits, most significant first, and returns it. Where the chunks
    /// are wires that exist already, the new wire holds the number that they
    /// stand for.
    #[allow(non_snake_case)]
    pub fn combine_be(&mut self, start_idx: usize, L: usize, N: usize) -> (result_idx: usize)
        requires
            old(self)@.admits(Gate::Sum { lc: be_terms(start_idx as int, L as nat, N as nat) }),
            start_idx + N <= usize::MAX + 1,
            N > 0 ==> L * (N - 1) <= 62,
        ensures
            result_idx == old(self).num_variables,
            final(self)@ == old(self)@.apply(
                Gate::Sum { lc: be_terms(start_idx as int, L as nat, N as nat) },
            ),
            final(self)@.z matches Some(z) ==> start_idx + N <= old(self).num_variables
                ==> z[result_idx as int] == be_sum(z, start_idx as int, L as nat, N as nat) % (
            modulus() as int),
    {
        reveal(BuilderState::apply);
        let result_idx = self.assign_aux();
        let constraint_a = combine_chunks_vec(start_idx, L, N);
        let constraint_b = vec![ONE];
        let constraint_c = vec![(result_idx, 1)];
        if self.z.is_some() {
            let result_value = self.get_val_from_lc(constraint_a.as_slice());
            self.set_wire(result_idx, result_value);
        }
        self.new_constraint(constraint_a, constraint_b, constraint_c);
        proof {
            if self@.z is Some && start_idx + N <= old(self).num_variables {
                let before = old(self)@.allot().z.unwrap();
                lemma_be_terms_sum(before, start_idx as int, L as nat, N as nat);
                lemma_chunks_local(self@.z.unwrap(), before, start_idx as int, L as nat, N as nat);
            }
        }
        result_idx
    }

    /// Allots a wire for the product of `x` and `y` and returns it.
    pub fn multiply(&mut self, x: Vec<(usize, i64)>, y: Vec<(usize, i64)>) -> (xy_idx: usize)
        requires
            old(self)@.admits(Gate::Product { x: x@, y: y@ }),
        ensures
            xy_idx == old(self).num_variables,
            final(self)@ == old(self)@.apply(Gate::Product { x: x@, y: y@ }),
    {
        reveal(BuilderState::apply);
        let xy_idx = self.assign_aux();
        if self.z.is_some() {
            let x_val = self.get_val_from_lc(x.as_slice());
            let y_val = self.get_val_from_lc(y.as_slice());
            self.set_wire(xy_idx, scalar_mul(&x_val, &y_val));
        }
        self.constr_abc(x, y, vec![(xy_idx, 1)]);
        xy_idx
    }

    /// Allots a wire that is `x` where `choice` is zero and `y` where it is
    /// one, and returns it.
    pub fn if_else(
        &mut self,
        choice: Vec<(usize, i64)>,
        x: Vec<(usize, i64)>,
        y: Vec<(usize, i64)>,
    ) -> (z_idx: usize)
        requires
            old(self)@.admits(Gate::Select { choice: choice@, x: x@, y: y@ }),
        ensures
            z_idx == old(self).num_variables,
            final(self)@ == old(self)@.apply(Gate::Select { choice: choice@, x: x@, y: y@ }),
    {
        reveal(BuilderState::apply);
        let z_idx = self.assign_aux();
        if self.z.is_some() {
            let choice_val = self.get_val_from_lc(choice.as_slice());
            let x_val = self.get_val_from_lc(x.as_slice());
            let y_val = self.get_val_from_lc(y.as_slice());
            let z_val = if choice_val.is_zero() {
                x_val
            } else {
                y_val
            };
            self.set_wire(z_idx, z_val);
        }
        let y_minus_x = subtract_vectors(duplicate(&x), y);
        let z_minus_x = subtract_vectors(x, vec![(z_idx, 1)]);
        self.new_constraint(choice, y_minus_x, z_minus_x);
        z_idx
    }

    /// [`R1CSBuilder::if_else`] on single wires.
    pub fn if_else_simple(&mut self, choice: usize, x: usize, y: usize) -> (z_idx: usize)
        requires
            old(self)@.admits(Gate::Select { choice: unit(choice), x: unit(x), y: unit(y) }),
        ensures
            z_idx == old(self).num_variables,
            final(self)@ == old(self)@.apply(
                Gate::Select { choice: unit(choice), x: unit(x), y: unit(y) },
            ),
    {
        self.if_else(vec![(choice, 1)], vec![(x, 1)], vec![(y, 1)])
    }

    /// Asserts that the wires `left_idx` and `right_idx` are equal.
    pub fn eq_simple(&mut self, left_idx: usize, right_idx: usize)
        requires
            old(self).num_constraints < usize::MAX,
        ensures
            final(self)@ == old(self)@.apply(
                Gate::Constraint { a: unit(left_idx), b: one_lc(), c: unit(right_idx) },
            ),
    {
        reveal(BuilderState::apply);
        let constraint_a = vec![(left_idx, 1)];
        let constraint_b = vec![ONE];
        let constraint_c = vec![(right_idx, 1)];
        self.new_constraint(constraint_a, constraint_b, constraint_c);
    }

    /// Asserts that `left` equals the wire `right_idx`; with `assign`, the
    /// wire first receives the value of `left`.
    pub fn eq(&mut self, left: Vec<(usize, i64)>, right_idx: usize, assign: bool)
        requires
            old(self)@.admits(
                if assign {
                    Gate::Assign { lc: left@, target: right_idx }
                } else {
                    Gate::Constraint { a: left@, b: one_lc(), c: unit(right_idx) }
                },
            ),
        ensures
            final(self)@ == old(self)@.apply(
                if assign {
                    Gate::Assign { lc: left@, target: right_idx }
                } else {
                    Gate::Constraint { a: left@, b: one_lc(), c: unit(right_idx) }
                },
            ),
    {
        reveal(BuilderState::apply);
        let constraint_a = left;
        let constraint_b = vec![ONE];
        let constraint_c = vec![(right_idx, 1)];
        if assign && self.z.is_some() {
            assert(unit(right_idx)[0] == (right_idx, 1i64));
            let value = self.get_val_from_lc(constraint_a.as_slice());
            self.set_wire(right_idx, value);
        }
        self.new_constraint(constraint_a, constraint_b, constraint_c);
    }

    /// Allots a wire `w` for `x * y` and asserts `w * z = 0`: `z` is zero
    /// wherever neither `x` nor `y` is.
    pub fn constr_prod_0(&mut self, x: Vec<(usize, i64)>, y: Vec<(usize, i64)>, z: Vec<(usize, i64)>)
        requires
            old(self)@.admits(Gate::Product { x: x@, y: y@ }),
            old(self).num_constraints + 1 < usize::MAX,
        ensures
            final(self)@ == old(self)@.apply(Gate::Product { x: x@, y: y@ }).apply(
                Gate::Constraint { a: unit(old(self).num_variables), b: z@, c: Seq::empty() },
            ),
    {
        reveal(BuilderState::apply);
        let xy_idx = self.assign_aux();
        if self.z.is_some() {
            let x_val = self.get_val_from_lc(x.as_slice());
            let y_val = self.get_val_from_lc(y.as_slice());
            self.set_wire(xy_idx, scalar_mul(&x_val, &y_val));
        }
        self.constr_abc(x, y, vec![(xy_idx, 1)]);
        self.constr_abc(vec![(xy_idx, 1)], z, vec![]);
    }
}

} // verus!
