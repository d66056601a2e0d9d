//! When a witness satisfies the constraint system, and why a wire defined
//! during construction satisfies the row that defines it.

use crate::field::modulus;
use crate::linear::{lc_in_range, lc_negatable, lc_sum, lc_value, negate};
use crate::model::{
    lemma_apply_effects, matrix_tidy, one_lc, tag, unit, BuilderState, Gate, ONE,
};
use vstd::arithmetic::div_mod::{lemma_mod_twice, lemma_small_mod, lemma_sub_mod_noop};
use vstd::prelude::*;

verus! {

/// The sum of `coefficient * z[wire]` over the entries of `m` that lie in row
/// `row`: entry `row` of the product of the matrix with the witness, over the
/// integers.
pub open spec fn row_sum(m: Seq<(usize, usize, i64)>, row: int, z: Seq<nat>) -> int
    decreases m.len(),
{
    if m.len() == 0 {
        0
    } else {
        row_sum(m.drop_last(), row, z) + if m.last().0 == row {
            m.last().2 * z[m.last().1 as int]
        } else {
            0
        }
    }
}

/// Entry `row` of the product of the matrix with the witness, in the field.
pub open spec fn row_value(m: Seq<(usize, usize, i64)>, row: int, z: Seq<nat>) -> nat {
    (row_sum(m, row, z) % (modulus() as int)) as nat
}

impl BuilderState {
    /// Row `row` holds under `z`: `(A z)[row] * (B z)[row] = (C z)[row]` in
    /// the field.
    pub open spec fn row_holds(self, row: int, z: Seq<nat>) -> bool {
        (row_value(self.a, row, z) * row_value(self.b, row, z)) % modulus() == row_value(
            self.c,
            row,
            z,
        )
    }

    /// `z` satisfies the system: every row holds.
    pub open spec fn satisfied_by(self, z: Seq<nat>) -> bool {
        forall|row: int| 0 <= row < self.num_constraints ==> self.row_holds(row, z)
    }
}

/// A matrix has nothing in a row that it has not reached yet.
pub proof fn lemma_row_untouched(m: Seq<(usize, usize, i64)>, row: int, wires: nat, z: Seq<nat>)
    requires
        0 <= row,
        matrix_tidy(m, row as nat, wires),
    ensures
        row_sum(m, row, z) == 0,
    decreases m.len(),
{
    if m.len() > 0 {
        assert(m.last() == m[m.len() - 1]);
        assert forall|k: int| 0 <= k < m.drop_last().len() implies (#[trigger] m.drop_last()[k]).0
            < row && m.drop_last()[k].1 < wires by {
            assert(m.drop_last()[k] == m[k]);
        }
        assert forall|j: int, k: int| 0 <= j <= k < m.drop_last().len() implies (
        #[trigger] m.drop_last()[j]).0 <= (#[trigger] m.drop_last()[k]).0 by {
            assert(m.drop_last()[j] == m[j]);
            assert(m.drop_last()[k] == m[k]);
        }
        lemma_row_untouched(m.drop_last(), row, wires, z);
    }
}

/// The entries of a new row add the value of its linear combination to that
/// row, and nothing to any other.
pub proof fn lemma_row_appended(
    m: Seq<(usize, usize, i64)>,
    row: nat,
    lc: Seq<(usize, i64)>,
    at: int,
    z: Seq<nat>,
)
    requires
        row <= usize::MAX,
    ensures
        row_sum(m + tag(row, lc), at, z) == row_sum(m, at, z) + if at == row {
            lc_sum(lc, z)
        } else {
            0
        },
    decreases lc.len(),
{
    if lc.len() == 0 {
        assert(m + tag(row, lc) =~= m);
    } else {
        lemma_row_appended(m, row, lc.drop_last(), at, z);
        let grown = m + tag(row, lc);
        assert(grown.drop_last() =~= m + tag(row, lc.drop_last()));
        assert(grown.last() == (row as usize, lc.last().0, lc.last().1));
    }
}

/// The value of a linear combination depends on the wires it mentions alone.
pub proof fn lemma_lc_local(lc: Seq<(usize, i64)>, z: Seq<nat>, other: Seq<nat>)
    requires
        forall|k: int| 0 <= k < lc.len() ==> z[(#[trigger] lc[k]).0 as int] == other[lc[k].0 as int],
    ensures
        lc_sum(lc, z) == lc_sum(lc, other),
    decreases lc.len(),
{
    if lc.len() > 0 {
        assert(lc.last() == lc[lc.len() - 1]);
        assert forall|k: int| 0 <= k < lc.drop_last().len() implies z[(
        #[trigger] lc.drop_last()[k]).0 as int] == other[lc.drop_last()[k].0 as int] by {
            assert(lc.drop_last()[k] == lc[k]);
        }
        lemma_lc_local(lc.drop_last(), z, other);
    }
}

/// The value of one combination after another is the sum of their values.
pub proof fn lemma_lc_concat(left: Seq<(usize, i64)>, right: Seq<(usize, i64)>, z: Seq<nat>)
    ensures
        lc_sum(left + right, z) == lc_sum(left, z) + lc_sum(right, z),
    decreases right.len(),
{
    if right.len() == 0 {
        assert(left + right =~= left);
    } else {
        lemma_lc_concat(left, right.drop_last(), z);
        assert((left + right).drop_last() =~= left + right.drop_last());
        assert((left + right).last() == right.last());
    }
}

/// Negating the coefficients negates the value.
pub proof fn lemma_lc_negate(lc: Seq<(usize, i64)>, z: Seq<nat>)
    requires
        lc_negatable(lc),
    ensures
        lc_sum(negate(lc), z) == -lc_sum(lc, z),
    decreases lc.len(),
{
    if lc.len() > 0 {
        assert(lc.last() == lc[lc.len() - 1]);
        assert forall|k: int| 0 <= k < lc.drop_last().len() implies (#[trigger] lc.drop_last()[k]).1
            > i64::MIN by {
            assert(lc.drop_last()[k] == lc[k]);
        }
        lemma_lc_negate(lc.drop_last(), z);
        assert(negate(lc).drop_last() =~= negate(lc.drop_last()));
        assert(negate(lc).last() == (lc.last().0, (-lc.last().1) as i64));
        assert((-lc.last().1) * z[lc.last().0 as int] == -(lc.last().1 * z[lc.last().0 as int]))
            by (nonlinear_arith);
    }
}

/// A single wire with coefficient one has the value of the wire.
pub proof fn lemma_lc_unit(wire: usize, z: Seq<nat>)
    ensures
        lc_sum(unit(wire), z) == z[wire as int],
        lc_sum(one_lc(), z) == z[0],
{
    reveal_with_fuel(lc_sum, 2);
    assert(unit(wire).len() == 1 && unit(wire).last() == (wire, 1i64));
    assert(unit(wire).drop_last().len() == 0);
    assert(one_lc().len() == 1 && one_lc().last() == ONE);
    assert(one_lc().drop_last().len() == 0);
    assert(ONE.0 == 0 && ONE.1 == 1);
}

/// The new row of a constraint holds the values of its three combinations.
pub proof fn lemma_new_row(
    s: BuilderState,
    a: Seq<(usize, i64)>,
    b: Seq<(usize, i64)>,
    c: Seq<(usize, i64)>,
    wires: nat,
    z: Seq<nat>,
)
    requires
        matrix_tidy(s.a, s.num_constraints, wires),
        matrix_tidy(s.b, s.num_constraints, wires),
        matrix_tidy(s.c, s.num_constraints, wires),
        s.num_constraints <= usize::MAX,
    ensures
        row_sum(s.constrain(a, b, c).a, s.num_constraints as int, z) == lc_sum(a, z),
        row_sum(s.constrain(a, b, c).b, s.num_constraints as int, z) == lc_sum(b, z),
        row_sum(s.constrain(a, b, c).c, s.num_constraints as int, z) == lc_sum(c, z),
{
    let row = s.num_constraints;
    lemma_row_untouched(s.a, row as int, wires, z);
    lemma_row_untouched(s.b, row as int, wires, z);
    lemma_row_untouched(s.c, row as int, wires, z);
    lemma_row_appended(s.a, row, a, row as int, z);
    lemma_row_appended(s.b, row, b, row as int, z);
    lemma_row_appended(s.c, row, c, row as int, z);
}

impl BuilderState {
    /// `gate` defines a wire of this state: there is a witness whose constant
    /// wire holds one, the state is tidy and can take `gate`, and what `gate`
    /// evaluates are wires that exist already, other than the one it writes.
    /// A wire that is assigned is one that no row mentions yet, and a
    /// selection is between the arms for zero and for one only.
    pub open spec fn defines(self, gate: Gate) -> bool {
        let wires = self.num_variables as int;
        &&& self.tidy()
        &&& self.admits(gate)
        &&& self.roomy()
        &&& 0 < wires
        &&& self.z matches Some(z) && z[0] == 1
        &&& match gate {
            Gate::Constraint { .. } => false,
            Gate::Assign { lc, target } => {
                &&& lc_in_range(lc, wires)
                &&& 0 < target < wires
                &&& forall|k: int| 0 <= k < lc.len() ==> (#[trigger] lc[k]).0 != target
                &&& !self.uses(target as int)
            },
            Gate::Sum { lc } => lc_in_range(lc, wires),
            Gate::Product { x, y } => lc_in_range(x, wires) && lc_in_range(y, wires),
            Gate::Select { choice, x, y } => {
                &&& lc_in_range(choice, wires)
                &&& lc_in_range(x, wires)
                &&& lc_in_range(y, wires)
                &&& self.eval(choice) <= 1
            },
        }
    }
}

/// A product with zero is zero, and a product with one is the other factor.
proof fn lemma_times_bit(value: nat, bit: nat)
    requires
        bit <= 1,
    ensures
        value * bit == (if bit == 0 {
            0
        } else {
            value
        }),
        bit * value == value * bit,
{
    assert(value * bit == (if bit == 0 {
        0
    } else {
        value
    }) && bit * value == value * bit) by (nonlinear_arith)
        requires
            bit <= 1,
    ;
}

proof fn lemma_assign_row_holds(s: BuilderState, lc: Seq<(usize, i64)>, target: usize)
    requires
        s.defines(Gate::Assign { lc, target }),
    ensures
        s.apply(Gate::Assign { lc, target }).row_holds(
            s.num_constraints as int,
            s.apply(Gate::Assign { lc, target }).z.unwrap(),
        ),
{
    reveal(BuilderState::apply);
    let p = modulus() as int;
    let z = s.z.unwrap();
    let after = s.apply(Gate::Assign { lc, target }).z.unwrap();
    assert(unit(target)[0] == (target, 1i64));
    let value = lc_value(lc, z);
    assert(after == z.update(target as int, value));
    lemma_new_row(
        s.store(target as int, value),
        lc,
        one_lc(),
        unit(target),
        s.num_variables,
        after,
    );
    lemma_lc_local(lc, after, z);
    lemma_lc_unit(target, after);
    lemma_mod_twice(lc_sum(lc, z), p);
    lemma_small_mod(1, p as nat);
    let t = s.apply(Gate::Assign { lc, target });
    let row = s.num_constraints as int;
    lemma_times_bit(row_value(t.a, row, after), row_value(t.b, row, after));
}

proof fn lemma_sum_row_holds(s: BuilderState, lc: Seq<(usize, i64)>)
    requires
        s.defines(Gate::Sum { lc }),
    ensures
        s.apply(Gate::Sum { lc }).row_holds(
            s.num_constraints as int,
            s.apply(Gate::Sum { lc }).z.unwrap(),
        ),
{
    reveal(BuilderState::apply);
    let p = modulus() as int;
    let w = s.num_variables as usize;
    let pushed = s.z.unwrap().push(0);
    let after = s.apply(Gate::Sum { lc }).z.unwrap();
    let value = lc_value(lc, pushed);
    assert(after == pushed.update(w as int, value));
    lemma_new_row(s.allot().store(w as int, value), lc, one_lc(), unit(w), s.num_variables, after);
    lemma_lc_local(lc, after, pushed);
    lemma_lc_unit(w, after);
    lemma_mod_twice(lc_sum(lc, pushed), p);
    lemma_small_mod(1, p as nat);
    let t = s.apply(Gate::Sum { lc });
    let row = s.num_constraints as int;
    lemma_times_bit(row_value(t.a, row, after), row_value(t.b, row, after));
}

proof fn lemma_product_row_holds(s: BuilderState, x: Seq<(usize, i64)>, y: Seq<(usize, i64)>)
    requires
        s.defines(Gate::Product { x, y }),
    ensures
        s.apply(Gate::Product { x, y }).row_holds(
            s.num_constraints as int,
            s.apply(Gate::Product { x, y }).z.unwrap(),
        ),
{
    reveal(BuilderState::apply);
    let p = modulus() as int;
    let w = s.num_variables as usize;
    let pushed = s.z.unwrap().push(0);
    let after = s.apply(Gate::Product { x, y }).z.unwrap();
    let value = (lc_value(x, pushed) * lc_value(y, pushed)) % modulus();
    assert(after == pushed.update(w as int, value));
    lemma_new_row(s.allot().store(w as int, value), x, y, unit(w), s.num_variables, after);
    lemma_lc_local(x, after, pushed);
    lemma_lc_local(y, after, pushed);
    lemma_lc_unit(w, after);
    lemma_mod_twice((lc_value(x, pushed) * lc_value(y, pushed)) as int, p);
}

proof fn lemma_select_row_holds(
    s: BuilderState,
    choice: Seq<(usize, i64)>,
    x: Seq<(usize, i64)>,
    y: Seq<(usize, i64)>,
)
    requires
        s.defines(Gate::Select { choice, x, y }),
    ensures
        s.apply(Gate::Select { choice, x, y }).row_holds(
            s.num_constraints as int,
            s.apply(Gate::Select { choice, x, y }).z.unwrap(),
        ),
{
    reveal(BuilderState::apply);
    let p = modulus() as int;
    let w = s.num_variables as usize;
    let z = s.z.unwrap();
    let pushed = z.push(0);
    let after = s.apply(Gate::Select { choice, x, y }).z.unwrap();
    let value = if lc_value(choice, pushed) == 0 {
        lc_value(x, pushed)
    } else {
        lc_value(y, pushed)
    };
    lemma_lc_local(choice, pushed, z);
    assert(after == pushed.update(w as int, value));
    lemma_new_row(
        s.allot().store(w as int, value),
        choice,
        y + negate(x),
        unit(w) + negate(x),
        s.num_variables,
        after,
    );
    lemma_lc_local(choice, after, pushed);
    lemma_lc_local(x, after, pushed);
    lemma_lc_local(y, after, pushed);
    lemma_lc_unit(w, after);
    lemma_lc_negate(x, after);
    lemma_lc_concat(y, negate(x), after);
    lemma_lc_concat(unit(w), negate(x), after);
    let xs = lc_sum(x, pushed);
    let ys = lc_sum(y, pushed);
    lemma_mod_twice(xs, p);
    lemma_mod_twice(ys, p);
    lemma_mod_twice(ys - xs, p);
    lemma_sub_mod_noop(xs % p, xs, p);
    lemma_sub_mod_noop(ys % p, xs, p);
    lemma_sub_mod_noop(ys, xs, p);
    lemma_small_mod(0, p as nat);
    lemma_small_mod(1, p as nat);
    let t = s.apply(Gate::Select { choice, x, y });
    let row = s.num_constraints as int;
    lemma_times_bit(row_value(t.b, row, after), row_value(t.a, row, after));
}

/// A wire defined during construction satisfies the row that defines it: the
/// row that a defining gate appends holds under the witness that it leaves
/// behind.
pub proof fn lemma_defining_row_holds(s: BuilderState, gate: Gate)
    requires
        s.defines(gate),
    ensures
        s.apply(gate).row_holds(s.num_constraints as int, s.apply(gate).z.unwrap()),
{
    match gate {
        Gate::Constraint { .. } => {},
        Gate::Assign { lc, target } => lemma_assign_row_holds(s, lc, target),
        Gate::Sum { lc } => lemma_sum_row_holds(s, lc),
        Gate::Product { x, y } => lemma_product_row_holds(s, x, y),
        Gate::Select { choice, x, y } => lemma_select_row_holds(s, choice, x, y),
    }
}

/// Some entry of `m` mentions the wire `wire`.
pub open spec fn mentions(m: Seq<(usize, usize, i64)>, wire: int) -> bool {
    exists|k: int| 0 <= k < m.len() && (#[trigger] m[k]).1 == wire
}

impl BuilderState {
    /// Some row built so far mentions the wire `wire`.
    pub open spec fn uses(self, wire: int) -> bool {
        mentions(self.a, wire) || mentions(self.b, wire) || mentions(self.c, wire)
    }
}

/// The value of a row depends on the wires that the matrix mentions alone.
pub proof fn lemma_row_local(m: Seq<(usize, usize, i64)>, row: int, z: Seq<nat>, other: Seq<nat>)
    requires
        forall|k: int| 0 <= k < m.len() ==> z[(#[trigger] m[k]).1 as int] == other[m[k].1 as int],
    ensures
        row_sum(m, row, z) == row_sum(m, row, other),
    decreases m.len(),
{
    if m.len() > 0 {
        assert(m.last() == m[m.len() - 1]);
        assert forall|k: int| 0 <= k < m.drop_last().len() implies z[(
        #[trigger] m.drop_last()[k]).1 as int] == other[m.drop_last()[k].1 as int] by {
            assert(m.drop_last()[k] == m[k]);
        }
        lemma_row_local(m.drop_last(), row, z, other);
    }
}

/// A row that holds keeps holding: a gate changes no wire that an earlier row
/// mentions, unless it assigns one, and it adds nothing to an earlier row.
pub proof fn lemma_row_persists(s: BuilderState, gate: Gate, row: int)
    requires
        s.tidy(),
        s.admits(gate),
        s.roomy(),
        s.z is Some,
        0 <= row < s.num_constraints,
        s.row_holds(row, s.z.unwrap()),
        gate matches Gate::Assign { target, .. } ==> !s.uses(target as int),
    ensures
        s.apply(gate).row_holds(row, s.apply(gate).z.unwrap()),
{
    reveal(BuilderState::apply);
    let z = s.z.unwrap();
    let t = s.apply(gate);
    let after = t.z.unwrap();
    let added = s.num_constraints;
    match gate {
        Gate::Assign { lc, target } => {
            assert(unit(target)[0] == (target, 1i64));
        },
        _ => {},
    }
    assert forall|k: int| 0 <= k < s.a.len() implies z[(#[trigger] s.a[k]).1 as int] == after[s.a[k].1 as int] by {
        assert(s.a[k].1 < s.num_variables);
        if let Gate::Assign { target, .. } = gate {
            assert(!mentions(s.a, target as int));
        }
    }
    assert forall|k: int| 0 <= k < s.b.len() implies z[(#[trigger] s.b[k]).1 as int] == after[s.b[k].1 as int] by {
        assert(s.b[k].1 < s.num_variables);
        if let Gate::Assign { target, .. } = gate {
            assert(!mentions(s.b, target as int));
        }
    }
    assert forall|k: int| 0 <= k < s.c.len() implies z[(#[trigger] s.c[k]).1 as int] == after[s.c[k].1 as int] by {
        assert(s.c[k].1 < s.num_variables);
        if let Gate::Assign { target, .. } = gate {
            assert(!mentions(s.c, target as int));
        }
    }
    lemma_row_local(s.a, row, z, after);
    lemma_row_local(s.b, row, z, after);
    lemma_row_local(s.c, row, z, after);
    match gate {
        Gate::Constraint { a, b, c } => {
            lemma_row_appended(s.a, added, a, row, after);
            lemma_row_appended(s.b, added, b, row, after);
            lemma_row_appended(s.c, added, c, row, after);
        },
        Gate::Assign { lc, target } => {
            lemma_row_appended(s.a, added, lc, row, after);
            lemma_row_appended(s.b, added, one_lc(), row, after);
            lemma_row_appended(s.c, added, unit(target), row, after);
        },
        Gate::Sum { lc } => {
            let w = s.num_variables as usize;
            lemma_row_appended(s.a, added, lc, row, after);
            lemma_row_appended(s.b, added, one_lc(), row, after);
            lemma_row_appended(s.c, added, unit(w), row, after);
        },
        Gate::Product { x, y } => {
            let w = s.num_variables as usize;
            lemma_row_appended(s.a, added, x, row, after);
            lemma_row_appended(s.b, added, y, row, after);
            lemma_row_appended(s.c, added, unit(w), row, after);
        },
        Gate::Select { choice, x, y } => {
            let w = s.num_variables as usize;
            lemma_row_appended(s.a, added, choice, row, after);
            lemma_row_appended(s.b, added, y + negate(x), row, after);
            lemma_row_appended(s.c, added, unit(w) + negate(x), row, after);
        },
    }
}

impl BuilderState {
    /// Each of the first `count` of `gates` defines a wire of the state that
    /// it is applied to.
    pub open spec fn all_define(self, gates: Seq<Gate>, count: int) -> bool
        decreases count,
    {
        count <= 0 || (self.all_define(gates, count - 1) && self.run_to(gates, count - 1).defines(
            gates[count - 1],
        ))
    }
}

/// A gate that defines a wire keeps the system satisfied: the witness it
/// leaves behind satisfies the rows that held before and the row it appends.
pub proof fn lemma_definition_satisfied(s: BuilderState, gate: Gate)
    requires
        s.defines(gate),
        s.satisfied_by(s.z.unwrap()),
    ensures
        s.apply(gate).z is Some,
        s.apply(gate).satisfied_by(s.apply(gate).z.unwrap()),
{
    lemma_apply_effects(s, gate);
    let t = s.apply(gate);
    assert forall|row: int| 0 <= row < t.num_constraints implies t.row_holds(
        row,
        t.z.unwrap(),
    ) by {
        if row < s.num_constraints {
            lemma_row_persists(s, gate, row);
        } else {
            lemma_defining_row_holds(s, gate);
        }
    }
}

/// A system built from definitions alone is satisfied by the witness that
/// construction extends.
pub proof fn lemma_definitions_satisfied(s: BuilderState, gates: Seq<Gate>)
    requires
        s.z is Some,
        s.satisfied_by(s.z.unwrap()),
        s.all_define(gates, gates.len() as int),
    ensures
        s.run(gates).z is Some,
        s.run(gates).satisfied_by(s.run(gates).z.unwrap()),
{
    lemma_definitions_satisfied_to(s, gates, gates.len() as int);
}

proof fn lemma_definitions_satisfied_to(s: BuilderState, gates: Seq<Gate>, count: int)
    requires
        s.z is Some,
        s.satisfied_by(s.z.unwrap()),
        s.all_define(gates, count),
    ensures
        s.run_to(gates, count).z is Some,
        s.run_to(gates, count).satisfied_by(s.run_to(gates, count).z.unwrap()),
    decreases count,
{
    if count > 0 {
        lemma_definitions_satisfied_to(s, gates, count - 1);
        lemma_definition_satisfied(s.run_to(gates, count - 1), gates[count - 1]);
    }
}

} // verus!
