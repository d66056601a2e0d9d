//! The mathematical model of a builder: what it holds, and what each step of
//! construction makes of it.

use crate::field::modulus;
use crate::linear::{lc_in_range, lc_negatable, lc_value, negate};
use vstd::prelude::*;

verus! {

/// The constant wire with coefficient one.
pub const ONE: (usize, i64) = (0, 1);

/// What a builder holds, as mathematical values.
#[verifier::ext_equal]
pub struct BuilderState {
    pub a: Seq<(usize, usize, i64)>,
    pub b: Seq<(usize, usize, i64)>,
    pub c: Seq<(usize, usize, i64)>,
    pub num_constraints: nat,
    pub num_variables: nat,
    pub num_inputs: nat,
    pub num_aux: nat,
    pub z: Option<Seq<nat>>,
}

/// One step of circuit construction.
#[verifier::ext_equal]
pub enum Gate {
    /// The row `a * b = c`.
    Constraint { a: Seq<(usize, i64)>, b: Seq<(usize, i64)>, c: Seq<(usize, i64)> },
    /// The row `lc * 1 = target`, where the existing wire `target` receives
    /// the value of `lc`.
    Assign { lc: Seq<(usize, i64)>, target: usize },
    /// A new wire `w` that receives the value of `lc`, with the row
    /// `lc * 1 = w`.
    Sum { lc: Seq<(usize, i64)> },
    /// A new wire `w` that receives `x * y`, with the row `x * y = w`.
    Product { x: Seq<(usize, i64)>, y: Seq<(usize, i64)> },
    /// A new wire `w` that receives `x` where `choice` is zero and `y`
    /// elsewhere, with the row `choice * (y - x) = w - x`.
    Select { choice: Seq<(usize, i64)>, x: Seq<(usize, i64)>, y: Seq<(usize, i64)> },
}

impl Gate {
    /// This gate gives an existing wire, `wire`, its value.
    pub open spec fn assigns(self, wire: int) -> bool {
        self matches Gate::Assign { target, .. } && target == wire
    }

    /// The number of wires allotted by this gate: one where it defines a new
    /// wire, none otherwise.
    pub open spec fn allotted(self) -> nat {
        match self {
            Gate::Constraint { .. } | Gate::Assign { .. } => 0,
            Gate::Sum { .. } | Gate::Product { .. } | Gate::Select { .. } => 1,
        }
    }
}

/// The terms of `lc` as entries of matrix row `row`.
pub open spec fn tag(row: nat, lc: Seq<(usize, i64)>) -> Seq<(usize, usize, i64)> {
    Seq::new(lc.len(), |k: int| (row as usize, lc[k].0, lc[k].1))
}

/// The linear combination that is the constant one.
pub open spec fn one_lc() -> Seq<(usize, i64)> {
    [ONE]@
}

/// The linear combination that is the single wire `wire`.
pub open spec fn unit(wire: usize) -> Seq<(usize, i64)> {
    [(wire, 1i64)]@
}

/// The entries of one matrix are in order: rows never decrease and are below
/// `rows`, and wires are below `wires`.
pub open spec fn matrix_tidy(m: Seq<(usize, usize, i64)>, rows: nat, wires: nat) -> bool {
    &&& forall|k: int| 0 <= k < m.len() ==> (#[trigger] m[k]).0 < rows && m[k].1 < wires
    &&& forall|j: int, k: int|
        0 <= j <= k < m.len() ==> (#[trigger] m[j]).0 <= (#[trigger] m[k]).0
}

/// Some entry of `m` lies in row `row`.
pub open spec fn row_present(m: Seq<(usize, usize, i64)>, row: int) -> bool {
    exists|k: int| 0 <= k < m.len() && (#[trigger] m[k]).0 == row
}

impl BuilderState {
    /// The state with the row `a * b = c` appended.
    pub open spec fn constrain(
        self,
        a: Seq<(usize, i64)>,
        b: Seq<(usize, i64)>,
        c: Seq<(usize, i64)>,
    ) -> BuilderState {
        BuilderState {
            a: self.a + tag(self.num_constraints, a),
            b: self.b + tag(self.num_constraints, b),
            c: self.c + tag(self.num_constraints, c),
            num_constraints: self.num_constraints + 1,
            ..self
        }
    }

    /// The state with one more wire, whose value is zero for now.
    pub open spec fn allot(self) -> BuilderState {
        BuilderState {
            num_variables: self.num_variables + 1,
            num_aux: self.num_aux + 1,
            z: match self.z {
                Some(z) => Some(z.push(0)),
                None => None,
            },
            ..self
        }
    }

    /// The state with the value of `wire` replaced, where there is a witness
    /// and it has a slot for that wire.
    pub open spec fn store(self, wire: int, value: nat) -> BuilderState {
        BuilderState {
            z: match self.z {
                Some(z) => Some(
                    if 0 <= wire < z.len() {
                        z.update(wire, value)
                    } else {
                        z
                    },
                ),
                None => None,
            },
            ..self
        }
    }

    /// The value of `lc` under the witness.
    pub open spec fn eval(self, lc: Seq<(usize, i64)>) -> nat {
        lc_value(lc, self.z.unwrap())
    }

    /// The value that `gate` gives to the wire it defines.
    pub open spec fn gate_value(self, gate: Gate) -> nat {
        match gate {
            Gate::Constraint { .. } => 0,
            Gate::Assign { lc, .. } => self.eval(lc),
            Gate::Sum { lc } => self.eval(lc),
            Gate::Product { x, y } => (self.eval(x) * self.eval(y)) % modulus(),
            Gate::Select { choice, x, y } => if self.eval(choice) == 0 {
                self.eval(x)
            } else {
                self.eval(y)
            },
        }
    }

    /// The state after `gate`. A gate that defines a new wire first allots it,
    /// evaluates its operands under the witness so extended, stores the
    /// value, and then appends its row.
    #[verifier::opaque]
    pub open spec fn apply(self, gate: Gate) -> BuilderState {
        let w = self.num_variables as usize;
        let s = self.allot();
        match gate {
            Gate::Constraint { a, b, c } => self.constrain(a, b, c),
            Gate::Assign { lc, target } => self.store(target as int, self.gate_value(gate)).constrain(
                lc,
                one_lc(),
                unit(target),
            ),
            Gate::Sum { lc } => s.store(w as int, s.gate_value(gate)).constrain(lc, one_lc(), unit(w)),
            Gate::Product { x, y } => s.store(w as int, s.gate_value(gate)).constrain(x, y, unit(w)),
            Gate::Select { choice, x, y } => s.store(w as int, s.gate_value(gate)).constrain(
                choice,
                y + negate(x),
                unit(w) + negate(x),
            ),
        }
    }

    /// The state after the first `count` of `gates`, in order.
    pub open spec fn run_to(self, gates: Seq<Gate>, count: int) -> BuilderState
        decreases count,
    {
        if count <= 0 {
            self
        } else {
            self.run_to(gates, count - 1).apply(gates[count - 1])
        }
    }

    /// The state after all of `gates`, in order.
    pub open spec fn run(self, gates: Seq<Gate>) -> BuilderState {
        self.run_to(gates, gates.len() as int)
    }

    /// `next` has `rows` more rows and `wires` more wires than this state,
    /// and a witness exactly if this state has one, with a slot more for each
    /// new wire.
    pub open spec fn grows(self, next: BuilderState, rows: nat, wires: nat) -> bool {
        &&& next.num_constraints == self.num_constraints + rows
        &&& next.num_variables == self.num_variables + wires
        &&& next.num_aux == self.num_aux + wires
        &&& next.num_inputs == self.num_inputs
        &&& next.z is Some <==> self.z is Some
        &&& self.z matches Some(z) ==> next.z.unwrap().len() == z.len() + wires
    }

    /// Some matrix has an entry in row `row`.
    pub open spec fn has_row(self, row: int) -> bool {
        row_present(self.a, row) || row_present(self.b, row) || row_present(self.c, row)
    }

    /// The three matrices are in order, name only rows and wires that exist,
    /// and between them have an entry in every row.
    pub open spec fn tidy(self) -> bool {
        &&& matrix_tidy(self.a, self.num_constraints, self.num_variables)
        &&& matrix_tidy(self.b, self.num_constraints, self.num_variables)
        &&& matrix_tidy(self.c, self.num_constraints, self.num_variables)
        &&& forall|row: int| 0 <= row < self.num_constraints ==> #[trigger] self.has_row(row)
    }

    /// `gate` names only wires that exist once it has allotted its own, its
    /// row is not empty, and the counters have room for it.
    pub open spec fn fits(self, gate: Gate) -> bool {
        let wires = self.num_variables as int;
        &&& self.num_constraints < usize::MAX
        &&& match gate {
            Gate::Constraint { a, b, c } => {
                &&& lc_in_range(a, wires)
                &&& lc_in_range(b, wires)
                &&& lc_in_range(c, wires)
                &&& a.len() + b.len() + c.len() > 0
            },
            Gate::Assign { lc, target } => lc_in_range(lc, wires) && target < wires,
            Gate::Sum { lc } => wires < usize::MAX && lc_in_range(lc, wires + 1),
            Gate::Product { x, y } => {
                &&& wires < usize::MAX
                &&& lc_in_range(x, wires + 1)
                &&& lc_in_range(y, wires + 1)
            },
            Gate::Select { choice, x, y } => {
                &&& wires < usize::MAX
                &&& lc_in_range(choice, wires + 1)
                &&& lc_in_range(x, wires + 1)
                &&& lc_in_range(y, wires + 1)
            },
        }
    }

    /// The two states have the same matrices and counters; their witnesses
    /// may differ.
    pub open spec fn same_shape(self, other: BuilderState) -> bool {
        &&& self.a == other.a
        &&& self.b == other.b
        &&& self.c == other.c
        &&& self.num_constraints == other.num_constraints
        &&& self.num_variables == other.num_variables
        &&& self.num_inputs == other.num_inputs
        &&& self.num_aux == other.num_aux
    }

    /// The builder can take `gate`: its counters have room, and where there
    /// is a witness it has a slot for every wire, for the wire that `gate`
    /// allots or assigns, and for every wire that `gate` evaluates.
    pub open spec fn admits(self, gate: Gate) -> bool {
        let s = self.allot();
        &&& self.num_constraints < usize::MAX
        &&& match gate {
            Gate::Constraint { .. } => true,
            Gate::Assign { lc, target } => self.reads(lc) && self.reads(unit(target)),
            Gate::Sum { lc } => self.spare() && s.reads(lc),
            Gate::Product { x, y } => self.spare() && s.reads(x) && s.reads(y),
            Gate::Select { choice, x, y } => {
                &&& self.spare()
                &&& s.reads(choice)
                &&& s.reads(x)
                &&& s.reads(y)
                &&& lc_negatable(x)
            },
        }
    }

    /// There is room for one more wire.
    pub open spec fn spare(self) -> bool {
        &&& self.num_variables < usize::MAX
        &&& self.num_aux < usize::MAX
        &&& self.roomy()
    }

    /// The witness, where there is one, has a slot for every wire.
    pub open spec fn roomy(self) -> bool {
        self.z matches Some(z) ==> z.len() >= self.num_variables
    }

    /// Every wire of `lc` has a slot in the witness, where there is one.
    pub open spec fn reads(self, lc: Seq<(usize, i64)>) -> bool {
        self.z matches Some(z) ==> lc_in_range(lc, z.len() as int)
    }
}

/// Appending the entries of a new last row keeps a matrix in order.
proof fn lemma_append_row(
    m: Seq<(usize, usize, i64)>,
    row: nat,
    lc: Seq<(usize, i64)>,
    wires_before: nat,
    wires: nat,
)
    requires
        matrix_tidy(m, row, wires_before),
        wires_before <= wires,
        row < usize::MAX,
        lc_in_range(lc, wires as int),
    ensures
        matrix_tidy(m + tag(row, lc), row + 1, wires),
        lc.len() > 0 ==> row_present(m + tag(row, lc), row as int),
        forall|r: int| row_present(m, r) ==> row_present(m + tag(row, lc), r),
{
    let grown = m + tag(row, lc);
    assert forall|k: int| 0 <= k < grown.len() implies (#[trigger] grown[k]).0 < row + 1
        && grown[k].1 < wires by {
        if k >= m.len() {
            assert(grown[k] == tag(row, lc)[k - m.len()]);
            assert(lc[k - m.len()].0 < wires);
        } else {
            assert(grown[k] == m[k]);
        }
    }
    assert forall|j: int, k: int| 0 <= j <= k < grown.len() implies (#[trigger] grown[j]).0 <= (
    #[trigger] grown[k]).0 by {
        if k >= m.len() {
            assert(grown[k] == tag(row, lc)[k - m.len()]);
        } else {
            assert(grown[k] == m[k]);
        }
        if j >= m.len() {
            assert(grown[j] == tag(row, lc)[j - m.len()]);
        } else {
            assert(grown[j] == m[j]);
        }
    }
    if lc.len() > 0 {
        assert(grown[m.len() as int] == tag(row, lc)[0]);
        assert(grown[m.len() as int].0 == row);
    }
    assert forall|r: int| row_present(m, r) implies row_present(grown, r) by {
        let k = choose|k: int| 0 <= k < m.len() && (#[trigger] m[k]).0 == r;
        assert(grown[k] == m[k]);
    }
}

/// Negating the coefficients of a linear combination leaves its wires alone.
proof fn lemma_negate_in_range(lc: Seq<(usize, i64)>, bound: int)
    requires
        lc_in_range(lc, bound),
    ensures
        lc_in_range(negate(lc), bound),
        negate(lc).len() == lc.len(),
{
    assert forall|k: int| 0 <= k < negate(lc).len() implies (#[trigger] negate(lc)[k]).0
        < bound by {
        assert(lc[k].0 < bound);
    }
}

/// Two linear combinations in range are in range one after the other.
proof fn lemma_concat_in_range(left: Seq<(usize, i64)>, right: Seq<(usize, i64)>, bound: int)
    requires
        lc_in_range(left, bound),
        lc_in_range(right, bound),
    ensures
        lc_in_range(left + right, bound),
{
    assert forall|k: int| 0 <= k < (left + right).len() implies (#[trigger] (left + right)[k]).0
        < bound by {
        if k < left.len() {
            assert((left + right)[k] == left[k]);
        } else {
            assert((left + right)[k] == right[k - left.len()]);
        }
    }
}

/// A row `a * b = c` whose wires exist keeps a tidy state tidy.
proof fn lemma_constrain_tidy(
    s: BuilderState,
    wires_before: nat,
    a: Seq<(usize, i64)>,
    b: Seq<(usize, i64)>,
    c: Seq<(usize, i64)>,
)
    requires
        matrix_tidy(s.a, s.num_constraints, wires_before),
        matrix_tidy(s.b, s.num_constraints, wires_before),
        matrix_tidy(s.c, s.num_constraints, wires_before),
        forall|row: int| 0 <= row < s.num_constraints ==> #[trigger] s.has_row(row),
        wires_before <= s.num_variables,
        s.num_constraints < usize::MAX,
        lc_in_range(a, s.num_variables as int),
        lc_in_range(b, s.num_variables as int),
        lc_in_range(c, s.num_variables as int),
        a.len() + b.len() + c.len() > 0,
    ensures
        s.constrain(a, b, c).tidy(),
{
    let t = s.constrain(a, b, c);
    lemma_append_row(s.a, s.num_constraints, a, wires_before, s.num_variables);
    lemma_append_row(s.b, s.num_constraints, b, wires_before, s.num_variables);
    lemma_append_row(s.c, s.num_constraints, c, wires_before, s.num_variables);
    assert forall|row: int| 0 <= row < t.num_constraints implies #[trigger] t.has_row(row) by {
        if row < s.num_constraints {
            assert(s.has_row(row));
        }
    }
}

/// A gate that fits keeps a tidy state tidy.
pub proof fn lemma_apply_tidy(s: BuilderState, gate: Gate)
    requires
        s.tidy(),
        s.fits(gate),
    ensures
        s.apply(gate).tidy(),
{
    reveal(BuilderState::apply);
    let w = s.num_variables as usize;
    let wires = s.num_variables;
    match gate {
        Gate::Constraint { a, b, c } => {
            lemma_constrain_tidy(s, wires, a, b, c);
        },
        Gate::Assign { lc, target } => {
            let t = s.store(target as int, s.gate_value(gate));
            assert(unit(target)[0] == (target, 1i64));
            assert(one_lc()[0] == ONE);
            assert forall|row: int| 0 <= row < t.num_constraints implies #[trigger] t.has_row(
                row,
            ) by {
                assert(s.has_row(row));
            }
            lemma_constrain_tidy(t, wires, lc, one_lc(), unit(target));
        },
        Gate::Sum { lc } => {
            let u = s.allot();
            let t = u.store(w as int, u.gate_value(gate));
            assert(unit(w)[0] == (w, 1i64));
            assert(one_lc()[0] == ONE);
            assert forall|row: int| 0 <= row < t.num_constraints implies #[trigger] t.has_row(
                row,
            ) by {
                assert(s.has_row(row));
            }
            lemma_constrain_tidy(t, wires, lc, one_lc(), unit(w));
        },
        Gate::Product { x, y } => {
            let u = s.allot();
            let t = u.store(w as int, u.gate_value(gate));
            assert(unit(w)[0] == (w, 1i64));
            assert forall|row: int| 0 <= row < t.num_constraints implies #[trigger] t.has_row(
                row,
            ) by {
                assert(s.has_row(row));
            }
            lemma_constrain_tidy(t, wires, x, y, unit(w));
        },
        Gate::Select { choice, x, y } => {
            let u = s.allot();
            let t = u.store(w as int, u.gate_value(gate));
            assert(unit(w)[0] == (w, 1i64));
            lemma_negate_in_range(x, wires as int + 1);
            lemma_concat_in_range(y, negate(x), wires as int + 1);
            lemma_concat_in_range(unit(w), negate(x), wires as int + 1);
            assert forall|row: int| 0 <= row < t.num_constraints implies #[trigger] t.has_row(
                row,
            ) by {
                assert(s.has_row(row));
            }
            lemma_constrain_tidy(t, wires, choice, y + negate(x), unit(w) + negate(x));
        },
    }
}

/// The matrices and counters that construction arrives at do not depend on
/// the witness.
pub proof fn lemma_run_ignores_witness(s: BuilderState, t: BuilderState, gates: Seq<Gate>)
    requires
        s.same_shape(t),
    ensures
        s.run(gates).same_shape(t.run(gates)),
{
    lemma_run_to_ignores_witness(s, t, gates, gates.len() as int);
}

proof fn lemma_run_to_ignores_witness(
    s: BuilderState,
    t: BuilderState,
    gates: Seq<Gate>,
    count: int,
)
    requires
        s.same_shape(t),
    ensures
        s.run_to(gates, count).same_shape(t.run_to(gates, count)),
    decreases count,
{
    reveal(BuilderState::apply);
    if count > 0 {
        lemma_run_to_ignores_witness(s, t, gates, count - 1);
    }
}

/// What a gate does to the counters and to the order of the matrices: it adds
/// one row and the wire it allots, keeps the witness roomy, and keeps a tidy
/// state tidy if it fits.
pub broadcast proof fn lemma_apply_effects(s: BuilderState, gate: Gate)
    ensures
        s.grows(#[trigger] s.apply(gate), 1, gate.allotted()),
        s.roomy() ==> s.apply(gate).roomy(),
        s.tidy() && s.fits(gate) ==> s.apply(gate).tidy(),
{
    if s.tidy() && s.fits(gate) {
        lemma_apply_tidy(s, gate);
    }
    reveal(BuilderState::apply);
}

/// Running two lists of gates one after the other is running their
/// concatenation.
pub proof fn lemma_run_concat(start: BuilderState, first: Seq<Gate>, second: Seq<Gate>)
    ensures
        start.run(first + second) == start.run(first).run(second),
{
    lemma_run_to_concat(start, first, second, second.len() as int);
    assert((first + second).len() == first.len() + second.len());
}

proof fn lemma_run_to_concat(start: BuilderState, first: Seq<Gate>, second: Seq<Gate>, count: int)
    requires
        0 <= count <= second.len(),
    ensures
        start.run_to(first + second, first.len() + count) == start.run(first).run_to(second, count),
    decreases count,
{
    if count == 0 {
        lemma_run_to_prefix(start, first + second, first, first.len() as int);
    } else {
        lemma_run_to_concat(start, first, second, count - 1);
        assert((first + second)[first.len() + count - 1] == second[count - 1]);
    }
}

proof fn lemma_run_to_prefix(start: BuilderState, left: Seq<Gate>, right: Seq<Gate>, count: int)
    requires
        0 <= count <= left.len(),
        count <= right.len(),
        forall|k: int| 0 <= k < count ==> left[k] == right[k],
    ensures
        start.run_to(left, count) == start.run_to(right, count),
    decreases count,
{
    if count > 0 {
        lemma_run_to_prefix(start, left, right, count - 1);
    }
}

/// No gate of `gates` assigns the wire `wire`.
pub open spec fn never_assigns(gates: Seq<Gate>, wire: int) -> bool {
    forall|k: int| 0 <= k < gates.len() ==> !(#[trigger] gates[k]).assigns(wire)
}

/// A wire that exists at the start and that no gate assigns keeps its value:
/// the other gates write only to the wires that they allot.
pub proof fn lemma_run_keeps(s: BuilderState, gates: Seq<Gate>, wire: int)
    requires
        s.z is Some,
        0 <= wire < s.z.unwrap().len(),
        wire < s.num_variables,
        s.num_variables + gates.len() <= usize::MAX,
        never_assigns(gates, wire),
    ensures
        s.run(gates).z is Some,
        wire < s.run(gates).z.unwrap().len(),
        s.run(gates).z.unwrap()[wire] == s.z.unwrap()[wire],
{
    lemma_run_to_keeps(s, gates, wire, gates.len() as int);
}

proof fn lemma_run_to_keeps(s: BuilderState, gates: Seq<Gate>, wire: int, count: int)
    requires
        s.z is Some,
        0 <= wire < s.z.unwrap().len(),
        wire < s.num_variables,
        s.num_variables + gates.len() <= usize::MAX,
        never_assigns(gates, wire),
        0 <= count <= gates.len(),
    ensures
        s.run_to(gates, count).z is Some,
        wire < s.run_to(gates, count).z.unwrap().len(),
        wire < s.run_to(gates, count).num_variables <= s.num_variables + count,
        s.run_to(gates, count).z.unwrap()[wire] == s.z.unwrap()[wire],
    decreases count,
{
    reveal(BuilderState::apply);
    if count > 0 {
        lemma_run_to_keeps(s, gates, wire, count - 1);
        assert(!gates[count - 1].assigns(wire));
    }
}

/// What neither of two lists of gates assigns, the two in a row do not assign.
pub proof fn lemma_concat_never_assigns(first: Seq<Gate>, second: Seq<Gate>, wire: int)
    requires
        never_assigns(first, wire),
        never_assigns(second, wire),
    ensures
        never_assigns(first + second, wire),
{
    assert forall|k: int| 0 <= k < (first + second).len() implies !(#[trigger] (first
        + second)[k]).assigns(wire) by {
        if k < first.len() {
            assert((first + second)[k] == first[k]);
        } else {
            assert((first + second)[k] == second[k - first.len()]);
        }
    }
}

} // verus!
