//! The local satisfiability check: a finished table is replayed against the
//! gates, the copy constraints and the instance bindings, and every
//! constraint that does not hold is reported.

use crate::circuit::value_add;
use crate::circuit::Binding;
use crate::circuit::Cell;
use crate::circuit::CopyConstraint;
use crate::circuit::Layout;
use crate::circuit::Layouter;
use crate::circuit::Value;
use crate::field::field_mul;
use crate::field::field_neg;
use crate::field::Fp;
use crate::plonk::ConstraintSystem;
use crate::plonk::Expression;
use crate::plonk::Gate;
use crate::plonk::InstanceColumn;
use crate::plonk::Rotation;
use vstd::prelude::*;

verus! {

/// A constraint that the table does not meet.
#[derive(Clone, Copy, Debug, PartialEq, Eq, Structural)]
pub enum VerifyFailure {
    /// A gate, given by its index, does not vanish on `row`, where its selector is on.
    Gate { gate: usize, row: usize },
    /// The two cells of a copy constraint do not hold one known value.
    Copy { left: Cell, right: Cell },
    /// The cell does not hold the public input at `row` of `column`.
    Instance { cell: Cell, column: InstanceColumn, row: usize },
}

/// The row that `rotation` selects from `row`, where there is one.
pub open spec fn rotated(row: usize, rotation: Rotation) -> Option<usize> {
    if 0 <= row + rotation.offset <= usize::MAX {
        Some((row + rotation.offset) as usize)
    } else {
        None
    }
}

/// Product of two values: unknown as soon as one of them is.
pub open spec fn value_mul(a: Option<nat>, b: Option<nat>) -> Option<nat> {
    match (a, b) {
        (Some(x), Some(y)) => Some(field_mul(x, y)),
        _ => None,
    }
}

/// Additive inverse of a value.
pub open spec fn value_neg(a: Option<nat>) -> Option<nat> {
    match a {
        Some(x) => Some(field_neg(x)),
        None => None,
    }
}

/// The value of a polynomial on a row. A cell that holds no value, or a row
/// that does not exist, makes it unknown.
pub open spec fn eval(e: Expression, layout: Layout, row: usize) -> Option<nat>
    decreases e,
{
    match e {
        Expression::Constant(c) => Some(c@),
        Expression::Advice { column, rotation } => match rotated(row, rotation) {
            Some(r) => layout.value_of(Cell { column, row: r }),
            None => None,
        },
        Expression::Negated(a) => value_neg(eval(*a, layout, row)),
        Expression::Sum(a, b) => value_add(eval(*a, layout, row), eval(*b, layout, row)),
        Expression::Product(a, b) => value_mul(eval(*a, layout, row), eval(*b, layout, row)),
    }
}

/// A gate holds on a row if its selector is off there or its polynomial is
/// known to be zero.
pub open spec fn gate_holds(gate: Gate, layout: Layout, row: usize) -> bool {
    layout.enabled.contains((gate.selector, row)) ==> eval(gate.polynomial, layout, row) == Some(
        0nat,
    )
}

/// A copy constraint holds if both cells hold the same known value.
pub open spec fn copy_holds(layout: Layout, copy: CopyConstraint) -> bool {
    layout.value_of(copy.left) is Some && layout.value_of(copy.left) == layout.value_of(copy.right)
}

/// A binding holds if the cell holds the public input, and both are known.
pub open spec fn binding_holds(layout: Layout, binding: Binding) -> bool {
    layout.value_of(binding.cell) is Some && layout.value_of(binding.cell)
        == layout.instance_value(binding.column, binding.row)
}

/// What is reported for a row of a gate, which is given by its index.
pub open spec fn gate_check(gates: Seq<Gate>, layout: Layout, index: usize) -> spec_fn(
    usize,
) -> Option<VerifyFailure> {
    |row: usize|
        if gate_holds(gates[index as int], layout, row) {
            None
        } else {
            Some(VerifyFailure::Gate { gate: index, row })
        }
}

/// What is reported for a copy constraint.
pub open spec fn copy_check(layout: Layout) -> spec_fn(CopyConstraint) -> Option<VerifyFailure> {
    |copy: CopyConstraint|
        if copy_holds(layout, copy) {
            None
        } else {
            Some(VerifyFailure::Copy { left: copy.left, right: copy.right })
        }
}

/// What is reported for an instance binding.
pub open spec fn binding_check(layout: Layout) -> spec_fn(Binding) -> Option<VerifyFailure> {
    |binding: Binding|
        if binding_holds(layout, binding) {
            None
        } else {
            Some(
                VerifyFailure::Instance {
                    cell: binding.cell,
                    column: binding.column,
                    row: binding.row,
                },
            )
        }
}

/// The rows `0, 1, ..` below `n`.
pub open spec fn row_indices(n: nat) -> Seq<usize> {
    Seq::new(n, |i: int| i as usize)
}

/// The rows in use on which one gate fails, in row order.
pub open spec fn gate_failures_of(gates: Seq<Gate>, layout: Layout, index: usize) -> Seq<
    VerifyFailure,
> {
    row_indices(layout.rows).filter_map(gate_check(gates, layout, index))
}

/// The failures of the first `n` gates, gate by gate.
pub open spec fn gate_failures(gates: Seq<Gate>, layout: Layout, n: nat) -> Seq<VerifyFailure>
    decreases n,
{
    if n == 0 {
        Seq::empty()
    } else {
        gate_failures(gates, layout, (n - 1) as nat) + gate_failures_of(
            gates,
            layout,
            (n - 1) as usize,
        )
    }
}

/// Every constraint that the table does not meet: the gates first, row by
/// row, then the copy constraints and the instance bindings in the order
/// they were made.
pub open spec fn failures(gates: Seq<Gate>, layout: Layout) -> Seq<VerifyFailure> {
    gate_failures(gates, layout, gates.len()) + layout.copies.filter_map(copy_check(layout))
        + layout.bindings.filter_map(binding_check(layout))
}

/// Whether `verdict` is the report that the table calls for: a pass where
/// nothing fails, else the list of all failures.
pub open spec fn is_verdict(
    verdict: Result<(), Vec<VerifyFailure>>,
    gates: Seq<Gate>,
    layout: Layout,
) -> bool {
    match verdict {
        Ok(_) => failures(gates, layout).len() == 0,
        Err(found) => found@ == failures(gates, layout) && found@.len() > 0,
    }
}

/// Checking is repeatable: two reports on the same gates and the same table
/// agree, on pass or fail and on every failure listed.
pub proof fn lemma_verdict_repeatable(
    first: Result<(), Vec<VerifyFailure>>,
    second: Result<(), Vec<VerifyFailure>>,
    gates: Seq<Gate>,
    layout: Layout,
)
    requires
        is_verdict(first, gates, layout),
        is_verdict(second, gates, layout),
    ensures
        first is Ok <==> second is Ok,
        first matches Err(a) ==> second matches Err(b) && a@ == b@,
{
}

/// Nothing is reported for a list whose items all pass.
pub proof fn lemma_filter_map_none<A, B>(s: Seq<A>, f: spec_fn(A) -> Option<B>)
    requires
        forall|i: int| 0 <= i < s.len() ==> f(#[trigger] s[i]) is None,
    ensures
        s.filter_map(f) == Seq::<B>::empty(),
    decreases s.len(),
{
    if s.len() > 0 {
        assert forall|i: int| 0 <= i < s.drop_last().len() implies f(#[trigger] s.drop_last()[i])
            is None by {
            assert(s.drop_last()[i] == s[i]);
        }
        lemma_filter_map_none(s.drop_last(), f);
        assert(f(s[s.len() - 1]) is None);
    }
}

/// Where all items but the last pass, the report is what the last one gives.
pub proof fn lemma_filter_map_last<A, B>(s: Seq<A>, f: spec_fn(A) -> Option<B>)
    requires
        s.len() > 0,
        forall|i: int| 0 <= i < s.len() - 1 ==> f(#[trigger] s[i]) is None,
    ensures
        s.filter_map(f) == match f(s.last()) {
            Some(b) => seq![b],
            None => Seq::<B>::empty(),
        },
{
    assert forall|i: int| 0 <= i < s.drop_last().len() implies f(#[trigger] s.drop_last()[i])
        is None by {
        assert(s.drop_last()[i] == s[i]);
    }
    lemma_filter_map_none(s.drop_last(), f);
    assert(Seq::<B>::empty() + seq![f(s.last())->0] =~= seq![f(s.last())->0]);
}

/// Something is reported for a list with an item that does not pass.
pub proof fn lemma_filter_map_some<A, B>(s: Seq<A>, f: spec_fn(A) -> Option<B>, i: int)
    requires
        0 <= i < s.len(),
        f(s[i]) is Some,
    ensures
        s.filter_map(f).len() > 0,
    decreases s.len(),
{
    if i < s.len() - 1 {
        assert(s.drop_last()[i] == s[i]);
        lemma_filter_map_some(s.drop_last(), f, i);
    }
}

/// No gate failure is reported where every gate holds on every row in use.
pub proof fn lemma_gates_hold(gates: Seq<Gate>, layout: Layout, n: nat)
    requires
        n <= gates.len() <= usize::MAX,
        forall|g: int, row: usize|
            0 <= g < n && row < layout.rows ==> #[trigger] gate_holds(gates[g], layout, row),
    ensures
        gate_failures(gates, layout, n) == Seq::<VerifyFailure>::empty(),
    decreases n,
{
    if n > 0 {
        lemma_gates_hold(gates, layout, (n - 1) as nat);
        let index = (n - 1) as usize;
        let rows = row_indices(layout.rows);
        assert forall|i: int| 0 <= i < rows.len() implies gate_check(gates, layout, index)(
            #[trigger] rows[i],
        ) is None by {
            assert(gate_holds(gates[index as int], layout, rows[i]));
        }
        lemma_filter_map_none(rows, gate_check(gates, layout, index));
    }
}

/// The row that `rotation` selects from `row`, where there is one.
fn rotate(row: usize, rotation: Rotation) -> (r: Option<usize>)
    ensures
        r == rotated(row, rotation),
{
    let offset: i32 = rotation.offset;
    if offset >= 0 {
        let up: usize = offset as usize;
        if row <= usize::MAX - up {
            Some(row + up)
        } else {
            None
        }
    } else {
        let down: usize = (-(offset as i64)) as usize;
        if down <= row {
            Some(row - down)
        } else {
            None
        }
    }
}

/// Evaluates a polynomial on a row of the table.
pub fn evaluate(e: &Expression, layouter: &Layouter, row: usize) -> (r: Value)
    ensures
        r@ == eval(*e, layouter@, row),
    decreases e,
{
    match e {
        Expression::Constant(c) => Value::Known(*c),
        Expression::Advice { column, rotation } => match rotate(row, *rotation) {
            Some(target) => match layouter.value(Cell { column: *column, row: target }) {
                Some(v) => v,
                None => Value::Unknown,
            },
            None => Value::Unknown,
        },
        Expression::Negated(a) => match evaluate(a, layouter, row) {
            Value::Known(x) => Value::Known(x.neg()),
            Value::Unknown => Value::Unknown,
        },
        Expression::Sum(a, b) => {
            let x = evaluate(a, layouter, row);
            let y = evaluate(b, layouter, row);
            x.add(&y)
        },
        Expression::Product(a, b) => {
            let x = evaluate(a, layouter, row);
            let y = evaluate(b, layouter, row);
            match (x, y) {
                (Value::Known(p), Value::Known(q)) => Value::Known(p.mul(&q)),
                _ => Value::Unknown,
            }
        },
    }
}

/// Whether two values are known and equal.
fn known_equal(a: &Value, b: &Value) -> (r: bool)
    ensures
        r == (a@ is Some && a@ == b@),
{
    match (a, b) {
        (Value::Known(x), Value::Known(y)) => x.equals(y),
        _ => false,
    }
}

/// A constraint system together with a table laid out for it.
pub struct MockProver {
    pub cs: ConstraintSystem,
    pub layouter: Layouter,
}

impl MockProver {
    /// Pairs a constraint system with a finished table.
    pub fn new(cs: ConstraintSystem, layouter: Layouter) -> (r: MockProver)
        ensures
            r.cs == cs,
            r.layouter == layouter,
    {
        MockProver { cs, layouter }
    }

    /// Checks one gate, given by its index, on `row`. A cell that holds no
    /// known value fails it like a wrong value.
    fn gate_failure(&self, index: usize, row: usize) -> (r: Option<VerifyFailure>)
        requires
            index < self.cs.gates@.len(),
        ensures
            r == gate_check(self.cs.gates@, self.layouter@, index)(row),
    {
        let gate = &self.cs.gates[index];
        if self.layouter.is_enabled(gate.selector, row) {
            let value = evaluate(&gate.polynomial, &self.layouter, row);
            if known_equal(&Value::Known(Fp::zero()), &value) {
                None
            } else {
                Some(VerifyFailure::Gate { gate: index, row })
            }
        } else {
            None
        }
    }

    /// Checks every gate on every row in use, every copy constraint and
    /// every instance binding, and reports all that fail.
    pub fn verify(&self) -> (r: Result<(), Vec<VerifyFailure>>)
        ensures
            is_verdict(r, self.cs.gates@, self.layouter@),
    {
        let ghost gates = self.cs.gates@;
        let ghost layout = self.layouter@;
        let mut found: Vec<VerifyFailure> = Vec::new();
        let rows: usize = self.layouter.rows();
        let mut index: usize = 0;
        while index < self.cs.gates.len()
            invariant
                gates == self.cs.gates@,
                layout == self.layouter@,
                rows == layout.rows,
                index <= gates.len(),
                found@ == gate_failures(gates, layout, index as nat),
            decreases gates.len() - index,
        {
            let ghost before = found@;
            let ghost all = row_indices(layout.rows);
            let ghost check = gate_check(gates, layout, index);
            let mut row: usize = 0;
            assert(all.take(0).filter_map(check) =~= Seq::<VerifyFailure>::empty());
            while row < rows
                invariant
                    gates == self.cs.gates@,
                    layout == self.layouter@,
                    rows == layout.rows,
                    index < gates.len(),
                    all == row_indices(layout.rows),
                    check == gate_check(gates, layout, index),
                    row <= rows,
                    found@ == before + all.take(row as int).filter_map(check),
                decreases rows - row,
            {
                let failure = self.gate_failure(index, row);
                proof {
                    all.lemma_filter_map_take_succ(check, row as int);
                    assert(all[row as int] == row);
                }
                match failure {
                    Some(f) => {
                        found.push(f);
                    },
                    None => {},
                }
                row += 1;
            }
            proof {
                assert(all.take(rows as int) =~= all);
            }
            index += 1;
        }
        let ghost gate_part = found@;
        let copies = self.layouter.copies();
        let ghost on_copy = copy_check(layout);
        let mut i: usize = 0;
        assert(copies@.take(0).filter_map(on_copy) =~= Seq::<VerifyFailure>::empty());
        while i < copies.len()
            invariant
                layout == self.layouter@,
                copies@ == layout.copies,
                on_copy == copy_check(layout),
                i <= copies@.len(),
                found@ == gate_part + copies@.take(i as int).filter_map(on_copy),
            decreases copies@.len() - i,
        {
            let copy = copies[i];
            let left = self.value_or_unknown(copy.left);
            let right = self.value_or_unknown(copy.right);
            proof {
                copies@.lemma_filter_map_take_succ(on_copy, i as int);
            }
            if !known_equal(&left, &right) {
                found.push(VerifyFailure::Copy { left: copy.left, right: copy.right });
            }
            i += 1;
        }
        proof {
            assert(copies@.take(copies@.len() as int) =~= copies@);
        }
        let ghost copy_part = found@;
        let bindings = self.layouter.bindings();
        let ghost on_binding = binding_check(layout);
        let mut j: usize = 0;
        assert(bindings@.take(0).filter_map(on_binding) =~= Seq::<VerifyFailure>::empty());
        while j < bindings.len()
            invariant
                layout == self.layouter@,
                bindings@ == layout.bindings,
                on_binding == binding_check(layout),
                j <= bindings@.len(),
                found@ == copy_part + bindings@.take(j as int).filter_map(on_binding),
            decreases bindings@.len() - j,
        {
            let binding = bindings[j];
            let held = self.value_or_unknown(binding.cell);
            let input = match self.layouter.instance_value(binding.column, binding.row) {
                Some(v) => v,
                None => Value::Unknown,
            };
            proof {
                bindings@.lemma_filter_map_take_succ(on_binding, j as int);
            }
            if !known_equal(&held, &input) {
                found.push(
                    VerifyFailure::Instance {
                        cell: binding.cell,
                        column: binding.column,
                        row: binding.row,
                    },
                );
            }
            j += 1;
        }
        proof {
            assert(bindings@.take(bindings@.len() as int) =~= bindings@);
        }
        if found.len() == 0 {
            Ok(())
        } else {
            Err(found)
        }
    }

    /// The value of a cell, unknown where it holds none.
    fn value_or_unknown(&self, cell: Cell) -> (r: Value)
        ensures
            r@ == self.layouter@.value_of(cell),
    {
        match self.layouter.value(cell) {
            Some(v) => v,
            None => Value::Unknown,
        }
    }
}

} // verus!
