//! The one gate that both relations are built from: on a row where the
//! selector is on, the third advice cell is the sum of the first two.

use crate::circuit::value_add;
use crate::circuit::AssignedCell;
use crate::circuit::Cell;
use crate::circuit::Layout;
use crate::circuit::Layouter;
use crate::dev::eval;
use crate::field::field_add;
use crate::field::field_neg;
use crate::field::modulus;
use crate::plonk::has_gate_named;
use crate::plonk::with_equality;
use crate::plonk::AdviceColumn;
use crate::plonk::Column;
use crate::plonk::ConstraintSystem;
use crate::plonk::Error;
use crate::plonk::Expression;
use crate::plonk::Gate;
use crate::plonk::InstanceColumn;
use crate::plonk::Rotation;
use crate::plonk::Selector;
use vstd::prelude::*;

verus! {

/// The columns of an addition circuit: three advice columns, the selector
/// of their gate and the column of public inputs.
#[derive(Clone, Copy, Debug, PartialEq, Eq, Structural)]
pub struct Columns {
    pub a: AdviceColumn,
    pub b: AdviceColumn,
    pub c: AdviceColumn,
    pub selector: Selector,
    pub instance: InstanceColumn,
}

impl Columns {
    /// No two of the three advice columns are the same.
    pub open spec fn distinct(self) -> bool {
        self.a != self.b && self.a != self.c && self.b != self.c
    }
}

/// The polynomial `a + b - c` over the cells of one row.
pub open spec fn polynomial(a: AdviceColumn, b: AdviceColumn, c: AdviceColumn) -> Expression {
    Expression::Sum(
        Box::new(
            Expression::Sum(
                Box::new(Expression::Advice { column: a, rotation: Rotation { offset: 0 } }),
                Box::new(Expression::Advice { column: b, rotation: Rotation { offset: 0 } }),
            ),
        ),
        Box::new(
            Expression::Negated(
                Box::new(Expression::Advice { column: c, rotation: Rotation { offset: 0 } }),
            ),
        ),
    )
}

/// Whether the gates are the addition gate over these columns and nothing else.
pub open spec fn is_addition_gate(gates: Seq<Gate>, columns: Columns) -> bool {
    &&& gates.len() == 1
    &&& gates[0].selector == columns.selector
    &&& gates[0].polynomial == polynomial(columns.a, columns.b, columns.c)
}

/// What declaring the addition circuit does to a registry: three fresh
/// advice columns, a fresh selector and a fresh instance column, equality
/// enabled on the four columns, and a gate named "add" unless a gate of
/// that name is there already.
pub open spec fn declared(before: ConstraintSystem, after: ConstraintSystem, columns: Columns) -> bool {
    &&& columns.a.index == before.num_advice_columns
    &&& columns.b.index == before.num_advice_columns + 1
    &&& columns.c.index == before.num_advice_columns + 2
    &&& columns.selector.index == before.num_selectors
    &&& columns.instance.index == before.num_instance_columns
    &&& after.num_advice_columns == before.num_advice_columns + 3
    &&& after.num_selectors == before.num_selectors + 1
    &&& after.num_instance_columns == before.num_instance_columns + 1
    &&& after.equality@ == with_equality(
        with_equality(
            with_equality(
                with_equality(before.equality@, Column::Advice(columns.a)),
                Column::Advice(columns.b),
            ),
            Column::Advice(columns.c),
        ),
        Column::Instance(columns.instance),
    )
    &&& has_gate_named(before.gates@, "add"@) ==> after.gates == before.gates
    &&& !has_gate_named(before.gates@, "add"@) ==> {
        &&& after.gates@.len() == before.gates@.len() + 1
        &&& after.gates@.drop_last() == before.gates@
        &&& after.gates@.last().name@ == "add"@
        &&& after.gates@.last().selector == columns.selector
        &&& after.gates@.last().polynomial == polynomial(columns.a, columns.b, columns.c)
    }
}

/// Declares the columns of an addition circuit and its gate.
pub fn declare(meta: &mut ConstraintSystem) -> (r: Columns)
    requires
        old(meta).num_advice_columns + 3 <= usize::MAX,
        old(meta).num_selectors < usize::MAX,
        old(meta).num_instance_columns < usize::MAX,
    ensures
        declared(*old(meta), *final(meta), r),
        r.distinct(),
{
    let a = meta.advice_column();
    let b = meta.advice_column();
    let c = meta.advice_column();
    let selector = meta.selector();
    let instance = meta.instance_column();

    meta.enable_equality(Column::Advice(a));
    meta.enable_equality(Column::Advice(b));
    meta.enable_equality(Column::Advice(c));
    meta.enable_equality(Column::Instance(instance));

    let lhs = Expression::query_advice(a, Rotation::cur());
    let rhs = Expression::query_advice(b, Rotation::cur());
    let out = Expression::query_advice(c, Rotation::cur());
    meta.create_gate("add", selector, lhs.plus(rhs).minus(out));

    Columns { a, b, c, selector, instance }
}

/// A residue and its additive inverse sum to zero.
proof fn lemma_sum_cancels(s: nat)
    requires
        s < modulus(),
    ensures
        field_add(s, field_neg(s)) == 0,
{
    let p = modulus() as int;
    vstd::arithmetic::div_mod::lemma_mod_self_0(p);
    if s == 0 {
        assert(field_neg(s) == 0);
        vstd::arithmetic::div_mod::lemma_small_mod(0, p as nat);
    } else {
        vstd::arithmetic::div_mod::lemma_small_mod((p - s) as nat, p as nat);
        assert(field_neg(s) == p - s);
        assert(s + field_neg(s) == p);
    }
}

/// The polynomial vanishes on a row whose third cell holds the sum of the
/// first two.
pub proof fn lemma_vanishes(layout: Layout, columns: Columns, row: usize, x: nat, y: nat)
    requires
        layout.value_of(Cell { column: columns.a, row }) == Some(x),
        layout.value_of(Cell { column: columns.b, row }) == Some(y),
        layout.value_of(Cell { column: columns.c, row }) == Some(field_add(x, y)),
    ensures
        eval(polynomial(columns.a, columns.b, columns.c), layout, row) == Some(0nat),
{
    let s = field_add(x, y);
    assert(s < modulus()) by {
        vstd::arithmetic::div_mod::lemma_mod_bound((x + y) as int, modulus() as int);
    }
    lemma_sum_cancels(s);
    assert(eval(polynomial(columns.a, columns.b, columns.c), layout, row) == Some(
        field_add(s, field_neg(s)),
    )) by {
        reveal_with_fuel(eval, 4);
    }
}

/// The table after one addition row: a fresh region of one row with the
/// gate on, copies of `lhs` and `rhs` in the first two columns and their sum
/// in the third.
pub open spec fn sum_row(
    layout: Layout,
    columns: Columns,
    name: Seq<char>,
    lhs: AssignedCell,
    rhs: AssignedCell,
) -> Layout {
    layout.begin_region(name).enable(columns.selector, 0).copy(lhs, columns.a, 0).copy(
        rhs,
        columns.b,
        0,
    ).assign(columns.c, 0, value_add(lhs.value@, rhs.value@))
}

/// Why an addition row is refused, if it is: an operand is not a cell of
/// the table (the second may be the copy of the first that the row itself
/// makes), or else two of the three columns are the same.
pub open spec fn sum_row_error(layout: Layout, columns: Columns, lhs: Cell, rhs: Cell) -> Option<
    Error,
> {
    if !layout.cells.contains_key(lhs) {
        Some(Error::CellNotFound)
    } else if !layout.cells.contains_key(rhs) && rhs != (Cell {
        column: columns.a,
        row: layout.rows as usize,
    }) {
        Some(Error::CellNotFound)
    } else if !columns.distinct() {
        Some(Error::CellAlreadyAssigned)
    } else {
        None
    }
}

/// Lays out one addition row in a fresh region called `name` and returns
/// the cell that holds the sum.
pub fn assign_sum(
    columns: &Columns,
    layouter: &mut Layouter,
    name: &str,
    lhs: &AssignedCell,
    rhs: &AssignedCell,
) -> (r: Result<AssignedCell, Error>)
    requires
        old(layouter)@.rows < usize::MAX,
    ensures
        old(layouter)@.wf(),
        final(layouter)@.wf(),
        r is Err <==> sum_row_error(old(layouter)@, *columns, lhs.cell, rhs.cell) is Some,
        r matches Err(e) ==> Some(e) == sum_row_error(
            old(layouter)@,
            *columns,
            lhs.cell,
            rhs.cell,
        ),
        r matches Ok(out) ==> {
            &&& out.cell == (Cell { column: columns.c, row: old(layouter)@.rows as usize })
            &&& out.value@ == value_add(lhs.value@, rhs.value@)
            &&& final(layouter)@ == sum_row(old(layouter)@, *columns, name@, *lhs, *rhs)
        },
{
    layouter.assign_region(name);
    layouter.enable_selector(columns.selector, 0);
    match layouter.copy_advice(lhs, columns.a, 0) {
        Err(e) => {
            return Err(e);
        },
        Ok(_) => {},
    }
    match layouter.copy_advice(rhs, columns.b, 0) {
        Err(e) => {
            return Err(e);
        },
        Ok(_) => {},
    }
    let sum = lhs.value().add(&rhs.value());
    layouter.assign_advice(columns.c, 0, sum)
}

} // verus!
