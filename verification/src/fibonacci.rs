//! The recurrence relation: eight addition rows lead from two public seeds
//! to the tenth term of the sequence they start, which is public too.

use crate::addition::assign_sum;
use crate::addition::declare;
use crate::addition::declared;
use crate::addition::is_addition_gate;
use crate::addition::lemma_vanishes;
use crate::addition::sum_row;
use crate::addition::sum_row_error;
use crate::addition::Columns;
use crate::circuit::instance_view;
use crate::circuit::value_add;
use crate::circuit::AssignedCell;
use crate::circuit::Binding;
use crate::circuit::Cell;
use crate::circuit::CopyConstraint;
use crate::circuit::Layout;
use crate::circuit::Layouter;
use crate::dev::binding_check;
use crate::dev::binding_holds;
use crate::dev::copy_check;
use crate::dev::copy_holds;
use crate::dev::failures;
use crate::dev::gate_holds;
use crate::dev::lemma_filter_map_last;
use crate::dev::lemma_filter_map_none;
use crate::dev::lemma_gates_hold;
use crate::dev::MockProver;
use crate::dev::VerifyFailure;
use crate::field::field_add;
use crate::field::Fp;
use crate::plonk::AdviceColumn;
use crate::plonk::with_equality;
use crate::plonk::Column;
use crate::plonk::ConstraintSystem;
use crate::plonk::Error;
use crate::plonk::Gate;
use crate::plonk::InstanceColumn;
use crate::plonk::Selector;
use vstd::prelude::*;

verus! {

/// Number of addition rows: each yields one more term after the two seeds.
pub const ROWS: usize = 8;

/// Index of the public input that the last sum is bound to.
pub const TARGET: usize = 2;

/// The term with index `n` of the sequence that starts with `f0` and `f1`,
/// each further term being the sum of the two before it in the field.
pub open spec fn fib(f0: nat, f1: nat, n: nat) -> nat
    decreases n,
{
    if n == 0 {
        f0
    } else if n == 1 {
        f1
    } else {
        field_add(fib(f0, f1, (n - 2) as nat), fib(f0, f1, (n - 1) as nat))
    }
}

/// The columns of the relation.
#[derive(Clone, Copy, Debug, PartialEq, Eq, Structural)]
pub struct FibonacciConfig {
    pub col_advice_1: AdviceColumn,
    pub col_advice_2: AdviceColumn,
    pub col_advice_3: AdviceColumn,
    pub col_selector_1: Selector,
    pub col_instance_1: InstanceColumn,
}

impl FibonacciConfig {
    /// The columns in the roles they play in the addition gate.
    pub open spec fn columns(self) -> Columns {
        Columns {
            a: self.col_advice_1,
            b: self.col_advice_2,
            c: self.col_advice_3,
            selector: self.col_selector_1,
            instance: self.col_instance_1,
        }
    }

    /// The columns that a registry without earlier declarations hands out.
    pub open spec fn standard() -> FibonacciConfig {
        FibonacciConfig {
            col_advice_1: AdviceColumn { index: 0 },
            col_advice_2: AdviceColumn { index: 1 },
            col_advice_3: AdviceColumn { index: 2 },
            col_selector_1: Selector { index: 0 },
            col_instance_1: InstanceColumn { index: 0 },
        }
    }

    fn as_columns(&self) -> (r: Columns)
        ensures
            r == self.columns(),
    {
        Columns {
            a: self.col_advice_1,
            b: self.col_advice_2,
            c: self.col_advice_3,
            selector: self.col_selector_1,
            instance: self.col_instance_1,
        }
    }
}

/// The term with index `n`, as far as the two seeds are known to the table.
pub open spec fn term(layout: Layout, config: FibonacciConfig, n: nat) -> Option<nat> {
    match (
        layout.instance_value(config.col_instance_1, 0),
        layout.instance_value(config.col_instance_1, 1),
    ) {
        (Some(f0), Some(f1)) => Some(fib(f0, f1, n)),
        _ => None,
    }
}

/// The table after the first row: a fresh region of one row with its gate
/// on, the two seeds taken from the public inputs and their sum.
pub open spec fn first_row(layout: Layout, config: FibonacciConfig) -> Layout {
    layout.begin_region("First Row"@).enable(config.col_selector_1, 0).assign_from_instance(
        config.col_instance_1,
        0,
        config.col_advice_1,
        0,
    ).assign_from_instance(config.col_instance_1, 1, config.col_advice_2, 0).assign(
        config.col_advice_3,
        0,
        value_add(
            layout.instance_value(config.col_instance_1, 0),
            layout.instance_value(config.col_instance_1, 1),
        ),
    )
}

/// Why the first row is refused, if it is: a seed is missing from the public
/// inputs, or else two of the three advice columns are the same.
pub open spec fn first_row_error(layout: Layout, config: FibonacciConfig) -> Option<Error> {
    if !layout.has_instance(config.col_instance_1, 0) || !layout.has_instance(
        config.col_instance_1,
        1,
    ) {
        Some(Error::CellNotFound)
    } else if !config.columns().distinct() {
        Some(Error::CellAlreadyAssigned)
    } else {
        None
    }
}

/// Whether `cell` lies in one of the `n` rows from `base` on, in one of the
/// three advice columns.
pub open spec fn in_rows(config: FibonacciConfig, base: nat, n: nat, cell: Cell) -> bool {
    &&& base <= cell.row < base + n
    &&& (cell.column == config.col_advice_1 || cell.column == config.col_advice_2 || cell.column
        == config.col_advice_3)
}

/// Index of the term that a cell of the rows from `base` on holds: row `i`
/// holds terms `i`, `i + 1` and `i + 2`.
pub open spec fn term_index(config: FibonacciConfig, base: nat, cell: Cell) -> nat {
    let i = (cell.row - base) as nat;
    if cell.column == config.col_advice_1 {
        i
    } else if cell.column == config.col_advice_2 {
        i + 1
    } else {
        i + 2
    }
}

/// The `k`-th copy constraint of the rows from `base` on: row `i + 1` takes
/// its first cell from the second of row `i`, and its second from the third.
pub open spec fn row_copy(config: FibonacciConfig, base: nat, k: int) -> CopyConstraint {
    let i = k / 2;
    if k % 2 == 0 {
        CopyConstraint {
            left: Cell { column: config.col_advice_2, row: (base + i) as usize },
            right: Cell { column: config.col_advice_1, row: (base + i + 1) as usize },
        }
    } else {
        CopyConstraint {
            left: Cell { column: config.col_advice_3, row: (base + i) as usize },
            right: Cell { column: config.col_advice_2, row: (base + i + 1) as usize },
        }
    }
}

/// The bindings of the two seeds in the row at `base`.
pub open spec fn seed_bindings(config: FibonacciConfig, base: nat) -> Seq<Binding> {
    seq![
        Binding {
            cell: Cell { column: config.col_advice_1, row: base as usize },
            column: config.col_instance_1,
            row: 0,
        },
        Binding {
            cell: Cell { column: config.col_advice_2, row: base as usize },
            column: config.col_instance_1,
            row: 1,
        },
    ]
}

/// The binding of the last sum to the target.
pub open spec fn target_binding(config: FibonacciConfig, base: nat) -> Binding {
    Binding {
        cell: Cell { column: config.col_advice_3, row: (base + ROWS - 1) as usize },
        column: config.col_instance_1,
        row: TARGET,
    }
}

/// Label and first row of the `i`-th region.
pub open spec fn row_region(base: nat, i: int) -> (Seq<char>, usize) {
    (
        if i == 0 {
            "First Row"@
        } else {
            "Next Row"@
        },
        (base + i) as usize,
    )
}

/// The table after the first `n` rows of the relation are added to
/// `layout`: row `i` holds terms `i`, `i + 1` and `i + 2` with its gate on,
/// each row but the first copies two cells of the row before, and the seeds
/// are bound to the first two public inputs.
pub open spec fn rows_layout(layout: Layout, config: FibonacciConfig, n: nat) -> Layout {
    Layout {
        instance: layout.instance,
        cells: Map::new(
            |c: Cell| layout.cells.contains_key(c) || in_rows(config, layout.rows, n, c),
            |c: Cell|
                if in_rows(config, layout.rows, n, c) {
                    term(layout, config, term_index(config, layout.rows, c))
                } else {
                    layout.cells[c]
                },
        ),
        enabled: Set::new(
            |p: (Selector, usize)|
                layout.enabled.contains(p) || (p.0 == config.col_selector_1 && layout.rows <= p.1
                    < layout.rows + n),
        ),
        copies: layout.copies + Seq::new(
            (2 * (n - 1)) as nat,
            |k: int| row_copy(config, layout.rows, k),
        ),
        bindings: layout.bindings + seed_bindings(config, layout.rows),
        regions: layout.regions + Seq::new(n, |i: int| row_region(layout.rows, i)),
        start: (layout.rows + n - 1) as nat,
        rows: layout.rows + n,
    }
}

/// The table after the whole relation is added to `layout`: all its rows,
/// and the last sum bound to the target.
pub open spec fn synthesized(layout: Layout, config: FibonacciConfig) -> Layout {
    Layout {
        bindings: rows_layout(layout, config, ROWS as nat).bindings.push(
            target_binding(config, layout.rows),
        ),
        ..rows_layout(layout, config, ROWS as nat)
    }
}

/// Why the relation cannot be laid out, if it cannot: a seed is missing
/// from the public inputs, or else two of the three advice columns are the
/// same, or else the target is missing.
pub open spec fn synthesis_error(layout: Layout, config: FibonacciConfig) -> Option<Error> {
    if first_row_error(layout, config) is Some {
        first_row_error(layout, config)
    } else if !layout.has_instance(config.col_instance_1, TARGET) {
        Some(Error::CellNotFound)
    } else {
        None
    }
}

/// The table that the relation is checked on: laid out from nothing on the
/// standard columns, with these public inputs.
pub open spec fn table(instance: Seq<Seq<nat>>) -> Layout {
    synthesized(Layout::empty(Some(instance)), FibonacciConfig::standard())
}

/// Whether a registry holds exactly what the relation declares.
pub open spec fn is_configured(cs: ConstraintSystem) -> bool {
    &&& cs.num_advice_columns == 3
    &&& cs.num_selectors == 1
    &&& cs.num_instance_columns == 1
    &&& cs.equality@ == seq![
        Column::Advice(AdviceColumn { index: 0 }),
        Column::Advice(AdviceColumn { index: 1 }),
        Column::Advice(AdviceColumn { index: 2 }),
        Column::Instance(InstanceColumn { index: 0 }),
    ]
    &&& is_addition_gate(cs.gates@, FibonacciConfig::standard().columns())
    &&& cs.gates@[0].name@ == "add"@
}

/// The first row is the table of one row, and its cells hold the first
/// three terms.
proof fn lemma_first_row(layout: Layout, config: FibonacciConfig)
    requires
        layout.wf(),
        layout.rows < usize::MAX,
        first_row_error(layout, config) is None,
    ensures
        first_row(layout, config) == rows_layout(layout, config, 1),
        layout.instance_value(config.col_instance_1, 0) == term(layout, config, 0),
        layout.instance_value(config.col_instance_1, 1) == term(layout, config, 1),
        value_add(
            layout.instance_value(config.col_instance_1, 0),
            layout.instance_value(config.col_instance_1, 1),
        ) == term(layout, config, 2),
{
    reveal_with_fuel(fib, 3);
    let a = first_row(layout, config);
    let b = rows_layout(layout, config, 1);
    let row = layout.rows as usize;
    let c1 = Cell { column: config.col_advice_1, row };
    let c2 = Cell { column: config.col_advice_2, row };
    let c3 = Cell { column: config.col_advice_3, row };
    assert(a.cells == layout.cells.insert(c1, term(layout, config, 0)).insert(
        c2,
        term(layout, config, 1),
    ).insert(c3, term(layout, config, 2)));
    assert forall|c: Cell| a.cells.contains_key(c) <==> b.cells.contains_key(c) by {
        if in_rows(config, layout.rows, 1, c) {
            assert(c == c1 || c == c2 || c == c3);
        }
    }
    assert forall|c: Cell| a.cells.contains_key(c) implies a.cells[c] == b.cells[c] by {
        if c == c1 || c == c2 || c == c3 {
            assert(in_rows(config, layout.rows, 1, c));
        } else {
            assert(!in_rows(config, layout.rows, 1, c));
        }
    }
    assert(a.cells =~= b.cells);
    assert(a.enabled =~= b.enabled);
    assert(a.copies =~= b.copies);
    assert(a.bindings =~= b.bindings);
    assert(a.regions =~= b.regions);
}

/// A further row extends the table of `n` rows to that of `n + 1`, and is
/// not refused.
proof fn lemma_next_row(
    layout: Layout,
    config: FibonacciConfig,
    n: nat,
    lhs: AssignedCell,
    rhs: AssignedCell,
)
    requires
        layout.wf(),
        1 <= n,
        layout.rows + n < usize::MAX,
        first_row_error(layout, config) is None,
        lhs.cell == (Cell { column: config.col_advice_2, row: (layout.rows + n - 1) as usize }),
        rhs.cell == (Cell { column: config.col_advice_3, row: (layout.rows + n - 1) as usize }),
        lhs.value@ == term(layout, config, n),
        rhs.value@ == term(layout, config, n + 1),
    ensures
        sum_row_error(rows_layout(layout, config, n), config.columns(), lhs.cell, rhs.cell)
            is None,
        sum_row(rows_layout(layout, config, n), config.columns(), "Next Row"@, lhs, rhs)
            == rows_layout(layout, config, n + 1),
        value_add(lhs.value@, rhs.value@) == term(layout, config, n + 2),
{
    let before = rows_layout(layout, config, n);
    let a = sum_row(before, config.columns(), "Next Row"@, lhs, rhs);
    let b = rows_layout(layout, config, n + 1);
    assert(in_rows(config, layout.rows, n, lhs.cell));
    assert(in_rows(config, layout.rows, n, rhs.cell));
    let row = (layout.rows + n) as usize;
    let c1 = Cell { column: config.col_advice_1, row };
    let c2 = Cell { column: config.col_advice_2, row };
    let c3 = Cell { column: config.col_advice_3, row };
    assert(value_add(lhs.value@, rhs.value@) == term(layout, config, n + 2));
    assert(a.cells == before.cells.insert(c1, lhs.value@).insert(c2, rhs.value@).insert(
        c3,
        term(layout, config, n + 2),
    ));
    assert forall|c: Cell| a.cells.contains_key(c) <==> b.cells.contains_key(c) by {
        if in_rows(config, layout.rows, n + 1, c) && !in_rows(config, layout.rows, n, c) {
            assert(c == c1 || c == c2 || c == c3);
        }
    }
    assert forall|c: Cell| a.cells.contains_key(c) implies a.cells[c] == b.cells[c] by {
        if c == c1 || c == c2 || c == c3 {
            assert(in_rows(config, layout.rows, n + 1, c));
        } else if in_rows(config, layout.rows, n, c) {
            assert(in_rows(config, layout.rows, n + 1, c));
        } else {
            assert(!in_rows(config, layout.rows, n + 1, c));
        }
    }
    assert(a.cells =~= b.cells);
    assert(a.enabled =~= b.enabled);
    assert(a.copies =~= b.copies) by {
        let old_copies = Seq::new((2 * (n - 1)) as nat, |k: int| row_copy(config, layout.rows, k));
        let new_copies = Seq::new((2 * n) as nat, |k: int| row_copy(config, layout.rows, k));
        assert(new_copies =~= old_copies.push(row_copy(config, layout.rows, 2 * (n - 1))).push(
            row_copy(config, layout.rows, 2 * (n - 1) + 1),
        ));
    }
    assert(a.bindings =~= b.bindings);
    assert(a.regions =~= b.regions);
}

/// The chip that lays the relation out row by row.
#[derive(Clone, Copy, Debug, PartialEq, Eq, Structural)]
pub struct FibonacciChip {
    pub config: FibonacciConfig,
}

impl FibonacciChip {
    /// A chip over the columns of `config`.
    pub fn construct(config: &FibonacciConfig) -> (r: FibonacciChip)
        ensures
            r.config == *config,
    {
        FibonacciChip { config: *config }
    }

    /// Declares the columns of the relation and its gate, which demands on
    /// each row where the selector is on that the third advice cell is the
    /// sum of the first two.
    pub fn configure(meta: &mut ConstraintSystem) -> (r: FibonacciConfig)
        requires
            old(meta).num_advice_columns + 3 <= usize::MAX,
            old(meta).num_selectors < usize::MAX,
            old(meta).num_instance_columns < usize::MAX,
        ensures
            declared(*old(meta), *final(meta), r.columns()),
            r.columns().distinct(),
    {
        let columns = declare(meta);
        FibonacciConfig {
            col_advice_1: columns.a,
            col_advice_2: columns.b,
            col_advice_3: columns.c,
            col_selector_1: columns.selector,
            col_instance_1: columns.instance,
        }
    }

    /// Lays out the first row and returns its three cells: the two seeds,
    /// each bound to its public input, and their sum.
    pub fn assign_first_row(&self, layouter: &mut Layouter) -> (r: Result<
        (AssignedCell, AssignedCell, AssignedCell),
        Error,
    >)
        requires
            old(layouter)@.rows < usize::MAX,
        ensures
            old(layouter)@.wf(),
            final(layouter)@.wf(),
            r is Err <==> first_row_error(old(layouter)@, self.config) is Some,
            r matches Err(e) ==> Some(e) == first_row_error(old(layouter)@, self.config),
            r matches Ok(cells) ==> {
                &&& final(layouter)@ == first_row(old(layouter)@, self.config)
                &&& cells.0.cell == (Cell {
                    column: self.config.col_advice_1,
                    row: old(layouter)@.rows as usize,
                })
                &&& cells.1.cell == (Cell {
                    column: self.config.col_advice_2,
                    row: old(layouter)@.rows as usize,
                })
                &&& cells.2.cell == (Cell {
                    column: self.config.col_advice_3,
                    row: old(layouter)@.rows as usize,
                })
                &&& cells.0.value@ == old(layouter)@.instance_value(self.config.col_instance_1, 0)
                &&& cells.1.value@ == old(layouter)@.instance_value(self.config.col_instance_1, 1)
                &&& cells.2.value@ == value_add(cells.0.value@, cells.1.value@)
            },
    {
        layouter.assign_region("First Row");
        layouter.enable_selector(self.config.col_selector_1, 0);
        let col1_row0 = match layouter.assign_advice_from_instance(
            self.config.col_instance_1,
            0,
            self.config.col_advice_1,
            0,
        ) {
            Ok(cell) => cell,
            Err(e) => {
                return Err(e);
            },
        };
        let col2_row0 = match layouter.assign_advice_from_instance(
            self.config.col_instance_1,
            1,
            self.config.col_advice_2,
            0,
        ) {
            Ok(cell) => cell,
            Err(e) => {
                return Err(e);
            },
        };
        let sum = col1_row0.value().add(&col2_row0.value());
        let col3_row0 = match layouter.assign_advice(self.config.col_advice_3, 0, sum) {
            Ok(cell) => cell,
            Err(e) => {
                return Err(e);
            },
        };
        Ok((col1_row0, col2_row0, col3_row0))
    }

    /// Lays out a further row from the second and third cell of the row
    /// before: both are copied, one column to the left, and the third cell
    /// holds their sum, which is returned.
    pub fn assign_row(
        &self,
        layouter: &mut Layouter,
        col2_row_previous: &AssignedCell,
        col3_row_previous: &AssignedCell,
    ) -> (r: Result<AssignedCell, Error>)
        requires
            old(layouter)@.rows < usize::MAX,
        ensures
            old(layouter)@.wf(),
            final(layouter)@.wf(),
            r is Err <==> sum_row_error(
                old(layouter)@,
                self.config.columns(),
                col2_row_previous.cell,
                col3_row_previous.cell,
            ) is Some,
            r matches Err(e) ==> Some(e) == sum_row_error(
                old(layouter)@,
                self.config.columns(),
                col2_row_previous.cell,
                col3_row_previous.cell,
            ),
            r matches Ok(out) ==> {
                &&& out.cell == (Cell {
                    column: self.config.col_advice_3,
                    row: old(layouter)@.rows as usize,
                })
                &&& out.value@ == value_add(col2_row_previous.value@, col3_row_previous.value@)
                &&& final(layouter)@ == sum_row(
                    old(layouter)@,
                    self.config.columns(),
                    "Next Row"@,
                    *col2_row_previous,
                    *col3_row_previous,
                )
            },
    {
        let columns = self.config.as_columns();
        assign_sum(&columns, layouter, "Next Row", col2_row_previous, col3_row_previous)
    }
}

/// The relation as a circuit. It has no private inputs: every cell follows
/// from the public seeds.
#[derive(Clone, Copy, Debug, PartialEq, Eq, Structural)]
pub struct MyCircuit {}

impl MyCircuit {
    /// The circuit with its private inputs left out, which is the circuit itself.
    pub fn without_witnesses(&self) -> (r: MyCircuit)
        ensures
            r == *self,
    {
        MyCircuit {  }
    }

    /// Declares the columns of the relation and its gate.
    pub fn configure(meta: &mut ConstraintSystem) -> (r: FibonacciConfig)
        requires
            old(meta).num_advice_columns + 3 <= usize::MAX,
            old(meta).num_selectors < usize::MAX,
            old(meta).num_instance_columns < usize::MAX,
        ensures
            declared(*old(meta), *final(meta), r.columns()),
            r.columns().distinct(),
    {
        FibonacciChip::configure(meta)
    }

    /// Lays the relation out below what the table holds: the first row, then
    /// seven rows that each continue the one before, and the binding of the
    /// last sum to the target.
    pub fn synthesize(&self, config: FibonacciConfig, layouter: &mut Layouter) -> (r: Result<
        (),
        Error,
    >)
        requires
            old(layouter)@.rows + ROWS <= usize::MAX,
        ensures
            old(layouter)@.wf(),
            final(layouter)@.wf(),
            r is Err <==> synthesis_error(old(layouter)@, config) is Some,
            r matches Err(e) ==> Some(e) == synthesis_error(old(layouter)@, config),
            r is Ok ==> final(layouter)@ == synthesized(old(layouter)@, config),
    {
        let ghost start = layouter@;
        let chip = FibonacciChip::construct(&config);
        let (_, mut prev_col_advice_2, mut prev_col_advice_3) = match chip.assign_first_row(
            layouter,
        ) {
            Ok(cells) => cells,
            Err(e) => {
                return Err(e);
            },
        };
        proof {
            lemma_first_row(start, config);
        }
        let mut i: usize = 1;
        while i < ROWS
            invariant
                1 <= i <= ROWS,
                chip.config == config,
                start.wf(),
                start.rows + ROWS <= usize::MAX,
                first_row_error(start, config) is None,
                layouter@ == rows_layout(start, config, i as nat),
                layouter@.wf(),
                prev_col_advice_2.cell == (Cell {
                    column: config.col_advice_2,
                    row: (start.rows + i - 1) as usize,
                }),
                prev_col_advice_3.cell == (Cell {
                    column: config.col_advice_3,
                    row: (start.rows + i - 1) as usize,
                }),
                prev_col_advice_2.value@ == term(start, config, i as nat),
                prev_col_advice_3.value@ == term(start, config, (i + 1) as nat),
            decreases ROWS - i,
        {
            proof {
                lemma_next_row(start, config, i as nat, prev_col_advice_2, prev_col_advice_3);
            }
            let current_col_advice_3 = match chip.assign_row(
                layouter,
                &prev_col_advice_2,
                &prev_col_advice_3,
            ) {
                Ok(cell) => cell,
                Err(e) => {
                    return Err(e);
                },
            };
            prev_col_advice_2 =
            AssignedCell {
                cell: Cell { column: config.col_advice_2, row: current_col_advice_3.cell().row },
                value: prev_col_advice_3.value(),
            };
            prev_col_advice_3 = current_col_advice_3;
            i += 1;
        }
        proof {
            assert(in_rows(config, start.rows, ROWS as nat, prev_col_advice_3.cell));
        }
        match layouter.constrain_instance(prev_col_advice_3.cell(), config.col_instance_1, TARGET) {
            Ok(_) => Ok(()),
            Err(e) => Err(e),
        }
    }

    /// Builds the relation from nothing on the public inputs `instance`,
    /// one vector per instance column, ready to be checked. The relation
    /// has one instance column of three inputs: the two seeds and the
    /// target. Inputs of another shape are refused as they are.
    pub fn mock_prover(&self, instance: Vec<Vec<Fp>>) -> (r: Result<MockProver, Error>)
        ensures
            r is Ok <==> instance@.len() == 1 && instance@[0]@.len() == 3,
            r matches Err(e) ==> e == Error::InvalidInstances,
            r matches Ok(prover) ==> is_configured(prover.cs) && prover.layouter@ == table(
                instance_view(Some(instance))->0,
            ),
    {
        if instance.len() != 1 || instance[0].len() != 3 {
            return Err(Error::InvalidInstances);
        }
        let mut cs = ConstraintSystem::new();
        let config = MyCircuit::configure(&mut cs);
        proof {
            let e0 = Seq::<Column>::empty();
            let e1 = with_equality(e0, Column::Advice(config.col_advice_1));
            let e2 = with_equality(e1, Column::Advice(config.col_advice_2));
            let e3 = with_equality(e2, Column::Advice(config.col_advice_3));
            let e4 = with_equality(e3, Column::Instance(config.col_instance_1));
            assert(e1 =~= seq![Column::Advice(config.col_advice_1)]);
            assert(e2 =~= e1.push(Column::Advice(config.col_advice_2)));
            assert(e3 =~= e2.push(Column::Advice(config.col_advice_3)));
            assert(e4 =~= e3.push(Column::Instance(config.col_instance_1)));
            assert(config == FibonacciConfig::standard());
            assert(cs.equality@ =~= e4);
            assert(cs.gates@[0] == cs.gates@.last());
            assert(cs.equality@ == seq![
                Column::Advice(AdviceColumn { index: 0 }),
                Column::Advice(AdviceColumn { index: 1 }),
                Column::Advice(AdviceColumn { index: 2 }),
                Column::Instance(InstanceColumn { index: 0 }),
            ]);
        }
        let mut layouter = Layouter::new(Some(instance));
        proof {
            assert(synthesis_error(layouter@, config) is None);
        }
        match self.synthesize(config, &mut layouter) {
            Ok(_) => Ok(MockProver::new(cs, layouter)),
            Err(_) => Err(Error::InvalidInstances),
        }
    }
}

/// The relation is satisfied exactly by the right target: on public inputs
/// `f0`, `f1` and a target, the check of the table passes if the target is
/// the term with index 9 of the sequence that `f0` and `f1` start, and
/// otherwise reports one failure, the binding of the last sum to the target.
pub proof fn lemma_satisfied_iff_target(gates: Seq<Gate>, instance: Seq<Seq<nat>>)
    requires
        is_addition_gate(gates, FibonacciConfig::standard().columns()),
        instance.len() == 1,
        instance[0].len() == 3,
    ensures
        failures(gates, table(instance)) == if instance[0][2] == fib(
            instance[0][0],
            instance[0][1],
            9,
        ) {
            Seq::<VerifyFailure>::empty()
        } else {
            seq![
                VerifyFailure::Instance {
                    cell: Cell { column: AdviceColumn { index: 2 }, row: 7 },
                    column: InstanceColumn { index: 0 },
                    row: 2,
                },
            ]
        },
{
    let config = FibonacciConfig::standard();
    let columns = config.columns();
    let start = Layout::empty(Some(instance));
    let layout = table(instance);
    let f0 = instance[0][0];
    let f1 = instance[0][1];
    assert forall|n: nat| term(start, config, n) == Some(fib(f0, f1, n)) by {}
    assert forall|g: int, row: usize| 0 <= g < 1 && row < layout.rows implies #[trigger] gate_holds(
        gates[g],
        layout,
        row,
    ) by {
        let a = Cell { column: columns.a, row };
        let b = Cell { column: columns.b, row };
        let c = Cell { column: columns.c, row };
        assert(in_rows(config, 0, ROWS as nat, a));
        assert(in_rows(config, 0, ROWS as nat, b));
        assert(in_rows(config, 0, ROWS as nat, c));
        lemma_vanishes(layout, columns, row, fib(f0, f1, row as nat), fib(f0, f1, (row + 1) as nat));
    }
    lemma_gates_hold(gates, layout, 1);
    assert forall|k: int| 0 <= k < layout.copies.len() implies copy_check(layout)(
        #[trigger] layout.copies[k],
    ) is None by {
        let copy = layout.copies[k];
        assert(copy == row_copy(config, 0, k));
        assert(in_rows(config, 0, ROWS as nat, copy.left));
        assert(in_rows(config, 0, ROWS as nat, copy.right));
        assert(copy_holds(layout, copy));
    }
    lemma_filter_map_none(layout.copies, copy_check(layout));
    let last = target_binding(config, 0);
    assert(layout.bindings =~= seq![seed_bindings(config, 0)[0], seed_bindings(config, 0)[1], last]);
    assert(in_rows(config, 0, ROWS as nat, layout.bindings[0].cell));
    assert(in_rows(config, 0, ROWS as nat, layout.bindings[1].cell));
    assert(in_rows(config, 0, ROWS as nat, last.cell));
    assert(binding_holds(layout, layout.bindings[0]));
    assert(binding_holds(layout, layout.bindings[1]));
    assert(binding_holds(layout, last) <==> instance[0][2] == fib(f0, f1, 9));
    lemma_filter_map_last(layout.bindings, binding_check(layout));
}

/// The shape of the relation does not depend on the public inputs: a pass
/// without them opens the same regions, writes the same cells, switches the
/// same selectors on and makes the same copies and bindings as a pass with
/// them. Only the values differ, which are all unknown without inputs.
pub proof fn lemma_shape_without_inputs(config: FibonacciConfig, instance: Seq<Seq<nat>>)
    ensures
        ({
            let dry = synthesized(Layout::empty(None), config);
            let full = synthesized(Layout::empty(Some(instance)), config);
            &&& dry.rows == full.rows
            &&& dry.regions == full.regions
            &&& dry.enabled == full.enabled
            &&& dry.copies == full.copies
            &&& dry.bindings == full.bindings
            &&& dry.cells.dom() == full.cells.dom()
            &&& forall|c: Cell| dry.cells.contains_key(c) ==> dry.cells[c] is None
        }),
{
    let dry = synthesized(Layout::empty(None), config);
    let full = synthesized(Layout::empty(Some(instance)), config);
    assert(dry.regions =~= full.regions);
    assert(dry.enabled =~= full.enabled);
    assert(dry.copies =~= full.copies);
    assert(dry.bindings =~= full.bindings);
    assert(dry.cells.dom() =~= full.cells.dom());
}

} // verus!
