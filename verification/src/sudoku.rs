//! The grid relation: the sums of the nine lines, the nine columns and the
//! nine blocks of a 9×9 grid are public, the grid itself is private.
//!
//! The relation checks sums and nothing else. It does not demand that the
//! entries of a group are the digits 1 to 9, nor that they differ: a grid
//! with repeated entries passes as soon as its groups have the public sums.

use crate::addition::assign_sum;
use crate::addition::declare;
use crate::addition::declared;
use crate::addition::is_addition_gate;
use crate::addition::lemma_vanishes;
use crate::addition::sum_row;
use crate::addition::sum_row_error;
use crate::addition::Columns;
use crate::circuit::instance_view;
use crate::circuit::value_add;
use crate::circuit::AssignedCell;
use crate::circuit::Binding;
use crate::circuit::Cell;
use crate::circuit::CopyConstraint;
use crate::circuit::Layout;
use crate::circuit::Layouter;
use crate::circuit::Value;
use crate::dev::binding_check;
use crate::dev::binding_holds;
use crate::dev::copy_check;
use crate::dev::copy_holds;
use crate::dev::failures;
use crate::dev::gate_holds;
use crate::dev::lemma_filter_map_none;
use crate::dev::lemma_filter_map_some;
use crate::dev::lemma_gates_hold;
use crate::dev::MockProver;
use crate::dev::VerifyFailure;
use crate::field::field_add;
use crate::field::modulus;
use crate::field::Fp;
use crate::plonk::with_equality;
use crate::plonk::AdviceColumn;
use crate::plonk::Column;
use crate::plonk::ConstraintSystem;
use crate::plonk::Error;
use crate::plonk::Gate;
use crate::plonk::InstanceColumn;
use crate::plonk::Selector;
use vstd::prelude::*;

verus! {

/// Number of entries of a group, and of groups of a kind.
pub const SIZE: usize = 9;

/// Number of rows that hold the grid.
pub const GRID_ROWS: usize = 81;

/// Number of rows that the three groups with one index take: three
/// accumulators that start at zero, then nine additions each.
pub const GROUP_ROWS: usize = 30;

/// Number of rows of the relation.
pub const ROWS: usize = 351;

/// Number of public inputs: one sum for each group.
pub const SUMS: usize = 27;

/// The entry of the grid at a line and a column.
pub open spec fn digit(grid: [[u8; 9]; 9], line: int, column: int) -> nat {
    grid[line][column] as nat
}

/// Line and column of the entry with index `step` of a group. A group is
/// given by its kind, 0 for a line, 1 for a column and 2 for a 3×3 block,
/// and by its index among the nine groups of its kind.
pub open spec fn member(kind: int, group: int, step: int) -> (int, int) {
    if kind == 0 {
        (group, step)
    } else if kind == 1 {
        (step, group)
    } else {
        ((group / 3) * 3 + step / 3, (group % 3) * 3 + step % 3)
    }
}

/// The entry with index `step` of a group.
pub open spec fn member_digit(grid: [[u8; 9]; 9], kind: int, group: int, step: int) -> nat {
    digit(grid, member(kind, group, step).0, member(kind, group, step).1)
}

/// The sum of the first `n` entries of a group, as a natural number.
pub open spec fn sum_of(grid: [[u8; 9]; 9], kind: int, group: int, n: nat) -> nat
    decreases n,
{
    if n == 0 {
        0
    } else {
        sum_of(grid, kind, group, (n - 1) as nat) + member_digit(grid, kind, group, n - 1)
    }
}

/// Index of the public input that the sum of a group is bound to: the nine
/// line sums come first, then the nine column sums, then the nine block sums.
pub open spec fn sum_index(kind: int, group: int) -> int {
    9 * kind + group
}

/// What a row of the relation is for.
pub enum Row {
    /// Holds the entry of the grid at `line` and `column`.
    Digit { line: int, column: int },
    /// Holds the zero that the accumulator of a group starts from.
    Start { kind: int, group: int },
    /// Adds the entry with index `step` of a group to its accumulator.
    Add { kind: int, group: int, step: int },
}

/// What the row with index `t` among the rows of the relation is for: the
/// grid comes first, line by line; then, for each group index, the three
/// starting rows of its line, column and block, and nine times three
/// additions, one for each of the three in turn.
#[verifier::opaque]
pub open spec fn row_at(t: int) -> Row {
    if t < 81 {
        Row::Digit { line: t / 9, column: t % 9 }
    } else {
        let u = t - 81;
        let v = u % 30;
        if v < 3 {
            Row::Start { kind: v, group: u / 30 }
        } else {
            Row::Add { kind: (v - 3) % 3, group: u / 30, step: (v - 3) / 3 }
        }
    }
}

/// Index of the row that holds an entry of the grid.
pub open spec fn digit_row(line: int, column: int) -> int {
    9 * line + column
}

/// Index of the row on which the accumulator of a group starts.
pub open spec fn start_row(kind: int, group: int) -> int {
    81 + 30 * group + kind
}

/// Index of the row that adds the entry with index `step` of a group.
pub open spec fn add_row(kind: int, group: int, step: int) -> int {
    81 + 30 * group + 3 + 3 * step + kind
}

/// The columns of the relation.
#[derive(Clone, Copy, Debug, PartialEq, Eq, Structural)]
pub struct SudokuConfig {
    pub col_advice_1: AdviceColumn,
    pub col_advice_2: AdviceColumn,
    pub col_advice_3: AdviceColumn,
    pub col_selector_1: Selector,
    pub col_instance_1: InstanceColumn,
}

impl SudokuConfig {
    /// The columns in the roles they play in the addition gate.
    pub open spec fn columns(self) -> Columns {
        Columns {
            a: self.col_advice_1,
            b: self.col_advice_2,
            c: self.col_advice_3,
            selector: self.col_selector_1,
            instance: self.col_instance_1,
        }
    }

    /// The columns that a registry without earlier declarations hands out.
    pub open spec fn standard() -> SudokuConfig {
        SudokuConfig {
            col_advice_1: AdviceColumn { index: 0 },
            col_advice_2: AdviceColumn { index: 1 },
            col_advice_3: AdviceColumn { index: 2 },
            col_selector_1: Selector { index: 0 },
            col_instance_1: InstanceColumn { index: 0 },
        }
    }

    fn as_columns(&self) -> (r: Columns)
        ensures
            r == self.columns(),
    {
        Columns {
            a: self.col_advice_1,
            b: self.col_advice_2,
            c: self.col_advice_3,
            selector: self.col_selector_1,
            instance: self.col_instance_1,
        }
    }
}

/// Whether `cell` is written in one of the first `n` rows of the relation,
/// which start at `base`: a row of the grid and a starting row use the
/// first advice column, an addition row all three.
pub open spec fn written(config: SudokuConfig, base: nat, n: nat, cell: Cell) -> bool {
    &&& base <= cell.row < base + n
    &&& match row_at(cell.row - base) {
        Row::Add { .. } => cell.column == config.col_advice_1 || cell.column
            == config.col_advice_2 || cell.column == config.col_advice_3,
        _ => cell.column == config.col_advice_1,
    }
}

/// What a cell of the relation holds: an entry, a zero, or, on an addition
/// row, the sum so far, the entry that is added and the sum with it.
pub open spec fn content(config: SudokuConfig, grid: [[u8; 9]; 9], base: nat, cell: Cell) -> nat {
    match row_at(cell.row - base) {
        Row::Digit { line, column } => digit(grid, line, column),
        Row::Start { .. } => 0,
        Row::Add { kind, group, step } => if cell.column == config.col_advice_1 {
            sum_of(grid, kind, group, step as nat)
        } else if cell.column == config.col_advice_2 {
            member_digit(grid, kind, group, step)
        } else {
            sum_of(grid, kind, group, (step + 1) as nat)
        },
    }
}

/// The cell that holds the sum of the first `step` entries of a group: its
/// starting cell, or the third cell of the addition row before.
pub open spec fn sum_cell(config: SudokuConfig, base: nat, kind: int, group: int, step: int) -> Cell {
    if step == 0 {
        Cell { column: config.col_advice_1, row: (base + start_row(kind, group)) as usize }
    } else {
        Cell { column: config.col_advice_3, row: (base + add_row(kind, group, step - 1)) as usize }
    }
}

/// The cell that holds the entry with index `step` of a group.
pub open spec fn entry_cell(config: SudokuConfig, base: nat, kind: int, group: int, step: int) -> Cell {
    Cell {
        column: config.col_advice_1,
        row: (base + digit_row(member(kind, group, step).0, member(kind, group, step).1)) as usize,
    }
}

/// The copy constraint with index `x`: the addition with index `x / 2`, in
/// the order of the rows, copies first the sum so far and then the entry.
#[verifier::opaque]
pub open spec fn copy_at(config: SudokuConfig, base: nat, x: int) -> CopyConstraint {
    let q = x / 2;
    let group = q / 27;
    let step = (q % 27) / 3;
    let kind = q % 3;
    let row = (base + add_row(kind, group, step)) as usize;
    if x % 2 == 0 {
        CopyConstraint {
            left: sum_cell(config, base, kind, group, step),
            right: Cell { column: config.col_advice_1, row },
        }
    } else {
        CopyConstraint {
            left: entry_cell(config, base, kind, group, step),
            right: Cell { column: config.col_advice_2, row },
        }
    }
}

/// The binding with index `y`: for each group index in turn, the sums of
/// its line, its column and its block are bound.
#[verifier::opaque]
pub open spec fn binding_at(config: SudokuConfig, base: nat, y: int) -> Binding {
    let group = y / 3;
    let kind = y % 3;
    Binding {
        cell: sum_cell(config, base, kind, group, 9),
        column: config.col_instance_1,
        row: sum_index(kind, group) as usize,
    }
}

/// Label and first row of the region with index `t`.
pub open spec fn region_at(base: nat, t: int) -> (Seq<char>, usize) {
    (
        match row_at(t) {
            Row::Digit { .. } => "sudoku_cell"@,
            Row::Start { .. } => "lhs init"@,
            Row::Add { .. } => "Next Row"@,
        },
        (base + t) as usize,
    )
}

/// The table after the first `rows` rows of the relation are added to
/// `layout`, with the first `bindings` bindings. Each row is a region of
/// its own; an addition row has its gate on.
#[verifier::opaque]
pub open spec fn partial(
    layout: Layout,
    config: SudokuConfig,
    grid: [[u8; 9]; 9],
    rows: nat,
    additions: nat,
    bindings: nat,
) -> Layout {
    Layout {
        instance: layout.instance,
        cells: Map::new(
            |c: Cell| layout.cells.contains_key(c) || written(config, layout.rows, rows, c),
            |c: Cell|
                if written(config, layout.rows, rows, c) {
                    Some(content(config, grid, layout.rows, c))
                } else {
                    layout.cells[c]
                },
        ),
        enabled: Set::new(
            |p: (Selector, usize)|
                layout.enabled.contains(p) || (p.0 == config.col_selector_1 && layout.rows <= p.1
                    < layout.rows + rows && row_at(p.1 - layout.rows) is Add),
        ),
        copies: layout.copies + Seq::new(
            2 * additions,
            |x: int| copy_at(config, layout.rows, x),
        ),
        bindings: layout.bindings + Seq::new(bindings, |y: int| binding_at(config, layout.rows, y)),
        regions: layout.regions + Seq::new(rows, |t: int| region_at(layout.rows, t)),
        start: if rows == 0 {
            layout.start
        } else {
            (layout.rows + rows - 1) as nat
        },
        rows: layout.rows + rows,
    }
}

/// The table after the whole relation is added to `layout`.
pub open spec fn synthesized(layout: Layout, config: SudokuConfig, grid: [[u8; 9]; 9]) -> Layout {
    partial(layout, config, grid, ROWS as nat, 243, SUMS as nat)
}

/// Why the relation cannot be laid out, if it cannot: two of the three
/// advice columns are the same, or else a sum is missing from the public
/// inputs.
pub open spec fn synthesis_error(layout: Layout, config: SudokuConfig) -> Option<Error> {
    if !config.columns().distinct() {
        Some(Error::CellAlreadyAssigned)
    } else if !layout.has_instance(config.col_instance_1, (SUMS - 1) as usize) {
        Some(Error::CellNotFound)
    } else {
        None
    }
}

/// The table that the relation is checked on: laid out from nothing on the
/// standard columns, with these public inputs.
pub open spec fn table(grid: [[u8; 9]; 9], instance: Seq<Seq<nat>>) -> Layout {
    synthesized(Layout::empty(Some(instance)), SudokuConfig::standard(), grid)
}

/// Whether a registry holds exactly what the relation declares.
pub open spec fn is_configured(cs: ConstraintSystem) -> bool {
    &&& cs.num_advice_columns == 3
    &&& cs.num_selectors == 1
    &&& cs.num_instance_columns == 1
    &&& cs.equality@ == seq![
        Column::Advice(AdviceColumn { index: 0 }),
        Column::Advice(AdviceColumn { index: 1 }),
        Column::Advice(AdviceColumn { index: 2 }),
        Column::Instance(InstanceColumn { index: 0 }),
    ]
    &&& is_addition_gate(cs.gates@, SudokuConfig::standard().columns())
    &&& cs.gates@[0].name@ == "add"@
}

proof fn lemma_add_row(kind: int, group: int, step: int)
    requires
        0 <= kind < 3,
        0 <= group < 9,
        0 <= step < 9,
    ensures
        row_at(add_row(kind, group, step)) == (Row::Add { kind, group, step }),
        84 <= add_row(kind, group, step) < 351,
{
    reveal(row_at);
}

proof fn lemma_start_row(kind: int, group: int)
    requires
        0 <= kind < 3,
        0 <= group < 9,
    ensures
        row_at(start_row(kind, group)) == (Row::Start { kind, group }),
        81 <= start_row(kind, group) < 351,
{
    reveal(row_at);
}

proof fn lemma_digit_row(line: int, column: int)
    requires
        0 <= line < 9,
        0 <= column < 9,
    ensures
        row_at(digit_row(line, column)) == (Row::Digit { line, column }),
        0 <= digit_row(line, column) < 81,
{
    reveal(row_at);
}

/// Every row of the relation is the row of an entry, of a group or of an
/// addition within the grid.
proof fn lemma_row_at(t: int)
    requires
        0 <= t < 351,
    ensures
        match row_at(t) {
            Row::Digit { line, column } => 0 <= line < 9 && 0 <= column < 9 && t == digit_row(
                line,
                column,
            ),
            Row::Start { kind, group } => 0 <= kind < 3 && 0 <= group < 9 && t == start_row(
                kind,
                group,
            ),
            Row::Add { kind, group, step } => 0 <= kind < 3 && 0 <= group < 9 && 0 <= step < 9
                && t == add_row(kind, group, step),
        },
{
    reveal(row_at);
}

/// The two copies that the addition of an entry makes.
proof fn lemma_copy_at(config: SudokuConfig, base: nat, kind: int, group: int, step: int)
    requires
        0 <= kind < 3,
        0 <= group < 9,
        0 <= step < 9,
    ensures
        copy_at(config, base, 2 * (27 * group + 3 * step + kind)) == (CopyConstraint {
            left: sum_cell(config, base, kind, group, step),
            right: Cell {
                column: config.col_advice_1,
                row: (base + add_row(kind, group, step)) as usize,
            },
        }),
        copy_at(config, base, 2 * (27 * group + 3 * step + kind) + 1) == (CopyConstraint {
            left: entry_cell(config, base, kind, group, step),
            right: Cell {
                column: config.col_advice_2,
                row: (base + add_row(kind, group, step)) as usize,
            },
        }),
{
    reveal(copy_at);
}

/// Every copy constraint of the relation is one of the two copies of an
/// addition.
proof fn lemma_copy_index(x: int) -> (r: (int, int, int))
    requires
        0 <= x < 486,
    ensures
        0 <= r.0 < 3,
        0 <= r.1 < 9,
        0 <= r.2 < 9,
        x == 2 * (27 * r.1 + 3 * r.2 + r.0) || x == 2 * (27 * r.1 + 3 * r.2 + r.0) + 1,
{
    let q = x / 2;
    (q % 3, q / 27, (q % 27) / 3)
}

/// The binding of the sum of a group.
proof fn lemma_binding_at(config: SudokuConfig, base: nat, kind: int, group: int)
    requires
        0 <= kind < 3,
        0 <= group < 9,
    ensures
        binding_at(config, base, 3 * group + kind) == (Binding {
            cell: sum_cell(config, base, kind, group, 9),
            column: config.col_instance_1,
            row: sum_index(kind, group) as usize,
        }),
{
    reveal(binding_at);
}

proof fn lemma_member(kind: int, group: int, step: int)
    requires
        0 <= kind < 3,
        0 <= group < 9,
        0 <= step < 9,
    ensures
        0 <= member(kind, group, step).0 < 9,
        0 <= member(kind, group, step).1 < 9,
{
}

/// A sum of at most nine entries is far below the field order, so adding
/// an entry in the field is adding it among the natural numbers.
proof fn lemma_sum_small(grid: [[u8; 9]; 9], kind: int, group: int, n: nat)
    requires
        n <= 9,
    ensures
        sum_of(grid, kind, group, n) <= 255 * n,
        n < 9 ==> field_add(sum_of(grid, kind, group, n), member_digit(grid, kind, group, n as int))
            == sum_of(grid, kind, group, n + 1),
    decreases n,
{
    if n > 0 {
        lemma_sum_small(grid, kind, group, (n - 1) as nat);
    }
    if n < 9 {
        let total = sum_of(grid, kind, group, n) + member_digit(grid, kind, group, n as int);
        assert(total < 2560);
        vstd::arithmetic::div_mod::lemma_small_mod(total, modulus());
    }
}

/// The rows in use and the public inputs of a table under construction.
proof fn lemma_partial_shape(
    layout: Layout,
    config: SudokuConfig,
    grid: [[u8; 9]; 9],
    n: nat,
    additions: nat,
    bindings: nat,
)
    ensures
        partial(layout, config, grid, n, additions, bindings).rows == layout.rows + n,
        partial(layout, config, grid, n, additions, bindings).instance == layout.instance,
{
    reveal(partial);
}

/// A row of the grid or a starting row extends the table by one region of
/// one cell.
proof fn lemma_plain_row(
    layout: Layout,
    config: SudokuConfig,
    grid: [[u8; 9]; 9],
    n: nat,
    additions: nat,
    bindings: nat,
)
    requires
        layout.wf(),
        layout.rows + ROWS <= usize::MAX,
        n < ROWS,
        !(row_at(n as int) is Add),
    ensures
        !partial(layout, config, grid, n, additions, bindings).begin_region(
            region_at(layout.rows, n as int).0,
        ).occupied(config.col_advice_1, 0),
        partial(layout, config, grid, n, additions, bindings).begin_region(
            region_at(layout.rows, n as int).0,
        ).assign(
            config.col_advice_1,
            0,
            Some(
                content(
                    config,
                    grid,
                    layout.rows,
                    Cell { column: config.col_advice_1, row: (layout.rows + n) as usize },
                ),
            ),
        ) == partial(layout, config, grid, n + 1, additions, bindings),
{
    reveal(partial);
    let before = partial(layout, config, grid, n, additions, bindings);
    let cell = Cell { column: config.col_advice_1, row: (layout.rows + n) as usize };
    let a = before.begin_region(region_at(layout.rows, n as int).0).assign(
        config.col_advice_1,
        0,
        Some(content(config, grid, layout.rows, cell)),
    );
    let b = partial(layout, config, grid, n + 1, additions, bindings);
    assert(a.cells == before.cells.insert(cell, Some(content(config, grid, layout.rows, cell))));
    assert forall|c: Cell| a.cells.contains_key(c) <==> b.cells.contains_key(c) by {
        if written(config, layout.rows, n + 1, c) && !written(config, layout.rows, n, c) {
            assert(c == cell);
        }
    }
    assert forall|c: Cell| a.cells.contains_key(c) implies a.cells[c] == b.cells[c] by {
        if c == cell {
            assert(written(config, layout.rows, n + 1, c));
        } else if written(config, layout.rows, n, c) {
            assert(written(config, layout.rows, n + 1, c));
        } else {
            assert(!written(config, layout.rows, n + 1, c));
        }
    }
    assert(a.cells =~= b.cells);
    assert(a.enabled =~= b.enabled);
    assert(a.copies =~= b.copies);
    assert(a.bindings =~= b.bindings);
    assert(a.regions =~= b.regions);
}

/// An addition row extends the table by one region of three cells, with
/// its gate on and two copies. Its operands are cells of the table, so it
/// is refused only where two columns are the same.
proof fn lemma_add_step(
    layout: Layout,
    config: SudokuConfig,
    grid: [[u8; 9]; 9],
    kind: int,
    group: int,
    step: int,
    lhs: AssignedCell,
    rhs: AssignedCell,
)
    requires
        layout.wf(),
        layout.rows + ROWS <= usize::MAX,
        0 <= kind < 3,
        0 <= group < 9,
        0 <= step < 9,
        lhs.cell == sum_cell(config, layout.rows, kind, group, step),
        lhs.value@ == Some(sum_of(grid, kind, group, step as nat)),
        rhs.cell == entry_cell(config, layout.rows, kind, group, step),
        rhs.value@ == Some(member_digit(grid, kind, group, step)),
    ensures
        sum_row_error(
            partial(
                layout,
                config,
                grid,
                add_row(kind, group, step) as nat,
                (27 * group + 3 * step + kind) as nat,
                (3 * group) as nat,
            ),
            config.columns(),
            lhs.cell,
            rhs.cell,
        ) == if config.columns().distinct() {
            None
        } else {
            Some(Error::CellAlreadyAssigned)
        },
        value_add(lhs.value@, rhs.value@) == Some(sum_of(grid, kind, group, (step + 1) as nat)),
        config.columns().distinct() ==> sum_row(
            partial(
                layout,
                config,
                grid,
                add_row(kind, group, step) as nat,
                (27 * group + 3 * step + kind) as nat,
                (3 * group) as nat,
            ),
            config.columns(),
            "Next Row"@,
            lhs,
            rhs,
        ) == partial(
            layout,
            config,
            grid,
            (add_row(kind, group, step) + 1) as nat,
            (27 * group + 3 * step + kind + 1) as nat,
            (3 * group) as nat,
        ),
{
    let n = add_row(kind, group, step) as nat;
    let q = (27 * group + 3 * step + kind) as nat;
    let m = (3 * group) as nat;
    let base = layout.rows;
    reveal(partial);
    let before = partial(layout, config, grid, n, q, m);
    lemma_add_row(kind, group, step);
    lemma_sum_small(grid, kind, group, step as nat);
    lemma_member(kind, group, step);
    lemma_digit_row(member(kind, group, step).0, member(kind, group, step).1);
    if step == 0 {
        lemma_start_row(kind, group);
    } else {
        lemma_add_row(kind, group, step - 1);
    }
    assert(written(config, base, n, lhs.cell));
    assert(written(config, base, n, rhs.cell));
    if config.columns().distinct() {
        let a = sum_row(before, config.columns(), "Next Row"@, lhs, rhs);
        let b = partial(layout, config, grid, n + 1, q + 1, m);
        let row = (base + n) as usize;
        let c1 = Cell { column: config.col_advice_1, row };
        let c2 = Cell { column: config.col_advice_2, row };
        let c3 = Cell { column: config.col_advice_3, row };
        assert(a.cells == before.cells.insert(c1, lhs.value@).insert(c2, rhs.value@).insert(
            c3,
            Some(sum_of(grid, kind, group, (step + 1) as nat)),
        ));
        assert forall|c: Cell| a.cells.contains_key(c) <==> b.cells.contains_key(c) by {
            if written(config, base, n + 1, c) && !written(config, base, n, c) {
                assert(c == c1 || c == c2 || c == c3);
            }
        }
        assert forall|c: Cell| a.cells.contains_key(c) implies a.cells[c] == b.cells[c] by {
            if c == c1 || c == c2 || c == c3 {
                assert(written(config, base, n + 1, c));
            } else if written(config, base, n, c) {
                assert(written(config, base, n + 1, c));
            } else {
                assert(!written(config, base, n + 1, c));
            }
        }
        assert(a.cells =~= b.cells);
        assert(a.enabled =~= b.enabled);
        assert(a.copies =~= b.copies) by {
            let old_copies = Seq::new(2 * q, |x: int| copy_at(config, base, x));
            let new_copies = Seq::new(2 * (q + 1), |x: int| copy_at(config, base, x));
            lemma_copy_at(config, base, kind, group, step);
            assert(new_copies =~= old_copies.push(copy_at(config, base, (2 * q) as int)).push(
                copy_at(config, base, (2 * q + 1) as int),
            ));
        }
        assert(a.bindings =~= b.bindings);
        assert(a.regions =~= b.regions);
    }
}

/// Binding the sum of a group extends the table by the next binding.
proof fn lemma_bind_step(
    layout: Layout,
    config: SudokuConfig,
    grid: [[u8; 9]; 9],
    kind: int,
    group: int,
)
    requires
        layout.wf(),
        layout.rows + ROWS <= usize::MAX,
        0 <= kind < 3,
        0 <= group < 9,
    ensures
        partial(
            layout,
            config,
            grid,
            (81 + 30 * (group + 1)) as nat,
            (27 * (group + 1)) as nat,
            (3 * group + kind) as nat,
        ).cells.contains_key(sum_cell(config, layout.rows, kind, group, 9)),
        partial(
            layout,
            config,
            grid,
            (81 + 30 * (group + 1)) as nat,
            (27 * (group + 1)) as nat,
            (3 * group + kind) as nat,
        ).constrain_instance(
            sum_cell(config, layout.rows, kind, group, 9),
            config.col_instance_1,
            sum_index(kind, group) as usize,
        ) == partial(
            layout,
            config,
            grid,
            (81 + 30 * (group + 1)) as nat,
            (27 * (group + 1)) as nat,
            (3 * group + kind + 1) as nat,
        ),
{
    let n = (81 + 30 * (group + 1)) as nat;
    let q = (27 * (group + 1)) as nat;
    let m = (3 * group + kind) as nat;
    reveal(partial);
    let before = partial(layout, config, grid, n, q, m);
    let cell = sum_cell(config, layout.rows, kind, group, 9);
    lemma_add_row(kind, group, 8);
    assert(written(config, layout.rows, n, cell));
    let a = before.constrain_instance(cell, config.col_instance_1, sum_index(kind, group) as usize);
    let b = partial(layout, config, grid, n, q, m + 1);
    lemma_binding_at(config, layout.rows, kind, group);
    assert(a.bindings =~= b.bindings);
    assert(a.cells =~= b.cells);
    assert(a.enabled =~= b.enabled);
}

/// Whether `vars` are the cells that hold the grid, line by line.
pub open spec fn holds_grid(
    vars: Seq<AssignedCell>,
    config: SudokuConfig,
    grid: [[u8; 9]; 9],
    base: nat,
    n: nat,
) -> bool {
    &&& vars.len() == n
    &&& forall|t: int|
        0 <= t < n ==> (#[trigger] vars[t]).cell == (Cell {
            column: config.col_advice_1,
            row: (base + t) as usize,
        }) && vars[t].value@ == Some(digit(grid, t / 9, t % 9))
}

/// The chip that lays out the additions of the relation.
#[derive(Clone, Copy, Debug, PartialEq, Eq, Structural)]
pub struct SudokuChip {
    pub config: SudokuConfig,
}

impl SudokuChip {
    /// A chip over the columns of `config`.
    pub fn construct(config: &SudokuConfig) -> (r: SudokuChip)
        ensures
            r.config == *config,
    {
        SudokuChip { config: *config }
    }

    /// Declares the columns of the relation and its gate, which demands on
    /// each row where the selector is on that the third advice cell is the
    /// sum of the first two.
    pub fn configure(meta: &mut ConstraintSystem) -> (r: SudokuConfig)
        requires
            old(meta).num_advice_columns + 3 <= usize::MAX,
            old(meta).num_selectors < usize::MAX,
            old(meta).num_instance_columns < usize::MAX,
        ensures
            declared(*old(meta), *final(meta), r.columns()),
            r.columns().distinct(),
    {
        let columns = declare(meta);
        SudokuConfig {
            col_advice_1: columns.a,
            col_advice_2: columns.b,
            col_advice_3: columns.c,
            col_selector_1: columns.selector,
            col_instance_1: columns.instance,
        }
    }

    /// Lays out one addition: a fresh row with its gate on that holds
    /// copies of the two cells and their sum, which is returned.
    pub fn add_instruction(
        &self,
        layouter: &mut Layouter,
        col_advice_1: &AssignedCell,
        col_advice_2: &AssignedCell,
    ) -> (r: Result<AssignedCell, Error>)
        requires
            old(layouter)@.rows < usize::MAX,
        ensures
            old(layouter)@.wf(),
            final(layouter)@.wf(),
            r is Err <==> sum_row_error(
                old(layouter)@,
                self.config.columns(),
                col_advice_1.cell,
                col_advice_2.cell,
            ) is Some,
            r matches Err(e) ==> Some(e) == sum_row_error(
                old(layouter)@,
                self.config.columns(),
                col_advice_1.cell,
                col_advice_2.cell,
            ),
            r matches Ok(out) ==> {
                &&& out.cell == (Cell {
                    column: self.config.col_advice_3,
                    row: old(layouter)@.rows as usize,
                })
                &&& out.value@ == value_add(col_advice_1.value@, col_advice_2.value@)
                &&& final(layouter)@ == sum_row(
                    old(layouter)@,
                    self.config.columns(),
                    "Next Row"@,
                    *col_advice_1,
                    *col_advice_2,
                )
            },
    {
        let columns = self.config.as_columns();
        assign_sum(&columns, layouter, "Next Row", col_advice_1, col_advice_2)
    }
}

/// The relation as a circuit over a grid, which is its private input.
#[derive(Clone, Copy, Debug, PartialEq, Eq)]
pub struct MyCircuit {
    pub sudoku: [[u8; 9]; 9],
}

impl Default for MyCircuit {
    /// The circuit over the grid of zeros.
    fn default() -> (r: MyCircuit)
        ensures
            forall|line: int, column: int|
                0 <= line < 9 && 0 <= column < 9 ==> digit(r.sudoku, line, column) == 0,
    {
        MyCircuit { sudoku: [[0u8; 9]; 9] }
    }
}

impl MyCircuit {
    /// The circuit with its private input left out: the grid of zeros.
    pub fn without_witnesses(&self) -> (r: MyCircuit)
        ensures
            forall|line: int, column: int|
                0 <= line < 9 && 0 <= column < 9 ==> digit(r.sudoku, line, column) == 0,
    {
        MyCircuit::default()
    }

    /// Declares the columns of the relation and its gate.
    pub fn configure(meta: &mut ConstraintSystem) -> (r: SudokuConfig)
        requires
            old(meta).num_advice_columns + 3 <= usize::MAX,
            old(meta).num_selectors < usize::MAX,
            old(meta).num_instance_columns < usize::MAX,
        ensures
            declared(*old(meta), *final(meta), r.columns()),
            r.columns().distinct(),
    {
        SudokuChip::configure(meta)
    }

    /// Writes `value` into the first advice column of a fresh region of one row.
    fn assign_single(config: &SudokuConfig, layouter: &mut Layouter, name: &str, value: Fp) -> (r:
        Result<AssignedCell, Error>)
        requires
            old(layouter)@.rows < usize::MAX,
        ensures
            old(layouter)@.wf(),
            final(layouter)@.wf(),
            r is Err <==> old(layouter)@.begin_region(name@).occupied(config.col_advice_1, 0),
            r matches Ok(out) ==> {
                &&& out.cell == (Cell {
                    column: config.col_advice_1,
                    row: old(layouter)@.rows as usize,
                })
                &&& out.value@ == Some(value@)
                &&& final(layouter)@ == old(layouter)@.begin_region(name@).assign(
                    config.col_advice_1,
                    0,
                    Some(value@),
                )
            },
    {
        layouter.assign_region(name);
        layouter.assign_advice(config.col_advice_1, 0, Value::known(value))
    }

    /// Lays out the grid, one region of one cell for each entry, line by line.
    fn assign_grid(&self, config: &SudokuConfig, layouter: &mut Layouter) -> (r: Result<
        Vec<AssignedCell>,
        Error,
    >)
        requires
            old(layouter)@.rows + ROWS <= usize::MAX,
        ensures
            old(layouter)@.wf(),
            final(layouter)@.wf(),
            r is Ok,
            r matches Ok(vars) ==> {
                &&& final(layouter)@ == partial(old(layouter)@, *config, self.sudoku, 81, 0, 0)
                &&& holds_grid(vars@, *config, self.sudoku, old(layouter)@.rows, 81)
            },
    {
        let base: usize = layouter.rows();
        let ghost start = layouter@;
        let mut vars: Vec<AssignedCell> = Vec::new();
        let mut n: usize = 0;
        proof {
            reveal(partial);
            let a = partial(start, *config, self.sudoku, 0, 0, 0);
            assert(a.cells =~= start.cells);
            assert(a.enabled =~= start.enabled);
            assert(a.copies =~= start.copies);
            assert(a.bindings =~= start.bindings);
            assert(a.regions =~= start.regions);
        }
        while n < GRID_ROWS
            invariant
                n <= GRID_ROWS,
                start.wf(),
                start.rows + ROWS <= usize::MAX,
                layouter@.wf(),
                layouter@ == partial(start, *config, self.sudoku, n as nat, 0, 0),
                holds_grid(vars@, *config, self.sudoku, start.rows, n as nat),
            decreases GRID_ROWS - n,
        {
            let x: u8 = self.sudoku[n / 9][n % 9];
            proof {
                lemma_digit_row((n / 9) as int, (n % 9) as int);
                lemma_plain_row(start, *config, self.sudoku, n as nat, 0, 0);
                lemma_partial_shape(start, *config, self.sudoku, n as nat, 0, 0);
            }
            let cell = match MyCircuit::assign_single(
                config,
                layouter,
                "sudoku_cell",
                Fp::from_u128(x as u128),
            ) {
                Ok(cell) => cell,
                Err(e) => {
                    return Err(e);
                },
            };
            vars.push(cell);
            n += 1;
        }
        Ok(vars)
    }

    /// Adds the entry with index `step` of a group to its accumulator.
    fn add_entry(
        &self,
        chip: &SudokuChip,
        layouter: &mut Layouter,
        vars: &Vec<AssignedCell>,
        sum: &AssignedCell,
        line: usize,
        column: usize,
        Ghost(start): Ghost<Layout>,
        Ghost(kind): Ghost<int>,
        Ghost(group): Ghost<int>,
        Ghost(step): Ghost<int>,
    ) -> (r: Result<AssignedCell, Error>)
        requires
            start.wf(),
            start.rows + ROWS <= usize::MAX,
            0 <= kind < 3,
            0 <= group < 9,
            0 <= step < 9,
            sum.cell == sum_cell(chip.config, start.rows, kind, group, step),
            sum.value@ == Some(sum_of(self.sudoku, kind, group, step as nat)),
            holds_grid(vars@, chip.config, self.sudoku, start.rows, 81),
            (line as int, column as int) == member(kind, group, step),
            old(layouter)@ == partial(
                start,
                chip.config,
                self.sudoku,
                add_row(kind, group, step) as nat,
                (27 * group + 3 * step + kind) as nat,
                (3 * group) as nat,
            ),
        ensures
            final(layouter)@.wf(),
            r is Err <==> !chip.config.columns().distinct(),
            r matches Err(e) ==> e == Error::CellAlreadyAssigned,
            r matches Ok(out) ==> {
                &&& out.cell == sum_cell(chip.config, start.rows, kind, group, step + 1)
                &&& out.value@ == Some(sum_of(self.sudoku, kind, group, (step + 1) as nat))
                &&& final(layouter)@ == partial(
                    start,
                    chip.config,
                    self.sudoku,
                    (add_row(kind, group, step) + 1) as nat,
                    (27 * group + 3 * step + kind + 1) as nat,
                    (3 * group) as nat,
                )
            },
    {
        proof {
            lemma_member(kind, group, step);
            lemma_digit_row(line as int, column as int);
        }
        let entry = &vars[9 * line + column];
        proof {
            lemma_add_step(start, chip.config, self.sudoku, kind, group, step, *sum, *entry);
            lemma_partial_shape(
                start,
                chip.config,
                self.sudoku,
                add_row(kind, group, step) as nat,
                (27 * group + 3 * step + kind) as nat,
                (3 * group) as nat,
            );
        }
        chip.add_instruction(layouter, sum, entry)
    }

    /// Lays out the sums of the line, the column and the block with index
    /// `group`: three accumulators that start at zero, nine rounds that add
    /// one entry to each, and the binding of each sum to its public input.
    fn assign_group(
        &self,
        chip: &SudokuChip,
        layouter: &mut Layouter,
        vars: &Vec<AssignedCell>,
        group: usize,
        Ghost(start): Ghost<Layout>,
    ) -> (r: Result<(), Error>)
        requires
            start.wf(),
            start.rows + ROWS <= usize::MAX,
            group < SIZE,
            holds_grid(vars@, chip.config, self.sudoku, start.rows, 81),
            old(layouter)@ == partial(
                start,
                chip.config,
                self.sudoku,
                (81 + 30 * group) as nat,
                (27 * group) as nat,
                (3 * group) as nat,
            ),
        ensures
            final(layouter)@.wf(),
            r is Err <==> !chip.config.columns().distinct() || !start.has_instance(
                chip.config.col_instance_1,
                (18 + group) as usize,
            ),
            r matches Err(e) ==> e == if !chip.config.columns().distinct() {
                Error::CellAlreadyAssigned
            } else {
                Error::CellNotFound
            },
            r is Ok ==> final(layouter)@ == partial(
                start,
                chip.config,
                self.sudoku,
                (81 + 30 * (group + 1)) as nat,
                (27 * (group + 1)) as nat,
                (3 * (group + 1)) as nat,
            ),
    {
        let config = chip.config;
        let ghost grid = self.sudoku;
        let ghost g = group as int;
        let zero = Fp::zero();
        proof {
            lemma_start_row(0, g);
            lemma_start_row(1, g);
            lemma_start_row(2, g);
            lemma_plain_row(start, config, grid, (81 + 30 * g) as nat, (27 * g) as nat, (3 * g) as nat);
            lemma_partial_shape(start, config, grid, (81 + 30 * g) as nat, (27 * g) as nat, (3 * g) as nat);
        }
        let mut line = match MyCircuit::assign_single(&config, layouter, "lhs init", zero) {
            Ok(cell) => cell,
            Err(e) => {
                return Err(e);
            },
        };
        proof {
            lemma_plain_row(start, config, grid, (82 + 30 * g) as nat, (27 * g) as nat, (3 * g) as nat);
            lemma_partial_shape(start, config, grid, (82 + 30 * g) as nat, (27 * g) as nat, (3 * g) as nat);
        }
        let mut col = match MyCircuit::assign_single(&config, layouter, "lhs init", zero) {
            Ok(cell) => cell,
            Err(e) => {
                return Err(e);
            },
        };
        proof {
            lemma_plain_row(start, config, grid, (83 + 30 * g) as nat, (27 * g) as nat, (3 * g) as nat);
            lemma_partial_shape(start, config, grid, (83 + 30 * g) as nat, (27 * g) as nat, (3 * g) as nat);
        }
        let mut sub = match MyCircuit::assign_single(&config, layouter, "lhs init", zero) {
            Ok(cell) => cell,
            Err(e) => {
                return Err(e);
            },
        };
        let mut j: usize = 0;
        while j < SIZE
            invariant
                j <= SIZE,
                vars@.len() == 81,
                group < SIZE,
                g == group,
                grid == self.sudoku,
                config == chip.config,
                start.wf(),
                start.rows + ROWS <= usize::MAX,
                holds_grid(vars@, config, grid, start.rows, 81),
                layouter@.wf(),
                layouter@ == partial(
                    start,
                    config,
                    grid,
                    (84 + 30 * g + 3 * j) as nat,
                    (27 * g + 3 * j) as nat,
                    (3 * g) as nat,
                ),
                j > 0 ==> config.columns().distinct(),
                line.cell == sum_cell(config, start.rows, 0, g, j as int),
                col.cell == sum_cell(config, start.rows, 1, g, j as int),
                sub.cell == sum_cell(config, start.rows, 2, g, j as int),
                line.value@ == Some(sum_of(grid, 0, g, j as nat)),
                col.value@ == Some(sum_of(grid, 1, g, j as nat)),
                sub.value@ == Some(sum_of(grid, 2, g, j as nat)),
            decreases SIZE - j,
        {
            line = match self.add_entry(
                chip,
                layouter,
                vars,
                &line,
                group,
                j,
                Ghost(start),
                Ghost(0),
                Ghost(g),
                Ghost(j as int),
            ) {
                Ok(cell) => cell,
                Err(e) => {
                    return Err(e);
                },
            };
            col = match self.add_entry(
                chip,
                layouter,
                vars,
                &col,
                j,
                group,
                Ghost(start),
                Ghost(1),
                Ghost(g),
                Ghost(j as int),
            ) {
                Ok(cell) => cell,
                Err(e) => {
                    return Err(e);
                },
            };
            sub = match self.add_entry(
                chip,
                layouter,
                vars,
                &sub,
                (group / 3) * 3 + j / 3,
                (group % 3) * 3 + j % 3,
                Ghost(start),
                Ghost(2),
                Ghost(g),
                Ghost(j as int),
            ) {
                Ok(cell) => cell,
                Err(e) => {
                    return Err(e);
                },
            };
            j += 1;
        }
        proof {
            lemma_bind_step(start, config, grid, 0, g);
            lemma_bind_step(start, config, grid, 1, g);
            lemma_bind_step(start, config, grid, 2, g);
            lemma_partial_shape(start, config, grid, (111 + 30 * g) as nat, (27 * g + 27) as nat, (3 * g) as nat);
            lemma_partial_shape(start, config, grid, (111 + 30 * g) as nat, (27 * g + 27) as nat, (3 * g + 1) as nat);
            lemma_partial_shape(start, config, grid, (111 + 30 * g) as nat, (27 * g + 27) as nat, (3 * g + 2) as nat);
        }
        match layouter.constrain_instance(line.cell(), config.col_instance_1, group) {
            Ok(_) => {},
            Err(e) => {
                return Err(e);
            },
        }
        match layouter.constrain_instance(col.cell(), config.col_instance_1, 9 + group) {
            Ok(_) => {},
            Err(e) => {
                return Err(e);
            },
        }
        match layouter.constrain_instance(sub.cell(), config.col_instance_1, 18 + group) {
            Ok(_) => {},
            Err(e) => {
                return Err(e);
            },
        }
        Ok(())
    }

    /// Lays the relation out below what the table holds: the grid, then,
    /// for each group index, the sums of its line, its column and its
    /// block, each bound to its public input.
    pub fn synthesize(&self, config: SudokuConfig, layouter: &mut Layouter) -> (r: Result<
        (),
        Error,
    >)
        requires
            old(layouter)@.rows + ROWS <= usize::MAX,
        ensures
            old(layouter)@.wf(),
            final(layouter)@.wf(),
            r is Err <==> synthesis_error(old(layouter)@, config) is Some,
            r matches Err(e) ==> Some(e) == synthesis_error(old(layouter)@, config),
            r is Ok ==> final(layouter)@ == synthesized(old(layouter)@, config, self.sudoku),
    {
        let ghost start = layouter@;
        let chip = SudokuChip::construct(&config);
        let vars = match self.assign_grid(&config, layouter) {
            Ok(vars) => vars,
            Err(e) => {
                return Err(e);
            },
        };
        let mut i: usize = 0;
        while i < SIZE
            invariant
                i <= SIZE,
                chip.config == config,
                start == old(layouter)@,
                start.wf(),
                start.rows + ROWS <= usize::MAX,
                holds_grid(vars@, config, self.sudoku, start.rows, 81),
                layouter@.wf(),
                layouter@ == partial(
                    start,
                    config,
                    self.sudoku,
                    (81 + 30 * i) as nat,
                    (27 * i) as nat,
                    (3 * i) as nat,
                ),
                i > 0 ==> config.columns().distinct() && start.has_instance(
                    config.col_instance_1,
                    (17 + i) as usize,
                ),
            decreases SIZE - i,
        {
            match self.assign_group(&chip, layouter, &vars, i, Ghost(start)) {
                Ok(_) => {},
                Err(e) => {
                    return Err(e);
                },
            }
            i += 1;
        }
        Ok(())
    }

    /// Builds the relation from nothing on the public inputs `instance`,
    /// one vector per instance column, ready to be checked. The relation
    /// has one instance column of 27 sums. Inputs of another shape are
    /// refused as they are.
    pub fn mock_prover(&self, instance: Vec<Vec<Fp>>) -> (r: Result<MockProver, Error>)
        ensures
            r is Ok <==> instance@.len() == 1 && instance@[0]@.len() == SUMS,
            r matches Err(e) ==> e == Error::InvalidInstances,
            r matches Ok(prover) ==> is_configured(prover.cs) && prover.layouter@ == table(
                self.sudoku,
                instance_view(Some(instance))->0,
            ),
    {
        if instance.len() != 1 || instance[0].len() != SUMS {
            return Err(Error::InvalidInstances);
        }
        let mut cs = ConstraintSystem::new();
        let config = MyCircuit::configure(&mut cs);
        proof {
            let e0 = Seq::<Column>::empty();
            let e1 = with_equality(e0, Column::Advice(config.col_advice_1));
            let e2 = with_equality(e1, Column::Advice(config.col_advice_2));
            let e3 = with_equality(e2, Column::Advice(config.col_advice_3));
            let e4 = with_equality(e3, Column::Instance(config.col_instance_1));
            assert(e1 =~= seq![Column::Advice(config.col_advice_1)]);
            assert(e2 =~= e1.push(Column::Advice(config.col_advice_2)));
            assert(e3 =~= e2.push(Column::Advice(config.col_advice_3)));
            assert(e4 =~= e3.push(Column::Instance(config.col_instance_1)));
            assert(config == SudokuConfig::standard());
            assert(cs.equality@ =~= e4);
            assert(cs.gates@[0] == cs.gates@.last());
            assert(cs.equality@ == seq![
                Column::Advice(AdviceColumn { index: 0 }),
                Column::Advice(AdviceColumn { index: 1 }),
                Column::Advice(AdviceColumn { index: 2 }),
                Column::Instance(InstanceColumn { index: 0 }),
            ]);
        }
        let mut layouter = Layouter::new(Some(instance));
        proof {
            assert(synthesis_error(layouter@, config) is None);
        }
        match self.synthesize(config, &mut layouter) {
            Ok(_) => Ok(MockProver::new(cs, layouter)),
            Err(_) => Err(Error::InvalidInstances),
        }
    }
}

/// What the cells of an addition, and the cells it copies from, hold in
/// the table that is checked.
proof fn lemma_table_values(
    grid: [[u8; 9]; 9],
    instance: Seq<Seq<nat>>,
    kind: int,
    group: int,
    step: int,
)
    requires
        0 <= kind < 3,
        0 <= group < 9,
        0 <= step < 9,
    ensures
        ({
            let config = SudokuConfig::standard();
            let layout = table(grid, instance);
            let row = add_row(kind, group, step) as usize;
            &&& layout.value_of(Cell { column: config.col_advice_1, row }) == Some(
                sum_of(grid, kind, group, step as nat),
            )
            &&& layout.value_of(Cell { column: config.col_advice_2, row }) == Some(
                member_digit(grid, kind, group, step),
            )
            &&& layout.value_of(Cell { column: config.col_advice_3, row }) == Some(
                sum_of(grid, kind, group, (step + 1) as nat),
            )
            &&& layout.value_of(sum_cell(config, 0, kind, group, step)) == Some(
                sum_of(grid, kind, group, step as nat),
            )
            &&& layout.value_of(entry_cell(config, 0, kind, group, step)) == Some(
                member_digit(grid, kind, group, step),
            )
        }),
{
    reveal(partial);
    let config = SudokuConfig::standard();
    let layout = table(grid, instance);
    let row = add_row(kind, group, step) as usize;
    lemma_add_row(kind, group, step);
    lemma_member(kind, group, step);
    lemma_digit_row(member(kind, group, step).0, member(kind, group, step).1);
    if step == 0 {
        lemma_start_row(kind, group);
    } else {
        lemma_add_row(kind, group, step - 1);
    }
    assert(written(config, 0, ROWS as nat, Cell { column: config.col_advice_1, row }));
    assert(written(config, 0, ROWS as nat, Cell { column: config.col_advice_2, row }));
    assert(written(config, 0, ROWS as nat, Cell { column: config.col_advice_3, row }));
    assert(written(config, 0, ROWS as nat, sum_cell(config, 0, kind, group, step)));
    assert(written(config, 0, ROWS as nat, entry_cell(config, 0, kind, group, step)));
}

/// In the table that is checked, every gate and every copy constraint
/// holds, whatever the grid: what is reported are the bindings of the sums
/// that differ from their public input. The binding of a group holds if
/// and only if the public input at its index is the sum of its entries.
pub proof fn lemma_failures_are_sums(gates: Seq<Gate>, grid: [[u8; 9]; 9], instance: Seq<Seq<nat>>)
    requires
        is_addition_gate(gates, SudokuConfig::standard().columns()),
        instance.len() == 1,
        instance[0].len() == SUMS,
    ensures
        failures(gates, table(grid, instance)) == table(grid, instance).bindings.filter_map(
            binding_check(table(grid, instance)),
        ),
        table(grid, instance).bindings.len() == SUMS,
        forall|kind: int, group: int|
            0 <= kind < 3 && 0 <= group < 9 ==> (#[trigger] binding_holds(
                table(grid, instance),
                table(grid, instance).bindings[3 * group + kind],
            ) <==> instance[0][sum_index(kind, group)] == sum_of(grid, kind, group, 9)),
{
    let config = SudokuConfig::standard();
    let columns = config.columns();
    let layout = table(grid, instance);
    assert(layout.rows == ROWS && layout.copies.len() == 486 && layout.bindings.len() == 27
        && layout.instance == Some(instance)) by {
        reveal(partial);
    }
    assert forall|g: int, row: usize| 0 <= g < 1 && row < layout.rows implies #[trigger] gate_holds(
        gates[g],
        layout,
        row,
    ) by {
        if layout.enabled.contains((config.col_selector_1, row)) {
            assert(row_at(row as int) is Add) by {
                reveal(partial);
            }
            lemma_row_at(row as int);
            let (kind, group, step) = match row_at(row as int) {
                Row::Add { kind, group, step } => (kind, group, step),
                _ => (0, 0, 0),
            };
            lemma_table_values(grid, instance, kind, group, step);
            lemma_sum_small(grid, kind, group, step as nat);
            lemma_vanishes(
                layout,
                columns,
                row,
                sum_of(grid, kind, group, step as nat),
                member_digit(grid, kind, group, step),
            );
        }
    }
    lemma_gates_hold(gates, layout, 1);
    assert forall|x: int| 0 <= x < layout.copies.len() implies copy_check(layout)(
        #[trigger] layout.copies[x],
    ) is None by {
        assert(layout.copies[x] == copy_at(config, 0, x)) by {
            reveal(partial);
        }
        let (kind, group, step) = lemma_copy_index(x);
        lemma_copy_at(config, 0, kind, group, step);
        lemma_table_values(grid, instance, kind, group, step);
        assert(copy_holds(layout, layout.copies[x]));
    }
    lemma_filter_map_none(layout.copies, copy_check(layout));
    assert forall|kind: int, group: int| 0 <= kind < 3 && 0 <= group < 9 implies (
    #[trigger] binding_holds(layout, layout.bindings[3 * group + kind]) <==> instance[0][sum_index(
        kind,
        group,
    )] == sum_of(grid, kind, group, 9)) by {
        assert(layout.bindings[3 * group + kind] == binding_at(config, 0, 3 * group + kind)) by {
            reveal(partial);
        }
        lemma_binding_at(config, 0, kind, group);
        lemma_table_values(grid, instance, kind, group, 8);
    }
}

/// The relation is satisfied exactly by the right sums: the check of the
/// table passes if and only if, for every line, column and block, the
/// public input at its index is the sum of its entries.
pub proof fn lemma_satisfied_iff_sums(gates: Seq<Gate>, grid: [[u8; 9]; 9], instance: Seq<Seq<nat>>)
    requires
        is_addition_gate(gates, SudokuConfig::standard().columns()),
        instance.len() == 1,
        instance[0].len() == SUMS,
    ensures
        failures(gates, table(grid, instance)).len() == 0 <==> (forall|kind: int, group: int|
            0 <= kind < 3 && 0 <= group < 9 ==> instance[0][#[trigger] sum_index(kind, group)]
                == sum_of(grid, kind, group, 9)),
{
    let layout = table(grid, instance);
    let check = binding_check(layout);
    lemma_failures_are_sums(gates, grid, instance);
    if forall|kind: int, group: int|
        0 <= kind < 3 && 0 <= group < 9 ==> instance[0][#[trigger] sum_index(kind, group)]
            == sum_of(grid, kind, group, 9) {
        assert forall|y: int| 0 <= y < layout.bindings.len() implies check(
            #[trigger] layout.bindings[y],
        ) is None by {
            let kind = y % 3;
            let group = y / 3;
            assert(y == 3 * group + kind);
            assert(instance[0][sum_index(kind, group)] == sum_of(grid, kind, group, 9));
            assert(binding_holds(layout, layout.bindings[3 * group + kind]));
        }
        lemma_filter_map_none(layout.bindings, check);
    } else {
        let (kind, group) = choose|kind: int, group: int|
            0 <= kind < 3 && 0 <= group < 9 && instance[0][#[trigger] sum_index(kind, group)]
                != sum_of(grid, kind, group, 9);
        assert(!binding_holds(layout, layout.bindings[3 * group + kind]));
        lemma_filter_map_some(layout.bindings, check, 3 * group + kind);
    }
}

/// Sums are all that is checked: a grid whose lines, columns and blocks
/// each sum to 45 passes against 27 public inputs of 45, whether or not
/// its entries are the digits 1 to 9 and whether or not they repeat.
pub proof fn lemma_sums_of_45_pass(gates: Seq<Gate>, grid: [[u8; 9]; 9], instance: Seq<Seq<nat>>)
    requires
        is_addition_gate(gates, SudokuConfig::standard().columns()),
        instance.len() == 1,
        instance[0].len() == SUMS,
        forall|i: int| 0 <= i < SUMS ==> instance[0][i] == 45,
        forall|kind: int, group: int|
            0 <= kind < 3 && 0 <= group < 9 ==> #[trigger] sum_of(grid, kind, group, 9) == 45,
    ensures
        failures(gates, table(grid, instance)) == Seq::<VerifyFailure>::empty(),
{
    lemma_satisfied_iff_sums(gates, grid, instance);
    assert forall|kind: int, group: int| 0 <= kind < 3 && 0 <= group < 9 implies instance[0][
    #[trigger] sum_index(kind, group)] == sum_of(grid, kind, group, 9) by {
        assert(sum_of(grid, kind, group, 9) == 45);
    }
    assert(failures(gates, table(grid, instance)) =~= Seq::<VerifyFailure>::empty());
}

/// The table of the relation does not depend on the public inputs: a pass
/// without them yields the table of a pass with them, inputs aside.
pub proof fn lemma_table_without_inputs(
    config: SudokuConfig,
    grid: [[u8; 9]; 9],
    instance: Seq<Seq<nat>>,
)
    ensures
        synthesized(Layout::empty(None), config, grid) == (Layout {
            instance: None,
            ..synthesized(Layout::empty(Some(instance)), config, grid)
        }),
{
    reveal(partial);
    let dry = synthesized(Layout::empty(None), config, grid);
    let full = synthesized(Layout::empty(Some(instance)), config, grid);
    assert(dry.cells =~= full.cells);
    assert(dry.enabled =~= full.enabled);
    assert(dry.copies =~= full.copies);
    assert(dry.bindings =~= full.bindings);
    assert(dry.regions =~= full.regions);
}

} // verus!
