//! The table that a circuit is laid out on.
//!
//! A [`Layouter`] hands out regions, each a window of fresh rows, and records
//! what is written into them: the values of advice cells, the rows on which a
//! selector is on, the copy constraints between cells and the bindings of
//! cells to public inputs. Its view, a [`Layout`], is the mathematical table
//! that all contracts speak of.

use crate::field::field_add;
use crate::field::Fp;
use crate::plonk::AdviceColumn;
use crate::plonk::Error;
use crate::plonk::InstanceColumn;
use crate::plonk::Selector;
use vstd::prelude::*;

verus! {

/// A field element that may not be known yet, as in a pass that only derives
/// the shape of a circuit.
#[derive(Clone, Copy, Debug, PartialEq, Eq)]
pub enum Value {
    Known(Fp),
    Unknown,
}

impl View for Value {
    type V = Option<nat>;

    open spec fn view(&self) -> Option<nat> {
        match *self {
            Value::Known(x) => Some(x@),
            Value::Unknown => None,
        }
    }
}

/// Sum of two values: unknown as soon as one of them is.
pub open spec fn value_add(a: Option<nat>, b: Option<nat>) -> Option<nat> {
    match (a, b) {
        (Some(x), Some(y)) => Some(field_add(x, y)),
        _ => None,
    }
}

impl Value {
    /// A known value.
    pub fn known(x: Fp) -> (r: Value)
        ensures
            r == Value::Known(x),
    {
        Value::Known(x)
    }

    /// The placeholder for a value that is not known.
    pub fn unknown() -> (r: Value)
        ensures
            r == Value::Unknown,
    {
        Value::Unknown
    }

    /// Sum of two values; an unknown operand makes the sum unknown.
    pub fn add(&self, rhs: &Value) -> (r: Value)
        ensures
            r@ == value_add(self@, rhs@),
    {
        match (self, rhs) {
            (Value::Known(x), Value::Known(y)) => Value::Known(x.add(y)),
            _ => Value::Unknown,
        }
    }
}

/// An advice cell: a column and an absolute row.
#[derive(Clone, Copy, Debug, PartialEq, Eq, Structural)]
pub struct Cell {
    pub column: AdviceColumn,
    pub row: usize,
}

/// A cell together with the value that was written into it.
#[derive(Clone, Copy, Debug, PartialEq, Eq)]
pub struct AssignedCell {
    pub cell: Cell,
    pub value: Value,
}

impl AssignedCell {
    /// The cell's identity.
    pub fn cell(&self) -> (r: Cell)
        ensures
            r == self.cell,
    {
        self.cell
    }

    /// The value that the cell was given.
    pub fn value(&self) -> (r: Value)
        ensures
            r == self.value,
    {
        self.value
    }
}

/// The demand that two cells hold the same value.
#[derive(Clone, Copy, Debug, PartialEq, Eq, Structural)]
pub struct CopyConstraint {
    pub left: Cell,
    pub right: Cell,
}

/// The demand that a cell holds the public input at `row` of `column`.
#[derive(Clone, Copy, Debug, PartialEq, Eq, Structural)]
pub struct Binding {
    pub cell: Cell,
    pub column: InstanceColumn,
    pub row: usize,
}

/// A region: its label and its first row.
#[derive(Clone, Debug, PartialEq, Eq)]
pub struct Region {
    pub name: String,
    pub start: usize,
}

/// The mathematical content of a layouter.
pub struct Layout {
    /// The public inputs, one sequence per instance column; `None` in a pass
    /// that runs without them.
    pub instance: Option<Seq<Seq<nat>>>,
    /// The advice cells that hold a value.
    pub cells: Map<Cell, Option<nat>>,
    /// The selector and row pairs that are switched on.
    pub enabled: Set<(Selector, usize)>,
    /// The copy constraints, in the order they were made.
    pub copies: Seq<CopyConstraint>,
    /// The instance bindings, in the order they were made.
    pub bindings: Seq<Binding>,
    /// Label and first row of each region, in the order they were opened.
    pub regions: Seq<(Seq<char>, usize)>,
    /// First row of the region that is open.
    pub start: nat,
    /// Number of rows in use; the next region starts here.
    pub rows: nat,
}

impl Layout {
    /// The table before anything is written.
    pub open spec fn empty(instance: Option<Seq<Seq<nat>>>) -> Layout {
        Layout {
            instance,
            cells: Map::empty(),
            enabled: Set::empty(),
            copies: Seq::empty(),
            bindings: Seq::empty(),
            regions: Seq::empty(),
            start: 0,
            rows: 0,
        }
    }

    /// Nothing is written at or below the first free row.
    pub open spec fn wf(self) -> bool {
        &&& self.start <= self.rows <= usize::MAX
        &&& forall|c: Cell| self.cells.contains_key(c) ==> c.row < self.rows
        &&& forall|s: Selector, r: usize| #[trigger] self.enabled.contains((s, r)) ==> r < self.rows
    }

    /// The cell of `column` at `offset` in the open region.
    pub open spec fn cell_at(self, column: AdviceColumn, offset: usize) -> Cell {
        Cell { column, row: (self.start + offset) as usize }
    }

    /// Whether the cell of `column` at `offset` in the open region holds a value.
    pub open spec fn occupied(self, column: AdviceColumn, offset: usize) -> bool {
        self.cells.contains_key(self.cell_at(column, offset))
    }

    /// The rows in use once row `offset` of the open region is.
    pub open spec fn grown(self, offset: usize) -> nat {
        if self.start + offset < self.rows {
            self.rows
        } else {
            (self.start + offset + 1) as nat
        }
    }

    /// Whether the public input at `row` of `column` can be referred to:
    /// always while the inputs are not known, else where it exists.
    pub open spec fn has_instance(self, column: InstanceColumn, row: usize) -> bool {
        match self.instance {
            None => true,
            Some(inst) => column.index < inst.len() && row < inst[column.index as int].len(),
        }
    }

    /// The public input at `row` of `column`, as far as it is known.
    pub open spec fn instance_value(self, column: InstanceColumn, row: usize) -> Option<nat> {
        match self.instance {
            None => None,
            Some(inst) => if column.index < inst.len() && row < inst[column.index as int].len() {
                Some(inst[column.index as int][row as int])
            } else {
                None
            },
        }
    }

    /// The value of a cell, as far as it is known.
    pub open spec fn value_of(self, cell: Cell) -> Option<nat> {
        if self.cells.contains_key(cell) {
            self.cells[cell]
        } else {
            None
        }
    }

    /// The table after a region is opened at the first free row.
    pub open spec fn begin_region(self, name: Seq<char>) -> Layout {
        Layout {
            regions: self.regions.push((name, self.rows as usize)),
            start: self.rows,
            ..self
        }
    }

    /// The table after `selector` is switched on at `offset` in the open region.
    pub open spec fn enable(self, selector: Selector, offset: usize) -> Layout {
        Layout {
            enabled: self.enabled.insert((selector, (self.start + offset) as usize)),
            rows: self.grown(offset),
            ..self
        }
    }

    /// The table after a free cell of the open region is given a value.
    pub open spec fn assign(self, column: AdviceColumn, offset: usize, value: Option<nat>) -> Layout {
        Layout {
            cells: self.cells.insert(self.cell_at(column, offset), value),
            rows: self.grown(offset),
            ..self
        }
    }

    /// The table after a free cell of the open region is given the value of
    /// `from` and tied to it by a copy constraint.
    pub open spec fn copy(self, from: AssignedCell, column: AdviceColumn, offset: usize) -> Layout {
        Layout {
            copies: self.copies.push(
                CopyConstraint { left: from.cell, right: self.cell_at(column, offset) },
            ),
            ..self.assign(column, offset, from.value@)
        }
    }

    /// The table after a free cell of the open region is given the public
    /// input at `row` of `instance` and bound to it.
    pub open spec fn assign_from_instance(
        self,
        instance: InstanceColumn,
        row: usize,
        column: AdviceColumn,
        offset: usize,
    ) -> Layout {
        Layout {
            bindings: self.bindings.push(
                Binding { cell: self.cell_at(column, offset), column: instance, row },
            ),
            ..self.assign(column, offset, self.instance_value(instance, row))
        }
    }

    /// The table after `cell` is bound to the public input at `row` of `instance`.
    pub open spec fn constrain_instance(self, cell: Cell, instance: InstanceColumn, row: usize) -> Layout {
        Layout { bindings: self.bindings.push(Binding { cell, column: instance, row }), ..self }
    }

    /// Why a copy into the open region is refused, if it is: the source does
    /// not exist, or else the target holds a value already.
    pub open spec fn copy_error(self, from: Cell, column: AdviceColumn, offset: usize) -> Option<Error> {
        if !self.cells.contains_key(from) {
            Some(Error::CellNotFound)
        } else if self.occupied(column, offset) {
            Some(Error::CellAlreadyAssigned)
        } else {
            None
        }
    }

    /// Why an assignment from the public inputs is refused, if it is: the
    /// input does not exist, or else the target holds a value already.
    pub open spec fn assign_from_instance_error(
        self,
        instance: InstanceColumn,
        row: usize,
        column: AdviceColumn,
        offset: usize,
    ) -> Option<Error> {
        if !self.has_instance(instance, row) {
            Some(Error::CellNotFound)
        } else if self.occupied(column, offset) {
            Some(Error::CellAlreadyAssigned)
        } else {
            None
        }
    }
}

/// The public inputs as numbers.
pub open spec fn instance_view(instance: Option<Vec<Vec<Fp>>>) -> Option<Seq<Seq<nat>>> {
    match instance {
        None => None,
        Some(columns) => Some(
            Seq::new(
                columns@.len(),
                |i: int| Seq::new(columns@[i]@.len(), |j: int| columns@[i]@[j]@),
            ),
        ),
    }
}

/// The map that a list of assignments denotes.
spec fn cells_of(s: Seq<AssignedCell>) -> Map<Cell, Option<nat>>
    decreases s.len(),
{
    if s.len() == 0 {
        Map::empty()
    } else {
        cells_of(s.drop_last()).insert(s.last().cell, s.last().value@)
    }
}

proof fn lemma_cells_of_push(s: Seq<AssignedCell>, a: AssignedCell)
    ensures
        cells_of(s.push(a)) == cells_of(s).insert(a.cell, a.value@),
{
    assert(s.push(a).drop_last() =~= s);
}

/// A cell that the assignments from `n` on do not name is decided by the
/// first `n` of them.
proof fn lemma_cells_of_prefix(s: Seq<AssignedCell>, cell: Cell, n: int)
    requires
        0 <= n <= s.len(),
        forall|k: int| n <= k < s.len() ==> s[k].cell != cell,
    ensures
        cells_of(s).contains_key(cell) == cells_of(s.take(n)).contains_key(cell),
        cells_of(s).contains_key(cell) ==> cells_of(s)[cell] == cells_of(s.take(n))[cell],
    decreases s.len() - n,
{
    if n == s.len() {
        assert(s.take(n) =~= s);
    } else {
        lemma_cells_of_prefix(s.drop_last(), cell, n);
        assert(s.drop_last().take(n) =~= s.take(n));
    }
}

proof fn lemma_cells_of_rows(s: Seq<AssignedCell>, rows: nat)
    requires
        forall|i: int| 0 <= i < s.len() ==> (#[trigger] s[i]).cell.row < rows,
    ensures
        forall|c: Cell| cells_of(s).contains_key(c) ==> c.row < rows,
    decreases s.len(),
{
    if s.len() > 0 {
        assert forall|i: int| 0 <= i < s.drop_last().len() implies (#[trigger] s.drop_last()[i]).cell.row
            < rows by {
            assert(s.drop_last()[i] == s[i]);
        }
        lemma_cells_of_rows(s.drop_last(), rows);
        assert(s.last() == s[s.len() - 1]);
        assert forall|c: Cell| cells_of(s).contains_key(c) implies c.row < rows by {
            if c != s.last().cell {
                assert(cells_of(s.drop_last()).contains_key(c));
            }
        }
    }
}

/// The region allocator and witness assigner of one synthesis pass.
pub struct Layouter {
    instance: Option<Vec<Vec<Fp>>>,
    cells: Vec<AssignedCell>,
    enabled: Vec<(Selector, usize)>,
    copies: Vec<CopyConstraint>,
    bindings: Vec<Binding>,
    regions: Vec<Region>,
    start: usize,
    rows: usize,
}

impl View for Layouter {
    type V = Layout;

    closed spec fn view(&self) -> Layout {
        Layout {
            instance: instance_view(self.instance),
            cells: cells_of(self.cells@),
            enabled: self.enabled@.to_set(),
            copies: self.copies@,
            bindings: self.bindings@,
            regions: self.regions@.map_values(|r: Region| (r.name@, r.start)),
            start: self.start as nat,
            rows: self.rows as nat,
        }
    }
}

impl Layouter {
    #[verifier::type_invariant]
    spec fn inv(&self) -> bool {
        &&& self.start <= self.rows
        &&& forall|i: int|
            0 <= i < self.cells@.len() ==> (#[trigger] self.cells@[i]).cell.row < self.rows
        &&& forall|i: int|
            0 <= i < self.enabled@.len() ==> (#[trigger] self.enabled@[i]).1 < self.rows
    }

    proof fn lemma_wf(&self)
        requires
            self.inv(),
        ensures
            self@.wf(),
    {
        lemma_cells_of_rows(self.cells@, self.rows as nat);
    }

    /// A layouter with an empty table. `instance` holds the public inputs,
    /// one vector per instance column, or `None` for a pass without them.
    pub fn new(instance: Option<Vec<Vec<Fp>>>) -> (r: Layouter)
        ensures
            r@ == Layout::empty(instance_view(instance)),
            r@.wf(),
    {
        let r = Layouter {
            instance,
            cells: Vec::new(),
            enabled: Vec::new(),
            copies: Vec::new(),
            bindings: Vec::new(),
            regions: Vec::new(),
            start: 0,
            rows: 0,
        };
        assert(r@.enabled =~= Set::empty());
        assert(r@.regions =~= Seq::empty());
        r
    }

    /// Number of rows in use.
    pub fn rows(&self) -> (r: usize)
        ensures
            r == self@.rows,
            self@.wf(),
    {
        proof {
            use_type_invariant(self);
            self.lemma_wf();
        }
        self.rows
    }

    /// First row of the open region.
    pub fn region_start(&self) -> (r: usize)
        ensures
            r == self@.start,
    {
        self.start
    }

    /// The value that `cell` holds, if it holds one.
    pub fn value(&self, cell: Cell) -> (r: Option<Value>)
        ensures
            r is Some <==> self@.cells.contains_key(cell),
            r matches Some(v) ==> v@ == self@.cells[cell],
    {
        let mut i: usize = self.cells.len();
        while i > 0
            invariant
                i <= self.cells@.len(),
                forall|k: int| i <= k < self.cells@.len() ==> self.cells@[k].cell != cell,
            decreases i,
        {
            i -= 1;
            if self.cells[i].cell == cell {
                proof {
                    lemma_cells_of_prefix(self.cells@, cell, i + 1);
                    assert(self.cells@.take(i + 1).drop_last() =~= self.cells@.take(i as int));
                }
                return Some(self.cells[i].value);
            }
        }
        proof {
            lemma_cells_of_prefix(self.cells@, cell, 0);
        }
        None
    }

    /// Whether `selector` is on at `row`.
    pub fn is_enabled(&self, selector: Selector, row: usize) -> (r: bool)
        ensures
            r == self@.enabled.contains((selector, row)),
    {
        let mut i: usize = 0;
        while i < self.enabled.len()
            invariant
                i <= self.enabled@.len(),
                forall|k: int| 0 <= k < i ==> self.enabled@[k] != (selector, row),
            decreases self.enabled@.len() - i,
        {
            let entry = self.enabled[i];
            if entry.0 == selector && entry.1 == row {
                assert(self.enabled@[i as int] == (selector, row));
                return true;
            }
            i += 1;
        }
        false
    }

    /// The public input at `row` of `column`: `None` where there is no such
    /// input, the unknown value in a pass without public inputs.
    pub fn instance_value(&self, column: InstanceColumn, row: usize) -> (r: Option<Value>)
        ensures
            r is Some <==> self@.has_instance(column, row),
            r matches Some(v) ==> v@ == self@.instance_value(column, row),
    {
        match &self.instance {
            None => Some(Value::Unknown),
            Some(columns) => {
                if column.index < columns.len() {
                    let inputs = &columns[column.index];
                    if row < inputs.len() {
                        Some(Value::Known(inputs[row]))
                    } else {
                        None
                    }
                } else {
                    None
                }
            },
        }
    }

    /// The copy constraints, in the order they were made.
    pub fn copies(&self) -> (r: &Vec<CopyConstraint>)
        ensures
            r@ == self@.copies,
    {
        &self.copies
    }

    /// The instance bindings, in the order they were made.
    pub fn bindings(&self) -> (r: &Vec<Binding>)
        ensures
            r@ == self@.bindings,
    {
        &self.bindings
    }

    /// The regions, in the order they were opened.
    pub fn regions(&self) -> (r: &Vec<Region>)
        ensures
            r@.len() == self@.regions.len(),
            forall|i: int|
                0 <= i < r@.len() ==> (#[trigger] r@[i]).name@ == self@.regions[i].0 && r@[i].start
                    == self@.regions[i].1,
    {
        &self.regions
    }

    /// Opens a region at the first free row. The region that was open before
    /// is closed by this, so no two regions share a row.
    pub fn assign_region(&mut self, name: &str)
        ensures
            old(self)@.wf(),
            final(self)@ == old(self)@.begin_region(name@),
            final(self)@.wf(),
    {
        proof {
            use_type_invariant(&*self);
            self.lemma_wf();
        }
        let region = Region { name: name.to_owned(), start: self.rows };
        self.start = self.rows;
        let mut regions: Vec<Region> = Vec::new();
        std::mem::swap(&mut regions, &mut self.regions);
        regions.push(region);
        self.regions = regions;
        proof {
            use_type_invariant(&*self);
            self.lemma_wf();
            assert(final(self)@.regions =~= old(self)@.regions.push((name@, old(self).rows)));
        }
    }

    /// Switches `selector` on at `offset` in the open region.
    pub fn enable_selector(&mut self, selector: Selector, offset: usize)
        requires
            old(self)@.start + offset < usize::MAX,
        ensures
            final(self)@ == old(self)@.enable(selector, offset),
            final(self)@.wf(),
    {
        proof {
            use_type_invariant(&*self);
        }
        let row: usize = self.start + offset;
        if self.rows <= row {
            self.rows = row + 1;
        }
        let mut enabled: Vec<(Selector, usize)> = Vec::new();
        std::mem::swap(&mut enabled, &mut self.enabled);
        enabled.push((selector, row));
        self.enabled = enabled;
        proof {
            use_type_invariant(&*self);
            self.lemma_wf();
            old(self).enabled@.lemma_push_to_set_commute((selector, row));
        }
    }

    /// Writes `value` into the cell of `column` at `offset` in the open
    /// region. A cell that holds a value already is not written again.
    pub fn assign_advice(&mut self, column: AdviceColumn, offset: usize, value: Value) -> (r: Result<
        AssignedCell,
        Error,
    >)
        requires
            old(self)@.start + offset < usize::MAX,
        ensures
            final(self)@.wf(),
            r is Err <==> old(self)@.occupied(column, offset),
            r matches Err(e) ==> e == Error::CellAlreadyAssigned && final(self)@ == old(self)@,
            r matches Ok(a) ==> a == (AssignedCell {
                cell: old(self)@.cell_at(column, offset),
                value,
            }) && final(self)@ == old(self)@.assign(column, offset, value@),
    {
        proof {
            use_type_invariant(&*self);
            self.lemma_wf();
        }
        let cell = Cell { column, row: self.start + offset };
        if self.value(cell).is_some() {
            return Err(Error::CellAlreadyAssigned);
        }
        let assigned = AssignedCell { cell, value };
        if self.rows <= cell.row {
            self.rows = cell.row + 1;
        }
        let mut cells: Vec<AssignedCell> = Vec::new();
        std::mem::swap(&mut cells, &mut self.cells);
        cells.push(assigned);
        self.cells = cells;
        proof {
            use_type_invariant(&*self);
            self.lemma_wf();
            lemma_cells_of_push(old(self).cells@, assigned);
        }
        Ok(assigned)
    }

    /// Writes the value of `from` into the cell of `column` at `offset` in
    /// the open region and constrains the two cells to be equal.
    pub fn copy_advice(&mut self, from: &AssignedCell, column: AdviceColumn, offset: usize) -> (r:
        Result<AssignedCell, Error>)
        requires
            old(self)@.start + offset < usize::MAX,
        ensures
            final(self)@.wf(),
            r is Err <==> old(self)@.copy_error(from.cell, column, offset) is Some,
            r matches Err(e) ==> Some(e) == old(self)@.copy_error(from.cell, column, offset)
                && final(self)@ == old(self)@,
            r matches Ok(a) ==> a == (AssignedCell {
                cell: old(self)@.cell_at(column, offset),
                value: from.value,
            }) && final(self)@ == old(self)@.copy(*from, column, offset),
    {
        proof {
            use_type_invariant(&*self);
            self.lemma_wf();
        }
        if self.value(from.cell).is_none() {
            return Err(Error::CellNotFound);
        }
        match self.assign_advice(column, offset, from.value) {
            Err(e) => Err(e),
            Ok(assigned) => {
                proof {
                    use_type_invariant(&*self);
                }
                let mut copies: Vec<CopyConstraint> = Vec::new();
                std::mem::swap(&mut copies, &mut self.copies);
                copies.push(CopyConstraint { left: from.cell, right: assigned.cell });
                self.copies = copies;
                proof {
                    use_type_invariant(&*self);
                    self.lemma_wf();
                }
                Ok(assigned)
            },
        }
    }

    /// Writes the public input at `row` of `instance` into the cell of
    /// `column` at `offset` in the open region and binds the cell to it.
    pub fn assign_advice_from_instance(
        &mut self,
        instance: InstanceColumn,
        row: usize,
        column: AdviceColumn,
        offset: usize,
    ) -> (r: Result<AssignedCell, Error>)
        requires
            old(self)@.start + offset < usize::MAX,
        ensures
            final(self)@.wf(),
            r is Err <==> old(self)@.assign_from_instance_error(instance, row, column, offset)
                is Some,
            r matches Err(e) ==> Some(e) == old(self)@.assign_from_instance_error(
                instance,
                row,
                column,
                offset,
            ) && final(self)@ == old(self)@,
            r matches Ok(a) ==> a.cell == old(self)@.cell_at(column, offset) && a.value@ == old(
                self,
            )@.instance_value(instance, row) && final(self)@ == old(self)@.assign_from_instance(
                instance,
                row,
                column,
                offset,
            ),
    {
        proof {
            use_type_invariant(&*self);
            self.lemma_wf();
        }
        match self.instance_value(instance, row) {
            None => Err(Error::CellNotFound),
            Some(value) => match self.assign_advice(column, offset, value) {
                Err(e) => Err(e),
                Ok(assigned) => {
                    proof {
                        use_type_invariant(&*self);
                    }
                    let mut bindings: Vec<Binding> = Vec::new();
                    std::mem::swap(&mut bindings, &mut self.bindings);
                    bindings.push(Binding { cell: assigned.cell, column: instance, row });
                    self.bindings = bindings;
                    proof {
                        use_type_invariant(&*self);
                        self.lemma_wf();
                    }
                    Ok(assigned)
                },
            },
        }
    }

    /// Binds `cell` to the public input at `row` of `instance`. Both must
    /// exist.
    pub fn constrain_instance(&mut self, cell: Cell, instance: InstanceColumn, row: usize) -> (r:
        Result<(), Error>)
        ensures
            final(self)@.wf(),
            r is Ok <==> old(self)@.cells.contains_key(cell) && old(self)@.has_instance(
                instance,
                row,
            ),
            r matches Err(e) ==> e == Error::CellNotFound && final(self)@ == old(self)@,
            r is Ok ==> final(self)@ == old(self)@.constrain_instance(cell, instance, row),
    {
        proof {
            use_type_invariant(&*self);
            self.lemma_wf();
        }
        if self.value(cell).is_none() || self.instance_value(instance, row).is_none() {
            return Err(Error::CellNotFound);
        }
        let mut bindings: Vec<Binding> = Vec::new();
        std::mem::swap(&mut bindings, &mut self.bindings);
        bindings.push(Binding { cell, column: instance, row });
        self.bindings = bindings;
        proof {
            use_type_invariant(&*self);
            self.lemma_wf();
        }
        Ok(())
    }
}

} // verus!
