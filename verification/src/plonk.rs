//! The schema of a circuit: its columns, its selectors and the gates that
//! must vanish on the rows where a selector is switched on.

use crate::field::Fp;
use vstd::prelude::*;

verus! {

/// A column of private witness cells.
#[derive(Clone, Copy, Debug, PartialEq, Eq, Structural)]
pub struct AdviceColumn {
    pub index: usize,
}

/// A column of public inputs, indexed by row.
#[derive(Clone, Copy, Debug, PartialEq, Eq, Structural)]
pub struct InstanceColumn {
    pub index: usize,
}

/// A column of booleans that switch a gate on and off row by row.
#[derive(Clone, Copy, Debug, PartialEq, Eq, Structural)]
pub struct Selector {
    pub index: usize,
}

/// A column whose cells may take part in copy constraints.
#[derive(Clone, Copy, Debug, PartialEq, Eq, Structural)]
pub enum Column {
    Advice(AdviceColumn),
    Instance(InstanceColumn),
}

/// A row offset relative to the row on which a gate is evaluated.
#[derive(Clone, Copy, Debug, PartialEq, Eq, Structural)]
pub struct Rotation {
    pub offset: i32,
}

impl Rotation {
    /// The row itself.
    pub fn cur() -> (r: Rotation)
        ensures
            r.offset == 0,
    {
        Rotation { offset: 0 }
    }

    /// The row before.
    pub fn prev() -> (r: Rotation)
        ensures
            r.offset == -1,
    {
        Rotation { offset: -1 }
    }

    /// The row after.
    pub fn next() -> (r: Rotation)
        ensures
            r.offset == 1,
    {
        Rotation { offset: 1 }
    }
}

/// A polynomial over the advice cells around a row.
#[derive(Debug, PartialEq, Eq)]
pub enum Expression {
    Constant(Fp),
    Advice { column: AdviceColumn, rotation: Rotation },
    Negated(Box<Expression>),
    Sum(Box<Expression>, Box<Expression>),
    Product(Box<Expression>, Box<Expression>),
}

impl Expression {
    /// The cell of `column` on the row that `rotation` selects.
    pub fn query_advice(column: AdviceColumn, rotation: Rotation) -> (r: Expression)
        ensures
            r == (Expression::Advice { column, rotation }),
    {
        Expression::Advice { column, rotation }
    }

    /// `self + rhs`.
    pub fn plus(self, rhs: Expression) -> (r: Expression)
        ensures
            r == Expression::Sum(Box::new(self), Box::new(rhs)),
    {
        Expression::Sum(Box::new(self), Box::new(rhs))
    }

    /// `self - rhs`, as the sum of `self` and the negation of `rhs`.
    pub fn minus(self, rhs: Expression) -> (r: Expression)
        ensures
            r == Expression::Sum(Box::new(self), Box::new(Expression::Negated(Box::new(rhs)))),
    {
        Expression::Sum(Box::new(self), Box::new(Expression::Negated(Box::new(rhs))))
    }

    /// `self * rhs`.
    pub fn times(self, rhs: Expression) -> (r: Expression)
        ensures
            r == Expression::Product(Box::new(self), Box::new(rhs)),
    {
        Expression::Product(Box::new(self), Box::new(rhs))
    }
}

/// A constraint: on every row where `selector` is on, `polynomial` is zero.
#[derive(Debug, PartialEq, Eq)]
pub struct Gate {
    pub name: String,
    pub selector: Selector,
    pub polynomial: Expression,
}

/// What can go wrong while a circuit is laid out.
#[derive(Clone, Copy, Debug, PartialEq, Eq, Structural)]
pub enum Error {
    /// A cell that already holds a value was assigned again.
    CellAlreadyAssigned,
    /// A copy constraint or an instance binding names a cell that does not exist.
    CellNotFound,
    /// The public inputs do not have the shape that the relation fixes.
    InvalidInstances,
}

/// The registry of columns and gates of one relation.
#[derive(Debug, PartialEq, Eq)]
pub struct ConstraintSystem {
    pub num_advice_columns: usize,
    pub num_instance_columns: usize,
    pub num_selectors: usize,
    pub equality: Vec<Column>,
    pub gates: Vec<Gate>,
}

/// The equality-enabled columns after `column` is enabled: a column that is
/// enabled already is not listed again.
pub open spec fn with_equality(columns: Seq<Column>, column: Column) -> Seq<Column> {
    if columns.contains(column) {
        columns
    } else {
        columns.push(column)
    }
}

/// Whether some gate carries the name.
pub open spec fn has_gate_named(gates: Seq<Gate>, name: Seq<char>) -> bool {
    exists|i: int| 0 <= i < gates.len() && (#[trigger] gates[i]).name@ == name
}

impl ConstraintSystem {
    /// A registry without columns or gates.
    pub fn new() -> (r: ConstraintSystem)
        ensures
            r.num_advice_columns == 0,
            r.num_instance_columns == 0,
            r.num_selectors == 0,
            r.equality@ == Seq::<Column>::empty(),
            r.gates@ == Seq::<Gate>::empty(),
    {
        ConstraintSystem {
            num_advice_columns: 0,
            num_instance_columns: 0,
            num_selectors: 0,
            equality: Vec::new(),
            gates: Vec::new(),
        }
    }

    /// Declares a fresh advice column.
    pub fn advice_column(&mut self) -> (r: AdviceColumn)
        requires
            old(self).num_advice_columns < usize::MAX,
        ensures
            r.index == old(self).num_advice_columns,
            *final(self) == (ConstraintSystem {
                num_advice_columns: (old(self).num_advice_columns + 1) as usize,
                ..*old(self)
            }),
    {
        let index: usize = self.num_advice_columns;
        self.num_advice_columns = index + 1;
        AdviceColumn { index }
    }

    /// Declares a fresh instance column.
    pub fn instance_column(&mut self) -> (r: InstanceColumn)
        requires
            old(self).num_instance_columns < usize::MAX,
        ensures
            r.index == old(self).num_instance_columns,
            *final(self) == (ConstraintSystem {
                num_instance_columns: (old(self).num_instance_columns + 1) as usize,
                ..*old(self)
            }),
    {
        let index: usize = self.num_instance_columns;
        self.num_instance_columns = index + 1;
        InstanceColumn { index }
    }

    /// Declares a fresh selector.
    pub fn selector(&mut self) -> (r: Selector)
        requires
            old(self).num_selectors < usize::MAX,
        ensures
            r.index == old(self).num_selectors,
            *final(self) == (ConstraintSystem {
                num_selectors: (old(self).num_selectors + 1) as usize,
                ..*old(self)
            }),
    {
        let index: usize = self.num_selectors;
        self.num_selectors = index + 1;
        Selector { index }
    }

    /// Lets the cells of `column` take part in copy constraints. Enabling a
    /// column a second time changes nothing.
    pub fn enable_equality(&mut self, column: Column)
        ensures
            final(self).equality@ == with_equality(old(self).equality@, column),
            final(self).num_advice_columns == old(self).num_advice_columns,
            final(self).num_instance_columns == old(self).num_instance_columns,
            final(self).num_selectors == old(self).num_selectors,
            final(self).gates == old(self).gates,
    {
        let mut i: usize = 0;
        while i < self.equality.len()
            invariant
                i <= self.equality.len(),
                *self == *old(self),
                forall|k: int| 0 <= k < i ==> self.equality@[k] != column,
            decreases self.equality.len() - i,
        {
            if self.equality[i] == column {
                return ;
            }
            i += 1;
        }
        self.equality.push(column);
    }

    /// Registers `polynomial` as a gate, active where `selector` is on. A name
    /// that is taken already leaves the registry as it is.
    pub fn create_gate(&mut self, name: &str, selector: Selector, polynomial: Expression)
        ensures
            final(self).num_advice_columns == old(self).num_advice_columns,
            final(self).num_instance_columns == old(self).num_instance_columns,
            final(self).num_selectors == old(self).num_selectors,
            final(self).equality == old(self).equality,
            has_gate_named(old(self).gates@, name@) ==> final(self).gates == old(self).gates,
            !has_gate_named(old(self).gates@, name@) ==> {
                &&& final(self).gates@.len() == old(self).gates@.len() + 1
                &&& final(self).gates@.drop_last() == old(self).gates@
                &&& final(self).gates@.last().name@ == name@
                &&& final(self).gates@.last().selector == selector
                &&& final(self).gates@.last().polynomial == polynomial
            },
    {
        let owned = name.to_owned();
        let mut i: usize = 0;
        while i < self.gates.len()
            invariant
                i <= self.gates.len(),
                *self == *old(self),
                owned@ == name@,
                forall|k: int| 0 <= k < i ==> self.gates@[k].name@ != name@,
            decreases self.gates.len() - i,
        {
            if self.gates[i].name == owned {
                return ;
            }
            i += 1;
        }
        self.gates.push(Gate { name: owned, selector, polynomial });
        assert(final(self).gates@.drop_last() =~= old(self).gates@);
    }
}

} // verus!
