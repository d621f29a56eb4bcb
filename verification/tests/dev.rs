use halo2_circuits::addition::assign_sum;
use halo2_circuits::addition::declare;
use halo2_circuits::circuit::AssignedCell;
use halo2_circuits::circuit::Cell;
use halo2_circuits::circuit::Layouter;
use halo2_circuits::circuit::Value;
use halo2_circuits::dev::evaluate;
use halo2_circuits::dev::MockProver;
use halo2_circuits::dev::VerifyFailure;
use halo2_circuits::field::Fp;
use halo2_circuits::plonk::AdviceColumn;
use halo2_circuits::plonk::ConstraintSystem;
use halo2_circuits::plonk::Error;
use halo2_circuits::plonk::Expression;
use halo2_circuits::plonk::InstanceColumn;
use halo2_circuits::plonk::Rotation;
use halo2_circuits::plonk::Selector;

const A: AdviceColumn = AdviceColumn { index: 0 };
const B: AdviceColumn = AdviceColumn { index: 1 };
const C: AdviceColumn = AdviceColumn { index: 2 };
const S: Selector = Selector { index: 0 };
const I: InstanceColumn = InstanceColumn { index: 0 };

fn known(n: u64) -> Value {
    Value::known(Fp::from_u64(n))
}

fn with_inputs(inputs: &[u64]) -> Layouter {
    Layouter::new(Some(vec![inputs.iter().map(|n| Fp::from_u64(*n)).collect()]))
}

fn query(column: AdviceColumn, offset: i32) -> Expression {
    Expression::query_advice(column, Rotation { offset })
}

#[test]
fn polynomials_are_evaluated_on_the_cells_around_a_row() {
    let mut layouter = with_inputs(&[]);
    layouter.assign_region("r");
    layouter.assign_advice(A, 0, known(3)).unwrap();
    layouter.assign_advice(A, 1, known(4)).unwrap();
    layouter.assign_advice(A, 2, known(5)).unwrap();
    layouter.assign_advice(B, 1, Value::unknown()).unwrap();
    assert_eq!(evaluate(&Expression::Constant(Fp::from_u64(8)), &layouter, 0), known(8));
    assert_eq!(evaluate(&query(A, 0), &layouter, 1), known(4));
    assert_eq!(evaluate(&query(A, -1), &layouter, 1), known(3));
    assert_eq!(evaluate(&query(A, 1), &layouter, 1), known(5));
    assert_eq!(evaluate(&query(A, -1), &layouter, 0), Value::Unknown);
    assert_eq!(evaluate(&query(A, 1), &layouter, 2), Value::Unknown);
    assert_eq!(evaluate(&query(A, 1), &layouter, usize::MAX), Value::Unknown);
    assert_eq!(evaluate(&query(A, i32::MIN), &layouter, 1), Value::Unknown);
    assert_eq!(evaluate(&query(B, 0), &layouter, 0), Value::Unknown);
    assert_eq!(evaluate(&query(B, 0), &layouter, 1), Value::Unknown);
    assert_eq!(evaluate(&query(A, -1).plus(query(A, 1)), &layouter, 1), known(8));
    assert_eq!(evaluate(&query(A, 1).minus(query(A, -1)), &layouter, 1), known(2));
    assert_eq!(
        evaluate(&query(A, -1).minus(query(A, 1)), &layouter, 1),
        Value::known(Fp::from_u64(2).neg())
    );
    assert_eq!(evaluate(&query(A, -1).times(query(A, 1)), &layouter, 1), known(15));
    assert_eq!(evaluate(&query(A, 0).times(query(B, 0)), &layouter, 1), Value::Unknown);
    assert_eq!(evaluate(&query(A, 0).plus(query(B, 0)), &layouter, 1), Value::Unknown);
    assert_eq!(
        evaluate(&Expression::Negated(Box::new(query(B, 0))), &layouter, 1),
        Value::Unknown
    );
}

#[test]
fn an_empty_table_passes() {
    let mut cs = ConstraintSystem::new();
    declare(&mut cs);
    let prover = MockProver::new(cs, with_inputs(&[]));
    assert_eq!(prover.verify(), Ok(()));
}

#[test]
fn a_row_with_the_selector_off_is_not_checked() {
    let mut cs = ConstraintSystem::new();
    let columns = declare(&mut cs);
    let mut layouter = with_inputs(&[]);
    layouter.assign_region("r");
    layouter.assign_advice(columns.a, 0, known(1)).unwrap();
    layouter.assign_advice(columns.b, 0, known(1)).unwrap();
    layouter.assign_advice(columns.c, 0, known(3)).unwrap();
    assert_eq!(MockProver::new(cs, layouter).verify(), Ok(()));
}

#[test]
fn every_violation_is_reported() {
    let mut cs = ConstraintSystem::new();
    let columns = declare(&mut cs);
    cs.create_gate("double", Selector { index: 1 }, query(A, 0).plus(query(A, 0)).minus(query(B, 0)));
    let mut layouter = with_inputs(&[5, 6]);
    // row 0: 1 + 2 = 3 holds
    layouter.assign_region("good");
    layouter.enable_selector(columns.selector, 0);
    let a0 = layouter.assign_advice(A, 0, known(1)).unwrap();
    layouter.assign_advice(B, 0, known(2)).unwrap();
    let c0 = layouter.assign_advice(C, 0, known(3)).unwrap();
    // row 1: 1 + 1 = 3 fails, as does 2 * 1 = 1
    layouter.assign_region("bad");
    layouter.enable_selector(columns.selector, 0);
    layouter.enable_selector(Selector { index: 1 }, 0);
    layouter.copy_advice(&a0, A, 0).unwrap();
    layouter.copy_advice(&a0, B, 0).unwrap();
    layouter.copy_advice(&c0, C, 0).unwrap();
    // row 2: the third cell is missing
    layouter.assign_region("open");
    layouter.enable_selector(columns.selector, 0);
    layouter.assign_advice(A, 0, known(0)).unwrap();
    layouter.assign_advice(B, 0, known(0)).unwrap();
    // row 3: a copy whose handle lies about the value, and two bindings
    layouter.assign_region("copies");
    let lie = AssignedCell { cell: a0.cell(), value: known(7) };
    let d = layouter.copy_advice(&lie, A, 0).unwrap();
    let e = layouter.assign_advice(B, 0, known(6)).unwrap();
    layouter.constrain_instance(d.cell(), I, 0).unwrap();
    layouter.constrain_instance(e.cell(), I, 1).unwrap();
    layouter.constrain_instance(e.cell(), I, 0).unwrap();
    let prover = MockProver::new(cs, layouter);
    assert_eq!(
        prover.verify(),
        Err(vec![
            VerifyFailure::Gate { gate: 0, row: 1 },
            VerifyFailure::Gate { gate: 0, row: 2 },
            VerifyFailure::Gate { gate: 1, row: 1 },
            VerifyFailure::Copy {
                left: Cell { column: A, row: 0 },
                right: Cell { column: A, row: 3 }
            },
            VerifyFailure::Instance { cell: Cell { column: A, row: 3 }, column: I, row: 0 },
            VerifyFailure::Instance { cell: Cell { column: B, row: 3 }, column: I, row: 0 },
        ])
    );
}

#[test]
fn checking_twice_gives_the_same_report() {
    let mut cs = ConstraintSystem::new();
    let columns = declare(&mut cs);
    let mut layouter = with_inputs(&[4]);
    layouter.assign_region("r");
    layouter.enable_selector(columns.selector, 0);
    layouter.assign_advice(A, 0, known(1)).unwrap();
    layouter.assign_advice(B, 0, known(1)).unwrap();
    let c = layouter.assign_advice(C, 0, known(3)).unwrap();
    layouter.constrain_instance(c.cell(), I, 0).unwrap();
    let prover = MockProver::new(cs, layouter);
    let first = prover.verify();
    let second = prover.verify();
    assert_eq!(
        first,
        Err(vec![
            VerifyFailure::Gate { gate: 0, row: 0 },
            VerifyFailure::Instance { cell: Cell { column: C, row: 0 }, column: I, row: 0 },
        ])
    );
    assert_eq!(first, second);
    assert_eq!(prover.layouter.rows(), 1);
    assert_eq!(prover.layouter.value(Cell { column: C, row: 0 }), Some(known(3)));
}

#[test]
fn unknown_values_do_not_pass() {
    let mut cs = ConstraintSystem::new();
    let columns = declare(&mut cs);
    let mut layouter = Layouter::new(None);
    layouter.assign_region("r");
    layouter.enable_selector(columns.selector, 0);
    let a = layouter.assign_advice_from_instance(I, 0, A, 0).unwrap();
    let b = layouter.copy_advice(&a, B, 0).unwrap();
    layouter.assign_advice(C, 0, a.value().add(&b.value())).unwrap();
    assert_eq!(
        MockProver::new(cs, layouter).verify(),
        Err(vec![
            VerifyFailure::Gate { gate: 0, row: 0 },
            VerifyFailure::Copy {
                left: Cell { column: A, row: 0 },
                right: Cell { column: B, row: 0 }
            },
            VerifyFailure::Instance { cell: Cell { column: A, row: 0 }, column: I, row: 0 },
        ])
    );
}

#[test]
fn an_addition_row_holds_copies_and_the_sum() {
    let mut cs = ConstraintSystem::new();
    let columns = declare(&mut cs);
    let mut layouter = with_inputs(&[]);
    layouter.assign_region("operands");
    let x = layouter.assign_advice(A, 0, known(20)).unwrap();
    let y = layouter.assign_advice(A, 1, known(22)).unwrap();
    let sum = assign_sum(&columns, &mut layouter, "sum", &x, &y).unwrap();
    assert_eq!(sum, AssignedCell { cell: Cell { column: C, row: 2 }, value: known(42) });
    assert_eq!(layouter.rows(), 3);
    assert!(layouter.is_enabled(S, 2));
    assert_eq!(layouter.value(Cell { column: A, row: 2 }), Some(known(20)));
    assert_eq!(layouter.value(Cell { column: B, row: 2 }), Some(known(22)));
    assert_eq!(layouter.copies().len(), 2);
    assert_eq!(layouter.regions()[1].name, "sum");
    assert_eq!(MockProver::new(cs, layouter).verify(), Ok(()));
}

#[test]
fn an_addition_row_needs_its_operands_and_three_columns() {
    let mut cs = ConstraintSystem::new();
    let columns = declare(&mut cs);
    let mut layouter = with_inputs(&[]);
    layouter.assign_region("operands");
    let x = layouter.assign_advice(A, 0, known(20)).unwrap();
    let missing = AssignedCell { cell: Cell { column: A, row: 9 }, value: known(1) };
    assert_eq!(assign_sum(&columns, &mut layouter, "sum", &missing, &x), Err(Error::CellNotFound));
    assert_eq!(assign_sum(&columns, &mut layouter, "sum", &x, &missing), Err(Error::CellNotFound));
    let mut same = columns;
    same.c = same.a;
    assert_eq!(assign_sum(&same, &mut layouter, "sum", &x, &x), Err(Error::CellAlreadyAssigned));
    let mut same = columns;
    same.b = same.a;
    assert_eq!(assign_sum(&same, &mut layouter, "sum", &x, &x), Err(Error::CellAlreadyAssigned));
    assert!(assign_sum(&columns, &mut layouter, "sum", &x, &x).is_ok());
}
