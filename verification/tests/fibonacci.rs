use halo2_circuits::circuit::AssignedCell;
use halo2_circuits::circuit::Binding;
use halo2_circuits::circuit::Cell;
use halo2_circuits::circuit::CopyConstraint;
use halo2_circuits::circuit::Layouter;
use halo2_circuits::circuit::Value;
use halo2_circuits::dev::MockProver;
use halo2_circuits::dev::VerifyFailure;
use halo2_circuits::fibonacci::FibonacciChip;
use halo2_circuits::fibonacci::FibonacciConfig;
use halo2_circuits::fibonacci::MyCircuit;
use halo2_circuits::fibonacci::ROWS;
use halo2_circuits::fibonacci::TARGET;
use halo2_circuits::field::Fp;
use halo2_circuits::plonk::AdviceColumn;
use halo2_circuits::plonk::Column;
use halo2_circuits::plonk::ConstraintSystem;
use halo2_circuits::plonk::Error;
use halo2_circuits::plonk::InstanceColumn;
use halo2_circuits::plonk::Selector;

const A1: AdviceColumn = AdviceColumn { index: 0 };
const A2: AdviceColumn = AdviceColumn { index: 1 };
const A3: AdviceColumn = AdviceColumn { index: 2 };
const I: InstanceColumn = InstanceColumn { index: 0 };

fn inputs(values: &[u64]) -> Vec<Vec<Fp>> {
    vec![values.iter().map(|n| Fp::from_u64(*n)).collect()]
}

fn known(n: u64) -> Value {
    Value::known(Fp::from_u64(n))
}

fn standard() -> FibonacciConfig {
    FibonacciConfig {
        col_advice_1: A1,
        col_advice_2: A2,
        col_advice_3: A3,
        col_selector_1: Selector { index: 0 },
        col_instance_1: I,
    }
}

fn target_failure() -> Vec<VerifyFailure> {
    vec![VerifyFailure::Instance { cell: Cell { column: A3, row: 7 }, column: I, row: 2 }]
}

#[test]
fn the_tenth_term_of_one_and_one_is_55() {
    let prover = MyCircuit {}.mock_prover(inputs(&[1, 1, 55])).unwrap();
    assert_eq!(prover.verify(), Ok(()));
}

#[test]
fn a_wrong_second_seed_fails_at_the_target() {
    let prover = MyCircuit {}.mock_prover(inputs(&[1, 7, 55])).unwrap();
    assert_eq!(prover.verify(), Err(target_failure()));
    let prover = MyCircuit {}.mock_prover(inputs(&[1, 7, 259])).unwrap();
    assert_eq!(prover.verify(), Ok(()));
}

#[test]
fn a_wrong_target_fails_at_the_target() {
    let prover = MyCircuit {}.mock_prover(inputs(&[1, 1, 30])).unwrap();
    assert_eq!(prover.verify(), Err(target_failure()));
    let prover = MyCircuit {}.mock_prover(inputs(&[1, 1, 34])).unwrap();
    assert_eq!(prover.verify(), Err(target_failure()));
    let prover = MyCircuit {}.mock_prover(inputs(&[1, 1, 89])).unwrap();
    assert_eq!(prover.verify(), Err(target_failure()));
}

#[test]
fn other_seeds_have_other_targets() {
    assert_eq!(MyCircuit {}.mock_prover(inputs(&[0, 0, 0])).unwrap().verify(), Ok(()));
    assert_eq!(MyCircuit {}.mock_prover(inputs(&[0, 1, 34])).unwrap().verify(), Ok(()));
    assert_eq!(MyCircuit {}.mock_prover(inputs(&[2, 5, 212])).unwrap().verify(), Ok(()));
    assert_eq!(
        MyCircuit {}.mock_prover(inputs(&[2, 5, 211])).unwrap().verify(),
        Err(target_failure())
    );
}

#[test]
fn the_recurrence_is_taken_in_the_field() {
    // 21 * (-1) + 34 * 1 = 13
    let minus_one = Fp::from_u64(1).neg();
    let instance = vec![vec![minus_one, Fp::from_u64(1), Fp::from_u64(13)]];
    assert_eq!(MyCircuit {}.mock_prover(instance).unwrap().verify(), Ok(()));
    // 21 * (-1) + 34 * (-1) = -55
    let instance = vec![vec![minus_one, minus_one, Fp::from_u64(55).neg()]];
    assert_eq!(MyCircuit {}.mock_prover(instance).unwrap().verify(), Ok(()));
    let instance = vec![vec![minus_one, minus_one, Fp::from_u64(55)]];
    assert_eq!(MyCircuit {}.mock_prover(instance).unwrap().verify(), Err(target_failure()));
}

#[test]
fn public_inputs_of_another_shape_are_refused() {
    assert_eq!(MyCircuit {}.mock_prover(inputs(&[1, 1])).err(), Some(Error::InvalidInstances));
    assert_eq!(MyCircuit {}.mock_prover(inputs(&[])).err(), Some(Error::InvalidInstances));
    assert_eq!(
        MyCircuit {}.mock_prover(inputs(&[1, 1, 55, 0])).err(),
        Some(Error::InvalidInstances)
    );
    assert_eq!(MyCircuit {}.mock_prover(vec![]).err(), Some(Error::InvalidInstances));
    let two = vec![inputs(&[1, 1, 55]).remove(0), inputs(&[1, 1, 55]).remove(0)];
    assert_eq!(MyCircuit {}.mock_prover(two).err(), Some(Error::InvalidInstances));
}

#[test]
fn the_relation_declares_its_columns_and_one_gate() {
    let mut cs = ConstraintSystem::new();
    let config = MyCircuit::configure(&mut cs);
    assert_eq!(config, standard());
    assert_eq!(cs.num_advice_columns, 3);
    assert_eq!(cs.num_selectors, 1);
    assert_eq!(cs.num_instance_columns, 1);
    assert_eq!(
        cs.equality,
        vec![Column::Advice(A1), Column::Advice(A2), Column::Advice(A3), Column::Instance(I)]
    );
    assert_eq!(cs.gates.len(), 1);
    assert_eq!(cs.gates[0].name, "add");
    let mut again = ConstraintSystem::new();
    assert_eq!(FibonacciChip::configure(&mut again), config);
    assert_eq!(again, cs);
    assert_eq!(FibonacciChip::construct(&config).config, config);
    assert_eq!(MyCircuit {}.without_witnesses(), MyCircuit {});
}

#[test]
fn the_table_holds_three_consecutive_terms_in_each_row() {
    let prover = MyCircuit {}.mock_prover(inputs(&[1, 1, 55])).unwrap();
    let layouter = &prover.layouter;
    assert_eq!(ROWS, 8);
    assert_eq!(TARGET, 2);
    assert_eq!(layouter.rows(), 8);
    let terms: [u64; 10] = [1, 1, 2, 3, 5, 8, 13, 21, 34, 55];
    for row in 0..8 {
        assert_eq!(layouter.value(Cell { column: A1, row }), Some(known(terms[row])));
        assert_eq!(layouter.value(Cell { column: A2, row }), Some(known(terms[row + 1])));
        assert_eq!(layouter.value(Cell { column: A3, row }), Some(known(terms[row + 2])));
        assert!(layouter.is_enabled(Selector { index: 0 }, row));
    }
    assert_eq!(layouter.value(Cell { column: A1, row: 8 }), None);
    assert!(!layouter.is_enabled(Selector { index: 0 }, 8));
    assert_eq!(layouter.value(Cell { column: AdviceColumn { index: 3 }, row: 0 }), None);
}

#[test]
fn each_row_copies_the_second_and_third_cell_of_the_row_before() {
    let prover = MyCircuit {}.mock_prover(inputs(&[1, 1, 55])).unwrap();
    let copies = prover.layouter.copies();
    assert_eq!(copies.len(), 14);
    for row in 1..8 {
        assert_eq!(
            copies[2 * (row - 1)],
            CopyConstraint {
                left: Cell { column: A2, row: row - 1 },
                right: Cell { column: A1, row }
            }
        );
        assert_eq!(
            copies[2 * (row - 1) + 1],
            CopyConstraint {
                left: Cell { column: A3, row: row - 1 },
                right: Cell { column: A2, row }
            }
        );
    }
}

#[test]
fn the_seeds_and_the_last_sum_are_bound_to_the_public_inputs() {
    let prover = MyCircuit {}.mock_prover(inputs(&[1, 1, 55])).unwrap();
    assert_eq!(
        prover.layouter.bindings(),
        &vec![
            Binding { cell: Cell { column: A1, row: 0 }, column: I, row: 0 },
            Binding { cell: Cell { column: A2, row: 0 }, column: I, row: 1 },
            Binding { cell: Cell { column: A3, row: 7 }, column: I, row: 2 },
        ]
    );
}

#[test]
fn each_row_is_a_region_of_its_own() {
    let prover = MyCircuit {}.mock_prover(inputs(&[1, 1, 55])).unwrap();
    let regions = prover.layouter.regions();
    assert_eq!(regions.len(), 8);
    assert_eq!(regions[0].name, "First Row");
    for (row, region) in regions.iter().enumerate() {
        assert_eq!(region.start, row);
        if row > 0 {
            assert_eq!(region.name, "Next Row");
        }
    }
}

#[test]
fn the_first_row_takes_the_seeds_from_the_public_inputs() {
    let mut layouter = Layouter::new(Some(inputs(&[3, 4])));
    let chip = FibonacciChip::construct(&standard());
    let (a, b, c) = chip.assign_first_row(&mut layouter).unwrap();
    assert_eq!(a, AssignedCell { cell: Cell { column: A1, row: 0 }, value: known(3) });
    assert_eq!(b, AssignedCell { cell: Cell { column: A2, row: 0 }, value: known(4) });
    assert_eq!(c, AssignedCell { cell: Cell { column: A3, row: 0 }, value: known(7) });
    assert_eq!(layouter.rows(), 1);
    assert!(layouter.is_enabled(Selector { index: 0 }, 0));
    assert_eq!(layouter.bindings().len(), 2);
    let d = chip.assign_row(&mut layouter, &b, &c).unwrap();
    assert_eq!(d, AssignedCell { cell: Cell { column: A3, row: 1 }, value: known(11) });
    assert_eq!(layouter.value(Cell { column: A1, row: 1 }), Some(known(4)));
    assert_eq!(layouter.value(Cell { column: A2, row: 1 }), Some(known(7)));
    assert_eq!(layouter.rows(), 2);
}

#[test]
fn a_missing_seed_is_an_error() {
    let chip = FibonacciChip::construct(&standard());
    let mut layouter = Layouter::new(Some(inputs(&[3])));
    assert_eq!(chip.assign_first_row(&mut layouter).err(), Some(Error::CellNotFound));
    let mut layouter = Layouter::new(Some(inputs(&[])));
    assert_eq!(chip.assign_first_row(&mut layouter).err(), Some(Error::CellNotFound));
    let mut layouter = Layouter::new(Some(vec![]));
    assert_eq!(MyCircuit {}.synthesize(standard(), &mut layouter), Err(Error::CellNotFound));
}

#[test]
fn a_missing_target_is_an_error() {
    let mut layouter = Layouter::new(Some(inputs(&[1, 1])));
    assert_eq!(MyCircuit {}.synthesize(standard(), &mut layouter), Err(Error::CellNotFound));
}

#[test]
fn columns_that_coincide_are_an_error() {
    let mut config = standard();
    config.col_advice_2 = config.col_advice_1;
    let mut layouter = Layouter::new(Some(inputs(&[1, 1, 55])));
    assert_eq!(MyCircuit {}.synthesize(config, &mut layouter), Err(Error::CellAlreadyAssigned));
    let mut config = standard();
    config.col_advice_3 = config.col_advice_2;
    let mut layouter = Layouter::new(Some(inputs(&[1, 1, 55])));
    assert_eq!(MyCircuit {}.synthesize(config, &mut layouter), Err(Error::CellAlreadyAssigned));
    let mut layouter = Layouter::new(Some(inputs(&[1])));
    assert_eq!(MyCircuit {}.synthesize(config, &mut layouter), Err(Error::CellNotFound));
}

#[test]
fn a_row_needs_the_cells_it_copies() {
    let chip = FibonacciChip::construct(&standard());
    let mut layouter = Layouter::new(Some(inputs(&[1, 1, 55])));
    let (_, b, c) = chip.assign_first_row(&mut layouter).unwrap();
    let missing = AssignedCell { cell: Cell { column: A2, row: 4 }, value: known(1) };
    assert_eq!(chip.assign_row(&mut layouter, &missing, &c), Err(Error::CellNotFound));
    assert_eq!(chip.assign_row(&mut layouter, &b, &missing), Err(Error::CellNotFound));
}

#[test]
fn the_shape_is_derived_without_public_inputs() {
    let mut cs = ConstraintSystem::new();
    let config = MyCircuit::configure(&mut cs);
    let mut layouter = Layouter::new(None);
    assert_eq!(MyCircuit {}.without_witnesses().synthesize(config, &mut layouter), Ok(()));
    assert_eq!(layouter.rows(), 8);
    assert_eq!(layouter.copies().len(), 14);
    assert_eq!(layouter.bindings().len(), 3);
    assert_eq!(layouter.regions().len(), 8);
    for row in 0..8 {
        for column in [A1, A2, A3] {
            assert_eq!(layouter.value(Cell { column, row }), Some(Value::Unknown));
        }
    }
    let with_inputs = MyCircuit {}.mock_prover(inputs(&[1, 1, 55])).unwrap();
    assert_eq!(layouter.copies(), with_inputs.layouter.copies());
    assert_eq!(layouter.bindings(), with_inputs.layouter.bindings());
    assert_eq!(layouter.regions(), with_inputs.layouter.regions());
    assert!(MockProver::new(cs, layouter).verify().is_err());
}

#[test]
fn the_relation_is_laid_out_below_what_the_table_holds() {
    let mut cs = ConstraintSystem::new();
    let config = MyCircuit::configure(&mut cs);
    let mut layouter = Layouter::new(Some(inputs(&[1, 1, 55])));
    layouter.assign_region("before");
    layouter.assign_advice(A1, 0, known(9)).unwrap();
    layouter.assign_advice(A1, 1, known(9)).unwrap();
    assert_eq!(MyCircuit {}.synthesize(config, &mut layouter), Ok(()));
    assert_eq!(layouter.rows(), 10);
    assert_eq!(layouter.value(Cell { column: A1, row: 1 }), Some(known(9)));
    assert_eq!(layouter.value(Cell { column: A3, row: 9 }), Some(known(55)));
    assert_eq!(
        layouter.bindings()[2],
        Binding { cell: Cell { column: A3, row: 9 }, column: I, row: 2 }
    );
    assert_eq!(MockProver::new(cs, layouter).verify(), Ok(()));
}

#[test]
fn checking_the_relation_twice_gives_the_same_report() {
    let prover = MyCircuit {}.mock_prover(inputs(&[1, 7, 55])).unwrap();
    let first = prover.verify();
    assert_eq!(first, prover.verify());
    assert_eq!(first, Err(target_failure()));
    let prover = MyCircuit {}.mock_prover(inputs(&[1, 1, 55])).unwrap();
    assert_eq!(prover.verify(), prover.verify());
}
