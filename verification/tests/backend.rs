//! The library against the proving backend: a relation that the library has
//! laid out is handed to `halo2_proofs` cell by cell, and the backend's
//! verdicts are held against the library's.

use std::collections::HashMap;

use halo2_circuits::addition::Columns;
use halo2_circuits::circuit;
use halo2_circuits::fibonacci;
use halo2_circuits::field;
use halo2_circuits::plonk;
use halo2_circuits::sudoku;
use halo2_proofs::circuit::{Cell, Layouter, SimpleFloorPlanner, Value};
use halo2_proofs::dev::MockProver;
use halo2_proofs::pasta::group::ff::PrimeField;
use halo2_proofs::pasta::{EqAffine, Fp};
use halo2_proofs::plonk::{
    create_proof, keygen_pk, keygen_vk, verify_proof, Advice, Circuit, Column, ConstraintSystem,
    Error, Expression, Instance, Selector, SingleVerifier, VirtualCells,
};
use halo2_proofs::poly::commitment::Params;
use halo2_proofs::poly::Rotation;
use halo2_proofs::transcript::{Blake2bRead, Blake2bWrite, Challenge255};
use rand_core::RngCore;

const SOLVED: [[u8; 9]; 9] = [
    [7, 6, 9, 5, 3, 8, 1, 2, 4],
    [2, 4, 3, 7, 1, 9, 6, 5, 8],
    [8, 5, 1, 4, 6, 2, 9, 7, 3],
    [4, 8, 6, 9, 7, 5, 3, 1, 2],
    [5, 3, 7, 6, 2, 1, 4, 8, 9],
    [1, 9, 2, 8, 4, 3, 7, 6, 5],
    [6, 1, 8, 3, 5, 4, 2, 9, 7],
    [9, 7, 4, 2, 8, 6, 5, 3, 1],
    [3, 2, 5, 1, 9, 7, 8, 4, 6],
];

/// A source of randomness that gives the same bytes in every run.
struct Fixed(u64);

impl RngCore for Fixed {
    fn next_u32(&mut self) -> u32 {
        (self.next_u64() >> 32) as u32
    }

    fn next_u64(&mut self) -> u64 {
        self.0 ^= self.0 << 13;
        self.0 ^= self.0 >> 7;
        self.0 ^= self.0 << 17;
        self.0
    }

    fn fill_bytes(&mut self, dest: &mut [u8]) {
        for chunk in dest.chunks_mut(8) {
            let bytes = self.next_u64().to_le_bytes();
            chunk.copy_from_slice(&bytes[..chunk.len()]);
        }
    }

    fn try_fill_bytes(&mut self, dest: &mut [u8]) -> Result<(), rand_core::Error> {
        self.fill_bytes(dest);
        Ok(())
    }
}

#[derive(Clone)]
enum Relation {
    Fibonacci(Option<Vec<field::Fp>>),
    Sudoku(sudoku::MyCircuit),
}

fn to_library(x: &Fp) -> field::Fp {
    field::Fp::from_repr(x.to_repr()).unwrap()
}

fn to_backend(x: &field::Fp) -> Fp {
    Option::<Fp>::from(Fp::from_repr(x.to_repr())).unwrap()
}

fn value_to_backend(value: circuit::Value) -> Value<Fp> {
    match value {
        circuit::Value::Known(x) => Value::known(to_backend(&x)),
        circuit::Value::Unknown => Value::unknown(),
    }
}

fn polynomial(
    e: &plonk::Expression,
    meta: &mut VirtualCells<'_, Fp>,
    advice: &[Column<Advice>],
) -> Expression<Fp> {
    match e {
        plonk::Expression::Constant(c) => Expression::Constant(to_backend(c)),
        plonk::Expression::Advice { column, rotation } => {
            meta.query_advice(advice[column.index], Rotation(rotation.offset))
        }
        plonk::Expression::Negated(a) => -polynomial(a, meta, advice),
        plonk::Expression::Sum(a, b) => polynomial(a, meta, advice) + polynomial(b, meta, advice),
        plonk::Expression::Product(a, b) => {
            polynomial(a, meta, advice) * polynomial(b, meta, advice)
        }
    }
}

#[derive(Clone, Debug)]
struct Handles {
    columns: Columns,
    advice: Vec<Column<Advice>>,
    instance: Vec<Column<Instance>>,
    selectors: Vec<Selector>,
}

impl Relation {
    fn lay_out(&self, columns: Columns) -> Result<circuit::Layouter, plonk::Error> {
        match self {
            Relation::Fibonacci(inputs) => {
                let mut table = circuit::Layouter::new(inputs.clone().map(|x| vec![x]));
                let config = fibonacci::FibonacciConfig {
                    col_advice_1: columns.a,
                    col_advice_2: columns.b,
                    col_advice_3: columns.c,
                    col_selector_1: columns.selector,
                    col_instance_1: columns.instance,
                };
                fibonacci::MyCircuit {}.synthesize(config, &mut table)?;
                Ok(table)
            }
            Relation::Sudoku(circuit) => {
                let mut table = circuit::Layouter::new(None);
                let config = sudoku::SudokuConfig {
                    col_advice_1: columns.a,
                    col_advice_2: columns.b,
                    col_advice_3: columns.c,
                    col_selector_1: columns.selector,
                    col_instance_1: columns.instance,
                };
                circuit.synthesize(config, &mut table)?;
                Ok(table)
            }
        }
    }
}

impl Circuit<Fp> for Relation {
    type Config = Handles;
    type FloorPlanner = SimpleFloorPlanner;

    fn without_witnesses(&self) -> Self {
        match self {
            Relation::Fibonacci(_) => Relation::Fibonacci(None),
            Relation::Sudoku(circuit) => Relation::Sudoku(circuit.without_witnesses()),
        }
    }

    fn configure(meta: &mut ConstraintSystem<Fp>) -> Handles {
        let mut cs = plonk::ConstraintSystem::new();
        let columns = halo2_circuits::addition::declare(&mut cs);
        let advice: Vec<_> = (0..cs.num_advice_columns).map(|_| meta.advice_column()).collect();
        let selectors: Vec<_> = (0..cs.num_selectors).map(|_| meta.selector()).collect();
        let instance: Vec<_> =
            (0..cs.num_instance_columns).map(|_| meta.instance_column()).collect();
        for column in &cs.equality {
            match column {
                plonk::Column::Advice(a) => meta.enable_equality(advice[a.index]),
                plonk::Column::Instance(i) => meta.enable_equality(instance[i.index]),
            }
        }
        for gate in &cs.gates {
            let name: &'static str = Box::leak(gate.name.clone().into_boxed_str());
            meta.create_gate(name, |meta| {
                let s = meta.query_selector(selectors[gate.selector.index]);
                vec![s * polynomial(&gate.polynomial, meta, &advice)]
            });
        }
        Handles { columns, advice, instance, selectors }
    }

    fn synthesize(&self, config: Handles, mut layouter: impl Layouter<Fp>) -> Result<(), Error> {
        let table = self.lay_out(config.columns).map_err(|_| Error::Synthesis)?;
        let rows = table.rows();
        let regions = table.regions();
        let mut cells: HashMap<(usize, usize), Cell> = HashMap::new();
        for (i, region) in regions.iter().enumerate() {
            let end = regions.get(i + 1).map_or(rows, |next| next.start);
            let made = layouter.assign_region(
                || region.name.clone(),
                |mut out| {
                    let mut made = Vec::new();
                    for row in region.start..end {
                        let offset = row - region.start;
                        for (index, selector) in config.selectors.iter().enumerate() {
                            if table.is_enabled(plonk::Selector { index }, row) {
                                selector.enable(&mut out, offset)?;
                            }
                        }
                        for (index, column) in config.advice.iter().enumerate() {
                            let cell = circuit::Cell { column: plonk::AdviceColumn { index }, row };
                            if let Some(value) = table.value(cell) {
                                let assigned = out.assign_advice(
                                    || "cell",
                                    *column,
                                    offset,
                                    || value_to_backend(value),
                                )?;
                                made.push(((index, row), assigned.cell()));
                            }
                        }
                    }
                    for copy in table.copies() {
                        if copy.right.row < region.start || copy.right.row >= end {
                            continue;
                        }
                        let find = |cell: &circuit::Cell| {
                            let key = (cell.column.index, cell.row);
                            made.iter()
                                .find(|(at, _)| *at == key)
                                .map(|(_, made)| *made)
                                .or_else(|| cells.get(&key).copied())
                        };
                        match (find(&copy.left), find(&copy.right)) {
                            (Some(left), Some(right)) => out.constrain_equal(left, right)?,
                            _ => return Err(Error::Synthesis),
                        }
                    }
                    Ok(made)
                },
            )?;
            cells.extend(made);
        }
        for binding in table.bindings() {
            let cell = cells[&(binding.cell.column.index, binding.cell.row)];
            layouter.constrain_instance(cell, config.instance[binding.column.index], binding.row)?;
        }
        Ok(())
    }
}

fn elements(values: &[u64]) -> Vec<Fp> {
    values.iter().map(|n| Fp::from(*n)).collect()
}

fn fibonacci_relation(public_input: &[Fp]) -> Relation {
    Relation::Fibonacci(Some(public_input.iter().map(to_library).collect()))
}

fn library_passes_fibonacci(public_input: &[Fp]) -> bool {
    let inputs: Vec<field::Fp> = public_input.iter().map(to_library).collect();
    fibonacci::MyCircuit {}.mock_prover(vec![inputs]).unwrap().verify().is_ok()
}

fn library_passes_sudoku(grid: [[u8; 9]; 9], public_input: &[Fp]) -> bool {
    let inputs: Vec<field::Fp> = public_input.iter().map(to_library).collect();
    sudoku::MyCircuit { sudoku: grid }.mock_prover(vec![inputs]).unwrap().verify().is_ok()
}

fn backend_passes(k: u32, relation: &Relation, public_input: &[Fp]) -> bool {
    MockProver::run(k, relation, vec![public_input.to_vec()]).unwrap().verify().is_ok()
}

/// Whether the backend, given this witness, yields a proof that it accepts
/// for these public inputs.
fn proof_verifies(k: u32, relation: &Relation, public_input: &[Fp]) -> bool {
    let params: Params<EqAffine> = Params::new(k);
    let vk = keygen_vk(&params, relation).unwrap();
    let pk = keygen_pk(&params, vk.clone(), relation).unwrap();
    let mut transcript = Blake2bWrite::<_, _, Challenge255<_>>::init(vec![]);
    let made = create_proof(
        &params,
        &pk,
        &[relation.clone()],
        &[&[public_input]],
        Fixed(0x2545_f491_4f6c_dd1d),
        &mut transcript,
    );
    if made.is_err() {
        return false;
    }
    let proof: Vec<u8> = transcript.finalize();
    let strategy = SingleVerifier::new(&params);
    let mut reader = Blake2bRead::<_, _, Challenge255<_>>::init(&proof[..]);
    verify_proof(&params, &vk, strategy, &[&[public_input]], &mut reader).is_ok()
}

#[test]
fn field_elements_cross_the_boundary_unchanged() {
    for n in [0u64, 1, 45, 55, u64::MAX] {
        assert_eq!(to_backend(&field::Fp::from_u64(n)), Fp::from(n));
        assert_eq!(to_library(&Fp::from(n)), field::Fp::from_u64(n));
    }
    let x = -Fp::from(7);
    assert_eq!(to_library(&x), field::Fp::from_u64(7).neg());
    assert_eq!(to_backend(&to_library(&x)), x);
    let a = Fp::from(u64::MAX) * Fp::from(u64::MAX);
    let b = -Fp::from(3);
    assert_eq!(to_library(&(a + b)), to_library(&a).add(&to_library(&b)));
    assert_eq!(to_library(&(a * b)), to_library(&a).mul(&to_library(&b)));
    assert_eq!(to_library(&(-a)), to_library(&a).neg());
}

#[test]
fn the_backend_agrees_on_the_recurrence() {
    for input in [[1u64, 1, 55], [1, 7, 55], [1, 7, 259], [1, 1, 30], [0, 0, 0], [2, 5, 212]] {
        let public_input = elements(&input);
        let relation = fibonacci_relation(&public_input);
        assert_eq!(
            backend_passes(4, &relation, &public_input),
            library_passes_fibonacci(&public_input)
        );
    }
    assert!(library_passes_fibonacci(&elements(&[1, 1, 55])));
    assert!(!library_passes_fibonacci(&elements(&[1, 7, 55])));
}

#[test]
fn the_backend_agrees_on_the_grid() {
    let all_45 = elements(&[45; 27]);
    let mut wrong = SOLVED;
    wrong[4][7] = 9;
    for grid in [SOLVED, [[5; 9]; 9], wrong, [[0; 9]; 9]] {
        let relation = Relation::Sudoku(sudoku::MyCircuit { sudoku: grid });
        assert_eq!(backend_passes(9, &relation, &all_45), library_passes_sudoku(grid, &all_45));
    }
    assert!(library_passes_sudoku(SOLVED, &all_45));
    assert!(library_passes_sudoku([[5; 9]; 9], &all_45));
    assert!(!library_passes_sudoku(wrong, &all_45));
}

#[test]
fn a_recurrence_that_passes_locally_is_proved_and_verified() {
    let public_input = elements(&[1, 1, 55]);
    assert!(library_passes_fibonacci(&public_input));
    assert!(proof_verifies(4, &fibonacci_relation(&public_input), &public_input));
}

#[test]
fn a_recurrence_that_fails_locally_is_not_verified() {
    let public_input = elements(&[1, 7, 55]);
    assert!(!library_passes_fibonacci(&public_input));
    assert!(!proof_verifies(4, &fibonacci_relation(&public_input), &public_input));
    // Nor does a witness for other seeds serve for this target.
    let witness = fibonacci_relation(&elements(&[1, 7, 259]));
    assert!(!proof_verifies(4, &witness, &public_input));
}

#[test]
fn a_grid_that_passes_locally_is_proved_and_verified() {
    let public_input = elements(&[45; 27]);
    assert!(library_passes_sudoku(SOLVED, &public_input));
    let relation = Relation::Sudoku(sudoku::MyCircuit { sudoku: SOLVED });
    assert!(proof_verifies(9, &relation, &public_input));
}

#[test]
fn a_grid_that_fails_locally_is_not_verified() {
    let public_input = elements(&[45; 27]);
    let mut wrong = SOLVED;
    wrong[4][7] = 9;
    assert!(!library_passes_sudoku(wrong, &public_input));
    let relation = Relation::Sudoku(sudoku::MyCircuit { sudoku: wrong });
    assert!(!proof_verifies(9, &relation, &public_input));
}
