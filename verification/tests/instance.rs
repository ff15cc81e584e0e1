use miden_logic::felt::Felt;
use miden_logic::instance::{
    check_prover_inputs, check_verifier_constraint_degree, constraint_degree_of, log2_exact, max_length, pow2_usize, validate_inputs, AirInstance, AirShape,
    AirStructureError, InstanceShapes, InstanceValidationError, ProverError, VerifierError,
};

const TWO_ADICITY: usize = 32;

fn air(width: usize, num_public_values: usize, periods: Vec<usize>, log_quotient_degree: usize) -> AirShape {
    AirShape {
        validation: Ok(()),
        width,
        num_public_values,
        num_var_len_public_inputs: 0,
        periodic_column_lengths: periods,
        log_quotient_degree,
    }
}

fn inst(num_public_values: usize) -> AirInstance {
    AirInstance { public_values: vec![Felt::zero(); num_public_values], var_len_public_inputs: vec![] }
}

fn shapes(heights: Vec<usize>) -> InstanceShapes {
    InstanceShapes::from_trace_heights(heights).unwrap()
}

#[test]
fn logs_of_powers_of_two() {
    assert_eq!(log2_exact(1), Some(0));
    assert_eq!(log2_exact(1024), Some(10));
    assert_eq!(log2_exact(0), None);
    assert_eq!(log2_exact(12), None);
    assert_eq!(pow2_usize(10), 1024);
}

#[test]
fn shapes_from_ascending_heights() {
    let s = shapes(vec![4, 4, 16]);
    assert_eq!(s.log_trace_heights(), &[2, 2, 4]);
    assert_eq!(s.len(), 3);
    assert!(!s.is_empty());
    assert_eq!(s.size_in_bytes(), 3);
    let observed: Vec<u64> = s.observed_elements().iter().map(|f| f.value).collect();
    assert_eq!(observed, vec![2, 2, 4]);
    assert!(shapes(vec![]).is_empty());
}

#[test]
fn shapes_reject_heights_that_are_not_powers_of_two() {
    assert!(matches!(
        InstanceShapes::from_trace_heights(vec![4, 12]),
        Err(InstanceValidationError::InvalidTraceHeight { height: 12 })
    ));
}

#[test]
fn shapes_reject_descending_heights() {
    assert!(matches!(
        InstanceShapes::from_trace_heights(vec![16, 4]),
        Err(InstanceValidationError::NotAscending)
    ));
}

#[test]
fn validation_returns_the_largest_log_height() {
    let instances = [(air(2, 1, vec![], 1), inst(1)), (air(3, 0, vec![8], 1), inst(0))];
    assert_eq!(validate_inputs(&instances, &shapes(vec![4, 16]), 1, TWO_ADICITY).unwrap(), 4);
}

#[test]
fn validation_errors() {
    let one = [(air(2, 1, vec![], 1), inst(1))];
    assert!(matches!(
        validate_inputs(&one, &shapes(vec![4, 8]), 1, TWO_ADICITY),
        Err(InstanceValidationError::HeightCountMismatch { instances: 1, log_trace_heights: 2 })
    ));
    assert!(matches!(
        validate_inputs(&one, &shapes(vec![1 << 20]), 13, TWO_ADICITY),
        Err(InstanceValidationError::LdeDomainExceedsTwoAdicity { log_h: 20, log_blowup: 13, two_adicity: TWO_ADICITY })
    ));
    let broken = [(
        AirShape { validation: Err(AirStructureError { message: "bad".into() }), ..air(2, 1, vec![], 1) },
        inst(1),
    )];
    assert!(matches!(
        validate_inputs(&broken, &shapes(vec![4]), 1, TWO_ADICITY),
        Err(InstanceValidationError::AirStructure(ref e)) if e.message == "bad"
    ));
    assert!(matches!(
        validate_inputs(&one, &shapes(vec![4]), 1, TWO_ADICITY).map(|_| ()),
        Ok(())
    ));
    let wrong_pv = [(air(2, 2, vec![], 1), inst(1))];
    assert!(matches!(
        validate_inputs(&wrong_pv, &shapes(vec![4]), 1, TWO_ADICITY),
        Err(InstanceValidationError::PublicValuesMismatch { expected: 2, actual: 1 })
    ));
    let wrong_vl = [(AirShape { num_var_len_public_inputs: 1, ..air(2, 1, vec![], 1) }, inst(1))];
    assert!(matches!(
        validate_inputs(&wrong_vl, &shapes(vec![4]), 1, TWO_ADICITY),
        Err(InstanceValidationError::VarLenPublicInputsMismatch { expected: 1, actual: 0 })
    ));
    let long_period = [(air(2, 1, vec![2, 32], 1), inst(1))];
    assert!(matches!(
        validate_inputs(&long_period, &shapes(vec![16]), 1, TWO_ADICITY),
        Err(InstanceValidationError::TraceHeightBelowPeriod { trace_height: 16, max_period: 32 })
    ));
    assert!(matches!(
        validate_inputs(&one, &shapes(vec![1]), 1, TWO_ADICITY),
        Err(InstanceValidationError::Empty)
    ));
    let none: [(AirShape, AirInstance); 0] = [];
    assert!(matches!(
        validate_inputs(&none, &shapes(vec![]), 1, TWO_ADICITY),
        Err(InstanceValidationError::Empty)
    ));
}

#[test]
fn prover_inputs_accepted() {
    let instances = [(air(2, 1, vec![], 1), inst(1)), (air(3, 0, vec![], 2), inst(0))];
    let (s, log_max, log_degree) =
        check_prover_inputs(&instances, vec![8, 32], &[2, 3], 3, TWO_ADICITY).unwrap();
    assert_eq!(s.log_trace_heights(), &[3, 5]);
    assert_eq!(log_max, 5);
    assert_eq!(log_degree, 2);
}

#[test]
fn prover_input_errors() {
    let instances = [(air(2, 1, vec![], 1), inst(1)), (air(3, 0, vec![], 2), inst(0))];
    assert!(matches!(
        check_prover_inputs(&instances, vec![8, 24], &[2, 3], 3, TWO_ADICITY),
        Err(ProverError::Instance(InstanceValidationError::InvalidTraceHeight { height: 24 }))
    ));
    assert!(matches!(
        check_prover_inputs(&instances, vec![8, 32], &[2, 4], 3, TWO_ADICITY),
        Err(ProverError::Instance(InstanceValidationError::WidthMismatch { expected: 3, actual: 4 }))
    ));
    assert!(matches!(
        check_prover_inputs(&instances, vec![8, 32], &[2, 3], 1, TWO_ADICITY),
        Err(ProverError::ConstraintDegreeTooHigh { log_quotient_degree: 2, log_blowup: 1 })
    ));
    assert!(matches!(
        check_prover_inputs(&instances, vec![8, 32], &[2, 3], 30, TWO_ADICITY),
        Err(ProverError::Instance(InstanceValidationError::LdeDomainExceedsTwoAdicity { .. }))
    ));
}

#[test]
fn longest_period() {
    assert_eq!(max_length(&vec![3, 9, 2]), 9);
    assert_eq!(max_length(&vec![]), 0);
}

use miden_logic::instance::{AirWitness, TraceMatrix};

#[test]
fn witness_gives_its_instance() {
    let trace = TraceMatrix { values: vec![Felt::one(); 8], width: 2 };
    assert_eq!(trace.height(), 4);
    let witness = AirWitness::new(trace, vec![Felt::new(5)], vec![vec![Felt::new(6), Felt::new(7)]]);
    let instance = witness.to_instance();
    assert_eq!(instance.public_values.len(), 1);
    assert_eq!(instance.public_values[0].value, 5);
    assert_eq!(instance.var_len_public_inputs.len(), 1);
    assert_eq!(instance.var_len_public_inputs[0][1].value, 7);
    assert_eq!(TraceMatrix { values: vec![], width: 0 }.height(), 0);
}

#[test]
fn shapes_rebuilt_from_logs_keep_them_as_given() {
    let shapes = InstanceShapes::from_log_trace_heights(vec![5, 3, 7]);
    assert_eq!(shapes.log_trace_heights(), &[5u8, 3, 7][..]);
    assert_eq!(shapes.len(), 3);
}

#[test]
fn verifier_checks_the_constraint_degree_against_the_blowup() {
    let instances = vec![(air(2, 0, vec![], 1), inst(0)), (air(3, 0, vec![], 3), inst(0))];
    assert_eq!(constraint_degree_of(&instances), 3);
    assert_eq!(check_verifier_constraint_degree(&instances, 3), Ok(3));
    assert_eq!(
        check_verifier_constraint_degree(&instances, 2),
        Err(VerifierError::ConstraintDegreeTooHigh { log_quotient_degree: 3, log_blowup: 2 })
    );
    assert_eq!(constraint_degree_of(&[]), 1);
    assert_eq!(check_verifier_constraint_degree(&[], 0), Err(VerifierError::ConstraintDegreeTooHigh { log_quotient_degree: 1, log_blowup: 0 }));
}
