use miden_logic::advice::{
    append_ood_evaluations, build_advice, build_kernel_digest_advice, build_stack_io_advice,
    challenges_to_u64s, commitment_to_u64s, AdviceSource, FriRound, OodMatrix, QuadFelt,
    KERNEL_PTR, STACK_IO_PTR,
};
use miden_logic::felt::{Felt, FELT_ORDER};
use miden_logic::word::Word;

fn q(a: u64, b: u64) -> QuadFelt {
    QuadFelt { c0: Felt::new(a), c1: Felt::new(b) }
}

#[test]
fn kernel_digests_are_flattened_in_order() {
    let digests = [Word(1, 2, 3, 4), Word(5, 6, 7, FELT_ORDER + 8)];
    assert_eq!(build_kernel_digest_advice(&digests), vec![1, 2, 3, 4, 5, 6, 7, 8]);
    assert!(build_kernel_digest_advice(&[]).is_empty());
}

#[test]
fn stack_io_is_inputs_then_outputs() {
    let inputs = [Felt::new(1), Felt::new(2)];
    let outputs = [Felt::new(FELT_ORDER + 3)];
    assert_eq!(build_stack_io_advice(&inputs, &outputs), vec![1, 2, 3]);
}

#[test]
fn commitments_and_challenges_are_canonical() {
    assert_eq!(commitment_to_u64s(Word(FELT_ORDER, 1, 2, 3)), vec![0, 1, 2, 3]);
    assert_eq!(challenges_to_u64s(&[q(1, 2), q(3, FELT_ORDER + 4)]), vec![1, 2, 3, 4]);
}

#[test]
fn ood_rows_at_z_come_before_rows_at_z_next() {
    let evals = vec![
        vec![OodMatrix { width: 1, values: vec![q(1, 1), q(2, 2)] }],
        vec![
            OodMatrix { width: 2, values: vec![q(3, 3), q(4, 4)] },
            OodMatrix { width: 1, values: vec![q(5, 5), q(6, 6)] },
        ],
    ];
    let mut stack = vec![99];
    append_ood_evaluations(&mut stack, &evals);
    assert_eq!(stack, vec![99, 1, 1, 3, 3, 4, 4, 5, 5, 2, 2, 6, 6]);
}

fn source() -> AdviceSource {
    AdviceSource {
        program_digest: Word(11, 12, 13, 14),
        kernel_digests: vec![Word(21, 22, 23, 24)],
        log_core_trace_height: 10,
        log_chiplets_trace_height: 9,
        stack_inputs: vec![Felt::new(31)],
        stack_outputs: vec![Felt::new(32)],
        num_queries: 27,
        query_pow_bits: 16,
        deep_pow_bits: 5,
        folding_pow_bits: 4,
        deferred_root: Word(41, 42, 43, 44),
        main_commit: Word(51, 52, 53, 54),
        aux_commit: Word(61, 62, 63, 64),
        all_aux_values: vec![vec![q(71, 72)], vec![]],
        quotient_commit: Word(81, 82, 83, 84),
        deep_alpha: q(91, 92),
        ood_evals: vec![vec![OodMatrix { width: 1, values: vec![q(101, 102), q(103, 104)] }]],
        deep_pow_witness: Felt::new(111),
        fri_rounds: vec![FriRound { commitment: Word(121, 122, 123, 124), pow_witness: Felt::new(125) }],
        final_poly: vec![q(131, 132)],
        query_pow_witness: Felt::new(141),
    }
}

#[test]
fn initial_stack_layout() {
    let stacks = build_advice(&source());
    assert_eq!(stacks.initial_stack, vec![KERNEL_PTR, 1, STACK_IO_PTR, 11, 12, 13, 14, 10, 9]);
    assert_eq!(KERNEL_PTR, 0);
    assert_eq!(STACK_IO_PTR, 4096);
}

#[test]
fn advice_stack_layout() {
    let stacks = build_advice(&source());
    let expected: Vec<u64> = vec![
        21, 22, 23, 24, // kernel digests
        31, 32, // stack i/o
        27, 16, 5, 4, // security parameters
        41, 42, 43, 44, // deferred root
        51, 52, 53, 54, // main commitment
        61, 62, 63, 64, // aux commitment
        71, 72, // aux finals
        81, 82, 83, 84, // quotient commitment
        92, 91, // DEEP alpha, second coefficient first
        101, 102, 103, 104, // OOD rows
        111, // DEEP PoW witness
        121, 122, 123, 124, 125, // FRI round
        131, 132, // remainder
        141, // query PoW witness
    ];
    assert_eq!(stacks.advice_stack, expected);
}
