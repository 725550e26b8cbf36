use std::sync::Arc;

use qlang::engine::black_box::BlackBox;
use qlang::engine::gate::Gate;
use qlang::engine::operator::Operator;
use qlang::engine::operator_helpers::{
    apply_cnot, apply_pauli_x, apply_toffoli, apply_u_f, qubit_mask, target_qubit,
};
use qlang::engine::qubit_register::{
    basis_sign, check_pattern, check_targets, measurement_mask, outcome_bits, pattern_masks,
    register_dimension,
};
use qlang::engine::register_error::RegisterError;
use qlang::interpreter::evaluator::environment::{Closure, Environment};
use qlang::interpreter::lexer::Lexer;
use qlang::interpreter::parser::Parser;

fn closure(params: &[&str], body: &str) -> Arc<Closure> {
    let mut lexer = Lexer::new();
    lexer.load_bytes(body.as_bytes());
    assert!(lexer.scan_tokens().is_ok());
    let body = Parser::new(lexer.into_tokens()).parse_expr().unwrap();
    Arc::new(Closure {
        params: params.iter().map(|p| p.to_string()).collect(),
        body,
        scope: Environment::new(),
    })
}

#[test]
fn pauli_x_swaps_pairs_and_undoes_itself() {
    let original: Vec<u32> = (0..8).collect();
    let mut state = original.clone();
    assert!(apply_pauli_x(&mut state, 3, &vec![0]));
    assert_eq!(state, vec![4, 5, 6, 7, 0, 1, 2, 3]);
    assert!(apply_pauli_x(&mut state, 3, &vec![0]));
    assert_eq!(state, original);
    assert!(apply_pauli_x(&mut state, 3, &vec![2]));
    assert_eq!(state, vec![1, 0, 3, 2, 5, 4, 7, 6]);
}

#[test]
fn pauli_x_rejects_bad_targets() {
    let mut state: Vec<u32> = (0..4).collect();
    assert!(!apply_pauli_x(&mut state, 2, &vec![2]));
    assert!(!apply_pauli_x(&mut state, 2, &vec![]));
    assert_eq!(state, vec![0, 1, 2, 3]);
}

#[test]
fn cnot_flips_target_where_control_is_set() {
    let original: Vec<u32> = (0..4).collect();
    let mut state = original.clone();
    assert!(apply_cnot(&mut state, 2, &vec![0, 1]));
    // |10> and |11> change places
    assert_eq!(state, vec![0, 1, 3, 2]);
    assert!(apply_cnot(&mut state, 2, &vec![0, 1]));
    assert_eq!(state, original);
    assert!(!apply_cnot(&mut state, 2, &vec![1, 1]));
    assert!(!apply_cnot(&mut state, 2, &vec![0, 2]));
    assert!(!apply_cnot(&mut state, 2, &vec![0]));
}

#[test]
fn toffoli_flips_target_where_both_controls_are_set() {
    let original: Vec<u32> = (0..8).collect();
    let mut state = original.clone();
    assert!(apply_toffoli(&mut state, 3, &vec![0, 1, 2]));
    assert_eq!(state, vec![0, 1, 2, 3, 4, 5, 7, 6]);
    assert!(apply_toffoli(&mut state, 3, &vec![0, 1, 2]));
    assert_eq!(state, original);
    assert!(!apply_toffoli(&mut state, 3, &vec![0, 0, 2]));
}

#[test]
fn u_f_applies_the_function_and_undoes_itself() {
    // f(x) = x & 0b1 on one input bit and one output bit
    let f = BlackBox::new(closure(&["x"], "x & 0b1"), 1, 1);
    let original: Vec<u32> = vec![10, 11, 12, 13];
    let mut state = original.clone();
    assert!(apply_u_f(&mut state, 2, &f).unwrap());
    // |1, y> -> |1, y ^ 1>
    assert_eq!(state, vec![10, 11, 13, 12]);
    assert!(apply_u_f(&mut state, 2, &f).unwrap());
    assert_eq!(state, original);
}

#[test]
fn u_f_on_a_misaligned_register_fails() {
    let f = BlackBox::new(closure(&["x"], "x"), 1, 1);
    let mut state: Vec<u32> = (0..8).collect();
    assert!(matches!(apply_u_f(&mut state, 3, &f), Err(RegisterError::BlackBoxMisalign)));
    assert_eq!(state, (0..8).collect::<Vec<u32>>());
}

#[test]
fn u_f_with_a_state_sized_for_the_box_but_wrong_count_fails() {
    // the state has 2^(n + m) amplitudes, but the register is said to have
    // a different number of qubits
    let f = BlackBox::new(closure(&["x"], "x"), 1, 1);
    let mut state: Vec<u32> = (0..4).collect();
    assert!(matches!(apply_u_f(&mut state, 5, &f), Err(RegisterError::BlackBoxMisalign)));
    assert_eq!(state, (0..4).collect::<Vec<u32>>());
}

#[test]
fn u_f_with_a_failing_function_fails() {
    let f = BlackBox::new(closure(&["x"], "unknown"), 1, 1);
    let mut state: Vec<u32> = (0..4).collect();
    assert!(matches!(apply_u_f(&mut state, 2, &f), Err(RegisterError::RunTimeFailure(None))));
}

#[test]
fn black_box_evaluates_its_body() {
    let f = BlackBox::new(closure(&["x"], "x ^ 0b101"), 3, 3);
    assert_eq!(f.eval(0b011).unwrap(), 0b110);
    assert_eq!(f.input_size(), 3);
    assert_eq!(f.output_size(), 3);
}

#[test]
fn masks_pick_qubits_from_the_left() {
    assert_eq!(qubit_mask(3, 0), 0b100);
    assert_eq!(qubit_mask(3, 2), 0b001);
    assert_eq!(target_qubit(&vec![1, 5], 2), Some(1));
    assert_eq!(target_qubit(&vec![2], 2), None);
    assert_eq!(target_qubit(&vec![], 2), None);
}

#[test]
fn register_dimension_checks_size() {
    assert_eq!(register_dimension(3).unwrap(), 8);
    assert!(matches!(register_dimension(0), Err(RegisterError::EmptyRegister)));
    assert!(matches!(register_dimension(17), Err(RegisterError::TooManyQubits(17, 16))));
}

#[test]
fn pattern_checks() {
    assert_eq!(check_pattern(&"0+-1".to_string()).unwrap(), 4);
    assert!(matches!(check_pattern(&String::new()), Err(RegisterError::EmptyRegister)));
    assert!(matches!(
        check_pattern(&"01010101010101010".to_string()),
        Err(RegisterError::TooManyQubits(17, 16))
    ));
    match check_pattern(&"0x1".to_string()) {
        Err(RegisterError::InvalidQubit(c, alphabet)) => {
            assert_eq!(c, 'x');
            assert_eq!(alphabet, vec!['0', '1', '+', '-']);
        }
        _ => panic!("expected an invalid qubit"),
    }
}

#[test]
fn pattern_masks_and_signs() {
    let m = pattern_masks(&"1+-".to_string());
    assert_eq!(m.fixed_mask, 0b100);
    assert_eq!(m.fixed_values, 0b100);
    assert_eq!(m.minus_mask, 0b001);
    assert_eq!(m.superposed, 2);
    assert_eq!(basis_sign(0b000, &m), None);
    assert_eq!(basis_sign(0b100, &m), Some(false));
    assert_eq!(basis_sign(0b101, &m), Some(true));
    assert_eq!(basis_sign(0b111, &m), Some(true));
    assert_eq!(basis_sign(0b110, &m), Some(false));
}

#[test]
fn targets_and_measurements() {
    assert!(check_targets(&vec![0, 2], 3).is_ok());
    assert!(matches!(check_targets(&vec![0, 3, 4], 3), Err(RegisterError::OutOfRange(3, 3))));
    assert_eq!(measurement_mask(&vec![0, 2], 3), 0b101);
    assert_eq!(outcome_bits(0b101, &vec![2, 1, 0], 3), vec![1, 0, 1]);
}

#[test]
fn operators_check_their_arity() {
    assert!(Operator::new(Gate::CNot, vec![0]).is_none());
    let op = Operator::new(Gate::CNot, vec![0, 1]).unwrap();
    assert_eq!(op.to_string(), "CNOT[0, 1]");
    let m = Operator::new(Gate::Measure(3), vec![2, 0, 1]).unwrap();
    assert_eq!(m.to_string(), "measure[2, 0, 1]");
    let uf = Operator::new_u_f(closure(&["x"], "x"), 2, 1).unwrap();
    assert!(uf.targets.is_empty());
    assert_eq!(uf.gate_kind.arity(), 3);
}

#[test]
fn gate_arities() {
    assert_eq!(Gate::Hadamard.arity(), 1);
    assert_eq!(Gate::Swap.arity(), 2);
    assert_eq!(Gate::CSwap.arity(), 3);
    assert_eq!(Gate::Measure(5).arity(), 5);
    assert_eq!(Gate::arity_from_string(&"CCNOT".to_string(), 0), Some(3));
    assert_eq!(Gate::arity_from_string(&"measure".to_string(), 7), Some(7));
    assert_eq!(Gate::arity_from_string(&"W".to_string(), 7), None);
}

#[test]
fn register_messages() {
    assert_eq!(
        RegisterError::TooManyQubits(17, 16).message(),
        "Passed '17' qubits to register, but maximum is 16."
    );
    assert_eq!(
        RegisterError::InvalidQubit('x', vec!['0', '1']).message(),
        "Character 'x' does not exist in alphabet {'{'0', '1'}'}."
    );
    assert_eq!(
        RegisterError::OutOfRange(3, 2).message(),
        "Tried to operate on qubit '3', but only 2 are in the register."
    );
}
