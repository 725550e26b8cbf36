use qlang::engine::gate::Gate;
use qlang::interpreter::evaluator::environment::{Bits, EvaluatorType};
use qlang::interpreter::evaluator::runtime_error::RuntimeError;
use qlang::interpreter::evaluator::{Action, Evaluator};
use qlang::interpreter::lexer::Lexer;
use qlang::interpreter::parser::ast_types::{Expr, Statement};
use qlang::interpreter::parser::Parser;

fn parser_for(src: &str) -> Parser {
    let mut lexer = Lexer::new();
    lexer.load_bytes(src.as_bytes());
    assert!(lexer.scan_tokens().is_ok());
    Parser::new(lexer.into_tokens())
}

fn program(src: &str) -> Vec<Statement> {
    parser_for(src).parse().unwrap()
}

fn expr(src: &str) -> Expr {
    parser_for(src).parse_expr().unwrap()
}

fn bits_of(r: Result<EvaluatorType, RuntimeError>) -> Bits {
    match r {
        Ok(EvaluatorType::Bits(b)) => b,
        _ => panic!("expected bits"),
    }
}

const BV: &str = "bits secret = 0b0110;
function f(x: bits[4]) -> bits[1] { x * secret }
oracle U_f(x: qubits[4], y: qubits[1]) loads f;
circuit bernstein_vazirani {
    register:
        qubits x = \"++++\";
        qubits y = \"-\";
    apply:
        U_f(x, y);
        H(x);
        measure(x);
}
bernstein_vazirani.measure(shots=3);";

#[test]
fn bernstein_vazirani_hands_over_its_measurement() {
    let mut ev = Evaluator::new(program(BV));
    let job = match ev.eval() {
        Ok(Some(Action::Run(job))) => job,
        _ => panic!("expected a run"),
    };
    assert_eq!(job.name, "bernstein_vazirani");
    assert_eq!(job.shots, 3);
    assert!(!job.verbose);
    assert_eq!(job.circuit.init, "++++-");
    let shown: Vec<String> = job.circuit.ops.iter().map(|op| op.to_string()).collect();
    assert_eq!(
        shown,
        vec!["U_f[0, 1, 2, 3, 4]", "H[0]", "H[1]", "H[2]", "H[3]", "measure[0, 1, 2, 3]"]
    );
    assert!(matches!(ev.eval(), Ok(None)));
}

#[test]
fn oracle_evaluates_its_function() {
    let mut ev = Evaluator::new(program(BV));
    let job = match ev.eval() {
        Ok(Some(Action::Run(job))) => job,
        _ => panic!("expected a run"),
    };
    let bb = match &job.circuit.ops[0].gate_kind {
        Gate::BlackBox(bb) => bb,
        _ => panic!("expected the oracle"),
    };
    assert_eq!(bb.input_size(), 4);
    assert_eq!(bb.output_size(), 1);
    // x * 0b0110: the parity of the bits that x shares with the secret
    assert_eq!(bb.eval(0b0110).unwrap(), 0);
    assert_eq!(bb.eval(0b0010).unwrap(), 1);
    assert_eq!(bb.eval(0b0100).unwrap(), 1);
    assert_eq!(bb.eval(0b1001).unwrap(), 0);
    assert_eq!(bb.eval(0b1111).unwrap(), 0);
}

#[test]
fn bitwise_operators_on_bound_bits() {
    let mut ev = Evaluator::new(program("bits a = 0b1100; bits b = 0b1010;"));
    assert!(matches!(ev.eval(), Ok(None)));
    assert_eq!(bits_of(ev.eval_expr(&expr("a ^ b"))), Bits { literal: 0b0110, length: 4 });
    assert_eq!(bits_of(ev.eval_expr(&expr("a & b"))), Bits { literal: 0b1000, length: 4 });
    assert_eq!(bits_of(ev.eval_expr(&expr("a | b"))), Bits { literal: 0b1110, length: 4 });
    assert_eq!(bits_of(ev.eval_expr(&expr("a * b"))), Bits { literal: 1, length: 1 });
    assert_eq!(bits_of(ev.eval_expr(&expr("(a)"))), Bits { literal: 0b1100, length: 4 });
}

#[test]
fn functions_see_their_arguments_and_declaration_scope() {
    let mut ev = Evaluator::new(program(
        "bits k = 0b11; function g(x: bits[2], y: bits[2]) -> bits[2] { (x ^ y) & k } bits k = 0b01;",
    ));
    assert!(matches!(ev.eval(), Ok(None)));
    // `k` inside `g` is the binding seen where `g` was declared
    assert_eq!(bits_of(ev.eval_expr(&expr("g(0b10, 0b01)"))), Bits { literal: 0b11, length: 2 });
    assert!(matches!(ev.eval_expr(&expr("g(0b10)")), Err(RuntimeError::IncorrectArgs(2, 1))));
    assert!(matches!(ev.eval_expr(&expr("k(0b10)")), Err(RuntimeError::TypeMismatch)));
}

#[test]
fn unknown_name_fails() {
    let ev = Evaluator::new(program(""));
    assert!(matches!(ev.eval_expr(&expr("z")), Err(RuntimeError::VarNotFound(ref n)) if n == "z"));
}

#[test]
fn mismatched_lengths_fail_at_runtime() {
    let ev = Evaluator::new(program(""));
    assert!(matches!(ev.eval_expr(&expr("0b1 ^ 0b10")), Err(RuntimeError::TypeMismatch)));
}

#[test]
fn too_long_literal_fails_conversion() {
    let ev = Evaluator::new(program(""));
    let long = format!("0b{}", "1".repeat(80));
    let r = ev.eval_expr(&expr(&long));
    assert!(matches!(r, Err(RuntimeError::BinaryConversionFailed(ref m)) if m == "number too large to fit in target type"));
}

#[test]
fn distribution_defaults_to_one_shot() {
    let mut ev = Evaluator::new(program(
        "circuit bell { register: qubits q = \"00\"; apply: H(q[0]); CNOT(q[0], q[1]); } bell.distribution();",
    ));
    match ev.eval() {
        Ok(Some(Action::Run(job))) => {
            assert!(job.verbose);
            assert_eq!(job.shots, 1);
            let shown: Vec<String> = job.circuit.ops.iter().map(|op| op.to_string()).collect();
            assert_eq!(shown, vec!["H[0]", "CNOT[0, 1]"]);
        }
        _ => panic!("expected a run"),
    }
}

#[test]
fn evaluation_goes_on_after_an_action() {
    let mut ev = Evaluator::new(program(
        "circuit c { register: qubits q = \"0\"; apply: X(q); } c.measure(); c.printCircuit(); c.foo();",
    ));
    assert!(matches!(ev.eval(), Ok(Some(Action::Run(_)))));
    assert!(matches!(ev.eval(), Ok(Some(Action::PrintCircuit(ref n))) if n == "c"));
    assert!(matches!(ev.eval(), Err(RuntimeError::MethodUndefined(ref m)) if m == "foo"));
    assert!(matches!(ev.eval(), Ok(None)));
}

#[test]
fn method_on_missing_circuit_fails() {
    let mut ev = Evaluator::new(program("nothing.measure();"));
    assert!(matches!(ev.eval(), Err(RuntimeError::VarNotFound(ref n)) if n == "nothing"));
}

#[test]
fn index_past_a_register_fails() {
    let mut ev = Evaluator::new(program("circuit c { register: qubits q = \"01\"; apply: X(q[2]); }"));
    assert!(matches!(ev.eval(), Err(RuntimeError::OutOfBounds(ref n, 2)) if n == "q"));
}

#[test]
fn unknown_gate_fails() {
    let mut ev = Evaluator::new(program("circuit c { register: qubits q = \"01\"; apply: W(q); }"));
    assert!(matches!(ev.eval(), Err(RuntimeError::VarNotFound(ref n)) if n == "W"));
}

#[test]
fn gate_with_wrong_number_of_qubits_fails() {
    let mut ev = Evaluator::new(program("circuit c { register: qubits q = \"011\"; apply: CNOT(q); }"));
    assert!(matches!(ev.eval(), Err(RuntimeError::OracleConstructionFailed)));
}

#[test]
fn oracle_with_mismatched_function_fails() {
    let mut ev = Evaluator::new(program(
        "function f(x: bits[2]) -> bits[1] { x * x } oracle U(x: qubits[3], y: qubits[1]) loads f;",
    ));
    assert!(matches!(ev.eval(), Err(RuntimeError::OracleConstructionFailed)));
}

#[test]
fn oracle_with_wrong_parameter_count_fails() {
    let mut ev = Evaluator::new(program(
        "function f(x: bits[2]) -> bits[1] { x * x } oracle U(x: qubits[2]) loads f;",
    ));
    assert!(matches!(ev.eval(), Err(RuntimeError::IncorrectArgs(2, 1))));
}

#[test]
fn oracle_with_larger_output_fails() {
    let mut ev = Evaluator::new(program(
        "function f(x: bits[1]) -> bits[2] { x } oracle U(x: qubits[1], y: qubits[2]) loads f;",
    ));
    assert!(matches!(ev.eval(), Err(RuntimeError::OracleConstructionFailed)));
}

#[test]
fn oracle_loading_a_function_without_input_fails() {
    let mut ev = Evaluator::new(program(
        "function f() -> bits[1] { 0b1 } oracle U(x: qubits[1], y: qubits[1]) loads f;",
    ));
    assert!(matches!(ev.eval(), Err(RuntimeError::OracleConstructionFailed)));
}

#[test]
fn oracle_loading_a_function_of_two_inputs_fails() {
    let mut ev = Evaluator::new(program(
        "function f(a: bits[4], b: bits[2]) -> bits[1] { a * a } oracle U(x: qubits[4], y: qubits[1]) loads f;",
    ));
    assert!(matches!(ev.eval(), Err(RuntimeError::OracleConstructionFailed)));
}

#[test]
fn oracle_of_size_zero_fails() {
    let mut ev = Evaluator::new(program(
        "function f(a: bits[0]) -> bits[0] { a } oracle U(x: qubits[0], y: qubits[0]) loads f;",
    ));
    assert!(matches!(ev.eval(), Err(RuntimeError::OracleConstructionFailed)));
}

#[test]
fn oracle_binds_its_sizes_and_function() {
    let mut ev = Evaluator::new(program(
        "function f(a: bits[3]) -> bits[1] { a * a } oracle U(x: qubits[3], y: qubits[1]) loads f;
circuit c { register: qubits x = \"+++\"; qubits y = \"-\"; apply: U(x, y); } c.measure();",
    ));
    match ev.eval() {
        Ok(Some(Action::Run(job))) => {
            assert_eq!(job.circuit.ops.len(), 1);
            match &job.circuit.ops[0].gate_kind {
                Gate::BlackBox(bb) => {
                    assert_eq!(bb.input_size, 3);
                    assert_eq!(bb.output_size, 1);
                }
                _ => panic!("expected the oracle"),
            }
            assert_eq!(job.circuit.ops[0].targets, vec![0, 1, 2, 3]);
        }
        _ => panic!("expected a run"),
    }
}

#[test]
fn assignment_of_a_function_fails() {
    let mut ev = Evaluator::new(program("function f(x: bits[1]) -> bits[1] { x } bits g = f;"));
    assert!(matches!(ev.eval(), Err(RuntimeError::TypeMismatch)));
}

#[test]
fn runtime_messages() {
    assert_eq!(RuntimeError::IncorrectArgs(2, 1).message(), "expected '2' args in function, but got '1'");
    assert_eq!(
        RuntimeError::OutOfBounds("q".to_string(), 2).message(),
        "Identifier 'q' in circuit has no index 2"
    );
    assert_eq!(RuntimeError::Fatal.message(), "an unexpected error occured.");
}
