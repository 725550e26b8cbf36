use qlang::interpreter::lexer::Lexer;
use qlang::interpreter::parser::ast_types::Statement;
use qlang::interpreter::parser::Parser;
use qlang::interpreter::type_checker::lang_types::LanguageType;
use qlang::interpreter::type_checker::type_error::TypeError;
use qlang::interpreter::type_checker::{CheckStop, TypeChecker};

fn program(src: &str) -> Vec<Statement> {
    let mut lexer = Lexer::new();
    lexer.load_bytes(src.as_bytes());
    assert!(lexer.scan_tokens().is_ok());
    Parser::new(lexer.into_tokens()).parse().unwrap()
}

fn check(src: &str) -> (TypeChecker, Result<(), TypeError>) {
    let prg = program(src);
    let mut tc = TypeChecker::new();
    let r = tc.ensure_program(&prg);
    (tc, r)
}

#[test]
fn well_typed_program_passes() {
    let (tc, r) = check(
        "bits secret = 0b0110;
function f(x: bits[4]) -> bits[1] { x * secret }
oracle U_f(x: qubits[4], y: qubits[1]) loads f;
circuit bv { register: qubits x = \"++++\"; qubits y = \"-\"; apply: U_f(x, y); H(x); measure(x); }
bv.measure(shots=3);",
    );
    assert!(r.is_ok());
    assert_eq!(tc.identifier_types.len(), 4);
    assert!(matches!(tc.identifier_types[0].1, LanguageType::Bits(4)));
    assert!(matches!(tc.identifier_types[2].1, LanguageType::Oracle(4, 1)));
    assert!(matches!(tc.identifier_types[3].1, LanguageType::Circuit));
}

#[test]
fn unresolved_identifier_fails() {
    let (_, r) = check("bits a = b;");
    assert!(matches!(r, Err(TypeError::UnresolvedIdentifier(ref n)) if n == "b"));
}

#[test]
fn mismatched_lengths_fail() {
    let (_, r) = check("bits a = 0b01 & 0b011;");
    assert!(matches!(r, Err(TypeError::BinaryOpFailed(2, 3))));
}

#[test]
fn qubit_parameter_in_function_fails() {
    let (_, r) = check("function f(x: qubits[1]) -> bits[1] { x }");
    assert!(matches!(r, Err(TypeError::FunctionArgWrongType(ref n)) if n == "f"));
}

#[test]
fn qubit_return_in_function_fails() {
    let (_, r) = check("function f(x: bits[1]) -> qubits[1] { x }");
    assert!(matches!(r, Err(TypeError::FunctionReturnWrongType(ref n)) if n == "f"));
}

#[test]
fn wrong_return_length_fails() {
    let (_, r) = check("function f(x: bits[2]) -> bits[1] { x }");
    assert!(matches!(r, Err(TypeError::FunctionIncorrectlyTyped(ref n)) if n == "f"));
}

#[test]
fn gate_with_wrong_arity_fails() {
    let (_, r) = check("circuit c { register: qubits q = \"000\"; apply: CNOT(q); }");
    assert!(matches!(r, Err(TypeError::InvalidGateAppl(ref g, 2, 3)) if g == "CNOT"));
}

#[test]
fn method_on_bits_fails() {
    let (_, r) = check("bits a = 0b1; a.measure();");
    assert!(matches!(r, Err(TypeError::Expected(t, ref got)) if t == "circuit" && got == "bits"));
}

#[test]
fn type_messages() {
    assert_eq!(
        TypeError::BinaryOpFailed(2, 3).message(),
        "Failed to compose binary operation (LHS was a 2-bitstring, RHS was a 3-bitstring)"
    );
    assert_eq!(
        TypeError::InvalidGateAppl("CNOT".to_string(), 2, 3).message(),
        "Gate 'CNOT' expected 2 qubits, but got 3"
    );
    assert_eq!(TypeError::UnresolvedIdentifier("b".to_string()).message(), "Variable 'b' could not be resolved.");
    assert_eq!(TypeError::Todo.message(), "This error has yet to be properly documented");
}

#[test]
fn checking_stops_at_first_failure() {
    let mut prg = program("x");
    prg.extend(program("bits x = 0b1;"));
    assert_eq!(prg.len(), 2);
    let mut tc = TypeChecker::new();
    let r = tc.ensure_program(&prg);
    assert!(matches!(r, Err(TypeError::UnresolvedIdentifier(ref n)) if n == "x"));
    assert!(tc.identifier_types.is_empty());
}

#[test]
fn checking_a_split_program_in_two_calls_agrees() {
    let first = program("bits a = 0b10;");
    let second = program("bits b = a & 0b01; function f(x: bits[2]) -> bits[2] { x ^ b }");
    let mut whole = program("bits a = 0b10;");
    whole.extend(program("bits b = a & 0b01; function f(x: bits[2]) -> bits[2] { x ^ b }"));

    let mut one = TypeChecker::new();
    assert!(one.ensure_program(&whole).is_ok());

    let mut two = TypeChecker::new();
    assert!(two.ensure_program(&first).is_ok());
    assert!(two.ensure_program(&second).is_ok());

    assert_eq!(one.identifier_types.len(), 3);
    assert_eq!(two.identifier_types.len(), 3);
    for i in 0..3 {
        assert_eq!(one.identifier_types[i].0, two.identifier_types[i].0);
        assert!(one.identifier_types[i].1 == two.identifier_types[i].1);
    }
}

#[test]
fn check_statements_reports_overflow_where_the_oracle_is_applied() {
    let prg = program(
        "function f(x: bits[18446744073709551615]) -> bits[1] { x * x }
oracle U(x: qubits[18446744073709551615], y: qubits[1]) loads f;
circuit c { register: qubits x = \"+\"; qubits y = \"-\"; apply: U(x, y); }",
    );
    let mut tc = TypeChecker::new();
    assert!(matches!(tc.check_statements(&prg[..2].to_vec()), Ok(())));
    let mut tc = TypeChecker::new();
    assert!(matches!(tc.check_statements(&prg), Err(CheckStop::Overflow)));
    assert_eq!(tc.identifier_types.len(), 2);
}
