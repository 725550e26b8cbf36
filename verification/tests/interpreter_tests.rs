use qlang::interpreter::evaluator::Action;
use qlang::interpreter::parser::parser_error::ParserError;
use qlang::interpreter::type_checker::type_error::TypeError;
use qlang::interpreter::{InterpretError, Interpreter};

#[test]
fn interprets_the_readme_example() {
    let src = "# Bernstein-Vazirani #
bits secret = 0b0110;
function f(x: bits[4]) -> bits[1] {
    x * secret
}
oracle U_f(x: qubits[4], y: qubits[1]) loads f;
circuit bernstein_vazirani {
    register:
        qubits x = \"++++\";
        qubits y = \"-\";
    apply:
        U_f(x, y);
        H(x);
        measure(x);
}
bernstein_vazirani.measure(shots=3);";
    let mut ev = match Interpreter::interpret(src.as_bytes()) {
        Ok(ev) => ev,
        Err(_) => panic!("expected the program to be accepted"),
    };
    match ev.eval() {
        Ok(Some(Action::Run(job))) => {
            assert_eq!(job.shots, 3);
            assert_eq!(job.circuit.ops.len(), 6);
        }
        _ => panic!("expected a run"),
    }
    assert!(matches!(ev.eval(), Ok(None)));
}

#[test]
fn lexing_failure_is_reported() {
    match Interpreter::interpret("bits a = 0b1;\n?".as_bytes()) {
        Err(InterpretError::Lexing(report)) => {
            assert_eq!(report, "Error on line 2, col 1:\nDetails: Unexpected Character '?' read.")
        }
        _ => panic!("expected a lexing failure"),
    }
}

#[test]
fn parsing_failure_is_reported() {
    assert!(matches!(
        Interpreter::interpret("bits = 0b1;".as_bytes()),
        Err(InterpretError::Parsing(ParserError::UnexpectedToken(ref l))) if l == "="
    ));
}

#[test]
fn typing_failure_is_reported() {
    assert!(matches!(
        Interpreter::interpret("bits a = b;".as_bytes()),
        Err(InterpretError::Typing(TypeError::UnresolvedIdentifier(ref n))) if n == "b"
    ));
}

const HUGE_ORACLE: &str = "function f(x: bits[18446744073709551615]) -> bits[1] { x * x }
oracle U(x: qubits[18446744073709551615], y: qubits[1]) loads f;";

#[test]
fn oracle_whose_sizes_never_add_is_accepted() {
    assert!(Interpreter::interpret(HUGE_ORACLE.as_bytes()).is_ok());
}

#[test]
fn applying_an_oracle_whose_sizes_overflow_fails() {
    let src = format!(
        "{} circuit c {{ register: qubits x = \"+\"; qubits y = \"-\"; apply: U(x, y); }}",
        HUGE_ORACLE
    );
    assert!(matches!(Interpreter::interpret(src.as_bytes()), Err(InterpretError::SizeOverflow)));
}

#[test]
fn earlier_type_error_comes_before_overflow() {
    let src = format!(
        "bits a = b; {} circuit c {{ register: qubits x = \"+\"; qubits y = \"-\"; apply: U(x, y); }}",
        HUGE_ORACLE
    );
    assert!(matches!(
        Interpreter::interpret(src.as_bytes()),
        Err(InterpretError::Typing(TypeError::UnresolvedIdentifier(ref n))) if n == "b"
    ));
}
