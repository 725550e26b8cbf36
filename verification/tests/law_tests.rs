use qlang::engine::black_box::BlackBox;
use qlang::interpreter::evaluator::environment::{Bits, Closure, Environment, EvaluatorType};
use qlang::interpreter::evaluator::eval_circuit::get_index;
use qlang::interpreter::evaluator::runtime_error::RuntimeError;
use qlang::interpreter::evaluator::{Action, Evaluator};
use qlang::interpreter::lexer::token::TokenType;
use qlang::interpreter::lexer::Lexer;
use qlang::interpreter::parser::Parser;
use qlang::interpreter::Interpreter;
use std::sync::Arc;

#[test]
fn get_index_counts_the_registers_before() {
    let table = vec![("x".to_string(), 2), ("y".to_string(), 3)];
    assert_eq!(get_index(&table, &"y".to_string(), 1).unwrap(), 3);
    assert_eq!(get_index(&table, &"x".to_string(), 1).unwrap(), 1);
    assert!(matches!(get_index(&table, &"y".to_string(), 3), Err(RuntimeError::OutOfBounds(ref n, 3)) if n == "y"));
    assert!(matches!(get_index(&table, &"z".to_string(), 0), Err(RuntimeError::VarNotFound(ref n)) if n == "z"));
}

#[test]
fn lookup_after_insert_gives_the_new_binding() {
    let mut env = Environment::new();
    env.insert("a".to_string(), EvaluatorType::Bits(Bits { literal: 1, length: 1 }));
    env.insert("b".to_string(), EvaluatorType::Bits(Bits { literal: 2, length: 2 }));
    env.insert("a".to_string(), EvaluatorType::Bits(Bits { literal: 3, length: 2 }));
    assert_eq!(env.entries.len(), 2);
    assert!(matches!(env.get(&"a".to_string()), Some(EvaluatorType::Bits(Bits { literal: 3, length: 2 }))));
    assert!(matches!(env.get(&"b".to_string()), Some(EvaluatorType::Bits(Bits { literal: 2, length: 2 }))));
    assert!(env.get(&"c".to_string()).is_none());
}

#[test]
fn lexed_tokens_end_with_eof_and_keep_quotes() {
    let mut lexer = Lexer::new();
    lexer.load_bytes("qubits q = \"01\"; # c # bits b = 0b1;".as_bytes());
    assert!(lexer.scan_tokens().is_ok());
    let last = lexer.tokens.last().unwrap();
    assert_eq!(last.token_type, TokenType::EOF);
    for t in &lexer.tokens {
        if t.token_type == TokenType::StringLiteral {
            assert!(t.lexeme.starts_with('"') && t.lexeme.ends_with('"') && t.lexeme.len() >= 2);
        }
        if t.token_type == TokenType::BitsLiteral {
            assert!(t.lexeme.starts_with("0b"));
        }
    }
}

#[test]
fn accepted_program_runs_without_type_failures() {
    let src = "bits k = 0b101;
function f(x: bits[3], y: bits[3]) -> bits[1] { (x ^ y) * k }
function g(x: bits[3]) -> bits[1] { f(x, k) }
bits r = g(0b011);
oracle U(x: qubits[3], y: qubits[1]) loads g;
circuit c { register: qubits x = \"+++\"; qubits y = \"-\"; apply: U(x, y); H(x); measure(x); }
c.measure(shots=2);";
    let mut ev = match Interpreter::interpret(src.as_bytes()) {
        Ok(ev) => ev,
        Err(_) => panic!("expected the program to be accepted"),
    };
    assert!(matches!(ev.eval(), Ok(Some(Action::Run(_)))));
    assert!(matches!(ev.eval(), Ok(None)));
}

#[test]
fn parenthesised_callee_passes_the_checker_but_fails_at_runtime() {
    let src = "function f(x: bits[1]) -> bits[1] { x } bits a = (f)(0b1);";
    let mut ev = match Interpreter::interpret(src.as_bytes()) {
        Ok(ev) => ev,
        Err(_) => panic!("expected the program to be accepted"),
    };
    assert!(matches!(ev.eval(), Err(RuntimeError::TypeMismatch)));
}

#[test]
fn index_past_register_fails_at_runtime_only() {
    let src = "circuit c { register: qubits q = \"01\"; apply: X(q[5]); }";
    let mut ev = match Interpreter::interpret(src.as_bytes()) {
        Ok(ev) => ev,
        Err(_) => panic!("expected the program to be accepted"),
    };
    assert!(matches!(ev.eval(), Err(RuntimeError::OutOfBounds(ref n, 5)) if n == "q"));
}

#[test]
fn finished_evaluation_stays_finished() {
    let mut ev = Evaluator::new(Vec::new());
    assert!(matches!(ev.eval(), Ok(None)));
    assert!(matches!(ev.eval(), Ok(None)));
}

#[test]
fn black_box_describes_its_sizes() {
    let mut lexer = Lexer::new();
    lexer.load_bytes("x".as_bytes());
    assert!(lexer.scan_tokens().is_ok());
    let body = Parser::new(lexer.into_tokens()).parse_expr().unwrap();
    let c = Arc::new(Closure { params: vec!["x".to_string()], body, scope: Environment::new() });
    let bb = BlackBox::new(c, 4, 1);
    assert_eq!(bb.to_string(), "function with input 4 and output 1");
}

#[test]
fn bitstring_operators_commute() {
    let mut lexer = Lexer::new();
    lexer.load_bytes("bits a = 0b1101; bits b = 0b0111;".as_bytes());
    assert!(lexer.scan_tokens().is_ok());
    let prg = Parser::new(lexer.into_tokens()).parse().unwrap();
    let mut ev = Evaluator::new(prg);
    assert!(matches!(ev.eval(), Ok(None)));
    for (x, y) in [("a & b", "b & a"), ("a | b", "b | a"), ("a ^ b", "b ^ a"), ("a * b", "b * a")] {
        let mut l1 = Lexer::new();
        l1.load_bytes(x.as_bytes());
        assert!(l1.scan_tokens().is_ok());
        let e1 = Parser::new(l1.into_tokens()).parse_expr().unwrap();
        let mut l2 = Lexer::new();
        l2.load_bytes(y.as_bytes());
        assert!(l2.scan_tokens().is_ok());
        let e2 = Parser::new(l2.into_tokens()).parse_expr().unwrap();
        match (ev.eval_expr(&e1), ev.eval_expr(&e2)) {
            (Ok(EvaluatorType::Bits(p)), Ok(EvaluatorType::Bits(q))) => assert_eq!(p, q),
            _ => panic!("expected bits"),
        }
    }
}
