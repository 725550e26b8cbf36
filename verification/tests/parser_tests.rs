use qlang::interpreter::lexer::Lexer;
use qlang::interpreter::lexer::token::{Token, TokenType};
use qlang::interpreter::parser::ast_types::{Applies, BinOp, Expr, Statement, Type};
use qlang::interpreter::parser::parser_error::ParserError;
use qlang::interpreter::parser::Parser;

fn parser_for(src: &str) -> Parser {
    let mut lexer = Lexer::new();
    lexer.load_bytes(src.as_bytes());
    assert!(lexer.scan_tokens().is_ok());
    Parser::new(lexer.into_tokens())
}

fn parse(src: &str) -> Result<Vec<Statement>, ParserError> {
    parser_for(src).parse()
}

#[test]
fn parses_precedence_of_operators() {
    // `*` binds loosest, then `|`, `^`, `&`
    let e = parser_for("a * b | c ^ d & e").parse_expr().unwrap();
    match e {
        Expr::Binary { op: BinOp::DotProduct, left, right } => {
            assert!(matches!(*left, Expr::Identifier(ref n) if n == "a"));
            match *right {
                Expr::Binary { op: BinOp::Or, left, right } => {
                    assert!(matches!(*left, Expr::Identifier(ref n) if n == "b"));
                    match *right {
                        Expr::Binary { op: BinOp::Xor, right, .. } => {
                            assert!(matches!(*right, Expr::Binary { op: BinOp::And, .. }));
                        }
                        _ => panic!("expected xor"),
                    }
                }
                _ => panic!("expected or"),
            }
        }
        _ => panic!("expected dot product"),
    }
}

#[test]
fn binary_operators_associate_left() {
    let e = parser_for("a & b & c").parse_expr().unwrap();
    match e {
        Expr::Binary { op: BinOp::And, left, right } => {
            assert!(matches!(*left, Expr::Binary { op: BinOp::And, .. }));
            assert!(matches!(*right, Expr::Identifier(ref n) if n == "c"));
        }
        _ => panic!("expected and"),
    }
}

#[test]
fn parses_calls_and_groupings() {
    let e = parser_for("f(a, (b), 0b1)()").parse_expr().unwrap();
    match e {
        Expr::Call { callee, args } => {
            assert!(args.is_empty());
            match *callee {
                Expr::Call { callee, args } => {
                    assert!(matches!(*callee, Expr::Identifier(ref n) if n == "f"));
                    assert_eq!(args.len(), 3);
                    assert!(matches!(args[1], Expr::Grouping(_)));
                    assert!(matches!(args[2], Expr::BitsLiteral(ref b) if b == "0b1"));
                }
                _ => panic!("expected inner call"),
            }
        }
        _ => panic!("expected call"),
    }
}

#[test]
fn parses_the_bernstein_vazirani_program() {
    let src = "bits secret = 0b0110;
function f(x: bits[4]) -> bits[1] { x * secret }
oracle U_f(x: qubits[4], y: qubits[1]) loads f;
circuit bernstein_vazirani {
    register:
        qubits x = \"++++\";
        qubits y = \"-\";
    apply:
        U_f(x, y);
        H(x);
        measure(x);
}
bernstein_vazirani.measure(shots=3);";
    let prg = parse(src).unwrap();
    assert_eq!(prg.len(), 5);
    match &prg[1] {
        Statement::Function(f) => {
            assert_eq!(f.name, "f");
            assert_eq!(f.params.len(), 1);
            assert_eq!(f.params[0].ty, Type::Bits(4));
            assert_eq!(f.return_type, Type::Bits(1));
        }
        _ => panic!("expected a function"),
    }
    match &prg[2] {
        Statement::Oracle(o) => {
            assert_eq!(o.name, "U_f");
            assert_eq!(o.loads, "f");
            assert_eq!(o.params[1].ty, Type::Qubits(1));
        }
        _ => panic!("expected an oracle"),
    }
    match &prg[3] {
        Statement::Circuit(c) => {
            assert_eq!(c.registers.len(), 2);
            assert_eq!(c.registers[0].init, "++++");
            assert_eq!(c.registers[1].init, "-");
            assert_eq!(c.instructions.len(), 3);
            assert_eq!(c.instructions[0].args[1].applies, Applies::All);
        }
        _ => panic!("expected a circuit"),
    }
    match &prg[4] {
        Statement::MethodCall(m) => {
            assert_eq!(m.name, "bernstein_vazirani");
            assert_eq!(m.call, "measure");
            assert_eq!(m.args[0].name, "shots");
            assert_eq!(m.args[0].value, 3);
        }
        _ => panic!("expected a method call"),
    }
}

#[test]
fn parses_indexed_circuit_arguments() {
    let prg = parse("circuit c { register: qubits q = \"00\"; apply: CNOT(q[0], q[1]); X(q[_]); }").unwrap();
    match &prg[0] {
        Statement::Circuit(c) => {
            assert_eq!(c.instructions[0].args[0].applies, Applies::One(0));
            assert_eq!(c.instructions[0].args[1].applies, Applies::One(1));
            assert_eq!(c.instructions[1].args[0].applies, Applies::All);
        }
        _ => panic!("expected a circuit"),
    }
}

#[test]
fn circuit_without_registers_fails() {
    let r = parse("circuit c { register: apply: }");
    assert!(matches!(r, Err(ParserError::NoRegistersParsed)));
}

#[test]
fn instruction_without_arguments_fails() {
    let r = parse("circuit c { register: qubits q = \"0\"; apply: H(); }");
    assert!(matches!(r, Err(ParserError::NoRegistersParsed)));
}

#[test]
fn missing_semicolon_fails_on_the_next_token() {
    let r = parse("bits a = 0b1 bits");
    assert!(matches!(r, Err(ParserError::UnexpectedToken(ref l)) if l == "bits"));
}

#[test]
fn huge_size_fails_conversion() {
    let r = parse("function f(x: bits[99999999999999999999999]) -> bits[1] { x }");
    assert!(matches!(r, Err(ParserError::FailedNumConversion(ref n)) if n == "99999999999999999999999"));
}

#[test]
fn wrong_type_keyword_fails() {
    let r = parse("function f(x: circuit[1]) -> bits[1] { x }");
    assert!(matches!(r, Err(ParserError::UnexpectedToken(ref l)) if l == "circuit"));
}

#[test]
fn trailing_comma_in_parameters_fails() {
    let r = parse("function f(x: bits[1], ) -> bits[1] { x }");
    assert!(matches!(r, Err(ParserError::UnexpectedToken(ref l)) if l == ")"));
}

#[test]
fn expression_at_end_fails_on_eof() {
    let r = parse("bits a = ");
    assert!(matches!(r, Err(ParserError::UnexpectedToken(ref l)) if l == " "));
}

#[test]
fn empty_program_parses() {
    let prg = parse("# nothing here #").unwrap();
    assert!(prg.is_empty());
}

#[test]
fn parser_messages() {
    assert_eq!(
        ParserError::UnexpectedToken("x".to_string()).message(),
        "Unexpected Token encountered while parsing: x."
    );
    assert_eq!(
        ParserError::NoRegistersParsed.message(),
        "Circuit expected at least one register, but none were provided."
    );
    assert_eq!(
        ParserError::FailedNumConversion("9".to_string()).message(),
        "Attempted to convert '9' to a number, but conversion failed."
    );
    assert_eq!(
        ParserError::UnexpectedEnd.message(),
        "Encountered an unexpected end of Token stream while parsing."
    );
}

fn token(tt: TokenType, lexeme: &str) -> Token {
    Token::new(tt, lexeme.to_string(), 1, 1)
}

#[test]
fn empty_token_list_parses_to_empty_program() {
    let prg = Parser::new(vec![]).parse().unwrap();
    assert!(prg.is_empty());
}

#[test]
fn lone_eof_parses_to_empty_program() {
    let prg = Parser::new(vec![token(TokenType::EOF, " ")]).parse().unwrap();
    assert!(prg.is_empty());
}

#[test]
fn tokens_after_first_eof_are_not_read() {
    let toks = vec![
        token(TokenType::Identifier, "a"),
        token(TokenType::EOF, " "),
        token(TokenType::RParen, ")"),
        token(TokenType::Semicolon, ";"),
    ];
    let prg = Parser::new(toks).parse().unwrap();
    assert_eq!(prg.len(), 1);
    assert!(matches!(&prg[0], Statement::Expr(Expr::Identifier(ref n)) if n == "a"));
}

#[test]
fn statement_cut_short_fails_on_missing_token() {
    // no end-of-file token: `expect` sees the end of the list
    let toks = vec![token(TokenType::Bits, "bits"), token(TokenType::Identifier, "a")];
    let r = Parser::new(toks).parse();
    assert!(matches!(r, Err(ParserError::UnexpectedToken(ref l)) if l == "UNEXPECTED EOF"));
}

#[test]
fn parse_function_type_cases() {
    assert!(matches!(parser_for("bits[4]").parse_function_type(), Ok(Type::Bits(4))));
    assert!(matches!(parser_for("qubits[1]").parse_function_type(), Ok(Type::Qubits(1))));
    assert!(matches!(
        parser_for("x[1]").parse_function_type(),
        Err(ParserError::UnexpectedToken(ref l)) if l == "x"
    ));
    assert!(matches!(
        parser_for("bits[99999999999999999999]").parse_function_type(),
        Err(ParserError::FailedNumConversion(ref n)) if n == "99999999999999999999"
    ));
    assert!(matches!(
        Parser::new(vec![]).parse_function_type(),
        Err(ParserError::UnexpectedEnd)
    ));
}

#[test]
fn unquoted_string_after_eof_is_not_read() {
    let toks = vec![
        token(TokenType::Identifier, "a"),
        token(TokenType::EOF, " "),
        token(TokenType::StringLiteral, "x"),
    ];
    let prg = Parser::new(toks).parse().unwrap();
    assert_eq!(prg.len(), 1);
    assert!(matches!(&prg[0], Statement::Expr(Expr::Identifier(ref n)) if n == "a"));
}
