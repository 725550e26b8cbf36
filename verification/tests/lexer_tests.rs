use qlang::interpreter::lexer::lexer_error::LexerError;
use qlang::interpreter::lexer::token::TokenType;
use qlang::interpreter::lexer::Lexer;

fn lex(src: &str) -> (Lexer, Result<(), LexerError>) {
    let mut lexer = Lexer::new();
    lexer.load_bytes(src.as_bytes());
    let r = lexer.scan_tokens();
    (lexer, r)
}

fn kinds(lexer: &Lexer) -> Vec<TokenType> {
    lexer.tokens.iter().map(|t| t.token_type).collect()
}

#[test]
fn lexes_an_assignment() {
    let (lexer, r) = lex("bits secret = 0b0110;");
    assert!(r.is_ok());
    assert_eq!(
        kinds(&lexer),
        vec![
            TokenType::Bits,
            TokenType::Identifier,
            TokenType::Equals,
            TokenType::BitsLiteral,
            TokenType::Semicolon,
            TokenType::EOF
        ]
    );
    assert_eq!(lexer.tokens[1].lexeme, "secret");
    assert_eq!(lexer.tokens[3].lexeme, "0b0110");
}

#[test]
fn lexes_keywords_symbols_and_literals() {
    let (lexer, r) = lex("function oracle loads circuit register apply qubits -> [ ] { } ( ) , . : _ ^ & | * 42 \"+-\"");
    assert!(r.is_ok());
    assert_eq!(
        kinds(&lexer),
        vec![
            TokenType::Function,
            TokenType::Oracle,
            TokenType::Loads,
            TokenType::Circuit,
            TokenType::Register,
            TokenType::Apply,
            TokenType::Qubits,
            TokenType::Arrow,
            TokenType::LSqBracket,
            TokenType::RSqBracket,
            TokenType::LBrace,
            TokenType::RBrace,
            TokenType::LParen,
            TokenType::RParen,
            TokenType::Comma,
            TokenType::Period,
            TokenType::Colon,
            TokenType::Underscore,
            TokenType::Caret,
            TokenType::Ampersand,
            TokenType::Pipe,
            TokenType::Star,
            TokenType::IntLiteral,
            TokenType::StringLiteral,
            TokenType::EOF
        ]
    );
    assert_eq!(lexer.tokens[22].lexeme, "42");
    assert_eq!(lexer.tokens[23].lexeme, "\"+-\"");
}

#[test]
fn comments_and_blanks_make_no_tokens() {
    let (lexer, r) = lex("# a comment #\n  x\t");
    assert!(r.is_ok());
    assert_eq!(kinds(&lexer), vec![TokenType::Identifier, TokenType::EOF]);
}

#[test]
fn tokens_carry_line_and_column() {
    let (lexer, r) = lex("ab\ncd");
    assert!(r.is_ok());
    assert_eq!(lexer.tokens[0].line, 1);
    assert_eq!(lexer.tokens[0].col, 3);
    assert_eq!(lexer.tokens[1].line, 2);
    assert_eq!(lexer.tokens[1].col, 2);
}

#[test]
fn empty_source_gives_only_eof() {
    let (lexer, r) = lex("");
    assert!(r.is_ok());
    assert_eq!(kinds(&lexer), vec![TokenType::EOF]);
}

#[test]
fn unclosed_string_fails() {
    let (_, r) = lex("qubits x = \"01");
    assert!(matches!(r, Err(LexerError::UnclosedString)));
}

#[test]
fn unclosed_comment_fails() {
    let (_, r) = lex("# never closed");
    assert!(matches!(r, Err(LexerError::UnclosedComment)));
}

#[test]
fn unexpected_char_fails() {
    let (_, r) = lex("bits x = 0b01 $");
    assert!(matches!(r, Err(LexerError::UnexpectedChar('$'))));
}

#[test]
fn lone_dash_fails() {
    let (_, r) = lex("-x");
    assert!(matches!(r, Err(LexerError::UnexpectedChar('-'))));
}

#[test]
fn bits_prefix_without_digits_fails() {
    let (_, r) = lex("0b2");
    assert!(matches!(r, Err(LexerError::UnexpectedChar('2'))));
}

#[test]
fn show_error_reports_position_and_failure() {
    let (lexer, r) = lex("x\n $");
    let e = r.err().unwrap();
    assert_eq!(lexer.show_error(e), "Error on line 2, col 2:\nDetails: Unexpected Character '$' read.");
}

#[test]
fn lexer_messages() {
    assert_eq!(LexerError::UnclosedString.message(), "String not closed before EOF.");
    assert_eq!(LexerError::UnclosedComment.message(), "Comment not closed before EOF.");
    assert_eq!(LexerError::UnexpectedEOF.message(), "Unexpected End-of-File");
    assert_eq!(
        LexerError::FileError("a.q".to_string(), "missing".to_string()).message(),
        "Cannot read file 'a.q': missing"
    );
}
