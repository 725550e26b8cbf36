use vstd::prelude::*;

verus! {

/// The kinds of lexemes.
#[derive(Debug, Clone, Copy, PartialEq, Eq, Structural)]
pub enum TokenType {
    // symbols
    Equals,
    Semicolon,
    Colon,
    Comma,
    Underscore,
    Period,
    LParen,
    RParen,
    LBrace,
    RBrace,
    LSqBracket,
    RSqBracket,
    Arrow,
    // operators
    Caret,
    Ampersand,
    Pipe,
    Star,
    // keywords
    Bits,
    Qubits,
    Function,
    Oracle,
    Loads,
    Circuit,
    Register,
    Apply,
    // literals and names
    Identifier,
    BitsLiteral,
    IntLiteral,
    StringLiteral,
    EOF,
}

/// A lexeme of the source, with its kind and the line and column at which
/// the lexer stood after reading it.
#[derive(Debug, Clone)]
pub struct Token {
    pub token_type: TokenType,
    pub lexeme: String,
    pub line: usize,
    pub col: usize,
}

pub struct SpecToken {
    pub token_type: TokenType,
    pub lexeme: Seq<char>,
    pub line: usize,
    pub col: usize,
}

impl View for Token {
    type V = SpecToken;

    open spec fn view(&self) -> SpecToken {
        SpecToken {
            token_type: self.token_type,
            lexeme: self.lexeme@,
            line: self.line,
            col: self.col,
        }
    }
}

pub open spec fn tokens_view(s: Seq<Token>) -> Seq<SpecToken> {
    s.map_values(|t: Token| t@)
}

impl Token {
    pub fn new(token_type: TokenType, lexeme: String, line: usize, col: usize) -> (res: Self)
        ensures
            res@ == (SpecToken { token_type, lexeme: lexeme@, line, col }),
    {
        Token { token_type, lexeme, line, col }
    }
}

} // verus!
