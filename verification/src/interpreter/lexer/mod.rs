pub mod lexer_error;
pub mod token;

use vstd::prelude::*;
use crate::interpreter::lexer::lexer_error::{LexerError, SpecLexerError, lexer_message};
use crate::interpreter::lexer::token::{SpecToken, Token, TokenType, tokens_view};
use crate::text::{decimal, push_decimal, push_str, str_eq, string_from_chars};

verus! {

// ----- characters -----

pub open spec fn is_whitespace(c: char) -> bool {
    c == ' ' || c == '\r' || c == '\t' || c == '\n'
}

/// Alphabetic characters among the first 256 code points (the characters
/// that a byte of the source maps to).
pub open spec fn latin1_alphabetic(c: char) -> bool {
    let v = c as u32;
    ||| 0x41 <= v <= 0x5A
    ||| 0x61 <= v <= 0x7A
    ||| v == 0xAA || v == 0xB5 || v == 0xBA
    ||| 0xC0 <= v <= 0xD6
    ||| 0xD8 <= v <= 0xF6
    ||| 0xF8 <= v <= 0xFF
}

/// Numeric characters among the first 256 code points.
pub open spec fn latin1_numeric(c: char) -> bool {
    let v = c as u32;
    ||| 0x30 <= v <= 0x39
    ||| v == 0xB2 || v == 0xB3 || v == 0xB9
    ||| 0xBC <= v <= 0xBE
}

pub open spec fn ident_char(c: char) -> bool {
    latin1_alphabetic(c) || latin1_numeric(c) || c == '_'
}

pub open spec fn binary_digit(c: char) -> bool {
    c == '0' || c == '1'
}

fn is_alphabetic(c: char) -> (res: bool)
    ensures
        res == latin1_alphabetic(c),
{
    let v = c as u32;
    (0x41 <= v && v <= 0x5A) || (0x61 <= v && v <= 0x7A) || v == 0xAA || v == 0xB5 || v == 0xBA
        || (0xC0 <= v && v <= 0xD6) || (0xD8 <= v && v <= 0xF6) || (0xF8 <= v && v <= 0xFF)
}

fn is_numeric(c: char) -> (res: bool)
    ensures
        res == latin1_numeric(c),
{
    let v = c as u32;
    (0x30 <= v && v <= 0x39) || v == 0xB2 || v == 0xB3 || v == 0xB9 || (0xBC <= v && v <= 0xBE)
}

/// The token of a one-character symbol.
pub open spec fn single_char_type(c: char) -> Option<TokenType> {
    if c == '=' {
        Some(TokenType::Equals)
    } else if c == ';' {
        Some(TokenType::Semicolon)
    } else if c == ':' {
        Some(TokenType::Colon)
    } else if c == ',' {
        Some(TokenType::Comma)
    } else if c == '_' {
        Some(TokenType::Underscore)
    } else if c == '.' {
        Some(TokenType::Period)
    } else if c == '(' {
        Some(TokenType::LParen)
    } else if c == ')' {
        Some(TokenType::RParen)
    } else if c == '{' {
        Some(TokenType::LBrace)
    } else if c == '}' {
        Some(TokenType::RBrace)
    } else if c == '[' {
        Some(TokenType::LSqBracket)
    } else if c == ']' {
        Some(TokenType::RSqBracket)
    } else if c == '^' {
        Some(TokenType::Caret)
    } else if c == '&' {
        Some(TokenType::Ampersand)
    } else if c == '|' {
        Some(TokenType::Pipe)
    } else if c == '*' {
        Some(TokenType::Star)
    } else {
        None
    }
}

/// The kind of a word: a keyword, else an identifier.
pub open spec fn keyword_type(word: Seq<char>) -> TokenType {
    if word == "bits"@ {
        TokenType::Bits
    } else if word == "qubits"@ {
        TokenType::Qubits
    } else if word == "function"@ {
        TokenType::Function
    } else if word == "oracle"@ {
        TokenType::Oracle
    } else if word == "loads"@ {
        TokenType::Loads
    } else if word == "circuit"@ {
        TokenType::Circuit
    } else if word == "register"@ {
        TokenType::Register
    } else if word == "apply"@ {
        TokenType::Apply
    } else {
        TokenType::Identifier
    }
}

pub open spec fn ident_pred() -> spec_fn(char) -> bool {
    |x: char| ident_char(x)
}

pub open spec fn binary_pred() -> spec_fn(char) -> bool {
    |x: char| binary_digit(x)
}

pub open spec fn numeric_pred() -> spec_fn(char) -> bool {
    |x: char| latin1_numeric(x)
}

pub open spec fn not_char(c: char) -> spec_fn(char) -> bool {
    |x: char| x != c
}

// ----- positions -----

/// The first position at or after `q` whose character fails `p` (or the
/// end of the source).
pub open spec fn span_end(src: Seq<char>, q: int, p: spec_fn(char) -> bool) -> int
    decreases src.len() - q,
{
    if 0 <= q < src.len() && p(src[q]) {
        span_end(src, q + 1, p)
    } else {
        q
    }
}

pub proof fn lemma_span_end(src: Seq<char>, q: int, p: spec_fn(char) -> bool)
    requires
        0 <= q <= src.len(),
    ensures
        q <= span_end(src, q, p) <= src.len(),
        span_end(src, q, p) < src.len() ==> !p(src[span_end(src, q, p)]),
        forall|j: int| q <= j < span_end(src, q, p) ==> p(#[trigger] src[j]),
    decreases src.len() - q,
{
    if q < src.len() && p(src[q]) {
        lemma_span_end(src, q + 1, p);
    }
}

/// The line on which the lexer stands after reading `k` characters.
pub open spec fn line_at(src: Seq<char>, k: int) -> int
    decreases k,
{
    if k <= 0 {
        1
    } else if src[k - 1] == '\n' {
        line_at(src, k - 1) + 1
    } else {
        line_at(src, k - 1)
    }
}

/// The column at which the lexer stands after reading `k` characters: one
/// past the characters since the last newline, or their count after one.
pub open spec fn col_at(src: Seq<char>, k: int) -> int
    decreases k,
{
    if k <= 0 {
        1
    } else if src[k - 1] == '\n' {
        0
    } else {
        col_at(src, k - 1) + 1
    }
}

pub proof fn lemma_line_col_bounds(src: Seq<char>, k: int)
    requires
        0 <= k,
    ensures
        1 <= line_at(src, k) <= k + 1,
        0 <= col_at(src, k) <= k + 1,
    decreases k,
{
    if k > 0 {
        lemma_line_col_bounds(src, k - 1);
    }
}

// ----- scanning -----

/// One step of the scanner at `start`: the kind of the token that the
/// characters from `start` make (none for blanks and comments) and where
/// they end, or a failure and the position at which the scanner stopped.
pub open spec fn scan_at(src: Seq<char>, start: int) -> Result<(Option<TokenType>, int), (SpecLexerError, int)> {
    let c = src[start];
    let p = start + 1;
    if is_whitespace(c) {
        Ok((None, p))
    } else if single_char_type(c) is Some {
        Ok((single_char_type(c), p))
    } else if c == '-' {
        if p < src.len() && src[p] == '>' {
            Ok((Some(TokenType::Arrow), p + 1))
        } else {
            Err((SpecLexerError::UnexpectedChar(c), p))
        }
    } else if latin1_alphabetic(c) {
        let end = span_end(src, p, ident_pred());
        Ok((Some(keyword_type(src.subrange(start, end))), end))
    } else if latin1_numeric(c) {
        if c == '0' && p < src.len() && src[p] == 'b' {
            let q = p + 1;
            let end = span_end(src, q, binary_pred());
            if end == q {
                Err((SpecLexerError::UnexpectedChar(if q < src.len() { src[q] } else { '\0' }), q))
            } else {
                Ok((Some(TokenType::BitsLiteral), end))
            }
        } else {
            Ok((Some(TokenType::IntLiteral), span_end(src, p, numeric_pred())))
        }
    } else if c == '#' {
        let q = span_end(src, p, not_char('#'));
        if q >= src.len() {
            Err((SpecLexerError::UnclosedComment, q))
        } else {
            Ok((None, q + 1))
        }
    } else if c == '"' {
        let q = span_end(src, p, not_char('"'));
        if q >= src.len() {
            Err((SpecLexerError::UnclosedString, q))
        } else {
            Ok((Some(TokenType::StringLiteral), q + 1))
        }
    } else {
        Err((SpecLexerError::UnexpectedChar(c), p))
    }
}

pub proof fn lemma_scan_progress(src: Seq<char>, start: int)
    requires
        0 <= start < src.len(),
    ensures
        match scan_at(src, start) {
            Ok((_, end)) => start < end <= src.len(),
            Err((_, p)) => start < p <= src.len(),
        },
{
    let p = start + 1;
    lemma_span_end(src, p, ident_pred());
    lemma_span_end(src, p, numeric_pred());
    lemma_span_end(src, p, not_char('#'));
    lemma_span_end(src, p, not_char('"'));
    if p + 1 <= src.len() {
        lemma_span_end(src, p + 1, binary_pred());
    }
}

/// A step that does not fail adds the token it makes, if any.
pub open spec fn step_tokens(src: Seq<char>, tt: Option<TokenType>, start: int, end: int) -> Seq<SpecToken> {
    match tt {
        Some(t) => seq![token_at(src, t, start, end)],
        None => Seq::empty(),
    }
}

/// The token of kind `t` made by the characters from `start` to `end`.
pub open spec fn token_at(src: Seq<char>, t: TokenType, start: int, end: int) -> SpecToken {
    SpecToken {
        token_type: t,
        lexeme: src.subrange(start, end),
        line: line_at(src, end) as usize,
        col: col_at(src, end) as usize,
    }
}

/// The tokens of the source from `pos` on, ended by an end-of-file token
/// whose lexeme runs from the start of the last step; or the tokens before
/// the first failure, the failure, and the position where it stopped.
pub open spec fn lex_from(src: Seq<char>, pos: int, last_start: int) -> (Seq<SpecToken>, Option<(SpecLexerError, int)>)
    decreases src.len() - pos,
{
    if pos >= src.len() || pos < 0 {
        (seq![token_at(src, TokenType::EOF, last_start, pos)], None)
    } else {
        proof {
            lemma_scan_progress(src, pos);
        }
        match scan_at(src, pos) {
            Err(ep) => (Seq::empty(), Some(ep)),
            Ok((tt, end)) => {
                let (rest, r) = lex_from(src, end, pos);
                match tt {
                    Some(t) => (seq![token_at(src, t, pos, end)] + rest, r),
                    None => (rest, r),
                }
            },
        }
    }
}

/// Away from the end, the start of the previous step does not matter.
pub proof fn lemma_lex_from_start(src: Seq<char>, pos: int, a: int, b: int)
    requires
        0 <= pos < src.len(),
    ensures
        lex_from(src, pos, a) == lex_from(src, pos, b),
{
}

// ----- the lexer -----

pub struct Lexer {
    source: Vec<char>,
    pub tokens: Vec<Token>,
    start_lexeme: usize,
    ptr: usize,
    line: usize,
    col: usize,
}

impl Lexer {
    /// The characters read so far.
    pub closed spec fn source(&self) -> Seq<char> {
        self.source@
    }

    /// The tokens produced so far.
    pub closed spec fn token_list(&self) -> Seq<SpecToken> {
        tokens_view(self.tokens@)
    }

    /// The position of the next character to read.
    pub closed spec fn pos(&self) -> int {
        self.ptr as int
    }

    /// Where the lexeme being scanned started.
    pub closed spec fn lexeme_start(&self) -> int {
        self.start_lexeme as int
    }

    pub closed spec fn line_of(&self) -> usize {
        self.line
    }

    pub closed spec fn col_of(&self) -> usize {
        self.col
    }

    /// The tokens produced, handed over.
    pub fn into_tokens(self) -> (res: Vec<Token>)
        ensures
            tokens_view(res@) == self.token_list(),
    {
        self.tokens
    }

    /// The line and column are those of the current position.
    pub proof fn lemma_wf_position(&self)
        requires
            self.wf(),
        ensures
            self.line_of() == line_at(self.source(), self.pos()),
            self.col_of() == col_at(self.source(), self.pos()),
    {
    }

    /// The position, line and column agree with the source; the source is
    /// made of characters that bytes map to.
    pub closed spec fn wf(&self) -> bool {
        &&& self.source@.len() < usize::MAX
        &&& forall|i: int| 0 <= i < self.source@.len() ==> (#[trigger] self.source@[i] as u32) < 256
        &&& self.start_lexeme <= self.ptr <= self.source@.len()
        &&& self.line == line_at(self.source@, self.ptr as int)
        &&& self.col == col_at(self.source@, self.ptr as int)
    }

    pub fn new() -> (res: Self)
        ensures
            res.wf(),
            res.source() == Seq::<char>::empty(),
            res.pos() == 0,
            res.lexeme_start() == 0,
            res.token_list() == Seq::<SpecToken>::empty(),
    {
        let res = Lexer {
            source: Vec::new(),
            tokens: Vec::new(),
            start_lexeme: 0,
            ptr: 0,
            line: 1,
            col: 1,
        };
        assert(tokens_view(res.tokens@) =~= Seq::<SpecToken>::empty());
        res
    }

    /// Takes the source from bytes, each byte standing for the character
    /// with its code.
    pub fn load_bytes(&mut self, bytes: &[u8])
        requires
            bytes@.len() < usize::MAX,
        ensures
            final(self).wf(),
            final(self).source() == bytes@.map_values(|b: u8| b as char),
            final(self).pos() == 0,
            final(self).lexeme_start() == 0,
            final(self).token_list() == old(self).token_list(),
    {
        let mut source: Vec<char> = Vec::new();
        let mut i: usize = 0;
        while i < bytes.len()
            invariant
                i <= bytes@.len(),
                source@ == bytes@.take(i as int).map_values(|b: u8| b as char),
            decreases bytes@.len() - i,
        {
            source.push(bytes[i] as char);
            i = i + 1;
            assert(source@ =~= bytes@.take(i as int).map_values(|b: u8| b as char));
        }
        assert(bytes@.take(bytes@.len() as int) =~= bytes@);
        self.source = source;
        self.start_lexeme = 0;
        self.ptr = 0;
        self.line = 1;
        self.col = 1;
        assert forall|i: int| 0 <= i < self.source@.len() implies (#[trigger] self.source@[i] as u32) < 256 by {
            assert(self.source@[i] == bytes@[i] as char);
        }
    }

    /// Whether the whole source has been read.
    fn is_at_end(&self) -> (res: bool)
        requires
            self.wf(),
        ensures
            res == (self.ptr >= self.source@.len()),
    {
        self.ptr >= self.source.len()
    }

    /// Pushes a token of the given kind whose lexeme runs from the start of
    /// the current lexeme to the current position.
    fn add_token(&mut self, token_type: TokenType)
        requires
            old(self).wf(),
        ensures
            final(self).wf(),
            final(self).source@ == old(self).source@,
            final(self).ptr == old(self).ptr,
            final(self).start_lexeme == old(self).start_lexeme,
            tokens_view(final(self).tokens@) == tokens_view(old(self).tokens@).push(
                token_at(old(self).source@, token_type, old(self).start_lexeme as int, old(self).ptr as int),
            ),
    {
        let lexeme = string_from_chars(&self.source.as_slice()[self.start_lexeme..self.ptr]);
        let token = Token::new(token_type, lexeme, self.line, self.col);
        self.tokens.push(token);
        assert(tokens_view(self.tokens@) =~= tokens_view(old(self).tokens@).push(
            token_at(old(self).source@, token_type, old(self).start_lexeme as int, old(self).ptr as int),
        ));
    }

    /// Reads the current character and moves past it.
    fn advance(&mut self) -> (res: Option<char>)
        requires
            old(self).wf(),
        ensures
            final(self).wf(),
            final(self).source@ == old(self).source@,
            final(self).tokens == old(self).tokens,
            final(self).start_lexeme == old(self).start_lexeme,
            old(self).ptr < old(self).source@.len() ==> res == Some(old(self).source@[old(self).ptr as int])
                && final(self).ptr == old(self).ptr + 1,
            old(self).ptr >= old(self).source@.len() ==> res is None && final(self).ptr == old(self).ptr,
    {
        if self.is_at_end() {
            return None;
        }
        let curr = self.source[self.ptr];
        proof {
            lemma_line_col_bounds(self.source@, self.ptr as int);
        }
        self.ptr = self.ptr + 1;
        if curr == '\n' {
            self.col = 0;
            self.line = self.line + 1;
        } else {
            self.col = self.col + 1;
        }
        Some(curr)
    }

    /// The character `lookahead` places past the current one.
    fn peek(&self, lookahead: usize) -> (res: Option<char>)
        requires
            self.wf(),
        ensures
            self.ptr + lookahead < self.source@.len() ==> res == Some(self.source@[self.ptr + lookahead]),
            self.ptr + lookahead >= self.source@.len() ==> res is None,
    {
        if lookahead >= self.source.len() - self.ptr {
            return None;
        }
        Some(self.source[self.ptr + lookahead])
    }
}

// ----- scanning steps -----

impl Lexer {
    /// Skips a comment up to and including its closing `#`.
    fn scan_comment(&mut self) -> (res: Result<(), LexerError>)
        requires
            old(self).wf(),
        ensures
            final(self).wf(),
            final(self).source@ == old(self).source@,
            final(self).tokens == old(self).tokens,
            final(self).start_lexeme == old(self).start_lexeme,
            ({
                let q = span_end(old(self).source@, old(self).ptr as int, not_char('#'));
                if q >= old(self).source@.len() {
                    res matches Err(e) && e@ == SpecLexerError::UnclosedComment && final(self).ptr == q
                } else {
                    res is Ok && final(self).ptr == q + 1
                }
            }),
    {
        let ghost src = self.source@;
        let ghost q0 = self.ptr as int;
        proof {
            lemma_span_end(src, q0, not_char('#'));
        }
        let mut comment_closed = false;
        loop
            invariant_except_break
                !comment_closed,
            invariant
                self.wf(),
                self.source@ == src,
                self.tokens == old(self).tokens,
                self.start_lexeme == old(self).start_lexeme,
                q0 <= self.ptr <= span_end(src, q0, not_char('#')),
                span_end(src, self.ptr as int, not_char('#')) == span_end(src, q0, not_char('#')),
            ensures
                self.wf(),
                self.source@ == src,
                self.tokens == old(self).tokens,
                self.start_lexeme == old(self).start_lexeme,
                self.ptr == span_end(src, q0, not_char('#')),
                comment_closed == (self.ptr < src.len()),
            decreases src.len() - self.ptr,
        {
            match self.peek(0) {
                Some(c) => {
                    if c != '#' {
                        self.advance();
                        proof {
                            lemma_span_end(src, self.ptr as int, not_char('#'));
                        }
                    } else {
                        comment_closed = true;
                        break;
                    }
                },
                None => {
                    break;
                },
            }
        }
        if !comment_closed {
            return Err(LexerError::UnclosedComment);
        }
        self.advance();
        Ok(())
    }

    /// The token of a one-character symbol, or of `->`.
    fn scan_single_char(&mut self, c: char) -> (res: Result<Option<TokenType>, LexerError>)
        requires
            old(self).wf(),
        ensures
            final(self).wf(),
            final(self).source@ == old(self).source@,
            final(self).tokens == old(self).tokens,
            final(self).start_lexeme == old(self).start_lexeme,
            single_char_type(c) is Some ==> res == Ok::<Option<TokenType>, LexerError>(single_char_type(c))
                && final(self).ptr == old(self).ptr,
            single_char_type(c) is None && c == '-' ==> if old(self).ptr < old(self).source@.len()
                && old(self).source@[old(self).ptr as int] == '>' {
                res == Ok::<Option<TokenType>, LexerError>(Some(TokenType::Arrow)) && final(self).ptr == old(self).ptr + 1
            } else {
                res matches Err(e) && e@ == SpecLexerError::UnexpectedChar(c) && final(self).ptr == old(self).ptr
            },
            single_char_type(c) is None && c != '-' ==> res == Ok::<Option<TokenType>, LexerError>(None)
                && final(self).ptr == old(self).ptr,
    {
        if c == '=' {
            Ok(Some(TokenType::Equals))
        } else if c == ';' {
            Ok(Some(TokenType::Semicolon))
        } else if c == ':' {
            Ok(Some(TokenType::Colon))
        } else if c == ',' {
            Ok(Some(TokenType::Comma))
        } else if c == '_' {
            Ok(Some(TokenType::Underscore))
        } else if c == '.' {
            Ok(Some(TokenType::Period))
        } else if c == '(' {
            Ok(Some(TokenType::LParen))
        } else if c == ')' {
            Ok(Some(TokenType::RParen))
        } else if c == '{' {
            Ok(Some(TokenType::LBrace))
        } else if c == '}' {
            Ok(Some(TokenType::RBrace))
        } else if c == '[' {
            Ok(Some(TokenType::LSqBracket))
        } else if c == ']' {
            Ok(Some(TokenType::RSqBracket))
        } else if c == '^' {
            Ok(Some(TokenType::Caret))
        } else if c == '&' {
            Ok(Some(TokenType::Ampersand))
        } else if c == '|' {
            Ok(Some(TokenType::Pipe))
        } else if c == '*' {
            Ok(Some(TokenType::Star))
        } else if c == '-' {
            if self.peek(0) == Some('>') {
                self.advance();
                return Ok(Some(TokenType::Arrow));
            }
            Err(LexerError::UnexpectedChar(c))
        } else {
            Ok(None)
        }
    }

    /// Reads the rest of a word and pushes it as a keyword or identifier.
    fn scan_identifier_keyword(&mut self) -> (res: Result<(), LexerError>)
        requires
            old(self).wf(),
        ensures
            final(self).wf(),
            final(self).source@ == old(self).source@,
            final(self).start_lexeme == old(self).start_lexeme,
            res is Ok,
            final(self).ptr == span_end(old(self).source@, old(self).ptr as int, ident_pred()),
            tokens_view(final(self).tokens@) == tokens_view(old(self).tokens@).push(token_at(
                old(self).source@,
                keyword_type(old(self).source@.subrange(old(self).start_lexeme as int, final(self).ptr as int)),
                old(self).start_lexeme as int,
                final(self).ptr as int,
            )),
    {
        let ghost src = self.source@;
        let ghost q0 = self.ptr as int;
        proof {
            lemma_span_end(src, q0, ident_pred());
        }
        loop
            invariant
                self.wf(),
                self.source@ == src,
                self.tokens == old(self).tokens,
                self.start_lexeme == old(self).start_lexeme,
                q0 <= self.ptr <= span_end(src, q0, ident_pred()),
                span_end(src, self.ptr as int, ident_pred()) == span_end(src, q0, ident_pred()),
            ensures
                self.wf(),
                self.source@ == src,
                self.tokens == old(self).tokens,
                self.start_lexeme == old(self).start_lexeme,
                self.ptr == span_end(src, q0, ident_pred()),
            decreases src.len() - self.ptr,
        {
            match self.peek(0) {
                Some(c) => {
                    if is_alphabetic(c) || is_numeric(c) || c == '_' {
                        self.advance();
                        proof {
                            lemma_span_end(src, self.ptr as int, ident_pred());
                        }
                    } else {
                        break;
                    }
                },
                None => {
                    break;
                },
            }
        }
        let pattern = string_from_chars(&self.source.as_slice()[self.start_lexeme..self.ptr]);
        let token_type = if str_eq(&pattern, "bits") {
            TokenType::Bits
        } else if str_eq(&pattern, "qubits") {
            TokenType::Qubits
        } else if str_eq(&pattern, "function") {
            TokenType::Function
        } else if str_eq(&pattern, "oracle") {
            TokenType::Oracle
        } else if str_eq(&pattern, "loads") {
            TokenType::Loads
        } else if str_eq(&pattern, "circuit") {
            TokenType::Circuit
        } else if str_eq(&pattern, "register") {
            TokenType::Register
        } else if str_eq(&pattern, "apply") {
            TokenType::Apply
        } else {
            TokenType::Identifier
        };
        self.add_token(token_type);
        Ok(())
    }

    /// Reads the binary digits of a bits literal, `0b` having been read.
    fn scan_bitstring(&mut self) -> (res: Result<(), LexerError>)
        requires
            old(self).wf(),
        ensures
            final(self).wf(),
            final(self).source@ == old(self).source@,
            final(self).start_lexeme == old(self).start_lexeme,
            ({
                let src = old(self).source@;
                let q = old(self).ptr as int;
                let end = span_end(src, q, binary_pred());
                if end == q {
                    res matches Err(e) && e@ == SpecLexerError::UnexpectedChar(if q < src.len() { src[q] } else { '\0' })
                        && final(self).ptr == q && final(self).tokens == old(self).tokens
                } else {
                    res is Ok && final(self).ptr == end && tokens_view(final(self).tokens@)
                        == tokens_view(old(self).tokens@).push(
                        token_at(src, TokenType::BitsLiteral, old(self).start_lexeme as int, end),
                    )
                }
            }),
    {
        let ghost src = self.source@;
        let ghost q0 = self.ptr as int;
        proof {
            lemma_span_end(src, q0, binary_pred());
        }
        let mut is_valid = false;
        loop
            invariant
                self.wf(),
                self.source@ == src,
                self.tokens == old(self).tokens,
                self.start_lexeme == old(self).start_lexeme,
                q0 <= self.ptr <= span_end(src, q0, binary_pred()),
                span_end(src, self.ptr as int, binary_pred()) == span_end(src, q0, binary_pred()),
                is_valid == (self.ptr > q0),
            ensures
                self.wf(),
                self.source@ == src,
                self.tokens == old(self).tokens,
                self.start_lexeme == old(self).start_lexeme,
                self.ptr == span_end(src, q0, binary_pred()),
                is_valid == (self.ptr > q0),
            decreases src.len() - self.ptr,
        {
            match self.peek(0) {
                Some(c) => {
                    if c == '0' || c == '1' {
                        is_valid = true;
                        self.advance();
                        proof {
                            lemma_span_end(src, self.ptr as int, binary_pred());
                        }
                    } else {
                        break;
                    }
                },
                None => {
                    break;
                },
            }
        }
        if !is_valid {
            let unexpected_char = match self.peek(0) {
                Some(c) => c,
                None => '\0',
            };
            return Err(LexerError::UnexpectedChar(unexpected_char));
        }
        self.add_token(TokenType::BitsLiteral);
        Ok(())
    }

    /// Reads the rest of a number.
    fn scan_number(&mut self)
        requires
            old(self).wf(),
        ensures
            final(self).wf(),
            final(self).source@ == old(self).source@,
            final(self).start_lexeme == old(self).start_lexeme,
            final(self).ptr == span_end(old(self).source@, old(self).ptr as int, numeric_pred()),
            tokens_view(final(self).tokens@) == tokens_view(old(self).tokens@).push(token_at(
                old(self).source@,
                TokenType::IntLiteral,
                old(self).start_lexeme as int,
                final(self).ptr as int,
            )),
    {
        let ghost src = self.source@;
        let ghost q0 = self.ptr as int;
        proof {
            lemma_span_end(src, q0, numeric_pred());
        }
        loop
            invariant
                self.wf(),
                self.source@ == src,
                self.tokens == old(self).tokens,
                self.start_lexeme == old(self).start_lexeme,
                q0 <= self.ptr <= span_end(src, q0, numeric_pred()),
                span_end(src, self.ptr as int, numeric_pred()) == span_end(src, q0, numeric_pred()),
            ensures
                self.wf(),
                self.source@ == src,
                self.tokens == old(self).tokens,
                self.start_lexeme == old(self).start_lexeme,
                self.ptr == span_end(src, q0, numeric_pred()),
            decreases src.len() - self.ptr,
        {
            match self.peek(0) {
                Some(c) => {
                    if is_numeric(c) {
                        self.advance();
                        proof {
                            lemma_span_end(src, self.ptr as int, numeric_pred());
                        }
                    } else {
                        break;
                    }
                },
                None => {
                    break;
                },
            }
        }
        self.add_token(TokenType::IntLiteral);
    }

    /// Scans one token starting at the current position.
    fn scan_token(&mut self) -> (res: Result<(), LexerError>)
        requires
            old(self).wf(),
            old(self).start_lexeme == old(self).ptr,
        ensures
            final(self).wf(),
            final(self).source@ == old(self).source@,
            final(self).start_lexeme == old(self).start_lexeme,
            old(self).ptr >= old(self).source@.len() ==> (res matches Err(e) && e@ == SpecLexerError::UnexpectedEOF
                && final(self).ptr == old(self).ptr && final(self).tokens == old(self).tokens),
            old(self).ptr < old(self).source@.len() ==> match scan_at(old(self).source@, old(self).ptr as int) {
                Ok((tt, end)) => res is Ok && final(self).ptr == end && tokens_view(final(self).tokens@)
                    == tokens_view(old(self).tokens@) + step_tokens(old(self).source@, tt, old(self).ptr as int, end),
                Err((e, p)) => res matches Err(x) && x@ == e && final(self).ptr == p
                    && tokens_view(final(self).tokens@) == tokens_view(old(self).tokens@),
            },
    {
        let ghost src = self.source@;
        let ghost start = self.ptr as int;
        let ghost old_toks = tokens_view(self.tokens@);
        let c = match self.advance() {
            Some(c) => c,
            None => {
                return Err(LexerError::UnexpectedEOF);
            },
        };
        // whitespace
        if c == ' ' || c == '\r' || c == '\t' || c == '\n' {
            assert(old_toks + step_tokens(src, None, start, start + 1) =~= old_toks);
            return Ok(());
        }
        // one-character tokens
        let single_char = self.scan_single_char(c)?;
        match single_char {
            Some(tt) => {
                self.add_token(tt);
                assert(tokens_view(self.tokens@) =~= old_toks + step_tokens(src, Some(tt), start, self.ptr as int));
                return Ok(());
            },
            None => {},
        }
        // keywords and identifiers
        if is_alphabetic(c) {
            let r = self.scan_identifier_keyword();
            assert(tokens_view(self.tokens@) =~= old_toks + step_tokens(
                src,
                Some(keyword_type(src.subrange(start, self.ptr as int))),
                start,
                self.ptr as int,
            ));
            return r;
        }
        // numbers, and bits literals after `0b`
        if is_numeric(c) {
            if c == '0' && self.peek(0) == Some('b') {
                self.advance();
                let r = self.scan_bitstring();
                proof {
                    if r is Ok {
                        assert(tokens_view(self.tokens@) =~= old_toks + step_tokens(
                            src,
                            Some(TokenType::BitsLiteral),
                            start,
                            self.ptr as int,
                        ));
                    }
                }
                return r;
            }
            self.scan_number();
            assert(tokens_view(self.tokens@) =~= old_toks + step_tokens(
                src,
                Some(TokenType::IntLiteral),
                start,
                self.ptr as int,
            ));
            return Ok(());
        }
        // comments in `# ... #`
        if c == '#' {
            let r = self.scan_comment();
            assert(tokens_view(self.tokens@) =~= old_toks + step_tokens(src, None, start, self.ptr as int));
            return r;
        }
        // strings
        if c == '"' {
            let r = self.scan_string();
            proof {
                if r is Ok {
                    assert(tokens_view(self.tokens@) =~= old_toks + step_tokens(
                        src,
                        Some(TokenType::StringLiteral),
                        start,
                        self.ptr as int,
                    ));
                }
            }
            return r;
        }
        Err(LexerError::UnexpectedChar(c))
    }

    /// Reads a string literal up to and including its closing quote.
    fn scan_string(&mut self) -> (res: Result<(), LexerError>)
        requires
            old(self).wf(),
        ensures
            final(self).wf(),
            final(self).source@ == old(self).source@,
            final(self).start_lexeme == old(self).start_lexeme,
            ({
                let src = old(self).source@;
                let q = span_end(src, old(self).ptr as int, not_char('"'));
                if q >= src.len() {
                    res matches Err(e) && e@ == SpecLexerError::UnclosedString && final(self).ptr == q
                        && final(self).tokens == old(self).tokens
                } else {
                    res is Ok && final(self).ptr == q + 1 && tokens_view(final(self).tokens@)
                        == tokens_view(old(self).tokens@).push(
                        token_at(src, TokenType::StringLiteral, old(self).start_lexeme as int, q + 1),
                    )
                }
            }),
    {
        let ghost src = self.source@;
        let ghost q0 = self.ptr as int;
        proof {
            lemma_span_end(src, q0, not_char('"'));
        }
        let mut string_closed = false;
        loop
            invariant_except_break
                !string_closed,
            invariant
                self.wf(),
                self.source@ == src,
                self.tokens == old(self).tokens,
                self.start_lexeme == old(self).start_lexeme,
                q0 <= self.ptr <= span_end(src, q0, not_char('"')),
                span_end(src, self.ptr as int, not_char('"')) == span_end(src, q0, not_char('"')),
            ensures
                self.wf(),
                self.source@ == src,
                self.tokens == old(self).tokens,
                self.start_lexeme == old(self).start_lexeme,
                self.ptr == span_end(src, q0, not_char('"')),
                string_closed == (self.ptr < src.len()),
            decreases src.len() - self.ptr,
        {
            match self.peek(0) {
                Some(c) => {
                    if c != '"' {
                        self.advance();
                        proof {
                            lemma_span_end(src, self.ptr as int, not_char('"'));
                        }
                    } else {
                        string_closed = true;
                        break;
                    }
                },
                None => {
                    break;
                },
            }
        }
        if !string_closed {
            return Err(LexerError::UnclosedString);
        }
        self.advance();
        self.add_token(TokenType::StringLiteral);
        Ok(())
    }
}

impl Lexer {
    /// Reads the source from the current position to its end into tokens,
    /// and ends them with an end-of-file token; stops at the first failure.
    #[verifier::loop_isolation(false)]
    pub fn scan_tokens(&mut self) -> (res: Result<(), LexerError>)
        requires
            old(self).wf(),
        ensures
            final(self).wf(),
            final(self).source() == old(self).source(),
            ({
                let (toks, r) = lex_from(old(self).source(), old(self).pos(), old(self).lexeme_start());
                &&& final(self).token_list() == old(self).token_list() + toks
                &&& match r {
                    None => res is Ok && final(self).pos() == old(self).source().len(),
                    Some((e, p)) => res matches Err(x) && x@ == e && final(self).pos() == p,
                }
            }),
    {
        let ghost src = self.source@;
        let ghost target = lex_from(src, self.ptr as int, self.start_lexeme as int);
        let ghost old_toks = tokens_view(self.tokens@);
        assert(tokens_view(self.tokens@) + lex_from(src, self.ptr as int, self.start_lexeme as int).0
            =~= old_toks + target.0);
        while !self.is_at_end()
            invariant
                self.wf(),
                self.source@ == src,
                tokens_view(self.tokens@) + lex_from(src, self.ptr as int, self.start_lexeme as int).0
                    == old_toks + target.0,
                lex_from(src, self.ptr as int, self.start_lexeme as int).1 == target.1,
            decreases src.len() - self.ptr,
        {
            proof {
                lemma_lex_from_start(src, self.ptr as int, self.start_lexeme as int, self.ptr as int);
                lemma_scan_progress(src, self.ptr as int);
            }
            let ghost before = tokens_view(self.tokens@);
            let ghost pos = self.ptr as int;
            self.start_lexeme = self.ptr;
            match self.scan_token() {
                Ok(()) => {
                    proof {
                        let (tt, end) = scan_at(src, pos)->Ok_0;
                        assert(tokens_view(self.tokens@) == before + step_tokens(src, tt, pos, end));
                        assert(lex_from(src, pos, pos).0 == step_tokens(src, tt, pos, end) + lex_from(src, end, pos).0);
                        assert(tokens_view(self.tokens@) + lex_from(src, self.ptr as int, self.start_lexeme as int).0
                            =~= before + lex_from(src, pos, pos).0);
                    }
                },
                Err(e) => {
                    proof {
                        assert(lex_from(src, pos, pos).0 =~= Seq::<SpecToken>::empty());
                        assert(tokens_view(self.tokens@) =~= old_toks + target.0);
                    }
                    return Err(e);
                },
            }
        }
        self.add_token(TokenType::EOF);
        assert(tokens_view(self.tokens@) =~= old_toks + target.0);
        Ok(())
    }
}


/// How a failure of the lexer is reported: where the lexer stood, then the
/// failure.
pub open spec fn error_report(line: usize, col: usize, e: SpecLexerError) -> Seq<char> {
    "Error on line "@ + decimal(line as nat) + ", col "@ + decimal(col as nat) + ":\nDetails: "@
        + lexer_message(e)
}

impl Lexer {
    /// The report of the failure `e`, with the line and column at which the
    /// lexer stopped.
    pub fn show_error(&self, e: LexerError) -> (res: String)
        ensures
            res@ == error_report(self.line_of(), self.col_of(), e@),
    {
        let mut out: Vec<char> = Vec::new();
        push_str(&mut out, "Error on line ");
        push_decimal(self.line, &mut out);
        push_str(&mut out, ", col ");
        push_decimal(self.col, &mut out);
        push_str(&mut out, ":\nDetails: ");
        let details = e.message();
        push_str(&mut out, details.as_str());
        assert(out@ =~= error_report(self.line, self.col, e@));
        string_from_chars(out.as_slice())
    }
}

} // verus!
