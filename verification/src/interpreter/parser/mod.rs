pub mod ast_types;
pub mod grammar;
pub mod grammar_halts;
pub mod grammar_frame;
pub mod grammar_wf;
pub mod parser_error;

use vstd::prelude::*;
use crate::interpreter::lexer::token::{SpecToken, Token, TokenType, tokens_view};
use crate::interpreter::lexer::{
    lemma_scan_progress, lemma_span_end, lex_from, not_char, scan_at, span_end, token_at,
};
use crate::interpreter::literals::{bits_literal_sliceable, parse_unsigned_exec};
use crate::interpreter::parser::grammar_wf::bits_tokens_ok;
use crate::interpreter::parser::ast_types::{
    Applies, Assignment, BinOp, CircuitDecl, CircuitInstr, CircuitRef, Expr, FunctionDecl, MethodArg,
    MethodCall, OracleDecl, Param, QubitDecl, Statement, Type, exprs_view, lemma_exprs_view,
    params_view, program_view, refs_view,
};
use crate::interpreter::parser::grammar::{
    Toks, lexeme_at, p_and, p_and_rest, p_call_args, p_call_args_rest, p_dot, p_dot_rest, p_expect,
    p_expr, p_grouping, p_or, p_or_rest, p_postfix, p_postfix_rest, p_primary, p_xor, p_xor_rest,
    to_usize, token_is, list_sep, p_params, p_type, p_function, p_oracle, p_assignment, p_circuit,
    p_circuit_arg, p_circuit_args, p_instruction, p_instructions, p_instructions_rest,
    p_method_args, p_method_call, p_program, p_qubit_decl, p_registers, p_registers_rest,
    p_statement, unquote, halts,
};
use crate::interpreter::parser::parser_error::ParserError;
use crate::text::{chars_of, string_from_chars};

verus! {

/// A string literal's lexeme: at least its two quotes.
pub open spec fn quoted(s: Seq<char>) -> bool {
    s.len() >= 2 && s[0] == '"' && s[s.len() - 1] == '"'
}

/// No end-of-file token comes before position `i`.
pub open spec fn no_eof_before(t: Toks, i: int) -> bool {
    forall|j: int| 0 <= j < i ==> #[trigger] t[j].token_type != TokenType::EOF
}

/// Every string literal before the first end-of-file token keeps its
/// quotes; what follows that token is never read.
pub open spec fn strings_quoted(t: Toks) -> bool {
    forall|i: int|
        0 <= i < t.len() && #[trigger] t[i].token_type == TokenType::StringLiteral && no_eof_before(t, i)
            ==> quoted(t[i].lexeme)
}

/// Every string literal keeps its quotes.
pub open spec fn every_string_quoted(t: Toks) -> bool {
    forall|i: int|
        0 <= i < t.len() && #[trigger] t[i].token_type == TokenType::StringLiteral ==> quoted(t[i].lexeme)
}

/// Tokens as the lexer hands them over: an end-of-file token last, and
/// string literals with their quotes.
pub open spec fn parsable(t: Toks) -> bool {
    &&& t.len() > 0
    &&& t[t.len() - 1].token_type == TokenType::EOF
    &&& every_string_quoted(t)
}

/// What the lexer makes of a whole source, when it does not fail, can be
/// parsed: the tokens end with the end-of-file token and every string
/// literal keeps its quotes.
pub proof fn lemma_lexed_tokens_parsable(src: Seq<char>, pos: int, last: int)
    requires
        0 <= pos,
    ensures
        lex_from(src, pos, last).1 is None ==> parsable(lex_from(src, pos, last).0),
        lex_from(src, pos, last).1 is None ==> bits_tokens_ok(lex_from(src, pos, last).0),
    decreases src.len() - pos,
{
    if pos < src.len() {
        lemma_scan_progress(src, pos);
        match scan_at(src, pos) {
            Err(_) => {},
            Ok((tt, end)) => {
                lemma_lexed_tokens_parsable(src, end, pos);
                let (rest, r) = lex_from(src, end, pos);
                if r is None {
                    if let Some(t) = tt {
                        let tok = token_at(src, t, pos, end);
                        let all = seq![tok] + rest;
                        if t == TokenType::StringLiteral {
                            let q = span_end(src, pos + 1, not_char('"'));
                            lemma_span_end(src, pos + 1, not_char('"'));
                            assert(src[pos] == '"');
                            assert(end == q + 1);
                            assert(quoted(tok.lexeme));
                        }
                        if t == TokenType::BitsLiteral {
                            lemma_span_end(src, pos + 2, crate::interpreter::lexer::binary_pred());
                            assert(src[pos] == '0' && src[pos + 1] == 'b');
                            assert(tok.lexeme[0] == '0' && tok.lexeme[1] == 'b');
                            assert(bits_literal_sliceable(tok.lexeme));
                        }
                        assert forall|i: int| 0 <= i < all.len() && #[trigger] all[i].token_type
                            == TokenType::BitsLiteral implies bits_literal_sliceable(all[i].lexeme) by {
                            if i > 0 {
                                assert(all[i] == rest[i - 1]);
                            }
                        }
                        assert forall|i: int| 0 <= i < all.len() && #[trigger] all[i].token_type
                            == TokenType::StringLiteral implies quoted(all[i].lexeme) by {
                            if i > 0 {
                                assert(all[i] == rest[i - 1]);
                            }
                        }
                        assert(all[all.len() - 1] == rest[rest.len() - 1]);
                    }
                }
            },
        }
    }
}

/// Builds the syntax tree of a program from its tokens.
pub struct Parser {
    tokens: Vec<Token>,
    current: usize,
}

impl Parser {
    /// The tokens being parsed.
    pub closed spec fn toks(&self) -> Toks {
        tokens_view(self.tokens@)
    }

    /// The index of the next token to read.
    pub closed spec fn cur(&self) -> int {
        self.current as int
    }

    /// String literals before the first end-of-file token keep their
    /// quotes, and the position lies within the tokens or just after them,
    /// not past an end-of-file token.
    pub closed spec fn wf(&self) -> bool {
        &&& strings_quoted(self.toks())
        &&& self.current <= self.tokens@.len()
        &&& no_eof_before(self.toks(), self.cur())
    }

    pub fn new(tokens: Vec<Token>) -> (res: Self)
        requires
            strings_quoted(tokens_view(tokens@)),
        ensures
            res.wf(),
            res.toks() == tokens_view(tokens@),
            res.cur() == 0,
    {
        Parser { tokens, current: 0 }
    }

    fn is_at_end(&self) -> (res: bool)
        ensures
            res == (self.current >= self.tokens@.len()),
    {
        self.current >= self.tokens.len()
    }

    /// The token `lookahead` places after the current one, if there is one.
    fn peek(&self, lookahead: usize) -> (res: Option<&Token>)
        requires
            self.current + lookahead <= usize::MAX,
        ensures
            self.current + lookahead < self.tokens@.len() ==> res == Some(&self.tokens@[self.current + lookahead]),
            self.current + lookahead >= self.tokens@.len() ==> res is None,
    {
        let idx: usize = self.current + lookahead;
        if idx < self.tokens.len() {
            Some(&self.tokens[idx])
        } else {
            None
        }
    }

    /// Moves past the current token.
    fn advance(&mut self)
        requires
            old(self).wf(),
            old(self).cur() < old(self).toks().len(),
            old(self).toks()[old(self).cur()].token_type != TokenType::EOF,
        ensures
            final(self).wf(),
            final(self).toks() == old(self).toks(),
            final(self).cur() == old(self).cur() + 1,
    {
        let n = self.tokens.len();
        assert(self.current < n);
        self.current = self.current + 1;
    }

    /// Whether the current token is of kind `other`.
    fn token_matches(&self, other: TokenType) -> (res: bool)
        requires
            self.wf(),
        ensures
            res == token_is(self.toks(), self.cur(), other),
    {
        self.token_matches_lookahead(other, 0)
    }

    /// Whether the token `lookahead` places on is of kind `other`.
    fn token_matches_lookahead(&self, other: TokenType, lookahead: usize) -> (res: bool)
        requires
            self.wf(),
            lookahead <= 1,
            lookahead == 1 ==> self.cur() < self.toks().len(),
        ensures
            res == token_is(self.toks(), self.cur() + lookahead, other),
    {
        let n = self.tokens.len();
        assert(self.current + lookahead <= n);
        match self.peek(lookahead) {
            Some(token) => token.token_type == other,
            None => false,
        }
    }

    /// A copy of the current lexeme.
    fn curr_lexeme(&self) -> (res: String)
        requires
            self.wf(),
        ensures
            res@ == lexeme_at(self.toks(), self.cur()),
    {
        if self.is_at_end() {
            "UNEXPECTED EOF".to_owned()
        } else {
            self.tokens[self.current].lexeme.clone()
        }
    }

    /// Consumes the current token if it is of kind `expected` and gives its
    /// lexeme; else fails on the current lexeme.
    fn expect(&mut self, expected: TokenType) -> (res: Result<String, ParserError>)
        requires
            old(self).wf(),
            expected != TokenType::EOF,
        ensures
            final(self).wf(),
            final(self).toks() == old(self).toks(),
            match p_expect(old(self).toks(), old(self).cur(), expected) {
                Ok((s, p)) => res matches Ok(r) && r@ == s && final(self).cur() == p,
                Err(e) => res matches Err(x) && x@ == e && final(self).cur() == old(self).cur(),
            },
    {
        if !self.is_at_end() && self.token_matches(expected) {
            let lexeme = self.curr_lexeme();
            self.advance();
            return Ok(lexeme);
        }
        Err(ParserError::UnexpectedToken(self.curr_lexeme()))
    }

    /// The number a lexeme writes in decimal.
    fn convert_to_usize(val: String) -> (res: Result<usize, ParserError>)
        ensures
            match to_usize(val@) {
                Ok(n) => res == Ok::<usize, ParserError>(n),
                Err(e) => res matches Err(x) && x@ == e,
            },
    {
        let cs = chars_of(val.as_str());
        match parse_unsigned_exec(cs.as_slice(), 10) {
            Ok(n) => Ok(n),
            Err(_) => Err(ParserError::FailedNumConversion(val)),
        }
    }
}

// ----- expressions -----

impl Parser {
    pub fn parse_expr(&mut self) -> (res: Result<Expr, ParserError>)
        requires
            old(self).wf(),
            halts(p_expr(old(self).toks(), old(self).cur())),
        ensures
            final(self).wf(),
            final(self).toks() == old(self).toks(),
            final(self).cur() >= old(self).cur(),
            res is Ok ==> final(self).cur() > old(self).cur(),
            match p_expr(old(self).toks(), old(self).cur()) {
                Ok((v, p)) => res matches Ok(r) && r@ == v && final(self).cur() == p,
                Err(e) => res matches Err(x) && x@ == e,
            },
        decreases old(self).toks().len() - old(self).cur(), 20int,
    {
        self.parse_dot_expr()
    }

    fn parse_dot_expr(&mut self) -> (res: Result<Expr, ParserError>)
        requires
            old(self).wf(),
            halts(p_dot(old(self).toks(), old(self).cur())),
        ensures
            final(self).wf(),
            final(self).toks() == old(self).toks(),
            final(self).cur() >= old(self).cur(),
            res is Ok ==> final(self).cur() > old(self).cur(),
            match p_dot(old(self).toks(), old(self).cur()) {
                Ok((v, p)) => res matches Ok(r) && r@ == v && final(self).cur() == p,
                Err(e) => res matches Err(x) && x@ == e,
            },
        decreases old(self).toks().len() - old(self).cur(), 19int,
    {
        let ghost t = self.toks();
        let ghost pos0 = self.cur();
        let mut left = match self.parse_or_expr() {
            Ok(e) => e,
            Err(e) => return Err(e),
        };
        let ghost target = p_dot(t, pos0);
        assert(target == p_dot_rest(t, self.cur(), left@));
        while self.token_matches(TokenType::Star)
            invariant
                self.wf(),
                self.toks() == t,
                t == old(self).toks(),
                self.cur() > pos0,
                self.tokens@.len() == old(self).tokens@.len(),
                pos0 == old(self).cur(),
                target == p_dot(t, pos0),
                halts(target),
                target == p_dot_rest(t, self.cur(), left@),
            decreases self.tokens@.len() - self.current,
        {
            self.advance();
            let right = match self.parse_or_expr() {
                Ok(e) => e,
                Err(e) => return Err(e),
            };
            left = Expr::Binary { op: BinOp::DotProduct, left: Box::new(left), right: Box::new(right) };
        }
        Ok(left)
    }

    fn parse_or_expr(&mut self) -> (res: Result<Expr, ParserError>)
        requires
            old(self).wf(),
            halts(p_or(old(self).toks(), old(self).cur())),
        ensures
            final(self).wf(),
            final(self).toks() == old(self).toks(),
            final(self).cur() >= old(self).cur(),
            res is Ok ==> final(self).cur() > old(self).cur(),
            match p_or(old(self).toks(), old(self).cur()) {
                Ok((v, p)) => res matches Ok(r) && r@ == v && final(self).cur() == p,
                Err(e) => res matches Err(x) && x@ == e,
            },
        decreases old(self).toks().len() - old(self).cur(), 18int,
    {
        let ghost t = self.toks();
        let ghost pos0 = self.cur();
        let mut left = match self.parse_xor_expr() {
            Ok(e) => e,
            Err(e) => return Err(e),
        };
        let ghost target = p_or(t, pos0);
        while self.token_matches(TokenType::Pipe)
            invariant
                self.wf(),
                self.toks() == t,
                t == old(self).toks(),
                self.cur() > pos0,
                self.tokens@.len() == old(self).tokens@.len(),
                pos0 == old(self).cur(),
                target == p_or(t, pos0),
                halts(target),
                target == p_or_rest(t, self.cur(), left@),
            decreases self.tokens@.len() - self.current,
        {
            self.advance();
            let right = match self.parse_xor_expr() {
                Ok(e) => e,
                Err(e) => return Err(e),
            };
            left = Expr::Binary { op: BinOp::Or, left: Box::new(left), right: Box::new(right) };
        }
        Ok(left)
    }

    fn parse_xor_expr(&mut self) -> (res: Result<Expr, ParserError>)
        requires
            old(self).wf(),
            halts(p_xor(old(self).toks(), old(self).cur())),
        ensures
            final(self).wf(),
            final(self).toks() == old(self).toks(),
            final(self).cur() >= old(self).cur(),
            res is Ok ==> final(self).cur() > old(self).cur(),
            match p_xor(old(self).toks(), old(self).cur()) {
                Ok((v, p)) => res matches Ok(r) && r@ == v && final(self).cur() == p,
                Err(e) => res matches Err(x) && x@ == e,
            },
        decreases old(self).toks().len() - old(self).cur(), 16int,
    {
        let ghost t = self.toks();
        let ghost pos0 = self.cur();
        let mut left = match self.parse_and_expr() {
            Ok(e) => e,
            Err(e) => return Err(e),
        };
        let ghost target = p_xor(t, pos0);
        while self.token_matches(TokenType::Caret)
            invariant
                self.wf(),
                self.toks() == t,
                t == old(self).toks(),
                self.cur() > pos0,
                self.tokens@.len() == old(self).tokens@.len(),
                pos0 == old(self).cur(),
                target == p_xor(t, pos0),
                halts(target),
                target == p_xor_rest(t, self.cur(), left@),
            decreases self.tokens@.len() - self.current,
        {
            self.advance();
            let right = match self.parse_and_expr() {
                Ok(e) => e,
                Err(e) => return Err(e),
            };
            left = Expr::Binary { op: BinOp::Xor, left: Box::new(left), right: Box::new(right) };
        }
        Ok(left)
    }

    fn parse_and_expr(&mut self) -> (res: Result<Expr, ParserError>)
        requires
            old(self).wf(),
            halts(p_and(old(self).toks(), old(self).cur())),
        ensures
            final(self).wf(),
            final(self).toks() == old(self).toks(),
            final(self).cur() >= old(self).cur(),
            res is Ok ==> final(self).cur() > old(self).cur(),
            match p_and(old(self).toks(), old(self).cur()) {
                Ok((v, p)) => res matches Ok(r) && r@ == v && final(self).cur() == p,
                Err(e) => res matches Err(x) && x@ == e,
            },
        decreases old(self).toks().len() - old(self).cur(), 14int,
    {
        let ghost t = self.toks();
        let ghost pos0 = self.cur();
        let mut left = match self.parse_postfix() {
            Ok(e) => e,
            Err(e) => return Err(e),
        };
        let ghost target = p_and(t, pos0);
        while self.token_matches(TokenType::Ampersand)
            invariant
                self.wf(),
                self.toks() == t,
                t == old(self).toks(),
                self.cur() > pos0,
                self.tokens@.len() == old(self).tokens@.len(),
                pos0 == old(self).cur(),
                target == p_and(t, pos0),
                halts(target),
                target == p_and_rest(t, self.cur(), left@),
            decreases self.tokens@.len() - self.current,
        {
            self.advance();
            let right = match self.parse_postfix() {
                Ok(e) => e,
                Err(e) => return Err(e),
            };
            left = Expr::Binary { op: BinOp::And, left: Box::new(left), right: Box::new(right) };
        }
        Ok(left)
    }

    /// A primary expression followed by any number of calls `(args)`.
    fn parse_postfix(&mut self) -> (res: Result<Expr, ParserError>)
        requires
            old(self).wf(),
            halts(p_postfix(old(self).toks(), old(self).cur())),
        ensures
            final(self).wf(),
            final(self).toks() == old(self).toks(),
            final(self).cur() >= old(self).cur(),
            res is Ok ==> final(self).cur() > old(self).cur(),
            match p_postfix(old(self).toks(), old(self).cur()) {
                Ok((v, p)) => res matches Ok(r) && r@ == v && final(self).cur() == p,
                Err(e) => res matches Err(x) && x@ == e,
            },
        decreases old(self).toks().len() - old(self).cur(), 12int,
    {
        let ghost t = self.toks();
        let ghost pos0 = self.cur();
        let mut primary = match self.parse_primary() {
            Ok(e) => e,
            Err(e) => return Err(e),
        };
        let ghost target = p_postfix(t, pos0);
        while self.token_matches(TokenType::LParen)
            invariant
                self.wf(),
                self.toks() == t,
                t == old(self).toks(),
                self.cur() > pos0,
                self.tokens@.len() == old(self).tokens@.len(),
                pos0 == old(self).cur(),
                target == p_postfix(t, pos0),
                halts(target),
                target == p_postfix_rest(t, self.cur(), primary@),
            decreases self.tokens@.len() - self.current,
        {
            self.advance();
            let postfix = match self.parse_call_args() {
                Ok(a) => a,
                Err(e) => return Err(e),
            };
            match self.expect(TokenType::RParen) {
                Ok(_) => {},
                Err(e) => return Err(e),
            }
            primary = Expr::Call { callee: Box::new(primary), args: postfix };
        }
        Ok(primary)
    }

    /// The arguments of a call, up to (not including) the closing `)`.
    fn parse_call_args(&mut self) -> (res: Result<Vec<Expr>, ParserError>)
        requires
            old(self).wf(),
            halts(p_call_args(old(self).toks(), old(self).cur())),
        ensures
            final(self).wf(),
            final(self).toks() == old(self).toks(),
            final(self).cur() >= old(self).cur(),
            match p_call_args(old(self).toks(), old(self).cur()) {
                Ok((v, p)) => res matches Ok(r) && exprs_view(r@) == v && final(self).cur() == p,
                Err(e) => res matches Err(x) && x@ == e,
            },
        decreases old(self).toks().len() - old(self).cur(), 21int,
    {
        let ghost t = self.toks();
        let ghost pos0 = self.cur();
        let mut contents: Vec<Expr> = Vec::new();
        if self.token_matches(TokenType::RParen) {
            assert(exprs_view(contents@) =~= Seq::empty());
            return Ok(contents);
        }
        let arg = match self.parse_expr() {
            Ok(e) => e,
            Err(e) => return Err(e),
        };
        contents.push(arg);
        proof {
            lemma_exprs_view(contents@);
            assert(exprs_view(contents@) =~= seq![arg@]);
        }
        let ghost target = p_call_args(t, pos0);
        while self.token_matches(TokenType::Comma)
            invariant
                self.wf(),
                self.toks() == t,
                t == old(self).toks(),
                self.cur() > pos0,
                self.tokens@.len() == old(self).tokens@.len(),
                pos0 == old(self).cur(),
                target == p_call_args(t, pos0),
                halts(target),
                target == p_call_args_rest(t, self.cur(), exprs_view(contents@)),
            decreases self.tokens@.len() - self.current,
        {
            self.advance();
            let new_arg = match self.parse_expr() {
                Ok(e) => e,
                Err(e) => return Err(e),
            };
            let ghost before = contents@;
            contents.push(new_arg);
            assert(contents@.subrange(0, contents@.len() - 1) =~= before);
        }
        Ok(contents)
    }

    fn parse_primary(&mut self) -> (res: Result<Expr, ParserError>)
        requires
            old(self).wf(),
            halts(p_primary(old(self).toks(), old(self).cur())),
        ensures
            final(self).wf(),
            final(self).toks() == old(self).toks(),
            final(self).cur() >= old(self).cur(),
            res is Ok ==> final(self).cur() > old(self).cur(),
            match p_primary(old(self).toks(), old(self).cur()) {
                Ok((v, p)) => res matches Ok(r) && r@ == v && final(self).cur() == p,
                Err(e) => res matches Err(x) && x@ == e,
            },
        decreases old(self).toks().len() - old(self).cur(), 10int,
    {
        let curr_lexeme = self.curr_lexeme();
        match self.tokens[self.current].token_type {
            TokenType::Identifier => {
                self.advance();
                Ok(Expr::Identifier(curr_lexeme))
            },
            TokenType::BitsLiteral => {
                self.advance();
                Ok(Expr::BitsLiteral(curr_lexeme))
            },
            TokenType::LParen => {
                self.advance();
                self.parse_grouping()
            },
            _ => Err(ParserError::UnexpectedToken(curr_lexeme)),
        }
    }

    fn parse_grouping(&mut self) -> (res: Result<Expr, ParserError>)
        requires
            old(self).wf(),
            halts(p_grouping(old(self).toks(), old(self).cur())),
        ensures
            final(self).wf(),
            final(self).toks() == old(self).toks(),
            final(self).cur() >= old(self).cur(),
            res is Ok ==> final(self).cur() > old(self).cur(),
            match p_grouping(old(self).toks(), old(self).cur()) {
                Ok((v, p)) => res matches Ok(r) && r@ == v && final(self).cur() == p,
                Err(e) => res matches Err(x) && x@ == e,
            },
        decreases old(self).toks().len() - old(self).cur(), 22int,
    {
        let expr = match self.parse_expr() {
            Ok(e) => e,
            Err(e) => return Err(e),
        };
        match self.expect(TokenType::RParen) {
            Ok(_) => {},
            Err(e) => return Err(e),
        }
        Ok(Expr::Grouping(Box::new(expr)))
    }
}


// ----- functions and oracles -----

impl Parser {
    /// `function name(params) -> type { expr }`
    pub fn parse_function(&mut self) -> (res: Result<FunctionDecl, ParserError>)
        requires
            old(self).wf(),
            halts(p_function(old(self).toks(), old(self).cur())),
        ensures
            final(self).wf(),
            final(self).toks() == old(self).toks(),
            final(self).cur() >= old(self).cur(),
            res is Ok ==> final(self).cur() > old(self).cur(),
            match p_function(old(self).toks(), old(self).cur()) {
                Ok((v, p)) => res matches Ok(r) && r@ == v && final(self).cur() == p,
                Err(e) => res matches Err(x) && x@ == e,
            },
    {
        match self.expect(TokenType::Function) {
            Ok(_) => {},
            Err(e) => return Err(e),
        }
        let name = match self.expect(TokenType::Identifier) {
            Ok(s) => s,
            Err(e) => return Err(e),
        };
        match self.expect(TokenType::LParen) {
            Ok(_) => {},
            Err(e) => return Err(e),
        }
        let params = match self.parse_function_params() {
            Ok(p) => p,
            Err(e) => return Err(e),
        };
        match self.expect(TokenType::RParen) {
            Ok(_) => {},
            Err(e) => return Err(e),
        }
        match self.expect(TokenType::Arrow) {
            Ok(_) => {},
            Err(e) => return Err(e),
        }
        let return_type = match self.parse_function_type() {
            Ok(t) => t,
            Err(e) => return Err(e),
        };
        match self.expect(TokenType::LBrace) {
            Ok(_) => {},
            Err(e) => return Err(e),
        }
        let body = match self.parse_expr() {
            Ok(b) => b,
            Err(e) => return Err(e),
        };
        match self.expect(TokenType::RBrace) {
            Ok(_) => {},
            Err(e) => return Err(e),
        }
        Ok(FunctionDecl { name, params, return_type, body })
    }

    /// Parameters `name: type`, separated by commas, up to (not including)
    /// the closing `)`.
    pub fn parse_function_params(&mut self) -> (res: Result<Vec<Param>, ParserError>)
        requires
            old(self).wf(),
        ensures
            final(self).wf(),
            final(self).toks() == old(self).toks(),
            final(self).cur() >= old(self).cur(),
            match p_params(old(self).toks(), old(self).cur(), Seq::empty()) {
                Ok((v, p)) => res matches Ok(r) && params_view(r@) == v && final(self).cur() == p,
                Err(e) => res matches Err(x) && x@ == e,
            },
    {
        let ghost t = self.toks();
        let ghost target = p_params(t, self.cur(), Seq::empty());
        let mut params: Vec<Param> = Vec::new();
        assert(params_view(params@) =~= Seq::empty());
        while self.token_matches(TokenType::Identifier)
            invariant
                self.wf(),
                self.toks() == t,
                t == old(self).toks(),
                self.cur() >= old(self).cur(),
                target == p_params(t, old(self).cur(), Seq::empty()),
                target == p_params(t, self.cur(), params_view(params@)),
            ensures
                self.wf(),
                self.toks() == t,
                self.cur() >= old(self).cur(),
                target == p_params(t, self.cur(), params_view(params@)),
                !token_is(t, self.cur(), TokenType::Identifier),
            decreases self.toks().len() - self.cur(),
        {
            let ghost pos = self.cur();
            let var_name = match self.expect(TokenType::Identifier) {
                Ok(s) => s,
                Err(e) => return Err(e),
            };
            match self.expect(TokenType::Colon) {
                Ok(_) => {},
                Err(e) => return Err(e),
            }
            let ty = match self.parse_function_type() {
                Ok(t) => t,
                Err(e) => return Err(e),
            };
            let ghost before = params@;
            params.push(Param { name: var_name, ty });
            assert(params_view(params@) =~= params_view(before).push(params@.last()@));
            if self.token_matches(TokenType::RParen) {
                break;
            }
            match self.expect(TokenType::Comma) {
                Ok(_) => {},
                Err(e) => return Err(e),
            }
            if !self.token_matches(TokenType::Identifier) {
                return Err(ParserError::UnexpectedToken(self.curr_lexeme()));
            }
            assert(list_sep(t, self.cur() - 1) == Ok::<Option<int>, crate::interpreter::parser::parser_error::SpecParserError>(Some(self.cur())));
        }
        Ok(params)
    }

    /// `bits[n]` or `qubits[n]`.
    pub fn parse_function_type(&mut self) -> (res: Result<Type, ParserError>)
        requires
            old(self).wf(),
        ensures
            final(self).wf(),
            final(self).toks() == old(self).toks(),
            final(self).cur() >= old(self).cur(),
            res is Ok ==> final(self).cur() > old(self).cur(),
            match p_type(old(self).toks(), old(self).cur()) {
                Ok((v, p)) => res == Ok::<Type, ParserError>(v) && final(self).cur() == p,
                Err(e) => res matches Err(x) && x@ == e,
            },
    {
        let curr_type: TokenType = match self.peek(0) {
            Some(token) => {
                if token.token_type == TokenType::Bits {
                    TokenType::Bits
                } else if token.token_type == TokenType::Qubits {
                    TokenType::Qubits
                } else {
                    return Err(ParserError::UnexpectedToken(self.curr_lexeme()));
                }
            },
            None => return Err(ParserError::UnexpectedEnd),
        };
        self.advance();
        match self.expect(TokenType::LSqBracket) {
            Ok(_) => {},
            Err(e) => return Err(e),
        }
        let qty = match self.expect(TokenType::IntLiteral) {
            Ok(s) => s,
            Err(e) => return Err(e),
        };
        let qty: usize = match Parser::convert_to_usize(qty) {
            Ok(n) => n,
            Err(e) => return Err(e),
        };
        match self.expect(TokenType::RSqBracket) {
            Ok(_) => {},
            Err(e) => return Err(e),
        }
        match curr_type {
            TokenType::Bits => Ok(Type::Bits(qty)),
            _ => Ok(Type::Qubits(qty)),
        }
    }

    /// `oracle name(params) loads function;`
    pub fn parse_oracle(&mut self) -> (res: Result<OracleDecl, ParserError>)
        requires
            old(self).wf(),
        ensures
            final(self).wf(),
            final(self).toks() == old(self).toks(),
            final(self).cur() >= old(self).cur(),
            res is Ok ==> final(self).cur() > old(self).cur(),
            match p_oracle(old(self).toks(), old(self).cur()) {
                Ok((v, p)) => res matches Ok(r) && r@ == v && final(self).cur() == p,
                Err(e) => res matches Err(x) && x@ == e,
            },
    {
        match self.expect(TokenType::Oracle) {
            Ok(_) => {},
            Err(e) => return Err(e),
        }
        let gate_name = match self.expect(TokenType::Identifier) {
            Ok(s) => s,
            Err(e) => return Err(e),
        };
        match self.expect(TokenType::LParen) {
            Ok(_) => {},
            Err(e) => return Err(e),
        }
        let params = match self.parse_function_params() {
            Ok(p) => p,
            Err(e) => return Err(e),
        };
        match self.expect(TokenType::RParen) {
            Ok(_) => {},
            Err(e) => return Err(e),
        }
        match self.expect(TokenType::Loads) {
            Ok(_) => {},
            Err(e) => return Err(e),
        }
        let loads = match self.expect(TokenType::Identifier) {
            Ok(s) => s,
            Err(e) => return Err(e),
        };
        match self.expect(TokenType::Semicolon) {
            Ok(_) => {},
            Err(e) => return Err(e),
        }
        Ok(OracleDecl { name: gate_name, params, loads })
    }
}


// ----- circuits -----

impl Parser {
    /// `circuit name { register: ... apply: ... }`
    pub fn parse_circuit(&mut self) -> (res: Result<CircuitDecl, ParserError>)
        requires
            old(self).wf(),
        ensures
            final(self).wf(),
            final(self).toks() == old(self).toks(),
            final(self).cur() >= old(self).cur(),
            res is Ok ==> final(self).cur() > old(self).cur(),
            match p_circuit(old(self).toks(), old(self).cur()) {
                Ok((v, p)) => res matches Ok(r) && r@ == v && final(self).cur() == p,
                Err(e) => res matches Err(x) && x@ == e,
            },
    {
        match self.expect(TokenType::Circuit) {
            Ok(_) => {},
            Err(e) => return Err(e),
        }
        let circuit_name = match self.expect(TokenType::Identifier) {
            Ok(s) => s,
            Err(e) => return Err(e),
        };
        match self.expect(TokenType::LBrace) {
            Ok(_) => {},
            Err(e) => return Err(e),
        }
        let registers = match self.parse_circuit_registers() {
            Ok(r) => r,
            Err(e) => return Err(e),
        };
        let instructions = match self.parse_circuit_instructions() {
            Ok(i) => i,
            Err(e) => return Err(e),
        };
        match self.expect(TokenType::RBrace) {
            Ok(_) => {},
            Err(e) => return Err(e),
        }
        Ok(CircuitDecl { name: circuit_name, registers, instructions })
    }

    /// `register:` and the qubit declarations that follow; there must be
    /// at least one.
    fn parse_circuit_registers(&mut self) -> (res: Result<Vec<QubitDecl>, ParserError>)
        requires
            old(self).wf(),
        ensures
            final(self).wf(),
            final(self).toks() == old(self).toks(),
            final(self).cur() >= old(self).cur(),
            match p_registers(old(self).toks(), old(self).cur()) {
                Ok((v, p)) => res matches Ok(r) && r@.map_values(|d: QubitDecl| d@) == v
                    && final(self).cur() == p,
                Err(e) => res matches Err(x) && x@ == e,
            },
    {
        match self.expect(TokenType::Register) {
            Ok(_) => {},
            Err(e) => return Err(e),
        }
        match self.expect(TokenType::Colon) {
            Ok(_) => {},
            Err(e) => return Err(e),
        }
        let ghost t = self.toks();
        let ghost start = self.cur();
        let mut registers: Vec<QubitDecl> = Vec::new();
        assert(registers@.map_values(|d: QubitDecl| d@) =~= Seq::empty());
        while self.token_matches(TokenType::Qubits)
            invariant
                self.wf(),
                self.toks() == t,
                t == old(self).toks(),
                self.cur() >= start,
                token_is(t, old(self).cur(), TokenType::Register),
                token_is(t, old(self).cur() + 1, TokenType::Colon),
                start == old(self).cur() + 2,
                p_registers_rest(t, start, Seq::empty())
                    == p_registers_rest(t, self.cur(), registers@.map_values(|d: QubitDecl| d@)),
            decreases self.toks().len() - self.cur(),
        {
            let curr = match self.parse_qubit_decl() {
                Ok(d) => d,
                Err(e) => return Err(e),
            };
            let ghost before = registers@;
            registers.push(curr);
            assert(registers@.map_values(|d: QubitDecl| d@)
                =~= before.map_values(|d: QubitDecl| d@).push(curr@));
        }
        if registers.len() > 0 {
            Ok(registers)
        } else {
            Err(ParserError::NoRegistersParsed)
        }
    }

    /// `qubits name = "init";` with the quotes taken off the initial value.
    fn parse_qubit_decl(&mut self) -> (res: Result<QubitDecl, ParserError>)
        requires
            old(self).wf(),
        ensures
            final(self).wf(),
            final(self).toks() == old(self).toks(),
            final(self).cur() >= old(self).cur(),
            res is Ok ==> final(self).cur() > old(self).cur(),
            match p_qubit_decl(old(self).toks(), old(self).cur()) {
                Ok((v, p)) => res matches Ok(r) && r@ == v && final(self).cur() == p,
                Err(e) => res matches Err(x) && x@ == e,
            },
    {
        match self.expect(TokenType::Qubits) {
            Ok(_) => {},
            Err(e) => return Err(e),
        }
        let var_name = match self.expect(TokenType::Identifier) {
            Ok(s) => s,
            Err(e) => return Err(e),
        };
        match self.expect(TokenType::Equals) {
            Ok(_) => {},
            Err(e) => return Err(e),
        }
        let ghost at = self.cur();
        let value = match self.expect(TokenType::StringLiteral) {
            Ok(s) => s,
            Err(e) => return Err(e),
        };
        assert(quoted(self.toks()[at].lexeme));
        match self.expect(TokenType::Semicolon) {
            Ok(_) => {},
            Err(e) => return Err(e),
        }
        let cs = chars_of(value.as_str());
        let inner = string_from_chars(&cs.as_slice()[1..cs.len() - 1]);
        assert(inner@ =~= unquote(value@));
        Ok(QubitDecl { name: var_name, init: inner })
    }

    /// `apply:` and the instructions that follow, possibly none.
    fn parse_circuit_instructions(&mut self) -> (res: Result<Vec<CircuitInstr>, ParserError>)
        requires
            old(self).wf(),
        ensures
            final(self).wf(),
            final(self).toks() == old(self).toks(),
            final(self).cur() >= old(self).cur(),
            match p_instructions(old(self).toks(), old(self).cur()) {
                Ok((v, p)) => res matches Ok(r) && r@.map_values(|i: CircuitInstr| i@) == v
                    && final(self).cur() == p,
                Err(e) => res matches Err(x) && x@ == e,
            },
    {
        match self.expect(TokenType::Apply) {
            Ok(_) => {},
            Err(e) => return Err(e),
        }
        match self.expect(TokenType::Colon) {
            Ok(_) => {},
            Err(e) => return Err(e),
        }
        let ghost t = self.toks();
        let ghost start = self.cur();
        let mut instructions: Vec<CircuitInstr> = Vec::new();
        assert(instructions@.map_values(|i: CircuitInstr| i@) =~= Seq::empty());
        while self.token_matches(TokenType::Identifier)
            invariant
                self.wf(),
                self.toks() == t,
                t == old(self).toks(),
                self.cur() >= start,
                token_is(t, old(self).cur(), TokenType::Apply),
                token_is(t, old(self).cur() + 1, TokenType::Colon),
                start == old(self).cur() + 2,
                p_instructions_rest(t, start, Seq::empty())
                    == p_instructions_rest(t, self.cur(), instructions@.map_values(|i: CircuitInstr| i@)),
            decreases self.toks().len() - self.cur(),
        {
            let curr = match self.parse_circuit_instruction() {
                Ok(i) => i,
                Err(e) => return Err(e),
            };
            let ghost before = instructions@;
            instructions.push(curr);
            assert(instructions@.map_values(|i: CircuitInstr| i@)
                =~= before.map_values(|i: CircuitInstr| i@).push(curr@));
        }
        Ok(instructions)
    }

    /// `gate(args);` with at least one argument.
    fn parse_circuit_instruction(&mut self) -> (res: Result<CircuitInstr, ParserError>)
        requires
            old(self).wf(),
        ensures
            final(self).wf(),
            final(self).toks() == old(self).toks(),
            final(self).cur() >= old(self).cur(),
            res is Ok ==> final(self).cur() > old(self).cur(),
            match p_instruction(old(self).toks(), old(self).cur()) {
                Ok((v, p)) => res matches Ok(r) && r@ == v && final(self).cur() == p,
                Err(e) => res matches Err(x) && x@ == e,
            },
    {
        let gate_name = match self.expect(TokenType::Identifier) {
            Ok(s) => s,
            Err(e) => return Err(e),
        };
        match self.expect(TokenType::LParen) {
            Ok(_) => {},
            Err(e) => return Err(e),
        }
        let ghost t = self.toks();
        let ghost start = self.cur();
        let ghost target = p_circuit_args(t, start, Seq::empty());
        let mut args: Vec<CircuitRef> = Vec::new();
        assert(refs_view(args@) =~= Seq::empty());
        while self.token_matches(TokenType::Identifier)
            invariant
                self.wf(),
                self.toks() == t,
                t == old(self).toks(),
                self.cur() >= start,
                token_is(t, old(self).cur(), TokenType::Identifier),
                token_is(t, old(self).cur() + 1, TokenType::LParen),
                start == old(self).cur() + 2,
                gate_name@ == t[old(self).cur()].lexeme,
                target == p_circuit_args(t, start, Seq::empty()),
                target == p_circuit_args(t, self.cur(), refs_view(args@)),
            ensures
                self.wf(),
                self.toks() == t,
                self.cur() >= start,
                target == p_circuit_args(t, self.cur(), refs_view(args@)),
                !token_is(t, self.cur(), TokenType::Identifier),
            decreases self.toks().len() - self.cur(),
        {
            let curr = match self.parse_circuit_arg() {
                Ok(a) => a,
                Err(e) => return Err(e),
            };
            let ghost before = args@;
            args.push(curr);
            assert(refs_view(args@) =~= refs_view(before).push(curr@));
            if self.token_matches(TokenType::RParen) {
                break;
            }
            match self.expect(TokenType::Comma) {
                Ok(_) => {},
                Err(e) => return Err(e),
            }
            if !self.token_matches(TokenType::Identifier) {
                return Err(ParserError::UnexpectedToken(self.curr_lexeme()));
            }
        }
        match self.expect(TokenType::RParen) {
            Ok(_) => {},
            Err(e) => return Err(e),
        }
        match self.expect(TokenType::Semicolon) {
            Ok(_) => {},
            Err(e) => return Err(e),
        }
        if args.len() == 0 {
            return Err(ParserError::NoRegistersParsed);
        }
        Ok(CircuitInstr { name: gate_name, args })
    }

    /// `name`, `name[_]` or `name[n]`.
    fn parse_circuit_arg(&mut self) -> (res: Result<CircuitRef, ParserError>)
        requires
            old(self).wf(),
        ensures
            final(self).wf(),
            final(self).toks() == old(self).toks(),
            final(self).cur() >= old(self).cur(),
            res is Ok ==> final(self).cur() > old(self).cur(),
            match p_circuit_arg(old(self).toks(), old(self).cur()) {
                Ok((v, p)) => res matches Ok(r) && r@ == v && final(self).cur() == p,
                Err(e) => res matches Err(x) && x@ == e,
            },
    {
        let curr_identifier = match self.expect(TokenType::Identifier) {
            Ok(s) => s,
            Err(e) => return Err(e),
        };
        if self.token_matches(TokenType::Comma) || self.token_matches(TokenType::RParen) {
            return Ok(CircuitRef { name: curr_identifier, applies: Applies::All });
        }
        match self.expect(TokenType::LSqBracket) {
            Ok(_) => {},
            Err(e) => return Err(e),
        }
        let curr_type = match self.peek(0) {
            Some(t) => t.token_type,
            None => return Err(ParserError::UnexpectedEnd),
        };
        let curr_applies: Applies = match curr_type {
            TokenType::Underscore => Applies::All,
            TokenType::IntLiteral => {
                match Parser::convert_to_usize(self.curr_lexeme()) {
                    Ok(val) => Applies::One(val),
                    Err(e) => return Err(e),
                }
            },
            _ => {
                return Err(ParserError::UnexpectedToken(self.curr_lexeme()));
            },
        };
        self.advance();
        match self.expect(TokenType::RSqBracket) {
            Ok(_) => {},
            Err(e) => return Err(e),
        }
        Ok(CircuitRef { name: curr_identifier, applies: curr_applies })
    }
}


// ----- statements and programs -----

impl Parser {
    fn parse_statement(&mut self) -> (res: Result<Statement, ParserError>)
        requires
            old(self).wf(),
            halts(p_statement(old(self).toks(), old(self).cur())),
        ensures
            final(self).wf(),
            final(self).toks() == old(self).toks(),
            final(self).cur() >= old(self).cur(),
            res is Ok ==> final(self).cur() > old(self).cur(),
            match p_statement(old(self).toks(), old(self).cur()) {
                Ok((v, p)) => res matches Ok(r) && r@ == v && final(self).cur() == p,
                Err(e) => res matches Err(x) && x@ == e,
            },
    {
        if self.is_at_end() {
            return Err(ParserError::UnexpectedEnd);
        }
        let curr_type: TokenType = self.tokens[self.current].token_type;
        match curr_type {
            TokenType::Bits => match self.parse_assignment() {
                Ok(a) => Ok(Statement::Assignment(a)),
                Err(e) => Err(e),
            },
            TokenType::Function => match self.parse_function() {
                Ok(f) => Ok(Statement::Function(f)),
                Err(e) => Err(e),
            },
            TokenType::Oracle => match self.parse_oracle() {
                Ok(o) => Ok(Statement::Oracle(o)),
                Err(e) => Err(e),
            },
            TokenType::Circuit => match self.parse_circuit() {
                Ok(c) => Ok(Statement::Circuit(c)),
                Err(e) => Err(e),
            },
            TokenType::Identifier => {
                let is_mtd = self.token_matches_lookahead(TokenType::Period, 1);
                if is_mtd {
                    match self.parse_method_call() {
                        Ok(m) => Ok(Statement::MethodCall(m)),
                        Err(e) => Err(e),
                    }
                } else {
                    match self.parse_expr() {
                        Ok(e) => Ok(Statement::Expr(e)),
                        Err(e) => Err(e),
                    }
                }
            },
            _ => match self.parse_expr() {
                Ok(e) => Ok(Statement::Expr(e)),
                Err(e) => Err(e),
            },
        }
    }

    /// `bits name = expr;`
    fn parse_assignment(&mut self) -> (res: Result<Assignment, ParserError>)
        requires
            old(self).wf(),
            halts(p_assignment(old(self).toks(), old(self).cur())),
        ensures
            final(self).wf(),
            final(self).toks() == old(self).toks(),
            final(self).cur() >= old(self).cur(),
            res is Ok ==> final(self).cur() > old(self).cur(),
            match p_assignment(old(self).toks(), old(self).cur()) {
                Ok((v, p)) => res matches Ok(r) && r@ == v && final(self).cur() == p,
                Err(e) => res matches Err(x) && x@ == e,
            },
    {
        match self.expect(TokenType::Bits) {
            Ok(_) => {},
            Err(e) => return Err(e),
        }
        let name = match self.expect(TokenType::Identifier) {
            Ok(s) => s,
            Err(e) => return Err(e),
        };
        match self.expect(TokenType::Equals) {
            Ok(_) => {},
            Err(e) => return Err(e),
        }
        let value = match self.parse_expr() {
            Ok(v) => v,
            Err(e) => return Err(e),
        };
        let assignment = Assignment { name, value };
        match self.expect(TokenType::Semicolon) {
            Ok(_) => {},
            Err(e) => return Err(e),
        }
        Ok(assignment)
    }

    /// `circuit.method(args);`
    fn parse_method_call(&mut self) -> (res: Result<MethodCall, ParserError>)
        requires
            old(self).wf(),
        ensures
            final(self).wf(),
            final(self).toks() == old(self).toks(),
            final(self).cur() >= old(self).cur(),
            res is Ok ==> final(self).cur() > old(self).cur(),
            match p_method_call(old(self).toks(), old(self).cur()) {
                Ok((v, p)) => res matches Ok(r) && r@ == v && final(self).cur() == p,
                Err(e) => res matches Err(x) && x@ == e,
            },
    {
        let circuit_name = match self.expect(TokenType::Identifier) {
            Ok(s) => s,
            Err(e) => return Err(e),
        };
        match self.expect(TokenType::Period) {
            Ok(_) => {},
            Err(e) => return Err(e),
        }
        let method_name = match self.expect(TokenType::Identifier) {
            Ok(s) => s,
            Err(e) => return Err(e),
        };
        match self.expect(TokenType::LParen) {
            Ok(_) => {},
            Err(e) => return Err(e),
        }
        let method_args = match self.parse_method_args() {
            Ok(a) => a,
            Err(e) => return Err(e),
        };
        match self.expect(TokenType::RParen) {
            Ok(_) => {},
            Err(e) => return Err(e),
        }
        match self.expect(TokenType::Semicolon) {
            Ok(_) => {},
            Err(e) => return Err(e),
        }
        Ok(MethodCall { name: circuit_name, call: method_name, args: method_args })
    }

    /// Arguments `name = n`, separated by commas, up to (not including) the
    /// closing `)`.
    fn parse_method_args(&mut self) -> (res: Result<Vec<MethodArg>, ParserError>)
        requires
            old(self).wf(),
        ensures
            final(self).wf(),
            final(self).toks() == old(self).toks(),
            final(self).cur() >= old(self).cur(),
            match p_method_args(old(self).toks(), old(self).cur(), Seq::empty()) {
                Ok((v, p)) => res matches Ok(r) && r@.map_values(|a: MethodArg| a@) == v
                    && final(self).cur() == p,
                Err(e) => res matches Err(x) && x@ == e,
            },
    {
        let ghost t = self.toks();
        let ghost target = p_method_args(t, self.cur(), Seq::empty());
        let mut args: Vec<MethodArg> = Vec::new();
        assert(args@.map_values(|a: MethodArg| a@) =~= Seq::empty());
        while self.token_matches(TokenType::Identifier)
            invariant
                self.wf(),
                self.toks() == t,
                t == old(self).toks(),
                self.cur() >= old(self).cur(),
                target == p_method_args(t, old(self).cur(), Seq::empty()),
                target == p_method_args(t, self.cur(), args@.map_values(|a: MethodArg| a@)),
            ensures
                self.wf(),
                self.toks() == t,
                self.cur() >= old(self).cur(),
                target == p_method_args(t, self.cur(), args@.map_values(|a: MethodArg| a@)),
                !token_is(t, self.cur(), TokenType::Identifier),
            decreases self.toks().len() - self.cur(),
        {
            let name = match self.expect(TokenType::Identifier) {
                Ok(s) => s,
                Err(e) => return Err(e),
            };
            match self.expect(TokenType::Equals) {
                Ok(_) => {},
                Err(e) => return Err(e),
            }
            let qty = match self.expect(TokenType::IntLiteral) {
                Ok(s) => s,
                Err(e) => return Err(e),
            };
            let qty: usize = match Parser::convert_to_usize(qty) {
                Ok(n) => n,
                Err(e) => return Err(e),
            };
            let ghost before = args@;
            let arg = MethodArg { name, value: qty };
            args.push(arg);
            assert(args@.map_values(|a: MethodArg| a@) =~= before.map_values(|a: MethodArg| a@).push(
                args@.last()@,
            ));
            if self.token_matches(TokenType::RParen) {
                break;
            }
            match self.expect(TokenType::Comma) {
                Ok(_) => {},
                Err(e) => return Err(e),
            }
            if !self.token_matches(TokenType::Identifier) {
                return Err(ParserError::UnexpectedToken(self.curr_lexeme()));
            }
        }
        Ok(args)
    }

    /// Parses statements up to the end-of-file token; the first failure
    /// ends parsing.
    pub fn parse(&mut self) -> (res: Result<Vec<Statement>, ParserError>)
        requires
            old(self).wf(),
            halts(p_program(old(self).toks(), old(self).cur(), Seq::empty())),
        ensures
            final(self).wf(),
            final(self).toks() == old(self).toks(),
            match p_program(old(self).toks(), old(self).cur(), Seq::empty()) {
                Ok(v) => res matches Ok(r) && program_view(r@) == v,
                Err(e) => res matches Err(x) && x@ == e,
            },
    {
        let ghost t = self.toks();
        let ghost target = p_program(t, self.cur(), Seq::empty());
        let mut program: Vec<Statement> = Vec::new();
        assert(program_view(program@) =~= Seq::empty());
        while !self.is_at_end()
            invariant
                self.wf(),
                self.toks() == t,
                t == old(self).toks(),
                target == p_program(t, old(self).cur(), Seq::empty()),
                halts(target),
                target == p_program(t, self.cur(), program_view(program@)),
            ensures
                self.wf(),
                self.toks() == t,
                target == Ok::<Seq<crate::interpreter::parser::ast_types::SpecStatement>, crate::interpreter::parser::parser_error::SpecParserError>(program_view(program@)),
            decreases self.toks().len() - self.cur(),
        {
            if self.tokens[self.current].token_type == TokenType::EOF {
                break;
            }
            let result = match self.parse_statement() {
                Ok(s) => s,
                Err(e) => return Err(e),
            };
            let ghost before = program@;
            program.push(result);
            assert(program_view(program@) =~= program_view(before).push(program@.last()@));
        }
        Ok(program)
    }
}

} // verus!
