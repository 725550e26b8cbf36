pub mod bindings;
pub mod evaluator;
pub mod lexer;
pub mod literals;
pub mod parser;
pub mod type_checker;

use vstd::prelude::*;
use crate::interpreter::evaluator::Evaluator;
use crate::interpreter::evaluator::environment::Value;
use crate::interpreter::evaluator::semantics::registers_fit;
use crate::interpreter::lexer::{Lexer, col_at, error_report, lex_from, line_at};
use crate::interpreter::parser::{Parser, lemma_lexed_tokens_parsable};
use crate::interpreter::parser::ast_types::{SpecStatement, program_view};
use crate::interpreter::parser::grammar::parse_tokens;
use crate::interpreter::parser::grammar_wf::lemma_program_wf;
use crate::interpreter::parser::grammar_halts::lemma_program_halts;
use crate::interpreter::parser::parser_error::ParserError;
use crate::interpreter::type_checker::{CheckStop, TypeChecker, check_program, program_wf};
use crate::interpreter::type_checker::fits::program_registers_fit;
use crate::interpreter::type_checker::lang_types::SpecLanguageType;
use crate::interpreter::type_checker::type_error::{SpecTypeError, TypeError};

verus! {

/// Why a program was not accepted for evaluation.
pub enum InterpretError {
    /// The lexer's report of where and why it stopped.
    Lexing(String),
    Parsing(ParserError),
    /// A count of qubits goes past what `usize` holds: while checking the
    /// program (an instruction's arguments, or an oracle's two sizes where
    /// it is applied), or, for a well-typed program, the registers of a
    /// circuit together.
    SizeOverflow,
    Typing(TypeError),
}

/// The characters of a source, one per byte.
pub open spec fn source_chars(source: Seq<u8>) -> Seq<char> {
    source.map_values(|b: u8| b as char)
}

/// Reads, checks and prepares programs of the language.
pub struct Interpreter {}

impl Interpreter {
    /// Reads a program from the bytes of its source (tokens, then the
    /// syntax tree), checks its types, and gives the evaluator that runs
    /// it from its first statement; or the first failure.
    pub fn interpret(source: &[u8]) -> (res: Result<Evaluator, InterpretError>)
        requires
            source@.len() < usize::MAX,
        ensures
            ({
                let src = source_chars(source@);
                let (toks, lexed) = lex_from(src, 0, 0);
                match lexed {
                    Some((e, p)) => res matches Err(InterpretError::Lexing(msg))
                        && msg@ == error_report(line_at(src, p) as usize, col_at(src, p) as usize, e),
                    None => match parse_tokens(toks) {
                        Err(e) => res matches Err(InterpretError::Parsing(x)) && x@ == e,
                        Ok(stmts) => match check_program(Seq::empty(), stmts).1 {
                            Some(SpecTypeError::Overflow) => res matches Err(InterpretError::SizeOverflow),
                            Some(e) => res matches Err(InterpretError::Typing(x)) && x@ == e,
                            None => if !registers_fit(stmts) {
                                res matches Err(InterpretError::SizeOverflow)
                            } else {
                                res matches Ok(ev) && ev.wf() && ev.statements() == stmts
                                    && ev.env() == Seq::<(Seq<char>, Value)>::empty() && ev.position() == 0
                            },
                        },
                    },
                }
            }),
    {
        let mut lexer = Lexer::new();
        lexer.load_bytes(source);
        let ghost src = lexer.source();
        assert(src == source_chars(source@));
        match lexer.scan_tokens() {
            Ok(()) => {},
            Err(e) => {
                proof {
                    lexer.lemma_wf_position();
                }
                return Err(InterpretError::Lexing(lexer.show_error(e)));
            },
        }
        let ghost toks = lex_from(src, 0, 0).0;
        proof {
            assert(lexer.token_list() =~= toks);
            lemma_lexed_tokens_parsable(src, 0, 0);
            lemma_program_wf(toks, 0, Seq::empty());
            lemma_program_halts(toks, 0, Seq::empty());
        }
        let mut parser = Parser::new(lexer.into_tokens());
        let program = match parser.parse() {
            Ok(p) => p,
            Err(e) => {
                return Err(InterpretError::Parsing(e));
            },
        };
        let mut tc = TypeChecker::new();
        match tc.check_statements(&program) {
            Ok(()) => {},
            Err(CheckStop::Overflow) => {
                return Err(InterpretError::SizeOverflow);
            },
            Err(CheckStop::Type(e)) => {
                return Err(InterpretError::Typing(e));
            },
        }
        if !program_registers_fit(&program) {
            return Err(InterpretError::SizeOverflow);
        }
        Ok(Evaluator::new(program))
    }
}

} // verus!
