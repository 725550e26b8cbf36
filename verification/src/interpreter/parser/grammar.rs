use vstd::prelude::*;
use crate::interpreter::lexer::token::{SpecToken, TokenType};
use crate::interpreter::literals::parse_unsigned;
use crate::interpreter::parser::ast_types::{
    Applies, BinOp, SpecAssignment, SpecCircuitDecl, SpecCircuitInstr, SpecCircuitRef, SpecExpr,
    SpecFunctionDecl, SpecMethodArg, SpecMethodCall, SpecOracleDecl, SpecParam, SpecQubitDecl,
    SpecStatement, Type,
};
use crate::interpreter::parser::parser_error::SpecParserError;

verus! {

// The grammar of the language, read from a sequence of tokens: each rule
// takes the position of its first token and gives the tree it builds with
// the position after it, or the failure that stops it.

pub type Toks = Seq<SpecToken>;

pub type PResult<T> = Result<(T, int), SpecParserError>;

pub open spec fn token_is(t: Toks, pos: int, tt: TokenType) -> bool {
    0 <= pos < t.len() && t[pos].token_type == tt
}

/// The lexeme at `pos`, as failures show it.
pub open spec fn lexeme_at(t: Toks, pos: int) -> Seq<char> {
    if pos >= t.len() || pos < 0 {
        "UNEXPECTED EOF"@
    } else {
        t[pos].lexeme
    }
}

/// The token at `pos` must be of kind `tt`; its lexeme is the result.
pub open spec fn p_expect(t: Toks, pos: int, tt: TokenType) -> PResult<Seq<char>> {
    if token_is(t, pos, tt) {
        Ok((t[pos].lexeme, pos + 1))
    } else {
        Err(SpecParserError::UnexpectedToken(lexeme_at(t, pos)))
    }
}

/// Parsing does not reach an expression that would start past the last
/// token.
pub open spec fn halts<T>(r: Result<T, SpecParserError>) -> bool {
    !(r matches Err(SpecParserError::PastEnd))
}

pub open spec fn to_usize(s: Seq<char>) -> Result<usize, SpecParserError> {
    match parse_unsigned(s, 10) {
        Ok(n) => Ok(n),
        Err(_) => Err(SpecParserError::FailedNumConversion(s)),
    }
}

// ----- expressions -----
// `*` binds loosest, then `|`, then `^`, then `&`; then calls `f(a, b)`.

pub open spec fn p_expr(t: Toks, pos: int) -> PResult<SpecExpr>
    decreases t.len() - pos, 20int,
{
    p_dot(t, pos)
}

pub open spec fn p_dot(t: Toks, pos: int) -> PResult<SpecExpr>
    decreases t.len() - pos, 19int,
{
    match p_or(t, pos) {
        Err(e) => Err(e),
        Ok((l, p)) => if pos <= p <= t.len() {
            p_dot_rest(t, p, l)
        } else {
            Err(SpecParserError::UnexpectedEnd)
        },
    }
}

pub open spec fn p_dot_rest(t: Toks, pos: int, left: SpecExpr) -> PResult<SpecExpr>
    decreases t.len() - pos, 17int,
{
    if token_is(t, pos, TokenType::Star) {
        match p_or(t, pos + 1) {
            Err(e) => Err(e),
            Ok((r, p)) => if pos < p <= t.len() {
                p_dot_rest(t, p, SpecExpr::Binary { op: BinOp::DotProduct, left: Box::new(left), right: Box::new(r) })
            } else {
                Err(SpecParserError::UnexpectedEnd)
            },
        }
    } else {
        Ok((left, pos))
    }
}

pub open spec fn p_or(t: Toks, pos: int) -> PResult<SpecExpr>
    decreases t.len() - pos, 18int,
{
    match p_xor(t, pos) {
        Err(e) => Err(e),
        Ok((l, p)) => if pos <= p <= t.len() {
            p_or_rest(t, p, l)
        } else {
            Err(SpecParserError::UnexpectedEnd)
        },
    }
}

pub open spec fn p_or_rest(t: Toks, pos: int, left: SpecExpr) -> PResult<SpecExpr>
    decreases t.len() - pos, 15int,
{
    if token_is(t, pos, TokenType::Pipe) {
        match p_xor(t, pos + 1) {
            Err(e) => Err(e),
            Ok((r, p)) => if pos < p <= t.len() {
                p_or_rest(t, p, SpecExpr::Binary { op: BinOp::Or, left: Box::new(left), right: Box::new(r) })
            } else {
                Err(SpecParserError::UnexpectedEnd)
            },
        }
    } else {
        Ok((left, pos))
    }
}

pub open spec fn p_xor(t: Toks, pos: int) -> PResult<SpecExpr>
    decreases t.len() - pos, 16int,
{
    match p_and(t, pos) {
        Err(e) => Err(e),
        Ok((l, p)) => if pos <= p <= t.len() {
            p_xor_rest(t, p, l)
        } else {
            Err(SpecParserError::UnexpectedEnd)
        },
    }
}

pub open spec fn p_xor_rest(t: Toks, pos: int, left: SpecExpr) -> PResult<SpecExpr>
    decreases t.len() - pos, 13int,
{
    if token_is(t, pos, TokenType::Caret) {
        match p_and(t, pos + 1) {
            Err(e) => Err(e),
            Ok((r, p)) => if pos < p <= t.len() {
                p_xor_rest(t, p, SpecExpr::Binary { op: BinOp::Xor, left: Box::new(left), right: Box::new(r) })
            } else {
                Err(SpecParserError::UnexpectedEnd)
            },
        }
    } else {
        Ok((left, pos))
    }
}

pub open spec fn p_and(t: Toks, pos: int) -> PResult<SpecExpr>
    decreases t.len() - pos, 14int,
{
    match p_postfix(t, pos) {
        Err(e) => Err(e),
        Ok((l, p)) => if pos <= p <= t.len() {
            p_and_rest(t, p, l)
        } else {
            Err(SpecParserError::UnexpectedEnd)
        },
    }
}

pub open spec fn p_and_rest(t: Toks, pos: int, left: SpecExpr) -> PResult<SpecExpr>
    decreases t.len() - pos, 11int,
{
    if token_is(t, pos, TokenType::Ampersand) {
        match p_postfix(t, pos + 1) {
            Err(e) => Err(e),
            Ok((r, p)) => if pos < p <= t.len() {
                p_and_rest(t, p, SpecExpr::Binary { op: BinOp::And, left: Box::new(left), right: Box::new(r) })
            } else {
                Err(SpecParserError::UnexpectedEnd)
            },
        }
    } else {
        Ok((left, pos))
    }
}

pub open spec fn p_postfix(t: Toks, pos: int) -> PResult<SpecExpr>
    decreases t.len() - pos, 12int,
{
    match p_primary(t, pos) {
        Err(e) => Err(e),
        Ok((e, p)) => if pos <= p <= t.len() {
            p_postfix_rest(t, p, e)
        } else {
            Err(SpecParserError::UnexpectedEnd)
        },
    }
}

/// Each `( args )` after an expression makes a call of it.
pub open spec fn p_postfix_rest(t: Toks, pos: int, callee: SpecExpr) -> PResult<SpecExpr>
    decreases t.len() - pos, 9int,
{
    if token_is(t, pos, TokenType::LParen) {
        match p_call_args(t, pos + 1) {
            Err(e) => Err(e),
            Ok((args, p)) => match p_expect(t, p, TokenType::RParen) {
                Err(e) => Err(e),
                Ok((_, p2)) => if pos < p2 <= t.len() {
                    p_postfix_rest(t, p2, SpecExpr::Call { callee: Box::new(callee), args })
                } else {
                    Err(SpecParserError::UnexpectedEnd)
                },
            },
        }
    } else {
        Ok((callee, pos))
    }
}

/// The arguments of a call: none before `)`, else expressions separated
/// by commas.
pub open spec fn p_call_args(t: Toks, pos: int) -> PResult<Seq<SpecExpr>>
    decreases t.len() - pos, 21int,
{
    if token_is(t, pos, TokenType::RParen) {
        Ok((Seq::empty(), pos))
    } else {
        match p_expr(t, pos) {
            Err(e) => Err(e),
            Ok((a, p)) => if pos <= p <= t.len() {
                p_call_args_rest(t, p, seq![a])
            } else {
                Err(SpecParserError::UnexpectedEnd)
            },
        }
    }
}

pub open spec fn p_call_args_rest(t: Toks, pos: int, acc: Seq<SpecExpr>) -> PResult<Seq<SpecExpr>>
    decreases t.len() - pos, 7int,
{
    if token_is(t, pos, TokenType::Comma) {
        match p_expr(t, pos + 1) {
            Err(e) => Err(e),
            Ok((a, p)) => if pos < p <= t.len() {
                p_call_args_rest(t, p, acc.push(a))
            } else {
                Err(SpecParserError::UnexpectedEnd)
            },
        }
    } else {
        Ok((acc, pos))
    }
}

pub open spec fn p_primary(t: Toks, pos: int) -> PResult<SpecExpr>
    decreases t.len() - pos, 10int,
{
    if token_is(t, pos, TokenType::Identifier) {
        Ok((SpecExpr::Identifier(t[pos].lexeme), pos + 1))
    } else if token_is(t, pos, TokenType::BitsLiteral) {
        Ok((SpecExpr::BitsLiteral(t[pos].lexeme), pos + 1))
    } else if token_is(t, pos, TokenType::LParen) {
        p_grouping(t, pos + 1)
    } else if 0 <= pos < t.len() {
        Err(SpecParserError::UnexpectedToken(t[pos].lexeme))
    } else {
        Err(SpecParserError::PastEnd)
    }
}

pub open spec fn p_grouping(t: Toks, pos: int) -> PResult<SpecExpr>
    decreases t.len() - pos, 22int,
{
    match p_expr(t, pos) {
        Err(e) => Err(e),
        Ok((e, p)) => match p_expect(t, p, TokenType::RParen) {
            Err(x) => Err(x),
            Ok((_, p2)) => Ok((SpecExpr::Grouping(Box::new(e)), p2)),
        },
    }
}


// ----- types and parameters -----

/// `bits[n]` or `qubits[n]`.
pub open spec fn p_type(t: Toks, pos: int) -> PResult<Type> {
    if token_is(t, pos, TokenType::Bits) || token_is(t, pos, TokenType::Qubits) {
        let is_bits = t[pos].token_type == TokenType::Bits;
        match p_expect(t, pos + 1, TokenType::LSqBracket) {
            Err(e) => Err(e),
            Ok((_, p1)) => match p_expect(t, p1, TokenType::IntLiteral) {
                Err(e) => Err(e),
                Ok((lex, p2)) => match to_usize(lex) {
                    Err(e) => Err(e),
                    Ok(n) => match p_expect(t, p2, TokenType::RSqBracket) {
                        Err(e) => Err(e),
                        Ok((_, p3)) => Ok((if is_bits { Type::Bits(n) } else { Type::Qubits(n) }, p3)),
                    },
                },
            },
        }
    } else if 0 <= pos < t.len() {
        Err(SpecParserError::UnexpectedToken(t[pos].lexeme))
    } else {
        Err(SpecParserError::UnexpectedEnd)
    }
}

/// After a list item: `)` ends the list, else a comma must come and an
/// identifier follow it. `Ok(None)` ends the list at `pos`; `Ok(Some(p))`
/// goes on at `p`.
pub open spec fn list_sep(t: Toks, pos: int) -> Result<Option<int>, SpecParserError> {
    if token_is(t, pos, TokenType::RParen) {
        Ok(None)
    } else {
        match p_expect(t, pos, TokenType::Comma) {
            Err(e) => Err(e),
            Ok((_, p)) => if token_is(t, p, TokenType::Identifier) {
                Ok(Some(p))
            } else {
                Err(SpecParserError::UnexpectedToken(lexeme_at(t, p)))
            },
        }
    }
}

/// Parameters `name: type` separated by commas, added to `acc`.
pub open spec fn p_params(t: Toks, pos: int, acc: Seq<SpecParam>) -> PResult<Seq<SpecParam>>
    decreases t.len() - pos,
{
    if token_is(t, pos, TokenType::Identifier) {
        match p_expect(t, pos + 1, TokenType::Colon) {
            Err(e) => Err(e),
            Ok((_, p1)) => match p_type(t, p1) {
                Err(e) => Err(e),
                Ok((ty, p2)) => {
                    let acc2 = acc.push(SpecParam { name: t[pos].lexeme, ty });
                    match list_sep(t, p2) {
                        Err(e) => Err(e),
                        Ok(None) => Ok((acc2, p2)),
                        Ok(Some(p3)) => if pos < p3 <= t.len() {
                            p_params(t, p3, acc2)
                        } else {
                            Err(SpecParserError::UnexpectedEnd)
                        },
                    }
                },
            },
        }
    } else {
        Ok((acc, pos))
    }
}

// ----- statements -----

/// `function name(params) -> type { expr }`
pub open spec fn p_function(t: Toks, pos: int) -> PResult<SpecFunctionDecl> {
    match p_expect(t, pos, TokenType::Function) {
        Err(e) => Err(e),
        Ok((_, p0)) => match p_expect(t, p0, TokenType::Identifier) {
            Err(e) => Err(e),
            Ok((name, p1)) => match p_expect(t, p1, TokenType::LParen) {
                Err(e) => Err(e),
                Ok((_, p2)) => match p_params(t, p2, Seq::empty()) {
                    Err(e) => Err(e),
                    Ok((params, p3)) => match p_expect(t, p3, TokenType::RParen) {
                        Err(e) => Err(e),
                        Ok((_, p4)) => match p_expect(t, p4, TokenType::Arrow) {
                            Err(e) => Err(e),
                            Ok((_, p5)) => match p_type(t, p5) {
                                Err(e) => Err(e),
                                Ok((return_type, p6)) => match p_expect(t, p6, TokenType::LBrace) {
                                    Err(e) => Err(e),
                                    Ok((_, p7)) => match p_expr(t, p7) {
                                        Err(e) => Err(e),
                                        Ok((body, p8)) => match p_expect(t, p8, TokenType::RBrace) {
                                            Err(e) => Err(e),
                                            Ok((_, p9)) => Ok((
                                                SpecFunctionDecl { name, params, return_type, body },
                                                p9,
                                            )),
                                        },
                                    },
                                },
                            },
                        },
                    },
                },
            },
        },
    }
}

/// `oracle name(params) loads function;`
pub open spec fn p_oracle(t: Toks, pos: int) -> PResult<SpecOracleDecl> {
    match p_expect(t, pos, TokenType::Oracle) {
        Err(e) => Err(e),
        Ok((_, p0)) => match p_expect(t, p0, TokenType::Identifier) {
            Err(e) => Err(e),
            Ok((name, p1)) => match p_expect(t, p1, TokenType::LParen) {
                Err(e) => Err(e),
                Ok((_, p2)) => match p_params(t, p2, Seq::empty()) {
                    Err(e) => Err(e),
                    Ok((params, p3)) => match p_expect(t, p3, TokenType::RParen) {
                        Err(e) => Err(e),
                        Ok((_, p4)) => match p_expect(t, p4, TokenType::Loads) {
                            Err(e) => Err(e),
                            Ok((_, p5)) => match p_expect(t, p5, TokenType::Identifier) {
                                Err(e) => Err(e),
                                Ok((loads, p6)) => match p_expect(t, p6, TokenType::Semicolon) {
                                    Err(e) => Err(e),
                                    Ok((_, p7)) => Ok((SpecOracleDecl { name, params, loads }, p7)),
                                },
                            },
                        },
                    },
                },
            },
        },
    }
}

/// The text between the quotes of a string literal.
pub open spec fn unquote(s: Seq<char>) -> Seq<char> {
    s.subrange(1, s.len() - 1)
}

/// `qubits name = "init";`
pub open spec fn p_qubit_decl(t: Toks, pos: int) -> PResult<SpecQubitDecl> {
    match p_expect(t, pos, TokenType::Qubits) {
        Err(e) => Err(e),
        Ok((_, p0)) => match p_expect(t, p0, TokenType::Identifier) {
            Err(e) => Err(e),
            Ok((name, p1)) => match p_expect(t, p1, TokenType::Equals) {
                Err(e) => Err(e),
                Ok((_, p2)) => match p_expect(t, p2, TokenType::StringLiteral) {
                    Err(e) => Err(e),
                    Ok((value, p3)) => match p_expect(t, p3, TokenType::Semicolon) {
                        Err(e) => Err(e),
                        Ok((_, p4)) => Ok((SpecQubitDecl { name, init: unquote(value) }, p4)),
                    },
                },
            },
        },
    }
}

/// Qubit declarations, added to `acc`, while the next token is `qubits`.
pub open spec fn p_registers_rest(t: Toks, pos: int, acc: Seq<SpecQubitDecl>) -> PResult<Seq<SpecQubitDecl>>
    decreases t.len() - pos,
{
    if token_is(t, pos, TokenType::Qubits) {
        match p_qubit_decl(t, pos) {
            Err(e) => Err(e),
            Ok((d, p)) => if pos < p <= t.len() {
                p_registers_rest(t, p, acc.push(d))
            } else {
                Err(SpecParserError::UnexpectedEnd)
            },
        }
    } else {
        Ok((acc, pos))
    }
}

/// `register:` and at least one qubit declaration.
pub open spec fn p_registers(t: Toks, pos: int) -> PResult<Seq<SpecQubitDecl>> {
    match p_expect(t, pos, TokenType::Register) {
        Err(e) => Err(e),
        Ok((_, p0)) => match p_expect(t, p0, TokenType::Colon) {
            Err(e) => Err(e),
            Ok((_, p1)) => match p_registers_rest(t, p1, Seq::empty()) {
                Err(e) => Err(e),
                Ok((regs, p2)) => if regs.len() > 0 {
                    Ok((regs, p2))
                } else {
                    Err(SpecParserError::NoRegistersParsed)
                },
            },
        },
    }
}

/// `name` (the whole register), `name[_]` or `name[n]`.
pub open spec fn p_circuit_arg(t: Toks, pos: int) -> PResult<SpecCircuitRef> {
    match p_expect(t, pos, TokenType::Identifier) {
        Err(e) => Err(e),
        Ok((name, p0)) => if token_is(t, p0, TokenType::Comma) || token_is(t, p0, TokenType::RParen) {
            Ok((SpecCircuitRef { name, applies: Applies::All }, p0))
        } else {
            match p_expect(t, p0, TokenType::LSqBracket) {
                Err(e) => Err(e),
                Ok((_, p1)) => if p1 >= t.len() {
                    Err(SpecParserError::UnexpectedEnd)
                } else {
                    let applies: Result<Applies, SpecParserError> =
                        if t[p1].token_type == TokenType::Underscore {
                            Ok(Applies::All)
                        } else if t[p1].token_type == TokenType::IntLiteral {
                            match to_usize(t[p1].lexeme) {
                                Ok(n) => Ok(Applies::One(n)),
                                Err(e) => Err(e),
                            }
                        } else {
                            Err(SpecParserError::UnexpectedToken(t[p1].lexeme))
                        };
                    match applies {
                        Err(e) => Err(e),
                        Ok(a) => match p_expect(t, p1 + 1, TokenType::RSqBracket) {
                            Err(e) => Err(e),
                            Ok((_, p2)) => Ok((SpecCircuitRef { name, applies: a }, p2)),
                        },
                    }
                }
            }
        },
    }
}

/// The arguments of an instruction, added to `acc`.
pub open spec fn p_circuit_args(t: Toks, pos: int, acc: Seq<SpecCircuitRef>) -> PResult<Seq<SpecCircuitRef>>
    decreases t.len() - pos,
{
    if token_is(t, pos, TokenType::Identifier) {
        match p_circuit_arg(t, pos) {
            Err(e) => Err(e),
            Ok((a, p)) => match list_sep(t, p) {
                Err(e) => Err(e),
                Ok(None) => Ok((acc.push(a), p)),
                Ok(Some(p2)) => if pos < p2 <= t.len() {
                    p_circuit_args(t, p2, acc.push(a))
                } else {
                    Err(SpecParserError::UnexpectedEnd)
                },
            },
        }
    } else {
        Ok((acc, pos))
    }
}

/// `gate(args);` with at least one argument.
pub open spec fn p_instruction(t: Toks, pos: int) -> PResult<SpecCircuitInstr> {
    match p_expect(t, pos, TokenType::Identifier) {
        Err(e) => Err(e),
        Ok((name, p0)) => match p_expect(t, p0, TokenType::LParen) {
            Err(e) => Err(e),
            Ok((_, p1)) => match p_circuit_args(t, p1, Seq::empty()) {
                Err(e) => Err(e),
                Ok((args, p2)) => match p_expect(t, p2, TokenType::RParen) {
                    Err(e) => Err(e),
                    Ok((_, p3)) => match p_expect(t, p3, TokenType::Semicolon) {
                        Err(e) => Err(e),
                        Ok((_, p4)) => if args.len() == 0 {
                            Err(SpecParserError::NoRegistersParsed)
                        } else {
                            Ok((SpecCircuitInstr { name, args }, p4))
                        },
                    },
                },
            },
        },
    }
}

/// Instructions, added to `acc`, while the next token is an identifier.
pub open spec fn p_instructions_rest(t: Toks, pos: int, acc: Seq<SpecCircuitInstr>) -> PResult<Seq<SpecCircuitInstr>>
    decreases t.len() - pos,
{
    if token_is(t, pos, TokenType::Identifier) {
        match p_instruction(t, pos) {
            Err(e) => Err(e),
            Ok((i, p)) => if pos < p <= t.len() {
                p_instructions_rest(t, p, acc.push(i))
            } else {
                Err(SpecParserError::UnexpectedEnd)
            },
        }
    } else {
        Ok((acc, pos))
    }
}

/// `apply:` and the instructions (possibly none).
pub open spec fn p_instructions(t: Toks, pos: int) -> PResult<Seq<SpecCircuitInstr>> {
    match p_expect(t, pos, TokenType::Apply) {
        Err(e) => Err(e),
        Ok((_, p0)) => match p_expect(t, p0, TokenType::Colon) {
            Err(e) => Err(e),
            Ok((_, p1)) => p_instructions_rest(t, p1, Seq::empty()),
        },
    }
}

/// `circuit name { register: ... apply: ... }`
pub open spec fn p_circuit(t: Toks, pos: int) -> PResult<SpecCircuitDecl> {
    match p_expect(t, pos, TokenType::Circuit) {
        Err(e) => Err(e),
        Ok((_, p0)) => match p_expect(t, p0, TokenType::Identifier) {
            Err(e) => Err(e),
            Ok((name, p1)) => match p_expect(t, p1, TokenType::LBrace) {
                Err(e) => Err(e),
                Ok((_, p2)) => match p_registers(t, p2) {
                    Err(e) => Err(e),
                    Ok((registers, p3)) => match p_instructions(t, p3) {
                        Err(e) => Err(e),
                        Ok((instructions, p4)) => match p_expect(t, p4, TokenType::RBrace) {
                            Err(e) => Err(e),
                            Ok((_, p5)) => Ok((SpecCircuitDecl { name, registers, instructions }, p5)),
                        },
                    },
                },
            },
        },
    }
}

/// `bits name = expr;`
pub open spec fn p_assignment(t: Toks, pos: int) -> PResult<SpecAssignment> {
    match p_expect(t, pos, TokenType::Bits) {
        Err(e) => Err(e),
        Ok((_, p0)) => match p_expect(t, p0, TokenType::Identifier) {
            Err(e) => Err(e),
            Ok((name, p1)) => match p_expect(t, p1, TokenType::Equals) {
                Err(e) => Err(e),
                Ok((_, p2)) => match p_expr(t, p2) {
                    Err(e) => Err(e),
                    Ok((value, p3)) => match p_expect(t, p3, TokenType::Semicolon) {
                        Err(e) => Err(e),
                        Ok((_, p4)) => Ok((SpecAssignment { name, value }, p4)),
                    },
                },
            },
        },
    }
}

/// Method arguments `name = n` separated by commas, added to `acc`.
pub open spec fn p_method_args(t: Toks, pos: int, acc: Seq<SpecMethodArg>) -> PResult<Seq<SpecMethodArg>>
    decreases t.len() - pos,
{
    if token_is(t, pos, TokenType::Identifier) {
        match p_expect(t, pos + 1, TokenType::Equals) {
            Err(e) => Err(e),
            Ok((_, p1)) => match p_expect(t, p1, TokenType::IntLiteral) {
                Err(e) => Err(e),
                Ok((lex, p2)) => match to_usize(lex) {
                    Err(e) => Err(e),
                    Ok(n) => {
                        let acc2 = acc.push(SpecMethodArg { name: t[pos].lexeme, value: n });
                        match list_sep(t, p2) {
                            Err(e) => Err(e),
                            Ok(None) => Ok((acc2, p2)),
                            Ok(Some(p3)) => if pos < p3 <= t.len() {
                                p_method_args(t, p3, acc2)
                            } else {
                                Err(SpecParserError::UnexpectedEnd)
                            },
                        }
                    },
                },
            },
        }
    } else {
        Ok((acc, pos))
    }
}

/// `circuit.method(args);`
pub open spec fn p_method_call(t: Toks, pos: int) -> PResult<SpecMethodCall> {
    match p_expect(t, pos, TokenType::Identifier) {
        Err(e) => Err(e),
        Ok((name, p0)) => match p_expect(t, p0, TokenType::Period) {
            Err(e) => Err(e),
            Ok((_, p1)) => match p_expect(t, p1, TokenType::Identifier) {
                Err(e) => Err(e),
                Ok((call, p2)) => match p_expect(t, p2, TokenType::LParen) {
                    Err(e) => Err(e),
                    Ok((_, p3)) => match p_method_args(t, p3, Seq::empty()) {
                        Err(e) => Err(e),
                        Ok((args, p4)) => match p_expect(t, p4, TokenType::RParen) {
                            Err(e) => Err(e),
                            Ok((_, p5)) => match p_expect(t, p5, TokenType::Semicolon) {
                                Err(e) => Err(e),
                                Ok((_, p6)) => Ok((SpecMethodCall { name, call, args }, p6)),
                            },
                        },
                    },
                },
            },
        },
    }
}

/// A statement, chosen by its first token (and, for an identifier, by
/// whether a period follows it).
pub open spec fn p_statement(t: Toks, pos: int) -> PResult<SpecStatement> {
    if pos < 0 || pos >= t.len() {
        Err(SpecParserError::UnexpectedEnd)
    } else {
        let tt = t[pos].token_type;
        if tt == TokenType::Bits {
            match p_assignment(t, pos) {
                Err(e) => Err(e),
                Ok((a, p)) => Ok((SpecStatement::Assignment(a), p)),
            }
        } else if tt == TokenType::Function {
            match p_function(t, pos) {
                Err(e) => Err(e),
                Ok((f, p)) => Ok((SpecStatement::Function(f), p)),
            }
        } else if tt == TokenType::Oracle {
            match p_oracle(t, pos) {
                Err(e) => Err(e),
                Ok((o, p)) => Ok((SpecStatement::Oracle(o), p)),
            }
        } else if tt == TokenType::Circuit {
            match p_circuit(t, pos) {
                Err(e) => Err(e),
                Ok((c, p)) => Ok((SpecStatement::Circuit(c), p)),
            }
        } else if tt == TokenType::Identifier && token_is(t, pos + 1, TokenType::Period) {
            match p_method_call(t, pos) {
                Err(e) => Err(e),
                Ok((m, p)) => Ok((SpecStatement::MethodCall(m), p)),
            }
        } else {
            match p_expr(t, pos) {
                Err(e) => Err(e),
                Ok((e, p)) => Ok((SpecStatement::Expr(e), p)),
            }
        }
    }
}

/// Statements from `pos` on, added to `acc`, up to the end of the tokens
/// or an end-of-file token.
pub open spec fn p_program(t: Toks, pos: int, acc: Seq<SpecStatement>) -> Result<Seq<SpecStatement>, SpecParserError>
    decreases t.len() - pos,
{
    if pos < 0 || pos >= t.len() || t[pos].token_type == TokenType::EOF {
        Ok(acc)
    } else {
        match p_statement(t, pos) {
            Err(e) => Err(e),
            Ok((s, p)) => if pos < p <= t.len() {
                p_program(t, p, acc.push(s))
            } else {
                Err(SpecParserError::UnexpectedEnd)
            },
        }
    }
}

/// What parsing a whole token sequence gives.
pub open spec fn parse_tokens(t: Toks) -> Result<Seq<SpecStatement>, SpecParserError> {
    p_program(t, 0, Seq::empty())
}

} // verus!
