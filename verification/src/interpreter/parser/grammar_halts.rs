use vstd::prelude::*;
use crate::interpreter::lexer::token::TokenType;
use crate::interpreter::parser::ast_types::{
    SpecCircuitInstr, SpecCircuitRef, SpecExpr, SpecMethodArg, SpecParam, SpecQubitDecl,
    SpecStatement,
};
use crate::interpreter::parser::grammar::{
    Toks, halts, p_and, p_and_rest, p_call_args, p_call_args_rest, p_circuit_args, p_dot,
    p_dot_rest, p_expect, p_expr, p_grouping, p_instructions_rest, p_method_args, p_or,
    p_or_rest, p_params, p_assignment, p_function, p_oracle, p_circuit, p_method_call, p_postfix, p_postfix_rest, p_primary, p_program, p_registers_rest,
    p_statement, p_type, p_xor, p_xor_rest, token_is,
};

verus! {

// Where the tokens end with an end-of-file token, which no rule consumes,
// parsing never reaches past the last token.

pub open spec fn ends_with_eof(t: Toks) -> bool {
    t.len() > 0 && t[t.len() - 1].token_type == TokenType::EOF
}

/// The outcome of a rule started before the last token: it halts, and
/// where it succeeds it stops before the last token's end.
pub open spec fn stays_inside<T>(t: Toks, r: Result<(T, int), crate::interpreter::parser::parser_error::SpecParserError>) -> bool {
    halts(r) && (r matches Ok((_, p)) ==> p < t.len())
}

proof fn lemma_expect_inside(t: Toks, pos: int, tt: TokenType)
    requires
        ends_with_eof(t),
        tt != TokenType::EOF,
    ensures
        stays_inside(t, p_expect(t, pos, tt)),
{
}

pub proof fn lemma_expr_inside(t: Toks, pos: int)
    requires
        ends_with_eof(t),
        0 <= pos < t.len(),
    ensures
        stays_inside(t, p_expr(t, pos)),
    decreases t.len() - pos, 20int,
{
    lemma_dot_inside(t, pos);
}

proof fn lemma_dot_inside(t: Toks, pos: int)
    requires
        ends_with_eof(t),
        0 <= pos < t.len(),
    ensures
        stays_inside(t, p_dot(t, pos)),
    decreases t.len() - pos, 19int,
{
    lemma_or_inside(t, pos);
    if let Ok((l, p)) = p_or(t, pos) {
        if pos <= p <= t.len() {
            lemma_dot_rest_inside(t, p, l);
        }
    }
}

proof fn lemma_dot_rest_inside(t: Toks, pos: int, left: SpecExpr)
    requires
        ends_with_eof(t),
        0 <= pos < t.len(),
    ensures
        stays_inside(t, p_dot_rest(t, pos, left)),
    decreases t.len() - pos, 17int,
{
    if token_is(t, pos, TokenType::Star) {
        lemma_or_inside(t, pos + 1);
        if let Ok((r, p)) = p_or(t, pos + 1) {
            if pos < p <= t.len() {
                lemma_dot_rest_inside(t, p, SpecExpr::Binary {
                    op: crate::interpreter::parser::ast_types::BinOp::DotProduct,
                    left: Box::new(left),
                    right: Box::new(r),
                });
            }
        }
    }
}

proof fn lemma_or_inside(t: Toks, pos: int)
    requires
        ends_with_eof(t),
        0 <= pos < t.len(),
    ensures
        stays_inside(t, p_or(t, pos)),
    decreases t.len() - pos, 18int,
{
    lemma_xor_inside(t, pos);
    if let Ok((l, p)) = p_xor(t, pos) {
        if pos <= p <= t.len() {
            lemma_or_rest_inside(t, p, l);
        }
    }
}

proof fn lemma_or_rest_inside(t: Toks, pos: int, left: SpecExpr)
    requires
        ends_with_eof(t),
        0 <= pos < t.len(),
    ensures
        stays_inside(t, p_or_rest(t, pos, left)),
    decreases t.len() - pos, 15int,
{
    if token_is(t, pos, TokenType::Pipe) {
        lemma_xor_inside(t, pos + 1);
        if let Ok((r, p)) = p_xor(t, pos + 1) {
            if pos < p <= t.len() {
                lemma_or_rest_inside(t, p, SpecExpr::Binary {
                    op: crate::interpreter::parser::ast_types::BinOp::Or,
                    left: Box::new(left),
                    right: Box::new(r),
                });
            }
        }
    }
}

proof fn lemma_xor_inside(t: Toks, pos: int)
    requires
        ends_with_eof(t),
        0 <= pos < t.len(),
    ensures
        stays_inside(t, p_xor(t, pos)),
    decreases t.len() - pos, 16int,
{
    lemma_and_inside(t, pos);
    if let Ok((l, p)) = p_and(t, pos) {
        if pos <= p <= t.len() {
            lemma_xor_rest_inside(t, p, l);
        }
    }
}

proof fn lemma_xor_rest_inside(t: Toks, pos: int, left: SpecExpr)
    requires
        ends_with_eof(t),
        0 <= pos < t.len(),
    ensures
        stays_inside(t, p_xor_rest(t, pos, left)),
    decreases t.len() - pos, 13int,
{
    if token_is(t, pos, TokenType::Caret) {
        lemma_and_inside(t, pos + 1);
        if let Ok((r, p)) = p_and(t, pos + 1) {
            if pos < p <= t.len() {
                lemma_xor_rest_inside(t, p, SpecExpr::Binary {
                    op: crate::interpreter::parser::ast_types::BinOp::Xor,
                    left: Box::new(left),
                    right: Box::new(r),
                });
            }
        }
    }
}

proof fn lemma_and_inside(t: Toks, pos: int)
    requires
        ends_with_eof(t),
        0 <= pos < t.len(),
    ensures
        stays_inside(t, p_and(t, pos)),
    decreases t.len() - pos, 14int,
{
    lemma_postfix_inside(t, pos);
    if let Ok((l, p)) = p_postfix(t, pos) {
        if pos <= p <= t.len() {
            lemma_and_rest_inside(t, p, l);
        }
    }
}

proof fn lemma_and_rest_inside(t: Toks, pos: int, left: SpecExpr)
    requires
        ends_with_eof(t),
        0 <= pos < t.len(),
    ensures
        stays_inside(t, p_and_rest(t, pos, left)),
    decreases t.len() - pos, 11int,
{
    if token_is(t, pos, TokenType::Ampersand) {
        lemma_postfix_inside(t, pos + 1);
        if let Ok((r, p)) = p_postfix(t, pos + 1) {
            if pos < p <= t.len() {
                lemma_and_rest_inside(t, p, SpecExpr::Binary {
                    op: crate::interpreter::parser::ast_types::BinOp::And,
                    left: Box::new(left),
                    right: Box::new(r),
                });
            }
        }
    }
}

proof fn lemma_postfix_inside(t: Toks, pos: int)
    requires
        ends_with_eof(t),
        0 <= pos < t.len(),
    ensures
        stays_inside(t, p_postfix(t, pos)),
    decreases t.len() - pos, 12int,
{
    lemma_primary_inside(t, pos);
    if let Ok((l, p)) = p_primary(t, pos) {
        if pos <= p <= t.len() {
            lemma_postfix_rest_inside(t, p, l);
        }
    }
}

proof fn lemma_postfix_rest_inside(t: Toks, pos: int, callee: SpecExpr)
    requires
        ends_with_eof(t),
        0 <= pos < t.len(),
    ensures
        stays_inside(t, p_postfix_rest(t, pos, callee)),
    decreases t.len() - pos, 9int,
{
    if token_is(t, pos, TokenType::LParen) {
        lemma_call_args_inside(t, pos + 1);
        if let Ok((args, p)) = p_call_args(t, pos + 1) {
            lemma_expect_inside(t, p, TokenType::RParen);
            if let Ok((_, p2)) = p_expect(t, p, TokenType::RParen) {
                if pos < p2 <= t.len() {
                    lemma_postfix_rest_inside(t, p2, SpecExpr::Call { callee: Box::new(callee), args });
                }
            }
        }
    }
}

proof fn lemma_call_args_inside(t: Toks, pos: int)
    requires
        ends_with_eof(t),
        0 <= pos < t.len(),
    ensures
        stays_inside(t, p_call_args(t, pos)),
    decreases t.len() - pos, 21int,
{
    if !token_is(t, pos, TokenType::RParen) {
        lemma_expr_inside(t, pos);
        if let Ok((a, p)) = p_expr(t, pos) {
            if pos <= p <= t.len() {
                lemma_call_args_rest_inside(t, p, seq![a]);
            }
        }
    }
}

proof fn lemma_call_args_rest_inside(t: Toks, pos: int, acc: Seq<SpecExpr>)
    requires
        ends_with_eof(t),
        0 <= pos < t.len(),
    ensures
        stays_inside(t, p_call_args_rest(t, pos, acc)),
    decreases t.len() - pos, 7int,
{
    if token_is(t, pos, TokenType::Comma) {
        lemma_expr_inside(t, pos + 1);
        if let Ok((a, p)) = p_expr(t, pos + 1) {
            if pos < p <= t.len() {
                lemma_call_args_rest_inside(t, p, acc.push(a));
            }
        }
    }
}

proof fn lemma_primary_inside(t: Toks, pos: int)
    requires
        ends_with_eof(t),
        0 <= pos < t.len(),
    ensures
        stays_inside(t, p_primary(t, pos)),
    decreases t.len() - pos, 10int,
{
    if token_is(t, pos, TokenType::LParen) {
        lemma_grouping_inside(t, pos + 1);
    }
}

proof fn lemma_grouping_inside(t: Toks, pos: int)
    requires
        ends_with_eof(t),
        0 <= pos < t.len(),
    ensures
        stays_inside(t, p_grouping(t, pos)),
    decreases t.len() - pos, 22int,
{
    lemma_expr_inside(t, pos);
    if let Ok((e, p)) = p_expr(t, pos) {
        lemma_expect_inside(t, p, TokenType::RParen);
    }
}

// ----- statements -----

proof fn lemma_params_halt(t: Toks, pos: int, acc: Seq<SpecParam>)
    ensures
        halts(p_params(t, pos, acc)),
    decreases t.len() - pos,
{
    if token_is(t, pos, TokenType::Identifier) {
        if let Ok((_, p1)) = p_expect(t, pos + 1, TokenType::Colon) {
            if let Ok((ty, p2)) = p_type(t, p1) {
                let acc2 = acc.push(SpecParam { name: t[pos].lexeme, ty });
                if let Ok(Some(p3)) = crate::interpreter::parser::grammar::list_sep(t, p2) {
                    if pos < p3 <= t.len() {
                        lemma_params_halt(t, p3, acc2);
                    }
                }
            }
        }
    }
}

proof fn lemma_method_args_halt(t: Toks, pos: int, acc: Seq<SpecMethodArg>)
    ensures
        halts(p_method_args(t, pos, acc)),
    decreases t.len() - pos,
{
    if token_is(t, pos, TokenType::Identifier) {
        if let Ok((_, p1)) = p_expect(t, pos + 1, TokenType::Equals) {
            if let Ok((lex, p2)) = p_expect(t, p1, TokenType::IntLiteral) {
                if let Ok(n) = crate::interpreter::parser::grammar::to_usize(lex) {
                    let acc2 = acc.push(SpecMethodArg { name: t[pos].lexeme, value: n });
                    if let Ok(Some(p3)) = crate::interpreter::parser::grammar::list_sep(t, p2) {
                        if pos < p3 <= t.len() {
                            lemma_method_args_halt(t, p3, acc2);
                        }
                    }
                }
            }
        }
    }
}

proof fn lemma_registers_halt(t: Toks, pos: int, acc: Seq<SpecQubitDecl>)
    ensures
        halts(p_registers_rest(t, pos, acc)),
    decreases t.len() - pos,
{
    if token_is(t, pos, TokenType::Qubits) {
        if let Ok((d, p)) = crate::interpreter::parser::grammar::p_qubit_decl(t, pos) {
            if pos < p <= t.len() {
                lemma_registers_halt(t, p, acc.push(d));
            }
        }
    }
}

proof fn lemma_circuit_args_halt(t: Toks, pos: int, acc: Seq<SpecCircuitRef>)
    ensures
        halts(p_circuit_args(t, pos, acc)),
    decreases t.len() - pos,
{
    if token_is(t, pos, TokenType::Identifier) {
        if let Ok((a, p)) = crate::interpreter::parser::grammar::p_circuit_arg(t, pos) {
            if let Ok(Some(p2)) = crate::interpreter::parser::grammar::list_sep(t, p) {
                if pos < p2 <= t.len() {
                    lemma_circuit_args_halt(t, p2, acc.push(a));
                }
            }
        }
    }
}

proof fn lemma_instructions_halt(t: Toks, pos: int, acc: Seq<SpecCircuitInstr>)
    ensures
        halts(p_instructions_rest(t, pos, acc)),
    decreases t.len() - pos,
{
    if token_is(t, pos, TokenType::Identifier) {
        if let Ok((_, p0)) = p_expect(t, pos, TokenType::Identifier) {
            if let Ok((_, p1)) = p_expect(t, p0, TokenType::LParen) {
                lemma_circuit_args_halt(t, p1, Seq::empty());
            }
        }
        if let Ok((i, p)) = crate::interpreter::parser::grammar::p_instruction(t, pos) {
            if pos < p <= t.len() {
                lemma_instructions_halt(t, p, acc.push(i));
            }
        }
    }
}

proof fn lemma_assignment_halts(t: Toks, pos: int)
    requires
        ends_with_eof(t),
        0 <= pos,
    ensures
        halts(p_assignment(t, pos)),
{
    if token_is(t, pos + 2, TokenType::Equals) {
        lemma_expr_inside(t, pos + 3);
    }
}

proof fn lemma_function_halts(t: Toks, pos: int)
    requires
        ends_with_eof(t),
        0 <= pos,
    ensures
        halts(p_function(t, pos)),
{
    lemma_params_halt(t, pos + 3, Seq::empty());
    if let Ok((params, p3)) = p_params(t, pos + 3, Seq::empty()) {
        if let Ok((rt, p6)) = p_type(t, p3 + 2) {
            if token_is(t, p6, TokenType::LBrace) {
                lemma_expr_inside(t, p6 + 1);
            }
        }
    }
}

proof fn lemma_oracle_halts(t: Toks, pos: int)
    requires
        0 <= pos,
    ensures
        halts(p_oracle(t, pos)),
{
    lemma_params_halt(t, pos + 3, Seq::empty());
}

proof fn lemma_circuit_halts(t: Toks, pos: int)
    requires
        0 <= pos,
    ensures
        halts(p_circuit(t, pos)),
{
    lemma_registers_halt(t, pos + 5, Seq::empty());
    if let Ok((regs, p2)) = p_registers_rest(t, pos + 5, Seq::empty()) {
        lemma_instructions_halt(t, p2 + 2, Seq::empty());
    }
}

proof fn lemma_method_call_halts(t: Toks, pos: int)
    requires
        0 <= pos,
    ensures
        halts(p_method_call(t, pos)),
{
    lemma_method_args_halt(t, pos + 4, Seq::empty());
}

proof fn lemma_statement_halts(t: Toks, pos: int)
    requires
        ends_with_eof(t),
        0 <= pos < t.len(),
    ensures
        halts(p_statement(t, pos)),
{
    let tt = t[pos].token_type;
    if tt == TokenType::Bits {
        lemma_assignment_halts(t, pos);
    } else if tt == TokenType::Function {
        lemma_function_halts(t, pos);
    } else if tt == TokenType::Oracle {
        lemma_oracle_halts(t, pos);
    } else if tt == TokenType::Circuit {
        lemma_circuit_halts(t, pos);
    } else if tt == TokenType::Identifier && token_is(t, pos + 1, TokenType::Period) {
        lemma_method_call_halts(t, pos);
    } else {
        lemma_expr_inside(t, pos);
    }
}

/// Tokens that end with the end-of-file token are parsed without reaching
/// past the last token.
pub proof fn lemma_program_halts(t: Toks, pos: int, acc: Seq<SpecStatement>)
    requires
        ends_with_eof(t),
        0 <= pos,
    ensures
        halts(p_program(t, pos, acc)),
    decreases t.len() - pos,
{
    if !(pos >= t.len() || t[pos].token_type == TokenType::EOF) {
        lemma_statement_halts(t, pos);
        if let Ok((s, p)) = p_statement(t, pos) {
            if pos < p <= t.len() {
                lemma_program_halts(t, p, acc.push(s));
            }
        }
    }
}

} // verus!
