use vstd::prelude::*;
use crate::interpreter::lexer::token::TokenType;
use crate::interpreter::parser::ast_types::{
    BinOp, SpecCircuitInstr, SpecCircuitRef, SpecExpr, SpecMethodArg, SpecParam,
    SpecQubitDecl, SpecStatement,
};
use crate::interpreter::parser::grammar::{
    PResult, Toks, list_sep, p_and, p_and_rest, p_assignment, p_call_args, p_call_args_rest,
    p_circuit, p_circuit_arg, p_circuit_args, p_dot, p_dot_rest, p_expect, p_expr,
    p_function, p_grouping, p_instruction, p_instructions, p_instructions_rest, p_method_args,
    p_method_call, p_or, p_or_rest, p_oracle, p_params, p_postfix, p_postfix_rest, p_primary,
    p_program, p_qubit_decl, p_registers, p_registers_rest, p_statement, p_type, p_xor,
    p_xor_rest, parse_tokens, token_is,
};

verus! {

// No rule consumes an end-of-file token, so a rule started at or before
// one stops there: what follows it is never read.

/// The token at `k` is an end-of-file token.
pub open spec fn eof_at(t: Toks, k: int) -> bool {
    0 <= k < t.len() && t[k].token_type == TokenType::EOF
}

/// Two outcomes are equal, and a success stops at or before `k`.
pub open spec fn agrees<T>(k: int, r1: PResult<T>, r2: PResult<T>) -> bool {
    r1 == r2 && (r1 matches Ok((_, p)) ==> p <= k)
}

proof fn lemma_expect_frame(t: Toks, k: int, pos: int, tt: TokenType)
    requires
        eof_at(t, k),
        pos <= k,
        tt != TokenType::EOF,
    ensures
        agrees(k, p_expect(t, pos, tt), p_expect(t.take(k + 1), pos, tt)),
{
}

// ----- expressions -----

proof fn lemma_expr_frame(t: Toks, k: int, pos: int)
    requires
        eof_at(t, k),
        0 <= pos <= k,
    ensures
        agrees(k, p_expr(t, pos), p_expr(t.take(k + 1), pos)),
    decreases k - pos, 20int,
{
    lemma_dot_frame(t, k, pos);
}

proof fn lemma_dot_frame(t: Toks, k: int, pos: int)
    requires
        eof_at(t, k),
        0 <= pos <= k,
    ensures
        agrees(k, p_dot(t, pos), p_dot(t.take(k + 1), pos)),
    decreases k - pos, 19int,
{
    lemma_or_frame(t, k, pos);
    if let Ok((l, p)) = p_or(t, pos) {
        if pos <= p {
            lemma_dot_rest_frame(t, k, p, l);
        }
    }
}

proof fn lemma_dot_rest_frame(t: Toks, k: int, pos: int, left: SpecExpr)
    requires
        eof_at(t, k),
        0 <= pos <= k,
    ensures
        agrees(k, p_dot_rest(t, pos, left), p_dot_rest(t.take(k + 1), pos, left)),
    decreases k - pos, 17int,
{
    if token_is(t, pos, TokenType::Star) {
        lemma_or_frame(t, k, pos + 1);
        if let Ok((r, p)) = p_or(t, pos + 1) {
            if pos < p {
                lemma_dot_rest_frame(t, k, p, SpecExpr::Binary {
                    op: BinOp::DotProduct,
                    left: Box::new(left),
                    right: Box::new(r),
                });
            }
        }
    }
}

proof fn lemma_or_frame(t: Toks, k: int, pos: int)
    requires
        eof_at(t, k),
        0 <= pos <= k,
    ensures
        agrees(k, p_or(t, pos), p_or(t.take(k + 1), pos)),
    decreases k - pos, 18int,
{
    lemma_xor_frame(t, k, pos);
    if let Ok((l, p)) = p_xor(t, pos) {
        if pos <= p {
            lemma_or_rest_frame(t, k, p, l);
        }
    }
}

proof fn lemma_or_rest_frame(t: Toks, k: int, pos: int, left: SpecExpr)
    requires
        eof_at(t, k),
        0 <= pos <= k,
    ensures
        agrees(k, p_or_rest(t, pos, left), p_or_rest(t.take(k + 1), pos, left)),
    decreases k - pos, 15int,
{
    if token_is(t, pos, TokenType::Pipe) {
        lemma_xor_frame(t, k, pos + 1);
        if let Ok((r, p)) = p_xor(t, pos + 1) {
            if pos < p {
                lemma_or_rest_frame(t, k, p, SpecExpr::Binary {
                    op: BinOp::Or,
                    left: Box::new(left),
                    right: Box::new(r),
                });
            }
        }
    }
}

proof fn lemma_xor_frame(t: Toks, k: int, pos: int)
    requires
        eof_at(t, k),
        0 <= pos <= k,
    ensures
        agrees(k, p_xor(t, pos), p_xor(t.take(k + 1), pos)),
    decreases k - pos, 16int,
{
    lemma_and_frame(t, k, pos);
    if let Ok((l, p)) = p_and(t, pos) {
        if pos <= p {
            lemma_xor_rest_frame(t, k, p, l);
        }
    }
}

proof fn lemma_xor_rest_frame(t: Toks, k: int, pos: int, left: SpecExpr)
    requires
        eof_at(t, k),
        0 <= pos <= k,
    ensures
        agrees(k, p_xor_rest(t, pos, left), p_xor_rest(t.take(k + 1), pos, left)),
    decreases k - pos, 13int,
{
    if token_is(t, pos, TokenType::Caret) {
        lemma_and_frame(t, k, pos + 1);
        if let Ok((r, p)) = p_and(t, pos + 1) {
            if pos < p {
                lemma_xor_rest_frame(t, k, p, SpecExpr::Binary {
                    op: BinOp::Xor,
                    left: Box::new(left),
                    right: Box::new(r),
                });
            }
        }
    }
}

proof fn lemma_and_frame(t: Toks, k: int, pos: int)
    requires
        eof_at(t, k),
        0 <= pos <= k,
    ensures
        agrees(k, p_and(t, pos), p_and(t.take(k + 1), pos)),
    decreases k - pos, 14int,
{
    lemma_postfix_frame(t, k, pos);
    if let Ok((l, p)) = p_postfix(t, pos) {
        if pos <= p {
            lemma_and_rest_frame(t, k, p, l);
        }
    }
}

proof fn lemma_and_rest_frame(t: Toks, k: int, pos: int, left: SpecExpr)
    requires
        eof_at(t, k),
        0 <= pos <= k,
    ensures
        agrees(k, p_and_rest(t, pos, left), p_and_rest(t.take(k + 1), pos, left)),
    decreases k - pos, 11int,
{
    if token_is(t, pos, TokenType::Ampersand) {
        lemma_postfix_frame(t, k, pos + 1);
        if let Ok((r, p)) = p_postfix(t, pos + 1) {
            if pos < p {
                lemma_and_rest_frame(t, k, p, SpecExpr::Binary {
                    op: BinOp::And,
                    left: Box::new(left),
                    right: Box::new(r),
                });
            }
        }
    }
}

proof fn lemma_postfix_frame(t: Toks, k: int, pos: int)
    requires
        eof_at(t, k),
        0 <= pos <= k,
    ensures
        agrees(k, p_postfix(t, pos), p_postfix(t.take(k + 1), pos)),
    decreases k - pos, 12int,
{
    lemma_primary_frame(t, k, pos);
    if let Ok((l, p)) = p_primary(t, pos) {
        if pos <= p {
            lemma_postfix_rest_frame(t, k, p, l);
        }
    }
}

proof fn lemma_postfix_rest_frame(t: Toks, k: int, pos: int, callee: SpecExpr)
    requires
        eof_at(t, k),
        0 <= pos <= k,
    ensures
        agrees(k, p_postfix_rest(t, pos, callee), p_postfix_rest(t.take(k + 1), pos, callee)),
    decreases k - pos, 9int,
{
    if token_is(t, pos, TokenType::LParen) {
        lemma_call_args_frame(t, k, pos + 1);
        if let Ok((args, p)) = p_call_args(t, pos + 1) {
            lemma_expect_frame(t, k, p, TokenType::RParen);
            if let Ok((_, p2)) = p_expect(t, p, TokenType::RParen) {
                if pos < p2 {
                    lemma_postfix_rest_frame(t, k, p2, SpecExpr::Call { callee: Box::new(callee), args });
                }
            }
        }
    }
}

proof fn lemma_call_args_frame(t: Toks, k: int, pos: int)
    requires
        eof_at(t, k),
        0 <= pos <= k,
    ensures
        agrees(k, p_call_args(t, pos), p_call_args(t.take(k + 1), pos)),
    decreases k - pos, 21int,
{
    if !token_is(t, pos, TokenType::RParen) {
        lemma_expr_frame(t, k, pos);
        if let Ok((a, p)) = p_expr(t, pos) {
            if pos <= p {
                lemma_call_args_rest_frame(t, k, p, seq![a]);
            }
        }
    }
}

proof fn lemma_call_args_rest_frame(t: Toks, k: int, pos: int, acc: Seq<SpecExpr>)
    requires
        eof_at(t, k),
        0 <= pos <= k,
    ensures
        agrees(k, p_call_args_rest(t, pos, acc), p_call_args_rest(t.take(k + 1), pos, acc)),
    decreases k - pos, 7int,
{
    if token_is(t, pos, TokenType::Comma) {
        lemma_expr_frame(t, k, pos + 1);
        if let Ok((a, p)) = p_expr(t, pos + 1) {
            if pos < p {
                lemma_call_args_rest_frame(t, k, p, acc.push(a));
            }
        }
    }
}

proof fn lemma_primary_frame(t: Toks, k: int, pos: int)
    requires
        eof_at(t, k),
        0 <= pos <= k,
    ensures
        agrees(k, p_primary(t, pos), p_primary(t.take(k + 1), pos)),
    decreases k - pos, 10int,
{
    if token_is(t, pos, TokenType::LParen) {
        lemma_grouping_frame(t, k, pos + 1);
    }
}

proof fn lemma_grouping_frame(t: Toks, k: int, pos: int)
    requires
        eof_at(t, k),
        0 <= pos <= k,
    ensures
        agrees(k, p_grouping(t, pos), p_grouping(t.take(k + 1), pos)),
    decreases k - pos, 22int,
{
    lemma_expr_frame(t, k, pos);
    if let Ok((e, p)) = p_expr(t, pos) {
        lemma_expect_frame(t, k, p, TokenType::RParen);
    }
}

// ----- types, lists and statements -----

proof fn lemma_type_frame(t: Toks, k: int, pos: int)
    requires
        eof_at(t, k),
        0 <= pos <= k,
    ensures
        agrees(k, p_type(t, pos), p_type(t.take(k + 1), pos)),
{
}

proof fn lemma_list_sep_frame(t: Toks, k: int, pos: int)
    requires
        eof_at(t, k),
        0 <= pos <= k,
    ensures
        list_sep(t, pos) == list_sep(t.take(k + 1), pos),
        list_sep(t, pos) matches Ok(Some(p)) ==> p <= k,
{
}

proof fn lemma_params_frame(t: Toks, k: int, pos: int, acc: Seq<SpecParam>)
    requires
        eof_at(t, k),
        0 <= pos <= k,
    ensures
        agrees(k, p_params(t, pos, acc), p_params(t.take(k + 1), pos, acc)),
    decreases k - pos,
{
    if token_is(t, pos, TokenType::Identifier) {
        if let Ok((_, p1)) = p_expect(t, pos + 1, TokenType::Colon) {
            lemma_type_frame(t, k, p1);
            if let Ok((ty, p2)) = p_type(t, p1) {
                lemma_list_sep_frame(t, k, p2);
                let acc2 = acc.push(SpecParam { name: t[pos].lexeme, ty });
                if let Ok(Some(p3)) = list_sep(t, p2) {
                    if pos < p3 {
                        lemma_params_frame(t, k, p3, acc2);
                    }
                }
            }
        }
    }
}

#[verifier::rlimit(60)]
proof fn lemma_function_frame(t: Toks, k: int, pos: int)
    requires
        eof_at(t, k),
        0 <= pos <= k,
    ensures
        agrees(k, p_function(t, pos), p_function(t.take(k + 1), pos)),
{
    if token_is(t, pos, TokenType::Function) && token_is(t, pos + 1, TokenType::Identifier)
        && token_is(t, pos + 2, TokenType::LParen) {
        lemma_params_frame(t, k, pos + 3, Seq::empty());
        if let Ok((params, p3)) = p_params(t, pos + 3, Seq::empty()) {
            if token_is(t, p3, TokenType::RParen) && token_is(t, p3 + 1, TokenType::Arrow) {
                lemma_type_frame(t, k, p3 + 2);
                if let Ok((rt, p6)) = p_type(t, p3 + 2) {
                    if token_is(t, p6, TokenType::LBrace) {
                        lemma_expr_frame(t, k, p6 + 1);
                        if let Ok((body, p8)) = p_expr(t, p6 + 1) {
                            lemma_expect_frame(t, k, p8, TokenType::RBrace);
                        }
                    }
                }
            }
        }
    }
}

proof fn lemma_oracle_frame(t: Toks, k: int, pos: int)
    requires
        eof_at(t, k),
        0 <= pos <= k,
    ensures
        agrees(k, p_oracle(t, pos), p_oracle(t.take(k + 1), pos)),
{
    if token_is(t, pos, TokenType::Oracle) && token_is(t, pos + 1, TokenType::Identifier)
        && token_is(t, pos + 2, TokenType::LParen) {
        lemma_params_frame(t, k, pos + 3, Seq::empty());
    }
}

proof fn lemma_registers_rest_frame(t: Toks, k: int, pos: int, acc: Seq<SpecQubitDecl>)
    requires
        eof_at(t, k),
        0 <= pos <= k,
    ensures
        agrees(k, p_registers_rest(t, pos, acc), p_registers_rest(t.take(k + 1), pos, acc)),
    decreases k - pos,
{
    if token_is(t, pos, TokenType::Qubits) {
        assert(agrees(k, p_qubit_decl(t, pos), p_qubit_decl(t.take(k + 1), pos)));
        if let Ok((d, p)) = p_qubit_decl(t, pos) {
            if pos < p {
                lemma_registers_rest_frame(t, k, p, acc.push(d));
            }
        }
    }
}

proof fn lemma_circuit_arg_frame(t: Toks, k: int, pos: int)
    requires
        eof_at(t, k),
        0 <= pos <= k,
    ensures
        agrees(k, p_circuit_arg(t, pos), p_circuit_arg(t.take(k + 1), pos)),
{
}

proof fn lemma_circuit_args_frame(t: Toks, k: int, pos: int, acc: Seq<SpecCircuitRef>)
    requires
        eof_at(t, k),
        0 <= pos <= k,
    ensures
        agrees(k, p_circuit_args(t, pos, acc), p_circuit_args(t.take(k + 1), pos, acc)),
    decreases k - pos,
{
    if token_is(t, pos, TokenType::Identifier) {
        lemma_circuit_arg_frame(t, k, pos);
        if let Ok((a, p)) = p_circuit_arg(t, pos) {
            lemma_list_sep_frame(t, k, p);
            if let Ok(Some(p2)) = list_sep(t, p) {
                if pos < p2 {
                    lemma_circuit_args_frame(t, k, p2, acc.push(a));
                }
            }
        }
    }
}

proof fn lemma_instruction_frame(t: Toks, k: int, pos: int)
    requires
        eof_at(t, k),
        0 <= pos <= k,
    ensures
        agrees(k, p_instruction(t, pos), p_instruction(t.take(k + 1), pos)),
{
    if token_is(t, pos, TokenType::Identifier) && token_is(t, pos + 1, TokenType::LParen) {
        lemma_circuit_args_frame(t, k, pos + 2, Seq::empty());
        if let Ok((args, p2)) = p_circuit_args(t, pos + 2, Seq::empty()) {
            lemma_expect_frame(t, k, p2, TokenType::RParen);
            if token_is(t, p2, TokenType::RParen) {
                lemma_expect_frame(t, k, p2 + 1, TokenType::Semicolon);
            }
        }
    }
}

proof fn lemma_instructions_rest_frame(t: Toks, k: int, pos: int, acc: Seq<SpecCircuitInstr>)
    requires
        eof_at(t, k),
        0 <= pos <= k,
    ensures
        agrees(k, p_instructions_rest(t, pos, acc), p_instructions_rest(t.take(k + 1), pos, acc)),
    decreases k - pos,
{
    if token_is(t, pos, TokenType::Identifier) {
        lemma_instruction_frame(t, k, pos);
        if let Ok((i, p)) = p_instruction(t, pos) {
            if pos < p {
                lemma_instructions_rest_frame(t, k, p, acc.push(i));
            }
        }
    }
}

proof fn lemma_circuit_frame(t: Toks, k: int, pos: int)
    requires
        eof_at(t, k),
        0 <= pos <= k,
    ensures
        agrees(k, p_circuit(t, pos), p_circuit(t.take(k + 1), pos)),
{
    if token_is(t, pos, TokenType::Circuit) && token_is(t, pos + 1, TokenType::Identifier)
        && token_is(t, pos + 2, TokenType::LBrace) && token_is(t, pos + 3, TokenType::Register)
        && token_is(t, pos + 4, TokenType::Colon) {
        lemma_registers_rest_frame(t, k, pos + 5, Seq::empty());
        assert(agrees(k, p_registers(t, pos + 3), p_registers(t.take(k + 1), pos + 3)));
        if let Ok((regs, p3)) = p_registers(t, pos + 3) {
            if token_is(t, p3, TokenType::Apply) && token_is(t, p3 + 1, TokenType::Colon) {
                lemma_instructions_rest_frame(t, k, p3 + 2, Seq::empty());
            }
            assert(agrees(k, p_instructions(t, p3), p_instructions(t.take(k + 1), p3)));
            if let Ok((ins, p4)) = p_instructions(t, p3) {
                lemma_expect_frame(t, k, p4, TokenType::RBrace);
            }
        }
    }
}

proof fn lemma_assignment_frame(t: Toks, k: int, pos: int)
    requires
        eof_at(t, k),
        0 <= pos <= k,
    ensures
        agrees(k, p_assignment(t, pos), p_assignment(t.take(k + 1), pos)),
{
    if token_is(t, pos, TokenType::Bits) && token_is(t, pos + 1, TokenType::Identifier)
        && token_is(t, pos + 2, TokenType::Equals) {
        lemma_expr_frame(t, k, pos + 3);
        if let Ok((v, p3)) = p_expr(t, pos + 3) {
            lemma_expect_frame(t, k, p3, TokenType::Semicolon);
        }
    }
}

proof fn lemma_method_args_frame(t: Toks, k: int, pos: int, acc: Seq<SpecMethodArg>)
    requires
        eof_at(t, k),
        0 <= pos <= k,
    ensures
        agrees(k, p_method_args(t, pos, acc), p_method_args(t.take(k + 1), pos, acc)),
    decreases k - pos,
{
    if token_is(t, pos, TokenType::Identifier) {
        if let Ok((_, p1)) = p_expect(t, pos + 1, TokenType::Equals) {
            if let Ok((lex, p2)) = p_expect(t, p1, TokenType::IntLiteral) {
                if let Ok(n) = crate::interpreter::parser::grammar::to_usize(lex) {
                    lemma_list_sep_frame(t, k, p2);
                    let acc2 = acc.push(SpecMethodArg { name: t[pos].lexeme, value: n });
                    if let Ok(Some(p3)) = list_sep(t, p2) {
                        if pos < p3 {
                            lemma_method_args_frame(t, k, p3, acc2);
                        }
                    }
                }
            }
        }
    }
}

proof fn lemma_method_call_frame(t: Toks, k: int, pos: int)
    requires
        eof_at(t, k),
        0 <= pos <= k,
    ensures
        agrees(k, p_method_call(t, pos), p_method_call(t.take(k + 1), pos)),
{
    if token_is(t, pos, TokenType::Identifier) && token_is(t, pos + 1, TokenType::Period)
        && token_is(t, pos + 2, TokenType::Identifier) && token_is(t, pos + 3, TokenType::LParen) {
        lemma_method_args_frame(t, k, pos + 4, Seq::empty());
        if let Ok((args, p4)) = p_method_args(t, pos + 4, Seq::empty()) {
            lemma_expect_frame(t, k, p4, TokenType::RParen);
            if token_is(t, p4, TokenType::RParen) {
                lemma_expect_frame(t, k, p4 + 1, TokenType::Semicolon);
            }
        }
    }
}

proof fn lemma_statement_frame(t: Toks, k: int, pos: int)
    requires
        eof_at(t, k),
        0 <= pos <= k,
    ensures
        agrees(k, p_statement(t, pos), p_statement(t.take(k + 1), pos)),
{
    let tt = t[pos].token_type;
    if tt == TokenType::Bits {
        lemma_assignment_frame(t, k, pos);
    } else if tt == TokenType::Function {
        lemma_function_frame(t, k, pos);
    } else if tt == TokenType::Oracle {
        lemma_oracle_frame(t, k, pos);
    } else if tt == TokenType::Circuit {
        lemma_circuit_frame(t, k, pos);
    } else if tt == TokenType::Identifier && token_is(t, pos + 1, TokenType::Period) {
        lemma_method_call_frame(t, k, pos);
    } else {
        lemma_expr_frame(t, k, pos);
    }
}

proof fn lemma_program_frame(t: Toks, k: int, pos: int, acc: Seq<SpecStatement>)
    requires
        eof_at(t, k),
        0 <= pos <= k,
    ensures
        p_program(t, pos, acc) == p_program(t.take(k + 1), pos, acc),
    decreases k - pos,
{
    if t[pos].token_type != TokenType::EOF {
        lemma_statement_frame(t, k, pos);
        if let Ok((s, p)) = p_statement(t, pos) {
            if pos < p {
                lemma_program_frame(t, k, p, acc.push(s));
            }
        }
    }
}

/// Parsing reads nothing after an end-of-file token: tokens that end with
/// one parse as they do with any tokens after it.
pub proof fn lemma_parse_ignores_after_eof(prefix: Toks, rest: Toks)
    requires
        prefix.len() > 0,
        prefix.last().token_type == TokenType::EOF,
    ensures
        parse_tokens(prefix + rest) == parse_tokens(prefix),
{
    let t = prefix + rest;
    let k = prefix.len() - 1;
    assert(t.take(k + 1) =~= prefix);
    lemma_program_frame(t, k, 0, Seq::empty());
}

} // verus!
