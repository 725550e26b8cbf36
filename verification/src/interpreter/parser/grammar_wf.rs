use vstd::prelude::*;
use crate::interpreter::evaluator::environment::{expr_wf, exprs_wf};
use crate::interpreter::lexer::token::TokenType;
use crate::interpreter::literals::bits_literal_sliceable;
use crate::interpreter::parser::ast_types::{SpecExpr, SpecStatement};
use crate::interpreter::parser::grammar::{
    Toks, p_and, p_and_rest, p_assignment, p_call_args, p_call_args_rest, p_dot, p_dot_rest, p_expr,
    p_function, p_grouping, p_or, p_or_rest, p_postfix, p_postfix_rest, p_primary, p_program,
    p_statement, p_xor, p_xor_rest, token_is,
};
use crate::interpreter::type_checker::{program_wf, stmt_wf};

verus! {

// Every bits literal that the parser puts in a tree comes from a token, so
// where the tokens' bits literals can be read, so can the tree's.

/// Every bits-literal token can be sliced after its `0b` prefix.
pub open spec fn bits_tokens_ok(t: Toks) -> bool {
    forall|i: int| 0 <= i < t.len() && #[trigger] t[i].token_type == TokenType::BitsLiteral
        ==> bits_literal_sliceable(t[i].lexeme)
}

pub proof fn lemma_expr_wf(t: Toks, pos: int)
    requires
        bits_tokens_ok(t),
    ensures
        p_expr(t, pos) matches Ok((e, _)) ==> expr_wf(e),
    decreases t.len() - pos, 20int,
{
    lemma_dot_wf(t, pos);
}

pub proof fn lemma_dot_wf(t: Toks, pos: int)
    requires
        bits_tokens_ok(t),
    ensures
        p_dot(t, pos) matches Ok((e, _)) ==> expr_wf(e),
    decreases t.len() - pos, 19int,
{
    lemma_or_wf(t, pos);
    if let Ok((l, p)) = p_or(t, pos) {
        if pos <= p <= t.len() {
            lemma_dot_rest_wf(t, p, l);
        }
    }
}

pub proof fn lemma_dot_rest_wf(t: Toks, pos: int, left: SpecExpr)
    requires
        bits_tokens_ok(t),
        expr_wf(left),
    ensures
        p_dot_rest(t, pos, left) matches Ok((e, _)) ==> expr_wf(e),
    decreases t.len() - pos, 17int,
{
    if token_is(t, pos, TokenType::Star) {
        lemma_or_wf(t, pos + 1);
        if let Ok((r, p)) = p_or(t, pos + 1) {
            if pos < p <= t.len() {
                lemma_dot_rest_wf(t, p, SpecExpr::Binary {
                    op: crate::interpreter::parser::ast_types::BinOp::DotProduct,
                    left: Box::new(left),
                    right: Box::new(r),
                });
            }
        }
    }
}

pub proof fn lemma_or_wf(t: Toks, pos: int)
    requires
        bits_tokens_ok(t),
    ensures
        p_or(t, pos) matches Ok((e, _)) ==> expr_wf(e),
    decreases t.len() - pos, 18int,
{
    lemma_xor_wf(t, pos);
    if let Ok((l, p)) = p_xor(t, pos) {
        if pos <= p <= t.len() {
            lemma_or_rest_wf(t, p, l);
        }
    }
}

pub proof fn lemma_or_rest_wf(t: Toks, pos: int, left: SpecExpr)
    requires
        bits_tokens_ok(t),
        expr_wf(left),
    ensures
        p_or_rest(t, pos, left) matches Ok((e, _)) ==> expr_wf(e),
    decreases t.len() - pos, 15int,
{
    if token_is(t, pos, TokenType::Pipe) {
        lemma_xor_wf(t, pos + 1);
        if let Ok((r, p)) = p_xor(t, pos + 1) {
            if pos < p <= t.len() {
                lemma_or_rest_wf(t, p, SpecExpr::Binary {
                    op: crate::interpreter::parser::ast_types::BinOp::Or,
                    left: Box::new(left),
                    right: Box::new(r),
                });
            }
        }
    }
}

pub proof fn lemma_xor_wf(t: Toks, pos: int)
    requires
        bits_tokens_ok(t),
    ensures
        p_xor(t, pos) matches Ok((e, _)) ==> expr_wf(e),
    decreases t.len() - pos, 16int,
{
    lemma_and_wf(t, pos);
    if let Ok((l, p)) = p_and(t, pos) {
        if pos <= p <= t.len() {
            lemma_xor_rest_wf(t, p, l);
        }
    }
}

pub proof fn lemma_xor_rest_wf(t: Toks, pos: int, left: SpecExpr)
    requires
        bits_tokens_ok(t),
        expr_wf(left),
    ensures
        p_xor_rest(t, pos, left) matches Ok((e, _)) ==> expr_wf(e),
    decreases t.len() - pos, 13int,
{
    if token_is(t, pos, TokenType::Caret) {
        lemma_and_wf(t, pos + 1);
        if let Ok((r, p)) = p_and(t, pos + 1) {
            if pos < p <= t.len() {
                lemma_xor_rest_wf(t, p, SpecExpr::Binary {
                    op: crate::interpreter::parser::ast_types::BinOp::Xor,
                    left: Box::new(left),
                    right: Box::new(r),
                });
            }
        }
    }
}

pub proof fn lemma_and_wf(t: Toks, pos: int)
    requires
        bits_tokens_ok(t),
    ensures
        p_and(t, pos) matches Ok((e, _)) ==> expr_wf(e),
    decreases t.len() - pos, 14int,
{
    lemma_postfix_wf(t, pos);
    if let Ok((l, p)) = p_postfix(t, pos) {
        if pos <= p <= t.len() {
            lemma_and_rest_wf(t, p, l);
        }
    }
}

pub proof fn lemma_and_rest_wf(t: Toks, pos: int, left: SpecExpr)
    requires
        bits_tokens_ok(t),
        expr_wf(left),
    ensures
        p_and_rest(t, pos, left) matches Ok((e, _)) ==> expr_wf(e),
    decreases t.len() - pos, 11int,
{
    if token_is(t, pos, TokenType::Ampersand) {
        lemma_postfix_wf(t, pos + 1);
        if let Ok((r, p)) = p_postfix(t, pos + 1) {
            if pos < p <= t.len() {
                lemma_and_rest_wf(t, p, SpecExpr::Binary {
                    op: crate::interpreter::parser::ast_types::BinOp::And,
                    left: Box::new(left),
                    right: Box::new(r),
                });
            }
        }
    }
}

pub proof fn lemma_postfix_wf(t: Toks, pos: int)
    requires
        bits_tokens_ok(t),
    ensures
        p_postfix(t, pos) matches Ok((e, _)) ==> expr_wf(e),
    decreases t.len() - pos, 12int,
{
    lemma_primary_wf(t, pos);
    if let Ok((l, p)) = p_primary(t, pos) {
        if pos <= p <= t.len() {
            lemma_postfix_rest_wf(t, p, l);
        }
    }
}

pub proof fn lemma_postfix_rest_wf(t: Toks, pos: int, callee: SpecExpr)
    requires
        bits_tokens_ok(t),
        expr_wf(callee),
    ensures
        p_postfix_rest(t, pos, callee) matches Ok((e, _)) ==> expr_wf(e),
    decreases t.len() - pos, 9int,
{
    if token_is(t, pos, TokenType::LParen) {
        lemma_call_args_wf(t, pos + 1);
        if let Ok((args, p)) = p_call_args(t, pos + 1) {
            if let Ok((_, p2)) = crate::interpreter::parser::grammar::p_expect(t, p, TokenType::RParen) {
                if pos < p2 <= t.len() {
                    lemma_postfix_rest_wf(t, p2, SpecExpr::Call { callee: Box::new(callee), args });
                }
            }
        }
    }
}

pub proof fn lemma_call_args_wf(t: Toks, pos: int)
    requires
        bits_tokens_ok(t),
    ensures
        p_call_args(t, pos) matches Ok((a, _)) ==> exprs_wf(a),
    decreases t.len() - pos, 21int,
{
    if !token_is(t, pos, TokenType::RParen) {
        lemma_expr_wf(t, pos);
        if let Ok((a, p)) = p_expr(t, pos) {
            if pos <= p <= t.len() {
                assert(seq![a].drop_last() =~= Seq::<SpecExpr>::empty());
                assert(exprs_wf(Seq::<SpecExpr>::empty()));
                assert(seq![a].last() == a);
                assert(expr_wf(a));
                assert(exprs_wf(seq![a]));
                lemma_call_args_rest_wf(t, p, seq![a]);
            }
        }
    }
}

pub proof fn lemma_call_args_rest_wf(t: Toks, pos: int, acc: Seq<SpecExpr>)
    requires
        bits_tokens_ok(t),
        exprs_wf(acc),
    ensures
        p_call_args_rest(t, pos, acc) matches Ok((a, _)) ==> exprs_wf(a),
    decreases t.len() - pos, 7int,
{
    if token_is(t, pos, TokenType::Comma) {
        lemma_expr_wf(t, pos + 1);
        if let Ok((a, p)) = p_expr(t, pos + 1) {
            if pos < p <= t.len() {
                assert(acc.push(a).drop_last() =~= acc);
                lemma_call_args_rest_wf(t, p, acc.push(a));
            }
        }
    }
}

pub proof fn lemma_primary_wf(t: Toks, pos: int)
    requires
        bits_tokens_ok(t),
    ensures
        p_primary(t, pos) matches Ok((e, _)) ==> expr_wf(e),
    decreases t.len() - pos, 10int,
{
    if token_is(t, pos, TokenType::LParen) {
        lemma_grouping_wf(t, pos + 1);
    }
}

pub proof fn lemma_grouping_wf(t: Toks, pos: int)
    requires
        bits_tokens_ok(t),
    ensures
        p_grouping(t, pos) matches Ok((e, _)) ==> expr_wf(e),
    decreases t.len() - pos, 22int,
{
    lemma_expr_wf(t, pos);
}

/// The statements parsed from tokens whose bits literals can be read have
/// readable bits literals.
pub proof fn lemma_program_wf(t: Toks, pos: int, acc: Seq<SpecStatement>)
    requires
        bits_tokens_ok(t),
        program_wf(acc),
    ensures
        p_program(t, pos, acc) matches Ok(s) ==> program_wf(s),
    decreases t.len() - pos,
{
    if !(pos < 0 || pos >= t.len() || t[pos].token_type == TokenType::EOF) {
        if let Ok((s, p)) = p_statement(t, pos) {
            if pos < p <= t.len() {
                lemma_statement_wf(t, pos);
                let acc2 = acc.push(s);
                assert forall|i: int| 0 <= i < acc2.len() implies #[trigger] stmt_wf(acc2[i]) by {
                    if i < acc.len() {
                        assert(acc2[i] == acc[i]);
                    }
                }
                lemma_program_wf(t, p, acc2);
            }
        }
    }
}

proof fn lemma_statement_wf(t: Toks, pos: int)
    requires
        bits_tokens_ok(t),
    ensures
        p_statement(t, pos) matches Ok((s, _)) ==> stmt_wf(s),
{
    if 0 <= pos < t.len() {
        lemma_expr_wf(t, pos);
        lemma_expr_wf(t, pos + 3);
        if let Ok((f, _)) = p_function(t, pos) {
            lemma_function_body_wf(t, pos);
        }
        if let Ok((a, _)) = p_assignment(t, pos) {
            lemma_expr_wf(t, pos + 3);
        }
    }
}

proof fn lemma_function_body_wf(t: Toks, pos: int)
    requires
        bits_tokens_ok(t),
    ensures
        p_function(t, pos) matches Ok((f, _)) ==> expr_wf(f.body),
{
    if let Ok((f, _)) = p_function(t, pos) {
        let p2 = pos + 3;
        if let Ok((params, p3)) = crate::interpreter::parser::grammar::p_params(t, p2, Seq::empty()) {
            if let Ok((rt, p6)) = crate::interpreter::parser::grammar::p_type(t, p3 + 2) {
                lemma_expr_wf(t, p6 + 1);
            }
        }
    }
}

} // verus!
