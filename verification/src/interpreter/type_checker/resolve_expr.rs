use vstd::prelude::*;
use crate::interpreter::bindings::{env_lookup, pairs_view, position_of};
use crate::interpreter::evaluator::environment::{expr_wf, exprs_wf, lemma_exprs_wf};
use crate::interpreter::literals::{bits_digits, bits_digits_exec, parse_unsigned, parse_unsigned_exec};
use crate::interpreter::parser::ast_types::{BinOp, Expr, SpecExpr, exprs_view, lemma_exprs_view};
use crate::interpreter::type_checker::TypeChecker;
use crate::interpreter::type_checker::lang_types::{
    FunctionType, LanguageType, SpecLanguageType, copy_type, type_label,
};
use crate::interpreter::type_checker::type_error::{SpecTypeError, TypeError};
use crate::text::chars_of;

verus! {

pub open spec fn binary_operands_error(l: SpecLanguageType, r: SpecLanguageType) -> SpecTypeError {
    SpecTypeError::Expected("bits, bits"@, "("@ + type_label(l) + ", "@ + type_label(r) + ")"@)
}

/// The type of `e` where names have the types given by `env`.
pub open spec fn type_of(e: SpecExpr, env: Seq<(Seq<char>, SpecLanguageType)>) -> Result<SpecLanguageType, SpecTypeError>
    decreases e,
{
    match e {
        SpecExpr::BitsLiteral(b) => {
            let d = bits_digits(b);
            match parse_unsigned(d, 2) {
                Ok(_) => Ok(SpecLanguageType::Bits(d.len() as usize)),
                Err(_) => Err(SpecTypeError::FailedBitsParse(b)),
            }
        },
        SpecExpr::Identifier(n) => match env_lookup(env, n) {
            Some(t) => Ok(t),
            None => Err(SpecTypeError::UnresolvedIdentifier(n)),
        },
        SpecExpr::Binary { op, left, right } => match type_of(*left, env) {
            Err(x) => Err(x),
            Ok(l) => match type_of(*right, env) {
                Err(x) => Err(x),
                Ok(r) => match (l, r) {
                    (SpecLanguageType::Bits(x), SpecLanguageType::Bits(y)) => if x != y {
                        Err(SpecTypeError::BinaryOpFailed(x, y))
                    } else if op == BinOp::DotProduct {
                        Ok(SpecLanguageType::Bits(1))
                    } else {
                        Ok(SpecLanguageType::Bits(x))
                    },
                    _ => Err(binary_operands_error(l, r)),
                },
            },
        },
        SpecExpr::Call { callee, args } => match type_of(*callee, env) {
            Err(x) => Err(x),
            Ok(SpecLanguageType::Function(input, output)) => match type_args(args, env) {
                Err(x) => Err(x),
                Ok(ns) => if input == ns {
                    Ok(SpecLanguageType::Bits(output))
                } else {
                    Err(SpecTypeError::InvalidArgs)
                },
            },
            Ok(t) => Err(SpecTypeError::Expected("function"@, type_label(t))),
        },
        SpecExpr::Grouping(g) => type_of(*g, env),
    }
}

/// The lengths of the bitstring arguments, typed left to right; the first
/// argument that fails, or that is not a bitstring, stops.
pub open spec fn type_args(args: Seq<SpecExpr>, env: Seq<(Seq<char>, SpecLanguageType)>) -> Result<Seq<usize>, SpecTypeError>
    decreases args,
{
    if args.len() == 0 {
        Ok(Seq::empty())
    } else {
        match type_args(args.drop_last(), env) {
            Err(x) => Err(x),
            Ok(ns) => match type_of(args.last(), env) {
                Err(x) => Err(x),
                Ok(SpecLanguageType::Bits(n)) => Ok(ns.push(n)),
                Ok(t) => Err(SpecTypeError::Expected("bits"@, type_label(t))),
            },
        }
    }
}

pub open spec fn type_result(r: Result<LanguageType, TypeError>) -> Result<SpecLanguageType, SpecTypeError> {
    match r {
        Ok(t) => Ok(t@),
        Err(e) => Err(e@),
    }
}

proof fn lemma_type_args_err_extends(args: Seq<SpecExpr>, k: int, env: Seq<(Seq<char>, SpecLanguageType)>)
    requires
        0 <= k <= args.len(),
        type_args(args.take(k), env) is Err,
    ensures
        type_args(args, env) == type_args(args.take(k), env),
    decreases args.len() - k,
{
    if k < args.len() {
        assert(args.take(k + 1).drop_last() =~= args.take(k));
        lemma_type_args_err_extends(args, k + 1, env);
    } else {
        assert(args.take(k) =~= args);
    }
}

fn vec_eq(a: &Vec<usize>, b: &Vec<usize>) -> (res: bool)
    ensures
        res == (a@ == b@),
{
    if a.len() != b.len() {
        return false;
    }
    let mut i: usize = 0;
    while i < a.len()
        invariant
            i <= a@.len(),
            a@.len() == b@.len(),
            forall|j: int| 0 <= j < i ==> a@[j] == b@[j],
        decreases a@.len() - i,
    {
        if a[i] != b[i] {
            return false;
        }
        i = i + 1;
    }
    assert(a@ =~= b@);
    true
}

impl TypeChecker {
    /// Given an expression, resolve its type; fails where the composition
    /// of the expression is not type-safe.
    #[verifier::loop_isolation(false)]
    pub fn resolve_expr(&self, expr: &Expr) -> (res: Result<LanguageType, TypeError>)
        requires
            expr_wf(expr@),
        ensures
            type_result(res) == type_of(expr@, self@),
        decreases expr@,
    {
        match expr {
            Expr::BitsLiteral(b) => {
                let cs = chars_of(b.as_str());
                let d = bits_digits_exec(cs.as_slice());
                match parse_unsigned_exec(d, 2) {
                    Ok(_) => Ok(LanguageType::Bits(d.len())),
                    Err(_) => Err(TypeError::FailedBitsParse(b.clone())),
                }
            },
            Expr::Identifier(name) => {
                match position_of(&self.identifier_types, name) {
                    Some(i) => Ok(copy_type(&self.identifier_types[i].1)),
                    None => Err(TypeError::UnresolvedIdentifier(name.clone())),
                }
            },
            Expr::Binary { op, left, right } => {
                assert(decreases_to!(expr@ => (**left)@));
                assert(decreases_to!(expr@ => (**right)@));
                let l = self.resolve_expr(left)?;
                let r = self.resolve_expr(right)?;
                match (&l, &r) {
                    (LanguageType::Bits(x), LanguageType::Bits(y)) => {
                        if *x != *y {
                            return Err(TypeError::BinaryOpFailed(*x, *y));
                        }
                        match op {
                            BinOp::DotProduct => Ok(LanguageType::Bits(1)),
                            _ => Ok(LanguageType::Bits(*x)),
                        }
                    },
                    _ => {
                        let mut msg = String::new();
                        msg.append("(");
                        msg.append(l.label().as_str());
                        msg.append(", ");
                        msg.append(r.label().as_str());
                        msg.append(")");
                        Err(TypeError::Expected("bits, bits", msg))
                    },
                }
            },
            Expr::Call { callee, args } => {
                let ghost sargs = exprs_view(args@);
                assert(expr@ == SpecExpr::Call { callee: Box::new((**callee)@), args: sargs });
                assert(decreases_to!(expr@ => (**callee)@));
                let ft = self.resolve_expr(callee)?;
                let f = match ft {
                    LanguageType::Function(f) => f,
                    other => {
                        return Err(TypeError::Expected("function", other.label()));
                    },
                };
                proof {
                    lemma_exprs_view(args@);
                    lemma_exprs_wf(sargs);
                    assert(decreases_to!(expr@ => sargs));
                    assert(sargs.take(0) =~= Seq::<SpecExpr>::empty());
                }
                let mut resolved: Vec<usize> = Vec::new();
                let mut i: usize = 0;
                while i < args.len()
                    invariant
                        i <= args@.len(),
                        sargs == exprs_view(args@),
                        sargs.len() == args@.len(),
                        forall|j: int| 0 <= j < args@.len() ==> #[trigger] sargs[j] == args@[j]@,
                        forall|j: int| 0 <= j < sargs.len() ==> #[trigger] expr_wf(sargs[j]),
                        decreases_to!(expr@ => sargs),
                        type_args(sargs.take(i as int), self@) == Ok::<Seq<usize>, SpecTypeError>(resolved@),
                    decreases args@.len() - i,
                {
                    assert(sargs.take(i + 1).drop_last() =~= sargs.take(i as int));
                    assert(sargs.take(i + 1).last() == args@[i as int]@);
                    assert(decreases_to!(sargs => sargs[i as int]));
                    let r = self.resolve_expr(&args[i]);
                    match r {
                        Ok(LanguageType::Bits(n)) => {
                            resolved.push(n);
                        },
                        Ok(other) => {
                            proof {
                                lemma_type_args_err_extends(sargs, i as int + 1, self@);
                            }
                            return Err(TypeError::Expected("bits", other.label()));
                        },
                        Err(e) => {
                            proof {
                                lemma_type_args_err_extends(sargs, i as int + 1, self@);
                            }
                            return Err(e);
                        },
                    }
                    i = i + 1;
                }
                assert(sargs.take(args@.len() as int) =~= sargs);
                if vec_eq(&f.input, &resolved) {
                    Ok(LanguageType::Bits(f.output))
                } else {
                    Err(TypeError::InvalidArgs)
                }
            },
            Expr::Grouping(g) => {
                assert(decreases_to!(expr@ => (**g)@));
                self.resolve_expr(g)
            },
        }
    }
}

} // verus!
