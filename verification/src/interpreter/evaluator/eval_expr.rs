use vstd::prelude::*;
use crate::interpreter::evaluator::environment::{
    Bits, EvaluatorType, Environment, Value,
    scope_wf, expr_wf, value_wf, lemma_exprs_wf, lemma_scope_wf, lemma_scope_view,
    function_view, copy_value,
};
use crate::interpreter::evaluator::runtime_error::{RuntimeError, SpecRuntimeError};
use crate::interpreter::bindings::{env_index, env_lookup, lemma_env_index};
use crate::interpreter::literals::{
    IntErrorKind, bits_digits, bits_digits_exec, bits_literal_sliceable, parse_unsigned,
    parse_unsigned_exec,
};
use crate::interpreter::parser::ast_types::{BinOp, Expr, SpecExpr, exprs_view, lemma_exprs_view};
use crate::text::chars_of;

verus! {

// ----- semantics of expressions -----

/// Position of the last binding of `k` among the arguments of a call, or -1.
pub open spec fn local_index(locals: Seq<(Seq<char>, Bits)>, k: Seq<char>) -> int
    decreases locals.len(),
{
    if locals.len() == 0 {
        -1
    } else if locals.last().0 == k {
        locals.len() - 1
    } else {
        local_index(locals.drop_last(), k)
    }
}

/// The arguments of a call bound to the parameter names, pairwise.
pub open spec fn bind_params(params: Seq<Seq<char>>, vals: Seq<Bits>) -> Seq<(Seq<char>, Bits)> {
    let n = if params.len() < vals.len() { params.len() } else { vals.len() };
    Seq::new(n, |i: int| (params[i], vals[i]))
}

pub open spec fn locals_view(s: Seq<(String, Bits)>) -> Seq<(Seq<char>, Bits)> {
    s.map_values(|p: (String, Bits)| (p.0@, p.1))
}

/// A name resolves first among the call arguments, then in the scope.
pub open spec fn resolve_name(
    n: Seq<char>,
    scope: Seq<(Seq<char>, Value)>,
    locals: Seq<(Seq<char>, Bits)>,
) -> Option<Value> {
    let j = local_index(locals, n);
    if j >= 0 {
        Some(Value::Bits(locals[j].1))
    } else {
        env_lookup(scope, n)
    }
}

/// Bit `i` of `x` (0 beyond the width of `usize`).
pub open spec fn bit_at(x: usize, i: nat) -> usize {
    if i < usize::BITS {
        (x >> i) & 1
    } else {
        0
    }
}

/// The dot product modulo 2 of the lowest `n` bits of `l` and `r`.
pub open spec fn dot_bits(l: usize, r: usize, n: nat) -> usize
    decreases n,
{
    if n == 0 {
        0
    } else {
        dot_bits(l, r, (n - 1) as nat) ^ (bit_at(l, (n - 1) as nat) & bit_at(r, (n - 1) as nat))
    }
}

pub open spec fn combine(op: BinOp, l: Bits, r: Bits) -> Bits {
    match op {
        BinOp::And => Bits { literal: l.literal & r.literal, length: l.length },
        BinOp::Or => Bits { literal: l.literal | r.literal, length: l.length },
        BinOp::Xor => Bits { literal: l.literal ^ r.literal, length: l.length },
        BinOp::DotProduct => Bits { literal: dot_bits(l.literal, r.literal, l.length as nat), length: 1 },
    }
}

/// The message of a failed integer conversion.
pub open spec fn int_error_message(k: IntErrorKind) -> Seq<char> {
    match k {
        IntErrorKind::Empty => "cannot parse integer from empty string"@,
        IntErrorKind::InvalidDigit => "invalid digit found in string"@,
        IntErrorKind::PosOverflow => "number too large to fit in target type"@,
    }
}

/// The value of a bits literal `0b...`: its digits read in base 2, and its
/// length the number of digits.
pub open spec fn literal_bits(b: Seq<char>) -> Result<Bits, SpecRuntimeError> {
    let d = bits_digits(b);
    match parse_unsigned(d, 2) {
        Ok(v) => Ok(Bits { literal: v, length: d.len() as usize }),
        Err(k) => Err(SpecRuntimeError::BinaryConversionFailed(int_error_message(k))),
    }
}

pub open spec fn all_bits(vals: Seq<Value>) -> bool {
    forall|i: int| 0 <= i < vals.len() ==> #[trigger] vals[i] is Bits
}

pub open spec fn bits_of(vals: Seq<Value>) -> Seq<Bits> {
    vals.map_values(|v: Value| v->Bits_0)
}

/// The value of `e` when names resolve in `locals`, then in `scope`.
/// A call evaluates its arguments left to right, then runs the body of the
/// function in the scope that the function was declared in.
pub open spec fn eval_spec(
    e: SpecExpr,
    scope: Seq<(Seq<char>, Value)>,
    locals: Seq<(Seq<char>, Bits)>,
) -> Result<Value, SpecRuntimeError>
    decreases scope, e,
{
    match e {
        SpecExpr::BitsLiteral(b) => match literal_bits(b) {
            Ok(bits) => Ok(Value::Bits(bits)),
            Err(x) => Err(x),
        },
        SpecExpr::Grouping(g) => eval_spec(*g, scope, locals),
        SpecExpr::Identifier(n) => match resolve_name(n, scope, locals) {
            Some(v) => Ok(v),
            None => Err(SpecRuntimeError::VarNotFound(n)),
        },
        SpecExpr::Binary { op, left, right } => match eval_spec(*left, scope, locals) {
            Err(x) => Err(x),
            Ok(lv) => match eval_spec(*right, scope, locals) {
                Err(x) => Err(x),
                Ok(rv) => match (lv, rv) {
                    (Value::Bits(l), Value::Bits(r)) => if l.length != r.length {
                        Err(SpecRuntimeError::TypeMismatch)
                    } else {
                        Ok(Value::Bits(combine(op, l, r)))
                    },
                    _ => Err(SpecRuntimeError::TypeMismatch),
                },
            },
        },
        SpecExpr::Call { callee, args } => match eval_args_spec(args, scope, locals) {
            Err(x) => Err(x),
            Ok(vals) => match *callee {
                SpecExpr::Identifier(f) => if local_index(locals, f) >= 0 {
                    Err(SpecRuntimeError::TypeMismatch)
                } else {
                    let i = env_index(scope, f);
                    if i < 0 {
                        Err(SpecRuntimeError::TypeMismatch)
                    } else {
                        proof {
                            lemma_env_index(scope, f);
                        }
                        match scope[i].1 {
                            Value::Function(fv) => if vals.len() != fv.input.len() {
                                Err(SpecRuntimeError::IncorrectArgs(fv.input.len() as usize, vals.len() as usize))
                            } else if !all_bits(vals) {
                                Err(SpecRuntimeError::TypeMismatch)
                            } else {
                                eval_spec(fv.func.body, fv.func.scope, bind_params(fv.func.params, bits_of(vals)))
                            },
                            _ => Err(SpecRuntimeError::TypeMismatch),
                        }
                    }
                },
                _ => Err(SpecRuntimeError::TypeMismatch),
            },
        },
    }
}

/// The values of `args`, evaluated left to right; the first failure stops.
pub open spec fn eval_args_spec(
    args: Seq<SpecExpr>,
    scope: Seq<(Seq<char>, Value)>,
    locals: Seq<(Seq<char>, Bits)>,
) -> Result<Seq<Value>, SpecRuntimeError>
    decreases scope, args,
{
    if args.len() == 0 {
        Ok(Seq::empty())
    } else {
        match eval_args_spec(args.drop_last(), scope, locals) {
            Err(x) => Err(x),
            Ok(vs) => match eval_spec(args.last(), scope, locals) {
                Err(x) => Err(x),
                Ok(v) => Ok(vs.push(v)),
            },
        }
    }
}

pub open spec fn value_result(r: Result<EvaluatorType, RuntimeError>) -> Result<Value, SpecRuntimeError> {
    match r {
        Ok(v) => Ok(v@),
        Err(e) => Err(e@),
    }
}

// ----- evaluation -----

proof fn lemma_local_index(s: Seq<(Seq<char>, Bits)>, k: Seq<char>)
    ensures
        -1 <= local_index(s, k) < s.len(),
        local_index(s, k) >= 0 ==> s[local_index(s, k)].0 == k,
    decreases s.len(),
{
    if s.len() > 0 {
        lemma_local_index(s.drop_last(), k);
    }
}

/// Looks `name` up among the arguments of the current call.
fn find_local(locals: &Vec<(String, Bits)>, name: &String) -> (res: Option<Bits>)
    ensures
        match res {
            Some(b) => local_index(locals_view(locals@), name@) >= 0
                && locals_view(locals@)[local_index(locals_view(locals@), name@)].1 == b,
            None => local_index(locals_view(locals@), name@) < 0,
        },
{
    let ghost lv = locals_view(locals@);
    let mut i: usize = locals.len();
    assert(lv.subrange(0, i as int) =~= lv);
    while i > 0
        invariant
            i <= locals@.len(),
            lv == locals_view(locals@),
            local_index(lv, name@) == local_index(lv.subrange(0, i as int), name@),
        decreases i,
    {
        let ghost pre = lv.subrange(0, i as int);
        if locals[i - 1].0 == *name {
            assert(pre.last().0 == name@);
            return Some(locals[i - 1].1);
        }
        assert(pre.drop_last() =~= lv.subrange(0, i - 1));
        i = i - 1;
    }
    None
}

fn int_error(k: IntErrorKind) -> (res: RuntimeError)
    ensures
        res@ == SpecRuntimeError::BinaryConversionFailed(int_error_message(k)),
{
    match k {
        IntErrorKind::Empty => RuntimeError::BinaryConversionFailed(
            "cannot parse integer from empty string".to_owned(),
        ),
        IntErrorKind::InvalidDigit => RuntimeError::BinaryConversionFailed(
            "invalid digit found in string".to_owned(),
        ),
        IntErrorKind::PosOverflow => RuntimeError::BinaryConversionFailed(
            "number too large to fit in target type".to_owned(),
        ),
    }
}

/// The value of a bits literal.
pub fn eval_bits_literal(b: &String) -> (res: Result<Bits, RuntimeError>)
    requires
        bits_literal_sliceable(b@),
    ensures
        match res {
            Ok(bits) => literal_bits(b@) == Ok::<Bits, SpecRuntimeError>(bits),
            Err(e) => literal_bits(b@) == Err::<Bits, SpecRuntimeError>(e@),
        },
{
    let cs = chars_of(b.as_str());
    let d = bits_digits_exec(cs.as_slice());
    match parse_unsigned_exec(d, 2) {
        Ok(v) => Ok(Bits { literal: v, length: d.len() }),
        Err(k) => Err(int_error(k)),
    }
}

/// Dot product modulo 2 of the lowest `n` bits.
pub fn dot_product(l: usize, r: usize, n: usize) -> (res: usize)
    ensures
        res == dot_bits(l, r, n as nat),
{
    let m: usize = if n < usize::BITS as usize { n } else { usize::BITS as usize };
    let mut acc: usize = 0;
    let mut i: usize = 0;
    while i < m
        invariant
            i <= m,
            m <= n,
            m <= usize::BITS,
            acc == dot_bits(l, r, i as nat),
        decreases m - i,
    {
        let lb: usize = (l >> i) & 1;
        let rb: usize = (r >> i) & 1;
        acc = acc ^ (lb & rb);
        i = i + 1;
    }
    proof {
        lemma_dot_tail(l, r, m as nat, n as nat);
    }
    acc
}

/// Bits beyond the width of `usize` add nothing to the dot product.
proof fn lemma_dot_tail(l: usize, r: usize, m: nat, n: nat)
    requires
        m <= n,
        m == n || m == usize::BITS,
    ensures
        dot_bits(l, r, n) == dot_bits(l, r, m),
    decreases n - m,
{
    if n > m {
        lemma_dot_tail(l, r, m, (n - 1) as nat);
        let x = dot_bits(l, r, (n - 1) as nat);
        assert(x ^ (0usize & 0usize) == x) by (bit_vector);
    }
}

/// The operators on bitstrings are commutative: swapping the operands of
/// `&`, `|`, `^` or `*` on bitstrings of one length gives the same result.
pub proof fn lemma_combine_commutes(op: BinOp, l: Bits, r: Bits)
    requires
        l.length == r.length,
    ensures
        combine(op, l, r) == combine(op, r, l),
{
    let a = l.literal;
    let b = r.literal;
    assert(a & b == b & a && a | b == b | a && a ^ b == b ^ a) by (bit_vector);
    lemma_dot_symmetric(a, b, l.length as nat);
}

proof fn lemma_dot_symmetric(l: usize, r: usize, n: nat)
    ensures
        dot_bits(l, r, n) == dot_bits(r, l, n),
    decreases n,
{
    if n > 0 {
        lemma_dot_symmetric(l, r, (n - 1) as nat);
        let x = bit_at(l, (n - 1) as nat);
        let y = bit_at(r, (n - 1) as nat);
        assert(x & y == y & x) by (bit_vector);
    }
}

// ----- what the dot product is -----

proof fn lemma_bit_at_le_one(x: usize, i: nat)
    ensures
        bit_at(x, i) <= 1,
{
    if i < usize::BITS {
        let j = i as usize;
        assert((x >> j) & 1 <= 1) by (bit_vector);
    }
}

/// The dot product is a single bit.
pub proof fn lemma_dot_is_a_bit(l: usize, r: usize, n: nat)
    ensures
        dot_bits(l, r, n) <= 1,
    decreases n,
{
    if n > 0 {
        lemma_dot_is_a_bit(l, r, (n - 1) as nat);
        lemma_bit_at_le_one(l, (n - 1) as nat);
        lemma_bit_at_le_one(r, (n - 1) as nat);
        let d = dot_bits(l, r, (n - 1) as nat);
        let a = bit_at(l, (n - 1) as nat);
        let b = bit_at(r, (n - 1) as nat);
        assert(d <= 1 && a <= 1 && b <= 1 ==> d ^ (a & b) <= 1) by (bit_vector);
    }
}

/// Where the shared bits below `n` of two pairs agree, so do their dot
/// products.
proof fn lemma_dot_frame(l: usize, r: usize, l2: usize, r2: usize, n: nat)
    requires
        forall|j: nat| j < n ==> (#[trigger] bit_at(l, j)) & bit_at(r, j) == bit_at(l2, j) & bit_at(r2, j),
    ensures
        dot_bits(l, r, n) == dot_bits(l2, r2, n),
    decreases n,
{
    if n > 0 {
        lemma_dot_frame(l, r, l2, r2, (n - 1) as nat);
        assert(bit_at(l, (n - 1) as nat) & bit_at(r, (n - 1) as nat)
            == bit_at(l2, (n - 1) as nat) & bit_at(r2, (n - 1) as nat));
    }
}

/// Setting bit `i` leaves every other bit as it was, and sets bit `i`.
proof fn lemma_set_bit(x: usize, i: usize, j: nat)
    requires
        i < usize::BITS,
    ensures
        j != i ==> bit_at(x | (1usize << i), j) == bit_at(x, j),
        j == i ==> bit_at(x | (1usize << i), j) == 1,
{
    if j < usize::BITS {
        let k = j as usize;
        assert(k != i ==> ((x | (1usize << i)) >> k) & 1 == (x >> k) & 1) by (bit_vector)
            requires
                i < usize::BITS,
                k < usize::BITS,
        ;
        assert(k == i ==> ((x | (1usize << i)) >> k) & 1 == 1) by (bit_vector)
            requires
                i < usize::BITS,
        ;
    }
}

/// Turning on, in both operands, a bit below `n` that both had off flips
/// the dot product: it counts the shared one bits below `n` modulo 2.
pub proof fn lemma_dot_shared_bit_flips(l: usize, r: usize, n: nat, i: usize)
    requires
        i < n,
        i < usize::BITS,
        bit_at(l, i as nat) == 0,
        bit_at(r, i as nat) == 0,
    ensures
        dot_bits(l | (1usize << i), r | (1usize << i), n) == dot_bits(l, r, n) ^ 1,
    decreases n,
{
    let bl = l | (1usize << i);
    let br = r | (1usize << i);
    let m = (n - 1) as nat;
    assert forall|j: nat| j < m && j != i implies #[trigger] bit_at(bl, j) & bit_at(br, j) == bit_at(l, j) & bit_at(r, j) by {
        lemma_set_bit(l, i, j);
        lemma_set_bit(r, i, j);
    }
    lemma_set_bit(l, i, m);
    lemma_set_bit(r, i, m);
    lemma_dot_is_a_bit(l, r, m);
    lemma_bit_at_le_one(l, m);
    lemma_bit_at_le_one(r, m);
    let d = dot_bits(l, r, m);
    if m == i {
        lemma_dot_frame(bl, br, l, r, m);
        assert(d ^ (1usize & 1usize) == (d ^ (0usize & 0usize)) ^ 1) by (bit_vector);
    } else {
        lemma_dot_shared_bit_flips(l, r, m, i);
        let a = bit_at(l, m);
        let b = bit_at(r, m);
        assert((d ^ 1) ^ (a & b) == (d ^ (a & b)) ^ 1) by (bit_vector);
    }
}

/// A bit that only one operand has, or that lies at or above `n`, does not
/// change the dot product.
pub proof fn lemma_dot_unshared_bit_keeps(l: usize, r: usize, n: nat, i: usize)
    requires
        i < usize::BITS,
    ensures
        bit_at(r, i as nat) == 0 ==> dot_bits(l | (1usize << i), r, n) == dot_bits(l, r, n),
        i >= n ==> dot_bits(l | (1usize << i), r | (1usize << i), n) == dot_bits(l, r, n),
{
    let bl = l | (1usize << i);
    let br = r | (1usize << i);
    assert forall|j: nat| j < n && bit_at(r, i as nat) == 0 implies
        #[trigger] bit_at(bl, j) & bit_at(r, j) == bit_at(l, j) & bit_at(r, j) by {
        lemma_set_bit(l, i, j);
        lemma_bit_at_le_one(l, j);
        if j == i {
            let a = bit_at(l, j);
            assert(1usize & 0usize == a & 0usize) by (bit_vector);
        }
    }
    if bit_at(r, i as nat) == 0 {
        lemma_dot_frame(bl, r, l, r, n);
    }
    assert forall|j: nat| j < n && i >= n implies
        #[trigger] bit_at(bl, j) & bit_at(br, j) == bit_at(l, j) & bit_at(r, j) by {
        lemma_set_bit(l, i, j);
        lemma_set_bit(r, i, j);
    }
    if i >= n {
        lemma_dot_frame(bl, br, l, r, n);
    }
}

/// The dot product with no one bits is 0.
pub proof fn lemma_dot_with_zero(l: usize, n: nat)
    ensures
        dot_bits(l, 0, n) == 0,
    decreases n,
{
    if n > 0 {
        lemma_dot_with_zero(l, (n - 1) as nat);
        let m = (n - 1) as nat;
        let a = bit_at(l, m);
        if m < usize::BITS {
            let k = m as usize;
            assert((0usize >> k) & 1 == 0) by (bit_vector);
        }
        assert(0usize ^ (a & 0usize) == 0) by (bit_vector);
    }
}

/// Evaluates `expr` with names resolving in `locals`, then in `scope`.
#[verifier::loop_isolation(false)]
pub fn eval_in(
    expr: &Expr,
    scope: &Environment,
    locals: &Vec<(String, Bits)>,
) -> (res: Result<EvaluatorType, RuntimeError>)
    requires
        expr_wf(expr@),
        scope_wf(scope@),
    ensures
        value_result(res) == eval_spec(expr@, scope@, locals_view(locals@)),
    decreases scope@, expr@,
{
    let ghost lv = locals_view(locals@);
    match expr {
        Expr::BitsLiteral(b) => {
            match eval_bits_literal(b) {
                Ok(bits) => Ok(EvaluatorType::Bits(bits)),
                Err(e) => Err(e),
            }
        },
        Expr::Grouping(g) => {
            assert(decreases_to!(expr@ => (**g)@));
            eval_in(g, scope, locals)
        },
        Expr::Identifier(name) => {
            match find_local(locals, name) {
                Some(b) => Ok(EvaluatorType::Bits(b)),
                None => match scope.get(name) {
                    Some(v) => Ok(copy_value(v)),
                    None => Err(RuntimeError::VarNotFound(name.clone())),
                },
            }
        },
        Expr::Binary { op, left, right } => {
            assert(decreases_to!(expr@ => (**left)@));
            assert(decreases_to!(expr@ => (**right)@));
            let lv_ = eval_in(left, scope, locals)?;
            let rv_ = eval_in(right, scope, locals)?;
            match (lv_, rv_) {
                (EvaluatorType::Bits(l), EvaluatorType::Bits(r)) => {
                    if l.length != r.length {
                        return Err(RuntimeError::TypeMismatch);
                    }
                    let combined = match op {
                        BinOp::And => Bits { literal: l.literal & r.literal, length: l.length },
                        BinOp::Or => Bits { literal: l.literal | r.literal, length: l.length },
                        BinOp::Xor => Bits { literal: l.literal ^ r.literal, length: l.length },
                        BinOp::DotProduct => Bits {
                            literal: dot_product(l.literal, r.literal, l.length),
                            length: 1,
                        },
                    };
                    Ok(EvaluatorType::Bits(combined))
                },
                _ => Err(RuntimeError::TypeMismatch),
            }
        },
        Expr::Call { callee, args } => {
            let ghost sargs = exprs_view(args@);
            assert(expr@ == SpecExpr::Call { callee: Box::new((**callee)@), args: sargs });
            proof {
                lemma_exprs_view(args@);
                lemma_exprs_wf(sargs);
                assert(decreases_to!(expr@ => sargs));
            }
            // evaluate the arguments, left to right
            let mut vals: Vec<EvaluatorType> = Vec::new();
            let ghost mut gv: Seq<Value> = Seq::empty();
            let mut i: usize = 0;
            assert(sargs.take(0) =~= Seq::<SpecExpr>::empty());
            while i < args.len()
                invariant
                    i <= args@.len(),
                    sargs == exprs_view(args@),
                    sargs.len() == args@.len(),
                    forall|j: int| 0 <= j < args@.len() ==> #[trigger] sargs[j] == args@[j]@,
                    forall|j: int| 0 <= j < sargs.len() ==> #[trigger] expr_wf(sargs[j]),
                    scope_wf(scope@),
                    decreases_to!(expr@ => sargs),
                    lv == locals_view(locals@),
                    eval_args_spec(sargs.take(i as int), scope@, lv) == Ok::<Seq<Value>, SpecRuntimeError>(gv),
                    gv.len() == i,
                    vals@.len() == i,
                    forall|j: int| 0 <= j < i ==> #[trigger] gv[j] == vals@[j]@,
                decreases args@.len() - i,
            {
                assert(sargs.take(i + 1).drop_last() =~= sargs.take(i as int));
                assert(sargs.take(i + 1).last() == args@[i as int]@);
                assert(decreases_to!(sargs => sargs[i as int]));
                let r = eval_in(&args[i], scope, locals);
                match r {
                    Ok(v) => {
                        proof {
                            gv = gv.push(v@);
                        }
                        vals.push(v);
                    },
                    Err(e) => {
                        proof {
                            assert(eval_spec(sargs[i as int], scope@, lv) == Err::<Value, SpecRuntimeError>(e@));
                            assert(eval_args_spec(sargs.take(i + 1), scope@, lv) == Err::<Seq<Value>, SpecRuntimeError>(e@));
                            lemma_args_err_extends(sargs, i as int + 1, scope@, lv);
                            assert(eval_args_spec(sargs, scope@, lv) == Err::<Seq<Value>, SpecRuntimeError>(e@));
                        }
                        return Err(e);
                    },
                }
                i = i + 1;
            }
            assert(sargs.take(args@.len() as int) =~= sargs);
            let ghost svals = gv;
            // the callee must name a function of the scope
            let fname = match &**callee {
                Expr::Identifier(f) => f,
                _ => {
                    return Err(RuntimeError::TypeMismatch);
                },
            };
            if find_local(locals, fname).is_some() {
                return Err(RuntimeError::TypeMismatch);
            }
            let pos = match scope.position(fname) {
                Some(p) => p,
                None => {
                    return Err(RuntimeError::TypeMismatch);
                },
            };
            proof {
                lemma_scope_view(scope.entries@);
                lemma_scope_wf(scope@);
            }
            let fv = match &scope.entries[pos].1 {
                EvaluatorType::Function(f) => f,
                _ => {
                    return Err(RuntimeError::TypeMismatch);
                },
            };
            proof {
                assert(scope@[pos as int].1 == Value::Function(function_view(*fv)));
            }
            if vals.len() != fv.input.len() {
                return Err(RuntimeError::IncorrectArgs(fv.input.len(), vals.len()));
            }
            // bind the parameters to the (bitstring) arguments
            let mut bound: Vec<(String, Bits)> = Vec::new();
            let mut k: usize = 0;
            while k < vals.len()
                invariant
                    k <= vals@.len(),
                    svals.len() == vals@.len(),
                    forall|j: int| 0 <= j < vals@.len() ==> #[trigger] svals[j] == vals@[j]@,
                    forall|j: int| 0 <= j < k ==> #[trigger] svals[j] is Bits,
                    bound@.len() == if k < fv.func.params@.len() { k as int } else { fv.func.params@.len() as int },
                    forall|j: int| 0 <= j < bound@.len() ==> (#[trigger] bound@[j]).0@ == fv.func.params@[j]@
                        && bound@[j].1 == svals[j]->Bits_0,
                decreases vals@.len() - k,
            {
                match &vals[k] {
                    EvaluatorType::Bits(b) => {
                        if k < fv.func.params.len() {
                            bound.push((fv.func.params[k].clone(), *b));
                        }
                    },
                    _ => {
                        assert(svals[k as int] == vals@[k as int]@);
                        assert(!(svals[k as int] is Bits));
                        assert(!all_bits(svals));
                        return Err(RuntimeError::TypeMismatch);
                    },
                }
                k = k + 1;
            }
            proof {
                let fview = function_view(*fv);
                assert(scope@[pos as int].1 == Value::Function(fview));
                assert(all_bits(svals));
                let bp = bind_params(fview.func.params, bits_of(svals));
                assert(locals_view(bound@) =~= bp);
                assert(decreases_to!(scope@ => scope@[pos as int]));
                assert(decreases_to!(scope@[pos as int] => scope@[pos as int].1));
                assert(decreases_to!(scope@[pos as int].1 => fview));
                assert(decreases_to!(fview => fview.func));
                assert(decreases_to!(fview.func => fview.func.scope));
                assert(value_wf(scope@[pos as int].1));
            }
            eval_in(&fv.func.body, &fv.func.scope, &bound)
        },
    }
}

proof fn lemma_args_err_extends(
    args: Seq<SpecExpr>,
    k: int,
    scope: Seq<(Seq<char>, Value)>,
    locals: Seq<(Seq<char>, Bits)>,
)
    requires
        0 <= k <= args.len(),
        eval_args_spec(args.take(k), scope, locals) is Err,
    ensures
        eval_args_spec(args, scope, locals) == eval_args_spec(args.take(k), scope, locals),
    decreases args.len() - k,
{
    if k < args.len() {
        assert(args.take(k + 1).drop_last() =~= args.take(k));
        lemma_args_err_extends(args, k + 1, scope, locals);
    } else {
        assert(args.take(k) =~= args);
    }
}

} // verus!
