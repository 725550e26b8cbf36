use vstd::prelude::*;
use crate::interpreter::bindings::{
    env_index, env_insert, env_lookup, lemma_env_index, lemma_lookup_insert_other,
    lemma_lookup_insert_same,
};
use crate::interpreter::evaluator::environment::{Bits, ClosureValue, Value};
use crate::interpreter::evaluator::eval_expr::{
    all_bits, bind_params, bits_of, combine, eval_args_spec, eval_spec, literal_bits, local_index,
    resolve_name,
};
use crate::interpreter::evaluator::semantics::Scope;
use crate::interpreter::parser::ast_types::{SpecExpr, SpecParam, Type};
use crate::interpreter::type_checker::{
    TypeEnv, bind_param_types, check_circuit, check_function, check_instruction, check_instructions,
    check_method, check_oracle, check_program, check_stmt, gate_arity_in, oracle_type,
    param_lengths, qubit_count, register_table,
};
use crate::interpreter::evaluator::semantics::{
    ActionValue, Lookup, StepValue, arg_targets, circuit_ops, function_value, index_of_ref,
    instruction_ops, lookup_table, method_step, oracle_sizes, oracle_step, param_sizes,
    resolve_gate_spec, run_from, size_of_ref, stmt_step,
};
use crate::interpreter::evaluator::eval_circuit::lemma_index_bound;
use crate::interpreter::evaluator::runtime_error::SpecRuntimeError;
use crate::interpreter::evaluator::environment::FunctionValue;
use crate::interpreter::parser::ast_types::{
    SpecCircuitInstr, SpecCircuitRef, SpecQubitDecl, SpecStatement, Applies,
};
use crate::interpreter::type_checker::lang_types::SpecLanguageType;
use crate::interpreter::type_checker::resolve_expr::{type_args, type_of};

verus! {

// ----- the types of runtime values -----

/// The static type of a runtime value.
pub open spec fn value_type(v: Value) -> SpecLanguageType {
    match v {
        Value::Bits(b) => SpecLanguageType::Bits(b.length),
        Value::Function(f) => SpecLanguageType::Function(f.input, f.output),
        Value::Oracle(x, y, _) => SpecLanguageType::Oracle(x, y),
        Value::Circuit(_, _) => SpecLanguageType::Circuit,
    }
}

pub open spec fn opt_type(o: Option<Value>) -> Option<SpecLanguageType> {
    match o {
        Some(v) => Some(value_type(v)),
        None => None,
    }
}

/// The types of the values bound in a scope.
pub open spec fn scope_types(s: Scope) -> TypeEnv {
    s.map_values(|p: (Seq<char>, Value)| (p.0, value_type(p.1)))
}

/// Every name has in `tenv` the type of the value it resolves to.
pub open spec fn ctx_agrees(scope: Scope, locals: Seq<(Seq<char>, Bits)>, tenv: TypeEnv) -> bool {
    forall|n: Seq<char>| #[trigger] env_lookup(tenv, n) == opt_type(resolve_name(n, scope, locals))
}

/// The position of the last occurrence of `n` among `names`, or -1.
pub open spec fn last_index(names: Seq<Seq<char>>, n: Seq<char>) -> int
    decreases names.len(),
{
    if names.len() == 0 {
        -1
    } else if names.last() == n {
        names.len() - 1
    } else {
        last_index(names.drop_last(), n)
    }
}

/// `tenv` with each name bound to a bitstring of the matching size, in
/// order.
pub open spec fn bind_names(tenv: TypeEnv, names: Seq<Seq<char>>, ns: Seq<usize>) -> TypeEnv
    decreases names.len(),
{
    if names.len() == 0 {
        tenv
    } else {
        env_insert(
            bind_names(tenv, names.drop_last(), ns),
            names.last(),
            SpecLanguageType::Bits(ns[names.len() - 1]),
        )
    }
}

proof fn lemma_last_index(names: Seq<Seq<char>>, n: Seq<char>)
    ensures
        -1 <= last_index(names, n) < names.len(),
        last_index(names, n) >= 0 ==> names[last_index(names, n)] == n,
    decreases names.len(),
{
    if names.len() > 0 {
        lemma_last_index(names.drop_last(), n);
    }
}

proof fn lemma_bind_names_lookup(tenv: TypeEnv, names: Seq<Seq<char>>, ns: Seq<usize>, n: Seq<char>)
    requires
        ns.len() >= names.len(),
    ensures
        env_lookup(bind_names(tenv, names, ns), n) == if last_index(names, n) >= 0 {
            Some(SpecLanguageType::Bits(ns[last_index(names, n)]))
        } else {
            env_lookup(tenv, n)
        },
    decreases names.len(),
{
    if names.len() > 0 {
        lemma_bind_names_lookup(tenv, names.drop_last(), ns, n);
        let t = bind_names(tenv, names.drop_last(), ns);
        let k = names.last();
        if k == n {
            lemma_lookup_insert_same(t, k, SpecLanguageType::Bits(ns[names.len() - 1]));
        } else {
            lemma_lookup_insert_other(t, k, SpecLanguageType::Bits(ns[names.len() - 1]), n);
        }
    }
}

proof fn lemma_local_index_bind(names: Seq<Seq<char>>, vals: Seq<Bits>, n: Seq<char>)
    requires
        names.len() == vals.len(),
    ensures
        local_index(bind_params(names, vals), n) == last_index(names, n),
    decreases names.len(),
{
    let b = bind_params(names, vals);
    if names.len() > 0 {
        let names2 = names.drop_last();
        let vals2 = vals.drop_last();
        lemma_local_index_bind(names2, vals2, n);
        assert(b.drop_last() =~= bind_params(names2, vals2));
        assert(b.last() == (names.last(), vals.last()));
    }
}

proof fn lemma_scope_types_lookup(s: Scope, n: Seq<char>)
    ensures
        env_lookup(scope_types(s), n) == opt_type(env_lookup(s, n)),
    decreases s.len(),
{
    let t = scope_types(s);
    if s.len() > 0 {
        lemma_scope_types_lookup(s.drop_last(), n);
        assert(t.drop_last() =~= scope_types(s.drop_last()));
    }
    lemma_env_index(s, n);
    lemma_env_index(t, n);
    assert(env_index(t, n) == env_index(s, n)) by {
        lemma_same_index(s, n);
    }
}

proof fn lemma_same_index(s: Scope, n: Seq<char>)
    ensures
        env_index(scope_types(s), n) == env_index(s, n),
    decreases s.len(),
{
    if s.len() > 0 {
        lemma_same_index(s.drop_last(), n);
        assert(scope_types(s).drop_last() =~= scope_types(s.drop_last()));
    }
}

/// The names of a function's body resolve, after a call, as the body was
/// typed: its parameters as bitstrings of the argument sizes, other names
/// in the scope it was declared in.
proof fn lemma_call_ctx(scope: Scope, names: Seq<Seq<char>>, vals: Seq<Bits>, ns: Seq<usize>)
    requires
        names.len() == vals.len(),
        ns.len() == vals.len(),
        forall|i: int| 0 <= i < vals.len() ==> (#[trigger] vals[i]).length == ns[i],
    ensures
        ctx_agrees(scope, bind_params(names, vals), bind_names(scope_types(scope), names, ns)),
{
    assert forall|n: Seq<char>| #[trigger] env_lookup(bind_names(scope_types(scope), names, ns), n)
        == opt_type(resolve_name(n, scope, bind_params(names, vals))) by {
        lemma_bind_names_lookup(scope_types(scope), names, ns, n);
        lemma_local_index_bind(names, vals, n);
        lemma_last_index(names, n);
        lemma_scope_types_lookup(scope, n);
    }
}


// ----- well-typed values -----

/// Every call names its function (no parenthesised or computed callee).
pub open spec fn calls_named(e: SpecExpr) -> bool
    decreases e,
{
    match e {
        SpecExpr::Identifier(_) => true,
        SpecExpr::BitsLiteral(_) => true,
        SpecExpr::Binary { op, left, right } => calls_named(*left) && calls_named(*right),
        SpecExpr::Call { callee, args } => (*callee is Identifier) && calls_named_all(args),
        SpecExpr::Grouping(g) => calls_named(*g),
    }
}

pub open spec fn calls_named_all(s: Seq<SpecExpr>) -> bool
    decreases s,
{
    if s.len() == 0 {
        true
    } else {
        calls_named_all(s.drop_last()) && calls_named(s.last())
    }
}

/// A function value is well typed: its body, with its parameters as
/// bitstrings of the input sizes, has the output type in the scope it
/// was declared in, and that scope is well typed.
pub open spec fn closure_typed(c: ClosureValue, input: Seq<usize>, output: usize) -> bool
    decreases c,
{
    &&& c.params.len() == input.len()
    &&& scope_typed(c.scope)
    &&& calls_named(c.body)
    &&& type_of(c.body, bind_names(scope_types(c.scope), c.params, input)) == Ok::<SpecLanguageType, crate::interpreter::type_checker::type_error::SpecTypeError>(SpecLanguageType::Bits(output))
}

pub open spec fn value_typed(v: Value) -> bool
    decreases v,
{
    match v {
        Value::Function(f) => closure_typed(f.func, f.input, f.output),
        _ => true,
    }
}

pub open spec fn scope_typed(s: Scope) -> bool
    decreases s,
{
    if s.len() == 0 {
        true
    } else {
        scope_typed(s.drop_last()) && value_typed(s.last().1)
    }
}

pub proof fn lemma_scope_typed(s: Scope)
    ensures
        scope_typed(s) <==> forall|i: int| 0 <= i < s.len() ==> #[trigger] value_typed(s[i].1),
    decreases s.len(),
{
    if s.len() > 0 {
        let t = s.drop_last();
        lemma_scope_typed(t);
        if forall|i: int| 0 <= i < s.len() ==> #[trigger] value_typed(s[i].1) {
            assert(value_typed(s[s.len() - 1].1));
            assert forall|i: int| 0 <= i < t.len() implies #[trigger] value_typed(t[i].1) by {
                assert(t[i] == s[i]);
                assert(value_typed(s[i].1));
            }
        }
        if value_typed(s.last().1) && forall|i: int| 0 <= i < t.len() ==> #[trigger] value_typed(t[i].1) {
            assert forall|i: int| 0 <= i < s.len() implies #[trigger] value_typed(s[i].1) by {
                if i < s.len() - 1 {
                    assert(t[i] == s[i]);
                    assert(value_typed(t[i].1));
                }
            }
        }
    }
}

pub proof fn lemma_calls_named_all(s: Seq<SpecExpr>)
    ensures
        calls_named_all(s) <==> forall|i: int| 0 <= i < s.len() ==> #[trigger] calls_named(s[i]),
    decreases s.len(),
{
    if s.len() > 0 {
        let t = s.drop_last();
        lemma_calls_named_all(t);
        if forall|i: int| 0 <= i < s.len() ==> #[trigger] calls_named(s[i]) {
            assert(calls_named(s[s.len() - 1]));
            assert forall|i: int| 0 <= i < t.len() implies #[trigger] calls_named(t[i]) by {
                assert(t[i] == s[i]);
                assert(calls_named(s[i]));
            }
        }
        if calls_named(s.last()) && forall|i: int| 0 <= i < t.len() ==> #[trigger] calls_named(t[i]) {
            assert forall|i: int| 0 <= i < s.len() implies #[trigger] calls_named(s[i]) by {
                if i < s.len() - 1 {
                    assert(t[i] == s[i]);
                    assert(calls_named(t[i]));
                }
            }
        }
    }
}

/// A value found in a well-typed scope is well typed.
pub proof fn lemma_lookup_typed(s: Scope, n: Seq<char>)
    requires
        scope_typed(s),
    ensures
        env_lookup(s, n) matches Some(v) ==> value_typed(v),
{
    lemma_scope_typed(s);
    lemma_env_index(s, n);
}

// ----- types depend on lookups only -----

pub open spec fn same_lookups(t1: TypeEnv, t2: TypeEnv) -> bool {
    forall|n: Seq<char>| #[trigger] env_lookup(t1, n) == env_lookup(t2, n)
}

pub proof fn lemma_type_of_ext(e: SpecExpr, t1: TypeEnv, t2: TypeEnv)
    requires
        same_lookups(t1, t2),
    ensures
        type_of(e, t1) == type_of(e, t2),
    decreases e,
{
    match e {
        SpecExpr::Identifier(n) => {
            assert(env_lookup(t1, n) == env_lookup(t2, n));
        },
        SpecExpr::BitsLiteral(_) => {},
        SpecExpr::Binary { op, left, right } => {
            lemma_type_of_ext(*left, t1, t2);
            lemma_type_of_ext(*right, t1, t2);
        },
        SpecExpr::Call { callee, args } => {
            lemma_type_of_ext(*callee, t1, t2);
            lemma_type_args_ext(args, t1, t2);
        },
        SpecExpr::Grouping(g) => {
            lemma_type_of_ext(*g, t1, t2);
        },
    }
}

pub proof fn lemma_type_args_ext(args: Seq<SpecExpr>, t1: TypeEnv, t2: TypeEnv)
    requires
        same_lookups(t1, t2),
    ensures
        type_args(args, t1) == type_args(args, t2),
    decreases args,
{
    if args.len() > 0 {
        lemma_type_args_ext(args.drop_last(), t1, t2);
        lemma_type_of_ext(args.last(), t1, t2);
    }
}

// ----- well-typed expressions evaluate -----

/// A well-typed expression evaluates, to a value of its type, where names
/// resolve to values of the types the checker gave them.
pub proof fn lemma_expr_sound(e: SpecExpr, scope: Scope, locals: Seq<(Seq<char>, Bits)>, tenv: TypeEnv)
    requires
        scope_typed(scope),
        ctx_agrees(scope, locals, tenv),
        calls_named(e),
        type_of(e, tenv) is Ok,
    ensures
        eval_spec(e, scope, locals) is Ok,
        value_type(eval_spec(e, scope, locals)->Ok_0) == type_of(e, tenv)->Ok_0,
        value_typed(eval_spec(e, scope, locals)->Ok_0),
    decreases scope, e,
{
    match e {
        SpecExpr::BitsLiteral(b) => {},
        SpecExpr::Identifier(n) => {
            assert(env_lookup(tenv, n) == opt_type(resolve_name(n, scope, locals)));
            lemma_lookup_typed(scope, n);
        },
        SpecExpr::Grouping(g) => {
            lemma_expr_sound(*g, scope, locals, tenv);
        },
        SpecExpr::Binary { op, left, right } => {
            lemma_expr_sound(*left, scope, locals, tenv);
            lemma_expr_sound(*right, scope, locals, tenv);
        },
        SpecExpr::Call { callee, args } => {
            let f = callee->Identifier_0;
            assert(*callee == SpecExpr::Identifier(f));
            assert(env_lookup(tenv, f) == opt_type(resolve_name(f, scope, locals)));
            let (input, output) = match type_of(*callee, tenv)->Ok_0 {
                SpecLanguageType::Function(i, o) => (i, o),
                _ => (Seq::empty(), 0),
            };
            assert(type_of(*callee, tenv)->Ok_0 == SpecLanguageType::Function(input, output));
            assert(local_index(locals, f) < 0);
            let i = env_index(scope, f);
            lemma_env_index(scope, f);
            assert(i >= 0);
            let fv = scope[i].1->Function_0;
            assert(scope[i].1 == Value::Function(fv));
            assert(fv.input == input && fv.output == output);
            lemma_calls_named_all(args);
            lemma_args_sound(args, scope, locals, tenv);
            let vals = eval_args_spec(args, scope, locals)->Ok_0;
            let ns = type_args(args, tenv)->Ok_0;
            assert(ns == input);
            lemma_scope_typed(scope);
            assert(value_typed(scope[i].1));
            let c = fv.func;
            assert(closure_typed(c, input, output));
            let bits = bits_of(vals);
            assert forall|k: int| 0 <= k < bits.len() implies (#[trigger] bits[k]).length == input[k] by {
                assert(vals[k] is Bits);
            }
            lemma_call_ctx(c.scope, c.params, bits, input);
            assert(decreases_to!(scope => scope[i]));
            assert(decreases_to!(scope[i] => scope[i].1));
            assert(decreases_to!(scope[i].1 => fv));
            assert(decreases_to!(fv => fv.func));
            assert(decreases_to!(fv.func => fv.func.scope));
            lemma_expr_sound(c.body, c.scope, bind_params(c.params, bits), bind_names(scope_types(c.scope), c.params, input));
            assert(all_bits(vals));
        },
    }
}

pub proof fn lemma_args_sound(args: Seq<SpecExpr>, scope: Scope, locals: Seq<(Seq<char>, Bits)>, tenv: TypeEnv)
    requires
        scope_typed(scope),
        ctx_agrees(scope, locals, tenv),
        forall|i: int| 0 <= i < args.len() ==> #[trigger] calls_named(args[i]),
        type_args(args, tenv) is Ok,
    ensures
        eval_args_spec(args, scope, locals) is Ok,
        eval_args_spec(args, scope, locals)->Ok_0.len() == args.len(),
        type_args(args, tenv)->Ok_0.len() == args.len(),
        forall|i: int| 0 <= i < args.len() ==> (#[trigger] eval_args_spec(args, scope, locals)->Ok_0[i]) is Bits
            && eval_args_spec(args, scope, locals)->Ok_0[i]->Bits_0.length == type_args(args, tenv)->Ok_0[i],
    decreases scope, args,
{
    if args.len() > 0 {
        let t = args.drop_last();
        assert forall|i: int| 0 <= i < t.len() implies #[trigger] calls_named(t[i]) by {
            assert(t[i] == args[i]);
        }
        assert(calls_named(args[args.len() - 1]));
        lemma_args_sound(t, scope, locals, tenv);
        lemma_expr_sound(args.last(), scope, locals, tenv);
    }
}


// ----- declarations -----

proof fn lemma_param_sizes(params: Seq<SpecParam>)
    ensures
        param_lengths(params) matches Some(ns) ==> param_sizes(params) == Ok::<Seq<usize>, SpecRuntimeError>(ns)
            && ns.len() == params.len()
            && forall|i: int| 0 <= i < params.len() ==> #[trigger] params[i].ty == Type::Bits(ns[i]),
    decreases params.len(),
{
    if params.len() > 0 {
        lemma_param_sizes(params.drop_last());
        if let Some(ns) = param_lengths(params) {
            let t = params.drop_last();
            assert forall|i: int| 0 <= i < params.len() implies #[trigger] params[i].ty == Type::Bits(ns[i]) by {
                if i < params.len() - 1 {
                    assert(params[i] == t[i]);
                }
            }
        }
    }
}

proof fn lemma_bind_param_types(t: TypeEnv, params: Seq<SpecParam>, ns: Seq<usize>, n: Seq<char>)
    requires
        ns.len() >= params.len(),
        forall|i: int| 0 <= i < params.len() ==> #[trigger] params[i].ty == Type::Bits(ns[i]),
    ensures
        env_lookup(bind_param_types(t, params), n) == env_lookup(
            bind_names(t, params.map_values(|p: SpecParam| p.name), ns),
            n,
        ),
    decreases params.len(),
{
    let names = params.map_values(|p: SpecParam| p.name);
    if params.len() > 0 {
        let pt = params.drop_last();
        assert forall|i: int| 0 <= i < pt.len() implies #[trigger] pt[i].ty == Type::Bits(ns[i]) by {
            assert(pt[i] == params[i]);
        }
        lemma_bind_param_types(t, pt, ns, n);
        assert(names.drop_last() =~= pt.map_values(|p: SpecParam| p.name));
        let last = params.last();
        assert(last.ty == Type::Bits(ns[params.len() - 1]));
        let a = bind_param_types(t, pt);
        let b = bind_names(t, names.drop_last(), ns);
        let v = SpecLanguageType::Bits(ns[params.len() - 1]);
        if last.name == n {
            lemma_lookup_insert_same(a, last.name, v);
            lemma_lookup_insert_same(b, last.name, v);
        } else {
            lemma_lookup_insert_other(a, last.name, v, n);
            lemma_lookup_insert_other(b, last.name, v, n);
        }
    }
}

/// A function the checker accepts becomes a well-typed function value of
/// the type the checker gave it.
proof fn lemma_function_sound(env: Scope, tenv: TypeEnv, f: crate::interpreter::parser::ast_types::SpecFunctionDecl)
    requires
        scope_typed(env),
        ctx_agrees(env, Seq::empty(), tenv),
        calls_named(f.body),
        check_function(tenv, f) is Ok,
    ensures
        function_value(env, f) matches Ok(fv) && value_typed(Value::Function(fv))
            && check_function(tenv, f) == Ok::<TypeEnv, crate::interpreter::type_checker::type_error::SpecTypeError>(
                env_insert(tenv, f.name, value_type(Value::Function(fv))),
            ),
{
    lemma_param_sizes(f.params);
    let ns = param_lengths(f.params)->Some_0;
    let out = f.return_type->Bits_0;
    let names = f.params.map_values(|p: SpecParam| p.name);
    let t1 = bind_param_types(tenv, f.params);
    let t2 = bind_names(scope_types(env), names, ns);
    assert forall|n: Seq<char>| #[trigger] env_lookup(t1, n) == env_lookup(t2, n) by {
        lemma_bind_param_types(tenv, f.params, ns, n);
        lemma_bind_param_types(scope_types(env), f.params, ns, n);
        lemma_bind_names_lookup(tenv, names, ns, n);
        lemma_bind_names_lookup(scope_types(env), names, ns, n);
        lemma_scope_types_lookup(env, n);
        assert(env_lookup(tenv, n) == opt_type(resolve_name(n, env, Seq::empty())));
    }
    lemma_type_of_ext(f.body, t1, t2);
}

/// The registers named in the checker's table are those of the
/// evaluator's.
proof fn lemma_tables(regs: Seq<SpecQubitDecl>, n: Seq<char>)
    ensures
        (env_lookup(register_table(regs), n) is Some) <==> (size_of_ref(lookup_table(regs), n) is Some),
    decreases regs.len(),
{
    lemma_size_of_ref_some(lookup_table(regs), n);
    lemma_register_table_some(regs, n);
}

proof fn lemma_size_of_ref_some(t: Lookup, n: Seq<char>)
    ensures
        (size_of_ref(t, n) is Some) <==> exists|j: int| 0 <= j < t.len() && #[trigger] t[j].0 == n,
    decreases t.len(),
{
    if t.len() > 0 {
        lemma_size_of_ref_some(t.skip(1), n);
        if exists|j: int| 0 <= j < t.len() && #[trigger] t[j].0 == n {
            let j = choose|j: int| 0 <= j < t.len() && #[trigger] t[j].0 == n;
            if j > 0 && t[0].0 != n {
                assert(t.skip(1)[j - 1] == t[j]);
            }
        }
        if exists|j: int| 0 <= j < t.skip(1).len() && #[trigger] t.skip(1)[j].0 == n {
            let j = choose|j: int| 0 <= j < t.skip(1).len() && #[trigger] t.skip(1)[j].0 == n;
            assert(t[j + 1] == t.skip(1)[j]);
        }
    }
}

proof fn lemma_register_table_some(regs: Seq<SpecQubitDecl>, n: Seq<char>)
    ensures
        (env_lookup(register_table(regs), n) is Some) <==> exists|j: int| 0 <= j < regs.len() && #[trigger] lookup_table(regs)[j].0 == n,
    decreases regs.len(),
{
    if regs.len() > 0 {
        let r = regs.drop_last();
        lemma_register_table_some(r, n);
        let t = register_table(r);
        let k = regs.last().name;
        let v = crate::interpreter::type_checker::byte_len(regs.last().init);
        if k == n {
            lemma_lookup_insert_same(t, k, v);
            assert(lookup_table(regs)[regs.len() - 1].0 == n);
        } else {
            lemma_lookup_insert_other(t, k, v, n);
            if exists|j: int| 0 <= j < regs.len() && #[trigger] lookup_table(regs)[j].0 == n {
                let j = choose|j: int| 0 <= j < regs.len() && #[trigger] lookup_table(regs)[j].0 == n;
                assert(j < regs.len() - 1);
                assert(lookup_table(r)[j] == lookup_table(regs)[j]);
            }
            if exists|j: int| 0 <= j < r.len() && #[trigger] lookup_table(r)[j].0 == n {
                let j = choose|j: int| 0 <= j < r.len() && #[trigger] lookup_table(r)[j].0 == n;
                assert(lookup_table(r)[j] == lookup_table(regs)[j]);
            }
        }
    }
}

/// The failures that a well-typed program may still meet at runtime.
pub open spec fn allowed_failure(e: SpecRuntimeError) -> bool {
    e is OutOfBounds || e is OracleConstructionFailed || e is MethodUndefined
}

/// The qubits of arguments that the checker counted can be found, unless
/// an index lies past its register.
proof fn lemma_targets_sound(regs: Seq<SpecQubitDecl>, args: Seq<SpecCircuitRef>)
    requires
        qubit_count(args, register_table(regs)) is Ok,
    ensures
        arg_targets(lookup_table(regs), args) matches Err(e) ==> e is OutOfBounds,
    decreases args.len(),
{
    if args.len() > 0 {
        lemma_targets_sound(regs, args.drop_last());
        let a = args.last();
        lemma_tables(regs, a.name);
        let t = lookup_table(regs);
        match a.applies {
            Applies::One(p) => {
                lemma_index_bound(t, a.name, p);
                lemma_index_kinds(t, a.name, p);
            },
            Applies::All => {
                lemma_index_bound(t, a.name, 0);
                lemma_index_kinds(t, a.name, 0);
            },
        }
    }
}

proof fn lemma_index_kinds(t: Lookup, n: Seq<char>, p: usize)
    ensures
        size_of_ref(t, n) is Some ==> (index_of_ref(t, n, p) matches Err(e) ==> e is OutOfBounds),
    decreases t.len(),
{
    if t.len() > 0 {
        lemma_index_kinds(t.skip(1), n, p);
    }
}


// ----- statements -----

proof fn lemma_agrees_insert(env: Scope, tenv: TypeEnv, k: Seq<char>, v: Value)
    requires
        scope_typed(env),
        ctx_agrees(env, Seq::empty(), tenv),
        value_typed(v),
    ensures
        scope_typed(env_insert(env, k, v)),
        ctx_agrees(env_insert(env, k, v), Seq::empty(), env_insert(tenv, k, value_type(v))),
{
    let e2 = env_insert(env, k, v);
    let t2 = env_insert(tenv, k, value_type(v));
    assert forall|n: Seq<char>| #[trigger] env_lookup(t2, n) == opt_type(resolve_name(n, e2, Seq::empty())) by {
        assert(env_lookup(tenv, n) == opt_type(resolve_name(n, env, Seq::empty())));
        if n == k {
            lemma_lookup_insert_same(env, k, v);
            lemma_lookup_insert_same(tenv, k, value_type(v));
        } else {
            lemma_lookup_insert_other(env, k, v, n);
            lemma_lookup_insert_other(tenv, k, value_type(v), n);
        }
    }
    lemma_scope_typed(env);
    lemma_scope_typed(e2);
    lemma_env_index(env, k);
    assert forall|i: int| 0 <= i < e2.len() implies #[trigger] value_typed(e2[i].1) by {
        if i < env.len() && e2[i] != (k, v) {
            assert(e2[i] == env[i]);
        }
    }
}

proof fn lemma_instruction_sound(env: Scope, tenv: TypeEnv, regs: Seq<SpecQubitDecl>, instr: SpecCircuitInstr)
    requires
        ctx_agrees(env, Seq::empty(), tenv),
        check_instruction(tenv, register_table(regs), instr) is Ok,
    ensures
        instruction_ops(env, lookup_table(regs), instr) matches Err(e) ==> allowed_failure(e),
{
    lemma_targets_sound(regs, instr.args);
    assert(env_lookup(tenv, instr.name) == opt_type(resolve_name(instr.name, env, Seq::empty())));
}

proof fn lemma_circuit_sound(env: Scope, tenv: TypeEnv, regs: Seq<SpecQubitDecl>, instrs: Seq<SpecCircuitInstr>)
    requires
        ctx_agrees(env, Seq::empty(), tenv),
        check_instructions(tenv, register_table(regs), instrs) is Ok,
    ensures
        circuit_ops(env, lookup_table(regs), instrs) matches Err(e) ==> allowed_failure(e),
    decreases instrs.len(),
{
    if instrs.len() > 0 {
        lemma_circuit_sound(env, tenv, regs, instrs.drop_last());
        lemma_instruction_sound(env, tenv, regs, instrs.last());
    }
}

/// The statements whose evaluation reaches expressions call functions by
/// name.
pub open spec fn stmt_calls_named(s: SpecStatement) -> bool {
    match s {
        SpecStatement::Assignment(a) => calls_named(a.value),
        SpecStatement::Function(f) => calls_named(f.body),
        _ => true,
    }
}

/// A statement the checker accepts, evaluated in bindings that agree with
/// the checker's types, fails only on an index past a register, a gate on
/// the wrong number of qubits or an unknown method; otherwise the bindings
/// agree with the checker's again.
pub proof fn lemma_stmt_sound(env: Scope, tenv: TypeEnv, s: SpecStatement)
    requires
        scope_typed(env),
        ctx_agrees(env, Seq::empty(), tenv),
        stmt_calls_named(s),
        check_stmt(tenv, s) is Ok,
    ensures
        match stmt_step(env, s) {
            Err(e) => allowed_failure(e),
            Ok(StepValue::Next(env2)) => scope_typed(env2) && ctx_agrees(env2, Seq::empty(), check_stmt(tenv, s)->Ok_0),
            Ok(StepValue::Act(a)) => check_stmt(tenv, s)->Ok_0 == tenv,
        },
{
    match s {
        SpecStatement::Expr(_) => {},
        SpecStatement::Assignment(a) => {
            lemma_expr_sound(a.value, env, Seq::empty(), tenv);
            let v = eval_spec(a.value, env, Seq::empty())->Ok_0;
            lemma_agrees_insert(env, tenv, a.name, v);
        },
        SpecStatement::Function(f) => {
            lemma_function_sound(env, tenv, f);
            let fv = function_value(env, f)->Ok_0;
            lemma_agrees_insert(env, tenv, f.name, Value::Function(fv));
        },
        SpecStatement::Oracle(o) => {
            assert(env_lookup(tenv, o.loads) == opt_type(resolve_name(o.loads, env, Seq::empty())));
            if let Some(Value::Function(f)) = env_lookup(env, o.loads) {
                let v = Value::Oracle(o.params[0].ty->Qubits_0, o.params[1].ty->Qubits_0, f);
                lemma_agrees_insert(env, tenv, o.name, v);
            }
        },
        SpecStatement::Circuit(c) => {
            lemma_circuit_sound(env, tenv, c.registers, c.instructions);
            if let Ok(ops) = circuit_ops(env, lookup_table(c.registers), c.instructions) {
                let v = Value::Circuit(crate::interpreter::evaluator::semantics::register_pattern(c.registers), ops);
                lemma_agrees_insert(env, tenv, c.name, v);
            }
        },
        SpecStatement::MethodCall(m) => {
            assert(env_lookup(tenv, m.name) == opt_type(resolve_name(m.name, env, Seq::empty())));
        },
    }
}


// ----- programs -----

proof fn lemma_prefix_checks(t0: TypeEnv, s: Seq<SpecStatement>, k: int)
    requires
        0 <= k <= s.len(),
        check_program(t0, s).1 is None,
    ensures
        check_program(t0, s.take(k)).1 is None,
    decreases s.len() - k,
{
    if k < s.len() {
        lemma_prefix_checks(t0, s, k + 1);
        assert(s.take(k + 1).drop_last() =~= s.take(k));
    } else {
        assert(s.take(k) =~= s);
    }
}

proof fn lemma_check_step(t0: TypeEnv, s: Seq<SpecStatement>, i: int)
    requires
        0 <= i < s.len(),
        check_program(t0, s).1 is None,
    ensures
        check_stmt(check_program(t0, s.take(i)).0, s[i]) == Ok::<TypeEnv, crate::interpreter::type_checker::type_error::SpecTypeError>(
            check_program(t0, s.take(i + 1)).0,
        ),
{
    lemma_prefix_checks(t0, s, i);
    lemma_prefix_checks(t0, s, i + 1);
    assert(s.take(i + 1).drop_last() =~= s.take(i));
    assert(s.take(i + 1).last() == s[i]);
}

/// A program that the type checker accepts runs without type failures:
/// evaluated from statement `i`, in bindings that agree with the types the
/// checker gave after the first `i` statements, it fails only on an index
/// past a register, a gate given the wrong number of qubits or an unknown
/// circuit method, never hands over an oracle whose function takes no
/// input, and where it stops without failing the bindings agree again with
/// the checker's types at that point.
pub proof fn lemma_well_typed_run(env: Scope, stmts: Seq<SpecStatement>, i: int)
    requires
        check_program(Seq::empty(), stmts).1 is None,
        forall|k: int| 0 <= k < stmts.len() ==> #[trigger] stmt_calls_named(stmts[k]),
        0 <= i <= stmts.len(),
        scope_typed(env),
        ctx_agrees(env, Seq::empty(), check_program(Seq::empty(), stmts.take(i)).0),
    ensures
        ({
            let (env2, p, r) = run_from(env, stmts, i);
            &&& r matches Err(e) ==> allowed_failure(e)
            &&& r is Ok ==> i <= p <= stmts.len() && scope_typed(env2)
                && ctx_agrees(env2, Seq::empty(), check_program(Seq::empty(), stmts.take(p)).0)
        }),
    decreases stmts.len() - i,
{
    if i < stmts.len() {
        let tenv = check_program(Seq::empty(), stmts.take(i)).0;
        lemma_check_step(Seq::empty(), stmts, i);
        lemma_stmt_sound(env, tenv, stmts[i]);
        match stmt_step(env, stmts[i]) {
            Err(_) => {},
            Ok(StepValue::Act(_)) => {},
            Ok(StepValue::Next(env2)) => {
                lemma_well_typed_run(env2, stmts, i + 1);
            },
        }
    }
}

/// The bindings an evaluation starts from agree with the checker's types
/// before the first statement.
pub proof fn lemma_empty_agrees(stmts: Seq<SpecStatement>)
    ensures
        scope_typed(Seq::empty()),
        ctx_agrees(Seq::empty(), Seq::empty(), check_program(Seq::empty(), stmts.take(0)).0),
{
    assert(stmts.take(0) =~= Seq::<SpecStatement>::empty());
    assert forall|n: Seq<char>| #[trigger] env_lookup(check_program(Seq::empty(), stmts.take(0)).0, n)
        == opt_type(resolve_name(n, Seq::empty(), Seq::empty())) by {
        lemma_env_index(Seq::<(Seq<char>, SpecLanguageType)>::empty(), n);
        lemma_env_index(Seq::<(Seq<char>, Value)>::empty(), n);
    }
}

} // verus!
