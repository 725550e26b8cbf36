pub mod environment;
pub mod eval_circuit;
pub mod eval_expr;
pub mod runtime_error;
pub mod semantics;

use vstd::prelude::*;
use std::sync::Arc;
use crate::engine::black_box::BlackBox;
use crate::engine::gate::{Gate, gate_arity};
use crate::engine::operator::Operator;
use crate::interpreter::bindings::{env_lookup};
use crate::interpreter::evaluator::environment::{
    Bits, Circuit, Closure, Environment, EvaluatorType, Function, Oracle, OpValue, Value,
    copy_gate, copy_operators, copy_value, expr_wf, function_view, lemma_ops_view,
    lemma_ops_wf, lemma_scope_view, lemma_scope_wf, ops_view, ops_wf, op_view, scope_view,
    scope_wf, value_wf, gate_view, closure_view,
};
use crate::interpreter::evaluator::eval_circuit::{
    get_index, lemma_index_bound, lookup_view, register_size,
};
use crate::interpreter::evaluator::eval_expr::{eval_in, eval_spec, locals_view, value_result};
use crate::interpreter::evaluator::runtime_error::{RuntimeError, SpecRuntimeError};
use crate::interpreter::evaluator::semantics::{
    ActionValue, Lookup, Scope, StepValue, arg_targets, arg_value, circuit_ops, function_value,
    index_of_ref, instruction_ops, lookup_table, method_step, oracle_sizes, oracle_step,
    param_sizes, register_pattern, registers_fit, resolve_gate_spec, run_from, size_of_ref,
    stmt_step, total_size,
};
use crate::interpreter::parser::ast_types::{
    Applies, Assignment, CircuitDecl, CircuitInstr, CircuitRef, Expr, FunctionDecl, MethodArg,
    SpecCircuitInstr as CircuitInstrValue, SpecQubitDecl as QubitDeclValue,
    MethodCall, OracleDecl, Param, QubitDecl, SpecStatement, Statement, Type, program_view,
    params_view, refs_view,
};
use crate::interpreter::type_checker::{program_wf, stmt_wf};
use crate::text::{push_str, share, str_eq, string_from_chars};

verus! {

/// A circuit to run a number of times; `verbose` shows the final state.
pub struct MethodJob {
    pub name: String,
    pub circuit: Circuit,
    pub shots: usize,
    pub verbose: bool,
}

/// What the evaluator hands over to be done outside it.
pub enum Action {
    Run(MethodJob),
    /// Print the named circuit.
    PrintCircuit(String),
}

impl View for Action {
    type V = ActionValue;

    open spec fn view(&self) -> ActionValue {
        match self {
            Action::Run(j) => ActionValue::Run {
                name: j.name@,
                init: j.circuit.init@,
                ops: ops_view(j.circuit.ops@),
                shots: j.shots,
                verbose: j.verbose,
            },
            Action::PrintCircuit(n) => ActionValue::PrintCircuit(n@),
        }
    }
}

/// A copy of the bindings, with the same model.
pub fn copy_environment(env: &Environment) -> (res: Environment)
    ensures
        res@ == env@,
{
    let mut entries: Vec<(String, EvaluatorType)> = Vec::new();
    let mut i: usize = 0;
    proof {
        lemma_scope_view(env.entries@);
    }
    while i < env.entries.len()
        invariant
            i <= env.entries@.len(),
            entries@.len() == i,
            scope_view(env.entries@).len() == env.entries@.len(),
            forall|j: int| 0 <= j < env.entries@.len() ==> #[trigger] scope_view(env.entries@)[j]
                == (env.entries@[j].0@, env.entries@[j].1@),
            forall|j: int| 0 <= j < i ==> (#[trigger] entries@[j]).0@ == env.entries@[j].0@
                && entries@[j].1@ == env.entries@[j].1@,
        decreases env.entries@.len() - i,
    {
        let name = env.entries[i].0.clone();
        let value = copy_value(&env.entries[i].1);
        entries.push((name, value));
        i = i + 1;
    }
    let res = Environment { entries };
    proof {
        lemma_scope_view(res.entries@);
        assert(res@ =~= env@);
    }
    res
}

/// The value of the first method argument called `arg_name`.
pub fn get_arg(args: &Vec<MethodArg>, arg_name: &str) -> (res: Option<usize>)
    ensures
        res == arg_value(args@.map_values(|a: MethodArg| a@), arg_name@),
{
    let ghost av = args@.map_values(|a: MethodArg| a@);
    let mut i: usize = 0;
    assert(av.skip(0) =~= av);
    while i < args.len()
        invariant
            i <= args@.len(),
            av == args@.map_values(|a: MethodArg| a@),
            arg_value(av, arg_name@) == arg_value(av.skip(i as int), arg_name@),
        decreases args@.len() - i,
    {
        assert(av.skip(i as int).skip(1) =~= av.skip(i + 1));
        if str_eq(&args[i].name, arg_name) {
            return Some(args[i].value);
        }
        i = i + 1;
    }
    None
}

/// The register sizes `(x, y)` of an oracle `|x, y>`.
pub fn sanitize_oracle(decl: &OracleDecl) -> (res: Result<(usize, usize), RuntimeError>)
    ensures
        match oracle_sizes(decl@) {
            Ok(p) => res == Ok::<(usize, usize), RuntimeError>(p),
            Err(e) => res matches Err(x) && x@ == e,
        },
{
    let length: usize = decl.params.len();
    if length != 2 {
        return Err(RuntimeError::IncorrectArgs(2, length));
    }
    let in_size: usize = match decl.params[0].ty {
        Type::Qubits(n) => n,
        _ => {
            return Err(RuntimeError::TypeMismatch);
        },
    };
    let out_size: usize = match decl.params[1].ty {
        Type::Qubits(n) => n,
        _ => {
            return Err(RuntimeError::TypeMismatch);
        },
    };
    if in_size >= out_size {
        Ok((in_size, out_size))
    } else {
        Err(RuntimeError::OracleConstructionFailed)
    }
}

/// The qubits that the arguments of an instruction name, in order.
pub fn arg_targets_exec(table: &Vec<(String, usize)>, args: &Vec<CircuitRef>) -> (res: Result<Vec<usize>, RuntimeError>)
    requires
        total_size(lookup_view(table@)) <= usize::MAX,
    ensures
        match arg_targets(lookup_view(table@), refs_view(args@)) {
            Ok(ts) => res matches Ok(v) && v@ == ts,
            Err(e) => res matches Err(x) && x@ == e,
        },
{
    let ghost tv = lookup_view(table@);
    let ghost av = refs_view(args@);
    let mut tgts: Vec<usize> = Vec::new();
    let mut i: usize = 0;
    assert(av.take(0) =~= Seq::<crate::interpreter::parser::ast_types::SpecCircuitRef>::empty());
    while i < args.len()
        invariant
            i <= args@.len(),
            tv == lookup_view(table@),
            av == refs_view(args@),
            total_size(tv) <= usize::MAX,
            arg_targets(tv, av.take(i as int)) == Ok::<Seq<usize>, SpecRuntimeError>(tgts@),
        decreases args@.len() - i,
    {
        assert(av.take(i + 1).drop_last() =~= av.take(i as int));
        assert(av.take(i + 1).last() == args@[i as int]@);
        let arg = &args[i];
        match arg.applies {
            Applies::One(n) => {
                match get_index(table, &arg.name, n) {
                    Ok(idx) => tgts.push(idx),
                    Err(e) => {
                        proof {
                            lemma_targets_err_extends(tv, av, i as int + 1);
                        }
                        return Err(e);
                    },
                }
            },
            Applies::All => {
                let idx = match get_index(table, &arg.name, 0) {
                    Ok(idx) => idx,
                    Err(e) => {
                        proof {
                            lemma_targets_err_extends(tv, av, i as int + 1);
                        }
                        return Err(e);
                    },
                };
                let length: usize = match register_size(table, &arg.name) {
                    Some(n) => n,
                    None => {
                        proof {
                            lemma_targets_err_extends(tv, av, i as int + 1);
                        }
                        return Err(RuntimeError::Fatal);
                    },
                };
                proof {
                    lemma_index_bound(tv, arg.name@, 0);
                }
                let ghost before = tgts@;
                let mut k: usize = 0;
                while k < length
                    invariant
                        k <= length,
                        idx + length <= usize::MAX,
                        tgts@ == before + Seq::new(k as nat, |j: int| (idx + j) as usize),
                    decreases length - k,
                {
                    tgts.push(idx + k);
                    k = k + 1;
                    assert(tgts@ =~= before + Seq::new(k as nat, |j: int| (idx + j) as usize));
                }
            },
        }
        i = i + 1;
    }
    assert(av.take(args@.len() as int) =~= av);
    Ok(tgts)
}

proof fn lemma_targets_err_extends(t: Lookup, args: Seq<crate::interpreter::parser::ast_types::SpecCircuitRef>, k: int)
    requires
        0 <= k <= args.len(),
        arg_targets(t, args.take(k)) is Err,
    ensures
        arg_targets(t, args) == arg_targets(t, args.take(k)),
    decreases args.len() - k,
{
    if k < args.len() {
        assert(args.take(k + 1).drop_last() =~= args.take(k));
        lemma_targets_err_extends(t, args, k + 1);
    } else {
        assert(args.take(k) =~= args);
    }
}

/// Runs a program statement by statement, handing method calls over.
pub struct Evaluator {
    program: Vec<Statement>,
    environment: Environment,
    next: usize,
}

impl Evaluator {
    /// The statements of the program.
    pub closed spec fn statements(&self) -> Seq<SpecStatement> {
        program_view(self.program@)
    }

    /// The bindings made so far.
    pub closed spec fn env(&self) -> Scope {
        self.environment@
    }

    /// The index of the next statement to evaluate.
    pub closed spec fn position(&self) -> int {
        self.next as int
    }

    /// Bits literals can be read, circuits fit in `usize`, and every bound
    /// function body has readable literals.
    pub closed spec fn wf(&self) -> bool {
        &&& program_wf(program_view(self.program@))
        &&& registers_fit(program_view(self.program@))
        &&& scope_wf(self.environment@)
    }

    pub fn new(program: Vec<Statement>) -> (res: Self)
        requires
            program_wf(program_view(program@)),
            registers_fit(program_view(program@)),
        ensures
            res.wf(),
            res.statements() == program_view(program@),
            res.env() == Seq::<(Seq<char>, Value)>::empty(),
            res.position() == 0,
    {
        let environment = Environment::new();
        Evaluator { program, environment, next: 0 }
    }

    /// The value of an expression in the current bindings.
    pub fn eval_expr(&self, expr: &Expr) -> (res: Result<EvaluatorType, RuntimeError>)
        requires
            self.wf(),
            expr_wf(expr@),
        ensures
            value_result(res) == eval_spec(expr@, self.env(), Seq::empty()),
    {
        let locals: Vec<(String, Bits)> = Vec::new();
        assert(locals_view(locals@) =~= Seq::empty());
        eval_in(expr, &self.environment, &locals)
    }
}


/// How one statement's evaluation relates to its meaning: the bindings move
/// on, an action is handed over, or the statement fails and the bindings
/// stay.
pub open spec fn step_outcome(
    step: Result<StepValue, SpecRuntimeError>,
    before: Scope,
    after: Scope,
    res: Result<Option<Action>, RuntimeError>,
) -> bool {
    match step {
        Ok(StepValue::Next(e2)) => res matches Ok(None) && after == e2,
        Ok(StepValue::Act(a)) => res matches Ok(Some(x)) && x@ == a && after == before,
        Err(e) => res matches Err(x) && x@ == e && after == before,
    }
}

/// Binding a well-formed value keeps the bindings well formed.
proof fn lemma_scope_wf_insert(env: Scope, k: Seq<char>, v: Value)
    requires
        scope_wf(env),
        value_wf(v),
    ensures
        scope_wf(crate::interpreter::bindings::env_insert(env, k, v)),
{
    let e2 = crate::interpreter::bindings::env_insert(env, k, v);
    lemma_scope_wf(env);
    lemma_scope_wf(e2);
    crate::interpreter::bindings::lemma_env_index(env, k);
    assert forall|i: int| 0 <= i < e2.len() implies #[trigger] value_wf(e2[i].1) by {
        if i < env.len() && e2[i] != (k, v) {
            assert(e2[i] == env[i]);
        }
    }
}

/// A value found in well-formed bindings is well formed.
proof fn lemma_lookup_wf(env: Scope, k: Seq<char>)
    requires
        scope_wf(env),
    ensures
        env_lookup(env, k) matches Some(v) ==> value_wf(v),
{
    lemma_scope_wf(env);
    crate::interpreter::bindings::lemma_env_index(env, k);
}

impl Evaluator {
    /// `bits name = value;`
    fn eval_assignment(&mut self, bits: &Assignment) -> (res: Result<Option<Action>, RuntimeError>)
        requires
            old(self).wf(),
            expr_wf(bits.value@),
        ensures
            final(self).wf(),
            final(self).statements() == old(self).statements(),
            final(self).position() == old(self).position(),
            step_outcome(stmt_step(old(self).env(), SpecStatement::Assignment(bits@)), old(self).env(), final(self).env(), res),
    {
        let var_name: String = bits.name.clone();
        let literal: Bits = match self.eval_expr(&bits.value) {
            Ok(EvaluatorType::Bits(b)) => b,
            Ok(_) => {
                return Err(RuntimeError::TypeMismatch);
            },
            Err(e) => {
                return Err(e);
            },
        };
        proof {
            lemma_scope_wf_insert(self.environment@, var_name@, Value::Bits(literal));
        }
        self.environment.insert(var_name, EvaluatorType::Bits(literal));
        Ok(None)
    }

    /// `function name(params) -> bits[n] { body }` binds a function whose
    /// body sees the bindings made so far.
    fn eval_function_decl(&mut self, decl: &FunctionDecl) -> (res: Result<Option<Action>, RuntimeError>)
        requires
            old(self).wf(),
            expr_wf(decl.body@),
        ensures
            final(self).wf(),
            final(self).statements() == old(self).statements(),
            final(self).position() == old(self).position(),
            step_outcome(stmt_step(old(self).env(), SpecStatement::Function(decl@)), old(self).env(), final(self).env(), res),
    {
        let func_name: String = decl.name.clone();
        let output: usize = match decl.return_type {
            Type::Bits(n) => n,
            _ => {
                return Err(RuntimeError::TypeMismatch);
            },
        };
        let ghost pv = params_view(decl.params@);
        let mut input: Vec<usize> = Vec::new();
        let mut names: Vec<String> = Vec::new();
        let mut i: usize = 0;
        assert(pv.take(0) =~= Seq::<crate::interpreter::parser::ast_types::SpecParam>::empty());
        while i < decl.params.len()
            invariant
                i <= decl.params@.len(),
                pv == params_view(decl.params@),
                self.wf(),
                *self == *old(self),
                param_sizes(pv.take(i as int)) == Ok::<Seq<usize>, SpecRuntimeError>(input@),
                names@.len() == i,
                forall|j: int| 0 <= j < i ==> (#[trigger] names@[j])@ == decl.params@[j].name@,
            decreases decl.params@.len() - i,
        {
            assert(pv.take(i + 1).drop_last() =~= pv.take(i as int));
            let size: usize = match decl.params[i].ty {
                Type::Bits(n) => n,
                _ => {
                    proof {
                        lemma_param_sizes_err(pv, i as int + 1);
                    }
                    return Err(RuntimeError::TypeMismatch);
                },
            };
            input.push(size);
            names.push(decl.params[i].name.clone());
            i = i + 1;
        }
        assert(pv.take(decl.params@.len() as int) =~= pv);
        let scope = copy_environment(&self.environment);
        let body = decl.body.clone();
        let closure = Closure { params: names, body, scope };
        let ghost fv = function_value(self.environment@, decl@)->Ok_0;
        assert(closure_view(closure).params =~= fv.func.params);
        let func = Function { input, output, func: Arc::new(closure) };
        assert(function_view(func) == fv);
        proof {
            lemma_scope_wf_insert(self.environment@, func_name@, Value::Function(fv));
        }
        self.environment.insert(func_name, EvaluatorType::Function(func));
        Ok(None)
    }

    /// `oracle name(x: qubits[n], y: qubits[m]) loads f;` binds the oracle
    /// of `f`: `n` and `m` must be above zero, and `f` must take exactly
    /// one bitstring, of length `n`, and return one of length `m`.
    fn eval_oracle_decl(&mut self, decl: &OracleDecl) -> (res: Result<Option<Action>, RuntimeError>)
        requires
            old(self).wf(),
        ensures
            final(self).wf(),
            final(self).statements() == old(self).statements(),
            final(self).position() == old(self).position(),
            step_outcome(stmt_step(old(self).env(), SpecStatement::Oracle(decl@)), old(self).env(), final(self).env(), res),
    {
        let oracle_name: String = decl.name.clone();
        let oracle_loads: String = decl.loads.clone();
        proof {
            lemma_lookup_wf(self.environment@, oracle_loads@);
        }
        let f: Function = match self.environment.get(&oracle_loads) {
            None => {
                return Err(RuntimeError::VarNotFound(oracle_loads));
            },
            Some(EvaluatorType::Function(f)) => f.clone(),
            Some(_) => {
                return Err(RuntimeError::TypeMismatch);
            },
        };
        let (in_size, out_size) = match sanitize_oracle(decl) {
            Ok(p) => p,
            Err(e) => {
                return Err(e);
            },
        };
        if in_size == 0 || out_size == 0 || f.input.len() != 1 {
            return Err(RuntimeError::OracleConstructionFailed);
        }
        if f.input[0] != in_size {
            return Err(RuntimeError::OracleConstructionFailed);
        }
        if f.output != out_size {
            return Err(RuntimeError::OracleConstructionFailed);
        }
        let ghost fv = function_view(f);
        let oracle = Oracle { input: (in_size, out_size), loads: f };
        proof {
            lemma_scope_wf_insert(self.environment@, oracle_name@, Value::Oracle(in_size, out_size, fv));
        }
        self.environment.insert(oracle_name, EvaluatorType::Oracle(oracle));
        Ok(None)
    }
}

proof fn lemma_param_sizes_err(p: Seq<crate::interpreter::parser::ast_types::SpecParam>, k: int)
    requires
        0 <= k <= p.len(),
        param_sizes(p.take(k)) is Err,
    ensures
        param_sizes(p) == param_sizes(p.take(k)),
    decreases p.len() - k,
{
    if k < p.len() {
        assert(p.take(k + 1).drop_last() =~= p.take(k));
        lemma_param_sizes_err(p, k + 1);
    } else {
        assert(p.take(k) =~= p);
    }
}


/// The gates of a circuit built in well-formed bindings are well formed.
proof fn lemma_circuit_ops_wf(env: Scope, table: Lookup, instrs: Seq<CircuitInstrValue>)
    requires
        scope_wf(env),
    ensures
        circuit_ops(env, table, instrs) matches Ok(ops) ==> ops_wf(ops),
    decreases instrs.len(),
{
    if instrs.len() > 0 {
        lemma_circuit_ops_wf(env, table, instrs.drop_last());
        let i = instrs.last();
        lemma_lookup_wf(env, i.name);
        if let Ok(ops) = circuit_ops(env, table, instrs.drop_last()) {
            if let Ok(more) = instruction_ops(env, table, i) {
                lemma_ops_wf(ops);
                lemma_ops_wf(more);
                lemma_ops_wf(ops + more);
                assert forall|k: int| 0 <= k < (ops + more).len() implies #[trigger] crate::interpreter::evaluator::environment::gate_wf((ops + more)[k].gate) by {
                    if k < ops.len() {
                        assert((ops + more)[k] == ops[k]);
                    } else {
                        assert((ops + more)[k] == more[k - ops.len()]);
                    }
                }
            }
        }
    }
}

proof fn lemma_ops_view_append(a: Seq<Operator>, b: Seq<Operator>)
    ensures
        ops_view(a + b) == ops_view(a) + ops_view(b),
{
    lemma_ops_view(a);
    lemma_ops_view(b);
    lemma_ops_view(a + b);
    assert(ops_view(a + b) =~= ops_view(a) + ops_view(b));
}

proof fn lemma_circuit_ops_err(env: Scope, table: Lookup, instrs: Seq<CircuitInstrValue>, k: int)
    requires
        0 <= k <= instrs.len(),
        circuit_ops(env, table, instrs.take(k)) is Err,
    ensures
        circuit_ops(env, table, instrs) == circuit_ops(env, table, instrs.take(k)),
    decreases instrs.len() - k,
{
    if k < instrs.len() {
        assert(instrs.take(k + 1).drop_last() =~= instrs.take(k));
        lemma_circuit_ops_err(env, table, instrs, k + 1);
    } else {
        assert(instrs.take(k) =~= instrs);
    }
}

impl Evaluator {
    /// A gate by name (`gate_name`): an oracle in scope (which may shadow a
    /// built-in gate), else a built-in gate; a measurement takes `m_arity`
    /// qubits.
    fn resolve_gate(&self, gate_name: &String, m_arity: usize) -> (res: Result<Gate, RuntimeError>)
        requires
            self.wf(),
        ensures
            match resolve_gate_spec(self.env(), gate_name@, m_arity) {
                Ok(g) => res matches Ok(x) && x@ == g,
                Err(e) => res matches Err(x) && x@ == e,
            },
    {
        match self.environment.get(gate_name) {
            Some(EvaluatorType::Oracle(o)) => {
                let (x, y): (usize, usize) = (o.input.0, o.input.1);
                let bb: BlackBox = BlackBox::new(share(&o.loads.func), x, y);
                return Ok(Gate::BlackBox(bb));
            },
            Some(_) => {
                return Err(RuntimeError::TypeMismatch);
            },
            None => {},
        }
        if str_eq(gate_name, "H") {
            Ok(Gate::Hadamard)
        } else if str_eq(gate_name, "X") {
            Ok(Gate::RotateX)
        } else if str_eq(gate_name, "Y") {
            Ok(Gate::RotateY)
        } else if str_eq(gate_name, "Z") {
            Ok(Gate::RotateZ)
        } else if str_eq(gate_name, "T") {
            Ok(Gate::ShiftT)
        } else if str_eq(gate_name, "S") {
            Ok(Gate::ShiftS)
        } else if str_eq(gate_name, "CNOT") {
            Ok(Gate::CNot)
        } else if str_eq(gate_name, "SWAP") {
            Ok(Gate::Swap)
        } else if str_eq(gate_name, "CZ") {
            Ok(Gate::CZ)
        } else if str_eq(gate_name, "CCNOT") {
            Ok(Gate::Toffoli)
        } else if str_eq(gate_name, "CSWAP") {
            Ok(Gate::CSwap)
        } else if str_eq(gate_name, "measure") {
            Ok(Gate::Measure(m_arity))
        } else {
            Err(RuntimeError::VarNotFound(gate_name.clone()))
        }
    }

    /// The operations of one circuit instruction.
    fn instruction_ops_exec(&self, table: &Vec<(String, usize)>, instruction: &CircuitInstr) -> (res: Result<Vec<Operator>, RuntimeError>)
        requires
            self.wf(),
            total_size(lookup_view(table@)) <= usize::MAX,
        ensures
            match instruction_ops(self.env(), lookup_view(table@), instruction@) {
                Ok(ops) => res matches Ok(v) && ops_view(v@) == ops,
                Err(e) => res matches Err(x) && x@ == e,
            },
    {
        let tgts = match arg_targets_exec(table, &instruction.args) {
            Ok(t) => t,
            Err(e) => {
                return Err(e);
            },
        };
        let gate: Gate = match self.resolve_gate(&instruction.name, tgts.len()) {
            Ok(g) => g,
            Err(e) => {
                return Err(e);
            },
        };
        let mut ops: Vec<Operator> = Vec::new();
        if gate.arity() == 1 {
            let mut k: usize = 0;
            while k < tgts.len()
                invariant
                    k <= tgts@.len(),
                    gate_arity(gate@) == 1,
                    ops@.len() == k,
                    forall|j: int| 0 <= j < k ==> op_view(#[trigger] ops@[j]) == (OpValue { gate: gate@, targets: seq![tgts@[j]] }),
                decreases tgts@.len() - k,
            {
                let mut one: Vec<usize> = Vec::new();
                one.push(tgts[k]);
                assert(one@ =~= seq![tgts@[k as int]]);
                match Operator::new(copy_gate(&gate), one) {
                    Some(op) => ops.push(op),
                    None => {
                        return Err(RuntimeError::Fatal);
                    },
                }
                k = k + 1;
            }
            proof {
                lemma_ops_view(ops@);
                assert(ops_view(ops@) =~= Seq::new(tgts@.len(), |j: int| OpValue { gate: gate@, targets: seq![tgts@[j]] }));
            }
        } else {
            let ghost gv = gate@;
            let ghost tv = tgts@;
            match Operator::new(gate, tgts) {
                Some(op) => ops.push(op),
                None => {
                    return Err(RuntimeError::OracleConstructionFailed);
                },
            }
            proof {
                lemma_ops_view(ops@);
                assert(ops_view(ops@) =~= seq![OpValue { gate: gv, targets: tv }]);
            }
        }
        Ok(ops)
    }

    /// `circuit name { register: ... apply: ... }` binds the circuit: the
    /// registers' patterns one after the other, and the operations of its
    /// instructions in order.
    pub fn eval_circuit_decl(&mut self, decl: &CircuitDecl) -> (res: Result<(), RuntimeError>)
        requires
            old(self).wf(),
            total_size(lookup_table(decl@.registers)) <= usize::MAX,
        ensures
            final(self).wf(),
            final(self).statements() == old(self).statements(),
            final(self).position() == old(self).position(),
            match stmt_step(old(self).env(), SpecStatement::Circuit(decl@)) {
                Ok(StepValue::Next(e2)) => res is Ok && final(self).env() == e2,
                Ok(StepValue::Act(_)) => false,
                Err(e) => res matches Err(x) && x@ == e && final(self).env() == old(self).env(),
            },
    {
        let ghost regs = decl@.registers;
        let mut register_str: Vec<char> = Vec::new();
        let mut lookup: Vec<(String, usize)> = Vec::new();
        let mut i: usize = 0;
        assert(regs.take(0) =~= Seq::<QubitDeclValue>::empty());
        assert(lookup_view(lookup@) =~= lookup_table(regs.take(0)));
        while i < decl.registers.len()
            invariant
                i <= decl.registers@.len(),
                regs == decl@.registers,
                regs.len() == decl.registers@.len(),
                forall|j: int| 0 <= j < regs.len() ==> #[trigger] regs[j] == decl.registers@[j]@,
                register_str@ == register_pattern(regs.take(i as int)),
                lookup_view(lookup@) == lookup_table(regs.take(i as int)),
            decreases decl.registers@.len() - i,
        {
            let reg = &decl.registers[i];
            assert(regs.take(i + 1).drop_last() =~= regs.take(i as int));
            push_str(&mut register_str, reg.init.as_str());
            let size: usize = reg.init.as_str().len();
            assert(size == crate::interpreter::type_checker::byte_len(regs[i as int].init));
            let ghost old_lv = lookup_view(lookup@);
            let name = reg.name.clone();
            assert(name@ == regs[i as int].name);
            lookup.push((name, size));
            assert(lookup_view(lookup@) =~= old_lv.push((regs[i as int].name, size)));
            assert(lookup_table(regs.take(i + 1)) =~= lookup_table(regs.take(i as int)).push(
                (regs[i as int].name, size),
            ));
            i = i + 1;
        }
        assert(regs.take(regs.len() as int) =~= regs);
        let ghost tv = lookup_view(lookup@);
        let ghost instrs = decl@.instructions;
        let mut ops: Vec<Operator> = Vec::new();
        let mut j: usize = 0;
        assert(instrs.take(0) =~= Seq::<CircuitInstrValue>::empty());
        assert(ops_view(ops@) =~= Seq::<OpValue>::empty());
        while j < decl.instructions.len()
            invariant
                j <= decl.instructions@.len(),
                instrs == decl@.instructions,
                instrs.len() == decl.instructions@.len(),
                forall|k: int| 0 <= k < instrs.len() ==> #[trigger] instrs[k] == decl.instructions@[k]@,
                tv == lookup_view(lookup@),
                tv == lookup_table(decl@.registers),
                register_str@ == register_pattern(decl@.registers),
                total_size(tv) <= usize::MAX,
                self.wf(),
                *self == *old(self),
                circuit_ops(self.env(), tv, instrs.take(j as int)) == Ok::<Seq<OpValue>, SpecRuntimeError>(ops_view(ops@)),
            decreases decl.instructions@.len() - j,
        {
            assert(instrs.take(j + 1).drop_last() =~= instrs.take(j as int));
            let more = match self.instruction_ops_exec(&lookup, &decl.instructions[j]) {
                Ok(m) => m,
                Err(e) => {
                    proof {
                        lemma_circuit_ops_err(self.env(), tv, instrs, j as int + 1);
                    }
                    return Err(e);
                },
            };
            let ghost before = ops@;
            let ghost mv = more@;
            let mut more = more;
            ops.append(&mut more);
            proof {
                assert(ops@ =~= before + mv);
                lemma_ops_view_append(before, mv);
            }
            j = j + 1;
        }
        assert(instrs.take(instrs.len() as int) =~= instrs);
        let cirucit_name: String = decl.name.clone();
        let init = string_from_chars(register_str.as_slice());
        let circuit = Circuit { init, ops };
        proof {
            lemma_circuit_ops_wf(self.env(), tv, instrs);
            lemma_scope_wf_insert(self.environment@, cirucit_name@, Value::Circuit(register_pattern(regs), ops_view(circuit.ops@)));
        }
        self.environment.insert(cirucit_name, EvaluatorType::Circuit(circuit));
        Ok(())
    }
}


impl Evaluator {
    /// `circuit.method(args);` on a circuit in scope: `distribution` and
    /// `measure` run it `shots` times (once if no `shots` is given),
    /// `printCircuit` prints it.
    pub fn eval_method_call(&self, call: &MethodCall) -> (res: Result<Action, RuntimeError>)
        requires
            self.wf(),
        ensures
            match method_step(self.env(), call@) {
                Ok(StepValue::Act(a)) => res matches Ok(x) && x@ == a,
                Ok(StepValue::Next(_)) => false,
                Err(e) => res matches Err(x) && x@ == e,
            },
    {
        let circuit_name = &call.name;
        let c: Circuit = match self.environment.get(circuit_name) {
            Some(EvaluatorType::Circuit(c)) => Circuit { init: c.init.clone(), ops: copy_operators(&c.ops) },
            Some(_) => {
                return Err(RuntimeError::TypeMismatch);
            },
            None => {
                return Err(RuntimeError::VarNotFound(circuit_name.clone()));
            },
        };
        if str_eq(&call.call, "distribution") {
            let shots: usize = match get_arg(&call.args, "shots") {
                Some(n) => n,
                None => 1,
            };
            Ok(Action::Run(MethodJob { name: circuit_name.clone(), circuit: c, shots, verbose: true }))
        } else if str_eq(&call.call, "measure") {
            let shots: usize = match get_arg(&call.args, "shots") {
                Some(n) => n,
                None => 1,
            };
            Ok(Action::Run(MethodJob { name: circuit_name.clone(), circuit: c, shots, verbose: false }))
        } else if str_eq(&call.call, "printCircuit") {
            Ok(Action::PrintCircuit(circuit_name.clone()))
        } else {
            Err(RuntimeError::MethodUndefined(call.call.clone()))
        }
    }

    fn eval_statement(&mut self, stmt: &Statement) -> (res: Result<Option<Action>, RuntimeError>)
        requires
            old(self).wf(),
            stmt_wf(stmt@),
            stmt@ matches SpecStatement::Circuit(c) ==> total_size(lookup_table(c.registers)) <= usize::MAX,
        ensures
            final(self).wf(),
            final(self).statements() == old(self).statements(),
            final(self).position() == old(self).position(),
            step_outcome(stmt_step(old(self).env(), stmt@), old(self).env(), final(self).env(), res),
    {
        match stmt {
            Statement::Expr(_) => Ok(None),
            Statement::Assignment(bits) => self.eval_assignment(bits),
            Statement::Function(decl) => self.eval_function_decl(decl),
            Statement::Oracle(decl) => self.eval_oracle_decl(decl),
            Statement::Circuit(decl) => match self.eval_circuit_decl(decl) {
                Ok(()) => Ok(None),
                Err(e) => Err(e),
            },
            Statement::MethodCall(call) => match self.eval_method_call(call) {
                Ok(a) => Ok(Some(a)),
                Err(e) => Err(e),
            },
        }
    }

    /// Evaluates statements from the current one on, until the program
    /// ends (`None`), a statement needs an action done outside the
    /// evaluator (the action; the next call goes on after it), or a
    /// statement fails (the failure; the next call goes on after it).
    pub fn eval(&mut self) -> (res: Result<Option<Action>, RuntimeError>)
        requires
            old(self).wf(),
        ensures
            final(self).wf(),
            final(self).statements() == old(self).statements(),
            ({
                let (e, p, r) = run_from(old(self).env(), old(self).statements(), old(self).position());
                &&& final(self).env() == e
                &&& final(self).position() == p
                &&& match r {
                    Ok(None) => res matches Ok(None),
                    Ok(Some(a)) => res matches Ok(Some(x)) && x@ == a,
                    Err(err) => res matches Err(x) && x@ == err,
                }
            }),
    {
        let ghost stmts = program_view(self.program@);
        let ghost target = run_from(self.environment@, stmts, self.next as int);
        let mut program: Vec<Statement> = Vec::new();
        std::mem::swap(&mut program, &mut self.program);
        assert(program_view(self.program@) =~= Seq::<SpecStatement>::empty());
        while self.next < program.len()
            invariant
                program_view(program@) == stmts,
                stmts == old(self).statements(),
                program_wf(stmts),
                registers_fit(stmts),
                program_view(self.program@).len() == 0,
                self.wf(),
                target == run_from(old(self).env(), stmts, old(self).position()),
                target == run_from(self.environment@, stmts, self.next as int),
            decreases program@.len() - self.next,
        {
            let i = self.next;
            assert(stmts[i as int] == program@[i as int]@);
            assert(stmt_wf(stmts[i as int]));
            let r = self.eval_statement(&program[i]);
            self.next = i + 1;
            match r {
                Ok(None) => {},
                Ok(Some(a)) => {
                    std::mem::swap(&mut program, &mut self.program);
                    return Ok(Some(a));
                },
                Err(e) => {
                    std::mem::swap(&mut program, &mut self.program);
                    return Err(e);
                },
            }
        }
        std::mem::swap(&mut program, &mut self.program);
        Ok(None)
    }
}

} // verus!
