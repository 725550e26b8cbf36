use vstd::prelude::*;
use crate::engine::gate::{arity_of_name, gate_arity, gate_name};
use crate::interpreter::bindings::{env_insert, env_lookup};
use crate::interpreter::evaluator::environment::{
    ClosureValue, FunctionValue, GateValue, OpValue, Value, oracle_fields_ok,
};
use crate::interpreter::evaluator::eval_expr::eval_spec;
use crate::interpreter::evaluator::runtime_error::SpecRuntimeError;
use crate::interpreter::parser::ast_types::{
    Applies, SpecCircuitDecl, SpecCircuitInstr, SpecCircuitRef, SpecFunctionDecl, SpecMethodArg,
    SpecMethodCall, SpecOracleDecl, SpecParam, SpecQubitDecl, SpecStatement, Type,
};
use crate::interpreter::type_checker::byte_len;

verus! {

pub type Scope = Seq<(Seq<char>, Value)>;

/// Register names with their sizes, in order of declaration (a name may
/// occur twice; the first occurrence counts).
pub type Lookup = Seq<(Seq<char>, usize)>;

// ----- circuits -----

pub open spec fn lookup_table(regs: Seq<SpecQubitDecl>) -> Lookup {
    regs.map_values(|r: SpecQubitDecl| (r.name, byte_len(r.init)))
}

/// The initial patterns of the registers, one after the other.
pub open spec fn register_pattern(regs: Seq<SpecQubitDecl>) -> Seq<char>
    decreases regs.len(),
{
    if regs.len() == 0 {
        Seq::empty()
    } else {
        register_pattern(regs.drop_last()) + regs.last().init
    }
}

/// The number of qubits of all the registers together.
pub open spec fn total_size(table: Lookup) -> int
    decreases table.len(),
{
    if table.len() == 0 {
        0
    } else {
        total_size(table.drop_last()) + table.last().1
    }
}

/// The position in the whole register of qubit `plus` of the register
/// `name`: the sizes of the registers before it, plus `plus`.
pub open spec fn index_of_ref(table: Lookup, name: Seq<char>, plus: usize) -> Result<int, SpecRuntimeError>
    decreases table.len(),
{
    if table.len() == 0 {
        Err(SpecRuntimeError::VarNotFound(name))
    } else if table[0].0 == name {
        if plus < table[0].1 {
            Ok(plus as int)
        } else {
            Err(SpecRuntimeError::OutOfBounds(name, plus))
        }
    } else {
        match index_of_ref(table.skip(1), name, plus) {
            Ok(i) => Ok(table[0].1 + i),
            Err(e) => Err(e),
        }
    }
}

/// The size of the register `name` (its first declaration).
pub open spec fn size_of_ref(table: Lookup, name: Seq<char>) -> Option<usize>
    decreases table.len(),
{
    if table.len() == 0 {
        None
    } else if table[0].0 == name {
        Some(table[0].1)
    } else {
        size_of_ref(table.skip(1), name)
    }
}

/// The qubits that the arguments of an instruction name, in order:
/// `r[i]` names one qubit, `r` and `r[_]` all the qubits of `r`.
pub open spec fn arg_targets(table: Lookup, args: Seq<SpecCircuitRef>) -> Result<Seq<usize>, SpecRuntimeError>
    decreases args.len(),
{
    if args.len() == 0 {
        Ok(Seq::empty())
    } else {
        match arg_targets(table, args.drop_last()) {
            Err(e) => Err(e),
            Ok(ts) => {
                let a = args.last();
                match a.applies {
                    Applies::One(n) => match index_of_ref(table, a.name, n) {
                        Ok(i) => Ok(ts.push(i as usize)),
                        Err(e) => Err(e),
                    },
                    Applies::All => match index_of_ref(table, a.name, 0) {
                        Err(e) => Err(e),
                        Ok(i) => match size_of_ref(table, a.name) {
                            None => Err(SpecRuntimeError::Fatal),
                            Some(len) => Ok(ts + Seq::new(len as nat, |k: int| (i + k) as usize)),
                        },
                    },
                }
            },
        }
    }
}

/// A gate by name (`name`): an oracle in scope, else a built-in gate
/// (a measurement takes `m_arity` qubits).
pub open spec fn resolve_gate_spec(env: Scope, name: Seq<char>, m_arity: usize) -> Result<GateValue, SpecRuntimeError> {
    match env_lookup(env, name) {
        Some(Value::Oracle(x, y, f)) => Ok(GateValue::BlackBox(x, y, f.func)),
        Some(_) => Err(SpecRuntimeError::TypeMismatch),
        None => if name == "H"@ {
            Ok(GateValue::Hadamard)
        } else if name == "X"@ {
            Ok(GateValue::RotateX)
        } else if name == "Y"@ {
            Ok(GateValue::RotateY)
        } else if name == "Z"@ {
            Ok(GateValue::RotateZ)
        } else if name == "T"@ {
            Ok(GateValue::ShiftT)
        } else if name == "S"@ {
            Ok(GateValue::ShiftS)
        } else if name == "CNOT"@ {
            Ok(GateValue::CNot)
        } else if name == "SWAP"@ {
            Ok(GateValue::Swap)
        } else if name == "CZ"@ {
            Ok(GateValue::CZ)
        } else if name == "CCNOT"@ {
            Ok(GateValue::Toffoli)
        } else if name == "CSWAP"@ {
            Ok(GateValue::CSwap)
        } else if name == "measure"@ {
            Ok(GateValue::Measure(m_arity))
        } else {
            Err(SpecRuntimeError::VarNotFound(name))
        },
    }
}

/// A gate name that no binding shadows resolves to the built-in gate shown
/// by that name (a measurement on `m_arity` qubits for `measure`); a name
/// bound to an oracle resolves to that oracle's black box.
pub proof fn lemma_resolved_gate_is_named(env: Scope, name: Seq<char>, m_arity: usize)
    ensures
        env_lookup(env, name) is None ==> (resolve_gate_spec(env, name, m_arity) matches Ok(g)
            ==> gate_name(g) == name && (g matches GateValue::Measure(k) ==> k == m_arity)),
        env_lookup(env, name) matches Some(Value::Oracle(x, y, f))
            ==> resolve_gate_spec(env, name, m_arity) == Ok::<GateValue, SpecRuntimeError>(GateValue::BlackBox(x, y, f.func)),
{
}

/// The evaluator and the type checker know the same built-in gates, with
/// the same arities: a name that no binding shadows resolves to a gate
/// exactly when the checker gives it an arity, and that gate acts on that
/// many qubits.
pub proof fn lemma_resolved_gate_arity_agrees(env: Scope, name: Seq<char>, m_arity: usize)
    requires
        env_lookup(env, name) is None,
    ensures
        (resolve_gate_spec(env, name, m_arity) is Ok) == (arity_of_name(name, m_arity) is Some),
        resolve_gate_spec(env, name, m_arity) matches Ok(g) ==> Some(gate_arity(g)) == arity_of_name(name, m_arity),
{
}

/// The operations of one instruction: a gate on one qubit is applied to
/// each target in turn; any other gate needs exactly its arity in targets.
pub open spec fn instruction_ops(env: Scope, table: Lookup, instr: SpecCircuitInstr) -> Result<Seq<OpValue>, SpecRuntimeError> {
    match arg_targets(table, instr.args) {
        Err(e) => Err(e),
        Ok(tgts) => match resolve_gate_spec(env, instr.name, tgts.len() as usize) {
            Err(e) => Err(e),
            Ok(g) => if gate_arity(g) == 1 {
                Ok(Seq::new(tgts.len(), |k: int| OpValue { gate: g, targets: seq![tgts[k]] }))
            } else if gate_arity(g) == tgts.len() {
                Ok(seq![OpValue { gate: g, targets: tgts }])
            } else {
                Err(SpecRuntimeError::OracleConstructionFailed)
            },
        },
    }
}

pub open spec fn circuit_ops(env: Scope, table: Lookup, instrs: Seq<SpecCircuitInstr>) -> Result<Seq<OpValue>, SpecRuntimeError>
    decreases instrs.len(),
{
    if instrs.len() == 0 {
        Ok(Seq::empty())
    } else {
        match circuit_ops(env, table, instrs.drop_last()) {
            Err(e) => Err(e),
            Ok(ops) => match instruction_ops(env, table, instrs.last()) {
                Err(e) => Err(e),
                Ok(more) => Ok(ops + more),
            },
        }
    }
}

// ----- declarations -----

/// The sizes of the parameters of a function, all of which must be bits.
pub open spec fn param_sizes(params: Seq<SpecParam>) -> Result<Seq<usize>, SpecRuntimeError>
    decreases params.len(),
{
    if params.len() == 0 {
        Ok(Seq::empty())
    } else {
        match param_sizes(params.drop_last()) {
            Err(e) => Err(e),
            Ok(ns) => match params.last().ty {
                Type::Bits(n) => Ok(ns.push(n)),
                Type::Qubits(_) => Err(SpecRuntimeError::TypeMismatch),
            },
        }
    }
}

/// The value of a function declaration: its body with the bindings in
/// scope where it is declared.
pub open spec fn function_value(env: Scope, f: SpecFunctionDecl) -> Result<FunctionValue, SpecRuntimeError> {
    match f.return_type {
        Type::Qubits(_) => Err(SpecRuntimeError::TypeMismatch),
        Type::Bits(output) => match param_sizes(f.params) {
            Err(e) => Err(e),
            Ok(input) => Ok(FunctionValue {
                input,
                output,
                func: ClosureValue {
                    params: f.params.map_values(|p: SpecParam| p.name),
                    body: f.body,
                    scope: env,
                },
            }),
        },
    }
}

/// The register sizes `(x, y)` of an oracle `|x, y>`: two `qubits`
/// parameters, the first at least as large as the second.
pub open spec fn oracle_sizes(o: SpecOracleDecl) -> Result<(usize, usize), SpecRuntimeError> {
    if o.params.len() != 2 {
        Err(SpecRuntimeError::IncorrectArgs(2, o.params.len() as usize))
    } else {
        match o.params[0].ty {
            Type::Bits(_) => Err(SpecRuntimeError::TypeMismatch),
            Type::Qubits(x) => match o.params[1].ty {
                Type::Bits(_) => Err(SpecRuntimeError::TypeMismatch),
                Type::Qubits(y) => if x >= y {
                    Ok((x, y))
                } else {
                    Err(SpecRuntimeError::OracleConstructionFailed)
                },
            },
        }
    }
}

/// The value of the first method argument called `name`.
pub open spec fn arg_value(args: Seq<SpecMethodArg>, name: Seq<char>) -> Option<usize>
    decreases args.len(),
{
    if args.len() == 0 {
        None
    } else if args[0].name == name {
        Some(args[0].value)
    } else {
        arg_value(args.skip(1), name)
    }
}

// ----- statements -----

/// What the evaluator hands over to be done outside it.
pub enum ActionValue {
    /// Run the circuit `name` (`verbose`: show the final state) `shots` times.
    Run { name: Seq<char>, init: Seq<char>, ops: Seq<OpValue>, shots: usize, verbose: bool },
    /// Print the circuit `name`.
    PrintCircuit(Seq<char>),
}

pub enum StepValue {
    /// Go on in this environment.
    Next(Scope),
    /// Hand this action over; the environment stays.
    Act(ActionValue),
}

pub open spec fn method_step(env: Scope, m: SpecMethodCall) -> Result<StepValue, SpecRuntimeError> {
    match env_lookup(env, m.name) {
        Some(Value::Circuit(init, ops)) => {
            let shots = match arg_value(m.args, "shots"@) {
                Some(n) => n,
                None => 1,
            };
            if m.call == "distribution"@ {
                Ok(StepValue::Act(ActionValue::Run { name: m.name, init, ops, shots, verbose: true }))
            } else if m.call == "measure"@ {
                Ok(StepValue::Act(ActionValue::Run { name: m.name, init, ops, shots, verbose: false }))
            } else if m.call == "printCircuit"@ {
                Ok(StepValue::Act(ActionValue::PrintCircuit(m.name)))
            } else {
                Err(SpecRuntimeError::MethodUndefined(m.call))
            }
        },
        Some(_) => Err(SpecRuntimeError::TypeMismatch),
        None => Err(SpecRuntimeError::VarNotFound(m.name)),
    }
}

pub open spec fn oracle_step(env: Scope, o: SpecOracleDecl) -> Result<StepValue, SpecRuntimeError> {
    match env_lookup(env, o.loads) {
        None => Err(SpecRuntimeError::VarNotFound(o.loads)),
        Some(Value::Function(f)) => match oracle_sizes(o) {
            Err(e) => Err(e),
            Ok((x, y)) => if !oracle_fields_ok(x, y, f) {
                Err(SpecRuntimeError::OracleConstructionFailed)
            } else {
                Ok(StepValue::Next(env_insert(env, o.name, Value::Oracle(x, y, f))))
            },
        },
        Some(_) => Err(SpecRuntimeError::TypeMismatch),
    }
}

/// One statement in the environment `env`.
pub open spec fn stmt_step(env: Scope, s: SpecStatement) -> Result<StepValue, SpecRuntimeError> {
    match s {
        SpecStatement::Expr(_) => Ok(StepValue::Next(env)),
        SpecStatement::Assignment(a) => match eval_spec(a.value, env, Seq::empty()) {
            Ok(Value::Bits(b)) => Ok(StepValue::Next(env_insert(env, a.name, Value::Bits(b)))),
            Ok(_) => Err(SpecRuntimeError::TypeMismatch),
            Err(e) => Err(e),
        },
        SpecStatement::Function(f) => match function_value(env, f) {
            Ok(fv) => Ok(StepValue::Next(env_insert(env, f.name, Value::Function(fv)))),
            Err(e) => Err(e),
        },
        SpecStatement::Oracle(o) => oracle_step(env, o),
        SpecStatement::Circuit(c) => match circuit_ops(env, lookup_table(c.registers), c.instructions) {
            Ok(ops) => Ok(StepValue::Next(env_insert(env, c.name, Value::Circuit(register_pattern(c.registers), ops)))),
            Err(e) => Err(e),
        },
        SpecStatement::MethodCall(m) => method_step(env, m),
    }
}

/// Runs the statements from `i` on: the environment and position where it
/// stops, and what stopped it (the end, an action, or a failure).
pub open spec fn run_from(env: Scope, stmts: Seq<SpecStatement>, i: int) -> (Scope, int, Result<Option<ActionValue>, SpecRuntimeError>)
    decreases stmts.len() - i,
{
    if i < 0 || i >= stmts.len() {
        (env, i, Ok(None))
    } else {
        match stmt_step(env, stmts[i]) {
            Err(e) => (env, i + 1, Err(e)),
            Ok(StepValue::Act(a)) => (env, i + 1, Ok(Some(a))),
            Ok(StepValue::Next(env2)) => run_from(env2, stmts, i + 1),
        }
    }
}

/// The registers of every circuit declaration count at most `usize::MAX`
/// qubits together.
pub open spec fn registers_fit(stmts: Seq<SpecStatement>) -> bool {
    forall|i: int| 0 <= i < stmts.len() ==> (#[trigger] stmts[i] matches SpecStatement::Circuit(c)
        ==> total_size(lookup_table(c.registers)) <= usize::MAX)
}

} // verus!
