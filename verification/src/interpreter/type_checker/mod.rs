pub mod lang_types;
pub mod fits;
pub mod resolve_expr;
pub mod soundness;
pub mod type_error;

use vstd::prelude::*;
use crate::engine::gate::{Gate, arity_of_name};
use crate::interpreter::bindings::{
    env_insert, env_lookup, pairs_view, position_of, insert_pair,
};
use crate::interpreter::evaluator::environment::{expr_wf};
use crate::interpreter::parser::ast_types::{
    Applies, Assignment, CircuitDecl, CircuitRef, FunctionDecl, MethodCall, OracleDecl,
    Program, SpecAssignment, SpecCircuitDecl, SpecCircuitInstr, SpecCircuitRef,
    SpecFunctionDecl, SpecMethodCall, SpecOracleDecl, SpecParam, SpecQubitDecl, SpecStatement,
    Statement, Type, program_view, params_view, refs_view,
};
use crate::interpreter::type_checker::lang_types::{
    FunctionType, LanguageType, SpecLanguageType, type_label,
};
use crate::interpreter::type_checker::resolve_expr::type_of;
use crate::interpreter::type_checker::type_error::{SpecTypeError, TypeError};

verus! {

/// Checks that a program is well typed, statement by statement.
pub struct TypeChecker {
    pub identifier_types: Vec<(String, LanguageType)>,
}

impl View for TypeChecker {
    type V = Seq<(Seq<char>, SpecLanguageType)>;

    open spec fn view(&self) -> Seq<(Seq<char>, SpecLanguageType)> {
        pairs_view(self.identifier_types@)
    }
}

pub type TypeEnv = Seq<(Seq<char>, SpecLanguageType)>;

/// Why checking stopped: a type error, or a count of qubits that does not
/// fit in `usize`.
pub enum CheckStop {
    Type(TypeError),
    Overflow,
}

impl View for CheckStop {
    type V = SpecTypeError;

    open spec fn view(&self) -> SpecTypeError {
        match self {
            CheckStop::Type(e) => e@,
            CheckStop::Overflow => SpecTypeError::Overflow,
        }
    }
}

// ----- static semantics of statements -----

/// The lengths of the parameters of a function, all of which must be bits.
pub open spec fn param_lengths(params: Seq<SpecParam>) -> Option<Seq<usize>>
    decreases params.len(),
{
    if params.len() == 0 {
        Some(Seq::empty())
    } else {
        match param_lengths(params.drop_last()) {
            None => None,
            Some(ns) => match params.last().ty {
                Type::Bits(n) => Some(ns.push(n)),
                Type::Qubits(_) => None,
            },
        }
    }
}

/// `env` with each parameter bound to its type, in order.
pub open spec fn bind_param_types(env: TypeEnv, params: Seq<SpecParam>) -> TypeEnv
    decreases params.len(),
{
    if params.len() == 0 {
        env
    } else {
        let p = params.last();
        let t = match p.ty {
            Type::Bits(n) => SpecLanguageType::Bits(n),
            Type::Qubits(n) => SpecLanguageType::Bits(n),
        };
        env_insert(bind_param_types(env, params.drop_last()), p.name, t)
    }
}

pub open spec fn check_function(env: TypeEnv, f: SpecFunctionDecl) -> Result<TypeEnv, SpecTypeError> {
    match param_lengths(f.params) {
        None => Err(SpecTypeError::FunctionArgWrongType(f.name)),
        Some(ns) => match f.return_type {
            Type::Qubits(_) => Err(SpecTypeError::FunctionReturnWrongType(f.name)),
            Type::Bits(out) => match type_of(f.body, bind_param_types(env, f.params)) {
                Err(x) => Err(x),
                Ok(t) => if t != SpecLanguageType::Bits(out) {
                    Err(SpecTypeError::FunctionIncorrectlyTyped(f.name))
                } else {
                    Ok(env_insert(env, f.name, SpecLanguageType::Function(ns, out)))
                },
            },
        },
    }
}

/// The type of an oracle `|x, y>` loading a function `bits[x] -> bits[y]`.
pub open spec fn oracle_type(o: SpecOracleDecl, input: Seq<usize>, output: usize) -> Result<SpecLanguageType, SpecTypeError> {
    if o.params.len() != 2 || input.len() != 1 {
        Err(SpecTypeError::Todo)
    } else {
        match (o.params[0].ty, o.params[1].ty) {
            (Type::Qubits(n), Type::Qubits(m)) => if input[0] < output {
                Err(SpecTypeError::Todo)
            } else if input[0] != n || output != m {
                Err(SpecTypeError::Todo)
            } else {
                Ok(SpecLanguageType::Oracle(n, m))
            },
            _ => Err(SpecTypeError::Todo),
        }
    }
}

/// An oracle is well typed exactly when its two parameters are
/// `qubits[n]` and `qubits[m]` for a loaded function `bits[n] -> bits[m]`
/// with `n >= m` (as in Deutsch's `bits[1] -> bits[1]`); its type is then
/// `Oracle(n, m)`.
pub proof fn lemma_oracle_type_exactly(o: SpecOracleDecl, input: Seq<usize>, output: usize)
    ensures
        ({
            let fits = o.params.len() == 2 && input.len() == 1 && input[0] >= output
                && o.params[0].ty == Type::Qubits(input[0]) && o.params[1].ty == Type::Qubits(output);
            &&& fits ==> oracle_type(o, input, output) == Ok::<SpecLanguageType, SpecTypeError>(
                SpecLanguageType::Oracle(input[0], output))
            &&& oracle_type(o, input, output) is Ok ==> fits
        }),
{
}

pub open spec fn check_oracle(env: TypeEnv, o: SpecOracleDecl) -> Result<TypeEnv, SpecTypeError> {
    match env_lookup(env, o.loads) {
        None => Err(SpecTypeError::UnresolvedIdentifier(o.loads)),
        Some(SpecLanguageType::Function(input, output)) => match oracle_type(o, input, output) {
            Err(x) => Err(x),
            Ok(t) => Ok(env_insert(env, o.name, t)),
        },
        Some(t) => Err(SpecTypeError::UnresolvedIdentifier(type_label(t))),
    }
}

/// The number of bytes of the UTF-8 encoding of `s`.
pub open spec fn byte_len(s: Seq<char>) -> usize {
    vstd::utf8::encode_utf8(s).len() as usize
}

/// Register names bound to their sizes, in order of declaration.
pub open spec fn register_table(regs: Seq<SpecQubitDecl>) -> Seq<(Seq<char>, usize)>
    decreases regs.len(),
{
    if regs.len() == 0 {
        Seq::empty()
    } else {
        env_insert(register_table(regs.drop_last()), regs.last().name, byte_len(regs.last().init))
    }
}

/// The number of qubits that the arguments of an instruction name: one for
/// `r[i]`, all of `r` for `r` or `r[_]`; counted in `usize`, so a running
/// count past `usize::MAX` overflows.
pub open spec fn qubit_count(args: Seq<SpecCircuitRef>, table: Seq<(Seq<char>, usize)>) -> Result<int, SpecTypeError>
    decreases args.len(),
{
    if args.len() == 0 {
        Ok(0)
    } else {
        match qubit_count(args.drop_last(), table) {
            Err(x) => Err(x),
            Ok(acc) => match env_lookup(table, args.last().name) {
                None => Err(SpecTypeError::UnresolvedIdentifier(args.last().name)),
                Some(size) => {
                    let next = match args.last().applies {
                        Applies::One(_) => acc + 1,
                        Applies::All => acc + size,
                    };
                    if next > usize::MAX {
                        Err(SpecTypeError::Overflow)
                    } else {
                        Ok(next)
                    }
                },
            },
        }
    }
}

/// The arity of a gate by name (`name`): an oracle in scope (its two sizes
/// added in `usize`), else a built-in gate.
pub open spec fn gate_arity_in(env: TypeEnv, name: Seq<char>, m_arity: usize) -> Result<int, SpecTypeError> {
    match env_lookup(env, name) {
        Some(SpecLanguageType::Oracle(x, y)) => if x + y > usize::MAX {
            Err(SpecTypeError::Overflow)
        } else {
            Ok(x + y)
        },
        Some(t) => Err(SpecTypeError::Expected("oracle"@, type_label(t))),
        None => match arity_of_name(name, m_arity) {
            Some(n) => Ok(n as int),
            None => Err(SpecTypeError::UnresolvedIdentifier(name)),
        },
    }
}

/// A unary gate applies qubit by qubit; any other gate needs exactly as
/// many qubits as its arity.
pub open spec fn check_instruction(env: TypeEnv, table: Seq<(Seq<char>, usize)>, i: SpecCircuitInstr) -> Result<(), SpecTypeError> {
    match qubit_count(i.args, table) {
        Err(x) => Err(x),
        Ok(actual) => match gate_arity_in(env, i.name, actual as usize) {
            Err(x) => Err(x),
            Ok(req) => if req != 1 && req != actual {
                Err(SpecTypeError::InvalidGateAppl(i.name, req as usize, actual as usize))
            } else {
                Ok(())
            },
        },
    }
}

pub open spec fn check_instructions(env: TypeEnv, table: Seq<(Seq<char>, usize)>, instrs: Seq<SpecCircuitInstr>) -> Result<(), SpecTypeError>
    decreases instrs.len(),
{
    if instrs.len() == 0 {
        Ok(())
    } else {
        match check_instructions(env, table, instrs.drop_last()) {
            Err(x) => Err(x),
            Ok(()) => check_instruction(env, table, instrs.last()),
        }
    }
}

pub open spec fn check_circuit(env: TypeEnv, c: SpecCircuitDecl) -> Result<TypeEnv, SpecTypeError> {
    match check_instructions(env, register_table(c.registers), c.instructions) {
        Err(x) => Err(x),
        Ok(()) => Ok(env_insert(env, c.name, SpecLanguageType::Circuit)),
    }
}

pub open spec fn check_method(env: TypeEnv, m: SpecMethodCall) -> Result<TypeEnv, SpecTypeError> {
    match env_lookup(env, m.name) {
        Some(SpecLanguageType::Circuit) => Ok(env),
        Some(t) => Err(SpecTypeError::Expected("circuit"@, type_label(t))),
        None => Err(SpecTypeError::UnresolvedIdentifier(m.name)),
    }
}

/// The environment after a well-typed statement.
pub open spec fn check_stmt(env: TypeEnv, s: SpecStatement) -> Result<TypeEnv, SpecTypeError> {
    match s {
        SpecStatement::Assignment(a) => match type_of(a.value, env) {
            Err(x) => Err(x),
            Ok(SpecLanguageType::Bits(n)) => Ok(env_insert(env, a.name, SpecLanguageType::Bits(n))),
            Ok(t) => Err(SpecTypeError::Expected("bits"@, type_label(t))),
        },
        SpecStatement::Expr(e) => match type_of(e, env) {
            Err(x) => Err(x),
            Ok(_) => Ok(env),
        },
        SpecStatement::Function(f) => check_function(env, f),
        SpecStatement::Oracle(o) => check_oracle(env, o),
        SpecStatement::Circuit(c) => check_circuit(env, c),
        SpecStatement::MethodCall(m) => check_method(env, m),
    }
}

/// The environment after the longest well-typed prefix of `stmts`, and the
/// failure of the statement that ends it, if any.
pub open spec fn check_program(env: TypeEnv, stmts: Seq<SpecStatement>) -> (TypeEnv, Option<SpecTypeError>)
    decreases stmts.len(),
{
    if stmts.len() == 0 {
        (env, None)
    } else {
        let (e, r) = check_program(env, stmts.drop_last());
        match r {
            Some(x) => (e, Some(x)),
            None => match check_stmt(e, stmts.last()) {
                Ok(e2) => (e2, None),
                Err(x) => (e, Some(x)),
            },
        }
    }
}

/// Checking two programs one after the other is checking the first, and
/// then, only where it has no failure, the second from the environment the
/// first leaves: statements are checked in order and the first failure
/// ends the check.
pub proof fn lemma_check_program_append(env: TypeEnv, p: Seq<SpecStatement>, q: Seq<SpecStatement>)
    ensures
        check_program(env, p + q) == (match check_program(env, p) {
            (e, Some(x)) => (e, Some(x)),
            (e, None) => check_program(e, q),
        }),
    decreases q.len(),
{
    if q.len() == 0 {
        assert(p + q =~= p);
    } else {
        lemma_check_program_append(env, p, q.drop_last());
        assert((p + q).drop_last() =~= p + q.drop_last());
        assert((p + q).last() == q.last());
    }
}

// ----- literals -----

pub open spec fn stmt_wf(s: SpecStatement) -> bool {
    match s {
        SpecStatement::Assignment(a) => expr_wf(a.value),
        SpecStatement::Expr(e) => expr_wf(e),
        SpecStatement::Function(f) => expr_wf(f.body),
        _ => true,
    }
}

/// Every bits literal of the program can be sliced after its `0b` prefix.
pub open spec fn program_wf(stmts: Seq<SpecStatement>) -> bool {
    forall|i: int| 0 <= i < stmts.len() ==> #[trigger] stmt_wf(stmts[i])
}

// ----- checking -----

/// Copies a list of named types.
fn copy_types(v: &Vec<(String, LanguageType)>) -> (res: Vec<(String, LanguageType)>)
    ensures
        pairs_view(res@) == pairs_view(v@),
{
    let mut out: Vec<(String, LanguageType)> = Vec::new();
    let mut i: usize = 0;
    while i < v.len()
        invariant
            i <= v@.len(),
            out@.len() == i,
            forall|j: int| 0 <= j < i ==> (#[trigger] out@[j]).0@ == v@[j].0@ && out@[j].1@ == v@[j].1@,
        decreases v@.len() - i,
    {
        out.push((v[i].0.clone(), lang_types::copy_type(&v[i].1)));
        i = i + 1;
    }
    assert(pairs_view(out@) =~= pairs_view(v@));
    out
}

/// Given a list of qubit registers and the arguments of an instruction,
/// the number of qubits that the arguments name.
pub fn count_qubits(args: &Vec<CircuitRef>, env: &Vec<(String, usize)>) -> (res: Result<usize, CheckStop>)
    ensures
        match qubit_count(refs_view(args@), pairs_view(env@)) {
            Ok(v) => res == Ok::<usize, CheckStop>(v as usize),
            Err(x) => res matches Err(e) && e@ == x,
        },
{
    let ghost sargs = refs_view(args@);
    let mut acc: usize = 0;
    let mut i: usize = 0;
    assert(sargs.take(0) =~= Seq::<SpecCircuitRef>::empty());
    while i < args.len()
        invariant
            i <= args@.len(),
            sargs == refs_view(args@),
            qubit_count(sargs.take(i as int), pairs_view(env@)) == Ok::<int, SpecTypeError>(acc as int),
        decreases args@.len() - i,
    {
        let ghost pre = sargs.take(i + 1);
        assert(pre.drop_last() =~= sargs.take(i as int));
        assert(pre.last() == args@[i as int]@);
        let size = match position_of(env, &args[i].name) {
            Some(p) => env[p].1,
            None => {
                proof {
                    lemma_count_err_extends(sargs, i as int + 1, pairs_view(env@));
                }
                return Err(CheckStop::Type(TypeError::UnresolvedIdentifier(args[i].name.clone())));
            },
        };
        let step: usize = match args[i].applies {
            Applies::One(_) => 1,
            Applies::All => size,
        };
        match acc.checked_add(step) {
            Some(v) => {
                acc = v;
            },
            None => {
                proof {
                    lemma_count_err_extends(sargs, i as int + 1, pairs_view(env@));
                }
                return Err(CheckStop::Overflow);
            },
        }
        i = i + 1;
    }
    assert(sargs.take(args@.len() as int) =~= sargs);
    Ok(acc)
}

proof fn lemma_count_bounds(args: Seq<SpecCircuitRef>, table: Seq<(Seq<char>, usize)>)
    ensures
        qubit_count(args, table) matches Ok(v) ==> 0 <= v <= usize::MAX,
    decreases args.len(),
{
    if args.len() > 0 {
        lemma_count_bounds(args.drop_last(), table);
    }
}

pub proof fn lemma_count_err_extends(args: Seq<SpecCircuitRef>, k: int, table: Seq<(Seq<char>, usize)>)
    requires
        0 <= k <= args.len(),
        qubit_count(args.take(k), table) is Err,
    ensures
        qubit_count(args, table) == qubit_count(args.take(k), table),
    decreases args.len() - k,
{
    if k < args.len() {
        assert(args.take(k + 1).drop_last() =~= args.take(k));
        lemma_count_err_extends(args, k + 1, table);
    } else {
        assert(args.take(k) =~= args);
    }
}

/// Given an oracle declaration and the type of the function it loads,
/// check that the oracle is valid and give its type.
pub fn sanitise_oracle(oracle: &OracleDecl, loads: &FunctionType) -> (res: Result<LanguageType, TypeError>)
    ensures
        match oracle_type(oracle@, loads.input@, loads.output) {
            Ok(t) => res matches Ok(r) && r@ == t,
            Err(x) => res matches Err(e) && e@ == x,
        },
{
    if oracle.params.len() != 2 || loads.input.len() != 1 {
        return Err(TypeError::Todo);
    }
    let input_bits = loads.input[0];
    let output_bits = loads.output;
    let oracle_input_qubits = match oracle.params[0].ty {
        Type::Qubits(n) => n,
        _ => {
            return Err(TypeError::Todo);
        },
    };
    let oracle_output_qubits = match oracle.params[1].ty {
        Type::Qubits(n) => n,
        _ => {
            return Err(TypeError::Todo);
        },
    };
    if input_bits < output_bits {
        return Err(TypeError::Todo);
    }
    if input_bits != oracle_input_qubits || output_bits != oracle_output_qubits {
        return Err(TypeError::Todo);
    }
    Ok(LanguageType::Oracle(oracle_input_qubits, oracle_output_qubits))
}

impl TypeChecker {
    pub fn new() -> (res: Self)
        ensures
            res@ == Seq::<(Seq<char>, SpecLanguageType)>::empty(),
    {
        let res = TypeChecker { identifier_types: Vec::new() };
        assert(res@ =~= Seq::<(Seq<char>, SpecLanguageType)>::empty());
        res
    }

    /// The arity of a gate by name (`gate_name`): an oracle in scope, else a
    /// built-in gate (a measurement takes `m_arity` qubits).
    fn get_gate_arity(&self, gate_name: &String, m_arity: usize) -> (res: Result<usize, CheckStop>)
        ensures
            match gate_arity_in(self@, gate_name@, m_arity) {
                Ok(n) => res == Ok::<usize, CheckStop>(n as usize),
                Err(x) => res matches Err(e) && e@ == x,
            },
    {
        match position_of(&self.identifier_types, gate_name) {
            Some(i) => {
                assert(self@[i as int].1 == self.identifier_types@[i as int].1@);
                match &self.identifier_types[i].1 {
                    LanguageType::Oracle(x, y) => {
                        return match x.checked_add(*y) {
                            Some(n) => Ok(n),
                            None => Err(CheckStop::Overflow),
                        };
                    },
                    t => {
                        return Err(CheckStop::Type(TypeError::Expected("oracle", t.label())));
                    },
                }
            },
            None => {},
        }
        match Gate::arity_from_string(gate_name, m_arity) {
            Some(n) => Ok(n),
            None => Err(CheckStop::Type(TypeError::UnresolvedIdentifier(gate_name.clone()))),
        }
    }

    fn ensure_assignment(&mut self, assignment: &Assignment) -> (res: Result<(), TypeError>)
        requires
            expr_wf(assignment.value@),
        ensures
            match check_stmt(old(self)@, SpecStatement::Assignment(assignment@)) {
                Ok(e) => res is Ok && final(self)@ == e,
                Err(x) => res matches Err(err) && err@ == x && final(self)@ == old(self)@,
            },
    {
        let value = self.resolve_expr(&assignment.value)?;
        match value {
            LanguageType::Bits(n) => {
                insert_pair(&mut self.identifier_types, assignment.name.clone(), LanguageType::Bits(n));
                Ok(())
            },
            other => Err(TypeError::Expected("bits", other.label())),
        }
    }

    /// A function's parameters must be bits; its body, typed with the
    /// parameters in scope, must have the declared return type.
    fn ensure_function_decl(&mut self, func: &FunctionDecl) -> (res: Result<(), TypeError>)
        requires
            expr_wf(func.body@),
        ensures
            match check_function(old(self)@, func@) {
                Ok(e) => res is Ok && final(self)@ == e,
                Err(x) => res matches Err(err) && err@ == x && final(self)@ == old(self)@,
            },
    {
        let ghost sparams = params_view(func.params@);
        let mut indices: Vec<usize> = Vec::new();
        let mut i: usize = 0;
        assert(sparams.take(0) =~= Seq::<SpecParam>::empty());
        while i < func.params.len()
            invariant
                i <= func.params@.len(),
                sparams == params_view(func.params@),
                param_lengths(sparams.take(i as int)) == Some(indices@),
            decreases func.params@.len() - i,
        {
            assert(sparams.take(i + 1).drop_last() =~= sparams.take(i as int));
            match func.params[i].ty {
                Type::Bits(n) => {
                    indices.push(n);
                },
                _ => {
                    proof {
                        lemma_param_lengths_none_extends(sparams, i as int + 1);
                    }
                    return Err(TypeError::FunctionArgWrongType(func.name.clone()));
                },
            }
            i = i + 1;
        }
        assert(sparams.take(func.params@.len() as int) =~= sparams);
        let output_bits = match func.return_type {
            Type::Bits(n) => n,
            _ => {
                return Err(TypeError::FunctionReturnWrongType(func.name.clone()));
            },
        };
        // the parameters override the enclosing bindings
        let mut tmp_env = copy_types(&self.identifier_types);
        let mut j: usize = 0;
        assert(sparams.take(0) =~= Seq::<SpecParam>::empty());
        while j < func.params.len()
            invariant
                j <= func.params@.len(),
                sparams == params_view(func.params@),
                pairs_view(tmp_env@) == bind_param_types(self@, sparams.take(j as int)),
            decreases func.params@.len() - j,
        {
            assert(sparams.take(j + 1).drop_last() =~= sparams.take(j as int));
            let n = match func.params[j].ty {
                Type::Bits(n) => n,
                Type::Qubits(n) => n,
            };
            insert_pair(&mut tmp_env, func.params[j].name.clone(), LanguageType::Bits(n));
            j = j + 1;
        }
        assert(sparams.take(func.params@.len() as int) =~= sparams);
        let new_checker = TypeChecker { identifier_types: tmp_env };
        let return_type = new_checker.resolve_expr(&func.body)?;
        let matches = match return_type {
            LanguageType::Bits(m) => m == output_bits,
            _ => false,
        };
        if !matches {
            return Err(TypeError::FunctionIncorrectlyTyped(func.name.clone()));
        }
        let ft = FunctionType { input: indices, output: output_bits };
        insert_pair(&mut self.identifier_types, func.name.clone(), LanguageType::Function(ft));
        Ok(())
    }

    /// An oracle loads a function in scope whose signature matches the
    /// oracle's registers.
    fn ensure_oracle_decl(&mut self, oracle: &OracleDecl) -> (res: Result<(), TypeError>)
        ensures
            match check_oracle(old(self)@, oracle@) {
                Ok(e) => res is Ok && final(self)@ == e,
                Err(x) => res matches Err(err) && err@ == x && final(self)@ == old(self)@,
            },
    {
        let pos = match position_of(&self.identifier_types, &oracle.loads) {
            Some(p) => p,
            None => {
                return Err(TypeError::UnresolvedIdentifier(oracle.loads.clone()));
            },
        };
        assert(self@[pos as int].1 == self.identifier_types@[pos as int].1@);
        let t = match &self.identifier_types[pos].1 {
            LanguageType::Function(f) => sanitise_oracle(oracle, f)?,
            other => {
                return Err(TypeError::UnresolvedIdentifier(other.label()));
            },
        };
        insert_pair(&mut self.identifier_types, oracle.name.clone(), t);
        Ok(())
    }

    /// Every instruction of a circuit names registers of the circuit and
    /// applies a gate to as many qubits as it takes.
    fn ensure_circuit_decl(&mut self, circuit: &CircuitDecl) -> (res: Result<(), CheckStop>)
        ensures
            match check_circuit(old(self)@, circuit@) {
                Ok(e) => res is Ok && final(self)@ == e,
                Err(x) => res matches Err(err) && err@ == x && final(self)@ == old(self)@,
            },
    {
        let ghost sc = circuit@;
        let ghost regs = sc.registers;
        let mut table: Vec<(String, usize)> = Vec::new();
        let mut i: usize = 0;
        assert(regs.take(0) =~= Seq::<SpecQubitDecl>::empty());
        assert(pairs_view(table@) =~= Seq::<(Seq<char>, usize)>::empty());
        while i < circuit.registers.len()
            invariant
                i <= circuit.registers@.len(),
                regs == circuit@.registers,
                regs.len() == circuit.registers@.len(),
                pairs_view(table@) == register_table(regs.take(i as int)),
            decreases circuit.registers@.len() - i,
        {
            assert(regs.take(i + 1).drop_last() =~= regs.take(i as int));
            assert(regs[i as int] == circuit.registers@[i as int]@);
            let qbit = &circuit.registers[i];
            insert_pair(&mut table, qbit.name.clone(), qbit.init.as_str().len());
            i = i + 1;
        }
        assert(regs.take(circuit.registers@.len() as int) =~= regs);
        let ghost instrs = sc.instructions;
        let mut k: usize = 0;
        assert(instrs.take(0) =~= Seq::<SpecCircuitInstr>::empty());
        while k < circuit.instructions.len()
            invariant
                k <= circuit.instructions@.len(),
                sc == circuit@,
                instrs == sc.instructions,
                instrs.len() == circuit.instructions@.len(),
                pairs_view(table@) == register_table(sc.registers),
                self@ == old(self)@,
                check_instructions(self@, pairs_view(table@), instrs.take(k as int)) == Ok::<(), SpecTypeError>(()),
            decreases circuit.instructions@.len() - k,
        {
            let ghost pre = instrs.take(k + 1);
            assert(pre.drop_last() =~= instrs.take(k as int));
            assert(pre.last() == circuit.instructions@[k as int]@);
            let instruction = &circuit.instructions[k];
            assert(instrs[k as int].args == refs_view(instruction.args@));
            let actual = match count_qubits(&instruction.args, &table) {
                Ok(a) => a,
                Err(e) => {
                    proof {
                        lemma_instrs_err_extends(self@, pairs_view(table@), instrs, k as int + 1);
                    }
                    return Err(e);
                },
            };
            let required = match self.get_gate_arity(&instruction.name, actual) {
                Ok(r) => r,
                Err(e) => {
                    proof {
                        lemma_instrs_err_extends(self@, pairs_view(table@), instrs, k as int + 1);
                    }
                    return Err(e);
                },
            };
            if required != 1 && required != actual {
                proof {
                    lemma_instrs_err_extends(self@, pairs_view(table@), instrs, k as int + 1);
                }
                return Err(CheckStop::Type(TypeError::InvalidGateAppl(instruction.name.clone(), required, actual)));
            }
            proof {
                let t = pairs_view(table@);
                let ins = instrs[k as int];
                assert(ins.args == refs_view(instruction.args@));
                assert(qubit_count(refs_view(instruction.args@), t) is Ok);
                let v = qubit_count(refs_view(instruction.args@), t)->Ok_0;
                lemma_count_bounds(refs_view(instruction.args@), t);
                assert(actual == v as usize);
                assert(qubit_count(ins.args, t) == Ok::<int, SpecTypeError>(actual as int));
                lemma_gate_arity_bounds(self@, ins.name, actual);
                assert(check_instruction(self@, t, ins) == Ok::<(), SpecTypeError>(()));
            }
            k = k + 1;
        }
        assert(instrs.take(circuit.instructions@.len() as int) =~= instrs);
        insert_pair(&mut self.identifier_types, circuit.name.clone(), LanguageType::Circuit);
        Ok(())
    }

    fn ensure_method_call(&self, m: &MethodCall) -> (res: Result<(), TypeError>)
        ensures
            match check_method(self@, m@) {
                Ok(_) => res is Ok,
                Err(x) => res matches Err(err) && err@ == x,
            },
    {
        match position_of(&self.identifier_types, &m.name) {
            Some(i) => {
                assert(self@[i as int].1 == self.identifier_types@[i as int].1@);
                match &self.identifier_types[i].1 {
                    LanguageType::Circuit => Ok(()),
                    l => Err(TypeError::Expected("circuit", l.label())),
                }
            },
            None => Err(TypeError::UnresolvedIdentifier(m.name.clone())),
        }
    }

    fn ensure_stmt(&mut self, stmt: &Statement) -> (res: Result<(), CheckStop>)
        requires
            stmt_wf(stmt@),
        ensures
            match check_stmt(old(self)@, stmt@) {
                Ok(e) => res is Ok && final(self)@ == e,
                Err(x) => res matches Err(err) && err@ == x && final(self)@ == old(self)@,
            },
    {
        let r = match stmt {
            Statement::Assignment(a) => self.ensure_assignment(a),
            Statement::Expr(e) => match self.resolve_expr(e) {
                Ok(_) => Ok(()),
                Err(x) => Err(x),
            },
            Statement::Function(f) => self.ensure_function_decl(f),
            Statement::Oracle(o) => self.ensure_oracle_decl(o),
            Statement::Circuit(c) => {
                return self.ensure_circuit_decl(c);
            },
            Statement::MethodCall(m) => self.ensure_method_call(m),
        };
        match r {
            Ok(()) => Ok(()),
            Err(e) => Err(CheckStop::Type(e)),
        }
    }

    /// Checks the statements of a program in order, up to the first
    /// failure: a type error, or a count of qubits past `usize::MAX` (where
    /// the count is made: at an instruction's arguments, or at the sum of an
    /// oracle's two sizes when the oracle is applied).
    pub fn check_statements(&mut self, prg: &Program) -> (res: Result<(), CheckStop>)
        requires
            program_wf(program_view(prg@)),
        ensures
            final(self)@ == check_program(old(self)@, program_view(prg@)).0,
            match check_program(old(self)@, program_view(prg@)).1 {
                None => res is Ok,
                Some(x) => res matches Err(err) && err@ == x,
            },
    {
        let ghost stmts = program_view(prg@);
        let mut i: usize = 0;
        assert(stmts.take(0) =~= Seq::<SpecStatement>::empty());
        while i < prg.len()
            invariant
                i <= prg@.len(),
                stmts == program_view(prg@),
                program_wf(stmts),
                check_program(old(self)@, stmts.take(i as int)) == (self@, None::<SpecTypeError>),
            decreases prg@.len() - i,
        {
            assert(stmts.take(i + 1).drop_last() =~= stmts.take(i as int));
            assert(stmts[i as int] == prg@[i as int]@);
            assert(stmt_wf(stmts[i as int]));
            let r = self.ensure_stmt(&prg[i]);
            match r {
                Ok(()) => {},
                Err(e) => {
                    proof {
                        lemma_program_stops(old(self)@, stmts, i as int + 1);
                    }
                    return Err(e);
                },
            }
            i = i + 1;
        }
        assert(stmts.take(prg@.len() as int) =~= stmts);
        Ok(())
    }

    /// Given the statements of a program, ensure that the program is type
    /// safe: names are declared before use and values compose by their
    /// types. Statements are checked in order, up to the first failure.
    /// No count of qubits may pass `usize::MAX` on the way.
    pub fn ensure_program(&mut self, prg: &Program) -> (res: Result<(), TypeError>)
        requires
            program_wf(program_view(prg@)),
            !(check_program(old(self)@, program_view(prg@)).1 matches Some(SpecTypeError::Overflow)),
        ensures
            final(self)@ == check_program(old(self)@, program_view(prg@)).0,
            match check_program(old(self)@, program_view(prg@)).1 {
                None => res is Ok,
                Some(x) => res matches Err(err) && err@ == x,
            },
    {
        match self.check_statements(prg) {
            Ok(()) => Ok(()),
            Err(CheckStop::Type(e)) => Err(e),
            Err(CheckStop::Overflow) => {
                assert(false);
                Err(TypeError::Todo)
            },
        }
    }
}

/// A program given in two parts is checked as `ensure_program` checks the
/// first part and then, only where that succeeds, the second part from
/// the bindings the first leaves: the parts' views concatenate, the whole
/// meets the literal condition exactly when both parts do, and
/// the check of the whole is the check of the first part followed by the
/// check of the second.
pub proof fn lemma_ensure_program_split(env: TypeEnv, p: Seq<Statement>, q: Seq<Statement>)
    ensures
        program_view(p + q) == program_view(p) + program_view(q),
        program_wf(program_view(p + q)) <==> (program_wf(program_view(p)) && program_wf(program_view(q))),
        check_program(env, program_view(p + q)) == (match check_program(env, program_view(p)) {
            (e, Some(x)) => (e, Some(x)),
            (e, None) => check_program(e, program_view(q)),
        }),
{
    let a = program_view(p);
    let b = program_view(q);
    assert(program_view(p + q) =~= a + b);
    let w = a + b;
    assert(forall|i: int| 0 <= i < a.len() ==> #[trigger] a[i] == w[i]);
    assert(forall|i: int| 0 <= i < b.len() ==> #[trigger] b[i] == w[a.len() + i]);
    if program_wf(a) && program_wf(b) {
        assert forall|i: int| 0 <= i < w.len() implies #[trigger] stmt_wf(w[i]) by {
            if i >= a.len() {
                assert(w[i] == b[i - a.len()]);
            }
        }
    }
    if program_wf(w) {
        assert forall|i: int| 0 <= i < b.len() implies #[trigger] stmt_wf(b[i]) by {
            assert(stmt_wf(w[a.len() + i]));
        }
    }
    lemma_check_program_append(env, a, b);
}

proof fn lemma_gate_arity_bounds(env: TypeEnv, name: Seq<char>, m: usize)
    ensures
        gate_arity_in(env, name, m) matches Ok(n) ==> 0 <= n <= usize::MAX,
{
}

proof fn lemma_param_lengths_none_extends(params: Seq<SpecParam>, k: int)
    requires
        0 <= k <= params.len(),
        param_lengths(params.take(k)) is None,
    ensures
        param_lengths(params) is None,
    decreases params.len() - k,
{
    if k < params.len() {
        assert(params.take(k + 1).drop_last() =~= params.take(k));
        lemma_param_lengths_none_extends(params, k + 1);
    } else {
        assert(params.take(k) =~= params);
    }
}

proof fn lemma_instrs_err_extends(env: TypeEnv, table: Seq<(Seq<char>, usize)>, instrs: Seq<SpecCircuitInstr>, k: int)
    requires
        0 <= k <= instrs.len(),
        check_instructions(env, table, instrs.take(k)) is Err,
    ensures
        check_instructions(env, table, instrs) == check_instructions(env, table, instrs.take(k)),
    decreases instrs.len() - k,
{
    if k < instrs.len() {
        assert(instrs.take(k + 1).drop_last() =~= instrs.take(k));
        lemma_instrs_err_extends(env, table, instrs, k + 1);
    } else {
        assert(instrs.take(k) =~= instrs);
    }
}

proof fn lemma_program_stops(env: TypeEnv, stmts: Seq<SpecStatement>, k: int)
    requires
        0 <= k <= stmts.len(),
        check_program(env, stmts.take(k)).1 is Some,
    ensures
        check_program(env, stmts) == check_program(env, stmts.take(k)),
    decreases stmts.len() - k,
{
    if k < stmts.len() {
        assert(stmts.take(k + 1).drop_last() =~= stmts.take(k));
        lemma_program_stops(env, stmts, k + 1);
    } else {
        assert(stmts.take(k) =~= stmts);
    }
}

} // verus!
