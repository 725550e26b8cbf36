use vstd::prelude::*;
use std::sync::Arc;
use crate::engine::black_box::BlackBox;
use crate::engine::gate::Gate;
use crate::engine::operator::Operator;
use crate::interpreter::parser::ast_types::{Expr, SpecExpr};
use crate::interpreter::literals::bits_literal_sliceable;
use crate::text::share;
use crate::interpreter::bindings::{env_index, env_lookup, env_insert};

verus! {

/// A bitstring value: `length` bits whose value is `literal`.
#[derive(Debug, Clone, Copy, PartialEq, Eq, Structural)]
pub struct Bits {
    pub literal: usize,
    pub length: usize,
}

/// The body of a classical function together with the bindings that were
/// visible where it was declared.
pub struct Closure {
    pub params: Vec<String>,
    pub body: Expr,
    pub scope: Environment,
}

/// A shared, immutable function body.
pub type Lambda = Arc<Closure>;

pub struct Function {
    /// The length of each `bits` argument, in order.
    pub input: Vec<usize>,
    /// The length of the returned bitstring.
    pub output: usize,
    pub func: Lambda,
}

/// An oracle bound in the environment; its well-formedness
/// (`oracle_fields_ok`) holds both sizes above zero and ties `loads` to them.
pub struct Oracle {
    /// The sizes of the two `qubits` parameters `|x, y>`.
    pub input: (usize, usize),
    /// The classical function that the oracle evaluates: one input of
    /// length `input.0`, an output of length `input.1`.
    pub loads: Function,
}

pub struct Circuit {
    /// The initial pattern of the whole register.
    pub init: String,
    pub ops: Vec<Operator>,
}

/// The values bound to names during evaluation.
pub enum EvaluatorType {
    Bits(Bits),
    Function(Function),
    Oracle(Oracle),
    Circuit(Circuit),
}

/// Bindings from names to values; each name occurs at most once.
pub struct Environment {
    pub entries: Vec<(String, EvaluatorType)>,
}

// ----- mathematical model of runtime values -----

pub struct ClosureValue {
    pub params: Seq<Seq<char>>,
    pub body: SpecExpr,
    pub scope: Seq<(Seq<char>, Value)>,
}

pub struct FunctionValue {
    pub input: Seq<usize>,
    pub output: usize,
    pub func: ClosureValue,
}

pub enum GateValue {
    RotateX,
    RotateY,
    RotateZ,
    Hadamard,
    ShiftS,
    ShiftT,
    CNot,
    Swap,
    CZ,
    Toffoli,
    CSwap,
    Measure(usize),
    BlackBox(usize, usize, ClosureValue),
}

pub struct OpValue {
    pub gate: GateValue,
    pub targets: Seq<usize>,
}

pub enum Value {
    Bits(Bits),
    Function(FunctionValue),
    Oracle(usize, usize, FunctionValue),
    Circuit(Seq<char>, Seq<OpValue>),
}

pub open spec fn value_view(v: EvaluatorType) -> Value
    decreases v,
{
    match v {
        EvaluatorType::Bits(b) => Value::Bits(b),
        EvaluatorType::Function(f) => Value::Function(function_view(f)),
        EvaluatorType::Oracle(o) => Value::Oracle(o.input.0, o.input.1, function_view(o.loads)),
        EvaluatorType::Circuit(c) => Value::Circuit(c.init@, ops_view(c.ops@)),
    }
}

pub open spec fn function_view(f: Function) -> FunctionValue
    decreases f,
{
    FunctionValue { input: f.input@, output: f.output, func: closure_view(*f.func) }
}

pub open spec fn closure_view(c: Closure) -> ClosureValue
    decreases c,
{
    ClosureValue {
        params: c.params@.map_values(|p: String| p@),
        body: c.body@,
        scope: scope_view(c.scope.entries@),
    }
}

pub open spec fn scope_view(s: Seq<(String, EvaluatorType)>) -> Seq<(Seq<char>, Value)>
    decreases s,
{
    if s.len() == 0 {
        Seq::empty()
    } else {
        scope_view(s.subrange(0, s.len() - 1)).push(
            (s[s.len() - 1].0@, value_view(s[s.len() - 1].1)),
        )
    }
}

pub open spec fn ops_view(s: Seq<Operator>) -> Seq<OpValue>
    decreases s,
{
    if s.len() == 0 {
        Seq::empty()
    } else {
        ops_view(s.subrange(0, s.len() - 1)).push(op_view(s[s.len() - 1]))
    }
}

pub open spec fn op_view(o: Operator) -> OpValue
    decreases o,
{
    OpValue { gate: gate_view(o.gate_kind), targets: o.targets@ }
}

pub open spec fn gate_view(g: Gate) -> GateValue
    decreases g,
{
    match g {
        Gate::RotateX => GateValue::RotateX,
        Gate::RotateY => GateValue::RotateY,
        Gate::RotateZ => GateValue::RotateZ,
        Gate::Hadamard => GateValue::Hadamard,
        Gate::ShiftS => GateValue::ShiftS,
        Gate::ShiftT => GateValue::ShiftT,
        Gate::CNot => GateValue::CNot,
        Gate::Swap => GateValue::Swap,
        Gate::CZ => GateValue::CZ,
        Gate::Toffoli => GateValue::Toffoli,
        Gate::CSwap => GateValue::CSwap,
        Gate::Measure(m) => GateValue::Measure(m),
        Gate::BlackBox(bb) => GateValue::BlackBox(
            bb.input_size,
            bb.output_size,
            closure_view(*bb.method),
        ),
    }
}

pub proof fn lemma_scope_view(s: Seq<(String, EvaluatorType)>)
    ensures
        scope_view(s).len() == s.len(),
        forall|i: int|
            0 <= i < s.len() ==> #[trigger] scope_view(s)[i] == (s[i].0@, value_view(s[i].1)),
    decreases s.len(),
{
    if s.len() > 0 {
        lemma_scope_view(s.subrange(0, s.len() - 1));
    }
}

pub proof fn lemma_ops_view(s: Seq<Operator>)
    ensures
        ops_view(s).len() == s.len(),
        forall|i: int| 0 <= i < s.len() ==> #[trigger] ops_view(s)[i] == op_view(s[i]),
    decreases s.len(),
{
    if s.len() > 0 {
        lemma_ops_view(s.subrange(0, s.len() - 1));
    }
}

impl View for EvaluatorType {
    type V = Value;

    open spec fn view(&self) -> Value {
        value_view(*self)
    }
}

impl View for Function {
    type V = FunctionValue;

    open spec fn view(&self) -> FunctionValue {
        function_view(*self)
    }
}

impl View for Closure {
    type V = ClosureValue;

    open spec fn view(&self) -> ClosureValue {
        closure_view(*self)
    }
}

impl View for Environment {
    type V = Seq<(Seq<char>, Value)>;

    open spec fn view(&self) -> Seq<(Seq<char>, Value)> {
        scope_view(self.entries@)
    }
}

// ----- well-formed literals -----

/// Every bits literal of `e` can be sliced after its `0b` prefix.
pub open spec fn expr_wf(e: SpecExpr) -> bool
    decreases e,
{
    match e {
        SpecExpr::Identifier(_) => true,
        SpecExpr::BitsLiteral(b) => bits_literal_sliceable(b),
        SpecExpr::Binary { op, left, right } => expr_wf(*left) && expr_wf(*right),
        SpecExpr::Call { callee, args } => expr_wf(*callee) && exprs_wf(args),
        SpecExpr::Grouping(g) => expr_wf(*g),
    }
}

pub open spec fn exprs_wf(s: Seq<SpecExpr>) -> bool
    decreases s,
{
    if s.len() == 0 {
        true
    } else {
        exprs_wf(s.drop_last()) && expr_wf(s.last())
    }
}

pub proof fn lemma_exprs_wf(s: Seq<SpecExpr>)
    ensures
        exprs_wf(s) <==> forall|i: int| 0 <= i < s.len() ==> #[trigger] expr_wf(s[i]),
    decreases s.len(),
{
    if s.len() > 0 {
        let t = s.drop_last();
        lemma_exprs_wf(t);
        if forall|i: int| 0 <= i < s.len() ==> #[trigger] expr_wf(s[i]) {
            assert(expr_wf(s[s.len() - 1]));
            assert forall|i: int| 0 <= i < t.len() implies #[trigger] expr_wf(t[i]) by {
                assert(t[i] == s[i]);
                assert(expr_wf(s[i]));
            }
        }
        if expr_wf(s.last()) && forall|i: int| 0 <= i < t.len() ==> #[trigger] expr_wf(t[i]) {
            assert forall|i: int| 0 <= i < s.len() implies #[trigger] expr_wf(s[i]) by {
                if i < s.len() - 1 {
                    assert(t[i] == s[i]);
                    assert(expr_wf(t[i]));
                }
            }
        }
    }
}

pub open spec fn closure_wf(c: ClosureValue) -> bool
    decreases c,
{
    expr_wf(c.body) && scope_wf(c.scope)
}

pub open spec fn gate_wf(g: GateValue) -> bool
    decreases g,
{
    match g {
        GateValue::BlackBox(_, _, c) => closure_wf(c),
        _ => true,
    }
}

pub open spec fn ops_wf(s: Seq<OpValue>) -> bool
    decreases s,
{
    if s.len() == 0 {
        true
    } else {
        ops_wf(s.drop_last()) && gate_wf(s.last().gate)
    }
}

/// An oracle on `|x, y>` of sizes `x` and `y`: both sizes are above zero,
/// and the function it loads takes one bitstring of length `x` and returns
/// one of length `y`.
pub open spec fn oracle_fields_ok(x: usize, y: usize, f: FunctionValue) -> bool {
    &&& x > 0
    &&& y > 0
    &&& f.input.len() == 1
    &&& f.input[0] == x
    &&& f.output == y
}

pub open spec fn value_wf(v: Value) -> bool
    decreases v,
{
    match v {
        Value::Bits(_) => true,
        Value::Function(f) => closure_wf(f.func),
        Value::Oracle(x, y, f) => closure_wf(f.func) && oracle_fields_ok(x, y, f),
        Value::Circuit(_, ops) => ops_wf(ops),
    }
}

/// Every value bound in `s` has well-formed literals.
pub open spec fn scope_wf(s: Seq<(Seq<char>, Value)>) -> bool
    decreases s,
{
    if s.len() == 0 {
        true
    } else {
        scope_wf(s.drop_last()) && value_wf(s.last().1)
    }
}

pub proof fn lemma_scope_wf(s: Seq<(Seq<char>, Value)>)
    ensures
        scope_wf(s) <==> forall|i: int| 0 <= i < s.len() ==> #[trigger] value_wf(s[i].1),
    decreases s.len(),
{
    if s.len() > 0 {
        let t = s.drop_last();
        lemma_scope_wf(t);
        if forall|i: int| 0 <= i < s.len() ==> #[trigger] value_wf(s[i].1) {
            assert(value_wf(s[s.len() - 1].1));
            assert forall|i: int| 0 <= i < t.len() implies #[trigger] value_wf(t[i].1) by {
                assert(t[i] == s[i]);
                assert(value_wf(s[i].1));
            }
        }
        if value_wf(s.last().1) && forall|i: int| 0 <= i < t.len() ==> #[trigger] value_wf(t[i].1) {
            assert forall|i: int| 0 <= i < s.len() implies #[trigger] value_wf(s[i].1) by {
                if i < s.len() - 1 {
                    assert(t[i] == s[i]);
                    assert(value_wf(t[i].1));
                }
            }
        }
    }
}

pub proof fn lemma_ops_wf(s: Seq<OpValue>)
    ensures
        ops_wf(s) <==> forall|i: int| 0 <= i < s.len() ==> #[trigger] gate_wf(s[i].gate),
    decreases s.len(),
{
    if s.len() > 0 {
        let t = s.drop_last();
        lemma_ops_wf(t);
        if forall|i: int| 0 <= i < s.len() ==> #[trigger] gate_wf(s[i].gate) {
            assert(gate_wf(s[s.len() - 1].gate));
            assert forall|i: int| 0 <= i < t.len() implies #[trigger] gate_wf(t[i].gate) by {
                assert(t[i] == s[i]);
                assert(gate_wf(s[i].gate));
            }
        }
        if gate_wf(s.last().gate) && forall|i: int| 0 <= i < t.len() ==> #[trigger] gate_wf(t[i].gate) {
            assert forall|i: int| 0 <= i < s.len() implies #[trigger] gate_wf(s[i].gate) by {
                if i < s.len() - 1 {
                    assert(t[i] == s[i]);
                    assert(gate_wf(t[i].gate));
                }
            }
        }
    }
}

// ----- copies -----

pub fn copy_function(f: &Function) -> (res: Function)
    ensures
        res@ == f@,
{
    let input = f.input.clone();
    assert(input@ =~= f.input@);
    Function { input, output: f.output, func: share(&f.func) }
}

pub fn copy_gate(g: &Gate) -> (res: Gate)
    ensures
        gate_view(res) == gate_view(*g),
{
    match g {
        Gate::RotateX => Gate::RotateX,
        Gate::RotateY => Gate::RotateY,
        Gate::RotateZ => Gate::RotateZ,
        Gate::Hadamard => Gate::Hadamard,
        Gate::ShiftS => Gate::ShiftS,
        Gate::ShiftT => Gate::ShiftT,
        Gate::CNot => Gate::CNot,
        Gate::Swap => Gate::Swap,
        Gate::CZ => Gate::CZ,
        Gate::Toffoli => Gate::Toffoli,
        Gate::CSwap => Gate::CSwap,
        Gate::Measure(m) => Gate::Measure(*m),
        Gate::BlackBox(bb) => Gate::BlackBox(
            BlackBox {
                input_size: bb.input_size,
                output_size: bb.output_size,
                method: share(&bb.method),
            },
        ),
    }
}

pub fn copy_operator(o: &Operator) -> (res: Operator)
    ensures
        op_view(res) == op_view(*o),
{
    let targets = o.targets.clone();
    assert(targets@ =~= o.targets@);
    Operator { gate_kind: copy_gate(&o.gate_kind), targets }
}

pub fn copy_operators(ops: &Vec<Operator>) -> (res: Vec<Operator>)
    ensures
        ops_view(res@) == ops_view(ops@),
{
    let mut v: Vec<Operator> = Vec::new();
    let mut i: usize = 0;
    while i < ops.len()
        invariant
            i <= ops.len(),
            v@.len() == i,
            forall|j: int| 0 <= j < i ==> op_view(#[trigger] v@[j]) == op_view(ops@[j]),
        decreases ops.len() - i,
    {
        v.push(copy_operator(&ops[i]));
        i = i + 1;
    }
    proof {
        lemma_ops_view(v@);
        lemma_ops_view(ops@);
        assert(ops_view(v@) =~= ops_view(ops@));
    }
    v
}

pub fn copy_value(v: &EvaluatorType) -> (res: EvaluatorType)
    ensures
        res@ == v@,
{
    match v {
        EvaluatorType::Bits(b) => EvaluatorType::Bits(*b),
        EvaluatorType::Function(f) => EvaluatorType::Function(copy_function(f)),
        EvaluatorType::Oracle(o) => EvaluatorType::Oracle(
            Oracle { input: o.input, loads: copy_function(&o.loads) },
        ),
        EvaluatorType::Circuit(c) => EvaluatorType::Circuit(
            Circuit { init: c.init.clone(), ops: copy_operators(&c.ops) },
        ),
    }
}

impl Clone for EvaluatorType {
    fn clone(&self) -> (res: Self)
        ensures
            res@ == self@,
    {
        copy_value(self)
    }
}

impl Clone for Function {
    fn clone(&self) -> (res: Self)
        ensures
            res@ == self@,
    {
        copy_function(self)
    }
}

impl Clone for Oracle {
    fn clone(&self) -> (res: Self)
        ensures
            res.input == self.input,
            function_view(res.loads) == function_view(self.loads),
    {
        Oracle { input: self.input, loads: copy_function(&self.loads) }
    }
}

impl Clone for Circuit {
    fn clone(&self) -> (res: Self)
        ensures
            res.init@ == self.init@,
            ops_view(res.ops@) == ops_view(self.ops@),
    {
        Circuit { init: self.init.clone(), ops: copy_operators(&self.ops) }
    }
}

// ----- environments -----

impl Environment {
    pub fn new() -> (res: Environment)
        ensures
            res@ == Seq::<(Seq<char>, Value)>::empty(),
    {
        Environment { entries: Vec::new() }
    }

    /// Position of the binding of `name`, if any.
    pub fn position(&self, name: &String) -> (res: Option<usize>)
        ensures
            match res {
                Some(i) => i == env_index(self@, name@) && i < self.entries@.len(),
                None => env_index(self@, name@) < 0,
            },
    {
        proof {
            lemma_scope_view(self.entries@);
        }
        let mut i: usize = self.entries.len();
        assert(self@.subrange(0, i as int) =~= self@);
        while i > 0
            invariant
                i <= self.entries@.len(),
                scope_view(self.entries@).len() == self.entries@.len(),
                forall|j: int|
                    0 <= j < self.entries@.len() ==> #[trigger] scope_view(self.entries@)[j] == (
                        self.entries@[j].0@,
                        value_view(self.entries@[j].1),
                    ),
                env_index(self@, name@) == env_index(self@.subrange(0, i as int), name@),
            decreases i,
        {
            let ghost pre = self@.subrange(0, i as int);
            if self.entries[i - 1].0 == *name {
                assert(pre.last().0 == name@);
                return Some(i - 1);
            }
            assert(pre.drop_last() =~= self@.subrange(0, i - 1));
            i = i - 1;
        }
        assert(self@.subrange(0, 0).len() == 0);
        None
    }

    /// The value bound to `name`, if any.
    pub fn get(&self, name: &String) -> (res: Option<&EvaluatorType>)
        ensures
            match res {
                Some(v) => env_lookup(self@, name@) == Some(v@),
                None => env_lookup(self@, name@) is None,
            },
    {
        proof {
            lemma_scope_view(self.entries@);
        }
        match self.position(name) {
            Some(i) => Some(&self.entries[i].1),
            None => None,
        }
    }

    /// Binds `name` to `value`, replacing an earlier binding of `name`.
    pub fn insert(&mut self, name: String, value: EvaluatorType)
        ensures
            final(self)@ == env_insert(old(self)@, name@, value@),
    {
        proof {
            lemma_scope_view(self.entries@);
        }
        match self.position(&name) {
            Some(i) => {
                let ghost k = name@;
                let ghost v = value@;
                self.entries.set(i, (name, value));
                proof {
                    lemma_scope_view(self.entries@);
                    assert(self@ =~= old(self)@.update(i as int, (k, v)));
                }
            },
            None => {
                let ghost k = name@;
                let ghost v = value@;
                self.entries.push((name, value));
                proof {
                    lemma_scope_view(self.entries@);
                    assert(self@ =~= old(self)@.push((k, v)));
                }
            },
        }
    }
}

} // verus!
