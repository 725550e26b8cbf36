use vstd::prelude::*;
use crate::engine::black_box::BlackBox;
use crate::engine::gate::{Gate, gate_arity, gate_name};
use crate::interpreter::evaluator::environment::{GateValue, Lambda, closure_view, gate_view};
use crate::text::{decimal, push_decimal, push_str, string_from_chars};

verus! {

/// A gate together with the qubits that it acts on.
pub struct Operator {
    pub gate_kind: Gate,
    pub targets: Vec<usize>,
}

/// The targets as a list: `[a, b, c]`.
pub open spec fn targets_label(t: Seq<usize>) -> Seq<char> {
    "["@ + joined(t) + "]"@
}

/// The decimal numerals of `t`, separated by `, `.
pub open spec fn joined(t: Seq<usize>) -> Seq<char>
    decreases t.len(),
{
    if t.len() == 0 {
        Seq::empty()
    } else if t.len() == 1 {
        decimal(t[0] as nat)
    } else {
        joined(t.drop_last()) + ", "@ + decimal(t.last() as nat)
    }
}

/// How an operator is shown: its gate's name, then its targets.
pub open spec fn operator_label(g: GateValue, t: Seq<usize>) -> Seq<char> {
    gate_name(g) + targets_label(t)
}

impl Operator {
    /// The operation of `g` on `targets`; none unless there are as many
    /// targets as `g` acts on.
    pub fn new(g: Gate, targets: Vec<usize>) -> (res: Option<Self>)
        ensures
            gate_arity(g@) == targets@.len() ==> (res matches Some(op) && op.gate_kind@ == g@
                && op.targets@ == targets@),
            gate_arity(g@) != targets@.len() ==> res is None,
    {
        if g.arity() != targets.len() {
            return None;
        }
        Some(Operator { gate_kind: g, targets })
    }

    /// The unitary `U_f` of `f :: {0,1}^n -> {0,1}^m`; it acts on the
    /// whole register, so it names no targets.
    pub fn new_u_f(f: Lambda, n: usize, m: usize) -> (res: Option<Self>)
        ensures
            res matches Some(op) && op.gate_kind@ == GateValue::BlackBox(n, m, closure_view(*f))
                && op.targets@.len() == 0,
    {
        let bb = BlackBox::new(f, n, m);
        Some(Operator { gate_kind: Gate::BlackBox(bb), targets: Vec::new() })
    }

    /// Its gate's name followed by its targets, as in `CNOT[0, 1]`.
    pub fn to_string(&self) -> (res: String)
        ensures
            res@ == operator_label(self.gate_kind@, self.targets@),
    {
        let mut out: Vec<char> = Vec::new();
        let name = self.gate_kind.name();
        push_str(&mut out, name);
        push_str(&mut out, "[");
        let ghost head = out@;
        let mut i: usize = 0;
        while i < self.targets.len()
            invariant
                i <= self.targets@.len(),
                out@ == head + joined(self.targets@.take(i as int)),
            decreases self.targets@.len() - i,
        {
            let ghost t = self.targets@.take(i as int + 1);
            assert(t.drop_last() =~= self.targets@.take(i as int));
            if i > 0 {
                push_str(&mut out, ", ");
            }
            push_decimal(self.targets[i], &mut out);
            i = i + 1;
            if i == 1 {
                assert(joined(self.targets@.take(1)) =~= decimal(self.targets@[0] as nat));
            }
            assert(out@ =~= head + joined(self.targets@.take(i as int)));
        }
        push_str(&mut out, "]");
        assert(self.targets@.take(self.targets@.len() as int) =~= self.targets@);
        assert(out@ =~= operator_label(self.gate_kind@, self.targets@));
        string_from_chars(out.as_slice())
    }
}

} // verus!
