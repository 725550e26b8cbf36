use vstd::prelude::*;
use crate::engine::black_box::BlackBox;
use crate::interpreter::evaluator::environment::{GateValue, gate_view};
use crate::text::str_eq;

verus! {

/// The gates that a circuit can apply.
pub enum Gate {
    RotateX,
    RotateY,
    RotateZ,
    Hadamard,
    ShiftS,
    ShiftT,
    CNot,
    Swap,
    CZ,
    Toffoli,
    CSwap,
    /// A measurement of the given number of qubits.
    Measure(usize),
    /// The unitary `U_f` of a classical function.
    BlackBox(BlackBox),
}

impl View for Gate {
    type V = GateValue;

    open spec fn view(&self) -> GateValue {
        gate_view(*self)
    }
}

/// The number of qubits that a gate acts on; `U_f` acts on its input and
/// output qubits together (a count beyond `usize::MAX` is capped there).
pub open spec fn gate_arity(g: GateValue) -> usize {
    match g {
        GateValue::RotateX | GateValue::RotateY | GateValue::RotateZ | GateValue::Hadamard
        | GateValue::ShiftS | GateValue::ShiftT => 1,
        GateValue::CNot | GateValue::Swap | GateValue::CZ => 2,
        GateValue::Toffoli | GateValue::CSwap => 3,
        GateValue::Measure(m) => m,
        GateValue::BlackBox(x, y, _) => if x + y <= usize::MAX { (x + y) as usize } else { usize::MAX },
    }
}

/// The arity of the built-in gate called `name`; a measurement takes
/// `m_arity` qubits.
pub open spec fn arity_of_name(name: Seq<char>, m_arity: usize) -> Option<usize> {
    if name == "H"@ || name == "X"@ || name == "Y"@ || name == "Z"@ || name == "T"@ || name == "S"@ {
        Some(1)
    } else if name == "CNOT"@ || name == "SWAP"@ || name == "CZ"@ {
        Some(2)
    } else if name == "CCNOT"@ || name == "CSWAP"@ {
        Some(3)
    } else if name == "measure"@ {
        Some(m_arity)
    } else {
        None
    }
}

/// The name a gate is shown by.
pub open spec fn gate_name(g: GateValue) -> Seq<char> {
    match g {
        GateValue::RotateX => "X"@,
        GateValue::RotateY => "Y"@,
        GateValue::RotateZ => "Z"@,
        GateValue::Hadamard => "H"@,
        GateValue::ShiftS => "S"@,
        GateValue::ShiftT => "T"@,
        GateValue::CNot => "CNOT"@,
        GateValue::Swap => "SWAP"@,
        GateValue::CZ => "CZ"@,
        GateValue::Toffoli => "CCNOT"@,
        GateValue::CSwap => "CSWAP"@,
        GateValue::Measure(_) => "measure"@,
        GateValue::BlackBox(_, _, _) => "U_f"@,
    }
}

impl Gate {
    /// The name it is shown by.
    pub fn name(&self) -> (res: &'static str)
        ensures
            res@ == gate_name(self@),
    {
        proof {
            reveal_strlit("X");
            reveal_strlit("Y");
            reveal_strlit("Z");
            reveal_strlit("H");
            reveal_strlit("S");
            reveal_strlit("T");
            reveal_strlit("CNOT");
            reveal_strlit("SWAP");
            reveal_strlit("CZ");
            reveal_strlit("CCNOT");
            reveal_strlit("CSWAP");
            reveal_strlit("measure");
            reveal_strlit("U_f");
        }
        match self {
            Gate::RotateX => "X",
            Gate::RotateY => "Y",
            Gate::RotateZ => "Z",
            Gate::Hadamard => "H",
            Gate::ShiftS => "S",
            Gate::ShiftT => "T",
            Gate::CNot => "CNOT",
            Gate::Swap => "SWAP",
            Gate::CZ => "CZ",
            Gate::Toffoli => "CCNOT",
            Gate::CSwap => "CSWAP",
            Gate::Measure(_) => "measure",
            Gate::BlackBox(_) => "U_f",
        }
    }

    /// The number of qubits it acts on.
    pub fn arity(&self) -> (res: usize)
        ensures
            res == gate_arity(self@),
    {
        match self {
            Gate::RotateX | Gate::RotateY | Gate::RotateZ | Gate::Hadamard | Gate::ShiftS
            | Gate::ShiftT => 1,
            Gate::CNot | Gate::Swap | Gate::CZ => 2,
            Gate::Toffoli | Gate::CSwap => 3,
            Gate::Measure(m) => *m,
            Gate::BlackBox(bb) => bb.input_size.saturating_add(bb.output_size),
        }
    }

    /// The arity of the built-in gate with the given name, if there is one.
    pub fn arity_from_string(name: &String, m_arity: usize) -> (res: Option<usize>)
        ensures
            res == arity_of_name(name@, m_arity),
    {
        if str_eq(name, "H") || str_eq(name, "X") || str_eq(name, "Y") || str_eq(name, "Z")
            || str_eq(name, "T") || str_eq(name, "S") {
            Some(1)
        } else if str_eq(name, "CNOT") || str_eq(name, "SWAP") || str_eq(name, "CZ") {
            Some(2)
        } else if str_eq(name, "CCNOT") || str_eq(name, "CSWAP") {
            Some(3)
        } else if str_eq(name, "measure") {
            Some(m_arity)
        } else {
            None
        }
    }
}

} // verus!
