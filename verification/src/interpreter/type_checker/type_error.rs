use vstd::prelude::*;
use crate::text::{decimal, push_decimal, push_str, string_from_chars};

verus! {

/// Reasons for which a program is not well typed.
#[derive(Debug)]
pub enum TypeError {
    Expected(&'static str, String),
    FailedBitsParse(String),
    BinaryOpFailed(usize, usize),
    UnresolvedIdentifier(String),
    InvalidArgs,
    FunctionArgWrongType(String),
    FunctionReturnWrongType(String),
    FunctionIncorrectlyTyped(String),
    InvalidGateAppl(String, usize, usize),
    Todo,
}

pub enum SpecTypeError {
    Expected(Seq<char>, Seq<char>),
    FailedBitsParse(Seq<char>),
    BinaryOpFailed(usize, usize),
    UnresolvedIdentifier(Seq<char>),
    InvalidArgs,
    FunctionArgWrongType(Seq<char>),
    FunctionReturnWrongType(Seq<char>),
    FunctionIncorrectlyTyped(Seq<char>),
    InvalidGateAppl(Seq<char>, usize, usize),
    Todo,
    /// A count of qubits goes past `usize::MAX` (a machine limit; no
    /// type error stands for it).
    Overflow,
}

impl View for TypeError {
    type V = SpecTypeError;

    open spec fn view(&self) -> SpecTypeError {
        match self {
            TypeError::Expected(a, b) => SpecTypeError::Expected(a@, b@),
            TypeError::FailedBitsParse(s) => SpecTypeError::FailedBitsParse(s@),
            TypeError::BinaryOpFailed(a, b) => SpecTypeError::BinaryOpFailed(*a, *b),
            TypeError::UnresolvedIdentifier(s) => SpecTypeError::UnresolvedIdentifier(s@),
            TypeError::InvalidArgs => SpecTypeError::InvalidArgs,
            TypeError::FunctionArgWrongType(s) => SpecTypeError::FunctionArgWrongType(s@),
            TypeError::FunctionReturnWrongType(s) => SpecTypeError::FunctionReturnWrongType(s@),
            TypeError::FunctionIncorrectlyTyped(s) => SpecTypeError::FunctionIncorrectlyTyped(s@),
            TypeError::InvalidGateAppl(s, a, b) => SpecTypeError::InvalidGateAppl(s@, *a, *b),
            TypeError::Todo => SpecTypeError::Todo,
        }
    }
}


/// The text that describes a failure.
pub open spec fn type_message(e: SpecTypeError) -> Seq<char> {
    match e {
        SpecTypeError::Expected(t, got) => "Expected type '"@ + t + "', but value resolved to "@ + got,
        SpecTypeError::FailedBitsParse(b) => "Failed to parse string '"@ + b + "' into a bitstring"@,
        SpecTypeError::BinaryOpFailed(a, b) => "Failed to compose binary operation (LHS was a "@ + decimal(a as nat)
            + "-bitstring, RHS was a "@ + decimal(b as nat) + "-bitstring)"@,
        SpecTypeError::UnresolvedIdentifier(n) => "Variable '"@ + n + "' could not be resolved."@,
        SpecTypeError::InvalidArgs => "Arguments which were passed to function did not align with signature"@,
        SpecTypeError::FunctionArgWrongType(f) => "function '"@ + f + "' was defined with a non-bits parameter."@,
        SpecTypeError::FunctionReturnWrongType(f) => "function '"@ + f + "' was defined with a non-bits return value."@,
        SpecTypeError::FunctionIncorrectlyTyped(f) => "Function '"@ + f
            + "' was defined to have a different return type than what was analysed"@,
        SpecTypeError::InvalidGateAppl(g, r, a) => "Gate '"@ + g + "' expected "@ + decimal(r as nat) + " qubits, but got "@
            + decimal(a as nat),
        SpecTypeError::Todo => "This error has yet to be properly documented"@,
        SpecTypeError::Overflow => Seq::empty(),
    }
}

impl TypeError {
    pub fn message(&self) -> (res: String)
        ensures
            res@ == type_message(self@),
    {
        let mut out: Vec<char> = Vec::new();
        match self {
            TypeError::Expected(t, got) => {
                push_str(&mut out, "Expected type '");
                push_str(&mut out, t);
                push_str(&mut out, "', but value resolved to ");
                push_str(&mut out, got.as_str());
            },
            TypeError::FailedBitsParse(b) => {
                push_str(&mut out, "Failed to parse string '");
                push_str(&mut out, b.as_str());
                push_str(&mut out, "' into a bitstring");
            },
            TypeError::BinaryOpFailed(a, b) => {
                push_str(&mut out, "Failed to compose binary operation (LHS was a ");
                push_decimal(*a, &mut out);
                push_str(&mut out, "-bitstring, RHS was a ");
                push_decimal(*b, &mut out);
                push_str(&mut out, "-bitstring)");
            },
            TypeError::UnresolvedIdentifier(n) => {
                push_str(&mut out, "Variable '");
                push_str(&mut out, n.as_str());
                push_str(&mut out, "' could not be resolved.");
            },
            TypeError::InvalidArgs => push_str(&mut out, "Arguments which were passed to function did not align with signature"),
            TypeError::FunctionArgWrongType(f) => {
                push_str(&mut out, "function '");
                push_str(&mut out, f.as_str());
                push_str(&mut out, "' was defined with a non-bits parameter.");
            },
            TypeError::FunctionReturnWrongType(f) => {
                push_str(&mut out, "function '");
                push_str(&mut out, f.as_str());
                push_str(&mut out, "' was defined with a non-bits return value.");
            },
            TypeError::FunctionIncorrectlyTyped(f) => {
                push_str(&mut out, "Function '");
                push_str(&mut out, f.as_str());
                push_str(&mut out, "' was defined to have a different return type than what was analysed");
            },
            TypeError::InvalidGateAppl(g, r, a) => {
                push_str(&mut out, "Gate '");
                push_str(&mut out, g.as_str());
                push_str(&mut out, "' expected ");
                push_decimal(*r, &mut out);
                push_str(&mut out, " qubits, but got ");
                push_decimal(*a, &mut out);
            },
            TypeError::Todo => push_str(&mut out, "This error has yet to be properly documented"),
        }
        assert(out@ =~= type_message(self@));
        string_from_chars(out.as_slice())
    }
}

} // verus!
