use vstd::prelude::*;
use crate::engine::register_error::register_message;
use crate::text::{decimal, push_decimal, push_str, string_from_chars};
use crate::engine::register_error::{RegisterError, SpecRegisterError};

verus! {

/// Failures while evaluating a program.
#[derive(Debug)]
pub enum RuntimeError {
    TypeMismatch,
    BinaryConversionFailed(String),
    VarNotFound(String),
    IncorrectArgs(usize, usize),
    OracleConstructionFailed,
    BackendError(RegisterError),
    OutOfBounds(String, usize),
    MethodUndefined(String),
    Fatal,
}

pub enum SpecRuntimeError {
    TypeMismatch,
    BinaryConversionFailed(Seq<char>),
    VarNotFound(Seq<char>),
    IncorrectArgs(usize, usize),
    OracleConstructionFailed,
    BackendError(SpecRegisterError),
    OutOfBounds(Seq<char>, usize),
    MethodUndefined(Seq<char>),
    Fatal,
}

impl View for RuntimeError {
    type V = SpecRuntimeError;

    open spec fn view(&self) -> SpecRuntimeError {
        match self {
            RuntimeError::TypeMismatch => SpecRuntimeError::TypeMismatch,
            RuntimeError::BinaryConversionFailed(s) => SpecRuntimeError::BinaryConversionFailed(s@),
            RuntimeError::VarNotFound(s) => SpecRuntimeError::VarNotFound(s@),
            RuntimeError::IncorrectArgs(a, b) => SpecRuntimeError::IncorrectArgs(*a, *b),
            RuntimeError::OracleConstructionFailed => SpecRuntimeError::OracleConstructionFailed,
            RuntimeError::BackendError(e) => SpecRuntimeError::BackendError(e@),
            RuntimeError::OutOfBounds(s, n) => SpecRuntimeError::OutOfBounds(s@, *n),
            RuntimeError::MethodUndefined(s) => SpecRuntimeError::MethodUndefined(s@),
            RuntimeError::Fatal => SpecRuntimeError::Fatal,
        }
    }
}

impl vstd::std_specs::convert::FromSpecImpl<RegisterError> for RuntimeError {
    open spec fn obeys_from_spec() -> bool {
        true
    }

    open spec fn from_spec(v: RegisterError) -> RuntimeError {
        RuntimeError::BackendError(v)
    }
}

/// The conversion of an engine failure into a runtime failure.
impl From<RegisterError> for RuntimeError {
    fn from(err: RegisterError) -> (res: Self)
        ensures
            res@ == SpecRuntimeError::BackendError(err@),
    {
        RuntimeError::BackendError(err)
    }
}


/// The text that describes a failure.
pub open spec fn runtime_message(e: SpecRuntimeError) -> Seq<char> {
    match e {
        SpecRuntimeError::TypeMismatch => "Type mismatched identified during runtime"@,
        SpecRuntimeError::BinaryConversionFailed(m) => "Failed to cast binary to `usize`: "@ + m,
        SpecRuntimeError::VarNotFound(v) => "variable '"@ + v + "' was not found in the environment"@,
        SpecRuntimeError::IncorrectArgs(e, a) => "expected '"@ + decimal(e as nat) + "' args in function, but got '"@
            + decimal(a as nat) + "'"@,
        SpecRuntimeError::OracleConstructionFailed => "ensure that `f :: x -> y` implies oracle has type |x, y>, such that x >= y."@,
        SpecRuntimeError::BackendError(r) => "Engine failed while performing circuit computation: "@ + register_message(r),
        SpecRuntimeError::OutOfBounds(i, p) => "Identifier '"@ + i + "' in circuit has no index "@ + decimal(p as nat),
        SpecRuntimeError::MethodUndefined(m) => "Method '"@ + m + "' is not supported for circuits."@,
        SpecRuntimeError::Fatal => "an unexpected error occured."@,
    }
}

impl RuntimeError {
    pub fn message(&self) -> (res: String)
        ensures
            res@ == runtime_message(self@),
    {
        let mut out: Vec<char> = Vec::new();
        match self {
            RuntimeError::TypeMismatch => push_str(&mut out, "Type mismatched identified during runtime"),
            RuntimeError::BinaryConversionFailed(m) => {
                push_str(&mut out, "Failed to cast binary to `usize`: ");
                push_str(&mut out, m.as_str());
            },
            RuntimeError::VarNotFound(v) => {
                push_str(&mut out, "variable '");
                push_str(&mut out, v.as_str());
                push_str(&mut out, "' was not found in the environment");
            },
            RuntimeError::IncorrectArgs(e, a) => {
                push_str(&mut out, "expected '");
                push_decimal(*e, &mut out);
                push_str(&mut out, "' args in function, but got '");
                push_decimal(*a, &mut out);
                push_str(&mut out, "'");
            },
            RuntimeError::OracleConstructionFailed => push_str(&mut out, "ensure that `f :: x -> y` implies oracle has type |x, y>, such that x >= y."),
            RuntimeError::BackendError(r) => {
                push_str(&mut out, "Engine failed while performing circuit computation: ");
                let m = r.message();
                push_str(&mut out, m.as_str());
            },
            RuntimeError::OutOfBounds(i, p) => {
                push_str(&mut out, "Identifier '");
                push_str(&mut out, i.as_str());
                push_str(&mut out, "' in circuit has no index ");
                push_decimal(*p, &mut out);
            },
            RuntimeError::MethodUndefined(m) => {
                push_str(&mut out, "Method '");
                push_str(&mut out, m.as_str());
                push_str(&mut out, "' is not supported for circuits.");
            },
            RuntimeError::Fatal => push_str(&mut out, "an unexpected error occured."),
        }
        assert(out@ =~= runtime_message(self@));
        string_from_chars(out.as_slice())
    }
}

} // verus!
