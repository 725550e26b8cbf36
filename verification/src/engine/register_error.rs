use vstd::prelude::*;
use crate::text::{decimal, push_decimal, push_str, string_from_chars};

verus! {

/// Failures of the quantum register engine.
#[derive(Debug)]
pub enum RegisterError {
    EmptyRegister,
    TooManyQubits(usize, usize),
    /// The offending character, and the alphabet that patterns are drawn from.
    InvalidQubit(char, Vec<char>),
    OutOfRange(usize, usize),
    CompositionFailed(String),
    BlackBoxMisalign,
    RunTimeFailure(Option<String>),
}

pub enum SpecRegisterError {
    EmptyRegister,
    TooManyQubits(usize, usize),
    InvalidQubit(char, Seq<char>),
    OutOfRange(usize, usize),
    CompositionFailed(Seq<char>),
    BlackBoxMisalign,
    RunTimeFailure(Option<Seq<char>>),
}

impl View for RegisterError {
    type V = SpecRegisterError;

    open spec fn view(&self) -> SpecRegisterError {
        match self {
            RegisterError::EmptyRegister => SpecRegisterError::EmptyRegister,
            RegisterError::TooManyQubits(a, b) => SpecRegisterError::TooManyQubits(*a, *b),
            RegisterError::InvalidQubit(c, alphabet) => SpecRegisterError::InvalidQubit(*c, alphabet@),
            RegisterError::OutOfRange(a, b) => SpecRegisterError::OutOfRange(*a, *b),
            RegisterError::CompositionFailed(s) => SpecRegisterError::CompositionFailed(s@),
            RegisterError::BlackBoxMisalign => SpecRegisterError::BlackBoxMisalign,
            RegisterError::RunTimeFailure(s) => SpecRegisterError::RunTimeFailure(
                match s {
                    Some(m) => Some(m@),
                    None => None,
                },
            ),
        }
    }
}


/// The characters of a list, each quoted and separated by commas, as in
/// `'0', '1'`.
pub open spec fn char_list(cs: Seq<char>) -> Seq<char>
    decreases cs.len(),
{
    if cs.len() == 0 {
        Seq::empty()
    } else if cs.len() == 1 {
        seq!['\'', cs[0], '\'']
    } else {
        char_list(cs.drop_last()) + ", "@ + seq!['\'', cs.last(), '\'']
    }
}

/// The text that describes a failure.
pub open spec fn register_message(e: SpecRegisterError) -> Seq<char> {
    match e {
        SpecRegisterError::EmptyRegister => "Cannot have an empty register."@,
        SpecRegisterError::TooManyQubits(n, max) => "Passed '"@ + decimal(n as nat) + "' qubits to register, but maximum is "@
            + decimal(max as nat) + "."@,
        SpecRegisterError::InvalidQubit(c, alphabet) => "Character '"@ + seq![c] + "' does not exist in alphabet {'{"@
            + char_list(alphabet) + "}'}."@,
        SpecRegisterError::OutOfRange(v, max) => "Tried to operate on qubit '"@ + decimal(v as nat) + "', but only "@
            + decimal(max as nat) + " are in the register."@,
        SpecRegisterError::CompositionFailed(op) => "Failed to apply Operation '"@ + op + "' to register."@,
        SpecRegisterError::BlackBoxMisalign => "Black Box Misaligned with provided inputs"@,
        SpecRegisterError::RunTimeFailure(Some(s)) => "Unexpected failure at runtime: "@ + s,
        SpecRegisterError::RunTimeFailure(None) => "Unexpected failure at runtime"@,
    }
}

impl RegisterError {
    pub fn message(&self) -> (res: String)
        ensures
            res@ == register_message(self@),
    {
        let mut out: Vec<char> = Vec::new();
        match self {
            RegisterError::EmptyRegister => push_str(&mut out, "Cannot have an empty register."),
            RegisterError::TooManyQubits(n, max) => {
                push_str(&mut out, "Passed '");
                push_decimal(*n, &mut out);
                push_str(&mut out, "' qubits to register, but maximum is ");
                push_decimal(*max, &mut out);
                push_str(&mut out, ".");
            },
            RegisterError::InvalidQubit(c, alphabet) => {
                push_str(&mut out, "Character '");
                out.push(*c);
                push_str(&mut out, "' does not exist in alphabet {'{");
                let ghost head = out@;
                let mut i: usize = 0;
                while i < alphabet.len()
                    invariant
                        i <= alphabet@.len(),
                        out@ == head + char_list(alphabet@.take(i as int)),
                    decreases alphabet@.len() - i,
                {
                    assert(alphabet@.take(i + 1).drop_last() =~= alphabet@.take(i as int));
                    if i > 0 {
                        push_str(&mut out, ", ");
                    }
                    out.push('\'');
                    out.push(alphabet[i]);
                    out.push('\'');
                    i = i + 1;
                    assert(out@ =~= head + char_list(alphabet@.take(i as int)));
                }
                assert(alphabet@.take(alphabet@.len() as int) =~= alphabet@);
                push_str(&mut out, "}'}.");
            },
            RegisterError::OutOfRange(v, max) => {
                push_str(&mut out, "Tried to operate on qubit '");
                push_decimal(*v, &mut out);
                push_str(&mut out, "', but only ");
                push_decimal(*max, &mut out);
                push_str(&mut out, " are in the register.");
            },
            RegisterError::CompositionFailed(op) => {
                push_str(&mut out, "Failed to apply Operation '");
                push_str(&mut out, op.as_str());
                push_str(&mut out, "' to register.");
            },
            RegisterError::BlackBoxMisalign => push_str(&mut out, "Black Box Misaligned with provided inputs"),
            RegisterError::RunTimeFailure(Some(s)) => {
                push_str(&mut out, "Unexpected failure at runtime: ");
                push_str(&mut out, s.as_str());
            },
            RegisterError::RunTimeFailure(None) => push_str(&mut out, "Unexpected failure at runtime"),
        }
        assert(out@ =~= register_message(self@));
        string_from_chars(out.as_slice())
    }
}

} // verus!
