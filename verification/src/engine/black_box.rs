use vstd::prelude::*;
use crate::engine::register_error::{RegisterError, SpecRegisterError};
use crate::interpreter::evaluator::environment::{
    Bits, ClosureValue, EvaluatorType, Lambda, Value, closure_view, closure_wf,
};
use crate::interpreter::evaluator::eval_expr::{bind_params, eval_in, eval_spec, locals_view};
use crate::text::{decimal, push_decimal, push_str, string_from_chars};

verus! {

/// A classical function `f :: {0,1}^input_size -> {0,1}^output_size`,
/// evaluated by the `Lambda` that it carries.
pub struct BlackBox {
    pub input_size: usize,
    pub output_size: usize,
    pub method: Lambda,
}

/// What the black box with body `c` gives on `input`: the body is
/// evaluated with its first parameter bound to `input` as a bitstring of
/// `input_size` bits; a bitstring result gives its value, another value
/// `BlackBoxMisalign`, a failure of the body `RunTimeFailure`.
pub open spec fn black_box_result(c: ClosureValue, input_size: usize, input: usize) -> Result<usize, SpecRegisterError> {
    let arg = Bits { literal: input, length: input_size };
    match eval_spec(c.body, c.scope, bind_params(c.params, seq![arg])) {
        Ok(Value::Bits(b)) => Ok(b.literal),
        Ok(_) => Err(SpecRegisterError::BlackBoxMisalign),
        Err(_) => Err(SpecRegisterError::RunTimeFailure(None)),
    }
}

impl BlackBox {
    /// The black box of `f :: {0,1}^input_size -> {0,1}^output_size`.
    pub fn new(f: Lambda, input_size: usize, output_size: usize) -> (res: Self)
        ensures
            res.input_size == input_size,
            res.output_size == output_size,
            res.method == f,
    {
        BlackBox { input_size, output_size, method: f }
    }

    pub fn input_size(&self) -> (res: usize)
        ensures
            res == self.input_size,
    {
        self.input_size
    }

    pub fn output_size(&self) -> (res: usize)
        ensures
            res == self.output_size,
    {
        self.output_size
    }

    /// How a black box is described: its input and output sizes.
    pub fn to_string(&self) -> (res: String)
        ensures
            res@ == "function with input "@ + decimal(self.input_size as nat) + " and output "@
                + decimal(self.output_size as nat),
    {
        let mut out: Vec<char> = Vec::new();
        push_str(&mut out, "function with input ");
        push_decimal(self.input_size, &mut out);
        push_str(&mut out, " and output ");
        push_decimal(self.output_size, &mut out);
        string_from_chars(out.as_slice())
    }

    /// `f(input)`.
    pub fn eval(&self, input: usize) -> (res: Result<usize, RegisterError>)
        requires
            closure_wf(closure_view(*self.method)),
        ensures
            match black_box_result(closure_view(*self.method), self.input_size, input) {
                Ok(v) => res == Ok::<usize, RegisterError>(v),
                Err(e) => res matches Err(x) && x@ == e,
            },
    {
        let c = &*self.method;
        let arg = Bits { literal: input, length: self.input_size };
        let mut locals: Vec<(String, Bits)> = Vec::new();
        if c.params.len() > 0 {
            locals.push((c.params[0].clone(), arg));
        }
        proof {
            let cv = closure_view(*c);
            assert(locals_view(locals@) =~= bind_params(cv.params, seq![arg]));
        }
        match eval_in(&c.body, &c.scope, &locals) {
            Ok(EvaluatorType::Bits(b)) => Ok(b.literal),
            Ok(_) => Err(RegisterError::BlackBoxMisalign),
            Err(_) => Err(RegisterError::RunTimeFailure(None)),
        }
    }
}

} // verus!
