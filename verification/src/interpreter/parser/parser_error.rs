use vstd::prelude::*;
use crate::text::{push_str, string_from_chars};

verus! {

/// Failures while building the syntax tree from tokens.
#[derive(Debug)]
pub enum ParserError {
    UnexpectedToken(String),
    UnexpectedEnd,
    NoRegistersParsed,
    FailedNumConversion(String),
}

pub enum SpecParserError {
    UnexpectedToken(Seq<char>),
    UnexpectedEnd,
    NoRegistersParsed,
    FailedNumConversion(Seq<char>),
    /// An expression would start after the last token, where parsing
    /// cannot go on; no failure value stands for it.
    PastEnd,
}

impl View for ParserError {
    type V = SpecParserError;

    open spec fn view(&self) -> SpecParserError {
        match self {
            ParserError::UnexpectedToken(s) => SpecParserError::UnexpectedToken(s@),
            ParserError::UnexpectedEnd => SpecParserError::UnexpectedEnd,
            ParserError::NoRegistersParsed => SpecParserError::NoRegistersParsed,
            ParserError::FailedNumConversion(s) => SpecParserError::FailedNumConversion(s@),
        }
    }
}


/// The text that describes a failure.
pub open spec fn parser_message(e: SpecParserError) -> Seq<char> {
    match e {
        SpecParserError::UnexpectedToken(l) => "Unexpected Token encountered while parsing: "@ + l + "."@,
        SpecParserError::UnexpectedEnd => "Encountered an unexpected end of Token stream while parsing."@,
        SpecParserError::NoRegistersParsed => "Circuit expected at least one register, but none were provided."@,
        SpecParserError::FailedNumConversion(n) => "Attempted to convert '"@ + n + "' to a number, but conversion failed."@,
        SpecParserError::PastEnd => Seq::empty(),
    }
}

impl ParserError {
    pub fn message(&self) -> (res: String)
        ensures
            res@ == parser_message(self@),
    {
        let mut out: Vec<char> = Vec::new();
        match self {
            ParserError::UnexpectedToken(l) => {
                push_str(&mut out, "Unexpected Token encountered while parsing: ");
                push_str(&mut out, l.as_str());
                push_str(&mut out, ".");
            },
            ParserError::UnexpectedEnd => push_str(&mut out, "Encountered an unexpected end of Token stream while parsing."),
            ParserError::NoRegistersParsed => push_str(&mut out, "Circuit expected at least one register, but none were provided."),
            ParserError::FailedNumConversion(n) => {
                push_str(&mut out, "Attempted to convert '");
                push_str(&mut out, n.as_str());
                push_str(&mut out, "' to a number, but conversion failed.");
            },
        }
        assert(out@ =~= parser_message(self@));
        string_from_chars(out.as_slice())
    }
}

} // verus!
