use vstd::prelude::*;
use crate::text::{push_str, string_from_chars};

verus! {

/// Failures while reading the source into tokens.
#[derive(Debug)]
pub enum LexerError {
    /// The file that could not be read, and why.
    FileError(String, String),
    UnexpectedChar(char),
    UnexpectedEOF,
    UnclosedString,
    UnclosedComment,
}

pub enum SpecLexerError {
    FileError(Seq<char>, Seq<char>),
    UnexpectedChar(char),
    UnexpectedEOF,
    UnclosedString,
    UnclosedComment,
}

impl View for LexerError {
    type V = SpecLexerError;

    open spec fn view(&self) -> SpecLexerError {
        match self {
            LexerError::FileError(a, b) => SpecLexerError::FileError(a@, b@),
            LexerError::UnexpectedChar(c) => SpecLexerError::UnexpectedChar(*c),
            LexerError::UnexpectedEOF => SpecLexerError::UnexpectedEOF,
            LexerError::UnclosedString => SpecLexerError::UnclosedString,
            LexerError::UnclosedComment => SpecLexerError::UnclosedComment,
        }
    }
}


/// The text that describes a failure.
pub open spec fn lexer_message(e: SpecLexerError) -> Seq<char> {
    match e {
        SpecLexerError::FileError(f, why) => "Cannot read file '"@ + f + "': "@ + why,
        SpecLexerError::UnexpectedChar(c) => "Unexpected Character '"@ + seq![c] + "' read."@,
        SpecLexerError::UnexpectedEOF => "Unexpected End-of-File"@,
        SpecLexerError::UnclosedString => "String not closed before EOF."@,
        SpecLexerError::UnclosedComment => "Comment not closed before EOF."@,
    }
}

impl LexerError {
    /// The text that describes the failure.
    pub fn message(&self) -> (res: String)
        ensures
            res@ == lexer_message(self@),
    {
        let mut out: Vec<char> = Vec::new();
        match self {
            LexerError::FileError(f, why) => {
                push_str(&mut out, "Cannot read file '");
                push_str(&mut out, f.as_str());
                push_str(&mut out, "': ");
                push_str(&mut out, why.as_str());
            },
            LexerError::UnexpectedChar(c) => {
                push_str(&mut out, "Unexpected Character '");
                out.push(*c);
                push_str(&mut out, "' read.");
            },
            LexerError::UnexpectedEOF => push_str(&mut out, "Unexpected End-of-File"),
            LexerError::UnclosedString => push_str(&mut out, "String not closed before EOF."),
            LexerError::UnclosedComment => push_str(&mut out, "Comment not closed before EOF."),
        }
        assert(out@ =~= lexer_message(self@));
        string_from_chars(out.as_slice())
    }
}

} // verus!
