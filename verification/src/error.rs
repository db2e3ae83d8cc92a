//! The three kinds of fault that end a compilation.

use vstd::prelude::*;
use crate::token::TokenKind;

verus! {

/// Why a compilation stopped. The first fault ends the run; nothing is
/// produced after it.
#[derive(Debug, PartialEq, Eq)]
pub enum CompileError {
    /// A `#` was followed by no word, or by a word that is no reserved word.
    /// `form` is the `#` with that word in upper case; `line` and `col` are
    /// those of the scanner just past the word.
    Lexical { line: usize, col: usize, form: String },
    /// The token at `position`, counted from 0, is not of the kind that the
    /// grammar demands there.
    Syntax { position: usize, expected: TokenKind },
    /// A variable is used where no enclosing block binds it.
    Semantic { name: String },
}

impl Clone for CompileError {
    fn clone(&self) -> (copy: Self)
        ensures
            copy@ == self@,
    {
        match self {
            CompileError::Lexical { line, col, form } => CompileError::Lexical {
                line: *line,
                col: *col,
                form: form.clone(),
            },
            CompileError::Syntax { position, expected } => CompileError::Syntax {
                position: *position,
                expected: *expected,
            },
            CompileError::Semantic { name } => CompileError::Semantic { name: name.clone() },
        }
    }
}

/// The mathematical value of a fault.
pub enum Fault {
    Lexical { line: nat, col: nat, form: Seq<char> },
    Syntax { position: nat, expected: TokenKind },
    Semantic { name: Seq<char> },
}

impl View for CompileError {
    type V = Fault;

    open spec fn view(&self) -> Fault {
        match *self {
            CompileError::Lexical { line, col, form } => Fault::Lexical {
                line: line as nat,
                col: col as nat,
                form: form@,
            },
            CompileError::Syntax { position, expected } => Fault::Syntax {
                position: position as nat,
                expected,
            },
            CompileError::Semantic { name } => Fault::Semantic { name: name@ },
        }
    }
}

} // verus!
