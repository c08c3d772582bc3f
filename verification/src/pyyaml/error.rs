//! Marks and errors.

use vstd::prelude::*;

verus! {

/// A position in the character buffer: all fields are 0-based, `pointer`
/// is the character index into the buffer.
#[derive(Debug, Clone, Copy, PartialEq, Eq, Structural)]
pub struct Mark {
    /// Character index in the buffer.
    pub pointer: usize,
    /// Line number, 0-based.
    pub line: usize,
    /// Column number, 0-based (in characters).
    pub column: usize,
}

impl Default for Mark {
    fn default() -> (r: Self)
        ensures
            r == (Mark { pointer: 0, line: 0, column: 0 }),
    {
        Mark { pointer: 0, line: 0, column: 0 }
    }
}

/// A scanner or parser error.
/// Diagnostics consume only `problem` and `problem_mark`.
#[derive(Debug, Clone)]
pub struct YamlError {
    pub context: Option<String>,
    pub context_mark: Option<Mark>,
    pub problem: String,
    pub problem_mark: Option<Mark>,
}

impl YamlError {
    pub fn new(
        context: Option<&str>,
        context_mark: Option<Mark>,
        problem: String,
        problem_mark: Option<Mark>,
    ) -> (r: Self)
        ensures
            match (r.context, context) {
                (Some(a), Some(b)) => a@ == b@,
                (None, None) => true,
                _ => false,
            },
            r.context_mark == context_mark,
            r.problem@ == problem@,
            r.problem_mark == problem_mark,
    {
        let context = match context {
            Some(c) => Some(c.to_owned()),
            None => None,
        };
        YamlError { context, context_mark, problem, problem_mark }
    }
}

} // verus!
