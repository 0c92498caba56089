//! Errors, with the trace of calls they passed through.
use vstd::prelude::*;
use crate::caller::Caller;
use crate::text::{chars_of, string_of};

verus! {

/// The kinds of failure.
#[derive(Clone, Copy, Debug, PartialEq, Eq, Structural)]
pub enum ErrorType {
    IOError,
    FormatError,
    ParserError,
    RuntimeError,
}

/// A failure: its kind, a message, and the calls it went through, the
/// outermost first.
#[derive(Debug, PartialEq, Eq)]
pub struct Error {
    pub kind: ErrorType,
    pub message: String,
    pub callers: Vec<Caller>,
}

impl Error {
    pub fn new(message: String, kind: ErrorType) -> (r: Error)
        ensures
            r.kind == kind,
            r.message@ == message@,
            r.callers@.len() == 0,
    {
        Error { kind, message, callers: Vec::new() }
    }

    /// The same error with `caller` put in front of its trace.
    pub fn with(self, caller: Caller) -> (r: Error)
        ensures
            r.kind == self.kind,
            r.message@ == self.message@,
            r.callers@ == seq![caller] + self.callers@,
    {
        let mut callers: Vec<Caller> = Vec::new();
        callers.push(caller);
        let mut rest = self.callers;
        callers.append(&mut rest);
        Error { kind: self.kind, message: self.message, callers }
    }

    pub fn message(&self) -> (r: &String)
        ensures
            r@ == self.message@,
    {
        &self.message
    }

    /// The trace of calls this error went through, one per line, each
    /// deeper one indented by `indent` more spaces.
    pub fn callers_to_string(&self, indent: usize) -> (r: String)
        ensures
            r@ == crate::caller::trace_text(self.callers@, indent as nat),
    {
        crate::caller::callers_to_string(&self.callers, indent)
    }

    pub fn kind(&self) -> (r: ErrorType)
        ensures
            r == self.kind,
    {
        self.kind
    }
}

/// A runtime error with the message made of `parts`.
pub fn runtime_error(parts: Vec<char>) -> (r: Error)
    ensures
        r.kind == ErrorType::RuntimeError,
        r.message@ == parts@,
        r.callers@.len() == 0,
{
    Error::new(string_of(&parts), ErrorType::RuntimeError)
}

/// Appends the characters of `s` to `out`.
pub fn push_str(out: &mut Vec<char>, s: &str)
    ensures
        final(out)@ == old(out)@ + s@,
{
    let chars = chars_of(s);
    let mut i: usize = 0;
    while i < chars.len()
        invariant
            i <= chars.len(),
            chars@ == s@,
            out@ == old(out)@ + s@.subrange(0, i as int),
        decreases chars.len() - i,
    {
        out.push(chars[i]);
        i = i + 1;
        assert(out@ =~= old(out)@ + s@.subrange(0, i as int));
    }
    assert(s@.subrange(0, s@.len() as int) =~= s@);
}

} // verus!
