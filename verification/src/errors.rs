use vstd::prelude::*;

verus! {

/// The two kinds of failure that lexing and parsing report.
#[derive(Debug, PartialEq, Eq, Clone, Copy, Structural)]
pub enum Errors {
    /// Malformed tokens or grammar: a missing operand, an unmatched bracket,
    /// an unterminated literal, a numeric prefix without digits.
    SyntaxError,
    /// A literal that is lexically well formed but whose decoded value is not
    /// acceptable: an escape that is not UTF-8, an integer that does not fit.
    ValueError,
}

/// The mathematical form of a failure: its kind and its message.
pub type Failure = (Errors, Seq<char>);

/// An executable failure `e` carries exactly the kind and message of `f`.
pub open spec fn same_failure(e: (Errors, String), f: Failure) -> bool {
    e.0 == f.0 && e.1@ == f.1
}

} // verus!
