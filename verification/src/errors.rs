use vstd::prelude::*;

verus! {

/// The fatal input errors of the calculator. An invalid address literal or an
/// out-of-range prefix aborts the run; there is no recovery path.
#[derive(Clone, Copy, Debug, PartialEq, Eq, Structural)]
pub enum CalcError {
    /// The input is not a syntactically valid IPv6 literal.
    MalformedAddress,
    /// The prefix is an integer but outside the accepted range, or it fails
    /// the stricter rule of the detected address-type category.
    InvalidPrefix,
}

} // verus!
