//! The ways in which a piece of a keyframes rule can fail to parse.

use vstd::prelude::*;

verus! {

/// Why a selector or a declaration was refused.
#[derive(Clone, Copy, Debug, PartialEq, Eq, Structural)]
pub enum ParseErrorKind {
    /// A token stands where the grammar allows none, or another one.
    UnexpectedToken,
    /// The input ends where the grammar asks for a token.
    EndOfInput,
    /// An at-rule stands where none is allowed.
    AtRuleInvalid,
    /// The name of a declaration is the name of no property.
    UnknownProperty,
    /// The tokens are those the grammar asks for, but their value is refused.
    UnspecifiedError,
}

} // verus!
