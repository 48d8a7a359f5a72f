//! Plain-value tokens of a macro invocation's argument list, and the
//! diagnostics of the argument grammar.
//!
//! Decoding source literals into these values (and attaching source
//! locations to the diagnostics) is the calling environment's work; the
//! grammar over the values is the library's.

use vstd::prelude::*;
use vstd::string::StringExecFns;

verus! {

/// A decoded literal.
#[derive(Debug)]
pub enum Lit {
    /// A string literal's character content.
    Str(String),
    /// A character literal.
    Char(char),
    /// A byte literal.
    Byte(u8),
    /// A byte-string literal's byte content.
    ByteStr(Vec<u8>),
    /// A C-string literal's content, as nul-terminated bytes.
    CStr(Vec<u8>),
    /// A literal of any other kind.
    Other,
}

impl Lit {
    /// A C-string literal carries well-formed nul-terminated bytes.
    pub open spec fn wf(self) -> bool {
        self matches Lit::CStr(v) ==> crate::c_string::is_nul_terminated(v@)
    }
}

/// One token of a macro invocation's argument list.
#[derive(Debug)]
pub enum Token {
    /// A comma.
    Comma,
    /// An equals sign.
    Eq,
    /// An identifier.
    Ident(String),
    /// A literal.
    Literal(Lit),
    /// Any other token.
    Other,
}

impl Token {
    pub open spec fn wf(self) -> bool {
        self matches Token::Literal(l) ==> l.wf()
    }
}

/// Every literal token in `ts` is well formed.
pub open spec fn tokens_wf(ts: Seq<Token>) -> bool {
    forall|i: int| 0 <= i < ts.len() ==> ts[i].wf()
}

/// A diagnostic of the argument grammar.  Each variant stands for one
/// malformed-invocation shape; `message` spells its wording out.
#[derive(Debug, PartialEq, Eq, Structural)]
pub enum ParseError {
    /// The invocation does not start with an acceptable input literal.
    ExpectedInputLiteral,
    /// A token other than a comma follows where the invocation could end.
    ExpectedCommaOrEnd,
    /// The token after the comma is not an identifier.
    ExpectedNamedParameterOrEnd,
    /// The named parameter is not `join_with`.
    ExpectedNamedParameter,
    /// The invocation ends right after `join_with`.
    ExpectedAssignment,
    /// The token after `join_with` is not an equals sign.
    ExpectedAssignmentOperator,
    /// Tokens follow the trailing comma.
    ExpectedEnd,
    /// The delimiter for a string payload is not a string or character
    /// literal.
    InvalidStringDelimiter,
    /// The delimiter for a byte-string payload is not a byte-string or byte
    /// literal.
    InvalidByteStringDelimiter,
    /// The delimiter for a C-string payload is not a C-string or byte
    /// literal.
    InvalidCStringDelimiter,
    /// The delimiter for a C-string payload is the nul-terminator byte.
    NulTerminatorDelimiter,
}

impl ParseError {
    /// The diagnostic's wording.
    pub fn message(&self) -> (r: String)
        ensures
            match *self {
                ParseError::ExpectedInputLiteral => r@
                    == "Expected either a string or a byte-string literal"@,
                ParseError::ExpectedCommaOrEnd => r@
                    == "Expected `,` to follow or the end of the macro invocation"@,
                ParseError::ExpectedNamedParameterOrEnd => r@
                    == "Expected named parameter `join_with` or the end of the macro invocation"@,
                ParseError::ExpectedNamedParameter => r@
                    == "Expected named parameter `join_with`"@,
                ParseError::ExpectedAssignment => r@ == "Expected `=` to follow"@,
                ParseError::ExpectedAssignmentOperator => r@
                    == "Expected `join_with` to be followed by a `=`"@,
                ParseError::ExpectedEnd => r@ == "Expected end of the macro invocation"@,
                ParseError::InvalidStringDelimiter => r@
                    == "Expected either a string or a character literal as a delimiter"@,
                ParseError::InvalidByteStringDelimiter => r@
                    == "Expected either a byte-string or a byte literal as a delimiter"@,
                ParseError::InvalidCStringDelimiter => r@
                    == "Expected either a C-string or a byte literal as a delimiter"@,
                ParseError::NulTerminatorDelimiter => r@
                    == "Delimiter for C-string cannot be the nul-terminator"@,
            },
    {
        match self {
            ParseError::ExpectedInputLiteral => String::from_str(
                "Expected either a string or a byte-string literal",
            ),
            ParseError::ExpectedCommaOrEnd => String::from_str(
                "Expected `,` to follow or the end of the macro invocation",
            ),
            ParseError::ExpectedNamedParameterOrEnd => String::from_str(
                "Expected named parameter `join_with` or the end of the macro invocation",
            ),
            ParseError::ExpectedNamedParameter => String::from_str(
                "Expected named parameter `join_with`",
            ),
            ParseError::ExpectedAssignment => String::from_str("Expected `=` to follow"),
            ParseError::ExpectedAssignmentOperator => String::from_str(
                "Expected `join_with` to be followed by a `=`",
            ),
            ParseError::ExpectedEnd => String::from_str("Expected end of the macro invocation"),
            ParseError::InvalidStringDelimiter => String::from_str(
                "Expected either a string or a character literal as a delimiter",
            ),
            ParseError::InvalidByteStringDelimiter => String::from_str(
                "Expected either a byte-string or a byte literal as a delimiter",
            ),
            ParseError::InvalidCStringDelimiter => String::from_str(
                "Expected either a C-string or a byte literal as a delimiter",
            ),
            ParseError::NulTerminatorDelimiter => String::from_str(
                "Delimiter for C-string cannot be the nul-terminator",
            ),
        }
    }
}

} // verus!
