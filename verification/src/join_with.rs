//! The optional `join_with` named argument of a macro invocation.
//!
//! After the input literal an invocation may end, or hold a comma, and then
//! optionally `join_with = <delimiter literal>` with an optional trailing
//! comma.  Which literals are acceptable delimiters depends on the payload
//! variant, abstracted by [`DelimiterParse`].

use crate::token::{Lit, ParseError, Token};
use vstd::prelude::*;
use vstd::slice::slice_index_get;
use vstd::string::StringExecFns;

verus! {

/// A payload variant's delimiter argument: how a delimiter literal decodes
/// into it, and its documented default.
pub trait DelimiterParse: Sized {
    /// The diagnostic that `from_lit` raises on `lit`, or `None` where the
    /// literal is an acceptable delimiter.
    spec fn lit_error(lit: Lit) -> Option<ParseError>;

    /// Whether `d` is the delimiter that the accepted literal `lit`
    /// decodes to.
    spec fn lit_ok(lit: Lit, d: Self) -> bool;

    /// Whether `d` is the variant's default delimiter.
    spec fn default_ok(d: Self) -> bool;

    /// The diagnostic for a delimiter argument that is no literal at all.
    spec fn invalid_error() -> ParseError;

    /// Decodes a delimiter literal.
    fn from_lit(lit: &Lit) -> (r: Result<Self, ParseError>)
        ensures
            match Self::lit_error(*lit) {
                Some(e) => r == Err::<Self, ParseError>(e),
                None => r matches Ok(d) && Self::lit_ok(*lit, d),
            },
    ;

    /// The variant's default delimiter.
    fn default_value() -> (r: Self)
        ensures
            Self::default_ok(r),
    ;

    /// The diagnostic for a delimiter argument that is no literal at all.
    fn invalid_value() -> (r: ParseError)
        ensures
            r == Self::invalid_error(),
    ;
}

/// What parsing the tokens that follow the input literal must produce, seen
/// through the delimiter it carries: nothing (the default), or a comma,
/// optionally followed by `join_with = <literal>` and an optional trailing
/// comma.
pub open spec fn delimiter_outcome<D: DelimiterParse>(
    ts: Seq<Token>,
    r: Result<D, ParseError>,
) -> bool {
    if ts.len() == 0 {
        r matches Ok(d) && D::default_ok(d)
    } else if !(ts[0] is Comma) {
        r == Err::<D, ParseError>(ParseError::ExpectedCommaOrEnd)
    } else if ts.len() == 1 {
        r matches Ok(d) && D::default_ok(d)
    } else {
        match ts[1] {
            Token::Ident(name) => if name@ != "join_with"@ {
                r == Err::<D, ParseError>(ParseError::ExpectedNamedParameter)
            } else if ts.len() == 2 {
                r == Err::<D, ParseError>(ParseError::ExpectedAssignment)
            } else if !(ts[2] is Eq) {
                r == Err::<D, ParseError>(ParseError::ExpectedAssignmentOperator)
            } else if ts.len() == 3 {
                r == Err::<D, ParseError>(D::invalid_error())
            } else {
                match ts[3] {
                    Token::Literal(l) => match D::lit_error(l) {
                        Some(e) => r == Err::<D, ParseError>(e),
                        None => if ts.len() == 4 {
                            r matches Ok(d) && D::lit_ok(l, d)
                        } else if !(ts[4] is Comma) {
                            r == Err::<D, ParseError>(ParseError::ExpectedCommaOrEnd)
                        } else if ts.len() == 5 {
                            r matches Ok(d) && D::lit_ok(l, d)
                        } else {
                            r == Err::<D, ParseError>(ParseError::ExpectedEnd)
                        },
                    },
                    _ => r == Err::<D, ParseError>(D::invalid_error()),
                }
            },
            _ => r == Err::<D, ParseError>(ParseError::ExpectedNamedParameterOrEnd),
        }
    }
}

/// The parsed `join_with` argument: the delimiter to join the surviving
/// lines with.
pub struct JoinWith<D> {
    delimiter: D,
}

impl<D: DelimiterParse> JoinWith<D> {
    /// The delimiter this argument carries.
    pub closed spec fn delimiter_spec(self) -> D {
        self.delimiter
    }

    /// Hands the carried delimiter out.
    pub fn unwrap_delimiter(self) -> (d: D)
        ensures
            d == self.delimiter_spec(),
    {
        self.delimiter
    }

    /// Parses the tokens that follow the input literal.
    pub fn parse(tokens: &[Token]) -> (r: Result<JoinWith<D>, ParseError>)
        ensures
            delimiter_outcome::<D>(
                tokens@,
                match r {
                    Ok(jw) => Ok(jw.delimiter_spec()),
                    Err(e) => Err(e),
                },
            ),
    {
        let n = tokens.len();
        if n == 0 {
            return Ok(JoinWith { delimiter: D::default_value() });
        }
        match slice_index_get(tokens, 0) {
            Token::Comma => {},
            _ => {
                return Err(ParseError::ExpectedCommaOrEnd);
            },
        }
        if n == 1 {
            return Ok(JoinWith { delimiter: D::default_value() });
        }
        let name = match slice_index_get(tokens, 1) {
            Token::Ident(name) => name,
            _ => {
                return Err(ParseError::ExpectedNamedParameterOrEnd);
            },
        };
        let expected = String::from_str("join_with");
        if !(*name == expected) {
            return Err(ParseError::ExpectedNamedParameter);
        }
        if n == 2 {
            return Err(ParseError::ExpectedAssignment);
        }
        match slice_index_get(tokens, 2) {
            Token::Eq => {},
            _ => {
                return Err(ParseError::ExpectedAssignmentOperator);
            },
        }
        if n == 3 {
            return Err(D::invalid_value());
        }
        let lit = match slice_index_get(tokens, 3) {
            Token::Literal(l) => l,
            _ => {
                return Err(D::invalid_value());
            },
        };
        let delimiter = match D::from_lit(lit) {
            Ok(d) => d,
            Err(e) => {
                return Err(e);
            },
        };
        if n == 4 {
            return Ok(JoinWith { delimiter });
        }
        match slice_index_get(tokens, 4) {
            Token::Comma => {},
            _ => {
                return Err(ParseError::ExpectedCommaOrEnd);
            },
        }
        if n == 5 {
            return Ok(JoinWith { delimiter });
        }
        Err(ParseError::ExpectedEnd)
    }
}

} // verus!
