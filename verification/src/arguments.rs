//! The full argument list of one macro invocation: the input literal and
//! the optional `join_with` delimiter, variant-matched by construction.

use crate::byte_string;
use crate::c_string;
use crate::join_with::{delimiter_outcome, DelimiterParse, JoinWith};
use crate::string;
use crate::token::{tokens_wf, Lit, ParseError, Token};
use vstd::prelude::*;
use vstd::slice::{slice_index_get, slice_subrange, slice_to_vec};

verus! {

/// The parsed arguments of one invocation.  A C-string input is carried as
/// nul-terminated bytes.
#[derive(Debug)]
pub enum Arguments {
    String { input: String, delimiter: string::Delimiter },
    CString { input: Vec<u8>, delimiter: c_string::Delimiter },
    ByteString { input: Vec<u8>, delimiter: byte_string::Delimiter },
}

impl Arguments {
    /// A C-string input is well-formed nul-terminated bytes, and its
    /// delimiter is well formed too.
    pub open spec fn wf(self) -> bool {
        self matches Arguments::CString { input, delimiter } ==> c_string::is_nul_terminated(
            input@,
        ) && delimiter.wf()
    }
}

/// What parsing a full token list must produce: an input literal of one of
/// the three payload kinds, followed by a well-formed `join_with` argument
/// whose delimiter kind matches the input's.
pub open spec fn arguments_outcome(ts: Seq<Token>, r: Result<Arguments, ParseError>) -> bool {
    if ts.len() == 0 {
        r == Err::<Arguments, ParseError>(ParseError::ExpectedInputLiteral)
    } else {
        match ts[0] {
            Token::Literal(l) => match l {
                Lit::Str(s) => match r {
                    Ok(Arguments::String { input, delimiter }) => input@ == s@
                        && delimiter_outcome::<string::Delimiter>(ts.drop_first(), Ok(delimiter)),
                    Ok(_) => false,
                    Err(e) => delimiter_outcome::<string::Delimiter>(ts.drop_first(), Err(e)),
                },
                Lit::ByteStr(b) => match r {
                    Ok(Arguments::ByteString { input, delimiter }) => input@ == b@
                        && delimiter_outcome::<byte_string::Delimiter>(
                        ts.drop_first(),
                        Ok(delimiter),
                    ),
                    Ok(_) => false,
                    Err(e) => delimiter_outcome::<byte_string::Delimiter>(ts.drop_first(), Err(e)),
                },
                Lit::CStr(b) => match r {
                    Ok(Arguments::CString { input, delimiter }) => input@ == b@
                        && delimiter_outcome::<c_string::Delimiter>(ts.drop_first(), Ok(delimiter)),
                    Ok(_) => false,
                    Err(e) => delimiter_outcome::<c_string::Delimiter>(ts.drop_first(), Err(e)),
                },
                _ => r == Err::<Arguments, ParseError>(ParseError::ExpectedInputLiteral),
            },
            _ => r == Err::<Arguments, ParseError>(ParseError::ExpectedInputLiteral),
        }
    }
}

/// A delimiter parsed for a C-string input out of well-formed tokens is
/// itself well formed.
proof fn lemma_c_delimiter_wf(ts: Seq<Token>, d: c_string::Delimiter)
    requires
        tokens_wf(ts),
        delimiter_outcome::<c_string::Delimiter>(ts, Ok(d)),
    ensures
        d.wf(),
{
    if ts.len() == 0 || (ts.len() == 1 && ts[0] is Comma) {
        assert(d.is_default());
    } else {
        if ts.len() >= 4 && ts[3] matches Token::Literal(l) {
            assert(ts[3].wf());
        }
    }
}

impl Arguments {
    /// Parses a full invocation: the input literal, then the optional
    /// `join_with` argument.
    pub fn parse(tokens: &[Token]) -> (r: Result<Arguments, ParseError>)
        requires
            tokens_wf(tokens@),
        ensures
            arguments_outcome(tokens@, r),
            r matches Ok(a) ==> a.wf(),
    {
        if tokens.len() == 0 {
            return Err(ParseError::ExpectedInputLiteral);
        }
        let rest = slice_subrange(tokens, 1, tokens.len());
        proof {
            assert(rest@ =~= tokens@.drop_first());
        }
        match slice_index_get(tokens, 0) {
            Token::Literal(Lit::Str(s)) => {
                match JoinWith::<string::Delimiter>::parse(rest) {
                    Ok(join_with) => Ok(
                        Arguments::String {
                            input: s.clone(),
                            delimiter: join_with.unwrap_delimiter(),
                        },
                    ),
                    Err(e) => Err(e),
                }
            },
            Token::Literal(Lit::ByteStr(b)) => {
                match JoinWith::<byte_string::Delimiter>::parse(rest) {
                    Ok(join_with) => Ok(
                        Arguments::ByteString {
                            input: slice_to_vec(b.as_slice()),
                            delimiter: join_with.unwrap_delimiter(),
                        },
                    ),
                    Err(e) => Err(e),
                }
            },
            Token::Literal(Lit::CStr(b)) => {
                match JoinWith::<c_string::Delimiter>::parse(rest) {
                    Ok(join_with) => {
                        let delimiter = join_with.unwrap_delimiter();
                        proof {
                            lemma_c_delimiter_wf(rest@, delimiter);
                            assert(tokens@[0].wf());
                        }
                        Ok(Arguments::CString { input: slice_to_vec(b.as_slice()), delimiter })
                    },
                    Err(e) => Err(e),
                }
            },
            Token::Literal(_) => Err(ParseError::ExpectedInputLiteral),
            _ => Err(ParseError::ExpectedInputLiteral),
        }
    }
}

} // verus!
