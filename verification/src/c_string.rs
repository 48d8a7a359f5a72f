//! The nul-terminated byte-sequence payload variant: its delimiter and its
//! sequence of trimmed, non-blank lines.
//!
//! A nul-terminated byte sequence is carried as a byte vector that ends with
//! exactly one zero byte and holds no zero byte before it.  Payload interiors
//! (the bytes before the terminator) hold no zero byte at all.

use crate::bytes;
use crate::bytes::Bytes;
use crate::join_with::DelimiterParse;
use crate::model::{ascii_ws, lines_of, surviving, trimmed};
use crate::token::{Lit, ParseError};
use vstd::prelude::*;
use vstd::slice::slice_to_vec;

verus! {

/// Whether `s` is the byte content of a nul-terminated sequence: it ends
/// with exactly one zero byte, and no zero byte appears before it.
pub open spec fn is_nul_terminated(s: Seq<u8>) -> bool {
    &&& s.len() >= 1
    &&& s.last() == 0u8
    &&& forall|i: int| 0 <= i < s.len() - 1 ==> s[i] != 0u8
}

/// The delimiter joined between the surviving lines of a nul-terminated
/// payload: a single byte (which must not be the terminator, a rule the
/// engine enforces) or a nul-terminated byte sequence whose terminator is
/// stripped before joining.
#[derive(Debug, PartialEq, Eq)]
pub enum Delimiter {
    Byte(u8),
    CString(Vec<u8>),
}

impl Delimiter {
    /// A sequence delimiter must itself be a well-formed nul-terminated
    /// byte sequence.
    pub open spec fn wf(self) -> bool {
        self matches Delimiter::CString(v) ==> is_nul_terminated(v@)
    }

    /// The byte sequence this delimiter inserts between two surviving
    /// lines, with the trailing terminator of a sequence delimiter stripped.
    pub open spec fn content(self) -> Seq<u8> {
        match self {
            Delimiter::Byte(b) => seq![b],
            Delimiter::CString(v) => v@.drop_last(),
        }
    }

    /// The documented default: the empty nul-terminated sequence.
    pub open spec fn is_default(self) -> bool {
        self matches Delimiter::CString(v) && v@ == seq![0u8]
    }
}

impl Default for Delimiter {
    /// The default delimiter: the empty nul-terminated sequence, a single
    /// terminator byte.
    fn default() -> (r: Self)
        ensures
            r.is_default(),
            r.wf(),
    {
        let mut v: Vec<u8> = Vec::new();
        v.push(0);
        proof {
            assert(v@ =~= seq![0u8]);
        }
        Delimiter::CString(v)
    }
}

impl DelimiterParse for Delimiter {
    open spec fn lit_error(lit: Lit) -> Option<ParseError> {
        match lit {
            Lit::Byte(b) => if b == 0u8 {
                Some(ParseError::NulTerminatorDelimiter)
            } else {
                None
            },
            Lit::CStr(_) => None,
            _ => Some(ParseError::InvalidCStringDelimiter),
        }
    }

    open spec fn lit_ok(lit: Lit, d: Self) -> bool {
        match (lit, d) {
            (Lit::Byte(b), Delimiter::Byte(b2)) => b2 == b,
            (Lit::CStr(v), Delimiter::CString(v2)) => v2@ == v@,
            _ => false,
        }
    }

    open spec fn default_ok(d: Self) -> bool {
        d.is_default()
    }

    open spec fn invalid_error() -> ParseError {
        ParseError::InvalidCStringDelimiter
    }

    fn from_lit(lit: &Lit) -> (r: Result<Self, ParseError>) {
        match lit {
            Lit::Byte(b) => if *b == 0 {
                Err(ParseError::NulTerminatorDelimiter)
            } else {
                Ok(Delimiter::Byte(*b))
            },
            Lit::CStr(v) => Ok(Delimiter::CString(slice_to_vec(v.as_slice()))),
            _ => Err(ParseError::InvalidCStringDelimiter),
        }
    }

    fn default_value() -> (r: Self) {
        let mut v: Vec<u8> = Vec::new();
        v.push(0);
        proof {
            assert(v@ =~= seq![0u8]);
        }
        Delimiter::CString(v)
    }

    fn invalid_value() -> (r: ParseError) {
        ParseError::InvalidCStringDelimiter
    }
}

/// The trimmed, non-blank lines of a nul-terminated payload's interior, in
/// order.
pub struct Lines<'a> {
    lines: bytes::Lines<'a>,
}

impl<'a> Lines<'a> {
    pub closed spec fn wf(self) -> bool {
        self.lines.wf()
    }

    /// The surviving (trimmed, non-blank) lines not yet yielded, in order.
    pub closed spec fn remaining(self) -> Seq<Seq<u8>> {
        surviving(self.lines.remaining(), ascii_ws())
    }

    /// A fresh cursor over the surviving lines of `c_string`, the interior
    /// bytes of a nul-terminated payload.
    pub fn from(c_string: &'a [u8]) -> (r: Self)
        ensures
            r.wf(),
            r.remaining() == surviving(
                lines_of(c_string@, bytes::LINE_FEED, bytes::CARRIAGE_RETURN),
                ascii_ws(),
            ),
    {
        Self { lines: c_string.lines() }
    }

    /// Yields the next surviving line, trimmed, or signals exhaustion.
    #[verifier::loop_isolation(false)]
    pub fn next(&mut self) -> (r: Option<&'a [u8]>)
        requires
            old(self).wf(),
        ensures
            final(self).wf(),
            match r {
                None => old(self).remaining().len() == 0 && final(self).remaining().len() == 0,
                Some(line) => {
                    &&& old(self).remaining().len() > 0
                    &&& line@ == old(self).remaining()[0]
                    &&& final(self).remaining() == old(self).remaining().drop_first()
                },
            },
    {
        loop
            invariant
                self.lines.wf(),
                surviving(self.lines.remaining(), ascii_ws()) == old(self).remaining(),
            decreases self.lines.remaining().len(),
        {
            let ghost before = self.lines.remaining();
            match self.lines.next() {
                None => {
                    return None;
                },
                Some(line) => {
                    let t = line.trim();
                    proof {
                        assert(trimmed(before[0], ascii_ws()) == t@);
                    }
                    if t.len() > 0 {
                        return Some(t);
                    }
                },
            }
        }
    }
}

} // verus!
