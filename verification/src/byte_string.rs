//! The raw byte-sequence payload variant: its delimiter and its sequence of
//! trimmed, non-blank lines.

use crate::bytes;
use crate::bytes::Bytes;
use crate::join_with::DelimiterParse;
use crate::model::{ascii_ws, lines_of, surviving, trimmed};
use crate::token::{Lit, ParseError};
use vstd::prelude::*;
use vstd::slice::slice_to_vec;

verus! {

/// The delimiter joined between the surviving lines of a byte-sequence
/// payload: a single byte or a byte sequence.
#[derive(Debug, PartialEq, Eq)]
pub enum Delimiter {
    Byte(u8),
    ByteString(Vec<u8>),
}

impl Delimiter {
    /// The byte sequence this delimiter inserts between two surviving lines.
    pub open spec fn content(self) -> Seq<u8> {
        match self {
            Delimiter::Byte(b) => seq![b],
            Delimiter::ByteString(v) => v@,
        }
    }

    /// The documented default: the empty byte sequence.
    pub open spec fn is_default(self) -> bool {
        self matches Delimiter::ByteString(v) && v@ == Seq::<u8>::empty()
    }
}

impl Default for Delimiter {
    /// The default delimiter: the empty byte sequence.
    fn default() -> (r: Self)
        ensures
            r.is_default(),
    {
        Delimiter::ByteString(Vec::new())
    }
}

impl DelimiterParse for Delimiter {
    open spec fn lit_error(lit: Lit) -> Option<ParseError> {
        match lit {
            Lit::Byte(_) => None,
            Lit::ByteStr(_) => None,
            _ => Some(ParseError::InvalidByteStringDelimiter),
        }
    }

    open spec fn lit_ok(lit: Lit, d: Self) -> bool {
        match (lit, d) {
            (Lit::Byte(b), Delimiter::Byte(b2)) => b2 == b,
            (Lit::ByteStr(v), Delimiter::ByteString(v2)) => v2@ == v@,
            _ => false,
        }
    }

    open spec fn default_ok(d: Self) -> bool {
        d.is_default()
    }

    open spec fn invalid_error() -> ParseError {
        ParseError::InvalidByteStringDelimiter
    }

    fn from_lit(lit: &Lit) -> (r: Result<Self, ParseError>) {
        match lit {
            Lit::Byte(b) => Ok(Delimiter::Byte(*b)),
            Lit::ByteStr(v) => Ok(Delimiter::ByteString(slice_to_vec(v.as_slice()))),
            _ => Err(ParseError::InvalidByteStringDelimiter),
        }
    }

    fn default_value() -> (r: Self) {
        Delimiter::ByteString(Vec::new())
    }

    fn invalid_value() -> (r: ParseError) {
        ParseError::InvalidByteStringDelimiter
    }
}

/// The trimmed, non-blank lines of a byte-sequence payload, in order.
pub struct Lines<'a> {
    lines: bytes::Lines<'a>,
}

impl<'a> Lines<'a> {
    pub closed spec fn wf(self) -> bool {
        self.lines.wf()
    }

    /// The surviving (trimmed, non-blank) lines not yet yielded, in order.
    pub closed spec fn remaining(self) -> Seq<Seq<u8>> {
        surviving(self.lines.remaining(), ascii_ws())
    }

    /// A fresh cursor over the surviving lines of `byte_string`.
    pub fn from(byte_string: &'a [u8]) -> (r: Self)
        ensures
            r.wf(),
            r.remaining() == surviving(
                lines_of(byte_string@, bytes::LINE_FEED, bytes::CARRIAGE_RETURN),
                ascii_ws(),
            ),
    {
        Self { lines: byte_string.lines() }
    }

    /// Yields the next surviving line, trimmed, or signals exhaustion.
    #[verifier::loop_isolation(false)]
    pub fn next(&mut self) -> (r: Option<&'a [u8]>)
        requires
            old(self).wf(),
        ensures
            final(self).wf(),
            match r {
                None => old(self).remaining().len() == 0 && final(self).remaining().len() == 0,
                Some(line) => {
                    &&& old(self).remaining().len() > 0
                    &&& line@ == old(self).remaining()[0]
                    &&& final(self).remaining() == old(self).remaining().drop_first()
                },
            },
    {
        loop
            invariant
                self.lines.wf(),
                surviving(self.lines.remaining(), ascii_ws()) == old(self).remaining(),
            decreases self.lines.remaining().len(),
        {
            let ghost before = self.lines.remaining();
            match self.lines.next() {
                None => {
                    return None;
                },
                Some(line) => {
                    let t = line.trim();
                    proof {
                        assert(trimmed(before[0], ascii_ws()) == t@);
                    }
                    if t.len() > 0 {
                        return Some(t);
                    }
                },
            }
        }
    }
}

} // verus!
