//! The Unicode text payload variant: its delimiter and its sequence of
//! trimmed, non-blank lines.
//!
//! Line boundaries follow the same rules as the byte variant (LF or CRLF,
//! never a lone CR).  Whitespace is the Unicode `White_Space` property as
//! the standard library classifies it; beyond the six ASCII whitespace
//! characters the exact table is left abstract.

use crate::join_with::DelimiterParse;
use crate::model::{
    lemma_lines_of_no_line_feed, lemma_lines_of_split, lemma_trimmed_at, lines_of, surviving,
    trimmed,
};
use crate::token::{Lit, ParseError};
use vstd::prelude::*;
use vstd::string::StrSliceExecFns;

verus! {

/// The characters beyond the ASCII range that the Unicode `White_Space`
/// property contains; the exact table is the standard library's.
pub uninterp spec fn other_unicode_whitespace(c: char) -> bool;

/// Whether `c` is whitespace under the text-payload policy: the Unicode
/// `White_Space` property, which contains the six ASCII whitespace
/// characters.
pub open spec fn is_unicode_ws(c: char) -> bool {
    c == ' ' || c == '\t' || c == '\n' || c == '\u{b}' || c == '\u{c}' || c == '\r'
        || other_unicode_whitespace(c)
}

/// The text whitespace policy as a predicate value.
pub open spec fn unicode_ws() -> spec_fn(char) -> bool {
    |c: char| is_unicode_ws(c)
}

/// Relies on char::is_whitespace: true exactly on the characters with the
/// Unicode `White_Space` property, a set that contains the six ASCII
/// whitespace characters; the result depends on the character alone.
#[verifier::external_body]
fn is_whitespace_char(c: char) -> (r: bool)
    ensures
        r == is_unicode_ws(c),
        other_unicode_whitespace(c) ==> r,
{
    c.is_whitespace()
}

/// The delimiter joined between the surviving lines of a text payload: a
/// single character or a string.
#[derive(Debug, PartialEq, Eq)]
pub enum Delimiter {
    Character(char),
    String(String),
}

impl Delimiter {
    /// The character sequence this delimiter inserts between two surviving
    /// lines.
    pub open spec fn content(self) -> Seq<char> {
        match self {
            Delimiter::Character(c) => seq![c],
            Delimiter::String(s) => s@,
        }
    }

    /// The documented default: the empty string.
    pub open spec fn is_default(self) -> bool {
        self matches Delimiter::String(s) && s@ == Seq::<char>::empty()
    }
}

impl Default for Delimiter {
    /// The default delimiter: the empty string.
    fn default() -> (r: Self)
        ensures
            r.is_default(),
    {
        Delimiter::String(String::new())
    }
}

impl DelimiterParse for Delimiter {
    open spec fn lit_error(lit: Lit) -> Option<ParseError> {
        match lit {
            Lit::Char(_) => None,
            Lit::Str(_) => None,
            _ => Some(ParseError::InvalidStringDelimiter),
        }
    }

    open spec fn lit_ok(lit: Lit, d: Self) -> bool {
        match (lit, d) {
            (Lit::Char(c), Delimiter::Character(c2)) => c2 == c,
            (Lit::Str(s), Delimiter::String(s2)) => s2@ == s@,
            _ => false,
        }
    }

    open spec fn default_ok(d: Self) -> bool {
        d.is_default()
    }

    open spec fn invalid_error() -> ParseError {
        ParseError::InvalidStringDelimiter
    }

    fn from_lit(lit: &Lit) -> (r: Result<Self, ParseError>) {
        match lit {
            Lit::Char(c) => Ok(Delimiter::Character(*c)),
            Lit::Str(s) => Ok(Delimiter::String(s.clone())),
            _ => Err(ParseError::InvalidStringDelimiter),
        }
    }

    fn default_value() -> (r: Self) {
        Delimiter::String(String::new())
    }

    fn invalid_value() -> (r: ParseError) {
        ParseError::InvalidStringDelimiter
    }
}

/// The trimmed, non-blank lines of a text payload, in order.
pub struct Lines<'a> {
    string: &'a str,
    index: usize,
}

impl<'a> Lines<'a> {
    pub closed spec fn wf(self) -> bool {
        self.index <= self.string@.len()
    }

    /// The surviving (trimmed, non-blank) lines not yet yielded, in order.
    pub closed spec fn remaining(self) -> Seq<Seq<char>> {
        surviving(
            lines_of(self.string@.subrange(self.index as int, self.string@.len() as int), '\n', '\r'),
            unicode_ws(),
        )
    }

    /// A fresh cursor over the surviving lines of `string`.
    pub fn from(string: &'a str) -> (r: Self)
        ensures
            r.wf(),
            r.remaining() == surviving(lines_of(string@, '\n', '\r'), unicode_ws()),
    {
        let r = Self { string, index: 0 };
        proof {
            assert(string@.subrange(0, string@.len() as int) =~= string@);
        }
        r
    }

    /// Yields the next surviving line, trimmed, or signals exhaustion.
    #[verifier::loop_isolation(false)]
    pub fn next(&mut self) -> (r: Option<&'a str>)
        requires
            old(self).wf(),
        ensures
            final(self).wf(),
            match r {
                None => old(self).remaining().len() == 0 && final(self).remaining().len() == 0,
                Some(line) => {
                    &&& old(self).remaining().len() > 0
                    &&& line@ == old(self).remaining()[0]
                    &&& final(self).remaining() == old(self).remaining().drop_first()
                },
            },
    {
        let source = self.string;
        let len = source.unicode_len();
        loop
            invariant
                self.wf(),
                self.string == source,
                len == source@.len(),
                self.remaining() == old(self).remaining(),
            decreases len - self.index,
        {
            if self.index >= len {
                proof {
                    assert(source@.subrange(self.index as int, len as int) =~= Seq::<
                        char,
                    >::empty());
                }
                return None;
            }
            let start = self.index;
            let ghost rem = source@.subrange(start as int, len as int);
            let mut j = start;
            while j < len && source.get_char(j) != '\n'
                invariant
                    start <= j <= len,
                    forall|k: int| start <= k < j ==> source@[k] != '\n',
                decreases len - j,
            {
                j = j + 1;
            }
            proof {
                assert forall|k: int| 0 <= k < j - start implies rem[k] != '\n' by {
                    assert(rem[k] == source@[start + k]);
                }
            }
            let end: usize;
            let next_index: usize;
            if j >= len {
                end = len;
                next_index = len;
                proof {
                    lemma_lines_of_no_line_feed(rem, '\n', '\r');
                }
            } else {
                end = if j > start && source.get_char(j - 1) == '\r' {
                    j - 1
                } else {
                    j
                };
                next_index = j + 1;
                proof {
                    let i: int = j as int - start as int;
                    assert(rem[i] == source@[j as int]);
                    assert(i > 0 ==> rem[i - 1] == source@[j as int - 1]);
                    lemma_lines_of_split(rem, '\n', '\r', i);
                }
            }
            let ghost line_seq = source@.subrange(start as int, end as int);
            proof {
                assert(line_seq =~= rem.subrange(0, end as int - start as int));
                assert(lines_of(rem, '\n', '\r')[0] == line_seq);
            }
            let mut ts = start;
            while ts < end && is_whitespace_char(source.get_char(ts))
                invariant
                    start <= ts <= end,
                    forall|k: int| start <= k < ts ==> is_unicode_ws(source@[k]),
                decreases end - ts,
            {
                ts = ts + 1;
            }
            let mut te = end;
            while te > ts && is_whitespace_char(source.get_char(te - 1))
                invariant
                    ts <= te <= end,
                    forall|k: int| te <= k < end ==> is_unicode_ws(source@[k]),
                decreases te,
            {
                te = te - 1;
            }
            proof {
                assert forall|k: int| 0 <= k < ts - start implies (unicode_ws())(line_seq[k]) by {
                    assert(line_seq[k] == source@[start + k]);
                }
                assert forall|k: int|
                    te - start <= k < line_seq.len() implies (unicode_ws())(line_seq[k]) by {
                    assert(line_seq[k] == source@[start + k]);
                }
                assert(ts < te ==> line_seq[ts - start] == source@[ts as int] && line_seq[te - start
                    - 1] == source@[te as int - 1]);
                lemma_trimmed_at(line_seq, unicode_ws(), ts as int - start as int, te as int
                    - start as int);
            }
            self.index = next_index;
            proof {
                if j >= len {
                    assert(source@.subrange(next_index as int, len as int) =~= Seq::<
                        char,
                    >::empty());
                    assert(lines_of(rem, '\n', '\r').drop_first() =~= lines_of(
                        source@.subrange(next_index as int, len as int),
                        '\n',
                        '\r',
                    ));
                } else {
                    assert(rem.subrange(
                        j as int - start as int + 1,
                        rem.len() as int,
                    ) =~= source@.subrange(next_index as int, len as int));
                    assert(lines_of(rem, '\n', '\r').drop_first() =~= lines_of(
                        source@.subrange(next_index as int, len as int),
                        '\n',
                        '\r',
                    ));
                }
            }
            if ts < te {
                let line = source.substring_char(ts, te);
                proof {
                    assert(line@ =~= line_seq.subrange(
                        ts as int - start as int,
                        te as int - start as int,
                    ));
                }
                return Some(line);
            }
        }
    }
}

} // verus!
