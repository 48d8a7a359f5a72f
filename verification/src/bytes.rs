//! Byte-level line segmentation and ASCII whitespace trimming.
//!
//! `Lines` is an explicit cursor over a byte buffer: a forward-only,
//! non-restartable sequence of line views.  A line ends just before a line
//! feed, or just before the carriage return immediately preceding it (CRLF
//! is one boundary); a lone carriage return is ordinary content.

use crate::model::{
    ascii_ws, is_ascii_ws, lemma_lines_of_no_line_feed, lemma_lines_of_split, lemma_trimmed_at,
    lines_of, trimmed,
};
use vstd::prelude::*;
use vstd::slice::{slice_index_get, slice_subrange};

verus! {

pub const LINE_FEED: u8 = 0x0a;

pub const CARRIAGE_RETURN: u8 = 0x0d;

/// Whether `b` is an ASCII whitespace byte under the byte-payload policy.
pub fn is_ascii_whitespace_byte(b: u8) -> (r: bool)
    ensures
        r == is_ascii_ws(b),
{
    b == 0x20 || b == 0x09 || b == 0x0a || b == 0x0b || b == 0x0c || b == 0x0d
}

/// A cursor that yields the raw line views of a byte buffer, in order.
pub struct Lines<'a> {
    slice: &'a [u8],
    index: usize,
}

impl<'a> Lines<'a> {
    /// The cursor never moves past the end of the buffer.
    pub closed spec fn wf(self) -> bool {
        self.index <= self.slice@.len()
    }

    /// The lines not yet yielded, in order.
    pub closed spec fn remaining(self) -> Seq<Seq<u8>> {
        lines_of(
            self.slice@.subrange(self.index as int, self.slice@.len() as int),
            LINE_FEED,
            CARRIAGE_RETURN,
        )
    }

    /// A fresh cursor over `slice`, positioned before the first line.
    pub fn new(slice: &'a [u8]) -> (r: Self)
        ensures
            r.wf(),
            r.remaining() == lines_of(slice@, LINE_FEED, CARRIAGE_RETURN),
    {
        let r = Self { slice, index: 0 };
        proof {
            assert(slice@.subrange(0, slice@.len() as int) =~= slice@);
        }
        r
    }

    /// Yields the next raw line view, or signals exhaustion.
    pub fn next(&mut self) -> (r: Option<&'a [u8]>)
        requires
            old(self).wf(),
        ensures
            final(self).wf(),
            match r {
                None => old(self).remaining().len() == 0 && final(self).remaining().len() == 0,
                Some(line) => {
                    &&& old(self).remaining().len() > 0
                    &&& line@ == old(self).remaining()[0]
                    &&& final(self).remaining() == old(self).remaining().drop_first()
                },
            },
    {
        let len = self.slice.len();
        if self.index >= len {
            proof {
                assert(self.slice@.subrange(self.index as int, len as int) =~= Seq::<u8>::empty());
            }
            return None;
        }
        let start = self.index;
        let ghost rem = self.slice@.subrange(start as int, len as int);
        let mut j = start;
        while j < len && *slice_index_get(self.slice, j) != LINE_FEED
            invariant
                start <= j <= len,
                len == self.slice@.len(),
                forall|k: int| start <= k < j ==> self.slice@[k] != LINE_FEED,
            decreases len - j,
        {
            j = j + 1;
        }
        proof {
            assert forall|k: int| 0 <= k < j - start implies rem[k] != LINE_FEED by {
                assert(rem[k] == self.slice@[start + k]);
            }
        }
        if j >= len {
            self.index = len;
            let line = slice_subrange(self.slice, start, len);
            proof {
                lemma_lines_of_no_line_feed(rem, LINE_FEED, CARRIAGE_RETURN);
                assert(line@ =~= rem);
                assert(seq![rem].drop_first() =~= Seq::<Seq<u8>>::empty());
                assert(self.slice@.subrange(len as int, len as int) =~= Seq::<u8>::empty());
            }
            Some(line)
        } else {
            let end = if j > start && *slice_index_get(self.slice, j - 1) == CARRIAGE_RETURN {
                j - 1
            } else {
                j
            };
            self.index = j + 1;
            let line = slice_subrange(self.slice, start, end);
            proof {
                let i: int = j as int - start as int;
                assert(rem[i] == self.slice@[j as int]);
                assert(i > 0 ==> rem[i - 1] == self.slice@[j as int - 1]);
                lemma_lines_of_split(rem, LINE_FEED, CARRIAGE_RETURN, i);
                assert(line@ =~= rem.subrange(
                    0,
                    if i > 0 && rem[i - 1] == CARRIAGE_RETURN {
                        i - 1
                    } else {
                        i
                    },
                ));
                assert(rem.subrange(i + 1, rem.len() as int) =~= self.slice@.subrange(
                    j + 1,
                    len as int,
                ));
                assert((seq![line@] + lines_of(
                    rem.subrange(i + 1, rem.len() as int),
                    LINE_FEED,
                    CARRIAGE_RETURN,
                )).drop_first() =~= lines_of(
                    rem.subrange(i + 1, rem.len() as int),
                    LINE_FEED,
                    CARRIAGE_RETURN,
                ));
            }
            Some(line)
        }
    }
}

/// Byte-buffer operations of the engine: raw line segmentation and ASCII
/// whitespace trimming.
pub trait Bytes: View<V = Seq<u8>> {
    /// A fresh line cursor over this buffer.
    fn lines<'a>(&'a self) -> (r: Lines<'a>)
        ensures
            r.wf(),
            r.remaining() == lines_of(self@, LINE_FEED, CARRIAGE_RETURN),
    ;

    /// This buffer with leading and trailing ASCII whitespace removed.
    fn trim<'a>(&'a self) -> (r: &'a [u8])
        ensures
            r@ == trimmed(self@, ascii_ws()),
    ;
}

impl Bytes for [u8] {
    fn lines<'a>(&'a self) -> (r: Lines<'a>) {
        Lines::new(self)
    }

    fn trim<'a>(&'a self) -> (r: &'a [u8]) {
        let len = self.len();
        let mut start: usize = 0;
        while start < len && is_ascii_whitespace_byte(*slice_index_get(self, start))
            invariant
                start <= len,
                len == self@.len(),
                forall|k: int| 0 <= k < start ==> is_ascii_ws(self@[k]),
            decreases len - start,
        {
            start = start + 1;
        }
        let mut end: usize = len;
        while end > start && is_ascii_whitespace_byte(*slice_index_get(self, end - 1))
            invariant
                start <= end <= len,
                len == self@.len(),
                forall|k: int| end <= k < len ==> is_ascii_ws(self@[k]),
            decreases end,
        {
            end = end - 1;
        }
        proof {
            lemma_trimmed_at(self@, ascii_ws(), start as int, end as int);
        }
        slice_subrange(self, start, end)
    }
}

} // verus!
