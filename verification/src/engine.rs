//! The engine boundary: one call normalizes one payload with one delimiter.
//!
//! The delimiter's variant must match the payload's variant, and a
//! nul-terminated payload rejects the single zero byte as a delimiter; both
//! rules are validated eagerly, before any segmentation or trimming work.

use crate::byte_string;
use crate::bytes;
use crate::c_string;
use crate::model;
use crate::string;
use crate::{
    trimmed_byte_string_joined_with_delimiter, trimmed_c_string_joined_with_delimiter,
    trimmed_string_joined_with_delimiter,
};
use vstd::prelude::*;
use vstd::slice::slice_subrange;
use vstd::string::StringExecFns;

verus! {

/// The input content of one engine invocation, in one of three encodings.
/// A nul-terminated payload is carried as its interior bytes; the
/// terminator is logical.
#[derive(Debug, PartialEq, Eq)]
pub enum Payload {
    Text(String),
    ByteSequence(Vec<u8>),
    NulTerminatedByteSequence(Vec<u8>),
}

impl Payload {
    /// A nul-terminated payload's interior holds no zero byte.
    pub open spec fn wf(self) -> bool {
        self matches Payload::NulTerminatedByteSequence(v) ==> forall|i: int|
            0 <= i < v@.len() ==> v@[i] != 0u8
    }
}

/// The delimiter of one engine invocation, tagged like the payload.
#[derive(Debug, PartialEq, Eq)]
pub enum Delimiter {
    Text(string::Delimiter),
    ByteSequence(byte_string::Delimiter),
    NulTerminatedByteSequence(c_string::Delimiter),
}

impl Delimiter {
    /// A sequence delimiter for a nul-terminated payload is itself a
    /// well-formed nul-terminated byte sequence.
    pub open spec fn wf(self) -> bool {
        self matches Delimiter::NulTerminatedByteSequence(d) ==> d.wf()
    }

    /// Whether this delimiter's variant matches the payload's variant.
    pub open spec fn matches_payload(self, payload: Payload) -> bool {
        match (payload, self) {
            (Payload::Text(_), Delimiter::Text(_)) => true,
            (Payload::ByteSequence(_), Delimiter::ByteSequence(_)) => true,
            (Payload::NulTerminatedByteSequence(_), Delimiter::NulTerminatedByteSequence(_)) => true,
            _ => false,
        }
    }
}

/// The newly allocated result of one engine invocation, of the same variant
/// as the input payload.  A nul-terminated output carries its single
/// terminator byte.
#[derive(Debug, PartialEq, Eq)]
pub enum NormalizedOutput {
    Text(String),
    ByteSequence(Vec<u8>),
    NulTerminatedByteSequence(Vec<u8>),
}

/// The engine's deterministic validation failures.
#[derive(Debug, PartialEq, Eq, Structural)]
pub enum EngineError {
    /// The delimiter's variant does not match the payload's variant.
    VariantMismatch,
    /// The delimiter for a nul-terminated sequence is the terminator byte.
    NulByteDelimiter,
}

impl EngineError {
    /// The failure's wording, naming the rule that was broken.
    pub fn message(&self) -> (r: String)
        ensures
            match *self {
                EngineError::VariantMismatch => r@
                    == "delimiter variant does not match the payload variant"@,
                EngineError::NulByteDelimiter => r@
                    == "delimiter for a nul-terminated sequence cannot be the terminator"@,
            },
    {
        match self {
            EngineError::VariantMismatch => String::from_str(
                "delimiter variant does not match the payload variant",
            ),
            EngineError::NulByteDelimiter => String::from_str(
                "delimiter for a nul-terminated sequence cannot be the terminator",
            ),
        }
    }
}

/// The normalized text for a text payload and delimiter content.
pub open spec fn text_result(s: Seq<char>, d: Seq<char>) -> Seq<char> {
    model::normalized(s, d, '\n', '\r', string::unicode_ws())
}

/// The normalized bytes for a byte-sequence payload and delimiter content.
pub open spec fn byte_result(s: Seq<u8>, d: Seq<u8>) -> Seq<u8> {
    model::normalized(s, d, bytes::LINE_FEED, bytes::CARRIAGE_RETURN, model::ascii_ws())
}

/// The normalized bytes for a nul-terminated payload interior and (already
/// stripped) delimiter content: the joined interior plus one terminator.
pub open spec fn c_result(s: Seq<u8>, d: Seq<u8>) -> Seq<u8> {
    byte_result(s, d).push(0u8)
}

/// For byte payloads, LF and CRLF are equivalent boundaries between the
/// first line and the rest.
pub proof fn lemma_byte_crlf_equivalent(a: Seq<u8>, b: Seq<u8>, d: Seq<u8>)
    requires
        forall|j: int| 0 <= j < a.len() ==> a[j] != bytes::LINE_FEED,
    ensures
        byte_result(a + seq![bytes::CARRIAGE_RETURN, bytes::LINE_FEED] + b, d) == byte_result(
            a + seq![bytes::LINE_FEED] + b,
            d,
        ),
{
    model::lemma_crlf_equivalent(
        a,
        b,
        d,
        bytes::LINE_FEED,
        bytes::CARRIAGE_RETURN,
        model::ascii_ws(),
    );
}

/// For text payloads, LF and CRLF are equivalent boundaries between the
/// first line and the rest.
pub proof fn lemma_text_crlf_equivalent(a: Seq<char>, b: Seq<char>, d: Seq<char>)
    requires
        forall|j: int| 0 <= j < a.len() ==> a[j] != '\n',
    ensures
        text_result(a + seq!['\r', '\n'] + b, d) == text_result(a + seq!['\n'] + b, d),
{
    model::lemma_crlf_equivalent(a, b, d, '\n', '\r', string::unicode_ws());
}

/// A nul-terminated output ends with exactly one zero byte and holds no
/// zero byte earlier, provided the payload interior and the (stripped)
/// delimiter hold none.
pub proof fn lemma_c_result_nul_terminated(s: Seq<u8>, d: Seq<u8>)
    requires
        forall|i: int| 0 <= i < s.len() ==> s[i] != 0u8,
        forall|i: int| 0 <= i < d.len() ==> d[i] != 0u8,
    ensures
        c_string::is_nul_terminated(c_result(s, d)),
{
    model::lemma_normalized_units(
        s,
        d,
        bytes::LINE_FEED,
        bytes::CARRIAGE_RETURN,
        model::ascii_ws(),
        |b: u8| b != 0u8,
    );
    let out = byte_result(s, d);
    assert forall|i: int| 0 <= i < c_result(s, d).len() - 1 implies c_result(s, d)[i] != 0u8 by {
        assert((|b: u8| b != 0u8)(out[i]));
    }
}

/// Relies on String::push: appends the character to the end of the string.
#[verifier::external_body]
fn push_char(s: &mut String, c: char)
    ensures
        final(s)@ == old(s)@.push(c),
{
    s.push(c);
}

/// Normalizes `payload` into a single logical line, joining its trimmed,
/// non-blank lines with `delimiter`.
///
/// A delimiter whose variant does not match the payload's is rejected, and
/// a nul-terminated payload rejects the single zero byte as its delimiter;
/// both are rejected before any transformation work.  Every variant-matched,
/// non-terminator input succeeds.
pub fn normalize(payload: &Payload, delimiter: &Delimiter) -> (r: Result<
    NormalizedOutput,
    EngineError,
>)
    requires
        payload.wf(),
        delimiter.wf(),
    ensures
        r == Err::<NormalizedOutput, EngineError>(EngineError::VariantMismatch)
            <==> !delimiter.matches_payload(*payload),
        match (payload, delimiter) {
            (Payload::Text(s), Delimiter::Text(d)) => (r matches Ok(NormalizedOutput::Text(out))
                && out@ == text_result(s@, d.content())),
            (Payload::ByteSequence(s), Delimiter::ByteSequence(d)) => (r matches Ok(
                NormalizedOutput::ByteSequence(out),
            ) && out@ == byte_result(s@, d.content())),
            (
                Payload::NulTerminatedByteSequence(s),
                Delimiter::NulTerminatedByteSequence(d),
            ) => match d {
                c_string::Delimiter::Byte(b) => if b == 0u8 {
                    r == Err::<NormalizedOutput, EngineError>(EngineError::NulByteDelimiter)
                } else {
                    (r matches Ok(NormalizedOutput::NulTerminatedByteSequence(out)) && out@
                        == c_result(s@, d.content()))
                },
                c_string::Delimiter::CString(_) => (r matches Ok(
                    NormalizedOutput::NulTerminatedByteSequence(out),
                ) && out@ == c_result(s@, d.content())),
            },
            _ => r == Err::<NormalizedOutput, EngineError>(EngineError::VariantMismatch),
        },
{
    match (payload, delimiter) {
        (Payload::Text(s), Delimiter::Text(string::Delimiter::Character(c))) => {
            let mut ds = String::new();
            push_char(&mut ds, *c);
            proof {
                assert(ds@ =~= seq![*c]);
            }
            Ok(NormalizedOutput::Text(trimmed_string_joined_with_delimiter(s.as_str(), ds.as_str())))
        },
        (Payload::Text(s), Delimiter::Text(string::Delimiter::String(ds))) => {
            Ok(NormalizedOutput::Text(trimmed_string_joined_with_delimiter(s.as_str(), ds.as_str())))
        },
        (Payload::ByteSequence(s), Delimiter::ByteSequence(byte_string::Delimiter::Byte(b))) => {
            let mut dv: Vec<u8> = Vec::new();
            dv.push(*b);
            proof {
                assert(dv@ =~= seq![*b]);
            }
            Ok(NormalizedOutput::ByteSequence(trimmed_byte_string_joined_with_delimiter(
                s.as_slice(),
                dv.as_slice(),
            )))
        },
        (
            Payload::ByteSequence(s),
            Delimiter::ByteSequence(byte_string::Delimiter::ByteString(dv)),
        ) => {
            Ok(NormalizedOutput::ByteSequence(trimmed_byte_string_joined_with_delimiter(
                s.as_slice(),
                dv.as_slice(),
            )))
        },
        (
            Payload::NulTerminatedByteSequence(s),
            Delimiter::NulTerminatedByteSequence(c_string::Delimiter::Byte(b)),
        ) => {
            if *b == 0 {
                Err(EngineError::NulByteDelimiter)
            } else {
                let mut dv: Vec<u8> = Vec::new();
                dv.push(*b);
                proof {
                    assert(dv@ =~= seq![*b]);
                }
                Ok(NormalizedOutput::NulTerminatedByteSequence(
                    trimmed_c_string_joined_with_delimiter(s.as_slice(), dv.as_slice()),
                ))
            }
        },
        (
            Payload::NulTerminatedByteSequence(s),
            Delimiter::NulTerminatedByteSequence(c_string::Delimiter::CString(dv)),
        ) => {
            let stripped = slice_subrange(dv.as_slice(), 0, dv.len() - 1);
            proof {
                assert(stripped@ =~= dv@.drop_last());
            }
            Ok(NormalizedOutput::NulTerminatedByteSequence(trimmed_c_string_joined_with_delimiter(
                s.as_slice(),
                stripped,
            )))
        },
        _ => Err(EngineError::VariantMismatch),
    }
}

} // verus!
