//! Normalization of multi-line literal content into a single logical line.
//!
//! The engine splits a payload into lines (LF or CRLF boundaries, a lone CR
//! is content), trims each line under the payload's whitespace policy, drops
//! the lines that are blank after trimming, and joins the survivors with a
//! caller-chosen delimiter.  Three payload encodings are supported: Unicode
//! text, raw byte sequences, and nul-terminated byte sequences.

pub mod arguments;
pub mod byte_string;
pub mod bytes;
pub mod c_string;
pub mod engine;
pub mod join_with;
pub mod model;
pub mod string;
pub mod token;

use vstd::prelude::*;
use vstd::slice::slice_index_get;
use vstd::string::StringExecFns;

verus! {

use crate::arguments::Arguments;
use crate::model::{joined, joined_tail};
use vstd::slice::{slice_subrange, slice_to_vec};

/// Appends every byte of `bytes_` to `collected`, in order.
fn push_bytes(collected: &mut Vec<u8>, bytes_: &[u8])
    ensures
        final(collected)@ == old(collected)@ + bytes_@,
{
    let mut k: usize = 0;
    proof {
        assert(collected@ =~= collected@ + bytes_@.subrange(0, 0));
    }
    while k < bytes_.len()
        invariant
            k <= bytes_@.len(),
            collected@ == old(collected)@ + bytes_@.subrange(0, k as int),
        decreases bytes_@.len() - k,
    {
        collected.push(*slice_index_get(bytes_, k));
        proof {
            assert(old(collected)@ + bytes_@.subrange(0, k as int + 1) =~= (old(collected)@
                + bytes_@.subrange(0, k as int)).push(bytes_@[k as int]));
        }
        k = k + 1;
    }
    proof {
        assert(bytes_@.subrange(0, bytes_@.len() as int) =~= bytes_@);
    }
}

/// Joins the trimmed, non-blank lines of `string` with `delimiter`.
pub fn trimmed_string_joined_with_delimiter(string: &str, delimiter: &str) -> (r: String)
    ensures
        r@ == model::normalized(string@, delimiter@, '\n', '\r', string::unicode_ws()),
{
    let mut collected = String::new();
    let mut lines = string::Lines::from(string);
    let ghost all = lines.remaining();
    match lines.next() {
        None => {},
        Some(line) => {
            collected.append(line);
            proof {
                assert(collected@ =~= all[0]);
            }
            loop
                invariant
                    lines.wf(),
                    all.len() > 0,
                    joined(all, delimiter@) == collected@ + joined_tail(
                        lines.remaining(),
                        delimiter@,
                    ),
                ensures
                    collected@ == joined(all, delimiter@),
                decreases lines.remaining().len(),
            {
                let ghost rem = lines.remaining();
                match lines.next() {
                    None => {
                        proof {
                            assert(collected@ + joined_tail(rem, delimiter@) =~= collected@);
                        }
                        break ;
                    },
                    Some(line) => {
                        let ghost c0 = collected@;
                        collected.append(delimiter);
                        collected.append(line);
                        proof {
                            assert(joined_tail(rem, delimiter@) == delimiter@ + rem[0]
                                + joined_tail(rem.drop_first(), delimiter@));
                            assert(c0 + joined_tail(rem, delimiter@) =~= collected@ + joined_tail(
                                lines.remaining(),
                                delimiter@,
                            ));
                        }
                    },
                }
            }
        },
    }
    collected
}

/// Joins the trimmed, non-blank lines of `byte_string` with `delimiter`.
pub fn trimmed_byte_string_joined_with_delimiter(byte_string: &[u8], delimiter: &[u8]) -> (r: Vec<
    u8,
>)
    ensures
        r@ == model::normalized(
            byte_string@,
            delimiter@,
            bytes::LINE_FEED,
            bytes::CARRIAGE_RETURN,
            model::ascii_ws(),
        ),
{
    let mut collected: Vec<u8> = Vec::new();
    let mut lines = byte_string::Lines::from(byte_string);
    let ghost all = lines.remaining();
    match lines.next() {
        None => {},
        Some(line) => {
            push_bytes(&mut collected, line);
            proof {
                assert(collected@ =~= all[0]);
            }
            loop
                invariant
                    lines.wf(),
                    all.len() > 0,
                    joined(all, delimiter@) == collected@ + joined_tail(
                        lines.remaining(),
                        delimiter@,
                    ),
                ensures
                    collected@ == joined(all, delimiter@),
                decreases lines.remaining().len(),
            {
                let ghost rem = lines.remaining();
                match lines.next() {
                    None => {
                        proof {
                            assert(collected@ + joined_tail(rem, delimiter@) =~= collected@);
                        }
                        break ;
                    },
                    Some(line) => {
                        let ghost c0 = collected@;
                        push_bytes(&mut collected, delimiter);
                        push_bytes(&mut collected, line);
                        proof {
                            assert(joined_tail(rem, delimiter@) == delimiter@ + rem[0]
                                + joined_tail(rem.drop_first(), delimiter@));
                            assert(c0 + joined_tail(rem, delimiter@) =~= collected@ + joined_tail(
                                lines.remaining(),
                                delimiter@,
                            ));
                        }
                    },
                }
            }
        },
    }
    collected
}

/// Joins the trimmed, non-blank lines of a nul-terminated payload's interior
/// with `delimiter` and appends the single terminator byte.
pub fn trimmed_c_string_joined_with_delimiter(c_string: &[u8], delimiter: &[u8]) -> (r: Vec<u8>)
    ensures
        r@ == model::normalized(
            c_string@,
            delimiter@,
            bytes::LINE_FEED,
            bytes::CARRIAGE_RETURN,
            model::ascii_ws(),
        ).push(0u8),
{
    let mut collected = trimmed_byte_string_joined_with_delimiter(c_string, delimiter);
    collected.push(0);
    collected
}

/// Normalizes the parsed arguments of one invocation: builds the engine
/// payload and delimiter, which match by construction, and runs the engine.
/// The only possible failure is the nul-terminator rule for a C-string
/// payload's single-byte delimiter.
pub fn trim(arguments: Arguments) -> (r: Result<engine::NormalizedOutput, engine::EngineError>)
    requires
        arguments.wf(),
    ensures
        match arguments {
            Arguments::String { input, delimiter } => (r matches Ok(
                engine::NormalizedOutput::Text(out),
            ) && out@ == engine::text_result(input@, delimiter.content())),
            Arguments::ByteString { input, delimiter } => (r matches Ok(
                engine::NormalizedOutput::ByteSequence(out),
            ) && out@ == engine::byte_result(input@, delimiter.content())),
            Arguments::CString { input, delimiter } => match delimiter {
                c_string::Delimiter::Byte(b) => if b == 0u8 {
                    r == Err::<engine::NormalizedOutput, engine::EngineError>(
                        engine::EngineError::NulByteDelimiter,
                    )
                } else {
                    (r matches Ok(engine::NormalizedOutput::NulTerminatedByteSequence(out)) && out@
                        == engine::c_result(input@.drop_last(), delimiter.content()))
                },
                c_string::Delimiter::CString(_) => (r matches Ok(
                    engine::NormalizedOutput::NulTerminatedByteSequence(out),
                ) && out@ == engine::c_result(input@.drop_last(), delimiter.content())),
            },
        },
{
    match arguments {
        Arguments::String { input, delimiter } => engine::normalize(
            &engine::Payload::Text(input),
            &engine::Delimiter::Text(delimiter),
        ),
        Arguments::ByteString { input, delimiter } => engine::normalize(
            &engine::Payload::ByteSequence(input),
            &engine::Delimiter::ByteSequence(delimiter),
        ),
        Arguments::CString { input, delimiter } => {
            let interior = slice_to_vec(slice_subrange(input.as_slice(), 0, input.len() - 1));
            proof {
                assert(interior@ =~= input@.drop_last());
            }
            engine::normalize(
                &engine::Payload::NulTerminatedByteSequence(interior),
                &engine::Delimiter::NulTerminatedByteSequence(delimiter),
            )
        },
    }
}

} // verus!
