//! `String` as entry payload or user data: a length-prefixed UTF-8 encoding.

use vstd::prelude::*;
use vstd::utf8::{decode_utf8, encode_utf8, valid_utf8};

use crate::bytes::{be_u32, cut_short_at, read_be_u32, starts_with_at};
use crate::types::{DataDisplay, DataValue, DecodeError, PayloadValue};

verus! {

/// How `{:?}` renders a string: quoted, with special characters escaped.
pub uninterp spec fn debug_quoted(s: Seq<char>) -> Seq<char>;

/// The `{:?}` rendering of `s`.
///
/// Calls `format!("{:?}", s)`, that is `<str as Debug>::fmt`. The contract
/// claims only that the result is the named rendering of the characters;
/// the escaping rules are not written out.
#[verifier::external_body]
pub(crate) fn debug_string(s: &str) -> (r: String)
    ensures
        r@ == debug_quoted(s@),
{
    format!("{:?}", s)
}

/// The string that `bytes` encode in UTF-8, if they are valid UTF-8.
///
/// Calls `std::str::from_utf8`, which returns `Ok` exactly when the bytes are
/// well-formed UTF-8, and turns the `&str` it gives into a `String`.
#[verifier::external_body]
pub(crate) fn string_from_utf8(bytes: &[u8]) -> (r: Option<String>)
    ensures
        r is Some <==> valid_utf8(bytes@),
        r matches Some(s) ==> s@ == decode_utf8(bytes@),
{
    match std::str::from_utf8(bytes) {
        Ok(s) => Some(s.to_string()),
        Err(_) => None,
    }
}

/// Append every byte of `bytes`.
pub fn push_bytes(buf: &mut Vec<u8>, bytes: &[u8])
    ensures
        final(buf)@ == old(buf)@ + bytes@,
{
    let mut i: usize = 0;
    while i < bytes.len()
        invariant
            i <= bytes@.len(),
            buf@ == old(buf)@ + bytes@.subrange(0, i as int),
        decreases bytes@.len() - i,
    {
        buf.push(bytes[i]);
        i = i + 1;
        assert(bytes@.subrange(0, i as int) == bytes@.subrange(0, i - 1 as int).push(bytes@[i - 1]));
    }
    assert(bytes@.subrange(0, bytes@.len() as int) == bytes@);
}

/// The encoding of a string: its UTF-8 byte length as a big-endian `u32`,
/// then the bytes.
pub open spec fn string_encoding(v: Seq<char>) -> Seq<u8> {
    be_u32(encode_utf8(v).len() as u32) + encode_utf8(v)
}

impl DataValue for String {
    open spec fn encodable(v: Seq<char>) -> bool {
        encode_utf8(v).len() <= u32::MAX
    }

    open spec fn encoding(v: Seq<char>) -> Seq<u8> {
        string_encoding(v)
    }

    proof fn lemma_prefix_free(a: Seq<char>, b: Seq<char>, ra: Seq<u8>, rb: Seq<u8>) {
        let ea = encode_utf8(a);
        let eb = encode_utf8(b);
        crate::bytes::lemma_be_u32_roundtrip(ea.len() as u32);
        crate::bytes::lemma_be_u32_roundtrip(eb.len() as u32);
        let sa = string_encoding(a) + ra;
        let sb = string_encoding(b) + rb;
        assert(sa.subrange(0, 4) == be_u32(ea.len() as u32));
        assert(sb.subrange(0, 4) == be_u32(eb.len() as u32));
        assert(ea.len() == eb.len());
        assert(sa.subrange(4, 4 + ea.len() as int) == ea);
        assert(sb.subrange(4, 4 + eb.len() as int) == eb);
        vstd::utf8::encode_utf8_decode_utf8(a);
        vstd::utf8::encode_utf8_decode_utf8(b);
    }

    fn duplicate(&self) -> (r: Self) {
        self.clone()
    }

    fn encode_data(&self, buf: &mut Vec<u8>) {
        let bytes = self.as_str().as_bytes();
        assert(bytes@ == encode_utf8(self@));
        let n = bytes.len();
        crate::bytes::push_be_u32(buf, n as u32);
        push_bytes(buf, bytes);
        assert(buf@ =~= old(buf)@ + string_encoding(self@));
    }

    /// The length prefix, or as many bytes as it announces, is missing.
    open spec fn runs_out(data: Seq<u8>, pos: int) -> bool {
        data.len() - pos < 4 || data.len() - pos - 4 < read_be_u32(data.subrange(pos, pos + 4))
    }

    fn decode_data(data: &[u8], pos: usize) -> (r: Result<(Self, usize), DecodeError>) {
        let total = data.len();
        if total - pos < 4 {
            proof {
                assert forall|v: Seq<char>| #[trigger] string_encoding(v) == string_encoding(v)
                    implies !starts_with_at(data@, pos as int, string_encoding(v)) by {
                    crate::bytes::lemma_be_u32_roundtrip(encode_utf8(v).len() as u32);
                }
            }
            return Err(DecodeError::eof(String::from_str("failed to fill whole buffer")));
        }
        let n = crate::bytes::get_be_u32(data, pos) as usize;
        if total - pos - 4 < n {
            proof {
                assert forall|v: Seq<char>| #[trigger] Self::encodable(v) implies
                    !starts_with_at(data@, pos as int, string_encoding(v)) by {
                    let e = encode_utf8(v);
                    crate::bytes::lemma_be_u32_roundtrip(e.len() as u32);
                    if starts_with_at(data@, pos as int, string_encoding(v)) {
                        assert(data@.subrange(pos as int, pos + 4) == string_encoding(v).subrange(0, 4));
                        assert(string_encoding(v).subrange(0, 4) == be_u32(e.len() as u32));
                    }
                }
            }
            return Err(DecodeError::eof(String::from_str("failed to fill whole buffer")));
        }
        let bytes = vstd::slice::slice_subrange(data, pos + 4, pos + 4 + n);
        match string_from_utf8(bytes) {
            Some(s) => {
                proof {
                    vstd::utf8::decode_utf8_encode_utf8(bytes@);
                    crate::bytes::lemma_read_be_u32_roundtrip(data@.subrange(pos as int, pos + 4));
                    assert(data@.subrange(pos as int, (pos + 4 + n) as int) =~= data@.subrange(
                        pos as int,
                        pos + 4,
                    ) + bytes@);
                }
                Ok((s, pos + 4 + n))
            },
            None => {
                proof {
                    assert forall|v: Seq<char>| #[trigger] Self::encodable(v) implies
                        !starts_with_at(data@, pos as int, string_encoding(v)) by {
                        let e = encode_utf8(v);
                        crate::bytes::lemma_be_u32_roundtrip(e.len() as u32);
                        if starts_with_at(data@, pos as int, string_encoding(v)) {
                            assert(data@.subrange(pos as int, pos + 4) == string_encoding(v).subrange(0, 4));
                            assert(string_encoding(v).subrange(0, 4) == be_u32(e.len() as u32));
                            assert(n == e.len());
                            assert(bytes@ == string_encoding(v).subrange(4, 4 + e.len() as int));
                            assert(bytes@ == e);
                            vstd::utf8::encode_utf8_valid_utf8(v);
                        }
                    }
                    assert forall|v: Seq<char>| Self::encodable(v) implies
                        !cut_short_at(data@, pos as int, #[trigger] string_encoding(v)) by {
                        let e = encode_utf8(v);
                        crate::bytes::lemma_be_u32_roundtrip(e.len() as u32);
                        if cut_short_at(data@, pos as int, string_encoding(v)) {
                            crate::codec::lemma_cut_concat(data@, pos as int, be_u32(e.len() as u32), e);
                            assert(data@.subrange(pos as int, pos + 4) == be_u32(e.len() as u32));
                            crate::bytes::lemma_read_be_u32_roundtrip(data@.subrange(pos as int, pos + 4));
                        }
                    }
                }
                Err(DecodeError::invalid(String::from_str("invalid utf-8 sequence")))
            },
        }
    }

    open spec fn data_debug(v: Seq<char>) -> Seq<char> {
        debug_quoted(v)
    }

    fn write_data_debug(&self, out: &mut String) {
        let d = debug_string(self.as_str());
        crate::text::push_str(out, d.as_str());
    }
}

impl DataDisplay for String {
    open spec fn data_display(v: Seq<char>) -> Seq<char> {
        v
    }

    fn write_data_display(&self, out: &mut String) {
        crate::text::push_str(out, self.as_str());
    }
}

impl PayloadValue for String {
    /// A string is charged its UTF-8 byte length.
    open spec fn size(v: Seq<char>) -> u64 {
        encode_utf8(v).len() as u64
    }

    fn payload_size(&self) -> (r: u64) {
        let n = self.as_str().as_bytes().len();
        n as u64
    }
}

} // verus!
