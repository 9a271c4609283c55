//! The type parameters of a raft log, and what the log needs of each.
//!
//! A raft log is generic over the types gathered by [`Types`]: the log id,
//! the vote, the entry payload, the user data and the callback told of IO
//! completion. Log ids and votes are small ordered values; payloads and user
//! data are opaque data that the log only stores, sizes and encodes.

use vstd::prelude::*;

use crate::bytes::{be_u32, be_u64, cut_short_at, read_be_u32, read_be_u64, starts_with_at};
use crate::num::decimal;
use crate::text::{push_char, push_str};

verus! {

/// Why bytes could not be decoded.
#[derive(Debug, Clone, Copy, PartialEq, Eq)]
pub enum DecodeErrorKind {
    /// The bytes end before the value does.
    UnexpectedEof,
    /// The bytes are not the encoding of any value.
    InvalidData,
}

/// A failure to decode bytes, with a message that says what went wrong.
#[derive(Debug, Clone, PartialEq, Eq)]
pub struct DecodeError {
    pub kind: DecodeErrorKind,
    pub message: String,
}

impl DecodeError {
    pub fn eof(message: String) -> (r: Self)
        ensures
            r.kind == DecodeErrorKind::UnexpectedEof,
            r.message@ == message@,
    {
        DecodeError { kind: DecodeErrorKind::UnexpectedEof, message }
    }

    pub fn invalid(message: String) -> (r: Self)
        ensures
            r.kind == DecodeErrorKind::InvalidData,
            r.message@ == message@,
    {
        DecodeError { kind: DecodeErrorKind::InvalidData, message }
    }

    /// The kind of the failure.
    pub fn kind(&self) -> (r: DecodeErrorKind)
        ensures
            r == self.kind,
    {
        self.kind
    }
}

/// `a` orders before `b` in lexicographic order.
pub open spec fn key_lt(a: (int, int), b: (int, int)) -> bool {
    a.0 < b.0 || (a.0 == b.0 && a.1 < b.1)
}

/// A log id or a vote: a small value, ordered by a key of two integers.
pub trait OrderedId: Sized {
    /// The key this value orders by.
    spec fn key(self) -> (int, int);

    /// The key identifies the value.
    proof fn lemma_key_injective(a: Self, b: Self)
        ensures
            a.key() == b.key() ==> a == b,
    ;

    fn id_lt(&self, other: &Self) -> (r: bool)
        ensures
            r == key_lt(self.key(), other.key()),
    ;

    fn id_eq(&self, other: &Self) -> (r: bool)
        ensures
            r == (*self == *other),
    ;

    fn copy_id(&self) -> (r: Self)
        ensures
            r == *self,
    ;

    /// The bytes that encode this value.
    spec fn id_encoding(self) -> Seq<u8>;

    /// One encoding never starts another: bytes decode to at most one value.
    proof fn lemma_id_prefix_free(a: Self, b: Self, ra: Seq<u8>, rb: Seq<u8>)
        requires
            a.id_encoding() + ra == b.id_encoding() + rb,
        ensures
            a == b,
    ;

    fn encode_id(&self, buf: &mut Vec<u8>)
        ensures
            final(buf)@ == old(buf)@ + self.id_encoding(),
    ;

    fn decode_id(data: &[u8], pos: usize) -> (r: Result<(Self, usize), DecodeError>)
        requires
            pos <= data@.len(),
        ensures
            r matches Ok((v, end)) ==> pos <= end <= data@.len() && data@.subrange(
                pos as int,
                end as int,
            ) == v.id_encoding(),
            r is Err ==> r->Err_0.kind == DecodeErrorKind::UnexpectedEof,
            forall|v: Self|
                #![trigger v.id_encoding()]
                starts_with_at(data@, pos as int, v.id_encoding()) ==> r is Ok,
    ;

    /// How `{:?}` renders this value.
    spec fn id_debug(self) -> Seq<char>;

    fn write_id_debug(&self, out: &mut String)
        ensures
            final(out)@ == old(out)@ + self.id_debug(),
    ;
}

/// A log id: an ordered id that names the index of its entry.
pub trait LogIdKind: OrderedId {
    spec fn index(self) -> u64;

    fn log_index(&self) -> (r: u64)
        ensures
            r == self.index(),
    ;
}

/// An id that has a human-readable rendering (`{}`).
pub trait IdDisplay: OrderedId {
    spec fn id_display(self) -> Seq<char>;

    fn write_id_display(&self, out: &mut String)
        ensures
            final(out)@ == old(out)@ + self.id_display(),
    ;
}

/// Data the log stores without looking inside: entry payloads and user data.
pub trait DataValue: View + Sized {
    /// The value fits its encoding (a length prefix of 32 bits).
    spec fn encodable(v: Self::V) -> bool;

    spec fn encoding(v: Self::V) -> Seq<u8>;

    proof fn lemma_prefix_free(a: Self::V, b: Self::V, ra: Seq<u8>, rb: Seq<u8>)
        requires
            Self::encodable(a),
            Self::encodable(b),
            Self::encoding(a) + ra == Self::encoding(b) + rb,
        ensures
            a == b,
    ;

    fn duplicate(&self) -> (r: Self)
        ensures
            r@ == self@,
    ;

    fn encode_data(&self, buf: &mut Vec<u8>)
        ensures
            final(buf)@ == old(buf)@ + Self::encoding(self@),
    ;

    /// Decodes the value whose encoding starts at `pos`. Bytes that end
    /// inside a value's encoding fail as running out of bytes.
    fn decode_data(data: &[u8], pos: usize) -> (r: Result<(Self, usize), DecodeError>)
        requires
            pos <= data@.len(),
        ensures
            r matches Ok((v, end)) ==> pos <= end <= data@.len() && Self::encodable(v@)
                && data@.subrange(pos as int, end as int) == Self::encoding(v@),
            forall|v: Self::V|
                #![trigger Self::encoding(v)]
                Self::encodable(v) && starts_with_at(data@, pos as int, Self::encoding(v))
                    ==> r is Ok,
            forall|v: Self::V|
                #![trigger Self::encoding(v)]
                Self::encodable(v) && cut_short_at(data@, pos as int, Self::encoding(v)) && r is Err
                    ==> r->Err_0.kind == DecodeErrorKind::UnexpectedEof,
            r is Err ==> (r->Err_0.kind == DecodeErrorKind::UnexpectedEof <==> Self::runs_out(data@, pos as int)),
    ;

    /// Decoding at `pos` runs out of bytes before it has read a value whole:
    /// a field it reads, or the value it was told to expect, goes past the
    /// end of `data`.
    spec fn runs_out(data: Seq<u8>, pos: int) -> bool;

    spec fn data_debug(v: Self::V) -> Seq<char>;

    fn write_data_debug(&self, out: &mut String)
        ensures
            final(out)@ == old(out)@ + Self::data_debug(self@),
    ;
}

/// Data with a human-readable rendering (`{}`).
pub trait DataDisplay: DataValue {
    spec fn data_display(v: Self::V) -> Seq<char>;

    fn write_data_display(&self, out: &mut String)
        ensures
            final(out)@ == old(out)@ + Self::data_display(self@),
    ;
}

/// An entry payload: data with a size, which the payload cache counts.
pub trait PayloadValue: DataValue {
    /// The size the cache charges for this payload. It need not be exact.
    spec fn size(v: Self::V) -> u64;

    fn payload_size(&self) -> (r: u64)
        ensures
            r == Self::size(self@),
    ;
}

/// The type parameters of a raft log.
pub trait Types: Sized + std::fmt::Debug + Clone + PartialEq + Eq + Default {
    /// Identifies a log entry; usually a term and an index.
    type LogId: LogIdKind + std::fmt::Debug + Clone + PartialEq + Eq;

    /// The vote of a raft node; in some raft implementations the hard state.
    type Vote: OrderedId + std::fmt::Debug + Clone + PartialEq + Eq;

    /// The data or command stored in a log entry.
    type LogPayload: PayloadValue + std::fmt::Debug + Clone + PartialEq + Eq;

    /// Data an application attaches to the log, which the log only stores.
    type UserData: DataValue + std::fmt::Debug + Clone + PartialEq + Eq;

    /// Told when an IO operation completes.
    type Callback: crate::api::Callback;
}

/// The index that follows `log_id`: `0` when there is none.
pub open spec fn spec_next_log_index<L: LogIdKind>(log_id: Option<L>) -> int {
    match log_id {
        Some(l) => l.index() + 1,
        None => 0,
    }
}

/// The index that follows `log_id`: `0` when there is none.
pub fn next_log_index<L: LogIdKind>(log_id: Option<&L>) -> (r: u64)
    requires
        log_id matches Some(l) ==> l.index() < u64::MAX,
    ensures
        r == spec_next_log_index(match log_id {
            Some(l) => Some(*l),
            None => None,
        }),
{
    match log_id {
        Some(l) => l.log_index() + 1,
        None => 0,
    }
}

// ---- u64: a plain number ----

impl OrderedId for u64 {
    open spec fn key(self) -> (int, int) {
        (self as int, 0)
    }

    proof fn lemma_key_injective(a: Self, b: Self) {
    }

    fn id_lt(&self, other: &Self) -> (r: bool) {
        *self < *other
    }

    fn id_eq(&self, other: &Self) -> (r: bool) {
        *self == *other
    }

    fn copy_id(&self) -> (r: Self) {
        *self
    }

    open spec fn id_encoding(self) -> Seq<u8> {
        be_u64(self)
    }

    proof fn lemma_id_prefix_free(a: Self, b: Self, ra: Seq<u8>, rb: Seq<u8>) {
        crate::bytes::lemma_be_u64_roundtrip(a);
        crate::bytes::lemma_be_u64_roundtrip(b);
        assert((be_u64(a) + ra).subrange(0, 8) == be_u64(a));
        assert((be_u64(b) + rb).subrange(0, 8) == be_u64(b));
    }

    fn encode_id(&self, buf: &mut Vec<u8>) {
        crate::bytes::push_be_u64(buf, *self);
    }

    fn decode_id(data: &[u8], pos: usize) -> (r: Result<(Self, usize), DecodeError>) {
        if data.len() - pos < 8 {
            proof {
                assert forall|v: u64| #[trigger] v.id_encoding() == be_u64(v) implies
                    !starts_with_at(data@, pos as int, v.id_encoding()) by {
                    crate::bytes::lemma_be_u64_roundtrip(v);
                }
            }
            return Err(DecodeError::eof(String::from_str("failed to fill whole buffer")));
        }
        let v = crate::bytes::get_be_u64(data, pos);
        proof {
            crate::bytes::lemma_read_be_u64_roundtrip(data@.subrange(pos as int, pos + 8));
        }
        Ok((v, pos + 8))
    }

    open spec fn id_debug(self) -> Seq<char> {
        decimal(self as nat)
    }

    fn write_id_debug(&self, out: &mut String) {
        let d = crate::num::decimal_chars(*self);
        crate::text::push_chars(out, &d);
    }
}

impl LogIdKind for u64 {
    open spec fn index(self) -> u64 {
        self
    }

    fn log_index(&self) -> (r: u64) {
        *self
    }
}

impl IdDisplay for u64 {
    open spec fn id_display(self) -> Seq<char> {
        decimal(self as nat)
    }

    fn write_id_display(&self, out: &mut String) {
        let d = crate::num::decimal_chars(*self);
        crate::text::push_chars(out, &d);
    }
}

// ---- (u64, u64): a pair such as `(term, index)` ----

impl OrderedId for (u64, u64) {
    open spec fn key(self) -> (int, int) {
        (self.0 as int, self.1 as int)
    }

    proof fn lemma_key_injective(a: Self, b: Self) {
    }

    fn id_lt(&self, other: &Self) -> (r: bool) {
        self.0 < other.0 || (self.0 == other.0 && self.1 < other.1)
    }

    fn id_eq(&self, other: &Self) -> (r: bool) {
        self.0 == other.0 && self.1 == other.1
    }

    fn copy_id(&self) -> (r: Self) {
        (self.0, self.1)
    }

    open spec fn id_encoding(self) -> Seq<u8> {
        be_u64(self.0) + be_u64(self.1)
    }

    proof fn lemma_id_prefix_free(a: Self, b: Self, ra: Seq<u8>, rb: Seq<u8>) {
        crate::bytes::lemma_be_u64_roundtrip(a.0);
        crate::bytes::lemma_be_u64_roundtrip(b.0);
        crate::bytes::lemma_be_u64_roundtrip(a.1);
        crate::bytes::lemma_be_u64_roundtrip(b.1);
        let sa = be_u64(a.0) + be_u64(a.1) + ra;
        let sb = be_u64(b.0) + be_u64(b.1) + rb;
        assert(sa.subrange(0, 8) == be_u64(a.0));
        assert(sb.subrange(0, 8) == be_u64(b.0));
        assert(sa.subrange(8, 16) == be_u64(a.1));
        assert(sb.subrange(8, 16) == be_u64(b.1));
    }

    fn encode_id(&self, buf: &mut Vec<u8>) {
        crate::bytes::push_be_u64(buf, self.0);
        crate::bytes::push_be_u64(buf, self.1);
        assert(buf@ =~= old(buf)@ + self.id_encoding());
    }

    #[verifier::spinoff_prover]
    #[verifier::rlimit(40)]
    fn decode_id(data: &[u8], pos: usize) -> (r: Result<(Self, usize), DecodeError>) {
        if data.len() - pos < 16 {
            proof {
                assert forall|v: (u64, u64)| #[trigger] v.id_encoding() == v.id_encoding() implies
                    !starts_with_at(data@, pos as int, v.id_encoding()) by {
                    crate::bytes::lemma_be_u64_roundtrip(v.0);
                    crate::bytes::lemma_be_u64_roundtrip(v.1);
                }
            }
            return Err(DecodeError::eof(String::from_str("failed to fill whole buffer")));
        }
        let a = crate::bytes::get_be_u64(data, pos);
        let b = crate::bytes::get_be_u64(data, pos + 8);
        proof {
            crate::bytes::lemma_read_be_u64_roundtrip(data@.subrange(pos as int, pos + 8));
            crate::bytes::lemma_read_be_u64_roundtrip(data@.subrange(pos + 8, pos + 16));
            assert(data@.subrange(pos as int, pos + 16) =~= data@.subrange(pos as int, pos + 8)
                + data@.subrange(pos + 8, pos + 16));
        }
        Ok(((a, b), pos + 16))
    }

    open spec fn id_debug(self) -> Seq<char> {
        seq!['('] + decimal(self.0 as nat) + seq![',', ' '] + decimal(self.1 as nat) + seq![')']
    }

    fn write_id_debug(&self, out: &mut String) {
        push_char(out, '(');
        let d0 = crate::num::decimal_chars(self.0);
        crate::text::push_chars(out, &d0);
        push_char(out, ',');
        push_char(out, ' ');
        let d1 = crate::num::decimal_chars(self.1);
        crate::text::push_chars(out, &d1);
        push_char(out, ')');
        assert(out@ =~= old(out)@ + self.id_debug());
    }
}

impl LogIdKind for (u64, u64) {
    open spec fn index(self) -> u64 {
        self.1
    }

    fn log_index(&self) -> (r: u64) {
        self.1
    }
}

} // verus!
