//! The byte format of WAL records.
//!
//! Every value is written big-endian. An optional value is a tag byte (`0`
//! for none, `1` for some) followed by the value. An action and a checkpoint
//! record are framed: a 4-byte record type, the body, and an 8-byte CRC32
//! checksum of type and body.

use vstd::prelude::*;

use crate::bytes::{be_u32, be_u64, crc32_checksum, cut_short_at, read_be_u32, read_be_u64, starts_with_at};
use crate::raft_log_state::{opt_view, RaftLogState, RaftLogStateView};
use crate::record::{RaftLogAction, RaftWalTypes, WALRecord, WalTypes, CHECKPOINT_RECORD_TYPE};
use crate::types::{DataDisplay, DataValue, DecodeError, DecodeErrorKind, IdDisplay, LogIdKind, OrderedId, PayloadValue, Types};

verus! {

/// `data` starting at `pos` with `x + y` starts with `x`, and with `y` right
/// after it.
pub proof fn lemma_starts_with_concat(data: Seq<u8>, pos: int, x: Seq<u8>, y: Seq<u8>)
    requires
        starts_with_at(data, pos, x + y),
    ensures
        starts_with_at(data, pos, x),
        starts_with_at(data, pos + x.len(), y),
{
    let w = data.subrange(pos, pos + (x + y).len());
    assert(w == x + y);
    assert(data.subrange(pos, pos + x.len()) =~= w.subrange(0, x.len() as int));
    assert(w.subrange(0, x.len() as int) =~= x);
    assert(data.subrange(pos + x.len(), pos + x.len() + y.len()) =~= w.subrange(
        x.len() as int,
        w.len() as int,
    ));
    assert(w.subrange(x.len() as int, w.len() as int) =~= y);
}

/// Bytes that are `x + y` cut short are `x` cut short, or `x` whole and
/// then `y` cut short.
pub proof fn lemma_cut_concat(data: Seq<u8>, pos: int, x: Seq<u8>, y: Seq<u8>)
    requires
        cut_short_at(data, pos, x + y),
    ensures
        cut_short_at(data, pos, x) || (starts_with_at(data, pos, x) && cut_short_at(data, pos + x.len(), y)),
{
    let k = data.len() - pos;
    let w = data.subrange(pos, data.len() as int);
    assert(w == (x + y).subrange(0, k));
    if k < x.len() {
        assert(w =~= x.subrange(0, k));
    } else {
        assert(data.subrange(pos, pos + x.len()) =~= w.subrange(0, x.len() as int));
        assert(w.subrange(0, x.len() as int) =~= x);
        assert(data.subrange(pos + x.len(), data.len() as int) =~= w.subrange(x.len() as int, k));
        assert(w.subrange(x.len() as int, k) =~= y.subrange(0, k - x.len()));
    }
}

/// Bytes that are `x` cut short and start with `y` hold all of `y` inside
/// `x`: `x` is `y` followed by more.
pub proof fn lemma_cut_then_full(data: Seq<u8>, pos: int, x: Seq<u8>, y: Seq<u8>)
    requires
        cut_short_at(data, pos, x),
        starts_with_at(data, pos, y),
    ensures
        y.len() < x.len(),
        y + x.subrange(y.len() as int, x.len() as int) == x + Seq::<u8>::empty(),
{
    let k = data.len() - pos;
    let w = data.subrange(pos, data.len() as int);
    assert(w.subrange(0, y.len() as int) =~= data.subrange(pos, pos + y.len()));
    assert(x.subrange(0, k).subrange(0, y.len() as int) =~= x.subrange(0, y.len() as int));
    assert(y + x.subrange(y.len() as int, x.len() as int) =~= x + Seq::<u8>::empty());
}

/// Bytes that are `x` cut short, with at least one byte left, begin with the
/// first byte of `x`.
pub proof fn lemma_cut_first(data: Seq<u8>, pos: int, x: Seq<u8>)
    requires
        cut_short_at(data, pos, x),
        pos < data.len(),
    ensures
        data[pos] == x[0],
{
    assert(data[pos] == data.subrange(pos, data.len() as int)[0]);
}

/// Bytes that are `x` cut short, with at least `n` bytes left, begin with
/// the first `n` bytes of `x`.
pub proof fn lemma_cut_head(data: Seq<u8>, pos: int, x: Seq<u8>, n: int)
    requires
        cut_short_at(data, pos, x),
        0 <= n,
        pos + n <= data.len(),
    ensures
        data.subrange(pos, pos + n) == x.subrange(0, n),
{
    assert(data.subrange(pos, pos + n) =~= data.subrange(pos, data.len() as int).subrange(0, n));
}

/// No value's encoding is whole where another's is cut short.
pub proof fn lemma_data_cut_not_full<D: DataValue>(data: Seq<u8>, pos: int, v: D::V, w: D::V)
    requires
        D::encodable(v),
        D::encodable(w),
    ensures
        !(cut_short_at(data, pos, D::encoding(v)) && starts_with_at(data, pos, D::encoding(w))),
{
    if cut_short_at(data, pos, D::encoding(v)) && starts_with_at(data, pos, D::encoding(w)) {
        lemma_cut_then_full(data, pos, D::encoding(v), D::encoding(w));
        D::lemma_prefix_free(w, v, D::encoding(v).subrange(D::encoding(w).len() as int, D::encoding(v).len() as int), Seq::empty());
    }
}

/// No id's encoding is whole where another's is cut short.
pub proof fn lemma_id_cut_not_full<K: OrderedId>(data: Seq<u8>, pos: int, v: K, w: K)
    ensures
        !(cut_short_at(data, pos, v.id_encoding()) && starts_with_at(data, pos, w.id_encoding())),
{
    if cut_short_at(data, pos, v.id_encoding()) && starts_with_at(data, pos, w.id_encoding()) {
        lemma_cut_then_full(data, pos, v.id_encoding(), w.id_encoding());
        K::lemma_id_prefix_free(w, v, v.id_encoding().subrange(w.id_encoding().len() as int, v.id_encoding().len() as int), Seq::empty());
    }
}

/// No optional id's encoding is whole where another's is cut short.
pub proof fn lemma_opt_id_cut_not_full<K: OrderedId>(data: Seq<u8>, pos: int, v: Option<K>, w: Option<K>)
    ensures
        !(cut_short_at(data, pos, opt_id_encoding(v)) && starts_with_at(data, pos, opt_id_encoding(w))),
{
    if cut_short_at(data, pos, opt_id_encoding(v)) && starts_with_at(data, pos, opt_id_encoding(w)) {
        lemma_cut_then_full(data, pos, opt_id_encoding(v), opt_id_encoding(w));
        lemma_opt_id_prefix_free(w, v, opt_id_encoding(v).subrange(opt_id_encoding(w).len() as int, opt_id_encoding(v).len() as int), Seq::empty());
    }
}

/// An encodable value of `D` starts at `p` in `data`.
pub open spec fn data_at<D: DataValue>(data: Seq<u8>, p: int) -> bool {
    exists|v: D::V| #![trigger D::encoding(v)] D::encodable(v) && starts_with_at(data, p, D::encoding(v))
}

/// The length of the encodable value of `D` that starts at `p`.
pub open spec fn data_len_at<D: DataValue>(data: Seq<u8>, p: int) -> int {
    D::encoding(choose|v: D::V| D::encodable(v) && starts_with_at(data, p, D::encoding(v))).len() as int
}

/// A value decoded at `p` is the one that starts there.
pub proof fn lemma_data_found<D: DataValue>(data: Seq<u8>, p: int, v: D::V, end: int)
    requires
        D::encodable(v),
        0 <= p <= end <= data.len(),
        data.subrange(p, end) == D::encoding(v),
    ensures
        data_at::<D>(data, p),
        data_len_at::<D>(data, p) == end - p,
{
    assert(starts_with_at(data, p, D::encoding(v)));
    let w = choose|w: D::V| D::encodable(w) && starts_with_at(data, p, D::encoding(w));
    lemma_data_at::<D>(data, p, v, w);
}

/// An id of type `K` starts at `p` in `data`.
pub open spec fn id_at<K: OrderedId>(data: Seq<u8>, p: int) -> bool {
    exists|k: K| #![trigger k.id_encoding()] starts_with_at(data, p, k.id_encoding())
}

/// The length of the id that starts at `p`.
pub open spec fn id_len_at<K: OrderedId>(data: Seq<u8>, p: int) -> int {
    (choose|k: K| starts_with_at(data, p, k.id_encoding())).id_encoding().len() as int
}

/// An id decoded at `p` is the one that starts there.
pub proof fn lemma_id_found<K: OrderedId>(data: Seq<u8>, p: int, k: K, end: int)
    requires
        0 <= p <= end <= data.len(),
        data.subrange(p, end) == k.id_encoding(),
    ensures
        id_at::<K>(data, p),
        id_len_at::<K>(data, p) == end - p,
{
    assert(starts_with_at(data, p, k.id_encoding()));
    let w = choose|w: K| starts_with_at(data, p, w.id_encoding());
    lemma_id_at(data, p, k, w);
}

/// An optional id of type `K` starts at `p` in `data`.
pub open spec fn opt_id_at<K: OrderedId>(data: Seq<u8>, p: int) -> bool {
    exists|o: Option<K>| #![trigger opt_id_encoding(o)] starts_with_at(data, p, opt_id_encoding(o))
}

/// The length of the optional id that starts at `p`.
pub open spec fn opt_id_len_at<K: OrderedId>(data: Seq<u8>, p: int) -> int {
    opt_id_encoding(choose|o: Option<K>| starts_with_at(data, p, opt_id_encoding(o))).len() as int
}

/// Decoding an optional id at `p` runs out of bytes: there is no tag byte,
/// or the tag announces an id that is not there whole.
pub open spec fn opt_id_runs_out<K: OrderedId>(data: Seq<u8>, p: int) -> bool {
    p >= data.len() || (data[p] == 1 && !id_at::<K>(data, p + 1))
}

/// An optional id decoded at `p` is the one that starts there, and decoding
/// it there does not run out.
pub proof fn lemma_opt_id_found<K: OrderedId>(data: Seq<u8>, p: int, o: Option<K>, end: int)
    requires
        0 <= p <= end <= data.len(),
        data.subrange(p, end) == opt_id_encoding(o),
    ensures
        opt_id_at::<K>(data, p),
        opt_id_len_at::<K>(data, p) == end - p,
        !opt_id_runs_out::<K>(data, p),
{
    assert(starts_with_at(data, p, opt_id_encoding(o)));
    let w = choose|w: Option<K>| starts_with_at(data, p, opt_id_encoding(w));
    lemma_opt_id_at(data, p, o, w);
    assert(data[p] == opt_id_encoding(o)[0]);
    if let Some(k) = o {
        lemma_starts_with_concat(data, p, seq![1u8], k.id_encoding());
    }
}

/// Optional data of type `D` starts at `p` in `data`.
pub open spec fn opt_data_at<D: DataValue>(data: Seq<u8>, p: int) -> bool {
    exists|o: Option<D::V>|
        #![trigger opt_data_encoding::<D>(o)]
        opt_data_encodable::<D>(o) && starts_with_at(data, p, opt_data_encoding::<D>(o))
}

/// Decoding optional data at `p` runs out of bytes: there is no tag byte, or
/// the tag announces a value whose decoding runs out.
pub open spec fn opt_data_runs_out<D: DataValue>(data: Seq<u8>, p: int) -> bool {
    p >= data.len() || (data[p] == 1 && !data_at::<D>(data, p + 1) && D::runs_out(data, p + 1))
}

/// Optional data decoded at `p` is there, and decoding it does not run out.
pub proof fn lemma_opt_data_found<D: DataValue>(data: Seq<u8>, p: int, o: Option<D::V>, end: int)
    requires
        opt_data_encodable::<D>(o),
        0 <= p <= end <= data.len(),
        data.subrange(p, end) == opt_data_encoding::<D>(o),
    ensures
        opt_data_at::<D>(data, p),
        !opt_data_runs_out::<D>(data, p),
{
    assert(starts_with_at(data, p, opt_data_encoding::<D>(o)));
    assert(data[p] == opt_data_encoding::<D>(o)[0]);
    if let Some(v) = o {
        lemma_starts_with_concat(data, p, seq![1u8], D::encoding(v));
    }
}

/// Two adjacent spans of `data` make the span that covers both.
pub proof fn lemma_subrange_join(data: Seq<u8>, a: int, b: int, c: int)
    requires
        0 <= a <= b <= c <= data.len(),
    ensures
        data.subrange(a, c) == data.subrange(a, b) + data.subrange(b, c),
{
    assert(data.subrange(a, c) =~= data.subrange(a, b) + data.subrange(b, c));
}

/// The tag byte and value of an optional id.
pub open spec fn opt_id_encoding<K: OrderedId>(o: Option<K>) -> Seq<u8> {
    match o {
        None => seq![0u8],
        Some(k) => seq![1u8] + k.id_encoding(),
    }
}

/// The tag byte and value of optional data.
pub open spec fn opt_data_encoding<D: DataValue>(o: Option<D::V>) -> Seq<u8> {
    match o {
        None => seq![0u8],
        Some(v) => seq![1u8] + D::encoding(v),
    }
}

pub open spec fn opt_data_encodable<D: DataValue>(o: Option<D::V>) -> bool {
    match o {
        None => true,
        Some(v) => D::encodable(v),
    }
}

/// Optional ids have prefix-free encodings: one never starts another.
pub proof fn lemma_opt_id_prefix_free<K: OrderedId>(a: Option<K>, b: Option<K>, ra: Seq<u8>, rb: Seq<u8>)
    requires
        opt_id_encoding(a) + ra == opt_id_encoding(b) + rb,
    ensures
        a == b,
{
    let sa = opt_id_encoding(a) + ra;
    let sb = opt_id_encoding(b) + rb;
    assert(sa[0] == opt_id_encoding(a)[0]);
    assert(sb[0] == opt_id_encoding(b)[0]);
    if let (Some(x), Some(y)) = (a, b) {
        assert(sa.drop_first() =~= x.id_encoding() + ra);
        assert(sb.drop_first() =~= y.id_encoding() + rb);
        K::lemma_id_prefix_free(x, y, ra, rb);
    }
}

/// Optional data values have prefix-free encodings: one never starts another.
pub proof fn lemma_opt_data_prefix_free<D: DataValue>(a: Option<D::V>, b: Option<D::V>, ra: Seq<u8>, rb: Seq<u8>)
    requires
        opt_data_encodable::<D>(a),
        opt_data_encodable::<D>(b),
        opt_data_encoding::<D>(a) + ra == opt_data_encoding::<D>(b) + rb,
    ensures
        a == b,
{
    let sa = opt_data_encoding::<D>(a) + ra;
    let sb = opt_data_encoding::<D>(b) + rb;
    assert(sa[0] == opt_data_encoding::<D>(a)[0]);
    assert(sb[0] == opt_data_encoding::<D>(b)[0]);
    if let (Some(x), Some(y)) = (a, b) {
        assert(sa.drop_first() =~= D::encoding(x) + ra);
        assert(sb.drop_first() =~= D::encoding(y) + rb);
        D::lemma_prefix_free(x, y, ra, rb);
    }
}

pub fn encode_opt_id<K: OrderedId>(o: &Option<K>, buf: &mut Vec<u8>)
    ensures
        final(buf)@ == old(buf)@ + opt_id_encoding(*o),
{
    match o {
        None => {
            buf.push(0u8);
        },
        Some(k) => {
            buf.push(1u8);
            k.encode_id(buf);
        },
    }
    assert(buf@ =~= old(buf)@ + opt_id_encoding(*o));
}

pub fn encode_opt_data<D: DataValue>(o: &Option<D>, buf: &mut Vec<u8>)
    ensures
        final(buf)@ == old(buf)@ + opt_data_encoding::<D>(opt_view(*o)),
{
    match o {
        None => {
            buf.push(0u8);
        },
        Some(d) => {
            buf.push(1u8);
            d.encode_data(buf);
        },
    }
    assert(buf@ =~= old(buf)@ + opt_data_encoding::<D>(opt_view(*o)));
}

/// The message for an option tag that is neither `0` nor `1`.
pub fn invalid_tag_error(tag: u8) -> (r: DecodeError)
    ensures
        r.kind == DecodeErrorKind::InvalidData,
{
    let mut s = String::new();
    crate::text::push_str(&mut s, "Invalid tag: ");
    let d = crate::num::decimal_chars(tag as u64);
    crate::text::push_chars(&mut s, &d);
    DecodeError::invalid(s)
}

/// The error for bytes that end before the value does.
pub fn eof_error() -> (r: DecodeError)
    ensures
        r.kind == DecodeErrorKind::UnexpectedEof,
        r.message@ == "failed to fill whole buffer"@,
{
    DecodeError::eof(String::from_str("failed to fill whole buffer"))
}

pub fn decode_opt_id<K: OrderedId>(data: &[u8], pos: usize) -> (r: Result<(Option<K>, usize), DecodeError>)
    requires
        pos <= data@.len(),
    ensures
        r matches Ok((o, end)) ==> pos <= end <= data@.len() && data@.subrange(pos as int, end as int)
            == opt_id_encoding(o),
        forall|o: Option<K>|
            #![trigger opt_id_encoding(o)]
            starts_with_at(data@, pos as int, opt_id_encoding(o)) ==> r is Ok,
        forall|o: Option<K>|
            #![trigger opt_id_encoding(o)]
            cut_short_at(data@, pos as int, opt_id_encoding(o)) && r is Err ==> r->Err_0.kind
                == DecodeErrorKind::UnexpectedEof,
        r is Err ==> (r->Err_0.kind == DecodeErrorKind::UnexpectedEof <==> opt_id_runs_out::<K>(data@, pos as int)),
{
    if pos >= data.len() {
        return Err(eof_error());
    }
    let tag = data[pos];
    if tag == 0 {
        assert(data@.subrange(pos as int, pos + 1) =~= seq![0u8]);
        Ok((None, pos + 1))
    } else if tag == 1 {
        match K::decode_id(data, pos + 1) {
            Ok((k, end)) => {
                proof {
                    lemma_subrange_join(data@, pos as int, pos + 1, end as int);
                    assert(data@.subrange(pos as int, pos + 1) =~= seq![1u8]);
                }
                Ok((Some(k), end))
            },
            Err(e) => {
                proof {
                    assert forall|o: Option<K>| #[trigger] opt_id_encoding(o) == opt_id_encoding(o) implies
                        !starts_with_at(data@, pos as int, opt_id_encoding(o)) by {
                        if starts_with_at(data@, pos as int, opt_id_encoding(o)) {
                            assert(data@[pos as int] == opt_id_encoding(o)[0]);
                            if let Some(k) = o {
                                lemma_starts_with_concat(data@, pos as int, seq![1u8], k.id_encoding());
                            }
                        }
                    }
                }
                Err(e)
            },
        }
    } else {
        proof {
            assert forall|o: Option<K>| #[trigger] opt_id_encoding(o) == opt_id_encoding(o) implies
                !starts_with_at(data@, pos as int, opt_id_encoding(o)) by {
                if starts_with_at(data@, pos as int, opt_id_encoding(o)) {
                    assert(data@[pos as int] == data@.subrange(pos as int, pos + opt_id_encoding(o).len())[0]);
                }
            }
        }
        proof {
            assert forall|o: Option<K>| #[trigger] opt_id_encoding(o) == opt_id_encoding(o) implies
                !cut_short_at(data@, pos as int, opt_id_encoding(o)) by {
                if cut_short_at(data@, pos as int, opt_id_encoding(o)) {
                    lemma_cut_first(data@, pos as int, opt_id_encoding(o));
                }
            }
        }
        Err(invalid_tag_error(tag))
    }
}

pub fn decode_opt_data<D: DataValue>(data: &[u8], pos: usize) -> (r: Result<(Option<D>, usize), DecodeError>)
    requires
        pos <= data@.len(),
    ensures
        r matches Ok((o, end)) ==> pos <= end <= data@.len() && opt_data_encodable::<D>(opt_view(o))
            && data@.subrange(pos as int, end as int) == opt_data_encoding::<D>(opt_view(o)),
        forall|o: Option<D::V>|
            #![trigger opt_data_encoding::<D>(o)]
            opt_data_encodable::<D>(o) && starts_with_at(data@, pos as int, opt_data_encoding::<D>(o)) ==> r is Ok,
        forall|o: Option<D::V>|
            #![trigger opt_data_encoding::<D>(o)]
            opt_data_encodable::<D>(o) && cut_short_at(data@, pos as int, opt_data_encoding::<D>(o)) && r is Err
                ==> r->Err_0.kind == DecodeErrorKind::UnexpectedEof,
        r is Err ==> (r->Err_0.kind == DecodeErrorKind::UnexpectedEof <==> opt_data_runs_out::<D>(data@, pos as int)),
{
    if pos >= data.len() {
        return Err(eof_error());
    }
    let tag = data[pos];
    if tag == 0 {
        assert(data@.subrange(pos as int, pos + 1) =~= seq![0u8]);
        Ok((None, pos + 1))
    } else if tag == 1 {
        match D::decode_data(data, pos + 1) {
            Ok((d, end)) => {
                proof {
                    lemma_subrange_join(data@, pos as int, pos + 1, end as int);
                    assert(data@.subrange(pos as int, pos + 1) =~= seq![1u8]);
                }
                Ok((Some(d), end))
            },
            Err(e) => {
                proof {
                    assert forall|o: Option<D::V>| opt_data_encodable::<D>(o) implies
                        !starts_with_at(data@, pos as int, #[trigger] opt_data_encoding::<D>(o)) by {
                        if starts_with_at(data@, pos as int, opt_data_encoding::<D>(o)) {
                            assert(data@[pos as int] == opt_data_encoding::<D>(o)[0]);
                            if let Some(v) = o {
                                lemma_starts_with_concat(data@, pos as int, seq![1u8], D::encoding(v));
                            }
                        }
                    }
                    assert forall|o: Option<D::V>| opt_data_encodable::<D>(o) && #[trigger] cut_short_at(
                        data@,
                        pos as int,
                        opt_data_encoding::<D>(o),
                    ) implies e.kind == DecodeErrorKind::UnexpectedEof by {
                        if let Some(v) = o {
                            lemma_cut_concat(data@, pos as int, seq![1u8], D::encoding(v));
                        }
                    }
                }
                Err(e)
            },
        }
    } else {
        proof {
            assert forall|o: Option<D::V>| opt_data_encodable::<D>(o) implies
                !starts_with_at(data@, pos as int, #[trigger] opt_data_encoding::<D>(o)) by {
                if starts_with_at(data@, pos as int, opt_data_encoding::<D>(o)) {
                    assert(data@[pos as int] == data@.subrange(pos as int, pos + opt_data_encoding::<D>(o).len())[0]);
                }
            }
        }
        proof {
            assert forall|o: Option<D::V>| #[trigger] opt_data_encoding::<D>(o) == opt_data_encoding::<D>(o) implies
                !cut_short_at(data@, pos as int, opt_data_encoding::<D>(o)) by {
                if cut_short_at(data@, pos as int, opt_data_encoding::<D>(o)) {
                    lemma_cut_first(data@, pos as int, opt_data_encoding::<D>(o));
                }
            }
        }
        Err(invalid_tag_error(tag))
    }
}

} // verus!

verus! {

/// `data` from `pos` on is `x` followed by the rest.
pub proof fn lemma_starts_with_split(data: Seq<u8>, pos: int, x: Seq<u8>)
    requires
        starts_with_at(data, pos, x),
    ensures
        data.subrange(pos, data.len() as int) == x + data.subrange(pos + x.len(), data.len() as int),
{
    assert(data.subrange(pos, data.len() as int) =~= data.subrange(pos, pos + x.len()) + data.subrange(
        pos + x.len(),
        data.len() as int,
    ));
}

/// Two optional ids whose encodings both start at `pos` are the same.
pub proof fn lemma_opt_id_at<K: OrderedId>(data: Seq<u8>, pos: int, a: Option<K>, b: Option<K>)
    requires
        starts_with_at(data, pos, opt_id_encoding(a)),
        starts_with_at(data, pos, opt_id_encoding(b)),
    ensures
        a == b,
{
    lemma_starts_with_split(data, pos, opt_id_encoding(a));
    lemma_starts_with_split(data, pos, opt_id_encoding(b));
    lemma_opt_id_prefix_free(
        a,
        b,
        data.subrange(pos + opt_id_encoding(a).len(), data.len() as int),
        data.subrange(pos + opt_id_encoding(b).len(), data.len() as int),
    );
}

/// Two optional data values whose encodings both start at `pos` are the same.
pub proof fn lemma_opt_data_at<D: DataValue>(data: Seq<u8>, pos: int, a: Option<D::V>, b: Option<D::V>)
    requires
        opt_data_encodable::<D>(a),
        opt_data_encodable::<D>(b),
        starts_with_at(data, pos, opt_data_encoding::<D>(a)),
        starts_with_at(data, pos, opt_data_encoding::<D>(b)),
    ensures
        a == b,
{
    lemma_starts_with_split(data, pos, opt_data_encoding::<D>(a));
    lemma_starts_with_split(data, pos, opt_data_encoding::<D>(b));
    lemma_opt_data_prefix_free::<D>(
        a,
        b,
        data.subrange(pos + opt_data_encoding::<D>(a).len(), data.len() as int),
        data.subrange(pos + opt_data_encoding::<D>(b).len(), data.len() as int),
    );
}

/// The encoding of a raft log state: a version byte `1`, then vote, last,
/// committed and purged log ids and the user data, each optional.
pub open spec fn state_encoding<T: Types>(v: RaftLogStateView<T>) -> Seq<u8> {
    seq![1u8] + (opt_id_encoding(v.vote) + (opt_id_encoding(v.last) + (opt_id_encoding(v.committed) + (
    opt_id_encoding(v.purged) + opt_data_encoding::<T::UserData>(v.user_data)))))
}

/// A state's encoding starting at `pos` puts each field at its place.
pub proof fn lemma_state_fields_at<T: Types>(data: Seq<u8>, pos: int, v: RaftLogStateView<T>)
    requires
        starts_with_at(data, pos, state_encoding(v)),
    ensures
        starts_with_at(data, pos, seq![1u8]),
        starts_with_at(data, pos + 1, opt_id_encoding(v.vote)),
        starts_with_at(data, pos + 1 + opt_id_encoding(v.vote).len(), opt_id_encoding(v.last)),
        starts_with_at(
            data,
            pos + 1 + opt_id_encoding(v.vote).len() + opt_id_encoding(v.last).len(),
            opt_id_encoding(v.committed),
        ),
        starts_with_at(
            data,
            pos + 1 + opt_id_encoding(v.vote).len() + opt_id_encoding(v.last).len() + opt_id_encoding(
                v.committed,
            ).len(),
            opt_id_encoding(v.purged),
        ),
        starts_with_at(
            data,
            pos + 1 + opt_id_encoding(v.vote).len() + opt_id_encoding(v.last).len() + opt_id_encoding(
                v.committed,
            ).len() + opt_id_encoding(v.purged).len(),
            opt_data_encoding::<T::UserData>(v.user_data),
        ),
{
    let a1 = opt_id_encoding(v.vote);
    let a2 = opt_id_encoding(v.last);
    let a3 = opt_id_encoding(v.committed);
    let a4 = opt_id_encoding(v.purged);
    let a5 = opt_data_encoding::<T::UserData>(v.user_data);
    lemma_starts_with_concat(data, pos, seq![1u8], a1 + (a2 + (a3 + (a4 + a5))));
    lemma_starts_with_concat(data, pos + 1, a1, a2 + (a3 + (a4 + a5)));
    lemma_starts_with_concat(data, pos + 1 + a1.len(), a2, a3 + (a4 + a5));
    lemma_starts_with_concat(data, pos + 1 + a1.len() + a2.len(), a3, a4 + a5);
    lemma_starts_with_concat(data, pos + 1 + a1.len() + a2.len() + a3.len(), a4, a5);
}

/// Bytes that are a state's encoding cut short, with at least one byte
/// left, hold whole fields up to one that is cut short.
pub proof fn lemma_state_cut_at<T: Types>(data: Seq<u8>, pos: int, v: RaftLogStateView<T>)
    requires
        cut_short_at(data, pos, state_encoding(v)),
        pos < data.len(),
    ensures
        ({
            let a1 = opt_id_encoding(v.vote);
            let a2 = opt_id_encoding(v.last);
            let a3 = opt_id_encoding(v.committed);
            let a4 = opt_id_encoding(v.purged);
            let a5 = opt_data_encoding::<T::UserData>(v.user_data);
            let q1 = pos + 1;
            let q2 = q1 + a1.len();
            let q3 = q2 + a2.len();
            let q4 = q3 + a3.len();
            let q5 = q4 + a4.len();
            ||| cut_short_at(data, q1, a1)
            ||| starts_with_at(data, q1, a1) && cut_short_at(data, q2, a2)
            ||| starts_with_at(data, q1, a1) && starts_with_at(data, q2, a2) && cut_short_at(data, q3, a3)
            ||| starts_with_at(data, q1, a1) && starts_with_at(data, q2, a2) && starts_with_at(data, q3, a3)
                && cut_short_at(data, q4, a4)
            ||| starts_with_at(data, q1, a1) && starts_with_at(data, q2, a2) && starts_with_at(data, q3, a3)
                && starts_with_at(data, q4, a4) && cut_short_at(data, q5, a5)
        }),
{
    let a1 = opt_id_encoding(v.vote);
    let a2 = opt_id_encoding(v.last);
    let a3 = opt_id_encoding(v.committed);
    let a4 = opt_id_encoding(v.purged);
    let a5 = opt_data_encoding::<T::UserData>(v.user_data);
    let q1 = pos + 1;
    let q2 = q1 + a1.len();
    let q3 = q2 + a2.len();
    let q4 = q3 + a3.len();
    let q5 = q4 + a4.len();
    lemma_cut_concat(data, pos, seq![1u8], a1 + (a2 + (a3 + (a4 + a5))));
    lemma_cut_concat(data, q1, a1, a2 + (a3 + (a4 + a5)));
    if starts_with_at(data, q1, a1) {
        lemma_cut_concat(data, q2, a2, a3 + (a4 + a5));
        if starts_with_at(data, q2, a2) {
            lemma_cut_concat(data, q3, a3, a4 + a5);
            if starts_with_at(data, q3, a3) {
                lemma_cut_concat(data, q4, a4, a5);
            }
        }
    }
}

/// The message for a raft log state whose version byte is `ver`, which this
/// code cannot read.
pub open spec fn version_message(ver: u8) -> Seq<char> {
    "Unsupported RaftLogState version: "@ + crate::num::decimal(ver as nat)
}

/// Decoding a state's fields from `q1` on runs out of bytes: some field
/// runs out, every field before it there whole.
pub open spec fn state_fields_run_out<T: Types>(data: Seq<u8>, q1: int) -> bool {
    let q2 = q1 + opt_id_len_at::<T::Vote>(data, q1);
    let q3 = q2 + opt_id_len_at::<T::LogId>(data, q2);
    let q4 = q3 + opt_id_len_at::<T::LogId>(data, q3);
    let q5 = q4 + opt_id_len_at::<T::LogId>(data, q4);
    ||| opt_id_runs_out::<T::Vote>(data, q1)
    ||| opt_id_at::<T::Vote>(data, q1) && opt_id_runs_out::<T::LogId>(data, q2)
    ||| opt_id_at::<T::Vote>(data, q1) && opt_id_at::<T::LogId>(data, q2) && opt_id_runs_out::<T::LogId>(data, q3)
    ||| opt_id_at::<T::Vote>(data, q1) && opt_id_at::<T::LogId>(data, q2) && opt_id_at::<T::LogId>(data, q3)
        && opt_id_runs_out::<T::LogId>(data, q4)
    ||| opt_id_at::<T::Vote>(data, q1) && opt_id_at::<T::LogId>(data, q2) && opt_id_at::<T::LogId>(data, q3)
        && opt_id_at::<T::LogId>(data, q4) && opt_data_runs_out::<T::UserData>(data, q5)
}

impl<T: Types> RaftLogState<T> {
    /// The message for a version this code cannot read.
    fn version_error(ver: u8) -> (r: DecodeError)
        ensures
            r.kind == DecodeErrorKind::InvalidData,
            r.message@ == version_message(ver),
    {
        let mut s = String::new();
        crate::text::push_str(&mut s, "Unsupported RaftLogState version: ");
        let d = crate::num::decimal_chars(ver as u64);
        crate::text::push_chars(&mut s, &d);
        DecodeError::invalid(s)
    }
}

impl<T: Types> DataValue for RaftLogState<T> {
    open spec fn encodable(v: RaftLogStateView<T>) -> bool {
        opt_data_encodable::<T::UserData>(v.user_data)
    }

    open spec fn encoding(v: RaftLogStateView<T>) -> Seq<u8> {
        state_encoding(v)
    }

    proof fn lemma_prefix_free(a: RaftLogStateView<T>, b: RaftLogStateView<T>, ra: Seq<u8>, rb: Seq<u8>) {
        let data = state_encoding(a) + ra;
        assert(data == state_encoding(b) + rb);
        assert(starts_with_at(data, 0, state_encoding(a))) by {
            assert(data.subrange(0, state_encoding(a).len() as int) =~= state_encoding(a));
        }
        assert(starts_with_at(data, 0, state_encoding(b))) by {
            assert(data.subrange(0, state_encoding(b).len() as int) =~= state_encoding(b));
        }
        lemma_state_fields_at::<T>(data, 0, a);
        lemma_state_fields_at::<T>(data, 0, b);
        let q1: int = 1;
        let q2: int = q1 + opt_id_encoding(a.vote).len();
        let q3: int = q2 + opt_id_encoding(a.last).len();
        let q4: int = q3 + opt_id_encoding(a.committed).len();
        let q5: int = q4 + opt_id_encoding(a.purged).len();
        lemma_opt_id_at(data, q1, a.vote, b.vote);
        lemma_opt_id_at(data, q2, a.last, b.last);
        lemma_opt_id_at(data, q3, a.committed, b.committed);
        lemma_opt_id_at(data, q4, a.purged, b.purged);
        lemma_opt_data_at::<T::UserData>(data, q5, a.user_data, b.user_data);
    }

    fn duplicate(&self) -> (r: Self) {
        RaftLogState::duplicate(self)
    }

    #[verifier::spinoff_prover]
    #[verifier::rlimit(60)]
    fn encode_data(&self, buf: &mut Vec<u8>) {
        buf.push(1u8);
        encode_opt_id(&self.vote, buf);
        encode_opt_id(&self.last, buf);
        encode_opt_id(&self.committed, buf);
        encode_opt_id(&self.purged, buf);
        encode_opt_data(&self.user_data, buf);
        assert(buf@ =~= old(buf)@ + state_encoding(self@));
    }

    /// A version byte `1` is missing, or a field after it runs out.
    open spec fn runs_out(data: Seq<u8>, pos: int) -> bool {
        pos >= data.len() || (data[pos] == 1 && state_fields_run_out::<T>(data, pos + 1))
    }

    #[verifier::spinoff_prover]
    #[verifier::rlimit(60)]
    fn decode_data(data: &[u8], pos: usize) -> (r: Result<(Self, usize), DecodeError>)
        ensures
            pos < data@.len() && data@[pos as int] != 1 ==> (r matches Err(e) && e.kind
                == DecodeErrorKind::InvalidData && e.message@ == version_message(data@[pos as int])),
    {
        if pos >= data.len() {
            return Err(eof_error());
        }
        let ver = data[pos];
        if ver != 1 {
            proof {
                assert forall|v: RaftLogStateView<T>| Self::encodable(v) implies
                    !starts_with_at(data@, pos as int, #[trigger] state_encoding(v)) by {
                    if starts_with_at(data@, pos as int, state_encoding(v)) {
                        lemma_state_fields_at::<T>(data@, pos as int, v);
                        assert(data@[pos as int] == data@.subrange(pos as int, pos + 1)[0]);
                    }
                }
            }
            proof {
                assert forall|v: RaftLogStateView<T>| Self::encodable(v) implies
                    !cut_short_at(data@, pos as int, #[trigger] state_encoding(v)) by {
                    if cut_short_at(data@, pos as int, state_encoding(v)) {
                        lemma_cut_first(data@, pos as int, state_encoding(v));
                    }
                }
            }
            return Err(Self::version_error(ver));
        }
        let p1 = pos + 1;
        let (vote, p2) = match decode_opt_id::<T::Vote>(data, p1) {
            Ok(x) => x,
            Err(e) => {
                proof {
                    assert forall|v: RaftLogStateView<T>| Self::encodable(v) implies
                        !starts_with_at(data@, pos as int, #[trigger] state_encoding(v)) by {
                        if starts_with_at(data@, pos as int, state_encoding(v)) {
                            lemma_state_fields_at::<T>(data@, pos as int, v);
                        }
                    }
                }
                proof {
                    assert forall|v: RaftLogStateView<T>| Self::encodable(v) && #[trigger] cut_short_at(
                        data@,
                        pos as int,
                        state_encoding(v),
                    ) implies e.kind == DecodeErrorKind::UnexpectedEof by {
                        lemma_state_cut_at::<T>(data@, pos as int, v);
                    }
                }
                proof {
                }
                return Err(e);
            },
        };
        let (last, p3) = match decode_opt_id::<T::LogId>(data, p2) {
            Ok(x) => x,
            Err(e) => {
                proof {
                    assert forall|v: RaftLogStateView<T>| Self::encodable(v) implies
                        !starts_with_at(data@, pos as int, #[trigger] state_encoding(v)) by {
                        if starts_with_at(data@, pos as int, state_encoding(v)) {
                            lemma_state_fields_at::<T>(data@, pos as int, v);
                            lemma_opt_id_at(data@, p1 as int, vote, v.vote);
                        }
                    }
                }
                proof {
                    assert forall|v: RaftLogStateView<T>| Self::encodable(v) && #[trigger] cut_short_at(
                        data@,
                        pos as int,
                        state_encoding(v),
                    ) implies e.kind == DecodeErrorKind::UnexpectedEof by {
                        lemma_state_cut_at::<T>(data@, pos as int, v);
                        lemma_opt_id_cut_not_full(data@, p1 as int, v.vote, vote);
                        if starts_with_at(data@, p1 as int, opt_id_encoding(v.vote)) {
                            lemma_opt_id_at(data@, p1 as int, vote, v.vote);
                        }
                    }
                }
                proof {
                    lemma_opt_id_found(data@, p1 as int, vote, p2 as int);
                }
                return Err(e);
            },
        };
        let (committed, p4) = match decode_opt_id::<T::LogId>(data, p3) {
            Ok(x) => x,
            Err(e) => {
                proof {
                    assert forall|v: RaftLogStateView<T>| Self::encodable(v) implies
                        !starts_with_at(data@, pos as int, #[trigger] state_encoding(v)) by {
                        if starts_with_at(data@, pos as int, state_encoding(v)) {
                            lemma_state_fields_at::<T>(data@, pos as int, v);
                            lemma_opt_id_at(data@, p1 as int, vote, v.vote);
                            lemma_opt_id_at(data@, p2 as int, last, v.last);
                        }
                    }
                }
                proof {
                    assert forall|v: RaftLogStateView<T>| Self::encodable(v) && #[trigger] cut_short_at(
                        data@,
                        pos as int,
                        state_encoding(v),
                    ) implies e.kind == DecodeErrorKind::UnexpectedEof by {
                        lemma_state_cut_at::<T>(data@, pos as int, v);
                        lemma_opt_id_cut_not_full(data@, p1 as int, v.vote, vote);
                        if starts_with_at(data@, p1 as int, opt_id_encoding(v.vote)) {
                            lemma_opt_id_at(data@, p1 as int, vote, v.vote);
                            lemma_opt_id_cut_not_full(data@, p2 as int, v.last, last);
                            if starts_with_at(data@, p2 as int, opt_id_encoding(v.last)) {
                                lemma_opt_id_at(data@, p2 as int, last, v.last);
                            }
                        }
                    }
                }
                proof {
                    lemma_opt_id_found(data@, p1 as int, vote, p2 as int);
                    lemma_opt_id_found(data@, p2 as int, last, p3 as int);
                }
                return Err(e);
            },
        };
        let (purged, p5) = match decode_opt_id::<T::LogId>(data, p4) {
            Ok(x) => x,
            Err(e) => {
                proof {
                    assert forall|v: RaftLogStateView<T>| Self::encodable(v) implies
                        !starts_with_at(data@, pos as int, #[trigger] state_encoding(v)) by {
                        if starts_with_at(data@, pos as int, state_encoding(v)) {
                            lemma_state_fields_at::<T>(data@, pos as int, v);
                            lemma_opt_id_at(data@, p1 as int, vote, v.vote);
                            lemma_opt_id_at(data@, p2 as int, last, v.last);
                            lemma_opt_id_at(data@, p3 as int, committed, v.committed);
                        }
                    }
                }
                proof {
                    assert forall|v: RaftLogStateView<T>| Self::encodable(v) && #[trigger] cut_short_at(
                        data@,
                        pos as int,
                        state_encoding(v),
                    ) implies e.kind == DecodeErrorKind::UnexpectedEof by {
                        lemma_state_cut_at::<T>(data@, pos as int, v);
                        lemma_opt_id_cut_not_full(data@, p1 as int, v.vote, vote);
                        if starts_with_at(data@, p1 as int, opt_id_encoding(v.vote)) {
                            lemma_opt_id_at(data@, p1 as int, vote, v.vote);
                            lemma_opt_id_cut_not_full(data@, p2 as int, v.last, last);
                            if starts_with_at(data@, p2 as int, opt_id_encoding(v.last)) {
                                lemma_opt_id_at(data@, p2 as int, last, v.last);
                                lemma_opt_id_cut_not_full(data@, p3 as int, v.committed, committed);
                                if starts_with_at(data@, p3 as int, opt_id_encoding(v.committed)) {
                                    lemma_opt_id_at(data@, p3 as int, committed, v.committed);
                                }
                            }
                        }
                    }
                }
                proof {
                    lemma_opt_id_found(data@, p1 as int, vote, p2 as int);
                    lemma_opt_id_found(data@, p2 as int, last, p3 as int);
                    lemma_opt_id_found(data@, p3 as int, committed, p4 as int);
                }
                return Err(e);
            },
        };
        let (user_data, p6) = match decode_opt_data::<T::UserData>(data, p5) {
            Ok(x) => x,
            Err(e) => {
                proof {
                    assert forall|v: RaftLogStateView<T>| Self::encodable(v) implies
                        !starts_with_at(data@, pos as int, #[trigger] state_encoding(v)) by {
                        if starts_with_at(data@, pos as int, state_encoding(v)) {
                            lemma_state_fields_at::<T>(data@, pos as int, v);
                            lemma_opt_id_at(data@, p1 as int, vote, v.vote);
                            lemma_opt_id_at(data@, p2 as int, last, v.last);
                            lemma_opt_id_at(data@, p3 as int, committed, v.committed);
                            lemma_opt_id_at(data@, p4 as int, purged, v.purged);
                        }
                    }
                }
                proof {
                    assert forall|v: RaftLogStateView<T>| Self::encodable(v) && #[trigger] cut_short_at(
                        data@,
                        pos as int,
                        state_encoding(v),
                    ) implies e.kind == DecodeErrorKind::UnexpectedEof by {
                        lemma_state_cut_at::<T>(data@, pos as int, v);
                        lemma_opt_id_cut_not_full(data@, p1 as int, v.vote, vote);
                        if starts_with_at(data@, p1 as int, opt_id_encoding(v.vote)) {
                            lemma_opt_id_at(data@, p1 as int, vote, v.vote);
                            lemma_opt_id_cut_not_full(data@, p2 as int, v.last, last);
                            if starts_with_at(data@, p2 as int, opt_id_encoding(v.last)) {
                                lemma_opt_id_at(data@, p2 as int, last, v.last);
                                lemma_opt_id_cut_not_full(data@, p3 as int, v.committed, committed);
                                if starts_with_at(data@, p3 as int, opt_id_encoding(v.committed)) {
                                    lemma_opt_id_at(data@, p3 as int, committed, v.committed);
                                    lemma_opt_id_cut_not_full(data@, p4 as int, v.purged, purged);
                                    if starts_with_at(data@, p4 as int, opt_id_encoding(v.purged)) {
                                        lemma_opt_id_at(data@, p4 as int, purged, v.purged);
                                    }
                                }
                            }
                        }
                    }
                }
                proof {
                    lemma_opt_id_found(data@, p1 as int, vote, p2 as int);
                    lemma_opt_id_found(data@, p2 as int, last, p3 as int);
                    lemma_opt_id_found(data@, p3 as int, committed, p4 as int);
                    lemma_opt_id_found(data@, p4 as int, purged, p5 as int);
                }
                return Err(e);
            },
        };
        let st = RaftLogState { vote, last, committed, purged, user_data };
        proof {
            assert(data@.subrange(pos as int, p1 as int) =~= seq![1u8]);
            lemma_subrange_join(data@, p5 as int, p5 as int, p6 as int);
            lemma_subrange_join(data@, p4 as int, p5 as int, p6 as int);
            lemma_subrange_join(data@, p3 as int, p4 as int, p6 as int);
            lemma_subrange_join(data@, p2 as int, p3 as int, p6 as int);
            lemma_subrange_join(data@, p1 as int, p2 as int, p6 as int);
            lemma_subrange_join(data@, pos as int, p1 as int, p6 as int);
            assert(data@.subrange(pos as int, p6 as int) =~= state_encoding(st@));
        }
        Ok((st, p6))
    }

    open spec fn data_debug(v: RaftLogStateView<T>) -> Seq<char> {
        state_debug::<T>(v)
    }

    fn write_data_debug(&self, out: &mut String) {
        let mut s = String::new();
        crate::text::push_str(&mut s, "RaftLogState { vote: ");
        assert(s@ =~= "RaftLogState { vote: "@);
        crate::errors::write_opt_id_debug(&self.vote, &mut s);
        crate::text::push_str(&mut s, ", last: ");
        crate::errors::write_opt_id_debug(&self.last, &mut s);
        crate::text::push_str(&mut s, ", committed: ");
        crate::errors::write_opt_id_debug(&self.committed, &mut s);
        crate::text::push_str(&mut s, ", purged: ");
        crate::errors::write_opt_id_debug(&self.purged, &mut s);
        crate::text::push_str(&mut s, ", user_data: ");
        write_opt_data_debug(&self.user_data, &mut s);
        crate::text::push_str(&mut s, " }");
        assert(s@ == state_debug::<T>(self@));
        crate::text::push_str(out, s.as_str());
    }
}

/// `{:?}` of optional data.
pub open spec fn opt_data_debug<D: DataValue>(v: Option<D::V>) -> Seq<char> {
    match v {
        Some(d) => "Some("@ + D::data_debug(d) + ")"@,
        None => "None"@,
    }
}

pub fn write_opt_data_debug<D: DataValue>(v: &Option<D>, out: &mut String)
    ensures
        final(out)@ == old(out)@ + opt_data_debug::<D>(opt_view(*v)),
{
    match v {
        Some(d) => {
            crate::text::push_str(out, "Some(");
            d.write_data_debug(out);
            crate::text::push_str(out, ")");
        },
        None => {
            crate::text::push_str(out, "None");
        },
    }
    assert(out@ =~= old(out)@ + opt_data_debug::<D>(opt_view(*v)));
}

/// `{:?}` of a raft log state.
pub open spec fn state_debug<T: Types>(v: RaftLogStateView<T>) -> Seq<char> {
    "RaftLogState { vote: "@ + crate::errors::opt_id_debug(v.vote) + ", last: "@
        + crate::errors::opt_id_debug(v.last) + ", committed: "@ + crate::errors::opt_id_debug(
        v.committed,
    ) + ", purged: "@ + crate::errors::opt_id_debug(v.purged) + ", user_data: "@ + opt_data_debug::<
        T::UserData,
    >(v.user_data) + " }"@
}

} // verus!

verus! {

/// What a [`RaftLogAction`] holds, with the payload taken by its view.
pub enum RaftLogActionView<T: Types> {
    SaveVote(T::Vote),
    Append(T::LogId, <T::LogPayload as View>::V),
    Commit(T::LogId),
    TruncateAfter(Option<T::LogId>),
    PurgeUpto(T::LogId),
}

impl<T: Types> View for RaftLogAction<T> {
    type V = RaftLogActionView<T>;

    open spec fn view(&self) -> RaftLogActionView<T> {
        match *self {
            RaftLogAction::SaveVote(v) => RaftLogActionView::SaveVote(v),
            RaftLogAction::Append(l, p) => RaftLogActionView::Append(l, p@),
            RaftLogAction::Commit(l) => RaftLogActionView::Commit(l),
            RaftLogAction::TruncateAfter(o) => RaftLogActionView::TruncateAfter(o),
            RaftLogAction::PurgeUpto(l) => RaftLogActionView::PurgeUpto(l),
        }
    }
}

/// The record type of an action.
pub open spec fn action_type<T: Types>(a: RaftLogActionView<T>) -> u32 {
    match a {
        RaftLogActionView::SaveVote(_) => 0,
        RaftLogActionView::Append(_, _) => 1,
        RaftLogActionView::Commit(_) => 2,
        RaftLogActionView::TruncateAfter(_) => 3,
        RaftLogActionView::PurgeUpto(_) => 4,
    }
}

/// The bytes of an action after its record type.
pub open spec fn action_payload<T: Types>(a: RaftLogActionView<T>) -> Seq<u8> {
    match a {
        RaftLogActionView::SaveVote(v) => v.id_encoding(),
        RaftLogActionView::Append(l, p) => l.id_encoding() + T::LogPayload::encoding(p),
        RaftLogActionView::Commit(l) => l.id_encoding(),
        RaftLogActionView::TruncateAfter(o) => opt_id_encoding(o),
        RaftLogActionView::PurgeUpto(l) => l.id_encoding(),
    }
}

pub open spec fn action_encodable<T: Types>(a: RaftLogActionView<T>) -> bool {
    match a {
        RaftLogActionView::Append(_, p) => T::LogPayload::encodable(p),
        _ => true,
    }
}

/// A framed record: `body` followed by the 8-byte checksum of `body`.
pub open spec fn framed(body: Seq<u8>) -> Seq<u8> {
    body + be_u64(crc32_checksum(body))
}

/// The encoding of an action: type, payload and checksum.
pub open spec fn action_encoding<T: Types>(a: RaftLogActionView<T>) -> Seq<u8> {
    framed(be_u32(action_type(a)) + action_payload(a))
}

/// An id whose encoding starts at `pos` in two ways is one id.
pub proof fn lemma_id_at<K: OrderedId>(data: Seq<u8>, pos: int, a: K, b: K)
    requires
        starts_with_at(data, pos, a.id_encoding()),
        starts_with_at(data, pos, b.id_encoding()),
    ensures
        a == b,
{
    lemma_starts_with_split(data, pos, a.id_encoding());
    lemma_starts_with_split(data, pos, b.id_encoding());
    K::lemma_id_prefix_free(
        a,
        b,
        data.subrange(pos + a.id_encoding().len(), data.len() as int),
        data.subrange(pos + b.id_encoding().len(), data.len() as int),
    );
}

/// Two data values whose encodings both start at `pos` are the same.
pub proof fn lemma_data_at<D: DataValue>(data: Seq<u8>, pos: int, a: D::V, b: D::V)
    requires
        D::encodable(a),
        D::encodable(b),
        starts_with_at(data, pos, D::encoding(a)),
        starts_with_at(data, pos, D::encoding(b)),
    ensures
        a == b,
{
    lemma_starts_with_split(data, pos, D::encoding(a));
    lemma_starts_with_split(data, pos, D::encoding(b));
    D::lemma_prefix_free(
        a,
        b,
        data.subrange(pos + D::encoding(a).len(), data.len() as int),
        data.subrange(pos + D::encoding(b).len(), data.len() as int),
    );
}

/// An action's encoding starting at `pos` puts type, payload and checksum at
/// their places.
pub proof fn lemma_action_fields_at<T: Types>(data: Seq<u8>, pos: int, a: RaftLogActionView<T>)
    requires
        starts_with_at(data, pos, action_encoding(a)),
    ensures
        starts_with_at(data, pos, be_u32(action_type(a))),
        starts_with_at(data, pos + 4, action_payload(a)),
        starts_with_at(data, pos, be_u32(action_type(a)) + action_payload(a)),
        starts_with_at(
            data,
            pos + 4 + action_payload(a).len(),
            be_u64(crc32_checksum(be_u32(action_type(a)) + action_payload(a))),
        ),
        a matches RaftLogActionView::Append(l, p) ==> starts_with_at(data, pos + 4, l.id_encoding())
            && starts_with_at(data, pos + 4 + l.id_encoding().len(), T::LogPayload::encoding(p)),
        a matches RaftLogActionView::TruncateAfter(o) ==> starts_with_at(data, pos + 4, opt_id_encoding(o)),
{
    let body = be_u32(action_type(a)) + action_payload(a);
    crate::bytes::lemma_be_u32_roundtrip(action_type(a));
    lemma_starts_with_concat(data, pos, body, be_u64(crc32_checksum(body)));
    lemma_starts_with_concat(data, pos, be_u32(action_type(a)), action_payload(a));
    if let RaftLogActionView::Append(l, p) = a {
        lemma_starts_with_concat(data, pos + 4, l.id_encoding(), T::LogPayload::encoding(p));
    }
}

/// The message for record type `t`, which no action has.
pub open spec fn unknown_type_message(t: u32) -> Seq<char> {
    "Unknown record type: "@ + crate::num::decimal(t as nat)
}

/// The message for a record type no action has.
fn unknown_type_error(t: u32) -> (r: DecodeError)
    ensures
        r.kind == DecodeErrorKind::InvalidData,
        r.message@ == unknown_type_message(t),
{
    let mut s = String::new();
    crate::text::push_str(&mut s, "Unknown record type: ");
    let d = crate::num::decimal_chars(t as u64);
    crate::text::push_chars(&mut s, &d);
    DecodeError::invalid(s)
}

/// The message of a checksum that does not match the bytes it covers:
/// `expected` is the checksum of the bytes, `got` the one stored.
pub open spec fn checksum_message(expected: u64, got: u64) -> Seq<char> {
    "crc32 checksum mismatch: expected "@ + crate::num::hex(expected as nat) + ", got "@ + crate::num::hex(
        got as nat,
    ) + ", while Record::decode()"@
}

/// The error for a checksum that does not match the bytes it covers.
pub fn checksum_error(expected: u64, got: u64) -> (r: DecodeError)
    ensures
        r.kind == DecodeErrorKind::InvalidData,
        r.message@ == checksum_message(expected, got),
{
    let mut s = String::new();
    crate::text::push_str(&mut s, "crc32 checksum mismatch: expected ");
    let a = crate::num::hex_chars(expected);
    crate::text::push_chars(&mut s, &a);
    crate::text::push_str(&mut s, ", got ");
    let b = crate::num::hex_chars(got);
    crate::text::push_chars(&mut s, &b);
    crate::text::push_str(&mut s, ", while Record::decode()");
    DecodeError::invalid(s)
}

/// The payload of an encodable action of record type `t` starts at `p`.
pub open spec fn payload_at<T: Types>(data: Seq<u8>, p: int, t: u32) -> bool {
    exists|a: RaftLogActionView<T>|
        #![trigger action_payload(a)]
        action_encodable(a) && action_type(a) == t && starts_with_at(data, p, action_payload(a))
}

/// The length of the payload of type `t` that starts at `p`.
pub open spec fn payload_len_at<T: Types>(data: Seq<u8>, p: int, t: u32) -> int {
    action_payload(
        choose|a: RaftLogActionView<T>|
            action_encodable(a) && action_type(a) == t && starts_with_at(data, p, action_payload(a)),
    ).len() as int
}

/// Decoding the payload of an action of record type `t` at `p` runs out of
/// bytes: an id it reads is not there whole, or the entry's payload runs
/// out after a whole log id.
pub open spec fn payload_runs_out<T: Types>(data: Seq<u8>, p: int, t: u32) -> bool {
    if t == 0 {
        !id_at::<T::Vote>(data, p)
    } else if t == 1 {
        !id_at::<T::LogId>(data, p) || (!data_at::<T::LogPayload>(data, p + id_len_at::<T::LogId>(data, p))
            && T::LogPayload::runs_out(data, p + id_len_at::<T::LogId>(data, p)))
    } else if t == 2 || t == 4 {
        !id_at::<T::LogId>(data, p)
    } else if t == 3 {
        opt_id_runs_out::<T::LogId>(data, p)
    } else {
        false
    }
}

/// Decoding an action at `pos` runs out of bytes: its record type, its
/// payload or its checksum is not there whole.
pub open spec fn action_runs_out<T: Types>(data: Seq<u8>, pos: int) -> bool {
    data.len() - pos < 4 || {
        let t = read_be_u32(data.subrange(pos, pos + 4));
        let p = pos + 4;
        ||| !payload_at::<T>(data, p, t) && payload_runs_out::<T>(data, p, t)
        ||| payload_at::<T>(data, p, t) && data.len() - (p + payload_len_at::<T>(data, p, t)) < 8
    }
}

/// Two encodable payloads of one record type that both start at `p` are
/// one payload.
pub proof fn lemma_payload_unique<T: Types>(data: Seq<u8>, p: int, a: RaftLogActionView<T>, b: RaftLogActionView<T>)
    requires
        action_encodable(a),
        action_encodable(b),
        action_type(a) == action_type(b),
        starts_with_at(data, p, action_payload(a)),
        starts_with_at(data, p, action_payload(b)),
    ensures
        a == b,
{
    match (a, b) {
        (RaftLogActionView::SaveVote(x), RaftLogActionView::SaveVote(y)) => {
            lemma_id_at(data, p, x, y);
        },
        (RaftLogActionView::Append(x, u), RaftLogActionView::Append(y, w)) => {
            lemma_starts_with_concat(data, p, x.id_encoding(), T::LogPayload::encoding(u));
            lemma_starts_with_concat(data, p, y.id_encoding(), T::LogPayload::encoding(w));
            lemma_id_at(data, p, x, y);
            lemma_data_at::<T::LogPayload>(data, p + x.id_encoding().len(), u, w);
        },
        (RaftLogActionView::Commit(x), RaftLogActionView::Commit(y)) => {
            lemma_id_at(data, p, x, y);
        },
        (RaftLogActionView::TruncateAfter(x), RaftLogActionView::TruncateAfter(y)) => {
            lemma_opt_id_at(data, p, x, y);
        },
        (RaftLogActionView::PurgeUpto(x), RaftLogActionView::PurgeUpto(y)) => {
            lemma_id_at(data, p, x, y);
        },
        _ => {},
    }
}

/// A payload decoded at `p` is the one of its type that starts there.
pub proof fn lemma_payload_found<T: Types>(data: Seq<u8>, p: int, t: u32, a: RaftLogActionView<T>, end: int)
    requires
        action_encodable(a),
        action_type(a) == t,
        0 <= p <= end <= data.len(),
        data.subrange(p, end) == action_payload(a),
    ensures
        payload_at::<T>(data, p, t),
        payload_len_at::<T>(data, p, t) == end - p,
{
    assert(starts_with_at(data, p, action_payload(a)));
    let w = choose|w: RaftLogActionView<T>|
        action_encodable(w) && action_type(w) == t && starts_with_at(data, p, action_payload(w));
    lemma_payload_unique::<T>(data, p, a, w);
}

/// Decode the payload of an action of record type `t`, starting at `p`.
fn decode_action_payload<T: Types>(data: &[u8], p: usize, t: u32) -> (r: Result<(RaftLogAction<T>, usize), DecodeError>)
    requires
        p <= data@.len(),
    ensures
        r matches Ok((a, e)) ==> p <= e <= data@.len() && action_type(a@) == t && action_encodable(a@)
            && data@.subrange(p as int, e as int) == action_payload(a@),
        t >= 5 ==> (r matches Err(e) && e.kind == DecodeErrorKind::InvalidData && e.message@
            == unknown_type_message(t)),
        forall|a: RaftLogActionView<T>|
            #![trigger action_payload(a)]
            action_encodable(a) && action_type(a) == t && starts_with_at(data@, p as int, action_payload(a))
                ==> r is Ok,
        forall|a: RaftLogActionView<T>|
            #![trigger action_payload(a)]
            action_encodable(a) && action_type(a) == t && cut_short_at(data@, p as int, action_payload(a)) && r is Err
                ==> r->Err_0.kind == DecodeErrorKind::UnexpectedEof,
        r is Err ==> (r->Err_0.kind == DecodeErrorKind::UnexpectedEof <==> payload_runs_out::<T>(data@, p as int, t)),
{
    if t == 0 {
        match T::Vote::decode_id(data, p) {
            Ok((v, e)) => Ok((RaftLogAction::SaveVote(v), e)),
            Err(e) => Err(e),
        }
    } else if t == 1 {
        match T::LogId::decode_id(data, p) {
            Ok((l, e1)) => {
                match T::LogPayload::decode_data(data, e1) {
                    Ok((pl, e2)) => {
                        proof {
                            lemma_subrange_join(data@, p as int, e1 as int, e2 as int);
                        }
                        Ok((RaftLogAction::Append(l, pl), e2))
                    },
                    Err(e) => {
                        proof {
                            assert forall|a: RaftLogActionView<T>| action_encodable(a) && action_type(a) == t
                                implies !starts_with_at(data@, p as int, #[trigger] action_payload(a)) by {
                                if let RaftLogActionView::Append(l2, p2) = a {
                                    if starts_with_at(data@, p as int, action_payload(a)) {
                                        lemma_starts_with_concat(data@, p as int, l2.id_encoding(), T::LogPayload::encoding(p2));
                                        lemma_id_at(data@, p as int, l, l2);
                                    }
                                }
                            }
                            assert forall|a: RaftLogActionView<T>| action_encodable(a) && action_type(a) == t
                                && #[trigger] cut_short_at(data@, p as int, action_payload(a)) implies e.kind
                                == DecodeErrorKind::UnexpectedEof by {
                                lemma_id_found(data@, p as int, l, e1 as int);
                                if let RaftLogActionView::Append(l2, p2) = a {
                                    lemma_cut_concat(data@, p as int, l2.id_encoding(), T::LogPayload::encoding(p2));
                                    lemma_id_cut_not_full(data@, p as int, l2, l);
                                    if starts_with_at(data@, p as int, l2.id_encoding()) {
                                        lemma_id_at(data@, p as int, l, l2);
                                    }
                                }
                            }
                            lemma_id_found(data@, p as int, l, e1 as int);
                        }
                        Err(e)
                    },
                }
            },
            Err(e) => {
                proof {
                    assert forall|a: RaftLogActionView<T>| action_encodable(a) && action_type(a) == t
                        implies !starts_with_at(data@, p as int, #[trigger] action_payload(a)) by {
                        if let RaftLogActionView::Append(l2, p2) = a {
                            if starts_with_at(data@, p as int, action_payload(a)) {
                                lemma_starts_with_concat(data@, p as int, l2.id_encoding(), T::LogPayload::encoding(p2));
                            }
                        }
                    }
                }
                Err(e)
            },
        }
    } else if t == 2 {
        match T::LogId::decode_id(data, p) {
            Ok((l, e)) => Ok((RaftLogAction::Commit(l), e)),
            Err(e) => Err(e),
        }
    } else if t == 3 {
        match decode_opt_id::<T::LogId>(data, p) {
            Ok((o, e)) => Ok((RaftLogAction::TruncateAfter(o), e)),
            Err(e) => {
                proof {
                    assert forall|a: RaftLogActionView<T>| action_encodable(a) && action_type(a) == t
                        && #[trigger] cut_short_at(data@, p as int, action_payload(a)) implies e.kind
                        == DecodeErrorKind::UnexpectedEof by {
                        if let RaftLogActionView::TruncateAfter(o2) = a {
                            assert(cut_short_at(data@, p as int, opt_id_encoding(o2)));
                        }
                    }
                }
                Err(e)
            },
        }
    } else if t == 4 {
        match T::LogId::decode_id(data, p) {
            Ok((l, e)) => Ok((RaftLogAction::PurgeUpto(l), e)),
            Err(e) => Err(e),
        }
    } else {
        Err(unknown_type_error(t))
    }
}

impl<T: Types> DataValue for RaftLogAction<T> {
    open spec fn encodable(v: RaftLogActionView<T>) -> bool {
        action_encodable(v)
    }

    open spec fn encoding(v: RaftLogActionView<T>) -> Seq<u8> {
        action_encoding(v)
    }

    proof fn lemma_prefix_free(a: RaftLogActionView<T>, b: RaftLogActionView<T>, ra: Seq<u8>, rb: Seq<u8>) {
        let data = action_encoding(a) + ra;
        assert(data == action_encoding(b) + rb);
        assert(starts_with_at(data, 0, action_encoding(a))) by {
            assert(data.subrange(0, action_encoding(a).len() as int) =~= action_encoding(a));
        }
        assert(starts_with_at(data, 0, action_encoding(b))) by {
            assert(data.subrange(0, action_encoding(b).len() as int) =~= action_encoding(b));
        }
        lemma_action_fields_at::<T>(data, 0, a);
        lemma_action_fields_at::<T>(data, 0, b);
        crate::bytes::lemma_be_u32_roundtrip(action_type(a));
        crate::bytes::lemma_be_u32_roundtrip(action_type(b));
        assert(action_type(a) == action_type(b));
        match (a, b) {
            (RaftLogActionView::SaveVote(x), RaftLogActionView::SaveVote(y)) => {
                lemma_id_at(data, 4, x, y);
            },
            (RaftLogActionView::Append(x, p), RaftLogActionView::Append(y, q)) => {
                lemma_id_at(data, 4, x, y);
                lemma_data_at::<T::LogPayload>(data, 4 + x.id_encoding().len() as int, p, q);
            },
            (RaftLogActionView::Commit(x), RaftLogActionView::Commit(y)) => {
                lemma_id_at(data, 4, x, y);
            },
            (RaftLogActionView::TruncateAfter(x), RaftLogActionView::TruncateAfter(y)) => {
                lemma_opt_id_at(data, 4, x, y);
            },
            (RaftLogActionView::PurgeUpto(x), RaftLogActionView::PurgeUpto(y)) => {
                lemma_id_at(data, 4, x, y);
            },
            _ => {},
        }
    }

    fn duplicate(&self) -> (r: Self) {
        match self {
            RaftLogAction::SaveVote(v) => RaftLogAction::SaveVote(v.copy_id()),
            RaftLogAction::Append(l, p) => RaftLogAction::Append(l.copy_id(), p.duplicate()),
            RaftLogAction::Commit(l) => RaftLogAction::Commit(l.copy_id()),
            RaftLogAction::TruncateAfter(o) => RaftLogAction::TruncateAfter(crate::raft_log_state::copy_opt_id(o)),
            RaftLogAction::PurgeUpto(l) => RaftLogAction::PurgeUpto(l.copy_id()),
        }
    }

    fn encode_data(&self, buf: &mut Vec<u8>) {
        let start = buf.len();
        crate::bytes::push_be_u32(buf, self.record_type());
        match self {
            RaftLogAction::SaveVote(v) => v.encode_id(buf),
            RaftLogAction::Append(l, p) => {
                l.encode_id(buf);
                p.encode_data(buf);
            },
            RaftLogAction::Commit(l) => l.encode_id(buf),
            RaftLogAction::TruncateAfter(o) => encode_opt_id(o, buf),
            RaftLogAction::PurgeUpto(l) => l.encode_id(buf),
        }
        let ghost body = be_u32(action_type(self@)) + action_payload(self@);
        assert(buf@ =~= old(buf)@ + body);
        let end = buf.len();
        let crc = crate::bytes::checksum(vstd::slice::slice_subrange(buf.as_slice(), start, end));
        assert(buf@.subrange(start as int, end as int) =~= body);
        crate::bytes::push_be_u64(buf, crc);
        assert(buf@ =~= old(buf)@ + action_encoding(self@));
    }

    open spec fn runs_out(data: Seq<u8>, pos: int) -> bool {
        action_runs_out::<T>(data, pos)
    }

    #[verifier::rlimit(40)]
    fn decode_data(data: &[u8], pos: usize) -> (r: Result<(Self, usize), DecodeError>)
        ensures
            data@.len() - pos >= 4 && read_be_u32(data@.subrange(pos as int, pos + 4)) >= 5 ==> (r matches Err(e)
                && e.kind == DecodeErrorKind::InvalidData && e.message@ == unknown_type_message(
                read_be_u32(data@.subrange(pos as int, pos + 4)),
            )),
    {
        let total = data.len();
        if total - pos < 4 {
            proof {
                assert forall|a: RaftLogActionView<T>| action_encodable(a) implies
                    !starts_with_at(data@, pos as int, #[trigger] action_encoding(a)) by {
                    if starts_with_at(data@, pos as int, action_encoding(a)) {
                        lemma_action_fields_at::<T>(data@, pos as int, a);
                    }
                }
            }
            return Err(eof_error());
        }
        let t = crate::bytes::get_be_u32(data, pos);
        let p = pos + 4;
        let (action, end) = match decode_action_payload::<T>(data, p, t) {
            Ok(x) => x,
            Err(e) => {
                proof {
                    assert forall|a: RaftLogActionView<T>| action_encodable(a) implies
                        !starts_with_at(data@, pos as int, #[trigger] action_encoding(a)) by {
                        if starts_with_at(data@, pos as int, action_encoding(a)) {
                            lemma_action_fields_at::<T>(data@, pos as int, a);
                            crate::bytes::lemma_be_u32_roundtrip(action_type(a));
                            assert(action_payload(a) == action_payload(a));
                        }
                    }
                    assert forall|a: RaftLogActionView<T>| action_encodable(a) && #[trigger] cut_short_at(
                        data@,
                        pos as int,
                        action_encoding(a),
                    ) implies e.kind == DecodeErrorKind::UnexpectedEof by {
                        lemma_action_cut_at::<T>(data@, pos as int, a);
                        crate::bytes::lemma_be_u32_roundtrip(action_type(a));
                        if starts_with_at(data@, pos as int, be_u32(action_type(a)) + action_payload(a)) {
                            lemma_starts_with_concat(data@, pos as int, be_u32(action_type(a)), action_payload(a));
                        }
                    }
                }
                return Err(e);
            },
        };
        proof {
            crate::bytes::lemma_read_be_u32_roundtrip(data@.subrange(pos as int, p as int));
            lemma_subrange_join(data@, pos as int, p as int, end as int);
        }
        let ghost body = data@.subrange(pos as int, end as int);
        assert(body == be_u32(action_type(action@)) + action_payload(action@));
        proof {
            lemma_payload_found::<T>(data@, p as int, t, action@, end as int);
        }
        if total - end < 8 {
            proof {
                assert forall|a: RaftLogActionView<T>| action_encodable(a) implies
                    !starts_with_at(data@, pos as int, #[trigger] action_encoding(a)) by {
                    if starts_with_at(data@, pos as int, action_encoding(a)) {
                        lemma_action_fields_at::<T>(data@, pos as int, a);
                        assert(starts_with_at(data@, pos as int, body));
                        lemma_action_body_unique::<T>(data@, pos as int, action@, a);
                    }
                }
            }
            return Err(eof_error());
        }
        let got = crate::bytes::get_be_u64(data, end);
        let expected = crate::bytes::checksum(vstd::slice::slice_subrange(data, pos, end));
        if expected != got {
            proof {
                assert forall|a: RaftLogActionView<T>| action_encodable(a) implies
                    !starts_with_at(data@, pos as int, #[trigger] action_encoding(a)) by {
                    if starts_with_at(data@, pos as int, action_encoding(a)) {
                        lemma_action_fields_at::<T>(data@, pos as int, a);
                        assert(starts_with_at(data@, pos as int, body));
                        lemma_action_body_unique::<T>(data@, pos as int, action@, a);
                        crate::bytes::lemma_be_u64_roundtrip(crc32_checksum(body));
                    }
                }
                assert forall|a: RaftLogActionView<T>| action_encodable(a) implies
                    !cut_short_at(data@, pos as int, #[trigger] action_encoding(a)) by {
                    if cut_short_at(data@, pos as int, action_encoding(a)) {
                        lemma_action_cut_at::<T>(data@, pos as int, a);
                        assert(starts_with_at(data@, pos as int, body));
                        lemma_action_body_cut_not_full::<T>(data@, pos as int, a, action@);
                        if starts_with_at(data@, pos as int, be_u32(action_type(a)) + action_payload(a)) {
                            lemma_action_body_unique::<T>(data@, pos as int, action@, a);
                        }
                    }
                }
            }
            return Err(checksum_error(expected, got));
        }
        proof {
            crate::bytes::lemma_read_be_u64_roundtrip(data@.subrange(end as int, end + 8));
            lemma_subrange_join(data@, pos as int, end as int, end + 8);
        }
        Ok((action, end + 8))
    }

    open spec fn data_debug(v: RaftLogActionView<T>) -> Seq<char> {
        action_debug::<T>(v)
    }

    fn write_data_debug(&self, out: &mut String) {
        match self {
            RaftLogAction::SaveVote(v) => {
                crate::text::push_str(out, "SaveVote(");
                v.write_id_debug(out);
            },
            RaftLogAction::Append(l, p) => {
                crate::text::push_str(out, "Append(");
                l.write_id_debug(out);
                crate::text::push_str(out, ", ");
                p.write_data_debug(out);
            },
            RaftLogAction::Commit(l) => {
                crate::text::push_str(out, "Commit(");
                l.write_id_debug(out);
            },
            RaftLogAction::TruncateAfter(o) => {
                crate::text::push_str(out, "TruncateAfter(");
                crate::errors::write_opt_id_debug(o, out);
            },
            RaftLogAction::PurgeUpto(l) => {
                crate::text::push_str(out, "PurgeUpto(");
                l.write_id_debug(out);
            },
        }
        crate::text::push_str(out, ")");
        assert(out@ =~= old(out)@ + action_debug::<T>(self@));
    }
}

/// Bytes that are an action's encoding cut short, with its 4-byte type
/// there, hold that type, then either the type and payload cut short, or
/// both whole and the checksum cut short.
pub proof fn lemma_action_cut_at<T: Types>(data: Seq<u8>, pos: int, a: RaftLogActionView<T>)
    requires
        cut_short_at(data, pos, action_encoding(a)),
        pos + 4 <= data.len(),
    ensures
        data.subrange(pos, pos + 4) == be_u32(action_type(a)),
        (cut_short_at(data, pos, be_u32(action_type(a)) + action_payload(a)) && cut_short_at(
            data,
            pos + 4,
            action_payload(a),
        )) || (starts_with_at(data, pos, be_u32(action_type(a)) + action_payload(a)) && cut_short_at(
            data,
            pos + 4 + action_payload(a).len(),
            be_u64(crc32_checksum(be_u32(action_type(a)) + action_payload(a))),
        )),
{
    let body = be_u32(action_type(a)) + action_payload(a);
    crate::bytes::lemma_be_u32_roundtrip(action_type(a));
    lemma_cut_concat(data, pos, body, be_u64(crc32_checksum(body)));
    if starts_with_at(data, pos, body) {
        lemma_starts_with_concat(data, pos, be_u32(action_type(a)), action_payload(a));
    } else {
        lemma_cut_concat(data, pos, be_u32(action_type(a)), action_payload(a));
    }
}

/// No action's type and payload are whole where another's are cut short.
pub proof fn lemma_action_body_cut_not_full<T: Types>(
    data: Seq<u8>,
    pos: int,
    a: RaftLogActionView<T>,
    w: RaftLogActionView<T>,
)
    requires
        action_encodable(a),
        action_encodable(w),
    ensures
        !(cut_short_at(data, pos, be_u32(action_type(a)) + action_payload(a)) && starts_with_at(
            data,
            pos,
            be_u32(action_type(w)) + action_payload(w),
        )),
{
    let ba = be_u32(action_type(a)) + action_payload(a);
    let bw = be_u32(action_type(w)) + action_payload(w);
    if cut_short_at(data, pos, ba) && starts_with_at(data, pos, bw) {
        lemma_cut_then_full(data, pos, ba, bw);
        assert(ba.subrange(0, ba.len() as int) =~= ba);
        assert(ba.subrange(0, bw.len() as int) =~= bw) by {
            assert(ba + Seq::<u8>::empty() =~= ba);
            assert((bw + ba.subrange(bw.len() as int, ba.len() as int)).subrange(0, bw.len() as int) =~= bw);
        }
        lemma_action_body_unique::<T>(ba, 0, a, w);
    }
}

/// Two encodable actions whose type and payload both start at `pos` are the
/// same action.
pub proof fn lemma_action_body_unique<T: Types>(data: Seq<u8>, pos: int, a: RaftLogActionView<T>, b: RaftLogActionView<T>)
    requires
        action_encodable(a),
        action_encodable(b),
        starts_with_at(data, pos, be_u32(action_type(a)) + action_payload(a)),
        starts_with_at(data, pos, be_u32(action_type(b)) + action_payload(b)),
    ensures
        a == b,
{
    lemma_starts_with_concat(data, pos, be_u32(action_type(a)), action_payload(a));
    lemma_starts_with_concat(data, pos, be_u32(action_type(b)), action_payload(b));
    crate::bytes::lemma_be_u32_roundtrip(action_type(a));
    crate::bytes::lemma_be_u32_roundtrip(action_type(b));
    assert(be_u32(action_type(a)) == data.subrange(pos, pos + 4));
    assert(be_u32(action_type(b)) == data.subrange(pos, pos + 4));
    assert(action_type(a) == action_type(b));
    match (a, b) {
        (RaftLogActionView::SaveVote(x), RaftLogActionView::SaveVote(y)) => {
            lemma_id_at(data, pos + 4, x, y);
        },
        (RaftLogActionView::Append(x, p), RaftLogActionView::Append(y, q)) => {
            lemma_starts_with_concat(data, pos + 4, x.id_encoding(), T::LogPayload::encoding(p));
            lemma_starts_with_concat(data, pos + 4, y.id_encoding(), T::LogPayload::encoding(q));
            lemma_id_at(data, pos + 4, x, y);
            lemma_data_at::<T::LogPayload>(data, pos + 4 + x.id_encoding().len(), p, q);
        },
        (RaftLogActionView::Commit(x), RaftLogActionView::Commit(y)) => {
            lemma_id_at(data, pos + 4, x, y);
        },
        (RaftLogActionView::TruncateAfter(x), RaftLogActionView::TruncateAfter(y)) => {
            lemma_opt_id_at(data, pos + 4, x, y);
        },
        (RaftLogActionView::PurgeUpto(x), RaftLogActionView::PurgeUpto(y)) => {
            lemma_id_at(data, pos + 4, x, y);
        },
        _ => {},
    }
}

/// `{:?}` of an action.
pub open spec fn action_debug<T: Types>(a: RaftLogActionView<T>) -> Seq<char> {
    match a {
        RaftLogActionView::SaveVote(v) => "SaveVote("@ + v.id_debug() + ")"@,
        RaftLogActionView::Append(l, p) => "Append("@ + l.id_debug() + ", "@ + T::LogPayload::data_debug(p) + ")"@,
        RaftLogActionView::Commit(l) => "Commit("@ + l.id_debug() + ")"@,
        RaftLogActionView::TruncateAfter(o) => "TruncateAfter("@ + crate::errors::opt_id_debug(o) + ")"@,
        RaftLogActionView::PurgeUpto(l) => "PurgeUpto("@ + l.id_debug() + ")"@,
    }
}

} // verus!

verus! {

/// What a [`WALRecord`] holds, taken by views.
pub enum WALRecordView<W: WalTypes> {
    Action(<W::Action as View>::V),
    Checkpoint(<W::Checkpoint as View>::V),
}

impl<W: WalTypes> View for WALRecord<W> {
    type V = WALRecordView<W>;

    open spec fn view(&self) -> WALRecordView<W> {
        match *self {
            WALRecord::Action(a) => WALRecordView::Action(a@),
            WALRecord::Checkpoint(c) => WALRecordView::Checkpoint(c@),
        }
    }
}

/// The encoding of a record. An action writes itself, and must begin with a
/// record type other than the checkpoint's; a checkpoint is framed with the
/// checkpoint record type and a checksum.
pub open spec fn record_encoding<W: WalTypes>(r: WALRecordView<W>) -> Seq<u8> {
    match r {
        WALRecordView::Action(a) => W::Action::encoding(a),
        WALRecordView::Checkpoint(c) => framed(be_u32(CHECKPOINT_RECORD_TYPE) + W::Checkpoint::encoding(c)),
    }
}

pub open spec fn record_encodable<W: WalTypes>(r: WALRecordView<W>) -> bool {
    match r {
        WALRecordView::Action(a) => {
            &&& W::Action::encodable(a)
            &&& W::Action::encoding(a).len() >= 4
            &&& W::Action::encoding(a).subrange(0, 4) != be_u32(CHECKPOINT_RECORD_TYPE)
        },
        WALRecordView::Checkpoint(c) => W::Checkpoint::encodable(c),
    }
}

/// Every raft action is a well-formed WAL action: its encoding starts with a
/// record type below the checkpoint's.
pub proof fn lemma_raft_action_is_record<T: Types>(a: RaftLogActionView<T>)
    requires
        action_encodable(a),
    ensures
        record_encodable::<RaftWalTypes<T>>(WALRecordView::Action(a)),
{
    let body = be_u32(action_type(a)) + action_payload(a);
    assert(action_encoding(a).subrange(0, 4) =~= be_u32(action_type(a)));
    crate::bytes::lemma_be_u32_roundtrip(action_type(a));
    crate::bytes::lemma_be_u32_roundtrip(CHECKPOINT_RECORD_TYPE);
}

/// A checkpoint record starting at `pos` puts its type, checkpoint and
/// checksum at their places.
pub proof fn lemma_checkpoint_fields_at<W: WalTypes>(data: Seq<u8>, pos: int, c: <W::Checkpoint as View>::V)
    requires
        starts_with_at(data, pos, record_encoding::<W>(WALRecordView::Checkpoint(c))),
    ensures
        starts_with_at(data, pos, be_u32(CHECKPOINT_RECORD_TYPE)),
        starts_with_at(data, pos + 4, W::Checkpoint::encoding(c)),
        starts_with_at(data, pos, be_u32(CHECKPOINT_RECORD_TYPE) + W::Checkpoint::encoding(c)),
        starts_with_at(
            data,
            pos + 4 + W::Checkpoint::encoding(c).len(),
            be_u64(crc32_checksum(be_u32(CHECKPOINT_RECORD_TYPE) + W::Checkpoint::encoding(c))),
        ),
{
    let body = be_u32(CHECKPOINT_RECORD_TYPE) + W::Checkpoint::encoding(c);
    crate::bytes::lemma_be_u32_roundtrip(CHECKPOINT_RECORD_TYPE);
    lemma_starts_with_concat(data, pos, body, be_u64(crc32_checksum(body)));
    lemma_starts_with_concat(data, pos, be_u32(CHECKPOINT_RECORD_TYPE), W::Checkpoint::encoding(c));
}

/// Decoding a record at `pos` runs out of bytes: its record type is not
/// there whole; or an action's decoding runs out; or a checkpoint's value
/// runs out, or is there whole and its checksum is not.
pub open spec fn record_runs_out<W: WalTypes>(data: Seq<u8>, pos: int) -> bool {
    data.len() - pos < 4 || if read_be_u32(data.subrange(pos, pos + 4)) != CHECKPOINT_RECORD_TYPE {
        !data_at::<W::Action>(data, pos) && W::Action::runs_out(data, pos)
    } else {
        ||| !data_at::<W::Checkpoint>(data, pos + 4) && W::Checkpoint::runs_out(data, pos + 4)
        ||| data_at::<W::Checkpoint>(data, pos + 4) && data.len() - (pos + 4 + data_len_at::<W::Checkpoint>(
            data,
            pos + 4,
        )) < 8
    }
}

/// Bytes that are a record's encoding cut short, with 4 bytes there, begin
/// with the checkpoint record type exactly when the record is a checkpoint;
/// a checkpoint's value is then cut short, or whole with its checksum cut
/// short.
pub proof fn lemma_record_cut_at<W: WalTypes>(data: Seq<u8>, pos: int, v: WALRecordView<W>)
    requires
        record_encodable(v),
        cut_short_at(data, pos, record_encoding(v)),
        pos + 4 <= data.len(),
    ensures
        v is Action ==> data.subrange(pos, pos + 4) != be_u32(CHECKPOINT_RECORD_TYPE),
        v matches WALRecordView::Checkpoint(c) ==> data.subrange(pos, pos + 4) == be_u32(CHECKPOINT_RECORD_TYPE)
            && (cut_short_at(data, pos + 4, W::Checkpoint::encoding(c)) || (starts_with_at(
            data,
            pos + 4,
            W::Checkpoint::encoding(c),
        ) && cut_short_at(
            data,
            pos + 4 + W::Checkpoint::encoding(c).len(),
            be_u64(crc32_checksum(be_u32(CHECKPOINT_RECORD_TYPE) + W::Checkpoint::encoding(c))),
        ))),
{
    crate::bytes::lemma_be_u32_roundtrip(CHECKPOINT_RECORD_TYPE);
    lemma_cut_head(data, pos, record_encoding(v), 4);
    match v {
        WALRecordView::Action(x) => {},
        WALRecordView::Checkpoint(c) => {
            let body = be_u32(CHECKPOINT_RECORD_TYPE) + W::Checkpoint::encoding(c);
            assert(record_encoding(v).subrange(0, 4) =~= be_u32(CHECKPOINT_RECORD_TYPE));
            lemma_cut_concat(data, pos, body, be_u64(crc32_checksum(body)));
            if starts_with_at(data, pos, body) {
                lemma_starts_with_concat(data, pos, be_u32(CHECKPOINT_RECORD_TYPE), W::Checkpoint::encoding(c));
            } else {
                lemma_cut_concat(data, pos, be_u32(CHECKPOINT_RECORD_TYPE), W::Checkpoint::encoding(c));
            }
        },
    }
}

impl<W: WalTypes> DataValue for WALRecord<W> {
    open spec fn encodable(v: WALRecordView<W>) -> bool {
        record_encodable(v)
    }

    open spec fn runs_out(data: Seq<u8>, pos: int) -> bool {
        record_runs_out::<W>(data, pos)
    }

    open spec fn encoding(v: WALRecordView<W>) -> Seq<u8> {
        record_encoding(v)
    }

    proof fn lemma_prefix_free(a: WALRecordView<W>, b: WALRecordView<W>, ra: Seq<u8>, rb: Seq<u8>) {
        let data = record_encoding(a) + ra;
        assert(data == record_encoding(b) + rb);
        assert(starts_with_at(data, 0, record_encoding(a))) by {
            assert(data.subrange(0, record_encoding(a).len() as int) =~= record_encoding(a));
        }
        assert(starts_with_at(data, 0, record_encoding(b))) by {
            assert(data.subrange(0, record_encoding(b).len() as int) =~= record_encoding(b));
        }
        match (a, b) {
            (WALRecordView::Action(x), WALRecordView::Action(y)) => {
                lemma_data_at::<W::Action>(data, 0, x, y);
            },
            (WALRecordView::Checkpoint(x), WALRecordView::Checkpoint(y)) => {
                lemma_checkpoint_fields_at::<W>(data, 0, x);
                lemma_checkpoint_fields_at::<W>(data, 0, y);
                lemma_data_at::<W::Checkpoint>(data, 4, x, y);
            },
            (WALRecordView::Action(x), WALRecordView::Checkpoint(y)) => {
                lemma_checkpoint_fields_at::<W>(data, 0, y);
                assert(W::Action::encoding(x).subrange(0, 4) =~= data.subrange(0, 4));
            },
            (WALRecordView::Checkpoint(x), WALRecordView::Action(y)) => {
                lemma_checkpoint_fields_at::<W>(data, 0, x);
                assert(W::Action::encoding(y).subrange(0, 4) =~= data.subrange(0, 4));
            },
        }
    }

    fn duplicate(&self) -> (r: Self) {
        match self {
            WALRecord::Action(a) => WALRecord::Action(a.duplicate()),
            WALRecord::Checkpoint(c) => WALRecord::Checkpoint(c.duplicate()),
        }
    }

    fn encode_data(&self, buf: &mut Vec<u8>) {
        match self {
            WALRecord::Action(a) => a.encode_data(buf),
            WALRecord::Checkpoint(c) => {
                let start = buf.len();
                crate::bytes::push_be_u32(buf, CHECKPOINT_RECORD_TYPE);
                c.encode_data(buf);
                let ghost body = be_u32(CHECKPOINT_RECORD_TYPE) + W::Checkpoint::encoding(c@);
                assert(buf@ =~= old(buf)@ + body);
                let end = buf.len();
                let crc = crate::bytes::checksum(vstd::slice::slice_subrange(buf.as_slice(), start, end));
                assert(buf@.subrange(start as int, end as int) =~= body);
                crate::bytes::push_be_u64(buf, crc);
                assert(buf@ =~= old(buf)@ + record_encoding::<W>(self@));
            },
        }
    }

    #[verifier::rlimit(40)]
    fn decode_data(data: &[u8], pos: usize) -> (r: Result<(Self, usize), DecodeError>)
        ensures
            data@.len() - pos < 4 ==> r is Err && r->Err_0.kind == DecodeErrorKind::UnexpectedEof,
            forall|c: <W::Checkpoint as View>::V|
                #![trigger W::Checkpoint::encoding(c)]
                W::Checkpoint::encodable(c) && starts_with_at(
                    data@,
                    pos as int,
                    be_u32(CHECKPOINT_RECORD_TYPE) + W::Checkpoint::encoding(c),
                ) && pos + 4 + W::Checkpoint::encoding(c).len() + 8 <= data@.len() && read_be_u64(
                    data@.subrange(
                        pos + 4 + W::Checkpoint::encoding(c).len(),
                        pos + 4 + W::Checkpoint::encoding(c).len() + 8,
                    ),
                ) != crc32_checksum(be_u32(CHECKPOINT_RECORD_TYPE) + W::Checkpoint::encoding(c))
                    ==> r is Err && r->Err_0.kind == DecodeErrorKind::InvalidData && r->Err_0.message@
                    == checksum_message(
                    crc32_checksum(be_u32(CHECKPOINT_RECORD_TYPE) + W::Checkpoint::encoding(c)),
                    read_be_u64(
                        data@.subrange(
                            pos + 4 + W::Checkpoint::encoding(c).len(),
                            pos + 4 + W::Checkpoint::encoding(c).len() + 8,
                        ),
                    ),
                ),
    {
        let total = data.len();
        if total - pos < 4 {
            proof {
                assert forall|v: WALRecordView<W>| record_encodable(v) implies
                    !starts_with_at(data@, pos as int, #[trigger] record_encoding(v)) by {
                    if starts_with_at(data@, pos as int, record_encoding(v)) {
                        if let WALRecordView::Checkpoint(c) = v {
                            lemma_checkpoint_fields_at::<W>(data@, pos as int, c);
                        }
                    }
                }
            }
            return Err(eof_error());
        }
        let t = crate::bytes::get_be_u32(data, pos);
        proof {
            crate::bytes::lemma_read_be_u32_roundtrip(data@.subrange(pos as int, pos + 4));
            crate::bytes::lemma_be_u32_roundtrip(CHECKPOINT_RECORD_TYPE);
        }
        if t != CHECKPOINT_RECORD_TYPE {
            match W::Action::decode_data(data, pos) {
                Ok((a, e)) => {
                    if e - pos < 4 {
                        proof {
                            lemma_data_found::<W::Action>(data@, pos as int, a@, e as int);
                            assert forall|v: WALRecordView<W>| record_encodable(v) implies
                                !starts_with_at(data@, pos as int, #[trigger] record_encoding(v)) by {
                                if starts_with_at(data@, pos as int, record_encoding(v)) {
                                    if let WALRecordView::Action(x) = v {
                                        assert(starts_with_at(data@, pos as int, W::Action::encoding(a@)));
                                        lemma_data_at::<W::Action>(data@, pos as int, a@, x);
                                    } else if let WALRecordView::Checkpoint(c) = v {
                                        lemma_checkpoint_fields_at::<W>(data@, pos as int, c);
                                    }
                                }
                            }
                        }
                        proof {
                            assert forall|v: WALRecordView<W>| record_encodable(v) implies
                                !cut_short_at(data@, pos as int, #[trigger] record_encoding(v)) by {
                                if cut_short_at(data@, pos as int, record_encoding(v)) {
                                    lemma_record_cut_at::<W>(data@, pos as int, v);
                                    if let WALRecordView::Action(x) = v {
                                        lemma_data_cut_not_full::<W::Action>(data@, pos as int, x, a@);
                                    }
                                }
                            }
                        }
                        return Err(DecodeError::invalid(String::from_str("an action must begin with its 4-byte record type")));
                    }
                    proof {
                        assert(W::Action::encoding(a@).subrange(0, 4) =~= data@.subrange(pos as int, pos + 4));
                    }
                    Ok((WALRecord::Action(a), e))
                },
                Err(err) => {
                    proof {
                        assert forall|v: WALRecordView<W>| record_encodable(v) implies
                            !starts_with_at(data@, pos as int, #[trigger] record_encoding(v)) by {
                            if starts_with_at(data@, pos as int, record_encoding(v)) {
                                if let WALRecordView::Checkpoint(c) = v {
                                    lemma_checkpoint_fields_at::<W>(data@, pos as int, c);
                                }
                            }
                        }
                    }
                    proof {
                        assert forall|v: WALRecordView<W>| record_encodable(v) && #[trigger] cut_short_at(
                            data@,
                            pos as int,
                            record_encoding(v),
                        ) implies err.kind == DecodeErrorKind::UnexpectedEof by {
                            lemma_record_cut_at::<W>(data@, pos as int, v);
                            if let WALRecordView::Action(x) = v {
                                assert(cut_short_at(data@, pos as int, W::Action::encoding(x)));
                            }
                        }
                    }
                    Err(err)
                },
            }
        } else {
            let p = pos + 4;
            let (c, end) = match W::Checkpoint::decode_data(data, p) {
                Ok(x) => x,
                Err(err) => {
                    proof {
                        assert forall|v: WALRecordView<W>| record_encodable(v) implies
                            !starts_with_at(data@, pos as int, #[trigger] record_encoding(v)) by {
                            if starts_with_at(data@, pos as int, record_encoding(v)) {
                                match v {
                                    WALRecordView::Checkpoint(c2) => {
                                        lemma_checkpoint_fields_at::<W>(data@, pos as int, c2);
                                    },
                                    WALRecordView::Action(x) => {
                                        assert(W::Action::encoding(x).subrange(0, 4) =~= data@.subrange(pos as int, pos + 4));
                                    },
                                }
                            }
                        }
                        assert forall|c2: <W::Checkpoint as View>::V|
                            W::Checkpoint::encodable(c2) implies !starts_with_at(
                                data@,
                                pos as int,
                                be_u32(CHECKPOINT_RECORD_TYPE) + #[trigger] W::Checkpoint::encoding(c2),
                            ) by {
                            if starts_with_at(data@, pos as int, be_u32(CHECKPOINT_RECORD_TYPE) + W::Checkpoint::encoding(c2)) {
                                lemma_starts_with_concat(data@, pos as int, be_u32(CHECKPOINT_RECORD_TYPE), W::Checkpoint::encoding(c2));
                            }
                        }
                    }
                    proof {
                        assert forall|v: WALRecordView<W>| record_encodable(v) && #[trigger] cut_short_at(
                            data@,
                            pos as int,
                            record_encoding(v),
                        ) implies err.kind == DecodeErrorKind::UnexpectedEof by {
                            lemma_record_cut_at::<W>(data@, pos as int, v);
                            if let WALRecordView::Checkpoint(c2) = v {
                                assert(cut_short_at(data@, p as int, W::Checkpoint::encoding(c2)) || starts_with_at(
                                    data@,
                                    p as int,
                                    W::Checkpoint::encoding(c2),
                                ));
                            }
                        }
                    }
                    return Err(err);
                },
            };
            proof {
                lemma_subrange_join(data@, pos as int, p as int, end as int);
                lemma_data_found::<W::Checkpoint>(data@, p as int, c@, end as int);
            }
            let ghost body = data@.subrange(pos as int, end as int);
            assert(body == be_u32(CHECKPOINT_RECORD_TYPE) + W::Checkpoint::encoding(c@));
            if total - end < 8 {
                proof {
                    assert forall|v: WALRecordView<W>| record_encodable(v) implies
                        !starts_with_at(data@, pos as int, #[trigger] record_encoding(v)) by {
                        if starts_with_at(data@, pos as int, record_encoding(v)) {
                            match v {
                                WALRecordView::Checkpoint(c2) => {
                                    lemma_checkpoint_fields_at::<W>(data@, pos as int, c2);
                                    lemma_data_at::<W::Checkpoint>(data@, p as int, c@, c2);
                                },
                                WALRecordView::Action(x) => {
                                    assert(W::Action::encoding(x).subrange(0, 4) =~= data@.subrange(pos as int, pos + 4));
                                },
                            }
                        }
                    }
                    assert forall|c2: <W::Checkpoint as View>::V|
                        W::Checkpoint::encodable(c2) && starts_with_at(
                            data@,
                            pos as int,
                            be_u32(CHECKPOINT_RECORD_TYPE) + #[trigger] W::Checkpoint::encoding(c2),
                        ) implies pos + 4 + W::Checkpoint::encoding(c2).len() + 8 > data@.len() by {
                        lemma_starts_with_concat(data@, pos as int, be_u32(CHECKPOINT_RECORD_TYPE), W::Checkpoint::encoding(c2));
                        lemma_data_at::<W::Checkpoint>(data@, p as int, c@, c2);
                    }
                }
                return Err(eof_error());
            }
            let got = crate::bytes::get_be_u64(data, end);
            let expected = crate::bytes::checksum(vstd::slice::slice_subrange(data, pos, end));
            if expected != got {
                proof {
                    assert forall|v: WALRecordView<W>| record_encodable(v) implies
                        !starts_with_at(data@, pos as int, #[trigger] record_encoding(v)) by {
                        if starts_with_at(data@, pos as int, record_encoding(v)) {
                            match v {
                                WALRecordView::Checkpoint(c2) => {
                                    lemma_checkpoint_fields_at::<W>(data@, pos as int, c2);
                                    lemma_data_at::<W::Checkpoint>(data@, p as int, c@, c2);
                                    crate::bytes::lemma_be_u64_roundtrip(crc32_checksum(body));
                                },
                                WALRecordView::Action(x) => {
                                    assert(W::Action::encoding(x).subrange(0, 4) =~= data@.subrange(pos as int, pos + 4));
                                },
                            }
                        }
                    }
                    assert forall|c2: <W::Checkpoint as View>::V|
                        W::Checkpoint::encodable(c2) && starts_with_at(
                            data@,
                            pos as int,
                            be_u32(CHECKPOINT_RECORD_TYPE) + #[trigger] W::Checkpoint::encoding(c2),
                        ) implies pos + 4 + W::Checkpoint::encoding(c2).len() == end && body == be_u32(
                            CHECKPOINT_RECORD_TYPE,
                        ) + W::Checkpoint::encoding(c2) by {
                        lemma_starts_with_concat(data@, pos as int, be_u32(CHECKPOINT_RECORD_TYPE), W::Checkpoint::encoding(c2));
                        lemma_data_at::<W::Checkpoint>(data@, p as int, c@, c2);
                    }
                }
                proof {
                    assert forall|v: WALRecordView<W>| record_encodable(v) implies
                        !cut_short_at(data@, pos as int, #[trigger] record_encoding(v)) by {
                        if cut_short_at(data@, pos as int, record_encoding(v)) {
                            lemma_record_cut_at::<W>(data@, pos as int, v);
                            if let WALRecordView::Checkpoint(c2) = v {
                                assert(starts_with_at(data@, p as int, W::Checkpoint::encoding(c@)));
                                lemma_data_cut_not_full::<W::Checkpoint>(data@, p as int, c2, c@);
                                if starts_with_at(data@, p as int, W::Checkpoint::encoding(c2)) {
                                    lemma_data_at::<W::Checkpoint>(data@, p as int, c@, c2);
                                }
                            }
                        }
                    }
                }
                return Err(checksum_error(expected, got));
            }
            proof {
                crate::bytes::lemma_read_be_u64_roundtrip(data@.subrange(end as int, end + 8));
                lemma_subrange_join(data@, pos as int, end as int, end + 8);
                assert forall|c2: <W::Checkpoint as View>::V|
                    W::Checkpoint::encodable(c2) && starts_with_at(
                        data@,
                        pos as int,
                        be_u32(CHECKPOINT_RECORD_TYPE) + #[trigger] W::Checkpoint::encoding(c2),
                    ) implies read_be_u64(
                        data@.subrange(
                            pos + 4 + W::Checkpoint::encoding(c2).len(),
                            pos + 4 + W::Checkpoint::encoding(c2).len() + 8,
                        ),
                    ) == crc32_checksum(be_u32(CHECKPOINT_RECORD_TYPE) + W::Checkpoint::encoding(c2)) by {
                    lemma_starts_with_concat(data@, pos as int, be_u32(CHECKPOINT_RECORD_TYPE), W::Checkpoint::encoding(c2));
                    lemma_data_at::<W::Checkpoint>(data@, p as int, c@, c2);
                }
            }
            Ok((WALRecord::Checkpoint(c), end + 8))
        }
    }

    open spec fn data_debug(v: WALRecordView<W>) -> Seq<char> {
        match v {
            WALRecordView::Action(a) => W::Action::data_debug(a),
            WALRecordView::Checkpoint(c) => "State("@ + W::Checkpoint::data_debug(c) + ")"@,
        }
    }

    fn write_data_debug(&self, out: &mut String) {
        match self {
            WALRecord::Action(a) => a.write_data_debug(out),
            WALRecord::Checkpoint(c) => {
                crate::text::push_str(out, "State(");
                c.write_data_debug(out);
                crate::text::push_str(out, ")");
                assert(out@ =~= old(out)@ + Self::data_debug(self@));
            },
        }
    }
}

} // verus!

verus! {

/// Bytes that start with the encoding of `v` decode to `v` and nothing else:
/// any value `w` whose encoding a decoder found there is `v`, and it ends
/// where `v`'s encoding ends.
pub proof fn lemma_decode_gives_encoded<D: DataValue>(data: Seq<u8>, pos: int, v: D::V, w: D::V, end: int)
    requires
        D::encodable(v),
        D::encodable(w),
        starts_with_at(data, pos, D::encoding(v)),
        pos <= end <= data.len(),
        data.subrange(pos, end) == D::encoding(w),
    ensures
        w == v,
        end == pos + D::encoding(v).len(),
{
    assert(starts_with_at(data, pos, D::encoding(w)));
    lemma_data_at::<D>(data, pos, v, w);
}

/// How an optional id is displayed: the id itself, or `None`.
pub open spec fn opt_id_display<K: IdDisplay>(o: Option<K>) -> Seq<char> {
    match o {
        Some(k) => k.id_display(),
        None => "None"@,
    }
}

pub fn write_opt_id_display<K: IdDisplay>(o: &Option<K>, out: &mut String)
    ensures
        final(out)@ == old(out)@ + opt_id_display(*o),
{
    match o {
        Some(k) => k.write_id_display(out),
        None => crate::text::push_str(out, "None"),
    }
}

/// How optional data is displayed: the data itself, or `None`.
pub open spec fn opt_data_display<D: DataDisplay>(o: Option<D::V>) -> Seq<char> {
    match o {
        Some(d) => D::data_display(d),
        None => "None"@,
    }
}

pub fn write_opt_data_display<D: DataDisplay>(o: &Option<D>, out: &mut String)
    ensures
        final(out)@ == old(out)@ + opt_data_display::<D>(opt_view(*o)),
{
    match o {
        Some(d) => d.write_data_display(out),
        None => crate::text::push_str(out, "None"),
    }
}

impl<T: Types> DataDisplay for RaftLogAction<T> where
    T::LogId: IdDisplay,
    T::Vote: IdDisplay,
    T::LogPayload: DataDisplay,
 {
    open spec fn data_display(v: RaftLogActionView<T>) -> Seq<char> {
        match v {
            RaftLogActionView::SaveVote(x) => "SaveVote("@ + x.id_display() + ")"@,
            RaftLogActionView::Append(l, p) => "Append(log_id: "@ + l.id_display() + ", payload: "@
                + T::LogPayload::data_display(p) + ")"@,
            RaftLogActionView::Commit(l) => "Commit("@ + l.id_display() + ")"@,
            RaftLogActionView::TruncateAfter(o) => "TruncateAfter("@ + opt_id_display(o) + ")"@,
            RaftLogActionView::PurgeUpto(l) => "PurgeUpto("@ + l.id_display() + ")"@,
        }
    }

    fn write_data_display(&self, out: &mut String) {
        match self {
            RaftLogAction::SaveVote(x) => {
                crate::text::push_str(out, "SaveVote(");
                x.write_id_display(out);
            },
            RaftLogAction::Append(l, p) => {
                crate::text::push_str(out, "Append(log_id: ");
                l.write_id_display(out);
                crate::text::push_str(out, ", payload: ");
                p.write_data_display(out);
            },
            RaftLogAction::Commit(l) => {
                crate::text::push_str(out, "Commit(");
                l.write_id_display(out);
            },
            RaftLogAction::TruncateAfter(o) => {
                crate::text::push_str(out, "TruncateAfter(");
                write_opt_id_display(o, out);
            },
            RaftLogAction::PurgeUpto(l) => {
                crate::text::push_str(out, "PurgeUpto(");
                l.write_id_display(out);
            },
        }
        crate::text::push_str(out, ")");
        assert(out@ =~= old(out)@ + Self::data_display(self@));
    }
}

impl<T: Types> DataDisplay for RaftLogState<T> where
    T::LogId: IdDisplay,
    T::Vote: IdDisplay,
    T::UserData: DataDisplay,
 {
    open spec fn data_display(v: RaftLogStateView<T>) -> Seq<char> {
        "RaftLogState(vote: "@ + opt_id_display(v.vote) + ", last: "@ + opt_id_display(v.last)
            + ", committed: "@ + opt_id_display(v.committed) + ", purged: "@ + opt_id_display(v.purged)
            + ", user_data: "@ + opt_data_display::<T::UserData>(v.user_data) + ")"@
    }

    fn write_data_display(&self, out: &mut String) {
        let mut s = String::new();
        crate::text::push_str(&mut s, "RaftLogState(vote: ");
        assert(s@ =~= "RaftLogState(vote: "@);
        write_opt_id_display(&self.vote, &mut s);
        crate::text::push_str(&mut s, ", last: ");
        write_opt_id_display(&self.last, &mut s);
        crate::text::push_str(&mut s, ", committed: ");
        write_opt_id_display(&self.committed, &mut s);
        crate::text::push_str(&mut s, ", purged: ");
        write_opt_id_display(&self.purged, &mut s);
        crate::text::push_str(&mut s, ", user_data: ");
        write_opt_data_display(&self.user_data, &mut s);
        crate::text::push_str(&mut s, ")");
        assert(s@ == Self::data_display(self@));
        crate::text::push_str(out, s.as_str());
    }
}

impl<W: WalTypes> DataDisplay for WALRecord<W> where W::Action: DataDisplay, W::Checkpoint: DataDisplay {
    open spec fn data_display(v: WALRecordView<W>) -> Seq<char> {
        match v {
            WALRecordView::Action(a) => W::Action::data_display(a),
            WALRecordView::Checkpoint(c) => "Checkpoint("@ + W::Checkpoint::data_display(c) + ")"@,
        }
    }

    fn write_data_display(&self, out: &mut String) {
        match self {
            WALRecord::Action(a) => a.write_data_display(out),
            WALRecord::Checkpoint(c) => {
                crate::text::push_str(out, "Checkpoint(");
                c.write_data_display(out);
                crate::text::push_str(out, ")");
                assert(out@ =~= old(out)@ + Self::data_display(self@));
            },
        }
    }
}

} // verus!
