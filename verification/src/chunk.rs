//! A chunk of the WAL: the records of one chunk file and where each lies.
//!
//! A chunk file holds encoded [`WALRecord`]s back to back. Loading a chunk
//! decodes them one after another from the file's bytes. A tail that does
//! not decode is either an unfinished write, which may be cut off, or damage,
//! which is an error.

use vstd::prelude::*;

use crate::bytes::{cut_short_at, starts_with_at};
use crate::chunk_id::{ChunkId, Segment};
use crate::codec::{record_encodable, record_encoding, record_runs_out, WALRecordView};
use crate::flush::WriteRequest;
use crate::num::decimal;
use crate::record::{WALRecord, WalTypes};
use crate::stat::ChunkStat;
use crate::text::{push_chars, push_str};
use crate::types::{DataValue, DecodeError, DecodeErrorKind};

verus! {

/// The views of a sequence of records.
pub open spec fn records_view<W: WalTypes>(recs: Seq<WALRecord<W>>) -> Seq<WALRecordView<W>> {
    recs.map_values(|r: WALRecord<W>| r@)
}

/// The bytes of `recs` written one after another.
pub open spec fn records_encoding<W: WalTypes>(recs: Seq<WALRecordView<W>>) -> Seq<u8>
    decreases recs.len(),
{
    if recs.len() == 0 {
        Seq::empty()
    } else {
        records_encoding(recs.drop_last()) + record_encoding(recs.last())
    }
}

pub open spec fn all_encodable<W: WalTypes>(recs: Seq<WALRecordView<W>>) -> bool {
    forall|i: int| 0 <= i < recs.len() ==> record_encodable(#[trigger] recs[i])
}

/// No well-formed record starts at `pos` in `data`.
pub open spec fn no_record_at<W: WalTypes>(data: Seq<u8>, pos: int) -> bool {
    forall|v: WALRecordView<W>|
        #![trigger record_encoding(v)]
        record_encodable(v) ==> !starts_with_at(data, pos, record_encoding(v))
}

pub open spec fn all_zero(s: Seq<u8>) -> bool {
    forall|i: int| 0 <= i < s.len() ==> s[i] == 0
}

/// One more record written to a chunk adds exactly its encoding to the
/// chunk's bytes.
pub proof fn lemma_records_encoding_push<W: WalTypes>(recs: Seq<WALRecordView<W>>, v: WALRecordView<W>)
    ensures
        records_encoding(recs.push(v)) == records_encoding(recs) + record_encoding(v),
{
    assert(recs.push(v).drop_last() =~= recs);
}

/// The bytes of two runs of records are the bytes of each, one after the
/// other.
pub proof fn lemma_records_encoding_concat<W: WalTypes>(a: Seq<WALRecordView<W>>, b: Seq<WALRecordView<W>>)
    ensures
        records_encoding(a + b) == records_encoding(a) + records_encoding(b),
    decreases b.len(),
{
    if b.len() == 0 {
        assert(a + b =~= a);
        assert(records_encoding(a) + Seq::<u8>::empty() =~= records_encoding(a));
    } else {
        let c = b.drop_last();
        let x = b.last();
        assert(a + b =~= (a + c).push(x));
        assert(b =~= c.push(x));
        lemma_records_encoding_concat(a, c);
        lemma_records_encoding_push(a + c, x);
        lemma_records_encoding_push(c, x);
        assert(records_encoding(a) + records_encoding(c) + record_encoding(x) =~= records_encoding(a) + (
        records_encoding(c) + record_encoding(x)));
    }
}

/// A well-formed record takes at least 4 bytes.
proof fn lemma_record_not_empty<W: WalTypes>(v: WALRecordView<W>)
    requires
        record_encodable(v),
    ensures
        record_encoding(v).len() >= 4,
{
}

/// In bytes made of the records `full`, the record after the first `k`
/// starts where the first `k` end.
proof fn lemma_next_record<W: WalTypes>(full: Seq<WALRecordView<W>>, k: int)
    requires
        0 <= k < full.len(),
    ensures
        records_encoding(full).subrange(0, records_encoding(full.take(k)).len() as int) == records_encoding(
            full.take(k),
        ),
        starts_with_at(
            records_encoding(full),
            records_encoding(full.take(k)).len() as int,
            record_encoding(full[k]),
        ),
        records_encoding(full.take(k + 1)) == records_encoding(full.take(k)) + record_encoding(full[k]),
{
    let pre = full.take(k);
    let rest = full.skip(k + 1);
    assert(full =~= pre.push(full[k]) + rest);
    assert(full.take(k + 1) =~= pre.push(full[k]));
    lemma_records_encoding_concat(pre.push(full[k]), rest);
    lemma_records_encoding_push(pre, full[k]);
    let e = records_encoding(full);
    let ep = records_encoding(pre);
    let ek = record_encoding(full[k]);
    assert(e == ep + ek + records_encoding(rest));
    assert(e.subrange(0, ep.len() as int) =~= ep);
    assert(e.subrange(ep.len() as int, (ep.len() + ek.len()) as int) =~= ek);
}

/// A run of records that makes up all of `data` is the only one.
proof fn lemma_full_parse_unique<W: WalTypes>(
    data: Seq<u8>,
    full: Seq<WALRecordView<W>>,
    got: Seq<WALRecordView<W>>,
)
    requires
        all_encodable(full),
        records_encoding(full) == data,
        got.len() <= full.len(),
        full.take(got.len() as int) == got,
        records_encoding(got).len() == data.len(),
    ensures
        got == full,
{
    if got.len() < full.len() {
        lemma_next_record(full, got.len() as int);
        lemma_record_not_empty(full[got.len() as int]);
    }
    assert(full.take(full.len() as int) =~= full);
}

/// An encoding found inside a prefix of `data` is found in `data` too.
proof fn lemma_starts_with_in_prefix(data: Seq<u8>, pre: Seq<u8>, q: int, x: Seq<u8>)
    requires
        pre.len() <= data.len(),
        data.subrange(0, pre.len() as int) == pre,
        starts_with_at(pre, q, x),
    ensures
        starts_with_at(data, q, x),
{
    assert(data.subrange(q, q + x.len()) =~= pre.subrange(q, q + x.len()));
}

/// Two runs of records that both begin `data` agree on their first `k`
/// records.
proof fn lemma_runs_agree<W: WalTypes>(data: Seq<u8>, a: Seq<WALRecordView<W>>, b: Seq<WALRecordView<W>>, k: int)
    requires
        all_encodable(a),
        all_encodable(b),
        0 <= k <= a.len(),
        k <= b.len(),
        records_encoding(a).len() <= data.len(),
        data.subrange(0, records_encoding(a).len() as int) == records_encoding(a),
        records_encoding(b).len() <= data.len(),
        data.subrange(0, records_encoding(b).len() as int) == records_encoding(b),
    ensures
        a.take(k) == b.take(k),
    decreases k,
{
    if k == 0 {
        assert(a.take(0) =~= b.take(0));
    } else {
        lemma_runs_agree(data, a, b, k - 1);
        lemma_next_record(a, k - 1);
        lemma_next_record(b, k - 1);
        let q = records_encoding(a.take(k - 1)).len() as int;
        lemma_starts_with_in_prefix(data, records_encoding(a), q, record_encoding(a[k - 1]));
        lemma_starts_with_in_prefix(data, records_encoding(b), q, record_encoding(b[k - 1]));
        assert(record_encodable(a[k - 1]));
        assert(record_encodable(b[k - 1]));
        crate::codec::lemma_data_at::<WALRecord<W>>(data, q, a[k - 1], b[k - 1]);
        assert(a.take(k) =~= a.take(k - 1).push(a[k - 1]));
        assert(b.take(k) =~= b.take(k - 1).push(b[k - 1]));
    }
}

/// A run of records that begins `data` and is followed by a record cut
/// short is the run `vs` of a scan that stopped where no record starts.
proof fn lemma_cut_run_is_scan<W: WalTypes>(
    data: Seq<u8>,
    vs: Seq<WALRecordView<W>>,
    us: Seq<WALRecordView<W>>,
    v: WALRecordView<W>,
)
    requires
        all_encodable(vs),
        records_encoding(vs).len() <= data.len(),
        data.subrange(0, records_encoding(vs).len() as int) == records_encoding(vs),
        records_encoding(vs).len() == data.len() || no_record_at::<W>(data, records_encoding(vs).len() as int),
        all_encodable(us),
        records_encoding(us).len() < data.len(),
        data.subrange(0, records_encoding(us).len() as int) == records_encoding(us),
        record_encodable(v),
        cut_short_at(data, records_encoding(us).len() as int, record_encoding(v)),
    ensures
        us == vs,
{
    if us.len() < vs.len() {
        lemma_runs_agree(data, us, vs, us.len() as int);
        assert(us.take(us.len() as int) =~= us);
        let k = us.len() as int;
        lemma_next_record(vs, k);
        let q = records_encoding(us).len() as int;
        lemma_starts_with_in_prefix(data, records_encoding(vs), q, record_encoding(vs[k]));
        assert(record_encodable(vs[k]));
        crate::codec::lemma_data_cut_not_full::<WALRecord<W>>(data, q, v, vs[k]);
    } else if us.len() > vs.len() {
        lemma_runs_agree(data, vs, us, vs.len() as int);
        assert(vs.take(vs.len() as int) =~= vs);
        let k = vs.len() as int;
        lemma_next_record(us, k);
        let q = records_encoding(vs).len() as int;
        lemma_starts_with_in_prefix(data, records_encoding(us), q, record_encoding(us[k]));
        assert(record_encodable(us[k]));
        lemma_record_not_empty(us[k]);
    } else {
        lemma_runs_agree(data, us, vs, us.len() as int);
        assert(us.take(us.len() as int) =~= us);
        assert(vs.take(vs.len() as int) =~= vs);
    }
}

/// `data` is exactly the bytes of the records `full`.
pub open spec fn full_parse<W: WalTypes>(data: Seq<u8>, full: Seq<WALRecordView<W>>) -> bool {
    all_encodable(full) && records_encoding(full) == data
}

/// The state of a scan of `data` that decoded the records `vs`, ending at
/// `pos`, and noted the global end of each in `offsets` (after `base`).
#[verifier::opaque]
spec fn scan_inv<W: WalTypes>(
    data: Seq<u8>,
    base: int,
    offsets: Seq<u64>,
    vs: Seq<WALRecordView<W>>,
    pos: int,
) -> bool {
    &&& offsets.len() == vs.len() + 1
    &&& forall|i: int|
        0 <= i <= vs.len() ==> #[trigger] offsets[i] == base + records_encoding(vs.take(i)).len()
    &&& all_encodable(vs)
    &&& records_encoding(vs).len() == pos
    &&& pos <= data.len()
    &&& data.subrange(0, pos) == records_encoding(vs)
    &&& forall|full: Seq<WALRecordView<W>>|
        #![trigger full_parse(data, full)]
        full_parse(data, full) ==> vs.len() <= full.len() && full.take(vs.len() as int) == vs
}

proof fn lemma_scan_start<W: WalTypes>(data: Seq<u8>, base: u64)
    ensures
        scan_inv::<W>(data, base as int, seq![base], Seq::empty(), 0),
{
    reveal(scan_inv);
    let vs = Seq::<WALRecordView<W>>::empty();
    assert(vs.take(0) =~= vs);
    assert(data.subrange(0, 0) =~= Seq::<u8>::empty());
    assert forall|full: Seq<WALRecordView<W>>| full_parse(data, full) implies full.take(0) == vs by {
        assert(full.take(0) =~= vs);
    }
}

/// Decoding one more record, `v` in `data[pos..end]`, carries the scan on.
proof fn lemma_scan_step<W: WalTypes>(
    data: Seq<u8>,
    base: u64,
    offsets: Seq<u64>,
    vs: Seq<WALRecordView<W>>,
    pos: int,
    v: WALRecordView<W>,
    end: int,
)
    requires
        scan_inv(data, base as int, offsets, vs, pos),
        base + data.len() <= u64::MAX,
        pos < end <= data.len(),
        record_encodable(v),
        data.subrange(pos, end) == record_encoding(v),
    ensures
        scan_inv(data, base as int, offsets.push((base + end) as u64), vs.push(v), end),
{
    reveal(scan_inv);
    let len = data.len() as int;
    let nv = vs.push(v);
    let no = offsets.push((base + end) as u64);
    lemma_records_encoding_push(vs, v);
    crate::codec::lemma_subrange_join(data, 0, pos, end);
    assert forall|i: int| 0 <= i <= nv.len() implies #[trigger] no[i] == base + records_encoding(nv.take(i)).len() by {
        if i < nv.len() {
            assert(nv.take(i) =~= vs.take(i));
        } else {
            assert(nv.take(i) =~= nv);
        }
    }
    assert(all_encodable(nv)) by {
        assert forall|i: int| 0 <= i < nv.len() implies record_encodable(#[trigger] nv[i]) by {
            if i < vs.len() {
                assert(nv[i] == vs[i]);
            }
        }
    }
    assert forall|full: Seq<WALRecordView<W>>|
        #![trigger full_parse(data, full)]
        full_parse(data, full) implies nv.len() <= full.len() && full.take(nv.len() as int) == nv by {
        let k = vs.len() as int;
        if k == full.len() {
            assert(full.take(k) =~= full);
        }
        lemma_next_record(full, k);
        let fk = full[k];
        assert(record_encodable(fk));
        let ra = data.subrange(end, len);
        let rb = data.subrange(pos + record_encoding(fk).len(), len);
        assert(record_encoding(v) + ra =~= data.subrange(pos, len));
        assert(record_encoding(fk) + rb =~= data.subrange(pos, len));
        <WALRecord<W> as DataValue>::lemma_prefix_free(v, fk, ra, rb);
        assert(full.take(k + 1) =~= full.take(k).push(full[k]));
    }
}

/// A scan that is stuck before the end means no run of records makes up
/// all of `data`.
proof fn lemma_scan_stuck<W: WalTypes>(
    data: Seq<u8>,
    base: int,
    offsets: Seq<u64>,
    vs: Seq<WALRecordView<W>>,
    pos: int,
)
    requires
        scan_inv(data, base, offsets, vs, pos),
        pos < data.len(),
        no_record_at::<W>(data, pos),
    ensures
        forall|full: Seq<WALRecordView<W>>| #![trigger full_parse(data, full)] !full_parse(data, full),
{
    reveal(scan_inv);
    assert forall|full: Seq<WALRecordView<W>>| #![trigger full_parse(data, full)] !full_parse(data, full) by {
        if full_parse(data, full) {
            let k = vs.len() as int;
            if k == full.len() {
                assert(full.take(k) =~= full);
            }
            lemma_next_record(full, k);
            assert(record_encodable(full[k]));
        }
    }
}

/// A scan that reached the end found the only run of records that makes up
/// `data`, if there is one.
proof fn lemma_scan_done<W: WalTypes>(
    data: Seq<u8>,
    base: int,
    offsets: Seq<u64>,
    vs: Seq<WALRecordView<W>>,
)
    requires
        scan_inv(data, base, offsets, vs, data.len() as int),
    ensures
        forall|full: Seq<WALRecordView<W>>| #![trigger full_parse(data, full)] full_parse(data, full) ==> vs == full,
{
    reveal(scan_inv);
    assert forall|full: Seq<WALRecordView<W>>| #![trigger full_parse(data, full)] full_parse(data, full) implies vs == full by {
        lemma_full_parse_unique(data, full, vs);
    }
}

/// What a scan has established.
proof fn lemma_scan_facts<W: WalTypes>(
    data: Seq<u8>,
    base: int,
    offsets: Seq<u64>,
    vs: Seq<WALRecordView<W>>,
    pos: int,
)
    requires
        scan_inv(data, base, offsets, vs, pos),
    ensures
        offsets.len() == vs.len() + 1,
        forall|i: int|
            0 <= i <= vs.len() ==> #[trigger] offsets[i] == base + records_encoding(vs.take(i)).len(),
        offsets[0] == base,
        offsets.last() == base + pos,
        forall|i: int, j: int| 0 <= i <= j < offsets.len() ==> offsets[i] <= offsets[j],
        all_encodable(vs),
        records_encoding(vs).len() == pos,
        pos <= data.len(),
        data.subrange(0, pos) == records_encoding(vs),
{
    reveal(scan_inv);
    assert(vs.take(0) =~= Seq::<WALRecordView<W>>::empty());
    assert(vs.take(vs.len() as int) =~= vs);
    assert forall|i: int, j: int| 0 <= i <= j < offsets.len() implies offsets[i] <= offsets[j] by {
        assert(vs.take(j) =~= vs.take(i) + vs.take(j).skip(i));
        lemma_records_encoding_concat(vs.take(i), vs.take(j).skip(i));
    }
}

/// The message of an error met while listing the records of chunk
/// `chunk_id`: the decoder's message `m`, then where it was met.
pub open spec fn dump_error_message(m: Seq<char>, offset: nat, chunk_id: ChunkId) -> Seq<char> {
    m + "; when:(decode Record at offset "@ + decimal(offset) + "); when:(iterate "@ + chunk_id.spec_display()
        + ")"@
}

/// The offsets of a chunk's records and whether its file was cut short.
#[derive(Debug, Clone)]
pub struct Chunk {
    /// `N + 1` global offsets for `N` records: where the chunk starts, then
    /// where each record ends.
    global_offsets: Vec<u64>,
    /// The file size before an unfinished record was cut off.
    truncated: Option<u64>,
}

impl View for Chunk {
    type V = Seq<u64>;

    closed spec fn view(&self) -> Seq<u64> {
        self.global_offsets@
    }
}

impl Chunk {
    /// At least the start offset, and offsets never go backwards.
    pub closed spec fn wf(self) -> bool {
        &&& self.global_offsets@.len() >= 1
        &&& forall|i: int, j: int|
            0 <= i <= j < self.global_offsets@.len() ==> self.global_offsets@[i] <= self.global_offsets@[j]
    }

    pub closed spec fn spec_truncated(self) -> Option<u64> {
        self.truncated
    }

    /// An empty chunk starting at `chunk_id`.
    pub fn new(chunk_id: ChunkId) -> (r: Self)
        ensures
            r.wf(),
            r@ == seq![chunk_id.0],
            r.spec_truncated() is None,
    {
        Chunk { global_offsets: vec![chunk_id.0], truncated: None }
    }

    /// The number of records in the chunk.
    pub fn records_count(&self) -> (r: usize)
        requires
            self.wf(),
        ensures
            r == self@.len() - 1,
    {
        self.global_offsets.len() - 1
    }

    pub fn chunk_id(&self) -> (r: ChunkId)
        requires
            self.wf(),
        ensures
            r.0 == self@[0],
    {
        ChunkId(self.global_offsets[0])
    }

    /// The span of the last record.
    pub fn last_segment(&self) -> (r: Segment)
        requires
            self.wf(),
            self@.len() >= 2,
        ensures
            r.offset == self@[self@.len() - 2],
            r.size == self@[self@.len() - 1] - self@[self@.len() - 2],
    {
        let l = self.global_offsets.len();
        let start = self.global_offsets[l - 2];
        let end = self.global_offsets[l - 1];
        Segment::new(start, end - start)
    }

    /// The bytes the chunk's records take.
    pub fn chunk_size(&self) -> (r: u64)
        requires
            self.wf(),
        ensures
            r == self@.last() - self@[0],
    {
        self.end_offset()
    }

    /// The end of the chunk, relative to its start.
    pub fn end_offset(&self) -> (r: u64)
        requires
            self.wf(),
        ensures
            r == self@.last() - self@[0],
    {
        self.global_offsets[self.global_offsets.len() - 1] - self.global_offsets[0]
    }

    pub fn global_start(&self) -> (r: u64)
        requires
            self.wf(),
        ensures
            r == self@[0],
    {
        self.global_offsets[0]
    }

    pub fn global_end(&self) -> (r: u64)
        requires
            self.wf(),
        ensures
            r == self@.last(),
    {
        self.global_offsets[self.global_offsets.len() - 1]
    }

    /// The size a file had before its unfinished tail was cut off.
    pub fn truncated(&self) -> (r: Option<u64>)
        ensures
            r == self.spec_truncated(),
    {
        self.truncated
    }

    /// Accounts a new record of `size` bytes at the end of the chunk.
    pub fn append_record_size(&mut self, size: u64)
        requires
            old(self).wf(),
            old(self)@.last() + size <= u64::MAX,
        ensures
            final(self).wf(),
            final(self)@ == old(self)@.push((old(self)@.last() + size) as u64),
            final(self).spec_truncated() == old(self).spec_truncated(),
    {
        let last = self.global_offsets[self.global_offsets.len() - 1];
        self.global_offsets.push(last + size);
    }

    /// Decodes the records of the chunk `chunk_id` from the bytes of its file.
    ///
    /// Records are decoded one after another until the bytes run out. When
    /// one does not decode, the tail from there on is an unfinished write if
    /// the bytes ran out inside it, or if it is nothing but zeros (as a file
    /// system that writes data and length in either order may leave); with
    /// `truncate_incomplete` such a tail is cut off and loading succeeds.
    /// Any other failure is returned.
    pub fn load<W: WalTypes>(data: &[u8], chunk_id: ChunkId, truncate_incomplete: bool) -> (r: Result<
        (Chunk, Vec<WALRecord<W>>),
        DecodeError,
    >)
        requires
            chunk_id.0 + data@.len() <= u64::MAX,
        ensures
            r matches Ok((c, recs)) ==> {
                let vs = records_view(recs@);
                let end = records_encoding(vs).len();
                &&& c.wf()
                &&& c@.len() == recs@.len() + 1
                &&& forall|i: int|
                    0 <= i <= recs@.len() ==> #[trigger] c@[i] == chunk_id.0 + records_encoding(vs.take(i)).len()
                &&& all_encodable(vs)
                &&& end <= data@.len()
                &&& data@.subrange(0, end as int) == records_encoding(vs)
                &&& (c.spec_truncated() is None <==> end == data@.len())
                &&& c.spec_truncated() matches Some(n) ==> n == data@.len() && truncate_incomplete
                    && no_record_at::<W>(data@, end as int) && (record_runs_out::<W>(data@, end as int) || all_zero(
                    data@.subrange(end as int, data@.len() as int),
                ))
            },
            r matches Err(e) ==> exists|vs: Seq<WALRecordView<W>>|
                #![trigger records_encoding(vs)]
                {
                    let end = records_encoding(vs).len();
                    &&& all_encodable(vs)
                    &&& end < data@.len()
                    &&& data@.subrange(0, end as int) == records_encoding(vs)
                    &&& no_record_at::<W>(data@, end as int)
                    &&& (e.kind == DecodeErrorKind::UnexpectedEof <==> record_runs_out::<W>(data@, end as int))
                    &&& e.kind == DecodeErrorKind::UnexpectedEof ==> !truncate_incomplete
                    &&& e.kind != DecodeErrorKind::UnexpectedEof ==> !(truncate_incomplete && all_zero(
                        data@.subrange(end as int, data@.len() as int),
                    ))
                },
            forall|full: Seq<WALRecordView<W>>|
                all_encodable(full) && records_encoding(full) == data@ ==> (r matches Ok((c, recs))
                    && c.spec_truncated() is None && records_view(recs@) == full),
            forall|us: Seq<WALRecordView<W>>, v: WALRecordView<W>|
                #![trigger records_encoding(us), record_encoding(v)]
                truncate_incomplete && all_encodable(us) && records_encoding(us).len() < data@.len()
                    && data@.subrange(0, records_encoding(us).len() as int) == records_encoding(us)
                    && record_encodable(v) && cut_short_at(
                    data@,
                    records_encoding(us).len() as int,
                    record_encoding(v),
                ) ==> (r matches Ok((c, recs)) && c.spec_truncated() == Some(data@.len() as u64)
                    && records_view(recs@) == us),
    {
        let len = data.len();
        let mut offsets: Vec<u64> = vec![chunk_id.0];
        let mut records: Vec<WALRecord<W>> = Vec::new();
        let mut pos: usize = 0;
        let mut truncated: Option<u64> = None;
        proof {
            lemma_scan_start::<W>(data@, chunk_id.0);
            assert(records_view(records@) =~= Seq::<WALRecordView<W>>::empty());
            assert(offsets@ =~= seq![chunk_id.0]);
        }
        while pos < len
            invariant_except_break
                truncated is None,
            invariant
                len == data@.len(),
                chunk_id.0 + data@.len() <= u64::MAX,
                pos <= len,
                scan_inv(data@, chunk_id.0 as int, offsets@, records_view(records@), pos as int),
            ensures
                scan_inv(data@, chunk_id.0 as int, offsets@, records_view(records@), pos as int),
                truncated matches Some(n) ==> n == len && truncate_incomplete && pos < len
                    && no_record_at::<W>(data@, pos as int) && (record_runs_out::<W>(data@, pos as int) || all_zero(
                    data@.subrange(pos as int, len as int),
                )),
                truncated is None ==> pos == len,
            decreases len - pos,
        {
            let ghost vs = records_view(records@);
            let res = WALRecord::<W>::decode_data(data, pos);
            match res {
                Ok((rec, end)) => {
                    proof {
                        lemma_record_not_empty(rec@);
                        lemma_scan_step(data@, chunk_id.0, offsets@, vs, pos as int, rec@, end as int);
                        assert(records_view(records@.push(rec)) =~= vs.push(rec@));
                    }
                    offsets.push(chunk_id.0 + end as u64);
                    records.push(rec);
                    pos = end;
                },
                Err(e) => {
                    proof {
                        assert forall|v: WALRecordView<W>|
                            #![trigger record_encoding(v)]
                            record_encodable(v) implies !starts_with_at(data@, pos as int, record_encoding(v)) by {
                            assert(<WALRecord<W> as DataValue>::encodable(v));
                            assert(<WALRecord<W> as DataValue>::encoding(v) == record_encoding(v));
                        }
                    }
                    let incomplete = match e.kind {
                        DecodeErrorKind::UnexpectedEof => true,
                        DecodeErrorKind::InvalidData => {
                            let z = verify_trailing_zeros(data, pos as u64);
                            match z {
                                Ok(b) => b,
                                Err(_) => false,
                            }
                        },
                    };
                    if incomplete && truncate_incomplete {
                        truncated = Some(len as u64);
                        break;
                    }
                    proof {
                        lemma_scan_facts(data@, chunk_id.0 as int, offsets@, vs, pos as int);
                        lemma_scan_stuck(data@, chunk_id.0 as int, offsets@, vs, pos as int);
                        assert(records_encoding(vs).len() < data@.len());
                        assert forall|full: Seq<WALRecordView<W>>|
                            all_encodable(full) && records_encoding(full) == data@ implies false by {
                            assert(full_parse(data@, full));
                        }
                        assert forall|us: Seq<WALRecordView<W>>, v: WALRecordView<W>|
                            truncate_incomplete && all_encodable(us) && #[trigger] records_encoding(us).len()
                                < data@.len() && data@.subrange(0, records_encoding(us).len() as int)
                                == records_encoding(us) && record_encodable(v) && cut_short_at(
                                data@,
                                records_encoding(us).len() as int,
                                #[trigger] record_encoding(v),
                            ) implies !truncate_incomplete by {
                            lemma_cut_run_is_scan::<W>(data@, vs, us, v);
                            assert(cut_short_at(data@, pos as int, <WALRecord<W> as DataValue>::encoding(v)));
                        }
                    }
                    return Err(e);
                },
            }
        }
        let ghost vs = records_view(records@);
        proof {
            lemma_scan_facts(data@, chunk_id.0 as int, offsets@, vs, pos as int);
            if truncated is Some {
                lemma_scan_stuck(data@, chunk_id.0 as int, offsets@, vs, pos as int);
            } else {
                lemma_scan_done(data@, chunk_id.0 as int, offsets@, vs);
            }
            assert forall|full: Seq<WALRecordView<W>>|
                all_encodable(full) && records_encoding(full) == data@ implies truncated is None && vs == full by {
                assert(full_parse(data@, full));
            }
            assert forall|us: Seq<WALRecordView<W>>, v: WALRecordView<W>|
                truncate_incomplete && all_encodable(us) && #[trigger] records_encoding(us).len() < data@.len()
                    && data@.subrange(0, records_encoding(us).len() as int) == records_encoding(us)
                    && record_encodable(v) && cut_short_at(
                    data@,
                    records_encoding(us).len() as int,
                    #[trigger] record_encoding(v),
                ) implies truncated == Some(data@.len() as u64) && vs == us by {
                lemma_cut_run_is_scan::<W>(data@, vs, us, v);
            }
        }
        let chunk = Chunk { global_offsets: offsets, truncated };
        Ok((chunk, records))
    }
}

impl Chunk {
    /// Every record of a chunk file's bytes, each with its span relative to
    /// the start of the file, in order; when the bytes stop decoding, the
    /// error comes last and nothing after it.
    ///
    /// The error says where it came from: the decoder's message, then
    /// `; when:(decode Record at offset <offset>); when:(iterate <chunk id>)`.
    pub fn dump<W: WalTypes>(data: &[u8], chunk_id: ChunkId) -> (r: Vec<Result<(Segment, WALRecord<W>), DecodeError>>)
        ensures
            exists|vs: Seq<WALRecordView<W>>|
                #![trigger records_encoding(vs)]
                {
                    let end = records_encoding(vs).len();
                    let n = vs.len();
                    &&& all_encodable(vs)
                    &&& end <= data@.len()
                    &&& data@.subrange(0, end as int) == records_encoding(vs)
                    &&& (end == data@.len() ==> r@.len() == n)
                    &&& (end < data@.len() ==> r@.len() == n + 1 && no_record_at::<W>(data@, end as int) && (
                    r@[n as int] matches Err(e) && (exists|m: Seq<char>|
                        #[trigger] dump_error_message(m, end, chunk_id) == e.message@) && (forall|v: WALRecordView<W>|
                        #![trigger record_encoding(v)]
                        record_encodable(v) && cut_short_at(data@, end as int, record_encoding(v)) ==> e.kind
                            == DecodeErrorKind::UnexpectedEof)))
                    &&& forall|i: int|
                        0 <= i < n ==> (#[trigger] r@[i] matches Ok((seg, rec)) && rec@ == vs[i] && seg.offset
                            == records_encoding(vs.take(i)).len() && seg.size == record_encoding(vs[i]).len())
                },
            forall|full: Seq<WALRecordView<W>>|
                all_encodable(full) && records_encoding(full) == data@ ==> r@.len() == full.len(),
    {
        let len = data.len();
        let mut out: Vec<Result<(Segment, WALRecord<W>), DecodeError>> = Vec::new();
        let mut offsets: Vec<u64> = vec![0];
        let ghost mut vs: Seq<WALRecordView<W>> = Seq::empty();
        let ghost mut inner: Seq<char> = Seq::empty();
        let mut pos: usize = 0;
        proof {
            lemma_scan_start::<W>(data@, 0);
            assert(offsets@ =~= seq![0u64]);
        }
        while pos < len
            invariant_except_break
                out@.len() == vs.len(),
            invariant
                len == data@.len(),
                pos <= len,
                scan_inv(data@, 0, offsets@, vs, pos as int),
                forall|i: int|
                    0 <= i < vs.len() ==> (#[trigger] out@[i] matches Ok((seg, rec)) && rec@ == vs[i] && seg.offset
                        == records_encoding(vs.take(i)).len() && seg.size == record_encoding(vs[i]).len()),
            ensures
                pos == len ==> out@.len() == vs.len(),
                pos < len ==> out@.len() == vs.len() + 1 && no_record_at::<W>(data@, pos as int) && (
                out@[vs.len() as int] matches Err(e) && e.message@ == dump_error_message(inner, pos as nat, chunk_id)
                    && (forall|v: WALRecordView<W>|
                    #![trigger record_encoding(v)]
                    record_encodable(v) && cut_short_at(data@, pos as int, record_encoding(v)) ==> e.kind
                        == DecodeErrorKind::UnexpectedEof)),
            decreases len - pos,
        {
            let res = WALRecord::<W>::decode_data(data, pos);
            match res {
                Ok((rec, end)) => {
                    proof {
                        lemma_record_not_empty(rec@);
                        lemma_scan_facts(data@, 0, offsets@, vs, pos as int);
                        lemma_records_encoding_push(vs, rec@);
                        assert(vs.push(rec@).take(vs.len() as int) =~= vs);
                        lemma_scan_step(data@, 0, offsets@, vs, pos as int, rec@, end as int);
                    }
                    let ghost old_out = out@;
                    let ghost old_vs = vs;
                    out.push(Ok((Segment::new(pos as u64, (end - pos) as u64), rec)));
                    offsets.push(end as u64);
                    proof {
                        vs = vs.push(out@[old_vs.len() as int]->Ok_0.1@);
                        assert forall|i: int|
                            0 <= i < vs.len() implies (#[trigger] out@[i] matches Ok((seg, rec)) && rec@ == vs[i]
                            && seg.offset == records_encoding(vs.take(i)).len() && seg.size == record_encoding(
                            vs[i],
                        ).len()) by {
                            if i < old_vs.len() {
                                assert(out@[i] == old_out[i]);
                                assert(vs.take(i) =~= old_vs.take(i));
                            } else {
                                assert(vs.take(i) =~= old_vs);
                            }
                        }
                    }
                    pos = end;
                },
                Err(e) => {
                    proof {
                        assert forall|v: WALRecordView<W>|
                            #![trigger record_encoding(v)]
                            record_encodable(v) implies !starts_with_at(data@, pos as int, record_encoding(v)) by {
                            assert(<WALRecord<W> as DataValue>::encodable(v));
                            assert(<WALRecord<W> as DataValue>::encoding(v) == record_encoding(v));
                        }
                    }
                    proof {
                        inner = e.message@;
                        assert forall|v: WALRecordView<W>|
                            record_encodable(v) && cut_short_at(data@, pos as int, #[trigger] record_encoding(v))
                            implies e.kind == DecodeErrorKind::UnexpectedEof by {
                            assert(cut_short_at(data@, pos as int, <WALRecord<W> as DataValue>::encoding(v)));
                        }
                    }
                    let kind = e.kind;
                    let mut m = e.message;
                    push_str(&mut m, "; when:(decode Record at offset ");
                    let d = crate::num::decimal_chars(pos as u64);
                    push_chars(&mut m, &d);
                    push_str(&mut m, "); when:(iterate ");
                    let c = chunk_id.display();
                    push_str(&mut m, c.as_str());
                    push_str(&mut m, ")");
                    assert(m@ =~= dump_error_message(inner, pos as nat, chunk_id));
                    out.push(Err(DecodeError { kind, message: m }));
                    break;
                },
            }
        }
        proof {
            lemma_scan_facts(data@, 0, offsets@, vs, pos as int);
            if pos < len {
                lemma_scan_stuck(data@, 0, offsets@, vs, pos as int);
                assert forall|full: Seq<WALRecordView<W>>|
                    all_encodable(full) && records_encoding(full) == data@ implies false by {
                    assert(full_parse(data@, full));
                }
            } else {
                lemma_scan_done(data@, 0, offsets@, vs);
                assert forall|full: Seq<WALRecordView<W>>|
                    all_encodable(full) && records_encoding(full) == data@ implies out@.len() == full.len() by {
                    assert(full_parse(data@, full));
                }
            }
        }
        out
    }

    /// Decodes the record at `segment` (global) from the bytes of this
    /// chunk's file.
    pub fn read_record<W: WalTypes>(&self, data: &[u8], segment: Segment) -> (r: Result<WALRecord<W>, DecodeError>)
        requires
            self.wf(),
            self@[0] <= segment.offset,
            segment.offset - self@[0] <= data@.len(),
        ensures
            r matches Ok(rec) ==> record_encodable(rec@) && starts_with_at(
                data@,
                segment.offset - self@[0],
                record_encoding(rec@),
            ),
            forall|v: WALRecordView<W>|
                #![trigger record_encoding(v)]
                record_encodable(v) && starts_with_at(data@, segment.offset - self@[0], record_encoding(v)) ==> (r
                    matches Ok(rec) && rec@ == v),
    {
        let d = segment.offset - self.global_start();
        let n = data.len();
        assert(d <= n);
        let pos = d as usize;
        match WALRecord::<W>::decode_data(data, pos) {
            Ok((rec, end)) => {
                proof {
                    assert forall|v: WALRecordView<W>|
                        #![trigger record_encoding(v)]
                        record_encodable(v) && starts_with_at(data@, pos as int, record_encoding(v)) implies rec@
                        == v by {
                        crate::codec::lemma_decode_gives_encoded::<WALRecord<W>>(data@, pos as int, v, rec@, end as int);
                    }
                }
                Ok(rec)
            },
            Err(e) => {
                proof {
                    assert forall|v: WALRecordView<W>|
                        #![trigger record_encoding(v)]
                        record_encodable(v) implies !starts_with_at(data@, pos as int, record_encoding(v)) by {
                        assert(<WALRecord<W> as DataValue>::encodable(v));
                        assert(<WALRecord<W> as DataValue>::encoding(v) == record_encoding(v));
                    }
                }
                Err(e)
            },
        }
    }

}

impl Chunk {
    /// Whether the chunk holds `max_records` records or `max_size` bytes:
    /// then it is closed and a new one is opened.
    pub fn is_full(&self, max_records: usize, max_size: usize) -> (r: bool)
        requires
            self.wf(),
        ensures
            r == (self@.len() - 1 >= max_records || self@.last() - self@[0] >= max_size),
    {
        if self.records_count() >= max_records {
            return true;
        }
        let size = self.chunk_size();
        size >= max_size as u64
    }
}

/// A chunk being written: its records so far, and the bytes appended to it
/// that are not handed to the flush worker yet.
#[derive(Debug)]
pub struct OpenChunk {
    pub pending_data: Vec<u8>,
    pub chunk: Chunk,
}

impl OpenChunk {
    pub fn new(chunk: Chunk) -> (r: Self)
        ensures
            r.pending_data@.len() == 0,
            r.chunk == chunk,
    {
        OpenChunk { pending_data: Vec::new(), chunk }
    }

    /// Hands out the pending bytes and starts over with none.
    pub fn take_pending_data(&mut self) -> (r: Vec<u8>)
        ensures
            r@ == old(self).pending_data@,
            final(self).pending_data@.len() == 0,
            final(self).chunk == old(self).chunk,
    {
        let mut empty: Vec<u8> = Vec::new();
        std::mem::swap(&mut empty, &mut self.pending_data);
        empty
    }

    /// A new chunk at `chunk_id` whose first record, the checkpoint
    /// `initial_record`, is pending to be written to its file.
    pub fn create<W: WalTypes>(chunk_id: ChunkId, initial_record: &WALRecord<W>) -> (r: Self)
        requires
            chunk_id.0 + record_encoding(initial_record@).len() <= u64::MAX,
        ensures
            r.chunk.wf(),
            r.chunk@ == seq![chunk_id.0, (chunk_id.0 + record_encoding(initial_record@).len()) as u64],
            r.chunk.spec_truncated() is None,
            r.pending_data@ == record_encoding(initial_record@),
    {
        let mut open = OpenChunk::new(Chunk::new(chunk_id));
        open.append_record(initial_record);
        assert(open.pending_data@ =~= record_encoding(initial_record@));
        open
    }

    /// The write request that hands the pending bytes to the flush worker:
    /// they reach up to the end of the chunk.
    pub fn pending_write<C>(&mut self, sync: bool, callback: Option<C>) -> (r: WriteRequest<C>)
        requires
            old(self).chunk.wf(),
        ensures
            r.upto_offset == old(self).chunk@.last(),
            r.data@ == old(self).pending_data@,
            r.sync == sync,
            r.callback == callback,
            final(self).pending_data@.len() == 0,
            final(self).chunk == old(self).chunk,
    {
        let upto_offset = self.chunk.global_end();
        let data = self.take_pending_data();
        WriteRequest { upto_offset, data, sync, callback }
    }

    /// Where the chunk after this one starts: at the end of its last record.
    pub fn next_chunk_id(&self) -> (r: ChunkId)
        requires
            self.chunk.wf(),
            self.chunk@.len() >= 2,
        ensures
            r.0 == self.chunk@.last(),
    {
        let seg = self.chunk.last_segment();
        proof {
            assert(self.chunk@[self.chunk@.len() - 2] <= self.chunk@[self.chunk@.len() - 1]);
        }
        ChunkId(seg.end())
    }

    /// When a full chunk is closed: the write that syncs the bytes still
    /// pending in it, up to its end, unless there are none.
    pub fn closing_write<C>(&mut self) -> (r: Option<WriteRequest<C>>)
        requires
            old(self).chunk.wf(),
        ensures
            old(self).pending_data@.len() == 0 ==> r is None,
            old(self).pending_data@.len() > 0 ==> (r matches Some(w) && w.upto_offset == old(self).chunk@.last()
                && w.data@ == old(self).pending_data@ && w.sync && w.callback is None),
            final(self).pending_data@.len() == 0,
            final(self).chunk == old(self).chunk,
    {
        let data = self.take_pending_data();
        if data.len() == 0 {
            None
        } else {
            Some(WriteRequest { upto_offset: self.chunk.global_end(), data, sync: true, callback: None })
        }
    }

    /// Encodes `rec` at the end of the pending bytes and accounts it in the
    /// chunk; returns the span it takes in the WAL.
    pub fn append_record<W: WalTypes>(&mut self, rec: &WALRecord<W>) -> (r: Segment)
        requires
            old(self).chunk.wf(),
            old(self).chunk@.last() + record_encoding(rec@).len() <= u64::MAX,
        ensures
            final(self).chunk.wf(),
            final(self).pending_data@ == old(self).pending_data@ + record_encoding(rec@),
            final(self).chunk@ == old(self).chunk@.push(
                (old(self).chunk@.last() + record_encoding(rec@).len()) as u64,
            ),
            final(self).chunk.spec_truncated() == old(self).chunk.spec_truncated(),
            r.offset == old(self).chunk@.last(),
            r.size == record_encoding(rec@).len(),
    {
        let before = self.pending_data.len();
        rec.encode_data(&mut self.pending_data);
        let size = self.pending_data.len() - before;
        self.chunk.append_record_size(size as u64);
        self.chunk.last_segment()
    }
}

impl OpenChunk {
    /// Closes the chunk when it is full: a new open chunk starts where it
    /// ends, with `checkpoint` as its first record, and the full one comes
    /// back closed with that checkpoint, along with the write that syncs its
    /// bytes still pending, if any. A chunk that is not full stays open and
    /// nothing comes back.
    pub fn close_if_full<W: WalTypes, Cb>(
        &mut self,
        checkpoint: W::Checkpoint,
        max_records: usize,
        max_size: usize,
    ) -> (r: Option<(ClosedChunk<W::Checkpoint>, Option<WriteRequest<Cb>>)>)
        requires
            old(self).chunk.wf(),
            old(self).chunk@.len() >= 2,
            old(self).chunk@.last() + record_encoding(WALRecordView::<W>::Checkpoint(checkpoint@)).len()
                <= u64::MAX,
        ensures
            !(old(self).chunk@.len() - 1 >= max_records || old(self).chunk@.last() - old(self).chunk@[0]
                >= max_size) ==> r is None && *final(self) == *old(self),
            (old(self).chunk@.len() - 1 >= max_records || old(self).chunk@.last() - old(self).chunk@[0]
                >= max_size) ==> (r matches Some((closed, w)) && {
                let next = old(self).chunk@.last();
                let first = record_encoding(WALRecordView::<W>::Checkpoint(checkpoint@));
                &&& closed.chunk == old(self).chunk
                &&& closed.state@ == checkpoint@
                &&& final(self).chunk.wf()
                &&& final(self).chunk@ == seq![next, (next + first.len()) as u64]
                &&& final(self).pending_data@ == first
                &&& (old(self).pending_data@.len() == 0 ==> w is None)
                &&& (old(self).pending_data@.len() > 0 ==> (w matches Some(w) && w.upto_offset == next
                    && w.data@ == old(self).pending_data@ && w.sync && w.callback is None))
            }),
    {
        if !self.chunk.is_full(max_records, max_size) {
            return None;
        }
        let next = self.next_chunk_id();
        let first = WALRecord::<W>::Checkpoint(checkpoint.duplicate());
        let mut old_open = OpenChunk::create(next, &first);
        std::mem::swap(self, &mut old_open);
        let write = old_open.closing_write();
        let closed = ClosedChunk::new(old_open.chunk, checkpoint);
        Some((closed, write))
    }
}

/// A chunk that is complete, with the checkpoint `C` of the state after it.
#[derive(Debug, Clone)]
pub struct ClosedChunk<C> {
    pub state: C,
    pub chunk: Chunk,
}

impl<C: DataValue> ClosedChunk<C> {
    pub fn new(chunk: Chunk, state: C) -> (r: Self)
        ensures
            r.chunk == chunk,
            r.state == state,
    {
        ClosedChunk { state, chunk }
    }

    /// The statistics of the chunk.
    pub fn stat(&self) -> (r: ChunkStat<C>)
        requires
            self.chunk.wf(),
        ensures
            r.chunk_id.0 == self.chunk@[0],
            r.records_count == self.chunk@.len() - 1,
            r.global_start == self.chunk@[0],
            r.global_end == self.chunk@.last(),
            r.size == self.chunk@.last() - self.chunk@[0],
            r.log_state@ == self.state@,
    {
        ChunkStat {
            chunk_id: self.chunk.chunk_id(),
            records_count: self.chunk.records_count() as u64,
            global_start: self.chunk.global_start(),
            global_end: self.chunk.global_end(),
            size: self.chunk.chunk_size(),
            log_state: self.state.duplicate(),
        }
    }
}

/// The message of a trailing-zeros check that starts past the end.
pub open spec fn start_past_end_message(start: nat, size: nat) -> Seq<char> {
    "Start offset "@ + decimal(start) + " exceeds file size "@ + decimal(size)
}

/// Whether every byte of `data` from `start_offset` on is zero.
///
/// A start past the end of `data` is an error.
pub fn verify_trailing_zeros(data: &[u8], start_offset: u64) -> (r: Result<bool, String>)
    ensures
        start_offset <= data@.len() <==> r is Ok,
        r matches Ok(b) ==> b == all_zero(data@.subrange(start_offset as int, data@.len() as int)),
        r matches Err(m) ==> m@ == start_past_end_message(start_offset as nat, data@.len() as nat),
{
    let size = data.len();
    if start_offset > size as u64 {
        let mut m = String::new();
        crate::text::push_str(&mut m, "Start offset ");
        let a = crate::num::decimal_chars(start_offset);
        crate::text::push_chars(&mut m, &a);
        crate::text::push_str(&mut m, " exceeds file size ");
        let b = crate::num::decimal_chars(size as u64);
        crate::text::push_chars(&mut m, &b);
        return Err(m);
    }
    let start = start_offset as usize;
    let mut i = start;
    while i < size
        invariant
            start <= i <= size,
            size == data@.len(),
            start == start_offset,
            forall|k: int| start <= k < i ==> data@[k] == 0,
        decreases size - i,
    {
        if data[i] != 0 {
            proof {
                let s = data@.subrange(start as int, size as int);
                assert(s[i - start] != 0);
            }
            return Ok(false);
        }
        i = i + 1;
    }
    proof {
        let s = data@.subrange(start as int, size as int);
        assert forall|k: int| 0 <= k < s.len() implies s[k] == 0 by {
            assert(s[k] == data@[start + k]);
        }
    }
    Ok(true)
}

} // verus!
