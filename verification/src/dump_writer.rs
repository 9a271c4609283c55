//! Human-readable dumps of the records in a WAL.

use vstd::prelude::*;

use crate::chunk_id::{ChunkId, Segment};
use crate::codec::WALRecordView;
use crate::num::{spec_format_grouped, zero_padded};
use crate::record::{WALRecord, WalTypes};
use crate::text::{push_char, push_chars, push_str};
use crate::types::{DataDisplay, DataValue};

verus! {

/// The line that heads a chunk in a dump.
pub open spec fn chunk_header(chunk_id: ChunkId) -> Seq<char> {
    chunk_id.spec_display() + seq!['\n']
}

/// The dump of one record: a chunk header first when the record starts its
/// chunk, then `  R-<index>: [<start>, <end>) Size(<size>): <record>`.
pub open spec fn record_lines(chunk_id: ChunkId, index: u64, seg: Segment, rec: Seq<char>) -> Seq<char> {
    (if seg.offset == 0 { chunk_header(chunk_id) } else { Seq::empty() }) + "  R-"@ + zero_padded(
        index as nat,
        5,
    ) + ": ["@ + spec_format_grouped(seg.offset as nat, 9) + ", "@ + spec_format_grouped(
        (seg.offset + seg.size) as nat,
        9,
    ) + ") "@ + seg.spec_size_display() + ": "@ + rec + seq!['\n']
}

/// The dump of a record that could not be read.
pub open spec fn error_line(message: Seq<char>) -> Seq<char> {
    "Error: "@ + message + seq!['\n']
}

/// `n` padded with zeros to at least `width` digits.
fn zero_padded_chars(n: u64, width: usize) -> (r: Vec<char>)
    ensures
        r@ == zero_padded(n as nat, width as nat),
{
    let ds = crate::num::decimal_chars(n);
    let mut out: Vec<char> = Vec::new();
    if ds.len() < width {
        let zeros = width - ds.len();
        let mut i: usize = 0;
        while i < zeros
            invariant
                i <= zeros,
                out@ == Seq::new(i as nat, |j: int| '0'),
            decreases zeros - i,
        {
            out.push('0');
            i = i + 1;
            assert(out@ =~= Seq::new(i as nat, |j: int| '0'));
        }
    }
    let mut i: usize = 0;
    let ghost base = out@;
    while i < ds.len()
        invariant
            i <= ds.len(),
            out@ == base + ds@.subrange(0, i as int),
        decreases ds.len() - i,
    {
        out.push(ds[i]);
        i = i + 1;
        assert(ds@.subrange(0, i as int) == ds@.subrange(0, i - 1 as int).push(ds@[i - 1]));
    }
    assert(ds@.subrange(0, ds.len() as int) == ds@);
    proof {
        if ds.len() >= width {
            assert(base =~= Seq::<char>::empty());
        }
    }
    out
}

/// Write the dump of one record, whose rendering is `rec`.
pub fn write_ok(w: &mut String, chunk_id: ChunkId, in_chunk_record_index: u64, seg: &Segment, rec: &str)
    requires
        seg.offset + seg.size <= u64::MAX,
    ensures
        final(w)@ == old(w)@ + record_lines(chunk_id, in_chunk_record_index, *seg, rec@),
{
    let mut s = String::new();
    if seg.offset == 0 {
        let c = chunk_id.display();
        push_str(&mut s, c.as_str());
        push_char(&mut s, '\n');
    }
    let ghost head = s@;
    assert(head =~= (if seg.offset == 0 { chunk_header(chunk_id) } else { Seq::empty() }));
    push_str(&mut s, "  R-");
    let idx = zero_padded_chars(in_chunk_record_index, 5);
    push_chars(&mut s, &idx);
    push_str(&mut s, ": [");
    let a = crate::num::format_pad9_u64(seg.offset);
    push_str(&mut s, a.as_str());
    push_str(&mut s, ", ");
    let b = crate::num::format_pad9_u64(seg.end());
    push_str(&mut s, b.as_str());
    push_str(&mut s, ") ");
    let z = seg.size_display();
    push_str(&mut s, z.as_str());
    push_str(&mut s, ": ");
    push_str(&mut s, rec);
    push_char(&mut s, '\n');
    assert(s@ == record_lines(chunk_id, in_chunk_record_index, *seg, rec@));
    push_str(w, s.as_str());
}

/// Write the dump of a record rendered with `{:?}`, or of the error that
/// kept it from being read.
pub fn write_record_debug<W: WalTypes>(
    w: &mut String,
    chunk_id: ChunkId,
    in_chunk_record_index: u64,
    res: Result<(Segment, WALRecord<W>), String>,
)
    requires
        res matches Ok((seg, _)) ==> seg.offset + seg.size <= u64::MAX,
    ensures
        match res {
            Ok((seg, rec)) => final(w)@ == old(w)@ + record_lines(
                chunk_id,
                in_chunk_record_index,
                seg,
                WALRecord::<W>::data_debug(rec@),
            ),
            Err(e) => final(w)@ == old(w)@ + error_line(e@),
        },
{
    match res {
        Ok((seg, rec)) => {
            let mut s = String::new();
            rec.write_data_debug(&mut s);
            assert(s@ =~= WALRecord::<W>::data_debug(rec@));
            write_ok(w, chunk_id, in_chunk_record_index, &seg, s.as_str());
        },
        Err(e) => {
            push_str(w, "Error: ");
            push_str(w, e.as_str());
            push_char(w, '\n');
            assert(w@ =~= old(w)@ + error_line(e@));
        },
    }
}

/// Write the dump of a record rendered with `{}` instead of `{:?}`, or of
/// the error that kept it from being read.
pub fn write_record_display<W: WalTypes>(
    w: &mut String,
    chunk_id: ChunkId,
    in_chunk_record_index: u64,
    res: Result<(Segment, WALRecord<W>), String>,
)
    where
        W::Action: DataDisplay,
        W::Checkpoint: DataDisplay,
    requires
        res matches Ok((seg, _)) ==> seg.offset + seg.size <= u64::MAX,
    ensures
        match res {
            Ok((seg, rec)) => final(w)@ == old(w)@ + record_lines(
                chunk_id,
                in_chunk_record_index,
                seg,
                WALRecord::<W>::data_display(rec@),
            ),
            Err(e) => final(w)@ == old(w)@ + error_line(e@),
        },
{
    match res {
        Ok((seg, rec)) => {
            let mut s = String::new();
            rec.write_data_display(&mut s);
            assert(s@ =~= WALRecord::<W>::data_display(rec@));
            write_ok(w, chunk_id, in_chunk_record_index, &seg, s.as_str());
        },
        Err(e) => {
            push_str(w, "Error: ");
            push_str(w, e.as_str());
            push_char(w, '\n');
            assert(w@ =~= old(w)@ + error_line(e@));
        },
    }
}

/// Receives the records of a dump one by one.
pub trait RecordWriter<W: WalTypes> {
    /// Take the record at `in_chunk_record_index` in chunk `chunk_id`, or the
    /// error that kept it from being read.
    fn write_record(
        &mut self,
        chunk_id: ChunkId,
        in_chunk_record_index: u64,
        res: Result<(Segment, WALRecord<W>), String>,
    ) -> Result<(), String>;
}

/// Dump entries one after another.
pub open spec fn concat_lines(items: Seq<Seq<char>>) -> Seq<char>
    decreases items.len(),
{
    if items.len() == 0 {
        Seq::empty()
    } else {
        concat_lines(items.drop_last()) + items.last()
    }
}

proof fn lemma_concat_lines_push(items: Seq<Seq<char>>, x: Seq<char>)
    ensures
        concat_lines(items.push(x)) == concat_lines(items) + x,
{
    assert(items.push(x).drop_last() =~= items);
}

/// The dump of one record rendered with `{:?}`, or of an error.
pub open spec fn is_debug_entry<W: WalTypes>(s: Seq<char>) -> bool {
    ||| exists|c: ChunkId, i: u64, seg: Segment, v: WALRecordView<W>|
        #![trigger record_lines(c, i, seg, WALRecord::<W>::data_debug(v))]
        s == record_lines(c, i, seg, WALRecord::<W>::data_debug(v))
    ||| exists|m: Seq<char>| #![trigger error_line(m)] s == error_line(m)
}

/// The dump of one record rendered with `{}`, or of an error.
pub open spec fn is_display_entry<W: WalTypes>(s: Seq<char>) -> bool
    where
        W::Action: DataDisplay,
        W::Checkpoint: DataDisplay,
{
    ||| exists|c: ChunkId, i: u64, seg: Segment, v: WALRecordView<W>|
        #![trigger record_lines(c, i, seg, WALRecord::<W>::data_display(v))]
        s == record_lines(c, i, seg, WALRecord::<W>::data_display(v))
    ||| exists|m: Seq<char>| #![trigger error_line(m)] s == error_line(m)
}

/// Text made of dump entries of records rendered with `{:?}`.
pub open spec fn is_debug_dump<W: WalTypes>(s: Seq<char>) -> bool {
    exists|items: Seq<Seq<char>>|
        #![trigger concat_lines(items)]
        (forall|k: int| 0 <= k < items.len() ==> is_debug_entry::<W>(#[trigger] items[k])) && s == concat_lines(
            items,
        )
}

/// Text made of dump entries of records rendered with `{}`.
pub open spec fn is_display_dump<W: WalTypes>(s: Seq<char>) -> bool
    where
        W::Action: DataDisplay,
        W::Checkpoint: DataDisplay,
{
    exists|items: Seq<Seq<char>>|
        #![trigger concat_lines(items)]
        (forall|k: int| 0 <= k < items.len() ==> is_display_entry::<W>(#[trigger] items[k])) && s == concat_lines(
            items,
        )
}

proof fn lemma_empty_dump<W: WalTypes>()
    ensures
        is_debug_dump::<W>(Seq::empty()),
{
    let items = Seq::<Seq<char>>::empty();
    assert(concat_lines(items) == Seq::<char>::empty());
}

proof fn lemma_empty_display_dump<W: WalTypes>()
    where
        W::Action: DataDisplay,
        W::Checkpoint: DataDisplay,
    ensures
        is_display_dump::<W>(Seq::empty()),
{
    let items = Seq::<Seq<char>>::empty();
    assert(concat_lines(items) == Seq::<char>::empty());
}

/// A record writer that renders each record with `{:?}` into a string.
pub struct DebugLines<W: WalTypes> {
    out: String,
    _p: std::marker::PhantomData<W>,
}

impl<W: WalTypes> DebugLines<W> {
    /// What is written holds only dump entries.
    #[verifier::type_invariant]
    spec fn inv(self) -> bool {
        is_debug_dump::<W>(self.out@)
    }

    /// The text written so far.
    pub closed spec fn text(self) -> Seq<char> {
        self.out@
    }

    /// A writer with nothing written yet.
    pub fn new() -> (r: Self)
        ensures
            r.text() == Seq::<char>::empty(),
    {
        proof {
            lemma_empty_dump::<W>();
        }
        DebugLines { out: String::new(), _p: std::marker::PhantomData }
    }

    /// What has been written.
    pub fn out(&self) -> (r: &String)
        ensures
            r@ == self.text(),
            is_debug_dump::<W>(self.text()),
    {
        proof {
            use_type_invariant(self);
        }
        &self.out
    }
}

impl<W: WalTypes> RecordWriter<W> for DebugLines<W> {
    /// Appends the record's lines, rendered with `{:?}`; a record whose span
    /// ends past the largest offset is refused and nothing is appended.
    fn write_record(
        &mut self,
        chunk_id: ChunkId,
        in_chunk_record_index: u64,
        res: Result<(Segment, WALRecord<W>), String>,
    ) -> (r: Result<(), String>)
        ensures
            match res {
                Ok((seg, rec)) => if seg.offset + seg.size <= u64::MAX {
                    r is Ok && final(self).text() == old(self).text() + record_lines(
                        chunk_id,
                        in_chunk_record_index,
                        seg,
                        WALRecord::<W>::data_debug(rec@),
                    )
                } else {
                    r is Err && final(self).text() == old(self).text()
                },
                Err(e) => r is Ok && final(self).text() == old(self).text() + error_line(e@),
            },
    {
        proof {
            use_type_invariant(&*self);
        }
        if let Ok((seg, _)) = &res {
            if seg.offset > u64::MAX - seg.size {
                return Err(String::from_str("record segment ends past the largest offset"));
            }
        }
        let ghost res0 = res;
        let mut s = String::new();
        write_record_debug(&mut s, chunk_id, in_chunk_record_index, res);
        proof {
            let items = choose|items: Seq<Seq<char>>|
                (forall|k: int| 0 <= k < items.len() ==> is_debug_entry::<W>(#[trigger] items[k])) && self.out@
                    == concat_lines(items);
            match res0 {
                Ok((seg, rec)) => {
                    assert(s@ =~= record_lines(chunk_id, in_chunk_record_index, seg, WALRecord::<W>::data_debug(rec@)));
                },
                Err(e) => {
                    assert(s@ =~= error_line(e@));
                },
            }
            assert(is_debug_entry::<W>(s@));
            lemma_concat_lines_push(items, s@);
            let n = items.push(s@);
            assert(forall|k: int| 0 <= k < n.len() ==> is_debug_entry::<W>(#[trigger] n[k])) by {
                assert forall|k: int| 0 <= k < n.len() implies is_debug_entry::<W>(#[trigger] n[k]) by {
                    if k < items.len() {
                        assert(n[k] == items[k]);
                    }
                }
            }
            assert(is_debug_dump::<W>(self.out@ + s@));
        }
        let mut o = String::new();
        proof {
            lemma_empty_dump::<W>();
        }
        std::mem::swap(&mut o, &mut self.out);
        push_str(&mut o, s.as_str());
        self.out = o;
        Ok(())
    }
}

/// A record writer that renders each record with `{}` into a string.
pub struct DisplayLines<W: WalTypes> where W::Action: DataDisplay, W::Checkpoint: DataDisplay {
    out: String,
    _p: std::marker::PhantomData<W>,
}

impl<W: WalTypes> DisplayLines<W> where W::Action: DataDisplay, W::Checkpoint: DataDisplay {
    /// What is written holds only dump entries.
    #[verifier::type_invariant]
    spec fn inv(self) -> bool {
        is_display_dump::<W>(self.out@)
    }

    /// The text written so far.
    pub closed spec fn text(self) -> Seq<char> {
        self.out@
    }

    /// A writer with nothing written yet.
    pub fn new() -> (r: Self)
        ensures
            r.text() == Seq::<char>::empty(),
    {
        proof {
            lemma_empty_display_dump::<W>();
        }
        DisplayLines { out: String::new(), _p: std::marker::PhantomData }
    }

    /// What has been written.
    pub fn out(&self) -> (r: &String)
        ensures
            r@ == self.text(),
            is_display_dump::<W>(self.text()),
    {
        proof {
            use_type_invariant(self);
        }
        &self.out
    }
}

impl<W: WalTypes> RecordWriter<W> for DisplayLines<W> where W::Action: DataDisplay, W::Checkpoint: DataDisplay {
    /// Appends the record's lines, rendered with `{}`; a record whose span
    /// ends past the largest offset is refused and nothing is appended.
    fn write_record(
        &mut self,
        chunk_id: ChunkId,
        in_chunk_record_index: u64,
        res: Result<(Segment, WALRecord<W>), String>,
    ) -> (r: Result<(), String>)
        ensures
            match res {
                Ok((seg, rec)) => if seg.offset + seg.size <= u64::MAX {
                    r is Ok && final(self).text() == old(self).text() + record_lines(
                        chunk_id,
                        in_chunk_record_index,
                        seg,
                        WALRecord::<W>::data_display(rec@),
                    )
                } else {
                    r is Err && final(self).text() == old(self).text()
                },
                Err(e) => r is Ok && final(self).text() == old(self).text() + error_line(e@),
            },
    {
        proof {
            use_type_invariant(&*self);
        }
        if let Ok((seg, _)) = &res {
            if seg.offset > u64::MAX - seg.size {
                return Err(String::from_str("record segment ends past the largest offset"));
            }
        }
        let ghost res0 = res;
        let mut s = String::new();
        write_record_display(&mut s, chunk_id, in_chunk_record_index, res);
        proof {
            let items = choose|items: Seq<Seq<char>>|
                (forall|k: int| 0 <= k < items.len() ==> is_display_entry::<W>(#[trigger] items[k])) && self.out@
                    == concat_lines(items);
            match res0 {
                Ok((seg, rec)) => {
                    assert(s@ =~= record_lines(chunk_id, in_chunk_record_index, seg, WALRecord::<W>::data_display(rec@)));
                },
                Err(e) => {
                    assert(s@ =~= error_line(e@));
                },
            }
            assert(is_display_entry::<W>(s@));
            lemma_concat_lines_push(items, s@);
            let n = items.push(s@);
            assert(forall|k: int| 0 <= k < n.len() ==> is_display_entry::<W>(#[trigger] n[k])) by {
                assert forall|k: int| 0 <= k < n.len() implies is_display_entry::<W>(#[trigger] n[k]) by {
                    if k < items.len() {
                        assert(n[k] == items[k]);
                    }
                }
            }
            assert(is_display_dump::<W>(self.out@ + s@));
        }
        let mut o = String::new();
        proof {
            lemma_empty_display_dump::<W>();
        }
        std::mem::swap(&mut o, &mut self.out);
        push_str(&mut o, s.as_str());
        self.out = o;
        Ok(())
    }
}

/// A source of WAL records that can be dumped in human-readable form.
pub trait DumpApi<W: WalTypes> {
    /// Hand every record, in order, to `writer`.
    fn write_with<D: RecordWriter<W>>(&self, writer: &mut D) -> Result<(), String>;

    /// The dump as a string: a `RaftLog:` line, then each record rendered
    /// with `{:?}`. Whether it succeeds is up to [`Self::write_with`].
    fn write_to_string(&self) -> (r: Result<String, String>)
        ensures
            r matches Ok(s) ==> exists|t: Seq<char>| is_debug_dump::<W>(t) && s@ == "RaftLog:\n"@ + t,
    {
        let mut out = String::new();
        self.write(&mut out)?;
        Ok(out)
    }

    /// Append the dump to `w`: a `RaftLog:` line, then each record that
    /// [`Self::write_with`] hands over, rendered with `{:?}`, also when it
    /// fails part way.
    fn write(&self, w: &mut String) -> (r: Result<(), String>)
        ensures
            exists|t: Seq<char>| is_debug_dump::<W>(t) && final(w)@ == old(w)@ + "RaftLog:\n"@ + t,
    {
        push_str(w, "RaftLog:\n");
        let mut lines = DebugLines::<W>::new();
        let r = self.write_with(&mut lines);
        let out = lines.out();
        push_str(w, out.as_str());
        r
    }

    /// Append the dump to `w`: a `RaftLog:` line, then each record that
    /// [`Self::write_with`] hands over, rendered with `{}`, also when it
    /// fails part way.
    fn write_display(&self, w: &mut String) -> (r: Result<(), String>)
        where
            W::Action: DataDisplay,
            W::Checkpoint: DataDisplay,
        ensures
            exists|t: Seq<char>| is_display_dump::<W>(t) && final(w)@ == old(w)@ + "RaftLog:\n"@ + t,
    {
        push_str(w, "RaftLog:\n");
        let mut lines = DisplayLines::<W>::new();
        let r = self.write_with(&mut lines);
        let out = lines.out();
        push_str(w, out.as_str());
        r
    }
}

} // verus!
