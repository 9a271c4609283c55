//! The decisions of the flush worker, which writes and syncs WAL data in a
//! thread of its own.
//!
//! The worker receives numbered requests. Writes are gathered into a
//! [`WriteBatch`] until a request of another kind arrives or the batch is
//! full; the batch is written with vectored writes, which a
//! [`VectoredCursor`] follows through short writes, and synced when any of
//! its writes asks for it. The files to sync are kept in a [`FileQueue`].
//!
//! Receiving, writing, syncing and the clock are the caller's.

use vstd::prelude::*;

verus! {

/// Data to write, up to which global offset it reaches, whether to sync it,
/// and who to tell when it is done.
pub struct WriteRequest<C> {
    pub upto_offset: u64,
    pub data: Vec<u8>,
    pub sync: bool,
    pub callback: Option<C>,
}

/// A request to the flush worker. `F` is a file to sync, `S` where to send
/// flush statistics.
pub enum WorkerRequest<C, F, S> {
    /// A new chunk file that will need to be synced.
    AppendFile(F),
    /// Remove chunk files whose logs are all purged.
    RemoveChunks { chunk_paths: Vec<String> },
    /// Write data, and maybe sync every file.
    Write(WriteRequest<C>),
    /// Report the offset and sync id of every file.
    GetFlushStat { tx: S },
}

/// A request with its sequence number and when it was queued (`Q`).
pub struct SeqRequest<C, F, S, Q> {
    pub seq: u64,
    pub queued_at: Q,
    pub req: WorkerRequest<C, F, S>,
}

/// A write request with when it was queued.
pub struct QueuedWrite<C, Q> {
    pub queued_at: Q,
    pub write: WriteRequest<C>,
}

/// Writes gathered to be written together, and the request of another kind
/// that ended the gathering, if one did.
pub struct WriteBatch<C, F, S, Q> {
    pub writes: Vec<QueuedWrite<C, Q>>,
    pub max_seq: u64,
    pub last_non_flush: Option<SeqRequest<C, F, S, Q>>,
    pub max_size: usize,
}

impl<C, F, S, Q> WriteBatch<C, F, S, Q> {
    /// An empty batch that holds at most `max_size` writes.
    pub fn new(max_size: usize) -> (r: Self)
        ensures
            r.writes@.len() == 0,
            r.max_seq == 0,
            r.last_non_flush is None,
            r.max_size == max_size,
    {
        WriteBatch { writes: Vec::new(), max_seq: 0, last_non_flush: None, max_size }
    }

    /// Adds a request: a write joins the batch and `true` is returned; any
    /// other request is kept as the one that ends the batch, and `false` is
    /// returned.
    pub fn push_seq_request(&mut self, seq_req: SeqRequest<C, F, S, Q>) -> (r: bool)
        ensures
            r == seq_req.req is Write,
            r ==> final(self).writes@ == old(self).writes@.push(
                QueuedWrite { queued_at: seq_req.queued_at, write: seq_req.req->Write_0 },
            ) && final(self).max_seq == (if seq_req.seq > old(self).max_seq {
                seq_req.seq
            } else {
                old(self).max_seq
            }) && final(self).last_non_flush == old(self).last_non_flush,
            !r ==> final(self).writes@ == old(self).writes@ && final(self).max_seq == old(self).max_seq
                && final(self).last_non_flush == Some(seq_req),
            final(self).max_size == old(self).max_size,
    {
        let SeqRequest { seq, queued_at, req } = seq_req;
        match req {
            WorkerRequest::Write(write) => {
                if seq > self.max_seq {
                    self.max_seq = seq;
                }
                self.writes.push(QueuedWrite { queued_at, write });
                true
            },
            req => {
                self.last_non_flush = Some(SeqRequest { seq, queued_at, req });
                false
            },
        }
    }

    /// Whether the batch may gather another request: nothing has ended it
    /// and it is not full.
    pub fn can_take_more(&self) -> (r: bool)
        ensures
            r == (self.last_non_flush is None && self.writes@.len() < self.max_size),
    {
        self.last_non_flush.is_none() && self.writes.len() < self.max_size
    }

    /// Whether any write of the batch asks for a sync.
    pub fn need_sync(&self) -> (r: bool)
        ensures
            r == exists|i: int| 0 <= i < self.writes@.len() && #[trigger] self.writes@[i].write.sync,
    {
        let mut i: usize = 0;
        while i < self.writes.len()
            invariant
                i <= self.writes@.len(),
                forall|k: int| 0 <= k < i ==> !#[trigger] self.writes@[k].write.sync,
            decreases self.writes@.len() - i,
        {
            if self.writes[i].write.sync {
                return true;
            }
            i = i + 1;
        }
        false
    }

    /// The offset a sync of the batch makes durable: that of its last write,
    /// when any write asks for a sync.
    pub fn sync_upto(&self) -> (r: Option<u64>)
        ensures
            r matches Some(o) ==> self.writes@.len() > 0 && o == self.writes@.last().write.upto_offset,
            r is Some == exists|i: int| 0 <= i < self.writes@.len() && #[trigger] self.writes@[i].write.sync,
    {
        if self.need_sync() {
            let last = self.writes.len() - 1;
            Some(self.writes[last].write.upto_offset)
        } else {
            None
        }
    }

    /// The writes in `from..to` that carry data, in order: the slices of
    /// one vectored write.
    pub fn nonempty_writes(&self, from: usize, to: usize) -> (r: Vec<usize>)
        requires
            from <= to <= self.writes@.len(),
        ensures
            forall|j: int, k: int| 0 <= j < k < r@.len() ==> r@[j] < r@[k],
            forall|j: int|
                0 <= j < r@.len() ==> from <= #[trigger] r@[j] < to && self.writes@[r@[j] as int].write.data@.len() > 0,
            forall|i: int|
                from <= i < to && self.writes@[i].write.data@.len() > 0 ==> #[trigger] r@.contains(i as usize),
    {
        let mut r: Vec<usize> = Vec::new();
        let mut i = from;
        while i < to
            invariant
                from <= i <= to <= self.writes@.len(),
                forall|j: int, k: int| 0 <= j < k < r@.len() ==> r@[j] < r@[k],
                forall|j: int|
                    0 <= j < r@.len() ==> from <= #[trigger] r@[j] < i && self.writes@[r@[j] as int].write.data@.len()
                        > 0,
                forall|k: int|
                    from <= k < i && self.writes@[k].write.data@.len() > 0 ==> #[trigger] r@.contains(k as usize),
            decreases to - i,
        {
            if self.writes[i].write.data.len() > 0 {
                let ghost old_r = r@;
                r.push(i);
                proof {
                    assert forall|k: int|
                        from <= k < i + 1 && self.writes@[k].write.data@.len() > 0 implies #[trigger] r@.contains(
                        k as usize,
                    ) by {
                        if k < i {
                            assert(old_r.contains(k as usize));
                            let w = choose|w: int| 0 <= w < old_r.len() && old_r[w] == k as usize;
                            assert(r@[w] == k as usize);
                        } else {
                            assert(r@[r@.len() - 1] == k as usize);
                        }
                    }
                }
            }
            i = i + 1;
        }
        r
    }

    /// The sequence number the worker has completed once the batch and the
    /// request that ended it are done.
    pub fn done_seq(&self) -> (r: u64)
        ensures
            r == (match self.last_non_flush {
                Some(nf) => if nf.seq > self.max_seq { nf.seq } else { self.max_seq },
                None => self.max_seq,
            }),
    {
        match &self.last_non_flush {
            Some(nf) => if nf.seq > self.max_seq { nf.seq } else { self.max_seq },
            None => self.max_seq,
        }
    }

    /// Ends the batch once it is written and synced. Gives the callbacks to
    /// tell of the outcome, each once and in the order of the writes; the
    /// request that ended the batch, to handle next; and the sequence number
    /// that is then done.
    pub fn finish(self) -> (r: (Vec<C>, Option<WorkerRequest<C, F, S>>, u64))
        ensures
            r.0@ == callbacks_of(self.writes@),
            r.1 == (match self.last_non_flush {
                Some(nf) => Some(nf.req),
                None => None,
            }),
            r.2 == (match self.last_non_flush {
                Some(nf) => if nf.seq > self.max_seq { nf.seq } else { self.max_seq },
                None => self.max_seq,
            }),
    {
        let done = self.done_seq();
        let WriteBatch { writes, last_non_flush, .. } = self;
        let mut writes = writes;
        let mut cbs: Vec<C> = Vec::new();
        let ghost all = writes@;
        proof {
            assert(cbs@ + callbacks_of(writes@) =~= callbacks_of(all));
        }
        while writes.len() > 0
            invariant
                callbacks_of(all) == cbs@ + callbacks_of(writes@),
            decreases writes@.len(),
        {
            let ghost before = writes@;
            let ghost cbs0 = cbs@;
            let w = writes.remove(0);
            proof {
                assert(writes@ =~= before.drop_first());
            }
            match w.write.callback {
                Some(c) => {
                    cbs.push(c);
                    proof {
                        assert(cbs0 + callbacks_of(before) =~= cbs@ + callbacks_of(writes@));
                    }
                },
                None => {
                    proof {
                        assert(cbs0 + callbacks_of(before) =~= cbs@ + callbacks_of(writes@));
                    }
                },
            }
        }
        proof {
            assert(cbs@ + callbacks_of(writes@) =~= cbs@);
        }
        let req = match last_non_flush {
            Some(nf) => Some(nf.req),
            None => None,
        };
        (cbs, req, done)
    }
}

/// The callbacks of `writes`, in order: one for each write that has one.
pub open spec fn callbacks_of<C, Q>(writes: Seq<QueuedWrite<C, Q>>) -> Seq<C>
    decreases writes.len(),
{
    if writes.len() == 0 {
        Seq::empty()
    } else {
        (match writes[0].write.callback {
            Some(c) => seq![c],
            None => Seq::empty(),
        }) + callbacks_of(writes.drop_first())
    }
}

/// The bytes of `lens` from buffer `start` on.
pub open spec fn bytes_from(lens: Seq<usize>, start: int) -> int
    decreases lens.len() - start,
{
    if start >= lens.len() || start < 0 {
        0
    } else {
        lens[start] + bytes_from(lens, start + 1)
    }
}

proof fn lemma_bytes_from_nonneg(lens: Seq<usize>, start: int)
    ensures
        bytes_from(lens, start) >= 0,
    decreases lens.len() - start,
{
    if 0 <= start < lens.len() {
        lemma_bytes_from_nonneg(lens, start + 1);
    }
}

/// Where a vectored write of several buffers has got to: the first buffer
/// not completely written and how much of it is.
#[derive(Debug, Clone, Copy, PartialEq, Eq)]
pub struct VectoredCursor {
    pub start: usize,
    pub offset: usize,
}

impl VectoredCursor {
    /// The bytes not yet written of buffers whose lengths are `lens`.
    pub open spec fn remaining(self, lens: Seq<usize>) -> int {
        bytes_from(lens, self.start as int) - self.offset
    }

    /// The cursor is at the end, or inside a buffer.
    pub open spec fn wf(self, lens: Seq<usize>) -> bool {
        &&& self.start <= lens.len()
        &&& self.start < lens.len() ==> self.offset < lens[self.start as int]
        &&& self.start == lens.len() ==> self.offset == 0
    }

    /// At the start of the first buffer.
    pub fn new() -> (r: Self)
        ensures
            r.start == 0 && r.offset == 0,
    {
        VectoredCursor { start: 0, offset: 0 }
    }

    /// Whether every buffer is written.
    pub fn is_done(&self, lens: &Vec<usize>) -> (r: bool)
        ensures
            r == (self.start >= lens@.len()),
    {
        self.start >= lens.len()
    }

    /// Moves past `written` more bytes, as a write that took only part of
    /// the buffers reported.
    pub fn advance(&mut self, lens: &Vec<usize>, written: usize)
        requires
            old(self).wf(lens@),
            forall|i: int| 0 <= i < lens@.len() ==> lens@[i] > 0,
            written <= old(self).remaining(lens@),
        ensures
            final(self).wf(lens@),
            final(self).remaining(lens@) == old(self).remaining(lens@) - written,
            final(self).start >= old(self).start,
    {
        let mut written = written;
        let ghost total = self.remaining(lens@);
        let ghost orig = written;
        while written > 0
            invariant
                self.wf(lens@),
                forall|i: int| 0 <= i < lens@.len() ==> lens@[i] > 0,
                written <= self.remaining(lens@),
                self.remaining(lens@) - written == total - orig,
                self.start >= old(self).start,
                self.start == lens@.len() ==> written == 0,
            ensures
                written == 0,
            decreases lens@.len() - self.start, written,
        {
            let n = lens.len();
            assert(self.start < n);
            let len = lens[self.start] - self.offset;
            if written < len {
                self.offset = self.offset + written;
                written = 0;
            } else {
                written = written - len;
                proof {
                    lemma_bytes_from_nonneg(lens@, self.start + 1);
                }
                self.start = self.start + 1;
                self.offset = 0;
                if self.start == lens.len() {
                    break;
                }
            }
        }
    }
}

/// A file the flush worker syncs: where its chunk starts, the file itself,
/// and the offset its last sync made durable.
pub struct FileEntry<F> {
    pub starting_offset: u64,
    pub f: F,
    pub sync_id: u64,
}

impl<F> FileEntry<F> {
    pub fn new(starting_offset: u64, f: F) -> (r: Self)
        ensures
            r.starting_offset == starting_offset,
            r.f == f,
            r.sync_id == 0,
    {
        FileEntry { starting_offset, f, sync_id: 0 }
    }
}

/// The offset and sync id of a file of the flush worker, and its inode.
#[derive(Debug, Clone, PartialEq, Eq)]
pub struct FlushStat {
    pub starting_offset: u64,
    pub sync_id: u64,
    pub ino: u64,
}

impl FlushStat {
    pub fn offset_sync_id(&self) -> (r: (u64, u64))
        ensures
            r == (self.starting_offset, self.sync_id),
    {
        (self.starting_offset, self.sync_id)
    }
}

/// The files the flush worker syncs, oldest first. All but the newest are
/// complete and only wait for their last sync.
pub struct FileQueue<F> {
    pub files: Vec<FileEntry<F>>,
}

impl<F> FileQueue<F> {
    pub fn new(first: FileEntry<F>) -> (r: Self)
        ensures
            r.files@ == seq![first],
    {
        FileQueue { files: vec![first] }
    }

    /// A new chunk file, now the newest.
    pub fn append_file(&mut self, entry: FileEntry<F>)
        ensures
            final(self).files@ == old(self).files@.push(entry),
    {
        self.files.push(entry);
    }

    /// Takes out the oldest file when a newer one exists: it is synced once
    /// more and then no longer tracked.
    pub fn pop_older(&mut self) -> (r: Option<FileEntry<F>>)
        ensures
            old(self).files@.len() > 1 ==> r == Some(old(self).files@[0]) && final(self).files@ == old(
                self,
            ).files@.drop_first(),
            old(self).files@.len() <= 1 ==> r is None && final(self).files@ == old(self).files@,
    {
        if self.files.len() > 1 {
            Some(self.files.remove(0))
        } else {
            None
        }
    }

    /// Notes that a sync made the only remaining file durable up to `offset`.
    pub fn mark_synced(&mut self, offset: u64)
        requires
            old(self).files@.len() == 1,
        ensures
            final(self).files@.len() == 1,
            final(self).files@[0] == (FileEntry { sync_id: offset, ..old(self).files@[0] }),
    {
        let mut e = self.files.remove(0);
        e.sync_id = offset;
        self.files.push(e);
        assert(self.files@ =~= seq![FileEntry { sync_id: offset, ..old(self).files@[0] }]);
    }

    /// The statistics of every file, given the inode of each.
    pub fn flush_stats(&self, inos: &Vec<u64>) -> (r: Vec<FlushStat>)
        requires
            inos@.len() == self.files@.len(),
        ensures
            r@.len() == self.files@.len(),
            forall|i: int|
                0 <= i < r@.len() ==> #[trigger] r@[i] == (FlushStat {
                    starting_offset: self.files@[i].starting_offset,
                    sync_id: self.files@[i].sync_id,
                    ino: inos@[i],
                }),
    {
        let mut r: Vec<FlushStat> = Vec::new();
        let mut i: usize = 0;
        while i < self.files.len()
            invariant
                i <= self.files@.len(),
                inos@.len() == self.files@.len(),
                r@.len() == i,
                forall|k: int|
                    0 <= k < i ==> #[trigger] r@[k] == (FlushStat {
                        starting_offset: self.files@[k].starting_offset,
                        sync_id: self.files@[k].sync_id,
                        ino: inos@[k],
                    }),
            decreases self.files@.len() - i,
        {
            let f = &self.files[i];
            r.push(FlushStat { starting_offset: f.starting_offset, sync_id: f.sync_id, ino: inos[i] });
            i = i + 1;
        }
        r
    }
}

} // verus!
