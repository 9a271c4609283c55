//! Batching and IO metrics of the flush worker.
//!
//! A [`BatchMetrics`] is filled while one write batch is processed; the
//! [`FlushCounters`] add every finished batch into running totals and maxima,
//! and [`FlushCounters::snapshot`] hands them out as a [`FlushMetrics`].
//!
//! Times come in as microseconds measured by the caller, which owns the clock.

use vstd::prelude::*;

verus! {

/// `a + b` modulo 2^64, as a counter that wraps around does it.
pub open spec fn wrap_add(a: u64, b: u64) -> u64 {
    if a + b > u64::MAX {
        (a + b - 0x1_0000_0000_0000_0000) as u64
    } else {
        (a + b) as u64
    }
}

pub open spec fn max_u64(a: u64, b: u64) -> u64 {
    if a >= b { a } else { b }
}

/// Converts a duration in microseconds to `u64`, saturating at `u64::MAX`.
pub fn duration_micros(micros: u128) -> (r: u64)
    ensures
        r == (if micros > u64::MAX as u128 { u64::MAX as int } else { micros as int }),
{
    if micros > u64::MAX as u128 {
        u64::MAX
    } else {
        micros as u64
    }
}

/// Raises `current` to `value` when `value` is larger.
pub fn update_max(current: &mut u64, value: u64)
    ensures
        *final(current) == max_u64(*old(current), value),
{
    if value > *current {
        *current = value;
    }
}

/// What one write batch of the flush worker did and how long it took.
#[derive(Debug, Clone, Copy, PartialEq, Eq, Default)]
pub struct BatchMetrics {
    pub batch_size: u64,
    pub sync_batch: bool,
    pub write_bytes: u64,
    pub callback_count: u64,
    pub group_wait_us: u64,
    pub queued_wait_us: u64,
    pub queued_wait_max_us: u64,
    pub write_us: u64,
    pub sync_us: u64,
    pub batch_us: u64,
}

impl BatchMetrics {
    /// Metrics of a batch of `batch_size` writes, gathered while waiting
    /// `group_wait_us` for more writes to join it.
    pub fn new(batch_size: usize, group_wait_us: u64) -> (r: Self)
        ensures
            r == (BatchMetrics {
                batch_size: batch_size as u64,
                sync_batch: false,
                write_bytes: 0,
                callback_count: 0,
                group_wait_us,
                queued_wait_us: 0,
                queued_wait_max_us: 0,
                write_us: 0,
                sync_us: 0,
                batch_us: 0,
            }),
    {
        BatchMetrics {
            batch_size: batch_size as u64,
            sync_batch: false,
            write_bytes: 0,
            callback_count: 0,
            group_wait_us,
            queued_wait_us: 0,
            queued_wait_max_us: 0,
            write_us: 0,
            sync_us: 0,
            batch_us: 0,
        }
    }

    /// Whether [`Self::record_queued_write`] can account a write that waited
    /// `wait_us` and carries `data_len` bytes and maybe a callback without
    /// its sums overflowing.
    pub fn fits_queued_write(&self, wait_us: u64, data_len: usize, has_callback: bool) -> (r: bool)
        ensures
            r == (self.queued_wait_us + wait_us <= u64::MAX && self.write_bytes + data_len <= u64::MAX && (
            has_callback ==> self.callback_count + 1 <= u64::MAX)),
    {
        wait_us <= u64::MAX - self.queued_wait_us && (data_len as u64) <= u64::MAX - self.write_bytes
            && (!has_callback || self.callback_count < u64::MAX)
    }

    /// Accounts one queued write: it waited `wait_us` in the queue before the
    /// batch started, carries `data_len` bytes and maybe a callback.
    pub fn record_queued_write(&mut self, wait_us: u64, data_len: usize, has_callback: bool)
        requires
            old(self).queued_wait_us + wait_us <= u64::MAX,
            old(self).write_bytes + data_len <= u64::MAX,
            has_callback ==> old(self).callback_count + 1 <= u64::MAX,
        ensures
            *final(self) == (BatchMetrics {
                queued_wait_us: (old(self).queued_wait_us + wait_us) as u64,
                queued_wait_max_us: max_u64(old(self).queued_wait_max_us, wait_us),
                write_bytes: (old(self).write_bytes + data_len) as u64,
                callback_count: if has_callback {
                    (old(self).callback_count + 1) as u64
                } else {
                    old(self).callback_count
                },
                ..*old(self)
            }),
    {
        self.queued_wait_us = self.queued_wait_us + wait_us;
        if wait_us > self.queued_wait_max_us {
            self.queued_wait_max_us = wait_us;
        }
        self.write_bytes = self.write_bytes + data_len as u64;
        if has_callback {
            self.callback_count = self.callback_count + 1;
        }
    }

    pub fn record_write_time(&mut self, write_us: u64)
        ensures
            *final(self) == (BatchMetrics { write_us, ..*old(self) }),
    {
        self.write_us = write_us;
    }

    /// Marks the batch as one that synced, taking `sync_us`.
    pub fn record_sync_time(&mut self, sync_us: u64)
        ensures
            *final(self) == (BatchMetrics { sync_batch: true, sync_us, ..*old(self) }),
    {
        self.sync_batch = true;
        self.sync_us = sync_us;
    }

    pub fn record_batch_time(&mut self, batch_us: u64)
        ensures
            *final(self) == (BatchMetrics { batch_us, ..*old(self) }),
    {
        self.batch_us = batch_us;
    }
}

/// Aggregated flush worker metrics.
#[derive(Debug, Clone, Copy, PartialEq, Eq, Default)]
pub struct FlushMetrics {
    pub batch_count: u64,
    pub sync_batch_count: u64,
    pub write_request_count: u64,
    pub write_bytes: u64,
    pub callback_count: u64,
    pub group_wait_count: u64,
    pub group_wait_us: u64,
    pub group_wait_max_us: u64,
    pub queued_wait_us: u64,
    pub queued_wait_max_us: u64,
    pub write_us: u64,
    pub write_max_us: u64,
    pub sync_us: u64,
    pub sync_max_us: u64,
    pub batch_us: u64,
    pub batch_max_us: u64,
    pub batch_size_max: u64,
    pub batch_bytes_max: u64,
    pub last_batch_size: u64,
    pub last_batch_bytes: u64,
    pub last_callback_count: u64,
    pub last_sync_us: u64,
    pub last_queued_wait_max_us: u64,
}

/// The metrics once batch `b` is added to `t`: sums wrap around as the
/// counters do, maxima grow, the `last_*` fields describe `b`. Group waits
/// count only when there was one, sync times only when the batch synced
/// for a positive time.
pub open spec fn with_batch(t: FlushMetrics, b: BatchMetrics) -> FlushMetrics {
    let waited = b.group_wait_us > 0;
    let synced = b.sync_us > 0;
    FlushMetrics {
        batch_count: wrap_add(t.batch_count, 1),
        sync_batch_count: if b.sync_batch { wrap_add(t.sync_batch_count, 1) } else { t.sync_batch_count },
        write_request_count: wrap_add(t.write_request_count, b.batch_size),
        write_bytes: wrap_add(t.write_bytes, b.write_bytes),
        callback_count: wrap_add(t.callback_count, b.callback_count),
        group_wait_count: if waited { wrap_add(t.group_wait_count, 1) } else { t.group_wait_count },
        group_wait_us: if waited { wrap_add(t.group_wait_us, b.group_wait_us) } else { t.group_wait_us },
        group_wait_max_us: if waited {
            max_u64(t.group_wait_max_us, b.group_wait_us)
        } else {
            t.group_wait_max_us
        },
        queued_wait_us: wrap_add(t.queued_wait_us, b.queued_wait_us),
        queued_wait_max_us: max_u64(t.queued_wait_max_us, b.queued_wait_max_us),
        write_us: wrap_add(t.write_us, b.write_us),
        write_max_us: max_u64(t.write_max_us, b.write_us),
        sync_us: if synced { wrap_add(t.sync_us, b.sync_us) } else { t.sync_us },
        sync_max_us: if synced { max_u64(t.sync_max_us, b.sync_us) } else { t.sync_max_us },
        batch_us: wrap_add(t.batch_us, b.batch_us),
        batch_max_us: max_u64(t.batch_max_us, b.batch_us),
        batch_size_max: max_u64(t.batch_size_max, b.batch_size),
        batch_bytes_max: max_u64(t.batch_bytes_max, b.write_bytes),
        last_batch_size: b.batch_size,
        last_batch_bytes: b.write_bytes,
        last_callback_count: b.callback_count,
        last_sync_us: b.sync_us,
        last_queued_wait_max_us: b.queued_wait_max_us,
    }
}

/// The running totals of the flush worker, one counter per field of
/// [`FlushMetrics`].
#[derive(Debug, Default)]
pub struct FlushCounters {
    batch_count: u64,
    sync_batch_count: u64,
    write_request_count: u64,
    write_bytes: u64,
    callback_count: u64,
    group_wait_count: u64,
    group_wait_us: u64,
    group_wait_max_us: u64,
    queued_wait_us: u64,
    queued_wait_max_us: u64,
    write_us: u64,
    write_max_us: u64,
    sync_us: u64,
    sync_max_us: u64,
    batch_us: u64,
    batch_max_us: u64,
    batch_size_max: u64,
    batch_bytes_max: u64,
    last_batch_size: u64,
    last_batch_bytes: u64,
    last_callback_count: u64,
    last_sync_us: u64,
    last_queued_wait_max_us: u64,
}

impl View for FlushCounters {
    type V = FlushMetrics;

    closed spec fn view(&self) -> FlushMetrics {
        FlushMetrics {
            batch_count: self.batch_count,
            sync_batch_count: self.sync_batch_count,
            write_request_count: self.write_request_count,
            write_bytes: self.write_bytes,
            callback_count: self.callback_count,
            group_wait_count: self.group_wait_count,
            group_wait_us: self.group_wait_us,
            group_wait_max_us: self.group_wait_max_us,
            queued_wait_us: self.queued_wait_us,
            queued_wait_max_us: self.queued_wait_max_us,
            write_us: self.write_us,
            write_max_us: self.write_max_us,
            sync_us: self.sync_us,
            sync_max_us: self.sync_max_us,
            batch_us: self.batch_us,
            batch_max_us: self.batch_max_us,
            batch_size_max: self.batch_size_max,
            batch_bytes_max: self.batch_bytes_max,
            last_batch_size: self.last_batch_size,
            last_batch_bytes: self.last_batch_bytes,
            last_callback_count: self.last_callback_count,
            last_sync_us: self.last_sync_us,
            last_queued_wait_max_us: self.last_queued_wait_max_us,
        }
    }
}

impl FlushCounters {
    /// All counters at zero.
    pub fn new() -> (r: Self)
        ensures
            r@ == (FlushMetrics {
                batch_count: 0,
                sync_batch_count: 0,
                write_request_count: 0,
                write_bytes: 0,
                callback_count: 0,
                group_wait_count: 0,
                group_wait_us: 0,
                group_wait_max_us: 0,
                queued_wait_us: 0,
                queued_wait_max_us: 0,
                write_us: 0,
                write_max_us: 0,
                sync_us: 0,
                sync_max_us: 0,
                batch_us: 0,
                batch_max_us: 0,
                batch_size_max: 0,
                batch_bytes_max: 0,
                last_batch_size: 0,
                last_batch_bytes: 0,
                last_callback_count: 0,
                last_sync_us: 0,
                last_queued_wait_max_us: 0,
            }),
    {
        FlushCounters {
            batch_count: 0,
            sync_batch_count: 0,
            write_request_count: 0,
            write_bytes: 0,
            callback_count: 0,
            group_wait_count: 0,
            group_wait_us: 0,
            group_wait_max_us: 0,
            queued_wait_us: 0,
            queued_wait_max_us: 0,
            write_us: 0,
            write_max_us: 0,
            sync_us: 0,
            sync_max_us: 0,
            batch_us: 0,
            batch_max_us: 0,
            batch_size_max: 0,
            batch_bytes_max: 0,
            last_batch_size: 0,
            last_batch_bytes: 0,
            last_callback_count: 0,
            last_sync_us: 0,
            last_queued_wait_max_us: 0,
        }
    }

    /// Adds one finished batch to the totals.
    pub fn record_batch(&mut self, metrics: BatchMetrics)
        ensures
            final(self)@ == with_batch(old(self)@, metrics),
    {
        self.batch_count = self.batch_count.wrapping_add(1);
        if metrics.sync_batch {
            self.sync_batch_count = self.sync_batch_count.wrapping_add(1);
        }
        self.write_request_count = self.write_request_count.wrapping_add(metrics.batch_size);
        self.write_bytes = self.write_bytes.wrapping_add(metrics.write_bytes);
        self.callback_count = self.callback_count.wrapping_add(metrics.callback_count);
        if metrics.group_wait_us > 0 {
            self.group_wait_count = self.group_wait_count.wrapping_add(1);
            self.group_wait_us = self.group_wait_us.wrapping_add(metrics.group_wait_us);
            update_max(&mut self.group_wait_max_us, metrics.group_wait_us);
        }
        self.queued_wait_us = self.queued_wait_us.wrapping_add(metrics.queued_wait_us);
        update_max(&mut self.queued_wait_max_us, metrics.queued_wait_max_us);
        self.write_us = self.write_us.wrapping_add(metrics.write_us);
        update_max(&mut self.write_max_us, metrics.write_us);
        if metrics.sync_us > 0 {
            self.sync_us = self.sync_us.wrapping_add(metrics.sync_us);
            update_max(&mut self.sync_max_us, metrics.sync_us);
        }
        self.batch_us = self.batch_us.wrapping_add(metrics.batch_us);
        update_max(&mut self.batch_max_us, metrics.batch_us);
        update_max(&mut self.batch_size_max, metrics.batch_size);
        update_max(&mut self.batch_bytes_max, metrics.write_bytes);
        self.last_batch_size = metrics.batch_size;
        self.last_batch_bytes = metrics.write_bytes;
        self.last_callback_count = metrics.callback_count;
        self.last_sync_us = metrics.sync_us;
        self.last_queued_wait_max_us = metrics.queued_wait_max_us;
    }

    /// The current totals.
    pub fn snapshot(&self) -> (r: FlushMetrics)
        ensures
            r == self@,
    {
        FlushMetrics {
            batch_count: self.batch_count,
            sync_batch_count: self.sync_batch_count,
            write_request_count: self.write_request_count,
            write_bytes: self.write_bytes,
            callback_count: self.callback_count,
            group_wait_count: self.group_wait_count,
            group_wait_us: self.group_wait_us,
            group_wait_max_us: self.group_wait_max_us,
            queued_wait_us: self.queued_wait_us,
            queued_wait_max_us: self.queued_wait_max_us,
            write_us: self.write_us,
            write_max_us: self.write_max_us,
            sync_us: self.sync_us,
            sync_max_us: self.sync_max_us,
            batch_us: self.batch_us,
            batch_max_us: self.batch_max_us,
            batch_size_max: self.batch_size_max,
            batch_bytes_max: self.batch_bytes_max,
            last_batch_size: self.last_batch_size,
            last_batch_bytes: self.last_batch_bytes,
            last_callback_count: self.last_callback_count,
            last_sync_us: self.last_sync_us,
            last_queued_wait_max_us: self.last_queued_wait_max_us,
        }
    }
}

/// Maxima only grow: once batches are added, each `*_max` field is at least
/// what it was and at least the value the batch reported for it.
pub proof fn lemma_maxima_dominate(t: FlushMetrics, b: BatchMetrics)
    ensures
        with_batch(t, b).queued_wait_max_us >= t.queued_wait_max_us,
        with_batch(t, b).queued_wait_max_us >= b.queued_wait_max_us,
        with_batch(t, b).write_max_us >= t.write_max_us,
        with_batch(t, b).write_max_us >= b.write_us,
        with_batch(t, b).batch_max_us >= t.batch_max_us,
        with_batch(t, b).batch_max_us >= b.batch_us,
        with_batch(t, b).batch_size_max >= t.batch_size_max,
        with_batch(t, b).batch_size_max >= b.batch_size,
        with_batch(t, b).batch_bytes_max >= t.batch_bytes_max,
        with_batch(t, b).batch_bytes_max >= b.write_bytes,
        with_batch(t, b).group_wait_max_us >= t.group_wait_max_us,
        with_batch(t, b).sync_max_us >= t.sync_max_us,
{
}

/// Batch counting: each recorded batch adds exactly one to `batch_count`
/// (as long as the counter has not wrapped), and a batch that did not sync
/// leaves `sync_batch_count` unchanged.
pub proof fn lemma_batch_count_steps(t: FlushMetrics, b: BatchMetrics)
    ensures
        t.batch_count < u64::MAX ==> with_batch(t, b).batch_count == t.batch_count + 1,
        !b.sync_batch ==> with_batch(t, b).sync_batch_count == t.sync_batch_count,
        b.sync_batch && t.sync_batch_count < u64::MAX
            ==> with_batch(t, b).sync_batch_count == t.sync_batch_count + 1,
{
}

} // verus!
