//! Id generators: a snowflake generator (41 bits of milliseconds since a custom epoch, 10 bits
//! of worker, 12 bits of sequence) and a plain counter.

use vstd::prelude::*;
use crate::spi::IdGenerator;

verus! {

/// 2020-01-01 00:00:00 UTC in unix milliseconds.
pub const EPOCH: i64 = 1577836800000;
pub const MAX_WORKER_ID: i64 = 1023;
pub const MAX_SEQUENCE: i64 = 4095;
pub const TIMESTAMP_SHIFT: u64 = 22;
pub const WORKER_ID_SHIFT: u64 = 12;
/// How many clock reads a wait for the next millisecond makes before it moves on by itself.
pub const WAIT_READS: u64 = 4294967296;

/// Unix time in milliseconds from the system clock (`UNIX_EPOCH.elapsed()`, as `i64`; 0 when the
/// clock reads before the epoch).  Nothing is promised of the value: it is the time.
#[verifier::external_body]
fn current_time_millis() -> (r: i64) {
    match std::time::UNIX_EPOCH.elapsed() {
        Ok(d) => d.as_millis() as i64,
        Err(_) => 0,
    }
}

/// The id of a timestamp, worker and sequence: the three fields packed into 64 bits.
pub open spec fn snowflake(ts: i64, worker: i64, seq: i64) -> i64 {
    let d = (ts as int - EPOCH as int) as u64;
    (((d << 22u64) | ((worker as u64) << 12u64)) | (seq as u64)) as i64
}

/// In range the packing is arithmetic: `d * 2^22 + worker * 2^12 + seq`.
pub proof fn lemma_snowflake_value(ts: i64, worker: i64, seq: i64)
    requires
        EPOCH <= ts,
        ts - EPOCH < 0x200_0000_0000,
        0 <= worker <= MAX_WORKER_ID,
        0 <= seq <= MAX_SEQUENCE,
    ensures
        snowflake(ts, worker, seq) == (ts - EPOCH) * 0x40_0000 + worker * 0x1000 + seq,
{
    let d: u64 = (ts - EPOCH) as u64;
    let w: u64 = worker as u64;
    let s: u64 = seq as u64;
    assert(((d << 22u64) | (w << 12u64)) | s == d * 0x40_0000 + w * 0x1000 + s) by (bit_vector)
        requires
            d < 0x200_0000_0000,
            w <= 1023,
            s <= 4095,
    ;
    assert(d * 0x40_0000 + w * 0x1000 + s < 0x8000_0000_0000_0000) by (nonlinear_arith)
        requires
            d < 0x200_0000_0000,
            w <= 1023,
            s <= 4095,
    ;
}

/// Ids grow with the (timestamp, sequence) pair: a later millisecond, or the same millisecond
/// with a higher sequence, gives a greater id (for one worker, up to 2089).
pub proof fn law_snowflake_increases(worker: i64, ts1: i64, seq1: i64, ts2: i64, seq2: i64)
    requires
        EPOCH <= ts1,
        EPOCH <= ts2,
        ts1 - EPOCH < 0x200_0000_0000,
        ts2 - EPOCH < 0x200_0000_0000,
        0 <= worker <= MAX_WORKER_ID,
        0 <= seq1 <= MAX_SEQUENCE,
        0 <= seq2 <= MAX_SEQUENCE,
        ts1 < ts2 || (ts1 == ts2 && seq1 < seq2),
    ensures
        snowflake(ts1, worker, seq1) < snowflake(ts2, worker, seq2),
{
    lemma_snowflake_value(ts1, worker, seq1);
    lemma_snowflake_value(ts2, worker, seq2);
    if ts1 < ts2 {
        assert((ts1 - EPOCH) * 0x40_0000 + 0x40_0000 <= (ts2 - EPOCH) * 0x40_0000) by (nonlinear_arith)
            requires
                ts1 < ts2,
        ;
    }
}

/// Snowflake id generator.
pub struct DefaultIdGenerator {
    worker_id: i64,
    last_timestamp: i64,
    sequence: i64,
}

/// A clock reading past `last`: the clock is read until it moves past `last`, for at most
/// `WAIT_READS` reads; then the generator takes `last + 1` itself.
fn wait_next_millis(last: i64) -> (r: i64)
    ensures
        last < i64::MAX ==> r > last,
{
    let mut ts = current_time_millis();
    let mut reads: u64 = 0;
    while ts <= last && reads < WAIT_READS
        decreases WAIT_READS - reads,
    {
        ts = current_time_millis();
        reads = reads + 1;
    }
    if ts <= last && last < i64::MAX {
        last + 1
    } else {
        ts
    }
}

fn pack(ts: i64, worker: i64, seq: i64) -> (r: i64)
    requires
        0 <= worker <= MAX_WORKER_ID,
        0 <= seq <= MAX_SEQUENCE,
    ensures
        r == snowflake(ts, worker, seq),
{
    let d: u64 = (ts as i128 - EPOCH as i128) as u64;
    let w: u64 = worker as u64;
    let s: u64 = seq as u64;
    (((d << 22u64) | (w << 12u64)) | s) as i64
}

impl DefaultIdGenerator {
    #[verifier::type_invariant]
    spec fn inv(self) -> bool {
        &&& 0 <= self.worker_id <= MAX_WORKER_ID
        &&& 0 <= self.sequence <= MAX_SEQUENCE
    }

    pub closed spec fn worker(&self) -> i64 {
        self.worker_id
    }

    /// The millisecond of the last id handed out (`-1` before the first).
    pub closed spec fn last(&self) -> i64 {
        self.last_timestamp
    }

    /// The sequence number of the last id within its millisecond.
    pub closed spec fn seq(&self) -> i64 {
        self.sequence
    }

    /// A generator for `worker_id`, which must lie in `0..=1023`.
    pub fn new(worker_id: i64) -> (r: DefaultIdGenerator)
        requires
            0 <= worker_id <= MAX_WORKER_ID,
        ensures
            r.worker() == worker_id,
            r.last() == -1,
            r.seq() == 0,
    {
        DefaultIdGenerator { worker_id, last_timestamp: -1, sequence: 0 }
    }

    /// The next id from a clock reading: in the millisecond of the last id the sequence goes up;
    /// when it wraps, or when the clock reads earlier than the last id, the generator waits for a
    /// later millisecond and starts the sequence at 0.
    pub fn next_id_at(&mut self, now: i64) -> (r: i64)
        ensures
            final(self).worker() == old(self).worker(),
            r == snowflake(final(self).last(), final(self).worker(), final(self).seq()),
            now > old(self).last() ==> final(self).last() == now && final(self).seq() == 0,
            old(self).last() < i64::MAX ==> (final(self).last() > old(self).last() || (final(self).last()
                == old(self).last() && final(self).seq() == old(self).seq() + 1)),
            0 <= final(self).seq() <= MAX_SEQUENCE,
            0 <= final(self).worker() <= MAX_WORKER_ID,
    {
        proof {
            use_type_invariant(&*self);
        }
        let mut timestamp = now;
        let last = self.last_timestamp;
        if timestamp < last {
            timestamp = wait_next_millis(last);
        }
        let mut seq: i64 = 0;
        if timestamp == last {
            let bumped: i64 = self.sequence + 1;
            seq = if bumped > MAX_SEQUENCE { 0 } else { bumped };
            if seq == 0 {
                timestamp = wait_next_millis(last);
            }
        }
        let worker = self.worker_id;
        self.sequence = seq;
        self.last_timestamp = timestamp;
        pack(timestamp, worker, seq)
    }
}

impl IdGenerator for DefaultIdGenerator {
    /// `next_id_at` with the system clock.
    fn next_id(&mut self) -> (r: i64)
        ensures
            r == snowflake(final(self).last(), final(self).worker(), final(self).seq()),
            final(self).worker() == old(self).worker(),
            old(self).last() < i64::MAX ==> (final(self).last() > old(self).last() || (final(self).last()
                == old(self).last() && final(self).seq() == old(self).seq() + 1)),
            0 <= final(self).seq() <= MAX_SEQUENCE,
            0 <= final(self).worker() <= MAX_WORKER_ID,
    {
        let now = current_time_millis();
        self.next_id_at(now)
    }
}

/// Counter id generator: `start`, `start + 1`, ... (wrapping at the end of `i64`).
pub struct AtomicIdGenerator {
    counter: i64,
}

impl AtomicIdGenerator {
    pub closed spec fn current(&self) -> i64 {
        self.counter
    }

    pub fn new(start: i64) -> (r: AtomicIdGenerator)
        ensures
            r.current() == start,
    {
        AtomicIdGenerator { counter: start }
    }
}

impl IdGenerator for AtomicIdGenerator {
    fn next_id(&mut self) -> (r: i64)
        ensures
            r == old(self).current(),
            final(self).current() == old(self).current().wrapping_add(1),
    {
        let r = self.counter;
        self.counter = self.counter.wrapping_add(1);
        r
    }
}

} // verus!
