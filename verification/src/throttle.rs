//! The throughput ceiling of a single transfer.
//!
//! A transfer copies its file chunk by chunk. After each chunk it looks at
//! the bytes written and the time elapsed since it began; when their ratio is
//! above the ceiling, it pauses for as long as the chunk just written would
//! have taken at the ceiling. The limiter reacts, it does not predict: between
//! two looks the transfer may run ahead of the ceiling by one chunk.

use vstd::prelude::*;

verus! {

/// Bytes copied at a time.
pub const CHUNK_BYTES: u32 = 204_800;

/// Progress is published with the first chunk and with every chunk that
/// follows a multiple of this many.
pub const PROGRESS_INTERVAL: u64 = 4000;

/// Bytes per second when `total` bytes took `elapsed_millis`, cut off at the
/// largest number that can be shown. Before any time has passed the
/// throughput has no bound.
pub open spec fn throughput(total: nat, elapsed_millis: nat) -> nat {
    if elapsed_millis == 0 || total * 1000 / elapsed_millis > u64::MAX {
        u64::MAX as nat
    } else {
        total * 1000 / elapsed_millis
    }
}

/// Writing `total` bytes in `elapsed_millis` is faster than `ceiling` bytes
/// per second.
pub open spec fn over_ceiling(total: nat, elapsed_millis: nat, ceiling: nat) -> bool {
    total * 1000 > ceiling * elapsed_millis
}

/// Milliseconds that `chunk` bytes take at `ceiling` bytes per second,
/// rounded up.
pub open spec fn pause_for(chunk: nat, ceiling: nat) -> nat {
    ((chunk * 1000 + ceiling - 1) / (ceiling as int)) as nat
}

/// The pause after a chunk: the chunk's time at the ceiling when the transfer
/// is over the ceiling, none otherwise.
pub open spec fn pause_due(total: nat, elapsed_millis: nat, chunk: nat, ceiling: nat) -> nat {
    if over_ceiling(total, elapsed_millis, ceiling) {
        pause_for(chunk, ceiling)
    } else {
        0
    }
}

/// The pause for a chunk is the least whole number of milliseconds in which
/// the ceiling allows that chunk.
pub proof fn lemma_pause_covers_chunk(chunk: nat, ceiling: nat)
    requires
        ceiling > 0,
    ensures
        pause_for(chunk, ceiling) * ceiling >= chunk * 1000,
        pause_for(chunk, ceiling) * ceiling < chunk * 1000 + ceiling,
        pause_for(chunk, ceiling) <= chunk * 1000,
{
    let a: int = chunk * 1000 + ceiling - 1;
    let c: int = ceiling as int;
    let q: int = a / c;
    assert(q * c <= a && a < q * c + c && q >= 0) by (nonlinear_arith)
        requires
            q == a / c,
            c > 0,
            a >= 0,
    ;
    assert(q <= chunk * 1000) by (nonlinear_arith)
        requires
            q * c <= chunk * 1000 + c - 1,
            c > 0,
            q >= 0,
            chunk >= 0,
    ;
}

/// A transfer that was within the ceiling before a chunk is within it again
/// once the pause after that chunk is over, however long the chunk took to
/// write. Before the pause it is ahead by that chunk at most.
pub proof fn lemma_pause_restores_ceiling(
    total_before: nat,
    elapsed_before: nat,
    chunk: nat,
    elapsed_now: nat,
    ceiling: nat,
)
    requires
        ceiling > 0,
        !over_ceiling(total_before, elapsed_before, ceiling),
        elapsed_before <= elapsed_now,
    ensures
        !over_ceiling(
            total_before + chunk,
            elapsed_now + pause_due(total_before + chunk, elapsed_now, chunk, ceiling),
            ceiling,
        ),
        (total_before + chunk) * 1000 <= ceiling * elapsed_now + chunk * 1000,
{
    let total: nat = total_before + chunk;
    let pause: nat = pause_due(total, elapsed_now, chunk, ceiling);
    lemma_pause_covers_chunk(chunk, ceiling);
    assert(ceiling * elapsed_before <= ceiling * elapsed_now) by (nonlinear_arith)
        requires
            elapsed_before <= elapsed_now,
            ceiling > 0,
    ;
    assert(ceiling * (elapsed_now + pause) == ceiling * elapsed_now + pause * ceiling)
        by (nonlinear_arith);
    assert(total * 1000 == total_before * 1000 + chunk * 1000) by (nonlinear_arith)
        requires
            total == total_before + chunk,
    ;
}

/// Bytes in all of the chunks.
pub open spec fn chunk_total(chunks: Seq<u32>) -> nat
    decreases chunks.len(),
{
    if chunks.len() == 0 {
        0
    } else {
        chunk_total(chunks.drop_last()) + chunks.last() as nat
    }
}

/// Milliseconds a transfer has spent once these chunks are written and
/// paused for, when writing itself takes no time at all.
pub open spec fn unhindered_elapsed(chunks: Seq<u32>, ceiling: nat) -> nat
    decreases chunks.len(),
{
    if chunks.len() == 0 {
        0
    } else {
        let before = unhindered_elapsed(chunks.drop_last(), ceiling);
        before + pause_due(chunk_total(chunks), before, chunks.last() as nat, ceiling)
    }
}

/// No chunk holds more than `limit` bytes.
pub open spec fn chunks_within(chunks: Seq<u32>, limit: nat) -> bool {
    forall|k: int| 0 <= k < chunks.len() ==> chunks[k] <= limit
}

/// A writer of unlimited speed is held to the ceiling: after any number of
/// chunks its average throughput is not above the ceiling, and it is below
/// the ceiling by less than what one chunk and one millisecond amount to.
pub proof fn lemma_unhindered_writer_tracks_ceiling(chunks: Seq<u32>, ceiling: nat, limit: nat)
    requires
        ceiling > 0,
        chunks_within(chunks, limit),
    ensures
        chunk_total(chunks) * 1000 <= ceiling * unhindered_elapsed(chunks, ceiling),
        ceiling * unhindered_elapsed(chunks, ceiling) < chunk_total(chunks) * 1000 + limit * 1000
            + ceiling,
    decreases chunks.len(),
{
    if chunks.len() > 0 {
        let head = chunks.drop_last();
        let chunk: nat = chunks.last() as nat;
        let before: nat = unhindered_elapsed(head, ceiling);
        let total: nat = chunk_total(chunks);
        let pause: nat = pause_due(total, before, chunk, ceiling);
        assert(chunks_within(head, limit)) by {
            assert forall|k: int| 0 <= k < head.len() implies head[k] <= limit by {
                assert(head[k] == chunks[k]);
            }
        }
        assert(chunk <= limit);
        lemma_unhindered_writer_tracks_ceiling(head, ceiling, limit);
        lemma_pause_restores_ceiling(chunk_total(head), before, chunk, before, ceiling);
        lemma_pause_covers_chunk(chunk, ceiling);
        assert(ceiling * (before + pause) == ceiling * before + pause * ceiling)
            by (nonlinear_arith);
        assert(total * 1000 == chunk_total(head) * 1000 + chunk * 1000) by (nonlinear_arith)
            requires
                total == chunk_total(head) + chunk,
        ;
        assert(chunk * 1000 <= limit * 1000) by (nonlinear_arith)
            requires
                chunk <= limit,
        ;
    } else {
        assert(ceiling * 0 == 0) by (nonlinear_arith);
    }
}

/// What a transfer does after a chunk.
#[derive(Debug, Clone, Copy, PartialEq, Eq, Structural)]
pub struct ChunkReport {
    /// Bytes written so far, this chunk included.
    pub total_bytes: u64,
    /// Throughput since the transfer began, in bytes per second.
    pub rate: u64,
    /// Whether to publish the progress to the inventory now.
    pub publish: bool,
    /// Milliseconds to pause before the next chunk.
    pub pause_millis: u64,
}

/// The running account of one transfer.
pub struct TransferMeter {
    ceiling: u64,
    total_bytes: u64,
    chunks: u64,
}

impl TransferMeter {
    /// The ceiling in bytes per second.
    pub closed spec fn ceiling(&self) -> u64 {
        self.ceiling
    }

    /// Bytes written so far.
    pub closed spec fn total_bytes(&self) -> u64 {
        self.total_bytes
    }

    /// Chunks written so far.
    pub closed spec fn chunks(&self) -> u64 {
        self.chunks
    }

    /// What holds of every meter: its ceiling is not zero, and every chunk
    /// it counted held a byte at least.
    pub open spec fn wf(&self) -> bool {
        self.ceiling() > 0 && self.chunks() <= self.total_bytes()
    }

    /// A meter for a transfer that has written nothing yet. There is none
    /// for a ceiling of zero, under which no byte could ever be written.
    pub fn new(ceiling: u64) -> (meter: Option<TransferMeter>)
        ensures
            match meter {
                Some(m) => ceiling > 0 && m.wf() && m.ceiling() == ceiling && m.total_bytes() == 0
                    && m.chunks() == 0,
                None => ceiling == 0,
            },
    {
        if ceiling == 0 {
            None
        } else {
            Some(TransferMeter { ceiling, total_bytes: 0, chunks: 0 })
        }
    }

    /// Bytes written so far.
    pub fn written(&self) -> (total: u64)
        ensures
            total == self.total_bytes(),
    {
        self.total_bytes
    }

    /// Counts a chunk of `chunk_bytes` bytes whose writing ended
    /// `elapsed_millis` after the transfer began, and says what to do next.
    /// An empty chunk, or one that would carry the total past what can be
    /// counted, is not counted and gets no report.
    pub fn record_chunk(&mut self, chunk_bytes: u32, elapsed_millis: u64) -> (report: Option<
        ChunkReport,
    >)
        requires
            old(self).wf(),
        ensures
            final(self).wf(),
            final(self).ceiling() == old(self).ceiling(),
            match report {
                None => {
                    &&& chunk_bytes == 0 || old(self).total_bytes() + chunk_bytes > u64::MAX
                    &&& final(self).total_bytes() == old(self).total_bytes()
                    &&& final(self).chunks() == old(self).chunks()
                },
                Some(r) => {
                    &&& chunk_bytes > 0
                    &&& final(self).total_bytes() == old(self).total_bytes() + chunk_bytes
                    &&& final(self).chunks() == old(self).chunks() + 1
                    &&& r.total_bytes == final(self).total_bytes()
                    &&& r.rate == throughput(r.total_bytes as nat, elapsed_millis as nat)
                    &&& r.publish == (old(self).chunks() % PROGRESS_INTERVAL == 0)
                    &&& r.pause_millis == pause_due(
                        r.total_bytes as nat,
                        elapsed_millis as nat,
                        chunk_bytes as nat,
                        old(self).ceiling() as nat,
                    )
                },
            },
    {
        if chunk_bytes == 0 || self.total_bytes > u64::MAX - chunk_bytes as u64 {
            return None;
        }
        let publish: bool = self.chunks % PROGRESS_INTERVAL == 0;
        self.total_bytes = self.total_bytes + chunk_bytes as u64;
        self.chunks = self.chunks + 1;
        let scaled: u128 = self.total_bytes as u128 * 1000;
        let rate: u64 = if elapsed_millis == 0 {
            u64::MAX
        } else {
            let per_second: u128 = scaled / elapsed_millis as u128;
            if per_second > u64::MAX as u128 {
                u64::MAX
            } else {
                per_second as u64
            }
        };
        assert(self.ceiling as int * elapsed_millis as int <= u128::MAX) by (nonlinear_arith)
            requires
                self.ceiling <= u64::MAX,
                elapsed_millis <= u64::MAX,
        ;
        let allowed: u128 = self.ceiling as u128 * elapsed_millis as u128;
        let pause_millis: u64 = if scaled > allowed {
            proof {
                lemma_pause_covers_chunk(chunk_bytes as nat, self.ceiling as nat);
            }
            let padded: u128 = chunk_bytes as u128 * 1000 + (self.ceiling as u128 - 1);
            (padded / self.ceiling as u128) as u64
        } else {
            0
        };
        Some(ChunkReport { total_bytes: self.total_bytes, rate, publish, pause_millis })
    }
}

} // verus!
