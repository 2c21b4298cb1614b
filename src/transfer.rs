//! The receiving side of a DCC file transfer, as a state machine: the caller
//! reads the socket and writes the file, and hands each read's outcome here;
//! what to send back on the socket and which progress events to report
//! comes out.
use vstd::prelude::*;

verus! {

/// Largest number of bytes asked of the socket in one read.
pub const CHUNK_SIZE: usize = 8192;

/// One progress report of a transfer.
pub struct DownloadProgress {
    pub bytes_received: u64,
    pub total_bytes: u64,
    pub finished: bool,
    pub error: Option<String>,
}

/// A report that is not the last one.
pub open spec fn running(received: nat, total: nat) -> DownloadProgress {
    DownloadProgress {
        bytes_received: received as u64,
        total_bytes: total as u64,
        finished: false,
        error: None,
    }
}

/// The last report of a transfer that ended well.
pub open spec fn finished_ok(received: nat, total: nat) -> DownloadProgress {
    DownloadProgress {
        bytes_received: received as u64,
        total_bytes: total as u64,
        finished: true,
        error: None,
    }
}

/// The eight bytes that acknowledge `v` received bytes: `v` as a big-endian
/// unsigned 64-bit integer.
pub open spec fn ack_bytes(v: nat) -> Seq<u8> {
    seq![
        ((v / 0x100000000000000) % 256) as u8,
        ((v / 0x1000000000000) % 256) as u8,
        ((v / 0x10000000000) % 256) as u8,
        ((v / 0x100000000) % 256) as u8,
        ((v / 0x1000000) % 256) as u8,
        ((v / 0x10000) % 256) as u8,
        ((v / 0x100) % 256) as u8,
        (v % 256) as u8,
    ]
}

/// Encodes a cumulative byte count as a DCC acknowledgment.
pub fn encode_ack(v: u64) -> (r: Vec<u8>)
    ensures
        r@ == ack_bytes(v as nat),
{
    let mut r: Vec<u8> = Vec::new();
    r.push(((v / 0x100000000000000) % 256) as u8);
    r.push(((v / 0x1000000000000) % 256) as u8);
    r.push(((v / 0x10000000000) % 256) as u8);
    r.push(((v / 0x100000000) % 256) as u8);
    r.push(((v / 0x1000000) % 256) as u8);
    r.push(((v / 0x10000) % 256) as u8);
    r.push(((v / 0x100) % 256) as u8);
    r.push((v % 256) as u8);
    assert(r@ =~= ack_bytes(v as nat));
    r
}

/// Reports that a read of `n` bytes, on top of `received`, gives when the
/// file is expected to hold `total` bytes (0: unknown).
pub open spec fn data_events(received: nat, total: nat, n: nat) -> Seq<DownloadProgress> {
    let r = received + n;
    if total > 0 && r >= total {
        seq![running(r, total), finished_ok(r, total)]
    } else {
        seq![running(r, total)]
    }
}

/// Whether a transfer expecting `total` bytes is over after `received` bytes.
pub open spec fn complete_at(received: nat, total: nat) -> bool {
    total > 0 && received >= total
}

/// The reports given while reads of the sizes `chunks` come in, stopping at
/// the read that completes the file.
pub open spec fn feed(received: nat, total: nat, chunks: Seq<nat>) -> Seq<DownloadProgress>
    decreases chunks.len(),
{
    if chunks.len() == 0 {
        seq![]
    } else {
        let r = received + chunks[0];
        if complete_at(r, total) {
            data_events(received, total, chunks[0])
        } else {
            data_events(received, total, chunks[0]) + feed(r, total, chunks.drop_first())
        }
    }
}

pub open spec fn sum(chunks: Seq<nat>) -> nat
    decreases chunks.len(),
{
    if chunks.len() == 0 {
        0
    } else {
        chunks[0] + sum(chunks.drop_first())
    }
}

/// The reports of a whole transfer: the first one, those of the reads, and
/// when the reads did not complete the file, the one that the peer's close gives.
pub open spec fn session_events(total: nat, chunks: Seq<nat>) -> Seq<DownloadProgress> {
    let fed = seq![running(0, total)] + feed(0, total, chunks);
    if complete_at(sum(chunks), total) {
        fed
    } else {
        fed.push(finished_ok(sum(chunks), total))
    }
}

pub open spec fn count_finished(e: Seq<DownloadProgress>) -> nat
    decreases e.len(),
{
    if e.len() == 0 {
        0
    } else {
        (if e.last().finished {
            1nat
        } else {
            0nat
        }) + count_finished(e.drop_last())
    }
}

proof fn lemma_count_one(p: DownloadProgress)
    ensures
        count_finished(seq![p]) == (if p.finished {
            1nat
        } else {
            0nat
        }),
{
    assert(seq![p].drop_last() =~= Seq::<DownloadProgress>::empty());
    assert(count_finished(Seq::<DownloadProgress>::empty()) == 0);
}

proof fn lemma_positive_rest(chunks: Seq<nat>)
    requires
        chunks.len() > 0,
        forall|i: int| 0 <= i < chunks.len() ==> chunks[i] > 0,
    ensures
        forall|i: int|
            0 <= i < chunks.drop_first().len() ==> #[trigger] chunks.drop_first()[i] > 0,
        sum(chunks) == chunks[0] + sum(chunks.drop_first()),
{
    assert forall|i: int| 0 <= i < chunks.drop_first().len() implies #[trigger] chunks.drop_first()[i]
        > 0 by {
        assert(chunks.drop_first()[i] == chunks[i + 1]);
    }
}

proof fn lemma_count_concat(a: Seq<DownloadProgress>, b: Seq<DownloadProgress>)
    ensures
        count_finished(a + b) == count_finished(a) + count_finished(b),
    decreases b.len(),
{
    if b.len() == 0 {
        assert(a + b =~= a);
    } else {
        assert((a + b).drop_last() =~= a + b.drop_last());
        lemma_count_concat(a, b.drop_last());
    }
}

proof fn lemma_feed_partial(received: nat, total: nat, chunks: Seq<nat>)
    requires
        forall|i: int| 0 <= i < chunks.len() ==> chunks[i] > 0,
        !complete_at(received + sum(chunks), total),
    ensures
        count_finished(feed(received, total, chunks)) == 0,
    decreases chunks.len(),
{
    if chunks.len() > 0 {
        let r = received + chunks[0];
        let rest = chunks.drop_first();
        lemma_positive_rest(chunks);
        assert(!complete_at(r, total));
        lemma_count_one(running(r, total));
        assert(data_events(received, total, chunks[0]) == seq![running(r, total)]);
        lemma_feed_partial(r, total, rest);
        lemma_count_concat(data_events(received, total, chunks[0]), feed(r, total, rest));
    }
}

proof fn lemma_feed_exact(received: nat, total: nat, chunks: Seq<nat>)
    requires
        forall|i: int| 0 <= i < chunks.len() ==> chunks[i] > 0,
        chunks.len() > 0,
        received + sum(chunks) == total,
        !complete_at(received, total),
    ensures
        count_finished(feed(received, total, chunks)) == 1,
        feed(received, total, chunks).last() == finished_ok(total, total),
    decreases chunks.len(),
{
    let r = received + chunks[0];
    let rest = chunks.drop_first();
    let ev = data_events(received, total, chunks[0]);
    lemma_positive_rest(chunks);
    if rest.len() == 0 {
        assert(sum(rest) == 0);
    }
    if complete_at(r, total) {
        assert(sum(rest) == 0) by {
            if rest.len() > 0 {
                lemma_positive_rest(rest);
            }
        }
        assert(r == total);
        assert(ev.drop_last() =~= seq![running(r, total)]);
        lemma_count_one(running(r, total));
    } else {
        assert(rest.len() > 0);
        lemma_count_one(running(r, total));
        assert(ev == seq![running(r, total)]);
        lemma_feed_exact(r, total, rest);
        lemma_count_concat(ev, feed(r, total, rest));
    }
}

/// A transfer of a file announced with `total` bytes, from a peer that
/// sends exactly that many bytes (in reads of any positive sizes) and then
/// closes, gives exactly one finished report, the last one, which carries
/// all `total` bytes and no error.
pub proof fn lemma_exact_transfer_finishes_once(total: u64, chunks: Seq<nat>)
    requires
        forall|i: int| 0 <= i < chunks.len() ==> chunks[i] > 0,
        sum(chunks) == total,
    ensures
        count_finished(session_events(total as nat, chunks)) == 1,
        session_events(total as nat, chunks).last() == finished_ok(total as nat, total as nat),
{
    let t = total as nat;
    let first = seq![running(0, t)];
    lemma_count_one(running(0, t));
    let fed = first + feed(0, t, chunks);
    lemma_count_concat(first, feed(0, t, chunks));
    if complete_at(sum(chunks), t) {
        assert(chunks.len() > 0);
        lemma_feed_exact(0, t, chunks);
        assert(fed.last() == feed(0, t, chunks).last());
    } else {
        lemma_feed_partial(0, t, chunks);
        assert(fed.push(finished_ok(t, t)).drop_last() =~= fed);
        lemma_count_one(finished_ok(t, t));
    }
}

/// Where a transfer stands.
pub struct Transfer {
    /// Bytes received so far.
    pub received: u64,
    /// Bytes that the offer announced; 0 when unknown.
    pub total: u64,
    /// A finished report was given; nothing more is read.
    pub done: bool,
}

/// What to do after one read of the socket.
pub struct StepOutcome {
    /// Bytes to write back on the socket.
    pub ack: Vec<u8>,
    /// Reports to hand on, in order.
    pub events: Vec<DownloadProgress>,
}

impl Transfer {
    /// A transfer of a file announced with `total` bytes (0: unknown), and the
    /// report to give before the first read.
    pub fn start(total: u64) -> (r: (Transfer, DownloadProgress))
        ensures
            r.0.received == 0,
            r.0.total == total,
            !r.0.done,
            r.1 == running(0, total as nat),
    {
        (Transfer { received: 0, total, done: false }, DownloadProgress {
            bytes_received: 0,
            total_bytes: total,
            finished: false,
            error: None,
        })
    }

    /// A read brought `n` bytes, which the caller has written to the file.
    pub fn on_data(&mut self, n: usize) -> (r: StepOutcome)
        requires
            !old(self).done,
            0 < n <= CHUNK_SIZE,
            old(self).received + n <= u64::MAX,
        ensures
            final(self).received == old(self).received + n,
            final(self).total == old(self).total,
            final(self).done == complete_at(final(self).received as nat, old(self).total as nat),
            r.ack@ == ack_bytes(final(self).received as nat),
            r.events@ == data_events(old(self).received as nat, old(self).total as nat, n as nat),
    {
        self.received = self.received + n as u64;
        let ack = encode_ack(self.received);
        let mut events: Vec<DownloadProgress> = Vec::new();
        events.push(
            DownloadProgress {
                bytes_received: self.received,
                total_bytes: self.total,
                finished: false,
                error: None,
            },
        );
        if self.total > 0 && self.received >= self.total {
            self.done = true;
            events.push(
                DownloadProgress {
                    bytes_received: self.received,
                    total_bytes: self.total,
                    finished: true,
                    error: None,
                },
            );
        }
        assert(events@ =~= data_events(
            (self.received - n) as nat,
            self.total as nat,
            n as nat,
        ));
        StepOutcome { ack, events }
    }

    /// A read found the peer's side closed: the transfer is over, whatever
    /// was announced.
    pub fn on_closed(&mut self) -> (r: DownloadProgress)
        requires
            !old(self).done,
        ensures
            final(self).done,
            final(self).received == old(self).received,
            final(self).total == old(self).total,
            r == finished_ok(old(self).received as nat, old(self).total as nat),
    {
        self.done = true;
        DownloadProgress {
            bytes_received: self.received,
            total_bytes: self.total,
            finished: true,
            error: None,
        }
    }

    /// A read failed with the message `message`: the transfer is over, and
    /// the last report carries the error.
    pub fn on_error(&mut self, message: String) -> (r: DownloadProgress)
        requires
            !old(self).done,
        ensures
            final(self).done,
            final(self).received == old(self).received,
            final(self).total == old(self).total,
            r.bytes_received == old(self).received,
            r.total_bytes == old(self).total,
            r.finished,
            r.error == Some(message),
    {
        self.done = true;
        DownloadProgress {
            bytes_received: self.received,
            total_bytes: self.total,
            finished: true,
            error: Some(message),
        }
    }
}

} // verus!
