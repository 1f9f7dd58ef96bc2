//! The byte-copy loop between a client connection and its upstream stream,
//! and the length-prefixed framing that carries UDP datagrams over a stream.
use vstd::prelude::*;

verus! {

// ---------------------------------------------------------------------------
// Copying in both directions with an idle timeout
// ---------------------------------------------------------------------------

/// What the copy loop observed.
#[derive(Debug, Clone, Copy, PartialEq, Eq)]
pub enum CopyEvent {
    /// Side A delivered this many bytes (0 means it reached end of stream).
    ReadA(usize),
    /// Side B delivered this many bytes (0 means it reached end of stream).
    ReadB(usize),
    /// Nothing moved in either direction for the whole idle timeout.
    IdleTimeout,
}

/// What the copy loop does next.
#[derive(Debug, Clone, Copy, PartialEq, Eq)]
pub enum CopyAction {
    /// Shut down the write side of B (A is exhausted).
    ShutdownB,
    /// Write this many bytes just read from A to B, and flush.
    WriteB(usize),
    /// Shut down the write side of A (B is exhausted).
    ShutdownA,
    /// Write this many bytes just read from B to A, and flush.
    WriteA(usize),
    /// Give up with a timed-out error.
    TimedOut,
}

/// Progress of a bidirectional copy: bytes moved each way and which sides are exhausted.
#[derive(Debug, Clone, Copy, PartialEq, Eq)]
pub struct CopyProgress {
    pub a_to_b: u64,
    pub b_to_a: u64,
    pub a_eof: bool,
    pub b_eof: bool,
}

/// The progress after an event.
pub open spec fn progress_after(p: CopyProgress, ev: CopyEvent) -> CopyProgress {
    match ev {
        CopyEvent::ReadA(n) => if n == 0 {
            CopyProgress { a_eof: true, ..p }
        } else {
            CopyProgress { a_to_b: (p.a_to_b + n) as u64, ..p }
        },
        CopyEvent::ReadB(n) => if n == 0 {
            CopyProgress { b_eof: true, ..p }
        } else {
            CopyProgress { b_to_a: (p.b_to_a + n) as u64, ..p }
        },
        CopyEvent::IdleTimeout => p,
    }
}

impl CopyProgress {
    /// Nothing copied yet, both sides open.
    pub fn new() -> (r: CopyProgress)
        ensures
            r.a_to_b == 0 && r.b_to_a == 0 && !r.a_eof && !r.b_eof,
    {
        CopyProgress { a_to_b: 0, b_to_a: 0, a_eof: false, b_eof: false }
    }

    /// The copy ends once both sides are exhausted.
    pub fn is_done(&self) -> (r: bool)
        ensures
            r == (self.a_eof && self.b_eof),
    {
        self.a_eof && self.b_eof
    }

    /// Whether side A is still read.
    pub fn reads_a(&self) -> (r: bool)
        ensures
            r == !self.a_eof,
    {
        !self.a_eof
    }

    /// Whether side B is still read.
    pub fn reads_b(&self) -> (r: bool)
        ensures
            r == !self.b_eof,
    {
        !self.b_eof
    }

    /// React to an event: an empty read exhausts that side and shuts down the
    /// other side's writer; a non-empty read is forwarded and counted; an idle
    /// timeout ends the copy with an error.
    pub fn step(&mut self, ev: CopyEvent) -> (r: CopyAction)
        requires
            ev matches CopyEvent::ReadA(n) ==> !old(self).a_eof && old(self).a_to_b + n
                <= u64::MAX,
            ev matches CopyEvent::ReadB(n) ==> !old(self).b_eof && old(self).b_to_a + n
                <= u64::MAX,
        ensures
            *final(self) == progress_after(*old(self), ev),
            ev matches CopyEvent::ReadA(n) ==> r == (if n == 0 {
                CopyAction::ShutdownB
            } else {
                CopyAction::WriteB(n)
            }),
            ev matches CopyEvent::ReadB(n) ==> r == (if n == 0 {
                CopyAction::ShutdownA
            } else {
                CopyAction::WriteA(n)
            }),
            ev == CopyEvent::IdleTimeout ==> r == CopyAction::TimedOut,
    {
        match ev {
            CopyEvent::ReadA(n) => {
                if n == 0 {
                    self.a_eof = true;
                    CopyAction::ShutdownB
                } else {
                    self.a_to_b = self.a_to_b + n as u64;
                    CopyAction::WriteB(n)
                }
            },
            CopyEvent::ReadB(n) => {
                if n == 0 {
                    self.b_eof = true;
                    CopyAction::ShutdownA
                } else {
                    self.b_to_a = self.b_to_a + n as u64;
                    CopyAction::WriteA(n)
                }
            },
            CopyEvent::IdleTimeout => CopyAction::TimedOut,
        }
    }
}

/// Bytes read from A in a run of events.
pub open spec fn bytes_from_a(evs: Seq<CopyEvent>) -> nat
    decreases evs.len(),
{
    if evs.len() == 0 {
        0
    } else {
        bytes_from_a(evs.drop_last()) + match evs.last() {
            CopyEvent::ReadA(n) => n as nat,
            _ => 0,
        }
    }
}

/// Bytes read from B in a run of events.
pub open spec fn bytes_from_b(evs: Seq<CopyEvent>) -> nat
    decreases evs.len(),
{
    if evs.len() == 0 {
        0
    } else {
        bytes_from_b(evs.drop_last()) + match evs.last() {
            CopyEvent::ReadB(n) => n as nat,
            _ => 0,
        }
    }
}

/// The progress after a run of events.
pub open spec fn progress_after_all(p: CopyProgress, evs: Seq<CopyEvent>) -> CopyProgress
    decreases evs.len(),
{
    if evs.len() == 0 {
        p
    } else {
        progress_after(progress_after_all(p, evs.drop_last()), evs.last())
    }
}

/// The counts a copy reports are exactly the bytes read from each side, so
/// every byte read is forwarded and counted once (as long as the counts fit).
pub proof fn lemma_counts_are_bytes_moved(evs: Seq<CopyEvent>)
    requires
        bytes_from_a(evs) <= u64::MAX,
        bytes_from_b(evs) <= u64::MAX,
    ensures
        progress_after_all(CopyProgress { a_to_b: 0, b_to_a: 0, a_eof: false, b_eof: false }, evs).a_to_b
            == bytes_from_a(evs),
        progress_after_all(CopyProgress { a_to_b: 0, b_to_a: 0, a_eof: false, b_eof: false }, evs).b_to_a
            == bytes_from_b(evs),
    decreases evs.len(),
{
    if evs.len() > 0 {
        lemma_counts_are_bytes_moved(evs.drop_last());
    }
}

// ---------------------------------------------------------------------------
// Length-prefixed framing (DNS over TCP)
// ---------------------------------------------------------------------------

/// The two-byte big-endian length that precedes a datagram of `len` bytes on
/// the stream (the length taken modulo 2^16, as `len as u16` does).
pub open spec fn length_prefix_spec(len: nat) -> (u8, u8) {
    (((len % 65536) / 256) as u8, (len % 256) as u8)
}

/// The two-byte big-endian length for a datagram of `len` bytes.
pub fn length_prefix(len: usize) -> (r: [u8; 2])
    ensures
        r@[0] == length_prefix_spec(len as nat).0,
        r@[1] == length_prefix_spec(len as nat).1,
{
    let v = len % 65536;
    let hi = (v / 256) as u8;
    let lo = (len % 256) as u8;
    assert(len % 256 == v % 256) by (nonlinear_arith)
        requires
            v == len % 65536,
    ;
    [hi, lo]
}

/// The length announced by a two-byte big-endian prefix.
pub fn prefixed_length(prefix: [u8; 2]) -> (r: usize)
    ensures
        r == prefix@[0] * 256 + prefix@[1],
{
    (prefix[0] as usize) * 256 + (prefix[1] as usize)
}

/// Reading back the prefix of a datagram that fits in 64 KiB gives its length.
pub proof fn lemma_prefix_round_trip(len: nat)
    requires
        len < 65536,
    ensures
        length_prefix_spec(len).0 * 256 + length_prefix_spec(len).1 == len,
{
}

// ---------------------------------------------------------------------------
// Sending one datagram upstream
// ---------------------------------------------------------------------------

/// Streams a datagram may be tried on: the current one, then one fresh one.
pub const MAX_UDP_STREAMS: u32 = 2;

/// What the sender does next for the datagram in hand.
#[derive(Debug, Clone, Copy, PartialEq, Eq)]
pub enum UdpAction {
    /// Open a fresh upstream stream.
    Open,
    /// Exchange the datagram over the open stream.
    Exchange,
    /// Stop: the datagram was answered (`true`) or given up (`false`).
    Finish(bool),
}

/// What the last action gave.
#[derive(Debug, Clone, Copy, PartialEq, Eq)]
pub enum UdpOutcome {
    /// A fresh stream was opened.
    Opened,
    /// No stream could be opened.
    OpenFailed,
    /// The exchange over the stream succeeded.
    Exchanged,
    /// The exchange failed; the stream is dropped.
    ExchangeFailed,
}

/// The sending of one datagram: how many streams it has failed on so far, and
/// whether a stream is open.
#[derive(Debug, Clone, Copy, PartialEq, Eq)]
pub struct UdpSend {
    pub failed_streams: u32,
    pub has_stream: bool,
}

/// The sending after an outcome.
pub open spec fn udp_after(s: UdpSend, o: UdpOutcome) -> UdpSend {
    match o {
        UdpOutcome::Opened => UdpSend { has_stream: true, ..s },
        UdpOutcome::OpenFailed => s,
        UdpOutcome::Exchanged => s,
        UdpOutcome::ExchangeFailed => UdpSend {
            failed_streams: (s.failed_streams + 1) as u32,
            has_stream: false,
        },
    }
}

/// The action after an outcome: exchange on a freshly opened stream; give up
/// when no stream opens; finish on success; after a failed exchange, open a
/// fresh stream unless `MAX_UDP_STREAMS` streams have failed.
pub open spec fn udp_action(s: UdpSend, o: UdpOutcome) -> UdpAction {
    match o {
        UdpOutcome::Opened => UdpAction::Exchange,
        UdpOutcome::OpenFailed => UdpAction::Finish(false),
        UdpOutcome::Exchanged => UdpAction::Finish(true),
        UdpOutcome::ExchangeFailed => if s.failed_streams + 1 >= MAX_UDP_STREAMS {
            UdpAction::Finish(false)
        } else {
            UdpAction::Open
        },
    }
}

impl UdpSend {
    /// Within its limit: fewer than `MAX_UDP_STREAMS` streams have failed.
    pub open spec fn wf(&self) -> bool {
        self.failed_streams < MAX_UDP_STREAMS
    }

    /// Start sending a datagram: over the open stream if there is one,
    /// otherwise by opening one.
    pub fn begin(has_stream: bool) -> (r: (UdpSend, UdpAction))
        ensures
            r.0.wf(),
            r.0 == (UdpSend { failed_streams: 0, has_stream }),
            r.1 == (if has_stream {
                UdpAction::Exchange
            } else {
                UdpAction::Open
            }),
    {
        let s = UdpSend { failed_streams: 0, has_stream };
        if has_stream {
            (s, UdpAction::Exchange)
        } else {
            (s, UdpAction::Open)
        }
    }

    /// React to the outcome of the last action.
    pub fn step(&mut self, outcome: UdpOutcome) -> (r: UdpAction)
        requires
            old(self).wf(),
        ensures
            *final(self) == udp_after(*old(self), outcome),
            r == udp_action(*old(self), outcome),
            r !is Finish ==> final(self).wf(),
    {
        match outcome {
            UdpOutcome::Opened => {
                self.has_stream = true;
                UdpAction::Exchange
            },
            UdpOutcome::OpenFailed => UdpAction::Finish(false),
            UdpOutcome::Exchanged => UdpAction::Finish(true),
            UdpOutcome::ExchangeFailed => {
                self.failed_streams = self.failed_streams + 1;
                self.has_stream = false;
                if self.failed_streams >= MAX_UDP_STREAMS {
                    UdpAction::Finish(false)
                } else {
                    UdpAction::Open
                }
            },
        }
    }
}

/// A datagram is tried on at most `MAX_UDP_STREAMS` streams: a sending within
/// its limit that fails an exchange either opens one more stream and stays
/// within the limit, or gives up.
pub proof fn lemma_udp_stream_limit(s: UdpSend)
    requires
        s.wf(),
    ensures
        udp_action(s, UdpOutcome::ExchangeFailed) == UdpAction::Open ==> udp_after(
            s,
            UdpOutcome::ExchangeFailed,
        ).wf(),
        udp_after(s, UdpOutcome::ExchangeFailed).failed_streams == MAX_UDP_STREAMS
            ==> udp_action(s, UdpOutcome::ExchangeFailed) == UdpAction::Finish(false),
{
}

} // verus!
