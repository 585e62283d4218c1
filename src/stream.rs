//! The stream driver: the line decoder together with an idle timeout that is
//! re-armed each time a line is handed out.
//!
//! The driver does no I/O and reads no clock. Its owner polls the byte source
//! and the clock, and hands the driver what it found; the driver says what the
//! poll yields. Times are in milliseconds.
use vstd::prelude::*;
use bytes::BytesMut;
use crate::buffer::bytes_of;
use crate::lines::{decode, first_line, Lines};

verus! {

/// Why a stream stopped with an error.
pub enum Error<E> {
    /// The byte source failed; its error is passed on unchanged.
    Service(E),
    /// No line came for the configured timeout, which this carries.
    TimedOut(u64),
}

/// Where a stream is in its life.
#[derive(Clone, Copy, Debug, PartialEq, Eq, Structural)]
pub enum Phase {
    /// Lines may still come.
    Active,
    /// No line came in time.
    TimedOut,
    /// The source ended and every line has been handed out.
    Ended,
    /// The source failed.
    Failed,
}

/// What the byte source gave when it was polled.
pub enum SourcePoll<E> {
    /// A chunk of bytes, possibly empty.
    Chunk(Vec<u8>),
    /// Nothing yet.
    Pending,
    /// The end of the stream.
    End,
    /// A failure of the source.
    Failed(E),
}

/// What a poll of the stream yields.
pub enum StreamPoll<E> {
    /// A line, without its delimiter; it may be empty.
    Line(BytesMut),
    /// No line is buffered: poll the source and hand over what it gives.
    NeedChunk,
    /// No line yet, and the deadline has not passed.
    Pending,
    /// The stream has ended; no line comes any more.
    Ended,
    /// The stream failed and has stopped.
    Failed(Error<E>),
}

/// The deadline set at `now` for a timeout of `timeout`: the latest time
/// that a `u64` holds, where the sum does not fit.
pub open spec fn deadline_after(now: u64, timeout: u64) -> u64 {
    if now + timeout > u64::MAX {
        u64::MAX
    } else {
        (now + timeout) as u64
    }
}

/// The idle timeout, as the deadline that a line handed out at `last` sets and
/// a later poll at `now` that finds no line tests: that poll fails exactly
/// when `timeout` or more has passed since `last`. So lines that keep coming
/// at intervals shorter than `timeout` never let the stream time out, however
/// long it runs. (At the last instant that a `u64` holds, a poll fails
/// whatever came before.)
pub proof fn lemma_idle_timeout(last: u64, timeout: u64, now: u64)
    requires
        now < u64::MAX,
    ensures
        now < last + timeout ==> now < deadline_after(last, timeout),
        now >= last + timeout ==> now >= deadline_after(last, timeout),
{
}

/// The lines that a poll's result adds to those handed out.
pub open spec fn line_out<E>(r: StreamPoll<E>) -> Seq<Seq<u8>> {
    match r {
        StreamPoll::Line(b) => seq![bytes_of(b)],
        _ => Seq::empty(),
    }
}

/// The driver of one stream.
pub struct TwitterStream {
    lines: Lines,
    timeout: u64,
    deadline: u64,
    phase: Phase,
}

impl TwitterStream {
    /// The bytes received and not yet handed out as a line.
    pub closed spec fn buffered(&self) -> Seq<u8> {
        self.lines@
    }

    /// The configured idle timeout.
    pub closed spec fn timeout_spec(&self) -> u64 {
        self.timeout
    }

    /// The time from which on a poll that finds no line fails.
    pub closed spec fn deadline_spec(&self) -> u64 {
        self.deadline
    }

    /// Where the stream is in its life.
    pub closed spec fn phase_spec(&self) -> Phase {
        self.phase
    }

    /// The driver's internal invariant.
    pub closed spec fn wf(&self) -> bool {
        &&& self.lines.wf()
        &&& self.phase == Phase::Ended <==> self.lines.ended()
    }

    /// Every byte that the source has given.
    pub closed spec fn received(&self) -> Seq<u8> {
        self.lines.received()
    }

    /// Every line handed out so far.
    pub closed spec fn delivered(&self) -> Seq<Seq<u8>> {
        self.lines.delivered()
    }

    /// The lines handed out, followed by those still in the buffer, are the
    /// lines of every byte that the source gave. Once the stream has ended,
    /// the lines handed out are exactly those: however the bytes were cut into
    /// chunks, the same lines come out.
    pub proof fn lemma_lines_of_received(&self)
        requires
            self.wf(),
        ensures
            self.delivered() + decode(self.buffered()) == decode(self.received()),
            self.phase_spec() == Phase::Ended ==> self.delivered() == decode(self.received()),
    {
        self.lines.lemma_lines_of_received();
    }

    /// A stream created at `now`, with an empty buffer and its deadline
    /// `timeout` after `now`.
    pub fn new(timeout: u64, now: u64) -> (r: TwitterStream)
        ensures
            r.wf(),
            r.buffered() == Seq::<u8>::empty(),
            r.timeout_spec() == timeout,
            r.deadline_spec() == deadline_after(now, timeout),
            r.phase_spec() == Phase::Active,
            r.received() == Seq::<u8>::empty(),
            r.delivered() == Seq::<Seq<u8>>::empty(),
    {
        TwitterStream {
            lines: Lines::new(),
            timeout,
            deadline: now.saturating_add(timeout),
            phase: Phase::Active,
        }
    }

    /// The configured idle timeout.
    pub fn timeout(&self) -> (r: u64)
        ensures
            r == self.timeout_spec(),
    {
        self.timeout
    }

    /// The bytes received and not yet handed out as a line.
    pub fn buffered_bytes(&self) -> (r: &[u8])
        requires
            self.wf(),
        ensures
            r@ == self.buffered(),
    {
        self.lines.buffered()
    }

    /// The current deadline.
    pub fn deadline(&self) -> (r: u64)
        ensures
            r == self.deadline_spec(),
    {
        self.deadline
    }

    /// Where the stream is in its life.
    pub fn phase(&self) -> (r: Phase)
        ensures
            r == self.phase_spec(),
    {
        self.phase
    }

    /// Hands out a line that is already buffered, re-arming the deadline from
    /// `now`; otherwise asks for the next chunk of the source. Once the stream
    /// has stopped, it yields `Ended` and nothing changes.
    pub fn poll<E>(&mut self, now: u64) -> (r: StreamPoll<E>)
        requires
            old(self).wf(),
        ensures
            old(self).phase_spec() != Phase::Active ==> final(self).phase_spec()
                == old(self).phase_spec(),
            r is Ended || r is Failed ==> final(self).phase_spec() != Phase::Active,
            final(self).wf(),
            final(self).timeout_spec() == old(self).timeout_spec(),
            final(self).phase_spec() == old(self).phase_spec(),
            old(self).phase_spec() != Phase::Active ==> r is Ended && final(self).buffered()
                == old(self).buffered() && final(self).deadline_spec() == old(self).deadline_spec(),
            old(self).phase_spec() == Phase::Active ==> match first_line(old(self).buffered()) {
                Some(p) => r is Line && bytes_of(r->Line_0) == p.0 && final(self).buffered() == p.1
                    && final(self).deadline_spec() == deadline_after(now, old(self).timeout_spec()),
                None => r is NeedChunk && final(self).buffered() == old(self).buffered()
                    && final(self).deadline_spec() == old(self).deadline_spec(),
            },
    {
        if self.phase != Phase::Active {
            return StreamPoll::Ended;
        }
        match self.lines.pop_line() {
            Some(line) => {
                self.deadline = now.saturating_add(self.timeout);
                StreamPoll::Line(line)
            },
            None => StreamPoll::NeedChunk,
        }
    }

    /// Takes what the source gave on this poll and says what the poll yields.
    /// - A chunk is fed to the decoder; a line that it completes is handed out
    ///   and re-arms the deadline from `now`; else the next chunk is wanted.
    /// - At the end of the source, a complete line still in the buffer is
    ///   handed out first; once none is left, what remains is handed out as a
    ///   last line, and the stream has ended.
    /// - When the source has nothing yet, the stream times out if `now` has
    ///   reached the deadline, and is pending otherwise.
    /// - A failure of the source stops the stream with that failure.
    ///
    /// Once the stream has stopped, it yields `Ended` and nothing changes.
    pub fn on_source<E>(&mut self, event: SourcePoll<E>, now: u64) -> (r: StreamPoll<E>)
        requires
            old(self).wf(),
            event matches SourcePoll::Chunk(c) ==> old(self).buffered().len() + c@.len()
                <= isize::MAX,
        ensures
            old(self).phase_spec() != Phase::Active ==> final(self).phase_spec()
                == old(self).phase_spec(),
            r is Ended || r is Failed ==> final(self).phase_spec() != Phase::Active,
            final(self).wf(),
            final(self).timeout_spec() == old(self).timeout_spec(),
            old(self).phase_spec() != Phase::Active ==> r is Ended && final(self).buffered()
                == old(self).buffered() && final(self).deadline_spec() == old(self).deadline_spec()
                && final(self).phase_spec() == old(self).phase_spec(),
            old(self).phase_spec() == Phase::Active ==> match event {
                SourcePoll::Chunk(c) => final(self).phase_spec() == Phase::Active && match first_line(
                    old(self).buffered() + c@,
                ) {
                    Some(p) => r is Line && bytes_of(r->Line_0) == p.0 && final(self).buffered() == p.1
                        && final(self).deadline_spec() == deadline_after(
                        now,
                        old(self).timeout_spec(),
                    ),
                    None => r is NeedChunk && final(self).buffered() == old(self).buffered() + c@
                        && final(self).deadline_spec() == old(self).deadline_spec(),
                },
                SourcePoll::End => match first_line(old(self).buffered()) {
                    Some(p) => r is Line && bytes_of(r->Line_0) == p.0 && final(self).buffered()
                        == p.1 && final(self).phase_spec() == Phase::Active
                        && final(self).deadline_spec() == deadline_after(
                        now,
                        old(self).timeout_spec(),
                    ),
                    None => final(self).phase_spec() == Phase::Ended && final(self).buffered()
                        == Seq::<u8>::empty() && if old(self).buffered().len() > 0 {
                        r is Line && bytes_of(r->Line_0) == old(self).buffered()
                            && final(self).deadline_spec() == deadline_after(
                            now,
                            old(self).timeout_spec(),
                        )
                    } else {
                        r is Ended && final(self).deadline_spec() == old(self).deadline_spec()
                    },
                },
                SourcePoll::Pending => final(self).buffered() == old(self).buffered()
                    && final(self).deadline_spec() == old(self).deadline_spec() && if now
                    >= old(self).deadline_spec() {
                    r == StreamPoll::<E>::Failed(Error::TimedOut(old(self).timeout_spec()))
                        && final(self).phase_spec() == Phase::TimedOut
                } else {
                    r is Pending && final(self).phase_spec() == Phase::Active
                },
                SourcePoll::Failed(e) => r == StreamPoll::Failed(Error::Service(e))
                    && final(self).phase_spec() == Phase::Failed && final(self).buffered()
                    == old(self).buffered() && final(self).deadline_spec()
                    == old(self).deadline_spec(),
            },
    {
        if self.phase != Phase::Active {
            return StreamPoll::Ended;
        }
        match event {
            SourcePoll::Chunk(c) => match self.lines.feed(c.as_slice()) {
                Some(line) => {
                    self.deadline = now.saturating_add(self.timeout);
                    StreamPoll::Line(line)
                },
                None => StreamPoll::NeedChunk,
            },
            SourcePoll::End => {
                let line = self.lines.finish();
                if self.lines.is_ended() {
                    self.phase = Phase::Ended;
                }
                match line {
                    Some(line) => {
                        self.deadline = now.saturating_add(self.timeout);
                        StreamPoll::Line(line)
                    },
                    None => StreamPoll::Ended,
                }
            },
            SourcePoll::Pending => {
                if now >= self.deadline {
                    self.phase = Phase::TimedOut;
                    StreamPoll::Failed(Error::TimedOut(self.timeout))
                } else {
                    StreamPoll::Pending
                }
            },
            SourcePoll::Failed(e) => {
                self.phase = Phase::Failed;
                StreamPoll::Failed(Error::Service(e))
            },
        }
    }
}

} // verus!
