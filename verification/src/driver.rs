use vstd::prelude::*;
use crate::event::{sentence_event, sentence_event_spec};
use crate::fix::GpsFix;
use crate::line::LineBuffer;
use crate::pending::{dequeue_spec, drain, enqueue_all, enqueue_spec, lemma_fifo, PendingEvents, PENDING_CAPACITY};
use crate::types::{GpsError, GpsEvent, SentenceKind};

verus! {

/// The receive state of the L76K driver: the partial sentence line and the
/// events decoded but not yet handed out.
pub struct DriverCore {
    pub line: LineBuffer,
    pub pending: PendingEvents,
}

impl DriverCore {
    /// No partial line and no waiting events.
    pub fn new() -> (c: DriverCore)
        ensures
            c.line@ == Seq::<u8>::empty(),
            c.pending@.len() == 0,
    {
        DriverCore { line: LineBuffer::new(), pending: PendingEvents::new() }
    }

    /// Clears the line state before entering active mode; events already
    /// waiting stay queued.
    pub fn prepare(&mut self)
        ensures
            final(self).line@ == Seq::<u8>::empty(),
            final(self).pending@ == old(self).pending@,
    {
        self.line.clear();
    }
}

/// What the NMEA parser made of one completed sentence line: the kind it
/// accepted (`None` if it refused the sentence) and the fix it holds
/// afterwards.
#[derive(Clone, Copy, Debug, PartialEq, Eq, Structural)]
pub struct ParsedLine {
    pub kind: Option<SentenceKind>,
    pub fix: Option<GpsFix>,
}

/// The events that a run of parsed lines emits, in order: a refused
/// sentence emits nothing.
pub open spec fn line_events(parsed: Seq<ParsedLine>) -> Seq<GpsEvent>
    decreases parsed.len(),
{
    if parsed.len() == 0 {
        Seq::empty()
    } else {
        let prev = line_events(parsed.drop_last());
        match parsed.last().kind {
            Some(kind) => prev.push(sentence_event_spec(kind, parsed.last().fix)),
            None => prev,
        }
    }
}

/// The number of lines of a run that the parser accepted.
pub open spec fn accepted_count(parsed: Seq<ParsedLine>) -> nat
    decreases parsed.len(),
{
    if parsed.len() == 0 {
        0
    } else {
        accepted_count(parsed.drop_last()) + (if parsed.last().kind is Some { 1nat } else { 0nat })
    }
}

/// A run of parsed lines emits one event per accepted line, in line order:
/// the accepted line `i` emits the event at the position of the lines
/// accepted before it, and that event is the fix the parser holds after a
/// GGA or RMC line, or the kind of the sentence when it is another kind or
/// the parser holds no fix. Refused lines emit nothing.
pub proof fn lemma_line_events_per_line(parsed: Seq<ParsedLine>, i: int)
    requires
        0 <= i < parsed.len(),
    ensures
        line_events(parsed).len() == accepted_count(parsed),
        accepted_count(parsed.take(i)) <= accepted_count(parsed),
        parsed[i].kind matches Some(k) ==> {
            &&& accepted_count(parsed.take(i)) < accepted_count(parsed)
            &&& line_events(parsed)[accepted_count(parsed.take(i)) as int] == (
                if (k == SentenceKind::Gga || k == SentenceKind::Rmc) && parsed[i].fix is Some {
                    GpsEvent::Fix(parsed[i].fix.unwrap())
                } else {
                    GpsEvent::Sentence(k)
                })
        },
    decreases parsed.len(),
{
    lemma_line_events_len(parsed);
    let last = parsed.len() - 1;
    if i == last {
        assert(parsed.take(i) =~= parsed.drop_last());
        lemma_line_events_len(parsed.drop_last());
    } else {
        lemma_line_events_per_line(parsed.drop_last(), i);
        assert(parsed.drop_last().take(i) =~= parsed.take(i));
        assert(parsed.drop_last()[i] == parsed[i]);
    }
}

proof fn lemma_line_events_len(parsed: Seq<ParsedLine>)
    ensures
        line_events(parsed).len() == accepted_count(parsed),
    decreases parsed.len(),
{
    if parsed.len() > 0 {
        lemma_line_events_len(parsed.drop_last());
    }
}

/// Offering one event more after a run of events offers it to the queue
/// that the run left.
proof fn lemma_enqueue_all_push(q: Seq<GpsEvent>, evs: Seq<GpsEvent>, ev: GpsEvent)
    ensures
        enqueue_all(q, evs.push(ev)) == enqueue_spec(enqueue_all(q, evs), ev).0,
{
    assert(evs.push(ev).drop_last() =~= evs);
}

impl DriverCore {
    /// Ends the decoding of one read: queues the event of each parsed line
    /// in order (a full queue drops it), then fails with `Utf8` if a line
    /// of the read was not UTF-8, and otherwise hands out the event that
    /// has waited longest; `Ok(None)` means nothing is waiting, so the
    /// driver reads again. The partial line is left as it is.
    pub fn finish_read<E>(&mut self, parsed: &Vec<ParsedLine>, utf8_error: bool) -> (r: Result<Option<GpsEvent>, GpsError<E>>)
        ensures
            final(self).line@ == old(self).line@,
            ({
                let q = enqueue_all(old(self).pending@, line_events(parsed@));
                if utf8_error {
                    r matches Err(GpsError::Utf8) && final(self).pending@ == q
                } else {
                    r matches Ok(ev) && (final(self).pending@, ev) == dequeue_spec(q)
                }
            }),
    {
        let mut i: usize = 0;
        assert(parsed@.take(0) =~= Seq::<ParsedLine>::empty());
        while i < parsed.len()
            invariant
                i <= parsed@.len(),
                self.line@ == old(self).line@,
                self.pending@ == enqueue_all(old(self).pending@, line_events(parsed@.take(i as int))),
            decreases parsed@.len() - i,
        {
            let item = parsed[i];
            assert(parsed@.take(i + 1).drop_last() =~= parsed@.take(i as int));
            assert(parsed@.take(i + 1).last() == item);
            if let Some(ev) = sentence_event(item.kind, item.fix) {
                proof {
                    lemma_enqueue_all_push(old(self).pending@, line_events(parsed@.take(i as int)), ev);
                }
                let _ = self.pending.push(ev);
            }
            i = i + 1;
        }
        assert(parsed@.take(parsed@.len() as int) =~= parsed@);
        if utf8_error {
            Err(GpsError::Utf8)
        } else {
            Ok(self.pending.pop())
        }
    }
}

/// Events of one read keep their order: when nothing was waiting and the
/// read emits one to eight events, the read hands out the first and the
/// rest follow one per later call, in the order of their lines, before the
/// driver reads again.
pub proof fn lemma_read_events_in_order(parsed: Seq<ParsedLine>)
    requires
        1 <= line_events(parsed).len() <= PENDING_CAPACITY,
    ensures
        ({
            let evs = line_events(parsed);
            let q = enqueue_all(Seq::empty(), evs);
            &&& dequeue_spec(q) == (evs.drop_first(), Some(evs[0]))
            &&& drain(dequeue_spec(q).0) == evs.drop_first()
            &&& seq![evs[0]] + drain(dequeue_spec(q).0) == evs
        }),
{
    let evs = line_events(parsed);
    lemma_fifo(evs);
    lemma_fifo(evs.drop_first());
    assert(seq![evs[0]] + evs.drop_first() =~= evs);
}

/// How one UART read, raced against its timeout, ended.
pub enum ReadOutcome<E> {
    /// The read returned this many bytes.
    Received(usize),
    /// The read failed with this error.
    Failed(E),
    /// The timeout fired first.
    TimedOut,
}

/// What the receive loop does after a read.
pub enum ReadStep<E> {
    /// Nothing arrived: read again.
    ReadAgain,
    /// Decode this many received bytes.
    Decode(usize),
    /// Stop with this error.
    Fail(GpsError<E>),
}

pub open spec fn after_read_spec<E>(r: ReadOutcome<E>) -> ReadStep<E> {
    match r {
        ReadOutcome::Received(n) => if n == 0 { ReadStep::ReadAgain } else { ReadStep::Decode(n) },
        ReadOutcome::Failed(e) => ReadStep::Fail(GpsError::IO(e)),
        ReadOutcome::TimedOut => ReadStep::Fail(GpsError::Timeout),
    }
}

/// Every byte a read returns is decoded: a read is retried only when it
/// returned no byte, and otherwise all the bytes it returned are decoded;
/// a failed read is an IO error and a read that timed out is a timeout.
pub proof fn lemma_after_read_decodes_every_byte<E>(n: usize)
    ensures
        (after_read_spec::<E>(ReadOutcome::Received(n)) is ReadAgain) <==> n == 0,
        n > 0 ==> (after_read_spec::<E>(ReadOutcome::Received(n)) matches ReadStep::Decode(m) && m == n),
        after_read_spec::<E>(ReadOutcome::TimedOut) matches ReadStep::Fail(GpsError::Timeout),
{
}

/// A failed read stops with the IO error it failed with.
pub proof fn lemma_after_read_failure<E>(e: E)
    ensures
        after_read_spec(ReadOutcome::Failed(e)) == ReadStep::Fail(GpsError::IO(e)),
{
}

/// Decides what follows a read: an empty read is retried, received bytes are
/// decoded, a failed read is an IO error and a read that timed out is a
/// timeout.
pub fn after_read<E>(r: ReadOutcome<E>) -> (s: ReadStep<E>)
    ensures
        s == after_read_spec(r),
{
    match r {
        ReadOutcome::Received(n) => if n == 0 { ReadStep::ReadAgain } else { ReadStep::Decode(n) },
        ReadOutcome::Failed(e) => ReadStep::Fail(GpsError::IO(e)),
        ReadOutcome::TimedOut => ReadStep::Fail(GpsError::Timeout),
    }
}

/// How one UART write, raced against its timeout, ended.
pub enum WriteOutcome<E> {
    /// The write accepted this many bytes.
    Accepted(usize),
    /// The write failed with this error.
    Failed(E),
    /// The timeout fired first.
    TimedOut,
}

/// The next thing to do while sending a command.
#[derive(Clone, Copy, Debug, PartialEq, Eq, Structural)]
pub enum WriteStep {
    /// Write the command's bytes from this offset on.
    WriteFrom(usize),
    /// All bytes are accepted: flush the UART.
    Flush,
}

/// Progress of sending an encoded command over the UART.
pub struct CommandWrite {
    written: usize,
    total: usize,
}

impl CommandWrite {
    /// Bytes accepted so far.
    pub closed spec fn written(self) -> usize {
        self.written
    }

    /// Length of the command.
    pub closed spec fn total(self) -> usize {
        self.total
    }

    /// Nothing of a command of `total` bytes written yet.
    pub fn new(total: usize) -> (w: CommandWrite)
        ensures
            w.written() == 0,
            w.total() == total,
    {
        CommandWrite { written: 0, total }
    }

    /// Bytes accepted so far.
    pub fn written_bytes(&self) -> (n: usize)
        ensures
            n == self.written(),
    {
        self.written
    }

    /// Writes go on from the first byte not yet accepted; the UART is
    /// flushed only once every byte is accepted.
    pub fn next(&self) -> (s: WriteStep)
        ensures
            s == (if self.written() < self.total() {
                WriteStep::WriteFrom(self.written())
            } else {
                WriteStep::Flush
            }),
    {
        if self.written < self.total {
            WriteStep::WriteFrom(self.written)
        } else {
            WriteStep::Flush
        }
    }

    /// Records how a write ended: accepted bytes advance the offset; a write
    /// that accepts nothing or times out is a timeout, and a failed write is
    /// an IO error.
    pub fn on_write<E>(&mut self, outcome: WriteOutcome<E>) -> (r: Result<(), GpsError<E>>)
        requires
            outcome matches WriteOutcome::Accepted(n) ==> old(self).written() + n <= usize::MAX,
        ensures
            final(self).total() == old(self).total(),
            old(self).written() <= old(self).total() && (outcome matches WriteOutcome::Accepted(n)
                && n <= old(self).total() - old(self).written()) ==> final(self).written() <= final(self).total(),
            match outcome {
                WriteOutcome::Accepted(n) => if n == 0 {
                    r matches Err(GpsError::Timeout) && final(self).written() == old(self).written()
                } else {
                    r is Ok && final(self).written() == old(self).written() + n
                },
                WriteOutcome::Failed(e) => r == Err::<(), GpsError<E>>(GpsError::IO(e))
                    && final(self).written() == old(self).written(),
                WriteOutcome::TimedOut => r matches Err(GpsError::Timeout)
                    && final(self).written() == old(self).written(),
            },
    {
        match outcome {
            WriteOutcome::Accepted(n) => {
                if n == 0 {
                    Err(GpsError::Timeout)
                } else {
                    self.written = self.written + n;
                    Ok(())
                }
            },
            WriteOutcome::Failed(e) => Err(GpsError::IO(e)),
            WriteOutcome::TimedOut => Err(GpsError::Timeout),
        }
    }
}

/// How the final flush, raced against its timeout, ended.
pub enum FlushOutcome<E> {
    Done,
    Failed(E),
    TimedOut,
}

/// The result of sending a command once its flush has ended.
pub fn after_flush<E>(f: FlushOutcome<E>) -> (r: Result<(), GpsError<E>>)
    ensures
        match f {
            FlushOutcome::Done => r is Ok,
            FlushOutcome::Failed(e) => r == Err::<(), GpsError<E>>(GpsError::IO(e)),
            FlushOutcome::TimedOut => r matches Err(GpsError::Timeout),
        },
{
    match f {
        FlushOutcome::Done => Ok(()),
        FlushOutcome::Failed(e) => Err(GpsError::IO(e)),
        FlushOutcome::TimedOut => Err(GpsError::Timeout),
    }
}

} // verus!
