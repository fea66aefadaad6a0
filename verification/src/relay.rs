//! The decisions of the relay loop between the client connection and the
//! pseudo terminal.
//!
//! The loop waits for readiness, reads from the client while its queue has
//! room, reads from the terminal likewise, writes the terminal's output to
//! the client, and writes the payload of the client's data messages to the
//! terminal, applying resize messages on the way. The I/O itself is done by
//! the caller: [`Relay::resume`] takes the outcome of the last action and
//! names the next one.

use vstd::prelude::*;
use crate::buffer::{ByteBuffer, DEFAULT_CAPACITY};
use crate::protocol::{Frame, process_queue, queue_step, lemma_queue_step_suffix};

verus! {

/// The two ends of the relay.
#[derive(PartialEq, Eq, Debug, Clone, Copy)]
pub enum Endpoint {
    /// The TCP connection of the client.
    Client,
    /// The pseudo terminal of the command.
    Terminal,
}

/// One readiness report of a poll.
#[derive(PartialEq, Eq, Debug, Clone, Copy)]
pub struct Readiness {
    pub endpoint: Endpoint,
    pub readable: bool,
    pub writable: bool,
    pub read_closed: bool,
}

/// What a read returned.
#[derive(PartialEq, Eq, Debug, Clone)]
pub enum ReadOutcome {
    /// These bytes were read; none means the end of the stream.
    Data(Vec<u8>),
    /// The read would have blocked.
    WouldBlock,
    /// The read failed otherwise.
    Failed,
}

/// What a write returned.
#[derive(PartialEq, Eq, Debug, Clone, Copy)]
pub enum WriteOutcome {
    /// This many bytes were written.
    Written(usize),
    /// The write would have blocked.
    WouldBlock,
    /// The write failed otherwise.
    Failed,
}

/// What the caller hands to [`Relay::resume`]: the outcome of the action it
/// was asked for, or `Start` the first time.
#[derive(PartialEq, Eq, Debug, Clone)]
pub enum Input {
    Start,
    Polled(Vec<Readiness>),
    Read(ReadOutcome),
    Wrote(WriteOutcome),
    Resized(bool),
}

/// Which I/O failed and ended the relay.
#[derive(PartialEq, Eq, Debug, Clone, Copy)]
pub enum Failure {
    ReadClient,
    ReadTerminal,
    WriteClient,
    WriteTerminal,
}

/// What the caller is asked to do next.
#[derive(PartialEq, Eq, Debug, Clone)]
pub enum Action {
    /// Wait for readiness: without a timeout when `block`, else return at once.
    Poll { block: bool },
    /// Read at most `max` bytes from the client.
    ReadClient { max: usize },
    /// Read at most `max` bytes from the terminal.
    ReadTerminal { max: usize },
    /// Write these bytes to the client.
    WriteClient(Vec<u8>),
    /// Write these bytes to the terminal.
    WriteTerminal(Vec<u8>),
    /// Set the terminal size.
    Resize { cols: u16, rows: u16 },
    /// The relay is over without error.
    Finish,
    /// The relay is over because this I/O failed.
    Fail(Failure),
}

/// The view of an [`Action`].
pub enum ActionView {
    Poll { block: bool },
    ReadClient { max: nat },
    ReadTerminal { max: nat },
    WriteClient(Seq<u8>),
    WriteTerminal(Seq<u8>),
    Resize { cols: u16, rows: u16 },
    Finish,
    Fail(Failure),
}

impl View for Action {
    type V = ActionView;

    open spec fn view(&self) -> ActionView {
        match self {
            Action::Poll { block } => ActionView::Poll { block: *block },
            Action::ReadClient { max } => ActionView::ReadClient { max: *max as nat },
            Action::ReadTerminal { max } => ActionView::ReadTerminal { max: *max as nat },
            Action::WriteClient(d) => ActionView::WriteClient(d@),
            Action::WriteTerminal(d) => ActionView::WriteTerminal(d@),
            Action::Resize { cols, rows } => ActionView::Resize { cols: *cols, rows: *rows },
            Action::Finish => ActionView::Finish,
            Action::Fail(f) => ActionView::Fail(*f),
        }
    }
}

/// The view of a [`ReadOutcome`].
pub enum ReadOutcomeView {
    Data(Seq<u8>),
    WouldBlock,
    Failed,
}

/// The view of an [`Input`].
pub enum InputView {
    Start,
    Polled(Seq<Readiness>),
    Read(ReadOutcomeView),
    Wrote(WriteOutcome),
    Resized(bool),
}

impl View for Input {
    type V = InputView;

    open spec fn view(&self) -> InputView {
        match self {
            Input::Start => InputView::Start,
            Input::Polled(e) => InputView::Polled(e@),
            Input::Read(ReadOutcome::Data(d)) => InputView::Read(ReadOutcomeView::Data(d@)),
            Input::Read(ReadOutcome::WouldBlock) => InputView::Read(ReadOutcomeView::WouldBlock),
            Input::Read(ReadOutcome::Failed) => InputView::Read(ReadOutcomeView::Failed),
            Input::Wrote(w) => InputView::Wrote(*w),
            Input::Resized(ok) => InputView::Resized(*ok),
        }
    }
}

/// The action a relay waits to hear back from.
#[derive(PartialEq, Eq, Debug, Clone, Copy)]
pub enum Pending {
    /// Nothing was asked yet.
    Start,
    Poll,
    ReadClient,
    ReadTerminal,
    /// A write of this many bytes to the client.
    WriteClient(usize),
    /// A write of this many bytes to the terminal.
    WriteTerminal(usize),
    Resize,
    /// The relay is over.
    Stopped,
}

/// The state of a relay, with the history of the bytes that crossed it.
#[verifier::ext_equal]
pub struct RelayView {
    /// Bytes from the client not yet handled.
    pub from_client_queue: Seq<u8>,
    pub from_client_capacity: nat,
    /// Bytes from the terminal not yet sent to the client.
    pub to_client_queue: Seq<u8>,
    pub to_client_capacity: nat,
    pub client_readable: bool,
    pub client_writable: bool,
    pub terminal_readable: bool,
    pub terminal_writable: bool,
    /// Payload bytes of the current data message still to be written.
    pub remaining: nat,
    pub finished: bool,
    pub pending: Pending,
    /// Everything the client sent, from the first byte of the queue handed to
    /// [`Relay::new`].
    pub client_sent: Seq<u8>,
    /// Everything read from the terminal.
    pub terminal_output: Seq<u8>,
    /// Everything written to the client.
    pub client_received: Seq<u8>,
    /// Everything written to the terminal.
    pub terminal_input: Seq<u8>,
}

/// A point of decision inside one round of the loop.
#[derive(PartialEq, Eq, Debug, Clone, Copy)]
pub enum Stage {
    ReadClient,
    ReadTerminal,
    WriteClient,
    WriteTerminal,
    EndOfRound,
}

/// Stages come in this order within a round.
pub open spec fn stage_rank(s: Stage) -> nat {
    match s {
        Stage::ReadClient => 4,
        Stage::ReadTerminal => 3,
        Stage::WriteClient => 2,
        Stage::WriteTerminal => 1,
        Stage::EndOfRound => 0,
    }
}

/// Whether a poll should block: only when no read can make progress.
pub open spec fn poll_blocks(v: RelayView) -> bool {
    !((v.client_readable && v.from_client_queue.len() < v.from_client_capacity) || (
    v.terminal_readable && v.to_client_queue.len() < v.to_client_capacity))
}

/// The smaller of two numbers.
pub open spec fn min_nat(a: nat, b: nat) -> nat {
    if a < b {
        a
    } else {
        b
    }
}

/// The state after the terminal part of a round has written its bytes or
/// found nothing to write: the next action from `at` on.
pub open spec fn advance(v: RelayView, at: Stage) -> (RelayView, ActionView)
    decreases stage_rank(at),
{
    match at {
        Stage::ReadClient => if v.client_readable && v.from_client_queue.len() < v.from_client_capacity {
            (
                RelayView { pending: Pending::ReadClient, ..v },
                ActionView::ReadClient { max: (v.from_client_capacity - v.from_client_queue.len()) as nat },
            )
        } else {
            advance(v, Stage::ReadTerminal)
        },
        Stage::ReadTerminal => if v.terminal_readable && v.to_client_queue.len() < v.to_client_capacity {
            (
                RelayView { pending: Pending::ReadTerminal, ..v },
                ActionView::ReadTerminal { max: (v.to_client_capacity - v.to_client_queue.len()) as nat },
            )
        } else {
            advance(v, Stage::WriteClient)
        },
        Stage::WriteClient => if v.to_client_queue.len() > 0 && v.client_writable {
            (
                RelayView { pending: Pending::WriteClient(v.to_client_queue.len() as usize), ..v },
                ActionView::WriteClient(v.to_client_queue),
            )
        } else {
            advance(v, Stage::WriteTerminal)
        },
        Stage::WriteTerminal => if v.from_client_queue.len() > 0 && v.terminal_writable {
            if v.remaining == 0 {
                let (frame, rest) = queue_step(v.from_client_queue);
                match frame {
                    None => advance(RelayView { from_client_queue: rest, ..v }, Stage::EndOfRound),
                    Some(Frame::Data(n)) => {
                        let k = min_nat(n as nat, rest.len());
                        (
                            RelayView {
                                from_client_queue: rest,
                                remaining: n as nat,
                                pending: Pending::WriteTerminal(k as usize),
                                ..v
                            },
                            ActionView::WriteTerminal(rest.take(k as int)),
                        )
                    },
                    Some(Frame::Resize { cols, rows }) => (
                        RelayView { from_client_queue: rest, pending: Pending::Resize, ..v },
                        ActionView::Resize { cols, rows },
                    ),
                }
            } else {
                let k = min_nat(v.remaining, v.from_client_queue.len());
                (
                    RelayView { pending: Pending::WriteTerminal(k as usize), ..v },
                    ActionView::WriteTerminal(v.from_client_queue.take(k as int)),
                )
            }
        } else {
            advance(v, Stage::EndOfRound)
        },
        Stage::EndOfRound => if v.finished {
            (RelayView { pending: Pending::Stopped, ..v }, ActionView::Finish)
        } else {
            (RelayView { pending: Pending::Poll, ..v }, ActionView::Poll { block: poll_blocks(v) })
        },
    }
}

/// The flags after one readiness report.
pub open spec fn apply_readiness(v: RelayView, r: Readiness) -> RelayView {
    let v1 = if r.read_closed {
        RelayView { finished: true, ..v }
    } else {
        v
    };
    match r.endpoint {
        Endpoint::Client => RelayView {
            client_readable: v1.client_readable || r.readable,
            client_writable: v1.client_writable || r.writable,
            ..v1
        },
        Endpoint::Terminal => RelayView {
            terminal_readable: v1.terminal_readable || r.readable,
            terminal_writable: v1.terminal_writable || r.writable,
            ..v1
        },
    }
}

/// The flags after the reports of a poll, in order.
pub open spec fn apply_poll(v: RelayView, events: Seq<Readiness>) -> RelayView
    decreases events.len(),
{
    if events.len() == 0 {
        v
    } else {
        apply_readiness(apply_poll(v, events.drop_last()), events.last())
    }
}

/// Whether an input answers the pending action, within the limits it set.
pub open spec fn input_fits(v: RelayView, i: InputView) -> bool {
    match (v.pending, i) {
        (Pending::Start, InputView::Start) => true,
        (Pending::Poll, InputView::Polled(_)) => true,
        (Pending::ReadClient, InputView::Read(r)) => match r {
            ReadOutcomeView::Data(d) => v.from_client_queue.len() + d.len() <= v.from_client_capacity,
            _ => true,
        },
        (Pending::ReadTerminal, InputView::Read(r)) => match r {
            ReadOutcomeView::Data(d) => v.to_client_queue.len() + d.len() <= v.to_client_capacity,
            _ => true,
        },
        (Pending::WriteClient(n), InputView::Wrote(w)) => match w {
            WriteOutcome::Written(k) => k <= n,
            _ => true,
        },
        (Pending::WriteTerminal(n), InputView::Wrote(w)) => match w {
            WriteOutcome::Written(k) => k <= n,
            _ => true,
        },
        (Pending::Resize, InputView::Resized(_)) => true,
        _ => false,
    }
}

/// The state after taking in the outcome of the pending action, and the
/// stage the round goes on from; `Err` names the failed I/O that ends the
/// relay.
pub open spec fn take_input(v: RelayView, i: InputView) -> Result<(RelayView, Stage), Failure>
    recommends
        input_fits(v, i),
{
    match i {
        InputView::Start => Ok((v, Stage::EndOfRound)),
        InputView::Polled(events) => Ok((apply_poll(v, events), Stage::ReadClient)),
        InputView::Read(r) => if v.pending == Pending::ReadClient {
            match r {
                ReadOutcomeView::Data(d) => if d.len() == 0 {
                    Ok((RelayView { finished: true, ..v }, Stage::ReadTerminal))
                } else {
                    Ok((
                        RelayView {
                            from_client_queue: v.from_client_queue + d,
                            client_sent: v.client_sent + d,
                            ..v
                        },
                        Stage::ReadClient,
                    ))
                },
                ReadOutcomeView::WouldBlock => Ok((RelayView { client_readable: false, ..v }, Stage::ReadTerminal)),
                ReadOutcomeView::Failed => if v.finished {
                    Ok((v, Stage::ReadTerminal))
                } else {
                    Err(Failure::ReadClient)
                },
            }
        } else {
            match r {
                ReadOutcomeView::Data(d) => if d.len() == 0 {
                    Ok((RelayView { finished: true, ..v }, Stage::WriteClient))
                } else {
                    Ok((
                        RelayView {
                            to_client_queue: v.to_client_queue + d,
                            terminal_output: v.terminal_output + d,
                            ..v
                        },
                        Stage::ReadTerminal,
                    ))
                },
                ReadOutcomeView::WouldBlock => Ok((RelayView { terminal_readable: false, ..v }, Stage::WriteClient)),
                ReadOutcomeView::Failed => if v.finished {
                    Ok((v, Stage::WriteClient))
                } else {
                    Err(Failure::ReadTerminal)
                },
            }
        },
        InputView::Wrote(w) => if v.pending is WriteClient {
            match w {
                WriteOutcome::Written(k) => Ok((
                    RelayView {
                        to_client_queue: v.to_client_queue.skip(k as int),
                        client_received: v.client_received + v.to_client_queue.take(k as int),
                        ..v
                    },
                    Stage::WriteClient,
                )),
                WriteOutcome::WouldBlock => Ok((RelayView { client_writable: false, ..v }, Stage::WriteTerminal)),
                WriteOutcome::Failed => if v.finished {
                    Ok((v, Stage::WriteTerminal))
                } else {
                    Err(Failure::WriteClient)
                },
            }
        } else {
            match w {
                WriteOutcome::Written(k) => Ok((
                    RelayView {
                        from_client_queue: v.from_client_queue.skip(k as int),
                        terminal_input: v.terminal_input + v.from_client_queue.take(k as int),
                        remaining: (v.remaining - k) as nat,
                        ..v
                    },
                    Stage::WriteTerminal,
                )),
                WriteOutcome::WouldBlock => Ok((RelayView { terminal_writable: false, ..v }, Stage::EndOfRound)),
                WriteOutcome::Failed => if v.finished {
                    Ok((v, Stage::EndOfRound))
                } else {
                    Err(Failure::WriteTerminal)
                },
            }
        },
        InputView::Resized(ok) => if ok {
            Ok((v, Stage::WriteTerminal))
        } else {
            Ok((v, Stage::EndOfRound))
        },
    }
}

/// The pending action agrees with the state: a pending write never names
/// more bytes than its queue holds, nor, towards the terminal, more than the
/// current data message has left.
pub open spec fn relay_wf(v: RelayView) -> bool {
    &&& v.from_client_queue.len() <= v.from_client_capacity
    &&& v.to_client_queue.len() <= v.to_client_capacity
    &&& match v.pending {
        Pending::WriteClient(n) => n <= v.to_client_queue.len(),
        Pending::WriteTerminal(n) => n <= v.remaining && n <= v.from_client_queue.len(),
        _ => true,
    }
}

/// One step of the relay: the state after taking in `i`, and the next action.
pub open spec fn relay_step(v: RelayView, i: InputView) -> (RelayView, ActionView)
    recommends
        input_fits(v, i),
{
    match take_input(v, i) {
        Err(f) => (RelayView { pending: Pending::Stopped, ..v }, ActionView::Fail(f)),
        Ok((v1, stage)) => advance(v1, stage),
    }
}

/// What the client received is what the terminal produced, in order, but for
/// the bytes still queued towards the client.
pub open spec fn terminal_stream_intact(v: RelayView) -> bool {
    v.terminal_output == v.client_received + v.to_client_queue
}

/// The queue towards the terminal is the unhandled tail of what the client
/// sent.
pub open spec fn client_stream_intact(v: RelayView) -> bool {
    &&& v.from_client_queue.len() <= v.client_sent.len()
    &&& v.from_client_queue == v.client_sent.skip(v.client_sent.len() - v.from_client_queue.len())
}

/// Readiness reports change only the flags.
pub proof fn lemma_apply_poll_keeps_data(v: RelayView, events: Seq<Readiness>)
    ensures
        apply_poll(v, events).from_client_queue == v.from_client_queue,
        apply_poll(v, events).to_client_queue == v.to_client_queue,
        apply_poll(v, events).from_client_capacity == v.from_client_capacity,
        apply_poll(v, events).to_client_capacity == v.to_client_capacity,
        apply_poll(v, events).client_sent == v.client_sent,
        apply_poll(v, events).terminal_output == v.terminal_output,
        apply_poll(v, events).client_received == v.client_received,
        apply_poll(v, events).terminal_input == v.terminal_input,
        apply_poll(v, events).remaining == v.remaining,
        apply_poll(v, events).pending == v.pending,
    decreases events.len(),
{
    if events.len() > 0 {
        lemma_apply_poll_keeps_data(v, events.drop_last());
    }
}

/// Deciding the next action changes neither the history nor the queue
/// towards the client, and only drops bytes from the front of the queue
/// towards the terminal.
pub proof fn lemma_advance_keeps_streams(v: RelayView, at: Stage)
    requires
        terminal_stream_intact(v),
        client_stream_intact(v),
    ensures
        terminal_stream_intact(advance(v, at).0),
        client_stream_intact(advance(v, at).0),
        advance(v, at).0.client_sent == v.client_sent,
        advance(v, at).0.terminal_input == v.terminal_input,
    decreases stage_rank(at),
{
    match at {
        Stage::ReadClient => {
            lemma_advance_keeps_streams(v, Stage::ReadTerminal);
        },
        Stage::ReadTerminal => {
            lemma_advance_keeps_streams(v, Stage::WriteClient);
        },
        Stage::WriteClient => {
            lemma_advance_keeps_streams(v, Stage::WriteTerminal);
        },
        Stage::WriteTerminal => {
            if v.from_client_queue.len() > 0 && v.terminal_writable {
                if v.remaining == 0 {
                    let q = v.from_client_queue;
                    lemma_queue_step_suffix(q);
                    let rest = queue_step(q).1;
                    let s = v.client_sent;
                    assert(q.skip(q.len() - rest.len()) == s.skip(s.len() - rest.len()));
                    let v1 = RelayView { from_client_queue: rest, ..v };
                    assert(client_stream_intact(v1));
                    lemma_advance_keeps_streams(v1, Stage::EndOfRound);
                }
            } else {
                lemma_advance_keeps_streams(v, Stage::EndOfRound);
            }
        },
        Stage::EndOfRound => {},
    }
}

/// Bytes for the terminal always come from the front of the queue, and never
/// more than the current data message has left.
pub proof fn lemma_terminal_writes_follow_messages(v: RelayView, at: Stage)
    ensures
        advance(v, at).1 matches ActionView::WriteTerminal(d) ==> {
            &&& d == advance(v, at).0.from_client_queue.take(d.len() as int)
            &&& d.len() <= advance(v, at).0.remaining
            &&& d.len() <= advance(v, at).0.from_client_queue.len()
        },
    decreases stage_rank(at),
{
    match at {
        Stage::ReadClient => lemma_terminal_writes_follow_messages(v, Stage::ReadTerminal),
        Stage::ReadTerminal => lemma_terminal_writes_follow_messages(v, Stage::WriteClient),
        Stage::WriteClient => lemma_terminal_writes_follow_messages(v, Stage::WriteTerminal),
        Stage::WriteTerminal => {
            if v.from_client_queue.len() > 0 && v.terminal_writable && v.remaining == 0 {
                let rest = queue_step(v.from_client_queue).1;
                lemma_terminal_writes_follow_messages(RelayView { from_client_queue: rest, ..v }, Stage::EndOfRound);
            } else if !(v.from_client_queue.len() > 0 && v.terminal_writable) {
                lemma_terminal_writes_follow_messages(v, Stage::EndOfRound);
            }
        },
        Stage::EndOfRound => {},
    }
}

/// Law of the relay, for every step: a write to the terminal hands over the
/// front of the queue from the client, and never more than the current data
/// message has left.
pub proof fn lemma_relay_terminal_writes(v: RelayView, i: InputView)
    ensures
        relay_step(v, i).1 matches ActionView::WriteTerminal(d) ==> {
            &&& d == relay_step(v, i).0.from_client_queue.take(d.len() as int)
            &&& d.len() <= relay_step(v, i).0.remaining
        },
{
    if let Ok((v1, stage)) = take_input(v, i) {
        lemma_terminal_writes_follow_messages(v1, stage);
    }
}

/// Law of the relay, for every step: what reaches the client is exactly what
/// the terminal produced, in the same order, less what is still queued; and
/// the queue towards the terminal is always the unhandled tail of what the
/// client sent.
pub proof fn lemma_relay_keeps_streams(v: RelayView, i: InputView)
    requires
        relay_wf(v),
        input_fits(v, i),
        terminal_stream_intact(v),
        client_stream_intact(v),
    ensures
        terminal_stream_intact(relay_step(v, i).0),
        client_stream_intact(relay_step(v, i).0),
{
    match take_input(v, i) {
        Err(f) => {},
        Ok((v1, stage)) => {
            match i {
                InputView::Read(ReadOutcomeView::Data(d)) => {
                    if d.len() > 0 {
                        if v.pending == Pending::ReadClient {
                            let s = v.client_sent;
                            let q = v.from_client_queue;
                            assert((q + d) == (s + d).skip((s + d).len() - (q + d).len()));
                        } else {
                            assert(v1.terminal_output == v1.client_received + v1.to_client_queue);
                        }
                    }
                },
                InputView::Wrote(WriteOutcome::Written(k)) => {
                    if v.pending is WriteClient {
                        let q = v.to_client_queue;
                        assert(q.take(k as int) + q.skip(k as int) == q);
                        assert(v1.terminal_output == v1.client_received + v1.to_client_queue);
                    } else {
                        let s = v.client_sent;
                        let q = v.from_client_queue;
                        assert(q.skip(k as int) == s.skip(s.len() - q.skip(k as int).len()));
                    }
                },
                InputView::Polled(events) => {
                    lemma_apply_poll_keeps_data(v, events);
                },
                _ => {},
            }
            assert(terminal_stream_intact(v1));
            assert(client_stream_intact(v1));
            lemma_advance_keeps_streams(v1, stage);
        },
    }
}

/// The capacities and the count of bytes still owed to the terminal are
/// machine-sized, as they are in a [`Relay`].
pub open spec fn relay_bounded(v: RelayView) -> bool {
    &&& v.from_client_capacity <= usize::MAX
    &&& v.to_client_capacity <= usize::MAX
    &&& v.remaining <= usize::MAX
}

/// Deciding the next action keeps the capacities and leaves any pending
/// write within its queue.
proof fn lemma_advance_wf(v: RelayView, at: Stage)
    requires
        v.from_client_queue.len() <= v.from_client_capacity,
        v.to_client_queue.len() <= v.to_client_capacity,
        relay_bounded(v),
    ensures
        relay_wf(advance(v, at).0),
        relay_bounded(advance(v, at).0),
        advance(v, at).0.from_client_capacity == v.from_client_capacity,
        advance(v, at).0.to_client_capacity == v.to_client_capacity,
    decreases stage_rank(at),
{
    match at {
        Stage::ReadClient => lemma_advance_wf(v, Stage::ReadTerminal),
        Stage::ReadTerminal => lemma_advance_wf(v, Stage::WriteClient),
        Stage::WriteClient => lemma_advance_wf(v, Stage::WriteTerminal),
        Stage::WriteTerminal => {
            if v.from_client_queue.len() > 0 && v.terminal_writable {
                if v.remaining == 0 {
                    lemma_queue_step_suffix(v.from_client_queue);
                    let rest = queue_step(v.from_client_queue).1;
                    lemma_advance_wf(RelayView { from_client_queue: rest, ..v }, Stage::EndOfRound);
                }
            } else {
                lemma_advance_wf(v, Stage::EndOfRound);
            }
        },
        Stage::EndOfRound => {},
    }
}

/// One step of the relay keeps it well-formed and within machine sizes.
pub proof fn lemma_relay_step_wf(v: RelayView, i: InputView)
    requires
        relay_wf(v),
        relay_bounded(v),
        input_fits(v, i),
    ensures
        relay_wf(relay_step(v, i).0),
        relay_bounded(relay_step(v, i).0),
{
    match take_input(v, i) {
        Err(f) => {},
        Ok((v1, stage)) => {
            if let InputView::Polled(events) = i {
                lemma_apply_poll_keeps_data(v, events);
            }
            assert(v1.from_client_queue.len() <= v1.from_client_capacity);
            assert(v1.to_client_queue.len() <= v1.to_client_capacity);
            assert(relay_bounded(v1));
            lemma_advance_wf(v1, stage);
        },
    }
}

/// Once the relay has seen an end of stream, deciding the next action stays
/// finished, never fails and never polls: the round ends with `Finish`.
proof fn lemma_advance_finished(v: RelayView, at: Stage)
    requires
        v.finished,
    ensures
        advance(v, at).0.finished,
        !(advance(v, at).1 is Poll),
        !(advance(v, at).1 is Fail),
    decreases stage_rank(at),
{
    match at {
        Stage::ReadClient => lemma_advance_finished(v, Stage::ReadTerminal),
        Stage::ReadTerminal => lemma_advance_finished(v, Stage::WriteClient),
        Stage::WriteClient => lemma_advance_finished(v, Stage::WriteTerminal),
        Stage::WriteTerminal => {
            if v.from_client_queue.len() > 0 && v.terminal_writable && v.remaining == 0 {
                let rest = queue_step(v.from_client_queue).1;
                lemma_advance_finished(RelayView { from_client_queue: rest, ..v }, Stage::EndOfRound);
            } else {
                lemma_advance_finished(v, Stage::EndOfRound);
            }
        },
        Stage::EndOfRound => {},
    }
}

/// A readiness report never takes back an end of stream.
proof fn lemma_apply_poll_keeps_finished(v: RelayView, events: Seq<Readiness>)
    requires
        v.finished,
    ensures
        apply_poll(v, events).finished,
    decreases events.len(),
{
    if events.len() > 0 {
        lemma_apply_poll_keeps_finished(v, events.drop_last());
    }
}

/// Law of the relay: once an end of stream was seen, the relay stays
/// finished, failed I/O is passed over rather than ending it with a
/// failure, and it asks for no further poll, so the round it is in ends with
/// `Finish`.
pub proof fn lemma_relay_finished(v: RelayView, i: InputView)
    requires
        v.finished,
    ensures
        relay_step(v, i).0.finished,
        !(relay_step(v, i).1 is Poll),
        !(relay_step(v, i).1 is Fail),
{
    if let InputView::Polled(events) = i {
        lemma_apply_poll_keeps_finished(v, events);
    }
    if let Ok((v1, stage)) = take_input(v, i) {
        lemma_advance_finished(v1, stage);
    }
}

/// Deciding the next action only sets what is pending and, when no data
/// message is under way, reads message headers off the queue from the
/// client; the rest of the state stays.
proof fn lemma_advance_frame(v: RelayView, at: Stage)
    ensures
        advance(v, at).0.to_client_queue == v.to_client_queue,
        advance(v, at).0.client_received == v.client_received,
        advance(v, at).0.terminal_output == v.terminal_output,
        advance(v, at).0.terminal_input == v.terminal_input,
        advance(v, at).0.client_sent == v.client_sent,
        advance(v, at).0.client_readable == v.client_readable,
        advance(v, at).0.client_writable == v.client_writable,
        advance(v, at).0.terminal_readable == v.terminal_readable,
        advance(v, at).0.terminal_writable == v.terminal_writable,
        advance(v, at).0.from_client_capacity == v.from_client_capacity,
        advance(v, at).0.to_client_capacity == v.to_client_capacity,
        advance(v, at).0.finished == v.finished,
        v.remaining > 0 ==> advance(v, at).0.remaining == v.remaining && advance(v, at).0.from_client_queue
            == v.from_client_queue,
    decreases stage_rank(at),
{
    match at {
        Stage::ReadClient => lemma_advance_frame(v, Stage::ReadTerminal),
        Stage::ReadTerminal => lemma_advance_frame(v, Stage::WriteClient),
        Stage::WriteClient => lemma_advance_frame(v, Stage::WriteTerminal),
        Stage::WriteTerminal => {
            if v.from_client_queue.len() > 0 && v.terminal_writable && v.remaining == 0 {
                let rest = queue_step(v.from_client_queue).1;
                lemma_advance_frame(RelayView { from_client_queue: rest, ..v }, Stage::EndOfRound);
            } else {
                lemma_advance_frame(v, Stage::EndOfRound);
            }
        },
        Stage::EndOfRound => {},
    }
}

/// Law of the relay on data messages: when no message is under way and the
/// terminal can be written, a `0:LEN:` header at the front of the queue from
/// the client makes the relay owe the terminal all `LEN` payload bytes,
/// however many of them have arrived yet, and it writes those present, up
/// to `LEN`, at once.
pub proof fn lemma_header_owes_length(v: RelayView, n: usize, rest: Seq<u8>)
    requires
        v.remaining == 0,
        v.terminal_writable,
        v.from_client_queue.len() > 0,
        queue_step(v.from_client_queue) == (Some(Frame::Data(n)), rest),
    ensures
        advance(v, Stage::WriteTerminal).0.remaining == n,
        advance(v, Stage::WriteTerminal).0.from_client_queue == rest,
        advance(v, Stage::WriteTerminal).1 == ActionView::WriteTerminal(
            rest.take(if n < rest.len() { n as int } else { rest.len() as int }),
        ),
{
}

/// Law of the relay on data messages: while a message owes the terminal
/// bytes and some are queued, the terminal, when writable, is handed as many
/// of them as are both owed and queued, from the front of the queue.
pub proof fn lemma_owed_bytes_written(v: RelayView)
    requires
        v.remaining > 0,
        v.terminal_writable,
        v.from_client_queue.len() > 0,
    ensures
        advance(v, Stage::WriteTerminal).1 == ActionView::WriteTerminal(
            v.from_client_queue.take(
                if v.remaining < v.from_client_queue.len() { v.remaining as int } else { v.from_client_queue.len() as int },
            ),
        ),
        advance(v, Stage::WriteTerminal).0.remaining == v.remaining,
{
}

/// Law of the relay on output: when bytes are queued towards the client and
/// it can be written, the whole queue is handed to it.
pub proof fn lemma_queued_output_written(v: RelayView)
    requires
        v.to_client_queue.len() > 0,
        v.client_writable,
    ensures
        advance(v, Stage::WriteClient).1 == ActionView::WriteClient(v.to_client_queue),
{
}

/// Law of the relay on data messages: while a message still owes the
/// terminal bytes, nothing but a write to the terminal changes what it owes
/// or the queue from the client, so payload bytes that arrive in later reads
/// still go to the terminal.
pub proof fn lemma_owed_bytes_kept(v: RelayView, i: InputView)
    requires
        v.remaining > 0,
        !(v.pending is WriteTerminal),
        input_fits(v, i),
    ensures
        relay_step(v, i).0.remaining == v.remaining,
        relay_step(v, i).0.terminal_input == v.terminal_input,
{
    if let InputView::Polled(events) = i {
        lemma_apply_poll_keeps_data(v, events);
    }
    if let Ok((v1, stage)) = take_input(v, i) {
        if let InputView::Polled(events) = i {
            assert(v1.remaining == v.remaining);
        }
        lemma_advance_frame(v1, stage);
    }
}

/// Law of the relay on writes to the terminal: a write of `k` bytes hands
/// over exactly the first `k` bytes of the queue from the client and lowers
/// what the current message owes by `k`; while it owes more and more of it
/// is queued, the next action writes on, as much as it owes and is there.
pub proof fn lemma_terminal_write_accounting(v: RelayView, m: usize, k: usize)
    requires
        relay_wf(v),
        v.pending == Pending::WriteTerminal(m),
        k <= m,
        k < v.remaining,
    ensures
        ({
            let (w, a) = relay_step(v, InputView::Wrote(WriteOutcome::Written(k)));
            let q = v.from_client_queue;
            &&& w.terminal_input == v.terminal_input + q.take(k as int)
            &&& w.from_client_queue == q.skip(k as int)
            &&& w.remaining == v.remaining - k
            &&& (v.terminal_writable && k < q.len()) ==> a == ActionView::WriteTerminal(
                q.skip(k as int).take(
                    if v.remaining - k < q.len() - k { v.remaining - k } else { q.len() - k },
                ),
            )
        }),
{
    let (v1, stage) = take_input(v, InputView::Wrote(WriteOutcome::Written(k)))->Ok_0;
    lemma_advance_frame(v1, stage);
}

/// Law of the relay on writes to the client: a write of `k` bytes removes
/// exactly `k` bytes from the queue towards the client, which are what the
/// client received; while bytes remain and the client can be written, the
/// next action writes the rest.
pub proof fn lemma_client_write_accounting(v: RelayView, n: usize, k: usize)
    requires
        v.pending == Pending::WriteClient(n),
        k <= n,
    ensures
        ({
            let (w, a) = relay_step(v, InputView::Wrote(WriteOutcome::Written(k)));
            &&& w.to_client_queue == v.to_client_queue.skip(k as int)
            &&& w.client_received == v.client_received + v.to_client_queue.take(k as int)
            &&& (v.client_writable && k < v.to_client_queue.len()) ==> a == ActionView::WriteClient(
                v.to_client_queue.skip(k as int),
            )
        }),
{
    let (v1, stage) = take_input(v, InputView::Wrote(WriteOutcome::Written(k)))->Ok_0;
    lemma_advance_frame(v1, stage);
}

/// Whether one of the ends can be read now: it is readable and its queue has
/// room.
pub open spec fn can_read_now(v: RelayView) -> bool {
    ||| (v.client_readable && v.from_client_queue.len() < v.from_client_capacity)
    ||| (v.terminal_readable && v.to_client_queue.len() < v.to_client_capacity)
}

proof fn lemma_advance_poll(v: RelayView, at: Stage)
    ensures
        advance(v, at).1 matches ActionView::Poll { block } ==> block == !can_read_now(advance(v, at).0),
    decreases stage_rank(at),
{
    match at {
        Stage::ReadClient => lemma_advance_poll(v, Stage::ReadTerminal),
        Stage::ReadTerminal => lemma_advance_poll(v, Stage::WriteClient),
        Stage::WriteClient => lemma_advance_poll(v, Stage::WriteTerminal),
        Stage::WriteTerminal => {
            if v.from_client_queue.len() > 0 && v.terminal_writable && v.remaining == 0 {
                let rest = queue_step(v.from_client_queue).1;
                lemma_advance_poll(RelayView { from_client_queue: rest, ..v }, Stage::EndOfRound);
            } else {
                lemma_advance_poll(v, Stage::EndOfRound);
            }
        },
        Stage::EndOfRound => {},
    }
}

/// Law of the relay on waiting: a poll blocks exactly when neither end can
/// be read now, so output of the terminal that fits the queue towards the
/// client, or input from the client that fits its queue, is never left
/// waiting for an event.
pub proof fn lemma_poll_blocks_only_when_idle(v: RelayView, i: InputView)
    ensures
        relay_step(v, i).1 matches ActionView::Poll { block } ==> block == !can_read_now(relay_step(v, i).0),
{
    if let Ok((v1, stage)) = take_input(v, i) {
        lemma_advance_poll(v1, stage);
    }
}

/// The state after the relay took in `inputs`, one after another.
pub open spec fn relay_run(v: RelayView, inputs: Seq<InputView>) -> RelayView
    decreases inputs.len(),
{
    if inputs.len() == 0 {
        v
    } else {
        relay_run(relay_step(v, inputs[0]).0, inputs.drop_first())
    }
}

/// Each of `inputs` answers the action pending when it comes.
pub open spec fn run_fits(v: RelayView, inputs: Seq<InputView>) -> bool
    decreases inputs.len(),
{
    inputs.len() == 0 || (input_fits(v, inputs[0]) && run_fits(relay_step(v, inputs[0]).0, inputs.drop_first()))
}

/// Law of the relay over a whole session: from a relay as [`Relay::new`]
/// makes it, after any run of inputs that answer the pending actions, the
/// client has received a prefix of what the terminal produced, unchanged and
/// in order, and only the bytes still queued towards the client are missing;
/// the queue towards the terminal is the unhandled tail of what the client
/// sent.
pub proof fn lemma_relay_session(v: RelayView, inputs: Seq<InputView>)
    requires
        relay_wf(v),
        relay_bounded(v),
        terminal_stream_intact(v),
        client_stream_intact(v),
        run_fits(v, inputs),
    ensures
        relay_wf(relay_run(v, inputs)),
        terminal_stream_intact(relay_run(v, inputs)),
        client_stream_intact(relay_run(v, inputs)),
        relay_run(v, inputs).terminal_output.take(relay_run(v, inputs).client_received.len() as int)
            == relay_run(v, inputs).client_received,
    decreases inputs.len(),
{
    if inputs.len() > 0 {
        lemma_relay_step_wf(v, inputs[0]);
        lemma_relay_keeps_streams(v, inputs[0]);
        lemma_relay_session(relay_step(v, inputs[0]).0, inputs.drop_first());
    } else {
        let r = v;
        assert(r.terminal_output.take(r.client_received.len() as int) == r.client_received);
    }
}

/// The relay between the client and the terminal.
pub struct Relay {
    from_client: ByteBuffer,
    to_client: ByteBuffer,
    client_readable: bool,
    client_writable: bool,
    terminal_readable: bool,
    terminal_writable: bool,
    remaining: usize,
    finished: bool,
    pending: Pending,
    client_sent: Ghost<Seq<u8>>,
    terminal_output: Ghost<Seq<u8>>,
    client_received: Ghost<Seq<u8>>,
    terminal_input: Ghost<Seq<u8>>,
}

impl View for Relay {
    type V = RelayView;

    closed spec fn view(&self) -> RelayView {
        RelayView {
            from_client_queue: self.from_client@,
            from_client_capacity: self.from_client.spec_capacity(),
            to_client_queue: self.to_client@,
            to_client_capacity: self.to_client.spec_capacity(),
            client_readable: self.client_readable,
            client_writable: self.client_writable,
            terminal_readable: self.terminal_readable,
            terminal_writable: self.terminal_writable,
            remaining: self.remaining as nat,
            finished: self.finished,
            pending: self.pending,
            client_sent: self.client_sent@,
            terminal_output: self.terminal_output@,
            client_received: self.client_received@,
            terminal_input: self.terminal_input@,
        }
    }
}

impl Relay {
    /// A relay whose client queue starts with what `from_client` holds (what
    /// followed the authentication line); every end counts as ready.
    pub fn new(from_client: ByteBuffer) -> (r: Relay)
        ensures
            r@.from_client_queue == from_client@,
            r@.from_client_capacity == from_client.spec_capacity(),
            r@.to_client_queue == Seq::<u8>::empty(),
            r@.to_client_capacity == DEFAULT_CAPACITY,
            r@.client_readable && r@.client_writable && r@.terminal_readable && r@.terminal_writable,
            r@.remaining == 0,
            !r@.finished,
            r@.pending == Pending::Start,
            r@.client_sent == from_client@,
            r@.terminal_output == Seq::<u8>::empty(),
            r@.client_received == Seq::<u8>::empty(),
            r@.terminal_input == Seq::<u8>::empty(),
            relay_wf(r@),
            relay_bounded(r@),
            terminal_stream_intact(r@),
            client_stream_intact(r@),
    {
        proof {
            from_client.lemma_capacity_bound();
        }
        let ghost initial = from_client@;
        // `len` also tells that the queue is within its capacity.
        let _ = from_client.len();
        assert(initial.skip(0) == initial);
        Relay {
            from_client,
            to_client: ByteBuffer::new(),
            client_readable: true,
            client_writable: true,
            terminal_readable: true,
            terminal_writable: true,
            remaining: 0,
            finished: false,
            pending: Pending::Start,
            client_sent: Ghost(initial),
            terminal_output: Ghost(Seq::empty()),
            client_received: Ghost(Seq::empty()),
            terminal_input: Ghost(Seq::empty()),
        }
    }

    /// Takes in the outcome of the pending action (or `Start` the first time)
    /// and returns the next action. After `Finish` or `Fail` nothing more is
    /// asked.
    pub fn resume(&mut self, input: Input) -> (a: Action)
        requires
            relay_wf(old(self)@),
            input_fits(old(self)@, input@),
        ensures
            relay_wf(final(self)@),
            (final(self)@, a@) == relay_step(old(self)@, input@),
            terminal_stream_intact(old(self)@) && client_stream_intact(old(self)@) ==> terminal_stream_intact(
                final(self)@,
            ) && client_stream_intact(final(self)@),
    {
        proof {
            if terminal_stream_intact(self@) && client_stream_intact(self@) {
                lemma_relay_keeps_streams(self@, input@);
            }
        }
        match self.take_input(input) {
            Ok(stage) => self.advance(stage),
            Err(f) => {
                self.pending = Pending::Stopped;
                Action::Fail(f)
            },
        }
    }

    /// Applies the reports of a poll to the readiness flags.
    fn apply_poll(&mut self, events: Vec<Readiness>)
        ensures
            final(self)@ == apply_poll(old(self)@, events@),
    {
        let mut i: usize = 0;
        while i < events.len()
            invariant
                i <= events@.len(),
                self@ == apply_poll(old(self)@, events@.take(i as int)),
            decreases events@.len() - i,
        {
            let r = events[i];
            if r.read_closed {
                self.finished = true;
            }
            match r.endpoint {
                Endpoint::Client => {
                    if r.readable {
                        self.client_readable = true;
                    }
                    if r.writable {
                        self.client_writable = true;
                    }
                },
                Endpoint::Terminal => {
                    if r.readable {
                        self.terminal_readable = true;
                    }
                    if r.writable {
                        self.terminal_writable = true;
                    }
                },
            }
            i = i + 1;
            assert(events@.take(i as int).drop_last() == events@.take(i - 1));
        }
        assert(events@.take(i as int) == events@);
    }

    /// Takes in the outcome of the pending action: the stage the round goes
    /// on from, or the failure that ends the relay.
    #[verifier::rlimit(30)]
    fn take_input(&mut self, input: Input) -> (r: Result<Stage, Failure>)
        requires
            relay_wf(old(self)@),
            input_fits(old(self)@, input@),
        ensures
            match take_input(old(self)@, input@) {
                Ok((v, stage)) => r == Ok::<Stage, Failure>(stage) && final(self)@ == v,
                Err(f) => r == Err::<Stage, Failure>(f) && final(self)@ == old(self)@,
            },
            final(self)@.from_client_queue.len() <= final(self)@.from_client_capacity,
            final(self)@.to_client_queue.len() <= final(self)@.to_client_capacity,
    {
        // `len` also tells that each queue is within its capacity.
        let _ = self.from_client.len();
        let _ = self.to_client.len();
        let stage = match input {
            Input::Start => Stage::EndOfRound,
            Input::Polled(events) => {
                self.apply_poll(events);
                Stage::ReadClient
            },
            Input::Read(outcome) => {
                if let Pending::ReadClient = self.pending {
                    match outcome {
                        ReadOutcome::Data(d) => {
                            if d.len() == 0 {
                                self.finished = true;
                                Stage::ReadTerminal
                            } else {
                                self.from_client.extend_from_slice(d.as_slice());
                                self.client_sent = Ghost(self.client_sent@ + d@);
                                Stage::ReadClient
                            }
                        },
                        ReadOutcome::WouldBlock => {
                            self.client_readable = false;
                            Stage::ReadTerminal
                        },
                        ReadOutcome::Failed => {
                            if !self.finished {
                                return Err(Failure::ReadClient);
                            }
                            Stage::ReadTerminal
                        },
                    }
                } else {
                    match outcome {
                        ReadOutcome::Data(d) => {
                            if d.len() == 0 {
                                self.finished = true;
                                Stage::WriteClient
                            } else {
                                self.to_client.extend_from_slice(d.as_slice());
                                self.terminal_output = Ghost(self.terminal_output@ + d@);
                                Stage::ReadTerminal
                            }
                        },
                        ReadOutcome::WouldBlock => {
                            self.terminal_readable = false;
                            Stage::WriteClient
                        },
                        ReadOutcome::Failed => {
                            if !self.finished {
                                return Err(Failure::ReadTerminal);
                            }
                            Stage::WriteClient
                        },
                    }
                }
            },
            Input::Wrote(outcome) => {
                if let Pending::WriteClient(_) = self.pending {
                    match outcome {
                        WriteOutcome::Written(k) => {
                            let ghost q = self.to_client@;
                            self.to_client.consume(k);
                            self.client_received = Ghost(self.client_received@ + q.take(k as int));
                            Stage::WriteClient
                        },
                        WriteOutcome::WouldBlock => {
                            self.client_writable = false;
                            Stage::WriteTerminal
                        },
                        WriteOutcome::Failed => {
                            if !self.finished {
                                return Err(Failure::WriteClient);
                            }
                            Stage::WriteTerminal
                        },
                    }
                } else {
                    match outcome {
                        WriteOutcome::Written(k) => {
                            let ghost q = self.from_client@;
                            self.remaining = self.remaining - k;
                            self.from_client.consume(k);
                            self.terminal_input = Ghost(self.terminal_input@ + q.take(k as int));
                            Stage::WriteTerminal
                        },
                        WriteOutcome::WouldBlock => {
                            self.terminal_writable = false;
                            Stage::EndOfRound
                        },
                        WriteOutcome::Failed => {
                            if !self.finished {
                                return Err(Failure::WriteTerminal);
                            }
                            Stage::EndOfRound
                        },
                    }
                }
            },
            Input::Resized(ok) => {
                if ok {
                    Stage::WriteTerminal
                } else {
                    Stage::EndOfRound
                }
            },
        };
        let _ = self.from_client.len();
        let _ = self.to_client.len();
        Ok(stage)
    }

    /// The next action from the stage `at` of the current round.
    fn advance(&mut self, at: Stage) -> (a: Action)
        requires
            old(self)@.from_client_queue.len() <= old(self)@.from_client_capacity,
            old(self)@.to_client_queue.len() <= old(self)@.to_client_capacity,
        ensures
            relay_wf(final(self)@),
            (final(self)@, a@) == advance(old(self)@, at),
        decreases stage_rank(at),
    {
        match at {
            Stage::ReadClient => {
                if self.client_readable && !self.from_client.is_full() {
                    self.pending = Pending::ReadClient;
                    Action::ReadClient { max: self.from_client.free_size() }
                } else {
                    self.advance(Stage::ReadTerminal)
                }
            },
            Stage::ReadTerminal => {
                if self.terminal_readable && !self.to_client.is_full() {
                    self.pending = Pending::ReadTerminal;
                    Action::ReadTerminal { max: self.to_client.free_size() }
                } else {
                    self.advance(Stage::WriteClient)
                }
            },
            Stage::WriteClient => {
                if !self.to_client.is_empty() && self.client_writable {
                    let n = self.to_client.len();
                    self.pending = Pending::WriteClient(n);
                    let data = self.to_client.copy_front(n);
                    assert(data@ =~= self.to_client@);
                    Action::WriteClient(data)
                } else {
                    self.advance(Stage::WriteTerminal)
                }
            },
            Stage::WriteTerminal => {
                if !self.from_client.is_empty() && self.terminal_writable {
                    if self.remaining == 0 {
                        proof {
                            lemma_queue_step_suffix(self.from_client@);
                        }
                        match process_queue(&mut self.from_client) {
                            None => {
                                return self.advance(Stage::EndOfRound);
                            },
                            Some(Frame::Data(n)) => {
                                self.remaining = n;
                            },
                            Some(Frame::Resize { cols, rows }) => {
                                self.pending = Pending::Resize;
                                return Action::Resize { cols, rows };
                            },
                        }
                    }
                    let len = self.from_client.len();
                    let k = if self.remaining < len { self.remaining } else { len };
                    self.pending = Pending::WriteTerminal(k);
                    Action::WriteTerminal(self.from_client.copy_front(k))
                } else {
                    self.advance(Stage::EndOfRound)
                }
            },
            Stage::EndOfRound => {
                if self.finished {
                    self.pending = Pending::Stopped;
                    Action::Finish
                } else {
                    let block = !(self.client_readable && !self.from_client.is_full()
                        || self.terminal_readable && !self.to_client.is_full());
                    self.pending = Pending::Poll;
                    Action::Poll { block }
                }
            },
        }
    }
}

} // verus!
