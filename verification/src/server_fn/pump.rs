//! The connection pump: one task that moves messages between a WebSocket and the
//! channels of a server function.
//!
//! The pump is a machine that names the next operation to perform; whoever drives
//! it performs the operation and hands back what came of it.

use crate::server_fn::frames::{self, Assembly, ClosePayload, Frame, FrameError};
use vstd::prelude::*;

verus! {

/// How many rounds the pump makes before it yields to other tasks.
pub const ROUNDS: usize = 32;

/// What came of polling an operation that can fail.
#[derive(Clone, Copy, Debug, PartialEq, Eq, Structural)]
pub enum Polled {
    Ready,
    Failed,
    Pending,
}

/// What came of polling the outgoing channel.
#[derive(Debug)]
pub enum Outgoing {
    Message(Vec<u8>),
    Ended,
    Pending,
}

/// What came of polling the transport for a frame.
#[derive(Debug)]
pub enum Incoming {
    Frame(Frame),
    Rejected(FrameError),
    /// Nothing to read now, or the write buffer is full.
    Pending,
    Failed,
}

/// How a connection ended.
#[derive(Debug)]
pub enum Ending {
    /// The transport is gone: nothing can be sent.
    Lost,
    /// The peer is sent a close frame with this reason.
    Close(Option<ClosePayload>),
    /// The peer broke the protocol or a limit: the application is told, and the
    /// peer is sent a close frame with this reason.
    Fail(ClosePayload),
}

/// What the pump waits for.
#[derive(Debug)]
pub enum Event {
    /// Whether the peer has disconnected.
    Disconnected(bool),
    /// Flushing the transport, before output.
    Flushed(Polled),
    /// Polling the outgoing channel.
    Output(Outgoing),
    /// Encoding an outgoing message.
    Encoded(bool),
    /// Flushing the transport, before input.
    Writable(bool),
    /// Polling the incoming channel for room; a failure means its receiver is gone.
    Room(Polled),
    /// Polling the transport for a frame.
    Received(Incoming),
    /// Handing a message to the incoming channel.
    Delivered(bool),
    /// An operation without a result was performed.
    Done,
}

/// What to do next.
#[derive(Debug)]
pub enum Action {
    PollDisconnect,
    PollFlush,
    PollOutput,
    /// Encode a binary message.
    Encode(Vec<u8>),
    PollWritable,
    PollRoom,
    PollReceive,
    /// Answer a ping.
    Pong(Vec<u8>),
    /// Hand a message to the incoming channel.
    Deliver(Vec<u8>),
    /// Stop reading from the transport until there is room.
    Pause,
    /// Wait for the next wake-up.
    Wait,
    /// Let others run, and go on.
    Yield,
    Finish(Ending),
}

/// Which event the pump expects.
#[derive(Clone, Copy, Debug, PartialEq, Eq, Structural)]
pub enum Stage {
    Disconnect,
    Flush,
    Output,
    Encode,
    Writable,
    Room,
    Receive,
    Deliver,
    /// The rest of a round, after an operation without a result.
    Settle,
    Finished,
}

/// The state of a connection.
pub struct Pump {
    pub stage: Stage,
    pub assembly: Assembly,
    pub limit: usize,
    /// Whether the application still takes input.
    pub input_open: bool,
    /// Whether this round moved anything.
    pub progress: bool,
    /// Rounds left before yielding.
    pub rounds: usize,
}

impl Stage {
    /// The event that a stage expects.
    pub open spec fn expects(self, event: Event) -> bool {
        match self {
            Stage::Disconnect => event is Disconnected,
            Stage::Flush => event is Flushed,
            Stage::Output => event is Output,
            Stage::Encode => event is Encoded,
            Stage::Writable => event is Writable,
            Stage::Room => event is Room,
            Stage::Receive => event is Received,
            Stage::Deliver => event is Delivered,
            Stage::Settle => event is Done,
            Stage::Finished => false,
        }
    }
}

impl Pump {
    /// There is at least one round to make.
    pub open spec fn valid(self) -> bool {
        1 <= self.rounds <= ROUNDS
    }

    /// Only the stage differs.
    pub open spec fn moved(self, before: Pump, stage: Stage) -> bool {
        &&& self.stage == stage
        &&& self.assembly == before.assembly
        &&& self.limit == before.limit
        &&& self.input_open == before.input_open
        &&& self.progress == before.progress
        &&& self.rounds == before.rounds
    }

    /// As `moved`, and this round has moved something.
    pub open spec fn progressed(self, before: Pump, stage: Stage) -> bool {
        &&& self.stage == stage
        &&& self.assembly == before.assembly
        &&& self.limit == before.limit
        &&& self.input_open == before.input_open
        &&& self.progress
        &&& self.rounds == before.rounds
    }

    /// The end of a round. Without progress the pump waits; with progress it makes
    /// another round, until it has made enough of them and yields.
    pub open spec fn round_ended(self, before: Pump, progress: bool, action: Action) -> bool {
        &&& self.assembly == before.assembly
        &&& self.limit == before.limit
        &&& self.input_open == before.input_open
        &&& self.stage == Stage::Disconnect
        &&& !self.progress
        &&& if !progress {
            action is Wait && self.rounds == ROUNDS
        } else if before.rounds == 1 {
            action is Yield && self.rounds == ROUNDS
        } else {
            action is PollDisconnect && self.rounds == before.rounds - 1
        }
    }

    /// The connection is over.
    pub open spec fn ended(self, before: Pump) -> bool {
        self.moved(before, Stage::Finished)
    }

    /// A connection with nothing moved yet.
    pub fn new(limit: usize) -> (pump: Pump)
        ensures
            pump.valid(),
            pump.stage == Stage::Disconnect,
            pump.assembly@ is None,
            pump.limit == limit,
            pump.input_open,
            !pump.progress,
            pump.rounds == ROUNDS,
    {
        Pump {
            stage: Stage::Disconnect,
            assembly: Assembly::new(),
            limit,
            input_open: true,
            progress: false,
            rounds: ROUNDS,
        }
    }

    fn end_round(&mut self) -> (action: Action)
        requires
            old(self).valid(),
        ensures
            final(self).valid(),
            final(self).round_ended(*old(self), old(self).progress, action),
    {
        let progress = self.progress;
        self.stage = Stage::Disconnect;
        self.progress = false;
        if !progress {
            self.rounds = ROUNDS;
            Action::Wait
        } else if self.rounds == 1 {
            self.rounds = ROUNDS;
            Action::Yield
        } else {
            self.rounds = self.rounds - 1;
            Action::PollDisconnect
        }
    }

    fn finish(&mut self, ending: Ending) -> (action: Action)
        requires
            old(self).valid(),
        ensures
            final(self).valid(),
            final(self).ended(*old(self)),
            action matches Action::Finish(e) && e == ending,
    {
        self.stage = Stage::Finished;
        Action::Finish(ending)
    }

    /// Looks at whether the peer is gone, then at the transport.
    fn on_disconnected(&mut self, gone: bool) -> (action: Action)
        requires
            old(self).valid(),
        ensures
            final(self).valid(),
            outcome(*old(self), Event::Disconnected(gone), *final(self), action),
    {
        if gone {
            self.finish(Ending::Lost)
        } else {
            self.stage = Stage::Flush;
            Action::PollFlush
        }
    }

    /// Output is taken only while the transport can be flushed.
    fn on_flushed(&mut self, polled: Polled) -> (action: Action)
        requires
            old(self).valid(),
        ensures
            final(self).valid(),
            outcome(*old(self), Event::Flushed(polled), *final(self), action),
    {
        match polled {
            Polled::Failed => self.finish(Ending::Lost),
            Polled::Ready => {
                self.stage = Stage::Output;
                Action::PollOutput
            },
            Polled::Pending => {
                self.stage = Stage::Writable;
                Action::PollWritable
            },
        }
    }

    /// Every outgoing message is encoded; the end of the channel closes the
    /// connection without a reason.
    fn on_output(&mut self, polled: Outgoing) -> (action: Action)
        requires
            old(self).valid(),
        ensures
            final(self).valid(),
            outcome(*old(self), Event::Output(polled), *final(self), action),
    {
        match polled {
            Outgoing::Message(bytes) => {
                self.stage = Stage::Encode;
                Action::Encode(bytes)
            },
            Outgoing::Ended => self.finish(Ending::Close(None)),
            Outgoing::Pending => {
                self.stage = Stage::Writable;
                Action::PollWritable
            },
        }
    }

    fn on_encoded(&mut self, encoded: bool) -> (action: Action)
        requires
            old(self).valid(),
        ensures
            final(self).valid(),
            outcome(*old(self), Event::Encoded(encoded), *final(self), action),
    {
        if encoded {
            self.progress = true;
            self.stage = Stage::Writable;
            Action::PollWritable
        } else {
            self.finish(Ending::Lost)
        }
    }

    /// Input is read only while an answer could be written. Room for a message is
    /// asked for first, unless the application takes no more input.
    fn on_writable(&mut self, writable: bool) -> (action: Action)
        requires
            old(self).valid(),
        ensures
            final(self).valid(),
            outcome(*old(self), Event::Writable(writable), *final(self), action),
    {
        if !writable {
            self.end_round()
        } else if self.input_open {
            self.stage = Stage::Room;
            Action::PollRoom
        } else {
            self.stage = Stage::Receive;
            Action::PollReceive
        }
    }

    /// Without room reading pauses. A receiver that is gone closes the input, and
    /// reading goes on for control frames.
    fn on_room(&mut self, polled: Polled) -> (action: Action)
        requires
            old(self).valid(),
        ensures
            final(self).valid(),
            outcome(*old(self), Event::Room(polled), *final(self), action),
    {
        match polled {
            Polled::Ready => {
                self.stage = Stage::Receive;
                Action::PollReceive
            },
            Polled::Failed => {
                self.input_open = false;
                self.stage = Stage::Receive;
                Action::PollReceive
            },
            Polled::Pending => {
                self.stage = Stage::Settle;
                Action::Pause
            },
        }
    }

    /// A frame that carries data.
    fn on_data(&mut self, frame: Frame) -> (action: Action)
        requires
            old(self).valid(),
        ensures
            final(self).valid(),
            data_outcome(*old(self), frame, *final(self), action),
    {
        let limit = self.limit;
        self.progress = true;
        match self.assembly.accept(frame, limit) {
            Ok(Some(bytes)) => {
                if self.input_open {
                    self.stage = Stage::Deliver;
                    Action::Deliver(bytes)
                } else {
                    self.end_round()
                }
            },
            Ok(None) => self.end_round(),
            Err(error) => {
                let reason = error.reason(limit);
                self.stage = Stage::Finished;
                Action::Finish(Ending::Fail(reason))
            },
        }
    }

    /// What a frame from the transport leads to.
    fn on_received(&mut self, polled: Incoming) -> (action: Action)
        requires
            old(self).valid(),
        ensures
            final(self).valid(),
            outcome(*old(self), Event::Received(polled), *final(self), action),
    {
        match polled {
            Incoming::Frame(Frame::Close(reason)) => self.finish(Ending::Close(reason)),
            Incoming::Frame(Frame::Ping(bytes)) => {
                self.progress = true;
                self.stage = Stage::Settle;
                Action::Pong(bytes)
            },
            Incoming::Frame(Frame::Pong(_)) => {
                self.progress = true;
                self.end_round()
            },
            Incoming::Frame(frame) => self.on_data(frame),
            Incoming::Rejected(error) => {
                let limit = self.limit;
                self.finish(Ending::Fail(error.reason(limit)))
            },
            Incoming::Pending => self.end_round(),
            Incoming::Failed => self.finish(Ending::Lost),
        }
    }

    /// A receiver that refuses a message closes the input.
    fn on_delivered(&mut self, delivered: bool) -> (action: Action)
        requires
            old(self).valid(),
        ensures
            final(self).valid(),
            outcome(*old(self), Event::Delivered(delivered), *final(self), action),
    {
        if !delivered {
            self.input_open = false;
        }
        self.end_round()
    }

    /// Takes the event that the stage expects, and names the next operation.
    pub fn step(&mut self, event: Event) -> (action: Action)
        requires
            old(self).valid(),
            old(self).stage.expects(event),
        ensures
            final(self).valid(),
            outcome(*old(self), event, *final(self), action),
    {
        match event {
            Event::Disconnected(gone) => self.on_disconnected(gone),
            Event::Flushed(polled) => self.on_flushed(polled),
            Event::Output(polled) => self.on_output(polled),
            Event::Encoded(encoded) => self.on_encoded(encoded),
            Event::Writable(writable) => self.on_writable(writable),
            Event::Room(polled) => self.on_room(polled),
            Event::Received(polled) => self.on_received(polled),
            Event::Delivered(delivered) => self.on_delivered(delivered),
            Event::Done => self.end_round(),
        }
    }
}

/// The connection ends because of `error`: the reason says which limit or rule.
pub open spec fn failed_with(action: Action, error: FrameError, limit: usize) -> bool {
    &&& action matches Action::Finish(Ending::Fail(reason))
    &&& reason.code == error.close_code()
    &&& reason.description matches Some(d)
    &&& d@ == error.description(limit)
}

/// What a data frame leads to: a message for the application, another round, or
/// the end of the connection.
pub open spec fn data_outcome(before: Pump, frame: Frame, after: Pump, action: Action) -> bool {
    let (partial, result) = frames::accepted(before.assembly@, frame, before.limit);
    &&& after.assembly@ == partial
    &&& after.limit == before.limit
    &&& after.input_open == before.input_open
    &&& match result {
        Err(error) => after.stage == Stage::Finished && failed_with(action, error, before.limit),
        Ok(Some(message)) => if before.input_open {
            &&& action matches Action::Deliver(b)
            &&& b@ == message
            &&& after.stage == Stage::Deliver
            &&& after.progress
            &&& after.rounds == before.rounds
        } else {
            next_round(before, after, action)
        },
        Ok(None) => next_round(before, after, action),
    }
}

/// A round that moved something is over.
pub open spec fn next_round(before: Pump, after: Pump, action: Action) -> bool {
    &&& after.stage == Stage::Disconnect
    &&& !after.progress
    &&& if before.rounds == 1 {
        action is Yield && after.rounds == ROUNDS
    } else {
        action is PollDisconnect && after.rounds == before.rounds - 1
    }
}

/// The state and the operation that follow an event.
pub open spec fn outcome(before: Pump, event: Event, after: Pump, action: Action) -> bool {
    match event {
        Event::Disconnected(true) => after.ended(before) && (action matches Action::Finish(
            Ending::Lost,
        )),
        Event::Disconnected(false) => after.moved(before, Stage::Flush) && action is PollFlush,
        Event::Flushed(Polled::Failed) => after.ended(before) && (action matches Action::Finish(
            Ending::Lost,
        )),
        Event::Flushed(Polled::Ready) => after.moved(before, Stage::Output) && action is PollOutput,
        Event::Flushed(Polled::Pending) => after.moved(before, Stage::Writable)
            && action is PollWritable,
        Event::Output(Outgoing::Message(bytes)) => after.moved(before, Stage::Encode) && (
        action matches Action::Encode(b) && b@ == bytes@),
        Event::Output(Outgoing::Ended) => after.ended(before) && (action matches Action::Finish(
            Ending::Close(None),
        )),
        Event::Output(Outgoing::Pending) => after.moved(before, Stage::Writable)
            && action is PollWritable,
        Event::Encoded(true) => after.progressed(before, Stage::Writable) && action is PollWritable,
        Event::Encoded(false) => after.ended(before) && (action matches Action::Finish(
            Ending::Lost,
        )),
        Event::Writable(false) => after.round_ended(before, before.progress, action),
        Event::Writable(true) => if before.input_open {
            after.moved(before, Stage::Room) && action is PollRoom
        } else {
            after.moved(before, Stage::Receive) && action is PollReceive
        },
        Event::Room(Polled::Ready) => after.moved(before, Stage::Receive) && action is PollReceive,
        Event::Room(Polled::Failed) => after.moved(
            (Pump { input_open: false, ..before }),
            Stage::Receive,
        ) && action is PollReceive,
        Event::Room(Polled::Pending) => after.moved(before, Stage::Settle) && action is Pause,
        Event::Received(Incoming::Frame(Frame::Close(reason))) => after.ended(before) && (
        action matches Action::Finish(Ending::Close(r)) && r == reason),
        Event::Received(Incoming::Frame(Frame::Ping(bytes))) => after.progressed(
            before,
            Stage::Settle,
        ) && (action matches Action::Pong(b) && b@ == bytes@),
        Event::Received(Incoming::Frame(Frame::Pong(_))) => after.round_ended(before, true, action),
        Event::Received(Incoming::Frame(frame)) => data_outcome(before, frame, after, action),
        Event::Received(Incoming::Rejected(error)) => after.ended(before) && failed_with(
            action,
            error,
            before.limit,
        ),
        Event::Received(Incoming::Pending) => after.round_ended(before, before.progress, action),
        Event::Received(Incoming::Failed) => after.ended(before) && (action matches Action::Finish(
            Ending::Lost,
        )),
        Event::Delivered(delivered) => after.round_ended(
            (Pump { input_open: before.input_open && delivered, ..before }),
            before.progress,
            action,
        ),
        Event::Done => after.round_ended(before, before.progress, action),
    }
}

// ---------------------------------------------------------------------------
// Laws
// ---------------------------------------------------------------------------
/// A frame is read only when an answer could be written, and when the
/// application has room for a message or takes no more input.
pub proof fn reading_waits_for_room(before: Pump, event: Event, after: Pump, action: Action)
    requires
        before.valid(),
        before.stage.expects(event),
        outcome(before, event, after, action),
        action is PollReceive,
    ensures
        before.stage == Stage::Room || (event == Event::Writable(true) && !before.input_open),
        before.stage == Stage::Room ==> event != Event::Room(Polled::Pending),
{
}

/// Room is asked for only when an answer could be written.
pub proof fn room_is_asked_for_when_writable(
    before: Pump,
    event: Event,
    after: Pump,
    action: Action,
)
    requires
        before.valid(),
        before.stage.expects(event),
        outcome(before, event, after, action),
        action is PollRoom,
    ensures
        event == Event::Writable(true),
        before.input_open,
{
}

/// Closed input stays closed, and nothing is delivered to it.
pub proof fn closed_input_stays_closed(before: Pump, event: Event, after: Pump, action: Action)
    requires
        before.valid(),
        before.stage.expects(event),
        outcome(before, event, after, action),
    ensures
        !before.input_open ==> !after.input_open,
        action is Deliver ==> before.input_open,
{
}

/// How far a stage is from the end of its round.
pub open spec fn distance(stage: Stage) -> int {
    match stage {
        Stage::Disconnect => 9,
        Stage::Flush => 8,
        Stage::Output => 7,
        Stage::Encode => 6,
        Stage::Writable => 5,
        Stage::Room => 4,
        Stage::Receive => 3,
        Stage::Deliver => 2,
        Stage::Settle => 1,
        Stage::Finished => 0,
    }
}

/// The operations left before the pump waits, yields or finishes.
pub open spec fn remaining(pump: Pump) -> int {
    pump.rounds * 10 + distance(pump.stage)
}

/// The pump never runs on without end: every step that neither waits, yields nor
/// finishes brings it closer to one that does.
pub proof fn work_is_bounded(before: Pump, event: Event, after: Pump, action: Action)
    requires
        before.valid(),
        before.stage.expects(event),
        outcome(before, event, after, action),
        !(action is Wait),
        !(action is Yield),
        !(action is Finish),
    ensures
        0 <= remaining(after) < remaining(before),
{
}

/// The message in progress never exceeds the limit, and what the application is
/// handed does not either.
pub proof fn delivered_messages_fit(before: Pump, event: Event, after: Pump, action: Action)
    requires
        before.valid(),
        before.stage.expects(event),
        outcome(before, event, after, action),
        before.assembly@ matches Some((_, sofar)) ==> sofar.len() <= before.limit,
    ensures
        after.limit == before.limit,
        after.assembly@ matches Some((_, sofar)) ==> sofar.len() <= after.limit,
        action matches Action::Deliver(message) ==> message@.len() <= before.limit,
{
    if let Event::Received(Incoming::Frame(frame)) = event {
        frames::messages_respect_the_limit(before.assembly@, frame, before.limit);
    }
}

/// What the application sends goes out as it is.
pub proof fn outgoing_messages_are_encoded(
    before: Pump,
    bytes: Vec<u8>,
    after: Pump,
    action: Action,
)
    requires
        outcome(before, Event::Output(Outgoing::Message(bytes)), after, action),
    ensures
        action matches Action::Encode(sent) && sent@ == bytes@,
        after.stage == Stage::Encode,
        after.assembly@ == before.assembly@,
        after.input_open == before.input_open,
{
}

/// A message that comes in one frame and fits is handed to the application as it is, as
/// long as that takes input; a message in progress waits for its next fragment.
pub proof fn incoming_messages_are_delivered(
    before: Pump,
    bytes: Vec<u8>,
    after: Pump,
    action: Action,
)
    requires
        bytes@.len() <= before.limit,
        outcome(before, Event::Received(Incoming::Frame(Frame::Binary(bytes))), after, action) || (
        vstd::utf8::valid_utf8(bytes@) && outcome(
            before,
            Event::Received(Incoming::Frame(Frame::Text(bytes))),
            after,
            action,
        )),
    ensures
        after.assembly@ == before.assembly@,
        before.input_open ==> (action matches Action::Deliver(message) && message@ == bytes@),
        before.input_open ==> after.stage == Stage::Deliver,
        !before.input_open ==> !(action is Deliver) && after.stage == Stage::Disconnect,
{
}

/// The last fragment of a message that fits hands over all of it, and ends it.
pub proof fn last_fragments_deliver_the_message(
    before: Pump,
    sofar: Seq<u8>,
    bytes: Vec<u8>,
    after: Pump,
    action: Action,
)
    requires
        before.input_open,
        before.assembly@ == Some((false, sofar)) || (before.assembly@ == Some((true, sofar))
            && vstd::utf8::valid_utf8(sofar + bytes@)),
        sofar.len() + bytes@.len() <= before.limit,
        outcome(
            before,
            Event::Received(Incoming::Frame(Frame::Continuation(frames::Fragment::Last(bytes)))),
            after,
            action,
        ),
    ensures
        action matches Action::Deliver(message) && message@ == sofar + bytes@,
        after.assembly@ is None,
{
}

/// A message over the limit ends the connection with the close code for size, and text
/// that is malformed with the one for invalid data.
pub proof fn bad_messages_end_the_connection(
    before: Pump,
    bytes: Vec<u8>,
    after: Pump,
    action: Action,
)
    ensures
        bytes@.len() > before.limit && outcome(
            before,
            Event::Received(Incoming::Frame(Frame::Binary(bytes))),
            after,
            action,
        ) ==> after.stage == Stage::Finished && (action matches Action::Finish(Ending::Fail(reason))
            && reason.code == 1009),
        bytes@.len() <= before.limit && !vstd::utf8::valid_utf8(bytes@) && outcome(
            before,
            Event::Received(Incoming::Frame(Frame::Text(bytes))),
            after,
            action,
        ) ==> after.stage == Stage::Finished && (action matches Action::Finish(Ending::Fail(reason))
            && reason.code == 1007),
{
}

/// A ping is answered with its own bytes, and a close with its own reason; a pong is
/// taken in silence.
pub proof fn control_frames_are_answered(
    before: Pump,
    bytes: Vec<u8>,
    reason: Option<ClosePayload>,
    after: Pump,
    action: Action,
)
    ensures
        outcome(before, Event::Received(Incoming::Frame(Frame::Ping(bytes))), after, action) ==> (
        action matches Action::Pong(answer) && answer@ == bytes@) && after.assembly@
            == before.assembly@ && after.stage != Stage::Finished,
        outcome(before, Event::Received(Incoming::Frame(Frame::Close(reason))), after, action) ==> (
        action matches Action::Finish(Ending::Close(sent)) && sent == reason) && after.stage
            == Stage::Finished,
        outcome(before, Event::Received(Incoming::Frame(Frame::Pong(bytes))), after, action)
            ==> !(action is Finish) && !(action is Pong) && !(action is Deliver)
            && after.assembly@ == before.assembly@,
{
}

/// The connection ends without a word where the transport is gone, with a close where the
/// application has no more to send, and with the reason where the peer was rejected; in
/// no other case but those and a close or a bad message of the peer.
pub proof fn connections_end_for_a_reason(before: Pump, event: Event, after: Pump, action: Action)
    requires
        before.stage.expects(event),
        outcome(before, event, after, action),
    ensures
        action is Finish <==> after.stage == Stage::Finished,
        event == Event::Disconnected(true) || event == Event::Flushed(Polled::Failed) || event
            == Event::Encoded(false) || event == Event::Received(Incoming::Failed) ==> (
        action matches Action::Finish(Ending::Lost)),
        event == Event::Output(Outgoing::Ended) ==> (action matches Action::Finish(
            Ending::Close(None),
        )),
        event matches Event::Received(Incoming::Rejected(error)) ==> (
        action matches Action::Finish(Ending::Fail(reason)) && reason.code == error.close_code()),
        action matches Action::Finish(Ending::Lost) ==> event == Event::Disconnected(true) || event
            == Event::Flushed(Polled::Failed) || event == Event::Encoded(false) || event
            == Event::Received(Incoming::Failed),
        action matches Action::Finish(Ending::Fail(_)) ==> event is Received,
{
}

/// A round polls the transport, the output and the input in turn: output is asked for
/// only behind a flush, and where that is pending, or nothing is to be sent, the input is
/// looked at all the same.
pub proof fn rounds_poll_everything_in_turn(before: Pump, event: Event, after: Pump, action: Action)
    requires
        before.stage.expects(event),
        outcome(before, event, after, action),
    ensures
        event == Event::Disconnected(false) ==> action is PollFlush && after.stage == Stage::Flush,
        event == Event::Flushed(Polled::Ready) <==> action is PollOutput,
        event == Event::Flushed(Polled::Pending) || event == Event::Output(Outgoing::Pending)
            || event == Event::Encoded(true) <==> action is PollWritable,
        event == Event::Writable(true) && before.input_open ==> action is PollRoom,
        event == Event::Writable(true) && !before.input_open ==> action is PollReceive,
        event == Event::Room(Polled::Ready) || event == Event::Room(Polled::Failed)
            ==> action is PollReceive,
        event == Event::Room(Polled::Pending) ==> action is Pause,
        event == Event::Encoded(true) ==> after.progress,
{
}

/// The application stops taking input exactly if its channel is gone, and a round ends
/// by waiting exactly if nothing moved in it.
pub proof fn input_closes_with_its_channel(before: Pump, event: Event, after: Pump, action: Action)
    requires
        before.valid(),
        before.stage.expects(event),
        outcome(before, event, after, action),
    ensures
        before.input_open && !after.input_open <==> before.input_open && (event == Event::Room(
            Polled::Failed,
        ) || event == Event::Delivered(false)),
        action is Wait ==> !before.progress,
        action is Yield ==> before.rounds == 1,
        (event == Event::Done || event is Delivered || event == Event::Writable(false) || event
            == Event::Received(Incoming::Pending)) && !before.progress ==> action is Wait,
        (event == Event::Done || event is Delivered || event == Event::Writable(false) || event
            == Event::Received(Incoming::Pending)) && before.progress && before.rounds > 1
            ==> action is PollDisconnect && after.rounds == before.rounds - 1,
        (event == Event::Done || event is Delivered || event == Event::Writable(false) || event
            == Event::Received(Incoming::Pending)) && before.progress && before.rounds == 1
            ==> action is Yield && after.rounds == ROUNDS,
        action is Wait || action is Yield || action is PollDisconnect ==> after.stage
            == Stage::Disconnect && !after.progress,
        after.limit == before.limit,
{
}

/// A pump that receives a message in one frame hands it on as it is, where it fits and the
/// application takes input.
pub proof fn pumps_deliver_what_they_receive(
    pump: &mut Pump,
    bytes: Vec<u8>,
    action: Action,
)
    requires
        old(pump).valid(),
        old(pump).stage == Stage::Receive,
        old(pump).input_open,
        bytes@.len() <= old(pump).limit,
        call_ensures(
            Pump::step,
            (pump, Event::Received(Incoming::Frame(Frame::Binary(bytes)))),
            action,
        ),
    ensures
        action matches Action::Deliver(message) && message@ == bytes@,
        final(pump).valid(),
        final(pump).assembly@ == old(pump).assembly@,
{
    incoming_messages_are_delivered(*old(pump), bytes, *final(pump), action);
}

/// A pump that is handed a message encodes it as it is, and then looks at its input.
pub proof fn pumps_send_what_they_are_handed(
    pump: &mut Pump,
    later: &mut Pump,
    bytes: Vec<u8>,
    action: Action,
    next: Action,
)
    requires
        old(pump).valid(),
        old(pump).stage == Stage::Output,
        call_ensures(Pump::step, (pump, Event::Output(Outgoing::Message(bytes))), action),
        *old(later) == *final(pump),
        call_ensures(Pump::step, (later, Event::Encoded(true)), next),
    ensures
        action matches Action::Encode(sent) && sent@ == bytes@,
        next is PollWritable,
        final(later).progress,
{
    outgoing_messages_are_encoded(*old(pump), bytes, *final(pump), action);
}

} // verus!
