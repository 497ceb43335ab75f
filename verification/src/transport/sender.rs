//! The responder: the peer that plays the name server. It keeps the chat
//! messages that wait to be sent and answers each query with one reply for
//! each of them, in the order in which they were queued.
//!
//! The responder decides and the caller acts: the caller binds the listener,
//! accepts, reads and writes, and tells the responder what happened.
use crate::dns::messages::{
    message_encodable, message_wire, parse_message, reply_of, DNSMessage, MessageView,
};
use crate::dns::types::{RecordData, RecordDataView};
use crate::transport::framing::{first_frame, frame, frame_wire, FrameReader, MAX_FRAME, PREFIX_LEN};
use crate::transport::{record_of, ChatError, ChatMessage};
use vstd::prelude::*;

verus! {

/// Where the responder stands.
#[derive(Debug, Clone, Copy, PartialEq, Eq, Structural)]
pub enum ResponderState {
    /// No connection is open and none is waited for.
    Idle,
    /// Waiting for a connection.
    Listening,
    /// A connection was accepted and its request is being read.
    Accepting,
    /// The replies are being written.
    Replying,
}

/// What happened to the last action of the responder.
#[derive(Debug, PartialEq)]
pub enum ResponderEvent {
    /// The listener is bound, or the last connection is closed.
    Ready,
    /// No connection is waiting.
    WouldBlock,
    /// A connection was accepted.
    Accepted,
    /// Bytes were read from the connection.
    Data(Vec<u8>),
    /// The peer has sent all it will send.
    EndOfStream,
    /// The peer has reset the connection.
    Reset,
    /// The replies were written and flushed.
    Sent,
    /// The action failed for another reason.
    Failed,
}

/// An event as a mathematical value.
pub enum ResponderEventView {
    Ready,
    WouldBlock,
    Accepted,
    Data(Seq<u8>),
    EndOfStream,
    Reset,
    Sent,
    Failed,
}

impl View for ResponderEvent {
    type V = ResponderEventView;

    open spec fn view(&self) -> ResponderEventView {
        match self {
            ResponderEvent::Ready => ResponderEventView::Ready,
            ResponderEvent::WouldBlock => ResponderEventView::WouldBlock,
            ResponderEvent::Accepted => ResponderEventView::Accepted,
            ResponderEvent::Data(bytes) => ResponderEventView::Data(bytes@),
            ResponderEvent::EndOfStream => ResponderEventView::EndOfStream,
            ResponderEvent::Reset => ResponderEventView::Reset,
            ResponderEvent::Sent => ResponderEventView::Sent,
            ResponderEvent::Failed => ResponderEventView::Failed,
        }
    }
}

/// What the caller is to do next.
#[derive(Debug, PartialEq)]
pub enum ResponderAction {
    /// Take in the chat messages that wait to be sent, then try to accept a
    /// connection without blocking.
    Accept,
    /// Read from the connection.
    Read,
    /// Write these frames to the connection, in this order, and flush.
    Send(Vec<Vec<u8>>),
    /// Close the connection.
    Close,
    /// Give up: the last action failed for good, or the event does not fit
    /// the state.
    Stop,
}

/// An action as a mathematical value.
#[verifier::ext_equal]
pub enum ResponderActionView {
    Accept,
    Read,
    Send(Seq<Seq<u8>>),
    Close,
    Stop,
}

/// The bytes that each of the vectors holds.
pub open spec fn frames_of(frames: Seq<Vec<u8>>) -> Seq<Seq<u8>> {
    Seq::new(frames.len(), |i: int| frames[i]@)
}

/// What each of the records holds.
pub open spec fn record_views(records: Seq<RecordData>) -> Seq<RecordDataView> {
    Seq::new(records.len(), |i: int| records[i]@)
}

impl View for ResponderAction {
    type V = ResponderActionView;

    open spec fn view(&self) -> ResponderActionView {
        match self {
            ResponderAction::Accept => ResponderActionView::Accept,
            ResponderAction::Read => ResponderActionView::Read,
            ResponderAction::Send(frames) => ResponderActionView::Send(frames_of(frames@)),
            ResponderAction::Close => ResponderActionView::Close,
            ResponderAction::Stop => ResponderActionView::Stop,
        }
    }
}

/// The frame of the reply to `query` that carries `record`; none where no
/// such reply can be built, written or framed.
pub open spec fn reply_frame(query: MessageView, record: RecordDataView) -> Option<Seq<u8>> {
    match reply_of(query, record) {
        None => None,
        Some(reply) => if message_encodable(reply) && message_wire(reply).len() <= MAX_FRAME {
            Some(frame_wire(message_wire(reply)))
        } else {
            None
        },
    }
}

/// The frames of the replies to `query`, one for each record that a reply
/// can carry, in the order of the records.
pub open spec fn reply_frames(query: MessageView, records: Seq<RecordDataView>) -> Seq<Seq<u8>>
    decreases records.len(),
{
    if records.len() == 0 {
        Seq::empty()
    } else {
        let before = reply_frames(query, records.drop_last());
        match reply_frame(query, records.last()) {
            Some(framed) => before.push(framed),
            None => before,
        }
    }
}

/// The frames that answer a request: the replies to the query that the
/// request holds, or nothing where it holds no query.
pub open spec fn answer_frames(request: Seq<u8>, records: Seq<RecordDataView>) -> Seq<Seq<u8>> {
    match parse_message(request) {
        Ok(query) => reply_frames(query, records),
        Err(_) => Seq::empty(),
    }
}

/// The records that still wait when a request was answered: all of them
/// where the request held no query, else none.
pub open spec fn waiting_after(request: Seq<u8>, records: Seq<RecordDataView>) -> Seq<
    RecordDataView,
> {
    if parse_message(request) is Ok {
        Seq::empty()
    } else {
        records
    }
}

/// The request that is taken from a stream that ended early: the bytes
/// behind the length prefix, or nothing where not even the prefix came.
pub open spec fn partial_request(received: Seq<u8>) -> Seq<u8> {
    if received.len() >= PREFIX_LEN {
        received.subrange(PREFIX_LEN as int, received.len() as int)
    } else {
        Seq::empty()
    }
}

/// The responder as a mathematical value.
#[verifier::ext_equal]
pub struct ResponderView {
    /// Where the responder stands.
    pub state: ResponderState,
    /// The records that wait to be sent, the oldest first.
    pub waiting: Seq<RecordDataView>,
    /// The bytes of the request that were read so far.
    pub received: Seq<u8>,
}

/// The state that follows a state and an event, and the action to take.
pub open spec fn responder_step(before: ResponderView, event: ResponderEventView) -> (
    ResponderView,
    ResponderActionView,
) {
    let idle = ResponderView { state: ResponderState::Idle, received: Seq::empty(), ..before };
    match (before.state, event) {
        (ResponderState::Idle, ResponderEventView::Ready) => (
            ResponderView { state: ResponderState::Listening, ..idle },
            ResponderActionView::Accept,
        ),
        (ResponderState::Listening, ResponderEventView::WouldBlock) => (
            ResponderView { state: ResponderState::Listening, ..idle },
            ResponderActionView::Accept,
        ),
        (ResponderState::Listening, ResponderEventView::Accepted) => (
            ResponderView { state: ResponderState::Accepting, ..idle },
            ResponderActionView::Read,
        ),
        (ResponderState::Accepting, ResponderEventView::Data(bytes)) => match first_frame(
            before.received + bytes,
        ) {
            Some((request, _)) => (
                ResponderView {
                    state: ResponderState::Replying,
                    waiting: waiting_after(request, before.waiting),
                    received: Seq::empty(),
                },
                ResponderActionView::Send(answer_frames(request, before.waiting)),
            ),
            None => (
                ResponderView { received: before.received + bytes, ..before },
                ResponderActionView::Read,
            ),
        },
        (ResponderState::Accepting, ResponderEventView::EndOfStream) => (
            ResponderView {
                state: ResponderState::Replying,
                waiting: waiting_after(partial_request(before.received), before.waiting),
                received: Seq::empty(),
            },
            ResponderActionView::Send(
                answer_frames(partial_request(before.received), before.waiting),
            ),
        ),
        (ResponderState::Accepting, ResponderEventView::Reset) => (
            idle,
            ResponderActionView::Close,
        ),
        (ResponderState::Replying, ResponderEventView::Sent) => (idle, ResponderActionView::Close),
        (ResponderState::Replying, ResponderEventView::Reset) => (idle, ResponderActionView::Close),
        _ => (idle, ResponderActionView::Stop),
    }
}

/// Builds the frames of the replies to `query`, one for each record.
pub fn build_replies(query: &DNSMessage, records: &Vec<RecordData>) -> (frames: Vec<Vec<u8>>)
    ensures
        frames_of(frames@) == reply_frames(query@, record_views(records@)),
{
    let ghost all = record_views(records@);
    let mut frames: Vec<Vec<u8>> = Vec::new();
    let mut i: usize = 0;
    while i < records.len()
        invariant
            i <= records@.len(),
            all == record_views(records@),
            frames_of(frames@) == reply_frames(query@, all.take(i as int)),
        decreases records@.len() - i,
    {
        proof {
            assert(all.take(i + 1).drop_last() =~= all.take(i as int));
        }
        match query.reply_with(&records[i]) {
            Some(reply) => match reply.encode() {
                Ok(bytes) => match frame(bytes.as_slice()) {
                    Some(framed) => {
                        frames.push(framed);
                    },
                    None => {},
                },
                Err(_) => {},
            },
            None => {},
        }
        i += 1;
    }
    assert(all.take(i as int) =~= all);
    frames
}

/// The responder: where it stands, what waits to be sent, and what it has
/// read of the request.
pub struct Responder {
    state: ResponderState,
    waiting: Vec<RecordData>,
    reader: FrameReader,
}

impl View for Responder {
    type V = ResponderView;

    closed spec fn view(&self) -> ResponderView {
        ResponderView {
            state: self.state,
            waiting: record_views(self.waiting@),
            received: self.reader@,
        }
    }
}

impl Responder {
    /// A responder with nothing to send, before the listener is bound.
    pub fn new() -> (responder: Self)
        ensures
            responder@ == (ResponderView {
                state: ResponderState::Idle,
                waiting: Seq::empty(),
                received: Seq::empty(),
            }),
    {
        Responder { state: ResponderState::Idle, waiting: Vec::new(), reader: FrameReader::new() }
    }

    /// Where the responder stands.
    pub fn state(&self) -> (state: ResponderState)
        ensures
            state == self@.state,
    {
        self.state
    }

    /// How many records wait to be sent.
    pub fn waiting(&self) -> (count: usize)
        ensures
            count == self@.waiting.len(),
    {
        self.waiting.len()
    }

    /// Puts the record of a chat message behind the records that wait. A
    /// message that has no record is refused, and nothing changes.
    pub fn enqueue(&mut self, message: &ChatMessage) -> (r: Result<(), ChatError>)
        ensures
            match r {
                Ok(_) => {
                    &&& record_of(message@) matches Ok(record)
                    &&& final(self)@ == (ResponderView {
                        waiting: old(self)@.waiting.push(record),
                        ..old(self)@
                    })
                },
                Err(e) => {
                    &&& record_of(message@) == Err::<RecordDataView, _>(e)
                    &&& final(self)@ == old(self)@
                },
            },
    {
        match message.to_record() {
            Ok(record) => {
                self.waiting.push(record);
                Ok(())
            },
            Err(e) => Err(e),
        }
    }

    /// Answers a request with all the records that wait. Where the request
    /// holds no query they go on waiting and nothing is sent.
    fn answer(&mut self, request: &[u8]) -> (frames: Vec<Vec<u8>>)
        ensures
            frames_of(frames@) == answer_frames(request@, old(self)@.waiting),
            final(self)@ == (ResponderView {
                waiting: waiting_after(request@, old(self)@.waiting),
                ..old(self)@
            }),
    {
        match DNSMessage::decode(request) {
            Ok(query) => {
                let frames = build_replies(&query, &self.waiting);
                self.waiting.clear();
                frames
            },
            Err(_) => Vec::new(),
        }
    }

    /// Takes in what happened and says what to do next.
    pub fn step(&mut self, event: ResponderEvent) -> (action: ResponderAction)
        ensures
            (final(self)@, action@) == responder_step(old(self)@, event@),
    {
        match (self.state, event) {
            (ResponderState::Idle, ResponderEvent::Ready) => {
                self.reader.clear();
                self.state = ResponderState::Listening;
                ResponderAction::Accept
            },
            (ResponderState::Listening, ResponderEvent::WouldBlock) => {
                self.reader.clear();
                ResponderAction::Accept
            },
            (ResponderState::Listening, ResponderEvent::Accepted) => {
                self.reader.clear();
                self.state = ResponderState::Accepting;
                ResponderAction::Read
            },
            (ResponderState::Accepting, ResponderEvent::Data(bytes)) => {
                self.reader.feed(bytes.as_slice());
                match self.reader.next_frame() {
                    Some(request) => {
                        self.reader.clear();
                        let frames = self.answer(request.as_slice());
                        self.state = ResponderState::Replying;
                        ResponderAction::Send(frames)
                    },
                    None => ResponderAction::Read,
                }
            },
            (ResponderState::Accepting, ResponderEvent::EndOfStream) => {
                let request = match self.reader.take_partial() {
                    Some(bytes) => bytes,
                    None => Vec::new(),
                };
                let frames = self.answer(request.as_slice());
                self.state = ResponderState::Replying;
                ResponderAction::Send(frames)
            },
            (ResponderState::Accepting, ResponderEvent::Reset) => {
                self.reader.clear();
                self.state = ResponderState::Idle;
                ResponderAction::Close
            },
            (ResponderState::Replying, ResponderEvent::Sent) => {
                self.reader.clear();
                self.state = ResponderState::Idle;
                ResponderAction::Close
            },
            (ResponderState::Replying, ResponderEvent::Reset) => {
                self.reader.clear();
                self.state = ResponderState::Idle;
                ResponderAction::Close
            },
            _ => {
                self.reader.clear();
                self.state = ResponderState::Idle;
                ResponderAction::Stop
            },
        }
    }
}

} // verus!
