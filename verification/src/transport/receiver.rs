//! The poller: the peer that plays the resolver. Time and again it sends one
//! query to the other side and harvests the chat messages from the replies.
//!
//! The poller decides and the caller acts: the caller connects, writes, reads
//! and sleeps, and tells the poller what happened.
use crate::dns::messages::{
    message_encodable, message_wire, parse_message, request_of, DNSMessage,
};
use crate::transport::framing::{first_frame, frame, frame_wire, FrameReader, MAX_FRAME};
use crate::transport::{answers_in, message_views, messages_of, ChatMessage, ChatMessageView};
use vstd::prelude::*;

verus! {

/// The id of the queries that the poller sends.
pub const REQUEST_ID: u16 = 23481;

/// The seconds that the poller sleeps between two exchanges.
pub const PAUSE_SECS: u64 = 5;

/// Where the poller stands.
#[derive(Debug, Clone, Copy, PartialEq, Eq, Structural)]
pub enum PollerState {
    /// A connection is being made.
    Connect,
    /// The query is being written.
    Send,
    /// Replies are being read.
    ReceiveLoop,
    /// The connection is being closed.
    Disconnect,
    /// The poller pauses before the next exchange.
    Sleep,
}

/// What happened to the last action of the poller.
#[derive(Debug, PartialEq)]
pub enum PollerEvent {
    /// The pause is over, or the loop starts.
    Woke,
    /// The connection is made.
    Connected,
    /// The other side refused the connection.
    Refused,
    /// The query was written and flushed.
    Sent,
    /// Bytes were read from the connection.
    Data(Vec<u8>),
    /// The other side closed or reset the connection.
    Closed,
    /// The connection is closed on this side.
    Disconnected,
    /// The action failed for another reason.
    Failed,
}

/// An event as a mathematical value.
pub enum PollerEventView {
    Woke,
    Connected,
    Refused,
    Sent,
    Data(Seq<u8>),
    Closed,
    Disconnected,
    Failed,
}

impl View for PollerEvent {
    type V = PollerEventView;

    open spec fn view(&self) -> PollerEventView {
        match self {
            PollerEvent::Woke => PollerEventView::Woke,
            PollerEvent::Connected => PollerEventView::Connected,
            PollerEvent::Refused => PollerEventView::Refused,
            PollerEvent::Sent => PollerEventView::Sent,
            PollerEvent::Data(bytes) => PollerEventView::Data(bytes@),
            PollerEvent::Closed => PollerEventView::Closed,
            PollerEvent::Disconnected => PollerEventView::Disconnected,
            PollerEvent::Failed => PollerEventView::Failed,
        }
    }
}

/// What the caller is to do next.
#[derive(Debug, PartialEq)]
pub enum PollerAction {
    /// Connect to the other side.
    Connect,
    /// Write this frame to the connection and flush.
    Send(Vec<u8>),
    /// Read from the connection.
    Read,
    /// Hand these chat messages on, in this order, then read from the
    /// connection.
    Deliver(Vec<ChatMessage>),
    /// Close the connection.
    Disconnect,
    /// Sleep for this many seconds.
    Sleep(u64),
    /// Give up: the last action failed for good, or the event does not fit
    /// the state.
    Stop,
}

/// An action as a mathematical value.
#[verifier::ext_equal]
pub enum PollerActionView {
    Connect,
    Send(Seq<u8>),
    Read,
    Deliver(Seq<ChatMessageView>),
    Disconnect,
    Sleep(u64),
    Stop,
}

impl View for PollerAction {
    type V = PollerActionView;

    open spec fn view(&self) -> PollerActionView {
        match self {
            PollerAction::Connect => PollerActionView::Connect,
            PollerAction::Send(framed) => PollerActionView::Send(framed@),
            PollerAction::Read => PollerActionView::Read,
            PollerAction::Deliver(messages) => PollerActionView::Deliver(message_views(messages@)),
            PollerAction::Disconnect => PollerActionView::Disconnect,
            PollerAction::Sleep(secs) => PollerActionView::Sleep(*secs),
            PollerAction::Stop => PollerActionView::Stop,
        }
    }
}

/// The chat messages that one reply carries: those of its TXT answers, or
/// none where the reply is no DNS message or one of its TXT answers carries
/// no chat message.
pub open spec fn frame_messages(reply: Seq<u8>) -> Seq<ChatMessageView> {
    match parse_message(reply) {
        Err(_) => Seq::empty(),
        Ok(message) => match messages_of(answers_in(message)) {
            Ok(messages) => messages,
            Err(_) => Seq::empty(),
        },
    }
}

/// The chat messages that the complete frames of a stream carry, in order,
/// and the bytes behind the last complete frame.
pub open spec fn harvest(stream: Seq<u8>) -> (Seq<ChatMessageView>, Seq<u8>)
    decreases stream.len(),
{
    match first_frame(stream) {
        None => (Seq::empty(), stream),
        Some((reply, rest)) => (frame_messages(reply) + harvest(rest).0, harvest(rest).1),
    }
}

/// The poller as a mathematical value.
#[verifier::ext_equal]
pub struct PollerView {
    /// Where the poller stands.
    pub state: PollerState,
    /// The frame of the query that the poller sends.
    pub query: Seq<u8>,
    /// The bytes that were read and belong to no complete frame.
    pub received: Seq<u8>,
}

/// The state that follows a state and an event, and the action to take.
pub open spec fn poller_step(before: PollerView, event: PollerEventView) -> (
    PollerView,
    PollerActionView,
) {
    let fresh = PollerView { received: Seq::empty(), ..before };
    match (before.state, event) {
        (PollerState::Sleep, PollerEventView::Woke) => (
            PollerView { state: PollerState::Connect, ..fresh },
            PollerActionView::Connect,
        ),
        (PollerState::Connect, PollerEventView::Connected) => (
            PollerView { state: PollerState::Send, ..fresh },
            PollerActionView::Send(before.query),
        ),
        (PollerState::Connect, PollerEventView::Refused) => (
            PollerView { state: PollerState::Sleep, ..fresh },
            PollerActionView::Sleep(PAUSE_SECS),
        ),
        (PollerState::Send, PollerEventView::Sent) => (
            PollerView { state: PollerState::ReceiveLoop, ..fresh },
            PollerActionView::Read,
        ),
        (PollerState::Send, PollerEventView::Closed) => (
            PollerView { state: PollerState::Disconnect, ..fresh },
            PollerActionView::Disconnect,
        ),
        (PollerState::ReceiveLoop, PollerEventView::Data(bytes)) => {
            let (messages, left) = harvest(before.received + bytes);
            (
                PollerView { received: left, ..before },
                if messages.len() == 0 {
                    PollerActionView::Read
                } else {
                    PollerActionView::Deliver(messages)
                },
            )
        },
        (PollerState::ReceiveLoop, PollerEventView::Closed) => (
            PollerView { state: PollerState::Disconnect, ..fresh },
            PollerActionView::Disconnect,
        ),
        (PollerState::Disconnect, PollerEventView::Disconnected) => (
            PollerView { state: PollerState::Sleep, ..fresh },
            PollerActionView::Sleep(PAUSE_SECS),
        ),
        _ => (PollerView { state: PollerState::Sleep, ..fresh }, PollerActionView::Stop),
    }
}

/// Reads the chat messages that one reply carries.
pub fn read_reply(reply: &[u8]) -> (messages: Vec<ChatMessage>)
    ensures
        message_views(messages@) == frame_messages(reply@),
{
    let none: Vec<ChatMessage> = Vec::new();
    match DNSMessage::decode(reply) {
        Ok(message) => match ChatMessage::from_dns(&message) {
            Ok(messages) => messages,
            Err(_) => none,
        },
        Err(_) => none,
    }
}

/// The poller: where it stands, the query it sends, and what it has read of
/// the replies.
pub struct Poller {
    state: PollerState,
    query: Vec<u8>,
    reader: FrameReader,
}

impl View for Poller {
    type V = PollerView;

    closed spec fn view(&self) -> PollerView {
        PollerView { state: self.state, query: self.query@, received: self.reader@ }
    }
}

/// Whether a query for `domain` can be sent: it can be written, and it fits
/// a frame.
pub open spec fn query_fits(id: u16, domain: Seq<char>) -> bool {
    message_encodable(request_of(id, domain)) && message_wire(request_of(id, domain)).len()
        <= MAX_FRAME
}

impl Poller {
    /// A poller that asks for the TXT records of `domain`, asleep before its
    /// first exchange. There is none where the query cannot be sent.
    pub fn new(id: u16, domain: String) -> (r: Option<Poller>)
        ensures
            r is Some <==> query_fits(id, domain@),
            r matches Some(poller) ==> poller@ == (PollerView {
                state: PollerState::Sleep,
                query: frame_wire(message_wire(request_of(id, domain@))),
                received: Seq::empty(),
            }),
    {
        let request = DNSMessage::new_request(id, domain);
        let bytes = match request.encode() {
            Ok(bytes) => bytes,
            Err(_) => {
                return None;
            },
        };
        match frame(bytes.as_slice()) {
            Some(query) => Some(
                Poller { state: PollerState::Sleep, query, reader: FrameReader::new() },
            ),
            None => None,
        }
    }

    /// Where the poller stands.
    pub fn state(&self) -> (state: PollerState)
        ensures
            state == self@.state,
    {
        self.state
    }

    /// Takes the chat messages of all complete frames out of the reader.
    fn harvest_frames(&mut self) -> (messages: Vec<ChatMessage>)
        ensures
            message_views(messages@) == harvest(old(self)@.received).0,
            final(self)@ == (PollerView {
                received: harvest(old(self)@.received).1,
                ..old(self)@
            }),
    {
        let mut messages: Vec<ChatMessage> = Vec::new();
        loop
            invariant
                self.state == old(self).state,
                self.query == old(self).query,
                harvest(old(self).reader@).0 == message_views(messages@) + harvest(self.reader@).0,
                harvest(old(self).reader@).1 == harvest(self.reader@).1,
            ensures
                harvest(old(self).reader@).0 == message_views(messages@),
                harvest(old(self).reader@).1 == self.reader@,
                self.state == old(self).state,
                self.query == old(self).query,
            decreases self.reader@.len(),
        {
            match self.reader.next_frame() {
                None => {
                    break ;
                },
                Some(reply) => {
                    let mut found = read_reply(reply.as_slice());
                    messages.append(&mut found);
                },
            }
        }
        messages
    }

    /// Takes in what happened and says what to do next.
    pub fn step(&mut self, event: PollerEvent) -> (action: PollerAction)
        ensures
            (final(self)@, action@) == poller_step(old(self)@, event@),
    {
        match (self.state, event) {
            (PollerState::Sleep, PollerEvent::Woke) => {
                self.reader.clear();
                self.state = PollerState::Connect;
                PollerAction::Connect
            },
            (PollerState::Connect, PollerEvent::Connected) => {
                self.reader.clear();
                self.state = PollerState::Send;
                PollerAction::Send(self.query.clone())
            },
            (PollerState::Connect, PollerEvent::Refused) => {
                self.reader.clear();
                self.state = PollerState::Sleep;
                PollerAction::Sleep(PAUSE_SECS)
            },
            (PollerState::Send, PollerEvent::Sent) => {
                self.reader.clear();
                self.state = PollerState::ReceiveLoop;
                PollerAction::Read
            },
            (PollerState::Send, PollerEvent::Closed) => {
                self.reader.clear();
                self.state = PollerState::Disconnect;
                PollerAction::Disconnect
            },
            (PollerState::ReceiveLoop, PollerEvent::Data(bytes)) => {
                self.reader.feed(bytes.as_slice());
                let messages = self.harvest_frames();
                if messages.len() == 0 {
                    PollerAction::Read
                } else {
                    PollerAction::Deliver(messages)
                }
            },
            (PollerState::ReceiveLoop, PollerEvent::Closed) => {
                self.reader.clear();
                self.state = PollerState::Disconnect;
                PollerAction::Disconnect
            },
            (PollerState::Disconnect, PollerEvent::Disconnected) => {
                self.reader.clear();
                self.state = PollerState::Sleep;
                PollerAction::Sleep(PAUSE_SECS)
            },
            _ => {
                self.reader.clear();
                self.state = PollerState::Sleep;
                PollerAction::Stop
            },
        }
    }
}

} // verus!
