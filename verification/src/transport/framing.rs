//! The framing of DNS messages on a TCP stream: each message follows two
//! bytes that hold its length in network byte order, the two bytes not
//! counted.
use crate::dns::wire::{be16, push_u16, read_u16, u16_at};
use vstd::prelude::*;

verus! {

/// The longest message that a frame can hold.
pub const MAX_FRAME: usize = 65_535;

/// The length of the prefix that holds the length of the message.
pub const PREFIX_LEN: usize = 2;

/// A message as a frame: its length, then the message.
pub open spec fn frame_wire(message: Seq<u8>) -> Seq<u8> {
    be16(message.len() as u16) + message
}

/// The first frame of a stream: the message that it holds and what follows
/// the frame. None while the stream holds less than the prefix and the bytes
/// that the prefix announces.
pub open spec fn first_frame(stream: Seq<u8>) -> Option<(Seq<u8>, Seq<u8>)> {
    if stream.len() < PREFIX_LEN {
        None
    } else {
        let end = PREFIX_LEN + u16_at(stream, 0);
        if stream.len() < end {
            None
        } else {
            Some((stream.subrange(PREFIX_LEN as int, end), stream.subrange(end, stream.len() as int)))
        }
    }
}

/// Wraps a message into a frame. A message of more than 65,535 bytes fits
/// no frame.
pub fn frame(message: &[u8]) -> (r: Option<Vec<u8>>)
    ensures
        r is Some <==> message@.len() <= MAX_FRAME,
        r matches Some(framed) ==> framed@ == frame_wire(message@),
{
    if message.len() > MAX_FRAME {
        return None;
    }
    let mut framed: Vec<u8> = Vec::new();
    push_u16(&mut framed, message.len() as u16);
    framed.extend_from_slice(message);
    Some(framed)
}

/// Reading the first frame of a stream that starts with a frame gives the
/// message of the frame and what follows it.
pub proof fn lemma_frame_roundtrip(message: Seq<u8>, rest: Seq<u8>)
    requires
        message.len() <= MAX_FRAME,
    ensures
        first_frame(frame_wire(message) + rest) == Some((message, rest)),
{
}

/// A stream that is cut short inside its first frame holds no frame yet.
pub proof fn lemma_partial_frame_waits(message: Seq<u8>, received: int)
    requires
        message.len() <= MAX_FRAME,
        0 <= received < frame_wire(message).len(),
    ensures
        first_frame(frame_wire(message).subrange(0, received)) is None,
{
}

/// Collects the bytes of a stream as they arrive and hands out the messages
/// of the frames that are complete.
pub struct FrameReader {
    buffer: Vec<u8>,
}

impl View for FrameReader {
    type V = Seq<u8>;

    /// The bytes that have arrived and belong to no frame that was handed out.
    closed spec fn view(&self) -> Seq<u8> {
        self.buffer@
    }
}

impl FrameReader {
    /// A reader that has received nothing.
    pub fn new() -> (reader: Self)
        ensures
            reader@ == Seq::<u8>::empty(),
    {
        FrameReader { buffer: Vec::new() }
    }

    /// Takes in the bytes of one read.
    pub fn feed(&mut self, bytes: &[u8])
        ensures
            final(self)@ == old(self)@ + bytes@,
    {
        self.buffer.extend_from_slice(bytes);
    }

    /// How many bytes wait in the reader.
    pub fn pending(&self) -> (len: usize)
        ensures
            len == self@.len(),
    {
        self.buffer.len()
    }

    /// Forgets the bytes that wait in the reader.
    pub fn clear(&mut self)
        ensures
            final(self)@ == Seq::<u8>::empty(),
    {
        self.buffer.clear();
    }

    /// Hands out the message of the first frame, if that frame is complete,
    /// and keeps what follows it. Else nothing changes.
    pub fn next_frame(&mut self) -> (r: Option<Vec<u8>>)
        ensures
            match first_frame(old(self)@) {
                Some((message, rest)) => {
                    &&& r matches Some(found) && found@ == message
                    &&& final(self)@ == rest
                },
                None => r is None && final(self)@ == old(self)@,
            },
    {
        if self.buffer.len() < PREFIX_LEN {
            return None;
        }
        let announced = read_u16(self.buffer.as_slice(), 0) as usize;
        if self.buffer.len() - PREFIX_LEN < announced {
            return None;
        }
        let end = PREFIX_LEN + announced;
        let rest = self.buffer.split_off(end);
        let mut message = self.buffer.split_off(PREFIX_LEN);
        self.buffer = rest;
        Some(message)
    }

    /// Hands out what has arrived of a frame, complete or not: the bytes
    /// behind the prefix. The reader is empty afterwards. Where not even the
    /// prefix has arrived, there is nothing to hand out.
    pub fn take_partial(&mut self) -> (r: Option<Vec<u8>>)
        ensures
            final(self)@ == Seq::<u8>::empty(),
            match r {
                Some(found) => old(self)@.len() >= PREFIX_LEN && found@ == old(self)@.subrange(
                    PREFIX_LEN as int,
                    old(self)@.len() as int,
                ),
                None => old(self)@.len() < PREFIX_LEN,
            },
    {
        if self.buffer.len() < PREFIX_LEN {
            self.buffer.clear();
            return None;
        }
        let message = self.buffer.split_off(PREFIX_LEN);
        self.buffer.clear();
        Some(message)
    }
}

} // verus!
