//! Chat messages and their form as DNS TXT records.
//!
//! A message travels as one TXT record: the time it was sent, written as an
//! RFC 3339 stamp of 25 bytes, then the text, cut into character-strings of
//! at most 255 bytes that never split a character.
pub mod framing;
pub mod laws;
pub mod receiver;
pub mod sender;

use crate::dns::messages::{answer_views, AnswerView, DNSMessage, MessageView};
use crate::dns::types::{texts_of, RecordData, RecordDataView, RecordType};
use vstd::prelude::*;
use vstd::string::*;
use vstd::utf8::*;

verus! {

/// The maximum length of the text of one message in bytes: what a TXT record
/// can hold, less a length byte for each of 256 strings, less the stamp.
pub const MAX_MSG_LENGTH: usize = 65_254;

/// The length of the stamp in front of the text, in bytes.
pub const STAMP_LEN: usize = 25;

/// The longest character-string, in bytes.
pub const MAX_CHUNK: usize = 255;

/// A moment in time with the offset of the zone it was taken in.
#[derive(Debug, Clone, Copy, PartialEq, Eq, Structural)]
pub struct Timestamp {
    /// Seconds since 1970-01-01T00:00:00 UTC, leap seconds not counted.
    pub secs: i64,
    /// Seconds that the local time is ahead of UTC.
    pub offset: i32,
}

/// Why a chat message cannot be turned into a record, or a record into a
/// chat message.
#[derive(Debug, Clone, Copy, PartialEq, Eq, Structural)]
pub enum ChatError {
    /// The time of the message has no RFC 3339 form of 25 bytes of ASCII.
    UnprintableTime,
    /// The place where the text has to be cut lies inside a character.
    SplitInsideCharacter,
    /// The record is not a TXT record.
    NotText,
    /// The first string of the record does not start with the 25 bytes of a stamp.
    MissingStamp,
    /// The stamp is not an RFC 3339 time.
    MalformedStamp,
}

/// The text that `chrono` writes for the moment `secs` in the zone `offset`
/// seconds ahead of UTC, in RFC 3339 form; none where `chrono` cannot hold
/// the moment or the offset.
pub uninterp spec fn rfc3339_text(secs: i64, offset: i32) -> Option<Seq<char>>;

/// The moment and the offset that `chrono` reads from a text in RFC 3339
/// form, fractions of a second dropped; none where it reads no time.
pub uninterp spec fn rfc3339_time(text: Seq<char>) -> Option<(i64, i32)>;

/// `chrono::ParseError`, the error of `chrono`'s parsers. Nothing is known of
/// its values.
#[verifier::external_type_specification]
#[verifier::external_body]
pub struct ExParseError(chrono::ParseError);

/// Calls `chrono::FixedOffset::east_opt` and `chrono::DateTime::from_timestamp`,
/// moves the moment into the zone with `DateTime::with_timezone` and writes
/// it with `DateTime::to_rfc3339`. The text is a function of the two numbers
/// alone and is only named here; there is none where `chrono` refuses the
/// offset or the moment.
#[verifier::external_body]
fn format_rfc3339(secs: i64, offset: i32) -> (text: Option<String>)
    ensures
        match text {
            Some(t) => rfc3339_text(secs, offset) == Some(t@),
            None => rfc3339_text(secs, offset) is None,
        },
{
    let zone = chrono::FixedOffset::east_opt(offset)?;
    let utc = chrono::DateTime::from_timestamp(secs, 0)?;
    Some(utc.with_timezone(&zone).to_rfc3339())
}

/// Calls `chrono::DateTime::parse_from_rfc3339` and takes the seconds and the
/// offset of what it read. The result is a function of the text alone and is
/// only named here.
#[verifier::external_body]
fn parse_rfc3339(text: &str) -> (read: Result<Timestamp, chrono::ParseError>)
    ensures
        match read {
            Ok(t) => rfc3339_time(text@) == Some((t.secs, t.offset)),
            Err(_) => rfc3339_time(text@) is None,
        },
{
    match chrono::DateTime::parse_from_rfc3339(text) {
        Ok(at) => Ok(Timestamp { secs: at.timestamp(), offset: at.offset().local_minus_utc() }),
        Err(e) => Err(e),
    }
}

/// Calls `chrono::Local::now` and takes the seconds and the offset of what it
/// returns. Nothing is known of the result. `chrono` panics here where the
/// system clock stands before 1970.
#[verifier::external_body]
fn local_now() -> Timestamp {
    let now = chrono::Local::now();
    Timestamp { secs: now.timestamp(), offset: now.offset().local_minus_utc() }
}

/// The stamp of a moment: its RFC 3339 text, if that text is 25 bytes of
/// ASCII. That is the form `2020-12-24T18:34:16+01:00`.
pub open spec fn stamp_of(at: Timestamp) -> Option<Seq<char>> {
    match rfc3339_text(at.secs, at.offset) {
        Some(text) => if is_ascii_chars(text) && encode_utf8(text).len() == STAMP_LEN {
            Some(text)
        } else {
            None
        },
        None => None,
    }
}

/// The length of a text in bytes.
pub fn byte_len(text: &str) -> (len: usize)
    ensures
        len == encode_utf8(text@).len(),
{
    text.as_bytes().len()
}

impl Timestamp {
    /// Writes the stamp of this moment, if it has one.
    pub fn to_stamp(&self) -> (r: Option<String>)
        ensures
            match r {
                Some(stamp) => stamp_of(*self) == Some(stamp@),
                None => stamp_of(*self) is None,
            },
    {
        match format_rfc3339(self.secs, self.offset) {
            Some(text) => if text.as_str().is_ascii() && byte_len(text.as_str()) == STAMP_LEN {
                Some(text)
            } else {
                None
            },
            None => None,
        }
    }

    /// Reads a moment from a text in RFC 3339 form.
    pub fn from_stamp(text: &str) -> (r: Result<Timestamp, ChatError>)
        ensures
            match r {
                Ok(at) => rfc3339_time(text@) == Some((at.secs, at.offset)),
                Err(e) => e == ChatError::MalformedStamp && rfc3339_time(text@) is None,
            },
    {
        match parse_rfc3339(text) {
            Ok(at) => Ok(at),
            Err(_) => Err(ChatError::MalformedStamp),
        }
    }
}

/// Where the next character-string of a text ends: behind 255 bytes if a
/// character ends there, else behind 254 bytes; a text of less than 255
/// bytes is one string.
pub open spec fn chunk_cut(bytes: Seq<u8>) -> int {
    if bytes.len() < MAX_CHUNK {
        bytes.len() as int
    } else if is_char_boundary(bytes, MAX_CHUNK as int) {
        MAX_CHUNK as int
    } else {
        MAX_CHUNK - 1
    }
}

/// The character-strings that a text in UTF-8 is cut into, in order; none
/// where a cut would fall inside a character.
pub open spec fn chunks_of(bytes: Seq<u8>) -> Option<Seq<Seq<char>>>
    decreases bytes.len(),
{
    let cut = chunk_cut(bytes);
    if bytes.len() == 0 {
        Some(Seq::empty())
    } else if !is_char_boundary(bytes, cut) {
        None
    } else {
        after_chunks(
            seq![decode_utf8(bytes.subrange(0, cut))],
            chunks_of(bytes.subrange(cut, bytes.len() as int)),
        )
    }
}

/// Strings behind strings that were cut before them.
pub open spec fn after_chunks(done: Seq<Seq<char>>, rest: Option<Seq<Seq<char>>>) -> Option<
    Seq<Seq<char>>,
> {
    match rest {
        Some(chunks) => Some(done + chunks),
        None => None,
    }
}

/// Cuts a text into character-strings of at most 255 bytes.
pub fn split_chunks(text: &str) -> (r: Result<Vec<String>, ChatError>)
    ensures
        match r {
            Ok(chunks) => chunks_of(encode_utf8(text@)) == Some(texts_of(chunks@)),
            Err(e) => e == ChatError::SplitInsideCharacter && chunks_of(encode_utf8(text@)) is None,
        },
{
    let mut chunks: Vec<String> = Vec::new();
    let mut rest: &str = text;
    while byte_len(rest) > 0
        invariant
            chunks_of(encode_utf8(text@)) == after_chunks(
                texts_of(chunks@),
                chunks_of(encode_utf8(rest@)),
            ),
        decreases encode_utf8(rest@).len(),
    {
        let ghost bytes = encode_utf8(rest@);
        proof {
            encode_utf8_valid_utf8(rest@);
            is_char_boundary_start_end_of_seq(bytes);
        }
        let cut: usize = if byte_len(rest) < MAX_CHUNK {
            byte_len(rest)
        } else if rest.is_char_boundary(MAX_CHUNK) {
            MAX_CHUNK
        } else if rest.is_char_boundary(MAX_CHUNK - 1) {
            MAX_CHUNK - 1
        } else {
            return Err(ChatError::SplitInsideCharacter);
        };
        let (head, tail) = rest.split_at(cut);
        chunks.push(head.to_owned());
        proof {
            encode_utf8_decode_utf8(head@);
        }
        rest = tail;
    }
    Ok(chunks)
}

/// Representation of a single timestamped message
///
/// ## Maximum Length
/// The data of a TXT record may be up to 65,535 bytes long. Every 255 bytes
/// of it need a length byte, and 25 bytes are taken by the stamp, which leaves
/// 65,254 bytes for the text of one message.
#[derive(Debug, PartialEq)]
pub struct ChatMessage {
    /// The text of the message.
    pub text: String,
    /// When the message was sent.
    pub sent: Timestamp,
}

/// What a `ChatMessage` holds, as a mathematical value.
#[verifier::ext_equal]
pub struct ChatMessageView {
    pub text: Seq<char>,
    pub sent: Timestamp,
}

impl View for ChatMessage {
    type V = ChatMessageView;

    open spec fn view(&self) -> ChatMessageView {
        ChatMessageView { text: self.text@, sent: self.sent }
    }
}

impl Clone for ChatMessage {
    fn clone(&self) -> (copy: Self)
        ensures
            copy == *self,
    {
        ChatMessage { text: self.text.clone(), sent: self.sent }
    }
}

/// What the messages of a vector hold.
pub open spec fn message_views(messages: Seq<ChatMessage>) -> Seq<ChatMessageView> {
    Seq::new(messages.len(), |i: int| messages[i]@)
}

/// The record that carries a message: the stamp and the text, cut into
/// character-strings.
pub open spec fn record_of(m: ChatMessageView) -> Result<RecordDataView, ChatError> {
    match stamp_of(m.sent) {
        None => Err(ChatError::UnprintableTime),
        Some(stamp) => match chunks_of(encode_utf8(stamp + m.text)) {
            None => Err(ChatError::SplitInsideCharacter),
            Some(chunks) => Ok(RecordDataView::Txt(chunks)),
        },
    }
}

/// Texts joined into one.
pub open spec fn joined(texts: Seq<Seq<char>>) -> Seq<char>
    decreases texts.len(),
{
    if texts.len() == 0 {
        Seq::empty()
    } else {
        joined(texts.drop_last()) + texts.last()
    }
}

/// The stamp and the text that the strings of a record carry: the first 25
/// bytes of the first string are the stamp, and what is left of it, with all
/// the strings behind it, is the text.
pub open spec fn unstamped(chunks: Seq<Seq<char>>) -> Result<(Seq<char>, Seq<char>), ChatError> {
    if chunks.len() == 0 {
        Err(ChatError::MissingStamp)
    } else {
        let first = encode_utf8(chunks[0]);
        if !(first.len() >= STAMP_LEN && is_char_boundary(first, STAMP_LEN as int)) {
            Err(ChatError::MissingStamp)
        } else {
            Ok(
                (
                    decode_utf8(first.subrange(0, STAMP_LEN as int)),
                    decode_utf8(first.subrange(STAMP_LEN as int, first.len() as int)) + joined(
                        chunks.drop_first(),
                    ),
                ),
            )
        }
    }
}

/// The message that a record carries.
pub open spec fn message_of(record: RecordDataView) -> Result<ChatMessageView, ChatError> {
    match record {
        RecordDataView::Unsupported => Err(ChatError::NotText),
        RecordDataView::Txt(chunks) => match unstamped(chunks) {
            Err(e) => Err(e),
            Ok((stamp, text)) => match rfc3339_time(stamp) {
                None => Err(ChatError::MalformedStamp),
                Some((secs, offset)) => Ok(
                    ChatMessageView { text, sent: Timestamp { secs, offset } },
                ),
            },
        },
    }
}

/// How many messages a text of `len` bytes is split into.
pub open spec fn part_count(len: int) -> int {
    len / (MAX_MSG_LENGTH as int) + if len % (MAX_MSG_LENGTH as int) != 0 {
        1int
    } else {
        0int
    }
}

/// Where a text that is too long for one message is cut: behind 65,254 bytes
/// if a character ends there, else one byte earlier.
pub open spec fn part_cut(bytes: Seq<u8>) -> int {
    if is_char_boundary(bytes, MAX_MSG_LENGTH as int) {
        MAX_MSG_LENGTH as int
    } else {
        MAX_MSG_LENGTH - 1
    }
}

/// The `count` parts that a text in UTF-8 is split into: each but the last
/// is cut off at `part_cut`, the last is what is left. None where a cut
/// would fall inside a character.
pub open spec fn parts_of(bytes: Seq<u8>, count: int) -> Option<Seq<Seq<char>>>
    decreases count,
{
    let cut = part_cut(bytes);
    if count <= 1 {
        Some(seq![decode_utf8(bytes)])
    } else if !is_char_boundary(bytes, cut) {
        None
    } else {
        after_chunks(
            seq![decode_utf8(bytes.subrange(0, cut))],
            parts_of(bytes.subrange(cut, bytes.len() as int), count - 1),
        )
    }
}

/// The texts of the messages that a text is sent as: the text itself if it
/// is at most 65,254 bytes long, else its parts.
pub open spec fn split_text(text: Seq<char>) -> Option<Seq<Seq<char>>> {
    let bytes = encode_utf8(text);
    if bytes.len() > MAX_MSG_LENGTH {
        parts_of(bytes, part_count(bytes.len() as int))
    } else {
        Some(seq![text])
    }
}

/// Whether the messages carry the given texts, in order, all sent at `sent`.
pub open spec fn carry(messages: Seq<ChatMessage>, texts: Seq<Seq<char>>, sent: Timestamp) -> bool {
    &&& messages.len() == texts.len()
    &&& forall|i: int|
        0 <= i < messages.len() ==> (#[trigger] messages[i])@ == (ChatMessageView {
            text: texts[i],
            sent,
        })
}

/// The answers of a message; a message without an answer section has none.
pub open spec fn answers_in(message: MessageView) -> Seq<AnswerView> {
    match message.answers {
        Some(answers) => answers,
        None => Seq::empty(),
    }
}

/// The messages that the TXT answers carry, in order; the first answer that
/// carries none decides the error.
pub open spec fn messages_of(answers: Seq<AnswerView>) -> Result<Seq<ChatMessageView>, ChatError>
    decreases answers.len(),
{
    if answers.len() == 0 {
        Ok(Seq::empty())
    } else {
        match messages_of(answers.drop_last()) {
            Err(e) => Err(e),
            Ok(before) => if answers.last().rtype != RecordType::TXT {
                Ok(before)
            } else {
                match message_of(answers.last().record) {
                    Err(e) => Err(e),
                    Ok(message) => Ok(before.push(message)),
                }
            },
        }
    }
}

impl ChatMessage {
    /// Turns a text into timestamped chat messages, all sent now. A text of
    /// more than 65,254 bytes is split into several messages.
    pub fn from_str(msg: String) -> (r: Result<Vec<ChatMessage>, ChatError>)
        ensures
            match r {
                Ok(messages) => split_text(msg@) matches Some(texts) && exists|sent: Timestamp|
                    carry(messages@, texts, sent),
                Err(e) => e == ChatError::SplitInsideCharacter && split_text(msg@) is None,
            },
    {
        let sent = local_now();
        ChatMessage::split(msg, sent)
    }

    /// Turns a text into chat messages sent at `sent`. A text of more than
    /// 65,254 bytes is split into as many messages as that length goes into
    /// the length of the text, rounded up; the last of them holds what is
    /// left, which may be more than 65,254 bytes where cuts were made early.
    pub fn split(msg: String, sent: Timestamp) -> (r: Result<Vec<ChatMessage>, ChatError>)
        ensures
            match r {
                Ok(messages) => split_text(msg@) matches Some(texts) && carry(
                    messages@,
                    texts,
                    sent,
                ),
                Err(e) => e == ChatError::SplitInsideCharacter && split_text(msg@) is None,
            },
    {
        let total = byte_len(msg.as_str());
        let mut messages: Vec<ChatMessage> = Vec::new();
        if total <= MAX_MSG_LENGTH {
            messages.push(ChatMessage { text: msg, sent });
            return Ok(messages);
        }
        let count: usize = total / MAX_MSG_LENGTH + if total % MAX_MSG_LENGTH != 0 {
            1
        } else {
            0
        };
        let mut rest: &str = msg.as_str();
        let mut left: usize = count;
        let ghost mut done: Seq<Seq<char>> = Seq::empty();
        while left > 1
            invariant
                split_text(msg@) == after_chunks(done, parts_of(encode_utf8(rest@), left as int)),
                carry(messages@, done, sent),
            decreases left,
        {
            let cut: usize = if rest.is_char_boundary(MAX_MSG_LENGTH) {
                MAX_MSG_LENGTH
            } else if rest.is_char_boundary(MAX_MSG_LENGTH - 1) {
                MAX_MSG_LENGTH - 1
            } else {
                return Err(ChatError::SplitInsideCharacter);
            };
            let (head, tail) = rest.split_at(cut);
            messages.push(ChatMessage { text: head.to_owned(), sent });
            proof {
                encode_utf8_decode_utf8(head@);
                done = done.push(head@);
            }
            rest = tail;
            left -= 1;
        }
        messages.push(ChatMessage { text: rest.to_owned(), sent });
        proof {
            encode_utf8_decode_utf8(rest@);
        }
        Ok(messages)
    }

    /// Turns the message into the record that carries it.
    pub fn to_record(&self) -> (r: Result<RecordData, ChatError>)
        ensures
            match r {
                Ok(record) => record_of(self@) == Ok::<_, ChatError>(record@),
                Err(e) => record_of(self@) == Err::<RecordDataView, _>(e),
            },
    {
        let mut full = match self.sent.to_stamp() {
            Some(stamp) => stamp,
            None => {
                return Err(ChatError::UnprintableTime);
            },
        };
        full.append(self.text.as_str());
        match split_chunks(full.as_str()) {
            Ok(chunks) => Ok(RecordData::Txt(chunks)),
            Err(e) => Err(e),
        }
    }

    /// Reads the message that a record carries.
    pub fn from_record(record: &RecordData) -> (r: Result<ChatMessage, ChatError>)
        ensures
            match r {
                Ok(message) => message_of(record@) == Ok::<_, ChatError>(message@),
                Err(e) => message_of(record@) == Err::<ChatMessageView, _>(e),
            },
    {
        let chunks = match record {
            RecordData::Txt(chunks) => chunks,
            RecordData::Unsupported => {
                return Err(ChatError::NotText);
            },
        };
        if chunks.len() == 0 {
            return Err(ChatError::MissingStamp);
        }
        let first: &str = chunks[0].as_str();
        if byte_len(first) < STAMP_LEN || !first.is_char_boundary(STAMP_LEN) {
            return Err(ChatError::MissingStamp);
        }
        let (stamp, remainder) = first.split_at(STAMP_LEN);
        proof {
            encode_utf8_decode_utf8(stamp@);
            encode_utf8_decode_utf8(remainder@);
        }
        let sent = match Timestamp::from_stamp(stamp) {
            Ok(at) => at,
            Err(e) => {
                return Err(e);
            },
        };
        let mut text = remainder.to_owned();
        let ghost rest = texts_of(chunks@).drop_first();
        let mut i: usize = 1;
        while i < chunks.len()
            invariant
                1 <= i <= chunks@.len(),
                rest == texts_of(chunks@).drop_first(),
                text@ == remainder@ + joined(rest.take(i - 1)),
            decreases chunks@.len() - i,
        {
            text.append(chunks[i].as_str());
            proof {
                assert(rest.take(i as int).drop_last() =~= rest.take(i - 1));
            }
            i += 1;
        }
        assert(rest.take(i - 1) =~= rest);
        Ok(ChatMessage { text, sent })
    }

    /// Reads the chat messages that the TXT answers of a DNS message carry.
    /// A message without answers carries none.
    pub fn from_dns(dns_msg: &DNSMessage) -> (r: Result<Vec<ChatMessage>, ChatError>)
        ensures
            match r {
                Ok(messages) => messages_of(answers_in(dns_msg@)) == Ok::<_, ChatError>(
                    message_views(messages@),
                ),
                Err(e) => messages_of(answers_in(dns_msg@)) == Err::<Seq<ChatMessageView>, _>(e),
            },
    {
        let mut messages: Vec<ChatMessage> = Vec::new();
        assert(message_views(messages@) =~= Seq::empty());
        let answers = match &dns_msg.answers {
            Some(answers) => answers,
            None => {
                return Ok(messages);
            },
        };
        let ghost all = answer_views(answers@);
        let mut i: usize = 0;
        while i < answers.len()
            invariant
                i <= answers@.len(),
                all == answer_views(answers@),
                dns_msg@.answers == Some(all),
                messages_of(all.take(i as int)) == Ok::<_, ChatError>(message_views(messages@)),
            decreases answers@.len() - i,
        {
            proof {
                assert(all.take(i + 1).drop_last() =~= all.take(i as int));
            }
            if answers[i].rtype == RecordType::TXT {
                let message = match ChatMessage::from_record(&answers[i].record) {
                    Ok(m) => m,
                    Err(e) => {
                        proof {
                            lemma_messages_error(all, i as int, e);
                        }
                        return Err(e);
                    },
                };
                let ghost before = message_views(messages@);
                let ghost view = message@;
                messages.push(message);
                assert(message_views(messages@) =~= before.push(view));
            }
            i += 1;
        }
        assert(all.take(i as int) =~= all);
        Ok(messages)
    }
}

/// Once the answers up to one carry no messages, neither do all of them.
proof fn lemma_messages_error(answers: Seq<AnswerView>, i: int, e: ChatError)
    requires
        0 <= i < answers.len(),
        messages_of(answers.take(i + 1)) == Err::<Seq<ChatMessageView>, _>(e),
    ensures
        messages_of(answers) == Err::<Seq<ChatMessageView>, _>(e),
    decreases answers.len(),
{
    if answers.len() > i + 1 {
        assert(answers.drop_last().take(i + 1) =~= answers.take(i + 1));
        lemma_messages_error(answers.drop_last(), i, e);
    } else {
        assert(answers.take(i + 1) =~= answers);
    }
}

} // verus!
