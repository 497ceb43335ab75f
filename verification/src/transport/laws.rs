//! What holds of the chunker: cutting a text loses nothing and splits no
//! character, and a record gives back the message it was made of.
use crate::transport::{
    chunk_cut, chunks_of, joined, message_of, part_count, part_cut, parts_of,
    record_of, rfc3339_time, split_text, stamp_of, unstamped, ChatError, ChatMessageView,
    Timestamp, MAX_CHUNK, MAX_MSG_LENGTH, STAMP_LEN,
};
use crate::dns::laws::lemma_message_roundtrip;
use crate::dns::messages::{
    answer_valid, message_valid, message_wire, question_valid, reply_of, text_answer,
    MessageView,
};
use crate::dns::types::RecordDataView;
use crate::dns::wire::u16_at;
use crate::transport::framing::{first_frame, lemma_frame_roundtrip, PREFIX_LEN};
use crate::transport::receiver::{frame_messages, harvest};
use crate::transport::sender::reply_frame;
use crate::transport::{answers_in, messages_of};
use vstd::prelude::*;
use vstd::utf8::*;

verus! {

/// Joining a text in front of others puts it in front of what they join to.
pub proof fn lemma_joined_front(first: Seq<char>, rest: Seq<Seq<char>>)
    ensures
        joined(seq![first] + rest) == first + joined(rest),
    decreases rest.len(),
{
    let all = seq![first] + rest;
    if rest.len() == 0 {
        assert(all.drop_last() =~= Seq::<Seq<char>>::empty());
        assert(all.last() == first);
        assert(joined(all.drop_last()) =~= Seq::<char>::empty());
        assert(joined(rest) =~= Seq::<char>::empty());
        assert(joined(all) =~= first + joined(rest));
    } else {
        assert(all.drop_last() =~= seq![first] + rest.drop_last());
        assert(all.last() == rest.last());
        lemma_joined_front(first, rest.drop_last());
        assert(joined(all) =~= first + joined(rest));
    }
}

/// The UTF-8 form of two texts, one behind the other, is the UTF-8 form of
/// the first and then that of the second.
pub proof fn lemma_encode_concat(a: Seq<char>, b: Seq<char>)
    ensures
        encode_utf8(a + b) == encode_utf8(a) + encode_utf8(b),
    decreases a.len(),
{
    if a.len() == 0 {
        assert(a + b =~= b);
        assert(encode_utf8(a) + encode_utf8(b) =~= encode_utf8(b));
    } else {
        assert((a + b).drop_first() =~= a.drop_first() + b);
        lemma_encode_concat(a.drop_first(), b);
        assert(encode_utf8(a + b) =~= encode_utf8(a) + encode_utf8(b));
    }
}

/// Cutting a text into character-strings splits no character and loses
/// nothing: the strings joined are the text. Each string holds at least one
/// and at most 255 bytes, and each but the last holds 254 or 255.
pub proof fn lemma_chunks_cover(bytes: Seq<u8>)
    requires
        valid_utf8(bytes),
    ensures
        chunks_of(bytes) matches Some(chunks) ==> {
            &&& joined(chunks) == decode_utf8(bytes)
            &&& (chunks.len() == 0 <==> bytes.len() == 0)
            &&& forall|i: int|
                0 <= i < chunks.len() ==> 1 <= encode_utf8(#[trigger] chunks[i]).len() <= MAX_CHUNK
            &&& forall|i: int|
                0 <= i < chunks.len() - 1 ==> encode_utf8(#[trigger] chunks[i]).len() >= MAX_CHUNK
                    - 1
        },
    decreases bytes.len(),
{
    if bytes.len() > 0 && chunks_of(bytes) is Some {
        let cut = chunk_cut(bytes);
        let head = bytes.subrange(0, cut);
        let tail = bytes.subrange(cut, bytes.len() as int);
        valid_utf8_split(bytes, cut);
        decode_utf8_split(bytes, cut);
        lemma_chunks_cover(tail);
        decode_utf8_encode_utf8(head);
        let rest = chunks_of(tail)->Some_0;
        let chunks = seq![decode_utf8(head)] + rest;
        lemma_joined_front(decode_utf8(head), rest);
        assert forall|i: int| 0 <= i < chunks.len() implies 1 <= encode_utf8(
            #[trigger] chunks[i],
        ).len() <= MAX_CHUNK by {
            if i > 0 {
                assert(chunks[i] == rest[i - 1]);
            }
        }
        assert forall|i: int| 0 <= i < chunks.len() - 1 implies encode_utf8(
            #[trigger] chunks[i],
        ).len() >= MAX_CHUNK - 1 by {
            if i > 0 {
                assert(chunks[i] == rest[i - 1]);
            }
        }
    } else if bytes.len() == 0 {
        assert(joined(Seq::<Seq<char>>::empty()) =~= decode_utf8(bytes));
    }
}

/// Cutting a text into character-strings never cuts a character, and no
/// string is longer than 255 bytes.
pub proof fn lemma_chunk_boundaries(text: Seq<char>)
    ensures
        chunks_of(encode_utf8(text)) matches Some(chunks) ==> {
            &&& joined(chunks) == text
            &&& forall|i: int|
                0 <= i < chunks.len() ==> 1 <= encode_utf8(#[trigger] chunks[i]).len() <= MAX_CHUNK
        },
{
    encode_utf8_valid_utf8(text);
    encode_utf8_decode_utf8(text);
    lemma_chunks_cover(encode_utf8(text));
}

/// The strings that a stamp of 25 bytes and a text are cut into give back
/// the stamp and the text.
pub proof fn lemma_chat_roundtrip(stamp: Seq<char>, text: Seq<char>)
    requires
        encode_utf8(stamp).len() == STAMP_LEN,
    ensures
        chunks_of(encode_utf8(stamp + text)) matches Some(chunks) ==> {
            &&& unstamped(chunks) == Ok::<_, ChatError>((stamp, text))
            &&& message_of(RecordDataView::Txt(chunks)) == match rfc3339_time(stamp) {
                Some((secs, offset)) => Ok::<_, ChatError>(
                    ChatMessageView { text, sent: Timestamp { secs, offset } },
                ),
                None => Err(ChatError::MalformedStamp),
            }
        },
{
    let bytes = encode_utf8(stamp + text);
    if chunks_of(bytes) is Some {
        let chunks = chunks_of(bytes)->Some_0;
        let mark = encode_utf8(stamp);
        let body = encode_utf8(text);
        lemma_encode_concat(stamp, text);
        encode_utf8_valid_utf8(stamp + text);
        encode_utf8_valid_utf8(stamp);
        encode_utf8_valid_utf8(text);
        encode_utf8_decode_utf8(stamp + text);
        encode_utf8_decode_utf8(stamp);
        lemma_chunks_cover(bytes);
        let cut = chunk_cut(bytes);
        let head = bytes.subrange(0, cut);
        let tail = bytes.subrange(cut, bytes.len() as int);
        let rest = chunks_of(tail)->Some_0;
        valid_utf8_split(bytes, cut);
        decode_utf8_encode_utf8(head);
        assert(chunks == seq![decode_utf8(head)] + rest);
        assert(chunks[0] == decode_utf8(head));
        assert(chunks.drop_first() =~= rest);
        let first = encode_utf8(chunks[0]);
        assert(first == head);
        assert(head.subrange(0, STAMP_LEN as int) =~= mark);
        if head.len() == STAMP_LEN {
            is_char_boundary_start_end_of_seq(head);
        } else {
            assert(head[STAMP_LEN as int] == body[0]);
            is_char_boundary_iff_not_is_continuation_byte(head, STAMP_LEN as int);
        }
        decode_utf8_split(head, STAMP_LEN as int);
        lemma_joined_front(decode_utf8(head), rest);
        let left = decode_utf8(head.subrange(STAMP_LEN as int, head.len() as int));
        assert(stamp + text == stamp + left + joined(rest));
        assert(text =~= left + joined(rest)) by {
            let whole = stamp + text;
            let other = stamp + left + joined(rest);
            assert(text =~= whole.subrange(stamp.len() as int, whole.len() as int));
            assert(left + joined(rest) =~= other.subrange(stamp.len() as int, other.len() as int));
        }
    }
}

/// The record that carries a message gives back the text of the message,
/// stamped with the time that the stamp of the message reads as.
pub proof fn lemma_record_roundtrip(m: ChatMessageView)
    ensures
        record_of(m) matches Ok(record) ==> message_of(record) == match rfc3339_time(
            stamp_of(m.sent)->Some_0,
        ) {
            Some((secs, offset)) => Ok::<_, ChatError>(
                ChatMessageView { text: m.text, sent: Timestamp { secs, offset } },
            ),
            None => Err(ChatError::MalformedStamp),
        },
{
    if record_of(m) is Ok {
        lemma_chat_roundtrip(stamp_of(m.sent)->Some_0, m.text);
    }
}

/// Splitting a text in UTF-8 into `count` parts splits no character and
/// loses nothing. Each part but the last holds 65,254 bytes, or one less;
/// the last holds what the others leave.
pub proof fn lemma_parts_cover(bytes: Seq<u8>, count: int)
    requires
        valid_utf8(bytes),
    ensures
        parts_of(bytes, count) matches Some(parts) ==> {
            &&& joined(parts) == decode_utf8(bytes)
            &&& parts.len() == if count <= 1 {
                1
            } else {
                count
            }
            &&& forall|i: int|
                0 <= i < parts.len() - 1 ==> MAX_MSG_LENGTH - 1 <= encode_utf8(
                    #[trigger] parts[i],
                ).len() <= MAX_MSG_LENGTH
            &&& bytes.len() - (parts.len() - 1) * MAX_MSG_LENGTH <= encode_utf8(parts.last()).len()
                <= bytes.len() - (parts.len() - 1) * (MAX_MSG_LENGTH - 1)
        },
    decreases count,
{
    if parts_of(bytes, count) is Some {
        if count <= 1 {
            let parts = seq![decode_utf8(bytes)];
            decode_utf8_encode_utf8(bytes);
            lemma_joined_front(decode_utf8(bytes), Seq::empty());
            assert(parts + Seq::<Seq<char>>::empty() =~= parts);
            assert(joined(Seq::<Seq<char>>::empty()) =~= Seq::<char>::empty());
            assert(joined(parts) =~= decode_utf8(bytes));
        } else {
            let cut = part_cut(bytes);
            let head = bytes.subrange(0, cut);
            let tail = bytes.subrange(cut, bytes.len() as int);
            valid_utf8_split(bytes, cut);
            decode_utf8_split(bytes, cut);
            lemma_parts_cover(tail, count - 1);
            decode_utf8_encode_utf8(head);
            let rest = parts_of(tail, count - 1)->Some_0;
            let parts = seq![decode_utf8(head)] + rest;
            lemma_joined_front(decode_utf8(head), rest);
            assert(parts.last() == rest.last());
            assert forall|i: int| 0 <= i < parts.len() - 1 implies MAX_MSG_LENGTH - 1
                <= encode_utf8(#[trigger] parts[i]).len() <= MAX_MSG_LENGTH by {
                if i > 0 {
                    assert(parts[i] == rest[i - 1]);
                }
            }
        }
    }
}

/// Splitting a text covers exactly the text: the parts joined are the text,
/// and no part splits a character. A text of at most 65,254 bytes is one
/// part. A longer text has as many parts as 65,254 goes into its length,
/// rounded up; each but the last holds 65,254 bytes or one less, and the last
/// holds at least one byte and at most 65,254 and one for each cut before it.
pub proof fn lemma_split_covers(text: Seq<char>)
    ensures
        split_text(text) matches Some(parts) ==> {
            &&& joined(parts) == text
            &&& parts.len() == if encode_utf8(text).len() > MAX_MSG_LENGTH {
                part_count(encode_utf8(text).len() as int)
            } else {
                1
            }
            &&& forall|i: int|
                0 <= i < parts.len() - 1 ==> MAX_MSG_LENGTH - 1 <= encode_utf8(
                    #[trigger] parts[i],
                ).len() <= MAX_MSG_LENGTH
            &&& encode_utf8(text).len() > MAX_MSG_LENGTH ==> 1 <= encode_utf8(parts.last()).len()
                <= MAX_MSG_LENGTH + parts.len() - 1
        },
{
    let bytes = encode_utf8(text);
    encode_utf8_valid_utf8(text);
    encode_utf8_decode_utf8(text);
    if bytes.len() > MAX_MSG_LENGTH {
        lemma_parts_cover(bytes, part_count(bytes.len() as int));
    } else {
        let parts = seq![text];
        lemma_joined_front(text, Seq::empty());
        assert(parts + Seq::<Seq<char>>::empty() =~= parts);
        assert(joined(Seq::<Seq<char>>::empty()) =~= Seq::<char>::empty());
        assert(joined(parts) =~= text);
    }
}

/// Reading a stream in two pieces harvests what reading it at once
/// harvests: the messages of the frames that are complete in the first piece,
/// then those of what is left of it with the second piece behind.
pub proof fn lemma_harvest_in_pieces(first: Seq<u8>, second: Seq<u8>)
    ensures
        harvest(first + second).0 == harvest(first).0 + harvest(harvest(first).1 + second).0,
        harvest(first + second).1 == harvest(harvest(first).1 + second).1,
    decreases first.len(),
{
    let whole = first + second;
    match first_frame(first) {
        None => {
            assert(Seq::<ChatMessageView>::empty() + harvest(whole).0 =~= harvest(whole).0);
        },
        Some((reply, rest)) => {
            let end = PREFIX_LEN + u16_at(first, 0);
            assert(whole[0] == first[0] && whole[1] == first[1]);
            assert(whole.subrange(PREFIX_LEN as int, end) =~= reply);
            assert(whole.subrange(end, whole.len() as int) =~= rest + second);
            lemma_harvest_in_pieces(rest, second);
            assert(frame_messages(reply) + (harvest(rest).0 + harvest(harvest(rest).1 + second).0)
                =~= (frame_messages(reply) + harvest(rest).0) + harvest(
                harvest(rest).1 + second,
            ).0);
        },
    }
}

/// The reply that carries the record of a chat message to a valid query is a
/// valid message.
pub proof fn lemma_reply_valid(query: MessageView, m: ChatMessageView)
    requires
        message_valid(query),
    ensures
        record_of(m) matches Ok(record) ==> (reply_of(query, record) matches Some(reply)
            ==> message_valid(reply)),
{
    if record_of(m) is Ok && reply_of(query, record_of(m)->Ok_0) is Some {
        let stamp = stamp_of(m.sent)->Some_0;
        let chunks = chunks_of(encode_utf8(stamp + m.text))->Some_0;
        let reply = reply_of(query, RecordDataView::Txt(chunks))->Some_0;
        let answer = text_answer(query.questions[0].name, chunks)->Some_0;
        lemma_chunk_boundaries(stamp + m.text);
        assert(question_valid(query.questions[0]));
        assert(answer_valid(answer)) by {
            reveal(answer_valid);
        }
        assert(reply.answers == Some(seq![answer]));
    }
}

/// What the responder sends, the poller delivers: the frame of the reply
/// that carries the record of a chat message to a valid query is harvested as
/// that message, with the time that its stamp reads as, whatever follows the
/// frame in the stream.
pub proof fn lemma_reply_is_harvested(query: MessageView, m: ChatMessageView, rest: Seq<u8>)
    requires
        message_valid(query),
    ensures
        record_of(m) matches Ok(record) ==> (reply_frame(query, record) matches Some(framed) ==> {
            &&& harvest(framed + rest).0 == (match rfc3339_time(stamp_of(m.sent)->Some_0) {
                Some((secs, offset)) => seq![
                    ChatMessageView { text: m.text, sent: Timestamp { secs, offset } },
                ],
                None => Seq::empty(),
            }) + harvest(rest).0
            &&& harvest(framed + rest).1 == harvest(rest).1
        }),
{
    if record_of(m) is Ok && reply_frame(query, record_of(m)->Ok_0) is Some {
        let record = record_of(m)->Ok_0;
        let reply = reply_of(query, record)->Some_0;
        let wire = message_wire(reply);
        lemma_reply_valid(query, m);
        lemma_message_roundtrip(reply, Seq::empty());
        assert(wire + Seq::<u8>::empty() =~= wire);
        lemma_frame_roundtrip(wire, rest);
        lemma_record_roundtrip(m);
        let answers = answers_in(reply);
        assert(answers.len() == 1);
        assert(answers.drop_last() =~= Seq::empty());
        assert(messages_of(answers.drop_last()) == Ok::<_, ChatError>(
            Seq::<ChatMessageView>::empty(),
        ));
        assert(answers.last().record == record);
        match message_of(record) {
            Ok(view) => {
                assert(Seq::<ChatMessageView>::empty().push(view) =~= seq![view]);
            },
            Err(_) => {},
        }
    }
}

} // verus!
