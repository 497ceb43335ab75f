//! What holds of the wire format: reading gives back what was written.
use crate::dns::messages::{
    answer_fixed, answer_valid, answer_wire, answers_wire, flag_bit, parse_answer_body,
    flags_high, flags_low, header_wire, message_valid, message_wire, parse_answer,
    parse_answers, parse_header, parse_message, parse_question, parse_questions,
    question_valid, question_wire, questions_wire, record_wire, AnswerView, DNSHeader,
    MessageView, QuestionView, ANSWER_FIXED_LEN, HEADER_LEN,
};
use crate::dns::types::{
    lemma_record_class_code_roundtrip, lemma_record_type_code_roundtrip, MalformedMessage,
    RecordDataView,
};
use crate::dns::wire::{
    after_labels, be16, bytes_text, dotted, label_end, labels_from, labels_within,
    lemma_label_end, lemma_u16_roundtrip, name_labels, name_valid,
    name_wire, name_wire_from, parse_labels, parse_name, parse_name_labels, parse_strings,
    pointer_target, pointer_wire, string_wire, strings_text, texts_wire, u16_at, u32_at, be32,
    DOT, MAX_POINTER_TARGET, MAX_STRING, POINTER_MARK,
};
use vstd::prelude::*;
use vstd::utf8::*;

verus! {

/// The flags and the opcode can be read back from the third byte of a header.
proof fn lemma_flags_high(r: u8, op: u8, aa: u8, tc: u8, rd: u8)
    by (bit_vector)
    requires
        r <= 1,
        op < 16,
        aa <= 1,
        tc <= 1,
        rd <= 1,
    ensures
        ({
            let b = (r << 7) | (op << 3) | (aa << 2) | (tc << 1) | rd;
            &&& (b & 128 == 128) == (r == 1)
            &&& (b & 120) >> 3 == op
            &&& (b & 4 == 4) == (aa == 1)
            &&& (b & 2 == 2) == (tc == 1)
            &&& (b & 1 == 1) == (rd == 1)
        }),
{
}

/// The flag and the response code can be read back from the fourth byte of a
/// header.
proof fn lemma_flags_low(ra: u8, code: u8)
    by (bit_vector)
    requires
        ra <= 1,
        code < 16,
    ensures
        ({
            let b = (ra << 7) | code;
            &&& (b & 128 == 128) == (ra == 1)
            &&& b & 15 == code
        }),
{
}

/// Reading a header back from its twelve bytes gives the header, whatever
/// follows them, if opcode and response code fit their four bits.
pub proof fn lemma_header_roundtrip(h: DNSHeader, rest: Seq<u8>)
    requires
        h.wf(),
    ensures
        header_wire(h).len() == HEADER_LEN,
        parse_header(header_wire(h) + rest) == Ok::<_, MalformedMessage>(h),
{
    let msg = header_wire(h) + rest;
    lemma_flags_high(
        flag_bit(h.is_response),
        h.opcode,
        flag_bit(h.authoritative_answer),
        flag_bit(h.is_truncated),
        flag_bit(h.recursion_desired),
    );
    lemma_flags_low(flag_bit(h.recursion_available), h.response_code);
    assert(msg[0] == be16(h.id)[0]);
    assert(msg[1] == be16(h.id)[1]);
    assert(msg[2] == flags_high(h));
    assert(msg[3] == flags_low(h));
    assert(msg[4] == be16(h.question_count)[0]);
    assert(msg[5] == be16(h.question_count)[1]);
    assert(msg[6] == be16(h.answer_count)[0]);
    assert(msg[7] == be16(h.answer_count)[1]);
    assert(msg[8] == be16(h.ns_record_count)[0]);
    assert(msg[9] == be16(h.ns_record_count)[1]);
    assert(msg[10] == be16(h.ar_count)[0]);
    assert(msg[11] == be16(h.ar_count)[1]);
}

/// The wire form of the part of a name from `from` on is longer than that part by two bytes:
/// the first length byte and the closing zero.
pub proof fn lemma_name_wire_len(name: Seq<u8>, from: int)
    requires
        0 <= from <= name.len(),
    ensures
        name_wire_from(name, from).len() == name.len() - from + 2,
    decreases name.len() - from,
{
    lemma_label_end(name, from);
    let end = label_end(name, from);
    if end < name.len() {
        lemma_name_wire_len(name, end + 1);
    }
}

/// Reading the labels back from the wire form of a valid name gives the
/// labels of the name, wherever the wire form stands in a buffer.
pub proof fn lemma_labels_roundtrip(name: Seq<u8>, from: int, pre: Seq<u8>, post: Seq<u8>)
    requires
        0 <= from <= name.len(),
        labels_within(name, from, 1, 63),
    ensures
        parse_labels(pre + name_wire_from(name, from) + post, pre.len() as int) == Ok::<
            _,
            MalformedMessage,
        >((labels_from(name, from), (pre.len() + name_wire_from(name, from).len()) as int)),
    decreases name.len() - from,
{
    lemma_label_end(name, from);
    lemma_name_wire_len(name, from);
    let end = label_end(name, from);
    let label = name.subrange(from, end);
    let head = seq![(end - from) as u8] + label;
    let msg = pre + name_wire_from(name, from) + post;
    let at = pre.len() as int;
    assert(msg[at] == head[0]);
    assert(msg.subrange(at + 1, at + 1 + (end - from)) =~= label);
    if end < name.len() {
        lemma_name_wire_len(name, end + 1);
        lemma_labels_roundtrip(name, end + 1, pre + head, post);
        assert(msg =~= (pre + head) + name_wire_from(name, end + 1) + post);
        assert(after_labels(seq![label], parse_labels(msg, at + 1 + (end - from)))
            == Ok::<_, MalformedMessage>(
            (
                seq![label] + labels_from(name, end + 1),
                (at + name_wire_from(name, from).len()) as int,
            ),
        ));
    } else {
        assert(msg[at + 1 + (end - from)] == 0);
        assert(seq![label] + Seq::<Seq<u8>>::empty() =~= seq![label]);
    }
}

/// Reading the name back from the wire form of a valid name gives its
/// labels and the position behind it.
pub proof fn lemma_name_roundtrip(name: Seq<u8>, pre: Seq<u8>, post: Seq<u8>)
    requires
        name_valid(name),
    ensures
        parse_name_labels(pre + name_wire(name) + post, pre.len() as int) == Ok::<
            _,
            MalformedMessage,
        >((name_labels(name), (pre.len() + name_wire(name).len()) as int)),
        name_wire(name).len() == name.len() + 2,
{
    lemma_label_end(name, 0);
    lemma_name_wire_len(name, 0);
    lemma_labels_roundtrip(name, 0, pre, post);
    let msg = pre + name_wire(name) + post;
    let end = label_end(name, 0);
    let head = seq![end as u8] + name.subrange(0, end);
    assert(msg[pre.len() as int] == head[0]);
}

/// Joining a label in front of others puts its text and a dot in front of
/// what they join to.
proof fn lemma_dotted_front(label: Seq<u8>, rest: Seq<Seq<u8>>)
    ensures
        dotted(seq![label] + rest) == if rest.len() == 0 {
            bytes_text(label)
        } else {
            bytes_text(label) + seq!['.'] + dotted(rest)
        },
    decreases rest.len(),
{
    let all = seq![label] + rest;
    if rest.len() == 0 {
        assert(all =~= seq![label]);
    } else {
        assert(all.drop_last() =~= seq![label] + rest.drop_last());
        assert(all.last() == rest.last());
        lemma_dotted_front(label, rest.drop_last());
        if rest.len() == 1 {
            assert(dotted(all) =~= bytes_text(label) + seq!['.'] + dotted(rest));
        } else {
            assert(dotted(all) =~= bytes_text(label) + seq!['.'] + dotted(rest));
        }
    }
}

/// The dot is a character of one byte.
proof fn lemma_dot_scalar()
    ensures
        is_leading_byte_width_1(DOT),
        codepoint_width_1(DOT) as char == '.',
        !is_continuation_byte(DOT),
{
    assert(46u8 & 0x7F == 46u8) by (bit_vector);
}

/// Joining the labels of valid UTF-8 with dots gives the text that the
/// bytes encode: a dot is a character of its own, so no label cuts one.
pub proof fn lemma_dotted_labels(bytes: Seq<u8>, from: int)
    requires
        0 <= from <= bytes.len(),
        valid_utf8(bytes.subrange(from, bytes.len() as int)),
    ensures
        dotted(labels_from(bytes, from)) == decode_utf8(bytes.subrange(from, bytes.len() as int)),
    decreases bytes.len() - from,
{
    lemma_label_end(bytes, from);
    lemma_dot_scalar();
    let tail = bytes.subrange(from, bytes.len() as int);
    let end = label_end(bytes, from);
    let k = end - from;
    let label = bytes.subrange(from, end);
    assert(label =~= tail.subrange(0, k));
    if k == tail.len() {
        is_char_boundary_start_end_of_seq(tail);
    } else {
        assert(tail[k] == bytes[end]);
        is_char_boundary_iff_not_is_continuation_byte(tail, k);
    }
    valid_utf8_split(tail, k);
    decode_utf8_split(tail, k);
    let rest = tail.subrange(k, tail.len() as int);
    if end < bytes.len() {
        assert(rest[0] == DOT);
        assert(pop_first_scalar(rest) =~= bytes.subrange(end + 1, bytes.len() as int));
        lemma_dotted_labels(bytes, end + 1);
        lemma_label_end(bytes, end + 1);
        lemma_dotted_front(label, labels_from(bytes, end + 1));
        assert(decode_utf8(rest) =~= seq!['.'] + decode_utf8(pop_first_scalar(rest)));
        assert(dotted(labels_from(bytes, from)) =~= decode_utf8(tail));
    } else {
        assert(rest =~= Seq::<u8>::empty());
        assert(tail.subrange(0, k) =~= tail);
    }
}

/// Joining the labels of the UTF-8 form of a text with dots gives the text.
pub proof fn lemma_name_text_roundtrip(name: Seq<char>)
    ensures
        dotted(name_labels(encode_utf8(name))) == name,
{
    let bytes = encode_utf8(name);
    encode_utf8_valid_utf8(name);
    encode_utf8_decode_utf8(name);
    assert(bytes.subrange(0, bytes.len() as int) =~= bytes);
    lemma_dotted_labels(bytes, 0);
}

/// Reading a valid question back from its wire form gives the question and
/// the position behind it, wherever the wire form stands in a buffer.
pub proof fn lemma_question_roundtrip(q: QuestionView, pre: Seq<u8>, post: Seq<u8>)
    requires
        question_valid(q),
    ensures
        parse_question(pre + question_wire(q) + post, pre.len() as int) == Ok::<
            _,
            MalformedMessage,
        >((q, (pre.len() + question_wire(q).len()) as int)),
{
    reveal(question_wire);
    reveal(parse_question);
    let name = encode_utf8(q.name);
    let wire = name_wire(name);
    let kind = be16(q.qtype.code());
    let class = be16(q.qclass.code());
    let msg = pre + question_wire(q) + post;
    let at = (pre.len() + wire.len()) as int;
    assert(msg =~= pre + wire + (kind + class + post));
    lemma_name_roundtrip(name, pre, kind + class + post);
    lemma_name_text_roundtrip(q.name);
    assert(msg =~= (pre + wire) + kind + (class + post));
    lemma_u16_roundtrip(q.qtype.code(), pre + wire, class + post);
    assert(msg =~= (pre + wire + kind) + class + post);
    lemma_u16_roundtrip(q.qclass.code(), pre + wire + kind, post);
    lemma_record_type_code_roundtrip(q.qtype);
    lemma_record_class_code_roundtrip(q.qclass);
    assert(parse_name(msg, pre.len() as int) == Ok::<_, MalformedMessage>((q.name, at)));
}

/// Reading the strings of a TXT record back from their wire form gives the
/// strings, if none is longer than 255 bytes.
pub proof fn lemma_texts_roundtrip(texts: Seq<Seq<char>>, msg: Seq<u8>, pos: int)
    requires
        0 <= pos,
        pos + texts_wire(texts).len() <= msg.len(),
        msg.subrange(pos, pos + texts_wire(texts).len()) == texts_wire(texts),
        forall|i: int| 0 <= i < texts.len() ==> encode_utf8(#[trigger] texts[i]).len() <= MAX_STRING,
    ensures
        parse_strings(msg, pos, pos + texts_wire(texts).len()) matches Ok(strings)
            && strings_text(strings) == texts,
    decreases texts.len(),
{
    let end = pos + texts_wire(texts).len();
    if texts.len() == 0 {
        assert(strings_text(Seq::<Seq<u8>>::empty()) =~= texts);
    } else {
        let first = encode_utf8(texts[0]);
        let rest = texts.drop_first();
        let part = msg.subrange(pos, end);
        assert(part =~= string_wire(first) + texts_wire(rest));
        assert(msg[pos] == part[0]);
        let next = pos + 1 + first.len();
        assert(msg.subrange(pos + 1, next) =~= first) by {
            assert forall|i: int| 0 <= i < first.len() implies msg[pos + 1 + i] == first[i] by {
                assert(msg[pos + 1 + i] == part[1 + i]);
            }
        }
        assert(msg.subrange(next, next + texts_wire(rest).len()) =~= texts_wire(rest)) by {
            assert forall|i: int| 0 <= i < texts_wire(rest).len() implies msg[next + i]
                == texts_wire(rest)[i] by {
                assert(msg[next + i] == part[1 + first.len() + i]);
            }
        }
        assert forall|i: int| 0 <= i < rest.len() implies encode_utf8(#[trigger] rest[i]).len()
            <= MAX_STRING by {
            assert(rest[i] == texts[i + 1]);
        }
        lemma_texts_roundtrip(rest, msg, next);
        let found = parse_strings(msg, next, end)->Ok_0;
        let all = seq![first] + found;
        encode_utf8_valid_utf8(texts[0]);
        encode_utf8_decode_utf8(texts[0]);
        assert(strings_text(all) =~= texts) by {
            assert forall|i: int| 0 <= i < texts.len() implies strings_text(all)[i] == texts[i] by {
                if i > 0 {
                    assert(strings_text(found)[i - 1] == rest[i - 1]);
                }
            }
        }
    }
}

/// Reading the fixed fields and the data of a valid answer back gives the
/// answer.
proof fn lemma_answer_body(a: AnswerView, msg: Seq<u8>, at: int)
    requires
        answer_valid(a),
        0 <= at,
        at + answer_fixed(a).len() + record_wire(a.record).len() <= msg.len(),
        msg.subrange(at, at + ANSWER_FIXED_LEN) == answer_fixed(a),
        msg.subrange(
            at + ANSWER_FIXED_LEN,
            at + ANSWER_FIXED_LEN + record_wire(a.record).len(),
        ) == record_wire(a.record),
    ensures
        answer_fixed(a).len() == ANSWER_FIXED_LEN,
        parse_answer_body(msg, a.name, at) == Ok::<_, MalformedMessage>(
            (a, at + ANSWER_FIXED_LEN + record_wire(a.record).len()),
        ),
{
    reveal(parse_answer_body);
    reveal(answer_valid);
    let fixed = answer_fixed(a);
    let part = msg.subrange(at, at + ANSWER_FIXED_LEN);
    assert(u16_at(msg, at) == a.rtype.code()) by {
        assert(msg[at] == part[0] && msg[at + 1] == part[1]);
        assert(fixed[0] == be16(a.rtype.code())[0] && fixed[1] == be16(a.rtype.code())[1]);
    }
    assert(u16_at(msg, at + 2) == a.rclass.code()) by {
        assert(msg[at + 2] == part[2] && msg[at + 3] == part[3]);
        assert(fixed[2] == be16(a.rclass.code())[0] && fixed[3] == be16(a.rclass.code())[1]);
    }
    assert(u32_at(msg, at + 4) == a.ttl) by {
        assert(msg[at + 4] == part[4] && msg[at + 5] == part[5]);
        assert(msg[at + 6] == part[6] && msg[at + 7] == part[7]);
        assert(fixed[4] == be32(a.ttl)[0] && fixed[5] == be32(a.ttl)[1]);
        assert(fixed[6] == be32(a.ttl)[2] && fixed[7] == be32(a.ttl)[3]);
    }
    assert(u16_at(msg, at + 8) == a.data_length) by {
        assert(msg[at + 8] == part[8] && msg[at + 9] == part[9]);
        assert(fixed[8] == be16(a.data_length)[0] && fixed[9] == be16(a.data_length)[1]);
    }
    lemma_record_type_code_roundtrip(a.rtype);
    lemma_record_class_code_roundtrip(a.rclass);
    let start = at + ANSWER_FIXED_LEN;
    match a.record {
        RecordDataView::Txt(texts) => {
            lemma_texts_roundtrip(texts, msg, start);
            let found = parse_strings(msg, start, start + texts_wire(texts).len())->Ok_0;
            assert(RecordDataView::Txt(strings_text(found)) == a.record);
        },
        RecordDataView::Unsupported => {},
    }
}

/// Reading a valid answer back from its wire form gives the answer and the
/// position behind it, wherever the wire form stands in a buffer.
pub proof fn lemma_answer_roundtrip(a: AnswerView, pre: Seq<u8>, post: Seq<u8>)
    requires
        answer_valid(a),
    ensures
        parse_answer(pre + answer_wire(a) + post, pre.len() as int) == Ok::<_, MalformedMessage>(
            (a, (pre.len() + answer_wire(a).len()) as int),
        ),
{
    reveal(answer_wire);
    reveal(parse_answer);
    reveal(answer_valid);
    let name = encode_utf8(a.name);
    let wire = name_wire(name);
    let fixed = answer_fixed(a);
    let data = record_wire(a.record);
    let msg = pre + answer_wire(a) + post;
    let at = (pre.len() + wire.len()) as int;
    assert(parse_name(msg, pre.len() as int) == Ok::<_, MalformedMessage>((a.name, at))) by {
        assert(msg =~= pre + wire + (fixed + data + post));
        lemma_name_roundtrip(name, pre, fixed + data + post);
        lemma_name_text_roundtrip(a.name);
    }
    assert(fixed.len() == ANSWER_FIXED_LEN);
    assert(msg.subrange(at, at + ANSWER_FIXED_LEN) =~= fixed);
    assert(msg.subrange(at + ANSWER_FIXED_LEN, at + ANSWER_FIXED_LEN + data.len()) =~= data);
    lemma_answer_body(a, msg, at);
}

/// Reading valid questions back from their wire form gives the questions.
pub proof fn lemma_questions_roundtrip(questions: Seq<QuestionView>, pre: Seq<u8>, post: Seq<u8>)
    requires
        forall|i: int| 0 <= i < questions.len() ==> question_valid(#[trigger] questions[i]),
    ensures
        parse_questions(
            pre + questions_wire(questions) + post,
            pre.len() as int,
            questions.len(),
        ) == Ok::<_, MalformedMessage>(
            (questions, (pre.len() + questions_wire(questions).len()) as int),
        ),
    decreases questions.len(),
{
    let msg = pre + questions_wire(questions) + post;
    if questions.len() == 0 {
        assert(Seq::<QuestionView>::empty() =~= questions);
    } else {
        let first = questions[0];
        let rest = questions.drop_first();
        let wire = question_wire(first);
        assert(msg =~= pre + wire + (questions_wire(rest) + post));
        lemma_question_roundtrip(first, pre, questions_wire(rest) + post);
        assert forall|i: int| 0 <= i < rest.len() implies question_valid(#[trigger] rest[i]) by {
            assert(rest[i] == questions[i + 1]);
        }
        lemma_questions_roundtrip(rest, pre + wire, post);
        assert(msg =~= (pre + wire) + questions_wire(rest) + post);
        assert(seq![first] + rest =~= questions);
    }
}

/// Reading valid answers back from their wire form gives the answers.
pub proof fn lemma_answers_roundtrip(answers: Seq<AnswerView>, pre: Seq<u8>, post: Seq<u8>)
    requires
        forall|i: int| 0 <= i < answers.len() ==> answer_valid(#[trigger] answers[i]),
    ensures
        parse_answers(pre + answers_wire(answers) + post, pre.len() as int, answers.len()) == Ok::<
            _,
            MalformedMessage,
        >((answers, (pre.len() + answers_wire(answers).len()) as int)),
    decreases answers.len(),
{
    let msg = pre + answers_wire(answers) + post;
    if answers.len() == 0 {
        assert(Seq::<AnswerView>::empty() =~= answers);
    } else {
        let first = answers[0];
        let rest = answers.drop_first();
        let wire = answer_wire(first);
        assert(msg =~= pre + wire + (answers_wire(rest) + post));
        lemma_answer_roundtrip(first, pre, answers_wire(rest) + post);
        assert forall|i: int| 0 <= i < rest.len() implies answer_valid(#[trigger] rest[i]) by {
            assert(rest[i] == answers[i + 1]);
        }
        lemma_answers_roundtrip(rest, pre + wire, post);
        assert(msg =~= (pre + wire) + answers_wire(rest) + post);
        assert(seq![first] + rest =~= answers);
    }
}

/// Reading a valid message back from its wire form gives the message,
/// whatever follows the wire form in the buffer.
pub proof fn lemma_message_roundtrip(m: MessageView, rest: Seq<u8>)
    requires
        message_valid(m),
    ensures
        parse_message(message_wire(m) + rest) == Ok::<_, MalformedMessage>(m),
{
    let head = header_wire(m.header);
    let questions = questions_wire(m.questions);
    let answers = match m.answers {
        Some(found) => answers_wire(found),
        None => Seq::empty(),
    };
    let msg = message_wire(m) + rest;
    assert(msg =~= head + (questions + answers + rest));
    lemma_header_roundtrip(m.header, questions + answers + rest);
    assert(msg =~= head + questions + (answers + rest));
    lemma_questions_roundtrip(m.questions, head, answers + rest);
    match m.answers {
        Some(found) => {
            assert(msg =~= (head + questions) + answers + rest);
            lemma_answers_roundtrip(found, head + questions, rest);
        },
        None => {},
    }
}

/// A name reached through a compression pointer reads as the same text as
/// the name written out: where a buffer holds the wire form of a valid name
/// and, further on, a pointer to it, both places read as that name.
pub proof fn lemma_pointer_reads_same_name(
    name: Seq<char>,
    pre: Seq<u8>,
    between: Seq<u8>,
    post: Seq<u8>,
)
    requires
        name_valid(encode_utf8(name)),
        pre.len() <= MAX_POINTER_TARGET,
    ensures
        ({
            let wire = name_wire(encode_utf8(name));
            let msg = pre + wire + between + pointer_wire(pre.len() as int) + post;
            let pos = (pre.len() + wire.len() + between.len()) as int;
            &&& parse_name(msg, pre.len() as int) == Ok::<_, MalformedMessage>(
                (name, (pre.len() + wire.len()) as int),
            )
            &&& parse_name(msg, pos) == Ok::<_, MalformedMessage>((name, pos + 2))
        }),
{
    let bytes = encode_utf8(name);
    let wire = name_wire(bytes);
    let target = pre.len() as int;
    let pointer = pointer_wire(target);
    let msg = pre + wire + between + pointer + post;
    let pos = (pre.len() + wire.len() + between.len()) as int;
    assert(msg =~= pre + wire + (between + pointer + post));
    lemma_name_roundtrip(bytes, pre, between + pointer + post);
    lemma_labels_roundtrip(bytes, 0, pre, between + pointer + post);
    lemma_name_text_roundtrip(name);
    assert(msg[pos] == pointer[0]);
    assert(msg[pos + 1] == pointer[1]);
    assert(pointer_target(msg, pos) == target);
}

/// A compression pointer that points at itself or further on is rejected,
/// so no chain of pointers is ever followed in a circle.
pub proof fn lemma_forward_pointer_rejected(msg: Seq<u8>, pos: int)
    requires
        0 <= pos,
        pos + 1 < msg.len(),
        msg[pos] >= POINTER_MARK,
        pointer_target(msg, pos) >= pos,
    ensures
        parse_name(msg, pos) == Err::<(Seq<char>, int), _>(MalformedMessage::BadPointer),
{
}

/// A compression pointer that points at another pointer is rejected.
pub proof fn lemma_chained_pointer_rejected(msg: Seq<u8>, pos: int)
    requires
        0 <= pos,
        pos + 1 < msg.len(),
        msg[pos] >= POINTER_MARK,
        pointer_target(msg, pos) < pos,
        msg[pointer_target(msg, pos)] >= POINTER_MARK,
    ensures
        parse_name(msg, pos) == Err::<(Seq<char>, int), _>(MalformedMessage::BadPointer),
{
}

/// A run of labels cannot be read from a buffer that ends before the run.
proof fn lemma_labels_need_bytes(msg: Seq<u8>, pos: int, k: int)
    requires
        0 <= pos,
        0 <= k <= msg.len(),
        parse_labels(msg, pos) matches Ok((_, end)) && k < end,
    ensures
        parse_labels(msg.subrange(0, k), pos) is Err,
    decreases msg.len() - pos,
{
    let cut = msg.subrange(0, k);
    if pos < k {
        assert(cut[pos] == msg[pos]);
        let len = msg[pos];
        if len != 0 && pos + 1 + len <= k {
            lemma_labels_need_bytes(msg, pos + 1 + len, k);
        }
    }
}

/// A valid name that is cut short is no name.
proof fn lemma_name_cut(name: Seq<u8>, pre: Seq<u8>, j: int)
    requires
        name_valid(name),
        0 <= j < name_wire(name).len(),
    ensures
        parse_name(pre + name_wire(name).subrange(0, j), pre.len() as int) is Err,
{
    let full = pre + name_wire(name);
    let cut = pre + name_wire(name).subrange(0, j);
    lemma_labels_roundtrip(name, 0, pre, Seq::empty());
    assert(pre + name_wire(name) + Seq::<u8>::empty() =~= full);
    lemma_labels_need_bytes(full, pre.len() as int, pre.len() + j);
    assert(full.subrange(0, pre.len() + j) =~= cut);
    if j > 0 {
        lemma_label_end(name, 0);
        assert(cut[pre.len() as int] == name_wire(name)[0]);
    }
}

/// A valid question that is cut short is no question.
proof fn lemma_question_cut(q: QuestionView, pre: Seq<u8>, j: int)
    requires
        question_valid(q),
        0 <= j < question_wire(q).len(),
    ensures
        parse_question(pre + question_wire(q).subrange(0, j), pre.len() as int) is Err,
{
    reveal(question_wire);
    reveal(parse_question);
    let name = encode_utf8(q.name);
    let wire = name_wire(name);
    let trailer = be16(q.qtype.code()) + be16(q.qclass.code());
    let cut = pre + question_wire(q).subrange(0, j);
    if j < wire.len() {
        assert(cut =~= pre + wire.subrange(0, j));
        lemma_name_cut(name, pre, j);
    } else {
        let part = trailer.subrange(0, j - wire.len());
        assert(cut =~= pre + wire + part);
        lemma_name_roundtrip(name, pre, part);
        lemma_name_text_roundtrip(q.name);
    }
}

/// A valid answer that is cut short is no answer.
proof fn lemma_answer_cut(a: AnswerView, pre: Seq<u8>, j: int)
    requires
        answer_valid(a),
        0 <= j < answer_wire(a).len(),
    ensures
        parse_answer(pre + answer_wire(a).subrange(0, j), pre.len() as int) is Err,
{
    reveal(answer_wire);
    reveal(parse_answer);
    reveal(parse_answer_body);
    reveal(answer_valid);
    let name = encode_utf8(a.name);
    let wire = name_wire(name);
    let fixed = answer_fixed(a);
    let data = record_wire(a.record);
    let cut = pre + answer_wire(a).subrange(0, j);
    if j < wire.len() {
        assert(cut =~= pre + wire.subrange(0, j));
        lemma_name_cut(name, pre, j);
    } else {
        let part = (fixed + data).subrange(0, j - wire.len());
        let at = (pre.len() + wire.len()) as int;
        assert(cut =~= pre + wire + part);
        lemma_name_roundtrip(name, pre, part);
        lemma_name_text_roundtrip(a.name);
        if j >= wire.len() + ANSWER_FIXED_LEN {
            assert(cut[at + 8] == be16(a.data_length)[0]);
            assert(cut[at + 9] == be16(a.data_length)[1]);
            assert(u16_at(cut, at + 8) == a.data_length);
        }
    }
}

/// Valid questions of which the last are cut short cannot all be read.
proof fn lemma_questions_cut(questions: Seq<QuestionView>, pre: Seq<u8>, j: int)
    requires
        forall|i: int| 0 <= i < questions.len() ==> question_valid(#[trigger] questions[i]),
        0 <= j < questions_wire(questions).len(),
    ensures
        parse_questions(
            pre + questions_wire(questions).subrange(0, j),
            pre.len() as int,
            questions.len(),
        ) is Err,
    decreases questions.len(),
{
    let first = questions[0];
    let rest = questions.drop_first();
    let wire = question_wire(first);
    let cut = pre + questions_wire(questions).subrange(0, j);
    if j < wire.len() {
        assert(cut =~= pre + wire.subrange(0, j));
        lemma_question_cut(first, pre, j);
    } else {
        let part = questions_wire(rest).subrange(0, j - wire.len());
        assert(cut =~= pre + wire + part);
        lemma_question_roundtrip(first, pre, part);
        assert forall|i: int| 0 <= i < rest.len() implies question_valid(#[trigger] rest[i]) by {
            assert(rest[i] == questions[i + 1]);
        }
        lemma_questions_cut(rest, pre + wire, j - wire.len());
    }
}

/// Valid answers of which the last are cut short cannot all be read.
proof fn lemma_answers_cut(answers: Seq<AnswerView>, pre: Seq<u8>, j: int)
    requires
        forall|i: int| 0 <= i < answers.len() ==> answer_valid(#[trigger] answers[i]),
        0 <= j < answers_wire(answers).len(),
    ensures
        parse_answers(
            pre + answers_wire(answers).subrange(0, j),
            pre.len() as int,
            answers.len(),
        ) is Err,
    decreases answers.len(),
{
    let first = answers[0];
    let rest = answers.drop_first();
    let wire = answer_wire(first);
    let cut = pre + answers_wire(answers).subrange(0, j);
    if j < wire.len() {
        assert(cut =~= pre + wire.subrange(0, j));
        lemma_answer_cut(first, pre, j);
    } else {
        let part = answers_wire(rest).subrange(0, j - wire.len());
        assert(cut =~= pre + wire + part);
        lemma_answer_roundtrip(first, pre, part);
        assert forall|i: int| 0 <= i < rest.len() implies answer_valid(#[trigger] rest[i]) by {
            assert(rest[i] == answers[i + 1]);
        }
        lemma_answers_cut(rest, pre + wire, j - wire.len());
    }
}

/// A valid message that is cut short anywhere is no message: reading fails
/// on every proper prefix of its wire form.
pub proof fn lemma_truncated_message_rejected(m: MessageView, k: int)
    requires
        message_valid(m),
        0 <= k < message_wire(m).len(),
    ensures
        parse_message(message_wire(m).subrange(0, k)) is Err,
{
    let head = header_wire(m.header);
    let questions = questions_wire(m.questions);
    let answers = match m.answers {
        Some(found) => answers_wire(found),
        None => Seq::empty(),
    };
    let cut = message_wire(m).subrange(0, k);
    lemma_header_roundtrip(m.header, Seq::empty());
    if k >= HEADER_LEN {
        let body = (questions + answers).subrange(0, k - HEADER_LEN);
        assert(cut =~= head + body);
        lemma_header_roundtrip(m.header, body);
        if k < HEADER_LEN + questions.len() {
            assert(cut =~= head + questions.subrange(0, k - HEADER_LEN));
            lemma_questions_cut(m.questions, head, k - HEADER_LEN);
        } else {
            let part = answers.subrange(0, k - HEADER_LEN - questions.len());
            assert(cut =~= head + questions + part);
            lemma_questions_roundtrip(m.questions, head, part);
            lemma_answers_cut(m.answers->Some_0, head + questions, k - HEADER_LEN - questions.len());
        }
    }
}

/// A buffer that is too short for a header is no message.
pub proof fn lemma_short_buffer_rejected(msg: Seq<u8>)
    requires
        msg.len() < HEADER_LEN,
    ensures
        parse_message(msg) == Err::<MessageView, _>(MalformedMessage::Truncated),
{
}

} // verus!
