//! Data structures for DNS messages as defined in RFC 1035, and their wire
//! format.
//!
//! A message is a header, a question section and an answer section; the
//! authority and additional sections are not modelled.
use crate::dns::types::{
    texts_of, EncodeError, MalformedMessage, RecordClass, RecordData, RecordDataView, RecordType,
};
use crate::dns::wire::{
    be16, be32, name_encodable, name_valid, name_wire, parse_name, parse_strings, push_name, push_texts,
    push_u16, push_u32, read_name, read_texts, read_u16, read_u32, strings_text, texts_length,
    texts_wire, u16_at, u32_at, MAX_DATA, MAX_STRING,
};
use vstd::prelude::*;
use vstd::utf8::*;

verus! {

/// The length of a header on the wire.
pub const HEADER_LEN: usize = 12;

/// DNS header
#[derive(Debug, Clone, Copy, PartialEq, Eq, Structural)]
pub struct DNSHeader {
    /// A unique ID for referencing the request
    pub id: u16,
    /// Whether the message is a question or a reply
    pub is_response: bool,
    /// The message opcode describing the kind of query, four bits wide
    pub opcode: u8,
    /// Is the name server an authority for the domain name in question?
    pub authoritative_answer: bool,
    /// Whether the message was truncated
    pub is_truncated: bool,
    /// Allows the name server to employ recursion if set to `true`.
    pub recursion_desired: bool,
    /// Whether the name server answering can offer recursive lookup.
    pub recursion_available: bool,
    /// The response error code of a message, four bits wide
    pub response_code: u8,
    /// Number of questions following this header
    pub question_count: u16,
    /// Number of answers following this header
    pub answer_count: u16,
    /// Number of name server resource records in the authority records
    pub ns_record_count: u16,
    /// Number of resource records in the additional records section
    pub ar_count: u16,
}

/// A flag as one bit.
pub open spec fn flag_bit(flag: bool) -> u8 {
    if flag {
        1
    } else {
        0
    }
}

/// The third byte of a header: response flag, opcode, authoritative,
/// truncated and recursion-desired flags.
pub open spec fn flags_high(h: DNSHeader) -> u8 {
    (flag_bit(h.is_response) << 7) | (h.opcode << 3) | (flag_bit(h.authoritative_answer) << 2) | (
    flag_bit(h.is_truncated) << 1) | flag_bit(h.recursion_desired)
}

/// The fourth byte of a header: recursion-available flag and response code.
pub open spec fn flags_low(h: DNSHeader) -> u8 {
    (flag_bit(h.recursion_available) << 7) | h.response_code
}

/// The twelve bytes of a header on the wire.
pub open spec fn header_wire(h: DNSHeader) -> Seq<u8> {
    be16(h.id) + seq![flags_high(h), flags_low(h)] + be16(h.question_count) + be16(h.answer_count)
        + be16(h.ns_record_count) + be16(h.ar_count)
}

/// The header that the first twelve bytes of a buffer hold.
pub open spec fn parse_header(msg: Seq<u8>) -> Result<DNSHeader, MalformedMessage> {
    if msg.len() < HEADER_LEN {
        Err(MalformedMessage::Truncated)
    } else {
        Ok(
            DNSHeader {
                id: u16_at(msg, 0),
                is_response: msg[2] & 128 == 128,
                opcode: (msg[2] & 120) >> 3,
                authoritative_answer: msg[2] & 4 == 4,
                is_truncated: msg[2] & 2 == 2,
                recursion_desired: msg[2] & 1 == 1,
                recursion_available: msg[3] & 128 == 128,
                response_code: msg[3] & 15,
                question_count: u16_at(msg, 4),
                answer_count: u16_at(msg, 6),
                ns_record_count: u16_at(msg, 8),
                ar_count: u16_at(msg, 10),
            },
        )
    }
}

/// The opcode and the response code that are read from the flag bytes of a
/// header fit their four bits.
pub proof fn lemma_header_fields_fit(high: u8, low: u8)
    by (bit_vector)
    ensures
        (high & 120) >> 3 < 16,
        low & 15 < 16,
{
}

/// A flag as one bit.
fn bit_of(flag: bool) -> (bit: u8)
    ensures
        bit == flag_bit(flag),
{
    if flag {
        1
    } else {
        0
    }
}

impl DNSHeader {
    /// Whether opcode and response code fit their four bits.
    pub open spec fn wf(self) -> bool {
        self.opcode < 16 && self.response_code < 16
    }

    /// The header of a request: only the id and the recursion-desired flag are set.
    pub fn new_request(id: u16) -> (header: Self)
        ensures
            header == (DNSHeader {
                id,
                is_response: false,
                opcode: 0,
                authoritative_answer: false,
                is_truncated: false,
                recursion_desired: true,
                recursion_available: false,
                response_code: 0,
                question_count: 0,
                answer_count: 0,
                ns_record_count: 0,
                ar_count: 0,
            }),
    {
        DNSHeader {
            id,
            is_response: false,
            opcode: 0,
            authoritative_answer: false,
            is_truncated: false,
            recursion_desired: true,
            recursion_available: false,
            response_code: 0,
            question_count: 0,
            answer_count: 0,
            ns_record_count: 0,
            ar_count: 0,
        }
    }

    /// Appends the twelve bytes of the header.
    pub fn encode_into(&self, out: &mut Vec<u8>)
        ensures
            final(out)@ == old(out)@ + header_wire(*self),
    {
        push_u16(out, self.id);
        let high: u8 = (bit_of(self.is_response) << 7) | (self.opcode << 3) | (bit_of(
            self.authoritative_answer,
        ) << 2) | (bit_of(self.is_truncated) << 1) | bit_of(self.recursion_desired);
        out.push(high);
        let low: u8 = (bit_of(self.recursion_available) << 7) | self.response_code;
        out.push(low);
        push_u16(out, self.question_count);
        push_u16(out, self.answer_count);
        push_u16(out, self.ns_record_count);
        push_u16(out, self.ar_count);
    }

    /// Reads a header from the first twelve bytes of `msg`; a shorter buffer
    /// holds no header.
    pub fn decode(msg: &[u8]) -> (r: Result<DNSHeader, MalformedMessage>)
        ensures
            r == parse_header(msg@),
            r is Ok <==> msg@.len() >= HEADER_LEN,
            r matches Ok(header) ==> header.wf(),
    {
        if msg.len() < HEADER_LEN {
            return Err(MalformedMessage::Truncated);
        }
        proof {
            lemma_header_fields_fit(msg@[2], msg@[3]);
        }
        Ok(
            DNSHeader {
                id: read_u16(msg, 0),
                is_response: (msg[2] & 128u8) == 128,
                opcode: (msg[2] & 120u8) >> 3,
                authoritative_answer: (msg[2] & 4u8) == 4,
                is_truncated: (msg[2] & 2u8) == 2,
                recursion_desired: (msg[2] & 1u8) == 1,
                recursion_available: (msg[3] & 128u8) == 128,
                response_code: msg[3] & 15u8,
                question_count: read_u16(msg, 4),
                answer_count: read_u16(msg, 6),
                ns_record_count: read_u16(msg, 8),
                ar_count: read_u16(msg, 10),
            },
        )
    }
}

impl Default for DNSHeader {
    fn default() -> (header: Self)
        ensures
            header == (DNSHeader {
                id: 0,
                is_response: false,
                opcode: 0,
                authoritative_answer: false,
                is_truncated: false,
                recursion_desired: false,
                recursion_available: false,
                response_code: 0,
                question_count: 0,
                answer_count: 0,
                ns_record_count: 0,
                ar_count: 0,
            }),
    {
        DNSHeader {
            id: 0,
            is_response: false,
            opcode: 0,
            authoritative_answer: false,
            is_truncated: false,
            recursion_desired: false,
            recursion_available: false,
            response_code: 0,
            question_count: 0,
            answer_count: 0,
            ns_record_count: 0,
            ar_count: 0,
        }
    }
}

/// A single DNS question
#[derive(Debug, PartialEq)]
pub struct DNSQuestion {
    /// Domain name in question, its labels joined by dots.
    pub name: String,
    /// The type of record requested.
    pub qtype: RecordType,
    /// The class of record requested.
    pub qclass: RecordClass,
}

/// What a `DNSQuestion` holds, as a mathematical value.
#[verifier::ext_equal]
pub struct QuestionView {
    pub name: Seq<char>,
    pub qtype: RecordType,
    pub qclass: RecordClass,
}

impl View for DNSQuestion {
    type V = QuestionView;

    open spec fn view(&self) -> QuestionView {
        QuestionView { name: self.name@, qtype: self.qtype, qclass: self.qclass }
    }
}

/// A question on the wire: the name, then type and class.
#[verifier::opaque]
pub open spec fn question_wire(q: QuestionView) -> Seq<u8> {
    name_wire(encode_utf8(q.name)) + be16(q.qtype.code()) + be16(q.qclass.code())
}

/// The question at `pos` and the position behind it.
#[verifier::opaque]
pub open spec fn parse_question(msg: Seq<u8>, pos: int) -> Result<
    (QuestionView, int),
    MalformedMessage,
> {
    match parse_name(msg, pos) {
        Err(e) => Err(e),
        Ok((name, at)) => if at + 4 > msg.len() {
            Err(MalformedMessage::Truncated)
        } else {
            match RecordType::of_code(u16_at(msg, at)) {
                None => Err(MalformedMessage::UnknownType),
                Some(qtype) => match RecordClass::of_code(u16_at(msg, at + 2)) {
                    None => Err(MalformedMessage::UnknownClass),
                    Some(qclass) => Ok((QuestionView { name, qtype, qclass }, at + 4)),
                },
            }
        },
    }
}

/// Whether a question can stand in a message: its name is a valid domain name.
pub open spec fn question_valid(q: QuestionView) -> bool {
    name_valid(encode_utf8(q.name))
}

impl Clone for DNSQuestion {
    fn clone(&self) -> (copy: Self)
        ensures
            copy == *self,
    {
        DNSQuestion { name: self.name.clone(), qtype: self.qtype, qclass: self.qclass }
    }
}

impl DNSQuestion {
    /// Whether the name is a valid domain name: every label holds 1 to 63 bytes.
    pub open spec fn wf(self) -> bool {
        question_valid(self@)
    }

    /// A question for the TXT records of `domain` in the Internet class.
    pub fn new_request(domain: String) -> (question: Self)
        ensures
            question@ == (QuestionView {
                name: domain@,
                qtype: RecordType::TXT,
                qclass: RecordClass::IN,
            }),
    {
        DNSQuestion { name: domain, qtype: RecordType::TXT, qclass: RecordClass::IN }
    }

    /// Appends the question, or reports that a label of the name is longer
    /// than 255 bytes; `out` then holds part of the question.
    pub fn encode_into(&self, out: &mut Vec<u8>) -> (fits: bool)
        ensures
            fits == name_encodable(encode_utf8(self.name@)),
            fits ==> final(out)@ == old(out)@ + question_wire(self@),
    {
        proof {
            reveal(question_wire);
        }
        if !push_name(out, self.name.as_str().as_bytes()) {
            return false;
        }
        push_u16(out, u16::from(self.qtype));
        push_u16(out, u16::from(self.qclass));
        true
    }

    /// Reads the question at `pos` and gives the position behind it.
    pub fn parse(msg: &[u8], pos: usize) -> (r: Result<(DNSQuestion, usize), MalformedMessage>)
        ensures
            match r {
                Ok((question, next)) => parse_question(msg@, pos as int) == Ok::<
                    _,
                    MalformedMessage,
                >((question@, next as int)),
                Err(e) => parse_question(msg@, pos as int) == Err::<(QuestionView, int), _>(e),
            },
            r matches Ok((_, next)) ==> pos < next <= msg@.len(),
    {
        proof {
            reveal(parse_question);
        }
        let (name, at) = match read_name(msg, pos) {
            Ok(found) => found,
            Err(e) => {
                return Err(e);
            },
        };
        if msg.len() - at < 4 {
            return Err(MalformedMessage::Truncated);
        }
        let qtype = match RecordType::from_code(read_u16(msg, at)) {
            Some(t) => t,
            None => {
                return Err(MalformedMessage::UnknownType);
            },
        };
        let qclass = match RecordClass::from_code(read_u16(msg, at + 2)) {
            Some(c) => c,
            None => {
                return Err(MalformedMessage::UnknownClass);
            },
        };
        Ok((DNSQuestion { name, qtype, qclass }, at + 4))
    }
}

/// A single reply to a DNS query.
#[derive(Debug, PartialEq)]
pub struct DNSAnswer {
    /// Domain name in question, its labels joined by dots.
    pub name: String,
    /// The type of the transmitted record
    pub rtype: RecordType,
    /// Class of the transmitted record
    pub rclass: RecordClass,
    /// Time to live of the record. `0` indicates that this response should not be cached.
    pub ttl: u32,
    /// Length of the record data field in bytes
    pub data_length: u16,
    /// Record data field
    pub record: RecordData,
}

/// What a `DNSAnswer` holds, as a mathematical value.
#[verifier::ext_equal]
pub struct AnswerView {
    pub name: Seq<char>,
    pub rtype: RecordType,
    pub rclass: RecordClass,
    pub ttl: u32,
    pub data_length: u16,
    pub record: RecordDataView,
}

impl View for DNSAnswer {
    type V = AnswerView;

    open spec fn view(&self) -> AnswerView {
        AnswerView {
            name: self.name@,
            rtype: self.rtype,
            rclass: self.rclass,
            ttl: self.ttl,
            data_length: self.data_length,
            record: self.record@,
        }
    }
}

/// Record data on the wire. The strings of a TXT record follow one another;
/// a record that is not interpreted has no bytes, whatever length was
/// recorded for it.
pub open spec fn record_wire(record: RecordDataView) -> Seq<u8> {
    match record {
        RecordDataView::Txt(texts) => texts_wire(texts),
        RecordDataView::Unsupported => Seq::empty(),
    }
}

/// The fixed fields of an answer on the wire: type, class, time to live and
/// the recorded data length.
pub open spec fn answer_fixed(a: AnswerView) -> Seq<u8> {
    be16(a.rtype.code()) + be16(a.rclass.code()) + be32(a.ttl) + be16(a.data_length)
}

/// An answer on the wire: the name, then the fixed fields and the record data.
#[verifier::opaque]
pub open spec fn answer_wire(a: AnswerView) -> Seq<u8> {
    name_wire(encode_utf8(a.name)) + answer_fixed(a) + record_wire(a.record)
}

/// The length of the fixed fields between the name and the data of an answer.
pub const ANSWER_FIXED_LEN: usize = 10;

/// The answer whose name was read as `name` and whose fixed fields start at
/// `at`, and the position behind the answer. The data of a TXT record is read
/// as character-strings that fill the declared length; the data of any other
/// type is passed over.
#[verifier::opaque]
pub open spec fn parse_answer_body(msg: Seq<u8>, name: Seq<char>, at: int) -> Result<
    (AnswerView, int),
    MalformedMessage,
> {
    if at + ANSWER_FIXED_LEN > msg.len() {
        Err(MalformedMessage::Truncated)
    } else {
        match RecordType::of_code(u16_at(msg, at)) {
            None => Err(MalformedMessage::UnknownType),
            Some(rtype) => match RecordClass::of_code(u16_at(msg, at + 2)) {
                None => Err(MalformedMessage::UnknownClass),
                Some(rclass) => {
                    let ttl = u32_at(msg, at + 4);
                    let data_length = u16_at(msg, at + 8);
                    let data = at + ANSWER_FIXED_LEN;
                    let end = data + data_length;
                    if end > msg.len() {
                        Err(MalformedMessage::Truncated)
                    } else if rtype == RecordType::TXT {
                        match parse_strings(msg, data, end) {
                            Err(e) => Err(e),
                            Ok(strings) => Ok(
                                (
                                    AnswerView {
                                        name,
                                        rtype,
                                        rclass,
                                        ttl,
                                        data_length,
                                        record: RecordDataView::Txt(strings_text(strings)),
                                    },
                                    end,
                                ),
                            ),
                        }
                    } else {
                        Ok(
                            (
                                AnswerView {
                                    name,
                                    rtype,
                                    rclass,
                                    ttl,
                                    data_length,
                                    record: RecordDataView::Unsupported,
                                },
                                end,
                            ),
                        )
                    }
                },
            },
        }
    }
}

/// The answer at `pos` and the position behind it.
#[verifier::opaque]
pub open spec fn parse_answer(msg: Seq<u8>, pos: int) -> Result<(AnswerView, int), MalformedMessage> {
    match parse_name(msg, pos) {
        Err(e) => Err(e),
        Ok((name, at)) => parse_answer_body(msg, name, at),
    }
}

/// Whether an answer can stand in a message. Its name is a valid domain
/// name. A TXT record holds strings of at most 255 bytes, and its data length
/// is the length of their wire form. A record of another type holds no data.
#[verifier::opaque]
pub open spec fn answer_valid(a: AnswerView) -> bool {
    &&& name_valid(encode_utf8(a.name))
    &&& match a.record {
        RecordDataView::Txt(texts) => {
            &&& a.rtype == RecordType::TXT
            &&& a.data_length == texts_wire(texts).len()
            &&& forall|i: int|
                0 <= i < texts.len() ==> encode_utf8(#[trigger] texts[i]).len() <= MAX_STRING
        },
        RecordDataView::Unsupported => a.rtype != RecordType::TXT && a.data_length == 0,
    }
}

/// The TXT answer for `name` that carries the given strings: class IN, not
/// to be cached, the data length that of the strings on the wire. None where
/// the strings take more than 65,535 bytes on the wire.
pub open spec fn text_answer(name: Seq<char>, texts: Seq<Seq<char>>) -> Option<AnswerView> {
    if texts_wire(texts).len() > MAX_DATA {
        None
    } else {
        Some(
            AnswerView {
                name,
                rtype: RecordType::TXT,
                rclass: RecordClass::IN,
                ttl: 0,
                data_length: texts_wire(texts).len() as u16,
                record: RecordDataView::Txt(texts),
            },
        )
    }
}

impl DNSAnswer {
    /// Whether the answer can stand in a message.
    pub open spec fn wf(self) -> bool {
        answer_valid(self@)
    }

    /// Builds the TXT answer for `name` that carries the given strings.
    pub fn text(name: String, texts: Vec<String>) -> (r: Option<DNSAnswer>)
        ensures
            match r {
                Some(answer) => text_answer(name@, texts_of(texts@)) == Some(answer@),
                None => text_answer(name@, texts_of(texts@)) is None,
            },
    {
        match texts_length(&texts) {
            Some(data_length) => Some(
                DNSAnswer {
                    name,
                    rtype: RecordType::TXT,
                    rclass: RecordClass::IN,
                    ttl: 0,
                    data_length,
                    record: RecordData::Txt(texts),
                },
            ),
            None => None,
        }
    }

    /// Appends the answer, or reports that a label of the name is longer than
    /// 255 bytes; `out` then holds part of the answer.
    pub fn encode_into(&self, out: &mut Vec<u8>) -> (fits: bool)
        ensures
            fits == name_encodable(encode_utf8(self.name@)),
            fits ==> final(out)@ == old(out)@ + answer_wire(self@),
    {
        proof {
            reveal(answer_wire);
        }
        if !push_name(out, self.name.as_str().as_bytes()) {
            return false;
        }
        push_u16(out, u16::from(self.rtype));
        push_u16(out, u16::from(self.rclass));
        push_u32(out, self.ttl);
        push_u16(out, self.data_length);
        match &self.record {
            RecordData::Txt(texts) => {
                push_texts(out, texts);
            },
            RecordData::Unsupported => {},
        }
        true
    }

    /// Reads the answer at `pos` and gives the position behind it.
    pub fn parse(msg: &[u8], pos: usize) -> (r: Result<(DNSAnswer, usize), MalformedMessage>)
        ensures
            match r {
                Ok((answer, next)) => parse_answer(msg@, pos as int) == Ok::<_, MalformedMessage>(
                    (answer@, next as int),
                ),
                Err(e) => parse_answer(msg@, pos as int) == Err::<(AnswerView, int), _>(e),
            },
            r matches Ok((_, next)) ==> pos < next <= msg@.len(),
    {
        proof {
            reveal(parse_answer);
        }
        let (name, at) = match read_name(msg, pos) {
            Ok(found) => found,
            Err(e) => {
                return Err(e);
            },
        };
        proof {
            reveal(parse_answer_body);
        }
        if msg.len() - at < ANSWER_FIXED_LEN {
            return Err(MalformedMessage::Truncated);
        }
        let rtype = match RecordType::from_code(read_u16(msg, at)) {
            Some(t) => t,
            None => {
                return Err(MalformedMessage::UnknownType);
            },
        };
        let rclass = match RecordClass::from_code(read_u16(msg, at + 2)) {
            Some(c) => c,
            None => {
                return Err(MalformedMessage::UnknownClass);
            },
        };
        let ttl = read_u32(msg, at + 4);
        let data_length = read_u16(msg, at + 8);
        let data = at + ANSWER_FIXED_LEN;
        if msg.len() - data < data_length as usize {
            return Err(MalformedMessage::Truncated);
        }
        let end = data + data_length as usize;
        let record = match rtype {
            RecordType::TXT => match read_texts(msg, data, end) {
                Ok(texts) => RecordData::Txt(texts),
                Err(e) => {
                    return Err(e);
                },
            },
            _ => RecordData::Unsupported,
        };
        Ok((DNSAnswer { name, rtype, rclass, ttl, data_length, record }, end))
    }
}

/// A single DNS message.
///
/// This data structure is a simplified version of a DNS message, ignoring the
/// authority and additional sections for resource records.
#[derive(Debug, PartialEq)]
pub struct DNSMessage {
    /// The DNS header
    pub header: DNSHeader,
    /// Question section of a DNS message
    pub questions: Vec<DNSQuestion>,
    /// Answer section of the DNS message; a query has none
    pub answers: Option<Vec<DNSAnswer>>,
}

/// What a `DNSMessage` holds, as a mathematical value.
#[verifier::ext_equal]
pub struct MessageView {
    pub header: DNSHeader,
    pub questions: Seq<QuestionView>,
    pub answers: Option<Seq<AnswerView>>,
}

/// What the questions of a vector hold.
pub open spec fn question_views(questions: Seq<DNSQuestion>) -> Seq<QuestionView> {
    Seq::new(questions.len(), |i: int| questions[i]@)
}

/// What the answers of a vector hold.
pub open spec fn answer_views(answers: Seq<DNSAnswer>) -> Seq<AnswerView> {
    Seq::new(answers.len(), |i: int| answers[i]@)
}

impl View for DNSMessage {
    type V = MessageView;

    open spec fn view(&self) -> MessageView {
        MessageView {
            header: self.header,
            questions: question_views(self.questions@),
            answers: match self.answers {
                Some(answers) => Some(answer_views(answers@)),
                None => None,
            },
        }
    }
}

/// Questions on the wire, one behind the other.
pub open spec fn questions_wire(questions: Seq<QuestionView>) -> Seq<u8>
    decreases questions.len(),
{
    if questions.len() == 0 {
        Seq::empty()
    } else {
        question_wire(questions[0]) + questions_wire(questions.drop_first())
    }
}

/// Answers on the wire, one behind the other.
pub open spec fn answers_wire(answers: Seq<AnswerView>) -> Seq<u8>
    decreases answers.len(),
{
    if answers.len() == 0 {
        Seq::empty()
    } else {
        answer_wire(answers[0]) + answers_wire(answers.drop_first())
    }
}

/// A message on the wire: the header, the questions, the answers if there are any.
pub open spec fn message_wire(m: MessageView) -> Seq<u8> {
    header_wire(m.header) + questions_wire(m.questions) + match m.answers {
        Some(answers) => answers_wire(answers),
        None => Seq::empty(),
    }
}

/// Whether a message can be written: no label of any of its names is longer
/// than 255 bytes.
pub open spec fn message_encodable(m: MessageView) -> bool {
    &&& questions_encodable(m.questions)
    &&& m.answers matches Some(answers) ==> answers_encodable(answers)
}

/// Whether the name of every question can be written.
pub open spec fn questions_encodable(questions: Seq<QuestionView>) -> bool {
    forall|i: int|
        0 <= i < questions.len() ==> name_encodable(encode_utf8(#[trigger] questions[i].name))
}

/// Whether the name of every answer can be written.
pub open spec fn answers_encodable(answers: Seq<AnswerView>) -> bool {
    forall|i: int| 0 <= i < answers.len() ==> name_encodable(encode_utf8(#[trigger] answers[i].name))
}

/// Questions behind questions that were read before them.
pub open spec fn after_questions(
    done: Seq<QuestionView>,
    rest: Result<(Seq<QuestionView>, int), MalformedMessage>,
) -> Result<(Seq<QuestionView>, int), MalformedMessage> {
    match rest {
        Ok((questions, end)) => Ok((done + questions, end)),
        Err(e) => Err(e),
    }
}

/// The `count` questions that start at `pos`, and the position behind them.
pub open spec fn parse_questions(msg: Seq<u8>, pos: int, count: nat) -> Result<
    (Seq<QuestionView>, int),
    MalformedMessage,
>
    decreases count,
{
    if count == 0 {
        Ok((Seq::empty(), pos))
    } else {
        match parse_question(msg, pos) {
            Err(e) => Err(e),
            Ok((question, next)) => after_questions(
                seq![question],
                parse_questions(msg, next, (count - 1) as nat),
            ),
        }
    }
}

/// Answers behind answers that were read before them.
pub open spec fn after_answers(
    done: Seq<AnswerView>,
    rest: Result<(Seq<AnswerView>, int), MalformedMessage>,
) -> Result<(Seq<AnswerView>, int), MalformedMessage> {
    match rest {
        Ok((answers, end)) => Ok((done + answers, end)),
        Err(e) => Err(e),
    }
}

/// The `count` answers that start at `pos`, and the position behind them.
pub open spec fn parse_answers(msg: Seq<u8>, pos: int, count: nat) -> Result<
    (Seq<AnswerView>, int),
    MalformedMessage,
>
    decreases count,
{
    if count == 0 {
        Ok((Seq::empty(), pos))
    } else {
        match parse_answer(msg, pos) {
            Err(e) => Err(e),
            Ok((answer, next)) => after_answers(
                seq![answer],
                parse_answers(msg, next, (count - 1) as nat),
            ),
        }
    }
}

/// The message that a buffer holds: the header, as many questions as the
/// header counts and, if it counts any, as many answers. A message without
/// answers has no answer section. Bytes behind the last answer are ignored.
pub open spec fn parse_message(msg: Seq<u8>) -> Result<MessageView, MalformedMessage> {
    match parse_header(msg) {
        Err(e) => Err(e),
        Ok(header) => match parse_questions(msg, HEADER_LEN as int, header.question_count as nat) {
            Err(e) => Err(e),
            Ok((questions, at)) => if header.answer_count > 0 {
                match parse_answers(msg, at, header.answer_count as nat) {
                    Err(e) => Err(e),
                    Ok((answers, _)) => Ok(MessageView { header, questions, answers: Some(answers) }),
                }
            } else {
                Ok(MessageView { header, questions, answers: None })
            },
        },
    }
}

/// Appends the questions, or reports that one of them cannot be written.
fn push_questions(out: &mut Vec<u8>, questions: &Vec<DNSQuestion>) -> (fits: bool)
    ensures
        fits == questions_encodable(question_views(questions@)),
        fits ==> final(out)@ == old(out)@ + questions_wire(question_views(questions@)),
{
    let ghost all = question_views(questions@);
    let mut i: usize = 0;
    assert(all.skip(0) =~= all);
    while i < questions.len()
        invariant
            i <= questions@.len(),
            all == question_views(questions@),
            forall|j: int| 0 <= j < i ==> name_encodable(encode_utf8(#[trigger] all[j].name)),
            old(out)@ + questions_wire(all) == out@ + questions_wire(all.skip(i as int)),
        decreases questions@.len() - i,
    {
        if !questions[i].encode_into(out) {
            assert(all[i as int].name == questions@[i as int].name@);
            return false;
        }
        proof {
            assert(all.skip(i as int).drop_first() =~= all.skip(i + 1));
        }
        i += 1;
    }
    true
}

/// Appends the answers, or reports that one of them cannot be written.
fn push_answers(out: &mut Vec<u8>, answers: &Vec<DNSAnswer>) -> (fits: bool)
    ensures
        fits == answers_encodable(answer_views(answers@)),
        fits ==> final(out)@ == old(out)@ + answers_wire(answer_views(answers@)),
{
    let ghost all = answer_views(answers@);
    let mut i: usize = 0;
    assert(all.skip(0) =~= all);
    while i < answers.len()
        invariant
            i <= answers@.len(),
            all == answer_views(answers@),
            forall|j: int| 0 <= j < i ==> name_encodable(encode_utf8(#[trigger] all[j].name)),
            old(out)@ + answers_wire(all) == out@ + answers_wire(all.skip(i as int)),
        decreases answers@.len() - i,
    {
        if !answers[i].encode_into(out) {
            assert(all[i as int].name == answers@[i as int].name@);
            return false;
        }
        proof {
            assert(all.skip(i as int).drop_first() =~= all.skip(i + 1));
        }
        i += 1;
    }
    true
}

/// Reads `count` questions from `pos` on.
fn read_questions(msg: &[u8], pos: usize, count: u16) -> (r: Result<
    (Vec<DNSQuestion>, usize),
    MalformedMessage,
>)
    ensures
        match r {
            Ok((questions, next)) => parse_questions(msg@, pos as int, count as nat) == Ok::<
                _,
                MalformedMessage,
            >((question_views(questions@), next as int)),
            Err(e) => parse_questions(msg@, pos as int, count as nat) == Err::<
                (Seq<QuestionView>, int),
                _,
            >(e),
        },
{
    let mut questions: Vec<DNSQuestion> = Vec::new();
    let mut cur: usize = pos;
    let mut left: u16 = count;
    while left > 0
        invariant
            parse_questions(msg@, pos as int, count as nat) == after_questions(
                question_views(questions@),
                parse_questions(msg@, cur as int, left as nat),
            ),
        decreases left,
    {
        let (question, next) = match DNSQuestion::parse(msg, cur) {
            Ok(found) => found,
            Err(e) => {
                return Err(e);
            },
        };
        let ghost done = question_views(questions@);
        let ghost view = question@;
        questions.push(question);
        proof {
            let rest = parse_questions(msg@, next as int, (left - 1) as nat);
            assert(question_views(questions@) =~= done.push(view));
            assert(after_questions(done, after_questions(seq![view], rest)) == after_questions(
                done.push(view),
                rest,
            )) by {
                match rest {
                    Ok((found, end)) => {
                        assert(done + (seq![view] + found) =~= done.push(view) + found);
                    },
                    Err(e) => {},
                }
            }
        }
        cur = next;
        left -= 1;
    }
    Ok((questions, cur))
}

/// Reads `count` answers from `pos` on.
fn read_answers(msg: &[u8], pos: usize, count: u16) -> (r: Result<
    (Vec<DNSAnswer>, usize),
    MalformedMessage,
>)
    ensures
        match r {
            Ok((answers, next)) => parse_answers(msg@, pos as int, count as nat) == Ok::<
                _,
                MalformedMessage,
            >((answer_views(answers@), next as int)),
            Err(e) => parse_answers(msg@, pos as int, count as nat) == Err::<
                (Seq<AnswerView>, int),
                _,
            >(e),
        },
{
    let mut answers: Vec<DNSAnswer> = Vec::new();
    let mut cur: usize = pos;
    let mut left: u16 = count;
    while left > 0
        invariant
            parse_answers(msg@, pos as int, count as nat) == after_answers(
                answer_views(answers@),
                parse_answers(msg@, cur as int, left as nat),
            ),
        decreases left,
    {
        let (answer, next) = match DNSAnswer::parse(msg, cur) {
            Ok(found) => found,
            Err(e) => {
                return Err(e);
            },
        };
        let ghost done = answer_views(answers@);
        let ghost view = answer@;
        answers.push(answer);
        proof {
            let rest = parse_answers(msg@, next as int, (left - 1) as nat);
            assert(answer_views(answers@) =~= done.push(view));
            assert(after_answers(done, after_answers(seq![view], rest)) == after_answers(
                done.push(view),
                rest,
            )) by {
                match rest {
                    Ok((found, end)) => {
                        assert(done + (seq![view] + found) =~= done.push(view) + found);
                    },
                    Err(e) => {},
                }
            }
        }
        cur = next;
        left -= 1;
    }
    Ok((answers, cur))
}

/// Whether the header counts the questions and the answers of a message. A
/// message without an answer section counts no answers.
pub open spec fn counts_match(m: MessageView) -> bool {
    &&& m.header.question_count == m.questions.len()
    &&& match m.answers {
        Some(answers) => m.header.answer_count == answers.len(),
        None => m.header.answer_count == 0,
    }
}

/// Whether a message is valid: the header is well formed and counts the
/// questions and the answers, and every question and answer is valid. An
/// answer section that is there holds at least one answer.
pub open spec fn message_valid(m: MessageView) -> bool {
    &&& m.header.wf()
    &&& counts_match(m)
    &&& forall|i: int| 0 <= i < m.questions.len() ==> question_valid(#[trigger] m.questions[i])
    &&& match m.answers {
        Some(answers) => {
            &&& answers.len() > 0
            &&& forall|i: int| 0 <= i < answers.len() ==> answer_valid(#[trigger] answers[i])
        },
        None => true,
    }
}

/// Reading `count` questions gives `count` questions.
pub proof fn lemma_questions_count(msg: Seq<u8>, pos: int, count: nat)
    ensures
        parse_questions(msg, pos, count) matches Ok((questions, _)) ==> questions.len() == count,
    decreases count,
{
    if count > 0 {
        if let Ok((_, next)) = parse_question(msg, pos) {
            lemma_questions_count(msg, next, (count - 1) as nat);
        }
    }
}

/// Reading `count` answers gives `count` answers.
pub proof fn lemma_answers_count(msg: Seq<u8>, pos: int, count: nat)
    ensures
        parse_answers(msg, pos, count) matches Ok((answers, _)) ==> answers.len() == count,
    decreases count,
{
    if count > 0 {
        if let Ok((_, next)) = parse_answer(msg, pos) {
            lemma_answers_count(msg, next, (count - 1) as nat);
        }
    }
}

/// A message that is read from bytes keeps its counts: its header fits, and
/// it holds as many questions and answers as the header counts.
pub proof fn lemma_parsed_counts(msg: Seq<u8>)
    ensures
        parse_message(msg) matches Ok(m) ==> m.header.wf() && counts_match(m),
{
    if let Ok(header) = parse_header(msg) {
        lemma_header_fields_fit(msg[2], msg[3]);
        lemma_questions_count(msg, HEADER_LEN as int, header.question_count as nat);
        if let Ok((_, at)) = parse_questions(msg, HEADER_LEN as int, header.question_count as nat) {
            lemma_answers_count(msg, at, header.answer_count as nat);
        }
    }
}

/// The request with the given id for the TXT records of `domain`: one
/// question, recursion desired.
pub open spec fn request_of(id: u16, domain: Seq<char>) -> MessageView {
    MessageView {
        header: DNSHeader {
            id,
            is_response: false,
            opcode: 0,
            authoritative_answer: false,
            is_truncated: false,
            recursion_desired: true,
            recursion_available: false,
            response_code: 0,
            question_count: 1,
            answer_count: 0,
            ns_record_count: 0,
            ar_count: 0,
        },
        questions: seq![
            QuestionView { name: domain, qtype: RecordType::TXT, qclass: RecordClass::IN },
        ],
        answers: None,
    }
}

/// The header of the reply to a query: the id, the opcode and the
/// recursion-desired flag of the query, the response flag set, one answer.
pub open spec fn reply_header(query: DNSHeader) -> DNSHeader {
    DNSHeader {
        id: query.id,
        is_response: true,
        opcode: query.opcode,
        authoritative_answer: false,
        is_truncated: false,
        recursion_desired: query.recursion_desired,
        recursion_available: false,
        response_code: 0,
        question_count: query.question_count,
        answer_count: 1,
        ns_record_count: 0,
        ar_count: 0,
    }
}

/// The reply to a query that carries one TXT record: it echoes the id and
/// the questions of the query, and its one answer bears the name of the first
/// question. None where the query has no question, the record is not a TXT
/// record, or its strings take more than 65,535 bytes on the wire.
pub open spec fn reply_of(query: MessageView, record: RecordDataView) -> Option<MessageView> {
    match record {
        RecordDataView::Unsupported => None,
        RecordDataView::Txt(texts) => if query.questions.len() == 0 {
            None
        } else {
            match text_answer(query.questions[0].name, texts) {
                None => None,
                Some(answer) => Some(
                    MessageView {
                        header: reply_header(query.header),
                        questions: query.questions,
                        answers: Some(seq![answer]),
                    },
                ),
            }
        },
    }
}

impl DNSMessage {
    /// Whether the header counts the questions and the answers.
    pub open spec fn wf(self) -> bool {
        counts_match(self@)
    }

    /// Builds the reply to this query that carries `record`.
    pub fn reply_with(&self, record: &RecordData) -> (r: Option<DNSMessage>)
        ensures
            match r {
                Some(reply) => reply_of(self@, record@) == Some(reply@),
                None => reply_of(self@, record@) is None,
            },
            r matches Some(reply) ==> (self.wf() ==> reply.wf()),
    {
        let texts = match record {
            RecordData::Txt(texts) => texts.clone(),
            RecordData::Unsupported => {
                return None;
            },
        };
        if self.questions.len() == 0 {
            return None;
        }
        let answer = match DNSAnswer::text(self.questions[0].name.clone(), texts) {
            Some(answer) => answer,
            None => {
                return None;
            },
        };
        let header = DNSHeader {
            id: self.header.id,
            is_response: true,
            opcode: self.header.opcode,
            authoritative_answer: false,
            is_truncated: false,
            recursion_desired: self.header.recursion_desired,
            recursion_available: false,
            response_code: 0,
            question_count: self.header.question_count,
            answer_count: 1,
            ns_record_count: 0,
            ar_count: 0,
        };
        let questions = self.questions.clone();
        let mut answers: Vec<DNSAnswer> = Vec::new();
        answers.push(answer);
        Some(DNSMessage { header, questions, answers: Some(answers) })
    }

    /// A request with one question, for the TXT records of `domain`.
    pub fn new_request(id: u16, domain: String) -> (message: Self)
        ensures
            message@ == request_of(id, domain@),
            message.wf(),
    {
        let mut header = DNSHeader::new_request(id);
        let mut questions: Vec<DNSQuestion> = Vec::new();
        questions.push(DNSQuestion::new_request(domain));
        header.question_count = 1;
        DNSMessage { header, questions, answers: None }
    }

    /// Writes the message to bytes. A message with a label of more than 255
    /// bytes in one of its names cannot be written.
    pub fn encode(&self) -> (r: Result<Vec<u8>, EncodeError>)
        ensures
            r is Ok <==> message_encodable(self@),
            r matches Ok(bytes) ==> bytes@ == message_wire(self@),
    {
        let mut out: Vec<u8> = Vec::new();
        self.header.encode_into(&mut out);
        if !push_questions(&mut out, &self.questions) {
            return Err(EncodeError::LabelTooLong);
        }
        match &self.answers {
            Some(answers) => {
                if !push_answers(&mut out, answers) {
                    return Err(EncodeError::LabelTooLong);
                }
            },
            None => {},
        }
        Ok(out)
    }

    /// Reads a message from bytes, or says why the bytes are no message.
    /// Nothing outside the buffer is ever read.
    pub fn decode(msg: &[u8]) -> (r: Result<DNSMessage, MalformedMessage>)
        ensures
            match r {
                Ok(message) => parse_message(msg@) == Ok::<_, MalformedMessage>(message@),
                Err(e) => parse_message(msg@) == Err::<MessageView, _>(e),
            },
            r matches Ok(message) ==> message.header.wf() && message.wf(),
    {
        proof {
            lemma_parsed_counts(msg@);
        }
        let header = match DNSHeader::decode(msg) {
            Ok(h) => h,
            Err(e) => {
                return Err(e);
            },
        };
        let (questions, at) = match read_questions(msg, HEADER_LEN, header.question_count) {
            Ok(found) => found,
            Err(e) => {
                return Err(e);
            },
        };
        let answers = if header.answer_count > 0 {
            match read_answers(msg, at, header.answer_count) {
                Ok((found, _)) => Some(found),
                Err(e) => {
                    return Err(e);
                },
            }
        } else {
            None
        };
        Ok(DNSMessage { header, questions, answers })
    }
}

} // verus!
