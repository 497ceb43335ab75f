use kakure::dns::messages::{DNSAnswer, DNSHeader, DNSMessage, DNSQuestion};
use kakure::dns::types::{EncodeError, MalformedMessage, RecordClass, RecordData, RecordType};
use kakure::dns::wire::{push_name, read_name, texts_length};

const REQUEST: [u8; 29] = [
    91, 185, 1, 0, 0, 1, 0, 0, 0, 0, 0, 0, 7, 101, 120, 97, 109, 112, 108, 101, 3, 99, 111, 109, 0,
    0, 16, 0, 1,
];

fn text_answer(name: &str, chunks: &[&str]) -> DNSAnswer {
    let texts: Vec<String> = chunks.iter().map(|c| c.to_string()).collect();
    DNSAnswer::text(name.to_string(), texts).unwrap()
}

fn reply(id: u16, name: &str, chunks: &[&str]) -> DNSMessage {
    let mut header = DNSHeader::new_request(id);
    header.is_response = true;
    header.question_count = 1;
    header.answer_count = 1;
    DNSMessage {
        header,
        questions: vec![DNSQuestion::new_request(name.to_string())],
        answers: Some(vec![text_answer(name, chunks)]),
    }
}

#[test]
fn conversion_to_u8_vec() {
    let expected = [
        91, 185, 1, 0, 0, 1, 0, 0, 0, 0, 0, 0, 7, 101, 120, 97, 109, 112, 108, 101, 3, 99, 111,
        109, 0, 0, 16, 0, 1,
    ];

    let message = DNSMessage::new_request(23481, "example.com".into());
    let msg: Vec<u8> = message.encode().unwrap();

    assert_eq!(msg, expected);
}

#[test]
fn conversion_from_u8_vec() {
    let input: Vec<u8> = vec![
        91, 185, 1, 0, 0, 1, 0, 0, 0, 0, 0, 0, 7, 101, 120, 97, 109, 112, 108, 101, 3, 99, 111,
        109, 0, 0, 16, 0, 1,
    ];

    let expected = DNSMessage::new_request(23481, "example.com".into());

    let parsed = DNSMessage::decode(input.as_slice()).unwrap();
    assert_eq!(parsed, expected);
}

#[test]
fn request_has_one_question_and_no_answers() {
    let message = DNSMessage::new_request(7, "example.com".into());
    assert_eq!(message.header.id, 7);
    assert!(message.header.recursion_desired);
    assert!(!message.header.is_response);
    assert_eq!(message.header.question_count, 1);
    assert_eq!(message.header.answer_count, 0);
    assert_eq!(message.questions.len(), 1);
    assert_eq!(message.questions[0].qtype, RecordType::TXT);
    assert_eq!(message.questions[0].qclass, RecordClass::IN);
    assert_eq!(message.answers, None);
}

#[test]
fn header_packs_its_flags() {
    let header = DNSHeader {
        id: 0x1234,
        is_response: true,
        opcode: 5,
        authoritative_answer: true,
        is_truncated: false,
        recursion_desired: true,
        recursion_available: true,
        response_code: 3,
        question_count: 0x0102,
        answer_count: 0x0304,
        ns_record_count: 0x0506,
        ar_count: 0x0708,
    };
    let mut out = Vec::new();
    header.encode_into(&mut out);
    // 1 0101 1 0 1 = 0xad, 1 000 0011 = 0x83
    assert_eq!(out, vec![0x12, 0x34, 0xad, 0x83, 1, 2, 3, 4, 5, 6, 7, 8]);
    assert_eq!(DNSHeader::decode(&out), Ok(header));
}

#[test]
fn header_roundtrip_over_all_flags() {
    for bits in 0u16..512 {
        let header = DNSHeader {
            id: bits.wrapping_mul(97),
            is_response: bits & 1 != 0,
            opcode: ((bits >> 1) & 15) as u8,
            authoritative_answer: bits & 32 != 0,
            is_truncated: bits & 64 != 0,
            recursion_desired: bits & 128 != 0,
            recursion_available: bits & 256 != 0,
            response_code: (bits % 16) as u8,
            question_count: bits,
            answer_count: 511 - bits,
            ns_record_count: 0,
            ar_count: 0,
        };
        let mut out = Vec::new();
        header.encode_into(&mut out);
        assert_eq!(out.len(), 12);
        assert_eq!(DNSHeader::decode(&out), Ok(header));
    }
}

#[test]
fn default_header_is_all_clear() {
    let header = DNSHeader::default();
    let mut out = Vec::new();
    header.encode_into(&mut out);
    assert_eq!(out, vec![0u8; 12]);
}

#[test]
fn short_buffer_is_no_header() {
    assert_eq!(DNSHeader::decode(&[]), Err(MalformedMessage::Truncated));
    assert_eq!(DNSHeader::decode(&REQUEST[..11]), Err(MalformedMessage::Truncated));
    assert_eq!(DNSMessage::decode(&REQUEST[..11]), Err(MalformedMessage::Truncated));
}

#[test]
fn every_truncation_of_a_request_is_refused() {
    for len in 0..REQUEST.len() {
        assert_eq!(DNSMessage::decode(&REQUEST[..len]), Err(MalformedMessage::Truncated));
    }
}

#[test]
fn every_truncation_of_a_reply_is_refused() {
    let bytes = reply(9, "example.com", &["hello", "world"]).encode().unwrap();
    assert!(DNSMessage::decode(&bytes).is_ok());
    for len in 0..bytes.len() {
        assert!(DNSMessage::decode(&bytes[..len]).is_err());
    }
}

#[test]
fn bytes_behind_the_message_are_ignored() {
    let mut bytes = REQUEST.to_vec();
    bytes.extend_from_slice(&[1, 2, 3]);
    let expected = DNSMessage::new_request(23481, "example.com".into());
    assert_eq!(DNSMessage::decode(&bytes), Ok(expected));
}

#[test]
fn question_roundtrip() {
    let question = DNSQuestion {
        name: "chat.example.org".to_string(),
        qtype: RecordType::MX,
        qclass: RecordClass::CH,
    };
    let mut out = vec![0xaa, 0xbb];
    assert!(question.encode_into(&mut out));
    assert_eq!(
        out,
        vec![
            0xaa, 0xbb, 4, b'c', b'h', b'a', b't', 7, b'e', b'x', b'a', b'm', b'p', b'l', b'e', 3,
            b'o', b'r', b'g', 0, 0, 15, 0, 3
        ]
    );
    assert_eq!(DNSQuestion::parse(&out, 2), Ok((question, out.len())));
}

#[test]
fn question_with_umlauts_roundtrips() {
    let question = DNSQuestion::new_request("grüße.example".to_string());
    let mut out = Vec::new();
    assert!(question.encode_into(&mut out));
    assert_eq!(out[0], 7);
    assert_eq!(DNSQuestion::parse(&out, 0), Ok((question, out.len())));
}

#[test]
fn unknown_codes_are_refused() {
    let mut bytes = REQUEST.to_vec();
    bytes[26] = 17;
    assert_eq!(DNSMessage::decode(&bytes), Err(MalformedMessage::UnknownType));
    bytes[26] = 0;
    assert_eq!(DNSMessage::decode(&bytes), Err(MalformedMessage::UnknownType));
    bytes[26] = 16;
    bytes[28] = 5;
    assert_eq!(DNSMessage::decode(&bytes), Err(MalformedMessage::UnknownClass));
    bytes[28] = 0;
    assert_eq!(DNSMessage::decode(&bytes), Err(MalformedMessage::UnknownClass));
}

#[test]
fn record_codes() {
    assert_eq!(u16::from(RecordType::A), 1);
    assert_eq!(u16::from(RecordType::SOA), 6);
    assert_eq!(u16::from(RecordType::TXT), 16);
    assert_eq!(u16::from(RecordClass::IN), 1);
    assert_eq!(u16::from(RecordClass::HS), 4);
    assert_eq!(RecordType::from_code(0), None);
    assert_eq!(RecordType::from_code(17), None);
    assert_eq!(RecordClass::from_code(0), None);
    assert_eq!(RecordClass::from_code(5), None);
    for code in 1u16..=16 {
        assert_eq!(RecordType::from_code(code).map(u16::from), Some(code));
    }
    for code in 1u16..=4 {
        assert_eq!(RecordClass::from_code(code).map(u16::from), Some(code));
    }
}

#[test]
fn label_of_64_bytes_is_refused_on_decode() {
    let mut bytes = vec![0u8; 12];
    bytes[5] = 1;
    bytes.push(64);
    bytes.extend_from_slice(&[b'a'; 64]);
    bytes.extend_from_slice(&[0, 0, 16, 0, 1]);
    assert_eq!(DNSMessage::decode(&bytes), Err(MalformedMessage::LabelTooLong));
    bytes[12] = 63;
    bytes.remove(13);
    let decoded = DNSMessage::decode(&bytes).unwrap();
    assert_eq!(decoded.questions[0].name, "a".repeat(63));
}

#[test]
fn label_of_256_bytes_cannot_be_written() {
    let long = DNSMessage::new_request(1, format!("{}.com", "a".repeat(256)));
    assert_eq!(long.encode(), Err(EncodeError::LabelTooLong));
    let fits = DNSMessage::new_request(1, format!("{}.com", "a".repeat(255)));
    let bytes = fits.encode().unwrap();
    assert_eq!(bytes[12], 255);
    assert_eq!(bytes.len(), 12 + 1 + 255 + 4 + 1 + 4);
}

#[test]
fn empty_labels_are_written_as_they_stand() {
    let mut out = Vec::new();
    assert!(push_name(&mut out, b""));
    assert_eq!(out, vec![0, 0]);
    let mut out = Vec::new();
    assert!(push_name(&mut out, b"a."));
    assert_eq!(out, vec![1, b'a', 0, 0]);
    let mut out = Vec::new();
    assert!(push_name(&mut out, b".a"));
    assert_eq!(out, vec![0, 1, b'a', 0]);
}

#[test]
fn name_behind_a_pointer_reads_like_the_name_itself() {
    // a reply whose answer names the question by a pointer to offset 12
    let mut bytes = vec![0, 9, 0x80, 0, 0, 1, 0, 1, 0, 0, 0, 0];
    bytes.extend_from_slice(&[7, b'e', b'x', b'a', b'm', b'p', b'l', b'e', 3, b'c', b'o', b'm', 0]);
    bytes.extend_from_slice(&[0, 16, 0, 1]);
    bytes.extend_from_slice(&[0xc0, 12]);
    bytes.extend_from_slice(&[0, 16, 0, 1, 0, 0, 0, 0, 0, 6, 5, b'h', b'e', b'l', b'l', b'o']);
    let compressed = DNSMessage::decode(&bytes).unwrap();

    let mut expected = reply(9, "example.com", &["hello"]);
    expected.header.recursion_desired = false;
    assert_eq!(compressed, expected);

    let plain = expected.encode().unwrap();
    assert_eq!(DNSMessage::decode(&plain).unwrap(), compressed);
    assert_eq!(read_name(&bytes, 12), Ok(("example.com".to_string(), 25)));
    assert_eq!(read_name(&bytes, 29), Ok(("example.com".to_string(), 31)));
}

#[test]
fn pointer_that_does_not_point_backwards_is_refused() {
    // a pointer to itself
    let itself = [0xc0, 0];
    assert_eq!(read_name(&itself, 0), Err(MalformedMessage::BadPointer));
    // a pointer forwards
    let forwards = [0xc0, 2, 1, b'a', 0];
    assert_eq!(read_name(&forwards, 0), Err(MalformedMessage::BadPointer));
    // two pointers in a circle
    let circle = [0xc0, 2, 0xc0, 0];
    assert_eq!(read_name(&circle, 0), Err(MalformedMessage::BadPointer));
    assert_eq!(read_name(&circle, 2), Err(MalformedMessage::BadPointer));
    // a pointer to a pointer
    let chain = [1, b'a', 0, 0xc0, 0, 0xc0, 3];
    assert_eq!(read_name(&chain, 3), Ok(("a".to_string(), 5)));
    assert_eq!(read_name(&chain, 5), Err(MalformedMessage::BadPointer));
    // a pointer behind labels
    let mixed = [1, b'a', 0, 1, b'b', 0xc0, 0];
    assert_eq!(read_name(&mixed, 3), Err(MalformedMessage::BadPointer));
    // half a pointer
    assert_eq!(read_name(&[1, b'a', 0, 0xc0], 3), Err(MalformedMessage::Truncated));
}

#[test]
fn pointer_in_a_message_that_points_at_itself_is_refused() {
    let mut bytes = vec![0u8; 12];
    bytes[5] = 1;
    bytes.extend_from_slice(&[0xc0, 12, 0, 16, 0, 1]);
    assert_eq!(DNSMessage::decode(&bytes), Err(MalformedMessage::BadPointer));
}

#[test]
fn names_are_read_to_their_end_only() {
    assert_eq!(read_name(&[], 0), Err(MalformedMessage::Truncated));
    assert_eq!(read_name(&[3, b'a', b'b'], 0), Err(MalformedMessage::Truncated));
    assert_eq!(read_name(&[2, b'a', b'b'], 0), Err(MalformedMessage::Truncated));
    assert_eq!(read_name(&[2, b'a', b'b', 0], 0), Ok(("ab".to_string(), 4)));
    assert_eq!(read_name(&[0], 0), Ok((String::new(), 1)));
    assert_eq!(read_name(&[0], 1), Err(MalformedMessage::Truncated));
}

#[test]
fn bytes_that_are_no_utf8_are_read_lossily() {
    assert_eq!(read_name(&[2, 0xff, b'a', 0], 0), Ok(("\u{fffd}a".to_string(), 4)));
    assert_eq!(read_name(&[2, 0xc3, 0xa4, 1, b'b', 0], 0), Ok(("ä.b".to_string(), 6)));
}

#[test]
fn text_answer_roundtrip() {
    let message = reply(77, "chat.example.com", &["2020-12-24T18:34:16+01:00hello", "", "wörld"]);
    let answer = &message.answers.as_ref().unwrap()[0];
    assert_eq!(answer.data_length, (1 + 30) + 1 + (1 + 6));
    assert_eq!(answer.ttl, 0);
    assert_eq!(answer.rtype, RecordType::TXT);
    assert_eq!(answer.rclass, RecordClass::IN);
    let bytes = message.encode().unwrap();
    assert_eq!(DNSMessage::decode(&bytes), Ok(message));
}

#[test]
fn answer_roundtrip_at_an_offset() {
    let answer = text_answer("a.bc", &["x", "yz"]);
    let mut out = vec![9, 9, 9];
    assert!(answer.encode_into(&mut out));
    assert_eq!(
        out,
        vec![
            9, 9, 9, 1, b'a', 2, b'b', b'c', 0, 0, 16, 0, 1, 0, 0, 0, 0, 0, 5, 1, b'x', 2, b'y',
            b'z'
        ]
    );
    assert_eq!(DNSAnswer::parse(&out, 3), Ok((answer, out.len())));
}

#[test]
fn time_to_live_takes_four_bytes() {
    let mut answer = text_answer("a", &[]);
    answer.ttl = 0x0102_0304;
    let mut out = Vec::new();
    assert!(answer.encode_into(&mut out));
    assert_eq!(out, vec![1, b'a', 0, 0, 16, 0, 1, 1, 2, 3, 4, 0, 0]);
    assert_eq!(DNSAnswer::parse(&out, 0), Ok((answer, out.len())));
}

#[test]
fn string_of_more_than_255_bytes_is_cut_on_the_wire() {
    let answer = text_answer("a", &[&"x".repeat(300), "y"]);
    assert_eq!(answer.data_length, 256 + 2);
    let mut out = Vec::new();
    assert!(answer.encode_into(&mut out));
    assert_eq!(out.len(), 3 + 10 + 256 + 2);
    assert_eq!(out[13], 255);
    let (decoded, next) = DNSAnswer::parse(&out, 0).unwrap();
    assert_eq!(next, out.len());
    assert_eq!(decoded.record, RecordData::Txt(vec!["x".repeat(255), "y".to_string()]));
}

#[test]
fn strings_that_overrun_the_data_are_refused() {
    // data length 3, but the string announces 5 bytes
    let bytes = [1, b'a', 0, 0, 16, 0, 1, 0, 0, 0, 0, 0, 3, 5, b'h', b'e', b'l', b'l', b'o'];
    assert_eq!(DNSAnswer::parse(&bytes, 0), Err(MalformedMessage::BadText));
    // data length reaches past the buffer
    let bytes = [1, b'a', 0, 0, 16, 0, 1, 0, 0, 0, 0, 0, 9, 5, b'h', b'e', b'l', b'l', b'o'];
    assert_eq!(DNSAnswer::parse(&bytes, 0), Err(MalformedMessage::Truncated));
}

#[test]
fn record_of_another_type_is_passed_over() {
    // an A record with four bytes of data, then a TXT record
    let mut bytes = vec![0, 1, 0x80, 0, 0, 0, 0, 2, 0, 0, 0, 0];
    bytes.extend_from_slice(&[1, b'a', 0, 0, 1, 0, 1, 0, 0, 0, 60, 0, 4, 10, 0, 0, 1]);
    bytes.extend_from_slice(&[1, b'b', 0, 0, 16, 0, 1, 0, 0, 0, 0, 0, 3, 2, b'h', b'i']);
    let message = DNSMessage::decode(&bytes).unwrap();
    let answers = message.answers.unwrap();
    assert_eq!(answers.len(), 2);
    assert_eq!(answers[0].rtype, RecordType::A);
    assert_eq!(answers[0].ttl, 60);
    assert_eq!(answers[0].data_length, 4);
    assert_eq!(answers[0].record, RecordData::Unsupported);
    assert_eq!(answers[1].name, "b");
    assert_eq!(answers[1].record, RecordData::Txt(vec!["hi".to_string()]));
}

#[test]
fn record_that_is_not_interpreted_has_no_bytes() {
    let answer = DNSAnswer {
        name: "a".to_string(),
        rtype: RecordType::A,
        rclass: RecordClass::IN,
        ttl: 0,
        data_length: 4,
        record: RecordData::Unsupported,
    };
    let mut out = Vec::new();
    assert!(answer.encode_into(&mut out));
    assert_eq!(out, vec![1, b'a', 0, 0, 1, 0, 1, 0, 0, 0, 0, 0, 4]);
}

#[test]
fn length_of_strings_on_the_wire() {
    assert_eq!(texts_length(&vec![]), Some(0));
    assert_eq!(texts_length(&vec!["".to_string()]), Some(1));
    assert_eq!(texts_length(&vec!["abc".to_string(), "ä".to_string()]), Some(4 + 3));
    assert_eq!(texts_length(&vec!["x".repeat(300)]), Some(256));
    let full: Vec<String> = (0..255).map(|_| "x".repeat(255)).collect();
    assert_eq!(texts_length(&full), Some(65_280));
    let mut over = full.clone();
    over.push("x".repeat(254));
    assert_eq!(texts_length(&over), Some(65_535));
    over.push(String::new());
    assert_eq!(texts_length(&over), None);
    assert!(DNSAnswer::text("a".to_string(), over).is_none());
}

#[test]
fn reply_echoes_id_and_question() {
    let query = DNSMessage::new_request(4711, "ifsr.de".to_string());
    let record = RecordData::Txt(vec!["hello".to_string()]);
    let reply = query.reply_with(&record).unwrap();
    assert_eq!(reply.header.id, 4711);
    assert!(reply.header.is_response);
    assert!(reply.header.recursion_desired);
    assert_eq!(reply.header.question_count, 1);
    assert_eq!(reply.header.answer_count, 1);
    assert_eq!(reply.questions, query.questions);
    assert_eq!(reply.answers, Some(vec![text_answer("ifsr.de", &["hello"])]));
    let bytes = reply.encode().unwrap();
    assert_eq!(DNSMessage::decode(&bytes), Ok(reply));
}

#[test]
fn reply_needs_a_question_and_a_text_record() {
    let query = DNSMessage::new_request(1, "ifsr.de".to_string());
    assert_eq!(query.reply_with(&RecordData::Unsupported), None);
    let empty = DNSMessage { header: DNSHeader::new_request(1), questions: vec![], answers: None };
    assert_eq!(empty.reply_with(&RecordData::Txt(vec![])), None);
}
