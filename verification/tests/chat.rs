use kakure::dns::types::RecordData;
use kakure::transport::{ChatError, ChatMessage, Timestamp};

fn christmas_eve() -> Timestamp {
    let at = chrono::DateTime::parse_from_rfc3339("2020-12-24T18:34:16+01:00").unwrap();
    Timestamp { secs: at.timestamp(), offset: at.offset().local_minus_utc() }
}

#[test]
fn conversion_to_record() {
    let msg = ChatMessage {
        text: String::from("aaaaaaaaaaaaaaaaaaaaaaaaaaaaaaaaaaaaaaaaaaaaaaaaaaaaaaaaaaaaaaaaaaaaaaaaaaaaaaaaaaaaaaaaaaaaaaaaaaaaaaaaaaaaaaaaaaaaaaaaaaaaaaaaaaaaaaaaaaaaaaaaaaaaaaaaaaaaaaaaaaaaaaaaaaaaaaaaaaaaaaaaaaaaaaaaaaaaaaaaaaaaaaaaaaaaaaaaaaaaaaaaaaaaaaaaaaaaaaaaaaaaaaaaaaaaaaa"),
        sent: christmas_eve(),
    };

    let expected = RecordData::Txt(vec![
        String::from("2020-12-24T18:34:16+01:00aaaaaaaaaaaaaaaaaaaaaaaaaaaaaaaaaaaaaaaaaaaaaaaaaaaaaaaaaaaaaaaaaaaaaaaaaaaaaaaaaaaaaaaaaaaaaaaaaaaaaaaaaaaaaaaaaaaaaaaaaaaaaaaaaaaaaaaaaaaaaaaaaaaaaaaaaaaaaaaaaaaaaaaaaaaaaaaaaaaaaaaaaaaaaaaaaaaaaaaaaaaaaaaaaaaaaaaaaaaaaaaaaaaaaa"),
        String::from("aaaaaaaaaaaaaaaaaaaaaaaaa"),
    ]);

    let res: RecordData = msg.to_record().unwrap();
    assert_eq!(res, expected);
}

#[test]
fn record_of_257_letters_has_two_chunks() {
    let msg = ChatMessage { text: "a".repeat(257), sent: christmas_eve() };
    let res = msg.to_record().unwrap();
    let first = format!("2020-12-24T18:34:16+01:00{}", "a".repeat(230));
    assert_eq!(first.len(), 255);
    assert_eq!(res, RecordData::Txt(vec![first, "a".repeat(27)]));
}

#[test]
fn stamp_is_rfc3339_with_offset() {
    assert_eq!(christmas_eve().to_stamp(), Some(String::from("2020-12-24T18:34:16+01:00")));
    assert_eq!(christmas_eve().secs, 1608831256);
    assert_eq!(christmas_eve().offset, 3600);
}

#[test]
fn stamp_reads_back() {
    assert_eq!(Timestamp::from_stamp("2020-12-24T18:34:16+01:00"), Ok(christmas_eve()));
    assert_eq!(Timestamp::from_stamp("yesterday, around noon  +"), Err(ChatError::MalformedStamp));
}

#[test]
fn time_without_a_25_byte_stamp_is_refused() {
    // the year 10000 takes five digits and a sign
    let late = Timestamp { secs: 253_402_300_800, offset: 0 };
    assert_eq!(late.to_stamp(), None);
    let msg = ChatMessage { text: String::from("hi"), sent: late };
    assert_eq!(msg.to_record(), Err(ChatError::UnprintableTime));
    // an offset of a whole day is no offset
    let far = Timestamp { secs: 0, offset: 86_400 };
    assert_eq!(far.to_stamp(), None);
}

#[test]
fn chat_roundtrip() {
    let msg = ChatMessage { text: String::from("grüße aus dem tunnel"), sent: christmas_eve() };
    let record = msg.to_record().unwrap();
    assert_eq!(ChatMessage::from_record(&record), Ok(msg));
}

#[test]
fn chat_roundtrip_over_many_chunks() {
    let text = "äöü€".repeat(2000);
    let msg = ChatMessage { text, sent: christmas_eve() };
    let record = msg.to_record().unwrap();
    if let RecordData::Txt(chunks) = &record {
        assert!(chunks.len() > 1);
        for chunk in chunks {
            assert!(chunk.len() <= 255);
            assert!(!chunk.is_empty());
        }
    } else {
        panic!("not a TXT record");
    }
    assert_eq!(ChatMessage::from_record(&record), Ok(msg));
}

#[test]
fn chunk_backs_off_one_byte_before_a_two_byte_character() {
    // 25 bytes of stamp and 229 letters put the two bytes of "ä" at 254 and 255
    let text = format!("{}ä!", "a".repeat(229));
    let msg = ChatMessage { text, sent: christmas_eve() };
    let record = msg.to_record().unwrap();
    let first = format!("2020-12-24T18:34:16+01:00{}", "a".repeat(229));
    assert_eq!(first.len(), 254);
    assert_eq!(record, RecordData::Txt(vec![first, String::from("ä!")]));
}

#[test]
fn chunk_inside_a_three_byte_character_is_refused() {
    // the three bytes of "€" lie at 253, 254 and 255: neither cut is free
    let text = format!("{}€", "a".repeat(228));
    let msg = ChatMessage { text, sent: christmas_eve() };
    assert_eq!(msg.to_record(), Err(ChatError::SplitInsideCharacter));
}

#[test]
fn record_without_stamp_is_refused() {
    assert_eq!(ChatMessage::from_record(&RecordData::Unsupported), Err(ChatError::NotText));
    assert_eq!(ChatMessage::from_record(&RecordData::Txt(vec![])), Err(ChatError::MissingStamp));
    let short = RecordData::Txt(vec![String::from("2020-12-24")]);
    assert_eq!(ChatMessage::from_record(&short), Err(ChatError::MissingStamp));
    let cut = RecordData::Txt(vec![format!("{}€", "a".repeat(24))]);
    assert_eq!(ChatMessage::from_record(&cut), Err(ChatError::MissingStamp));
    let garbled = RecordData::Txt(vec![String::from("aaaaaaaaaaaaaaaaaaaaaaaaaa")]);
    assert_eq!(ChatMessage::from_record(&garbled), Err(ChatError::MalformedStamp));
}

#[test]
fn short_text_is_one_message() {
    let parts = ChatMessage::split(String::from("hello"), christmas_eve()).unwrap();
    assert_eq!(parts, vec![ChatMessage { text: String::from("hello"), sent: christmas_eve() }]);
    let exact = ChatMessage::split("a".repeat(65_254), christmas_eve()).unwrap();
    assert_eq!(exact.len(), 1);
}

#[test]
fn long_text_is_split_at_the_limit() {
    let text = "a".repeat(65_254 * 2 + 10);
    let parts = ChatMessage::split(text.clone(), christmas_eve()).unwrap();
    assert_eq!(parts.len(), 3);
    assert_eq!(parts[0].text.len(), 65_254);
    assert_eq!(parts[1].text.len(), 65_254);
    assert_eq!(parts[2].text.len(), 10);
    let joined: String = parts.iter().map(|p| p.text.as_str()).collect();
    assert_eq!(joined, text);
    assert!(parts.iter().all(|p| p.sent == christmas_eve()));
}

#[test]
fn long_text_backs_off_before_a_two_byte_character() {
    // "ä" takes the bytes 65,253 and 65,254: the cut moves one byte back
    let text = format!("{}ä{}", "a".repeat(65_253), "b".repeat(10));
    let parts = ChatMessage::split(text.clone(), christmas_eve()).unwrap();
    assert_eq!(parts.len(), 2);
    assert_eq!(parts[0].text.len(), 65_253);
    assert_eq!(parts[1].text, format!("ä{}", "b".repeat(10)));
}

#[test]
fn last_part_may_run_over_the_limit() {
    // two cuts, each one byte early, leave 65,256 bytes for the last part
    let text = format!(
        "{}ä{}ä{}",
        "a".repeat(65_253),
        "a".repeat(65_251),
        "a".repeat(65_254)
    );
    assert_eq!(text.len(), 65_254 * 3);
    let parts = ChatMessage::split(text.clone(), christmas_eve()).unwrap();
    assert_eq!(parts.len(), 3);
    assert_eq!(parts[0].text.len(), 65_253);
    assert_eq!(parts[1].text.len(), 65_253);
    assert_eq!(parts[2].text.len(), 65_256);
}

#[test]
fn long_text_inside_a_three_byte_character_is_refused() {
    let text = format!("{}€{}", "a".repeat(65_252), "b".repeat(10));
    assert_eq!(
        ChatMessage::split(text, christmas_eve()),
        Err(ChatError::SplitInsideCharacter)
    );
}

#[test]
fn from_str_stamps_all_parts_alike() {
    let parts = ChatMessage::from_str("a".repeat(65_254 + 1)).unwrap();
    assert_eq!(parts.len(), 2);
    assert_eq!(parts[0].sent, parts[1].sent);
    assert_eq!(parts[1].text, "a");
}
