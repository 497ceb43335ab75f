use kakure::dns::messages::DNSMessage;
use kakure::dns::types::RecordData;
use kakure::transport::framing::frame;
use kakure::transport::sender::{
    build_replies, Responder, ResponderAction, ResponderEvent, ResponderState,
};
use kakure::transport::{ChatError, ChatMessage, Timestamp};

fn at_noon() -> Timestamp {
    Timestamp { secs: 1_608_831_256, offset: 3600 }
}

fn message(text: &str) -> ChatMessage {
    ChatMessage { text: text.to_string(), sent: at_noon() }
}

fn query_frame() -> Vec<u8> {
    let query = DNSMessage::new_request(23481, "ifsr.de".to_string());
    frame(&query.encode().unwrap()).unwrap()
}

fn listening() -> Responder {
    let mut responder = Responder::new();
    assert_eq!(responder.state(), ResponderState::Idle);
    assert_eq!(responder.step(ResponderEvent::Ready), ResponderAction::Accept);
    assert_eq!(responder.state(), ResponderState::Listening);
    responder
}

fn texts_of(frames: &[Vec<u8>]) -> Vec<String> {
    frames
        .iter()
        .map(|framed| {
            let reply = DNSMessage::decode(&framed[2..]).unwrap();
            assert_eq!(framed.len() - 2, u16::from_be_bytes([framed[0], framed[1]]) as usize);
            assert_eq!(reply.header.id, 23481);
            assert!(reply.header.is_response);
            assert_eq!(reply.questions[0].name, "ifsr.de");
            let messages = ChatMessage::from_dns(&reply).unwrap();
            assert_eq!(messages.len(), 1);
            assert_eq!(messages[0].sent, at_noon());
            messages[0].text.clone()
        })
        .collect()
}

#[test]
fn responder_polls_while_nobody_connects() {
    let mut responder = listening();
    for _ in 0..3 {
        assert_eq!(responder.step(ResponderEvent::WouldBlock), ResponderAction::Accept);
        assert_eq!(responder.state(), ResponderState::Listening);
    }
}

#[test]
fn responder_answers_with_all_that_waits_in_order() {
    let mut responder = listening();
    assert_eq!(responder.enqueue(&message("first")), Ok(()));
    assert_eq!(responder.enqueue(&message("second")), Ok(()));
    assert_eq!(responder.enqueue(&message("third")), Ok(()));
    assert_eq!(responder.waiting(), 3);

    assert_eq!(responder.step(ResponderEvent::Accepted), ResponderAction::Read);
    assert_eq!(responder.state(), ResponderState::Accepting);
    let action = responder.step(ResponderEvent::Data(query_frame()));
    assert_eq!(responder.state(), ResponderState::Replying);
    assert_eq!(responder.waiting(), 0);
    match action {
        ResponderAction::Send(frames) => {
            assert_eq!(texts_of(&frames), vec!["first", "second", "third"]);
        },
        other => panic!("unexpected action {:?}", other),
    }
    assert_eq!(responder.step(ResponderEvent::Sent), ResponderAction::Close);
    assert_eq!(responder.state(), ResponderState::Idle);
    assert_eq!(responder.step(ResponderEvent::Ready), ResponderAction::Accept);
    assert_eq!(responder.state(), ResponderState::Listening);
}

#[test]
fn responder_waits_for_the_whole_request() {
    let mut responder = listening();
    responder.enqueue(&message("hello")).unwrap();
    responder.step(ResponderEvent::Accepted);
    let request = query_frame();
    let (head, tail) = request.split_at(10);
    assert_eq!(responder.step(ResponderEvent::Data(head[..1].to_vec())), ResponderAction::Read);
    assert_eq!(responder.step(ResponderEvent::Data(head[1..].to_vec())), ResponderAction::Read);
    assert_eq!(responder.state(), ResponderState::Accepting);
    assert_eq!(responder.waiting(), 1);
    match responder.step(ResponderEvent::Data(tail.to_vec())) {
        ResponderAction::Send(frames) => assert_eq!(texts_of(&frames), vec!["hello"]),
        other => panic!("unexpected action {:?}", other),
    }
    assert_eq!(responder.state(), ResponderState::Replying);
}

#[test]
fn responder_with_nothing_to_say_sends_nothing() {
    let mut responder = listening();
    responder.step(ResponderEvent::Accepted);
    assert_eq!(
        responder.step(ResponderEvent::Data(query_frame())),
        ResponderAction::Send(vec![])
    );
    assert_eq!(responder.step(ResponderEvent::Sent), ResponderAction::Close);
}

#[test]
fn responder_keeps_its_messages_when_the_request_is_malformed() {
    let mut responder = listening();
    responder.enqueue(&message("hello")).unwrap();
    responder.step(ResponderEvent::Accepted);
    let garbage = frame(&[1, 2, 3]).unwrap();
    assert_eq!(responder.step(ResponderEvent::Data(garbage)), ResponderAction::Send(vec![]));
    assert_eq!(responder.waiting(), 1);
    assert_eq!(responder.step(ResponderEvent::Sent), ResponderAction::Close);
    assert_eq!(responder.step(ResponderEvent::Ready), ResponderAction::Accept);
    responder.step(ResponderEvent::Accepted);
    match responder.step(ResponderEvent::Data(query_frame())) {
        ResponderAction::Send(frames) => assert_eq!(texts_of(&frames), vec!["hello"]),
        other => panic!("unexpected action {:?}", other),
    }
}

#[test]
fn responder_makes_do_with_a_request_that_ends_early() {
    // the prefix announces more than comes: the bytes that came are the request
    let mut responder = listening();
    responder.enqueue(&message("hello")).unwrap();
    responder.step(ResponderEvent::Accepted);
    let mut request = query_frame();
    request[1] += 5;
    assert_eq!(responder.step(ResponderEvent::Data(request)), ResponderAction::Read);
    match responder.step(ResponderEvent::EndOfStream) {
        ResponderAction::Send(frames) => assert_eq!(texts_of(&frames), vec!["hello"]),
        other => panic!("unexpected action {:?}", other),
    }
    assert_eq!(responder.state(), ResponderState::Replying);
    assert_eq!(responder.waiting(), 0);
}

#[test]
fn responder_sends_nothing_when_the_stream_ends_at_once() {
    let mut responder = listening();
    responder.enqueue(&message("hello")).unwrap();
    responder.step(ResponderEvent::Accepted);
    assert_eq!(responder.step(ResponderEvent::EndOfStream), ResponderAction::Send(vec![]));
    assert_eq!(responder.waiting(), 1);
}

#[test]
fn responder_goes_on_after_a_reset() {
    let mut responder = listening();
    responder.enqueue(&message("hello")).unwrap();
    responder.step(ResponderEvent::Accepted);
    assert_eq!(responder.step(ResponderEvent::Reset), ResponderAction::Close);
    assert_eq!(responder.state(), ResponderState::Idle);
    assert_eq!(responder.waiting(), 1);
    assert_eq!(responder.step(ResponderEvent::Ready), ResponderAction::Accept);

    responder.step(ResponderEvent::Accepted);
    responder.step(ResponderEvent::Data(query_frame()));
    assert_eq!(responder.step(ResponderEvent::Reset), ResponderAction::Close);
    assert_eq!(responder.state(), ResponderState::Idle);
}

#[test]
fn responder_stops_on_failure_and_on_events_out_of_turn() {
    let mut responder = listening();
    assert_eq!(responder.step(ResponderEvent::Failed), ResponderAction::Stop);
    assert_eq!(responder.state(), ResponderState::Idle);

    let mut responder = Responder::new();
    assert_eq!(responder.step(ResponderEvent::Accepted), ResponderAction::Stop);
    let mut responder = listening();
    assert_eq!(responder.step(ResponderEvent::Sent), ResponderAction::Stop);
    let mut responder = listening();
    assert_eq!(responder.step(ResponderEvent::Data(vec![1])), ResponderAction::Stop);
}

#[test]
fn responder_refuses_a_message_without_a_record() {
    let mut responder = Responder::new();
    let cut = ChatMessage { text: format!("{}€", "a".repeat(228)), sent: at_noon() };
    assert_eq!(responder.enqueue(&cut), Err(ChatError::SplitInsideCharacter));
    let late = ChatMessage { text: "hi".to_string(), sent: Timestamp { secs: i64::MAX, offset: 0 } };
    assert_eq!(responder.enqueue(&late), Err(ChatError::UnprintableTime));
    assert_eq!(responder.waiting(), 0);
}

#[test]
fn replies_leave_out_what_cannot_be_sent() {
    let query = DNSMessage::new_request(23481, "ifsr.de".to_string());
    // 65,254 bytes of text fill the record, but the reply around it fits no frame
    let full = message(&"a".repeat(65_254)).to_record().unwrap();
    let small = message("small").to_record().unwrap();
    let records = vec![RecordData::Unsupported, full, small];
    let frames = build_replies(&query, &records);
    assert_eq!(texts_of(&frames), vec!["small"]);
}

#[test]
fn a_long_message_travels_in_one_reply() {
    let query = DNSMessage::new_request(23481, "ifsr.de".to_string());
    let text = "a".repeat(65_000);
    let frames = build_replies(&query, &vec![message(&text).to_record().unwrap()]);
    assert_eq!(texts_of(&frames), vec![text]);
}
