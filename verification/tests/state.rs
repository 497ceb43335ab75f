use kakure::state::{cursor_cell, line_text, MessageType, MoveDirection, State};
use kakure::transport::{ChatError, ChatMessage, Timestamp};

fn typed(line: &str) -> State {
    let mut state = State::new();
    for c in line.chars() {
        state.add_input_char(c);
    }
    state
}

#[test]
fn new_state_is_empty() {
    let state = State::new();
    assert!(state.messages.is_empty());
    assert!(state.input.is_empty());
    assert_eq!(state.cursor_pos, 0);
}

#[test]
fn characters_go_where_the_cursor_stands() {
    let mut state = typed("ac");
    assert_eq!(state.cursor_pos, 2);
    state.move_cursor(MoveDirection::Left);
    state.add_input_char('b');
    assert_eq!(state.input, vec!['a', 'b', 'c']);
    assert_eq!(state.cursor_pos, 2);
}

#[test]
fn cursor_stays_in_the_line() {
    let mut state = typed("abc");
    state.move_cursor(MoveDirection::Right);
    assert_eq!(state.cursor_pos, 3);
    state.move_cursor(MoveDirection::Home);
    assert_eq!(state.cursor_pos, 0);
    state.move_cursor(MoveDirection::Left);
    assert_eq!(state.cursor_pos, 0);
    state.move_cursor(MoveDirection::Right);
    assert_eq!(state.cursor_pos, 1);
    state.move_cursor(MoveDirection::End);
    assert_eq!(state.cursor_pos, 3);
    state.move_cursor(MoveDirection::Left);
    assert_eq!(state.cursor_pos, 2);
}

#[test]
fn delete_takes_the_character_under_the_cursor() {
    let mut state = typed("abc");
    state.delete();
    assert_eq!(state.input, vec!['a', 'b', 'c']);
    state.move_cursor(MoveDirection::Home);
    state.delete();
    assert_eq!(state.input, vec!['b', 'c']);
    assert_eq!(state.cursor_pos, 0);
}

#[test]
fn backspace_takes_the_last_character() {
    let mut state = typed("abc");
    state.delete_previous();
    assert_eq!(state.input, vec!['a', 'b']);
    assert_eq!(state.cursor_pos, 2);
    state.move_cursor(MoveDirection::Left);
    state.delete_previous();
    assert_eq!(state.input, vec!['a']);
    assert_eq!(state.cursor_pos, 0);
    state.delete_previous();
    assert_eq!(state.input, vec!['a']);
    assert_eq!(state.cursor_pos, 0);
}

#[test]
fn line_becomes_a_message() {
    let mut state = typed("grüße");
    let messages = state.generate_msg().unwrap();
    assert_eq!(messages.len(), 1);
    assert_eq!(messages[0].text, "grüße");
    assert!(state.input.is_empty());
    assert_eq!(state.cursor_pos, 0);
    assert_eq!(state.messages, vec![(messages[0].clone(), MessageType::Sent)]);
}

#[test]
fn long_line_becomes_several_messages() {
    let mut state = State::new();
    state.input = vec!['a'; 65_254 + 3];
    state.cursor_pos = state.input.len();
    let messages = state.generate_msg().unwrap();
    assert_eq!(messages.len(), 2);
    assert_eq!(messages[1].text, "aaa");
    assert_eq!(state.messages.len(), 2);
    assert_eq!(state.messages[1], (messages[1].clone(), MessageType::Sent));
}

#[test]
fn line_that_cannot_be_split_stays() {
    let mut state = State::new();
    state.input = vec!['a'; 65_252];
    state.input.push('€');
    state.input.push('b');
    state.cursor_pos = 7;
    let before = state.input.clone();
    assert_eq!(state.generate_msg(), Err(ChatError::SplitInsideCharacter));
    assert_eq!(state.input, before);
    assert_eq!(state.cursor_pos, 7);
    assert!(state.messages.is_empty());
}

#[test]
fn received_messages_join_the_conversation() {
    let mut state = typed("x");
    let message = ChatMessage { text: "hi".to_string(), sent: Timestamp { secs: 5, offset: 0 } };
    state.add_received(message.clone());
    assert_eq!(state.messages, vec![(message, MessageType::Received)]);
    assert_eq!(state.input, vec!['x']);
}

#[test]
fn line_as_text() {
    assert_eq!(line_text(&vec![]), "");
    assert_eq!(line_text(&vec!['h', 'ä', '€', '!']), "hä€!");
}

#[test]
fn cursor_wraps_in_the_box() {
    assert_eq!(cursor_cell(0, 10), Some((0, 0)));
    assert_eq!(cursor_cell(9, 10), Some((9, 0)));
    assert_eq!(cursor_cell(10, 10), Some((0, 1)));
    assert_eq!(cursor_cell(37, 10), Some((7, 3)));
    assert_eq!(cursor_cell(65_536 + 12, 10), Some((2, 1)));
    assert_eq!(cursor_cell(5, 0), None);
}

#[test]
fn senders_have_names() {
    assert_eq!(MessageType::Sent.label(), "<You> ");
    assert_eq!(MessageType::Received.label(), "<Them> ");
}
