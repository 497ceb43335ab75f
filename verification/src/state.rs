//! The state behind the chat window: the conversation and the line that is
//! being typed.
use crate::transport::{carry, split_text, ChatError, ChatMessage, ChatMessageView, Timestamp};
use vstd::prelude::*;

verus! {

/// Who sent a message of the conversation.
#[derive(Debug, Clone, Copy, PartialEq, Eq, Structural)]
pub enum MessageType {
    /// This side sent it.
    Sent,
    /// The other side sent it.
    Received,
}

/// Direction of cursor movement.
#[derive(Debug, Clone, Copy, PartialEq, Eq, Structural)]
pub enum MoveDirection {
    /// One character to the left.
    Left,
    /// One character to the right.
    Right,
    /// To the start of the line.
    Home,
    /// To the end of the line.
    End,
}

/// Application State
///
/// Stores all sent and received messages, and the line that is being typed.
#[derive(Debug, PartialEq)]
pub struct State {
    /// The conversation, the oldest message first.
    pub messages: Vec<(ChatMessage, MessageType)>,
    /// The line that is being typed.
    pub input: Vec<char>,
    /// The place in the line where the next character goes.
    pub cursor_pos: usize,
}

/// What the entries of a conversation hold.
pub open spec fn entry_views(entries: Seq<(ChatMessage, MessageType)>) -> Seq<
    (ChatMessageView, MessageType),
> {
    Seq::new(entries.len(), |i: int| (entries[i].0@, entries[i].1))
}

/// The texts as messages that this side sent at `sent`.
pub open spec fn sent_entries(texts: Seq<Seq<char>>, sent: Timestamp) -> Seq<
    (ChatMessageView, MessageType),
> {
    Seq::new(
        texts.len(),
        |i: int| (ChatMessageView { text: texts[i], sent }, MessageType::Sent),
    )
}

/// The place of the cursor of `direction` moved from `cursor` in a line of
/// `len` characters.
pub open spec fn moved(cursor: usize, len: nat, direction: MoveDirection) -> int {
    match direction {
        MoveDirection::Left => if cursor != 0 {
            cursor - 1
        } else {
            0
        },
        MoveDirection::Right => if cursor < len {
            cursor + 1
        } else {
            cursor as int
        },
        MoveDirection::Home => 0,
        MoveDirection::End => len as int,
    }
}

/// Calls `String::push`, which appends one character to a text.
#[verifier::external_body]
fn push_char(text: &mut String, c: char)
    ensures
        final(text)@ == old(text)@.push(c),
{
    text.push(c)
}

/// The characters of a line as a text.
pub fn line_text(line: &Vec<char>) -> (text: String)
    ensures
        text@ == line@,
{
    let mut text = String::new();
    let mut i: usize = 0;
    while i < line.len()
        invariant
            i <= line@.len(),
            text@ == line@.take(i as int),
        decreases line@.len() - i,
    {
        push_char(&mut text, line[i]);
        i += 1;
    }
    text
}

/// Where the cursor is drawn in a box that is `width` cells wide: the column
/// and the row, counted from the first cell of the box. The place in the
/// line is taken by its lowest sixteen bits. A box without width has no cell.
pub fn cursor_cell(cursor_pos: usize, width: u16) -> (cell: Option<(u16, u16)>)
    ensures
        match cell {
            Some((column, row)) => width > 0 && column == (cursor_pos as int % 0x1_0000) % (
            width as int) && row == (cursor_pos as int % 0x1_0000) / (width as int),
            None => width == 0,
        },
{
    if width == 0 {
        return None;
    }
    let place: u16 = (cursor_pos % 0x1_0000) as u16;
    Some((place % width, place / width))
}

impl MessageType {
    /// The name under which the sender is shown.
    pub fn label(self) -> (name: &'static str)
        ensures
            name@ == match self {
                MessageType::Sent => "<You> "@,
                MessageType::Received => "<Them> "@,
            },
    {
        match self {
            MessageType::Sent => "<You> ",
            MessageType::Received => "<Them> ",
        }
    }
}

impl State {
    /// Whether the cursor stands in the line or at its end.
    pub open spec fn wf(&self) -> bool {
        self.cursor_pos <= self.input@.len()
    }

    /// Constructs a new state struct: no messages, an empty line.
    pub fn new() -> (state: Self)
        ensures
            state.wf(),
            state.messages@.len() == 0,
            state.input@.len() == 0,
            state.cursor_pos == 0,
    {
        State { messages: Vec::new(), input: Vec::new(), cursor_pos: 0 }
    }

    /// Adds a message that the other side sent to the conversation.
    pub fn add_received(&mut self, msg: ChatMessage)
        ensures
            entry_views(final(self).messages@) == entry_views(old(self).messages@).push(
                (msg@, MessageType::Received),
            ),
            final(self).input == old(self).input,
            final(self).cursor_pos == old(self).cursor_pos,
    {
        self.messages.push((msg, MessageType::Received));
    }

    /// Add a character to the input string at the current cursor position.
    pub fn add_input_char(&mut self, c: char)
        requires
            old(self).wf(),
        ensures
            final(self).wf(),
            final(self).input@ == old(self).input@.insert(old(self).cursor_pos as int, c),
            final(self).cursor_pos == old(self).cursor_pos + 1,
            final(self).messages == old(self).messages,
    {
        self.input.insert(self.cursor_pos, c);
        if self.cursor_pos < self.input.len() {
            self.cursor_pos += 1;
        }
    }

    /// Bundle the input string into messages, add them to the conversation
    /// and return them for sending. The line is empty afterwards. Where the
    /// line cannot be split into messages, nothing changes.
    pub fn generate_msg(&mut self) -> (r: Result<Vec<ChatMessage>, ChatError>)
        ensures
            match r {
                Ok(messages) => {
                    &&& split_text(old(self).input@) matches Some(texts)
                    &&& exists|sent: Timestamp|
                        carry(messages@, texts, sent) && entry_views(final(self).messages@)
                            == entry_views(old(self).messages@) + sent_entries(texts, sent)
                    &&& final(self).input@.len() == 0
                    &&& final(self).cursor_pos == 0
                },
                Err(e) => {
                    &&& e == ChatError::SplitInsideCharacter
                    &&& split_text(old(self).input@) is None
                    &&& *final(self) == *old(self)
                },
            },
    {
        let messages = match ChatMessage::from_str(line_text(&self.input)) {
            Ok(messages) => messages,
            Err(e) => {
                return Err(e);
            },
        };
        let ghost texts = split_text(old(self).input@)->Some_0;
        let ghost sent = choose|sent: Timestamp| carry(messages@, texts, sent);
        let ghost before = entry_views(self.messages@);
        let mut i: usize = 0;
        while i < messages.len()
            invariant
                i <= messages@.len(),
                carry(messages@, texts, sent),
                entry_views(self.messages@) == before + sent_entries(texts, sent).take(i as int),
                self.input == old(self).input,
                self.cursor_pos == old(self).cursor_pos,
            decreases messages@.len() - i,
        {
            self.messages.push((messages[i].clone(), MessageType::Sent));
            proof {
                let entry = (messages@[i as int]@, MessageType::Sent);
                assert(before + sent_entries(texts, sent).take(i + 1) =~= (before + sent_entries(
                    texts,
                    sent,
                ).take(i as int)).push(entry));
            }
            i += 1;
        }
        self.input.clear();
        self.cursor_pos = 0;
        Ok(messages)
    }

    /// Moves the cursor
    pub fn move_cursor(&mut self, direction: MoveDirection)
        ensures
            final(self).cursor_pos == moved(
                old(self).cursor_pos,
                old(self).input@.len(),
                direction,
            ),
            final(self).input == old(self).input,
            final(self).messages == old(self).messages,
            old(self).wf() ==> final(self).wf(),
    {
        match direction {
            MoveDirection::Left => {
                if self.cursor_pos != 0 {
                    self.cursor_pos -= 1;
                }
            },
            MoveDirection::Right => {
                if self.cursor_pos < self.input.len() {
                    self.cursor_pos += 1;
                }
            },
            MoveDirection::Home => {
                self.cursor_pos = 0;
            },
            MoveDirection::End => {
                self.cursor_pos = self.input.len();
            },
        }
    }

    /// Handles a `Delete` event: removes the character under the cursor, if
    /// there is one.
    pub fn delete(&mut self)
        ensures
            final(self).input@ == if old(self).cursor_pos < old(self).input@.len() {
                old(self).input@.remove(old(self).cursor_pos as int)
            } else {
                old(self).input@
            },
            final(self).cursor_pos == old(self).cursor_pos,
            final(self).messages == old(self).messages,
            old(self).wf() ==> final(self).wf(),
    {
        if self.cursor_pos < self.input.len() {
            self.input.remove(self.cursor_pos);
        }
    }

    /// Handles a `Backspace` event: unless the cursor stands at the start of
    /// the line, the last character of the line goes and the cursor moves
    /// one place to the left.
    pub fn delete_previous(&mut self)
        ensures
            final(self).input@ == if old(self).cursor_pos > 0 && old(self).input@.len() > 0 {
                old(self).input@.drop_last()
            } else {
                old(self).input@
            },
            final(self).cursor_pos == if old(self).cursor_pos > 0 {
                old(self).cursor_pos - 1
            } else {
                0
            },
            final(self).messages == old(self).messages,
            old(self).wf() ==> final(self).wf(),
    {
        if self.cursor_pos > 0 {
            self.input.pop();
            self.cursor_pos -= 1;
        }
    }
}

} // verus!
