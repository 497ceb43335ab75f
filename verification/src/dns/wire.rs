//! The byte-level building blocks of the DNS wire format: big-endian
//! integers and domain names as runs of length-prefixed labels.
use crate::dns::types::{texts_of, MalformedMessage};
use vstd::prelude::*;
use vstd::string::*;
use vstd::utf8::*;

verus! {

/// The byte that separates the labels of a dotted name.
pub const DOT: u8 = 46;

/// The longest label that a length byte can announce.
pub const MAX_LABEL: usize = 255;

/// A 16-bit value in network byte order.
pub open spec fn be16(v: u16) -> Seq<u8> {
    seq![(v / 256) as u8, (v % 256) as u8]
}

/// A 32-bit value in network byte order.
pub open spec fn be32(v: u32) -> Seq<u8> {
    seq![
        (v / 0x100_0000) as u8,
        (v / 0x1_0000 % 256) as u8,
        (v / 0x100 % 256) as u8,
        (v % 256) as u8,
    ]
}

/// The 16-bit value that the two bytes at `pos` hold in network byte order.
pub open spec fn u16_at(msg: Seq<u8>, pos: int) -> u16 {
    (msg[pos] * 256 + msg[pos + 1]) as u16
}

/// The 32-bit value that the four bytes at `pos` hold in network byte order.
pub open spec fn u32_at(msg: Seq<u8>, pos: int) -> u32 {
    (msg[pos] * 0x100_0000 + msg[pos + 1] * 0x1_0000 + msg[pos + 2] * 0x100 + msg[pos + 3]) as u32
}

/// Appends `v` in network byte order.
pub fn push_u16(out: &mut Vec<u8>, v: u16)
    ensures
        final(out)@ == old(out)@ + be16(v),
{
    out.push((v / 256) as u8);
    out.push((v % 256) as u8);
}

/// Appends `v` in network byte order.
pub fn push_u32(out: &mut Vec<u8>, v: u32)
    ensures
        final(out)@ == old(out)@ + be32(v),
{
    out.push((v / 0x100_0000) as u8);
    out.push((v / 0x1_0000 % 256) as u8);
    out.push((v / 0x100 % 256) as u8);
    out.push((v % 256) as u8);
}

/// Reads the 16-bit value at `pos`.
pub fn read_u16(msg: &[u8], pos: usize) -> (v: u16)
    requires
        pos + 2 <= msg@.len(),
    ensures
        v == u16_at(msg@, pos as int),
{
    let hi: u16 = msg[pos] as u16;
    let lo: u16 = msg[pos + 1] as u16;
    hi * 256 + lo
}

/// Reads the 32-bit value at `pos`.
pub fn read_u32(msg: &[u8], pos: usize) -> (v: u32)
    requires
        pos + 4 <= msg@.len(),
    ensures
        v == u32_at(msg@, pos as int),
{
    let a: u32 = msg[pos] as u32;
    let b: u32 = msg[pos + 1] as u32;
    let c: u32 = msg[pos + 2] as u32;
    let d: u32 = msg[pos + 3] as u32;
    a * 0x100_0000 + b * 0x1_0000 + c * 0x100 + d
}

/// Reading back what `be16` wrote gives the value.
pub proof fn lemma_u16_roundtrip(v: u16, pre: Seq<u8>, post: Seq<u8>)
    ensures
        u16_at(pre + be16(v) + post, pre.len() as int) == v,
{
}

/// Reading back what `be32` wrote gives the value.
pub proof fn lemma_u32_roundtrip(v: u32, pre: Seq<u8>, post: Seq<u8>)
    ensures
        u32_at(pre + be32(v) + post, pre.len() as int) == v,
{
}

/// Where the label that starts at `from` ends: the position of the next dot,
/// or the end of the name.
pub open spec fn label_end(name: Seq<u8>, from: int) -> int
    decreases name.len() - from,
{
    if 0 <= from < name.len() && name[from] != DOT {
        label_end(name, from + 1)
    } else {
        from
    }
}

/// The label that starts at `from` ends no earlier than it starts, inside the
/// name, on a dot or on the end, and holds no dot.
pub proof fn lemma_label_end(name: Seq<u8>, from: int)
    requires
        0 <= from <= name.len(),
    ensures
        from <= label_end(name, from) <= name.len(),
        label_end(name, from) < name.len() ==> name[label_end(name, from)] == DOT,
        forall|i: int| from <= i < label_end(name, from) ==> name[i] != DOT,
    decreases name.len() - from,
{
    if from < name.len() && name[from] != DOT {
        lemma_label_end(name, from + 1);
    }
}

/// The labels of the part of a dotted name that starts at `from`.
pub open spec fn labels_from(name: Seq<u8>, from: int) -> Seq<Seq<u8>>
    decreases name.len() - from,
    via labels_from_decreases
{
    let end = label_end(name, from);
    if 0 <= from <= name.len() {
        if end < name.len() {
            seq![name.subrange(from, end)] + labels_from(name, end + 1)
        } else {
            seq![name.subrange(from, end)]
        }
    } else {
        Seq::empty()
    }
}

#[via_fn]
proof fn labels_from_decreases(name: Seq<u8>, from: int) {
    if 0 <= from <= name.len() {
        lemma_label_end(name, from);
    }
}

/// The labels of a dotted name: the runs of bytes between its dots. A name
/// without a dot is one label, and the empty name is one empty label.
pub open spec fn name_labels(name: Seq<u8>) -> Seq<Seq<u8>> {
    labels_from(name, 0)
}

/// Whether every label from `from` on is at least `min` and at most `max` bytes long.
pub open spec fn labels_within(name: Seq<u8>, from: int, min: int, max: int) -> bool
    decreases name.len() - from,
    via labels_within_decreases
{
    let end = label_end(name, from);
    if 0 <= from <= name.len() {
        &&& min <= end - from <= max
        &&& (end < name.len() ==> labels_within(name, end + 1, min, max))
    } else {
        true
    }
}

#[via_fn]
proof fn labels_within_decreases(name: Seq<u8>, from: int, min: int, max: int) {
    if 0 <= from <= name.len() {
        lemma_label_end(name, from);
    }
}

/// The wire form of the part of a dotted name that starts at `from`: each
/// label behind a byte that holds its length, and a zero byte at the end.
pub open spec fn name_wire_from(name: Seq<u8>, from: int) -> Seq<u8>
    decreases name.len() - from,
    via name_wire_from_decreases
{
    let end = label_end(name, from);
    if 0 <= from <= name.len() {
        let head = seq![(end - from) as u8] + name.subrange(from, end);
        if end < name.len() {
            head + name_wire_from(name, end + 1)
        } else {
            head + seq![0u8]
        }
    } else {
        Seq::empty()
    }
}

#[via_fn]
proof fn name_wire_from_decreases(name: Seq<u8>, from: int) {
    if 0 <= from <= name.len() {
        lemma_label_end(name, from);
    }
}

/// The wire form of a dotted name.
pub open spec fn name_wire(name: Seq<u8>) -> Seq<u8> {
    name_wire_from(name, 0)
}

/// Whether a name can be written: no label is longer than a length byte can say.
pub open spec fn name_encodable(name: Seq<u8>) -> bool {
    labels_within(name, 0, 0, MAX_LABEL as int)
}

/// Whether a name is a valid domain name: every label holds 1 to 63 bytes.
pub open spec fn name_valid(name: Seq<u8>) -> bool {
    labels_within(name, 0, 1, 63)
}

/// Appends the wire form of a dotted name, or reports that a label is too
/// long to be written; `out` is then left with part of the name appended.
pub fn push_name(out: &mut Vec<u8>, name: &[u8]) -> (fits: bool)
    ensures
        fits == name_encodable(name@),
        fits ==> final(out)@ == old(out)@ + name_wire(name@),
{
    let mut start: usize = 0;
    loop
        invariant
            start <= name@.len(),
            labels_within(name@, 0, 0, MAX_LABEL as int) == labels_within(
                name@,
                start as int,
                0,
                MAX_LABEL as int,
            ),
            old(out)@ + name_wire_from(name@, 0) == out@ + name_wire_from(name@, start as int),
        decreases name@.len() - start,
    {
        let mut end: usize = start;
        while end < name.len() && name[end] != DOT
            invariant
                start <= end <= name@.len(),
                label_end(name@, start as int) == label_end(name@, end as int),
            decreases name@.len() - end,
        {
            end += 1;
        }
        proof {
            lemma_label_end(name@, start as int);
        }
        if end - start > MAX_LABEL {
            return false;
        }
        out.push((end - start) as u8);
        out.extend_from_slice(&name[start..end]);
        if end == name.len() {
            out.push(0);
            return true;
        }
        start = end + 1;
    }
}

/// The longest label that a domain name may hold.
pub const MAX_NAME_LABEL: u8 = 63;

/// The first length byte that marks a compression pointer.
pub const POINTER_MARK: u8 = 192;

/// The text that `String::from_utf8_lossy` makes of bytes that are not valid
/// UTF-8.
pub uninterp spec fn utf8_lossy(bytes: Seq<u8>) -> Seq<char>;

/// The text that bytes from the wire are read as: the text that they encode
/// where they are valid UTF-8, and a lossy reading of them where they are not.
pub open spec fn bytes_text(bytes: Seq<u8>) -> Seq<char> {
    if valid_utf8(bytes) {
        decode_utf8(bytes)
    } else {
        utf8_lossy(bytes)
    }
}

/// Calls `String::from_utf8_lossy`. Its documentation says that valid UTF-8
/// comes back as the text it encodes; what it makes of other bytes is only
/// named here.
#[verifier::external_body]
fn lossy_string(bytes: &[u8]) -> (text: String)
    ensures
        valid_utf8(bytes@) ==> text@ == decode_utf8(bytes@),
        !valid_utf8(bytes@) ==> text@ == utf8_lossy(bytes@),
{
    String::from_utf8_lossy(bytes).into_owned()
}

/// Reads the bytes from `start` up to `end` as text.
pub fn read_text(msg: &[u8], start: usize, end: usize) -> (text: String)
    requires
        start <= end <= msg@.len(),
    ensures
        text@ == bytes_text(msg@.subrange(start as int, end as int)),
{
    lossy_string(&msg[start..end])
}

/// The labels of a name joined by dots, each read as text.
pub open spec fn dotted(labels: Seq<Seq<u8>>) -> Seq<char>
    decreases labels.len(),
{
    if labels.len() == 0 {
        Seq::empty()
    } else if labels.len() == 1 {
        bytes_text(labels[0])
    } else {
        dotted(labels.drop_last()) + seq!['.'] + bytes_text(labels.last())
    }
}

/// What reading a run of labels gives: the labels and the position behind
/// the zero byte that ends them.
pub type LabelRun = Result<(Seq<Seq<u8>>, int), MalformedMessage>;

/// The run of plain labels that starts at `pos`. Every length byte must be 63
/// or less, every label must lie inside the buffer, and a zero byte must end
/// the run.
pub open spec fn parse_labels(msg: Seq<u8>, pos: int) -> LabelRun
    decreases msg.len() - pos,
{
    if !(0 <= pos < msg.len()) {
        Err(MalformedMessage::Truncated)
    } else if msg[pos] == 0 {
        Ok((Seq::empty(), pos + 1))
    } else if msg[pos] >= POINTER_MARK {
        Err(MalformedMessage::BadPointer)
    } else if msg[pos] > MAX_NAME_LABEL {
        Err(MalformedMessage::LabelTooLong)
    } else if pos + 1 + msg[pos] > msg.len() {
        Err(MalformedMessage::Truncated)
    } else {
        after_labels(
            seq![msg.subrange(pos + 1, pos + 1 + msg[pos])],
            parse_labels(msg, pos + 1 + msg[pos]),
        )
    }
}

/// A run of labels behind labels that were read before it.
pub open spec fn after_labels(done: Seq<Seq<u8>>, rest: LabelRun) -> LabelRun {
    match rest {
        Ok((labels, end)) => Ok((done + labels, end)),
        Err(e) => Err(e),
    }
}

/// The position that a compression pointer at `pos` points to.
pub open spec fn pointer_target(msg: Seq<u8>, pos: int) -> int {
    (msg[pos] - POINTER_MARK) * 256 + msg[pos + 1]
}

/// The two bytes of a compression pointer to `target`.
pub open spec fn pointer_wire(target: int) -> Seq<u8> {
    seq![(POINTER_MARK + target / 256) as u8, (target % 256) as u8]
}

/// The furthest position that the fourteen bits of a pointer can name.
pub const MAX_POINTER_TARGET: usize = 16383;

/// The labels of the name at `pos` and the position behind the name. A name
/// is a run of plain labels, or one compression pointer to an earlier
/// position where a run of plain labels starts; behind a pointer the position
/// moves on by two bytes.
pub open spec fn parse_name_labels(msg: Seq<u8>, pos: int) -> LabelRun {
    if !(0 <= pos < msg.len()) {
        Err(MalformedMessage::Truncated)
    } else if msg[pos] >= POINTER_MARK {
        if pos + 1 >= msg.len() {
            Err(MalformedMessage::Truncated)
        } else if pointer_target(msg, pos) >= pos {
            Err(MalformedMessage::BadPointer)
        } else {
            match parse_labels(msg, pointer_target(msg, pos)) {
                Ok((labels, _)) => Ok((labels, pos + 2)),
                Err(e) => Err(e),
            }
        }
    } else {
        parse_labels(msg, pos)
    }
}

/// The name at `pos` as dotted text, and the position behind it.
pub open spec fn parse_name(msg: Seq<u8>, pos: int) -> Result<(Seq<char>, int), MalformedMessage> {
    match parse_name_labels(msg, pos) {
        Ok((labels, next)) => Ok((dotted(labels), next)),
        Err(e) => Err(e),
    }
}

/// Reads the run of plain labels at `start` as dotted text.
fn read_labels(msg: &[u8], start: usize) -> (r: Result<(String, usize), MalformedMessage>)
    ensures
        match r {
            Ok((name, next)) => parse_labels(msg@, start as int) matches Ok((labels, end))
                && name@ == dotted(labels) && next == end,
            Err(e) => parse_labels(msg@, start as int) == Err::<(Seq<Seq<u8>>, int), _>(e),
        },
        r matches Ok((_, next)) ==> start < next <= msg@.len(),
{
    let mut name = String::new();
    let mut cur: usize = start;
    let mut first = true;
    let ghost mut done: Seq<Seq<u8>> = Seq::empty();
    loop
        invariant
            parse_labels(msg@, start as int) == after_labels(done, parse_labels(msg@, cur as int)),
            name@ == dotted(done),
            first == (done.len() == 0),
            start <= cur,
        decreases msg@.len() - cur,
    {
        if cur >= msg.len() {
            return Err(MalformedMessage::Truncated);
        }
        let len = msg[cur];
        if len == 0 {
            return Ok((name, cur + 1));
        }
        if len >= POINTER_MARK {
            return Err(MalformedMessage::BadPointer);
        }
        if len > MAX_NAME_LABEL {
            return Err(MalformedMessage::LabelTooLong);
        }
        if msg.len() - cur - 1 < len as usize {
            return Err(MalformedMessage::Truncated);
        }
        let label = read_text(msg, cur + 1, cur + 1 + len as usize);
        if !first {
            name.append(".");
        }
        name.append(label.as_str());
        proof {
            reveal_strlit(".");
            let bytes = msg@.subrange(cur + 1, cur + 1 + len);
            let next = parse_labels(msg@, cur + 1 + len);
            assert(done.push(bytes).drop_last() =~= done);
            assert(after_labels(done, after_labels(seq![bytes], next)) == after_labels(
                done.push(bytes),
                next,
            )) by {
                match next {
                    Ok((labels, end)) => {
                        assert(done + (seq![bytes] + labels) =~= done.push(bytes) + labels);
                    },
                    Err(e) => {},
                }
            }
            done = done.push(bytes);
        }
        first = false;
        cur = cur + 1 + len as usize;
    }
}

/// Reads the name at `pos` as dotted text and gives the position behind it.
pub fn read_name(msg: &[u8], pos: usize) -> (r: Result<(String, usize), MalformedMessage>)
    ensures
        match r {
            Ok((name, next)) => parse_name(msg@, pos as int) == Ok::<_, MalformedMessage>(
                (name@, next as int),
            ),
            Err(e) => parse_name(msg@, pos as int) == Err::<(Seq<char>, int), _>(e),
        },
        r matches Ok((_, next)) ==> pos < next <= msg@.len(),
{
    if pos >= msg.len() {
        return Err(MalformedMessage::Truncated);
    }
    let mark = msg[pos];
    if mark >= POINTER_MARK {
        if msg.len() - pos < 2 {
            return Err(MalformedMessage::Truncated);
        }
        let target: usize = (mark - POINTER_MARK) as usize * 256 + msg[pos + 1] as usize;
        if target >= pos {
            return Err(MalformedMessage::BadPointer);
        }
        match read_labels(msg, target) {
            Ok((name, _)) => Ok((name, pos + 2)),
            Err(e) => Err(e),
        }
    } else {
        read_labels(msg, pos)
    }
}

/// The longest character-string that a length byte can announce.
pub const MAX_STRING: usize = 255;

/// The wire form of one character-string: a byte that holds its length, then
/// its bytes. A string of more than 255 bytes is cut to its first 255 bytes.
pub open spec fn string_wire(text: Seq<u8>) -> Seq<u8> {
    if text.len() > MAX_STRING {
        seq![MAX_STRING as u8] + text.subrange(0, MAX_STRING as int)
    } else {
        seq![text.len() as u8] + text
    }
}

/// The wire form of the character-strings of a TXT record, one behind the other.
pub open spec fn texts_wire(texts: Seq<Seq<char>>) -> Seq<u8>
    decreases texts.len(),
{
    if texts.len() == 0 {
        Seq::empty()
    } else {
        string_wire(encode_utf8(texts[0])) + texts_wire(texts.drop_first())
    }
}

/// Appends the wire form of the character-strings of a TXT record.
pub fn push_texts(out: &mut Vec<u8>, texts: &Vec<String>)
    ensures
        final(out)@ == old(out)@ + texts_wire(texts_of(texts@)),
{
    let ghost all = texts_of(texts@);
    let mut i: usize = 0;
    assert(all.skip(0) =~= all);
    while i < texts.len()
        invariant
            i <= texts@.len(),
            all == texts_of(texts@),
            old(out)@ + texts_wire(all) == out@ + texts_wire(all.skip(i as int)),
        decreases texts@.len() - i,
    {
        let bytes = texts[i].as_str().as_bytes();
        if bytes.len() > MAX_STRING {
            out.push(MAX_STRING as u8);
            out.extend_from_slice(&bytes[0..MAX_STRING]);
        } else {
            out.push(bytes.len() as u8);
            out.extend_from_slice(bytes);
        }
        proof {
            assert(all.skip(i as int).drop_first() =~= all.skip(i + 1));
        }
        i += 1;
    }
}

/// The longest record data that a data length field can announce.
pub const MAX_DATA: usize = 65_535;

/// The length of the wire form of the character-strings of a TXT record, if
/// a data length field can hold it.
pub fn texts_length(texts: &Vec<String>) -> (r: Option<u16>)
    ensures
        match r {
            Some(len) => len == texts_wire(texts_of(texts@)).len(),
            None => texts_wire(texts_of(texts@)).len() > MAX_DATA,
        },
{
    let ghost all = texts_of(texts@);
    let mut len: usize = 0;
    let mut i: usize = 0;
    assert(all.skip(0) =~= all);
    while i < texts.len()
        invariant
            i <= texts@.len(),
            all == texts_of(texts@),
            len <= MAX_DATA,
            len + texts_wire(all.skip(i as int)).len() == texts_wire(all).len(),
        decreases texts@.len() - i,
    {
        let bytes = texts[i].as_str().as_bytes();
        let piece: usize = if bytes.len() > MAX_STRING {
            1 + MAX_STRING
        } else {
            1 + bytes.len()
        };
        proof {
            assert(all.skip(i as int).drop_first() =~= all.skip(i + 1));
        }
        if len + piece > MAX_DATA {
            return None;
        }
        len += piece;
        i += 1;
    }
    Some(len as u16)
}

/// The character-strings that fill the bytes from `pos` up to `end`: each a
/// byte that holds its length, then its bytes. The last must end on `end`.
pub open spec fn parse_strings(msg: Seq<u8>, pos: int, end: int) -> Result<
    Seq<Seq<u8>>,
    MalformedMessage,
>
    decreases end - pos,
{
    if pos >= end {
        Ok(Seq::empty())
    } else if pos + 1 + msg[pos] > end {
        Err(MalformedMessage::BadText)
    } else {
        match parse_strings(msg, pos + 1 + msg[pos], end) {
            Ok(rest) => Ok(seq![msg.subrange(pos + 1, pos + 1 + msg[pos])] + rest),
            Err(e) => Err(e),
        }
    }
}

/// Strings behind strings that were read before them.
pub open spec fn after_strings(
    done: Seq<Seq<u8>>,
    rest: Result<Seq<Seq<u8>>, MalformedMessage>,
) -> Result<Seq<Seq<u8>>, MalformedMessage> {
    match rest {
        Ok(strings) => Ok(done + strings),
        Err(e) => Err(e),
    }
}

/// Each string of bytes read as text.
pub open spec fn strings_text(strings: Seq<Seq<u8>>) -> Seq<Seq<char>> {
    Seq::new(strings.len(), |i: int| bytes_text(strings[i]))
}

/// Reads the character-strings that fill the bytes from `pos` up to `end`, as text.
pub fn read_texts(msg: &[u8], pos: usize, end: usize) -> (r: Result<Vec<String>, MalformedMessage>)
    requires
        pos <= end <= msg@.len(),
    ensures
        match r {
            Ok(texts) => parse_strings(msg@, pos as int, end as int) matches Ok(strings)
                && texts_of(texts@) == strings_text(strings),
            Err(e) => parse_strings(msg@, pos as int, end as int) == Err::<Seq<Seq<u8>>, _>(e),
        },
{
    let mut texts: Vec<String> = Vec::new();
    let mut cur: usize = pos;
    let ghost mut done: Seq<Seq<u8>> = Seq::empty();
    while cur < end
        invariant
            pos <= cur <= end <= msg@.len(),
            parse_strings(msg@, pos as int, end as int) == after_strings(
                done,
                parse_strings(msg@, cur as int, end as int),
            ),
            texts@.len() == done.len(),
            texts_of(texts@) == strings_text(done),
        decreases end - cur,
    {
        let len = msg[cur] as usize;
        if end - cur - 1 < len {
            return Err(MalformedMessage::BadText);
        }
        let text = read_text(msg, cur + 1, cur + 1 + len);
        let ghost before = texts@;
        texts.push(text);
        proof {
            let bytes = msg@.subrange(cur + 1, cur + 1 + len);
            let next = parse_strings(msg@, cur + 1 + len, end as int);
            assert forall|i: int| 0 <= i < texts@.len() implies #[trigger] texts_of(texts@)[i]
                == strings_text(done.push(bytes))[i] by {
                if i < before.len() {
                    assert(texts_of(before)[i] == strings_text(done)[i]);
                }
            }
            assert(after_strings(done, after_strings(seq![bytes], next)) == after_strings(
                done.push(bytes),
                next,
            )) by {
                match next {
                    Ok(strings) => {
                        assert(done + (seq![bytes] + strings) =~= done.push(bytes) + strings);
                    },
                    Err(e) => {},
                }
            }
            done = done.push(bytes);
        }
        cur = cur + 1 + len;
    }
    Ok(texts)
}

} // verus!
