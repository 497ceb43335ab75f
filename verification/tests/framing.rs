use kakure::transport::framing::{frame, FrameReader};

#[test]
fn frame_puts_the_length_in_front() {
    assert_eq!(frame(&[]), Some(vec![0, 0]));
    assert_eq!(frame(&[7, 8, 9]), Some(vec![0, 3, 7, 8, 9]));
    let long = vec![1u8; 0x0102];
    let framed = frame(&long).unwrap();
    assert_eq!(&framed[..2], &[1, 2]);
    assert_eq!(&framed[2..], &long[..]);
}

#[test]
fn message_of_65536_bytes_fits_no_frame() {
    assert!(frame(&vec![0u8; 65_535]).is_some());
    assert_eq!(frame(&vec![0u8; 65_536]), None);
}

#[test]
fn reader_hands_out_a_complete_frame() {
    let mut reader = FrameReader::new();
    assert_eq!(reader.next_frame(), None);
    reader.feed(&[0, 3, 7, 8, 9]);
    assert_eq!(reader.pending(), 5);
    assert_eq!(reader.next_frame(), Some(vec![7, 8, 9]));
    assert_eq!(reader.pending(), 0);
    assert_eq!(reader.next_frame(), None);
}

#[test]
fn reader_joins_a_frame_that_comes_in_pieces() {
    let mut reader = FrameReader::new();
    reader.feed(&[0]);
    assert_eq!(reader.next_frame(), None);
    reader.feed(&[3, 7]);
    assert_eq!(reader.next_frame(), None);
    reader.feed(&[8]);
    assert_eq!(reader.next_frame(), None);
    assert_eq!(reader.pending(), 4);
    reader.feed(&[9, 0, 1]);
    assert_eq!(reader.next_frame(), Some(vec![7, 8, 9]));
    assert_eq!(reader.pending(), 2);
    assert_eq!(reader.next_frame(), None);
    reader.feed(&[42]);
    assert_eq!(reader.next_frame(), Some(vec![42]));
}

#[test]
fn reader_parts_frames_that_come_in_one_read() {
    let mut stream = frame(&[1, 2]).unwrap();
    stream.extend(frame(&[]).unwrap());
    stream.extend(frame(&[3]).unwrap());
    let mut reader = FrameReader::new();
    reader.feed(&stream);
    assert_eq!(reader.next_frame(), Some(vec![1, 2]));
    assert_eq!(reader.next_frame(), Some(vec![]));
    assert_eq!(reader.next_frame(), Some(vec![3]));
    assert_eq!(reader.next_frame(), None);
}

#[test]
fn every_split_of_a_stream_gives_the_same_frames() {
    let mut stream = frame(&[1, 2, 3]).unwrap();
    stream.extend(frame(&[4]).unwrap());
    for cut in 0..=stream.len() {
        let mut reader = FrameReader::new();
        let mut found = Vec::new();
        reader.feed(&stream[..cut]);
        while let Some(message) = reader.next_frame() {
            found.push(message);
        }
        reader.feed(&stream[cut..]);
        while let Some(message) = reader.next_frame() {
            found.push(message);
        }
        assert_eq!(found, vec![vec![1, 2, 3], vec![4]]);
        assert_eq!(reader.pending(), 0);
    }
}

#[test]
fn reader_hands_out_what_came_of_a_frame() {
    let mut reader = FrameReader::new();
    reader.feed(&[0, 9, 1, 2]);
    assert_eq!(reader.next_frame(), None);
    assert_eq!(reader.take_partial(), Some(vec![1, 2]));
    assert_eq!(reader.pending(), 0);
    reader.feed(&[0]);
    assert_eq!(reader.take_partial(), None);
    assert_eq!(reader.pending(), 0);
    reader.feed(&[0, 0]);
    reader.clear();
    assert_eq!(reader.pending(), 0);
}
