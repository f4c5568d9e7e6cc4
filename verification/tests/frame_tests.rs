use geerpc::frame::{
    encode_frame, encode_length_prefix, frame_body_length, split_frame, FrameReader, FrameSplit,
    MAX_FRAME_SIZE,
};
use geerpc::Error;

type EnvelopeTuple = (u8, u64, String, String, Option<(u32, String)>, Vec<u8>);

fn create_test_envelope(service: &str, method: &str, payload: Vec<u8>) -> EnvelopeTuple {
    (1, 42, service.to_string(), method.to_string(), None, payload)
}

fn serialize_frame(envelope: &EnvelopeTuple) -> Vec<u8> {
    let body = bincode::serialize(envelope).unwrap();
    encode_frame(&body)
}

fn deserialize_frame(data: &[u8]) -> EnvelopeTuple {
    match split_frame(data) {
        FrameSplit::Complete { body, consumed } => {
            assert_eq!(consumed, data.len(), "Length mismatch");
            bincode::deserialize(&body).unwrap()
        }
        other => panic!("unexpected {:?}", other),
    }
}

#[test]
fn test_frame_serialization() {
    let envelope = create_test_envelope("MyService", "MyMethod", vec![10, 20, 30]);
    let frame = serialize_frame(&envelope);

    assert!(frame.len() >= 4);
    let length = u32::from_be_bytes([frame[0], frame[1], frame[2], frame[3]]) as usize;
    assert_eq!(frame.len() - 4, length);
}

#[test]
fn test_frame_deserialization() {
    let envelope = create_test_envelope("Service1", "Method1", vec![5, 10, 15]);
    let frame = serialize_frame(&envelope);

    let deserialized = deserialize_frame(&frame);
    assert_eq!(deserialized, envelope);
}

#[test]
fn test_large_payload_serialization() {
    let large_payload: Vec<u8> = (0..10000).map(|x| (x % 256) as u8).collect();
    let envelope = create_test_envelope("Service", "Method", large_payload.clone());

    let frame = serialize_frame(&envelope);
    assert!(frame.len() < MAX_FRAME_SIZE);

    let length = u32::from_be_bytes([frame[0], frame[1], frame[2], frame[3]]) as usize;
    assert_eq!(frame.len() - 4, length);
}

#[test]
fn length_prefix_is_big_endian() {
    assert_eq!(encode_length_prefix(0), vec![0, 0, 0, 0]);
    assert_eq!(encode_length_prefix(5), vec![0, 0, 0, 5]);
    assert_eq!(encode_length_prefix(0x0102_0304), vec![1, 2, 3, 4]);
    assert_eq!(encode_frame(&[9, 8, 7]), vec![0, 0, 0, 3, 9, 8, 7]);
}

#[test]
fn frame_body_length_refuses_oversized_frames() {
    assert_eq!(frame_body_length(&[0, 0, 1, 0]), Ok(256));
    assert_eq!(frame_body_length(&[0, 0x80, 0, 0]), Ok(MAX_FRAME_SIZE));
    assert_eq!(
        frame_body_length(&[0, 0x80, 0, 1]),
        Err(Error::FrameTooLarge { length: MAX_FRAME_SIZE + 1 })
    );
    assert_eq!(
        frame_body_length(&[0xff, 0xff, 0xff, 0xff]),
        Err(Error::FrameTooLarge { length: 0xffff_ffff })
    );
}

#[test]
fn split_frame_gives_back_the_body_and_leaves_the_rest() {
    let mut stream = encode_frame(&[1, 2, 3]);
    stream.extend(encode_frame(&[4]));
    match split_frame(&stream) {
        FrameSplit::Complete { body, consumed } => {
            assert_eq!(body, vec![1, 2, 3]);
            assert_eq!(consumed, 7);
            match split_frame(&stream[consumed..]) {
                FrameSplit::Complete { body, consumed } => {
                    assert_eq!(body, vec![4]);
                    assert_eq!(consumed, 5);
                }
                other => panic!("unexpected {:?}", other),
            }
        }
        other => panic!("unexpected {:?}", other),
    }
}

#[test]
fn split_frame_waits_for_missing_bytes() {
    let frame = encode_frame(&[1, 2, 3]);
    for n in 0..frame.len() {
        assert!(matches!(split_frame(&frame[..n]), FrameSplit::Incomplete));
    }
}

#[test]
fn split_frame_refuses_oversized_header() {
    let header = [0u8, 0x80, 0, 1, 0, 0];
    match split_frame(&header) {
        FrameSplit::TooLarge { length } => assert_eq!(length, MAX_FRAME_SIZE + 1),
        other => panic!("unexpected {:?}", other),
    }
}

#[test]
fn reader_takes_frames_fed_in_pieces() {
    let mut stream = encode_frame(&[1, 2, 3]);
    stream.extend(encode_frame(&[]));
    stream.extend(encode_frame(&[7]));
    let mut reader = FrameReader::new();
    let mut bodies = Vec::new();
    for byte in stream {
        reader.feed(&[byte]);
        while let FrameSplit::Complete { body, .. } = reader.next_frame() {
            bodies.push(body);
        }
    }
    assert_eq!(bodies, vec![vec![1, 2, 3], vec![], vec![7]]);
    assert_eq!(reader.end_of_stream(), Error::ConnectionClosed);
}

#[test]
fn reader_reports_a_frame_cut_short() {
    let frame = encode_frame(&[1, 2, 3]);
    let mut reader = FrameReader::new();
    reader.feed(&frame[..5]);
    assert!(matches!(reader.next_frame(), FrameSplit::Incomplete));
    assert!(matches!(reader.end_of_stream(), Error::ReadFailed { .. }));
    let mut header_only = FrameReader::new();
    header_only.feed(&frame[..2]);
    assert!(matches!(header_only.end_of_stream(), Error::ReadFailed { .. }));
}

#[test]
fn reader_refuses_an_oversized_frame() {
    let mut reader = FrameReader::new();
    reader.feed(&[0, 0x80, 0, 1]);
    match reader.next_frame() {
        FrameSplit::TooLarge { length } => assert_eq!(length, MAX_FRAME_SIZE + 1),
        other => panic!("unexpected {:?}", other),
    }
}
