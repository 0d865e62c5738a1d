use efficax::codec::DecodeError;
use efficax::data::{ChatData, InputData, NetworkData};
use efficax::receiver::{ReceiveError, Received, TcpReceiver};

#[test]
fn one_input_frame() {
    let mut r = TcpReceiver::new();
    let (items, err) = r.feed(&[3, 0, 0, 4, 5]);
    assert_eq!(items, vec![Received::Data(NetworkData::Input(InputData { input: 4, input_sequence: 5 }))]);
    assert_eq!(err, None);
    assert_eq!(r.pending_len(), 0);
}

#[test]
fn frames_split_across_chunks() {
    let mut r = TcpReceiver::new();
    let (items, err) = r.feed(&[3]);
    assert!(items.is_empty() && err.is_none());
    let (items, err) = r.feed(&[0, 3, 0x90]);
    assert!(items.is_empty() && err.is_none());
    assert_eq!(r.pending_len(), 4);
    let (items, err) = r.feed(&[0x1f, 3, 0, 0, 1]);
    assert_eq!(items, vec![Received::InitUdp(8080)]);
    assert_eq!(err, None);
    assert_eq!(r.pending_len(), 4);
    let (items, _) = r.feed(&[2]);
    assert_eq!(items, vec![Received::Data(NetworkData::Input(InputData { input: 1, input_sequence: 2 }))]);
}

#[test]
fn two_frames_in_one_chunk() {
    let mut r = TcpReceiver::new();
    let mut bytes = vec![11, 0, 1, 2, 0, 0, 0, 0, 0, 0, 0, b'h', b'i'];
    bytes.extend_from_slice(&[3, 0, 0, 8, 1]);
    let (items, err) = r.feed(&bytes);
    assert_eq!(
        items,
        vec![
            Received::Data(NetworkData::Chat(ChatData { message: "hi".to_string() })),
            Received::Data(NetworkData::Input(InputData { input: 8, input_sequence: 1 })),
        ]
    );
    assert_eq!(err, None);
}

#[test]
fn declared_size_longer_than_message_leaves_remainder() {
    let mut r = TcpReceiver::new();
    // The frame declares 4 bytes but the input message takes 3: the fourth
    // byte stays pending and is read as the start of the next frame.
    let (items, err) = r.feed(&[4, 0, 0, 1, 2, 9]);
    assert_eq!(items, vec![Received::Data(NetworkData::Input(InputData { input: 1, input_sequence: 2 }))]);
    assert_eq!(err, None);
    assert_eq!(r.pending_len(), 1);
}

#[test]
fn size_errors() {
    let mut r = TcpReceiver::new();
    assert_eq!(r.feed(&[0, 0]).1, Some(ReceiveError::PacketSizeTooSmall));
    let mut r = TcpReceiver::new();
    let mut big = vec![0x01, 0x10];
    big.extend(std::iter::repeat(0u8).take(4097));
    assert_eq!(r.feed(&big).1, Some(ReceiveError::PacketSizeTooLarge));
}

#[test]
fn unparsable_frame() {
    let mut r = TcpReceiver::new();
    let (items, err) = r.feed(&[3, 0, 0, 1, 2, 1, 0, 7]);
    assert_eq!(items, vec![Received::Data(NetworkData::Input(InputData { input: 1, input_sequence: 2 }))]);
    assert_eq!(err, Some(ReceiveError::Unparsable(DecodeError::UnexpectedVariant { found: 7 })));
}

#[test]
fn ring_overflow() {
    let mut r = TcpReceiver::new();
    let mut chunk = vec![0xff, 0xff];
    chunk.extend(std::iter::repeat(0u8).take(8190));
    assert_eq!(r.feed(&chunk), (vec![], None));
    assert_eq!(r.pending_len(), 8192);
    let (items, err) = r.feed(&[0]);
    assert!(items.is_empty());
    assert_eq!(err, Some(ReceiveError::RingOverflow));
}

#[test]
fn any_chunking_gives_the_same_messages() {
    let mut stream = vec![11, 0, 1, 2, 0, 0, 0, 0, 0, 0, 0, b'h', b'i'];
    stream.extend_from_slice(&[3, 0, 0, 8, 1, 3, 0, 3, 0x90, 0x1f, 3, 0, 0, 2]);
    let mut whole = TcpReceiver::new();
    let (expected, err) = whole.feed(&stream);
    assert_eq!(err, None);
    assert_eq!(expected.len(), 3);
    assert_eq!(whole.pending_len(), 4);
    for size in 1..stream.len() {
        let mut r = TcpReceiver::new();
        let mut got = Vec::new();
        for chunk in stream.chunks(size) {
            let (items, err) = r.feed(chunk);
            assert_eq!(err, None);
            got.extend(items);
        }
        assert_eq!(got, expected);
        assert_eq!(r.pending_len(), whole.pending_len());
    }
}
