use root::packet::{FrameError, MAX_PACKET_LEN};
use root::Packet;

#[test]
fn test_packet_framing() {
    let original_data = b"Nebula Protocol Test".to_vec();
    let framed = Packet::encapsulate(original_data.clone());

    let decapsulated = Packet::decapsulate(&framed).unwrap();

    assert_eq!(decapsulated.payload, original_data);
}

#[test]
fn the_length_comes_first_highest_byte_first() {
    assert_eq!(Packet::encapsulate(vec![7, 8, 9]), vec![0, 0, 0, 3, 7, 8, 9]);
    assert_eq!(Packet::encapsulate(vec![]), vec![0, 0, 0, 0]);
    let long = Packet::encapsulate(vec![1; 70000]);
    assert_eq!(&long[..4], &[0, 1, 0x11, 0x70]);
    assert_eq!(long.len(), 70004);
}

#[test]
fn bytes_behind_a_packet_are_left_alone() {
    let mut stream = Packet::encapsulate(vec![1, 2]);
    stream.extend_from_slice(&Packet::encapsulate(vec![3]));
    let first = Packet::decapsulate(&stream).unwrap();
    assert_eq!(first.payload, vec![1, 2]);
    let second = Packet::decapsulate(&stream[6..]).unwrap();
    assert_eq!(second.payload, vec![3]);
}

#[test]
fn short_and_oversized_packets_are_refused() {
    assert_eq!(Packet::decapsulate(&[0, 0, 0]).unwrap_err(), FrameError::Truncated);
    assert_eq!(Packet::decapsulate(&[0, 0, 0, 2, 1]).unwrap_err(), FrameError::Truncated);
    assert_eq!(
        Packet::decapsulate(&[1, 0, 0, 1]).unwrap_err(),
        FrameError::TooLarge(16 * 1024 * 1024 + 1)
    );
    assert_eq!(Packet::payload_length([1, 0, 0, 0]), Ok(MAX_PACKET_LEN));
    assert_eq!(
        Packet::payload_length([0xff, 0xff, 0xff, 0xff]),
        Err(FrameError::TooLarge(u32::MAX))
    );
}
