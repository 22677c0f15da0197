use aes::cipher::{KeyIvInit, StreamCipher};
use root::crypto::{CircuitCipher, KEYSTREAM_LEN};

#[test]
fn the_first_block_of_a_known_keystream() {
    let mut cipher = CircuitCipher::new([0; 32]);
    let mut data = vec![0u8; 16];
    assert!(cipher.apply(&mut data));
    assert_eq!(
        data,
        vec![
            0xdc, 0x95, 0xc0, 0x78, 0xa2, 0x40, 0x89, 0x89, 0xad, 0x48, 0xa2, 0x14, 0x92, 0x84,
            0x20, 0x87
        ]
    );
    assert_eq!(cipher.used, 16);
}

#[test]
fn pieces_make_the_same_stream() {
    let key = [42u8; 32];
    let text: Vec<u8> = (0..200).map(|i| (i * 7) as u8).collect();

    let mut reference = ctr::Ctr64BE::<aes::Aes256>::new(&key.into(), &[0u8; 16].into());
    let mut expected = text.clone();
    reference.apply_keystream(&mut expected);

    let mut cipher = CircuitCipher::new(key);
    let mut sealed = Vec::new();
    for piece in [&text[..5], &text[5..16], &text[16..16], &text[16..101], &text[101..]] {
        let mut piece = piece.to_vec();
        assert!(cipher.apply(&mut piece));
        sealed.extend_from_slice(&piece);
    }
    assert_eq!(sealed, expected);
    assert_eq!(cipher.used, 200);

    let mut other = CircuitCipher::new(key);
    assert!(other.apply(&mut sealed));
    assert_eq!(sealed, text);
}

#[test]
fn a_keystream_ends() {
    let mut cipher = CircuitCipher { key: [1; 32], used: KEYSTREAM_LEN - 3 };
    let mut data = vec![9u8; 4];
    assert!(!cipher.apply(&mut data));
    assert_eq!(data, vec![9; 4]);
    assert_eq!(cipher.used, KEYSTREAM_LEN - 3);
    data.pop();
    assert!(cipher.apply(&mut data));
    assert_eq!(cipher.used, KEYSTREAM_LEN);
    assert!(cipher.apply(&mut Vec::new()));
    assert!(!cipher.apply(&mut vec![1]));
}
