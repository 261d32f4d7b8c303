use agentshield::encoding::base64_encode;
use base64::Engine;

#[test]
fn base64_of_known_texts() {
    assert_eq!(base64_encode(b""), "");
    assert_eq!(base64_encode(b"f"), "Zg==");
    assert_eq!(base64_encode(b"fo"), "Zm8=");
    assert_eq!(base64_encode(b"foo"), "Zm9v");
    assert_eq!(base64_encode(b"foob"), "Zm9vYg==");
    assert_eq!(base64_encode(b"fooba"), "Zm9vYmE=");
    assert_eq!(base64_encode(b"foobar"), "Zm9vYmFy");
    assert_eq!(base64_encode(&[0xFB, 0xFB, 0xFF]), "+/v/");
    assert_eq!(base64_encode(&[0x00, 0x10, 0x83, 0x10, 0x51, 0x87]), "ABCDEFGH");
}

#[test]
fn base64_of_input_longer_than_one_chunk() {
    for len in [3145727usize, 3145728, 3145729, 2 * 3145728 + 5] {
        let data: Vec<u8> = (0..len).map(|i| (i * 31 % 256) as u8).collect();
        let text = base64_encode(&data);
        assert_eq!(text.len(), (len + 2) / 3 * 4);
        assert!(text == base64::engine::general_purpose::STANDARD.encode(&data));
    }
}
