use tors_rs::wire;

#[test]
fn integers_are_written_most_significant_byte_first() {
    assert_eq!(wire::u16_to_be(0x1ae1), [0x1a, 0xe1]);
    assert_eq!(wire::u32_to_be(0x0102_0304), [1, 2, 3, 4]);
    assert_eq!(wire::u64_to_be(0x41727101980), [0, 0, 4, 0x17, 0x27, 0x10, 0x19, 0x80]);
}

#[test]
fn written_integers_are_read_back() {
    for x in [0u32, 1, 255, 256, 0x1234_5678, u32::MAX] {
        assert_eq!(wire::u32_at(&wire::u32_to_be(x), 0), x);
        let wide = x as u64 * 0x1_0000_0001;
        assert_eq!(wire::u64_at(&wire::u64_to_be(wide), 0), wide);
        assert_eq!(wire::u16_at(&wire::u16_to_be(x as u16), 0), x as u16);
    }
}

#[test]
fn byte_strings_are_taken_apart() {
    let bytes: Vec<u8> = (0..40).collect();
    assert_eq!(wire::eight_at(&bytes, 3), [3, 4, 5, 6, 7, 8, 9, 10]);
    assert_eq!(wire::twenty_at(&bytes, 20)[19], 39);
    assert!(wire::same_bytes(&bytes, &bytes.clone()));
    assert!(!wire::same_bytes(&bytes, &bytes[1..]));
    let mut out = vec![1];
    wire::append(&mut out, &[2, 3]);
    assert_eq!(out, vec![1, 2, 3]);
}
