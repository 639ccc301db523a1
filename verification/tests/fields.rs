use tors_rs::message::BitField;

#[test]
fn a_field_needs_a_byte_for_every_eight_pieces() {
    assert_eq!(
        BitField::new(vec![0xff], 9).err(),
        Some("not enough bytes supplied in bitfield")
    );
    let field = BitField::new(vec![0b1000_0000, 0], 9).unwrap();
    assert_eq!(field.bits, vec![0b1000_0000, 0]);
    assert_eq!(field.settable, 9);
}

#[test]
fn a_field_may_not_be_far_too_long() {
    assert_eq!(BitField::new(vec![0; 24], 2).err(), Some("not enough settable bytes"));
}

#[test]
fn a_field_may_not_have_a_bit_past_its_end() {
    assert_eq!(
        BitField::new(vec![0xff, 0b0100_0000], 9).err(),
        Some("too many ones set in bitfield")
    );
    assert!(BitField::new(vec![0xff, 0b1000_0000], 9).is_ok());
    assert_eq!(
        BitField::new(vec![0x00, 0x81], 10).err(),
        Some("too many ones set in bitfield")
    );
    assert!(BitField::new(vec![0x00, 0xc0], 10).is_ok());
}

#[test]
fn a_field_has_at_least_one_bit() {
    assert_eq!(BitField::new(vec![], 0).err(), Some("too many ones set in bitfield"));
    assert_eq!(BitField::new(vec![], 1).err(), Some("not enough bytes supplied in bitfield"));
}

#[test]
fn bits_are_counted_from_the_high_one() {
    let field = BitField::from_slice(&[0b1010_0000, 0b0000_0001]);
    assert_eq!(field.settable, 16);
    assert_eq!(field.is_set(0), Ok(true));
    assert_eq!(field.is_set(1), Ok(false));
    assert_eq!(field.is_set(2), Ok(true));
    assert_eq!(field.is_set(15), Ok(true));
    assert_eq!(field.is_set(16), Err("Index out of bounds"));
    assert_eq!(field.is_set(17), Err("Index out of bounds"));
    assert_eq!(field.set_bits(), vec![0, 2, 15]);
}

#[test]
fn written_bits_are_read() {
    let mut field = BitField::with_settable(10);
    assert_eq!(field.bits, vec![0, 0]);
    assert_eq!(field.set(9, true), Ok(false));
    assert_eq!(field.set(9, true), Ok(true));
    assert_eq!(field.bits, vec![0, 0b0100_0000]);
    assert_eq!(field.set(9, false), Ok(true));
    assert_eq!(field.bits, vec![0, 0]);
    assert_eq!(field.set(20, true), Err("Index out of bounds"));
    assert_eq!(field.is_set(10), Err("Index out of bounds"));
    assert_eq!(field.set(10, true), Err("Index out of bounds"));
    assert_eq!(field.set_bits(), vec![]);
}

#[test]
fn a_field_answers_for_what_it_lists() {
    let mut field = BitField::new(vec![0b1001_0000, 0b0100_0000], 11).unwrap();
    field.set(5, true).unwrap();
    for index in 0..11 {
        assert_eq!(field.is_set(index), Ok(field.set_bits().contains(&index)));
    }
    for index in 11..20 {
        assert_eq!(field.is_set(index), Err("Index out of bounds"));
    }
}

#[test]
fn merging_joins_two_fields() {
    let mut field = BitField::from_slice(&[0b1000_0001]);
    let other = BitField::from_slice(&[0b0100_0001]);
    assert_eq!(field.update(&other), Ok(()));
    assert_eq!(field.bits, vec![0b1100_0001]);
    assert_eq!(field.update(&other), Ok(()));
    assert_eq!(field.bits, vec![0b1100_0001]);
    let longer = BitField::with_settable(9);
    assert_eq!(field.update(&longer), Err("Number of settable bits differ"));
}

#[test]
fn a_field_lacks_what_only_the_other_has() {
    let mine = BitField::from_slice(&[0b1100_0000]);
    let less = BitField::from_slice(&[0b0100_0000]);
    let more = BitField::from_slice(&[0b0110_0000]);
    assert_eq!(mine.has_other(&less), Ok(false));
    assert_eq!(mine.contains(&less), Ok(true));
    assert_eq!(mine.has_other(&more), Ok(true));
    assert_eq!(mine.contains(&more), Ok(false));
    let longer = BitField::with_settable(9);
    assert_eq!(
        mine.has_other(&longer),
        Err("BitFields do not have the same number of settable bits")
    );
    assert_eq!(
        mine.contains(&longer),
        Err("BitFields do not have the same number of bytes")
    );
}

#[test]
fn a_field_is_shown_in_binary() {
    let field = BitField::from_slice(&[0b1010_0000, 1]);
    assert_eq!(field.debug_string(), "BitField { bits: 10100000_00000001 }");
}
