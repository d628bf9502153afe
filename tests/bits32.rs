use pushbits::Bits32;

#[test]
fn push_field_then_flag() {
    let mut bits = Bits32::new(0);
    bits.push(5, 0b10110);
    bits.push_bool(true);
    assert_eq!(0b10110_1, bits.get());
    assert_eq!(45, bits.get());
}

#[test]
fn push_two_fields() {
    let mut bits = Bits32::new(0);
    bits.push(8, 0b11100110);
    bits.push(5, 0b10001);
    assert_eq!(0b11100110_10001, bits.get());
}

#[test]
fn push_bools() {
    let mut bits = Bits32::new(0);
    bits.push_bool(true);
    bits.push_bool(false);
    assert_eq!(0b10, bits.get());
}

#[test]
fn pop_fields_of_a_row() {
    let mut bits = Bits32::new(0xDEADBEEF);
    assert_eq!(0xDEA, bits.pop(12));
    assert_eq!(0xDBE, bits.pop(12));
    assert_eq!(0xEF, bits.pop(8));
    assert_eq!(0, bits.get());
}

#[test]
fn pop_bools_after_moving_to_top() {
    let mut bits = Bits32::new(0b101);
    bits.push(Bits32::BIT_WIDTH - 3, 0);
    assert_eq!(true, bits.pop_bool());
    assert_eq!(false, bits.pop_bool());
    assert_eq!(true, bits.pop_bool());
}

#[test]
fn push_ignores_high_bits_of_value() {
    let mut a = Bits32::new(0b1);
    a.push(4, 0xFFFF_FFF5);
    let mut b = Bits32::new(0b1);
    b.push(4, 0x5);
    assert_eq!(a.get(), b.get());
    assert_eq!(0b1_0101, a.get());
    assert_eq!(0x5, a.get() & 0xF);
}

#[test]
fn push_drops_bits_past_the_top() {
    let mut bits = Bits32::new(0xFFFF_FFFF);
    bits.push(31, 0);
    assert_eq!(0x8000_0000, bits.get());
    let mut bits = Bits32::new(0x8000_0001);
    bits.push(1, 1);
    assert_eq!(0b11, bits.get());
}

#[test]
fn push_widest_field() {
    let mut bits = Bits32::new(0);
    bits.push(31, 0xFFFF_FFFF);
    assert_eq!(0x7FFF_FFFF, bits.get());
}

#[test]
fn pop_widest_field() {
    let mut bits = Bits32::new(0xFFFF_FFFF);
    assert_eq!(0x7FFF_FFFF, bits.pop(31));
    assert_eq!(0x8000_0000, bits.get());
}

#[test]
fn zero_width_push_and_pop() {
    let mut bits = Bits32::new(0xCAFE_F00D);
    bits.push(0, 0xFFFF_FFFF);
    assert_eq!(0xCAFE_F00D, bits.get());
    assert_eq!(0, bits.pop(0));
    assert_eq!(0xCAFE_F00D, bits.get());
}

#[test]
fn round_trip_fills_the_row() {
    let widths: [u32; 5] = [3, 1, 13, 7, 8];
    let values: [u32; 5] = [0b101, 1, 0x1ABC, 0x55, 0xFE];
    let mut bits = Bits32::new(0x1234_5678);
    for i in 0..widths.len() {
        bits.push(widths[i], values[i]);
    }
    for i in 0..widths.len() {
        assert_eq!(values[i], bits.pop(widths[i]));
    }
    assert_eq!(0, bits.get());
}

#[test]
fn round_trip_with_flags() {
    let mut bits = Bits32::new(0);
    bits.push_bool(true);
    bits.push(30, 0x2AAA_AAAA);
    bits.push_bool(false);
    assert_eq!(true, bits.pop_bool());
    assert_eq!(0x2AAA_AAAA, bits.pop(30));
    assert_eq!(false, bits.pop_bool());
}

#[test]
fn pop_bool_reads_top_bit() {
    let mut bits = Bits32::new(0x8000_0000);
    assert_eq!(true, bits.pop_bool());
    assert_eq!(0, bits.get());
    assert_eq!(false, bits.pop_bool());
}

#[test]
fn equality_and_order_follow_the_pattern() {
    assert_eq!(Bits32::new(7), Bits32::new(7));
    assert_ne!(Bits32::new(7), Bits32::new(8));
    assert!(Bits32::new(2) < Bits32::new(3));
    assert!(Bits32::new(0xFFFF_FFFF) > Bits32::new(0));
    assert_eq!(Bits32::default(), Bits32::new(0));
}

#[test]
fn copies_are_independent() {
    let a = Bits32::new(0b11);
    let mut b = a.clone();
    b.push(2, 0);
    assert_eq!(0b11, a.get());
    assert_eq!(0b1100, b.get());
}

#[test]
fn new_keeps_pattern() {
    assert_eq!(0xDEAD_BEEF, Bits32::new(0xDEAD_BEEF).get());
    assert_eq!(0, Bits32::new(0).get());
}

#[test]
fn flags_fill_the_row() {
    let flags: Vec<bool> = (0..32).map(|i| i % 3 == 0 || i % 5 == 1).collect();
    let mut bits = Bits32::new(0xFFFF_FFFF);
    for f in flags.iter() {
        bits.push_bool(*f);
    }
    for f in flags.iter() {
        assert_eq!(*f, bits.pop_bool());
    }
    assert_eq!(0, bits.get());
}

#[test]
fn order_is_by_pattern() {
    let a = Bits32::new(0x8000_0000);
    let b = Bits32::new(0x7FFF_FFFF);
    assert!(a > b);
    assert!(b <= a);
    assert_eq!(Some(std::cmp::Ordering::Greater), a.partial_cmp(&b));
    assert_eq!(Some(std::cmp::Ordering::Equal), a.partial_cmp(&Bits32::new(0x8000_0000)));
    assert_eq!(std::cmp::Ordering::Less, b.cmp(&a));
}
