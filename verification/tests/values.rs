//! The value model: decimals, hex literals, the delta and tail helpers, the
//! presence-map register and the scope stack.
use fastlib::{
    bytes_to_string, decimal_normalize, string_delta, string_tail, string_to_bytes, Decimal,
    PresenceMap, Stacked,
};

#[test]
fn decimal_from_string() {
    let cases: Vec<(&str, (i32, i64))> = vec![
        ("1200.45", (-2, 120045)),
        ("001200.4500", (-2, 120045)),
        ("0", (0, 0)),
        ("0.0", (0, 0)),
        ("1", (0, 1)),
        ("10", (1, 1)),
        ("-1", (0, -1)),
    ];
    for (input, components) in cases {
        let d = Decimal::from_string(input).unwrap();
        assert_eq!((d.exponent, d.mantissa), components);
    }
}

#[test]
fn decimal_to_string() {
    let cases: Vec<((i32, i64), &str, &str)> = vec![
        ((0, 0), "0", "0.0"),
        ((2, 0), "0", "0.0"),
        ((1, 2), "20", "20.0"),
        ((-3, 1000), "1", "1.000"),
        ((-5, 100), "0.00100", "0.00100"),
        ((-2, 0), "0", "0.00"),
        ((1, -2), "-20", "-20.0"),
        ((-3, -1000), "-1", "-1.000"),
        ((-5, -100), "-0.00100", "-0.00100"),
    ];
    for ((exponent, mantissa), string, display) in cases {
        let d = Decimal::new(exponent, mantissa);
        assert_eq!(d.to_string(), string, "(string)");
        assert_eq!(d.display_string(), display, "(display)");
    }
}

#[test]
fn normalize() {
    let cases: Vec<(&str, (i32, i64))> = vec![
        ("1200.45", (-2, 120045)),
        ("001200.4500", (-2, 120045)),
        ("0", (0, 0)),
        ("0.0", (0, 0)),
        ("1", (0, 1)),
        ("10", (1, 1)),
        ("-1", (0, -1)),
    ];
    for (input, result) in cases {
        assert_eq!(decimal_normalize(input).unwrap(), result);
    }
}

#[test]
fn test_string_to_bytes() {
    let s = "123456789abcdef0";
    let v = string_to_bytes(s).unwrap();
    assert_eq!(v, vec![0x12, 0x34, 0x56, 0x78, 0x9a, 0xbc, 0xde, 0xf0]);
}

#[test]
fn test_bytes_to_string() {
    let v = vec![0x12u8, 0x34, 0x56, 0x78, 0x9a, 0xbc, 0xde, 0xf0];
    let s = bytes_to_string(&v);
    assert_eq!(&s, "123456789abcdef0");
}

#[test]
fn test_string_delta() {
    assert_eq!(string_delta("", "GEH6").unwrap(), ("GEH6", 0));
    assert_eq!(string_delta("GEH6", "GEM6").unwrap(), ("M6", 2));
    assert_eq!(string_delta("GEM6", "ESM6").unwrap(), ("ES", -3));
    assert_eq!(string_delta("ESM6", "RSESM6").unwrap(), ("RS", -1));
    assert_eq!(string_delta("GEH6", "GE").unwrap(), ("", 2));
    assert_eq!(string_delta("GEH6", "H6").unwrap(), ("", -3));
    assert_eq!(string_delta("GEH6", "GEH6").unwrap(), ("", 0));
}

#[test]
fn test_string_tail() {
    assert_eq!(string_tail("", "GEH6").unwrap(), "GEH6");
    assert_eq!(string_tail("GEH6", "GEM6").unwrap(), "M6");
    assert_eq!(string_tail("ABC", "ABCD").unwrap(), "ABCD");
}

#[test]
fn presence_map_next_bit_set() {
    let mut pmap = PresenceMap::new(0b1010110, 7);
    assert_eq!(pmap.next_bit_set(), true);
    assert_eq!(pmap.next_bit_set(), false);
    assert_eq!(pmap.next_bit_set(), true);
    assert_eq!(pmap.next_bit_set(), false);
    assert_eq!(pmap.next_bit_set(), true);
    assert_eq!(pmap.next_bit_set(), true);
    assert_eq!(pmap.next_bit_set(), false);
    assert_eq!(pmap.next_bit_set(), false);
    assert_eq!(pmap.next_bit_set(), false);
    assert_eq!(pmap.next_bit_set(), false);
    assert_eq!(pmap.next_bit_set(), false);
}

#[test]
fn presence_map_set_next_bit() {
    let mut pmap = PresenceMap::new_empty();
    pmap.set_next_bit(true);
    pmap.set_next_bit(false);
    pmap.set_next_bit(true);
    pmap.set_next_bit(false);
    pmap.set_next_bit(true);
    pmap.set_next_bit(true);
    pmap.set_next_bit(false);
    assert_eq!(pmap.bitmap, 0b1010110);
    assert_eq!(pmap.size, 7);
    pmap.set_next_bit(true);
    pmap.set_next_bit(false);
    pmap.set_next_bit(true);
    assert_eq!(pmap.bitmap, 0b10101101010000);
    assert_eq!(pmap.size, 14);
}

#[test]
fn test_stacked() {
    let mut s: Stacked<u32> = Stacked::new_empty();
    assert_eq!(s.peek(), None);
    assert_eq!(s.current, None);
    assert_eq!(s.stack, vec![]);

    s.push(37);
    assert_eq!(s.peek(), Some(&37));
    assert_eq!(s.current, Some(37));
    assert_eq!(s.stack, vec![]);

    s.push(42);
    assert_eq!(s.peek(), Some(&42));
    assert_eq!(s.current, Some(42));
    assert_eq!(s.stack, vec![37]);

    let v = s.pop().unwrap();
    assert_eq!(v, 42);
    assert_eq!(s.peek(), Some(&37));
    assert_eq!(s.current, Some(37));
    assert_eq!(s.stack, vec![]);

    let v = s.pop().unwrap();
    assert_eq!(v, 37);
    assert_eq!(s.peek(), None);
    assert_eq!(s.current, None);
    assert_eq!(s.stack, vec![]);
}
