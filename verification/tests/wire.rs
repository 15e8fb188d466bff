//! The bit codec on the wire: stop-bit integers, strings, byte vectors and
//! presence maps, in both directions, against the published examples.
use fastlib::{ByteReader, ByteWriter};

fn reader(bytes: &[u8]) -> ByteReader<'_> {
    ByteReader::new(bytes)
}

#[test]
fn read_presence_map() {
    let cases: Vec<(Vec<u8>, (u64, u64))> = vec![
        (vec![0x80], (0b0, 7)),
        (vec![0x81], (0b1, 7)),
        (vec![0x0f, 0x8f], (0b11110001111, 14)),
    ];
    for (input, pmap) in cases {
        let mut r = reader(&input);
        assert_eq!(r.read_presence_map().unwrap(), pmap);
    }
}

#[test]
fn read_uint() {
    let cases: Vec<(Vec<u8>, u64)> = vec![
        (vec![0x80], 0),
        (vec![0x81], 1),
        (vec![0x39, 0x45, 0xa3], 942755),
    ];
    for (input, value) in cases {
        let mut r = reader(&input);
        assert_eq!(r.read_uint().unwrap(), value);
    }
}

#[test]
fn read_uint_nullable() {
    let cases: Vec<(Vec<u8>, Option<u64>)> = vec![
        (vec![0x80], None),
        (vec![0x81], Some(0)),
        (vec![0x39, 0x45, 0xa4], Some(942755)),
    ];
    for (input, value) in cases {
        let mut r = reader(&input);
        assert_eq!(r.read_uint_nullable().unwrap(), value);
    }
}

#[test]
fn read_int() {
    let cases: Vec<(Vec<u8>, i64)> = vec![
        (vec![0x39, 0x45, 0xa3], 942755),
        (vec![0x7c, 0x1b, 0x1b, 0x9d], -7942755),
        (vec![0x00, 0x40, 0x81], 8193),
        (vec![0x7f, 0x3f, 0xff], -8193),
    ];
    for (input, value) in cases {
        let mut r = reader(&input);
        assert_eq!(r.read_int().unwrap(), value);
    }
}

#[test]
fn read_int_nullable() {
    let cases: Vec<(Vec<u8>, Option<i64>)> = vec![
        (vec![0x80], None),
        (vec![0x39, 0x45, 0xa4], Some(942755)),
        (vec![0x46, 0x3a, 0xdd], Some(-942755)),
    ];
    for (input, value) in cases {
        let mut r = reader(&input);
        assert_eq!(r.read_int_nullable().unwrap(), value);
    }
}

#[test]
fn read_ascii_string() {
    let cases: Vec<(Vec<u8>, &str)> = vec![
        (vec![0x80], ""),
        (vec![0x41, 0x42, 0xc3], "ABC"),
    ];
    for (input, value) in cases {
        let mut r = reader(&input);
        assert_eq!(r.read_ascii_string().unwrap(), value);
    }
}

#[test]
fn read_ascii_string_nullable() {
    let cases: Vec<(Vec<u8>, Option<&str>)> = vec![
        (vec![0x80], None),
        (vec![0x00, 0x80], Some("")),
        (vec![0x41, 0x42, 0xc3], Some("ABC")),
    ];
    for (input, value) in cases {
        let mut r = reader(&input);
        assert_eq!(r.read_ascii_string_nullable().unwrap(), value.map(|s| s.to_string()));
    }
}

#[test]
fn read_unicode_string() {
    let cases: Vec<(Vec<u8>, &str)> = vec![
        (vec![0x80], ""),
        (vec![0x83, 0x41, 0x42, 0x43], "ABC"),
    ];
    for (input, value) in cases {
        let mut r = reader(&input);
        assert_eq!(r.read_unicode_string().unwrap(), value);
    }
}

#[test]
fn read_unicode_string_nullable() {
    let cases: Vec<(Vec<u8>, Option<&str>)> = vec![
        (vec![0x80], None),
        (vec![0x81], Some("")),
        (vec![0x84, 0x41, 0x42, 0x43], Some("ABC")),
    ];
    for (input, value) in cases {
        let mut r = reader(&input);
        assert_eq!(r.read_unicode_string_nullable().unwrap(), value.map(|s| s.to_string()));
    }
}

#[test]
fn read_bytes() {
    let cases: Vec<(Vec<u8>, Vec<u8>)> = vec![
        (vec![0x80], vec![]),
        (vec![0x83, 0x41, 0x42, 0x43], vec![0x41, 0x42, 0x43]),
    ];
    for (input, value) in cases {
        let mut r = reader(&input);
        assert_eq!(r.read_bytes().unwrap(), value);
    }
}

#[test]
fn read_bytes_nullable() {
    let cases: Vec<(Vec<u8>, Option<Vec<u8>>)> = vec![
        (vec![0x80], None),
        (vec![0x81], Some(vec![])),
        (vec![0x84, 0x41, 0x42, 0x43], Some(vec![0x41, 0x42, 0x43])),
    ];
    for (input, value) in cases {
        let mut r = reader(&input);
        assert_eq!(r.read_bytes_nullable().unwrap(), value);
    }
}

#[test]
fn write_presence_map() {
    let cases: Vec<((u64, u32), Vec<u8>)> = vec![
        ((0b0, 7), vec![0x80]),
        ((0b1, 7), vec![0x81]),
        ((0b11110001111, 14), vec![0x0f, 0x8f]),
    ];
    for ((bitmap, size), value) in cases {
        let mut w = ByteWriter::new();
        w.write_presence_map(bitmap, size).unwrap();
        assert_eq!(w.buf, value);
    }
}

#[test]
fn write_uint() {
    let cases: Vec<(u64, Vec<u8>)> = vec![
        (0, vec![0x80]),
        (1, vec![0x81]),
        (942755, vec![0x39, 0x45, 0xa3]),
    ];
    for (input, value) in cases {
        let mut w = ByteWriter::new();
        w.write_uint(input);
        assert_eq!(w.buf, value);
    }
}

#[test]
fn write_uint_nullable() {
    let cases: Vec<(Option<u64>, Vec<u8>)> = vec![
        (None, vec![0x80]),
        (Some(0), vec![0x81]),
        (Some(942755), vec![0x39, 0x45, 0xa4]),
    ];
    for (input, value) in cases {
        let mut w = ByteWriter::new();
        w.write_uint_nullable(input);
        assert_eq!(w.buf, value);
    }
}

#[test]
fn write_int() {
    let cases: Vec<(i64, Vec<u8>)> = vec![
        (942755, vec![0x39, 0x45, 0xa3]),
        (-7942755, vec![0x7c, 0x1b, 0x1b, 0x9d]),
        (8193, vec![0x00, 0x40, 0x81]),
        (-8193, vec![0x7f, 0x3f, 0xff]),
    ];
    for (input, value) in cases {
        let mut w = ByteWriter::new();
        w.write_int(input);
        assert_eq!(w.buf, value, "Invalid encoder for {}", input);
    }
}

#[test]
fn write_int_nullable() {
    let cases: Vec<(Option<i64>, Vec<u8>)> = vec![
        (None, vec![0x80]),
        (Some(942755), vec![0x39, 0x45, 0xa4]),
        (Some(-942755), vec![0x46, 0x3a, 0xdd]),
    ];
    for (input, value) in cases {
        let mut w = ByteWriter::new();
        w.write_int_nullable(input);
        assert_eq!(w.buf, value);
    }
}

#[test]
fn write_ascii_string() {
    let cases: Vec<(&str, Vec<u8>)> = vec![
        ("", vec![0x80]),
        ("ABC", vec![0x41, 0x42, 0xc3]),
    ];
    for (input, value) in cases {
        let mut w = ByteWriter::new();
        w.write_ascii_string(input).unwrap();
        assert_eq!(w.buf, value);
    }
}

#[test]
fn write_ascii_string_nullable() {
    let cases: Vec<(Option<&str>, Vec<u8>)> = vec![
        (None, vec![0x80]),
        (Some(""), vec![0x00, 0x80]),
        (Some("ABC"), vec![0x41, 0x42, 0xc3]),
    ];
    for (input, value) in cases {
        let mut w = ByteWriter::new();
        w.write_ascii_string_nullable(input).unwrap();
        assert_eq!(w.buf, value);
    }
}

#[test]
fn write_unicode_string() {
    let cases: Vec<(&str, Vec<u8>)> = vec![
        ("", vec![0x80]),
        ("ABC", vec![0x83, 0x41, 0x42, 0x43]),
    ];
    for (input, value) in cases {
        let mut w = ByteWriter::new();
        w.write_unicode_string(input);
        assert_eq!(w.buf, value);
    }
}

#[test]
fn write_unicode_string_nullable() {
    let cases: Vec<(Option<&str>, Vec<u8>)> = vec![
        (None, vec![0x80]),
        (Some(""), vec![0x81]),
        (Some("ABC"), vec![0x84, 0x41, 0x42, 0x43]),
    ];
    for (input, value) in cases {
        let mut w = ByteWriter::new();
        w.write_unicode_string_nullable(input);
        assert_eq!(w.buf, value);
    }
}

#[test]
fn write_bytes() {
    let cases: Vec<(Vec<u8>, Vec<u8>)> = vec![
        (vec![], vec![0x80]),
        (vec![0x41, 0x42, 0x43], vec![0x83, 0x41, 0x42, 0x43]),
    ];
    for (input, value) in cases {
        let mut w = ByteWriter::new();
        w.write_bytes(&input);
        assert_eq!(w.buf, value);
    }
}

#[test]
fn write_bytes_nullable() {
    let cases: Vec<(Option<Vec<u8>>, Vec<u8>)> = vec![
        (None, vec![0x80]),
        (Some(vec![]), vec![0x81]),
        (Some(vec![0x41, 0x42, 0x43]), vec![0x84, 0x41, 0x42, 0x43]),
    ];
    for (input, value) in cases {
        let mut w = ByteWriter::new();
        w.write_bytes_nullable(input.as_deref());
        assert_eq!(w.buf, value);
    }
}
