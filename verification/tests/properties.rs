//! Concrete probes of the library's laws: integer and presence-map framing
//! at the boundary values, delta and tail round trips, and one input for
//! each error kind.
use fastlib::{ByteReader, ByteWriter, Decoder, Error, MessageFactory, Value};

struct Sink;

impl MessageFactory for Sink {
    fn start_template(&mut self, _id: u32, _name: &str) {}
    fn stop_template(&mut self) {}
    fn set_value(&mut self, _id: u32, _name: &str, _value: Option<Value>) {}
    fn start_sequence(&mut self, _id: u32, _name: &str, _length: u32) {}
    fn start_sequence_item(&mut self, _index: u32) {}
    fn stop_sequence_item(&mut self) {}
    fn stop_sequence(&mut self) {}
    fn start_group(&mut self, _name: &str) {}
    fn stop_group(&mut self) {}
    fn start_template_ref(&mut self, _name: &str, _dynamic: bool) {}
    fn stop_template_ref(&mut self) {}
}

const TEMPLATES: &str = r#"<templates>
    <template id="1" name="One"><uInt32 id="1" name="Value"/></template>
</templates>"#;

#[test]
fn uint_framing_boundaries() {
    for x in [0u64, 1, 1 << 32, (1 << 63) - 1, u64::MAX] {
        let mut w = ByteWriter::new();
        w.write_uint(x);
        let mut r = ByteReader::new(&w.buf);
        assert_eq!(r.read_uint().unwrap(), x);
        assert_eq!(r.remaining(), 0);
    }
}

#[test]
fn int_framing_boundaries() {
    for x in [0i64, 1, -1, 1 << 32, -(1i64 << 32), i64::MAX, i64::MIN] {
        let mut w = ByteWriter::new();
        w.write_int(x);
        let mut r = ByteReader::new(&w.buf);
        assert_eq!(r.read_int().unwrap(), x, "round trip of {x}");
    }
}

#[test]
fn pmap_framing_trims_trailing_zeros() {
    // fourteen bits whose low seven are all zero: one byte comes back
    let mut w = ByteWriter::new();
    w.write_presence_map(0b1000000_0000000, 14).unwrap();
    assert_eq!(w.buf, vec![0xc0]);
    let mut r = ByteReader::new(&w.buf);
    let (bitmap, size) = r.read_presence_map().unwrap();
    assert_eq!(size, 7);
    assert_eq!(bitmap, 0b1000000);
}

#[test]
fn delta_round_trip_values() {
    let pairs = [
        (Value::ASCIIString("GEH6".into()), Value::ASCIIString("RSESM6".into())),
        (Value::Bytes(vec![1, 2, 3]), Value::Bytes(vec![9, 2, 3])),
        (Value::Int64(-5), Value::Int64(700)),
        (Value::UInt32(7), Value::UInt32(3)),
    ];
    for (prev, next) in pairs {
        let (d, sub) = next.find_delta(&prev).unwrap();
        assert_eq!(prev.apply_delta(d, sub).unwrap(), next);
    }
}

#[test]
fn tail_round_trip_values() {
    let pairs = [
        (Value::ASCIIString("ABC".into()), Value::ASCIIString("ABZ".into())),
        (Value::ASCIIString("AB".into()), Value::ASCIIString("ABCD".into())),
        (Value::Bytes(vec![1, 2, 3]), Value::Bytes(vec![1, 9, 9])),
    ];
    for (prev, next) in pairs {
        let t = next.find_tail(&prev).unwrap();
        assert_eq!(prev.apply_tail(t).unwrap(), next);
    }
}

#[test]
fn tail_cannot_shorten() {
    let prev = Value::ASCIIString("ABCD".into());
    let next = Value::ASCIIString("AB".into());
    assert!(matches!(next.find_tail(&prev), Err(Error::Dynamic(_))));
}

#[test]
fn error_static_on_bad_templates() {
    assert!(matches!(Decoder::new_from_xml("<templates><junk/></templates>"),
        Err(Error::Static(_))));
    assert!(matches!(Decoder::new_from_xml("not xml at all <"), Err(Error::Static(_))));
}

#[test]
fn error_eof_between_messages() {
    let mut d = Decoder::new_from_xml(TEMPLATES).unwrap();
    let mut sink = Sink;
    assert!(matches!(d.decode_vec(vec![], &mut sink), Err(Error::Eof)));
}

#[test]
fn error_unexpected_eof_mid_message() {
    let mut d = Decoder::new_from_xml(TEMPLATES).unwrap();
    let mut sink = Sink;
    assert!(matches!(d.decode_vec(vec![0xc0, 0x81], &mut sink), Err(Error::UnexpectedEof)));
}

#[test]
fn error_dynamic_on_unknown_template_id() {
    let mut d = Decoder::new_from_xml(TEMPLATES).unwrap();
    let mut sink = Sink;
    assert!(matches!(d.decode_vec(vec![0xc0, 0x99, 0x83], &mut sink), Err(Error::Dynamic(_))));
}

#[test]
fn error_runtime_on_leftover_bytes() {
    let mut d = Decoder::new_from_xml(TEMPLATES).unwrap();
    let mut sink = Sink;
    assert!(matches!(d.decode_vec(vec![0xc0, 0x81, 0x83, 0x99, 0x99], &mut sink),
        Err(Error::Runtime(_))));
}

#[test]
fn hex_literal_rejects_odd_length() {
    assert!(matches!(fastlib::string_to_bytes("abc"), Err(Error::Runtime(_))));
    assert!(matches!(fastlib::string_to_bytes("zz"), Err(Error::Runtime(_))));
}

#[test]
fn decimal_rejects_double_dot() {
    assert!(matches!(fastlib::Decimal::from_string("1.2.3"), Err(Error::Static(_))));
    assert!(fastlib::Decimal::from_string("").is_err());
}
