//! Decoding whole messages of every shape: integers, strings, byte vectors,
//! decimals, sequences, groups and template references, with the emitted
//! event stream checked call for call.
use fastlib::{Decoder, MessageFactory, Value};

const DEFINITION: &str = r#"<?xml version="1.0" encoding="UTF-8"?>
<templates xmlns="http://www.fixprotocol.org/ns/fast/td/1.1">
    <template id="1" name="Integer">
        <uInt32 id="1" name="MandatoryUint32"/>
        <uInt32 id="2" name="OptionalUint32" presence="optional"/>
        <uInt64 id="3" name="MandatoryUint64"/>
        <uInt64 id="4" name="OptionalUint64" presence="optional"/>
        <int32 id="5" name="MandatoryInt32"/>
        <int32 id="6" name="OptionalInt32" presence="optional"/>
        <int64 id="7" name="MandatoryInt64"/>
        <int64 id="8" name="OptionalInt64" presence="optional"/>
    </template>
    <template id="2" name="String">
        <string id="1" name="MandatoryAscii"/>
        <string id="2" name="OptionalAscii" presence="optional"/>
        <string id="3" name="MandatoryUnicode" charset="unicode"/>
        <string id="4" name="OptionalUnicode" charset="unicode" presence="optional"/>
    </template>
    <template id="3" name="ByteVector">
        <byteVector id="1" name="MandatoryVector"/>
        <byteVector id="2" name="OptionalVector" presence="optional"/>
    </template>
    <template id="4" name="Decimal">
        <decimal id="1" name="CopyDecimal" presence="optional"><copy/></decimal>
        <decimal id="2" name="MandatoryDecimal"/>
        <decimal id="3" name="IndividualDecimal">
            <exponent><default value="-2"/></exponent>
            <mantissa><delta/></mantissa>
        </decimal>
        <decimal id="4" name="IndividualDecimalOpt" presence="optional">
            <exponent presence="optional"><default/></exponent>
            <mantissa><delta/></mantissa>
        </decimal>
    </template>
    <template id="5" name="Sequence">
        <uInt32 id="1" name="TestData"/>
        <sequence name="OuterSequence">
            <length id="2" name="NoOuterSequence"/>
            <uInt32 id="3" name="OuterTestData"/>
            <sequence name="InnerSequence" presence="optional">
                <length id="4" name="NoInnerSequence"/>
                <uInt32 id="5" name="InnerTestData"/>
            </sequence>
        </sequence>
        <sequence name="NextOuterSequence">
            <length id="6" name="NoNextOuterSequence"/>
            <uInt32 id="7" name="NextOuterTestData"><copy/></uInt32>
        </sequence>
    </template>
    <template id="6" name="Group">
        <uInt32 id="1" name="TestData"/>
        <group name="OuterGroup">
            <uInt32 id="2" name="OuterTestData"/>
            <group name="InnerGroup" presence="optional">
                <uInt32 id="3" name="InnerTestData"/>
            </group>
        </group>
    </template>
    <template id="7" name="RefData">
        <uInt32 id="1" name="TestData"><copy/></uInt32>
    </template>
    <template id="8" name="StaticReference">
        <templateRef name="RefData"/>
    </template>
    <template id="9" name="DynamicReference">
        <templateRef/>
    </template>
</templates>"#;

/// Records every callback as one line, as a transcript of the traversal.
struct Logger {
    calls: Vec<String>,
}

fn fmt_value(value: &Option<Value>) -> String {
    match value {
        None => "None".to_string(),
        Some(Value::Decimal(d)) => format!("Some(Decimal({}))", d.display_string()),
        Some(v) => format!("Some({:?})", v),
    }
}

impl MessageFactory for Logger {
    fn start_template(&mut self, id: u32, name: &str) {
        self.calls.push(format!("start_template: {id}:{name}"));
    }
    fn stop_template(&mut self) {
        self.calls.push("stop_template".to_string());
    }
    fn set_value(&mut self, id: u32, name: &str, value: Option<Value>) {
        self.calls.push(format!("set_value: {id}:{name} {}", fmt_value(&value)));
    }
    fn start_sequence(&mut self, id: u32, name: &str, length: u32) {
        self.calls.push(format!("start_sequence: {id}:{name} {length}"));
    }
    fn start_sequence_item(&mut self, index: u32) {
        self.calls.push(format!("start_sequence_item: {index}"));
    }
    fn stop_sequence_item(&mut self) {
        self.calls.push("stop_sequence_item".to_string());
    }
    fn stop_sequence(&mut self) {
        self.calls.push("stop_sequence".to_string());
    }
    fn start_group(&mut self, name: &str) {
        self.calls.push(format!("start_group: {name}"));
    }
    fn stop_group(&mut self) {
        self.calls.push("stop_group".to_string());
    }
    fn start_template_ref(&mut self, name: &str, dynamic: bool) {
        self.calls.push(format!("start_template_ref: {name}:{dynamic}"));
    }
    fn stop_template_ref(&mut self) {
        self.calls.push("stop_template_ref".to_string());
    }
}

fn decode_calls(raw: Vec<u8>) -> Vec<String> {
    let mut msg = Logger { calls: Vec::new() };
    let mut d = Decoder::new_from_xml(DEFINITION).unwrap();
    d.decode_vec(raw, &mut msg).unwrap();
    msg.calls
}

#[test]
fn base_parse_xml_template() {
    let d = Decoder::new_from_xml(DEFINITION).unwrap();
    assert_eq!(d.definitions.template_count(), 9);
    // spot-check the computed presence-map analysis
    let t4 = &d.definitions.templates[3];
    assert_eq!(t4.name, "Decimal");
    assert_eq!(t4.instructions[0].name, "CopyDecimal");
    assert!(!t4.instructions[0].has_pmap);
    assert!(t4.instructions[2].has_pmap, "IndividualDecimal has_pmap");
    assert!(t4.instructions[3].has_pmap, "IndividualDecimalOpt has_pmap");
    let t5 = &d.definitions.templates[4];
    assert_eq!(t5.name, "Sequence");
    assert!(!t5.instructions[1].has_pmap, "OuterSequence has_pmap");
    assert!(t5.instructions[2].has_pmap, "NextOuterSequence has_pmap");
    assert_eq!(t5.instructions[1].instructions[0].name, "NoOuterSequence");
    let t6 = &d.definitions.templates[5];
    assert_eq!(t6.name, "Group");
    assert!(t6.instructions[1].has_pmap, "OuterGroup has_pmap");
    assert!(!t6.instructions[1].instructions[1].has_pmap, "InnerGroup has_pmap");
}

#[test]
fn base_decode_integers() {
    let r = vec![0xc0, 0x81, 0x83, 0x85, 0x25, 0x20, 0x2f, 0x47, 0xfe, 0x25, 0x20, 0x2f, 0x48,
        0x80, 0x85, 0x87, 0x8, 0x23, 0x51, 0x57, 0x8d, 0x8, 0x23, 0x51, 0x57, 0x8f];
    assert_eq!(decode_calls(r), vec![
        "start_template: 1:Integer",
        "set_value: 1:MandatoryUint32 Some(UInt32(3))",
        "set_value: 2:OptionalUint32 Some(UInt32(4))",
        "set_value: 3:MandatoryUint64 Some(UInt64(9999999998))",
        "set_value: 4:OptionalUint64 Some(UInt64(9999999999))",
        "set_value: 5:MandatoryInt32 Some(Int32(5))",
        "set_value: 6:OptionalInt32 Some(Int32(6))",
        "set_value: 7:MandatoryInt64 Some(Int64(2222222221))",
        "set_value: 8:OptionalInt64 Some(Int64(2222222222))",
        "stop_template",
    ]);
}

#[test]
fn base_decode_strings() {
    let r = vec![0xc0, 0x82, 0x61, 0x62, 0xe3, 0x64, 0x65, 0xe6, 0x83, 0x67, 0x68, 0x69, 0x84,
        0x6b, 0x6c, 0x6d];
    assert_eq!(decode_calls(r), vec![
        "start_template: 2:String",
        "set_value: 1:MandatoryAscii Some(ASCIIString(\"abc\"))",
        "set_value: 2:OptionalAscii Some(ASCIIString(\"def\"))",
        "set_value: 3:MandatoryUnicode Some(UnicodeString(\"ghi\"))",
        "set_value: 4:OptionalUnicode Some(UnicodeString(\"klm\"))",
        "stop_template",
    ]);
}

#[test]
fn base_decode_bytes() {
    let r = vec![0xc0, 0x83, 0x81, 0xc1, 0x82, 0xb3];
    assert_eq!(decode_calls(r), vec![
        "start_template: 3:ByteVector",
        "set_value: 1:MandatoryVector Some(Bytes([193]))",
        "set_value: 2:OptionalVector Some(Bytes([179]))",
        "stop_template",
    ]);
}

#[test]
fn base_decode_decimals_1() {
    let r = vec![0xf8, 0x84, 0xfe, 0x4, 0x83, 0xff, 0xc, 0x8a, 0xfc, 0xa0, 0xff, 0x0, 0xef];
    assert_eq!(decode_calls(r), vec![
        "start_template: 4:Decimal",
        "set_value: 1:CopyDecimal Some(Decimal(5.15))",
        "set_value: 2:MandatoryDecimal Some(Decimal(154.6))",
        "set_value: 3:IndividualDecimal Some(Decimal(0.0032))",
        "set_value: 4:IndividualDecimalOpt Some(Decimal(11.1))",
        "stop_template",
    ]);
}

#[test]
fn base_decode_decimals_2() {
    let r = vec![0xf8, 0x84, 0xfe, 0x4, 0x83, 0xff, 0xc, 0x8a, 0xfc, 0xa0, 0x80];
    assert_eq!(decode_calls(r), vec![
        "start_template: 4:Decimal",
        "set_value: 1:CopyDecimal Some(Decimal(5.15))",
        "set_value: 2:MandatoryDecimal Some(Decimal(154.6))",
        "set_value: 3:IndividualDecimal Some(Decimal(0.0032))",
        "set_value: 4:IndividualDecimalOpt None",
        "stop_template",
    ]);
}

#[test]
fn decode_sequence() {
    let r = vec![0xc0, 0x85, 0x81, 0x81, 0x82, 0x83, 0x83, 0x84, 0x81, 0xc0, 0x82];
    assert_eq!(decode_calls(r), vec![
        "start_template: 5:Sequence",
        "set_value: 1:TestData Some(UInt32(1))",
        "start_sequence: 0:OuterSequence 1",
        "start_sequence_item: 0",
        "set_value: 3:OuterTestData Some(UInt32(2))",
        "start_sequence: 0:InnerSequence 2",
        "start_sequence_item: 0",
        "set_value: 5:InnerTestData Some(UInt32(3))",
        "stop_sequence_item",
        "start_sequence_item: 1",
        "set_value: 5:InnerTestData Some(UInt32(4))",
        "stop_sequence_item",
        "stop_sequence",
        "stop_sequence_item",
        "stop_sequence",
        "start_sequence: 0:NextOuterSequence 1",
        "start_sequence_item: 0",
        "set_value: 7:NextOuterTestData Some(UInt32(2))",
        "stop_sequence_item",
        "stop_sequence",
        "stop_template",
    ]);
}

#[test]
fn decode_group() {
    let r = vec![0xc0, 0x86, 0x81, 0xc0, 0x82, 0x83];
    assert_eq!(decode_calls(r), vec![
        "start_template: 6:Group",
        "set_value: 1:TestData Some(UInt32(1))",
        "start_group: OuterGroup",
        "set_value: 2:OuterTestData Some(UInt32(2))",
        "start_group: InnerGroup",
        "set_value: 3:InnerTestData Some(UInt32(3))",
        "stop_group",
        "stop_group",
        "stop_template",
    ]);
}

#[test]
fn base_decode_static_reference() {
    let r = vec![0xe0, 0x88, 0x87];
    assert_eq!(decode_calls(r), vec![
        "start_template: 8:StaticReference",
        "start_template_ref: RefData:false",
        "set_value: 1:TestData Some(UInt32(7))",
        "stop_template_ref",
        "stop_template",
    ]);
}

#[test]
fn base_decode_dynamic_reference() {
    let r = vec![0xc0, 0x89, 0xe0, 0x87, 0x85];
    assert_eq!(decode_calls(r), vec![
        "start_template: 9:DynamicReference",
        "start_template_ref: RefData:true",
        "set_value: 1:TestData Some(UInt32(5))",
        "stop_template_ref",
        "stop_template",
    ]);
}
