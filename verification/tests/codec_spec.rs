//! End-to-end scenarios from the FAST specification's appendix: single
//! messages and message sequences decoded and re-encoded bit for bit.
use fastlib::{Decoder, Encoder, Error, MessageFactory, MessageVisitor, Value};

const DEFINITION: &str = r#"<?xml version="1.0" encoding="UTF-8"?>
<templates xmlns="http://www.fixprotocol.org/ns/fast/td/1.1">
    <template id="1" name="MandatoryDecimal">
        <decimal id="1" name="Value"/>
    </template>
    <template id="2" name="OptionalDecimal">
        <decimal id="2" name="Value" presence="optional"/>
    </template>
    <template id="3" name="OptionalDecimalWithOperator">
        <decimal id="3" name="Value" presence="optional"><copy/></decimal>
    </template>
    <template id="4" name="OptionalDecimalWithIndividual">
        <decimal id="4" name="Value" presence="optional">
            <exponent><copy/></exponent>
            <mantissa><delta/></mantissa>
        </decimal>
    </template>
    <template id="5" name="ConstantOperatorMandatory">
        <uInt32 id="5" name="Value"><constant value="7"/></uInt32>
    </template>
    <template id="6" name="ConstantOperatorOptional">
        <uInt32 id="6" name="Value" presence="optional"><constant value="7"/></uInt32>
    </template>
    <template id="7" name="DefaultOperatorMandatory">
        <uInt32 id="7" name="Value"><default value="7"/></uInt32>
    </template>
    <template id="8" name="DefaultOperatorOptional">
        <uInt32 id="8" name="Value" presence="optional"><default/></uInt32>
    </template>
    <template id="9" name="CopyOperatorMandatory">
        <string id="9" name="Value"><copy/></string>
    </template>
    <template id="10" name="CopyOperatorOptional">
        <string id="10" name="Value" presence="optional"><copy/></string>
    </template>
    <template id="11" name="IncrementOperatorMandatory">
        <uInt32 id="11" name="Value"><increment/></uInt32>
    </template>
    <template id="12" name="DeltaOperatorMandatorySignedInteger">
        <int32 id="12" name="Value"><delta/></int32>
    </template>
    <template id="13" name="DeltaOperatorMandatoryDecimal">
        <decimal id="13" name="Value"><delta/></decimal>
    </template>
    <template id="14" name="DeltaOperatorMandatoryDecimalWithInit">
        <decimal id="14" name="Value"><delta value="12000"/></decimal>
    </template>
    <template id="15" name="DeltaOperatorMandatoryString">
        <string id="15" name="Value"><delta/></string>
    </template>
    <template id="16" name="MultiplePMapSlot">
        <decimal id="16" name="Value" presence="optional">
            <exponent><copy/></exponent>
            <mantissa><copy/></mantissa>
        </decimal>
    </template>
</templates>"#;

/// Collects the template and the single field value of a decoded message.
struct Capture {
    template: String,
    value: Option<Value>,
    saw_value: bool,
}

impl Capture {
    fn new() -> Self {
        Self { template: String::new(), value: None, saw_value: false }
    }
}

impl MessageFactory for Capture {
    fn start_template(&mut self, _id: u32, name: &str) {
        self.template = name.to_string();
        self.value = None;
        self.saw_value = false;
    }
    fn stop_template(&mut self) {}
    fn set_value(&mut self, _id: u32, _name: &str, value: Option<Value>) {
        self.value = value;
        self.saw_value = true;
    }
    fn start_sequence(&mut self, _id: u32, _name: &str, _length: u32) {}
    fn start_sequence_item(&mut self, _index: u32) {}
    fn stop_sequence_item(&mut self) {}
    fn stop_sequence(&mut self) {}
    fn start_group(&mut self, _name: &str) {}
    fn stop_group(&mut self) {}
    fn start_template_ref(&mut self, _name: &str, _dynamic: bool) {}
    fn stop_template_ref(&mut self) {}
}

/// Supplies the template and the single field value of a message to encode.
struct Source {
    template: String,
    value: Option<Value>,
}

impl MessageVisitor for Source {
    fn get_template_name(&mut self) -> Result<String, Error> {
        Ok(self.template.clone())
    }
    fn get_value(&mut self, _name: &str) -> Result<Option<Value>, Error> {
        Ok(self.value.clone())
    }
    fn select_group(&mut self, _name: &str) -> Result<bool, Error> {
        Ok(false)
    }
    fn release_group(&mut self) -> Result<(), Error> {
        Ok(())
    }
    fn select_sequence(&mut self, _name: &str) -> Result<Option<u32>, Error> {
        Ok(None)
    }
    fn select_sequence_item(&mut self, _index: u32) -> Result<(), Error> {
        Ok(())
    }
    fn release_sequence_item(&mut self) -> Result<(), Error> {
        Ok(())
    }
    fn release_sequence(&mut self) -> Result<(), Error> {
        Ok(())
    }
    fn select_template_ref(&mut self, _name: &str, _dynamic: bool) -> Result<Option<String>, Error> {
        Ok(None)
    }
    fn release_template_ref(&mut self) -> Result<(), Error> {
        Ok(())
    }
}

fn do_test(definition: &str, name: &str, raw: Vec<u8>, template: &str, value: Option<Value>) {
    do_test_seq(definition, name, vec![raw], vec![(template.to_string(), value)]);
}

fn do_test_seq(definition: &str, name: &str, raws: Vec<Vec<u8>>, data: Vec<(String, Option<Value>)>) {
    assert_eq!(raws.len(), data.len(), "{name}: case size mismatch");
    // decode the sequence on one decoder
    let mut decoder = Decoder::new_from_xml(definition).unwrap();
    for (raw, (template, value)) in raws.iter().zip(data.iter()) {
        let mut capture = Capture::new();
        decoder.decode_vec(raw.clone(), &mut capture).unwrap();
        assert_eq!(&capture.template, template, "{name}: template mismatch");
        assert_eq!(&capture.value, value, "{name}: value mismatch");
    }
    // encode the same sequence on one encoder and compare the bytes
    let mut encoder = Encoder::new_from_xml(definition).unwrap();
    for (raw, (template, value)) in raws.iter().zip(data.iter()) {
        let mut source = Source { template: template.clone(), value: value.clone() };
        let bytes = encoder.encode_vec(&mut source).unwrap();
        assert_eq!(&bytes, raw, "{name}: encoded bytes mismatch");
    }
}

fn dec(exponent: i32, mantissa: i64) -> Option<Value> {
    Some(Value::Decimal(fastlib::Decimal::new(exponent, mantissa)))
}

#[test]
fn parse_xml_template() {
    let d = Decoder::new_from_xml(DEFINITION).unwrap();
    assert_eq!(d.definitions.template_count(), 16);
}

#[test]
fn decode_encode_decimals() {
    do_test(DEFINITION, "Mandatory Positive Decimal", vec![0xc0, 0x81, 0x82, 0x39, 0x45, 0xa3],
        "MandatoryDecimal", dec(2, 942755));
    do_test(DEFINITION, "Mandatory Positive Decimal with Scaled Mantissa",
        vec![0xc0, 0x81, 0x81, 0x04, 0x3f, 0x34, 0xde], "MandatoryDecimal", dec(1, 9427550));
    do_test(DEFINITION, "Mandatory Positive Decimal (2)", vec![0xc0, 0x81, 0xfe, 0x39, 0x45, 0xa3],
        "MandatoryDecimal", dec(-2, 942755));
    do_test(DEFINITION, "Optional Positive Decimal", vec![0xc0, 0x82, 0x83, 0x39, 0x45, 0xa3],
        "OptionalDecimal", dec(2, 942755));
    do_test(DEFINITION, "Optional Negative Decimal", vec![0xc0, 0x82, 0xfe, 0x46, 0x3a, 0xdd],
        "OptionalDecimal", dec(-2, -942755));
    do_test(DEFINITION, "Optional Negative Decimal with sign bit extension",
        vec![0xc0, 0x82, 0xfd, 0x7f, 0x3f, 0xff], "OptionalDecimal", dec(-3, -8193));
    do_test(DEFINITION, "Optional Positive Decimal with single field operator",
        vec![0xe0, 0x83, 0xfe, 0x39, 0x45, 0xa3], "OptionalDecimalWithOperator", dec(-2, 942755));
    do_test(DEFINITION, "Optional Positive Decimal with individual field operators",
        vec![0xe0, 0x84, 0xfe, 0x39, 0x45, 0xa3], "OptionalDecimalWithIndividual", dec(-2, 942755));
}

#[test]
fn decode_encode_constant_operator() {
    do_test(DEFINITION, "Mandatory Unsigned Integer", vec![0xc0, 0x85],
        "ConstantOperatorMandatory", Some(Value::UInt32(7)));
    do_test(DEFINITION, "Optional Unsigned Integer - Absent", vec![0xc0, 0x86],
        "ConstantOperatorOptional", None);
    do_test(DEFINITION, "Optional Unsigned Integer - Present", vec![0xe0, 0x86],
        "ConstantOperatorOptional", Some(Value::UInt32(7)));
}

#[test]
fn decode_encode_default_operator() {
    do_test(DEFINITION, "Mandatory Unsigned Integer Default", vec![0xc0, 0x87],
        "DefaultOperatorMandatory", Some(Value::UInt32(7)));
    do_test(DEFINITION, "Mandatory Unsigned Integer Value", vec![0xe0, 0x87, 0x81],
        "DefaultOperatorMandatory", Some(Value::UInt32(1)));
    do_test(DEFINITION, "Mandatory Unsigned Integer Optional", vec![0xc0, 0x88],
        "DefaultOperatorOptional", None);
}

#[test]
fn decode_encode_copy_operator() {
    do_test_seq(DEFINITION, "Mandatory String",
        vec![
            vec![0xe0, 0x89, 0x43, 0x4d, 0xc5],
            vec![0x80],
            vec![0xa0, 0x49, 0x53, 0xc5],
        ],
        vec![
            ("CopyOperatorMandatory".to_string(), Some(Value::ASCIIString("CME".to_string()))),
            ("CopyOperatorMandatory".to_string(), Some(Value::ASCIIString("CME".to_string()))),
            ("CopyOperatorMandatory".to_string(), Some(Value::ASCIIString("ISE".to_string()))),
        ]);
    do_test_seq(DEFINITION, "Optional String",
        vec![
            vec![0xc0, 0x8a],
            vec![0xa0, 0x43, 0x4d, 0xc5],
            vec![0xa0, 0x80],
            vec![0xa0, 0x43, 0x4d, 0xc5],
        ],
        vec![
            ("CopyOperatorOptional".to_string(), None),
            ("CopyOperatorOptional".to_string(), Some(Value::ASCIIString("CME".to_string()))),
            ("CopyOperatorOptional".to_string(), None),
            ("CopyOperatorOptional".to_string(), Some(Value::ASCIIString("CME".to_string()))),
        ]);
}

#[test]
fn decode_encode_increment_operator() {
    do_test_seq(DEFINITION, "Mandatory Unsigned Integer",
        vec![
            vec![0xe0, 0x8b, 0x80],
            vec![0x80],
            vec![0x80],
            vec![0xa0, 0x84],
            vec![0x80],
        ],
        vec![
            ("IncrementOperatorMandatory".to_string(), Some(Value::UInt32(0))),
            ("IncrementOperatorMandatory".to_string(), Some(Value::UInt32(1))),
            ("IncrementOperatorMandatory".to_string(), Some(Value::UInt32(2))),
            ("IncrementOperatorMandatory".to_string(), Some(Value::UInt32(4))),
            ("IncrementOperatorMandatory".to_string(), Some(Value::UInt32(5))),
        ]);
}

#[test]
fn decode_encode_delta_operator() {
    do_test_seq(DEFINITION, "Mandatory Signed Integer",
        vec![
            vec![0xc0, 0x8c, 0x39, 0x45, 0xa3],
            vec![0x80, 0xfb],
            vec![0x80, 0xfb],
            vec![0x80, 0x80],
        ],
        vec![
            ("DeltaOperatorMandatorySignedInteger".to_string(), Some(Value::Int32(942755))),
            ("DeltaOperatorMandatorySignedInteger".to_string(), Some(Value::Int32(942750))),
            ("DeltaOperatorMandatorySignedInteger".to_string(), Some(Value::Int32(942745))),
            ("DeltaOperatorMandatorySignedInteger".to_string(), Some(Value::Int32(942745))),
        ]);
    do_test_seq(DEFINITION, "Mandatory Decimal",
        vec![
            vec![0xc0, 0x8d, 0xfe, 0x39, 0x45, 0xa3],
            vec![0x80, 0x80, 0xfc],
            vec![0x80, 0x80, 0xfb],
        ],
        vec![
            ("DeltaOperatorMandatoryDecimal".to_string(), dec(-2, 942755)),
            ("DeltaOperatorMandatoryDecimal".to_string(), dec(-2, 942751)),
            ("DeltaOperatorMandatoryDecimal".to_string(), dec(-2, 942746)),
        ]);
    do_test_seq(DEFINITION, "Mandatory Decimal with Initial Value",
        vec![
            vec![0xc0, 0x8e, 0x80, 0x80],
            vec![0x80, 0xff, 0x00, 0xed],
            vec![0x80, 0xff, 0x08, 0xc6],
            vec![0x80, 0x80, 0x81],
        ],
        vec![
            ("DeltaOperatorMandatoryDecimalWithInit".to_string(), dec(3, 12)),
            ("DeltaOperatorMandatoryDecimalWithInit".to_string(), dec(2, 121)),
            ("DeltaOperatorMandatoryDecimalWithInit".to_string(), dec(1, 1215)),
            ("DeltaOperatorMandatoryDecimalWithInit".to_string(), dec(1, 1216)),
        ]);
    do_test_seq(DEFINITION, "Mandatory String",
        vec![
            vec![0xc0, 0x8f, 0x80, 0x47, 0x45, 0x48, 0xb6],
            vec![0x80, 0x82, 0x4d, 0xb6],
            vec![0x80, 0xfd, 0x45, 0xd3],
            vec![0x80, 0xff, 0x52, 0xd3],
        ],
        vec![
            ("DeltaOperatorMandatoryString".to_string(), Some(Value::ASCIIString("GEH6".to_string()))),
            ("DeltaOperatorMandatoryString".to_string(), Some(Value::ASCIIString("GEM6".to_string()))),
            ("DeltaOperatorMandatoryString".to_string(), Some(Value::ASCIIString("ESM6".to_string()))),
            ("DeltaOperatorMandatoryString".to_string(), Some(Value::ASCIIString("RSESM6".to_string()))),
        ]);
}

#[test]
fn decode_encode_multiple_pmap() {
    do_test_seq(DEFINITION, "Multiple PMap Slot",
        vec![
            vec![0xf0, 0x90, 0xfe, 0x39, 0x45, 0xa3],
            vec![0x90, 0x39, 0x45, 0xa9],
            vec![0xa0, 0x80],
        ],
        vec![
            ("MultiplePMapSlot".to_string(), dec(-2, 942755)),
            ("MultiplePMapSlot".to_string(), dec(-2, 942761)),
            ("MultiplePMapSlot".to_string(), None),
        ]);
}
