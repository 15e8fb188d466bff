//! Operator state machines over message sequences: the none operator leaves
//! the dictionaries alone, default falls back and overrides, and tail
//! replaces suffixes against previous values.
use fastlib::{Decoder, Encoder, Error, MessageFactory, MessageVisitor, Value};

const DEFINITION: &str = r#"<?xml version="1.0" encoding="UTF-8"?>
<templates xmlns="http://www.fixprotocol.org/ns/fast/td/1.1">
    <template id="1" name="Mandatory">
        <uInt32 id="1" name="Value"/>
    </template>
    <template id="3" name="MandatoryCopy">
        <uInt32 id="3" name="Value"><copy/></uInt32>
    </template>
    <template id="7" name="MandatoryDefault">
        <uInt32 id="7" name="Value"><default value="4"/></uInt32>
    </template>
    <template id="8" name="OptionalDefaultNone">
        <uInt32 id="8" name="Value" presence="optional"><default/></uInt32>
    </template>
    <template id="9" name="OptionalDefaultValue">
        <uInt32 id="9" name="Value" presence="optional"><default value="4"/></uInt32>
    </template>
    <template id="10" name="MandatoryTail">
        <string id="10" name="Value"><tail/></string>
    </template>
    <template id="11" name="OptionalTail">
        <string id="11" name="Value" presence="optional"><tail/></string>
    </template>
    <template id="12" name="OptionalTailDefault">
        <string id="12" name="Value" presence="optional"><tail value="ABC"/></string>
    </template>
</templates>"#;

struct Capture {
    template: String,
    value: Option<Value>,
}

impl MessageFactory for Capture {
    fn start_template(&mut self, _id: u32, name: &str) {
        self.template = name.to_string();
        self.value = None;
    }
    fn stop_template(&mut self) {}
    fn set_value(&mut self, _id: u32, _name: &str, value: Option<Value>) {
        self.value = value;
    }
    fn start_sequence(&mut self, _id: u32, _name: &str, _length: u32) {}
    fn start_sequence_item(&mut self, _index: u32) {}
    fn stop_sequence_item(&mut self) {}
    fn stop_sequence(&mut self) {}
    fn start_group(&mut self, _name: &str) {}
    fn stop_group(&mut self) {}
    fn start_template_ref(&mut self, _name: &str, _dynamic: bool) {}
    fn stop_template_ref(&mut self) {}
}

struct Source {
    template: String,
    value: Option<Value>,
}

impl MessageVisitor for Source {
    fn get_template_name(&mut self) -> Result<String, Error> {
        Ok(self.template.clone())
    }
    fn get_value(&mut self, _name: &str) -> Result<Option<Value>, Error> {
        Ok(self.value.clone())
    }
    fn select_group(&mut self, _name: &str) -> Result<bool, Error> {
        Ok(false)
    }
    fn release_group(&mut self) -> Result<(), Error> {
        Ok(())
    }
    fn select_sequence(&mut self, _name: &str) -> Result<Option<u32>, Error> {
        Ok(None)
    }
    fn select_sequence_item(&mut self, _index: u32) -> Result<(), Error> {
        Ok(())
    }
    fn release_sequence_item(&mut self) -> Result<(), Error> {
        Ok(())
    }
    fn release_sequence(&mut self) -> Result<(), Error> {
        Ok(())
    }
    fn select_template_ref(&mut self, _name: &str, _dynamic: bool) -> Result<Option<String>, Error> {
        Ok(None)
    }
    fn release_template_ref(&mut self) -> Result<(), Error> {
        Ok(())
    }
}

fn do_test_seq(name: &str, raws: Vec<Vec<u8>>, data: Vec<(&str, Option<Value>)>) {
    assert_eq!(raws.len(), data.len(), "{name}: case size mismatch");
    let mut decoder = Decoder::new_from_xml(DEFINITION).unwrap();
    for (raw, (template, value)) in raws.iter().zip(data.iter()) {
        let mut capture = Capture { template: String::new(), value: None };
        decoder.decode_vec(raw.clone(), &mut capture).unwrap();
        assert_eq!(&capture.template, template, "{name}: template mismatch");
        assert_eq!(&capture.value, value, "{name}: value mismatch");
    }
    let mut encoder = Encoder::new_from_xml(DEFINITION).unwrap();
    for (raw, (template, value)) in raws.iter().zip(data.iter()) {
        let mut source = Source { template: template.to_string(), value: value.clone() };
        let bytes = encoder.encode_vec(&mut source).unwrap();
        assert_eq!(&bytes, raw, "{name}: encoded bytes mismatch");
    }
}

#[test]
fn operator_none_context() {
    // a field with no operator must not write its value to the dictionary
    do_test_seq("NONE operator context",
        vec![
            vec![0xc0, 0x81, 0x84],
            vec![0xe0, 0x83, 0x84],
            vec![0x80],
            vec![0xc0, 0x81, 0x85],
            vec![0xc0, 0x83],
        ],
        vec![
            ("Mandatory", Some(Value::UInt32(4))),
            ("MandatoryCopy", Some(Value::UInt32(4))),
            ("MandatoryCopy", Some(Value::UInt32(4))),
            ("Mandatory", Some(Value::UInt32(5))),
            ("MandatoryCopy", Some(Value::UInt32(4))),
        ]);
}

#[test]
fn operator_default() {
    do_test_seq("DEFAULT operator",
        vec![
            vec![0xc0, 0x87],
            vec![0xa0, 0x85],
            vec![0xc0, 0x88],
            vec![0xa0, 0x85],
            vec![0xe0, 0x89, 0x80],
            vec![0x80],
            vec![0xa0, 0x86],
        ],
        vec![
            ("MandatoryDefault", Some(Value::UInt32(4))),
            ("MandatoryDefault", Some(Value::UInt32(5))),
            ("OptionalDefaultNone", None),
            ("OptionalDefaultNone", Some(Value::UInt32(4))),
            ("OptionalDefaultValue", None),
            ("OptionalDefaultValue", Some(Value::UInt32(4))),
            ("OptionalDefaultValue", Some(Value::UInt32(5))),
        ]);
}

#[test]
fn operator_tail() {
    do_test_seq("TAIL operator (mandatory)",
        vec![
            vec![0xe0, 0x8a, 0x41, 0x42, 0xc3],
            vec![0xa0, 0xda],
            vec![0xa0, 0x41, 0x42, 0x5a, 0xd9],
            vec![0x80],
        ],
        vec![
            ("MandatoryTail", Some(Value::ASCIIString("ABC".to_string()))),
            ("MandatoryTail", Some(Value::ASCIIString("ABZ".to_string()))),
            ("MandatoryTail", Some(Value::ASCIIString("ABZY".to_string()))),
            ("MandatoryTail", Some(Value::ASCIIString("ABZY".to_string()))),
        ]);
    do_test_seq("TAIL operator (optional)",
        vec![
            vec![0xc0, 0x8b],
            vec![0xa0, 0x41, 0x42, 0xc3],
            vec![0xa0, 0x59, 0xd9],
            vec![0x80],
            vec![0xa0, 0x80],
        ],
        vec![
            ("OptionalTail", None),
            ("OptionalTail", Some(Value::ASCIIString("ABC".to_string()))),
            ("OptionalTail", Some(Value::ASCIIString("AYY".to_string()))),
            ("OptionalTail", Some(Value::ASCIIString("AYY".to_string()))),
            ("OptionalTail", None),
        ]);
    do_test_seq("TAIL operator (optional with default)",
        vec![
            vec![0xe0, 0x8c, 0x80],
            vec![0x80],
            vec![0xa0, 0x59, 0xd9],
        ],
        vec![
            ("OptionalTailDefault", None),
            ("OptionalTailDefault", Some(Value::ASCIIString("ABC".to_string()))),
            ("OptionalTailDefault", Some(Value::ASCIIString("AYY".to_string()))),
        ]);
}
