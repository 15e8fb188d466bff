//! Message factories that render decoded messages as text.
//!
//! `TextMessageFactory` builds a compact `name=<field=value|...>` line;
//! `JsonMessageFactory` builds a JSON object.  Both implement the sink
//! interface the decoder drives.
use vstd::prelude::*;

use crate::bytesutil::{bytes_to_string, hex_of};
use crate::decimal::{spec_decimal_bytes, spec_decimal_display_bytes};
use crate::message::{Event, MessageFactory};
use crate::numstr::{bytes_as_chars, dec_digits, i64_to_string, int_digits, u64_to_string};
use crate::value::{Value, ValueV};
use vstd::string::StringExecFns;

verus! {

/// The plain-text rendering of one field value.
pub open spec fn spec_value_text(v: ValueV) -> Seq<char> {
    match v {
        ValueV::UInt32(x) => bytes_as_chars(dec_digits(x as nat)),
        ValueV::Int32(x) => bytes_as_chars(int_digits(x as int)),
        ValueV::UInt64(x) => bytes_as_chars(dec_digits(x as nat)),
        ValueV::Int64(x) => bytes_as_chars(int_digits(x as int)),
        ValueV::Decimal(e, m) => bytes_as_chars(spec_decimal_bytes(e, m)),
        ValueV::Ascii(s) => s,
        ValueV::Unicode(s) => s,
        ValueV::Bytes(b) => bytes_as_chars(hex_of(b)),
    }
}

/// The rendering the JSON factory uses: decimals keep an explicit
/// fractional part.
pub open spec fn spec_value_json(v: ValueV) -> Seq<char> {
    match v {
        ValueV::Decimal(e, m) => bytes_as_chars(spec_decimal_display_bytes(e, m)),
        _ => spec_value_text(v),
    }
}

/// Render a value as plain text.
pub fn value_text(v: &Value) -> (r: String)
    ensures
        r@ == spec_value_text(v@),
{
    match v {
        Value::UInt32(x) => u64_to_string(*x as u64),
        Value::Int32(x) => i64_to_string(*x as i64),
        Value::UInt64(x) => u64_to_string(*x),
        Value::Int64(x) => i64_to_string(*x),
        Value::Decimal(d) => d.to_string(),
        Value::ASCIIString(s) => s.clone(),
        Value::UnicodeString(s) => s.clone(),
        Value::Bytes(b) => bytes_to_string(b.as_slice()),
    }
}

/// Render a value for the JSON factory.
pub fn value_json(v: &Value) -> (r: String)
    ensures
        r@ == spec_value_json(v@),
{
    match v {
        Value::Decimal(d) => d.display_string(),
        _ => value_text(v),
    }
}

/// Message factory that renders a message as a human-readable line.
pub struct TextMessageFactory {
    pub text: String,
    pub block_start: bool,
    pub dynamic: Vec<bool>,
    /// The calls received, for the sink's event-log specification.
    pub events: Ghost<Seq<Event>>,
}

impl TextMessageFactory {
    /// A factory with nothing rendered yet.
    pub fn new() -> (r: Self)
        ensures
            r.text@ == Seq::<char>::empty(),
            !r.block_start,
            r.dynamic@.len() == 0,
    {
        Self {
            text: String::new(),
            block_start: false,
            dynamic: Vec::new(),
            events: Ghost(Seq::empty()),
        }
    }

    /// Clear the rendered text; called as each new message starts.
    pub fn reset(&mut self)
        ensures
            final(self).text@ == Seq::<char>::empty(),
            !final(self).block_start,
            final(self).dynamic@.len() == 0,
            final(self).events == old(self).events,
    {
        self.text = String::new();
        self.block_start = false;
        self.dynamic = Vec::new();
    }

    fn delimiter(&mut self)
        ensures
            final(self).block_start == false,
            final(self).dynamic == old(self).dynamic,
            old(self).block_start ==> final(self).text == old(self).text,
            !old(self).block_start ==> final(self).text@ == old(self).text@ + "|"@,
            final(self).events == old(self).events,
    {
        if !self.block_start {
            self.text.append("|");
        } else {
            self.block_start = false;
        }
    }
}

impl MessageFactory for TextMessageFactory {
    open spec fn events(&self) -> Seq<Event> {
        self.events@
    }

    fn start_template(&mut self, id: u32, name: &str) {
        self.events = Ghost(self.events@.push(Event::StartTemplate(id, name@)));
        self.reset();
        self.text.append(name);
        self.text.append("=<");
        self.block_start = true;
    }

    fn stop_template(&mut self) {
        self.events = Ghost(self.events@.push(Event::StopTemplate));
        self.text.append(">");
    }

    fn set_value(&mut self, id: u32, name: &str, value: Option<Value>) {
        self.events = Ghost(
            self.events@.push(
                Event::SetValue(id, name@, crate::context::opt_value_view(value)),
            ),
        );
        match value {
            Some(v) => {
                self.delimiter();
                self.text.append(name);
                self.text.append("=");
                let rendered = value_text(&v);
                self.text.append(rendered.as_str());
            },
            None => {},
        }
    }

    fn start_sequence(&mut self, id: u32, name: &str, length: u32) {
        self.events = Ghost(self.events@.push(Event::StartSequence(id, name@, length)));
        self.delimiter();
        self.text.append(name);
        self.text.append("=");
    }

    fn start_sequence_item(&mut self, index: u32) {
        self.events = Ghost(self.events@.push(Event::StartSequenceItem(index)));
        self.text.append("<");
        self.block_start = true;
    }

    fn stop_sequence_item(&mut self) {
        self.events = Ghost(self.events@.push(Event::StopSequenceItem));
        self.text.append(">");
    }

    fn stop_sequence(&mut self) {
        self.events = Ghost(self.events@.push(Event::StopSequence));
        self.block_start = false;
    }

    fn start_group(&mut self, name: &str) {
        self.events = Ghost(self.events@.push(Event::StartGroup(name@)));
        self.delimiter();
        self.text.append(name);
        self.text.append("=<");
        self.block_start = true;
    }

    fn stop_group(&mut self) {
        self.events = Ghost(self.events@.push(Event::StopGroup));
        self.text.append(">");
        self.block_start = false;
    }

    fn start_template_ref(&mut self, name: &str, dynamic: bool) {
        self.events = Ghost(self.events@.push(Event::StartTemplateRef(name@, dynamic)));
        self.dynamic.push(dynamic);
        if dynamic {
            self.delimiter();
            self.text.append("TemplateReference=<");
            self.text.append(name);
            self.text.append("=<");
            self.block_start = true;
        }
    }

    fn stop_template_ref(&mut self) {
        self.events = Ghost(self.events@.push(Event::StopTemplateRef));
        let dynamic = match self.dynamic.pop() {
            Some(d) => d,
            None => false,
        };
        if dynamic {
            self.text.append(">>");
        }
    }
}

/// Message factory that renders a message as a JSON object.
pub struct JsonMessageFactory {
    pub json: String,
    pub block_start: bool,
    pub dynamic: Vec<bool>,
    /// The calls received, for the sink's event-log specification.
    pub events: Ghost<Seq<Event>>,
}

impl JsonMessageFactory {
    /// A factory with nothing rendered yet.
    pub fn new() -> (r: Self)
        ensures
            r.json@ == Seq::<char>::empty(),
            !r.block_start,
            r.dynamic@.len() == 0,
    {
        Self {
            json: String::new(),
            block_start: false,
            dynamic: Vec::new(),
            events: Ghost(Seq::empty()),
        }
    }

    /// Clear the rendered text; called as each new message starts.
    pub fn reset(&mut self)
        ensures
            final(self).json@ == Seq::<char>::empty(),
            !final(self).block_start,
            final(self).dynamic@.len() == 0,
            final(self).events == old(self).events,
    {
        self.json = String::new();
        self.block_start = false;
        self.dynamic = Vec::new();
    }

    fn delimiter(&mut self)
        ensures
            final(self).block_start == false,
            final(self).dynamic == old(self).dynamic,
            old(self).block_start ==> final(self).json == old(self).json,
            !old(self).block_start ==> final(self).json@ == old(self).json@ + ","@,
            final(self).events == old(self).events,
    {
        if !self.block_start {
            self.json.append(",");
        } else {
            self.block_start = false;
        }
    }
}

impl MessageFactory for JsonMessageFactory {
    open spec fn events(&self) -> Seq<Event> {
        self.events@
    }

    fn start_template(&mut self, id: u32, name: &str) {
        self.events = Ghost(self.events@.push(Event::StartTemplate(id, name@)));
        self.reset();
        self.json.append("{\"");
        self.json.append(name);
        self.json.append("\":{");
        self.block_start = true;
    }

    fn stop_template(&mut self) {
        self.events = Ghost(self.events@.push(Event::StopTemplate));
        self.json.append("}}");
    }

    fn set_value(&mut self, id: u32, name: &str, value: Option<Value>) {
        self.events = Ghost(
            self.events@.push(
                Event::SetValue(id, name@, crate::context::opt_value_view(value)),
            ),
        );
        match value {
            Some(v) => {
                self.delimiter();
                self.json.append("\"");
                self.json.append(name);
                self.json.append("\":");
                let quoted = match &v {
                    Value::ASCIIString(_) => true,
                    Value::UnicodeString(_) => true,
                    _ => false,
                };
                if quoted {
                    self.json.append("\"");
                }
                let rendered = value_json(&v);
                self.json.append(rendered.as_str());
                if quoted {
                    self.json.append("\"");
                }
            },
            None => {},
        }
    }

    fn start_sequence(&mut self, id: u32, name: &str, length: u32) {
        self.events = Ghost(self.events@.push(Event::StartSequence(id, name@, length)));
        self.delimiter();
        self.json.append("\"");
        self.json.append(name);
        self.json.append("\":[");
        self.block_start = true;
    }

    fn start_sequence_item(&mut self, index: u32) {
        self.events = Ghost(self.events@.push(Event::StartSequenceItem(index)));
        self.delimiter();
        self.json.append("{");
        self.block_start = true;
    }

    fn stop_sequence_item(&mut self) {
        self.events = Ghost(self.events@.push(Event::StopSequenceItem));
        self.json.append("}");
    }

    fn stop_sequence(&mut self) {
        self.events = Ghost(self.events@.push(Event::StopSequence));
        self.json.append("]");
        self.block_start = false;
    }

    fn start_group(&mut self, name: &str) {
        self.events = Ghost(self.events@.push(Event::StartGroup(name@)));
        self.delimiter();
        self.json.append("\"");
        self.json.append(name);
        self.json.append("\":{");
        self.block_start = true;
    }

    fn stop_group(&mut self) {
        self.events = Ghost(self.events@.push(Event::StopGroup));
        self.json.append("}");
        self.block_start = false;
    }

    fn start_template_ref(&mut self, name: &str, dynamic: bool) {
        self.events = Ghost(self.events@.push(Event::StartTemplateRef(name@, dynamic)));
        self.dynamic.push(dynamic);
        if dynamic {
            self.delimiter();
            self.json.append("\"TemplateReference\":{\"");
            self.json.append(name);
            self.json.append("\":{");
            self.block_start = true;
        }
    }

    fn stop_template_ref(&mut self) {
        self.events = Ghost(self.events@.push(Event::StopTemplateRef));
        let dynamic = match self.dynamic.pop() {
            Some(d) => d,
            None => false,
        };
        if dynamic {
            self.json.append("}}");
        }
    }
}

} // verus!
