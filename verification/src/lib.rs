//! Codec for the FAST (FIX Adapted for STreaming) protocol: a binary,
//! stateful, presence-map-driven compression format for market data.
//!
//! Templates are compiled from an XML definition into an instruction tree;
//! a decoder walks the tree to turn bytes into field events, and an encoder
//! walks it the other way.
mod bytesutil;
mod context;
mod decimal;
mod decoder;
mod encoder;
mod errors;
mod instruction;
mod laws;
mod message;
mod numstr;
mod operators;
mod pmap;
mod reader;
mod stacked;
mod template;
mod text;
mod value;
mod wirespec;
mod writer;
mod xml;

pub use bytesutil::{bytes_delta, bytes_tail, bytes_to_string, hexchar2byte, str_eq, string_delta, string_tail, string_to_bytes};
pub use context::{Context, DictionaryType};
pub use crate::decimal::{decimal_normalize, Decimal};
pub use decoder::{Decoder, DecodeScopes};
pub use encoder::Encoder;
pub use errors::Error;
pub use message::{MessageFactory, MessageVisitor};
pub use operators::{copy_from_previous, delta_base, increment_from_previous, tail_base, tail_from_previous};
pub use instruction::{Dictionary, Instruction, Operator, Presence, TypeRef};
pub use laws::{lemma_decimal_render_parse_round_trip, lemma_int_round_trip, lemma_pmap_round_trip, lemma_seq_delta_round_trip, lemma_seq_tail_round_trip, lemma_uint_round_trip, lemma_value_delta_round_trip, lemma_value_tail_round_trip};
pub use pmap::PresenceMap;
pub use reader::ByteReader;
pub use writer::ByteWriter;
pub use stacked::Stacked;
pub use template::{Definitions, Template};
pub use text::{value_json, value_text, JsonMessageFactory, TextMessageFactory};
pub use value::{Value, ValueType, ValueV};
pub use xml::XmlElement;
