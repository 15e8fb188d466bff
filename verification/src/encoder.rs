//! The encoder: the tree walker that turns one message into bytes.
//!
//! Encoding mirrors decoding: the walker pulls values from a message
//! source, runs each field's operator against the dictionaries, and stages
//! every segment's body in its own buffer — the presence map of a segment
//! is known only after its fields are encoded, so the map is spliced in
//! front when the segment closes.  A depth budget bounds dynamic template
//! references, which would otherwise recurse as deep as the source asks.
use vstd::prelude::*;

use crate::context::Context;
use crate::decoder::{
    scopes_restored, spec_increment_post, spec_increment_result, spec_instr_slot, spec_replay_post,
    spec_replay_result, spec_resolved_scope, DecodeScopes,
};
use crate::errors::Error;
use crate::instruction::{instr_wf, instrs_wf, lemma_instrs_wf_index, Dictionary, Instruction,
    Operator, Presence, TypeRef};
use crate::message::MessageVisitor;
use crate::operators::{
    copy_from_previous, delta_base, increment_from_previous, tail_base, tail_from_previous,
};
use crate::pmap::PresenceMap;
use crate::stacked::Stacked;
use crate::template::{
    instr_refs_ranked, instrs_refs_ranked, lemma_instrs_refs_ranked_index, tpl_names, Definitions,
};
use crate::value::{Value, ValueType, ValueV};
use crate::writer::{ascii_str_enc, ByteWriter};
use vstd::string::StrSliceExecFns;

verus! {

/// How deep dynamic template references may nest in one message.
pub const MAX_REF_DEPTH: u32 = 64;

/// Encoder for FAST protocol messages: the compiled templates and the
/// cross-message dictionary store.
pub struct Encoder {
    pub definitions: Definitions,
    pub context: Context,
}

impl Encoder {
    /// Compile the templates and start with an empty dictionary store.
    pub fn new_from_xml(text: &str) -> (r: Result<Encoder, Error>)
        ensures
            match r {
                Ok(d) => d.definitions.wf() && d.context@ == crate::context::empty_store_model(),
                Err(_) => true,
            },
    {
        let definitions = match Definitions::new_from_xml(text) {
            Ok(d) => d,
            Err(e) => {
                return Err(e);
            },
        };
        Ok(Encoder { definitions, context: Context::new() })
    }

    /// Drop every previous value; the templates stay.
    pub fn reset(&mut self)
        ensures
            final(self).context@ == crate::context::empty_store_model(),
            final(self).definitions == old(self).definitions,
    {
        self.context.reset();
    }

    /// Encode one message pulled from the source into a byte vector.
    /// On success at least the outer segment's presence map stands in the
    /// returned bytes, so an encoded message is never empty.  Dynamic
    /// template references nest at most [`MAX_REF_DEPTH`] deep; past that
    /// the encode fails rather than recurse without bound.
    pub fn encode_vec<V: MessageVisitor>(&mut self, msg: &mut V) -> (r: Result<Vec<u8>, Error>)
        requires
            old(self).definitions.wf(),
        ensures
            final(self).definitions == old(self).definitions,
            r is Ok ==> r->Ok_0@.len() >= 1,
    {
        let mut out = ByteWriter::new();
        match encode_template(&self.definitions, &mut self.context, msg, &mut out) {
            Ok(_) => Ok(out.buf),
            Err(e) => Err(e),
        }
    }
}

/// Whether two optional values are structurally equal.
fn opt_equal(a: &Option<Value>, b: &Option<Value>) -> (r: bool)
    ensures
        r == (crate::context::opt_value_view(*a) == crate::context::opt_value_view(*b)),
{
    match (a, b) {
        (Some(x), Some(y)) => x.equals(y),
        (None, None) => true,
        _ => false,
    }
}

/// Append one bit to the current segment's presence map.
fn pmap_set_bit(scopes: &mut DecodeScopes, value: bool) -> (r: Result<(), Error>)
    ensures
        final(scopes).template_id == old(scopes).template_id,
        final(scopes).dictionary == old(scopes).dictionary,
        final(scopes).type_ref == old(scopes).type_ref,
        final(scopes).presence_map.stack@ == old(scopes).presence_map.stack@,
        final(scopes).presence_map.current is Some <==> old(scopes).presence_map.current is Some,
        old(scopes).wf() ==> final(scopes).wf(),
{
    let slot = scopes.presence_map.peek_mut();
    match slot {
        Some(pm) => {
            if pm.size > 0xffff_fff0u32 {
                return Err(Error::Runtime("presence map overflow".to_owned()));
            }
            pm.set_next_bit(value);
            Ok(())
        },
        None => Err(Error::Runtime("no presence map".to_owned())),
    }
}

/// The wire bytes a primitive value occupies, by kind and nullability:
/// the canonical stop-bit encodings of wirespec, with the nullable shift.
/// `None` for the kinds (composites, decimal) whose bytes stack up from
/// their parts.
pub open spec fn spec_value_bytes(vt: ValueType, nullable: bool, vv: Option<ValueV>) -> Option<
    Seq<u8>,
> {
    match (vt, vv) {
        (ValueType::UInt32, Some(ValueV::UInt32(x))) | (
            ValueType::Length,
            Some(ValueV::UInt32(x)),
        ) => Some(
            if nullable {
                crate::wirespec::uint_enc(x as nat + 1)
            } else {
                crate::wirespec::uint_enc(x as nat)
            },
        ),
        (ValueType::UInt64, Some(ValueV::UInt64(x))) => Some(
            if nullable {
                crate::wirespec::uint_enc(x as nat + 1)
            } else {
                crate::wirespec::uint_enc(x as nat)
            },
        ),
        (ValueType::Int32, Some(ValueV::Int32(x))) | (
            ValueType::Exponent,
            Some(ValueV::Int32(x)),
        ) => Some(
            if nullable && x >= 0 {
                crate::wirespec::int_enc(x as int + 1)
            } else {
                crate::wirespec::int_enc(x as int)
            },
        ),
        (ValueType::Int64, Some(ValueV::Int64(x))) | (
            ValueType::Mantissa,
            Some(ValueV::Int64(x)),
        ) => Some(
            if nullable && x >= 0 {
                crate::wirespec::int_enc(x as int + 1)
            } else {
                crate::wirespec::int_enc(x as int)
            },
        ),
        (ValueType::ASCIIString, Some(ValueV::Ascii(cs))) => Some(
            if nullable {
                ascii_str_enc(cs, seq![0u8, 128u8])
            } else {
                ascii_str_enc(cs, seq![128u8])
            },
        ),
        (ValueType::UnicodeString, Some(ValueV::Unicode(cs))) => {
            let b = vstd::utf8::encode_utf8(cs);
            Some(
                if nullable {
                    crate::wirespec::uint_enc(b.len() + 1) + b
                } else {
                    crate::wirespec::uint_enc(b.len()) + b
                },
            )
        },
        (ValueType::Bytes, Some(ValueV::Bytes(b))) => Some(
            if nullable {
                crate::wirespec::uint_enc(b.len() + 1) + b
            } else {
                crate::wirespec::uint_enc(b.len()) + b
            },
        ),
        (_, None) => if nullable {
            match vt {
                ValueType::UInt32 | ValueType::Length | ValueType::UInt64
                    | ValueType::UnicodeString | ValueType::Bytes => Some(
                    crate::wirespec::uint_enc(0),
                ),
                ValueType::Int32 | ValueType::Exponent | ValueType::Int64
                    | ValueType::Mantissa => Some(crate::wirespec::int_enc(0)),
                ValueType::ASCIIString => Some(seq![128u8]),
                _ => None,
            }
        } else {
            None
        },
        _ => None,
    }
}

/// Write one wire value of the instruction's kind, honouring nullability;
/// a decimal value splits into its subcomponents, each through its own
/// operator.
fn write_value(
    ctx: &mut Context,
    wrt: &mut ByteWriter,
    scopes: &mut DecodeScopes,
    instr: &Instruction,
    value: &Option<Value>,
) -> (r: Result<(), Error>)
    requires
        instr_wf(*instr),
        old(scopes).wf(),
    ensures
        scopes_restored(*old(scopes), *final(scopes)),
        !(instr.value_type is Decimal) ==> final(ctx)@ == old(ctx)@,
        instr.value_type is Decimal && instr.instructions@[0].operator is NoOp
            && instr.instructions@[1].operator is NoOp ==> final(ctx)@ == old(ctx)@,
        r is Ok && !(instr.value_type is Decimal) ==> spec_value_bytes(
            instr.value_type,
            !(instr.operator is Constant) && instr.presence is Optional,
            crate::context::opt_value_view(*value),
        ) is Some && final(wrt).buf@ == old(wrt).buf@ + spec_value_bytes(
            instr.value_type,
            !(instr.operator is Constant) && instr.presence is Optional,
            crate::context::opt_value_view(*value),
        )->0,
    decreases *instr, 0int,
{
    let nullable = instr.is_nullable();
    match value {
        None => {
            if !nullable {
                return Err(Error::Dynamic("missing mandatory value".to_owned()));
            }
            match instr.value_type {
                ValueType::UInt32 | ValueType::Length | ValueType::UInt64 => wrt
                    .write_uint_nullable(None),
                ValueType::Int32 | ValueType::Int64 | ValueType::Exponent
                    | ValueType::Mantissa => wrt.write_int_nullable(None),
                ValueType::ASCIIString => {
                    match wrt.write_ascii_string_nullable(None) {
                        Ok(_) => {},
                        Err(e) => {
                            return Err(e);
                        },
                    }
                },
                ValueType::UnicodeString => wrt.write_unicode_string_nullable(None),
                ValueType::Bytes => wrt.write_bytes_nullable(None),
                ValueType::Decimal => {
                    // the absent decimal is carried by its nullable exponent
                    proof {
                        assert(instr_wf(instr.instructions@[0]));
                    }
                    match inject(ctx, wrt, scopes, &instr.instructions[0], &None) {
                        Ok(_) => {},
                        Err(e) => {
                            return Err(e);
                        },
                    }
                },
                _ => {
                    return Err(Error::Runtime("composite cannot be written".to_owned()));
                },
            }
            Ok(())
        },
        Some(v) => {
            match (instr.value_type, v) {
                (ValueType::UInt32, Value::UInt32(x)) | (ValueType::Length, Value::UInt32(x)) => {
                    if nullable {
                        wrt.write_uint_nullable(Some(*x as u64));
                    } else {
                        wrt.write_uint(*x as u64);
                    }
                    Ok(())
                },
                (ValueType::UInt64, Value::UInt64(x)) => {
                    if nullable {
                        if *x == 0xffff_ffff_ffff_ffffu64 {
                            return Err(
                                Error::Dynamic("optional uInt64 value is out of range".to_owned()),
                            );
                        }
                        wrt.write_uint_nullable(Some(*x));
                    } else {
                        wrt.write_uint(*x);
                    }
                    Ok(())
                },
                (ValueType::Int32, Value::Int32(x)) | (ValueType::Exponent, Value::Int32(x)) => {
                    if nullable {
                        wrt.write_int_nullable(Some(*x as i64));
                    } else {
                        wrt.write_int(*x as i64);
                    }
                    Ok(())
                },
                (ValueType::Int64, Value::Int64(x)) | (ValueType::Mantissa, Value::Int64(x)) => {
                    if nullable {
                        if *x == 0x7fff_ffff_ffff_ffffi64 {
                            return Err(
                                Error::Dynamic("optional int64 value is out of range".to_owned()),
                            );
                        }
                        wrt.write_int_nullable(Some(*x));
                    } else {
                        wrt.write_int(*x);
                    }
                    Ok(())
                },
                (ValueType::ASCIIString, Value::ASCIIString(s)) => {
                    let r = if nullable {
                        wrt.write_ascii_string_nullable(Some(s.as_str()))
                    } else {
                        wrt.write_ascii_string(s.as_str())
                    };
                    match r {
                        Ok(_) => Ok(()),
                        Err(e) => Err(e),
                    }
                },
                (ValueType::UnicodeString, Value::UnicodeString(s)) => {
                    if nullable {
                        let b = s.as_str().as_bytes();
                        if b.len() >= usize::MAX {
                            return Err(Error::Runtime("string too long".to_owned()));
                        }
                        wrt.write_unicode_string_nullable(Some(s.as_str()));
                    } else {
                        wrt.write_unicode_string(s.as_str());
                    }
                    Ok(())
                },
                (ValueType::Bytes, Value::Bytes(b)) => {
                    if nullable {
                        if b.len() >= usize::MAX {
                            return Err(Error::Runtime("byte vector too long".to_owned()));
                        }
                        wrt.write_bytes_nullable(Some(b.as_slice()));
                    } else {
                        wrt.write_bytes(b.as_slice());
                    }
                    Ok(())
                },
                (ValueType::Decimal, Value::Decimal(d)) => {
                    proof {
                        assert(instr_wf(instr.instructions@[0]));
                        assert(instr_wf(instr.instructions@[1]));
                    }
                    let ev = Some(Value::Int32(d.exponent));
                    match inject(ctx, wrt, scopes, &instr.instructions[0], &ev) {
                        Ok(_) => {},
                        Err(e) => {
                            return Err(e);
                        },
                    }
                    let mv = Some(Value::Int64(d.mantissa));
                    match inject(ctx, wrt, scopes, &instr.instructions[1], &mv) {
                        Ok(_) => {},
                        Err(e) => {
                            return Err(e);
                        },
                    }
                    Ok(())
                },
                _ => Err(Error::Runtime("value kind does not match the field".to_owned())),
            }
        },
    }
}

/// What `inject` does to the previous-value store on success, operator by
/// operator — the encoder's half of §4.5.  When the value the decoder would
/// replay equals the submitted one, copy leaves the store alone while
/// increment and tail apply the decoder's own write; otherwise the
/// submitted value is stored.  The staged bytes stay abstract here.
pub open spec fn spec_inject_post(
    instr: Instruction,
    ctx0: Map<crate::context::SlotKey, Option<ValueV>>,
    ctx1: Map<crate::context::SlotKey, Option<ValueV>>,
    scopes0: DecodeScopes,
    vv: Option<ValueV>,
) -> bool {
    let scope = spec_resolved_scope(scopes0);
    let slot = spec_instr_slot(scopes0, instr);
    let optional = instr.presence is Optional;
    match instr.operator {
        Operator::NoOp => !(instr.value_type is Decimal) ==> ctx1 == ctx0,
        Operator::Constant => ctx1 == ctx0 && match instr.initial_value {
            Some(init) => (vv is Some ==> vv == Some(init@)) && (vv is None ==> optional),
            None => false,
        },
        Operator::Default => ctx1 == ctx0,
        Operator::Copy => scope is Some && {
            if spec_replay_result(ctx0, slot, instr.value_type, instr.initial_value, optional)
                == Some(vv) {
                ctx1 == ctx0
            } else {
                ctx1 == ctx0.insert(slot, vv)
            }
        },
        Operator::Increment => scope is Some && {
            if spec_increment_result(ctx0, slot, instr.value_type, instr.initial_value, optional)
                == Some(vv) {
                spec_increment_post(
                    ctx0,
                    ctx1,
                    slot,
                    instr.value_type,
                    instr.initial_value,
                    optional,
                    Some(vv),
                )
            } else {
                ctx1 == ctx0.insert(slot, vv)
            }
        },
        Operator::Delta => match vv {
            None => ctx1 == ctx0,
            Some(x) => scope is Some && ctx1 == ctx0.insert(slot, Some(x)),
        },
        Operator::Tail => scope is Some && {
            if spec_replay_result(ctx0, slot, instr.value_type, instr.initial_value, optional)
                == Some(vv) {
                spec_replay_post(
                    ctx0,
                    ctx1,
                    slot,
                    instr.value_type,
                    instr.initial_value,
                    optional,
                    Some(vv),
                )
            } else {
                match vv {
                    None => ctx1 == ctx0,
                    Some(x) => ctx1 == ctx0.insert(slot, Some(x)),
                }
            }
        },
    }
}

/// Run the operator pipeline for one primitive or decimal field, writing
/// its wire form and updating the dictionaries as the decoder would.
fn inject(
    ctx: &mut Context,
    wrt: &mut ByteWriter,
    scopes: &mut DecodeScopes,
    instr: &Instruction,
    value: &Option<Value>,
) -> (r: Result<(), Error>)
    requires
        instr_wf(*instr),
        old(scopes).wf(),
    ensures
        scopes_restored(*old(scopes), *final(scopes)),
        instr.operator is NoOp && !(instr.value_type is Decimal) ==> final(ctx)@ == old(ctx)@,
        r is Ok ==> spec_inject_post(
            *instr,
            old(ctx)@,
            final(ctx)@,
            *old(scopes),
            crate::context::opt_value_view(*value),
        ),
    decreases *instr, 1int,
{
    match instr.operator {
        Operator::NoOp => write_value(ctx, wrt, scopes, instr, value),
        Operator::Constant => {
            // nothing stands on the wire; an optional field's presence is
            // its bit, and the value must match the template's constant
            match &instr.initial_value {
                Some(init) => {
                    match value {
                        Some(v) => {
                            if !v.equals(init) {
                                return Err(
                                    Error::Dynamic("value differs from the constant".to_owned()),
                                );
                            }
                            if instr.is_optional() {
                                match pmap_set_bit(scopes, true) {
                                    Ok(_) => {},
                                    Err(e) => {
                                        return Err(e);
                                    },
                                }
                            }
                            Ok(())
                        },
                        None => {
                            if !instr.is_optional() {
                                return Err(
                                    Error::Dynamic("missing mandatory constant value".to_owned()),
                                );
                            }
                            pmap_set_bit(scopes, false)
                        },
                    }
                },
                None => Err(Error::Runtime("constant operator has no initial value".to_owned())),
            }
        },
        Operator::Default => {
            let matches_default = match &instr.initial_value {
                Some(init) => opt_equal(value, &Some(init.clone_value())),
                None => match value {
                    None => true,
                    Some(_) => false,
                },
            };
            if matches_default {
                pmap_set_bit(scopes, false)
            } else {
                match pmap_set_bit(scopes, true) {
                    Ok(_) => {},
                    Err(e) => {
                        return Err(e);
                    },
                }
                write_value(ctx, wrt, scopes, instr, value)
            }
        },
        Operator::Copy => {
            let prev = match crate::decoder::ctx_get_checked(ctx, scopes, instr) {
                Ok(p) => p,
                Err(e) => {
                    return Err(e);
                },
            };
            // the value the decoder would produce without a bit set
            let expected: Option<Option<Value>> = match copy_from_previous(
                prev,
                &instr.initial_value,
                instr.is_optional(),
            ) {
                Ok((v, _)) => Some(v),
                Err(_) => None,
            };
            let same = match &expected {
                Some(v) => opt_equal(value, v),
                None => false,
            };
            if same {
                pmap_set_bit(scopes, false)
            } else {
                match pmap_set_bit(scopes, true) {
                    Ok(_) => {},
                    Err(e) => {
                        return Err(e);
                    },
                }
                match write_value(ctx, wrt, scopes, instr, value) {
                    Ok(_) => {},
                    Err(e) => {
                        return Err(e);
                    },
                }
                crate::decoder::ctx_set_value(ctx, scopes, instr, value)
            }
        },
        Operator::Increment => {
            let prev = match crate::decoder::ctx_get_checked(ctx, scopes, instr) {
                Ok(p) => p,
                Err(e) => {
                    return Err(e);
                },
            };
            // the value and store the decoder would produce without a bit
            let computed = match increment_from_previous(
                prev,
                &instr.initial_value,
                instr.is_optional(),
            ) {
                Ok(x) => Some(x),
                Err(_) => None,
            };
            let same = match &computed {
                Some((v, _)) => opt_equal(value, v),
                None => false,
            };
            if same {
                match computed {
                    Some((_, w)) => {
                        match crate::decoder::ctx_apply_write(ctx, scopes, instr, w) {
                            Ok(_) => {},
                            Err(e) => {
                                return Err(e);
                            },
                        }
                    },
                    None => {},
                }
                pmap_set_bit(scopes, false)
            } else {
                match pmap_set_bit(scopes, true) {
                    Ok(_) => {},
                    Err(e) => {
                        return Err(e);
                    },
                }
                match write_value(ctx, wrt, scopes, instr, value) {
                    Ok(_) => {},
                    Err(e) => {
                        return Err(e);
                    },
                }
                crate::decoder::ctx_set_value(ctx, scopes, instr, value)
            }
        },
        Operator::Delta => {
            match value {
                None => {
                    if !instr.is_optional() {
                        return Err(Error::Dynamic("missing mandatory value".to_owned()));
                    }
                    // a null delta: the field is absent, dictionaries stay
                    match instr.value_type {
                        ValueType::ASCIIString | ValueType::UnicodeString | ValueType::Bytes
                            | ValueType::UInt32 | ValueType::Int32 | ValueType::UInt64
                            | ValueType::Int64 | ValueType::Length | ValueType::Exponent
                            | ValueType::Mantissa => {
                            wrt.write_int_nullable(None);
                            Ok(())
                        },
                        _ => Err(Error::Runtime("delta is not applicable".to_owned())),
                    }
                },
                Some(v) => {
                    let prev = match crate::decoder::ctx_get_checked(ctx, scopes, instr) {
                        Ok(p) => p,
                        Err(e) => {
                            return Err(e);
                        },
                    };
                    let base = match delta_base(prev, &instr.initial_value, &instr.value_type) {
                        Ok(b) => b,
                        Err(e) => {
                            return Err(e);
                        },
                    };
                    if !delta_findable(v, &base) {
                        return Err(Error::Dynamic("no delta between the values".to_owned()));
                    }
                    let (d, sub) = match v.find_delta(&base) {
                        Ok(x) => x,
                        Err(e) => {
                            return Err(e);
                        },
                    };
                    match write_delta(wrt, instr, &d, sub) {
                        Ok(_) => {},
                        Err(e) => {
                            return Err(e);
                        },
                    }
                    let stored = Some(v.clone_value());
                    crate::decoder::ctx_set_value(ctx, scopes, instr, &stored)
                },
            }
        },
        Operator::Tail => {
            let prev = match crate::decoder::ctx_get_checked(ctx, scopes, instr) {
                Ok(p) => p,
                Err(e) => {
                    return Err(e);
                },
            };
            // the value and store the decoder would produce without a bit
            let computed = match tail_from_previous(prev, &instr.initial_value, instr.is_optional())
                {
                Ok(x) => Some(x),
                Err(_) => None,
            };
            let same = match &computed {
                Some((v, _)) => opt_equal(value, v),
                None => false,
            };
            if same {
                match computed {
                    Some((_, w)) => {
                        match crate::decoder::ctx_apply_write(ctx, scopes, instr, w) {
                            Ok(_) => {},
                            Err(e) => {
                                return Err(e);
                            },
                        }
                    },
                    None => {},
                }
                pmap_set_bit(scopes, false)
            } else {
                match pmap_set_bit(scopes, true) {
                    Ok(_) => {},
                    Err(e) => {
                        return Err(e);
                    },
                }
                match value {
                    None => {
                        if !instr.is_optional() {
                            return Err(Error::Dynamic("missing mandatory value".to_owned()));
                        }
                        // a null tail: absent, dictionaries stay
                        match write_null_tail(wrt, instr) {
                            Ok(_) => {},
                            Err(e) => {
                                return Err(e);
                            },
                        }
                        Ok(())
                    },
                    Some(v) => {
                        let prev2 = match crate::decoder::ctx_get_checked(ctx, scopes, instr) {
                            Ok(p) => p,
                            Err(e) => {
                                return Err(e);
                            },
                        };
                        let base = match tail_base(prev2, &instr.initial_value, &instr.value_type) {
                            Ok(b) => b,
                            Err(e) => {
                                return Err(e);
                            },
                        };
                        if !tail_findable(v, &base) {
                            return Err(Error::Dynamic("no tail between the values".to_owned()));
                        }
                        let t = match v.find_tail(&base) {
                            Ok(t) => t,
                            Err(e) => {
                                return Err(e);
                            },
                        };
                        match write_tail_value(wrt, instr, &t) {
                            Ok(_) => {},
                            Err(e) => {
                                return Err(e);
                            },
                        }
                        let stored = Some(v.clone_value());
                        crate::decoder::ctx_set_value(ctx, scopes, instr, &stored)
                    },
                }
            }
        },
    }
}

/// Whether the encoder can take a delta from `base` to `v`.
fn delta_findable(v: &Value, base: &Value) -> (r: bool)
    ensures
        r == Value::spec_delta_findable(v@, base@),
{
    match (v, base) {
        (Value::UInt32(_), Value::UInt32(_)) => true,
        (Value::Int32(_), Value::Int32(_)) => true,
        (Value::UInt64(x), Value::UInt64(y)) => {
            if x >= y {
                *x - *y <= 0x7fff_ffff_ffff_ffffu64
            } else {
                *y - *x <= 0x8000_0000_0000_0000u64
            }
        },
        (Value::Int64(x), Value::Int64(y)) => {
            if *x >= *y {
                // the difference of two i64 values fits when it stays short
                // of the unsigned top half
                (*x as i128 - *y as i128) <= 0x7fff_ffff_ffff_ffffi128
            } else {
                (*y as i128 - *x as i128) <= 0x8000_0000_0000_0000i128
            }
        },
        (Value::ASCIIString(a), Value::ASCIIString(b)) => a.as_str().is_ascii()
            && b.as_str().is_ascii() && a.as_str().unicode_len() < 0x8000_0000
            && b.as_str().unicode_len() < 0x8000_0000,
        (Value::UnicodeString(a), Value::UnicodeString(b)) => a.as_str().as_bytes().len()
            < 0x8000_0000 && b.as_str().as_bytes().len() < 0x8000_0000,
        (Value::Bytes(a), Value::Bytes(b)) => a.len() < 0x8000_0000 && b.len() < 0x8000_0000,
        _ => false,
    }
}

/// Whether the encoder can take a tail from `base` to `v`.
fn tail_findable(v: &Value, base: &Value) -> (r: bool)
    ensures
        r == Value::spec_tail_findable(v@, base@),
{
    match (v, base) {
        (Value::ASCIIString(a), Value::ASCIIString(b)) => a.as_str().is_ascii()
            && b.as_str().is_ascii(),
        (Value::UnicodeString(_), Value::UnicodeString(_)) => true,
        (Value::Bytes(_), Value::Bytes(_)) => true,
        _ => false,
    }
}

/// Write a transmitted delta: the integer difference, or the subtraction
/// length and the replacement text, each in its canonical stop-bit form.
fn write_delta(wrt: &mut ByteWriter, instr: &Instruction, d: &Value, sub: i32) -> (r: Result<
    (),
    Error,
>)
    ensures
        r is Ok ==> ({
            let nullable = !(instr.operator is Constant) && instr.presence is Optional;
            let sub_enc = if nullable && sub >= 0 {
                crate::wirespec::int_enc(sub as int + 1)
            } else {
                crate::wirespec::int_enc(sub as int)
            };
            match d@ {
                ValueV::Int64(x) => final(wrt).buf@ == old(wrt).buf@ + (if nullable && x >= 0 {
                    crate::wirespec::int_enc(x as int + 1)
                } else {
                    crate::wirespec::int_enc(x as int)
                }),
                ValueV::Ascii(cs) => final(wrt).buf@ == old(wrt).buf@ + sub_enc + ascii_str_enc(
                    cs,
                    seq![128u8],
                ),
                ValueV::Bytes(b) => final(wrt).buf@ == old(wrt).buf@ + sub_enc
                    + crate::wirespec::uint_enc(b.len()) + b,
                _ => false,
            }
        }),
{
    let nullable = instr.is_nullable();
    match d {
        Value::Int64(x) => {
            if nullable {
                if *x == 0x7fff_ffff_ffff_ffffi64 {
                    return Err(Error::Dynamic("optional delta is out of range".to_owned()));
                }
                wrt.write_int_nullable(Some(*x));
            } else {
                wrt.write_int(*x);
            }
            Ok(())
        },
        Value::ASCIIString(s) => {
            if nullable {
                wrt.write_int_nullable(Some(sub as i64));
            } else {
                wrt.write_int(sub as i64);
            }
            match wrt.write_ascii_string(s.as_str()) {
                Ok(_) => Ok(()),
                Err(e) => Err(e),
            }
        },
        Value::Bytes(b) => {
            if nullable {
                wrt.write_int_nullable(Some(sub as i64));
            } else {
                wrt.write_int(sub as i64);
            }
            wrt.write_bytes(b.as_slice());
            Ok(())
        },
        _ => Err(Error::Runtime("delta value has the wrong kind".to_owned())),
    }
}

/// Write the null tail of an absent optional field.
fn write_null_tail(wrt: &mut ByteWriter, instr: &Instruction) -> (r: Result<(), Error>)
    ensures
        r is Ok ==> match instr.value_type {
            ValueType::ASCIIString => final(wrt).buf@ == old(wrt).buf@.push(128u8),
            ValueType::UnicodeString | ValueType::Bytes => final(wrt).buf@ == old(wrt).buf@
                + crate::wirespec::uint_enc(0),
            _ => false,
        },
{
    match instr.value_type {
        ValueType::ASCIIString => {
            match wrt.write_ascii_string_nullable(None) {
                Ok(_) => Ok(()),
                Err(e) => Err(e),
            }
        },
        ValueType::UnicodeString | ValueType::Bytes => {
            wrt.write_bytes_nullable(None);
            Ok(())
        },
        _ => Err(Error::Runtime("tail is not applicable".to_owned())),
    }
}

/// Write a transmitted tail in its wire form.
fn write_tail_value(wrt: &mut ByteWriter, instr: &Instruction, t: &Value) -> (r: Result<(), Error>)
    ensures
        r is Ok ==> ({
            let nullable = !(instr.operator is Constant) && instr.presence is Optional;
            match t@ {
                ValueV::Ascii(cs) => final(wrt).buf@ == old(wrt).buf@ + (if nullable {
                    ascii_str_enc(cs, seq![0u8, 128u8])
                } else {
                    ascii_str_enc(cs, seq![128u8])
                }),
                ValueV::Bytes(b) => final(wrt).buf@ == old(wrt).buf@ + (if nullable {
                    crate::wirespec::uint_enc(b.len() + 1) + b
                } else {
                    crate::wirespec::uint_enc(b.len()) + b
                }),
                _ => false,
            }
        }),
{
    let nullable = instr.is_nullable();
    match t {
        Value::ASCIIString(s) => {
            let r = if nullable {
                wrt.write_ascii_string_nullable(Some(s.as_str()))
            } else {
                wrt.write_ascii_string(s.as_str())
            };
            match r {
                Ok(_) => Ok(()),
                Err(e) => Err(e),
            }
        },
        Value::Bytes(b) => {
            if nullable {
                if b.len() >= usize::MAX {
                    return Err(Error::Runtime("byte vector too long".to_owned()));
                }
                wrt.write_bytes_nullable(Some(b.as_slice()));
            } else {
                wrt.write_bytes(b.as_slice());
            }
            Ok(())
        },
        _ => Err(Error::Runtime("tail value has the wrong kind".to_owned())),
    }
}

/// Push an empty presence map for a fresh segment.
fn push_empty_pmap(scopes: &mut DecodeScopes)
    requires
        old(scopes).wf(),
    ensures
        final(scopes).wf(),
        final(scopes).template_id == old(scopes).template_id,
        final(scopes).dictionary == old(scopes).dictionary,
        final(scopes).type_ref == old(scopes).type_ref,
        final(scopes).presence_map@ == old(scopes).presence_map@.push(
            final(scopes).presence_map@.last(),
        ),
        final(scopes).presence_map.current is Some,
        final(scopes).presence_map.stack@ == old(scopes).presence_map@,
{
    proof {
        assert(old(scopes).presence_map@ =~= match old(scopes).presence_map.current {
            Option::None => old(scopes).presence_map.stack@,
            Option::Some(c) => old(scopes).presence_map.stack@.push(c),
        });
    }
    scopes.presence_map.push(PresenceMap::new_empty());
    proof {
        assert(scopes.presence_map@ == old(scopes).presence_map@.push(
            scopes.presence_map@.last(),
        ));
        assert(scopes.presence_map@.drop_last() =~= old(scopes).presence_map@);
        assert(scopes.presence_map.stack@.push(scopes.presence_map.current->0)
            == scopes.presence_map@);
        assert(scopes.presence_map.stack@ =~= scopes.presence_map@.drop_last());
    }
}

/// Close a segment: pop its presence map and splice its bytes in front of
/// the staged body.
fn close_segment(scopes: &mut DecodeScopes, out: &mut ByteWriter, body: ByteWriter) -> (r: Result<
    (),
    Error,
>)
    requires
        old(scopes).wf(),
        old(scopes).presence_map@.len() > 0,
    ensures
        final(scopes).wf(),
        final(scopes).template_id == old(scopes).template_id,
        final(scopes).dictionary == old(scopes).dictionary,
        final(scopes).type_ref == old(scopes).type_ref,
        final(scopes).presence_map@ == old(scopes).presence_map@.drop_last(),
        r is Ok ==> final(out).buf@.len() > old(out).buf@.len(),
{
    let pm = match scopes.presence_map.pop() {
        Some(pm) => pm,
        None => {
            return Err(Error::Runtime("no presence map".to_owned()));
        },
    };
    match out.write_presence_map(pm.bitmap, pm.size) {
        Ok(_) => {},
        Err(e) => {
            return Err(e);
        },
    }
    out.write_buf(body.buf.as_slice());
    Ok(())
}

/// Encode every instruction of the list from `from` on.
fn encode_instructions<V: MessageVisitor>(
    defs: &Definitions,
    ctx: &mut Context,
    wrt: &mut ByteWriter,
    scopes: &mut DecodeScopes,
    msg: &mut V,
    instrs: &Vec<Instruction>,
    from: usize,
    depth: u32,
    Ghost(rank): Ghost<int>,
) -> (r: Result<(), Error>)
    requires
        defs.wf(),
        instrs_wf(instrs@),
        instrs_refs_ranked(instrs@, tpl_names(defs.templates@), rank),
        0 <= rank <= defs.templates@.len(),
        from <= instrs@.len(),
        old(scopes).wf(),
    ensures
        r is Ok ==> scopes_restored(*old(scopes), *final(scopes)),
        final(scopes).wf(),
    decreases depth, rank, instrs@, 3int,
{
    let mut j: usize = from;
    while j < instrs.len()
        invariant
            defs.wf(),
            instrs_wf(instrs@),
            instrs_refs_ranked(instrs@, tpl_names(defs.templates@), rank),
            0 <= rank <= defs.templates@.len(),
            j <= instrs@.len() || instrs@.len() < from,
            scopes_restored(*old(scopes), *scopes),
            scopes.wf(),
        decreases instrs@.len() - j,
    {
        proof {
            lemma_instrs_wf_index(instrs@, j as int);
            lemma_instrs_refs_ranked_index(instrs@, tpl_names(defs.templates@), rank, j as int);
        }
        match encode_instruction(defs, ctx, wrt, scopes, msg, &instrs[j], depth, Ghost(rank)) {
            Ok(_) => {},
            Err(e) => {
                return Err(e);
            },
        }
        j = j + 1;
    }
    Ok(())
}

/// Encode one instruction, whatever its kind.
fn encode_instruction<V: MessageVisitor>(
    defs: &Definitions,
    ctx: &mut Context,
    wrt: &mut ByteWriter,
    scopes: &mut DecodeScopes,
    msg: &mut V,
    instr: &Instruction,
    depth: u32,
    Ghost(rank): Ghost<int>,
) -> (r: Result<(), Error>)
    requires
        defs.wf(),
        instr_wf(*instr),
        instr_refs_ranked(*instr, tpl_names(defs.templates@), rank),
        0 <= rank <= defs.templates@.len(),
        old(scopes).wf(),
    ensures
        r is Ok ==> scopes_restored(*old(scopes), *final(scopes)),
        final(scopes).wf(),
    decreases depth, rank, *instr, 2int,
{
    match instr.value_type {
        ValueType::Sequence => encode_sequence(defs, ctx, wrt, scopes, msg, instr, depth, Ghost(rank)),
        ValueType::Group => encode_group(defs, ctx, wrt, scopes, msg, instr, depth, Ghost(rank)),
        ValueType::TemplateReference => encode_template_ref(
            defs,
            ctx,
            wrt,
            scopes,
            msg,
            instr,
            depth,
            Ghost(rank),
        ),
        _ => {
            let value = match msg.get_value(instr.name.as_str()) {
                Ok(v) => v,
                Err(e) => {
                    return Err(e);
                },
            };
            let switched = crate::decoder::switch_dictionary(scopes, &instr.dictionary);
            match inject(ctx, wrt, scopes, instr, &value) {
                Ok(_) => {},
                Err(e) => {
                    return Err(e);
                },
            }
            if switched {
                crate::decoder::restore_dictionary(scopes);
                proof {
                    assert(scopes.dictionary@ =~= old(scopes).dictionary@);
                }
            }
            Ok(())
        },
    }
}

/// Encode a group.
fn encode_group<V: MessageVisitor>(
    defs: &Definitions,
    ctx: &mut Context,
    wrt: &mut ByteWriter,
    scopes: &mut DecodeScopes,
    msg: &mut V,
    instr: &Instruction,
    depth: u32,
    Ghost(rank): Ghost<int>,
) -> (r: Result<(), Error>)
    requires
        defs.wf(),
        instr_wf(*instr),
        instr.value_type is Group,
        instr_refs_ranked(*instr, tpl_names(defs.templates@), rank),
        0 <= rank <= defs.templates@.len(),
        old(scopes).wf(),
    ensures
        r is Ok ==> scopes_restored(*old(scopes), *final(scopes)),
        final(scopes).wf(),
    decreases depth, rank, *instr, 1int,
{
    let present = match msg.select_group(instr.name.as_str()) {
        Ok(p) => p,
        Err(e) => {
            return Err(e);
        },
    };
    if !present {
        if instr.is_optional() {
            return pmap_set_bit(scopes, false);
        }
        return Err(Error::Dynamic("missing mandatory group".to_owned()));
    }
    if instr.is_optional() {
        match pmap_set_bit(scopes, true) {
            Ok(_) => {},
            Err(e) => {
                return Err(e);
            },
        }
    }
    let switched_dict = crate::decoder::switch_dictionary(scopes, &instr.dictionary);
    let switched_type = crate::decoder::switch_type_ref(scopes, &instr.type_ref);
    if instr.has_pmap {
        push_empty_pmap(scopes);
        let mut body = ByteWriter::new();
        match encode_instructions(
            defs,
            ctx,
            &mut body,
            scopes,
            msg,
            &instr.instructions,
            0,
            depth,
            Ghost(rank),
        ) {
            Ok(_) => {},
            Err(e) => {
                return Err(e);
            },
        }
        match close_segment(scopes, wrt, body) {
            Ok(_) => {},
            Err(e) => {
                return Err(e);
            },
        }
    } else {
        match encode_instructions(
            defs,
            ctx,
            wrt,
            scopes,
            msg,
            &instr.instructions,
            0,
            depth,
            Ghost(rank),
        ) {
            Ok(_) => {},
            Err(e) => {
                return Err(e);
            },
        }
    }
    if switched_dict {
        crate::decoder::restore_dictionary(scopes);
    }
    if switched_type {
        crate::decoder::restore_type_ref(scopes);
    }
    proof {
        assert(scopes.dictionary@ =~= old(scopes).dictionary@);
        assert(scopes.type_ref@ =~= old(scopes).type_ref@);
    }
    msg.release_group()
}

/// Encode a sequence: its length through the length field's operator, then
/// the items.
fn encode_sequence<V: MessageVisitor>(
    defs: &Definitions,
    ctx: &mut Context,
    wrt: &mut ByteWriter,
    scopes: &mut DecodeScopes,
    msg: &mut V,
    instr: &Instruction,
    depth: u32,
    Ghost(rank): Ghost<int>,
) -> (r: Result<(), Error>)
    requires
        defs.wf(),
        instr_wf(*instr),
        instr.value_type is Sequence,
        instr_refs_ranked(*instr, tpl_names(defs.templates@), rank),
        0 <= rank <= defs.templates@.len(),
        old(scopes).wf(),
    ensures
        r is Ok ==> scopes_restored(*old(scopes), *final(scopes)),
        final(scopes).wf(),
    decreases depth, rank, *instr, 1int,
{
    let length = match msg.select_sequence(instr.name.as_str()) {
        Ok(l) => l,
        Err(e) => {
            return Err(e);
        },
    };
    let switched_dict = crate::decoder::switch_dictionary(scopes, &instr.dictionary);
    let switched_type = crate::decoder::switch_type_ref(scopes, &instr.type_ref);
    proof {
        lemma_instrs_wf_index(instr.instructions@, 0);
    }
    match length {
        None => {
            if !instr.is_optional() {
                return Err(Error::Dynamic("missing mandatory sequence".to_owned()));
            }
            match inject(ctx, wrt, scopes, &instr.instructions[0], &None) {
                Ok(_) => {},
                Err(e) => {
                    return Err(e);
                },
            }
        },
        Some(length) => {
            let lv = Some(Value::UInt32(length));
            match inject(ctx, wrt, scopes, &instr.instructions[0], &lv) {
                Ok(_) => {},
                Err(e) => {
                    return Err(e);
                },
            }
            let ghost s_pre: DecodeScopes = *scopes;
            let mut idx: u32 = 0;
            while idx < length
                invariant
                    defs.wf(),
                    instr_wf(*instr),
                    instr.value_type is Sequence,
                    instr_refs_ranked(*instr, tpl_names(defs.templates@), rank),
                    0 <= rank <= defs.templates@.len(),
                    scopes_restored(s_pre, *scopes),
                    scopes.wf(),
                    idx <= length,
                decreases length - idx,
            {
                match msg.select_sequence_item(idx) {
                    Ok(_) => {},
                    Err(e) => {
                        return Err(e);
                    },
                }
                if instr.has_pmap {
                    push_empty_pmap(scopes);
                    let mut body = ByteWriter::new();
                    match encode_instructions(
                        defs,
                        ctx,
                        &mut body,
                        scopes,
                        msg,
                        &instr.instructions,
                        1,
                        depth,
                        Ghost(rank),
                    ) {
                        Ok(_) => {},
                        Err(e) => {
                            return Err(e);
                        },
                    }
                    match close_segment(scopes, wrt, body) {
                        Ok(_) => {},
                        Err(e) => {
                            return Err(e);
                        },
                    }
                } else {
                    match encode_instructions(
                        defs,
                        ctx,
                        wrt,
                        scopes,
                        msg,
                        &instr.instructions,
                        1,
                        depth,
                        Ghost(rank),
                    ) {
                        Ok(_) => {},
                        Err(e) => {
                            return Err(e);
                        },
                    }
                }
                match msg.release_sequence_item() {
                    Ok(_) => {},
                    Err(e) => {
                        return Err(e);
                    },
                }
                idx = idx + 1;
            }
            match msg.release_sequence() {
                Ok(_) => {},
                Err(e) => {
                    return Err(e);
                },
            }
        },
    }
    if switched_dict {
        crate::decoder::restore_dictionary(scopes);
    }
    if switched_type {
        crate::decoder::restore_type_ref(scopes);
    }
    proof {
        assert(scopes.dictionary@ =~= old(scopes).dictionary@);
        assert(scopes.type_ref@ =~= old(scopes).type_ref@);
    }
    Ok(())
}

/// Encode a template reference: a named target inline, an unnamed one as a
/// fresh outer segment carrying its own template id.
fn encode_template_ref<V: MessageVisitor>(
    defs: &Definitions,
    ctx: &mut Context,
    wrt: &mut ByteWriter,
    scopes: &mut DecodeScopes,
    msg: &mut V,
    instr: &Instruction,
    depth: u32,
    Ghost(rank): Ghost<int>,
) -> (r: Result<(), Error>)
    requires
        defs.wf(),
        instr_wf(*instr),
        instr.value_type is TemplateReference,
        instr_refs_ranked(*instr, tpl_names(defs.templates@), rank),
        0 <= rank <= defs.templates@.len(),
        old(scopes).wf(),
    ensures
        r is Ok ==> scopes_restored(*old(scopes), *final(scopes)),
        final(scopes).wf(),
    decreases depth, rank, *instr, 1int,
{
    let is_dynamic = instr.name.as_str().unicode_len() == 0;
    if is_dynamic {
        if depth == 0 {
            return Err(Error::Runtime("template references nest too deeply".to_owned()));
        }
        let target = match msg.select_template_ref(instr.name.as_str(), true) {
            Ok(Some(name)) => name,
            Ok(None) => {
                return Err(Error::Dynamic("missing template reference target".to_owned()));
            },
            Err(e) => {
                return Err(e);
            },
        };
        let idx = match defs.find_index_by_name(target.as_str()) {
            Some(i) => i,
            None => {
                return Err(Error::Dynamic("unknown template name".to_owned()));
            },
        };
        push_empty_pmap(scopes);
        let mut body = ByteWriter::new();
        match encode_template_body(defs, ctx, &mut body, scopes, msg, idx, depth - 1) {
            Ok(_) => {},
            Err(e) => {
                return Err(e);
            },
        }
        match close_segment(scopes, wrt, body) {
            Ok(_) => {},
            Err(e) => {
                return Err(e);
            },
        }
        match msg.release_template_ref() {
            Ok(_) => {},
            Err(e) => {
                return Err(e);
            },
        }
        Ok(())
    } else {
        match msg.select_template_ref(instr.name.as_str(), false) {
            Ok(_) => {},
            Err(e) => {
                return Err(e);
            },
        }
        let idx = match defs.find_index_by_name(instr.name.as_str()) {
            Some(i) => i,
            None => {
                return Err(Error::Dynamic("unknown template".to_owned()));
            },
        };
        let tpl = &defs.templates[idx];
        let switched_dict = crate::decoder::switch_dictionary(scopes, &tpl.dictionary);
        let switched_type = crate::decoder::switch_type_ref(scopes, &tpl.type_ref);
        match encode_instructions(
            defs,
            ctx,
            wrt,
            scopes,
            msg,
            &tpl.instructions,
            0,
            depth,
            Ghost(idx as int),
        ) {
            Ok(_) => {},
            Err(e) => {
                return Err(e);
            },
        }
        if switched_dict {
            crate::decoder::restore_dictionary(scopes);
        }
        if switched_type {
            crate::decoder::restore_type_ref(scopes);
        }
        proof {
            assert(scopes.dictionary@ =~= old(scopes).dictionary@);
            assert(scopes.type_ref@ =~= old(scopes).type_ref@);
        }
        msg.release_template_ref()
    }
}

/// Encode the body of a segment that carries a template id: the id through
/// its implicit copy instruction, then the template's instructions.
fn encode_template_body<V: MessageVisitor>(
    defs: &Definitions,
    ctx: &mut Context,
    wrt: &mut ByteWriter,
    scopes: &mut DecodeScopes,
    msg: &mut V,
    idx: usize,
    depth: u32,
) -> (r: Result<(), Error>)
    requires
        defs.wf(),
        idx < defs.templates@.len(),
        old(scopes).wf(),
    ensures
        r is Ok ==> scopes_restored(*old(scopes), *final(scopes)),
        final(scopes).wf(),
    decreases depth, idx as int, defs.templates@[idx as int].instructions@, 4int,
{
    let tpl = &defs.templates[idx];
    scopes.template_id.push(tpl.id);
    let idv = Some(Value::UInt32(tpl.id));
    match inject(ctx, wrt, scopes, &defs.template_id_instruction, &idv) {
        Ok(_) => {},
        Err(e) => {
            return Err(e);
        },
    }
    let switched_dict = crate::decoder::switch_dictionary(scopes, &tpl.dictionary);
    let switched_type = crate::decoder::switch_type_ref(scopes, &tpl.type_ref);
    match encode_instructions(
        defs,
        ctx,
        wrt,
        scopes,
        msg,
        &tpl.instructions,
        0,
        depth,
        Ghost(idx as int),
    ) {
        Ok(_) => {},
        Err(e) => {
            return Err(e);
        },
    }
    if switched_dict {
        crate::decoder::restore_dictionary(scopes);
    }
    if switched_type {
        crate::decoder::restore_type_ref(scopes);
    }
    let _ = scopes.template_id.pop();
    proof {
        assert(scopes.template_id@ =~= old(scopes).template_id@);
        assert(scopes.dictionary@ =~= old(scopes).dictionary@);
        assert(scopes.type_ref@ =~= old(scopes).type_ref@);
    }
    Ok(())
}

/// Encode one whole message: ask the source for the template, stage the
/// outer segment, and prefix its presence map.
fn encode_template<V: MessageVisitor>(
    defs: &Definitions,
    ctx: &mut Context,
    msg: &mut V,
    out: &mut ByteWriter,
) -> (r: Result<(), Error>)
    requires
        defs.wf(),
    ensures
        r is Ok ==> final(out).buf@.len() > old(out).buf@.len(),
{
    let name = match msg.get_template_name() {
        Ok(n) => n,
        Err(e) => {
            return Err(e);
        },
    };
    let idx = match defs.find_index_by_name(name.as_str()) {
        Some(i) => i,
        None => {
            return Err(Error::Dynamic("unknown template name".to_owned()));
        },
    };
    let mut scopes = DecodeScopes {
        template_id: Stacked::new_empty(),
        dictionary: Stacked::new(Dictionary::Global),
        type_ref: Stacked::new(TypeRef::Any),
        presence_map: Stacked::new(PresenceMap::new_empty()),
    };
    let mut body = ByteWriter::new();
    match encode_template_body(defs, ctx, &mut body, &mut scopes, msg, idx, MAX_REF_DEPTH) {
        Ok(_) => {},
        Err(e) => {
            return Err(e);
        },
    }
    close_segment(&mut scopes, out, body)
}

} // verus!
