//! Field instructions and the template compiler.
//!
//! Each field instruction has a kind, a presence, an operator and possibly
//! an initial value; groups, sequences and decimals carry child
//! instructions.  The compiler builds the tree from the template XML and
//! enforces the static rules: operator–type compatibility, required initial
//! values, required ids and names, and the decimal and sequence expansions.
use vstd::prelude::*;

use crate::bytesutil::str_eq;
use crate::decimal::Decimal;
use crate::errors::Error;
use crate::value::{spec_str_to_value, spec_type_from_tag, Value, ValueType, ValueV};
use crate::xml::{spec_find_attr, XmlElement};
use vstd::string::{StrSliceExecFns, StringExecFns};

verus! {

/// A field operator: a per-field compression strategy.
#[derive(Debug, PartialEq, Eq, Structural, Clone, Copy)]
pub enum Operator {
    NoOp,
    Constant,
    Default,
    Copy,
    Increment,
    Delta,
    Tail,
}

impl Operator {
    pub open spec fn spec_from_tag(tag: Seq<char>) -> Option<Operator> {
        if tag == "constant"@ {
            Some(Operator::Constant)
        } else if tag == "default"@ {
            Some(Operator::Default)
        } else if tag == "copy"@ {
            Some(Operator::Copy)
        } else if tag == "increment"@ {
            Some(Operator::Increment)
        } else if tag == "delta"@ {
            Some(Operator::Delta)
        } else if tag == "tail"@ {
            Some(Operator::Tail)
        } else {
            None
        }
    }

    /// The operator an XML operator element names.
    pub fn new_from_tag(t: &str) -> (r: Result<Self, Error>)
        ensures
            match r {
                Ok(op) => Operator::spec_from_tag(t@) == Some(op),
                Err(e) => Operator::spec_from_tag(t@) is None && e is Static,
            },
    {
        if str_eq(t, "constant") {
            Ok(Self::Constant)
        } else if str_eq(t, "default") {
            Ok(Self::Default)
        } else if str_eq(t, "copy") {
            Ok(Self::Copy)
        } else if str_eq(t, "increment") {
            Ok(Self::Increment)
        } else if str_eq(t, "delta") {
            Ok(Self::Delta)
        } else if str_eq(t, "tail") {
            Ok(Self::Tail)
        } else {
            Err(Error::Static("unknown operator".to_owned()))
        }
    }
}

/// Whether a field must be present.
#[derive(Debug, PartialEq, Eq, Structural, Clone, Copy)]
pub enum Presence {
    Mandatory,
    Optional,
}

impl Presence {
    pub open spec fn spec_from_str(s: Seq<char>) -> Option<Presence> {
        if s == "mandatory"@ {
            Some(Presence::Mandatory)
        } else if s == "optional"@ {
            Some(Presence::Optional)
        } else {
            None
        }
    }

    pub fn from_str(s: &str) -> (r: Result<Self, Error>)
        ensures
            match r {
                Ok(p) => Presence::spec_from_str(s@) == Some(p),
                Err(e) => Presence::spec_from_str(s@) is None && e is Static,
            },
    {
        if str_eq(s, "mandatory") {
            Ok(Self::Mandatory)
        } else if str_eq(s, "optional") {
            Ok(Self::Optional)
        } else {
            Err(Error::Static("unknown presence".to_owned()))
        }
    }
}

/// The dictionary a field's previous values live in; `Inherit` is a
/// parse-time marker resolved against the enclosing scope.
#[derive(Debug, PartialEq, Clone)]
pub enum Dictionary {
    Inherit,
    Global,
    Template,
    Type,
    UserDefined(String),
}

impl Dictionary {
    pub open spec fn spec_view(&self) -> DictionaryV {
        match self {
            Dictionary::Inherit => DictionaryV::Inherit,
            Dictionary::Global => DictionaryV::Global,
            Dictionary::Template => DictionaryV::Template,
            Dictionary::Type => DictionaryV::Type,
            Dictionary::UserDefined(name) => DictionaryV::UserDefined(name@),
        }
    }

    pub fn from_str(name: &str) -> (r: Self)
        ensures
            r.spec_view() == spec_dictionary_from_str(name@),
    {
        if str_eq(name, "global") {
            Self::Global
        } else if str_eq(name, "template") {
            Self::Template
        } else if str_eq(name, "type") {
            Self::Type
        } else {
            Self::UserDefined(name.to_owned())
        }
    }
}

/// The shape of a dictionary attribute.
pub enum DictionaryV {
    Inherit,
    Global,
    Template,
    Type,
    UserDefined(Seq<char>),
}

pub open spec fn spec_dictionary_from_str(s: Seq<char>) -> DictionaryV {
    if s == "global"@ {
        DictionaryV::Global
    } else if s == "template"@ {
        DictionaryV::Template
    } else if s == "type"@ {
        DictionaryV::Type
    } else {
        DictionaryV::UserDefined(s)
    }
}

/// The current application type.
#[derive(Debug, PartialEq, Clone)]
pub enum TypeRef {
    Any,
    ApplicationType(String),
}

impl TypeRef {
    pub fn from_str(name: &str) -> (r: Self)
        ensures
            r is ApplicationType && r->0@ == name@,
    {
        Self::ApplicationType(name.to_owned())
    }
}

/// One node of the compiled template tree.
pub struct Instruction {
    pub id: u32,
    pub name: String,
    pub value_type: ValueType,
    pub presence: Presence,
    pub operator: Operator,
    pub initial_value: Option<Value>,
    pub instructions: Vec<Instruction>,
    pub dictionary: Dictionary,
    pub type_ref: TypeRef,
    pub key: String,
    /// Whether this composite's body forms its own segment with a nested
    /// presence map; for a decimal, whether a subcomponent takes a bit.
    pub has_pmap: bool,
}

/// The static operator rules: constant needs an initial value, a mandatory
/// default needs one, increment fits integral kinds only, tail fits string
/// and byte kinds only.
pub open spec fn spec_operator_valid(
    op: Operator,
    vt: ValueType,
    presence: Presence,
    has_initial: bool,
) -> bool {
    match op {
        Operator::NoOp | Operator::Copy | Operator::Delta => true,
        Operator::Constant => has_initial,
        Operator::Default => presence is Optional || has_initial,
        Operator::Increment => vt is UInt32 || vt is Int32 || vt is UInt64 || vt is Int64
            || vt is Length || vt is Exponent || vt is Mantissa,
        Operator::Tail => vt is ASCIIString || vt is UnicodeString || vt is Bytes,
    }
}

/// Structural well-formedness of a compiled instruction: the operator obeys
/// the static rules, any initial value has the field's kind, and the
/// children have the shape the kind demands — a decimal an exponent and a
/// mandatory mantissa, a sequence a leading length, primitives none at all.
pub open spec fn instr_wf(i: Instruction) -> bool
    decreases i,
{
    &&& spec_operator_valid(i.operator, i.value_type, i.presence, i.initial_value is Some)
    &&& match i.initial_value {
        Some(v) => i.value_type.spec_matches(v@),
        None => true,
    }
    &&& match i.value_type {
        ValueType::Decimal => {
            &&& i.instructions@.len() == 2
            &&& i.instructions@[0].value_type is Exponent
            &&& i.instructions@[1].value_type is Mantissa
            &&& i.instructions@[1].presence is Mandatory
            &&& instr_wf(i.instructions@[0])
            &&& instr_wf(i.instructions@[1])
            &&& !(i.operator is NoOp) ==> i.instructions@[0].operator is NoOp
                && i.instructions@[1].operator is NoOp
        },
        ValueType::Sequence => {
            &&& i.instructions@.len() >= 1
            &&& i.instructions@[0].value_type is Length
            &&& instrs_wf(i.instructions@)
        },
        ValueType::Group => instrs_wf(i.instructions@),
        _ => i.instructions@.len() == 0,
    }
}

pub open spec fn instrs_wf(s: Seq<Instruction>) -> bool
    decreases s,
{
    if s.len() == 0 {
        true
    } else {
        instr_wf(s[0]) && instrs_wf(s.skip(1))
    }
}

/// Every element of a well-formed list is well-formed.
pub proof fn lemma_instrs_wf_index(s: Seq<Instruction>, i: int)
    requires
        instrs_wf(s),
        0 <= i < s.len(),
    ensures
        instr_wf(s[i]),
    decreases i,
{
    if i > 0 {
        lemma_instrs_wf_index(s.skip(1), i - 1);
    }
}

pub proof fn lemma_instrs_wf_push(s: Seq<Instruction>, e: Instruction)
    requires
        instrs_wf(s),
        instr_wf(e),
    ensures
        instrs_wf(s.push(e)),
    decreases s.len(),
{
    if s.len() == 0 {
        assert(s.push(e)[0] == e);
        assert(s.push(e).skip(1) =~= Seq::<Instruction>::empty());
        assert(instrs_wf(Seq::<Instruction>::empty()));
        assert(instrs_wf(s.push(e)));
    } else {
        assert(s.push(e)[0] == s[0]);
        assert(s.push(e).skip(1) =~= s.skip(1).push(e));
        lemma_instrs_wf_push(s.skip(1), e);
        assert(instrs_wf(s.push(e).skip(1)));
        assert(instrs_wf(s.push(e)));
    }
}

impl Instruction {
    /// A bare instruction of the given kind; decimal subcomponents carry no
    /// name or key of their own.
    pub fn new(id: u32, name: &str, type_: ValueType) -> (r: Self)
        ensures
            r.id == id,
            r.value_type == type_,
            r.presence is Mandatory,
            r.operator is NoOp,
            r.initial_value is None,
            r.instructions@.len() == 0,
            r.dictionary is Inherit,
            r.type_ref is Any,
            (type_ is Mantissa || type_ is Exponent) ==> r.name@ == Seq::<char>::empty() && r.key@
                == Seq::<char>::empty(),
            !(type_ is Mantissa || type_ is Exponent) ==> r.name@ == name@ && r.key@ == name@,
    {
        let named: bool = match type_ {
            ValueType::Mantissa | ValueType::Exponent => false,
            _ => true,
        };
        let nm: String = if named {
            name.to_owned()
        } else {
            String::new()
        };
        let ky: String = if named {
            name.to_owned()
        } else {
            String::new()
        };
        Self {
            id,
            name: nm,
            value_type: type_,
            presence: Presence::Mandatory,
            operator: Operator::NoOp,
            initial_value: None,
            instructions: Vec::new(),
            dictionary: Dictionary::Inherit,
            type_ref: TypeRef::Any,
            key: ky,
            has_pmap: false,
        }
    }

    pub fn is_optional(&self) -> (r: bool)
        ensures
            r == (self.presence is Optional),
    {
        match self.presence {
            Presence::Mandatory => false,
            Presence::Optional => true,
        }
    }

    /// Whether the field's wire form reserves a representation for null:
    /// optional fields of every operator but constant.
    pub fn is_nullable(&self) -> (r: bool)
        ensures
            r == (!(self.operator is Constant) && self.presence is Optional),
    {
        match self.operator {
            Operator::Constant => false,
            _ => self.is_optional(),
        }
    }

    /// Enforce the operator–type rules; a violation is a static error.
    pub fn check_is_valid(&self) -> (r: Result<(), Error>)
        ensures
            r is Ok <==> spec_operator_valid(
                self.operator,
                self.value_type,
                self.presence,
                self.initial_value is Some,
            ),
            r matches Err(e) ==> e is Static,
    {
        match self.operator {
            Operator::NoOp | Operator::Copy | Operator::Delta => Ok(()),
            Operator::Constant => {
                if self.initial_value.is_none() {
                    Err(Error::Static("constant operator has no initial value".to_owned()))
                } else {
                    Ok(())
                }
            },
            Operator::Default => {
                if !self.is_optional() && self.initial_value.is_none() {
                    Err(Error::Static("default operator has no initial value".to_owned()))
                } else {
                    Ok(())
                }
            },
            Operator::Increment => {
                match self.value_type {
                    ValueType::UInt32 | ValueType::Int32 | ValueType::UInt64 | ValueType::Int64
                        | ValueType::Length | ValueType::Exponent | ValueType::Mantissa => Ok(()),
                    _ => Err(
                        Error::Static("increment operator is not applicable to field type".to_owned()),
                    ),
                }
            },
            Operator::Tail => {
                match self.value_type {
                    ValueType::ASCIIString | ValueType::UnicodeString | ValueType::Bytes => Ok(()),
                    _ => Err(
                        Error::Static("tail operator is not applicable to field type".to_owned()),
                    ),
                }
            },
        }
    }

    /// Parse the operator's `value` attribute into this field's kind.
    fn set_initial_value(&mut self, value: &str) -> (r: Result<(), Error>)
        ensures
            match r {
                Ok(_) => {
                    &&& final(self).initial_value is Some
                    &&& spec_str_to_value(old(self).value_type, value@) == Some(
                        final(self).initial_value->0@,
                    )
                    &&& *final(self) == (Instruction {
                        initial_value: final(self).initial_value,
                        ..*old(self)
                    })
                },
                Err(_) => *final(self) == *old(self),
            },
    {
        match self.value_type {
            ValueType::UInt32 | ValueType::Int32 | ValueType::UInt64 | ValueType::Int64
                | ValueType::Length | ValueType::Exponent | ValueType::Mantissa
                | ValueType::ASCIIString | ValueType::UnicodeString | ValueType::Bytes => {
                match self.value_type.str_to_value(value) {
                    Ok(v) => {
                        self.initial_value = Some(v);
                        Ok(())
                    },
                    Err(e) => Err(e),
                }
            },
            _ => Err(Error::Static("cannot set initial value for field type".to_owned())),
        }
    }
}

/// Parse a `u32` XML attribute.
fn parse_u32_attr(s: &String) -> (r: Result<u32, Error>)
    ensures
        r is Ok ==> crate::value::spec_parse_uint(vstd::utf8::encode_utf8(s@), 0xffff_ffff)
            == Some(r->Ok_0 as int),
{
    match crate::value::parse_uint_bytes(s.as_str().as_bytes(), 0xffff_ffff) {
        Some(v) => Ok(v as u32),
        None => Err(Error::Static("not a number".to_owned())),
    }
}

/// `<base>:length` — the generated name of an implicit sequence length.
fn length_name(base: &String) -> (r: String)
    ensures
        r@ == base@ + ":length"@,
{
    let mut n = base.clone();
    n.append(":length");
    n
}

/// `<base>:exponent` / `<base>:mantissa` — default subcomponent keys.
fn suffixed_key(base: &String, suffix: &str) -> (r: String)
    ensures
        r@ == base@ + suffix@,
{
    let mut n = base.clone();
    n.append(suffix);
    n
}

/// What the element's own attributes and operator child fix on the
/// compiled instruction: the kind from the tag and charset, every scalar
/// attribute, and — for a primitive field — the operator element and its
/// initial value.  The children of composites are pinned separately by
/// `instr_wf` and the presence-inheritance clauses.
pub open spec fn spec_instr_scalars(node: XmlElement, i: Instruction) -> bool {
    let attrs = node.attributes@;
    let unicode = spec_find_attr(attrs, "charset"@) == Some("unicode"@);
    &&& spec_type_from_tag(node.name@, unicode) == Some(i.value_type)
    &&& (spec_find_attr(attrs, "charset"@) is Some ==> spec_find_attr(attrs, "charset"@) == Some(
        "unicode"@,
    ))
    &&& match spec_find_attr(attrs, "id"@) {
        Option::None => i.id == 0,
        Option::Some(s) => crate::value::spec_parse_uint(
            vstd::utf8::encode_utf8(s),
            0xffff_ffff,
        ) == Some(i.id as int),
    }
    &&& if i.value_type is Mantissa || i.value_type is Exponent {
        i.name@ == Seq::<char>::empty()
    } else {
        match spec_find_attr(attrs, "name"@) {
            Option::None => i.name@ == Seq::<char>::empty(),
            Option::Some(s) => i.name@ == s,
        }
    }
    &&& match spec_find_attr(attrs, "presence"@) {
        Option::None => i.presence is Mandatory,
        Option::Some(p) => Presence::spec_from_str(p) == Some(i.presence),
    }
    &&& match spec_find_attr(attrs, "dictionary"@) {
        Option::None => i.dictionary is Inherit,
        Option::Some(d) => i.dictionary.spec_view() == spec_dictionary_from_str(d),
    }
    &&& match spec_find_attr(attrs, "key"@) {
        Option::None => i.key@ == i.name@,
        Option::Some(k) => i.key@ == k,
    }
    &&& match spec_find_attr(attrs, "typeRef"@) {
        Option::None => i.type_ref is Any,
        Option::Some(t) => i.type_ref is ApplicationType && i.type_ref->0@ == t,
    }
    &&& match i.value_type {
        ValueType::Sequence => i.operator is NoOp && i.initial_value is None
            && i.instructions@[0].presence == i.presence,
        ValueType::Group | ValueType::TemplateReference => i.operator is NoOp
            && i.initial_value is None,
        ValueType::Decimal => i.initial_value is None && i.instructions@[0].presence
            == i.presence,
        _ => {
            // a primitive field: the first child element names the
            // operator, and its value attribute the initial value
            if node.children@.len() == 0 {
                i.operator is NoOp && i.initial_value is None
            } else {
                &&& Operator::spec_from_tag(node.children@[0].name@) == Some(i.operator)
                &&& match spec_find_attr(node.children@[0].attributes@, "value"@) {
                    Option::None => i.initial_value is None,
                    Option::Some(v) => i.initial_value is Some && spec_str_to_value(
                        i.value_type,
                        v,
                    ) == Some(i.initial_value->0@),
                }
            }
        },
    }
}

impl Instruction {
    /// Compile one field element of the template XML, recursively.
    ///
    /// Expands a `<decimal>` into exponent and mantissa subcomponents —
    /// pushing a single `delta` or `increment` operator down onto both —
    /// prepends the implicit length instruction of a `<sequence>`, and
    /// enforces the static operator rules on the result.
    pub fn from_node(node: &XmlElement) -> (r: Result<Self, Error>)
        ensures
            match r {
                Ok(i) => {
                    &&& instr_wf(i)
                    &&& (node.name@ == "exponent"@ ==> i.value_type is Exponent)
                    &&& (node.name@ == "mantissa"@ ==> i.value_type is Mantissa)
                    &&& spec_instr_scalars(*node, i)
                },
                Err(_) => true,
            },
        decreases *node, 1int,
    {
        let id: u32 = match node.attribute("id") {
            Some(s) => match parse_u32_attr(s) {
                Ok(v) => v,
                Err(e) => {
                    return Err(e);
                },
            },
            None => 0,
        };
        let name: String = match node.attribute("name") {
            Some(s) => s.clone(),
            None => String::new(),
        };
        let unicode: bool = match node.attribute("charset") {
            Some(s) => {
                if str_eq(s.as_str(), "unicode") {
                    true
                } else {
                    return Err(Error::Static("unknown charset".to_owned()));
                }
            },
            None => false,
        };
        let type_ = match ValueType::new_from_tag(node.name.as_str(), unicode) {
            Ok(t) => t,
            Err(e) => {
                return Err(e);
            },
        };
        match type_ {
            ValueType::Mantissa | ValueType::Exponent | ValueType::Sequence | ValueType::Group
                | ValueType::TemplateReference => {},
            _ => {
                if id == 0 {
                    return Err(
                        Error::Runtime("instruction must have non-zero 'id' attribute".to_owned()),
                    );
                }
            },
        }
        match type_ {
            ValueType::Mantissa | ValueType::Exponent | ValueType::Length
                | ValueType::TemplateReference => {},
            _ => {
                if name.as_str().unicode_len() == 0 {
                    return Err(
                        Error::Runtime("instruction must have 'name' attribute".to_owned()),
                    );
                }
            },
        }
        let mut instruction = Instruction::new(id, name.as_str(), type_);
        match node.attribute("presence") {
            Some(p) => {
                instruction.presence = match Presence::from_str(p.as_str()) {
                    Ok(pr) => pr,
                    Err(e) => {
                        return Err(e);
                    },
                };
            },
            None => {},
        }
        match node.attribute("dictionary") {
            Some(d) => {
                instruction.dictionary = Dictionary::from_str(d.as_str());
            },
            None => {},
        }
        match node.attribute("key") {
            Some(k) => {
                instruction.key = k.clone();
            },
            None => {},
        }
        match node.attribute("typeRef") {
            Some(t) => {
                instruction.type_ref = TypeRef::from_str(t.as_str());
            },
            None => {},
        }
        let ghost base: Instruction = instruction;
        match instruction.value_type {
            ValueType::TemplateReference => {},
            ValueType::Group => {
                let mut j: usize = 0;
                while j < node.children.len()
                    invariant
                        j <= node.children@.len(),
                        instrs_wf(instruction.instructions@),
                        instruction.value_type is Group,
                        instruction.operator is NoOp,
                        instruction.initial_value is None,
                        instruction == (Instruction {
                            instructions: instruction.instructions,
                            ..base
                        }),
                    decreases node.children@.len() - j,
                {
                    let child = match Instruction::from_node(&node.children[j]) {
                        Ok(c) => c,
                        Err(e) => {
                            return Err(e);
                        },
                    };
                    proof {
                        lemma_instrs_wf_push(instruction.instructions@, child);
                    }
                    instruction.instructions.push(child);
                    j = j + 1;
                }
            },
            ValueType::Sequence => {
                let mut j: usize = 0;
                let mut have_length: bool = false;
                while j < node.children.len()
                    invariant
                        j <= node.children@.len(),
                        instrs_wf(instruction.instructions@),
                        instruction.value_type is Sequence,
                        instruction.operator is NoOp,
                        instruction.initial_value is None,
                        have_length <==> instruction.instructions@.len() >= 1,
                        have_length ==> instruction.instructions@[0].value_type is Length
                            && instruction.instructions@[0].presence == instruction.presence,
                        instruction == (Instruction {
                            instructions: instruction.instructions,
                            ..base
                        }),
                    decreases node.children@.len() - j,
                {
                    let mut child = match Instruction::from_node(&node.children[j]) {
                        Ok(c) => c,
                        Err(e) => {
                            return Err(e);
                        },
                    };
                    if !have_length {
                        match child.value_type {
                            ValueType::Length => {
                                // an explicit <length> heads the sequence; it
                                // inherits the sequence's presence and gets a
                                // generated name when it has none
                                if child.name.as_str().unicode_len() == 0 {
                                    child.name = length_name(&instruction.name);
                                }
                                child.presence = instruction.presence;
                                match child.check_is_valid() {
                                    Ok(_) => {},
                                    Err(e) => {
                                        return Err(e);
                                    },
                                }
                                proof {
                                    lemma_instrs_wf_push(instruction.instructions@, child);
                                }
                                instruction.instructions.push(child);
                                have_length = true;
                            },
                            _ => {
                                // no <length> given: prepend the implicit
                                // length instruction, then the first member
                                let mut length = Instruction::new(
                                    0,
                                    length_name(&instruction.name).as_str(),
                                    ValueType::Length,
                                );
                                length.presence = instruction.presence;
                                proof {
                                    lemma_instrs_wf_push(instruction.instructions@, length);
                                }
                                instruction.instructions.push(length);
                                have_length = true;
                                proof {
                                    lemma_instrs_wf_push(instruction.instructions@, child);
                                }
                                instruction.instructions.push(child);
                            },
                        }
                    } else {
                        proof {
                            lemma_instrs_wf_push(instruction.instructions@, child);
                        }
                        instruction.instructions.push(child);
                    }
                    j = j + 1;
                }
                if !have_length {
                    let mut length = Instruction::new(
                        0,
                        length_name(&instruction.name).as_str(),
                        ValueType::Length,
                    );
                    length.presence = instruction.presence;
                    proof {
                        lemma_instrs_wf_push(instruction.instructions@, length);
                    }
                    instruction.instructions.push(length);
                }
            },
            ValueType::Decimal => {
                match decimal_children(node, &mut instruction) {
                    Ok(_) => {},
                    Err(e) => {
                        return Err(e);
                    },
                }
            },
            _ => {
                // a primitive field: the first child element, if any, is the
                // field operator, possibly with an initial value
                if node.children.len() > 0 {
                    let op_node = &node.children[0];
                    instruction.operator = match Operator::new_from_tag(op_node.name.as_str()) {
                        Ok(op) => op,
                        Err(e) => {
                            return Err(e);
                        },
                    };
                    match op_node.attribute("value") {
                        Some(v) => {
                            match instruction.set_initial_value(v.as_str()) {
                                Ok(_) => {},
                                Err(e) => {
                                    return Err(e);
                                },
                            }
                        },
                        None => {},
                    }
                }
            },
        }
        match instruction.check_is_valid() {
            Ok(_) => {},
            Err(e) => {
                return Err(e);
            },
        }
        proof {
            broadcast use vstd::string::group_string_axioms;

            reveal_strlit("uInt32");
            reveal_strlit("int32");
            reveal_strlit("uInt64");
            reveal_strlit("int64");
            reveal_strlit("length");
            reveal_strlit("exponent");
            reveal_strlit("mantissa");
            reveal_strlit("decimal");
            reveal_strlit("string");
            reveal_strlit("byteVector");
            reveal_strlit("sequence");
            reveal_strlit("group");
            reveal_strlit("templateRef");
            assert("exponent"@.len() == 8);
            assert("uInt32"@.len() == 6);
            assert("mantissa"@[0] == 'm');
            assert("exponent"@[0] == 'e');
            if node.name@ == "exponent"@ {
                assert(node.name@ != "uInt32"@);
                assert(node.name@ != "int32"@);
                assert(node.name@ != "uInt64"@);
                assert(node.name@ != "int64"@);
                assert(node.name@ != "length"@);
                assert(spec_type_from_tag(node.name@, unicode) == Some(ValueType::Exponent));
                assert(instruction.value_type is Exponent);
            }
            if node.name@ == "mantissa"@ {
                assert(spec_type_from_tag(node.name@, unicode) == Some(ValueType::Mantissa));
                assert(instruction.value_type is Mantissa);
            }
        }
        Ok(instruction)
    }
}

/// Expand the children of a `<decimal>` element into the exponent and
/// mantissa subcomponents.
fn decimal_children(node: &XmlElement, instruction: &mut Instruction) -> (r: Result<(), Error>)
    requires
        old(instruction).value_type is Decimal,
        old(instruction).instructions@.len() == 0,
        old(instruction).operator is NoOp,
        old(instruction).initial_value is None,
    ensures
        match r {
            Ok(_) => instr_wf(*final(instruction)) || !spec_operator_valid(
                final(instruction).operator,
                final(instruction).value_type,
                final(instruction).presence,
                final(instruction).initial_value is Some,
            ),
            Err(_) => true,
        },
        final(instruction).value_type == old(instruction).value_type,
        final(instruction).presence == old(instruction).presence,
        final(instruction).initial_value == old(instruction).initial_value,
        final(instruction).id == old(instruction).id,
        final(instruction).name == old(instruction).name,
        final(instruction).dictionary == old(instruction).dictionary,
        final(instruction).type_ref == old(instruction).type_ref,
        final(instruction).key == old(instruction).key,
        r is Ok ==> decimal_shape_wf(*final(instruction)) && final(instruction).instructions@[0].presence
            == final(instruction).presence,
    decreases *node, 0int,
{
    let ghost instr0: Instruction = *instruction;
    let mut operator: Option<Operator> = None;
    let mut op_value: Option<String> = None;
    let mut exponent: Option<Instruction> = None;
    let mut mantissa: Option<Instruction> = None;
    let mut j: usize = 0;
    while j < node.children.len()
        invariant
            j <= node.children@.len(),
            instr0 == *old(instruction),
            *instruction == instr0,
            match exponent {
                Some(e) => instr_wf(e) && e.value_type is Exponent,
                None => true,
            },
            match mantissa {
                Some(m) => instr_wf(m) && m.value_type is Mantissa,
                None => true,
            },
        decreases node.children@.len() - j,
    {
        let child_node = &node.children[j];
        if str_eq(child_node.name.as_str(), "exponent") {
            match Instruction::from_node(child_node) {
                Ok(e) => {
                    exponent = Some(e);
                },
                Err(e) => {
                    return Err(e);
                },
            }
        } else if str_eq(child_node.name.as_str(), "mantissa") {
            match Instruction::from_node(child_node) {
                Ok(m) => {
                    mantissa = Some(m);
                },
                Err(e) => {
                    return Err(e);
                },
            }
        } else {
            match Operator::new_from_tag(child_node.name.as_str()) {
                Ok(op) => {
                    operator = Some(op);
                },
                Err(e) => {
                    return Err(e);
                },
            }
            match child_node.attribute("value") {
                Some(v) => {
                    op_value = Some(v.clone());
                },
                None => {},
            }
        }
        j = j + 1;
    }
    let mut ex: Instruction;
    let mut mn: Instruction;
    match (operator, exponent, mantissa) {
        (None, None, None) => {
            ex = Instruction::new(0, "exponent", ValueType::Exponent);
            mn = Instruction::new(0, "mantissa", ValueType::Mantissa);
        },
        (Some(o), None, None) => {
            ex = Instruction::new(0, "exponent", ValueType::Exponent);
            mn = Instruction::new(0, "mantissa", ValueType::Mantissa);
            match o {
                Operator::Delta | Operator::Increment => {
                    // delta and increment act on the subcomponents; the
                    // decimal itself keeps no operator
                    ex.operator = o;
                    mn.operator = o;
                },
                _ => {
                    instruction.operator = o;
                },
            }
            match op_value {
                Some(v) => {
                    let d = match Decimal::from_string(v.as_str()) {
                        Ok(d) => d,
                        Err(e) => {
                            return Err(e);
                        },
                    };
                    ex.initial_value = Some(Value::Int32(d.exponent));
                    mn.initial_value = Some(Value::Int64(d.mantissa));
                },
                None => {},
            }
        },
        (None, Some(e), Some(m)) => {
            ex = e;
            mn = m;
        },
        _ => {
            return Err(Error::Static("invalid decimal elements".to_owned()));
        },
    }
    ex.presence = instruction.presence;
    mn.presence = Presence::Mandatory;
    // re-check the subcomponents: the inherited presence may demand an
    // initial value the element did not carry
    match ex.check_is_valid() {
        Ok(_) => {},
        Err(e) => {
            return Err(e);
        },
    }
    match mn.check_is_valid() {
        Ok(_) => {},
        Err(e) => {
            return Err(e);
        },
    }
    if ex.key.as_str().unicode_len() == 0 {
        ex.key = suffixed_key(&instruction.key, ":exponent");
    }
    if mn.key.as_str().unicode_len() == 0 {
        mn.key = suffixed_key(&instruction.key, ":mantissa");
    }
    proof {
        lemma_instrs_wf_push(instruction.instructions@, ex);
    }
    instruction.instructions.push(ex);
    proof {
        lemma_instrs_wf_push(instruction.instructions@, mn);
    }
    instruction.instructions.push(mn);
    proof {
        lemma_instrs_wf_index(instruction.instructions@, 0);
        lemma_instrs_wf_index(instruction.instructions@, 1);
        assert(instruction.instructions@[0] == ex);
        assert(instruction.instructions@[1] == mn);
    }
    Ok(())
}

/// The expanded decimal: an exponent, then a mandatory mantissa.
pub open spec fn decimal_shape_wf(i: Instruction) -> bool {
    &&& i.instructions@.len() == 2
    &&& i.instructions@[0].value_type is Exponent
    &&& i.instructions@[1].value_type is Mantissa
    &&& i.instructions@[1].presence is Mandatory
    &&& instr_wf(i.instructions@[0])
    &&& instr_wf(i.instructions@[1])
}

} // verus!
