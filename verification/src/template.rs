//! Templates and the compiled template set.
//!
//! A template is a named, ordered list of instructions.  After parsing, a
//! finalize pass walks the templates in declaration order and computes which
//! instructions consume a presence-map bit and which composites open a
//! nested segment; a static template reference must point at an already
//! finalized template, so static references form a DAG in declaration order.
use vstd::prelude::*;

use crate::bytesutil::str_eq;
use crate::errors::Error;
use crate::instruction::{
    instr_wf, instrs_wf, lemma_instrs_wf_index, lemma_instrs_wf_push, Dictionary, Instruction,
    Operator, Presence, TypeRef,
};
use crate::value::ValueType;
use crate::xml::{parse_xml, XmlElement};

verus! {

/// A named, ordered sequence of field instructions.
pub struct Template {
    pub id: u32,
    pub name: String,
    pub type_ref: TypeRef,
    pub dictionary: Dictionary,
    pub instructions: Vec<Instruction>,
    /// Whether the template claims a bit of the enclosing presence map when
    /// statically referenced; `None` until the finalize pass has run.
    pub require_pmap: Option<bool>,
}

/// What the `<template>` element's attributes fix on the compiled
/// template, and that every child element compiled into one instruction.
pub open spec fn spec_template_scalars(node: XmlElement, t: Template) -> bool {
    let attrs = node.attributes@;
    &&& node.name@ == "template"@
    &&& match crate::xml::spec_find_attr(attrs, "id"@) {
        Option::None => t.id == 0,
        Option::Some(s) => crate::value::spec_parse_uint(
            vstd::utf8::encode_utf8(s),
            0xffff_ffff,
        ) == Some(t.id as int),
    }
    &&& crate::xml::spec_find_attr(attrs, "name"@) == Some(t.name@)
    &&& match crate::xml::spec_find_attr(attrs, "typeRef"@) {
        Option::None => t.type_ref is Any,
        Option::Some(s) => t.type_ref is ApplicationType && t.type_ref->0@ == s,
    }
    &&& match crate::xml::spec_find_attr(attrs, "dictionary"@) {
        Option::None => t.dictionary is Global,
        Option::Some(s) => t.dictionary.spec_view() == crate::instruction::spec_dictionary_from_str(
            s,
        ),
    }
    &&& t.instructions@.len() == node.children@.len()
    &&& forall|j: int|
        0 <= j < node.children@.len() ==> crate::instruction::spec_instr_scalars(
            node.children@[j],
            #[trigger] t.instructions@[j],
        )
}

impl Template {
    /// Compile one `<template>` element: its scalar attributes and one
    /// instruction per child element.
    pub fn from_node(node: &XmlElement) -> (r: Result<Self, Error>)
        ensures
            match r {
                Ok(t) => instrs_wf(t.instructions@) && t.require_pmap is None
                    && spec_template_scalars(*node, t),
                Err(_) => true,
            },
    {
        if !str_eq(node.name.as_str(), "template") {
            return Err(Error::Static("expected a template node".to_owned()));
        }
        let id: u32 = match node.attribute("id") {
            Some(s) => match crate::value::parse_uint_bytes(s.as_str().as_bytes(), 0xffff_ffff) {
                Some(v) => v as u32,
                None => {
                    return Err(Error::Static("template id is not a number".to_owned()));
                },
            },
            None => 0,
        };
        let name: String = match node.attribute("name") {
            Some(s) => s.clone(),
            None => {
                return Err(Error::Static("template name not found".to_owned()));
            },
        };
        let type_ref: TypeRef = match node.attribute("typeRef") {
            Some(t) => TypeRef::from_str(t.as_str()),
            None => TypeRef::Any,
        };
        let dictionary: Dictionary = match node.attribute("dictionary") {
            Some(d) => Dictionary::from_str(d.as_str()),
            None => Dictionary::Global,
        };
        let mut instructions: Vec<Instruction> = Vec::new();
        let mut j: usize = 0;
        while j < node.children.len()
            invariant
                j <= node.children@.len(),
                instrs_wf(instructions@),
                instructions@.len() == j,
                forall|k: int|
                    0 <= k < j ==> crate::instruction::spec_instr_scalars(
                        node.children@[k],
                        #[trigger] instructions@[k],
                    ),
            decreases node.children@.len() - j,
        {
            let child = match Instruction::from_node(&node.children[j]) {
                Ok(c) => c,
                Err(e) => {
                    return Err(e);
                },
            };
            proof {
                lemma_instrs_wf_push(instructions@, child);
            }
            instructions.push(child);
            j = j + 1;
        }
        Ok(
            Template {
                id,
                name,
                type_ref,
                dictionary,
                instructions,
                require_pmap: None,
            },
        )
    }
}

/// The template names, in declaration order.
pub open spec fn tpl_names(ts: Seq<Template>) -> Seq<Seq<char>> {
    Seq::new(ts.len(), |i: int| ts[i].name@)
}

/// First declaration of `name`, or the list's length when there is none.
pub open spec fn name_first_index(names: Seq<Seq<char>>, name: Seq<char>) -> int
    decreases names.len(),
{
    if names.len() == 0 {
        0
    } else if names[0] == name {
        0
    } else {
        1 + name_first_index(names.skip(1), name)
    }
}

pub proof fn lemma_name_first_index_le(names: Seq<Seq<char>>, name: Seq<char>)
    ensures
        0 <= name_first_index(names, name) <= names.len(),
        name_first_index(names, name) < names.len() ==> names[name_first_index(names, name)]
            == name,
        forall|j: int| 0 <= j < name_first_index(names, name) ==> names[j] != name,
    decreases names.len(),
{
    if names.len() > 0 && names[0] != name {
        lemma_name_first_index_le(names.skip(1), name);
        assert forall|j: int| 0 <= j < name_first_index(names, name) implies names[j] != name by {
            if j > 0 {
                assert(names.skip(1)[j - 1] != name);
            }
        }
    }
}

/// Every static template reference under this instruction points at a
/// template declared before `bound`.
pub open spec fn instr_refs_ranked(i: Instruction, names: Seq<Seq<char>>, bound: int) -> bool
    decreases i,
{
    match i.value_type {
        ValueType::TemplateReference => i.name@.len() > 0 ==> name_first_index(names, i.name@)
            < bound,
        ValueType::Group | ValueType::Sequence | ValueType::Decimal => instrs_refs_ranked(
            i.instructions@,
            names,
            bound,
        ),
        _ => true,
    }
}

pub open spec fn instrs_refs_ranked(s: Seq<Instruction>, names: Seq<Seq<char>>, bound: int) -> bool
    decreases s,
{
    if s.len() == 0 {
        true
    } else {
        instr_refs_ranked(s[0], names, bound) && instrs_refs_ranked(s.skip(1), names, bound)
    }
}

pub proof fn lemma_instrs_refs_ranked_index(
    s: Seq<Instruction>,
    names: Seq<Seq<char>>,
    bound: int,
    i: int,
)
    requires
        instrs_refs_ranked(s, names, bound),
        0 <= i < s.len(),
    ensures
        instr_refs_ranked(s[i], names, bound),
    decreases i,
{
    if i > 0 {
        lemma_instrs_refs_ranked_index(s.skip(1), names, bound, i - 1);
    }
}

pub proof fn lemma_instrs_refs_ranked_push(
    s: Seq<Instruction>,
    names: Seq<Seq<char>>,
    bound: int,
    e: Instruction,
)
    requires
        instrs_refs_ranked(s, names, bound),
        instr_refs_ranked(e, names, bound),
    ensures
        instrs_refs_ranked(s.push(e), names, bound),
    decreases s.len(),
{
    if s.len() == 0 {
        assert(s.push(e)[0] == e);
        assert(s.push(e).skip(1) =~= Seq::<Instruction>::empty());
        assert(instrs_refs_ranked(Seq::<Instruction>::empty(), names, bound));
    } else {
        assert(s.push(e)[0] == s[0]);
        assert(s.push(e).skip(1) =~= s.skip(1).push(e));
        lemma_instrs_refs_ranked_push(s.skip(1), names, bound, e);
    }
}

/// The compiled template set: the templates in declaration order and the
/// implicit copy-operator instruction that carries the template id.
pub struct Definitions {
    pub templates: Vec<Template>,
    pub template_id_instruction: Instruction,
}

impl Definitions {
    /// Well-formedness of a compiled set: every template's instructions are
    /// well-formed, every static reference points backwards in declaration
    /// order, and the template-id instruction is the copy-operator `uInt32`
    /// the transfer encoding prescribes.
    pub open spec fn wf(&self) -> bool {
        &&& forall|t: int|
            0 <= t < self.templates@.len() ==> instrs_wf(
                #[trigger] self.templates@[t].instructions@,
            ) && instrs_refs_ranked(
                self.templates@[t].instructions@,
                tpl_names(self.templates@),
                t,
            )
        &&& instr_wf(self.template_id_instruction)
        &&& self.template_id_instruction.value_type is UInt32
        &&& self.template_id_instruction.operator is Copy
        &&& self.template_id_instruction.presence is Mandatory
        &&& self.template_id_instruction.instructions@.len() == 0
    }

    /// How many templates the set holds.
    pub fn template_count(&self) -> (r: usize)
        ensures
            r == self.templates@.len(),
    {
        self.templates.len()
    }

    /// The first template with the given id.
    pub fn find_index_by_id(&self, id: u32) -> (r: Option<usize>)
        ensures
            match r {
                Some(j) => j < self.templates@.len() && self.templates@[j as int].id == id,
                None => true,
            },
    {
        let mut j: usize = 0;
        while j < self.templates.len()
            invariant
                j <= self.templates@.len(),
            decreases self.templates@.len() - j,
        {
            if self.templates[j].id == id {
                return Some(j);
            }
            j = j + 1;
        }
        None
    }

    /// The first template with the given name, with its declaration index.
    pub fn find_index_by_name(&self, name: &str) -> (r: Option<usize>)
        ensures
            match r {
                Some(j) => {
                    &&& j < self.templates@.len()
                    &&& self.templates@[j as int].name@ == name@
                    &&& j == name_first_index(tpl_names(self.templates@), name@)
                },
                None => name_first_index(tpl_names(self.templates@), name@)
                    >= self.templates@.len(),
            },
    {
        let ghost names = tpl_names(self.templates@);
        let mut j: usize = 0;
        proof {
            lemma_name_first_index_le(names, name@);
        }
        while j < self.templates.len()
            invariant
                j <= self.templates@.len(),
                names == tpl_names(self.templates@),
                name_first_index(names, name@) >= j,
            decreases self.templates@.len() - j,
        {
            if str_eq(self.templates[j].name.as_str(), name) {
                proof {
                    lemma_name_first_index_le(names, name@);
                    if name_first_index(names, name@) > j {
                        assert(names[j as int] != name@);
                    }
                }
                return Some(j);
            }
            proof {
                lemma_name_first_index_le(names, name@);
                if name_first_index(names, name@) == j {
                    assert(names[j as int] == name@);
                }
            }
            j = j + 1;
        }
        None
    }

    /// Compile a template set from its XML text and run the finalize pass.
    /// Success requires the text to parse as XML; each `<template>` child
    /// is compiled by `Template::from_node` and then finalized in
    /// declaration order.
    pub fn new_from_xml(text: &str) -> (r: Result<Definitions, Error>)
        ensures
            match r {
                Ok(d) => d.wf() && crate::xml::xml_parses(text@),
                Err(_) => true,
            },
    {
        let root = match parse_xml(text) {
            Ok(x) => x,
            Err(e) => {
                return Err(e);
            },
        };
        let mut templates: Vec<Template> = Vec::new();
        let mut j: usize = 0;
        while j < root.children.len()
            invariant
                j <= root.children@.len(),
                forall|t: int|
                    0 <= t < templates@.len() ==> instrs_wf(#[trigger] templates@[t].instructions@),
            decreases root.children@.len() - j,
        {
            let t = match Template::from_node(&root.children[j]) {
                Ok(t) => t,
                Err(e) => {
                    return Err(e);
                },
            };
            templates.push(t);
            j = j + 1;
        }
        let templates = match finalize_templates(templates) {
            Ok(ts) => ts,
            Err(e) => {
                return Err(e);
            },
        };
        let mut tid = Instruction::new(0, "__template_id__", ValueType::UInt32);
        tid.operator = Operator::Copy;
        tid.dictionary = Dictionary::Global;
        Ok(Definitions { templates, template_id_instruction: tid })
    }
}

/// Whether a primitive field's operator claims a presence-map bit: default,
/// copy, increment and tail always do, a constant only when optional, none
/// and delta never.
pub open spec fn spec_op_bit(op: Operator, presence: Presence) -> bool {
    match op {
        Operator::NoOp | Operator::Delta => false,
        Operator::Default | Operator::Copy | Operator::Increment | Operator::Tail => true,
        Operator::Constant => presence is Optional,
    }
}

fn operator_bit(op: Operator, optional: bool) -> (r: bool)
    ensures
        r == spec_op_bit(
            op,
            if optional {
                Presence::Optional
            } else {
                Presence::Mandatory
            },
        ),
{
    match op {
        Operator::NoOp | Operator::Delta => false,
        Operator::Default | Operator::Copy | Operator::Increment | Operator::Tail => true,
        Operator::Constant => optional,
    }
}

/// The finalize pass: compute the presence-map analysis for every template,
/// in declaration order.
fn finalize_templates(templates: Vec<Template>) -> (r: Result<Vec<Template>, Error>)
    requires
        forall|t: int|
            0 <= t < templates@.len() ==> instrs_wf(#[trigger] templates@[t].instructions@),
    ensures
        match r {
            Ok(ts) => {
                &&& ts@.len() == templates@.len()
                &&& tpl_names(ts@) == tpl_names(templates@)
                &&& forall|t: int|
                    0 <= t < ts@.len() ==> instrs_wf(#[trigger] ts@[t].instructions@)
                        && instrs_refs_ranked(ts@[t].instructions@, tpl_names(ts@), t)
            },
            Err(_) => true,
        },
{
    let mut processed: Vec<(String, bool)> = Vec::new();
    let mut out: Vec<Template> = Vec::new();
    let mut rest = templates;
    let ghost all_names = tpl_names(rest@);
    let ghost total = rest@.len();
    while rest.len() > 0
        invariant
            out@.len() + rest@.len() == total,
            all_names.len() == total,
            forall|t: int| 0 <= t < rest@.len() ==> instrs_wf(#[trigger] rest@[t].instructions@),
            forall|t: int|
                0 <= t < out@.len() ==> instrs_wf(#[trigger] out@[t].instructions@)
                    && instrs_refs_ranked(out@[t].instructions@, all_names, t),
            forall|t: int| 0 <= t < out@.len() ==> #[trigger] out@[t].name@ == all_names[t],
            forall|t: int|
                0 <= t < rest@.len() ==> #[trigger] rest@[t].name@ == all_names[out@.len() + t],
            processed@.len() == out@.len(),
            forall|t: int|
                0 <= t < processed@.len() ==> #[trigger] processed@[t].0@ == all_names[t],
        decreases rest@.len(),
    {
        let mut tpl = rest.remove(0);
        let ghost bound = out@.len() as int;
        let mut kids: Vec<Instruction> = Vec::new();
        core::mem::swap(&mut tpl.instructions, &mut kids);
        let (instrs, bits) = match finalize_instrs(
            kids,
            &processed,
            Ghost(all_names),
            Ghost(bound),
        ) {
            Ok(x) => x,
            Err(e) => {
                return Err(e);
            },
        };
        let req = any_bit(&bits, 0);
        tpl.instructions = instrs;
        tpl.require_pmap = Some(req);
        let ghost nm = tpl.name@;
        let ghost processed_pre = processed@;
        processed.push((tpl.name.clone(), req));
        out.push(tpl);
        proof {
            assert(processed@.last().0@ == nm);
            assert(out@.last().name@ == nm);
            assert forall|t: int|
                0 <= t < processed@.len() implies #[trigger] processed@[t].0@ == all_names[t] by {
                if t < processed@.len() - 1 {
                    assert(processed@[t] == processed_pre[t]);
                }
            }
        }
    }
    proof {
        assert(tpl_names(out@) =~= all_names);
        assert forall|t: int| 0 <= t < out@.len() implies instrs_wf(
            #[trigger] out@[t].instructions@,
        ) && instrs_refs_ranked(out@[t].instructions@, tpl_names(out@), t) by {}
    }
    Ok(out)
}

/// Finalize a list of instructions; beside the finalized list, report for
/// each instruction whether it claims a bit of the enclosing presence map.
fn finalize_instrs(
    instrs: Vec<Instruction>,
    processed: &Vec<(String, bool)>,
    Ghost(names): Ghost<Seq<Seq<char>>>,
    Ghost(bound): Ghost<int>,
) -> (r: Result<(Vec<Instruction>, Vec<bool>), Error>)
    requires
        instrs_wf(instrs@),
        processed@.len() == bound,
        0 <= bound <= names.len(),
        forall|t: int| 0 <= t < bound ==> #[trigger] processed@[t].0@ == names[t],
    ensures
        match r {
            Ok((out, bits)) => instrs_wf(out@) && instrs_refs_ranked(out@, names, bound)
                && seq_shapes_match(instrs@, out@) && bits@.len() == out@.len(),
            Err(_) => true,
        },
    decreases instrs@, 1int, 0int,
{
    let mut out: Vec<Instruction> = Vec::new();
    let mut bits: Vec<bool> = Vec::new();
    let mut rest = instrs;
    let ghost orig = rest@;
    proof {
        assert(orig == instrs@);
        assert(orig.skip(0) =~= orig);
        assert(seq_shapes_match(orig.take(0), out@));
    }
    let rlen: usize = rest.len();
    proof {
        assert(orig.len() == rlen);
    }
    let mut taken: usize = 0;
    while rest.len() > 0
        invariant
            orig == instrs@,
            instrs_wf(rest@),
            instrs_wf(out@),
            instrs_refs_ranked(out@, names, bound),
            processed@.len() == bound,
            0 <= bound <= names.len(),
            forall|t: int| 0 <= t < bound ==> #[trigger] processed@[t].0@ == names[t],
            taken == out@.len(),
            taken <= orig.len(),
            orig.len() <= usize::MAX,
            bits@.len() == out@.len(),
            taken + rest@.len() == orig.len(),
            rest@ == orig.skip(taken as int),
            seq_shapes_match(orig.take(taken as int), out@),
        decreases rest@.len(),
    {
        let i = rest.remove(0);
        proof {
            assert(orig.skip(taken as int)[0] == orig[taken as int]);
            assert(instr_wf(i));
        }
        let (fi, bit) = match finalize_instr(i, processed, Ghost(names), Ghost(bound)) {
            Ok(x) => x,
            Err(e) => {
                return Err(e);
            },
        };
        proof {
            lemma_instrs_wf_push(out@, fi);
            lemma_instrs_refs_ranked_push(out@, names, bound, fi);
            lemma_shapes_push(orig.take(taken as int), out@, orig[taken as int], fi);
            assert(orig.take(taken as int).push(orig[taken as int]) =~= orig.take(taken + 1));
            assert(orig.skip(taken as int).skip(1) =~= orig.skip(taken + 1));
        }
        out.push(fi);
        bits.push(bit);
        taken = taken + 1;
    }
    proof {
        assert(orig.take(taken as int) =~= orig);
    }
    Ok((out, bits))
}

/// Whether any of the bits from `from` on is set.
fn any_bit(bits: &Vec<bool>, from: usize) -> bool {
    let mut k: usize = from;
    let mut any: bool = false;
    while k < bits.len()
        decreases bits@.len() - k,
    {
        any = any || bits[k];
        k = k + 1;
    }
    any
}

/// Shape equality up to the presence-map analysis: everything but the
/// `has_pmap` flags is unchanged.
pub open spec fn shapes_match(a: Instruction, b: Instruction) -> bool
    decreases a,
{
    &&& b.id == a.id
    &&& b.name == a.name
    &&& b.value_type == a.value_type
    &&& b.presence == a.presence
    &&& b.operator == a.operator
    &&& b.initial_value == a.initial_value
    &&& b.dictionary == a.dictionary
    &&& b.type_ref == a.type_ref
    &&& b.key == a.key
    &&& seq_shapes_match(a.instructions@, b.instructions@)
}

pub open spec fn seq_shapes_match(a: Seq<Instruction>, b: Seq<Instruction>) -> bool
    decreases a,
{
    if a.len() != b.len() {
        false
    } else if a.len() == 0 {
        true
    } else {
        shapes_match(a[0], b[0]) && seq_shapes_match(a.skip(1), b.skip(1))
    }
}

pub proof fn lemma_shapes_reflexive(s: Seq<Instruction>)
    ensures
        seq_shapes_match(s, s),
    decreases s,
{
    if s.len() > 0 {
        lemma_shape_reflexive(s[0]);
        lemma_shapes_reflexive(s.skip(1));
    }
}

pub proof fn lemma_shape_reflexive(i: Instruction)
    ensures
        shapes_match(i, i),
    decreases i,
{
    lemma_shapes_reflexive(i.instructions@);
}

proof fn lemma_shapes_push(a: Seq<Instruction>, b: Seq<Instruction>, x: Instruction, y: Instruction)
    requires
        seq_shapes_match(a, b),
        shapes_match(x, y),
    ensures
        seq_shapes_match(a.push(x), b.push(y)),
    decreases a.len(),
{
    if a.len() == 0 {
        assert(a.push(x)[0] == x);
        assert(b.push(y)[0] == y);
        assert(a.push(x).skip(1) =~= Seq::<Instruction>::empty());
        assert(b.push(y).skip(1) =~= Seq::<Instruction>::empty());
        assert(seq_shapes_match(Seq::<Instruction>::empty(), Seq::<Instruction>::empty()));
        assert(seq_shapes_match(a.push(x), b.push(y)));
    } else {
        assert(a.push(x)[0] == a[0]);
        assert(b.push(y)[0] == b[0]);
        assert(a.push(x).skip(1) =~= a.skip(1).push(x));
        assert(b.push(y).skip(1) =~= b.skip(1).push(y));
        lemma_shapes_push(a.skip(1), b.skip(1), x, y);
        assert(seq_shapes_match(a.push(x), b.push(y)));
    }
}

/// Finalize one instruction: compute whether it claims a presence-map bit
/// and whether its body opens a nested segment.
fn finalize_instr(
    i: Instruction,
    processed: &Vec<(String, bool)>,
    Ghost(names): Ghost<Seq<Seq<char>>>,
    Ghost(bound): Ghost<int>,
) -> (r: Result<(Instruction, bool), Error>)
    requires
        instr_wf(i),
        processed@.len() == bound,
        0 <= bound <= names.len(),
        forall|t: int| 0 <= t < bound ==> #[trigger] processed@[t].0@ == names[t],
    ensures
        match r {
            Ok((out, bit)) => instr_wf(out) && instr_refs_ranked(out, names, bound)
                && shapes_match(i, out),
            Err(_) => true,
        },
    decreases i, 0int, 0int,
{
    match i.value_type {
        ValueType::TemplateReference => {
            let mut out = i;
            if out.name.as_str().unicode_len() == 0 {
                // dynamic reference: it opens its own outer segment and
                // claims no bit here
                out.has_pmap = false;
                proof {
                    lemma_shapes_reflexive(i.instructions@);
                    assert(shapes_match(i, out));
                }
                return Ok((out, false));
            }
            // static reference: the target must be finalized already
            let mut j: usize = 0;
            let ghost nm = out.name@;
            while j < processed.len()
                invariant
                    j <= processed@.len(),
                    processed@.len() == bound,
                    0 <= bound <= names.len(),
                    forall|t: int| 0 <= t < bound ==> #[trigger] processed@[t].0@ == names[t],
                    forall|t: int| 0 <= t < j ==> #[trigger] processed@[t].0@ != nm,
                    nm == out.name@,
                    out == i,
                    instr_wf(i),
                    i.value_type is TemplateReference,
                decreases processed@.len() - j,
            {
                if str_eq(processed[j].0.as_str(), out.name.as_str()) {
                    let req = processed[j].1;
                    out.has_pmap = req;
                    proof {
                        lemma_name_first_index_le(names, nm);
                        assert(names[j as int] == nm);
                        if name_first_index(names, nm) < j {
                            let f = name_first_index(names, nm);
                            assert(names[f] == nm);
                            assert(processed@[f].0@ == nm);
                        }
                        assert(name_first_index(names, nm) <= j < bound);
                        lemma_shapes_reflexive(i.instructions@);
                        assert(shapes_match(i, out));
                        assert(instr_wf(out));
                    }
                    return Ok((out, req));
                }
                j = j + 1;
            }
            Err(Error::Static("static template reference target is not declared yet".to_owned()))
        },
        ValueType::Group => {
            let mut out = i;
            let mut kids: Vec<Instruction> = Vec::new();
            core::mem::swap(&mut out.instructions, &mut kids);
            proof {
                assert(kids@ == i.instructions@);
            }
            let (fk, bits) = match finalize_instrs(kids, processed, Ghost(names), Ghost(bound)) {
                Ok(x) => x,
                Err(e) => {
                    return Err(e);
                },
            };
            let any = any_bit(&bits, 0);
            proof {
                lemma_shapes_len(i.instructions@, fk@);
            }
            out.instructions = fk;
            out.has_pmap = any;
            let bit = out.is_optional() || any;
            proof {
                assert(instr_wf(out));
                assert(instr_refs_ranked(out, names, bound));
                assert(shapes_match(i, out));
            }
            Ok((out, bit))
        },
        ValueType::Sequence => {
            let mut out = i;
            let mut kids: Vec<Instruction> = Vec::new();
            core::mem::swap(&mut out.instructions, &mut kids);
            proof {
                assert(kids@ == i.instructions@);
            }
            let (fk, bits) = match finalize_instrs(kids, processed, Ghost(names), Ghost(bound)) {
                Ok(x) => x,
                Err(e) => {
                    return Err(e);
                },
            };
            proof {
                lemma_shapes_len(i.instructions@, fk@);
            }
            // the sequence claims a bit through its length field; the items
            // form segments when any instruction after the length needs one
            let any_after = any_bit(&bits, 1);
            let length_bit = bits[0];
            out.instructions = fk;
            out.has_pmap = any_after;
            proof {
                assert(instr_wf(out));
                assert(instr_refs_ranked(out, names, bound));
                assert(shapes_match(i, out));
            }
            Ok((out, length_bit))
        },
        ValueType::Decimal => {
            let mut out = i;
            let mut kids: Vec<Instruction> = Vec::new();
            core::mem::swap(&mut out.instructions, &mut kids);
            proof {
                assert(kids@ == i.instructions@);
                assert(kids@.skip(1)[0] == kids@[1]);
                assert(kids@.skip(1).skip(1) =~= Seq::<Instruction>::empty());
                assert(instrs_wf(Seq::<Instruction>::empty()));
                assert(instrs_wf(kids@.skip(1)));
                assert(instrs_wf(kids@));
            }
            let (fk, bits) = match finalize_instrs(kids, processed, Ghost(names), Ghost(bound)) {
                Ok(x) => x,
                Err(e) => {
                    return Err(e);
                },
            };
            proof {
                lemma_shapes_len(i.instructions@, fk@);
                lemma_instrs_wf_index(fk@, 0);
                lemma_instrs_wf_index(fk@, 1);
                assert(shapes_match(i.instructions@[0], fk@[0]));
                assert(shapes_match(i.instructions@[1], fk@[1]));
            }
            let b0 = bits[0];
            let b1 = bits[1];
            let own = operator_bit(out.operator, out.is_optional());
            out.instructions = fk;
            out.has_pmap = b0 || b1;
            proof {
                assert(instr_wf(out));
                assert(instr_refs_ranked(out, names, bound));
                assert(shapes_match(i, out));
            }
            Ok((out, b0 || b1 || own))
        },
        _ => {
            let mut out = i;
            out.has_pmap = false;
            let bit = operator_bit(out.operator, out.is_optional());
            proof {
                lemma_shapes_reflexive(i.instructions@);
                assert(shapes_match(i, out));
            }
            Ok((out, bit))
        },
    }
}

proof fn lemma_shapes_len(a: Seq<Instruction>, b: Seq<Instruction>)
    requires
        seq_shapes_match(a, b),
    ensures
        a.len() == b.len(),
        forall|i: int| 0 <= i < a.len() ==> shapes_match(a[i], #[trigger] b[i]),
    decreases a.len(),
{
    if a.len() > 0 {
        lemma_shapes_len(a.skip(1), b.skip(1));
        assert forall|i: int| 0 <= i < a.len() implies shapes_match(a[i], #[trigger] b[i]) by {
            if i > 0 {
                assert(shapes_match(a.skip(1)[i - 1], b.skip(1)[i - 1]));
            }
        }
    }
}

} // verus!
