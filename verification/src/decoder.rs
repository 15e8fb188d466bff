//! The decoder: the tree walker that turns one message's bytes into events.
//!
//! Decoding reads the outer presence map and the template id, looks the
//! template up, and walks its instructions; groups and sequence items may
//! open nested segments with presence maps of their own, and template
//! references splice other templates in, statically or off the wire.  The
//! walker's terminal state is pinned by contract: on success the four
//! context stacks stand exactly as before the message.
use vstd::prelude::*;

use crate::context::{Context, DictionaryType};
use crate::errors::Error;
use crate::instruction::{
    instr_wf, instrs_wf, lemma_instrs_wf_index, Dictionary, Instruction, Operator, Presence,
    TypeRef,
};
use crate::message::{Event, MessageFactory};
use crate::operators::{
    copy_from_previous, delta_base, increment_from_previous, tail_base, tail_from_previous,
    SlotWrite,
};
use crate::pmap::PresenceMap;
use crate::reader::{find_stop, ByteReader};
use crate::stacked::Stacked;
use crate::wirespec::uval64;
use crate::template::{
    instr_refs_ranked, instrs_refs_ranked, lemma_instrs_refs_ranked_index, tpl_names, Definitions,
    Template,
};
use crate::value::{Value, ValueType, ValueV};
use vstd::string::StrSliceExecFns;

verus! {

/// The per-message context: four stacks that grow at each scope boundary
/// and shrink on exit.
pub struct DecodeScopes {
    pub template_id: Stacked<u32>,
    pub dictionary: Stacked<Dictionary>,
    pub type_ref: Stacked<TypeRef>,
    pub presence_map: Stacked<PresenceMap>,
}

impl DecodeScopes {
    pub open spec fn wf(&self) -> bool {
        &&& self.template_id.wf()
        &&& self.dictionary.wf()
        &&& self.type_ref.wf()
        &&& self.presence_map.wf()
    }
}

/// The stacks stand as before: the first three exactly, the presence-map
/// stack with the same depth and untouched lower registers (the top
/// register's cursor does move).
pub open spec fn scopes_restored(a: DecodeScopes, b: DecodeScopes) -> bool {
    &&& b.template_id@ == a.template_id@
    &&& b.dictionary@ == a.dictionary@
    &&& b.type_ref@ == a.type_ref@
    &&& b.presence_map@.len() == a.presence_map@.len()
    &&& forall|i: int|
        0 <= i < a.presence_map@.len() - 1 ==> b.presence_map@[i] == a.presence_map@[i]
    &&& b.wf()
}

/// A walk only appends to the sink's event log: what stood there stays.
pub open spec fn events_extended(a: Seq<Event>, b: Seq<Event>) -> bool {
    a.len() <= b.len() && b.subrange(0, a.len() as int) == a
}

pub proof fn lemma_events_extended_trans(a: Seq<Event>, b: Seq<Event>, c: Seq<Event>)
    requires
        events_extended(a, b),
        events_extended(b, c),
    ensures
        events_extended(a, c),
{
    assert(c.subrange(0, a.len() as int) =~= a);
}

pub proof fn lemma_events_extended_push(a: Seq<Event>, e: Event)
    ensures
        events_extended(a, a.push(e)),
{
    assert(a.push(e).subrange(0, a.len() as int) =~= a);
}

pub proof fn lemma_events_extended_index(a: Seq<Event>, b: Seq<Event>, i: int)
    requires
        events_extended(a, b),
        0 <= i < a.len(),
    ensures
        b[i] == a[i],
{
    assert(b.subrange(0, a.len() as int)[i] == b[i]);
}

pub proof fn lemma_events_extended_refl(a: Seq<Event>)
    ensures
        events_extended(a, a),
{
    assert(a.subrange(0, a.len() as int) =~= a);
}

/// The event names a template the set declares.
pub open spec fn is_declared_template_event(defs: Definitions, e: Event) -> bool {
    match e {
        Event::StartTemplate(id, nm) => exists|j: int|
            0 <= j < defs.templates@.len() && (#[trigger] defs.templates@[j]).id == id
                && defs.templates@[j].name@ == nm,
        _ => false,
    }
}

/// On success a whole-message walk emits the template frame: the first new
/// event opens a declared template and the last closes it.
pub open spec fn spec_message_events(
    defs: Definitions,
    events0: Seq<Event>,
    events1: Seq<Event>,
) -> bool {
    &&& events_extended(events0, events1)
    &&& events1.len() >= events0.len() + 2
    &&& is_declared_template_event(defs, events1[events0.len() as int])
    &&& events1.last() == Event::StopTemplate
}

/// Decoder for FAST protocol messages: the compiled templates and the
/// cross-message dictionary store.
pub struct Decoder {
    pub definitions: Definitions,
    pub context: Context,
}

impl Decoder {
    /// Compile the templates and start with an empty dictionary store.
    pub fn new_from_xml(text: &str) -> (r: Result<Decoder, Error>)
        ensures
            match r {
                Ok(d) => d.definitions.wf() && d.context@ == crate::context::empty_store_model(),
                Err(_) => true,
            },
    {
        let definitions = match Definitions::new_from_xml(text) {
            Ok(d) => d,
            Err(e) => {
                return Err(e);
            },
        };
        Ok(Decoder { definitions, context: Context::new() })
    }

    /// Drop every previous value; the templates stay.
    pub fn reset(&mut self)
        ensures
            final(self).context@ == crate::context::empty_store_model(),
            final(self).definitions == old(self).definitions,
    {
        self.context.reset();
    }

    /// Decode one message that fills the whole byte vector.
    pub fn decode_vec<M: MessageFactory>(&mut self, bytes: Vec<u8>, msg: &mut M) -> (r: Result<
        (),
        Error,
    >)
        requires
            old(self).definitions.wf(),
            bytes@.len() < 0x1000_0000_0000_0000,
        ensures
            final(self).definitions == old(self).definitions,
            events_extended(old(msg).events(), final(msg).events()),
            r is Ok ==> spec_message_events(
                old(self).definitions,
                old(msg).events(),
                final(msg).events(),
            ),
    {
        let mut rdr = ByteReader::new(bytes.as_slice());
        let r = self.decode_reader(&mut rdr, msg);
        match r {
            Ok(_) => {
                if rdr.remaining() > 0 {
                    return Err(Error::Runtime("bytes left in the buffer after decoding".to_owned()));
                }
                Ok(())
            },
            Err(e) => Err(e),
        }
    }

    /// Decode one message from the front of a byte slice.
    pub fn decode_slice<M: MessageFactory>(&mut self, bytes: &[u8], msg: &mut M) -> (r: Result<
        usize,
        Error,
    >)
        requires
            old(self).definitions.wf(),
            bytes@.len() < 0x1000_0000_0000_0000,
        ensures
            final(self).definitions == old(self).definitions,
            r is Ok ==> r->Ok_0 <= bytes@.len(),
            events_extended(old(msg).events(), final(msg).events()),
            r is Ok ==> spec_message_events(
                old(self).definitions,
                old(msg).events(),
                final(msg).events(),
            ),
    {
        let mut rdr = ByteReader::new(bytes);
        match self.decode_reader(&mut rdr, msg) {
            Ok(_) => Ok(rdr.pos),
            Err(e) => Err(e),
        }
    }

    /// Decode one message through a byte cursor.
    pub fn decode_reader<M: MessageFactory>(
        &mut self,
        rdr: &mut ByteReader,
        msg: &mut M,
    ) -> (r: Result<(), Error>)
        requires
            old(self).definitions.wf(),
            old(rdr).wf(),
            old(rdr).data@.len() < 0x1000_0000_0000_0000,
        ensures
            final(self).definitions == old(self).definitions,
            final(rdr).data == old(rdr).data,
            final(rdr).wf(),
            final(rdr).pos >= old(rdr).pos,
            events_extended(old(msg).events(), final(msg).events()),
            r is Ok ==> spec_message_events(
                old(self).definitions,
                old(msg).events(),
                final(msg).events(),
            ),
    {
        let mut scopes = DecodeScopes {
            template_id: Stacked::new_empty(),
            dictionary: Stacked::new(Dictionary::Global),
            type_ref: Stacked::new(TypeRef::Any),
            presence_map: Stacked::new_empty(),
        };
        decode_template(&self.definitions, &mut self.context, rdr, &mut scopes, msg)
    }
}

/// The scope triple — tag, template id, scope name — the current stacks
/// resolve a field's dictionary to, when they resolve at all: `Inherit`
/// never resolves, the template scope needs a current template id, and the
/// type scope falls back to the sentinel name for the special type `any`.
pub open spec fn spec_resolved_scope(scopes: DecodeScopes) -> Option<(u8, u32, Seq<char>)> {
    if scopes.dictionary@.len() == 0 {
        None
    } else {
        match scopes.dictionary@.last() {
            Dictionary::Inherit => None,
            Dictionary::Global => Some((0u8, 0u32, Seq::<char>::empty())),
            Dictionary::Template => if scopes.template_id@.len() == 0 {
                None
            } else {
                Some((1u8, scopes.template_id@.last(), Seq::<char>::empty()))
            },
            Dictionary::Type => if scopes.type_ref@.len() == 0 {
                None
            } else {
                match scopes.type_ref@.last() {
                    TypeRef::Any => Some((2u8, 0u32, "__any__"@)),
                    TypeRef::ApplicationType(n) => Some((2u8, 0u32, n@)),
                }
            },
            Dictionary::UserDefined(n) => Some((3u8, 0u32, n@)),
        }
    }
}

/// The slot a field's key occupies under the current scopes.
pub open spec fn spec_instr_slot(scopes: DecodeScopes, instr: Instruction) -> crate::context::SlotKey
    recommends
        spec_resolved_scope(scopes) is Some,
{
    let t = spec_resolved_scope(scopes)->0;
    (t.0, t.1, t.2, instr.key@)
}

/// The scope triple a resolved `DictionaryType` addresses.
pub open spec fn spec_dict_scope(d: DictionaryType) -> (u8, u32, Seq<char>) {
    match d {
        DictionaryType::Global => (0u8, 0u32, Seq::<char>::empty()),
        DictionaryType::Template(id) => (1u8, id, Seq::<char>::empty()),
        DictionaryType::Type(n) => (2u8, 0u32, n@),
        DictionaryType::UserDefined(n) => (3u8, 0u32, n@),
    }
}

/// Resolve the current dictionary scope against the scope stacks.
pub(crate) fn make_dict_type(scopes: &DecodeScopes) -> (r: Result<DictionaryType, Error>)
    requires
        scopes.wf(),
    ensures
        match r {
            Ok(d) => spec_resolved_scope(*scopes) == Some(spec_dict_scope(d)),
            Err(_) => spec_resolved_scope(*scopes) is None,
        },
{
    let dict = match scopes.dictionary.peek() {
        Some(d) => d,
        None => {
            return Err(Error::Runtime("no dictionary scope".to_owned()));
        },
    };
    match dict {
        Dictionary::Inherit => Err(Error::Runtime("unresolved dictionary scope".to_owned())),
        Dictionary::Global => Ok(DictionaryType::Global),
        Dictionary::Template => {
            match scopes.template_id.peek() {
                Some(id) => Ok(DictionaryType::Template(*id)),
                None => Err(Error::Runtime("no current template id".to_owned())),
            }
        },
        Dictionary::Type => {
            match scopes.type_ref.peek() {
                Some(TypeRef::Any) => Ok(DictionaryType::Type("__any__".to_owned())),
                Some(TypeRef::ApplicationType(name)) => Ok(DictionaryType::Type(name.clone())),
                None => Err(Error::Runtime("no current application type".to_owned())),
            }
        },
        Dictionary::UserDefined(name) => Ok(DictionaryType::UserDefined(name.clone())),
    }
}

/// Read the field's previous value; a stored value of the wrong kind is the
/// dynamic type-match error.  `Ok(None)` is the undefined state,
/// `Ok(Some(None))` the empty state, `Ok(Some(Some(v)))` an assigned
/// previous value of the field's kind.
pub(crate) fn ctx_get_checked(ctx: &Context, scopes: &DecodeScopes, instr: &Instruction) -> (r: Result<
    Option<Option<Value>>,
    Error,
>)
    requires
        scopes.wf(),
    ensures
        ({
            let slot = spec_instr_slot(*scopes, *instr);
            match r {
                Ok(v) => {
                    &&& spec_resolved_scope(*scopes) is Some
                    &&& match v {
                        None => !ctx@.contains_key(slot),
                        Some(None) => ctx@.contains_key(slot) && ctx@[slot] is None,
                        Some(Some(x)) => ctx@.contains_key(slot) && ctx@[slot] == Some(x@)
                            && instr.value_type.spec_matches(x@),
                    }
                },
                Err(_) => spec_resolved_scope(*scopes) is None || (ctx@.contains_key(slot)
                    && match ctx@[slot] {
                    Some(pv) => !instr.value_type.spec_matches(pv),
                    None => false,
                }),
            }
        }),
{
    let dict = match make_dict_type(scopes) {
        Ok(d) => d,
        Err(e) => {
            return Err(e);
        },
    };
    let v = ctx.get(&dict, &instr.key);
    match &v {
        Some(Some(stored)) => {
            if !instr.value_type.matches_type(stored) {
                return Err(Error::Runtime("field has wrong value type in context".to_owned()));
            }
        },
        _ => {},
    }
    Ok(v)
}

/// Store the field's new previous value in its slot.
pub(crate) fn ctx_set_value(
    ctx: &mut Context,
    scopes: &DecodeScopes,
    instr: &Instruction,
    v: &Option<Value>,
) -> (r: Result<(), Error>)
    requires
        scopes.wf(),
    ensures
        match r {
            Ok(_) => spec_resolved_scope(*scopes) is Some && final(ctx)@ == old(ctx)@.insert(
                spec_instr_slot(*scopes, *instr),
                crate::context::opt_value_view(*v),
            ),
            Err(_) => spec_resolved_scope(*scopes) is None && final(ctx)@ == old(ctx)@,
        },
{
    let dict = match make_dict_type(scopes) {
        Ok(d) => d,
        Err(e) => {
            return Err(e);
        },
    };
    ctx.set(&dict, &instr.key, v);
    Ok(())
}

/// Apply a pending dictionary write: `None` leaves the store alone.
pub(crate) fn ctx_apply_write(
    ctx: &mut Context,
    scopes: &DecodeScopes,
    instr: &Instruction,
    w: SlotWrite,
) -> (r: Result<(), Error>)
    requires
        scopes.wf(),
    ensures
        match w {
            None => final(ctx)@ == old(ctx)@ && r is Ok,
            Some(entry) => match r {
                Ok(_) => spec_resolved_scope(*scopes) is Some && final(ctx)@ == old(
                    ctx,
                )@.insert(
                    spec_instr_slot(*scopes, *instr),
                    crate::context::opt_value_view(entry),
                ),
                Err(_) => spec_resolved_scope(*scopes) is None && final(ctx)@ == old(ctx)@,
            },
        },
{
    match w {
        Some(entry) => ctx_set_value(ctx, scopes, instr, &entry),
        None => Ok(()),
    }
}

/// The next bit of the current segment's presence map, if a segment is
/// open at all.
pub open spec fn spec_pmap_bit(scopes: DecodeScopes) -> Option<bool> {
    match scopes.presence_map.current {
        Some(pm) => Some(pm.spec_current_bit()),
        None => None,
    }
}

/// Read the next bit of the current segment's presence map: the cursor of
/// the top register moves one position, nothing else changes.
pub(crate) fn pmap_next_bit(scopes: &mut DecodeScopes) -> (r: Result<bool, Error>)
    ensures
        final(scopes).template_id == old(scopes).template_id,
        final(scopes).dictionary == old(scopes).dictionary,
        final(scopes).type_ref == old(scopes).type_ref,
        final(scopes).presence_map.stack@ == old(scopes).presence_map.stack@,
        old(scopes).wf() ==> final(scopes).wf(),
        match r {
            Ok(b) => {
                &&& spec_pmap_bit(*old(scopes)) == Some(b)
                &&& old(scopes).presence_map.current is Some
                &&& final(scopes).presence_map.current == Some(
                    (PresenceMap {
                        bitmap: old(scopes).presence_map.current->0.bitmap,
                        mask: old(scopes).presence_map.current->0.mask >> 1u64,
                        size: old(scopes).presence_map.current->0.size,
                    }),
                )
            },
            Err(_) => old(scopes).presence_map.current is None && *final(scopes) == *old(scopes),
        },
    {
    let slot = scopes.presence_map.peek_mut();
    match slot {
        Some(pm) => Ok(pm.next_bit_set()),
        None => Err(Error::Runtime("no presence map".to_owned())),
    }
}

/// Duplicate a dictionary scope marker.
pub(crate) fn clone_dict(d: &Dictionary) -> (r: Dictionary)
    ensures
        r.spec_view() == d.spec_view(),
        (r is Inherit <==> d is Inherit),
{
    match d {
        Dictionary::Inherit => Dictionary::Inherit,
        Dictionary::Global => Dictionary::Global,
        Dictionary::Template => Dictionary::Template,
        Dictionary::Type => Dictionary::Type,
        Dictionary::UserDefined(name) => Dictionary::UserDefined(name.clone()),
    }
}

pub(crate) fn clone_type_ref(t: &TypeRef) -> (r: TypeRef)
    ensures
        r is Any <==> t is Any,
        r is ApplicationType ==> r->0@ == t->0@,
{
    match t {
        TypeRef::Any => TypeRef::Any,
        TypeRef::ApplicationType(name) => TypeRef::ApplicationType(name.clone()),
    }
}

/// Push the instruction's dictionary scope, unless it inherits.
pub(crate) fn switch_dictionary(scopes: &mut DecodeScopes, d: &Dictionary) -> (r: bool)
    ensures
        final(scopes).template_id == old(scopes).template_id,
        final(scopes).type_ref == old(scopes).type_ref,
        final(scopes).presence_map == old(scopes).presence_map,
        old(scopes).wf() ==> final(scopes).wf(),
        r ==> final(scopes).dictionary@ == old(scopes).dictionary@.push(
            final(scopes).dictionary@.last(),
        ) && final(scopes).dictionary@.len() == old(scopes).dictionary@.len() + 1,
        !r ==> final(scopes).dictionary == old(scopes).dictionary,
{
    let is_inherit = match d {
        Dictionary::Inherit => true,
        _ => false,
    };
    if !is_inherit {
        scopes.dictionary.push(clone_dict(d));
        proof {
            assert(scopes.dictionary@.last() == final(scopes).dictionary@.last());
        }
        true
    } else {
        false
    }
}

/// Pop the dictionary scope a matching switch pushed.
pub(crate) fn restore_dictionary(scopes: &mut DecodeScopes)
    requires
        old(scopes).dictionary@.len() > 0,
        old(scopes).wf(),
    ensures
        final(scopes).template_id == old(scopes).template_id,
        final(scopes).type_ref == old(scopes).type_ref,
        final(scopes).presence_map == old(scopes).presence_map,
        final(scopes).wf(),
        final(scopes).dictionary@ == old(scopes).dictionary@.drop_last(),
{
    let _ = scopes.dictionary.pop();
}

pub(crate) fn switch_type_ref(scopes: &mut DecodeScopes, t: &TypeRef) -> (r: bool)
    ensures
        final(scopes).template_id == old(scopes).template_id,
        final(scopes).dictionary == old(scopes).dictionary,
        final(scopes).presence_map == old(scopes).presence_map,
        old(scopes).wf() ==> final(scopes).wf(),
        r ==> final(scopes).type_ref@ == old(scopes).type_ref@.push(
            final(scopes).type_ref@.last(),
        ) && final(scopes).type_ref@.len() == old(scopes).type_ref@.len() + 1,
        !r ==> final(scopes).type_ref == old(scopes).type_ref,
{
    let is_any = match t {
        TypeRef::Any => true,
        _ => false,
    };
    if !is_any {
        scopes.type_ref.push(clone_type_ref(t));
        true
    } else {
        false
    }
}

pub(crate) fn restore_type_ref(scopes: &mut DecodeScopes)
    requires
        old(scopes).type_ref@.len() > 0,
        old(scopes).wf(),
    ensures
        final(scopes).template_id == old(scopes).template_id,
        final(scopes).dictionary == old(scopes).dictionary,
        final(scopes).presence_map == old(scopes).presence_map,
        final(scopes).wf(),
        final(scopes).type_ref@ == old(scopes).type_ref@.drop_last(),
{
    let _ = scopes.type_ref.pop();
}

/// Read the segment's presence map off the wire and push it.
pub(crate) fn decode_presence_map(rdr: &mut ByteReader, scopes: &mut DecodeScopes) -> (r: Result<(), Error>)
    requires
        old(rdr).wf(),
        old(rdr).data@.len() < 0x1000_0000_0000_0000,
        old(scopes).wf(),
    ensures
        final(rdr).data == old(rdr).data,
        final(rdr).wf(),
        final(rdr).pos >= old(rdr).pos,
        final(scopes).wf(),
        final(scopes).template_id == old(scopes).template_id,
        final(scopes).dictionary == old(scopes).dictionary,
        final(scopes).type_ref == old(scopes).type_ref,
        r is Ok ==> final(rdr).pos > old(rdr).pos && final(scopes).presence_map@ == old(scopes).presence_map@.push(final(scopes).presence_map@.last()) && final(scopes).presence_map.current is Some && final(scopes).presence_map.stack@ == old(scopes).presence_map@,
        r is Err ==> final(scopes).presence_map == old(scopes).presence_map,
{
    let (bitmap, size) = match rdr.read_presence_map() {
        Ok(p) => p,
        Err(e) => {
            return Err(e);
        },
    };
    if size < 1 || size > 64 {
        return Err(Error::Dynamic("presence map is too large".to_owned()));
    }
    let pm = PresenceMap::new(bitmap, size as u32);
    proof {
        assert(old(scopes).presence_map@ =~= match old(scopes).presence_map.current {
            Option::None => old(scopes).presence_map.stack@,
            Option::Some(c) => old(scopes).presence_map.stack@.push(c),
        });
    }
    scopes.presence_map.push(pm);
    proof {
        assert(scopes.presence_map@ == old(scopes).presence_map@.push(pm));
        assert(scopes.presence_map@.drop_last() =~= old(scopes).presence_map@);
        assert(scopes.presence_map.current is Some);
        assert(scopes.presence_map.stack@.push(scopes.presence_map.current->0)
            == scopes.presence_map@);
        assert(scopes.presence_map.stack@ =~= scopes.presence_map@.drop_last());
    }
    Ok(())
}

/// Pop the segment's presence map.
pub(crate) fn drop_presence_map(scopes: &mut DecodeScopes)
    requires
        old(scopes).wf(),
        old(scopes).presence_map@.len() > 0,
    ensures
        final(scopes).wf(),
        final(scopes).template_id == old(scopes).template_id,
        final(scopes).dictionary == old(scopes).dictionary,
        final(scopes).type_ref == old(scopes).type_ref,
        final(scopes).presence_map@ == old(scopes).presence_map@.drop_last(),
{
    let _ = scopes.presence_map.pop();
}

/// §4.5's no-bit transition for the copy and tail operators: an assigned
/// previous value replays; the empty state is absent when optional and a
/// dynamic error when mandatory; the undefined state takes the initial
/// value — stored — or goes to stored-empty when optional without one.
/// `r` is `None` for an error, else the field value's view.
pub open spec fn spec_replay_post(
    ctx0: Map<crate::context::SlotKey, Option<ValueV>>,
    ctx1: Map<crate::context::SlotKey, Option<ValueV>>,
    slot: crate::context::SlotKey,
    vt: ValueType,
    initial: Option<Value>,
    optional: bool,
    r: Option<Option<ValueV>>,
) -> bool {
    if !ctx0.contains_key(slot) {
        match initial {
            Some(init) => r == Some(Some(init@)) && ctx1 == ctx0.insert(slot, Some(init@)),
            None => if optional {
                r == Some(None::<ValueV>) && ctx1 == ctx0.insert(slot, None::<ValueV>)
            } else {
                r is None && ctx1 == ctx0
            },
        }
    } else {
        match ctx0[slot] {
            None => if optional {
                r == Some(None::<ValueV>) && ctx1 == ctx0
            } else {
                r is None && ctx1 == ctx0
            },
            Some(pv) => if vt.spec_matches(pv) {
                r == Some(Some(pv)) && ctx1 == ctx0
            } else {
                r is None && ctx1 == ctx0
            },
        }
    }
}

/// §4.5's no-bit transition for increment: as the replay table, except that
/// an assigned previous value is incremented and the sum stored back.
pub open spec fn spec_increment_post(
    ctx0: Map<crate::context::SlotKey, Option<ValueV>>,
    ctx1: Map<crate::context::SlotKey, Option<ValueV>>,
    slot: crate::context::SlotKey,
    vt: ValueType,
    initial: Option<Value>,
    optional: bool,
    r: Option<Option<ValueV>>,
) -> bool {
    if !ctx0.contains_key(slot) {
        match initial {
            Some(init) => r == Some(Some(init@)) && ctx1 == ctx0.insert(slot, Some(init@)),
            None => if optional {
                r == Some(None::<ValueV>) && ctx1 == ctx0.insert(slot, None::<ValueV>)
            } else {
                r is None && ctx1 == ctx0
            },
        }
    } else {
        match ctx0[slot] {
            None => if optional {
                r == Some(None::<ValueV>) && ctx1 == ctx0
            } else {
                r is None && ctx1 == ctx0
            },
            Some(pv) => if vt.spec_matches(pv) {
                match crate::value::spec_apply_increment(pv) {
                    Some(next) => r == Some(Some(next)) && ctx1 == ctx0.insert(slot, Some(next)),
                    None => r is None && ctx1 == ctx0,
                }
            } else {
                r is None && ctx1 == ctx0
            },
        }
    }
}

/// The field value the replay table yields, `None` for its error rows.
pub open spec fn spec_replay_result(
    ctx0: Map<crate::context::SlotKey, Option<ValueV>>,
    slot: crate::context::SlotKey,
    vt: ValueType,
    initial: Option<Value>,
    optional: bool,
) -> Option<Option<ValueV>> {
    if !ctx0.contains_key(slot) {
        match initial {
            Some(init) => Some(Some(init@)),
            None => if optional {
                Some(None::<ValueV>)
            } else {
                None
            },
        }
    } else {
        match ctx0[slot] {
            None => if optional {
                Some(None::<ValueV>)
            } else {
                None
            },
            Some(pv) => if vt.spec_matches(pv) {
                Some(Some(pv))
            } else {
                None
            },
        }
    }
}

/// The field value the increment table yields, `None` for its error rows.
pub open spec fn spec_increment_result(
    ctx0: Map<crate::context::SlotKey, Option<ValueV>>,
    slot: crate::context::SlotKey,
    vt: ValueType,
    initial: Option<Value>,
    optional: bool,
) -> Option<Option<ValueV>> {
    if !ctx0.contains_key(slot) {
        match initial {
            Some(init) => Some(Some(init@)),
            None => if optional {
                Some(None::<ValueV>)
            } else {
                None
            },
        }
    } else {
        match ctx0[slot] {
            None => if optional {
                Some(None::<ValueV>)
            } else {
                None
            },
            Some(pv) => if vt.spec_matches(pv) {
                match crate::value::spec_apply_increment(pv) {
                    Some(next) => Some(Some(next)),
                    None => None,
                }
            } else {
                None
            },
        }
    }
}

/// The result's view: `None` for an error, else the optional field value.
pub open spec fn spec_result_view(r: Result<Option<Value>, Error>) -> Option<Option<ValueV>> {
    match r {
        Ok(v) => Some(crate::context::opt_value_view(v)),
        Err(_) => None,
    }
}

/// What `extract` does to the previous-value store and which branch the
/// presence map selects, operator by operator — §4.5 as one relation.
/// The value read off the wire in the bit-set branches stays abstract here;
/// its kind is pinned by `extract`'s own kind clause.  A decimal under the
/// none operator delegates to its subcomponents, whose own operators write
/// their own slots, so that one case carries no store clause.
pub open spec fn spec_extract_post(
    instr: Instruction,
    ctx0: Map<crate::context::SlotKey, Option<ValueV>>,
    ctx1: Map<crate::context::SlotKey, Option<ValueV>>,
    scopes0: DecodeScopes,
    r: Result<Option<Value>, Error>,
) -> bool {
    let bit = spec_pmap_bit(scopes0);
    let scope = spec_resolved_scope(scopes0);
    let slot = spec_instr_slot(scopes0, instr);
    let rv = spec_result_view(r);
    let optional = instr.presence is Optional;
    match instr.operator {
        Operator::NoOp => !(instr.value_type is Decimal) ==> ctx1 == ctx0,
        Operator::Constant => {
            &&& ctx1 == ctx0
            &&& match instr.initial_value {
                Some(init) => {
                    &&& (!optional ==> rv == Some(Some(init@)))
                    &&& (optional ==> match bit {
                        Some(true) => rv == Some(Some(init@)),
                        Some(false) => rv == Some(None::<ValueV>),
                        None => rv is None,
                    })
                },
                None => rv is None,
            }
        },
        Operator::Default => {
            &&& ctx1 == ctx0
            &&& match bit {
                Some(false) => match instr.initial_value {
                    Some(init) => rv == Some(Some(init@)),
                    None => if optional {
                        rv == Some(None::<ValueV>)
                    } else {
                        rv is None
                    },
                },
                Some(true) => true,
                None => rv is None,
            }
        },
        Operator::Copy => match bit {
            None => rv is None && ctx1 == ctx0,
            Some(true) => match r {
                Ok(v) => scope is Some && ctx1 == ctx0.insert(
                    slot,
                    crate::context::opt_value_view(v),
                ),
                Err(_) => ctx1 == ctx0,
            },
            Some(false) => if scope is Some {
                spec_replay_post(
                    ctx0,
                    ctx1,
                    slot,
                    instr.value_type,
                    instr.initial_value,
                    optional,
                    rv,
                )
            } else {
                rv is None && ctx1 == ctx0
            },
        },
        Operator::Increment => match bit {
            None => rv is None && ctx1 == ctx0,
            Some(true) => match r {
                Ok(v) => scope is Some && ctx1 == ctx0.insert(
                    slot,
                    crate::context::opt_value_view(v),
                ),
                Err(_) => ctx1 == ctx0,
            },
            Some(false) => if scope is Some {
                spec_increment_post(
                    ctx0,
                    ctx1,
                    slot,
                    instr.value_type,
                    instr.initial_value,
                    optional,
                    rv,
                )
            } else {
                rv is None && ctx1 == ctx0
            },
        },
        Operator::Delta => match r {
            Ok(None) => ctx1 == ctx0,
            Ok(Some(v)) => scope is Some && ctx1 == ctx0.insert(slot, Some(v@)),
            Err(_) => ctx1 == ctx0,
        },
        Operator::Tail => match bit {
            None => rv is None && ctx1 == ctx0,
            Some(true) => match r {
                Ok(None) => ctx1 == ctx0,
                Ok(Some(v)) => scope is Some && ctx1 == ctx0.insert(slot, Some(v@)),
                Err(_) => ctx1 == ctx0,
            },
            Some(false) => if scope is Some {
                spec_replay_post(
                    ctx0,
                    ctx1,
                    slot,
                    instr.value_type,
                    instr.initial_value,
                    optional,
                    rv,
                )
            } else {
                rv is None && ctx1 == ctx0
            },
        },
    }
}

/// The stop-bit run at `pos0` in `data` read as this integer kind's value:
/// unsigned kinds through the unsigned codec, signed kinds through the
/// signed one, each shifted for nullability, the `int32` kinds checked
/// against their range and a decoded exponent against [-63, 63].
/// Holds vacuously for the non-integer kinds.
pub open spec fn spec_wire_int_value(
    vt: ValueType,
    nullable: bool,
    data: Seq<u8>,
    pos0: int,
    pos1: int,
    rv: Option<ValueV>,
) -> bool {
    let stop = find_stop(data, pos0);
    match vt {
        ValueType::UInt32 | ValueType::Length | ValueType::UInt64 => {
            &&& stop is Some
            &&& pos1 == stop->0 + 1
            &&& {
                let raw = uval64(data.subrange(pos0, stop->0 + 1));
                let dec: Option<nat> = if nullable {
                    if raw == 0 {
                        None
                    } else {
                        Some((raw - 1) as nat)
                    }
                } else {
                    Some(raw)
                };
                match rv {
                    Some(ValueV::UInt32(x)) => dec == Some(x as nat) && !(vt is UInt64),
                    Some(ValueV::UInt64(x)) => dec == Some(x as nat) && vt is UInt64,
                    None => dec is None,
                    _ => false,
                }
            }
        },
        ValueType::Int32 | ValueType::Exponent | ValueType::Int64 | ValueType::Mantissa => {
            &&& stop is Some
            &&& pos1 == stop->0 + 1
            &&& {
                let raw = crate::wirespec::sval64(data.subrange(pos0, stop->0 + 1));
                let dec: Option<int> = if nullable {
                    if raw == 0 {
                        None
                    } else if raw > 0 {
                        Some(raw - 1)
                    } else {
                        Some(raw)
                    }
                } else {
                    Some(raw)
                };
                match rv {
                    Some(ValueV::Int32(x)) => dec == Some(x as int) && (vt is Int32
                        || vt is Exponent) && (vt is Exponent ==> -63 <= x <= 63),
                    Some(ValueV::Int64(x)) => dec == Some(x as int) && (vt is Int64
                        || vt is Mantissa),
                    None => dec is None,
                    _ => false,
                }
            }
        },
        _ => true,
    }
}

/// Read one wire value of the instruction's kind, honouring nullability.
fn read_value(
    ctx: &mut Context,
    rdr: &mut ByteReader,
    scopes: &mut DecodeScopes,
    instr: &Instruction,
) -> (r: Result<Option<Value>, Error>)
    requires
        instr_wf(*instr),
        old(rdr).wf(),
        old(rdr).data@.len() < 0x1000_0000_0000_0000,
        old(scopes).wf(),
    ensures
        final(rdr).data == old(rdr).data,
        final(rdr).wf(),
        final(rdr).pos >= old(rdr).pos,
        scopes_restored(*old(scopes), *final(scopes)),
        match r {
            Ok(Some(v)) => instr.value_type.spec_matches(v@),
            _ => true,
        },
        !(instr.value_type is Decimal) ==> final(ctx)@ == old(ctx)@ && final(scopes).presence_map
            == old(scopes).presence_map,
        instr.value_type is Decimal && instr.instructions@[0].operator is NoOp
            && instr.instructions@[1].operator is NoOp ==> final(ctx)@ == old(ctx)@ && final(scopes).presence_map == old(scopes).presence_map,
        r matches Ok(v) ==> spec_wire_int_value(
            instr.value_type,
            !(instr.operator is Constant) && instr.presence is Optional,
            old(rdr).data@,
            old(rdr).pos as int,
            final(rdr).pos as int,
            crate::context::opt_value_view(v),
        ),
    decreases *instr, 0int,
{
    let nullable = instr.is_nullable();
    match instr.value_type {
        ValueType::UInt32 | ValueType::Length => {
            let v = if nullable {
                match rdr.read_uint_nullable() {
                    Ok(None) => {
                        return Ok(None);
                    },
                    Ok(Some(v)) => v,
                    Err(e) => {
                        return Err(e);
                    },
                }
            } else {
                match rdr.read_uint() {
                    Ok(v) => v,
                    Err(e) => {
                        return Err(e);
                    },
                }
            };
            if v > 0xffff_ffffu64 {
                return Err(Error::Runtime("uInt32 value is out of range".to_owned()));
            }
            Ok(Some(Value::UInt32(v as u32)))
        },
        ValueType::UInt64 => {
            if nullable {
                match rdr.read_uint_nullable() {
                    Ok(None) => Ok(None),
                    Ok(Some(v)) => Ok(Some(Value::UInt64(v))),
                    Err(e) => Err(e),
                }
            } else {
                match rdr.read_uint() {
                    Ok(v) => Ok(Some(Value::UInt64(v))),
                    Err(e) => Err(e),
                }
            }
        },
        ValueType::Int32 => {
            let v = if nullable {
                match rdr.read_int_nullable() {
                    Ok(None) => {
                        return Ok(None);
                    },
                    Ok(Some(v)) => v,
                    Err(e) => {
                        return Err(e);
                    },
                }
            } else {
                match rdr.read_int() {
                    Ok(v) => v,
                    Err(e) => {
                        return Err(e);
                    },
                }
            };
            if v < -0x8000_0000i64 || v > 0x7fff_ffffi64 {
                return Err(Error::Runtime("int32 value is out of range".to_owned()));
            }
            Ok(Some(Value::Int32(v as i32)))
        },
        ValueType::Int64 | ValueType::Mantissa => {
            if nullable {
                match rdr.read_int_nullable() {
                    Ok(None) => Ok(None),
                    Ok(Some(v)) => Ok(Some(Value::Int64(v))),
                    Err(e) => Err(e),
                }
            } else {
                match rdr.read_int() {
                    Ok(v) => Ok(Some(Value::Int64(v))),
                    Err(e) => Err(e),
                }
            }
        },
        ValueType::Exponent => {
            let v = if nullable {
                match rdr.read_int_nullable() {
                    Ok(None) => {
                        return Ok(None);
                    },
                    Ok(Some(v)) => v,
                    Err(e) => {
                        return Err(e);
                    },
                }
            } else {
                match rdr.read_int() {
                    Ok(v) => v,
                    Err(e) => {
                        return Err(e);
                    },
                }
            };
            if v < -63i64 || v > 63i64 {
                return Err(Error::Dynamic("exponent value is out of range".to_owned()));
            }
            Ok(Some(Value::Int32(v as i32)))
        },
        ValueType::ASCIIString => {
            if nullable {
                match rdr.read_ascii_string_nullable() {
                    Ok(None) => Ok(None),
                    Ok(Some(s)) => Ok(Some(Value::ASCIIString(s))),
                    Err(e) => Err(e),
                }
            } else {
                match rdr.read_ascii_string() {
                    Ok(s) => Ok(Some(Value::ASCIIString(s))),
                    Err(e) => Err(e),
                }
            }
        },
        ValueType::UnicodeString => {
            if nullable {
                match rdr.read_unicode_string_nullable() {
                    Ok(None) => Ok(None),
                    Ok(Some(s)) => Ok(Some(Value::UnicodeString(s))),
                    Err(e) => Err(e),
                }
            } else {
                match rdr.read_unicode_string() {
                    Ok(s) => Ok(Some(Value::UnicodeString(s))),
                    Err(e) => Err(e),
                }
            }
        },
        ValueType::Bytes => {
            if nullable {
                match rdr.read_bytes_nullable() {
                    Ok(None) => Ok(None),
                    Ok(Some(b)) => Ok(Some(Value::Bytes(b))),
                    Err(e) => Err(e),
                }
            } else {
                match rdr.read_bytes() {
                    Ok(b) => Ok(Some(Value::Bytes(b))),
                    Err(e) => Err(e),
                }
            }
        },
        ValueType::Decimal => {
            // a scaled number: the exponent subcomponent, then — unless the
            // exponent says the whole decimal is absent — the mantissa
            let exponent = match extract(ctx, rdr, scopes, &instr.instructions[0]) {
                Ok(v) => v,
                Err(e) => {
                    return Err(e);
                },
            };
            let e = match exponent {
                None => {
                    return Ok(None);
                },
                Some(Value::Int32(e)) => e,
                Some(_) => {
                    return Err(Error::Runtime("exponent has wrong type".to_owned()));
                },
            };
            let mantissa = match extract(ctx, rdr, scopes, &instr.instructions[1]) {
                Ok(v) => v,
                Err(e) => {
                    return Err(e);
                },
            };
            let m = match mantissa {
                Some(Value::Int64(m)) => m,
                _ => {
                    return Err(Error::Runtime("mantissa not found".to_owned()));
                },
            };
            Ok(Some(Value::Decimal(crate::decimal::Decimal { exponent: e, mantissa: m })))
        },
        _ => Err(Error::Runtime("composite cannot be read as a value".to_owned())),
    }
}

/// Read a transmitted delta: an integer difference, or a subtraction
/// length with the replacement text.
fn read_delta(rdr: &mut ByteReader, instr: &Instruction) -> (r: Result<
    Option<(Value, i32)>,
    Error,
>)
    requires
        old(rdr).wf(),
        old(rdr).data@.len() < 0x1000_0000_0000_0000,
    ensures
        final(rdr).data == old(rdr).data,
        final(rdr).wf(),
        final(rdr).pos >= old(rdr).pos,
{
    let nullable = instr.is_nullable();
    match instr.value_type {
        ValueType::UInt32 | ValueType::Int32 | ValueType::UInt64 | ValueType::Int64
            | ValueType::Length | ValueType::Exponent | ValueType::Mantissa => {
            if nullable {
                match rdr.read_int_nullable() {
                    Ok(None) => Ok(None),
                    Ok(Some(v)) => Ok(Some((Value::Int64(v), 0))),
                    Err(e) => Err(e),
                }
            } else {
                match rdr.read_int() {
                    Ok(v) => Ok(Some((Value::Int64(v), 0))),
                    Err(e) => Err(e),
                }
            }
        },
        ValueType::ASCIIString | ValueType::UnicodeString | ValueType::Bytes => {
            let sub = if nullable {
                match rdr.read_int_nullable() {
                    Ok(None) => {
                        return Ok(None);
                    },
                    Ok(Some(v)) => v,
                    Err(e) => {
                        return Err(e);
                    },
                }
            } else {
                match rdr.read_int() {
                    Ok(v) => v,
                    Err(e) => {
                        return Err(e);
                    },
                }
            };
            if sub < -0x8000_0000i64 || sub > 0x7fff_ffffi64 {
                return Err(Error::Dynamic("subtraction length is out of range".to_owned()));
            }
            match instr.value_type {
                ValueType::ASCIIString => {
                    match rdr.read_ascii_string() {
                        Ok(diff) => Ok(Some((Value::ASCIIString(diff), sub as i32))),
                        Err(e) => Err(e),
                    }
                },
                _ => {
                    match rdr.read_bytes() {
                        Ok(diff) => Ok(Some((Value::Bytes(diff), sub as i32))),
                        Err(e) => Err(e),
                    }
                },
            }
        },
        _ => Err(Error::Runtime("delta is not applicable to this kind".to_owned())),
    }
}

/// Read a transmitted tail.
fn read_tail(rdr: &mut ByteReader, instr: &Instruction) -> (r: Result<Option<Value>, Error>)
    requires
        old(rdr).wf(),
        old(rdr).data@.len() < 0x1000_0000_0000_0000,
    ensures
        final(rdr).data == old(rdr).data,
        final(rdr).wf(),
        final(rdr).pos >= old(rdr).pos,
{
    let nullable = instr.is_nullable();
    match instr.value_type {
        ValueType::ASCIIString => {
            if nullable {
                match rdr.read_ascii_string_nullable() {
                    Ok(None) => Ok(None),
                    Ok(Some(s)) => Ok(Some(Value::ASCIIString(s))),
                    Err(e) => Err(e),
                }
            } else {
                match rdr.read_ascii_string() {
                    Ok(s) => Ok(Some(Value::ASCIIString(s))),
                    Err(e) => Err(e),
                }
            }
        },
        ValueType::UnicodeString | ValueType::Bytes => {
            if nullable {
                match rdr.read_bytes_nullable() {
                    Ok(None) => Ok(None),
                    Ok(Some(b)) => Ok(Some(Value::Bytes(b))),
                    Err(e) => Err(e),
                }
            } else {
                match rdr.read_bytes() {
                    Ok(b) => Ok(Some(Value::Bytes(b))),
                    Err(e) => Err(e),
                }
            }
        },
        _ => Err(Error::Runtime("tail is not applicable to this kind".to_owned())),
    }
}

/// Run the operator pipeline for one primitive or decimal field.
fn extract(
    ctx: &mut Context,
    rdr: &mut ByteReader,
    scopes: &mut DecodeScopes,
    instr: &Instruction,
) -> (r: Result<Option<Value>, Error>)
    requires
        instr_wf(*instr),
        old(rdr).wf(),
        old(rdr).data@.len() < 0x1000_0000_0000_0000,
        old(scopes).wf(),
    ensures
        final(rdr).data == old(rdr).data,
        final(rdr).wf(),
        final(rdr).pos >= old(rdr).pos,
        scopes_restored(*old(scopes), *final(scopes)),
        match r {
            Ok(Some(v)) => instr.value_type.spec_matches(v@),
            _ => true,
        },
        spec_extract_post(*instr, old(ctx)@, final(ctx)@, *old(scopes), r),
        instr.operator is Delta || (instr.operator is Constant && instr.presence is Mandatory)
            || (instr.operator is NoOp && !(instr.value_type is Decimal)) || (
        instr.operator is NoOp && instr.value_type is Decimal
            && instr.instructions@[0].operator is NoOp && instr.instructions@[1].operator is NoOp)
            ==> final(scopes).presence_map == old(scopes).presence_map,
        (instr.operator is Default || instr.operator is Copy || instr.operator is Increment
            || instr.operator is Tail || (instr.operator is Constant
            && instr.presence is Optional)) && r is Ok ==> old(scopes).presence_map.current is Some
            && final(scopes).presence_map.current == Some(
            (PresenceMap {
                bitmap: old(scopes).presence_map.current->0.bitmap,
                mask: old(scopes).presence_map.current->0.mask >> 1u64,
                size: old(scopes).presence_map.current->0.size,
            }),
        ),
    decreases *instr, 1int,
{
    match instr.operator {
        Operator::NoOp => {
            // no presence-map bit, no dictionary write
            read_value(ctx, rdr, scopes, instr)
        },
        Operator::Constant => {
            // the value is fixed; nothing stands on the wire, and an
            // optional field signals presence through its bit
            let present = if instr.is_optional() {
                match pmap_next_bit(scopes) {
                    Ok(b) => b,
                    Err(e) => {
                        return Err(e);
                    },
                }
            } else {
                true
            };
            if !present {
                return Ok(None);
            }
            match &instr.initial_value {
                Some(init) => Ok(Some(init.clone_value())),
                None => Err(Error::Runtime("constant operator has no initial value".to_owned())),
            }
        },
        Operator::Default => {
            let bit = match pmap_next_bit(scopes) {
                Ok(b) => b,
                Err(e) => {
                    return Err(e);
                },
            };
            if bit {
                read_value(ctx, rdr, scopes, instr)
            } else {
                match &instr.initial_value {
                    Some(init) => Ok(Some(init.clone_value())),
                    None => {
                        if instr.is_optional() {
                            Ok(None)
                        } else {
                            Err(
                                Error::Runtime("default operator has no initial value".to_owned()),
                            )
                        }
                    },
                }
            }
        },
        Operator::Copy => {
            let bit = match pmap_next_bit(scopes) {
                Ok(b) => b,
                Err(e) => {
                    return Err(e);
                },
            };
            if bit {
                let v = match read_value(ctx, rdr, scopes, instr) {
                    Ok(v) => v,
                    Err(e) => {
                        return Err(e);
                    },
                };
                match ctx_set_value(ctx, scopes, instr, &v) {
                    Ok(_) => {},
                    Err(e) => {
                        return Err(e);
                    },
                }
                Ok(v)
            } else {
                let prev = match ctx_get_checked(ctx, scopes, instr) {
                    Ok(p) => p,
                    Err(e) => {
                        return Err(e);
                    },
                };
                let (v, w) = match copy_from_previous(
                    prev,
                    &instr.initial_value,
                    instr.is_optional(),
                ) {
                    Ok(x) => x,
                    Err(e) => {
                        return Err(e);
                    },
                };
                match ctx_apply_write(ctx, scopes, instr, w) {
                    Ok(_) => {},
                    Err(e) => {
                        return Err(e);
                    },
                }
                Ok(v)
            }
        },
        Operator::Increment => {
            let bit = match pmap_next_bit(scopes) {
                Ok(b) => b,
                Err(e) => {
                    return Err(e);
                },
            };
            if bit {
                let v = match read_value(ctx, rdr, scopes, instr) {
                    Ok(v) => v,
                    Err(e) => {
                        return Err(e);
                    },
                };
                match ctx_set_value(ctx, scopes, instr, &v) {
                    Ok(_) => {},
                    Err(e) => {
                        return Err(e);
                    },
                }
                Ok(v)
            } else {
                let prev = match ctx_get_checked(ctx, scopes, instr) {
                    Ok(p) => p,
                    Err(e) => {
                        return Err(e);
                    },
                };
                let ghost prev0 = prev;
                let (v, w) = match increment_from_previous(
                    prev,
                    &instr.initial_value,
                    instr.is_optional(),
                ) {
                    Ok(x) => x,
                    Err(e) => {
                        return Err(e);
                    },
                };
                proof {
                    match prev0 {
                        Option::Some(Option::Some(pv)) => {
                            crate::value::lemma_apply_increment_keeps_kind(
                                instr.value_type,
                                pv@,
                            );
                        },
                        _ => {},
                    }
                }
                match ctx_apply_write(ctx, scopes, instr, w) {
                    Ok(_) => {},
                    Err(e) => {
                        return Err(e);
                    },
                }
                Ok(v)
            }
        },
        Operator::Delta => {
            // no presence-map bit: the wire always carries a delta, null
            // when the optional field is absent
            let (delta, sub) = match read_delta(rdr, instr) {
                Ok(Some(d)) => d,
                Ok(None) => {
                    return Ok(None);
                },
                Err(e) => {
                    return Err(e);
                },
            };
            let prev = match ctx_get_checked(ctx, scopes, instr) {
                Ok(p) => p,
                Err(e) => {
                    return Err(e);
                },
            };
            let base = match delta_base(prev, &instr.initial_value, &instr.value_type) {
                Ok(b) => b,
                Err(e) => {
                    return Err(e);
                },
            };
            let value = match base.apply_delta(delta, sub) {
                Ok(v) => v,
                Err(e) => {
                    return Err(e);
                },
            };
            proof {
                crate::value::lemma_default_value_matches(instr.value_type);
                crate::value::lemma_apply_delta_keeps_kind(
                    instr.value_type,
                    base@,
                    delta@,
                    sub as int,
                );
            }
            let out = Some(value);
            match ctx_set_value(ctx, scopes, instr, &out) {
                Ok(_) => {},
                Err(e) => {
                    return Err(e);
                },
            }
            Ok(out)
        },
        Operator::Tail => {
            let bit = match pmap_next_bit(scopes) {
                Ok(b) => b,
                Err(e) => {
                    return Err(e);
                },
            };
            if bit {
                let tail = match read_tail(rdr, instr) {
                    Ok(Some(t)) => t,
                    Ok(None) => {
                        return Ok(None);
                    },
                    Err(e) => {
                        return Err(e);
                    },
                };
                let prev = match ctx_get_checked(ctx, scopes, instr) {
                    Ok(p) => p,
                    Err(e) => {
                        return Err(e);
                    },
                };
                let base = match tail_base(prev, &instr.initial_value, &instr.value_type) {
                    Ok(b) => b,
                    Err(e) => {
                        return Err(e);
                    },
                };
                let value = match base.apply_tail(tail) {
                    Ok(v) => v,
                    Err(e) => {
                        return Err(e);
                    },
                };
                proof {
                    crate::value::lemma_default_value_matches(instr.value_type);
                    crate::value::lemma_apply_tail_keeps_kind(instr.value_type, base@, tail@);
                }
                let out = Some(value);
                match ctx_set_value(ctx, scopes, instr, &out) {
                    Ok(_) => {},
                    Err(e) => {
                        return Err(e);
                    },
                }
                Ok(out)
            } else {
                let prev = match ctx_get_checked(ctx, scopes, instr) {
                    Ok(p) => p,
                    Err(e) => {
                        return Err(e);
                    },
                };
                let (v, w) = match tail_from_previous(
                    prev,
                    &instr.initial_value,
                    instr.is_optional(),
                ) {
                    Ok(x) => x,
                    Err(e) => {
                        return Err(e);
                    },
                };
                match ctx_apply_write(ctx, scopes, instr, w) {
                    Ok(_) => {},
                    Err(e) => {
                        return Err(e);
                    },
                }
                Ok(v)
            }
        },
    }
}

/// Decode one field: switch its dictionary scope, run the pipeline, emit.
fn decode_field<M: MessageFactory>(
    ctx: &mut Context,
    rdr: &mut ByteReader,
    scopes: &mut DecodeScopes,
    msg: &mut M,
    instr: &Instruction,
) -> (r: Result<Option<Value>, Error>)
    requires
        instr_wf(*instr),
        old(rdr).wf(),
        old(rdr).data@.len() < 0x1000_0000_0000_0000,
        old(scopes).wf(),
    ensures
        final(rdr).data == old(rdr).data,
        final(rdr).wf(),
        final(rdr).pos >= old(rdr).pos,
        r is Ok ==> scopes_restored(*old(scopes), *final(scopes)),
        final(scopes).wf(),
        match r {
            Ok(Some(v)) => instr.value_type.spec_matches(v@),
            _ => true,
        },
        final(msg).events() == old(msg).events(),
    decreases *instr, 2int,
{
    let switched = switch_dictionary(scopes, &instr.dictionary);
    let value = match extract(ctx, rdr, scopes, instr) {
        Ok(v) => v,
        Err(e) => {
            return Err(e);
        },
    };
    if switched {
        restore_dictionary(scopes);
        proof {
            assert(scopes.dictionary@ =~= old(scopes).dictionary@);
        }
    }
    Ok(value)
}

/// Decode every instruction of the list from `from` on.
fn decode_instructions<M: MessageFactory>(
    defs: &Definitions,
    ctx: &mut Context,
    rdr: &mut ByteReader,
    scopes: &mut DecodeScopes,
    msg: &mut M,
    instrs: &Vec<Instruction>,
    from: usize,
    Ghost(rank): Ghost<int>,
) -> (r: Result<(), Error>)
    requires
        defs.wf(),
        instrs_wf(instrs@),
        instrs_refs_ranked(instrs@, tpl_names(defs.templates@), rank),
        0 <= rank <= defs.templates@.len(),
        from <= instrs@.len(),
        old(rdr).wf(),
        old(rdr).data@.len() < 0x1000_0000_0000_0000,
        old(scopes).wf(),
    ensures
        final(rdr).data == old(rdr).data,
        final(rdr).wf(),
        final(rdr).pos >= old(rdr).pos,
        r is Ok ==> scopes_restored(*old(scopes), *final(scopes)),
        final(scopes).wf(),
        events_extended(old(msg).events(), final(msg).events()),
    decreases old(rdr).data@.len() - old(rdr).pos, rank, instrs@, 3int,
{
    proof {
        lemma_events_extended_refl(old(msg).events());
    }
    let mut j: usize = from;
    while j < instrs.len()
        invariant
            defs.wf(),
            instrs_wf(instrs@),
            instrs_refs_ranked(instrs@, tpl_names(defs.templates@), rank),
            0 <= rank <= defs.templates@.len(),
            j <= instrs@.len() || instrs@.len() < from,
            rdr.wf(),
            rdr.data == old(rdr).data,
            rdr.data@.len() < 0x1000_0000_0000_0000,
            rdr.pos >= old(rdr).pos,
            scopes_restored(*old(scopes), *scopes),
            scopes.wf(),
            events_extended(old(msg).events(), msg.events()),
        decreases instrs@.len() - j,
    {
        let ghost ev_before = msg.events();
        proof {
            lemma_instrs_wf_index(instrs@, j as int);
            lemma_instrs_refs_ranked_index(instrs@, tpl_names(defs.templates@), rank, j as int);
        }
        match decode_instruction(defs, ctx, rdr, scopes, msg, &instrs[j], Ghost(rank)) {
            Ok(_) => {},
            Err(e) => {
                proof {
                    lemma_events_extended_trans(old(msg).events(), ev_before, msg.events());
                }
                return Err(e);
            },
        }
        proof {
            lemma_events_extended_trans(old(msg).events(), ev_before, msg.events());
        }
        j = j + 1;
    }
    Ok(())
}

/// Decode one instruction, whatever its kind.
fn decode_instruction<M: MessageFactory>(
    defs: &Definitions,
    ctx: &mut Context,
    rdr: &mut ByteReader,
    scopes: &mut DecodeScopes,
    msg: &mut M,
    instr: &Instruction,
    Ghost(rank): Ghost<int>,
) -> (r: Result<(), Error>)
    requires
        defs.wf(),
        instr_wf(*instr),
        instr_refs_ranked(*instr, tpl_names(defs.templates@), rank),
        0 <= rank <= defs.templates@.len(),
        old(rdr).wf(),
        old(rdr).data@.len() < 0x1000_0000_0000_0000,
        old(scopes).wf(),
    ensures
        final(rdr).data == old(rdr).data,
        final(rdr).wf(),
        final(rdr).pos >= old(rdr).pos,
        r is Ok ==> scopes_restored(*old(scopes), *final(scopes)),
        final(scopes).wf(),
        events_extended(old(msg).events(), final(msg).events()),
        r is Ok && !(instr.value_type is Sequence) && !(instr.value_type is Group) && !(
        instr.value_type is TemplateReference) ==> final(msg).events().len() == old(msg).events().len() + 1 && match final(msg).events().last() {
            Event::SetValue(id, nm, ov) => id == instr.id && nm == instr.name@ && match ov {
                Some(x) => instr.value_type.spec_matches(x),
                None => true,
            },
            _ => false,
        },
    decreases old(rdr).data@.len() - old(rdr).pos, rank, *instr, 2int,
{
    match instr.value_type {
        ValueType::Sequence => decode_sequence(defs, ctx, rdr, scopes, msg, instr, Ghost(rank)),
        ValueType::Group => decode_group(defs, ctx, rdr, scopes, msg, instr, Ghost(rank)),
        ValueType::TemplateReference => decode_template_ref(
            defs,
            ctx,
            rdr,
            scopes,
            msg,
            instr,
            Ghost(rank),
        ),
        _ => {
            let value = match decode_field(ctx, rdr, scopes, msg, instr) {
                Ok(v) => v,
                Err(e) => {
                    proof {
                        lemma_events_extended_refl(old(msg).events());
                    }
                    return Err(e);
                },
            };
            msg.set_value(instr.id, instr.name.as_str(), value);
            proof {
                lemma_events_extended_push(old(msg).events(), msg.events().last());
            }
            Ok(())
        },
    }
}

/// Decode a nested segment: its presence map, then the instructions.
fn decode_segment<M: MessageFactory>(
    defs: &Definitions,
    ctx: &mut Context,
    rdr: &mut ByteReader,
    scopes: &mut DecodeScopes,
    msg: &mut M,
    instrs: &Vec<Instruction>,
    from: usize,
    Ghost(rank): Ghost<int>,
) -> (r: Result<(), Error>)
    requires
        defs.wf(),
        instrs_wf(instrs@),
        instrs_refs_ranked(instrs@, tpl_names(defs.templates@), rank),
        0 <= rank <= defs.templates@.len(),
        from <= instrs@.len(),
        old(rdr).wf(),
        old(rdr).data@.len() < 0x1000_0000_0000_0000,
        old(scopes).wf(),
    ensures
        final(rdr).data == old(rdr).data,
        final(rdr).wf(),
        final(rdr).pos >= old(rdr).pos,
        r is Ok ==> scopes_restored(*old(scopes), *final(scopes)),
        final(scopes).wf(),
        events_extended(old(msg).events(), final(msg).events()),
    decreases old(rdr).data@.len() - old(rdr).pos, rank, instrs@, 4int,
{
    proof {
        lemma_events_extended_refl(old(msg).events());
    }
    match decode_presence_map(rdr, scopes) {
        Ok(_) => {},
        Err(e) => {
            return Err(e);
        },
    }
    match decode_instructions(defs, ctx, rdr, scopes, msg, instrs, from, Ghost(rank)) {
        Ok(_) => {},
        Err(e) => {
            return Err(e);
        },
    }
    drop_presence_map(scopes);
    proof {
        assert(scopes.presence_map@.len() == old(scopes).presence_map@.len());
    }
    Ok(())
}

/// Decode a group: an optional group hangs off one bit of the enclosing
/// map; a group whose body claims bits forms a nested segment.
fn decode_group<M: MessageFactory>(
    defs: &Definitions,
    ctx: &mut Context,
    rdr: &mut ByteReader,
    scopes: &mut DecodeScopes,
    msg: &mut M,
    instr: &Instruction,
    Ghost(rank): Ghost<int>,
) -> (r: Result<(), Error>)
    requires
        defs.wf(),
        instr_wf(*instr),
        instr.value_type is Group,
        instr_refs_ranked(*instr, tpl_names(defs.templates@), rank),
        0 <= rank <= defs.templates@.len(),
        old(rdr).wf(),
        old(rdr).data@.len() < 0x1000_0000_0000_0000,
        old(scopes).wf(),
    ensures
        final(rdr).data == old(rdr).data,
        final(rdr).wf(),
        final(rdr).pos >= old(rdr).pos,
        r is Ok ==> scopes_restored(*old(scopes), *final(scopes)),
        final(scopes).wf(),
        events_extended(old(msg).events(), final(msg).events()),
        r is Ok ==> final(msg).events() == old(msg).events() || (final(msg).events().len() >= old(msg).events().len() + 2 && final(msg).events()[old(msg).events().len() as int]
            == Event::StartGroup(instr.name@) && final(msg).events().last() == Event::StopGroup),
    decreases old(rdr).data@.len() - old(rdr).pos, rank, *instr, 1int,
{
    proof {
        lemma_events_extended_refl(old(msg).events());
    }
    if instr.is_optional() {
        let bit = match pmap_next_bit(scopes) {
            Ok(b) => b,
            Err(e) => {
                return Err(e);
            },
        };
        if !bit {
            return Ok(());
        }
    }
    let switched_dict = switch_dictionary(scopes, &instr.dictionary);
    let switched_type = switch_type_ref(scopes, &instr.type_ref);
    msg.start_group(instr.name.as_str());
    let ghost ev_open = msg.events();
    proof {
        lemma_events_extended_push(old(msg).events(), Event::StartGroup(instr.name@));
    }
    let body = if instr.has_pmap {
        decode_segment(defs, ctx, rdr, scopes, msg, &instr.instructions, 0, Ghost(rank))
    } else {
        decode_instructions(defs, ctx, rdr, scopes, msg, &instr.instructions, 0, Ghost(rank))
    };
    match body {
        Ok(_) => {},
        Err(e) => {
            proof {
                lemma_events_extended_trans(old(msg).events(), ev_open, msg.events());
            }
            return Err(e);
        },
    }
    proof {
        lemma_events_extended_trans(old(msg).events(), ev_open, msg.events());
    }
    let ghost ev_body = msg.events();
    msg.stop_group();
    proof {
        lemma_events_extended_push(ev_body, Event::StopGroup);
        lemma_events_extended_trans(old(msg).events(), ev_body, msg.events());
        lemma_events_extended_index(ev_open, ev_body, old(msg).events().len() as int);
        lemma_events_extended_index(ev_body, msg.events(), old(msg).events().len() as int);
        assert(msg.events()[old(msg).events().len() as int] == Event::StartGroup(instr.name@));
    }
    if switched_dict {
        restore_dictionary(scopes);
    }
    if switched_type {
        restore_type_ref(scopes);
    }
    proof {
        assert(scopes.dictionary@ =~= old(scopes).dictionary@);
        assert(scopes.type_ref@ =~= old(scopes).type_ref@);
    }
    Ok(())
}

/// Decode a sequence: the length field, then that many items, each an
/// instruction walk, each in its own segment when the members claim bits.
fn decode_sequence<M: MessageFactory>(
    defs: &Definitions,
    ctx: &mut Context,
    rdr: &mut ByteReader,
    scopes: &mut DecodeScopes,
    msg: &mut M,
    instr: &Instruction,
    Ghost(rank): Ghost<int>,
) -> (r: Result<(), Error>)
    requires
        defs.wf(),
        instr_wf(*instr),
        instr.value_type is Sequence,
        instr_refs_ranked(*instr, tpl_names(defs.templates@), rank),
        0 <= rank <= defs.templates@.len(),
        old(rdr).wf(),
        old(rdr).data@.len() < 0x1000_0000_0000_0000,
        old(scopes).wf(),
    ensures
        final(rdr).data == old(rdr).data,
        final(rdr).wf(),
        final(rdr).pos >= old(rdr).pos,
        r is Ok ==> scopes_restored(*old(scopes), *final(scopes)),
        final(scopes).wf(),
        events_extended(old(msg).events(), final(msg).events()),
        r is Ok ==> final(msg).events() == old(msg).events() || (final(msg).events().len() >= old(msg).events().len() + 2 && (match final(msg).events()[old(msg).events().len() as int] {
            Event::StartSequence(id, nm, _) => id == instr.id && nm == instr.name@,
            _ => false,
        }) && final(msg).events().last() == Event::StopSequence),
    decreases old(rdr).data@.len() - old(rdr).pos, rank, *instr, 1int,
{
    proof {
        lemma_events_extended_refl(old(msg).events());
    }
    let switched_dict = switch_dictionary(scopes, &instr.dictionary);
    let switched_type = switch_type_ref(scopes, &instr.type_ref);
    proof {
        lemma_instrs_wf_index(instr.instructions@, 0);
    }
    let length_value = match decode_field(ctx, rdr, scopes, msg, &instr.instructions[0]) {
        Ok(v) => v,
        Err(e) => {
            return Err(e);
        },
    };
    match length_value {
        None => {},
        Some(Value::UInt32(length)) => {
            msg.start_sequence(instr.id, instr.name.as_str(), length);
            let ghost ev_open = msg.events();
            proof {
                lemma_events_extended_push(
                    old(msg).events(),
                    Event::StartSequence(instr.id, instr.name@, length),
                );
                lemma_events_extended_refl(ev_open);
            }
            let ghost s_pre: DecodeScopes = *scopes;
            let mut idx: u32 = 0;
            while idx < length
                invariant
                    defs.wf(),
                    instr_wf(*instr),
                    instr.value_type is Sequence,
                    instr_refs_ranked(*instr, tpl_names(defs.templates@), rank),
                    0 <= rank <= defs.templates@.len(),
                    rdr.wf(),
                    rdr.data == old(rdr).data,
                    rdr.data@.len() < 0x1000_0000_0000_0000,
                    rdr.pos >= old(rdr).pos,
                    scopes_restored(s_pre, *scopes),
                    scopes.wf(),
                    idx <= length,
                    events_extended(old(msg).events(), ev_open),
                    events_extended(ev_open, msg.events()),
                decreases length - idx,
            {
                let ghost ev_iter = msg.events();
                msg.start_sequence_item(idx);
                proof {
                    lemma_events_extended_push(ev_iter, Event::StartSequenceItem(idx));
                    lemma_events_extended_trans(ev_open, ev_iter, msg.events());
                }
                let ghost ev_mid = msg.events();
                let body = if instr.has_pmap {
                    decode_segment(
                        defs,
                        ctx,
                        rdr,
                        scopes,
                        msg,
                        &instr.instructions,
                        1,
                        Ghost(rank),
                    )
                } else {
                    decode_instructions(
                        defs,
                        ctx,
                        rdr,
                        scopes,
                        msg,
                        &instr.instructions,
                        1,
                        Ghost(rank),
                    )
                };
                match body {
                    Ok(_) => {},
                    Err(e) => {
                        proof {
                            lemma_events_extended_trans(ev_open, ev_mid, msg.events());
                            lemma_events_extended_trans(old(msg).events(), ev_open, msg.events());
                        }
                        return Err(e);
                    },
                }
                proof {
                    lemma_events_extended_trans(ev_open, ev_mid, msg.events());
                }
                let ghost ev_items = msg.events();
                msg.stop_sequence_item();
                proof {
                    lemma_events_extended_push(ev_items, Event::StopSequenceItem);
                    lemma_events_extended_trans(ev_open, ev_items, msg.events());
                }
                idx = idx + 1;
            }
            let ghost ev_done = msg.events();
            msg.stop_sequence();
            proof {
                lemma_events_extended_push(ev_done, Event::StopSequence);
                lemma_events_extended_trans(ev_open, ev_done, msg.events());
                lemma_events_extended_trans(old(msg).events(), ev_open, msg.events());
                lemma_events_extended_index(ev_open, ev_done, old(msg).events().len() as int);
                lemma_events_extended_index(ev_done, msg.events(), old(msg).events().len() as int);
            }
        },
        Some(_) => {
            return Err(Error::Dynamic("length field must be uInt32".to_owned()));
        },
    }
    if switched_dict {
        restore_dictionary(scopes);
    }
    if switched_type {
        restore_type_ref(scopes);
    }
    proof {
        assert(scopes.dictionary@ =~= old(scopes).dictionary@);
        assert(scopes.type_ref@ =~= old(scopes).type_ref@);
    }
    Ok(())
}

/// Decode a template reference.  A named reference splices the target
/// template in inline; an unnamed one opens a fresh outer segment and reads
/// the target's id off the wire.
fn decode_template_ref<M: MessageFactory>(
    defs: &Definitions,
    ctx: &mut Context,
    rdr: &mut ByteReader,
    scopes: &mut DecodeScopes,
    msg: &mut M,
    instr: &Instruction,
    Ghost(rank): Ghost<int>,
) -> (r: Result<(), Error>)
    requires
        defs.wf(),
        instr_wf(*instr),
        instr.value_type is TemplateReference,
        instr_refs_ranked(*instr, tpl_names(defs.templates@), rank),
        0 <= rank <= defs.templates@.len(),
        old(rdr).wf(),
        old(rdr).data@.len() < 0x1000_0000_0000_0000,
        old(scopes).wf(),
    ensures
        final(rdr).data == old(rdr).data,
        final(rdr).wf(),
        final(rdr).pos >= old(rdr).pos,
        r is Ok ==> scopes_restored(*old(scopes), *final(scopes)),
        final(scopes).wf(),
        events_extended(old(msg).events(), final(msg).events()),
        r is Ok ==> final(msg).events().len() >= old(msg).events().len() + 2 && (match final(msg).events()[old(msg).events().len() as int] {
            Event::StartTemplateRef(_, dyn_flag) => dyn_flag == (instr.name@.len() == 0),
            _ => false,
        }) && final(msg).events().last() == Event::StopTemplateRef,
    decreases old(rdr).data@.len() - old(rdr).pos, rank, *instr, 1int,
{
    proof {
        lemma_events_extended_refl(old(msg).events());
    }
    let is_dynamic = instr.name.as_str().unicode_len() == 0;
    if is_dynamic {
        match decode_presence_map(rdr, scopes) {
            Ok(_) => {},
            Err(e) => {
                return Err(e);
            },
        }
        let idx = match decode_template_id(defs, ctx, rdr, scopes) {
            Ok(i) => i,
            Err(e) => {
                return Err(e);
            },
        };
        let tpl = &defs.templates[idx];
        msg.start_template_ref(tpl.name.as_str(), true);
        let ghost ev_open = msg.events();
        proof {
            lemma_events_extended_push(old(msg).events(), Event::StartTemplateRef(tpl.name@, true));
        }
        let switched_dict = switch_dictionary(scopes, &tpl.dictionary);
        let switched_type = switch_type_ref(scopes, &tpl.type_ref);
        proof {
            assert(instrs_wf(defs.templates@[idx as int].instructions@));
        }
        match decode_instructions(
            defs,
            ctx,
            rdr,
            scopes,
            msg,
            &tpl.instructions,
            0,
            Ghost(idx as int),
        ) {
            Ok(_) => {},
            Err(e) => {
                proof {
                    lemma_events_extended_trans(old(msg).events(), ev_open, msg.events());
                }
                return Err(e);
            },
        }
        if switched_dict {
            restore_dictionary(scopes);
        }
        if switched_type {
            restore_type_ref(scopes);
        }
        proof {
            lemma_events_extended_trans(old(msg).events(), ev_open, msg.events());
        }
        let ghost ev_body = msg.events();
        msg.stop_template_ref();
        proof {
            lemma_events_extended_push(ev_body, Event::StopTemplateRef);
            lemma_events_extended_trans(old(msg).events(), ev_body, msg.events());
            lemma_events_extended_index(ev_open, ev_body, old(msg).events().len() as int);
            lemma_events_extended_index(ev_body, msg.events(), old(msg).events().len() as int);
        }
        let _ = scopes.template_id.pop();
        drop_presence_map(scopes);
        proof {
            assert(scopes.template_id@ =~= old(scopes).template_id@);
            assert(scopes.dictionary@ =~= old(scopes).dictionary@);
            assert(scopes.type_ref@ =~= old(scopes).type_ref@);
        }
        Ok(())
    } else {
        let idx = match defs.find_index_by_name(instr.name.as_str()) {
            Some(i) => i,
            None => {
                return Err(Error::Dynamic("unknown template".to_owned()));
            },
        };
        let tpl = &defs.templates[idx];
        msg.start_template_ref(tpl.name.as_str(), false);
        let ghost ev_open = msg.events();
        proof {
            lemma_events_extended_push(
                old(msg).events(),
                Event::StartTemplateRef(tpl.name@, false),
            );
        }
        let switched_dict = switch_dictionary(scopes, &tpl.dictionary);
        let switched_type = switch_type_ref(scopes, &tpl.type_ref);
        match decode_instructions(
            defs,
            ctx,
            rdr,
            scopes,
            msg,
            &tpl.instructions,
            0,
            Ghost(idx as int),
        ) {
            Ok(_) => {},
            Err(e) => {
                proof {
                    lemma_events_extended_trans(old(msg).events(), ev_open, msg.events());
                }
                return Err(e);
            },
        }
        if switched_dict {
            restore_dictionary(scopes);
        }
        if switched_type {
            restore_type_ref(scopes);
        }
        proof {
            lemma_events_extended_trans(old(msg).events(), ev_open, msg.events());
        }
        let ghost ev_body = msg.events();
        msg.stop_template_ref();
        proof {
            lemma_events_extended_push(ev_body, Event::StopTemplateRef);
            lemma_events_extended_trans(old(msg).events(), ev_body, msg.events());
            lemma_events_extended_index(ev_open, ev_body, old(msg).events().len() as int);
            lemma_events_extended_index(ev_body, msg.events(), old(msg).events().len() as int);
            assert(scopes.dictionary@ =~= old(scopes).dictionary@);
            assert(scopes.type_ref@ =~= old(scopes).type_ref@);
        }
        Ok(())
    }
}

/// Read the template id through its implicit copy instruction and push it;
/// the id must name a known template.
fn decode_template_id(
    defs: &Definitions,
    ctx: &mut Context,
    rdr: &mut ByteReader,
    scopes: &mut DecodeScopes,
) -> (r: Result<usize, Error>)
    requires
        defs.wf(),
        old(rdr).wf(),
        old(rdr).data@.len() < 0x1000_0000_0000_0000,
        old(scopes).wf(),
    ensures
        final(rdr).data == old(rdr).data,
        final(rdr).wf(),
        final(rdr).pos >= old(rdr).pos,
        final(scopes).wf(),
        r is Ok ==> r->Ok_0 < defs.templates@.len() && final(scopes).template_id@ == old(scopes).template_id@.push(final(scopes).template_id@.last()) && final(scopes).dictionary@ == old(scopes).dictionary@ && final(scopes).type_ref@ == old(scopes).type_ref@ && final(scopes).presence_map@.len() == old(scopes).presence_map@.len() && (forall|i: int|
            0 <= i < old(scopes).presence_map@.len() - 1 ==> final(scopes).presence_map@[i] == old(scopes).presence_map@[i]),
    decreases old(rdr).data@.len() - old(rdr).pos, 0int, 0int,
{
    let id_value = match extract(ctx, rdr, scopes, &defs.template_id_instruction) {
        Ok(v) => v,
        Err(e) => {
            return Err(e);
        },
    };
    let id = match id_value {
        Some(Value::UInt32(id)) => id,
        Some(_) => {
            return Err(Error::Runtime("wrong template id type in context".to_owned()));
        },
        None => {
            return Err(Error::Dynamic("no template id".to_owned()));
        },
    };
    let idx = match defs.find_index_by_id(id) {
        Some(i) => i,
        None => {
            return Err(Error::Dynamic("unknown template id".to_owned()));
        },
    };
    scopes.template_id.push(id);
    Ok(idx)
}

/// Decode one whole message: the outer segment, the template id, and the
/// template's instruction walk.
fn decode_template<M: MessageFactory>(
    defs: &Definitions,
    ctx: &mut Context,
    rdr: &mut ByteReader,
    scopes: &mut DecodeScopes,
    msg: &mut M,
) -> (r: Result<(), Error>)
    requires
        defs.wf(),
        old(rdr).wf(),
        old(rdr).data@.len() < 0x1000_0000_0000_0000,
        old(scopes).wf(),
    ensures
        final(rdr).data == old(rdr).data,
        final(rdr).wf(),
        final(rdr).pos >= old(rdr).pos,
        r is Ok ==> scopes_restored(*old(scopes), *final(scopes)),
        final(scopes).wf(),
        events_extended(old(msg).events(), final(msg).events()),
        r is Ok ==> spec_message_events(*defs, old(msg).events(), final(msg).events()),
{
    proof {
        lemma_events_extended_refl(old(msg).events());
    }
    match decode_presence_map(rdr, scopes) {
        Ok(_) => {},
        Err(e) => {
            return Err(e);
        },
    }
    let idx = match decode_template_id(defs, ctx, rdr, scopes) {
        Ok(i) => i,
        Err(e) => {
            return Err(e);
        },
    };
    let tpl = &defs.templates[idx];
    msg.start_template(tpl.id, tpl.name.as_str());
    let ghost ev_open = msg.events();
    proof {
        lemma_events_extended_push(old(msg).events(), Event::StartTemplate(tpl.id, tpl.name@));
        assert(is_declared_template_event(*defs, Event::StartTemplate(tpl.id, tpl.name@))) by {
            assert(0 <= idx < defs.templates@.len() && (defs.templates@[idx as int]).id == tpl.id
                && defs.templates@[idx as int].name@ == tpl.name@);
        }
    }
    let switched_dict = switch_dictionary(scopes, &tpl.dictionary);
    let switched_type = switch_type_ref(scopes, &tpl.type_ref);
    match decode_instructions(defs, ctx, rdr, scopes, msg, &tpl.instructions, 0, Ghost(idx as int))
        {
        Ok(_) => {},
        Err(e) => {
            proof {
                lemma_events_extended_trans(old(msg).events(), ev_open, msg.events());
            }
            return Err(e);
        },
    }
    if switched_dict {
        restore_dictionary(scopes);
    }
    if switched_type {
        restore_type_ref(scopes);
    }
    proof {
        lemma_events_extended_trans(old(msg).events(), ev_open, msg.events());
    }
    let ghost ev_body = msg.events();
    msg.stop_template();
    proof {
        lemma_events_extended_push(ev_body, Event::StopTemplate);
        lemma_events_extended_trans(old(msg).events(), ev_body, msg.events());
        lemma_events_extended_index(ev_open, ev_body, old(msg).events().len() as int);
        lemma_events_extended_index(ev_body, msg.events(), old(msg).events().len() as int);
    }
    let _ = scopes.template_id.pop();
    drop_presence_map(scopes);
    proof {
        assert(scopes.template_id@ =~= old(scopes).template_id@);
        assert(scopes.dictionary@ =~= old(scopes).dictionary@);
        assert(scopes.type_ref@ =~= old(scopes).type_ref@);
    }
    Ok(())
}

} // verus!
