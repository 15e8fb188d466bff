//! The previous-value dictionaries.
//!
//! Operators keep per-key previous values across messages.  A slot is
//! addressed by its resolved dictionary scope and the instruction's key;
//! a slot is *undefined* while absent, *empty* when it holds `None`, and
//! *assigned* when it holds a value.
use vstd::prelude::*;

use crate::value::{Value, ValueV};

verus! {

/// A resolved dictionary scope.
#[derive(Debug, Clone)]
pub enum DictionaryType {
    Global,
    Template(u32),
    Type(String),
    UserDefined(String),
}

/// The slot address a scope and key resolve to.
pub type SlotKey = (u8, u32, Seq<char>, Seq<char>);

impl DictionaryType {
    /// The slot a key occupies under this scope.
    pub open spec fn spec_slot(&self, key: Seq<char>) -> SlotKey {
        match self {
            DictionaryType::Global => (0u8, 0u32, Seq::<char>::empty(), key),
            DictionaryType::Template(id) => (1u8, *id, Seq::<char>::empty(), key),
            DictionaryType::Type(name) => (2u8, 0u32, name@, key),
            DictionaryType::UserDefined(name) => (3u8, 0u32, name@, key),
        }
    }
}

/// The store model with nothing in it.
pub open spec fn empty_store_model() -> Map<SlotKey, Option<ValueV>> {
    Map::empty()
}

pub open spec fn opt_value_view(v: Option<Value>) -> Option<ValueV> {
    match v {
        Option::Some(x) => Option::Some(x@),
        Option::None => Option::None,
    }
}

/// The backing store: a hash map from slot addresses to optional values.
#[verifier::external_body]
pub struct ValueStore {
    map: hashbrown::HashMap<(u8, u32, String, String), Option<Value>>,
}

/// The entries the backing store holds, keyed by the views of the slot
/// addresses.
pub uninterp spec fn store_entries(m: ValueStore) -> Map<SlotKey, Option<ValueV>>;

/// Relies on hashbrown::HashMap::new: a fresh map holds no entries.
#[verifier::external_body]
fn store_new() -> (r: ValueStore)
    ensures
        store_entries(r) == empty_store_model(),
{
    ValueStore { map: hashbrown::HashMap::new() }
}

/// Relies on hashbrown::HashMap::insert: afterwards the map binds the key to
/// the value and is otherwise unchanged; tuple keys compare field by field,
/// so slot addresses with equal views share one entry.
#[verifier::external_body]
fn store_insert(m: &mut ValueStore, k: (u8, u32, String, String), v: Option<Value>)
    ensures
        store_entries(*final(m)) == store_entries(*old(m)).insert(
            (k.0, k.1, k.2@, k.3@),
            opt_value_view(v),
        ),
{
    m.map.insert(k, v);
}

/// Relies on hashbrown::HashMap::get: it returns the entry bound to the key,
/// if one is present.
#[verifier::external_body]
fn store_get(m: &ValueStore, k: &(u8, u32, String, String)) -> (r: Option<Option<Value>>)
    ensures
        match r {
            Some(v) => store_entries(*m).contains_key((k.0, k.1, k.2@, k.3@)) && store_entries(
                *m,
            )[(k.0, k.1, k.2@, k.3@)] == opt_value_view(v),
            None => !store_entries(*m).contains_key((k.0, k.1, k.2@, k.3@)),
        },
{
    match m.map.get(k) {
        Some(v) => Some(
            match v {
                Some(x) => Some(x.clone()),
                None => None,
            },
        ),
        None => None,
    }
}

/// Relies on hashbrown::HashMap::clear: afterwards the map holds no entries.
#[verifier::external_body]
fn store_clear(m: &mut ValueStore)
    ensures
        store_entries(*final(m)) == empty_store_model(),
{
    m.map.clear();
}

/// The cross-message dictionary store.  It lives for the codec's lifetime
/// and is dropped only by an explicit reset.
pub struct Context {
    store: ValueStore,
}

impl Context {
    /// The store as a map from slot addresses to optional values: an absent
    /// key is the *undefined* state, a `None` entry the *empty* state.
    pub closed spec fn view(&self) -> Map<SlotKey, Option<ValueV>> {
        store_entries(self.store)
    }

    pub fn new() -> (r: Context)
        ensures
            r@ == empty_store_model(),
    {
        Context { store: store_new() }
    }

    /// Drop every previous value.
    pub fn reset(&mut self)
        ensures
            final(self)@ == empty_store_model(),
    {
        store_clear(&mut self.store);
    }

    /// Bind the key's slot to the value, replacing any previous entry.
    pub fn set(&mut self, dict: &DictionaryType, key: &String, val: &Option<Value>)
        ensures
            final(self)@ == old(self)@.insert(dict.spec_slot(key@), opt_value_view(*val)),
    {
        let k = make_store_key(dict, key);
        let v: Option<Value> = match val {
            Some(x) => Some(x.clone_value()),
            None => None,
        };
        store_insert(&mut self.store, k, v);
    }

    /// Look the key's slot up: `None` is the undefined state, `Some(None)`
    /// the empty state, `Some(Some(v))` an assigned previous value.
    pub fn get(&self, dict: &DictionaryType, key: &String) -> (r: Option<Option<Value>>)
        ensures
            match r {
                Some(v) => self@.contains_key(dict.spec_slot(key@)) && self@[dict.spec_slot(key@)]
                    == opt_value_view(v),
                None => !self@.contains_key(dict.spec_slot(key@)),
            },
    {
        let k = make_store_key(dict, key);
        store_get(&self.store, &k)
    }
}

/// Build the exec form of a slot address.
fn make_store_key(dict: &DictionaryType, key: &String) -> (r: (u8, u32, String, String))
    ensures
        (r.0, r.1, r.2@, r.3@) == dict.spec_slot(key@),
{
    match dict {
        DictionaryType::Global => (0, 0, String::new(), key.clone()),
        DictionaryType::Template(id) => (1, *id, String::new(), key.clone()),
        DictionaryType::Type(name) => (2, 0, name.clone(), key.clone()),
        DictionaryType::UserDefined(name) => (3, 0, name.clone(), key.clone()),
    }
}

} // verus!
