//! The event interfaces between the codec and its caller.
//!
//! During a decode the engine pushes the message into a sink; during an
//! encode it pulls the message out of a source.  Implementations live with
//! the caller; the engine promises nothing about what they do.
use vstd::prelude::*;

use crate::context::opt_value_view;
use crate::errors::Error;
use crate::value::{Value, ValueV};

verus! {

/// One event of a decoded message, in the shape the sink receives it.
pub enum Event {
    StartTemplate(u32, Seq<char>),
    StopTemplate,
    SetValue(u32, Seq<char>, Option<ValueV>),
    StartSequence(u32, Seq<char>, u32),
    StartSequenceItem(u32),
    StopSequenceItem,
    StopSequence,
    StartGroup(Seq<char>),
    StopGroup,
    StartTemplateRef(Seq<char>, bool),
    StopTemplateRef,
}

/// The sink a decoded message is emitted into, one callback per event in
/// strict traversal order.  The spec-level event log records each call, so
/// the decoder's contracts can say which events a walk emitted; an
/// implementation outside the verified library is free to leave the log
/// unchecked.
pub trait MessageFactory {
    /// The calls received so far, oldest first.  An implementation that
    /// does not track them — a sink outside the verified library — leaves
    /// the default, and the decoder's event clauses then say nothing about
    /// it; the factories of this crate override it with a real log.
    open spec fn events(&self) -> Seq<Event> {
        Seq::empty()
    }

    /// A `<template>` begins.
    fn start_template(&mut self, id: u32, name: &str)
        ensures
            final(self).events() == old(self).events().push(Event::StartTemplate(id, name@)),
    ;

    /// The current `<template>` ends.
    fn stop_template(&mut self)
        ensures
            final(self).events() == old(self).events().push(Event::StopTemplate),
    ;

    /// A field was decoded; an absent optional field arrives as `None`.
    fn set_value(&mut self, id: u32, name: &str, value: Option<Value>)
        ensures
            final(self).events() == old(self).events().push(
                Event::SetValue(id, name@, opt_value_view(value)),
            ),
    ;

    /// A `<sequence>` of the given length begins.
    fn start_sequence(&mut self, id: u32, name: &str, length: u32)
        ensures
            final(self).events() == old(self).events().push(
                Event::StartSequence(id, name@, length),
            ),
    ;

    /// The next sequence item begins.
    fn start_sequence_item(&mut self, index: u32)
        ensures
            final(self).events() == old(self).events().push(Event::StartSequenceItem(index)),
    ;

    /// The current sequence item ends.
    fn stop_sequence_item(&mut self)
        ensures
            final(self).events() == old(self).events().push(Event::StopSequenceItem),
    ;

    /// The current `<sequence>` ends.
    fn stop_sequence(&mut self)
        ensures
            final(self).events() == old(self).events().push(Event::StopSequence),
    ;

    /// A `<group>` begins.
    fn start_group(&mut self, name: &str)
        ensures
            final(self).events() == old(self).events().push(Event::StartGroup(name@)),
    ;

    /// The current `<group>` ends.
    fn stop_group(&mut self)
        ensures
            final(self).events() == old(self).events().push(Event::StopGroup),
    ;

    /// A template reference begins; `dynamic` when the target came off the
    /// wire rather than out of the template text.
    fn start_template_ref(&mut self, name: &str, dynamic: bool)
        ensures
            final(self).events() == old(self).events().push(
                Event::StartTemplateRef(name@, dynamic),
            ),
    ;

    /// The current template reference ends.
    fn stop_template_ref(&mut self)
        ensures
            final(self).events() == old(self).events().push(Event::StopTemplateRef),
    ;
}

/// The source an encoded message is pulled from.
pub trait MessageVisitor {
    /// The name of the template to encode with.
    fn get_template_name(&mut self) -> Result<String, Error>;

    /// The value of the named field; `None` when absent.
    fn get_value(&mut self, name: &str) -> Result<Option<Value>, Error>;

    /// Enter the named group; `false` when the group is absent.
    fn select_group(&mut self, name: &str) -> Result<bool, Error>;

    /// Leave the current group.
    fn release_group(&mut self) -> Result<(), Error>;

    /// Enter the named sequence and say how many items it has; `None` when
    /// the sequence is absent.
    fn select_sequence(&mut self, name: &str) -> Result<Option<u32>, Error>;

    /// Enter the next sequence item.
    fn select_sequence_item(&mut self, index: u32) -> Result<(), Error>;

    /// Leave the current sequence item.
    fn release_sequence_item(&mut self) -> Result<(), Error>;

    /// Leave the current sequence.
    fn release_sequence(&mut self) -> Result<(), Error>;

    /// Enter a template reference; for a dynamic one, name the target.
    fn select_template_ref(&mut self, name: &str, dynamic: bool) -> Result<Option<String>, Error>;

    /// Leave the current template reference.
    fn release_template_ref(&mut self) -> Result<(), Error>;
}

} // verus!
