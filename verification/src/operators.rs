//! The operator state machines, as pure functions.
//!
//! Each function takes the state of the previous-value slot — undefined,
//! empty, or assigned — together with the instruction's initial value and
//! presence, and returns the field's value and what, if anything, is stored
//! back.  The codec walks call these for the no-value-in-stream branches of
//! copy, increment and tail, and for the base of delta and tail; stating
//! them here pins the transition tables down once for both directions.
use vstd::prelude::*;

use crate::context::opt_value_view;
use crate::errors::Error;
use crate::value::{spec_apply_increment, Value, ValueType, ValueV};

verus! {

/// A dictionary write: `None` leaves the slot alone, `Some(entry)` stores
/// the entry (which may be the empty state).
pub type SlotWrite = Option<Option<Value>>;

pub open spec fn write_view(w: SlotWrite) -> Option<Option<ValueV>> {
    match w {
        Option::Some(entry) => Option::Some(opt_value_view(entry)),
        Option::None => Option::None,
    }
}

/// The copy operator with no value in the stream.
///
/// Assigned: the previous value is the field's value.  Empty: absent when
/// optional, a dynamic error when mandatory.  Undefined: the initial value
/// — stored — or, without one, absent-and-stored-empty when optional and a
/// dynamic error when mandatory.
pub fn copy_from_previous(
    prev: Option<Option<Value>>,
    initial: &Option<Value>,
    optional: bool,
) -> (r: Result<(Option<Value>, SlotWrite), Error>)
    ensures
        match prev {
            Option::Some(Option::Some(v)) => r is Ok && opt_value_view(r->Ok_0.0) == Some(v@)
                && r->Ok_0.1 is None,
            Option::Some(Option::None) => if optional {
                r is Ok && r->Ok_0.0 is None && r->Ok_0.1 is None
            } else {
                r is Err
            },
            Option::None => match initial {
                Option::Some(init) => r is Ok && opt_value_view(r->Ok_0.0) == Some(init@)
                    && write_view(r->Ok_0.1) == Some(Some(init@)),
                Option::None => if optional {
                    r is Ok && r->Ok_0.0 is None && write_view(r->Ok_0.1) == Some(
                        Option::<ValueV>::None,
                    )
                } else {
                    r is Err
                },
            },
        },
{
    match prev {
        Some(Some(v)) => Ok((Some(v), None)),
        Some(None) => {
            if optional {
                Ok((None, None))
            } else {
                Err(Error::Runtime("copy operator has no previous value".to_owned()))
            }
        },
        None => {
            match initial {
                Some(init) => {
                    let v = init.clone_value();
                    let w = init.clone_value();
                    Ok((Some(v), Some(Some(w))))
                },
                None => {
                    if optional {
                        Ok((None, Some(None)))
                    } else {
                        Err(Error::Runtime("copy operator has no initial value".to_owned()))
                    }
                },
            }
        },
    }
}

/// The increment operator with no value in the stream.
///
/// Assigned: the previous value plus one, which is also stored.  Empty and
/// undefined behave as under copy.
pub fn increment_from_previous(
    prev: Option<Option<Value>>,
    initial: &Option<Value>,
    optional: bool,
) -> (r: Result<(Option<Value>, SlotWrite), Error>)
    ensures
        match prev {
            Option::Some(Option::Some(v)) => match spec_apply_increment(v@) {
                Option::Some(next) => r is Ok && opt_value_view(r->Ok_0.0) == Some(next)
                    && write_view(r->Ok_0.1) == Some(Some(next)),
                Option::None => r is Err,
            },
            Option::Some(Option::None) => if optional {
                r is Ok && r->Ok_0.0 is None && r->Ok_0.1 is None
            } else {
                r is Err
            },
            Option::None => match initial {
                Option::Some(init) => r is Ok && opt_value_view(r->Ok_0.0) == Some(init@)
                    && write_view(r->Ok_0.1) == Some(Some(init@)),
                Option::None => if optional {
                    r is Ok && r->Ok_0.0 is None && write_view(r->Ok_0.1) == Some(
                        Option::<ValueV>::None,
                    )
                } else {
                    r is Err
                },
            },
        },
{
    match prev {
        Some(Some(v)) => {
            let next = match v.apply_increment() {
                Ok(n) => n,
                Err(e) => {
                    return Err(e);
                },
            };
            let w = next.clone_value();
            Ok((Some(next), Some(Some(w))))
        },
        Some(None) => {
            if optional {
                Ok((None, None))
            } else {
                Err(Error::Runtime("increment operator has no previous value".to_owned()))
            }
        },
        None => {
            match initial {
                Some(init) => {
                    let v = init.clone_value();
                    let w = init.clone_value();
                    Ok((Some(v), Some(Some(w))))
                },
                None => {
                    if optional {
                        Ok((None, Some(None)))
                    } else {
                        Err(Error::Runtime("increment operator has no initial value".to_owned()))
                    }
                },
            }
        },
    }
}

/// The tail operator with no tail in the stream.
///
/// Assigned: the previous value.  Empty: absent when optional, a dynamic
/// error when mandatory.  Undefined: the initial value — stored — or,
/// without one, absent-and-stored-empty when optional and a dynamic error
/// when mandatory.
pub fn tail_from_previous(
    prev: Option<Option<Value>>,
    initial: &Option<Value>,
    optional: bool,
) -> (r: Result<(Option<Value>, SlotWrite), Error>)
    ensures
        match prev {
            Option::Some(Option::Some(v)) => r is Ok && opt_value_view(r->Ok_0.0) == Some(v@)
                && r->Ok_0.1 is None,
            Option::Some(Option::None) => if optional {
                r is Ok && r->Ok_0.0 is None && r->Ok_0.1 is None
            } else {
                r is Err
            },
            Option::None => match initial {
                Option::Some(init) => r is Ok && opt_value_view(r->Ok_0.0) == Some(init@)
                    && write_view(r->Ok_0.1) == Some(Some(init@)),
                Option::None => if optional {
                    r is Ok && r->Ok_0.0 is None && write_view(r->Ok_0.1) == Some(
                        Option::<ValueV>::None,
                    )
                } else {
                    r is Err
                },
            },
        },
{
    match prev {
        Some(Some(v)) => Ok((Some(v), None)),
        Some(None) => {
            if optional {
                Ok((None, None))
            } else {
                Err(Error::Runtime("tail operator has no previous value".to_owned()))
            }
        },
        None => {
            match initial {
                Some(init) => {
                    let v = init.clone_value();
                    let w = init.clone_value();
                    Ok((Some(v), Some(Some(w))))
                },
                None => {
                    if optional {
                        Ok((None, Some(None)))
                    } else {
                        Err(Error::Runtime("tail operator has no initial value".to_owned()))
                    }
                },
            }
        },
    }
}

/// The base value a transmitted delta combines with.
///
/// Assigned: the previous value.  Empty: a dynamic error.  Undefined: the
/// initial value, or the kind's default base value.
pub fn delta_base(
    prev: Option<Option<Value>>,
    initial: &Option<Value>,
    vt: &ValueType,
) -> (r: Result<Value, Error>)
    ensures
        match prev {
            Option::Some(Option::Some(v)) => r is Ok && r->Ok_0@ == v@,
            Option::Some(Option::None) => r is Err,
            Option::None => match initial {
                Option::Some(init) => r is Ok && r->Ok_0@ == init@,
                Option::None => match vt.spec_default_value() {
                    Option::Some(d) => r is Ok && r->Ok_0@ == d,
                    Option::None => r is Err,
                },
            },
        },
{
    match prev {
        Some(Some(v)) => Ok(v),
        Some(None) => Err(Error::Runtime("delta operator has no previous value".to_owned())),
        None => {
            match initial {
                Some(init) => Ok(init.clone_value()),
                None => vt.to_default_value(),
            }
        },
    }
}

/// The base value a transmitted tail combines with: as for delta, except
/// that the empty state also falls back to the initial or default value.
pub fn tail_base(
    prev: Option<Option<Value>>,
    initial: &Option<Value>,
    vt: &ValueType,
) -> (r: Result<Value, Error>)
    ensures
        match prev {
            Option::Some(Option::Some(v)) => r is Ok && r->Ok_0@ == v@,
            _ => match initial {
                Option::Some(init) => r is Ok && r->Ok_0@ == init@,
                Option::None => match vt.spec_default_value() {
                    Option::Some(d) => r is Ok && r->Ok_0@ == d,
                    Option::None => r is Err,
                },
            },
        },
{
    match prev {
        Some(Some(v)) => Ok(v),
        _ => {
            match initial {
                Some(init) => Ok(init.clone_value()),
                None => vt.to_default_value(),
            }
        },
    }
}

} // verus!
