//! A stack with a distinguished top slot.
//!
//! The codec keeps four of these per message (template id, dictionary,
//! typeRef, presence map); each scope boundary pushes and each scope exit
//! pops, so the top always holds the innermost scope's value.
use vstd::prelude::*;

verus! {

pub struct Stacked<T> {
    pub current: Option<T>,
    pub stack: Vec<T>,
}

impl<T> Stacked<T> {
    /// All held values, oldest first; the current value is the last element.
    pub open spec fn view(&self) -> Seq<T> {
        match self.current {
            Option::None => self.stack@,
            Option::Some(v) => self.stack@.push(v),
        }
    }

    /// In normal use the top slot is only empty when the whole stack is.
    pub open spec fn wf(&self) -> bool {
        self.current is None ==> self.stack@.len() == 0
    }

    pub fn new_empty() -> (r: Self)
        ensures
            r@ == Seq::<T>::empty(),
            r.wf(),
    {
        Self { current: None, stack: Vec::new() }
    }

    pub fn new(v: T) -> (r: Self)
        ensures
            r@ == seq![v],
            r.wf(),
    {
        Self { current: Some(v), stack: Vec::new() }
    }

    pub fn push(&mut self, v: T)
        ensures
            final(self)@ == old(self)@.push(v),
            old(self).wf() ==> final(self).wf(),
            final(self).current == Some(v),
    {
        let mut slot = Some(v);
        core::mem::swap(&mut self.current, &mut slot);
        match slot {
            None => {}
            Some(prev) => {
                self.stack.push(prev);
            }
        }
    }

    pub fn pop(&mut self) -> (r: Option<T>)
        ensures
            old(self).wf() && old(self)@.len() == 0 ==> r is None && final(self)@ == old(self)@,
            old(self).wf() && old(self)@.len() > 0 ==> r == Some(old(self)@.last())
                && final(self)@ == old(self)@.drop_last(),
            old(self).wf() ==> final(self).wf(),
    {
        let prev = self.stack.pop();
        match prev {
            None => {
                let mut slot = None;
                core::mem::swap(&mut self.current, &mut slot);
                proof {
                    if old(self).wf() && old(self)@.len() > 0 {
                        assert(self@ =~= old(self)@.drop_last());
                    }
                }
                slot
            },
            Some(v) => {
                let mut slot = Some(v);
                core::mem::swap(&mut self.current, &mut slot);
                proof {
                    if old(self).wf() {
                        assert(self@ =~= old(self)@.drop_last());
                    }
                }
                slot
            },
        }
    }

    pub fn peek(&self) -> (r: Option<&T>)
        ensures
            r is Some <==> self.current is Some,
            r is Some ==> *r->0 == self.current->0,
            self.wf() ==> (r is Some <==> self@.len() > 0),
            self@.len() > 0 && self.current is Some ==> *r->0 == self@.last(),
    {
        match &self.current {
            Some(v) => Some(v),
            None => None,
        }
    }

    pub fn must_peek(&self) -> (r: &T)
        requires
            self.current is Some,
        ensures
            *r == self@.last(),
            self@.len() > 0,
    {
        self.current.as_ref().unwrap()
    }

    /// Mutable access to the top slot.
    pub fn peek_mut(&mut self) -> (r: &mut Option<T>)
        ensures
            *r == old(self).current,
            final(self).current == *final(r),
            final(self).stack == old(self).stack,
    {
        &mut self.current
    }

    pub fn must_peek_mut(&mut self) -> (r: &mut T)
        requires
            old(self).current is Some,
        ensures
            *r == old(self)@.last(),
            final(self)@ == old(self)@.drop_last().push(*final(r)),
            final(self).current == Some(*final(r)),
            final(self).stack == old(self).stack,
            old(self).wf() ==> final(self).wf(),
    {
        proof {
            assert(old(self)@.drop_last() =~= old(self).stack@);
        }
        match &mut self.current {
            Some(v) => v,
            None => unreached(),
        }
    }
}

} // verus!
