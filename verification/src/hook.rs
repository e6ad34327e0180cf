//! The binding of one invocation to its position.
//!
//! A binding is made afresh for every invocation of a component. It knows
//! the path of the component and counts the state requests made so far, so
//! that the n-th request of every invocation meets the n-th slot.
//!
//! A [`Hook`] works on a hierarchy that its caller holds exclusively, and
//! its contract says exactly what each request does to it.

use vstd::prelude::*;
use crate::error::HookError;
use crate::setter::{Setter, Target};
use crate::tree::{after_recall_at, recall_at, StateTree};
use crate::value::{Content, Value};

verus! {

/// A binding, as a mathematical object.
pub struct Binding {
    /// The path of the position that the binding serves.
    pub path: Seq<usize>,
    /// The number of state requests made through the binding.
    pub counter: nat,
}

/// What a state request granted, leaving the setter aside.
pub open spec fn granted<S>(r: Result<(Value, S), HookError>) -> Result<Content, HookError> {
    match r {
        Ok((v, _)) => Ok(v@),
        Err(e) => Err(e),
    }
}

/// A binding that is handed the hierarchy with every request. Each setter
/// that it hands out gets a copy of the path for itself.
#[derive(Debug)]
pub struct Hook {
    cursor: Vec<usize>,
    counter: usize,
}

impl View for Hook {
    type V = Binding;

    closed spec fn view(&self) -> Binding {
        Binding { path: self.cursor@, counter: self.counter as nat }
    }
}

impl Hook {
    /// A fresh binding for the position at `cursor`.
    pub fn new(cursor: Vec<usize>) -> (hook: Hook)
        ensures
            hook@ == (Binding { path: cursor@, counter: 0 }),
    {
        Hook { cursor, counter: 0 }
    }

    /// The path of the position that the binding serves.
    pub fn cursor(&self) -> (path: &[usize])
        ensures
            path@ == self@.path,
    {
        self.cursor.as_slice()
    }

    /// The number of state requests made so far, which is the index of the
    /// slot that the next request meets.
    pub fn counter(&self) -> (n: usize)
        ensures
            n == self@.counter,
    {
        self.counter
    }

    /// Requests the next slot of the position: the slot is established with
    /// `value` if this is the first time that it is asked for, and otherwise
    /// `value` is set aside and what the slot holds is returned.
    ///
    /// Together with the value comes the setter for the slot. The request
    /// counts whether or not it is granted.
    pub fn use_state(&mut self, tree: &mut StateTree, value: Value) -> (r: Result<
        (Value, Setter),
        HookError,
    >)
        requires
            old(self)@.counter < usize::MAX,
        ensures
            final(self)@ == (Binding {
                path: old(self)@.path,
                counter: old(self)@.counter + 1,
            }),
            granted(r) == recall_at(
                old(tree)@,
                old(tree).grows(),
                old(self)@.path,
                old(self)@.counter,
                value@,
            ),
            r matches Ok((_, setter)) ==> setter@ == (Target {
                path: old(self)@.path,
                index: old(self)@.counter,
            }),
            final(tree)@ == after_recall_at(
                old(tree)@,
                old(tree).grows(),
                old(self)@.path,
                old(self)@.counter,
                value@,
            ),
            final(tree).grows() == old(tree).grows(),
    {
        let index = self.counter;
        self.counter += 1;
        match tree.use_state_at(self.cursor.as_slice(), value, index) {
            Ok(current) => Ok((current, Setter::new(self.cursor.clone(), index))),
            Err(e) => Err(e),
        }
    }
}

impl Default for Hook {
    /// A fresh binding for the root position.
    fn default() -> (hook: Hook)
        ensures
            hook@ == (Binding { path: Seq::empty(), counter: 0 }),
    {
        Hook::new(Vec::new())
    }
}

} // verus!
