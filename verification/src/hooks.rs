//! The binding of one invocation to its position in a shared hierarchy.
//!
//! [`Hooks`] serves a position as [`Hook`](crate::hook::Hook) does. Where a
//! `Hook` is handed the hierarchy with every request, `Hooks` holds a handle
//! to a [`Registry`], and so do the setters that it hands out: they can be
//! applied from any thread, with nothing but the new value.

use std::sync::Arc;
use vstd::prelude::*;
use crate::error::HookError;
use crate::hook::{granted, Binding};
use crate::registry::Registry;
use crate::setter::{Setter, SharedSetter, Target};
use crate::sync::share;
use crate::tree::{is_tree, recall_at, Shape};
use crate::value::Value;

verus! {

/// A binding that holds the registry in which its position lies.
pub struct Hooks {
    registry: Registry,
    cursor: Arc<Vec<usize>>,
    counter: usize,
}

impl View for Hooks {
    type V = Binding;

    closed spec fn view(&self) -> Binding {
        Binding { path: self.cursor@, counter: self.counter as nat }
    }
}

impl Hooks {
    /// The registry in which the position of the binding lies.
    pub closed spec fn registry(&self) -> Registry {
        self.registry
    }

    /// A fresh binding for the position at `cursor` in `registry`.
    pub fn new(registry: Registry, cursor: Vec<usize>) -> (hooks: Hooks)
        ensures
            hooks@ == (Binding { path: cursor@, counter: 0 }),
            hooks.registry() == registry,
    {
        Hooks { registry, cursor: Arc::new(cursor), counter: 0 }
    }

    /// The path of the position that the binding serves.
    pub fn cursor(&self) -> (path: &[usize])
        ensures
            path@ == self@.path,
    {
        self.cursor.as_slice()
    }

    /// The number of state requests made so far, which is the index of the
    /// slot that the next request meets.
    pub fn counter(&self) -> (n: usize)
        ensures
            n == self@.counter,
    {
        self.counter
    }

    /// Requests the next slot of the position, under the lock of the
    /// registry: the slot is established with `value` if this is the first
    /// time that it is asked for, and otherwise `value` is set aside and what
    /// the slot holds is returned.
    ///
    /// Together with the value comes the setter for the slot, which shares
    /// the path and the registry of the binding. The request counts whether
    /// or not it is granted. What it is answered is what
    /// [`Hook::use_state`](crate::hook::Hook::use_state) answers on the
    /// hierarchy that the lock guards at that moment.
    pub fn use_state(&mut self, value: Value) -> (r: Result<(Value, SharedSetter), HookError>)
        requires
            old(self)@.counter < usize::MAX,
        ensures
            final(self)@ == (Binding {
                path: old(self)@.path,
                counter: old(self)@.counter + 1,
            }),
            final(self).registry() == old(self).registry(),
            exists|m: Shape|
                is_tree(m) && granted(r) == #[trigger] recall_at(
                    m,
                    old(self).registry().grows(),
                    old(self)@.path,
                    old(self)@.counter,
                    value@,
                ),
            r matches Ok((_, setter)) ==> setter@ == (Target {
                path: old(self)@.path,
                index: old(self)@.counter,
            }) && setter.registry() == old(self).registry(),
    {
        let index = self.counter;
        self.counter += 1;
        match self.registry.use_state(self.cursor.as_slice(), value, index) {
            Ok(current) => {
                let target = Setter::sharing(share(&self.cursor), index);
                Ok((current, SharedSetter::new(self.registry.clone(), target)))
            },
            Err(e) => Err(e),
        }
    }
}

} // verus!
