//! Deferred writes.
//!
//! A setter is a small value that names one slot of one position. It is made
//! when the slot is requested, outlives the binding that made it, and can be
//! applied any number of times, on any thread.
//!
//! A [`Setter`] is applied to a hierarchy that its holder has in hand. A
//! [`SharedSetter`] carries a handle to the registry that it writes to.

use std::sync::Arc;
use vstd::prelude::*;
use crate::error::HookError;
use crate::registry::Registry;
use crate::sync::share;
use crate::tree::{after_assign_at, assign_at, is_tree, Shape, StateTree};
use crate::value::Value;

verus! {

/// The slot that a setter writes to.
pub struct Target {
    /// The path of the position that owns the slot.
    pub path: Seq<usize>,
    /// The index of the slot in the store of that position.
    pub index: nat,
}

/// The capability to overwrite one slot.
#[derive(Debug)]
pub struct Setter {
    cursor: Arc<Vec<usize>>,
    index: usize,
}

impl View for Setter {
    type V = Target;

    closed spec fn view(&self) -> Target {
        Target { path: self.cursor@, index: self.index as nat }
    }
}

impl Clone for Setter {
    /// A setter for the same slot, which shares the path of this one.
    fn clone(&self) -> (copy: Setter)
        ensures
            copy@ == self@,
    {
        Setter { cursor: share(&self.cursor), index: self.index }
    }
}

impl Setter {
    /// The setter for slot `index` of the position at `cursor`.
    pub fn new(cursor: Vec<usize>, index: usize) -> (setter: Setter)
        ensures
            setter@ == (Target { path: cursor@, index: index as nat }),
    {
        Setter { cursor: Arc::new(cursor), index }
    }

    /// The setter for slot `index` of the position at `cursor`, which takes
    /// over a handle to a path that others hold as well.
    pub(crate) fn sharing(cursor: Arc<Vec<usize>>, index: usize) -> (setter: Setter)
        ensures
            setter@ == (Target { path: cursor@, index: index as nat }),
    {
        Setter { cursor, index }
    }

    /// The path of the position that owns the slot.
    pub fn cursor(&self) -> (path: &[usize])
        ensures
            path@ == self@.path,
    {
        self.cursor.as_slice()
    }

    /// The index of the slot.
    pub fn index(&self) -> (index: usize)
        ensures
            index == self@.index,
    {
        self.index
    }

    /// Overwrites the slot with `value`.
    ///
    /// The position is resolved anew in `tree`; the slot must have been
    /// established there, with a value of the kind of `value`. A refused
    /// write changes no slot.
    pub fn set(&self, tree: &mut StateTree, value: Value) -> (r: Result<(), HookError>)
        ensures
            r == assign_at(old(tree)@, old(tree).grows(), self@.path, self@.index, value@),
            final(tree)@ == after_assign_at(
                old(tree)@,
                old(tree).grows(),
                self@.path,
                self@.index,
                value@,
            ),
            final(tree).grows() == old(tree).grows(),
    {
        tree.set_at(self.cursor.as_slice(), self.index, value)
    }
}

/// The capability to overwrite one slot of a shared hierarchy.
pub struct SharedSetter {
    registry: Registry,
    target: Setter,
}

impl View for SharedSetter {
    type V = Target;

    closed spec fn view(&self) -> Target {
        self.target@
    }
}

impl Clone for SharedSetter {
    /// A setter for the same slot of the same registry.
    fn clone(&self) -> (copy: SharedSetter)
        ensures
            copy@ == self@,
            copy.registry() == self.registry(),
    {
        SharedSetter { registry: self.registry.clone(), target: self.target.clone() }
    }
}

impl SharedSetter {
    /// The registry that this setter writes to.
    pub closed spec fn registry(&self) -> Registry {
        self.registry
    }

    /// The setter that applies `target` to the hierarchy behind `registry`.
    pub fn new(registry: Registry, target: Setter) -> (setter: SharedSetter)
        ensures
            setter@ == target@,
            setter.registry() == registry,
    {
        SharedSetter { registry, target }
    }

    /// The path of the position that owns the slot.
    pub fn cursor(&self) -> (path: &[usize])
        ensures
            path@ == self@.path,
    {
        self.target.cursor()
    }

    /// The index of the slot.
    pub fn index(&self) -> (index: usize)
        ensures
            index == self@.index,
    {
        self.target.index()
    }

    /// Overwrites the slot with `value`, under the lock of the registry.
    ///
    /// The verdict is the one that [`Setter::set`] gives on the hierarchy
    /// that the lock guards at that moment.
    pub fn set(&self, value: Value) -> (r: Result<(), HookError>)
        ensures
            exists|m: Shape|
                is_tree(m) && r == #[trigger] assign_at(
                    m,
                    self.registry().grows(),
                    self@.path,
                    self@.index,
                    value@,
                ),
    {
        let r = self.registry.set(self.target.cursor(), self.target.index(), value);
        proof {
            let m = choose|m: Shape|
                is_tree(m) && r == #[trigger] assign_at(
                    m,
                    self.registry.grows(),
                    self@.path,
                    self.target@.index,
                    value@,
                );
            assert(r == assign_at(m, self.registry().grows(), self@.path, self@.index, value@));
        }
        r
    }
}

} // verus!
