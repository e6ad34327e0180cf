//! A hierarchy behind a lock.
//!
//! A [`Registry`] is a handle to one hierarchy that many bindings and
//! setters hold at once, on any thread. Every operation takes the lock,
//! works on the hierarchy that it finds, and gives the lock back before it
//! returns; operations on one registry therefore happen one after the other.
//!
//! What an operation finds depends on what other holders of the registry did
//! before it. Its contract says what holds whatever that was: the outcome is
//! the one that the exact contract of [`StateTree`] gives for some hierarchy.
//!
//! One thing is the same for every holder and at every moment: whether the
//! registry grows on demand. That is settled when the registry is made, every
//! handle carries it, and the hierarchy behind the lock is held to it.

use std::sync::{Arc, Mutex};
use vstd::prelude::*;
use crate::error::HookError;
use crate::state::answer;
use crate::sync::{enclose, guarded, lock, share};
use crate::tree::{assign_at, is_tree, recall_at, Shape, StateTree};
use crate::value::Value;

verus! {

/// A handle to a hierarchy that is shared behind a lock.
pub struct Registry {
    inner: Arc<Mutex<StateTree>>,
    auto_grow: bool,
}

impl Registry {
    /// Whether a position that is missing is created when it is asked for.
    pub closed spec fn grows(&self) -> bool {
        self.auto_grow
    }

    /// Puts `tree` behind a lock and returns the first handle to it. The
    /// registry grows on demand if and only if `tree` does.
    pub fn new(tree: StateTree) -> (registry: Registry)
        ensures
            registry.grows() == tree.grows(),
    {
        let auto_grow = tree.auto_grow();
        Registry { inner: Arc::new(enclose(tree)), auto_grow }
    }

    /// Whether a position that is missing is created when it is asked for.
    pub fn auto_grow(&self) -> (b: bool)
        ensures
            b == self.grows(),
    {
        self.auto_grow
    }

    /// Answers a state request at slot `index` of the position at `cursor`,
    /// as [`StateTree::use_state_at`] does on the hierarchy behind the lock.
    pub fn use_state(&self, cursor: &[usize], value: Value, index: usize) -> (r: Result<
        Value,
        HookError,
    >)
        ensures
            exists|m: Shape|
                is_tree(m) && answer(r) == #[trigger] recall_at(
                    m,
                    self.grows(),
                    cursor@,
                    index as nat,
                    value@,
                ),
    {
        let mut guard = lock(&self.inner);
        let tree = guarded(&mut guard);
        tree.set_auto_grow(self.auto_grow);
        let ghost m = tree@;
        proof {
            tree.shape_is_tree();
        }
        let r = tree.use_state_at(cursor, value, index);
        assert(answer(r) == recall_at(m, self.grows(), cursor@, index as nat, value@));
        r
    }

    /// Overwrites slot `index` of the position at `cursor` with `value`, as
    /// [`StateTree::set_at`] does on the hierarchy behind the lock.
    pub fn set(&self, cursor: &[usize], index: usize, value: Value) -> (r: Result<(), HookError>)
        ensures
            exists|m: Shape|
                is_tree(m) && r == #[trigger] assign_at(
                    m,
                    self.grows(),
                    cursor@,
                    index as nat,
                    value@,
                ),
    {
        let mut guard = lock(&self.inner);
        let tree = guarded(&mut guard);
        tree.set_auto_grow(self.auto_grow);
        let ghost m = tree@;
        proof {
            tree.shape_is_tree();
        }
        let r = tree.set_at(cursor, index, value);
        assert(r == assign_at(m, self.grows(), cursor@, index as nat, value@));
        r
    }

    /// Brings the position at `cursor` into being in the hierarchy behind
    /// the lock, as [`StateTree::register`] does.
    pub fn register(&self, cursor: &[usize]) {
        let mut guard = lock(&self.inner);
        let tree = guarded(&mut guard);
        tree.register(cursor);
    }

    /// Prunes the position at `cursor` in the hierarchy behind the lock, as
    /// [`StateTree::prune`] does, and returns whether the position existed.
    ///
    /// Whether it did is for the hierarchy to say that the lock guards at
    /// that moment. The root exists in every hierarchy, so pruning at the
    /// empty path always finds its position.
    pub fn prune(&self, cursor: &[usize]) -> (found: bool)
        ensures
            exists|m: Shape| is_tree(m) && found == #[trigger] m.contains_key(cursor@),
            cursor@.len() == 0 ==> found,
    {
        let mut guard = lock(&self.inner);
        let tree = guarded(&mut guard);
        let ghost m = tree@;
        proof {
            tree.shape_is_tree();
            if cursor@.len() == 0 {
                assert(cursor@ =~= Seq::<usize>::empty());
            }
        }
        let found = tree.prune(cursor);
        assert(found == m.contains_key(cursor@));
        found
    }
}

impl Clone for Registry {
    /// One more handle to the same hierarchy.
    fn clone(&self) -> (other: Registry)
        ensures
            other == *self,
    {
        Registry { inner: share(&self.inner), auto_grow: self.auto_grow }
    }
}

impl Default for Registry {
    /// A registry of its own, around a hierarchy of a single position
    /// without slots, which grows on demand.
    fn default() -> (registry: Registry)
        ensures
            registry.grows(),
    {
        Registry::new(StateTree::default())
    }
}

} // verus!
