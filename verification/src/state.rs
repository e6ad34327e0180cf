//! The slot store of one position in the hierarchy.
//!
//! A store is an ordered run of slots. It grows only at its tail, a slot is
//! overwritten in place, and nothing is ever removed. The kind of a slot is
//! fixed by the value that established it.

use vstd::prelude::*;
use crate::error::HookError;
use crate::value::{Content, Value};

verus! {

/// What a state request at `index` answers on a store that holds `slots`,
/// when `initial` is the value offered.
///
/// At the tail the offered value is taken; below it the stored value is
/// recalled, provided its kind is the one offered; beyond it the request is
/// out of order.
pub open spec fn recall(slots: Seq<Content>, index: nat, initial: Content) -> Result<
    Content,
    HookError,
> {
    if index > slots.len() {
        Err(HookError::OrderViolation)
    } else if index == slots.len() {
        Ok(initial)
    } else if slots[index as int].kind() != initial.kind() {
        Err(HookError::TypeMismatch)
    } else {
        Ok(slots[index as int])
    }
}

/// The slots after a state request at `index` that offered `initial`: one
/// more slot if the request was at the tail, the same slots otherwise.
pub open spec fn after_recall(slots: Seq<Content>, index: nat, initial: Content) -> Seq<Content> {
    if index == slots.len() {
        slots.push(initial)
    } else {
        slots
    }
}

/// Whether `value` may be written to the slot at `index` of a store that
/// holds `slots`, and if not, why.
pub open spec fn assign(slots: Seq<Content>, index: nat, value: Content) -> Result<(), HookError> {
    if index >= slots.len() {
        Err(HookError::UnknownSlot)
    } else if slots[index as int].kind() != value.kind() {
        Err(HookError::TypeMismatch)
    } else {
        Ok(())
    }
}

/// The slots after an attempt to write `value` at `index`: the slot is
/// replaced if the write was admissible, and nothing changes otherwise.
pub open spec fn after_assign(slots: Seq<Content>, index: nat, value: Content) -> Seq<Content> {
    if assign(slots, index, value) is Ok {
        slots.update(index as int, value)
    } else {
        slots
    }
}

/// What a result that carries a value holds, as a mathematical object.
pub open spec fn answer(r: Result<Value, HookError>) -> Result<Content, HookError> {
    match r {
        Ok(v) => Ok(v@),
        Err(e) => Err(e),
    }
}

/// The slots of one position, in the order in which they were established.
pub struct State {
    registers: Vec<Value>,
}

impl View for State {
    type V = Seq<Content>;

    closed spec fn view(&self) -> Seq<Content> {
        self.registers@.map_values(|v: Value| v@)
    }
}

impl State {
    /// A store without slots.
    pub fn new() -> (s: State)
        ensures
            s@ == Seq::<Content>::empty(),
    {
        let s = State { registers: Vec::new() };
        assert(s@ =~= Seq::<Content>::empty());
        s
    }

    /// The number of slots established so far.
    pub fn len(&self) -> (n: usize)
        ensures
            n == self@.len(),
    {
        self.registers.len()
    }

    /// Answers a state request: establishes the slot at `index` with `value`
    /// if `index` is the tail, and otherwise recalls what the slot holds.
    ///
    /// The answer is a copy. A refused request leaves the store as it was.
    pub fn use_state(&mut self, value: Value, index: usize) -> (r: Result<Value, HookError>)
        ensures
            answer(r) == recall(old(self)@, index as nat, value@),
            final(self)@ == after_recall(old(self)@, index as nat, value@),
    {
        let head = self.registers.len();
        if index > head {
            return Err(HookError::OrderViolation);
        }
        if head == index {
            let copy = value.duplicate();
            self.registers.push(value);
            assert(self@ =~= old(self)@.push(value@));
            return Ok(copy);
        }
        if self.registers[index].kind() != value.kind() {
            return Err(HookError::TypeMismatch);
        }
        Ok(self.registers[index].duplicate())
    }

    /// Overwrites the slot at `index` with `value`, in place.
    ///
    /// The slot must exist and hold a value of the same kind. A refused write
    /// leaves the store as it was.
    pub fn set(&mut self, index: usize, value: Value) -> (r: Result<(), HookError>)
        ensures
            r == assign(old(self)@, index as nat, value@),
            final(self)@ == after_assign(old(self)@, index as nat, value@),
    {
        if index >= self.registers.len() {
            return Err(HookError::UnknownSlot);
        }
        if self.registers[index].kind() != value.kind() {
            return Err(HookError::TypeMismatch);
        }
        self.registers[index] = value;
        assert(self@ =~= old(self)@.update(index as int, value@));
        Ok(())
    }
}

impl Default for State {
    /// A store without slots.
    fn default() -> (s: State)
        ensures
            s@ == Seq::<Content>::empty(),
    {
        State::new()
    }
}

} // verus!
