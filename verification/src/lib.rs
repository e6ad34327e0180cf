//! A call-order-indexed, tree-addressed state store.
//!
//! Components that are invoked again and again keep no state of their own
//! between invocations. What they want to retain lives here: in a hierarchy
//! of slot stores, one store for each position that a component can take,
//! and in each store one slot for each state request that the component
//! makes, in the order in which it makes them.
//!
//! - [`value`]: the values that a slot holds, and their kinds.
//! - [`state`]: the slot store of one position.
//! - [`tree`]: the hierarchy of stores, addressed by paths.
//! - [`registry`]: a hierarchy behind a lock, shared by handles.
//! - [`hook`] and [`hooks`]: the bindings through which one invocation makes
//!   its requests, to a hierarchy that it is handed or to a registry that
//!   it holds.
//! - [`setter`]: the deferred writes that a request hands out.
//! - [`error`]: why an operation can be refused.
//! - [`laws`]: what holds across several operations.
//! - [`sync`]: what is taken on trust from the standard library.
//!
//! A hierarchy is an ordinary value: whoever holds it exclusively may change
//! it, and the contracts say exactly what each operation does to it. A
//! registry serialises the operations of many holders; its contracts say
//! what holds of an operation whatever the others did before it.

pub mod error;
pub mod hook;
pub mod hooks;
pub mod laws;
pub mod registry;
pub mod setter;
pub mod state;
pub mod sync;
pub mod tree;
pub mod value;
