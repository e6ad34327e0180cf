//! What holds of the store across several operations.
//!
//! The contracts of the operations say what one call does. The theorems
//! here say what follows for runs of calls: that an invocation finds again
//! what an earlier one established, that a write is found by the next
//! request, and that writes to different slots do not disturb one another.
//! They are stated over the same mathematical functions as the contracts.

use vstd::prelude::*;
use crate::error::HookError;
use crate::tree::{
    after_assign_at,
    after_recall_at,
    assign_at,
    below,
    grown,
    is_tree,
    on_the_way,
    pruned,
    recall_at,
    resolve,
    Shape,
};
use crate::value::Content;

verus! {

/// The hierarchy after one invocation: a binding for the position at `path`
/// has offered `values`, one request after the other, counting from slot 0.
pub open spec fn after_invocation(
    m: Shape,
    auto_grow: bool,
    path: Seq<usize>,
    values: Seq<Content>,
) -> Shape
    decreases values.len(),
{
    if values.len() == 0 {
        m
    } else {
        after_recall_at(
            after_invocation(m, auto_grow, path, values.drop_last()),
            auto_grow,
            path,
            (values.len() - 1) as nat,
            values.last(),
        )
    }
}

/// What request number `i` of such an invocation answers.
pub open spec fn invocation_answer(
    m: Shape,
    auto_grow: bool,
    path: Seq<usize>,
    values: Seq<Content>,
    i: int,
) -> Result<Content, HookError> {
    recall_at(after_invocation(m, auto_grow, path, values.take(i)), auto_grow, path, i as nat, values[i])
}

/// Whether two runs of values agree in length and, place by place, in kind.
pub open spec fn same_kinds(a: Seq<Content>, b: Seq<Content>) -> bool {
    &&& a.len() == b.len()
    &&& forall|i: int| 0 <= i < a.len() ==> a[i].kind() == b[i].kind()
}

/// One access to a slot: a value on its way to the slot `index` of the
/// position at `path`.
pub struct Access {
    /// The path of the position that owns the slot.
    pub path: Seq<usize>,
    /// The index of the slot.
    pub index: nat,
    /// The value offered or written.
    pub value: Content,
}

/// One operation on a hierarchy.
pub enum Operation {
    /// A state request, which offers a value.
    Request(Access),
    /// A deferred write, which brings a value.
    Write(Access),
    /// The explicit creation of the position at a path.
    Register(Seq<usize>),
}

/// The hierarchy after one operation.
pub open spec fn after_operation(m: Shape, auto_grow: bool, op: Operation) -> Shape {
    match op {
        Operation::Request(a) => after_recall_at(m, auto_grow, a.path, a.index, a.value),
        Operation::Write(a) => after_assign_at(m, auto_grow, a.path, a.index, a.value),
        Operation::Register(path) => grown(m, path),
    }
}

/// The hierarchy after the operations `ops` were applied in order.
pub open spec fn after_operations(m: Shape, auto_grow: bool, ops: Seq<Operation>) -> Shape
    decreases ops.len(),
{
    if ops.len() == 0 {
        m
    } else {
        after_operation(after_operations(m, auto_grow, ops.drop_last()), auto_grow, ops.last())
    }
}

/// What the slot `index` of the position at `path` holds after the
/// operations `ops`, if it held `held` before: the value of the last
/// write that was aimed at this slot and was of its kind, and `held` if
/// there was none.
pub open spec fn last_written(
    held: Content,
    path: Seq<usize>,
    index: nat,
    ops: Seq<Operation>,
) -> Content
    decreases ops.len(),
{
    if ops.len() == 0 {
        held
    } else {
        match ops.last() {
            Operation::Write(a) if a.path == path && a.index == index && a.value.kind()
                == held.kind() => a.value,
            _ => last_written(held, path, index, ops.drop_last()),
        }
    }
}

/// An invocation against a position without slots leaves there exactly the
/// values that it offered.
proof fn lemma_first_invocation(
    m: Shape,
    auto_grow: bool,
    path: Seq<usize>,
    values: Seq<Content>,
)
    requires
        m.contains_key(path) || auto_grow,
        m.contains_key(path) ==> m[path].len() == 0,
    ensures
        values.len() > 0 ==> after_invocation(m, auto_grow, path, values) == resolve(
            m,
            auto_grow,
            path,
        ).unwrap().insert(path, values),
    decreases values.len(),
{
    if values.len() > 0 {
        let t = resolve(m, auto_grow, path).unwrap();
        let front = values.drop_last();
        let before = after_invocation(m, auto_grow, path, front);
        lemma_first_invocation(m, auto_grow, path, front);
        assert(t.contains_key(path));
        assert(t[path] =~= Seq::<Content>::empty());
        if front.len() == 0 {
            assert(before == m);
            assert(values =~= t[path].push(values.last()));
        } else {
            assert(before == t.insert(path, front));
            assert(values =~= front.push(values.last()));
            assert(t.insert(path, front).insert(path, values) =~= t.insert(path, values));
        }
    }
}

/// An invocation that offers no more values than the position holds
/// changes nothing, whatever it is answered.
proof fn lemma_later_invocation(
    m: Shape,
    auto_grow: bool,
    path: Seq<usize>,
    values: Seq<Content>,
)
    requires
        m.contains_key(path),
        values.len() <= m[path].len(),
    ensures
        after_invocation(m, auto_grow, path, values) == m,
    decreases values.len(),
{
    if values.len() > 0 {
        lemma_later_invocation(m, auto_grow, path, values.drop_last());
        assert(m.insert(path, m[path]) =~= m);
    }
}

/// Recovery is idempotent. When a first invocation offers `first` to a
/// position that holds no slots yet, every request is answered with the
/// value that it offered. When a later invocation makes the same requests
/// with other values of the same kinds, every request is answered with the
/// value of the first invocation, and nothing in the hierarchy changes.
pub proof fn recovery_is_idempotent(
    m: Shape,
    auto_grow: bool,
    path: Seq<usize>,
    first: Seq<Content>,
    again: Seq<Content>,
)
    requires
        m.contains_key(path) || auto_grow,
        m.contains_key(path) ==> m[path].len() == 0,
        same_kinds(first, again),
    ensures
        forall|i: int|
            0 <= i < first.len() ==> #[trigger] invocation_answer(m, auto_grow, path, first, i)
                == Ok::<Content, HookError>(first[i]),
        forall|i: int|
            0 <= i < again.len() ==> #[trigger] invocation_answer(
                after_invocation(m, auto_grow, path, first),
                auto_grow,
                path,
                again,
                i,
            ) == Ok::<Content, HookError>(first[i]),
        after_invocation(after_invocation(m, auto_grow, path, first), auto_grow, path, again)
            == after_invocation(m, auto_grow, path, first),
{
    let t = resolve(m, auto_grow, path).unwrap();
    let established = after_invocation(m, auto_grow, path, first);
    assert(t.contains_key(path));
    assert(t[path] =~= Seq::<Content>::empty());
    assert forall|i: int| 0 <= i < first.len() implies #[trigger] invocation_answer(
        m,
        auto_grow,
        path,
        first,
        i,
    ) == Ok::<Content, HookError>(first[i]) by {
        lemma_first_invocation(m, auto_grow, path, first.take(i));
    }
    lemma_first_invocation(m, auto_grow, path, first);
    if first.len() > 0 {
        assert(established.contains_key(path));
        assert(established[path] == first);
        assert forall|i: int| 0 <= i < again.len() implies #[trigger] invocation_answer(
            established,
            auto_grow,
            path,
            again,
            i,
        ) == Ok::<Content, HookError>(first[i]) by {
            lemma_later_invocation(established, auto_grow, path, again.take(i));
        }
        lemma_later_invocation(established, auto_grow, path, again);
    }
}

/// A write is found by the next request. After `value` was written to an
/// established slot of its kind, a request for that slot is answered with
/// `value`, whatever value of that kind the request offers, and the request
/// changes nothing.
pub proof fn set_then_recover(
    m: Shape,
    auto_grow: bool,
    path: Seq<usize>,
    index: nat,
    value: Content,
    offered: Content,
)
    requires
        assign_at(m, auto_grow, path, index, value) is Ok,
        offered.kind() == value.kind(),
    ensures
        recall_at(
            after_assign_at(m, auto_grow, path, index, value),
            auto_grow,
            path,
            index,
            offered,
        ) == Ok::<Content, HookError>(value),
        after_recall_at(
            after_assign_at(m, auto_grow, path, index, value),
            auto_grow,
            path,
            index,
            offered,
        ) == after_assign_at(m, auto_grow, path, index, value),
{
    let written = after_assign_at(m, auto_grow, path, index, value);
    assert(written.contains_key(path));
    assert(written.insert(path, written[path]) =~= written);
}

/// Requests are held to their order. Where a position holds slots, an
/// invocation that asks for no more of them than there are changes nothing,
/// and a request beyond the next free slot is refused as out of order and
/// changes nothing either: no slot is made for it.
pub proof fn order_is_enforced(
    m: Shape,
    auto_grow: bool,
    path: Seq<usize>,
    fewer: Seq<Content>,
    index: nat,
    offered: Content,
)
    requires
        m.contains_key(path),
        fewer.len() <= m[path].len(),
        index > m[path].len(),
    ensures
        after_invocation(m, auto_grow, path, fewer) == m,
        recall_at(m, auto_grow, path, index, offered) == Err::<Content, HookError>(
            HookError::OrderViolation,
        ),
        after_recall_at(m, auto_grow, path, index, offered) == m,
{
    lemma_later_invocation(m, auto_grow, path, fewer);
    assert(m.insert(path, m[path]) =~= m);
}

/// The kind of a slot is fixed. A request or a write that meets an
/// established slot with a value of another kind is refused as a mismatch,
/// and changes nothing.
pub proof fn kind_is_fixed(
    m: Shape,
    auto_grow: bool,
    path: Seq<usize>,
    index: nat,
    value: Content,
)
    requires
        m.contains_key(path),
        index < m[path].len(),
        value.kind() != m[path][index as int].kind(),
    ensures
        recall_at(m, auto_grow, path, index, value) == Err::<Content, HookError>(
            HookError::TypeMismatch,
        ),
        after_recall_at(m, auto_grow, path, index, value) == m,
        assign_at(m, auto_grow, path, index, value) == Err::<(), HookError>(
            HookError::TypeMismatch,
        ),
        after_assign_at(m, auto_grow, path, index, value) == m,
{
    assert(m.insert(path, m[path]) =~= m);
}

/// A failed operation leaves every slot store as it was: whatever a request
/// or a write was refused for, each position that existed holds what it held.
pub proof fn failure_changes_no_slot(
    m: Shape,
    auto_grow: bool,
    path: Seq<usize>,
    index: nat,
    value: Content,
    q: Seq<usize>,
)
    requires
        m.contains_key(q),
    ensures
        recall_at(m, auto_grow, path, index, value) is Err ==> after_recall_at(
            m,
            auto_grow,
            path,
            index,
            value,
        ).contains_key(q) && after_recall_at(m, auto_grow, path, index, value)[q] == m[q],
        assign_at(m, auto_grow, path, index, value) is Err ==> after_assign_at(
            m,
            auto_grow,
            path,
            index,
            value,
        ).contains_key(q) && after_assign_at(m, auto_grow, path, index, value)[q] == m[q],
{
}

/// What one operation does to a slot that exists: a write replaces what
/// the slot holds if it is aimed at this slot and is of its kind, and
/// nothing else touches the slot.
proof fn lemma_one_operation(
    m: Shape,
    auto_grow: bool,
    op: Operation,
    path: Seq<usize>,
    index: nat,
)
    requires
        m.contains_key(path),
        index < m[path].len(),
    ensures
        ({
            let after = after_operation(m, auto_grow, op);
            &&& after.contains_key(path)
            &&& after[path].len() >= m[path].len()
            &&& after[path][index as int] == match op {
                Operation::Write(a) if a.path == path && a.index == index && a.value.kind()
                    == m[path][index as int].kind() => a.value,
                _ => m[path][index as int],
            }
            &&& after[path][index as int].kind() == m[path][index as int].kind()
        }),
{
}

/// Established slots are stable, and the last write wins. After any run of
/// requests, writes and registrations, in whatever order they were applied,
/// a position that existed still exists and holds no fewer slots than it
/// did. Each of its slots is of the kind that it was of, and holds the value
/// of the last write that was aimed at it and was of its kind, or what it
/// held before if there was none. Operations on other positions and on
/// other slots leave it untouched, and nothing leaves it with a value that
/// was not written to it.
pub proof fn last_write_wins(
    m: Shape,
    auto_grow: bool,
    ops: Seq<Operation>,
    path: Seq<usize>,
    index: nat,
)
    requires
        m.contains_key(path),
        index < m[path].len(),
    ensures
        after_operations(m, auto_grow, ops).contains_key(path),
        after_operations(m, auto_grow, ops)[path].len() >= m[path].len(),
        after_operations(m, auto_grow, ops)[path][index as int] == last_written(
            m[path][index as int],
            path,
            index,
            ops,
        ),
        after_operations(m, auto_grow, ops)[path][index as int].kind()
            == m[path][index as int].kind(),
    decreases ops.len(),
{
    if ops.len() > 0 {
        let before = after_operations(m, auto_grow, ops.drop_last());
        last_write_wins(m, auto_grow, ops.drop_last(), path, index);
        lemma_one_operation(before, auto_grow, ops.last(), path, index);
    }
}

/// What every answer has in common. Whatever a hierarchy holds, a request
/// that is granted is answered with a value of the kind that was offered. A
/// request is refused in three ways only: as out of order, which cannot
/// happen to a request for the first slot; as a mismatch of kinds; and for
/// an unknown path, which can only happen below the root of a hierarchy
/// that does not grow on demand.
pub proof fn every_answer(
    m: Shape,
    auto_grow: bool,
    path: Seq<usize>,
    index: nat,
    offered: Content,
)
    requires
        is_tree(m),
    ensures
        match recall_at(m, auto_grow, path, index, offered) {
            Ok(v) => v.kind() == offered.kind(),
            Err(HookError::OrderViolation) => index > 0,
            Err(HookError::TypeMismatch) => true,
            Err(HookError::UnknownPath) => !auto_grow && path.len() > 0,
            Err(HookError::UnknownSlot) => false,
        },
{
    if path.len() == 0 {
        assert(path =~= Seq::<usize>::empty());
    }
}

/// What every verdict on a write has in common. Whatever a hierarchy holds,
/// a write is refused in three ways only: for a slot that was never
/// established; as a mismatch of kinds; and for an unknown path, which can
/// only happen below the root of a hierarchy that does not grow on demand.
/// A write that is admitted changes the kind of no slot.
pub proof fn every_verdict(
    m: Shape,
    auto_grow: bool,
    path: Seq<usize>,
    index: nat,
    value: Content,
)
    requires
        is_tree(m),
    ensures
        match assign_at(m, auto_grow, path, index, value) {
            Ok(()) => resolve(m, auto_grow, path) matches Some(t) && index < t[path].len()
                && t[path][index as int].kind() == value.kind(),
            Err(HookError::UnknownSlot) => true,
            Err(HookError::TypeMismatch) => true,
            Err(HookError::UnknownPath) => !auto_grow && path.len() > 0,
            Err(HookError::OrderViolation) => false,
        },
{
    if path.len() == 0 {
        assert(path =~= Seq::<usize>::empty());
    }
}

/// Growth keeps the shape of a tree, and has nothing to add where the
/// position exists: a tree grown by one of its own positions is itself.
pub proof fn growth_keeps_the_tree(m: Shape, path: Seq<usize>)
    requires
        is_tree(m),
    ensures
        is_tree(grown(m, path)),
        grown(m, path).contains_key(path),
        m.contains_key(path) ==> grown(m, path) == m,
{
    let g = grown(m, path);
    assert(on_the_way(path, path));
    assert forall|p: Seq<usize>, q: Seq<usize>|
        g.contains_key(p) && #[trigger] on_the_way(p, q) implies #[trigger] g.contains_key(q) by {
        if !m.contains_key(p) {
            assert(on_the_way(path, p));
            assert(on_the_way(path, q));
        }
    }
    if m.contains_key(path) {
        assert(g =~= m);
    }
}

/// Pruning keeps the shape of a tree. It leaves the position without slots
/// and with nothing below it, so that the next invocation there is a first
/// one; it leaves every position that is not below it as it was; and it
/// changes nothing at all where the position does not exist.
pub proof fn pruning_keeps_the_tree(m: Shape, path: Seq<usize>)
    requires
        is_tree(m),
    ensures
        is_tree(pruned(m, path)),
        m.contains_key(path) ==> pruned(m, path).contains_key(path) && pruned(m, path)[path]
            == Seq::<Content>::empty(),
        forall|q: Seq<usize>| below(path, q) ==> !pruned(m, path).contains_key(q),
        forall|q: Seq<usize>|
            m.contains_key(q) && !below(path, q) && q != path ==> pruned(m, path).contains_key(q)
                && pruned(m, path)[q] == m[q],
        !m.contains_key(path) ==> pruned(m, path) == m,
{
    let after = pruned(m, path);
    assert forall|p: Seq<usize>, q: Seq<usize>|
        after.contains_key(p) && #[trigger] on_the_way(p, q) implies #[trigger] after.contains_key(
        q,
    ) by {
        if below(path, q) {
            assert forall|k: int| 0 <= k < path.len() implies p[k] == path[k] by {
                assert(q[k] == path[k]);
            }
            assert(below(path, p));
        }
    }
    if !m.contains_key(path) {
        assert forall|q: Seq<usize>| m.contains_key(q) implies !below(path, q) by {
            if below(path, q) {
                assert(on_the_way(q, path));
            }
        }
        assert(after =~= m);
    }
}

/// No operation breaks the shape: after any run of requests, writes and
/// registrations on a tree, what the hierarchy holds is a tree.
pub proof fn operations_keep_the_tree(m: Shape, auto_grow: bool, ops: Seq<Operation>)
    requires
        is_tree(m),
    ensures
        is_tree(after_operations(m, auto_grow, ops)),
    decreases ops.len(),
{
    if ops.len() > 0 {
        let before = after_operations(m, auto_grow, ops.drop_last());
        operations_keep_the_tree(m, auto_grow, ops.drop_last());
        match ops.last() {
            Operation::Request(a) => {
                growth_keeps_the_tree(before, a.path);
            },
            Operation::Write(a) => {
                growth_keeps_the_tree(before, a.path);
            },
            Operation::Register(path) => {
                growth_keeps_the_tree(before, path);
            },
        }
    }
}

/// Writes to different positions may be applied in either order: the
/// hierarchy that results is the same, and so is the verdict on each write.
pub proof fn disjoint_writes_commute(m: Shape, auto_grow: bool, a: Access, b: Access)
    requires
        a.path != b.path,
        m.contains_key(a.path),
        m.contains_key(b.path),
    ensures
        after_assign_at(
            after_assign_at(m, auto_grow, a.path, a.index, a.value),
            auto_grow,
            b.path,
            b.index,
            b.value,
        ) == after_assign_at(
            after_assign_at(m, auto_grow, b.path, b.index, b.value),
            auto_grow,
            a.path,
            a.index,
            a.value,
        ),
        assign_at(
            after_assign_at(m, auto_grow, a.path, a.index, a.value),
            auto_grow,
            b.path,
            b.index,
            b.value,
        ) == assign_at(m, auto_grow, b.path, b.index, b.value),
        assign_at(
            after_assign_at(m, auto_grow, b.path, b.index, b.value),
            auto_grow,
            a.path,
            a.index,
            a.value,
        ) == assign_at(m, auto_grow, a.path, a.index, a.value),
{
    let ab = after_assign_at(
        after_assign_at(m, auto_grow, a.path, a.index, a.value),
        auto_grow,
        b.path,
        b.index,
        b.value,
    );
    let ba = after_assign_at(
        after_assign_at(m, auto_grow, b.path, b.index, b.value),
        auto_grow,
        a.path,
        a.index,
        a.value,
    );
    assert(ab =~= ba);
}

} // verus!
