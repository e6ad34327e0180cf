//! The hierarchy of slot stores.
//!
//! Every position in the hierarchy owns one slot store and an ordered run of
//! child positions. A position is addressed by a path: the child indices to
//! follow from the root, in order. Seen from outside, a hierarchy is a
//! partial map from paths to the slots held there.

use vstd::prelude::*;
use crate::error::HookError;
use crate::state::{after_assign, after_recall, answer, assign, recall, State};
use crate::value::{Content, Value};

verus! {

/// The slots of one store, oldest first.
pub type Slots = Seq<Content>;

/// What a hierarchy holds: the slots at every path that exists in it.
pub type Shape = Map<Seq<usize>, Slots>;

/// Whether bringing the position at `path` into being also brings `q` into
/// being, in a hierarchy that had neither.
///
/// Children are numbered without gaps, so the position at `path` needs every
/// position on the way to it, and every sibling with a smaller index of each
/// of those.
pub open spec fn on_the_way(path: Seq<usize>, q: Seq<usize>) -> bool {
    &&& q.len() <= path.len()
    &&& forall|k: int| 0 <= k < q.len() - 1 ==> q[k] == path[k]
    &&& q.len() > 0 ==> q[q.len() - 1] <= path[q.len() - 1]
}

/// Whether `m` has the shape of a tree: the root is there, and with every
/// position all that lie on the way to it.
pub open spec fn is_tree(m: Shape) -> bool {
    &&& m.contains_key(Seq::empty())
    &&& forall|p: Seq<usize>, q: Seq<usize>|
        m.contains_key(p) && #[trigger] on_the_way(p, q) ==> #[trigger] m.contains_key(q)
}

/// The hierarchy `m` after the position at `path` was brought into being:
/// what existed is kept as it was, and what had to be created is empty.
pub open spec fn grown(m: Shape, path: Seq<usize>) -> Shape {
    Map::new(
        |q: Seq<usize>| m.contains_key(q) || on_the_way(path, q),
        |q: Seq<usize>|
            if m.contains_key(q) {
                m[q]
            } else {
                Seq::empty()
            },
    )
}

/// Whether `q` lies below `path`: `path` leads to `q` and `q` goes on.
pub open spec fn below(path: Seq<usize>, q: Seq<usize>) -> bool {
    &&& path.len() < q.len()
    &&& forall|k: int| 0 <= k < path.len() ==> q[k] == path[k]
}

/// The hierarchy `m` after the position at `path` was pruned: the position
/// holds no slots, and there is nothing below it.
pub open spec fn pruned(m: Shape, path: Seq<usize>) -> Shape {
    Map::new(
        |q: Seq<usize>| m.contains_key(q) && !below(path, q),
        |q: Seq<usize>|
            if q == path {
                Seq::empty()
            } else {
                m[q]
            },
    )
}

/// The hierarchy in which `path` is looked up: `m` itself where the position
/// exists, `m` grown by it where growth on demand is allowed, and nothing
/// where the position is missing and may not be created.
pub open spec fn resolve(m: Shape, auto_grow: bool, path: Seq<usize>) -> Option<Shape> {
    if m.contains_key(path) {
        Some(m)
    } else if auto_grow {
        Some(grown(m, path))
    } else {
        None
    }
}

/// What a state request at slot `index` of the position at `path` answers.
pub open spec fn recall_at(
    m: Shape,
    auto_grow: bool,
    path: Seq<usize>,
    index: nat,
    initial: Content,
) -> Result<Content, HookError> {
    match resolve(m, auto_grow, path) {
        Some(t) => recall(t[path], index, initial),
        None => Err(HookError::UnknownPath),
    }
}

/// The hierarchy after a state request at slot `index` of the position at `path`.
pub open spec fn after_recall_at(
    m: Shape,
    auto_grow: bool,
    path: Seq<usize>,
    index: nat,
    initial: Content,
) -> Shape {
    match resolve(m, auto_grow, path) {
        Some(t) => t.insert(path, after_recall(t[path], index, initial)),
        None => m,
    }
}

/// Whether `value` may be written to slot `index` of the position at `path`,
/// and if not, why.
pub open spec fn assign_at(
    m: Shape,
    auto_grow: bool,
    path: Seq<usize>,
    index: nat,
    value: Content,
) -> Result<(), HookError> {
    match resolve(m, auto_grow, path) {
        Some(t) => assign(t[path], index, value),
        None => Err(HookError::UnknownPath),
    }
}

/// The hierarchy after an attempt to write `value` to slot `index` of the
/// position at `path`.
pub open spec fn after_assign_at(
    m: Shape,
    auto_grow: bool,
    path: Seq<usize>,
    index: nat,
    value: Content,
) -> Shape {
    match resolve(m, auto_grow, path) {
        Some(t) => t.insert(path, after_assign(t[path], index, value)),
        None => m,
    }
}

/// One position in the hierarchy: its own slot store, and the positions
/// below it. The root position stands for the whole hierarchy.
pub struct StateTree {
    state: State,
    children: Vec<StateTree>,
    auto_grow: bool,
}

impl StateTree {
    /// The slots at `path` below this position, if that position exists.
    spec fn slots_at(self, path: Seq<usize>) -> Option<Slots>
        decreases path.len(),
    {
        if path.len() == 0 {
            Some(self.state@)
        } else if path[0] < self.children@.len() {
            self.children@[path[0] as int].slots_at(path.drop_first())
        } else {
            None
        }
    }

    /// Whether a position that is missing is created when it is asked for.
    pub closed spec fn grows(self) -> bool {
        self.auto_grow
    }

    /// What a hierarchy holds always has the shape of a tree.
    pub proof fn shape_is_tree(self)
        ensures
            is_tree(self@),
    {
        self.lemma_view(Seq::empty());
        assert forall|p: Seq<usize>, q: Seq<usize>|
            self@.contains_key(p) && #[trigger] on_the_way(p, q) implies #[trigger] self@.contains_key(
            q,
        ) by {
            self.lemma_contains_on_the_way(p, q);
        }
    }
}

impl View for StateTree {
    type V = Shape;

    closed spec fn view(&self) -> Shape {
        Map::new(
            |p: Seq<usize>| self.slots_at(p) is Some,
            |p: Seq<usize>| self.slots_at(p).unwrap(),
        )
    }
}

impl StateTree {
    /// A hierarchy of a single position without slots. With `auto_grow`,
    /// a position that is asked for and missing is created on demand;
    /// without it, positions come into being through [`StateTree::register`]
    /// alone.
    pub fn new(auto_grow: bool) -> (tree: StateTree)
        ensures
            tree@ == Map::<Seq<usize>, Slots>::empty().insert(Seq::empty(), Seq::empty()),
            tree.grows() == auto_grow,
    {
        let tree = StateTree { state: State::new(), children: Vec::new(), auto_grow };
        proof {
            let goal = Map::<Seq<usize>, Slots>::empty().insert(Seq::empty(), Seq::empty());
            assert forall|q: Seq<usize>| #[trigger]
                tree@.dom().contains(q) == goal.dom().contains(q) && (tree@.dom().contains(q)
                    ==> tree@[q] == goal[q]) by {
                tree.lemma_view(q);
                if q.len() == 0 {
                    assert(q =~= Seq::<usize>::empty());
                }
            }
            assert(tree@ =~= goal);
        }
        tree
    }

    /// Whether a position that is missing is created when it is asked for.
    pub fn auto_grow(&self) -> (b: bool)
        ensures
            b == self.grows(),
    {
        self.auto_grow
    }

    /// Decides anew whether a position that is missing is created when it
    /// is asked for. What the hierarchy holds is left as it is.
    pub fn set_auto_grow(&mut self, auto_grow: bool)
        ensures
            final(self)@ == old(self)@,
            final(self).grows() == auto_grow,
    {
        self.auto_grow = auto_grow;
        proof {
            assert forall|q: Seq<usize>| #[trigger]
                self@.dom().contains(q) == old(self)@.dom().contains(q) && (self@.dom().contains(
                    q,
                ) ==> self@[q] == old(self)@[q]) by {
                self.lemma_view(q);
                old(self).lemma_view(q);
            }
            assert(self@ =~= old(self)@);
        }
    }

    /// Whether the position at `cursor` exists.
    pub fn contains(&self, cursor: &[usize]) -> (b: bool)
        ensures
            b == self@.contains_key(cursor@),
    {
        self.get_state(cursor).is_some()
    }

    /// The slot store at `cursor`, if that position exists.
    pub fn get_state(&self, cursor: &[usize]) -> (r: Option<&State>)
        ensures
            match r {
                Some(s) => self@.contains_key(cursor@) && s@ == self@[cursor@],
                None => !self@.contains_key(cursor@),
            },
        decreases cursor@.len(),
    {
        if cursor.is_empty() {
            return Some(&self.state);
        }
        let head = cursor[0];
        if head >= self.children.len() {
            return None;
        }
        let rest = &cursor[1..cursor.len()];
        assert(rest@ =~= cursor@.drop_first());
        self.children[head].get_state(rest)
    }

    /// The slot store at `cursor`, for writing, if that position exists.
    pub fn get_state_mut(&mut self, cursor: &[usize]) -> (r: Option<&mut State>)
        ensures
            match r {
                Some(s) => old(self)@.contains_key(cursor@) && s@ == old(self)@[cursor@]
                    && final(self)@ == old(self)@.insert(cursor@, final(s)@),
                None => !old(self)@.contains_key(cursor@) && final(self)@ == old(self)@,
            },
            final(self).grows() == old(self).grows(),
        decreases cursor@.len(),
    {
        if cursor.is_empty() {
            proof {
                self.lemma_view(cursor@);
                self.lemma_root_changed();
                assert(cursor@ =~= Seq::<usize>::empty());
            }
            return Some(&mut self.state);
        }
        let head = cursor[0];
        if head >= self.children.len() {
            return None;
        }
        let rest = &cursor[1..cursor.len()];
        assert(rest@ =~= cursor@.drop_first());
        proof {
            self.lemma_view(cursor@);
            self.lemma_child_changed(cursor@);
        }
        self.children[head].get_state_mut(rest)
    }

    /// Brings the position at `cursor` into being, with every position that
    /// it needs on the way. What exists already is left as it is.
    pub fn register(&mut self, cursor: &[usize])
        ensures
            final(self)@ == grown(old(self)@, cursor@),
            final(self).grows() == old(self).grows(),
        decreases cursor@.len(),
    {
        if cursor.is_empty() {
            proof {
                self.lemma_view(cursor@);
                self.lemma_grown_existing(cursor@);
            }
            return ;
        }
        let head = cursor[0];
        while self.children.len() <= head
            invariant
                self.state == old(self).state,
                self.auto_grow == old(self).auto_grow,
                old(self).children@.len() <= self.children@.len(),
                self.children@.len() <= head + 1 || self.children@.len() == old(
                    self,
                ).children@.len(),
                forall|j: int|
                    0 <= j < old(self).children@.len() ==> self.children@[j] == old(
                        self,
                    ).children@[j],
                forall|j: int|
                    old(self).children@.len() <= j < self.children@.len()
                        ==> self.children@[j].is_leaf(),
            decreases head + 1 - self.children.len(),
        {
            let leaf = StateTree {
                state: State::new(),
                children: Vec::new(),
                auto_grow: self.auto_grow,
            };
            self.children.push(leaf);
        }
        let rest = &cursor[1..cursor.len()];
        assert(rest@ =~= cursor@.drop_first());
        let ghost mid = *self;
        self.children[head].register(rest);
        proof {
            old(self).lemma_grown_step(mid, *self, cursor@);
        }
    }

    /// Prunes the position at `cursor`: forgets its slots and everything
    /// below it, so that the path can serve another component. The position
    /// itself stays, as its siblings are counted by it. Returns whether the
    /// position existed; where it did not, nothing changes.
    pub fn prune(&mut self, cursor: &[usize]) -> (found: bool)
        ensures
            found == old(self)@.contains_key(cursor@),
            final(self)@ == pruned(old(self)@, cursor@),
            final(self).grows() == old(self).grows(),
        decreases cursor@.len(),
    {
        proof {
            self.lemma_view(cursor@);
        }
        if cursor.is_empty() {
            self.state = State::new();
            self.children = Vec::new();
            proof {
                old(self).lemma_pruned_root(*self, cursor@);
            }
            return true;
        }
        let head = cursor[0];
        if head >= self.children.len() {
            proof {
                self.lemma_pruned_missing(cursor@);
            }
            return false;
        }
        let rest = &cursor[1..cursor.len()];
        assert(rest@ =~= cursor@.drop_first());
        let found = self.children[head].prune(rest);
        proof {
            old(self).lemma_pruned_step(*self, cursor@);
        }
        found
    }

    /// The slot store at `cursor`, for writing. A missing position is created
    /// first where the hierarchy grows on demand, and is an error where it
    /// does not.
    pub fn resolve(&mut self, cursor: &[usize]) -> (r: Result<&mut State, HookError>)
        ensures
            match r {
                Ok(s) => match resolve(old(self)@, old(self).grows(), cursor@) {
                    Some(t) => s@ == t[cursor@] && final(self)@ == t.insert(cursor@, final(s)@),
                    None => false,
                },
                Err(e) => e == HookError::UnknownPath && resolve(
                    old(self)@,
                    old(self).grows(),
                    cursor@,
                ) is None && final(self)@ == old(self)@,
            },
            final(self).grows() == old(self).grows(),
    {
        if self.auto_grow {
            proof {
                if self@.contains_key(cursor@) {
                    self.lemma_grown_existing(cursor@);
                }
            }
            self.register(cursor);
        }
        match self.get_state_mut(cursor) {
            Some(s) => Ok(s),
            None => Err(HookError::UnknownPath),
        }
    }

    /// Answers a state request at slot `index` of the position at `cursor`:
    /// resolves the position, then establishes the slot with `value` if
    /// `index` is the tail of its store, or recalls what the slot holds.
    pub fn use_state_at(&mut self, cursor: &[usize], value: Value, index: usize) -> (r: Result<
        Value,
        HookError,
    >)
        ensures
            answer(r) == recall_at(old(self)@, old(self).grows(), cursor@, index as nat, value@),
            final(self)@ == after_recall_at(
                old(self)@,
                old(self).grows(),
                cursor@,
                index as nat,
                value@,
            ),
            final(self).grows() == old(self).grows(),
    {
        match self.resolve(cursor) {
            Ok(s) => s.use_state(value, index),
            Err(e) => Err(e),
        }
    }

    /// Overwrites slot `index` of the position at `cursor` with `value`:
    /// resolves the position, then writes in place.
    pub fn set_at(&mut self, cursor: &[usize], index: usize, value: Value) -> (r: Result<
        (),
        HookError,
    >)
        ensures
            r == assign_at(old(self)@, old(self).grows(), cursor@, index as nat, value@),
            final(self)@ == after_assign_at(
                old(self)@,
                old(self).grows(),
                cursor@,
                index as nat,
                value@,
            ),
            final(self).grows() == old(self).grows(),
    {
        match self.resolve(cursor) {
            Ok(s) => s.set(index, value),
            Err(e) => Err(e),
        }
    }
}

impl Default for StateTree {
    /// A hierarchy of a single position without slots, which grows on demand.
    fn default() -> (tree: StateTree)
        ensures
            tree@ == Map::<Seq<usize>, Slots>::empty().insert(Seq::empty(), Seq::empty()),
            tree.grows(),
    {
        StateTree::new(true)
    }
}

// What the map of a position has to do with the maps of its children.
impl StateTree {
    /// A position's map is its own store at the empty path, and below each
    /// child index the map of that child.
    proof fn lemma_view(self, p: Seq<usize>)
        ensures
            p.len() == 0 ==> self@.contains_key(p) && self@[p] == self.state@,
            p.len() > 0 && p[0] >= self.children@.len() ==> !self@.contains_key(p),
            p.len() > 0 && p[0] < self.children@.len() ==> {
                let child = self.children@[p[0] as int];
                &&& self@.contains_key(p) == child@.contains_key(p.drop_first())
                &&& self@.contains_key(p) ==> self@[p] == child@[p.drop_first()]
            },
    {
    }

    /// Whether `after` is this position with nothing changed but, at most,
    /// the child at index `i`.
    spec fn same_but_child(self, after: StateTree, i: int) -> bool {
        &&& after.state@ == self.state@
        &&& after.auto_grow == self.auto_grow
        &&& after.children@.len() == self.children@.len()
        &&& forall|j: int|
            0 <= j < self.children@.len() && j != i ==> after.children@[j] == self.children@[j]
    }

    /// A path is its head followed by its tail.
    proof fn lemma_same_path(p: Seq<usize>, q: Seq<usize>)
        requires
            p.len() > 0,
            q.len() > 0,
            p[0] == q[0],
            p.drop_first() == q.drop_first(),
        ensures
            p == q,
    {
        assert(p.len() == q.len()) by {
            assert(p.drop_first().len() == p.len() - 1);
            assert(q.drop_first().len() == q.len() - 1);
        }
        assert forall|k: int| 0 <= k < p.len() implies p[k] == q[k] by {
            if k > 0 {
                assert(p.drop_first()[k - 1] == p[k]);
                assert(q.drop_first()[k - 1] == q[k]);
            }
        }
        assert(p =~= q);
    }

    /// A child whose map is unchanged leaves the parent's map unchanged.
    proof fn lemma_child_kept(self, after: StateTree, i: int)
        requires
            0 <= i < self.children@.len(),
            self.same_but_child(after, i),
            after.children@[i]@ == self.children@[i]@,
        ensures
            after@ == self@,
    {
        assert forall|q: Seq<usize>| #[trigger]
            after@.dom().contains(q) == self@.dom().contains(q) && (after@.dom().contains(q)
                ==> after@[q] == self@[q]) by {
            self.lemma_view(q);
            after.lemma_view(q);
        }
        assert(after@ =~= self@);
    }

    /// Replacing what one child holds at one path replaces it in the parent
    /// at the path that leads through that child.
    proof fn lemma_child_insert(self, after: StateTree, p: Seq<usize>, x: Seq<Content>)
        requires
            p.len() > 0,
            p[0] < self.children@.len(),
            self.same_but_child(after, p[0] as int),
            after.children@[p[0] as int]@ == self.children@[p[0] as int]@.insert(
                p.drop_first(),
                x,
            ),
        ensures
            after@ == self@.insert(p, x),
    {
        let goal = self@.insert(p, x);
        assert forall|q: Seq<usize>| #[trigger]
            after@.dom().contains(q) == goal.dom().contains(q) && (after@.dom().contains(q)
                ==> after@[q] == goal[q]) by {
            self.lemma_view(q);
            after.lemma_view(q);
            if q.len() > 0 && q[0] == p[0] && q.drop_first() == p.drop_first() {
                Self::lemma_same_path(p, q);
            }
        }
        assert(after@ =~= goal);
    }

    /// What a change to one child, and to nothing else, does to the map of
    /// the parent, whatever the changed parent is.
    proof fn lemma_child_changed(self, p: Seq<usize>)
        requires
            p.len() > 0,
            p[0] < self.children@.len(),
        ensures
            forall|after: StateTree|
                #![trigger after@]
                self.same_but_child(after, p[0] as int) ==> {
                    let before = self.children@[p[0] as int]@;
                    let now = after.children@[p[0] as int]@;
                    &&& now == before ==> after@ == self@
                    &&& now == before.insert(p.drop_first(), now[p.drop_first()]) ==> after@
                        == self@.insert(p, now[p.drop_first()])
                },
    {
        assert forall|after: StateTree|
            #![trigger after@]
            self.same_but_child(after, p[0] as int) implies {
            let before = self.children@[p[0] as int]@;
            let now = after.children@[p[0] as int]@;
            &&& now == before ==> after@ == self@
            &&& now == before.insert(p.drop_first(), now[p.drop_first()]) ==> after@
                == self@.insert(p, now[p.drop_first()])
        } by {
            let before = self.children@[p[0] as int]@;
            let now = after.children@[p[0] as int]@;
            if now == before {
                self.lemma_child_kept(after, p[0] as int);
            }
            if now == before.insert(p.drop_first(), now[p.drop_first()]) {
                self.lemma_child_insert(after, p, now[p.drop_first()]);
            }
        }
    }

    /// What a change to the position's own store, and to nothing else, does
    /// to its map, whatever the changed position is.
    proof fn lemma_root_changed(self)
        ensures
            forall|after: StateTree|
                #![trigger after@]
                after.children@ == self.children@ ==> after@ == self@.insert(
                    Seq::empty(),
                    after.state@,
                ),
    {
        assert forall|after: StateTree|
            #![trigger after@]
            after.children@ == self.children@ implies after@ == self@.insert(
            Seq::empty(),
            after.state@,
        ) by {
            let goal = self@.insert(Seq::empty(), after.state@);
            assert forall|q: Seq<usize>| #[trigger]
                after@.dom().contains(q) == goal.dom().contains(q) && (after@.dom().contains(q)
                    ==> after@[q] == goal[q]) by {
                self.lemma_view(q);
                after.lemma_view(q);
                if q.len() == 0 {
                    assert(q =~= Seq::<usize>::empty());
                }
            }
            assert(after@ =~= goal);
        }
    }

    /// Whether this position has neither slots nor children.
    spec fn is_leaf(self) -> bool {
        self.state@.len() == 0 && self.children@.len() == 0
    }

    /// Below the first index, being on the way to a path is being on the way
    /// to its tail.
    proof fn lemma_on_the_way_tail(p: Seq<usize>, q: Seq<usize>)
        requires
            p.len() > 0,
            q.len() > 0,
            p[0] == q[0],
        ensures
            on_the_way(p, q) == on_the_way(p.drop_first(), q.drop_first()),
    {
        let pt = p.drop_first();
        let qt = q.drop_first();
        if on_the_way(p, q) {
            assert forall|k: int| 0 <= k < qt.len() - 1 implies qt[k] == pt[k] by {
                assert(q[k + 1] == p[k + 1]);
            }
            assert(on_the_way(pt, qt));
        }
        if on_the_way(pt, qt) {
            assert forall|k: int| 0 <= k < q.len() - 1 implies q[k] == p[k] by {
                if k > 0 {
                    assert(qt[k - 1] == pt[k - 1]);
                }
            }
            if qt.len() > 0 {
                assert(qt[qt.len() - 1] == q[q.len() - 1]);
                assert(pt[qt.len() - 1] == p[q.len() - 1]);
            }
            assert(on_the_way(p, q));
        }
    }

    /// What growth does, one level at a time: `mid` is `self` with leaves
    /// appended until the child at the head of `p` exists, and `after` is
    /// `mid` with that child grown by the tail of `p`.
    proof fn lemma_grown_step(self, mid: StateTree, after: StateTree, p: Seq<usize>)
        requires
            p.len() > 0,
            mid.state@ == self.state@,
            p[0] < self.children@.len() ==> mid.children@.len() == self.children@.len(),
            p[0] >= self.children@.len() ==> mid.children@.len() == p[0] + 1,
            forall|j: int|
                0 <= j < self.children@.len() ==> mid.children@[j] == self.children@[j],
            forall|j: int|
                self.children@.len() <= j < mid.children@.len() ==> mid.children@[j].is_leaf(),
            mid.same_but_child(after, p[0] as int),
            after.children@[p[0] as int]@ == grown(mid.children@[p[0] as int]@, p.drop_first()),
        ensures
            after@ == grown(self@, p),
    {
        let goal = grown(self@, p);
        let pt = p.drop_first();
        assert forall|q: Seq<usize>| #[trigger]
            after@.dom().contains(q) == goal.dom().contains(q) && (after@.dom().contains(q)
                ==> after@[q] == goal[q]) by {
            self.lemma_view(q);
            mid.lemma_view(q);
            after.lemma_view(q);
            if q.len() > 0 {
                let qt = q.drop_first();
                if q[0] < mid.children@.len() {
                    let child = mid.children@[q[0] as int];
                    child.lemma_view(qt);
                    if q[0] == p[0] {
                        Self::lemma_on_the_way_tail(p, q);
                    } else {
                        assert(after.children@[q[0] as int] == child);
                    }
                }
            }
        }
        assert(after@ =~= goal);
    }

    /// Bringing into being a position that exists changes nothing.
    proof fn lemma_grown_existing(self, p: Seq<usize>)
        requires
            self@.contains_key(p),
        ensures
            grown(self@, p) == self@,
    {
        self.shape_is_tree();
        assert(grown(self@, p) =~= self@);
    }

    /// A hierarchy that holds a position holds every position on the way to it.
    proof fn lemma_contains_on_the_way(self, p: Seq<usize>, q: Seq<usize>)
        requires
            self@.contains_key(p),
            on_the_way(p, q),
        ensures
            self@.contains_key(q),
        decreases q.len(),
    {
        self.lemma_view(p);
        self.lemma_view(q);
        if q.len() > 0 {
            let child = self.children@[q[0] as int];
            if q.len() == 1 {
                child.lemma_view(q.drop_first());
            } else {
                assert(q[0] == p[0]);
                Self::lemma_on_the_way_tail(p, q);
                child.lemma_contains_on_the_way(p.drop_first(), q.drop_first());
            }
        }
    }

    /// Below the first index, lying below a path is lying below its tail.
    proof fn lemma_below_tail(p: Seq<usize>, q: Seq<usize>)
        requires
            p.len() > 0,
            q.len() > 0,
            p[0] == q[0],
        ensures
            below(p, q) == below(p.drop_first(), q.drop_first()),
    {
        let pt = p.drop_first();
        let qt = q.drop_first();
        if below(p, q) {
            assert forall|k: int| 0 <= k < pt.len() implies qt[k] == pt[k] by {
                assert(q[k + 1] == p[k + 1]);
            }
        }
        if below(pt, qt) {
            assert forall|k: int| 0 <= k < p.len() implies q[k] == p[k] by {
                if k > 0 {
                    assert(qt[k - 1] == pt[k - 1]);
                }
            }
        }
    }

    /// A position that was emptied is the root of a pruned hierarchy.
    proof fn lemma_pruned_root(self, after: StateTree, p: Seq<usize>)
        requires
            p.len() == 0,
            after.is_leaf(),
        ensures
            after@ == pruned(self@, p),
    {
        let goal = pruned(self@, p);
        assert forall|q: Seq<usize>| #[trigger]
            after@.dom().contains(q) == goal.dom().contains(q) && (after@.dom().contains(q)
                ==> after@[q] == goal[q]) by {
            self.lemma_view(q);
            after.lemma_view(q);
            if q.len() == 0 {
                assert(q =~= p);
                assert(after.state@ =~= Seq::<Content>::empty());
            }
        }
        assert(after@ =~= goal);
    }

    /// Pruning below a child that is not there changes nothing.
    proof fn lemma_pruned_missing(self, p: Seq<usize>)
        requires
            p.len() > 0,
            p[0] >= self.children@.len(),
        ensures
            self@ == pruned(self@, p),
    {
        let goal = pruned(self@, p);
        assert forall|q: Seq<usize>| #[trigger]
            self@.dom().contains(q) == goal.dom().contains(q) && (self@.dom().contains(q)
                ==> self@[q] == goal[q]) by {
            self.lemma_view(q);
            self.lemma_view(p);
        }
        assert(self@ =~= goal);
    }

    /// What pruning does, one level at a time: `after` is `self` with the
    /// child at the head of `p` pruned at the tail of `p`.
    proof fn lemma_pruned_step(self, after: StateTree, p: Seq<usize>)
        requires
            p.len() > 0,
            p[0] < self.children@.len(),
            self.same_but_child(after, p[0] as int),
            after.children@[p[0] as int]@ == pruned(self.children@[p[0] as int]@, p.drop_first()),
        ensures
            after@ == pruned(self@, p),
    {
        let goal = pruned(self@, p);
        assert forall|q: Seq<usize>| #[trigger]
            after@.dom().contains(q) == goal.dom().contains(q) && (after@.dom().contains(q)
                ==> after@[q] == goal[q]) by {
            self.lemma_view(q);
            after.lemma_view(q);
            if q.len() > 0 && q[0] == p[0] {
                Self::lemma_below_tail(p, q);
                if q.drop_first() == p.drop_first() {
                    Self::lemma_same_path(p, q);
                }
            }
        }
        assert(after@ =~= goal);
    }
}

} // verus!
