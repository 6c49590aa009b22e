//! An in-memory tree of nodes with shared downward ownership and weak,
//! lookup-only upward references.
//!
//! Ownership flows strictly downward: a slot in a parent's child list and
//! every outstanding external handle each keep a node alive.  The upward
//! `parent` reference never does; it must be resolved before use and yields
//! absent once the parent has been destroyed.  A node is destroyed exactly
//! when its last owning reference (handle or child-list slot of a live
//! node) disappears, and destruction cascades to anything it owned alone.
//!
//! Nodes live in an arena and are addressed by index, so the counts that
//! a reference-counting pointer scheme would maintain at runtime are here
//! mathematical functions of the arena's state: the strong count of a node
//! is its external handles plus the owning slots that live nodes hold on
//! it, and the weak count is the number of live nodes whose parent
//! reference points at it.

use vstd::prelude::*;

verus! {

/// Owning slots on `k` among the first `n` edges: edge `e = (owner, child)`
/// contributes when its owner is alive (per `alive`) and its child is `k`.
pub open spec fn slots_upto(edges: Seq<(usize, usize)>, alive: Seq<bool>, k: int, n: int) -> nat
    decreases n,
{
    if n <= 0 {
        0
    } else {
        slots_upto(edges, alive, k, n - 1) + (if owner_edge(edges, alive, n - 1, k) {
            1nat
        } else {
            0nat
        })
    }
}

/// Edge `e` is an owning slot on `k` held by a live node.
pub open spec fn owner_edge(edges: Seq<(usize, usize)>, alive: Seq<bool>, e: int, k: int) -> bool {
    &&& 0 <= e < edges.len()
    &&& 0 <= edges[e].0 < alive.len()
    &&& alive[edges[e].0 as int]
    &&& edges[e].1 == k
}

/// Weak back-references on `k` among the first `n` nodes: node `i`
/// contributes when it is alive and its parent reference points at `k`.
pub open spec fn weak_upto(parents: Seq<Option<usize>>, alive: Seq<bool>, k: int, n: int) -> nat
    decreases n,
{
    if n <= 0 {
        0
    } else {
        weak_upto(parents, alive, k, n - 1) + (if weak_edge(parents, alive, n - 1, k) {
            1nat
        } else {
            0nat
        })
    }
}

/// Node `i` holds a weak back-reference to `k`.
pub open spec fn weak_edge(parents: Seq<Option<usize>>, alive: Seq<bool>, i: int, k: int) -> bool {
    &&& 0 <= i < parents.len()
    &&& i < alive.len()
    &&& alive[i]
    &&& parents[i] is Some
    &&& parents[i]->0 as int == k
}

/// The ordered child list of `p`: the children of the edges owned by `p`,
/// in attachment order, among the first `n` edges.
pub open spec fn children_upto(edges: Seq<(usize, usize)>, p: int, n: int) -> Seq<usize>
    decreases n,
{
    if n <= 0 {
        Seq::empty()
    } else {
        children_upto(edges, p, n - 1) + (if edges[n - 1].0 as int == p {
            seq![edges[n - 1].1]
        } else {
            Seq::empty()
        })
    }
}

proof fn lemma_slots_agree(
    e1: Seq<(usize, usize)>,
    a1: Seq<bool>,
    e2: Seq<(usize, usize)>,
    a2: Seq<bool>,
    k: int,
    n: int,
)
    requires
        forall|e: int| 0 <= e < n ==> owner_edge(e1, a1, e, k) == owner_edge(e2, a2, e, k),
    ensures
        slots_upto(e1, a1, k, n) == slots_upto(e2, a2, k, n),
    decreases n,
{
    if n > 0 {
        lemma_slots_agree(e1, a1, e2, a2, k, n - 1);
    }
}

proof fn lemma_slots_le(
    e1: Seq<(usize, usize)>,
    a1: Seq<bool>,
    e2: Seq<(usize, usize)>,
    a2: Seq<bool>,
    k: int,
    n: int,
)
    requires
        forall|e: int| 0 <= e < n && owner_edge(e2, a2, e, k) ==> owner_edge(e1, a1, e, k),
    ensures
        slots_upto(e2, a2, k, n) <= slots_upto(e1, a1, k, n),
    decreases n,
{
    if n > 0 {
        lemma_slots_le(e1, a1, e2, a2, k, n - 1);
    }
}

proof fn lemma_slots_mono(edges: Seq<(usize, usize)>, alive: Seq<bool>, k: int, n1: int, n2: int)
    requires
        n1 <= n2,
    ensures
        slots_upto(edges, alive, k, n1) <= slots_upto(edges, alive, k, n2),
    decreases n2,
{
    if n1 < n2 && n2 > 0 {
        lemma_slots_mono(edges, alive, k, n1, n2 - 1);
    }
}

proof fn lemma_slots_zero_iff(edges: Seq<(usize, usize)>, alive: Seq<bool>, k: int, n: int)
    ensures
        (slots_upto(edges, alive, k, n) == 0) <==> (forall|e: int|
            0 <= e < n ==> !owner_edge(edges, alive, e, k)),
    decreases n,
{
    if n > 0 {
        lemma_slots_zero_iff(edges, alive, k, n - 1);
    }
}

proof fn lemma_weak_except(
    p1: Seq<Option<usize>>,
    a1: Seq<bool>,
    p2: Seq<Option<usize>>,
    a2: Seq<bool>,
    k: int,
    n: int,
    c: int,
)
    requires
        forall|i: int| 0 <= i < n && i != c ==> weak_edge(p1, a1, i, k) == weak_edge(p2, a2, i, k),
    ensures
        weak_upto(p2, a2, k, n) + (if 0 <= c < n && weak_edge(p1, a1, c, k) {
            1int
        } else {
            0int
        }) == weak_upto(p1, a1, k, n) + (if 0 <= c < n && weak_edge(p2, a2, c, k) {
            1int
        } else {
            0int
        }),
    decreases n,
{
    if n > 0 {
        lemma_weak_except(p1, a1, p2, a2, k, n - 1, c);
    }
}

proof fn lemma_weak_zero_iff(parents: Seq<Option<usize>>, alive: Seq<bool>, k: int, n: int)
    ensures
        (weak_upto(parents, alive, k, n) == 0) <==> (forall|i: int|
            0 <= i < n ==> !weak_edge(parents, alive, i, k)),
    decreases n,
{
    if n > 0 {
        lemma_weak_zero_iff(parents, alive, k, n - 1);
    }
}

proof fn lemma_children_agree(e1: Seq<(usize, usize)>, e2: Seq<(usize, usize)>, p: int, n: int)
    requires
        forall|e: int| 0 <= e < n ==> e1[e] == e2[e],
    ensures
        children_upto(e1, p, n) == children_upto(e2, p, n),
    decreases n,
{
    if n > 0 {
        lemma_children_agree(e1, e2, p, n - 1);
    }
}

proof fn lemma_weak_le_n(parents: Seq<Option<usize>>, alive: Seq<bool>, k: int, n: int)
    requires
        n >= 0,
    ensures
        weak_upto(parents, alive, k, n) <= n,
    decreases n,
{
    if n > 0 {
        lemma_weak_le_n(parents, alive, k, n - 1);
    }
}

proof fn lemma_children_none(edges: Seq<(usize, usize)>, p: int, n: int)
    requires
        forall|e: int| 0 <= e < n ==> (#[trigger] edges[e]).0 != p,
    ensures
        children_upto(edges, p, n) == Seq::<usize>::empty(),
    decreases n,
{
    if n > 0 {
        lemma_children_none(edges, p, n - 1);
    }
    assert(children_upto(edges, p, n) =~= Seq::<usize>::empty());
}

/// How many of the first `n` nodes are alive.
pub open spec fn live_upto(alive: Seq<bool>, n: int) -> nat
    decreases n,
{
    if n <= 0 {
        0
    } else {
        live_upto(alive, n - 1) + (if 0 <= n - 1 < alive.len() && alive[n - 1] {
            1nat
        } else {
            0nat
        })
    }
}

proof fn lemma_live_update(alive: Seq<bool>, j: int, n: int)
    requires
        0 <= j < alive.len(),
    ensures
        live_upto(alive.update(j, false), n) == live_upto(alive, n) - (if j < n && alive[j] {
            1int
        } else {
            0int
        }),
    decreases n,
{
    if n > 0 {
        lemma_live_update(alive, j, n - 1);
    }
}

/// The arena that holds every node.  Parallel vectors give each node a
/// value, a liveness flag, a count of external owning handles and an
/// optional weak parent reference; the owning child slots of all nodes
/// live in one flat edge list, in attachment order.
pub struct Arena {
    values: Vec<i64>,
    alive: Vec<bool>,
    handles: Vec<usize>,
    parents: Vec<Option<usize>>,
    edges: Vec<(usize, usize)>,
}

impl Arena {
    /// How many nodes have ever been created.
    pub closed spec fn node_count(self) -> nat {
        self.values@.len()
    }

    /// `k` indexes a node that was created at some point.
    pub open spec fn valid(self, k: int) -> bool {
        0 <= k < self.node_count()
    }

    /// Node `k` has not been destroyed.
    pub closed spec fn is_alive(self, k: int) -> bool {
        self.valid(k) && self.alive@[k]
    }

    /// External owning handles outstanding on `k`.
    pub closed spec fn handles_of(self, k: int) -> nat {
        self.handles@[k] as nat
    }

    /// The weak parent reference of `k`, whether or not its target is alive.
    pub closed spec fn parent_of(self, k: int) -> Option<usize> {
        self.parents@[k]
    }

    /// The payload of `k`.
    pub closed spec fn value_of(self, k: int) -> i64 {
        self.values@[k]
    }

    /// The edge list: `(owner, child)` owning slots in attachment order.
    pub closed spec fn edge_list(self) -> Seq<(usize, usize)> {
        self.edges@
    }

    /// The liveness flags of all nodes.
    pub closed spec fn alive_map(self) -> Seq<bool> {
        self.alive@
    }

    /// Owning child slots that live nodes hold on `k`.
    pub open spec fn slot_count(self, k: int) -> nat {
        slots_upto(self.edge_list(), self.alive_map(), k, self.edge_list().len() as int)
    }

    /// The strong count of `k`: external handles plus owning slots of live
    /// nodes.  A destroyed node has strong count zero.
    pub open spec fn strong_of(self, k: int) -> nat {
        if self.is_alive(k) {
            self.handles_of(k) + self.slot_count(k)
        } else {
            0
        }
    }

    /// The weak count of `k`: live nodes whose parent reference points at it.
    pub open spec fn weak_of(self, k: int) -> nat {
        weak_upto(self.parent_map(), self.alive_map(), k, self.node_count() as int)
    }

    /// The parents of all nodes.
    pub closed spec fn parent_map(self) -> Seq<Option<usize>> {
        self.parents@
    }

    /// The parent reference of `c` points at `k` (whether or not `k` is
    /// still alive).
    pub open spec fn points_at(self, c: int, k: int) -> bool {
        self.parent_of(c) is Some && self.parent_of(c)->0 as int == k
    }

    /// Some live node holds an owning slot on `k`.
    pub open spec fn owned_by_live(self, k: int) -> bool {
        exists|e: int| owner_edge(self.edge_list(), self.alive_map(), e, k)
    }

    /// The ordered child list of `p`.
    pub open spec fn children_of(self, p: int) -> Seq<usize> {
        children_upto(self.edge_list(), p, self.edge_list().len() as int)
    }

    /// What resolving the parent reference of `k` yields: the parent while
    /// it is alive, absent once it has been destroyed or was never set.
    pub open spec fn resolve_spec(self, k: int) -> Option<usize> {
        match self.parent_of(k) {
            Some(p) => if self.is_alive(p as int) {
                Some(p)
            } else {
                None
            },
            None => None,
        }
    }

    /// The per-node part of well-formedness: the parent reference stays
    /// inside the arena, a live node is kept alive by at least one owning
    /// reference, a destroyed node has no owning reference at all, and the
    /// strong count cannot overflow.
    pub open spec fn node_inv(self, k: int) -> bool {
        &&& (self.parent_of(k) is Some ==> (self.parent_of(k)->0 as int) < self.node_count())
        &&& (self.is_alive(k) ==> self.strong_of(k) >= 1)
        &&& (!self.is_alive(k) ==> self.handles_of(k) == 0 && self.slot_count(k) == 0)
        &&& self.handles_of(k) + self.slot_count(k) <= usize::MAX
    }

    /// The framing part of well-formedness: the parallel vectors agree in
    /// length and every edge stays inside the arena.
    pub open spec fn frame_ok(self) -> bool {
        &&& self.alive_map().len() == self.node_count()
        &&& self.handle_map().len() == self.node_count()
        &&& self.parent_map().len() == self.node_count()
        &&& forall|e: int|
            0 <= e < self.edge_list().len() ==> (#[trigger] self.edge_list()[e]).0
                < self.node_count() && self.edge_list()[e].1 < self.node_count()
    }

    /// Well-formedness: the frame is sound and every node satisfies its
    /// invariant.
    pub open spec fn wf(self) -> bool {
        &&& self.frame_ok()
        &&& forall|k: int| self.valid(k) ==> #[trigger] self.node_inv(k)
    }

    /// Within the hypothetical survivor set `s`, node `k` is owned: some
    /// member of `s` holds an owning slot on it.
    pub open spec fn owned_within(self, s: Set<int>, k: int) -> bool {
        exists|e: int|
            0 <= e < self.edge_list().len() && (#[trigger] self.edge_list()[e]).1 as int == k
                && s.contains(self.edge_list()[e].0 as int)
    }

    /// `s` is a self-sustaining set of nodes: every member either has an
    /// external handle outstanding or is owned by another member.  Exactly
    /// the sets whose members keep one another alive, so (when its members
    /// were alive to begin with) destruction can never reach into one.
    pub open spec fn sustained(self, s: Set<int>) -> bool {
        forall|k: int|
            #[trigger] s.contains(k) ==> self.valid(k) && (self.handles_of(k) > 0
                || self.owned_within(s, k))
    }

    /// The handle counts of all nodes.
    pub closed spec fn handle_map(self) -> Seq<usize> {
        self.handles@
    }

    /// The payloads of all nodes.
    pub closed spec fn value_map(self) -> Seq<i64> {
        self.values@
    }

    /// An empty arena: no nodes yet.
    pub fn new() -> (arena: Arena)
        ensures
            arena.wf(),
            arena.node_count() == 0,
    {
        Arena {
            values: Vec::new(),
            alive: Vec::new(),
            handles: Vec::new(),
            parents: Vec::new(),
            edges: Vec::new(),
        }
    }

    /// How many nodes have ever been created.
    pub fn len(&self) -> (n: usize)
        ensures
            n == self.node_count(),
    {
        self.values.len()
    }

    /// Whether node `k` is still alive.
    pub fn is_live(&self, k: usize) -> (r: bool)
        requires
            self.wf(),
            self.valid(k as int),
        ensures
            r == self.is_alive(k as int),
    {
        self.alive[k]
    }

    /// Creates a fresh node holding `value`, with no parent reference, no
    /// children, and exactly one owning handle, retained by the caller.
    /// Every other node is left exactly as it was.
    pub fn create(&mut self, value: i64) -> (id: usize)
        requires
            old(self).wf(),
            old(self).node_count() < usize::MAX,
        ensures
            final(self).wf(),
            id == old(self).node_count(),
            final(self).node_count() == old(self).node_count() + 1,
            final(self).is_alive(id as int),
            final(self).value_of(id as int) == value,
            final(self).parent_of(id as int) is None,
            final(self).children_of(id as int) == Seq::<usize>::empty(),
            final(self).handles_of(id as int) == 1,
            final(self).strong_of(id as int) == 1,
            final(self).weak_of(id as int) == 0,
            forall|k: int|
                old(self).valid(k) ==> final(self).is_alive(k) == old(self).is_alive(k),
            forall|k: int|
                old(self).valid(k) ==> final(self).value_of(k) == old(self).value_of(k),
            forall|k: int|
                old(self).valid(k) ==> final(self).parent_of(k) == old(self).parent_of(k),
            forall|k: int|
                old(self).valid(k) ==> final(self).handles_of(k) == old(self).handles_of(k),
            forall|k: int|
                old(self).valid(k) ==> final(self).strong_of(k) == old(self).strong_of(k),
            forall|k: int|
                old(self).valid(k) ==> final(self).weak_of(k) == old(self).weak_of(k),
            forall|k: int|
                old(self).valid(k) ==> final(self).children_of(k) == old(self).children_of(k),
    {
        let id = self.values.len();
        self.values.push(value);
        self.alive.push(true);
        self.handles.push(1);
        self.parents.push(None);
        proof {
            let oldn = old(self).node_count() as int;
            let el = self.edge_list();
            let oal = old(self).alive_map();
            let nal = self.alive_map();
            let m = el.len() as int;
            assert(el == old(self).edge_list());
            assert forall|e: int| 0 <= e < m implies (#[trigger] el[e]).0 < oldn && el[e].1
                < oldn by {
                assert(old(self).edge_list()[e] == el[e]);
            }
            assert forall|k: int| true implies #[trigger] self.slot_count(k) == old(
                self,
            ).slot_count(k) by {
                assert forall|e: int| 0 <= e < m implies owner_edge(el, oal, e, k) == owner_edge(
                    el,
                    nal,
                    e,
                    k,
                ) by {
                    assert(el[e].0 < oldn);
                }
                lemma_slots_agree(el, oal, el, nal, k, m);
            }
            assert(self.slot_count(id as int) == 0) by {
                lemma_slots_zero_iff(el, nal, id as int, m);
            }
            assert forall|k: int| old(self).valid(k) || k == id implies #[trigger] self.weak_of(k)
                == weak_upto(self.parent_map(), nal, k, oldn) by {
                assert(self.weak_of(k) == weak_upto(self.parent_map(), nal, k, oldn + 1));
                assert(!weak_edge(self.parent_map(), nal, oldn, k));
            }
            assert forall|k: int| old(self).valid(k) implies #[trigger] self.weak_of(k)
                == old(self).weak_of(k) by {
                lemma_weak_except(
                    old(self).parent_map(),
                    oal,
                    self.parent_map(),
                    nal,
                    k,
                    oldn,
                    oldn,
                );
            }
            assert(self.weak_of(id as int) == 0) by {
                lemma_weak_zero_iff(self.parent_map(), nal, id as int, oldn);
                assert forall|i: int| 0 <= i < oldn implies !weak_edge(
                    self.parent_map(),
                    nal,
                    i,
                    id as int,
                ) by {
                    if self.parent_map()[i] is Some {
                        assert(old(self).parent_of(i) is Some);
                        assert(old(self).node_inv(i));
                    }
                }
            }
            lemma_children_none(el, id as int, m);
            assert forall|k: int| self.valid(k) implies self.node_inv(k) by {
                if k < oldn {
                    assert(old(self).node_inv(k));
                }
            }
        }
        id
    }

    /// Duplicates an external owning handle on a live node, as cloning a
    /// shared owning reference does: its strong count grows by one and
    /// nothing else changes.
    pub fn clone_handle(&mut self, id: usize)
        requires
            old(self).wf(),
            old(self).is_alive(id as int),
            old(self).strong_of(id as int) < usize::MAX,
        ensures
            final(self).wf(),
            final(self).node_count() == old(self).node_count(),
            final(self).handles_of(id as int) == old(self).handles_of(id as int) + 1,
            final(self).strong_of(id as int) == old(self).strong_of(id as int) + 1,
            forall|k: int|
                old(self).valid(k) && k != id ==> final(self).handles_of(k) == old(
                    self,
                ).handles_of(k),
            forall|k: int|
                old(self).valid(k) && k != id ==> final(self).strong_of(k) == old(self).strong_of(
                    k,
                ),
            forall|k: int|
                old(self).valid(k) ==> final(self).is_alive(k) == old(self).is_alive(k),
            forall|k: int|
                old(self).valid(k) ==> final(self).value_of(k) == old(self).value_of(k),
            forall|k: int|
                old(self).valid(k) ==> final(self).parent_of(k) == old(self).parent_of(k),
            forall|k: int|
                old(self).valid(k) ==> final(self).weak_of(k) == old(self).weak_of(k),
            forall|k: int|
                old(self).valid(k) ==> final(self).children_of(k) == old(self).children_of(k),
    {
        let h = self.handles[id];
        proof {
            assert(old(self).node_inv(id as int));
        }
        self.handles[id] = h + 1;
        proof {
            assert forall|k: int| self.valid(k) implies self.node_inv(k) by {
                assert(old(self).node_inv(k));
                assert(self.slot_count(k) == old(self).slot_count(k));
                assert(self.weak_of(k) == old(self).weak_of(k));
            }
        }
    }

    /// Appends `child` to the child list of `parent`: a new owning slot.
    /// The child's strong count grows by one; the child's parent reference
    /// is not touched.
    pub fn add_child(&mut self, parent: usize, child: usize)
        requires
            old(self).wf(),
            old(self).is_alive(parent as int),
            old(self).is_alive(child as int),
            old(self).strong_of(child as int) < usize::MAX,
        ensures
            final(self).wf(),
            final(self).node_count() == old(self).node_count(),
            final(self).children_of(parent as int) == old(self).children_of(
                parent as int,
            ).push(child),
            forall|q: int|
                q != parent ==> final(self).children_of(q) == old(self).children_of(q),
            final(self).strong_of(child as int) == old(self).strong_of(child as int) + 1,
            forall|k: int|
                old(self).valid(k) && k != child ==> final(self).strong_of(k) == old(
                    self,
                ).strong_of(k),
            forall|k: int|
                old(self).valid(k) ==> final(self).handles_of(k) == old(self).handles_of(k),
            forall|k: int|
                old(self).valid(k) ==> final(self).is_alive(k) == old(self).is_alive(k),
            forall|k: int|
                old(self).valid(k) ==> final(self).value_of(k) == old(self).value_of(k),
            forall|k: int|
                old(self).valid(k) ==> final(self).parent_of(k) == old(self).parent_of(k),
            forall|k: int| final(self).weak_of(k) == old(self).weak_of(k),
    {
        proof {
            assert(old(self).node_inv(child as int));
        }
        self.edges.push((parent, child));
        proof {
            let oldn = self.node_count() as int;
            let oel = old(self).edge_list();
            let nel = self.edge_list();
            let al = self.alive_map();
            let m = oel.len() as int;
            assert forall|e: int| 0 <= e < m implies (#[trigger] oel[e]).0 < oldn && oel[e].1
                < oldn by {
                assert(old(self).edge_list()[e] == oel[e]);
            }
            assert forall|k: int| true implies #[trigger] self.slot_count(k) == old(
                self,
            ).slot_count(k) + (if k == child {
                1int
            } else {
                0int
            }) by {
                assert forall|e: int| 0 <= e < m implies owner_edge(nel, al, e, k) == owner_edge(
                    oel,
                    al,
                    e,
                    k,
                ) by {
                    assert(nel[e] == oel[e]);
                }
                lemma_slots_agree(nel, al, oel, al, k, m);
                assert(self.slot_count(k) == slots_upto(nel, al, k, m) + (if owner_edge(
                    nel,
                    al,
                    m,
                    k,
                ) {
                    1nat
                } else {
                    0nat
                }));
                assert(owner_edge(nel, al, m, k) == (k == child));
            }
            assert forall|q: int| true implies #[trigger] self.children_of(q) == (if q
                == parent as int {
                old(self).children_of(q).push(child)
            } else {
                old(self).children_of(q)
            }) by {
                lemma_children_agree(nel, oel, q, m);
                assert(self.children_of(q) == children_upto(nel, q, m) + (if nel[m].0 as int == q {
                    seq![nel[m].1]
                } else {
                    Seq::<usize>::empty()
                }));
                if q == parent as int {
                    assert(self.children_of(q) =~= old(self).children_of(q).push(child));
                } else {
                    assert(self.children_of(q) =~= old(self).children_of(q));
                }
            }
            assert forall|k: int| self.valid(k) implies self.node_inv(k) by {
                assert(old(self).node_inv(k));
            }
        }
    }

    /// Points the weak parent reference of `child` at `parent`, replacing
    /// whatever it pointed at before: last write wins.  The new target's
    /// weak count grows by one, the old target's (if any, and if
    /// different) shrinks by one, and no strong count moves.
    pub fn set_parent(&mut self, child: usize, parent: usize)
        requires
            old(self).wf(),
            old(self).is_alive(child as int),
            old(self).is_alive(parent as int),
        ensures
            final(self).wf(),
            final(self).node_count() == old(self).node_count(),
            final(self).parent_of(child as int) == Some(parent),
            forall|k: int|
                old(self).valid(k) && k != child ==> final(self).parent_of(k) == old(
                    self,
                ).parent_of(k),
            forall|k: int|
                old(self).valid(k) ==> final(self).is_alive(k) == old(self).is_alive(k),
            forall|k: int|
                old(self).valid(k) ==> final(self).value_of(k) == old(self).value_of(k),
            forall|k: int|
                old(self).valid(k) ==> final(self).handles_of(k) == old(self).handles_of(k),
            forall|k: int|
                old(self).valid(k) ==> final(self).strong_of(k) == old(self).strong_of(k),
            forall|q: int| final(self).children_of(q) == old(self).children_of(q),
            forall|k: int|
                old(self).valid(k) ==> final(self).weak_of(k) + (if old(self).points_at(
                    child as int,
                    k,
                ) {
                    1int
                } else {
                    0int
                }) == old(self).weak_of(k) + (if k == parent {
                    1int
                } else {
                    0int
                }),
            old(self).parent_of(child as int) is None ==> final(self).weak_of(parent as int)
                == old(self).weak_of(parent as int) + 1,
    {
        self.parents[child] = Some(parent);
        proof {
            let oldn = self.node_count() as int;
            let opar = old(self).parent_map();
            let npar = self.parent_map();
            let al = self.alive_map();
            assert forall|e: int| 0 <= e < self.edge_list().len() implies ((
            #[trigger] self.edge_list()[e]).0 < self.node_count() && self.edge_list()[e].1
                < self.node_count()) by {
                assert(old(self).edge_list()[e] == self.edge_list()[e]);
            }
            assert forall|k: int| old(self).valid(k) implies self.weak_of(k) + (if old(
                self,
            ).points_at(child as int, k) {
                1int
            } else {
                0int
            }) == old(self).weak_of(k) + (if k == parent {
                1int
            } else {
                0int
            }) by {
                lemma_weak_except(opar, al, npar, al, k, oldn, child as int);
                assert(weak_edge(opar, al, child as int, k) == old(self).points_at(
                    child as int,
                    k,
                ));
                assert(weak_edge(npar, al, child as int, k) == (k == parent));
            }
            if old(self).parent_of(child as int) is None {
                assert(self.weak_of(parent as int) == old(self).weak_of(parent as int) + 1);
            }
            assert forall|k: int| self.valid(k) implies self.node_inv(k) by {
                assert(old(self).node_inv(k));
                assert(self.slot_count(k) == old(self).slot_count(k));
            }
        }
    }

    /// Attaches `child` under `parent`: appends an owning slot to the
    /// parent's child list and points the child's weak parent reference at
    /// the parent.  The child's strong count grows by exactly one (the new
    /// slot), the parent's strong count is untouched by the attachment
    /// itself, the parent's weak count grows by one (the new
    /// back-reference), and resolving the child's parent now yields the
    /// parent.
    pub fn attach_child(&mut self, parent: usize, child: usize)
        requires
            old(self).wf(),
            old(self).is_alive(parent as int),
            old(self).is_alive(child as int),
            old(self).strong_of(child as int) < usize::MAX,
        ensures
            final(self).wf(),
            final(self).node_count() == old(self).node_count(),
            final(self).children_of(parent as int) == old(self).children_of(
                parent as int,
            ).push(child),
            forall|q: int|
                q != parent ==> final(self).children_of(q) == old(self).children_of(q),
            final(self).parent_of(child as int) == Some(parent),
            forall|k: int|
                old(self).valid(k) && k != child ==> final(self).parent_of(k) == old(
                    self,
                ).parent_of(k),
            final(self).strong_of(child as int) == old(self).strong_of(child as int) + 1,
            forall|k: int|
                old(self).valid(k) && k != child ==> final(self).strong_of(k) == old(
                    self,
                ).strong_of(k),
            forall|k: int|
                old(self).valid(k) ==> final(self).handles_of(k) == old(self).handles_of(k),
            forall|k: int|
                old(self).valid(k) ==> final(self).is_alive(k) == old(self).is_alive(k),
            forall|k: int|
                old(self).valid(k) ==> final(self).value_of(k) == old(self).value_of(k),
            forall|k: int|
                old(self).valid(k) ==> final(self).weak_of(k) + (if old(self).points_at(
                    child as int,
                    k,
                ) {
                    1int
                } else {
                    0int
                }) == old(self).weak_of(k) + (if k == parent {
                    1int
                } else {
                    0int
                }),
            old(self).parent_of(child as int) is None ==> final(self).weak_of(parent as int)
                == old(self).weak_of(parent as int) + 1,
            final(self).resolve_spec(child as int) == Some(parent),
    {
        self.add_child(parent, child);
        let ghost mid = *self;
        self.set_parent(child, parent);
        proof {
            assert forall|k: int| old(self).valid(k) implies self.weak_of(k) + (if old(
                self,
            ).points_at(child as int, k) {
                1int
            } else {
                0int
            }) == old(self).weak_of(k) + (if k == parent {
                1int
            } else {
                0int
            }) by {
                assert(mid.valid(k));
                assert(mid.weak_of(k) == old(self).weak_of(k));
                assert(mid.points_at(child as int, k) == old(self).points_at(child as int, k));
                assert(self.weak_of(k) + (if mid.points_at(child as int, k) {
                    1int
                } else {
                    0int
                }) == mid.weak_of(k) + (if k == parent {
                    1int
                } else {
                    0int
                }));
            }
        }
    }

    /// The strong count of a node: outstanding external handles plus the
    /// owning slots that live nodes hold on it.  A destroyed node reports
    /// zero.  Without mutation in between, repeated calls return the same
    /// value, since the result is a function of the arena alone.
    pub fn strong_count(&self, id: usize) -> (n: usize)
        requires
            self.wf(),
            self.valid(id as int),
        ensures
            n == self.strong_of(id as int),
    {
        if !self.alive[id] {
            return 0;
        }
        proof {
            assert(self.node_inv(id as int));
        }
        let mut cnt = self.handles[id];
        let m = self.edges.len();
        let ghost el = self.edge_list();
        let ghost al = self.alive_map();
        for e in 0..m
            invariant
                self.wf(),
                id < self.node_count(),
                self.is_alive(id as int),
                m == el.len(),
                el == self.edge_list(),
                al == self.alive_map(),
                cnt == self.handles_of(id as int) + slots_upto(el, al, id as int, e as int),
        {
            proof {
                assert(self.node_inv(id as int));
                lemma_slots_mono(el, al, id as int, e + 1, m as int);
                assert(self.edge_list()[e as int] == el[e as int]);
            }
            let pair = self.edges[e];
            if self.alive[pair.0] && pair.1 == id {
                cnt = cnt + 1;
            }
            proof {
                assert(slots_upto(el, al, id as int, e + 1) == slots_upto(el, al, id as int, e as int)
                    + (if owner_edge(el, al, e as int, id as int) {
                    1nat
                } else {
                    0nat
                }));
            }
        }
        cnt
    }

    /// The weak count of a node: how many live nodes point their parent
    /// reference at it.  Without mutation in between, repeated calls
    /// return the same value, since the result is a function of the arena
    /// alone.
    pub fn weak_count(&self, id: usize) -> (n: usize)
        requires
            self.wf(),
            self.valid(id as int),
        ensures
            n == self.weak_of(id as int),
    {
        let mut cnt: usize = 0;
        let m = self.values.len();
        let ghost par = self.parent_map();
        let ghost al = self.alive_map();
        for i in 0..m
            invariant
                self.wf(),
                id < self.node_count(),
                m == self.node_count(),
                par == self.parent_map(),
                al == self.alive_map(),
                cnt == weak_upto(par, al, id as int, i as int),
                cnt <= i,
        {
            proof {
                lemma_weak_le_n(par, al, id as int, i + 1);
            }
            let mut hit = false;
            if self.alive[i] {
                match self.parents[i] {
                    Some(q) => {
                        if q == id {
                            hit = true;
                        }
                    },
                    None => {},
                }
            }
            if hit {
                cnt = cnt + 1;
            }
            proof {
                assert(hit == weak_edge(par, al, i as int, id as int));
                assert(weak_upto(par, al, id as int, i + 1) == weak_upto(par, al, id as int, i as int)
                    + (if weak_edge(par, al, i as int, id as int) {
                    1nat
                } else {
                    0nat
                }));
            }
        }
        cnt
    }

    /// Resolves the weak parent reference of a live node: yields the
    /// parent while the parent is alive, and absent once the parent has
    /// been destroyed or when no parent was ever set.  Never an error, and
    /// the arena is not changed.
    pub fn resolve_parent(&self, child: usize) -> (r: Option<usize>)
        requires
            self.wf(),
            self.is_alive(child as int),
        ensures
            r == self.resolve_spec(child as int),
    {
        proof {
            assert(self.node_inv(child as int));
        }
        match self.parents[child] {
            Some(p) => {
                if self.alive[p] {
                    Some(p)
                } else {
                    None
                }
            },
            None => None,
        }
    }

    /// The child list of `p`: the nodes it owns, in attachment order.
    pub fn children(&self, p: usize) -> (r: Vec<usize>)
        requires
            self.wf(),
            self.valid(p as int),
        ensures
            r@ == self.children_of(p as int),
    {
        let mut r: Vec<usize> = Vec::new();
        let m = self.edges.len();
        let ghost el = self.edge_list();
        for e in 0..m
            invariant
                self.frame_ok(),
                m == el.len(),
                el == self.edge_list(),
                r@ == children_upto(el, p as int, e as int),
        {
            proof {
                assert(self.edge_list()[e as int] == el[e as int]);
            }
            let pair = self.edges[e];
            if pair.0 == p {
                r.push(pair.1);
            }
            proof {
                assert(children_upto(el, p as int, e + 1) == children_upto(el, p as int, e as int)
                    + (if el[e as int].0 as int == p as int {
                    seq![el[e as int].1]
                } else {
                    Seq::<usize>::empty()
                }));
                if el[e as int].0 as int == p as int {
                    assert(r@ =~= children_upto(el, p as int, e + 1));
                } else {
                    assert(r@ =~= children_upto(el, p as int, e + 1));
                }
            }
        }
        r
    }

    /// Whether some live node currently holds an owning slot on `k`.
    fn has_owner(&self, k: usize) -> (r: bool)
        requires
            self.frame_ok(),
        ensures
            r == self.owned_by_live(k as int),
    {
        let m = self.edges.len();
        let ghost el = self.edge_list();
        let ghost al = self.alive_map();
        for e in 0..m
            invariant
                self.frame_ok(),
                m == el.len(),
                el == self.edge_list(),
                al == self.alive_map(),
                forall|e2: int| 0 <= e2 < e ==> !owner_edge(el, al, e2, k as int),
        {
            proof {
                assert(self.edge_list()[e as int] == el[e as int]);
            }
            let pair = self.edges[e];
            if self.alive[pair.0] && pair.1 == k {
                proof {
                    assert(owner_edge(el, al, e as int, k as int));
                }
                return true;
            }
        }
        false
    }

    /// Drops one external owning handle on `id`.  If that removes the last
    /// owning reference to a node, the node is destroyed, and destruction
    /// cascades through the owning slots it held.  Exactly the nodes kept
    /// by the remaining handles and slots of live nodes stay alive: the
    /// closure clause says every survivor is still owned or handled, and
    /// the clause over `sustained` sets says every family of nodes that
    /// keep one another alive does survive.  Weak back-references never
    /// keep a node alive.  Child lists, parent references, payloads and
    /// the handles of every other node are untouched.
    pub fn release(&mut self, id: usize)
        requires
            old(self).wf(),
            old(self).valid(id as int),
            old(self).handles_of(id as int) >= 1,
        ensures
            final(self).wf(),
            final(self).node_count() == old(self).node_count(),
            forall|k: int|
                old(self).valid(k) ==> final(self).value_of(k) == old(self).value_of(k),
            forall|k: int|
                old(self).valid(k) ==> final(self).parent_of(k) == old(self).parent_of(k),
            forall|q: int| final(self).children_of(q) == old(self).children_of(q),
            final(self).handles_of(id as int) == old(self).handles_of(id as int) - 1,
            forall|k: int|
                old(self).valid(k) && k != id ==> final(self).handles_of(k) == old(
                    self,
                ).handles_of(k),
            forall|k: int| final(self).is_alive(k) ==> old(self).is_alive(k),
            forall|k: int|
                final(self).is_alive(k) ==> final(self).handles_of(k) > 0
                    || final(self).owned_by_live(k),
            forall|s: Set<int>|
                #[trigger] final(self).sustained(s) && (forall|k: int|
                    s.contains(k) ==> old(self).is_alive(k)) ==> (forall|k: int|
                    s.contains(k) ==> final(self).is_alive(k)),
            (old(self).handles_of(id as int) == 1 && !old(self).owned_by_live(id as int))
                ==> !final(self).is_alive(id as int),
    {
        proof {
            assert(old(self).node_inv(id as int));
        }
        let h = self.handles[id];
        self.handles[id] = h - 1;
        let ghost base = *self;
        let n = self.values.len();
        proof {
            assert forall|k: int|
                0 <= k < n && !base.is_alive(k) implies base.handles_of(k) == 0
                && !base.owned_by_live(k) by {
                assert(old(self).node_inv(k));
                lemma_slots_zero_iff(
                    old(self).edge_list(),
                    old(self).alive_map(),
                    k,
                    old(self).edge_list().len() as int,
                );
                assert(!old(self).is_alive(id as int) ==> old(self).handles_of(id as int) == 0);
            }
        }
        loop
            invariant
                self.frame_ok(),
                self.node_count() == n,
                base.node_count() == n,
                base.frame_ok(),
                self.edge_list() == base.edge_list(),
                self.parent_map() == base.parent_map(),
                self.value_map() == base.value_map(),
                self.handle_map() == base.handle_map(),
                forall|k: int| self.is_alive(k) ==> base.is_alive(k),
                forall|k: int|
                    0 <= k < n && !self.is_alive(k) ==> self.handles_of(k) == 0 && !self.owned_by_live(
                        k,
                    ),
                forall|s: Set<int>|
                    #[trigger] base.sustained(s) && (forall|k: int|
                        s.contains(k) ==> base.is_alive(k)) ==> (forall|k: int|
                        s.contains(k) ==> self.is_alive(k)),
            ensures
                self.frame_ok(),
                self.node_count() == n,
                self.edge_list() == base.edge_list(),
                self.parent_map() == base.parent_map(),
                self.value_map() == base.value_map(),
                self.handle_map() == base.handle_map(),
                forall|k: int| self.is_alive(k) ==> base.is_alive(k),
                forall|k: int|
                    0 <= k < n && !self.is_alive(k) ==> self.handles_of(k) == 0 && !self.owned_by_live(
                        k,
                    ),
                forall|s: Set<int>|
                    #[trigger] base.sustained(s) && (forall|k: int|
                        s.contains(k) ==> base.is_alive(k)) ==> (forall|k: int|
                        s.contains(k) ==> self.is_alive(k)),
                forall|k: int|
                    self.is_alive(k) ==> self.handles_of(k) > 0 || self.owned_by_live(k),
            decreases live_upto(self.alive_map(), n as int),
        {
            let ghost pass0 = *self;
            let mut removed = false;
            for k in 0..n
                invariant
                    self.frame_ok(),
                    self.node_count() == n,
                    base.node_count() == n,
                    base.frame_ok(),
                    pass0.node_count() == n,
                    self.edge_list() == base.edge_list(),
                    self.parent_map() == base.parent_map(),
                    self.value_map() == base.value_map(),
                    self.handle_map() == base.handle_map(),
                    forall|k2: int| self.is_alive(k2) ==> base.is_alive(k2),
                    forall|k2: int|
                        0 <= k2 < n && !self.is_alive(k2) ==> self.handles_of(k2) == 0
                            && !self.owned_by_live(k2),
                    forall|s: Set<int>|
                        #[trigger] base.sustained(s) && (forall|k2: int|
                            s.contains(k2) ==> base.is_alive(k2)) ==> (forall|k2: int|
                            s.contains(k2) ==> self.is_alive(k2)),
                    !removed ==> *self == pass0,
                    !removed ==> (forall|j: int|
                        0 <= j < k ==> (self.is_alive(j) ==> self.handles_of(j) > 0
                            || self.owned_by_live(j))),
                    removed ==> live_upto(self.alive_map(), n as int) < live_upto(
                        pass0.alive_map(),
                        n as int,
                    ),
            {
                let a = self.alive[k];
                let mut removed_here = false;
                if a {
                    let hk = self.handles[k];
                    if hk == 0 {
                        let owned = self.has_owner(k);
                        if !owned {
                            let ghost cur = *self;
                            self.alive[k] = false;
                            removed_here = true;
                            proof {
                                lemma_live_update(cur.alive_map(), k as int, n as int);
                                if !removed {
                                    assert(live_upto(self.alive_map(), n as int) < live_upto(
                                        pass0.alive_map(),
                                        n as int,
                                    ));
                                }
                                assert forall|k2: int|
                                    0 <= k2 < n && !self.is_alive(k2) implies self.handles_of(k2)
                                    == 0 && !self.owned_by_live(k2) by {
                                    if k2 == k {
                                        assert forall|e: int|
                                            !owner_edge(
                                                self.edge_list(),
                                                self.alive_map(),
                                                e,
                                                k2,
                                            ) by {
                                            if owner_edge(self.edge_list(), self.alive_map(), e, k2) {
                                                assert(owner_edge(
                                                    cur.edge_list(),
                                                    cur.alive_map(),
                                                    e,
                                                    k2,
                                                ));
                                            }
                                        }
                                    } else {
                                        assert(!cur.is_alive(k2));
                                        assert(cur.handles_of(k2) == 0 && !cur.owned_by_live(k2));
                                        assert forall|e: int|
                                            !owner_edge(
                                                self.edge_list(),
                                                self.alive_map(),
                                                e,
                                                k2,
                                            ) by {
                                            if owner_edge(self.edge_list(), self.alive_map(), e, k2) {
                                                assert(owner_edge(
                                                    cur.edge_list(),
                                                    cur.alive_map(),
                                                    e,
                                                    k2,
                                                ));
                                            }
                                        }
                                    }
                                }
                                assert forall|s: Set<int>|
                                    #[trigger] base.sustained(s) && (forall|k2: int|
                                        s.contains(k2) ==> base.is_alive(k2)) implies (forall|
                                    k2: int,
                                |
                                    s.contains(k2) ==> self.is_alive(k2)) by {
                                    assert(forall|k2: int| s.contains(k2) ==> cur.is_alive(k2));
                                    if s.contains(k as int) {
                                        assert(base.valid(k as int) && (base.handles_of(k as int)
                                            > 0 || base.owned_within(s, k as int)));
                                        assert(base.handles_of(k as int) == cur.handles_of(
                                            k as int,
                                        ));
                                        if base.owned_within(s, k as int) {
                                            let e = choose|e: int|
                                                0 <= e < base.edge_list().len() && (
                                                #[trigger] base.edge_list()[e]).1 as int
                                                    == k as int && s.contains(
                                                    base.edge_list()[e].0 as int,
                                                );
                                            assert(cur.is_alive(base.edge_list()[e].0 as int));
                                            assert(owner_edge(
                                                cur.edge_list(),
                                                cur.alive_map(),
                                                e,
                                                k as int,
                                            ));
                                            assert(cur.owned_by_live(k as int));
                                        }
                                        assert(false);
                                    }
                                    assert forall|k2: int| s.contains(k2) implies self.is_alive(
                                        k2,
                                    ) by {
                                        assert(cur.is_alive(k2));
                                        assert(k2 != k);
                                    }
                                }
                            }
                        }
                    }
                }
                if removed_here {
                    removed = true;
                }
                proof {
                    if !removed {
                        assert(self.is_alive(k as int) ==> self.handles_of(k as int) > 0
                            || self.owned_by_live(k as int));
                    }
                }
            }
            if !removed {
                break;
            }
        }
        proof {
            let m = self.edge_list().len() as int;
            assert(base.alive_map() == old(self).alive_map());
            assert forall|k: int| base.is_alive(k) == old(self).is_alive(k) by {}
            assert forall|k: int| self.is_alive(k) implies old(self).is_alive(k) by {
                assert(base.is_alive(k));
                assert(base.is_alive(k) == old(self).is_alive(k));
            }
            assert forall|k: int|
                0 <= k < n implies #[trigger] self.slot_count(k) <= old(self).slot_count(k) by {
                assert forall|e: int|
                    0 <= e < m && owner_edge(self.edge_list(), self.alive_map(), e, k) implies owner_edge(
                    old(self).edge_list(),
                    old(self).alive_map(),
                    e,
                    k,
                ) by {
                    let o = self.edge_list()[e].0;
                    assert(self.is_alive(o as int) ==> base.is_alive(o as int));
                }
                lemma_slots_le(
                    old(self).edge_list(),
                    old(self).alive_map(),
                    self.edge_list(),
                    self.alive_map(),
                    k,
                    m,
                );
            }
            assert forall|k: int| self.valid(k) implies self.node_inv(k) by {
                assert(old(self).node_inv(k));
                if self.is_alive(k) {
                    if self.owned_by_live(k) {
                        lemma_slots_zero_iff(self.edge_list(), self.alive_map(), k, m);
                    }
                } else {
                    lemma_slots_zero_iff(self.edge_list(), self.alive_map(), k, m);
                }
            }
            assert forall|s: Set<int>|
                #[trigger] self.sustained(s) && (forall|k: int|
                    s.contains(k) ==> old(self).is_alive(k)) implies (forall|k: int|
                    s.contains(k) ==> self.is_alive(k)) by {
                assert forall|k: int| #[trigger] s.contains(k) implies base.valid(k) && (
                base.handles_of(k) > 0 || base.owned_within(s, k)) by {
                    assert(self.valid(k) && (self.handles_of(k) > 0 || self.owned_within(s, k)));
                    assert(self.handles_of(k) == base.handles_of(k));
                    if self.owned_within(s, k) {
                        let e = choose|e: int|
                            0 <= e < self.edge_list().len() && (
                            #[trigger] self.edge_list()[e]).1 as int == k && s.contains(
                                self.edge_list()[e].0 as int,
                            );
                        assert(base.owned_within(s, k));
                    }
                }
                assert(base.sustained(s));
                assert(forall|k: int| s.contains(k) ==> base.is_alive(k));
            }
            if old(self).handles_of(id as int) == 1 && !old(self).owned_by_live(id as int) {
                assert(self.handles_of(id as int) == 0);
                if self.owned_by_live(id as int) {
                    let e = choose|e: int|
                        owner_edge(self.edge_list(), self.alive_map(), e, id as int);
                    let o = self.edge_list()[e].0;
                    assert(self.is_alive(o as int));
                    assert(old(self).is_alive(o as int));
                    assert(old(self).edge_list() == self.edge_list());
                    assert(owner_edge(old(self).edge_list(), old(self).alive_map(), e, id as int));
                    assert(false);
                }
            }
        }
    }

    /// The payload of a live node.
    pub fn value(&self, k: usize) -> (v: i64)
        requires
            self.valid(k as int),
        ensures
            v == self.value_of(k as int),
    {
        self.values[k]
    }
}

proof fn lemma_children_contains(edges: Seq<(usize, usize)>, p: int, n: int, c: usize)
    ensures
        children_upto(edges, p, n).contains(c) <==> (exists|e: int|
            0 <= e < n && (#[trigger] edges[e]).0 as int == p && edges[e].1 == c),
    decreases n,
{
    if n > 0 {
        lemma_children_contains(edges, p, n - 1, c);
        let s = children_upto(edges, p, n - 1);
        let full = children_upto(edges, p, n);
        if edges[n - 1].0 as int == p {
            assert(full == s + seq![edges[n - 1].1]);
            if full.contains(c) {
                let i = choose|i: int| 0 <= i < full.len() && full[i] == c;
                if i < s.len() {
                    assert(s[i] == c);
                    assert(s.contains(c));
                } else {
                    assert(edges[n - 1].1 == c);
                }
            }
            if s.contains(c) {
                let i = choose|i: int| 0 <= i < s.len() && s[i] == c;
                assert(full[i] == c);
                assert(full.contains(c));
            }
            if edges[n - 1].1 == c {
                assert(full[s.len() as int] == c);
                assert(full.contains(c));
            }
        } else {
            assert(full =~= s);
        }
    }
}

impl Arena {
    /// Law: a node is owned by a live node exactly when it sits in the
    /// child list of some live node.
    pub proof fn lemma_owned_by_live_meaning(self, k: usize)
        requires
            self.wf(),
        ensures
            self.owned_by_live(k as int) <==> (exists|p: int|
                #[trigger] self.is_alive(p) && self.children_of(p).contains(k)),
    {
        let m = self.edge_list().len() as int;
        if self.owned_by_live(k as int) {
            let e = choose|e: int| owner_edge(self.edge_list(), self.alive_map(), e, k as int);
            let p = self.edge_list()[e].0 as int;
            lemma_children_contains(self.edge_list(), p, m, k);
            assert(self.is_alive(p) && self.children_of(p).contains(k));
        }
        if exists|p: int| #[trigger] self.is_alive(p) && self.children_of(p).contains(k) {
            let p = choose|p: int| #[trigger] self.is_alive(p) && self.children_of(p).contains(k);
            lemma_children_contains(self.edge_list(), p, m, k);
            let e = choose|e: int|
                0 <= e < m && (#[trigger] self.edge_list()[e]).0 as int == p
                    && self.edge_list()[e].1 == k;
            assert(owner_edge(self.edge_list(), self.alive_map(), e, k as int));
        }
    }
}

/// Law: a weak back-reference does not keep its target alive, and a
/// destroyed target resolves to absent.  If a live child still points its
/// parent reference at a node that has been destroyed, resolving the
/// child's parent yields absent, even though the destroyed node's weak
/// count is still positive.
pub proof fn lemma_weak_ref_does_not_block_destruction(a: Arena, child: int)
    requires
        a.wf(),
        a.is_alive(child),
        a.parent_of(child) is Some,
        !a.is_alive(a.parent_of(child)->0 as int),
    ensures
        a.resolve_spec(child) is None,
        a.weak_of(a.parent_of(child)->0 as int) >= 1,
{
    let p = a.parent_of(child)->0 as int;
    lemma_weak_zero_iff(a.parent_map(), a.alive_map(), p, a.node_count() as int);
    assert(weak_edge(a.parent_map(), a.alive_map(), child, p));
}

} // verus!
