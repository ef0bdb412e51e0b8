//! The node store: a tree of labelled nodes rooted at node 0.
use vstd::prelude::*;

verus! {

broadcast use vstd::seq_lib::group_seq_properties;

/// Identifier of the root node.
pub const ROOT_ID: u64 = 0;

/// A point on the canvas, in whole canvas units.
#[derive(Clone, Copy, Debug, PartialEq, Eq, Structural)]
pub struct Point {
    pub x: i16,
    pub y: i16,
}

impl Point {
    pub fn new(x: i16, y: i16) -> (r: Point)
        ensures
            r.x == x,
            r.y == y,
    {
        Point { x, y }
    }
}

/// A labelled node of the map.
#[derive(Debug)]
pub struct Node {
    pub id: u64,
    pub text: String,
    pub position: Point,
    pub parent_id: Option<u64>,
}

/// The node store. Nodes are kept in creation order.
#[derive(Debug)]
pub struct MindMap {
    pub nodes: Vec<Node>,
    pub next_id: u64,
}

/// Some node of `s` carries the id `id`.
pub open spec fn node_in(s: Seq<Node>, id: u64) -> bool {
    exists|j: int| 0 <= j < s.len() && (#[trigger] s[j]).id == id
}

/// Following parent links from id `c` reaches id `x` in at most `k` steps.
pub open spec fn reaches(s: Seq<Node>, c: u64, x: u64, k: nat) -> bool
    decreases k,
{
    c == x || (k > 0 && exists|i: int|
        0 <= i < s.len() && (#[trigger] s[i]).id == c && match s[i].parent_id {
            Some(p) => reaches(s, p, x, (k - 1) as nat),
            None => false,
        })
}

/// Id `c` is `x` itself or one of its transitive descendants.
pub open spec fn in_subtree(s: Seq<Node>, c: u64, x: u64) -> bool {
    exists|k: nat| reaches(s, c, x, k)
}

/// The nodes of `s` that lie outside the subtree of `x`.
pub open spec fn outside_subtree(s: Seq<Node>, x: u64) -> spec_fn(Node) -> bool {
    |n: Node| !in_subtree(s, n.id, x)
}

/// What is left of `s` after removing the subtree of `x`, in the same order.
pub open spec fn without_subtree(s: Seq<Node>, x: u64) -> Seq<Node> {
    s.filter(outside_subtree(s, x))
}

/// The node `n` with another label.
pub open spec fn with_text(n: Node, text: String) -> Node {
    Node { id: n.id, text: text, position: n.position, parent_id: n.parent_id }
}

/// The node `n` moved to `p`.
pub open spec fn with_position(n: Node, p: Point) -> Node {
    Node { id: n.id, text: n.text, position: p, parent_id: n.parent_id }
}

/// Ids strictly increase along `s`.
pub open spec fn ids_increasing(s: Seq<Node>) -> bool {
    forall|i: int, j: int| 0 <= i < j < s.len() ==> (#[trigger] s[i]).id < (#[trigger] s[j]).id
}

/// Every node but the first has a parent that is present in `s`.
pub open spec fn parents_present(s: Seq<Node>) -> bool {
    forall|i: int|
        0 < i < s.len() ==> match (#[trigger] s[i]).parent_id {
            Some(p) => node_in(s, p),
            None => false,
        }
}

/// With unique ids, marks that contain `x` and are closed under "child of a
/// marked node" cover the whole subtree of `x`.
proof fn lemma_marks_cover_subtree(s: Seq<Node>, x: u64, marked: Seq<bool>, start: int, c: u64, k: nat)
    requires
        ids_increasing(s),
        marked.len() == s.len(),
        0 <= start < s.len(),
        s[start].id == x,
        marked[start],
        forall|j: int, i: int|
            0 <= j < s.len() && 0 <= i < s.len() && #[trigger] marked[j]
                && (#[trigger] s[i]).parent_id == Some(s[j].id) ==> marked[i],
        reaches(s, c, x, k),
    ensures
        forall|i: int| 0 <= i < s.len() && (#[trigger] s[i]).id == c ==> marked[i],
    decreases k,
{
    if c == x {
        assert forall|i: int| 0 <= i < s.len() && (#[trigger] s[i]).id == c implies marked[i] by {
            if i < start {
                assert(s[i].id < s[start].id);
            } else if i > start {
                assert(s[start].id < s[i].id);
            }
        }
    } else {
        let i0 = choose|i: int|
            0 <= i < s.len() && (#[trigger] s[i]).id == c && match s[i].parent_id {
                Some(p) => reaches(s, p, x, (k - 1) as nat),
                None => false,
            };
        let p = s[i0].parent_id->Some_0;
        lemma_marks_cover_subtree(s, x, marked, start, p, (k - 1) as nat);
        let j = if p == x {
            start
        } else {
            choose|j: int|
                0 <= j < s.len() && (#[trigger] s[j]).id == p && match s[j].parent_id {
                    Some(q) => reaches(s, q, x, (k - 2) as nat),
                    None => false,
                }
        };
        assert(s[j].id == p);
        assert(marked[j]);
        assert(marked[i0]);
        assert forall|i: int| 0 <= i < s.len() && (#[trigger] s[i]).id == c implies marked[i] by {
            if i < i0 {
                assert(s[i].id < s[i0].id);
            } else if i > i0 {
                assert(s[i0].id < s[i].id);
            }
        }
    }
}

/// Two sequences with the same ids position by position hold the same ids.
pub proof fn lemma_node_in_same_ids(a: Seq<Node>, b: Seq<Node>, id: u64)
    requires
        a.len() == b.len(),
        forall|k: int| 0 <= k < a.len() ==> (#[trigger] a[k]).id == b[k].id,
        node_in(a, id),
    ensures
        node_in(b, id),
{
    let j = choose|j: int| 0 <= j < a.len() && (#[trigger] a[j]).id == id;
    assert(b[j].id == id);
}

/// A child of a node in the subtree of `x` is in that subtree too.
proof fn lemma_child_in_subtree(s: Seq<Node>, x: u64, i: int, p: u64)
    requires
        0 <= i < s.len(),
        s[i].parent_id == Some(p),
        in_subtree(s, p, x),
    ensures
        in_subtree(s, s[i].id, x),
{
    let k = choose|k: nat| reaches(s, p, x, k);
    assert(reaches(s, s[i].id, x, k + 1));
}

/// The root is never removed with the subtree of another node: it stays
/// first in what is left.
pub proof fn lemma_root_survives_delete(s: Seq<Node>, x: u64)
    requires
        s.len() >= 1,
        s[0].id == ROOT_ID,
        s[0].parent_id is None,
        ids_increasing(s),
        x != ROOT_ID,
    ensures
        without_subtree(s, x).len() >= 1,
        without_subtree(s, x)[0] == s[0],
{
    if in_subtree(s, ROOT_ID, x) {
        let k = choose|k: nat| reaches(s, ROOT_ID, x, k);
        let i = choose|i: int|
            0 <= i < s.len() && (#[trigger] s[i]).id == ROOT_ID && match s[i].parent_id {
                Some(p) => reaches(s, p, x, (k - 1) as nat),
                None => false,
            };
        if i > 0 {
            assert(s[0].id < s[i].id);
        }
    }
    let keep = outside_subtree(s, x);
    assert(s =~= seq![s[0]] + s.subrange(1, s.len() as int));
    s.subrange(1, s.len() as int).lemma_filter_prepend(s[0], keep);
}

/// The id that the next creation hands out is not in use, and every id in
/// use lies below it: ids are never reused.
pub proof fn lemma_next_id_fresh(m: MindMap)
    requires
        m.wf(),
    ensures
        !node_in(m.nodes@, m.next_id),
        forall|i: int| 0 <= i < m.nodes@.len() ==> (#[trigger] m.nodes@[i]).id < m.next_id,
{
}

/// A node is kept by a cascading delete of `x` exactly when it is not
/// reachable from `x` along parent links.
pub proof fn lemma_delete_keeps_exactly_outside(s: Seq<Node>, x: u64, i: int)
    requires
        0 <= i < s.len(),
    ensures
        without_subtree(s, x).contains(s[i]) <==> !in_subtree(s, s[i].id, x),
{
    let keep = outside_subtree(s, x);
    if keep(s[i]) {
        s.lemma_filter_contains(keep, i);
    }
    if without_subtree(s, x).contains(s[i]) {
        let k = choose|k: int| 0 <= k < s.filter(keep).len() && s.filter(keep)[k] == s[i];
        s.lemma_filter_pred(keep, k);
    }
}

/// Going from `a` to `b`, the id counter never falls, and every node of `b`
/// either carries an id that `a` already held or one that `a` had not yet
/// handed out.
pub open spec fn ids_evolve(a: MindMap, b: MindMap) -> bool {
    &&& a.next_id <= b.next_id
    &&& forall|i: int|
        0 <= i < b.nodes@.len() ==> node_in(a.nodes@, (#[trigger] b.nodes@[i]).id) || a.next_id <= b.nodes@[i].id
}

/// A store evolves into itself.
pub proof fn lemma_ids_evolve_refl(a: MindMap)
    ensures
        ids_evolve(a, a),
{
    assert forall|i: int| 0 <= i < a.nodes@.len() implies node_in(a.nodes@, (#[trigger] a.nodes@[i]).id) by {
        assert(a.nodes@[i].id == a.nodes@[i].id);
    }
}

/// Evolution of ids composes.
pub proof fn lemma_ids_evolve_trans(a: MindMap, b: MindMap, c: MindMap)
    requires
        ids_evolve(a, b),
        ids_evolve(b, c),
    ensures
        ids_evolve(a, c),
{
    assert forall|i: int| 0 <= i < c.nodes@.len() implies node_in(a.nodes@, (#[trigger] c.nodes@[i]).id)
        || a.next_id <= c.nodes@[i].id by {
        if node_in(b.nodes@, c.nodes@[i].id) {
            let j = choose|j: int| 0 <= j < b.nodes@.len() && (#[trigger] b.nodes@[j]).id == c.nodes@[i].id;
            assert(node_in(a.nodes@, b.nodes@[j].id) || a.next_id <= b.nodes@[j].id);
        }
    }
}

/// Ids are never reused: an id below the counter that is absent stays
/// absent, and every id that appears is one the counter handed out in
/// between.
pub proof fn lemma_ids_never_return(a: MindMap, b: MindMap, d: u64)
    requires
        ids_evolve(a, b),
        b.wf(),
    ensures
        d < a.next_id && !node_in(a.nodes@, d) ==> !node_in(b.nodes@, d),
        node_in(b.nodes@, d) && !node_in(a.nodes@, d) ==> a.next_id <= d < b.next_id,
{
    if node_in(b.nodes@, d) {
        let j = choose|j: int| 0 <= j < b.nodes@.len() && (#[trigger] b.nodes@[j]).id == d;
        assert(node_in(a.nodes@, b.nodes@[j].id) || a.next_id <= b.nodes@[j].id);
    }
}

impl MindMap {
    /// The store's invariant: the root comes first and has no parent, ids
    /// increase in storage order and lie below `next_id`, and every other
    /// node hangs below a node that is present.
    pub open spec fn wf(self) -> bool {
        let s = self.nodes@;
        &&& s.len() >= 1
        &&& s[0].id == ROOT_ID
        &&& s[0].parent_id is None
        &&& ids_increasing(s)
        &&& forall|i: int| 0 <= i < s.len() ==> (#[trigger] s[i]).id < self.next_id
        &&& parents_present(s)
    }

    /// A store holding only the root.
    pub fn new(root_text: String, root_position: Point) -> (r: MindMap)
        ensures
            r.wf(),
            r.next_id == 1,
            r.nodes@ == seq![Node { id: ROOT_ID, text: root_text, position: root_position, parent_id: None }],
    {
        let root = Node { id: ROOT_ID, text: root_text, position: root_position, parent_id: None };
        let mut nodes: Vec<Node> = Vec::new();
        nodes.push(root);
        let r = MindMap { nodes, next_id: 1 };
        assert(r.nodes@ =~= seq![Node { id: ROOT_ID, text: root_text, position: root_position, parent_id: None }]);
        r
    }

    /// Appends a child of `parent` under the next free id and returns that id.
    pub fn create_node(&mut self, parent: u64, text: String, position: Point) -> (id: u64)
        requires
            old(self).wf(),
            node_in(old(self).nodes@, parent),
            old(self).next_id < u64::MAX,
        ensures
            final(self).wf(),
            id == old(self).next_id,
            final(self).next_id == id + 1,
            ids_evolve(*old(self), *final(self)),
            final(self).nodes@ == old(self).nodes@.push(
                Node { id: id, text: text, position: position, parent_id: Some(parent) },
            ),
    {
        let id = self.next_id;
        let ghost s0 = self.nodes@;
        self.nodes.push(Node { id, text, position, parent_id: Some(parent) });
        self.next_id = id + 1;
        let ghost s = self.nodes@;
        assert forall|i: int| 0 <= i < s.len() implies node_in(s0, (#[trigger] s[i]).id) || id <= s[i].id by {
            if i < s0.len() {
                assert(s0[i] == s[i]);
            }
        }
        assert forall|i: int| 0 < i < s.len() implies match (#[trigger] s[i]).parent_id {
            Some(p) => node_in(s, p),
            None => false,
        } by {
            if i < s0.len() {
                let p = s0[i].parent_id->Some_0;
                let j = choose|j: int| 0 <= j < s0.len() && (#[trigger] s0[j]).id == p;
                assert(s[j] == s0[j]);
            } else {
                let j = choose|j: int| 0 <= j < s0.len() && (#[trigger] s0[j]).id == parent;
                assert(s[j] == s0[j]);
            }
        }
        id
    }

    /// Position in storage of the node with id `id`.
    pub fn find_index(&self, id: u64) -> (r: Option<usize>)
        requires
            self.wf(),
        ensures
            match r {
                Some(i) => i < self.nodes@.len() && self.nodes@[i as int].id == id,
                None => !node_in(self.nodes@, id),
            },
    {
        let mut i: usize = 0;
        while i < self.nodes.len()
            invariant
                i <= self.nodes@.len(),
                forall|j: int| 0 <= j < i ==> (#[trigger] self.nodes@[j]).id != id,
            decreases self.nodes@.len() - i,
        {
            if self.nodes[i].id == id {
                return Some(i);
            }
            i = i + 1;
        }
        None
    }

    /// The node with id `id`, if there is one.
    pub fn find(&self, id: u64) -> (r: Option<&Node>)
        requires
            self.wf(),
        ensures
            match r {
                Some(n) => n.id == id && self.nodes@.contains(*n),
                None => !node_in(self.nodes@, id),
            },
    {
        match self.find_index(id) {
            Some(i) => {
                Some(&self.nodes[i])
            },
            None => None,
        }
    }

    /// Relabels the node with id `id`; nothing happens if it is absent.
    pub fn update_text(&mut self, id: u64, text: String)
        requires
            old(self).wf(),
        ensures
            final(self).wf(),
            final(self).next_id == old(self).next_id,
            node_in(old(self).nodes@, id) ==> exists|i: int|
                0 <= i < old(self).nodes@.len() && old(self).nodes@[i].id == id
                    && final(self).nodes@ == old(self).nodes@.update(i, with_text(old(self).nodes@[i], text)),
            !node_in(old(self).nodes@, id) ==> final(self).nodes@ == old(self).nodes@,
            final(self).nodes@.len() == old(self).nodes@.len(),
            forall|k: int| 0 <= k < old(self).nodes@.len() ==> (#[trigger] final(self).nodes@[k]).id == old(self).nodes@[k].id,
            ids_evolve(*old(self), *final(self)),
    {
        match self.find_index(id) {
            Some(i) => {
                let ghost s0 = self.nodes@;
                let mut n = self.nodes.remove(i);
                n.text = text;
                self.nodes.insert(i, n);
                assert(self.nodes@ =~= s0.update(i as int, with_text(s0[i as int], text)));
                assert(forall|k: int| 0 <= k < s0.len() ==> #[trigger] self.nodes@[k].id == s0[k].id);
                assert forall|k: int| 0 < k < s0.len() implies match (#[trigger] self.nodes@[k]).parent_id {
                    Some(p) => node_in(self.nodes@, p),
                    None => false,
                } by {
                    assert(self.nodes@[k].parent_id == s0[k].parent_id);
                    let p = s0[k].parent_id->Some_0;
                    let j = choose|j: int| 0 <= j < s0.len() && (#[trigger] s0[j]).id == p;
                    assert(self.nodes@[j].id == p);
                }
            },
            None => {},
        }
        proof {
            let s = self.nodes@;
            assert forall|i: int| 0 <= i < s.len() implies node_in(old(self).nodes@, (#[trigger] s[i]).id) by {
                assert(old(self).nodes@[i].id == s[i].id);
            }
        }
    }

    /// Moves the node with id `id` to `position`; nothing happens if it is absent.
    pub fn update_position(&mut self, id: u64, position: Point)
        requires
            old(self).wf(),
        ensures
            final(self).wf(),
            final(self).next_id == old(self).next_id,
            node_in(old(self).nodes@, id) ==> exists|i: int|
                0 <= i < old(self).nodes@.len() && old(self).nodes@[i].id == id
                    && final(self).nodes@ == old(self).nodes@.update(i, with_position(old(self).nodes@[i], position)),
            !node_in(old(self).nodes@, id) ==> final(self).nodes@ == old(self).nodes@,
            final(self).nodes@.len() == old(self).nodes@.len(),
            forall|k: int| 0 <= k < old(self).nodes@.len() ==> (#[trigger] final(self).nodes@[k]).id == old(self).nodes@[k].id,
            ids_evolve(*old(self), *final(self)),
    {
        match self.find_index(id) {
            Some(i) => {
                let ghost s0 = self.nodes@;
                let mut n = self.nodes.remove(i);
                n.position = position;
                self.nodes.insert(i, n);
                assert(self.nodes@ =~= s0.update(i as int, with_position(s0[i as int], position)));
                assert(forall|k: int| 0 <= k < s0.len() ==> #[trigger] self.nodes@[k].id == s0[k].id);
                assert forall|k: int| 0 < k < s0.len() implies match (#[trigger] self.nodes@[k]).parent_id {
                    Some(p) => node_in(self.nodes@, p),
                    None => false,
                } by {
                    assert(self.nodes@[k].parent_id == s0[k].parent_id);
                    let p = s0[k].parent_id->Some_0;
                    let j = choose|j: int| 0 <= j < s0.len() && (#[trigger] s0[j]).id == p;
                    assert(self.nodes@[j].id == p);
                }
            },
            None => {},
        }
        proof {
            let s = self.nodes@;
            assert forall|i: int| 0 <= i < s.len() implies node_in(old(self).nodes@, (#[trigger] s[i]).id) by {
                assert(old(self).nodes@[i].id == s[i].id);
            }
        }
    }

    /// Marks, by storage position, the node `x` and every node reachable from
    /// it along child links, visiting the nodes breadth first. Each node
    /// enters the queue at most once, so the walk ends on any link structure.
    pub fn subtree_marks(&self, x: u64) -> (marked: Vec<bool>)
        requires
            self.wf(),
            node_in(self.nodes@, x),
        ensures
            marked@.len() == self.nodes@.len(),
            forall|i: int|
                0 <= i < self.nodes@.len() ==> marked@[i] == in_subtree(self.nodes@, (#[trigger] self.nodes@[i]).id, x),
    {
        let ghost s = self.nodes@;
        let n = self.nodes.len();
        let start = match self.find_index(x) {
            Some(j) => j,
            None => { return Vec::new(); },
        };
        let mut marked: Vec<bool> = Vec::new();
        let mut i: usize = 0;
        while i < n
            invariant
                i <= n,
                n == s.len(),
                marked@.len() == i,
                forall|k: int| 0 <= k < i ==> !(#[trigger] marked@[k]),
            decreases n - i,
        {
            marked.push(false);
            i = i + 1;
        }
        marked.set(start, true);
        let mut queue: Vec<usize> = Vec::new();
        queue.push(start);
        let ghost mut seen: Set<int> = set![start as int];
        assert(reaches(s, x, x, 0));
        assert(queue@[0] == start);
        let mut head: usize = 0;
        while head < queue.len()
            invariant
                self.wf(),
                s == self.nodes@,
                n == s.len(),
                marked@.len() == n,
                0 <= start < n,
                s[start as int].id == x,
                marked@[start as int],
                head <= queue@.len(),
                seen.finite(),
                seen.len() == queue@.len(),
                forall|k: int| #[trigger] seen.contains(k) <==> (0 <= k < n && marked@[k]),
                forall|q: int| 0 <= q < queue@.len() ==> (#[trigger] queue@[q]) < n && marked@[queue@[q] as int],
                forall|k: int| 0 <= k < n && #[trigger] marked@[k] ==> exists|q: int| 0 <= q < queue@.len() && queue@[q] == k,
                forall|k: int| 0 <= k < n && #[trigger] marked@[k] ==> in_subtree(s, s[k].id, x),
                forall|q: int, k: int|
                    0 <= q < head && 0 <= k < n && (#[trigger] s[k]).parent_id == Some(s[#[trigger] queue@[q] as int].id) ==> marked@[k],
            decreases 2 * n - queue@.len() - head,
        {
            let j = queue[head];
            let pid = self.nodes[j].id;
            let ghost q0 = queue@;
            let mut k: usize = 0;
            while k < n
                invariant
                    self.wf(),
                    s == self.nodes@,
                    n == s.len(),
                    marked@.len() == n,
                    0 <= start < n,
                    s[start as int].id == x,
                    marked@[start as int],
                    head < queue@.len(),
                    queue@.subrange(0, q0.len() as int) == q0,
                    q0.len() <= queue@.len(),
                    queue@[head as int] == j,
                    j < n,
                    pid == s[j as int].id,
                    k <= n,
                    seen.finite(),
                    seen.len() == queue@.len(),
                    forall|m: int| #[trigger] seen.contains(m) <==> (0 <= m < n && marked@[m]),
                    forall|q: int| 0 <= q < queue@.len() ==> (#[trigger] queue@[q]) < n && marked@[queue@[q] as int],
                    forall|m: int| 0 <= m < n && #[trigger] marked@[m] ==> exists|q: int| 0 <= q < queue@.len() && queue@[q] == m,
                    forall|m: int| 0 <= m < n && #[trigger] marked@[m] ==> in_subtree(s, s[m].id, x),
                    forall|q: int, m: int|
                        0 <= q < head && 0 <= m < n && (#[trigger] s[m]).parent_id == Some(s[#[trigger] queue@[q] as int].id) ==> marked@[m],
                    forall|m: int| 0 <= m < k && (#[trigger] s[m]).parent_id == Some(pid) ==> marked@[m],
                decreases n - k,
            {
                let is_child = match self.nodes[k].parent_id {
                    Some(p) => p == pid,
                    None => false,
                };
                if is_child && !marked[k] {
                    proof {
                        lemma_child_in_subtree(s, x, k as int, pid);
                        assert(!seen.contains(k as int));
                    }
                    let ghost before = queue@;
                    marked.set(k, true);
                    queue.push(k);
                    proof {
                        seen = seen.insert(k as int);
                        assert forall|m: int| 0 <= m < n && #[trigger] marked@[m] implies exists|q: int|
                            0 <= q < queue@.len() && queue@[q] == m by {
                            if m == k {
                                assert(queue@[before.len() as int] == m);
                            } else {
                                let q = choose|q: int| 0 <= q < before.len() && before[q] == m;
                                assert(queue@[q] == m);
                            }
                        }
                        assert forall|q: int, m: int|
                            0 <= q < head && 0 <= m < n && (#[trigger] s[m]).parent_id == Some(s[#[trigger] queue@[q] as int].id)
                            implies marked@[m] by {
                            assert(queue@[q] == before[q]);
                        }
                        assert(queue@.subrange(0, q0.len() as int) =~= q0) by {
                            assert(before.subrange(0, q0.len() as int) == q0);
                        }
                    }
                }
                k = k + 1;
            }
            proof {
                vstd::set_lib::lemma_int_range(0, n as int);
                assert(seen.subset_of(vstd::set_lib::set_int_range(0, n as int)));
                vstd::set_lib::lemma_len_subset(seen, vstd::set_lib::set_int_range(0, n as int));
            }
            head = head + 1;
        }
        proof {
            assert forall|jj: int, ii: int|
                0 <= jj < s.len() && 0 <= ii < s.len() && #[trigger] marked@[jj]
                    && (#[trigger] s[ii]).parent_id == Some(s[jj].id) implies marked@[ii] by {
                let q = choose|q: int| 0 <= q < queue@.len() && queue@[q] == jj;
                assert(s[queue@[q] as int] == s[jj]);
            }
            assert forall|i: int| 0 <= i < s.len() implies marked@[i] == in_subtree(s, (#[trigger] s[i]).id, x) by {
                if in_subtree(s, s[i].id, x) {
                    let kk = choose|kk: nat| reaches(s, s[i].id, x, kk);
                    lemma_marks_cover_subtree(s, x, marked@, start as int, s[i].id, kk);
                }
            }
        }
        marked
    }

    /// Removes the node `x` together with every node below it, keeping the
    /// order of the others. The root and absent ids are refused: the store
    /// is then left as it was.
    pub fn delete_subtree(&mut self, x: u64)
        requires
            old(self).wf(),
        ensures
            final(self).wf(),
            final(self).next_id == old(self).next_id,
            x == ROOT_ID || !node_in(old(self).nodes@, x) ==> final(self).nodes@ == old(self).nodes@,
            x != ROOT_ID && node_in(old(self).nodes@, x) ==> final(self).nodes@ == without_subtree(old(self).nodes@, x),
            ids_evolve(*old(self), *final(self)),
    {
        proof {
            lemma_ids_evolve_refl(*self);
        }
        if x == ROOT_ID {
            return;
        }
        if self.find_index(x).is_none() {
            return;
        }
        let ghost s = self.nodes@;
        let ghost keep = outside_subtree(s, x);
        let marked = self.subtree_marks(x);
        let n = self.nodes.len();
        proof {
            // the root is never below another node
            if in_subtree(s, ROOT_ID, x) {
                let k = choose|k: nat| reaches(s, ROOT_ID, x, k);
                let i = choose|i: int|
                    0 <= i < s.len() && (#[trigger] s[i]).id == ROOT_ID && match s[i].parent_id {
                        Some(p) => reaches(s, p, x, (k - 1) as nat),
                        None => false,
                    };
                if i > 0 {
                    assert(s[0].id < s[i].id);
                }
            }
            assert(!marked@[0]);
        }
        let mut rest: Vec<Node> = Vec::new();
        std::mem::swap(&mut self.nodes, &mut rest);
        let mut kept: Vec<Node> = Vec::new();
        let ghost mut src: Seq<int> = Seq::empty();
        let mut i: usize = 0;
        while i < n
            invariant
                n == s.len(),
                marked@.len() == n,
                forall|m: int| 0 <= m < n ==> marked@[m] == in_subtree(s, (#[trigger] s[m]).id, x),
                !marked@[0],
                i <= n,
                rest@ == s.subrange(i as int, n as int),
                kept@ == s.subrange(0, i as int).filter(keep),
                keep == outside_subtree(s, x),
                src.len() == kept@.len(),
                forall|q: int| 0 <= q < src.len() ==> 0 <= #[trigger] src[q] < i && kept@[q] == s[src[q]],
                forall|q1: int, q2: int| 0 <= q1 < q2 < src.len() ==> #[trigger] src[q1] < #[trigger] src[q2],
                i > 0 ==> src.len() > 0 && src[0] == 0,
            decreases n - i,
        {
            let node = rest.remove(0);
            proof {
                assert(s.subrange(0, i as int + 1) =~= s.subrange(0, i as int).push(s[i as int]));
                s.subrange(0, i as int).lemma_filter_push(s[i as int], keep);
                assert(s.subrange(i as int + 1, n as int) =~= rest@);
            }
            if !marked[i] {
                proof {
                    src = src.push(i as int);
                }
                kept.push(node);
            }
            i = i + 1;
        }
        assert(s.subrange(0, n as int) =~= s);
        self.nodes = kept;
        proof {
            let r = self.nodes@;
            assert(r.len() >= 1);
            assert(r[0] == s[0]);
            assert forall|q: int| 0 <= q < r.len() implies (#[trigger] r[q]).id < self.next_id by {
                assert(r[q] == s[src[q]]);
            }
            assert forall|a: int, b: int| 0 <= a < b < r.len() implies (#[trigger] r[a]).id < (#[trigger] r[b]).id by {
                assert(src[a] < src[b]);
                assert(r[a] == s[src[a]]);
                assert(r[b] == s[src[b]]);
            }
            assert(ids_increasing(r));
            assert forall|q: int| 0 < q < r.len() implies match (#[trigger] r[q]).parent_id {
                Some(p) => node_in(r, p),
                None => false,
            } by {
                let j = src[q];
                assert(src[0] < src[q]);
                assert(r[q] == s[j]);
                let p = s[j].parent_id->Some_0;
                let jj = choose|jj: int| 0 <= jj < s.len() && (#[trigger] s[jj]).id == p;
                if in_subtree(s, p, x) {
                    lemma_child_in_subtree(s, x, j, p);
                    assert(marked@[j]);
                }
                assert(keep(s[jj]));
                s.lemma_filter_contains(keep, jj);
                let qq = choose|qq: int| 0 <= qq < r.len() && r[qq] == s[jj];
                assert(r[qq].id == p);
            }
            assert(parents_present(r));
            assert forall|q: int| 0 <= q < r.len() implies node_in(s, (#[trigger] r[q]).id) by {
                assert(r[q] == s[src[q]]);
            }
        }
    }
}

} // verus!
