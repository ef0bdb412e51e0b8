//! The interaction controller: selection, click timing, dragging, in-place
//! editing and keyboard shortcuts over a [`MindMap`].
use vstd::prelude::*;
use crate::graph::{
    MindMap, Node, Point, ROOT_ID, ids_evolve, lemma_ids_evolve_refl, lemma_ids_evolve_trans, node_in,
    with_position, with_text, without_subtree,
};
use crate::navigate::{Direction, nearest_index, nearest_in_direction};

verus! {

/// Two clicks on one node closer together than this (in milliseconds) make a double click.
pub const DOUBLE_CLICK_MS: u64 = 500;

/// Half the width of the box that a node occupies around its position.
pub const HALF_WIDTH: i32 = 50;

/// Half the height of the box that a node occupies around its position.
pub const HALF_HEIGHT: i32 = 20;

/// Horizontal distance from a node to a child added by shortcut.
pub const CHILD_DX: i32 = 150;

/// Vertical distance from a node to a child added by shortcut.
pub const CHILD_DY: i32 = 80;

/// Pointer position minus node position, captured when a drag starts.
#[derive(Clone, Copy, Debug, PartialEq, Eq, Structural)]
pub struct Offset {
    pub dx: i32,
    pub dy: i32,
}

/// The last single click: on which node, and when (in milliseconds).
#[derive(Clone, Copy, Debug, PartialEq, Eq, Structural)]
pub struct Click {
    pub node: u64,
    pub at_ms: u64,
}

/// The pointer signals of one frame.
#[derive(Clone, Copy, Debug)]
pub struct PointerInput {
    pub pos: Option<Point>,
    pub clicked: bool,
    pub dragged: bool,
    pub drag_started: bool,
    pub drag_released: bool,
    pub now_ms: u64,
}

/// The shortcut keys pressed in one frame.
#[derive(Clone, Copy, Debug)]
pub struct Keys {
    pub add_child: bool,
    pub delete: bool,
    pub edit: bool,
    pub up: bool,
    pub down: bool,
    pub left: bool,
    pub right: bool,
}

/// The store together with the transient state of one editing session.
#[derive(Debug)]
pub struct Editor {
    pub map: MindMap,
    pub selected: Option<u64>,
    pub editing: Option<u64>,
    pub edit_buffer: String,
    pub last_click: Option<Click>,
    pub dragging: Option<u64>,
    pub drag_offset: Offset,
}

/// The point `p` lies in the box of a node at `c` (edges included).
pub open spec fn hits(c: Point, p: Point) -> bool {
    c.x - HALF_WIDTH <= p.x <= c.x + HALF_WIDTH && c.y - HALF_HEIGHT <= p.y <= c.y + HALF_HEIGHT
}

/// Index of the last node among the first `n` whose box holds `p`.
pub open spec fn last_hit(s: Seq<Node>, p: Point, n: int) -> Option<int>
    decreases n,
{
    if n <= 0 {
        None
    } else if hits(s[n - 1].position, p) {
        Some(n - 1)
    } else {
        last_hit(s, p, n - 1)
    }
}

/// Id of the node that a pointer at `p` lands on: the last one drawn.
pub open spec fn node_at(s: Seq<Node>, p: Point) -> Option<u64> {
    match last_hit(s, p, s.len() as int) {
        Some(i) => Some(s[i].id),
        None => None,
    }
}

/// `v` brought into the range of `i16`.
pub open spec fn clamp16(v: int) -> int {
    if v < i16::MIN {
        i16::MIN as int
    } else if v > i16::MAX {
        i16::MAX as int
    } else {
        v
    }
}

/// Milliseconds from `from` to `to`, zero if `to` is earlier.
pub open spec fn elapsed_ms(from: u64, to: u64) -> int {
    if to >= from {
        to - from
    } else {
        0
    }
}

/// A click on `id` at `now` completes a double click after `last`.
pub open spec fn is_double_click(last: Option<Click>, id: u64, now: u64) -> bool {
    match last {
        Some(c) => c.node == id && elapsed_ms(c.at_ms, now) < DOUBLE_CLICK_MS,
        None => false,
    }
}

/// The decimal digit `d`.
pub open spec fn digit_char(d: nat) -> char {
    seq!['0', '1', '2', '3', '4', '5', '6', '7', '8', '9'][d as int]
}

/// The decimal form of `n`, without sign or leading zeros.
pub open spec fn decimal(n: nat) -> Seq<char>
    decreases n,
{
    if n < 10 {
        seq![digit_char(n)]
    } else {
        decimal(n / 10).push(digit_char(n % 10))
    }
}

/// The label that a new node with id `id` receives.
pub open spec fn default_label(id: u64) -> Seq<char> {
    seq!['N', 'o', 'd', 'e', ' '] + decimal(id as nat)
}

/// Relies on std's `format!` with `Display` for `u64`: the prefix followed
/// by the number in decimal.
#[verifier::external_body]
fn labelled(prefix: &str, n: u64) -> (r: String)
    ensures
        r@ == prefix@ + decimal(n as nat),
{
    format!("{}{}", prefix, n)
}

/// The text of the node with id `id` equals `t`.
pub open spec fn text_is(s: Seq<Node>, id: u64, t: Seq<char>) -> bool {
    exists|i: int| 0 <= i < s.len() && (#[trigger] s[i]).id == id && s[i].text@ == t
}

/// Two clicks on one node make a double click exactly when the second comes
/// less than the window after the first; clicks on two different nodes never do.
pub proof fn lemma_double_click_window(a: u64, b: u64, t1: u64, t2: u64)
    requires
        t1 <= t2,
    ensures
        is_double_click(Some(Click { node: a, at_ms: t1 }), a, t2) <==> t2 - t1 < DOUBLE_CLICK_MS,
        a != b ==> !is_double_click(Some(Click { node: a, at_ms: t1 }), b, t2),
        !is_double_click(None, a, t2),
{
}

/// Storage index of the last node whose box holds `p`.
pub fn hit_index(nodes: &Vec<Node>, p: Point) -> (r: Option<usize>)
    ensures
        match r {
            Some(i) => last_hit(nodes@, p, nodes@.len() as int) == Some(i as int),
            None => last_hit(nodes@, p, nodes@.len() as int) is None,
        },
        r matches Some(i) ==> i < nodes@.len(),
{
    let mut i: usize = nodes.len();
    while i > 0
        invariant
            i <= nodes@.len(),
            last_hit(nodes@, p, nodes@.len() as int) == last_hit(nodes@, p, i as int),
        decreases i,
    {
        let c = nodes[i - 1].position;
        let px = p.x as i32;
        let py = p.y as i32;
        let cx = c.x as i32;
        let cy = c.y as i32;
        if cx - HALF_WIDTH <= px && px <= cx + HALF_WIDTH && cy - HALF_HEIGHT <= py && py <= cy + HALF_HEIGHT {
            return Some(i - 1);
        }
        i = i - 1;
    }
    None
}

fn clamp_to_i16(v: i64) -> (r: i16)
    ensures
        r == clamp16(v as int),
{
    if v < i16::MIN as i64 {
        i16::MIN
    } else if v > i16::MAX as i64 {
        i16::MAX
    } else {
        v as i16
    }
}

/// The number of shortcut keys pressed in `k`.
pub open spec fn key_count(k: Keys) -> int {
    (if k.add_child { 1int } else { 0int }) + (if k.delete { 1int } else { 0int }) + (if k.edit { 1int } else { 0int })
        + (if k.up { 1int } else { 0int }) + (if k.down { 1int } else { 0int }) + (if k.left { 1int } else { 0int })
        + (if k.right { 1int } else { 0int })
}

/// `e1` is `e0` after adding a child to the selected node.
pub open spec fn added_child(e0: Editor, e1: Editor) -> bool {
    &&& e1.editing == e0.editing
    &&& e1.edit_buffer == e0.edit_buffer
    &&& e1.last_click == e0.last_click
    &&& e1.dragging == e0.dragging
    &&& e1.drag_offset == e0.drag_offset
    &&& if e0.selected is Some && e0.map.next_id < u64::MAX {
        let p = e0.selected->Some_0;
        let s = e0.map.nodes@;
        let id = e0.map.next_id;
        let n = e1.map.nodes@.last();
        &&& e1.selected == Some(id)
        &&& e1.map.next_id == id + 1
        &&& e1.map.nodes@.len() == s.len() + 1
        &&& e1.map.nodes@.drop_last() == s
        &&& n.id == id
        &&& n.text@ == default_label(id)
        &&& n.parent_id == Some(p)
        &&& exists|i: int|
            0 <= i < s.len() && (#[trigger] s[i]).id == p
                && n.position.x == clamp16(s[i].position.x + CHILD_DX)
                && n.position.y == clamp16(s[i].position.y + CHILD_DY)
    } else {
        e1.map == e0.map && e1.selected == e0.selected
    }
}

/// `e1` is `e0` after deleting the selected node with its subtree.
pub open spec fn deleted_selected(e0: Editor, e1: Editor) -> bool {
    &&& e1.map.next_id == e0.map.next_id
    &&& e1.editing == match e0.editing {
        Some(e) => if node_in(e1.map.nodes@, e) {
            Some(e)
        } else {
            None
        },
        None => None,
    }
    &&& e1.edit_buffer == e0.edit_buffer
    &&& match e0.selected {
        Some(id) => if id != ROOT_ID {
            &&& e1.map.nodes@ == without_subtree(e0.map.nodes@, id)
            &&& e1.selected is None
        } else {
            e1.map == e0.map && e1.selected == e0.selected
        },
        None => e1.map == e0.map && e1.selected is None,
    }
    &&& match e1.dragging {
        Some(d) => node_in(e1.map.nodes@, d) && e1.dragging == e0.dragging,
        None => true,
    }
    &&& match e1.last_click {
        Some(c) => node_in(e1.map.nodes@, c.node) && e1.last_click == e0.last_click,
        None => true,
    }
}

/// `e1` is `e0` after entering edit mode on the selected node.
pub open spec fn edited_selected(e0: Editor, e1: Editor) -> bool {
    &&& e1.map == e0.map
    &&& e1.selected == e0.selected
    &&& e1.last_click == e0.last_click
    &&& e1.dragging == e0.dragging
    &&& e1.drag_offset == e0.drag_offset
    &&& match e0.selected {
        Some(id) => e1.editing == Some(id) && text_is(e0.map.nodes@, id, e1.edit_buffer@),
        None => e1.editing == e0.editing && e1.edit_buffer == e0.edit_buffer,
    }
}

/// `e1` is `e0` after moving the selection in direction `d`.
pub open spec fn moved_selection(e0: Editor, e1: Editor, d: Direction) -> bool {
    &&& e1.map == e0.map
    &&& e1.editing == e0.editing
    &&& e1.edit_buffer == e0.edit_buffer
    &&& e1.last_click == e0.last_click
    &&& e1.dragging == e0.dragging
    &&& e1.drag_offset == e0.drag_offset
    &&& ({
        let s = e0.map.nodes@;
        match e0.selected {
            Some(id) => exists|c: int|
                0 <= c < s.len() && (#[trigger] s[c]).id == id && match nearest_in_direction(s, s[c], d) {
                    Some(j) => e1.selected == Some(s[j].id),
                    None => e1.selected == e0.selected,
                },
            None => e1.selected == Some(ROOT_ID),
        }
    })
}

impl Editor {
    /// The session invariant: the store is well formed, and the selected
    /// and the edited node, if any, are present.
    pub open spec fn wf(self) -> bool {
        &&& self.map.wf()
        &&& match self.selected {
            Some(id) => node_in(self.map.nodes@, id),
            None => true,
        }
        &&& match self.editing {
            Some(id) => node_in(self.map.nodes@, id),
            None => true,
        }
    }

    /// In every session state the root is present, first, and without parent.
    pub proof fn lemma_root_present(self)
        requires
            self.wf(),
        ensures
            node_in(self.map.nodes@, ROOT_ID),
            self.map.nodes@[0].id == ROOT_ID,
            self.map.nodes@[0].parent_id is None,
    {
        assert(self.map.nodes@[0].id == ROOT_ID);
    }

    /// A fresh session: the root labelled "Root Node" at (400, 300), nothing
    /// selected, edited or dragged.
    pub fn new() -> (r: Editor)
        ensures
            r.wf(),
            r.map.nodes@.len() == 1,
            r.map.nodes@[0].id == ROOT_ID,
            r.map.nodes@[0].text@ == "Root Node"@,
            r.map.nodes@[0].position == (Point { x: 400, y: 300 }),
            r.map.nodes@[0].parent_id is None,
            r.map.next_id == 1,
            r.selected is None,
            r.editing is None,
            r.edit_buffer@.len() == 0,
            r.last_click is None,
            r.dragging is None,
            r.drag_offset == (Offset { dx: 0, dy: 0 }),
    {
        let map = MindMap::new("Root Node".to_owned(), Point::new(400, 300));
        Editor {
            map,
            selected: None,
            editing: None,
            edit_buffer: String::new(),
            last_click: None,
            dragging: None,
            drag_offset: Offset { dx: 0, dy: 0 },
        }
    }

    /// Id of the node under `p`: the last one in storage order whose box holds it.
    pub fn hit_test(&self, p: Point) -> (r: Option<u64>)
        requires
            self.wf(),
        ensures
            r == node_at(self.map.nodes@, p),
            r matches Some(id) ==> node_in(self.map.nodes@, id),
    {
        match hit_index(&self.map.nodes, p) {
            Some(i) => Some(self.map.nodes[i].id),
            None => None,
        }
    }

    /// Resolves a plain click on the node `target`, or on empty canvas when
    /// `target` is `None`, made at `now_ms`.
    pub fn resolve_click(&mut self, target: Option<u64>, now_ms: u64)
        requires
            old(self).wf(),
            target matches Some(id) ==> node_in(old(self).map.nodes@, id),
        ensures
            final(self).wf(),
            final(self).map == old(self).map,
            final(self).dragging == old(self).dragging,
            final(self).drag_offset == old(self).drag_offset,
            match target {
                Some(id) => if is_double_click(old(self).last_click, id, now_ms) {
                    &&& final(self).editing == Some(id)
                    &&& text_is(old(self).map.nodes@, id, final(self).edit_buffer@)
                    &&& final(self).selected == old(self).selected
                    &&& final(self).last_click is None
                } else {
                    &&& final(self).selected == Some(id)
                    &&& final(self).last_click == Some(Click { node: id, at_ms: now_ms })
                    &&& final(self).editing == old(self).editing
                    &&& final(self).edit_buffer == old(self).edit_buffer
                },
                None => {
                    &&& final(self).selected is None
                    &&& final(self).last_click is None
                    &&& final(self).editing == old(self).editing
                    &&& final(self).edit_buffer == old(self).edit_buffer
                },
            },
    {
        match target {
            Some(id) => {
                let double = match self.last_click {
                    Some(c) => {
                        let elapsed: u64 = if now_ms >= c.at_ms {
                            now_ms - c.at_ms
                        } else {
                            0
                        };
                        c.node == id && elapsed < DOUBLE_CLICK_MS
                    },
                    None => false,
                };
                if double {
                    self.start_edit(id);
                    self.last_click = None;
                } else {
                    self.selected = Some(id);
                    self.last_click = Some(Click { node: id, at_ms: now_ms });
                }
            },
            None => {
                self.selected = None;
                self.last_click = None;
            },
        }
    }

    /// Enters edit mode on the node `id`, with its text in the edit buffer.
    fn start_edit(&mut self, id: u64)
        requires
            old(self).wf(),
            node_in(old(self).map.nodes@, id),
        ensures
            final(self).wf(),
            final(self).map == old(self).map,
            final(self).editing == Some(id),
            text_is(old(self).map.nodes@, id, final(self).edit_buffer@),
            final(self).selected == old(self).selected,
            final(self).last_click == old(self).last_click,
            final(self).dragging == old(self).dragging,
            final(self).drag_offset == old(self).drag_offset,
    {
        match self.map.find_index(id) {
            Some(i) => {
                self.edit_buffer = self.map.nodes[i].text.clone();
                self.editing = Some(id);
            },
            None => {},
        }
    }

    /// Starts dragging the selected node if the pointer at `pos` is on it
    /// and no node is being edited.
    pub fn begin_drag(&mut self, pos: Point)
        requires
            old(self).wf(),
        ensures
            final(self).wf(),
            final(self).map == old(self).map,
            final(self).selected == old(self).selected,
            final(self).editing == old(self).editing,
            final(self).edit_buffer == old(self).edit_buffer,
            final(self).last_click == old(self).last_click,
            ({
                let s = old(self).map.nodes@;
                match old(self).selected {
                    Some(id) => if old(self).editing is None && exists|i: int|
                        0 <= i < s.len() && (#[trigger] s[i]).id == id && hits(s[i].position, pos) {
                        &&& final(self).dragging == Some(id)
                        &&& exists|i: int| 0 <= i < s.len() && (#[trigger] s[i]).id == id
                            && final(self).drag_offset.dx == pos.x - s[i].position.x
                            && final(self).drag_offset.dy == pos.y - s[i].position.y
                    } else {
                        &&& final(self).dragging == old(self).dragging
                        &&& final(self).drag_offset == old(self).drag_offset
                    },
                    None => {
                        &&& final(self).dragging == old(self).dragging
                        &&& final(self).drag_offset == old(self).drag_offset
                    },
                }
            }),
    {
        if self.editing.is_some() {
            return;
        }
        match self.selected {
            Some(id) => match self.map.find_index(id) {
                Some(i) => {
                    let c = self.map.nodes[i].position;
                    let dx: i32 = (pos.x as i32) - (c.x as i32);
                    let dy: i32 = (pos.y as i32) - (c.y as i32);
                    if -HALF_WIDTH <= dx && dx <= HALF_WIDTH && -HALF_HEIGHT <= dy && dy <= HALF_HEIGHT {
                        self.dragging = Some(id);
                        self.drag_offset = Offset { dx, dy };
                    } else {
                        proof {
                            let s = self.map.nodes@;
                            assert forall|j: int| 0 <= j < s.len() && (#[trigger] s[j]).id == id implies !hits(s[j].position, pos) by {
                                if j < i {
                                    assert(s[j].id < s[i as int].id);
                                } else if j > i {
                                    assert(s[i as int].id < s[j].id);
                                }
                            }
                        }
                    }
                },
                None => {},
            },
            None => {},
        }
    }

    /// Moves the node being dragged so that it keeps its offset to the
    /// pointer at `pos`, each coordinate held within `i16`.
    pub fn drag_to(&mut self, pos: Point)
        requires
            old(self).wf(),
        ensures
            final(self).wf(),
            final(self).map.next_id == old(self).map.next_id,
            final(self).selected == old(self).selected,
            final(self).editing == old(self).editing,
            final(self).edit_buffer == old(self).edit_buffer,
            final(self).last_click == old(self).last_click,
            final(self).dragging == old(self).dragging,
            final(self).drag_offset == old(self).drag_offset,
            ({
                let s = old(self).map.nodes@;
                let target = Point {
                    x: clamp16(pos.x - old(self).drag_offset.dx) as i16,
                    y: clamp16(pos.y - old(self).drag_offset.dy) as i16,
                };
                match old(self).dragging {
                    Some(id) => if node_in(s, id) {
                        exists|i: int|
                            0 <= i < s.len() && (#[trigger] s[i]).id == id
                                && final(self).map.nodes@ == s.update(i, with_position(s[i], target))
                    } else {
                        final(self).map.nodes@ == s
                    },
                    None => final(self).map.nodes@ == s,
                }
            }),
    {
        match self.dragging {
            Some(id) => {
                let x = clamp_to_i16((pos.x as i64) - (self.drag_offset.dx as i64));
                let y = clamp_to_i16((pos.y as i64) - (self.drag_offset.dy as i64));
                let ghost s0 = self.map.nodes@;
                self.map.update_position(id, Point::new(x, y));
                proof {
                    if let Some(sid) = self.selected {
                        crate::graph::lemma_node_in_same_ids(s0, self.map.nodes@, sid);
                    }
                    if let Some(eid) = self.editing {
                        crate::graph::lemma_node_in_same_ids(s0, self.map.nodes@, eid);
                    }
                }
            },
            None => {},
        }
    }

    /// Ends any drag.
    pub fn end_drag(&mut self)
        requires
            old(self).wf(),
        ensures
            final(self).wf(),
            final(self).map == old(self).map,
            final(self).selected == old(self).selected,
            final(self).editing == old(self).editing,
            final(self).edit_buffer == old(self).edit_buffer,
            final(self).last_click == old(self).last_click,
            final(self).dragging is None,
            final(self).drag_offset == (Offset { dx: 0, dy: 0 }),
    {
        self.dragging = None;
        self.drag_offset = Offset { dx: 0, dy: 0 };
    }
    /// Replaces the text being edited (what the edit field holds now).
    pub fn set_edit_buffer(&mut self, text: String)
        requires
            old(self).wf(),
        ensures
            final(self).wf(),
            final(self).edit_buffer == text,
            final(self).map == old(self).map,
            final(self).selected == old(self).selected,
            final(self).editing == old(self).editing,
            final(self).last_click == old(self).last_click,
            final(self).dragging == old(self).dragging,
            final(self).drag_offset == old(self).drag_offset,
    {
        self.edit_buffer = text;
    }

    /// Writes the edit buffer into the edited node and leaves edit mode;
    /// nothing happens outside edit mode.
    pub fn commit_edit(&mut self)
        requires
            old(self).wf(),
        ensures
            final(self).wf(),
            final(self).map.next_id == old(self).map.next_id,
            final(self).selected == old(self).selected,
            final(self).last_click == old(self).last_click,
            final(self).dragging == old(self).dragging,
            final(self).drag_offset == old(self).drag_offset,
            final(self).editing is None,
            match old(self).editing {
                Some(id) => {
                    &&& final(self).edit_buffer@.len() == 0
                    &&& exists|i: int|
                        0 <= i < old(self).map.nodes@.len() && (#[trigger] old(self).map.nodes@[i]).id == id
                            && final(self).map.nodes@ == old(self).map.nodes@.update(
                            i,
                            with_text(old(self).map.nodes@[i], old(self).edit_buffer),
                        )
                },
                None => final(self).map == old(self).map && final(self).edit_buffer == old(self).edit_buffer,
            },
    {
        match self.editing {
            Some(id) => {
                let mut text = String::new();
                std::mem::swap(&mut text, &mut self.edit_buffer);
                let ghost s0 = self.map.nodes@;
                self.map.update_text(id, text);
                self.editing = None;
                proof {
                    if let Some(sid) = self.selected {
                        crate::graph::lemma_node_in_same_ids(s0, self.map.nodes@, sid);
                    }
                }
            },
            None => {},
        }
    }

    /// Leaves edit mode, discarding the edit buffer; the node keeps its text.
    pub fn cancel_edit(&mut self)
        requires
            old(self).wf(),
        ensures
            final(self).wf(),
            final(self).map == old(self).map,
            final(self).selected == old(self).selected,
            final(self).last_click == old(self).last_click,
            final(self).dragging == old(self).dragging,
            final(self).drag_offset == old(self).drag_offset,
            final(self).editing is None,
            final(self).edit_buffer@.len() == 0,
    {
        self.editing = None;
        self.edit_buffer = String::new();
    }

    /// One frame of the edit field: Enter pressed as the field lost focus
    /// commits, Escape cancels. Outside edit mode nothing happens.
    pub fn edit_frame(&mut self, lost_focus: bool, enter: bool, escape: bool)
        requires
            old(self).wf(),
        ensures
            final(self).wf(),
            final(self).map.next_id == old(self).map.next_id,
            final(self).selected == old(self).selected,
            final(self).last_click == old(self).last_click,
            final(self).dragging == old(self).dragging,
            final(self).drag_offset == old(self).drag_offset,
            match old(self).editing {
                Some(id) => if lost_focus && enter {
                    &&& final(self).editing is None
                    &&& final(self).edit_buffer@.len() == 0
                    &&& exists|i: int|
                        0 <= i < old(self).map.nodes@.len() && (#[trigger] old(self).map.nodes@[i]).id == id
                            && final(self).map.nodes@ == old(self).map.nodes@.update(
                            i,
                            with_text(old(self).map.nodes@[i], old(self).edit_buffer),
                        )
                } else if escape {
                    &&& final(self).editing is None
                    &&& final(self).edit_buffer@.len() == 0
                    &&& final(self).map == old(self).map
                } else {
                    &&& final(self).editing == old(self).editing
                    &&& final(self).edit_buffer == old(self).edit_buffer
                    &&& final(self).map == old(self).map
                },
                None => {
                    &&& final(self).editing is None
                    &&& final(self).edit_buffer == old(self).edit_buffer
                    &&& final(self).map == old(self).map
                },
            },
            ids_evolve(old(self).map, final(self).map),
    {
        if self.editing.is_none() {
            return;
        }
        if lost_focus && enter {
            self.commit_edit();
        }
        if escape {
            self.cancel_edit();
        }
    }

    /// One frame of pointer input. Hit testing uses the positions from
    /// before the frame; a plain click (no drag) is resolved on the node
    /// under the pointer, a drag start grabs the selected node under it, a
    /// drag moves the grabbed node, and a release ends the drag.
    pub fn pointer_frame(&mut self, input: PointerInput)
        requires
            old(self).wf(),
        ensures
            final(self).wf(),
            final(self).map.next_id == old(self).map.next_id,
            final(self).map.nodes@.len() == old(self).map.nodes@.len(),
            forall|k: int|
                0 <= k < old(self).map.nodes@.len() ==> (#[trigger] final(self).map.nodes@[k]).id
                    == old(self).map.nodes@[k].id,
            !(input.clicked && !input.dragged) ==> final(self).selected == old(self).selected
                && final(self).last_click == old(self).last_click,
            input.clicked && !input.dragged ==> {
                let target = match input.pos {
                    Some(p) => node_at(old(self).map.nodes@, p),
                    None => None,
                };
                match target {
                    Some(id) => if is_double_click(old(self).last_click, id, input.now_ms) {
                        &&& final(self).editing == Some(id)
                        &&& text_is(old(self).map.nodes@, id, final(self).edit_buffer@)
                        &&& final(self).last_click is None
                        &&& final(self).selected == old(self).selected
                    } else {
                        &&& final(self).selected == Some(id)
                        &&& final(self).last_click == Some(Click { node: id, at_ms: input.now_ms })
                        &&& final(self).editing == old(self).editing
                    },
                    None => final(self).selected is None && final(self).last_click is None
                        && final(self).editing == old(self).editing,
                }
            },
            !(input.clicked && !input.dragged) ==> final(self).editing == old(self).editing
                && final(self).edit_buffer == old(self).edit_buffer,
            !input.dragged || input.pos is None ==> final(self).map.nodes@ == old(self).map.nodes@,
            input.drag_released ==> final(self).dragging is None
                && final(self).drag_offset == (Offset { dx: 0, dy: 0 }),
            !input.drag_started && !input.drag_released ==> final(self).dragging == old(self).dragging
                && final(self).drag_offset == old(self).drag_offset,
            input.dragged && !input.drag_started && input.pos is Some ==> {
                let p = input.pos->Some_0;
                let s = old(self).map.nodes@;
                let target = (Point {
                    x: clamp16(p.x - old(self).drag_offset.dx) as i16,
                    y: clamp16(p.y - old(self).drag_offset.dy) as i16,
                });
                match old(self).dragging {
                    Some(id) => if node_in(s, id) {
                        exists|i: int|
                            0 <= i < s.len() && (#[trigger] s[i]).id == id
                                && final(self).map.nodes@ == s.update(i, with_position(s[i], target))
                    } else {
                        final(self).map.nodes@ == s
                    },
                    None => final(self).map.nodes@ == s,
                }
            },
            input.drag_started && !(input.clicked && !input.dragged) && input.pos is Some ==> {
                let p = input.pos->Some_0;
                let s = old(self).map.nodes@;
                if old(self).editing is None && old(self).selected is Some && exists|i: int|
                    0 <= i < s.len() && (#[trigger] s[i]).id == old(self).selected->Some_0 && hits(s[i].position, p) {
                    &&& final(self).map.nodes@ == s
                    &&& !input.drag_released ==> final(self).dragging == old(self).selected && exists|i: int|
                        0 <= i < s.len() && (#[trigger] s[i]).id == old(self).selected->Some_0
                            && final(self).drag_offset.dx == p.x - s[i].position.x
                            && final(self).drag_offset.dy == p.y - s[i].position.y
                } else {
                    !input.drag_released ==> final(self).dragging == old(self).dragging
                        && final(self).drag_offset == old(self).drag_offset
                }
            },
            ids_evolve(old(self).map, final(self).map),
    {
        let plain_click = input.clicked && !input.dragged;
        let mut target: Option<u64> = None;
        match input.pos {
            Some(pos) => {
                if plain_click {
                    target = self.hit_test(pos);
                } else if input.drag_started {
                    let ghost e0: Editor = *self;
                    self.begin_drag(pos);
                    if input.dragged {
                        let ghost e1: Editor = *self;
                        self.drag_to(pos);
                        proof {
                            let s = e0.map.nodes@;
                            if e0.editing is None && e0.selected is Some && exists|i: int|
                                0 <= i < s.len() && (#[trigger] s[i]).id == e0.selected->Some_0 && hits(s[i].position, pos) {
                                let id = e0.selected->Some_0;
                                let j = choose|j: int|
                                    0 <= j < s.len() && (#[trigger] s[j]).id == id
                                        && e1.drag_offset.dx == pos.x - s[j].position.x
                                        && e1.drag_offset.dy == pos.y - s[j].position.y;
                                let target = (Point {
                                    x: clamp16(pos.x - e1.drag_offset.dx) as i16,
                                    y: clamp16(pos.y - e1.drag_offset.dy) as i16,
                                });
                                let i = choose|i: int|
                                    0 <= i < s.len() && (#[trigger] s[i]).id == id
                                        && self.map.nodes@ == s.update(i, with_position(s[i], target));
                                if i < j {
                                    assert(s[i].id < s[j].id);
                                } else if j < i {
                                    assert(s[j].id < s[i].id);
                                }
                                assert(target == s[i].position);
                                assert(with_position(s[i], target) == s[i]);
                                assert(self.map.nodes@ =~= s);
                            }
                        }
                    }
                } else if input.dragged {
                    self.drag_to(pos);
                }
            },
            None => {},
        }
        if plain_click {
            self.resolve_click(target, input.now_ms);
        }
        if input.drag_released {
            self.end_drag();
        }
    }

    /// Adds a node below the selected node, or below the root when nothing
    /// is selected, at a spot that cycles with the id; the selection stays.
    /// Returns the new id, or `None` once the ids are exhausted.
    pub fn add_node(&mut self) -> (r: Option<u64>)
        requires
            old(self).wf(),
        ensures
            final(self).wf(),
            final(self).selected == old(self).selected,
            final(self).editing == old(self).editing,
            final(self).edit_buffer == old(self).edit_buffer,
            final(self).last_click == old(self).last_click,
            final(self).dragging == old(self).dragging,
            final(self).drag_offset == old(self).drag_offset,
            old(self).map.next_id == u64::MAX ==> r is None && final(self).map == old(self).map,
            old(self).map.next_id < u64::MAX ==> {
                let id = old(self).map.next_id;
                let n = final(self).map.nodes@.last();
                &&& r == Some(id)
                &&& final(self).map.next_id == id + 1
                &&& final(self).map.nodes@.drop_last() == old(self).map.nodes@
                &&& n.id == id
                &&& n.text@ == default_label(id)
                &&& n.position.x == 200 + 100 * (id % 4)
                &&& n.position.y == 200 + 50 * (id % 4)
                &&& n.parent_id == Some(
                    match old(self).selected {
                        Some(p) => p,
                        None => ROOT_ID,
                    },
                )
            },
            ids_evolve(old(self).map, final(self).map),
    {
        if self.map.next_id == u64::MAX {
            return None;
        }
        let id = self.map.next_id;
        let parent = match self.selected {
            Some(p) => p,
            None => ROOT_ID,
        };
        proof {
            assert(self.map.nodes@[0].id == ROOT_ID);
        }
        let step: i16 = (id % 4) as i16;
        let position = Point::new(200 + 100 * step, 200 + 50 * step);
        let text = labelled("Node ", id);
        proof {
            reveal_strlit("Node ");
            assert(text@ =~= default_label(id));
        }
        let ghost s0 = self.map.nodes@;
        let new_id = self.map.create_node(parent, text, position);
        proof {
            assert(self.map.nodes@.drop_last() =~= s0);
            if let Some(eid) = self.editing {
                let j = choose|j: int| 0 <= j < s0.len() && (#[trigger] s0[j]).id == eid;
                assert(self.map.nodes@[j] == s0[j]);
            }
            if let Some(sid) = self.selected {
                let j = choose|j: int| 0 <= j < s0.len() && (#[trigger] s0[j]).id == sid;
                assert(self.map.nodes@[j] == s0[j]);
            }
        }
        Some(new_id)
    }
    /// Adds a child of the selected node, offset by (150, 80) from it with
    /// each coordinate held within `i16`, and selects the child. Returns the
    /// new id; nothing happens without a selection or once the ids are
    /// exhausted.
    pub fn add_child_to_selected(&mut self) -> (r: Option<u64>)
        requires
            old(self).wf(),
        ensures
            final(self).wf(),
            final(self).editing == old(self).editing,
            final(self).edit_buffer == old(self).edit_buffer,
            final(self).last_click == old(self).last_click,
            final(self).dragging == old(self).dragging,
            final(self).drag_offset == old(self).drag_offset,
            old(self).selected is None || old(self).map.next_id == u64::MAX ==> r is None
                && final(self).map == old(self).map && final(self).selected == old(self).selected,
            old(self).selected is Some && old(self).map.next_id < u64::MAX ==> {
                let p = old(self).selected->Some_0;
                let s = old(self).map.nodes@;
                let id = old(self).map.next_id;
                let n = final(self).map.nodes@.last();
                &&& r == Some(id)
                &&& final(self).selected == Some(id)
                &&& final(self).map.next_id == id + 1
                &&& final(self).map.nodes@.drop_last() == s
                &&& n.id == id
                &&& n.text@ == default_label(id)
                &&& n.parent_id == Some(p)
                &&& exists|i: int|
                    0 <= i < s.len() && (#[trigger] s[i]).id == p
                        && n.position.x == clamp16(s[i].position.x + CHILD_DX)
                        && n.position.y == clamp16(s[i].position.y + CHILD_DY)
            },
            added_child(*old(self), *final(self)),
            ids_evolve(old(self).map, final(self).map),
    {
        let parent = match self.selected {
            Some(p) => p,
            None => { return None; },
        };
        if self.map.next_id == u64::MAX {
            return None;
        }
        let i = match self.map.find_index(parent) {
            Some(i) => i,
            None => { return None; },
        };
        let c = self.map.nodes[i].position;
        let position = Point::new(
            clamp_to_i16((c.x as i64) + (CHILD_DX as i64)),
            clamp_to_i16((c.y as i64) + (CHILD_DY as i64)),
        );
        let id = self.map.next_id;
        let text = labelled("Node ", id);
        proof {
            reveal_strlit("Node ");
            assert(text@ =~= default_label(id));
        }
        let ghost s0 = self.map.nodes@;
        let new_id = self.map.create_node(parent, text, position);
        self.selected = Some(new_id);
        proof {
            let s = self.map.nodes@;
            assert(s.drop_last() =~= s0);
            assert(s[s.len() - 1].id == new_id);
            if let Some(eid) = self.editing {
                let j = choose|j: int| 0 <= j < s0.len() && (#[trigger] s0[j]).id == eid;
                assert(s[j] == s0[j]);
            }
        }
        Some(new_id)
    }

    /// Deletes the selected node with all nodes below it and clears the
    /// selection; the root is never deleted. A drag or a remembered click on
    /// a removed node is forgotten.
    pub fn delete_selected(&mut self)
        requires
            old(self).wf(),
        ensures
            final(self).wf(),
            final(self).map.next_id == old(self).map.next_id,
            final(self).editing == match old(self).editing {
                Some(e) => if node_in(final(self).map.nodes@, e) {
                    Some(e)
                } else {
                    None
                },
                None => None,
            },
            final(self).edit_buffer == old(self).edit_buffer,
            match old(self).selected {
                Some(id) => if id != ROOT_ID {
                    &&& final(self).map.nodes@ == without_subtree(old(self).map.nodes@, id)
                    &&& final(self).selected is None
                } else {
                    final(self).map == old(self).map && final(self).selected == old(self).selected
                },
                None => final(self).map == old(self).map && final(self).selected is None,
            },
            match final(self).dragging {
                Some(d) => node_in(final(self).map.nodes@, d) && final(self).dragging == old(self).dragging,
                None => true,
            },
            match final(self).last_click {
                Some(c) => node_in(final(self).map.nodes@, c.node) && final(self).last_click == old(self).last_click,
                None => true,
            },
            deleted_selected(*old(self), *final(self)),
            ids_evolve(old(self).map, final(self).map),
    {
        let id = match self.selected {
            Some(id) => id,
            None => { self.forget_missing(); return; },
        };
        if id == ROOT_ID {
            self.forget_missing();
            return;
        }
        let was_editing = self.editing;
        self.editing = None;
        self.map.delete_subtree(id);
        self.selected = None;
        self.forget_missing();
        if let Some(e) = was_editing {
            if self.map.find_index(e).is_some() {
                self.editing = Some(e);
            }
        }
    }

    /// Drops a drag or a remembered click whose node is gone.
    fn forget_missing(&mut self)
        requires
            old(self).map.wf(),
        ensures
            final(self).map == old(self).map,
            final(self).selected == old(self).selected,
            final(self).editing == old(self).editing,
            final(self).edit_buffer == old(self).edit_buffer,
            final(self).drag_offset == old(self).drag_offset || final(self).dragging is None,
            match final(self).dragging {
                Some(d) => node_in(final(self).map.nodes@, d) && final(self).dragging == old(self).dragging,
                None => true,
            },
            match final(self).last_click {
                Some(c) => node_in(final(self).map.nodes@, c.node) && final(self).last_click == old(self).last_click,
                None => true,
            },
    {
        if let Some(d) = self.dragging {
            if self.map.find_index(d).is_none() {
                self.dragging = None;
                self.drag_offset = Offset { dx: 0, dy: 0 };
            }
        }
        if let Some(c) = self.last_click {
            if self.map.find_index(c.node).is_none() {
                self.last_click = None;
            }
        }
    }

    /// Enters edit mode on the selected node, if any.
    pub fn edit_selected(&mut self)
        requires
            old(self).wf(),
        ensures
            final(self).wf(),
            final(self).map == old(self).map,
            final(self).selected == old(self).selected,
            final(self).last_click == old(self).last_click,
            final(self).dragging == old(self).dragging,
            final(self).drag_offset == old(self).drag_offset,
            match old(self).selected {
                Some(id) => final(self).editing == Some(id) && text_is(old(self).map.nodes@, id, final(self).edit_buffer@),
                None => final(self).editing == old(self).editing && final(self).edit_buffer == old(self).edit_buffer,
            },
            edited_selected(*old(self), *final(self)),
    {
        if let Some(id) = self.selected {
            self.start_edit(id);
        }
    }

    /// Moves the selection to the nearest node in direction `d`; with
    /// nothing selected, selects the first node (the root). The selection
    /// stays when no node lies ahead.
    pub fn select_nearby_node(&mut self, d: Direction)
        requires
            old(self).wf(),
        ensures
            final(self).wf(),
            final(self).map == old(self).map,
            final(self).editing == old(self).editing,
            final(self).edit_buffer == old(self).edit_buffer,
            final(self).last_click == old(self).last_click,
            final(self).dragging == old(self).dragging,
            final(self).drag_offset == old(self).drag_offset,
            ({
                let s = old(self).map.nodes@;
                match old(self).selected {
                    Some(id) => exists|c: int|
                        0 <= c < s.len() && (#[trigger] s[c]).id == id && match nearest_in_direction(s, s[c], d) {
                            Some(b) => final(self).selected == Some(s[b].id),
                            None => final(self).selected == old(self).selected,
                        },
                    None => final(self).selected == Some(ROOT_ID),
                }
            }),
            moved_selection(*old(self), *final(self), d),
    {
        match self.selected {
            Some(id) => {
                match self.map.find_index(id) {
                    Some(c) => {
                        match nearest_index(&self.map.nodes, c, d) {
                            Some(b) => {
                                let nid = self.map.nodes[b].id;
                                self.selected = Some(nid);
                                proof {
                                    let s = self.map.nodes@;
                                    assert(s[b as int].id == nid);
                                }
                            },
                            None => {},
                        }
                    },
                    None => {},
                }
            },
            None => {
                let rid = self.map.nodes[0].id;
                self.selected = Some(rid);
                proof {
                    assert(self.map.nodes@[0].id == rid);
                }
            },
        }
    }

    /// One frame of shortcut keys, in the order add child, delete, edit,
    /// up, down, left, right. Nothing happens in edit mode. Over any frame,
    /// nodes are only removed or added under fresh ids; a frame with one key
    /// pressed has exactly that key's effect.
    pub fn handle_keys(&mut self, keys: Keys)
        requires
            old(self).wf(),
        ensures
            final(self).wf(),
            ids_evolve(old(self).map, final(self).map),
            old(self).editing is Some || key_count(keys) == 0 ==> *final(self) == *old(self),
            old(self).editing is None && key_count(keys) == 1 ==> {
                &&& keys.add_child ==> added_child(*old(self), *final(self))
                &&& keys.delete ==> deleted_selected(*old(self), *final(self))
                &&& keys.edit ==> edited_selected(*old(self), *final(self))
                &&& keys.up ==> moved_selection(*old(self), *final(self), Direction::Up)
                &&& keys.down ==> moved_selection(*old(self), *final(self), Direction::Down)
                &&& keys.left ==> moved_selection(*old(self), *final(self), Direction::Left)
                &&& keys.right ==> moved_selection(*old(self), *final(self), Direction::Right)
            },
    {
        let ghost m0 = self.map;
        proof {
            lemma_ids_evolve_refl(m0);
        }
        if self.editing.is_some() {
            return;
        }
        if keys.add_child {
            let ghost m1 = self.map;
            self.add_child_to_selected();
            proof {
                lemma_ids_evolve_trans(m0, m1, self.map);
            }
        }
        if keys.delete {
            let ghost m1 = self.map;
            self.delete_selected();
            proof {
                lemma_ids_evolve_trans(m0, m1, self.map);
            }
        }
        if keys.edit {
            self.edit_selected();
        }
        if keys.up {
            self.select_nearby_node(Direction::Up);
        }
        if keys.down {
            self.select_nearby_node(Direction::Down);
        }
        if keys.left {
            self.select_nearby_node(Direction::Left);
        }
        if keys.right {
            self.select_nearby_node(Direction::Right);
        }
    }
}


impl Default for Editor {
    /// The same fresh session as [`Editor::new`].
    fn default() -> (r: Editor)
        ensures
            r.wf(),
            r.map.nodes@.len() == 1,
            r.map.nodes@[0].id == ROOT_ID,
            r.map.nodes@[0].text@ == "Root Node"@,
            r.map.nodes@[0].position == (Point { x: 400, y: 300 }),
            r.map.next_id == 1,
            r.selected is None,
            r.editing is None,
            r.edit_buffer@.len() == 0,
            r.last_click is None,
            r.dragging is None,
            r.drag_offset == (Offset { dx: 0, dy: 0 }),
    {
        Editor::new()
    }
}

} // verus!
