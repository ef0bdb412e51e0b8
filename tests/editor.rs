use mindmap::graph::{MindMap, Node, Point, ROOT_ID};
use mindmap::navigate::{nearest_index, Direction};
use mindmap::session::{hit_index, Editor, Keys, Offset, PointerInput};

fn ids(e: &Editor) -> Vec<u64> {
    e.map.nodes.iter().map(|n| n.id).collect()
}

fn no_keys() -> Keys {
    Keys { add_child: false, delete: false, edit: false, up: false, down: false, left: false, right: false }
}

fn click_at(x: i16, y: i16, now_ms: u64) -> PointerInput {
    PointerInput {
        pos: Some(Point::new(x, y)),
        clicked: true,
        dragged: false,
        drag_started: false,
        drag_released: false,
        now_ms,
    }
}

fn drag_input(x: i16, y: i16, started: bool, released: bool) -> PointerInput {
    PointerInput {
        pos: Some(Point::new(x, y)),
        clicked: false,
        dragged: !released,
        drag_started: started,
        drag_released: released,
        now_ms: 0,
    }
}

fn position_of(e: &Editor, id: u64) -> Point {
    e.map.find(id).unwrap().position
}

fn text_of(e: &Editor, id: u64) -> String {
    e.map.find(id).unwrap().text.clone()
}

#[test]
fn fresh_session_holds_only_the_root() {
    let e = Editor::new();
    assert_eq!(ids(&e), vec![0]);
    assert_eq!(e.map.nodes[0].text, "Root Node");
    assert_eq!(e.map.nodes[0].position, Point::new(400, 300));
    assert_eq!(e.map.nodes[0].parent_id, None);
    assert_eq!(e.map.next_id, 1);
    assert_eq!(e.selected, None);
    assert_eq!(e.editing, None);
}

#[test]
fn add_child_then_delete_removes_the_branch() {
    let mut e = Editor::new();
    e.selected = Some(ROOT_ID);
    assert_eq!(e.add_child_to_selected(), Some(1));
    assert_eq!(position_of(&e, 1), Point::new(550, 380));
    assert_eq!(e.map.find(1).unwrap().parent_id, Some(0));
    assert_eq!(e.selected, Some(1));
    assert_eq!(e.add_child_to_selected(), Some(2));
    assert_eq!(e.map.find(2).unwrap().parent_id, Some(1));
    assert_eq!(position_of(&e, 2), Point::new(700, 460));
    e.selected = Some(1);
    e.delete_selected();
    assert_eq!(ids(&e), vec![0]);
    assert_eq!(e.selected, None);
}

#[test]
fn root_is_never_deleted() {
    let mut e = Editor::new();
    e.selected = Some(ROOT_ID);
    e.add_child_to_selected();
    e.selected = Some(ROOT_ID);
    e.delete_selected();
    assert_eq!(ids(&e), vec![0, 1]);
    assert_eq!(e.selected, Some(ROOT_ID));
    e.map.delete_subtree(ROOT_ID);
    assert_eq!(ids(&e), vec![0, 1]);
    assert_eq!(e.map.nodes[0].parent_id, None);
}

#[test]
fn ids_are_not_reused_after_delete() {
    let mut e = Editor::new();
    e.selected = Some(ROOT_ID);
    assert_eq!(e.add_child_to_selected(), Some(1));
    e.delete_selected();
    assert_eq!(ids(&e), vec![0]);
    e.selected = Some(ROOT_ID);
    assert_eq!(e.add_child_to_selected(), Some(2));
    assert_eq!(ids(&e), vec![0, 2]);
    assert_eq!(e.map.next_id, 3);
}

#[test]
fn cascading_delete_keeps_siblings_and_order() {
    let mut m = MindMap::new("r".to_string(), Point::new(0, 0));
    let a = m.create_node(0, "a".to_string(), Point::new(10, 0));
    let b = m.create_node(0, "b".to_string(), Point::new(20, 0));
    let a1 = m.create_node(a, "a1".to_string(), Point::new(30, 0));
    let b1 = m.create_node(b, "b1".to_string(), Point::new(40, 0));
    let a11 = m.create_node(a1, "a11".to_string(), Point::new(50, 0));
    assert_eq!((a, b, a1, b1, a11), (1, 2, 3, 4, 5));
    m.delete_subtree(a);
    let left: Vec<u64> = m.nodes.iter().map(|n| n.id).collect();
    assert_eq!(left, vec![0, 2, 4]);
    assert_eq!(m.next_id, 6);
}

#[test]
fn deleting_an_absent_id_changes_nothing() {
    let mut m = MindMap::new("r".to_string(), Point::new(0, 0));
    m.create_node(0, "a".to_string(), Point::new(10, 0));
    m.delete_subtree(42);
    let left: Vec<u64> = m.nodes.iter().map(|n| n.id).collect();
    assert_eq!(left, vec![0, 1]);
}

#[test]
fn subtree_marks_follow_child_links() {
    let mut m = MindMap::new("r".to_string(), Point::new(0, 0));
    m.create_node(0, "a".to_string(), Point::new(0, 0));
    m.create_node(1, "b".to_string(), Point::new(0, 0));
    m.create_node(0, "c".to_string(), Point::new(0, 0));
    m.create_node(2, "d".to_string(), Point::new(0, 0));
    assert_eq!(m.subtree_marks(1), vec![false, true, true, false, true]);
    assert_eq!(m.subtree_marks(3), vec![false, false, false, true, false]);
}

#[test]
fn find_and_updates() {
    let mut m = MindMap::new("r".to_string(), Point::new(0, 0));
    m.create_node(0, "a".to_string(), Point::new(1, 2));
    assert_eq!(m.find_index(1), Some(1));
    assert_eq!(m.find_index(9), None);
    assert!(m.find(9).is_none());
    m.update_text(1, "renamed".to_string());
    m.update_position(1, Point::new(-5, 7));
    assert_eq!(m.find(1).unwrap().text, "renamed");
    assert_eq!(m.find(1).unwrap().position, Point::new(-5, 7));
    m.update_text(9, "none".to_string());
    assert_eq!(m.nodes.len(), 2);
}

#[test]
fn fast_second_click_enters_edit_mode() {
    let mut e = Editor::new();
    e.pointer_frame(click_at(400, 300, 1000));
    assert_eq!(e.selected, Some(0));
    assert_eq!(e.editing, None);
    e.pointer_frame(click_at(410, 305, 1499));
    assert_eq!(e.editing, Some(0));
    assert_eq!(e.edit_buffer, "Root Node");
    assert_eq!(e.last_click, None);
}

#[test]
fn slow_second_click_only_selects() {
    let mut e = Editor::new();
    e.pointer_frame(click_at(400, 300, 1000));
    e.pointer_frame(click_at(400, 300, 1500));
    assert_eq!(e.editing, None);
    assert_eq!(e.selected, Some(0));
    assert_eq!(e.last_click.unwrap().at_ms, 1500);
}

#[test]
fn fast_click_on_another_node_is_not_a_double_click() {
    let mut e = Editor::new();
    e.selected = Some(0);
    e.add_child_to_selected();
    e.pointer_frame(click_at(400, 300, 1000));
    e.pointer_frame(click_at(550, 380, 1100));
    assert_eq!(e.editing, None);
    assert_eq!(e.selected, Some(1));
}

#[test]
fn third_fast_click_starts_fresh_timing() {
    let mut e = Editor::new();
    e.pointer_frame(click_at(400, 300, 0));
    e.pointer_frame(click_at(400, 300, 100));
    assert_eq!(e.editing, Some(0));
    e.cancel_edit();
    e.pointer_frame(click_at(400, 300, 200));
    assert_eq!(e.editing, None);
    assert_eq!(e.last_click.unwrap().node, 0);
}

#[test]
fn click_on_empty_canvas_clears_selection() {
    let mut e = Editor::new();
    e.pointer_frame(click_at(400, 300, 0));
    assert_eq!(e.selected, Some(0));
    e.pointer_frame(click_at(0, 0, 50));
    assert_eq!(e.selected, None);
    assert_eq!(e.last_click, None);
}

#[test]
fn hit_test_prefers_the_last_node_and_includes_edges() {
    let mut e = Editor::new();
    e.map.create_node(0, "over".to_string(), Point::new(420, 300));
    assert_eq!(e.hit_test(Point::new(410, 300)), Some(1));
    assert_eq!(e.hit_test(Point::new(360, 300)), Some(0));
    assert_eq!(e.hit_test(Point::new(350, 320)), Some(0));
    assert_eq!(e.hit_test(Point::new(349, 300)), None);
    assert_eq!(e.hit_test(Point::new(400, 321)), None);
    assert_eq!(hit_index(&e.map.nodes, Point::new(470, 280)), Some(1));
}

#[test]
fn drag_moves_selected_node_and_release_stops_it() {
    let mut e = Editor::new();
    e.selected = Some(0);
    e.pointer_frame(drag_input(410, 305, true, false));
    assert_eq!(e.dragging, Some(0));
    assert_eq!(e.drag_offset, Offset { dx: 10, dy: 5 });
    assert_eq!(position_of(&e, 0), Point::new(400, 300));
    e.pointer_frame(drag_input(450, 330, false, false));
    e.pointer_frame(drag_input(500, 400, false, false));
    assert_eq!(position_of(&e, 0), Point::new(490, 395));
    e.pointer_frame(drag_input(500, 400, false, true));
    assert_eq!(e.dragging, None);
    assert_eq!(e.drag_offset, Offset { dx: 0, dy: 0 });
    e.pointer_frame(drag_input(100, 100, false, false));
    assert_eq!(position_of(&e, 0), Point::new(490, 395));
}

#[test]
fn drag_needs_a_selected_node_under_the_pointer() {
    let mut e = Editor::new();
    e.pointer_frame(drag_input(410, 305, true, false));
    assert_eq!(e.dragging, None);
    e.selected = Some(0);
    e.pointer_frame(drag_input(100, 100, true, false));
    assert_eq!(e.dragging, None);
    assert_eq!(position_of(&e, 0), Point::new(400, 300));
}

#[test]
fn drag_is_held_within_coordinate_range() {
    let mut e = Editor::new();
    e.selected = Some(0);
    e.pointer_frame(drag_input(350, 320, true, false));
    e.pointer_frame(drag_input(32767, -32768, false, false));
    assert_eq!(position_of(&e, 0), Point::new(32767, -32768));
}

#[test]
fn editing_commit_and_cancel() {
    let mut e = Editor::new();
    e.selected = Some(0);
    e.edit_selected();
    assert_eq!(e.editing, Some(0));
    assert_eq!(e.edit_buffer, "Root Node");
    e.set_edit_buffer("Centre".to_string());
    e.edit_frame(false, true, false);
    assert_eq!(e.editing, Some(0));
    e.edit_frame(true, true, false);
    assert_eq!(e.editing, None);
    assert_eq!(e.edit_buffer, "");
    assert_eq!(text_of(&e, 0), "Centre");
    e.edit_selected();
    e.set_edit_buffer("Discarded".to_string());
    e.edit_frame(false, false, true);
    assert_eq!(e.editing, None);
    assert_eq!(text_of(&e, 0), "Centre");
}

#[test]
fn commit_outside_edit_mode_does_nothing() {
    let mut e = Editor::new();
    e.set_edit_buffer("x".to_string());
    e.commit_edit();
    assert_eq!(text_of(&e, 0), "Root Node");
    assert_eq!(e.edit_buffer, "x");
}

#[test]
fn keys_are_ignored_while_editing() {
    let mut e = Editor::new();
    e.selected = Some(0);
    e.edit_selected();
    let mut k = no_keys();
    k.add_child = true;
    e.handle_keys(k);
    assert_eq!(ids(&e), vec![0]);
    e.cancel_edit();
    e.handle_keys(k);
    assert_eq!(ids(&e), vec![0, 1]);
    assert_eq!(e.selected, Some(1));
}

#[test]
fn new_nodes_get_numbered_labels() {
    let mut e = Editor::new();
    e.selected = Some(0);
    for _ in 0..11 {
        e.add_child_to_selected();
    }
    assert_eq!(text_of(&e, 1), "Node 1");
    assert_eq!(text_of(&e, 10), "Node 10");
    assert_eq!(text_of(&e, 11), "Node 11");
}

#[test]
fn toolbar_add_hangs_below_selection_or_root() {
    let mut e = Editor::new();
    assert_eq!(e.add_node(), Some(1));
    let n = e.map.find(1).unwrap();
    assert_eq!(n.parent_id, Some(0));
    assert_eq!(n.position, Point::new(300, 250));
    assert_eq!(n.text, "Node 1");
    assert_eq!(e.selected, None);
    e.selected = Some(1);
    assert_eq!(e.add_node(), Some(2));
    assert_eq!(e.map.find(2).unwrap().parent_id, Some(1));
    assert_eq!(e.map.find(2).unwrap().position, Point::new(400, 300));
    e.add_node();
    assert_eq!(e.add_node(), Some(4));
    assert_eq!(e.map.find(4).unwrap().position, Point::new(200, 200));
    assert_eq!(e.selected, Some(1));
}

#[test]
fn add_child_without_selection_does_nothing() {
    let mut e = Editor::new();
    assert_eq!(e.add_child_to_selected(), None);
    assert_eq!(ids(&e), vec![0]);
}

#[test]
fn child_position_is_held_within_range() {
    let mut e = Editor::new();
    e.map.update_position(0, Point::new(32700, 32760));
    e.selected = Some(0);
    e.add_child_to_selected();
    assert_eq!(position_of(&e, 1), Point::new(32767, 32767));
}

fn star() -> Editor {
    // root at (400, 300) with neighbours around it
    let mut e = Editor::new();
    e.map.create_node(0, "right far".to_string(), Point::new(600, 300));
    e.map.create_node(0, "right near diag".to_string(), Point::new(500, 400));
    e.map.create_node(0, "left".to_string(), Point::new(300, 300));
    e.map.create_node(0, "up".to_string(), Point::new(400, 100));
    e
}

#[test]
fn arrows_pick_the_lowest_score() {
    // right far: 2*200 - 200 = 200; diagonal: 2*141.42 - 100 = 182.8
    let mut e = star();
    e.selected = Some(0);
    e.select_nearby_node(Direction::Right);
    assert_eq!(e.selected, Some(2));
    e.selected = Some(0);
    e.select_nearby_node(Direction::Left);
    assert_eq!(e.selected, Some(3));
    e.selected = Some(0);
    e.select_nearby_node(Direction::Up);
    assert_eq!(e.selected, Some(4));
    e.selected = Some(0);
    e.select_nearby_node(Direction::Down);
    assert_eq!(e.selected, Some(2));
}

#[test]
fn arrows_are_deterministic() {
    let mut e = star();
    for _ in 0..3 {
        e.selected = Some(0);
        e.select_nearby_node(Direction::Right);
        assert_eq!(e.selected, Some(2));
    }
}

#[test]
fn arrow_with_nothing_ahead_keeps_selection() {
    let mut e = star();
    e.selected = Some(4);
    e.select_nearby_node(Direction::Up);
    assert_eq!(e.selected, Some(4));
    // perpendicular nodes do not count
    let mut f = Editor::new();
    f.map.create_node(0, "beside".to_string(), Point::new(400, 500));
    f.selected = Some(0);
    f.select_nearby_node(Direction::Right);
    assert_eq!(f.selected, Some(0));
}

#[test]
fn arrow_without_selection_selects_root() {
    let mut e = star();
    e.select_nearby_node(Direction::Left);
    assert_eq!(e.selected, Some(0));
}

#[test]
fn arrow_ties_go_to_the_first_node() {
    let mut e = Editor::new();
    e.map.create_node(0, "a".to_string(), Point::new(500, 350));
    e.map.create_node(0, "b".to_string(), Point::new(500, 250));
    e.selected = Some(0);
    e.select_nearby_node(Direction::Right);
    assert_eq!(e.selected, Some(1));
    assert_eq!(nearest_index(&e.map.nodes, 0, Direction::Right), Some(1));
}

#[test]
fn aligned_candidate_beats_slightly_closer_diagonal() {
    // aligned at distance 100 scores 100; (80, 60) has length 100 and scores 120
    let mut e = Editor::new();
    e.map.create_node(0, "diag".to_string(), Point::new(480, 360));
    e.map.create_node(0, "aligned".to_string(), Point::new(500, 300));
    e.selected = Some(0);
    e.select_nearby_node(Direction::Right);
    assert_eq!(e.selected, Some(2));
}

#[test]
fn arrow_keys_through_handle_keys() {
    let mut e = star();
    e.selected = Some(0);
    let mut k = no_keys();
    k.up = true;
    e.handle_keys(k);
    assert_eq!(e.selected, Some(4));
    let mut d = no_keys();
    d.delete = true;
    e.handle_keys(d);
    assert_eq!(ids(&e), vec![0, 1, 2, 3]);
    assert_eq!(e.selected, None);
    let mut f2 = no_keys();
    f2.edit = true;
    e.selected = Some(3);
    e.handle_keys(f2);
    assert_eq!(e.editing, Some(3));
    assert_eq!(e.edit_buffer, "left");
}

#[test]
fn delete_forgets_drag_on_removed_node() {
    let mut e = Editor::new();
    e.selected = Some(0);
    e.add_child_to_selected();
    e.pointer_frame(drag_input(555, 385, true, false));
    assert_eq!(e.dragging, Some(1));
    e.delete_selected();
    assert_eq!(e.dragging, None);
    assert_eq!(ids(&e), vec![0]);
}

#[test]
fn default_is_a_fresh_session() {
    let e = Editor::default();
    assert_eq!(ids(&e), vec![0]);
    assert_eq!(e.map.nodes[0].text, "Root Node");
    assert_eq!(e.map.next_id, 1);
}

fn only(f: fn(&mut Keys)) -> Keys {
    let mut k = no_keys();
    f(&mut k);
    k
}

#[test]
fn key_frames_create_navigate_and_delete() {
    let mut e = Editor::default();
    e.handle_keys(only(|k| k.right = true));
    assert_eq!(e.selected, Some(0));
    e.handle_keys(only(|k| k.add_child = true));
    assert_eq!(e.selected, Some(1));
    assert_eq!(position_of(&e, 1), Point::new(550, 380));
    e.handle_keys(only(|k| k.add_child = true));
    assert_eq!(e.selected, Some(2));
    assert_eq!(position_of(&e, 2), Point::new(700, 460));
    assert_eq!(e.map.find(2).unwrap().parent_id, Some(1));
    e.handle_keys(only(|k| k.up = true));
    assert_eq!(e.selected, Some(1));
    e.handle_keys(only(|k| k.delete = true));
    assert_eq!(ids(&e), vec![0]);
    assert_eq!(e.selected, None);
    assert_eq!(e.map.next_id, 3);
    assert_eq!(e.map.nodes[0].text, "Root Node");
}

#[test]
fn delete_key_on_root_changes_nothing() {
    let mut e = Editor::new();
    e.selected = Some(0);
    e.add_child_to_selected();
    e.selected = Some(0);
    e.handle_keys(only(|k| k.delete = true));
    assert_eq!(ids(&e), vec![0, 1]);
    assert_eq!(e.selected, Some(0));
}

#[test]
fn default_has_empty_buffer_and_zero_offset() {
    let e = Editor::default();
    assert_eq!(e.edit_buffer, "");
    assert_eq!(e.drag_offset, Offset { dx: 0, dy: 0 });
    assert_eq!(e.dragging, None);
}

#[test]
fn delete_finishes_on_cyclic_parent_links() {
    let node = |id: u64, parent: Option<u64>| Node {
        id,
        text: format!("n{}", id),
        position: Point::new(0, 0),
        parent_id: parent,
    };
    let mut m = MindMap {
        nodes: vec![node(0, None), node(1, Some(2)), node(2, Some(1)), node(3, Some(0)), node(4, Some(2))],
        next_id: 5,
    };
    m.delete_subtree(1);
    let left: Vec<u64> = m.nodes.iter().map(|n| n.id).collect();
    assert_eq!(left, vec![0, 3]);
}
