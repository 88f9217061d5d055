//! Editor-state logic: positions, node lookup under the cursor, and the
//! reversible commands.

use audio_vm::edit::{
    apply_move_cursor, apply_randomize_ids, default_cycles, merge_offsets, undo_move_cursor,
    undo_randomize_ids, InputMode, Node, Position, SavedState, Screen,
};
use std::cmp::Ordering;

fn node(id: u64, op: &str, x: i16, y: i16) -> Node {
    Node {
        id,
        draft: false,
        op: op.to_string(),
        position: Position { x, y },
    }
}

#[test]
fn positions_compare_in_reading_order() {
    let a = Position { x: 5, y: 1 };
    let b = Position { x: 0, y: 2 };
    assert_eq!(a.partial_cmp(&b), Some(Ordering::Less));
    assert_eq!(b.partial_cmp(&a), Some(Ordering::Greater));
    let c = Position { x: 3, y: 1 };
    assert_eq!(c.partial_cmp(&a), Some(Ordering::Less));
    assert_eq!(a.partial_cmp(&a), Some(Ordering::Equal));
}

#[test]
fn position_constructors_fix_the_other_axis() {
    assert_eq!(Position::x(4), Position { x: 4, y: 0 });
    assert_eq!(Position::y(-2), Position { x: 0, y: -2 });
}

#[test]
fn node_at_cursor_counts_the_trailing_space() {
    let nodes = vec![node(1, "sine:440", 2, 1), node(2, "dup", 10, 2)];
    let mut state = SavedState {
        cursor: Position { x: 2, y: 1 },
        nodes,
        program: String::new(),
    };
    assert_eq!(state.node_at_cursor(), Some(0));
    // the cell just after the text still belongs to the node
    state.cursor = Position { x: 10, y: 1 };
    assert_eq!(state.node_at_cursor(), Some(0));
    state.cursor = Position { x: 11, y: 1 };
    assert_eq!(state.node_at_cursor(), None);
    state.cursor = Position { x: 11, y: 2 };
    assert_eq!(state.node_at_cursor(), Some(1));
    state.cursor = Position { x: 1, y: 1 };
    assert_eq!(state.node_at_cursor(), None);
}

#[test]
fn draft_flags_are_found() {
    let mut state = SavedState {
        cursor: Position::default(),
        nodes: vec![node(1, "dup", 0, 0)],
        program: String::new(),
    };
    assert!(!state.any_draft());
    state.nodes[0].draft = true;
    assert!(state.any_draft());
}

#[test]
fn cursor_moves_undo_exactly() {
    let mut cursor = Position { x: 3, y: 4 };
    let offset = Position { x: -2, y: 7 };
    apply_move_cursor(&mut cursor, offset);
    assert_eq!(cursor, Position { x: 1, y: 11 });
    undo_move_cursor(&mut cursor, offset);
    assert_eq!(cursor, Position { x: 3, y: 4 });
    assert_eq!(
        merge_offsets(offset, Position { x: 1, y: 1 }),
        Position { x: -1, y: 8 }
    );
}

#[test]
fn randomized_identities_restore_on_undo() {
    let mut nodes = vec![node(10, "sine:440", 0, 0), node(20, "dup", 4, 0)];
    let new_ids = vec![77, 88];
    let prev = apply_randomize_ids(&mut nodes, &new_ids);
    assert_eq!(nodes[0].id, 77);
    assert_eq!(nodes[1].id, 88);
    assert_eq!(prev, vec![(77, 10), (88, 20)]);
    let fallback = vec![0, 0];
    undo_randomize_ids(&mut nodes, &prev, &fallback);
    assert_eq!(nodes[0].id, 10);
    assert_eq!(nodes[1].id, 20);
}

#[test]
fn unknown_identity_falls_back_on_undo() {
    let mut nodes = vec![node(42, "dup", 0, 0)];
    let prev: Vec<(u64, u64)> = vec![(7, 3)];
    let fallback = vec![99];
    undo_randomize_ids(&mut nodes, &prev, &fallback);
    assert_eq!(nodes[0].id, 99);
}

#[test]
fn default_cycles_repeat_the_first_element() {
    let cycles = default_cycles();
    assert_eq!(cycles.len(), 1);
    assert_eq!(cycles[0], vec!["s", "t", "w", "c", "s"]);
}

#[test]
fn editor_defaults() {
    assert!(matches!(InputMode::default(), InputMode::Normal));
    assert!(matches!(Screen::default(), Screen::Editor));
}
