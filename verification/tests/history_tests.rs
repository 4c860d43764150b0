use paintmate::{ImageData, ImageHistory, Rgba};

fn doc_with_mark(mark: u8) -> ImageData {
    let mut d = ImageData::new(1, 1);
    d.draw_pixel(0, 0, Rgba::new(mark, 0, 0, 255));
    d
}

fn mark_of(d: &ImageData) -> u8 {
    d.get_active_layer().pixels.get_pixel(0, 0).r
}

#[test]
fn push_undo_redo_round_trip() {
    let mut h = ImageHistory::new();
    h.push_state(doc_with_mark(1));
    h.push_state(doc_with_mark(2));
    // Before the undo, the addressable state carries mark 2.
    let undone = h.undo().expect("undo is possible after two pushes").clone();
    assert_eq!(mark_of(&undone), 1);
    let redone = h.redo().expect("redo is possible right after an undo").clone();
    assert_eq!(mark_of(&redone), 2);
}

#[test]
fn undo_on_fresh_history_is_a_safe_no_op() {
    let mut h = ImageHistory::new();
    assert!(h.undo().is_none());
    assert!(h.redo().is_none());
    h.push_state(doc_with_mark(1));
    assert!(h.undo().is_none());
    assert!(h.redo().is_none());
}

#[test]
fn history_is_capped_at_capacity() {
    let mut h = ImageHistory::new();
    for i in 0..55u8 {
        h.push_state(doc_with_mark(i));
    }
    assert_eq!(h.history.len(), 50);
    // The oldest five snapshots are gone: walking back as far as undo
    // allows ends on the sixth state pushed.
    let mut last_mark = 255u8;
    while h.can_undo() {
        last_mark = mark_of(h.undo().expect("can_undo was true"));
    }
    assert_eq!(last_mark, 5);
}

#[test]
fn can_undo_needs_two_recorded_states() {
    let mut h = ImageHistory::new();
    assert!(!h.can_undo());
    h.push_state(doc_with_mark(1));
    assert!(!h.can_undo());
    h.push_state(doc_with_mark(2));
    assert!(h.can_undo());
    h.push_state(doc_with_mark(3));
    assert!(h.can_undo());
    h.clear();
    assert!(!h.can_undo());
    assert!(!h.can_redo());
}

#[test]
fn push_discards_the_redo_branch() {
    let mut h = ImageHistory::new();
    h.push_state(doc_with_mark(1));
    h.push_state(doc_with_mark(2));
    h.push_state(doc_with_mark(3));
    assert_eq!(mark_of(h.undo().expect("two states precede")), 2);
    h.push_state(doc_with_mark(9));
    // The state carrying mark 3 is no longer reachable forward.
    assert!(!h.can_redo());
    assert_eq!(mark_of(h.undo().expect("an earlier state exists")), 2);
    let redone = h.redo().expect("redo returns the replacement branch");
    assert_eq!(mark_of(redone), 9);
}

#[test]
fn can_redo_only_after_undo() {
    let mut h = ImageHistory::new();
    h.push_state(doc_with_mark(1));
    h.push_state(doc_with_mark(2));
    assert!(!h.can_redo());
    h.undo();
    assert!(h.can_redo());
    h.redo();
    assert!(!h.can_redo());
}
