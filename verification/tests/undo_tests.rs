use lym::undo::{EditCommand, UndoStack};

fn moved(id: u64) -> EditCommand {
    EditCommand::MoveClip { clip_id: id, old_start_time: 0, new_start_time: 1, old_track_idx: 0, new_track_idx: 1 }
}

fn id_of(c: &EditCommand) -> u64 {
    match c {
        EditCommand::MoveClip { clip_id, .. } => *clip_id,
        _ => u64::MAX,
    }
}

#[test]
fn empty_history_has_nothing_to_undo_or_redo() {
    let mut h = UndoStack::new(10);
    assert!(!h.can_undo());
    assert!(!h.can_redo());
    assert!(h.undo().is_none());
    assert!(h.redo().is_none());
}

#[test]
fn push_then_undo_gives_the_command_back() {
    let mut h = UndoStack::new(10);
    h.push(moved(1));
    h.push(moved(2));
    assert!(h.can_undo());
    assert_eq!(h.undo().map(|c| id_of(&c)), Some(2));
    assert_eq!(h.undo().map(|c| id_of(&c)), Some(1));
    assert!(h.undo().is_none());
}

#[test]
fn undo_then_redo_restores() {
    let mut h = UndoStack::new(10);
    h.push(moved(1));
    h.push(moved(2));
    let u = h.undo().unwrap();
    assert!(h.can_redo());
    let r = h.redo().unwrap();
    assert_eq!(id_of(&u), id_of(&r));
    assert!(!h.can_redo());
    assert_eq!(h.undo().map(|c| id_of(&c)), Some(2));
}

#[test]
fn push_clears_redo() {
    let mut h = UndoStack::new(10);
    h.push(moved(1));
    h.undo();
    assert!(h.can_redo());
    h.push(moved(3));
    assert!(!h.can_redo());
    assert!(h.redo().is_none());
}

#[test]
fn oldest_command_is_dropped_past_the_depth() {
    let mut h = UndoStack::new(2);
    h.push(moved(1));
    h.push(moved(2));
    h.push(moved(3));
    assert_eq!(h.undo().map(|c| id_of(&c)), Some(3));
    assert_eq!(h.undo().map(|c| id_of(&c)), Some(2));
    assert!(h.undo().is_none());
}

#[test]
fn zero_depth_keeps_nothing() {
    let mut h = UndoStack::new(0);
    h.push(moved(1));
    assert!(!h.can_undo());
    assert!(h.undo().is_none());
}

#[test]
fn commands_keep_their_contents() {
    let mut h = UndoStack::new(5);
    h.push(EditCommand::TrimClip {
        clip_id: 4,
        old_in_point: 1,
        old_out_point: 2,
        old_duration: 1,
        new_in_point: 0,
        new_out_point: 5,
        new_duration: 5,
    });
    match h.undo() {
        Some(EditCommand::TrimClip { clip_id, new_out_point, new_duration, .. }) => {
            assert_eq!((clip_id, new_out_point, new_duration), (4, 5, 5));
        }
        _ => panic!("expected the trim command"),
    }
}
