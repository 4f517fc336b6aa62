use dotstroke::history::{History, HISTORY_LIMIT};
use dotstroke::model::Document;

fn sized(width: i32) -> Document {
    let mut doc = Document::default();
    doc.target.width = width;
    doc
}

#[test]
fn undo_gives_back_saved_document() {
    let mut history = History::default();
    history.save(&sized(10));
    let previous = history.undo(&sized(20)).unwrap();
    assert_eq!(previous.target.width, 10);
    assert_eq!(history.undo_len(), 0);
    assert_eq!(history.redo_len(), 1);
    let next = history.redo(&previous).unwrap();
    assert_eq!(next.target.width, 20);
    assert_eq!(history.undo_len(), 1);
    assert_eq!(history.redo_len(), 0);
}

#[test]
fn undo_and_redo_on_empty_history() {
    let mut history = History::default();
    assert!(history.undo(&sized(1)).is_none());
    assert!(history.redo(&sized(1)).is_none());
}

#[test]
fn save_clears_redo() {
    let mut history = History::default();
    history.save(&sized(1));
    history.undo(&sized(2)).unwrap();
    assert_eq!(history.redo_len(), 1);
    history.save(&sized(3));
    assert_eq!(history.redo_len(), 0);
    assert!(history.redo(&sized(4)).is_none());
}

#[test]
fn history_keeps_last_hundred_states() {
    let mut history = History::default();
    for w in 0..(HISTORY_LIMIT as i32 + 5) {
        history.save(&sized(w));
    }
    assert_eq!(history.undo_len(), HISTORY_LIMIT);
    let mut oldest = 0;
    while let Some(doc) = history.undo(&sized(-1)) {
        oldest = doc.target.width;
    }
    assert_eq!(oldest, 5);
}
