//! Undo and redo of document states.
use vstd::prelude::*;

use crate::model::{Document, DocumentView};

verus! {

/// The undo and redo stacks of an editor, with a bound on how many states
/// the undo stack keeps.
pub struct History {
    undo: Vec<Document>,
    redo: Vec<Document>,
    limit: usize,
}

/// The mathematical value of a history: both stacks, top last.
pub struct HistoryView {
    pub undo: Seq<DocumentView>,
    pub redo: Seq<DocumentView>,
    pub limit: nat,
}

pub open spec fn doc_views(s: Seq<Document>) -> Seq<DocumentView> {
    s.map_values(|d: Document| d@)
}

impl View for History {
    type V = HistoryView;

    closed spec fn view(&self) -> HistoryView {
        HistoryView { undo: doc_views(self.undo@), redo: doc_views(self.redo@), limit: self.limit as nat }
    }
}

/// How many undo states a new history keeps.
pub const HISTORY_LIMIT: usize = 100;

/// The history after saving `d`: `d` goes on top of the undo stack, the redo
/// stack empties, and the oldest undo state drops once the bound is passed.
pub open spec fn spec_save(h: HistoryView, d: DocumentView) -> HistoryView {
    let pushed = h.undo.push(d);
    HistoryView {
        undo: if pushed.len() > h.limit { pushed.drop_first() } else { pushed },
        redo: Seq::empty(),
        limit: h.limit,
    }
}

/// Undo with current state `c`: the top undo state comes back and `c` goes on
/// the redo stack; with nothing to undo, nothing changes.
pub open spec fn spec_undo(h: HistoryView, c: DocumentView) -> (HistoryView, Option<DocumentView>) {
    if h.undo.len() == 0 {
        (h, None)
    } else {
        (HistoryView { undo: h.undo.drop_last(), redo: h.redo.push(c), limit: h.limit }, Some(h.undo.last()))
    }
}

/// Redo with current state `c`: the top redo state comes back and `c` goes on
/// the undo stack; with nothing to redo, nothing changes.
pub open spec fn spec_redo(h: HistoryView, c: DocumentView) -> (HistoryView, Option<DocumentView>) {
    if h.redo.len() == 0 {
        (h, None)
    } else {
        (HistoryView { undo: h.undo.push(c), redo: h.redo.drop_last(), limit: h.limit }, Some(h.redo.last()))
    }
}

/// A history never holds more states than its bound.
pub open spec fn history_bounded(h: HistoryView) -> bool {
    h.undo.len() + h.redo.len() <= h.limit
}

impl Default for History {
    fn default() -> (h: Self)
        ensures
            h@.undo == Seq::<DocumentView>::empty(),
            h@.redo == Seq::<DocumentView>::empty(),
            h@.limit == HISTORY_LIMIT,
            h.well_formed(),
    {
        let h = History { undo: Vec::new(), redo: Vec::new(), limit: HISTORY_LIMIT };
        assert(h@.undo =~= Seq::<DocumentView>::empty());
        assert(h@.redo =~= Seq::<DocumentView>::empty());
        h
    }
}

impl History {
    /// Whether the history keeps its bound.
    pub closed spec fn well_formed(&self) -> bool {
        history_bounded(self@) && self.limit >= 1
    }

    /// Records `document` as the state to come back to.
    pub fn save(&mut self, document: &Document)
        requires
            old(self).well_formed(),
        ensures
            final(self)@ == spec_save(old(self)@, document@),
            final(self).well_formed(),
    {
        let ghost before = self@;
        let copy = document.clone();
        self.undo.push(copy);
        self.redo.clear();
        if self.undo.len() > self.limit {
            self.undo.remove(0);
        }
        proof {
            let pushed = before.undo.push(document@);
            if pushed.len() > before.limit {
                assert(self@.undo =~= pushed.drop_first());
            } else {
                assert(self@.undo =~= pushed);
            }
            assert(self@.redo =~= Seq::<DocumentView>::empty());
        }
    }

    /// Steps back: hands out the last saved state and keeps `current` for redo.
    pub fn undo(&mut self, current: &Document) -> (previous: Option<Document>)
        requires
            old(self).well_formed(),
        ensures
            final(self)@ == spec_undo(old(self)@, current@).0,
            previous.is_some() == spec_undo(old(self)@, current@).1.is_some(),
            previous matches Some(p) ==> spec_undo(old(self)@, current@).1 == Some(p@),
            final(self).well_formed(),
    {
        let ghost before = self@;
        match self.undo.pop() {
            None => {
                assert(before.undo.len() == 0);
                None
            },
            Some(previous) => {
                self.redo.push(current.clone());
                proof {
                    assert(self@.undo =~= before.undo.drop_last());
                    assert(self@.redo =~= before.redo.push(current@));
                }
                Some(previous)
            },
        }
    }

    /// Steps forward: hands out the last undone state and keeps `current` for undo.
    pub fn redo(&mut self, current: &Document) -> (next: Option<Document>)
        requires
            old(self).well_formed(),
        ensures
            final(self)@ == spec_redo(old(self)@, current@).0,
            next.is_some() == spec_redo(old(self)@, current@).1.is_some(),
            next matches Some(n) ==> spec_redo(old(self)@, current@).1 == Some(n@),
            final(self).well_formed(),
    {
        let ghost before = self@;
        match self.redo.pop() {
            None => {
                assert(before.redo.len() == 0);
                None
            },
            Some(next) => {
                self.undo.push(current.clone());
                proof {
                    assert(self@.redo =~= before.redo.drop_last());
                    assert(self@.undo =~= before.undo.push(current@));
                }
                Some(next)
            },
        }
    }

    /// How many states can be undone.
    pub fn undo_len(&self) -> (n: usize)
        ensures
            n == self@.undo.len(),
    {
        self.undo.len()
    }

    /// How many states can be redone.
    pub fn redo_len(&self) -> (n: usize)
        ensures
            n == self@.redo.len(),
    {
        self.redo.len()
    }
}

/// Undoing right after a save hands back the saved document.
pub proof fn law_undo_after_save(h: HistoryView, d: DocumentView, c: DocumentView)
    requires
        h.limit >= 1,
    ensures
        spec_undo(spec_save(h, d), c).1 == Some(d),
{
    let s = spec_save(h, d);
    let pushed = h.undo.push(d);
    if pushed.len() > h.limit {
        assert(s.undo.last() == d);
    }
}

/// Redoing right after an undo hands back the document the undo replaced,
/// and restores the undo stack.
pub proof fn law_redo_after_undo(h: HistoryView, c: DocumentView, p: DocumentView)
    requires
        h.undo.len() > 0,
    ensures
        spec_redo(spec_undo(h, c).0, p).1 == Some(c),
        spec_redo(spec_undo(h, c).0, p).0.undo == h.undo.drop_last().push(p),
        spec_redo(spec_undo(h, c).0, p).0.redo == h.redo,
{
    assert(h.redo.push(c).drop_last() =~= h.redo);
}

/// After a save there is nothing to redo.
pub proof fn law_save_clears_redo(h: HistoryView, d: DocumentView, c: DocumentView)
    ensures
        spec_redo(spec_save(h, d), c).1 is None,
        spec_redo(spec_save(h, d), c).0 == spec_save(h, d),
{
}

/// Saving, undoing and redoing keep a history within its bound.
pub proof fn law_history_stays_bounded(h: HistoryView, d: DocumentView, c: DocumentView)
    requires
        history_bounded(h),
        h.limit >= 1,
    ensures
        history_bounded(spec_save(h, d)),
        history_bounded(spec_undo(h, c).0),
        history_bounded(spec_redo(h, c).0),
{
}

/// With nothing saved, undo hands back nothing and changes nothing.
pub proof fn law_undo_empty(h: HistoryView, c: DocumentView)
    requires
        h.undo.len() == 0,
    ensures
        spec_undo(h, c) == (h, None::<DocumentView>),
{
}

} // verus!
