//! The editing state of the drawing editor and the operations on it: moving
//! shapes and control points, selecting, deleting, duplicating, reordering,
//! adding shapes from clicked points, style changes, undo and redo, and the
//! resolution and new-document dialogs.
//!
//! Moves are in whole document pixels and add the offset to every point; a
//! move whose sum would leave the `i32` range is refused.
use vstd::prelude::*;

use crate::history::{History, HistoryView, spec_save, spec_undo, spec_redo};
use crate::raster::{spec_kind_of, Kind};
use crate::model::{
    Document, DocumentView, Layer, LayerView, ObjectView, Point, Style, VectorObject, COORD_LIMIT,
    object_view, object_views, lemma_object_views_all, lemma_object_views_len,
};

verus! {

// ---------------------------------------------------------------------------
// Moving shapes
// ---------------------------------------------------------------------------

/// A point moved by `d`: the sum, coordinate by coordinate.
pub open spec fn moved_point(p: Point, d: Point) -> Point {
    [(p[0] + d[0]) as i32, (p[1] + d[1]) as i32]
}

/// Whether `p + d` has coordinates that an `i32` holds.
pub open spec fn point_move_fits(p: Point, d: Point) -> bool {
    &&& i32::MIN <= p[0] + d[0] <= i32::MAX
    &&& i32::MIN <= p[1] + d[1] <= i32::MAX
}

/// Whether every point of `o` and of its descendants can be moved by `d`
/// with coordinates that an `i32` holds.
pub open spec fn object_move_fits(o: ObjectView, d: Point) -> bool
    decreases o,
{
    &&& forall|i: int| 0 <= i < o.points.len() ==> point_move_fits(#[trigger] o.points[i], d)
    &&& forall|i: int| 0 <= i < o.children.len() ==> object_move_fits(#[trigger] o.children[i], d)
}

/// Points moved by `d`.
pub open spec fn moved_points(points: Seq<Point>, d: Point) -> Seq<Point> {
    points.map_values(|p: Point| moved_point(p, d))
}

/// An object with its points and the points of all its descendants moved by `d`.
pub open spec fn moved_object(o: ObjectView, d: Point) -> ObjectView
    decreases o,
{
    ObjectView { points: moved_points(o.points, d), children: moved_objects(o.children, d), ..o }
}

/// Each object of a sequence moved by `d`.
pub open spec fn moved_objects(s: Seq<ObjectView>, d: Point) -> Seq<ObjectView>
    decreases s,
{
    if s.len() == 0 {
        Seq::empty()
    } else {
        moved_objects(s.drop_last(), d).push(moved_object(s.last(), d))
    }
}

/// The length and the elements of a sequence of moved objects.
pub proof fn lemma_moved_objects(s: Seq<ObjectView>, d: Point)
    ensures
        moved_objects(s, d).len() == s.len(),
        forall|i: int| 0 <= i < s.len() ==> #[trigger] moved_objects(s, d)[i] == moved_object(s[i], d),
    decreases s.len(),
{
    if s.len() > 0 {
        lemma_moved_objects(s.drop_last(), d);
    }
}

fn move_point(p: Point, delta: Point) -> (q: Point)
    requires
        point_move_fits(p, delta),
    ensures
        q == moved_point(p, delta),
        q[0] == p[0] + delta[0],
        q[1] == p[1] + delta[1],
{
    [p[0] + delta[0], p[1] + delta[1]]
}

fn point_move_fits_check(p: Point, delta: Point) -> (ok: bool)
    ensures
        ok == point_move_fits(p, delta),
{
    let x = p[0] as i64 + delta[0] as i64;
    let y = p[1] as i64 + delta[1] as i64;
    i32::MIN as i64 <= x && x <= i32::MAX as i64 && i32::MIN as i64 <= y && y <= i32::MAX as i64
}

/// Whether every point of the object and of its descendants can be moved by
/// `delta` with coordinates that an `i32` holds.
pub fn move_fits(object: &VectorObject, delta: Point) -> (ok: bool)
    ensures
        ok == object_move_fits(object@, delta),
    decreases object,
{
    let mut i: usize = 0;
    while i < object.points.len()
        invariant
            i <= object.points.len(),
            forall|k: int| 0 <= k < i ==> point_move_fits(#[trigger] object.points@[k], delta),
        decreases object.points.len() - i,
    {
        if !point_move_fits_check(object.points[i], delta) {
            proof {
                assert(object@.points[i as int] == object.points@[i as int]);
            }
            return false;
        }
        i += 1;
    }
    proof {
        lemma_object_views_all(object.children@);
        assert(forall|k: int| 0 <= k < object@.points.len() ==> #[trigger] object@.points[k] == object.points@[k]);
    }
    let mut j: usize = 0;
    while j < object.children.len()
        invariant
            j <= object.children.len(),
            object_views(object.children@).len() == object.children.len(),
            forall|k: int| 0 <= k < object.children.len() ==> #[trigger] object_views(object.children@)[k] == object_view(object.children@[k]),
            forall|k: int| 0 <= k < object@.points.len() ==> point_move_fits(#[trigger] object@.points[k], delta),
            forall|k: int| 0 <= k < j ==> object_move_fits(#[trigger] object@.children[k], delta),
        decreases object.children.len() - j,
    {
        proof {
            assert(object_views(object.children@)[j as int] == object_view(object.children@[j as int]));
        }
        if !move_fits(&object.children[j], delta) {
            proof {
                assert(!object_move_fits(object@.children[j as int], delta));
            }
            return false;
        }
        j += 1;
    }
    true
}

/// Moves every point of an object, and of all its descendants, by `delta`.
pub fn move_object(object: &mut VectorObject, delta: Point)
    requires
        object_move_fits(old(object)@, delta),
    ensures
        final(object)@ == moved_object(old(object)@, delta),
    decreases *old(object),
{
    let ghost start_obj = *object;
    let ghost start = object@;
    let ghost start_children = object.children@;
    let n = object.points.len();
    let mut i: usize = 0;
    while i < n
        invariant
            n == object.points.len(),
            i <= n,
            object.children@ == start_children,
            object.kind@ == start.kind,
            object.closed == start.closed,
            object.style == start.style,
            object.transform@ == start.transform,
            object.visible == start.visible,
            start.points.len() == n,
            object_move_fits(start, delta),
            forall|k: int| 0 <= k < i ==> #[trigger] object.points@[k] == moved_point(start.points[k], delta),
            forall|k: int| i <= k < n ==> #[trigger] object.points@[k] == start.points[k],
        decreases n - i,
    {
        proof {
            assert(point_move_fits(start.points[i as int], delta));
        }
        let q = move_point(object.points[i], delta);
        object.points.set(i, q);
        i += 1;
    }
    proof {
        assert(object.points@ =~= moved_points(start.points, delta));
        lemma_object_views_all(start_children);
    }
    let m = object.children.len();
    let mut j: usize = 0;
    while j < m
        invariant
            m == object.children.len(),
            j <= m,
            start_children.len() == m,
            start_obj == *old(object),
            start_children == start_obj.children@,
            object.points@ == moved_points(start.points, delta),
            object.kind@ == start.kind,
            object.closed == start.closed,
            object.style == start.style,
            object.transform@ == start.transform,
            object.visible == start.visible,
            object_move_fits(start, delta),
            start.children == object_views(start_children),
            object_views(start_children).len() == m,
            forall|k: int| 0 <= k < m ==> #[trigger] object_views(start_children)[k] == object_view(start_children[k]),
            forall|k: int| 0 <= k < j ==> object_view(#[trigger] object.children@[k]) == moved_object(start.children[k], delta),
            forall|k: int| j <= k < m ==> #[trigger] object.children@[k] == start_children[k],
        decreases m - j,
    {
        proof {
            assert(object_views(start_children)[j as int] == object_view(start_children[j as int]));
            assert(object_move_fits(start.children[j as int], delta));
            assert(decreases_to!(start_obj => start_obj.children));
            assert(decreases_to!(start_obj.children => start_obj.children@));
            assert(decreases_to!(start_obj.children@ => start_obj.children@[j as int]));
        }
        move_object(&mut object.children[j], delta);
        j += 1;
    }
    proof {
        lemma_object_views_all(object.children@);
        lemma_moved_objects(start.children, delta);
        assert(object_views(object.children@) =~= moved_objects(start.children, delta));
        assert(object@ == moved_object(start, delta));
    }
}


// ---------------------------------------------------------------------------
// The editing state
// ---------------------------------------------------------------------------

/// The document being edited with its history, the tool and style that new
/// shapes get, the clicked points of the shape being drawn, the selection,
/// the status line and the state of the resolution and new-document dialogs.
pub struct DotStrokeApp {
    pub doc: Document,
    pub history: History,
    pub tool: String,
    pub color: String,
    pub blend: String,
    pub width: i32,
    pub radius: i32,
    pub dither_pattern: String,
    /// Points clicked for the shape being drawn.
    pub pending: Vec<Point>,
    /// The selected object, as (layer, object) indices.
    pub selected: Option<(usize, usize)>,
    /// Indices of the selected objects of the current layer.
    pub selected_objects: Vec<usize>,
    /// The selected control point of the selected object.
    pub selected_point: Option<usize>,
    pub current_layer: usize,
    pub status: String,
    pub resolution_width: i32,
    pub resolution_height: i32,
    pub resolution_dialog: bool,
    pub new_width: String,
    pub new_height: String,
    pub new_dialog: bool,
}

/// The mathematical value of the editing state.
pub struct AppView {
    pub doc: DocumentView,
    pub history: HistoryView,
    pub tool: Seq<char>,
    pub color: Seq<char>,
    pub blend: Seq<char>,
    pub width: i32,
    pub radius: i32,
    pub dither_pattern: Seq<char>,
    pub pending: Seq<Point>,
    pub selected: Option<(usize, usize)>,
    pub selected_objects: Seq<usize>,
    pub selected_point: Option<usize>,
    pub current_layer: usize,
    pub status: Seq<char>,
    pub resolution_width: i32,
    pub resolution_height: i32,
    pub resolution_dialog: bool,
    pub new_width: Seq<char>,
    pub new_height: Seq<char>,
    pub new_dialog: bool,
}

impl View for DotStrokeApp {
    type V = AppView;

    open spec fn view(&self) -> AppView {
        AppView {
            doc: self.doc@,
            history: self.history@,
            tool: self.tool@,
            color: self.color@,
            blend: self.blend@,
            width: self.width,
            radius: self.radius,
            dither_pattern: self.dither_pattern@,
            pending: self.pending@,
            selected: self.selected,
            selected_objects: self.selected_objects@,
            selected_point: self.selected_point,
            current_layer: self.current_layer,
            status: self.status@,
            resolution_width: self.resolution_width,
            resolution_height: self.resolution_height,
            resolution_dialog: self.resolution_dialog,
            new_width: self.new_width@,
            new_height: self.new_height@,
            new_dialog: self.new_dialog,
        }
    }
}

/// The document with the objects of layer `layer` replaced by `objects`.
pub open spec fn with_objects(doc: DocumentView, layer: int, objects: Seq<ObjectView>) -> DocumentView {
    DocumentView {
        layers: doc.layers.update(layer, LayerView { objects: objects, ..doc.layers[layer] }),
        ..doc
    }
}

/// The objects of layer `layer`, or none where there is no such layer.
pub open spec fn layer_objects(doc: DocumentView, layer: int) -> Seq<ObjectView> {
    if 0 <= layer < doc.layers.len() {
        doc.layers[layer].objects
    } else {
        Seq::empty()
    }
}

/// The state with the history after saving the current document.
pub open spec fn saved(a: AppView) -> AppView {
    AppView { history: spec_save(a.history, a.doc), ..a }
}

/// The layer to stay on once the document has `layers` layers.
pub open spec fn clamped_layer(current: usize, layers: nat) -> usize {
    let last: int = if layers == 0 { 0 } else { layers - 1 };
    if current <= last {
        current
    } else {
        last as usize
    }
}

impl DotStrokeApp {
    /// What every operation needs and keeps.
    pub open spec fn inv(&self) -> bool {
        self.history.well_formed()
    }

    /// Records the current document in the history.
    pub fn save_history(&mut self)
        requires
            old(self).inv(),
        ensures
            final(self).inv(),
            final(self)@ == saved(old(self)@),
            final(self).doc == old(self).doc,
    {
        self.history.save(&self.doc);
    }

    /// Steps the document back to the last saved state, if any; the shape
    /// being drawn and the selected object and point are dropped.
    pub fn undo_document(&mut self)
        requires
            old(self).inv(),
        ensures
            final(self).inv(),
            ({
                let (h, previous) = spec_undo(old(self)@.history, old(self)@.doc);
                match previous {
                    None => final(self)@ == old(self)@,
                    Some(p) => final(self)@ == (AppView {
                        doc: p,
                        history: h,
                        pending: Seq::empty(),
                        selected: None,
                        selected_point: None,
                        current_layer: clamped_layer(old(self).current_layer, p.layers.len()),
                        status: "Undo"@,
                        ..old(self)@
                    }),
                }
            }),
    {
        if let Some(previous) = self.history.undo(&self.doc) {
            self.doc = previous;
            self.pending.clear();
            self.selected = None;
            self.selected_point = None;
            let last = if self.doc.layers.len() == 0 { 0 } else { self.doc.layers.len() - 1 };
            if self.current_layer > last {
                self.current_layer = last;
            }
            self.status = String::from_str("Undo");
            proof {
                assert(self.pending@ =~= Seq::<Point>::empty());
            }
        }
    }

    /// Steps the document forward to the last undone state, if any; the shape
    /// being drawn and the selected object and point are dropped.
    pub fn redo_document(&mut self)
        requires
            old(self).inv(),
        ensures
            final(self).inv(),
            ({
                let (h, next) = spec_redo(old(self)@.history, old(self)@.doc);
                match next {
                    None => final(self)@ == old(self)@,
                    Some(n) => final(self)@ == (AppView {
                        doc: n,
                        history: h,
                        pending: Seq::empty(),
                        selected: None,
                        selected_point: None,
                        current_layer: clamped_layer(old(self).current_layer, n.layers.len()),
                        status: "Redo"@,
                        ..old(self)@
                    }),
                }
            }),
    {
        if let Some(next) = self.history.redo(&self.doc) {
            self.doc = next;
            self.pending.clear();
            self.selected = None;
            self.selected_point = None;
            let last = if self.doc.layers.len() == 0 { 0 } else { self.doc.layers.len() - 1 };
            if self.current_layer > last {
                self.current_layer = last;
            }
            self.status = String::from_str("Redo");
            proof {
                assert(self.pending@ =~= Seq::<Point>::empty());
            }
        }
    }
}


/// The document with object `o` of layer `l` replaced by `obj`.
pub open spec fn with_object(doc: DocumentView, l: int, o: int, obj: ObjectView) -> DocumentView {
    with_objects(doc, l, doc.layers[l].objects.update(o, obj))
}

proof fn lemma_object_replaced(before: Document, after: Document, l: int, o: int)
    requires
        0 <= l < before.layers.len(),
        0 <= o < before.layers@[l].objects.len(),
        after == (Document { layers: after.layers, ..before }),
        after.layers@ == before.layers@.update(l, Layer { objects: after.layers@[l].objects, ..before.layers@[l] }),
        after.layers@[l].objects@ == before.layers@[l].objects@.update(o, after.layers@[l].objects@[o]),
    ensures
        after@ == with_object(before@, l, o, after.layers@[l].objects@[o]@),
{
    let bo = before.layers@[l].objects@;
    let ao = after.layers@[l].objects@;
    lemma_object_views_all(bo);
    lemma_object_views_all(ao);
    assert(object_views(ao) =~= object_views(bo).update(o, ao[o]@));
    assert(after@.layers =~= with_object(before@, l, o, ao[o]@).layers);
}

/// The indices that a move acts on: the selected objects, or else the
/// selected object where it lies on the current layer.
pub open spec fn selection_indices(a: AppView) -> Seq<usize> {
    if a.selected_objects.len() == 0 {
        match a.selected {
            Some((l, i)) => if l == a.current_layer {
                seq![i]
            } else {
                Seq::empty()
            },
            None => Seq::empty(),
        }
    } else {
        a.selected_objects
    }
}

/// Objects after moving, in turn, the object at each index that exists and
/// whose move keeps every coordinate within the `i32` range; an object whose
/// move would leave that range stays where it is.
pub open spec fn move_each(objects: Seq<ObjectView>, indices: Seq<usize>, d: Point) -> Seq<ObjectView>
    decreases indices.len(),
{
    if indices.len() == 0 {
        objects
    } else {
        let prev = move_each(objects, indices.drop_last(), d);
        let k = indices.last() as int;
        if k < prev.len() && object_move_fits(prev[k], d) {
            prev.update(k, moved_object(prev[k], d))
        } else {
            prev
        }
    }
}

proof fn lemma_move_each_len(objects: Seq<ObjectView>, indices: Seq<usize>, d: Point)
    ensures
        move_each(objects, indices, d).len() == objects.len(),
    decreases indices.len(),
{
    if indices.len() > 0 {
        lemma_move_each_len(objects, indices.drop_last(), d);
    }
}

/// The first position of `x` in `s`.
pub open spec fn first_position(s: Seq<usize>, x: usize) -> Option<int>
    decreases s.len(),
{
    if s.len() == 0 {
        None
    } else if s[0] == x {
        Some(0)
    } else {
        match first_position(s.drop_first(), x) {
            Some(i) => Some(i + 1),
            None => None,
        }
    }
}

proof fn lemma_first_position(s: Seq<usize>, x: usize)
    ensures
        match first_position(s, x) {
            Some(i) => 0 <= i < s.len() && s[i] == x && forall|j: int| 0 <= j < i ==> s[j] != x,
            None => forall|j: int| 0 <= j < s.len() ==> s[j] != x,
        },
    decreases s.len(),
{
    if s.len() > 0 {
        lemma_first_position(s.drop_first(), x);
        if s[0] != x {
            match first_position(s.drop_first(), x) {
                Some(i) => {
                    assert forall|j: int| 0 <= j < i + 1 implies s[j] != x by {
                        if j > 0 {
                            assert(s[j] == s.drop_first()[j - 1]);
                        }
                    }
                },
                None => {
                    assert forall|j: int| 0 <= j < s.len() implies s[j] != x by {
                        if j > 0 {
                            assert(s[j] == s.drop_first()[j - 1]);
                        }
                    }
                },
            }
        }
    }
}

/// The selection after toggling `x`: removed where it is selected, added last
/// where it is not.
pub open spec fn toggled(base: Seq<usize>, x: usize) -> Seq<usize> {
    match first_position(base, x) {
        Some(i) => base.remove(i),
        None => base.push(x),
    }
}

/// Toggling an index that is not selected, and then toggling it again,
/// gives back the selection.
pub proof fn law_toggle_twice_restores(base: Seq<usize>, x: usize)
    requires
        !base.contains(x),
    ensures
        toggled(toggled(base, x), x) == base,
{
    lemma_first_position(base, x);
    assert forall|j: int| 0 <= j < base.len() implies base[j] != x by {
        if base[j] == x {
            assert(base.contains(x));
        }
    }
    let pushed = base.push(x);
    lemma_first_position(pushed, x);
    match first_position(pushed, x) {
        Some(i) => {
            if i < base.len() {
                assert(pushed[i] == base[i]);
            }
            assert(i == base.len());
            assert(pushed.remove(i) =~= base);
        },
        None => {
            assert(pushed[base.len() as int] == x);
        },
    }
}

/// The indices from `a` to `b`, both included, in increasing order.
pub open spec fn index_range(a: usize, b: usize) -> Seq<usize> {
    let start = if a <= b { a } else { b };
    let end = if a <= b { b } else { a };
    Seq::new((end - start + 1) as nat, |k: int| (start + k) as usize)
}

impl DotStrokeApp {
    /// Whether more than one object is selected.
    pub fn has_multiple_selected_objects(&self) -> (multiple: bool)
        ensures
            multiple == (self.selected_objects@.len() > 1),
    {
        self.selected_objects.len() > 1
    }

    /// Selects object `object_index` of the current layer alone.
    pub fn select_single_object(&mut self, object_index: usize)
        ensures
            final(self)@ == (AppView {
                selected: Some((old(self).current_layer, object_index)),
                selected_objects: seq![object_index],
                selected_point: None,
                ..old(self)@
            }),
    {
        self.selected = Some((self.current_layer, object_index));
        self.selected_objects.clear();
        self.selected_objects.push(object_index);
        self.selected_point = None;
        proof {
            assert(self.selected_objects@ =~= seq![object_index]);
        }
    }

    /// Adds object `object_index` to the selection, or takes it out where it
    /// is selected; the last selected object becomes the selected object.
    pub fn toggle_object_selection(&mut self, object_index: usize)
        ensures
            ({
                let t = toggled(selection_indices(old(self)@), object_index);
                final(self)@ == (AppView {
                    selected_objects: t,
                    selected: if t.len() == 0 {
                        None
                    } else {
                        Some((old(self).current_layer, t.last()))
                    },
                    selected_point: None,
                    ..old(self)@
                })
            }),
    {
        if self.selected_objects.len() == 0 {
            if let Some((layer_index, selected_index)) = self.selected {
                if layer_index == self.current_layer {
                    self.selected_objects.push(selected_index);
                }
            }
        }
        proof {
            assert(self.selected_objects@ =~= selection_indices(old(self)@));
        }
        let ghost base = self.selected_objects@;
        let mut position: usize = 0;
        let mut found = false;
        while position < self.selected_objects.len()
            invariant_except_break
                self.selected_objects@ == base,
                position <= base.len(),
                !found,
                forall|j: int| 0 <= j < position ==> base[j] != object_index,
            ensures
                self.selected_objects@ == base,
                found ==> position < base.len() && base[position as int] == object_index,
                found ==> forall|j: int| 0 <= j < position ==> base[j] != object_index,
                !found ==> forall|j: int| 0 <= j < base.len() ==> base[j] != object_index,
            decreases base.len() - position,
        {
            if self.selected_objects[position] == object_index {
                found = true;
                break;
            }
            position += 1;
        }
        proof {
            lemma_first_position(base, object_index);
            match first_position(base, object_index) {
                Some(i) => {
                    assert(found);
                    assert(i == position);
                },
                None => {
                    assert(!found);
                },
            }
        }
        if found {
            self.selected_objects.remove(position);
        } else {
            self.selected_objects.push(object_index);
        }
        if self.selected_objects.len() == 0 {
            self.selected = None;
        } else {
            let last = self.selected_objects[self.selected_objects.len() - 1];
            self.selected = Some((self.current_layer, last));
        }
        self.selected_point = None;
    }

    /// Selects the objects from the first selected one (or the selected
    /// object) to `object_index`; with nothing selected, selects that object
    /// alone.
    pub fn select_object_range(&mut self, object_index: usize)
        ensures
            ({
                let anchor: Option<usize> = if old(self).selected_objects@.len() > 0 {
                    Some(old(self).selected_objects@[0])
                } else {
                    match old(self).selected {
                        Some((l, i)) => Some(i),
                        None => None,
                    }
                };
                match anchor {
                    None => final(self)@ == (AppView {
                        selected: Some((old(self).current_layer, object_index)),
                        selected_objects: seq![object_index],
                        selected_point: None,
                        ..old(self)@
                    }),
                    Some(a) => final(self)@ == (AppView {
                        selected: Some((old(self).current_layer, object_index)),
                        selected_objects: index_range(a, object_index),
                        selected_point: None,
                        ..old(self)@
                    }),
                }
            }),
    {
        let anchor = if self.selected_objects.len() > 0 {
            Some(self.selected_objects[0])
        } else {
            match self.selected {
                Some((_, index)) => Some(index),
                None => None,
            }
        };
        match anchor {
            None => {
                self.select_single_object(object_index);
            },
            Some(a) => {
                let start = if a <= object_index { a } else { object_index };
                let end = if a <= object_index { object_index } else { a };
                let mut range: Vec<usize> = Vec::new();
                let mut k = start;
                loop
                    invariant_except_break
                        start <= k <= end,
                        range@ =~= Seq::new((k - start) as nat, |j: int| (start + j) as usize),
                    ensures
                        range@ =~= Seq::new((end - start + 1) as nat, |j: int| (start + j) as usize),
                    decreases end - k,
                {
                    range.push(k);
                    if k == end {
                        break;
                    }
                    k = k + 1;
                }
                self.selected_objects = range;
                self.selected = Some((self.current_layer, object_index));
                self.selected_point = None;
                proof {
                    assert(self.selected_objects@ =~= index_range(a, object_index));
                }
            },
        }
    }

    /// Moves the selected objects of the current layer by `delta`. An object
    /// that the move would carry out of the `i32` range stays where it is.
    pub fn move_selected(&mut self, delta: Point)
        ensures
            ({
                let l = old(self).current_layer as int;
                if l < old(self)@.doc.layers.len() {
                    final(self)@ == (AppView {
                        doc: with_objects(old(self)@.doc, l, move_each(old(self)@.doc.layers[l].objects, selection_indices(old(self)@), delta)),
                        ..old(self)@
                    })
                } else {
                    final(self)@ == old(self)@
                }
            }),
    {
        let layer_index = self.current_layer;
        let indices: Vec<usize> = if self.selected_objects.len() == 0 {
            let mut v: Vec<usize> = Vec::new();
            if let Some((selected_layer, index)) = self.selected {
                if selected_layer == layer_index {
                    v.push(index);
                }
            }
            v
        } else {
            self.selected_objects.clone()
        };
        proof {
            assert(indices@ =~= selection_indices(old(self)@));
        }
        if layer_index >= self.doc.layers.len() {
            return;
        }
        let ghost l = layer_index as int;
        let ghost objs = old(self)@.doc.layers[l].objects;
        let mut t: usize = 0;
        proof {
            assert(indices@.take(0) =~= Seq::<usize>::empty());
            lemma_object_views_all(self.doc.layers@[l].objects@);
            assert(self.doc@.layers =~= with_objects(old(self)@.doc, l, objs).layers);
            assert(self@ == (AppView { doc: with_objects(old(self)@.doc, l, objs), ..old(self)@ }));
        }
        while t < indices.len()
            invariant
                t <= indices.len(),
                layer_index == old(self).current_layer,
                l == layer_index,
                l < self.doc.layers.len(),
                l < old(self)@.doc.layers.len(),
                objs == old(self)@.doc.layers[l].objects,
                indices@ == selection_indices(old(self)@),
                self@ == (AppView {
                    doc: with_objects(old(self)@.doc, l, move_each(objs, indices@.take(t as int), delta)),
                    ..old(self)@
                }),
            decreases indices.len() - t,
        {
            let index = indices[t];
            let ghost prev = move_each(objs, indices@.take(t as int), delta);
            proof {
                assert(indices@.take(t + 1).drop_last() =~= indices@.take(t as int));
                assert(indices@.take(t + 1).last() == index);
                lemma_move_each_len(objs, indices@.take(t as int), delta);
                lemma_object_views_len(self.doc.layers@[l].objects@);
                assert(self.doc@.layers[l].objects == prev);
                lemma_object_views_all(self.doc.layers@[l].objects@);
                if index < prev.len() {
                    assert(prev[index as int] == self.doc.layers@[l].objects@[index as int]@);
                }
            }
            if index < self.doc.layers[layer_index].objects.len()
                && move_fits(&self.doc.layers[layer_index].objects[index], delta) {
                let ghost before = self.doc;
                move_object(&mut self.doc.layers[layer_index].objects[index], delta);
                proof {
                    lemma_object_replaced(before, self.doc, l, index as int);
                    lemma_object_views_all(before.layers@[l].objects@);
                    assert(before@.layers[l].objects[index as int] == before.layers@[l].objects@[index as int]@);
                    assert(self.doc@.layers =~= with_objects(old(self)@.doc, l, move_each(objs, indices@.take(t + 1), delta)).layers);
                }
            }
            t += 1;
        }
        proof {
            assert(indices@.take(t as int) =~= indices@);
        }
    }
}


proof fn lemma_objects_replaced(before: Document, after: Document, l: int)
    requires
        0 <= l < before.layers.len(),
        after == (Document { layers: after.layers, ..before }),
        after.layers@ == before.layers@.update(l, Layer { objects: after.layers@[l].objects, ..before.layers@[l] }),
    ensures
        after@ == with_objects(before@, l, object_views(after.layers@[l].objects@)),
{
    assert(after@.layers =~= with_objects(before@, l, object_views(after.layers@[l].objects@)).layers);
}

/// The index that the object at index `i` has after the object at `from`
/// moved to `to`.
pub open spec fn reorder_index(i: usize, from: usize, to: usize) -> usize {
    if i == from {
        to
    } else if from < to && i > from && i <= to {
        (i - 1) as usize
    } else if to < from && i >= to && i < from {
        (i + 1) as usize
    } else {
        i
    }
}

/// The objects with the one at `from` moved to `to`.
pub open spec fn reordered(objects: Seq<ObjectView>, from: int, to: int) -> Seq<ObjectView> {
    objects.remove(from).insert(to, objects[from])
}

/// Moving an object from `from` to `to` carries the object at every index `i`
/// to index `reorder_index(i, from, to)`, so that a selection remapped this way
/// still holds the same objects.
pub proof fn law_reorder_follows_objects(objects: Seq<ObjectView>, from: usize, to: usize, i: usize)
    requires
        from < objects.len(),
        to < objects.len(),
        i < objects.len(),
    ensures
        reorder_index(i, from, to) < objects.len(),
        reordered(objects, from as int, to as int)[reorder_index(i, from, to) as int] == objects[i as int],
{
}

/// Moving an object back from `to` to `from` restores the order.
pub proof fn law_reorder_undone(objects: Seq<ObjectView>, from: usize, to: usize)
    requires
        from < objects.len(),
        to < objects.len(),
    ensures
        reordered(reordered(objects, from as int, to as int), to as int, from as int) == objects,
{
    assert(reordered(reordered(objects, from as int, to as int), to as int, from as int) =~= objects);
}

impl DotStrokeApp {
    /// Moves control point `point_index` of the selected object by `delta`,
    /// unless the sum would leave the `i32` range.
    pub fn move_selected_point(&mut self, point_index: usize, delta: Point)
        ensures
            match old(self).selected {
                Some((l, o)) => {
                    let objs = layer_objects(old(self)@.doc, l as int);
                    if o < objs.len() && point_index < objs[o as int].points.len()
                        && point_move_fits(objs[o as int].points[point_index as int], delta) {
                        let obj = objs[o as int];
                        final(self)@ == (AppView {
                            doc: with_object(old(self)@.doc, l as int, o as int, ObjectView {
                                points: obj.points.update(point_index as int, moved_point(obj.points[point_index as int], delta)),
                                ..obj
                            }),
                            ..old(self)@
                        })
                    } else {
                        final(self)@ == old(self)@
                    }
                },
                None => final(self)@ == old(self)@,
            },
    {
        if let Some((layer_index, object_index)) = self.selected {
            if layer_index < self.doc.layers.len() && object_index < self.doc.layers[layer_index].objects.len()
                && point_index < self.doc.layers[layer_index].objects[object_index].points.len() {
                let ghost before = self.doc;
                proof {
                    lemma_object_views_all(before.layers@[layer_index as int].objects@);
                }
                let p = self.doc.layers[layer_index].objects[object_index].points[point_index];
                if !point_move_fits_check(p, delta) {
                    proof {
                        assert(before@.layers[layer_index as int].objects[object_index as int].points[point_index as int] == p);
                    }
                    return;
                }
                let q = move_point(p, delta);
                self.doc.layers[layer_index].objects[object_index].points.set(point_index, q);
                proof {
                    lemma_object_replaced(before, self.doc, layer_index as int, object_index as int);
                    let obj = before@.layers[layer_index as int].objects[object_index as int];
                    assert(self.doc.layers@[layer_index as int].objects@[object_index as int]@ == (ObjectView {
                        points: obj.points.update(point_index as int, moved_point(obj.points[point_index as int], delta)),
                        ..obj
                    }));
                }
            } else {
                proof {
                    if layer_index < self.doc.layers.len() {
                        lemma_object_views_len(self.doc.layers@[layer_index as int].objects@);
                        lemma_object_views_all(self.doc.layers@[layer_index as int].objects@);
                    }
                }
            }
        }
    }

    /// Deletes the selected object, recording the document first; the
    /// selection is dropped whether or not there was such an object.
    pub fn delete_selected(&mut self)
        requires
            old(self).inv(),
        ensures
            final(self).inv(),
            match old(self).selected {
                Some((l, o)) => {
                    let objs = layer_objects(old(self)@.doc, l as int);
                    if o < objs.len() {
                        final(self)@ == (AppView {
                            doc: with_objects(old(self)@.doc, l as int, objs.remove(o as int)),
                            history: spec_save(old(self)@.history, old(self)@.doc),
                            selected: None,
                            selected_objects: Seq::empty(),
                            selected_point: None,
                            status: "Vector deleted"@,
                            ..old(self)@
                        })
                    } else {
                        final(self)@ == (AppView { selected: None, ..old(self)@ })
                    }
                },
                None => final(self)@ == old(self)@,
            },
    {
        let selected = self.selected;
        self.selected = None;
        if let Some((layer_index, object_index)) = selected {
            let can_delete = layer_index < self.doc.layers.len()
                && object_index < self.doc.layers[layer_index].objects.len();
            proof {
                if layer_index < self.doc.layers.len() {
                    lemma_object_views_len(self.doc.layers@[layer_index as int].objects@);
                }
            }
            if can_delete {
                self.save_history();
                let ghost before = self.doc;
                self.doc.layers[layer_index].objects.remove(object_index);
                self.selected_objects.clear();
                self.selected_point = None;
                self.status = String::from_str("Vector deleted");
                proof {
                    lemma_objects_replaced(before, self.doc, layer_index as int);
                    let bo = before.layers@[layer_index as int].objects@;
                    let ao = self.doc.layers@[layer_index as int].objects@;
                    lemma_object_views_all(bo);
                    lemma_object_views_all(ao);
                    assert(object_views(ao) =~= object_views(bo).remove(object_index as int));
                    assert(self.selected_objects@ =~= Seq::<usize>::empty());
                }
            }
        }
    }

    /// Inserts a copy of the selected object right after it and selects the
    /// copy, recording the document first.
    pub fn duplicate_selected(&mut self)
        requires
            old(self).inv(),
        ensures
            final(self).inv(),
            match old(self).selected {
                Some((l, o)) => {
                    let objs = layer_objects(old(self)@.doc, l as int);
                    if o < objs.len() {
                        final(self)@ == (AppView {
                            doc: with_objects(old(self)@.doc, l as int, objs.insert(o + 1, objs[o as int])),
                            history: spec_save(old(self)@.history, old(self)@.doc),
                            selected: Some((l, (o + 1) as usize)),
                            selected_objects: seq![(o + 1) as usize],
                            selected_point: None,
                            status: "Vector duplicated"@,
                            ..old(self)@
                        })
                    } else {
                        final(self)@ == old(self)@
                    }
                },
                None => final(self)@ == old(self)@,
            },
    {
        if let Some((layer_index, object_index)) = self.selected {
            proof {
                if layer_index < self.doc.layers.len() {
                    lemma_object_views_len(self.doc.layers@[layer_index as int].objects@);
                }
            }
            if layer_index < self.doc.layers.len() && object_index < self.doc.layers[layer_index].objects.len() {
                let copy = self.doc.layers[layer_index].objects[object_index].clone();
                self.save_history();
                let ghost before = self.doc;
                let new_index = object_index + 1;
                self.doc.layers[layer_index].objects.insert(new_index, copy);
                self.selected = Some((layer_index, new_index));
                self.selected_objects.clear();
                self.selected_objects.push(new_index);
                self.selected_point = None;
                self.status = String::from_str("Vector duplicated");
                proof {
                    lemma_objects_replaced(before, self.doc, layer_index as int);
                    let bo = before.layers@[layer_index as int].objects@;
                    let ao = self.doc.layers@[layer_index as int].objects@;
                    lemma_object_views_all(bo);
                    lemma_object_views_all(ao);
                    assert(object_views(ao) =~= object_views(bo).insert(new_index as int, object_views(bo)[object_index as int]));
                    assert(self.selected_objects@ =~= seq![new_index]);
                }
            }
        }
    }

    /// Moves object `from` of layer `layer_index` to index `to`, recording the
    /// document first; the selection on that layer follows the objects.
    pub fn reorder_vector(&mut self, layer_index: usize, from: usize, to: usize)
        requires
            old(self).inv(),
        ensures
            final(self).inv(),
            ({
                let objs = layer_objects(old(self)@.doc, layer_index as int);
                if from == to || from >= objs.len() || to >= objs.len() {
                    final(self)@ == old(self)@
                } else {
                    let follows = match old(self).selected {
                        Some((sl, si)) => sl == layer_index,
                        None => false,
                    };
                    final(self)@ == (AppView {
                        doc: with_objects(old(self)@.doc, layer_index as int, reordered(objs, from as int, to as int)),
                        history: spec_save(old(self)@.history, old(self)@.doc),
                        selected: match old(self).selected {
                            Some((sl, si)) => if follows {
                                Some((sl, reorder_index(si, from, to)))
                            } else {
                                old(self).selected
                            },
                            None => None,
                        },
                        selected_objects: if follows {
                            old(self)@.selected_objects.map_values(|i: usize| reorder_index(i, from, to))
                        } else {
                            old(self)@.selected_objects
                        },
                        status: "Vector order changed"@,
                        ..old(self)@
                    })
                }
            }),
    {
        let object_count = if layer_index < self.doc.layers.len() {
            self.doc.layers[layer_index].objects.len()
        } else {
            0
        };
        proof {
            if layer_index < self.doc.layers.len() {
                lemma_object_views_len(self.doc.layers@[layer_index as int].objects@);
            }
        }
        if from == to || from >= object_count || to >= object_count {
            return;
        }
        self.save_history();
        let ghost before = self.doc;
        let object = self.doc.layers[layer_index].objects.remove(from);
        let ghost middle = self.doc;
        self.doc.layers[layer_index].objects.insert(to, object);
        proof {
            assert(self.doc.layers@ =~= before.layers@.update(layer_index as int, Layer {
                objects: self.doc.layers@[layer_index as int].objects,
                ..before.layers@[layer_index as int]
            }));
            lemma_objects_replaced(before, self.doc, layer_index as int);
            let bo = before.layers@[layer_index as int].objects@;
            let ao = self.doc.layers@[layer_index as int].objects@;
            lemma_object_views_all(bo);
            lemma_object_views_all(ao);
            assert(object_views(ao) =~= reordered(object_views(bo), from as int, to as int));
        }
        if let Some((selected_layer, selected_index)) = self.selected {
            if selected_layer == layer_index {
                let updated_index = if selected_index == from {
                    to
                } else if from < to && selected_index > from && selected_index <= to {
                    selected_index - 1
                } else if to < from && selected_index >= to && selected_index < from {
                    selected_index + 1
                } else {
                    selected_index
                };
                self.selected = Some((selected_layer, updated_index));
                let mut remapped: Vec<usize> = Vec::new();
                let mut k: usize = 0;
                while k < self.selected_objects.len()
                    invariant
                        k <= self.selected_objects.len(),
                        remapped@.len() == k,
                        forall|j: int| 0 <= j < k ==> #[trigger] remapped@[j] == reorder_index(self.selected_objects@[j], from, to),
                    decreases self.selected_objects.len() - k,
                {
                    let index = self.selected_objects[k];
                    let updated = if index == from {
                        to
                    } else if from < to && index > from && index <= to {
                        index - 1
                    } else if to < from && index >= to && index < from {
                        index + 1
                    } else {
                        index
                    };
                    remapped.push(updated);
                    k += 1;
                }
                proof {
                    assert(remapped@ =~= old(self)@.selected_objects.map_values(|i: usize| reorder_index(i, from, to)));
                }
                self.selected_objects = remapped;
            }
        }
        self.status = String::from_str("Vector order changed");
    }
}


// ---------------------------------------------------------------------------
// Tools and new shapes
// ---------------------------------------------------------------------------

/// The kind of shape that a tool draws.
pub open spec fn tool_kind(tool: Seq<char>) -> Seq<char> {
    if tool == "fill_rect"@ {
        "rect"@
    } else if tool == "fill_round_rect"@ {
        "round_rect"@
    } else if tool == "fill_circle"@ {
        "ellipse"@
    } else if tool == "fill_polygon"@ {
        "polygon"@
    } else {
        tool
    }
}

/// Whether a tool draws filled shapes.
pub open spec fn tool_fill(tool: Seq<char>) -> bool {
    tool == "fill_rect"@ || tool == "fill_round_rect"@ || tool == "fill_circle"@ || tool == "fill_polygon"@
}

/// The name of a tool shown to the user.
pub open spec fn tool_label(tool: Seq<char>) -> Seq<char> {
    if tool == "fill_rect"@ {
        "fill rect"@
    } else if tool == "fill_round_rect"@ {
        "fill round rect"@
    } else if tool == "fill_circle"@ {
        "fill circle"@
    } else if tool == "fill_polygon"@ {
        "fill polygon"@
    } else {
        tool
    }
}

/// How many clicked points a shape of the tool needs.
pub open spec fn points_required(tool: Seq<char>) -> nat {
    if tool_kind(tool) == "polygon"@ {
        3
    } else {
        2
    }
}

/// Whether `o` is the shape that the clicked points of `a` make.
pub open spec fn is_new_shape(o: ObjectView, a: AppView, closed: bool) -> bool {
    &&& o.kind == tool_kind(a.tool)
    &&& o.points == a.pending
    &&& o.closed == closed
    &&& o.style.color@ == a.color
    &&& o.style.blend@ == a.blend
    &&& o.style.width == a.width
    &&& o.style.cap@ == "butt"@
    &&& o.style.fill == tool_fill(a.tool)
    &&& o.style.radius == a.radius
    &&& o.style.dither_pattern@ == a.dither_pattern
    &&& o.transform == "null"@
    &&& o.children == Seq::<ObjectView>::empty()
    &&& o.visible
}

/// `b` is `a` after turning the clicked points into a shape: with enough
/// points, the document is recorded, the shape goes last on the current
/// layer and the clicked points are used up; with too few, nothing changes.
pub open spec fn committed(a: AppView, b: AppView, closed: bool) -> bool {
    if a.pending.len() < points_required(a.tool) {
        b == a
    } else {
        let l = a.current_layer as int;
        let o = b.doc.layers[l].objects.last();
        &&& is_new_shape(o, a, closed)
        &&& b == (AppView {
            doc: with_objects(a.doc, l, a.doc.layers[l].objects.push(o)),
            history: spec_save(a.history, a.doc),
            pending: Seq::empty(),
            status: "Vector added"@,
            ..a
        })
    }
}

/// Tools whose shapes are two corner points.
pub open spec fn is_box_tool(tool: Seq<char>) -> bool {
    tool == "rect"@ || tool == "fill_rect"@ || tool == "round_rect"@ || tool == "fill_round_rect"@
        || tool == "ellipse"@ || tool == "fill_circle"@
}

/// The clicked points after a click at `p` on the canvas.
pub open spec fn clicked_points(tool: Seq<char>, pending: Seq<Point>, p: Point) -> Seq<Point> {
    if tool == "pixel"@ {
        seq![p]
    } else if tool == "line"@ || tool == "polygon"@ || tool == "fill_polygon"@ || tool == "polyline"@
        || tool == "path"@ || is_box_tool(tool) {
        pending.push(p)
    } else {
        pending
    }
}

/// Whether a click turns the clicked points into a shape right away.
pub open spec fn click_commits(tool: Seq<char>, points: Seq<Point>) -> bool {
    tool == "pixel"@ || ((tool == "line"@ || is_box_tool(tool)) && points.len() == 2)
}

impl DotStrokeApp {
    /// The kind of shape the current tool draws.
    pub fn current_tool_kind(&self) -> (kind: &str)
        ensures
            kind@ == tool_kind(self.tool@),
    {
        let tool = self.tool.as_str();
        if crate::text::str_eq(tool, "fill_rect") {
            "rect"
        } else if crate::text::str_eq(tool, "fill_round_rect") {
            "round_rect"
        } else if crate::text::str_eq(tool, "fill_circle") {
            "ellipse"
        } else if crate::text::str_eq(tool, "fill_polygon") {
            "polygon"
        } else {
            tool
        }
    }

    /// Whether the current tool draws filled shapes.
    pub fn current_tool_fill(&self) -> (fill: bool)
        ensures
            fill == tool_fill(self.tool@),
    {
        let tool = self.tool.as_str();
        crate::text::str_eq(tool, "fill_rect") || crate::text::str_eq(tool, "fill_round_rect")
            || crate::text::str_eq(tool, "fill_circle") || crate::text::str_eq(tool, "fill_polygon")
    }

    /// The name of the current tool shown to the user.
    pub fn current_tool_label(&self) -> (label: &str)
        ensures
            label@ == tool_label(self.tool@),
    {
        let tool = self.tool.as_str();
        if crate::text::str_eq(tool, "fill_rect") {
            "fill rect"
        } else if crate::text::str_eq(tool, "fill_round_rect") {
            "fill round rect"
        } else if crate::text::str_eq(tool, "fill_circle") {
            "fill circle"
        } else if crate::text::str_eq(tool, "fill_polygon") {
            "fill polygon"
        } else {
            tool
        }
    }

    /// Turns the clicked points into a shape of the current tool on the
    /// current layer, where there are enough of them.
    pub fn commit_pending(&mut self, closed: bool)
        requires
            old(self).inv(),
            old(self)@.pending.len() >= points_required(old(self)@.tool) ==> old(self).current_layer < old(self).doc.layers.len(),
        ensures
            final(self).inv(),
            committed(old(self)@, final(self)@, closed),
    {
        let tool_kind = self.current_tool_kind().to_owned();
        let tool_fill = self.current_tool_fill();
        let required: usize = if crate::text::str_eq(tool_kind.as_str(), "polygon") {
            3
        } else {
            2
        };
        if self.pending.len() < required {
            return;
        }
        self.save_history();
        let ghost mid = self@;
        let mut points: Vec<Point> = Vec::new();
        std::mem::swap(&mut points, &mut self.pending);
        let mut style = Style::default();
        style.color = self.color.clone();
        style.blend = self.blend.clone();
        style.width = self.width;
        style.fill = tool_fill;
        style.radius = self.radius;
        style.dither_pattern = self.dither_pattern.clone();
        let mut object = VectorObject::default();
        object.kind = tool_kind;
        object.points = points;
        object.closed = closed;
        object.style = style;
        object.visible = true;
        let ghost new_view = object@;
        let layer = self.current_layer;
        let ghost before = self.doc;
        self.doc.layers[layer].objects.push(object);
        self.status = String::from_str("Vector added");
        proof {
            lemma_objects_replaced(before, self.doc, layer as int);
            let bo = before.layers@[layer as int].objects@;
            let ao = self.doc.layers@[layer as int].objects@;
            lemma_object_views_all(bo);
            lemma_object_views_all(ao);
            assert(object_views(ao) =~= object_views(bo).push(new_view));
            assert(self.pending@ =~= Seq::<Point>::empty());
            assert(self@.doc.layers[layer as int].objects.last() == new_view);
        }
    }

    /// Handles a click at document point `p` with a drawing tool: the point
    /// joins the clicked points, and a shape is made once the tool has what
    /// it needs.
    pub fn canvas_click(&mut self, p: Point)
        requires
            old(self).inv(),
            click_commits(old(self)@.tool, clicked_points(old(self)@.tool, old(self)@.pending, p))
                && clicked_points(old(self)@.tool, old(self)@.pending, p).len() >= points_required(old(self)@.tool)
                ==> old(self).current_layer < old(self).doc.layers.len(),
        ensures
            final(self).inv(),
            ({
                let points = clicked_points(old(self)@.tool, old(self)@.pending, p);
                let mid = AppView { pending: points, ..old(self)@ };
                if click_commits(old(self)@.tool, points) {
                    committed(mid, final(self)@, false)
                } else {
                    final(self)@ == mid
                }
            }),
    {
        let tool = self.tool.as_str();
        let is_pixel = crate::text::str_eq(tool, "pixel");
        let is_line = crate::text::str_eq(tool, "line");
        let is_box = crate::text::str_eq(tool, "rect") || crate::text::str_eq(tool, "fill_rect")
            || crate::text::str_eq(tool, "round_rect") || crate::text::str_eq(tool, "fill_round_rect")
            || crate::text::str_eq(tool, "ellipse") || crate::text::str_eq(tool, "fill_circle");
        let is_open = crate::text::str_eq(tool, "polygon") || crate::text::str_eq(tool, "fill_polygon")
            || crate::text::str_eq(tool, "polyline") || crate::text::str_eq(tool, "path");
        if is_pixel {
            self.pending.clear();
            self.pending.push(p);
            proof {
                assert(self.pending@ =~= seq![p]);
            }
            self.commit_pending(false);
        } else if is_line || is_box {
            self.pending.push(p);
            if self.pending.len() == 2 {
                self.commit_pending(false);
            }
        } else if is_open {
            self.pending.push(p);
        }
    }

    /// Turns the clicked points into a shape, closed for polygons.
    pub fn finalize_pending(&mut self)
        requires
            old(self).inv(),
            old(self)@.pending.len() >= points_required(old(self)@.tool) ==> old(self).current_layer < old(self).doc.layers.len(),
        ensures
            final(self).inv(),
            committed(old(self)@, final(self)@, tool_kind(old(self)@.tool) == "polygon"@),
    {
        let closed = crate::text::str_eq(self.current_tool_kind(), "polygon");
        self.commit_pending(closed);
    }
}


// ---------------------------------------------------------------------------
// The style panel and the object list
// ---------------------------------------------------------------------------

/// `b` is `a` after a change in the style panel: with the select tool and a
/// selected object, the document is recorded and, where the object exists,
/// its style becomes one that `restyle` accepts and the status says `status`;
/// without both, nothing more changes.
pub open spec fn style_changed(a: AppView, b: AppView, restyle: spec_fn(Style, Style) -> bool, status: Seq<char>) -> bool {
    match a.selected {
        Some((l, o)) => if a.tool == "select"@ {
            let objs = layer_objects(a.doc, l as int);
            if o < objs.len() {
                let obj = objs[o as int];
                let new_style = b.doc.layers[l as int].objects[o as int].style;
                &&& restyle(obj.style, new_style)
                &&& b == (AppView {
                    doc: with_object(a.doc, l as int, o as int, ObjectView { style: new_style, ..obj }),
                    history: spec_save(a.history, a.doc),
                    status: status,
                    ..a
                })
            } else {
                b == (AppView { history: spec_save(a.history, a.doc), ..a })
            }
        } else {
            b == a
        },
        None => b == a,
    }
}

/// The object that the selection names, if it exists.
pub open spec fn selected_object(a: AppView) -> Option<ObjectView> {
    match a.selected {
        Some((l, o)) => {
            let objs = layer_objects(a.doc, l as int);
            if o < objs.len() {
                Some(objs[o as int])
            } else {
                None
            }
        },
        None => None,
    }
}

/// Points after each edit `(index, point)` in turn, where the index exists.
pub open spec fn edited_points(points: Seq<Point>, edits: Seq<(usize, Point)>) -> Seq<Point>
    decreases edits.len(),
{
    if edits.len() == 0 {
        points
    } else {
        let prev = edited_points(points, edits.drop_last());
        let (i, p) = edits.last();
        if i < prev.len() {
            prev.update(i as int, p)
        } else {
            prev
        }
    }
}

proof fn lemma_edited_points_len(points: Seq<Point>, edits: Seq<(usize, Point)>)
    ensures
        edited_points(points, edits).len() == points.len(),
    decreases edits.len(),
{
    if edits.len() > 0 {
        lemma_edited_points_len(points, edits.drop_last());
    }
}

fn copy_points(points: &Vec<Point>) -> (copy: Vec<Point>)
    ensures
        copy@ == points@,
{
    let mut copy: Vec<Point> = Vec::new();
    let mut i: usize = 0;
    while i < points.len()
        invariant
            i <= points.len(),
            copy@ =~= points@.take(i as int),
        decreases points.len() - i,
    {
        copy.push(points[i]);
        i += 1;
    }
    proof {
        assert(points@.take(i as int) =~= points@);
    }
    copy
}

impl DotStrokeApp {
    /// Whether the selection names an existing object, and its place.
    fn selected_place(&self) -> (place: Option<(usize, usize)>)
        ensures
            match place {
                Some((l, o)) => self.selected == Some((l, o)) && l < self.doc.layers.len()
                    && o < self.doc.layers@[l as int].objects.len()
                    && selected_object(self@) == Some(self@.doc.layers[l as int].objects[o as int]),
                None => selected_object(self@) is None,
            },
    {
        match self.selected {
            Some((l, o)) => {
                proof {
                    if l < self.doc.layers.len() {
                        lemma_object_views_len(self.doc.layers@[l as int].objects@);
                    }
                }
                if l < self.doc.layers.len() && o < self.doc.layers[l].objects.len() {
                    Some((l, o))
                } else {
                    None
                }
            },
            None => None,
        }
    }

    /// Whether the select tool is active.
    fn select_tool(&self) -> (active: bool)
        ensures
            active == (self.tool@ == "select"@),
    {
        crate::text::str_eq(self.tool.as_str(), "select")
    }

    /// Sets the color of new shapes and, with the select tool, of the
    /// selected object.
    pub fn change_color(&mut self, color: &str)
        requires
            old(self).inv(),
        ensures
            final(self).inv(),
            style_changed(
                AppView { color: color@, ..old(self)@ },
                final(self)@,
                (|s: Style, t: Style| t == (Style { color: t.color, ..s }) && t.color@ == color@),
                "Color changed"@,
            ),
    {
        self.color = color.to_owned();
        if self.select_tool() && self.selected.is_some() {
            let place = self.selected_place();
            self.save_history();
            if let Some((l, o)) = place {
                let ghost before = self.doc;
                self.doc.layers[l].objects[o].style.color = color.to_owned();
                self.status = String::from_str("Color changed");
                proof {
                    lemma_object_replaced(before, self.doc, l as int, o as int);
                    lemma_object_views_all(before.layers@[l as int].objects@);
                    lemma_object_views_all(self.doc.layers@[l as int].objects@);
                }
            }
        }
    }

    /// Sets the blend mode of new shapes and, with the select tool, of the
    /// selected object.
    pub fn change_blend(&mut self, blend: &str)
        requires
            old(self).inv(),
        ensures
            final(self).inv(),
            style_changed(
                AppView { blend: blend@, ..old(self)@ },
                final(self)@,
                (|s: Style, t: Style| t == (Style { blend: t.blend, ..s }) && t.blend@ == blend@),
                "Blend mode changed"@,
            ),
    {
        self.blend = blend.to_owned();
        if self.select_tool() && self.selected.is_some() {
            let place = self.selected_place();
            self.save_history();
            if let Some((l, o)) = place {
                let ghost before = self.doc;
                self.doc.layers[l].objects[o].style.blend = blend.to_owned();
                self.status = String::from_str("Blend mode changed");
                proof {
                    lemma_object_replaced(before, self.doc, l as int, o as int);
                    lemma_object_views_all(before.layers@[l as int].objects@);
                    lemma_object_views_all(self.doc.layers@[l as int].objects@);
                }
            }
        }
    }

    /// Sets the dither pattern of new shapes and, with the select tool, of
    /// the selected object.
    pub fn change_dither_pattern(&mut self, dither_pattern: &str)
        requires
            old(self).inv(),
        ensures
            final(self).inv(),
            style_changed(
                AppView { dither_pattern: dither_pattern@, ..old(self)@ },
                final(self)@,
                (|s: Style, t: Style| t == (Style { dither_pattern: t.dither_pattern, ..s }) && t.dither_pattern@ == dither_pattern@),
                "Dither pattern changed"@,
            ),
    {
        self.dither_pattern = dither_pattern.to_owned();
        if self.select_tool() && self.selected.is_some() {
            let place = self.selected_place();
            self.save_history();
            if let Some((l, o)) = place {
                let ghost before = self.doc;
                self.doc.layers[l].objects[o].style.dither_pattern = dither_pattern.to_owned();
                self.status = String::from_str("Dither pattern changed");
                proof {
                    lemma_object_replaced(before, self.doc, l as int, o as int);
                    lemma_object_views_all(before.layers@[l as int].objects@);
                    lemma_object_views_all(self.doc.layers@[l as int].objects@);
                }
            }
        }
    }

    /// Sets the line width of new shapes and, with the select tool, of the
    /// selected object.
    pub fn change_width(&mut self, width: i32)
        requires
            old(self).inv(),
        ensures
            final(self).inv(),
            style_changed(
                AppView { width: width, ..old(self)@ },
                final(self)@,
                (|s: Style, t: Style| t == (Style { width: width, ..s })),
                "Width changed"@,
            ),
    {
        self.width = width;
        if self.select_tool() && self.selected.is_some() {
            let place = self.selected_place();
            self.save_history();
            if let Some((l, o)) = place {
                let ghost before = self.doc;
                self.doc.layers[l].objects[o].style.width = width;
                self.status = String::from_str("Width changed");
                proof {
                    lemma_object_replaced(before, self.doc, l as int, o as int);
                    lemma_object_views_all(before.layers@[l as int].objects@);
                    lemma_object_views_all(self.doc.layers@[l as int].objects@);
                }
            }
        }
    }

    /// Sets the corner radius of new shapes and, with the select tool, of
    /// the selected object.
    pub fn change_radius(&mut self, radius: i32)
        requires
            old(self).inv(),
        ensures
            final(self).inv(),
            style_changed(
                AppView { radius: radius, ..old(self)@ },
                final(self)@,
                (|s: Style, t: Style| t == (Style { radius: radius, ..s })),
                "Corner radius changed"@,
            ),
    {
        self.radius = radius;
        if self.select_tool() && self.selected.is_some() {
            let place = self.selected_place();
            self.save_history();
            if let Some((l, o)) = place {
                let ghost before = self.doc;
                self.doc.layers[l].objects[o].style.radius = radius;
                self.status = String::from_str("Corner radius changed");
                proof {
                    lemma_object_replaced(before, self.doc, l as int, o as int);
                    lemma_object_views_all(before.layers@[l as int].objects@);
                    lemma_object_views_all(self.doc.layers@[l as int].objects@);
                }
            }
        }
    }

    /// Turns the fill of the selected object on or off, recording the
    /// document first.
    pub fn change_fill(&mut self, fill: bool)
        requires
            old(self).inv(),
        ensures
            final(self).inv(),
            match old(self).selected {
                Some((l, o)) => match selected_object(old(self)@) {
                    Some(obj) => final(self)@ == (AppView {
                        doc: with_object(old(self)@.doc, l as int, o as int, ObjectView {
                            style: Style { fill: fill, ..obj.style },
                            ..obj
                        }),
                        history: spec_save(old(self)@.history, old(self)@.doc),
                        status: if fill { "Fill enabled"@ } else { "Fill disabled"@ },
                        ..old(self)@
                    }),
                    None => final(self)@ == saved(old(self)@),
                },
                None => final(self)@ == old(self)@,
            },
    {
        if self.selected.is_some() {
            let place = self.selected_place();
            self.save_history();
            if let Some((l, o)) = place {
                let ghost before = self.doc;
                self.doc.layers[l].objects[o].style.fill = fill;
                self.status = if fill {
                    String::from_str("Fill enabled")
                } else {
                    String::from_str("Fill disabled")
                };
                proof {
                    lemma_object_replaced(before, self.doc, l as int, o as int);
                    lemma_object_views_all(before.layers@[l as int].objects@);
                    lemma_object_views_all(self.doc.layers@[l as int].objects@);
                }
            }
        }
    }

    /// Shows or hides object `object_index` of the current layer, recording
    /// the document first.
    pub fn toggle_visibility(&mut self, object_index: usize)
        requires
            old(self).inv(),
        ensures
            final(self).inv(),
            ({
                let l = old(self).current_layer as int;
                let objs = layer_objects(old(self)@.doc, l);
                if object_index < objs.len() {
                    let obj = objs[object_index as int];
                    final(self)@ == (AppView {
                        doc: with_object(old(self)@.doc, l, object_index as int, ObjectView { visible: !obj.visible, ..obj }),
                        history: spec_save(old(self)@.history, old(self)@.doc),
                        status: if !obj.visible { "Vector visible"@ } else { "Vector hidden"@ },
                        ..old(self)@
                    })
                } else {
                    final(self)@ == saved(old(self)@)
                }
            }),
    {
        self.save_history();
        let l = self.current_layer;
        proof {
            if l < self.doc.layers.len() {
                lemma_object_views_len(self.doc.layers@[l as int].objects@);
            }
        }
        if l < self.doc.layers.len() && object_index < self.doc.layers[l].objects.len() {
            let ghost before = self.doc;
            let visible = !self.doc.layers[l].objects[object_index].visible;
            self.doc.layers[l].objects[object_index].visible = visible;
            self.status = if visible {
                String::from_str("Vector visible")
            } else {
                String::from_str("Vector hidden")
            };
            proof {
                lemma_object_replaced(before, self.doc, l as int, object_index as int);
                lemma_object_views_all(before.layers@[l as int].objects@);
                lemma_object_views_all(self.doc.layers@[l as int].objects@);
            }
        }
    }

    /// Sets control points of the selected object from the control-point
    /// panel, recording the document first; edits naming no point are skipped.
    pub fn edit_control_points(&mut self, edits: &Vec<(usize, Point)>)
        requires
            old(self).inv(),
        ensures
            final(self).inv(),
            if edits@.len() == 0 {
                final(self)@ == old(self)@
            } else {
                match old(self).selected {
                    Some((l, o)) => match selected_object(old(self)@) {
                        Some(obj) => final(self)@ == (AppView {
                            doc: with_object(old(self)@.doc, l as int, o as int, ObjectView {
                                points: edited_points(obj.points, edits@),
                                ..obj
                            }),
                            history: spec_save(old(self)@.history, old(self)@.doc),
                            status: "Control point updated"@,
                            ..old(self)@
                        }),
                        None => final(self)@ == saved(old(self)@),
                    },
                    None => final(self)@ == saved(old(self)@),
                }
            },
    {
        if edits.len() == 0 {
            return;
        }
        self.save_history();
        let place = self.selected_place();
        if let Some((l, o)) = place {
            let ghost before = self.doc;
            let ghost start = self.doc.layers@[l as int].objects@[o as int].points@;
            let mut points = copy_points(&self.doc.layers[l].objects[o].points);
            let mut t: usize = 0;
            proof {
                assert(edits@.take(0) =~= Seq::<(usize, Point)>::empty());
            }
            while t < edits.len()
                invariant
                    t <= edits.len(),
                    points@ == edited_points(start, edits@.take(t as int)),
                decreases edits.len() - t,
            {
                let (index, point) = edits[t];
                proof {
                    assert(edits@.take(t + 1).drop_last() =~= edits@.take(t as int));
                    assert(edits@.take(t + 1).last() == edits@[t as int]);
                    lemma_edited_points_len(start, edits@.take(t as int));
                }
                if index < points.len() {
                    points.set(index, point);
                }
                t += 1;
            }
            proof {
                assert(edits@.take(t as int) =~= edits@);
            }
            self.doc.layers[l].objects[o].points = points;
            self.status = String::from_str("Control point updated");
            proof {
                lemma_object_replaced(before, self.doc, l as int, o as int);
                lemma_object_views_all(before.layers@[l as int].objects@);
                lemma_object_views_all(self.doc.layers@[l as int].objects@);
            }
        }
    }
}


// ---------------------------------------------------------------------------
// Canvas size and new documents
// ---------------------------------------------------------------------------

/// `v` kept within `lo..=hi`.
pub open spec fn clamp_int(v: int, lo: int, hi: int) -> int {
    if v < lo {
        lo
    } else if v > hi {
        hi
    } else {
        v
    }
}

/// A resolution from the resolution dialog: within 8..=400 and rounded to
/// the nearest multiple of 8.
pub open spec fn snap_resolution(v: i32) -> i32 {
    clamp_int((clamp_int(v as int, 8, 400) + 4) / 8 * 8, 8, 400) as i32
}

/// The document with a canvas of `width` by `height` pixels.
pub open spec fn with_size(doc: DocumentView, width: i32, height: i32) -> DocumentView {
    DocumentView { target: crate::model::Target { width: width, height: height, ..doc.target }, ..doc }
}

/// Whether `d` is a new document with a canvas of `width` by `height`.
pub open spec fn is_new_document(d: DocumentView, width: i32, height: i32) -> bool {
    &&& d.format == "pdvector"@
    &&& d.version == 1
    &&& d.target.sdk@ == "3.1.1"@
    &&& d.target.width == width
    &&& d.target.height == height
    &&& d.target.coordinate_system@ == "top-left"@
    &&& d.target.pixel_snap@ == "integer"@
    &&& d.target.rounding@ == "nearest"@
    &&& d.target.clip
    &&& d.canvas == crate::model::default_canvas_json()
    &&& d.optimize == crate::model::default_optimize_json()
    &&& d.layers.len() == 1
    &&& d.layers[0].id == "layer1"@
    &&& d.layers[0].visible
    &&& d.layers[0].objects == Seq::<ObjectView>::empty()
}

/// The status line after a size change.
pub open spec fn size_message(prefix: Seq<char>, width: i32, height: i32) -> Seq<char> {
    prefix + crate::text::int_decimal(width as int) + " x "@ + crate::text::int_decimal(height as int)
}

/// A resolution from the dialog is a multiple of 8 within 8..=400, at most 4
/// away from the value entered once that is brought within 8..=400, and
/// snapping it again leaves it as it is.
pub proof fn law_resolution_steps(v: i32)
    ensures
        8 <= snap_resolution(v) <= 400,
        snap_resolution(v) % 8 == 0,
        -4 <= snap_resolution(v) - clamp_int(v as int, 8, 400) <= 4,
        snap_resolution(snap_resolution(v)) == snap_resolution(v),
{
    let c = clamp_int(v as int, 8, 400);
    assert((c + 4) / 8 * 8 <= c + 4 && (c + 4) / 8 * 8 > c - 4) by (nonlinear_arith)
        requires
            8 <= c <= 400,
    ;
    assert(((c + 4) / 8 * 8) % 8 == 0) by (nonlinear_arith)
        requires
            8 <= c <= 400,
    ;
    let r = snap_resolution(v);
    assert((r + 4) / 8 * 8 == r) by (nonlinear_arith)
        requires
            r % 8 == 0,
            8 <= r <= 400,
    ;
}

fn clamp_i32(v: i32, lo: i32, hi: i32) -> (c: i32)
    requires
        lo <= hi,
    ensures
        c == clamp_int(v as int, lo as int, hi as int),
{
    if v < lo {
        lo
    } else if v > hi {
        hi
    } else {
        v
    }
}

impl DotStrokeApp {
    /// Sets the canvas size, recording the document first.
    pub fn set_target_size(&mut self, width: i32, height: i32)
        requires
            old(self).inv(),
        ensures
            final(self).inv(),
            final(self)@ == (AppView {
                doc: with_size(old(self)@.doc, width, height),
                history: spec_save(old(self)@.history, old(self)@.doc),
                ..old(self)@
            }),
    {
        self.save_history();
        self.doc.target.width = width;
        self.doc.target.height = height;
        proof {
            assert(self@.doc.layers =~= old(self)@.doc.layers);
        }
    }

    /// Opens the resolution dialog with the current size brought within 8..=400.
    pub fn begin_change_resolution(&mut self)
        ensures
            final(self)@ == (AppView {
                resolution_width: clamp_int(old(self).doc.target.width as int, 8, 400) as i32,
                resolution_height: clamp_int(old(self).doc.target.height as int, 8, 400) as i32,
                resolution_dialog: true,
                ..old(self)@
            }),
    {
        self.resolution_width = clamp_i32(self.doc.target.width, 8, 400);
        self.resolution_height = clamp_i32(self.doc.target.height, 8, 400);
        self.resolution_dialog = true;
    }

    /// Applies the resolution dialog: the entered size, snapped to steps of
    /// 8 within 8..=400, becomes the canvas size, recording the document first.
    pub fn apply_resolution(&mut self)
        requires
            old(self).inv(),
        ensures
            final(self).inv(),
            ({
                let w = snap_resolution(old(self).resolution_width);
                let h = snap_resolution(old(self).resolution_height);
                final(self)@ == (AppView {
                    doc: with_size(old(self)@.doc, w, h),
                    history: spec_save(old(self)@.history, old(self)@.doc),
                    resolution_width: w,
                    resolution_height: h,
                    resolution_dialog: false,
                    status: size_message("Resolution changed: "@, w, h),
                    ..old(self)@
                })
            }),
    {
        let cw = clamp_i32(self.resolution_width, 8, 400);
        let ch = clamp_i32(self.resolution_height, 8, 400);
        let width = clamp_i32((cw + 4) / 8 * 8, 8, 400);
        let height = clamp_i32((ch + 4) / 8 * 8, 8, 400);
        self.save_history();
        self.doc.target.width = width;
        self.doc.target.height = height;
        self.resolution_width = width;
        self.resolution_height = height;
        self.resolution_dialog = false;
        let mut status = String::from_str("Resolution changed: ");
        let w_text = crate::text::int_to_string(width as i64);
        let h_text = crate::text::int_to_string(height as i64);
        status.append(w_text.as_str());
        status.append(" x ");
        status.append(h_text.as_str());
        self.status = status;
        proof {
            reveal_strlit(" x ");
            assert(self@.doc.layers =~= old(self)@.doc.layers);
            assert(self.status@ =~= size_message("Resolution changed: "@, width, height));
        }
    }

    /// Opens the new-document dialog with the current size filled in.
    pub fn begin_new_document(&mut self)
        ensures
            final(self)@ == (AppView {
                new_width: crate::text::int_decimal(old(self).doc.target.width as int),
                new_height: crate::text::int_decimal(old(self).doc.target.height as int),
                new_dialog: true,
                ..old(self)@
            }),
    {
        self.new_width = crate::text::int_to_string(self.doc.target.width as i64);
        self.new_height = crate::text::int_to_string(self.doc.target.height as i64);
        self.new_dialog = true;
    }

    /// Applies the new-document dialog.  Where both entered sizes read as
    /// positive whole numbers, the document is recorded and replaced by a new
    /// one of that size, the drawing state is reset and `true` comes back;
    /// otherwise the status line says what is wrong and `false` comes back.
    pub fn create_new_document(&mut self) -> (created: bool)
        requires
            old(self).inv(),
        ensures
            final(self).inv(),
            ({
                let w = crate::text::parse_i32(crate::text::trimmed(old(self)@.new_width));
                let h = crate::text::parse_i32(crate::text::trimmed(old(self)@.new_height));
                if w is Some && h is Some {
                    let (wv, hv) = (w->0, h->0);
                    if wv > 0 && hv > 0 {
                        &&& created
                        &&& is_new_document(final(self)@.doc, wv, hv)
                        &&& final(self)@ == (AppView {
                            doc: final(self)@.doc,
                            history: spec_save(old(self)@.history, old(self)@.doc),
                            pending: Seq::empty(),
                            selected: None,
                            selected_objects: Seq::empty(),
                            selected_point: None,
                            current_layer: 0,
                            new_dialog: false,
                            status: size_message("New document: "@, wv, hv),
                            ..old(self)@
                        })
                    } else {
                        !created && final(self)@ == (AppView { status: "Resolution must be positive"@, ..old(self)@ })
                    }
                } else {
                    !created && final(self)@ == (AppView { status: "Enter numeric width and height"@, ..old(self)@ })
                }
            }),
    {
        let width = crate::text::parse_trimmed_i32(self.new_width.as_str());
        let height = crate::text::parse_trimmed_i32(self.new_height.as_str());
        match (width, height) {
            (Some(width), Some(height)) => {
                if width > 0 && height > 0 {
                    self.save_history();
                    let mut doc = Document::default();
                    doc.target.width = width;
                    doc.target.height = height;
                    self.doc = doc;
                    self.pending.clear();
                    self.selected = None;
                    self.selected_objects.clear();
                    self.selected_point = None;
                    self.current_layer = 0;
                    self.new_dialog = false;
                    let mut status = String::from_str("New document: ");
                    let w_text = crate::text::int_to_string(width as i64);
                    let h_text = crate::text::int_to_string(height as i64);
                    status.append(w_text.as_str());
                    status.append(" x ");
                    status.append(h_text.as_str());
                    self.status = status;
                    proof {
                        reveal_strlit(" x ");
                        assert(self.status@ =~= size_message("New document: "@, width, height));
                        assert(self.pending@ =~= Seq::<Point>::empty());
                        assert(self.selected_objects@ =~= Seq::<usize>::empty());
                    }
                    true
                } else {
                    self.status = String::from_str("Resolution must be positive");
                    false
                }
            },
            _ => {
                self.status = String::from_str("Enter numeric width and height");
                false
            },
        }
    }
}

impl Default for DotStrokeApp {
    fn default() -> (app: Self)
        ensures
            app.inv(),
            is_new_document(app@.doc, crate::model::DEFAULT_WIDTH, crate::model::DEFAULT_HEIGHT),
            app@.history.undo == Seq::<DocumentView>::empty(),
            app@.history.redo == Seq::<DocumentView>::empty(),
            app@.history.limit == crate::history::HISTORY_LIMIT,
            app@.tool == "line"@,
            app@.color == "black"@,
            app@.blend == "normal"@,
            app@.width == 1,
            app@.radius == 4,
            app@.dither_pattern == "none"@,
            app@.pending == Seq::<Point>::empty(),
            app@.selected is None,
            app@.selected_objects == Seq::<usize>::empty(),
            app@.selected_point is None,
            app@.current_layer == 0,
            app@.status == "Ready"@,
            app@.resolution_width == crate::model::DEFAULT_WIDTH,
            app@.resolution_height == crate::model::DEFAULT_HEIGHT,
            !app@.resolution_dialog,
            app@.new_width == crate::text::int_decimal(crate::model::DEFAULT_WIDTH as int),
            app@.new_height == crate::text::int_decimal(crate::model::DEFAULT_HEIGHT as int),
            !app@.new_dialog,
    {
        let app = DotStrokeApp {
            doc: Document::default(),
            history: History::default(),
            tool: String::from_str("line"),
            color: String::from_str("black"),
            blend: String::from_str("normal"),
            width: 1,
            radius: 4,
            dither_pattern: String::from_str("none"),
            pending: Vec::new(),
            selected: None,
            selected_objects: Vec::new(),
            selected_point: None,
            current_layer: 0,
            status: String::from_str("Ready"),
            resolution_width: crate::model::DEFAULT_WIDTH,
            resolution_height: crate::model::DEFAULT_HEIGHT,
            resolution_dialog: false,
            new_width: crate::text::int_to_string(crate::model::DEFAULT_WIDTH as i64),
            new_height: crate::text::int_to_string(crate::model::DEFAULT_HEIGHT as i64),
            new_dialog: false,
        };
        app
    }
}

// ---------------------------------------------------------------------------
// Laws of editing
// ---------------------------------------------------------------------------

/// Once clicked points have become a shape, undo brings back the document as
/// it was before the shape.
pub proof fn law_undo_removes_new_shape(a: AppView, b: AppView, closed: bool)
    requires
        a.history.limit >= 1,
        committed(a, b, closed),
        a.pending.len() >= points_required(a.tool),
    ensures
        spec_undo(b.history, b.doc).1 == Some(a.doc),
{
    crate::history::law_undo_after_save(a.history, a.doc, b.doc);
}

/// After a style change of the selected object, undo brings back the
/// document as it was before the change.
pub proof fn law_undo_reverts_style_change(a: AppView, b: AppView, restyle: spec_fn(Style, Style) -> bool, status: Seq<char>)
    requires
        a.history.limit >= 1,
        style_changed(a, b, restyle, status),
        a.tool == "select"@,
        a.selected is Some,
    ensures
        spec_undo(b.history, b.doc).1 == Some(a.doc),
{
    crate::history::law_undo_after_save(a.history, a.doc, b.doc);
}

/// Moving an object by `d` and then by the opposite amount gives back the
/// object, wherever the first move keeps every coordinate within the `i32`
/// range.
pub proof fn law_move_back(o: ObjectView, d: Point)
    requires
        object_move_fits(o, d),
        d[0] > i32::MIN,
        d[1] > i32::MIN,
    ensures
        object_move_fits(moved_object(o, d), [(-d[0]) as i32, (-d[1]) as i32]),
        moved_object(moved_object(o, d), [(-d[0]) as i32, (-d[1]) as i32]) == o,
    decreases o,
{
    let e: Point = [(-d[0]) as i32, (-d[1]) as i32];
    let m = moved_object(o, d);
    assert forall|i: int| 0 <= i < o.points.len() implies #[trigger] moved_point(moved_point(o.points[i], d), e) == o.points[i]
        && point_move_fits(moved_point(o.points[i], d), e) by {
        assert(point_move_fits(o.points[i], d));
        assert(moved_point(moved_point(o.points[i], d), e) =~= o.points[i]);
    }
    assert(moved_points(moved_points(o.points, d), e) =~= o.points);
    lemma_moved_objects(o.children, d);
    lemma_moved_objects(m.children, e);
    assert forall|i: int| 0 <= i < o.children.len() implies #[trigger] moved_object(moved_object(o.children[i], d), e) == o.children[i]
        && object_move_fits(moved_object(o.children[i], d), e) by {
        law_move_back(o.children[i], d);
    }
    assert(moved_objects(m.children, e) =~= o.children);
    assert forall|i: int| 0 <= i < m.points.len() implies point_move_fits(#[trigger] m.points[i], e) by {
        assert(m.points[i] == moved_point(o.points[i], d));
    }
    assert forall|i: int| 0 <= i < m.children.len() implies object_move_fits(#[trigger] m.children[i], e) by {
        assert(m.children[i] == moved_object(o.children[i], d));
    }
}


/// Each filled tool draws the shape of its outlined counterpart, filled: the
/// same kind as the outlined tool, which is the kind the rasteriser and the
/// exporter draw as that shape (rectangle, rounded rectangle, ellipse,
/// polygon); the outlined tools draw unfilled.
pub proof fn law_filled_tools_draw_outlined_kinds()
    ensures
        tool_kind("fill_rect"@) == tool_kind("rect"@),
        tool_kind("fill_round_rect"@) == tool_kind("round_rect"@),
        tool_kind("fill_circle"@) == tool_kind("ellipse"@),
        tool_kind("fill_polygon"@) == tool_kind("polygon"@),
        spec_kind_of(tool_kind("rect"@)) == Kind::Rect,
        spec_kind_of(tool_kind("round_rect"@)) == Kind::RoundRect,
        spec_kind_of(tool_kind("ellipse"@)) == Kind::Ellipse,
        spec_kind_of(tool_kind("polygon"@)) == Kind::Polygon,
        tool_fill("fill_rect"@) && tool_fill("fill_round_rect"@) && tool_fill("fill_circle"@) && tool_fill("fill_polygon"@),
        !tool_fill("rect"@) && !tool_fill("round_rect"@) && !tool_fill("ellipse"@) && !tool_fill("polygon"@),
{
    reveal_strlit("fill_rect");
    reveal_strlit("fill_round_rect");
    reveal_strlit("fill_circle");
    reveal_strlit("fill_polygon");
    reveal_strlit("rect");
    reveal_strlit("round_rect");
    reveal_strlit("ellipse");
    reveal_strlit("polygon");
    reveal_strlit("pixel");
    reveal_strlit("line");
    reveal_strlit("polyline");
    reveal_strlit("path");
    assert("rect"@.len() == 4);
    assert("pixel"@.len() == 5);
    assert("line"@.len() == 4);
    assert("path"@.len() == 4);
    assert("polyline"@.len() == 8);
    assert("polygon"@.len() == 7);
    assert("ellipse"@.len() == 7);
    assert("round_rect"@.len() == 10);
    assert("fill_rect"@.len() == 9);
    assert("fill_round_rect"@.len() == 15);
    assert("fill_circle"@.len() == 11);
    assert("fill_polygon"@.len() == 12);
    assert("rect"@[0] == 'r' && "line"@[0] == 'l' && "path"@[0] == 'p');
    assert("polygon"@[0] == 'p' && "ellipse"@[0] == 'e');
}

} // verus!
