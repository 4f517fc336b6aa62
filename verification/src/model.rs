//! The document model: a document holds layers, a layer holds vector
//! objects, and each object may hold child objects.
//!
//! Coordinates are whole document pixels.  Values that the editor only carries
//! through (the canvas and optimisation settings of a document, the transform
//! of an object) are kept as their JSON text.
use vstd::prelude::*;

verus! {

/// Default canvas width of a new document, in pixels.
pub const DEFAULT_WIDTH: i32 = 32;

/// Default canvas height of a new document, in pixels.
pub const DEFAULT_HEIGHT: i32 = 32;

/// Largest magnitude a point coordinate may have (2^24): the range in which
/// every whole coordinate is exact in the single-precision numbers of the
/// document format.
pub const COORD_LIMIT: i32 = 16777216;

/// A point of a shape, `[x, y]` in document pixels.
pub type Point = [i32; 2];

/// How an object is painted.
pub struct Style {
    pub color: String,
    pub blend: String,
    pub width: i32,
    pub cap: String,
    pub fill: bool,
    pub radius: i32,
    pub dither_pattern: String,
}

impl Clone for Style {
    fn clone(&self) -> (copy: Self)
        ensures
            copy == *self,
    {
        Style {
            color: self.color.clone(),
            blend: self.blend.clone(),
            width: self.width,
            cap: self.cap.clone(),
            fill: self.fill,
            radius: self.radius,
            dither_pattern: self.dither_pattern.clone(),
        }
    }
}

impl Default for Style {
    fn default() -> (style: Self)
        ensures
            style.color@ == "black"@,
            style.blend@ == "normal"@,
            style.width == 1,
            style.cap@ == "butt"@,
            !style.fill,
            style.radius == 4,
            style.dither_pattern@ == "none"@,
    {
        Style {
            color: String::from_str("black"),
            blend: String::from_str("normal"),
            width: 1,
            cap: String::from_str("butt"),
            fill: false,
            radius: 4,
            dither_pattern: String::from_str("none"),
        }
    }
}

/// The export target of a document.
pub struct Target {
    pub sdk: String,
    pub width: i32,
    pub height: i32,
    pub coordinate_system: String,
    pub pixel_snap: String,
    pub rounding: String,
    pub clip: bool,
}

impl Clone for Target {
    fn clone(&self) -> (copy: Self)
        ensures
            copy == *self,
    {
        Target {
            sdk: self.sdk.clone(),
            width: self.width,
            height: self.height,
            coordinate_system: self.coordinate_system.clone(),
            pixel_snap: self.pixel_snap.clone(),
            rounding: self.rounding.clone(),
            clip: self.clip,
        }
    }
}

impl Default for Target {
    fn default() -> (target: Self)
        ensures
            target.sdk@ == "3.1.1"@,
            target.width == DEFAULT_WIDTH,
            target.height == DEFAULT_HEIGHT,
            target.coordinate_system@ == "top-left"@,
            target.pixel_snap@ == "integer"@,
            target.rounding@ == "nearest"@,
            target.clip,
    {
        Target {
            sdk: String::from_str("3.1.1"),
            width: DEFAULT_WIDTH,
            height: DEFAULT_HEIGHT,
            coordinate_system: String::from_str("top-left"),
            pixel_snap: String::from_str("integer"),
            rounding: String::from_str("nearest"),
            clip: true,
        }
    }
}

/// A vector shape.
pub struct VectorObject {
    pub kind: String,
    pub points: Vec<Point>,
    pub closed: bool,
    pub style: Style,
    /// JSON text of the object's transform.
    pub transform: String,
    pub children: Vec<VectorObject>,
    pub visible: bool,
}

/// The mathematical value of a vector object.
pub struct ObjectView {
    pub kind: Seq<char>,
    pub points: Seq<Point>,
    pub closed: bool,
    pub style: Style,
    pub transform: Seq<char>,
    pub children: Seq<ObjectView>,
    pub visible: bool,
}

pub open spec fn object_view(o: VectorObject) -> ObjectView
    decreases o,
{
    ObjectView {
        kind: o.kind@,
        points: o.points@,
        closed: o.closed,
        style: o.style,
        transform: o.transform@,
        children: object_views(o.children@),
        visible: o.visible,
    }
}

pub open spec fn object_views(s: Seq<VectorObject>) -> Seq<ObjectView>
    decreases s,
{
    if s.len() == 0 {
        Seq::empty()
    } else {
        object_views(s.drop_last()).push(object_view(s.last()))
    }
}

impl View for VectorObject {
    type V = ObjectView;

    open spec fn view(&self) -> ObjectView {
        object_view(*self)
    }
}

pub proof fn lemma_object_views_len(s: Seq<VectorObject>)
    ensures
        object_views(s).len() == s.len(),
    decreases s.len(),
{
    if s.len() > 0 {
        lemma_object_views_len(s.drop_last());
    }
}

pub proof fn lemma_object_views_index(s: Seq<VectorObject>, i: int)
    requires
        0 <= i < s.len(),
    ensures
        object_views(s).len() == s.len(),
        object_views(s)[i] == object_view(s[i]),
    decreases s.len(),
{
    lemma_object_views_len(s);
    if i < s.len() - 1 {
        lemma_object_views_index(s.drop_last(), i);
    }
}

/// `object_views` commutes with indexing.
pub proof fn lemma_object_views_all(s: Seq<VectorObject>)
    ensures
        object_views(s).len() == s.len(),
        forall|i: int| 0 <= i < s.len() ==> #[trigger] object_views(s)[i] == object_view(s[i]),
{
    lemma_object_views_len(s);
    assert forall|i: int| 0 <= i < s.len() implies #[trigger] object_views(s)[i] == object_view(
        s[i],
    ) by {
        lemma_object_views_index(s, i);
    }
}

/// Two sequences whose elements have equal views have equal views.
pub proof fn lemma_object_views_ext(a: Seq<VectorObject>, b: Seq<VectorObject>)
    requires
        a.len() == b.len(),
        forall|i: int| 0 <= i < a.len() ==> object_view(#[trigger] a[i]) == object_view(b[i]),
    ensures
        object_views(a) == object_views(b),
{
    lemma_object_views_all(a);
    lemma_object_views_all(b);
    assert(object_views(a) =~= object_views(b));
}

impl Clone for VectorObject {
    fn clone(&self) -> (copy: Self)
        ensures
            copy@ == self@,
        decreases self,
    {
        let mut points: Vec<Point> = Vec::new();
        let mut i: usize = 0;
        while i < self.points.len()
            invariant
                i <= self.points.len(),
                points@ =~= self.points@.take(i as int),
            decreases self.points.len() - i,
        {
            points.push(self.points[i]);
            i += 1;
        }
        let mut children: Vec<VectorObject> = Vec::new();
        let mut j: usize = 0;
        while j < self.children.len()
            invariant
                j <= self.children.len(),
                children.len() == j,
                forall|k: int| 0 <= k < j ==> object_view(#[trigger] children@[k]) == object_view(
                    self.children@[k],
                ),
            decreases self.children.len() - j,
        {
            let child = self.children[j].clone();
            children.push(child);
            j += 1;
        }
        proof {
            assert(points@ =~= self.points@);
            lemma_object_views_ext(children@, self.children@);
        }
        VectorObject {
            kind: self.kind.clone(),
            points,
            closed: self.closed,
            style: self.style.clone(),
            transform: self.transform.clone(),
            children,
            visible: self.visible,
        }
    }
}

impl Default for VectorObject {
    fn default() -> (object: Self)
        ensures
            object@.kind == Seq::<char>::empty(),
            object@.points == Seq::<Point>::empty(),
            !object@.closed,
            object@.style.color@ == "black"@,
            object@.style.blend@ == "normal"@,
            object@.style.width == 1,
            object@.style.cap@ == "butt"@,
            !object@.style.fill,
            object@.style.radius == 4,
            object@.style.dither_pattern@ == "none"@,
            object@.transform == "null"@,
            object@.children == Seq::<ObjectView>::empty(),
            !object@.visible,
    {
        let o = VectorObject {
            kind: String::new(),
            points: Vec::new(),
            closed: false,
            style: Style::default(),
            transform: String::from_str("null"),
            children: Vec::new(),
            visible: false,
        };
        assert(o@.children =~= Seq::<ObjectView>::empty());
        o
    }
}

/// A layer of vector objects, drawn in order.
pub struct Layer {
    pub id: String,
    pub visible: bool,
    pub objects: Vec<VectorObject>,
}

/// The mathematical value of a layer.
pub struct LayerView {
    pub id: Seq<char>,
    pub visible: bool,
    pub objects: Seq<ObjectView>,
}

impl View for Layer {
    type V = LayerView;

    open spec fn view(&self) -> LayerView {
        LayerView { id: self.id@, visible: self.visible, objects: object_views(self.objects@) }
    }
}

/// A deep copy of a sequence of objects.
pub fn clone_objects(objects: &Vec<VectorObject>) -> (copy: Vec<VectorObject>)
    ensures
        copy.len() == objects.len(),
        object_views(copy@) == object_views(objects@),
{
    let mut copy: Vec<VectorObject> = Vec::new();
    let mut j: usize = 0;
    while j < objects.len()
        invariant
            j <= objects.len(),
            copy.len() == j,
            forall|k: int| 0 <= k < j ==> object_view(#[trigger] copy@[k]) == object_view(
                objects@[k],
            ),
        decreases objects.len() - j,
    {
        let child = objects[j].clone();
        copy.push(child);
        j += 1;
    }
    proof {
        lemma_object_views_ext(copy@, objects@);
    }
    copy
}

impl Clone for Layer {
    fn clone(&self) -> (copy: Self)
        ensures
            copy@ == self@,
    {
        Layer { id: self.id.clone(), visible: self.visible, objects: clone_objects(&self.objects) }
    }
}

impl Default for Layer {
    fn default() -> (layer: Self)
        ensures
            layer@.id == Seq::<char>::empty(),
            !layer@.visible,
            layer@.objects == Seq::<ObjectView>::empty(),
    {
        let l = Layer { id: String::new(), visible: false, objects: Vec::new() };
        assert(l@.objects =~= Seq::<ObjectView>::empty());
        l
    }
}

/// A drawing.
pub struct Document {
    pub format: String,
    pub version: i32,
    pub target: Target,
    /// JSON text of the canvas settings.
    pub canvas: String,
    /// JSON text of the optimisation settings.
    pub optimize: String,
    pub layers: Vec<Layer>,
}

/// The mathematical value of a document.
pub struct DocumentView {
    pub format: Seq<char>,
    pub version: i32,
    pub target: Target,
    pub canvas: Seq<char>,
    pub optimize: Seq<char>,
    pub layers: Seq<LayerView>,
}

impl View for Document {
    type V = DocumentView;

    open spec fn view(&self) -> DocumentView {
        DocumentView {
            format: self.format@,
            version: self.version,
            target: self.target,
            canvas: self.canvas@,
            optimize: self.optimize@,
            layers: self.layers@.map_values(|l: Layer| l@),
        }
    }
}

impl Clone for Document {
    fn clone(&self) -> (copy: Self)
        ensures
            copy@ == self@,
    {
        let mut layers: Vec<Layer> = Vec::new();
        let mut j: usize = 0;
        while j < self.layers.len()
            invariant
                j <= self.layers.len(),
                layers.len() == j,
                forall|k: int| 0 <= k < j ==> (#[trigger] layers@[k])@ == self.layers@[k]@,
            decreases self.layers.len() - j,
        {
            let layer = self.layers[j].clone();
            layers.push(layer);
            j += 1;
        }
        let copy = Document {
            format: self.format.clone(),
            version: self.version,
            target: self.target.clone(),
            canvas: self.canvas.clone(),
            optimize: self.optimize.clone(),
            layers,
        };
        assert(copy@.layers =~= self@.layers);
        copy
    }
}

/// JSON text of the canvas settings of a new document.
pub open spec fn default_canvas_json() -> Seq<char> {
    "{\"background\":\"white\",\"ditherAnchor\":\"screen\"}"@
}

/// JSON text of the optimisation settings of a new document.
pub open spec fn default_optimize_json() -> Seq<char> {
    "{\"mergeCollinearLines\":true,\"removeDuplicatePoints\":true,\"simplifyTolerance\":0}"@
}

impl Default for Document {
    fn default() -> (doc: Self)
        ensures
            doc@.format == "pdvector"@,
            doc@.version == 1,
            doc@.target.sdk@ == "3.1.1"@,
            doc@.target.width == DEFAULT_WIDTH,
            doc@.target.height == DEFAULT_HEIGHT,
            doc@.target.coordinate_system@ == "top-left"@,
            doc@.target.pixel_snap@ == "integer"@,
            doc@.target.rounding@ == "nearest"@,
            doc@.target.clip,
            doc@.canvas == default_canvas_json(),
            doc@.optimize == default_optimize_json(),
            doc@.layers.len() == 1,
            doc@.layers[0].id == "layer1"@,
            doc@.layers[0].visible,
            doc@.layers[0].objects == Seq::<ObjectView>::empty(),
    {
        let layer = Layer { id: String::from_str("layer1"), visible: true, objects: Vec::new() };
        let mut layers: Vec<Layer> = Vec::new();
        layers.push(layer);
        let doc = Document {
            format: String::from_str("pdvector"),
            version: 1,
            target: Target::default(),
            canvas: String::from_str("{\"background\":\"white\",\"ditherAnchor\":\"screen\"}"),
            optimize: String::from_str(
                "{\"mergeCollinearLines\":true,\"removeDuplicatePoints\":true,\"simplifyTolerance\":0}",
            ),
            layers,
        };
        assert(doc@.layers[0].objects =~= Seq::<ObjectView>::empty());
        doc
    }
}

/// Every point of the object and of its descendants lies within `COORD_LIMIT`.
pub open spec fn object_in_range(o: ObjectView) -> bool
    decreases o,
{
    &&& forall|i: int|
        0 <= i < o.points.len() ==> -COORD_LIMIT <= #[trigger] o.points[i][0] <= COORD_LIMIT
            && -COORD_LIMIT <= o.points[i][1] <= COORD_LIMIT
    &&& forall|i: int| 0 <= i < o.children.len() ==> object_in_range(#[trigger] o.children[i])
}

/// Every object of the document lies within `COORD_LIMIT`.
pub open spec fn document_in_range(d: DocumentView) -> bool {
    forall|l: int, i: int|
        0 <= l < d.layers.len() && 0 <= i < d.layers[l].objects.len() ==> object_in_range(
            #[trigger] d.layers[l].objects[i],
        )
}

} // verus!
