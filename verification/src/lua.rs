//! Export of a document as Playdate Lua drawing code.
use vstd::prelude::*;

use crate::export::{
    lua_cap_style, lua_color, lua_color_with_blend, lua_dither_pattern, lua_number, spec_lua_cap_style,
    spec_lua_color, spec_lua_color_with_blend, spec_lua_dither_pattern,
};
use crate::model::{
    lemma_object_views_all, object_view, object_views, Document, DocumentView, LayerView, ObjectView,
    Point, VectorObject,
};
use crate::raster::{abs_int, max_int, min_int, spec_kind_of, kind_of, Kind};
use crate::text::{int_decimal, int_to_string};

verus! {

/// The first line of exported drawing code.
pub const HEADER: &'static str = "local gfx <const> = playdate.graphics\n";

/// Sets the colour and dither pattern of one object in the animation function.
pub const INLINE_SET_COLOR: &'static str = "        if style.blend == \"xor\" then\n            gfx.setColor(gfx.kColorXOR)\n        else\n            gfx.setColor(style.color or gfx.kColorBlack)\n        end\n        if style.ditherPattern then\n            gfx.setDitherPattern(0.5, style.ditherPattern)\n        else\n            gfx.setDitherPattern(0.5, gfx.image.kDitherTypeNone)\n        end\n";

/// Moves, scales and rotates the box of a rectangle, rounded rectangle or ellipse.
pub const INLINE_TRANSFORM: &'static str = "        if kind == \"rect\" or kind == \"round_rect\" or kind == \"ellipse\" then\n            local shape_center_x = (params.x or 0) + (params.width or 0) / 2\n            local shape_center_y = (params.y or 0) + (params.height or 0) / 2\n            local scaled_center_x = rotation_center_x + (shape_center_x - rotation_center_x) * scale_x\n            local scaled_center_y = rotation_center_y + (shape_center_y - rotation_center_y) * scale_y\n            local transformed_center_x = rotation_center_x + (scaled_center_x - rotation_center_x) * rotation_cos - (scaled_center_y - rotation_center_y) * rotation_sin + offset_x\n            local transformed_center_y = rotation_center_y + (scaled_center_x - rotation_center_x) * rotation_sin + (scaled_center_y - rotation_center_y) * rotation_cos + offset_y\n            params.x = transformed_center_x - (params.width or 0) * math.abs(scale_x) / 2\n            params.y = transformed_center_y - (params.height or 0) * math.abs(scale_y) / 2\n            params.width = (params.width or 0) * math.abs(scale_x)\n            params.height = (params.height or 0) * math.abs(scale_y)\n        end\n";

/// Draws a transformed pixel.
pub const INLINE_PIXEL: &'static str = "        if kind == \"pixel\" then\n            local px = params.x or 0\n            local py = params.y or 0\n            local scaled_x = rotation_center_x + (px - rotation_center_x) * scale_x\n            local scaled_y = rotation_center_y + (py - rotation_center_y) * scale_y\n            local transformed_x = rotation_center_x + (scaled_x - rotation_center_x) * rotation_cos - (scaled_y - rotation_center_y) * rotation_sin + offset_x\n            local transformed_y = rotation_center_y + (scaled_x - rotation_center_x) * rotation_sin + (scaled_y - rotation_center_y) * rotation_cos + offset_y\n            gfx.drawPixel(transformed_x, transformed_y)\n        end\n";

/// Draws a rectangle.
pub const INLINE_RECT: &'static str = "        if kind == \"rect\" then\n            if style.fill then\n                gfx.fillRect(params.x or 0, params.y or 0, params.width or 0, params.height or 0)\n            end\n            if outline_width > 0 then\n                gfx.setLineWidth(outline_width)\n                gfx.drawRect(params.x or 0, params.y or 0, params.width or 0, params.height or 0)\n            end\n        end\n";

/// Draws a rounded rectangle.
pub const INLINE_ROUND_RECT: &'static str = "        if kind == \"round_rect\" then\n            local radius = style.radius or 0\n            if style.fill then\n                gfx.fillRoundRect(params.x or 0, params.y or 0, params.width or 0, params.height or 0, radius)\n            end\n            if outline_width > 0 then\n                gfx.setLineWidth(outline_width)\n                gfx.drawRoundRect(params.x or 0, params.y or 0, params.width or 0, params.height or 0, radius)\n            end\n        end\n";

/// Draws an ellipse.
pub const INLINE_ELLIPSE: &'static str = "        if kind == \"ellipse\" then\n            if style.fill then\n                gfx.fillEllipseInRect(params.x or 0, params.y or 0, params.width or 0, params.height or 0)\n            end\n            if outline_width > 0 then\n                gfx.setLineWidth(outline_width)\n                gfx.drawEllipseInRect(params.x or 0, params.y or 0, params.width or 0, params.height or 0)\n            end\n        end\n";

/// Draws a transformed polygon.
pub const INLINE_POLYGON: &'static str = "        if kind == \"polygon\" then\n            local points = {}\n            for i = 1, #(params.points or {}), 2 do\n                local px = params.points[i]\n                local py = params.points[i + 1]\n                local scaled_x = rotation_center_x + (px - rotation_center_x) * scale_x\n                local scaled_y = rotation_center_y + (py - rotation_center_y) * scale_y\n                points[i] = rotation_center_x + (scaled_x - rotation_center_x) * rotation_cos - (scaled_y - rotation_center_y) * rotation_sin + offset_x\n                points[i + 1] = rotation_center_y + (scaled_x - rotation_center_x) * rotation_sin + (scaled_y - rotation_center_y) * rotation_cos + offset_y\n            end\n            if style.fill then\n                gfx.fillPolygon(table.unpack(points))\n            end\n            if outline_width > 0 then\n                gfx.setLineWidth(outline_width)\n                gfx.setLineCapStyle(style.cap or gfx.kLineCapStyleButt)\n                gfx.drawPolygon(table.unpack(points))\n            end\n        end\n";

/// Draws a transformed path.
pub const INLINE_PATH: &'static str = "        if kind == \"path\" then\n            local points = {}\n            for i = 1, #(params.points or {}), 2 do\n                local px = params.points[i]\n                local py = params.points[i + 1]\n                local scaled_x = rotation_center_x + (px - rotation_center_x) * scale_x\n                local scaled_y = rotation_center_y + (py - rotation_center_y) * scale_y\n                points[i] = rotation_center_x + (scaled_x - rotation_center_x) * rotation_cos - (scaled_y - rotation_center_y) * rotation_sin + offset_x\n                points[i + 1] = rotation_center_y + (scaled_x - rotation_center_x) * rotation_sin + (scaled_y - rotation_center_y) * rotation_cos + offset_y\n            end\n            if outline_width > 0 then\n                gfx.setLineWidth(outline_width)\n                gfx.setLineCapStyle(style.cap or gfx.kLineCapStyleButt)\n                for i = 1, #points - 2, 2 do\n                    gfx.drawLine(points[i], points[i + 1], points[i + 2], points[i + 3])\n                end\n                if params.closed and #points > 4 then\n                    gfx.drawLine(points[#points - 1], points[#points], points[1], points[2])\n                end\n            end\n        end\n";

/// The start of the animation function, up to the default outline width.
pub const ANIM_HEADER_START: &'static str = "local gfx <const> = playdate.graphics\n\nlocal function drawPrimitive(offset_x, offset_y, rotation, scale_x, scale_y, outline_width)\n    if offset_x == nil then\n        offset_x = 0\n    end\n    if offset_y == nil then\n        offset_y = 0\n    end\n    if rotation == nil then\n        rotation = 0\n    end\n    if scale_x == nil then\n        scale_x = 1\n    end\n    if scale_y == nil then\n        scale_y = 1\n    end\n    if outline_width == nil then\n        outline_width = ";

/// The animation function header between the default outline width and the rotation centre x.
pub const ANIM_HEADER_CENTER_X: &'static str = "\n    end\n    local rotation_radians = math.rad(rotation)\n    local rotation_cos = math.cos(rotation_radians)\n    local rotation_sin = math.sin(rotation_radians)\n    local rotation_center_x = ";

/// The animation function header between the rotation centre x and y.
pub const ANIM_HEADER_CENTER_Y: &'static str = "\n    local rotation_center_y = ";

/// The end of the animation function header.
pub const ANIM_HEADER_END: &'static str = "\n\n";

/// A Lua number for a coordinate.
pub open spec fn num(v: int) -> Seq<char> {
    int_decimal(v)
}

/// `x, y` of a point.
pub open spec fn point_text(p: Point) -> Seq<char> {
    num(p[0] as int) + ", "@ + num(p[1] as int)
}

/// The first `k` points as a comma-separated coordinate list.
pub open spec fn points_text(pts: Seq<Point>, k: int) -> Seq<char>
    decreases k,
{
    if k <= 0 {
        Seq::empty()
    } else if k == 1 {
        point_text(pts[0])
    } else {
        points_text(pts, k - 1) + ", "@ + point_text(pts[k - 1])
    }
}

/// Parts joined with a separator between neighbours.
pub open spec fn join(parts: Seq<Seq<char>>, sep: Seq<char>) -> Seq<char>
    decreases parts.len(),
{
    if parts.len() == 0 {
        Seq::empty()
    } else if parts.len() == 1 {
        parts[0]
    } else {
        join(parts.drop_last(), sep) + sep + parts.last()
    }
}

pub open spec fn bool_text(b: bool) -> Seq<char> {
    if b { "true"@ } else { "false"@ }
}

/// The style fields of an object's Lua style table.
pub open spec fn style_fields(o: ObjectView) -> Seq<Seq<char>> {
    let base = seq![
        "color = "@ + spec_lua_color_with_blend(o.style.color@, o.style.blend@),
        "blend = \""@ + o.style.blend@ + "\""@,
        "cap = "@ + spec_lua_cap_style(o.style.cap@),
        "fill = "@ + bool_text(o.style.fill),
        "radius = "@ + int_decimal(max_int(o.style.radius as int, 0)),
    ];
    match spec_lua_dither_pattern(o.style.dither_pattern@) {
        Some(p) => base.push("ditherPattern = "@ + p),
        None => base,
    }
}

/// `x, y, width, height` of the box spanned by the first two points.
pub open spec fn box_text(pts: Seq<Point>) -> Seq<char> {
    num(min_int(pts[0][0] as int, pts[1][0] as int)) + ", "@ + num(min_int(pts[0][1] as int, pts[1][1] as int))
        + ", "@ + num(abs_int(pts[0][0] - pts[1][0])) + ", "@ + num(abs_int(pts[0][1] - pts[1][1]))
}

pub open spec fn line_width_line(o: ObjectView) -> Seq<char> {
    "gfx.setLineWidth("@ + int_decimal(max_int(o.style.width as int, 1)) + ")\n"@
}

pub open spec fn cap_line(o: ObjectView) -> Seq<char> {
    "gfx.setLineCapStyle("@ + spec_lua_cap_style(o.style.cap@) + ")\n"@
}

pub open spec fn draw_line_line(a: Point, b: Point) -> Seq<char> {
    "gfx.drawLine("@ + point_text(a) + ", "@ + point_text(b) + ")\n"@
}

/// `gfx.drawLine` calls for the first `k` segments between consecutive points.
pub open spec fn draw_lines(pts: Seq<Point>, k: int) -> Seq<char>
    decreases k,
{
    if k <= 0 {
        Seq::empty()
    } else {
        draw_lines(pts, k - 1) + draw_line_line(pts[k - 1], pts[k])
    }
}

pub open spec fn rect_lines(o: ObjectView) -> Seq<char> {
    line_width_line(o) + (if o.style.fill { "gfx.fillRect("@ } else { "gfx.drawRect("@ }) + box_text(o.points) + ")\n"@
}

pub open spec fn round_rect_lines(o: ObjectView) -> Seq<char> {
    line_width_line(o) + "gfx."@ + (if o.style.fill { "fillRoundRect"@ } else { "drawRoundRect"@ }) + "("@
        + box_text(o.points) + ", "@ + int_decimal(max_int(o.style.radius as int, 0)) + ")\n"@
}

pub open spec fn ellipse_lines(o: ObjectView) -> Seq<char> {
    line_width_line(o) + "gfx."@ + (if o.style.fill { "fillEllipseInRect"@ } else { "drawEllipseInRect"@ })
        + "("@ + box_text(o.points) + ")\n"@
}

pub open spec fn polygon_lines(o: ObjectView) -> Seq<char> {
    let n = o.points.len() as int;
    line_width_line(o) + cap_line(o) + (if o.style.fill {
        "gfx.fillPolygon("@ + points_text(o.points, n) + ")\n"@
    } else {
        Seq::empty()
    }) + "gfx.drawPolygon("@ + points_text(o.points, n) + ")\n"@
}

pub open spec fn path_lines(o: ObjectView) -> Seq<char> {
    let pts = o.points;
    let n = pts.len() as int;
    line_width_line(o) + cap_line(o) + draw_lines(pts, n - 1) + (if o.closed && n > 2 {
        draw_line_line(pts[n - 1], pts[0])
    } else {
        Seq::empty()
    })
}

/// The drawing calls for an object's shape, after its colour.
pub open spec fn shape_lines(o: ObjectView) -> Seq<char> {
    let k = spec_kind_of(o.kind);
    let n = o.points.len();
    if k == Kind::Pixel {
        "gfx.drawPixel("@ + point_text(o.points[0]) + ")\n"@
    } else if k == Kind::Rect && n >= 2 {
        rect_lines(o)
    } else if k == Kind::RoundRect && n >= 2 {
        round_rect_lines(o)
    } else if k == Kind::Ellipse && n >= 2 {
        ellipse_lines(o)
    } else if k == Kind::Polygon && n >= 3 {
        polygon_lines(o)
    } else if (k == Kind::Line || k == Kind::Polyline || k == Kind::Path) && n >= 2 {
        path_lines(o)
    } else {
        Seq::empty()
    }
}

/// The dither lines of an object and whether a dither pattern is set after
/// them, given whether one was set before.
pub open spec fn dither_lines(o: ObjectView, active: bool) -> (Seq<char>, bool) {
    match spec_lua_dither_pattern(o.style.dither_pattern@) {
        Some(p) => ("gfx.setDitherPattern(0.5, "@ + p + ")\n"@, true),
        None => if active {
            ("gfx.setDitherPattern(0.5, gfx.image.kDitherTypeNone)\n"@, false)
        } else {
            (Seq::empty(), false)
        },
    }
}

/// The code of one object alone (colour, dither, shape), and the dither state after it.
pub open spec fn object_lines(o: ObjectView, active: bool) -> (Seq<char>, bool) {
    let d = dither_lines(o, active);
    ("gfx.setColor("@ + spec_lua_color_with_blend(o.style.color@, o.style.blend@) + ")\n"@ + d.0 + shape_lines(o), d.1)
}

/// The code of an object and its children, and the dither state after them.
pub open spec fn lua_object(o: ObjectView, active: bool) -> (Seq<char>, bool)
    decreases o,
{
    if !o.visible || o.points.len() == 0 {
        (Seq::empty(), active)
    } else {
        let head = object_lines(o, active);
        let rest = lua_objects(o.children, head.1);
        (head.0 + rest.0, rest.1)
    }
}

/// The code of a sequence of objects in order, threading the dither state.
pub open spec fn lua_objects(cs: Seq<ObjectView>, active: bool) -> (Seq<char>, bool)
    decreases cs,
{
    if cs.len() == 0 {
        (Seq::empty(), active)
    } else {
        let a = lua_objects(cs.drop_last(), active);
        let b = lua_object(cs.last(), a.1);
        (a.0 + b.0, b.1)
    }
}

/// The code of the visible layers in order.
pub open spec fn lua_layers(layers: Seq<LayerView>, active: bool) -> (Seq<char>, bool)
    decreases layers.len(),
{
    if layers.len() == 0 {
        (Seq::empty(), active)
    } else {
        let a = lua_layers(layers.drop_last(), active);
        if layers.last().visible {
            let b = lua_objects(layers.last().objects, a.1);
            (a.0 + b.0, b.1)
        } else {
            a
        }
    }
}

/// The colour an object leaves set after drawing it and its children: that
/// of the last drawn descendant, else its own; `None` when not drawn.
pub open spec fn last_color(o: ObjectView) -> Option<Seq<char>>
    decreases o,
{
    if !o.visible || o.points.len() == 0 {
        None
    } else {
        match last_color_of(o.children) {
            Some(c) => Some(c),
            None => Some(o.style.color@),
        }
    }
}

/// The colour the last drawn object of a sequence leaves set.
pub open spec fn last_color_of(cs: Seq<ObjectView>) -> Option<Seq<char>>
    decreases cs,
{
    if cs.len() == 0 {
        None
    } else {
        match last_color(cs.last()) {
            Some(c) => Some(c),
            None => last_color_of(cs.drop_last()),
        }
    }
}

/// The colour the last drawn object of the visible layers leaves set.
pub open spec fn last_color_of_layers(layers: Seq<LayerView>) -> Option<Seq<char>>
    decreases layers.len(),
{
    if layers.len() == 0 {
        None
    } else {
        let here = if layers.last().visible { last_color_of(layers.last().objects) } else { None };
        match here {
            Some(c) => Some(c),
            None => last_color_of_layers(layers.drop_last()),
        }
    }
}

/// The trailing line that restores black after a drawing that ends in white.
pub open spec fn restore_black(c: Option<Seq<char>>, line: Seq<char>) -> Seq<char> {
    if c == Some("white"@) { line } else { Seq::empty() }
}

/// The Lua drawing code of a document.
pub open spec fn spec_playdate_lua(d: DocumentView) -> Seq<char> {
    HEADER@ + lua_layers(d.layers, false).0 + restore_black(last_color_of_layers(d.layers), "gfx.setColor(gfx.kColorBlack)\n"@)
}

fn append_point(out: &mut String, p: Point)
    ensures
        final(out)@ == old(out)@ + point_text(p),
{
    let ghost o = out@;
    let a = lua_number(p[0] as i64);
    let b = lua_number(p[1] as i64);
    out.append(a.as_str());
    out.append(", ");
    out.append(b.as_str());
    assert(out@ =~= o + point_text(p));
}

fn append_points(out: &mut String, pts: &Vec<Point>)
    ensures
        final(out)@ == old(out)@ + points_text(pts@, pts.len() as int),
{
    let ghost o = out@;
    let mut i: usize = 0;
    while i < pts.len()
        invariant
            i <= pts.len(),
            out@ == o + points_text(pts@, i as int),
        decreases pts.len() - i,
    {
        let ghost before = out@;
        if i > 0 {
            out.append(", ");
        }
        append_point(out, pts[i]);
        proof {
            if i == 0 {
                assert(points_text(pts@, 0) =~= Seq::<char>::empty());
                assert(out@ =~= o + points_text(pts@, 1));
            } else {
                assert(out@ =~= o + points_text(pts@, i + 1));
            }
        }
        i = i + 1;
    }
}

fn bool_str(b: bool) -> (s: &'static str)
    ensures
        s@ == bool_text(b),
{
    if b { "true" } else { "false" }
}

/// The style fields of an object's Lua style table.
pub fn lua_style_fields(object: &VectorObject) -> (fields: Vec<String>)
    ensures
        fields@.map_values(|f: String| f@) == style_fields(object@),
{
    let mut fields: Vec<String> = Vec::new();
    let mut color = String::from_str("color = ");
    color.append(lua_color_with_blend(object.style.color.as_str(), object.style.blend.as_str()));
    fields.push(color);
    let mut blend = String::from_str("blend = \"");
    blend.append(object.style.blend.as_str());
    blend.append("\"");
    fields.push(blend);
    let mut cap = String::from_str("cap = ");
    cap.append(lua_cap_style(object.style.cap.as_str()));
    fields.push(cap);
    let mut fill = String::from_str("fill = ");
    fill.append(bool_str(object.style.fill));
    fields.push(fill);
    let mut radius = String::from_str("radius = ");
    let r = int_to_string(if object.style.radius > 0 { object.style.radius as i64 } else { 0 });
    radius.append(r.as_str());
    fields.push(radius);
    match lua_dither_pattern(object.style.dither_pattern.as_str()) {
        Some(p) => {
            let mut d = String::from_str("ditherPattern = ");
            d.append(p);
            fields.push(d);
        },
        None => {},
    }
    assert(fields@.map_values(|f: String| f@) =~= style_fields(object@));
    fields
}

/// Parts joined with `sep` between neighbours.
pub fn join_strings(parts: &Vec<String>, sep: &str) -> (joined: String)
    ensures
        joined@ == join(parts@.map_values(|f: String| f@), sep@),
{
    let ghost views = parts@.map_values(|f: String| f@);
    let mut joined = String::new();
    let mut i: usize = 0;
    while i < parts.len()
        invariant
            i <= parts.len(),
            views == parts@.map_values(|f: String| f@),
            joined@ == join(views.take(i as int), sep@),
        decreases parts.len() - i,
    {
        if i > 0 {
            joined.append(sep);
        }
        joined.append(parts[i].as_str());
        proof {
            let t = views.take(i + 1);
            assert(t.drop_last() =~= views.take(i as int));
            if i == 0 {
                assert(views.take(0) =~= Seq::<Seq<char>>::empty());
                assert(joined@ =~= t[0]);
            } else {
                assert(joined@ =~= join(t.drop_last(), sep@) + sep@ + t.last());
            }
        }
        i = i + 1;
    }
    assert(views.take(i as int) =~= views);
    joined
}

#[verifier::spinoff_prover]
fn append_box(out: &mut String, pts: &Vec<Point>)
    requires
        pts.len() >= 2,
    ensures
        final(out)@ == old(out)@ + box_text(pts@),
{
    let ghost o = out@;
    let a = pts[0];
    let b = pts[1];
    let x: i64 = if a[0] <= b[0] { a[0] as i64 } else { b[0] as i64 };
    let y: i64 = if a[1] <= b[1] { a[1] as i64 } else { b[1] as i64 };
    let w: i64 = if a[0] >= b[0] { a[0] as i64 - b[0] as i64 } else { b[0] as i64 - a[0] as i64 };
    let h: i64 = if a[1] >= b[1] { a[1] as i64 - b[1] as i64 } else { b[1] as i64 - a[1] as i64 };
    let xs = lua_number(x);
    let ys = lua_number(y);
    let ws = lua_number(w);
    let hs = lua_number(h);
    out.append(xs.as_str());
    out.append(", ");
    out.append(ys.as_str());
    out.append(", ");
    out.append(ws.as_str());
    out.append(", ");
    out.append(hs.as_str());
    assert(out@ =~= o + box_text(pts@));
}

fn append_line_width(out: &mut String, object: &VectorObject)
    ensures
        final(out)@ == old(out)@ + line_width_line(object@),
{
    let ghost o = out@;
    out.append("gfx.setLineWidth(");
    let w = int_to_string(if object.style.width > 1 { object.style.width as i64 } else { 1 });
    out.append(w.as_str());
    out.append(")\n");
    assert(out@ =~= o + line_width_line(object@));
}

fn append_cap(out: &mut String, object: &VectorObject)
    ensures
        final(out)@ == old(out)@ + cap_line(object@),
{
    let ghost o = out@;
    out.append("gfx.setLineCapStyle(");
    out.append(lua_cap_style(object.style.cap.as_str()));
    out.append(")\n");
    assert(out@ =~= o + cap_line(object@));
}

fn append_draw_line(out: &mut String, a: Point, b: Point)
    ensures
        final(out)@ == old(out)@ + draw_line_line(a, b),
{
    let ghost o = out@;
    out.append("gfx.drawLine(");
    append_point(out, a);
    out.append(", ");
    append_point(out, b);
    out.append(")\n");
    assert(out@ =~= o + draw_line_line(a, b));
}

fn append_rect(out: &mut String, object: &VectorObject)
    requires
        object@.points.len() >= 2,
    ensures
        final(out)@ == old(out)@ + rect_lines(object@),
{
    let ghost o = out@;
    append_line_width(out, object);
    out.append(if object.style.fill { "gfx.fillRect(" } else { "gfx.drawRect(" });
    append_box(out, &object.points);
    out.append(")\n");
    assert(out@ =~= o + rect_lines(object@));
}

fn append_round_rect(out: &mut String, object: &VectorObject)
    requires
        object@.points.len() >= 2,
    ensures
        final(out)@ == old(out)@ + round_rect_lines(object@),
{
    let ghost o = out@;
    append_line_width(out, object);
    out.append("gfx.");
    out.append(if object.style.fill { "fillRoundRect" } else { "drawRoundRect" });
    out.append("(");
    append_box(out, &object.points);
    out.append(", ");
    let r = int_to_string(if object.style.radius > 0 { object.style.radius as i64 } else { 0 });
    out.append(r.as_str());
    out.append(")\n");
    assert(out@ =~= o + round_rect_lines(object@));
}

fn append_ellipse(out: &mut String, object: &VectorObject)
    requires
        object@.points.len() >= 2,
    ensures
        final(out)@ == old(out)@ + ellipse_lines(object@),
{
    let ghost o = out@;
    append_line_width(out, object);
    out.append("gfx.");
    out.append(if object.style.fill { "fillEllipseInRect" } else { "drawEllipseInRect" });
    out.append("(");
    append_box(out, &object.points);
    out.append(")\n");
    assert(out@ =~= o + ellipse_lines(object@));
}

fn append_polygon(out: &mut String, object: &VectorObject)
    ensures
        final(out)@ == old(out)@ + polygon_lines(object@),
{
    let ghost o = out@;
    let ghost ov = object@;
    let ghost n = object.points.len() as int;
    append_line_width(out, object);
    append_cap(out, object);
    let ghost mid = out@;
    if object.style.fill {
        out.append("gfx.fillPolygon(");
        append_points(out, &object.points);
        out.append(")\n");
    }
    let ghost mid2 = out@;
    out.append("gfx.drawPolygon(");
    append_points(out, &object.points);
    out.append(")\n");
    proof {
        let fill_part = if ov.style.fill { "gfx.fillPolygon("@ + points_text(ov.points, n) + ")\n"@ } else { Seq::<char>::empty() };
        assert(mid2 =~= mid + fill_part);
        assert(out@ =~= o + polygon_lines(ov));
    }
}

fn append_path(out: &mut String, object: &VectorObject)
    requires
        object@.points.len() >= 2,
    ensures
        final(out)@ == old(out)@ + path_lines(object@),
{
    let ghost o = out@;
    let ghost ov = object@;
    let pts = &object.points;
    let n = pts.len();
    append_line_width(out, object);
    append_cap(out, object);
    let ghost mid = out@;
    let mut i: usize = 0;
    while i + 1 < n
        invariant
            n == pts.len(),
            n >= 2,
            i + 1 <= n,
            out@ == mid + draw_lines(pts@, i as int),
        decreases n - i,
    {
        append_draw_line(out, pts[i], pts[i + 1]);
        proof {
            assert(out@ =~= mid + draw_lines(pts@, i + 1));
        }
        i = i + 1;
    }
    let ghost mid2 = out@;
    if object.closed && n > 2 {
        append_draw_line(out, pts[n - 1], pts[0]);
    }
    proof {
        let tail = if ov.closed && n > 2 { draw_line_line(pts@[n - 1], pts@[0]) } else { Seq::<char>::empty() };
        assert(out@ =~= mid2 + tail);
        assert(out@ =~= o + path_lines(ov));
    }
}

fn append_shape(out: &mut String, object: &VectorObject)
    requires
        object@.points.len() >= 1,
    ensures
        final(out)@ == old(out)@ + shape_lines(object@),
{
    let ghost o = out@;
    let kind = kind_of(object.kind.as_str());
    let n = object.points.len();
    if kind == Kind::Pixel {
        out.append("gfx.drawPixel(");
        append_point(out, object.points[0]);
        out.append(")\n");
        assert(out@ =~= o + shape_lines(object@));
    } else if kind == Kind::Rect && n >= 2 {
        append_rect(out, object);
    } else if kind == Kind::RoundRect && n >= 2 {
        append_round_rect(out, object);
    } else if kind == Kind::Ellipse && n >= 2 {
        append_ellipse(out, object);
    } else if kind == Kind::Polygon && n >= 3 {
        append_polygon(out, object);
    } else if (kind == Kind::Line || kind == Kind::Polyline || kind == Kind::Path) && n >= 2 {
        append_path(out, object);
    } else {
        assert(out@ =~= o + shape_lines(object@));
    }
}

/// Appends the Lua code of an object and its children; `dither_active`
/// tells whether a dither pattern is set, before and after.
pub fn append_lua_object_simple(output: &mut String, object: &VectorObject, dither_active: &mut bool)
    ensures
        final(output)@ == old(output)@ + lua_object(object@, *old(dither_active)).0,
        *final(dither_active) == lua_object(object@, *old(dither_active)).1,
    decreases object,
{
    let ghost o = output@;
    let ghost ov = object@;
    let ghost a0 = *dither_active;
    if !object.visible || object.points.len() == 0 {
        assert(output@ =~= o + lua_object(ov, a0).0);
        return;
    }
    output.append("gfx.setColor(");
    output.append(lua_color_with_blend(object.style.color.as_str(), object.style.blend.as_str()));
    output.append(")\n");
    match lua_dither_pattern(object.style.dither_pattern.as_str()) {
        Some(pattern) => {
            output.append("gfx.setDitherPattern(0.5, ");
            output.append(pattern);
            output.append(")\n");
            *dither_active = true;
        },
        None => {
            if *dither_active {
                output.append("gfx.setDitherPattern(0.5, gfx.image.kDitherTypeNone)\n");
                *dither_active = false;
            }
        },
    }
    append_shape(output, object);
    let ghost head = object_lines(ov, a0);
    proof {
        assert(output@ =~= o + head.0);
        assert(*dither_active == head.1);
        lemma_object_views_all(object.children@);
        assert(ov.children.take(0) =~= Seq::<ObjectView>::empty());
    }
    let ghost mid = output@;
    let mut i: usize = 0;
    while i < object.children.len()
        invariant
            i <= object.children.len(),
            ov == object@,
            object_views(object.children@).len() == object.children.len(),
            forall|j: int| 0 <= j < object.children.len() ==> #[trigger] object_views(object.children@)[j] == object_view(object.children@[j]),
            output@ == mid + lua_objects(ov.children.take(i as int), head.1).0,
            *dither_active == lua_objects(ov.children.take(i as int), head.1).1,
        decreases object.children.len() - i,
    {
        proof {
            assert(object_views(object.children@)[i as int] == object_view(object.children@[i as int]));
            assert(ov.children.take(i + 1).drop_last() =~= ov.children.take(i as int));
            assert(ov.children.take(i + 1).last() == object.children@[i as int]@);
        }
        append_lua_object_simple(output, &object.children[i], dither_active);
        proof {
            assert(output@ =~= mid + lua_objects(ov.children.take(i + 1), head.1).0);
        }
        i = i + 1;
    }
    proof {
        assert(ov.children.take(i as int) =~= ov.children);
        assert(output@ =~= o + lua_object(ov, a0).0);
    }
}

/// The colour the object leaves set after it and its children are drawn.
pub fn last_visible_lua_color(object: &VectorObject) -> (color: Option<&str>)
    ensures
        match color {
            Some(c) => last_color(object@) == Some(c@),
            None => last_color(object@) is None,
        },
    decreases object,
{
    if !object.visible || object.points.len() == 0 {
        return None;
    }
    let ghost ov = object@;
    proof {
        lemma_object_views_all(object.children@);
    }
    let mut found: Option<&str> = None;
    let mut i: usize = 0;
    while i < object.children.len()
        invariant
            i <= object.children.len(),
            ov == object@,
            object_views(object.children@).len() == object.children.len(),
            forall|j: int| 0 <= j < object.children.len() ==> #[trigger] object_views(object.children@)[j] == object_view(object.children@[j]),
            match found {
                Some(c) => last_color_of(ov.children.take(i as int)) == Some(c@),
                None => last_color_of(ov.children.take(i as int)) is None,
            },
        decreases object.children.len() - i,
    {
        proof {
            assert(object_views(object.children@)[i as int] == object_view(object.children@[i as int]));
            assert(ov.children.take(i + 1).drop_last() =~= ov.children.take(i as int));
            assert(ov.children.take(i + 1).last() == object.children@[i as int]@);
        }
        match last_visible_lua_color(&object.children[i]) {
            Some(c) => {
                found = Some(c);
            },
            None => {},
        }
        i = i + 1;
    }
    proof {
        assert(ov.children.take(i as int) =~= ov.children);
    }
    match found {
        Some(c) => Some(c),
        None => Some(object.style.color.as_str()),
    }
}

fn last_layer_color(doc: &Document) -> (color: Option<&str>)
    ensures
        match color {
            Some(c) => last_color_of_layers(doc@.layers) == Some(c@),
            None => last_color_of_layers(doc@.layers) is None,
        },
{
    let ghost d = doc@;
    let mut found: Option<&str> = None;
    let mut l: usize = 0;
    while l < doc.layers.len()
        invariant
            l <= doc.layers.len(),
            d == doc@,
            match found {
                Some(c) => last_color_of_layers(d.layers.take(l as int)) == Some(c@),
                None => last_color_of_layers(d.layers.take(l as int)) is None,
            },
        decreases doc.layers.len() - l,
    {
        let layer = &doc.layers[l];
        let ghost lv = d.layers[l as int];
        proof {
            assert(lv == layer@);
            lemma_object_views_all(layer.objects@);
            assert(d.layers.take(l + 1).drop_last() =~= d.layers.take(l as int));
            assert(d.layers.take(l + 1).last() == lv);
        }
        if layer.visible {
            let mut here: Option<&str> = None;
            let mut i: usize = 0;
            while i < layer.objects.len()
                invariant
                    i <= layer.objects.len(),
                    lv == layer@,
                    object_views(layer.objects@).len() == layer.objects.len(),
                    forall|j: int| 0 <= j < layer.objects.len() ==> #[trigger] object_views(layer.objects@)[j] == object_view(layer.objects@[j]),
                    match here {
                        Some(c) => last_color_of(lv.objects.take(i as int)) == Some(c@),
                        None => last_color_of(lv.objects.take(i as int)) is None,
                    },
                decreases layer.objects.len() - i,
            {
                proof {
                    assert(object_views(layer.objects@)[i as int] == object_view(layer.objects@[i as int]));
                    assert(lv.objects.take(i + 1).drop_last() =~= lv.objects.take(i as int));
                    assert(lv.objects.take(i + 1).last() == layer.objects@[i as int]@);
                }
                match last_visible_lua_color(&layer.objects[i]) {
                    Some(c) => {
                        here = Some(c);
                    },
                    None => {},
                }
                i = i + 1;
            }
            proof {
                assert(lv.objects.take(i as int) =~= lv.objects);
            }
            match here {
                Some(c) => {
                    found = Some(c);
                },
                None => {},
            }
        }
        l = l + 1;
    }
    proof {
        assert(d.layers.take(l as int) =~= d.layers);
    }
    found
}

/// The Playdate Lua drawing code of a document: a colour, an optional
/// dither pattern and the drawing calls for each visible object in order,
/// then black again if the drawing ends in white.
pub fn playdate_lua_simple(doc: &Document) -> (lua: String)
    ensures
        lua@ == spec_playdate_lua(doc@),
{
    let ghost d = doc@;
    let mut output = String::from_str(HEADER);
    let mut dither_active = false;
    proof {
        assert(d.layers.take(0) =~= Seq::<LayerView>::empty());
    }
    let mut l: usize = 0;
    while l < doc.layers.len()
        invariant
            l <= doc.layers.len(),
            d == doc@,
            output@ == HEADER@ + lua_layers(d.layers.take(l as int), false).0,
            dither_active == lua_layers(d.layers.take(l as int), false).1,
        decreases doc.layers.len() - l,
    {
        let layer = &doc.layers[l];
        let ghost lv = d.layers[l as int];
        let ghost before = output@;
        let ghost a_before = dither_active;
        proof {
            assert(lv == layer@);
            lemma_object_views_all(layer.objects@);
            assert(d.layers.take(l + 1).drop_last() =~= d.layers.take(l as int));
            assert(d.layers.take(l + 1).last() == lv);
        }
        if layer.visible {
            let mut i: usize = 0;
            proof {
                assert(lv.objects.take(0) =~= Seq::<ObjectView>::empty());
            }
            while i < layer.objects.len()
                invariant
                    i <= layer.objects.len(),
                    lv == layer@,
                    object_views(layer.objects@).len() == layer.objects.len(),
                    forall|j: int| 0 <= j < layer.objects.len() ==> #[trigger] object_views(layer.objects@)[j] == object_view(layer.objects@[j]),
                    output@ == before + lua_objects(lv.objects.take(i as int), a_before).0,
                    dither_active == lua_objects(lv.objects.take(i as int), a_before).1,
                decreases layer.objects.len() - i,
            {
                proof {
                    assert(object_views(layer.objects@)[i as int] == object_view(layer.objects@[i as int]));
                    assert(lv.objects.take(i + 1).drop_last() =~= lv.objects.take(i as int));
                    assert(lv.objects.take(i + 1).last() == layer.objects@[i as int]@);
                }
                append_lua_object_simple(&mut output, &layer.objects[i], &mut dither_active);
                proof {
                    assert(output@ =~= before + lua_objects(lv.objects.take(i + 1), a_before).0);
                }
                i = i + 1;
            }
            proof {
                assert(lv.objects.take(i as int) =~= lv.objects);
                assert(output@ =~= HEADER@ + lua_layers(d.layers.take(l + 1), false).0);
            }
        }
        l = l + 1;
    }
    proof {
        assert(d.layers.take(l as int) =~= d.layers);
    }
    let ghost body = output@;
    let last = last_layer_color(doc);
    let ends_white = match last {
        Some(c) => crate::text::str_eq(c, "white"),
        None => false,
    };
    if ends_white {
        output.append("gfx.setColor(gfx.kColorBlack)\n");
    }
    proof {
        let tail = restore_black(last_color_of_layers(d.layers), "gfx.setColor(gfx.kColorBlack)\n"@);
        assert(output@ =~= body + tail);
    }
    output
}

/// The kind name the animation function uses for an object.
pub open spec fn inline_kind_name(o: ObjectView) -> Seq<char> {
    let k = spec_kind_of(o.kind);
    if k == Kind::Line || k == Kind::Polyline || k == Kind::Path {
        "path"@
    } else {
        o.kind
    }
}

/// The parameter table of an object in the animation function; `None` for
/// shapes it does not draw.
pub open spec fn inline_params(o: ObjectView) -> Option<Seq<char>> {
    let k = spec_kind_of(o.kind);
    let pts = o.points;
    let n = pts.len();
    if k == Kind::Pixel {
        Some("        local params = { x = "@ + num(pts[0][0] as int) + ", y = "@ + num(pts[0][1] as int) + " }\n"@)
    } else if (k == Kind::Rect || k == Kind::RoundRect || k == Kind::Ellipse) && n >= 2 {
        Some(
            "        local params = { x = "@ + num(min_int(pts[0][0] as int, pts[1][0] as int)) + ", y = "@ + num(
                min_int(pts[0][1] as int, pts[1][1] as int),
            ) + ", width = "@ + num(abs_int(pts[0][0] - pts[1][0])) + ", height = "@ + num(
                abs_int(pts[0][1] - pts[1][1]),
            ) + " }\n"@,
        )
    } else if (k == Kind::Polygon || k == Kind::Path || k == Kind::Line || k == Kind::Polyline) && n >= 2 {
        Some(
            "        local params = { points = { "@ + points_text(pts, n as int) + " }, closed = "@ + bool_text(o.closed)
                + " }\n"@,
        )
    } else {
        None
    }
}

/// The drawing block of an object's kind in the animation function.
pub open spec fn inline_kind_block(o: ObjectView) -> Seq<char> {
    let k = spec_kind_of(o.kind);
    if k == Kind::Pixel {
        INLINE_PIXEL@
    } else if k == Kind::Rect {
        INLINE_RECT@
    } else if k == Kind::RoundRect {
        INLINE_ROUND_RECT@
    } else if k == Kind::Ellipse {
        INLINE_ELLIPSE@
    } else if k == Kind::Polygon {
        INLINE_POLYGON@
    } else if k == Kind::Path || k == Kind::Line || k == Kind::Polyline {
        INLINE_PATH@
    } else {
        Seq::empty()
    }
}

/// The opening of an object's block in the animation function.
pub open spec fn inline_head(o: ObjectView) -> Seq<char> {
    "    do\n"@ + "        local kind = \""@ + inline_kind_name(o) + "\"\n"@
}

/// The block of one object alone in the animation function.
pub open spec fn inline_body(o: ObjectView, params: Seq<char>) -> Seq<char> {
    inline_head(o) + params + "        local style = { "@ + join(style_fields(o), ", "@) + " }\n"@
        + INLINE_SET_COLOR@ + INLINE_TRANSFORM@ + inline_kind_block(o) + "    end\n"@
}

/// The animation-function code of an object and its children.
pub open spec fn anim_object(o: ObjectView) -> Seq<char>
    decreases o,
{
    if !o.visible || o.points.len() == 0 {
        Seq::empty()
    } else {
        match inline_params(o) {
            None => inline_head(o) + "    end\n"@,
            Some(p) => inline_body(o, p) + anim_objects(o.children),
        }
    }
}

/// The animation-function code of a sequence of objects in order.
pub open spec fn anim_objects(cs: Seq<ObjectView>) -> Seq<char>
    decreases cs,
{
    if cs.len() == 0 {
        Seq::empty()
    } else {
        anim_objects(cs.drop_last()) + anim_object(cs.last())
    }
}

/// The animation-function code of the visible layers in order.
pub open spec fn anim_layers(layers: Seq<LayerView>) -> Seq<char>
    decreases layers.len(),
{
    if layers.len() == 0 {
        Seq::empty()
    } else if layers.last().visible {
        anim_layers(layers.drop_last()) + anim_objects(layers.last().objects)
    } else {
        anim_layers(layers.drop_last())
    }
}

/// The single animation function of a document, rotating about the given
/// centre (Lua number texts).
pub open spec fn spec_animation_lua(d: DocumentView, center_x: Seq<char>, center_y: Seq<char>) -> Seq<char> {
    ANIM_HEADER_START@ + "0"@ + ANIM_HEADER_CENTER_X@ + center_x + ANIM_HEADER_CENTER_Y@ + center_y + ANIM_HEADER_END@
        + anim_layers(d.layers) + restore_black(last_color_of_layers(d.layers), "    gfx.setColor(gfx.kColorBlack)\n"@)
        + "end\n"@
}

fn append_inline_params(out: &mut String, object: &VectorObject) -> (drawn: bool)
    requires
        object@.points.len() >= 1,
    ensures
        drawn == inline_params(object@).is_some(),
        drawn ==> final(out)@ == old(out)@ + inline_params(object@).unwrap(),
        !drawn ==> final(out)@ == old(out)@,
{
    let ghost o = out@;
    let ghost ov = object@;
    let kind = kind_of(object.kind.as_str());
    let pts = &object.points;
    let n = pts.len();
    if kind == Kind::Pixel {
        out.append("        local params = { x = ");
        let x = lua_number(pts[0][0] as i64);
        out.append(x.as_str());
        out.append(", y = ");
        let y = lua_number(pts[0][1] as i64);
        out.append(y.as_str());
        out.append(" }\n");
        assert(out@ =~= o + inline_params(ov).unwrap());
        true
    } else if (kind == Kind::Rect || kind == Kind::RoundRect || kind == Kind::Ellipse) && n >= 2 {
        let a = pts[0];
        let b = pts[1];
        let x: i64 = if a[0] <= b[0] { a[0] as i64 } else { b[0] as i64 };
        let y: i64 = if a[1] <= b[1] { a[1] as i64 } else { b[1] as i64 };
        let w: i64 = if a[0] >= b[0] { a[0] as i64 - b[0] as i64 } else { b[0] as i64 - a[0] as i64 };
        let h: i64 = if a[1] >= b[1] { a[1] as i64 - b[1] as i64 } else { b[1] as i64 - a[1] as i64 };
        out.append("        local params = { x = ");
        let xs = lua_number(x);
        out.append(xs.as_str());
        out.append(", y = ");
        let ys = lua_number(y);
        out.append(ys.as_str());
        out.append(", width = ");
        let ws = lua_number(w);
        out.append(ws.as_str());
        out.append(", height = ");
        let hs = lua_number(h);
        out.append(hs.as_str());
        out.append(" }\n");
        assert(out@ =~= o + inline_params(ov).unwrap());
        true
    } else if (kind == Kind::Polygon || kind == Kind::Path || kind == Kind::Line || kind == Kind::Polyline) && n >= 2 {
        out.append("        local params = { points = { ");
        append_points(out, pts);
        out.append(" }, closed = ");
        out.append(bool_str(object.closed));
        out.append(" }\n");
        assert(out@ =~= o + inline_params(ov).unwrap());
        true
    } else {
        false
    }
}

fn inline_kind_block_text(object: &VectorObject) -> (block: &'static str)
    ensures
        block@ == inline_kind_block(object@),
{
    let kind = kind_of(object.kind.as_str());
    if kind == Kind::Pixel {
        INLINE_PIXEL
    } else if kind == Kind::Rect {
        INLINE_RECT
    } else if kind == Kind::RoundRect {
        INLINE_ROUND_RECT
    } else if kind == Kind::Ellipse {
        INLINE_ELLIPSE
    } else if kind == Kind::Polygon {
        INLINE_POLYGON
    } else if kind == Kind::Path || kind == Kind::Line || kind == Kind::Polyline {
        INLINE_PATH
    } else {
        proof {
            reveal_strlit("");
        }
        ""
    }
}

fn append_inline_head(out: &mut String, object: &VectorObject)
    ensures
        final(out)@ == old(out)@ + inline_head(object@),
{
    let ghost o = out@;
    let kind = kind_of(object.kind.as_str());
    out.append("    do\n");
    out.append("        local kind = \"");
    if kind == Kind::Line || kind == Kind::Polyline || kind == Kind::Path {
        out.append("path");
    } else {
        out.append(object.kind.as_str());
    }
    out.append("\"\n");
    assert(out@ =~= o + inline_head(object@));
}

/// Appends an object and its children as blocks of the animation function.
pub fn append_animation_object_inline(output: &mut String, object: &VectorObject)
    ensures
        final(output)@ == old(output)@ + anim_object(object@),
    decreases object,
{
    let ghost o = output@;
    let ghost ov = object@;
    if !object.visible || object.points.len() == 0 {
        assert(output@ =~= o + anim_object(ov));
        return;
    }
    let fields = lua_style_fields(object);
    let style_list = join_strings(&fields, ", ");
    append_inline_head(output, object);
    let ghost after_head = output@;
    let drawn = append_inline_params(output, object);
    if !drawn {
        output.append("    end\n");
        assert(output@ =~= o + anim_object(ov));
        return;
    }
    output.append("        local style = { ");
    output.append(style_list.as_str());
    output.append(" }\n");
    output.append(INLINE_SET_COLOR);
    output.append(INLINE_TRANSFORM);
    output.append(inline_kind_block_text(object));
    output.append("    end\n");
    let ghost mid = output@;
    proof {
        assert(output@ =~= o + inline_body(ov, inline_params(ov).unwrap()));
        lemma_object_views_all(object.children@);
        assert(ov.children.take(0) =~= Seq::<ObjectView>::empty());
    }
    let mut i: usize = 0;
    while i < object.children.len()
        invariant
            i <= object.children.len(),
            ov == object@,
            object_views(object.children@).len() == object.children.len(),
            forall|j: int| 0 <= j < object.children.len() ==> #[trigger] object_views(object.children@)[j] == object_view(object.children@[j]),
            output@ == mid + anim_objects(ov.children.take(i as int)),
        decreases object.children.len() - i,
    {
        proof {
            assert(object_views(object.children@)[i as int] == object_view(object.children@[i as int]));
            assert(ov.children.take(i + 1).drop_last() =~= ov.children.take(i as int));
            assert(ov.children.take(i + 1).last() == object.children@[i as int]@);
        }
        append_animation_object_inline(output, &object.children[i]);
        proof {
            assert(output@ =~= mid + anim_objects(ov.children.take(i + 1)));
        }
        i = i + 1;
    }
    proof {
        assert(ov.children.take(i as int) =~= ov.children);
        assert(output@ =~= o + anim_object(ov));
    }
}

/// The single Lua animation function of a document, which draws every
/// visible object moved, rotated and scaled about the rotation centre given
/// as Lua number texts.
pub fn animation_single_function_lua(doc: &Document, rotation_center_x: &str, rotation_center_y: &str) -> (lua: String)
    ensures
        lua@ == spec_animation_lua(doc@, rotation_center_x@, rotation_center_y@),
{
    let ghost d = doc@;
    let mut output = String::from_str(ANIM_HEADER_START);
    output.append("0");
    output.append(ANIM_HEADER_CENTER_X);
    output.append(rotation_center_x);
    output.append(ANIM_HEADER_CENTER_Y);
    output.append(rotation_center_y);
    output.append(ANIM_HEADER_END);
    let ghost head = output@;
    proof {
        assert(d.layers.take(0) =~= Seq::<LayerView>::empty());
    }
    let mut l: usize = 0;
    while l < doc.layers.len()
        invariant
            l <= doc.layers.len(),
            d == doc@,
            output@ == head + anim_layers(d.layers.take(l as int)),
        decreases doc.layers.len() - l,
    {
        let layer = &doc.layers[l];
        let ghost lv = d.layers[l as int];
        let ghost before = output@;
        proof {
            assert(lv == layer@);
            lemma_object_views_all(layer.objects@);
            assert(d.layers.take(l + 1).drop_last() =~= d.layers.take(l as int));
            assert(d.layers.take(l + 1).last() == lv);
        }
        if layer.visible {
            let mut i: usize = 0;
            proof {
                assert(lv.objects.take(0) =~= Seq::<ObjectView>::empty());
            }
            while i < layer.objects.len()
                invariant
                    i <= layer.objects.len(),
                    lv == layer@,
                    object_views(layer.objects@).len() == layer.objects.len(),
                    forall|j: int| 0 <= j < layer.objects.len() ==> #[trigger] object_views(layer.objects@)[j] == object_view(layer.objects@[j]),
                    output@ == before + anim_objects(lv.objects.take(i as int)),
                decreases layer.objects.len() - i,
            {
                proof {
                    assert(object_views(layer.objects@)[i as int] == object_view(layer.objects@[i as int]));
                    assert(lv.objects.take(i + 1).drop_last() =~= lv.objects.take(i as int));
                    assert(lv.objects.take(i + 1).last() == layer.objects@[i as int]@);
                }
                append_animation_object_inline(&mut output, &layer.objects[i]);
                proof {
                    assert(output@ =~= before + anim_objects(lv.objects.take(i + 1)));
                }
                i = i + 1;
            }
            proof {
                assert(lv.objects.take(i as int) =~= lv.objects);
                assert(output@ =~= head + anim_layers(d.layers.take(l + 1)));
            }
        }
        l = l + 1;
    }
    proof {
        assert(d.layers.take(l as int) =~= d.layers);
    }
    let ghost body = output@;
    let last = last_layer_color(doc);
    let ends_white = match last {
        Some(c) => crate::text::str_eq(c, "white"),
        None => false,
    };
    if ends_white {
        output.append("    gfx.setColor(gfx.kColorBlack)\n");
    }
    output.append("end\n");
    proof {
        let tail = restore_black(last_color_of_layers(d.layers), "    gfx.setColor(gfx.kColorBlack)\n"@);
        assert(output@ =~= body + tail + "end\n"@);
        assert(output@ =~= spec_animation_lua(d, rotation_center_x@, rotation_center_y@));
    }
    output
}

/// The Lua code of a document: the animation function when `animation` is
/// set, else the plain drawing code.
pub fn playdate_lua(doc: &Document, animation: bool, rotation_center_x: &str, rotation_center_y: &str) -> (lua: String)
    ensures
        animation ==> lua@ == spec_animation_lua(doc@, rotation_center_x@, rotation_center_y@),
        !animation ==> lua@ == spec_playdate_lua(doc@),
{
    if animation {
        animation_single_function_lua(doc, rotation_center_x, rotation_center_y)
    } else {
        playdate_lua_simple(doc)
    }
}


// ---------------------------------------------------------------------------
// One `drawObject` call per shape
// ---------------------------------------------------------------------------

/// `x = .., y = .., width = .., height = ..` of the box spanned by the first
/// two points.
pub open spec fn box_fields(pts: Seq<Point>) -> Seq<char> {
    "x = "@ + num(min_int(pts[0][0] as int, pts[1][0] as int)) + ", y = "@ + num(min_int(pts[0][1] as int, pts[1][1] as int))
        + ", width = "@ + num(abs_int(pts[0][0] - pts[1][0])) + ", height = "@ + num(abs_int(pts[0][1] - pts[1][1]))
}

/// The `drawObject` call of one object alone: its kind, its parameters and
/// its style table, with the outline width left to the caller.
pub open spec fn draw_object_call(o: ObjectView) -> Seq<char> {
    let k = spec_kind_of(o.kind);
    let n = o.points.len() as int;
    let tail = " }, { "@ + join(style_fields(o), ", "@) + " }, outline_width)\n"@;
    if k == Kind::Pixel {
        "drawObject(\"pixel\", { x = "@ + num(o.points[0][0] as int) + ", y = "@ + num(o.points[0][1] as int) + tail
    } else if k == Kind::Rect && n >= 2 {
        "drawObject(\"rect\", { "@ + box_fields(o.points) + tail
    } else if k == Kind::RoundRect && n >= 2 {
        "drawObject(\"round_rect\", { "@ + box_fields(o.points) + tail
    } else if k == Kind::Ellipse && n >= 2 {
        "drawObject(\"ellipse\", { "@ + box_fields(o.points) + tail
    } else if k == Kind::Polygon && n >= 3 {
        "drawObject(\"polygon\", { points = { "@ + points_text(o.points, n) + " }"@ + tail
    } else if (k == Kind::Line || k == Kind::Polyline || k == Kind::Path) && n >= 2 {
        "drawObject(\"path\", { points = { "@ + points_text(o.points, n) + " }, closed = "@ + bool_text(o.closed) + tail
    } else {
        Seq::empty()
    }
}

/// The `drawObject` calls of an object and its drawn descendants, in order.
pub open spec fn draw_object_calls(o: ObjectView) -> Seq<char>
    decreases o,
{
    if !o.visible || o.points.len() == 0 {
        Seq::empty()
    } else {
        draw_object_call(o) + draw_object_calls_of(o.children)
    }
}

/// The `drawObject` calls of a sequence of objects, in order.
pub open spec fn draw_object_calls_of(cs: Seq<ObjectView>) -> Seq<char>
    decreases cs,
{
    if cs.len() == 0 {
        Seq::empty()
    } else {
        draw_object_calls_of(cs.drop_last()) + draw_object_calls(cs.last())
    }
}

#[verifier::spinoff_prover]
fn append_box_fields(out: &mut String, pts: &Vec<Point>)
    requires
        pts.len() >= 2,
    ensures
        final(out)@ == old(out)@ + box_fields(pts@),
{
    let ghost o = out@;
    let a = pts[0];
    let b = pts[1];
    let x: i64 = if a[0] <= b[0] { a[0] as i64 } else { b[0] as i64 };
    let y: i64 = if a[1] <= b[1] { a[1] as i64 } else { b[1] as i64 };
    let w: i64 = if a[0] >= b[0] { a[0] as i64 - b[0] as i64 } else { b[0] as i64 - a[0] as i64 };
    let h: i64 = if a[1] >= b[1] { a[1] as i64 - b[1] as i64 } else { b[1] as i64 - a[1] as i64 };
    let xs = lua_number(x);
    let ys = lua_number(y);
    let ws = lua_number(w);
    let hs = lua_number(h);
    out.append("x = ");
    out.append(xs.as_str());
    out.append(", y = ");
    out.append(ys.as_str());
    out.append(", width = ");
    out.append(ws.as_str());
    out.append(", height = ");
    out.append(hs.as_str());
    assert(out@ =~= o + box_fields(pts@));
}

fn append_draw_object_call(out: &mut String, object: &VectorObject)
    requires
        object@.points.len() >= 1,
    ensures
        final(out)@ == old(out)@ + draw_object_call(object@),
{
    let ghost o = out@;
    let ghost ov = object@;
    let kind = kind_of(object.kind.as_str());
    let n = object.points.len();
    let fields = lua_style_fields(object);
    let style = join_strings(&fields, ", ");
    let ghost tail = " }, { "@ + join(style_fields(ov), ", "@) + " }, outline_width)\n"@;
    proof {
        reveal_strlit(", ");
    }
    if kind == Kind::Pixel {
        out.append("drawObject(\"pixel\", { x = ");
        let xs = lua_number(object.points[0][0] as i64);
        let ys = lua_number(object.points[0][1] as i64);
        out.append(xs.as_str());
        out.append(", y = ");
        out.append(ys.as_str());
    } else if kind == Kind::Rect && n >= 2 {
        out.append("drawObject(\"rect\", { ");
        append_box_fields(out, &object.points);
    } else if kind == Kind::RoundRect && n >= 2 {
        out.append("drawObject(\"round_rect\", { ");
        append_box_fields(out, &object.points);
    } else if kind == Kind::Ellipse && n >= 2 {
        out.append("drawObject(\"ellipse\", { ");
        append_box_fields(out, &object.points);
    } else if kind == Kind::Polygon && n >= 3 {
        out.append("drawObject(\"polygon\", { points = { ");
        append_points(out, &object.points);
        out.append(" }");
    } else if (kind == Kind::Line || kind == Kind::Polyline || kind == Kind::Path) && n >= 2 {
        out.append("drawObject(\"path\", { points = { ");
        append_points(out, &object.points);
        out.append(" }, closed = ");
        out.append(bool_str(object.closed));
    } else {
        assert(out@ =~= o + draw_object_call(ov));
        return;
    }
    out.append(" }, { ");
    out.append(style.as_str());
    out.append(" }, outline_width)\n");
    assert(out@ =~= o + draw_object_call(ov));
}

/// Appends one `drawObject` call for the object and for each of its drawn
/// descendants.
pub fn append_lua_object_with_animation_function(output: &mut String, object: &VectorObject)
    ensures
        final(output)@ == old(output)@ + draw_object_calls(object@),
    decreases object,
{
    let ghost o = output@;
    let ghost ov = object@;
    if !object.visible || object.points.len() == 0 {
        assert(output@ =~= o + draw_object_calls(ov));
        return;
    }
    append_draw_object_call(output, object);
    proof {
        lemma_object_views_all(object.children@);
        assert(ov.children.take(0) =~= Seq::<ObjectView>::empty());
    }
    let ghost mid = output@;
    let mut i: usize = 0;
    while i < object.children.len()
        invariant
            i <= object.children.len(),
            ov == object@,
            object_views(object.children@).len() == object.children.len(),
            forall|j: int| 0 <= j < object.children.len() ==> #[trigger] object_views(object.children@)[j] == object_view(object.children@[j]),
            output@ == mid + draw_object_calls_of(ov.children.take(i as int)),
        decreases object.children.len() - i,
    {
        proof {
            assert(object_views(object.children@)[i as int] == object_view(object.children@[i as int]));
            assert(ov.children.take(i + 1).drop_last() =~= ov.children.take(i as int));
            assert(ov.children.take(i + 1).last() == object.children@[i as int]@);
        }
        append_lua_object_with_animation_function(output, &object.children[i]);
        proof {
            assert(output@ =~= mid + draw_object_calls_of(ov.children.take(i + 1)));
        }
        i = i + 1;
    }
    proof {
        assert(ov.children.take(i as int) =~= ov.children);
        assert(output@ =~= o + draw_object_calls(ov));
    }
}


// ---------------------------------------------------------------------------
// The primitive-drawing function for the kinds a document uses
// ---------------------------------------------------------------------------

/// The start of the primitive-drawing function, with an outline width of 0.
pub const PRIM_HEADER: &'static str = "local gfx <const> = playdate.graphics\n\nlocal function drawPrimitive(kind, params, style, outline_width)\n    params = params or {}\n    style = style or {}\n    if outline_width == nil then\n        outline_width = 0\n    end\n\n    if style.blend == \"xor\" then\n        gfx.setColor(gfx.kColorXOR)\n    else\n        gfx.setColor(style.color or gfx.kColorBlack)\n    end\n    if style.ditherPattern then\n        gfx.setDitherPattern(0.5, style.ditherPattern)\n    end\n\n";

/// The branch body of the primitive-drawing function for pixel shapes.
pub const PRIM_PIXEL: &'static str = "        gfx.drawPixel(params.x or 0, params.y or 0)\n";

/// The branch body of the primitive-drawing function for rect shapes.
pub const PRIM_RECT: &'static str = "        if style.fill then\n            gfx.fillRect(params.x or 0, params.y or 0, params.width or 0, params.height or 0)\n        end\n        if outline_width > 0 then\n            gfx.setLineWidth(outline_width)\n            gfx.drawRect(params.x or 0, params.y or 0, params.width or 0, params.height or 0)\n        end\n";

/// The branch body of the primitive-drawing function for round rect shapes.
pub const PRIM_ROUND_RECT: &'static str = "        local radius = style.radius or 0\n        if style.fill then\n            gfx.fillRoundRect(params.x or 0, params.y or 0, params.width or 0, params.height or 0, radius)\n        end\n        if outline_width > 0 then\n            gfx.setLineWidth(outline_width)\n            gfx.drawRoundRect(params.x or 0, params.y or 0, params.width or 0, params.height or 0, radius)\n        end\n";

/// The branch body of the primitive-drawing function for ellipse shapes.
pub const PRIM_ELLIPSE: &'static str = "        if style.fill then\n            gfx.fillEllipseInRect(params.x or 0, params.y or 0, params.width or 0, params.height or 0)\n        end\n        if outline_width > 0 then\n            gfx.setLineWidth(outline_width)\n            gfx.drawEllipseInRect(params.x or 0, params.y or 0, params.width or 0, params.height or 0)\n        end\n";

/// The branch body of the primitive-drawing function for polygon shapes.
pub const PRIM_POLYGON: &'static str = "        local points = params.points or {}\n        if style.fill then\n            gfx.fillPolygon(table.unpack(points))\n        end\n        if outline_width > 0 then\n            gfx.setLineWidth(outline_width)\n            gfx.setLineCapStyle(style.cap or gfx.kLineCapStyleButt)\n            gfx.drawPolygon(table.unpack(points))\n        end\n";

/// The branch body of the primitive-drawing function for path shapes.
pub const PRIM_PATH: &'static str = "        local points = params.points or {}\n        if outline_width > 0 then\n            gfx.setLineWidth(outline_width)\n            gfx.setLineCapStyle(style.cap or gfx.kLineCapStyleButt)\n            for i = 1, #points - 2, 2 do\n                gfx.drawLine(points[i], points[i + 1], points[i + 2], points[i + 3])\n            end\n            if params.closed and #points > 4 then\n                gfx.drawLine(points[#points - 1], points[#points], points[1], points[2])\n            end\n        end\n";

/// The kinds of the drawn objects among an object and its descendants.
pub open spec fn kinds_in(o: ObjectView) -> Set<Seq<char>>
    decreases o,
{
    let own = if o.visible && o.points.len() > 0 { set![o.kind] } else { Set::empty() };
    own.union(kinds_in_all(o.children))
}

/// The kinds of the drawn objects among a sequence of objects and their descendants.
pub open spec fn kinds_in_all(cs: Seq<ObjectView>) -> Set<Seq<char>>
    decreases cs,
{
    if cs.len() == 0 {
        Set::empty()
    } else {
        kinds_in_all(cs.drop_last()).union(kinds_in(cs.last()))
    }
}

/// The kinds of the drawn objects of the visible layers.
pub open spec fn kinds_in_layers(layers: Seq<LayerView>) -> Set<Seq<char>>
    decreases layers.len(),
{
    if layers.len() == 0 {
        Set::empty()
    } else {
        let here = if layers.last().visible { kinds_in_all(layers.last().objects) } else { Set::empty() };
        kinds_in_layers(layers.drop_last()).union(here)
    }
}

/// Whether one of the strings spells `k`.
pub open spec fn has_kind(kinds: Seq<String>, k: Seq<char>) -> bool {
    exists|i: int| 0 <= i < kinds.len() && (#[trigger] kinds[i])@ == k
}

/// The kinds that a list of strings spells.
pub open spec fn kind_set(kinds: Seq<String>) -> Set<Seq<char>> {
    Set::new(|k: Seq<char>| has_kind(kinds, k))
}

proof fn lemma_kind_set_push(kinds: Seq<String>, x: String)
    ensures
        kind_set(kinds.push(x)) == kind_set(kinds).insert(x@),
{
    let pushed = kinds.push(x);
    assert forall|k: Seq<char>| has_kind(pushed, k) <==> has_kind(kinds, k) || k == x@ by {
        if has_kind(kinds, k) {
            let i = choose|i: int| 0 <= i < kinds.len() && (#[trigger] kinds[i])@ == k;
            assert(pushed[i] == kinds[i]);
        }
        if k == x@ {
            assert(pushed[kinds.len() as int] == x);
        }
        if has_kind(pushed, k) {
            let i = choose|i: int| 0 <= i < pushed.len() && (#[trigger] pushed[i])@ == k;
            if i < kinds.len() {
                assert(kinds[i] == pushed[i]);
            }
        }
    }
    assert(kind_set(pushed) =~= kind_set(kinds).insert(x@));
}

/// The `if` or `elseif` line of a branch of the primitive-drawing function.
pub open spec fn branch_line(kind: Seq<char>, first: bool) -> Seq<char> {
    "    "@ + (if first { "if"@ } else { "elseif"@ }) + " kind == \""@ + kind + "\" then\n"@
}

/// The code so far and whether no branch has been written yet, after the
/// branch for `kind` where that kind is used.
pub open spec fn prim_part(kinds: Set<Seq<char>>, kind: Seq<char>, body: Seq<char>, acc: (Seq<char>, bool)) -> (Seq<char>, bool) {
    if kinds.contains(kind) {
        (acc.0 + branch_line(kind, acc.1) + body, false)
    } else {
        acc
    }
}

/// The primitive-drawing function with a branch for each of the kinds used.
pub open spec fn primitive_lua(kinds: Set<Seq<char>>) -> Seq<char> {
    let a0 = (PRIM_HEADER@, true);
    let a1 = prim_part(kinds, "pixel"@, PRIM_PIXEL@, a0);
    let a2 = prim_part(kinds, "rect"@, PRIM_RECT@, a1);
    let a3 = prim_part(kinds, "round_rect"@, PRIM_ROUND_RECT@, a2);
    let a4 = prim_part(kinds, "ellipse"@, PRIM_ELLIPSE@, a3);
    let a5 = prim_part(kinds, "polygon"@, PRIM_POLYGON@, a4);
    let a6 = prim_part(kinds, "path"@, PRIM_PATH@, a5);
    a6.0 + (if a6.1 { "end\n\n"@ } else { "    end\nend\n\n"@ })
}

fn find_kind(kinds: &Vec<String>, k: &str) -> (found: bool)
    ensures
        found == kind_set(kinds@).contains(k@),
{
    let mut i: usize = 0;
    while i < kinds.len()
        invariant
            i <= kinds.len(),
            forall|j: int| 0 <= j < i ==> (#[trigger] kinds@[j])@ != k@,
        decreases kinds.len() - i,
    {
        if crate::text::str_eq(kinds[i].as_str(), k) {
            return true;
        }
        i += 1;
    }
    false
}

/// Adds to `kinds` the kind of each drawn object among the object and its
/// descendants that is not there yet.
pub fn collect_animation_kinds(object: &VectorObject, kinds: &mut Vec<String>)
    ensures
        kind_set(final(kinds)@) == kind_set(old(kinds)@).union(kinds_in(object@)),
    decreases object,
{
    let ghost ov = object@;
    let ghost start = kinds@;
    if object.visible && object.points.len() > 0 {
        if !find_kind(kinds, object.kind.as_str()) {
            let ghost before = kinds@;
            kinds.push(object.kind.clone());
            proof {
                lemma_kind_set_push(before, object.kind);
            }
        } else {
            proof {
                assert(kind_set(kinds@) =~= kind_set(kinds@).insert(ov.kind));
            }
        }
    }
    let ghost own = if ov.visible && ov.points.len() > 0 { set![ov.kind] } else { Set::<Seq<char>>::empty() };
    proof {
        lemma_object_views_all(object.children@);
        assert(ov.children.take(0) =~= Seq::<ObjectView>::empty());
        assert(kind_set(kinds@) =~= kind_set(start).union(own).union(kinds_in_all(ov.children.take(0))));
    }
    let mut i: usize = 0;
    while i < object.children.len()
        invariant
            i <= object.children.len(),
            ov == object@,
            own == (if ov.visible && ov.points.len() > 0 { set![ov.kind] } else { Set::<Seq<char>>::empty() }),
            object_views(object.children@).len() == object.children.len(),
            forall|j: int| 0 <= j < object.children.len() ==> #[trigger] object_views(object.children@)[j] == object_view(object.children@[j]),
            kind_set(kinds@) == kind_set(start).union(own).union(kinds_in_all(ov.children.take(i as int))),
        decreases object.children.len() - i,
    {
        proof {
            assert(object_views(object.children@)[i as int] == object_view(object.children@[i as int]));
            assert(ov.children.take(i + 1).drop_last() =~= ov.children.take(i as int));
            assert(ov.children.take(i + 1).last() == object.children@[i as int]@);
        }
        collect_animation_kinds(&object.children[i], kinds);
        proof {
            assert(kind_set(kinds@) =~= kind_set(start).union(own).union(kinds_in_all(ov.children.take(i + 1))));
        }
        i = i + 1;
    }
    proof {
        assert(ov.children.take(i as int) =~= ov.children);
        assert(kind_set(kinds@) =~= kind_set(start).union(kinds_in(ov)));
    }
}

fn append_prim_part(out: &mut String, first: &mut bool, kinds: &Vec<String>, kind: &str, body: &str)
    ensures
        (final(out)@, *final(first)) == prim_part(
            kind_set(kinds@),
            kind@,
            body@,
            (old(out)@, *old(first)),
        ),
{
    if find_kind(kinds, kind) {
        let ghost o = out@;
        out.append("    ");
        if *first {
            out.append("if");
        } else {
            out.append("elseif");
        }
        out.append(" kind == \"");
        out.append(kind);
        out.append("\" then\n");
        out.append(body);
        *first = false;
        proof {
            assert(out@ =~= o + branch_line(kind@, *old(first)) + body@);
        }
    }
}

/// The primitive-drawing function for the kinds of the drawn objects of the
/// document's visible layers.
pub fn animation_primitive_lua(doc: &Document) -> (lua: String)
    ensures
        lua@ == primitive_lua(kinds_in_layers(doc@.layers)),
{
    let ghost d = doc@;
    let mut kinds: Vec<String> = Vec::new();
    let mut l: usize = 0;
    proof {
        assert(d.layers.take(0) =~= Seq::<LayerView>::empty());
        assert(kind_set(kinds@) =~= Set::<Seq<char>>::empty());
    }
    while l < doc.layers.len()
        invariant
            l <= doc.layers.len(),
            d == doc@,
            kind_set(kinds@) == kinds_in_layers(d.layers.take(l as int)),
        decreases doc.layers.len() - l,
    {
        let layer = &doc.layers[l];
        let ghost lv = d.layers[l as int];
        proof {
            assert(lv == layer@);
            lemma_object_views_all(layer.objects@);
            assert(d.layers.take(l + 1).drop_last() =~= d.layers.take(l as int));
            assert(d.layers.take(l + 1).last() == lv);
        }
        let ghost before = kinds@;
        if layer.visible {
            let mut i: usize = 0;
            proof {
                assert(lv.objects.take(0) =~= Seq::<ObjectView>::empty());
                assert(kind_set(kinds@) =~= kind_set(before).union(kinds_in_all(lv.objects.take(0))));
            }
            while i < layer.objects.len()
                invariant
                    i <= layer.objects.len(),
                    lv == layer@,
                    object_views(layer.objects@).len() == layer.objects.len(),
                    forall|j: int| 0 <= j < layer.objects.len() ==> #[trigger] object_views(layer.objects@)[j] == object_view(layer.objects@[j]),
                    kind_set(kinds@) == kind_set(before).union(kinds_in_all(lv.objects.take(i as int))),
                decreases layer.objects.len() - i,
            {
                proof {
                    assert(object_views(layer.objects@)[i as int] == object_view(layer.objects@[i as int]));
                    assert(lv.objects.take(i + 1).drop_last() =~= lv.objects.take(i as int));
                    assert(lv.objects.take(i + 1).last() == layer.objects@[i as int]@);
                }
                collect_animation_kinds(&layer.objects[i], &mut kinds);
                proof {
                    assert(kind_set(kinds@) =~= kind_set(before).union(kinds_in_all(lv.objects.take(i + 1))));
                }
                i = i + 1;
            }
            proof {
                assert(lv.objects.take(i as int) =~= lv.objects);
            }
        }
        proof {
            assert(kind_set(kinds@) =~= kinds_in_layers(d.layers.take(l + 1)));
        }
        l = l + 1;
    }
    proof {
        assert(d.layers.take(l as int) =~= d.layers);
    }
    let mut output = String::from_str(PRIM_HEADER);
    let mut first = true;
    append_prim_part(&mut output, &mut first, &kinds, "pixel", PRIM_PIXEL);
    append_prim_part(&mut output, &mut first, &kinds, "rect", PRIM_RECT);
    append_prim_part(&mut output, &mut first, &kinds, "round_rect", PRIM_ROUND_RECT);
    append_prim_part(&mut output, &mut first, &kinds, "ellipse", PRIM_ELLIPSE);
    append_prim_part(&mut output, &mut first, &kinds, "polygon", PRIM_POLYGON);
    append_prim_part(&mut output, &mut first, &kinds, "path", PRIM_PATH);
    if first {
        output.append("end\n\n");
    } else {
        output.append("    end\nend\n\n");
    }
    output
}


proof fn lemma_hidden_layers_lua(layers: Seq<LayerView>, active: bool)
    requires
        forall|l: int| 0 <= l < layers.len() ==> !(#[trigger] layers[l]).visible,
    ensures
        lua_layers(layers, active) == (Seq::<char>::empty(), active),
        last_color_of_layers(layers) is None,
        anim_layers(layers) == Seq::<char>::empty(),
        kinds_in_layers(layers) == Set::<Seq<char>>::empty(),
    decreases layers.len(),
{
    if layers.len() > 0 {
        lemma_hidden_layers_lua(layers.drop_last(), active);
        assert(!layers.last().visible);
        assert(Set::<Seq<char>>::empty().union(Set::<Seq<char>>::empty()) =~= Set::<Seq<char>>::empty());
    }
}

/// The exported code of a document whose layers are all hidden is the
/// header line alone.
pub proof fn law_hidden_layers_export_header_only(d: DocumentView)
    requires
        forall|l: int| 0 <= l < d.layers.len() ==> !(#[trigger] d.layers[l]).visible,
    ensures
        spec_playdate_lua(d) == HEADER@,
{
    lemma_hidden_layers_lua(d.layers, false);
    assert(spec_playdate_lua(d) =~= HEADER@);
}

/// The exported code always starts with the header line.
pub proof fn law_export_starts_with_header(d: DocumentView)
    ensures
        spec_playdate_lua(d).take(HEADER@.len() as int) == HEADER@,
{
    let rest = lua_layers(d.layers, false).0 + restore_black(last_color_of_layers(d.layers), "gfx.setColor(gfx.kColorBlack)\n"@);
    assert(spec_playdate_lua(d) =~= HEADER@ + rest);
    assert((HEADER@ + rest).take(HEADER@.len() as int) =~= HEADER@);
}


// ---------------------------------------------------------------------------
// The plain export: colours without blend modes, no dither resets
// ---------------------------------------------------------------------------

/// The plain code of one object alone: its colour by name, its dither
/// pattern where it has one, and the drawing calls of its shape.
pub open spec fn plain_object_lines(o: ObjectView) -> Seq<char> {
    let dither = match spec_lua_dither_pattern(o.style.dither_pattern@) {
        Some(p) => "gfx.setDitherPattern(0.5, "@ + p + ")\n"@,
        None => Seq::empty(),
    };
    "gfx.setColor("@ + spec_lua_color(o.style.color@) + ")\n"@ + dither + shape_lines(o)
}

/// The plain code of an object and its drawn descendants.
pub open spec fn plain_object(o: ObjectView) -> Seq<char>
    decreases o,
{
    if !o.visible || o.points.len() == 0 {
        Seq::empty()
    } else {
        plain_object_lines(o) + plain_objects(o.children)
    }
}

/// The plain code of a sequence of objects in order.
pub open spec fn plain_objects(cs: Seq<ObjectView>) -> Seq<char>
    decreases cs,
{
    if cs.len() == 0 {
        Seq::empty()
    } else {
        plain_objects(cs.drop_last()) + plain_object(cs.last())
    }
}

/// The plain code of the visible layers in order.
pub open spec fn plain_layers(layers: Seq<LayerView>) -> Seq<char>
    decreases layers.len(),
{
    if layers.len() == 0 {
        Seq::empty()
    } else if layers.last().visible {
        plain_layers(layers.drop_last()) + plain_objects(layers.last().objects)
    } else {
        plain_layers(layers.drop_last())
    }
}

/// Appends the plain code of an object and its drawn descendants.
pub fn append_lua_object(output: &mut String, object: &VectorObject)
    ensures
        final(output)@ == old(output)@ + plain_object(object@),
    decreases object,
{
    let ghost o = output@;
    let ghost ov = object@;
    if !object.visible || object.points.len() == 0 {
        assert(output@ =~= o + plain_object(ov));
        return;
    }
    output.append("gfx.setColor(");
    output.append(lua_color(object.style.color.as_str()));
    output.append(")\n");
    match lua_dither_pattern(object.style.dither_pattern.as_str()) {
        Some(pattern) => {
            output.append("gfx.setDitherPattern(0.5, ");
            output.append(pattern);
            output.append(")\n");
        },
        None => {},
    }
    append_shape(output, object);
    proof {
        assert(output@ =~= o + plain_object_lines(ov));
        lemma_object_views_all(object.children@);
        assert(ov.children.take(0) =~= Seq::<ObjectView>::empty());
    }
    let ghost mid = output@;
    let mut i: usize = 0;
    while i < object.children.len()
        invariant
            i <= object.children.len(),
            ov == object@,
            object_views(object.children@).len() == object.children.len(),
            forall|j: int| 0 <= j < object.children.len() ==> #[trigger] object_views(object.children@)[j] == object_view(object.children@[j]),
            output@ == mid + plain_objects(ov.children.take(i as int)),
        decreases object.children.len() - i,
    {
        proof {
            assert(object_views(object.children@)[i as int] == object_view(object.children@[i as int]));
            assert(ov.children.take(i + 1).drop_last() =~= ov.children.take(i as int));
            assert(ov.children.take(i + 1).last() == object.children@[i as int]@);
        }
        append_lua_object(output, &object.children[i]);
        proof {
            assert(output@ =~= mid + plain_objects(ov.children.take(i + 1)));
        }
        i = i + 1;
    }
    proof {
        assert(ov.children.take(i as int) =~= ov.children);
        assert(output@ =~= o + plain_object(ov));
    }
}

/// The plain Playdate Lua drawing code of a document: the header line, then
/// each visible object with its colour by name (blend modes ignored) and its
/// dither pattern where it has one.
pub fn playdate_lua_plain(doc: &Document) -> (lua: String)
    ensures
        lua@ == HEADER@ + plain_layers(doc@.layers),
{
    let ghost d = doc@;
    let mut output = String::from_str(HEADER);
    proof {
        assert(d.layers.take(0) =~= Seq::<LayerView>::empty());
    }
    let mut l: usize = 0;
    while l < doc.layers.len()
        invariant
            l <= doc.layers.len(),
            d == doc@,
            output@ == HEADER@ + plain_layers(d.layers.take(l as int)),
        decreases doc.layers.len() - l,
    {
        let layer = &doc.layers[l];
        let ghost lv = d.layers[l as int];
        let ghost before = output@;
        proof {
            assert(lv == layer@);
            lemma_object_views_all(layer.objects@);
            assert(d.layers.take(l + 1).drop_last() =~= d.layers.take(l as int));
            assert(d.layers.take(l + 1).last() == lv);
        }
        if layer.visible {
            let mut i: usize = 0;
            proof {
                assert(lv.objects.take(0) =~= Seq::<ObjectView>::empty());
            }
            while i < layer.objects.len()
                invariant
                    i <= layer.objects.len(),
                    lv == layer@,
                    object_views(layer.objects@).len() == layer.objects.len(),
                    forall|j: int| 0 <= j < layer.objects.len() ==> #[trigger] object_views(layer.objects@)[j] == object_view(layer.objects@[j]),
                    output@ == before + plain_objects(lv.objects.take(i as int)),
                decreases layer.objects.len() - i,
            {
                proof {
                    assert(object_views(layer.objects@)[i as int] == object_view(layer.objects@[i as int]));
                    assert(lv.objects.take(i + 1).drop_last() =~= lv.objects.take(i as int));
                    assert(lv.objects.take(i + 1).last() == layer.objects@[i as int]@);
                }
                append_lua_object(&mut output, &layer.objects[i]);
                proof {
                    assert(output@ =~= before + plain_objects(lv.objects.take(i + 1)));
                }
                i = i + 1;
            }
            proof {
                assert(lv.objects.take(i as int) =~= lv.objects);
                assert(output@ =~= HEADER@ + plain_layers(d.layers.take(l + 1)));
            }
        } else {
            proof {
                assert(output@ =~= HEADER@ + plain_layers(d.layers.take(l + 1)));
            }
        }
        l = l + 1;
    }
    proof {
        assert(d.layers.take(l as int) =~= d.layers);
    }
    output
}


/// Whether `text` occurs somewhere in `s`.
pub open spec fn contains_text(s: Seq<char>, text: Seq<char>) -> bool {
    exists|k: int| 0 <= k && k + text.len() <= s.len() && #[trigger] s.subrange(k, k + text.len()) == text
}

/// `text` occurs in `a + text + b`.
proof fn lemma_contains_middle(a: Seq<char>, text: Seq<char>, b: Seq<char>)
    ensures
        contains_text(a + text + b, text),
{
    let s = a + text + b;
    assert(s.subrange(a.len() as int, (a.len() + text.len()) as int) =~= text);
}

/// The code of a drawn object starts with its colour line and dither lines,
/// then its shape lines, then the code of its children.
proof fn lemma_lua_object_shape(o: ObjectView, active: bool)
    requires
        o.visible,
        o.points.len() > 0,
    ensures
        exists|a: Seq<char>, b: Seq<char>| lua_object(o, active).0 == a + shape_lines(o) + b,
{
    let head = object_lines(o, active);
    let rest = lua_objects(o.children, head.1);
    let d = dither_lines(o, active);
    let a = "gfx.setColor("@ + spec_lua_color_with_blend(o.style.color@, o.style.blend@) + ")\n"@ + d.0;
    assert(lua_object(o, active).0 =~= a + shape_lines(o) + rest.0);
}

/// `text` occurs in the code of a drawn object whenever it occurs in the
/// object's shape lines.
proof fn lemma_shape_text_in_code(o: ObjectView, active: bool, pre: Seq<char>, text: Seq<char>, post: Seq<char>)
    requires
        o.visible,
        o.points.len() > 0,
        shape_lines(o) == pre + text + post,
    ensures
        contains_text(lua_object(o, active).0, text),
{
    lemma_lua_object_shape(o, active);
    let (a, b) = choose|a: Seq<char>, b: Seq<char>| lua_object(o, active).0 == a + shape_lines(o) + b;
    assert(lua_object(o, active).0 =~= (a + pre) + text + (post + b));
    lemma_contains_middle(a + pre, text, post + b);
}

/// In the plain export, a drawn rectangle, rounded rectangle or ellipse is
/// drawn with the `fill` call of its shape exactly when its style is filled,
/// and with the `draw` call otherwise.
pub proof fn law_box_shape_call_follows_fill(o: ObjectView, active: bool)
    requires
        o.visible,
        o.points.len() >= 2,
    ensures
        spec_kind_of(o.kind) == Kind::Rect && o.style.fill ==> contains_text(lua_object(o, active).0, "gfx.fillRect("@),
        spec_kind_of(o.kind) == Kind::Rect && !o.style.fill ==> contains_text(lua_object(o, active).0, "gfx.drawRect("@),
        spec_kind_of(o.kind) == Kind::RoundRect && o.style.fill ==> contains_text(
            lua_object(o, active).0,
            "gfx.fillRoundRect("@,
        ),
        spec_kind_of(o.kind) == Kind::RoundRect && !o.style.fill ==> contains_text(
            lua_object(o, active).0,
            "gfx.drawRoundRect("@,
        ),
        spec_kind_of(o.kind) == Kind::Ellipse && o.style.fill ==> contains_text(
            lua_object(o, active).0,
            "gfx.fillEllipseInRect("@,
        ),
        spec_kind_of(o.kind) == Kind::Ellipse && !o.style.fill ==> contains_text(
            lua_object(o, active).0,
            "gfx.drawEllipseInRect("@,
        ),
{
    reveal_strlit("gfx.");
    reveal_strlit("(");
    reveal_strlit("gfx.fillRect(");
    reveal_strlit("gfx.drawRect(");
    reveal_strlit("fillRoundRect");
    reveal_strlit("drawRoundRect");
    reveal_strlit("gfx.fillRoundRect(");
    reveal_strlit("gfx.drawRoundRect(");
    reveal_strlit("fillEllipseInRect");
    reveal_strlit("drawEllipseInRect");
    reveal_strlit("gfx.fillEllipseInRect(");
    reveal_strlit("gfx.drawEllipseInRect(");
    let k = spec_kind_of(o.kind);
    let lw = line_width_line(o);
    if k == Kind::Rect {
        let call = if o.style.fill { "gfx.fillRect("@ } else { "gfx.drawRect("@ };
        assert(shape_lines(o) =~= lw + call + (box_text(o.points) + ")\n"@));
        lemma_shape_text_in_code(o, active, lw, call, box_text(o.points) + ")\n"@);
    } else if k == Kind::RoundRect {
        let word = if o.style.fill { "fillRoundRect"@ } else { "drawRoundRect"@ };
        let call = "gfx."@ + word + "("@;
        let post = box_text(o.points) + ", "@ + int_decimal(max_int(o.style.radius as int, 0)) + ")\n"@;
        assert(shape_lines(o) =~= lw + call + post);
        if o.style.fill {
            assert(call =~= "gfx.fillRoundRect("@);
        } else {
            assert(call =~= "gfx.drawRoundRect("@);
        }
        lemma_shape_text_in_code(o, active, lw, call, post);
    } else if k == Kind::Ellipse {
        let word = if o.style.fill { "fillEllipseInRect"@ } else { "drawEllipseInRect"@ };
        let call = "gfx."@ + word + "("@;
        let post = box_text(o.points) + ")\n"@;
        assert(shape_lines(o) =~= lw + call + post);
        if o.style.fill {
            assert(call =~= "gfx.fillEllipseInRect("@);
        } else {
            assert(call =~= "gfx.drawEllipseInRect("@);
        }
        lemma_shape_text_in_code(o, active, lw, call, post);
    }
}


/// In the animation export, the parameter table of a drawn rectangle,
/// rounded rectangle or ellipse spans the same box as its `drawObject`
/// call: `x` and `y` the smaller corner, `width = |x0 - x1|` and
/// `height = |y0 - y1|`.
pub proof fn law_animation_params_span_box(o: ObjectView)
    requires
        o.visible,
        o.points.len() >= 2,
        spec_kind_of(o.kind) == Kind::Rect || spec_kind_of(o.kind) == Kind::RoundRect || spec_kind_of(o.kind)
            == Kind::Ellipse,
    ensures
        contains_text(anim_object(o), "        local params = { "@ + box_fields(o.points) + " }\n"@),
        contains_text(
            anim_object(o),
            ", width = "@ + num(abs_int(o.points[0][0] - o.points[1][0])) + ", height = "@ + num(
                abs_int(o.points[0][1] - o.points[1][1]),
            ) + " }\n"@,
        ),
{
    reveal_strlit("        local params = { x = ");
    reveal_strlit("        local params = { ");
    reveal_strlit("x = ");
    let pts = o.points;
    let p = inline_params(o).unwrap();
    let head = inline_head(o);
    let after = "        local style = { "@ + join(style_fields(o), ", "@) + " }\n"@ + INLINE_SET_COLOR@ + INLINE_TRANSFORM@
        + inline_kind_block(o) + "    end\n"@ + anim_objects(o.children);
    assert(anim_object(o) =~= head + p + after);
    let table = "        local params = { "@ + box_fields(pts) + " }\n"@;
    assert(p =~= table);
    lemma_contains_middle(head, table, after);
    let xy = "        local params = { x = "@ + num(min_int(pts[0][0] as int, pts[1][0] as int)) + ", y = "@ + num(
        min_int(pts[0][1] as int, pts[1][1] as int),
    );
    let wh = ", width = "@ + num(abs_int(pts[0][0] - pts[1][0])) + ", height = "@ + num(abs_int(pts[0][1] - pts[1][1]))
        + " }\n"@;
    assert(anim_object(o) =~= (head + xy) + wh + after);
    lemma_contains_middle(head + xy, wh, after);
}

} // verus!
