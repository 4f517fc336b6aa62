use dotstroke::export::{lua_cap_style, lua_color, lua_color_with_blend, lua_dither_pattern, lua_number};
use dotstroke::lua::{
    animation_primitive_lua, append_lua_object, append_lua_object_simple, playdate_lua_plain, append_lua_object_with_animation_function,
    collect_animation_kinds, join_strings, last_visible_lua_color, lua_style_fields, playdate_lua,
    playdate_lua_simple, ANIM_HEADER_START, HEADER, PRIM_HEADER, PRIM_RECT,
};
use dotstroke::model::{Document, VectorObject};

fn object(kind: &str, points: &[[i32; 2]]) -> VectorObject {
    let mut o = VectorObject::default();
    o.kind = kind.to_string();
    o.points = points.to_vec();
    o.visible = true;
    o
}

fn document_with(objects: Vec<VectorObject>) -> Document {
    let mut doc = Document::default();
    doc.layers[0].objects = objects;
    doc
}

#[test]
fn lua_color_names() {
    assert_eq!(lua_color("white"), "gfx.kColorWhite");
    assert_eq!(lua_color("clear"), "gfx.kColorClear");
    assert_eq!(lua_color("black"), "gfx.kColorBlack");
    assert_eq!(lua_color("purple"), "gfx.kColorBlack");
}

#[test]
fn lua_color_with_blend_prefers_xor() {
    assert_eq!(lua_color_with_blend("white", "xor"), "gfx.kColorXOR");
    assert_eq!(lua_color_with_blend("white", "normal"), "gfx.kColorWhite");
    assert_eq!(lua_color_with_blend("clear", "other"), "gfx.kColorClear");
}

#[test]
fn lua_cap_style_names() {
    assert_eq!(lua_cap_style("round"), "gfx.kLineCapStyleRound");
    assert_eq!(lua_cap_style("square"), "gfx.kLineCapStyleSquare");
    assert_eq!(lua_cap_style("butt"), "gfx.kLineCapStyleButt");
    assert_eq!(lua_cap_style(""), "gfx.kLineCapStyleButt");
}

#[test]
fn lua_dither_pattern_names() {
    assert_eq!(lua_dither_pattern("bayer_4x4"), Some("gfx.image.kDitherTypeBayer4x4"));
    assert_eq!(lua_dither_pattern("diagonal_line"), Some("gfx.image.kDitherTypeDiagonalLine"));
    assert_eq!(lua_dither_pattern("atkinson"), Some("gfx.image.kDitherTypeAtkinson"));
    assert_eq!(lua_dither_pattern("none"), None);
    assert_eq!(lua_dither_pattern("unknown"), None);
}

#[test]
fn lua_number_whole_values() {
    assert_eq!(lua_number(0), "0");
    assert_eq!(lua_number(42), "42");
    assert_eq!(lua_number(-7), "-7");
}

#[test]
fn export_of_empty_document_is_header() {
    let doc = Document::default();
    assert_eq!(playdate_lua_simple(&doc), "local gfx <const> = playdate.graphics\n");
    assert_eq!(HEADER, "local gfx <const> = playdate.graphics\n");
}

#[test]
fn export_of_rect() {
    let doc = document_with(vec![object("rect", &[[5, 7], [1, 2]])]);
    assert_eq!(
        playdate_lua(&doc, false, "16", "16"),
        "local gfx <const> = playdate.graphics\ngfx.setColor(gfx.kColorBlack)\ngfx.setLineWidth(1)\ngfx.drawRect(1, 2, 4, 5)\n"
    );
}

#[test]
fn export_sets_and_resets_dither_pattern() {
    let mut dithered = object("pixel", &[[1, 1]]);
    dithered.style.dither_pattern = "bayer_4x4".to_string();
    let plain = object("pixel", &[[2, 2]]);
    let doc = document_with(vec![dithered, plain]);
    assert_eq!(
        playdate_lua_simple(&doc),
        "local gfx <const> = playdate.graphics\n\
         gfx.setColor(gfx.kColorBlack)\n\
         gfx.setDitherPattern(0.5, gfx.image.kDitherTypeBayer4x4)\n\
         gfx.drawPixel(1, 1)\n\
         gfx.setColor(gfx.kColorBlack)\n\
         gfx.setDitherPattern(0.5, gfx.image.kDitherTypeNone)\n\
         gfx.drawPixel(2, 2)\n"
    );
}

#[test]
fn export_restores_black_after_white() {
    let mut white = object("pixel", &[[3, 4]]);
    white.style.color = "white".to_string();
    let doc = document_with(vec![white]);
    assert_eq!(
        playdate_lua_simple(&doc),
        "local gfx <const> = playdate.graphics\ngfx.setColor(gfx.kColorWhite)\ngfx.drawPixel(3, 4)\ngfx.setColor(gfx.kColorBlack)\n"
    );
}

#[test]
fn export_of_hidden_layer_is_header() {
    let mut doc = document_with(vec![object("rect", &[[0, 0], [3, 3]])]);
    doc.layers[0].visible = false;
    assert_eq!(playdate_lua_simple(&doc), HEADER);
}

#[test]
fn export_of_polygon_and_closed_path() {
    let mut polygon = object("polygon", &[[0, 0], [4, 0], [2, 3]]);
    polygon.style.fill = true;
    polygon.style.cap = "round".to_string();
    let mut path = object("path", &[[0, 0], [1, 1], [2, 0]]);
    path.closed = true;
    path.style.width = 3;
    let doc = document_with(vec![polygon, path]);
    assert_eq!(
        playdate_lua_simple(&doc),
        "local gfx <const> = playdate.graphics\n\
         gfx.setColor(gfx.kColorBlack)\n\
         gfx.setLineWidth(1)\n\
         gfx.setLineCapStyle(gfx.kLineCapStyleRound)\n\
         gfx.fillPolygon(0, 0, 4, 0, 2, 3)\n\
         gfx.drawPolygon(0, 0, 4, 0, 2, 3)\n\
         gfx.setColor(gfx.kColorBlack)\n\
         gfx.setLineWidth(3)\n\
         gfx.setLineCapStyle(gfx.kLineCapStyleButt)\n\
         gfx.drawLine(0, 0, 1, 1)\n\
         gfx.drawLine(1, 1, 2, 0)\n\
         gfx.drawLine(2, 0, 0, 0)\n"
    );
}

#[test]
fn simple_object_with_children() {
    let mut parent = object("pixel", &[[1, 2]]);
    let mut child = object("pixel", &[[3, 4]]);
    child.style.blend = "xor".to_string();
    parent.children.push(child);
    let mut out = String::new();
    let mut dither_active = false;
    append_lua_object_simple(&mut out, &parent, &mut dither_active);
    assert_eq!(
        out,
        "gfx.setColor(gfx.kColorBlack)\ngfx.drawPixel(1, 2)\ngfx.setColor(gfx.kColorXOR)\ngfx.drawPixel(3, 4)\n"
    );
    assert!(!dither_active);
}

#[test]
fn last_color_comes_from_last_drawn_descendant() {
    let mut parent = object("pixel", &[[1, 2]]);
    let mut child = object("pixel", &[[3, 4]]);
    child.style.color = "white".to_string();
    parent.children.push(child);
    assert_eq!(last_visible_lua_color(&parent), Some("white"));
    let hidden = VectorObject::default();
    assert_eq!(last_visible_lua_color(&hidden), None);
}

#[test]
fn style_fields_and_join() {
    let mut o = object("rect", &[[0, 0], [1, 1]]);
    o.style.dither_pattern = "screen".to_string();
    o.style.radius = -3;
    let fields = lua_style_fields(&o);
    assert_eq!(
        join_strings(&fields, ", "),
        "color = gfx.kColorBlack, blend = \"normal\", cap = gfx.kLineCapStyleButt, fill = false, radius = 0, ditherPattern = gfx.image.kDitherTypeScreen"
    );
}

#[test]
fn animation_export_frames_objects() {
    let doc = document_with(vec![object("rect", &[[0, 0], [4, 4]])]);
    let lua = playdate_lua(&doc, true, "16", "8");
    assert!(lua.starts_with(ANIM_HEADER_START));
    assert!(lua.contains("    local rotation_center_x = 16\n    local rotation_center_y = 8\n"));
    assert!(lua.contains("        local kind = \"rect\"\n"));
    assert!(lua.ends_with("end\n"));
}

#[test]
fn draw_object_call_of_pixel_and_path() {
    let mut out = String::new();
    append_lua_object_with_animation_function(&mut out, &object("pixel", &[[3, 4]]));
    assert_eq!(
        out,
        "drawObject(\"pixel\", { x = 3, y = 4 }, { color = gfx.kColorBlack, blend = \"normal\", cap = gfx.kLineCapStyleButt, fill = false, radius = 4 }, outline_width)\n"
    );
    let mut out = String::new();
    append_lua_object_with_animation_function(&mut out, &object("line", &[[0, 0], [2, 5]]));
    assert_eq!(
        out,
        "drawObject(\"path\", { points = { 0, 0, 2, 5 }, closed = false }, { color = gfx.kColorBlack, blend = \"normal\", cap = gfx.kLineCapStyleButt, fill = false, radius = 4 }, outline_width)\n"
    );
    let mut out = String::new();
    append_lua_object_with_animation_function(&mut out, &object("ellipse", &[[6, 1], [2, 9]]));
    assert!(out.starts_with("drawObject(\"ellipse\", { x = 2, y = 1, width = 4, height = 8 }, { "));
}

#[test]
fn primitive_function_has_branches_for_used_kinds() {
    let doc = document_with(vec![object("rect", &[[0, 0], [4, 4]])]);
    let lua = animation_primitive_lua(&doc);
    let expected = format!("{}    if kind == \"rect\" then\n{}    end\nend\n\n", PRIM_HEADER, PRIM_RECT);
    assert_eq!(lua, expected);
    let empty = animation_primitive_lua(&Document::default());
    assert_eq!(empty, format!("{}end\n\n", PRIM_HEADER));
}

#[test]
fn collect_kinds_includes_children_once() {
    let mut parent = object("rect", &[[0, 0], [4, 4]]);
    parent.children.push(object("rect", &[[1, 1], [2, 2]]));
    parent.children.push(object("pixel", &[[1, 1]]));
    let mut kinds: Vec<String> = Vec::new();
    collect_animation_kinds(&parent, &mut kinds);
    assert_eq!(kinds, vec!["rect".to_string(), "pixel".to_string()]);
}

#[test]
fn plain_export_ignores_blend_and_keeps_dither() {
    let mut first = object("pixel", &[[1, 1]]);
    first.style.color = "white".to_string();
    first.style.blend = "xor".to_string();
    first.style.dither_pattern = "screen".to_string();
    let second = object("pixel", &[[2, 2]]);
    let doc = document_with(vec![first, second]);
    assert_eq!(
        playdate_lua_plain(&doc),
        "local gfx <const> = playdate.graphics\n\
         gfx.setColor(gfx.kColorWhite)\n\
         gfx.setDitherPattern(0.5, gfx.image.kDitherTypeScreen)\n\
         gfx.drawPixel(1, 1)\n\
         gfx.setColor(gfx.kColorBlack)\n\
         gfx.drawPixel(2, 2)\n"
    );
    let mut out = String::new();
    append_lua_object(&mut out, &VectorObject::default());
    assert_eq!(out, "");
}

#[test]
fn export_starts_with_header() {
    let mut white = object("ellipse", &[[0, 0], [6, 4]]);
    white.style.color = "white".to_string();
    white.style.fill = true;
    let doc = document_with(vec![white, object("line", &[[0, 0], [1, 0]])]);
    let lua = playdate_lua_simple(&doc);
    assert!(lua.starts_with(HEADER));
    assert!(lua.contains("gfx.fillEllipseInRect(0, 0, 6, 4)\n"));
}
