use dotstroke::editor::{move_fits, move_object, DotStrokeApp};
use dotstroke::model::{VectorObject, COORD_LIMIT};
use dotstroke::text::parse_trimmed_i32;

fn app_with_tool(tool: &str) -> DotStrokeApp {
    let mut app = DotStrokeApp::default();
    app.tool = tool.to_string();
    app
}

fn object(kind: &str, points: &[[i32; 2]]) -> VectorObject {
    let mut o = VectorObject::default();
    o.kind = kind.to_string();
    o.points = points.to_vec();
    o.visible = true;
    o
}

fn app_with_objects(count: usize) -> DotStrokeApp {
    let mut app = app_with_tool("select");
    for i in 0..count {
        app.doc.layers[0].objects.push(object("pixel", &[[i as i32, 0]]));
    }
    app
}

fn first_x(app: &DotStrokeApp) -> Vec<i32> {
    app.doc.layers[0].objects.iter().map(|o| o.points[0][0]).collect()
}

#[test]
fn new_editor_state() {
    let app = DotStrokeApp::default();
    assert_eq!(app.tool, "line");
    assert_eq!(app.status, "Ready");
    assert_eq!(app.new_width, "32");
    assert_eq!(app.doc.layers.len(), 1);
    assert_eq!(app.current_tool_kind(), "line");
}

#[test]
fn tool_kinds_fills_and_labels() {
    let app = app_with_tool("fill_circle");
    assert_eq!(app.current_tool_kind(), "ellipse");
    assert!(app.current_tool_fill());
    assert_eq!(app.current_tool_label(), "fill circle");
    let app = app_with_tool("polyline");
    assert_eq!(app.current_tool_kind(), "polyline");
    assert!(!app.current_tool_fill());
    assert_eq!(app.current_tool_label(), "polyline");
}

#[test]
fn two_clicks_make_a_filled_rect() {
    let mut app = app_with_tool("fill_rect");
    app.color = "white".to_string();
    app.width = 3;
    app.canvas_click([1, 2]);
    assert_eq!(app.pending, vec![[1, 2]]);
    assert!(app.doc.layers[0].objects.is_empty());
    app.canvas_click([5, 6]);
    assert!(app.pending.is_empty());
    assert_eq!(app.status, "Vector added");
    let objects = &app.doc.layers[0].objects;
    assert_eq!(objects.len(), 1);
    assert_eq!(objects[0].kind, "rect");
    assert_eq!(objects[0].points, vec![[1, 2], [5, 6]]);
    assert!(objects[0].style.fill);
    assert_eq!(objects[0].style.color, "white");
    assert_eq!(objects[0].style.width, 3);
    assert_eq!(objects[0].style.cap, "butt");
    assert_eq!(objects[0].transform, "null");
    assert!(objects[0].visible);
}

#[test]
fn undo_removes_new_shape_and_redo_brings_it_back() {
    let mut app = app_with_tool("line");
    app.canvas_click([0, 0]);
    app.canvas_click([3, 3]);
    assert_eq!(app.doc.layers[0].objects.len(), 1);
    app.undo_document();
    assert_eq!(app.status, "Undo");
    assert!(app.doc.layers[0].objects.is_empty());
    app.redo_document();
    assert_eq!(app.status, "Redo");
    assert_eq!(app.doc.layers[0].objects.len(), 1);
}

#[test]
fn undo_with_empty_history_changes_nothing() {
    let mut app = DotStrokeApp::default();
    app.undo_document();
    assert_eq!(app.status, "Ready");
}

#[test]
fn pixel_tool_click_keeps_single_point() {
    let mut app = app_with_tool("pixel");
    app.canvas_click([1, 1]);
    app.canvas_click([2, 2]);
    assert_eq!(app.pending, vec![[2, 2]]);
    assert!(app.doc.layers[0].objects.is_empty());
}

#[test]
fn polygon_needs_three_points_and_closes() {
    let mut app = app_with_tool("fill_polygon");
    app.canvas_click([0, 0]);
    app.canvas_click([4, 0]);
    app.finalize_pending();
    assert!(app.doc.layers[0].objects.is_empty());
    assert_eq!(app.pending.len(), 2);
    app.canvas_click([2, 3]);
    app.finalize_pending();
    let objects = &app.doc.layers[0].objects;
    assert_eq!(objects.len(), 1);
    assert_eq!(objects[0].kind, "polygon");
    assert!(objects[0].closed);
    assert!(objects[0].style.fill);
}

#[test]
fn select_tool_click_does_not_draw() {
    let mut app = app_with_tool("select");
    app.canvas_click([1, 1]);
    assert!(app.pending.is_empty());
}

#[test]
fn selecting_single_toggle_and_range() {
    let mut app = app_with_objects(6);
    app.select_single_object(2);
    assert_eq!(app.selected, Some((0, 2)));
    assert_eq!(app.selected_objects, vec![2]);
    app.toggle_object_selection(4);
    assert_eq!(app.selected_objects, vec![2, 4]);
    assert_eq!(app.selected, Some((0, 4)));
    assert!(app.has_multiple_selected_objects());
    app.toggle_object_selection(2);
    assert_eq!(app.selected_objects, vec![4]);
    app.select_object_range(1);
    assert_eq!(app.selected_objects, vec![1, 2, 3, 4]);
    assert_eq!(app.selected, Some((0, 1)));
    app.toggle_object_selection(1);
    app.toggle_object_selection(2);
    app.toggle_object_selection(3);
    app.toggle_object_selection(4);
    assert!(app.selected_objects.is_empty());
    assert_eq!(app.selected, None);
}

#[test]
fn toggle_starts_from_selected_object() {
    let mut app = app_with_objects(3);
    app.selected = Some((0, 1));
    app.toggle_object_selection(2);
    assert_eq!(app.selected_objects, vec![1, 2]);
}

#[test]
fn range_without_selection_selects_one() {
    let mut app = app_with_objects(3);
    app.select_object_range(2);
    assert_eq!(app.selected_objects, vec![2]);
    assert_eq!(app.selected, Some((0, 2)));
}

#[test]
fn reorder_moves_object_and_selection_follows() {
    let mut app = app_with_objects(5);
    app.select_single_object(1);
    app.toggle_object_selection(3);
    app.reorder_vector(0, 1, 3);
    assert_eq!(first_x(&app), vec![0, 2, 3, 1, 4]);
    assert_eq!(app.selected, Some((0, 2)));
    assert_eq!(app.selected_objects, vec![3, 2]);
    assert_eq!(app.status, "Vector order changed");
    app.reorder_vector(0, 3, 1);
    assert_eq!(first_x(&app), vec![0, 1, 2, 3, 4]);
    app.undo_document();
    assert_eq!(first_x(&app), vec![0, 2, 3, 1, 4]);
}

#[test]
fn reorder_out_of_range_changes_nothing() {
    let mut app = app_with_objects(2);
    app.reorder_vector(0, 0, 2);
    app.reorder_vector(3, 0, 1);
    app.reorder_vector(0, 1, 1);
    assert_eq!(first_x(&app), vec![0, 1]);
    assert_eq!(app.status, "Ready");
}

#[test]
fn delete_and_duplicate() {
    let mut app = app_with_objects(3);
    app.select_single_object(1);
    app.duplicate_selected();
    assert_eq!(first_x(&app), vec![0, 1, 1, 2]);
    assert_eq!(app.selected, Some((0, 2)));
    assert_eq!(app.selected_objects, vec![2]);
    assert_eq!(app.status, "Vector duplicated");
    app.delete_selected();
    assert_eq!(first_x(&app), vec![0, 1, 2]);
    assert_eq!(app.selected, None);
    assert!(app.selected_objects.is_empty());
    assert_eq!(app.status, "Vector deleted");
    app.selected = Some((0, 9));
    app.delete_selected();
    assert_eq!(app.selected, None);
    assert_eq!(first_x(&app), vec![0, 1, 2]);
}

#[test]
fn move_selected_objects_and_point() {
    let mut app = app_with_objects(3);
    app.select_single_object(0);
    app.toggle_object_selection(2);
    app.move_selected([10, -1]);
    assert_eq!(app.doc.layers[0].objects[0].points, vec![[10, -1]]);
    assert_eq!(app.doc.layers[0].objects[1].points, vec![[1, 0]]);
    assert_eq!(app.doc.layers[0].objects[2].points, vec![[12, -1]]);
    app.select_single_object(1);
    app.move_selected_point(0, [1, 1]);
    assert_eq!(app.doc.layers[0].objects[1].points, vec![[2, 1]]);
    app.move_selected_point(5, [1, 1]);
    assert_eq!(app.doc.layers[0].objects[1].points, vec![[2, 1]]);
}

#[test]
fn move_object_adds_offset_past_limit() {
    let mut parent = object("rect", &[[0, 0], [COORD_LIMIT - 1, 5]]);
    parent.children.push(object("pixel", &[[1, 1]]));
    assert!(move_fits(&parent, [3, -2]));
    move_object(&mut parent, [3, -2]);
    assert_eq!(parent.points, vec![[3, -2], [COORD_LIMIT + 2, 3]]);
    assert_eq!(parent.children[0].points, vec![[4, -1]]);
    move_object(&mut parent, [2, 0]);
    assert_eq!(parent.points[1], [COORD_LIMIT + 4, 3]);
    move_object(&mut parent, [-5, 2]);
    assert_eq!(parent.points, vec![[0, 0], [COORD_LIMIT - 1, 5]]);
    assert_eq!(parent.children[0].points, vec![[1, 1]]);
}

#[test]
fn move_leaving_i32_range_is_refused() {
    let mut app = app_with_objects(2);
    app.doc.layers[0].objects[1].children.push(object("pixel", &[[i32::MAX, 0]]));
    assert!(!move_fits(&app.doc.layers[0].objects[1], [1, 0]));
    assert!(move_fits(&app.doc.layers[0].objects[1], [-1, 0]));
    app.select_single_object(0);
    app.toggle_object_selection(1);
    app.move_selected([1, 0]);
    assert_eq!(app.doc.layers[0].objects[0].points, vec![[1, 0]]);
    assert_eq!(app.doc.layers[0].objects[1].points, vec![[1, 0]]);
    assert_eq!(app.doc.layers[0].objects[1].children[0].points, vec![[i32::MAX, 0]]);
    app.doc.layers[0].objects[0].points[0] = [0, i32::MIN];
    app.select_single_object(0);
    app.move_selected_point(0, [0, -1]);
    assert_eq!(app.doc.layers[0].objects[0].points, vec![[0, i32::MIN]]);
    app.move_selected_point(0, [0, 1]);
    assert_eq!(app.doc.layers[0].objects[0].points, vec![[0, i32::MIN + 1]]);
}

#[test]
fn style_change_applies_to_selected_object_with_select_tool() {
    let mut app = app_with_objects(2);
    app.select_single_object(1);
    app.change_dither_pattern("bayer_4x4");
    assert_eq!(app.dither_pattern, "bayer_4x4");
    assert_eq!(app.doc.layers[0].objects[1].style.dither_pattern, "bayer_4x4");
    assert_eq!(app.doc.layers[0].objects[0].style.dither_pattern, "none");
    assert_eq!(app.status, "Dither pattern changed");
    app.change_color("white");
    assert_eq!(app.doc.layers[0].objects[1].style.color, "white");
    assert_eq!(app.status, "Color changed");
    app.change_blend("xor");
    assert_eq!(app.status, "Blend mode changed");
    app.change_width(4);
    assert_eq!(app.doc.layers[0].objects[1].style.width, 4);
    assert_eq!(app.status, "Width changed");
    app.change_radius(2);
    assert_eq!(app.doc.layers[0].objects[1].style.radius, 2);
    assert_eq!(app.status, "Corner radius changed");
    app.undo_document();
    assert_eq!(app.doc.layers[0].objects[1].style.radius, 4);
}

#[test]
fn style_change_without_select_tool_sets_only_tool_style() {
    let mut app = app_with_objects(1);
    app.select_single_object(0);
    app.tool = "rect".to_string();
    app.change_color("white");
    assert_eq!(app.color, "white");
    assert_eq!(app.doc.layers[0].objects[0].style.color, "black");
    assert_eq!(app.status, "Ready");
}

#[test]
fn fill_visibility_and_control_points() {
    let mut app = app_with_objects(1);
    app.select_single_object(0);
    app.change_fill(true);
    assert!(app.doc.layers[0].objects[0].style.fill);
    assert_eq!(app.status, "Fill enabled");
    app.change_fill(false);
    assert_eq!(app.status, "Fill disabled");
    app.toggle_visibility(0);
    assert!(!app.doc.layers[0].objects[0].visible);
    assert_eq!(app.status, "Vector hidden");
    app.toggle_visibility(0);
    assert_eq!(app.status, "Vector visible");
    app.edit_control_points(&vec![(0, [7, 8]), (3, [9, 9])]);
    assert_eq!(app.doc.layers[0].objects[0].points, vec![[7, 8]]);
    assert_eq!(app.status, "Control point updated");
}

#[test]
fn resolution_dialog_snaps_to_steps_of_eight() {
    let mut app = DotStrokeApp::default();
    app.doc.target.width = 1000;
    app.begin_change_resolution();
    assert_eq!(app.resolution_width, 400);
    assert_eq!(app.resolution_height, 32);
    assert!(app.resolution_dialog);
    app.resolution_width = 37;
    app.resolution_height = 3;
    app.apply_resolution();
    assert_eq!(app.doc.target.width, 40);
    assert_eq!(app.doc.target.height, 8);
    assert_eq!(app.status, "Resolution changed: 40 x 8");
    assert!(!app.resolution_dialog);
    app.resolution_width = 396;
    app.resolution_height = 11;
    app.apply_resolution();
    assert_eq!(app.doc.target.width, 400);
    assert_eq!(app.doc.target.height, 8);
}

#[test]
fn preset_size() {
    let mut app = DotStrokeApp::default();
    app.set_target_size(400, 240);
    assert_eq!((app.doc.target.width, app.doc.target.height), (400, 240));
    app.undo_document();
    assert_eq!((app.doc.target.width, app.doc.target.height), (32, 32));
}

#[test]
fn new_document_dialog() {
    let mut app = app_with_objects(2);
    app.doc.target.width = 48;
    app.begin_new_document();
    assert_eq!(app.new_width, "48");
    assert!(app.new_dialog);
    app.new_width = "abc".to_string();
    assert!(!app.create_new_document());
    assert_eq!(app.status, "Enter numeric width and height");
    app.new_width = "0".to_string();
    assert!(!app.create_new_document());
    assert_eq!(app.status, "Resolution must be positive");
    app.new_width = " 64 ".to_string();
    app.new_height = "+16".to_string();
    assert!(app.create_new_document());
    assert_eq!(app.status, "New document: 64 x 16");
    assert_eq!(app.doc.target.width, 64);
    assert_eq!(app.doc.target.height, 16);
    assert!(app.doc.layers[0].objects.is_empty());
    assert!(!app.new_dialog);
}

#[test]
fn parse_trimmed_integers() {
    assert_eq!(parse_trimmed_i32("42"), Some(42));
    assert_eq!(parse_trimmed_i32("\t-17 \n"), Some(-17));
    assert_eq!(parse_trimmed_i32("+8"), Some(8));
    assert_eq!(parse_trimmed_i32("-2147483648"), Some(i32::MIN));
    assert_eq!(parse_trimmed_i32("2147483647"), Some(i32::MAX));
    assert_eq!(parse_trimmed_i32("2147483648"), None);
    assert_eq!(parse_trimmed_i32(""), None);
    assert_eq!(parse_trimmed_i32("  "), None);
    assert_eq!(parse_trimmed_i32("-"), None);
    assert_eq!(parse_trimmed_i32("1 2"), None);
    assert_eq!(parse_trimmed_i32("\u{3000}5\u{a0}"), Some(5));
    for s in ["7", " 12 ", "-0", "+", "x1", "99999999999"] {
        assert_eq!(parse_trimmed_i32(s), s.trim().parse::<i32>().ok(), "{:?}", s);
    }
}

#[test]
fn moving_back_restores_object() {
    let mut parent = object("polygon", &[[0, 0], [5, 2], [-3, 7]]);
    parent.children.push(object("line", &[[1, 1], [2, 2]]));
    let before = parent.clone();
    move_object(&mut parent, [17, -4]);
    move_object(&mut parent, [-17, 4]);
    assert_eq!(parent.points, before.points);
    assert_eq!(parent.children[0].points, before.children[0].points);
}

#[test]
fn snapped_resolution_is_stable() {
    let mut app = DotStrokeApp::default();
    for v in [-5, 0, 8, 13, 100, 399, 401, 9999] {
        app.resolution_width = v;
        app.resolution_height = v;
        app.apply_resolution();
        let once = app.doc.target.width;
        assert_eq!(once % 8, 0);
        assert!((8..=400).contains(&once));
        app.resolution_width = once;
        app.apply_resolution();
        assert_eq!(app.doc.target.width, once);
    }
}

#[test]
fn toggling_twice_restores_selection() {
    let mut app = app_with_objects(5);
    app.select_single_object(0);
    app.toggle_object_selection(3);
    let before = app.selected_objects.clone();
    app.toggle_object_selection(4);
    app.toggle_object_selection(4);
    assert_eq!(app.selected_objects, before);
}
