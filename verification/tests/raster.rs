use dotstroke::model::{Document, VectorObject, COORD_LIMIT};
use dotstroke::raster::{
    apply_raster_blend_color, bayer_4x4_threshold, bayer_8x8_threshold, brush_radius, color_of,
    dither_allows_pixel, document_renderable, draw_raster_ellipse, draw_raster_line, object_brush,
    pixel_preview, pixel_preview_with_background, pixels_to_rgba, put_raster_pixel, rasterize_object,
    Brush, Dither, Pixel,
};

fn object(kind: &str, points: &[[i32; 2]]) -> VectorObject {
    let mut o = VectorObject::default();
    o.kind = kind.to_string();
    o.points = points.to_vec();
    o.visible = true;
    o
}

fn document(width: i32, height: i32, objects: Vec<VectorObject>) -> Document {
    let mut doc = Document::default();
    doc.target.width = width;
    doc.target.height = height;
    doc.layers[0].objects = objects;
    doc
}

fn black_at(pixels: &[Pixel], width: usize) -> Vec<(usize, usize)> {
    pixels
        .iter()
        .enumerate()
        .filter(|(_, p)| **p == Pixel::Black)
        .map(|(i, _)| (i % width, i / width))
        .collect()
}

fn solid_black(radius: i64) -> Brush {
    Brush { color: Pixel::Black, xor: false, radius, dither: Dither::Solid }
}

#[test]
fn bayer_thresholds() {
    assert_eq!(bayer_4x4_threshold(0, 0), 0);
    assert_eq!(bayer_4x4_threshold(1, 0), 8);
    assert_eq!(bayer_4x4_threshold(5, 7), 7);
    assert_eq!(bayer_8x8_threshold(7, 7), 21);
    assert_eq!(bayer_8x8_threshold(9, 1), 16);
}

#[test]
fn dither_masks() {
    assert!(dither_allows_pixel("none", 5, 9));
    assert!(dither_allows_pixel("unknown", 5, 9));
    assert!(!dither_allows_pixel("screen", 1, 0));
    assert!(dither_allows_pixel("screen", 1, 1));
    assert!(!dither_allows_pixel("vertical_line", 2, 0));
    assert!(dither_allows_pixel("horizontal_line", 2, 1));
    assert!(dither_allows_pixel("bayer_4x4", 0, 0));
    assert!(!dither_allows_pixel("bayer_4x4", 1, 0));
}

#[test]
fn blend_modes() {
    assert_eq!(apply_raster_blend_color(Pixel::Black, Pixel::White, "xor"), Pixel::White);
    assert_eq!(apply_raster_blend_color(Pixel::White, Pixel::White, "xor"), Pixel::Black);
    assert_eq!(apply_raster_blend_color(Pixel::White, Pixel::Black, "normal"), Pixel::Black);
    assert_eq!(apply_raster_blend_color(Pixel::Black, Pixel::Transparent, "xor"), Pixel::Transparent);
}

#[test]
fn xor_twice_restores_pixel() {
    for p in [Pixel::Black, Pixel::White] {
        for c in [Pixel::Black, Pixel::White] {
            let once = apply_raster_blend_color(p, c, "xor");
            assert_eq!(apply_raster_blend_color(once, c, "xor"), p);
        }
    }
}

#[test]
fn brush_radius_of_widths() {
    assert_eq!(brush_radius(1), 0);
    assert_eq!(brush_radius(2), 0);
    assert_eq!(brush_radius(3), 1);
    assert_eq!(brush_radius(8), 3);
}

#[test]
fn colors_of_style_names() {
    assert_eq!(color_of("white", false), Pixel::White);
    assert_eq!(color_of("clear", true), Pixel::Transparent);
    assert_eq!(color_of("clear", false), Pixel::White);
    assert_eq!(color_of("black", true), Pixel::Black);
    let mut o = object("line", &[[0, 0], [1, 1]]);
    o.style.width = 5;
    o.style.blend = "xor".to_string();
    o.style.dither_pattern = "screen".to_string();
    let b = object_brush(&o, false);
    assert_eq!(b.radius, 2);
    assert!(b.xor);
    assert_eq!(b.dither, Dither::Screen);
}

#[test]
fn put_pixel_with_radius() {
    let mut pixels = vec![Pixel::White; 25];
    put_raster_pixel(&mut pixels, 5, 5, 2, 2, solid_black(1));
    assert_eq!(black_at(&pixels, 5), vec![(2, 1), (1, 2), (2, 2), (3, 2), (2, 3)]);
    let mut pixels = vec![Pixel::White; 4];
    put_raster_pixel(&mut pixels, 2, 2, -5, 9, solid_black(0));
    assert_eq!(pixels, vec![Pixel::White; 4]);
}

#[test]
fn horizontal_and_diagonal_lines() {
    let mut pixels = vec![Pixel::White; 15];
    draw_raster_line(&mut pixels, 5, 3, 0, 1, 3, 1, solid_black(0));
    assert_eq!(black_at(&pixels, 5), vec![(0, 1), (1, 1), (2, 1), (3, 1)]);
    let mut pixels = vec![Pixel::White; 16];
    draw_raster_line(&mut pixels, 4, 4, 3, 3, 0, 0, solid_black(0));
    assert_eq!(black_at(&pixels, 4), vec![(0, 0), (1, 1), (2, 2), (3, 3)]);
}

#[test]
fn ellipse_outline() {
    let mut pixels = vec![Pixel::White; 25];
    draw_raster_ellipse(&mut pixels, 5, 5, [0, 0, 4, 4], solid_black(0));
    let black = black_at(&pixels, 5);
    for p in [(2, 0), (0, 2), (4, 2), (2, 4)] {
        assert!(black.contains(&p), "missing {:?}", p);
    }
    assert!(!black.contains(&(2, 2)));
}

#[test]
fn filled_rect_preview() {
    let mut rect = object("rect", &[[1, 1], [3, 2]]);
    rect.style.fill = true;
    let doc = document(5, 4, vec![rect]);
    let pixels = pixel_preview(&doc).unwrap();
    assert_eq!(pixels.len(), 20);
    assert_eq!(black_at(&pixels, 5), vec![(1, 1), (2, 1)]);
}

#[test]
fn pixel_shape_draws_within_its_point_box() {
    let doc = document(4, 4, vec![object("pixel", &[[2, 2]])]);
    let pixels = pixel_preview(&doc).unwrap();
    assert_eq!(black_at(&pixels, 4), vec![(2, 2)]);
}

#[test]
fn hidden_object_draws_nothing() {
    let mut rect = object("rect", &[[0, 0], [3, 3]]);
    rect.style.fill = true;
    rect.visible = false;
    let doc = document(4, 4, vec![rect]);
    assert_eq!(pixel_preview(&doc).unwrap(), vec![Pixel::White; 16]);
    let mut pixels = vec![Pixel::White; 16];
    let mut shown = object("rect", &[[0, 0], [3, 3]]);
    shown.visible = false;
    rasterize_object(&mut pixels, 4, 4, &shown, false);
    assert_eq!(pixels, vec![Pixel::White; 16]);
}

#[test]
fn clear_color_erases_on_transparent_background() {
    let mut rect = object("rect", &[[0, 0], [2, 1]]);
    rect.style.fill = true;
    rect.style.color = "clear".to_string();
    let doc = document(2, 1, vec![rect]);
    assert!(document_renderable(&doc));
    let pixels = pixel_preview_with_background(&doc, Pixel::Black, true);
    assert_eq!(pixels, vec![Pixel::Transparent, Pixel::Transparent]);
}

#[test]
fn preview_size_is_at_least_one_pixel() {
    let doc = document(0, -3, vec![]);
    assert_eq!(pixel_preview(&doc).unwrap(), vec![Pixel::White]);
}

#[test]
fn out_of_range_document_is_not_rendered() {
    let doc = document(4, 4, vec![object("pixel", &[[COORD_LIMIT + 1, 0]])]);
    assert!(!document_renderable(&doc));
    assert!(pixel_preview(&doc).is_none());
}

#[test]
fn rgba_bytes_of_pixels() {
    let bytes = pixels_to_rgba(&vec![Pixel::Black, Pixel::White, Pixel::Transparent]);
    assert_eq!(bytes, vec![0, 0, 0, 255, 255, 255, 255, 255, 0, 0, 0, 0]);
}

#[test]
fn hidden_layer_draws_nothing() {
    let mut rect = object("rect", &[[0, 0], [3, 3]]);
    rect.style.fill = true;
    let mut doc = document(3, 3, vec![rect]);
    doc.layers[0].visible = false;
    assert_eq!(pixel_preview(&doc).unwrap(), vec![Pixel::White; 9]);
}

#[test]
fn filled_ellipse_preview() {
    let mut ellipse = object("ellipse", &[[0, 0], [4, 4]]);
    ellipse.style.fill = true;
    let doc = document(5, 5, vec![ellipse]);
    let pixels = pixel_preview(&doc).unwrap();
    assert_eq!(
        black_at(&pixels, 5),
        vec![
            (1, 0), (2, 0),
            (0, 1), (1, 1), (2, 1), (3, 1),
            (0, 2), (1, 2), (2, 2), (3, 2),
            (1, 3), (2, 3),
        ]
    );
}

#[test]
fn filled_round_rect_preview() {
    let mut round = object("round_rect", &[[0, 0], [8, 8]]);
    round.style.fill = true;
    round.style.radius = 2;
    let doc = document(9, 9, vec![round]);
    let black = black_at(&pixel_preview(&doc).unwrap(), 9);
    assert_eq!(black.len(), 60);
    for p in [(1, 0), (0, 1), (4, 4), (6, 0), (7, 6)] {
        assert!(black.contains(&p), "missing {:?}", p);
    }
    for p in [(0, 0), (7, 0), (0, 7), (7, 7), (8, 4), (4, 8)] {
        assert!(!black.contains(&p), "unexpected {:?}", p);
    }
}

#[test]
fn outlined_round_rect_preview() {
    let mut round = object("round_rect", &[[0, 0], [8, 8]]);
    round.style.radius = 2;
    let doc = document(9, 9, vec![round]);
    let black = black_at(&pixel_preview(&doc).unwrap(), 9);
    assert!(black.contains(&(4, 0)));
    assert!(black.contains(&(0, 4)));
    assert!(!black.contains(&(4, 4)));
    assert!(!black.contains(&(2, 2)));
}

#[test]
fn dither_patterns_fill_half_of_every_window() {
    let patterns = [
        "diagonal_line", "vertical_line", "horizontal_line", "screen", "bayer_2x2",
        "bayer_4x4", "bayer_8x8", "floyd_steinberg", "burkes", "atkinson",
    ];
    for pattern in patterns {
        for (x0, y0) in [(0usize, 0usize), (13, 1000), (999_952, 7), (5, 999_999)] {
            let mut count = 0;
            for y in y0..y0 + 48 {
                for x in x0..x0 + 48 {
                    if dither_allows_pixel(pattern, x, y) {
                        count += 1;
                    }
                }
            }
            assert_eq!(count, 1152, "{} at {:?}", pattern, (x0, y0));
        }
        for (x, y) in [(0usize, 0usize), (7, 3), (31, 44), (1000, 999)] {
            assert_eq!(dither_allows_pixel(pattern, x + 48, y), dither_allows_pixel(pattern, x, y));
            assert_eq!(dither_allows_pixel(pattern, x, y + 48), dither_allows_pixel(pattern, x, y));
        }
    }
}

#[test]
fn changed_pixels_are_blends_of_the_style() {
    for (blend, pattern, color) in [("xor", "bayer_4x4", "black"), ("normal", "atkinson", "white"), ("xor", "burkes", "white")] {
        let mut shape = object("polygon", &[[1, 1], [14, 2], [8, 13]]);
        shape.style.fill = true;
        shape.style.blend = blend.to_string();
        shape.style.dither_pattern = pattern.to_string();
        shape.style.color = color.to_string();
        let before: Vec<Pixel> = (0..256).map(|i| if (i / 3) % 2 == 0 { Pixel::Black } else { Pixel::White }).collect();
        let mut pixels = before.clone();
        rasterize_object(&mut pixels, 16, 16, &shape, false);
        let c = color_of(&shape.style.color, false);
        let mut changed = 0;
        for i in 0..256 {
            if pixels[i] != before[i] {
                changed += 1;
                assert_eq!(pixels[i], apply_raster_blend_color(before[i], c, &shape.style.blend));
                assert!(dither_allows_pixel(pattern, i % 16, i / 16));
            }
        }
        assert!(changed > 0);
    }
}
