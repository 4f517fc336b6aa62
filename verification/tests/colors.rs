use dotstroke::colors::{
    clear_color, dither_selected_border, dither_swatch_checker_dark, dither_swatch_diagonal, grid_major,
    grid_minor, guide_fill, guide_stroke, parse_hex_color, pixel_grid_stroke, preview_fill, preview_stroke,
    selection_fill, selection_stroke, transparency_checker_dark, transparency_checker_light, Rgba,
};

fn rgba(c: egui::Color32) -> Rgba {
    let [r, g, b, a] = c.to_array();
    Rgba { r, g, b, a }
}

#[test]
fn opaque_colors() {
    assert_eq!(clear_color(), Rgba { r: 0x3C, g: 0x96, b: 0xFF, a: 255 });
    assert_eq!(dither_swatch_diagonal(), clear_color());
    assert_eq!(dither_swatch_checker_dark(), Rgba { r: 0xD7, g: 0xD7, b: 0xD7, a: 255 });
    assert_eq!(transparency_checker_light(), Rgba { r: 0x8e, g: 0x8e, b: 0x8e, a: 255 });
    assert_eq!(transparency_checker_dark(), Rgba { r: 0xdc, g: 0xdc, b: 0xdc, a: 255 });
    assert_eq!(dither_selected_border(), Rgba { r: 0xFF, g: 0xB4, b: 0x46, a: 255 });
    assert_eq!(grid_major(), Rgba { r: 0xCD, g: 0xCD, b: 0xCD, a: 255 });
    assert_eq!(grid_minor(), Rgba { r: 0xE8, g: 0xE8, b: 0xE8, a: 255 });
    assert_eq!(selection_stroke(), Rgba { r: 0xFF, g: 0x00, b: 0x64, a: 255 });
}

#[test]
fn colors_with_alpha_are_premultiplied() {
    assert_eq!(preview_stroke(), Rgba { r: 105, g: 0, b: 41, a: 0x69 });
    assert_eq!(preview_stroke(), rgba(egui::Color32::from_rgba_unmultiplied(0xFF, 0x00, 0x64, 0x69)));
    assert_eq!(preview_fill(), rgba(egui::Color32::from_rgba_unmultiplied(0xFF, 0x00, 0x64, 0x14)));
    assert_eq!(selection_fill(), rgba(egui::Color32::from_rgba_unmultiplied(0xFF, 0x00, 0x64, 0x46)));
    assert_eq!(pixel_grid_stroke(), rgba(egui::Color32::from_rgba_unmultiplied(0x96, 0x96, 0x96, 0x78)));
    assert_eq!(guide_stroke(), rgba(egui::Color32::from_rgba_unmultiplied(0xFF, 0x00, 0x64, 0x96)));
    assert_eq!(guide_fill(), rgba(egui::Color32::from_rgba_unmultiplied(0xFF, 0x00, 0x64, 0x19)));
}

#[test]
fn hex_parsing_edge_cases() {
    assert_eq!(parse_hex_color("123456"), Rgba { r: 0x12, g: 0x34, b: 0x56, a: 255 });
    assert_eq!(parse_hex_color("#12"), Rgba { r: 0, g: 0, b: 0, a: 255 });
    assert_eq!(parse_hex_color("#zz00ff"), Rgba { r: 0, g: 0, b: 255, a: 255 });
    assert_eq!(parse_hex_color("#+f0000"), Rgba { r: 15, g: 0, b: 0, a: 255 });
    assert_eq!(parse_hex_color("#FFFFFF00"), Rgba { r: 0, g: 0, b: 0, a: 0 });
    assert_eq!(parse_hex_color("#102030zz"), Rgba { r: 0x10, g: 0x20, b: 0x30, a: 255 });
    assert_eq!(parse_hex_color("#80808080"), rgba(egui::Color32::from_rgba_unmultiplied(0x80, 0x80, 0x80, 0x80)));
}
