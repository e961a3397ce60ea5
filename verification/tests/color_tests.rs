use spek_core::color::{
    create_gradient_map, hex_to_rgb, sort_gradient_stops, ColorStop, GradientStop, Rgb8,
};

fn rgb(r: u8, g: u8, b: u8) -> Rgb8 {
    Rgb8 { r, g, b }
}

fn stop(position: u32, color: &str) -> ColorStop {
    ColorStop { position, color: color.to_string() }
}

#[test]
fn hex_parses_valid_colors() {
    assert_eq!(hex_to_rgb("#FF8000"), rgb(255, 128, 0));
    assert_eq!(hex_to_rgb("ff8000"), rgb(255, 128, 0));
    assert_eq!(hex_to_rgb("#00aBcD"), rgb(0, 171, 205));
    assert_eq!(hex_to_rgb("##FF8000"), rgb(255, 128, 0));
    assert_eq!(hex_to_rgb("#000000"), rgb(0, 0, 0));
    assert_eq!(hex_to_rgb("#FFFFFF"), rgb(255, 255, 255));
}

#[test]
fn malformed_hex_resolves_to_black() {
    assert_eq!(hex_to_rgb(""), rgb(0, 0, 0));
    assert_eq!(hex_to_rgb("#FFF"), rgb(0, 0, 0));
    assert_eq!(hex_to_rgb("#GGGGGG"), rgb(0, 0, 0));
    assert_eq!(hex_to_rgb("#FF80001"), rgb(0, 0, 0));
    assert_eq!(hex_to_rgb("#FF 000"), rgb(0, 0, 0));
}

#[test]
fn sort_is_stable_on_equal_positions() {
    let stops = vec![
        GradientStop { position: 500, color: rgb(1, 1, 1) },
        GradientStop { position: 500, color: rgb(2, 2, 2) },
        GradientStop { position: 0, color: rgb(0, 0, 0) },
    ];
    let sorted = sort_gradient_stops(&stops);
    assert_eq!(sorted.len(), 3);
    assert_eq!(sorted[0], GradientStop { position: 0, color: rgb(0, 0, 0) });
    assert_eq!(sorted[1], GradientStop { position: 500, color: rgb(1, 1, 1) });
    assert_eq!(sorted[2], GradientStop { position: 500, color: rgb(2, 2, 2) });
}

#[test]
fn grayscale_lut_endpoints_and_middle() {
    let stops = vec![stop(0, "#000000"), stop(1000, "#FFFFFF")];
    let lut = create_gradient_map(&stops, 1024);
    assert_eq!(lut.len(), 1024);
    assert_eq!(lut[0], rgb(0, 0, 0));
    assert_eq!(lut[1023], rgb(255, 255, 255));
    // Slot 512 sits at 512/1023 of the ramp: floor(255 * 512000 / 1023000).
    assert_eq!(lut[512], rgb(127, 127, 127));
}

#[test]
fn lut_endpoints_hit_stop_colors_exactly() {
    let palettes: Vec<(Vec<ColorStop>, Rgb8, Rgb8)> = vec![
        (
            vec![
                stop(0, "#000000"),
                stop(400, "#0000FF"),
                stop(700, "#FF0000"),
                stop(1000, "#FFFFFF"),
            ],
            rgb(0, 0, 0),
            rgb(255, 255, 255),
        ),
        (
            vec![
                stop(0, "#000004"),
                stop(250, "#3B0F70"),
                stop(500, "#8C2981"),
                stop(750, "#DE4968"),
                stop(900, "#FE9F6D"),
                stop(1000, "#FCFDBF"),
            ],
            rgb(0, 0, 4),
            rgb(252, 253, 191),
        ),
        (
            vec![stop(0, "#440154"), stop(1000, "#FDE725")],
            rgb(68, 1, 84),
            rgb(253, 231, 37),
        ),
    ];
    for (stops, first, last) in palettes {
        let lut = create_gradient_map(&stops, 1024);
        assert_eq!(lut[0], first);
        assert_eq!(lut[1023], last);
    }
}

#[test]
fn lut_interior_value_is_exact() {
    // Audacity-style stops; slot 512 falls between the stops at 400 and
    // 700 per-mille, at factor 102800/306900 of that segment.
    let stops = vec![
        stop(0, "#000000"),
        stop(400, "#0000FF"),
        stop(700, "#FF0000"),
        stop(1000, "#FFFFFF"),
    ];
    let lut = create_gradient_map(&stops, 1024);
    assert_eq!(lut[512], rgb(85, 0, 169));
}

#[test]
fn lut_clamps_outside_stop_range() {
    // Stops covering only the middle: slots below clamp to the first
    // stop's color, slots above to the last one's.
    let stops = vec![stop(400, "#112233"), stop(600, "#445566")];
    let lut = create_gradient_map(&stops, 1024);
    assert_eq!(lut[0], rgb(0x11, 0x22, 0x33));
    assert_eq!(lut[100], rgb(0x11, 0x22, 0x33));
    assert_eq!(lut[900], rgb(0x44, 0x55, 0x66));
    assert_eq!(lut[1023], rgb(0x44, 0x55, 0x66));
}

#[test]
fn lut_of_single_stop_is_constant() {
    let stops = vec![stop(500, "#ABCDEF")];
    let lut = create_gradient_map(&stops, 16);
    for px in &lut {
        assert_eq!(*px, rgb(0xAB, 0xCD, 0xEF));
    }
}

#[test]
fn lut_zero_length_segment_takes_first_color() {
    // Two stops at the same position: the degenerate segment keeps the
    // first stop's color at its position; the ramp continues after it.
    let stops = vec![stop(0, "#000000"), stop(500, "#FF0000"), stop(500, "#00FF00"), stop(1000, "#FFFFFF")];
    let lut = create_gradient_map(&stops, 1024);
    assert_eq!(lut[0], rgb(0, 0, 0));
    assert_eq!(lut[1023], rgb(255, 255, 255));
}
