use spek_core::config::{
    default_height, default_palette, default_width, get_config_path, parse_palette, ColorConfig,
    Config, DefaultSettings,
};
use spek_core::color::ColorStop;
use spek_core::palette::{get_palette_stops, get_palette_stops_by_name, Palette};

#[test]
fn default_settings_values() {
    let d = DefaultSettings::default();
    assert_eq!(d.width, 2048);
    assert_eq!(d.height, 1024);
    assert!(!d.log_scale);
    assert_eq!(d.palette, "audacity");
    assert!(!d.rolloff);
    assert!(!d.verbose);
    assert_eq!(default_width(), 2048);
    assert_eq!(default_height(), 1024);
    assert_eq!(default_palette(), "audacity");
}

#[test]
fn default_config_has_no_font_and_empty_stops() {
    let c = Config::default();
    assert!(c.font_path.is_none());
    assert!(c.colors.stops.is_empty());
}

#[test]
fn parse_palette_is_case_insensitive() {
    assert_eq!(parse_palette("audacity"), Palette::Audacity);
    assert_eq!(parse_palette("MAGMA"), Palette::Magma);
    assert_eq!(parse_palette("Viridis"), Palette::Viridis);
    assert_eq!(parse_palette("iNfErNo"), Palette::Inferno);
    assert_eq!(parse_palette("GRAYSCALE"), Palette::Grayscale);
}

#[test]
fn unknown_palette_name_falls_back_to_default() {
    assert_eq!(parse_palette("does-not-exist"), Palette::Audacity);
    assert_eq!(parse_palette(""), Palette::Audacity);
}

#[test]
fn audacity_stops_contents() {
    let stops = get_palette_stops(Palette::Audacity);
    let expect: Vec<(u32, &str)> =
        vec![(0, "#000000"), (400, "#0000FF"), (700, "#FF0000"), (1000, "#FFFFFF")];
    assert_eq!(stops.len(), expect.len());
    for (s, (p, c)) in stops.iter().zip(expect.iter()) {
        assert_eq!(s.position, *p);
        assert_eq!(s.color, *c);
    }
}

#[test]
fn magma_stops_contents() {
    let stops = get_palette_stops(Palette::Magma);
    assert_eq!(stops.len(), 6);
    assert_eq!(stops[0].position, 0);
    assert_eq!(stops[0].color, "#000004");
    assert_eq!(stops[4].position, 900);
    assert_eq!(stops[5].color, "#FCFDBF");
}

#[test]
fn stops_by_name_ignores_case() {
    let stops = get_palette_stops_by_name("GrAyScAle");
    assert_eq!(stops.len(), 2);
    assert_eq!(stops[0].color, "#000000");
    assert_eq!(stops[1].color, "#FFFFFF");
}

#[test]
fn effective_stops_substitutes_default_for_empty() {
    let colors = ColorConfig { stops: Vec::new() };
    let eff = colors.effective_stops();
    assert_eq!(eff.len(), 4);
    assert_eq!(eff[0].color, "#000000");
    assert_eq!(eff[3].color, "#FFFFFF");
}

#[test]
fn effective_stops_passes_nonempty_through() {
    let colors = ColorConfig {
        stops: vec![ColorStop { position: 100, color: "#123456".to_string() }],
    };
    let eff = colors.effective_stops();
    assert_eq!(eff.len(), 1);
    assert_eq!(eff[0].position, 100);
    assert_eq!(eff[0].color, "#123456");
}

#[test]
fn config_path_ends_with_file_name() {
    if let Some(p) = get_config_path() {
        assert!(p.ends_with("/config.toml"));
    }
}
