use vstd::prelude::*;

verus! {

use crate::color::ColorStop;
use crate::text::{eq_ignore_ascii_case, spec_lower};

/// The built-in color palettes.
#[derive(Debug, Clone, Copy, PartialEq, Eq, Structural)]
pub enum Palette {
    Audacity,
    Magma,
    Viridis,
    Inferno,
    Grayscale,
}

impl Default for Palette {
    fn default() -> (r: Self)
        ensures
            r == Palette::Audacity,
    {
        Palette::Audacity
    }
}

/// One stop has exactly this position (in thousandths) and hex color.
pub open spec fn spec_stop(s: ColorStop, position: u32, color: Seq<char>) -> bool {
    s.position == position && s.color@ == color
}

pub open spec fn is_audacity_stops(s: Seq<ColorStop>) -> bool {
    &&& s.len() == 4
    &&& spec_stop(s[0], 0, "#000000"@)
    &&& spec_stop(s[1], 400, "#0000FF"@)
    &&& spec_stop(s[2], 700, "#FF0000"@)
    &&& spec_stop(s[3], 1000, "#FFFFFF"@)
}

pub open spec fn is_magma_stops(s: Seq<ColorStop>) -> bool {
    &&& s.len() == 6
    &&& spec_stop(s[0], 0, "#000004"@)
    &&& spec_stop(s[1], 250, "#3B0F70"@)
    &&& spec_stop(s[2], 500, "#8C2981"@)
    &&& spec_stop(s[3], 750, "#DE4968"@)
    &&& spec_stop(s[4], 900, "#FE9F6D"@)
    &&& spec_stop(s[5], 1000, "#FCFDBF"@)
}

pub open spec fn is_viridis_stops(s: Seq<ColorStop>) -> bool {
    &&& s.len() == 5
    &&& spec_stop(s[0], 0, "#440154"@)
    &&& spec_stop(s[1], 250, "#3B528B"@)
    &&& spec_stop(s[2], 500, "#21908C"@)
    &&& spec_stop(s[3], 750, "#5DC863"@)
    &&& spec_stop(s[4], 1000, "#FDE725"@)
}

pub open spec fn is_inferno_stops(s: Seq<ColorStop>) -> bool {
    &&& s.len() == 6
    &&& spec_stop(s[0], 0, "#000004"@)
    &&& spec_stop(s[1], 250, "#420A68"@)
    &&& spec_stop(s[2], 500, "#932667"@)
    &&& spec_stop(s[3], 750, "#DD513A"@)
    &&& spec_stop(s[4], 900, "#FCA50A"@)
    &&& spec_stop(s[5], 1000, "#FCFFA4"@)
}

pub open spec fn is_grayscale_stops(s: Seq<ColorStop>) -> bool {
    &&& s.len() == 2
    &&& spec_stop(s[0], 0, "#000000"@)
    &&& spec_stop(s[1], 1000, "#FFFFFF"@)
}

/// Which stop list each palette stands for.
pub open spec fn is_stops_for(p: Palette, s: Seq<ColorStop>) -> bool {
    match p {
        Palette::Audacity => is_audacity_stops(s),
        Palette::Magma => is_magma_stops(s),
        Palette::Viridis => is_viridis_stops(s),
        Palette::Inferno => is_inferno_stops(s),
        Palette::Grayscale => is_grayscale_stops(s),
    }
}

fn stop(position: u32, color: &str) -> (r: ColorStop)
    ensures
        spec_stop(r, position, color@),
{
    ColorStop { position, color: color.to_owned() }
}

fn audacity_palette() -> (r: Vec<ColorStop>)
    ensures
        is_audacity_stops(r@),
{
    let mut v: Vec<ColorStop> = Vec::new();
    v.push(stop(0, "#000000"));
    v.push(stop(400, "#0000FF"));
    v.push(stop(700, "#FF0000"));
    v.push(stop(1000, "#FFFFFF"));
    v
}

fn magma_palette() -> (r: Vec<ColorStop>)
    ensures
        is_magma_stops(r@),
{
    let mut v: Vec<ColorStop> = Vec::new();
    v.push(stop(0, "#000004"));
    v.push(stop(250, "#3B0F70"));
    v.push(stop(500, "#8C2981"));
    v.push(stop(750, "#DE4968"));
    v.push(stop(900, "#FE9F6D"));
    v.push(stop(1000, "#FCFDBF"));
    v
}

fn viridis_palette() -> (r: Vec<ColorStop>)
    ensures
        is_viridis_stops(r@),
{
    let mut v: Vec<ColorStop> = Vec::new();
    v.push(stop(0, "#440154"));
    v.push(stop(250, "#3B528B"));
    v.push(stop(500, "#21908C"));
    v.push(stop(750, "#5DC863"));
    v.push(stop(1000, "#FDE725"));
    v
}

fn inferno_palette() -> (r: Vec<ColorStop>)
    ensures
        is_inferno_stops(r@),
{
    let mut v: Vec<ColorStop> = Vec::new();
    v.push(stop(0, "#000004"));
    v.push(stop(250, "#420A68"));
    v.push(stop(500, "#932667"));
    v.push(stop(750, "#DD513A"));
    v.push(stop(900, "#FCA50A"));
    v.push(stop(1000, "#FCFFA4"));
    v
}

fn grayscale_palette() -> (r: Vec<ColorStop>)
    ensures
        is_grayscale_stops(r@),
{
    let mut v: Vec<ColorStop> = Vec::new();
    v.push(stop(0, "#000000"));
    v.push(stop(1000, "#FFFFFF"));
    v
}

/// The palette a name selects, compared ASCII-case-insensitively; an
/// unknown name falls back to the default palette.
pub open spec fn spec_parse_palette(name: Seq<char>) -> Palette {
    if spec_lower(name) == "audacity"@ {
        Palette::Audacity
    } else if spec_lower(name) == "magma"@ {
        Palette::Magma
    } else if spec_lower(name) == "viridis"@ {
        Palette::Viridis
    } else if spec_lower(name) == "inferno"@ {
        Palette::Inferno
    } else if spec_lower(name) == "grayscale"@ {
        Palette::Grayscale
    } else {
        Palette::Audacity
    }
}

/// Lowercasing one of the palette names changes nothing.
proof fn lemma_lower_audacity()
    ensures
        spec_lower("audacity"@) == "audacity"@,
{
    reveal_strlit("audacity");
    assert(spec_lower("audacity"@) =~= "audacity"@);
}

proof fn lemma_lower_magma()
    ensures
        spec_lower("magma"@) == "magma"@,
{
    reveal_strlit("magma");
    assert(spec_lower("magma"@) =~= "magma"@);
}

proof fn lemma_lower_viridis()
    ensures
        spec_lower("viridis"@) == "viridis"@,
{
    reveal_strlit("viridis");
    assert(spec_lower("viridis"@) =~= "viridis"@);
}

proof fn lemma_lower_inferno()
    ensures
        spec_lower("inferno"@) == "inferno"@,
{
    reveal_strlit("inferno");
    assert(spec_lower("inferno"@) =~= "inferno"@);
}

proof fn lemma_lower_grayscale()
    ensures
        spec_lower("grayscale"@) == "grayscale"@,
{
    reveal_strlit("grayscale");
    assert(spec_lower("grayscale"@) =~= "grayscale"@);
}

/// Lowercasing any of the five palette names changes nothing: they are
/// already lowercase.
pub proof fn lemma_palette_names_lowercase()
    ensures
        spec_lower("audacity"@) == "audacity"@,
        spec_lower("magma"@) == "magma"@,
        spec_lower("viridis"@) == "viridis"@,
        spec_lower("inferno"@) == "inferno"@,
        spec_lower("grayscale"@) == "grayscale"@,
{
    lemma_lower_audacity();
    lemma_lower_magma();
    lemma_lower_viridis();
    lemma_lower_inferno();
    lemma_lower_grayscale();
}

/// Color stops of one palette.
pub fn get_palette_stops(palette: Palette) -> (r: Vec<ColorStop>)
    ensures
        is_stops_for(palette, r@),
{
    match palette {
        Palette::Audacity => audacity_palette(),
        Palette::Magma => magma_palette(),
        Palette::Viridis => viridis_palette(),
        Palette::Inferno => inferno_palette(),
        Palette::Grayscale => grayscale_palette(),
    }
}

/// Color stops of the palette a name selects (ASCII-case-insensitively;
/// unknown names fall back to the default palette).
pub fn get_palette_stops_by_name(name: &str) -> (r: Vec<ColorStop>)
    ensures
        is_stops_for(spec_parse_palette(name@), r@),
{
    proof {
        lemma_lower_audacity();
        lemma_lower_magma();
        lemma_lower_viridis();
        lemma_lower_inferno();
        lemma_lower_grayscale();
    }
    if eq_ignore_ascii_case(name, "audacity") {
        audacity_palette()
    } else if eq_ignore_ascii_case(name, "magma") {
        magma_palette()
    } else if eq_ignore_ascii_case(name, "viridis") {
        viridis_palette()
    } else if eq_ignore_ascii_case(name, "inferno") {
        inferno_palette()
    } else if eq_ignore_ascii_case(name, "grayscale") {
        grayscale_palette()
    } else {
        audacity_palette()
    }
}

} // verus!
