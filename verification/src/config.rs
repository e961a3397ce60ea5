use vstd::prelude::*;

verus! {

use vstd::string::StringExecFns;
use crate::color::ColorStop;
use crate::palette::{get_palette_stops_by_name, is_audacity_stops, spec_parse_palette, Palette};

/// Default values for the rendering settings a caller can override.
#[derive(Debug, Clone)]
pub struct DefaultSettings {
    /// Default image width in pixels.
    pub width: u32,
    /// Default image height in pixels.
    pub height: u32,
    /// Use a logarithmic frequency scale by default.
    pub log_scale: bool,
    /// Default color palette name.
    pub palette: String,
    /// Show the spectral rolloff indicator by default.
    pub rolloff: bool,
    /// Verbose mode by default.
    pub verbose: bool,
}

pub fn default_width() -> (r: u32)
    ensures
        r == 2048,
{
    2048
}

pub fn default_height() -> (r: u32)
    ensures
        r == 1024,
{
    1024
}

pub fn default_palette() -> (r: String)
    ensures
        r@ == "audacity"@,
{
    String::from_str("audacity")
}

/// The settings a fresh configuration starts from.
pub open spec fn is_default_settings(s: &DefaultSettings) -> bool {
    &&& s.width == 2048
    &&& s.height == 1024
    &&& s.log_scale == false
    &&& s.palette@ == "audacity"@
    &&& s.rolloff == false
    &&& s.verbose == false
}

impl Default for DefaultSettings {
    fn default() -> (r: Self)
        ensures
            is_default_settings(&r),
    {
        DefaultSettings {
            width: default_width(),
            height: default_height(),
            log_scale: false,
            palette: default_palette(),
            rolloff: false,
            verbose: false,
        }
    }
}

/// The color palette configuration: an ordered list of gradient stops.
#[derive(Debug, Clone)]
pub struct ColorConfig {
    pub stops: Vec<ColorStop>,
}

impl Default for ColorConfig {
    fn default() -> (r: Self)
        ensures
            r.stops@.len() == 0,
    {
        ColorConfig { stops: Vec::new() }
    }
}

impl ColorConfig {
    /// The stops a render pass actually uses: the configured ones, or the
    /// built-in default palette when the set is empty. An empty palette is
    /// not an error.
    pub fn effective_stops(&self) -> (r: Vec<ColorStop>)
        ensures
            r@.len() >= 1,
            self.stops@.len() >= 1 ==> r@ == self.stops@,
            self.stops@.len() == 0 ==> is_audacity_stops(r@),
    {
        if self.stops.len() == 0 {
            proof {
                crate::palette::lemma_palette_names_lowercase();
            }
            get_palette_stops_by_name("audacity")
        } else {
            let mut out: Vec<ColorStop> = Vec::new();
            let mut i: usize = 0;
            while i < self.stops.len()
                invariant
                    i <= self.stops@.len(),
                    out@ =~= self.stops@.take(i as int),
                decreases self.stops@.len() - i,
            {
                let s = &self.stops[i];
                out.push(ColorStop { position: s.position, color: s.color.clone() });
                proof {
                    assert(out@.last() == self.stops@[i as int]);
                    assert(out@ =~= self.stops@.take(i + 1));
                }
                i += 1;
            }
            proof {
                assert(self.stops@.take(self.stops@.len() as int) =~= self.stops@);
            }
            out
        }
    }
}

/// The whole configuration: default settings, palette, and an optional
/// custom font path for the caller's label drawing.
#[derive(Debug, Clone)]
pub struct Config {
    pub defaults: DefaultSettings,
    pub colors: ColorConfig,
    pub font_path: Option<String>,
}

impl Default for Config {
    fn default() -> (r: Self)
        ensures
            is_default_settings(&r.defaults),
            r.colors.stops@.len() == 0,
            r.font_path == Option::<String>::None,
    {
        Config {
            defaults: DefaultSettings::default(),
            colors: ColorConfig::default(),
            font_path: None,
        }
    }
}

/// Platform configuration directory for this program, if the environment
/// defines one.
///
/// Relies on directories::ProjectDirs::from and ProjectDirs::config_dir:
/// the result depends on the process environment, so nothing more is
/// promised of it.
#[verifier::external_body]
pub fn get_config_dir() -> (r: Option<String>) {
    directories::ProjectDirs::from("", "", "spek").map(
        |p| p.config_dir().to_string_lossy().into_owned(),
    )
}

/// Path of the configuration file: the file `config.toml` inside the
/// platform configuration directory, when one exists.
pub fn get_config_path() -> (r: Option<String>)
    ensures
        match r {
            Some(p) => p@.len() >= 12 && p@.skip(p@.len() - 12) =~= "/config.toml"@,
            None => true,
        },
{
    match get_config_dir() {
        Some(dir) => Some(config_path_in(dir)),
        None => None,
    }
}

/// Appends the configuration file name to a directory path.
pub fn config_path_in(dir: String) -> (r: String)
    ensures
        r@ == dir@ + "/config.toml"@,
        r@.len() >= 12,
        r@.skip(r@.len() - 12) =~= "/config.toml"@,
{
    proof {
        reveal_strlit("/config.toml");
    }
    let mut p = dir;
    p.append("/config.toml");
    proof {
        assert(p@.skip(p@.len() - 12) =~= "/config.toml"@);
    }
    p
}

/// The palette a name selects, ASCII-case-insensitively; unknown names
/// fall back to the default palette.
pub fn parse_palette(name: &str) -> (r: Palette)
    ensures
        r == spec_parse_palette(name@),
{
    proof {
        crate::palette::lemma_palette_names_lowercase();
    }
    if crate::text::eq_ignore_ascii_case(name, "audacity") {
        Palette::Audacity
    } else if crate::text::eq_ignore_ascii_case(name, "magma") {
        Palette::Magma
    } else if crate::text::eq_ignore_ascii_case(name, "viridis") {
        Palette::Viridis
    } else if crate::text::eq_ignore_ascii_case(name, "inferno") {
        Palette::Inferno
    } else if crate::text::eq_ignore_ascii_case(name, "grayscale") {
        Palette::Grayscale
    } else {
        Palette::Audacity
    }
}

} // verus!
