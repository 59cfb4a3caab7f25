//! Console configuration: the settings a configuration file supplies.
use vstd::prelude::*;
use vstd::string::StrSliceExecFns;

verus! {

/// How the font image is coloured.
#[derive(Clone, Copy, PartialEq, Eq, Structural, Debug)]
pub enum FontType {
    Default,
    Greyscale,
}

/// How glyphs are laid out in the font image.
#[derive(Clone, Copy, PartialEq, Eq, Structural, Debug)]
pub enum FontLayout {
    Tcod,
    AsciiInRow,
    AsciiInCol,
}

/// The console's rendering back end.
#[derive(Clone, Copy, PartialEq, Eq, Structural, Debug)]
pub enum Renderer {
    SDL,
    GLSL,
    OpenGL,
}

/// A setting whose text names no known choice.
#[derive(Clone, Copy, PartialEq, Eq, Structural, Debug)]
pub enum ConfigError {
    BadFontType,
    BadFontLayout,
    BadRenderer,
}

/// The console and map settings.
#[derive(Clone, Debug)]
pub struct Config {
    pub screen_width: i32,
    pub screen_height: i32,
    pub map_width: i32,
    pub map_height: i32,
    pub fullscreen: bool,
    pub fontpath: String,
    pub fonttype: FontType,
    pub fontlayout: FontLayout,
    pub renderer: Renderer,
}

pub open spec fn font_type_named(s: Seq<char>) -> Option<FontType> {
    if s == "Default"@ {
        Some(FontType::Default)
    } else if s == "Greyscale"@ {
        Some(FontType::Greyscale)
    } else {
        None
    }
}

pub open spec fn font_layout_named(s: Seq<char>) -> Option<FontLayout> {
    if s == "Tcod"@ {
        Some(FontLayout::Tcod)
    } else if s == "AsciiInRow"@ {
        Some(FontLayout::AsciiInRow)
    } else if s == "AsciiInCol"@ {
        Some(FontLayout::AsciiInCol)
    } else {
        None
    }
}

pub open spec fn renderer_named(s: Seq<char>) -> Option<Renderer> {
    if s == "SDL"@ {
        Some(Renderer::SDL)
    } else if s == "GLSL"@ {
        Some(Renderer::GLSL)
    } else if s == "OpenGL"@ {
        Some(Renderer::OpenGL)
    } else {
        None
    }
}

/// Whether two strings hold the same characters.
pub fn same_text(a: &str, b: &str) -> (r: bool)
    ensures
        r == (a@ == b@),
{
    let n = a.unicode_len();
    if n != b.unicode_len() {
        return false;
    }
    let mut i: usize = 0;
    while i < n
        invariant
            n == a@.len() && n == b@.len(),
            i <= n,
            forall|k: int| 0 <= k < i ==> a@[k] == b@[k],
        decreases n - i,
    {
        if a.get_char(i) != b.get_char(i) {
            return false;
        }
        i = i + 1;
    }
    assert(a@ =~= b@);
    true
}

impl FontType {
    /// The font type a configuration names.
    pub fn from_name(s: &str) -> (r: Option<FontType>)
        ensures
            r == font_type_named(s@),
    {
        if same_text(s, "Default") {
            proof { reveal_strlit("Default"); }
            Some(FontType::Default)
        } else if same_text(s, "Greyscale") {
            proof { reveal_strlit("Default"); reveal_strlit("Greyscale"); }
            Some(FontType::Greyscale)
        } else {
            None
        }
    }
}

impl FontLayout {
    /// The font layout a configuration names.
    pub fn from_name(s: &str) -> (r: Option<FontLayout>)
        ensures
            r == font_layout_named(s@),
    {
        if same_text(s, "Tcod") {
            Some(FontLayout::Tcod)
        } else if same_text(s, "AsciiInRow") {
            proof { reveal_strlit("Tcod"); reveal_strlit("AsciiInRow"); }
            Some(FontLayout::AsciiInRow)
        } else if same_text(s, "AsciiInCol") {
            proof { reveal_strlit("Tcod"); reveal_strlit("AsciiInRow"); reveal_strlit("AsciiInCol"); }
            Some(FontLayout::AsciiInCol)
        } else {
            None
        }
    }
}

impl Renderer {
    /// The renderer a configuration names.
    pub fn from_name(s: &str) -> (r: Option<Renderer>)
        ensures
            r == renderer_named(s@),
    {
        if same_text(s, "SDL") {
            Some(Renderer::SDL)
        } else if same_text(s, "GLSL") {
            proof { reveal_strlit("SDL"); reveal_strlit("GLSL"); }
            Some(Renderer::GLSL)
        } else if same_text(s, "OpenGL") {
            proof { reveal_strlit("SDL"); reveal_strlit("GLSL"); reveal_strlit("OpenGL"); }
            Some(Renderer::OpenGL)
        } else {
            None
        }
    }
}

impl Config {
    /// A configuration from the values a file gives: sizes as read (cut to 32
    /// bits), and the font type, font layout and renderer by name; an unknown
    /// name is an error, checked in that order.
    #[verifier::truncate]
    pub fn from_values(
        screen_width: i64,
        screen_height: i64,
        map_width: i64,
        map_height: i64,
        fullscreen: bool,
        fontpath: String,
        fonttype: &str,
        fontlayout: &str,
        renderer: &str,
    ) -> (r: Result<Config, ConfigError>)
        ensures
            font_type_named(fonttype@) is None ==> r == Err::<Config, ConfigError>(ConfigError::BadFontType),
            font_type_named(fonttype@) is Some && font_layout_named(fontlayout@) is None ==> r == Err::<
                Config,
                ConfigError,
            >(ConfigError::BadFontLayout),
            font_type_named(fonttype@) is Some && font_layout_named(fontlayout@) is Some && renderer_named(
                renderer@,
            ) is None ==> r == Err::<Config, ConfigError>(ConfigError::BadRenderer),
            r is Ok ==> ({
                let c = r->Ok_0;
                &&& c.screen_width == screen_width as i32 && c.screen_height == screen_height as i32
                &&& c.map_width == map_width as i32 && c.map_height == map_height as i32
                &&& c.fullscreen == fullscreen && c.fontpath == fontpath
                &&& Some(c.fonttype) == font_type_named(fonttype@)
                &&& Some(c.fontlayout) == font_layout_named(fontlayout@)
                &&& Some(c.renderer) == renderer_named(renderer@)
            }),
            (font_type_named(fonttype@) is Some && font_layout_named(fontlayout@) is Some && renderer_named(
                renderer@,
            ) is Some) ==> r is Ok,
    {
        let ft = match FontType::from_name(fonttype) {
            Some(f) => f,
            None => return Err(ConfigError::BadFontType),
        };
        let fl = match FontLayout::from_name(fontlayout) {
            Some(f) => f,
            None => return Err(ConfigError::BadFontLayout),
        };
        let rd = match Renderer::from_name(renderer) {
            Some(f) => f,
            None => return Err(ConfigError::BadRenderer),
        };
        Ok(Config {
            screen_width: screen_width as i32,
            screen_height: screen_height as i32,
            map_width: map_width as i32,
            map_height: map_height as i32,
            fullscreen,
            fontpath,
            fonttype: ft,
            fontlayout: fl,
            renderer: rd,
        })
    }
}

} // verus!
