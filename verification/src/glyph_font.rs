//! The bundled fonts: where they are put for the font system to find, and
//! whether the logo glyph can be drawn.
use vstd::prelude::*;
use crate::paths::{join_path, joined_path, path_view, utf8};

verus! {

/// The Omarchy logo in the bundled face.
pub const OMARCHY_LOGO: char = '\u{e900}';

/// The logo can be drawn.
pub open spec fn drawable(registered: Option<bool>) -> bool {
    registered == Some(true)
}

/// A bundled file is not there, or not as it should be.
pub open spec fn stale(existing_len: Option<u64>, len: u64) -> bool {
    existing_len != Some(len)
}

/// Whether the Omarchy logo can be drawn. `registered` tells whether the font
/// system took the face, once it has been asked.
pub fn omarchy_available(registered: Option<bool>) -> (available: bool)
    ensures
        available == drawable(registered),
{
    match registered {
        Some(taken) => taken,
        None => false,
    }
}

/// Where the bundled fonts are put: beneath `XDG_CACHE_HOME`, or else beneath
/// `~/.cache`.
pub open spec fn font_dir(cache_home: Option<Seq<u8>>, home: Option<Seq<u8>>) -> Option<Seq<u8>> {
    let base = match (cache_home, home) {
        (Some(dir), _) => Some(dir),
        (None, Some(h)) => Some(joined_path(h, utf8(".cache"@))),
        (None, None) => None,
    };
    match base {
        Some(dir) => Some(joined_path(joined_path(dir, utf8("monitorhop"@)), utf8("fonts"@))),
        None => None,
    }
}

/// Where the bundled fonts are put: nowhere, where neither variable is set.
pub fn cache_dir(cache_home: Option<&[u8]>, home: Option<&[u8]>) -> (dir: Option<Vec<u8>>)
    ensures
        match dir {
            Some(d) => font_dir(path_view(cache_home), path_view(home)) == Some(d@),
            None => font_dir(path_view(cache_home), path_view(home)) is None,
        },
{
    let app: Vec<u8> = match cache_home {
        Some(dir) => join_path(dir, "monitorhop"),
        None => match home {
            Some(h) => join_path(join_path(h, ".cache").as_slice(), "monitorhop"),
            None => {
                return None;
            },
        },
    };
    Some(join_path(app.as_slice(), "fonts"))
}

/// The files of the bundled fonts.
#[derive(Debug)]
pub struct FontPaths {
    pub omarchy: Vec<u8>,
    pub adwaita: Vec<u8>,
}

/// The files of the bundled fonts in their directory.
pub fn font_paths(dir: &[u8]) -> (paths: FontPaths)
    ensures
        paths.omarchy@ == joined_path(dir@, utf8("monitorhop-omarchy.ttf"@)),
        paths.adwaita@ == joined_path(dir@, utf8("monitorhop-AdwaitaSans-Regular.ttf"@)),
{
    FontPaths {
        omarchy: join_path(dir, "monitorhop-omarchy.ttf"),
        adwaita: join_path(dir, "monitorhop-AdwaitaSans-Regular.ttf"),
    }
}

/// Whether a bundled file of `len` bytes has to be written: not where a file
/// of that length is there, for its content never changes.
pub fn needs_write(existing_len: Option<u64>, len: u64) -> (needed: bool)
    ensures
        needed == stale(existing_len, len),
{
    match existing_len {
        Some(there) => there != len,
        None => true,
    }
}

/// The fonts are put into a directory of their own in the user's cache.
pub proof fn law_fonts_lie_in_the_cache(cache: Seq<u8>, home: Option<Seq<u8>>, own: Seq<u8>)
    ensures
        font_dir(Some(cache), home) == Some(
            joined_path(joined_path(cache, utf8("monitorhop"@)), utf8("fonts"@)),
        ),
        font_dir(None, Some(own)) == font_dir(Some(joined_path(own, utf8(".cache"@))), None),
        font_dir(None, None) is None,
{
}

/// The logo is drawn only once the font system has taken its face; and a file is
/// written unless one of the same length is there.
pub proof fn law_fonts_are_used_once_they_are_there(len: u64, other: u64)
    requires
        other != len,
    ensures
        drawable(Some(true)),
        !drawable(Some(false)),
        !drawable(None),
        stale(None, len),
        stale(Some(other), len),
        !stale(Some(len), len),
{
}

} // verus!
