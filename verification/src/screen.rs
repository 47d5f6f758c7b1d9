//! The shared data model: screens, fill modes, and the error taxonomy, plus
//! the per-backend integer codes for fill modes.

use vstd::prelude::*;

verus! {

/// Wallpaper fill/scaling behaviour of one screen.
#[derive(Clone, Copy, Debug, PartialEq, Eq, Structural)]
pub enum Mode {
    Center,
    Crop,
    Fit,
    Stretch,
    Tile,
}

/// One logical display's wallpaper configuration.
///
/// `name` identifies the screen in backend-specific terms: for KDE it is a
/// numeric desktop id rendered as a string, for XFCE a hierarchical path
/// fragment such as `screen0/monitor0`. `active` is false for an XFCE entry
/// that is only a default template for new workspaces, not a live monitor.
#[derive(Clone, Debug)]
pub struct Screen {
    pub name: String,
    pub wallpaper: Option<String>,
    pub mode: Option<Mode>,
    pub active: bool,
}

/// The mathematical model of a `Screen`: its strings as character sequences.
pub ghost struct ScreenSpec {
    pub name: Seq<char>,
    pub wallpaper: Option<Seq<char>>,
    pub mode: Option<Mode>,
    pub active: bool,
}

impl View for Screen {
    type V = ScreenSpec;

    open spec fn view(&self) -> ScreenSpec {
        ScreenSpec {
            name: self.name@,
            wallpaper: match self.wallpaper {
                Some(w) => Some(w@),
                None => None,
            },
            mode: self.mode,
            active: self.active,
        }
    }
}

/// One error taxonomy shared by both adapters.
#[derive(Clone, Debug)]
pub enum WallpaperError {
    /// The desktop environment's service could not be reached.
    ConnectionFailed,
    /// An external tool failed; the payload describes the invocation.
    InvocationFailed(String),
    /// A reply from the desktop environment could not be parsed.
    MalformedResponse,
    /// A fill-mode value outside the ones a backend defines; carries the
    /// offending value.
    UnknownMode(String),
    /// A screen handed to `set_screens` lacks a wallpaper or a mode.
    MissingRequiredField,
}

/// KDE's integer code for a fill mode.
pub open spec fn spec_kde_mode_code(m: Mode) -> int {
    match m {
        Mode::Center => 6,
        Mode::Crop => 2,
        Mode::Fit => 1,
        Mode::Stretch => 0,
        Mode::Tile => 3,
    }
}

/// XFCE's integer code for a fill mode.
pub open spec fn spec_xfce_mode_code(m: Mode) -> int {
    match m {
        Mode::Center => 1,
        Mode::Crop => 5,
        Mode::Fit => 4,
        Mode::Stretch => 3,
        Mode::Tile => 2,
    }
}

/// What an XFCE fill-mode code denotes: `Some(None)` is code 0, "no image,
/// solid colour"; `Some(Some(m))` is a fill mode; `None` is not a code XFCE
/// defines.
pub open spec fn spec_xfce_mode_of_code(c: int) -> Option<Option<Mode>> {
    if c == 0 {
        Some(None)
    } else if c == 1 {
        Some(Some(Mode::Center))
    } else if c == 2 {
        Some(Some(Mode::Tile))
    } else if c == 3 {
        Some(Some(Mode::Stretch))
    } else if c == 4 {
        Some(Some(Mode::Fit))
    } else if c == 5 {
        Some(Some(Mode::Crop))
    } else {
        None
    }
}

/// KDE's integer code for a fill mode.
pub fn kde_mode_code(m: Mode) -> (c: u8)
    ensures
        c as int == spec_kde_mode_code(m),
{
    match m {
        Mode::Center => 6,
        Mode::Crop => 2,
        Mode::Fit => 1,
        Mode::Stretch => 0,
        Mode::Tile => 3,
    }
}

/// XFCE's integer code for a fill mode.
pub fn xfce_mode_code(m: Mode) -> (c: u8)
    ensures
        c as int == spec_xfce_mode_code(m),
{
    match m {
        Mode::Center => 1,
        Mode::Crop => 5,
        Mode::Fit => 4,
        Mode::Stretch => 3,
        Mode::Tile => 2,
    }
}

/// The fill mode (or "no image" state) denoted by an XFCE code, `None` if
/// XFCE defines no such code.
pub fn xfce_mode_of_code(c: u8) -> (r: Option<Option<Mode>>)
    ensures
        r == spec_xfce_mode_of_code(c as int),
{
    match c {
        0 => Some(None),
        1 => Some(Some(Mode::Center)),
        2 => Some(Some(Mode::Tile)),
        3 => Some(Some(Mode::Stretch)),
        4 => Some(Some(Mode::Fit)),
        5 => Some(Some(Mode::Crop)),
        _ => None,
    }
}

/// Law: within each backend no two fill modes share an integer code.
pub proof fn lemma_mode_codes_injective(a: Mode, b: Mode)
    ensures
        spec_kde_mode_code(a) == spec_kde_mode_code(b) ==> a == b,
        spec_xfce_mode_code(a) == spec_xfce_mode_code(b) ==> a == b,
{
}

/// Law: decoding the XFCE code of any fill mode yields that mode back.
pub proof fn lemma_xfce_mode_round_trip(m: Mode)
    ensures
        spec_xfce_mode_of_code(spec_xfce_mode_code(m)) == Some(Some(m)),
{
}

/// Law: re-encoding the fill mode an XFCE code 1 to 5 decodes to yields that
/// code back.
pub proof fn lemma_xfce_code_round_trip(c: int)
    requires
        1 <= c <= 5,
    ensures
        spec_xfce_mode_of_code(c) matches Some(m) && (m matches Some(mode)
            && spec_xfce_mode_code(mode) == c),
{
}

/// Law: XFCE code 0 denotes the "no image, solid colour" state, which no
/// fill mode encodes to, so it cannot be produced by re-encoding.
pub proof fn lemma_xfce_code_zero_no_mode()
    ensures
        spec_xfce_mode_of_code(0) == Some(None::<Mode>),
        forall|m: Mode| spec_xfce_mode_code(m) != 0,
{
}

} // verus!
