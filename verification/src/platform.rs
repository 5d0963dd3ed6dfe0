//! Whether the application runs inside a Flatpak or Snap sandbox, decided
//! from what the environment shows.
use vstd::prelude::*;
use crate::text;

verus! {

/// What the environment shows about a sandbox.
pub struct SandboxHints {
    /// `/app/.flatpak-info` exists.
    pub flatpak_info_exists: bool,
    /// `FLATPAK_ID` is set.
    pub flatpak_id_set: bool,
    /// The value of `container`, where it is set and valid Unicode.
    pub container: Option<String>,
    /// `SNAP` is set.
    pub snap_set: bool,
}

/// Inside Flatpak: its info file exists, `FLATPAK_ID` is set, or
/// `container` is "flatpak".
pub open spec fn is_flatpak_spec(h: SandboxHints) -> bool {
    h.flatpak_info_exists || h.flatpak_id_set || (h.container matches Some(c) && c@ == "flatpak"@)
}

/// Whether the hints show a Flatpak sandbox.
pub fn is_flatpak(hints: &SandboxHints) -> (r: bool)
    ensures
        r == is_flatpak_spec(*hints),
{
    hints.flatpak_info_exists || hints.flatpak_id_set || match &hints.container {
        Some(c) => text::str_equal(c.as_str(), "flatpak"),
        None => false,
    }
}

/// Whether the hints show a Snap sandbox (`SNAP` is set).
pub fn is_snap(hints: &SandboxHints) -> (r: bool)
    ensures
        r == hints.snap_set,
{
    hints.snap_set
}

/// Whether the application runs sandboxed, in Flatpak or in Snap.
pub fn is_sandboxed(hints: &SandboxHints) -> (r: bool)
    ensures
        r == (is_flatpak_spec(*hints) || hints.snap_set),
{
    is_flatpak(hints) || is_snap(hints)
}

} // verus!
