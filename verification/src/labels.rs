//! Configuration data of the desktop-overlay companion tool: per-desktop
//! labels, hotkey chords, and appearance settings.

use std::collections::HashMap;

use vstd::prelude::*;

verus! {

/// The label text shown for one virtual desktop.
#[derive(Debug, Clone, Default)]
pub struct DesktopLabel {
    pub title: String,
    pub description: String,
}

/// One hotkey: modifier flags plus a key name.
#[derive(Debug, Clone)]
pub struct KeyChord {
    pub ctrl: bool,
    pub alt: bool,
    pub shift: bool,
    pub key: String,
}

/// The tool's configurable hotkeys.
#[derive(Debug, Clone)]
pub struct Hotkeys {
    pub edit_title: KeyChord,
    pub edit_description: KeyChord,
    pub toggle_overlay: KeyChord,
    pub snap_position: KeyChord,
}

/// Appearance settings of the overlay text.
#[derive(Debug, Clone)]
pub struct Appearance {
    pub font_family: String,
    pub font_size_dip: u32,
    pub margin_px: i32,
    pub hide_on_fullscreen: bool,
}

/// The whole configuration: desktop labels keyed by desktop id, hotkeys,
/// and appearance.
#[derive(Debug, Clone)]
pub struct Config {
    pub desktops: HashMap<String, DesktopLabel>,
    pub hotkeys: Hotkeys,
    pub appearance: Appearance,
}

/// The default chord for snapping the overlay's position: Ctrl+Alt+L.
pub fn default_snap_key() -> (r: KeyChord)
    ensures
        r.ctrl,
        r.alt,
        !r.shift,
        r.key@ == "L"@,
{
    KeyChord { ctrl: true, alt: true, shift: false, key: "L".to_owned() }
}

impl Default for Config {
    /// No labels; Ctrl+Alt with T, D, O and L; Segoe UI at 16 dip with an
    /// 8 px margin, shown over fullscreen windows.
    fn default() -> (r: Config)
        ensures
            r.desktops@.len() == 0,
            r.hotkeys.edit_title.ctrl && r.hotkeys.edit_title.alt && !r.hotkeys.edit_title.shift,
            r.hotkeys.edit_title.key@ == "T"@,
            r.hotkeys.edit_description.ctrl && r.hotkeys.edit_description.alt
                && !r.hotkeys.edit_description.shift,
            r.hotkeys.edit_description.key@ == "D"@,
            r.hotkeys.toggle_overlay.ctrl && r.hotkeys.toggle_overlay.alt
                && !r.hotkeys.toggle_overlay.shift,
            r.hotkeys.toggle_overlay.key@ == "O"@,
            r.hotkeys.snap_position.ctrl && r.hotkeys.snap_position.alt
                && !r.hotkeys.snap_position.shift,
            r.hotkeys.snap_position.key@ == "L"@,
            r.appearance.font_family@ == "Segoe UI"@,
            r.appearance.font_size_dip == 16,
            r.appearance.margin_px == 8,
            !r.appearance.hide_on_fullscreen,
    {
        Config {
            desktops: HashMap::new(),
            hotkeys: Hotkeys {
                edit_title: KeyChord {
                    ctrl: true,
                    alt: true,
                    shift: false,
                    key: "T".to_owned(),
                },
                edit_description: KeyChord {
                    ctrl: true,
                    alt: true,
                    shift: false,
                    key: "D".to_owned(),
                },
                toggle_overlay: KeyChord {
                    ctrl: true,
                    alt: true,
                    shift: false,
                    key: "O".to_owned(),
                },
                snap_position: default_snap_key(),
            },
            appearance: Appearance {
                font_family: "Segoe UI".to_owned(),
                font_size_dip: 16,
                margin_px: 8,
                hide_on_fullscreen: false,
            },
        }
    }
}

} // verus!
