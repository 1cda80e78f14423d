use klondike::hotkeys::vk_from_char;
use klondike::labels::{Config, Hotkeys, KeyChord};
use klondike::overlay::{calc_top_center, should_show};

fn chord(key: &str) -> KeyChord {
    KeyChord {
        ctrl: true,
        alt: true,
        shift: false,
        key: key.into(),
    }
}

#[test]
fn center_calc_basic() {
    let (x, y) = calc_top_center((0, 0, 1000, 800), 200, 20, 10);
    assert_eq!(x, 400);
    assert_eq!(y, 10);
}

#[test]
fn center_calc_nonzero_origin() {
    let (x, y) = calc_top_center((100, 50, 900, 1050), 300, 20, 8);
    // work width = 800; (800-300)/2 = 250; x = 100+250 = 350
    assert_eq!(x, 350);
    assert_eq!(y, 58);
}

#[test]
fn visibility_truth_table() {
    // toggled, hc, fs -> show?
    assert!(should_show(true, false, false));
    assert!(!should_show(true, true, false));
    assert!(!should_show(true, false, true));
    assert!(!should_show(true, true, true));
    assert!(!should_show(false, false, false));
    assert!(!should_show(false, true, false));
    assert!(!should_show(false, false, true));
}

fn dup(a: &KeyChord, b: &KeyChord) -> bool {
    a.ctrl == b.ctrl && a.alt == b.alt && a.shift == b.shift && a.key.eq_ignore_ascii_case(&b.key)
}

fn has_duplicates(hk: &Hotkeys) -> bool {
    dup(&hk.edit_title, &hk.edit_description)
        || dup(&hk.edit_title, &hk.toggle_overlay)
        || dup(&hk.edit_description, &hk.toggle_overlay)
        || dup(&hk.edit_title, &hk.snap_position)
        || dup(&hk.edit_description, &hk.snap_position)
        || dup(&hk.toggle_overlay, &hk.snap_position)
}

#[test]
fn detects_duplicate_hotkeys() {
    let mut hk = Hotkeys {
        edit_title: chord("T"),
        edit_description: chord("D"),
        toggle_overlay: chord("O"),
        snap_position: chord("S"),
    };
    assert!(!has_duplicates(&hk));
    // Collide description with title
    hk.edit_description.key = "t".into();
    assert!(has_duplicates(&hk));
}

#[test]
fn library_duplicate_check_matches() {
    let mut hk = Hotkeys {
        edit_title: chord("T"),
        edit_description: chord("D"),
        toggle_overlay: chord("O"),
        snap_position: chord("S"),
    };
    assert!(!klondike::hotkeys::has_duplicates(&hk));
    hk.edit_description.key = "t".into();
    assert!(klondike::hotkeys::has_duplicates(&hk));
    hk.edit_description.shift = true;
    assert!(!klondike::hotkeys::has_duplicates(&hk));
}

#[test]
fn maps_alpha_keys_to_vk() {
    let t = vk_from_char("t");
    assert_eq!(t.0, 'T' as u32);
    let d = vk_from_char("D");
    assert_eq!(d.0, 'D' as u32);
}

#[test]
fn default_key_when_empty() {
    let b = vk_from_char("");
    assert_eq!(b.0, 'B' as u32);
}

#[test]
fn vk_trims_whitespace() {
    assert_eq!(vk_from_char("  q  ").0, 'Q' as u32);
    assert_eq!(vk_from_char("\t5").0, '5' as u32);
    assert_eq!(vk_from_char("   ").0, 'B' as u32);
}

#[test]
fn default_config_values() {
    let cfg = Config::default();
    assert!(cfg.desktops.is_empty());
    assert_eq!(cfg.hotkeys.edit_title.key, "T");
    assert_eq!(cfg.hotkeys.edit_description.key, "D");
    assert_eq!(cfg.hotkeys.toggle_overlay.key, "O");
    assert_eq!(cfg.hotkeys.snap_position.key, "L");
    assert!(cfg.hotkeys.edit_title.ctrl && cfg.hotkeys.edit_title.alt);
    assert!(!cfg.hotkeys.edit_title.shift);
    assert_eq!(cfg.appearance.font_family, "Segoe UI");
    assert_eq!(cfg.appearance.font_size_dip, 16);
    assert_eq!(cfg.appearance.margin_px, 8);
    assert!(!cfg.appearance.hide_on_fullscreen);
}
