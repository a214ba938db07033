//! Behavior of the path grammars: normalization, breadth classification and
//! usability.

use ludusavi_manifest::path;
use ludusavi_manifest::registry;

#[test]
fn normalize_maps_backslashes_and_collapses_separators() {
    assert_eq!(path::normalize("C:\\Games\\\\Saves"), "C:/Games/Saves");
    assert_eq!(path::normalize("a//b///c"), "a/b/c");
}

#[test]
fn normalize_trims_ends_and_strips_trailing_segments() {
    assert_eq!(path::normalize("  a/b  "), "a/b");
    assert_eq!(path::normalize("a/b/"), "a/b");
    assert_eq!(path::normalize("a/b/*"), "a/b");
    assert_eq!(path::normalize("a/b/*/*"), "a/b");
    assert_eq!(path::normalize("a/b/."), "a/b");
    assert_eq!(path::normalize("a/./b"), "a/b");
    assert_eq!(path::normalize("./a/b"), "./a/b");
}

#[test]
fn normalize_keeps_globstar_segments() {
    assert_eq!(path::normalize("a/**/b"), "a/**/b");
    assert_eq!(path::normalize("a***b"), "a*b");
    assert_eq!(path::normalize("**a"), "*a");
}

#[test]
fn normalize_expands_home_shorthand() {
    assert_eq!(path::normalize("~"), "<home>");
    assert_eq!(path::normalize("~/saves"), "<home>/saves");
    assert_eq!(path::normalize("~stays"), "~stays");
}

#[test]
fn normalize_rewrites_environment_tokens() {
    assert_eq!(path::normalize("%APPDATA%/Game"), "<winAppData>/Game");
    assert_eq!(path::normalize("%localappdata%/Game"), "<winLocalAppData>/Game");
    assert_eq!(path::normalize("%USERPROFILE%/Saved Games"), "<home>/Saved Games");
    assert_eq!(
        path::normalize("%userprofile%/AppData/Roaming/Game"),
        "<winAppData>/Game"
    );
    assert_eq!(
        path::normalize("%userprofile%/AppData/Local/Game"),
        "<winLocalAppData>/Game"
    );
    assert_eq!(
        path::normalize("C:/users/{64BitSteamID}/save"),
        "C:/users/<storeUserId>/save"
    );
    assert_eq!(
        path::normalize("C:/users/{Steam3AccountID}/save"),
        "C:/users/<storeUserId>/save"
    );
}

#[test]
fn normalize_applied_twice_changes_nothing() {
    let samples = [
        "  %APPDATA%\\My Game\\\\saves\\  ",
        "~/saves/*/*",
        "a/./././b",
        "~ /*",
        "%USERPROFILE%/AppData/Local/x",
        "a/*/.",
        "<base>/**/*.sav",
        "C:\\Program Files (x86)\\Game",
        "%custom%/keep",
        "..",
        "",
    ];
    for p in samples {
        let once = path::normalize(p);
        let twice = path::normalize(&once);
        assert_eq!(once, twice);
        let reg_once = registry::normalize(p);
        let reg_twice = registry::normalize(&reg_once);
        assert_eq!(reg_once, reg_twice);
    }
}

#[test]
fn normalized_usable_paths_hold_no_recognized_tokens() {
    let samples = ["%APPDATA%/Game", "%LOCALAPPDATA%/Game", "%UserProfile%/Game", "plain/dir"];
    for p in samples {
        let n = path::normalize(p);
        if path::usable(&n) {
            let low = n.to_lowercase();
            assert!(!low.contains("%appdata%"));
            assert!(!low.contains("%localappdata%"));
            assert!(!low.contains("%userprofile%"));
        }
    }
}

#[test]
fn too_broad_rejects_bare_roots_and_accepts_narrowed_paths() {
    assert!(path::too_broad("<home>/AppData"));
    assert!(!path::too_broad("<home>/AppData/Custom/Save"));
    assert!(path::too_broad("<home>"));
    assert!(path::too_broad("<winDir>/SysWOW64"));
    assert!(path::too_broad("C:/Program Files"));
    assert!(path::too_broad("D:"));
    assert!(path::too_broad("/"));
    assert!(path::too_broad("*anything"));
    assert!(path::too_broad("<home>/*/stuff"));
    assert!(!path::too_broad("<winAppData>/Studio/Game"));
}

#[test]
fn usable_rejects_empty_markup_and_relative_escapes() {
    assert!(!path::usable(""));
    assert!(!path::usable("{{p|game}}/save"));
    assert!(!path::usable("./relative"));
    assert!(!path::usable("../escape"));
    assert!(!path::usable("%custom%/save"));
    assert!(!path::usable("<base>/%my_var%/x"));
    assert!(path::usable("<base>/100%true"));
    assert!(path::usable("<base>/saves"));
}

#[test]
fn registry_grammar_accepts_only_hives_below_their_software_roots() {
    assert!(registry::usable("HKEY_CURRENT_USER/Software/Studio/Game"));
    assert!(!registry::usable("HKEY_CURRENT_USER"));
    assert!(!registry::usable("HKEY_CURRENT_USER/Software"));
    assert!(!registry::usable("HKEY_LOCAL_MACHINE/SOFTWARE/WOW6432Node"));
    assert!(!registry::usable("HKEY_CURRENT_USER/Fonts"));
    assert!(!registry::usable("SomethingElse/Key"));
    assert!(!registry::usable("HKEY_CURRENT_USER/Software/Bad\u{7}Key"));
    assert!(!registry::usable("HKEY_CURRENT_USER/Software/Bad\u{200B}Key"));
}
