//! Behavior of the caches and the manifest resolver: rename tracking, the
//! state bridge, cloud-save fallback gating, the drop rule, constraint
//! deduplication, and a full end-to-end resolution.

use ludusavi_manifest::manifest::{
    Game, GameFileConstraint, Manifest, ManifestOverride, Os, Store, Tag,
};
use ludusavi_manifest::steam::{Cloud, CloudSave, SteamCache, SteamCacheEntry};
use ludusavi_manifest::strmap::StringMap;
use ludusavi_manifest::wiki::{WikiCache, WikiCacheEntry};
use ludusavi_manifest::{Regularity, State};

fn wiki_entry(page_id: u64, steam: Option<u32>, templates: Vec<String>) -> WikiCacheEntry {
    let mut e = WikiCacheEntry::new();
    e.state = State::Updated;
    e.page_id = page_id;
    e.steam = steam;
    e.templates = templates;
    e
}

#[test]
fn regularity_worst_never_improves() {
    assert_eq!(Regularity::Regular.worst(Regularity::Irregular), Regularity::Irregular);
    assert_eq!(Regularity::Irregular.worst(Regularity::Regular), Regularity::Irregular);
    assert_eq!(Regularity::Semiregular.worst(Regularity::Regular), Regularity::Semiregular);
    assert_eq!(Regularity::Regular.worst(Regularity::Regular), Regularity::Regular);
}

#[test]
fn rename_tracking_relocates_the_entry() {
    let mut cache = WikiCache::new();
    cache.add_new_game(&"A".to_string(), 7);
    let needs_check = cache.flag_recent_change(&"B".to_string(), 7);
    assert!(!needs_check);
    assert!(cache.0.get(&"A".to_string()).is_none());
    let moved = cache.0.get(&"B".to_string()).expect("entry under new title");
    assert_eq!(moved.page_id, 7);
    assert!(matches!(moved.state, State::Outdated));
    assert_eq!(moved.renamed_from.len(), 1);
    assert_eq!(moved.renamed_from[0], "A");
    assert_eq!(cache.0.len(), 1);
}

#[test]
fn recent_change_on_cached_title_marks_it_outdated() {
    let mut cache = WikiCache::new();
    cache.add_new_game(&"A".to_string(), 7);
    let mut entry = cache.0.get(&"A".to_string()).unwrap().duplicate();
    entry.state = State::Handled;
    cache.0.insert("A".to_string(), entry);
    let needs_check = cache.flag_recent_change(&"A".to_string(), 7);
    assert!(!needs_check);
    assert!(matches!(cache.0.get(&"A".to_string()).unwrap().state, State::Outdated));
}

#[test]
fn recent_change_on_unknown_title_asks_for_a_category_check() {
    let mut cache = WikiCache::new();
    let needs_check = cache.flag_recent_change(&"New Game".to_string(), 99);
    assert!(needs_check);
    assert!(cache.0.get(&"New Game".to_string()).is_none());
    cache.add_new_game(&"New Game".to_string(), 99);
    assert!(matches!(cache.0.get(&"New Game".to_string()).unwrap().state, State::Outdated));
}

#[test]
fn state_bridge_outdates_the_storefront_and_demotes_the_wiki_entry() {
    let mut wiki = WikiCache::new();
    wiki.0.insert("G".to_string(), wiki_entry(1, Some(100), vec![]));
    let mut steam = SteamCache::new();
    steam.transition_states_from(&mut wiki);
    assert!(matches!(wiki.0.get(&"G".to_string()).unwrap().state, State::Handled));
    let pos = steam.find_id(100).expect("storefront stub created");
    assert!(matches!(steam.entry_at_pos(pos).state, State::Outdated));
}

#[test]
fn state_bridge_ignores_handled_entries() {
    let mut wiki = WikiCache::new();
    let mut e = wiki_entry(1, Some(100), vec![]);
    e.state = State::Handled;
    wiki.0.insert("G".to_string(), e);
    let mut steam = SteamCache::new();
    steam.transition_states_from(&mut wiki);
    assert!(steam.find_id(100).is_none());
    assert_eq!(steam.entries.len(), 0);
}

fn cloud_save_entry() -> SteamCacheEntry {
    let mut s = SteamCacheEntry::new();
    s.cloud = Cloud {
        saves: vec![CloudSave {
            path: "".to_string(),
            pattern: "*.sav".to_string(),
            platforms: vec![],
            recursive: false,
            root: "GameInstall".to_string(),
        }],
        overrides: vec![],
    };
    s
}

#[test]
fn cloud_saves_apply_only_as_a_fallback() {
    // No wiki paths: the declared rule lands in the file map.
    let mut game = Game::new();
    game.integrate_steam(&cloud_save_entry(), true);
    assert!(game.files.get(&"<base>/*.sav".to_string()).is_some());

    // A path already recorded from the wiki: the rule is ignored entirely.
    let mut wiki = WikiCacheEntry::new();
    wiki.templates = vec!["{{Game data/saves|Windows|{{p|game}}/save.dat}}".to_string()];
    let mut game2 = Game::new();
    let primaries = WikiCache::new().primary_ids();
    game2.integrate_wiki(&wiki, "T", &primaries);
    assert!(game2.files.get(&"<base>/save.dat".to_string()).is_some());
    game2.integrate_steam(&cloud_save_entry(), true);
    assert!(game2.files.get(&"<base>/*.sav".to_string()).is_none());
    assert_eq!(game2.files.len(), 1);

    // The override table can turn the fallback off outright.
    let mut game3 = Game::new();
    game3.integrate_steam(&cloud_save_entry(), false);
    assert_eq!(game3.files.len(), 0);
}

#[test]
fn entries_without_actionable_data_are_dropped() {
    let mut wiki = WikiCache::new();
    let mut bare = WikiCacheEntry::new();
    bare.page_id = 5;
    wiki.0.insert("Empty Article".to_string(), bare);
    let mut manifest = Manifest::new();
    let r = manifest.refresh(&ManifestOverride(StringMap::new()), &wiki, &SteamCache::new());
    assert!(r.is_ok());
    assert!(manifest.0.get(&"Empty Article".to_string()).is_none());
    assert_eq!(manifest.0.len(), 0);
}

#[test]
fn identical_constraints_are_stored_once() {
    let mut game = Game::new();
    let mut wiki = WikiCacheEntry::new();
    wiki.templates = vec![
        "{{Game data/saves|Steam|{{p|game}}/s.dat}}".to_string(),
        "{{Game data/saves|Steam|{{p|game}}/s.dat}}".to_string(),
    ];
    let primaries = WikiCache::new().primary_ids();
    game.integrate_wiki(&wiki, "T", &primaries);
    let entry = game.files.get(&"<base>/s.dat".to_string()).expect("path recorded");
    assert_eq!(entry.when.len(), 1);
    let c = *entry.when.item_at(0);
    assert_eq!(c, GameFileConstraint { os: None, store: Some(Store::Steam) });
}

#[test]
fn full_resolution_of_one_wiki_entry() {
    let mut wiki = WikiCache::new();
    let mut e = wiki_entry(42, Some(100), vec![
        "{{Game data/saves|Windows|{{p|userprofile}}/Documents/Example/*.sav}}".to_string(),
    ]);
    e.state = State::Handled;
    wiki.0.insert("Example Game".to_string(), e);

    let mut manifest = Manifest::new();
    let r = manifest.refresh(&ManifestOverride(StringMap::new()), &wiki, &SteamCache::new());
    assert!(r.is_ok());

    let game = manifest.0.get(&"Example Game".to_string()).expect("entry resolved");
    assert_eq!(game.steam.id, Some(100));
    assert_eq!(game.files.len(), 1);
    let entry = game.files.get(&"<home>/Documents/Example/*.sav".to_string()).expect(
        "normalized save path",
    );
    assert_eq!(entry.when.len(), 1);
    assert_eq!(
        *entry.when.item_at(0),
        GameFileConstraint { os: Some(Os::Windows), store: None }
    );
    assert_eq!(entry.tags.len(), 1);
    assert_eq!(*entry.tags.item_at(0), Tag::Save);
    assert_eq!(game.registry.len(), 0);
    assert_eq!(game.launch.len(), 0);
}

#[test]
fn markup_extraction_reads_identifiers_and_templates() {
    let raw = "{{Infobox game|steam appid=123|gogcom id=456}}\n\
               {{Game data|{{Game data/saves|Windows|{{p|game}}/s.dat}}}}";
    let entry = WikiCacheEntry::from_markup(raw, "T");
    assert!(matches!(entry.state, State::Updated));
    assert_eq!(entry.steam, Some(123));
    assert_eq!(entry.gog, Some(456));
    assert_eq!(entry.templates.len(), 1);
    let paths = entry.parse_paths("T".to_string());
    assert_eq!(paths.len(), 1);
    assert_eq!(paths[0].composite, "<base>/s.dat");
}
