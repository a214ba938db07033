//! The manifest resolver's data model: per-game records with normalized file
//! and registry paths, deduplicated constraint sets, launch entries and
//! identifier metadata, plus the manual-override table.

use vstd::prelude::*;

use crate::chars::{
    chars_str, clone_opt_string, is_space_char, lower, lower_vec, match_at, match_at_exec, occurs,
    occurs_exec, str_chars, chars_eq,
};
use crate::dedup::{DedupSet, ItemEq};
use crate::path::{map_slash, map_slash_exec, norm_path, replace_exact, replace_exact_exec, sp_usable, trim_lead};
use crate::strmap::StringMap;

verus! {

/// Operating system a path or launch entry applies to.
#[derive(Debug, Clone, Copy, PartialEq, Eq, Structural)]
pub enum Os {
    Dos,
    Windows,
    Mac,
    Linux,
    Other,
}

impl Default for Os {
    fn default() -> (r: Self)
        ensures
            r == Os::Other,
    {
        Os::Other
    }
}

/// The operating system a label names, compared ignoring ASCII case and
/// surrounding whitespace.
pub open spec fn sp_os_from(s: Seq<char>) -> Os {
    let t = trim_ws_end(trim_lead(lower(s)));
    if t == "windows"@ {
        Os::Windows
    } else if t == "linux"@ {
        Os::Linux
    } else if t == "mac"@ || t == "macos"@ {
        Os::Mac
    } else if t == "dos"@ {
        Os::Dos
    } else {
        Os::Other
    }
}

/// Trailing whitespace is dropped.
pub open spec fn trim_ws_end(s: Seq<char>) -> Seq<char>
    decreases s.len(),
{
    if s.len() > 0 && is_space_char(s.last()) {
        trim_ws_end(s.drop_last())
    } else {
        s
    }
}

/// Exec counterpart of [`trim_ws_end`].
#[verifier::loop_isolation(false)]
pub fn trim_ws_end_exec(s: Vec<char>) -> (r: Vec<char>)
    ensures
        r@ == trim_ws_end(s@),
{
    let ghost orig = s@;
    let mut v = s;
    loop
        invariant
            trim_ws_end(orig) == trim_ws_end(v@),
        decreases v@.len(),
    {
        let n = v.len();
        if n > 0 && crate::chars::is_space_exec(v[n - 1]) {
            proof {
                assert(v@.last() == v@[n - 1]);
            }
            let ghost before = v@;
            v.pop();
            proof {
                assert(v@ =~= before.drop_last());
            }
        } else {
            proof {
                if v@.len() > 0 {
                    assert(v@.last() == v@[n - 1]);
                }
                assert(trim_ws_end(v@) == v@);
            }
            return v;
        }
    }
}

impl From<&str> for Os {
    /// Parse an operating-system label; unrecognized labels map to `Other`.
    fn from(value: &str) -> (r: Self)
        ensures
            r == sp_os_from(value@),
    {
        let v = str_chars(value);
        let low = lower_vec(&v);
        let lead = crate::path::trim_lead_exec(&low);
        let t = trim_ws_end_exec(lead);
        if chars_eq(&t, &str_chars("windows")) {
            Os::Windows
        } else if chars_eq(&t, &str_chars("linux")) {
            Os::Linux
        } else if chars_eq(&t, &str_chars("mac")) || chars_eq(&t, &str_chars("macos")) {
            Os::Mac
        } else if chars_eq(&t, &str_chars("dos")) {
            Os::Dos
        } else {
            Os::Other
        }
    }
}

impl vstd::std_specs::convert::FromSpecImpl<&str> for Os {
    open spec fn obeys_from_spec() -> bool {
        true
    }

    open spec fn from_spec(value: &str) -> Os {
        sp_os_from(value@)
    }
}

/// Storefront a path or launch entry applies to.
#[derive(Debug, Clone, Copy, PartialEq, Eq, Structural)]
pub enum Store {
    Ea,
    Epic,
    Gog,
    GogGalaxy,
    Heroic,
    Lutris,
    Microsoft,
    Origin,
    Prime,
    Steam,
    Uplay,
    OtherHome,
    OtherWine,
    Other,
}

impl Default for Store {
    fn default() -> (r: Self)
        ensures
            r == Store::Other,
    {
        Store::Other
    }
}

/// Role of a path in the game's data.
#[derive(Debug, Clone, Copy, PartialEq, Eq, Structural)]
pub enum Tag {
    Config,
    Save,
    Other,
}

impl Default for Tag {
    fn default() -> (r: Self)
        ensures
            r == Tag::Other,
    {
        Tag::Other
    }
}

impl ItemEq for Tag {
    fn item_eq(&self, other: &Self) -> (r: bool)
        ensures
            r == (*self == *other),
    {
        *self == *other
    }
}

/// Whether two optional systems are the same.
pub fn opt_os_eq(a: &Option<Os>, b: &Option<Os>) -> (r: bool)
    ensures
        r == (*a == *b),
{
    match (a, b) {
        (None, None) => true,
        (Some(x), Some(y)) => *x == *y,
        _ => false,
    }
}

/// Whether two optional stores are the same.
pub fn opt_store_eq(a: &Option<Store>, b: &Option<Store>) -> (r: bool)
    ensures
        r == (*a == *b),
{
    match (a, b) {
        (None, None) => true,
        (Some(x), Some(y)) => *x == *y,
        _ => false,
    }
}

/// Whether two optional bit-widths are the same.
pub fn opt_u64_eq(a: &Option<u64>, b: &Option<u64>) -> (r: bool)
    ensures
        r == (*a == *b),
{
    match (a, b) {
        (None, None) => true,
        (Some(x), Some(y)) => *x == *y,
        _ => false,
    }
}

/// Spec-level view of an optional string.
pub open spec fn opt_str_view(o: Option<String>) -> Option<Seq<char>> {
    match o {
        Some(s) => Some(s@),
        None => None,
    }
}

/// Whether two optional strings hold the same characters.
pub fn opt_string_eq(a: &Option<String>, b: &Option<String>) -> (r: bool)
    ensures
        r == (opt_str_view(*a) == opt_str_view(*b)),
{
    match (a, b) {
        (None, None) => true,
        (Some(x), Some(y)) => {
            let r = *x == *y;
            proof {
                if x@ == y@ {
                    assert(opt_str_view(Some(*x)) == opt_str_view(Some(*y)));
                }
            }
            r
        },
        _ => {
            proof {
                assert(opt_str_view(*a) is Some <==> a is Some);
            }
            false
        },
    }
}

/// An (OS, store) partial condition on a file path.
#[derive(Debug, Clone, Copy, PartialEq, Eq, Structural)]
pub struct GameFileConstraint {
    pub os: Option<Os>,
    pub store: Option<Store>,
}

impl GameFileConstraint {
    /// A constraint with neither side set means "always applies" and is never stored.
    pub fn is_empty(&self) -> (r: bool)
        ensures
            r == (self.os is None && self.store is None),
    {
        self.os.is_none() && self.store.is_none()
    }
}

impl ItemEq for GameFileConstraint {
    fn item_eq(&self, other: &Self) -> (r: bool)
        ensures
            r == (*self == *other),
    {
        let r = opt_os_eq(&self.os, &other.os) && opt_store_eq(&self.store, &other.store);
        r
    }
}

/// A store-only partial condition on a registry path.
#[derive(Debug, Clone, Copy, PartialEq, Eq, Structural)]
pub struct GameRegistryConstraint {
    pub store: Option<Store>,
}

impl GameRegistryConstraint {
    pub fn is_empty(&self) -> (r: bool)
        ensures
            r == (self.store is None),
    {
        self.store.is_none()
    }
}

impl ItemEq for GameRegistryConstraint {
    fn item_eq(&self, other: &Self) -> (r: bool)
        ensures
            r == (*self == *other),
    {
        opt_store_eq(&self.store, &other.store)
    }
}

/// A (bit-width, OS, store) partial condition on a launch entry.
#[derive(Debug, Clone, Copy, PartialEq, Eq, Structural)]
pub struct LaunchConstraint {
    pub bit: Option<u64>,
    pub os: Option<Os>,
    pub store: Option<Store>,
}

impl ItemEq for LaunchConstraint {
    fn item_eq(&self, other: &Self) -> (r: bool)
        ensures
            r == (*self == *other),
    {
        let r = opt_u64_eq(&self.bit, &other.bit) && opt_os_eq(&self.os, &other.os) && opt_store_eq(
            &self.store,
            &other.store,
        );
        r
    }
}

/// Tags and conditions attached to one normalized file path.
#[derive(Debug)]
pub struct GameFileEntry {
    pub tags: DedupSet<Tag>,
    pub when: DedupSet<GameFileConstraint>,
}

impl GameFileEntry {
    pub open spec fn wf(&self) -> bool {
        self.tags.wf() && self.when.wf()
    }

    pub fn new() -> (r: Self)
        ensures
            r.wf(),
            r.tags@ == Set::<Tag>::empty(),
            r.when@ == Set::<GameFileConstraint>::empty(),
    {
        GameFileEntry { tags: DedupSet::new(), when: DedupSet::new() }
    }
}

/// Marker entry for a known install directory.
#[derive(Debug, Clone, Copy, PartialEq, Eq, Structural)]
pub struct GameInstallDirEntry {}

/// Tags and conditions attached to one normalized registry path.
#[derive(Debug)]
pub struct GameRegistryEntry {
    pub tags: DedupSet<Tag>,
    pub when: DedupSet<GameRegistryConstraint>,
}

impl GameRegistryEntry {
    pub open spec fn wf(&self) -> bool {
        self.tags.wf() && self.when.wf()
    }

    pub fn new() -> (r: Self)
        ensures
            r.wf(),
            r.tags@ == Set::<Tag>::empty(),
            r.when@ == Set::<GameRegistryConstraint>::empty(),
    {
        GameRegistryEntry { tags: DedupSet::new(), when: DedupSet::new() }
    }
}

/// One way to launch the game from a given executable.
#[derive(Debug)]
pub struct LaunchEntry {
    pub arguments: Option<String>,
    pub when: DedupSet<LaunchConstraint>,
    pub working_dir: Option<String>,
}

impl LaunchEntry {
    pub open spec fn wf(&self) -> bool {
        self.when.wf()
    }
}

/// Primary storefront identifier.
#[derive(Debug, Clone, Copy, PartialEq, Eq, Structural)]
pub struct SteamMetadata {
    pub id: Option<u32>,
}

impl SteamMetadata {
    pub fn is_empty(&self) -> (r: bool)
        ensures
            r == (self.id is None),
    {
        self.id.is_none()
    }
}

/// Secondary storefront identifier.
#[derive(Debug, Clone, Copy, PartialEq, Eq, Structural)]
pub struct GogMetadata {
    pub id: Option<u64>,
}

impl GogMetadata {
    pub fn is_empty(&self) -> (r: bool)
        ensures
            r == (self.id is None),
    {
        self.id.is_none()
    }
}

/// Extra identifiers: side storefront products and third-party launchers.
#[derive(Debug)]
pub struct IdMetadata {
    pub flatpak: Option<String>,
    pub gog_extra: Vec<u64>,
    pub lutris: Option<String>,
    pub steam_extra: Vec<u32>,
}

impl IdMetadata {
    pub open spec fn sp_is_empty(&self) -> bool {
        &&& self.flatpak is None
        &&& self.gog_extra@.len() == 0
        &&& self.lutris is None
        &&& self.steam_extra@.len() == 0
    }

    pub fn is_empty(&self) -> (r: bool)
        ensures
            r == self.sp_is_empty(),
    {
        self.flatpak.is_none() && self.gog_extra.is_empty() && self.lutris.is_none()
            && self.steam_extra.is_empty()
    }

    pub fn new() -> (r: Self)
        ensures
            r.sp_is_empty(),
    {
        IdMetadata { flatpak: None, gog_extra: Vec::new(), lutris: None, steam_extra: Vec::new() }
    }
}

/// Which storefronts are known to hold cloud saves for the game.
#[derive(Debug, Clone, Copy, PartialEq, Eq, Structural)]
pub struct CloudMetadata {
    pub epic: bool,
    pub gog: bool,
    pub origin: bool,
    pub steam: bool,
    pub uplay: bool,
}

impl CloudMetadata {
    pub fn is_empty(&self) -> (r: bool)
        ensures
            r == (!self.epic && !self.gog && !self.origin && !self.steam && !self.uplay),
    {
        !self.epic && !self.gog && !self.origin && !self.steam && !self.uplay
    }

    pub fn new() -> (r: Self)
        ensures
            !r.epic && !r.gog && !r.origin && !r.steam && !r.uplay,
    {
        CloudMetadata { epic: false, gog: false, origin: false, steam: false, uplay: false }
    }
}

/// One resolved per-game record.
#[derive(Debug)]
pub struct Game {
    /// Set only on redirect stubs pointing at a canonical entry.
    pub alias: Option<String>,
    pub cloud: CloudMetadata,
    pub files: StringMap<GameFileEntry>,
    pub gog: GogMetadata,
    pub id: IdMetadata,
    pub install_dir: StringMap<GameInstallDirEntry>,
    pub launch: StringMap<Vec<LaunchEntry>>,
    pub registry: StringMap<GameRegistryEntry>,
    pub steam: SteamMetadata,
}

impl Game {
    pub open spec fn wf(&self) -> bool {
        &&& self.files.wf()
        &&& self.registry.wf()
        &&& self.install_dir.wf()
        &&& self.launch.wf()
        &&& forall|i: int|
            0 <= i < self.files.entries().len() ==> (#[trigger] self.files.entries()[i]).1.wf()
        &&& forall|i: int|
            0 <= i < self.registry.entries().len() ==> (
            #[trigger] self.registry.entries()[i]).1.wf()
        &&& forall|i: int, j: int|
            0 <= i < self.launch.entries().len() && 0 <= j < self.launch.entries()[i].1@.len()
                ==> (#[trigger] self.launch.entries()[i].1@[j]).wf()
    }

    pub fn new() -> (r: Self)
        ensures
            r.wf(),
            r.alias is None,
            r.cloud == (CloudMetadata {
                epic: false,
                gog: false,
                origin: false,
                steam: false,
                uplay: false,
            }),
            r.files@ == Map::<Seq<char>, GameFileEntry>::empty(),
            r.files.entries().len() == 0,
            r.gog.id is None,
            r.id.sp_is_empty(),
            r.install_dir@ == Map::<Seq<char>, GameInstallDirEntry>::empty(),
            r.install_dir.entries().len() == 0,
            r.launch@ == Map::<Seq<char>, Vec<LaunchEntry>>::empty(),
            r.launch.entries().len() == 0,
            r.registry@ == Map::<Seq<char>, GameRegistryEntry>::empty(),
            r.registry.entries().len() == 0,
            r.steam.id is None,
    {
        Game {
            alias: None,
            cloud: CloudMetadata::new(),
            files: StringMap::new(),
            gog: GogMetadata { id: None },
            id: IdMetadata::new(),
            install_dir: StringMap::new(),
            launch: StringMap::new(),
            registry: StringMap::new(),
            steam: SteamMetadata { id: None },
        }
    }

    /// Whether the record carries any actionable data: at least one file path,
    /// registry path, storefront identifier, or extra identifier.
    pub open spec fn sp_usable(&self) -> bool {
        !(self.files@.is_empty() && self.registry@.is_empty() && self.steam.id is None
            && self.gog.id is None && self.id.sp_is_empty())
    }

    pub fn usable(&self) -> (r: bool)
        requires
            self.files.wf(),
            self.registry.wf(),
        ensures
            r == self.sp_usable(),
    {
        !(self.files.is_empty() && self.registry.is_empty() && self.steam.is_empty()
            && self.gog.is_empty() && self.id.is_empty())
    }

    /// Apply a manual override: forced identifiers win, forced install
    /// directories are merged in, and the registry map can be cleared.
    pub fn integrate_overrides(&mut self, overridden: &OverrideGame)
        requires
            old(self).wf(),
            overridden.game.install_dir.wf(),
        ensures
            final(self).wf(),
            final(self).steam.id == (if overridden.game.steam.id is Some {
                overridden.game.steam.id
            } else {
                old(self).steam.id
            }),
            final(self).gog.id == (if overridden.game.gog.id is Some {
                overridden.game.gog.id
            } else {
                old(self).gog.id
            }),
            opt_str_view(final(self).id.flatpak) == (if overridden.game.id.flatpak is Some {
                opt_str_view(overridden.game.id.flatpak)
            } else {
                opt_str_view(old(self).id.flatpak)
            }),
            final(self).id.gog_extra@ == old(self).id.gog_extra@,
            final(self).id.steam_extra@ == old(self).id.steam_extra@,
            opt_str_view(final(self).id.lutris) == opt_str_view(old(self).id.lutris),
            final(self).install_dir@ == old(self).install_dir@.union_prefer_right(
                overridden.game.install_dir@,
            ),
            overridden.omit_registry ==> final(self).registry@ == Map::<
                Seq<char>,
                GameRegistryEntry,
            >::empty(),
            !overridden.omit_registry ==> final(self).registry@ == old(self).registry@
                && final(self).registry.entries() == old(self).registry.entries(),
            final(self).files@ == old(self).files@,
            final(self).files.entries() == old(self).files.entries(),
            final(self).launch@ == old(self).launch@,
            final(self).launch.entries() == old(self).launch.entries(),
            final(self).cloud == old(self).cloud,
            final(self).alias == old(self).alias,
    {
        if let Some(id) = overridden.game.steam.id {
            self.steam.id = Some(id);
        }
        if let Some(id) = overridden.game.gog.id {
            self.gog.id = Some(id);
        }
        if overridden.game.id.flatpak.is_some() {
            self.id.flatpak = clone_opt_string(&overridden.game.id.flatpak);
        }
        self.install_dir.insert_all(&overridden.game.install_dir);
        if overridden.omit_registry {
            self.registry = StringMap::new();
        }
    }
}

/// Full resolved manifest, keyed by canonical title.
#[derive(Debug)]
pub struct Manifest(pub StringMap<Game>);

/// Manual-override table, keyed by canonical title.
#[derive(Debug)]
pub struct ManifestOverride(pub StringMap<OverrideGame>);

/// A manual override for one title.
#[derive(Debug)]
pub struct OverrideGame {
    /// Leave the title out of the manifest entirely.
    pub omit: bool,
    /// Drop the title's registry paths.
    pub omit_registry: bool,
    /// Whether storefront cloud-save data may be used as a fallback.
    pub use_steam_cloud: bool,
    /// Field values to force onto the resolved record.
    pub game: Game,
}

/// Canonical form of a raw launch path: URIs pass through unchanged; other
/// paths are rebased under the game-install placeholder, or dropped when
/// nothing of them remains.
pub open spec fn sp_norm_launch(s: Seq<char>) -> Option<Seq<char>> {
    if occurs(s, "://"@) {
        Some(s)
    } else {
        let a = replace_exact(map_slash(s), "//"@, "/"@);
        let b = trim_end_ch(a, '/');
        let c = trim_lead_pat(b, "./"@);
        let d = trim_lead_ch(c, '/');
        if d.len() == 0 || d == "."@ {
            None
        } else {
            Some("<base>/"@ + d)
        }
    }
}

/// Trailing copies of one character are dropped.
pub open spec fn trim_end_ch(s: Seq<char>, c: char) -> Seq<char>
    decreases s.len(),
{
    if s.len() > 0 && s.last() == c {
        trim_end_ch(s.drop_last(), c)
    } else {
        s
    }
}

/// Leading copies of one pattern are dropped.
pub open spec fn trim_lead_pat(s: Seq<char>, pat: Seq<char>) -> Seq<char>
    decreases s.len(),
{
    if pat.len() > 0 && match_at(s, 0, pat) && s.len() >= pat.len() {
        if s.len() == pat.len() {
            Seq::empty()
        } else {
            trim_lead_pat(s.skip(pat.len() as int), pat)
        }
    } else {
        s
    }
}

/// Leading copies of one character are dropped.
pub open spec fn trim_lead_ch(s: Seq<char>, c: char) -> Seq<char>
    decreases s.len(),
{
    if s.len() > 0 && s[0] == c {
        trim_lead_ch(s.drop_first(), c)
    } else {
        s
    }
}

/// Exec counterpart of [`trim_end_ch`].
#[verifier::loop_isolation(false)]
fn trim_end_ch_exec(s: Vec<char>, c: char) -> (r: Vec<char>)
    ensures
        r@ == trim_end_ch(s@, c),
{
    let ghost orig = s@;
    let mut v = s;
    loop
        invariant
            trim_end_ch(orig, c) == trim_end_ch(v@, c),
        decreases v@.len(),
    {
        let n = v.len();
        if n > 0 && v[n - 1] == c {
            proof {
                assert(v@.last() == v@[n - 1]);
            }
            let ghost before = v@;
            v.pop();
            proof {
                assert(v@ =~= before.drop_last());
            }
        } else {
            proof {
                if v@.len() > 0 {
                    assert(v@.last() == v@[n - 1]);
                }
            }
            return v;
        }
    }
}

/// Exec counterpart of [`trim_lead_ch`] and [`trim_lead_pat`], combined:
/// first every leading `pat`, then every leading `c`.
fn trim_lead_pat_then_ch(s: &Vec<char>, pat: &Vec<char>, c: char) -> (r: Vec<char>)
    requires
        pat@.len() > 0,
    ensures
        r@ == trim_lead_ch(trim_lead_pat(s@, pat@), c),
{
    let n = s.len();
    let mut i: usize = 0;
    proof {
        assert(s@.skip(0) =~= s@);
    }
    while i < n && match_at_exec_at(s, i, pat)
        invariant
            n == s@.len(),
            i <= n,
            pat@.len() > 0,
            trim_lead_pat(s@, pat@) == trim_lead_pat(s@.skip(i as int), pat@),
        decreases n - i,
    {
        proof {
            crate::chars::lemma_match_shift(s@, i as int, 0, pat@);
            assert(s@.skip(i as int).skip(pat@.len() as int) =~= s@.skip(i + pat@.len()));
            if s@.skip(i as int).len() == pat@.len() {
                assert(s@.skip(i + pat@.len()) =~= Seq::<char>::empty());
                assert(trim_lead_pat(s@.skip(i + pat@.len()), pat@) == s@.skip(i + pat@.len()));
            }
        }
        i = i + pat.len();
    }
    proof {
        let t = s@.skip(i as int);
        crate::chars::lemma_match_shift(s@, i as int, 0, pat@);
        assert(trim_lead_pat(t, pat@) == t);
    }
    while i < n && s[i] == c
        invariant
            n == s@.len(),
            i <= n,
            trim_lead_ch(trim_lead_pat(s@, pat@), c) == trim_lead_ch(s@.skip(i as int), c),
        decreases n - i,
    {
        proof {
            assert(s@.skip(i as int)[0] == s@[i as int]);
            assert(s@.skip(i as int).drop_first() =~= s@.skip(i as int + 1));
        }
        i = i + 1;
    }
    let mut out: Vec<char> = Vec::new();
    let mut j: usize = i;
    while j < n
        invariant
            n == s@.len(),
            i <= j <= n,
            out@ =~= s@.subrange(i as int, j as int),
        decreases n - j,
    {
        out.push(s[j]);
        j = j + 1;
    }
    proof {
        assert(out@ =~= s@.skip(i as int));
        if i < n {
            assert(s@.skip(i as int)[0] == s@[i as int]);
        }
        assert(trim_lead_ch(s@.skip(i as int), c) == s@.skip(i as int));
    }
    out
}

/// [`match_at_exec`] at an offset; a tiny wrapper to keep the loop readable.
fn match_at_exec_at(s: &Vec<char>, i: usize, pat: &Vec<char>) -> (r: bool)
    requires
        i <= s@.len(),
    ensures
        r == match_at(s@, i as int, pat@),
{
    match_at_exec(s, i, pat)
}

/// Exec counterpart of [`sp_norm_launch`].
pub fn normalize_launch_path(raw: &str) -> (r: Option<String>)
    ensures
        opt_str_view(r) == sp_norm_launch(raw@),
{
    let v = str_chars(raw);
    if occurs_exec(&v, &str_chars("://")) {
        return Some(chars_str(&v));
    }
    let a = map_slash_exec(&v);
    let b = replace_exact_exec(&a, &str_chars("//"), &str_chars("/"));
    let c = trim_end_ch_exec(b, '/');
    proof {
        reveal_strlit("./");
    }
    let d = trim_lead_pat_then_ch(&c, &str_chars("./"), '/');
    if d.len() == 0 || {
        let dot = chars_eq(&d, &str_chars("."));
        dot
    } {
        return None;
    }
    let mut out = str_chars("<base>/");
    let n = d.len();
    let mut i: usize = 0;
    while i < n
        invariant
            n == d@.len(),
            i <= n,
            out@ =~= "<base>/"@ + d@.subrange(0, i as int),
        decreases n - i,
    {
        out.push(d[i]);
        proof {
            assert(out@ =~= "<base>/"@ + d@.subrange(0, i as int + 1));
        }
        i = i + 1;
    }
    proof {
        assert(d@.subrange(0, n as int) =~= d@);
    }
    Some(chars_str(&out))
}

/// Whether a storefront launch path and an already-recorded manifest path
/// name the same location once the storefront path is normalized.
pub open spec fn sp_do_launch_paths_match(
    from_steam: Option<Seq<char>>,
    from_manifest: Option<Seq<char>>,
) -> bool {
    match (from_steam, from_manifest) {
        (None, None) => true,
        (Some(s), m) => sp_norm_launch(s) == m,
        (None, Some(_)) => false,
    }
}

/// Exec counterpart of [`sp_do_launch_paths_match`].
pub fn do_launch_paths_match(from_steam: Option<String>, from_manifest: Option<String>) -> (r:
    bool)
    ensures
        r == sp_do_launch_paths_match(opt_str_view(from_steam), opt_str_view(from_manifest)),
{
    match (from_steam, from_manifest) {
        (None, None) => true,
        (Some(s), m) => {
            let normalized = normalize_launch_path(s.as_str());
            opt_string_eq(&normalized, &m)
        },
        (None, Some(_)) => false,
    }
}

impl Game {
    /// Seed a record from one wiki entry: identifiers and cloud flags come
    /// straight from the entry (side identifiers drop those claimed as some
    /// entry's primary one), and every usable parsed path candidate lands in
    /// the file or registry map under its normalized composite, with its tags
    /// and an (OS, store) constraint when one is known.
    pub fn integrate_wiki(
        &mut self,
        cache: &crate::wiki::WikiCacheEntry,
        title: &str,
        primary_ids: &crate::wiki::PrimaryIds,
    )
        requires
            old(self).wf(),
            cache.wf(),
            primary_ids.steam.wf(),
            primary_ids.gog.wf(),
        ensures
            final(self).wf(),
            final(self).steam.id == cache.steam,
            final(self).gog.id == cache.gog,
            final(self).cloud == cache.cloud,
            final(self).id.flatpak is None,
            opt_str_view(final(self).id.lutris) == opt_str_view(cache.lutris),
            final(self).alias == old(self).alias,
            final(self).install_dir@ == old(self).install_dir@,
            final(self).launch.entries() == old(self).launch.entries(),
            forall|p: crate::wiki::WikiPathV|
                crate::wiki::sp_usable_paths(
                    crate::wiki::sp_all_paths(cache.model().templates, title@),
                ).contains(p) ==> match p.kind {
                    Some(crate::wiki::PathKind::Registry) => final(self).registry@.contains_key(
                        p.composite,
                    ),
                    _ => final(self).files@.contains_key(p.composite),
                },
    {
        self.steam = SteamMetadata { id: cache.steam };
        self.gog = GogMetadata { id: cache.gog };
        self.cloud = cache.cloud;
        let mut gog_extra: Vec<u64> = Vec::new();
        let gn = cache.gog_side.len();
        for i in 0..gn
            invariant
                gn == cache.gog_side.entries().len(),
                primary_ids.gog.wf(),
        {
            let id = *cache.gog_side.item_at(i);
            if !primary_ids.gog.contains(&id) {
                gog_extra.push(id);
            }
        }
        let mut steam_extra: Vec<u32> = Vec::new();
        let sn = cache.steam_side.len();
        for i in 0..sn
            invariant
                sn == cache.steam_side.entries().len(),
                primary_ids.steam.wf(),
        {
            let id = *cache.steam_side.item_at(i);
            if !primary_ids.steam.contains(&id) {
                steam_extra.push(id);
            }
        }
        self.id = IdMetadata {
            flatpak: None,
            gog_extra,
            lutris: clone_opt_string(&cache.lutris),
            steam_extra,
        };

        let paths = cache.parse_paths(title.to_owned());
        let ghost pathsv = crate::wiki::path_models(paths@);
        let pn = paths.len();
        let mut i: usize = 0;
        let mut paths = paths;
        let ghost paths0 = paths@;
        while i < pn
            invariant
                pn == paths0.len(),
                i <= pn,
                paths@ =~= paths0.skip(i as int),
                pathsv == crate::wiki::path_models(paths0),
                self.wf(),
                forall|j: int| 0 <= j < paths@.len() ==> (#[trigger] paths@[j]).wf(),
                self.steam.id == cache.steam,
                self.gog.id == cache.gog,
                self.cloud == cache.cloud,
                self.id.flatpak is None,
                opt_str_view(self.id.lutris) == opt_str_view(cache.lutris),
                self.alias == old(self).alias,
                self.install_dir@ == old(self).install_dir@,
                self.launch.entries() == old(self).launch.entries(),
                forall|j: int|
                    0 <= j < i ==> match (#[trigger] pathsv[j]).kind {
                        Some(crate::wiki::PathKind::Registry) => self.registry@.contains_key(
                            pathsv[j].composite,
                        ),
                        _ => self.files@.contains_key(pathsv[j].composite),
                    },
            decreases pn - i,
        {
            let p = paths.remove(0);
            proof {
                assert(p == paths0[i as int]);
                assert(paths0.skip(i as int).remove(0) =~= paths0.skip(i as int + 1));
                assert(p.model() == pathsv[i as int]);
            }
            let is_registry = matches!(p.kind, Some(crate::wiki::PathKind::Registry));
            let constraint_os = p.os;
            let constraint_store = p.store;
            if is_registry {
                let c = GameRegistryConstraint { store: constraint_store };
                upsert_registry(&mut self.registry, p.composite, &p.tags, c);
            } else {
                let c = GameFileConstraint { os: constraint_os, store: constraint_store };
                upsert_file(&mut self.files, p.composite, &p.tags, c);
            }
            proof {
                assert forall|j: int| 0 <= j < i + 1 implies match (#[trigger] pathsv[j]).kind {
                    Some(crate::wiki::PathKind::Registry) => self.registry@.contains_key(
                        pathsv[j].composite,
                    ),
                    _ => self.files@.contains_key(pathsv[j].composite),
                } by {}
            }
            i = i + 1;
        }
    }
}

/// Record a file path: union the tags in, and add the constraint unless it is
/// empty. Other paths keep their entries.
fn upsert_file(
    files: &mut StringMap<GameFileEntry>,
    path: String,
    tags: &DedupSet<Tag>,
    constraint: GameFileConstraint,
)
    requires
        old(files).wf(),
        forall|i: int|
            0 <= i < old(files).entries().len() ==> (#[trigger] old(files).entries()[i]).1.wf(),
        tags.wf(),
    ensures
        final(files).wf(),
        forall|i: int|
            0 <= i < final(files).entries().len() ==> (#[trigger] final(files).entries()[i]).1.wf(),
        final(files)@.contains_key(path@),
        forall|k: Seq<char>|
            k != path@ ==> (#[trigger] final(files)@.contains_key(k) <==> old(files)@.contains_key(k)) && (old(files)@.contains_key(k) ==> final(files)@[k] == old(files)@[k]),
{
    let mut entry = match files.index_of(&path) {
        Some(i) => {
            let (_, e) = files.entry_at(i);
            proof {
                files.lemma_entry_in_map(i as int);
            }
            GameFileEntry { tags: e.tags.duplicate(), when: e.when.duplicate() }
        },
        None => GameFileEntry::new(),
    };
    entry.tags.extend_from(tags);
    if !constraint.is_empty() {
        entry.when.insert(constraint);
    }
    files.insert(path, entry);
}

/// Record a registry path; the mirror of [`upsert_file`].
fn upsert_registry(
    registry: &mut StringMap<GameRegistryEntry>,
    path: String,
    tags: &DedupSet<Tag>,
    constraint: GameRegistryConstraint,
)
    requires
        old(registry).wf(),
        forall|i: int|
            0 <= i < old(registry).entries().len() ==> (#[trigger] old(registry).entries()[i]).1.wf(),
        tags.wf(),
    ensures
        final(registry).wf(),
        forall|i: int|
            0 <= i < final(registry).entries().len() ==> (#[trigger] final(registry).entries()[i]).1.wf(),
        final(registry)@.contains_key(path@),
        forall|k: Seq<char>|
            k != path@ ==> (#[trigger] final(registry)@.contains_key(k) <==> old(registry)@.contains_key(k)) && (old(registry)@.contains_key(k) ==> final(registry)@[k] == old(registry)@[k]),
{
    let mut entry = match registry.index_of(&path) {
        Some(i) => {
            let (_, e) = registry.entry_at(i);
            proof {
                registry.lemma_entry_in_map(i as int);
            }
            GameRegistryEntry { tags: e.tags.duplicate(), when: e.when.duplicate() }
        },
        None => GameRegistryEntry::new(),
    };
    entry.tags.extend_from(tags);
    if !constraint.is_empty() {
        entry.when.insert(constraint);
    }
    registry.insert(path, entry);
}

/// The raw path one declared save rule assembles under its canonical root:
/// the bare root and path for a wildcard-only pattern, with a globstar for a
/// recursive rule, with the pattern otherwise.
pub open spec fn sp_save_path(root: Seq<char>, save: crate::steam::CloudSave) -> Seq<char> {
    let p = trim_lead_seps(trim_end_seps(save.path@));
    let pat = trim_lead_seps(trim_end_seps(save.pattern@));
    if save.pattern@ == "*"@ {
        root + "/"@ + p
    } else if save.recursive {
        root + "/"@ + p + "/"@ + "**"@ + "/"@ + pat
    } else {
        root + "/"@ + p + "/"@ + pat
    }
}

/// The condition one declared save rule carries: its first platform's system,
/// under the storefront.
pub open spec fn sp_save_constraint(save: crate::steam::CloudSave) -> GameFileConstraint {
    GameFileConstraint {
        os: if save.platforms@.len() > 0 {
            crate::steam::sp_parse_platform(save.platforms@[0]@)
        } else {
            None
        },
        store: Some(Store::Steam),
    }
}

/// The conclusion one declared save rule forces on the file map: a recognized
/// root whose assembled, normalized path is usable and colon-free is a key,
/// and that key's conditions include the rule's.
pub open spec fn sp_save_recorded(
    files: Map<Seq<char>, GameFileEntry>,
    save: crate::steam::CloudSave,
) -> bool {
    match crate::steam::sp_parse_root(save.root@) {
        Some(rp) => {
            let cand = norm_path(sp_save_path(rp, save));
            (sp_usable(cand) && !cand.contains(':')) ==> files.contains_key(cand)
                && files[cand].when@.contains(sp_save_constraint(save))
        },
        None => true,
    }
}

impl Game {
    /// Record one cloud-save candidate path: normalized, and kept only if
    /// usable and free of drive-letter colons.
    fn add_file_constraint(&mut self, path: String, constraint: GameFileConstraint)
        requires
            old(self).wf(),
        ensures
            final(self).wf(),
            final(self).registry.entries() == old(self).registry.entries(),
            final(self).launch.entries() == old(self).launch.entries(),
            final(self).install_dir@ == old(self).install_dir@,
            final(self).alias == old(self).alias,
            final(self).steam == old(self).steam,
            final(self).gog == old(self).gog,
            final(self).cloud == old(self).cloud,
            final(self).id == old(self).id,
            forall|k: Seq<char>|
                #[trigger] old(self).files@.contains_key(k) ==> final(self).files@.contains_key(k),
            forall|k: Seq<char>|
                #[trigger] final(self).files@.contains_key(k) ==> old(self).files@.contains_key(k)
                    || (k == norm_path(path@) && sp_usable(k) && !k.contains(':')),
            (sp_usable(norm_path(path@)) && !norm_path(path@).contains(':')) ==> final(self).files@.contains_key(norm_path(path@)) && final(self).files@[norm_path(
                path@,
            )].when@.contains(constraint),
            forall|k: Seq<char>|
                #[trigger] old(self).files@.contains_key(k) ==> final(self).files@[k].when@ == old(self).files@[k].when@ || final(self).files@[k].when@ == old(self).files@[k].when@.insert(
                    constraint,
                ),
    {
        let normalized = crate::path::normalize(path.as_str());
        let nv = str_chars(normalized.as_str());
        let mut has_colon = false;
        let cn = nv.len();
        for i in 0..cn
            invariant
                cn == nv@.len(),
                has_colon == exists|j: int| 0 <= j < i && nv@[j] == ':',
        {
            if nv[i] == ':' {
                has_colon = true;
            }
        }
        proof {
            if has_colon {
                let j = choose|j: int| 0 <= j < nv@.len() && nv@[j] == ':';
                assert(norm_path(path@).contains(':'));
            } else {
                if norm_path(path@).contains(':') {
                    let j = choose|j: int|
                        0 <= j < norm_path(path@).len() && norm_path(path@)[j] == ':';
                    assert(nv@[j] == ':');
                    assert(false);
                }
            }
        }
        if crate::path::usable_chars(&nv) && !has_colon {
            let mut entry = match self.files.index_of(&normalized) {
                Some(i) => {
                    let (_, e) = self.files.entry_at(i);
                    proof {
                        self.files.lemma_entry_in_map(i as int);
                    }
                    GameFileEntry { tags: e.tags.duplicate(), when: e.when.duplicate() }
                },
                None => GameFileEntry::new(),
            };
            entry.when.insert(constraint);
            let ghost when_after = entry.when@;
            self.files.insert(normalized, entry);
            proof {
                assert(self.files@[norm_path(path@)].when@ == when_after);
                assert(when_after.contains(constraint));
            }
        }
    }

    /// Merge one storefront record in. The install directory is recorded
    /// verbatim; launch candidates are matched or appended; and cloud-save
    /// rules apply only as a fallback, when the record so far has no file and
    /// no registry data at all and the override table has not turned the
    /// storefront's cloud data off.
    pub fn integrate_steam(&mut self, cache: &crate::steam::SteamCacheEntry, use_steam_cloud: bool)
        requires
            old(self).wf(),
        ensures
            final(self).wf(),
            final(self).registry.entries() == old(self).registry.entries(),
            final(self).registry@ == old(self).registry@,
            final(self).alias == old(self).alias,
            final(self).steam == old(self).steam,
            final(self).gog == old(self).gog,
            final(self).cloud == old(self).cloud,
            opt_str_view(final(self).id.flatpak) == opt_str_view(old(self).id.flatpak),
            final(self).install_dir@ == (match cache.install_dir {
                Some(d) => old(self).install_dir@.insert(d@, GameInstallDirEntry {  }),
                None => old(self).install_dir@,
            }),
            !use_steam_cloud || !old(self).files@.is_empty() || !old(self).registry@.is_empty()
                ==> final(self).files@ == old(self).files@,
            (use_steam_cloud && old(self).files@.is_empty() && old(self).registry@.is_empty())
                ==> forall|i: int|
                0 <= i < cache.cloud.saves@.len() ==> sp_save_recorded(
                    final(self).files@,
                    #[trigger] cache.cloud.saves@[i],
                ),
            forall|k: Seq<char>|
                #[trigger] old(self).files@.contains_key(k) ==> final(self).files@.contains_key(k),
            forall|k: Seq<char>|
                #[trigger] old(self).launch@.contains_key(k) ==> final(self).launch@.contains_key(
                    k,
                ),
    {
        if let Some(install_dir) = &cache.install_dir {
            self.install_dir.insert(install_dir.clone(), GameInstallDirEntry {  });
        }
        let ln = cache.launch.len();
        let mut li: usize = 0;
        while li < ln
            invariant
                li <= ln,
                ln == cache.launch@.len(),
                self.wf(),
                self.registry.entries() == old(self).registry.entries(),
                self.alias == old(self).alias,
                self.steam == old(self).steam,
                self.gog == old(self).gog,
                self.cloud == old(self).cloud,
                opt_str_view(self.id.flatpak) == opt_str_view(old(self).id.flatpak),
                self.files@ == old(self).files@,
                self.install_dir@ == (match cache.install_dir {
                    Some(d) => old(self).install_dir@.insert(d@, GameInstallDirEntry {  }),
                    None => old(self).install_dir@,
                }),
                forall|k: Seq<char>|
                    #[trigger] old(self).launch@.contains_key(k) ==> self.launch@.contains_key(k),
            decreases ln - li,
        {
            let incoming = &cache.launch[li];
            let exec_missing = incoming.executable.is_none();
            let exec_is_uri = match &incoming.executable {
                Some(x) => {
                    let xv = str_chars(x.as_str());
                    occurs_exec(&xv, &str_chars("://"))
                },
                None => false,
            };
            let type_ok = match &incoming.launch_type {
                None => true,
                Some(t) => {
                    let tv = str_chars(t.as_str());
                    chars_eq(&tv, &str_chars("default")) || chars_eq(&tv, &str_chars("none"))
                },
            };
            if exec_missing || exec_is_uri || !type_ok || incoming.config.betakey.is_some()
                || incoming.config.ownsdlc.is_some() {
                li = li + 1;
                continue ;
            }
            let os = match &incoming.config.oslist {
                Some(x) => {
                    let xv = str_chars(x.as_str());
                    if chars_eq(&xv, &str_chars("windows")) {
                        Some(Os::Windows)
                    } else if chars_eq(&xv, &str_chars("macos")) || chars_eq(
                        &xv,
                        &str_chars("macosx"),
                    ) {
                        Some(Os::Mac)
                    } else if chars_eq(&xv, &str_chars("linux")) {
                        Some(Os::Linux)
                    } else {
                        None
                    }
                },
                None => None,
            };
            let bit: Option<u64> = match &incoming.config.osarch {
                Some(x) => {
                    let xv = str_chars(x.as_str());
                    if chars_eq(&xv, &str_chars("32")) {
                        Some(32u64)
                    } else if chars_eq(&xv, &str_chars("64")) {
                        Some(64u64)
                    } else {
                        None
                    }
                },
                None => None,
            };
            let constraint = LaunchConstraint { bit, os, store: Some(Store::Steam) };
            let mut found_existing = false;
            let en = self.launch.len();
            let mut ei: usize = 0;
            while ei < en
                invariant
                    en == self.launch.entries().len(),
                    ei <= en,
                    self.wf(),
                    self.registry.entries() == old(self).registry.entries(),
                    self.alias == old(self).alias,
                    self.steam == old(self).steam,
                    self.gog == old(self).gog,
                    self.cloud == old(self).cloud,
                    opt_str_view(self.id.flatpak) == opt_str_view(old(self).id.flatpak),
                    self.files@ == old(self).files@,
                    self.install_dir@ == (match cache.install_dir {
                        Some(d) => old(self).install_dir@.insert(d@, GameInstallDirEntry {  }),
                        None => old(self).install_dir@,
                    }),
                    forall|k: Seq<char>|
                        #[trigger] old(self).launch@.contains_key(k) ==> self.launch@.contains_key(
                            k,
                        ),
                decreases en - ei,
            {
                let (key, options) = self.launch.entry_at(ei);
                let key_copy = key.clone();
                let mut updated: Vec<LaunchEntry> = Vec::new();
                let on = options.len();
                let mut oi: usize = 0;
                let mut any = false;
                while oi < on
                    invariant
                        on == self.launch.entries()[ei as int].1@.len(),
                        ei < self.launch.entries().len(),
                        oi <= on,
                        self.wf(),
                        updated@.len() == oi,
                        forall|x: int| 0 <= x < oi ==> (#[trigger] updated@[x]).wf(),
                    decreases on - oi,
                {
                    let existing = &self.launch.entry_at(ei).1[oi];
                    proof {
                        assert(self.launch.entries()[ei as int].1@[oi as int].wf());
                    }
                    let args_match = opt_string_eq(&incoming.arguments, &existing.arguments);
                    let exe_match = do_launch_paths_match(
                        clone_opt_string(&incoming.executable),
                        Some(key_copy.clone()),
                    );
                    let wd_match = do_launch_paths_match(
                        clone_opt_string(&incoming.workingdir),
                        clone_opt_string(&existing.working_dir),
                    );
                    let mut new_when = existing.when.duplicate();
                    let new_entry = if args_match && exe_match && wd_match {
                        any = true;
                        new_when.insert(constraint);
                        LaunchEntry {
                            arguments: clone_opt_string(&existing.arguments),
                            when: new_when,
                            working_dir: clone_opt_string(&existing.working_dir),
                        }
                    } else {
                        LaunchEntry {
                            arguments: clone_opt_string(&existing.arguments),
                            when: new_when,
                            working_dir: clone_opt_string(&existing.working_dir),
                        }
                    };
                    updated.push(new_entry);
                    oi = oi + 1;
                }
                if any {
                    found_existing = true;
                }
                self.launch.set_value_at(ei, updated);
                proof {
                    assert forall|k: Seq<char>| #[trigger]
                        old(self).launch@.contains_key(k) implies self.launch@.contains_key(k) by {}
                }
                ei = ei + 1;
            }
            if !found_existing {
                let key = match &incoming.executable {
                    Some(x) => normalize_launch_path(x.as_str()),
                    None => None,
                };
                if let Some(key) = key {
                    let working_dir = match &incoming.workingdir {
                        Some(x) => normalize_launch_path(x.as_str()),
                        None => None,
                    };
                    let mut when: DedupSet<LaunchConstraint> = DedupSet::new();
                    when.insert(constraint);
                    let candidate = LaunchEntry {
                        arguments: clone_opt_string(&incoming.arguments),
                        when,
                        working_dir,
                    };
                    let mut options: Vec<LaunchEntry> = match self.launch.index_of(&key) {
                        Some(i) => {
                            let (_, existing) = self.launch.entry_at(i);
                            let mut copied: Vec<LaunchEntry> = Vec::new();
                            let cn = existing.len();
                            let mut ci: usize = 0;
                            while ci < cn
                                invariant
                                    i < self.launch.entries().len(),
                                    cn == self.launch.entries()[i as int].1@.len(),
                                    ci <= cn,
                                    self.wf(),
                                    copied@.len() == ci,
                                    forall|x: int| 0 <= x < ci ==> (#[trigger] copied@[x]).wf(),
                                decreases cn - ci,
                            {
                                let e = &self.launch.entry_at(i).1[ci];
                                proof {
                                    assert(self.launch.entries()[i as int].1@[ci as int].wf());
                                }
                                copied.push(
                                    LaunchEntry {
                                        arguments: clone_opt_string(&e.arguments),
                                        when: e.when.duplicate(),
                                        working_dir: clone_opt_string(&e.working_dir),
                                    },
                                );
                                ci = ci + 1;
                            }
                            copied
                        },
                        None => Vec::new(),
                    };
                    options.push(candidate);
                    self.launch.insert(key, options);
                }
            }
            li = li + 1;
        }

        let need_cloud = use_steam_cloud && self.files.is_empty() && self.registry.is_empty();
        if !need_cloud {
            proof {
                assert(self.registry@ == old(self).registry@);
                assert(!(use_steam_cloud && old(self).files@.is_empty()
                    && old(self).registry@.is_empty()));
            }
            return ;
        }
        let sn = cache.cloud.saves.len();
        let mut si: usize = 0;
        while si < sn
            invariant
                si <= sn,
                sn == cache.cloud.saves@.len(),
                self.wf(),
                self.registry.entries() == old(self).registry.entries(),
                self.alias == old(self).alias,
                self.steam == old(self).steam,
                self.gog == old(self).gog,
                self.cloud == old(self).cloud,
                opt_str_view(self.id.flatpak) == opt_str_view(old(self).id.flatpak),
                self.install_dir@ == (match cache.install_dir {
                    Some(d) => old(self).install_dir@.insert(d@, GameInstallDirEntry {  }),
                    None => old(self).install_dir@,
                }),
                forall|k: Seq<char>|
                    #[trigger] old(self).launch@.contains_key(k) ==> self.launch@.contains_key(k),
                forall|k: Seq<char>|
                    #[trigger] old(self).files@.contains_key(k) ==> self.files@.contains_key(k),
                forall|j: int|
                    0 <= j < si ==> sp_save_recorded(self.files@, #[trigger] cache.cloud.saves@[j]),
            decreases sn - si,
        {
            let save = &cache.cloud.saves[si];
            let root = match crate::steam::parse_root(save.root.as_str()) {
                Some(r) => r,
                None => {
                    proof {
                        assert(sp_save_recorded(self.files@, cache.cloud.saves@[si as int]));
                    }
                    si = si + 1;
                    continue ;
                },
            };
            let os = if save.platforms.len() > 0 {
                crate::steam::parse_platform(save.platforms[0].as_str())
            } else {
                None
            };
            let constraint = GameFileConstraint { os, store: Some(Store::Steam) };
            let path = trim_matches_seps(save.path.as_str());
            let pattern = trim_matches_seps(save.pattern.as_str());
            let pattern_chars = str_chars(save.pattern.as_str());
            let star = str_chars("*");
            let candidate = if chars_eq(&pattern_chars, &star) {
                join2(root, path.as_str())
            } else if save.recursive {
                join4(root, path.as_str(), "**", pattern.as_str())
            } else {
                join3(root, path.as_str(), pattern.as_str())
            };
            let ghost sv = cache.cloud.saves@[si as int];
            proof {
                assert(crate::steam::sp_parse_root(sv.root@) == Some(root@));
                assert(candidate@ == sp_save_path(root@, sv));
                assert(constraint == sp_save_constraint(sv));
            }
            self.add_file_constraint(candidate, constraint);
            proof {
                assert(sp_save_recorded(self.files@, sv));
            }
            let on = cache.cloud.overrides.len();
            let mut oi: usize = 0;
            while oi < on
                invariant
                    oi <= on,
                    on == cache.cloud.overrides@.len(),
                    sn == cache.cloud.saves@.len(),
                    si < sn,
                    self.wf(),
                    self.registry.entries() == old(self).registry.entries(),
                    self.alias == old(self).alias,
                    self.steam == old(self).steam,
                    self.gog == old(self).gog,
                    self.cloud == old(self).cloud,
                    opt_str_view(self.id.flatpak) == opt_str_view(old(self).id.flatpak),
                    self.install_dir@ == (match cache.install_dir {
                        Some(d) => old(self).install_dir@.insert(d@, GameInstallDirEntry {  }),
                        None => old(self).install_dir@,
                    }),
                    forall|k: Seq<char>|
                        #[trigger] old(self).launch@.contains_key(k) ==> self.launch@.contains_key(
                            k,
                        ),
                    forall|k: Seq<char>|
                        #[trigger] old(self).files@.contains_key(k) ==> self.files@.contains_key(
                            k,
                        ),
                    forall|j: int|
                        0 <= j <= si ==> sp_save_recorded(
                            self.files@,
                            #[trigger] cache.cloud.saves@[j],
                        ),
                decreases on - oi,
            {
                let alt = &cache.cloud.overrides[oi];
                let save2 = &cache.cloud.saves[si];
                if !(save2.root == alt.root) {
                    oi = oi + 1;
                    continue ;
                }
                let alt_os = crate::steam::parse_os_comparison(
                    clone_opt_string(&alt.os),
                    clone_opt_string(&alt.os_compare),
                );
                let constraint2 = GameFileConstraint {
                    os: match alt_os {
                        Some(x) => Some(x),
                        None => os,
                    },
                    store: Some(Store::Steam),
                };
                let root2 = match &alt.use_instead {
                    Some(instead) => crate::steam::parse_root(instead.as_str()),
                    None => crate::steam::parse_root(alt.root.as_str()),
                };
                let root2 = match root2 {
                    Some(r) => r,
                    None => {
                        oi = oi + 1;
                        continue ;
                    },
                };
                let path2 = trim_matches_seps(save2.path.as_str());
                let pattern2 = trim_matches_seps(save2.pattern.as_str());
                let pattern2_chars = str_chars(save2.pattern.as_str());
                let mut alt_path = match &alt.add_path {
                    Some(add) => {
                        if chars_eq(&pattern2_chars, &star) {
                            join3(root2, add.as_str(), path2.as_str())
                        } else if save2.recursive {
                            join5(root2, add.as_str(), path2.as_str(), "**", pattern2.as_str())
                        } else {
                            join4(root2, add.as_str(), path2.as_str(), pattern2.as_str())
                        }
                    },
                    None => join3(root2, path2.as_str(), pattern2.as_str()),
                };
                let tn = alt.path_transforms.len();
                let mut ti: usize = 0;
                while ti < tn
                    invariant
                        tn == alt.path_transforms@.len(),
                        ti <= tn,
                    decreases tn - ti,
                {
                    let transform = &alt.path_transforms[ti];
                    let find_empty = transform.find.as_str().unicode_len() == 0;
                    let replace_empty = transform.replace.as_str().unicode_len() == 0;
                    if !find_empty && !replace_empty {
                        let pv = str_chars(alt_path.as_str());
                        let fv = str_chars(transform.find.as_str());
                        let rv = str_chars(transform.replace.as_str());
                        let replaced = replace_exact_exec(&pv, &fv, &rv);
                        alt_path = chars_str(&replaced);
                    }
                    ti = ti + 1;
                }
                self.add_file_constraint(alt_path, constraint2);
                oi = oi + 1;
            }
            si = si + 1;
        }
        proof {
            assert(forall|i: int|
                0 <= i < cache.cloud.saves@.len() ==> sp_save_recorded(
                    self.files@,
                    #[trigger] cache.cloud.saves@[i],
                ));
        }
    }
}

/// The text with leading and trailing separators removed, as the storefront's
/// declared paths are cleaned before assembly.
#[verifier::loop_isolation(false)]
fn trim_matches_seps(s: &str) -> (r: String)
    ensures
        r@ == trim_lead_seps(trim_end_seps(s@)),
{
    let v = str_chars(s);
    let ghost orig = v@;
    let mut v = v;
    loop
        invariant
            trim_end_seps(orig) == trim_end_seps(v@),
        decreases v@.len(),
    {
        let n = v.len();
        if n > 0 && {
            let c = v[n - 1];
            c == '/' || c == '\\'
        } {
            proof {
                assert(v@.last() == v@[n - 1]);
            }
            let ghost before = v@;
            v.pop();
            proof {
                assert(v@ =~= before.drop_last());
            }
        } else {
            proof {
                if v@.len() > 0 {
                    assert(v@.last() == v@[n - 1]);
                }
                assert(trim_end_seps(v@) == v@);
            }
            break ;
        }
    }
    let ghost trimmed_end = v@;
    let n = v.len();
    let mut i: usize = 0;
    proof {
        assert(v@.skip(0) =~= v@);
    }
    while i < n && (v[i] == '/' || v[i] == '\\')
        invariant
            n == v@.len(),
            i <= n,
            v@ == trimmed_end,
            trim_lead_seps(trimmed_end) == trim_lead_seps(v@.skip(i as int)),
        decreases n - i,
    {
        proof {
            assert(v@.skip(i as int)[0] == v@[i as int]);
            assert(v@.skip(i as int).drop_first() =~= v@.skip(i as int + 1));
        }
        i = i + 1;
    }
    let mut out: Vec<char> = Vec::new();
    let mut j: usize = i;
    while j < n
        invariant
            n == v@.len(),
            i <= j <= n,
            out@ =~= v@.subrange(i as int, j as int),
        decreases n - j,
    {
        out.push(v[j]);
        j = j + 1;
    }
    proof {
        assert(out@ =~= v@.skip(i as int));
        if i < n {
            assert(v@.skip(i as int)[0] == v@[i as int]);
        }
        assert(trim_lead_seps(v@.skip(i as int)) == v@.skip(i as int));
    }
    chars_str(&out)
}

/// Trailing separators are dropped.
pub open spec fn trim_end_seps(s: Seq<char>) -> Seq<char>
    decreases s.len(),
{
    if s.len() > 0 && (s.last() == '/' || s.last() == '\\') {
        trim_end_seps(s.drop_last())
    } else {
        s
    }
}

/// Leading separators are dropped.
pub open spec fn trim_lead_seps(s: Seq<char>) -> Seq<char>
    decreases s.len(),
{
    if s.len() > 0 && (s[0] == '/' || s[0] == '\\') {
        trim_lead_seps(s.drop_first())
    } else {
        s
    }
}

/// `a/b`.
fn join2(a: &str, b: &str) -> (r: String)
    ensures
        r@ == a@ + "/"@ + b@,
{
    let mut out = String::new();
    vstd::string::StringExecFns::append(&mut out, a);
    vstd::string::StringExecFns::append(&mut out, "/");
    vstd::string::StringExecFns::append(&mut out, b);
    out
}

/// `a/b/c`.
fn join3(a: &str, b: &str, c: &str) -> (r: String)
    ensures
        r@ == a@ + "/"@ + b@ + "/"@ + c@,
{
    let mut out = String::new();
    vstd::string::StringExecFns::append(&mut out, a);
    vstd::string::StringExecFns::append(&mut out, "/");
    vstd::string::StringExecFns::append(&mut out, b);
    vstd::string::StringExecFns::append(&mut out, "/");
    vstd::string::StringExecFns::append(&mut out, c);
    out
}

/// `a/b/c/d`.
fn join4(a: &str, b: &str, c: &str, d: &str) -> (r: String)
    ensures
        r@ == a@ + "/"@ + b@ + "/"@ + c@ + "/"@ + d@,
{
    let mut out = String::new();
    vstd::string::StringExecFns::append(&mut out, a);
    vstd::string::StringExecFns::append(&mut out, "/");
    vstd::string::StringExecFns::append(&mut out, b);
    vstd::string::StringExecFns::append(&mut out, "/");
    vstd::string::StringExecFns::append(&mut out, c);
    vstd::string::StringExecFns::append(&mut out, "/");
    vstd::string::StringExecFns::append(&mut out, d);
    out
}

/// `a/b/c/d/e`.
fn join5(a: &str, b: &str, c: &str, d: &str, e: &str) -> (r: String)
    ensures
        r@ == a@ + "/"@ + b@ + "/"@ + c@ + "/"@ + d@ + "/"@ + e@,
{
    let mut out = String::new();
    vstd::string::StringExecFns::append(&mut out, a);
    vstd::string::StringExecFns::append(&mut out, "/");
    vstd::string::StringExecFns::append(&mut out, b);
    vstd::string::StringExecFns::append(&mut out, "/");
    vstd::string::StringExecFns::append(&mut out, c);
    vstd::string::StringExecFns::append(&mut out, "/");
    vstd::string::StringExecFns::append(&mut out, d);
    vstd::string::StringExecFns::append(&mut out, "/");
    vstd::string::StringExecFns::append(&mut out, e);
    out
}

impl Manifest {
    pub open spec fn wf(&self) -> bool {
        self.0.wf()
    }

    pub fn new() -> (r: Self)
        ensures
            r.wf(),
            r.0@ == Map::<Seq<char>, Game>::empty(),
    {
        Manifest(StringMap::new())
    }

    /// Rebuild the manifest wholesale from the two caches and the override
    /// table. Every retained entry either is a redirect stub (an alias) or
    /// carries actionable data; entries force-omitted by an override never
    /// appear under their own title.
    pub fn refresh(
        &mut self,
        overrides: &ManifestOverride,
        wiki_cache: &crate::wiki::WikiCache,
        steam_cache: &crate::steam::SteamCache,
    ) -> (r: Result<(), crate::Error>)
        requires
            wiki_cache.wf(),
            overrides.0.wf(),
            steam_cache.wf(),
            forall|i: int|
                0 <= i < overrides.0.entries().len() ==> (#[trigger] overrides.0.entries()[i]).1.game.install_dir.wf(),
        ensures
            final(self).wf(),
            r is Ok,
            forall|k: Seq<char>|
                #[trigger] final(self).0@.contains_key(k) ==> final(self).0@[k].alias is Some
                    || final(self).0@[k].sp_usable(),
    {
        self.0 = StringMap::new();
        let primary_ids = wiki_cache.primary_ids();
        let n = wiki_cache.0.len();
        let mut wi: usize = 0;
        while wi < n
            invariant
                wi <= n,
                n == wiki_cache.0.entries().len(),
                wiki_cache.wf(),
                overrides.0.wf(),
                steam_cache.wf(),
                primary_ids.steam.wf(),
                primary_ids.gog.wf(),
                forall|i: int|
                    0 <= i < overrides.0.entries().len() ==> (#[trigger] overrides.0.entries()[i]).1.game.install_dir.wf(),
                self.0.wf(),
                forall|k: Seq<char>|
                    #[trigger] self.0@.contains_key(k) ==> self.0@[k].alias is Some
                        || self.0@[k].sp_usable(),
            decreases n - wi,
        {
            let (title, info) = wiki_cache.0.entry_at(wi);
            let title = title.clone();
            proof {
                assert(wiki_cache.0.entries()[wi as int].1.wf());
            }
            let omitted = match overrides.0.index_of(&title) {
                Some(oi) => {
                    let (_, o) = overrides.0.entry_at(oi);
                    o.omit
                },
                None => false,
            };
            if omitted {
                wi = wi + 1;
                continue ;
            }
            let mut game = Game::new();
            game.integrate_wiki(info, title.as_str(), &primary_ids);
            let rn = info.renamed_from.len();
            let mut ri: usize = 0;
            while ri < rn
                invariant
                    ri <= rn,
                    rn == info.renamed_from@.len(),
                    self.0.wf(),
                    game.wf(),
                    forall|k: Seq<char>|
                        #[trigger] self.0@.contains_key(k) ==> self.0@[k].alias is Some
                            || self.0@[k].sp_usable(),
                decreases rn - ri,
            {
                let rename = &info.renamed_from[ri];
                let rename_chars = str_chars(rename.as_str());
                let title_chars = str_chars(title.as_str());
                let rename_low = lower_vec(&rename_chars);
                let title_low = lower_vec(&title_chars);
                if chars_eq(&rename_low, &title_low) || self.0.contains_key(rename) {
                    ri = ri + 1;
                    continue ;
                }
                let mut stub = Game::new();
                stub.alias = Some(title.clone());
                self.0.insert(rename.clone(), stub);
                ri = ri + 1;
            }
            if let Some(id) = game.steam.id {
                match steam_cache.find_id(id) {
                    Some(si) => {
                        let entry = steam_cache.entry_at_pos(si);
                        let use_cloud = match overrides.0.index_of(&title) {
                            Some(oi) => {
                                let (_, o) = overrides.0.entry_at(oi);
                                o.use_steam_cloud
                            },
                            None => true,
                        };
                        game.integrate_steam(entry, use_cloud);
                    },
                    None => {},
                }
            }
            match overrides.0.index_of(&title) {
                Some(oi) => {
                    let (_, o) = overrides.0.entry_at(oi);
                    proof {
                        assert(overrides.0.entries()[oi as int].1.game.install_dir.wf());
                    }
                    game.integrate_overrides(o);
                },
                None => {},
            }
            if !game.usable() {
                wi = wi + 1;
                continue ;
            }
            self.0.insert(title, game);
            wi = wi + 1;
        }
        Ok(())
    }
}

} // verus!
