//! The storefront cache: per-product metadata decoded from the product-info
//! source, with its own staleness state and the state bridge driven by the
//! wiki cache.

use vstd::prelude::*;

use crate::chars::{chars_eq, clone_opt_string, clone_vec_string, lower, lower_vec, str_chars};
use crate::manifest::Os;
use crate::strmap::{clone_string_map, StringMap};
use crate::wiki::WikiEntryV;
use crate::State;

verus! {

/// Per-product cached record.
#[derive(Debug, Clone)]
pub struct SteamCacheEntry {
    pub state: State,
    /// Unexpected fields were observed in the source payload.
    pub irregular: bool,
    pub cloud: Cloud,
    pub install_dir: Option<String>,
    pub launch: Vec<Launch>,
    pub name_localized: StringMap<String>,
}

impl SteamCacheEntry {
    pub open spec fn wf(&self) -> bool {
        self.name_localized.wf()
    }

    pub fn new() -> (r: Self)
        ensures
            r.wf(),
            r.state == State::Handled,
            !r.irregular,
            r.cloud.saves@.len() == 0 && r.cloud.overrides@.len() == 0,
            r.install_dir is None,
            r.launch@.len() == 0,
    {
        SteamCacheEntry {
            state: State::Handled,
            irregular: false,
            cloud: Cloud { saves: Vec::new(), overrides: Vec::new() },
            install_dir: None,
            launch: Vec::new(),
            name_localized: StringMap::new(),
        }
    }
}

/// Cloud-save rule set of a product.
#[derive(Debug, Clone)]
pub struct Cloud {
    pub saves: Vec<CloudSave>,
    pub overrides: Vec<CloudOverride>,
}

impl Cloud {
    pub fn is_empty(&self) -> (r: bool)
        ensures
            r == (self.saves@.len() == 0 && self.overrides@.len() == 0),
    {
        self.saves.is_empty() && self.overrides.is_empty()
    }
}

/// One declared save-path rule.
#[derive(Debug, Clone)]
pub struct CloudSave {
    pub path: String,
    pub pattern: String,
    pub platforms: Vec<String>,
    pub recursive: bool,
    pub root: String,
}

/// One override rule, keyed by the declared root it modifies.
#[derive(Debug, Clone)]
pub struct CloudOverride {
    pub add_path: Option<String>,
    pub os: Option<String>,
    pub os_compare: Option<String>,
    pub path_transforms: Vec<CloudTransform>,
    pub recursive: bool,
    pub root: String,
    pub use_instead: Option<String>,
}

/// A literal find/replace rewrite applied to an overridden path.
#[derive(Debug, Clone)]
pub struct CloudTransform {
    pub find: String,
    pub replace: String,
}

/// One launch-configuration candidate.
#[derive(Debug, Clone)]
pub struct Launch {
    pub arguments: Option<String>,
    pub config: LaunchConfig,
    pub description: Option<String>,
    pub executable: Option<String>,
    pub launch_type: Option<String>,
    pub workingdir: Option<String>,
}

impl Launch {
    pub open spec fn sp_is_empty(&self) -> bool {
        &&& self.arguments is None
        &&& self.config.sp_is_empty()
        &&& self.description is None
        &&& self.executable is None
        &&& self.launch_type is None
        &&& self.workingdir is None
    }

    pub fn is_empty(&self) -> (r: bool)
        ensures
            r == self.sp_is_empty(),
    {
        self.arguments.is_none() && self.config.is_empty() && self.description.is_none()
            && self.executable.is_none() && self.launch_type.is_none() && self.workingdir.is_none()
    }
}

/// Applicability and gating flags of a launch candidate.
#[derive(Debug, Clone)]
pub struct LaunchConfig {
    pub betakey: Option<String>,
    pub osarch: Option<String>,
    pub oslist: Option<String>,
    pub ownsdlc: Option<String>,
}

impl LaunchConfig {
    pub open spec fn sp_is_empty(&self) -> bool {
        &&& self.betakey is None
        &&& self.osarch is None
        &&& self.oslist is None
        &&& self.ownsdlc is None
    }

    pub fn is_empty(&self) -> (r: bool)
        ensures
            r == self.sp_is_empty(),
    {
        self.betakey.is_none() && self.osarch.is_none() && self.oslist.is_none()
            && self.ownsdlc.is_none()
    }
}

/// Raw per-batch payload of the product-info source, decoded to plain values.
#[derive(Debug, Clone)]
pub struct Response {
    pub apps: Vec<(u32, App)>,
}

/// Raw per-product payload.
#[derive(Debug, Clone)]
pub struct App {
    pub common: AppCommon,
    pub config: AppConfig,
    pub ufs: AppUfs,
}

#[derive(Debug, Clone)]
pub struct AppCommon {
    pub name_localized: StringMap<String>,
}

#[derive(Debug, Clone)]
pub struct AppConfig {
    pub installdir: Option<String>,
    pub launch: Vec<AppLaunch>,
}

#[derive(Debug, Clone)]
pub struct AppLaunch {
    pub executable: Option<String>,
    pub arguments: Option<String>,
    pub workingdir: Option<String>,
    pub launch_type: Option<String>,
    pub config: AppLaunchConfig,
    pub description: Option<String>,
}

#[derive(Debug, Clone)]
pub struct AppLaunchConfig {
    pub betakey: Option<String>,
    pub osarch: Option<String>,
    pub oslist: Option<String>,
    pub ownsdlc: Option<String>,
}

#[derive(Debug, Clone)]
pub struct AppUfs {
    pub save_files: Vec<AppUfsSaveFile>,
    pub root_overrides: Vec<AppUfsRootOverride>,
}

#[derive(Debug, Clone)]
pub struct AppUfsSaveFile {
    pub path: String,
    pub pattern: String,
    pub platforms: Vec<String>,
    pub recursive: bool,
    pub root: String,
}

#[derive(Debug, Clone)]
pub struct AppUfsRootOverride {
    pub add_path: Option<String>,
    pub os: Option<String>,
    pub os_compare: Option<String>,
    pub path_transforms: Vec<AppUfsPathTransform>,
    pub recursive: bool,
    pub root: String,
    pub use_instead: Option<String>,
}

#[derive(Debug, Clone)]
pub struct AppUfsPathTransform {
    pub find: String,
    pub replace: String,
}

/// Keys expected in a raw save-rule object; anything else flags the record.
pub fn is_known_save_key(key: &String) -> (r: bool)
    ensures
        r == (key@ == "path"@ || key@ == "pattern"@ || key@ == "platforms"@ || key@
            == "recursive"@ || key@ == "root"@),
{
    let v = str_chars(key.as_str());
    chars_eq(&v, &str_chars("path")) || chars_eq(&v, &str_chars("pattern")) || chars_eq(
        &v,
        &str_chars("platforms"),
    ) || chars_eq(&v, &str_chars("recursive")) || chars_eq(&v, &str_chars("root"))
}

/// Keys expected in a raw override object; anything else flags the record.
pub fn is_known_override_key(key: &String) -> (r: bool)
    ensures
        r == (key@ == "add_path"@ || key@ == "os"@ || key@ == "os_compare"@ || key@
            == "path_transforms"@ || key@ == "recursive"@ || key@ == "root"@ || key@
            == "use_instead"@),
{
    let v = str_chars(key.as_str());
    chars_eq(&v, &str_chars("add_path")) || chars_eq(&v, &str_chars("os")) || chars_eq(
        &v,
        &str_chars("os_compare"),
    ) || chars_eq(&v, &str_chars("path_transforms")) || chars_eq(&v, &str_chars("recursive"))
        || chars_eq(&v, &str_chars("root")) || chars_eq(&v, &str_chars("use_instead"))
}

/// The launch candidate decoded from one raw launch object.
pub open spec fn sp_launch_of(al: AppLaunch) -> Launch {
    Launch {
        executable: al.executable,
        arguments: al.arguments,
        workingdir: al.workingdir,
        launch_type: al.launch_type,
        description: al.description,
        config: LaunchConfig {
            betakey: al.config.betakey,
            osarch: al.config.osarch,
            oslist: al.config.oslist,
            ownsdlc: al.config.ownsdlc,
        },
    }
}

/// Launch candidates of a product: each raw object decoded, empty ones dropped.
pub open spec fn sp_launches(raw: Seq<AppLaunch>) -> Seq<Launch>
    decreases raw.len(),
{
    if raw.len() == 0 {
        Seq::empty()
    } else {
        let rest = sp_launches(raw.drop_last());
        let l = sp_launch_of(raw.last());
        if l.sp_is_empty() {
            rest
        } else {
            rest.push(l)
        }
    }
}

/// The save rule matches one raw save object field for field.
pub open spec fn sp_save_matches(s: CloudSave, raw: AppUfsSaveFile) -> bool {
    &&& s.path == raw.path
    &&& s.pattern == raw.pattern
    &&& s.platforms@ == raw.platforms@
    &&& s.recursive == raw.recursive
    &&& s.root == raw.root
}

/// The override rule matches one raw override object field for field.
pub open spec fn sp_override_matches(o: CloudOverride, raw: AppUfsRootOverride) -> bool {
    &&& o.add_path == raw.add_path
    &&& o.os == raw.os
    &&& o.os_compare == raw.os_compare
    &&& o.path_transforms@.len() == raw.path_transforms@.len()
    &&& forall|t: int|
        0 <= t < raw.path_transforms@.len() ==> (#[trigger] o.path_transforms@[t]).find
            == raw.path_transforms@[t].find && o.path_transforms@[t].replace
            == raw.path_transforms@[t].replace
    &&& o.recursive == raw.recursive
    &&& o.root == raw.root
    &&& o.use_instead == raw.use_instead
}

impl SteamCacheEntry {
    /// Decode one product's raw payload into a cache record: launch candidates
    /// filtered to non-empty entries, cloud rules and overrides mapped to
    /// normalized shapes, and the irregular flag recorded as given. Returns
    /// nothing when the response holds no data for the identifier.
    pub fn parse_app(app_id: u32, response: &Response, irregular: bool) -> (r: Option<
        SteamCacheEntry,
    >)
        ensures
            match r {
                None => forall|i: int|
                    0 <= i < response.apps@.len() ==> (#[trigger] response.apps@[i].0) != app_id,
                Some(e) => exists|i: int|
                    {
                        &&& 0 <= i < response.apps@.len()
                        &&& (#[trigger] response.apps@[i].0) == app_id
                        &&& {
                            let app = response.apps@[i].1;
                            &&& e.state == State::Handled
                            &&& e.irregular == irregular
                            &&& e.install_dir == app.config.installdir
                            &&& e.name_localized@ == app.common.name_localized@
                            &&& e.name_localized.wf() == app.common.name_localized.wf()
                            &&& e.launch@ == sp_launches(app.config.launch@)
                            &&& e.cloud.saves@.len() == app.ufs.save_files@.len()
                            &&& (forall|j: int|
                                0 <= j < app.ufs.save_files@.len() ==> sp_save_matches(
                                    e.cloud.saves@[j],
                                    #[trigger] app.ufs.save_files@[j],
                                ))
                            &&& e.cloud.overrides@.len() == app.ufs.root_overrides@.len()
                            &&& (forall|j: int|
                                0 <= j < app.ufs.root_overrides@.len() ==> sp_override_matches(
                                    e.cloud.overrides@[j],
                                    #[trigger] app.ufs.root_overrides@[j],
                                ))
                        }
                    },
            },
    {
        let idx = match find_app(response, app_id) {
            None => {
                return None;
            },
            Some(i) => i,
        };
        let app = &response.apps[idx].1;

        let mut launch: Vec<Launch> = Vec::new();
        let ln = app.config.launch.len();
        for i in 0..ln
            invariant
                ln == app.config.launch@.len(),
                launch@ == sp_launches(app.config.launch@.take(i as int)),
        {
            let x = &app.config.launch[i];
            let candidate = Launch {
                executable: clone_opt_string(&x.executable),
                arguments: clone_opt_string(&x.arguments),
                workingdir: clone_opt_string(&x.workingdir),
                launch_type: clone_opt_string(&x.launch_type),
                description: clone_opt_string(&x.description),
                config: LaunchConfig {
                    betakey: clone_opt_string(&x.config.betakey),
                    osarch: clone_opt_string(&x.config.osarch),
                    oslist: clone_opt_string(&x.config.oslist),
                    ownsdlc: clone_opt_string(&x.config.ownsdlc),
                },
            };
            proof {
                assert(app.config.launch@.take(i as int + 1).drop_last() =~= app.config.launch@.take(
                    i as int,
                ));
                assert(app.config.launch@.take(i as int + 1).last() == app.config.launch@[i as int]);
                assert(candidate == sp_launch_of(app.config.launch@[i as int]));
            }
            if !candidate.is_empty() {
                launch.push(candidate);
            }
        }
        proof {
            assert(app.config.launch@.take(ln as int) =~= app.config.launch@);
        }

        let mut saves: Vec<CloudSave> = Vec::new();
        let sn = app.ufs.save_files.len();
        for i in 0..sn
            invariant
                sn == app.ufs.save_files@.len(),
                saves@.len() == i,
                forall|j: int|
                    0 <= j < i ==> sp_save_matches(
                        saves@[j],
                        #[trigger] app.ufs.save_files@[j],
                    ),
        {
            let x = &app.ufs.save_files[i];
            saves.push(
                CloudSave {
                    path: x.path.clone(),
                    pattern: x.pattern.clone(),
                    platforms: clone_vec_string(&x.platforms),
                    recursive: x.recursive,
                    root: x.root.clone(),
                },
            );
        }

        let mut overrides: Vec<CloudOverride> = Vec::new();
        let on = app.ufs.root_overrides.len();
        for i in 0..on
            invariant
                on == app.ufs.root_overrides@.len(),
                overrides@.len() == i,
                forall|j: int|
                    0 <= j < i ==> sp_override_matches(
                        overrides@[j],
                        #[trigger] app.ufs.root_overrides@[j],
                    ),
        {
            let x = &app.ufs.root_overrides[i];
            let mut transforms: Vec<CloudTransform> = Vec::new();
            let tn = x.path_transforms.len();
            for t in 0..tn
                invariant
                    tn == x.path_transforms@.len(),
                    transforms@.len() == t,
                    forall|j: int|
                        0 <= j < t ==> (#[trigger] transforms@[j]).find == x.path_transforms@[j].find
                            && transforms@[j].replace == x.path_transforms@[j].replace,
            {
                transforms.push(
                    CloudTransform {
                        find: x.path_transforms[t].find.clone(),
                        replace: x.path_transforms[t].replace.clone(),
                    },
                );
            }
            overrides.push(
                CloudOverride {
                    add_path: clone_opt_string(&x.add_path),
                    os: clone_opt_string(&x.os),
                    os_compare: clone_opt_string(&x.os_compare),
                    path_transforms: transforms,
                    recursive: x.recursive,
                    root: x.root.clone(),
                    use_instead: clone_opt_string(&x.use_instead),
                },
            );
        }

        Some(
            SteamCacheEntry {
                state: State::Handled,
                irregular,
                cloud: Cloud { saves, overrides },
                install_dir: clone_opt_string(&app.config.installdir),
                launch,
                name_localized: clone_string_map(&app.common.name_localized),
            },
        )
    }
}

/// Position of a product's payload in the response, if any.
fn find_app(response: &Response, app_id: u32) -> (r: Option<usize>)
    ensures
        match r {
            Some(i) => i < response.apps@.len() && response.apps@[i as int].0 == app_id,
            None => forall|i: int|
                0 <= i < response.apps@.len() ==> (#[trigger] response.apps@[i].0) != app_id,
        },
{
    let n = response.apps.len();
    for i in 0..n
        invariant
            n == response.apps@.len(),
            forall|j: int| 0 <= j < i ==> (#[trigger] response.apps@[j].0) != app_id,
    {
        if response.apps[i].0 == app_id {
            return Some(i);
        }
    }
    None
}

/// The canonical placeholder a declared storage root stands for, or nothing
/// for an unrecognized root (compared ignoring ASCII case).
pub open spec fn sp_parse_root(s: Seq<char>) -> Option<Seq<char>> {
    let low = lower(s);
    if low == "gameinstall"@ {
        Some("<base>"@)
    } else if low == "linuxhome"@ {
        Some("<home>"@)
    } else if low == "linuxxdgdatahome"@ {
        Some("<xdgData>"@)
    } else if low == "macappsupport"@ {
        Some("<home>/Library/Application Support"@)
    } else if low == "madocuments"@ {
        Some("<home>/Documents"@)
    } else if low == "machome"@ {
        Some("<home>"@)
    } else if low == "winappdataroaming"@ {
        Some("<winAppData>"@)
    } else if low == "winappdatalocal"@ {
        Some("<winLocalAppData>"@)
    } else if low == "winappdatalocallow"@ {
        Some("<home>/AppData/LocalLow"@)
    } else if low == "winmydocuments"@ {
        Some("<winDocuments>"@)
    } else if low == "winsavedgames"@ {
        Some("<home>/Saved Games"@)
    } else {
        None
    }
}

/// Map a declared storage root to its canonical placeholder.
pub fn parse_root(value: &str) -> (r: Option<&'static str>)
    ensures
        match r {
            Some(p) => sp_parse_root(value@) == Some(p@),
            None => sp_parse_root(value@) is None,
        },
{
    let v = str_chars(value);
    let low = lower_vec(&v);
    if chars_eq(&low, &str_chars("gameinstall")) {
        Some("<base>")
    } else if chars_eq(&low, &str_chars("linuxhome")) {
        Some("<home>")
    } else if chars_eq(&low, &str_chars("linuxxdgdatahome")) {
        Some("<xdgData>")
    } else if chars_eq(&low, &str_chars("macappsupport")) {
        Some("<home>/Library/Application Support")
    } else if chars_eq(&low, &str_chars("madocuments")) {
        Some("<home>/Documents")
    } else if chars_eq(&low, &str_chars("machome")) {
        Some("<home>")
    } else if chars_eq(&low, &str_chars("winappdataroaming")) {
        Some("<winAppData>")
    } else if chars_eq(&low, &str_chars("winappdatalocal")) {
        Some("<winLocalAppData>")
    } else if chars_eq(&low, &str_chars("winappdatalocallow")) {
        Some("<home>/AppData/LocalLow")
    } else if chars_eq(&low, &str_chars("winmydocuments")) {
        Some("<winDocuments>")
    } else if chars_eq(&low, &str_chars("winsavedgames")) {
        Some("<home>/Saved Games")
    } else {
        None
    }
}

/// The operating system a declared platform stands for; `all` and anything
/// unrecognized constrain nothing.
pub open spec fn sp_parse_platform(s: Seq<char>) -> Option<Os> {
    let low = lower(s);
    if low == "linux"@ {
        Some(Os::Linux)
    } else if low == "macos"@ {
        Some(Os::Mac)
    } else if low == "windows"@ {
        Some(Os::Windows)
    } else {
        None
    }
}

/// Map a declared platform to an operating system.
pub fn parse_platform(value: &str) -> (r: Option<Os>)
    ensures
        r == sp_parse_platform(value@),
{
    let v = str_chars(value);
    let low = lower_vec(&v);
    if chars_eq(&low, &str_chars("linux")) {
        Some(Os::Linux)
    } else if chars_eq(&low, &str_chars("macos")) {
        Some(Os::Mac)
    } else if chars_eq(&low, &str_chars("windows")) {
        Some(Os::Windows)
    } else {
        None
    }
}

/// The operating system an override's comparison constrains to: only the
/// equality operator against a known system name yields one.
pub open spec fn sp_parse_os_comparison(os: Option<Seq<char>>, comparison: Option<Seq<char>>) -> Option<
    Os,
> {
    let cmp = match comparison {
        Some(c) => c,
        None => "="@,
    };
    let low = match os {
        Some(o) => lower(o),
        None => Seq::empty(),
    };
    if cmp == "="@ && low == "windows"@ {
        Some(Os::Windows)
    } else if cmp == "="@ && low == "linux"@ {
        Some(Os::Linux)
    } else if cmp == "="@ && low == "macos"@ {
        Some(Os::Mac)
    } else {
        None
    }
}

/// Spec-level view of an optional string.
pub open spec fn opt_view(o: Option<String>) -> Option<Seq<char>> {
    match o {
        Some(s) => Some(s@),
        None => None,
    }
}

/// Map an override's comparison operator and system name to a constraint.
pub fn parse_os_comparison(os: Option<String>, comparison: Option<String>) -> (r: Option<Os>)
    ensures
        r == sp_parse_os_comparison(opt_view(os), opt_view(comparison)),
{
    let cmp_is_eq = match &comparison {
        Some(c) => {
            let cv = str_chars(c.as_str());
            chars_eq(&cv, &str_chars("="))
        },
        None => true,
    };
    let low: Vec<char> = match &os {
        Some(o) => {
            let ov = str_chars(o.as_str());
            lower_vec(&ov)
        },
        None => Vec::new(),
    };
    proof {
        if os is None {
            assert(low@ =~= lower(Seq::<char>::empty()));
        }
    }
    if cmp_is_eq && chars_eq(&low, &str_chars("windows")) {
        Some(Os::Windows)
    } else if cmp_is_eq && chars_eq(&low, &str_chars("linux")) {
        Some(Os::Linux)
    } else if cmp_is_eq && chars_eq(&low, &str_chars("macos")) {
        Some(Os::Mac)
    } else {
        None
    }
}

/// The per-product cache, keyed by product identifier.
#[derive(Debug)]
pub struct SteamCache {
    pub entries: Vec<(u32, SteamCacheEntry)>,
}

/// Some entry claims the identifier and is marked for re-fetching.
pub open spec fn sc_has_outdated(entries: Seq<(u32, SteamCacheEntry)>, id: u32) -> bool {
    exists|j: int|
        0 <= j < entries.len() && (#[trigger] entries[j]).0 == id && entries[j].1.state
            == State::Outdated
}

impl SteamCache {
    /// Product identifiers are pairwise distinct.
    pub open spec fn wf(&self) -> bool {
        forall|i: int, j: int|
            0 <= i < j < self.entries@.len() ==> (#[trigger] self.entries@[i]).0 != (
            #[trigger] self.entries@[j]).0
    }

    pub fn new() -> (r: Self)
        ensures
            r.wf(),
            r.entries@.len() == 0,
    {
        SteamCache { entries: Vec::new() }
    }

    /// Position of the entry claiming an identifier, if any.
    pub fn find_id(&self, id: u32) -> (r: Option<usize>)
        ensures
            match r {
                Some(j) => j < self.entries@.len() && self.entries@[j as int].0 == id,
                None => forall|j: int|
                    0 <= j < self.entries@.len() ==> (#[trigger] self.entries@[j]).0 != id,
            },
    {
        let n = self.entries.len();
        for j in 0..n
            invariant
                n == self.entries@.len(),
                forall|k: int| 0 <= k < j ==> (#[trigger] self.entries@[k]).0 != id,
        {
            if self.entries[j].0 == id {
                return Some(j);
            }
        }
        None
    }

    /// Borrow the record at a storage position.
    pub fn entry_at_pos(&self, j: usize) -> (r: &SteamCacheEntry)
        requires
            j < self.entries@.len(),
        ensures
            *r == self.entries@[j as int].1,
    {
        &self.entries[j].1
    }

    /// Store a record for an identifier, replacing any existing one.
    pub fn upsert(&mut self, id: u32, entry: SteamCacheEntry)
        requires
            old(self).wf(),
        ensures
            final(self).wf(),
            exists|j: int|
                0 <= j < final(self).entries@.len() && final(self).entries@[j] == (id, entry),
    {
        match self.find_id(id) {
            Some(j) => {
                let ghost before = self.entries@;
                let _ = self.entries.swap_remove(j);
                let ghost mid = self.entries@;
                self.entries.push((id, entry));
                proof {
                    assert(mid =~= before.update(j as int, before[before.len() - 1]).drop_last());
                    let fj = self.entries@.len() - 1;
                    assert(self.entries@[fj] == (id, entry));
                    assert forall|a: int, b: int|
                        0 <= a < b < self.entries@.len() implies (#[trigger] self.entries@[a]).0
                        != (#[trigger] self.entries@[b]).0 by {
                        if b == self.entries@.len() - 1 {
                            if a == j {
                                assert(self.entries@[a] == before[before.len() - 1]);
                            } else {
                                assert(self.entries@[a] == before[a]);
                            }
                        } else {
                        }
                    }
                }
            },
            None => {
                let ghost before = self.entries@;
                self.entries.push((id, entry));
                proof {
                    assert(self.entries@[self.entries@.len() - 1] == (id, entry));
                }
            },
        }
    }

    /// Mark the entry claiming `id` as needing a re-fetch, creating a stub if
    /// none exists; all other records keep their data.
    fn mark_outdated(&mut self, id: u32)
        requires
            old(self).wf(),
        ensures
            final(self).wf(),
            sc_has_outdated(final(self).entries@, id),
            forall|id2: u32|
                #[trigger] sc_has_outdated(old(self).entries@, id2) ==> sc_has_outdated(
                    final(self).entries@,
                    id2,
                ),
    {
        match self.find_id(id) {
            Some(j) => {
                let ghost before = self.entries@;
                let (_, mut entry) = self.entries.swap_remove(j);
                entry.state = State::Outdated;
                let ghost mid = self.entries@;
                self.entries.push((id, entry));
                proof {
                    assert(mid =~= before.update(j as int, before[before.len() - 1]).drop_last());
                    let fj = self.entries@.len() - 1;
                    assert(self.entries@[fj].0 == id && self.entries@[fj].1.state
                        == State::Outdated);
                    assert forall|id2: u32|
                        #[trigger] sc_has_outdated(before, id2) implies sc_has_outdated(
                        self.entries@,
                        id2,
                    ) by {
                        if id2 == id {
                        } else {
                            let x = choose|x: int|
                                0 <= x < before.len() && (#[trigger] before[x]).0 == id2
                                    && before[x].1.state == State::Outdated;
                            assert(before[j as int].0 == id);
                            if x == before.len() - 1 {
                                assert(x != j);
                                assert(mid[j as int] == before[x]);
                                assert(self.entries@[j as int] == before[x]);
                                assert(sc_has_outdated(self.entries@, id2));
                            } else {
                                assert(x != j);
                                assert(mid[x] == before[x]);
                                assert(self.entries@[x] == before[x]);
                                assert(sc_has_outdated(self.entries@, id2));
                            }
                        }
                    }
                    assert forall|a: int, b: int|
                        0 <= a < b < self.entries@.len() implies (#[trigger] self.entries@[a]).0
                        != (#[trigger] self.entries@[b]).0 by {
                        if b == self.entries@.len() - 1 {
                            if a == j {
                                assert(self.entries@[a] == before[before.len() - 1]);
                            } else {
                                assert(self.entries@[a] == before[a]);
                            }
                        } else {
                        }
                    }
                }
            },
            None => {
                let mut entry = SteamCacheEntry::new();
                entry.state = State::Outdated;
                let ghost before = self.entries@;
                self.entries.push((id, entry));
                proof {
                    assert(self.entries@[self.entries@.len() - 1].0 == id && self.entries@[self.entries@.len()
                        - 1].1.state == State::Outdated);
                    assert forall|id2: u32|
                        #[trigger] sc_has_outdated(before, id2) implies sc_has_outdated(
                        self.entries@,
                        id2,
                    ) by {
                        let x = choose|x: int|
                            0 <= x < before.len() && (#[trigger] before[x]).0 == id2
                                && before[x].1.state == State::Outdated;
                        assert(self.entries@[x] == before[x]);
                    }
                }
            },
        }
    }

    /// The state bridge: every wiki entry that was freshly fetched and carries
    /// a primary storefront identifier marks that product as needing a
    /// re-fetch, and the wiki entry itself is demoted to fully processed.
    /// Wiki entries in any other state change nothing on either side.
    pub fn transition_states_from(&mut self, wiki_cache: &mut crate::wiki::WikiCache)
        requires
            old(self).wf(),
            old(wiki_cache).wf(),
        ensures
            final(self).wf(),
            final(wiki_cache).wf(),
            final(wiki_cache).0.entries().len() == old(wiki_cache).0.entries().len(),
            forall|i: int|
                0 <= i < old(wiki_cache).0.entries().len() ==> (#[trigger] final(wiki_cache).0.entries()[i]).0@ == old(wiki_cache).0.entries()[i].0@,
            forall|i: int|
                0 <= i < old(wiki_cache).0.entries().len() ==> (#[trigger] final(wiki_cache).0.entries()[i]).1.model() == (WikiEntryV {
                    state: if old(wiki_cache).0.entries()[i].1.state == State::Updated {
                        State::Handled
                    } else {
                        old(wiki_cache).0.entries()[i].1.state
                    },
                    ..old(wiki_cache).0.entries()[i].1.model()
                }),
            forall|i: int|
                0 <= i < old(wiki_cache).0.entries().len() && (#[trigger] old(wiki_cache).0.entries()[i]).1.state == State::Updated && old(wiki_cache).0.entries()[i].1.steam is Some ==> sc_has_outdated(
                    final(self).entries@,
                    old(wiki_cache).0.entries()[i].1.steam->Some_0,
                ),
            (forall|i: int|
                0 <= i < old(wiki_cache).0.entries().len() ==> (#[trigger] old(wiki_cache).0.entries()[i]).1.state != State::Updated) ==> final(self).entries@ == old(self).entries@,
    {
        let n = wiki_cache.0.len();
        for i in 0..n
            invariant
                n == wiki_cache.0.entries().len(),
                n == old(wiki_cache).0.entries().len(),
                self.wf(),
                wiki_cache.wf(),
                forall|j: int|
                    0 <= j < n ==> (#[trigger] wiki_cache.0.entries()[j]).0@ == old(wiki_cache).0.entries()[j].0@,
                forall|j: int|
                    i <= j < n ==> (#[trigger] wiki_cache.0.entries()[j]).1 == old(wiki_cache).0.entries()[j].1,
                forall|j: int|
                    0 <= j < i ==> (#[trigger] wiki_cache.0.entries()[j]).1.model() == (WikiEntryV {
                        state: if old(wiki_cache).0.entries()[j].1.state == State::Updated {
                            State::Handled
                        } else {
                            old(wiki_cache).0.entries()[j].1.state
                        },
                        ..old(wiki_cache).0.entries()[j].1.model()
                    }),
                forall|j: int|
                    0 <= j < i && (#[trigger] old(wiki_cache).0.entries()[j]).1.state
                        == State::Updated && old(wiki_cache).0.entries()[j].1.steam is Some
                        ==> sc_has_outdated(
                        self.entries@,
                        old(wiki_cache).0.entries()[j].1.steam->Some_0,
                    ),
                (forall|j: int|
                    0 <= j < i ==> (#[trigger] old(wiki_cache).0.entries()[j]).1.state
                        != State::Updated) ==> self.entries@ == old(self).entries@,
        {
            let (_, entry) = wiki_cache.0.entry_at(i);
            let is_updated = matches!(entry.state, State::Updated);
            if is_updated {
                let steam_id = entry.steam;
                if let Some(id) = steam_id {
                    let ghost pre = self.entries@;
                    self.mark_outdated(id);
                    proof {
                        assert forall|j: int|
                            0 <= j < i && (#[trigger] old(wiki_cache).0.entries()[j]).1.state
                                == State::Updated && old(wiki_cache).0.entries()[j].1.steam is Some implies sc_has_outdated(
                            self.entries@,
                            old(wiki_cache).0.entries()[j].1.steam->Some_0,
                        ) by {
                            let id2 = old(wiki_cache).0.entries()[j].1.steam->Some_0;
                            if id2 != id {
                                assert(sc_has_outdated(pre, id2));
                            }
                        }
                    }
                }
                let mut updated = entry.duplicate();
                updated.state = State::Handled;
                wiki_cache.0.set_value_at(i, updated);
            }
        }
    }
}

} // verus!
