//! The lifecycle manager: install / uninstall / enable / disable as state
//! transitions over the in-memory ledger.
//!
//! Every decision is made here, as a pure function of the ledger and of
//! facts the caller observed on disk (does the mod's directory exist, what
//! does a statefile hold, is the disable marker present). The caller
//! performs the filesystem effect first and only then commits the
//! transition, so the persisted ledger never claims an effect that did not
//! happen; each committing transition hands back the full new ledger file
//! text to write.

use vstd::prelude::*;
use vstd::string::*;

use crate::game::{GameView, LoveGame};
use crate::ledger::{
    entries_map, find_key, lemma_entries_map_contains, lemma_entries_map_get, lemma_find_key,
    parse_state_chars, serialize_entries, set_enabled, unique_keys, EntryView, InstalledLedger,
    ParseError,
};
use crate::text::is_ascii_char;

verus! {

/// Mathematical model of a [`ModInfo`].
pub ghost struct ModInfoView {
    pub id: Seq<char>,
    pub title: Seq<char>,
    pub version: Seq<char>,
    pub download_url: Seq<char>,
    pub folder_name: Option<Seq<char>>,
}

/// What the manager needs to know about one mod offered by the index: its
/// identifier, title, current version, where its archive is downloaded
/// from, and an optional explicit directory name.
#[derive(Debug, Clone)]
pub struct ModInfo {
    pub id: String,
    pub title: String,
    pub version: String,
    pub download_url: String,
    pub folder_name: Option<String>,
}

impl View for ModInfo {
    type V = ModInfoView;

    open spec fn view(&self) -> ModInfoView {
        ModInfoView {
            id: self.id@,
            title: self.title@,
            version: self.version@,
            download_url: self.download_url@,
            folder_name: self.folder_name.deep_view(),
        }
    }
}

impl DeepView for ModInfo {
    type V = ModInfoView;

    open spec fn deep_view(&self) -> ModInfoView {
        self@
    }
}

/// Mathematical model of a [`ScanEntry`].
pub ghost struct ScanView {
    pub statefile: Option<Seq<char>>,
    pub disable_marker: bool,
}

/// What the caller observed in one immediate subdirectory of the mods
/// directory: the text of its statefile if it has one, and whether the
/// disable marker file is present.
#[derive(Debug, Clone)]
pub struct ScanEntry {
    pub statefile: Option<String>,
    pub disable_marker: bool,
}

impl View for ScanEntry {
    type V = ScanView;

    open spec fn view(&self) -> ScanView {
        ScanView { statefile: self.statefile.deep_view(), disable_marker: self.disable_marker }
    }
}

impl DeepView for ScanEntry {
    type V = ScanView;

    open spec fn deep_view(&self) -> ScanView {
        self@
    }
}

/// A transition's precondition failed.
#[derive(Debug, Clone, Copy, PartialEq, Eq)]
pub enum LifecycleError {
    /// The mod is not recorded in the ledger.
    NotInstalled,
    /// The mod is already installed and reinstalling was not asked for.
    AlreadyInstalled,
}

impl LifecycleError {
    /// A human-readable, string-identifiable description, so callers can
    /// special-case idempotent retry and uninstall-if-present patterns.
    pub fn message(&self) -> (r: &'static str)
        ensures
            self is NotInstalled ==> r@ == "mod not installed"@,
            self is AlreadyInstalled ==> r@ == "mod is already installed"@,
    {
        match self {
            LifecycleError::NotInstalled => "mod not installed",
            LifecycleError::AlreadyInstalled => "mod is already installed",
        }
    }
}

/// What uninstalling asks of the caller.
#[derive(Debug, Clone, Copy, PartialEq, Eq)]
pub enum UninstallAction {
    /// The backing directory is already absent: already-clean success,
    /// nothing to do and nothing to persist.
    AlreadyClean,
    /// Remove the directory recursively, then commit.
    RemoveDir,
}

/// The characters of `s` with every non-ASCII character dropped.
pub open spec fn ascii_filter(s: Seq<char>) -> Seq<char>
    decreases s.len(),
{
    if s.len() == 0 {
        Seq::empty()
    } else {
        let r = ascii_filter(s.drop_last());
        if is_ascii_char(s.last()) {
            r.push(s.last())
        } else {
            r
        }
    }
}

/// The directory name a mod installs under: its explicit folder name if it
/// has one, else its title with non-ASCII characters stripped.
pub open spec fn basename_spec(folder_name: Option<Seq<char>>, title: Seq<char>) -> Seq<char> {
    match folder_name {
        Some(f) => f,
        None => ascii_filter(title),
    }
}

/// The characters of `s` with every non-ASCII character dropped.
fn ascii_filter_exec(s: &str) -> (r: String)
    ensures
        r@ == ascii_filter(s@),
{
    let n = s.unicode_len();
    let mut out = String::new();
    let mut i: usize = 0;
    proof {
        assert(out@ =~= ascii_filter(s@.take(0)));
    }
    while i < n
        invariant
            n == s@.len(),
            0 <= i <= n,
            out@ == ascii_filter(s@.take(i as int)),
        decreases n - i,
    {
        let c = s.get_char(i);
        if (c as u32) < 128 {
            crate::text::push_char(&mut out, c);
        }
        proof {
            assert(s@.take(i + 1).drop_last() =~= s@.take(i as int));
            assert(s@.take(i + 1).last() == s@[i as int]);
        }
        i = i + 1;
    }
    proof {
        assert(s@.take(n as int) =~= s@);
    }
    out
}

/// The directory a mod lives in: `<mods_dir>/<basename>`.
pub fn get_mod_path(mods_dir: &str, info: &ModInfo) -> (r: String)
    ensures
        r@ == mods_dir@ + "/"@ + basename_spec(info@.folder_name, info@.title),
{
    let basename = match &info.folder_name {
        Some(f) => f.clone(),
        None => ascii_filter_exec(info.title.as_str()),
    };
    let mut out = String::from_str(mods_dir);
    out.append("/");
    out.append(basename.as_str());
    out
}

/// The path of the persisted ledger file under the mods directory.
pub fn expectfile_path(mods_dir: &str) -> (r: String)
    ensures
        r@ == mods_dir@ + "/.lovely_mod_manager"@,
{
    let mut out = String::from_str(mods_dir);
    out.append("/.lovely_mod_manager");
    out
}

/// The path of the statefile inside a mod's directory.
pub fn statefile_path(mod_dir: &str) -> (r: String)
    ensures
        r@ == mod_dir@ + "/.lovely_mod_manager"@,
{
    let mut out = String::from_str(mod_dir);
    out.append("/.lovely_mod_manager");
    out
}

/// The path of the disable marker inside a mod's directory: the empty
/// sentinel file the downstream loader reads as "skip this mod".
pub fn disable_marker_path(mod_dir: &str) -> (r: String)
    ensures
        r@ == mod_dir@ + "/.lovelyignore"@,
{
    let mut out = String::from_str(mod_dir);
    out.append("/.lovelyignore");
    out
}

/// The ledger a loaded (possibly absent) persisted file denotes: a missing
/// file is an empty ledger, a first run rather than an error.
pub open spec fn loaded_map(contents: Option<Seq<char>>) -> Map<Seq<char>, (bool, Seq<char>)> {
    match contents {
        None => Map::empty(),
        Some(s) => crate::ledger::load_expectfile_chars(s),
    }
}

/// How many lines a loaded (possibly absent) file has skipped with a
/// warning.
pub open spec fn loaded_skipped(contents: Option<Seq<char>>) -> int {
    match contents {
        None => 0,
        Some(s) => crate::ledger::count_skipped(crate::text::split_lines(s)),
    }
}

/// What one scanned subdirectory contributes to reconciliation: no
/// statefile means not a managed mod (skipped); a valid statefile records
/// the mod, enabled exactly when the disable marker is absent; a malformed
/// statefile is a hard parse error.
pub open spec fn detect_step(
    m: Map<Seq<char>, (bool, Seq<char>)>,
    e: ScanView,
) -> Result<Map<Seq<char>, (bool, Seq<char>)>, ParseError> {
    match e.statefile {
        None => Ok(m),
        Some(c) => match parse_state_chars(c) {
            Ok(sv) => Ok(m.insert(sv.0, (!e.disable_marker, sv.1))),
            Err(p) => Err(p),
        },
    }
}

/// DRIFT RECONCILIATION LAW: a scanned subdirectory holding the statefile
/// written for `(id, version)` is reported as that installed mod, enabled
/// exactly when its disable marker is absent — whatever any ledger holds,
/// since reconciliation never reads one.
pub proof fn lemma_reconcile_reports_disk(
    m: Map<Seq<char>, (bool, Seq<char>)>,
    e: ScanView,
    id: Seq<char>,
    version: Seq<char>,
)
    requires
        crate::ledger::valid_token(id),
        crate::ledger::valid_token(version),
        e.statefile == Some(crate::ledger::state_line(id, version)),
    ensures
        detect_step(m, e) == Ok::<_, ParseError>(m.insert(id, (!e.disable_marker, version))),
{
    crate::ledger::lemma_state_round_trip(id, version);
}

/// The ledger a full scan of the mods directory denotes, derived from the
/// statefiles and disable markers alone — never from the persisted ledger.
pub open spec fn detect_map(
    scan: Seq<ScanView>,
    m: Map<Seq<char>, (bool, Seq<char>)>,
) -> Result<Map<Seq<char>, (bool, Seq<char>)>, ParseError>
    decreases scan.len(),
{
    if scan.len() == 0 {
        Ok(m)
    } else {
        match detect_step(m, scan[0]) {
            Ok(m2) => detect_map(scan.drop_first(), m2),
            Err(p) => Err(p),
        }
    }
}

/// Build the reconciled ledger from a scan of the mods directory.
/// The enabled flag of each detected mod comes solely from its disable
/// marker; one malformed statefile fails the whole call.
pub fn detect_installed_mods(scan: &Vec<ScanEntry>) -> (r: Result<InstalledLedger, ParseError>)
    ensures
        match r {
            Ok(led) => {
                &&& led.wf()
                &&& detect_map(scan.deep_view(), Map::empty()) == Ok::<_, ParseError>(led.as_map())
            },
            Err(p) => detect_map(scan.deep_view(), Map::empty()) == Err::<
                Map<Seq<char>, (bool, Seq<char>)>,
                _,
            >(p),
        },
{
    let ghost sv = scan.deep_view();
    let mut led = InstalledLedger::new();
    let n = scan.len();
    let mut i: usize = 0;
    proof {
        assert(sv.skip(0) =~= sv);
        assert(led.as_map() =~= Map::<Seq<char>, (bool, Seq<char>)>::empty());
    }
    while i < n
        invariant
            n == scan.len(),
            scan.deep_view() == sv,
            0 <= i <= n,
            led.wf(),
            detect_map(sv.skip(i as int), led.as_map()) == detect_map(sv, Map::empty()),
        decreases n - i,
    {
        let ghost m0 = led.as_map();
        proof {
            assert(sv.skip(i as int)[0] == sv[i as int]);
            assert(sv.skip(i as int).drop_first() =~= sv.skip(i + 1));
            assert(scan@[i as int]@ == sv[i as int]);
        }
        match &scan[i].statefile {
            None => {},
            Some(contents) => {
                match crate::ledger::parse_state(contents.as_str()) {
                    Ok((id, version)) => {
                        led.insert(id, !scan[i].disable_marker, version);
                    },
                    Err(p) => {
                        return Err(p);
                    },
                }
            },
        }
        proof {
            assert(detect_step(m0, sv[i as int]) == Ok::<_, ParseError>(led.as_map()));
        }
        i = i + 1;
    }
    proof {
        assert(sv.skip(n as int) =~= Seq::<ScanView>::empty());
    }
    Ok(led)
}

/// Mathematical model of a [`ModManager`].
pub ghost struct ManagerView {
    pub game: GameView,
    pub index: Seq<ModInfoView>,
    pub installed: Seq<EntryView>,
    pub mods_dir: Seq<char>,
}

/// The game's context is untouched: a transition changes only the ledger.
pub open spec fn same_context(a: ManagerView, b: ManagerView) -> bool {
    a.game == b.game && a.index == b.index && a.mods_dir == b.mods_dir
}

/// The lifecycle manager: an owned copy of the mod index, the game being
/// managed, the in-memory ledger, and the resolved mods directory (computed
/// once, immutable until the game is replaced).
#[derive(Debug, Clone)]
pub struct ModManager {
    /// The game being managed. Replace it only through
    /// [`ModManager::replace_game`], which recomputes the resolved
    /// directory and reloads the ledger along with it.
    pub game: LoveGame,
    /// An owned copy of the mod index this manager serves from.
    pub index: Vec<ModInfo>,
    installed_mods: InstalledLedger,
    mods_dir: String,
}

impl View for ModManager {
    type V = ManagerView;

    closed spec fn view(&self) -> ManagerView {
        ManagerView {
            game: self.game@,
            index: self.index.deep_view(),
            installed: self.installed_mods@,
            mods_dir: self.mods_dir@,
        }
    }
}

impl ModManager {
    /// The ledger's identifiers are pairwise distinct; established by the
    /// constructor and preserved by every transition.
    pub open spec fn wf(&self) -> bool {
        unique_keys(self@.installed)
    }

    /// The map the manager's ledger denotes.
    pub open spec fn as_map(&self) -> Map<Seq<char>, (bool, Seq<char>)> {
        entries_map(self@.installed)
    }

    /// A manager over a resolved mods directory, with the ledger loaded
    /// from the persisted file's text (`None`: no file yet, empty ledger).
    /// Returns the manager and how many malformed lines were skipped.
    pub fn new(index: Vec<ModInfo>, game: LoveGame, mods_dir: String, expectfile: Option<&str>)
        -> (r: (Self, usize))
        ensures
            r.0.wf(),
            r.0@.game == game@,
            r.0@.index == index.deep_view(),
            r.0@.mods_dir == mods_dir@,
            r.0.as_map() == loaded_map(expectfile.deep_view()),
            r.1 as int == loaded_skipped(expectfile.deep_view()),
    {
        let (installed_mods, skipped) = Self::load_ledger(expectfile);
        (ModManager { game, index, installed_mods, mods_dir }, skipped)
    }

    fn load_ledger(expectfile: Option<&str>) -> (r: (InstalledLedger, usize))
        ensures
            r.0.wf(),
            r.0.as_map() == loaded_map(expectfile.deep_view()),
            r.1 as int == loaded_skipped(expectfile.deep_view()),
    {
        match expectfile {
            None => {
                let led = InstalledLedger::new();
                proof {
                    assert(led.as_map() =~= Map::<Seq<char>, (bool, Seq<char>)>::empty());
                }
                (led, 0)
            },
            Some(contents) => crate::ledger::read_expectfile(contents),
        }
    }

    /// Point the manager at another game: a fresh resolved directory and a
    /// ledger reloaded from that directory's persisted file. The index is
    /// kept.
    pub fn replace_game(&mut self, game: LoveGame, mods_dir: String, expectfile: Option<&str>)
        -> (r: usize)
        ensures
            final(self).wf(),
            final(self)@.game == game@,
            final(self)@.index == old(self)@.index,
            final(self)@.mods_dir == mods_dir@,
            final(self).as_map() == loaded_map(expectfile.deep_view()),
            r as int == loaded_skipped(expectfile.deep_view()),
    {
        let (installed_mods, skipped) = Self::load_ledger(expectfile);
        self.game = game;
        self.mods_dir = mods_dir;
        self.installed_mods = installed_mods;
        skipped
    }

    /// The resolved mods directory.
    pub fn mods_dir(&self) -> (r: &String)
        ensures
            r@ == self@.mods_dir,
    {
        &self.mods_dir
    }

    /// The in-memory ledger.
    pub fn installed_mods(&self) -> (r: &InstalledLedger)
        ensures
            r@ == self@.installed,
    {
        &self.installed_mods
    }

    /// Replace the in-memory ledger with the persisted file's text
    /// (`None`: file absent, empty ledger). Returns the number of malformed
    /// lines skipped.
    pub fn load_expectfile(&mut self, expectfile: Option<&str>) -> (r: usize)
        ensures
            final(self).wf(),
            same_context(final(self)@, old(self)@),
            final(self).as_map() == loaded_map(expectfile.deep_view()),
            r as int == loaded_skipped(expectfile.deep_view()),
    {
        let (installed_mods, skipped) = Self::load_ledger(expectfile);
        self.installed_mods = installed_mods;
        skipped
    }

    /// The full text the persisted ledger file must hold for the current
    /// ledger.
    pub fn write_expectfile(&self) -> (r: String)
        ensures
            r@ == serialize_entries(self@.installed),
    {
        self.installed_mods.serialize()
    }

    /// Rebuild the ledger from a scan of the mods directory (drift
    /// reconciliation): each managed subdirectory is recorded with its
    /// statefile's identifier and version, enabled exactly when its disable
    /// marker is absent — the previous ledger plays no part. Returns the
    /// text to persist; a malformed statefile fails the call and leaves the
    /// manager unchanged.
    pub fn rebuild_expectfile(&mut self, scan: &Vec<ScanEntry>) -> (r: Result<String, ParseError>)
        ensures
            same_context(final(self)@, old(self)@),
            match r {
                Ok(contents) => {
                    &&& final(self).wf()
                    &&& detect_map(scan.deep_view(), Map::empty()) == Ok::<_, ParseError>(
                        final(self).as_map(),
                    )
                    &&& contents@ == serialize_entries(final(self)@.installed)
                },
                Err(p) => {
                    &&& detect_map(scan.deep_view(), Map::empty()) == Err::<
                        Map<Seq<char>, (bool, Seq<char>)>,
                        _,
                    >(p)
                    &&& final(self)@ == old(self)@
                },
            },
    {
        match detect_installed_mods(scan) {
            Ok(led) => {
                self.installed_mods = led;
                Ok(self.installed_mods.serialize())
            },
            Err(p) => Err(p),
        }
    }

    /// Decide an uninstall. The mod must be in the ledger; with its
    /// directory already gone this is an already-clean success that mutates
    /// nothing, else the caller removes the directory and then commits.
    pub fn uninstall_mod(&self, id: &str, dir_exists: bool) -> (r: Result<
        UninstallAction,
        LifecycleError,
    >)
        requires
            self.wf(),
        ensures
            r == if !self.as_map().contains_key(id@) {
                Err::<UninstallAction, LifecycleError>(LifecycleError::NotInstalled)
            } else if !dir_exists {
                Ok::<UninstallAction, LifecycleError>(UninstallAction::AlreadyClean)
            } else {
                Ok::<UninstallAction, LifecycleError>(UninstallAction::RemoveDir)
            },
    {
        if !self.installed_mods.contains(id) {
            Err(LifecycleError::NotInstalled)
        } else if !dir_exists {
            Ok(UninstallAction::AlreadyClean)
        } else {
            Ok(UninstallAction::RemoveDir)
        }
    }

    /// Commit an uninstall after the directory was removed: the mod leaves
    /// the ledger; the returned text is what must be persisted.
    pub fn uninstall_commit(&mut self, id: &str) -> (r: Result<String, LifecycleError>)
        requires
            old(self).wf(),
        ensures
            final(self).wf(),
            same_context(final(self)@, old(self)@),
            match r {
                Ok(contents) => {
                    &&& old(self).as_map().contains_key(id@)
                    &&& final(self).as_map() == old(self).as_map().remove(id@)
                    &&& final(self)@.installed == old(self)@.installed.remove(
                        find_key(old(self)@.installed, id@),
                    )
                    &&& contents@ == serialize_entries(final(self)@.installed)
                },
                Err(e) => {
                    &&& e == LifecycleError::NotInstalled
                    &&& !old(self).as_map().contains_key(id@)
                    &&& final(self)@ == old(self)@
                },
            },
    {
        proof {
            lemma_find_key(self@.installed, id@);
            lemma_entries_map_contains(self@.installed, id@);
        }
        if self.installed_mods.remove(id) {
            Ok(self.installed_mods.serialize())
        } else {
            Err(LifecycleError::NotInstalled)
        }
    }

    /// Gate an install. Already-installed (in the ledger or on disk) fails
    /// unless `reinstall`; on success the result says whether the existing
    /// directory must be removed before extraction.
    pub fn install_mod(&self, id: &str, dir_exists: bool, reinstall: bool) -> (r: Result<
        bool,
        LifecycleError,
    >)
        requires
            self.wf(),
        ensures
            r == if !reinstall && (self.as_map().contains_key(id@) || dir_exists) {
                Err::<bool, LifecycleError>(LifecycleError::AlreadyInstalled)
            } else {
                Ok::<bool, LifecycleError>(dir_exists)
            },
    {
        if !reinstall && (self.installed_mods.contains(id) || dir_exists) {
            Err(LifecycleError::AlreadyInstalled)
        } else {
            Ok(dir_exists)
        }
    }

    /// Gate a reinstall: always allowed; the result says whether the
    /// existing directory must be removed before extraction.
    pub fn reinstall_mod(&self, id: &str, dir_exists: bool) -> (r: Result<bool, LifecycleError>)
        requires
            self.wf(),
        ensures
            r == Ok::<bool, LifecycleError>(dir_exists),
    {
        self.install_mod(id, dir_exists, true)
    }

    /// Commit an install after extraction fully succeeded and the statefile
    /// was written: the mod is recorded enabled at `version`; the returned
    /// text is what must be persisted. This is the only transition that
    /// adds a mod, and the caller reaches it only after the filesystem
    /// holds the fully extracted directory.
    pub fn install_commit(&mut self, id: &str, version: &str) -> (r: String)
        requires
            old(self).wf(),
        ensures
            final(self).wf(),
            same_context(final(self)@, old(self)@),
            final(self).as_map() == old(self).as_map().insert(id@, (true, version@)),
            r@ == serialize_entries(final(self)@.installed),
    {
        self.installed_mods.insert(String::from_str(id), true, String::from_str(version));
        self.installed_mods.serialize()
    }

    /// Disable a mod: its ledger entry keeps its version and loses its
    /// flag; the caller has already created the disable marker (creating it
    /// again is a no-op). Fails, mutating nothing, if the mod is not in the
    /// ledger.
    pub fn disable_mod(&mut self, id: &str) -> (r: Result<String, LifecycleError>)
        requires
            old(self).wf(),
        ensures
            final(self).wf(),
            same_context(final(self)@, old(self)@),
            match r {
                Ok(contents) => {
                    &&& old(self).as_map().contains_key(id@)
                    &&& final(self)@.installed == set_enabled(old(self)@.installed, id@, false)
                    &&& final(self).as_map() == old(self).as_map().insert(
                        id@,
                        (false, old(self).as_map()[id@].1),
                    )
                    &&& contents@ == serialize_entries(final(self)@.installed)
                },
                Err(e) => {
                    &&& e == LifecycleError::NotInstalled
                    &&& !old(self).as_map().contains_key(id@)
                    &&& final(self)@ == old(self)@
                },
            },
    {
        self.set_enabled_exec(id, false)
    }

    /// Enable a mod: its ledger entry keeps its version and gains the flag;
    /// the caller has already removed the disable marker (absent: no-op).
    /// Fails, mutating nothing, if the mod is not in the ledger.
    pub fn enable_mod(&mut self, id: &str) -> (r: Result<String, LifecycleError>)
        requires
            old(self).wf(),
        ensures
            final(self).wf(),
            same_context(final(self)@, old(self)@),
            match r {
                Ok(contents) => {
                    &&& old(self).as_map().contains_key(id@)
                    &&& final(self)@.installed == set_enabled(old(self)@.installed, id@, true)
                    &&& final(self).as_map() == old(self).as_map().insert(
                        id@,
                        (true, old(self).as_map()[id@].1),
                    )
                    &&& contents@ == serialize_entries(final(self)@.installed)
                },
                Err(e) => {
                    &&& e == LifecycleError::NotInstalled
                    &&& !old(self).as_map().contains_key(id@)
                    &&& final(self)@ == old(self)@
                },
            },
    {
        self.set_enabled_exec(id, true)
    }

    fn set_enabled_exec(&mut self, id: &str, enabled: bool) -> (r: Result<String, LifecycleError>)
        requires
            old(self).wf(),
        ensures
            final(self).wf(),
            same_context(final(self)@, old(self)@),
            match r {
                Ok(contents) => {
                    &&& old(self).as_map().contains_key(id@)
                    &&& final(self)@.installed == set_enabled(old(self)@.installed, id@, enabled)
                    &&& final(self).as_map() == old(self).as_map().insert(
                        id@,
                        (enabled, old(self).as_map()[id@].1),
                    )
                    &&& contents@ == serialize_entries(final(self)@.installed)
                },
                Err(e) => {
                    &&& e == LifecycleError::NotInstalled
                    &&& !old(self).as_map().contains_key(id@)
                    &&& final(self)@ == old(self)@
                },
            },
    {
        let version = match self.installed_mods.get(id) {
            None => {
                return Err(LifecycleError::NotInstalled);
            },
            Some(e) => e.version.clone(),
        };
        proof {
            let s = self@.installed;
            lemma_find_key(s, id@);
            lemma_entries_map_contains(s, id@);
            let k = find_key(s, id@);
            if k == -1 {
                assert(!entries_map(s).contains_key(id@));
                assert(false);
            }
            lemma_entries_map_get(s, k);
            assert(s[k].id == id@);
            assert(version@ == s[k].version);
        }
        self.installed_mods.insert(String::from_str(id), enabled, version);
        Ok(self.installed_mods.serialize())
    }
}

} // verus!
