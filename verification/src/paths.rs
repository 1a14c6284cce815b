//! The environment resolver: computes where a game's mods directory lives.
//!
//! Resolution is a pure function of its inputs — an optional override
//! directory, the platform's configuration and home directories, and the
//! [`LoveGame`](crate::game::LoveGame) being resolved — and returns a
//! [`ModsDirPlan`] naming the directories involved. The caller creates the
//! directories and maintains the compatibility-layer symbolic link as the
//! plan and [`reconcile_native_link`] direct.

use vstd::prelude::*;
use vstd::string::*;

use crate::game::{balatro_steamid, LoveGame};
use crate::text::{chars_eq, substr};

verus! {

/// Does path `p` end with the path `s`, component-wise: is `p` equal to
/// `s`, or does it continue with `/` followed by `s`?
pub open spec fn path_has_suffix(p: Seq<char>, s: Seq<char>) -> bool {
    p == s || (p.len() > s.len() && p[p.len() - s.len() - 1] == '/' && p.subrange(
        p.len() - s.len(),
        p.len() as int,
    ) == s)
}

/// Component-wise path suffix test.
pub fn path_has_suffix_exec(p: &str, s: &str) -> (r: bool)
    ensures
        r == path_has_suffix(p@, s@),
{
    let pn = p.unicode_len();
    let sn = s.unicode_len();
    if pn == sn {
        chars_eq(p, s)
    } else if pn > sn {
        if p.get_char(pn - sn - 1) == '/' {
            let tail = substr(p, pn - sn, pn);
            let r = chars_eq(tail.as_str(), s);
            proof {
                if p@ == s@ {
                    assert(p@.len() == s@.len());
                }
            }
            r
        } else {
            false
        }
    } else {
        false
    }
}

/// Why a mods directory could not be resolved.
#[derive(Debug, Clone, Copy, PartialEq, Eq)]
pub enum ResolveError {
    /// The platform's user configuration directory could not be determined.
    NoConfigDir,
    /// The user's home directory could not be determined, and no install
    /// path pointed at the compatibility-layer root.
    NoHomeDir,
    /// The game needs a compatibility-layer id, carries none, and is not
    /// the game with a well-known default id.
    MissingSteamId,
}

impl ResolveError {
    /// A human-readable description of the failure.
    pub fn message(&self) -> (r: &'static str)
        ensures
            self is NoConfigDir ==> r@ == "couldn't find config directory"@,
            self is NoHomeDir ==> r@ == "couldn't find home directory"@,
            self is MissingSteamId ==> r@ == "steamid not provided for game"@,
    {
        match self {
            ResolveError::NoConfigDir => "couldn't find config directory",
            ResolveError::NoHomeDir => "couldn't find home directory",
            ResolveError::MissingSteamId => "steamid not provided for game",
        }
    }
}

/// Mathematical model of a [`ModsDirPlan`].
pub ghost enum PlanView {
    OverrideDir { dir: Seq<char> },
    Native { dir: Seq<char> },
    Wine { wine_dir: Seq<char>, native_dir: Seq<char> },
}

/// Where the mods directory lives and what the caller must set up on disk.
#[derive(Debug, Clone, PartialEq, Eq)]
pub enum ModsDirPlan {
    /// An explicit override location: use it verbatim, creating it if
    /// absent; all platform logic is bypassed.
    OverrideDir { dir: String },
    /// The platform-native mods directory: create it if absent.
    Native { dir: String },
    /// A compatibility-layer mods directory: create `wine_dir` if absent,
    /// then reconcile `native_dir` as a symbolic link pointing at it (see
    /// [`reconcile_native_link`]). The resolved directory is `wine_dir`.
    Wine { wine_dir: String, native_dir: String },
}

impl View for ModsDirPlan {
    type V = PlanView;

    open spec fn view(&self) -> PlanView {
        match self {
            ModsDirPlan::OverrideDir { dir } => PlanView::OverrideDir { dir: dir@ },
            ModsDirPlan::Native { dir } => PlanView::Native { dir: dir@ },
            ModsDirPlan::Wine { wine_dir, native_dir } => PlanView::Wine {
                wine_dir: wine_dir@,
                native_dir: native_dir@,
            },
        }
    }
}

/// The directory a plan resolves to: the override or native directory, or
/// the compatibility-layer directory when redirection applies.
pub open spec fn resolved_of(p: PlanView) -> Seq<char> {
    match p {
        PlanView::OverrideDir { dir } => dir,
        PlanView::Native { dir } => dir,
        PlanView::Wine { wine_dir, .. } => wine_dir,
    }
}

impl ModsDirPlan {
    /// The directory this plan resolves to.
    pub fn resolved_dir(&self) -> (r: &String)
        ensures
            r@ == resolved_of(self@),
    {
        match self {
            ModsDirPlan::OverrideDir { dir } => dir,
            ModsDirPlan::Native { dir } => dir,
            ModsDirPlan::Wine { wine_dir, .. } => wine_dir,
        }
    }
}

/// The platform-native mods directory for a game: `<config>/<name>/Mods`.
pub open spec fn native_mods_dir_spec(config: Seq<char>, name: Seq<char>) -> Seq<char> {
    config + "/"@ + name + "/Mods"@
}

/// The path suffix that marks an install path as lying inside a Steam
/// library: `steamapps/common/<name>`.
pub open spec fn steam_suffix(name: Seq<char>) -> Seq<char> {
    "steamapps/common/"@ + name
}

/// The compatibility-layer root derived from an install path that ends in
/// `steamapps/common/<name>`: the path two directory levels up, i.e. with
/// `/common/<name>` cut off the end.
pub open spec fn wine_prefix_from_install(p: Seq<char>, name: Seq<char>) -> Seq<char> {
    p.take(p.len() - ("/common/"@.len() + name.len()))
}

/// The compatibility-layer root when no usable install path is given:
/// `<home>/.steam/steam/steamapps`.
pub open spec fn default_wine_prefix(home: Seq<char>) -> Seq<char> {
    home + "/.steam/steam/steamapps"@
}

/// The mods directory inside a compatibility-layer prefix:
/// `<root>/compatdata/<steamid>/pfx/drive_c/users/steamuser/AppData/Roaming/<name>/Mods`.
pub open spec fn wine_mods_dir_spec(prefix: Seq<char>, steamid: Seq<char>, name: Seq<char>) -> Seq<
    char,
> {
    prefix + "/compatdata/"@ + steamid + "/pfx/drive_c/users/steamuser/AppData/Roaming/"@ + name
        + "/Mods"@
}

/// The compatibility-layer root for a game: from the install path when it
/// ends in `steamapps/common/<name>`, else the default under the home
/// directory, which must then be known.
pub open spec fn wine_prefix_spec(
    game: crate::game::GameView,
    home: Option<Seq<char>>,
) -> Result<Seq<char>, ResolveError> {
    if game.path is Some && path_has_suffix(game.path->0, steam_suffix(game.name)) {
        Ok(wine_prefix_from_install(game.path->0, game.name))
    } else if home is None {
        Err(ResolveError::NoHomeDir)
    } else {
        Ok(default_wine_prefix(home->0))
    }
}

/// The compatibility-layer id for a game: its own Steam app id, or the
/// well-known default when the game is named `Balatro`.
pub open spec fn steamid_spec(game: crate::game::GameView) -> Result<Seq<char>, ResolveError> {
    if game.steamid is Some {
        Ok(game.steamid->0)
    } else if game.name == "Balatro"@ {
        Ok("2379780"@)
    } else {
        Err(ResolveError::MissingSteamId)
    }
}

/// Full resolution: what [`LoveGame::get_mods_dir`] returns, as a function
/// of the injected override, configuration and home directories.
pub open spec fn plan_spec(
    game: crate::game::GameView,
    override_dir: Option<Seq<char>>,
    config: Option<Seq<char>>,
    home: Option<Seq<char>>,
) -> Result<PlanView, ResolveError> {
    if override_dir is Some {
        Ok(PlanView::OverrideDir { dir: override_dir->0 })
    } else if config is None {
        Err(ResolveError::NoConfigDir)
    } else {
        let native = native_mods_dir_spec(config->0, game.name);
        if !game.is_wine {
            Ok(PlanView::Native { dir: native })
        } else {
            match wine_prefix_spec(game, home) {
                Err(e) => Err(e),
                Ok(prefix) => match steamid_spec(game) {
                    Err(e) => Err(e),
                    Ok(sid) => Ok(
                        PlanView::Wine {
                            wine_dir: wine_mods_dir_spec(prefix, sid, game.name),
                            native_dir: native,
                        },
                    ),
                },
            }
        }
    }
}

/// The view of a resolution result.
pub open spec fn plan_result_view(r: Result<ModsDirPlan, ResolveError>) -> Result<
    PlanView,
    ResolveError,
> {
    match r {
        Ok(p) => Ok(p@),
        Err(e) => Err(e),
    }
}

/// COMPATIBILITY PATH DERIVATION LAW: when a compatibility-layer game's
/// install path reads `<root>/common/<name>` inside a Steam library (it
/// ends, component-wise, in `steamapps/common/<name>`), resolution derives
/// the compatibility root `<root>` — the install path with its last two
/// directory levels cut off — and resolves to
/// `<root>/compatdata/<steamid>/pfx/drive_c/users/steamuser/AppData/Roaming/<name>/Mods`,
/// beside the untouched native path `<config>/<name>/Mods`.
pub proof fn lemma_compat_path_derivation(
    game: crate::game::GameView,
    config: Seq<char>,
    home: Option<Seq<char>>,
    root: Seq<char>,
)
    requires
        game.is_wine,
        game.steamid is Some,
        game.path == Some(root + "/common/"@ + game.name),
        path_has_suffix(game.path->0, steam_suffix(game.name)),
    ensures
        plan_spec(game, None, Some(config), home) == Ok::<_, ResolveError>(
            PlanView::Wine {
                wine_dir: wine_mods_dir_spec(root, game.steamid->0, game.name),
                native_dir: native_mods_dir_spec(config, game.name),
            },
        ),
{
    let p = game.path->0;
    reveal_strlit("/common/");
    assert(p.len() == root.len() + "/common/"@.len() + game.name.len());
    assert(wine_prefix_from_install(p, game.name) =~= root);
}

impl LoveGame {
    /// Resolve the mods directory for this game as a pure function of the
    /// injected inputs: an explicit override directory (used verbatim when
    /// present), the platform's user configuration directory, and the
    /// user's home directory.
    pub fn get_mods_dir(
        &self,
        override_dir: Option<String>,
        config_dir: Option<String>,
        home_dir: Option<String>,
    ) -> (r: Result<ModsDirPlan, ResolveError>)
        ensures
            plan_result_view(r) == plan_spec(
                self@,
                override_dir.deep_view(),
                config_dir.deep_view(),
                home_dir.deep_view(),
            ),
    {
        if let Some(dir) = override_dir {
            return Ok(ModsDirPlan::OverrideDir { dir });
        }
        let config = match config_dir {
            None => {
                return Err(ResolveError::NoConfigDir);
            },
            Some(c) => c,
        };
        let ghost config_chars = config@;
        let mut native = config;
        native.append("/");
        native.append(self.name().as_str());
        native.append("/Mods");
        proof {
            assert(native@ =~= native_mods_dir_spec(config_chars, self@.name));
        }
        if !self.is_wine() {
            return Ok(ModsDirPlan::Native { dir: native });
        }
        let prefix = match self.wine_prefix(home_dir) {
            Err(e) => {
                return Err(e);
            },
            Ok(p) => p,
        };
        let sid = match self.default_steamid() {
            Err(e) => {
                return Err(e);
            },
            Ok(s) => s,
        };
        let ghost prefix_chars = prefix@;
        let mut wine = prefix;
        wine.append("/compatdata/");
        wine.append(sid.as_str());
        wine.append("/pfx/drive_c/users/steamuser/AppData/Roaming/");
        wine.append(self.name().as_str());
        wine.append("/Mods");
        proof {
            assert(wine@ =~= wine_mods_dir_spec(prefix_chars, sid@, self@.name));
        }
        Ok(ModsDirPlan::Wine { wine_dir: wine, native_dir: native })
    }

    /// The compatibility-layer root for this game: derived from the install
    /// path when it ends in `steamapps/common/<name>`, else the default
    /// location under the home directory.
    fn wine_prefix(&self, home_dir: Option<String>) -> (r: Result<String, ResolveError>)
        ensures
            match r {
                Ok(p) => wine_prefix_spec(self@, home_dir.deep_view()) == Ok::<_, ResolveError>(
                    p@,
                ),
                Err(e) => wine_prefix_spec(self@, home_dir.deep_view()) == Err::<Seq<char>, _>(e),
            },
    {
        let mut suffix = String::from_str("steamapps/common/");
        suffix.append(self.name().as_str());
        proof {
            assert(suffix@ =~= steam_suffix(self@.name));
        }
        if let Some(p) = self.path() {
            if path_has_suffix_exec(p.as_str(), suffix.as_str()) {
                proof {
                    reveal_strlit("steamapps/common/");
                    reveal_strlit("/common/");
                    assert(suffix@.len() == "/common/"@.len() + 9 + self@.name.len());
                    assert(p@.len() >= suffix@.len());
                }
                let pn = p.unicode_len();
                let strip = "/common/".unicode_len() + self.name().unicode_len();
                let r = substr(p.as_str(), 0, pn - strip);
                proof {
                    assert(r@ =~= wine_prefix_from_install(p@, self@.name));
                }
                return Ok(r);
            }
        }
        match home_dir {
            None => Err(ResolveError::NoHomeDir),
            Some(h) => {
                let ghost home_chars = h@;
                let mut prefix = h;
                prefix.append("/.steam/steam/steamapps");
                proof {
                    assert(prefix@ =~= default_wine_prefix(home_chars));
                }
                Ok(prefix)
            },
        }
    }

    /// The compatibility-layer id for this game: its own Steam app id, or
    /// the well-known default when the game is named `Balatro`.
    fn default_steamid(&self) -> (r: Result<String, ResolveError>)
        ensures
            match r {
                Ok(s) => steamid_spec(self@) == Ok::<_, ResolveError>(s@),
                Err(e) => steamid_spec(self@) == Err::<Seq<char>, _>(e),
            },
    {
        match self.steamid() {
            Some(s) => Ok(s.clone()),
            None => {
                if chars_eq(self.name().as_str(), "Balatro") {
                    Ok(String::from_str(balatro_steamid()))
                } else {
                    Err(ResolveError::MissingSteamId)
                }
            },
        }
    }
}

/// What the native-looking mods path currently is on disk, as observed by
/// the caller before reconciling it with the compatibility-layer path.
#[derive(Debug, Clone, Copy, PartialEq, Eq)]
pub enum NativeDirState {
    /// The path is a symbolic link (possibly broken or stale).
    SymlinkPresent,
    /// The path exists and is a real (non-link) directory or file.
    RealEntry,
    /// Nothing exists at the path.
    Absent,
}

/// What the caller must do to the native-looking mods path so that it
/// points at the compatibility-layer mods directory.
#[derive(Debug, Clone, Copy, PartialEq, Eq)]
pub enum LinkAction {
    /// Remove the existing link and recreate it pointing at the
    /// compatibility-layer path: repairs broken or stale links idempotently.
    ReplaceLink,
    /// Leave the real directory untouched and surface a warning; it is
    /// never merged or deleted.
    LeaveAndWarn,
    /// Create the symbolic link.
    CreateLink,
}

/// Decide how the native-looking mods path is reconciled with the
/// compatibility-layer path: an existing link is replaced, a real directory
/// is left alone with a warning, an absent path receives a fresh link.
pub fn reconcile_native_link(state: NativeDirState) -> (r: LinkAction)
    ensures
        state is SymlinkPresent ==> r is ReplaceLink,
        state is RealEntry ==> r is LeaveAndWarn,
        state is Absent ==> r is CreateLink,
{
    match state {
        NativeDirState::SymlinkPresent => LinkAction::ReplaceLink,
        NativeDirState::RealEntry => LinkAction::LeaveAndWarn,
        NativeDirState::Absent => LinkAction::CreateLink,
    }
}

/// Relies on `dirs::config_dir`: the platform's user configuration
/// directory, if one can be determined. The result depends on the process
/// environment, so nothing is promised of it.
#[verifier::external_body]
fn os_config_dir() -> (r: Option<String>) {
    dirs::config_dir().map(|p| p.to_string_lossy().into_owned())
}

/// Relies on `dirs::home_dir`: the user's home directory, if one can be
/// determined. The result depends on the process environment, so nothing is
/// promised of it.
#[verifier::external_body]
fn os_home_dir() -> (r: Option<String>) {
    dirs::home_dir().map(|p| p.to_string_lossy().into_owned())
}

impl LoveGame {
    /// Resolve the mods directory against the running machine: look up the
    /// platform's configuration and home directories and resolve with them.
    /// Whatever those lookups returned, the result is exactly what
    /// [`LoveGame::get_mods_dir`] computes from them; with an override
    /// directory the environment plays no part at all.
    pub fn detect_mods_dir(&self, override_dir: Option<String>) -> (r: Result<
        ModsDirPlan,
        ResolveError,
    >)
        ensures
            exists|config: Option<Seq<char>>, home: Option<Seq<char>>|
                plan_result_view(r) == plan_spec(self@, override_dir.deep_view(), config, home),
            override_dir is Some ==> (r matches Ok(p) && p@ == (PlanView::OverrideDir {
                dir: override_dir->0@,
            })),
    {
        let config = os_config_dir();
        let home = os_home_dir();
        let ghost config_v = config.deep_view();
        let ghost home_v = home.deep_view();
        let r = self.get_mods_dir(override_dir, config, home);
        proof {
            assert(plan_result_view(r) == plan_spec(
                self@,
                override_dir.deep_view(),
                config_v,
                home_v,
            ));
        }
        r
    }
}

} // verus!
