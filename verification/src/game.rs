//! The game environment: which game mods are managed for, where it is
//! installed, and whether it runs under a Windows compatibility layer
//! (Wine/Proton) so that mod paths must be redirected into its prefix.

use vstd::prelude::*;
use vstd::string::*;

verus! {

/// Steam app id of the one game with a built-in default, used when a
/// compatibility-layer game named `Balatro` carries no explicit id.
pub fn balatro_steamid() -> (r: &'static str)
    ensures
        r@ == "2379780"@,
{
    "2379780"
}

/// Mathematical model of a [`LoveGame`].
pub ghost struct GameView {
    pub name: Seq<char>,
    pub path: Option<Seq<char>>,
    pub steamid: Option<Seq<char>>,
    pub is_wine: bool,
}

/// A game whose mods this crate manages: its display name, an optional
/// path to its install directory, an optional Steam app id, and whether it
/// runs under a Windows compatibility layer. Immutable once built; a
/// manager that switches games recomputes its paths from a fresh value.
#[derive(Debug, Clone)]
pub struct LoveGame {
    name: String,
    path: Option<String>,
    steamid: Option<String>,
    is_wine: bool,
}

impl View for LoveGame {
    type V = GameView;

    closed spec fn view(&self) -> GameView {
        GameView {
            name: self.name@,
            path: self.path.deep_view(),
            steamid: self.steamid.deep_view(),
            is_wine: self.is_wine,
        }
    }
}

impl LoveGame {
    /// The well-known default configuration: the game `Balatro`, assumed to
    /// run under the compatibility layer with its default Steam app id.
    pub fn default_balatro() -> (r: Self)
        ensures
            r@.name == "Balatro"@,
            r@.path is None,
            r@.steamid == Some("2379780"@),
            r@.is_wine,
    {
        LoveGame {
            name: String::from_str("Balatro"),
            path: None,
            steamid: Some(String::from_str(balatro_steamid())),
            is_wine: true,
        }
    }

    /// A native game of the given name: no install path, no Steam app id,
    /// no compatibility layer.
    pub fn new(name: String) -> (r: Self)
        ensures
            r@.name == name@,
            r@.path is None,
            r@.steamid is None,
            !r@.is_wine,
    {
        LoveGame { name, path: None, steamid: None, is_wine: false }
    }

    /// The same game with its install path set.
    pub fn with_path(self, path: String) -> (r: Self)
        ensures
            r@.name == self@.name,
            r@.path == Some(path@),
            r@.steamid == self@.steamid,
            r@.is_wine == self@.is_wine,
    {
        LoveGame { path: Some(path), ..self }
    }

    /// The same game with a Steam app id set; a game with a Steam app id is
    /// taken to run under the compatibility layer.
    pub fn with_steamid(self, steamid: String) -> (r: Self)
        ensures
            r@.name == self@.name,
            r@.path == self@.path,
            r@.steamid == Some(steamid@),
            r@.is_wine,
    {
        LoveGame { steamid: Some(steamid), is_wine: true, ..self }
    }

    /// The game's install path, if one was given.
    pub fn path(&self) -> (r: &Option<String>)
        ensures
            r.deep_view() == self@.path,
    {
        &self.path
    }

    /// The game's display name.
    pub fn name(&self) -> (r: &String)
        ensures
            r@ == self@.name,
    {
        &self.name
    }

    /// Whether the game runs under the Windows compatibility layer.
    pub fn is_wine(&self) -> (r: bool)
        ensures
            r == self@.is_wine,
    {
        self.is_wine
    }

    /// The game's Steam app id, if one was given.
    pub fn steamid(&self) -> (r: &Option<String>)
        ensures
            r.deep_view() == self@.steamid,
    {
        &self.steamid
    }
}

} // verus!
