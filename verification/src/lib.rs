//! Finds the games that Steam, the Epic Games launcher and the Microsoft Store have
//! installed.
//!
//! The library decides; it reads neither files nor the registry. A caller reads what
//! each module asks for and hands the texts over.

pub mod app_document;
pub mod decode;
pub mod epic_games;
pub mod json;
pub mod keyvalues;
pub mod ms_store;
pub mod number;
pub mod path;
pub mod steam;
pub mod text;

use crate::epic_games::{manifest_views, Manifest, ManifestView};
use crate::ms_store::{package_views, GamePackage, GamePackageView};
use crate::steam::{app_views, AppState, AppStateView};
use vstd::prelude::*;

verus! {

/// An installed game, as the store that installed it records it.
#[derive(Debug)]
pub enum InstalledGame {
    Steam(Box<AppState>),
    EpicGames(Box<Manifest>),
    MicrosoftStore(Box<GamePackage>),
}

/// What an [`InstalledGame`] holds, as a mathematical value.
pub enum InstalledGameView {
    Steam(AppStateView),
    EpicGames(ManifestView),
    MicrosoftStore(GamePackageView),
}

impl View for InstalledGame {
    type V = InstalledGameView;

    open spec fn view(&self) -> InstalledGameView {
        match *self {
            InstalledGame::Steam(app) => InstalledGameView::Steam(app@),
            InstalledGame::EpicGames(manifest) => InstalledGameView::EpicGames(manifest@),
            InstalledGame::MicrosoftStore(package) => InstalledGameView::MicrosoftStore(package@),
        }
    }
}

impl InstalledGame {
    /// The name of the store that a game of this kind comes from.
    pub open spec fn store_name_of(self) -> Seq<char> {
        match self {
            InstalledGame::Steam(_) => "Steam"@,
            InstalledGame::EpicGames(_) => "Epic Games"@,
            InstalledGame::MicrosoftStore(_) => "Microsoft Store"@,
        }
    }

    /// The name of the store that installed the game.
    pub fn store_name(&self) -> (r: &str)
        ensures
            r@ == self.store_name_of(),
    {
        match self {
            InstalledGame::Steam(_) => "Steam",
            InstalledGame::EpicGames(_) => "Epic Games",
            InstalledGame::MicrosoftStore(_) => "Microsoft Store",
        }
    }
}

/// The views of a list of games.
pub open spec fn game_views(games: Seq<InstalledGame>) -> Seq<InstalledGameView> {
    games.map_values(|g: InstalledGame| g@)
}

/// What a store contributes: its records, or nothing where its scan failed.
pub open spec fn contribution<T, E>(scan: Result<Vec<T>, E>) -> Seq<T> {
    match scan {
        Ok(records) => records@,
        Err(_) => Seq::<T>::empty(),
    }
}

/// The packages of the Microsoft Store as games.
pub open spec fn games_of_packages(packages: Seq<GamePackageView>) -> Seq<InstalledGameView> {
    packages.map_values(|p: GamePackageView| InstalledGameView::MicrosoftStore(p))
}

/// The apps of Steam as games.
pub open spec fn games_of_apps(apps: Seq<AppStateView>) -> Seq<InstalledGameView> {
    apps.map_values(|a: AppStateView| InstalledGameView::Steam(a))
}

/// The manifests of the Epic Games launcher as games.
pub open spec fn games_of_manifests(manifests: Seq<ManifestView>) -> Seq<InstalledGameView> {
    manifests.map_values(|m: ManifestView| InstalledGameView::EpicGames(m))
}

/// The games of all stores: the packages of the Microsoft Store, then the apps of
/// Steam, then the manifests of the Epic Games launcher, each in its own order.
pub open spec fn all_games(
    packages: Seq<GamePackageView>,
    apps: Seq<AppStateView>,
    manifests: Seq<ManifestView>,
) -> Seq<InstalledGameView> {
    games_of_packages(packages) + games_of_apps(apps) + games_of_manifests(manifests)
}

/// A store whose scan failed leaves no trace in the merged list: the list is that of
/// the other stores alone.
pub proof fn lemma_failed_store_contributes_nothing<E1, E2, E3>(
    packages: Result<Vec<GamePackage>, E1>,
    apps: Result<Vec<AppState>, E2>,
    manifests: Result<Vec<Manifest>, E3>,
)
    ensures
        ({
            let from_packages = games_of_packages(package_views(contribution(packages)));
            let from_apps = games_of_apps(app_views(contribution(apps)));
            let from_manifests = games_of_manifests(manifest_views(contribution(manifests)));
            let all = all_games(
                package_views(contribution(packages)),
                app_views(contribution(apps)),
                manifest_views(contribution(manifests)),
            );
            &&& packages is Err ==> all == from_apps + from_manifests
            &&& apps is Err ==> all == from_packages + from_manifests
            &&& manifests is Err ==> all == from_packages + from_apps
        }),
{
    let from_packages = games_of_packages(package_views(contribution(packages)));
    let from_apps = games_of_apps(app_views(contribution(apps)));
    let from_manifests = games_of_manifests(manifest_views(contribution(manifests)));
    let none = Seq::<InstalledGameView>::empty();
    if packages is Err {
        assert(from_packages =~= none);
        assert(none + from_apps =~= from_apps);
    }
    if apps is Err {
        assert(from_apps =~= none);
        assert(from_packages + none =~= from_packages);
    }
    if manifests is Err {
        assert(from_manifests =~= none);
        assert(from_packages + from_apps + none =~= from_packages + from_apps);
    }
}

/// Appends the packages of the Microsoft Store.
fn push_packages(games: &mut Vec<InstalledGame>, found: Vec<GamePackage>)
    ensures
        game_views(final(games)@) == game_views(old(games)@) + games_of_packages(
            package_views(found@),
        ),
{
    let ghost before = game_views(games@);
    let ghost added = games_of_packages(package_views(found@));
    proof {
        assert(before + added.take(0) =~= before);
    }
    for package in it: found
        invariant
            it.seq() == found@,
            added == games_of_packages(package_views(found@)),
            game_views(games@) == before + added.take(it.index() as int),
    {
        let ghost k = it.index() as int;
        let game = InstalledGame::MicrosoftStore(Box::new(package));
        proof {
            assert(added[k] == game@);
            assert(added.take(k + 1) =~= added.take(k).push(game@));
            assert(game_views(games@.push(game)) =~= game_views(games@).push(game@));
            assert(before + added.take(k).push(game@) =~= (before + added.take(k)).push(game@));
        }
        games.push(game);
    }
    proof {
        assert(added.take(found@.len() as int) =~= added);
    }
}

/// Appends the apps of Steam.
fn push_apps(games: &mut Vec<InstalledGame>, found: Vec<AppState>)
    ensures
        game_views(final(games)@) == game_views(old(games)@) + games_of_apps(app_views(found@)),
{
    let ghost before = game_views(games@);
    let ghost added = games_of_apps(app_views(found@));
    proof {
        assert(before + added.take(0) =~= before);
    }
    for app in it: found
        invariant
            it.seq() == found@,
            added == games_of_apps(app_views(found@)),
            game_views(games@) == before + added.take(it.index() as int),
    {
        let ghost k = it.index() as int;
        let game = InstalledGame::Steam(Box::new(app));
        proof {
            assert(added[k] == game@);
            assert(added.take(k + 1) =~= added.take(k).push(game@));
            assert(game_views(games@.push(game)) =~= game_views(games@).push(game@));
            assert(before + added.take(k).push(game@) =~= (before + added.take(k)).push(game@));
        }
        games.push(game);
    }
    proof {
        assert(added.take(found@.len() as int) =~= added);
    }
}

/// Appends the manifests of the Epic Games launcher.
fn push_manifests(games: &mut Vec<InstalledGame>, found: Vec<Manifest>)
    ensures
        game_views(final(games)@) == game_views(old(games)@) + games_of_manifests(
            manifest_views(found@),
        ),
{
    let ghost before = game_views(games@);
    let ghost added = games_of_manifests(manifest_views(found@));
    proof {
        assert(before + added.take(0) =~= before);
    }
    for manifest in it: found
        invariant
            it.seq() == found@,
            added == games_of_manifests(manifest_views(found@)),
            game_views(games@) == before + added.take(it.index() as int),
    {
        let ghost k = it.index() as int;
        let game = InstalledGame::EpicGames(Box::new(manifest));
        proof {
            assert(added[k] == game@);
            assert(added.take(k + 1) =~= added.take(k).push(game@));
            assert(game_views(games@.push(game)) =~= game_views(games@).push(game@));
            assert(before + added.take(k).push(game@) =~= (before + added.take(k)).push(game@));
        }
        games.push(game);
    }
    proof {
        assert(added.take(found@.len() as int) =~= added);
    }
}

/// Merges what the three stores gave into one list.
///
/// A store whose scan failed contributes nothing; the others are not affected, and
/// the merge itself cannot fail.
pub fn find_all_games<E1, E2, E3>(
    packages: Result<Vec<GamePackage>, E1>,
    apps: Result<Vec<AppState>, E2>,
    manifests: Result<Vec<Manifest>, E3>,
) -> (games: Vec<InstalledGame>)
    ensures
        game_views(games@) == all_games(
            package_views(contribution(packages)),
            app_views(contribution(apps)),
            manifest_views(contribution(manifests)),
        ),
{
    let mut games: Vec<InstalledGame> = Vec::new();
    let ghost none = Seq::<InstalledGameView>::empty();
    proof {
        assert(game_views(games@) =~= none);
        assert(games_of_packages(package_views(Seq::<GamePackage>::empty())) =~= none);
        assert(games_of_apps(app_views(Seq::<AppState>::empty())) =~= none);
        assert(games_of_manifests(manifest_views(Seq::<Manifest>::empty())) =~= none);
    }
    if let Ok(found) = packages {
        push_packages(&mut games, found);
    }
    assert(game_views(games@) =~= games_of_packages(package_views(contribution(packages))));
    if let Ok(found) = apps {
        push_apps(&mut games, found);
    }
    assert(game_views(games@) =~= games_of_packages(package_views(contribution(packages)))
        + games_of_apps(app_views(contribution(apps))));
    if let Ok(found) = manifests {
        push_manifests(&mut games, found);
    }
    assert(game_views(games@) =~= games_of_packages(package_views(contribution(packages)))
        + games_of_apps(app_views(contribution(apps))) + games_of_manifests(
        manifest_views(contribution(manifests)),
    ));
    games
}

} // verus!
