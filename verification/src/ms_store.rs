//! Packages that the Microsoft Store's gaming services have registered.
//!
//! The registry is read by the caller; this module decides what the entries mean.

use crate::path::{join_path, joined};
use crate::text::{split, split_text, views};
use vstd::prelude::*;

verus! {

/// The registry key, under `HKEY_LOCAL_MACHINE`, whose value names are the identifiers
/// of the installed packages.
pub const GAMING_SERVICES_PACKAGE_REPOSITORY: &'static str =
    "SOFTWARE\\Microsoft\\GamingServices\\PackageRepository\\Package";

/// The registry key, under `HKEY_LOCAL_MACHINE`, that holds one subkey per package.
pub const FULL_PACKAGE_REPOSITORY: &'static str =
    "SOFTWARE\\Classes\\Local Settings\\Software\\Microsoft\\Windows\\CurrentVersion\\AppModel\\PackageRepository\\Packages";

/// An installed package with the components of its identifier.
#[derive(Debug, Clone)]
pub struct GamePackage {
    pub app_id: String,
    pub app_publisher: String,
    pub app_name: String,
    pub app_version: String,
    pub app_arch: String,
    pub app_publisher_id: String,
    pub path: String,
}

/// What a [`GamePackage`] holds, as mathematical values.
pub struct GamePackageView {
    pub app_id: Seq<char>,
    pub app_publisher: Seq<char>,
    pub app_name: Seq<char>,
    pub app_version: Seq<char>,
    pub app_arch: Seq<char>,
    pub app_publisher_id: Seq<char>,
    pub path: Seq<char>,
}

impl View for GamePackage {
    type V = GamePackageView;

    open spec fn view(&self) -> GamePackageView {
        GamePackageView {
            app_id: self.app_id@,
            app_publisher: self.app_publisher@,
            app_name: self.app_name@,
            app_version: self.app_version@,
            app_arch: self.app_arch@,
            app_publisher_id: self.app_publisher_id@,
            path: self.path@,
        }
    }
}

/// Why a package identifier could not be taken apart: the component that is missing.
#[derive(Debug, Clone, Copy, PartialEq, Eq, Structural)]
pub enum AppIdError {
    Name,
    Version,
    Arch,
    Field4,
    PublisherId,
}

impl AppIdError {
    /// What went wrong, in words.
    pub open spec fn message_of(self) -> Seq<char> {
        match self {
            AppIdError::Name => "Invalid app id (name)"@,
            AppIdError::Version => "Invalid app id (version)"@,
            AppIdError::Arch => "Invalid app id (arch)"@,
            AppIdError::Field4 => "Invalid app id (field4)"@,
            AppIdError::PublisherId => "Invalid app id (publisher id)"@,
        }
    }

    /// What went wrong, in words.
    pub fn message(&self) -> (r: &'static str)
        ensures
            r@ == self.message_of(),
    {
        match self {
            AppIdError::Name => "Invalid app id (name)",
            AppIdError::Version => "Invalid app id (version)",
            AppIdError::Arch => "Invalid app id (arch)",
            AppIdError::Field4 => "Invalid app id (field4)",
            AppIdError::PublisherId => "Invalid app id (publisher id)",
        }
    }
}

/// The five components of a package identifier: publisher, name, version,
/// architecture and publisher id.
///
/// The identifier is cut at every `_`; the first piece is cut again at every `.`.
/// The fourth `_`-piece is required but not used, and pieces beyond those that are
/// needed are ignored.
pub open spec fn app_id_parts(s: Seq<char>) -> Result<Seq<Seq<char>>, AppIdError> {
    let parts = split(s, '_');
    let names = split(parts[0], '.');
    if names.len() < 2 {
        Err(AppIdError::Name)
    } else if parts.len() < 2 {
        Err(AppIdError::Version)
    } else if parts.len() < 3 {
        Err(AppIdError::Arch)
    } else if parts.len() < 4 {
        Err(AppIdError::Field4)
    } else if parts.len() < 5 {
        Err(AppIdError::PublisherId)
    } else {
        Ok(seq![names[0], names[1], parts[1], parts[2], parts[4]])
    }
}

/// An identifier with fewer than five pieces between its `_` cannot be taken apart.
pub proof fn lemma_short_app_id_fails(s: Seq<char>)
    requires
        split(s, '_').len() < 5,
    ensures
        app_id_parts(s) is Err,
{
}

/// Takes a package identifier apart into publisher, name, version, architecture and
/// publisher id, for example `["Bungie", "Destiny2PCbasegame", "0.3.26071.0", "x64",
/// "8xb1a0vv8ay84"]`.
pub fn parse_app_id(s: &str) -> (r: Result<[String; 5], AppIdError>)
    ensures
        match app_id_parts(s@) {
            Ok(parts) => r is Ok && views(r->Ok_0@) == parts,
            Err(e) => r == Err::<[String; 5], AppIdError>(e),
        },
{
    let parts: Vec<String> = split_text(s, '_');
    proof {
        crate::text::lemma_split_nonempty(s@, '_');
        assert(views(parts@)[0] == parts@[0]@);
    }
    let names: Vec<String> = split_text(parts[0].as_str(), '.');
    proof {
        crate::text::lemma_split_nonempty(parts@[0]@, '.');
    }
    if names.len() < 2 {
        return Err(AppIdError::Name);
    }
    if parts.len() < 2 {
        return Err(AppIdError::Version);
    }
    if parts.len() < 3 {
        return Err(AppIdError::Arch);
    }
    if parts.len() < 4 {
        return Err(AppIdError::Field4);
    }
    if parts.len() < 5 {
        return Err(AppIdError::PublisherId);
    }
    let out: [String; 5] = [
        names[0].clone(),
        names[1].clone(),
        parts[1].clone(),
        parts[2].clone(),
        parts[4].clone(),
    ];
    proof {
        assert(views(names@)[0] == names@[0]@);
        assert(views(names@)[1] == names@[1]@);
        assert(views(parts@)[1] == parts@[1]@);
        assert(views(parts@)[2] == parts@[2]@);
        assert(views(parts@)[4] == parts@[4]@);
        assert(views(out@) =~= app_id_parts(s@)->Ok_0);
    }
    Ok(out)
}

/// What the registry gave for the install path of one package.
#[derive(Debug, Clone)]
pub enum PathLookup {
    /// The package's own key could not be opened.
    KeyUnavailable,
    /// The key was opened, but its `Path` value could not be read.
    PathUnavailable,
    /// The `Path` value.
    Found(String),
}

/// One identifier that the package repository lists, with what was found under the
/// key that [`package_key_path`] names for it.
#[derive(Debug, Clone)]
pub struct PackageProbe {
    pub app_id: String,
    pub lookup: PathLookup,
}

/// Why the package registry could not be scanned.
#[derive(Debug, Clone)]
pub enum StoreError {
    /// The key that lists the packages could not be opened.
    RepositoryUnavailable,
    /// The key of the package with this identifier could not be opened.
    PackageKeyUnavailable(String),
}

/// The registry key that holds the install path of the package `app_id`.
pub fn package_key_path(app_id: &str) -> (r: String)
    ensures
        r@ == joined(FULL_PACKAGE_REPOSITORY@, app_id@),
{
    join_path(FULL_PACKAGE_REPOSITORY, app_id)
}

/// The package that a probe stands for: one whose path was found and whose
/// identifier can be taken apart.
pub open spec fn package_of(probe: PackageProbe) -> Option<GamePackageView> {
    match probe.lookup {
        PathLookup::Found(path) => match app_id_parts(probe.app_id@) {
            Ok(parts) => Some(
                GamePackageView {
                    app_id: probe.app_id@,
                    app_publisher: parts[0],
                    app_name: parts[1],
                    app_version: parts[2],
                    app_arch: parts[3],
                    app_publisher_id: parts[4],
                    path: path@,
                },
            ),
            Err(_) => None,
        },
        _ => None,
    }
}

/// The packages that a list of probes stands for, in the order of the probes.
pub open spec fn packages_of(probes: Seq<PackageProbe>) -> Seq<GamePackageView>
    decreases probes.len(),
{
    if probes.len() == 0 {
        Seq::<GamePackageView>::empty()
    } else {
        let before = packages_of(probes.drop_last());
        match package_of(probes.last()) {
            Some(p) => before.push(p),
            None => before,
        }
    }
}

/// Whether `i` is the first probe whose key could not be opened.
pub open spec fn is_first_unavailable(probes: Seq<PackageProbe>, i: int) -> bool {
    &&& 0 <= i < probes.len()
    &&& probes[i].lookup is KeyUnavailable
    &&& forall|j: int| 0 <= j < i ==> !(#[trigger] probes[j].lookup is KeyUnavailable)
}

/// The views of a list of packages.
pub open spec fn package_views(packages: Seq<GamePackage>) -> Seq<GamePackageView> {
    packages.map_values(|p: GamePackage| p@)
}

/// Turns what the registry lists into packages.
///
/// `listing` is `None` where the repository key could not be opened. A package key
/// that could not be opened fails the whole scan; a missing path or an identifier
/// that cannot be taken apart only leaves that package out.
pub fn get_game_packages(listing: Option<Vec<PackageProbe>>) -> (r: Result<
    Vec<GamePackage>,
    StoreError,
>)
    ensures
        listing is None ==> r matches Err(StoreError::RepositoryUnavailable),
        listing is Some ==> (r is Ok <==> forall|i: int|
            0 <= i < listing->0@.len() ==> !(#[trigger] listing->0@[i].lookup is KeyUnavailable)),
        listing is Some && r is Ok ==> package_views(r->Ok_0@) == packages_of(listing->0@),
        listing is Some && r is Err ==> (match r->Err_0 {
            StoreError::PackageKeyUnavailable(id) => exists|i: int|
                is_first_unavailable(listing->0@, i) && id@ == (#[trigger] listing->0@[i]).app_id@,
            StoreError::RepositoryUnavailable => false,
        }),
{
    let probes: Vec<PackageProbe> = match listing {
        Some(probes) => probes,
        None => {
            return Err(StoreError::RepositoryUnavailable);
        },
    };
    let mut packages: Vec<GamePackage> = Vec::new();
    let mut i: usize = 0;
    proof {
        assert(probes@.take(0) =~= Seq::<PackageProbe>::empty());
        assert(package_views(packages@) =~= packages_of(probes@.take(0)));
    }
    while i < probes.len()
        invariant
            listing == Some(probes),
            0 <= i <= probes@.len(),
            forall|j: int| 0 <= j < i ==> !(#[trigger] probes@[j].lookup is KeyUnavailable),
            package_views(packages@) == packages_of(probes@.take(i as int)),
        decreases probes@.len() - i,
    {
        let probe: &PackageProbe = &probes[i];
        proof {
            assert(probes@.take(i + 1).drop_last() =~= probes@.take(i as int));
            assert(probes@.take(i + 1).last() == probes@[i as int]);
        }
        match &probe.lookup {
            PathLookup::KeyUnavailable => {
                proof {
                    assert(is_first_unavailable(probes@, i as int));
                }
                return Err(StoreError::PackageKeyUnavailable(probe.app_id.clone()));
            },
            PathLookup::PathUnavailable => {},
            PathLookup::Found(path) => {
                match parse_app_id(probe.app_id.as_str()) {
                    Ok(parts) => {
                        let package = GamePackage {
                            app_id: probe.app_id.clone(),
                            app_publisher: parts[0].clone(),
                            app_name: parts[1].clone(),
                            app_version: parts[2].clone(),
                            app_arch: parts[3].clone(),
                            app_publisher_id: parts[4].clone(),
                            path: path.clone(),
                        };
                        proof {
                            let p = app_id_parts(probe.app_id@)->Ok_0;
                            assert(views(parts@)[0] == parts@[0]@);
                            assert(views(parts@)[1] == parts@[1]@);
                            assert(views(parts@)[2] == parts@[2]@);
                            assert(views(parts@)[3] == parts@[3]@);
                            assert(views(parts@)[4] == parts@[4]@);
                            assert(package_of(*probe) == Some(package@));
                            assert(package_views(packages@.push(package)) =~= package_views(
                                packages@,
                            ).push(package@));
                        }
                        packages.push(package);
                    },
                    Err(_) => {},
                }
            },
        }
        i = i + 1;
    }
    proof {
        assert(probes@.take(i as int) =~= probes@);
    }
    Ok(packages)
}

} // verus!
