//! Apps that Steam has installed.
//!
//! Steam keeps a list of its libraries in one key-value document and the state of
//! each installed app in a document of its own. The files are read by the caller;
//! this module says which files to read and what they mean.

use crate::decode::{
    either, failure_of, optional, permit, require, required, DecodeError, Failure, Field,
};
use crate::keyvalues::{
    block_entries, block_field, entry_models, field_block, field_text, field_u64, field_usize,
    leaf_text, maybe_text, maybe_u64, maybe_usize, need_flag, need_text, need_u64, need_usize,
    occurrences, optional_text, optional_u64, optional_usize, parse_document, parsed_root,
    required_flag, required_text, required_u64, required_usize, single, single_value, text_field,
    u64_field, usize_field, Branch, Entry, Node, Tree,
};
use crate::number::{
    decimal_text, decimal_value, number_text, parse_u32, parse_u64, parse_unsigned, parse_usize,
    unsigned_digits,
};
use crate::path::{has_prefix, is_rooted, is_separator, join_path, joined};
use std::collections::HashMap;
use vstd::prelude::*;
use vstd::std_specs::iter::IteratorSpec;
use vstd::string::*;

verus! {

/// The registry key, under `HKEY_CURRENT_USER`, whose value `SteamPath` names the
/// directory that Steam is installed in.
pub const STEAM_REGKEY_PATH: &'static str = "SOFTWARE\\Valve\\Steam";

/// Where the list of libraries lies, below the directory that Steam is installed in.
pub const LIBRARY_FOLDERS_FILE: &'static str = "config\\libraryfolders.vdf";

/// One depot of an installed app.
#[derive(Debug, Clone, Copy, PartialEq, Eq, Structural)]
pub struct InstalledDepot {
    pub manifest: u64,
    pub size: usize,
}

/// One library: a directory that holds installed apps.
#[derive(Debug, Clone)]
pub struct LibraryFolder {
    pub path: String,
    pub label: String,
    pub contentid: u64,
    pub totalsize: usize,
    pub update_clean_bytes_tally: usize,
    pub time_last_update_corruption: u64,
    /// The size of each installed app, by the app's id.
    pub apps: HashMap<u32, usize>,
}

/// What a [`LibraryFolder`] holds, as mathematical values.
pub struct LibraryFolderView {
    pub path: Seq<char>,
    pub label: Seq<char>,
    pub contentid: u64,
    pub totalsize: usize,
    pub update_clean_bytes_tally: usize,
    pub time_last_update_corruption: u64,
    pub apps: Map<u32, usize>,
}

impl View for LibraryFolder {
    type V = LibraryFolderView;

    open spec fn view(&self) -> LibraryFolderView {
        LibraryFolderView {
            path: self.path@,
            label: self.label@,
            contentid: self.contentid,
            totalsize: self.totalsize,
            update_clean_bytes_tally: self.update_clean_bytes_tally,
            time_last_update_corruption: self.time_last_update_corruption,
            apps: self.apps@,
        }
    }
}

/// Steam's libraries, by their index.
#[derive(Debug, Clone)]
pub struct LibraryFolders(pub HashMap<usize, LibraryFolder>);

/// The views of the libraries of a map.
pub open spec fn folder_views(folders: Map<usize, LibraryFolder>) -> Map<usize, LibraryFolderView> {
    folders.map_values(|f: LibraryFolder| f@)
}

impl View for LibraryFolders {
    type V = Map<usize, LibraryFolderView>;

    open spec fn view(&self) -> Map<usize, LibraryFolderView> {
        folder_views(self.0@)
    }
}

/// The view of a text that may be unset.
pub open spec fn text_view(text: Option<String>) -> Option<Seq<char>> {
    match text {
        Some(s) => Some(s@),
        None => None,
    }
}

/// The views of a list of pairs of texts.
pub open spec fn pair_views(pairs: Seq<(String, String)>) -> Seq<(Seq<char>, Seq<char>)> {
    pairs.map_values(|p: (String, String)| (p.0@, p.1@))
}

/// The view of a list of shared depots that may be unset.
pub open spec fn shared_view(shared: Option<Vec<(String, String)>>) -> Option<
    Seq<(Seq<char>, Seq<char>)>,
> {
    match shared {
        Some(pairs) => Some(pair_views(pairs@)),
        None => None,
    }
}

/// What Steam records about one installed app, with where it was found.
#[allow(non_snake_case)]
#[derive(Debug, Clone)]
pub struct AppState {
    pub appid: u64,
    pub universe: u64,
    pub LauncherPath: Option<String>,
    pub name: String,
    pub StateFlags: u64,
    pub installdir: String,
    pub LastUpdated: u64,
    pub SizeOnDisk: usize,
    pub StagingSize: usize,
    pub buildid: u64,
    pub LastOwner: u64,
    pub UpdateResult: Option<u64>,
    pub BytesToDownload: Option<usize>,
    pub BytesDownloaded: Option<usize>,
    pub BytesToStage: Option<usize>,
    pub BytesStaged: Option<usize>,
    pub TargetBuildID: Option<usize>,
    pub AutoUpdateBehavior: u64,
    pub AllowOtherDownloadsWhileRunning: bool,
    pub ScheduledAutoUpdate: u64,
    pub InstalledDepots: HashMap<u64, InstalledDepot>,
    pub SharedDepots: Option<Vec<(String, String)>>,
    /// The library that holds the app, for example `D:\Steam`.
    pub library_path: String,
    /// The directory of the app itself, for example
    /// `D:\Steam\steamapps\common\Team Fortress 2`.
    pub game_path: String,
}

/// What an [`AppState`] holds, as mathematical values.
#[allow(non_snake_case)]
pub struct AppStateView {
    pub appid: u64,
    pub universe: u64,
    pub LauncherPath: Option<Seq<char>>,
    pub name: Seq<char>,
    pub StateFlags: u64,
    pub installdir: Seq<char>,
    pub LastUpdated: u64,
    pub SizeOnDisk: usize,
    pub StagingSize: usize,
    pub buildid: u64,
    pub LastOwner: u64,
    pub UpdateResult: Option<u64>,
    pub BytesToDownload: Option<usize>,
    pub BytesDownloaded: Option<usize>,
    pub BytesToStage: Option<usize>,
    pub BytesStaged: Option<usize>,
    pub TargetBuildID: Option<usize>,
    pub AutoUpdateBehavior: u64,
    pub AllowOtherDownloadsWhileRunning: bool,
    pub ScheduledAutoUpdate: u64,
    pub InstalledDepots: Map<u64, InstalledDepot>,
    pub SharedDepots: Option<Seq<(Seq<char>, Seq<char>)>>,
    pub library_path: Seq<char>,
    pub game_path: Seq<char>,
}

impl View for AppState {
    type V = AppStateView;

    open spec fn view(&self) -> AppStateView {
        AppStateView {
            appid: self.appid,
            universe: self.universe,
            LauncherPath: text_view(self.LauncherPath),
            name: self.name@,
            StateFlags: self.StateFlags,
            installdir: self.installdir@,
            LastUpdated: self.LastUpdated,
            SizeOnDisk: self.SizeOnDisk,
            StagingSize: self.StagingSize,
            buildid: self.buildid,
            LastOwner: self.LastOwner,
            UpdateResult: self.UpdateResult,
            BytesToDownload: self.BytesToDownload,
            BytesDownloaded: self.BytesDownloaded,
            BytesToStage: self.BytesToStage,
            BytesStaged: self.BytesStaged,
            TargetBuildID: self.TargetBuildID,
            AutoUpdateBehavior: self.AutoUpdateBehavior,
            AllowOtherDownloadsWhileRunning: self.AllowOtherDownloadsWhileRunning,
            ScheduledAutoUpdate: self.ScheduledAutoUpdate,
            InstalledDepots: self.InstalledDepots@,
            SharedDepots: shared_view(self.SharedDepots),
            library_path: self.library_path@,
            game_path: self.game_path@,
        }
    }
}

/// The 64-bit number that a key spells.
pub open spec fn key_u64(key: Seq<char>) -> Option<u64> {
    match parse_unsigned(key, u64::MAX as nat) {
        Some(n) => Some(n as u64),
        None => None,
    }
}

/// The 32-bit number that a key spells.
pub open spec fn key_u32(key: Seq<char>) -> Option<u32> {
    match parse_unsigned(key, u32::MAX as nat) {
        Some(n) => Some(n as u32),
        None => None,
    }
}

/// The word-sized number that a key or a leaf spells.
pub open spec fn key_usize(key: Seq<char>) -> Option<usize> {
    match parse_unsigned(key, usize::MAX as nat) {
        Some(n) => Some(n as usize),
        None => None,
    }
}

/// The depot that a tree describes: a block with a `manifest` and a `size`.
pub open spec fn depot_of(tree: Tree) -> Option<InstalledDepot> {
    match tree {
        Tree::Text(_) => None,
        Tree::Block(b) => match (u64_field(b, "manifest"@), usize_field(b, "size"@)) {
            (Field::Value(manifest), Field::Value(size)) => Some(InstalledDepot { manifest, size }),
            _ => None,
        },
    }
}

/// The depots that a block lists, by depot id. Every key spells a number and has one
/// value, a depot; where two keys spell the same number, the later one stays.
pub open spec fn depots_of(branches: Seq<Branch>) -> Option<Map<u64, InstalledDepot>>
    decreases branches.len(),
{
    if branches.len() == 0 {
        Some(Map::<u64, InstalledDepot>::empty())
    } else {
        let last = branches.last();
        match (depots_of(branches.drop_last()), key_u64(last.key), single(last.values)) {
            (Some(m), Some(k), Some(t)) => match depot_of(t) {
                Some(d) => Some(m.insert(k, d)),
                None => None,
            },
            _ => None,
        }
    }
}

/// The depots written under `key`.
pub open spec fn depots_field(branches: Seq<Branch>, key: Seq<char>) -> Field<
    Map<u64, InstalledDepot>,
> {
    match block_field(branches, key) {
        Field::Absent => Field::Absent,
        Field::Malformed => Field::Malformed,
        Field::Value(inner) => match depots_of(inner) {
            Some(m) => Field::Value(m),
            None => Field::Malformed,
        },
    }
}

/// Whether one of the pairs has the key `key`.
pub open spec fn has_key(pairs: Seq<(Seq<char>, Seq<char>)>, key: Seq<char>) -> bool {
    exists|i: int| 0 <= i < pairs.len() && (#[trigger] pairs[i]).0 == key
}

/// Whether the pairs stand for a map: no key occurs twice. This is what the list of
/// shared depots of an app holds to.
pub open spec fn distinct_keys(pairs: Seq<(Seq<char>, Seq<char>)>) -> bool {
    forall|i: int, j: int|
        0 <= i < j < pairs.len() ==> (#[trigger] pairs[i]).0 != (#[trigger] pairs[j]).0
}

/// The map from text to text that a block spells out, as the list of its pairs in
/// the block's order: every key has one value, a leaf, and no key occurs twice.
pub open spec fn shared_of(branches: Seq<Branch>) -> Option<Seq<(Seq<char>, Seq<char>)>>
    decreases branches.len(),
{
    if branches.len() == 0 {
        Some(Seq::<(Seq<char>, Seq<char>)>::empty())
    } else {
        let last = branches.last();
        match (shared_of(branches.drop_last()), single(last.values)) {
            (Some(pairs), Some(Tree::Text(s))) => if has_key(pairs, last.key) {
                None
            } else {
                Some(pairs.push((last.key, s)))
            },
            _ => None,
        }
    }
}

/// The shared depots that were read hold no key twice.
pub proof fn lemma_shared_keys_distinct(branches: Seq<Branch>)
    requires
        shared_of(branches) is Some,
    ensures
        distinct_keys(shared_of(branches)->0),
    decreases branches.len(),
{
    if branches.len() > 0 {
        lemma_shared_keys_distinct(branches.drop_last());
        let before = shared_of(branches.drop_last())->0;
        let now = shared_of(branches)->0;
        assert forall|i: int, j: int| 0 <= i < j < now.len() implies (#[trigger] now[i]).0 != (
        #[trigger] now[j]).0 by {
            if j < before.len() {
                assert(now[i] == before[i] && now[j] == before[j]);
            } else {
                assert(now[i] == before[i]);
            }
        }
    }
}

/// The shared depots written under `key`.
pub open spec fn shared_field(branches: Seq<Branch>, key: Seq<char>) -> Field<
    Seq<(Seq<char>, Seq<char>)>,
> {
    match block_field(branches, key) {
        Field::Absent => Field::Absent,
        Field::Malformed => Field::Malformed,
        Field::Value(inner) => match shared_of(inner) {
            Some(pairs) => Field::Value(pairs),
            None => Field::Malformed,
        },
    }
}

/// The sizes of the apps that a block lists, by app id. Every key spells a 32-bit
/// number and has one value, a leaf that spells a size.
pub open spec fn apps_of(branches: Seq<Branch>) -> Option<Map<u32, usize>>
    decreases branches.len(),
{
    if branches.len() == 0 {
        Some(Map::<u32, usize>::empty())
    } else {
        let last = branches.last();
        match (apps_of(branches.drop_last()), key_u32(last.key), single(last.values)) {
            (Some(m), Some(k), Some(Tree::Text(s))) => match key_usize(s) {
                Some(size) => Some(m.insert(k, size)),
                None => None,
            },
            _ => None,
        }
    }
}

/// The library that a tree describes: a block with all of a library's fields.
pub open spec fn folder_of(tree: Tree) -> Option<LibraryFolderView> {
    match tree {
        Tree::Text(_) => None,
        Tree::Block(b) => match (
            text_field(b, "path"@),
            text_field(b, "label"@),
            u64_field(b, "contentid"@),
            usize_field(b, "totalsize"@),
            usize_field(b, "update_clean_bytes_tally"@),
            u64_field(b, "time_last_update_corruption"@),
            block_field(b, "apps"@),
        ) {
            (
                Field::Value(path),
                Field::Value(label),
                Field::Value(contentid),
                Field::Value(totalsize),
                Field::Value(update_clean_bytes_tally),
                Field::Value(time_last_update_corruption),
                Field::Value(inner),
            ) => match apps_of(inner) {
                Some(apps) => Some(
                    LibraryFolderView {
                        path,
                        label,
                        contentid,
                        totalsize,
                        update_clean_bytes_tally,
                        time_last_update_corruption,
                        apps,
                    },
                ),
                None => None,
            },
            _ => None,
        },
    }
}

/// The libraries that a block lists, by index. Every key spells a number and has one
/// value, a library; where two keys spell the same number, the later one stays.
pub open spec fn folders_of(branches: Seq<Branch>) -> Option<Map<usize, LibraryFolderView>>
    decreases branches.len(),
{
    if branches.len() == 0 {
        Some(Map::<usize, LibraryFolderView>::empty())
    } else {
        let last = branches.last();
        match (folders_of(branches.drop_last()), key_usize(last.key), single(last.values)) {
            (Some(m), Some(k), Some(t)) => match folder_of(t) {
                Some(f) => Some(m.insert(k, f)),
                None => None,
            },
            _ => None,
        }
    }
}

/// The libraries that a document lists.
pub open spec fn library_folders_of(tree: Tree) -> Result<Map<usize, LibraryFolderView>, Failure> {
    match tree {
        Tree::Text(_) => Err(Failure::NotARecord),
        Tree::Block(b) => match folders_of(b) {
            Some(m) => Ok(m),
            None => Err(Failure::Invalid("libraryfolders"@)),
        },
    }
}

/// The first field of an app manifest, in the order of [`AppState`]'s fields, that is
/// missing or malformed in the block `b`.
pub open spec fn app_state_failure(b: Seq<Branch>) -> Option<Failure> {
    either(failure_of(required_u64(b, "appid"@)),
    either(failure_of(required_u64(b, "universe"@)),
    either(failure_of(optional_text(b, "LauncherPath"@)),
    either(failure_of(required_text(b, "name"@)),
    either(failure_of(required_u64(b, "StateFlags"@)),
    either(failure_of(required_text(b, "installdir"@)),
    either(failure_of(required_u64(b, "LastUpdated"@)),
    either(failure_of(required_usize(b, "SizeOnDisk"@)),
    either(failure_of(required_usize(b, "StagingSize"@)),
    either(failure_of(required_u64(b, "buildid"@)),
    either(failure_of(required_u64(b, "LastOwner"@)),
    either(failure_of(optional_u64(b, "UpdateResult"@)),
    either(failure_of(optional_usize(b, "BytesToDownload"@)),
    either(failure_of(optional_usize(b, "BytesDownloaded"@)),
    either(failure_of(optional_usize(b, "BytesToStage"@)),
    either(failure_of(optional_usize(b, "BytesStaged"@)),
    either(failure_of(optional_usize(b, "TargetBuildID"@)),
    either(failure_of(required_u64(b, "AutoUpdateBehavior"@)),
    either(failure_of(required_flag(b, "AllowOtherDownloadsWhileRunning"@)),
    either(failure_of(required_u64(b, "ScheduledAutoUpdate"@)),
    either(failure_of(required_depots(b, "InstalledDepots"@)),
    failure_of(optional_shared(b, "SharedDepots"@))
    )))))))))))))))))))))
}

/// The app that the block `b` describes, where no field is missing or malformed.
/// Keys that are no field of an app are passed over. The two paths are left empty:
/// the document does not hold them.
pub open spec fn app_state_fields(b: Seq<Branch>) -> AppStateView {
    AppStateView {
        appid: required_u64(b, "appid"@)->Ok_0,
        universe: required_u64(b, "universe"@)->Ok_0,
        LauncherPath: optional_text(b, "LauncherPath"@)->Ok_0,
        name: required_text(b, "name"@)->Ok_0,
        StateFlags: required_u64(b, "StateFlags"@)->Ok_0,
        installdir: required_text(b, "installdir"@)->Ok_0,
        LastUpdated: required_u64(b, "LastUpdated"@)->Ok_0,
        SizeOnDisk: required_usize(b, "SizeOnDisk"@)->Ok_0,
        StagingSize: required_usize(b, "StagingSize"@)->Ok_0,
        buildid: required_u64(b, "buildid"@)->Ok_0,
        LastOwner: required_u64(b, "LastOwner"@)->Ok_0,
        UpdateResult: optional_u64(b, "UpdateResult"@)->Ok_0,
        BytesToDownload: optional_usize(b, "BytesToDownload"@)->Ok_0,
        BytesDownloaded: optional_usize(b, "BytesDownloaded"@)->Ok_0,
        BytesToStage: optional_usize(b, "BytesToStage"@)->Ok_0,
        BytesStaged: optional_usize(b, "BytesStaged"@)->Ok_0,
        TargetBuildID: optional_usize(b, "TargetBuildID"@)->Ok_0,
        AutoUpdateBehavior: required_u64(b, "AutoUpdateBehavior"@)->Ok_0,
        AllowOtherDownloadsWhileRunning: required_flag(b, "AllowOtherDownloadsWhileRunning"@)->Ok_0,
        ScheduledAutoUpdate: required_u64(b, "ScheduledAutoUpdate"@)->Ok_0,
        InstalledDepots: required_depots(b, "InstalledDepots"@)->Ok_0,
        SharedDepots: optional_shared(b, "SharedDepots"@)->Ok_0,
        library_path: Seq::<char>::empty(),
        game_path: Seq::<char>::empty(),
    }
}

/// The app that a document describes.
pub open spec fn app_state_of(tree: Tree) -> Result<AppStateView, Failure> {
    match tree {
        Tree::Text(_) => Err(Failure::NotARecord),
        Tree::Block(b) => match app_state_failure(b) {
            Some(e) => Err(e),
            None => Ok(app_state_fields(b)),
        },
    }
}

/// An optional field of an app is unset exactly where no branch of the document has
/// its key. A field that the document holds is set, also where its value is zero:
/// `"0"` decodes to zero, not to unset.
pub proof fn lemma_unset_is_not_zero(b: Seq<Branch>)
    requires
        app_state_of(Tree::Block(b)) is Ok,
    ensures
        ({
            let app = app_state_of(Tree::Block(b))->Ok_0;
            &&& app.LauncherPath is None <==> occurrences(b, "LauncherPath"@) == 0
            &&& app.UpdateResult is None <==> occurrences(b, "UpdateResult"@) == 0
            &&& app.BytesToDownload is None <==> occurrences(b, "BytesToDownload"@) == 0
            &&& app.BytesDownloaded is None <==> occurrences(b, "BytesDownloaded"@) == 0
            &&& app.BytesToStage is None <==> occurrences(b, "BytesToStage"@) == 0
            &&& app.BytesStaged is None <==> occurrences(b, "BytesStaged"@) == 0
            &&& app.TargetBuildID is None <==> occurrences(b, "TargetBuildID"@) == 0
            &&& app.SharedDepots is None <==> occurrences(b, "SharedDepots"@) == 0
            &&& text_field(b, "UpdateResult"@) == Field::Value(seq!['0']) ==> app.UpdateResult
                == Some(0u64)
            &&& text_field(b, "BytesToDownload"@) == Field::Value(seq!['0'])
                ==> app.BytesToDownload == Some(0usize)
            &&& text_field(b, "BytesDownloaded"@) == Field::Value(seq!['0'])
                ==> app.BytesDownloaded == Some(0usize)
            &&& text_field(b, "BytesToStage"@) == Field::Value(seq!['0']) ==> app.BytesToStage
                == Some(0usize)
            &&& text_field(b, "BytesStaged"@) == Field::Value(seq!['0']) ==> app.BytesStaged
                == Some(0usize)
            &&& text_field(b, "TargetBuildID"@) == Field::Value(seq!['0']) ==> app.TargetBuildID
                == Some(0usize)
        }),
{
    let zero = seq!['0'];
    assert(unsigned_digits(zero) == zero);
    assert(zero.drop_last() =~= Seq::<char>::empty());
    assert(decimal_value(zero) == 0) by {
        reveal_with_fuel(decimal_value, 2);
    }
    assert(parse_unsigned(zero, u64::MAX as nat) == Some(0nat));
    assert(parse_unsigned(zero, usize::MAX as nat) == Some(0nat));
}

/// The ids of the depots that were read are the numbers that the keys of the block
/// spell, whatever the order of the keys.
pub proof fn lemma_depot_ids(branches: Seq<Branch>)
    requires
        depots_of(branches) is Some,
    ensures
        forall|id: u64|
            depots_of(branches)->0.contains_key(id) <==> exists|i: int|
                0 <= i < branches.len() && key_u64(#[trigger] branches[i].key) == Some(id),
    decreases branches.len(),
{
    if branches.len() > 0 {
        let before = branches.drop_last();
        lemma_depot_ids(before);
        assert forall|id: u64|
            depots_of(branches)->0.contains_key(id) <==> exists|i: int|
                0 <= i < branches.len() && key_u64(#[trigger] branches[i].key) == Some(id) by {
            if depots_of(before)->0.contains_key(id) {
                let i = choose|i: int|
                    0 <= i < before.len() && key_u64(#[trigger] before[i].key) == Some(id);
                assert(branches[i] == before[i]);
            }
            if exists|i: int|
                0 <= i < branches.len() && key_u64(#[trigger] branches[i].key) == Some(id) {
                let i = choose|i: int|
                    0 <= i < branches.len() && key_u64(#[trigger] branches[i].key) == Some(id);
                if i < before.len() {
                    assert(before[i] == branches[i]);
                }
            }
        }
    }
}

/// What one entry of a block of depots gives: the id that its key spells and the
/// depot that is its one value.
pub open spec fn depot_entry(branch: Branch) -> Option<(u64, InstalledDepot)> {
    match (key_u64(branch.key), single(branch.values)) {
        (Some(id), Some(tree)) => match depot_of(tree) {
            Some(depot) => Some((id, depot)),
            None => None,
        },
        _ => None,
    }
}

/// Whether no two entries spell the same depot id.
pub open spec fn distinct_ids(branches: Seq<Branch>) -> bool {
    forall|i: int, j: int|
        0 <= i < j < branches.len() && key_u64((#[trigger] branches[i]).key) is Some ==> key_u64(
            branches[i].key,
        ) != key_u64((#[trigger] branches[j]).key)
}

/// Whether `order` names the position `p`.
pub open spec fn names(order: Seq<int>, p: int) -> bool {
    exists|i: int| 0 <= i < order.len() && #[trigger] order[i] == p
}

/// Whether `order` lists the positions below `n`, each of them once.
pub open spec fn is_order(order: Seq<int>, n: int) -> bool {
    &&& order.len() == n
    &&& forall|i: int| 0 <= i < n ==> 0 <= #[trigger] order[i] < n
    &&& forall|i: int, j: int| 0 <= i < j < n ==> #[trigger] order[i] != #[trigger] order[j]
    &&& forall|p: int| 0 <= p < n ==> #[trigger] names(order, p)
}

/// The entries of a block in another order: at each position the entry that `order`
/// names.
pub open spec fn reordered(branches: Seq<Branch>, order: Seq<int>) -> Seq<Branch> {
    Seq::new(order.len(), |i: int| branches[order[i]])
}

/// A block of depots can be read exactly where each of its entries can.
pub proof fn lemma_depots_readable(branches: Seq<Branch>)
    ensures
        depots_of(branches) is Some <==> forall|i: int|
            0 <= i < branches.len() ==> depot_entry(#[trigger] branches[i]) is Some,
    decreases branches.len(),
{
    if branches.len() > 0 {
        let before = branches.drop_last();
        lemma_depots_readable(before);
        if depots_of(branches) is Some {
            assert forall|i: int| 0 <= i < branches.len() implies depot_entry(
                #[trigger] branches[i],
            ) is Some by {
                if i < before.len() {
                    assert(before[i] == branches[i]);
                }
            }
        }
        if forall|i: int| 0 <= i < branches.len() ==> depot_entry(#[trigger] branches[i]) is Some {
            assert forall|i: int| 0 <= i < before.len() implies depot_entry(
                #[trigger] before[i],
            ) is Some by {
                assert(before[i] == branches[i]);
            }
            assert(depot_entry(branches[branches.len() - 1]) is Some);
        }
    }
}

/// Where no two entries spell the same id, every entry is found in the depots that
/// were read: under the id that its key spells stands its depot, and there are as
/// many depots as entries.
pub proof fn lemma_depot_of_each_entry(branches: Seq<Branch>)
    requires
        depots_of(branches) is Some,
        distinct_ids(branches),
    ensures
        forall|i: int|
            0 <= i < branches.len() ==> {
                let entry = depot_entry(#[trigger] branches[i]);
                &&& entry is Some
                &&& depots_of(branches)->0.contains_key((entry->0).0)
                &&& depots_of(branches)->0[(entry->0).0] == (entry->0).1
            },
        depots_of(branches)->0.dom().finite(),
        depots_of(branches)->0.dom().len() == branches.len(),
    decreases branches.len(),
{
    if branches.len() > 0 {
        let before = branches.drop_last();
        let last = branches.last();
        assert(distinct_ids(before)) by {
            assert forall|i: int, j: int|
                0 <= i < j < before.len() && key_u64(
                    (#[trigger] before[i]).key,
                ) is Some implies key_u64(before[i].key) != key_u64((#[trigger] before[j]).key) by {
                assert(before[i] == branches[i] && before[j] == branches[j]);
            }
        }
        lemma_depot_of_each_entry(before);
        lemma_depot_ids(before);
        let id = key_u64(last.key)->0;
        assert(!depots_of(before)->0.contains_key(id)) by {
            if depots_of(before)->0.contains_key(id) {
                let i = choose|i: int|
                    0 <= i < before.len() && key_u64(#[trigger] before[i].key) == Some(id);
                assert(before[i] == branches[i]);
                assert(branches[branches.len() - 1] == last);
            }
        }
        assert forall|i: int| 0 <= i < branches.len() implies {
            let entry = depot_entry(#[trigger] branches[i]);
            &&& entry is Some
            &&& depots_of(branches)->0.contains_key((entry->0).0)
            &&& depots_of(branches)->0[(entry->0).0] == (entry->0).1
        } by {
            if i < before.len() {
                assert(before[i] == branches[i]);
                assert(branches[branches.len() - 1] == last);
            }
        }
    } else {
        assert(depots_of(branches)->0.dom() =~= Set::<u64>::empty());
    }
}

/// A block in another order can be read exactly where the block can.
proof fn lemma_reordered_readable(branches: Seq<Branch>, order: Seq<int>)
    requires
        is_order(order, branches.len() as int),
    ensures
        depots_of(reordered(branches, order)) is Some <==> depots_of(branches) is Some,
{
    let moved = reordered(branches, order);
    lemma_depots_readable(branches);
    lemma_depots_readable(moved);
    if depots_of(branches) is Some {
        assert forall|j: int| 0 <= j < moved.len() implies depot_entry(
            #[trigger] moved[j],
        ) is Some by {
            assert(moved[j] == branches[order[j]]);
        }
    } else {
        let p = choose|p: int|
            0 <= p < branches.len() && !(depot_entry(#[trigger] branches[p]) is Some);
        assert(names(order, p));
        let j = choose|j: int| 0 <= j < order.len() && #[trigger] order[j] == p;
        assert(moved[j] == branches[p]);
    }
}

/// A block in another order spells no id twice where the block spells none twice.
proof fn lemma_reordered_distinct(branches: Seq<Branch>, order: Seq<int>)
    requires
        is_order(order, branches.len() as int),
        distinct_ids(branches),
    ensures
        distinct_ids(reordered(branches, order)),
{
    let moved = reordered(branches, order);
    assert forall|i: int, j: int|
        0 <= i < j < moved.len() && key_u64((#[trigger] moved[i]).key) is Some implies key_u64(
        moved[i].key,
    ) != key_u64((#[trigger] moved[j]).key) by {
        let p = order[i];
        let q = order[j];
        assert(moved[i] == branches[p] && moved[j] == branches[q]);
        if p < q {
            assert(key_u64(branches[p].key) != key_u64(branches[q].key));
        } else {
            assert(q < p);
            if key_u64(branches[q].key) is Some {
                assert(key_u64(branches[q].key) != key_u64(branches[p].key));
            }
        }
    }
}

/// Every depot of a block in another order is a depot of the block, under the same
/// id.
proof fn lemma_reordered_within(
    branches: Seq<Branch>,
    order: Seq<int>,
    here: Map<u64, InstalledDepot>,
    there: Map<u64, InstalledDepot>,
)
    requires
        is_order(order, branches.len() as int),
        distinct_ids(branches),
        depots_of(branches) == Some(here),
        depots_of(reordered(branches, order)) == Some(there),
    ensures
        forall|id: u64| #[trigger]
            there.contains_key(id) ==> here.contains_key(id) && here[id] == there[id],
{
    let moved = reordered(branches, order);
    lemma_reordered_distinct(branches, order);
    lemma_depot_of_each_entry(branches);
    lemma_depot_of_each_entry(moved);
    lemma_depot_ids(moved);
    assert forall|id: u64| #[trigger] there.contains_key(id) implies here.contains_key(id)
        && here[id] == there[id] by {
        let j = choose|j: int|
            0 <= j < moved.len() && key_u64(#[trigger] moved[j].key) == Some(id);
        let p = order[j];
        assert(moved[j] == branches[p]);
        let found = depot_entry(moved[j]);
        let kept = depot_entry(branches[p]);
        assert(found == kept);
        assert(there[(found->0).0] == (found->0).1);
        assert(here[(kept->0).0] == (kept->0).1);
    }
}

/// The depots that are read do not depend on the order of the entries, where no two
/// entries spell the same id: the same ids come out, each with the same manifest and
/// size, and a block that cannot be read in one order cannot be read in another.
pub proof fn lemma_depots_whatever_the_order(branches: Seq<Branch>, order: Seq<int>)
    requires
        is_order(order, branches.len() as int),
        distinct_ids(branches),
    ensures
        depots_of(reordered(branches, order)) == depots_of(branches),
{
    let moved = reordered(branches, order);
    lemma_reordered_readable(branches, order);
    if depots_of(branches) is Some {
        let here = depots_of(branches)->0;
        let there = depots_of(moved)->0;
        lemma_reordered_within(branches, order, here, there);
        lemma_reordered_distinct(branches, order);
        lemma_depot_of_each_entry(branches);
        lemma_depot_of_each_entry(moved);
        assert(there.dom().subset_of(here.dom()));
        vstd::set_lib::lemma_subset_equality(there.dom(), here.dom());
        assert(there =~= here);
    }
}

/// The ids of the apps that were read are the numbers that the keys of the block
/// spell, whatever the order of the keys and however large the numbers.
pub proof fn lemma_app_ids(branches: Seq<Branch>)
    requires
        apps_of(branches) is Some,
    ensures
        forall|id: u32|
            apps_of(branches)->0.contains_key(id) <==> exists|i: int|
                0 <= i < branches.len() && key_u32(#[trigger] branches[i].key) == Some(id),
    decreases branches.len(),
{
    if branches.len() > 0 {
        let before = branches.drop_last();
        lemma_app_ids(before);
        assert forall|id: u32|
            apps_of(branches)->0.contains_key(id) <==> exists|i: int|
                0 <= i < branches.len() && key_u32(#[trigger] branches[i].key) == Some(id) by {
            if apps_of(before)->0.contains_key(id) {
                let i = choose|i: int|
                    0 <= i < before.len() && key_u32(#[trigger] before[i].key) == Some(id);
                assert(branches[i] == before[i]);
            }
            if exists|i: int|
                0 <= i < branches.len() && key_u32(#[trigger] branches[i].key) == Some(id) {
                let i = choose|i: int|
                    0 <= i < branches.len() && key_u32(#[trigger] branches[i].key) == Some(id);
                if i < before.len() {
                    assert(before[i] == branches[i]);
                }
            }
        }
    }
}

/// The indices of the libraries that were read are the numbers that the keys of the
/// block spell, whatever the order of the keys.
pub proof fn lemma_library_indices(branches: Seq<Branch>)
    requires
        folders_of(branches) is Some,
    ensures
        forall|index: usize|
            folders_of(branches)->0.contains_key(index) <==> exists|i: int|
                0 <= i < branches.len() && key_usize(#[trigger] branches[i].key) == Some(index),
    decreases branches.len(),
{
    if branches.len() > 0 {
        let before = branches.drop_last();
        lemma_library_indices(before);
        assert forall|index: usize|
            folders_of(branches)->0.contains_key(index) <==> exists|i: int|
                0 <= i < branches.len() && key_usize(#[trigger] branches[i].key) == Some(
                    index,
                ) by {
            if folders_of(before)->0.contains_key(index) {
                let i = choose|i: int|
                    0 <= i < before.len() && key_usize(#[trigger] before[i].key) == Some(index);
                assert(branches[i] == before[i]);
            }
            if exists|i: int|
                0 <= i < branches.len() && key_usize(#[trigger] branches[i].key) == Some(index) {
                let i = choose|i: int|
                    0 <= i < branches.len() && key_usize(#[trigger] branches[i].key) == Some(
                        index,
                    );
                if i < before.len() {
                    assert(before[i] == branches[i]);
                }
            }
        }
    }
}

/// A list of depots that cannot be read up to some entry cannot be read at all.
proof fn lemma_depots_prefix(branches: Seq<Branch>, k: int)
    requires
        0 <= k <= branches.len(),
        depots_of(branches.take(k)) is None,
    ensures
        depots_of(branches) is None,
    decreases branches.len() - k,
{
    if k == branches.len() {
        assert(branches.take(k) =~= branches);
    } else {
        assert(branches.take(k + 1).drop_last() =~= branches.take(k));
        lemma_depots_prefix(branches, k + 1);
    }
}

/// A list of shared depots that cannot be read up to some entry cannot be read at all.
proof fn lemma_shared_prefix(branches: Seq<Branch>, k: int)
    requires
        0 <= k <= branches.len(),
        shared_of(branches.take(k)) is None,
    ensures
        shared_of(branches) is None,
    decreases branches.len() - k,
{
    if k == branches.len() {
        assert(branches.take(k) =~= branches);
    } else {
        assert(branches.take(k + 1).drop_last() =~= branches.take(k));
        lemma_shared_prefix(branches, k + 1);
    }
}

/// A list of apps that cannot be read up to some entry cannot be read at all.
proof fn lemma_apps_prefix(branches: Seq<Branch>, k: int)
    requires
        0 <= k <= branches.len(),
        apps_of(branches.take(k)) is None,
    ensures
        apps_of(branches) is None,
    decreases branches.len() - k,
{
    if k == branches.len() {
        assert(branches.take(k) =~= branches);
    } else {
        assert(branches.take(k + 1).drop_last() =~= branches.take(k));
        lemma_apps_prefix(branches, k + 1);
    }
}

/// A list of libraries that cannot be read up to some entry cannot be read at all.
proof fn lemma_folders_prefix(branches: Seq<Branch>, k: int)
    requires
        0 <= k <= branches.len(),
        folders_of(branches.take(k)) is None,
    ensures
        folders_of(branches) is None,
    decreases branches.len() - k,
{
    if k == branches.len() {
        assert(branches.take(k) =~= branches);
    } else {
        assert(branches.take(k + 1).drop_last() =~= branches.take(k));
        lemma_folders_prefix(branches, k + 1);
    }
}

/// Reads one depot.
pub fn decode_depot(node: &Node) -> (r: Option<InstalledDepot>)
    ensures
        r == depot_of(node.model()),
{
    let entries = match block_entries(node) {
        Some(entries) => entries,
        None => {
            return None;
        },
    };
    match (field_u64(entries, "manifest"), field_usize(entries, "size")) {
        (Field::Value(manifest), Field::Value(size)) => Some(InstalledDepot { manifest, size }),
        _ => None,
    }
}

/// Reads the depots that a block lists.
pub fn decode_depots(entries: &Vec<Entry>) -> (r: Option<HashMap<u64, InstalledDepot>>)
    ensures
        match depots_of(entry_models(entries@)) {
            Some(m) => r is Some && r->0@ == m,
            None => r is None,
        },
{
    let ghost branches = entry_models(entries@);
    let mut map: HashMap<u64, InstalledDepot> = HashMap::new();
    let mut i: usize = 0;
    proof {
        assert(branches.take(0) =~= Seq::<Branch>::empty());
    }
    while i < entries.len()
        invariant
            0 <= i <= entries@.len(),
            branches == entry_models(entries@),
            depots_of(branches.take(i as int)) == Some(map@),
        decreases entries@.len() - i,
    {
        let entry: &Entry = &entries[i];
        proof {
            assert(branches.take(i + 1).drop_last() =~= branches.take(i as int));
            assert(branches.take(i + 1).last() == entry.model());
            if depots_of(branches.take(i + 1)) is None {
                lemma_depots_prefix(branches, i + 1);
            }
        }
        let key: u64 = match parse_u64(entry.key.as_str()) {
            Some(key) => key,
            None => {
                return None;
            },
        };
        let node: &Node = match single_value(entry) {
            Some(node) => node,
            None => {
                return None;
            },
        };
        let depot: InstalledDepot = match decode_depot(node) {
            Some(depot) => depot,
            None => {
                return None;
            },
        };
        map.insert(key, depot);
        i = i + 1;
    }
    proof {
        assert(branches.take(i as int) =~= branches);
    }
    Some(map)
}

/// Whether one of the pairs has the key `key`.
fn holds_key(pairs: &Vec<(String, String)>, key: &String) -> (r: bool)
    ensures
        r == has_key(pair_views(pairs@), key@),
{
    let mut j: usize = 0;
    while j < pairs.len()
        invariant
            0 <= j <= pairs@.len(),
            forall|k: int| 0 <= k < j ==> (#[trigger] pair_views(pairs@)[k]).0 != key@,
        decreases pairs@.len() - j,
    {
        if pairs[j].0 == *key {
            assert(pair_views(pairs@)[j as int].0 == key@);
            return true;
        }
        j = j + 1;
    }
    false
}

/// Reads the shared depots that a block lists. What comes back holds no key twice.
pub fn decode_shared(entries: &Vec<Entry>) -> (r: Option<Vec<(String, String)>>)
    ensures
        match shared_of(entry_models(entries@)) {
            Some(pairs) => r is Some && pair_views(r->0@) == pairs && distinct_keys(pairs),
            None => r is None,
        },
{
    let ghost branches = entry_models(entries@);
    let mut pairs: Vec<(String, String)> = Vec::new();
    let mut i: usize = 0;
    proof {
        assert(branches.take(0) =~= Seq::<Branch>::empty());
        assert(pair_views(pairs@) =~= Seq::<(Seq<char>, Seq<char>)>::empty());
    }
    while i < entries.len()
        invariant
            0 <= i <= entries@.len(),
            branches == entry_models(entries@),
            shared_of(branches.take(i as int)) == Some(pair_views(pairs@)),
        decreases entries@.len() - i,
    {
        let entry: &Entry = &entries[i];
        proof {
            assert(branches.take(i + 1).drop_last() =~= branches.take(i as int));
            assert(branches.take(i + 1).last() == entry.model());
            if shared_of(branches.take(i + 1)) is None {
                lemma_shared_prefix(branches, i + 1);
            }
        }
        let node: &Node = match single_value(entry) {
            Some(node) => node,
            None => {
                return None;
            },
        };
        let text: &str = match leaf_text(node) {
            Some(text) => text,
            None => {
                return None;
            },
        };
        if holds_key(&pairs, &entry.key) {
            return None;
        }
        let pair: (String, String) = (entry.key.clone(), text.to_owned());
        proof {
            assert(pair_views(pairs@.push(pair)) =~= pair_views(pairs@).push((pair.0@, pair.1@)));
        }
        pairs.push(pair);
        i = i + 1;
    }
    proof {
        assert(branches.take(i as int) =~= branches);
        lemma_shared_keys_distinct(branches);
    }
    Some(pairs)
}

/// Reads the sizes of the apps that a block lists.
pub fn decode_apps(entries: &Vec<Entry>) -> (r: Option<HashMap<u32, usize>>)
    ensures
        match apps_of(entry_models(entries@)) {
            Some(m) => r is Some && r->0@ == m,
            None => r is None,
        },
{
    let ghost branches = entry_models(entries@);
    let mut map: HashMap<u32, usize> = HashMap::new();
    let mut i: usize = 0;
    proof {
        assert(branches.take(0) =~= Seq::<Branch>::empty());
    }
    while i < entries.len()
        invariant
            0 <= i <= entries@.len(),
            branches == entry_models(entries@),
            apps_of(branches.take(i as int)) == Some(map@),
        decreases entries@.len() - i,
    {
        let entry: &Entry = &entries[i];
        proof {
            assert(branches.take(i + 1).drop_last() =~= branches.take(i as int));
            assert(branches.take(i + 1).last() == entry.model());
            if apps_of(branches.take(i + 1)) is None {
                lemma_apps_prefix(branches, i + 1);
            }
        }
        let key: u32 = match parse_u32(entry.key.as_str()) {
            Some(key) => key,
            None => {
                return None;
            },
        };
        let node: &Node = match single_value(entry) {
            Some(node) => node,
            None => {
                return None;
            },
        };
        let text: &str = match leaf_text(node) {
            Some(text) => text,
            None => {
                return None;
            },
        };
        let size: usize = match parse_usize(text) {
            Some(size) => size,
            None => {
                return None;
            },
        };
        map.insert(key, size);
        i = i + 1;
    }
    proof {
        assert(branches.take(i as int) =~= branches);
    }
    Some(map)
}

/// Reads one library.
pub fn decode_folder(node: &Node) -> (r: Option<LibraryFolder>)
    ensures
        match folder_of(node.model()) {
            Some(f) => r is Some && r->0@ == f,
            None => r is None,
        },
{
    let entries = match block_entries(node) {
        Some(entries) => entries,
        None => {
            return None;
        },
    };
    match (
        field_text(entries, "path"),
        field_text(entries, "label"),
        field_u64(entries, "contentid"),
        field_usize(entries, "totalsize"),
        field_usize(entries, "update_clean_bytes_tally"),
        field_u64(entries, "time_last_update_corruption"),
        field_block(entries, "apps"),
    ) {
        (
            Field::Value(path),
            Field::Value(label),
            Field::Value(contentid),
            Field::Value(totalsize),
            Field::Value(update_clean_bytes_tally),
            Field::Value(time_last_update_corruption),
            Field::Value(inner),
        ) => match decode_apps(inner) {
            Some(apps) => Some(
                LibraryFolder {
                    path: path.to_owned(),
                    label: label.to_owned(),
                    contentid,
                    totalsize,
                    update_clean_bytes_tally,
                    time_last_update_corruption,
                    apps,
                },
            ),
            None => None,
        },
        _ => None,
    }
}

/// Reads the libraries that a block lists.
pub fn decode_folders(entries: &Vec<Entry>) -> (r: Option<LibraryFolders>)
    ensures
        match folders_of(entry_models(entries@)) {
            Some(m) => r is Some && r->0@ == m,
            None => r is None,
        },
{
    let ghost branches = entry_models(entries@);
    let mut map: HashMap<usize, LibraryFolder> = HashMap::new();
    let mut i: usize = 0;
    proof {
        assert(branches.take(0) =~= Seq::<Branch>::empty());
        assert(folder_views(map@) =~= Map::<usize, LibraryFolderView>::empty());
    }
    while i < entries.len()
        invariant
            0 <= i <= entries@.len(),
            branches == entry_models(entries@),
            folders_of(branches.take(i as int)) == Some(folder_views(map@)),
        decreases entries@.len() - i,
    {
        let entry: &Entry = &entries[i];
        proof {
            assert(branches.take(i + 1).drop_last() =~= branches.take(i as int));
            assert(branches.take(i + 1).last() == entry.model());
            if folders_of(branches.take(i + 1)) is None {
                lemma_folders_prefix(branches, i + 1);
            }
        }
        let key: usize = match parse_usize(entry.key.as_str()) {
            Some(key) => key,
            None => {
                return None;
            },
        };
        let node: &Node = match single_value(entry) {
            Some(node) => node,
            None => {
                return None;
            },
        };
        let folder: LibraryFolder = match decode_folder(node) {
            Some(folder) => folder,
            None => {
                return None;
            },
        };
        proof {
            assert(folder_views(map@.insert(key, folder)) =~= folder_views(map@).insert(
                key,
                folder@,
            ));
        }
        map.insert(key, folder);
        i = i + 1;
    }
    proof {
        assert(branches.take(i as int) =~= branches);
    }
    Some(LibraryFolders(map))
}

/// Decodes the list of Steam's libraries from its document.
pub fn decode_library_folders(doc: &Node) -> (r: Result<LibraryFolders, DecodeError>)
    ensures
        match library_folders_of(doc.model()) {
            Ok(m) => r is Ok && r->Ok_0@ == m,
            Err(e) => r is Err && r->Err_0@ == e,
        },
{
    match block_entries(doc) {
        None => Err(DecodeError::NotARecord),
        Some(entries) => match decode_folders(entries) {
            Some(folders) => Ok(folders),
            None => Err(DecodeError::Invalid("libraryfolders")),
        },
    }
}

/// The depots written under `key`.
pub fn field_depots(entries: &Vec<Entry>, key: &str) -> (r: Field<HashMap<u64, InstalledDepot>>)
    ensures
        match depots_field(entry_models(entries@), key@) {
            Field::Absent => r is Absent,
            Field::Malformed => r is Malformed,
            Field::Value(m) => r is Value && r->Value_0@ == m,
        },
{
    match field_block(entries, key) {
        Field::Absent => Field::Absent,
        Field::Malformed => Field::Malformed,
        Field::Value(inner) => match decode_depots(inner) {
            Some(m) => Field::Value(m),
            None => Field::Malformed,
        },
    }
}

/// The shared depots written under `key`.
pub fn field_shared(entries: &Vec<Entry>, key: &str) -> (r: Field<Vec<(String, String)>>)
    ensures
        match shared_field(entry_models(entries@), key@) {
            Field::Absent => r is Absent,
            Field::Malformed => r is Malformed,
            Field::Value(pairs) => r is Value && pair_views(r->Value_0@) == pairs,
        },
{
    match field_block(entries, key) {
        Field::Absent => Field::Absent,
        Field::Malformed => Field::Malformed,
        Field::Value(inner) => match decode_shared(inner) {
            Some(pairs) => Field::Value(pairs),
            None => Field::Malformed,
        },
    }
}

/// The depots that an app must have under `key`.
pub open spec fn required_depots(branches: Seq<Branch>, key: Seq<char>) -> Result<
    Map<u64, InstalledDepot>,
    Failure,
> {
    required(depots_field(branches, key), key)
}

/// The shared depots that an app may have under `key`.
pub open spec fn optional_shared(branches: Seq<Branch>, key: Seq<char>) -> Result<
    Option<Seq<(Seq<char>, Seq<char>)>>,
    Failure,
> {
    optional(shared_field(branches, key), key)
}

/// Reads the depots that an app must have under `name`.
pub fn need_depots(entries: &Vec<Entry>, name: &'static str) -> (r: Result<
    HashMap<u64, InstalledDepot>,
    DecodeError,
>)
    ensures
        match required_depots(entry_models(entries@), name@) {
            Ok(depots) => r is Ok && r->Ok_0@ == depots,
            Err(e) => r is Err && r->Err_0@ == e,
        },
{
    require(field_depots(entries, name), name)
}

/// Reads the shared depots that an app may have under `name`.
pub fn maybe_shared(entries: &Vec<Entry>, name: &'static str) -> (r: Result<
    Option<Vec<(String, String)>>,
    DecodeError,
>)
    ensures
        match optional_shared(entry_models(entries@), name@) {
            Ok(shared) => r is Ok && shared_view(r->Ok_0) == shared,
            Err(e) => r is Err && r->Err_0@ == e,
        },
{
    permit(field_shared(entries, name), name)
}

/// Decodes the state of an app from its document. The two paths are left empty.
pub fn decode_app_state(doc: &Node) -> (r: Result<AppState, DecodeError>)
    ensures
        match app_state_of(doc.model()) {
            Ok(app) => r is Ok && r->Ok_0@ == app,
            Err(e) => r is Err && r->Err_0@ == e,
        },
{
    let entries = match block_entries(doc) {
        Some(entries) => entries,
        None => {
            return Err(DecodeError::NotARecord);
        },
    };
    let appid = need_u64(entries, "appid")?;
    let universe = need_u64(entries, "universe")?;
    let LauncherPath = maybe_text(entries, "LauncherPath")?;
    let name = need_text(entries, "name")?;
    let StateFlags = need_u64(entries, "StateFlags")?;
    let installdir = need_text(entries, "installdir")?;
    let LastUpdated = need_u64(entries, "LastUpdated")?;
    let SizeOnDisk = need_usize(entries, "SizeOnDisk")?;
    let StagingSize = need_usize(entries, "StagingSize")?;
    let buildid = need_u64(entries, "buildid")?;
    let LastOwner = need_u64(entries, "LastOwner")?;
    let UpdateResult = maybe_u64(entries, "UpdateResult")?;
    let BytesToDownload = maybe_usize(entries, "BytesToDownload")?;
    let BytesDownloaded = maybe_usize(entries, "BytesDownloaded")?;
    let BytesToStage = maybe_usize(entries, "BytesToStage")?;
    let BytesStaged = maybe_usize(entries, "BytesStaged")?;
    let TargetBuildID = maybe_usize(entries, "TargetBuildID")?;
    let AutoUpdateBehavior = need_u64(entries, "AutoUpdateBehavior")?;
    let AllowOtherDownloadsWhileRunning = need_flag(entries, "AllowOtherDownloadsWhileRunning")?;
    let ScheduledAutoUpdate = need_u64(entries, "ScheduledAutoUpdate")?;
    let InstalledDepots = need_depots(entries, "InstalledDepots")?;
    let SharedDepots = maybe_shared(entries, "SharedDepots")?;
    Ok(AppState {
        appid,
        universe,
        LauncherPath,
        name,
        StateFlags,
        installdir,
        LastUpdated,
        SizeOnDisk,
        StagingSize,
        buildid,
        LastOwner,
        UpdateResult,
        BytesToDownload,
        BytesDownloaded,
        BytesToStage,
        BytesStaged,
        TargetBuildID,
        AutoUpdateBehavior,
        AllowOtherDownloadsWhileRunning,
        ScheduledAutoUpdate,
        InstalledDepots,
        SharedDepots,
        library_path: String::new(),
        game_path: String::new(),
    })
}

/// What the document written in `text` lists as libraries; nothing where `text` is
/// no document.
pub open spec fn library_folders_in(text: Seq<char>) -> Option<
    Result<Map<usize, LibraryFolderView>, Failure>,
> {
    match parsed_root(text) {
        None => None,
        Some(tree) => Some(library_folders_of(tree)),
    }
}

/// What the document written in `text` describes as an app; nothing where `text` is
/// no document.
pub open spec fn app_state_in(text: Seq<char>) -> Option<Result<AppStateView, Failure>> {
    match parsed_root(text) {
        None => None,
        Some(tree) => Some(app_state_of(tree)),
    }
}

/// Reads the list of Steam's libraries from the text of its document.
///
/// What comes back other than a syntax error is what the document decodes to. A
/// syntax error says that the parser gave up; it may do so on a text that is a
/// document, where it runs out of stack.
pub fn parse_library_folders(text: &str) -> (r: Result<LibraryFolders, DecodeError>)
    ensures
        r is Ok ==> library_folders_in(text@) == Some(
            Ok::<Map<usize, LibraryFolderView>, Failure>(r->Ok_0@),
        ),
        r is Err ==> r->Err_0@ is Syntax || library_folders_in(text@) == Some(
            Err::<Map<usize, LibraryFolderView>, Failure>(r->Err_0@),
        ),
{
    match parse_document(text) {
        Err(message) => Err(DecodeError::Syntax(message)),
        Ok(doc) => decode_library_folders(&doc),
    }
}

/// Reads the state of an app from the text of its document.
///
/// What comes back other than a syntax error is what the document decodes to. A
/// syntax error says that the parser gave up; it may do so on a text that is a
/// document, where it runs out of stack.
pub fn parse_app_state(text: &str) -> (r: Result<AppState, DecodeError>)
    ensures
        r is Ok ==> app_state_in(text@) == Some(Ok::<AppStateView, Failure>(r->Ok_0@)),
        r is Err ==> r->Err_0@ is Syntax || app_state_in(text@) == Some(
            Err::<AppStateView, Failure>(r->Err_0@),
        ),
{
    match parse_document(text) {
        Err(message) => Err(DecodeError::Syntax(message)),
        Ok(doc) => decode_app_state(&doc),
    }
}

/// Where the list of libraries lies, given the directory that Steam is installed in.
pub open spec fn library_folders_file(steam_path: Seq<char>) -> Seq<char> {
    joined(steam_path, LIBRARY_FOLDERS_FILE@)
}

/// The directory of a library that holds the documents of its apps.
pub open spec fn steamapps_dir(library_path: Seq<char>) -> Seq<char> {
    joined(library_path, "steamapps"@)
}

/// Where the document of the app `app_id` lies in a library.
pub open spec fn manifest_file(library_path: Seq<char>, app_id: u32) -> Seq<char> {
    joined(
        steamapps_dir(library_path),
        "appmanifest_"@ + decimal_text(app_id as nat) + ".acf"@,
    )
}

/// The directory of an app that is installed in `installdir` within a library.
pub open spec fn game_dir(library_path: Seq<char>, installdir: Seq<char>) -> Seq<char> {
    joined(joined(steamapps_dir(library_path), "common"@), installdir)
}

/// Spelled out: the directory of an app is the library's directory, then
/// `\steamapps\common\`, then the app's install directory, where the library's
/// directory does not itself end in a separator and the install directory is a plain
/// component, with no prefix or root of its own.
pub proof fn lemma_game_dir_spelled_out(library_path: Seq<char>, installdir: Seq<char>)
    requires
        library_path.len() > 0,
        !is_separator(library_path.last()),
        !has_prefix(installdir),
        !is_rooted(installdir),
    ensures
        game_dir(library_path, installdir) == library_path + "\\steamapps\\common\\"@ + installdir,
{
    reveal_strlit("steamapps");
    reveal_strlit("common");
    reveal_strlit("\\steamapps\\common\\");
    let steamapps = joined(library_path, "steamapps"@);
    let common = joined(steamapps, "common"@);
    assert("steamapps"@[0] == 's' && "steamapps"@[1] == 't');
    assert("common"@[0] == 'c' && "common"@[1] == 'o');
    assert(steamapps.last() == 's');
    assert(common.last() == 'n');
    assert(game_dir(library_path, installdir) =~= library_path + "\\steamapps\\common\\"@
        + installdir);
}

/// Where the list of libraries lies, given the directory that Steam is installed in.
pub fn library_folders_path(steam_path: &str) -> (r: String)
    ensures
        r@ == library_folders_file(steam_path@),
{
    join_path(steam_path, LIBRARY_FOLDERS_FILE)
}

/// Where the document of the app `app_id` lies in the library at `library_path`.
pub fn manifest_path(library_path: &str, app_id: u32) -> (r: String)
    ensures
        r@ == manifest_file(library_path@, app_id),
{
    let steamapps: String = join_path(library_path, "steamapps");
    let mut name: String = String::from_str("appmanifest_");
    let id: String = number_text(app_id as u64);
    name.append(id.as_str());
    name.append(".acf");
    join_path(steamapps.as_str(), name.as_str())
}

/// An app as found in the library at `library_path`: the app with its two paths set.
pub open spec fn installed(app: AppStateView, library_path: Seq<char>) -> AppStateView {
    AppStateView {
        library_path: library_path,
        game_path: game_dir(library_path, app.installdir),
        ..app
    }
}

/// Records where an app was found: sets its library and the directory of the app
/// itself, which is `steamapps\common\<installdir>` within the library.
pub fn install(app: AppState, library_path: &str) -> (r: AppState)
    ensures
        r@ == installed(app@, library_path@),
{
    let steamapps: String = join_path(library_path, "steamapps");
    let common: String = join_path(steamapps.as_str(), "common");
    let game_path: String = join_path(common.as_str(), app.installdir.as_str());
    let mut app = app;
    app.library_path = library_path.to_owned();
    app.game_path = game_path;
    app
}

/// What was found of one app that a library lists.
#[derive(Debug, Clone)]
pub struct ManifestRead {
    /// The library that lists the app.
    pub library_path: String,
    /// The text of the app's document, where the file could be opened.
    pub manifest: Option<String>,
}

/// The app that a read document describes: none where the file could not be opened
/// or its text does not describe an app.
pub open spec fn app_read(read: ManifestRead) -> Option<AppStateView> {
    match read.manifest {
        None => None,
        Some(text) => match app_state_in(text@) {
            Some(Ok(app)) => Some(installed(app, read.library_path@)),
            _ => None,
        },
    }
}

/// Whether `apps` were gathered from `reads`: each app is the one that a read
/// describes, the apps stand in the order of their reads, and no read gave two.
pub open spec fn gathered(reads: Seq<ManifestRead>, apps: Seq<AppStateView>) -> bool
    decreases reads.len(),
{
    if reads.len() == 0 {
        apps.len() == 0
    } else {
        ||| gathered(reads.drop_last(), apps)
        ||| (apps.len() > 0 && app_read(reads.last()) == Some(apps.last()) && gathered(
            reads.drop_last(),
            apps.drop_last(),
        ))
    }
}

/// Reads that describe no app give no app: none without text, none whose text does
/// not decode.
pub proof fn lemma_nothing_gathered_from_nothing(reads: Seq<ManifestRead>, apps: Seq<AppStateView>)
    requires
        gathered(reads, apps),
        forall|i: int| 0 <= i < reads.len() ==> app_read(#[trigger] reads[i]) is None,
    ensures
        apps.len() == 0,
    decreases reads.len(),
{
    if reads.len() > 0 {
        assert(app_read(reads.last()) is None);
        assert forall|i: int| 0 <= i < reads.drop_last().len() implies app_read(
            #[trigger] reads.drop_last()[i],
        ) is None by {
            assert(reads.drop_last()[i] == reads[i]);
        }
        lemma_nothing_gathered_from_nothing(reads.drop_last(), apps);
    }
}

/// The views of a list of apps.
pub open spec fn app_views(apps: Seq<AppState>) -> Seq<AppStateView> {
    apps.map_values(|a: AppState| a@)
}

/// What was found of one app that a library lists, once its document went through
/// the parser.
#[derive(Debug)]
pub struct DocumentRead {
    /// The library that lists the app.
    pub library_path: String,
    /// The document of the app: nothing where the file could not be opened, the
    /// parser's message where the text could not be parsed.
    pub document: Option<Result<Node, String>>,
}

/// The app that a parsed document gives: none where there is no document or it does
/// not describe an app.
pub open spec fn app_decoded(read: DocumentRead) -> Option<AppStateView> {
    match read.document {
        Some(Ok(doc)) => match app_state_of(doc.model()) {
            Ok(app) => Some(installed(app, read.library_path@)),
            Err(_) => None,
        },
        _ => None,
    }
}

/// The apps that a list of parsed documents gives, in the order of the list.
pub open spec fn apps_decoded(reads: Seq<DocumentRead>) -> Seq<AppStateView>
    decreases reads.len(),
{
    if reads.len() == 0 {
        Seq::<AppStateView>::empty()
    } else {
        let before = apps_decoded(reads.drop_last());
        match app_decoded(reads.last()) {
            Some(app) => before.push(app),
            None => before,
        }
    }
}

/// Collects the installed apps from their parsed documents.
///
/// A document that is missing, could not be parsed or does not describe an app
/// leaves that app out and nothing else.
pub fn apps_of_documents(reads: &Vec<DocumentRead>) -> (apps: Vec<AppState>)
    ensures
        app_views(apps@) == apps_decoded(reads@),
{
    let mut apps: Vec<AppState> = Vec::new();
    let mut i: usize = 0;
    proof {
        assert(reads@.take(0) =~= Seq::<DocumentRead>::empty());
        assert(app_views(apps@) =~= apps_decoded(reads@.take(0)));
    }
    while i < reads.len()
        invariant
            0 <= i <= reads@.len(),
            app_views(apps@) == apps_decoded(reads@.take(i as int)),
        decreases reads@.len() - i,
    {
        let read: &DocumentRead = &reads[i];
        proof {
            assert(reads@.take(i + 1).drop_last() =~= reads@.take(i as int));
            assert(reads@.take(i + 1).last() == *read);
        }
        match &read.document {
            Some(Ok(doc)) => match decode_app_state(doc) {
                Ok(app) => {
                    let app = install(app, read.library_path.as_str());
                    proof {
                        assert(app_views(apps@.push(app)) =~= app_views(apps@).push(app@));
                    }
                    apps.push(app);
                },
                Err(_) => {},
            },
            _ => {},
        }
        i = i + 1;
    }
    proof {
        assert(reads@.take(i as int) =~= reads@);
    }
    apps
}

/// Whether `documents` are what parsing made of `reads`: one for each read, for the
/// same library; none where the read has no text; and a document that was parsed is
/// the one that the text of its read denotes.
pub open spec fn parsed_from(reads: Seq<ManifestRead>, documents: Seq<DocumentRead>) -> bool {
    &&& documents.len() == reads.len()
    &&& forall|i: int|
        0 <= i < reads.len() ==> {
            let read = #[trigger] reads[i];
            let found = documents[i];
            &&& found.library_path@ == read.library_path@
            &&& read.manifest is None ==> found.document is None
            &&& found.document matches Some(Ok(doc)) ==> read.manifest is Some && parsed_root(
                read.manifest->0@,
            ) == Some(doc.model())
        }
}

/// What parsed documents give was gathered from the reads that they were parsed from.
pub proof fn lemma_decoded_is_gathered(reads: Seq<ManifestRead>, documents: Seq<DocumentRead>)
    requires
        parsed_from(reads, documents),
    ensures
        gathered(reads, apps_decoded(documents)),
    decreases reads.len(),
{
    if reads.len() > 0 {
        let read = reads.last();
        let found = documents.last();
        assert(read == reads[reads.len() - 1] && found == documents[reads.len() - 1]);
        assert(parsed_from(reads.drop_last(), documents.drop_last())) by {
            assert forall|i: int| 0 <= i < reads.drop_last().len() implies {
                let read = #[trigger] reads.drop_last()[i];
                let found = documents.drop_last()[i];
                &&& found.library_path@ == read.library_path@
                &&& read.manifest is None ==> found.document is None
                &&& found.document matches Some(Ok(doc)) ==> read.manifest is Some
                    && parsed_root(read.manifest->0@) == Some(doc.model())
            } by {
                assert(reads.drop_last()[i] == reads[i]);
                assert(documents.drop_last()[i] == documents[i]);
            }
        }
        lemma_decoded_is_gathered(reads.drop_last(), documents.drop_last());
        if app_decoded(found) is Some {
            let apps = apps_decoded(documents);
            assert(apps.drop_last() =~= apps_decoded(documents.drop_last()));
            assert(app_read(read) == Some(apps.last()));
        }
    }
}

/// Parses the documents that were read.
fn parse_reads(reads: &Vec<ManifestRead>) -> (documents: Vec<DocumentRead>)
    ensures
        parsed_from(reads@, documents@),
{
    let mut documents: Vec<DocumentRead> = Vec::new();
    let mut i: usize = 0;
    while i < reads.len()
        invariant
            0 <= i <= reads@.len(),
            parsed_from(reads@.take(i as int), documents@),
        decreases reads@.len() - i,
    {
        let read: &ManifestRead = &reads[i];
        let document: Option<Result<Node, String>> = match &read.manifest {
            Some(text) => Some(parse_document(text.as_str())),
            None => None,
        };
        let found = DocumentRead { library_path: read.library_path.clone(), document };
        let ghost before = documents@;
        documents.push(found);
        proof {
            let now = reads@.take(i + 1);
            assert forall|k: int| 0 <= k < now.len() implies {
                let read = #[trigger] now[k];
                let found = documents@[k];
                &&& found.library_path@ == read.library_path@
                &&& read.manifest is None ==> found.document is None
                &&& found.document matches Some(Ok(doc)) ==> read.manifest is Some
                    && parsed_root(read.manifest->0@) == Some(doc.model())
            } by {
                if k < i {
                    assert(now[k] == reads@.take(i as int)[k]);
                    assert(documents@[k] == before[k]);
                }
            }
        }
        i = i + 1;
    }
    proof {
        assert(reads@.take(i as int) =~= reads@);
    }
    documents
}

/// Collects the installed apps from the documents that were read for them.
///
/// Every app that comes back is the one that a read describes, with its paths set,
/// and the apps come in the order of their reads. A read without text, or with text
/// that does not describe an app, gives none; so does one on which the parser gave
/// up. Which apps parsed documents give is fixed by [`apps_of_documents`].
pub fn collect_apps(reads: &Vec<ManifestRead>) -> (apps: Vec<AppState>)
    ensures
        gathered(reads@, app_views(apps@)),
{
    let documents = parse_reads(reads);
    proof {
        lemma_decoded_is_gathered(reads@, documents@);
    }
    apps_of_documents(&documents)
}

/// What was read of Steam's state, stage by stage. A stage that failed leaves the
/// later ones empty.
#[derive(Debug, Clone)]
pub struct SteamFiles {
    /// The directory that Steam is installed in, where the registry names it.
    pub steam_path: Option<String>,
    /// The text of the list of libraries, where the file at
    /// [`library_folders_path`] could be read.
    pub library_folders: Option<String>,
    /// What was found for each of the [`manifest_requests`] of that list.
    pub manifests: Vec<ManifestRead>,
}

/// What was read of Steam's state, once the texts went through the parser.
#[derive(Debug)]
pub struct SteamDocuments {
    /// Whether the registry names the directory that Steam is installed in.
    pub root_found: bool,
    /// The list of libraries: nothing where the file could not be read, the
    /// parser's message where the text could not be parsed.
    pub library_folders: Option<Result<Node, String>>,
    /// The documents of the apps that the libraries list.
    pub manifests: Vec<DocumentRead>,
}

/// Why Steam's apps could not be scanned.
#[derive(Debug, Clone, PartialEq, Eq)]
pub enum SteamError {
    /// The registry does not name the directory that Steam is installed in.
    RootUnavailable,
    /// The list of libraries could not be read.
    LibraryFoldersUnavailable,
    /// The list of libraries is malformed.
    LibraryFoldersMalformed(DecodeError),
}

/// A [`SteamError`] as a mathematical value.
pub enum SteamFailure {
    RootUnavailable,
    LibraryFoldersUnavailable,
    LibraryFoldersMalformed(Failure),
}

impl View for SteamError {
    type V = SteamFailure;

    open spec fn view(&self) -> SteamFailure {
        match *self {
            SteamError::RootUnavailable => SteamFailure::RootUnavailable,
            SteamError::LibraryFoldersUnavailable => SteamFailure::LibraryFoldersUnavailable,
            SteamError::LibraryFoldersMalformed(e) => SteamFailure::LibraryFoldersMalformed(e@),
        }
    }
}

/// The outcome of a scan: the first stage that failed, or else the apps that the
/// documents give. An app whose document is missing or malformed fails nothing.
pub open spec fn scanned(documents: SteamDocuments) -> Result<Seq<AppStateView>, SteamFailure> {
    if !documents.root_found {
        Err(SteamFailure::RootUnavailable)
    } else {
        match documents.library_folders {
            None => Err(SteamFailure::LibraryFoldersUnavailable),
            Some(Err(message)) => Err(
                SteamFailure::LibraryFoldersMalformed(Failure::Syntax(message@)),
            ),
            Some(Ok(doc)) => match library_folders_of(doc.model()) {
                Err(e) => Err(SteamFailure::LibraryFoldersMalformed(e)),
                Ok(_) => Ok(apps_decoded(documents.manifests@)),
            },
        }
    }
}

/// Turns the parsed documents of Steam's state into the installed apps.
///
/// Only a missing install directory and a missing or malformed list of libraries
/// fail the scan; whatever is wrong with the document of one app leaves that app out.
pub fn apps_in_documents(documents: &SteamDocuments) -> (r: Result<Vec<AppState>, SteamError>)
    ensures
        match scanned(*documents) {
            Ok(apps) => r is Ok && app_views(r->Ok_0@) == apps,
            Err(e) => r is Err && r->Err_0@ == e,
        },
{
    if !documents.root_found {
        return Err(SteamError::RootUnavailable);
    }
    match &documents.library_folders {
        None => Err(SteamError::LibraryFoldersUnavailable),
        Some(Err(message)) => Err(
            SteamError::LibraryFoldersMalformed(DecodeError::Syntax(message.clone())),
        ),
        Some(Ok(doc)) => match decode_library_folders(doc) {
            Err(e) => Err(SteamError::LibraryFoldersMalformed(e)),
            Ok(_) => Ok(apps_of_documents(&documents.manifests)),
        },
    }
}

/// Turns what was read of Steam's state into the installed apps.
///
/// The texts go through the parser; what follows is fixed by
/// [`apps_in_documents`]. The first two failures come exactly where a stage was not
/// read. Of the rest the contract says what holds of whatever the parser returned:
/// a list of libraries that is reported as malformed does not decode, or the parser
/// gave up on it; a scan that succeeds had a list that decodes; and the apps were
/// [`gathered`] from the reads.
pub fn get_all_apps(files: &SteamFiles) -> (r: Result<Vec<AppState>, SteamError>)
    ensures
        files.steam_path is None <==> r is Err && r->Err_0@ is RootUnavailable,
        files.steam_path is Some && files.library_folders is None <==> r is Err && r->Err_0@
            is LibraryFoldersUnavailable,
        r is Err && r->Err_0@ is LibraryFoldersMalformed ==> ({
            let e = r->Err_0@->LibraryFoldersMalformed_0;
            e is Syntax || library_folders_in(files.library_folders->0@) == Some(
                Err::<Map<usize, LibraryFolderView>, Failure>(e),
            )
        }),
        r is Ok ==> library_folders_in(files.library_folders->0@) is Some && library_folders_in(
            files.library_folders->0@,
        )->0 is Ok,
        r is Ok ==> gathered(files.manifests@, app_views(r->Ok_0@)),
{
    if files.steam_path.is_none() {
        return Err(SteamError::RootUnavailable);
    }
    let text: &String = match &files.library_folders {
        Some(text) => text,
        None => {
            return Err(SteamError::LibraryFoldersUnavailable);
        },
    };
    let library_folders = parse_document(text.as_str());
    let manifests = parse_reads(&files.manifests);
    proof {
        lemma_decoded_is_gathered(files.manifests@, manifests@);
    }
    let documents = SteamDocuments {
        root_found: true,
        library_folders: Some(library_folders),
        manifests,
    };
    apps_in_documents(&documents)
}

/// One document to read: that of an app that a library lists.
#[derive(Debug, Clone)]
pub struct ManifestRequest {
    /// The index of the library.
    pub library: usize,
    /// The directory of the library.
    pub library_path: String,
    /// The id of the app.
    pub app_id: u32,
    /// Where the document of the app lies.
    pub manifest_path: String,
}

/// Whether a request is for an app that one of the libraries lists, and names the
/// library's directory and the app's document as they are.
pub open spec fn is_request(
    folders: Map<usize, LibraryFolderView>,
    request: ManifestRequest,
) -> bool {
    &&& folders.contains_key(request.library)
    &&& folders[request.library].apps.contains_key(request.app_id)
    &&& request.library_path@ == folders[request.library].path
    &&& request.manifest_path@ == manifest_file(folders[request.library].path, request.app_id)
}

/// The keys of a map, each once, in the order in which the map hands them out.
fn map_keys<K: Copy + Eq + std::hash::Hash, V>(map: &HashMap<K, V>) -> (keys: Vec<K>)
    requires
        vstd::std_specs::hash::obeys_key_model::<K>(),
    ensures
        keys@.no_duplicates(),
        forall|k: K| keys@.contains(k) <==> map@.contains_key(k),
{
    let mut keys: Vec<K> = Vec::new();
    let ghost all: Seq<K> = vstd::std_specs::hash::spec_keys_iter(map).remaining().unref();
    for key in it: map.keys()
        invariant
            it.seq().unref() == all,
            keys@ == all.take(it.index() as int),
    {
        proof {
            assert(all.take(it.index() + 1) =~= all.take(it.index() as int).push(*key));
        }
        keys.push(*key);
    }
    proof {
        let listed = vstd::std_specs::hash::spec_keys_iter(map).remaining();
        assert(all.take(all.len() as int) =~= all);
        assert(keys@ == all);
        assert forall|i: int, j: int|
            0 <= i < all.len() && 0 <= j < all.len() && i != j implies all[i] != all[j] by {
            assert(listed[i] != listed[j]);
        }
        assert forall|k: K| keys@.contains(k) <==> map@.contains_key(k) by {
            assert(all.to_set().contains(k) <==> all.contains(k));
        }
    }
    keys
}

/// Whether one of the first `n` items of `s` is `x`.
pub open spec fn within<T>(s: Seq<T>, n: int, x: T) -> bool {
    exists|k: int| 0 <= k < n && k < s.len() && s[k] == x
}

/// Whether one of the requests is for the app `app_id` of the library `library`.
pub open spec fn covered(requests: Seq<ManifestRequest>, library: usize, app_id: u32) -> bool {
    exists|i: int|
        0 <= i < requests.len() && (#[trigger] requests[i]).library == library && requests[i].app_id
            == app_id
}

/// Whether no two of the requests are for the same app of the same library.
pub open spec fn distinct(requests: Seq<ManifestRequest>) -> bool {
    forall|i: int, j: int|
        0 <= i < j < requests.len() ==> !((#[trigger] requests[i]).library == (
        #[trigger] requests[j]).library && requests[i].app_id == requests[j].app_id)
}

/// Lists the documents to read: one for each app that a library lists, once.
///
/// The order is that in which the maps hand out their keys; it is not determined.
pub fn manifest_requests(folders: &LibraryFolders) -> (requests: Vec<ManifestRequest>)
    ensures
        forall|i: int| 0 <= i < requests@.len() ==> is_request(folders@, #[trigger] requests@[i]),
        forall|library: usize, app_id: u32|
            folders@.contains_key(library) && folders@[library].apps.contains_key(app_id)
                ==> covered(requests@, library, app_id),
        distinct(requests@),
{
    let libraries: Vec<usize> = map_keys(&folders.0);
    let mut requests: Vec<ManifestRequest> = Vec::new();
    let mut a: usize = 0;
    while a < libraries.len()
        invariant
            0 <= a <= libraries@.len(),
            libraries@.no_duplicates(),
            forall|k: usize| libraries@.contains(k) <==> folders.0@.contains_key(k),
            forall|i: int|
                0 <= i < requests@.len() ==> is_request(folders@, #[trigger] requests@[i]),
            forall|i: int|
                0 <= i < requests@.len() ==> within(
                    libraries@,
                    a as int,
                    (#[trigger] requests@[i]).library,
                ),
            forall|k: int, app_id: u32|
                0 <= k < a && folders@[libraries@[k]].apps.contains_key(app_id)
                    ==> #[trigger] covered(requests@, libraries@[k], app_id),
            distinct(requests@),
        decreases libraries@.len() - a,
    {
        let library: usize = libraries[a];
        assert(libraries@.contains(library));
        let folder: &LibraryFolder = folders.0.get(&library).unwrap();
        assert(folders@[library] == folder@);
        let apps: Vec<u32> = map_keys(&folder.apps);
        let mut b: usize = 0;
        while b < apps.len()
            invariant
                0 <= a < libraries@.len(),
                library == libraries@[a as int],
                libraries@.no_duplicates(),
                folders@.contains_key(library),
                folders@[library] == folder@,
                0 <= b <= apps@.len(),
                apps@.no_duplicates(),
                forall|k: u32| apps@.contains(k) <==> folder.apps@.contains_key(k),
                forall|i: int|
                    0 <= i < requests@.len() ==> is_request(folders@, #[trigger] requests@[i]),
                forall|i: int|
                    0 <= i < requests@.len() ==> within(
                        libraries@,
                        a as int,
                        (#[trigger] requests@[i]).library,
                    ) || (requests@[i].library == library && within(
                        apps@,
                        b as int,
                        requests@[i].app_id,
                    )),
                forall|k: int, app_id: u32|
                    0 <= k < a && folders@[libraries@[k]].apps.contains_key(app_id)
                        ==> #[trigger] covered(requests@, libraries@[k], app_id),
                forall|k: int| 0 <= k < b ==> covered(requests@, library, #[trigger] apps@[k]),
                distinct(requests@),
            decreases apps@.len() - b,
        {
            let app_id: u32 = apps[b];
            assert(apps@.contains(app_id));
            let request = ManifestRequest {
                library,
                library_path: folder.path.clone(),
                app_id,
                manifest_path: manifest_path(folder.path.as_str(), app_id),
            };
            let ghost before = requests@;
            requests.push(request);
            proof {
                let now = requests@;
                let last = before.len() as int;
                assert(now[last] == request);
                assert(is_request(folders@, request));
                assert forall|i: int| 0 <= i < now.len() implies within(
                    libraries@,
                    a as int,
                    (#[trigger] now[i]).library,
                ) || (now[i].library == library && within(apps@, b + 1, now[i].app_id)) by {
                    if i < last {
                        assert(now[i] == before[i]);
                        if !within(libraries@, a as int, before[i].library) {
                            let k = choose|k: int|
                                0 <= k < b && k < apps@.len() && apps@[k] == before[i].app_id;
                            assert(0 <= k < b + 1 && apps@[k] == now[i].app_id);
                        }
                    } else {
                        assert(apps@[b as int] == now[i].app_id);
                    }
                }
                assert forall|k: int, other: u32|
                    0 <= k < a && folders@[libraries@[k]].apps.contains_key(
                        other,
                    ) implies #[trigger] covered(now, libraries@[k], other) by {
                    assert(covered(before, libraries@[k], other));
                    let i = choose|i: int|
                        0 <= i < before.len() && (#[trigger] before[i]).library == libraries@[k]
                            && before[i].app_id == other;
                    assert(now[i] == before[i]);
                }
                assert forall|k: int| 0 <= k < b + 1 implies covered(
                    now,
                    library,
                    #[trigger] apps@[k],
                ) by {
                    if k < b {
                        assert(covered(before, library, apps@[k]));
                        let i = choose|i: int|
                            0 <= i < before.len() && (#[trigger] before[i]).library == library
                                && before[i].app_id == apps@[k];
                        assert(now[i] == before[i]);
                    } else {
                        assert(now[last].library == library && now[last].app_id == apps@[k]);
                    }
                }
                assert forall|i: int, j: int| 0 <= i < j < now.len() implies !((
                #[trigger] now[i]).library == (#[trigger] now[j]).library && now[i].app_id
                    == now[j].app_id) by {
                    if j < last {
                        assert(now[i] == before[i] && now[j] == before[j]);
                    } else {
                        assert(now[i] == before[i]);
                        if within(libraries@, a as int, before[i].library) {
                            let k = choose|k: int|
                                0 <= k < a && k < libraries@.len() && libraries@[k]
                                    == before[i].library;
                            assert(libraries@[k] != libraries@[a as int]);
                        } else {
                            let k = choose|k: int|
                                0 <= k < b && k < apps@.len() && apps@[k] == before[i].app_id;
                            assert(apps@[k] != apps@[b as int]);
                        }
                    }
                }
            }
            b = b + 1;
        }
        proof {
            assert forall|i: int| 0 <= i < requests@.len() implies within(
                libraries@,
                a + 1,
                (#[trigger] requests@[i]).library,
            ) by {
                if within(libraries@, a as int, requests@[i].library) {
                    let k = choose|k: int|
                        0 <= k < a && k < libraries@.len() && libraries@[k]
                            == requests@[i].library;
                    assert(0 <= k < a + 1 && libraries@[k] == requests@[i].library);
                } else {
                    assert(libraries@[a as int] == requests@[i].library);
                }
            }
            assert forall|k: int, app_id: u32|
                0 <= k < a + 1 && folders@[libraries@[k]].apps.contains_key(
                    app_id,
                ) implies #[trigger] covered(requests@, libraries@[k], app_id) by {
                if k == a {
                    assert(apps@.contains(app_id));
                    let n = choose|n: int| 0 <= n < apps@.len() && apps@[n] == app_id;
                    assert(covered(requests@, library, apps@[n]));
                }
            }
        }
        a = a + 1;
    }
    proof {
        assert forall|library: usize, app_id: u32|
            folders@.contains_key(library) && folders@[library].apps.contains_key(
                app_id,
            ) implies covered(requests@, library, app_id) by {
            assert(libraries@.contains(library));
            let k = choose|k: int| 0 <= k < libraries@.len() && libraries@[k] == library;
            assert(covered(requests@, libraries@[k], app_id));
        }
    }
    requests
}

} // verus!
