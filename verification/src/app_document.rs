//! An app written back as a document, and the law that ties writing to reading.
//!
//! Nothing here runs: the written document is a mathematical value. It shows that
//! the fields of an app hold all that reading takes from a document.

use crate::decode::{Failure, Field};
use crate::keyvalues::{
    block_field, folded, held, lookup, occurrences, same_key, text_field, unsigned_field, Branch,
    Tree,
};
use crate::number::{decimal_text, lemma_decimal_text_reads_back, parse_flag};
use crate::steam::{
    app_state_failure, app_state_fields, app_state_of, depot_of, depots_field, depots_of,
    distinct_keys, has_key, lemma_shared_keys_distinct, shared_field, shared_of, AppStateView,
    InstalledDepot,
};
use vstd::prelude::*;

verus! {

/// One key with a piece of text under it.
pub open spec fn leaf(key: Seq<char>, text: Seq<char>) -> Seq<Branch> {
    seq![Branch { key: key, values: seq![Tree::Text(text)] }]
}

/// One key with a block under it.
pub open spec fn nested(key: Seq<char>, inner: Seq<Branch>) -> Seq<Branch> {
    seq![Branch { key: key, values: seq![Tree::Block(inner)] }]
}

/// One key with a number under it.
pub open spec fn number(key: Seq<char>, n: nat) -> Seq<Branch> {
    leaf(key, decimal_text(n))
}

/// A flag as it is written: `"1"` for true, `"0"` for false.
pub open spec fn flag_text(b: bool) -> Seq<char> {
    if b {
        seq!['1']
    } else {
        seq!['0']
    }
}

/// A depot written as a block.
pub open spec fn depot_tree(depot: InstalledDepot) -> Tree {
    Tree::Block(number("manifest"@, depot.manifest as nat) + number("size"@, depot.size as nat))
}

/// The depots of an app written as the entries of a block, one per depot.
pub open spec fn depot_branches(depots: Map<u64, InstalledDepot>) -> Seq<Branch>
    decreases depots.dom().len(),
    when depots.dom().finite()
{
    if depots.dom().len() == 0 {
        Seq::<Branch>::empty()
    } else {
        let id = depots.dom().choose();
        depot_branches(depots.remove(id)).push(
            Branch { key: decimal_text(id as nat), values: seq![depot_tree(depots[id])] },
        )
    }
}

/// Pairs of texts written as the entries of a block, one per pair.
pub open spec fn shared_branches(pairs: Seq<(Seq<char>, Seq<char>)>) -> Seq<Branch> {
    pairs.map_values(
        |p: (Seq<char>, Seq<char>)| Branch { key: p.0, values: seq![Tree::Text(p.1)] },
    )
}

/// The number of fields that an app is written with.
pub open spec fn field_count() -> int {
    22
}

/// The key of the field with the index `i`, in the order of the app's fields.
pub open spec fn field_name(i: int) -> Seq<char> {
    if i == 0 {
        "appid"@
    } else if i == 1 {
        "universe"@
    } else if i == 2 {
        "LauncherPath"@
    } else if i == 3 {
        "name"@
    } else if i == 4 {
        "StateFlags"@
    } else if i == 5 {
        "installdir"@
    } else if i == 6 {
        "LastUpdated"@
    } else if i == 7 {
        "SizeOnDisk"@
    } else if i == 8 {
        "StagingSize"@
    } else if i == 9 {
        "buildid"@
    } else if i == 10 {
        "LastOwner"@
    } else if i == 11 {
        "UpdateResult"@
    } else if i == 12 {
        "BytesToDownload"@
    } else if i == 13 {
        "BytesDownloaded"@
    } else if i == 14 {
        "BytesToStage"@
    } else if i == 15 {
        "BytesStaged"@
    } else if i == 16 {
        "TargetBuildID"@
    } else if i == 17 {
        "AutoUpdateBehavior"@
    } else if i == 18 {
        "AllowOtherDownloadsWhileRunning"@
    } else if i == 19 {
        "ScheduledAutoUpdate"@
    } else if i == 20 {
        "InstalledDepots"@
    } else {
        "SharedDepots"@
    }
}

/// What is written for the field with the index `i`: one entry, or none for an
/// optional field that is unset.
pub open spec fn field_branches(app: AppStateView, i: int) -> Seq<Branch> {
    if i == 0 {
        number("appid"@, app.appid as nat)
    } else if i == 1 {
        number("universe"@, app.universe as nat)
    } else if i == 2 {
        match app.LauncherPath {
            Some(text) => leaf("LauncherPath"@, text),
            None => Seq::<Branch>::empty(),
        }
    } else if i == 3 {
        leaf("name"@, app.name)
    } else if i == 4 {
        number("StateFlags"@, app.StateFlags as nat)
    } else if i == 5 {
        leaf("installdir"@, app.installdir)
    } else if i == 6 {
        number("LastUpdated"@, app.LastUpdated as nat)
    } else if i == 7 {
        number("SizeOnDisk"@, app.SizeOnDisk as nat)
    } else if i == 8 {
        number("StagingSize"@, app.StagingSize as nat)
    } else if i == 9 {
        number("buildid"@, app.buildid as nat)
    } else if i == 10 {
        number("LastOwner"@, app.LastOwner as nat)
    } else if i == 11 {
        match app.UpdateResult {
            Some(n) => number("UpdateResult"@, n as nat),
            None => Seq::<Branch>::empty(),
        }
    } else if i == 12 {
        match app.BytesToDownload {
            Some(n) => number("BytesToDownload"@, n as nat),
            None => Seq::<Branch>::empty(),
        }
    } else if i == 13 {
        match app.BytesDownloaded {
            Some(n) => number("BytesDownloaded"@, n as nat),
            None => Seq::<Branch>::empty(),
        }
    } else if i == 14 {
        match app.BytesToStage {
            Some(n) => number("BytesToStage"@, n as nat),
            None => Seq::<Branch>::empty(),
        }
    } else if i == 15 {
        match app.BytesStaged {
            Some(n) => number("BytesStaged"@, n as nat),
            None => Seq::<Branch>::empty(),
        }
    } else if i == 16 {
        match app.TargetBuildID {
            Some(n) => number("TargetBuildID"@, n as nat),
            None => Seq::<Branch>::empty(),
        }
    } else if i == 17 {
        number("AutoUpdateBehavior"@, app.AutoUpdateBehavior as nat)
    } else if i == 18 {
        leaf("AllowOtherDownloadsWhileRunning"@, flag_text(app.AllowOtherDownloadsWhileRunning))
    } else if i == 19 {
        number("ScheduledAutoUpdate"@, app.ScheduledAutoUpdate as nat)
    } else if i == 20 {
        nested("InstalledDepots"@, depot_branches(app.InstalledDepots))
    } else {
        match app.SharedDepots {
            Some(pairs) => nested("SharedDepots"@, shared_branches(pairs)),
            None => Seq::<Branch>::empty(),
        }
    }
}

/// What is written for the first `n` fields of an app.
pub open spec fn written_fields(app: AppStateView, n: int) -> Seq<Branch>
    decreases n,
{
    if n <= 0 {
        Seq::<Branch>::empty()
    } else {
        written_fields(app, n - 1) + field_branches(app, n - 1)
    }
}

/// An app written as a document: its fields in their order, unset fields left out,
/// the two paths not written.
pub open spec fn app_state_tree(app: AppStateView) -> Tree {
    Tree::Block(written_fields(app, field_count()))
}

/// What tells the keys of the fields apart: the length of a key and its sixth
/// character, without regard to case.
pub open spec fn key_mark(key: Seq<char>) -> int {
    key.len() * 1000 + if key.len() > 5 {
        folded(key[5]) as int
    } else {
        0
    }
}

/// The mark of the key of the field with the index `i`.
pub open spec fn field_mark(i: int) -> int {
    if i == 0 {
        5000
    } else if i == 1 {
        8114
    } else if i == 2 {
        12104
    } else if i == 3 {
        4000
    } else if i == 4 {
        10102
    } else if i == 5 {
        10108
    } else if i == 6 {
        11112
    } else if i == 7 {
        10110
    } else if i == 8 {
        11110
    } else if i == 9 {
        7105
    } else if i == 10 {
        9119
    } else if i == 11 {
        12101
    } else if i == 12 {
        15116
    } else if i == 13 {
        15100
    } else if i == 14 {
        12116
    } else if i == 15 {
        11115
    } else if i == 16 {
        13116
    } else if i == 17 {
        18112
    } else if i == 18 {
        31111
    } else if i == 19 {
        19117
    } else if i == 20 {
        15108
    } else {
        12100
    }
}

/// Keys that are the same have the same mark.
proof fn lemma_same_key_same_mark(a: Seq<char>, b: Seq<char>)
    requires
        same_key(a, b),
    ensures
        key_mark(a) == key_mark(b),
{
    if a.len() > 5 {
        assert(folded(a[5]) == folded(b[5]));
    }
}

/// The keys of the fields have the marks of the table.
proof fn lemma_field_marks()
    ensures
        forall|i: int|
            0 <= i < field_count() ==> key_mark(#[trigger] field_name(i)) == field_mark(i),
{
    reveal_strlit("appid");
    reveal_strlit("universe");
    reveal_strlit("LauncherPath");
    reveal_strlit("name");
    reveal_strlit("StateFlags");
    reveal_strlit("installdir");
    reveal_strlit("LastUpdated");
    reveal_strlit("SizeOnDisk");
    reveal_strlit("StagingSize");
    reveal_strlit("buildid");
    reveal_strlit("LastOwner");
    reveal_strlit("UpdateResult");
    reveal_strlit("BytesToDownload");
    reveal_strlit("BytesDownloaded");
    reveal_strlit("BytesToStage");
    reveal_strlit("BytesStaged");
    reveal_strlit("TargetBuildID");
    reveal_strlit("AutoUpdateBehavior");
    reveal_strlit("AllowOtherDownloadsWhileRunning");
    reveal_strlit("ScheduledAutoUpdate");
    reveal_strlit("InstalledDepots");
    reveal_strlit("SharedDepots");
    assert("universe"@[5] == 'r');
    assert("LauncherPath"@[5] == 'h');
    assert("StateFlags"@[5] == 'F');
    assert("installdir"@[5] == 'l');
    assert("LastUpdated"@[5] == 'p');
    assert("SizeOnDisk"@[5] == 'n');
    assert("StagingSize"@[5] == 'n');
    assert("buildid"@[5] == 'i');
    assert("LastOwner"@[5] == 'w');
    assert("UpdateResult"@[5] == 'e');
    assert("BytesToDownload"@[5] == 'T');
    assert("BytesDownloaded"@[5] == 'D');
    assert("BytesToStage"@[5] == 'T');
    assert("BytesStaged"@[5] == 'S');
    assert("TargetBuildID"@[5] == 't');
    assert("AutoUpdateBehavior"@[5] == 'p');
    assert("AllowOtherDownloadsWhileRunning"@[5] == 'O');
    assert("ScheduledAutoUpdate"@[5] == 'u');
    assert("InstalledDepots"@[5] == 'l');
    assert("SharedDepots"@[5] == 'd');
}

/// No two fields have the same key.
pub proof fn lemma_field_names_differ(i: int, j: int)
    requires
        0 <= i < field_count(),
        0 <= j < field_count(),
        i != j,
    ensures
        !same_key(field_name(i), field_name(j)),
{
    lemma_field_marks();
    if same_key(field_name(i), field_name(j)) {
        lemma_same_key_same_mark(field_name(i), field_name(j));
        assert(key_mark(field_name(i)) == field_mark(i));
        assert(key_mark(field_name(j)) == field_mark(j));
    }
}

/// Looking a key up in two lists, one after the other, finds what the first list has
/// for it, and else what the second has; the list has the key as often as the two
/// together.
pub proof fn lemma_lookup_concat(a: Seq<Branch>, b: Seq<Branch>, key: Seq<char>)
    ensures
        lookup(a + b, key) == if lookup(a, key) is Some {
            lookup(a, key)
        } else {
            lookup(b, key)
        },
        occurrences(a + b, key) == occurrences(a, key) + occurrences(b, key),
    decreases b.len(),
{
    if b.len() == 0 {
        assert(a + b =~= a);
    } else {
        assert((a + b).last() == b.last());
        assert((a + b).drop_last() =~= a + b.drop_last());
        lemma_lookup_concat(a, b.drop_last(), key);
    }
}

/// A list of one entry has a key once if the entry has it, and then the key finds the
/// entry's values.
proof fn lemma_lookup_single(branches: Seq<Branch>, key: Seq<char>)
    requires
        branches.len() == 1,
    ensures
        lookup(branches, key) == if same_key(branches[0].key, key) {
            Some(branches[0].values)
        } else {
            None
        },
        occurrences(branches, key) == if same_key(branches[0].key, key) {
            1nat
        } else {
            0nat
        },
{
    assert(branches.drop_last().len() == 0);
    assert(lookup(branches.drop_last(), key) is None);
    assert(occurrences(branches.drop_last(), key) == 0);
}

/// A field is written as at most one entry, under the field's key.
proof fn lemma_field_shape(app: AppStateView, i: int, key: Seq<char>)
    requires
        0 <= i < field_count(),
    ensures
        field_branches(app, i).len() <= 1,
        field_branches(app, i).len() == 1 ==> field_branches(app, i)[0].key == field_name(i),
        lookup(field_branches(app, i), key) == if field_branches(app, i).len() == 1 && same_key(
            field_name(i),
            key,
        ) {
            Some(field_branches(app, i)[0].values)
        } else {
            None
        },
        occurrences(field_branches(app, i), key) == if field_branches(app, i).len() == 1
            && same_key(field_name(i), key) {
            1nat
        } else {
            0nat
        },
{
    let written = field_branches(app, i);
    if written.len() == 1 {
        lemma_lookup_single(written, key);
    }
}

/// Among the first `n` written fields, a field's key finds what was written for
/// that field and nothing else, and nothing where the field is not among them.
proof fn lemma_lookup_written(app: AppStateView, n: int, i: int)
    requires
        0 <= n <= field_count(),
        0 <= i < field_count(),
    ensures
        lookup(written_fields(app, n), field_name(i)) == if i < n {
            lookup(field_branches(app, i), field_name(i))
        } else {
            None
        },
        occurrences(written_fields(app, n), field_name(i)) == if i < n {
            occurrences(field_branches(app, i), field_name(i))
        } else {
            0nat
        },
    decreases n,
{
    if n > 0 {
        lemma_lookup_written(app, n - 1, i);
        lemma_lookup_concat(written_fields(app, n - 1), field_branches(app, n - 1), field_name(i));
        lemma_field_shape(app, n - 1, field_name(i));
        lemma_field_shape(app, i, field_name(i));
        if i != n - 1 {
            lemma_field_names_differ(n - 1, i);
        }
    }
}

/// A written app holds, under a field's key, the one entry written for the field,
/// and nothing where the field is unset.
proof fn lemma_lookup_field(app: AppStateView, i: int)
    requires
        0 <= i < field_count(),
    ensures
        held(written_fields(app, field_count()), field_name(i)) == if field_branches(
            app,
            i,
        ).len() == 1 {
            Field::Value(field_branches(app, i)[0].values)
        } else {
            Field::Absent
        },
{
    lemma_lookup_written(app, field_count(), i);
    lemma_field_shape(app, i, field_name(i));
}

/// A written depot reads back as the depot.
proof fn lemma_depot_reads_back(depot: InstalledDepot)
    ensures
        depot_of(depot_tree(depot)) == Some(depot),
{
    let first = number("manifest"@, depot.manifest as nat);
    let second = number("size"@, depot.size as nat);
    reveal_strlit("manifest");
    reveal_strlit("size");
    lemma_lookup_concat(first, second, "manifest"@);
    lemma_lookup_concat(first, second, "size"@);
    lemma_lookup_single(first, "manifest"@);
    lemma_lookup_single(first, "size"@);
    lemma_lookup_single(second, "manifest"@);
    lemma_lookup_single(second, "size"@);
    lemma_decimal_text_reads_back(depot.manifest as nat);
    lemma_decimal_text_reads_back(depot.size as nat);
}

/// Written depots read back as the depots.
proof fn lemma_depots_read_back(depots: Map<u64, InstalledDepot>)
    requires
        depots.dom().finite(),
    ensures
        depots_of(depot_branches(depots)) == Some(depots),
    decreases depots.dom().len(),
{
    if depots.dom().len() == 0 {
        assert(depots =~= Map::<u64, InstalledDepot>::empty());
    } else {
        let id = depots.dom().choose();
        let rest = depots.remove(id);
        let last = Branch { key: decimal_text(id as nat), values: seq![depot_tree(depots[id])] };
        lemma_depots_read_back(rest);
        lemma_depot_reads_back(depots[id]);
        lemma_decimal_text_reads_back(id as nat);
        assert(depot_branches(depots) == depot_branches(rest).push(last));
        assert(depot_branches(rest).push(last).drop_last() =~= depot_branches(rest));
        assert(rest.insert(id, depots[id]) =~= depots);
    }
}

/// Written pairs of texts read back as the pairs, where no key occurs twice.
proof fn lemma_shared_read_back(pairs: Seq<(Seq<char>, Seq<char>)>)
    requires
        distinct_keys(pairs),
    ensures
        shared_of(shared_branches(pairs)) == Some(pairs),
    decreases pairs.len(),
{
    if pairs.len() > 0 {
        let before = pairs.drop_last();
        assert(distinct_keys(before)) by {
            assert forall|i: int, j: int| 0 <= i < j < before.len() implies (
            #[trigger] before[i]).0 != (#[trigger] before[j]).0 by {
                assert(before[i] == pairs[i] && before[j] == pairs[j]);
            }
        }
        assert(!has_key(before, pairs.last().0)) by {
            if has_key(before, pairs.last().0) {
                let i = choose|i: int|
                    0 <= i < before.len() && (#[trigger] before[i]).0 == pairs.last().0;
                assert(before[i] == pairs[i]);
                assert(pairs[i].0 != pairs[pairs.len() - 1].0);
            }
        }
        lemma_shared_read_back(pairs.drop_last());
        assert(shared_branches(pairs).drop_last() =~= shared_branches(pairs.drop_last()));
        assert(pairs.drop_last().push(pairs.last()) =~= pairs);
    } else {
        assert(shared_branches(pairs) =~= Seq::<Branch>::empty());
        assert(pairs =~= Seq::<(Seq<char>, Seq<char>)>::empty());
    }
}

/// The depots that were read from a block are finitely many.
proof fn lemma_depots_finite(branches: Seq<Branch>)
    requires
        depots_of(branches) is Some,
    ensures
        depots_of(branches)->0.dom().finite(),
    decreases branches.len(),
{
    if branches.len() > 0 {
        lemma_depots_finite(branches.drop_last());
    }
}

/// A written flag reads back as the flag.
proof fn lemma_flag_reads_back(b: bool)
    ensures
        parse_flag(flag_text(b)) == Some(b),
{
    assert(seq!['1'][0] != seq!['0'][0]);
}

/// In a written app, a field that was written as a piece of text reads as that text.
proof fn lemma_text_reads_back(app: AppStateView, i: int, text: Seq<char>)
    requires
        0 <= i < field_count(),
        field_branches(app, i) == leaf(field_name(i), text),
    ensures
        text_field(written_fields(app, field_count()), field_name(i)) == Field::Value(text),
{
    lemma_lookup_field(app, i);
}

/// In a written app, a field that was written as a number reads as that number.
proof fn lemma_number_reads_back(app: AppStateView, i: int, n: nat, max: nat)
    requires
        0 <= i < field_count(),
        field_branches(app, i) == number(field_name(i), n),
        n <= max,
    ensures
        unsigned_field(written_fields(app, field_count()), field_name(i), max) == Field::Value(n),
{
    lemma_text_reads_back(app, i, decimal_text(n));
    lemma_decimal_text_reads_back(n);
}

/// In a written app, a field that was written as a block reads as that block.
proof fn lemma_block_reads_back(app: AppStateView, i: int, inner: Seq<Branch>)
    requires
        0 <= i < field_count(),
        field_branches(app, i) == nested(field_name(i), inner),
    ensures
        block_field(written_fields(app, field_count()), field_name(i)) == Field::Value(inner),
{
    lemma_lookup_field(app, i);
}

/// In a written app, a field that was not written is absent.
proof fn lemma_unwritten_is_absent(app: AppStateView, i: int)
    requires
        0 <= i < field_count(),
        field_branches(app, i).len() == 0,
    ensures
        occurrences(written_fields(app, field_count()), field_name(i)) == 0,
{
    lemma_lookup_written(app, field_count(), i);
    lemma_field_shape(app, i, field_name(i));
}

/// An app that is written as a document and read again is the app that was
/// written, field by field, where its shared depots hold no key twice. The two paths
/// are not written, so they are empty in what is read.
pub proof fn lemma_written_app_reads_back(app: AppStateView)
    requires
        app.InstalledDepots.dom().finite(),
        app.SharedDepots matches Some(pairs) ==> distinct_keys(pairs),
        app.library_path == Seq::<char>::empty(),
        app.game_path == Seq::<char>::empty(),
    ensures
        app_state_of(app_state_tree(app)) == Ok::<AppStateView, Failure>(app),
{
    let b = written_fields(app, field_count());
    let word = usize::MAX as nat;
    let long = u64::MAX as nat;
    lemma_number_reads_back(app, 0, app.appid as nat, long);
    lemma_number_reads_back(app, 1, app.universe as nat, long);
    match app.LauncherPath {
        Some(text) => lemma_text_reads_back(app, 2, text),
        None => lemma_unwritten_is_absent(app, 2),
    }
    lemma_text_reads_back(app, 3, app.name);
    lemma_number_reads_back(app, 4, app.StateFlags as nat, long);
    lemma_text_reads_back(app, 5, app.installdir);
    lemma_number_reads_back(app, 6, app.LastUpdated as nat, long);
    lemma_number_reads_back(app, 7, app.SizeOnDisk as nat, word);
    lemma_number_reads_back(app, 8, app.StagingSize as nat, word);
    lemma_number_reads_back(app, 9, app.buildid as nat, long);
    lemma_number_reads_back(app, 10, app.LastOwner as nat, long);
    match app.UpdateResult {
        Some(n) => lemma_number_reads_back(app, 11, n as nat, long),
        None => lemma_unwritten_is_absent(app, 11),
    }
    match app.BytesToDownload {
        Some(n) => lemma_number_reads_back(app, 12, n as nat, word),
        None => lemma_unwritten_is_absent(app, 12),
    }
    match app.BytesDownloaded {
        Some(n) => lemma_number_reads_back(app, 13, n as nat, word),
        None => lemma_unwritten_is_absent(app, 13),
    }
    match app.BytesToStage {
        Some(n) => lemma_number_reads_back(app, 14, n as nat, word),
        None => lemma_unwritten_is_absent(app, 14),
    }
    match app.BytesStaged {
        Some(n) => lemma_number_reads_back(app, 15, n as nat, word),
        None => lemma_unwritten_is_absent(app, 15),
    }
    match app.TargetBuildID {
        Some(n) => lemma_number_reads_back(app, 16, n as nat, word),
        None => lemma_unwritten_is_absent(app, 16),
    }
    lemma_number_reads_back(app, 17, app.AutoUpdateBehavior as nat, long);
    lemma_text_reads_back(app, 18, flag_text(app.AllowOtherDownloadsWhileRunning));
    lemma_number_reads_back(app, 19, app.ScheduledAutoUpdate as nat, long);
    lemma_block_reads_back(app, 20, depot_branches(app.InstalledDepots));
    lemma_depots_read_back(app.InstalledDepots);
    match app.SharedDepots {
        Some(pairs) => {
            lemma_block_reads_back(app, 21, shared_branches(pairs));
            lemma_shared_read_back(pairs);
        },
        None => lemma_unwritten_is_absent(app, 21),
    }
    lemma_flag_reads_back(app.AllowOtherDownloadsWhileRunning);
    assert(app_state_failure(b) is None);
    assert(app_state_fields(b) == app);
}

/// Reading a document, writing what was read and reading that again gives what was
/// read the first time: every field keeps its value.
pub proof fn lemma_rewriting_keeps_every_field(doc: Tree)
    requires
        app_state_of(doc) is Ok,
    ensures
        app_state_of(app_state_tree(app_state_of(doc)->Ok_0)) == app_state_of(doc),
{
    let b = doc->Block_0;
    assert(depots_field(b, "InstalledDepots"@) is Value);
    lemma_depots_finite(block_field(b, "InstalledDepots"@)->Value_0);
    if shared_field(b, "SharedDepots"@) is Value {
        lemma_shared_keys_distinct(block_field(b, "SharedDepots"@)->Value_0);
    }
    lemma_written_app_reads_back(app_state_of(doc)->Ok_0);
}

} // verus!

