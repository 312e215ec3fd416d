use game_detector::decode::DecodeError;
use game_detector::keyvalues::{parse_document, Entry, Node};
use game_detector::steam::{
    apps_in_documents, apps_of_documents, collect_apps, decode_app_state, decode_depots,
    decode_shared, AppState, DocumentRead, SteamDocuments, decode_depot, decode_library_folders, get_all_apps, install,
    library_folders_path, manifest_path, manifest_requests, parse_app_state,
    parse_library_folders, ManifestRead, SteamError, SteamFiles,
};

const APP_MANIFEST: &str = r#"
"AppState"
{
	"appid"		"70"
	"universe"		"1"
	"LauncherPath"		"C:\\Program Files (x86)\\Steam\\steam.exe"
	"name"		"Half-Life"
	"StateFlags"		"6"
	"installdir"		"Half-Life"
	"LastUpdated"		"1703587250"
	"SizeOnDisk"		"589449723"
	"StagingSize"		"0"
	"buildid"		"13032868"
	"LastOwner"		"76561198166639473"
	"UpdateResult"		"0"
	"BytesToDownload"		"42478352"
	"BytesDownloaded"		"0"
	"BytesToStage"		"127625842"
	"BytesStaged"		"0"
	"TargetBuildID"		"13032868"
	"AutoUpdateBehavior"		"0"
	"AllowOtherDownloadsWhileRunning"		"0"
	"ScheduledAutoUpdate"		"1706853353"
	"InstalledDepots"
	{
		"1"
		{
			"manifest"		"6665583105370934040"
			"size"		"513399487"
		}
		"3"
		{
			"manifest"		"6081070194444336449"
			"size"		"893958"
		}
		"71"
		{
			"manifest"		"5133329123964362030"
			"size"		"16416909"
		}
		"96"
		{
			"manifest"		"6298465564582633871"
			"size"		"9067684"
		}
		"2"
		{
			"manifest"		"3124227209284380614"
			"size"		"49671685"
		}
	}
	"SharedDepots"
	{
		"228988"		"228980"
	}
	"UserConfig"
	{
		"language"		"english"
	}
	"MountedConfig"
	{
		"language"		"english"
	}
}
"#;

const LIBRARY_FOLDERS: &str = r#"
"libraryfolders"
{
	"0"
	{
		"path"		"C:\\Program Files (x86)\\Steam"
		"label"		""
		"contentid"		"3328371409298419016"
		"totalsize"		"0"
		"update_clean_bytes_tally"		"131786642906"
		"time_last_update_corruption"		"0"
		"apps"
		{
			"228980"		"747619496"
			"250820"		"5464658003"
			"365670"		"1174137444"
			"629730"		"9384044754"
			"992490"		"85670250"
			"1009850"		"79179350"
			"1068820"		"825086515"
			"1826330"		"274110"
		}
	}
	"1"
	{
		"path"		"D:\\Steam"
		"label"		""
		"contentid"		"1039182383252157525"
		"totalsize"		"2000397791232"
		"update_clean_bytes_tally"		"133903725466"
		"time_last_update_corruption"		"0"
		"apps"
		{
			"70"		"589449723"
			"240"		"4628887753"
			"440"		"28179155955"
			"620"		"12753876784"
		}
	}
}
"#;

#[test]
fn test_appstate_serde() {
    let app_state = parse_app_state(APP_MANIFEST).expect("Failed to parse app manifest data");

    assert_eq!(app_state.appid, 70);
    assert_eq!(app_state.universe, 1);
    assert_eq!(
        app_state.LauncherPath,
        Some("C:\\Program Files (x86)\\Steam\\steam.exe".to_string())
    );
    assert_eq!(app_state.name, "Half-Life");
    assert_eq!(app_state.StateFlags, 6);
    assert_eq!(app_state.installdir, "Half-Life");
    assert_eq!(app_state.LastUpdated, 1703587250);
    assert_eq!(app_state.SizeOnDisk, 589449723);
    assert_eq!(app_state.StagingSize, 0);
    assert_eq!(app_state.buildid, 13032868);
    assert_eq!(app_state.LastOwner, 76561198166639473);
    assert_eq!(app_state.UpdateResult, Some(0));
    assert_eq!(app_state.BytesToDownload, Some(42478352));
    assert_eq!(app_state.BytesDownloaded, Some(0));
    assert_eq!(app_state.BytesToStage, Some(127625842));
    assert_eq!(app_state.BytesStaged, Some(0));
    assert_eq!(app_state.TargetBuildID, Some(13032868));
    assert_eq!(app_state.AutoUpdateBehavior, 0);
    assert!(!app_state.AllowOtherDownloadsWhileRunning);
    assert_eq!(app_state.ScheduledAutoUpdate, 1706853353);

    assert_eq!(app_state.InstalledDepots.len(), 5);
}

#[test]
fn test_libraryfolders_serde() {
    let folders =
        parse_library_folders(LIBRARY_FOLDERS).expect("Failed to parse app manifest data");

    assert_eq!(folders.0.len(), 2);
}

#[test]
fn depots_are_keyed_by_their_ids_whatever_the_order() {
    let app_state = parse_app_state(APP_MANIFEST).unwrap();
    let mut keys: Vec<u64> = app_state.InstalledDepots.keys().copied().collect();
    keys.sort();
    assert_eq!(keys, vec![1, 2, 3, 71, 96]);
    assert_eq!(app_state.InstalledDepots[&71].manifest, 5133329123964362030);
    assert_eq!(app_state.InstalledDepots[&71].size, 16416909);
    assert_eq!(app_state.InstalledDepots[&2].size, 49671685);
}

#[test]
fn shared_depots_are_pairs_of_texts() {
    let app_state = parse_app_state(APP_MANIFEST).unwrap();
    assert_eq!(
        app_state.SharedDepots,
        Some(vec![("228988".to_string(), "228980".to_string())])
    );
}

#[test]
fn paths_are_empty_until_the_app_is_installed_in_a_library() {
    let app_state = parse_app_state(APP_MANIFEST).unwrap();
    assert_eq!(app_state.library_path, "");
    assert_eq!(app_state.game_path, "");
}

#[test]
fn game_path_lies_under_steamapps_common() {
    let app_state = parse_app_state(APP_MANIFEST).unwrap();
    let app_state = install(app_state, "D:\\Steam");
    assert_eq!(app_state.library_path, "D:\\Steam");
    assert_eq!(app_state.game_path, "D:\\Steam\\steamapps\\common\\Half-Life");
}

#[test]
fn manifest_path_names_the_app() {
    assert_eq!(
        manifest_path("D:\\Steam", 70),
        "D:\\Steam\\steamapps\\appmanifest_70.acf"
    );
    assert_eq!(
        manifest_path("D:\\Steam\\", 1826330),
        "D:\\Steam\\steamapps\\appmanifest_1826330.acf"
    );
    assert_eq!(manifest_path("", 0), "steamapps\\appmanifest_0.acf");
}

#[test]
fn library_folders_path_lies_under_config() {
    assert_eq!(
        library_folders_path("c:/program files (x86)/steam"),
        "c:/program files (x86)/steam\\config\\libraryfolders.vdf"
    );
}

fn some_reads() -> Vec<ManifestRead> {
    vec![
        ManifestRead { library_path: "C:\\Games".to_string(), manifest: None },
        ManifestRead { library_path: "D:\\Steam".to_string(), manifest: Some(APP_MANIFEST.to_string()) },
        ManifestRead { library_path: "D:\\Steam".to_string(), manifest: Some("\"AppState\" {".to_string()) },
        ManifestRead { library_path: "E:\\Lib".to_string(), manifest: Some(APP_MANIFEST.to_string()) },
    ]
}

#[test]
fn a_scan_fails_only_at_its_first_two_stages() {
    let files = SteamFiles { steam_path: None, library_folders: None, manifests: vec![] };
    assert_eq!(get_all_apps(&files).unwrap_err(), SteamError::RootUnavailable);

    let files = SteamFiles {
        steam_path: None,
        library_folders: Some(LIBRARY_FOLDERS.to_string()),
        manifests: some_reads(),
    };
    assert_eq!(get_all_apps(&files).unwrap_err(), SteamError::RootUnavailable);

    let files = SteamFiles {
        steam_path: Some("C:\\Steam".to_string()),
        library_folders: None,
        manifests: some_reads(),
    };
    assert_eq!(get_all_apps(&files).unwrap_err(), SteamError::LibraryFoldersUnavailable);

    let files = SteamFiles {
        steam_path: Some("C:\\Steam".to_string()),
        library_folders: Some("\"libraryfolders\" {".to_string()),
        manifests: some_reads(),
    };
    assert!(matches!(
        get_all_apps(&files).unwrap_err(),
        SteamError::LibraryFoldersMalformed(DecodeError::Syntax(_))
    ));

    let files = SteamFiles {
        steam_path: Some("C:\\Steam".to_string()),
        library_folders: Some("\"libraryfolders\" { \"0\" \"x\" }".to_string()),
        manifests: some_reads(),
    };
    assert_eq!(
        get_all_apps(&files).unwrap_err(),
        SteamError::LibraryFoldersMalformed(DecodeError::Invalid("libraryfolders"))
    );

    let files = SteamFiles {
        steam_path: Some("C:\\Steam".to_string()),
        library_folders: Some(LIBRARY_FOLDERS.to_string()),
        manifests: some_reads(),
    };
    let apps = get_all_apps(&files).unwrap();
    assert_eq!(apps.len(), 2);
    assert_eq!(apps[1].library_path, "E:\\Lib");

    let files = SteamFiles {
        steam_path: Some("C:\\Steam".to_string()),
        library_folders: Some("\"libraryfolders\" { }".to_string()),
        manifests: vec![],
    };
    assert!(get_all_apps(&files).unwrap().is_empty());
}

#[test]
fn apps_that_cannot_be_read_are_left_out() {
    let reads = some_reads();
    let apps = collect_apps(&reads);
    assert_eq!(apps.len(), 2);
    assert_eq!(apps[0].game_path, "D:\\Steam\\steamapps\\common\\Half-Life");
    assert_eq!(apps[1].library_path, "E:\\Lib");
    assert_eq!(apps[1].game_path, "E:\\Lib\\steamapps\\common\\Half-Life");
}

#[test]
fn malformed_text_is_a_syntax_error() {
    match parse_app_state("\"AppState\" {").unwrap_err() {
        DecodeError::Syntax(message) => assert!(!message.is_empty()),
        other => panic!("unexpected: {other:?}"),
    }
    assert!(matches!(parse_library_folders("").unwrap_err(), DecodeError::Syntax(_)));
}

fn leaf(key: &str, text: &str) -> Entry {
    Entry { key: key.to_string(), values: vec![Node::Text(text.to_string())] }
}

fn block(key: &str, entries: Vec<Entry>) -> Entry {
    Entry { key: key.to_string(), values: vec![Node::Block(entries)] }
}

fn minimal_manifest(extra: &str) -> String {
    format!(
        "\"AppState\"\n{{\n\t\"appid\"\t\"70\"\n\t\"universe\"\t\"1\"\n\t\"name\"\t\"Half-Life\"\n\
         \t\"StateFlags\"\t\"4\"\n\t\"installdir\"\t\"Half-Life\"\n\t\"LastUpdated\"\t\"0\"\n\
         \t\"SizeOnDisk\"\t\"0\"\n\t\"StagingSize\"\t\"0\"\n\t\"buildid\"\t\"1\"\n\
         \t\"LastOwner\"\t\"0\"\n\t\"AutoUpdateBehavior\"\t\"0\"\n\
         \t\"AllowOtherDownloadsWhileRunning\"\t\"1\"\n\t\"ScheduledAutoUpdate\"\t\"0\"\n\
         \t\"InstalledDepots\"\n\t{{\n\t}}\n{extra}}}\n"
    )
}

#[test]
fn absent_optional_fields_are_unset() {
    let app_state = parse_app_state(&minimal_manifest("")).unwrap();
    assert_eq!(app_state.LauncherPath, None);
    assert_eq!(app_state.UpdateResult, None);
    assert_eq!(app_state.BytesToDownload, None);
    assert_eq!(app_state.BytesDownloaded, None);
    assert_eq!(app_state.BytesToStage, None);
    assert_eq!(app_state.BytesStaged, None);
    assert_eq!(app_state.TargetBuildID, None);
    assert_eq!(app_state.SharedDepots, None);
    assert!(app_state.AllowOtherDownloadsWhileRunning);
    assert!(app_state.InstalledDepots.is_empty());
}

#[test]
fn present_but_zero_is_zero_not_unset() {
    let app_state =
        parse_app_state(&minimal_manifest("\t\"BytesToDownload\"\t\"0\"\n")).unwrap();
    assert_eq!(app_state.BytesToDownload, Some(0));
    assert_ne!(app_state.BytesToDownload, None);
    assert_eq!(app_state.BytesDownloaded, None);
}

#[test]
fn a_missing_required_field_is_named() {
    let text = minimal_manifest("").replace("\t\"name\"\t\"Half-Life\"\n", "");
    assert_eq!(parse_app_state(&text).unwrap_err(), DecodeError::Missing("name"));
    let text = minimal_manifest("").replace("\t\"InstalledDepots\"\n\t{\n\t}\n", "");
    assert_eq!(parse_app_state(&text).unwrap_err(), DecodeError::Missing("InstalledDepots"));
}

#[test]
fn a_malformed_field_is_named() {
    let text = minimal_manifest("").replace("\"appid\"\t\"70\"", "\"appid\"\t\"seventy\"");
    assert_eq!(parse_app_state(&text).unwrap_err(), DecodeError::Invalid("appid"));
    let text = minimal_manifest("").replace(
        "\"AllowOtherDownloadsWhileRunning\"\t\"1\"",
        "\"AllowOtherDownloadsWhileRunning\"\t\"yes\"",
    );
    assert_eq!(
        parse_app_state(&text).unwrap_err(),
        DecodeError::Invalid("AllowOtherDownloadsWhileRunning")
    );
    let text = minimal_manifest("\t\"BytesStaged\"\t\"-1\"\n");
    assert_eq!(parse_app_state(&text).unwrap_err(), DecodeError::Invalid("BytesStaged"));
    let text = minimal_manifest("\t\"SharedDepots\"\t\"none\"\n");
    assert_eq!(parse_app_state(&text).unwrap_err(), DecodeError::Invalid("SharedDepots"));
    let text = minimal_manifest("").replace("\"universe\"\t\"1\"", "\"universe\"\n\t{\n\t}");
    assert_eq!(parse_app_state(&text).unwrap_err(), DecodeError::Invalid("universe"));
}

#[test]
fn the_first_bad_field_of_an_app_is_named() {
    let text = minimal_manifest("")
        .replace("\t\"buildid\"\t\"1\"\n", "")
        .replace("\"universe\"\t\"1\"", "\"universe\"\t\"x\"");
    assert_eq!(parse_app_state(&text).unwrap_err(), DecodeError::Invalid("universe"));
}

#[test]
fn a_field_written_twice_is_malformed() {
    let text = minimal_manifest("\t\"appid\"\t\"71\"\n");
    assert_eq!(parse_app_state(&text).unwrap_err(), DecodeError::Invalid("appid"));
}

#[test]
fn a_bad_depot_fails_the_depots() {
    let text = minimal_manifest("").replace(
        "\t\"InstalledDepots\"\n\t{\n\t}\n",
        "\t\"InstalledDepots\"\n\t{\n\t\t\"1\"\n\t\t{\n\t\t\t\"manifest\"\t\"5\"\n\t\t}\n\t}\n",
    );
    assert_eq!(parse_app_state(&text).unwrap_err(), DecodeError::Invalid("InstalledDepots"));
    let text = minimal_manifest("").replace(
        "\t\"InstalledDepots\"\n\t{\n\t}\n",
        "\t\"InstalledDepots\"\n\t{\n\t\t\"one\"\n\t\t{\n\t\t\t\"manifest\"\t\"5\"\n\t\t\t\"size\"\t\"6\"\n\t\t}\n\t}\n",
    );
    assert_eq!(parse_app_state(&text).unwrap_err(), DecodeError::Invalid("InstalledDepots"));
}

#[test]
fn unknown_keys_are_passed_over() {
    let text = minimal_manifest(
        "\t\"UserConfig\"\n\t{\n\t\t\"language\"\t\"english\"\n\t\t\"more\"\n\t\t{\n\t\t}\n\t}\n\t\"Other\"\t\"x\"\n",
    );
    let app_state = parse_app_state(&text).unwrap();
    assert_eq!(app_state.appid, 70);
}

#[test]
fn keys_of_a_document_are_found_whatever_their_case() {
    let text = minimal_manifest("").replace("\"appid\"", "\"AppID\"").replace("\"name\"", "\"Name\"");
    let app_state = parse_app_state(&text).unwrap();
    assert_eq!(app_state.appid, 70);
    assert_eq!(app_state.name, "Half-Life");
}

#[test]
fn a_document_that_is_no_block_is_no_app() {
    assert_eq!(parse_app_state("\"AppState\" \"x\"").unwrap_err(), DecodeError::NotARecord);
    assert_eq!(parse_library_folders("\"libraryfolders\" \"x\"").unwrap_err(), DecodeError::NotARecord);
}

#[test]
fn libraries_hold_their_fields_and_apps() {
    let folders = parse_library_folders(LIBRARY_FOLDERS).unwrap();
    let mut indices: Vec<usize> = folders.0.keys().copied().collect();
    indices.sort();
    assert_eq!(indices, vec![0, 1]);

    let first = &folders.0[&0];
    assert_eq!(first.path, "C:\\Program Files (x86)\\Steam");
    assert_eq!(first.label, "");
    assert_eq!(first.contentid, 3328371409298419016);
    assert_eq!(first.totalsize, 0);
    assert_eq!(first.update_clean_bytes_tally, 131786642906);
    assert_eq!(first.time_last_update_corruption, 0);
    let mut apps: Vec<u32> = first.apps.keys().copied().collect();
    apps.sort();
    assert_eq!(apps, vec![228980, 250820, 365670, 629730, 992490, 1009850, 1068820, 1826330]);
    assert_eq!(first.apps[&629730], 9384044754);

    let second = &folders.0[&1];
    assert_eq!(second.path, "D:\\Steam");
    assert_eq!(second.totalsize, 2000397791232);
    let mut apps: Vec<u32> = second.apps.keys().copied().collect();
    apps.sort();
    assert_eq!(apps, vec![70, 240, 440, 620]);
    assert_eq!(second.apps[&440], 28179155955);
}

#[test]
fn a_bad_library_fails_the_list() {
    let text = LIBRARY_FOLDERS.replace("\"contentid\"\t\t\"1039182383252157525\"", "\"contentid\"\t\t\"x\"");
    assert_eq!(parse_library_folders(&text).unwrap_err(), DecodeError::Invalid("libraryfolders"));
    let text = LIBRARY_FOLDERS.replace("\"70\"\t\t\"589449723\"", "\"seventy\"\t\t\"589449723\"");
    assert_eq!(parse_library_folders(&text).unwrap_err(), DecodeError::Invalid("libraryfolders"));
    let text = LIBRARY_FOLDERS.replace("\t\"1\"\n", "\t\"one\"\n");
    assert_eq!(parse_library_folders(&text).unwrap_err(), DecodeError::Invalid("libraryfolders"));
}

#[test]
fn every_listed_app_is_requested_once() {
    let folders = parse_library_folders(LIBRARY_FOLDERS).unwrap();
    let requests = manifest_requests(&folders);
    let mut found: Vec<(usize, u32, String, String)> = requests
        .iter()
        .map(|r| (r.library, r.app_id, r.library_path.clone(), r.manifest_path.clone()))
        .collect();
    found.sort();
    assert_eq!(found.len(), 12);
    assert_eq!(
        found[0],
        (
            0,
            228980,
            "C:\\Program Files (x86)\\Steam".to_string(),
            "C:\\Program Files (x86)\\Steam\\steamapps\\appmanifest_228980.acf".to_string()
        )
    );
    assert_eq!(
        found[8],
        (1, 70, "D:\\Steam".to_string(), "D:\\Steam\\steamapps\\appmanifest_70.acf".to_string())
    );
    let ids: Vec<(usize, u32)> = found.iter().map(|f| (f.0, f.1)).collect();
    assert_eq!(
        ids,
        vec![
            (0, 228980), (0, 250820), (0, 365670), (0, 629730), (0, 992490), (0, 1009850),
            (0, 1068820), (0, 1826330), (1, 70), (1, 240), (1, 440), (1, 620)
        ]
    );
}

#[test]
fn decoding_works_on_a_document_written_by_hand() {
    let depot = Node::Block(vec![leaf("size", "9"), leaf("manifest", "8")]);
    let depot = decode_depot(&depot).unwrap();
    assert_eq!((depot.manifest, depot.size), (8, 9));
    assert!(decode_depot(&Node::Text("8".to_string())).is_none());

    let folder = vec![
        leaf("path", "E:\\Games"),
        leaf("label", "fast"),
        leaf("contentid", "1"),
        leaf("totalsize", "2"),
        leaf("update_clean_bytes_tally", "3"),
        leaf("time_last_update_corruption", "4"),
        block("apps", vec![leaf("10", "100"), leaf("010", "200")]),
    ];
    let doc = Node::Block(vec![block("5", folder)]);
    let folders = decode_library_folders(&doc).unwrap();
    assert_eq!(folders.0.len(), 1);
    assert_eq!(folders.0[&5].label, "fast");
    assert_eq!(folders.0[&5].apps.len(), 1);
    assert_eq!(folders.0[&5].apps[&10], 200);
}

fn quoted(text: &str) -> String {
    format!("\"{}\"", text.replace('\\', "\\\\").replace('"', "\\\""))
}

fn written(app: &AppState) -> String {
    let mut lines: Vec<String> = Vec::new();
    let mut leaf = |key: &str, text: String| lines.push(format!("\t{}\t\t{}", quoted(key), quoted(&text)));
    leaf("appid", app.appid.to_string());
    leaf("universe", app.universe.to_string());
    if let Some(path) = &app.LauncherPath {
        leaf("LauncherPath", path.clone());
    }
    leaf("name", app.name.clone());
    leaf("StateFlags", app.StateFlags.to_string());
    leaf("installdir", app.installdir.clone());
    leaf("LastUpdated", app.LastUpdated.to_string());
    leaf("SizeOnDisk", app.SizeOnDisk.to_string());
    leaf("StagingSize", app.StagingSize.to_string());
    leaf("buildid", app.buildid.to_string());
    leaf("LastOwner", app.LastOwner.to_string());
    if let Some(n) = app.UpdateResult {
        leaf("UpdateResult", n.to_string());
    }
    if let Some(n) = app.BytesToDownload {
        leaf("BytesToDownload", n.to_string());
    }
    if let Some(n) = app.BytesDownloaded {
        leaf("BytesDownloaded", n.to_string());
    }
    if let Some(n) = app.BytesToStage {
        leaf("BytesToStage", n.to_string());
    }
    if let Some(n) = app.BytesStaged {
        leaf("BytesStaged", n.to_string());
    }
    if let Some(n) = app.TargetBuildID {
        leaf("TargetBuildID", n.to_string());
    }
    leaf("AutoUpdateBehavior", app.AutoUpdateBehavior.to_string());
    leaf(
        "AllowOtherDownloadsWhileRunning",
        if app.AllowOtherDownloadsWhileRunning { "1".to_string() } else { "0".to_string() },
    );
    leaf("ScheduledAutoUpdate", app.ScheduledAutoUpdate.to_string());
    lines.push("\t\"InstalledDepots\"\n\t{".to_string());
    for (id, depot) in &app.InstalledDepots {
        lines.push(format!(
            "\t\t\"{id}\"\n\t\t{{\n\t\t\t\"manifest\"\t\t\"{}\"\n\t\t\t\"size\"\t\t\"{}\"\n\t\t}}",
            depot.manifest, depot.size
        ));
    }
    lines.push("\t}".to_string());
    if let Some(pairs) = &app.SharedDepots {
        lines.push("\t\"SharedDepots\"\n\t{".to_string());
        for (key, text) in pairs {
            lines.push(format!("\t\t{}\t\t{}", quoted(key), quoted(text)));
        }
        lines.push("\t}".to_string());
    }
    format!("\"AppState\"\n{{\n{}\n}}\n", lines.join("\n"))
}

fn assert_same_app(first: &AppState, second: &AppState) {
    assert_eq!(first.appid, second.appid);
    assert_eq!(first.universe, second.universe);
    assert_eq!(first.LauncherPath, second.LauncherPath);
    assert_eq!(first.name, second.name);
    assert_eq!(first.StateFlags, second.StateFlags);
    assert_eq!(first.installdir, second.installdir);
    assert_eq!(first.LastUpdated, second.LastUpdated);
    assert_eq!(first.SizeOnDisk, second.SizeOnDisk);
    assert_eq!(first.StagingSize, second.StagingSize);
    assert_eq!(first.buildid, second.buildid);
    assert_eq!(first.LastOwner, second.LastOwner);
    assert_eq!(first.UpdateResult, second.UpdateResult);
    assert_eq!(first.BytesToDownload, second.BytesToDownload);
    assert_eq!(first.BytesDownloaded, second.BytesDownloaded);
    assert_eq!(first.BytesToStage, second.BytesToStage);
    assert_eq!(first.BytesStaged, second.BytesStaged);
    assert_eq!(first.TargetBuildID, second.TargetBuildID);
    assert_eq!(first.AutoUpdateBehavior, second.AutoUpdateBehavior);
    assert_eq!(first.AllowOtherDownloadsWhileRunning, second.AllowOtherDownloadsWhileRunning);
    assert_eq!(first.ScheduledAutoUpdate, second.ScheduledAutoUpdate);
    assert_eq!(first.InstalledDepots, second.InstalledDepots);
    assert_eq!(first.SharedDepots, second.SharedDepots);
    assert_eq!(first.library_path, second.library_path);
    assert_eq!(first.game_path, second.game_path);
}

#[test]
fn rewriting_an_app_keeps_every_field() {
    let first = parse_app_state(APP_MANIFEST).unwrap();
    let second = parse_app_state(&written(&first)).unwrap();
    assert_same_app(&first, &second);
    assert_eq!(second.InstalledDepots.len(), 5);
    assert_eq!(second.LauncherPath.as_deref(), Some("C:\\Program Files (x86)\\Steam\\steam.exe"));

    let first = parse_app_state(&minimal_manifest("\t\"BytesStaged\"\t\"0\"\n")).unwrap();
    let second = parse_app_state(&written(&first)).unwrap();
    assert_same_app(&first, &second);
    assert_eq!(second.BytesStaged, Some(0));
    assert_eq!(second.BytesToStage, None);
}

#[test]
fn a_field_in_two_spellings_is_malformed() {
    let text = minimal_manifest("\t\"AppID\"\t\"71\"\n");
    assert_eq!(parse_app_state(&text).unwrap_err(), DecodeError::Invalid("appid"));
    let text = minimal_manifest("\t\"bytestostage\"\t\"1\"\n\t\"BytesToStage\"\t\"1\"\n");
    assert_eq!(parse_app_state(&text).unwrap_err(), DecodeError::Invalid("BytesToStage"));
}

#[test]
fn shared_depots_hold_no_key_twice() {
    let pairs = decode_shared(&vec![leaf("228988", "228980"), leaf("228989", "228980")]).unwrap();
    assert_eq!(
        pairs,
        vec![
            ("228988".to_string(), "228980".to_string()),
            ("228989".to_string(), "228980".to_string())
        ]
    );
    assert!(decode_shared(&vec![leaf("228988", "1"), leaf("7", "2"), leaf("228988", "3")]).is_none());
    assert!(decode_shared(&vec![leaf("a", "1"), leaf("A", "2")]).is_some());
    assert!(decode_shared(&vec![block("a", vec![])]).is_none());
    assert_eq!(decode_shared(&vec![]).unwrap().len(), 0);
}

fn depot_block(id: &str, manifest: &str, size: &str) -> Entry {
    block(id, vec![leaf("manifest", manifest), leaf("size", size)])
}

#[test]
fn depots_do_not_depend_on_the_order_of_their_blocks() {
    let first = decode_depots(&vec![
        depot_block("1", "11", "100"),
        depot_block("3", "33", "300"),
        depot_block("71", "77", "700"),
        depot_block("96", "99", "900"),
        depot_block("2", "22", "200"),
    ])
    .unwrap();
    let second = decode_depots(&vec![
        depot_block("96", "99", "900"),
        depot_block("2", "22", "200"),
        depot_block("1", "11", "100"),
        depot_block("71", "77", "700"),
        depot_block("3", "33", "300"),
    ])
    .unwrap();
    assert_eq!(first, second);
    assert_eq!(first.len(), 5);
    assert_eq!((first[&71].manifest, first[&71].size), (77, 700));
}

#[test]
fn an_app_can_be_decoded_from_a_document_written_by_hand() {
    let doc = Node::Block(vec![
        leaf("appid", "70"),
        leaf("Universe", "1"),
        leaf("name", "Half-Life"),
        leaf("StateFlags", "4"),
        leaf("installdir", "Half-Life"),
        leaf("LastUpdated", "0"),
        leaf("SizeOnDisk", "0"),
        leaf("StagingSize", "0"),
        leaf("buildid", "1"),
        leaf("LastOwner", "0"),
        leaf("AutoUpdateBehavior", "0"),
        leaf("AllowOtherDownloadsWhileRunning", "0"),
        leaf("ScheduledAutoUpdate", "0"),
        block("InstalledDepots", vec![depot_block("1", "2", "3")]),
        leaf("unknown", "x"),
        leaf("Unknown", "y"),
    ]);
    let app = decode_app_state(&doc).unwrap();
    assert_eq!(app.universe, 1);
    assert_eq!(app.InstalledDepots[&1].size, 3);
    assert_eq!(app.SharedDepots, None);
    assert_eq!(decode_app_state(&Node::Text("x".to_string())).unwrap_err(), DecodeError::NotARecord);
}

fn document_read(library_path: &str, text: Option<&str>) -> DocumentRead {
    DocumentRead {
        library_path: library_path.to_string(),
        document: text.map(parse_document),
    }
}

#[test]
fn parsed_documents_give_their_apps_in_order() {
    let reads = vec![
        document_read("C:\\Games", None),
        document_read("D:\\Steam", Some(APP_MANIFEST)),
        document_read("D:\\Steam", Some("\"AppState\" {")),
        document_read("D:\\Steam", Some("\"AppState\" { \"appid\" \"x\" }")),
        DocumentRead { library_path: "F:\\".to_string(), document: Some(Err("gave up".to_string())) },
        DocumentRead {
            library_path: "G:\\".to_string(),
            document: Some(Ok(Node::Text("no block".to_string()))),
        },
        document_read("E:\\Lib\\", Some(&minimal_manifest(""))),
    ];
    let apps = apps_of_documents(&reads);
    assert_eq!(apps.len(), 2);
    assert_eq!(apps[0].library_path, "D:\\Steam");
    assert_eq!(apps[0].game_path, "D:\\Steam\\steamapps\\common\\Half-Life");
    assert_eq!(apps[0].InstalledDepots.len(), 5);
    assert_eq!(apps[1].library_path, "E:\\Lib\\");
    assert_eq!(apps[1].game_path, "E:\\Lib\\steamapps\\common\\Half-Life");
    assert!(apps_of_documents(&vec![]).is_empty());
}

#[test]
fn a_scan_of_documents_fails_at_its_first_failed_stage() {
    let scan = |root_found: bool, folders: Option<Result<Node, String>>| {
        apps_in_documents(&SteamDocuments {
            root_found,
            library_folders: folders,
            manifests: vec![document_read("D:\\Steam", Some(APP_MANIFEST))],
        })
    };
    let folders = || parse_document(LIBRARY_FOLDERS);
    assert_eq!(scan(false, None).unwrap_err(), SteamError::RootUnavailable);
    assert_eq!(scan(false, Some(folders())).unwrap_err(), SteamError::RootUnavailable);
    assert_eq!(scan(true, None).unwrap_err(), SteamError::LibraryFoldersUnavailable);
    assert_eq!(
        scan(true, Some(Err("line 3".to_string()))).unwrap_err(),
        SteamError::LibraryFoldersMalformed(DecodeError::Syntax("line 3".to_string()))
    );
    assert_eq!(
        scan(true, Some(Ok(Node::Text("x".to_string())))).unwrap_err(),
        SteamError::LibraryFoldersMalformed(DecodeError::NotARecord)
    );
    assert_eq!(
        scan(true, Some(Ok(Node::Block(vec![leaf("0", "x")])))).unwrap_err(),
        SteamError::LibraryFoldersMalformed(DecodeError::Invalid("libraryfolders"))
    );
    let apps = scan(true, Some(folders())).unwrap();
    assert_eq!(apps.len(), 1);
    assert_eq!(apps[0].appid, 70);
    assert_eq!(scan(true, Some(Ok(Node::Block(vec![])))).unwrap().len(), 1);
}
