use game_detector::decode::DecodeError;
use game_detector::epic_games::{decode_manifest, get_all_manifests, parse_manifest, MANIFESTS_GLOB};
use game_detector::json::{parse_json, Json};

const ITEM: &str = r#"{
	"FormatVersion": 0,
	"bIsIncompleteInstall": false,
	"LaunchCommand": "-epicapp=Fortnite",
	"LaunchExecutable": "FortniteGame/Binaries/Win64/FortniteLauncher.exe",
	"ManifestLocation": "D:\\Epic Games\\Fortnite/.egstore",
	"ManifestHash": "4d55a1d7a3f9c2e6",
	"bIsApplication": true,
	"bIsExecutable": true,
	"bIsManaged": false,
	"bNeedsValidation": false,
	"bRequiresAuth": true,
	"bAllowMultipleInstances": false,
	"bCanRunOffline": false,
	"bAllowUriCmdArgs": true,
	"bLaunchElevated": false,
	"BaseURLs": [
		"http://epicgames-download1.akamaized.net/Builds/Fortnite/CloudDir",
		"http://download.epicgames.com/Builds/Fortnite/CloudDir"
	],
	"BuildLabel": "Live",
	"AppCategories": [
		"public",
		"games",
		"applications"
	],
	"ChunkDbs": [],
	"CompatibleApps": [],
	"DisplayName": "Fortnite",
	"InstallationGuid": "0F3D92B64E2B53F4E1A0C2A26C1B9C5D",
	"InstallLocation": "D:\\Epic Games\\Fortnite",
	"InstallSessionId": "A7E1C0B24C5F6D7E8F9A0B1C2D3E4F50",
	"InstallTags": [
		"core",
		7
	],
	"InstallComponents": [],
	"HostInstallationGuid": "00000000000000000000000000000000",
	"PrereqIds": [],
	"PrereqSHA1Hash": "",
	"LastPrereqSucceededSHA1Hash": "",
	"StagingLocation": "D:\\Epic Games\\Fortnite/.egstore/bps",
	"TechnicalType": "games,applications",
	"VaultThumbnailUrl": "",
	"VaultTitleText": "",
	"InstallSize": 31810890011,
	"MainWindowProcessName": "",
	"ProcessNames": [],
	"BackgroundProcessNames": [],
	"IgnoredProcessNames": [],
	"DlcProcessNames": [],
	"MandatoryAppFolderName": "Fortnite",
	"OwnershipToken": "false",
	"CatalogNamespace": "fn",
	"CatalogItemId": "4fe75bbc5a674f4f9b356b5c90567da5",
	"AppName": "Fortnite",
	"AppVersionString": "++Fortnite+Release-28.10-CL-30835025-Windows",
	"MainGameCatalogNamespace": "fn",
	"MainGameCatalogItemId": "4fe75bbc5a674f4f9b356b5c90567da5",
	"MainGameAppName": "Fortnite",
	"AllowedUriEnvVars": [
		{ "Name": "FORTNITE_ENV", "Reason": 1.5 }
	],
	"SomethingNew": { "ignored": true }
}"#;

#[test]
fn a_manifest_holds_what_the_file_holds() {
    let manifest = parse_manifest(ITEM).unwrap();
    assert_eq!(manifest.format_version, 0);
    assert!(!manifest.is_incomplete_install);
    assert_eq!(manifest.launch_command, "-epicapp=Fortnite");
    assert_eq!(manifest.launch_executable, "FortniteGame/Binaries/Win64/FortniteLauncher.exe");
    assert_eq!(manifest.manifest_location, "D:\\Epic Games\\Fortnite/.egstore");
    assert!(manifest.is_application);
    assert!(manifest.is_executable);
    assert!(!manifest.is_managed);
    assert!(manifest.requires_auth);
    assert!(manifest.allow_uri_cmd_args);
    assert_eq!(
        manifest.base_urls,
        vec![
            "http://epicgames-download1.akamaized.net/Builds/Fortnite/CloudDir",
            "http://download.epicgames.com/Builds/Fortnite/CloudDir"
        ]
    );
    assert_eq!(manifest.app_categories, vec!["public", "games", "applications"]);
    assert_eq!(manifest.display_name, "Fortnite");
    assert_eq!(manifest.install_location, "D:\\Epic Games\\Fortnite");
    assert_eq!(manifest.prereq_sha1hash, "");
    assert_eq!(manifest.install_size, 31810890011);
    assert_eq!(manifest.app_name, "Fortnite");
    assert_eq!(manifest.app_version_string, "++Fortnite+Release-28.10-CL-30835025-Windows");
    assert_eq!(manifest.main_game_app_name, "Fortnite");
}

#[test]
fn arrays_of_unknown_shape_are_kept_as_they_are() {
    let manifest = parse_manifest(ITEM).unwrap();
    assert!(manifest.chunk_dbs.is_empty());
    assert_eq!(manifest.install_tags.len(), 2);
    assert!(matches!(&manifest.install_tags[0], Json::Text(text) if text == "core"));
    assert!(matches!(manifest.install_tags[1], Json::Int(7)));
    assert_eq!(manifest.allowed_uri_env_vars.len(), 1);
    match &manifest.allowed_uri_env_vars[0] {
        Json::Object(members) => {
            assert_eq!(members.len(), 2);
            assert_eq!(members[0].key, "Name");
            assert!(matches!(&members[1].value, Json::Number(text) if text == "1.5"));
        },
        other => panic!("no object: {other:?}"),
    }
}

#[test]
fn a_missing_field_fails_the_manifest() {
    let text = ITEM.replace("\"DisplayName\": \"Fortnite\",", "");
    assert_eq!(parse_manifest(&text).unwrap_err(), DecodeError::Missing("DisplayName"));
}

#[test]
fn the_first_bad_field_of_a_manifest_is_named() {
    let text = ITEM
        .replace("\"AppName\": \"Fortnite\",", "")
        .replace("\"bIsManaged\": false,", "\"bIsManaged\": 0,");
    assert_eq!(parse_manifest(&text).unwrap_err(), DecodeError::Invalid("bIsManaged"));
}

#[test]
fn a_field_of_the_wrong_type_fails_the_manifest() {
    let text = ITEM.replace("\"InstallSize\": 31810890011,", "\"InstallSize\": \"31810890011\",");
    assert_eq!(parse_manifest(&text).unwrap_err(), DecodeError::Invalid("InstallSize"));
    let text = ITEM.replace("\"InstallSize\": 31810890011,", "\"InstallSize\": 3.5,");
    assert_eq!(parse_manifest(&text).unwrap_err(), DecodeError::Invalid("InstallSize"));
    let text = ITEM.replace("\"public\",", "1,");
    assert_eq!(parse_manifest(&text).unwrap_err(), DecodeError::Invalid("AppCategories"));
    let text = ITEM.replace("\"ChunkDbs\": [],", "\"ChunkDbs\": {},");
    assert_eq!(parse_manifest(&text).unwrap_err(), DecodeError::Invalid("ChunkDbs"));
    let text = ITEM.replace("\"LaunchCommand\": \"-epicapp=Fortnite\",", "\"LaunchCommand\": null,");
    assert_eq!(parse_manifest(&text).unwrap_err(), DecodeError::Invalid("LaunchCommand"));
}

#[test]
fn keys_are_matched_by_their_exact_spelling() {
    let text = ITEM.replace("\"bIsManaged\"", "\"IsManaged\"");
    assert_eq!(parse_manifest(&text).unwrap_err(), DecodeError::Missing("bIsManaged"));
    let text = ITEM.replace("\"BaseURLs\"", "\"BaseUrls\"");
    assert_eq!(parse_manifest(&text).unwrap_err(), DecodeError::Missing("BaseURLs"));
}

#[test]
fn text_that_is_no_json_is_a_syntax_error() {
    assert!(matches!(parse_manifest("{").unwrap_err(), DecodeError::Syntax(_)));
    match parse_manifest("").unwrap_err() {
        DecodeError::Syntax(message) => assert!(message.contains("EOF")),
        other => panic!("unexpected: {other:?}"),
    }
}

#[test]
fn a_document_that_is_no_object_is_no_manifest() {
    assert_eq!(parse_manifest("[]").unwrap_err(), DecodeError::NotARecord);
    assert_eq!(parse_manifest("\"x\"").unwrap_err(), DecodeError::NotARecord);
    assert_eq!(decode_manifest(&Json::Null).unwrap_err(), DecodeError::NotARecord);
}

#[test]
fn a_manifest_can_be_decoded_from_a_document() {
    let doc = parse_json(ITEM).unwrap();
    let manifest = decode_manifest(&doc).unwrap();
    assert_eq!(manifest.catalog_namespace, "fn");
}

#[test]
fn files_that_cannot_be_read_are_left_out() {
    let second = ITEM.replace("\"DisplayName\": \"Fortnite\"", "\"DisplayName\": \"Rocket League\"");
    let files = vec![
        None,
        Some(ITEM.to_string()),
        Some("{ not json".to_string()),
        Some("{}".to_string()),
        Some(second),
    ];
    let manifests = get_all_manifests(&files);
    assert_eq!(manifests.len(), 2);
    assert_eq!(manifests[0].display_name, "Fortnite");
    assert_eq!(manifests[1].display_name, "Rocket League");
}

#[test]
fn no_files_give_no_manifests() {
    assert!(get_all_manifests(&vec![]).is_empty());
}

#[test]
fn manifests_lie_in_the_launcher_data_directory() {
    assert_eq!(MANIFESTS_GLOB, "C:\\ProgramData\\Epic\\EpicGamesLauncher\\Data\\Manifests\\*.item");
}

#[test]
fn manifests_are_equal_where_every_field_is() {
    let first = parse_manifest(ITEM).unwrap();
    assert_eq!(first, parse_manifest(ITEM).unwrap());
    assert_eq!(first, first.clone());
    let other = parse_manifest(&ITEM.replace("\"core\"", "\"extra\"")).unwrap();
    assert_ne!(first, other);
}
