use game_detector::epic_games::{parse_manifest, Manifest};
use game_detector::ms_store::{get_game_packages, GamePackage, PackageProbe, PathLookup, StoreError};
use game_detector::steam::{install, parse_app_state, AppState};
use game_detector::{find_all_games, InstalledGame};

fn package(name: &str) -> GamePackage {
    GamePackage {
        app_id: format!("Pub.{name}_1.0_x64__id"),
        app_publisher: "Pub".to_string(),
        app_name: name.to_string(),
        app_version: "1.0".to_string(),
        app_arch: "x64".to_string(),
        app_publisher_id: "id".to_string(),
        path: format!("C:\\Apps\\{name}"),
    }
}

fn app(name: &str) -> AppState {
    let text = format!(
        "\"AppState\" {{ \"appid\" \"7\" \"universe\" \"1\" \"name\" \"{name}\" \"StateFlags\" \"4\" \
         \"installdir\" \"{name}\" \"LastUpdated\" \"0\" \"SizeOnDisk\" \"0\" \"StagingSize\" \"0\" \
         \"buildid\" \"1\" \"LastOwner\" \"0\" \"AutoUpdateBehavior\" \"0\" \
         \"AllowOtherDownloadsWhileRunning\" \"1\" \"ScheduledAutoUpdate\" \"0\" \"InstalledDepots\" {{ }} }}"
    );
    install(parse_app_state(&text).unwrap(), "D:\\Steam")
}

fn manifest(name: &str) -> Manifest {
    let arrays = [
        "BaseURLs", "AppCategories", "ChunkDbs", "CompatibleApps", "InstallTags",
        "InstallComponents", "PrereqIds", "ProcessNames", "BackgroundProcessNames",
        "IgnoredProcessNames", "DlcProcessNames", "AllowedUriEnvVars",
    ];
    let flags = [
        "bIsIncompleteInstall", "bIsApplication", "bIsExecutable", "bIsManaged",
        "bNeedsValidation", "bRequiresAuth", "bAllowMultipleInstances", "bCanRunOffline",
        "bAllowUriCmdArgs", "bLaunchElevated",
    ];
    let texts = [
        "LaunchCommand", "LaunchExecutable", "ManifestLocation", "ManifestHash", "BuildLabel",
        "InstallationGuid", "InstallLocation", "InstallSessionId", "HostInstallationGuid",
        "PrereqSHA1Hash", "LastPrereqSucceededSHA1Hash", "StagingLocation", "TechnicalType",
        "VaultThumbnailUrl", "VaultTitleText", "MainWindowProcessName", "MandatoryAppFolderName",
        "OwnershipToken", "CatalogNamespace", "CatalogItemId", "AppName", "AppVersionString",
        "MainGameCatalogNamespace", "MainGameCatalogItemId", "MainGameAppName",
    ];
    let mut members: Vec<String> = Vec::new();
    members.push("\"FormatVersion\": 0".to_string());
    members.push("\"InstallSize\": 1".to_string());
    members.push(format!("\"DisplayName\": \"{name}\""));
    for key in arrays {
        members.push(format!("\"{key}\": []"));
    }
    for key in flags {
        members.push(format!("\"{key}\": false"));
    }
    for key in texts {
        members.push(format!("\"{key}\": \"\""));
    }
    parse_manifest(&format!("{{{}}}", members.join(", "))).unwrap()
}

fn names(games: &[InstalledGame]) -> Vec<String> {
    games
        .iter()
        .map(|game| match game {
            InstalledGame::Steam(a) => format!("steam:{}", a.name),
            InstalledGame::EpicGames(m) => format!("epic:{}", m.display_name),
            InstalledGame::MicrosoftStore(p) => format!("store:{}", p.app_name),
        })
        .collect()
}

#[test]
fn store_names_are_those_of_the_stores() {
    assert_eq!(InstalledGame::Steam(Box::new(app("A"))).store_name(), "Steam");
    assert_eq!(InstalledGame::EpicGames(Box::new(manifest("B"))).store_name(), "Epic Games");
    assert_eq!(
        InstalledGame::MicrosoftStore(Box::new(package("C"))).store_name(),
        "Microsoft Store"
    );
}

#[test]
fn games_come_store_by_store_in_a_fixed_order() {
    let games = find_all_games::<String, String, String>(
        Ok(vec![package("Halo"), package("Forza")]),
        Ok(vec![app("Portal"), app("Dota"), app("Rust")]),
        Ok(vec![manifest("Fortnite")]),
    );
    assert_eq!(
        names(&games),
        vec!["store:Halo", "store:Forza", "steam:Portal", "steam:Dota", "steam:Rust", "epic:Fortnite"]
    );
}

#[test]
fn a_failed_store_contributes_nothing_and_harms_no_other() {
    let games = find_all_games::<String, String, String>(
        Ok(vec![package("Halo")]),
        Err("no registry".to_string()),
        Ok(vec![manifest("Fortnite"), manifest("Control")]),
    );
    assert_eq!(names(&games), vec!["store:Halo", "epic:Fortnite", "epic:Control"]);

    let games = find_all_games::<String, String, String>(
        Err("no registry".to_string()),
        Ok(vec![app("Portal")]),
        Ok(vec![manifest("Fortnite")]),
    );
    assert_eq!(names(&games), vec!["steam:Portal", "epic:Fortnite"]);

    let games = find_all_games::<String, String, String>(
        Ok(vec![package("Halo")]),
        Ok(vec![app("Portal")]),
        Err("bad pattern".to_string()),
    );
    assert_eq!(names(&games), vec!["store:Halo", "steam:Portal"]);
}

#[test]
fn the_error_of_a_scan_is_taken_as_it_comes() {
    let listing = vec![PackageProbe { app_id: "a.b_1_x_y_z".to_string(), lookup: PathLookup::KeyUnavailable }];
    let packages: Result<Vec<GamePackage>, StoreError> = get_game_packages(Some(listing));
    let games = find_all_games::<StoreError, (), ()>(packages, Ok(vec![app("Portal")]), Ok(vec![]));
    assert_eq!(names(&games), vec!["steam:Portal"]);
}

#[test]
fn all_stores_failing_gives_no_games() {
    let games = find_all_games::<(), (), ()>(Err(()), Err(()), Err(()));
    assert!(games.is_empty());
}

#[test]
fn records_are_kept_whole() {
    let games = find_all_games::<(), (), ()>(Ok(vec![package("Halo")]), Ok(vec![app("Portal")]), Ok(vec![]));
    match &games[0] {
        InstalledGame::MicrosoftStore(p) => assert_eq!(p.path, "C:\\Apps\\Halo"),
        other => panic!("unexpected: {other:?}"),
    }
    match &games[1] {
        InstalledGame::Steam(a) => assert_eq!(a.game_path, "D:\\Steam\\steamapps\\common\\Portal"),
        other => panic!("unexpected: {other:?}"),
    }
}
