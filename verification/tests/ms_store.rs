use game_detector::ms_store::{
    get_game_packages, package_key_path, parse_app_id, AppIdError, PackageProbe, PathLookup,
    StoreError,
};

const DESTINY: &str = "Bungie.Destiny2PCbasegame_0.3.26071.0_x64__8xb1a0vv8ay84";

fn probe(app_id: &str, lookup: PathLookup) -> PackageProbe {
    PackageProbe { app_id: app_id.to_string(), lookup }
}

#[test]
fn app_id_decomposes_into_its_five_components() {
    let parts = parse_app_id(DESTINY).unwrap();
    assert_eq!(parts, ["Bungie", "Destiny2PCbasegame", "0.3.26071.0", "x64", "8xb1a0vv8ay84"]);
}

#[test]
fn app_id_with_fewer_than_five_tokens_fails() {
    assert_eq!(parse_app_id("Bungie.Destiny2PCbasegame_0.3.26071.0_x64_"), Err(AppIdError::PublisherId));
    assert_eq!(parse_app_id("Bungie.Destiny2PCbasegame_0.3.26071.0_x64"), Err(AppIdError::Field4));
    assert_eq!(parse_app_id("Bungie.Destiny2PCbasegame_0.3.26071.0"), Err(AppIdError::Arch));
    assert_eq!(parse_app_id("Bungie.Destiny2PCbasegame"), Err(AppIdError::Version));
}

#[test]
fn app_id_without_a_dot_in_its_first_token_fails() {
    assert_eq!(parse_app_id("Bungie_0.3.26071.0_x64__8xb1a0vv8ay84"), Err(AppIdError::Name));
    assert_eq!(parse_app_id(""), Err(AppIdError::Name));
    assert_eq!(parse_app_id("____"), Err(AppIdError::Name));
}

#[test]
fn app_id_name_is_checked_before_the_token_count() {
    assert_eq!(parse_app_id("Bungie"), Err(AppIdError::Name));
}

#[test]
fn app_id_ignores_tokens_beyond_those_needed() {
    let parts = parse_app_id("Pub.Name.More_1.0_x86_neutral_id_extra_tokens").unwrap();
    assert_eq!(parts, ["Pub", "Name", "1.0", "x86", "id"]);
}

#[test]
fn app_id_components_may_be_empty() {
    let parts = parse_app_id("._ _ _ _").unwrap();
    assert_eq!(parts, ["", "", " ", " ", ""]);
    let parts = parse_app_id(".____").unwrap();
    assert_eq!(parts, ["", "", "", "", ""]);
}

#[test]
fn package_key_lies_under_the_full_repository() {
    assert_eq!(
        package_key_path(DESTINY),
        format!(
            "SOFTWARE\\Classes\\Local Settings\\Software\\Microsoft\\Windows\\CurrentVersion\\AppModel\\PackageRepository\\Packages\\{DESTINY}"
        )
    );
}

#[test]
fn packages_keep_the_order_of_the_listing() {
    let listing = vec![
        probe(DESTINY, PathLookup::Found("C:\\Program Files\\WindowsApps\\Destiny".to_string())),
        probe("Mojang.Minecraft_1.20.0_x64__8wekyb3d8bbwe", PathLookup::Found("D:\\Apps\\Minecraft".to_string())),
    ];
    let packages = get_game_packages(Some(listing)).unwrap();
    assert_eq!(packages.len(), 2);
    assert_eq!(packages[0].app_id, DESTINY);
    assert_eq!(packages[0].app_publisher, "Bungie");
    assert_eq!(packages[0].app_name, "Destiny2PCbasegame");
    assert_eq!(packages[0].app_version, "0.3.26071.0");
    assert_eq!(packages[0].app_arch, "x64");
    assert_eq!(packages[0].app_publisher_id, "8xb1a0vv8ay84");
    assert_eq!(packages[0].path, "C:\\Program Files\\WindowsApps\\Destiny");
    assert_eq!(packages[1].app_name, "Minecraft");
    assert_eq!(packages[1].path, "D:\\Apps\\Minecraft");
}

#[test]
fn a_missing_path_or_a_bad_id_only_leaves_that_package_out() {
    let listing = vec![
        probe("Some.Package_1_x64__id", PathLookup::PathUnavailable),
        probe("not-an-id", PathLookup::Found("C:\\X".to_string())),
        probe(DESTINY, PathLookup::Found("C:\\Destiny".to_string())),
    ];
    let packages = get_game_packages(Some(listing)).unwrap();
    assert_eq!(packages.len(), 1);
    assert_eq!(packages[0].app_id, DESTINY);
}

#[test]
fn a_package_key_that_cannot_be_opened_fails_the_scan() {
    let listing = vec![
        probe(DESTINY, PathLookup::Found("C:\\Destiny".to_string())),
        probe("First.Gone_1_x64__id", PathLookup::KeyUnavailable),
        probe("Second.Gone_1_x64__id", PathLookup::KeyUnavailable),
    ];
    match get_game_packages(Some(listing)) {
        Err(StoreError::PackageKeyUnavailable(id)) => assert_eq!(id, "First.Gone_1_x64__id"),
        other => panic!("unexpected: {other:?}"),
    }
}

#[test]
fn a_repository_that_cannot_be_opened_fails_the_scan() {
    assert!(matches!(get_game_packages(None), Err(StoreError::RepositoryUnavailable)));
}

#[test]
fn an_empty_listing_gives_no_packages() {
    assert_eq!(get_game_packages(Some(vec![])).unwrap().len(), 0);
}

#[test]
fn errors_say_which_component_is_missing() {
    assert_eq!(AppIdError::Name.message(), "Invalid app id (name)");
    assert_eq!(AppIdError::Version.message(), "Invalid app id (version)");
    assert_eq!(AppIdError::Arch.message(), "Invalid app id (arch)");
    assert_eq!(AppIdError::Field4.message(), "Invalid app id (field4)");
    assert_eq!(AppIdError::PublisherId.message(), "Invalid app id (publisher id)");
    assert_eq!(parse_app_id("a.b_c").unwrap_err().message(), "Invalid app id (arch)");
}
