//! Games that the Epic Games launcher has installed.
//!
//! The launcher keeps one JSON manifest per installed game. The files are found and
//! read by the caller; this module says where to look and what the manifests mean.

use crate::decode::{either, failure_of, DecodeError, Failure};
use crate::json::{
    json_models, member_models, need_bool, need_int, need_text, need_texts, need_values,
    object_entries, parse_json, parsed_json, required_bool, required_int, required_text,
    required_texts, required_values, Json, JsonMember, JsonTree, Member,
};
use crate::text::views;
use vstd::prelude::*;

verus! {

/// The files that hold the launcher's manifests, as a glob pattern.
pub const MANIFESTS_GLOB: &'static str =
    "C:\\ProgramData\\Epic\\EpicGamesLauncher\\Data\\Manifests\\*.item";

/// What the launcher records about one installed game. Every field is taken from
/// the manifest as it stands.
#[derive(Default, Debug, Clone, PartialEq)]
pub struct Manifest {
    pub format_version: i64,
    pub is_incomplete_install: bool,
    pub launch_command: String,
    pub launch_executable: String,
    pub manifest_location: String,
    pub manifest_hash: String,
    pub is_application: bool,
    pub is_executable: bool,
    pub is_managed: bool,
    pub needs_validation: bool,
    pub requires_auth: bool,
    pub allow_multiple_instances: bool,
    pub can_run_offline: bool,
    pub allow_uri_cmd_args: bool,
    pub launch_elevated: bool,
    pub base_urls: Vec<String>,
    pub build_label: String,
    pub app_categories: Vec<String>,
    pub chunk_dbs: Vec<Json>,
    pub compatible_apps: Vec<Json>,
    pub display_name: String,
    pub installation_guid: String,
    pub install_location: String,
    pub install_session_id: String,
    pub install_tags: Vec<Json>,
    pub install_components: Vec<Json>,
    pub host_installation_guid: String,
    pub prereq_ids: Vec<Json>,
    pub prereq_sha1hash: String,
    pub last_prereq_succeeded_sha1hash: String,
    pub staging_location: String,
    pub technical_type: String,
    pub vault_thumbnail_url: String,
    pub vault_title_text: String,
    pub install_size: i64,
    pub main_window_process_name: String,
    pub process_names: Vec<Json>,
    pub background_process_names: Vec<Json>,
    pub ignored_process_names: Vec<Json>,
    pub dlc_process_names: Vec<Json>,
    pub mandatory_app_folder_name: String,
    pub ownership_token: String,
    pub catalog_namespace: String,
    pub catalog_item_id: String,
    pub app_name: String,
    pub app_version_string: String,
    pub main_game_catalog_namespace: String,
    pub main_game_catalog_item_id: String,
    pub main_game_app_name: String,
    pub allowed_uri_env_vars: Vec<Json>,
}

/// What a [`Manifest`] holds, as mathematical values.
pub struct ManifestView {
    pub format_version: i64,
    pub is_incomplete_install: bool,
    pub launch_command: Seq<char>,
    pub launch_executable: Seq<char>,
    pub manifest_location: Seq<char>,
    pub manifest_hash: Seq<char>,
    pub is_application: bool,
    pub is_executable: bool,
    pub is_managed: bool,
    pub needs_validation: bool,
    pub requires_auth: bool,
    pub allow_multiple_instances: bool,
    pub can_run_offline: bool,
    pub allow_uri_cmd_args: bool,
    pub launch_elevated: bool,
    pub base_urls: Seq<Seq<char>>,
    pub build_label: Seq<char>,
    pub app_categories: Seq<Seq<char>>,
    pub chunk_dbs: Seq<JsonTree>,
    pub compatible_apps: Seq<JsonTree>,
    pub display_name: Seq<char>,
    pub installation_guid: Seq<char>,
    pub install_location: Seq<char>,
    pub install_session_id: Seq<char>,
    pub install_tags: Seq<JsonTree>,
    pub install_components: Seq<JsonTree>,
    pub host_installation_guid: Seq<char>,
    pub prereq_ids: Seq<JsonTree>,
    pub prereq_sha1hash: Seq<char>,
    pub last_prereq_succeeded_sha1hash: Seq<char>,
    pub staging_location: Seq<char>,
    pub technical_type: Seq<char>,
    pub vault_thumbnail_url: Seq<char>,
    pub vault_title_text: Seq<char>,
    pub install_size: i64,
    pub main_window_process_name: Seq<char>,
    pub process_names: Seq<JsonTree>,
    pub background_process_names: Seq<JsonTree>,
    pub ignored_process_names: Seq<JsonTree>,
    pub dlc_process_names: Seq<JsonTree>,
    pub mandatory_app_folder_name: Seq<char>,
    pub ownership_token: Seq<char>,
    pub catalog_namespace: Seq<char>,
    pub catalog_item_id: Seq<char>,
    pub app_name: Seq<char>,
    pub app_version_string: Seq<char>,
    pub main_game_catalog_namespace: Seq<char>,
    pub main_game_catalog_item_id: Seq<char>,
    pub main_game_app_name: Seq<char>,
    pub allowed_uri_env_vars: Seq<JsonTree>,
}

impl View for Manifest {
    type V = ManifestView;

    open spec fn view(&self) -> ManifestView {
        ManifestView {
            format_version: self.format_version,
            is_incomplete_install: self.is_incomplete_install,
            launch_command: self.launch_command@,
            launch_executable: self.launch_executable@,
            manifest_location: self.manifest_location@,
            manifest_hash: self.manifest_hash@,
            is_application: self.is_application,
            is_executable: self.is_executable,
            is_managed: self.is_managed,
            needs_validation: self.needs_validation,
            requires_auth: self.requires_auth,
            allow_multiple_instances: self.allow_multiple_instances,
            can_run_offline: self.can_run_offline,
            allow_uri_cmd_args: self.allow_uri_cmd_args,
            launch_elevated: self.launch_elevated,
            base_urls: views(self.base_urls@),
            build_label: self.build_label@,
            app_categories: views(self.app_categories@),
            chunk_dbs: json_models(self.chunk_dbs@),
            compatible_apps: json_models(self.compatible_apps@),
            display_name: self.display_name@,
            installation_guid: self.installation_guid@,
            install_location: self.install_location@,
            install_session_id: self.install_session_id@,
            install_tags: json_models(self.install_tags@),
            install_components: json_models(self.install_components@),
            host_installation_guid: self.host_installation_guid@,
            prereq_ids: json_models(self.prereq_ids@),
            prereq_sha1hash: self.prereq_sha1hash@,
            last_prereq_succeeded_sha1hash: self.last_prereq_succeeded_sha1hash@,
            staging_location: self.staging_location@,
            technical_type: self.technical_type@,
            vault_thumbnail_url: self.vault_thumbnail_url@,
            vault_title_text: self.vault_title_text@,
            install_size: self.install_size,
            main_window_process_name: self.main_window_process_name@,
            process_names: json_models(self.process_names@),
            background_process_names: json_models(self.background_process_names@),
            ignored_process_names: json_models(self.ignored_process_names@),
            dlc_process_names: json_models(self.dlc_process_names@),
            mandatory_app_folder_name: self.mandatory_app_folder_name@,
            ownership_token: self.ownership_token@,
            catalog_namespace: self.catalog_namespace@,
            catalog_item_id: self.catalog_item_id@,
            app_name: self.app_name@,
            app_version_string: self.app_version_string@,
            main_game_catalog_namespace: self.main_game_catalog_namespace@,
            main_game_catalog_item_id: self.main_game_catalog_item_id@,
            main_game_app_name: self.main_game_app_name@,
            allowed_uri_env_vars: json_models(self.allowed_uri_env_vars@),
        }
    }
}

/// The first of the first ten fields of a manifest, in the order of [`Manifest`]'s
/// fields, that is missing or malformed in the object with the members `m`.
pub open spec fn manifest_failure_1(m: Seq<Member>) -> Option<Failure> {
    either(failure_of(required_int(m, "FormatVersion"@)),
    either(failure_of(required_bool(m, "bIsIncompleteInstall"@)),
    either(failure_of(required_text(m, "LaunchCommand"@)),
    either(failure_of(required_text(m, "LaunchExecutable"@)),
    either(failure_of(required_text(m, "ManifestLocation"@)),
    either(failure_of(required_text(m, "ManifestHash"@)),
    either(failure_of(required_bool(m, "bIsApplication"@)),
    either(failure_of(required_bool(m, "bIsExecutable"@)),
    either(failure_of(required_bool(m, "bIsManaged"@)),
    failure_of(required_bool(m, "bNeedsValidation"@))
    )))))))))
}

/// The first of the second ten fields of a manifest, in the order of [`Manifest`]'s
/// fields, that is missing or malformed in the object with the members `m`.
pub open spec fn manifest_failure_2(m: Seq<Member>) -> Option<Failure> {
    either(failure_of(required_bool(m, "bRequiresAuth"@)),
    either(failure_of(required_bool(m, "bAllowMultipleInstances"@)),
    either(failure_of(required_bool(m, "bCanRunOffline"@)),
    either(failure_of(required_bool(m, "bAllowUriCmdArgs"@)),
    either(failure_of(required_bool(m, "bLaunchElevated"@)),
    either(failure_of(required_texts(m, "BaseURLs"@)),
    either(failure_of(required_text(m, "BuildLabel"@)),
    either(failure_of(required_texts(m, "AppCategories"@)),
    either(failure_of(required_values(m, "ChunkDbs"@)),
    failure_of(required_values(m, "CompatibleApps"@))
    )))))))))
}

/// The first of the third ten fields of a manifest, in the order of [`Manifest`]'s
/// fields, that is missing or malformed in the object with the members `m`.
pub open spec fn manifest_failure_3(m: Seq<Member>) -> Option<Failure> {
    either(failure_of(required_text(m, "DisplayName"@)),
    either(failure_of(required_text(m, "InstallationGuid"@)),
    either(failure_of(required_text(m, "InstallLocation"@)),
    either(failure_of(required_text(m, "InstallSessionId"@)),
    either(failure_of(required_values(m, "InstallTags"@)),
    either(failure_of(required_values(m, "InstallComponents"@)),
    either(failure_of(required_text(m, "HostInstallationGuid"@)),
    either(failure_of(required_values(m, "PrereqIds"@)),
    either(failure_of(required_text(m, "PrereqSHA1Hash"@)),
    failure_of(required_text(m, "LastPrereqSucceededSHA1Hash"@))
    )))))))))
}

/// The first of the fourth ten fields of a manifest, in the order of [`Manifest`]'s
/// fields, that is missing or malformed in the object with the members `m`.
pub open spec fn manifest_failure_4(m: Seq<Member>) -> Option<Failure> {
    either(failure_of(required_text(m, "StagingLocation"@)),
    either(failure_of(required_text(m, "TechnicalType"@)),
    either(failure_of(required_text(m, "VaultThumbnailUrl"@)),
    either(failure_of(required_text(m, "VaultTitleText"@)),
    either(failure_of(required_int(m, "InstallSize"@)),
    either(failure_of(required_text(m, "MainWindowProcessName"@)),
    either(failure_of(required_values(m, "ProcessNames"@)),
    either(failure_of(required_values(m, "BackgroundProcessNames"@)),
    either(failure_of(required_values(m, "IgnoredProcessNames"@)),
    failure_of(required_values(m, "DlcProcessNames"@))
    )))))))))
}

/// The first of the fifth ten fields of a manifest, in the order of [`Manifest`]'s
/// fields, that is missing or malformed in the object with the members `m`.
pub open spec fn manifest_failure_5(m: Seq<Member>) -> Option<Failure> {
    either(failure_of(required_text(m, "MandatoryAppFolderName"@)),
    either(failure_of(required_text(m, "OwnershipToken"@)),
    either(failure_of(required_text(m, "CatalogNamespace"@)),
    either(failure_of(required_text(m, "CatalogItemId"@)),
    either(failure_of(required_text(m, "AppName"@)),
    either(failure_of(required_text(m, "AppVersionString"@)),
    either(failure_of(required_text(m, "MainGameCatalogNamespace"@)),
    either(failure_of(required_text(m, "MainGameCatalogItemId"@)),
    either(failure_of(required_text(m, "MainGameAppName"@)),
    failure_of(required_values(m, "AllowedUriEnvVars"@))
    )))))))))
}

/// The first field of a manifest, in the order of [`Manifest`]'s fields, that is
/// missing or malformed in the object with the members `m`.
pub open spec fn manifest_failure(m: Seq<Member>) -> Option<Failure> {
    either(manifest_failure_1(m),
    either(manifest_failure_2(m),
    either(manifest_failure_3(m),
    either(manifest_failure_4(m),
    manifest_failure_5(m)
    ))))
}

/// The manifest that the object with the members `m` holds, where no field is
/// missing or malformed. Keys that are no field of a manifest are passed over.
pub open spec fn manifest_fields(m: Seq<Member>) -> ManifestView {
    ManifestView {
        format_version: required_int(m, "FormatVersion"@)->Ok_0,
        is_incomplete_install: required_bool(m, "bIsIncompleteInstall"@)->Ok_0,
        launch_command: required_text(m, "LaunchCommand"@)->Ok_0,
        launch_executable: required_text(m, "LaunchExecutable"@)->Ok_0,
        manifest_location: required_text(m, "ManifestLocation"@)->Ok_0,
        manifest_hash: required_text(m, "ManifestHash"@)->Ok_0,
        is_application: required_bool(m, "bIsApplication"@)->Ok_0,
        is_executable: required_bool(m, "bIsExecutable"@)->Ok_0,
        is_managed: required_bool(m, "bIsManaged"@)->Ok_0,
        needs_validation: required_bool(m, "bNeedsValidation"@)->Ok_0,
        requires_auth: required_bool(m, "bRequiresAuth"@)->Ok_0,
        allow_multiple_instances: required_bool(m, "bAllowMultipleInstances"@)->Ok_0,
        can_run_offline: required_bool(m, "bCanRunOffline"@)->Ok_0,
        allow_uri_cmd_args: required_bool(m, "bAllowUriCmdArgs"@)->Ok_0,
        launch_elevated: required_bool(m, "bLaunchElevated"@)->Ok_0,
        base_urls: required_texts(m, "BaseURLs"@)->Ok_0,
        build_label: required_text(m, "BuildLabel"@)->Ok_0,
        app_categories: required_texts(m, "AppCategories"@)->Ok_0,
        chunk_dbs: required_values(m, "ChunkDbs"@)->Ok_0,
        compatible_apps: required_values(m, "CompatibleApps"@)->Ok_0,
        display_name: required_text(m, "DisplayName"@)->Ok_0,
        installation_guid: required_text(m, "InstallationGuid"@)->Ok_0,
        install_location: required_text(m, "InstallLocation"@)->Ok_0,
        install_session_id: required_text(m, "InstallSessionId"@)->Ok_0,
        install_tags: required_values(m, "InstallTags"@)->Ok_0,
        install_components: required_values(m, "InstallComponents"@)->Ok_0,
        host_installation_guid: required_text(m, "HostInstallationGuid"@)->Ok_0,
        prereq_ids: required_values(m, "PrereqIds"@)->Ok_0,
        prereq_sha1hash: required_text(m, "PrereqSHA1Hash"@)->Ok_0,
        last_prereq_succeeded_sha1hash: required_text(m, "LastPrereqSucceededSHA1Hash"@)->Ok_0,
        staging_location: required_text(m, "StagingLocation"@)->Ok_0,
        technical_type: required_text(m, "TechnicalType"@)->Ok_0,
        vault_thumbnail_url: required_text(m, "VaultThumbnailUrl"@)->Ok_0,
        vault_title_text: required_text(m, "VaultTitleText"@)->Ok_0,
        install_size: required_int(m, "InstallSize"@)->Ok_0,
        main_window_process_name: required_text(m, "MainWindowProcessName"@)->Ok_0,
        process_names: required_values(m, "ProcessNames"@)->Ok_0,
        background_process_names: required_values(m, "BackgroundProcessNames"@)->Ok_0,
        ignored_process_names: required_values(m, "IgnoredProcessNames"@)->Ok_0,
        dlc_process_names: required_values(m, "DlcProcessNames"@)->Ok_0,
        mandatory_app_folder_name: required_text(m, "MandatoryAppFolderName"@)->Ok_0,
        ownership_token: required_text(m, "OwnershipToken"@)->Ok_0,
        catalog_namespace: required_text(m, "CatalogNamespace"@)->Ok_0,
        catalog_item_id: required_text(m, "CatalogItemId"@)->Ok_0,
        app_name: required_text(m, "AppName"@)->Ok_0,
        app_version_string: required_text(m, "AppVersionString"@)->Ok_0,
        main_game_catalog_namespace: required_text(m, "MainGameCatalogNamespace"@)->Ok_0,
        main_game_catalog_item_id: required_text(m, "MainGameCatalogItemId"@)->Ok_0,
        main_game_app_name: required_text(m, "MainGameAppName"@)->Ok_0,
        allowed_uri_env_vars: required_values(m, "AllowedUriEnvVars"@)->Ok_0,
    }
}

/// The manifest that a document holds.
pub open spec fn manifest_of(tree: JsonTree) -> Result<ManifestView, Failure> {
    match tree {
        JsonTree::Object(m) => match manifest_failure(m) {
            Some(e) => Err(e),
            None => Ok(manifest_fields(m)),
        },
        _ => Err(Failure::NotARecord),
    }
}

/// What the JSON text `text` decodes to; nothing where it is not well-formed JSON.
pub open spec fn manifest_in(text: Seq<char>) -> Option<Result<ManifestView, Failure>> {
    match parsed_json(text) {
        None => None,
        Some(tree) => Some(manifest_of(tree)),
    }
}

/// Decodes the first ten fields of a manifest.
fn decode_part_1(members: &Vec<JsonMember>) -> (r: Result<
    (
        i64,
        bool,
        String,
        String,
        String,
        String,
        bool,
        bool,
        bool,
        bool,
    ),
    DecodeError,
>)
    ensures
        match manifest_failure_1(member_models(members@)) {
            Some(e) => r is Err && r->Err_0@ == e,
            None => r is Ok && ({
                let m = member_models(members@);
                let p = r->Ok_0;
                &&& p.0 == required_int(m, "FormatVersion"@)->Ok_0
                &&& p.1 == required_bool(m, "bIsIncompleteInstall"@)->Ok_0
                &&& p.2@ == required_text(m, "LaunchCommand"@)->Ok_0
                &&& p.3@ == required_text(m, "LaunchExecutable"@)->Ok_0
                &&& p.4@ == required_text(m, "ManifestLocation"@)->Ok_0
                &&& p.5@ == required_text(m, "ManifestHash"@)->Ok_0
                &&& p.6 == required_bool(m, "bIsApplication"@)->Ok_0
                &&& p.7 == required_bool(m, "bIsExecutable"@)->Ok_0
                &&& p.8 == required_bool(m, "bIsManaged"@)->Ok_0
                &&& p.9 == required_bool(m, "bNeedsValidation"@)->Ok_0
            }),
        },
{
    let format_version = need_int(members, "FormatVersion")?;
    let is_incomplete_install = need_bool(members, "bIsIncompleteInstall")?;
    let launch_command = need_text(members, "LaunchCommand")?;
    let launch_executable = need_text(members, "LaunchExecutable")?;
    let manifest_location = need_text(members, "ManifestLocation")?;
    let manifest_hash = need_text(members, "ManifestHash")?;
    let is_application = need_bool(members, "bIsApplication")?;
    let is_executable = need_bool(members, "bIsExecutable")?;
    let is_managed = need_bool(members, "bIsManaged")?;
    let needs_validation = need_bool(members, "bNeedsValidation")?;
    Ok((
        format_version,
        is_incomplete_install,
        launch_command,
        launch_executable,
        manifest_location,
        manifest_hash,
        is_application,
        is_executable,
        is_managed,
        needs_validation,
    ))
}

/// Decodes the second ten fields of a manifest.
fn decode_part_2(members: &Vec<JsonMember>) -> (r: Result<
    (
        bool,
        bool,
        bool,
        bool,
        bool,
        Vec<String>,
        String,
        Vec<String>,
        Vec<Json>,
        Vec<Json>,
    ),
    DecodeError,
>)
    ensures
        match manifest_failure_2(member_models(members@)) {
            Some(e) => r is Err && r->Err_0@ == e,
            None => r is Ok && ({
                let m = member_models(members@);
                let p = r->Ok_0;
                &&& p.0 == required_bool(m, "bRequiresAuth"@)->Ok_0
                &&& p.1 == required_bool(m, "bAllowMultipleInstances"@)->Ok_0
                &&& p.2 == required_bool(m, "bCanRunOffline"@)->Ok_0
                &&& p.3 == required_bool(m, "bAllowUriCmdArgs"@)->Ok_0
                &&& p.4 == required_bool(m, "bLaunchElevated"@)->Ok_0
                &&& views(p.5@) == required_texts(m, "BaseURLs"@)->Ok_0
                &&& p.6@ == required_text(m, "BuildLabel"@)->Ok_0
                &&& views(p.7@) == required_texts(m, "AppCategories"@)->Ok_0
                &&& json_models(p.8@) == required_values(m, "ChunkDbs"@)->Ok_0
                &&& json_models(p.9@) == required_values(m, "CompatibleApps"@)->Ok_0
            }),
        },
{
    let requires_auth = need_bool(members, "bRequiresAuth")?;
    let allow_multiple_instances = need_bool(members, "bAllowMultipleInstances")?;
    let can_run_offline = need_bool(members, "bCanRunOffline")?;
    let allow_uri_cmd_args = need_bool(members, "bAllowUriCmdArgs")?;
    let launch_elevated = need_bool(members, "bLaunchElevated")?;
    let base_urls = need_texts(members, "BaseURLs")?;
    let build_label = need_text(members, "BuildLabel")?;
    let app_categories = need_texts(members, "AppCategories")?;
    let chunk_dbs = need_values(members, "ChunkDbs")?;
    let compatible_apps = need_values(members, "CompatibleApps")?;
    Ok((
        requires_auth,
        allow_multiple_instances,
        can_run_offline,
        allow_uri_cmd_args,
        launch_elevated,
        base_urls,
        build_label,
        app_categories,
        chunk_dbs,
        compatible_apps,
    ))
}

/// Decodes the third ten fields of a manifest.
fn decode_part_3(members: &Vec<JsonMember>) -> (r: Result<
    (
        String,
        String,
        String,
        String,
        Vec<Json>,
        Vec<Json>,
        String,
        Vec<Json>,
        String,
        String,
    ),
    DecodeError,
>)
    ensures
        match manifest_failure_3(member_models(members@)) {
            Some(e) => r is Err && r->Err_0@ == e,
            None => r is Ok && ({
                let m = member_models(members@);
                let p = r->Ok_0;
                &&& p.0@ == required_text(m, "DisplayName"@)->Ok_0
                &&& p.1@ == required_text(m, "InstallationGuid"@)->Ok_0
                &&& p.2@ == required_text(m, "InstallLocation"@)->Ok_0
                &&& p.3@ == required_text(m, "InstallSessionId"@)->Ok_0
                &&& json_models(p.4@) == required_values(m, "InstallTags"@)->Ok_0
                &&& json_models(p.5@) == required_values(m, "InstallComponents"@)->Ok_0
                &&& p.6@ == required_text(m, "HostInstallationGuid"@)->Ok_0
                &&& json_models(p.7@) == required_values(m, "PrereqIds"@)->Ok_0
                &&& p.8@ == required_text(m, "PrereqSHA1Hash"@)->Ok_0
                &&& p.9@ == required_text(m, "LastPrereqSucceededSHA1Hash"@)->Ok_0
            }),
        },
{
    let display_name = need_text(members, "DisplayName")?;
    let installation_guid = need_text(members, "InstallationGuid")?;
    let install_location = need_text(members, "InstallLocation")?;
    let install_session_id = need_text(members, "InstallSessionId")?;
    let install_tags = need_values(members, "InstallTags")?;
    let install_components = need_values(members, "InstallComponents")?;
    let host_installation_guid = need_text(members, "HostInstallationGuid")?;
    let prereq_ids = need_values(members, "PrereqIds")?;
    let prereq_sha1hash = need_text(members, "PrereqSHA1Hash")?;
    let last_prereq_succeeded_sha1hash = need_text(members, "LastPrereqSucceededSHA1Hash")?;
    Ok((
        display_name,
        installation_guid,
        install_location,
        install_session_id,
        install_tags,
        install_components,
        host_installation_guid,
        prereq_ids,
        prereq_sha1hash,
        last_prereq_succeeded_sha1hash,
    ))
}

/// Decodes the fourth ten fields of a manifest.
fn decode_part_4(members: &Vec<JsonMember>) -> (r: Result<
    (
        String,
        String,
        String,
        String,
        i64,
        String,
        Vec<Json>,
        Vec<Json>,
        Vec<Json>,
        Vec<Json>,
    ),
    DecodeError,
>)
    ensures
        match manifest_failure_4(member_models(members@)) {
            Some(e) => r is Err && r->Err_0@ == e,
            None => r is Ok && ({
                let m = member_models(members@);
                let p = r->Ok_0;
                &&& p.0@ == required_text(m, "StagingLocation"@)->Ok_0
                &&& p.1@ == required_text(m, "TechnicalType"@)->Ok_0
                &&& p.2@ == required_text(m, "VaultThumbnailUrl"@)->Ok_0
                &&& p.3@ == required_text(m, "VaultTitleText"@)->Ok_0
                &&& p.4 == required_int(m, "InstallSize"@)->Ok_0
                &&& p.5@ == required_text(m, "MainWindowProcessName"@)->Ok_0
                &&& json_models(p.6@) == required_values(m, "ProcessNames"@)->Ok_0
                &&& json_models(p.7@) == required_values(m, "BackgroundProcessNames"@)->Ok_0
                &&& json_models(p.8@) == required_values(m, "IgnoredProcessNames"@)->Ok_0
                &&& json_models(p.9@) == required_values(m, "DlcProcessNames"@)->Ok_0
            }),
        },
{
    let staging_location = need_text(members, "StagingLocation")?;
    let technical_type = need_text(members, "TechnicalType")?;
    let vault_thumbnail_url = need_text(members, "VaultThumbnailUrl")?;
    let vault_title_text = need_text(members, "VaultTitleText")?;
    let install_size = need_int(members, "InstallSize")?;
    let main_window_process_name = need_text(members, "MainWindowProcessName")?;
    let process_names = need_values(members, "ProcessNames")?;
    let background_process_names = need_values(members, "BackgroundProcessNames")?;
    let ignored_process_names = need_values(members, "IgnoredProcessNames")?;
    let dlc_process_names = need_values(members, "DlcProcessNames")?;
    Ok((
        staging_location,
        technical_type,
        vault_thumbnail_url,
        vault_title_text,
        install_size,
        main_window_process_name,
        process_names,
        background_process_names,
        ignored_process_names,
        dlc_process_names,
    ))
}

/// Decodes the fifth ten fields of a manifest.
fn decode_part_5(members: &Vec<JsonMember>) -> (r: Result<
    (
        String,
        String,
        String,
        String,
        String,
        String,
        String,
        String,
        String,
        Vec<Json>,
    ),
    DecodeError,
>)
    ensures
        match manifest_failure_5(member_models(members@)) {
            Some(e) => r is Err && r->Err_0@ == e,
            None => r is Ok && ({
                let m = member_models(members@);
                let p = r->Ok_0;
                &&& p.0@ == required_text(m, "MandatoryAppFolderName"@)->Ok_0
                &&& p.1@ == required_text(m, "OwnershipToken"@)->Ok_0
                &&& p.2@ == required_text(m, "CatalogNamespace"@)->Ok_0
                &&& p.3@ == required_text(m, "CatalogItemId"@)->Ok_0
                &&& p.4@ == required_text(m, "AppName"@)->Ok_0
                &&& p.5@ == required_text(m, "AppVersionString"@)->Ok_0
                &&& p.6@ == required_text(m, "MainGameCatalogNamespace"@)->Ok_0
                &&& p.7@ == required_text(m, "MainGameCatalogItemId"@)->Ok_0
                &&& p.8@ == required_text(m, "MainGameAppName"@)->Ok_0
                &&& json_models(p.9@) == required_values(m, "AllowedUriEnvVars"@)->Ok_0
            }),
        },
{
    let mandatory_app_folder_name = need_text(members, "MandatoryAppFolderName")?;
    let ownership_token = need_text(members, "OwnershipToken")?;
    let catalog_namespace = need_text(members, "CatalogNamespace")?;
    let catalog_item_id = need_text(members, "CatalogItemId")?;
    let app_name = need_text(members, "AppName")?;
    let app_version_string = need_text(members, "AppVersionString")?;
    let main_game_catalog_namespace = need_text(members, "MainGameCatalogNamespace")?;
    let main_game_catalog_item_id = need_text(members, "MainGameCatalogItemId")?;
    let main_game_app_name = need_text(members, "MainGameAppName")?;
    let allowed_uri_env_vars = need_values(members, "AllowedUriEnvVars")?;
    Ok((
        mandatory_app_folder_name,
        ownership_token,
        catalog_namespace,
        catalog_item_id,
        app_name,
        app_version_string,
        main_game_catalog_namespace,
        main_game_catalog_item_id,
        main_game_app_name,
        allowed_uri_env_vars,
    ))
}

/// Decodes a manifest from its document.
pub fn decode_manifest(doc: &Json) -> (r: Result<Manifest, DecodeError>)
    ensures
        match manifest_of(doc.model()) {
            Ok(manifest) => r is Ok && r->Ok_0@ == manifest,
            Err(e) => r is Err && r->Err_0@ == e,
        },
{
    let members = match object_entries(doc) {
        Some(members) => members,
        None => {
            return Err(DecodeError::NotARecord);
        },
    };
    let part_1 = decode_part_1(members)?;
    let part_2 = decode_part_2(members)?;
    let part_3 = decode_part_3(members)?;
    let part_4 = decode_part_4(members)?;
    let part_5 = decode_part_5(members)?;
    Ok(Manifest {
        format_version: part_1.0,
        is_incomplete_install: part_1.1,
        launch_command: part_1.2,
        launch_executable: part_1.3,
        manifest_location: part_1.4,
        manifest_hash: part_1.5,
        is_application: part_1.6,
        is_executable: part_1.7,
        is_managed: part_1.8,
        needs_validation: part_1.9,
        requires_auth: part_2.0,
        allow_multiple_instances: part_2.1,
        can_run_offline: part_2.2,
        allow_uri_cmd_args: part_2.3,
        launch_elevated: part_2.4,
        base_urls: part_2.5,
        build_label: part_2.6,
        app_categories: part_2.7,
        chunk_dbs: part_2.8,
        compatible_apps: part_2.9,
        display_name: part_3.0,
        installation_guid: part_3.1,
        install_location: part_3.2,
        install_session_id: part_3.3,
        install_tags: part_3.4,
        install_components: part_3.5,
        host_installation_guid: part_3.6,
        prereq_ids: part_3.7,
        prereq_sha1hash: part_3.8,
        last_prereq_succeeded_sha1hash: part_3.9,
        staging_location: part_4.0,
        technical_type: part_4.1,
        vault_thumbnail_url: part_4.2,
        vault_title_text: part_4.3,
        install_size: part_4.4,
        main_window_process_name: part_4.5,
        process_names: part_4.6,
        background_process_names: part_4.7,
        ignored_process_names: part_4.8,
        dlc_process_names: part_4.9,
        mandatory_app_folder_name: part_5.0,
        ownership_token: part_5.1,
        catalog_namespace: part_5.2,
        catalog_item_id: part_5.3,
        app_name: part_5.4,
        app_version_string: part_5.5,
        main_game_catalog_namespace: part_5.6,
        main_game_catalog_item_id: part_5.7,
        main_game_app_name: part_5.8,
        allowed_uri_env_vars: part_5.9,
    })
}

/// Reads a manifest from the text of its file.
///
/// Text that is not well-formed JSON is a syntax error with the parser's message.
pub fn parse_manifest(text: &str) -> (r: Result<Manifest, DecodeError>)
    ensures
        match manifest_in(text@) {
            None => r is Err && r->Err_0@ is Syntax,
            Some(Ok(manifest)) => r is Ok && r->Ok_0@ == manifest,
            Some(Err(e)) => r is Err && r->Err_0@ == e,
        },
{
    match parse_json(text) {
        Err(message) => Err(DecodeError::Syntax(message)),
        Ok(doc) => decode_manifest(&doc),
    }
}

/// The manifest that a read file gives: none where the file could not be opened or
/// its text holds no manifest.
pub open spec fn manifest_read(file: Option<String>) -> Option<ManifestView> {
    match file {
        None => None,
        Some(text) => match manifest_in(text@) {
            Some(Ok(manifest)) => Some(manifest),
            _ => None,
        },
    }
}

/// The manifests that a list of read files gives, in the order of the list.
pub open spec fn manifests_read(files: Seq<Option<String>>) -> Seq<ManifestView>
    decreases files.len(),
{
    if files.len() == 0 {
        Seq::<ManifestView>::empty()
    } else {
        let before = manifests_read(files.drop_last());
        match manifest_read(files.last()) {
            Some(manifest) => before.push(manifest),
            None => before,
        }
    }
}

/// The views of a list of manifests.
pub open spec fn manifest_views(manifests: Seq<Manifest>) -> Seq<ManifestView> {
    manifests.map_values(|m: Manifest| m@)
}

/// Collects the manifests from the files that match [`MANIFESTS_GLOB`].
///
/// `files` holds, for each file, its text where it could be opened. A file that
/// could not be opened, or that holds no manifest, is left out and nothing else.
pub fn get_all_manifests(files: &Vec<Option<String>>) -> (manifests: Vec<Manifest>)
    ensures
        manifest_views(manifests@) == manifests_read(files@),
{
    let mut manifests: Vec<Manifest> = Vec::new();
    let mut i: usize = 0;
    proof {
        assert(files@.take(0) =~= Seq::<Option<String>>::empty());
        assert(manifest_views(manifests@) =~= manifests_read(files@.take(0)));
    }
    while i < files.len()
        invariant
            0 <= i <= files@.len(),
            manifest_views(manifests@) == manifests_read(files@.take(i as int)),
        decreases files@.len() - i,
    {
        proof {
            assert(files@.take(i + 1).drop_last() =~= files@.take(i as int));
            assert(files@.take(i + 1).last() == files@[i as int]);
        }
        match &files[i] {
            None => {},
            Some(text) => match parse_manifest(text.as_str()) {
                Ok(manifest) => {
                    proof {
                        assert(manifest_views(manifests@.push(manifest)) =~= manifest_views(
                            manifests@,
                        ).push(manifest@));
                    }
                    manifests.push(manifest);
                },
                Err(_) => {},
            },
        }
        i = i + 1;
    }
    proof {
        assert(files@.take(i as int) =~= files@);
    }
    manifests
}

} // verus!
