//! Modpacks: updates from a manifest, CurseForge files, archives.
use std::collections::HashMap;

use bgumcl::error::BGUMCLError;
use bgumcl::instance::models::{
    InstanceError, ModLoader, ModLoaderResourceInfo, ModLoaderStatus, ModLoaderType,
};
use bgumcl::modpack::curseforge::{
    class_directory, download_url, file_description_url, file_param, metadata_candidates,
    project_ids, project_url, sources_with_mirror, CurseForgeFileData, CurseForgeFileManifest,
    CurseForgeFiles, CurseForgeHash, CurseForgeManifest, CurseForgeMinecraft, CurseForgeModLoader,
    MetadataAction, MetadataEvent, MetadataFetch,
};
use bgumcl::modpack::github::{
    build_file_url, compute_update_plan, compute_update_plan_for, file_url, finalized_state,
    initial_state, instance_not_found, manifest_fetch_error, normalize_manifest_url,
    resolve_base_url, update_group_name, update_info, update_params, validate_manifest,
    validate_manifest_for, verify_downloaded_files, verify_downloaded_files_for, FileRecord,
    GithubModpackFile, GithubModpackManifest, GithubModpackUpdateState,
};
use bgumcl::modpack::import::{
    needs_branch, override_target, overrides_to_extract, overrides_to_extract_for, recognized_format,
    ArchiveEntry, OtherResourceSource,
};
use bgumcl::paths::TargetPath;

fn file(path: &str, sha1: &str, size: u64) -> GithubModpackFile {
    GithubModpackFile { path: path.to_string(), sha1: sha1.to_string(), size }
}

fn manifest(base_url: Option<&str>, files: Vec<GithubModpackFile>) -> GithubModpackManifest {
    GithubModpackManifest {
        name: "pack".to_string(),
        version: "2".to_string(),
        base_url: base_url.map(|s| s.to_string()),
        files,
    }
}

fn sha(text: &str) -> Result<Option<String>, BGUMCLError> {
    Ok(Some(text.to_string()))
}

#[test]
fn files_are_found_beside_the_manifest() {
    let base = |url: &str, base_url: Option<&str>| resolve_base_url(url, &manifest(base_url, vec![]));
    assert_eq!(base("https://x.org/p/m.json", None), "https://x.org/p");
    assert_eq!(base("https://x.org/p/m.json//", None), "https://x.org/p");
    assert_eq!(base("plain", None), "plain");
    assert_eq!(base("https://x.org/p/m.json", Some("https://y.org/f//")), "https://y.org/f");
}

#[test]
fn file_addresses_are_percent_encoded() {
    assert_eq!(file_url("https://x.org/b/", "mods\\a b+.jar"), "https://x.org/b/mods/a%20b%2B.jar");
    assert_eq!(
        build_file_url("https://x.org/b", "mods/ü.jar").unwrap().href,
        "https://x.org/b/mods/%C3%BC.jar"
    );
    assert_eq!(
        build_file_url("no base", "a").unwrap_err().0,
        "Invalid file url no base/a: relative URL without a base"
    );
}

#[test]
fn blob_pages_are_turned_into_raw_files() {
    assert_eq!(
        normalize_manifest_url("https://github.com/o/r/blob/main/m.json"),
        "https://raw.githubusercontent.com/o/r/main/m.json"
    );
    assert_eq!(
        normalize_manifest_url("https://v4.gh-proxy.org/https://github.com/o/r/blob/main/a/blob/b"),
        "https://v4.gh-proxy.org/https://raw.githubusercontent.com/o/r/main/a/blob/b"
    );
    assert_eq!(normalize_manifest_url("https://x.org/blob/m"), "https://x.org/blob/m");
    assert_eq!(normalize_manifest_url("https://github.com/o/r"), "https://github.com/o/r");
}

#[test]
fn manifest_addresses_are_normalized_once_and_for_all() {
    for address in [
        "https://github.com/o/r/blob/main/m.json",
        "https://cdn.gh-proxy.org/https://github.com/o/r/blob/main/a/blob/b",
        "https://x.org/blob/m",
        "https://github.com/blob/m",
        "https://github.com/o/r",
        "",
    ] {
        let once = normalize_manifest_url(address);
        assert_eq!(normalize_manifest_url(&once), once);
    }
}

#[test]
fn manifests_with_unsafe_paths_are_refused() {
    let m = manifest(None, vec![file("a", "", 0), file("../b", "", 0), file("/c", "", 0)]);
    assert_eq!(
        validate_manifest(&m).unwrap_err().0,
        "Unsafe path in modpack manifest: ../b"
    );
    assert!(validate_manifest(&manifest(None, vec![file("a", "", 0)])).is_ok());
    assert!(validate_manifest_for(&manifest(None, vec![file("C:a", "", 0)]), true).is_err());
    assert!(validate_manifest_for(&manifest(None, vec![file("C:a", "", 0)]), false).is_ok());
}

#[test]
fn changed_files_are_downloaded_and_abandoned_files_removed() {
    let m = manifest(
        None,
        vec![file("same", "ABC", 1), file("changed", "def", 20), file("new", "123", u64::MAX)],
    );
    let state = GithubModpackUpdateState {
        version: "1".to_string(),
        files: vec![
            FileRecord { path: "same".to_string(), sha1: "abc".to_string() },
            FileRecord { path: "gone".to_string(), sha1: "0".to_string() },
        ],
    };
    let (download, remove, size) =
        compute_update_plan(&vec![sha("abc"), sha("xyz"), Ok(None)], &state, &m).unwrap();
    let paths: Vec<&str> = download.iter().map(|f| f.path.as_str()).collect();
    assert_eq!(paths, vec!["changed", "new"]);
    assert_eq!(remove, vec!["gone"]);
    assert_eq!(size, u64::MAX);
    let info = update_info(&m, &Some("1".to_string()), "url", (download, remove, size));
    assert_eq!((info.name.as_str(), info.latest_version.as_str()), ("pack", "2"));
    assert_eq!(info.current_version.as_deref(), Some("1"));
    assert_eq!(info.manifest_url, "url");
}

#[test]
fn the_first_problem_ends_an_update_plan() {
    let m = manifest(None, vec![file("a", "1", 1), file("..", "2", 2)]);
    let unreadable = vec![Err(BGUMCLError("disk".to_string())), Ok(None)];
    assert_eq!(compute_update_plan(&unreadable, &initial_state(), &m).unwrap_err().0, "disk");
    assert_eq!(
        compute_update_plan_for(&vec![Ok(None), Ok(None)], &initial_state(), &m, true)
            .unwrap_err()
            .0,
        "Unsafe path in modpack manifest: .."
    );
}

#[test]
fn finished_updates_leave_nothing_to_do() {
    let m = manifest(None, vec![file("a", "AA", 1), file("b", "bb", 2), file("a", "cc", 3)]);
    let state = finalized_state(&m);
    assert_eq!(state.version, "2");
    assert_eq!(state.files.len(), 2);
    let of_a = state.files.iter().find(|r| r.path == "a").unwrap();
    assert_eq!(of_a.sha1, "cc");
    let m = manifest(None, vec![file("a", "AA", 1), file("b", "bb", 2)]);
    let shas = vec![sha("aa"), sha("BB")];
    let (download, remove, size) =
        compute_update_plan(&shas, &finalized_state(&m), &m).unwrap();
    assert!(download.is_empty() && remove.is_empty());
    assert_eq!(size, 0);
}

#[test]
fn downloaded_files_are_verified() {
    let files = vec![file("a", "AA", 1), file("b", "bb", 2)];
    assert!(verify_downloaded_files(&vec![sha("aa"), sha("bb")], &files).is_ok());
    for missing in [Ok(None), sha("cc")] {
        assert_eq!(
            verify_downloaded_files(&vec![sha("aa"), missing], &files).unwrap_err().0,
            "Modpack update incomplete, missing or mismatched file: b"
        );
    }
    assert_eq!(
        verify_downloaded_files_for(
            &vec![sha("aa"), Err(BGUMCLError("disk".to_string()))],
            &files,
            false
        )
        .unwrap_err()
        .0,
        "disk"
    );
}

#[test]
fn updates_download_into_the_instance() {
    let params = update_params(
        &TargetPath::at("root"),
        "https://x.org",
        &vec![file("mods\\a.jar", "11", 1)],
        false,
    )
    .unwrap();
    assert_eq!(params.len(), 1);
    assert_eq!(params[0].src.href, "https://x.org/mods/a.jar");
    assert_eq!(params[0].dest.base, "root");
    assert_eq!(params[0].dest.segments.join("/"), "mods/a.jar");
    assert_eq!(params[0].filename, None);
    assert_eq!(params[0].sha1.as_deref(), Some("11"));
    assert!(update_params(&TargetPath::at("root"), "x", &vec![file("a", "", 1)], false).is_err());
    assert_eq!(update_group_name("i"), "modpack-github-update?i");
    assert_eq!(instance_not_found("i").0, "Instance not found: i");
    assert_eq!(
        manifest_fetch_error(&Some("HTTP 500".to_string())).0,
        "Failed to fetch modpack manifest: HTTP 500"
    );
    assert_eq!(
        manifest_fetch_error(&None).0,
        "Failed to fetch modpack manifest: unknown error"
    );
}

#[test]
fn descriptions_come_from_the_mirror_and_then_the_source() {
    assert_eq!(
        metadata_candidates("https://api.curseforge.com/v1/mods/1"),
        vec![
            "https://mod.mcimirror.top/curseforge/v1/mods/1",
            "https://api.curseforge.com/v1/mods/1",
        ]
    );
    assert_eq!(sources_with_mirror(Some("u".to_string()), "u"), vec!["u"]);
    assert_eq!(sources_with_mirror(None, "u"), vec!["u"]);
    assert_eq!(project_url(12), "https://api.curseforge.com/v1/mods/12");
    assert_eq!(
        file_description_url(1, 2),
        "https://api.curseforge.com/v1/mods/1/files/2"
    );
}

#[test]
fn every_description_source_is_asked_three_times_unless_it_refuses() {
    let mut fetch = MetadataFetch::begin(2);
    let ask = |source, delay_ms| MetadataAction::Ask { source, delay_ms };
    assert_eq!(fetch.step(MetadataEvent::SendFailed), ask(0, 400));
    assert_eq!(fetch.step(MetadataEvent::BodyFailed), ask(0, 0));
    assert_eq!(fetch.step(MetadataEvent::ParseFailed), ask(1, 0));
    assert_eq!(fetch.step(MetadataEvent::ParseFailed), ask(1, 400));
    assert_eq!(fetch.step(MetadataEvent::Rejected), MetadataAction::FailParse);

    let mut fetch = MetadataFetch::begin(1);
    assert_eq!(fetch.step(MetadataEvent::Rejected), MetadataAction::FailNetwork);
    let mut fetch = MetadataFetch::begin(1);
    assert_eq!(fetch.step(MetadataEvent::Parsed), MetadataAction::Use);
}

fn project_file(project_id: u64, file_id: u64) -> CurseForgeFiles {
    CurseForgeFiles { project_id, file_id, required: true }
}

fn data(url: Option<&str>, name: &str, hashes: Option<Vec<CurseForgeHash>>) -> CurseForgeFileData {
    CurseForgeFileData {
        download_url: url.map(|s| s.to_string()),
        file_name: name.to_string(),
        hashes,
    }
}

fn hash(value: &str, algo: u64) -> CurseForgeHash {
    CurseForgeHash { value: value.to_string(), algo }
}

fn pack(loaders: Vec<CurseForgeModLoader>, files: Vec<CurseForgeFiles>) -> CurseForgeManifest {
    CurseForgeManifest {
        name: "pack".to_string(),
        version: Some("1".to_string()),
        author: "me".to_string(),
        overrides: "overrides".to_string(),
        minecraft: CurseForgeMinecraft { version: "1.20.1".to_string(), mod_loaders: loaders },
        files,
    }
}

#[test]
fn curseforge_files_go_where_their_class_belongs() {
    assert_eq!(project_ids(&vec![project_file(3, 1), project_file(1, 2), project_file(3, 3)]), vec![1, 3]);
    assert_eq!(class_directory(Some(12)), "resourcepacks");
    assert_eq!(class_directory(Some(6945)), "resourcepacks");
    assert_eq!(class_directory(Some(6552)), "shaderpacks");
    assert_eq!(class_directory(Some(6)), "mods");
    assert_eq!(class_directory(None), "mods");
    assert_eq!(
        download_url(4567089, &data(None, "a b.jar", None)),
        "https://edge.forgecdn.net/files/4567/89/a%20b.jar"
    );
    assert_eq!(download_url(1, &data(Some("https://x.org/f"), "a", None)), "https://x.org/f");
    let param = file_param(
        &TargetPath::at("root"),
        1,
        Some(6552),
        &data(Some("https://x.org/f"), "s.zip", Some(vec![hash("md5", 2), hash("sha", 1)])),
    )
    .unwrap();
    assert_eq!(param.dest.segments, vec!["shaderpacks", "s.zip"]);
    assert_eq!(param.filename.as_deref(), Some("s.zip"));
    assert_eq!(param.sha1.as_deref(), Some("sha"));
    assert_eq!(
        file_param(&TargetPath::at("root"), 1, None, &data(Some("nowhere"), "s", None)).unwrap_err(),
        InstanceError::InvalidSourcePath
    );
}

#[test]
fn a_curseforge_pack_downloads_every_file() {
    let manifest = pack(vec![], vec![project_file(1, 10), project_file(2, 20)]);
    let classes = HashMap::from([(2, Some(12)), (1, None)]);
    let answer = |name: &str| Ok(CurseForgeFileManifest { data: data(Some("https://x.org/f"), name, None) });
    let params = manifest
        .get_download_params(&TargetPath::at("root"), &classes, &vec![answer("a"), answer("b")])
        .unwrap();
    assert_eq!(params[0].dest.segments, vec!["mods", "a"]);
    assert_eq!(params[1].dest.segments, vec!["resourcepacks", "b"]);
    let failed = manifest.get_download_params(
        &TargetPath::at("root"),
        &classes,
        &vec![answer("a"), Err(InstanceError::NetworkError)],
    );
    assert_eq!(failed.unwrap_err(), InstanceError::NetworkError);
}

#[test]
fn a_project_of_unknown_class_is_a_mod() {
    let manifest = pack(vec![], vec![project_file(7, 70)]);
    let answer = Ok(CurseForgeFileManifest { data: data(Some("https://x.org/f"), "a", None) });
    let params = manifest
        .get_download_params(&TargetPath::at("root"), &HashMap::new(), &vec![answer])
        .unwrap();
    assert_eq!(params[0].dest.segments, vec!["mods", "a"]);
}

#[test]
fn only_the_branch_of_forge_is_looked_up() {
    assert!(needs_branch(ModLoaderType::Forge));
    for loader in [ModLoaderType::Unknown, ModLoaderType::Fabric, ModLoaderType::NeoForge] {
        assert!(!needs_branch(loader));
    }
}

#[test]
fn the_primary_loader_of_a_pack_is_taken() {
    let loader = |id: &str, primary| CurseForgeModLoader { id: id.to_string(), primary };
    let manifest = pack(vec![loader("fabric-1", false), loader("forge-47.2.0", true)], vec![]);
    assert_eq!(
        manifest.primary_loader(),
        Some(("forge".to_string(), "47.2.0".to_string()))
    );
    assert_eq!(
        manifest.get_mod_loader_type_version(Some(ModLoaderType::Forge)).unwrap(),
        (ModLoaderType::Forge, "47.2.0".to_string())
    );
    assert_eq!(
        manifest.get_mod_loader_type_version(None).unwrap_err(),
        InstanceError::ModLoaderVersionParseError
    );
    assert!(pack(vec![loader("forge-1", false)], vec![]).primary_loader().is_none());
    assert!(pack(vec![loader("forge", true)], vec![]).primary_loader().is_none());
    let loader = manifest.requested_mod_loader(Some(ModLoaderType::Forge)).unwrap();
    assert_eq!(loader.version, "47.2.0");
    let meta = manifest.get_meta_info(Some(loader));
    assert_eq!(meta.name, "pack");
    assert_eq!(meta.client_version, "1.20.1");
    assert_eq!(meta.author.as_deref(), Some("me"));
    assert_eq!(meta.modpack_source, OtherResourceSource::CurseForge);
    assert_eq!(manifest.get_client_version(), "1.20.1");
    assert_eq!(manifest.get_overrides_path(), "overrides");
    assert_eq!(manifest.get_override_paths(), vec!["overrides"]);
}

#[test]
fn the_branch_of_a_loader_is_looked_up() {
    let loader = ModLoader {
        loader_type: ModLoaderType::Forge,
        status: ModLoaderStatus::NotDownloaded,
        version: "47".to_string(),
        branch: None,
    };
    let listed = |version: &str, branch: &str| ModLoaderResourceInfo {
        loader_type: ModLoaderType::Forge,
        version: version.to_string(),
        description: String::new(),
        stable: None,
        branch: Some(branch.to_string()),
    };
    let found = loader.with_branch(&vec![listed("46", "a"), listed("47", "b")]).unwrap();
    assert_eq!(found.branch.as_deref(), Some("b"));
    assert_eq!(
        loader.with_branch(&vec![listed("46", "a")]).unwrap_err(),
        InstanceError::ModLoaderVersionParseError
    );
}

#[test]
fn the_first_format_that_recognises_an_archive_is_used() {
    assert_eq!(recognized_format(&vec![false, true, true]).unwrap(), 1);
    assert_eq!(
        recognized_format(&vec![false, false]).unwrap_err(),
        InstanceError::ModpackManifestParseError
    );
}

#[test]
fn overrides_are_extracted_in_order_and_stay_inside() {
    let entry = |name: &str, is_file| ArchiveEntry { name: name.to_string(), is_file };
    let entries = vec![
        entry("overrides/", false),
        entry("overrides\\config\\a", true),
        entry("overrides/../evil", true),
        entry("overrides//abs", true),
        entry("client/b", true),
        entry("overridesx/c", true),
    ];
    let paths = vec!["client".to_string(), "/overrides/".to_string(), "/".to_string()];
    let found = overrides_to_extract(&paths, &entries);
    let found: Vec<(usize, &str)> = found.iter().map(|e| (e.entry, e.path.as_str())).collect();
    assert_eq!(found, vec![(4, "b"), (1, "config/a")]);
    assert_eq!(
        override_target("overrides", &entry("overrides/x", true), false).as_deref(),
        Some("x")
    );
    assert_eq!(override_target("overrides", &entry("overrides/x", false), false), None);
    assert!(overrides_to_extract_for(&paths, &vec![entry("client/C:x", true)], false).is_empty());
}
