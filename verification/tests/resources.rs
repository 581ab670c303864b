//! The resources of an instance.
use bgumcl::instance::models::{InstanceError, ModLoaderType};
use bgumcl::instance::resources::{
    add_game_server, arrange_mods, copy_action, copy_plan, delete_game_server, file_pattern,
    files_to_export, finish_mod_list, installed_loader, is_listed, launch_url, list_precedes,
    listed_name, may_read, move_name, readable_mods, refresh_translations, retain,
    schematic_order, toggled_name, toggled_name_from, visible_servers, world_details_outcome,
    CopyAction, GameServerInfo, ListedKind, LocalModInfo, SourceEntry, SourceKind,
    TranslationEntry,
};

fn texts(list: &[&str]) -> Vec<String> {
    list.iter().map(|s| s.to_string()).collect()
}

fn entry(kind: SourceKind, name: Option<&str>) -> SourceEntry {
    SourceEntry { kind, file_name: name.map(|s| s.to_string()) }
}

#[test]
fn resources_are_copied_to_every_instance() {
    let sources = vec![entry(SourceKind::File, Some("a")), entry(SourceKind::Directory, Some("b"))];
    let jobs = copy_plan(&sources, &vec![true, true]).unwrap();
    let pairs: Vec<(usize, usize)> = jobs.iter().map(|j| (j.source, j.target)).collect();
    assert_eq!(pairs, vec![(0, 0), (0, 1), (1, 0), (1, 1)]);
    assert_eq!(
        copy_plan(&sources, &vec![true, false]).unwrap_err(),
        InstanceError::InstanceNotFoundByID
    );
    assert_eq!(copy_plan(&vec![], &vec![true]).unwrap_err(), InstanceError::InvalidSourcePath);
    let missing = vec![entry(SourceKind::Missing, None)];
    assert_eq!(
        copy_plan(&missing, &vec![false]).unwrap_err(),
        InstanceError::InvalidSourcePath
    );
}

#[test]
fn archives_are_unpacked_where_asked() {
    let file = |name: &str| entry(SourceKind::File, Some(name));
    assert!(matches!(
        copy_action(&file("world.zip"), true),
        Ok(CopyAction::Unpack { name }) if name == "world"
    ));
    assert!(matches!(
        copy_action(&file("world.zip"), false),
        Ok(CopyAction::CopyFile { name }) if name == "world.zip"
    ));
    assert!(matches!(
        copy_action(&entry(SourceKind::Directory, Some("d")), false),
        Ok(CopyAction::CopyDirectory { name }) if name == "d"
    ));
    assert_eq!(
        copy_action(&entry(SourceKind::File, None), false).unwrap_err(),
        InstanceError::InvalidSourcePath
    );
    assert_eq!(move_name(true, &file("a")).unwrap(), "a");
    assert_eq!(move_name(false, &file("a")).unwrap_err(), InstanceError::InstanceNotFoundByID);
    assert_eq!(
        move_name(true, &entry(SourceKind::Missing, Some("a"))).unwrap_err(),
        InstanceError::InvalidSourcePath
    );
}

#[test]
fn only_files_inside_are_read() {
    assert!(may_read(&texts(&["a", "b", "c"]), &texts(&["a", "b"])).is_ok());
    assert_eq!(
        may_read(&texts(&["a", "x"]), &texts(&["a", "b"])).unwrap_err(),
        InstanceError::InvalidSourcePath
    );
    assert_eq!(retain(vec![1, 2, 3], &vec![true, false, true]), vec![1, 3]);
}

fn server(ip: &str, hidden: bool) -> GameServerInfo {
    GameServerInfo { ip: ip.to_string(), name: String::new(), hidden, rest: vec![1] }
}

fn addresses(servers: &[GameServerInfo]) -> Vec<&str> {
    servers.iter().map(|s| s.ip.as_str()).collect()
}

#[test]
fn servers_are_added_and_deleted() {
    let servers = add_game_server(vec![server("a", false)], "b", "B").unwrap();
    assert_eq!(addresses(&servers), vec!["a", "b"]);
    assert_eq!(servers[1].name, "B");
    assert!(!servers[1].hidden);
    let servers = delete_game_server(servers, "b");
    assert_eq!(addresses(&servers), vec!["a"]);
    assert_eq!(
        add_game_server(servers, "a", "A").unwrap_err(),
        InstanceError::DuplicateServer
    );
    let twice = vec![server("a", false), server("b", true), server("a", true)];
    assert_eq!(addresses(&delete_game_server(twice, "a")), vec!["b"]);
    let shown = visible_servers(vec![server("a", true), server("b", false)]);
    assert_eq!(addresses(&shown), vec!["b"]);
}

#[test]
fn resource_files_are_recognised() {
    assert!(is_listed(ListedKind::Mods, "a.jar") && is_listed(ListedKind::Mods, "a.JAR.disabled"));
    assert!(!is_listed(ListedKind::Mods, "a.txt"));
    assert!(is_listed(ListedKind::ResourcePacks, "p.zip"));
    assert!(is_listed(ListedKind::Screenshots, "s.PNG"));
    assert!(is_listed(ListedKind::Schematics, "s.litematic"));
    assert!(is_listed(ListedKind::ShaderPacks, "s.zip"));
    assert!(file_pattern(ListedKind::Mods).contains("jar"));
    assert_eq!(listed_name("pack.v1.zip"), "pack.v1");
    assert_eq!(installed_loader(ModLoaderType::Unknown), None);
    assert_eq!(installed_loader(ModLoaderType::Quilt), Some(ModLoaderType::Quilt));
}

#[test]
fn mods_are_switched_on_and_off() {
    assert_eq!(toggled_name("a.jar", false), "a.jar.disabled");
    assert_eq!(toggled_name("a.jar.disabled", false), "a.jar.disabled.disabled");
    assert_eq!(toggled_name("a.jar.disabled", true), "a.jar");
    assert_eq!(toggled_name("a.jar.DISABLED.disabled", true), "a.jar");
    assert_eq!(toggled_name("a.jar", true), "a.jar");
    let found = vec![vec![None, Some("x".to_string())]];
    assert_eq!(toggled_name_from("y", &found, false), "y.disabled");
    assert_eq!(toggled_name_from("y", &found, true), "x");
    assert_eq!(toggled_name_from("y", &vec![], false), "y");
}

#[test]
fn schematics_are_ordered() {
    assert!(list_precedes(&texts(&["a"]), &texts(&["a", "b"])));
    assert!(!list_precedes(&texts(&["b"]), &texts(&["a", "z"])));
    let order = schematic_order(&vec![texts(&["b"]), texts(&["a", "z"]), texts(&["a"])]);
    assert_eq!(order.len(), 3);
}

fn game_mod(file: &str, name: &str, version: &str) -> LocalModInfo {
    LocalModInfo {
        file_name: file.to_string(),
        name: name.to_string(),
        version: version.to_string(),
        translated_name: Some(format!("t-{file}")),
        translated_description: None,
    }
}

fn cached(file: &str, expired: bool) -> TranslationEntry {
    TranslationEntry {
        file_name: file.to_string(),
        translated_name: Some("old".to_string()),
        translated_description: None,
        expired,
    }
}

#[test]
fn mods_are_sorted_and_their_translations_kept() {
    let mut entries = vec![cached("b", false), cached("c", true)];
    let listed = finish_mod_list(
        vec![
            Some(game_mod("a", "zeta", "1")),
            None,
            Some(game_mod("b", "alpha", "2")),
            Some(game_mod("c", "alpha", "1")),
        ],
        &mut entries,
    );
    let files: Vec<&str> = listed.iter().map(|m| m.file_name.as_str()).collect();
    assert_eq!(files, vec!["c", "b", "a"]);
    let translation = |file: &str| {
        entries
            .iter()
            .find(|e| e.file_name == file)
            .and_then(|e| e.translated_name.clone())
    };
    assert_eq!(translation("a").as_deref(), Some("t-a"));
    assert_eq!(translation("b").as_deref(), Some("old"));
    assert_eq!(translation("c").as_deref(), Some("t-c"));
    assert_eq!(readable_mods(vec![None, Some(game_mod("x", "x", "1"))]).len(), 1);
    let sorted = arrange_mods(vec![game_mod("1", "b", ""), game_mod("2", "a", "")]);
    assert_eq!(sorted[0].file_name, "2");
    let mut entries = vec![];
    refresh_translations(&mut entries, &sorted);
    assert_eq!(entries.len(), 2);
}

#[test]
fn worlds_and_exports_report_what_is_missing() {
    assert_eq!(world_details_outcome(false, true, true), Err(InstanceError::WorldNotExistError));
    assert_eq!(world_details_outcome(true, false, true), Err(InstanceError::LevelNotExistError));
    assert_eq!(world_details_outcome(true, true, false), Err(InstanceError::LevelParseError));
    assert_eq!(world_details_outcome(true, true, true), Ok(()));
    assert_eq!(
        files_to_export(texts(&["a", "b"]), &vec![false, true]).unwrap(),
        vec!["b"]
    );
    assert_eq!(
        files_to_export(texts(&["a"]), &vec![false]).unwrap_err(),
        InstanceError::ModpackManifestParseError
    );
    assert_eq!(launch_url("official:1.20 x&y"), "bgumcl://launch?id=official%3A1.20%20x%26y");
}
