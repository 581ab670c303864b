//! Instances: the list, settings, creation, loaders and resources.
use bgumcl::external::JsonText;
use bgumcl::instance::config::{
    configure, rename_instance, reset_instance_game_config, retrieve_instance_game_config,
    snake_case, update_instance_config, ConfigError, ConfigOutcome,
};
use bgumcl::instance::creation::{
    client_info_error, client_task, creation_group_name, creation_steps, creation_tasks,
    downloads_java, first_options, installs_api, new_instance, new_instance_for,
    new_instance_from, removes_directory, required_java, settle_step, step_error, ClientDownload, ClientInfo,
    CreationRequest, CreationScope, CreationStep, CreationTasks, GameDirectory,
};
use bgumcl::instance::list::{
    arrange_instances, instance_order, is_version_isolated, selection_after_delete,
    selection_to_make, InstanceSummary, SummaryKey,
};
use bgumcl::instance::loader::{
    begin_mod_loader_install, begin_optifine_install, change_mod_loader, change_optifine,
    check_change_mod_loader_availablity, finish_mod_loader_install,
    finish_optifine_loader_install, install_start, loader_group_name, optifine_group_name,
    remove_mod_loader, remove_optifine, InstallStart,
};
use bgumcl::instance::models::{
    GameConfig, Instance, InstanceError, ModLoader, ModLoaderResourceInfo, ModLoaderStatus,
    ModLoaderType, OptiFine, OptiFineResourceInfo,
};
use bgumcl::instance::store::InstanceStore;
use bgumcl::modpack::github::{
    state_path, update_channel, with_finished_update, with_modpack_version, with_update_channel,
    GithubModpackManifest,
};
use bgumcl::paths::TargetPath;

fn text(s: &str) -> Option<String> {
    Some(s.to_string())
}

fn config(version_isolation: bool, document: &str) -> GameConfig {
    GameConfig { version_isolation, document: document.to_string() }
}

fn instance(id: &str) -> Instance {
    Instance {
        id: id.to_string(),
        name: "name".to_string(),
        version: "1.20.1".to_string(),
        version_path: TargetPath::at("dir"),
        mod_loader: ModLoader {
            loader_type: ModLoaderType::Fabric,
            status: ModLoaderStatus::NotDownloaded,
            version: "0.15".to_string(),
            branch: None,
        },
        optifine: None,
        description: String::new(),
        tag: None,
        icon_src: String::new(),
        starred: false,
        play_time: 0,
        use_spec_game_config: false,
        spec_game_config: None,
        modpack_version: None,
        modpack_update_channel: None,
    }
}

fn store(ids: &[&str]) -> InstanceStore {
    let mut store = InstanceStore::new();
    for id in ids {
        store.insert(instance(id));
    }
    store
}

fn loader_info(loader_type: ModLoaderType) -> ModLoaderResourceInfo {
    ModLoaderResourceInfo {
        loader_type,
        version: "9".to_string(),
        description: String::new(),
        stable: None,
        branch: text("b"),
    }
}

#[test]
fn instances_are_filed_by_identity() {
    let mut s = store(&["a", "b"]);
    let mut changed = instance("a");
    changed.name = "new".to_string();
    s.insert(changed);
    assert_eq!(s.get("a").unwrap().name, "new");
    assert_eq!(s.get_instance("c").unwrap_err(), InstanceError::InstanceNotFoundByID);
    assert_eq!(s.first_id(), "a");
    s.remove("a");
    s.remove("missing");
    assert!(s.get("a").is_none());
    assert_eq!(s.get_instance("b").unwrap().id, "b");
    assert_eq!(InstanceStore::new().first_id(), "");
}

fn summary(id: &str, name: &str, version_rank: u64) -> InstanceSummary {
    InstanceSummary {
        id: id.to_string(),
        name: name.to_string(),
        version: String::new(),
        version_rank,
        is_version_isolated: false,
    }
}

fn order(sort_by: &str) -> String {
    let list = vec![summary("1", "beta", 5), summary("2", "Alpha", 7), summary("3", "gamma", 5)];
    arrange_instances(list, sort_by).iter().map(|s| s.id.clone()).collect::<Vec<_>>().join("")
}

#[test]
fn instances_are_listed_in_order() {
    assert_eq!(order("name"), "213");
    assert_eq!(order("versionAsc"), "132");
    assert_eq!(order("versionDesc"), "213");
    assert_eq!(order("unknown"), "213");
    let key = |lower_name: &str| SummaryKey { version_rank: 0, lower_name: lower_name.to_string() };
    assert_eq!(instance_order(&vec![key("b"), key("a"), key("b")], "name"), vec![1, 0, 2]);
}

#[test]
fn an_instance_is_always_selected() {
    let list = vec![summary("x", "x", 0), summary("y", "y", 0)];
    assert_eq!(selection_to_make(&list, "y"), None);
    assert_eq!(selection_to_make(&list, "gone"), text("x"));
    assert_eq!(selection_to_make(&list, ""), text("x"));
    assert_eq!(selection_to_make(&vec![], ""), None);
    assert_eq!(selection_after_delete(&store(&["b"]), "a", "c"), None);
    assert_eq!(selection_after_delete(&store(&["b"]), "a", "a"), text("b"));
    assert_eq!(selection_after_delete(&store(&[]), "a", "a"), text(""));
}

#[test]
fn isolation_follows_the_own_configuration() {
    let mut i = instance("a");
    assert!(is_version_isolated(&i, true));
    i.spec_game_config = Some(config(false, ""));
    assert!(is_version_isolated(&i, true));
    i.use_spec_game_config = true;
    assert!(!is_version_isolated(&i, true));
    assert_eq!(i.game_config(&config(true, "g")).document, "");
}

#[test]
fn setting_names_are_turned_into_fields() {
    assert_eq!(snake_case("iconSrc"), "icon_src");
    assert_eq!(snake_case("specGameConfig.gameJava"), "spec_game_config.game_java");
    assert_eq!(snake_case("Starred"), "starred");
    assert_eq!(snake_case("größeÄ"), "größe_Ä");
}

#[test]
fn settings_change_an_instance() {
    let mut s = store(&["a"]);
    let global = config(true, "g");
    assert!(matches!(
        update_instance_config(&mut s, "a", "description", "\"d\\n\"", &global),
        Ok(ConfigOutcome::Save)
    ));
    assert_eq!(s.get("a").unwrap().description, "d\n");
    update_instance_config(&mut s, "a", "description", "plain", &global).unwrap();
    assert_eq!(s.get("a").unwrap().description, "plain");
    update_instance_config(&mut s, "a", "tag", "\"t\"", &global).unwrap();
    assert_eq!(s.get("a").unwrap().tag, text("t"));
    update_instance_config(&mut s, "a", "tag", "null", &global).unwrap();
    assert_eq!(s.get("a").unwrap().tag, None);
    update_instance_config(&mut s, "a", "iconSrc", "i", &global).unwrap();
    assert_eq!(s.get("a").unwrap().icon_src, "i");
    update_instance_config(&mut s, "a", "starred", "true", &global).unwrap();
    assert!(s.get("a").unwrap().starred);
    assert!(matches!(
        update_instance_config(&mut s, "a", "starred", "1", &global),
        Err(ConfigError::NotABool)
    ));
    assert!(matches!(
        update_instance_config(&mut s, "a", "name", "x", &global),
        Err(ConfigError::NotFound)
    ));
    assert!(matches!(
        update_instance_config(&mut s, "b", "starred", "true", &global),
        Err(ConfigError::Instance(InstanceError::InstanceNotFoundByID))
    ));
    let mut i = instance("z");
    configure(&mut i, "icon_src", "v", &JsonText::Neither, &global).unwrap();
    assert_eq!(i.icon_src, "v");
}

#[test]
fn the_game_configuration_of_an_instance() {
    let mut s = store(&["a"]);
    let global = config(true, "g");
    assert!(matches!(
        update_instance_config(&mut s, "a", "specGameConfig.gameJava", "x", &global),
        Ok(ConfigOutcome::Save)
    ));
    assert_eq!(retrieve_instance_game_config(&s, "a", &config(false, "x")).unwrap().document, "x");
    update_instance_config(&mut s, "a", "useSpecGameConfig", "true", &global).unwrap();
    assert_eq!(retrieve_instance_game_config(&s, "a", &config(false, "x")).unwrap().document, "g");
    assert!(matches!(
        update_instance_config(&mut s, "a", "specGameConfig.gameJava", "x", &global),
        Ok(ConfigOutcome::UpdateGameConfig { key }) if key == "game_java"
    ));
    reset_instance_game_config(&mut s, "a", &config(false, "y")).unwrap();
    assert_eq!(s.get("a").unwrap().spec_game_config.as_ref().unwrap().document, "y");
    assert!(reset_instance_game_config(&mut s, "b", &global).is_err());
    assert!(retrieve_instance_game_config(&s, "b", &global).is_err());
    rename_instance(&mut s, "a", "n", &TargetPath::at("moved")).unwrap();
    assert_eq!(s.get("a").unwrap().version_path.base, "moved");
    assert!(rename_instance(&mut s, "b", "n", &TargetPath::at("moved")).is_err());
}

#[test]
fn modpack_channels_and_versions() {
    let i = instance("a");
    assert_eq!(
        update_channel(&i).unwrap_err().0,
        "No modpack update channel configured for this instance"
    );
    let i = with_update_channel(&i, " https://x.org \n").unwrap();
    assert_eq!(update_channel(&i).unwrap(), "https://x.org");
    assert_eq!(with_update_channel(&i, " ").unwrap_err().0, "Manifest url cannot be empty");
    assert_eq!(with_modpack_version(&i, "\t").unwrap_err().0, "Version cannot be empty");
    assert_eq!(with_modpack_version(&i, " 2 ").unwrap().modpack_version, text("2"));
    let manifest = GithubModpackManifest {
        name: String::new(),
        version: "3".to_string(),
        base_url: None,
        files: vec![],
    };
    assert_eq!(with_finished_update(&i, &manifest).modpack_version, text("3"));
    assert_eq!(state_path(&i).segments, vec![".sjmcl-github-update-state.json"]);
    assert_eq!(i.client_json_path().segments, vec!["name.json"]);
}

fn request(name: &str) -> CreationRequest {
    CreationRequest {
        directory: GameDirectory { name: "games".to_string(), dir: TargetPath::at("root") },
        name: name.to_string(),
        description: "d".to_string(),
        icon_src: "i".to_string(),
        game_id: "1.20.1".to_string(),
        mod_loader: loader_info(ModLoaderType::Forge),
        optifine: Some(OptiFineResourceInfo {
            filename: "f".to_string(),
            patch: "I6".to_string(),
            kind: "HD_U".to_string(),
        }),
        modpack_version: text("7"),
    }
}

#[test]
fn new_instances_are_checked_and_described() {
    let i = new_instance(&request("Mine"), false).unwrap();
    assert_eq!(i.id, "games:Mine");
    assert_eq!(i.version_path.base, "root");
    assert_eq!(i.version_path.segments, vec!["versions", "Mine"]);
    assert_eq!(i.mod_loader.status, ModLoaderStatus::NotDownloaded);
    assert_eq!(i.mod_loader.branch, text("b"));
    assert_eq!(i.optifine.as_ref().unwrap().version, "HD_U_I6");
    assert_eq!(i.modpack_version, text("7"));
    assert_eq!(new_instance(&request("Mine"), true).unwrap_err(), InstanceError::ConflictNameError);
    for name in ["", "a/b", "a?", ".."] {
        assert_eq!(
            new_instance(&request(name), false).unwrap_err(),
            InstanceError::InvalidNameError
        );
    }
    assert!(new_instance_for(&request("con"), false, true).is_err());
    assert!(new_instance_for(&request("con"), false, false).is_ok());
    assert!(new_instance_from(&request("a/b"), false, true).is_ok());
}

#[test]
fn names_of_instances_are_names_of_files() {
    let allowed = |name: &str, windows: bool| {
        new_instance_for(&request(name), false, windows).is_ok()
    };
    let (long, too_long) = ("x".repeat(255), "x".repeat(256));
    for name in ["...", "a\u{1f}", "a\u{85}", "a\"b", "a\\b", "a|b", too_long.as_str()] {
        assert!(!allowed(name, false));
        assert!(!allowed(name, true));
    }
    for name in ["CON.txt", "Aux", "com1", "LPT9.a.b", "a.", "a "] {
        assert!(allowed(name, false));
        assert!(!allowed(name, true));
    }
    for name in ["com10", "comx", "console", "a.con", ".a", " a", long.as_str()] {
        assert!(allowed(name, true));
    }
    assert!(!allowed(&"\u{e4}".repeat(128), false));
    assert!(allowed(&"\u{e4}".repeat(127), false));
}

#[test]
fn clients_are_prepared_for_an_instance() {
    let mut client = ClientInfo {
        id: "1.20.1".to_string(),
        jar: None,
        version: None,
        inherits_from: text("x"),
        priority: None,
        patches: vec![],
        rest: "r".to_string(),
    };
    client.prepare("Mine", "1.20.1");
    assert_eq!(client.id, "Mine");
    assert_eq!(client.jar, text("Mine"));
    assert_eq!(client.patches.len(), 1);
    assert_eq!(client.patches[0].id, "game");
    assert_eq!(client.patches[0].version, text("1.20.1"));
    assert_eq!(client.patches[0].inherits_from, None);
    assert_eq!(client.patches[0].priority, Some(0));
    assert_eq!(client.patches[0].rest, "r");
    assert_eq!(client_info_error(true), InstanceError::ClientJsonParseError);
    assert_eq!(client_info_error(false), InstanceError::NetworkError);
}

#[test]
fn the_client_is_downloaded_into_the_instance() {
    let i = new_instance(&request("Mine"), false).unwrap();
    let download = ClientDownload { url: "https://x.org/c.jar".to_string(), sha1: "s".to_string() };
    let param = client_task(&i, &Some(download)).unwrap();
    assert_eq!(param.src.href, "https://x.org/c.jar");
    assert_eq!(param.dest.segments, vec!["versions", "Mine", "Mine.jar"]);
    assert_eq!(param.filename, None);
    assert_eq!(param.sha1, text("s"));
    let bad = ClientDownload { url: "nowhere".to_string(), sha1: String::new() };
    for client in [None, Some(bad)] {
        assert_eq!(
            client_task(&i, &client).unwrap_err(),
            InstanceError::ClientJsonParseError
        );
    }
    let tasks = creation_tasks(CreationTasks {
        java: vec![],
        client: param,
        libraries: vec![],
        assets: vec![],
        loader: vec![],
        optifine: vec![],
        modpack: vec![],
    });
    assert_eq!(tasks.len(), 1);
}

#[test]
fn choices_of_a_creation() {
    assert_eq!(required_java(Some(17)), 17);
    assert_eq!(required_java(None), 0);
    assert!(downloads_java(true, true) && !downloads_java(false, true));
    assert_eq!(installs_api(Some(true), true), Some(false));
    assert_eq!(installs_api(Some(true), false), Some(true));
    assert_eq!(first_options(true, &text("zh_cn"), false), text("lang:zh_cn\n"));
    assert_eq!(first_options(true, &text("zh_cn"), true), None);
    assert_eq!(first_options(false, &text("zh_cn"), false), None);
    assert_eq!(creation_group_name("Mine", &None), "game-client?Mine");
    assert_eq!(creation_group_name("Mine", &text("17")), "game-client-w-java?Mine&17");
    assert_eq!(step_error(CreationStep::InstallLoader), None);
}

#[test]
fn only_a_failed_step_removes_the_new_directory() {
    assert_eq!(
        new_instance(&request("taken"), true).unwrap_err(),
        InstanceError::ConflictNameError
    );
    assert!(!removes_directory(None, false));
    for step in [CreationStep::FetchClientInfo, CreationStep::SaveConfig, CreationStep::RecordPending] {
        assert!(removes_directory(Some(step), false));
        assert!(!removes_directory(Some(step), true));
    }
}

#[test]
fn failed_creations_are_rolled_back() {
    let scope = CreationScope {
        auto_download_java: true,
        loader_type: ModLoaderType::Forge,
        with_optifine: true,
        with_modpack: true,
        skip_first_screen: true,
    };
    let steps = creation_steps(scope);
    let scheduled = steps.iter().position(|s| *s == CreationStep::Schedule).unwrap();
    assert_eq!(
        &steps[scheduled - 3..scheduled],
        &[CreationStep::SaveClientInfo, CreationStep::SaveConfig, CreationStep::Register]
    );
    for failed in 0..steps.len() - 1 {
        let mut s = store(&["other"]);
        for step in &steps[..failed] {
            settle_step(&mut s, &instance("new"), *step, true);
        }
        settle_step(&mut s, &instance("new"), steps[failed], false);
        assert!(s.get("new").is_none());
        assert!(s.get("other").is_some());
    }
    let bare = creation_steps(CreationScope {
        auto_download_java: false,
        loader_type: ModLoaderType::Unknown,
        with_optifine: false,
        with_modpack: false,
        skip_first_screen: false,
    });
    for step in [
        CreationStep::InstallLoader,
        CreationStep::FetchOptiFine,
        CreationStep::OpenModpack,
        CreationStep::WriteOptions,
    ] {
        assert!(!bare.contains(&step) && steps.contains(&step));
    }
}

#[test]
fn installers_run_once() {
    let mut s = store(&["idle"]);
    let mut i = instance("a");
    i.mod_loader.status = ModLoaderStatus::Downloading;
    s.insert(i);
    assert_eq!(begin_mod_loader_install(&mut s, "idle"), Ok(InstallStart::Skip));
    assert_eq!(begin_mod_loader_install(&mut s, "a"), Ok(InstallStart::Run));
    assert_eq!(s.get("a").unwrap().mod_loader.status, ModLoaderStatus::Installing);
    assert_eq!(
        begin_mod_loader_install(&mut s, "a"),
        Err(InstanceError::InstallationDuplicated)
    );
    finish_mod_loader_install(&mut s, "a").unwrap();
    assert_eq!(begin_mod_loader_install(&mut s, "a"), Ok(InstallStart::Skip));
    assert_eq!(
        begin_mod_loader_install(&mut s, "b"),
        Err(InstanceError::InstanceNotFoundByID)
    );
    assert!(finish_mod_loader_install(&mut s, "b").is_err());
    assert_eq!(
        install_start(ModLoaderStatus::DownloadFailed),
        Err(InstanceError::ProcessorExecutionFailed)
    );
}

#[test]
fn optifine_is_installed_once() {
    let mut i = instance("a");
    i.optifine = Some(OptiFine {
        filename: "f".to_string(),
        version: "v".to_string(),
        status: ModLoaderStatus::Downloading,
    });
    let mut s = InstanceStore::new();
    s.insert(i);
    assert_eq!(begin_optifine_install(&mut s, "a"), Ok(InstallStart::Run));
    assert_eq!(begin_optifine_install(&mut s, "a"), Err(InstanceError::InstallationDuplicated));
    finish_optifine_loader_install(&mut s, "a").unwrap();
    assert_eq!(begin_optifine_install(&mut s, "a"), Ok(InstallStart::Skip));
    assert!(finish_optifine_loader_install(&mut s, "b").is_err());
}

#[test]
fn loaders_are_changed_and_removed() {
    let s = store(&["a"]);
    let global = config(true, "");
    let change =
        change_mod_loader(&s, "a", &loader_info(ModLoaderType::Forge), &global).unwrap();
    assert_eq!(change.removed, ModLoaderType::Fabric);
    assert!(change.removes_api_mods && change.installs);
    assert_eq!(change.instance.mod_loader.version, "9");
    assert_eq!(change.instance.mod_loader.status, ModLoaderStatus::NotDownloaded);
    let change =
        change_mod_loader(&s, "a", &loader_info(ModLoaderType::Fabric), &global).unwrap();
    assert_eq!(change.instance.mod_loader.status, ModLoaderStatus::Installed);
    let change = remove_mod_loader(&s, "a", &config(false, "")).unwrap();
    assert!(!change.removes_api_mods && !change.installs);
    assert_eq!(change.instance.mod_loader.loader_type, ModLoaderType::Unknown);
    assert!(remove_mod_loader(&s, "b", &global).is_err());
    assert!(change_mod_loader(&s, "b", &loader_info(ModLoaderType::Forge), &global).is_err());
    assert_eq!(loader_group_name("Forge", "9", 2), text("change-mod-loader?Forge 9"));
    assert_eq!(loader_group_name("Forge", "9", 0), None);
}

#[test]
fn loaders_can_be_changed_where_patches_are_known() {
    let s = store(&["a"]);
    let check = |id, exists, patches| check_change_mod_loader_availablity(&s, id, exists, patches);
    assert_eq!(check("a", true, Some(1)), Ok(true));
    for (exists, patches) in [(false, Some(1)), (true, Some(0)), (true, None)] {
        assert_eq!(check("a", exists, patches), Err(InstanceError::NotSupportChangeModLoader));
    }
    assert_eq!(check("b", true, Some(1)), Err(InstanceError::InstanceNotFoundByID));
    let info = OptiFineResourceInfo {
        filename: "f".to_string(),
        patch: "I6".to_string(),
        kind: "HD_U".to_string(),
    };
    let changed = change_optifine(&s, "a", &info).unwrap();
    assert_eq!(changed.optifine.unwrap().version, "HD_U_I6");
    assert!(change_optifine(&s, "b", &info).is_err());
    assert!(remove_optifine(&s, "a").unwrap().optifine.is_none());
    assert!(remove_optifine(&s, "b").is_err());
    assert_eq!(optifine_group_name("f", 1), text("change-optifine?f"));
    assert_eq!(optifine_group_name("f", 0), None);
}
