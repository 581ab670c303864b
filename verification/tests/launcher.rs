//! Updates of the launcher, lists of loaders, offline accounts, settings of the build.
use bgumcl::account::{
    identity_from, login, offline_identity, placeholder_skin, player_from, role_at, skin_file,
    skin_model, AccountError, PresetRole, Rgba, SkinModel,
};
use bgumcl::build_env::{build_lines, lacks_curseforge_key, load_env_file, parse_setting};
use bgumcl::instance::models::{ModLoaderType, OptiFineResourceInfo};
use bgumcl::loader_meta::{
    fabric_loaders, fabric_meta_url, get_optifine_sort_key, list_error, optifine_list_url,
    optifines_from_matches, optifines_of_mirror, optifines_on_page, sort_optifines, ResourceError,
};
use bgumcl::paths::TargetPath;
use bgumcl::updater::{
    build_local_new_filename, build_resource_filename, download_target_version,
    downloaded_version, latest_release, release_from, target_version_url, update_group_name,
    update_target_name, LauncherConfigError, ReleaseFacts,
};

#[test]
fn releases_are_named_by_version_and_machine() {
    assert_eq!(build_resource_filename("1.3.0", "windows", "x86"), "BGUMCL_1.3.0_windows_i686_portable.exe");
    assert_eq!(build_resource_filename("1.3.0", "linux", "x86_64"), "BGUMCL_1.3.0_linux_x86_64_portable");
    assert_eq!(build_resource_filename("1.3.0", "macos", "aarch64"), "BGUMCL_1.3.0_macos_aarch64.app.tar.gz");
    assert_eq!(build_resource_filename("1.3.0", "bsd", "arm"), "BGUMCL_1.3.0_bsd_arm");
}

#[test]
fn only_the_first_version_in_a_name_is_replaced() {
    assert_eq!(build_local_new_filename("a1.0b1.0", "1.0", "2.10"), "a2.10b1.0");
    assert_eq!(build_local_new_filename("launcher.exe", "1.0", "2.0"), "launcher.exe");
    assert_eq!(build_local_new_filename("a1.0", "1.0", "1.0"), "a1.0");
    assert_eq!(downloaded_version("BGUMCL_1.4.0_linux", "1.3.0"), "1.4.0");
    assert_eq!(downloaded_version("launcher", "1.3.0"), "1.3.0");
    assert_eq!(update_target_name("BGUMCL_1.4.0_linux", "1.3.0", "my-1.3.0.exe"), "my-1.4.0.exe");
}

#[test]
fn the_latest_release_is_read() {
    let release = latest_release(
        br#"{"version":"1.4.0","base_url":"https://x.org/d//","release_notes":"n","published_at":"p"}"#,
        "linux",
        "x86_64",
    )
    .unwrap();
    assert_eq!(release.version, "1.4.0");
    assert_eq!(release.filename, "BGUMCL_1.4.0_linux_x86_64_portable");
    assert_eq!(release.download_url, "https://x.org/d/BGUMCL_1.4.0_linux_x86_64_portable");
    assert_eq!((release.release_notes.as_str(), release.published_at.as_str()), ("n", "p"));
    let release = latest_release(br#"{"version":"2","base_url":5}"#, "bsd", "arm").unwrap();
    assert_eq!(
        release.download_url,
        "https://github.com/Muzimi-ciallo/BGUMCL/releases/download/BGUMCL_2_bsd_arm"
    );
    assert_eq!(release.release_notes, "");
    for body in ["{}", "{\"version\":1}", "nonsense"] {
        assert_eq!(
            latest_release(body.as_bytes(), "linux", "arm").unwrap_err(),
            LauncherConfigError::FetchError
        );
    }
    let facts = ReleaseFacts {
        version: Some("3".to_string()),
        base_url: None,
        release_notes: None,
        published_at: None,
    };
    assert_eq!(release_from(&facts, "bsd", "arm").unwrap().version, "3");
}

#[test]
fn a_release_is_downloaded_into_the_cache() {
    let cache = TargetPath::at("cache");
    let param = download_target_version("1.4.0", "f.exe", &None, &cache).unwrap();
    assert_eq!(
        param.src.href,
        "https://github.com/Muzimi-ciallo/BGUMCL/releases/download/v1.4.0/f.exe"
    );
    assert_eq!(param.dest.segments, vec!["f.exe"]);
    assert_eq!(param.filename.as_deref(), Some("f.exe"));
    assert_eq!(target_version_url("1", "f", &Some("u".to_string())), "u");
    assert_eq!(
        download_target_version("1", "f", &Some("u".to_string()), &cache).unwrap_err(),
        LauncherConfigError::FetchError
    );
    assert_eq!(update_group_name("f"), "launcher-update?f");
}

fn optifine(filename: &str) -> OptiFineResourceInfo {
    OptiFineResourceInfo {
        filename: filename.to_string(),
        patch: String::new(),
        kind: "HD_U".to_string(),
    }
}

#[test]
fn optifines_have_keys() {
    let key = |name: &str| get_optifine_sort_key(&optifine(name));
    assert_eq!(key("OptiFine_1.20.1_HD_U_I6"), ('I' as u32, 6, u32::MAX));
    assert_eq!(key("OptiFine_1.20.1_HD_U_i7_pre3"), ('I' as u32, 7, 3));
    assert_eq!(key("OptiFine_1.20.1_HD_U_I7_prex"), ('I' as u32, 7, 0));
    assert_eq!(key("OptiFine_1.20.1_HD_U_Ix"), ('I' as u32, 0, u32::MAX));
    assert_eq!(key("OptiFine_1.20.1_HD_U_"), (0, 0, u32::MAX));
    assert_eq!(key("other"), (0, 0, 0));
}

#[test]
fn the_newest_optifine_comes_first() {
    let sorted = sort_optifines(vec![
        optifine("O_HD_U_I6_pre1"),
        optifine("O_HD_U_H9"),
        optifine("O_HD_U_I6"),
        optifine("O_HD_U_I5"),
        optifine("P_HD_U_I5"),
    ]);
    let names: Vec<&str> = sorted.iter().map(|o| o.filename.as_str()).collect();
    assert_eq!(
        names,
        vec!["O_HD_U_I6", "O_HD_U_I6_pre1", "P_HD_U_I5", "O_HD_U_I5", "O_HD_U_H9"]
    );
}

#[test]
fn optifines_of_the_mirror_lose_their_extension() {
    let list = optifines_of_mirror(&vec![
        optifine("OptiFine_1.20.1_HD_U_I5.jar"),
        optifine("OptiFine_1.20.1_HD_U_I6.jar"),
    ]);
    let names: Vec<&str> = list.iter().map(|o| o.filename.as_str()).collect();
    assert_eq!(names, vec!["OptiFine_1.20.1_HD_U_I6", "OptiFine_1.20.1_HD_U_I5"]);
}

#[test]
fn optifines_are_read_from_the_page() {
    let page = |links: &str| format!("<html>{}{}</html>", links, " ".repeat(200));
    let list = optifines_on_page(
        &page(
            "<a href=\"http://x/adloadx?f=OptiFine_1.20.1_HD_U_I5.jar\">\
             <a href='http://x/adloadx?f=OptiFine_1.20.1_HD_U_I6_pre1.jar'>\
             <a href='http://x/adloadx?f=OptiFine_1.20_HD_U_I1.jar'>\
             <a href='http://x/adloadx?f=OptiFine_1.20.1_L_A1.jar'>",
        ),
        "1.20.1",
    )
    .unwrap();
    let found: Vec<(&str, &str, &str)> = list
        .iter()
        .map(|o| (o.filename.as_str(), o.patch.as_str(), o.kind.as_str()))
        .collect();
    assert_eq!(
        found,
        vec![
            ("OptiFine_1.20.1_HD_U_I6_pre1", "I6_pre1", "HD_U"),
            ("OptiFine_1.20.1_HD_U_I5", "I5", "HD_U"),
        ]
    );
    let short = "'OptiFine_1.20.1_HD_U_I5.jar'";
    assert_eq!(optifines_on_page(short, "1.20.1").unwrap_err(), ResourceError::ParseError);
    assert_eq!(
        optifines_on_page(&page("nothing"), "1.20.1").unwrap_err(),
        ResourceError::ParseError
    );
    let matches = vec![vec![None, Some("1.9_HD_U_A1".to_string())]];
    assert_eq!(optifines_from_matches(&matches, "1.9").unwrap()[0].patch, "A1");
    assert!(optifines_from_matches(&matches, "1.8").is_err());
}

#[test]
fn loader_lists_have_addresses() {
    assert_eq!(
        fabric_meta_url("https://meta.fabricmc.net/", "1.20.1").unwrap(),
        "https://meta.fabricmc.net/v2/versions/loader/1.20.1"
    );
    assert!(fabric_meta_url("nowhere", "1.20.1").is_err());
    assert_eq!(
        optifine_list_url("https://bmclapi2.bangbang93.com/optifine/", "1.20.1").unwrap(),
        "https://bmclapi2.bangbang93.com/optifine/1.20.1"
    );
    let loaders = fabric_loaders(&vec!["0.15".to_string()]);
    assert_eq!(loaders[0].version, "0.15");
    assert_eq!(loaders[0].loader_type, ModLoaderType::Fabric);
    assert_eq!(loaders[0].stable, None);
    assert_eq!(list_error(true), ResourceError::ParseError);
    assert_eq!(list_error(false), ResourceError::NetworkError);
}

#[test]
fn players_are_told_by_their_identity_or_name() {
    let given = "550e8400-e29b-41d4-a716-446655440000";
    assert_eq!(
        offline_identity("Steve", given).unwrap(),
        0x550e8400_e29b_41d4_a716_446655440000
    );
    let of_name = uuid::Uuid::new_v5(&uuid::Uuid::NAMESPACE_URL, b"OfflinePlayer:Steve");
    assert_eq!(offline_identity("Steve", "").unwrap(), of_name.as_u128());
    assert_eq!(offline_identity("Steve", "bad").unwrap_err(), AccountError::Invalid);
    assert_eq!(identity_from(None, true, 5), Ok(5));
    assert_eq!(identity_from(Some(3), false, 5), Ok(3));
    assert_eq!(identity_from(None, false, 5), Err(AccountError::Invalid));
    let player = login("Steve", "").unwrap();
    assert_eq!((player.name.as_str(), player.uuid), ("Steve", of_name.as_u128()));
    assert_eq!(player.skin.model, skin_model(player.skin.role));
    assert!(login("Steve", "bad").is_err());
}

#[test]
fn skins_belong_to_roles() {
    assert_eq!(skin_model(PresetRole::Alex), SkinModel::Slim);
    assert_eq!(skin_model(PresetRole::Steve), SkinModel::Default);
    assert_eq!(role_at(None), PresetRole::Steve);
    assert_eq!(role_at(Some(0)), PresetRole::Steve);
    assert_eq!(role_at(Some(1)), PresetRole::Alex);
    assert_eq!(player_from("a", 1, Some(1)).skin.model, SkinModel::Slim);
    assert_eq!(skin_file("alex"), "assets/skins/alex.png");
    let skin = placeholder_skin();
    assert_eq!(skin.len(), 64 * 64);
    assert!(skin
        .iter()
        .all(|p| *p == Rgba { red: 143, green: 168, blue: 168, alpha: 255 }));
}

#[test]
fn settings_are_read_from_lines() {
    let settings = load_env_file(
        "# comment\r\nBGUMCL_KEY = \"a$b=c\"\r\n\nOTHER=1\nBGUMCL_EMPTY=\nBGUMCL_Q=\"\nBGUMCL_E=\"\"\nno line\nBGUMCL_P=x",
    );
    let pairs: Vec<(&str, &str)> =
        settings.iter().map(|s| (s.key.as_str(), s.value.as_str())).collect();
    assert_eq!(
        pairs,
        vec![("BGUMCL_KEY", "a$b=c"), ("BGUMCL_Q", "\""), ("BGUMCL_P", "x")]
    );
    assert!(parse_setting("#BGUMCL_A=1").is_none());
}

#[test]
fn releases_need_the_key() {
    let some = |s: &str| Some(s.to_string());
    assert!(lacks_curseforge_key(&some("release"), &None));
    assert!(lacks_curseforge_key(&some("release"), &some(" \t")));
    assert!(!lacks_curseforge_key(&some("release"), &some("k")));
    assert!(!lacks_curseforge_key(&None, &None));
    assert_eq!(
        build_lines("BGUMCL_A", "b"),
        vec!["cargo:rerun-if-env-changed=BGUMCL_A", "cargo:rustc-env=BGUMCL_A=b"]
    );
    assert!(build_lines("A", "b").is_empty());
}
