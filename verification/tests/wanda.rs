//! The modpack of the Wanda server.
use bgumcl::external::VersionOrder;
use bgumcl::instance::models::InstanceError;
use bgumcl::instance::wanda::{
    archive_plan, archive_plan_from, extension_is, listed_assets, nested_outcome, nested_pack,
    nested_size_fits, pick_asset, safe_wanda_asset_name, safe_wanda_asset_name_for, temporary_name,
    wanda_archive_has_manifest, wanda_release_asset, ArchivePlan, ReleaseAsset, WandaAction,
    WandaArchiveError, WandaAsset, WandaDownload, WandaEntry, WandaEvent, WandaReleases,
};

fn asset(name: &str, url: &str) -> ReleaseAsset {
    ReleaseAsset {
        name: Some(name.to_string()),
        url: Some(url.to_string()),
        file_name: Some(name.to_string()),
    }
}

fn entry(name: &str, is_dir: bool) -> WandaEntry {
    WandaEntry { name: name.to_string(), is_dir }
}

fn found(name: &str, url: &str) -> Option<WandaAsset> {
    Some(WandaAsset { name: name.to_string(), url: url.to_string() })
}

#[test]
fn ignores_generated_source_archives() {
    let release = br#"{
      "assets": [
        {
          "name": "1.1.0.zip",
          "browser_download_url": "https://gitee.com/example/repo/archive/refs/tags/1.1.0.zip"
        },
        {
          "name": "Construct Technological Innovation.zip",
          "browser_download_url": "https://gitee.com/example/repo/releases/download/1.1.0/pack.zip"
        }
      ]
    }"#;

    let asset = wanda_release_asset(release).unwrap();
    assert_eq!(asset.name, "Construct Technological Innovation.zip");
}

#[test]
fn a_nested_modpack_is_unpacked_under_the_name_of_its_archive() {
    let entries = vec![entry("modpack.mrpack", false), entry("Plain Craft Launcher.exe", false)];
    let safe = safe_wanda_asset_name("Construct Technological Innovation.zip");
    match archive_plan(false, &entries, &safe).unwrap() {
        ArchivePlan::Unpack { index, name, temporary } => {
            assert_eq!(index, 0);
            assert_eq!(name, "Construct Technological Innovation.mrpack");
            assert_eq!(temporary, "Construct Technological Innovation.mrpack.download");
        }
        ArchivePlan::Keep { .. } => panic!("kept"),
    }
    assert!(wanda_archive_has_manifest(true, false) && wanda_archive_has_manifest(false, true));
    assert!(!wanda_archive_has_manifest(false, false));
    assert!(nested_outcome(true, true).is_ok());
    assert_eq!(nested_outcome(true, false), Err(WandaArchiveError::InvalidFormat));
    assert_eq!(nested_outcome(false, true), Err(WandaArchiveError::InvalidFormat));
}

#[test]
fn archives_hold_one_modpack_or_are_one() {
    assert!(matches!(
        archive_plan(true, &vec![], "a.zip").unwrap(),
        ArchivePlan::Keep { name } if name == "a.zip"
    ));
    assert!(archive_plan(false, &vec![entry("x.MRPACK", true)], "a.zip").is_err());
    assert!(archive_plan(false, &vec![entry("d/x.MRPACK", false)], "a.zip").is_ok());
    assert_eq!(
        archive_plan_from(false, &vec![true, false, true], "a.zip").unwrap_err(),
        WandaArchiveError::InvalidFormat
    );
    assert_eq!(
        archive_plan_from(false, &vec![], "a.zip").unwrap_err(),
        WandaArchiveError::InvalidFormat
    );
    assert!(nested_pack(&Some("x.mrpack".to_string()), false));
    assert!(!nested_pack(&None, false));
    assert!(!nested_size_fits(0));
    assert!(nested_size_fits(1) && nested_size_fits(2_147_483_648));
    assert!(!nested_size_fits(2_147_483_649));
}

#[test]
fn modpacks_are_picked_before_archives() {
    let picked = pick_asset(&vec![
        asset("a.ZIP", "https://x.org/a"),
        asset("b.MRPack", "https://x.org/b"),
        asset("c.mrpack", "https://x.org/c"),
    ])
    .unwrap();
    assert_eq!((picked.name.as_str(), picked.url.as_str()), ("b.MRPack", "https://x.org/b"));
    assert!(pick_asset(&vec![asset("a.txt", "https://x.org/a")]).is_none());
    assert!(!extension_is(&Some(".zip".to_string()), "zip"));
}

#[test]
fn assets_are_read_from_a_release() {
    let listed = listed_assets(
        br#"{"assets":[
            {"name":"d/a.zip","download_url":"u1","url":"u2"},
            {"name":"b.zip","url":"u3"},
            {"name":"c.zip","browser_download_url":null,"url":"u4"},
            {"name":7},
            5
        ]}"#,
    )
    .unwrap();
    assert_eq!(listed.len(), 5);
    assert_eq!(listed[0].url.as_deref(), Some("u1"));
    assert_eq!(listed[0].file_name.as_deref(), Some("a.zip"));
    assert_eq!(listed[1].url.as_deref(), Some("u3"));
    assert_eq!(listed[2].url, None);
    assert_eq!(listed[3].name, None);
    assert_eq!(listed[4].name, None);
    assert!(listed_assets(b"{\"assets\":{}}").is_none());
    assert!(listed_assets(b"<html>").is_none());
}

fn release(tag: &str, name: &str, url: &str) -> Vec<u8> {
    format!(
        r#"{{"tag_name":"{tag}","assets":[{{"name":"{name}","browser_download_url":"{url}"}}]}}"#
    )
    .into_bytes()
}

#[test]
fn the_newest_release_is_downloaded() {
    let mut releases = WandaReleases::new();
    releases.take(&release("v1.2.0", "old.zip", "https://x.org/old"));
    releases.take(&release("v1.10.0", "new.zip", "https://x.org/new"));
    releases.take(&release("v1.9.0", "middle.zip", "https://x.org/middle"));
    releases.take(&release("nonsense", "odd.zip", "https://x.org/odd"));
    let plan = releases.plan().unwrap();
    assert_eq!(plan.name, "new.zip");
    assert_eq!(plan.candidates, vec!["https://x.org/new"]);
}

#[test]
fn equal_releases_add_their_files() {
    let mut releases = WandaReleases::new();
    releases.take(&release("1.0.0", "a.zip", "https://gitee.com/x/a.zip"));
    releases.take(&release("v1.0.0", "b.zip", "https://github.com/o/r/b.zip"));
    releases.take(&release("1.0.0", "c.zip", "https://gitee.com/x/a.zip"));
    let plan = releases.plan().unwrap();
    assert_eq!(plan.name, "a.zip");
    assert_eq!(
        plan.candidates,
        vec![
            "https://gitee.com/x/a.zip",
            "https://v4.gh-proxy.org/https://github.com/o/r/b.zip",
            "https://cdn.gh-proxy.org/https://github.com/o/r/b.zip",
            "https://github.com/o/r/b.zip",
        ]
    );
}

#[test]
fn releases_are_weighed_by_their_order() {
    let mut releases = WandaReleases::new();
    releases.add_release(found("a", "u1"), None, None);
    releases.add_release(found("b", "u2"), Some("1.0.0".to_string()), None);
    assert_eq!(releases.assets.len(), 1);
    assert_eq!(releases.assets[0].name, "b");
    releases.add_release(found("c", "u3"), None, None);
    releases.add_release(found("d", "u4"), Some("0.1.0".to_string()), Some(VersionOrder::Older));
    assert_eq!(releases.assets.len(), 1);
    releases.add_release(found("e", "u5"), Some("2.0.0".to_string()), Some(VersionOrder::Newer));
    assert_eq!(releases.assets.len(), 1);
    assert_eq!(releases.assets[0].name, "e");
    assert_eq!(releases.best.as_deref(), Some("2.0.0"));
}

#[test]
fn a_release_without_a_file_is_no_modpack() {
    let mut releases = WandaReleases::new();
    releases.take(b"{\"assets\":[]}");
    assert_eq!(releases.plan().unwrap_err(), InstanceError::ModpackManifestParseError);
}

#[test]
fn without_a_release_the_known_file_is_downloaded() {
    let mut releases = WandaReleases::new();
    releases.take(b"<html></html>");
    let plan = releases.plan().unwrap();
    assert_eq!(plan.name, "Fabulously.Optimized-v6.5.0.mrpack");
    assert_eq!(
        plan.candidates,
        vec![
            "https://gitee.com/Muzimimiao/BBGU-Minecraft-sever/releases/download/1.0.0/Fabulously.Optimized-v6.5.0.mrpack"
        ]
    );
}

#[test]
fn asset_names_are_made_safe() {
    assert_eq!(safe_wanda_asset_name("a/b:c?.zip"), "bc.zip");
    assert_eq!(safe_wanda_asset_name(".."), "wanda-server-modpack.zip");
    assert_eq!(safe_wanda_asset_name(""), "wanda-server-modpack.zip");
    assert_eq!(safe_wanda_asset_name_for(&None, false), "wanda-server-modpack.zip");
    assert_eq!(safe_wanda_asset_name_for(&Some("x*.zip".to_string()), true), "x.zip");
    assert_eq!(temporary_name("x.zip"), "x.zip.download");
}

#[test]
fn names_are_sanitized_by_the_rules_of_a_system() {
    let name = |s: &str, windows| safe_wanda_asset_name_for(&Some(s.to_string()), windows);
    assert_eq!(name("a\u{0}b\u{85}\n/c|\"<>\\.zip", false), "abc.zip");
    assert_eq!(name("...", false), "wanda-server-modpack.zip");
    assert_eq!(name(".?.", false), "wanda-server-modpack.zip");
    assert_eq!(name("CON.zip", false), "CON.zip");
    assert_eq!(name("CON.zip", true), "wanda-server-modpack.zip");
    assert_eq!(name("lpt7", true), "wanda-server-modpack.zip");
    assert_eq!(name("console.zip", true), "console.zip");
    assert_eq!(name("a. .", false), "a. .");
    assert_eq!(name("a. .", true), "a");
    assert_eq!(name("con ", true), "con");
    assert_eq!(name(". .", true), "wanda-server-modpack.zip");
    assert_eq!(name(&"a".repeat(300), false), "a".repeat(255));
    assert_eq!(name(&"\u{e4}".repeat(200), false), "\u{e4}".repeat(127));
    assert_eq!(name(&format!("a{}", "\u{1f600}".repeat(70)), true).len(), 253);
}

#[test]
fn every_address_is_tried_once() {
    let (mut download, action) = WandaDownload::begin(2);
    assert_eq!(action, WandaAction::Try(0));
    assert_eq!(download.step(WandaEvent::Unavailable), WandaAction::Try(1));
    assert_eq!(download.step(WandaEvent::Kept), WandaAction::Finish);
}

#[test]
fn a_failed_download_tells_why() {
    let last = |events: Vec<WandaEvent>| {
        let (mut download, mut action) = WandaDownload::begin(events.len());
        for event in events {
            action = download.step(event);
        }
        action
    };
    assert_eq!(
        last(vec![
            WandaEvent::Useless(WandaArchiveError::Io),
            WandaEvent::Useless(WandaArchiveError::InvalidFormat),
            WandaEvent::Unavailable,
        ]),
        WandaAction::Fail(InstanceError::ModpackManifestParseError)
    );
    assert_eq!(
        last(vec![WandaEvent::Useless(WandaArchiveError::Io)]),
        WandaAction::Fail(InstanceError::FileCreationFailed)
    );
    assert_eq!(
        last(vec![WandaEvent::Unavailable]),
        WandaAction::Fail(InstanceError::NetworkError)
    );
    assert_eq!(
        last(vec![WandaEvent::NoFile]),
        WandaAction::Fail(InstanceError::FileCreationFailed)
    );
    assert_eq!(
        WandaDownload::begin(0).1,
        WandaAction::Fail(InstanceError::NetworkError)
    );
}
