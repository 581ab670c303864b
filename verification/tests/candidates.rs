//! From which addresses a file is downloaded.
use bgumcl::download::candidates::{
    candidate_urls, is_curseforge_or_modrinth_url, uses_proxy, DownloadParam,
};
use bgumcl::external::UrlParts;
use bgumcl::paths::TargetPath;

fn parts(address: &str) -> UrlParts {
    let url = url::Url::parse(address).unwrap();
    UrlParts {
        href: url.as_str().to_string(),
        scheme: url.scheme().to_string(),
        username: url.username().to_string(),
        password: url.password().map(|s| s.to_string()),
        host: url.host_str().map(|s| s.to_string()),
        port: url.port(),
        path: url.path().to_string(),
        query: url.query().map(|s| s.to_string()),
        fragment: url.fragment().map(|s| s.to_string()),
        opaque: url.cannot_be_a_base(),
    }
}

fn candidates(address: &str, name: Option<&str>, mirror_first: bool) -> Vec<String> {
    candidate_urls(
        &DownloadParam {
            src: parts(address),
            dest: TargetPath::at("root"),
            filename: name.map(|s| s.to_string()),
            sha1: None,
        },
        mirror_first,
    )
}

#[test]
fn only_resource_sites_are_recognised() {
    for host in [
        "api.curseforge.com",
        "edge.forgecdn.net",
        "media.forgecdn.net",
        "mediafilez.forgecdn.net",
        "edge-service.overwolf.wtf",
        "media-service.overwolf.wtf",
        "curseforge.com",
        "api.modrinth.com",
        "cdn.modrinth.com",
        "modrinth.com",
    ] {
        assert!(is_curseforge_or_modrinth_url(&parts(&format!("https://{host}/x"))));
    }
    assert!(!is_curseforge_or_modrinth_url(&parts("https://github.com/x")));
    assert!(!is_curseforge_or_modrinth_url(&parts("file:///x")));
}

#[test]
fn only_resource_sites_use_the_proxy() {
    assert!(uses_proxy("https://cdn.modrinth.com/x", true));
    assert!(!uses_proxy("https://cdn.modrinth.com/x", false));
    assert!(!uses_proxy("https://mod.mcimirror.top/x", true));
    assert!(!uses_proxy("no address", true));
}

#[test]
fn curseforge_files_come_from_the_official_hosts_first() {
    let address = "https://edge.forgecdn.net/files/1/2/a.jar";
    assert_eq!(
        candidates(address, None, false),
        vec![
            "https://mediafilez.forgecdn.net/files/1/2/a.jar",
            "https://edge.forgecdn.net/files/1/2/a.jar",
            "https://mod.mcimirror.top/files/1/2/a.jar",
        ]
    );
    assert_eq!(
        candidates(address, None, true),
        vec![
            "https://mod.mcimirror.top/files/1/2/a.jar",
            "https://mediafilez.forgecdn.net/files/1/2/a.jar",
            "https://edge.forgecdn.net/files/1/2/a.jar",
        ]
    );
}

#[test]
fn no_address_is_listed_twice() {
    assert_eq!(
        candidates("https://media-service.overwolf.wtf/files/a.jar", None, false),
        vec![
            "https://mediafilez.forgecdn.net/files/a.jar",
            "https://media-service.overwolf.wtf/files/a.jar",
            "https://media.forgecdn.net/files/a.jar",
            "https://mod.mcimirror.top/files/a.jar",
        ]
    );
    assert_eq!(
        candidates("https://media.forgecdn.net/a", None, true),
        vec![
            "https://mod.mcimirror.top/a",
            "https://mediafilez.forgecdn.net/a",
            "https://media.forgecdn.net/a",
            "https://edge.forgecdn.net/a",
        ]
    );
}

#[test]
fn modrinth_files_have_a_mirror() {
    let address = "https://cdn.modrinth.com/data/x/a.jar";
    let mirror = "https://mod.mcimirror.top/data/x/a.jar";
    assert_eq!(candidates(address, None, false), vec![address, mirror]);
    assert_eq!(candidates(address, None, true), vec![mirror, address]);
    assert_eq!(
        candidates("https://modrinth.com/a", None, true),
        vec!["https://modrinth.com/a"]
    );
}

#[test]
fn optifine_files_have_a_mirror_by_their_name() {
    let address = "https://optifine.net/download?f=OptiFine_1.20.1_HD_U_I6.jar";
    let mirror = "https://bmclapi2.bangbang93.com/optifine/1.20.1/HD_U/I6";
    let name = Some("OptiFine_1.20.1_HD_U_I6.jar");
    assert_eq!(candidates(address, name, false), vec![address, mirror]);
    assert_eq!(candidates(address, name, true), vec![mirror, address]);
    assert_eq!(candidates(address, Some("OptiFine_1.20.1_HD_U_I6"), true)[0], mirror);
    assert_eq!(candidates(address, Some("other.jar"), true), vec![address]);
    assert_eq!(candidates(address, None, true), vec![address]);
}

#[test]
fn github_files_take_the_mirrors() {
    assert_eq!(
        candidates("https://github.com/Muzimi-ciallo/BGUMCL/releases/a", None, false),
        vec![
            "https://gitee.com/Muzimimiao/BGUMCL/releases/a",
            "https://v4.gh-proxy.org/https://github.com/Muzimi-ciallo/BGUMCL/releases/a",
            "https://cdn.gh-proxy.org/https://github.com/Muzimi-ciallo/BGUMCL/releases/a",
            "https://github.com/Muzimi-ciallo/BGUMCL/releases/a",
        ]
    );
    assert_eq!(
        candidates("https://cdn.gh-proxy.org/https://github.com/o/r/a", None, false),
        vec![
            "https://v4.gh-proxy.org/https://github.com/o/r/a",
            "https://cdn.gh-proxy.org/https://github.com/o/r/a",
            "https://github.com/o/r/a",
        ]
    );
}

#[test]
fn game_files_come_from_the_mirror_first_where_it_is_preferred() {
    let forge = "https://maven.minecraftforge.net/net/minecraftforge/forge/a.jar";
    let copy = "https://bmclapi2.bangbang93.com/maven/net/minecraftforge/forge/a.jar";
    assert_eq!(candidates(forge, None, false), vec![forge, copy]);
    assert_eq!(candidates(forge, None, true), vec![copy, forge]);
    let library = "https://libraries.minecraft.net/a/b.jar";
    assert_eq!(
        candidates(library, None, false),
        vec![
            library,
            "https://bmclapi2.bangbang93.com/maven/a/b.jar",
            "https://bmclapi2.bangbang93.com/libraries/a/b.jar",
        ]
    );
    assert_eq!(
        candidates(library, None, true),
        vec![
            "https://bmclapi2.bangbang93.com/maven/a/b.jar",
            "https://bmclapi2.bangbang93.com/libraries/a/b.jar",
            library,
        ]
    );
    assert_eq!(
        candidates("https://example.org/a", None, true),
        vec!["https://example.org/a"]
    );
}

#[test]
fn files_of_the_mirror_come_from_their_origin_first_unless_it_is_preferred() {
    let copy = "https://bmclapi2.bangbang93.com/assets/ab/abc";
    let origin = "https://resources.download.minecraft.net/ab/abc";
    assert_eq!(candidates(copy, None, false), vec![origin, copy]);
    assert_eq!(candidates(copy, None, true), vec![copy, origin]);
    let other = "https://bmclapi2.bangbang93.com/version/1.20.1/client";
    assert_eq!(candidates(other, None, false), vec![other]);
}
