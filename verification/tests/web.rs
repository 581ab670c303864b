//! Addresses and their mirrors.
use bgumcl::web::{
    client_proxy_url, gh_proxy_candidates, gitee_mirror_owner, github_to_gitee,
    is_china_mainland_ip, join_candidates, location_in_trace, mainland_reported, mcim_mirror_url,
    mcim_path, minecraft_download_candidates, mirror_plan, normalize_url, path_for_comparison,
    port_for_comparison, retry_verdict, scheme_port, strip_gh_proxy_prefix, user_agent, Fallback,
    Joining, ProxyConfig, ProxyType, RequestOutcome, RetryVerdict,
};

fn text(s: &str) -> Option<String> {
    Some(s.to_string())
}

#[test]
fn proxy_prefixes_are_stripped() {
    assert_eq!(
        strip_gh_proxy_prefix("https://v4.gh-proxy.org/https://github.com/o/r"),
        "github.com/o/r"
    );
    assert_eq!(
        strip_gh_proxy_prefix("https://cdn.gh-proxy.org/https://github.com/o/r"),
        "github.com/o/r"
    );
    assert_eq!(strip_gh_proxy_prefix("https://github.com/o/r"), "https://github.com/o/r");
}

#[test]
fn mirrored_accounts_are_known() {
    assert_eq!(gitee_mirror_owner("Muzimi-ciallo"), Some("Muzimimiao"));
    assert_eq!(gitee_mirror_owner("someone"), None);
}

#[test]
fn github_addresses_have_gitee_addresses() {
    assert_eq!(
        github_to_gitee("https://raw.githubusercontent.com/Muzimi-ciallo/R/main/a/b.json"),
        text("https://gitee.com/Muzimimiao/R/raw/main/a/b.json")
    );
    assert_eq!(
        github_to_gitee("https://raw.githubusercontent.com/Muzimi-ciallo/R/main"),
        text("https://gitee.com/Muzimimiao/R/raw/main/")
    );
    assert_eq!(github_to_gitee("https://raw.githubusercontent.com/Muzimi-ciallo/R"), None);
    assert_eq!(
        github_to_gitee("https://github.com/Muzimi-ciallo/R/releases/x"),
        text("https://gitee.com/Muzimimiao/R/releases/x")
    );
    assert_eq!(
        github_to_gitee("https://github.com/Muzimi-ciallo/R"),
        text("https://gitee.com/Muzimimiao/R/")
    );
    assert_eq!(github_to_gitee("https://github.com/Muzimi-ciallo"), None);
    assert_eq!(github_to_gitee("https://github.com/other/R/x"), None);
    assert_eq!(github_to_gitee("https://example.org/Muzimi-ciallo/R/x"), None);
}

#[test]
fn github_requests_take_mirror_and_proxies_first() {
    assert_eq!(
        gh_proxy_candidates("http://github.com/o/r"),
        vec![
            "https://v4.gh-proxy.org/https://github.com/o/r",
            "https://cdn.gh-proxy.org/https://github.com/o/r",
            "https://github.com/o/r",
        ]
    );
    assert_eq!(
        gh_proxy_candidates("https://raw.githubusercontent.com/Muzimi-ciallo/R/main/a")[0],
        "https://gitee.com/Muzimimiao/R/raw/main/a"
    );
    assert_eq!(gh_proxy_candidates("https://example.org/a"), vec!["https://example.org/a"]);
    assert_eq!(gh_proxy_candidates("https://api.github.com/repos/o/r").len(), 3);
    assert_eq!(gh_proxy_candidates("https://user@github.com:443/o/r").len(), 3);
    assert_eq!(gh_proxy_candidates("github.com/o/r")[2], "https://github.com/o/r");
}

#[test]
fn addresses_that_only_mention_github_are_returned_unchanged() {
    for address in [
        "https://mygithub.com/a",
        "https://example.org/github.com/a",
        "https://example.org?u=https://github.com/a",
        "https://example.org#raw.githubusercontent.com",
        "https://github.com@example.org/a",
        "https://github.com.example.org/a",
        "https://raw.githubusercontent.com.example.org/a",
        "https://v4.gh-proxy.org/https://example.org/github.com",
        "",
    ] {
        assert_eq!(gh_proxy_candidates(address), vec![address]);
    }
}

#[test]
fn a_proxied_address_has_the_candidates_of_the_direct_one() {
    let direct = gh_proxy_candidates("https://github.com/o/r/x");
    for proxy in ["https://v4.gh-proxy.org/https://", "https://cdn.gh-proxy.org/https://"] {
        let proxied = format!("{proxy}github.com/o/r/x");
        assert_eq!(strip_gh_proxy_prefix(&proxied), "github.com/o/r/x");
        assert_eq!(gh_proxy_candidates(&proxied), direct);
    }
}

#[test]
fn github_is_recognised_behind_any_scheme() {
    assert_eq!(
        gh_proxy_candidates("ftp://github.com/a"),
        vec![
            "https://v4.gh-proxy.org/https://ftp://github.com/a",
            "https://cdn.gh-proxy.org/https://ftp://github.com/a",
            "https://ftp://github.com/a",
        ]
    );
    for address in [
        "HTTPS://github.com/a",
        "git+ssh://git@github.com:22/a",
        "https:github.com/a",
        "ws:\\\\github.com\\a",
        "github.com:443/a",
        " https://github.com/a",
        "https://github.com./a",
        "git@github.com:o/r",
        "https://v4.gh-proxy.org/https://http://github.com/a",
    ] {
        assert_eq!(gh_proxy_candidates(address).len(), 3, "{address}");
    }
    for address in ["ftp://example.org/github.com", "1a://github.com/a", "a b://github.com", "urn:github.com"] {
        assert_eq!(gh_proxy_candidates(address), vec![address]);
    }
}

#[test]
fn maven_files_of_the_mirror_fall_back_to_their_origins() {
    let of = |path: &str| {
        minecraft_download_candidates(&format!("https://bmclapi2.bangbang93.com/maven{path}"))
    };
    assert_eq!(
        of("/net/minecraftforge/f.jar"),
        vec![
            "https://bmclapi2.bangbang93.com/maven/net/minecraftforge/f.jar",
            "https://files.minecraftforge.net/maven/net/minecraftforge/f.jar",
            "https://maven.minecraftforge.net/net/minecraftforge/f.jar",
        ]
    );
    assert_eq!(of("/net/neoforged/n.jar")[1], "https://maven.neoforged.net/releases/net/neoforged/n.jar");
    assert_eq!(of("/net/fabricmc/f.jar")[1], "https://maven.fabricmc.net/net/fabricmc/f.jar");
    assert_eq!(
        of("/org/quiltmc/q.jar")[1],
        "https://maven.quiltmc.org/repository/release/org/quiltmc/q.jar"
    );
    assert_eq!(of("/com/mojang/x.jar")[1], "https://libraries.minecraft.net/com/mojang/x.jar");
    assert_eq!(
        minecraft_download_candidates("https://bmclapi2.bangbang93.com/assets/ab/abc"),
        vec![
            "https://bmclapi2.bangbang93.com/assets/ab/abc",
            "https://resources.download.minecraft.net/ab/abc",
        ]
    );
    assert_eq!(
        minecraft_download_candidates("https://bmclapi2.bangbang93.com/version/1"),
        vec!["https://bmclapi2.bangbang93.com/version/1"]
    );
}

#[test]
fn official_files_have_the_mirror_behind_them() {
    let second = |address: &str| minecraft_download_candidates(address)[1].clone();
    assert_eq!(
        second("https://files.minecraftforge.net/maven/a"),
        "https://bmclapi2.bangbang93.com/maven/a"
    );
    assert_eq!(
        second("https://maven.neoforged.net/releases/a"),
        "https://bmclapi2.bangbang93.com/maven/a"
    );
    assert_eq!(second("https://repo1.maven.org/a"), "https://bmclapi2.bangbang93.com/maven/a");
    assert_eq!(
        second("https://resources.download.minecraft.net/ab/abc"),
        "https://bmclapi2.bangbang93.com/assets/ab/abc"
    );
    assert_eq!(
        minecraft_download_candidates("https://libraries.minecraft.net/a.jar"),
        vec![
            "https://libraries.minecraft.net/a.jar",
            "https://bmclapi2.bangbang93.com/maven/a.jar",
            "https://bmclapi2.bangbang93.com/libraries/a.jar",
        ]
    );
    assert_eq!(
        second("https://piston-meta.mojang.com/v1/x.json"),
        "https://bmclapi2.bangbang93.com/v1/x.json"
    );
    assert_eq!(minecraft_download_candidates("nonsense"), vec!["nonsense"]);
    assert_eq!(minecraft_download_candidates("file:///a"), vec!["file:///a"]);
}

#[test]
fn assets_are_mirrored_both_ways() {
    for address in [
        "https://resources.download.minecraft.net/ab/abc",
        "https://resources.download.minecraft.net/",
        "https://u:p@resources.download.minecraft.net:8443/ab//c/?q='1'#f",
        "https://:p@resources.download.minecraft.net/maven/a%20b",
        "http://u@resources.download.minecraft.net:443/assets/x?#",
    ] {
        let address = url::Url::parse(address).unwrap().to_string();
        let there = minecraft_download_candidates(&address);
        assert_eq!(there.len(), 2);
        assert_eq!(there[0], address);
        let back = minecraft_download_candidates(&there[1]);
        assert_eq!(back, vec![there[1].clone(), address]);
    }
    assert_eq!(
        minecraft_download_candidates(
            "https://u:p@resources.download.minecraft.net:8443/ab/abc?q=1#f"
        )[1],
        "https://u:p@bmclapi2.bangbang93.com:8443/assets/ab/abc?q=1#f"
    );
}

#[test]
fn mirror_plans_follow_host_and_path() {
    let plan = mirror_plan("libraries.minecraft.net", "/a").unwrap();
    assert_eq!(plan.joining, Joining::RewritesDistinct);
    let paths: Vec<&str> = plan.rewrites.iter().map(|r| r.path.as_str()).collect();
    assert_eq!(paths, vec!["/maven/a", "/libraries/a"]);
    assert!(mirror_plan("example.org", "/a").is_none());
    let twice = vec!["x".to_string(), "u".to_string(), "x".to_string()];
    assert_eq!(join_candidates("u", &twice, Joining::AllDistinct), vec!["u", "x"]);
    assert_eq!(join_candidates("u", &twice, Joining::RewritesDistinct), vec!["u", "x", "u"]);
    assert_eq!(join_candidates("u", &twice, Joining::Plain), vec!["u", "x", "u", "x"]);
}

#[test]
fn resource_addresses_have_a_mirror() {
    assert_eq!(
        mcim_mirror_url("https://api.modrinth.com/v2/search?query=a%20b"),
        text("https://mod.mcimirror.top/modrinth/v2/search?query=a%20b")
    );
    assert_eq!(
        mcim_mirror_url("https://api.curseforge.com/v1/mods/1"),
        text("https://mod.mcimirror.top/curseforge/v1/mods/1")
    );
    assert_eq!(
        mcim_mirror_url("https://media.forgecdn.net/a b"),
        text("https://mod.mcimirror.top/a%20b")
    );
    assert_eq!(mcim_mirror_url("https://modrinth.com/x"), None);
    assert_eq!(mcim_mirror_url("nonsense"), None);
    assert_eq!(mcim_path("cdn.modrinth.com", "/x"), text("/x"));
    assert_eq!(mcim_path("api.modrinth.com", "/x"), text("/modrinth/x"));
    assert_eq!(mcim_path("other", "/x"), None);
}

#[test]
fn exactly_the_mirrored_hosts_have_a_mirror_and_the_mirror_has_none() {
    for (host, front) in [
        ("cdn.modrinth.com", ""),
        ("edge.forgecdn.net", ""),
        ("media.forgecdn.net", ""),
        ("mediafilez.forgecdn.net", ""),
        ("api.modrinth.com", "/modrinth"),
        ("api.curseforge.com", "/curseforge"),
    ] {
        for rest in ["/", "/a//b", "/a/?", "/a?b=c&d=%20", "/%C3%A4?'"] {
            let address = url::Url::parse(&format!("https://{host}{rest}")).unwrap().to_string();
            let rest = &address[8 + host.len()..];
            let mirror = format!("https://mod.mcimirror.top{front}{rest}");
            assert_eq!(mcim_mirror_url(&address), text(&mirror));
            assert_eq!(mcim_mirror_url(&mirror), None);
        }
        assert!(mcim_mirror_url(&format!("foo://{host}")).is_some());
        assert_eq!(mcim_mirror_url(&format!("https://x.{host}/a")), None);
    }
    assert_eq!(
        mcim_mirror_url("http://u@cdn.modrinth.com:81/a#f"),
        text("https://mod.mcimirror.top/a")
    );
}

#[test]
fn normalized_addresses_can_be_compared() {
    assert_eq!(normalize_url("HTTPS://Example.ORG:443/a/b//"), "https://example.org/a/b");
    assert_eq!(normalize_url("http://example.org:8080/"), "http://example.org:8080/");
    assert_eq!(normalize_url("https://example.org/a/?q=1#f"), "https://example.org/a?q=1#f");
    assert_eq!(normalize_url("https://example.org"), "https://example.org/");
    assert_eq!(normalize_url("no address"), "no address");
    assert_eq!(normalize_url("mailto:a@b.c"), "mailto:a@b.c");
    assert_eq!(path_for_comparison("/"), "/");
    assert_eq!(path_for_comparison("/a//"), "/a");
    assert_eq!(path_for_comparison("//"), "");
    assert_eq!(path_for_comparison(&path_for_comparison("/a/b//")), "/a/b");
    assert_eq!(normalize_url("foo://Host:80/a/"), "foo://Host:80/a");
    assert_eq!(normalize_url(&normalize_url("http://X.org:8080/a/")), "http://x.org:8080/a");
    assert_eq!(scheme_port("ws"), Some(80));
    assert_eq!(scheme_port("wss"), Some(443));
    assert_eq!(scheme_port("ftp"), Some(21));
    assert_eq!(scheme_port("foo"), None);
    assert_eq!(port_for_comparison(Some(80), Some(80)), None);
    assert_eq!(port_for_comparison(Some(81), Some(80)), Some(81));
    assert_eq!(port_for_comparison(None, Some(80)), None);
}

#[test]
fn a_normalized_address_stays_as_it_is() {
    for address in [
        "HTTP://Example.ORG:80//a//b///?q=1 2#f g",
        "https://example.org",
        "https://example.org//",
        "https://example.org:8443/a/../b/%2e/c/?#",
        "https://u:p@m\u{fc}nchen.example/\u{e4}'/?x='y'#z#`",
        "http://[::FFFF:1.2.3.4]:8080/x\\y\\",
        "http://0x7f.1/C:/../d/",
        "no address",
    ] {
        let once = normalize_url(address);
        assert_eq!(normalize_url(&once), once);
    }
    let long_host: String = (0..900u32).filter_map(|i| char::from_u32(0x4e00 + 7 * i)).collect();
    let long = format!("https://{long_host}.example/a/");
    assert_eq!(normalize_url(&normalize_url(&long)), normalize_url(&long));
    assert_eq!(normalize_url("https://example.org//"), "https://example.org/");
    assert_eq!(normalize_url("http://0x7f.1/a/"), "http://127.0.0.1/a");
}

#[test]
fn locations_are_read_from_traces() {
    assert_eq!(location_in_trace("fl=1\nloc=CN\nip=1"), text("CN"));
    assert_eq!(location_in_trace("fl=1\r\nloc= US \r\n"), text("US"));
    assert_eq!(location_in_trace("loc=A=B"), text("A"));
    assert_eq!(location_in_trace("xloc=CN"), None);
    assert!(mainland_reported(&text("US"), &text("CN")));
    assert!(!mainland_reported(&text("US"), &None));
}

#[test]
fn the_mainland_is_known_only_where_an_endpoint_answered() {
    assert_eq!(is_china_mainland_ip(&text("CN"), &None, true), Some(true));
    assert_eq!(is_china_mainland_ip(&None, &text("CN"), true), Some(true));
    assert_eq!(is_china_mainland_ip(&text("US"), &text("DE"), true), Some(false));
    assert_eq!(is_china_mainland_ip(&None, &None, true), None);
    assert_eq!(is_china_mainland_ip(&text("CN"), &text("CN"), false), Some(false));
}

#[test]
fn clients_know_their_proxy_and_name() {
    let mut config = ProxyConfig {
        enabled: true,
        selected_type: ProxyType::Http,
        host: "h".to_string(),
        port: 80,
    };
    assert_eq!(client_proxy_url(&config, true), text("http://h:80"));
    assert_eq!(client_proxy_url(&config, false), None);
    config.selected_type = ProxyType::Socks;
    assert_eq!(client_proxy_url(&config, true), text("socks5h://h:80"));
    config.enabled = false;
    assert_eq!(client_proxy_url(&config, true), None);
    assert_eq!(user_agent("1.2.3"), "BGUMCL/1.2.3");
}

#[test]
fn refusals_and_unsent_requests_are_repeated() {
    let transient = |o| retry_verdict(o) == RetryVerdict::Transient;
    assert!(transient(RequestOutcome::Response { status: 403 }));
    assert!(!transient(RequestOutcome::Response { status: 500 }));
    assert!(transient(RequestOutcome::Failure { error_status: Some(403), while_sending: false }));
    assert!(transient(RequestOutcome::Failure { error_status: None, while_sending: true }));
    assert!(!transient(RequestOutcome::Failure { error_status: None, while_sending: false }));
}

#[test]
fn every_source_of_a_fallback_has_its_turn() {
    let mut fallback = Fallback::begin(vec!["a".to_string(), "b".to_string()]);
    assert_eq!(fallback.current(), text("a"));
    assert_eq!(fallback.failed("first".to_string()), text("b"));
    assert_eq!(fallback.failed("second".to_string()), None);
    assert_eq!(fallback.last_error, text("second"));
    assert_eq!(Fallback::begin(Vec::new()).current(), None);
}
