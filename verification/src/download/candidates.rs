//! From which addresses to download a file, and in what order.
use vstd::prelude::*;
use crate::external::{parse_url, url_parsed, UrlModel, UrlParts};
use crate::paths::{PathModel, TargetPath};
use crate::text::{
    concat4, contains, distinct, distinct_does_not_reorder, distinct_keeps_texts, ends_with, holds,
    lemma_contains, occurs_at, opt_text, parted, patterns_are_replaced_where_they_stand,
    prefixes_are_taken_off, replace, replaced, same, split_once, starts_with, strip_prefix,
    strip_suffix, texts, texts_are_parted_at_the_first_pattern, without_prefix,
    without_repetitions, without_suffix,
};
use crate::web::{
    gh_proxy_candidates, github_candidates, github_routes, mcim_mirror, mcim_mirror_url,
    minecraft_candidates, minecraft_candidates_begin_with_the_given_address,
    minecraft_download_candidates, strip_gh_proxy_prefix, without_gh_proxy, BMCLAPI_HOST,
};

verus! {

/// A file to download: from where, to where, under which name, and the SHA-1 that it must have.
#[derive(Debug)]
pub struct DownloadParam {
    pub src: UrlParts,
    pub dest: TargetPath,
    pub filename: Option<String>,
    pub sha1: Option<String>,
}

/// A file to download, as texts.
pub struct ParamModel {
    pub src: UrlModel,
    pub dest: PathModel,
    pub filename: Option<Seq<char>>,
    pub sha1: Option<Seq<char>>,
}

impl View for DownloadParam {
    type V = ParamModel;

    open spec fn view(&self) -> ParamModel {
        ParamModel {
            src: self.src@,
            dest: self.dest@,
            filename: opt_text(self.filename),
            sha1: opt_text(self.sha1),
        }
    }
}

/// Files to download, as texts.
pub open spec fn param_views(v: Seq<DownloadParam>) -> Seq<ParamModel> {
    v.map_values(|p: DownloadParam| p@)
}

/// A host of CurseForge or Modrinth. Only their files go through the configured proxy.
pub open spec fn resource_host(host: Option<Seq<char>>) -> bool {
    host == Some("api.curseforge.com"@) || host == Some("edge.forgecdn.net"@) || host == Some(
        "media.forgecdn.net"@,
    ) || host == Some("mediafilez.forgecdn.net"@) || host == Some("edge-service.overwolf.wtf"@)
        || host == Some("media-service.overwolf.wtf"@) || host == Some("curseforge.com"@) || host
        == Some("api.modrinth.com"@) || host == Some("cdn.modrinth.com"@) || host == Some(
        "modrinth.com"@,
    )
}

/// A host of CurseForge's file network.
pub open spec fn curseforge_cdn_host(host: Option<Seq<char>>) -> bool {
    host == Some("edge.forgecdn.net"@) || host == Some("media.forgecdn.net"@) || host == Some(
        "mediafilez.forgecdn.net"@,
    ) || host == Some("edge-service.overwolf.wtf"@) || host == Some("media-service.overwolf.wtf"@)
}

fn is_host(host: &Option<String>, name: &str) -> (r: bool)
    ensures
        r == (opt_text(*host) == Some(name@)),
{
    match host {
        Some(host) => same(host.as_str(), name),
        None => false,
    }
}

/// Whether an address belongs to CurseForge or Modrinth.
pub fn is_curseforge_or_modrinth_url(url: &UrlParts) -> (r: bool)
    ensures
        r == resource_host(url@.host),
{
    is_host(&url.host, "api.curseforge.com") || is_curseforge_cdn(url) || is_host(
        &url.host,
        "curseforge.com",
    ) || is_host(&url.host, "api.modrinth.com") || is_host(&url.host, "cdn.modrinth.com")
        || is_host(&url.host, "modrinth.com")
}

fn is_curseforge_cdn(url: &UrlParts) -> (r: bool)
    ensures
        r == curseforge_cdn_host(url@.host),
{
    is_host(&url.host, "edge.forgecdn.net") || is_host(&url.host, "media.forgecdn.net") || is_host(
        &url.host,
        "mediafilez.forgecdn.net",
    ) || is_host(&url.host, "edge-service.overwolf.wtf") || is_host(
        &url.host,
        "media-service.overwolf.wtf",
    )
}

/// Whether a candidate is asked through the configured proxy.
pub open spec fn proxied(candidate: Seq<char>, proxy_enabled: bool) -> bool {
    proxy_enabled && (url_parsed(candidate) matches Ok(url) && resource_host(url.host))
}

/// Whether a candidate is asked through the configured proxy: only where one is configured, and
/// only for CurseForge and Modrinth themselves.
pub fn uses_proxy(candidate: &str, proxy_enabled: bool) -> (r: bool)
    ensures
        r == proxied(candidate@, proxy_enabled),
{
    if !proxy_enabled {
        return false;
    }
    match parse_url(candidate) {
        Ok(url) => is_curseforge_or_modrinth_url(&url),
        Err(_) => false,
    }
}

/// An address of the former CurseForge network in the present one.
pub open spec fn on_forgecdn(source: Seq<char>) -> Seq<char> {
    replaced(source, "-service.overwolf.wtf"@, ".forgecdn.net"@)
}

/// An address of CurseForge's file network on its main host.
pub open spec fn on_mediafilez(source: Seq<char>) -> Seq<char> {
    replaced(replaced(source, "://edge."@, "://mediafilez."@), "://media."@, "://mediafilez."@)
}

/// The forms that an address of CurseForge's file network can take, the main host first.
pub open spec fn curseforge_variants(source: Seq<char>) -> Seq<Seq<char>> {
    seq![
        on_mediafilez(on_forgecdn(source)),
        on_mediafilez(source),
        on_forgecdn(source),
        replaced(source, "://media."@, "://edge."@),
        source,
    ]
}

/// The official addresses of a file of CurseForge or Modrinth.
pub open spec fn official_variants(src: UrlModel) -> Seq<Seq<char>> {
    if curseforge_cdn_host(src.host) {
        curseforge_variants(src.href)
    } else {
        seq![src.href]
    }
}

/// The mirrors of the addresses that have one.
pub open spec fn mirrors_of(official: Seq<Seq<char>>) -> Seq<Seq<char>>
    decreases official.len(),
{
    if official.len() == 0 {
        seq![]
    } else {
        let front = mirrors_of(official.drop_last());
        match mcim_mirror(official.last()) {
            Some(mirror) => front.push(mirror),
            None => front,
        }
    }
}

/// The version of the game and the patch that the name of an OptiFine file tells.
pub open spec fn optifine_name_parts(filename: Seq<char>) -> Option<(Seq<char>, Seq<char>)> {
    let stem = match without_suffix(filename, ".jar"@) {
        Some(stem) => stem,
        None => filename,
    };
    match without_prefix(stem, "OptiFine_"@) {
        Some(rest) => parted(rest, "_HD_U_"@),
        None => None,
    }
}

/// The mirror of an OptiFine file, by its name.
pub open spec fn optifine_mirror(filename: Option<Seq<char>>) -> Option<Seq<char>> {
    match filename {
        Some(filename) => match optifine_name_parts(filename) {
            Some((game, patch)) => Some(
                "https://bmclapi2.bangbang93.com/optifine/"@ + game + "/HD_U/"@ + patch,
            ),
            None => None,
        },
        None => None,
    }
}

/// The official addresses and the mirrors of a file in one list, each once: the official ones
/// first, unless mirrors are preferred.
pub open spec fn in_preferred_order(
    official: Seq<Seq<char>>,
    mirrors: Seq<Seq<char>>,
    mirror_first: bool,
) -> Seq<Seq<char>> {
    if mirror_first {
        distinct(mirrors + official)
    } else {
        distinct(official + mirrors)
    }
}

/// Where a file of Minecraft stands besides the given address.
pub open spec fn other_places(src: UrlModel) -> Seq<Seq<char>> {
    minecraft_candidates(src.href, url_parsed(src.href)).skip(1)
}

/// The address is one of BMCLAPI, which mirrors the files of Minecraft.
pub open spec fn on_mirror(src: UrlModel) -> bool {
    src.host == Some(BMCLAPI_HOST@)
}

/// The addresses from which to download a file, in the order in which to try them. Official
/// addresses come first, and mirrors come first where they are preferred:
/// - files of CurseForge and Modrinth have the forms of their address, and mirrors of them;
/// - files of OptiFine have a mirror by their name;
/// - files of GitHub take its mirror and the proxies whatever is preferred;
/// - others have their copies: an address of the mirror the official ones, an official one those
///   of the mirror.
pub open spec fn candidates_of(
    src: UrlModel,
    filename: Option<Seq<char>>,
    mirror_first: bool,
) -> Seq<Seq<char>> {
    if resource_host(src.host) {
        let official = official_variants(src);
        in_preferred_order(official, mirrors_of(official), mirror_first)
    } else if src.host == Some("optifine.net"@) {
        match optifine_mirror(filename) {
            Some(mirror) => in_preferred_order(seq![src.href], seq![mirror], mirror_first),
            None => seq![src.href],
        }
    } else if without_gh_proxy(src.href) != src.href || src.host == Some("github.com"@) || src.host
        == Some("raw.githubusercontent.com"@) {
        github_candidates(src.href)
    } else if on_mirror(src) {
        in_preferred_order(other_places(src), seq![src.href], mirror_first)
    } else {
        in_preferred_order(seq![src.href], other_places(src), mirror_first)
    }
}

fn to_forgecdn(source: &str) -> (r: String)
    ensures
        r@ == on_forgecdn(source@),
{
    proof {
        reveal_strlit("-service.overwolf.wtf");
    }
    replace(source, "-service.overwolf.wtf", ".forgecdn.net")
}

fn to_mediafilez(source: &str) -> (r: String)
    ensures
        r@ == on_mediafilez(source@),
{
    proof {
        reveal_strlit("://edge.");
        reveal_strlit("://media.");
    }
    let a = replace(source, "://edge.", "://mediafilez.");
    replace(a.as_str(), "://media.", "://mediafilez.")
}

fn official_list(src: &UrlParts) -> (r: Vec<String>)
    ensures
        texts(r@) == official_variants(src@),
{
    let source = src.href.as_str();
    let mut out: Vec<String> = Vec::new();
    if is_curseforge_cdn(src) {
        proof {
            reveal_strlit("://media.");
        }
        let present = to_forgecdn(source);
        out.push(to_mediafilez(present.as_str()));
        out.push(to_mediafilez(source));
        out.push(present);
        out.push(replace(source, "://media.", "://edge."));
    }
    out.push(source.to_owned());
    assert(texts(out@) =~= official_variants(src@));
    out
}

fn mirror_list(official: &Vec<String>) -> (r: Vec<String>)
    ensures
        texts(r@) == mirrors_of(texts(official@)),
{
    let ghost all = texts(official@);
    let mut out: Vec<String> = Vec::new();
    let mut i: usize = 0;
    assert(texts(out@) =~= mirrors_of(all.take(0)));
    while i < official.len()
        invariant
            i <= official.len(),
            all == texts(official@),
            texts(out@) == mirrors_of(all.take(i as int)),
        decreases official.len() - i,
    {
        let ghost so_far = texts(out@);
        assert(all.take(i + 1).drop_last() =~= all.take(i as int));
        assert(all.take(i + 1).last() == official@[i as int]@);
        if let Some(mirror) = mcim_mirror_url(official[i].as_str()) {
            out.push(mirror);
            assert(texts(out@) =~= so_far.push(mirror@));
        }
        i += 1;
    }
    assert(all.take(official.len() as int) =~= all);
    out
}

fn prefer(official: Vec<String>, mirrors: Vec<String>, mirror_first: bool) -> (r: Vec<String>)
    ensures
        texts(r@) == in_preferred_order(texts(official@), texts(mirrors@), mirror_first),
{
    let ghost a = texts(official@);
    let ghost b = texts(mirrors@);
    if mirror_first {
        let mut list = mirrors;
        let mut rest = official;
        list.append(&mut rest);
        assert(texts(list@) =~= b + a);
        without_repetitions(&list)
    } else {
        let mut list = official;
        let mut rest = mirrors;
        list.append(&mut rest);
        assert(texts(list@) =~= a + b);
        without_repetitions(&list)
    }
}

fn one(text: &str) -> (r: Vec<String>)
    ensures
        texts(r@) == seq![text@],
{
    let mut out: Vec<String> = Vec::new();
    out.push(text.to_owned());
    assert(texts(out@) =~= seq![text@]);
    out
}

fn optifine_mirror_url(filename: &Option<String>) -> (r: Option<String>)
    ensures
        opt_text(r) == optifine_mirror(opt_text(*filename)),
{
    let filename = match filename {
        Some(filename) => filename,
        None => {
            return None;
        },
    };
    let stem = match strip_suffix(filename.as_str(), ".jar") {
        Some(stem) => stem,
        None => filename.clone(),
    };
    let rest = match strip_prefix(stem.as_str(), "OptiFine_") {
        Some(rest) => rest,
        None => {
            return None;
        },
    };
    match split_once(rest.as_str(), "_HD_U_") {
        Some((game, patch)) => Some(
            concat4(
                "https://bmclapi2.bangbang93.com/optifine/",
                game.as_str(),
                "/HD_U/",
                patch.as_str(),
            ),
        ),
        None => None,
    }
}

/// The addresses from which to download a file, in the order in which to try them, each once.
/// `mirror_first` says whether the user prefers mirrors.
pub fn candidate_urls(param: &DownloadParam, mirror_first: bool) -> (r: Vec<String>)
    ensures
        texts(r@) == candidates_of(param.src@, opt_text(param.filename), mirror_first),
        texts(r@).no_duplicates(),
{
    proof {
        candidates_are_listed_once(param.src@, opt_text(param.filename), mirror_first);
    }
    let source = param.src.href.as_str();
    if is_curseforge_or_modrinth_url(&param.src) {
        let official = official_list(&param.src);
        let mirrors = mirror_list(&official);
        return prefer(official, mirrors, mirror_first);
    }
    if is_host(&param.src.host, "optifine.net") {
        return match optifine_mirror_url(&param.filename) {
            Some(mirror) => prefer(one(source), one(mirror.as_str()), mirror_first),
            None => one(source),
        };
    }
    let stripped = strip_gh_proxy_prefix(source);
    if !same(stripped.as_str(), source) || is_host(&param.src.host, "github.com") || is_host(
        &param.src.host,
        "raw.githubusercontent.com",
    ) {
        return gh_proxy_candidates(source);
    }
    proof {
        let href = param.src@.href;
        minecraft_candidates_begin_with_the_given_address(href, url_parsed(href));
    }
    let mut places = minecraft_download_candidates(source);
    let ghost listed = texts(places@);
    places.remove(0);
    assert(texts(places@) =~= listed.skip(1));
    if is_host(&param.src.host, BMCLAPI_HOST) {
        prefer(places, one(source), mirror_first)
    } else {
        prefer(one(source), places, mirror_first)
    }
}

/// No address of a file is tried twice in a round.
pub proof fn candidates_are_listed_once(
    src: UrlModel,
    filename: Option<Seq<char>>,
    mirror_first: bool,
)
    ensures
        candidates_of(src, filename, mirror_first).no_duplicates(),
        candidates_of(src, filename, mirror_first).len() > 0,
{
    let official = official_variants(src);
    let mirrors = mirrors_of(official);
    distinct_keeps_texts(mirrors + official);
    distinct_keeps_texts(official + mirrors);
    if let Some(mirror) = optifine_mirror(filename) {
        distinct_keeps_texts(seq![src.href] + seq![mirror]);
        distinct_keeps_texts(seq![mirror] + seq![src.href]);
    }
    distinct_keeps_texts(seq![src.href] + other_places(src));
    distinct_keeps_texts(other_places(src) + seq![src.href]);
    distinct_keeps_texts(github_routes(src.href));
}

proof fn lemma_preferred(a: Seq<Seq<char>>, b: Seq<Seq<char>>)
    ensures
        distinct(a).is_prefix_of(distinct(a + b)),
        forall|x: Seq<char>| #[trigger]
            distinct(a + b).contains(x) <==> a.contains(x) || b.contains(x),
{
    let all = a + b;
    distinct_keeps_texts(all);
    distinct_does_not_reorder(all, a.len() as int);
    assert(all.take(a.len() as int) =~= a);
    assert forall|x: Seq<char>| #[trigger]
        distinct(all).contains(x) <==> a.contains(x) || b.contains(x) by {
        if a.contains(x) {
            let i = choose|i: int| 0 <= i < a.len() && a[i] == x;
            assert(all[i] == x);
        }
        if b.contains(x) {
            let i = choose|i: int| 0 <= i < b.len() && b[i] == x;
            assert(all[a.len() + i] == x);
        }
        if all.contains(x) {
            let i = choose|i: int| 0 <= i < all.len() && all[i] == x;
            if i < a.len() {
                assert(a[i] == x);
            } else {
                assert(b[i - a.len()] == x);
            }
        }
    }
}

/// The hosts of CurseForge and Modrinth are ten; five of them serve the files of CurseForge.
pub proof fn resource_hosts_are_known(host: Seq<char>)
    ensures
        resource_host(Some(host)) <==> (host == "api.curseforge.com"@ || host == "edge.forgecdn.net"@ || host == "media.forgecdn.net"@ || host == "mediafilez.forgecdn.net"@ || host == "edge-service.overwolf.wtf"@ || host == "media-service.overwolf.wtf"@ || host == "curseforge.com"@ || host == "api.modrinth.com"@ || host == "cdn.modrinth.com"@ || host == "modrinth.com"@),
        curseforge_cdn_host(Some(host)) <==> (host == "edge.forgecdn.net"@ || host
            == "media.forgecdn.net"@ || host == "mediafilez.forgecdn.net"@ || host
            == "edge-service.overwolf.wtf"@ || host == "media-service.overwolf.wtf"@),
        !resource_host(None),
        !curseforge_cdn_host(None),
{
}

/// A candidate is asked through the proxy exactly where one is configured and the host of the candidate
/// is one of CurseForge or Modrinth; mirrors and all other hosts are asked directly.
pub proof fn only_resource_sites_are_proxied(candidate: Seq<char>, u: UrlModel)
    ensures
        !proxied(candidate, false),
        url_parsed(candidate) is Err ==> !proxied(candidate, true),
        url_parsed(candidate) == Ok::<UrlModel, Seq<char>>(u) ==> (proxied(candidate, true)
            <==> resource_host(u.host)),
{
}

/// An address behind a scheme has no scheme further on.
proof fn lemma_no_second_scheme(host: Seq<char>, path: Seq<char>, pattern: Seq<char>)
    requires
        !holds(host, ':'),
        !contains(path, "://"@),
        pattern.len() > 3,
        pattern.take(3) == "://"@,
    ensures
        !contains(host + path, pattern),
{
    reveal_strlit("://");
    let s = host + path;
    if contains(s, pattern) {
        let j = choose|j: int| occurs_at(s, pattern, j);
        let n = pattern.len() as int;
        assert(s.subrange(j, j + n)[0] == s[j]);
        assert(pattern.take(3)[0] == pattern[0]);
        if j < host.len() {
            assert(host[j] == ':');
        } else {
            let k = j - host.len();
            assert(path.subrange(k, k + 3) =~= pattern.take(3)) by {
                assert forall|i: int| 0 <= i < 3 implies path[k + i] == pattern[i] by {
                    assert(s.subrange(j, j + n)[i] == s[j + i]);
                }
            }
            assert(occurs_at(path, "://"@, k));
        }
    }
}

/// A file of CurseForge's network is tried at its main host first, whichever host it was given at, and
/// at every form of its address; the one that was given is the last of them.
pub proof fn curseforge_files_are_tried_at_the_main_host_first(src: UrlModel, path: Seq<char>)
    requires
        !contains(path, "://"@),
        !contains(path, "-service.overwolf.wtf"@),
        path.len() > 0,
        path[0] == '/',
    ensures
        ({
            let main = "https://mediafilez.forgecdn.net"@ + path;
            let edge = "https://edge.forgecdn.net"@ + path;
            let media = "https://media.forgecdn.net"@ + path;
            &&& curseforge_variants(edge) == seq![main, main, edge, edge, edge]
            &&& curseforge_variants(media) == seq![main, main, media, edge, media]
            &&& curseforge_variants(main) == seq![main, main, main, main, main]
            &&& curseforge_cdn_host(src.host) ==> official_variants(src) == curseforge_variants(src.href)
            &&& !curseforge_cdn_host(src.host) ==> official_variants(src) == seq![src.href]
        }),
{
    let front = "https"@;
    let rest = "forgecdn.net"@;
    let back = rest + path;
    reveal_strlit("https");
    reveal_strlit("://");
    reveal_strlit("forgecdn.net");
    reveal_strlit("://edge.");
    reveal_strlit("://media.");
    reveal_strlit("://mediafilez.");
    reveal_strlit("mediafilez.");
    reveal_strlit("https://mediafilez.forgecdn.net");
    reveal_strlit("https://edge.forgecdn.net");
    reveal_strlit("https://media.forgecdn.net");
    let main = "https://mediafilez.forgecdn.net"@ + path;
    let edge = "https://edge.forgecdn.net"@ + path;
    let media = "https://media.forgecdn.net"@ + path;
    assert(main =~= front + "://mediafilez."@ + back);
    assert(edge =~= front + "://edge."@ + back);
    assert(media =~= front + "://media."@ + back);
    assert("://edge."@.take(3) =~= "://"@);
    assert("://media."@.take(3) =~= "://"@);
    assert(!holds(front, ':'));
    assert(!holds(rest, ':')) by {
        assert(rest =~= seq!['f', 'o', 'r', 'g', 'e', 'c', 'd', 'n', '.', 'n', 'e', 't']);
    }
    lemma_no_second_scheme(rest, path, "://edge."@);
    lemma_no_second_scheme(rest, path, "://media."@);
    patterns_are_replaced_where_they_stand(front, "://edge."@, back, "://mediafilez."@);
    patterns_are_replaced_where_they_stand(front, "://media."@, back, "://mediafilez."@);
    patterns_are_replaced_where_they_stand(front, "://media."@, back, "://edge."@);
    lemma_other_host(front, "://mediafilez."@, back, "://edge."@, 3);
    lemma_other_host(front, "://mediafilez."@, back, "://media."@, 8);
    lemma_other_host(front, "://edge."@, back, "://media."@, 3);
    lemma_other_host(front, "://media."@, back, "://edge."@, 3);
    lemma_not_former(edge, path);
    lemma_not_former(media, path);
    lemma_not_former(main, path);
    assert(replaced(edge, "://media."@, "://edge."@) == edge);
    assert(curseforge_variants(edge) =~= seq![main, main, edge, edge, edge]);
    assert(curseforge_variants(media) =~= seq![main, main, media, edge, media]);
    assert(curseforge_variants(main) =~= seq![main, main, main, main, main]);
}

/// A host that is named otherwise is not replaced.
proof fn lemma_other_host(
    front: Seq<char>,
    named: Seq<char>,
    back: Seq<char>,
    pattern: Seq<char>,
    k: int,
)
    requires
        !holds(front, ':'),
        front.len() > 0,
        named.len() > k >= 3,
        pattern.len() > k,
        named[0] == ':' && named[1] == '/' && named[2] == '/',
        forall|i: int| 1 <= i < named.len() ==> #[trigger] named[i] != ':',
        pattern[0] == ':',
        named[k] != pattern[k],
        !contains(back, pattern),
    ensures
        !contains(front + named + back, pattern),
        replaced(front + named + back, pattern, "://mediafilez."@) == front + named + back,
        replaced(front + named + back, pattern, "://edge."@) == front + named + back,
{
    let s = front + named + back;
    if contains(s, pattern) {
        let j = choose|j: int| occurs_at(s, pattern, j);
        let n = pattern.len() as int;
        assert(s.subrange(j, j + n)[0] == s[j]);
        if j < front.len() {
            assert(front[j] == ':');
        } else if j == front.len() {
            assert(s.subrange(j, j + n)[k] == s[j + k]);
        } else if j < front.len() + named.len() {
            assert(named[j - front.len()] == ':');
        } else {
            let m = j - front.len() - named.len();
            assert(back.subrange(m, m + n) =~= s.subrange(j, j + n));
            assert(occurs_at(back, pattern, m));
        }
    }
    lemma_contains(s, pattern);
}

/// An address of the present network is not one of the former one.
proof fn lemma_not_former(s: Seq<char>, path: Seq<char>)
    requires
        !contains(path, "-service.overwolf.wtf"@),
        path.len() > 0,
        path[0] == '/',
        s == "https://mediafilez.forgecdn.net"@ + path || s == "https://edge.forgecdn.net"@ + path || s
            == "https://media.forgecdn.net"@ + path,
    ensures
        on_forgecdn(s) == s,
{
    let pattern = "-service.overwolf.wtf"@;
    reveal_strlit("-service.overwolf.wtf");
    reveal_strlit("https://mediafilez.forgecdn.net");
    reveal_strlit("https://edge.forgecdn.net");
    reveal_strlit("https://media.forgecdn.net");
    let h = s.len() - path.len();
    if contains(s, pattern) {
        let j = choose|j: int| occurs_at(s, pattern, j);
        let n = pattern.len() as int;
        assert(s.subrange(j, j + n)[0] == s[j]);
        if j < h {
            assert(s[j] == '-');
            assert("https://mediafilez.forgecdn.net"@ =~= seq![
                'h', 't', 't', 'p', 's', ':', '/', '/', 'm', 'e', 'd', 'i', 'a', 'f', 'i', 'l', 'e',
                'z', '.', 'f', 'o', 'r', 'g', 'e', 'c', 'd', 'n', '.', 'n', 'e', 't',
            ]);
            assert("https://edge.forgecdn.net"@ =~= seq![
                'h', 't', 't', 'p', 's', ':', '/', '/', 'e', 'd', 'g', 'e', '.', 'f', 'o', 'r', 'g',
                'e', 'c', 'd', 'n', '.', 'n', 'e', 't',
            ]);
            assert("https://media.forgecdn.net"@ =~= seq![
                'h', 't', 't', 'p', 's', ':', '/', '/', 'm', 'e', 'd', 'i', 'a', '.', 'f', 'o', 'r',
                'g', 'e', 'c', 'd', 'n', '.', 'n', 'e', 't',
            ]);
            assert(false);
        } else {
            assert(path.subrange(j - h, j - h + n) =~= s.subrange(j, j + n));
            assert(occurs_at(path, pattern, j - h));
        }
    }
    lemma_contains(s, pattern);
}

/// The mirrors of addresses are those of the addresses that have one, and no others.
pub proof fn every_mirror_is_that_of_an_address(official: Seq<Seq<char>>, mirror: Seq<char>)
    ensures
        mirrors_of(official).contains(mirror) <==> exists|i: int|
            0 <= i < official.len() && mcim_mirror(#[trigger] official[i]) == Some(mirror),
        mirrors_of(official).len() <= official.len(),
    decreases official.len(),
{
    if official.len() > 0 {
        let rest = official.drop_last();
        let front = mirrors_of(rest);
        let all = mirrors_of(official);
        every_mirror_is_that_of_an_address(rest, mirror);
        if all.contains(mirror) {
            let k = choose|k: int| 0 <= k < all.len() && all[k] == mirror;
            if k < front.len() {
                assert(front[k] == mirror);
                let i = choose|i: int|
                    0 <= i < rest.len() && mcim_mirror(#[trigger] rest[i]) == Some(mirror);
                assert(official[i] == rest[i]);
            } else {
                assert(official[official.len() - 1] == official.last());
            }
        }
        if exists|i: int|
            0 <= i < official.len() && mcim_mirror(#[trigger] official[i]) == Some(mirror) {
            let i = choose|i: int|
                0 <= i < official.len() && mcim_mirror(#[trigger] official[i]) == Some(mirror);
            if i < rest.len() {
                assert(rest[i] == official[i]);
                let k = choose|k: int| 0 <= k < front.len() && front[k] == mirror;
                assert(all[k] == mirror);
            } else {
                assert(all[front.len() as int] == mirror);
            }
        }
    }
}

/// A file of OptiFine has a mirror by its name, which tells the version of the game and the patch; a
/// file with another name has none.
pub proof fn optifine_files_have_a_mirror_by_their_name(game: Seq<char>, patch: Seq<char>, other: Seq<char>)
    requires
        !holds(game, '_'),
        !ends_with(patch, ".jar"@),
        !starts_with(other, "OptiFine_"@),
    ensures
        optifine_mirror(Some("OptiFine_"@ + game + "_HD_U_"@ + patch + ".jar"@)) == Some(
            "https://bmclapi2.bangbang93.com/optifine/"@ + game + "/HD_U/"@ + patch,
        ),
        optifine_mirror(Some(other + ".jar"@)) is None,
        optifine_mirror(None) is None,
{
    reveal_strlit(".jar");
    reveal_strlit("OptiFine_");
    reveal_strlit("_HD_U_");
    let rest = game + "_HD_U_"@ + patch;
    let stem = "OptiFine_"@ + rest;
    let name = "OptiFine_"@ + game + "_HD_U_"@ + patch + ".jar"@;
    assert(name =~= stem + ".jar"@);
    assert(name.subrange(name.len() - 4, name.len() as int) =~= ".jar"@);
    assert(name.take(name.len() - 4) =~= stem);
    prefixes_are_taken_off(rest, "OptiFine_"@);
    texts_are_parted_at_the_first_pattern(game, "_HD_U_"@, patch);
    let named = other + ".jar"@;
    assert(named.subrange(named.len() - 4, named.len() as int) =~= ".jar"@);
    assert(named.take(named.len() - 4) =~= other);
}

/// A file of OptiFine is asked of its address and of its mirror, of the mirror first where it is
/// preferred.
pub proof fn optifine_files_are_asked_of_their_address_and_mirror(
    src: UrlModel,
    filename: Option<Seq<char>>,
    mirror: Seq<char>,
    mirror_first: bool,
)
    requires
        src.host == Some("optifine.net"@),
    ensures
        optifine_mirror(filename) is None ==> candidates_of(src, filename, mirror_first) == seq![
            src.href,
        ],
        optifine_mirror(filename) == Some(mirror) && mirror != src.href ==> candidates_of(
            src,
            filename,
            mirror_first,
        ) == (if mirror_first {
            seq![mirror, src.href]
        } else {
            seq![src.href, mirror]
        }),
{
    lemma_optifine_is_no_resource_host();
    let a = seq![src.href] + seq![mirror];
    let b = seq![mirror] + seq![src.href];
    if mirror != src.href {
        assert(a.no_duplicates() && b.no_duplicates());
        distinct_does_not_reorder(a, 0);
        distinct_does_not_reorder(b, 0);
        assert(a =~= seq![src.href, mirror]);
        assert(b =~= seq![mirror, src.href]);
    }
}

proof fn lemma_optifine_is_no_resource_host()
    ensures
        !resource_host(Some("optifine.net"@)),
        !resource_host(Some("github.com"@)),
        !resource_host(Some("raw.githubusercontent.com"@)),
        "github.com"@ != "optifine.net"@,
        "raw.githubusercontent.com"@ != "optifine.net"@,
{
    reveal_strlit("optifine.net");
    reveal_strlit("github.com");
    reveal_strlit("raw.githubusercontent.com");
    reveal_strlit("api.curseforge.com");
    reveal_strlit("edge.forgecdn.net");
    reveal_strlit("media.forgecdn.net");
    reveal_strlit("mediafilez.forgecdn.net");
    reveal_strlit("edge-service.overwolf.wtf");
    reveal_strlit("media-service.overwolf.wtf");
    reveal_strlit("curseforge.com");
    reveal_strlit("api.modrinth.com");
    reveal_strlit("cdn.modrinth.com");
    reveal_strlit("modrinth.com");
    assert("optifine.net"@.len() == 12 && "optifine.net"@[0] == 'o');
    assert("github.com"@.len() == 10 && "raw.githubusercontent.com"@.len() == 25);
    assert("raw.githubusercontent.com"@[0] == 'r');
    assert("api.curseforge.com"@.len() == 18 && "edge.forgecdn.net"@.len() == 17);
    assert("media.forgecdn.net"@.len() == 18 && "mediafilez.forgecdn.net"@.len() == 23);
    assert("edge-service.overwolf.wtf"@.len() == 25 && "edge-service.overwolf.wtf"@[0] == 'e');
    assert("media-service.overwolf.wtf"@.len() == 26 && "curseforge.com"@.len() == 14);
    assert("api.modrinth.com"@.len() == 16 && "cdn.modrinth.com"@.len() == 16);
    assert("modrinth.com"@.len() == 12 && "modrinth.com"@[0] == 'm');
}

/// A file of GitHub, directly or behind a proxy, is asked of the candidates of GitHub, whatever is
/// preferred.
pub proof fn github_files_take_the_routes_of_github(
    src: UrlModel,
    filename: Option<Seq<char>>,
    mirror_first: bool,
)
    ensures
        src.host == Some("github.com"@) || src.host == Some("raw.githubusercontent.com"@)
            ==> candidates_of(src, filename, mirror_first) == github_candidates(src.href),
        !resource_host(src.host) && src.host != Some("optifine.net"@) && without_gh_proxy(src.href)
            != src.href ==> candidates_of(src, filename, mirror_first) == github_candidates(src.href),
{
    lemma_optifine_is_no_resource_host();
}

/// A file of Minecraft is asked of exactly the places where it can be had, and of its own address: that
/// comes first or last, as it is official and official addresses are preferred, or is not.
pub proof fn game_files_are_asked_of_all_their_places(
    src: UrlModel,
    filename: Option<Seq<char>>,
    mirror_first: bool,
)
    requires
        game_file(src),
    ensures
        ({
            let places = minecraft_candidates(src.href, url_parsed(src.href));
            let tried = candidates_of(src, filename, mirror_first);
            let mirrored = src.host == Some("bmclapi2.bangbang93.com"@);
            &&& forall|c: Seq<char>| #[trigger] tried.contains(c) <==> places.contains(c)
            &&& mirrored == mirror_first ==> tried[0] == src.href
            &&& mirrored != mirror_first && places.no_duplicates() ==> tried.last() == src.href
        }),
{
    let places = minecraft_candidates(src.href, url_parsed(src.href));
    let tried = candidates_of(src, filename, mirror_first);
    let others = other_places(src);
    minecraft_candidates_begin_with_the_given_address(src.href, url_parsed(src.href));
    game_files_come_from_official_addresses_first(src, filename, mirror_first);
    assert forall|c: Seq<char>| #[trigger] tried.contains(c) <==> places.contains(c) by {
        if places.contains(c) {
            let i = choose|i: int| 0 <= i < places.len() && places[i] == c;
            if i > 0 {
                assert(others[i - 1] == c);
            }
        }
        if others.contains(c) {
            let i = choose|i: int| 0 <= i < others.len() && others[i] == c;
            assert(places[i + 1] == c);
        }
        assert(places[0] == src.href);
    }
    if on_mirror(src) != mirror_first && places.no_duplicates() {
        let all = others + seq![src.href];
        assert(all.no_duplicates()) by {
            assert forall|i: int, j: int| 0 <= i < all.len() && 0 <= j < all.len() && i != j implies all[i]
                != all[j] by {
                let a = if i < others.len() {
                    i + 1
                } else {
                    0
                };
                let b = if j < others.len() {
                    j + 1
                } else {
                    0
                };
                assert(all[i] == places[a] && all[j] == places[b]);
            }
        }
        distinct_does_not_reorder(all, 0);
        assert(tried == all);
    }
}

/// A file of CurseForge or Modrinth is asked of every official address and of every mirror, the
/// given address among them: of the official ones first, and of the mirrors first where they are
/// preferred.
pub proof fn resource_files_come_from_official_addresses_first(
    src: UrlModel,
    filename: Option<Seq<char>>,
    mirror_first: bool,
)
    requires
        resource_host(src.host),
    ensures
        ({
            let official = official_variants(src);
            let mirrors = mirrors_of(official);
            let tried = candidates_of(src, filename, mirror_first);
            &&& tried.contains(src.href)
            &&& forall|c: Seq<char>| #[trigger]
                tried.contains(c) <==> official.contains(c) || mirrors.contains(c)
            &&& !mirror_first ==> distinct(official).is_prefix_of(tried)
            &&& mirror_first ==> distinct(mirrors).is_prefix_of(tried)
        }),
{
    let official = official_variants(src);
    lemma_preferred(official, mirrors_of(official));
    lemma_preferred(mirrors_of(official), official);
    assert(official[official.len() - 1] == src.href);
}

/// An address is that of a file of Minecraft as far as its host goes: neither of CurseForge or
/// Modrinth, nor of OptiFine, nor of GitHub.
pub open spec fn game_file(src: UrlModel) -> bool {
    &&& !resource_host(src.host)
    &&& src.host != Some("optifine.net"@)
    &&& src.host != Some("github.com"@)
    &&& src.host != Some("raw.githubusercontent.com"@)
    &&& without_gh_proxy(src.href) == src.href
}

/// A file of Minecraft is asked of every place where it stands: of the official ones first, and
/// of the mirror first where it is preferred.
pub proof fn game_files_come_from_official_addresses_first(
    src: UrlModel,
    filename: Option<Seq<char>>,
    mirror_first: bool,
)
    requires
        game_file(src),
    ensures
        ({
            let tried = candidates_of(src, filename, mirror_first);
            &&& forall|c: Seq<char>| #[trigger]
                tried.contains(c) <==> c == src.href || other_places(src).contains(c)
            &&& on_mirror(src) == mirror_first ==> tried[0] == src.href
            &&& on_mirror(src) != mirror_first ==> distinct(other_places(src)).is_prefix_of(tried)
        }),
{
    let given = seq![src.href];
    let tried = candidates_of(src, filename, mirror_first);
    lemma_preferred(given, other_places(src));
    lemma_preferred(other_places(src), given);
    assert(given[0] == src.href);
    assert(given.contains(src.href));
    distinct_does_not_reorder(given, 1);
    assert(distinct(given) == given);
    if on_mirror(src) == mirror_first {
        assert(tried.subrange(0, 1) == given);
        assert(tried.subrange(0, 1)[0] == tried[0]);
    }
}

} // verus!
