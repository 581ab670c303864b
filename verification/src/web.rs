//! Addresses: mirrors of them, and the order in which to try them.
use vstd::prelude::*;
use crate::external::{
    at_fragment, at_host, at_path, at_port, at_query, is_bare, is_kept, is_page, is_written,
    kept_fragment, kept_path, kept_query, made_of_names, opt_len, origin_of_address, page_at,
    parse_url, path_room, plain_host, plain_in_hosts, plain_in_paths, plain_in_queries,
    positions_fit, query_room, readable_at, reads_as, set_url_fragment, set_url_host, set_url_path,
    set_url_port, set_url_query, site_len, takes_fragment, takes_host, takes_path, takes_port,
    takes_query, url_parsed, usual_port, web_address, written, UrlModel, UrlParts,
    LAST_URL_POSITION,
};
use crate::text::{
    begins, chars_of, concat2, concat3, concat4, contains, copied, decimal, decimal_text, distinct,
    distinct_begins, distinct_does_not_reorder, distinct_keeps_texts, ends, ends_with, holds, index_of, is_digit, last_index_of,
    lemma_index_from, lemma_last_index_to, lower, occurs_at, opt_text, parted, parted_at_last, pieces,
    parts_make_up_the_text, prefixes_are_taken_off, rsplit_once,
    same, split, split_once, starts_with, strip_prefix, text_between, texts,
    texts_are_parted_at_the_first_mark, to_lower, trim,
    trim_end, trim_slashes, trimmed, without_outer_slashes, without_prefix, without_repetitions,
    without_trailing,
};

verus! {

// ---------------------------------------------------------------------------------------------
// GitHub
// ---------------------------------------------------------------------------------------------
/// The first accelerating proxy for GitHub, as the prefix of an address without its scheme.
pub const GH_PROXY_V4: &'static str = "https://v4.gh-proxy.org/https://";

/// The second accelerating proxy for GitHub.
pub const GH_PROXY_CDN: &'static str = "https://cdn.gh-proxy.org/https://";

/// An address without a proxy in front.
pub open spec fn without_gh_proxy(url: Seq<char>) -> Seq<char> {
    match without_prefix(url, GH_PROXY_V4@) {
        Some(rest) => rest,
        None => match without_prefix(url, GH_PROXY_CDN@) {
            Some(rest) => rest,
            None => url,
        },
    }
}

/// Strips a known proxy prefix; another address is returned unchanged.
pub fn strip_gh_proxy_prefix(url: &str) -> (r: String)
    ensures
        r@ == without_gh_proxy(url@),
{
    if let Some(rest) = strip_prefix(url, GH_PROXY_V4) {
        return rest;
    }
    if let Some(rest) = strip_prefix(url, GH_PROXY_CDN) {
        return rest;
    }
    url.to_owned()
}

/// The Gitee account that mirrors a GitHub account.
pub open spec fn gitee_owner(github_owner: Seq<char>) -> Option<Seq<char>> {
    if github_owner == "Muzimi-ciallo"@ {
        Some("Muzimimiao"@)
    } else {
        None
    }
}

/// The Gitee account that mirrors a GitHub account; `None` for accounts that are not mirrored.
pub fn gitee_mirror_owner(github_owner: &str) -> (r: Option<&'static str>)
    ensures
        match r {
            Some(owner) => gitee_owner(github_owner@) == Some(owner@),
            None => gitee_owner(github_owner@) is None,
        },
{
    if same(github_owner, "Muzimi-ciallo") {
        Some("Muzimimiao")
    } else {
        None
    }
}

/// A text up to the first slash and what follows it; the whole and nothing if there is none.
pub open spec fn head_and_rest(s: Seq<char>) -> (Seq<char>, Seq<char>) {
    match parted(s, "/"@) {
        Some((head, rest)) => (head, rest),
        None => (s, ""@),
    }
}

fn split_head(s: &str) -> (r: (String, String))
    ensures
        (r.0@, r.1@) == head_and_rest(s@),
{
    match split_once(s, "/") {
        Some((head, rest)) => (head, rest),
        None => (s.to_owned(), "".to_owned()),
    }
}

/// The Gitee address of a file of a branch: `owner/repo/branch/path` becomes
/// `owner/repo/raw/branch/path` under the mirroring account.
pub open spec fn gitee_raw(rest: Seq<char>) -> Option<Seq<char>> {
    match parted(rest, "/"@) {
        None => None,
        Some((owner, after_owner)) => match parted(after_owner, "/"@) {
            None => None,
            Some((repo, branch_path)) => match gitee_owner(owner) {
                None => None,
                Some(mirror) => {
                    let (branch, path) = head_and_rest(branch_path);
                    Some(
                        "https://gitee.com/"@ + mirror + "/"@ + repo + "/raw/"@ + branch + "/"@
                            + path,
                    )
                },
            },
        },
    }
}

/// The Gitee address of what a repository offers: the same path under the mirroring account.
pub open spec fn gitee_page(rest: Seq<char>) -> Option<Seq<char>> {
    match parted(rest, "/"@) {
        None => None,
        Some((owner, after_owner)) => match gitee_owner(owner) {
            None => None,
            Some(mirror) => {
                let (repo, path) = head_and_rest(after_owner);
                Some("https://gitee.com/"@ + mirror + "/"@ + repo + "/"@ + path)
            },
        },
    }
}

/// The Gitee address of a GitHub address.
pub open spec fn gitee_of(url: Seq<char>) -> Option<Seq<char>> {
    match without_prefix(url, "https://raw.githubusercontent.com/"@) {
        Some(rest) => gitee_raw(rest),
        None => match without_prefix(url, "https://github.com/"@) {
            Some(rest) => gitee_page(rest),
            None => None,
        },
    }
}

/// The Gitee mirror of a GitHub address, if the repository is mirrored.
pub fn github_to_gitee(url: &str) -> (r: Option<String>)
    ensures
        opt_text(r) == gitee_of(url@),
{
    if let Some(rest) = strip_prefix(url, "https://raw.githubusercontent.com/") {
        let (owner, after_owner) = match split_once(rest.as_str(), "/") {
            Some(pair) => pair,
            None => {
                return None;
            },
        };
        let (repo, branch_path) = match split_once(after_owner.as_str(), "/") {
            Some(pair) => pair,
            None => {
                return None;
            },
        };
        let mirror = match gitee_mirror_owner(owner.as_str()) {
            Some(mirror) => mirror,
            None => {
                return None;
            },
        };
        let (branch, path) = split_head(branch_path.as_str());
        let mut out = concat4("https://gitee.com/", mirror, "/", repo.as_str());
        out.append("/raw/");
        out.append(branch.as_str());
        out.append("/");
        out.append(path.as_str());
        return Some(out);
    }
    if let Some(rest) = strip_prefix(url, "https://github.com/") {
        let (owner, after_owner) = match split_once(rest.as_str(), "/") {
            Some(pair) => pair,
            None => {
                return None;
            },
        };
        let mirror = match gitee_mirror_owner(owner.as_str()) {
            Some(mirror) => mirror,
            None => {
                return None;
            },
        };
        let (repo, path) = split_head(after_owner.as_str());
        let mut out = concat4("https://gitee.com/", mirror, "/", repo.as_str());
        out.append("/");
        out.append(path.as_str());
        return Some(out);
    }
    None
}

/// A character that ends the part of an address that names the host.
pub open spec fn ends_authority(c: char) -> bool {
    c == '/' || c == '?' || c == '#' || c == '\\'
}

/// The beginning of an address without its scheme, up to where its path, its query or its
/// fragment begins.
pub open spec fn authority_of(rest: Seq<char>) -> Seq<char>
    decreases rest.len(),
{
    if rest.len() == 0 || ends_authority(rest[0]) {
        seq![]
    } else {
        seq![rest[0]] + authority_of(rest.skip(1))
    }
}

/// The host that an address without its scheme names: what stands before the path, without who
/// asks and without the port.
pub open spec fn host_named(rest: Seq<char>) -> Seq<char> {
    let authority = authority_of(rest);
    let place = match parted_at_last(authority, "@"@) {
        Some((_, place)) => place,
        None => authority,
    };
    match parted(place, ":"@) {
        Some((host, _)) => host,
        None => place,
    }
}

/// A host of GitHub: its own, one below it, or the one of its raw files. A dot at the end of a host
/// does not count.
pub open spec fn github_host(host: Seq<char>) -> bool {
    let name = without_trailing(host, '.');
    name == "github.com"@ || ends_with(name, ".github.com"@) || name == "raw.githubusercontent.com"@
}

/// An address without a proxy in front of it or its scheme.
pub open spec fn github_path(url: Seq<char>) -> Seq<char> {
    if without_gh_proxy(url) != url {
        without_gh_proxy(url)
    } else {
        match without_prefix(url, "https://"@) {
            Some(rest) => rest,
            None => match without_prefix(url, "http://"@) {
                Some(rest) => rest,
                None => url,
            },
        }
    }
}

/// A scheme that is followed by a host, with or without slashes between them.
pub open spec fn host_scheme(scheme: Seq<char>) -> bool {
    let small = lower(scheme);
    small == "http"@ || small == "https"@ || small == "ftp"@ || small == "ws"@ || small == "wss"@
}

/// A character of a scheme.
pub open spec fn in_schemes(c: char) -> bool {
    'a' <= c <= 'z' || 'A' <= c <= 'Z' || is_digit(c) || c == '+' || c == '-' || c == '.'
}

/// A text that can be the scheme of an address: it begins with a letter.
pub open spec fn scheme_like(s: Seq<char>) -> bool {
    &&& s.len() > 0
    &&& 'a' <= s[0] <= 'z' || 'A' <= s[0] <= 'Z'
    &&& forall|i: int| 0 <= i < s.len() ==> in_schemes(#[trigger] s[i])
}

/// A scheme begins with a letter and goes on with letters, digits, and three signs; a text with another
/// character in it is none.
pub proof fn schemes_begin_with_a_letter(first: char, rest: Seq<char>)
    requires
        'a' <= first <= 'z',
    ensures
        (forall|k: int|
            0 <= k < rest.len() ==> 'a' <= #[trigger] rest[k] <= 'z' || 'A' <= rest[k] <= 'Z' || '0'
                <= rest[k] <= '9' || rest[k] == '+' || rest[k] == '-' || rest[k] == '.')
            <==> scheme_like(seq![first] + rest),
        scheme_like(rest) && rest.len() > 0 ==> 'a' <= rest[0] <= 'z' || 'A' <= rest[0] <= 'Z',
        !scheme_like(Seq::empty()),
{
    let s = seq![first] + rest;
    if scheme_like(s) {
        assert forall|k: int| 0 <= k < rest.len() implies 'a' <= #[trigger] rest[k] <= 'z' || 'A'
            <= rest[k] <= 'Z' || '0' <= rest[k] <= '9' || rest[k] == '+' || rest[k] == '-' || rest[k]
            == '.' by {
            assert(in_schemes(s[k + 1]));
        }
    }
    if forall|k: int|
        0 <= k < rest.len() ==> 'a' <= #[trigger] rest[k] <= 'z' || 'A' <= rest[k] <= 'Z' || '0'
            <= rest[k] <= '9' || rest[k] == '+' || rest[k] == '-' || rest[k] == '.' {
        assert forall|k: int| 0 <= k < s.len() implies in_schemes(#[trigger] s[k]) by {
            if k > 0 {
                assert(s[k] == rest[k - 1]);
            }
        }
    }
}

/// What follows the scheme of an address and the slashes behind it; an address without a scheme as
/// it is.
pub open spec fn behind_scheme(url: Seq<char>) -> Seq<char> {
    match parted(url, ":"@) {
        Some((scheme, rest)) => if host_scheme(scheme) {
            without_outer_slashes(rest)
        } else {
            match without_prefix(rest, "//"@) {
                Some(place) => if scheme_like(scheme) {
                    place
                } else {
                    url
                },
                None => url,
            }
        },
        None => url,
    }
}

/// An address is one of GitHub, directly or behind a proxy, whatever its scheme and the white space
/// around it.
pub open spec fn names_github(url: Seq<char>) -> bool {
    github_host(host_named(behind_scheme(trimmed(github_path(url)))))
}

/// The addresses to try for a GitHub address, before repetitions are left out: the Gitee
/// mirror, the two proxies, and the address itself.
pub open spec fn github_routes(url: Seq<char>) -> Seq<Seq<char>> {
    let path = github_path(url);
    let direct = "https://"@ + path;
    let rest = seq![GH_PROXY_V4@ + path, GH_PROXY_CDN@ + path, direct];
    match gitee_of(direct) {
        Some(gitee) => seq![gitee] + rest,
        None => rest,
    }
}

/// The addresses to try for an address: those of GitHub take the mirror and the proxies first,
/// others stay as they are.
pub open spec fn github_candidates(url: Seq<char>) -> Seq<Seq<char>> {
    if names_github(url) {
        distinct(github_routes(url))
    } else {
        seq![url]
    }
}

fn only(url: &str) -> (r: Vec<String>)
    ensures
        texts(r@) == seq![url@],
{
    let mut out: Vec<String> = Vec::new();
    out.push(url.to_owned());
    assert(texts(out@) =~= seq![url@]);
    out
}

fn authority(rest: &str) -> (r: String)
    ensures
        r@ == authority_of(rest@),
{
    let v = chars_of(rest);
    let ghost all = rest@;
    let mut i: usize = 0;
    assert(all.skip(0) =~= all);
    assert(all.take(0) + authority_of(all.skip(0)) =~= authority_of(all));
    while i < v.len() && !(v[i] == '/' || v[i] == '?' || v[i] == '#' || v[i] == '\\')
        invariant
            i <= v.len(),
            v@ == all,
            authority_of(all) == all.take(i as int) + authority_of(all.skip(i as int)),
        decreases v.len() - i,
    {
        assert(all.skip(i as int).skip(1) =~= all.skip(i + 1));
        assert(all.take(i + 1) =~= all.take(i as int).push(all[i as int]));
        assert(authority_of(all) =~= all.take(i + 1) + authority_of(all.skip(i + 1)));
        i += 1;
    }
    assert(authority_of(all.skip(i as int)) =~= Seq::<char>::empty());
    assert(authority_of(all) =~= all.subrange(0, i as int));
    text_between(&v, 0, i)
}

fn named_host(rest: &str) -> (r: String)
    ensures
        r@ == host_named(rest@),
{
    let whole = authority(rest);
    let place = match rsplit_once(whole.as_str(), "@") {
        Some((_, place)) => place,
        None => whole,
    };
    match split_once(place.as_str(), ":") {
        Some((host, _)) => host,
        None => place,
    }
}

fn could_be_scheme(s: &str) -> (r: bool)
    ensures
        r == scheme_like(s@),
{
    let v = chars_of(s);
    if v.len() == 0 || !(('a' <= v[0] && v[0] <= 'z') || ('A' <= v[0] && v[0] <= 'Z')) {
        return false;
    }
    let mut i: usize = 0;
    while i < v.len()
        invariant
            i <= v.len(),
            v@ == s@,
            forall|k: int| 0 <= k < i ==> in_schemes(#[trigger] s@[k]),
        decreases v.len() - i,
    {
        let c = v[i];
        let fits = ('a' <= c && c <= 'z') || ('A' <= c && c <= 'Z') || ('0' <= c && c <= '9') || c
            == '+' || c == '-' || c == '.';
        if !fits {
            assert(!in_schemes(s@[i as int]));
            return false;
        }
        i += 1;
    }
    true
}

fn after_scheme(url: &str) -> (r: String)
    ensures
        r@ == behind_scheme(url@),
{
    if let Some((scheme, rest)) = split_once(url, ":") {
        let small = to_lower(scheme.as_str());
        let known = same(small.as_str(), "http") || same(small.as_str(), "https") || same(
            small.as_str(),
            "ftp",
        ) || same(small.as_str(), "ws") || same(small.as_str(), "wss");
        if known {
            return trim_slashes(rest.as_str());
        }
        if let Some(place) = strip_prefix(rest.as_str(), "//") {
            if could_be_scheme(scheme.as_str()) {
                return place;
            }
        }
    }
    url.to_owned()
}

/// The addresses to try for a GitHub-related request, in order: Gitee mirror, first proxy, second
/// proxy, direct. Addresses whose host is not one of GitHub are returned unchanged.
pub fn gh_proxy_candidates(url: &str) -> (r: Vec<String>)
    ensures
        texts(r@) == github_candidates(url@),
        !names_github(url@) ==> texts(r@) == seq![url@],
{
    let stripped = strip_gh_proxy_prefix(url);
    let path = if !same(stripped.as_str(), url) {
        stripped
    } else {
        match strip_prefix(url, "https://") {
            Some(rest) => rest,
            None => match strip_prefix(url, "http://") {
                Some(rest) => rest,
                None => url.to_owned(),
            },
        }
    };
    let place = after_scheme(trim(path.as_str()).as_str());
    let host = trim_end(named_host(place.as_str()).as_str(), '.');
    let is_github = same(host.as_str(), "github.com") || ends(host.as_str(), ".github.com") || same(
        host.as_str(),
        "raw.githubusercontent.com",
    );
    if !is_github {
        return only(url);
    }
    let direct = concat2("https://", path.as_str());
    let mut out: Vec<String> = Vec::new();
    if let Some(gitee) = github_to_gitee(direct.as_str()) {
        out.push(gitee);
    }
    out.push(concat2(GH_PROXY_V4, path.as_str()));
    out.push(concat2(GH_PROXY_CDN, path.as_str()));
    out.push(direct);
    assert(texts(out@) =~= github_routes(url@));
    without_repetitions(&out)
}

// ---------------------------------------------------------------------------------------------
// Minecraft files
// ---------------------------------------------------------------------------------------------
/// The host of BMCLAPI, which mirrors the files of Minecraft.
pub const BMCLAPI_HOST: &'static str = "bmclapi2.bangbang93.com";

/// The same file on another host.
#[derive(Debug)]
pub struct Rewrite {
    pub host: String,
    pub path: String,
}

/// The host and path of a rewrite.
pub open spec fn rewrite_view(r: Rewrite) -> (Seq<char>, Seq<char>) {
    (r.host@, r.path@)
}

/// The hosts and paths of rewrites.
pub open spec fn rewrite_views(v: Seq<Rewrite>) -> Seq<(Seq<char>, Seq<char>)> {
    v.map_values(|r: Rewrite| rewrite_view(r))
}

/// How the rewritten addresses join the given one.
#[derive(Clone, Copy, Debug, PartialEq, Eq, Structural)]
pub enum Joining {
    /// None stands twice in the whole list.
    AllDistinct,
    /// None of the rewritten ones stands twice.
    RewritesDistinct,
    /// As they come.
    Plain,
}

/// The files that have copies elsewhere.
#[derive(Debug)]
pub struct MirrorPlan {
    pub rewrites: Vec<Rewrite>,
    pub joining: Joining,
}

/// The copies of a file of BMCLAPI's Maven tree, in the repositories that it mirrors.
pub open spec fn maven_origins(rest: Seq<char>) -> Seq<(Seq<char>, Seq<char>)> {
    if starts_with(rest, "/net/minecraftforge/"@) {
        seq![
            ("files.minecraftforge.net"@, "/maven"@ + rest),
            ("maven.minecraftforge.net"@, rest),
        ]
    } else if starts_with(rest, "/net/neoforged/"@) {
        seq![("maven.neoforged.net"@, "/releases"@ + rest)]
    } else if starts_with(rest, "/net/fabricmc/"@) {
        seq![("maven.fabricmc.net"@, rest)]
    } else if starts_with(rest, "/org/quiltmc/"@) {
        seq![("maven.quiltmc.org"@, "/repository/release"@ + rest)]
    } else {
        seq![("libraries.minecraft.net"@, rest)]
    }
}

/// A text without a prefix, or as it is.
pub open spec fn strip_if(s: Seq<char>, prefix: Seq<char>) -> Seq<char> {
    match without_prefix(s, prefix) {
        Some(rest) => rest,
        None => s,
    }
}

/// A path in a tree of BMCLAPI.
pub open spec fn on_bmclapi(path: Seq<char>) -> (Seq<char>, Seq<char>) {
    (BMCLAPI_HOST@, path)
}

/// The copies on BMCLAPI of a file of an official host.
pub open spec fn official_mirrors(
    host: Seq<char>,
    path: Seq<char>,
) -> Option<Seq<(Seq<char>, Seq<char>)>> {
    if host == "files.minecraftforge.net"@ {
        Some(seq![on_bmclapi("/maven"@ + strip_if(path, "/maven"@))])
    } else if host == "maven.minecraftforge.net"@ {
        Some(seq![on_bmclapi("/maven"@ + path)])
    } else if host == "maven.neoforged.net"@ {
        Some(seq![on_bmclapi("/maven"@ + strip_if(path, "/releases"@))])
    } else if host == "maven.fabricmc.net"@ || host == "maven.quiltmc.org"@ || host
        == "repo1.maven.org"@ || host == "repo.maven.apache.org"@ {
        Some(seq![on_bmclapi("/maven"@ + path)])
    } else if host == "resources.download.minecraft.net"@ {
        Some(seq![on_bmclapi("/assets"@ + path)])
    } else if host == "libraries.minecraft.net"@ {
        Some(seq![on_bmclapi("/maven"@ + path), on_bmclapi("/libraries"@ + path)])
    } else if host == "piston-data.mojang.com"@ || host == "piston-meta.mojang.com"@ || host
        == "launchermeta.mojang.com"@ || host == "launcher.mojang.com"@ {
        Some(seq![on_bmclapi(path)])
    } else {
        None
    }
}

/// Where else a file can be had, by its host and path: a file of BMCLAPI in the repository that
/// it mirrors, a file of an official host on BMCLAPI. `None` for files without copies.
pub open spec fn mirror_plan_of(
    host: Seq<char>,
    path: Seq<char>,
) -> Option<(Seq<(Seq<char>, Seq<char>)>, Joining)> {
    if host == BMCLAPI_HOST@ && without_prefix(path, "/maven"@) is Some {
        Some((maven_origins(without_prefix(path, "/maven"@)->0), Joining::AllDistinct))
    } else if host == BMCLAPI_HOST@ && without_prefix(path, "/assets"@) is Some {
        Some(
            (
                seq![
                    (
                        "resources.download.minecraft.net"@,
                        without_prefix(path, "/assets"@)->0,
                    ),
                ],
                Joining::Plain,
            ),
        )
    } else {
        match official_mirrors(host, path) {
            Some(rewrites) => Some((rewrites, Joining::RewritesDistinct)),
            None => None,
        }
    }
}

/// The texts of a plan.
pub open spec fn plan_view(
    r: Option<MirrorPlan>,
) -> Option<(Seq<(Seq<char>, Seq<char>)>, Joining)> {
    match r {
        Some(plan) => Some((rewrite_views(plan.rewrites@), plan.joining)),
        None => None,
    }
}

fn rewrite(host: &str, path: String) -> (r: Rewrite)
    ensures
        rewrite_view(r) == (host@, path@),
{
    Rewrite { host: host.to_owned(), path }
}

fn one_rewrite(host: &str, path: String) -> (r: Vec<Rewrite>)
    ensures
        rewrite_views(r@) == seq![(host@, path@)],
{
    let mut v: Vec<Rewrite> = Vec::new();
    v.push(rewrite(host, path));
    assert(rewrite_views(v@) =~= seq![(host@, path@)]);
    v
}

fn two_rewrites(host: &str, path: String, host2: &str, path2: String) -> (r: Vec<Rewrite>)
    ensures
        rewrite_views(r@) == seq![(host@, path@), (host2@, path2@)],
{
    let mut v: Vec<Rewrite> = Vec::new();
    v.push(rewrite(host, path));
    v.push(rewrite(host2, path2));
    assert(rewrite_views(v@) =~= seq![(host@, path@), (host2@, path2@)]);
    v
}

fn maven_rewrites(rest: &str) -> (r: Vec<Rewrite>)
    ensures
        rewrite_views(r@) == maven_origins(rest@),
{
    if begins(rest, "/net/minecraftforge/") {
        two_rewrites(
            "files.minecraftforge.net",
            concat2("/maven", rest),
            "maven.minecraftforge.net",
            rest.to_owned(),
        )
    } else if begins(rest, "/net/neoforged/") {
        one_rewrite("maven.neoforged.net", concat2("/releases", rest))
    } else if begins(rest, "/net/fabricmc/") {
        one_rewrite("maven.fabricmc.net", rest.to_owned())
    } else if begins(rest, "/org/quiltmc/") {
        one_rewrite("maven.quiltmc.org", concat2("/repository/release", rest))
    } else {
        one_rewrite("libraries.minecraft.net", rest.to_owned())
    }
}

fn stripped_or_same(s: &str, prefix: &str) -> (r: String)
    ensures
        r@ == strip_if(s@, prefix@),
{
    match strip_prefix(s, prefix) {
        Some(rest) => rest,
        None => s.to_owned(),
    }
}

fn official_rewrites(host: &str, path: &str) -> (r: Option<Vec<Rewrite>>)
    ensures
        match r {
            Some(v) => official_mirrors(host@, path@) == Some(rewrite_views(v@)),
            None => official_mirrors(host@, path@) is None,
        },
{
    if same(host, "files.minecraftforge.net") {
        let rest = stripped_or_same(path, "/maven");
        Some(one_rewrite(BMCLAPI_HOST, concat2("/maven", rest.as_str())))
    } else if same(host, "maven.minecraftforge.net") {
        Some(one_rewrite(BMCLAPI_HOST, concat2("/maven", path)))
    } else if same(host, "maven.neoforged.net") {
        let rest = stripped_or_same(path, "/releases");
        Some(one_rewrite(BMCLAPI_HOST, concat2("/maven", rest.as_str())))
    } else if same(host, "maven.fabricmc.net") || same(host, "maven.quiltmc.org") || same(
        host,
        "repo1.maven.org",
    ) || same(host, "repo.maven.apache.org") {
        Some(one_rewrite(BMCLAPI_HOST, concat2("/maven", path)))
    } else if same(host, "resources.download.minecraft.net") {
        Some(one_rewrite(BMCLAPI_HOST, concat2("/assets", path)))
    } else if same(host, "libraries.minecraft.net") {
        Some(
            two_rewrites(
                BMCLAPI_HOST,
                concat2("/maven", path),
                BMCLAPI_HOST,
                concat2("/libraries", path),
            ),
        )
    } else if same(host, "piston-data.mojang.com") || same(host, "piston-meta.mojang.com") || same(
        host,
        "launchermeta.mojang.com",
    ) || same(host, "launcher.mojang.com") {
        Some(one_rewrite(BMCLAPI_HOST, path.to_owned()))
    } else {
        None
    }
}

/// Where else a file can be had, by its host and path.
pub fn mirror_plan(host: &str, path: &str) -> (r: Option<MirrorPlan>)
    ensures
        plan_view(r) == mirror_plan_of(host@, path@),
{
    if same(host, BMCLAPI_HOST) {
        if let Some(rest) = strip_prefix(path, "/maven") {
            return Some(
                MirrorPlan {
                    rewrites: maven_rewrites(rest.as_str()),
                    joining: Joining::AllDistinct,
                },
            );
        }
        if let Some(rest) = strip_prefix(path, "/assets") {
            return Some(
                MirrorPlan {
                    rewrites: one_rewrite("resources.download.minecraft.net", rest),
                    joining: Joining::Plain,
                },
            );
        }
    }
    match official_rewrites(host, path) {
        Some(rewrites) => Some(MirrorPlan { rewrites, joining: Joining::RewritesDistinct }),
        None => None,
    }
}

/// An address and its rewritten forms in one list: the given address first.
pub open spec fn joined_candidates(
    url: Seq<char>,
    rewritten: Seq<Seq<char>>,
    joining: Joining,
) -> Seq<Seq<char>> {
    match joining {
        Joining::AllDistinct => distinct(seq![url] + rewritten),
        Joining::RewritesDistinct => seq![url] + distinct(rewritten),
        Joining::Plain => seq![url] + rewritten,
    }
}

/// Joins an address and its rewritten forms into one list.
pub fn join_candidates(url: &str, rewritten: &Vec<String>, joining: Joining) -> (r: Vec<String>)
    ensures
        texts(r@) == joined_candidates(url@, texts(rewritten@), joining),
{
    let mut out: Vec<String> = Vec::new();
    out.push(url.to_owned());
    assert(texts(out@) =~= seq![url@]);
    let mut more = match joining {
        Joining::RewritesDistinct => without_repetitions(rewritten),
        Joining::AllDistinct => copied(rewritten),
        Joining::Plain => copied(rewritten),
    };
    let ghost rest = texts(more@);
    let ghost head = texts(out@);
    out.append(&mut more);
    assert(texts(out@) =~= head + rest);
    match joining {
        Joining::AllDistinct => without_repetitions(&out),
        _ => out,
    }
}

/// The most characters that a path takes in an address.
fn room_for_path(path: &str) -> (r: u128)
    ensures
        r == path_room(path@),
        r <= 12 * usize::MAX,
{
    let v = chars_of(path);
    let mut i: usize = 0;
    while i < v.len()
        invariant
            i <= v.len(),
            v@ == path@,
            forall|k: int| 0 <= k < i ==> plain_in_paths(#[trigger] path@[k]),
        decreases v.len() - i,
    {
        let c = v[i];
        let plain = '!' <= c && c <= '~' && c != '"' && c != '#' && c != '<' && c != '>' && c != '?'
            && c != '`' && c != '{' && c != '}';
        if !plain {
            assert(!plain_in_paths(path@[i as int]));
            return 12 * (v.len() as u128);
        }
        i += 1;
    }
    v.len() as u128
}

/// The most characters that a query takes in an address.
fn room_for_query(query: &str) -> (r: u128)
    ensures
        r == query_room(query@),
        r <= 12 * usize::MAX,
{
    let v = chars_of(query);
    let mut i: usize = 0;
    while i < v.len()
        invariant
            i <= v.len(),
            v@ == query@,
            forall|k: int| 0 <= k < i ==> plain_in_queries(#[trigger] query@[k]),
        decreases v.len() - i,
    {
        let c = v[i];
        let plain = '!' <= c && c <= '~' && c != '"' && c != '#' && c != '<' && c != '>' && c != '\'';
        if !plain {
            assert(!plain_in_queries(query@[i as int]));
            return 12 * (v.len() as u128);
        }
        i += 1;
    }
    v.len() as u128
}

/// The length of a text.
fn length(s: &str) -> (r: i128)
    ensures
        r == s@.len(),
        r <= usize::MAX,
{
    s.unicode_len() as i128
}

fn length_if_any(s: &Option<String>) -> (r: Option<i128>)
    ensures
        int_len(r) == opt_len(opt_text(*s)),
        r matches Some(n) ==> 0 <= n <= usize::MAX,
{
    match s {
        Some(s) => Some(length(s.as_str())),
        None => None,
    }
}

spec fn int_len(len: Option<i128>) -> Option<int> {
    match len {
        Some(len) => Some(len as int),
        None => None,
    }
}

/// The length of an address up to its path.
fn site_length(parsed: &UrlParts) -> (r: i128)
    ensures
        r == site_len(parsed@),
        -4 * usize::MAX <= r <= usize::MAX,
{
    let mut n: i128 = length(parsed.href.as_str()) - length(parsed.path.as_str());
    if let Some(query) = &parsed.query {
        n = n - 1 - length(query.as_str());
    }
    if let Some(fragment) = &parsed.fragment {
        n = n - 1 - length(fragment.as_str());
    }
    n
}

fn fits(site: i128, path: i128, query: Option<i128>, fragment: bool) -> (r: bool)
    requires
        -8 * usize::MAX <= site <= 8 * usize::MAX,
        0 <= path <= 16 * usize::MAX,
        query matches Some(q) ==> 0 <= q <= 16 * usize::MAX,
    ensures
        r == positions_fit(site as int, path as int, int_len(query), fragment),
{
    let last: i128 = LAST_URL_POSITION as i128;
    let marked: i128 = match query {
        Some(q) => 1 + q,
        None => 0,
    };
    site <= last && (query.is_none() || site + path <= last) && (!fragment || site + path + marked
        <= last)
}

fn can_take_host(url: &str, host: &str) -> (r: bool)
    ensures
        r == takes_host(url@, host@),
{
    match parse_url(url) {
        Ok(u) => {
            let old: i128 = match &u.host {
                Some(host) => length(host.as_str()),
                None => -2,
            };
            fits(
                site_length(&u) + length(host) - old,
                length(u.path.as_str()),
                length_if_any(&u.query),
                u.fragment.is_some(),
            )
        },
        Err(_) => true,
    }
}

fn can_take_path(url: &str, path: &str) -> (r: bool)
    ensures
        r == takes_path(url@, path@),
{
    match parse_url(url) {
        Ok(u) => {
            let site = site_length(&u);
            let room: i128 = room_for_path(path) as i128;
            let needed: i128 = if u.host.is_some() && begins(path, "/") {
                room
            } else {
                room + 4
            };
            proof {
                reveal_strlit("/");
                if path@.len() > 0 {
                    assert(path@.subrange(0, 1)[0] == path@[0]);
                    assert(path@[0] == '/' ==> path@.subrange(0, 1) =~= "/"@);
                }
            }
            let last: i128 = LAST_URL_POSITION as i128;
            site + length(u.path.as_str()) <= last && site + needed <= last && fits(
                site,
                needed,
                length_if_any(&u.query),
                u.fragment.is_some(),
            )
        },
        Err(_) => true,
    }
}

fn can_take_port(url: &str) -> (r: bool)
    ensures
        r == takes_port(url@),
{
    match parse_url(url) {
        Ok(u) => fits(
            site_length(&u) + 6,
            length(u.path.as_str()),
            length_if_any(&u.query),
            u.fragment.is_some(),
        ),
        Err(_) => true,
    }
}

fn can_take_query(url: &str, query: &Option<String>) -> (r: bool)
    ensures
        r == takes_query(url@, opt_text(*query)),
{
    let room: Option<i128> = match query {
        Some(query) => Some(room_for_query(query.as_str()) as i128),
        None => None,
    };
    match parse_url(url) {
        Ok(u) => fits(site_length(&u), length(u.path.as_str()), room, u.fragment.is_some()),
        Err(_) => true,
    }
}

fn can_take_fragment(url: &str, fragment: &Option<String>) -> (r: bool)
    ensures
        r == takes_fragment(url@, opt_text(*fragment)),
{
    match parse_url(url) {
        Ok(u) => fits(
            site_length(&u),
            length(u.path.as_str()),
            length_if_any(&u.query),
            fragment.is_some(),
        ),
        Err(_) => true,
    }
}

/// The address in a text with another host and path; `None` where a position in it could not be
/// counted.
pub open spec fn url_moved(url: Seq<char>, host: Seq<char>, path: Seq<char>) -> Option<Seq<char>> {
    if !takes_host(url, host) {
        None
    } else {
        match at_host(url, host) {
            Some(moved) => if takes_path(moved, path) {
                at_path(moved, path)
            } else {
                None
            },
            None => None,
        }
    }
}

fn move_url(url: &str, host: &str, path: &str) -> (r: Option<String>)
    requires
        plain_host(host@),
    ensures
        opt_text(r) == url_moved(url@, host@, path@),
{
    if !can_take_host(url, host) {
        return None;
    }
    match set_url_host(url, host) {
        Some(moved) => {
            if can_take_path(moved.as_str(), path) {
                set_url_path(moved.as_str(), path)
            } else {
                None
            }
        },
        None => None,
    }
}

/// The address moved to every host and path for which that succeeds.
pub open spec fn all_moved(url: Seq<char>, to: Seq<(Seq<char>, Seq<char>)>) -> Seq<Seq<char>>
    decreases to.len(),
{
    if to.len() == 0 {
        seq![]
    } else {
        let front = all_moved(url, to.drop_last());
        match url_moved(url, to.last().0, to.last().1) {
            Some(moved) => front.push(moved),
            None => front,
        }
    }
}

/// The addresses to try for a file of Minecraft, given what parsing made of its address.
pub open spec fn minecraft_candidates(
    url: Seq<char>,
    parsed: Result<UrlModel, Seq<char>>,
) -> Seq<Seq<char>> {
    if parsed is Err || parsed->Ok_0.host is None {
        seq![url]
    } else {
        match mirror_plan_of(parsed->Ok_0.host->0, parsed->Ok_0.path) {
            Some((rewrites, joining)) => joined_candidates(url, all_moved(url, rewrites), joining),
            None => seq![url],
        }
    }
}

proof fn lemma_plain_host(host: Seq<char>, dot: int)
    requires
        0 <= dot < host.len() - 1,
        host.len() <= 253,
        host[dot] == '.',
        forall|i: int| 0 <= i < host.len() ==> plain_in_hosts(#[trigger] host[i]) && host[i] != 'x',
        forall|i: int| dot < i < host.len() ==> 'a' <= #[trigger] host[i] <= 'z',
    ensures
        plain_host(host),
{
    reveal_strlit("xn--");
    reveal_strlit(".");
    if contains(host, "xn--"@) {
        let i = choose|i: int| occurs_at(host, "xn--"@, i);
        assert(host.subrange(i, i + 4)[0] == host[i]);
    }
    lemma_last_index_to(host, "."@, host.len() - 1);
    assert(host.subrange(dot, dot + 1) =~= "."@);
    assert(occurs_at(host, "."@, dot));
    assert forall|j: int| dot < j implies !#[trigger] occurs_at(host, "."@, j) by {
        if occurs_at(host, "."@, j) {
            assert(host.subrange(j, j + 1)[0] == host[j]);
        }
    }
    assert(last_index_of(host, "."@) == Some(dot));
}

/// The hosts of the mirrors and of what they mirror are plain.
proof fn lemma_known_hosts()
    ensures
        plain_host("files.minecraftforge.net"@),
        plain_host("maven.minecraftforge.net"@),
        plain_host("maven.neoforged.net"@),
        plain_host("maven.fabricmc.net"@),
        plain_host("maven.quiltmc.org"@),
        plain_host("libraries.minecraft.net"@),
        plain_host("resources.download.minecraft.net"@),
        plain_host("bmclapi2.bangbang93.com"@),
        plain_host("mod.mcimirror.top"@),
{
    reveal_strlit("files.minecraftforge.net");
    assert("files.minecraftforge.net"@ =~= seq![
        'f', 'i', 'l', 'e', 's', '.', 'm', 'i', 'n', 'e', 'c', 'r', 'a', 'f', 't', 'f', 'o', 'r',
        'g', 'e', '.', 'n', 'e', 't',
    ]);
    lemma_plain_host("files.minecraftforge.net"@, 20);
    reveal_strlit("maven.minecraftforge.net");
    assert("maven.minecraftforge.net"@ =~= seq![
        'm', 'a', 'v', 'e', 'n', '.', 'm', 'i', 'n', 'e', 'c', 'r', 'a', 'f', 't', 'f', 'o', 'r',
        'g', 'e', '.', 'n', 'e', 't',
    ]);
    lemma_plain_host("maven.minecraftforge.net"@, 20);
    reveal_strlit("maven.neoforged.net");
    assert("maven.neoforged.net"@ =~= seq![
        'm', 'a', 'v', 'e', 'n', '.', 'n', 'e', 'o', 'f', 'o', 'r', 'g', 'e', 'd', '.', 'n', 'e',
        't',
    ]);
    lemma_plain_host("maven.neoforged.net"@, 15);
    reveal_strlit("maven.fabricmc.net");
    assert("maven.fabricmc.net"@ =~= seq![
        'm', 'a', 'v', 'e', 'n', '.', 'f', 'a', 'b', 'r', 'i', 'c', 'm', 'c', '.', 'n', 'e', 't',
    ]);
    lemma_plain_host("maven.fabricmc.net"@, 14);
    reveal_strlit("maven.quiltmc.org");
    assert("maven.quiltmc.org"@ =~= seq![
        'm', 'a', 'v', 'e', 'n', '.', 'q', 'u', 'i', 'l', 't', 'm', 'c', '.', 'o', 'r', 'g',
    ]);
    lemma_plain_host("maven.quiltmc.org"@, 13);
    reveal_strlit("libraries.minecraft.net");
    assert("libraries.minecraft.net"@ =~= seq![
        'l', 'i', 'b', 'r', 'a', 'r', 'i', 'e', 's', '.', 'm', 'i', 'n', 'e', 'c', 'r', 'a', 'f',
        't', '.', 'n', 'e', 't',
    ]);
    lemma_plain_host("libraries.minecraft.net"@, 19);
    reveal_strlit("resources.download.minecraft.net");
    assert("resources.download.minecraft.net"@ =~= seq![
        'r', 'e', 's', 'o', 'u', 'r', 'c', 'e', 's', '.', 'd', 'o', 'w', 'n', 'l', 'o', 'a', 'd',
        '.', 'm', 'i', 'n', 'e', 'c', 'r', 'a', 'f', 't', '.', 'n', 'e', 't',
    ]);
    lemma_plain_host("resources.download.minecraft.net"@, 28);
    reveal_strlit("bmclapi2.bangbang93.com");
    assert("bmclapi2.bangbang93.com"@ =~= seq![
        'b', 'm', 'c', 'l', 'a', 'p', 'i', '2', '.', 'b', 'a', 'n', 'g', 'b', 'a', 'n', 'g', '9',
        '3', '.', 'c', 'o', 'm',
    ]);
    lemma_plain_host("bmclapi2.bangbang93.com"@, 19);
    reveal_strlit("mod.mcimirror.top");
    assert("mod.mcimirror.top"@ =~= seq![
        'm', 'o', 'd', '.', 'm', 'c', 'i', 'm', 'i', 'r', 'r', 'o', 'r', '.', 't', 'o', 'p',
    ]);
    lemma_plain_host("mod.mcimirror.top"@, 13);
}

/// The hosts of a plan are plain.
proof fn lemma_plan_hosts(host: Seq<char>, path: Seq<char>)
    ensures
        match mirror_plan_of(host, path) {
            Some(plan) => forall|i: int|
                0 <= i < plan.0.len() ==> plain_host((#[trigger] plan.0[i]).0),
            None => true,
        },
{
    lemma_known_hosts();
}

/// A text is the address of an asset at its official host, as addresses are written down, and no
/// position in it or in its copies is one that cannot be counted.
pub open spec fn asset_address(url: Seq<char>) -> bool {
    url_parsed(url) matches Ok(u) && web_address(u) && u.href == url && u.host == Some(
        "resources.download.minecraft.net"@,
    ) && url.len() + 7 <= LAST_URL_POSITION
}

/// An address has one copy, and the copy of that is the address.
pub open spec fn mirrored_both_ways(url: Seq<char>, candidates: Seq<Seq<char>>) -> bool {
    &&& candidates.len() == 2
    &&& candidates[0] == url
    &&& minecraft_candidates(candidates[1], url_parsed(candidates[1])) == seq![candidates[1], url]
}

/// The address moved to a single place.
proof fn lemma_one_moved(url: Seq<char>, host: Seq<char>, path: Seq<char>)
    ensures
        all_moved(url, seq![(host, path)]) == (match url_moved(url, host, path) {
            Some(moved) => seq![moved],
            None => seq![],
        }),
{
    let to = seq![(host, path)];
    assert(to.drop_last() =~= Seq::<(Seq<char>, Seq<char>)>::empty());
    assert(all_moved(url, to.drop_last()) =~= Seq::<Seq<char>>::empty());
}

/// An address of the web moves to a plain host and a path that is written as it is.
proof fn lemma_moves(url: Seq<char>, u: UrlModel, host: Seq<char>, path: Seq<char>)
    requires
        reads_as(url, u),
        is_kept(u),
        plain_host(host),
        readable_at(u, Some(host)),
        path.len() > 0,
        kept_path(path),
        forall|i: int| 0 <= i < path.len() ==> plain_in_paths(#[trigger] path[i]),
        path[0] == '/',
        u.host is Some,
        u.href.len() + host.len() - u.host->0.len() <= LAST_URL_POSITION,
        u.href.len() + host.len() - u.host->0.len() + path.len() - u.path.len()
            <= LAST_URL_POSITION,
    ensures
        ({
            let to = UrlModel { host: Some(host), path, ..u };
            &&& url_moved(url, host, path) == Some(written(to))
            &&& reads_as(written(to), UrlModel { href: written(to), ..to })
            &&& is_kept(UrlModel { href: written(to), ..to })
        }),
{
    reveal_strlit("");
    let parts = UrlModel { host: Some(host), ..u };
    let moved = UrlModel { href: written(parts), ..parts };
    assert(site_len(moved) == site_len(u) + host.len() - u.host->0.len());
    assert(is_kept(moved));
    assert(reads_as(moved.href, moved));
    let to = UrlModel { host: Some(host), path, ..u };
    let whole = UrlModel { href: written(to), ..to };
    assert(written(UrlModel { path, ..moved }) == written(to));
    assert(is_kept(whole));
}

/// An asset is mirrored at BMCLAPI, and from there at its official host.
proof fn lemma_assets(url: Seq<char>, u: UrlModel)
    requires
        asset_address(url),
        url_parsed(url) == Ok::<UrlModel, Seq<char>>(u),
        is_written(url_parsed(url)),
    ensures
        mirrored_both_ways(url, minecraft_candidates(url, url_parsed(url))),
{
    let official = "resources.download.minecraft.net"@;
    let bmclapi = BMCLAPI_HOST@;
    let inner = "/assets"@ + u.path;
    lemma_known_hosts();
    reveal_strlit("resources.download.minecraft.net");
    reveal_strlit("bmclapi2.bangbang93.com");
    reveal_strlit("files.minecraftforge.net");
    reveal_strlit("maven.minecraftforge.net");
    reveal_strlit("maven.neoforged.net");
    reveal_strlit("maven.fabricmc.net");
    reveal_strlit("maven.quiltmc.org");
    reveal_strlit("repo1.maven.org");
    reveal_strlit("repo.maven.apache.org");
    reveal_strlit("/assets");
    reveal_strlit("/maven");
    assert(reads_as(url, u));
    assert(made_of_names(Seq::<char>::empty()));
    assert(Seq::<char>::empty() + u.path =~= u.path);
    assert(kept_path(u.path));
    assert("/assets"@ =~= seq!['/', 'a', 's', 's', 'e', 't', 's']);
    assert(made_of_names("/assets"@));
    assert(kept_path(inner));
    assert(is_kept(u));
    lemma_moves(url, u, bmclapi, inner);
    let parts = UrlModel { host: Some(bmclapi), path: inner, ..u };
    let copy = UrlModel { href: written(parts), ..parts };
    lemma_one_moved(url, bmclapi, inner);
    let moved = seq![copy.href];
    distinct_begins(moved);
    distinct_keeps_texts(moved);
    assert(distinct(moved) =~= moved);
    assert(minecraft_candidates(url, url_parsed(url)) =~= seq![url, copy.href]);
    assert(readable_at(copy, Some(official)));
    lemma_moves(copy.href, copy, official, u.path);
    lemma_one_moved(copy.href, official, u.path);
    let back = UrlModel { host: Some(official), path: u.path, ..copy };
    assert(written(back) == written(u));
    assert(inner.subrange(0, 7) =~= "/assets"@);
    assert(inner.skip(7) =~= u.path);
    assert(inner[1] == 'a');
    if starts_with(inner, "/maven"@) {
        assert(inner.subrange(0, 6)[1] == inner[1]);
    }
    assert(minecraft_candidates(copy.href, url_parsed(copy.href)) =~= seq![copy.href, url]);
}

/// The hosts of the files of Minecraft are different ones.
proof fn lemma_hosts_differ()
    ensures
        "files.minecraftforge.net"@ != "maven.minecraftforge.net"@,
        "files.minecraftforge.net"@ != "maven.neoforged.net"@,
        "files.minecraftforge.net"@ != "maven.fabricmc.net"@,
        "files.minecraftforge.net"@ != "maven.quiltmc.org"@,
        "files.minecraftforge.net"@ != "repo1.maven.org"@,
        "files.minecraftforge.net"@ != "repo.maven.apache.org"@,
        "files.minecraftforge.net"@ != "resources.download.minecraft.net"@,
        "files.minecraftforge.net"@ != "libraries.minecraft.net"@,
        "files.minecraftforge.net"@ != "piston-data.mojang.com"@,
        "files.minecraftforge.net"@ != "piston-meta.mojang.com"@,
        "files.minecraftforge.net"@ != "launchermeta.mojang.com"@,
        "files.minecraftforge.net"@ != "launcher.mojang.com"@,
        "files.minecraftforge.net"@ != "bmclapi2.bangbang93.com"@,
        "maven.minecraftforge.net"@ != "maven.neoforged.net"@,
        "maven.minecraftforge.net"@ != "maven.fabricmc.net"@,
        "maven.minecraftforge.net"@ != "maven.quiltmc.org"@,
        "maven.minecraftforge.net"@ != "repo1.maven.org"@,
        "maven.minecraftforge.net"@ != "repo.maven.apache.org"@,
        "maven.minecraftforge.net"@ != "resources.download.minecraft.net"@,
        "maven.minecraftforge.net"@ != "libraries.minecraft.net"@,
        "maven.minecraftforge.net"@ != "piston-data.mojang.com"@,
        "maven.minecraftforge.net"@ != "piston-meta.mojang.com"@,
        "maven.minecraftforge.net"@ != "launchermeta.mojang.com"@,
        "maven.minecraftforge.net"@ != "launcher.mojang.com"@,
        "maven.minecraftforge.net"@ != "bmclapi2.bangbang93.com"@,
        "maven.neoforged.net"@ != "maven.fabricmc.net"@,
        "maven.neoforged.net"@ != "maven.quiltmc.org"@,
        "maven.neoforged.net"@ != "repo1.maven.org"@,
        "maven.neoforged.net"@ != "repo.maven.apache.org"@,
        "maven.neoforged.net"@ != "resources.download.minecraft.net"@,
        "maven.neoforged.net"@ != "libraries.minecraft.net"@,
        "maven.neoforged.net"@ != "piston-data.mojang.com"@,
        "maven.neoforged.net"@ != "piston-meta.mojang.com"@,
        "maven.neoforged.net"@ != "launchermeta.mojang.com"@,
        "maven.neoforged.net"@ != "launcher.mojang.com"@,
        "maven.neoforged.net"@ != "bmclapi2.bangbang93.com"@,
        "maven.fabricmc.net"@ != "maven.quiltmc.org"@,
        "maven.fabricmc.net"@ != "repo1.maven.org"@,
        "maven.fabricmc.net"@ != "repo.maven.apache.org"@,
        "maven.fabricmc.net"@ != "resources.download.minecraft.net"@,
        "maven.fabricmc.net"@ != "libraries.minecraft.net"@,
        "maven.fabricmc.net"@ != "piston-data.mojang.com"@,
        "maven.fabricmc.net"@ != "piston-meta.mojang.com"@,
        "maven.fabricmc.net"@ != "launchermeta.mojang.com"@,
        "maven.fabricmc.net"@ != "launcher.mojang.com"@,
        "maven.fabricmc.net"@ != "bmclapi2.bangbang93.com"@,
        "maven.quiltmc.org"@ != "repo1.maven.org"@,
        "maven.quiltmc.org"@ != "repo.maven.apache.org"@,
        "maven.quiltmc.org"@ != "resources.download.minecraft.net"@,
        "maven.quiltmc.org"@ != "libraries.minecraft.net"@,
        "maven.quiltmc.org"@ != "piston-data.mojang.com"@,
        "maven.quiltmc.org"@ != "piston-meta.mojang.com"@,
        "maven.quiltmc.org"@ != "launchermeta.mojang.com"@,
        "maven.quiltmc.org"@ != "launcher.mojang.com"@,
        "maven.quiltmc.org"@ != "bmclapi2.bangbang93.com"@,
        "repo1.maven.org"@ != "repo.maven.apache.org"@,
        "repo1.maven.org"@ != "resources.download.minecraft.net"@,
        "repo1.maven.org"@ != "libraries.minecraft.net"@,
        "repo1.maven.org"@ != "piston-data.mojang.com"@,
        "repo1.maven.org"@ != "piston-meta.mojang.com"@,
        "repo1.maven.org"@ != "launchermeta.mojang.com"@,
        "repo1.maven.org"@ != "launcher.mojang.com"@,
        "repo1.maven.org"@ != "bmclapi2.bangbang93.com"@,
        "repo.maven.apache.org"@ != "resources.download.minecraft.net"@,
        "repo.maven.apache.org"@ != "libraries.minecraft.net"@,
        "repo.maven.apache.org"@ != "piston-data.mojang.com"@,
        "repo.maven.apache.org"@ != "piston-meta.mojang.com"@,
        "repo.maven.apache.org"@ != "launchermeta.mojang.com"@,
        "repo.maven.apache.org"@ != "launcher.mojang.com"@,
        "repo.maven.apache.org"@ != "bmclapi2.bangbang93.com"@,
        "resources.download.minecraft.net"@ != "libraries.minecraft.net"@,
        "resources.download.minecraft.net"@ != "piston-data.mojang.com"@,
        "resources.download.minecraft.net"@ != "piston-meta.mojang.com"@,
        "resources.download.minecraft.net"@ != "launchermeta.mojang.com"@,
        "resources.download.minecraft.net"@ != "launcher.mojang.com"@,
        "resources.download.minecraft.net"@ != "bmclapi2.bangbang93.com"@,
        "libraries.minecraft.net"@ != "piston-data.mojang.com"@,
        "libraries.minecraft.net"@ != "piston-meta.mojang.com"@,
        "libraries.minecraft.net"@ != "launchermeta.mojang.com"@,
        "libraries.minecraft.net"@ != "launcher.mojang.com"@,
        "libraries.minecraft.net"@ != "bmclapi2.bangbang93.com"@,
        "piston-data.mojang.com"@ != "piston-meta.mojang.com"@,
        "piston-data.mojang.com"@ != "launchermeta.mojang.com"@,
        "piston-data.mojang.com"@ != "launcher.mojang.com"@,
        "piston-data.mojang.com"@ != "bmclapi2.bangbang93.com"@,
        "piston-meta.mojang.com"@ != "launchermeta.mojang.com"@,
        "piston-meta.mojang.com"@ != "launcher.mojang.com"@,
        "piston-meta.mojang.com"@ != "bmclapi2.bangbang93.com"@,
        "launchermeta.mojang.com"@ != "launcher.mojang.com"@,
        "launchermeta.mojang.com"@ != "bmclapi2.bangbang93.com"@,
        "launcher.mojang.com"@ != "bmclapi2.bangbang93.com"@,
{
    reveal_strlit("files.minecraftforge.net");
    reveal_strlit("maven.minecraftforge.net");
    reveal_strlit("maven.neoforged.net");
    reveal_strlit("maven.fabricmc.net");
    reveal_strlit("maven.quiltmc.org");
    reveal_strlit("repo1.maven.org");
    reveal_strlit("repo.maven.apache.org");
    reveal_strlit("resources.download.minecraft.net");
    reveal_strlit("libraries.minecraft.net");
    reveal_strlit("piston-data.mojang.com");
    reveal_strlit("piston-meta.mojang.com");
    reveal_strlit("launchermeta.mojang.com");
    reveal_strlit("launcher.mojang.com");
    reveal_strlit("bmclapi2.bangbang93.com");
    assert("files.minecraftforge.net"@.len() == 24);
    assert("maven.minecraftforge.net"@.len() == 24);
    assert("maven.neoforged.net"@.len() == 19);
    assert("maven.fabricmc.net"@.len() == 18);
    assert("maven.quiltmc.org"@.len() == 17);
    assert("repo1.maven.org"@.len() == 15);
    assert("repo.maven.apache.org"@.len() == 21);
    assert("resources.download.minecraft.net"@.len() == 32);
    assert("libraries.minecraft.net"@.len() == 23);
    assert("piston-data.mojang.com"@.len() == 22);
    assert("piston-meta.mojang.com"@.len() == 22);
    assert("launchermeta.mojang.com"@.len() == 23);
    assert("launcher.mojang.com"@.len() == 19);
    assert("bmclapi2.bangbang93.com"@.len() == 23);
    assert("files.minecraftforge.net"@[0] != "maven.minecraftforge.net"@[0]);
    assert("maven.neoforged.net"@[0] != "launcher.mojang.com"@[0]);
    assert("libraries.minecraft.net"@[1] != "launchermeta.mojang.com"@[1]);
    assert("libraries.minecraft.net"@[0] != "bmclapi2.bangbang93.com"@[0]);
    assert("piston-data.mojang.com"@[7] != "piston-meta.mojang.com"@[7]);
    assert("launchermeta.mojang.com"@[0] != "bmclapi2.bangbang93.com"@[0]);
}

/// A host of Mojang that serves descriptions, clients or launchers.
pub open spec fn mojang_host(host: Seq<char>) -> bool {
    host == "piston-data.mojang.com"@ || host == "piston-meta.mojang.com"@ || host
        == "launchermeta.mojang.com"@ || host == "launcher.mojang.com"@
}

/// A repository whose paths are those of its files: they stand in the Maven tree of the mirror.
pub open spec fn maven_host(host: Seq<char>) -> bool {
    host == "maven.minecraftforge.net"@ || host == "maven.fabricmc.net"@ || host
        == "maven.quiltmc.org"@ || host == "repo1.maven.org"@ || host == "repo.maven.apache.org"@
}

/// Every official file has its copies at BMCLAPI alone: the files of Mojang's own hosts at the same
/// path, the files of Maven repositories in its Maven tree, assets in its tree of assets, and
/// libraries in two trees. A file of another host has no copy.
pub proof fn official_files_have_their_place_on_the_mirror(host: Seq<char>, path: Seq<char>)
    ensures
        ({
            let bmclapi = "bmclapi2.bangbang93.com"@;
            let plan = mirror_plan_of(host, path);
            let copies = (plan->0).0;
            let official = mojang_host(host) || maven_host(host) || host
                == "files.minecraftforge.net"@ || host == "maven.neoforged.net"@ || host
                == "resources.download.minecraft.net"@ || host == "libraries.minecraft.net"@;
            &&& official ==> plan is Some && (plan->0).1 == Joining::RewritesDistinct
            &&& official && host != "libraries.minecraft.net"@ ==> copies.len() == 1 && copies[0].0
                == bmclapi
            &&& mojang_host(host) ==> copies[0].1 == path
            &&& maven_host(host) ==> copies[0].1 == "/maven"@ + path
            &&& host == "resources.download.minecraft.net"@ ==> copies[0].1 == "/assets"@ + path
            &&& host == "libraries.minecraft.net"@ ==> copies == seq![
                (bmclapi, "/maven"@ + path),
                (bmclapi, "/libraries"@ + path),
            ]
            &&& !official && host != bmclapi ==> plan is None
        }),
{
    lemma_hosts_differ();
    if host == "libraries.minecraft.net"@ {
        assert((mirror_plan_of(host, path)->0).0 =~= seq![
            ("bmclapi2.bangbang93.com"@, "/maven"@ + path),
            ("bmclapi2.bangbang93.com"@, "/libraries"@ + path),
        ]);
    }
}

/// A repository with a tree of its own has that tree in the Maven tree of the mirror: a file of Forge
/// stands at the same path, one of NeoForge under `maven` in place of `releases`.
pub proof fn trees_of_repositories_stand_in_the_maven_tree(inner: Seq<char>)
    ensures
        (mirror_plan_of("files.minecraftforge.net"@, "/maven"@ + inner)->0).0 == seq![
            ("bmclapi2.bangbang93.com"@, "/maven"@ + inner),
        ],
        (mirror_plan_of("maven.neoforged.net"@, "/releases"@ + inner)->0).0 == seq![
            ("bmclapi2.bangbang93.com"@, "/maven"@ + inner),
        ],
        !starts_with(inner, "/maven"@) ==> (mirror_plan_of("files.minecraftforge.net"@, inner)->0).0
            == seq![("bmclapi2.bangbang93.com"@, "/maven"@ + inner)],
        !starts_with(inner, "/releases"@) ==> (mirror_plan_of("maven.neoforged.net"@, inner)->0).0
            == seq![("bmclapi2.bangbang93.com"@, "/maven"@ + inner)],
{
    lemma_hosts_differ();
    prefixes_are_taken_off(inner, "/maven"@);
    prefixes_are_taken_off(inner, "/releases"@);
}

/// A file belongs to one group at most.
proof fn lemma_one_group(inner: Seq<char>)
    ensures
        starts_with(inner, "/net/minecraftforge/"@) ==> inner[5] == 'm',
        starts_with(inner, "/net/neoforged/"@) ==> inner[5] == 'n',
        starts_with(inner, "/net/fabricmc/"@) ==> inner[5] == 'f',
        starts_with(inner, "/org/quiltmc/"@) ==> inner[5] == 'q',
{
    reveal_strlit("/net/minecraftforge/");
    reveal_strlit("/net/neoforged/");
    reveal_strlit("/net/fabricmc/");
    reveal_strlit("/org/quiltmc/");
    assert("/net/minecraftforge/"@.len() == 20 && "/net/neoforged/"@.len() == 15);
    assert("/net/fabricmc/"@.len() == 14 && "/org/quiltmc/"@.len() == 13);
    if starts_with(inner, "/net/minecraftforge/"@) {
        assert(inner.subrange(0, 20)[5] == inner[5]);
    }
    if starts_with(inner, "/net/neoforged/"@) {
        assert(inner.subrange(0, 15)[5] == inner[5]);
    }
    if starts_with(inner, "/net/fabricmc/"@) {
        assert(inner.subrange(0, 14)[5] == inner[5]);
    }
    if starts_with(inner, "/org/quiltmc/"@) {
        assert(inner.subrange(0, 13)[5] == inner[5]);
    }
}

/// A file in the Maven tree of the mirror falls back on the repository that holds its group: Forge's,
/// NeoForge's, Fabric's, Quilt's, or else that of the libraries.
pub proof fn maven_files_fall_back_on_their_repository(inner: Seq<char>)
    ensures
        ({
            let maven = mirror_plan_of("bmclapi2.bangbang93.com"@, "/maven"@ + inner);
            let origins = (maven->0).0;
            let forge = starts_with(inner, "/net/minecraftforge/"@);
            let neoforge = starts_with(inner, "/net/neoforged/"@);
            let fabric = starts_with(inner, "/net/fabricmc/"@);
            let quilt = starts_with(inner, "/org/quiltmc/"@);
            &&& maven is Some && (maven->0).1 == Joining::AllDistinct
            &&& forge ==> origins == seq![
                ("files.minecraftforge.net"@, "/maven"@ + inner),
                ("maven.minecraftforge.net"@, inner),
            ]
            &&& neoforge ==> origins == seq![("maven.neoforged.net"@, "/releases"@ + inner)]
            &&& fabric ==> origins == seq![("maven.fabricmc.net"@, inner)]
            &&& quilt ==> origins == seq![("maven.quiltmc.org"@, "/repository/release"@ + inner)]
            &&& !forge && !neoforge && !fabric && !quilt ==> origins == seq![
                ("libraries.minecraft.net"@, inner),
            ]
        }),
{
    prefixes_are_taken_off(inner, "/maven"@);
    lemma_one_group(inner);
}

/// An asset of the mirror falls back on the host of assets. What the mirror holds beside its Maven
/// tree and its assets has no copy.
pub proof fn assets_fall_back_on_their_host(inner: Seq<char>, path: Seq<char>)
    ensures
        mirror_plan_of("bmclapi2.bangbang93.com"@, "/assets"@ + inner) == Some(
            (seq![("resources.download.minecraft.net"@, inner)], Joining::Plain),
        ),
        !starts_with(path, "/maven"@) && !starts_with(path, "/assets"@) ==> mirror_plan_of(
            "bmclapi2.bangbang93.com"@,
            path,
        ) is None,
{
    lemma_hosts_differ();
    prefixes_are_taken_off(inner, "/assets"@);
    let asset = "/assets"@ + inner;
    assert(!starts_with(asset, "/maven"@)) by {
        reveal_strlit("/maven");
        reveal_strlit("/assets");
        if starts_with(asset, "/maven"@) {
            assert(asset.subrange(0, 6)[1] == asset[1]);
        }
    }
}

/// The candidates for a file are its address and its copies: the address as it was given first, then
/// the address moved to every place where a copy stands, in order and each once.
pub proof fn candidates_are_the_address_and_its_copies(
    url: Seq<char>,
    u: UrlModel,
    first: (Seq<char>, Seq<char>),
    second: (Seq<char>, Seq<char>),
    joining: Joining,
)
    requires
        u.host is Some,
    ensures
        mirror_plan_of(u.host->0, u.path) is None ==> minecraft_candidates(
            url,
            Ok::<UrlModel, Seq<char>>(u),
        ) == seq![url],
        mirror_plan_of(u.host->0, u.path) == Some((seq![first], joining)) ==> (url_moved(
            url,
            first.0,
            first.1,
        ) matches Some(copy) ==> copy != url ==> minecraft_candidates(
            url,
            Ok::<UrlModel, Seq<char>>(u),
        ) == seq![url, copy]),
        mirror_plan_of(u.host->0, u.path) == Some((seq![first, second], joining)) ==> (url_moved(
            url,
            first.0,
            first.1,
        ) matches Some(copy) ==> (url_moved(url, second.0, second.1) matches Some(other) ==> copy
            != url && other != url && copy != other ==> minecraft_candidates(
            url,
            Ok::<UrlModel, Seq<char>>(u),
        ) == seq![url, copy, other])),
{
    lemma_one_moved(url, first.0, first.1);
    let both = seq![first, second];
    assert(both.drop_last() =~= seq![first]);
    if let Some(copy) = url_moved(url, first.0, first.1) {
        assert(all_moved(url, seq![first]) =~= seq![copy]);
        let one = seq![copy];
        let given = seq![url] + one;
        if copy != url {
            assert(one.no_duplicates());
            assert(given.no_duplicates());
            distinct_does_not_reorder(one, 1);
            distinct_does_not_reorder(given, 2);
            assert(given =~= seq![url, copy]);
        }
        if let Some(other) = url_moved(url, second.0, second.1) {
            let two = seq![copy, other];
            assert(all_moved(url, both) =~= two);
            let all = seq![url] + two;
            if copy != url && other != url && copy != other {
                assert(two.no_duplicates());
                assert(all.no_duplicates());
                distinct_does_not_reorder(two, 2);
                distinct_does_not_reorder(all, 3);
                assert(all =~= seq![url, copy, other]);
            }
        }
    }
}

/// A candidate is read as an address at a host and a path, with all else that another address has.
pub open spec fn same_but_for_its_place(
    candidate: Seq<char>,
    u: UrlModel,
    host: Seq<char>,
    path: Seq<char>,
) -> bool {
    url_parsed(candidate) matches Ok(v) && v.host == Some(host) && v.path == path && v.scheme
        == u.scheme && v.username == u.username && v.password == u.password && v.port == u.port
        && v.query == u.query && v.fragment == u.fragment
}

/// The candidates for a file of an official host, by the parts of their addresses: the address itself
/// and its copy at BMCLAPI, of which only the host differs, or the host and the tree in front of the
/// path. Addresses are left out that are not as addresses are written down, and those with a position
/// that could not be counted.
pub open spec fn are_copies_of_official_file(url: Seq<char>, candidates: Seq<Seq<char>>) -> bool {
    url_parsed(url) matches Ok(u) ==> web_address(u) && u.href == url && url.len() + 64
        <= LAST_URL_POSITION && u.host is Some ==> {
        let host = u.host->0;
        let bmclapi = "bmclapi2.bangbang93.com"@;
        &&& mojang_host(host) ==> candidates.len() == 2 && candidates[0] == url
            && same_but_for_its_place(candidates[1], u, bmclapi, u.path)
        &&& maven_host(host) ==> candidates.len() == 2 && candidates[0] == url
            && same_but_for_its_place(candidates[1], u, bmclapi, "/maven"@ + u.path)
        &&& host == "resources.download.minecraft.net"@ ==> candidates.len() == 2 && candidates[0]
            == url && same_but_for_its_place(candidates[1], u, bmclapi, "/assets"@ + u.path)
        &&& host == "libraries.minecraft.net"@ ==> candidates.len() == 3 && candidates[0] == url
            && same_but_for_its_place(candidates[1], u, bmclapi, "/maven"@ + u.path)
            && same_but_for_its_place(candidates[2], u, bmclapi, "/libraries"@ + u.path)
    }
}

/// An address of the web moved to BMCLAPI, into a tree or to the same path, is another one, and is
/// read with all else that it had.
proof fn lemma_copy(url: Seq<char>, u: UrlModel, tree: Seq<char>)
    requires
        reads_as(url, u),
        is_written(url_parsed(url)),
        u.href == url,
        u.host is Some,
        u.host != Some("bmclapi2.bangbang93.com"@),
        made_of_names(tree),
        tree.len() <= 16,
        url.len() + 64 <= LAST_URL_POSITION,
    ensures
        url_moved(url, "bmclapi2.bangbang93.com"@, tree + u.path) matches Some(copy) && copy != url
            && same_but_for_its_place(copy, u, "bmclapi2.bangbang93.com"@, tree + u.path),
{
    let bmclapi = "bmclapi2.bangbang93.com"@;
    let path = tree + u.path;
    lemma_known_hosts();
    reveal_strlit("bmclapi2.bangbang93.com");
    assert(kept_path(path));
    assert(Seq::<char>::empty() + u.path =~= u.path);
    assert(made_of_names(Seq::<char>::empty()));
    assert(kept_path(u.path));
    assert(is_kept(u));
    assert forall|i: int| 0 <= i < path.len() implies plain_in_paths(#[trigger] path[i]) by {
        if i < tree.len() {
            assert(tree[i] == path[i]);
        } else {
            assert(u.path[i - tree.len()] == path[i]);
        }
    }
    lemma_moves(url, u, bmclapi, path);
    let parts = UrlModel { host: Some(bmclapi), path, ..u };
    assert(reads_as(written(parts), UrlModel { href: written(parts), ..parts }));
}

/// The candidates for an official file are the file and its copies.
proof fn lemma_copies_of_official_file(url: Seq<char>)
    requires
        is_written(url_parsed(url)),
    ensures
        are_copies_of_official_file(url, minecraft_candidates(url, url_parsed(url))),
{
    if let Ok(u) = url_parsed(url) {
        if web_address(u) && u.href == url && url.len() + 64 <= LAST_URL_POSITION && u.host is Some {
            let host = u.host->0;
            let bmclapi = "bmclapi2.bangbang93.com"@;
            lemma_hosts_differ();
            official_files_have_their_place_on_the_mirror(host, u.path);
            reveal_strlit("/maven");
            reveal_strlit("/assets");
            reveal_strlit("/libraries");
            assert("/maven"@ =~= seq!['/', 'm', 'a', 'v', 'e', 'n']);
            assert("/assets"@ =~= seq!['/', 'a', 's', 's', 'e', 't', 's']);
            assert("/libraries"@ =~= seq!['/', 'l', 'i', 'b', 'r', 'a', 'r', 'i', 'e', 's']);
            assert(reads_as(url, u));
            let none = Seq::<char>::empty();
            assert(none + u.path =~= u.path);
            let official = mojang_host(host) || maven_host(host) || host
                == "resources.download.minecraft.net"@ || host == "libraries.minecraft.net"@;
            if official {
                assert(host != bmclapi);
                let tree = if mojang_host(host) {
                    none
                } else if host == "resources.download.minecraft.net"@ {
                    "/assets"@
                } else {
                    "/maven"@
                };
                let plan = mirror_plan_of(host, u.path);
                lemma_copy(url, u, tree);
                lemma_copy(url, u, "/libraries"@);
                let first = (bmclapi, tree + u.path);
                let second = (bmclapi, "/libraries"@ + u.path);
                candidates_are_the_address_and_its_copies(url, u, first, second, (plan->0).1);
                if host == "libraries.minecraft.net"@ {
                    assert((plan->0).0 =~= seq![first, second]);
                    let a = url_moved(url, first.0, first.1)->0;
                    let b = url_moved(url, second.0, second.1)->0;
                    assert(first.1[1] == 'm' && second.1[1] == 'l');
                    assert(a != b);
                } else {
                    assert((plan->0).0 =~= seq![first]);
                }
            }
        }
    }
}

/// The addresses to try for a file of Minecraft, in order: the given address, then its copies.
/// A file of BMCLAPI falls back on the repository that it mirrors. An asset at its official host
/// has one copy at BMCLAPI, from where it falls back on the official host.
pub fn minecraft_download_candidates(url: &str) -> (r: Vec<String>)
    ensures
        texts(r@) == minecraft_candidates(url@, url_parsed(url@)),
        asset_address(url@) ==> mirrored_both_ways(url@, texts(r@)),
        are_copies_of_official_file(url@, texts(r@)),
{
    let parsed = match parse_url(url) {
        Ok(parsed) => parsed,
        Err(_) => {
            return only(url);
        },
    };
    let host = match &parsed.host {
        Some(host) => host,
        None => {
            return only(url);
        },
    };
    proof {
        lemma_plan_hosts(host@, parsed.path@);
        lemma_copies_of_official_file(url@);
        if asset_address(url@) {
            lemma_assets(url@, parsed@);
        }
    }
    let plan = match mirror_plan(host.as_str(), parsed.path.as_str()) {
        Some(plan) => plan,
        None => {
            return only(url);
        },
    };
    let ghost to = rewrite_views(plan.rewrites@);
    assert forall|j: int| 0 <= j < to.len() implies plain_host((#[trigger] to[j]).0) by {
        let known = mirror_plan_of(host@, parsed.path@)->0;
        assert(known.0 == to);
        assert(plain_host(known.0[j].0));
    }
    let mut moved: Vec<String> = Vec::new();
    let mut i: usize = 0;
    assert(texts(moved@) =~= all_moved(url@, to.take(0)));
    while i < plan.rewrites.len()
        invariant
            i <= plan.rewrites.len(),
            to == rewrite_views(plan.rewrites@),
            forall|j: int| 0 <= j < to.len() ==> plain_host((#[trigger] to[j]).0),
            texts(moved@) == all_moved(url@, to.take(i as int)),
        decreases plan.rewrites.len() - i,
    {
        let target = &plan.rewrites[i];
        let ghost so_far = texts(moved@);
        assert(to[i as int] == rewrite_view(*target));
        assert(to.take(i + 1).drop_last() =~= to.take(i as int));
        if let Some(candidate) = move_url(url, target.host.as_str(), target.path.as_str()) {
            moved.push(candidate);
            assert(texts(moved@) =~= so_far.push(candidate@));
        }
        i += 1;
    }
    assert(to.take(to.len() as int) =~= to);
    join_candidates(url, &moved, plan.joining)
}

/// The given address is tried first.
pub proof fn minecraft_candidates_begin_with_the_given_address(
    url: Seq<char>,
    parsed: Result<UrlModel, Seq<char>>,
)
    ensures
        minecraft_candidates(url, parsed).len() > 0,
        minecraft_candidates(url, parsed)[0] == url,
{
    if parsed is Ok && parsed->Ok_0.host is Some {
        if let Some((rewrites, joining)) = mirror_plan_of(parsed->Ok_0.host->0, parsed->Ok_0.path) {
            distinct_begins(seq![url] + all_moved(url, rewrites));
        }
    }
}

/// Every candidate for a GitHub address is listed once; the mirror comes first where there is
/// one, and the direct address is always among them.
pub proof fn github_candidates_try_the_mirror_first(url: Seq<char>)
    requires
        names_github(url),
    ensures
        github_candidates(url).no_duplicates(),
        github_candidates(url).len() > 0,
        github_candidates(url).contains("https://"@ + github_path(url)),
        gitee_of("https://"@ + github_path(url)) matches Some(gitee) ==> github_candidates(url)[0]
            == gitee,
{
    let routes = github_routes(url);
    let direct = "https://"@ + github_path(url);
    distinct_keeps_texts(routes);
    assert(routes[routes.len() - 1] == direct);
    assert(routes.contains(direct));
    distinct_begins(routes);
}

/// A GitHub address is tried, in this order, at its Gitee mirror where it has one, behind the first
/// proxy, behind the second one, and directly. The proxies and the direct address have one path.
pub proof fn github_addresses_are_tried_in_order(url: Seq<char>)
    requires
        names_github(url),
    ensures
        ({
            let path = github_path(url);
            let routes = seq![
                "https://v4.gh-proxy.org/https://"@ + path,
                "https://cdn.gh-proxy.org/https://"@ + path,
                "https://"@ + path,
            ];
            match gitee_of("https://"@ + path) {
                Some(gitee) => github_candidates(url) == seq![gitee] + routes,
                None => github_candidates(url) == routes,
            }
        }),
{
    reveal_strlit("https://v4.gh-proxy.org/https://");
    reveal_strlit("https://cdn.gh-proxy.org/https://");
    reveal_strlit("https://");
    let path = github_path(url);
    let v4 = "https://v4.gh-proxy.org/https://"@ + path;
    let cdn = "https://cdn.gh-proxy.org/https://"@ + path;
    let direct = "https://"@ + path;
    let routes = github_routes(url);
    assert(v4[8] == 'v' && cdn[8] == 'c');
    assert(v4.len() == 32 + path.len() && cdn.len() == 33 + path.len() && direct.len() == 8
        + path.len());
    if let Some(gitee) = gitee_of(direct) {
        lemma_gitee_is_elsewhere(direct, gitee);
        assert(gitee[8] == 'g');
        assert(routes =~= seq![gitee, v4, cdn, direct]);
        assert(routes.no_duplicates());
    } else {
        assert(routes =~= seq![v4, cdn, direct]);
        assert(routes.no_duplicates());
    }
    distinct_does_not_reorder(routes, 0);
}

/// A Gitee mirror is not at GitHub.
proof fn lemma_gitee_is_elsewhere(direct: Seq<char>, gitee: Seq<char>)
    requires
        gitee_of(direct) == Some(gitee),
    ensures
        gitee.len() > 11,
        gitee[8] == 'g',
        gitee != direct,
{
    reveal_strlit("https://gitee.com/");
    reveal_strlit("https://github.com/");
    reveal_strlit("https://raw.githubusercontent.com/");
    prefixes_are_taken_off(direct, "https://raw.githubusercontent.com/"@);
    prefixes_are_taken_off(direct, "https://github.com/"@);
    assert(gitee[11] == 'e');
    assert("https://github.com/"@[11] == 'h' && "https://raw.githubusercontent.com/"@[8] == 'r');
}

/// The mirrored account has the pages of its repositories, and the files of their branches, on Gitee
/// under the mirroring account. No other account has.
pub proof fn mirrored_repositories_are_on_gitee(
    owner: Seq<char>,
    repo: Seq<char>,
    branch: Seq<char>,
    path: Seq<char>,
    other: Seq<char>,
)
    requires
        !holds(owner, '/'),
        !holds(repo, '/'),
        !holds(branch, '/'),
    ensures
        gitee_of("https://github.com/"@ + owner + "/"@ + repo + "/"@ + path) == (if owner
            == "Muzimi-ciallo"@ {
            Some("https://gitee.com/Muzimimiao/"@ + repo + "/"@ + path)
        } else {
            None
        }),
        gitee_of(
            "https://raw.githubusercontent.com/"@ + owner + "/"@ + repo + "/"@ + branch + "/"@ + path,
        ) == (if owner == "Muzimi-ciallo"@ {
            Some("https://gitee.com/Muzimimiao/"@ + repo + "/raw/"@ + branch + "/"@ + path)
        } else {
            None
        }),
        !starts_with(other, "https://github.com/"@) && !starts_with(
            other,
            "https://raw.githubusercontent.com/"@,
        ) ==> gitee_of(other) is None,
{
    reveal_strlit("/");
    reveal_strlit("https://github.com/");
    reveal_strlit("https://raw.githubusercontent.com/");
    reveal_strlit("https://gitee.com/Muzimimiao/");
    reveal_strlit("https://gitee.com/");
    reveal_strlit("Muzimimiao");
    assert("https://gitee.com/Muzimimiao/"@ =~= "https://gitee.com/"@ + "Muzimimiao"@ + "/"@);
    let page = repo + "/"@ + path;
    let rest = owner + "/"@ + page;
    let whole = "https://github.com/"@ + owner + "/"@ + repo + "/"@ + path;
    assert(whole =~= "https://github.com/"@ + rest);
    prefixes_are_taken_off(rest, "https://github.com/"@);
    prefixes_are_taken_off(whole, "https://raw.githubusercontent.com/"@);
    assert(whole[8] == 'g' && "https://raw.githubusercontent.com/"@[8] == 'r');
    texts_are_parted_at_the_first_mark(owner, "/"@, page);
    texts_are_parted_at_the_first_mark(repo, "/"@, path);
    let inner = branch + "/"@ + path;
    let raw_page = repo + "/"@ + inner;
    let raw_rest = owner + "/"@ + raw_page;
    let raw = "https://raw.githubusercontent.com/"@ + owner + "/"@ + repo + "/"@ + branch + "/"@ + path;
    assert(raw =~= "https://raw.githubusercontent.com/"@ + raw_rest);
    prefixes_are_taken_off(raw_rest, "https://raw.githubusercontent.com/"@);
    texts_are_parted_at_the_first_mark(owner, "/"@, raw_page);
    texts_are_parted_at_the_first_mark(repo, "/"@, inner);
    texts_are_parted_at_the_first_mark(branch, "/"@, path);
    if owner == "Muzimi-ciallo"@ {
        assert(gitee_of(whole)->0 =~= "https://gitee.com/Muzimimiao/"@ + repo + "/"@ + path);
        assert(gitee_of(raw)->0 =~= "https://gitee.com/Muzimimiao/"@ + repo + "/raw/"@ + branch
            + "/"@ + path);
    }
}

/// What a text holds up to the first character that ends the part with the host.
proof fn lemma_authority(front: Seq<char>, back: Seq<char>)
    requires
        forall|i: int| 0 <= i < front.len() ==> !ends_authority(#[trigger] front[i]),
        back.len() > 0 ==> ends_authority(back[0]),
    ensures
        authority_of(front + back) == front,
    decreases front.len(),
{
    let s = front + back;
    if front.len() > 0 {
        assert(s[0] == front[0]);
        assert(s.skip(1) =~= front.skip(1) + back);
        assert forall|i: int| 0 <= i < front.skip(1).len() implies !ends_authority(
            #[trigger] front.skip(1)[i],
        ) by {
            assert(front.skip(1)[i] == front[i + 1]);
        }
        lemma_authority(front.skip(1), back);
        assert(front =~= seq![front[0]] + front.skip(1));
    } else {
        assert(s =~= back);
        assert(front =~= Seq::<char>::empty());
    }
}

/// The host that an address without its scheme names stands in front of the first slash, question
/// mark, number sign or backslash, behind who asks, and in front of the port.
pub proof fn hosts_are_named_before_the_path(host: Seq<char>, user: Seq<char>, port: Seq<char>, back: Seq<char>)
    requires
        forall|i: int| 0 <= i < host.len() ==> plain_in_hosts(#[trigger] host[i]),
        forall|i: int| 0 <= i < user.len() ==> !ends_authority(#[trigger] user[i]),
        forall|i: int| 0 <= i < port.len() ==> is_digit(#[trigger] port[i]),
        back.len() > 0 ==> ends_authority(back[0]),
    ensures
        host_named(host + back) == host,
        host_named(host + ":"@ + port + back) == host,
        host_named(user + "@"@ + host + back) == host,
        host_named(user + "@"@ + host + ":"@ + port + back) == host,
{
    reveal_strlit(":");
    reveal_strlit("@");
    let place = host + ":"@ + port;
    assert(!holds(host, ':')) by {
        if holds(host, ':') {
            let i = choose|i: int| 0 <= i < host.len() && #[trigger] host[i] == ':';
            assert(plain_in_hosts(host[i]));
        }
    }
    texts_are_parted_at_the_first_mark(host, ":"@, port);
    assert forall|i: int| 0 <= i < place.len() implies !ends_authority(#[trigger] place[i]) && place[i]
        != '@' by {
        if i < host.len() {
            assert(plain_in_hosts(host[i]));
        } else if i > host.len() {
            assert(is_digit(port[i - host.len() - 1]));
        }
    }
    assert forall|i: int| 0 <= i < host.len() implies !ends_authority(#[trigger] host[i]) && host[i]
        != '@' by {
        assert(plain_in_hosts(host[i]));
    }
    lemma_authority(host, back);
    lemma_authority(place, back);
    lemma_no_mark(host, "@"@);
    lemma_no_mark(place, "@"@);
    let first = user + "@"@ + host;
    let second = user + "@"@ + place;
    assert forall|i: int| 0 <= i < first.len() implies !ends_authority(#[trigger] first[i]) by {
        if i < user.len() {
            assert(first[i] == user[i]);
        } else if i > user.len() {
            assert(first[i] == host[i - user.len() - 1]);
        }
    }
    assert forall|i: int| 0 <= i < second.len() implies !ends_authority(#[trigger] second[i]) by {
        if i < user.len() {
            assert(second[i] == user[i]);
        } else if i > user.len() {
            assert(second[i] == place[i - user.len() - 1]);
        }
    }
    lemma_authority(first, back);
    lemma_authority(second, back);
    assert(user + "@"@ + host + ":"@ + port + back =~= second + back);
    lemma_last_mark(user, "@"@, host);
    lemma_last_mark(user, "@"@, place);
}

proof fn lemma_no_mark(s: Seq<char>, mark: Seq<char>)
    requires
        mark.len() == 1,
        !holds(s, mark[0]),
    ensures
        parted_at_last(s, mark) is None,
{
    parts_make_up_the_text(s, mark);
}

proof fn lemma_last_mark(front: Seq<char>, mark: Seq<char>, back: Seq<char>)
    requires
        mark.len() == 1,
        !holds(back, mark[0]),
    ensures
        parted_at_last(front + mark + back, mark) == Some((front, back)),
{
    let s = front + mark + back;
    let at = front.len() as int;
    assert(s[at] == mark[0]);
    parts_make_up_the_text(s, mark);
    assert(holds(s, mark[0]));
    let (f, b) = parted_at_last(s, mark)->0;
    if f.len() < at {
        assert(b[at - f.len() - 1] == s[at]);
    } else if f.len() > at {
        assert(s[f.len() as int] == mark[0]);
        assert(back[f.len() - at - 1] == s[f.len() as int]);
    }
    assert(f =~= s.take(at) && front =~= s.take(at));
    assert(b =~= s.skip(at + 1) && back =~= s.skip(at + 1));
}

/// GitHub's hosts are `github.com`, what ends in `.github.com`, and the host of raw files, no others.
pub proof fn github_is_told_by_its_host(host: Seq<char>, below: Seq<char>)
    requires
        host.len() == 0 || host.last() != '.',
    ensures
        github_host("github.com"@),
        github_host("raw.githubusercontent.com"@),
        github_host(below + ".github.com"@),
        github_host(host + "."@) == github_host(host),
        github_host(host) ==> host == "github.com"@ || host == "raw.githubusercontent.com"@ || exists|
            front: Seq<char>,
        | host == #[trigger] (front + ".github.com"@),
{
    reveal_strlit("github.com");
    reveal_strlit("raw.githubusercontent.com");
    reveal_strlit(".github.com");
    reveal_strlit(".");
    let sub = below + ".github.com"@;
    assert(sub.last() == 'm');
    assert(sub.subrange(sub.len() - 11, sub.len() as int) =~= ".github.com"@);
    assert("github.com"@.last() == 'm' && "raw.githubusercontent.com"@.last() == 'm');
    assert((host + "."@).drop_last() =~= host);
    if github_host(host) && ends_with(host, ".github.com"@) {
        let front = host.take(host.len() - 11);
        assert(host =~= front + ".github.com"@) by {
            assert(host.subrange(host.len() - 11, host.len() as int) == ".github.com"@);
            assert forall|k: int| 0 <= k < 11 implies host[host.len() - 11 + k] == ".github.com"@[k] by {
                assert(host.subrange(host.len() - 11, host.len() as int)[k] == host[host.len() - 11 + k]);
            }
        }
    }
}

/// Stripping the proxy from an address that was put behind one gives the address back.
pub proof fn stripping_undoes_proxying(path: Seq<char>)
    ensures
        without_gh_proxy(GH_PROXY_V4@ + path) == path,
        without_gh_proxy(GH_PROXY_CDN@ + path) == path,
{
    reveal_strlit("https://v4.gh-proxy.org/https://");
    reveal_strlit("https://cdn.gh-proxy.org/https://");
    let first = GH_PROXY_V4@ + path;
    let second = GH_PROXY_CDN@ + path;
    assert(first.subrange(0, GH_PROXY_V4@.len() as int) =~= GH_PROXY_V4@);
    assert(first.skip(GH_PROXY_V4@.len() as int) =~= path);
    assert(second.subrange(0, GH_PROXY_CDN@.len() as int) =~= GH_PROXY_CDN@);
    assert(second.skip(GH_PROXY_CDN@.len() as int) =~= path);
    if starts_with(second, GH_PROXY_V4@) {
        assert(second.subrange(0, GH_PROXY_V4@.len() as int)[8] == second[8]);
        assert(GH_PROXY_V4@[8] == 'v');
        assert(second[8] == 'c');
    }
}

/// A GitHub address is tried from the same addresses whether it was given directly or behind a
/// proxy.
pub proof fn proxied_addresses_have_the_same_candidates(path: Seq<char>)
    requires
        github_host(host_named(behind_scheme(trimmed(path)))),
        without_gh_proxy("https://"@ + path) == "https://"@ + path,
    ensures
        github_candidates(GH_PROXY_V4@ + path) == github_candidates("https://"@ + path),
        github_candidates(GH_PROXY_CDN@ + path) == github_candidates("https://"@ + path),
{
    stripping_undoes_proxying(path);
    reveal_strlit("https://v4.gh-proxy.org/https://");
    reveal_strlit("https://cdn.gh-proxy.org/https://");
    reveal_strlit("https://");
    let direct = "https://"@ + path;
    assert((GH_PROXY_V4@ + path).len() != path.len());
    assert((GH_PROXY_CDN@ + path).len() != path.len());
    assert(direct.subrange(0, 8) =~= "https://"@);
    assert(direct.skip(8) =~= path);
    assert(github_path(direct) == path);
}

// ---------------------------------------------------------------------------------------------
// CurseForge and Modrinth
// ---------------------------------------------------------------------------------------------
/// The path on MCIM, which mirrors CurseForge and Modrinth, of a path of one of their hosts.
pub open spec fn mcim_path_of(host: Seq<char>, path: Seq<char>) -> Option<Seq<char>> {
    if host == "cdn.modrinth.com"@ || host == "edge.forgecdn.net"@ || host == "media.forgecdn.net"@
        || host == "mediafilez.forgecdn.net"@ {
        Some(path)
    } else if host == "api.modrinth.com"@ {
        Some("/modrinth"@ + path)
    } else if host == "api.curseforge.com"@ {
        Some("/curseforge"@ + path)
    } else {
        None
    }
}

/// The path on MCIM of a path of a mirrored host: the same on the file hosts, behind the name of
/// the service on the two that answer queries.
pub fn mcim_path(host: &str, path: &str) -> (r: Option<String>)
    ensures
        opt_text(r) == mcim_path_of(host@, path@),
{
    if same(host, "cdn.modrinth.com") || same(host, "edge.forgecdn.net") || same(
        host,
        "media.forgecdn.net",
    ) || same(host, "mediafilez.forgecdn.net") {
        Some(path.to_owned())
    } else if same(host, "api.modrinth.com") {
        Some(concat2("/modrinth", path))
    } else if same(host, "api.curseforge.com") {
        Some(concat2("/curseforge", path))
    } else {
        None
    }
}

/// The page of a path on MCIM.
pub open spec fn mcim_page(path: Seq<char>) -> Seq<char> {
    page_at("mod.mcimirror.top"@, path)
}

/// The MCIM mirror of an address, given its parts: the page of its path on MCIM with its query.
/// `None` where there is none, or where a position in it could not be counted.
pub open spec fn mcim_mirror_of(parsed: UrlModel) -> Option<Seq<char>> {
    if parsed.host is None {
        None
    } else {
        match mcim_path_of(parsed.host->0, parsed.path) {
            None => None,
            Some(path) => match url_parsed(mcim_page(path)) {
                Err(_) => None,
                Ok(mirror) => if parsed.query is None {
                    Some(mirror.href)
                } else if takes_query(mcim_page(path), parsed.query) {
                    at_query(mcim_page(path), parsed.query)
                } else {
                    None
                },
            },
        }
    }
}

/// The MCIM mirror of an address.
pub open spec fn mcim_mirror(url: Seq<char>) -> Option<Seq<char>> {
    match url_parsed(url) {
        Ok(parsed) => mcim_mirror_of(parsed),
        Err(_) => None,
    }
}

/// An address is at one of the hosts that MCIM mirrors.
pub open spec fn on_mcim(u: UrlModel) -> bool {
    u.host is Some && mcim_path_of(u.host->0, u.path) is Some
}

/// The positions in the MCIM mirror of an address can be counted.
pub open spec fn mcim_fits(u: UrlModel) -> bool {
    u.query is None || takes_query(mcim_page(mcim_path_of(u.host->0, u.path)->0), u.query)
}

/// An address without a query always has its page on MCIM, and one with a query has it where the
/// positions in the page can be counted.
pub proof fn addresses_without_a_query_fit_mcim(u: UrlModel)
    ensures
        u.query is None ==> mcim_fits(u),
        u.query is Some ==> (mcim_fits(u) <==> takes_query(
            mcim_page(mcim_path_of(u.host->0, u.path)->0),
            u.query,
        )),
{
}

/// A text is read as the page on MCIM of an address, and MCIM does not mirror that again. It has the
/// query of the address, if that is one of the web or the query is written as it is; and of an address
/// of the web it has the path on MCIM.
pub open spec fn is_mcim_mirror(mirror: Seq<char>, u: UrlModel) -> bool {
    &&& url_parsed(mirror) matches Ok(v) && is_bare(UrlModel { query: None, ..v }) && v.scheme
        == "https"@ && v.host == Some("mod.mcimirror.top"@) && (web_address(u) || kept_query(u.query)
        ==> v.query == u.query) && (web_address(u) ==> Some(v.path) == mcim_path_of(
        u.host->0,
        u.path,
    ))
    &&& mcim_mirror(mirror) is None
}

/// A path on MCIM is that of a page, and is written as it is where the mirrored path is.
proof fn lemma_mcim_path(text: Seq<char>, u: UrlModel)
    requires
        url_parsed(text) == Ok::<UrlModel, Seq<char>>(u),
        is_written(url_parsed(text)),
        on_mcim(u),
    ensures
        ({
            let path = mcim_path_of(u.host->0, u.path)->0;
            &&& is_page(mcim_page(path), "mod.mcimirror.top"@, path)
            &&& web_address(u) ==> kept_path(path) && kept_query(u.query)
        }),
{
    lemma_known_hosts();
    reveal_strlit("/modrinth");
    reveal_strlit("/curseforge");
    assert("/modrinth"@ =~= seq!['/', 'm', 'o', 'd', 'r', 'i', 'n', 't', 'h']);
    assert("/curseforge"@ =~= seq!['/', 'c', 'u', 'r', 's', 'e', 'f', 'o', 'r', 'g', 'e']);
    let path = mcim_path_of(u.host->0, u.path)->0;
    assert(made_of_names(Seq::<char>::empty()));
    assert(made_of_names("/modrinth"@));
    assert(made_of_names("/curseforge"@));
    assert(Seq::<char>::empty() + u.path =~= u.path);
    if web_address(u) {
        assert(reads_as(text, u));
    }
}

/// MCIM mirrors six hosts: four that serve files, at the same path, and two that answer queries, behind
/// the name of the service. It mirrors no other.
pub proof fn six_hosts_are_mirrored_by_mcim(host: Seq<char>, path: Seq<char>)
    ensures
        mcim_path_of("cdn.modrinth.com"@, path) == Some(path),
        mcim_path_of("edge.forgecdn.net"@, path) == Some(path),
        mcim_path_of("media.forgecdn.net"@, path) == Some(path),
        mcim_path_of("mediafilez.forgecdn.net"@, path) == Some(path),
        mcim_path_of("api.modrinth.com"@, path) == Some("/modrinth"@ + path),
        mcim_path_of("api.curseforge.com"@, path) == Some("/curseforge"@ + path),
        mcim_path_of(host, path) is Some ==> host == "cdn.modrinth.com"@ || host
            == "edge.forgecdn.net"@ || host == "media.forgecdn.net"@ || host
            == "mediafilez.forgecdn.net"@ || host == "api.modrinth.com"@ || host
            == "api.curseforge.com"@,
{
    reveal_strlit("cdn.modrinth.com");
    reveal_strlit("edge.forgecdn.net");
    reveal_strlit("media.forgecdn.net");
    reveal_strlit("mediafilez.forgecdn.net");
    reveal_strlit("api.modrinth.com");
    reveal_strlit("api.curseforge.com");
    assert("cdn.modrinth.com"@.len() == 16 && "edge.forgecdn.net"@.len() == 17);
    assert("media.forgecdn.net"@.len() == 18 && "mediafilez.forgecdn.net"@.len() == 23);
    assert("api.modrinth.com"@.len() == 16 && "api.curseforge.com"@.len() == 18);
    assert("cdn.modrinth.com"@[0] == 'c' && "api.modrinth.com"@[0] == 'a');
    assert("media.forgecdn.net"@[0] == 'm' && "api.curseforge.com"@[0] == 'a');
}

/// MCIM does not mirror its own host.
proof fn lemma_mcim_is_not_mirrored(path: Seq<char>)
    ensures
        mcim_path_of("mod.mcimirror.top"@, path) is None,
{
    reveal_strlit("mod.mcimirror.top");
    reveal_strlit("cdn.modrinth.com");
    reveal_strlit("edge.forgecdn.net");
    reveal_strlit("media.forgecdn.net");
    reveal_strlit("mediafilez.forgecdn.net");
    reveal_strlit("api.modrinth.com");
    reveal_strlit("api.curseforge.com");
    assert("mod.mcimirror.top"@[0] == 'm' && "mod.mcimirror.top"@.len() == 17);
    assert("cdn.modrinth.com"@.len() == 16 && "edge.forgecdn.net"@[0] == 'e');
    assert("media.forgecdn.net"@.len() == 18 && "mediafilez.forgecdn.net"@.len() == 23);
    assert("api.modrinth.com"@.len() == 16 && "api.curseforge.com"@.len() == 18);
}

/// The MCIM mirror of a CurseForge or Modrinth address; `None` for addresses that are not
/// mirrored. There is one exactly for an address at one of the mirrored hosts, and it has none
/// itself.
pub fn mcim_mirror_url(url: &str) -> (r: Option<String>)
    ensures
        opt_text(r) == mcim_mirror(url@),
        r is Some <==> (url_parsed(url@) matches Ok(u) && on_mcim(u) && mcim_fits(u)),
        r matches Some(m) ==> is_mcim_mirror(m@, url_parsed(url@)->Ok_0),
{
    let parsed = match parse_url(url) {
        Ok(parsed) => parsed,
        Err(_) => {
            return None;
        },
    };
    let host = match &parsed.host {
        Some(host) => host,
        None => {
            return None;
        },
    };
    let path = match mcim_path(host.as_str(), parsed.path.as_str()) {
        Some(path) => path,
        None => {
            return None;
        },
    };
    let page = concat3("https://", "mod.mcimirror.top", path.as_str());
    proof {
        lemma_mcim_path(url@, parsed@);
        lemma_known_hosts();
        assert(is_page(page@, "mod.mcimirror.top"@, path@));
    }
    let mirror = match parse_url(page.as_str()) {
        Ok(mirror) => mirror,
        Err(_) => {
            return None;
        },
    };
    proof {
        lemma_mcim_is_not_mirrored(mirror.path@);
        assert(reads_as(page@, mirror@));
        assert(made_of_names(Seq::<char>::empty()));
        assert(Seq::<char>::empty() + mirror.path@ =~= mirror.path@);
        assert(kept_path(mirror.path@));
        assert(is_kept(mirror@));
        assert(reads_as(mirror.href@, mirror@));
    }
    if parsed.query.is_none() {
        return Some(mirror.href);
    }
    if !can_take_query(page.as_str(), &parsed.query) {
        return None;
    }
    let r = set_url_query(page.as_str(), &parsed.query);
    proof {
        let m = opt_text(r)->0;
        let v = url_parsed(m)->Ok_0;
        if kept_query(parsed@.query) {
            reveal_strlit("?");
            let parts = UrlModel { query: parsed@.query, ..mirror@ };
            let whole = UrlModel { href: written(parts), ..parts };
            assert(is_kept(whole));
            assert(reads_as(m, whole));
        }
    }
    r
}

// ---------------------------------------------------------------------------------------------
// Comparing addresses
// ---------------------------------------------------------------------------------------------
/// A path as it is compared: without slashes at its end, unless it is the root.
pub open spec fn compared_path(path: Seq<char>) -> Seq<char> {
    if path == "/"@ {
        path
    } else {
        without_trailing(path, '/')
    }
}

/// A path that is compared ends in no slash, unless it is the root, and stays as it is when it is
/// made fit for comparison once more.
pub proof fn compared_paths_end_in_no_slash(path: Seq<char>)
    ensures
        compared_path(path) == "/"@ || compared_path(path).len() == 0 || compared_path(path).last()
            != '/',
        compared_path(compared_path(path)) == compared_path(path),
{
    lemma_trailing_is_gone(path, '/');
}

/// Slashes at the end of a path do not count, and nothing else is left out of it.
pub proof fn slashes_at_the_end_do_not_count(path: Seq<char>)
    requires
        path.len() > 0,
        path.last() != '/',
    ensures
        compared_path(path) == path,
        compared_path(path + "/"@) == path,
        compared_path(path + "/"@ + "/"@) == path,
        compared_path("/"@) == "/"@,
{
    reveal_strlit("/");
    let once = path + "/"@;
    let twice = once + "/"@;
    assert(once.drop_last() =~= path);
    assert(twice.drop_last() =~= once);
    assert(without_trailing(path, '/') == path);
    assert(without_trailing(once, '/') == path);
}

/// A port goes without saying exactly where it is the one of the scheme: 80, 443 or 21. Every other
/// port counts.
pub proof fn usual_ports_go_without_saying(scheme: Seq<char>, port: u16)
    ensures
        scheme_port_of("http"@) == Some(80u16),
        scheme_port_of("ws"@) == Some(80u16),
        scheme_port_of("https"@) == Some(443u16),
        scheme_port_of("wss"@) == Some(443u16),
        scheme_port_of("ftp"@) == Some(21u16),
        scheme_port_of(scheme) is Some ==> scheme == "http"@ || scheme == "ws"@ || scheme
            == "https"@ || scheme == "wss"@ || scheme == "ftp"@,
        compared_port(Some(port), scheme_port_of(scheme)) is None <==> scheme_port_of(scheme) == Some(
            port,
        ),
        compared_port(Some(port), scheme_port_of(scheme)) matches Some(p) ==> p == port,
        compared_port(None, scheme_port_of(scheme)) is None,
{
    reveal_strlit("http");
    reveal_strlit("https");
    reveal_strlit("ws");
    reveal_strlit("wss");
    reveal_strlit("ftp");
    assert("http"@.len() == 4 && "https"@.len() == 5 && "ws"@.len() == 2 && "wss"@.len() == 3
        && "ftp"@.len() == 3);
    assert("wss"@[0] == 'w' && "ftp"@[0] == 'f');
}

proof fn lemma_trailing_is_gone(s: Seq<char>, c: char)
    ensures
        without_trailing(s, c).len() == 0 || without_trailing(s, c).last() != c,
        without_trailing(without_trailing(s, c), c) == without_trailing(s, c),
    decreases s.len(),
{
    if s.len() > 0 && s.last() == c {
        lemma_trailing_is_gone(s.drop_last(), c);
    }
}

/// The port that a scheme stands for.
pub open spec fn scheme_port_of(scheme: Seq<char>) -> Option<u16> {
    if scheme == "http"@ || scheme == "ws"@ {
        Some(80u16)
    } else if scheme == "https"@ || scheme == "wss"@ {
        Some(443u16)
    } else if scheme == "ftp"@ {
        Some(21u16)
    } else {
        None
    }
}

/// No port where it is the one that the scheme stands for.
pub open spec fn compared_port(port: Option<u16>, usual: Option<u16>) -> Option<u16> {
    if port is Some && port == usual {
        None
    } else {
        port
    }
}

/// The address with the compared port, or as it is where it takes none.
pub open spec fn normal_port(base: Seq<char>, parsed: UrlModel) -> Seq<char> {
    match at_port(base, compared_port(parsed.port, scheme_port_of(parsed.scheme))) {
        Some(t) => t,
        None => base,
    }
}

/// An address with a path, a query and a fragment; `None` where it cannot be changed, or where a
/// position in it could not be counted.
pub open spec fn completed(
    site: Seq<char>,
    path: Seq<char>,
    query: Option<Seq<char>>,
    fragment: Option<Seq<char>>,
) -> Option<Seq<char>> {
    if !takes_path(site, path) {
        None
    } else {
        match at_path(site, path) {
            None => None,
            Some(page) => if !takes_query(page, query) {
                None
            } else {
                match at_query(page, query) {
                    None => None,
                    Some(asked) => if !takes_fragment(asked, fragment) {
                        None
                    } else {
                        at_fragment(asked, fragment)
                    },
                }
            },
        }
    }
}

/// The address put together again from its compared parts.
pub open spec fn reassembled(base: Seq<char>, parsed: UrlModel) -> Option<Seq<char>> {
    if !takes_port(base) {
        None
    } else {
        completed(
            normal_port(base, parsed),
            compared_path(parsed.path),
            parsed.query,
            parsed.fragment,
        )
    }
}

/// The address that has the compared parts of another one; `None` for an address without a host,
/// and where a position in it could not be counted.
pub open spec fn put_together(parsed: UrlModel) -> Option<Seq<char>> {
    if parsed.opaque || parsed.host is None {
        None
    } else {
        match url_parsed(parsed.scheme + "://"@ + parsed.host->0) {
            Err(_) => None,
            Ok(base) => reassembled(base.href, parsed),
        }
    }
}

/// An address in the form in which it is compared.
pub open spec fn normalized(input: Seq<char>) -> Seq<char> {
    match url_parsed(input) {
        Ok(parsed) => match put_together(parsed) {
            Some(t) => t,
            None => input,
        },
        Err(_) => input,
    }
}

/// A path without slashes at its end, unless it is the root.
pub fn path_for_comparison(path: &str) -> (r: String)
    ensures
        r@ == compared_path(path@),
{
    if same(path, "/") {
        path.to_owned()
    } else {
        trim_end(path, '/')
    }
}

/// The port that a scheme stands for.
pub fn scheme_port(scheme: &str) -> (r: Option<u16>)
    ensures
        r == scheme_port_of(scheme@),
{
    if same(scheme, "http") || same(scheme, "ws") {
        Some(80u16)
    } else if same(scheme, "https") || same(scheme, "wss") {
        Some(443u16)
    } else if same(scheme, "ftp") {
        Some(21u16)
    } else {
        None
    }
}

/// No port where it is the one that the scheme stands for.
pub fn port_for_comparison(port: Option<u16>, usual: Option<u16>) -> (r: Option<u16>)
    ensures
        r == compared_port(port, usual),
{
    match (port, usual) {
        (Some(p), Some(u)) => if p == u {
            None
        } else {
            port
        },
        _ => port,
    }
}

/// The parts of an address once it was put together from the compared parts of another one.
pub open spec fn compared_parts(base: UrlModel, parsed: UrlModel) -> UrlModel {
    let parts = UrlModel {
        port: compared_port(parsed.port, scheme_port_of(parsed.scheme)),
        path: if compared_path(parsed.path).len() == 0 {
            "/"@
        } else {
            compared_path(parsed.path)
        },
        query: parsed.query,
        fragment: parsed.fragment,
        ..base
    };
    UrlModel { href: written(parts), ..parts }
}

fn reassemble(base: &str, parsed: &UrlParts) -> (r: Option<String>)
    ensures
        opt_text(r) == reassembled(base@, parsed@),
{
    if !can_take_port(base) {
        return None;
    }
    let port = port_for_comparison(parsed.port, scheme_port(parsed.scheme.as_str()));
    let site = match set_url_port(base, port) {
        Some(t) => t,
        None => base.to_owned(),
    };
    let path = path_for_comparison(parsed.path.as_str());
    if !can_take_path(site.as_str(), path.as_str()) {
        return None;
    }
    let page = match set_url_path(site.as_str(), path.as_str()) {
        Some(t) => t,
        None => {
            return None;
        },
    };
    if !can_take_query(page.as_str(), &parsed.query) {
        return None;
    }
    let asked = match set_url_query(page.as_str(), &parsed.query) {
        Some(t) => t,
        None => {
            return None;
        },
    };
    if !can_take_fragment(asked.as_str(), &parsed.fragment) {
        return None;
    }
    set_url_fragment(asked.as_str(), &parsed.fragment)
}

proof fn lemma_decimal_is_short(n: nat)
    requires
        n <= 65535,
    ensures
        decimal(n).len() <= 5,
{
    reveal_with_fuel(decimal, 5);
}

/// A text without the `c` at its end is a beginning of it.
proof fn lemma_trailing(s: Seq<char>, c: char)
    ensures
        without_trailing(s, c).len() <= s.len(),
        forall|i: int|
            0 <= i < without_trailing(s, c).len() ==> #[trigger] without_trailing(s, c)[i] == s[i],
    decreases s.len(),
{
    if s.len() > 0 && s.last() == c {
        lemma_trailing(s.drop_last(), c);
    }
}

/// No position in an address is near the last one that can be counted.
pub open spec fn roomy(u: UrlModel) -> bool {
    u.href.len() + 6 <= LAST_URL_POSITION
}

/// What is put together from the compared parts of an address of the web is read with them, and an
/// address with room can be put together.
#[verifier::spinoff_prover]
#[verifier::rlimit(60)]
proof fn lemma_put_together(input: Seq<char>, base: UrlModel, parsed: UrlModel)
    requires
        reads_as(input, parsed),
        kept_query(parsed.query),
        kept_fragment(parsed.fragment),
        parsed.port != Some(usual_port(parsed)),
        is_bare(base),
        base.path == "/"@,
        is_kept(base),
        readable_at(base, base.host),
        base.scheme == parsed.scheme,
        base.host == parsed.host,
    ensures
        roomy(parsed) && is_written(url_parsed(input)) ==> reassembled(base.href, parsed) is Some,
        reassembled(base.href, parsed) is Some ==> {
            let whole = compared_parts(base, parsed);
            &&& reassembled(base.href, parsed) == Some(whole.href)
            &&& reads_as(whole.href, whole)
            &&& is_kept(whole)
        },
{
    reveal_strlit("/");
    reveal_strlit(":");
    reveal_strlit("?");
    reveal_strlit("#");
    lemma_web_port(parsed.scheme);
    lemma_trailing(parsed.path, '/');
    let fits = roomy(parsed) && is_written(url_parsed(input));
    let port = compared_port(parsed.port, scheme_port_of(parsed.scheme));
    if let Some(p) = port {
        lemma_decimal_is_short(p as nat);
    }
    let path = compared_path(parsed.path);
    assert(made_of_names(Seq::<char>::empty()));
    assert(path.len() > 0 ==> kept_path(path));
    let whole = compared_parts(base, parsed);
    let site = UrlModel { port, ..base };
    let site = UrlModel { href: written(site), ..site };
    let page = UrlModel { path: whole.path, ..site };
    let page = UrlModel { href: written(page), ..page };
    let asked = UrlModel { query: whole.query, ..page };
    let asked = UrlModel { href: written(asked), ..asked };
    assert(reads_as(base.href, base));
    assert(fits ==> site_len(base) <= site_len(parsed));
    assert(site_len(site) <= site_len(base) + 6);
    assert(fits ==> site_len(site) <= site_len(parsed));
    assert(fits ==> takes_port(base.href));
    if takes_port(base.href) {
        assert(is_kept(site));
        assert(reads_as(site.href, site));
        assert(normal_port(base.href, parsed) == site.href);
        assert(fits ==> takes_path(site.href, path));
        if takes_path(site.href, path) {
            assert(is_kept(page));
            assert(reads_as(page.href, page));
            assert(at_path(site.href, path) == Some(page.href));
            assert(fits ==> takes_query(page.href, parsed.query));
            if takes_query(page.href, parsed.query) {
                assert(is_kept(asked));
                assert(reads_as(asked.href, asked));
                assert(at_query(page.href, parsed.query) == Some(asked.href));
                assert(fits ==> takes_fragment(asked.href, parsed.fragment));
                assert(written(UrlModel { fragment: whole.fragment, ..asked }) == whole.href);
                if takes_fragment(asked.href, parsed.fragment) {
                    assert(is_kept(whole));
                }
            }
        }
    }
}

proof fn lemma_web_port(scheme: Seq<char>)
    ensures
        scheme == "http"@ ==> scheme_port_of(scheme) == Some(80u16),
        scheme == "https"@ ==> scheme != "http"@ && scheme_port_of(scheme) == Some(443u16),
{
    reveal_strlit("http");
    reveal_strlit("https");
    reveal_strlit("ws");
    assert("https"@.len() == 5 && "http"@.len() == 4 && "ws"@.len() == 2);
}

proof fn lemma_same_origin(a: Seq<char>, x: Seq<char>, b: Seq<char>, y: Seq<char>)
    requires
        a == "http"@ || a == "https"@,
        b == "http"@ || b == "https"@,
        a + "://"@ + x == b + "://"@ + y,
    ensures
        a == b,
        x == y,
{
    reveal_strlit("http");
    reveal_strlit("https");
    reveal_strlit("://");
    let s = a + "://"@ + x;
    assert(s[4] == (if a == "http"@ {
        ':'
    } else {
        's'
    }));
    assert(s[4] == (if b == "http"@ {
        ':'
    } else {
        's'
    }));
    assert(a == b);
    assert(x =~= s.skip(a.len() as int + 3));
    assert(y =~= s.skip(b.len() as int + 3));
}

/// A text is an address of the web or no address at all.
pub open spec fn comparable(text: Seq<char>) -> bool {
    url_parsed(text) matches Ok(u) ==> web_address(u)
}

/// An address is read with the compared parts of another one. Its path is the root or ends in no
/// slash.
pub open spec fn is_compared(parsed: Result<UrlModel, Seq<char>>, u: UrlModel) -> bool {
    parsed matches Ok(v) && v.scheme == u.scheme && v.host == u.host && v.port == compared_port(
        u.port,
        scheme_port_of(u.scheme),
    ) && v.path == (if compared_path(u.path).len() == 0 {
        "/"@
    } else {
        compared_path(u.path)
    }) && (v.path == "/"@ || v.path.last() != '/') && v.query == u.query && v.fragment
        == u.fragment
}

/// The scheme and the host of an address are an address.
pub open spec fn origin_is_read(u: UrlModel) -> bool {
    u.host is Some && url_parsed(u.scheme + "://"@ + u.host->0) is Ok
}

/// The origin of an address is read where its scheme and its host, with the usual signs between them,
/// are an address.
pub proof fn origins_are_schemes_and_hosts(u: UrlModel, host: Seq<char>)
    requires
        u.host == Some(host),
    ensures
        origin_is_read(u) <==> url_parsed(u.scheme + "://"@ + host) is Ok,
        !u.opaque && !origin_is_read(u) ==> put_together(u) is None,
{
}

/// An address in a form that can be compared as text: scheme and host in small letters, no slash
/// at the end of the path, no port that goes without saying. What is no address with a host is
/// returned unchanged. An address of the web that was made comparable once stays as it is.
pub fn normalize_url(input: &str) -> (r: String)
    ensures
        r@ == normalized(input@),
        url_parsed(input@) is Err ==> r@ == input@,
        comparable(input@) ==> normalized(r@) == r@,
        url_parsed(input@) matches Ok(u) ==> web_address(u) && put_together(u) is Some
            ==> is_compared(url_parsed(r@), u),
        url_parsed(input@) matches Ok(u) ==> web_address(u) && origin_is_read(u) && roomy(u)
            ==> is_compared(url_parsed(r@), u),
{
    let parsed = match parse_url(input) {
        Ok(parsed) => parsed,
        Err(_) => {
            return input.to_owned();
        },
    };
    if parsed.opaque {
        return input.to_owned();
    }
    let host = match &parsed.host {
        Some(host) => host,
        None => {
            return input.to_owned();
        },
    };
    let address = concat3(parsed.scheme.as_str(), "://", host.as_str());
    proof {
        if web_address(parsed@) {
            assert(reads_as(input@, parsed@));
            assert(origin_of_address(address@));
        }
    }
    let base = match parse_url(address.as_str()) {
        Ok(base) => base,
        Err(_) => {
            return input.to_owned();
        },
    };
    let r = reassemble(base.href.as_str(), &parsed);
    proof {
        if web_address(parsed@) {
            assert(reads_as(input@, parsed@));
            assert(reads_as(address@, base@));
            assert(is_kept(base@));
            compared_paths_end_in_no_slash(parsed.path@);
            lemma_same_origin(parsed@.scheme, host@, base@.scheme, base@.host->0);
            lemma_put_together(input@, base@, parsed@);
            if opt_text(r) is Some {
                let whole = compared_parts(base@, parsed@);
                lemma_put_together(whole.href, base@, whole);
            }
        }
    }
    match r {
        Some(t) => t,
        None => input.to_owned(),
    }
}

// ---------------------------------------------------------------------------------------------
// Where the user is
// ---------------------------------------------------------------------------------------------
/// The first of the lines that begins with a text.
pub open spec fn first_beginning(lines: Seq<Seq<char>>, prefix: Seq<char>) -> Option<Seq<char>>
    decreases lines.len(),
{
    if lines.len() == 0 {
        None
    } else if starts_with(lines[0], prefix) {
        Some(lines[0])
    } else {
        first_beginning(lines.skip(1), prefix)
    }
}

/// The country that a trace of the connection reports: the value of its line `loc=`.
pub open spec fn reported_location(trace: Seq<char>) -> Option<Seq<char>> {
    match first_beginning(pieces(trace, '\n'), "loc="@) {
        Some(line) => if pieces(line, '=').len() > 1 {
            Some(trimmed(pieces(line, '=')[1]))
        } else {
            None
        },
        None => None,
    }
}

/// The country that a trace of the connection reports.
pub fn location_in_trace(trace: &str) -> (r: Option<String>)
    ensures
        opt_text(r) == reported_location(trace@),
{
    let lines = split(trace, '\n');
    let ghost all = pieces(trace@, '\n');
    let mut i: usize = 0;
    assert(all.skip(0) =~= all);
    while i < lines.len()
        invariant
            i <= lines.len(),
            texts(lines@) == all,
            first_beginning(all, "loc="@) == first_beginning(all.skip(i as int), "loc="@),
            all == pieces(trace@, '\n'),
        decreases lines.len() - i,
    {
        assert(all.skip(i as int)[0] == lines@[i as int]@);
        if begins(lines[i].as_str(), "loc=") {
            let fields = split(lines[i].as_str(), '=');
            if fields.len() > 1 {
                assert(texts(fields@)[1] == fields@[1]@);
                return Some(trim(fields[1].as_str()));
            }
            return None;
        }
        assert(all.skip(i as int).skip(1) =~= all.skip(i + 1));
        i += 1;
    }
    None
}

/// The country of a trace is what stands behind `loc=` in the first line that begins so; a trace
/// without such a line tells none.
pub proof fn countries_are_read_from_their_line(trace: Seq<char>, at: int, country: Seq<char>)
    requires
        0 <= at <= pieces(trace, '\n').len(),
        forall|i: int|
            0 <= i < at ==> !starts_with(#[trigger] pieces(trace, '\n')[i], "loc="@),
        !holds(country, '='),
    ensures
        at < pieces(trace, '\n').len() && pieces(trace, '\n')[at] == "loc="@ + country
            ==> reported_location(trace) == Some(trimmed(country)),
        at == pieces(trace, '\n').len() ==> reported_location(trace) is None,
{
    let lines = pieces(trace, '\n');
    lemma_first_beginning(lines, "loc="@, at);
    if at < lines.len() && lines[at] == "loc="@ + country {
        let line = lines[at];
        reveal_strlit("loc=");
        assert(line.subrange(0, 4) =~= "loc="@);
        let name = seq!['l', 'o', 'c'];
        assert(line =~= name + seq!['='] + country);
        assert(!holds(name, '='));
        texts_are_parted_at_the_first_mark(name, seq!['='], country);
        parts_make_up_the_text(country, seq!['=']);
        lemma_index_from(line, seq!['='], 0);
        assert(index_of(line, seq!['=']) == Some(3int)) by {
            assert(parted(line, seq!['=']) == Some((name, country)));
            let i = index_of(line, seq!['='])->0;
            assert(line.take(i).len() == i);
        }
        assert(line.skip(4) =~= country);
        assert(pieces(country, '=') =~= seq![country]);
        assert(pieces(line, '=') =~= seq![line.take(3)] + seq![country]);
    }
}

proof fn lemma_first_beginning(lines: Seq<Seq<char>>, prefix: Seq<char>, at: int)
    requires
        0 <= at <= lines.len(),
        forall|i: int| 0 <= i < at ==> !starts_with(#[trigger] lines[i], prefix),
    ensures
        at < lines.len() && starts_with(lines[at], prefix) ==> first_beginning(lines, prefix) == Some(
            lines[at],
        ),
        at == lines.len() ==> first_beginning(lines, prefix) is None,
    decreases at,
{
    if at > 0 {
        assert(!starts_with(lines[0], prefix));
        let rest = lines.skip(1);
        assert forall|i: int| 0 <= i < at - 1 implies !starts_with(#[trigger] rest[i], prefix) by {
            assert(rest[i] == lines[i + 1]);
        }
        lemma_first_beginning(rest, prefix, at - 1);
    }
}

/// Either endpoint reports mainland China.
pub open spec fn reports_mainland(first: Option<Seq<char>>, second: Option<Seq<char>>) -> bool {
    first == Some("CN"@) || second == Some("CN"@)
}

/// One endpoint that reports the country is enough, whichever it is; no other country counts, and nor
/// does silence.
pub proof fn one_report_is_enough(first: Option<Seq<char>>, second: Option<Seq<char>>)
    ensures
        reports_mainland(Some("CN"@), second),
        reports_mainland(first, Some("CN"@)),
        first != Some("CN"@) && second != Some("CN"@) ==> !reports_mainland(first, second),
        !reports_mainland(None, None),
{
}

fn is_mainland(location: &Option<String>) -> (r: bool)
    ensures
        r == (opt_text(*location) == Some("CN"@)),
{
    match location {
        Some(location) => same(location.as_str(), "CN"),
        None => false,
    }
}

/// Whether either endpoint reports mainland China; this is what the configuration remembers.
pub fn mainland_reported(first: &Option<String>, second: &Option<String>) -> (r: bool)
    ensures
        r == reports_mainland(opt_text(*first), opt_text(*second)),
{
    is_mainland(first) || is_mainland(second)
}

/// Whether the connection is in mainland China: known as soon as one endpoint reports it, unknown
/// if neither endpoint answered. Without a configuration to remember the answer it counts as
/// elsewhere.
pub fn is_china_mainland_ip(
    first: &Option<String>,
    second: &Option<String>,
    config_available: bool,
) -> (r: Option<bool>)
    ensures
        r == (if !config_available {
            Some(false)
        } else if first is None && second is None {
            None
        } else {
            Some(reports_mainland(opt_text(*first), opt_text(*second)))
        }),
{
    if !config_available {
        return Some(false);
    }
    if first.is_none() && second.is_none() {
        return None;
    }
    Some(mainland_reported(first, second))
}

// ---------------------------------------------------------------------------------------------
// Clients
// ---------------------------------------------------------------------------------------------
/// How a proxy is spoken to.
#[derive(Clone, Copy, Debug, PartialEq, Eq, Structural)]
pub enum ProxyType {
    Http,
    Socks,
}

/// The proxy that the user configured.
#[derive(Debug)]
pub struct ProxyConfig {
    pub enabled: bool,
    pub selected_type: ProxyType,
    pub host: String,
    pub port: u64,
}

/// The address of a proxy.
pub open spec fn proxy_address(config: ProxyConfig) -> Seq<char> {
    let scheme = match config.selected_type {
        ProxyType::Http => "http://"@,
        ProxyType::Socks => "socks5h://"@,
    };
    scheme + config.host@ + ":"@ + decimal(config.port as nat)
}

/// A proxy is addressed by its kind, its host and its port. Names are looked up by a proxy of the second
/// kind itself.
pub proof fn proxies_are_addressed_by_their_kind(config: ProxyConfig)
    ensures
        config.selected_type == ProxyType::Http ==> proxy_address(config) == "http://"@ + config.host@
            + ":"@ + decimal(config.port as nat),
        config.selected_type == ProxyType::Socks ==> proxy_address(config) == "socks5h://"@
            + config.host@ + ":"@ + decimal(config.port as nat),
{
}

/// The address of the proxy through which a client connects; none where it is not to use one.
pub fn client_proxy_url(config: &ProxyConfig, use_proxy: bool) -> (r: Option<String>)
    ensures
        opt_text(r) == (if use_proxy && config.enabled {
            Some(proxy_address(*config))
        } else {
            None
        }),
{
    if !(use_proxy && config.enabled) {
        return None;
    }
    let scheme = match config.selected_type {
        ProxyType::Http => "http://",
        ProxyType::Socks => "socks5h://",
    };
    let port = decimal_text(config.port);
    Some(concat4(scheme, config.host.as_str(), ":", port.as_str()))
}

/// For how many seconds a request to a service may take.
pub const CLIENT_TIMEOUT_SECS: u64 = 10;

/// After how many seconds without traffic a connection to a service is probed.
pub const CLIENT_KEEPALIVE_SECS: u64 = 10;

/// For how many seconds a download may take.
pub const DOWNLOAD_TIMEOUT_SECS: u64 = 600;

/// For how many seconds the connection for a download may take to come about.
pub const DOWNLOAD_CONNECT_TIMEOUT_SECS: u64 = 10;

/// After how many seconds without traffic the connection of a download is probed.
pub const DOWNLOAD_KEEPALIVE_SECS: u64 = 30;

/// For how many seconds in all a request is repeated.
pub const RETRY_SECS: u64 = 3600;

/// The name under which the launcher introduces itself: its name, a slash and its version.
pub fn user_agent(launcher_version: &str) -> (r: String)
    ensures
        r@ == "BGUMCL/"@ + launcher_version@,
{
    concat2("BGUMCL/", launcher_version)
}

/// What came of a request.
#[derive(Clone, Copy, Debug, PartialEq, Eq, Structural)]
pub enum RequestOutcome {
    /// The server answered with a status.
    Response { status: u16 },
    /// The request failed, with the status if the failure has one.
    Failure { error_status: Option<u16>, while_sending: bool },
}

/// Whether to repeat a request.
#[derive(Clone, Copy, Debug, PartialEq, Eq, Structural)]
pub enum RetryVerdict {
    /// The cause may pass: repeat it.
    Transient,
    /// As the retry policy has it for every client.
    Default,
}

/// Whether to repeat a request: where the server forbade it, which mirrors do under load, and
/// where it failed while it was sent. Else the policy decides.
pub fn retry_verdict(outcome: RequestOutcome) -> (r: RetryVerdict)
    ensures
        r == (match outcome {
            RequestOutcome::Response { status } => if status == 403 {
                RetryVerdict::Transient
            } else {
                RetryVerdict::Default
            },
            RequestOutcome::Failure { error_status, while_sending } => if error_status == Some(403u16)
                || while_sending {
                RetryVerdict::Transient
            } else {
                RetryVerdict::Default
            },
        }),
{
    match outcome {
        RequestOutcome::Response { status } => if status == 403 {
            RetryVerdict::Transient
        } else {
            RetryVerdict::Default
        },
        RequestOutcome::Failure { error_status, while_sending } => {
            let forbidden = match error_status {
                Some(s) => s == 403,
                None => false,
            };
            if forbidden || while_sending {
                RetryVerdict::Transient
            } else {
                RetryVerdict::Default
            }
        },
    }
}

// ---------------------------------------------------------------------------------------------
// One source after the other
// ---------------------------------------------------------------------------------------------
/// Sources that are asked one after the other until one serves.
#[derive(Debug)]
pub struct Fallback {
    pub candidates: Vec<String>,
    pub index: usize,
    pub last_error: Option<String>,
}

/// Sources that are asked one after the other, as texts.
pub struct FallbackModel {
    pub candidates: Seq<Seq<char>>,
    pub index: int,
    pub last_error: Option<Seq<char>>,
}

impl View for Fallback {
    type V = FallbackModel;

    open spec fn view(&self) -> FallbackModel {
        FallbackModel {
            candidates: texts(self.candidates@),
            index: self.index as int,
            last_error: opt_text(self.last_error),
        }
    }
}

impl FallbackModel {
    /// The source whose turn it is; none when every one had its turn.
    pub open spec fn current(self) -> Option<Seq<char>> {
        if 0 <= self.index < self.candidates.len() {
            Some(self.candidates[self.index])
        } else {
            None
        }
    }

    /// The sources once the one whose turn it was has failed: the next one has its turn.
    pub open spec fn after_failure(self, message: Seq<char>) -> FallbackModel {
        FallbackModel {
            index: if self.index < self.candidates.len() {
                self.index + 1
            } else {
                self.index
            },
            last_error: Some(message),
            ..self
        }
    }
}

impl Fallback {
    /// The first source has its turn.
    pub fn begin(candidates: Vec<String>) -> (r: Self)
        ensures
            r@ == (FallbackModel { candidates: texts(candidates@), index: 0, last_error: None }),
    {
        Fallback { candidates, index: 0, last_error: None }
    }

    /// The source whose turn it is.
    pub fn current(&self) -> (r: Option<String>)
        ensures
            opt_text(r) == self@.current(),
    {
        if self.index < self.candidates.len() {
            assert(texts(self.candidates@)[self.index as int] == self.candidates@[self.index as int]@);
            Some(self.candidates[self.index].clone())
        } else {
            None
        }
    }

    /// Notes that the source whose turn it was has failed, and returns the next one.
    pub fn failed(&mut self, message: String) -> (r: Option<String>)
        ensures
            final(self)@ == old(self)@.after_failure(message@),
            opt_text(r) == final(self)@.current(),
    {
        if self.index < self.candidates.len() {
            self.index = self.index + 1;
        }
        self.last_error = Some(message);
        self.current()
    }
}

/// Every source has its turn, in order, as long as those before it failed.
pub proof fn every_source_has_its_turn(s: FallbackModel, messages: Seq<Seq<char>>)
    requires
        s.index == 0,
        messages.len() <= s.candidates.len(),
    ensures
        after_failures(s, messages).candidates == s.candidates,
        after_failures(s, messages).index == messages.len(),
        messages.len() < s.candidates.len() ==> after_failures(s, messages).current() == Some(
            s.candidates[messages.len() as int],
        ),
        messages.len() == s.candidates.len() ==> after_failures(s, messages).current() is None,
        messages.len() > 0 ==> after_failures(s, messages).last_error == Some(messages.last()),
    decreases messages.len(),
{
    if messages.len() > 0 {
        every_source_has_its_turn(s, messages.drop_last());
    }
}

/// The sources after several failures.
pub open spec fn after_failures(s: FallbackModel, messages: Seq<Seq<char>>) -> FallbackModel
    decreases messages.len(),
{
    if messages.len() == 0 {
        s
    } else {
        after_failures(s, messages.drop_last()).after_failure(messages.last())
    }
}

} // verus!
