//! Keeping an instance up to date with a modpack whose files are published one by one.
use vstd::prelude::*;
use vstd::utf8::encode_utf8;
use crate::download::candidates::{param_views, DownloadParam, ParamModel};
use crate::error::{BGUMCLError, BGUMCLResult};
use crate::external::{
    backslash_separates, parse_url, percent_encode, percent_encoded, url_parsed, UrlModel, UrlParts,
};
use crate::instance::models::Instance;
use crate::paths::{
    sanitize_relative_path_for, sanitized_path, text_result, with_slashes, PathModel, TargetPath,
};
use crate::text::{
    chars_of, concat2, concat3, concat4, contains, find, holds, index_of, join, joined,
    joined_texts_come_apart, last_index_of, lemma_contains, lemma_index_from, lemma_last_index_to,
    lower, occurs_at, opt_text, outer_marks_are_taken_off, parted_at_last, parts_make_up_the_text,
    pieces, replace, replaced_characters_keep_their_places, rsplit_once, same, same_ignoring_case,
    split, starts_with, text_between, texts, texts_are_parted_at_the_last_pattern, trim, trim_end,
    trimmed, trimmed_start, trimmed_texts_end_in_no_mark, white_space, without_trailing,
};
use crate::web::{GH_PROXY_CDN, GH_PROXY_V4};

verus! {

/// The name of the file in which an instance remembers the files of its modpack.
pub const UPDATE_STATE_FILE_NAME: &'static str = ".sjmcl-github-update-state.json";

/// A file of a modpack: where it stands, what it must hash to, and its size.
#[derive(Debug)]
pub struct GithubModpackFile {
    pub path: String,
    pub sha1: String,
    pub size: u64,
}

/// What a modpack consists of.
#[derive(Debug)]
pub struct GithubModpackManifest {
    pub name: String,
    pub version: String,
    pub base_url: Option<String>,
    pub files: Vec<GithubModpackFile>,
}

/// A file that an update has written, and what it hashed to.
#[derive(Debug)]
pub struct FileRecord {
    pub path: String,
    pub sha1: String,
}

/// What the last update has written.
#[derive(Debug)]
pub struct GithubModpackUpdateState {
    pub version: String,
    pub files: Vec<FileRecord>,
}

/// What an update changes.
#[derive(Debug)]
pub struct GithubModpackUpdateInfo {
    pub name: String,
    pub current_version: Option<String>,
    pub latest_version: String,
    pub files_to_download: Vec<GithubModpackFile>,
    pub files_to_remove: Vec<String>,
    pub total_size: u64,
    pub manifest_url: String,
}

/// A file of a modpack, as texts.
pub struct FileModel {
    pub path: Seq<char>,
    pub sha1: Seq<char>,
    pub size: u64,
}

impl View for GithubModpackFile {
    type V = FileModel;

    open spec fn view(&self) -> FileModel {
        FileModel { path: self.path@, sha1: self.sha1@, size: self.size }
    }
}

/// Files of a modpack, as texts.
pub open spec fn file_views(v: Seq<GithubModpackFile>) -> Seq<FileModel> {
    v.map_values(|f: GithubModpackFile| f@)
}

impl GithubModpackFile {
    /// The same file.
    pub fn duplicate(&self) -> (r: Self)
        ensures
            r@ == self@,
    {
        GithubModpackFile { path: self.path.clone(), sha1: self.sha1.clone(), size: self.size }
    }
}

// ---------------------------------------------------------------------------------------------
// Addresses
// ---------------------------------------------------------------------------------------------
/// The address below which the files of a modpack stand: the one that the manifest names, or else
/// that of the directory of the manifest.
pub open spec fn base_url_of(manifest_url: Seq<char>, base_url: Option<Seq<char>>) -> Seq<char> {
    match base_url {
        Some(base) => without_trailing(base, '/'),
        None => {
            let t = without_trailing(manifest_url, '/');
            match parted_at_last(t, "/"@) {
                Some((directory, _)) => directory,
                None => t,
            }
        },
    }
}

/// The address below which the files of a modpack stand.
pub fn resolve_base_url(manifest_url: &str, manifest: &GithubModpackManifest) -> (r: String)
    ensures
        r@ == base_url_of(manifest_url@, opt_text(manifest.base_url)),
{
    if let Some(base_url) = &manifest.base_url {
        return trim_end(base_url.as_str(), '/');
    }
    let trimmed = trim_end(manifest_url, '/');
    match rsplit_once(trimmed.as_str(), "/") {
        Some((directory, _)) => directory,
        None => trimmed,
    }
}

/// The files of a modpack stand beside its manifest, unless the manifest names another place. Slashes
/// at the end of either address do not count.
pub proof fn files_stand_beside_the_manifest(directory: Seq<char>, name: Seq<char>, base: Seq<char>)
    requires
        name.len() > 0,
        !holds(name, '/'),
    ensures
        base_url_of(directory + "/"@ + name, None) == directory,
        base_url_of(name, None) == name,
        base.len() > 0 && base.last() != '/' ==> base_url_of(directory, Some(base)) == base,
        base_url_of(directory, Some(base.push('/'))) == base_url_of(directory, Some(base)),
        base_url_of(directory.push('/'), None) == base_url_of(directory, None),
{
    reveal_strlit("/");
    let whole = directory + "/"@ + name;
    assert(name[name.len() - 1] != '/');
    assert(whole.last() == name.last());
    assert(without_trailing(whole, '/') == whole);
    assert(without_trailing(name, '/') == name);
    let behind = "/"@.skip(1) + name;
    assert(!contains(behind, "/"@)) by {
        if contains(behind, "/"@) {
            let i = choose|i: int| occurs_at(behind, "/"@, i);
            assert(behind.subrange(i, i + 1)[0] == behind[i]);
            assert(name[i] == '/');
        }
    }
    texts_are_parted_at_the_last_pattern(directory, "/"@, name);
    parts_make_up_the_text(name, "/"@);
    assert(base.push('/').drop_last() =~= base);
    assert(directory.push('/').drop_last() =~= directory);
}

/// The names of a path, each encoded for an address.
pub open spec fn encoded_names(names: Seq<Seq<char>>) -> Seq<Seq<char>> {
    names.map_values(|n: Seq<char>| percent_encoded(encode_utf8(n)))
}

/// The address of a file below a base.
pub open spec fn file_url_text(base_url: Seq<char>, path: Seq<char>) -> Seq<char> {
    without_trailing(base_url, '/') + "/"@ + joined(
        encoded_names(pieces(with_slashes(path), '/')),
        '/',
    )
}

/// A file is addressed below its base by the names of its path, each encoded for itself, whichever
/// slashes part them.
pub proof fn files_are_addressed_by_their_names(
    base: Seq<char>,
    names: Seq<Seq<char>>,
    path: Seq<char>,
)
    requires
        base.len() > 0,
        base.last() != '/',
        names.len() > 0,
        forall|i: int| 0 <= i < names.len() ==> !holds(#[trigger] names[i], '/'),
        path.len() == joined(names, '/').len(),
        forall|i: int|
            0 <= i < path.len() ==> (#[trigger] path[i] == '\\' && joined(names, '/')[i] == '/') || (
            path[i] != '\\' && joined(names, '/')[i] == path[i]),
    ensures
        file_url_text(base, path) == base + "/"@ + joined(encoded_names(names), '/'),
        encoded_names(names).len() == names.len(),
        forall|i: int|
            0 <= i < names.len() ==> #[trigger] encoded_names(names)[i] == percent_encoded(
                encode_utf8(names[i]),
            ),
{
    reveal_strlit("\\");
    reveal_strlit("/");
    assert(without_trailing(base, '/') == base);
    replaced_characters_keep_their_places(path, "\\"@, "/"@);
    assert(with_slashes(path) =~= joined(names, '/'));
    joined_texts_come_apart(names, '/');
}

/// The address of a file below a base, parsed; the message for one that is none.
pub open spec fn file_url_of(base_url: Seq<char>, path: Seq<char>) -> Result<UrlModel, Seq<char>> {
    let full = file_url_text(base_url, path);
    match url_parsed(full) {
        Ok(url) => Ok(url),
        Err(error) => Err("Invalid file url "@ + full + ": "@ + error),
    }
}

/// An address of a file that is none is told as it was built, with what is wrong with it.
pub proof fn wrong_file_addresses_are_told(base_url: Seq<char>, path: Seq<char>)
    ensures
        file_url_of(base_url, path) is Ok <==> url_parsed(file_url_text(base_url, path)) is Ok,
        file_url_of(base_url, path) matches Ok(url) ==> url_parsed(file_url_text(base_url, path))
            == Ok::<UrlModel, Seq<char>>(url),
        url_parsed(file_url_text(base_url, path)) matches Err(error) ==> file_url_of(base_url, path)
            == Err::<UrlModel, Seq<char>>(
            "Invalid file url "@ + file_url_text(base_url, path) + ": "@ + error,
        ),
{
}

/// The text of the address of a file below a base.
pub fn file_url(base_url: &str, rel_path: &str) -> (r: String)
    ensures
        r@ == file_url_text(base_url@, rel_path@),
{
    proof {
        reveal_strlit("\\");
    }
    let slashed = replace(rel_path, "\\", "/");
    let names = split(slashed.as_str(), '/');
    let ghost all = texts(names@);
    let mut encoded: Vec<String> = Vec::new();
    let mut i: usize = 0;
    while i < names.len()
        invariant
            i <= names.len(),
            all == texts(names@),
            texts(encoded@) == encoded_names(all).take(i as int),
        decreases names.len() - i,
    {
        let ghost so_far = texts(encoded@);
        encoded.push(percent_encode(names[i].as_str()));
        i += 1;
        assert(all[i - 1] == names@[i - 1]@);
        assert(texts(encoded@) =~= so_far.push(encoded_names(all)[i - 1]));
        assert(texts(encoded@) =~= encoded_names(all).take(i as int));
    }
    assert(encoded_names(all).take(names.len() as int) =~= encoded_names(all));
    let path = join(&encoded, '/');
    let base = trim_end(base_url, '/');
    concat3(base.as_str(), "/", path.as_str())
}

/// The result of building an address, as texts.
pub open spec fn url_result(r: BGUMCLResult<UrlParts>) -> Result<UrlModel, Seq<char>> {
    match r {
        Ok(url) => Ok(url@),
        Err(error) => Err(error@),
    }
}

/// The address of a file below a base.
pub fn build_file_url(base_url: &str, rel_path: &str) -> (r: BGUMCLResult<UrlParts>)
    ensures
        url_result(r) == file_url_of(base_url@, rel_path@),
{
    let full = file_url(base_url, rel_path);
    match parse_url(full.as_str()) {
        Ok(url) => Ok(url),
        Err(error) => Err(
            BGUMCLError(concat4("Invalid file url ", full.as_str(), ": ", error.as_str())),
        ),
    }
}

/// The address of the raw manifest: that of a page that shows it is turned into that of the file,
/// with what stands before the host kept.
pub open spec fn raw_manifest_url(raw: Seq<char>) -> Seq<char> {
    match index_of(raw, "/blob/"@) {
        Some(blob) => match parted_at_last(raw.take(blob), "github.com/"@) {
            Some((prefix, owner_repo)) => prefix + "raw.githubusercontent.com/"@ + owner_repo + "/"@
                + raw.skip(blob + "/blob/"@.len()),
            None => raw,
        },
        None => raw,
    }
}

/// The address of the raw manifest.
pub fn normalize_manifest_url(raw: &str) -> (r: String)
    ensures
        r@ == raw_manifest_url(raw@),
{
    let chars = chars_of(raw);
    if let Some(blob) = find(raw, "/blob/") {
        let before = text_between(&chars, 0, blob);
        if let Some((prefix, owner_repo)) = rsplit_once(before.as_str(), "github.com/") {
            let marker = "/blob/".unicode_len();
            assert(blob + marker <= chars.len() <= usize::MAX);
            let rest = text_between(&chars, blob + marker, chars.len());
            assert(raw@.take(blob as int) =~= raw@.subrange(0, blob as int));
            assert(raw@.skip(blob + "/blob/"@.len()) =~= raw@.subrange(
                blob + "/blob/"@.len(),
                raw@.len() as int,
            ));
            let mut out = concat3(prefix.as_str(), "raw.githubusercontent.com/", owner_repo.as_str());
            out.append("/");
            out.append(rest.as_str());
            return out;
        }
        assert(raw@.take(blob as int) =~= raw@.subrange(0, blob as int));
    }
    raw.to_owned()
}

/// The page that shows a manifest becomes the file that it shows: of the same owner and repository, and
/// at the same place.
pub proof fn pages_become_the_files_that_they_show(
    prefix: Seq<char>,
    owner_repo: Seq<char>,
    rest: Seq<char>,
)
    requires
        !contains(prefix + "github.com/"@ + owner_repo + "/blob"@, "/blob/"@),
        !contains("ithub.com/"@ + owner_repo, "github.com/"@),
    ensures
        raw_manifest_url(prefix + "github.com/"@ + owner_repo + "/blob/"@ + rest) == prefix
            + "raw.githubusercontent.com/"@ + owner_repo + "/"@ + rest,
{
    reveal_strlit("/blob/");
    reveal_strlit("/blob");
    reveal_strlit("github.com/");
    reveal_strlit("ithub.com/");
    let page = prefix + "github.com/"@ + owner_repo;
    let raw = page + "/blob/"@ + rest;
    let at = page.len() as int;
    let before = page + "/blob"@;
    lemma_index_from(raw, "/blob/"@, 0);
    assert(raw.subrange(at, at + 6) =~= "/blob/"@);
    assert(occurs_at(raw, "/blob/"@, at));
    let i = index_of(raw, "/blob/"@)->0;
    assert(raw.subrange(i, i + 6) == "/blob/"@);
    if i < at {
        assert(before.subrange(i, i + 6) =~= raw.subrange(i, i + 6));
        assert(occurs_at(before, "/blob/"@, i));
    }
    assert(i == at);
    assert(raw.take(at) =~= page);
    assert(raw.skip(at + 6) =~= rest);
    assert("github.com/"@.skip(1) =~= "ithub.com/"@);
    texts_are_parted_at_the_last_pattern(prefix, "github.com/"@, owner_repo);
}

/// What stands before the host of a page stays in front of the file: a page behind a proxy becomes
/// a file behind the same proxy.
pub proof fn proxies_stay_in_front_of_manifests(page: Seq<char>)
    requires
        starts_with(page, "github.com/"@),
    ensures
        raw_manifest_url(GH_PROXY_V4@ + page) == GH_PROXY_V4@ + raw_manifest_url(page),
        raw_manifest_url(GH_PROXY_CDN@ + page) == GH_PROXY_CDN@ + raw_manifest_url(page),
        raw_manifest_url("https://"@ + page) == "https://"@ + raw_manifest_url(page),
{
    reveal_strlit("https://v4.gh-proxy.org/https://");
    reveal_strlit("https://cdn.gh-proxy.org/https://");
    reveal_strlit("https://");
    reveal_strlit("github.com/");
    assert(page[0] == "github.com/"@[0]) by {
        assert(page.subrange(0, 11)[0] == page[0]);
    }
    lemma_front_stays(GH_PROXY_V4@, page);
    lemma_front_stays(GH_PROXY_CDN@, page);
    lemma_front_stays("https://"@, page);
}

proof fn lemma_front_stays(front: Seq<char>, page: Seq<char>)
    requires
        starts_with(page, "github.com/"@),
        forall|i: int|
            0 <= i < front.len() ==> !(#[trigger] front[i] == '/' && (front + page)[i + 1] == 'b')
                && !(front[i] == 'g' && (front + page)[i + 1] == 'i'),
    ensures
        raw_manifest_url(front + page) == front + raw_manifest_url(page),
{
    reveal_strlit("/blob/");
    reveal_strlit("github.com/");
    let raw = front + page;
    let n = front.len() as int;
    let blob = "/blob/"@;
    let host = "github.com/"@;
    assert forall|i: int| #[trigger] occurs_at(raw, blob, i) implies i >= n && occurs_at(
        page,
        blob,
        i - n,
    ) by {
        assert(raw.subrange(i, i + 6)[0] == raw[i]);
        assert(raw.subrange(i, i + 6)[1] == raw[i + 1]);
        if i >= n {
            assert(page.subrange(i - n, i - n + 6) =~= raw.subrange(i, i + 6));
        }
    }
    assert forall|i: int| #[trigger] occurs_at(page, blob, i) implies occurs_at(raw, blob, i + n) by {
        assert(raw.subrange(i + n, i + n + 6) =~= page.subrange(i, i + 6));
    }
    lemma_index_from(raw, blob, 0);
    lemma_index_from(page, blob, 0);
    match index_of(page, blob) {
        None => {
            if let Some(b) = index_of(raw, blob) {
                assert(occurs_at(page, blob, b - n));
            }
            assert(raw_manifest_url(page) == page);
        },
        Some(b) => {
            assert(occurs_at(raw, blob, b + n));
            let c = index_of(raw, blob)->0;
            assert(occurs_at(page, blob, c - n));
            assert(c == b + n);
            let inner = page.take(b);
            let outer = raw.take(c);
            assert(outer =~= front + inner);
            assert(raw.skip(c + 6) =~= page.skip(b + 6));
            assert forall|i: int| 0 <= i < n implies !#[trigger] occurs_at(outer, host, i) by {
                if occurs_at(outer, host, i) {
                    assert(outer.subrange(i, i + 11)[0] == raw[i]);
                    assert(outer.subrange(i, i + 11)[1] == raw[i + 1]);
                }
            }
            lemma_last_behind(front, inner, host);
            if let Some(k) = last_index_of(inner, host) {
                lemma_last_index_to(inner, host, inner.len() - 11);
                assert(outer.take(k + n) =~= front + inner.take(k));
                assert(outer.skip(k + n + 11) =~= inner.skip(k + 11));
                assert(raw_manifest_url(raw) =~= front + raw_manifest_url(page));
            }
        },
    }
}

proof fn lemma_last_behind(front: Seq<char>, s: Seq<char>, pattern: Seq<char>)
    requires
        forall|i: int| 0 <= i < front.len() ==> !#[trigger] occurs_at(front + s, pattern, i),
    ensures
        match last_index_of(s, pattern) {
            Some(i) => last_index_of(front + s, pattern) == Some(i + front.len()),
            None => last_index_of(front + s, pattern) is None,
        },
{
    let whole = front + s;
    let n = front.len() as int;
    let m = pattern.len() as int;
    assert forall|i: int| #[trigger] occurs_at(whole, pattern, i) implies occurs_at(s, pattern, i - n) by {
        assert(s.subrange(i - n, i - n + m) =~= whole.subrange(i, i + m));
    }
    assert forall|i: int| #[trigger] occurs_at(s, pattern, i) implies occurs_at(whole, pattern, i + n) by {
        assert(whole.subrange(i + n, i + n + m) =~= s.subrange(i, i + m));
    }
    lemma_last_index_to(s, pattern, s.len() - m);
    lemma_last_index_to(whole, pattern, whole.len() - m);
    if let Some(i) = last_index_of(s, pattern) {
        assert(occurs_at(whole, pattern, i + n));
    }
    if let Some(k) = last_index_of(whole, pattern) {
        assert(occurs_at(s, pattern, k - n));
    }
}

/// A pattern stands in a text at one place at most.
pub open spec fn at_most_once(s: Seq<char>, pattern: Seq<char>) -> bool {
    forall|i: int, j: int| #[trigger]
        occurs_at(s, pattern, i) && #[trigger] occurs_at(s, pattern, j) ==> i == j
}

/// An address that names GitHub at most once is made into that of the raw file once and for all;
/// one that shows no page of a file of GitHub stays as it is.
pub proof fn manifest_addresses_are_normalized_once(raw: Seq<char>)
    ensures
        at_most_once(raw, "github.com/"@) ==> raw_manifest_url(raw_manifest_url(raw))
            == raw_manifest_url(raw),
        !contains(raw, "/blob/"@) ==> raw_manifest_url(raw) == raw,
        index_of(raw, "/blob/"@) matches Some(blob) ==> !contains(raw.take(blob), "github.com/"@)
            ==> raw_manifest_url(raw) == raw,
{
    let host = "github.com/"@;
    let out = raw_manifest_url(raw);
    lemma_contains(raw, "/blob/"@);
    if let Some(blob) = index_of(raw, "/blob/"@) {
        let page = raw.take(blob);
        lemma_last_index_to(page, host, page.len() - host.len());
        if let Some(at) = last_index_of(page, host) {
            assert(contains(page, host));
            if at_most_once(raw, host) {
                lemma_raw_names_no_page(raw, blob, at);
                if let Some(b) = index_of(out, "/blob/"@) {
                    lemma_index_from(out, "/blob/"@, 0);
                    let front = out.take(b);
                    lemma_last_index_to(front, host, front.len() - host.len());
                    if let Some(k) = last_index_of(front, host) {
                        assert(out.subrange(k, k + host.len()) =~= front.subrange(
                            k,
                            k + host.len(),
                        ));
                        assert(occurs_at(out, host, k));
                    }
                }
            }
        }
    }
}

proof fn lemma_raw_names_no_page(raw: Seq<char>, blob: int, at: int)
    requires
        index_of(raw, "/blob/"@) == Some(blob),
        last_index_of(raw.take(blob), "github.com/"@) == Some(at),
        at_most_once(raw, "github.com/"@),
    ensures
        forall|i: int| !#[trigger] occurs_at(raw_manifest_url(raw), "github.com/"@, i),
{
    reveal_strlit("/blob/");
    reveal_strlit("github.com/");
    reveal_strlit("raw.githubusercontent.com/");
    reveal_strlit("/");
    let host = "github.com/"@;
    let raw_host = "raw.githubusercontent.com/"@;
    let page = raw.take(blob);
    let out = raw_manifest_url(raw);
    lemma_index_from(raw, "/blob/"@, 0);
    lemma_last_index_to(page, host, page.len() - host.len());
    let prefix = page.take(at);
    let owner = page.skip(at + 11);
    let rest = raw.skip(blob + 6);
    let n = owner.len() as int;
    assert(out == prefix + raw_host + owner + "/"@ + rest);
    assert(raw.subrange(blob, blob + 6)[0] == raw[blob]);
    assert(raw[blob] == '/');
    assert(raw.subrange(at, at + 11) =~= page.subrange(at, at + 11));
    assert(occurs_at(raw, host, at));
    assert forall|i: int| !#[trigger] occurs_at(out, host, i) by {
        if occurs_at(out, host, i) {
            let found = out.subrange(i, i + 11);
            assert(forall|k: int| 0 <= k < 11 ==> #[trigger] found[k] == out[i + k]);
            assert(found[10] == '/');
            assert(out[i + 10] == '/');
            assert(forall|k: int| 0 <= k < 10 ==> #[trigger] host[k] != '/');
            if i + 10 < at {
                assert(raw.subrange(i, i + 11) =~= found);
                assert(occurs_at(raw, host, i));
            } else if i + 10 < at + 26 {
                let j = i + 10 - at;
                assert(out[i + 10] == raw_host[j]);
                assert(j == 25);
                assert(found[0] == out[i]);
                assert(out[i] == raw_host[15]);
            } else if i < at + 26 {
                let k = at + 25 - i;
                assert(out[at + 25] == raw_host[25]);
                assert(found[k] == out[i + k]);
                assert(host[k] == '/');
            } else {
                let m = i - (at + 26);
                if m + 10 <= n {
                    assert forall|k: int| 0 <= k < 11 implies found[k] == #[trigger] raw[at + 11 + m
                        + k] by {
                        if m + k < n {
                            assert(out[i + k] == owner[m + k]);
                        } else {
                            assert(out[i + k] == "/"@[0]);
                        }
                    }
                    assert(raw.subrange(at + 11 + m, at + 22 + m) =~= found);
                    assert(occurs_at(raw, host, at + 11 + m));
                } else if m <= n {
                    let k = n - m;
                    assert(out[i + k] == "/"@[0]);
                    assert(found[k] == out[i + k]);
                    assert(host[k] == '/');
                } else {
                    let b = blob + 6 + (m - n - 1);
                    assert(raw.subrange(b, b + 11) =~= found);
                    assert(occurs_at(raw, host, b));
                }
            }
        }
    }
}

/// The error for a manifest that no source served, given the last failure.
pub fn manifest_fetch_error(last_error: &Option<String>) -> (r: BGUMCLError)
    ensures
        r@ == "Failed to fetch modpack manifest: "@ + (match opt_text(*last_error) {
            Some(message) => message,
            None => "unknown error"@,
        }),
{
    match last_error {
        Some(message) => BGUMCLError(
            concat2("Failed to fetch modpack manifest: ", message.as_str()),
        ),
        None => BGUMCLError(concat2("Failed to fetch modpack manifest: ", "unknown error")),
    }
}

/// The first path that is refused, with the message that refuses it.
pub open spec fn refused_path(files: Seq<FileModel>, windows: bool) -> Option<Seq<char>>
    decreases files.len(),
{
    if files.len() == 0 {
        None
    } else {
        match refused_path(files.drop_last(), windows) {
            Some(message) => Some(message),
            None => match sanitized_path(files.last().path, windows) {
                Err(message) => Some(message),
                Ok(_) => None,
            },
        }
    }
}

/// A manifest is refused for the first of its files whose path is refused, and only for such a file.
pub proof fn the_first_refused_path_refuses_the_manifest(
    files: Seq<FileModel>,
    i: int,
    windows: bool,
)
    requires
        0 <= i <= files.len(),
        forall|k: int| 0 <= k < i ==> sanitized_path((#[trigger] files[k]).path, windows) is Ok,
    ensures
        i == files.len() ==> refused_path(files, windows) is None,
        i < files.len() ==> (sanitized_path(files[i].path, windows) matches Err(message)
            ==> refused_path(files, windows) == Some(message)),
    decreases files.len(),
{
    if files.len() > 0 {
        let front = files.drop_last();
        if i < files.len() {
            the_first_refused_path_refuses_the_manifest(front, i, windows);
        } else {
            assert(sanitized_path(files[i - 1].path, windows) is Ok);
            the_first_refused_path_refuses_the_manifest(front, i - 1, windows);
        }
    }
}

/// Whether every file of a manifest stands below the instance.
pub fn validate_manifest_for(manifest: &GithubModpackManifest, windows: bool) -> (r: BGUMCLResult<()>)
    ensures
        match r {
            Ok(()) => refused_path(file_views(manifest.files@), windows) is None,
            Err(error) => refused_path(file_views(manifest.files@), windows) == Some(error@),
        },
{
    let ghost files = file_views(manifest.files@);
    let mut i: usize = 0;
    while i < manifest.files.len()
        invariant
            i <= manifest.files.len(),
            files == file_views(manifest.files@),
            refused_path(files.take(i as int), windows) is None,
        decreases manifest.files.len() - i,
    {
        assert(files.take(i + 1).drop_last() =~= files.take(i as int));
        assert(files.take(i + 1).last() == manifest.files@[i as int]@);
        if let Err(error) = sanitize_relative_path_for(manifest.files[i].path.as_str(), windows) {
            proof {
                lemma_refused_prefix(files, i + 1, windows);
            }
            return Err(error);
        }
        i += 1;
    }
    assert(files.take(files.len() as int) =~= files);
    Ok(())
}

proof fn lemma_refused_prefix(files: Seq<FileModel>, n: int, windows: bool)
    requires
        0 <= n <= files.len(),
        refused_path(files.take(n), windows) is Some,
    ensures
        refused_path(files, windows) == refused_path(files.take(n), windows),
    decreases files.len() - n,
{
    if n < files.len() {
        assert(files.take(n + 1).drop_last() =~= files.take(n));
        lemma_refused_prefix(files, n + 1, windows);
    } else {
        assert(files.take(n) =~= files);
    }
}

/// Whether every file of a manifest stands below the instance, by the rules of the system.
pub fn validate_manifest(manifest: &GithubModpackManifest) -> (r: BGUMCLResult<()>)
    ensures
        exists|windows: bool|
            match r {
                Ok(()) => #[trigger] refused_path(file_views(manifest.files@), windows) is None,
                Err(error) => refused_path(file_views(manifest.files@), windows) == Some(error@),
            },
{
    let windows = backslash_separates();
    let r = validate_manifest_for(manifest, windows);
    assert(match r {
        Ok(()) => refused_path(file_views(manifest.files@), windows) is None,
        Err(error) => refused_path(file_views(manifest.files@), windows) == Some(error@),
    });
    r
}

// ---------------------------------------------------------------------------------------------
// What an update changes
// ---------------------------------------------------------------------------------------------
/// What a file on disk hashes to: none if it is not there; an error if it cannot be read.
pub type LocalSha = BGUMCLResult<Option<String>>;

/// What a file hashes to, as texts.
pub open spec fn sha_view(sha: LocalSha) -> Result<Option<Seq<char>>, Seq<char>> {
    match sha {
        Ok(sha) => Ok(opt_text(sha)),
        Err(error) => Err(error@),
    }
}

/// What files hash to, as texts.
pub open spec fn sha_views(v: Seq<LocalSha>) -> Seq<Result<Option<Seq<char>>, Seq<char>>> {
    v.map_values(|s: LocalSha| sha_view(s))
}

/// A file is there and hashes to what it must.
pub open spec fn up_to_date(file: FileModel, sha: Option<Seq<char>>) -> bool {
    sha matches Some(s) && lower(s) == lower(file.sha1)
}

/// Whether a file is up to date, or what is wrong with it.
pub open spec fn examined(
    file: FileModel,
    sha: Result<Option<Seq<char>>, Seq<char>>,
    windows: bool,
) -> Result<bool, Seq<char>> {
    match sanitized_path(file.path, windows) {
        Err(message) => Err(message),
        Ok(_) => match sha {
            Err(message) => Err(message),
            Ok(sha) => Ok(up_to_date(file, sha)),
        },
    }
}

/// What is wrong with the first file with which something is wrong.
pub open spec fn first_problem(
    files: Seq<FileModel>,
    shas: Seq<Result<Option<Seq<char>>, Seq<char>>>,
    windows: bool,
) -> Option<Seq<char>>
    decreases files.len(),
{
    if files.len() == 0 {
        None
    } else {
        match first_problem(files.drop_last(), shas, windows) {
            Some(message) => Some(message),
            None => match examined(files.last(), shas[files.len() - 1], windows) {
                Err(message) => Some(message),
                Ok(_) => None,
            },
        }
    }
}

/// The files that are not up to date.
pub open spec fn outdated(
    files: Seq<FileModel>,
    shas: Seq<Result<Option<Seq<char>>, Seq<char>>>,
    windows: bool,
) -> Seq<FileModel>
    decreases files.len(),
{
    if files.len() == 0 {
        seq![]
    } else {
        let front = outdated(files.drop_last(), shas, windows);
        if examined(files.last(), shas[files.len() - 1], windows) == Ok::<bool, Seq<char>>(true) {
            front
        } else {
            front.push(files.last())
        }
    }
}

/// The size of files together.
pub open spec fn size_of_files(files: Seq<FileModel>) -> nat
    decreases files.len(),
{
    if files.len() == 0 {
        0
    } else {
        size_of_files(files.drop_last()) + files.last().size as nat
    }
}

/// A size as far as 64 bits hold it.
pub open spec fn capped(n: nat) -> u64 {
    if n > u64::MAX {
        u64::MAX
    } else {
        n as u64
    }
}

/// The paths of recorded files.
pub open spec fn recorded_paths(files: Seq<FileRecord>) -> Seq<Seq<char>> {
    files.map_values(|f: FileRecord| f.path@)
}

/// The paths of files.
pub open spec fn paths_of(files: Seq<FileModel>) -> Seq<Seq<char>> {
    files.map_values(|f: FileModel| f.path)
}

/// The paths that an earlier version of the modpack had and this one has not.
pub open spec fn abandoned(recorded: Seq<Seq<char>>, current: Seq<Seq<char>>) -> Seq<Seq<char>> {
    recorded.filter(|p: Seq<char>| !current.contains(p))
}

/// A file is up to date where it is there with the hash that it must have, in capitals or small
/// letters. A path that is refused is told before a file that cannot be read.
pub proof fn files_are_examined_by_their_hash(
    file: FileModel,
    sha: Seq<char>,
    message: Seq<char>,
    windows: bool,
)
    ensures
        sanitized_path(file.path, windows) is Ok ==> {
            &&& examined(file, Ok(Some(sha)), windows) == Ok::<bool, Seq<char>>(
                lower(sha) == lower(file.sha1),
            )
            &&& examined(file, Ok(None), windows) == Ok::<bool, Seq<char>>(false)
            &&& examined(file, Err(message), windows) == Err::<bool, Seq<char>>(message)
        },
        sanitized_path(file.path, windows) matches Err(refusal) ==> examined(
            file,
            Ok(Some(sha)),
            windows,
        ) == Err::<bool, Seq<char>>(refusal) && examined(file, Err(message), windows) == Err::<
            bool,
            Seq<char>,
        >(refusal),
{
}

/// The first file with which something is wrong tells what is wrong with an update; without such a
/// file nothing is.
pub proof fn the_first_problem_is_told(
    files: Seq<FileModel>,
    shas: Seq<Result<Option<Seq<char>>, Seq<char>>>,
    i: int,
    windows: bool,
)
    requires
        0 <= i <= files.len() <= shas.len(),
        forall|k: int| 0 <= k < i ==> examined(#[trigger] files[k], shas[k], windows) is Ok,
    ensures
        i == files.len() ==> first_problem(files, shas, windows) is None,
        i < files.len() ==> (examined(files[i], shas[i], windows) matches Err(message)
            ==> first_problem(files, shas, windows) == Some(message)),
    decreases files.len(),
{
    if files.len() > 0 {
        let front = files.drop_last();
        assert forall|k: int| 0 <= k < i && k < front.len() implies examined(
            #[trigger] front[k],
            shas[k],
            windows,
        ) is Ok by {
            assert(front[k] == files[k]);
        }
        if i < files.len() {
            the_first_problem_is_told(front, shas, i, windows);
        } else {
            assert(examined(files[i - 1], shas[i - 1], windows) is Ok);
            the_first_problem_is_told(front, shas, i - 1, windows);
        }
    }
}

/// Exactly the files that are not up to date are downloaded.
pub proof fn exactly_the_outdated_files_are_downloaded(
    files: Seq<FileModel>,
    shas: Seq<Result<Option<Seq<char>>, Seq<char>>>,
    windows: bool,
    i: int,
    k: int,
)
    requires
        files.len() <= shas.len(),
        0 <= i < files.len(),
        0 <= k < outdated(files, shas, windows).len(),
    ensures
        examined(files[i], shas[i], windows) == Ok::<bool, Seq<char>>(false) ==> outdated(
            files,
            shas,
            windows,
        ).contains(files[i]),
        exists|j: int|
            0 <= j < files.len() && #[trigger] files[j] == outdated(files, shas, windows)[k] && examined(
                files[j],
                shas[j],
                windows,
            ) != Ok::<bool, Seq<char>>(true),
{
    if examined(files[i], shas[i], windows) == Ok::<bool, Seq<char>>(false) {
        lemma_outdated_is_listed(files, shas, windows, i);
    }
    lemma_listed_is_outdated(files, shas, windows, k);
}

/// Where some file is not up to date, some file is downloaded; where none is there, all are, in the
/// order of the manifest.
pub proof fn missing_files_are_all_downloaded(
    files: Seq<FileModel>,
    shas: Seq<Result<Option<Seq<char>>, Seq<char>>>,
    windows: bool,
)
    requires
        files.len() <= shas.len(),
        forall|i: int| 0 <= i < files.len() ==> #[trigger] shas[i] == Ok::<
            Option<Seq<char>>,
            Seq<char>,
        >(None),
    ensures
        outdated(files, shas, windows) == files,
    decreases files.len(),
{
    if files.len() > 0 {
        let front = files.drop_last();
        missing_files_are_all_downloaded(front, shas, windows);
        assert(shas[files.len() - 1] == Ok::<Option<Seq<char>>, Seq<char>>(None));
        assert(outdated(files, shas, windows) =~= files);
    } else {
        assert(outdated(files, shas, windows) =~= files);
    }
}

proof fn lemma_outdated_is_listed(
    files: Seq<FileModel>,
    shas: Seq<Result<Option<Seq<char>>, Seq<char>>>,
    windows: bool,
    i: int,
)
    requires
        0 <= i < files.len(),
        examined(files[i], shas[i], windows) != Ok::<bool, Seq<char>>(true),
    ensures
        outdated(files, shas, windows).contains(files[i]),
    decreases files.len(),
{
    let front = outdated(files.drop_last(), shas, windows);
    let out = outdated(files, shas, windows);
    if i < files.len() - 1 {
        lemma_outdated_is_listed(files.drop_last(), shas, windows, i);
        let k = choose|k: int| 0 <= k < front.len() && front[k] == files[i];
        assert(out[k] == files[i]);
    } else {
        assert(out[out.len() - 1] == files[i]);
    }
}

proof fn lemma_listed_is_outdated(
    files: Seq<FileModel>,
    shas: Seq<Result<Option<Seq<char>>, Seq<char>>>,
    windows: bool,
    k: int,
)
    requires
        0 <= k < outdated(files, shas, windows).len(),
    ensures
        exists|j: int|
            0 <= j < files.len() && #[trigger] files[j] == outdated(files, shas, windows)[k] && examined(
                files[j],
                shas[j],
                windows,
            ) != Ok::<bool, Seq<char>>(true),
    decreases files.len(),
{
    let front = outdated(files.drop_last(), shas, windows);
    if k < front.len() {
        lemma_listed_is_outdated(files.drop_last(), shas, windows, k);
        let j = choose|j: int|
            0 <= j < files.drop_last().len() && #[trigger] files.drop_last()[j] == front[k] && examined(
                files.drop_last()[j],
                shas[j],
                windows,
            ) != Ok::<bool, Seq<char>>(true);
        assert(files[j] == files.drop_last()[j]);
    } else {
        assert(files[files.len() - 1] == files.last());
    }
}

/// The sizes of files add up, as far as 64 bits hold them.
pub proof fn sizes_add_up(first: Seq<FileModel>, second: Seq<FileModel>, file: FileModel, n: nat)
    ensures
        size_of_files(first + second) == size_of_files(first) + size_of_files(second),
        size_of_files(seq![file]) == file.size,
        n <= u64::MAX ==> capped(n) == n,
        n > u64::MAX ==> capped(n) == u64::MAX,
    decreases second.len(),
{
    assert(seq![file].drop_last() =~= Seq::<FileModel>::empty());
    assert(size_of_files(Seq::<FileModel>::empty()) == 0);
    if second.len() == 0 {
        assert(first + second =~= first);
    } else {
        let front = second.drop_last();
        sizes_add_up(first, front, file, n);
        assert((first + second).drop_last() =~= first + front);
        assert((first + second).last() == second.last());
    }
}

fn lists_path(files: &Vec<GithubModpackFile>, path: &str) -> (r: bool)
    ensures
        r == paths_of(file_views(files@)).contains(path@),
{
    let ghost all = paths_of(file_views(files@));
    let mut i: usize = 0;
    while i < files.len()
        invariant
            i <= files.len(),
            all == paths_of(file_views(files@)),
            forall|j: int| 0 <= j < i ==> all[j] != path@,
        decreases files.len() - i,
    {
        assert(all[i as int] == files@[i as int].path@);
        if same(files[i].path.as_str(), path) {
            return true;
        }
        i += 1;
    }
    false
}

/// What an update changes, by the rules of Windows or of the other systems: the files to download
/// and their size, and the files to remove. `local_shas` tells what each file of the manifest
/// hashes to on disk.
pub fn compute_update_plan_for(
    local_shas: &Vec<LocalSha>,
    state: &GithubModpackUpdateState,
    manifest: &GithubModpackManifest,
    windows: bool,
) -> (r: BGUMCLResult<(Vec<GithubModpackFile>, Vec<String>, u64)>)
    requires
        local_shas.len() == manifest.files.len(),
    ensures
        ({
            let files = file_views(manifest.files@);
            let shas = sha_views(local_shas@);
            match r {
                Ok((download, remove, size)) => {
                    &&& first_problem(files, shas, windows) is None
                    &&& file_views(download@) == outdated(files, shas, windows)
                    &&& texts(remove@) == abandoned(recorded_paths(state.files@), paths_of(files))
                    &&& size == capped(size_of_files(outdated(files, shas, windows)))
                },
                Err(error) => first_problem(files, shas, windows) == Some(error@),
            }
        }),
        recorded_once(state.files@) ==> (r matches Ok(plan) ==> texts(plan.1@).no_duplicates()),
{
    let ghost files = file_views(manifest.files@);
    let ghost shas = sha_views(local_shas@);
    let mut download: Vec<GithubModpackFile> = Vec::new();
    let mut size: u64 = 0;
    let mut i: usize = 0;
    assert(file_views(download@) =~= outdated(files.take(0), shas, windows));
    while i < manifest.files.len()
        invariant
            i <= manifest.files.len(),
            local_shas.len() == manifest.files.len(),
            files == file_views(manifest.files@),
            shas == sha_views(local_shas@),
            first_problem(files.take(i as int), shas, windows) is None,
            file_views(download@) == outdated(files.take(i as int), shas, windows),
            size == capped(size_of_files(outdated(files.take(i as int), shas, windows))),
        decreases manifest.files.len() - i,
    {
        let file = &manifest.files[i];
        let ghost so_far = file_views(download@);
        proof {
            assert(files.take(i + 1).drop_last() =~= files.take(i as int));
            assert(files.take(i + 1).last() == file@);
            assert(shas[i as int] == sha_view(local_shas@[i as int]));
        }
        if let Err(error) = sanitize_relative_path_for(file.path.as_str(), windows) {
            proof {
                lemma_problem_prefix(files, shas, i + 1, windows);
            }
            return Err(error);
        }
        let current = match &local_shas[i] {
            Err(error) => {
                proof {
                    lemma_problem_prefix(files, shas, i + 1, windows);
                }
                return Err(error.duplicate());
            },
            Ok(Some(sha)) => same_ignoring_case(sha.as_str(), file.sha1.as_str()),
            Ok(None) => false,
        };
        if !current {
            size = size.saturating_add(file.size);
            download.push(file.duplicate());
            assert(file_views(download@) =~= so_far.push(file@));
            assert(so_far.push(file@).drop_last() =~= so_far);
        }
        i += 1;
    }
    assert(files.take(files.len() as int) =~= files);
    let remove = abandoned_paths(state, manifest);
    proof {
        if recorded_once(state.files@) {
            no_file_is_removed_twice(state.files@, files);
        }
    }
    Ok((download, remove, size))
}

fn abandoned_paths(state: &GithubModpackUpdateState, manifest: &GithubModpackManifest) -> (r: Vec<
    String,
>)
    ensures
        texts(r@) == abandoned(
            recorded_paths(state.files@),
            paths_of(file_views(manifest.files@)),
        ),
{
    let ghost recorded = recorded_paths(state.files@);
    let ghost current = paths_of(file_views(manifest.files@));
    let ghost keep = |p: Seq<char>| !current.contains(p);
    let mut out: Vec<String> = Vec::new();
    let mut i: usize = 0;
    assert(texts(out@) =~= recorded.take(0).filter(keep)) by {
        reveal(Seq::filter);
    }
    while i < state.files.len()
        invariant
            i <= state.files.len(),
            recorded == recorded_paths(state.files@),
            current == paths_of(file_views(manifest.files@)),
            keep == (|p: Seq<char>| !current.contains(p)),
            texts(out@) == recorded.take(i as int).filter(keep),
        decreases state.files.len() - i,
    {
        let ghost so_far = texts(out@);
        proof {
            assert(recorded.take(i + 1).drop_last() =~= recorded.take(i as int));
            assert(recorded.take(i + 1).last() == state.files@[i as int].path@);
            reveal(Seq::filter);
        }
        if !lists_path(&manifest.files, state.files[i].path.as_str()) {
            out.push(state.files[i].path.clone());
            assert(texts(out@) =~= so_far.push(state.files@[i as int].path@));
        }
        i += 1;
    }
    assert(recorded.take(recorded.len() as int) =~= recorded);
    out
}

proof fn lemma_problem_prefix(
    files: Seq<FileModel>,
    shas: Seq<Result<Option<Seq<char>>, Seq<char>>>,
    n: int,
    windows: bool,
)
    requires
        0 <= n <= files.len(),
        first_problem(files.take(n), shas, windows) is Some,
    ensures
        first_problem(files, shas, windows) == first_problem(files.take(n), shas, windows),
    decreases files.len() - n,
{
    if n < files.len() {
        assert(files.take(n + 1).drop_last() =~= files.take(n));
        lemma_problem_prefix(files, shas, n + 1, windows);
    } else {
        assert(files.take(n) =~= files);
    }
}

/// The plan is the one by the given rules.
pub open spec fn is_update_plan(
    r: BGUMCLResult<(Vec<GithubModpackFile>, Vec<String>, u64)>,
    files: Seq<FileModel>,
    shas: Seq<Result<Option<Seq<char>>, Seq<char>>>,
    recorded: Seq<Seq<char>>,
    windows: bool,
) -> bool {
    match r {
        Ok((download, remove, size)) => {
            &&& first_problem(files, shas, windows) is None
            &&& file_views(download@) == outdated(files, shas, windows)
            &&& texts(remove@) == abandoned(recorded, paths_of(files))
            &&& size == capped(size_of_files(outdated(files, shas, windows)))
        },
        Err(error) => first_problem(files, shas, windows) == Some(error@),
    }
}

/// A plan lists the files that are not up to date, their size as far as 64 bits hold it, and the paths
/// that are not in the manifest any more; and there is none where something is wrong with a file.
pub proof fn plans_list_what_changes(
    r: BGUMCLResult<(Vec<GithubModpackFile>, Vec<String>, u64)>,
    files: Seq<FileModel>,
    shas: Seq<Result<Option<Seq<char>>, Seq<char>>>,
    recorded: Seq<Seq<char>>,
    windows: bool,
)
    requires
        is_update_plan(r, files, shas, recorded, windows),
    ensures
        r is Ok <==> first_problem(files, shas, windows) is None,
        r matches Ok((download, remove, size)) ==> file_views(download@) == outdated(
            files,
            shas,
            windows,
        ) && texts(remove@) == abandoned(recorded, paths_of(files)) && (size_of_files(
            file_views(download@),
        ) <= u64::MAX ==> size == size_of_files(file_views(download@))),
        r matches Err(error) ==> first_problem(files, shas, windows) == Some(error@),
{
}

/// What an update changes, by the rules of the system.
pub fn compute_update_plan(
    local_shas: &Vec<LocalSha>,
    state: &GithubModpackUpdateState,
    manifest: &GithubModpackManifest,
) -> (r: BGUMCLResult<(Vec<GithubModpackFile>, Vec<String>, u64)>)
    requires
        local_shas.len() == manifest.files.len(),
    ensures
        exists|windows: bool| #[trigger]
            is_update_plan(
                r,
                file_views(manifest.files@),
                sha_views(local_shas@),
                recorded_paths(state.files@),
                windows,
            ),
        recorded_once(state.files@) ==> (r matches Ok(plan) ==> texts(plan.1@).no_duplicates()),
{
    let windows = backslash_separates();
    let r = compute_update_plan_for(local_shas, state, manifest, windows);
    assert(is_update_plan(
        r,
        file_views(manifest.files@),
        sha_views(local_shas@),
        recorded_paths(state.files@),
        windows,
    ));
    r
}

/// What is wrong with the first downloaded file with which something is wrong.
pub open spec fn first_unverified(
    files: Seq<FileModel>,
    shas: Seq<Result<Option<Seq<char>>, Seq<char>>>,
    windows: bool,
) -> Option<Seq<char>>
    decreases files.len(),
{
    if files.len() == 0 {
        None
    } else {
        match first_unverified(files.drop_last(), shas, windows) {
            Some(message) => Some(message),
            None => match examined(files.last(), shas[files.len() - 1], windows) {
                Err(message) => Some(message),
                Ok(true) => None,
                Ok(false) => Some(
                    "Modpack update incomplete, missing or mismatched file: "@ + files.last().path,
                ),
            },
        }
    }
}

/// Whether every downloaded file is there and hashes to what it must, by the rules of Windows or of
/// the other systems.
pub fn verify_downloaded_files_for(
    local_shas: &Vec<LocalSha>,
    files: &Vec<GithubModpackFile>,
    windows: bool,
) -> (r: BGUMCLResult<()>)
    requires
        local_shas.len() == files.len(),
    ensures
        match r {
            Ok(()) => first_unverified(file_views(files@), sha_views(local_shas@), windows) is None,
            Err(error) => first_unverified(file_views(files@), sha_views(local_shas@), windows)
                == Some(error@),
        },
{
    let ghost all = file_views(files@);
    let ghost shas = sha_views(local_shas@);
    let mut i: usize = 0;
    while i < files.len()
        invariant
            i <= files.len(),
            local_shas.len() == files.len(),
            all == file_views(files@),
            shas == sha_views(local_shas@),
            first_unverified(all.take(i as int), shas, windows) is None,
        decreases files.len() - i,
    {
        let file = &files[i];
        proof {
            assert(all.take(i + 1).drop_last() =~= all.take(i as int));
            assert(all.take(i + 1).last() == file@);
            assert(shas[i as int] == sha_view(local_shas@[i as int]));
        }
        if let Err(error) = sanitize_relative_path_for(file.path.as_str(), windows) {
            proof {
                lemma_unverified_prefix(all, shas, i + 1, windows);
            }
            return Err(error);
        }
        let ok = match &local_shas[i] {
            Err(error) => {
                proof {
                    lemma_unverified_prefix(all, shas, i + 1, windows);
                }
                return Err(error.duplicate());
            },
            Ok(Some(sha)) => same_ignoring_case(sha.as_str(), file.sha1.as_str()),
            Ok(None) => false,
        };
        if !ok {
            proof {
                lemma_unverified_prefix(all, shas, i + 1, windows);
            }
            return Err(
                BGUMCLError(
                    concat2(
                        "Modpack update incomplete, missing or mismatched file: ",
                        file.path.as_str(),
                    ),
                ),
            );
        }
        i += 1;
    }
    assert(all.take(all.len() as int) =~= all);
    Ok(())
}

proof fn lemma_unverified_prefix(
    files: Seq<FileModel>,
    shas: Seq<Result<Option<Seq<char>>, Seq<char>>>,
    n: int,
    windows: bool,
)
    requires
        0 <= n <= files.len(),
        first_unverified(files.take(n), shas, windows) is Some,
    ensures
        first_unverified(files, shas, windows) == first_unverified(files.take(n), shas, windows),
    decreases files.len() - n,
{
    if n < files.len() {
        assert(files.take(n + 1).drop_last() =~= files.take(n));
        lemma_unverified_prefix(files, shas, n + 1, windows);
    } else {
        assert(files.take(n) =~= files);
    }
}

/// The first downloaded file that is not as it must be tells what is wrong: its path where it is
/// missing or another, and else what examining it told. Without such a file nothing is wrong.
pub proof fn the_first_unverified_file_is_told(
    files: Seq<FileModel>,
    shas: Seq<Result<Option<Seq<char>>, Seq<char>>>,
    i: int,
    windows: bool,
)
    requires
        0 <= i <= files.len() <= shas.len(),
        forall|k: int|
            0 <= k < i ==> examined(#[trigger] files[k], shas[k], windows) == Ok::<bool, Seq<char>>(
                true,
            ),
    ensures
        i == files.len() ==> first_unverified(files, shas, windows) is None,
        i < files.len() ==> match examined(files[i], shas[i], windows) {
            Err(message) => first_unverified(files, shas, windows) == Some(message),
            Ok(good) => !good ==> first_unverified(files, shas, windows) == Some(
                "Modpack update incomplete, missing or mismatched file: "@ + files[i].path,
            ),
        },
    decreases files.len(),
{
    if files.len() > 0 {
        let front = files.drop_last();
        assert forall|k: int| 0 <= k < i && k < front.len() implies examined(
            #[trigger] front[k],
            shas[k],
            windows,
        ) == Ok::<bool, Seq<char>>(true) by {
            assert(front[k] == files[k]);
        }
        if i < files.len() {
            the_first_unverified_file_is_told(front, shas, i, windows);
        } else {
            assert(examined(files[i - 1], shas[i - 1], windows) == Ok::<bool, Seq<char>>(true));
            the_first_unverified_file_is_told(front, shas, i - 1, windows);
        }
    }
}

/// The result of verifying is the one by the given rules.
pub open spec fn is_verification(
    r: BGUMCLResult<()>,
    files: Seq<FileModel>,
    shas: Seq<Result<Option<Seq<char>>, Seq<char>>>,
    windows: bool,
) -> bool {
    match r {
        Ok(()) => first_unverified(files, shas, windows) is None,
        Err(error) => first_unverified(files, shas, windows) == Some(error@),
    }
}

/// An update is verified exactly where nothing is wrong with a file of it.
pub proof fn updates_are_verified_file_by_file(
    r: BGUMCLResult<()>,
    files: Seq<FileModel>,
    shas: Seq<Result<Option<Seq<char>>, Seq<char>>>,
    windows: bool,
)
    requires
        is_verification(r, files, shas, windows),
    ensures
        r is Ok <==> first_unverified(files, shas, windows) is None,
        r matches Err(error) ==> first_unverified(files, shas, windows) == Some(error@),
{
}

/// Whether every downloaded file is there and hashes to what it must, by the rules of the system.
pub fn verify_downloaded_files(
    local_shas: &Vec<LocalSha>,
    files: &Vec<GithubModpackFile>,
) -> (r: BGUMCLResult<()>)
    requires
        local_shas.len() == files.len(),
    ensures
        exists|windows: bool| #[trigger]
            is_verification(r, file_views(files@), sha_views(local_shas@), windows),
{
    let windows = backslash_separates();
    let r = verify_downloaded_files_for(local_shas, files, windows);
    assert(is_verification(r, file_views(files@), sha_views(local_shas@), windows));
    r
}

/// What is downloaded for an update: the files below the instance, from below the base, each with
/// the hash that it must have. The first file with which something is wrong spoils all.
pub open spec fn update_params_of(
    root: PathModel,
    base_url: Seq<char>,
    files: Seq<FileModel>,
    windows: bool,
) -> Result<Seq<ParamModel>, Seq<char>>
    decreases files.len(),
{
    if files.len() == 0 {
        Ok(seq![])
    } else {
        match update_params_of(root, base_url, files.drop_last(), windows) {
            Err(message) => Err(message),
            Ok(front) => match file_url_of(base_url, files.last().path) {
                Err(message) => Err(message),
                Ok(src) => match sanitized_path(files.last().path, windows) {
                    Err(message) => Err(message),
                    Ok(path) => Ok(
                        front.push(
                            ParamModel {
                                src,
                                dest: root.child(path),
                                filename: None,
                                sha1: Some(files.last().sha1),
                            },
                        ),
                    ),
                },
            },
        }
    }
}

/// Every file is downloaded from its address below the base to its path below the instance, with the
/// hash that it must have; files are downloaded in their order. All are, or none: there are no
/// downloads exactly where some file has no address or no path.
pub proof fn every_file_is_downloaded_to_its_place(
    root: PathModel,
    base_url: Seq<char>,
    files: Seq<FileModel>,
    windows: bool,
    i: int,
)
    requires
        0 <= i < files.len(),
    ensures
        update_params_of(root, base_url, files, windows) matches Ok(params) ==> {
            &&& params.len() == files.len()
            &&& file_url_of(base_url, files[i].path) == Ok::<UrlModel, Seq<char>>(params[i].src)
            &&& sanitized_path(files[i].path, windows) matches Ok(path) && params[i].dest
                == root.child(path)
            &&& params[i].filename is None
            &&& params[i].sha1 == Some(files[i].sha1)
        },
        file_url_of(base_url, files[i].path) is Err || sanitized_path(files[i].path, windows) is Err
            ==> update_params_of(root, base_url, files, windows) is Err,
        (forall|k: int|
            0 <= k < files.len() ==> file_url_of(base_url, (#[trigger] files[k]).path) is Ok
                && sanitized_path(files[k].path, windows) is Ok) ==> update_params_of(
            root,
            base_url,
            files,
            windows,
        ) is Ok,
    decreases files.len(),
{
    let front = files.drop_last();
    if front.len() == 0 {
        assert(update_params_of(root, base_url, front, windows) == Ok::<Seq<ParamModel>, Seq<char>>(
            seq![],
        ));
        assert(files[0] == files.last());
    } else {
        let j = if i < front.len() {
            i
        } else {
            0
        };
        every_file_is_downloaded_to_its_place(root, base_url, front, windows, j);
        assert(front[j] == files[j]);
        if forall|k: int|
            0 <= k < files.len() ==> file_url_of(base_url, (#[trigger] files[k]).path) is Ok
                && sanitized_path(files[k].path, windows) is Ok {
            assert forall|k: int| 0 <= k < front.len() implies file_url_of(
                base_url,
                (#[trigger] front[k]).path,
            ) is Ok && sanitized_path(front[k].path, windows) is Ok by {
                assert(front[k] == files[k]);
            }
            assert(files[files.len() - 1] == files.last());
        }
    }
}

proof fn lemma_params_prefix(
    root: PathModel,
    base_url: Seq<char>,
    files: Seq<FileModel>,
    n: int,
    windows: bool,
)
    requires
        0 <= n <= files.len(),
        update_params_of(root, base_url, files.take(n), windows) is Err,
    ensures
        update_params_of(root, base_url, files, windows) == update_params_of(
            root,
            base_url,
            files.take(n),
            windows,
        ),
    decreases files.len() - n,
{
    if n < files.len() {
        assert(files.take(n + 1).drop_last() =~= files.take(n));
        lemma_params_prefix(root, base_url, files, n + 1, windows);
    } else {
        assert(files.take(n) =~= files);
    }
}

/// The result of planning downloads, as texts.
pub open spec fn params_result(r: BGUMCLResult<Vec<DownloadParam>>) -> Result<
    Seq<ParamModel>,
    Seq<char>,
> {
    match r {
        Ok(params) => Ok(param_views(params@)),
        Err(error) => Err(error@),
    }
}

/// What is downloaded for an update, by the rules of Windows or of the other systems.
pub fn update_params(
    root: &TargetPath,
    base_url: &str,
    files: &Vec<GithubModpackFile>,
    windows: bool,
) -> (r: BGUMCLResult<Vec<DownloadParam>>)
    ensures
        params_result(r) == update_params_of(root@, base_url@, file_views(files@), windows),
{
    let ghost all = file_views(files@);
    let mut params: Vec<DownloadParam> = Vec::new();
    let mut i: usize = 0;
    assert(param_views(params@) =~= seq![]);
    while i < files.len()
        invariant
            i <= files.len(),
            all == file_views(files@),
            update_params_of(root@, base_url@, all.take(i as int), windows) == Ok::<
                Seq<ParamModel>,
                Seq<char>,
            >(param_views(params@)),
        decreases files.len() - i,
    {
        let file = &files[i];
        let ghost so_far = param_views(params@);
        proof {
            assert(all.take(i + 1).drop_last() =~= all.take(i as int));
            assert(all.take(i + 1).last() == file@);
        }
        let src = match build_file_url(base_url, file.path.as_str()) {
            Ok(src) => src,
            Err(error) => {
                proof {
                    lemma_params_prefix(root@, base_url@, all, i + 1, windows);
                }
                return Err(error);
            },
        };
        let path = match sanitize_relative_path_for(file.path.as_str(), windows) {
            Ok(path) => path,
            Err(error) => {
                proof {
                    lemma_params_prefix(root@, base_url@, all, i + 1, windows);
                }
                return Err(error);
            },
        };
        let param = DownloadParam {
            src,
            dest: root.child(path.as_str()),
            filename: None,
            sha1: Some(file.sha1.clone()),
        };
        params.push(param);
        assert(param_views(params@) =~= so_far.push(param@));
        i += 1;
    }
    assert(all.take(all.len() as int) =~= all);
    Ok(params)
}

/// The name of the task group of an update.
pub fn update_group_name(instance_id: &str) -> (r: String)
    ensures
        r@ == "modpack-github-update?"@ + instance_id@,
{
    concat2("modpack-github-update?", instance_id)
}

/// What an update changes, for the user.
pub fn update_info(
    manifest: &GithubModpackManifest,
    current_version: &Option<String>,
    manifest_url: &str,
    plan: (Vec<GithubModpackFile>, Vec<String>, u64),
) -> (r: GithubModpackUpdateInfo)
    ensures
        r.name@ == manifest.name@,
        opt_text(r.current_version) == opt_text(*current_version),
        r.latest_version@ == manifest.version@,
        r.files_to_download == plan.0,
        r.files_to_remove == plan.1,
        r.total_size == plan.2,
        r.manifest_url@ == manifest_url@,
{
    GithubModpackUpdateInfo {
        name: manifest.name.clone(),
        current_version: crate::instance::models::copy_text(current_version),
        latest_version: manifest.version.clone(),
        files_to_download: plan.0,
        files_to_remove: plan.1,
        total_size: plan.2,
        manifest_url: manifest_url.to_owned(),
    }
}

// ---------------------------------------------------------------------------------------------
// What an update leaves behind
// ---------------------------------------------------------------------------------------------
/// What each path must hash to: the last file with a path counts.
pub open spec fn hashes_of(files: Seq<FileModel>) -> Map<Seq<char>, Seq<char>>
    decreases files.len(),
{
    if files.len() == 0 {
        Map::empty()
    } else {
        hashes_of(files.drop_last()).insert(files.last().path, files.last().sha1)
    }
}

/// What each recorded path hashes to.
pub open spec fn recorded_hashes(files: Seq<FileRecord>) -> Map<Seq<char>, Seq<char>> {
    Map::new(
        |p: Seq<char>| exists|i: int| recorded_at(files, p, i),
        |p: Seq<char>| files[choose|i: int| recorded_at(files, p, i)].sha1@,
    )
}

/// Record `i` is that of a path.
pub open spec fn recorded_at(files: Seq<FileRecord>, path: Seq<char>, i: int) -> bool {
    0 <= i < files.len() && files[i].path@ == path
}

/// No path is recorded twice.
pub open spec fn recorded_once(files: Seq<FileRecord>) -> bool {
    forall|i: int, j: int|
        0 <= i < j < files.len() ==> #[trigger] files[i].path@ != #[trigger] files[j].path@
}

proof fn lemma_recorded(files: Seq<FileRecord>, i: int)
    requires
        recorded_once(files),
        0 <= i < files.len(),
    ensures
        recorded_hashes(files).dom().contains(files[i].path@),
        recorded_hashes(files)[files[i].path@] == files[i].sha1@,
{
    let p = files[i].path@;
    assert(recorded_at(files, p, i));
    let k = choose|k: int| recorded_at(files, p, k);
    if k < i {
        assert(files[k].path@ != files[i].path@);
    } else if i < k {
        assert(files[i].path@ != files[k].path@);
    }
}

fn record(files: &mut Vec<FileRecord>, path: &str, sha1: &str)
    requires
        recorded_once(old(files)@),
    ensures
        recorded_once(final(files)@),
        recorded_hashes(final(files)@) == recorded_hashes(old(files)@).insert(path@, sha1@),
{
    let ghost before = files@;
    let mut i: usize = 0;
    let mut found: bool = false;
    while i < files.len() && !found
        invariant
            i <= files.len(),
            files@ == before,
            forall|j: int| 0 <= j < i ==> files@[j].path@ != path@,
            found ==> i < files.len() && files@[i as int].path@ == path@,
        decreases files.len() - i, !found as int,
    {
        if same(files[i].path.as_str(), path) {
            found = true;
        } else {
            i += 1;
        }
    }
    let entry = FileRecord { path: path.to_owned(), sha1: sha1.to_owned() };
    if found {
        files.set(i, entry);
    } else {
        files.push(entry);
    }
    proof {
        let after = files@;
        assert forall|a: int, b: int| 0 <= a < b < after.len() implies #[trigger] after[a].path@
            != #[trigger] after[b].path@ by {
            if found {
                assert(before[a].path@ != before[b].path@);
            } else if b < before.len() {
                assert(before[a].path@ != before[b].path@);
            }
        }
        let at = i as int;
        lemma_recorded(after, at);
        assert forall|p: Seq<char>| #[trigger] recorded_hashes(after).dom().contains(p)
            <==> recorded_hashes(before).dom().contains(p) || p == path@ by {
            if recorded_hashes(before).dom().contains(p) {
                let k = choose|k: int| recorded_at(before, p, k);
                assert(recorded_at(after, p, k));
            }
            if recorded_hashes(after).dom().contains(p) && p != path@ {
                let k = choose|k: int| recorded_at(after, p, k);
                assert(recorded_at(before, p, k));
            }
        }
        assert forall|p: Seq<char>| #[trigger] recorded_hashes(after).dom().contains(p) implies recorded_hashes(
            after,
        )[p] == recorded_hashes(before).insert(path@, sha1@)[p] by {
            if p != path@ {
                let k = choose|k: int| recorded_at(after, p, k);
                lemma_recorded(after, k);
                assert(recorded_at(before, p, k));
                lemma_recorded(before, k);
            }
        }
        assert(recorded_hashes(after) =~= recorded_hashes(before).insert(path@, sha1@));
    }
}

/// What an instance remembers once an update is through: the version, and every file of the
/// manifest with its hash.
pub fn finalized_state(manifest: &GithubModpackManifest) -> (r: GithubModpackUpdateState)
    ensures
        r.version@ == manifest.version@,
        recorded_once(r.files@),
        recorded_hashes(r.files@) == hashes_of(file_views(manifest.files@)),
{
    let ghost all = file_views(manifest.files@);
    let mut files: Vec<FileRecord> = Vec::new();
    let mut i: usize = 0;
    assert(recorded_hashes(files@) =~= hashes_of(all.take(0)));
    while i < manifest.files.len()
        invariant
            i <= manifest.files.len(),
            all == file_views(manifest.files@),
            recorded_once(files@),
            recorded_hashes(files@) == hashes_of(all.take(i as int)),
        decreases manifest.files.len() - i,
    {
        let file = &manifest.files[i];
        assert(all.take(i + 1).drop_last() =~= all.take(i as int));
        assert(all.take(i + 1).last() == file@);
        record(&mut files, file.path.as_str(), file.sha1.as_str());
        i += 1;
    }
    assert(all.take(all.len() as int) =~= all);
    GithubModpackUpdateState { version: manifest.version.clone(), files }
}

/// What an instance remembers before its first update: nothing.
pub fn initial_state() -> (r: GithubModpackUpdateState)
    ensures
        r.version@ == ""@,
        r.files@.len() == 0,
{
    GithubModpackUpdateState { version: "".to_owned(), files: Vec::new() }
}

proof fn lemma_hashes_domain(files: Seq<FileModel>, p: Seq<char>)
    ensures
        hashes_of(files).dom().contains(p) <==> paths_of(files).contains(p),
    decreases files.len(),
{
    if files.len() > 0 {
        let front = files.drop_last();
        lemma_hashes_domain(front, p);
        if paths_of(files).contains(p) {
            let i = choose|i: int| 0 <= i < files.len() && paths_of(files)[i] == p;
            if i < front.len() {
                assert(paths_of(front)[i] == p);
            }
        }
        if paths_of(front).contains(p) {
            let i = choose|i: int| 0 <= i < front.len() && paths_of(front)[i] == p;
            assert(paths_of(files)[i] == p);
        }
        if files.last().path == p {
            assert(paths_of(files)[files.len() - 1] == p);
        }
    }
}

/// A path must hash to what the last file with it tells; and only the paths of files are remembered.
pub proof fn the_last_file_of_a_path_counts(files: Seq<FileModel>, i: int, path: Seq<char>)
    requires
        0 <= i < files.len(),
        forall|k: int| i < k < files.len() ==> (#[trigger] files[k]).path != files[i].path,
    ensures
        hashes_of(files).dom().contains(files[i].path),
        hashes_of(files)[files[i].path] == files[i].sha1,
        hashes_of(files).dom().contains(path) ==> exists|k: int|
            0 <= k < files.len() && (#[trigger] files[k]).path == path,
    decreases files.len(),
{
    let front = files.drop_last();
    lemma_hashes_domain(files, path);
    if paths_of(files).contains(path) {
        let k = choose|k: int| 0 <= k < files.len() && paths_of(files)[k] == path;
        assert(files[k].path == path);
    }
    if i < front.len() {
        the_last_file_of_a_path_counts(front, i, path);
        assert(files[files.len() - 1].path != files[i].path);
    }
}

/// An update that is through is through: an instance that remembers the files of a manifest and
/// has them all removes nothing and downloads nothing for that manifest.
pub proof fn finished_updates_change_nothing(
    files: Seq<FileModel>,
    shas: Seq<Result<Option<Seq<char>>, Seq<char>>>,
    records: Seq<FileRecord>,
    windows: bool,
)
    requires
        shas.len() == files.len(),
        recorded_hashes(records) == hashes_of(files),
        first_problem(files, shas, windows) is None,
        forall|i: int|
            0 <= i < files.len() ==> (#[trigger] shas[i] matches Ok(sha) && up_to_date(
                files[i],
                sha,
            )),
    ensures
        outdated(files, shas, windows).len() == 0,
        size_of_files(outdated(files, shas, windows)) == 0,
        abandoned(recorded_paths(records), paths_of(files)).len() == 0,
{
    lemma_nothing_outdated(files, shas, windows, files.len() as int);
    assert(files.take(files.len() as int) =~= files);
    let recorded = recorded_paths(records);
    let keep = |p: Seq<char>| !paths_of(files).contains(p);
    assert forall|i: int| 0 <= i < recorded.len() implies !keep(#[trigger] recorded[i]) by {
        assert(recorded_at(records, recorded[i], i));
        assert(recorded_hashes(records).dom().contains(recorded[i]));
        lemma_hashes_domain(files, recorded[i]);
    }
    lemma_filter_empty(recorded, keep);
}

proof fn lemma_nothing_outdated(
    files: Seq<FileModel>,
    shas: Seq<Result<Option<Seq<char>>, Seq<char>>>,
    windows: bool,
    n: int,
)
    requires
        0 <= n <= files.len(),
        shas.len() == files.len(),
        first_problem(files, shas, windows) is None,
        forall|i: int|
            0 <= i < files.len() ==> (#[trigger] shas[i] matches Ok(sha) && up_to_date(
                files[i],
                sha,
            )),
    ensures
        outdated(files.take(n), shas, windows).len() == 0,
    decreases n,
{
    if n > 0 {
        lemma_nothing_outdated(files, shas, windows, n - 1);
        assert(files.take(n).drop_last() =~= files.take(n - 1));
        assert(files.take(n).last() == files[n - 1]);
        if first_problem(files.take(n), shas, windows) is Some {
            lemma_problem_prefix(files, shas, n, windows);
        }
        assert(shas[n - 1] is Ok);
    }
}

proof fn lemma_filter_empty(s: Seq<Seq<char>>, keep: spec_fn(Seq<char>) -> bool)
    requires
        forall|i: int| 0 <= i < s.len() ==> !keep(#[trigger] s[i]),
    ensures
        s.filter(keep).len() == 0,
    decreases s.len(),
{
    reveal(Seq::filter);
    if s.len() > 0 {
        assert(!keep(s[s.len() - 1]));
        assert forall|i: int| 0 <= i < s.drop_last().len() implies !keep(
            #[trigger] s.drop_last()[i],
        ) by {
            assert(!keep(s[i]));
        }
        lemma_filter_empty(s.drop_last(), keep);
    }
}

/// Where no path is recorded twice, no file is removed twice, and no file of the manifest is
/// removed.
pub proof fn no_file_is_removed_twice(records: Seq<FileRecord>, files: Seq<FileModel>)
    requires
        recorded_once(records),
    ensures
        abandoned(recorded_paths(records), paths_of(files)).no_duplicates(),
        forall|p: Seq<char>| #[trigger]
            abandoned(recorded_paths(records), paths_of(files)).contains(p) <==> recorded_paths(
                records,
            ).contains(p) && !paths_of(files).contains(p),
{
    let recorded = recorded_paths(records);
    assert forall|i: int, j: int|
        0 <= i < recorded.len() && 0 <= j < recorded.len() && i != j implies recorded[i]
        != recorded[j] by {
        if i < j {
            assert(records[i].path@ != records[j].path@);
        } else {
            assert(records[j].path@ != records[i].path@);
        }
    }
    lemma_filter_keeps(recorded, |p: Seq<char>| !paths_of(files).contains(p));
}

proof fn lemma_filter_keeps(s: Seq<Seq<char>>, keep: spec_fn(Seq<char>) -> bool)
    requires
        s.no_duplicates(),
    ensures
        s.filter(keep).no_duplicates(),
        forall|x: Seq<char>| #[trigger] s.filter(keep).contains(x) <==> s.contains(x) && keep(x),
    decreases s.len(),
{
    reveal(Seq::filter);
    if s.len() > 0 {
        let front = s.drop_last();
        let inner = front.filter(keep);
        let out = s.filter(keep);
        assert(front.no_duplicates()) by {
            assert forall|i: int, j: int|
                0 <= i < front.len() && 0 <= j < front.len() && i != j implies front[i] != front[j] by {
                assert(s[i] != s[j]);
            }
        }
        lemma_filter_keeps(front, keep);
        assert(!front.contains(s.last())) by {
            if front.contains(s.last()) {
                let i = choose|i: int| 0 <= i < front.len() && front[i] == s.last();
                assert(s[i] == s[s.len() - 1]);
            }
        }
        assert forall|x: Seq<char>| #[trigger] out.contains(x) <==> s.contains(x) && keep(x) by {
            if out.contains(x) {
                let k = choose|k: int| 0 <= k < out.len() && out[k] == x;
                if k < inner.len() {
                    assert(inner[k] == x);
                    assert(inner.contains(x));
                    let i = choose|i: int| 0 <= i < front.len() && front[i] == x;
                    assert(s[i] == x);
                } else {
                    assert(s[s.len() - 1] == x);
                }
            }
            if s.contains(x) && keep(x) {
                let i = choose|i: int| 0 <= i < s.len() && s[i] == x;
                if i < front.len() {
                    assert(front[i] == x);
                    assert(inner.contains(x));
                    let k = choose|k: int| 0 <= k < inner.len() && inner[k] == x;
                    assert(out[k] == x);
                } else {
                    assert(out[out.len() - 1] == x);
                }
            }
        }
        assert(!inner.contains(s.last()));
        assert forall|i: int, j: int|
            0 <= i < out.len() && 0 <= j < out.len() && i != j implies out[i] != out[j] by {
            if i < inner.len() && j < inner.len() {
                assert(inner[i] != inner[j]);
            } else if i < inner.len() {
                assert(inner.contains(inner[i]));
            } else if j < inner.len() {
                assert(inner.contains(inner[j]));
            }
        }
    }
}

/// Downloaded files that pass the check are up to date: the next plan does not list them.
pub proof fn verified_downloads_are_up_to_date(
    files: Seq<FileModel>,
    shas: Seq<Result<Option<Seq<char>>, Seq<char>>>,
    windows: bool,
)
    requires
        shas.len() == files.len(),
        first_unverified(files, shas, windows) is None,
    ensures
        first_problem(files, shas, windows) is None,
        outdated(files, shas, windows).len() == 0,
    decreases files.len(),
{
    if files.len() > 0 {
        let front = files.drop_last();
        lemma_unverified_front(front, shas, windows);
        assert(front.len() == files.len() - 1);
    }
}

proof fn lemma_unverified_front(
    files: Seq<FileModel>,
    shas: Seq<Result<Option<Seq<char>>, Seq<char>>>,
    windows: bool,
)
    requires
        first_unverified(files, shas, windows) is None,
    ensures
        first_problem(files, shas, windows) is None,
        outdated(files, shas, windows).len() == 0,
    decreases files.len(),
{
    if files.len() > 0 {
        lemma_unverified_front(files.drop_last(), shas, windows);
    }
}

// ---------------------------------------------------------------------------------------------
// The instance
// ---------------------------------------------------------------------------------------------
/// The file in which an instance remembers the files of its modpack.
pub fn state_path(instance: &Instance) -> (r: TargetPath)
    ensures
        r@ == instance@.version_path.child(UPDATE_STATE_FILE_NAME@),
{
    instance.version_path.child(UPDATE_STATE_FILE_NAME)
}

/// The error for an instance that is not known.
pub fn instance_not_found(instance_id: &str) -> (r: BGUMCLError)
    ensures
        r@ == "Instance not found: "@ + instance_id@,
{
    BGUMCLError(concat2("Instance not found: ", instance_id))
}

/// The address from which an instance is kept up to date, if it has one.
pub fn update_channel(instance: &Instance) -> (r: BGUMCLResult<String>)
    ensures
        text_result(r) == (match instance@.modpack_update_channel {
            Some(url) => Ok::<Seq<char>, Seq<char>>(url),
            None => Err("No modpack update channel configured for this instance"@),
        }),
{
    match &instance.modpack_update_channel {
        Some(url) => Ok(url.clone()),
        None => Err(BGUMCLError::new("No modpack update channel configured for this instance")),
    }
}

/// A text without white space on both ends, or a message where nothing is left.
pub open spec fn required_text(text: Seq<char>, message: Seq<char>) -> Result<Seq<char>, Seq<char>> {
    if trimmed(text).len() == 0 {
        Err(message)
    } else {
        Ok(trimmed(text))
    }
}

/// A text is taken without the white space around it; one of white space alone is refused.
pub proof fn blank_texts_are_refused(text: Seq<char>, message: Seq<char>)
    ensures
        text.len() > 0 && !white_space(text[0]) && !white_space(text.last()) ==> required_text(
            text,
            message,
        ) == Ok::<Seq<char>, Seq<char>>(text),
        (forall|i: int| 0 <= i < text.len() ==> white_space(#[trigger] text[i])) <==> required_text(
            text,
            message,
        ) == Err::<Seq<char>, Seq<char>>(message),
        required_text(text, message) matches Ok(t) ==> t.len() > 0 && !white_space(t[0])
            && !white_space(t.last()),
{
    let drop = |c: char| white_space(c);
    trimmed_texts_end_in_no_mark(text, drop);
    let inner = trimmed(text);
    let at = text.len() - trimmed_start(text, drop).len();
    if text.len() > 0 {
        outer_marks_are_taken_off(text);
    }
    if inner.len() > 0 {
        assert(text.subrange(at, at + inner.len())[0] == text[at]);
        assert(!white_space(text[at]));
    } else {
        assert forall|i: int| 0 <= i < text.len() implies white_space(#[trigger] text[i]) by {
            assert(drop(text[i]));
        }
    }
}

fn require(text: &str, message: &str) -> (r: BGUMCLResult<String>)
    ensures
        text_result(r) == required_text(text@, message@),
{
    let t = trim(text);
    if t.as_str().unicode_len() == 0 {
        Err(BGUMCLError::new(message))
    } else {
        Ok(t)
    }
}

/// The instance with another update channel, which must not be empty.
pub fn with_update_channel(instance: &Instance, manifest_url: &str) -> (r: BGUMCLResult<Instance>)
    ensures
        match required_text(manifest_url@, "Manifest url cannot be empty"@) {
            Ok(url) => r matches Ok(updated) && updated@
                == (crate::instance::models::InstanceModel {
                modpack_update_channel: Some(url),
                ..instance@
            }),
            Err(message) => r matches Err(error) && error@ == message,
        },
{
    let url = match require(manifest_url, "Manifest url cannot be empty") {
        Ok(url) => url,
        Err(error) => {
            return Err(error);
        },
    };
    let mut updated = instance.duplicate();
    updated.modpack_update_channel = Some(url);
    Ok(updated)
}

/// The instance with another version of its modpack, which must not be empty.
pub fn with_modpack_version(instance: &Instance, version: &str) -> (r: BGUMCLResult<Instance>)
    ensures
        match required_text(version@, "Version cannot be empty"@) {
            Ok(version) => r matches Ok(updated) && updated@
                == (crate::instance::models::InstanceModel {
                modpack_version: Some(version),
                ..instance@
            }),
            Err(message) => r matches Err(error) && error@ == message,
        },
{
    let version = match require(version, "Version cannot be empty") {
        Ok(version) => version,
        Err(error) => {
            return Err(error);
        },
    };
    let mut updated = instance.duplicate();
    updated.modpack_version = Some(version);
    Ok(updated)
}

/// The instance once an update is through.
pub fn with_finished_update(instance: &Instance, manifest: &GithubModpackManifest) -> (r: Instance)
    ensures
        r@ == (crate::instance::models::InstanceModel {
            modpack_version: Some(manifest.version@),
            ..instance@
        }),
{
    let mut updated = instance.duplicate();
    updated.modpack_version = Some(manifest.version.clone());
    updated
}

} // verus!
