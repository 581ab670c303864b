//! Updating the launcher: which release there is, where its file is, and what it replaces.
use vstd::prelude::*;
use crate::download::candidates::{DownloadParam, ParamModel};
use crate::external::{json_at, json_node, parse_url, url_parsed, JsonModel, JsonNode, UrlModel, UrlParts};
use crate::paths::{PathModel, TargetPath};
use crate::text::{
    chars_of, concat2, concat3, concat4, find, holds, index_of, lemma_index_from, opt_text, pieces,
    same, split, text_between, texts, texts_are_parted_at_the_first_pattern, trim_end,
    without_trailing,
};

verus! {

/// The address that describes the latest release of the launcher.
pub const MANIFEST_URL: &'static str =
    "https://cdn.jsdelivr.net/gh/Muzimi-ciallo/BGUMCL@main/update.json";

/// Where the files of releases are, unless the description of a release tells another place.
pub const DOWNLOAD_BASE_URL: &'static str =
    "https://github.com/Muzimi-ciallo/BGUMCL/releases/download";

/// Why a request about the launcher failed.
#[derive(Clone, Copy, Debug, PartialEq, Eq, Structural)]
pub enum LauncherConfigError {
    FetchError,
}

// ---------------------------------------------------------------------------------------------
// File names
// ---------------------------------------------------------------------------------------------
/// How an architecture is called in the name of a file.
pub open spec fn arch_name(arch: Seq<char>) -> Seq<char> {
    if arch == "x86"@ {
        "i686"@
    } else {
        arch
    }
}

/// How the name of a file ends on a system.
pub open spec fn os_suffix(os: Seq<char>) -> Seq<char> {
    if os == "windows"@ {
        "_portable.exe"@
    } else if os == "linux"@ {
        "_portable"@
    } else if os == "macos"@ {
        ".app.tar.gz"@
    } else {
        ""@
    }
}

/// The name of the file of a release for a system and an architecture.
pub open spec fn resource_filename(ver: Seq<char>, os: Seq<char>, arch: Seq<char>) -> Seq<char> {
    "BGUMCL_"@ + ver + "_"@ + os + "_"@ + arch_name(arch) + os_suffix(os)
}

/// The name of the file of a release for a system and an architecture.
pub fn build_resource_filename(ver: &str, os: &str, arch: &str) -> (r: String)
    ensures
        r@ == resource_filename(ver@, os@, arch@),
{
    let arch = if same(arch, "x86") {
        "i686"
    } else {
        arch
    };
    let suffix = if same(os, "windows") {
        "_portable.exe"
    } else if same(os, "linux") {
        "_portable"
    } else if same(os, "macos") {
        ".app.tar.gz"
    } else {
        ""
    };
    let mut name = concat4("BGUMCL_", ver, "_", os);
    name.append("_");
    name.append(arch);
    name.append(suffix);
    name
}

/// A name with the first occurrence of a version replaced by another; the name itself where it
/// holds none.
pub open spec fn renamed(
    old_name: Seq<char>,
    old_version: Seq<char>,
    new_version: Seq<char>,
) -> Seq<char> {
    match index_of(old_name, old_version) {
        Some(i) => old_name.take(i) + new_version + old_name.skip(i + old_version.len()),
        None => old_name,
    }
}

/// The name of the new file on the local disk: the old one with the first occurrence of the old
/// version replaced by the new one, or unchanged where it holds none.
pub fn build_local_new_filename(old_name: &str, old_version: &str, new_version: &str) -> (r: String)
    ensures
        r@ == renamed(old_name@, old_version@, new_version@),
{
    proof {
        lemma_index_from(old_name@, old_version@, 0);
    }
    match find(old_name, old_version) {
        Some(i) => {
            let chars = chars_of(old_name);
            let width = old_version.unicode_len();
            assert(i + width <= chars.len());
            let head = text_between(&chars, 0, i);
            let tail = text_between(&chars, i + width, chars.len());
            assert(head@ =~= old_name@.take(i as int));
            assert(tail@ =~= old_name@.skip(i + width));
            concat3(head.as_str(), new_version, tail.as_str())
        },
        None => old_name.to_owned(),
    }
}

/// The version of a downloaded file: the second part of its name between underscores, or the
/// current version where it has none.
pub open spec fn version_of_file(filename: Seq<char>, current: Seq<char>) -> Seq<char> {
    let parts = pieces(filename, '_');
    if parts.len() > 1 {
        parts[1]
    } else {
        current
    }
}

/// The version of a downloaded file.
pub fn downloaded_version(filename: &str, current: &str) -> (r: String)
    ensures
        r@ == version_of_file(filename@, current@),
{
    let parts = split(filename, '_');
    assert(texts(parts@).len() == parts@.len());
    if parts.len() > 1 {
        assert(texts(parts@)[1] == parts@[1]@);
        parts[1].clone()
    } else {
        current.to_owned()
    }
}

/// The name under which a downloaded file takes the place of the running one.
pub fn update_target_name(downloaded: &str, current_version: &str, old_name: &str) -> (r: String)
    ensures
        r@ == renamed(
            old_name@,
            current_version@,
            version_of_file(downloaded@, current_version@),
        ),
{
    let new_version = downloaded_version(downloaded, current_version);
    build_local_new_filename(old_name, current_version, new_version.as_str())
}

// ---------------------------------------------------------------------------------------------
// The latest release
// ---------------------------------------------------------------------------------------------
/// A release of the launcher.
#[derive(Debug)]
pub struct LauncherRelease {
    pub version: String,
    pub filename: String,
    pub download_url: String,
    pub release_notes: String,
    pub published_at: String,
}

/// A release as texts.
pub struct ReleaseModel {
    pub version: Seq<char>,
    pub filename: Seq<char>,
    pub download_url: Seq<char>,
    pub release_notes: Seq<char>,
    pub published_at: Seq<char>,
}

impl View for LauncherRelease {
    type V = ReleaseModel;

    open spec fn view(&self) -> ReleaseModel {
        ReleaseModel {
            version: self.version@,
            filename: self.filename@,
            download_url: self.download_url@,
            release_notes: self.release_notes@,
            published_at: self.published_at@,
        }
    }
}

/// What the description of a release tells.
#[derive(Debug)]
pub struct ReleaseFacts {
    pub version: Option<String>,
    pub base_url: Option<String>,
    pub release_notes: Option<String>,
    pub published_at: Option<String>,
}

/// What the description of a release tells, as texts.
pub struct ReleaseFactsModel {
    pub version: Option<Seq<char>>,
    pub base_url: Option<Seq<char>>,
    pub release_notes: Option<Seq<char>>,
    pub published_at: Option<Seq<char>>,
}

impl View for ReleaseFacts {
    type V = ReleaseFactsModel;

    open spec fn view(&self) -> ReleaseFactsModel {
        ReleaseFactsModel {
            version: opt_text(self.version),
            base_url: opt_text(self.base_url),
            release_notes: opt_text(self.release_notes),
            published_at: opt_text(self.published_at),
        }
    }
}

/// A text, or another in its place.
pub open spec fn or_else(text: Option<Seq<char>>, other: Seq<char>) -> Seq<char> {
    match text {
        Some(text) => text,
        None => other,
    }
}

/// The release that a description tells of, for a system and an architecture. It must tell a
/// version; the rest can be left out.
pub open spec fn described_release(facts: ReleaseFactsModel, os: Seq<char>, arch: Seq<char>) -> Result<
    ReleaseModel,
    LauncherConfigError,
> {
    match facts.version {
        None => Err(LauncherConfigError::FetchError),
        Some(version) => {
            let filename = resource_filename(version, os, arch);
            let base = without_trailing(or_else(facts.base_url, DOWNLOAD_BASE_URL@), '/');
            Ok(
                ReleaseModel {
                    version,
                    filename,
                    download_url: base + "/"@ + filename,
                    release_notes: or_else(facts.release_notes, ""@),
                    published_at: or_else(facts.published_at, ""@),
                },
            )
        },
    }
}

/// The result of reading a description, as texts.
pub open spec fn release_result(r: Result<LauncherRelease, LauncherConfigError>) -> Result<
    ReleaseModel,
    LauncherConfigError,
> {
    match r {
        Ok(release) => Ok(release@),
        Err(error) => Err(error),
    }
}

fn text_or(text: &Option<String>, other: &str) -> (r: String)
    ensures
        r@ == or_else(opt_text(*text), other@),
{
    match text {
        Some(text) => text.clone(),
        None => other.to_owned(),
    }
}

/// The release that a description tells of, for a system and an architecture.
pub fn release_from(facts: &ReleaseFacts, os: &str, arch: &str) -> (r: Result<
    LauncherRelease,
    LauncherConfigError,
>)
    ensures
        release_result(r) == described_release(facts@, os@, arch@),
{
    let version = match &facts.version {
        Some(version) => version.clone(),
        None => {
            return Err(LauncherConfigError::FetchError);
        },
    };
    let base = text_or(&facts.base_url, DOWNLOAD_BASE_URL);
    let base_url = trim_end(base.as_str(), '/');
    let filename = build_resource_filename(version.as_str(), os, arch);
    let download_url = concat3(base_url.as_str(), "/", filename.as_str());
    Ok(
        LauncherRelease {
            version,
            filename,
            download_url,
            release_notes: text_or(&facts.release_notes, ""),
            published_at: text_or(&facts.published_at, ""),
        },
    )
}

/// The string at a place of a document, if one stands there.
pub open spec fn string_at(document: Seq<u8>, pointer: Seq<char>) -> Option<Seq<char>> {
    match json_at(document, pointer) {
        JsonModel::Text(s) => Some(s),
        _ => None,
    }
}

fn string_of(body: &[u8], pointer: &str) -> (r: Option<String>)
    ensures
        opt_text(r) == string_at(body@, pointer@),
{
    match json_node(body, pointer) {
        JsonNode::Text(s) => Some(s),
        _ => None,
    }
}

/// What a document tells of a release.
pub open spec fn facts_in(document: Seq<u8>) -> ReleaseFactsModel {
    ReleaseFactsModel {
        version: string_at(document, "/version"@),
        base_url: string_at(document, "/base_url"@),
        release_notes: string_at(document, "/release_notes"@),
        published_at: string_at(document, "/published_at"@),
    }
}

/// The latest release, by the document that describes it, for a system and an architecture.
pub fn latest_release(body: &[u8], os: &str, arch: &str) -> (r: Result<
    LauncherRelease,
    LauncherConfigError,
>)
    ensures
        release_result(r) == described_release(facts_in(body@), os@, arch@),
{
    let facts = ReleaseFacts {
        version: string_of(body, "/version"),
        base_url: string_of(body, "/base_url"),
        release_notes: string_of(body, "/release_notes"),
        published_at: string_of(body, "/published_at"),
    };
    release_from(&facts, os, arch)
}

// ---------------------------------------------------------------------------------------------
// Downloading a release
// ---------------------------------------------------------------------------------------------
/// Where a file of a release is: at the address told, or else at the usual place.
pub open spec fn release_address(
    version: Seq<char>,
    filename: Seq<char>,
    told: Option<Seq<char>>,
) -> Seq<char> {
    match told {
        Some(url) => url,
        None => DOWNLOAD_BASE_URL@ + "/v"@ + version + "/"@ + filename,
    }
}

/// Where a file of a release is.
pub fn target_version_url(version: &str, filename: &str, download_url: &Option<String>) -> (r: String)
    ensures
        r@ == release_address(version@, filename@, opt_text(*download_url)),
{
    match download_url {
        Some(url) => url.clone(),
        None => {
            let mut url = concat4(DOWNLOAD_BASE_URL, "/v", version, "/");
            url.append(filename);
            url
        },
    }
}

/// The download of a release, given its address read.
pub open spec fn release_download(
    src: UrlModel,
    cache_dir: PathModel,
    filename: Seq<char>,
) -> ParamModel {
    ParamModel { src, dest: cache_dir.child(filename), filename: Some(filename), sha1: None }
}

/// The download of a release, given its address read.
pub fn release_param(src: UrlParts, cache_dir: &TargetPath, filename: &str) -> (r: DownloadParam)
    ensures
        r@ == release_download(src@, cache_dir@, filename@),
{
    DownloadParam {
        src,
        dest: cache_dir.child(filename),
        filename: Some(filename.to_owned()),
        sha1: None,
    }
}

/// The download of a release; there is none where its address is none.
pub fn download_target_version(
    version: &str,
    filename: &str,
    download_url: &Option<String>,
    cache_dir: &TargetPath,
) -> (r: Result<DownloadParam, LauncherConfigError>)
    ensures
        ({
            let address = release_address(version@, filename@, opt_text(*download_url));
            match r {
                Ok(param) => url_parsed(address) is Ok && param@ == release_download(
                    url_parsed(address)->Ok_0,
                    cache_dir@,
                    filename@,
                ),
                Err(error) => url_parsed(address) is Err && error
                    == LauncherConfigError::FetchError,
            }
        }),
{
    let url = target_version_url(version, filename, download_url);
    match parse_url(url.as_str()) {
        Ok(src) => Ok(release_param(src, cache_dir, filename)),
        Err(_) => Err(LauncherConfigError::FetchError),
    }
}

/// The name of the task group that downloads a release.
pub fn update_group_name(filename: &str) -> (r: String)
    ensures
        r@ == "launcher-update?"@ + filename@,
{
    concat2("launcher-update?", filename)
}

/// The file of a release is named by its version, its system and its architecture. The version can be
/// read from its name again.
pub proof fn files_of_releases_are_named(
    ver: Seq<char>,
    os: Seq<char>,
    arch: Seq<char>,
    current: Seq<char>,
)
    ensures
        arch != "x86"@ ==> resource_filename(ver, "windows"@, arch) == "BGUMCL_"@ + ver
            + "_windows_"@ + arch + "_portable.exe"@,
        arch != "x86"@ ==> resource_filename(ver, "linux"@, arch) == "BGUMCL_"@ + ver + "_linux_"@
            + arch + "_portable"@,
        arch != "x86"@ ==> resource_filename(ver, "macos"@, arch) == "BGUMCL_"@ + ver + "_macos_"@
            + arch + ".app.tar.gz"@,
        resource_filename(ver, os, "x86"@) == resource_filename(ver, os, "i686"@),
        !holds(ver, '_') ==> version_of_file(resource_filename(ver, os, arch), current) == ver,
{
    reveal_strlit("windows");
    reveal_strlit("linux");
    reveal_strlit("macos");
    reveal_strlit("_windows_");
    reveal_strlit("_linux_");
    reveal_strlit("_macos_");
    reveal_strlit("_");
    reveal_strlit("x86");
    reveal_strlit("i686");
    assert("windows"@.len() != "linux"@.len());
    assert("linux"@[0] != "macos"@[0]);
    assert("windows"@.len() != "macos"@.len());
    assert("x86"@.len() != "i686"@.len());
    assert("_windows_"@ =~= "_"@ + "windows"@ + "_"@);
    assert("_linux_"@ =~= "_"@ + "linux"@ + "_"@);
    assert("_macos_"@ =~= "_"@ + "macos"@ + "_"@);
    assert(arch != "x86"@ ==> resource_filename(ver, "windows"@, arch) =~= "BGUMCL_"@ + ver
        + "_windows_"@ + arch + "_portable.exe"@);
    assert(arch != "x86"@ ==> resource_filename(ver, "linux"@, arch) =~= "BGUMCL_"@ + ver
        + "_linux_"@ + arch + "_portable"@);
    assert(arch != "x86"@ ==> resource_filename(ver, "macos"@, arch) =~= "BGUMCL_"@ + ver
        + "_macos_"@ + arch + ".app.tar.gz"@);
    if !holds(ver, '_') {
        lemma_second_part(ver, os + "_"@ + arch_name(arch) + os_suffix(os));
        assert(resource_filename(ver, os, arch) =~= "BGUMCL_"@ + ver + "_"@ + (os + "_"@
            + arch_name(arch) + os_suffix(os)));
    }
}

proof fn lemma_second_part(ver: Seq<char>, rest: Seq<char>)
    requires
        !holds(ver, '_'),
    ensures
        pieces("BGUMCL_"@ + ver + "_"@ + rest, '_').len() > 1,
        pieces("BGUMCL_"@ + ver + "_"@ + rest, '_')[1] == ver,
{
    reveal_strlit("BGUMCL_");
    reveal_strlit("_");
    let mark = seq!['_'];
    let name = seq!['B', 'G', 'U', 'M', 'C', 'L'];
    let inner = ver + mark + rest;
    let whole = "BGUMCL_"@ + ver + "_"@ + rest;
    assert("_"@ =~= mark);
    assert("BGUMCL_"@ =~= name + mark);
    assert(whole =~= name + mark + inner);
    assert(!holds(name, '_'));
    texts_are_parted_at_the_first_pattern(name, mark, inner);
    texts_are_parted_at_the_first_pattern(ver, mark, rest);
    assert(whole.skip(7) =~= inner);
    assert(inner.take(ver.len() as int) =~= ver);
    assert(pieces(whole, '_')[1] == pieces(inner, '_')[0]);
}

/// Where the old version stands in a name, the new one stands in its place afterwards, and what is
/// around it stays.
pub proof fn the_new_version_takes_the_place_of_the_old(
    front: Seq<char>,
    old_version: Seq<char>,
    back: Seq<char>,
    new_version: Seq<char>,
)
    requires
        old_version.len() > 0,
        !holds(front, old_version[0]),
    ensures
        renamed(front + old_version + back, old_version, new_version) == front + new_version + back,
{
    let s = front + old_version + back;
    texts_are_parted_at_the_first_pattern(front, old_version, back);
    assert(s.take(front.len() as int) =~= front);
    assert(s.skip((front.len() + old_version.len()) as int) =~= back);
}

/// A release is told by its version alone. Its file is at the address that the description tells,
/// with or without a slash at the end, or else at the usual place; what is not told is empty.
pub proof fn releases_are_as_described(facts: ReleaseFactsModel, os: Seq<char>, arch: Seq<char>)
    ensures
        described_release(facts, os, arch) is Ok <==> facts.version is Some,
        described_release(facts, os, arch) matches Ok(release) ==> {
            &&& release.version == facts.version->0
            &&& release.filename == resource_filename(release.version, os, arch)
            &&& facts.base_url is None ==> release.download_url
                == "https://github.com/Muzimi-ciallo/BGUMCL/releases/download/"@ + release.filename
            &&& facts.base_url matches Some(base) ==> (base.len() > 0 && base.last() != '/'
                ==> release.download_url == base + "/"@ + release.filename)
            &&& facts.base_url matches Some(base) ==> described_release(
                ReleaseFactsModel { base_url: Some(base.push('/')), ..facts },
                os,
                arch,
            ) == Ok::<ReleaseModel, LauncherConfigError>(release)
            &&& facts.release_notes matches Some(notes) ==> release.release_notes == notes
            &&& facts.release_notes is None ==> release.release_notes.len() == 0
            &&& facts.published_at matches Some(time) ==> release.published_at == time
            &&& facts.published_at is None ==> release.published_at.len() == 0
        },
{
    reveal_strlit("");
    if let Some(base) = facts.base_url {
        assert(base.push('/').drop_last() =~= base);
    }
    if let Ok(release) = described_release(facts, os, arch) {
        reveal_strlit("https://github.com/Muzimi-ciallo/BGUMCL/releases/download");
        reveal_strlit("https://github.com/Muzimi-ciallo/BGUMCL/releases/download/");
        reveal_strlit("/");
        assert(DOWNLOAD_BASE_URL@.last() != '/');
        assert(without_trailing(DOWNLOAD_BASE_URL@, '/') == DOWNLOAD_BASE_URL@);
        assert("https://github.com/Muzimi-ciallo/BGUMCL/releases/download/"@ =~= DOWNLOAD_BASE_URL@
            + "/"@);
    }
}

/// A description tells a fact exactly where a string stands under its name.
pub proof fn facts_stand_under_their_names(document: Seq<u8>)
    ensures
        json_at(document, "/version"@) matches JsonModel::Text(s) ==> facts_in(document).version
            == Some(s),
        json_at(document, "/base_url"@) matches JsonModel::Text(s) ==> facts_in(document).base_url
            == Some(s),
        json_at(document, "/release_notes"@) matches JsonModel::Text(s) ==> facts_in(
            document,
        ).release_notes == Some(s),
        json_at(document, "/published_at"@) matches JsonModel::Text(s) ==> facts_in(
            document,
        ).published_at == Some(s),
        facts_in(document).version is Some ==> json_at(document, "/version"@) is Text,
        facts_in(document).base_url is Some ==> json_at(document, "/base_url"@) is Text,
        facts_in(document).release_notes is Some ==> json_at(document, "/release_notes"@) is Text,
        facts_in(document).published_at is Some ==> json_at(document, "/published_at"@) is Text,
{
}

/// A release is fetched from the address that is told for it, or from below its tag, which is its
/// version behind a `v`. It is stored under its file name, and not checked against a hash.
pub proof fn releases_are_fetched_from_their_tag(
    version: Seq<char>,
    filename: Seq<char>,
    told: Seq<char>,
    src: UrlModel,
    cache_dir: PathModel,
)
    ensures
        release_address(version, filename, Some(told)) == told,
        release_address(version, filename, None)
            == "https://github.com/Muzimi-ciallo/BGUMCL/releases/download/v"@ + version + "/"@
            + filename,
        ({
            let param = release_download(src, cache_dir, filename);
            &&& param.src == src && param.dest == cache_dir.child(filename)
            &&& param.filename == Some(filename) && param.sha1 is None
        }),
{
    reveal_strlit("https://github.com/Muzimi-ciallo/BGUMCL/releases/download");
    reveal_strlit("https://github.com/Muzimi-ciallo/BGUMCL/releases/download/v");
    reveal_strlit("/v");
    assert("https://github.com/Muzimi-ciallo/BGUMCL/releases/download/v"@ =~= DOWNLOAD_BASE_URL@
        + "/v"@);
}

/// Renaming from a version that the name does not hold changes nothing, and renaming replaces no
/// more than the version: what stands before and behind it stays.
pub proof fn renaming_replaces_only_the_version(
    old_name: Seq<char>,
    old_version: Seq<char>,
    new_version: Seq<char>,
)
    ensures
        index_of(old_name, old_version) is None ==> renamed(old_name, old_version, new_version)
            == old_name,
        renamed(old_name, old_version, old_version) == old_name,
        index_of(old_name, old_version) is Some ==> renamed(
            old_name,
            old_version,
            new_version,
        ).len() == old_name.len() - old_version.len() + new_version.len(),
{
    lemma_index_from(old_name, old_version, 0);
    if let Some(i) = index_of(old_name, old_version) {
        assert(old_name.take(i) + old_version + old_name.skip(i + old_version.len()) =~= old_name);
    }
}

} // verus!
