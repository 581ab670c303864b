//! Downloading the modpack of the Wanda server: which release, from where, and what is kept of the
//! archive that arrives.
use vstd::prelude::*;
use vstd::utf8::encode_utf8;
use crate::external::{
    backslash_separates, control, device_name, dots_alone, file_name_of, fitting, illegal_in_names,
    is_semver, json_at, json_node, last_name, last_part, legal_name, parses_as_version, plain_path,
    sanitize_name, sanitized_name, semver_order, version_order, JsonModel, JsonNode, VersionOrder,
};
use crate::instance::models::InstanceError;
use crate::paths::{file_names_part_at_the_last_dot, split_file_name, stem_and_extension};
use crate::text::{
    concat2, concat3, contains, decimal, decimal_text, distinct, distinct_begins,
    distinct_keeps_texts, has, holds, lower, opt_text, same, same_ignoring_case, texts, trim_start,
    trimmed_end, without_leading, without_repetitions,
};
use crate::web::{gh_proxy_candidates, github_candidates, names_github};

verus! {

/// The addresses that tell of the latest release, in the order in which they are asked.
pub const GITEE_RELEASE_API: &'static str =
    "https://gitee.com/api/v5/repos/Muzimimiao/BBGU-Minecraft-sever/releases/latest";

pub const GITHUB_RELEASE_API: &'static str =
    "https://api.github.com/repos/Muzimi-ciallo/BBGU-Minecraft-sever/releases/latest";

/// The file that is downloaded where no address told of a release.
pub const FALLBACK_ASSET: &'static str = "Fabulously.Optimized-v6.5.0.mrpack";

/// The directory of the release that holds it.
pub const FALLBACK_RELEASE: &'static str =
    "https://gitee.com/Muzimimiao/BBGU-Minecraft-sever/releases/download/1.0.0/";

/// The name of a file that has no usable name of its own.
pub const DEFAULT_ASSET_NAME: &'static str = "wanda-server-modpack.zip";

/// The most bytes that a modpack inside an archive may have.
pub const MAX_NESTED_WANDA_MODPACK_SIZE: u64 = 2_147_483_648;

// ---------------------------------------------------------------------------------------------
// The files of a release
// ---------------------------------------------------------------------------------------------
/// A file of a release, as it is listed: its name, its address, and the last name of the path
/// that its name is.
#[derive(Debug)]
pub struct ReleaseAsset {
    pub name: Option<String>,
    pub url: Option<String>,
    pub file_name: Option<String>,
}

/// A listed file as texts.
pub struct ReleaseAssetModel {
    pub name: Option<Seq<char>>,
    pub url: Option<Seq<char>>,
    pub file_name: Option<Seq<char>>,
}

/// A listed file as texts.
pub open spec fn asset_view(a: ReleaseAsset) -> ReleaseAssetModel {
    ReleaseAssetModel {
        name: opt_text(a.name),
        url: opt_text(a.url),
        file_name: opt_text(a.file_name),
    }
}

/// Listed files as texts.
pub open spec fn asset_views(v: Seq<ReleaseAsset>) -> Seq<ReleaseAssetModel> {
    v.map_values(|a: ReleaseAsset| asset_view(a))
}

/// A file of a release that can be downloaded.
#[derive(Debug)]
pub struct WandaAsset {
    pub name: String,
    pub url: String,
}

/// A file as its name and address.
pub open spec fn wanda_view(a: WandaAsset) -> (Seq<char>, Seq<char>) {
    (a.name@, a.url@)
}

/// Files as names and addresses.
pub open spec fn wanda_views(v: Seq<WandaAsset>) -> Seq<(Seq<char>, Seq<char>)> {
    v.map_values(|a: WandaAsset| wanda_view(a))
}

/// An optional file as its name and address.
pub open spec fn opt_wanda(a: Option<WandaAsset>) -> Option<(Seq<char>, Seq<char>)> {
    match a {
        Some(a) => Some(wanda_view(a)),
        None => None,
    }
}

/// A file name has an extension, in capitals or small letters.
pub open spec fn has_extension(file_name: Option<Seq<char>>, extension: Seq<char>) -> bool {
    match file_name {
        Some(name) => match stem_and_extension(name).1 {
            Some(own) => lower(own) == lower(extension),
            None => false,
        },
        None => false,
    }
}

/// Whether a file name has an extension, in capitals or small letters.
pub fn extension_is(file_name: &Option<String>, extension: &str) -> (r: bool)
    ensures
        r == has_extension(opt_text(*file_name), extension@),
{
    match file_name {
        Some(name) => match split_file_name(name.as_str()).1 {
            Some(own) => same_ignoring_case(own.as_str(), extension),
            None => false,
        },
        None => false,
    }
}

/// What a listed file offers, if it has a name with an extension and an address that is not that
/// of an archive made of the source.
pub open spec fn offered(a: ReleaseAssetModel, extension: Seq<char>) -> Option<
    (Seq<char>, Seq<char>),
> {
    match (a.name, a.url) {
        (Some(name), Some(url)) => if has_extension(a.file_name, extension) && !contains(
            url,
            "/archive/refs/tags/"@,
        ) {
            Some((name, url))
        } else {
            None
        },
        _ => None,
    }
}

/// The first file with an extension that is offered.
pub open spec fn first_offered(assets: Seq<ReleaseAssetModel>, extension: Seq<char>) -> Option<
    (Seq<char>, Seq<char>),
>
    decreases assets.len(),
{
    if assets.len() == 0 {
        None
    } else {
        match first_offered(assets.drop_last(), extension) {
            Some(found) => Some(found),
            None => offered(assets.last(), extension),
        }
    }
}

/// The file of a release to download: the first modpack, or else the first zip archive.
pub open spec fn picked(assets: Seq<ReleaseAssetModel>) -> Option<(Seq<char>, Seq<char>)> {
    match first_offered(assets, "mrpack"@) {
        Some(found) => Some(found),
        None => first_offered(assets, "zip"@),
    }
}

proof fn lemma_first_offered(assets: Seq<ReleaseAssetModel>, extension: Seq<char>, n: int)
    requires
        0 <= n <= assets.len(),
        first_offered(assets.take(n), extension) is Some,
    ensures
        first_offered(assets, extension) == first_offered(assets.take(n), extension),
    decreases assets.len() - n,
{
    if n < assets.len() {
        assert(assets.take(n + 1).drop_last() =~= assets.take(n));
        lemma_first_offered(assets, extension, n + 1);
    } else {
        assert(assets.take(n) =~= assets);
    }
}

/// A listed file is offered by its name and its address where its file name has the extension, in
/// capitals or small letters, and its address is not that of an archive made of the source. One
/// without a name or without an address is not offered.
pub proof fn files_are_offered_by_their_extension(
    a: ReleaseAssetModel,
    stem: Seq<char>,
    own: Seq<char>,
    extension: Seq<char>,
)
    requires
        a.file_name == Some(stem + "."@ + own),
        stem.len() > 0,
        !holds(own, '.'),
    ensures
        offered(a, extension) is Some <==> a.name is Some && a.url is Some && lower(own) == lower(
            extension,
        ) && !contains(a.url->0, "/archive/refs/tags/"@),
        offered(a, extension) matches Some((name, url)) ==> a.name == Some(name) && a.url == Some(url),
{
    file_names_part_at_the_last_dot(stem, own, Seq::empty());
}

/// The file with an extension that is listed first among those offered is the one that is found.
pub proof fn the_first_file_offered_is_found(
    assets: Seq<ReleaseAssetModel>,
    extension: Seq<char>,
    i: int,
)
    requires
        0 <= i <= assets.len(),
        forall|k: int| 0 <= k < i ==> offered(#[trigger] assets[k], extension) is None,
    ensures
        i < assets.len() && offered(assets[i], extension) is Some ==> first_offered(assets, extension)
            == offered(assets[i], extension),
        i == assets.len() ==> first_offered(assets, extension) is None,
    decreases assets.len(),
{
    if assets.len() > 0 {
        let front = assets.drop_last();
        if i < assets.len() {
            the_first_file_offered_is_found(front, extension, i);
        } else {
            assert(offered(assets[i - 1], extension) is None);
            the_first_file_offered_is_found(front, extension, i - 1);
        }
    }
}

/// A modpack goes before every archive, wherever they stand in the list.
pub proof fn modpacks_go_before_archives(assets: Seq<ReleaseAssetModel>, i: int)
    requires
        0 <= i < assets.len(),
    ensures
        offered(assets[i], "mrpack"@) is Some && (forall|k: int|
            0 <= k < i ==> offered(#[trigger] assets[k], "mrpack"@) is None) ==> picked(assets)
            == offered(assets[i], "mrpack"@),
        offered(assets[i], "zip"@) is Some && (forall|k: int|
            0 <= k < assets.len() ==> offered(#[trigger] assets[k], "mrpack"@) is None) && (forall|
            k: int,
        |
            0 <= k < i ==> offered(#[trigger] assets[k], "zip"@) is None) ==> picked(assets)
            == offered(assets[i], "zip"@),
        (forall|k: int|
            0 <= k < assets.len() ==> offered(#[trigger] assets[k], "mrpack"@) is None && offered(
                assets[k],
                "zip"@,
            ) is None) ==> picked(assets) is None,
{
    let n = assets.len() as int;
    if forall|k: int| 0 <= k < i ==> offered(#[trigger] assets[k], "mrpack"@) is None {
        the_first_file_offered_is_found(assets, "mrpack"@, i);
    }
    if forall|k: int| 0 <= k < n ==> offered(#[trigger] assets[k], "mrpack"@) is None {
        the_first_file_offered_is_found(assets, "mrpack"@, n);
        if forall|k: int| 0 <= k < i ==> offered(#[trigger] assets[k], "zip"@) is None {
            the_first_file_offered_is_found(assets, "zip"@, i);
        }
        if forall|k: int| 0 <= k < n ==> offered(#[trigger] assets[k], "zip"@) is None {
            the_first_file_offered_is_found(assets, "zip"@, n);
        }
    }
}

fn find_offered(assets: &Vec<ReleaseAsset>, extension: &str) -> (r: Option<WandaAsset>)
    ensures
        opt_wanda(r) == first_offered(asset_views(assets@), extension@),
{
    let ghost all = asset_views(assets@);
    let mut i: usize = 0;
    while i < assets.len()
        invariant
            i <= assets.len(),
            all == asset_views(assets@),
            first_offered(all.take(i as int), extension@) is None,
        decreases assets.len() - i,
    {
        let asset = &assets[i];
        let ghost upto = all.take(i + 1);
        assert(upto.drop_last() =~= all.take(i as int));
        assert(upto.last() == asset_view(assets@[i as int]));
        if let Some(name) = &asset.name {
            if let Some(url) = &asset.url {
                let generated = has(url.as_str(), "/archive/refs/tags/");
                if extension_is(&asset.file_name, extension) && !generated {
                    proof {
                        lemma_first_offered(all, extension@, i + 1);
                    }
                    return Some(WandaAsset { name: name.clone(), url: url.clone() });
                }
            }
        }
        i += 1;
    }
    assert(all.take(all.len() as int) =~= all);
    None
}

/// The file of a release to download, among those listed: the first modpack, or else the first
/// zip archive. Archives made of the source are passed over.
pub fn pick_asset(assets: &Vec<ReleaseAsset>) -> (r: Option<WandaAsset>)
    ensures
        opt_wanda(r) == picked(asset_views(assets@)),
{
    match find_offered(assets, "mrpack") {
        Some(found) => Some(found),
        None => find_offered(assets, "zip"),
    }
}

/// The string at a place of a document, if one stands there.
pub open spec fn text_at(node: JsonModel) -> Option<Seq<char>> {
    match node {
        JsonModel::Text(s) => Some(s),
        _ => None,
    }
}

/// Something stands at a place of a document.
pub open spec fn stands(node: JsonModel) -> bool {
    !(node is Missing) && !(node is Invalid)
}

/// Where a property of a listed file stands.
pub open spec fn asset_pointer(i: nat, property: Seq<char>) -> Seq<char> {
    "/assets/"@ + decimal(i) + property
}

/// The address of a listed file: the first of three properties that stands, if it is a string.
pub open spec fn asset_url_at(document: Seq<u8>, i: nat) -> Option<Seq<char>> {
    let browser = json_at(document, asset_pointer(i, "/browser_download_url"@));
    let download = json_at(document, asset_pointer(i, "/download_url"@));
    let plain = json_at(document, asset_pointer(i, "/url"@));
    if stands(browser) {
        text_at(browser)
    } else if stands(download) {
        text_at(download)
    } else {
        text_at(plain)
    }
}

/// The address of a listed file is its `browser_download_url`; only where it has none its
/// `download_url`, and only where it has neither its `url`.
pub proof fn addresses_are_read_in_turn(document: Seq<u8>, i: nat)
    ensures
        ({
            let browser = json_at(document, "/assets/"@ + decimal(i) + "/browser_download_url"@);
            let download = json_at(document, "/assets/"@ + decimal(i) + "/download_url"@);
            let plain = json_at(document, "/assets/"@ + decimal(i) + "/url"@);
            &&& browser matches JsonModel::Text(s) ==> asset_url_at(document, i) == Some(s)
            &&& browser is Missing ==> (download matches JsonModel::Text(s) ==> asset_url_at(
                document,
                i,
            ) == Some(s))
            &&& browser is Missing && download is Missing ==> (plain matches JsonModel::Text(s)
                ==> asset_url_at(document, i) == Some(s))
            &&& browser is Missing && download is Missing && plain is Missing ==> asset_url_at(
                document,
                i,
            ) is None
        }),
{
}

/// The last name of the path that a text is, if there is a text.
pub open spec fn is_last_name(name: Option<Seq<char>>, last: Option<Seq<char>>) -> bool {
    match name {
        Some(name) => {
            &&& exists|windows: bool| last == #[trigger] file_name_of(name, windows)
            &&& plain_path(name) ==> last == Some(last_part(name))
        },
        None => last is None,
    }
}

/// A listed file is what stands at a position of a document.
pub open spec fn is_asset_at(document: Seq<u8>, i: nat, asset: ReleaseAssetModel) -> bool {
    &&& asset.name == text_at(json_at(document, asset_pointer(i, "/name"@)))
    &&& asset.url == asset_url_at(document, i)
    &&& is_last_name(asset.name, asset.file_name)
}

/// The files that a document lists.
pub open spec fn lists(document: Seq<u8>, assets: Option<Seq<ReleaseAssetModel>>) -> bool {
    match json_at(document, "/assets"@) {
        JsonModel::Array(n) => match assets {
            Some(assets) => assets.len() == n && forall|i: int|
                0 <= i < n ==> is_asset_at(document, i as nat, #[trigger] assets[i]),
            None => false,
        },
        _ => assets is None,
    }
}

/// A document lists as many files as its array has, each with its own name and address; without an array
/// it lists none.
pub proof fn every_file_of_a_release_is_listed(
    document: Seq<u8>,
    assets: Option<Seq<ReleaseAssetModel>>,
    n: usize,
    i: int,
)
    requires
        lists(document, assets),
    ensures
        json_at(document, "/assets"@) == JsonModel::Array(n as nat) ==> {
            &&& assets is Some && (assets->0).len() == n
            &&& 0 <= i < n ==> (assets->0)[i].url == asset_url_at(document, i as nat)
            &&& 0 <= i < n && json_at(
                document,
                "/assets/"@ + decimal(i as nat) + "/name"@,
            ) is Text ==> (assets->0)[i].name == Some(
                json_at(document, "/assets/"@ + decimal(i as nat) + "/name"@)->Text_0,
            )
            &&& 0 <= i < n && (assets->0)[i].name is Some && plain_path(
                (assets->0)[i].name->0,
            ) ==> (assets->0)[i].file_name == Some(last_part((assets->0)[i].name->0))
        },
        !(json_at(document, "/assets"@) is Array) ==> assets is None,
{
    if json_at(document, "/assets"@) == JsonModel::Array(n as nat) && 0 <= i < n {
        assert(is_asset_at(document, i as nat, (assets->0)[i]));
    }
}

/// Optional listed files as texts.
pub open spec fn opt_assets(a: Option<Vec<ReleaseAsset>>) -> Option<Seq<ReleaseAssetModel>> {
    match a {
        Some(v) => Some(asset_views(v@)),
        None => None,
    }
}

fn text_of(node: JsonNode) -> (r: Option<String>)
    ensures
        opt_text(r) == text_at(node@),
{
    match node {
        JsonNode::Text(s) => Some(s),
        _ => None,
    }
}

fn is_there(node: &JsonNode) -> (r: bool)
    ensures
        r == stands(node@),
{
    match node {
        JsonNode::Missing => false,
        JsonNode::Invalid => false,
        _ => true,
    }
}

fn asset_node(body: &[u8], i: usize, property: &str) -> (r: JsonNode)
    ensures
        r@ == json_at(body@, asset_pointer(i as nat, property@)),
{
    let number = decimal_text(i as u64);
    let pointer = concat3("/assets/", number.as_str(), property);
    json_node(body, pointer.as_str())
}

fn asset_at(body: &[u8], i: usize) -> (r: ReleaseAsset)
    ensures
        is_asset_at(body@, i as nat, asset_view(r)),
{
    let name = text_of(asset_node(body, i, "/name"));
    let browser = asset_node(body, i, "/browser_download_url");
    let url = if is_there(&browser) {
        text_of(browser)
    } else {
        let download = asset_node(body, i, "/download_url");
        if is_there(&download) {
            text_of(download)
        } else {
            text_of(asset_node(body, i, "/url"))
        }
    };
    let file_name = match &name {
        Some(name) => last_name(name.as_str()),
        None => None,
    };
    ReleaseAsset { name, url, file_name }
}

/// The files that the description of a release lists; `None` if it lists none.
pub fn listed_assets(body: &[u8]) -> (r: Option<Vec<ReleaseAsset>>)
    ensures
        lists(body@, opt_assets(r)),
{
    let count: usize = match json_node(body, "/assets") {
        JsonNode::Array(n) => n,
        _ => {
            return None;
        },
    };
    let mut out: Vec<ReleaseAsset> = Vec::new();
    let mut i: usize = 0;
    while i < count
        invariant
            i <= count,
            out.len() == i,
            forall|k: int|
                0 <= k < i ==> is_asset_at(body@, k as nat, #[trigger] asset_views(out@)[k]),
        decreases count - i,
    {
        let ghost so_far = asset_views(out@);
        let asset = asset_at(body, i);
        out.push(asset);
        assert(asset_views(out@) =~= so_far.push(asset_view(asset)));
        i += 1;
    }
    Some(out)
}

/// The file to download of a release whose files are listed.
pub open spec fn picked_of(assets: Option<Seq<ReleaseAssetModel>>) -> Option<
    (Seq<char>, Seq<char>),
> {
    match assets {
        Some(assets) => picked(assets),
        None => None,
    }
}

/// The file of a release to download, by the description of the release.
pub fn wanda_release_asset(body: &[u8]) -> (r: Option<WandaAsset>)
    ensures
        exists|assets: Option<Seq<ReleaseAssetModel>>| #[trigger]
            lists(body@, assets) && opt_wanda(r) == picked_of(assets),
{
    let listed = listed_assets(body);
    let ghost assets = opt_assets(listed);
    assert(lists(body@, assets));
    match &listed {
        Some(assets) => pick_asset(assets),
        None => None,
    }
}

// ---------------------------------------------------------------------------------------------
// The releases that were told of
// ---------------------------------------------------------------------------------------------
/// What is known of the latest release: its files, its version, and whether any address told of
/// one.
#[derive(Debug)]
pub struct WandaReleases {
    pub assets: Vec<WandaAsset>,
    pub best: Option<String>,
    pub answered: bool,
}

/// What is known of the latest release, as texts.
#[verifier::ext_equal]
pub struct ReleasesModel {
    pub assets: Seq<(Seq<char>, Seq<char>)>,
    pub best: Option<Seq<char>>,
    pub answered: bool,
}

impl View for WandaReleases {
    type V = ReleasesModel;

    open spec fn view(&self) -> ReleasesModel {
        ReleasesModel {
            assets: wanda_views(self.assets@),
            best: opt_text(self.best),
            answered: self.answered,
        }
    }
}

/// Some file has an address.
pub open spec fn has_url(assets: Seq<(Seq<char>, Seq<char>)>, url: Seq<char>) -> bool {
    exists|i: int| 0 <= i < assets.len() && (#[trigger] assets[i]).1 == url
}

/// Files with one more, unless one has its address.
pub open spec fn with_asset(
    assets: Seq<(Seq<char>, Seq<char>)>,
    asset: (Seq<char>, Seq<char>),
) -> Seq<(Seq<char>, Seq<char>)> {
    if has_url(assets, asset.1) {
        assets
    } else {
        assets.push(asset)
    }
}

/// What is known once an address told of a release: a newer one takes the place of what was
/// known, one of the same version joins it, an older one is passed over. A release without a
/// version counts as older than any with one. `order` tells how the version stands to the best
/// one so far.
pub open spec fn after_release(
    s: ReleasesModel,
    asset: Option<(Seq<char>, Seq<char>)>,
    version: Option<Seq<char>>,
    order: Option<VersionOrder>,
) -> ReleasesModel {
    match asset {
        None => ReleasesModel { answered: true, ..s },
        Some(asset) => match (s.best, version) {
            (Some(_), Some(current)) => match order {
                Some(VersionOrder::Older) => ReleasesModel { answered: true, ..s },
                Some(VersionOrder::Newer) => ReleasesModel {
                    assets: seq![asset],
                    best: Some(current),
                    answered: true,
                },
                _ => ReleasesModel { assets: with_asset(s.assets, asset), answered: true, ..s },
            },
            (None, Some(current)) => ReleasesModel {
                assets: seq![asset],
                best: Some(current),
                answered: true,
            },
            (Some(_), None) => ReleasesModel { answered: true, ..s },
            (None, None) => ReleasesModel {
                assets: with_asset(s.assets, asset),
                answered: true,
                ..s
            },
        },
    }
}

/// The version that the description of a release tells.
pub open spec fn told_version(document: Seq<u8>) -> Option<Seq<char>> {
    match text_at(json_at(document, "/tag_name"@)) {
        Some(tag) => if is_semver(without_leading(tag, 'v')) {
            Some(without_leading(tag, 'v'))
        } else {
            None
        },
        None => None,
    }
}

/// The version of a release is its tag, with or without a `v` before it, if that is a version.
pub proof fn versions_are_read_from_tags(document: Seq<u8>, version: Seq<char>)
    requires
        version.len() > 0,
        version[0] != 'v',
    ensures
        json_at(document, "/tag_name"@) == JsonModel::Text(version) || json_at(document, "/tag_name"@)
            == JsonModel::Text("v"@ + version) ==> told_version(document) == (if is_semver(version) {
            Some(version)
        } else {
            None
        }),
        !(json_at(document, "/tag_name"@) is Text) ==> told_version(document) is None,
{
    reveal_strlit("v");
    let tag = "v"@ + version;
    assert(tag.skip(1) =~= version);
    assert(without_leading(version, 'v') == version);
    assert(without_leading(tag, 'v') == version);
}

/// How a version stands to the best one so far.
pub open spec fn order_to_best(
    best: Option<Seq<char>>,
    version: Option<Seq<char>>,
) -> Option<VersionOrder> {
    match (best, version) {
        (Some(best), Some(current)) => semver_order(current, best),
        _ => None,
    }
}

/// The addresses to try for files, before repetitions are left out.
pub open spec fn routes_of(assets: Seq<(Seq<char>, Seq<char>)>) -> Seq<Seq<char>>
    decreases assets.len(),
{
    if assets.len() == 0 {
        seq![]
    } else {
        routes_of(assets.drop_last()) + github_candidates(assets.last().1)
    }
}

/// What to download: the name of the file and the addresses to try.
#[derive(Debug)]
pub struct WandaPlan {
    pub name: String,
    pub candidates: Vec<String>,
}

/// What to download: the files of the newest release; the known file where nothing told of a
/// release; and nothing where the releases had no usable file.
pub open spec fn plan_of(s: ReleasesModel) -> Result<
    (Seq<char>, Seq<Seq<char>>),
    InstanceError,
> {
    if s.assets.len() > 0 {
        Ok((s.assets[0].0, distinct(routes_of(s.assets))))
    } else if s.answered {
        Err(InstanceError::ModpackManifestParseError)
    } else {
        Ok((FALLBACK_ASSET@, seq![FALLBACK_RELEASE@ + FALLBACK_ASSET@]))
    }
}

/// The result of planning, as texts.
pub open spec fn plan_result(r: Result<WandaPlan, InstanceError>) -> Result<
    (Seq<char>, Seq<Seq<char>>),
    InstanceError,
> {
    match r {
        Ok(plan) => Ok((plan.name@, texts(plan.candidates@))),
        Err(error) => Err(error),
    }
}

impl WandaReleases {
    /// Nothing is known yet.
    pub fn new() -> (r: Self)
        ensures
            r@ == (ReleasesModel { assets: seq![], best: None, answered: false }),
    {
        let r = WandaReleases { assets: Vec::new(), best: None, answered: false };
        assert(r@ =~= (ReleasesModel { assets: seq![], best: None, answered: false }));
        r
    }

    fn knows_url(&self, url: &str) -> (r: bool)
        ensures
            r == has_url(self@.assets, url@),
    {
        let ghost all = self@.assets;
        let mut i: usize = 0;
        while i < self.assets.len()
            invariant
                i <= self.assets.len(),
                all == wanda_views(self.assets@),
                forall|k: int| 0 <= k < i ==> (#[trigger] all[k]).1 != url@,
            decreases self.assets.len() - i,
        {
            assert(all[i as int].1 == self.assets@[i as int].url@);
            if same(self.assets[i].url.as_str(), url) {
                return true;
            }
            i += 1;
        }
        false
    }

    fn join(&mut self, asset: WandaAsset)
        ensures
            final(self)@ == (ReleasesModel {
                assets: with_asset(old(self)@.assets, wanda_view(asset)),
                ..old(self)@
            }),
    {
        let ghost so_far = self@.assets;
        if !self.knows_url(asset.url.as_str()) {
            self.assets.push(asset);
            assert(self@.assets =~= so_far.push(wanda_view(asset)));
        }
    }

    fn replace(&mut self, asset: WandaAsset, version: String)
        ensures
            final(self)@ == (ReleasesModel {
                assets: seq![wanda_view(asset)],
                best: Some(version@),
                ..old(self)@
            }),
    {
        let mut assets: Vec<WandaAsset> = Vec::new();
        assets.push(asset);
        assert(wanda_views(assets@) =~= seq![wanda_view(asset)]);
        self.assets = assets;
        self.best = Some(version);
    }

    /// Takes note of a release: its file, its version, and how that stands to the best one so far.
    pub fn add_release(
        &mut self,
        asset: Option<WandaAsset>,
        version: Option<String>,
        order: Option<VersionOrder>,
    )
        ensures
            final(self)@ == after_release(
                old(self)@,
                opt_wanda(asset),
                opt_text(version),
                order,
            ),
    {
        self.answered = true;
        let asset = match asset {
            Some(asset) => asset,
            None => {
                return ;
            },
        };
        match version {
            Some(current) => {
                if self.best.is_some() {
                    match order {
                        Some(VersionOrder::Older) => {},
                        Some(VersionOrder::Newer) => {
                            self.replace(asset, current);
                        },
                        _ => {
                            self.join(asset);
                        },
                    }
                } else {
                    self.replace(asset, current);
                }
            },
            None => {
                if self.best.is_none() {
                    self.join(asset);
                }
            },
        }
    }

    /// Takes note of the answer of an address. One that does not list files tells nothing.
    pub fn take(&mut self, body: &[u8])
        ensures
            exists|assets: Option<Seq<ReleaseAssetModel>>| #[trigger]
                lists(body@, assets) && final(self)@ == (if assets is Some {
                    after_release(
                        old(self)@,
                        picked_of(assets),
                        told_version(body@),
                        order_to_best(old(self)@.best, told_version(body@)),
                    )
                } else {
                    old(self)@
                }),
    {
        let listed = listed_assets(body);
        let ghost assets = opt_assets(listed);
        assert(lists(body@, assets));
        let asset = match &listed {
            Some(assets) => pick_asset(assets),
            None => {
                return ;
            },
        };
        let version: Option<String> = match text_of(json_node(body, "/tag_name")) {
            Some(tag) => {
                let bare = trim_start(tag.as_str(), 'v');
                if parses_as_version(bare.as_str()) {
                    Some(bare)
                } else {
                    None
                }
            },
            None => None,
        };
        let order = match (&self.best, &version) {
            (Some(best), Some(current)) => version_order(current.as_str(), best.as_str()),
            _ => None,
        };
        self.add_release(asset, version, order);
    }

    fn routes(&self) -> (r: Vec<String>)
        ensures
            texts(r@) == routes_of(self@.assets),
    {
        let ghost all = self@.assets;
        let mut out: Vec<String> = Vec::new();
        let mut i: usize = 0;
        assert(texts(out@) =~= routes_of(all.take(0)));
        while i < self.assets.len()
            invariant
                i <= self.assets.len(),
                all == wanda_views(self.assets@),
                texts(out@) == routes_of(all.take(i as int)),
            decreases self.assets.len() - i,
        {
            let ghost so_far = texts(out@);
            assert(all.take(i + 1).drop_last() =~= all.take(i as int));
            assert(all.take(i + 1).last() == wanda_view(self.assets@[i as int]));
            let mut more = gh_proxy_candidates(self.assets[i].url.as_str());
            let ghost added = texts(more@);
            out.append(&mut more);
            assert(texts(out@) =~= so_far + added);
            i += 1;
        }
        assert(all.take(all.len() as int) =~= all);
        out
    }

    /// What to download.
    pub fn plan(&self) -> (r: Result<WandaPlan, InstanceError>)
        ensures
            plan_result(r) == plan_of(self@),
    {
        if self.assets.len() > 0 {
            assert(self@.assets[0] == wanda_view(self.assets@[0]));
            let name = self.assets[0].name.clone();
            let routes = self.routes();
            Ok(WandaPlan { name, candidates: without_repetitions(&routes) })
        } else if self.answered {
            Err(InstanceError::ModpackManifestParseError)
        } else {
            let mut candidates: Vec<String> = Vec::new();
            candidates.push(concat2(FALLBACK_RELEASE, FALLBACK_ASSET));
            assert(texts(candidates@) =~= seq![FALLBACK_RELEASE@ + FALLBACK_ASSET@]);
            Ok(WandaPlan { name: FALLBACK_ASSET.to_owned(), candidates })
        }
    }
}

/// No two files have the same address.
pub open spec fn urls_differ(assets: Seq<(Seq<char>, Seq<char>)>) -> bool {
    forall|i: int, j: int|
        0 <= i < j < assets.len() ==> (#[trigger] assets[i]).1 != (#[trigger] assets[j]).1
}

/// However many addresses tell of a release, no file is listed twice.
pub proof fn releases_list_no_file_twice(
    s: ReleasesModel,
    asset: Option<(Seq<char>, Seq<char>)>,
    version: Option<Seq<char>>,
    order: Option<VersionOrder>,
)
    requires
        urls_differ(s.assets),
    ensures
        urls_differ(after_release(s, asset, version, order).assets),
{
}

/// Only the newest release is downloaded: one that is newer takes the place of all that was known,
/// and one that is older adds nothing.
pub proof fn newest_release_is_downloaded(
    s: ReleasesModel,
    asset: (Seq<char>, Seq<char>),
    version: Seq<char>,
)
    requires
        s.best is Some,
    ensures
        after_release(s, Some(asset), Some(version), Some(VersionOrder::Newer)).assets == seq![
            asset,
        ],
        after_release(s, Some(asset), Some(version), Some(VersionOrder::Older)).assets == s.assets,
        after_release(s, Some(asset), None, None).assets == s.assets,
{
}

/// A release that was told of is noted, whatever it holds. One without a file changes nothing else. The
/// first one with a version takes the place of those without. One of the same version is put behind
/// the others, unless its address is known.
pub proof fn releases_of_one_version_are_collected(
    s: ReleasesModel,
    asset: Option<(Seq<char>, Seq<char>)>,
    version: Option<Seq<char>>,
    order: Option<VersionOrder>,
)
    ensures
        ({
            let after = after_release(s, asset, version, order);
            let joined = after_release(s, asset, version, Some(VersionOrder::Same));
            &&& after.answered
            &&& asset is None ==> after.assets == s.assets && after.best == s.best
            &&& asset is Some && s.best is None && version is Some ==> after.assets == seq![asset->0]
                && after.best == version
            &&& asset is Some && (s.best is Some <==> version is Some) && s.best is Some && !has_url(
                s.assets,
                (asset->0).1,
            ) ==> joined.assets == s.assets.push(asset->0) && joined.best == s.best
            &&& asset is Some && s.best is None && version is None && !has_url(
                s.assets,
                (asset->0).1,
            ) ==> after.assets == s.assets.push(asset->0) && after.best is None
            &&& asset is Some && has_url(s.assets, (asset->0).1) ==> joined.assets == s.assets || (
            s.best is None && version is Some)
            &&& s.best is Some && order == Some(VersionOrder::Newer) && asset is Some && version is Some
                ==> after.best == version
            &&& s.best is Some && after.best != s.best ==> order == Some(VersionOrder::Newer)
        }),
{
}

/// The addresses of the files are tried file after file, each with its routes in their order.
pub proof fn files_are_tried_in_turn(
    first: Seq<(Seq<char>, Seq<char>)>,
    second: Seq<(Seq<char>, Seq<char>)>,
    asset: (Seq<char>, Seq<char>),
)
    ensures
        routes_of(first + second) == routes_of(first) + routes_of(second),
        routes_of(seq![asset]) == github_candidates(asset.1),
    decreases second.len(),
{
    assert(seq![asset].drop_last() =~= Seq::<(Seq<char>, Seq<char>)>::empty());
    assert(routes_of(Seq::<(Seq<char>, Seq<char>)>::empty()) =~= Seq::<Seq<char>>::empty());
    assert(routes_of(seq![asset]) =~= github_candidates(asset.1));
    if second.len() == 0 {
        assert(first + second =~= first);
        assert(routes_of(first) + routes_of(second) =~= routes_of(first));
    } else {
        let front = second.drop_last();
        files_are_tried_in_turn(first, front, asset);
        assert((first + second).drop_last() =~= first + front);
        assert((first + second).last() == second.last());
        assert(routes_of(first + second) =~= routes_of(first) + routes_of(second));
    }
}

/// Every route of every file is tried, and no other address is.
pub proof fn every_route_is_tried(s: ReleasesModel, address: Seq<char>)
    requires
        s.assets.len() > 0,
    ensures
        plan_of(s) matches Ok((_, candidates)) && (candidates.contains(address) <==> routes_of(
            s.assets,
        ).contains(address)),
{
    distinct_keeps_texts(routes_of(s.assets));
}

/// Where nothing told of a release, the known file is downloaded from the one place where it is; where
/// releases were told of and none had a usable file, nothing is.
pub proof fn the_known_file_is_downloaded_where_nothing_answered(s: ReleasesModel)
    requires
        s.assets.len() == 0,
    ensures
        s.answered ==> plan_of(s) == Err::<(Seq<char>, Seq<Seq<char>>), InstanceError>(
            InstanceError::ModpackManifestParseError,
        ),
        !s.answered ==> (plan_of(s) matches Ok((name, candidates)) && name
            == "Fabulously.Optimized-v6.5.0.mrpack"@ && candidates.len() == 1 && candidates[0]
            == "https://gitee.com/Muzimimiao/BBGU-Minecraft-sever/releases/download/1.0.0/"@
            + "Fabulously.Optimized-v6.5.0.mrpack"@),
{
}

proof fn lemma_routes_begin(assets: Seq<(Seq<char>, Seq<char>)>)
    requires
        assets.len() > 0,
    ensures
        github_candidates(assets[0].1).is_prefix_of(routes_of(assets)),
    decreases assets.len(),
{
    let front = assets.drop_last();
    if front.len() > 0 {
        lemma_routes_begin(front);
        assert(front[0] == assets[0]);
        let first = github_candidates(assets[0].1);
        assert(first =~= routes_of(assets).subrange(0, first.len() as int));
    } else {
        assert(routes_of(front) =~= Seq::<Seq<char>>::empty());
        assert(routes_of(assets) =~= github_candidates(assets[0].1));
    }
}

/// The file that was told of first gives the download its name and, unless it is one of GitHub,
/// the address that is tried first. No address is tried twice.
pub proof fn first_file_is_tried_first(s: ReleasesModel)
    requires
        s.assets.len() > 0,
    ensures
        ({
            let plan = plan_of(s);
            &&& plan is Ok
            &&& plan->Ok_0.0 == s.assets[0].0
            &&& plan->Ok_0.1.no_duplicates()
            &&& !names_github(s.assets[0].1) ==> plan->Ok_0.1.len() > 0 && plan->Ok_0.1[0]
                == s.assets[0].1
        }),
{
    let routes = routes_of(s.assets);
    let url = s.assets[0].1;
    distinct_keeps_texts(routes);
    lemma_routes_begin(s.assets);
    if !names_github(url) {
        assert(github_candidates(url) =~= seq![url]);
        assert(routes.subrange(0, 1) =~= seq![url]);
        assert(routes.subrange(0, 1)[0] == routes[0]);
        distinct_begins(routes);
    }
}

// ---------------------------------------------------------------------------------------------
// Names
// ---------------------------------------------------------------------------------------------
/// The name under which a file is kept, given the last name of the path that its name is.
pub open spec fn safe_name_of(file_name: Option<Seq<char>>, windows: bool) -> Seq<char> {
    let name = match file_name {
        Some(name) => name,
        None => DEFAULT_ASSET_NAME@,
    };
    if sanitized_name(name, windows).len() == 0 {
        DEFAULT_ASSET_NAME@
    } else {
        sanitized_name(name, windows)
    }
}

/// The beginning of a name that fits is a beginning of it, and fits.
proof fn lemma_fitting(name: Seq<char>)
    ensures
        fitting(name).is_prefix_of(name),
        encode_utf8(fitting(name)).len() <= 255,
    decreases name.len(),
{
    if name.len() > 0 && encode_utf8(name).len() > 255 {
        lemma_fitting(name.drop_last());
        let short = fitting(name);
        assert(short =~= name.subrange(0, short.len() as int)) by {
            assert(short =~= name.drop_last().subrange(0, short.len() as int));
        }
    } else {
        assert(name =~= name.subrange(0, name.len() as int));
        assert(name.len() == 0 ==> encode_utf8(name) =~= Seq::<u8>::empty());
    }
}

proof fn lemma_trimmed_end(s: Seq<char>, drop: spec_fn(char) -> bool)
    ensures
        trimmed_end(s, drop).is_prefix_of(s),
    decreases s.len(),
{
    if s.len() > 0 && drop(s.last()) {
        lemma_trimmed_end(s.drop_last(), drop);
        let short = trimmed_end(s, drop);
        assert(short =~= s.drop_last().subrange(0, short.len() as int));
        assert(short =~= s.subrange(0, short.len() as int));
    } else {
        assert(s =~= s.subrange(0, s.len() as int));
    }
}

/// A name that was made fit for a file holds no character that no file name may hold and no control
/// character, and takes at most 255 bytes.
pub proof fn sanitized_names_are_fit_for_files(name: Seq<char>, windows: bool)
    ensures
        legal_name(sanitized_name(name, windows)),
        forall|i: int|
            0 <= i < sanitized_name(name, windows).len() ==> !control(
                #[trigger] sanitized_name(name, windows)[i],
            ),
        encode_utf8(sanitized_name(name, windows)).len() <= 255,
{
    let keep = |c: char| !illegal_in_names(c) && !control(c);
    let kept = name.filter(keep);
    let usable = if dots_alone(kept) || (windows && device_name(kept)) {
        Seq::<char>::empty()
    } else {
        kept
    };
    let drop = |c: char| c == '.' || c == ' ';
    let whole = if windows {
        trimmed_end(usable, drop)
    } else {
        usable
    };
    lemma_trimmed_end(usable, drop);
    lemma_fitting(whole);
    let r = sanitized_name(name, windows);
    assert(r == fitting(whole));
    assert forall|i: int| 0 <= i < r.len() implies !illegal_in_names(#[trigger] r[i]) && !control(
        r[i],
    ) by {
        assert(r[i] == whole.subrange(0, r.len() as int)[i]);
        assert(whole[i] == usable.subrange(0, whole.len() as int)[i] || whole == usable);
        name.lemma_filter_pred(keep, i);
    }
}

/// The name under which a file is kept, given the last name of the path that its name is, by the
/// rules of Windows or of the other systems.
pub fn safe_wanda_asset_name_for(file_name: &Option<String>, windows: bool) -> (r: String)
    ensures
        r@ == safe_name_of(opt_text(*file_name), windows),
        r@.len() > 0,
        legal_name(r@),
{
    proof {
        reveal_strlit("wanda-server-modpack.zip");
        sanitized_names_are_fit_for_files(
            match file_name {
                Some(name) => name@,
                None => DEFAULT_ASSET_NAME@,
            },
            windows,
        );
    }
    let sanitized = match file_name {
        Some(name) => sanitize_name(name.as_str(), windows),
        None => sanitize_name(DEFAULT_ASSET_NAME, windows),
    };
    if sanitized.as_str().unicode_len() == 0 {
        DEFAULT_ASSET_NAME.to_owned()
    } else {
        sanitized
    }
}

/// A text is the name under which a file is kept, by the rules of some system.
pub open spec fn is_safe_name(asset_name: Seq<char>, safe: Seq<char>) -> bool {
    exists|last: Option<Seq<char>>, windows: bool|
        is_last_name(Some(asset_name), last) && safe == #[trigger] safe_name_of(last, windows)
}

/// A file whose name is a plain path is kept under what is left of its last part.
pub proof fn files_are_kept_under_their_last_name(asset_name: Seq<char>, safe: Seq<char>)
    requires
        is_safe_name(asset_name, safe),
        plain_path(asset_name),
    ensures
        safe == safe_name_of(Some(last_part(asset_name)), true) || safe == safe_name_of(
            Some(last_part(asset_name)),
            false,
        ),
{
}

/// The name under which a file is kept, by the rules of the system. It is a file name: not empty,
/// and without a character that no file name may hold.
pub fn safe_wanda_asset_name(asset_name: &str) -> (r: String)
    ensures
        is_safe_name(asset_name@, r@),
        r@.len() > 0,
        legal_name(r@),
{
    let last = last_name(asset_name);
    let windows = backslash_separates();
    let ghost file_name = opt_text(last);
    assert(is_last_name(Some(asset_name@), file_name));
    safe_wanda_asset_name_for(&last, windows)
}

/// The name of the file into which the archive is downloaded first.
pub fn temporary_name(safe_name: &str) -> (r: String)
    ensures
        r@ == safe_name@ + ".download"@,
{
    concat2(safe_name, ".download")
}

// ---------------------------------------------------------------------------------------------
// What is kept of the archive
// ---------------------------------------------------------------------------------------------
/// Why an archive is of no use: it is no modpack, or the file system failed.
#[derive(Clone, Copy, Debug, PartialEq, Eq, Structural)]
pub enum WandaArchiveError {
    InvalidFormat,
    Io,
}

/// Whether an archive is a modpack: it holds the description of one, of Modrinth or CurseForge.
pub fn wanda_archive_has_manifest(has_modrinth: bool, has_curseforge: bool) -> (r: bool)
    ensures
        r == (has_modrinth || has_curseforge),
{
    has_modrinth || has_curseforge
}

/// An entry of an archive.
#[derive(Debug)]
pub struct WandaEntry {
    pub name: String,
    pub is_dir: bool,
}

/// An entry is a modpack, given the last name of its path.
pub open spec fn is_nested_pack(file_name: Option<Seq<char>>, is_dir: bool) -> bool {
    !is_dir && has_extension(file_name, "mrpack"@)
}

/// Whether an entry is a modpack, given the last name of its path.
pub fn nested_pack(file_name: &Option<String>, is_dir: bool) -> (r: bool)
    ensures
        r == is_nested_pack(opt_text(*file_name), is_dir),
{
    !is_dir && extension_is(file_name, "mrpack")
}

/// Which entries are modpacks.
pub open spec fn tells_packs(entries: Seq<WandaEntry>, packs: Seq<bool>) -> bool {
    packs.len() == entries.len() && forall|i: int|
        0 <= i < entries.len() ==> tells_pack(#[trigger] entries[i], packs[i])
}

/// Whether an entry is a modpack.
pub open spec fn tells_pack(entry: WandaEntry, pack: bool) -> bool {
    exists|last: Option<Seq<char>>|
        is_last_name(Some(entry.name@), last) && pack == #[trigger] is_nested_pack(last, entry.is_dir)
}

/// Of an entry whose name is a plain path it is told by its last part whether it is a modpack.
pub proof fn entries_are_told_by_their_last_name(
    entries: Seq<WandaEntry>,
    packs: Seq<bool>,
    i: int,
)
    requires
        tells_packs(entries, packs),
        0 <= i < entries.len(),
        plain_path(entries[i].name@),
    ensures
        packs.len() == entries.len(),
        packs[i] == is_nested_pack(Some(last_part(entries[i].name@)), entries[i].is_dir),
{
    assert(tells_pack(entries[i], packs[i]));
}

fn packs_of(entries: &Vec<WandaEntry>) -> (r: Vec<bool>)
    ensures
        tells_packs(entries@, r@),
{
    let mut out: Vec<bool> = Vec::new();
    let mut i: usize = 0;
    while i < entries.len()
        invariant
            i <= entries.len(),
            out.len() == i,
            forall|k: int| 0 <= k < i ==> tells_pack(#[trigger] entries@[k], out@[k]),
        decreases entries.len() - i,
    {
        let last = last_name(entries[i].name.as_str());
        let ghost file_name = opt_text(last);
        assert(is_last_name(Some(entries@[i as int].name@), file_name));
        let pack = nested_pack(&last, entries[i].is_dir);
        assert(tells_pack(entries@[i as int], pack));
        out.push(pack);
        i += 1;
    }
    out
}

/// What is kept of an archive.
#[derive(Debug)]
pub enum ArchivePlan {
    /// The archive, under a name.
    Keep { name: String },
    /// The entry at a position, unpacked to a temporary name first and then kept under a name.
    Unpack { index: usize, name: String, temporary: String },
}

/// Position `i` is the only one that says yes.
pub open spec fn only_at(list: Seq<bool>, i: int) -> bool {
    0 <= i < list.len() && list[i] && forall|j: int| 0 <= j < list.len() && j != i ==> !list[j]
}

/// The name under which a modpack inside an archive is kept: that of the archive, with the
/// extension of a modpack.
pub open spec fn nested_name_of(safe_name: Seq<char>) -> Seq<char> {
    let stem = stem_and_extension(safe_name).0;
    (if stem.len() == 0 {
        "wanda-server-modpack"@
    } else {
        stem
    }) + ".mrpack"@
}

/// What is kept of an archive: the archive if it is a modpack, else the only modpack among its
/// entries.
pub open spec fn is_archive_plan(
    has_manifest: bool,
    packs: Seq<bool>,
    safe_name: Seq<char>,
    r: Result<ArchivePlan, WandaArchiveError>,
) -> bool {
    match r {
        Ok(ArchivePlan::Keep { name }) => has_manifest && name@ == safe_name,
        Ok(ArchivePlan::Unpack { index, name, temporary }) => !has_manifest && only_at(
            packs,
            index as int,
        ) && name@ == nested_name_of(safe_name) && temporary@ == nested_name_of(safe_name)
            + ".download"@,
        Err(error) => !has_manifest && error == WandaArchiveError::InvalidFormat && (forall|i: int|
            !#[trigger] only_at(packs, i)),
    }
}

/// An archive is kept as it is exactly where it is a modpack. Else the one entry that is a modpack is
/// unpacked, and an archive with none or several of them is refused.
pub proof fn archives_are_kept_or_unpacked(
    has_manifest: bool,
    packs: Seq<bool>,
    safe_name: Seq<char>,
    r: Result<ArchivePlan, WandaArchiveError>,
    i: int,
    j: int,
)
    requires
        is_archive_plan(has_manifest, packs, safe_name, r),
        0 <= i < packs.len(),
        0 <= j < packs.len(),
    ensures
        (r matches Ok(ArchivePlan::Keep { .. })) <==> has_manifest,
        !has_manifest && packs[i] && packs[j] && i != j ==> r is Err,
        !has_manifest && packs[i] && (forall|k: int| 0 <= k < packs.len() && k != i ==> !packs[k])
            ==> (r matches Ok(ArchivePlan::Unpack { index, .. }) && index == i),
        !has_manifest && (forall|k: int| 0 <= k < packs.len() ==> !packs[k]) ==> r is Err,
{
    if !has_manifest && packs[i] && (forall|k: int| 0 <= k < packs.len() && k != i ==> !packs[k]) {
        assert(only_at(packs, i));
    }
}

/// A modpack inside an archive is kept under the name of the archive, with its own extension; or under the
/// usual name, where the archive has none.
pub proof fn nested_modpacks_take_the_name_of_the_archive(stem: Seq<char>, extension: Seq<char>)
    requires
        stem.len() > 0,
        !holds(extension, '.'),
    ensures
        nested_name_of(stem + "."@ + extension) == stem + ".mrpack"@,
        nested_name_of(Seq::empty()) == "wanda-server-modpack.mrpack"@,
        !holds(stem, '.') ==> nested_name_of(stem) == stem + ".mrpack"@,
{
    reveal_strlit("wanda-server-modpack.mrpack");
    reveal_strlit("wanda-server-modpack");
    reveal_strlit(".mrpack");
    assert("wanda-server-modpack.mrpack"@ =~= "wanda-server-modpack"@ + ".mrpack"@);
    file_names_part_at_the_last_dot(stem, extension, Seq::empty());
    if !holds(stem, '.') {
        file_names_part_at_the_last_dot(stem, extension, stem);
    }
}

/// An entry is a modpack where it is a file with the extension of one, in capitals or small letters.
pub proof fn nested_modpacks_are_told_by_their_extension(stem: Seq<char>, own: Seq<char>, is_dir: bool)
    requires
        stem.len() > 0,
        !holds(own, '.'),
    ensures
        is_nested_pack(Some(stem + "."@ + own), is_dir) <==> !is_dir && lower(own) == "mrpack"@,
        !is_nested_pack(None, is_dir),
{
    reveal_strlit("mrpack");
    assert(lower("mrpack"@) =~= "mrpack"@);
    file_names_part_at_the_last_dot(stem, own, Seq::empty());
}

/// A file whose name leaves nothing that is fit for a file is kept under the usual name, and every other
/// one under what is left of its name.
pub proof fn files_are_kept_under_what_is_left_of_their_name(name: Seq<char>, windows: bool)
    ensures
        sanitized_name(name, windows).len() == 0 ==> safe_name_of(Some(name), windows)
            == "wanda-server-modpack.zip"@,
        sanitized_name(name, windows).len() > 0 ==> safe_name_of(Some(name), windows)
            == sanitized_name(name, windows),
        safe_name_of(None, windows) == safe_name_of(Some("wanda-server-modpack.zip"@), windows),
{
}

/// What is kept of an archive, given which of its entries are modpacks.
pub fn archive_plan_from(has_manifest: bool, packs: &Vec<bool>, safe_name: &str) -> (r: Result<
    ArchivePlan,
    WandaArchiveError,
>)
    ensures
        is_archive_plan(has_manifest, packs@, safe_name@, r),
{
    if has_manifest {
        return Ok(ArchivePlan::Keep { name: safe_name.to_owned() });
    }
    let mut found: Option<usize> = None;
    let mut i: usize = 0;
    while i < packs.len()
        invariant
            i <= packs.len(),
            !has_manifest,
            match found {
                Some(k) => only_at(packs@.take(i as int), k as int),
                None => forall|j: int| 0 <= j < i ==> !packs@[j],
            },
        decreases packs.len() - i,
    {
        if packs[i] {
            if let Some(k) = found {
                assert(packs@.take(i as int)[k as int]);
                assert(packs@[k as int]);
                assert forall|n: int| !#[trigger] only_at(packs@, n) by {
                    if n == k {
                        assert(packs@[i as int]);
                    }
                }
                return Err(WandaArchiveError::InvalidFormat);
            }
            found = Some(i);
        }
        i += 1;
    }
    assert(packs@.take(packs.len() as int) =~= packs@);
    let index: usize = match found {
        Some(k) => k,
        None => {
            return Err(WandaArchiveError::InvalidFormat);
        },
    };
    let stem = split_file_name(safe_name).0;
    let name = if stem.as_str().unicode_len() == 0 {
        concat2("wanda-server-modpack", ".mrpack")
    } else {
        concat2(stem.as_str(), ".mrpack")
    };
    let temporary = concat2(name.as_str(), ".download");
    Ok(ArchivePlan::Unpack { index, name, temporary })
}

/// What is kept of an archive: the archive if it is a modpack, else the only modpack among its
/// entries.
pub fn archive_plan(has_manifest: bool, entries: &Vec<WandaEntry>, safe_name: &str) -> (r: Result<
    ArchivePlan,
    WandaArchiveError,
>)
    ensures
        exists|packs: Seq<bool>| #[trigger]
            tells_packs(entries@, packs) && is_archive_plan(has_manifest, packs, safe_name@, r),
{
    let packs = packs_of(entries);
    archive_plan_from(has_manifest, &packs, safe_name)
}

/// Whether a modpack inside an archive may be unpacked, by its size.
pub fn nested_size_fits(size: u64) -> (r: bool)
    ensures
        r == (0 < size <= MAX_NESTED_WANDA_MODPACK_SIZE),
{
    size != 0 && size <= MAX_NESTED_WANDA_MODPACK_SIZE
}

/// Whether an unpacked modpack is kept: it can be opened, and is a modpack.
pub fn nested_outcome(opened: bool, has_manifest: bool) -> (r: Result<(), WandaArchiveError>)
    ensures
        r == (if opened && has_manifest {
            Ok::<(), WandaArchiveError>(())
        } else {
            Err(WandaArchiveError::InvalidFormat)
        }),
{
    if opened && has_manifest {
        Ok(())
    } else {
        Err(WandaArchiveError::InvalidFormat)
    }
}

// ---------------------------------------------------------------------------------------------
// Trying one address after the other
// ---------------------------------------------------------------------------------------------
/// What came of an address.
#[derive(Clone, Copy, Debug, PartialEq, Eq, Structural)]
pub enum WandaEvent {
    /// It did not answer, or refused, or broke off, or the check of the archive broke off.
    Unavailable,
    /// The file to download into could not be made.
    NoFile,
    /// The archive is kept.
    Kept,
    /// The archive is of no use.
    Useless(WandaArchiveError),
}

/// What to do next.
#[derive(Clone, Copy, Debug, PartialEq, Eq, Structural)]
pub enum WandaAction {
    /// Try the address at a position.
    Try(usize),
    /// The archive is there.
    Finish,
    /// Nothing came of it.
    Fail(InstanceError),
}

/// How far trying the addresses has come.
#[derive(Clone, Copy, Debug, PartialEq, Eq, Structural)]
pub struct WandaDownload {
    pub count: usize,
    pub at: usize,
    pub saw_invalid_archive: bool,
    pub saw_file_error: bool,
}

impl WandaDownload {
    /// What to do while nothing was kept.
    pub open spec fn next(self) -> WandaAction {
        if self.at < self.count {
            WandaAction::Try(self.at)
        } else if self.saw_invalid_archive {
            WandaAction::Fail(InstanceError::ModpackManifestParseError)
        } else if self.saw_file_error {
            WandaAction::Fail(InstanceError::FileCreationFailed)
        } else {
            WandaAction::Fail(InstanceError::NetworkError)
        }
    }

    /// The state once something came of an address.
    pub open spec fn after(self, event: WandaEvent) -> WandaDownload {
        WandaDownload {
            count: self.count,
            at: (self.at + 1) as usize,
            saw_invalid_archive: self.saw_invalid_archive || event == WandaEvent::Useless(
                WandaArchiveError::InvalidFormat,
            ),
            saw_file_error: self.saw_file_error || event == WandaEvent::Useless(
                WandaArchiveError::Io,
            ),
        }
    }

    /// What to do once something came of an address.
    pub open spec fn reply(self, event: WandaEvent) -> WandaAction {
        match event {
            WandaEvent::Kept => WandaAction::Finish,
            WandaEvent::NoFile => WandaAction::Fail(InstanceError::FileCreationFailed),
            _ => self.after(event).next(),
        }
    }

    fn next_action(&self) -> (r: WandaAction)
        ensures
            r == self.next(),
    {
        if self.at < self.count {
            WandaAction::Try(self.at)
        } else if self.saw_invalid_archive {
            WandaAction::Fail(InstanceError::ModpackManifestParseError)
        } else if self.saw_file_error {
            WandaAction::Fail(InstanceError::FileCreationFailed)
        } else {
            WandaAction::Fail(InstanceError::NetworkError)
        }
    }

    /// Begins with a number of addresses.
    pub fn begin(count: usize) -> (r: (Self, WandaAction))
        ensures
            r.0 == (WandaDownload {
                count,
                at: 0,
                saw_invalid_archive: false,
                saw_file_error: false,
            }),
            r.1 == r.0.next(),
    {
        let download = WandaDownload {
            count,
            at: 0,
            saw_invalid_archive: false,
            saw_file_error: false,
        };
        let action = download.next_action();
        (download, action)
    }

    /// Goes on with what came of the address that was tried.
    pub fn step(&mut self, event: WandaEvent) -> (r: WandaAction)
        requires
            old(self).at < old(self).count,
        ensures
            *final(self) == old(self).after(event),
            r == old(self).reply(event),
    {
        self.at = self.at + 1;
        match event {
            WandaEvent::Useless(WandaArchiveError::InvalidFormat) => {
                self.saw_invalid_archive = true;
            },
            WandaEvent::Useless(WandaArchiveError::Io) => {
                self.saw_file_error = true;
            },
            _ => {},
        }
        match event {
            WandaEvent::Kept => WandaAction::Finish,
            WandaEvent::NoFile => WandaAction::Fail(InstanceError::FileCreationFailed),
            _ => self.next_action(),
        }
    }
}

/// The download ends with an archive that is kept, or with a file that could not be made; after
/// anything else the next address is tried. When none is left, an archive that was no modpack is told
/// before a file system that failed, and that before a network that did.
pub proof fn downloads_go_on_until_an_archive_is_kept(s: WandaDownload, event: WandaEvent)
    requires
        s.at < s.count,
    ensures
        s.reply(event) == WandaAction::Finish <==> event == WandaEvent::Kept,
        event == WandaEvent::NoFile ==> s.reply(event) == WandaAction::Fail(
            InstanceError::FileCreationFailed,
        ),
        s.reply(event) is Try <==> event != WandaEvent::Kept && event != WandaEvent::NoFile && s.at + 1
            < s.count,
        s.reply(event) matches WandaAction::Try(n) ==> n == s.at + 1,
        s.at + 1 == s.count && (s.saw_invalid_archive && event != WandaEvent::Kept && event
            != WandaEvent::NoFile || event == WandaEvent::Useless(WandaArchiveError::InvalidFormat))
            ==> s.reply(event) == WandaAction::Fail(InstanceError::ModpackManifestParseError),
        s.at + 1 == s.count && !s.saw_invalid_archive && event == WandaEvent::Useless(
            WandaArchiveError::Io,
        ) ==> s.reply(event) == WandaAction::Fail(InstanceError::FileCreationFailed),
        s.at + 1 == s.count && !s.saw_invalid_archive && s.saw_file_error && event
            == WandaEvent::Unavailable ==> s.reply(event) == WandaAction::Fail(
            InstanceError::FileCreationFailed,
        ),
        s.at + 1 == s.count && !s.saw_invalid_archive && !s.saw_file_error && event
            == WandaEvent::Unavailable ==> s.reply(event) == WandaAction::Fail(
            InstanceError::NetworkError,
        ),
{
}

/// The state after several addresses.
pub open spec fn after_all(s: WandaDownload, events: Seq<WandaEvent>) -> WandaDownload
    decreases events.len(),
{
    if events.len() == 0 {
        s
    } else {
        after_all(s, events.drop_last()).after(events.last())
    }
}

/// Every address has its turn, and then the download fails; and it tells an archive that was no
/// modpack from a file system that failed and from a network that did.
pub proof fn failed_downloads_tell_why(count: usize, events: Seq<WandaEvent>)
    requires
        events.len() <= count,
    ensures
        ({
            let start = WandaDownload {
                count,
                at: 0,
                saw_invalid_archive: false,
                saw_file_error: false,
            };
            let end = after_all(start, events);
            &&& end.at == events.len()
            &&& end.count == count
            &&& end.saw_invalid_archive == events.contains(
                WandaEvent::Useless(WandaArchiveError::InvalidFormat),
            )
            &&& end.saw_file_error == events.contains(WandaEvent::Useless(WandaArchiveError::Io))
            &&& events.len() < count ==> end.next() == WandaAction::Try(end.at)
            &&& events.len() == count ==> end.next() is Fail
        }),
    decreases events.len(),
{
    if events.len() > 0 {
        let front = events.drop_last();
        failed_downloads_tell_why(count, front);
        assert forall|e: WandaEvent| #[trigger] events.contains(e) <==> front.contains(e)
            || events.last() == e by {
            if events.contains(e) {
                let k = choose|k: int| 0 <= k < events.len() && events[k] == e;
                if k < front.len() {
                    assert(front[k] == e);
                }
            }
            if front.contains(e) {
                let k = choose|k: int| 0 <= k < front.len() && front[k] == e;
                assert(events[k] == e);
            }
            if events.last() == e {
                assert(events[events.len() - 1] == e);
            }
        }
    }
}

} // verus!
