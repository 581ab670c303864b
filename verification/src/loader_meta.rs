//! Which loaders and which OptiFines can be had for a version of the game.
use vstd::prelude::*;
use vstd::utf8::encode_utf8;
use crate::external::{
    group_texts, join_result, join_url, match_texts, regex_found, regex_matches, url_joined,
};
use crate::instance::models::{ModLoaderResourceInfo, ModLoaderType, OptiFineResourceInfo};
use crate::paths::{split_file_name, stem_and_extension};
use crate::ranking::{
    arrange, arranged, arranging_keeps_items, in_order, may_precede, orders, rank, ranked,
    ranking_is_stable_and_in_order, ranking_keeps_every_position,
};
use crate::text::{
    before, begins, chars_of, concat2, contains, decimal, decimals_tell_their_number, index_of,
    is_digit, last_index_of, lemma_before_total, lemma_before_transitive, lemma_contains,
    lemma_index_from, lemma_last_index_to, occurs_at, opt_text, parse_unsigned, parted,
    parted_at_last, precedes, prefixes_are_taken_off, rsplit_once, small_written_numbers_are_read,
    split_once, starts_with, strip_prefix, text_between, texts, texts_are_parted_at_the_last_pattern,
    to_upper_char, unsigned_value, upper_char, without_prefix,
};

verus! {

/// Why a list could not be had.
#[derive(Clone, Copy, Debug, PartialEq, Eq, Structural)]
pub enum ResourceError {
    NetworkError,
    ParseError,
}

/// Why a list could not be had: an answer was unreadable, or none came.
pub fn list_error(unreadable: bool) -> (r: ResourceError)
    ensures
        r == (if unreadable {
            ResourceError::ParseError
        } else {
            ResourceError::NetworkError
        }),
{
    if unreadable {
        ResourceError::ParseError
    } else {
        ResourceError::NetworkError
    }
}

// ---------------------------------------------------------------------------------------------
// Fabric
// ---------------------------------------------------------------------------------------------
/// The address of the list of the Fabric loaders for a version of the game, relative to that of a
/// source.
pub open spec fn fabric_url_of(api: Seq<char>, game_version: Seq<char>) -> Result<
    Seq<char>,
    Seq<char>,
> {
    match url_joined(api, "v2/versions/loader/"@) {
        Ok(list) => url_joined(list, game_version),
        Err(message) => Err(message),
    }
}

/// The address of the list of the Fabric loaders for a version of the game, relative to that of a
/// source; or the text of the error where there is none.
pub fn fabric_meta_url(api: &str, game_version: &str) -> (r: Result<String, String>)
    ensures
        join_result(r) == fabric_url_of(api@, game_version@),
{
    match join_url(api, "v2/versions/loader/") {
        Ok(list) => join_url(list.as_str(), game_version),
        Err(message) => Err(message),
    }
}

/// A loader is the Fabric loader of a version.
pub open spec fn is_fabric_loader(info: ModLoaderResourceInfo, version: Seq<char>) -> bool {
    info.loader_type == ModLoaderType::Fabric && info.version@ == version && info.description@
        == ""@ && info.stable is None && info.branch is None
}

/// A loader of Fabric is told by its version alone.
pub proof fn fabric_loaders_are_told_by_their_version(info: ModLoaderResourceInfo, version: Seq<char>)
    requires
        is_fabric_loader(info, version),
    ensures
        info.loader_type == ModLoaderType::Fabric,
        info.version@ == version,
        info.description@.len() == 0,
        info.stable is None,
        info.branch is None,
{
    reveal_strlit("");
}

/// The Fabric loaders that can be had, by their versions and in the order in which they are
/// listed.
pub fn fabric_loaders(versions: &Vec<String>) -> (r: Vec<ModLoaderResourceInfo>)
    ensures
        r@.len() == versions@.len(),
        forall|i: int| 0 <= i < r@.len() ==> is_fabric_loader(#[trigger] r@[i], versions@[i]@),
{
    let mut out: Vec<ModLoaderResourceInfo> = Vec::new();
    let mut i: usize = 0;
    while i < versions.len()
        invariant
            i <= versions.len(),
            out.len() == i,
            forall|k: int| 0 <= k < i ==> is_fabric_loader(#[trigger] out@[k], versions@[k]@),
        decreases versions.len() - i,
    {
        out.push(
            ModLoaderResourceInfo {
                loader_type: ModLoaderType::Fabric,
                version: versions[i].clone(),
                description: "".to_owned(),
                stable: None,
                branch: None,
            },
        );
        i += 1;
    }
    out
}

// ---------------------------------------------------------------------------------------------
// The order of OptiFines
// ---------------------------------------------------------------------------------------------
/// The number that a text writes; 0 where it writes none that 32 bits hold.
pub open spec fn number_or_zero(s: Seq<char>) -> u32 {
    match unsigned_value(s, u32::MAX as nat) {
        Some(n) => n as u32,
        None => 0,
    }
}

/// By what an OptiFine is sorted, given what stands behind the last `_HD_U_` of its name: the
/// letter of its series, the number in it, and the number of the preview; a release comes after
/// every preview.
pub open spec fn key_of_suffix(suffix: Seq<char>) -> (u32, u32, u32) {
    let (version, pre) = match parted(suffix, "_pre"@) {
        Some((version, pre)) => (version, number_or_zero(pre)),
        None => (suffix, u32::MAX),
    };
    if version.len() == 0 {
        (0, number_or_zero(version), pre)
    } else {
        (upper_char(version[0]) as u32, number_or_zero(version.skip(1)), pre)
    }
}

/// By what an OptiFine is sorted.
pub open spec fn sort_key_of(filename: Seq<char>) -> (u32, u32, u32) {
    match parted_at_last(filename, "_HD_U_"@) {
        Some((_, suffix)) => key_of_suffix(suffix),
        None => (0, 0, 0),
    }
}

fn parse_or_zero(s: &str) -> (r: u32)
    ensures
        r == number_or_zero(s@),
{
    match parse_unsigned(s, u32::MAX as u64) {
        Some(n) => {
            assert(n <= u32::MAX);
            n as u32
        },
        None => 0,
    }
}

/// By what an OptiFine is sorted: the letter of its series, the number in it, and the number of
/// the preview.
pub fn get_optifine_sort_key(info: &OptiFineResourceInfo) -> (r: (u32, u32, u32))
    ensures
        r == sort_key_of(info.filename@),
{
    let suffix = match rsplit_once(info.filename.as_str(), "_HD_U_") {
        Some((_, suffix)) => suffix,
        None => {
            return (0, 0, 0);
        },
    };
    let (version, pre): (String, u32) = match split_once(suffix.as_str(), "_pre") {
        Some((version, pre)) => {
            let number = parse_or_zero(pre.as_str());
            (version, number)
        },
        None => (suffix, u32::MAX),
    };
    let chars = chars_of(version.as_str());
    if chars.len() == 0 {
        return (0, parse_or_zero(version.as_str()), pre);
    }
    let prefix = to_upper_char(chars[0]) as u32;
    let rest = text_between(&chars, 1, chars.len());
    assert(rest@ =~= version@.skip(1));
    (prefix, parse_or_zero(rest.as_str()), pre)
}

/// A key is less than another: the first difference decides.
pub open spec fn key_less(a: (u32, u32, u32), b: (u32, u32, u32)) -> bool {
    a.0 < b.0 || (a.0 == b.0 && (a.1 < b.1 || (a.1 == b.1 && a.2 < b.2)))
}

/// The order of OptiFines: the newest first, and by their names backwards where the keys are the
/// same.
pub open spec fn newer(a: Seq<char>, b: Seq<char>) -> bool {
    key_less(sort_key_of(b), sort_key_of(a)) || (sort_key_of(a) == sort_key_of(b) && before(b, a))
}

/// The order of listed OptiFines.
pub open spec fn newest_first(list: Seq<OptiFineResourceInfo>) -> spec_fn(int, int) -> bool {
    |a: int, b: int| newer(list[a].filename@, list[b].filename@)
}

fn is_newer(a: &OptiFineResourceInfo, b: &OptiFineResourceInfo) -> (r: bool)
    ensures
        r == newer(a.filename@, b.filename@),
{
    let x = get_optifine_sort_key(a);
    let y = get_optifine_sort_key(b);
    let less = y.0 < x.0 || (y.0 == x.0 && (y.1 < x.1 || (y.1 == x.1 && y.2 < x.2)));
    let equal = x.0 == y.0 && x.1 == y.1 && x.2 == y.2;
    less || (equal && precedes(b.filename.as_str(), a.filename.as_str()))
}

/// OptiFines with the newest first.
pub fn sort_optifines(list: Vec<OptiFineResourceInfo>) -> (r: Vec<OptiFineResourceInfo>)
    ensures
        r@ == arranged(list@, newest_first(list@)),
{
    let ghost less = newest_first(list@);
    let test = |a: usize, b: usize| -> (c: bool)
        requires
            a < list.len(),
            b < list.len(),
        ensures
            c == newer(list@[a as int].filename@, list@[b as int].filename@),
        { is_newer(&list[a], &list[b]) };
    let order = rank(list.len(), test, Ghost(less));
    arrange(list, &order, Ghost(less))
}

proof fn lemma_newer_orders(list: Seq<OptiFineResourceInfo>)
    ensures
        orders(list.len(), newest_first(list)),
{
    let less = newest_first(list);
    let n = list.len();
    assert forall|a: int| 0 <= a < n implies !#[trigger] less(a, a) by {
        lemma_before_total(list[a].filename@, list[a].filename@);
    }
    assert forall|a: int, b: int, c: int|
        0 <= a < n && 0 <= b < n && 0 <= c < n && #[trigger] less(a, b) && #[trigger] less(
            b,
            c,
        ) implies less(a, c) by {
        let (x, y, z) = (list[a].filename@, list[b].filename@, list[c].filename@);
        if before(y, x) && before(z, y) {
            lemma_before_transitive(z, y, x);
        }
    }
    assert forall|a: int, b: int, c: int|
        0 <= a < n && 0 <= b < n && 0 <= c < n && !#[trigger] less(a, b) && !#[trigger] less(
            b,
            c,
        ) implies !less(a, c) by {
        let (x, y, z) = (list[a].filename@, list[b].filename@, list[c].filename@);
        lemma_before_total(x, y);
        lemma_before_total(y, z);
        lemma_before_total(x, z);
        if before(x, y) && before(y, z) {
            lemma_before_transitive(x, y, z);
        }
    }
}

/// The list of OptiFines begins with the newest, goes on to the oldest, and holds each once.
pub proof fn optifines_are_sorted(list: Seq<OptiFineResourceInfo>)
    ensures
        ({
            let less = newest_first(list);
            &&& in_order(ranked(list.len(), less), less)
            &&& arranged(list, less).len() == list.len()
            &&& forall|o: OptiFineResourceInfo| #[trigger]
                arranged(list, less).contains(o) <==> list.contains(o)
        }),
{
    lemma_newer_orders(list);
    ranking_is_stable_and_in_order(list.len(), newest_first(list));
    arranging_keeps_items(list, newest_first(list));
}

proof fn lemma_preview_parts(version: Seq<char>, pre: Seq<char>)
    requires
        !contains(version, "_pre"@),
    ensures
        parted(version + "_pre"@ + pre, "_pre"@) == Some((version, pre)),
        parted(version, "_pre"@) is None,
{
    reveal_strlit("_pre");
    let mark = "_pre"@;
    let whole = version + mark + pre;
    let n = version.len() as int;
    lemma_contains(version, mark);
    lemma_index_from(whole, mark, 0);
    assert(whole.subrange(n, n + 4) =~= mark);
    assert(occurs_at(whole, mark, n));
    let i = index_of(whole, mark)->0;
    assert(whole.subrange(i, i + 4) =~= mark);
    if i < n {
        if i + 4 <= n {
            assert(version.subrange(i, i + 4) =~= mark);
            assert(occurs_at(version, mark, i));
        } else {
            assert(whole.subrange(i, i + 4)[n - i] == whole[n]);
            assert(whole[n] == mark[0]);
        }
    }
    assert(whole.take(n) =~= version);
    assert(whole.skip(n + 4) =~= pre);
}

/// A release of a series is newer than every preview of it.
pub proof fn releases_are_newer_than_previews(version: Seq<char>, pre: Seq<char>)
    requires
        !contains(version, "_pre"@),
        number_or_zero(pre) < u32::MAX,
    ensures
        key_less(key_of_suffix(version + "_pre"@ + pre), key_of_suffix(version)),
{
    lemma_preview_parts(version, pre);
}

/// An OptiFine is known by the letter of its series, as a capital, by the number in it, and by the
/// number of the preview if it is one.
pub proof fn optifines_are_known_by_their_suffix(letter: char, number: nat, preview: nat)
    requires
        letter != '_',
        number <= u32::MAX,
        preview <= u32::MAX,
    ensures
        ({
            let release = seq![letter] + decimal(number);
            &&& key_of_suffix(release) == (upper_char(letter) as u32, number as u32, u32::MAX)
            &&& key_of_suffix(release + "_pre"@ + decimal(preview)) == (
                upper_char(letter) as u32,
                number as u32,
                preview as u32,
            )
        }),
{
    let release = seq![letter] + decimal(number);
    decimals_tell_their_number(number);
    small_written_numbers_are_read(number, u32::MAX as nat);
    small_written_numbers_are_read(preview, u32::MAX as nat);
    assert(!contains(release, "_pre"@)) by {
        reveal_strlit("_pre");
        if contains(release, "_pre"@) {
            let i = choose|i: int| occurs_at(release, "_pre"@, i);
            assert(release.subrange(i, i + 4)[0] == release[i]);
            assert(release[i] == '_');
            if i > 0 {
                assert(is_digit(decimal(number)[i - 1]));
            }
        }
    }
    lemma_preview_parts(release, decimal(preview));
    assert(release.skip(1) =~= decimal(number));
}

/// An OptiFine is sorted by what stands behind the last `_HD_U_` of its name, and one without it
/// before all others.
pub proof fn optifines_are_sorted_by_their_suffix(front: Seq<char>, suffix: Seq<char>)
    requires
        !contains("HD_U_"@ + suffix, "_HD_U_"@),
    ensures
        sort_key_of(front + "_HD_U_"@ + suffix) == key_of_suffix(suffix),
        !contains(front, "_HD_U_"@) ==> sort_key_of(front) == (0u32, 0u32, 0u32),
{
    reveal_strlit("HD_U_");
    reveal_strlit("_HD_U_");
    assert("_HD_U_"@.skip(1) =~= "HD_U_"@);
    texts_are_parted_at_the_last_pattern(front, "_HD_U_"@, suffix);
    lemma_last_index_to(front, "_HD_U_"@, front.len() - 6);
    if let Some(i) = last_index_of(front, "_HD_U_"@) {
        assert(occurs_at(front, "_HD_U_"@, i));
    }
}

/// Of two OptiFines of the sorted list the first has the later letter; if the letter is the same, the
/// larger number; if the number is the same too, the later preview; and if all are the same, not the
/// name that comes before that of the second.
pub proof fn newer_optifines_come_first(list: Seq<OptiFineResourceInfo>, i: int, j: int)
    requires
        0 <= i < j < list.len(),
    ensures
        ({
            let out = arranged(list, newest_first(list));
            let a = sort_key_of(out[i].filename@);
            let b = sort_key_of(out[j].filename@);
            &&& a.0 >= b.0
            &&& a.0 == b.0 ==> a.1 >= b.1
            &&& a.0 == b.0 && a.1 == b.1 ==> a.2 >= b.2
            &&& a == b ==> !before(out[i].filename@, out[j].filename@)
        }),
{
    let less = newest_first(list);
    let r = ranked(list.len(), less);
    lemma_newer_orders(list);
    ranking_is_stable_and_in_order(list.len(), less);
    ranking_keeps_every_position(list.len(), less);
    arranging_keeps_items(list, less);
    assert(may_precede(less, r[i], r[j]));
    assert(0 <= r[i] < list.len() && 0 <= r[j] < list.len());
    lemma_before_total(list[r[i]].filename@, list[r[j]].filename@);
}

/// The Fabric loaders of a version are listed below the address of the source.
pub proof fn fabric_loaders_are_listed_by_version(
    api: Seq<char>,
    list: Seq<char>,
    game_version: Seq<char>,
)
    requires
        url_joined(api, "v2/versions/loader/"@) == Ok::<Seq<char>, Seq<char>>(list),
    ensures
        fabric_url_of(api, game_version) == url_joined(list, game_version),
{
}

// ---------------------------------------------------------------------------------------------
// Lists of OptiFines
// ---------------------------------------------------------------------------------------------
/// The address of the list of the OptiFines for a version of the game, relative to that of the
/// mirror; or the text of the error where there is none.
pub fn optifine_list_url(api: &str, game_version: &str) -> (r: Result<String, String>)
    ensures
        join_result(r) == url_joined(api@, game_version@),
{
    join_url(api, game_version)
}

/// An OptiFine as texts: its file name, its patch and its kind.
pub open spec fn optifine_texts(o: OptiFineResourceInfo) -> (Seq<char>, Seq<char>, Seq<char>) {
    (o.filename@, o.patch@, o.kind@)
}

/// OptiFines as texts.
pub open spec fn all_optifine_texts(v: Seq<OptiFineResourceInfo>) -> Seq<
    (Seq<char>, Seq<char>, Seq<char>),
> {
    v.map_values(|o: OptiFineResourceInfo| optifine_texts(o))
}

/// OptiFines with the extensions of their file names taken off.
pub open spec fn without_extensions(v: Seq<OptiFineResourceInfo>) -> Seq<
    (Seq<char>, Seq<char>, Seq<char>),
> {
    v.map_values(
        |o: OptiFineResourceInfo| (stem_and_extension(o.filename@).0, o.patch@, o.kind@),
    )
}

/// A list holds OptiFines with the newest first.
pub open spec fn sorted_from(
    r: Seq<OptiFineResourceInfo>,
    given: Seq<(Seq<char>, Seq<char>, Seq<char>)>,
) -> bool {
    exists|list: Seq<OptiFineResourceInfo>|
        all_optifine_texts(list) == given && r == #[trigger] arranged(list, newest_first(list))
}

/// A sorted list holds the OptiFines that were given, each as often as it was, and the newest first.
pub proof fn sorted_lists_hold_what_was_given(
    r: Seq<OptiFineResourceInfo>,
    given: Seq<(Seq<char>, Seq<char>, Seq<char>)>,
    i: int,
    j: int,
)
    requires
        sorted_from(r, given),
        0 <= i < j < given.len(),
    ensures
        r.len() == given.len(),
        given.contains(optifine_texts(r[i])),
        all_optifine_texts(r).contains(given[i]),
        !key_less(sort_key_of(r[i].filename@), sort_key_of(r[j].filename@)),
{
    let list = choose|list: Seq<OptiFineResourceInfo>|
        all_optifine_texts(list) == given && r == #[trigger] arranged(list, newest_first(list));
    let less = newest_first(list);
    assert(list.len() == given.len());
    arranging_keeps_items(list, less);
    newer_optifines_come_first(list, i, j);
    assert(r.contains(r[i]));
    let k = choose|k: int| 0 <= k < list.len() && list[k] == r[i];
    assert(given[k] == optifine_texts(r[i]));
    assert(list.contains(list[i]));
    assert(r.contains(list[i]));
    let m = choose|m: int| 0 <= m < r.len() && r[m] == list[i];
    assert(all_optifine_texts(r)[m] == given[i]);
}

/// The OptiFines that the mirror lists: by the stems of their file names, the newest first.
pub fn optifines_of_mirror(manifest: &Vec<OptiFineResourceInfo>) -> (r: Vec<OptiFineResourceInfo>)
    ensures
        sorted_from(r@, without_extensions(manifest@)),
{
    let mut list: Vec<OptiFineResourceInfo> = Vec::new();
    let mut i: usize = 0;
    while i < manifest.len()
        invariant
            i <= manifest.len(),
            all_optifine_texts(list@) == without_extensions(manifest@).take(i as int),
        decreases manifest.len() - i,
    {
        let ghost so_far = all_optifine_texts(list@);
        let given = &manifest[i];
        let info = OptiFineResourceInfo {
            filename: split_file_name(given.filename.as_str()).0,
            patch: given.patch.clone(),
            kind: given.kind.clone(),
        };
        list.push(info);
        assert(all_optifine_texts(list@) =~= so_far.push(optifine_texts(info)));
        assert(without_extensions(manifest@).take(i + 1) =~= so_far.push(
            without_extensions(manifest@)[i as int],
        ));
        i += 1;
    }
    assert(without_extensions(manifest@).take(manifest.len() as int) =~= without_extensions(
        manifest@,
    ));
    sort_optifines(list)
}

/// The pattern of the names of OptiFines on the page that lists them.
pub const OPTIFINE_NAME_PATTERN: &'static str = r##"OptiFine_([0-9A-Za-z_.]+)\.jar["']"##;

/// The fewest bytes that the page has.
pub const MIN_PAGE_BYTES: usize = 200;

/// The first groups of matches, where they took part.
pub open spec fn first_groups(found: Seq<Seq<Option<Seq<char>>>>) -> Seq<Seq<char>>
    decreases found.len(),
{
    if found.len() == 0 {
        seq![]
    } else {
        let front = first_groups(found.drop_last());
        if found.last().len() > 1 && found.last()[1] is Some {
            front.push(found.last()[1]->0)
        } else {
            front
        }
    }
}

/// The texts that begin with another.
pub open spec fn beginning_with(list: Seq<Seq<char>>, prefix: Seq<char>) -> Seq<Seq<char>> {
    list.filter(|s: Seq<char>| starts_with(s, prefix))
}

/// The OptiFine of a name, if it is one of high definition.
pub open spec fn optifine_named(name: Seq<char>, prefix: Seq<char>) -> Option<
    (Seq<char>, Seq<char>, Seq<char>),
> {
    match without_prefix(name, prefix) {
        Some(suffix) => match without_prefix(suffix, "HD_U_"@) {
            Some(patch) => Some(("OptiFine_"@ + name, patch, "HD_U"@)),
            None => None,
        },
        None => None,
    }
}

/// The OptiFines of names.
pub open spec fn optifines_named(names: Seq<Seq<char>>, prefix: Seq<char>) -> Seq<
    (Seq<char>, Seq<char>, Seq<char>),
>
    decreases names.len(),
{
    if names.len() == 0 {
        seq![]
    } else {
        let front = optifines_named(names.drop_last(), prefix);
        match optifine_named(names.last(), prefix) {
            Some(o) => front.push(o),
            None => front,
        }
    }
}

/// What a page that lists OptiFines gives for a version of the game.
pub open spec fn page_optifines(found: Seq<Seq<Option<Seq<char>>>>, game_version: Seq<char>) -> Seq<
    (Seq<char>, Seq<char>, Seq<char>),
> {
    let prefix = game_version + "_"@;
    optifines_named(beginning_with(first_groups(found), prefix), prefix)
}

/// Every name of high definition for the version of the game on the page gives an OptiFine.
pub proof fn every_named_optifine_is_listed(
    found: Seq<Seq<Option<Seq<char>>>>,
    game_version: Seq<char>,
    i: int,
    patch: Seq<char>,
)
    requires
        0 <= i < found.len(),
        found[i].len() > 1,
        found[i][1] == Some(game_version + "_HD_U_"@ + patch),
    ensures
        page_optifines(found, game_version).contains(
            ("OptiFine_"@ + game_version + "_HD_U_"@ + patch, patch, "HD_U"@),
        ),
{
    reveal_strlit("_HD_U_");
    reveal_strlit("HD_U_");
    reveal_strlit("_");
    let name = game_version + "_HD_U_"@ + patch;
    let prefix = game_version + "_"@;
    let rest = "HD_U_"@ + patch;
    assert(name =~= prefix + rest);
    prefixes_are_taken_off(rest, prefix);
    prefixes_are_taken_off(patch, "HD_U_"@);
    lemma_group_is_listed(found, i);
    let groups = first_groups(found);
    lemma_kept(groups, prefix, name);
    let names = beginning_with(groups, prefix);
    let k = choose|k: int| 0 <= k < names.len() && names[k] == name;
    lemma_name_is_listed(names, prefix, k);
    assert("OptiFine_"@ + name =~= "OptiFine_"@ + game_version + "_HD_U_"@ + patch);
}

/// Every OptiFine of a page is one that the page names for the version of the game.
pub proof fn every_listed_optifine_is_named(
    found: Seq<Seq<Option<Seq<char>>>>,
    game_version: Seq<char>,
    k: int,
)
    requires
        0 <= k < page_optifines(found, game_version).len(),
    ensures
        ({
            let (filename, patch, kind) = page_optifines(found, game_version)[k];
            &&& kind == "HD_U"@
            &&& filename == "OptiFine_"@ + game_version + "_HD_U_"@ + patch
            &&& exists|i: int|
                0 <= i < found.len() && (#[trigger] found[i]).len() > 1 && found[i][1] == Some(
                    game_version + "_HD_U_"@ + patch,
                )
        }),
{
    reveal_strlit("_HD_U_");
    reveal_strlit("HD_U_");
    reveal_strlit("_");
    let prefix = game_version + "_"@;
    let groups = first_groups(found);
    let names = beginning_with(groups, prefix);
    let (filename, patch, kind) = page_optifines(found, game_version)[k];
    lemma_listed_is_named(names, prefix, k);
    let m = choose|m: int|
        0 <= m < names.len() && optifine_named(#[trigger] names[m], prefix) == Some(
            (filename, patch, kind),
        );
    let name = names[m];
    prefixes_are_taken_off(name, prefix);
    let suffix = without_prefix(name, prefix)->0;
    prefixes_are_taken_off(suffix, "HD_U_"@);
    assert(name =~= game_version + "_HD_U_"@ + patch);
    assert(filename =~= "OptiFine_"@ + game_version + "_HD_U_"@ + patch);
    lemma_kept(groups, prefix, name);
    assert(names.contains(name));
    let g = choose|g: int| 0 <= g < groups.len() && groups[g] == name;
    lemma_listed_group(found, g);
}

proof fn lemma_kept(list: Seq<Seq<char>>, prefix: Seq<char>, name: Seq<char>)
    ensures
        beginning_with(list, prefix).contains(name) <==> list.contains(name) && starts_with(
            name,
            prefix,
        ),
    decreases list.len(),
{
    reveal(Seq::filter);
    let keep = |s: Seq<char>| starts_with(s, prefix);
    let out = list.filter(keep);
    if list.len() > 0 {
        let front = list.drop_last();
        lemma_kept(front, prefix, name);
        let inner = front.filter(keep);
        assert(inner == beginning_with(front, prefix));
        if out.contains(name) {
            let i = choose|i: int| 0 <= i < out.len() && out[i] == name;
            if i < inner.len() {
                assert(inner[i] == name);
                let k = choose|k: int| 0 <= k < front.len() && front[k] == name;
                assert(list[k] == name);
            } else {
                assert(list[list.len() - 1] == name);
            }
        }
        if list.contains(name) && starts_with(name, prefix) {
            let k = choose|k: int| 0 <= k < list.len() && list[k] == name;
            if k < front.len() {
                assert(front[k] == name);
                let i = choose|i: int| 0 <= i < inner.len() && inner[i] == name;
                assert(out[i] == name);
            } else {
                assert(out[out.len() - 1] == name);
            }
        }
    }
}

proof fn lemma_group_is_listed(found: Seq<Seq<Option<Seq<char>>>>, i: int)
    requires
        0 <= i < found.len(),
        found[i].len() > 1,
        found[i][1] is Some,
    ensures
        first_groups(found).contains(found[i][1]->0),
    decreases found.len(),
{
    let front = first_groups(found.drop_last());
    let out = first_groups(found);
    if i < found.len() - 1 {
        lemma_group_is_listed(found.drop_last(), i);
        let k = choose|k: int| 0 <= k < front.len() && front[k] == found[i][1]->0;
        assert(out[k] == front[k]);
    } else {
        assert(out[out.len() - 1] == found[i][1]->0);
    }
}

proof fn lemma_listed_group(found: Seq<Seq<Option<Seq<char>>>>, g: int)
    requires
        0 <= g < first_groups(found).len(),
    ensures
        exists|i: int|
            0 <= i < found.len() && (#[trigger] found[i]).len() > 1 && found[i][1] == Some(
                first_groups(found)[g],
            ),
    decreases found.len(),
{
    let front = first_groups(found.drop_last());
    if g < front.len() {
        lemma_listed_group(found.drop_last(), g);
        let i = choose|i: int|
            0 <= i < found.drop_last().len() && (#[trigger] found.drop_last()[i]).len() > 1
                && found.drop_last()[i][1] == Some(front[g]);
        assert(found[i] == found.drop_last()[i]);
    } else {
        assert(found[found.len() - 1] == found.last());
    }
}

proof fn lemma_name_is_listed(names: Seq<Seq<char>>, prefix: Seq<char>, k: int)
    requires
        0 <= k < names.len(),
        optifine_named(names[k], prefix) is Some,
    ensures
        optifines_named(names, prefix).contains(optifine_named(names[k], prefix)->0),
    decreases names.len(),
{
    let front = optifines_named(names.drop_last(), prefix);
    let out = optifines_named(names, prefix);
    let o = optifine_named(names[k], prefix)->0;
    if k < names.len() - 1 {
        lemma_name_is_listed(names.drop_last(), prefix, k);
        let i = choose|i: int| 0 <= i < front.len() && front[i] == o;
        assert(out[i] == o);
    } else {
        assert(out[out.len() - 1] == o);
    }
}

proof fn lemma_listed_is_named(names: Seq<Seq<char>>, prefix: Seq<char>, k: int)
    requires
        0 <= k < optifines_named(names, prefix).len(),
    ensures
        exists|m: int|
            0 <= m < names.len() && optifine_named(#[trigger] names[m], prefix) == Some(
                optifines_named(names, prefix)[k],
            ),
    decreases names.len(),
{
    let front = optifines_named(names.drop_last(), prefix);
    if k < front.len() {
        lemma_listed_is_named(names.drop_last(), prefix, k);
        let m = choose|m: int|
            0 <= m < names.drop_last().len() && optifine_named(
                #[trigger] names.drop_last()[m],
                prefix,
            ) == Some(front[k]);
        assert(names[m] == names.drop_last()[m]);
    } else {
        assert(names[names.len() - 1] == names.last());
    }
}

fn names_in(found: &Vec<Vec<Option<String>>>, prefix: &str) -> (r: Vec<String>)
    ensures
        texts(r@) == beginning_with(first_groups(match_texts(found@)), prefix@),
{
    let ghost all = match_texts(found@);
    let ghost test = |s: Seq<char>| starts_with(s, prefix@);
    let mut out: Vec<String> = Vec::new();
    let mut i: usize = 0;
    proof {
        reveal(Seq::filter);
    }
    assert(texts(out@) =~= first_groups(all.take(0)).filter(test));
    while i < found.len()
        invariant
            i <= found.len(),
            all == match_texts(found@),
            test == (|s: Seq<char>| starts_with(s, prefix@)),
            texts(out@) == first_groups(all.take(i as int)).filter(test),
        decreases found.len() - i,
    {
        proof {
            reveal(Seq::filter);
        }
        let ghost so_far = texts(out@);
        let ghost front = first_groups(all.take(i as int));
        let ghost upto = all.take(i + 1);
        assert(upto.drop_last() =~= all.take(i as int));
        assert(upto.last() == group_texts(found@[i as int]@));
        let groups = &found[i];
        if groups.len() > 1 {
            assert(upto.last()[1] == opt_text(found@[i as int]@[1]));
            if let Some(name) = &groups[1] {
                assert(front.push(name@).drop_last() =~= front);
                if begins(name.as_str(), prefix) {
                    out.push(name.clone());
                    assert(texts(out@) =~= so_far.push(name@));
                }
            }
        }
        i += 1;
    }
    assert(all.take(all.len() as int) =~= all);
    out
}

fn named_optifines(names: &Vec<String>, prefix: &str) -> (r: Vec<OptiFineResourceInfo>)
    ensures
        all_optifine_texts(r@) == optifines_named(texts(names@), prefix@),
{
    let ghost all = texts(names@);
    let mut out: Vec<OptiFineResourceInfo> = Vec::new();
    let mut i: usize = 0;
    assert(all_optifine_texts(out@) =~= optifines_named(all.take(0), prefix@));
    while i < names.len()
        invariant
            i <= names.len(),
            all == texts(names@),
            all_optifine_texts(out@) == optifines_named(all.take(i as int), prefix@),
        decreases names.len() - i,
    {
        let ghost so_far = all_optifine_texts(out@);
        let ghost upto = all.take(i + 1);
        assert(upto.drop_last() =~= all.take(i as int));
        assert(upto.last() == names@[i as int]@);
        if let Some(suffix) = strip_prefix(names[i].as_str(), prefix) {
            if let Some(patch) = strip_prefix(suffix.as_str(), "HD_U_") {
                let info = OptiFineResourceInfo {
                    filename: concat2("OptiFine_", names[i].as_str()),
                    patch,
                    kind: "HD_U".to_owned(),
                };
                out.push(info);
                assert(all_optifine_texts(out@) =~= so_far.push(optifine_texts(info)));
            }
        }
        i += 1;
    }
    assert(all.take(all.len() as int) =~= all);
    out
}

/// The OptiFines for a version of the game, given the matches of the pattern of their names on the
/// page that lists them: the newest first. None is an error.
pub fn optifines_from_matches(found: &Vec<Vec<Option<String>>>, game_version: &str) -> (r: Result<
    Vec<OptiFineResourceInfo>,
    ResourceError,
>)
    ensures
        match r {
            Ok(list) => page_optifines(match_texts(found@), game_version@).len() > 0 && sorted_from(
                list@,
                page_optifines(match_texts(found@), game_version@),
            ),
            Err(error) => page_optifines(match_texts(found@), game_version@).len() == 0 && error
                == ResourceError::ParseError,
        },
{
    let prefix = concat2(game_version, "_");
    let names = names_in(found, prefix.as_str());
    let list = named_optifines(&names, prefix.as_str());
    assert(all_optifine_texts(list@).len() == list@.len());
    if list.len() == 0 {
        return Err(ResourceError::ParseError);
    }
    Ok(sort_optifines(list))
}

/// The OptiFines for a version of the game on the page that lists them: the newest first. A page
/// that is too short, or lists none, is an error.
pub fn optifines_on_page(html: &str, game_version: &str) -> (r: Result<
    Vec<OptiFineResourceInfo>,
    ResourceError,
>)
    ensures
        ({
            let found = regex_found(OPTIFINE_NAME_PATTERN@, false, html@);
            let given = page_optifines(found, game_version@);
            match r {
                Ok(list) => encode_utf8(html@).len() >= MIN_PAGE_BYTES && given.len() > 0
                    && sorted_from(list@, given),
                Err(error) => (encode_utf8(html@).len() < MIN_PAGE_BYTES || given.len() == 0)
                    && error == ResourceError::ParseError,
            }
        }),
{
    let bytes = html.as_bytes();
    if bytes.len() < MIN_PAGE_BYTES {
        return Err(ResourceError::ParseError);
    }
    let found = regex_matches(OPTIFINE_NAME_PATTERN, false, html);
    optifines_from_matches(&found, game_version)
}

} // verus!
