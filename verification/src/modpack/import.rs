//! Importing a modpack from an archive.
use vstd::prelude::*;
use crate::external::backslash_separates;
use crate::instance::models::{
    copy_text, InstanceError, ModLoader, ModLoaderModel, ModLoaderResourceInfo, ModLoaderType,
};
use crate::paths::{
    is_safe_relative_modpack_path_for, ordinary_name, ordinary_paths_are_accepted,
    safe_archive_path, with_slashes,
};
use crate::text::{
    concat2, joined, opt_text, outer_marks_are_taken_off, prefixes_are_taken_off, replace,
    replaced_characters_keep_their_places, same, strip_prefix, texts, trim_slashes,
    without_outer_slashes, without_prefix,
};

verus! {

/// Where a resource comes from.
#[derive(Clone, Copy, Debug, PartialEq, Eq, Structural)]
pub enum OtherResourceSource {
    Unknown,
    CurseForge,
    Modrinth,
}

/// What a modpack tells of itself.
#[derive(Debug)]
pub struct ModpackMetaInfo {
    pub name: String,
    pub version: Option<String>,
    pub description: Option<String>,
    pub author: Option<String>,
    pub modpack_source: OtherResourceSource,
    pub client_version: String,
    pub mod_loader: Option<ModLoader>,
}

/// Whether the branch of a loader that a modpack asks for is looked up: only that of Forge is.
pub fn needs_branch(loader_type: ModLoaderType) -> (r: bool)
    ensures
        r == (loader_type == ModLoaderType::Forge),
{
    match loader_type {
        ModLoaderType::Forge => true,
        _ => false,
    }
}

/// The first position at which a list says yes.
pub open spec fn first_yes(list: Seq<bool>) -> Option<int>
    decreases list.len(),
{
    if list.len() == 0 {
        None
    } else {
        match first_yes(list.drop_last()) {
            Some(i) => Some(i),
            None => if list.last() {
                Some(list.len() - 1)
            } else {
                None
            },
        }
    }
}

/// By which format to read an archive, given which of the formats recognise it: the first one.
pub fn recognized_format(recognized: &Vec<bool>) -> (r: Result<usize, InstanceError>)
    ensures
        match r {
            Ok(i) => first_yes(recognized@) == Some(i as int),
            Err(error) => first_yes(recognized@) is None && error
                == InstanceError::ModpackManifestParseError,
        },
{
    let mut i: usize = 0;
    while i < recognized.len()
        invariant
            i <= recognized.len(),
            first_yes(recognized@.take(i as int)) is None,
        decreases recognized.len() - i,
    {
        assert(recognized@.take(i + 1).drop_last() =~= recognized@.take(i as int));
        if recognized[i] {
            proof {
                lemma_first_yes(recognized@, i + 1);
            }
            return Ok(i);
        }
        i += 1;
    }
    assert(recognized@.take(recognized.len() as int) =~= recognized@);
    Err(InstanceError::ModpackManifestParseError)
}

proof fn lemma_first_yes(list: Seq<bool>, n: int)
    requires
        0 <= n <= list.len(),
        first_yes(list.take(n)) is Some,
    ensures
        first_yes(list) == first_yes(list.take(n)),
    decreases list.len() - n,
{
    if n < list.len() {
        assert(list.take(n + 1).drop_last() =~= list.take(n));
        lemma_first_yes(list, n + 1);
    } else {
        assert(list.take(n) =~= list);
    }
}

/// The first listed loader with a version.
pub open spec fn listed_branch(
    list: Seq<ModLoaderResourceInfo>,
    version: Seq<char>,
) -> Option<Option<Seq<char>>>
    decreases list.len(),
{
    if list.len() == 0 {
        None
    } else {
        match listed_branch(list.drop_last(), version) {
            Some(branch) => Some(branch),
            None => if list.last().version@ == version {
                Some(opt_text(list.last().branch))
            } else {
                None
            },
        }
    }
}

proof fn lemma_listed(list: Seq<ModLoaderResourceInfo>, version: Seq<char>, n: int)
    requires
        0 <= n <= list.len(),
        listed_branch(list.take(n), version) is Some,
    ensures
        listed_branch(list, version) == listed_branch(list.take(n), version),
    decreases list.len() - n,
{
    if n < list.len() {
        assert(list.take(n + 1).drop_last() =~= list.take(n));
        lemma_listed(list, version, n + 1);
    } else {
        assert(list.take(n) =~= list);
    }
}

impl ModLoader {
    /// The loader with the branch under which its version is listed.
    pub fn with_branch(&self, version_list: &Vec<ModLoaderResourceInfo>) -> (r: Result<
        ModLoader,
        InstanceError,
    >)
        ensures
            match listed_branch(version_list@, self.version@) {
                Some(branch) => r matches Ok(loader) && loader@ == (ModLoaderModel {
                    branch,
                    ..self@
                }),
                None => r == Err::<ModLoader, InstanceError>(
                    InstanceError::ModLoaderVersionParseError,
                ),
            },
    {
        let mut i: usize = 0;
        while i < version_list.len()
            invariant
                i <= version_list.len(),
                listed_branch(version_list@.take(i as int), self.version@) is None,
            decreases version_list.len() - i,
        {
            assert(version_list@.take(i + 1).drop_last() =~= version_list@.take(i as int));
            if same(version_list[i].version.as_str(), self.version.as_str()) {
                proof {
                    lemma_listed(version_list@, self.version@, i + 1);
                }
                let mut loader = self.duplicate();
                loader.branch = copy_text(&version_list[i].branch);
                return Ok(loader);
            }
            i += 1;
        }
        assert(version_list@.take(version_list.len() as int) =~= version_list@);
        Err(InstanceError::ModLoaderVersionParseError)
    }
}

// ---------------------------------------------------------------------------------------------
// Overrides
// ---------------------------------------------------------------------------------------------
/// An entry of an archive.
#[derive(Debug)]
pub struct ArchiveEntry {
    pub name: String,
    pub is_file: bool,
}

/// Where an entry is written below the instance, if it stands below a directory of overrides, is
/// a file, and can be written there.
pub open spec fn override_target_of(
    directory: Seq<char>,
    name: Seq<char>,
    is_file: bool,
    windows: bool,
) -> Option<Seq<char>> {
    let prefix = without_outer_slashes(directory);
    if prefix.len() == 0 {
        None
    } else {
        match without_prefix(with_slashes(name), prefix + "/"@) {
            Some(path) => if safe_archive_path(path, windows) && is_file {
                Some(path)
            } else {
                None
            },
            None => None,
        }
    }
}

/// Where an entry is written below the instance, if it is.
pub fn override_target(directory: &str, entry: &ArchiveEntry, windows: bool) -> (r: Option<String>)
    ensures
        opt_text(r) == override_target_of(directory@, entry.name@, entry.is_file, windows),
{
    proof {
        reveal_strlit("\\");
    }
    let prefix = trim_slashes(directory);
    if prefix.as_str().unicode_len() == 0 {
        return None;
    }
    let archive_path = replace(entry.name.as_str(), "\\", "/");
    let below = concat2(prefix.as_str(), "/");
    let path = match strip_prefix(archive_path.as_str(), below.as_str()) {
        Some(path) => path,
        None => {
            return None;
        },
    };
    if !is_safe_relative_modpack_path_for(path.as_str(), windows) || !entry.is_file {
        return None;
    }
    Some(path)
}

/// An entry to write: its position in the archive, and where it is written.
#[derive(Debug)]
pub struct Extraction {
    pub entry: usize,
    pub path: String,
}

/// Entries to write, as texts.
pub open spec fn extraction_views(v: Seq<Extraction>) -> Seq<(int, Seq<char>)> {
    v.map_values(|e: Extraction| (e.entry as int, e.path@))
}

/// The entries to write for one directory of overrides, in the order of the archive.
pub open spec fn extractions_from(
    directory: Seq<char>,
    entries: Seq<ArchiveEntry>,
    windows: bool,
) -> Seq<(int, Seq<char>)>
    decreases entries.len(),
{
    if entries.len() == 0 {
        seq![]
    } else {
        let front = extractions_from(directory, entries.drop_last(), windows);
        match override_target_of(directory, entries.last().name@, entries.last().is_file, windows) {
            Some(path) => front.push((entries.len() - 1, path)),
            None => front,
        }
    }
}

/// The entries to write for all directories of overrides, one directory after the other.
pub open spec fn all_extractions(
    directories: Seq<Seq<char>>,
    entries: Seq<ArchiveEntry>,
    windows: bool,
) -> Seq<(int, Seq<char>)>
    decreases directories.len(),
{
    if directories.len() == 0 {
        seq![]
    } else {
        all_extractions(directories.drop_last(), entries, windows) + extractions_from(
            directories.last(),
            entries,
            windows,
        )
    }
}

fn extract_from(directory: &str, entries: &Vec<ArchiveEntry>, windows: bool) -> (r: Vec<Extraction>)
    ensures
        extraction_views(r@) == extractions_from(directory@, entries@, windows),
{
    let mut out: Vec<Extraction> = Vec::new();
    let mut i: usize = 0;
    assert(extraction_views(out@) =~= extractions_from(directory@, entries@.take(0), windows));
    while i < entries.len()
        invariant
            i <= entries.len(),
            extraction_views(out@) == extractions_from(directory@, entries@.take(i as int), windows),
        decreases entries.len() - i,
    {
        let ghost so_far = extraction_views(out@);
        assert(entries@.take(i + 1).drop_last() =~= entries@.take(i as int));
        if let Some(path) = override_target(directory, &entries[i], windows) {
            out.push(Extraction { entry: i, path });
            assert(extraction_views(out@) =~= so_far.push((i as int, path@)));
        }
        i += 1;
    }
    assert(entries@.take(entries.len() as int) =~= entries@);
    out
}

/// The entries to write for the directories of overrides, by the rules of Windows or of the other
/// systems.
pub fn overrides_to_extract_for(
    override_paths: &Vec<String>,
    entries: &Vec<ArchiveEntry>,
    windows: bool,
) -> (r: Vec<Extraction>)
    ensures
        extraction_views(r@) == all_extractions(texts(override_paths@), entries@, windows),
{
    let ghost directories = texts(override_paths@);
    let mut out: Vec<Extraction> = Vec::new();
    let mut i: usize = 0;
    assert(extraction_views(out@) =~= all_extractions(directories.take(0), entries@, windows));
    while i < override_paths.len()
        invariant
            i <= override_paths.len(),
            directories == texts(override_paths@),
            extraction_views(out@) == all_extractions(
                directories.take(i as int),
                entries@,
                windows,
            ),
        decreases override_paths.len() - i,
    {
        let ghost so_far = extraction_views(out@);
        assert(directories.take(i + 1).drop_last() =~= directories.take(i as int));
        assert(directories.take(i + 1).last() == override_paths@[i as int]@);
        let mut more = extract_from(override_paths[i].as_str(), entries, windows);
        let ghost added = extraction_views(more@);
        out.append(&mut more);
        assert(extraction_views(out@) =~= so_far + added);
        i += 1;
    }
    assert(directories.take(directories.len() as int) =~= directories);
    out
}

/// The entries to write for the directories of overrides, by the rules of the system.
pub fn overrides_to_extract(override_paths: &Vec<String>, entries: &Vec<ArchiveEntry>) -> (r: Vec<
    Extraction,
>)
    ensures
        exists|windows: bool|
            extraction_views(r@) == #[trigger] all_extractions(
                texts(override_paths@),
                entries@,
                windows,
            ),
{
    let windows = backslash_separates();
    overrides_to_extract_for(override_paths, entries, windows)
}

/// Nothing is written outside the instance: every entry that is written is a file of the archive
/// and goes to a path that stays below the instance.
pub proof fn only_safe_overrides_are_written(
    directories: Seq<Seq<char>>,
    entries: Seq<ArchiveEntry>,
    windows: bool,
    i: int,
)
    requires
        0 <= i < all_extractions(directories, entries, windows).len(),
    ensures
        ({
            let (entry, path) = all_extractions(directories, entries, windows)[i];
            &&& 0 <= entry < entries.len()
            &&& entries[entry].is_file
            &&& safe_archive_path(path, windows)
        }),
    decreases directories.len(),
{
    let front = all_extractions(directories.drop_last(), entries, windows);
    if i < front.len() {
        only_safe_overrides_are_written(directories.drop_last(), entries, windows, i);
    } else {
        lemma_safe_from(directories.last(), entries, windows, i - front.len());
    }
}

/// Every override is written: an entry that is a file and stands below a directory of overrides, at a
/// path that stays below the instance, is written to that path; so is one whose name has backslashes.
pub proof fn every_safe_override_is_written(
    directories: Seq<Seq<char>>,
    entries: Seq<ArchiveEntry>,
    windows: bool,
    directory: int,
    entry: int,
    path: Seq<char>,
)
    requires
        0 <= directory < directories.len(),
        0 <= entry < entries.len(),
        entries[entry].is_file,
        without_outer_slashes(directories[directory]).len() > 0,
        with_slashes(entries[entry].name@) == without_outer_slashes(directories[directory]) + "/"@
            + path,
        safe_archive_path(path, windows),
    ensures
        all_extractions(directories, entries, windows).contains((entry, path)),
    decreases directories.len(),
{
    let front = all_extractions(directories.drop_last(), entries, windows);
    let more = extractions_from(directories.last(), entries, windows);
    let all = all_extractions(directories, entries, windows);
    if directory < directories.len() - 1 {
        every_safe_override_is_written(
            directories.drop_last(),
            entries,
            windows,
            directory,
            entry,
            path,
        );
        let i = choose|i: int| 0 <= i < front.len() && front[i] == (entry, path);
        assert(all[i] == (entry, path));
    } else {
        lemma_written_from(directories.last(), entries, windows, entry, path);
        let i = choose|i: int| 0 <= i < more.len() && more[i] == (entry, path);
        assert(all[front.len() + i] == (entry, path));
    }
}

proof fn lemma_written_from(
    directory: Seq<char>,
    entries: Seq<ArchiveEntry>,
    windows: bool,
    entry: int,
    path: Seq<char>,
)
    requires
        0 <= entry < entries.len(),
        entries[entry].is_file,
        without_outer_slashes(directory).len() > 0,
        with_slashes(entries[entry].name@) == without_outer_slashes(directory) + "/"@ + path,
        safe_archive_path(path, windows),
    ensures
        extractions_from(directory, entries, windows).contains((entry, path)),
    decreases entries.len(),
{
    let front = extractions_from(directory, entries.drop_last(), windows);
    let all = extractions_from(directory, entries, windows);
    if entry < entries.len() - 1 {
        lemma_written_from(directory, entries.drop_last(), windows, entry, path);
        let i = choose|i: int| 0 <= i < front.len() && front[i] == (entry, path);
        assert(all[i] == (entry, path));
    } else {
        prefixes_are_taken_off(path, without_outer_slashes(directory) + "/"@);
        assert(all[front.len() as int] == (entry, path));
    }
}

/// Overrides of ordinary names, however deep, are written where they stand below their directory, on
/// every system.
pub proof fn overrides_keep_their_place(
    directory: Seq<char>,
    names: Seq<Seq<char>>,
    windows: bool,
)
    requires
        ordinary_name(directory),
        names.len() > 0,
        forall|i: int| 0 <= i < names.len() ==> ordinary_name(#[trigger] names[i]),
    ensures
        override_target_of(directory, directory + "/"@ + joined(names, '/'), true, windows) == Some(
            joined(names, '/'),
        ),
        override_target_of(directory, directory + "/"@ + joined(names, '/'), false, windows) is None,
{
    reveal_strlit("\\");
    reveal_strlit("/");
    let path = joined(names, '/');
    let whole = directory + "/"@ + path;
    ordinary_paths_are_accepted(names, windows);
    outer_marks_are_taken_off(directory);
    replaced_characters_keep_their_places(path, "\\"@, "/"@);
    replaced_characters_keep_their_places(whole, "\\"@, "/"@);
    assert(with_slashes(path) == path);
    assert(with_slashes(whole) =~= whole) by {
        assert forall|i: int| 0 <= i < whole.len() implies whole[i] != '\\' by {
            if i < directory.len() {
                assert(whole[i] == directory[i]);
            } else if i > directory.len() {
                let k = i - directory.len() - 1;
                assert(whole[i] == path[k]);
                assert(with_slashes(path)[k] == path[k]);
            }
        }
    }
    prefixes_are_taken_off(path, directory + "/"@);
}

/// What is written of an archive stands in it below a directory of overrides, at the path to which it
/// is written.
pub proof fn overrides_come_from_below_their_directory(
    directories: Seq<Seq<char>>,
    entries: Seq<ArchiveEntry>,
    windows: bool,
    i: int,
)
    requires
        0 <= i < all_extractions(directories, entries, windows).len(),
    ensures
        ({
            let (entry, path) = all_extractions(directories, entries, windows)[i];
            exists|d: int|
                0 <= d < directories.len() && with_slashes(entries[entry].name@)
                    == without_outer_slashes(#[trigger] directories[d]) + "/"@ + path
        }),
    decreases directories.len(),
{
    let front = all_extractions(directories.drop_last(), entries, windows);
    let (entry, path) = all_extractions(directories, entries, windows)[i];
    if i < front.len() {
        overrides_come_from_below_their_directory(directories.drop_last(), entries, windows, i);
        let d = choose|d: int|
            0 <= d < directories.len() - 1 && with_slashes(entries[entry].name@)
                == without_outer_slashes(#[trigger] directories.drop_last()[d]) + "/"@ + path;
        assert(directories[d] == directories.drop_last()[d]);
    } else {
        lemma_comes_from(directories.last(), entries, windows, i - front.len());
        assert(directories[directories.len() - 1] == directories.last());
    }
}

proof fn lemma_comes_from(directory: Seq<char>, entries: Seq<ArchiveEntry>, windows: bool, i: int)
    requires
        0 <= i < extractions_from(directory, entries, windows).len(),
    ensures
        ({
            let (entry, path) = extractions_from(directory, entries, windows)[i];
            &&& 0 <= entry < entries.len()
            &&& with_slashes(entries[entry].name@) == without_outer_slashes(directory) + "/"@ + path
        }),
    decreases entries.len(),
{
    let front = extractions_from(directory, entries.drop_last(), windows);
    if i < front.len() {
        lemma_comes_from(directory, entries.drop_last(), windows, i);
    } else {
        prefixes_are_taken_off(
            with_slashes(entries.last().name@),
            without_outer_slashes(directory) + "/"@,
        );
    }
}

/// The format of an archive is the first that recognises it.
pub proof fn the_first_format_is_taken(recognized: Seq<bool>)
    ensures
        first_yes(recognized) matches Some(i) ==> 0 <= i < recognized.len() && recognized[i] && forall|
            j: int,
        |
            0 <= j < i ==> !#[trigger] recognized[j],
        first_yes(recognized) is None ==> forall|j: int|
            0 <= j < recognized.len() ==> !#[trigger] recognized[j],
    decreases recognized.len(),
{
    if recognized.len() > 0 {
        the_first_format_is_taken(recognized.drop_last());
        assert forall|j: int| 0 <= j < recognized.len() - 1 implies recognized[j]
            == recognized.drop_last()[j] by {}
    }
}

/// The branch of a loader is that of the first listed one with its version; there is none only where
/// its version is not listed.
pub proof fn branches_are_those_of_the_version(
    list: Seq<ModLoaderResourceInfo>,
    version: Seq<char>,
)
    ensures
        listed_branch(list, version) matches Some(branch) ==> exists|i: int|
            0 <= i < list.len() && (#[trigger] list[i]).version@ == version && opt_text(list[i].branch)
                == branch && forall|j: int| 0 <= j < i ==> (#[trigger] list[j]).version@ != version,
        listed_branch(list, version) is None ==> forall|j: int|
            0 <= j < list.len() ==> (#[trigger] list[j]).version@ != version,
    decreases list.len(),
{
    if list.len() > 0 {
        let front = list.drop_last();
        branches_are_those_of_the_version(front, version);
        assert forall|j: int| 0 <= j < front.len() implies list[j] == front[j] by {}
        if let Some(branch) = listed_branch(front, version) {
            let i = choose|i: int|
                0 <= i < front.len() && (#[trigger] front[i]).version@ == version && opt_text(
                    front[i].branch,
                ) == branch && forall|j: int|
                    0 <= j < i ==> (#[trigger] front[j]).version@ != version;
            assert(list[i].version@ == version);
            assert forall|j: int| 0 <= j < i implies (#[trigger] list[j]).version@ != version by {
                assert(front[j].version@ != version);
            }
        } else {
            assert forall|j: int| 0 <= j < front.len() implies (#[trigger] list[j]).version@ != version by {
                assert(front[j].version@ != version);
            }
            assert(list[list.len() - 1] == list.last());
        }
    }
}

proof fn lemma_safe_from(directory: Seq<char>, entries: Seq<ArchiveEntry>, windows: bool, i: int)
    requires
        0 <= i < extractions_from(directory, entries, windows).len(),
    ensures
        ({
            let (entry, path) = extractions_from(directory, entries, windows)[i];
            &&& 0 <= entry < entries.len()
            &&& entries[entry].is_file
            &&& safe_archive_path(path, windows)
        }),
    decreases entries.len(),
{
    let front = extractions_from(directory, entries.drop_last(), windows);
    if i < front.len() {
        lemma_safe_from(directory, entries.drop_last(), windows, i);
    }
}

} // verus!
