//! Modpacks in the format of CurseForge.
use std::collections::HashMap;
use vstd::prelude::*;
use vstd::utf8::encode_utf8;
use crate::download::candidates::{param_views, DownloadParam, ParamModel};
use crate::external::{parse_url, percent_encode, percent_encoded, url_parsed, UrlModel};
use crate::instance::models::{
    copy_text, InstanceError, ModLoader, ModLoaderModel, ModLoaderStatus, ModLoaderType,
};
use crate::modpack::import::{ModpackMetaInfo, OtherResourceSource};
use crate::paths::{PathModel, TargetPath};
use crate::text::{
    concat2, concat4, decimal, decimal_text, distinct, holds, opt_pair, opt_text, parted,
    parts_make_up_the_text, same, split_once, texts,
};
use crate::web::{mcim_mirror, mcim_mirror_url};

verus! {

/// How often the description of a project or a file is asked of one source.
pub const CURSEFORGE_METADATA_RETRIES: usize = 3;

/// The wait between two attempts, in milliseconds.
pub const CURSEFORGE_METADATA_DELAY_MS: u64 = 400;

/// A loader that a modpack asks for.
#[derive(Debug)]
pub struct CurseForgeModLoader {
    pub id: String,
    pub primary: bool,
}

/// A file of a modpack, by the numbers of its project and of itself.
#[derive(Debug)]
pub struct CurseForgeFiles {
    pub project_id: u64,
    pub file_id: u64,
    pub required: bool,
}

/// The game that a modpack is made for.
#[derive(Debug)]
pub struct CurseForgeMinecraft {
    pub version: String,
    pub mod_loaders: Vec<CurseForgeModLoader>,
}

/// What a modpack consists of.
#[derive(Debug)]
pub struct CurseForgeManifest {
    pub name: String,
    pub version: Option<String>,
    pub author: String,
    pub overrides: String,
    pub minecraft: CurseForgeMinecraft,
    pub files: Vec<CurseForgeFiles>,
}

/// What a file hashes to, and by which algorithm.
#[derive(Debug)]
pub struct CurseForgeHash {
    pub value: String,
    pub algo: u64,
}

/// What is known of a file.
#[derive(Debug)]
pub struct CurseForgeFileData {
    pub download_url: Option<String>,
    pub file_name: String,
    pub hashes: Option<Vec<CurseForgeHash>>,
}

/// The answer to a question about a file.
#[derive(Debug)]
pub struct CurseForgeFileManifest {
    pub data: CurseForgeFileData,
}

/// What is known of a project.
#[derive(Debug)]
pub struct CurseForgeProject {
    pub class_id: Option<i32>,
}

/// The answer to a question about a project.
#[derive(Debug)]
pub struct CurseForgeProjectRes {
    pub data: CurseForgeProject,
}

// ---------------------------------------------------------------------------------------------
// Asking for descriptions
// ---------------------------------------------------------------------------------------------
/// The sources of a description: the mirror, if there is one, then the address itself.
pub open spec fn metadata_sources(url: Seq<char>) -> Seq<Seq<char>> {
    match mcim_mirror(url) {
        Some(mirror) => distinct(seq![mirror, url]),
        None => seq![url],
    }
}

/// The sources of a description, given its mirror.
pub fn sources_with_mirror(mirror: Option<String>, url: &str) -> (r: Vec<String>)
    ensures
        texts(r@) == (match opt_text(mirror) {
            Some(m) => distinct(seq![m, url@]),
            None => seq![url@],
        }),
        r.len() > 0,
{
    let mut out: Vec<String> = Vec::new();
    if let Some(mirror) = mirror {
        proof {
            lemma_two_distinct(mirror@, url@);
        }
        if !same(mirror.as_str(), url) {
            out.push(mirror);
        }
    }
    let ghost front = texts(out@);
    out.push(url.to_owned());
    assert(texts(out@) =~= front.push(url@));
    assert(front.len() == 0 ==> front.push(url@) =~= seq![url@]);
    out
}

proof fn lemma_two_distinct(a: Seq<char>, b: Seq<char>)
    ensures
        distinct(seq![a, b]) == (if a == b {
            seq![b]
        } else {
            seq![a, b]
        }),
{
    let list = seq![a, b];
    assert(list.drop_last() =~= seq![a]);
    assert(seq![a].drop_last() =~= Seq::<Seq<char>>::empty());
    assert(distinct(Seq::<Seq<char>>::empty()) =~= Seq::<Seq<char>>::empty());
    assert(distinct(seq![a]) =~= seq![a]);
    if a == b {
        assert(distinct(list) =~= seq![b]);
    } else {
        assert(distinct(list) =~= seq![a, b]);
    }
}

/// The sources of a description.
pub fn metadata_candidates(url: &str) -> (r: Vec<String>)
    ensures
        texts(r@) == metadata_sources(url@),
        r.len() > 0,
{
    let mirror = mcim_mirror_url(url);
    sources_with_mirror(mirror, url)
}

/// What came of asking a source.
#[derive(Clone, Copy, Debug, PartialEq, Eq, Structural)]
pub enum MetadataEvent {
    /// The request failed.
    SendFailed,
    /// The source answered with a status other than success.
    Rejected,
    /// The answer could not be read.
    BodyFailed,
    /// The answer is no description.
    ParseFailed,
    /// The answer is a description.
    Parsed,
}

/// What to do next.
#[derive(Clone, Copy, Debug, PartialEq, Eq, Structural)]
pub enum MetadataAction {
    /// Wait, then ask the source.
    Ask { source: usize, delay_ms: u64 },
    /// Use the description.
    Use,
    /// No source has a readable description.
    FailParse,
    /// No source answered.
    FailNetwork,
}

/// Asking for a description: how many sources there are, which one is asked, which attempt that
/// is, counted from zero, and whether an unreadable answer came.
#[derive(Clone, Copy, Debug, PartialEq, Eq, Structural)]
pub struct MetadataFetch {
    pub sources: usize,
    pub source: usize,
    pub attempt: usize,
    pub saw_parse_error: bool,
    pub over: bool,
}

impl MetadataFetch {
    /// The source and the attempt are among those there are.
    pub open spec fn wf(self) -> bool {
        self.over || (self.source < self.sources && self.attempt < CURSEFORGE_METADATA_RETRIES)
    }

    /// The state at the next source, or at the end.
    pub open spec fn next_source(self, saw: bool) -> (MetadataFetch, MetadataAction) {
        if self.source + 1 < self.sources {
            (
                MetadataFetch {
                    source: (self.source + 1) as usize,
                    attempt: 0,
                    saw_parse_error: saw,
                    ..self
                },
                MetadataAction::Ask { source: (self.source + 1) as usize, delay_ms: 0 },
            )
        } else {
            (
                MetadataFetch { saw_parse_error: saw, over: true, ..self },
                if saw {
                    MetadataAction::FailParse
                } else {
                    MetadataAction::FailNetwork
                },
            )
        }
    }

    /// The state at the next attempt with the same source, or else at the next source.
    pub open spec fn next_attempt(self, saw: bool, delay: bool) -> (MetadataFetch, MetadataAction) {
        if self.attempt + 1 < CURSEFORGE_METADATA_RETRIES {
            (
                MetadataFetch {
                    attempt: (self.attempt + 1) as usize,
                    saw_parse_error: saw,
                    ..self
                },
                MetadataAction::Ask {
                    source: self.source,
                    delay_ms: if delay {
                        CURSEFORGE_METADATA_DELAY_MS
                    } else {
                        0
                    },
                },
            )
        } else {
            self.next_source(saw)
        }
    }

    /// How the asking goes on: a source that rejects the question is given up, one that fails is
    /// asked again.
    pub open spec fn next(self, event: MetadataEvent) -> (MetadataFetch, MetadataAction) {
        match event {
            MetadataEvent::Parsed => (MetadataFetch { over: true, ..self }, MetadataAction::Use),
            MetadataEvent::Rejected => self.next_source(self.saw_parse_error),
            MetadataEvent::SendFailed => self.next_attempt(self.saw_parse_error, true),
            MetadataEvent::BodyFailed => self.next_attempt(true, false),
            MetadataEvent::ParseFailed => self.next_attempt(true, true),
        }
    }

    /// How many questions can still be asked at most.
    pub open spec fn questions_left(self) -> int {
        if self.over {
            0
        } else {
            (self.sources - self.source) * 3 - self.attempt
        }
    }

    /// Begins with the first of the sources, of which there is at least one.
    pub fn begin(sources: usize) -> (r: MetadataFetch)
        requires
            sources > 0,
        ensures
            r.wf(),
            r == (MetadataFetch {
                sources,
                source: 0,
                attempt: 0,
                saw_parse_error: false,
                over: false,
            }),
    {
        MetadataFetch { sources, source: 0, attempt: 0, saw_parse_error: false, over: false }
    }

    fn go_to_source(&mut self) -> (r: MetadataAction)
        requires
            old(self).wf(),
            !old(self).over,
        ensures
            (*final(self), r) == old(self).next_source(old(self).saw_parse_error),
    {
        if self.source + 1 < self.sources {
            self.source = self.source + 1;
            self.attempt = 0;
            MetadataAction::Ask { source: self.source, delay_ms: 0 }
        } else {
            self.over = true;
            if self.saw_parse_error {
                MetadataAction::FailParse
            } else {
                MetadataAction::FailNetwork
            }
        }
    }

    fn go_to_attempt(&mut self, delay: bool) -> (r: MetadataAction)
        requires
            old(self).wf(),
            !old(self).over,
        ensures
            (*final(self), r) == old(self).next_attempt(old(self).saw_parse_error, delay),
    {
        if self.attempt + 1 < CURSEFORGE_METADATA_RETRIES {
            self.attempt = self.attempt + 1;
            MetadataAction::Ask {
                source: self.source,
                delay_ms: if delay {
                    CURSEFORGE_METADATA_DELAY_MS
                } else {
                    0
                },
            }
        } else {
            self.go_to_source()
        }
    }

    /// Takes what came of the last question, and says what to do.
    pub fn step(&mut self, event: MetadataEvent) -> (r: MetadataAction)
        requires
            old(self).wf(),
            !old(self).over,
        ensures
            final(self).wf(),
            (*final(self), r) == old(self).next(event),
    {
        match event {
            MetadataEvent::Parsed => {
                self.over = true;
                MetadataAction::Use
            },
            MetadataEvent::Rejected => self.go_to_source(),
            MetadataEvent::SendFailed => self.go_to_attempt(true),
            MetadataEvent::BodyFailed => {
                self.saw_parse_error = true;
                self.go_to_attempt(false)
            },
            MetadataEvent::ParseFailed => {
                self.saw_parse_error = true;
                self.go_to_attempt(true)
            },
        }
    }
}

/// Only so many questions are asked: three of each source at most.
pub proof fn metadata_questions_come_to_an_end(s: MetadataFetch, event: MetadataEvent)
    requires
        s.wf(),
        !s.over,
    ensures
        s.next(event).0.wf(),
        0 <= s.next(event).0.questions_left() < s.questions_left(),
        s.questions_left() <= 3 * s.sources,
{
}

/// A failed search says that the description was unreadable exactly when an unreadable answer
/// came, now or before.
pub proof fn metadata_failure_tells_unreadable_from_unreachable(
    s: MetadataFetch,
    event: MetadataEvent,
)
    requires
        s.wf(),
        !s.over,
    ensures
        s.next(event).0.saw_parse_error == (s.saw_parse_error || event == MetadataEvent::BodyFailed
            || event == MetadataEvent::ParseFailed),
        s.next(event).1 is FailParse ==> s.next(event).0.saw_parse_error,
        s.next(event).1 is FailNetwork ==> !s.next(event).0.saw_parse_error,
        s.next(event).1 is Use <==> event == MetadataEvent::Parsed,
{
}

/// The address of the description of a project.
pub fn project_url(project_id: u64) -> (r: String)
    ensures
        r@ == "https://api.curseforge.com/v1/mods/"@ + decimal(project_id as nat),
{
    let id = decimal_text(project_id);
    concat2("https://api.curseforge.com/v1/mods/", id.as_str())
}

/// The address of the description of a file.
pub fn file_description_url(project_id: u64, file_id: u64) -> (r: String)
    ensures
        r@ == "https://api.curseforge.com/v1/mods/"@ + decimal(project_id as nat) + "/files/"@
            + decimal(file_id as nat),
{
    let project = decimal_text(project_id);
    let file = decimal_text(file_id);
    concat4("https://api.curseforge.com/v1/mods/", project.as_str(), "/files/", file.as_str())
}

// ---------------------------------------------------------------------------------------------
// Projects
// ---------------------------------------------------------------------------------------------
/// The numbers of the projects of files.
pub open spec fn project_ids_of(files: Seq<CurseForgeFiles>) -> Seq<u64> {
    files.map_values(|f: CurseForgeFiles| f.project_id)
}

/// Numbers in order, none twice.
pub open spec fn ascending(ids: Seq<u64>) -> bool {
    forall|i: int, j: int| 0 <= i < j < ids.len() ==> ids[i] < ids[j]
}

/// Numbers in order stand each below all that follow, so none stands there twice.
pub proof fn ordered_numbers_stand_once(ids: Seq<u64>, i: int, j: int)
    requires
        ascending(ids),
        0 <= i < j < ids.len(),
    ensures
        ids[i] < ids[j],
        ids.no_duplicates(),
{
}

/// The projects that files belong to, in order and each once, so that each is asked about once.
pub fn project_ids(files: &Vec<CurseForgeFiles>) -> (r: Vec<u64>)
    ensures
        ascending(r@),
        forall|id: u64| #[trigger] r@.contains(id) <==> project_ids_of(files@).contains(id),
{
    let ghost all = project_ids_of(files@);
    let mut out: Vec<u64> = Vec::new();
    let mut i: usize = 0;
    while i < files.len()
        invariant
            i <= files.len(),
            all == project_ids_of(files@),
            ascending(out@),
            forall|id: u64| #[trigger] out@.contains(id) <==> all.take(i as int).contains(id),
        decreases files.len() - i,
    {
        let id = files[i].project_id;
        let ghost before = out@;
        assert(all[i as int] == id);
        let mut k: usize = 0;
        while k < out.len() && out[k] < id
            invariant
                k <= out.len(),
                forall|m: int| 0 <= m < k ==> #[trigger] out@[m] < id,
            decreases out.len() - k,
        {
            k += 1;
        }
        let known = k < out.len() && out[k] == id;
        if !known {
            out.insert(k, id);
        }
        proof {
            let now = out@;
            if !known {
                assert(now =~= before.insert(k as int, id));
                assert forall|a: int, b: int| 0 <= a < b < now.len() implies now[a] < now[b] by {
                    let x = if a < k {
                        a
                    } else {
                        a - 1
                    };
                    let y = if b < k {
                        b
                    } else {
                        b - 1
                    };
                    if a != k && b != k {
                        assert(before[x] < before[y]);
                    } else if a == k {
                        if y > k {
                            assert(before[k as int] < before[y]);
                        }
                    }
                }
            }
            assert forall|x: u64| #[trigger] now.contains(x) <==> all.take(i + 1).contains(x) by {
                if all.take(i + 1).contains(x) {
                    let upto = all.take(i + 1);
                    let m = choose|m: int| 0 <= m < upto.len() && upto[m] == x;
                    if m < i {
                        assert(all.take(i as int)[m] == x);
                        assert(before.contains(x));
                        let p = choose|p: int| 0 <= p < before.len() && before[p] == x;
                        if known || p < k {
                            assert(now[p] == x);
                        } else {
                            assert(now[p + 1] == x);
                        }
                    } else {
                        assert(now[k as int] == x);
                    }
                }
                if now.contains(x) {
                    let p = choose|p: int| 0 <= p < now.len() && now[p] == x;
                    if !known && p == k {
                        assert(all.take(i + 1)[i as int] == x);
                    } else {
                        if known || p < k {
                            assert(before[p] == x);
                        } else {
                            assert(before[p - 1] == x);
                        }
                        assert(before.contains(x));
                        let upto = all.take(i as int);
                        let m = choose|m: int| 0 <= m < upto.len() && upto[m] == x;
                        assert(all.take(i + 1)[m] == x);
                    }
                }
            }
        }
        i += 1;
    }
    assert(all.take(files.len() as int) =~= all);
    out
}

/// The class of a project, as far as it is known.
pub open spec fn class_of(classes: Map<u64, Option<i32>>, project_id: u64) -> Option<i32> {
    if classes.dom().contains(project_id) {
        classes[project_id]
    } else {
        None
    }
}

fn find_class(classes: &HashMap<u64, Option<i32>>, project_id: u64) -> (r: Option<i32>)
    ensures
        r == class_of(classes@, project_id),
{
    broadcast use vstd::std_specs::hash::group_hash_axioms;

    match classes.get(&project_id) {
        Some(class_id) => *class_id,
        None => None,
    }
}

/// The directory for the files of a class of projects.
pub open spec fn class_directory_of(class_id: Option<i32>) -> Seq<char> {
    if class_id == Some(12i32) || class_id == Some(6945i32) {
        "resourcepacks"@
    } else if class_id == Some(6552i32) {
        "shaderpacks"@
    } else {
        "mods"@
    }
}

/// The directory for the files of a class of projects.
pub fn class_directory(class_id: Option<i32>) -> (r: &'static str)
    ensures
        r@ == class_directory_of(class_id),
{
    match class_id {
        Some(12) => "resourcepacks",
        Some(6945) => "resourcepacks",
        Some(6552) => "shaderpacks",
        _ => "mods",
    }
}

// ---------------------------------------------------------------------------------------------
// Files
// ---------------------------------------------------------------------------------------------
/// The first hash by the algorithm that stands for SHA-1.
pub open spec fn sha1_among(hashes: Seq<CurseForgeHash>) -> Option<Seq<char>>
    decreases hashes.len(),
{
    if hashes.len() == 0 {
        None
    } else {
        match sha1_among(hashes.drop_last()) {
            Some(value) => Some(value),
            None => if hashes.last().algo == 1 {
                Some(hashes.last().value@)
            } else {
                None
            },
        }
    }
}

/// The SHA-1 of a file, if it is told.
pub open spec fn sha1_of(data: CurseForgeFileData) -> Option<Seq<char>> {
    match data.hashes {
        Some(hashes) => sha1_among(hashes@),
        None => None,
    }
}

proof fn lemma_sha1_prefix(hashes: Seq<CurseForgeHash>, n: int)
    requires
        0 <= n <= hashes.len(),
        sha1_among(hashes.take(n)) is Some,
    ensures
        sha1_among(hashes) == sha1_among(hashes.take(n)),
    decreases hashes.len() - n,
{
    if n < hashes.len() {
        assert(hashes.take(n + 1).drop_last() =~= hashes.take(n));
        lemma_sha1_prefix(hashes, n + 1);
    } else {
        assert(hashes.take(n) =~= hashes);
    }
}

fn find_sha1(data: &CurseForgeFileData) -> (r: Option<String>)
    ensures
        opt_text(r) == sha1_of(*data),
{
    let hashes = match &data.hashes {
        Some(hashes) => hashes,
        None => {
            return None;
        },
    };
    let mut i: usize = 0;
    while i < hashes.len()
        invariant
            i <= hashes.len(),
            data.hashes == Some(*hashes),
            sha1_among(hashes@.take(i as int)) is None,
        decreases hashes.len() - i,
    {
        assert(hashes@.take(i + 1).drop_last() =~= hashes@.take(i as int));
        if hashes[i].algo == 1 {
            proof {
                lemma_sha1_prefix(hashes@, i + 1);
            }
            return Some(hashes[i].value.clone());
        }
        i += 1;
    }
    assert(hashes@.take(hashes.len() as int) =~= hashes@);
    None
}

/// The address of a file: the one that is told, or else its place on the file network, which is
/// made of its number and its name.
pub open spec fn download_url_of(file_id: u64, data: CurseForgeFileData) -> Seq<char> {
    match opt_text(data.download_url) {
        Some(url) => url,
        None => "https://edge.forgecdn.net/files/"@ + decimal((file_id / 1000) as nat) + "/"@
            + decimal((file_id % 1000) as nat) + "/"@ + percent_encoded(encode_utf8(data.file_name@)),
    }
}

/// A file is at the address that is told for it. Without one it is on the file network, below the
/// thousands of its number and the rest of it, under its encoded name.
pub proof fn files_have_their_place_on_the_network(
    thousands: u64,
    rest: u64,
    file_id: u64,
    data: CurseForgeFileData,
)
    requires
        file_id == thousands * 1000 + rest,
        rest < 1000,
    ensures
        opt_text(data.download_url) matches Some(url) ==> download_url_of(file_id, data) == url,
        data.download_url is None ==> download_url_of(file_id, data)
            == "https://edge.forgecdn.net/files/"@ + decimal(thousands as nat) + "/"@ + decimal(
            rest as nat,
        ) + "/"@ + percent_encoded(encode_utf8(data.file_name@)),
{
    assert(file_id / 1000 == thousands && file_id % 1000 == rest);
}

/// The address of a file.
pub fn download_url(file_id: u64, data: &CurseForgeFileData) -> (r: String)
    ensures
        r@ == download_url_of(file_id, *data),
{
    match &data.download_url {
        Some(url) => url.clone(),
        None => {
            let high = decimal_text(file_id / 1000);
            let low = decimal_text(file_id % 1000);
            let name = percent_encode(data.file_name.as_str());
            let mut url = concat4(
                "https://edge.forgecdn.net/files/",
                high.as_str(),
                "/",
                low.as_str(),
            );
            url.append("/");
            url.append(name.as_str());
            url
        },
    }
}

/// What is downloaded for a file: from its address, with its hash, to the directory of its class.
pub open spec fn file_param_of(
    root: PathModel,
    file_id: u64,
    class_id: Option<i32>,
    data: CurseForgeFileData,
) -> Result<ParamModel, InstanceError> {
    match url_parsed(download_url_of(file_id, data)) {
        Ok(src) => Ok(
            ParamModel {
                src,
                dest: root.child(class_directory_of(class_id)).child(data.file_name@),
                filename: Some(data.file_name@),
                sha1: sha1_of(data),
            },
        ),
        Err(_) => Err(InstanceError::InvalidSourcePath),
    }
}

/// What is downloaded for a file.
pub fn file_param(
    root: &TargetPath,
    file_id: u64,
    class_id: Option<i32>,
    data: &CurseForgeFileData,
) -> (r: Result<DownloadParam, InstanceError>)
    ensures
        match r {
            Ok(param) => file_param_of(root@, file_id, class_id, *data) == Ok::<
                ParamModel,
                InstanceError,
            >(param@),
            Err(error) => file_param_of(root@, file_id, class_id, *data) == Err::<
                ParamModel,
                InstanceError,
            >(error),
        },
{
    let url = download_url(file_id, data);
    let src = match parse_url(url.as_str()) {
        Ok(src) => src,
        Err(_) => {
            return Err(InstanceError::InvalidSourcePath);
        },
    };
    let directory = root.child(class_directory(class_id));
    Ok(
        DownloadParam {
            src,
            dest: directory.child(data.file_name.as_str()),
            filename: Some(data.file_name.clone()),
            sha1: find_sha1(data),
        },
    )
}

/// What is known of the file at a position: its description, or why there is none.
pub type FileAnswer = Result<CurseForgeFileManifest, InstanceError>;

/// What is downloaded for the files of a modpack, in their order. The first file with which
/// something is wrong spoils all.
pub open spec fn download_params_of(
    root: PathModel,
    files: Seq<CurseForgeFiles>,
    classes: Map<u64, Option<i32>>,
    answers: Seq<FileAnswer>,
) -> Result<Seq<ParamModel>, InstanceError>
    decreases files.len(),
{
    if files.len() == 0 {
        Ok(seq![])
    } else {
        match download_params_of(root, files.drop_last(), classes, answers) {
            Err(error) => Err(error),
            Ok(front) => match answers[files.len() - 1] {
                Err(error) => Err(error),
                Ok(answer) => match file_param_of(
                    root,
                    files.last().file_id,
                    class_of(classes, files.last().project_id),
                    answer.data,
                ) {
                    Err(error) => Err(error),
                    Ok(param) => Ok(front.push(param)),
                },
            },
        }
    }
}

proof fn lemma_params_prefix(
    root: PathModel,
    files: Seq<CurseForgeFiles>,
    classes: Map<u64, Option<i32>>,
    answers: Seq<FileAnswer>,
    n: int,
)
    requires
        0 <= n <= files.len(),
        download_params_of(root, files.take(n), classes, answers) is Err,
    ensures
        download_params_of(root, files, classes, answers) == download_params_of(
            root,
            files.take(n),
            classes,
            answers,
        ),
    decreases files.len() - n,
{
    if n < files.len() {
        assert(files.take(n + 1).drop_last() =~= files.take(n));
        lemma_params_prefix(root, files, classes, answers, n + 1);
    } else {
        assert(files.take(n) =~= files);
    }
}

/// The first loader that is marked as the one to use, as its kind and its version.
pub open spec fn primary_among(loaders: Seq<CurseForgeModLoader>) -> Option<Seq<char>>
    decreases loaders.len(),
{
    if loaders.len() == 0 {
        None
    } else {
        match primary_among(loaders.drop_last()) {
            Some(id) => Some(id),
            None => if loaders.last().primary {
                Some(loaders.last().id@)
            } else {
                None
            },
        }
    }
}

/// The name of the kind of the loader to use and its version.
pub open spec fn primary_loader_of(loaders: Seq<CurseForgeModLoader>) -> Option<
    (Seq<char>, Seq<char>),
> {
    match primary_among(loaders) {
        Some(id) => parted(id, "-"@),
        None => None,
    }
}

proof fn lemma_primary_prefix(loaders: Seq<CurseForgeModLoader>, n: int)
    requires
        0 <= n <= loaders.len(),
        primary_among(loaders.take(n)) is Some,
    ensures
        primary_among(loaders) == primary_among(loaders.take(n)),
    decreases loaders.len() - n,
{
    if n < loaders.len() {
        assert(loaders.take(n + 1).drop_last() =~= loaders.take(n));
        lemma_primary_prefix(loaders, n + 1);
    } else {
        assert(loaders.take(n) =~= loaders);
    }
}

/// The loader that a modpack asks for, before its branch is known.
pub open spec fn requested_loader(loader_type: ModLoaderType, version: Seq<char>) -> ModLoaderModel {
    ModLoaderModel {
        loader_type,
        status: ModLoaderStatus::NotDownloaded,
        version,
        branch: None,
    }
}

impl CurseForgeManifest {
    /// The version of the game.
    pub fn get_client_version(&self) -> (r: String)
        ensures
            r@ == self.minecraft.version@,
    {
        self.minecraft.version.clone()
    }

    /// The directory of the archive that is copied over the instance.
    pub fn get_overrides_path(&self) -> (r: String)
        ensures
            r@ == self.overrides@,
    {
        self.overrides.clone()
    }

    /// The directories of the archive that are copied over the instance: the one.
    pub fn get_override_paths(&self) -> (r: Vec<String>)
        ensures
            texts(r@) == seq![self.overrides@],
    {
        let mut out: Vec<String> = Vec::new();
        out.push(self.overrides.clone());
        assert(texts(out@) =~= seq![self.overrides@]);
        out
    }

    /// The name of the kind of the loader to use, and its version.
    pub fn primary_loader(&self) -> (r: Option<(String, String)>)
        ensures
            opt_pair(r) == primary_loader_of(self.minecraft.mod_loaders@),
    {
        let loaders = &self.minecraft.mod_loaders;
        let mut i: usize = 0;
        while i < loaders.len()
            invariant
                i <= loaders.len(),
                primary_among(loaders@.take(i as int)) is None,
                loaders@ == self.minecraft.mod_loaders@,
            decreases loaders.len() - i,
        {
            assert(loaders@.take(i + 1).drop_last() =~= loaders@.take(i as int));
            if loaders[i].primary {
                proof {
                    lemma_primary_prefix(loaders@, i + 1);
                }
                return split_once(loaders[i].id.as_str(), "-");
            }
            i += 1;
        }
        assert(loaders@.take(loaders.len() as int) =~= loaders@);
        None
    }

    /// The kind of the loader to use and its version, given the kind that its name stands for, if
    /// it stands for one.
    pub fn get_mod_loader_type_version(&self, named: Option<ModLoaderType>) -> (r: Result<
        (ModLoaderType, String),
        InstanceError,
    >)
        ensures
            match (primary_loader_of(self.minecraft.mod_loaders@), named) {
                (Some((_, version)), Some(loader_type)) => r matches Ok((t, v)) && t == loader_type
                    && v@ == version,
                _ => r == Err::<(ModLoaderType, String), InstanceError>(
                    InstanceError::ModLoaderVersionParseError,
                ),
            },
    {
        match (self.primary_loader(), named) {
            (Some((_, version)), Some(loader_type)) => Ok((loader_type, version)),
            _ => Err(InstanceError::ModLoaderVersionParseError),
        }
    }

    /// The loader that the modpack asks for, before its branch is known; none if it asks for none
    /// that is known.
    pub fn requested_mod_loader(&self, named: Option<ModLoaderType>) -> (r: Option<ModLoader>)
        ensures
            match (primary_loader_of(self.minecraft.mod_loaders@), named) {
                (Some((_, version)), Some(loader_type)) => r matches Some(loader) && loader@
                    == requested_loader(loader_type, version),
                _ => r is None,
            },
    {
        match self.get_mod_loader_type_version(named) {
            Ok((loader_type, version)) => Some(
                ModLoader {
                    loader_type,
                    status: ModLoaderStatus::NotDownloaded,
                    version,
                    branch: None,
                },
            ),
            Err(_) => None,
        }
    }

    /// What the modpack tells of itself, given its loader with the branch.
    pub fn get_meta_info(&self, mod_loader: Option<ModLoader>) -> (r: ModpackMetaInfo)
        ensures
            r.name@ == self.name@,
            opt_text(r.version) == opt_text(self.version),
            r.description is None,
            opt_text(r.author) == Some(self.author@),
            r.modpack_source == OtherResourceSource::CurseForge,
            r.client_version@ == self.minecraft.version@,
            r.mod_loader == mod_loader,
    {
        ModpackMetaInfo {
            name: self.name.clone(),
            version: copy_text(&self.version),
            description: None,
            author: Some(self.author.clone()),
            modpack_source: OtherResourceSource::CurseForge,
            client_version: self.get_client_version(),
            mod_loader,
        }
    }

    /// What is downloaded for the files of the modpack, given the classes of their projects and
    /// the descriptions of the files.
    pub fn get_download_params(
        &self,
        instance_path: &TargetPath,
        classes: &HashMap<u64, Option<i32>>,
        answers: &Vec<FileAnswer>,
    ) -> (r: Result<Vec<DownloadParam>, InstanceError>)
        requires
            answers.len() == self.files.len(),
        ensures
            match r {
                Ok(params) => download_params_of(
                    instance_path@,
                    self.files@,
                    classes@,
                    answers@,
                ) == Ok::<Seq<ParamModel>, InstanceError>(param_views(params@)),
                Err(error) => download_params_of(
                    instance_path@,
                    self.files@,
                    classes@,
                    answers@,
                ) == Err::<Seq<ParamModel>, InstanceError>(error),
            },
    {
        let mut params: Vec<DownloadParam> = Vec::new();
        let mut i: usize = 0;
        assert(param_views(params@) =~= seq![]);
        while i < self.files.len()
            invariant
                i <= self.files.len(),
                answers.len() == self.files.len(),
                download_params_of(
                    instance_path@,
                    self.files@.take(i as int),
                    classes@,
                    answers@,
                ) == Ok::<Seq<ParamModel>, InstanceError>(param_views(params@)),
            decreases self.files.len() - i,
        {
            let file = &self.files[i];
            let ghost so_far = param_views(params@);
            assert(self.files@.take(i + 1).drop_last() =~= self.files@.take(i as int));
            let answer = match &answers[i] {
                Ok(answer) => answer,
                Err(error) => {
                    proof {
                        lemma_params_prefix(
                            instance_path@,
                            self.files@,
                            classes@,
                            answers@,
                            i + 1,
                        );
                    }
                    return Err(*error);
                },
            };
            let class_id = find_class(classes, file.project_id);
            let param = match file_param(instance_path, file.file_id, class_id, &answer.data) {
                Ok(param) => param,
                Err(error) => {
                    proof {
                        lemma_params_prefix(
                            instance_path@,
                            self.files@,
                            classes@,
                            answers@,
                            i + 1,
                        );
                    }
                    return Err(error);
                },
            };
            params.push(param);
            assert(param_views(params@) =~= so_far.push(param@));
            i += 1;
        }
        assert(self.files@.take(self.files.len() as int) =~= self.files@);
        Ok(params)
    }
}

/// The SHA-1 of a file is the value of the first of its hashes that is one; it is not told exactly
/// where the file tells no hashes, or none of them is a SHA-1.
pub proof fn the_first_sha1_is_taken(data: CurseForgeFileData)
    ensures
        sha1_of(data) matches Some(value) ==> (data.hashes matches Some(hashes) && exists|i: int|
            0 <= i < hashes@.len() && (#[trigger] hashes@[i]).algo == 1 && hashes@[i].value@ == value
                && forall|j: int| 0 <= j < i ==> (#[trigger] hashes@[j]).algo != 1),
        sha1_of(data) is None <==> (data.hashes matches Some(hashes) ==> forall|j: int|
            0 <= j < hashes@.len() ==> (#[trigger] hashes@[j]).algo != 1),
{
    if let Some(hashes) = data.hashes {
        lemma_first_sha1(hashes@);
    }
}

proof fn lemma_first_sha1(hashes: Seq<CurseForgeHash>)
    ensures
        sha1_among(hashes) matches Some(value) ==> exists|i: int|
            0 <= i < hashes.len() && (#[trigger] hashes[i]).algo == 1 && hashes[i].value@ == value
                && forall|j: int| 0 <= j < i ==> (#[trigger] hashes[j]).algo != 1,
        sha1_among(hashes) is None <==> forall|j: int|
            0 <= j < hashes.len() ==> (#[trigger] hashes[j]).algo != 1,
    decreases hashes.len(),
{
    if hashes.len() > 0 {
        let front = hashes.drop_last();
        lemma_first_sha1(front);
        assert forall|j: int| 0 <= j < front.len() implies hashes[j] == front[j] by {}
        if let Some(value) = sha1_among(front) {
            let i = choose|i: int|
                0 <= i < front.len() && (#[trigger] front[i]).algo == 1 && front[i].value@ == value
                    && forall|j: int| 0 <= j < i ==> (#[trigger] front[j]).algo != 1;
            assert(hashes[i].algo == 1);
            assert forall|j: int| 0 <= j < i implies (#[trigger] hashes[j]).algo != 1 by {
                assert(front[j].algo != 1);
            }
        } else {
            assert forall|j: int| 0 <= j < front.len() implies (#[trigger] hashes[j]).algo != 1 by {
                assert(front[j].algo != 1);
            }
            assert(hashes[hashes.len() - 1] == hashes.last());
        }
    }
}

/// The loader to use is the first that is marked so: its kind is what stands before the first hyphen
/// of its name, its version what follows. A modpack without a marked loader asks for none.
pub proof fn the_first_marked_loader_is_used(loaders: Seq<CurseForgeModLoader>)
    ensures
        primary_loader_of(loaders) matches Some((kind, version)) ==> exists|i: int|
            0 <= i < loaders.len() && (#[trigger] loaders[i]).primary && loaders[i].id@ == kind + "-"@
                + version && !holds(kind, '-') && forall|j: int|
                0 <= j < i ==> !(#[trigger] loaders[j]).primary,
        (forall|j: int| 0 <= j < loaders.len() ==> !(#[trigger] loaders[j]).primary)
            ==> primary_loader_of(loaders) is None,
        forall|i: int|
            0 <= i < loaders.len() && (#[trigger] loaders[i]).primary && holds(loaders[i].id@, '-') && (
            forall|j: int| 0 <= j < i ==> !(#[trigger] loaders[j]).primary) ==> primary_loader_of(
                loaders,
            ) is Some,
{
    reveal_strlit("-");
    lemma_first_primary(loaders);
    if let Some(id) = primary_among(loaders) {
        parts_make_up_the_text(id, "-"@);
        let i = choose|i: int|
            0 <= i < loaders.len() && (#[trigger] loaders[i]).primary && loaders[i].id@ == id
                && forall|j: int| 0 <= j < i ==> !(#[trigger] loaders[j]).primary;
        assert(loaders[i].primary);
        assert forall|k: int|
            0 <= k < loaders.len() && (#[trigger] loaders[k]).primary && holds(loaders[k].id@, '-') && (
            forall|j: int| 0 <= j < k ==> !(#[trigger] loaders[j]).primary) implies primary_loader_of(
            loaders,
        ) is Some by {
            if k < i {
                assert(!loaders[k].primary);
            } else if i < k {
                assert(!loaders[i].primary);
            }
        }
    }
}

proof fn lemma_first_primary(loaders: Seq<CurseForgeModLoader>)
    ensures
        primary_among(loaders) matches Some(id) ==> exists|i: int|
            0 <= i < loaders.len() && (#[trigger] loaders[i]).primary && loaders[i].id@ == id && forall|
                j: int,
            |
                0 <= j < i ==> !(#[trigger] loaders[j]).primary,
        primary_among(loaders) is None <==> forall|j: int|
            0 <= j < loaders.len() ==> !(#[trigger] loaders[j]).primary,
    decreases loaders.len(),
{
    if loaders.len() > 0 {
        let front = loaders.drop_last();
        lemma_first_primary(front);
        assert forall|j: int| 0 <= j < front.len() implies loaders[j] == front[j] by {}
        if let Some(id) = primary_among(front) {
            let i = choose|i: int|
                0 <= i < front.len() && (#[trigger] front[i]).primary && front[i].id@ == id && forall|
                    j: int,
                |
                    0 <= j < i ==> !(#[trigger] front[j]).primary;
            assert(loaders[i].primary);
            assert forall|j: int| 0 <= j < i implies !(#[trigger] loaders[j]).primary by {
                assert(!front[j].primary);
            }
        } else {
            assert forall|j: int| 0 <= j < front.len() implies !(#[trigger] loaders[j]).primary by {
                assert(!front[j].primary);
            }
            assert(loaders[loaders.len() - 1] == loaders.last());
        }
    }
}

/// A file is downloaded from the address that is told, or else from the place on the file network that
/// its number, in thousands and the rest, and its name lead to. It is written under its own name into
/// the directory of its class: resource packs, shader packs, and mods for all else. It must have the
/// SHA-1 that is told.
pub proof fn files_go_to_the_directory_of_their_class(
    root: PathModel,
    file_id: u64,
    class_id: Option<i32>,
    data: CurseForgeFileData,
    high: nat,
    low: nat,
)
    requires
        low < 1000,
        file_id == 1000 * high + low,
    ensures
        ({
            let address = match opt_text(data.download_url) {
                Some(url) => url,
                None => "https://edge.forgecdn.net/files/"@ + decimal(high) + "/"@ + decimal(low) + "/"@
                    + percent_encoded(encode_utf8(data.file_name@)),
            };
            let directory = if class_id == Some(12i32) || class_id == Some(6945i32) {
                "resourcepacks"@
            } else if class_id == Some(6552i32) {
                "shaderpacks"@
            } else {
                "mods"@
            };
            match file_param_of(root, file_id, class_id, data) {
                Ok(param) => {
                    &&& url_parsed(address) == Ok::<UrlModel, Seq<char>>(param.src)
                    &&& param.dest.base == root.base
                    &&& param.dest.segments == root.segments + seq![directory, data.file_name@]
                    &&& param.filename == Some(data.file_name@)
                    &&& param.sha1 == sha1_of(data)
                },
                Err(error) => url_parsed(address) is Err && error == InstanceError::InvalidSourcePath,
            }
        }),
{
    assert(file_id as int / 1000 == high && file_id as int % 1000 == low);
    if let Ok(param) = file_param_of(root, file_id, class_id, data) {
        assert(param.dest.segments =~= root.segments + seq![
            class_directory_of(class_id),
            data.file_name@,
        ]);
    }
}

/// The class of a project is the one that was found out; a project that was not asked about has none.
pub proof fn classes_are_looked_up(classes: Map<u64, Option<i32>>, project: u64, class_id: Option<i32>, other: u64)
    requires
        other != project,
    ensures
        class_of(classes.insert(project, class_id), project) == class_id,
        class_of(classes.insert(project, class_id), other) == class_of(classes, other),
        class_of(Map::<u64, Option<i32>>::empty(), project) is None,
{
}

/// A modpack cannot be downloaded exactly where a file has no description or no address; the error is
/// that of the first such file.
pub proof fn the_first_bad_file_spoils_all(
    root: PathModel,
    files: Seq<CurseForgeFiles>,
    classes: Map<u64, Option<i32>>,
    answers: Seq<FileAnswer>,
)
    requires
        answers.len() >= files.len(),
    ensures
        match download_params_of(root, files, classes, answers) {
            Ok(_) => forall|i: int|
                #![trigger files[i]]
                0 <= i < files.len() ==> file_error(root, files[i], classes, answers[i]) is None,
            Err(error) => exists|i: int|
                #![trigger files[i]]
                0 <= i < files.len() && file_error(root, files[i], classes, answers[i]) == Some(error)
                    && forall|j: int|
                    #![trigger files[j]]
                    0 <= j < i ==> file_error(root, files[j], classes, answers[j]) is None,
        },
    decreases files.len(),
{
    if files.len() > 0 {
        let front = files.drop_last();
        the_first_bad_file_spoils_all(root, front, classes, answers);
        assert forall|j: int| 0 <= j < front.len() implies files[j] == front[j] by {}
        match download_params_of(root, front, classes, answers) {
            Ok(_) => {
                assert forall|j: int| #![trigger files[j]] 0 <= j < front.len() implies file_error(
                    root,
                    files[j],
                    classes,
                    answers[j],
                ) is None by {
                    assert(front[j] == files[j]);
                }
                assert(files[files.len() - 1] == files.last());
            },
            Err(error) => {
                let i = choose|i: int|
                    #![trigger front[i]]
                    0 <= i < front.len() && file_error(root, front[i], classes, answers[i]) == Some(
                        error,
                    ) && forall|j: int|
                        #![trigger front[j]]
                        0 <= j < i ==> file_error(root, front[j], classes, answers[j]) is None;
                assert(files[i] == front[i]);
                assert forall|j: int| #![trigger files[j]] 0 <= j < i implies file_error(
                    root,
                    files[j],
                    classes,
                    answers[j],
                ) is None by {
                    assert(front[j] == files[j]);
                }
            },
        }
    }
}

/// What is wrong with a file, if anything is: it has no description, or no address that can be read.
pub open spec fn file_error(
    root: PathModel,
    file: CurseForgeFiles,
    classes: Map<u64, Option<i32>>,
    answer: FileAnswer,
) -> Option<InstanceError> {
    match answer {
        Err(error) => Some(error),
        Ok(answer) => match url_parsed(download_url_of(file.file_id, answer.data)) {
            Err(_) => Some(InstanceError::InvalidSourcePath),
            Ok(_) => None,
        },
    }
}

/// A description is asked of every source in turn: up to three times of one that does not answer or
/// whose answer is unreadable, once of one that refuses. Between two questions to one source there is
/// a wait of 400 milliseconds, except after an answer that broke off.
pub proof fn descriptions_are_asked_for_in_turn(s: MetadataFetch, event: MetadataEvent)
    requires
        s.wf(),
        !s.over,
    ensures
        ({
            let (after, action) = s.next(event);
            let repeated = event != MetadataEvent::Parsed && event != MetadataEvent::Rejected && s.attempt
                < 2;
            &&& event == MetadataEvent::Parsed <==> action is Use
            &&& repeated ==> action == (MetadataAction::Ask {
                source: s.source,
                delay_ms: if event == MetadataEvent::BodyFailed {
                    0
                } else {
                    400
                },
            }) && after.attempt == s.attempt + 1 && after.source == s.source
            &&& !repeated && event != MetadataEvent::Parsed && s.source + 1 < s.sources ==> action == (
            MetadataAction::Ask { source: (s.source + 1) as usize, delay_ms: 0 }) && after.attempt == 0
                && after.source == s.source + 1
            &&& !repeated && event != MetadataEvent::Parsed && s.source + 1 >= s.sources ==> after.over
                && (action is FailParse || action is FailNetwork)
            &&& after.sources == s.sources
        }),
{
}

/// The mirror of a description is asked first, then the address itself; an address without a mirror is
/// asked alone.
pub proof fn mirrors_of_descriptions_are_asked_first(url: Seq<char>)
    ensures
        match mcim_mirror(url) {
            Some(mirror) => metadata_sources(url) == (if mirror == url {
                seq![url]
            } else {
                seq![mirror, url]
            }),
            None => metadata_sources(url) == seq![url],
        },
{
    if let Some(mirror) = mcim_mirror(url) {
        lemma_two_distinct(mirror, url);
    }
}

/// A loader that a modpack asks for is of the kind and version that it names, is not there yet, and
/// has no branch yet.
pub proof fn requested_loaders_are_not_there_yet(loader_type: ModLoaderType, version: Seq<char>)
    ensures
        requested_loader(loader_type, version).loader_type == loader_type,
        requested_loader(loader_type, version).version == version,
        requested_loader(loader_type, version).status == ModLoaderStatus::NotDownloaded,
        requested_loader(loader_type, version).branch is None,
{
}

/// A download is the one that comes of a file and its description.
pub open spec fn comes_of(
    param: ParamModel,
    root: PathModel,
    file: CurseForgeFiles,
    classes: Map<u64, Option<i32>>,
    answer: FileAnswer,
) -> bool {
    answer is Ok && file_param_of(
        root,
        file.file_id,
        class_of(classes, file.project_id),
        answer->Ok_0.data,
    ) == Ok::<ParamModel, InstanceError>(param)
}

/// One download comes of every file, in the order of the files.
pub proof fn every_file_is_downloaded(
    root: PathModel,
    files: Seq<CurseForgeFiles>,
    classes: Map<u64, Option<i32>>,
    answers: Seq<FileAnswer>,
)
    requires
        answers.len() == files.len(),
        download_params_of(root, files, classes, answers) is Ok,
    ensures
        download_params_of(root, files, classes, answers)->Ok_0.len() == files.len(),
        forall|i: int|
            0 <= i < files.len() ==> comes_of(
                #[trigger] download_params_of(root, files, classes, answers)->Ok_0[i],
                root,
                files[i],
                classes,
                answers[i],
            ),
{
    lemma_every_file(root, files, classes, answers);
}

proof fn lemma_every_file(
    root: PathModel,
    files: Seq<CurseForgeFiles>,
    classes: Map<u64, Option<i32>>,
    answers: Seq<FileAnswer>,
)
    requires
        download_params_of(root, files, classes, answers) is Ok,
    ensures
        download_params_of(root, files, classes, answers)->Ok_0.len() == files.len(),
        forall|i: int|
            0 <= i < files.len() ==> comes_of(
                #[trigger] download_params_of(root, files, classes, answers)->Ok_0[i],
                root,
                files[i],
                classes,
                answers[i],
            ),
    decreases files.len(),
{
    if files.len() > 0 {
        let front = files.drop_last();
        lemma_every_file(root, front, classes, answers);
        let params = download_params_of(root, files, classes, answers)->Ok_0;
        let front_params = download_params_of(root, front, classes, answers)->Ok_0;
        assert forall|i: int| 0 <= i < files.len() implies comes_of(
            #[trigger] params[i],
            root,
            files[i],
            classes,
            answers[i],
        ) by {
            if i < front.len() {
                assert(front[i] == files[i]);
                assert(params[i] == front_params[i]);
            }
        }
    }
}

} // verus!
