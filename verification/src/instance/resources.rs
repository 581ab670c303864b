//! The files of an instance: copying them in, listing them, switching mods on and off.
use vstd::prelude::*;
use vstd::utf8::encode_utf8;
use crate::external::{form_encoded, form_pair, match_texts, regex_found, regex_matches};
use crate::instance::models::{copy_text, InstanceError, Instance, ModLoaderType};
use crate::paths::{
    file_names_part_at_the_last_dot, split_file_name, stem_and_extension, TargetPath,
};
use crate::ranking::{
    arrange, arranged, arranging_keeps_items, in_order, lists_each, may_precede, orders, positions,
    rank, ranked, ranking_is_stable_and_in_order, ranking_keeps_every_position,
};
use crate::text::{
    before, concat2, contains, holds, lemma_before_total, lemma_before_transitive, lemma_contains,
    occurs_at, opt_text, patterns_are_replaced_where_they_stand, precedes, replace, replaced, same,
    texts,
};

verus! {

// ---------------------------------------------------------------------------------------------
// Copying
// ---------------------------------------------------------------------------------------------
/// What stands at a path.
#[derive(Clone, Copy, Debug, PartialEq, Eq, Structural)]
pub enum SourceKind {
    File,
    Directory,
    Missing,
}

/// Something to copy: what it is, and its last name, if it has one.
#[derive(Debug)]
pub struct SourceEntry {
    pub kind: SourceKind,
    pub file_name: Option<String>,
}

/// One thing to copy to one instance, by their positions.
#[derive(Clone, Copy, Debug, PartialEq, Eq, Structural)]
pub struct CopyJob {
    pub source: usize,
    pub target: usize,
}

/// Every source with every target, one source after the other.
pub open spec fn pairs(sources: nat, targets: nat) -> Seq<(int, int)>
    decreases sources,
{
    if sources == 0 {
        seq![]
    } else {
        pairs((sources - 1) as nat, targets) + Seq::new(targets, |j: int| (sources - 1, j))
    }
}

/// Jobs as pairs of positions.
pub open spec fn job_views(jobs: Seq<CopyJob>) -> Seq<(int, int)> {
    jobs.map_values(|j: CopyJob| (j.source as int, j.target as int))
}

/// Some source is not there.
pub open spec fn any_missing(sources: Seq<SourceEntry>) -> bool {
    exists|i: int| 0 <= i < sources.len() && (#[trigger] sources[i]).kind == SourceKind::Missing
}

/// Some target is not known.
pub open spec fn any_unknown(targets: Seq<bool>) -> bool {
    exists|i: int| 0 <= i < targets.len() && !#[trigger] targets[i]
}

/// One source that is not there is enough for some to be missing, and one target that is not known for
/// some to be unknown; without such a one none is.
pub proof fn one_is_enough_to_be_missing(sources: Seq<SourceEntry>, targets: Seq<bool>, i: int)
    ensures
        0 <= i < sources.len() && sources[i].kind == SourceKind::Missing ==> any_missing(sources),
        0 <= i < targets.len() && !targets[i] ==> any_unknown(targets),
        (forall|k: int| 0 <= k < sources.len() ==> (#[trigger] sources[k]).kind != SourceKind::Missing)
            ==> !any_missing(sources),
        (forall|k: int| 0 <= k < targets.len() ==> #[trigger] targets[k]) ==> !any_unknown(targets),
{
}

/// What is copied where: every source to every target. Without a source, or with one that is not
/// there, nothing is; nor with a target that is not known. `targets_known` says of each target
/// whether it is.
pub fn copy_plan(sources: &Vec<SourceEntry>, targets_known: &Vec<bool>) -> (r: Result<
    Vec<CopyJob>,
    InstanceError,
>)
    ensures
        match r {
            Ok(jobs) => sources@.len() > 0 && !any_missing(sources@) && !any_unknown(targets_known@)
                && job_views(jobs@) == pairs(sources@.len(), targets_known@.len()),
            Err(error) => if sources@.len() == 0 || any_missing(sources@) {
                error == InstanceError::InvalidSourcePath
            } else {
                any_unknown(targets_known@) && error == InstanceError::InstanceNotFoundByID
            },
        },
{
    if sources.len() == 0 {
        return Err(InstanceError::InvalidSourcePath);
    }
    let mut i: usize = 0;
    while i < sources.len()
        invariant
            i <= sources.len(),
            forall|k: int| 0 <= k < i ==> (#[trigger] sources@[k]).kind != SourceKind::Missing,
        decreases sources.len() - i,
    {
        if matches!(sources[i].kind, SourceKind::Missing) {
            return Err(InstanceError::InvalidSourcePath);
        }
        i += 1;
    }
    i = 0;
    while i < targets_known.len()
        invariant
            i <= targets_known.len(),
            forall|k: int| 0 <= k < i ==> #[trigger] targets_known@[k],
            sources@.len() > 0,
            !any_missing(sources@),
        decreases targets_known.len() - i,
    {
        if !targets_known[i] {
            return Err(InstanceError::InstanceNotFoundByID);
        }
        i += 1;
    }
    let mut jobs: Vec<CopyJob> = Vec::new();
    i = 0;
    assert(job_views(jobs@) =~= pairs(0, targets_known@.len()));
    while i < sources.len()
        invariant
            i <= sources.len(),
            job_views(jobs@) == pairs(i as nat, targets_known@.len()),
        decreases sources.len() - i,
    {
        let ghost so_far = job_views(jobs@);
        let mut j: usize = 0;
        while j < targets_known.len()
            invariant
                j <= targets_known.len(),
                job_views(jobs@) == so_far + Seq::new(j as nat, |k: int| (i as int, k)),
            decreases targets_known.len() - j,
        {
            let ghost before_push = job_views(jobs@);
            jobs.push(CopyJob { source: i, target: j });
            assert(job_views(jobs@) =~= before_push.push((i as int, j as int)));
            assert(Seq::new((j + 1) as nat, |k: int| (i as int, k)) =~= Seq::new(
                j as nat,
                |k: int| (i as int, k),
            ).push((i as int, j as int)));
            j += 1;
        }
        i += 1;
        assert(pairs(i as nat, targets_known@.len()) =~= so_far + Seq::new(
            targets_known@.len(),
            |k: int| (i - 1, k),
        ));
    }
    Ok(jobs)
}

/// Every source is copied to every target, and nothing else is.
pub proof fn every_source_reaches_every_target(sources: nat, targets: nat)
    ensures
        pairs(sources, targets).len() == sources * targets,
        forall|i: int, j: int| #[trigger]
            pairs(sources, targets).contains((i, j)) <==> 0 <= i < sources && 0 <= j < targets,
    decreases sources,
{
    if sources == 0 {
        assert(0 * targets == 0) by (nonlinear_arith);
    } else {
        let less = (sources - 1) as nat;
        every_source_reaches_every_target(less, targets);
        assert(sources * targets == less * targets + targets) by (nonlinear_arith)
            requires
                sources == less + 1,
        ;
        let front = pairs(less, targets);
        let row = Seq::new(targets, |j: int| (sources - 1, j));
        let all = pairs(sources, targets);
        assert forall|i: int, j: int| #[trigger] all.contains((i, j)) <==> 0 <= i < sources && 0 <= j
            < targets by {
            if all.contains((i, j)) {
                let k = choose|k: int| 0 <= k < all.len() && all[k] == (i, j);
                if k < front.len() {
                    assert(front[k] == (i, j));
                    assert(front.contains((i, j)));
                } else {
                    assert(row[k - front.len()] == (i, j));
                }
            }
            if 0 <= i < sources && 0 <= j < targets {
                if i < less {
                    assert(front.contains((i, j)));
                    let k = choose|k: int| 0 <= k < front.len() && front[k] == (i, j);
                    assert(all[k] == (i, j));
                } else {
                    assert(row[j] == (i, j));
                    assert(all[front.len() + j] == (i, j));
                }
            }
        }
    }
}

/// A source goes to one target after the other before the next source has its turn.
pub proof fn sources_are_copied_one_after_the_other(sources: nat, targets: nat, i: nat, j: nat)
    requires
        i < sources,
        j < targets,
    ensures
        i * targets + j < pairs(sources, targets).len(),
        pairs(sources, targets)[(i * targets + j) as int] == (i as int, j as int),
    decreases sources,
{
    let less = (sources - 1) as nat;
    every_source_reaches_every_target(sources, targets);
    every_source_reaches_every_target(less, targets);
    assert(i * targets + j < (i + 1) * targets <= sources * targets) by (nonlinear_arith)
        requires
            j < targets,
            i + 1 <= sources,
    ;
    if i < less {
        sources_are_copied_one_after_the_other(less, targets, i, j);
    } else {
        assert(pairs(less, targets).len() == i * targets);
    }
}

/// How one thing is copied.
#[derive(Debug)]
pub enum CopyAction {
    /// Unpack an archive into a directory of a name.
    Unpack { name: String },
    /// Copy a file under a name.
    CopyFile { name: String },
    /// Copy a directory under a name.
    CopyDirectory { name: String },
}

/// How one thing is copied, as texts.
pub enum CopyActionModel {
    Unpack { name: Seq<char> },
    CopyFile { name: Seq<char> },
    CopyDirectory { name: Seq<char> },
}

impl View for CopyAction {
    type V = CopyActionModel;

    open spec fn view(&self) -> CopyActionModel {
        match *self {
            CopyAction::Unpack { name } => CopyActionModel::Unpack { name: name@ },
            CopyAction::CopyFile { name } => CopyActionModel::CopyFile { name: name@ },
            CopyAction::CopyDirectory { name } => CopyActionModel::CopyDirectory { name: name@ },
        }
    }
}

/// The name of the directory into which an archive is unpacked: its own, without `.zip`.
pub open spec fn unpacked_name(file_name: Seq<char>) -> Seq<char> {
    let (stem, extension) = stem_and_extension(file_name);
    if extension == Some("zip"@) {
        stem
    } else {
        file_name
    }
}

/// How one thing is copied: a file as it is or unpacked, a directory as a whole.
pub open spec fn copy_action_of(
    kind: SourceKind,
    file_name: Option<Seq<char>>,
    decompress: bool,
) -> Result<CopyActionModel, InstanceError> {
    match file_name {
        None => Err(InstanceError::InvalidSourcePath),
        Some(name) => match kind {
            SourceKind::File => if decompress {
                Ok(CopyActionModel::Unpack { name: unpacked_name(name) })
            } else {
                Ok(CopyActionModel::CopyFile { name })
            },
            SourceKind::Directory => Ok(CopyActionModel::CopyDirectory { name }),
            SourceKind::Missing => Err(InstanceError::InvalidSourcePath),
        },
    }
}

/// How one thing is copied.
pub fn copy_action(source: &SourceEntry, decompress: bool) -> (r: Result<CopyAction, InstanceError>)
    ensures
        match r {
            Ok(action) => copy_action_of(source.kind, opt_text(source.file_name), decompress) == Ok::<
                CopyActionModel,
                InstanceError,
            >(action@),
            Err(error) => copy_action_of(source.kind, opt_text(source.file_name), decompress)
                == Err::<CopyActionModel, InstanceError>(error),
        },
{
    let name = match &source.file_name {
        Some(name) => name,
        None => {
            return Err(InstanceError::InvalidSourcePath);
        },
    };
    match source.kind {
        SourceKind::File => {
            if decompress {
                let (stem, extension) = split_file_name(name.as_str());
                let zipped = match &extension {
                    Some(extension) => same(extension.as_str(), "zip"),
                    None => false,
                };
                if zipped {
                    Ok(CopyAction::Unpack { name: stem })
                } else {
                    Ok(CopyAction::Unpack { name: name.clone() })
                }
            } else {
                Ok(CopyAction::CopyFile { name: name.clone() })
            }
        },
        SourceKind::Directory => Ok(CopyAction::CopyDirectory { name: name.clone() }),
        SourceKind::Missing => Err(InstanceError::InvalidSourcePath),
    }
}

/// A file is copied under its name, or unpacked into a directory that has its name without `.zip`; a
/// directory is copied under its name. What has no name, or is not there, is refused.
pub proof fn things_are_copied_under_their_names(name: Seq<char>, stem: Seq<char>, decompress: bool)
    requires
        stem.len() > 0,
    ensures
        copy_action_of(SourceKind::File, Some(name), false) == Ok::<CopyActionModel, InstanceError>(
            CopyActionModel::CopyFile { name },
        ),
        copy_action_of(SourceKind::Directory, Some(name), decompress) == Ok::<
            CopyActionModel,
            InstanceError,
        >(CopyActionModel::CopyDirectory { name }),
        copy_action_of(SourceKind::File, Some(stem + ".zip"@), true) == Ok::<
            CopyActionModel,
            InstanceError,
        >(CopyActionModel::Unpack { name: stem }),
        !holds(name, '.') ==> copy_action_of(SourceKind::File, Some(name), true) == Ok::<
            CopyActionModel,
            InstanceError,
        >(CopyActionModel::Unpack { name }),
        copy_action_of(SourceKind::Missing, Some(name), decompress) == Err::<
            CopyActionModel,
            InstanceError,
        >(InstanceError::InvalidSourcePath),
        copy_action_of(SourceKind::File, None, decompress) == Err::<CopyActionModel, InstanceError>(
            InstanceError::InvalidSourcePath,
        ),
        copy_action_of(SourceKind::Directory, None, decompress) == Err::<
            CopyActionModel,
            InstanceError,
        >(InstanceError::InvalidSourcePath),
{
    reveal_strlit(".zip");
    reveal_strlit(".");
    reveal_strlit("zip");
    let none = Seq::<char>::empty();
    assert(!holds("zip"@, '.'));
    assert(stem + ".zip"@ =~= stem + "."@ + "zip"@);
    file_names_part_at_the_last_dot(stem, "zip"@, none);
    if !holds(name, '.') {
        file_names_part_at_the_last_dot(stem, "zip"@, name);
    }
}

/// Under which name a file or directory is moved to an instance.
pub fn move_name(target_known: bool, source: &SourceEntry) -> (r: Result<String, InstanceError>)
    ensures
        match r {
            Ok(name) => target_known && source.kind != SourceKind::Missing && opt_text(
                source.file_name,
            ) == Some(name@),
            Err(error) => if !target_known {
                error == InstanceError::InstanceNotFoundByID
            } else {
                (source.kind == SourceKind::Missing || source.file_name is None) && error
                    == InstanceError::InvalidSourcePath
            },
        },
{
    if !target_known {
        return Err(InstanceError::InstanceNotFoundByID);
    }
    if matches!(source.kind, SourceKind::Missing) {
        return Err(InstanceError::InvalidSourcePath);
    }
    match &source.file_name {
        Some(name) => Ok(name.clone()),
        None => Err(InstanceError::InvalidSourcePath),
    }
}

/// A path is below a directory, or it: it begins with the names of the directory.
pub open spec fn is_within(path: Seq<Seq<char>>, directory: Seq<Seq<char>>) -> bool {
    directory.is_prefix_of(path)
}

/// Whether a file may be read, by the names of its true path and of the true path of the
/// directory that it must stand in.
pub fn may_read(path: &Vec<String>, directory: &Vec<String>) -> (r: Result<(), InstanceError>)
    ensures
        r == (if is_within(texts(path@), texts(directory@)) {
            Ok::<(), InstanceError>(())
        } else {
            Err(InstanceError::InvalidSourcePath)
        }),
{
    let ghost p = texts(path@);
    let ghost d = texts(directory@);
    if path.len() < directory.len() {
        return Err(InstanceError::InvalidSourcePath);
    }
    let mut i: usize = 0;
    while i < directory.len()
        invariant
            i <= directory.len() <= path.len(),
            p == texts(path@),
            d == texts(directory@),
            forall|k: int| 0 <= k < i ==> p[k] == d[k],
        decreases directory.len() - i,
    {
        assert(p[i as int] == path@[i as int]@);
        assert(d[i as int] == directory@[i as int]@);
        if !same(path[i].as_str(), directory[i].as_str()) {
            assert(p.subrange(0, d.len() as int)[i as int] != d[i as int]);
            return Err(InstanceError::InvalidSourcePath);
        }
        i += 1;
    }
    assert(p.subrange(0, d.len() as int) =~= d);
    Ok(())
}

// ---------------------------------------------------------------------------------------------
// Keeping some of a list
// ---------------------------------------------------------------------------------------------
/// The items that are to be kept.
pub open spec fn kept<T>(items: Seq<T>, keep: Seq<bool>) -> Seq<T>
    decreases items.len(),
{
    if items.len() == 0 {
        seq![]
    } else {
        let front = kept(items.drop_last(), keep);
        if keep[items.len() - 1] {
            front.push(items.last())
        } else {
            front
        }
    }
}

/// Of two lists behind each other, what is kept of the first stands before what is kept of the second.
/// Of one item it is the item, or nothing.
pub proof fn items_are_kept_in_their_order<T>(
    first: Seq<T>,
    second: Seq<T>,
    keep_first: Seq<bool>,
    keep_second: Seq<bool>,
    item: T,
)
    requires
        first.len() == keep_first.len(),
        second.len() == keep_second.len(),
    ensures
        kept(first + second, keep_first + keep_second) == kept(first, keep_first) + kept(
            second,
            keep_second,
        ),
        kept(seq![item], seq![true]) == seq![item],
        kept(seq![item], seq![false]).len() == 0,
    decreases second.len(),
{
    let none = Seq::<T>::empty();
    assert(seq![item].drop_last() =~= none);
    assert(kept(none, seq![true]) =~= none);
    assert(kept(none, seq![false]) =~= none);
    assert(kept(seq![item], seq![true]) =~= seq![item]);
    let all = first + second;
    let keep = keep_first + keep_second;
    if second.len() == 0 {
        assert(all =~= first);
        assert(keep =~= keep_first);
        assert(kept(first, keep_first) + kept(second, keep_second) =~= kept(first, keep_first));
    } else {
        let front = second.drop_last();
        let keep_front = keep_second.drop_last();
        items_are_kept_in_their_order(first, front, keep_first, keep_front, item);
        assert(all.drop_last() =~= first + front);
        lemma_kept_looks_no_further(first + front, keep_first + keep_front, keep);
        lemma_kept_looks_no_further(front, keep_front, keep_second);
        assert(keep[all.len() - 1] == keep_second[second.len() - 1]);
        assert(all.last() == second.last());
        assert(kept(all, keep) =~= kept(first, keep_first) + kept(second, keep_second));
    }
}

proof fn lemma_kept_looks_no_further<T>(items: Seq<T>, a: Seq<bool>, b: Seq<bool>)
    requires
        a.len() >= items.len(),
        b.len() >= items.len(),
        forall|i: int| 0 <= i < items.len() ==> #[trigger] a[i] == b[i],
    ensures
        kept(items, a) == kept(items, b),
    decreases items.len(),
{
    if items.len() > 0 {
        lemma_kept_looks_no_further(items.drop_last(), a, b);
        assert(a[items.len() - 1] == b[items.len() - 1]);
    }
}

/// The items that are to be kept, in their order.
pub fn retain<T>(items: Vec<T>, keep: &Vec<bool>) -> (r: Vec<T>)
    requires
        keep.len() == items.len(),
    ensures
        r@ == kept(items@, keep@),
{
    let ghost given = items@;
    let mut out: Vec<T> = Vec::new();
    let mut i: usize = 0;
    assert(out@ =~= kept(given.take(0), keep@));
    for item in it: items.into_iter()
        invariant
            i == it.index(),
            it.seq() == given,
            keep.len() == given.len(),
            out@ == kept(given.take(i as int), keep@),
    {
        assert(given.take(i + 1).drop_last() =~= given.take(i as int));
        if keep[i] {
            out.push(item);
        }
        i += 1;
    }
    assert(given.take(given.len() as int) =~= given);
    out
}

/// Keeping what passes a test is filtering by it.
proof fn lemma_kept_is_filter<T>(items: Seq<T>, keep: Seq<bool>, test: spec_fn(T) -> bool)
    requires
        keep.len() >= items.len(),
        forall|i: int| 0 <= i < items.len() ==> #[trigger] keep[i] == test(items[i]),
    ensures
        kept(items, keep) == items.filter(test),
    decreases items.len(),
{
    reveal(Seq::filter);
    if items.len() > 0 {
        let front = items.drop_last();
        assert forall|i: int| 0 <= i < front.len() implies #[trigger] keep[i] == test(front[i]) by {
            assert(front[i] == items[i]);
        }
        lemma_kept_is_filter(front, keep, test);
    }
}

// ---------------------------------------------------------------------------------------------
// Servers
// ---------------------------------------------------------------------------------------------
/// A server in the list of an instance; what else the list holds of it is kept as it is.
#[derive(Debug)]
pub struct GameServerInfo {
    pub ip: String,
    pub name: String,
    pub hidden: bool,
    pub rest: Vec<u8>,
}

/// The servers that are shown: those not hidden.
pub fn visible_servers(servers: Vec<GameServerInfo>) -> (r: Vec<GameServerInfo>)
    ensures
        r@ == servers@.filter(|s: GameServerInfo| !s.hidden),
{
    let ghost test = |s: GameServerInfo| !s.hidden;
    let mut keep: Vec<bool> = Vec::new();
    let mut i: usize = 0;
    while i < servers.len()
        invariant
            i <= servers.len(),
            keep.len() == i,
            test == (|s: GameServerInfo| !s.hidden),
            forall|k: int| 0 <= k < i ==> #[trigger] keep@[k] == test(servers@[k]),
        decreases servers.len() - i,
    {
        keep.push(!servers[i].hidden);
        i += 1;
    }
    proof {
        lemma_kept_is_filter(servers@, keep@, test);
    }
    retain(servers, &keep)
}

/// The servers without those at an address.
pub open spec fn servers_without(servers: Seq<GameServerInfo>, addr: Seq<char>) -> Seq<
    GameServerInfo,
> {
    servers.filter(|s: GameServerInfo| s.ip@ != addr)
}

/// Some server is at an address.
pub open spec fn has_server(servers: Seq<GameServerInfo>, addr: Seq<char>) -> bool {
    exists|i: int| 0 <= i < servers.len() && (#[trigger] servers[i]).ip@ == addr
}

/// Removes the servers at an address.
pub fn delete_game_server(servers: Vec<GameServerInfo>, server_addr: &str) -> (r: Vec<
    GameServerInfo,
>)
    ensures
        r@ == servers_without(servers@, server_addr@),
{
    let ghost test = |s: GameServerInfo| s.ip@ != server_addr@;
    let mut keep: Vec<bool> = Vec::new();
    let mut i: usize = 0;
    while i < servers.len()
        invariant
            i <= servers.len(),
            keep.len() == i,
            test == (|s: GameServerInfo| s.ip@ != server_addr@),
            forall|k: int| 0 <= k < i ==> #[trigger] keep@[k] == test(servers@[k]),
        decreases servers.len() - i,
    {
        keep.push(!same(servers[i].ip.as_str(), server_addr));
        i += 1;
    }
    proof {
        lemma_kept_is_filter(servers@, keep@, test);
    }
    retain(servers, &keep)
}

/// A server that was just added: not hidden, with nothing else known of it.
pub open spec fn is_new_server(s: GameServerInfo, addr: Seq<char>, name: Seq<char>) -> bool {
    s.ip@ == addr && s.name@ == name && !s.hidden && s.rest@.len() == 0
}

/// A server that was just added is at its address, under its name, and shown; and one server at an
/// address is enough for the address to be taken.
pub proof fn new_servers_are_shown(
    s: GameServerInfo,
    addr: Seq<char>,
    name: Seq<char>,
    servers: Seq<GameServerInfo>,
    i: int,
)
    ensures
        is_new_server(s, addr, name) <==> s.ip@ == addr && s.name@ == name && s.hidden == false
            && s.rest@.len() == 0,
        0 <= i < servers.len() ==> has_server(servers, servers[i].ip@),
        has_server(servers, addr) ==> servers.len() > 0,
{
}

/// Adds a server at the end, unless one at its address is there.
pub fn add_game_server(servers: Vec<GameServerInfo>, server_addr: &str, server_name: &str) -> (r:
    Result<Vec<GameServerInfo>, InstanceError>)
    ensures
        match r {
            Ok(after) => !has_server(servers@, server_addr@) && after@.len() == servers@.len() + 1
                && after@.drop_last() == servers@ && is_new_server(
                after@.last(),
                server_addr@,
                server_name@,
            ),
            Err(error) => has_server(servers@, server_addr@) && error
                == InstanceError::DuplicateServer,
        },
{
    let mut i: usize = 0;
    while i < servers.len()
        invariant
            i <= servers.len(),
            forall|k: int| 0 <= k < i ==> (#[trigger] servers@[k]).ip@ != server_addr@,
        decreases servers.len() - i,
    {
        if same(servers[i].ip.as_str(), server_addr) {
            return Err(InstanceError::DuplicateServer);
        }
        i += 1;
    }
    let ghost given = servers@;
    let mut all = servers;
    all.push(
        GameServerInfo {
            ip: server_addr.to_owned(),
            name: server_name.to_owned(),
            hidden: false,
            rest: Vec::new(),
        },
    );
    assert(all@.drop_last() =~= given);
    Ok(all)
}

/// No server is left at an address that was deleted, and every other server stays.
pub proof fn deleting_removes_exactly_one_address(servers: Seq<GameServerInfo>, addr: Seq<char>)
    ensures
        !has_server(servers_without(servers, addr), addr),
        forall|s: GameServerInfo|
            s.ip@ != addr ==> (#[trigger] servers_without(servers, addr).contains(s)
                <==> servers.contains(s)),
    decreases servers.len(),
{
    reveal(Seq::filter);
    let test = |s: GameServerInfo| s.ip@ != addr;
    if servers.len() > 0 {
        let front = servers.drop_last();
        deleting_removes_exactly_one_address(front, addr);
        let inner = servers_without(front, addr);
        let out = servers_without(servers, addr);
        assert forall|i: int| 0 <= i < out.len() implies (#[trigger] out[i]).ip@ != addr by {
            if i < inner.len() {
                assert(inner[i].ip@ != addr);
            }
        }
        assert forall|s: GameServerInfo| s.ip@ != addr implies (#[trigger] out.contains(s)
            <==> servers.contains(s)) by {
            if servers.contains(s) {
                let k = choose|k: int| 0 <= k < servers.len() && servers[k] == s;
                if k < front.len() {
                    assert(front[k] == s);
                    assert(inner.contains(s));
                    let m = choose|m: int| 0 <= m < inner.len() && inner[m] == s;
                    assert(out[m] == s);
                } else {
                    assert(out[out.len() - 1] == s);
                }
            }
            if out.contains(s) {
                let m = choose|m: int| 0 <= m < out.len() && out[m] == s;
                if m < inner.len() {
                    assert(inner[m] == s);
                    assert(inner.contains(s));
                    let k = choose|k: int| 0 <= k < front.len() && front[k] == s;
                    assert(servers[k] == s);
                } else {
                    assert(servers[servers.len() - 1] == s);
                }
            }
        }
    }
}

/// Deleting an address that was just added gives back the list as it was.
pub proof fn deleting_undoes_adding(
    servers: Seq<GameServerInfo>,
    added: GameServerInfo,
    addr: Seq<char>,
)
    requires
        !has_server(servers, addr),
        added.ip@ == addr,
    ensures
        servers_without(servers.push(added), addr) == servers,
{
    reveal(Seq::filter);
    assert(servers.push(added).drop_last() =~= servers);
    lemma_none_filtered(servers, addr);
}

proof fn lemma_none_filtered(servers: Seq<GameServerInfo>, addr: Seq<char>)
    requires
        !has_server(servers, addr),
    ensures
        servers_without(servers, addr) == servers,
    decreases servers.len(),
{
    reveal(Seq::filter);
    if servers.len() > 0 {
        let front = servers.drop_last();
        assert(!has_server(front, addr)) by {
            if has_server(front, addr) {
                let k = choose|k: int| 0 <= k < front.len() && (#[trigger] front[k]).ip@ == addr;
                assert(servers[k].ip@ == addr);
            }
        }
        lemma_none_filtered(front, addr);
        assert(servers[servers.len() - 1].ip@ != addr);
        assert(servers_without(servers, addr) =~= servers);
    } else {
        assert(servers_without(servers, addr) =~= servers);
    }
}

// ---------------------------------------------------------------------------------------------
// Which files are listed
// ---------------------------------------------------------------------------------------------
/// A kind of files that is listed.
#[derive(Clone, Copy, Debug, PartialEq, Eq, Structural)]
pub enum ListedKind {
    Mods,
    ResourcePacks,
    ServerResourcePacks,
    Schematics,
    ShaderPacks,
    Screenshots,
}

/// The pattern of the names of the files of a kind.
pub open spec fn pattern_of(kind: ListedKind) -> Seq<char> {
    match kind {
        ListedKind::Mods => r"\.(jar|zip)(\.disabled)*$"@,
        ListedKind::ResourcePacks => r"\.zip$"@,
        ListedKind::ServerResourcePacks => r".*"@,
        ListedKind::Schematics => r"\.(litematic|schematic)$"@,
        ListedKind::ShaderPacks => r"\.zip$"@,
        ListedKind::Screenshots => r"\.(jpg|jpeg|png)$"@,
    }
}

/// The pattern of the names of the files of a kind.
pub fn file_pattern(kind: ListedKind) -> (r: &'static str)
    ensures
        r@ == pattern_of(kind),
{
    match kind {
        ListedKind::Mods => r"\.(jar|zip)(\.disabled)*$",
        ListedKind::ResourcePacks => r"\.zip$",
        ListedKind::ServerResourcePacks => r".*",
        ListedKind::Schematics => r"\.(litematic|schematic)$",
        ListedKind::ShaderPacks => r"\.zip$",
        ListedKind::Screenshots => r"\.(jpg|jpeg|png)$",
    }
}

/// Mods are archives of either kind, switched off or not; packs are zip archives; schematics and
/// screenshots are told by their own extensions; and every file of a server is its pack.
pub proof fn files_are_listed_by_their_extensions()
    ensures
        pattern_of(ListedKind::Mods) == r"\.(jar|zip)(\.disabled)*$"@,
        pattern_of(ListedKind::ResourcePacks) == r"\.zip$"@,
        pattern_of(ListedKind::ShaderPacks) == r"\.zip$"@,
        pattern_of(ListedKind::ServerResourcePacks) == r".*"@,
        pattern_of(ListedKind::Schematics) == r"\.(litematic|schematic)$"@,
        pattern_of(ListedKind::Screenshots) == r"\.(jpg|jpeg|png)$"@,
{
}

/// Whether a file of a name is listed: its name matches the pattern of the kind, in capitals or
/// small letters.
pub fn is_listed(kind: ListedKind, file_name: &str) -> (r: bool)
    ensures
        r == (regex_found(pattern_of(kind), true, file_name@).len() > 0),
{
    let found = regex_matches(file_pattern(kind), true, file_name);
    assert(match_texts(found@).len() == found@.len());
    found.len() > 0
}

/// The name under which a file is listed: without its extension.
pub fn listed_name(file_name: &str) -> (r: String)
    ensures
        r@ == stem_and_extension(file_name@).0,
{
    split_file_name(file_name).0
}

/// Which loader the mods of an instance are read for: none where its loader is not known.
pub fn installed_loader(loader_type: ModLoaderType) -> (r: Option<ModLoaderType>)
    ensures
        r == (if loader_type == ModLoaderType::Unknown {
            None
        } else {
            Some(loader_type)
        }),
{
    if matches!(loader_type, ModLoaderType::Unknown) {
        None
    } else {
        Some(loader_type)
    }
}

// ---------------------------------------------------------------------------------------------
// Switching mods on and off
// ---------------------------------------------------------------------------------------------
/// The pattern of the name of a mod: the name proper, and what marks it as switched off.
pub const RENAME_PATTERN: &'static str = r"^(.*?)(\.disabled)*$";

/// The name of a mod switched on or off, given the matches of the pattern in its name.
pub open spec fn toggled_of(
    file_name: Seq<char>,
    found: Seq<Seq<Option<Seq<char>>>>,
    enable: bool,
) -> Seq<char> {
    if found.len() == 0 {
        file_name
    } else if enable {
        if found[0].len() > 1 && found[0][1] is Some {
            found[0][1]->0
        } else {
            file_name
        }
    } else {
        file_name + ".disabled"@
    }
}

/// The name of a mod switched on or off, given the matches of the pattern in its name.
pub fn toggled_name_from(file_name: &str, found: &Vec<Vec<Option<String>>>, enable: bool) -> (r:
    String)
    ensures
        r@ == toggled_of(file_name@, match_texts(found@), enable),
{
    let ghost all = match_texts(found@);
    assert(all.len() == found@.len());
    if found.len() == 0 {
        return file_name.to_owned();
    }
    assert(all[0] == crate::external::group_texts(found@[0]@));
    if enable {
        let groups = &found[0];
        if groups.len() > 1 {
            assert(all[0][1] == opt_text(found@[0]@[1]));
            if let Some(name) = &groups[1] {
                return name.clone();
            }
        }
        file_name.to_owned()
    } else {
        concat2(file_name, ".disabled")
    }
}

/// The name of a mod switched on or off: switched on, it loses every mark; switched off, it gains
/// one.
pub fn toggled_name(file_name: &str, enable: bool) -> (r: String)
    ensures
        r@ == toggled_of(
            file_name@,
            regex_found(RENAME_PATTERN@, true, file_name@),
            enable,
        ),
{
    let found = regex_matches(RENAME_PATTERN, true, file_name);
    toggled_name_from(file_name, &found, enable)
}

/// Switching a mod off puts one more mark behind its name. Switching it on leaves what the pattern
/// finds before the marks. A name that the pattern does not fit stays as it is.
pub proof fn marks_are_put_on_and_taken_off(
    file_name: Seq<char>,
    proper: Seq<char>,
    found: Seq<Seq<Option<Seq<char>>>>,
)
    ensures
        found.len() > 0 ==> toggled_of(file_name, found, false) == file_name + ".disabled"@,
        found.len() > 0 && found[0].len() > 1 && found[0][1] == Some(proper) ==> toggled_of(
            file_name,
            found,
            true,
        ) == proper,
        found.len() == 0 ==> toggled_of(file_name, found, true) == file_name && toggled_of(
            file_name,
            found,
            false,
        ) == file_name,
{
}

// ---------------------------------------------------------------------------------------------
// Orders
// ---------------------------------------------------------------------------------------------
/// A list of texts comes before another: the first difference decides, and a list comes after its
/// own beginnings.
pub open spec fn list_before(a: Seq<Seq<char>>, b: Seq<Seq<char>>) -> bool
    decreases a.len(),
{
    if b.len() == 0 {
        false
    } else if a.len() == 0 {
        true
    } else if a[0] != b[0] {
        before(a[0], b[0])
    } else {
        list_before(a.skip(1), b.skip(1))
    }
}

/// The first difference of two lists tells which comes first, and a list comes before the longer ones
/// that begin with it.
pub proof fn the_first_different_name_decides(
    common: Seq<Seq<char>>,
    a: Seq<Seq<char>>,
    b: Seq<Seq<char>>,
)
    ensures
        list_before(common + a, common + b) == list_before(a, b),
        a.len() > 0 && b.len() > 0 && a[0] != b[0] ==> (list_before(a, b) <==> before(a[0], b[0])),
        a.len() == 0 ==> (list_before(a, b) <==> b.len() > 0),
        b.len() == 0 ==> !list_before(a, b),
    decreases common.len(),
{
    if common.len() > 0 {
        let rest = common.skip(1);
        the_first_different_name_decides(rest, a, b);
        assert((common + a).skip(1) =~= rest + a);
        assert((common + b).skip(1) =~= rest + b);
    } else {
        assert(common + a =~= a);
        assert(common + b =~= b);
    }
}

proof fn lemma_list_before_total(a: Seq<Seq<char>>, b: Seq<Seq<char>>)
    ensures
        a != b ==> (list_before(a, b) || list_before(b, a)),
        !(list_before(a, b) && list_before(b, a)),
        a == b ==> !list_before(a, b),
    decreases a.len(),
{
    if a.len() > 0 && b.len() > 0 {
        lemma_before_total(a[0], b[0]);
        if a[0] == b[0] {
            lemma_list_before_total(a.skip(1), b.skip(1));
            if a != b {
                assert(a.skip(1) != b.skip(1)) by {
                    if a.skip(1) == b.skip(1) {
                        assert(a =~= seq![a[0]] + a.skip(1));
                        assert(b =~= seq![b[0]] + b.skip(1));
                    }
                }
            }
        }
    } else {
        assert(a.len() == 0 && b.len() == 0 ==> a =~= b);
    }
}

proof fn lemma_list_before_transitive(a: Seq<Seq<char>>, b: Seq<Seq<char>>, c: Seq<Seq<char>>)
    requires
        list_before(a, b),
        list_before(b, c),
    ensures
        list_before(a, c),
    decreases a.len(),
{
    if a.len() > 0 {
        if a[0] == b[0] && b[0] == c[0] {
            lemma_list_before_transitive(a.skip(1), b.skip(1), c.skip(1));
        } else {
            lemma_before_total(a[0], b[0]);
            lemma_before_total(b[0], c[0]);
            if before(a[0], b[0]) && before(b[0], c[0]) {
                lemma_before_transitive(a[0], b[0], c[0]);
                lemma_before_total(a[0], c[0]);
            }
        }
    }
}

/// Whether a list of texts comes before another.
pub fn list_precedes(a: &Vec<String>, b: &Vec<String>) -> (r: bool)
    ensures
        r == list_before(texts(a@), texts(b@)),
{
    let ghost x = texts(a@);
    let ghost y = texts(b@);
    let mut i: usize = 0;
    assert(x.skip(0) =~= x);
    assert(y.skip(0) =~= y);
    while i < a.len() && i < b.len()
        invariant
            i <= a.len(),
            i <= b.len(),
            x == texts(a@),
            y == texts(b@),
            list_before(x, y) == list_before(x.skip(i as int), y.skip(i as int)),
        decreases a.len() - i,
    {
        assert(x.skip(i as int)[0] == a@[i as int]@);
        assert(y.skip(i as int)[0] == b@[i as int]@);
        if !same(a[i].as_str(), b[i].as_str()) {
            return precedes(a[i].as_str(), b[i].as_str());
        }
        assert(x.skip(i as int).skip(1) =~= x.skip(i + 1));
        assert(y.skip(i as int).skip(1) =~= y.skip(i + 1));
        i += 1;
    }
    i < b.len()
}

/// The order of schematics: by the names of their paths.
pub open spec fn schematic_before(paths: Seq<Vec<String>>) -> spec_fn(int, int) -> bool {
    |a: int, b: int| list_before(texts(paths[a]@), texts(paths[b]@))
}

/// The order of schematics, given the names of the path of each.
pub fn schematic_order(paths: &Vec<Vec<String>>) -> (r: Vec<usize>)
    ensures
        positions(r@) == ranked(paths@.len(), schematic_before(paths@)),
{
    let test = |a: usize, b: usize| -> (c: bool)
        requires
            a < paths.len(),
            b < paths.len(),
        ensures
            c == list_before(texts(paths@[a as int]@), texts(paths@[b as int]@)),
        { list_precedes(&paths[a], &paths[b]) };
    rank(paths.len(), test, Ghost(schematic_before(paths@)))
}

/// Schematics are listed by the names of their paths, each of them once.
pub proof fn schematics_are_sorted_by_path(paths: Seq<Vec<String>>, i: int, j: int)
    requires
        0 <= i < j < paths.len(),
    ensures
        ({
            let r = ranked(paths.len(), schematic_before(paths));
            &&& lists_each(r, paths.len())
            &&& !list_before(texts(paths[r[j]]@), texts(paths[r[i]]@))
        }),
{
    let less = schematic_before(paths);
    let n = paths.len();
    assert forall|a: int| 0 <= a < n implies !#[trigger] less(a, a) by {
        lemma_list_before_total(texts(paths[a]@), texts(paths[a]@));
    }
    assert forall|a: int, b: int, c: int|
        0 <= a < n && 0 <= b < n && 0 <= c < n && #[trigger] less(a, b) && #[trigger] less(
            b,
            c,
        ) implies less(a, c) by {
        lemma_list_before_transitive(texts(paths[a]@), texts(paths[b]@), texts(paths[c]@));
    }
    assert forall|a: int, b: int, c: int|
        0 <= a < n && 0 <= b < n && 0 <= c < n && !#[trigger] less(a, b) && !#[trigger] less(
            b,
            c,
        ) implies !less(a, c) by {
        let (x, y, z) = (texts(paths[a]@), texts(paths[b]@), texts(paths[c]@));
        lemma_list_before_total(x, y);
        lemma_list_before_total(y, z);
        lemma_list_before_total(x, z);
        if list_before(y, x) && list_before(z, y) {
            lemma_list_before_transitive(z, y, x);
        }
    }
    let r = ranked(n, less);
    ranking_is_stable_and_in_order(n, less);
    ranking_keeps_every_position(n, less);
    assert(may_precede(less, r[i], r[j]));
}

/// A mod of an instance, as it is listed.
#[derive(Debug)]
pub struct LocalModInfo {
    pub file_name: String,
    pub name: String,
    pub version: String,
    pub translated_name: Option<String>,
    pub translated_description: Option<String>,
}

/// The order of mods: by name, and by version where the names are the same.
pub open spec fn mod_before(mods: Seq<LocalModInfo>) -> spec_fn(int, int) -> bool {
    |a: int, b: int|
        before(mods[a].name@, mods[b].name@) || (mods[a].name@ == mods[b].name@ && before(
            mods[a].version@,
            mods[b].version@,
        ))
}

fn mod_precedes(a: &LocalModInfo, b: &LocalModInfo) -> (r: bool)
    ensures
        r == (before(a.name@, b.name@) || (a.name@ == b.name@ && before(a.version@, b.version@))),
{
    precedes(a.name.as_str(), b.name.as_str()) || (same(a.name.as_str(), b.name.as_str())
        && precedes(a.version.as_str(), b.version.as_str()))
}

/// The mods in their order.
pub fn arrange_mods(mods: Vec<LocalModInfo>) -> (r: Vec<LocalModInfo>)
    ensures
        r@ == arranged(mods@, mod_before(mods@)),
{
    let ghost less = mod_before(mods@);
    let test = |a: usize, b: usize| -> (c: bool)
        requires
            a < mods.len(),
            b < mods.len(),
        ensures
            c == (before(mods@[a as int].name@, mods@[b as int].name@) || (mods@[a as int].name@
                == mods@[b as int].name@ && before(
                mods@[a as int].version@,
                mods@[b as int].version@,
            ))),
        { mod_precedes(&mods[a], &mods[b]) };
    let order = rank(mods.len(), test, Ghost(less));
    arrange(mods, &order, Ghost(less))
}

// ---------------------------------------------------------------------------------------------
// Translations of mods
// ---------------------------------------------------------------------------------------------
/// A translation that is remembered, and whether its time is over.
#[derive(Debug)]
pub struct TranslationEntry {
    pub file_name: String,
    pub translated_name: Option<String>,
    pub translated_description: Option<String>,
    pub expired: bool,
}

/// A remembered translation as texts.
pub struct TranslationModel {
    pub name: Option<Seq<char>>,
    pub description: Option<Seq<char>>,
    pub expired: bool,
}

/// A translation as texts.
pub open spec fn translation_view(e: TranslationEntry) -> TranslationModel {
    TranslationModel {
        name: opt_text(e.translated_name),
        description: opt_text(e.translated_description),
        expired: e.expired,
    }
}

/// Entry `i` is that of a file.
pub open spec fn translated_at(entries: Seq<TranslationEntry>, file: Seq<char>, i: int) -> bool {
    0 <= i < entries.len() && entries[i].file_name@ == file
}

/// No file has two entries.
pub open spec fn translated_once(entries: Seq<TranslationEntry>) -> bool {
    forall|i: int, j: int|
        0 <= i < j < entries.len() ==> #[trigger] entries[i].file_name@
            != #[trigger] entries[j].file_name@
}

/// The translations that entries hold, by file.
pub open spec fn translations_of(entries: Seq<TranslationEntry>) -> Map<Seq<char>, TranslationModel> {
    Map::new(
        |f: Seq<char>| exists|i: int| translated_at(entries, f, i),
        |f: Seq<char>| translation_view(entries[choose|i: int| translated_at(entries, f, i)]),
    )
}

/// The translation that comes with a mod.
pub open spec fn fresh_translation(info: LocalModInfo) -> TranslationModel {
    TranslationModel {
        name: opt_text(info.translated_name),
        description: opt_text(info.translated_description),
        expired: false,
    }
}

/// The translations once those of mods were taken: one whose time is not over stays.
pub open spec fn refreshed(
    cache: Map<Seq<char>, TranslationModel>,
    mods: Seq<LocalModInfo>,
) -> Map<Seq<char>, TranslationModel>
    decreases mods.len(),
{
    if mods.len() == 0 {
        cache
    } else {
        let front = refreshed(cache, mods.drop_last());
        let file = mods.last().file_name@;
        if front.dom().contains(file) && !front[file].expired {
            front
        } else {
            front.insert(file, fresh_translation(mods.last()))
        }
    }
}

proof fn lemma_translated(entries: Seq<TranslationEntry>, i: int)
    requires
        translated_once(entries),
        0 <= i < entries.len(),
    ensures
        translations_of(entries).dom().contains(entries[i].file_name@),
        translations_of(entries)[entries[i].file_name@] == translation_view(entries[i]),
{
    let f = entries[i].file_name@;
    assert(translated_at(entries, f, i));
    let k = choose|k: int| translated_at(entries, f, k);
    if k < i {
        assert(entries[k].file_name@ != entries[i].file_name@);
    } else if i < k {
        assert(entries[i].file_name@ != entries[k].file_name@);
    }
}

fn refresh_one(entries: &mut Vec<TranslationEntry>, info: &LocalModInfo)
    requires
        translated_once(old(entries)@),
    ensures
        translated_once(final(entries)@),
        translations_of(final(entries)@) == ({
            let cache = translations_of(old(entries)@);
            let file = info.file_name@;
            if cache.dom().contains(file) && !cache[file].expired {
                cache
            } else {
                cache.insert(file, fresh_translation(*info))
            }
        }),
{
    let ghost before_entries = entries@;
    let file = info.file_name.as_str();
    let mut i: usize = 0;
    let mut found: bool = false;
    while i < entries.len() && !found
        invariant
            i <= entries.len(),
            entries@ == before_entries,
            file@ == info.file_name@,
            forall|j: int| 0 <= j < i ==> entries@[j].file_name@ != file@,
            found ==> i < entries.len() && entries@[i as int].file_name@ == file@,
        decreases entries.len() - i, !found as int,
    {
        if same(entries[i].file_name.as_str(), file) {
            found = true;
        } else {
            i += 1;
        }
    }
    if found {
        proof {
            lemma_translated(before_entries, i as int);
        }
        if !entries[i].expired {
            return ;
        }
    }
    let entry = TranslationEntry {
        file_name: info.file_name.clone(),
        translated_name: copy_text(&info.translated_name),
        translated_description: copy_text(&info.translated_description),
        expired: false,
    };
    if found {
        entries.set(i, entry);
    } else {
        entries.push(entry);
    }
    proof {
        let after = entries@;
        let cache = translations_of(before_entries);
        assert forall|a: int, b: int| 0 <= a < b < after.len() implies #[trigger] after[a].file_name@
            != #[trigger] after[b].file_name@ by {
            if b < before_entries.len() {
                assert(before_entries[a].file_name@ != before_entries[b].file_name@);
            }
        }
        lemma_translated(after, i as int);
        assert forall|f: Seq<char>| #[trigger] translations_of(after).dom().contains(f)
            <==> cache.dom().contains(f) || f == file@ by {
            if cache.dom().contains(f) {
                let k = choose|k: int| translated_at(before_entries, f, k);
                assert(translated_at(after, f, k));
            }
            if translations_of(after).dom().contains(f) && f != file@ {
                let k = choose|k: int| translated_at(after, f, k);
                assert(translated_at(before_entries, f, k));
            }
        }
        assert forall|f: Seq<char>| #[trigger] translations_of(after).dom().contains(f) implies translations_of(
            after,
        )[f] == cache.insert(file@, fresh_translation(*info))[f] by {
            if f != file@ {
                let k = choose|k: int| translated_at(after, f, k);
                lemma_translated(after, k);
                assert(translated_at(before_entries, f, k));
                lemma_translated(before_entries, k);
            }
        }
        assert(translations_of(after) =~= cache.insert(file@, fresh_translation(*info)));
    }
}

/// Takes the translations of mods, except where one is remembered whose time is not over.
pub fn refresh_translations(entries: &mut Vec<TranslationEntry>, mods: &Vec<LocalModInfo>)
    requires
        translated_once(old(entries)@),
    ensures
        translated_once(final(entries)@),
        translations_of(final(entries)@) == refreshed(translations_of(old(entries)@), mods@),
{
    let ghost cache = translations_of(entries@);
    let mut i: usize = 0;
    assert(mods@.take(0) =~= seq![]);
    while i < mods.len()
        invariant
            i <= mods.len(),
            cache == translations_of(old(entries)@),
            translated_once(entries@),
            translations_of(entries@) == refreshed(cache, mods@.take(i as int)),
        decreases mods.len() - i,
    {
        assert(mods@.take(i + 1).drop_last() =~= mods@.take(i as int));
        refresh_one(entries, &mods[i]);
        i += 1;
    }
    assert(mods@.take(mods.len() as int) =~= mods@);
}

/// The mods that could be read.
pub open spec fn readable(loaded: Seq<Option<LocalModInfo>>) -> Seq<LocalModInfo>
    decreases loaded.len(),
{
    if loaded.len() == 0 {
        seq![]
    } else {
        let front = readable(loaded.drop_last());
        match loaded.last() {
            Some(info) => front.push(info),
            None => front,
        }
    }
}

/// The mods that could be read, in the order in which they were read.
pub fn readable_mods(loaded: Vec<Option<LocalModInfo>>) -> (r: Vec<LocalModInfo>)
    ensures
        r@ == readable(loaded@),
{
    let ghost given = loaded@;
    let mut out: Vec<LocalModInfo> = Vec::new();
    assert(out@ =~= readable(given.take(0)));
    for item in it: loaded.into_iter()
        invariant
            it.seq() == given,
            out@ == readable(given.take(it.index() as int)),
    {
        assert(given.take(it.index() + 1).drop_last() =~= given.take(it.index() as int));
        if let Some(info) = item {
            out.push(info);
        }
    }
    assert(given.take(given.len() as int) =~= given);
    out
}

/// The list of the mods of an instance, once they were read and translated: those that could be
/// read, in their order. Their translations are remembered, except where one is remembered whose
/// time is not over.
pub fn finish_mod_list(loaded: Vec<Option<LocalModInfo>>, entries: &mut Vec<TranslationEntry>) -> (r:
    Vec<LocalModInfo>)
    requires
        translated_once(old(entries)@),
    ensures
        r@ == arranged(readable(loaded@), mod_before(readable(loaded@))),
        translated_once(final(entries)@),
        translations_of(final(entries)@) == refreshed(translations_of(old(entries)@), r@),
{
    let mods = readable_mods(loaded);
    let arranged_mods = arrange_mods(mods);
    refresh_translations(entries, &arranged_mods);
    arranged_mods
}

proof fn lemma_mods_ordered(mods: Seq<LocalModInfo>)
    ensures
        orders(mods.len(), mod_before(mods)),
{
    let less = mod_before(mods);
    let n = mods.len();
    assert forall|a: int| 0 <= a < n implies !#[trigger] less(a, a) by {
        lemma_before_total(mods[a].name@, mods[a].name@);
        lemma_before_total(mods[a].version@, mods[a].version@);
    }
    assert forall|a: int, b: int, c: int|
        0 <= a < n && 0 <= b < n && 0 <= c < n && #[trigger] less(a, b) && #[trigger] less(
            b,
            c,
        ) implies less(a, c) by {
        if before(mods[a].name@, mods[b].name@) && before(mods[b].name@, mods[c].name@) {
            lemma_before_transitive(mods[a].name@, mods[b].name@, mods[c].name@);
        }
        if before(mods[a].version@, mods[b].version@) && before(
            mods[b].version@,
            mods[c].version@,
        ) {
            lemma_before_transitive(mods[a].version@, mods[b].version@, mods[c].version@);
        }
    }
    assert forall|a: int, b: int, c: int|
        0 <= a < n && 0 <= b < n && 0 <= c < n && !#[trigger] less(a, b) && !#[trigger] less(
            b,
            c,
        ) implies !less(a, c) by {
        lemma_before_total(mods[a].name@, mods[b].name@);
        lemma_before_total(mods[b].name@, mods[c].name@);
        lemma_before_total(mods[a].name@, mods[c].name@);
        lemma_before_total(mods[a].version@, mods[b].version@);
        lemma_before_total(mods[b].version@, mods[c].version@);
        lemma_before_total(mods[a].version@, mods[c].version@);
        if before(mods[b].name@, mods[a].name@) && before(mods[c].name@, mods[b].name@) {
            lemma_before_transitive(mods[c].name@, mods[b].name@, mods[a].name@);
        }
        if before(mods[b].version@, mods[a].version@) && before(
            mods[c].version@,
            mods[b].version@,
        ) {
            lemma_before_transitive(mods[c].version@, mods[b].version@, mods[a].version@);
        }
    }
}

/// The list of mods is sorted by name, and by version where names are the same, and holds each mod
/// once.
pub proof fn mod_list_is_sorted(mods: Seq<LocalModInfo>)
    ensures
        in_order(ranked(mods.len(), mod_before(mods)), mod_before(mods)),
        arranged(mods, mod_before(mods)).len() == mods.len(),
        forall|m: LocalModInfo| #[trigger]
            arranged(mods, mod_before(mods)).contains(m) <==> mods.contains(m),
{
    lemma_mods_ordered(mods);
    ranking_is_stable_and_in_order(mods.len(), mod_before(mods));
    arranging_keeps_items(mods, mod_before(mods));
}

/// Of two mods of the list the name of the second does not come before that of the first, and where the
/// names are the same, neither does its version.
pub proof fn mods_are_listed_by_name_and_version(mods: Seq<LocalModInfo>, i: int, j: int)
    requires
        0 <= i < j < mods.len(),
    ensures
        ({
            let out = arranged(mods, mod_before(mods));
            &&& !before(out[j].name@, out[i].name@)
            &&& out[i].name@ == out[j].name@ ==> !before(out[j].version@, out[i].version@)
        }),
{
    let less = mod_before(mods);
    let r = ranked(mods.len(), less);
    lemma_mods_ordered(mods);
    ranking_is_stable_and_in_order(mods.len(), less);
    ranking_keeps_every_position(mods.len(), less);
    arranging_keeps_items(mods, less);
    assert(may_precede(less, r[i], r[j]));
}

/// Of two lists behind each other, the mods of the first that could be read stand before those of the
/// second. A mod that could be read is listed, and one that could not is left out.
pub proof fn readable_mods_are_listed(
    first: Seq<Option<LocalModInfo>>,
    second: Seq<Option<LocalModInfo>>,
    info: LocalModInfo,
)
    ensures
        readable(first + second) == readable(first) + readable(second),
        readable(seq![Some(info)]) == seq![info],
        readable(seq![None]).len() == 0,
    decreases second.len(),
{
    let none = Seq::<Option<LocalModInfo>>::empty();
    assert(seq![Some(info)].drop_last() =~= none);
    assert(seq![None::<LocalModInfo>].drop_last() =~= none);
    assert(readable(none) =~= Seq::<LocalModInfo>::empty());
    assert(readable(seq![Some(info)]) =~= seq![info]);
    if second.len() == 0 {
        assert(first + second =~= first);
        assert(readable(first) + readable(second) =~= readable(first));
    } else {
        let front = second.drop_last();
        readable_mods_are_listed(first, front, info);
        assert((first + second).drop_last() =~= first + front);
        assert((first + second).last() == second.last());
        assert(readable(first + second) =~= readable(first) + readable(second));
    }
}

/// Some mod is of a file.
pub open spec fn has_mod(mods: Seq<LocalModInfo>, file: Seq<char>) -> bool {
    exists|i: int| 0 <= i < mods.len() && (#[trigger] mods[i]).file_name@ == file
}

/// A translation that is not remembered, or whose time is over, is taken from the first mod of its
/// file. Of a file without a mod nothing changes.
pub proof fn missing_translations_are_taken(
    cache: Map<Seq<char>, TranslationModel>,
    mods: Seq<LocalModInfo>,
    i: int,
    file: Seq<char>,
)
    requires
        0 <= i < mods.len(),
        !has_mod(mods.take(i), mods[i].file_name@),
        !cache.dom().contains(mods[i].file_name@) || cache[mods[i].file_name@].expired,
        !has_mod(mods, file),
    ensures
        ({
            let after = refreshed(cache, mods);
            let own = mods[i].file_name@;
            &&& after.dom().contains(own)
            &&& after[own].name == opt_text(mods[i].translated_name)
            &&& after[own].description == opt_text(mods[i].translated_description)
            &&& !after[own].expired
            &&& after.dom().contains(file) == cache.dom().contains(file)
            &&& cache.dom().contains(file) ==> after[file] == cache[file]
        }),
    decreases mods.len(),
{
    let own = mods[i].file_name@;
    let front = mods.drop_last();
    lemma_untouched(cache, mods, file);
    if i == mods.len() - 1 {
        assert(front =~= mods.take(i));
        lemma_untouched(cache, front, own);
    } else {
        assert(front.take(i) =~= mods.take(i));
        assert(!has_mod(front, file)) by {
            if has_mod(front, file) {
                let k = choose|k: int| 0 <= k < front.len() && (#[trigger] front[k]).file_name@ == file;
                assert(mods[k].file_name@ == file);
            }
        }
        missing_translations_are_taken(cache, front, i, file);
    }
}

proof fn lemma_untouched(
    cache: Map<Seq<char>, TranslationModel>,
    mods: Seq<LocalModInfo>,
    file: Seq<char>,
)
    requires
        !has_mod(mods, file),
    ensures
        refreshed(cache, mods).dom().contains(file) == cache.dom().contains(file),
        cache.dom().contains(file) ==> refreshed(cache, mods)[file] == cache[file],
    decreases mods.len(),
{
    if mods.len() > 0 {
        let front = mods.drop_last();
        assert(mods[mods.len() - 1].file_name@ != file);
        assert(!has_mod(front, file)) by {
            if has_mod(front, file) {
                let k = choose|k: int| 0 <= k < front.len() && (#[trigger] front[k]).file_name@ == file;
                assert(mods[k].file_name@ == file);
            }
        }
        lemma_untouched(cache, front, file);
    }
}

/// A translation whose time is not over is never overwritten.
pub proof fn valid_translations_stay(
    cache: Map<Seq<char>, TranslationModel>,
    mods: Seq<LocalModInfo>,
    file: Seq<char>,
)
    requires
        cache.dom().contains(file),
        !cache[file].expired,
    ensures
        refreshed(cache, mods).dom().contains(file),
        refreshed(cache, mods)[file] == cache[file],
    decreases mods.len(),
{
    if mods.len() > 0 {
        valid_translations_stay(cache, mods.drop_last(), file);
    }
}

// ---------------------------------------------------------------------------------------------
// Other requests
// ---------------------------------------------------------------------------------------------
/// The address that launches an instance.
pub open spec fn launch_url_of(id: Seq<char>) -> Seq<char> {
    "bgumcl://launch?"@ + replaced(
        form_encoded(encode_utf8("id"@)).push('=') + form_encoded(encode_utf8(id)),
        "+"@,
        "%20"@,
    )
}

/// The address that launches an instance names it by its identity, encoded, where the encoding has no
/// plus sign.
pub proof fn instances_are_launched_by_their_identity(id: Seq<char>)
    requires
        !holds(form_encoded(encode_utf8("id"@)), '+'),
        !holds(form_encoded(encode_utf8(id)), '+'),
    ensures
        launch_url_of(id) == "bgumcl://launch?"@ + form_encoded(encode_utf8("id"@)) + "="@
            + form_encoded(encode_utf8(id)),
{
    reveal_strlit("+");
    reveal_strlit("=");
    let name = form_encoded(encode_utf8("id"@));
    let value = form_encoded(encode_utf8(id));
    let pair = name.push('=') + value;
    assert(!contains(pair, "+"@)) by {
        if contains(pair, "+"@) {
            let i = choose|i: int| occurs_at(pair, "+"@, i);
            assert(pair.subrange(i, i + 1)[0] == pair[i]);
            assert(pair[i] == '+');
            if i < name.len() {
                assert(name[i] == '+');
            } else {
                assert(value[i - name.len() - 1] == '+');
            }
        }
    }
    lemma_contains(pair, "+"@);
    assert("bgumcl://launch?"@ + pair =~= "bgumcl://launch?"@ + name + "="@ + value);
}

/// A space, which the encoding writes as a plus sign, stands as `%20` in the address.
pub proof fn spaces_are_written_with_percent_signs(id: Seq<char>, front: Seq<char>, back: Seq<char>)
    requires
        !holds(form_encoded(encode_utf8("id"@)), '+'),
        form_encoded(encode_utf8(id)) == front + "+"@ + back,
        !holds(front, '+'),
        !holds(back, '+'),
    ensures
        launch_url_of(id) == "bgumcl://launch?"@ + (form_encoded(encode_utf8("id"@)).push('=') + front
            + "%20"@ + back),
{
    reveal_strlit("+");
    let name = form_encoded(encode_utf8("id"@)).push('=');
    let before_it = name + front;
    let pair = name + (front + "+"@ + back);
    assert(pair =~= before_it + "+"@ + back);
    assert(!holds(before_it, '+')) by {
        if holds(before_it, '+') {
            let i = choose|i: int| 0 <= i < before_it.len() && #[trigger] before_it[i] == '+';
            if i < name.len() - 1 {
                assert(form_encoded(encode_utf8("id"@))[i] == '+');
            } else if i >= name.len() {
                assert(front[i - name.len()] == '+');
            }
        }
    }
    assert(!contains(back, "+"@)) by {
        if contains(back, "+"@) {
            let i = choose|i: int| occurs_at(back, "+"@, i);
            assert(back.subrange(i, i + 1)[0] == back[i]);
            assert(back[i] == '+');
        }
    }
    patterns_are_replaced_where_they_stand(before_it, "+"@, back, "%20"@);
}

/// The address that launches an instance.
pub fn launch_url(instance_id: &str) -> (r: String)
    ensures
        r@ == launch_url_of(instance_id@),
{
    proof {
        reveal_strlit("+");
    }
    let pair = form_pair("id", instance_id);
    let encoded = replace(pair.as_str(), "+", "%20");
    concat2("bgumcl://launch?", encoded.as_str())
}

/// What came of looking for the data of a world.
pub fn world_details_outcome(saves_known: bool, level_exists: bool, level_parsed: bool) -> (r: Result<
    (),
    InstanceError,
>)
    ensures
        r == (if !saves_known {
            Err::<(), InstanceError>(InstanceError::WorldNotExistError)
        } else if !level_exists {
            Err(InstanceError::LevelNotExistError)
        } else if !level_parsed {
            Err(InstanceError::LevelParseError)
        } else {
            Ok(())
        }),
{
    if !saves_known {
        Err(InstanceError::WorldNotExistError)
    } else if !level_exists {
        Err(InstanceError::LevelNotExistError)
    } else if !level_parsed {
        Err(InstanceError::LevelParseError)
    } else {
        Ok(())
    }
}

/// The files of a modpack to export: those selected that are there; not none.
pub fn files_to_export(selected: Vec<String>, exists: &Vec<bool>) -> (r: Result<
    Vec<String>,
    InstanceError,
>)
    requires
        exists.len() == selected.len(),
    ensures
        match r {
            Ok(files) => files@ == kept(selected@, exists@) && files@.len() > 0,
            Err(error) => kept(selected@, exists@).len() == 0 && error
                == InstanceError::ModpackManifestParseError,
        },
{
    let files = retain(selected, exists);
    if files.len() == 0 {
        Err(InstanceError::ModpackManifestParseError)
    } else {
        Ok(files)
    }
}

/// The file that holds the icon of an instance, if the icon to copy is a file that is there.
pub fn icon_target(instance: &Instance, source: SourceKind) -> (r: Result<TargetPath, InstanceError>)
    ensures
        match r {
            Ok(path) => source == SourceKind::File && path@ == instance@.version_path.child("icon"@),
            Err(error) => source != SourceKind::File && error == InstanceError::FileNotFoundError,
        },
{
    if matches!(source, SourceKind::File) {
        Ok(instance.version_path.child("icon"))
    } else {
        Err(InstanceError::FileNotFoundError)
    }
}

} // verus!
