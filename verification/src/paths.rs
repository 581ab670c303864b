//! Paths, as a directory known elsewhere and the names that lead on from it.
use vstd::prelude::*;
use crate::error::{BGUMCLError, BGUMCLResult};
use crate::external::backslash_separates;
use crate::text::{
    before, chars_of, concat2, copied, joined, last_index_of, opt_text, pieces, replace, replaced,
    replaced_characters_keep_their_places, rsplit_once, same, split, texts,
};

verus! {

/// A path: a base that only the file system understands, and the names joined to it in order.
#[derive(Debug)]
pub struct TargetPath {
    pub base: String,
    pub segments: Vec<String>,
}

/// A path as texts.
#[verifier::ext_equal]
pub struct PathModel {
    pub base: Seq<char>,
    pub segments: Seq<Seq<char>>,
}

impl PathModel {
    /// The path one name further on.
    pub open spec fn child(self, name: Seq<char>) -> PathModel {
        PathModel { base: self.base, segments: self.segments.push(name) }
    }
}

impl View for TargetPath {
    type V = PathModel;

    open spec fn view(&self) -> PathModel {
        PathModel { base: self.base@, segments: texts(self.segments@) }
    }
}

/// The path that is just a base.
pub open spec fn base_path(base: Seq<char>) -> PathModel {
    PathModel { base, segments: seq![] }
}

impl TargetPath {
    /// The path that is just a base.
    pub fn at(base: &str) -> (r: Self)
        ensures
            r@ == base_path(base@),
    {
        let r = TargetPath { base: base.to_owned(), segments: Vec::new() };
        assert(r@ =~= base_path(base@));
        r
    }

    /// The path one name further on.
    pub fn child(&self, name: &str) -> (r: Self)
        ensures
            r@ == self@.child(name@),
    {
        let mut segments = copied(&self.segments);
        let ghost before = texts(segments@);
        segments.push(name.to_owned());
        assert(texts(segments@) =~= before.push(name@));
        TargetPath { base: self.base.clone(), segments }
    }

    /// The same path.
    pub fn duplicate(&self) -> (r: Self)
        ensures
            r@ == self@,
    {
        TargetPath { base: self.base.clone(), segments: copied(&self.segments) }
    }
}

// ---------------------------------------------------------------------------------------------
// Paths that lead nowhere else
// ---------------------------------------------------------------------------------------------
/// A path with its backslashes as slashes.
pub open spec fn with_slashes(path: Seq<char>) -> Seq<char> {
    replaced(path, "\\"@, "/"@)
}

/// The names of a path: between slashes, and on Windows between backslashes too.
pub open spec fn names_of(path: Seq<char>, windows: bool) -> Seq<Seq<char>> {
    if windows {
        pieces(with_slashes(path), '/')
    } else {
        pieces(path, '/')
    }
}

/// A path that begins with a drive of Windows.
pub open spec fn begins_with_drive(path: Seq<char>) -> bool {
    path.len() >= 2 && ('a' <= path[0] <= 'z' || 'A' <= path[0] <= 'Z') && path[1] == ':'
}

/// A path of ordinary names only: not empty, not from a root or a drive, with no name that leads
/// up, and not beginning with the name of the place where it starts.
pub open spec fn plain_path(path: Seq<char>, windows: bool) -> bool {
    let names = pieces(path, '/');
    &&& path.len() > 0
    &&& path[0] != '/'
    &&& !(windows && begins_with_drive(path))
    &&& !names.contains(".."@)
    &&& names[0] != "."@
}

/// The message for a path that leads out of a modpack.
pub open spec fn unsafe_path_message(path: Seq<char>) -> Seq<char> {
    "Unsafe path in modpack manifest: "@ + path
}

/// A path of a modpack with slashes, or the message that refuses it.
pub open spec fn sanitized_path(path: Seq<char>, windows: bool) -> Result<Seq<char>, Seq<char>> {
    if plain_path(with_slashes(path), windows) {
        Ok(with_slashes(path))
    } else {
        Err(unsafe_path_message(path))
    }
}

/// The result of checking a path, as texts.
pub open spec fn text_result(r: BGUMCLResult<String>) -> Result<Seq<char>, Seq<char>> {
    match r {
        Ok(s) => Ok(s@),
        Err(e) => Err(e@),
    }
}

fn holds(list: &Vec<String>, name: &str) -> (r: bool)
    ensures
        r == texts(list@).contains(name@),
{
    crate::text::among(list, name)
}

/// A path of a modpack with slashes, by the rules of Windows or of the other systems.
pub fn sanitize_relative_path_for(path: &str, windows: bool) -> (r: BGUMCLResult<String>)
    ensures
        text_result(r) == sanitized_path(path@, windows),
{
    proof {
        reveal_strlit("\\");
    }
    let normalized = replace(path, "\\", "/");
    let chars = chars_of(normalized.as_str());
    let names = split(normalized.as_str(), '/');
    assert(texts(names@)[0] == names@[0]@);
    let drive = chars.len() >= 2 && ((chars[0] >= 'a' && chars[0] <= 'z') || (chars[0] >= 'A'
        && chars[0] <= 'Z')) && chars[1] == ':';
    let plain = chars.len() > 0 && chars[0] != '/' && !(windows && drive) && !holds(&names, "..")
        && !same(names[0].as_str(), ".");
    if plain {
        Ok(normalized)
    } else {
        Err(BGUMCLError(concat2("Unsafe path in modpack manifest: ", path)))
    }
}

/// A path of a modpack with slashes, by the rules of the system; refused where it could lead out
/// of the modpack.
pub fn sanitize_relative_path(path: &str) -> (r: BGUMCLResult<String>)
    ensures
        exists|windows: bool| text_result(r) == #[trigger] sanitized_path(path@, windows),
{
    let windows = backslash_separates();
    sanitize_relative_path_for(path, windows)
}

/// A path inside a modpack archive that can be written below a directory: not empty, not from a
/// root or a drive, and with no name that leads up.
pub open spec fn safe_archive_path(path: Seq<char>, windows: bool) -> bool {
    &&& path.len() > 0
    &&& path[0] != '/'
    &&& path[0] != '\\'
    &&& !(path.len() >= 2 && (path[0] as u32) < 0x80 && path[1] == ':')
    &&& !names_of(path, windows).contains(".."@)
}

/// Whether a path inside a modpack archive can be written below a directory, by the rules of
/// Windows or of the other systems.
pub fn is_safe_relative_modpack_path_for(path: &str, windows: bool) -> (r: bool)
    ensures
        r == safe_archive_path(path@, windows),
{
    proof {
        reveal_strlit("\\");
    }
    let chars = chars_of(path);
    if chars.len() == 0 || chars[0] == '/' || chars[0] == '\\' {
        return false;
    }
    if chars.len() >= 2 && (chars[0] as u32) < 0x80 && chars[1] == ':' {
        return false;
    }
    let names = if windows {
        let slashed = replace(path, "\\", "/");
        split(slashed.as_str(), '/')
    } else {
        split(path, '/')
    };
    !holds(&names, "..")
}

/// Whether a path inside a modpack archive can be written below a directory, by the rules of the
/// system.
pub fn is_safe_relative_modpack_path(path: &str) -> (r: bool)
    ensures
        exists|windows: bool| r == #[trigger] safe_archive_path(path@, windows),
{
    let windows = backslash_separates();
    is_safe_relative_modpack_path_for(path, windows)
}

/// How far below its start a path has come after its first `n` names; below zero where it has
/// left it.
pub open spec fn depth_after(names: Seq<Seq<char>>, n: int) -> int
    decreases n,
{
    if n <= 0 {
        0
    } else {
        depth_after(names, n - 1) + (if names[n - 1] == ".."@ {
            -1int
        } else if names[n - 1] == "."@ || names[n - 1].len() == 0 {
            0
        } else {
            1
        })
    }
}

proof fn lemma_no_way_up(names: Seq<Seq<char>>, n: int)
    requires
        !names.contains(".."@),
        0 <= n <= names.len(),
    ensures
        depth_after(names, n) >= 0,
    decreases n,
{
    if n > 0 {
        lemma_no_way_up(names, n - 1);
        assert(names[n - 1] != ".."@) by {
            if names[n - 1] == ".."@ {
                assert(names.contains(names[n - 1]));
            }
        }
    }
}

/// A path of a modpack that is accepted never leaves the directory below which it starts, on any
/// system and after any of its names.
pub proof fn accepted_modpack_paths_stay_inside(path: Seq<char>, windows: bool, n: int)
    requires
        sanitized_path(path, windows) is Ok,
        0 <= n <= pieces(with_slashes(path), '/').len(),
    ensures
        sanitized_path(path, windows)->Ok_0 == with_slashes(path),
        depth_after(pieces(with_slashes(path), '/'), n) >= 0,
{
    lemma_no_way_up(pieces(with_slashes(path), '/'), n);
}

/// A path inside an archive that is accepted never leaves the directory below which it is
/// written, after any of its names.
pub proof fn accepted_archive_paths_stay_inside(path: Seq<char>, windows: bool, n: int)
    requires
        safe_archive_path(path, windows),
        0 <= n <= names_of(path, windows).len(),
    ensures
        depth_after(names_of(path, windows), n) >= 0,
{
    lemma_no_way_up(names_of(path, windows), n);
}

/// A name that leads nowhere else: it is not empty, holds no slash of either kind and no colon, and is
/// neither of the names that stand for directories.
pub open spec fn ordinary_name(name: Seq<char>) -> bool {
    &&& name.len() > 0
    &&& forall|i: int|
        0 <= i < name.len() ==> #[trigger] name[i] != '/' && name[i] != '\\' && name[i] != ':'
    &&& name != "."@
    &&& name != ".."@
}

/// A path of ordinary names, however many, is accepted as it is, on every system: in a manifest and
/// inside an archive. So is one that is written with backslashes, in a manifest.
pub proof fn ordinary_paths_are_accepted(names: Seq<Seq<char>>, windows: bool)
    requires
        names.len() > 0,
        forall|i: int| 0 <= i < names.len() ==> ordinary_name(#[trigger] names[i]),
    ensures
        safe_archive_path(joined(names, '/'), windows),
        sanitized_path(joined(names, '/'), windows) == Ok::<Seq<char>, Seq<char>>(
            joined(names, '/'),
        ),
        sanitized_path(joined(names, '\\'), windows) == Ok::<Seq<char>, Seq<char>>(
            joined(names, '/'),
        ),
{
    reveal_strlit("\\");
    reveal_strlit("/");
    let path = joined(names, '/');
    let back = joined(names, '\\');
    assert forall|i: int| 0 <= i < names.len() implies !crate::text::holds(#[trigger] names[i], '/') by {
        assert(ordinary_name(names[i]));
    }
    crate::text::joined_texts_come_apart(names, '/');
    lemma_joined_names(names, '/');
    lemma_joined_names(names, '\\');
    replaced_characters_keep_their_places(path, "\\"@, "/"@);
    replaced_characters_keep_their_places(back, "\\"@, "/"@);
    assert(with_slashes(path) =~= path);
    assert(with_slashes(back) =~= path);
    assert(!names.contains(".."@)) by {
        if names.contains(".."@) {
            let i = choose|i: int| 0 <= i < names.len() && names[i] == ".."@;
            assert(ordinary_name(names[i]));
        }
    }
    assert(ordinary_name(names[0]));
}

/// The characters of joined names: those of the names, and the marks between them. The first is that
/// of the first name, and the second is no colon.
proof fn lemma_joined_names(names: Seq<Seq<char>>, c: char)
    requires
        names.len() > 0,
        c == '/' || c == '\\',
        forall|i: int| 0 <= i < names.len() ==> ordinary_name(#[trigger] names[i]),
    ensures
        joined(names, c).len() == joined(names, '/').len(),
        joined(names, c).len() > 0,
        joined(names, c)[0] == names[0][0],
        joined(names, c).len() > 1 ==> joined(names, c)[1] != ':',
        forall|i: int|
            0 <= i < joined(names, c).len() ==> (#[trigger] joined(names, c)[i] == (if joined(
                names,
                '/',
            )[i] == '/' {
                c
            } else {
                joined(names, '/')[i]
            })),
        c == '/' ==> forall|i: int|
            0 <= i < joined(names, c).len() ==> #[trigger] joined(names, c)[i] != '\\',
    decreases names.len(),
{
    let last = names.last();
    assert(ordinary_name(last));
    if names.len() > 1 {
        let front = names.drop_last();
        assert forall|i: int| 0 <= i < front.len() implies ordinary_name(#[trigger] front[i]) by {
            assert(front[i] == names[i]);
        }
        lemma_joined_names(front, c);
        lemma_joined_names(front, '/');
        let a = joined(front, c);
        let b = joined(front, '/');
        let n = a.len() as int;
        assert(joined(names, c) == a.push(c) + last);
        assert(joined(names, '/') == b.push('/') + last);
        assert forall|i: int| 0 <= i < joined(names, c).len() implies (#[trigger] joined(names, c)[i]
            == (if joined(names, '/')[i] == '/' {
            c
        } else {
            joined(names, '/')[i]
        })) && (c == '/' ==> joined(names, c)[i] != '\\') by {
            if i < n {
                assert(joined(names, c)[i] == a[i] && joined(names, '/')[i] == b[i]);
            } else if i > n {
                assert(joined(names, c)[i] == last[i - n - 1]);
                assert(joined(names, '/')[i] == last[i - n - 1]);
            }
        }
        assert(front[0] == names[0]);
        if n > 1 {
            assert(joined(names, c)[1] == a[1]);
        }
    }
}

/// A path that leads up, that begins at a root or on a drive, or that is empty, is refused; a refusal
/// tells the path.
pub proof fn paths_that_lead_elsewhere_are_refused(path: Seq<char>, windows: bool, i: int)
    requires
        0 <= i < pieces(with_slashes(path), '/').len(),
    ensures
        pieces(with_slashes(path), '/')[i] == ".."@ ==> sanitized_path(path, windows) is Err,
        pieces(with_slashes(path), '/')[0] == "."@ ==> sanitized_path(path, windows) is Err,
        path.len() == 0 ==> sanitized_path(path, windows) is Err && !safe_archive_path(path, windows),
        path.len() > 0 && (path[0] == '/' || path[0] == '\\') ==> sanitized_path(path, windows) is Err
            && !safe_archive_path(path, windows),
        path.len() > 1 && ('a' <= path[0] <= 'z' || 'A' <= path[0] <= 'Z') && path[1] == ':'
            ==> !safe_archive_path(path, windows) && (windows ==> sanitized_path(path, windows) is Err),
        sanitized_path(path, windows) matches Err(message) ==> message
            == "Unsafe path in modpack manifest: "@ + path,
{
    reveal_strlit("\\");
    reveal_strlit("/");
    replaced_characters_keep_their_places(path, "\\"@, "/"@);
    let names = pieces(with_slashes(path), '/');
    assert(names.contains(names[i]));
}

// ---------------------------------------------------------------------------------------------
// File names
// ---------------------------------------------------------------------------------------------
/// A file name is its stem, a dot and its extension; the extension holds no dot. A name without a dot,
/// or whose only dot is its first character, is all stem.
pub proof fn file_names_part_at_the_last_dot(stem: Seq<char>, extension: Seq<char>, name: Seq<char>)
    requires
        stem.len() > 0,
        !crate::text::holds(extension, '.'),
        !crate::text::holds(name, '.'),
    ensures
        stem_and_extension(stem + "."@ + extension) == (stem, Some(extension)),
        stem_and_extension(name) == (name, None::<Seq<char>>),
        stem_and_extension("."@ + name) == ("."@ + name, None::<Seq<char>>),
{
    reveal_strlit(".");
    let s = stem + "."@ + extension;
    let hidden = "."@ + name;
    crate::text::parts_make_up_the_text(s, "."@);
    crate::text::parts_make_up_the_text(name, "."@);
    crate::text::parts_make_up_the_text(hidden, "."@);
    crate::text::lemma_last_index_to(s, "."@, s.len() - 1);
    crate::text::lemma_last_index_to(hidden, "."@, hidden.len() - 1);
    let at = stem.len() as int;
    assert(s[at] == '.');
    let i = last_index_of(s, "."@)->0;
    assert(s.subrange(i, i + 1)[0] == s[i]);
    if i < at {
        assert(s.skip(i + 1)[at - i - 1] == '.');
    } else if i > at {
        assert(extension[i - at - 1] == s[i]);
    }
    assert(s.take(at) =~= stem);
    assert(s.skip(at + 1) =~= extension);
    if let Some(k) = last_index_of(hidden, "."@) {
        assert(hidden.subrange(k, k + 1)[0] == hidden[k]);
        if k > 0 {
            assert(name[k - 1] == '.');
        }
    }
}

/// A file name as its stem and its extension: they part at the last dot, unless there is none or
/// the name begins with its only one.
pub open spec fn stem_and_extension(name: Seq<char>) -> (Seq<char>, Option<Seq<char>>) {
    match last_index_of(name, "."@) {
        Some(i) => if i > 0 {
            (name.take(i), Some(name.skip(i + 1)))
        } else {
            (name, None)
        },
        None => (name, None),
    }
}

/// The stem and the extension of a file name. The names of the current and the parent directory
/// are no file names.
pub fn split_file_name(name: &str) -> (r: (String, Option<String>))
    ensures
        (r.0@, opt_text(r.1)) == stem_and_extension(name@),
{
    proof {
        reveal_strlit(".");
        crate::text::lemma_last_index_to(name@, "."@, name@.len() - 1);
    }
    match rsplit_once(name, ".") {
        Some((stem, extension)) => {
            if stem.as_str().unicode_len() > 0 {
                (stem, Some(extension))
            } else {
                (name.to_owned(), None)
            }
        },
        None => (name.to_owned(), None),
    }
}

} // verus!
