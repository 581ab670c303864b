//! The settings with which the launcher is built.
use vstd::prelude::*;
use crate::text::{
    begins, chars_of, concat2, concat4, holds, opt_text, outer_marks_are_taken_off, parted,
    parts_make_up_the_text, pieces, prefixes_are_taken_off, same, split, split_once, starts_with,
    text_between, texts, texts_are_parted_at_the_first_mark, trim, trimmed, trimmed_start,
    trimmed_texts_end_in_no_mark, white_space,
};

verus! {

/// How the names of the settings begin.
pub const SETTING_PREFIX: &'static str = "BGUMCL_";

/// A setting.
#[derive(Debug)]
pub struct Setting {
    pub key: String,
    pub value: String,
}

/// A setting as texts.
pub open spec fn setting_view(s: Setting) -> (Seq<char>, Seq<char>) {
    (s.key@, s.value@)
}

/// Settings as texts.
pub open spec fn setting_views(v: Seq<Setting>) -> Seq<(Seq<char>, Seq<char>)> {
    v.map_values(|s: Setting| setting_view(s))
}

/// An optional setting as texts.
pub open spec fn opt_setting(s: Option<Setting>) -> Option<(Seq<char>, Seq<char>)> {
    match s {
        Some(s) => Some(setting_view(s)),
        None => None,
    }
}

/// A text without the double quotes around it.
pub open spec fn unquoted(s: Seq<char>) -> Seq<char> {
    if s.len() >= 2 && s[0] == '"' && s.last() == '"' {
        s.subrange(1, s.len() - 1)
    } else {
        s
    }
}

/// The setting that a line writes: `KEY = "value"`, with or without the quotes. Empty lines, lines
/// that begin with `#`, lines without an equals sign, other keys and empty values write none.
pub open spec fn setting_in(line: Seq<char>) -> Option<(Seq<char>, Seq<char>)> {
    let line = trimmed(line);
    if line.len() == 0 || line[0] == '#' {
        None
    } else {
        match parted(line, "="@) {
            None => None,
            Some((left, right)) => {
                let key = trimmed(left);
                let value = unquoted(trimmed(right));
                if starts_with(key, SETTING_PREFIX@) && value.len() > 0 {
                    Some((key, value))
                } else {
                    None
                }
            },
        }
    }
}

/// The settings that lines write, in their order.
pub open spec fn settings_in(lines: Seq<Seq<char>>) -> Seq<(Seq<char>, Seq<char>)>
    decreases lines.len(),
{
    if lines.len() == 0 {
        seq![]
    } else {
        let front = settings_in(lines.drop_last());
        match setting_in(lines.last()) {
            Some(s) => front.push(s),
            None => front,
        }
    }
}

fn unquote(s: String) -> (r: String)
    ensures
        r@ == unquoted(s@),
{
    let chars = chars_of(s.as_str());
    let n = chars.len();
    if n >= 2 && chars[0] == '"' && chars[n - 1] == '"' {
        let inner = text_between(&chars, 1, n - 1);
        assert(inner@ =~= s@.subrange(1, s@.len() - 1));
        inner
    } else {
        s
    }
}

/// The setting that a line writes, if it writes one.
pub fn parse_setting(line: &str) -> (r: Option<Setting>)
    ensures
        opt_setting(r) == setting_in(line@),
{
    let line = trim(line);
    let chars = chars_of(line.as_str());
    if chars.len() == 0 || chars[0] == '#' {
        return None;
    }
    let (left, right) = match split_once(line.as_str(), "=") {
        Some(pair) => pair,
        None => {
            return None;
        },
    };
    let key = trim(left.as_str());
    let value = unquote(trim(right.as_str()));
    if begins(key.as_str(), SETTING_PREFIX) && value.as_str().unicode_len() > 0 {
        Some(Setting { key, value })
    } else {
        None
    }
}

/// The settings that a file writes, in their order. A later setting of the same key stands behind
/// an earlier one, and overrides it.
pub fn load_env_file(content: &str) -> (r: Vec<Setting>)
    ensures
        setting_views(r@) == settings_in(pieces(content@, '\n')),
{
    let lines = split(content, '\n');
    let ghost all = texts(lines@);
    let mut out: Vec<Setting> = Vec::new();
    let mut i: usize = 0;
    assert(setting_views(out@) =~= settings_in(all.take(0)));
    while i < lines.len()
        invariant
            i <= lines.len(),
            all == texts(lines@),
            setting_views(out@) == settings_in(all.take(i as int)),
        decreases lines.len() - i,
    {
        let ghost so_far = setting_views(out@);
        let ghost upto = all.take(i + 1);
        assert(upto.drop_last() =~= all.take(i as int));
        assert(upto.last() == lines@[i as int]@);
        if let Some(setting) = parse_setting(lines[i].as_str()) {
            out.push(setting);
            assert(setting_views(out@) =~= so_far.push(setting_view(setting)));
        }
        i += 1;
    }
    assert(all.take(all.len() as int) =~= all);
    out
}

/// Whether a build lacks the CurseForge key: a release must have one, and other builds need none.
pub fn lacks_curseforge_key(build_type: &Option<String>, key: &Option<String>) -> (r: bool)
    ensures
        r == (opt_text(*build_type) == Some("release"@) && match opt_text(*key) {
            Some(key) => trimmed(key).len() == 0,
            None => true,
        }),
{
    let release = match build_type {
        Some(kind) => same(kind.as_str(), "release"),
        None => false,
    };
    let missing = match key {
        Some(key) => trim(key.as_str()).as_str().unicode_len() == 0,
        None => true,
    };
    release && missing
}

/// What is told to the build of a variable of the environment: nothing, unless it is a setting.
pub fn build_lines(key: &str, value: &str) -> (r: Vec<String>)
    ensures
        texts(r@) == (if starts_with(key@, SETTING_PREFIX@) {
            seq![
                "cargo:rerun-if-env-changed="@ + key@,
                "cargo:rustc-env="@ + key@ + "="@ + value@,
            ]
        } else {
            seq![]
        }),
{
    let mut out: Vec<String> = Vec::new();
    if begins(key, SETTING_PREFIX) {
        out.push(concat2("cargo:rerun-if-env-changed=", key));
        out.push(concat4("cargo:rustc-env=", key, "=", value));
        assert(texts(out@) =~= seq![
            "cargo:rerun-if-env-changed="@ + key@,
            "cargo:rustc-env="@ + key@ + "="@ + value@,
        ]);
    } else {
        assert(texts(out@) =~= Seq::<Seq<char>>::empty());
    }
    out
}

/// A setting is read as it was written, with or without double quotes around its value.
pub proof fn settings_are_read_as_written(key: Seq<char>, value: Seq<char>)
    requires
        SETTING_PREFIX@.is_prefix_of(key),
        !holds(key, '='),
        !white_space(key.last()),
        value.len() > 0,
        !white_space(value[0]),
        !white_space(value.last()),
        value[0] != '"',
    ensures
        setting_in(key + "="@ + value) == Some((key, value)),
        setting_in(key + "="@ + (seq!['"'] + value + seq!['"'])) == Some((key, value)),
{
    reveal_strlit("BGUMCL_");
    reveal_strlit("=");
    let quoted = seq!['"'] + value + seq!['"'];
    assert(key[0] == SETTING_PREFIX@[0]);
    assert(unquoted(quoted) =~= value);
    lemma_written_setting(key, value);
    lemma_written_setting(key, quoted);
}

proof fn lemma_written_setting(key: Seq<char>, written: Seq<char>)
    requires
        SETTING_PREFIX@.is_prefix_of(key),
        !holds(key, '='),
        !white_space(key.last()),
        written.len() > 0,
        !white_space(written[0]),
        !white_space(written.last()),
        unquoted(written).len() > 0,
    ensures
        setting_in(key + "="@ + written) == Some((key, unquoted(written))),
{
    reveal_strlit("BGUMCL_");
    reveal_strlit("=");
    let line = key + "="@ + written;
    assert(key[0] == SETTING_PREFIX@[0]);
    assert(line[0] == key[0]);
    assert(line.last() == written.last());
    outer_marks_are_taken_off(line);
    outer_marks_are_taken_off(key);
    outer_marks_are_taken_off(written);
    assert("="@[0] == '=');
    texts_are_parted_at_the_first_mark(key, "="@, written);
    prefixes_are_taken_off(key, SETTING_PREFIX@);
}

/// Comments, lines without an equals sign, and settings of others write nothing.
pub proof fn other_lines_write_nothing(line: Seq<char>)
    ensures
        line.len() > 0 && line[0] == '#' ==> setting_in(line) is None,
        !holds(line, '=') ==> setting_in(line) is None,
        setting_in(line) matches Some((key, value)) ==> SETTING_PREFIX@.is_prefix_of(key),
{
    reveal_strlit("=");
    let drop = |c: char| white_space(c);
    trimmed_texts_end_in_no_mark(line, drop);
    let at = line.len() - trimmed_start(line, drop).len();
    let inner = trimmed(line);
    parts_make_up_the_text(inner, "="@);
    if line.len() > 0 && line[0] == '#' {
        assert(!drop(line[0]));
        if inner.len() > 0 {
            assert(at == 0);
            assert(line.subrange(at, at + inner.len())[0] == line[0]);
        }
    }
    if !holds(line, '=') && holds(inner, '=') {
        let i = choose|i: int| 0 <= i < inner.len() && #[trigger] inner[i] == '=';
        assert(line.subrange(at, at + inner.len())[i] == line[at + i]);
        assert(line[at + i] == '=');
    }
    if let Some((key, _)) = setting_in(line) {
        prefixes_are_taken_off(key, SETTING_PREFIX@);
    }
}

/// Lines are read one after the other: the settings of the first lines stand before those of the
/// rest, every line that writes a setting gives it, and no other line gives one.
pub proof fn lines_are_read_in_turn(first: Seq<Seq<char>>, rest: Seq<Seq<char>>, line: Seq<char>)
    ensures
        settings_in(first + rest) == settings_in(first) + settings_in(rest),
        setting_in(line) matches Some(setting) ==> settings_in(seq![line]) == seq![setting],
        setting_in(line) is None ==> settings_in(seq![line]).len() == 0,
    decreases rest.len(),
{
    assert(seq![line].drop_last() =~= Seq::<Seq<char>>::empty());
    assert(settings_in(Seq::<Seq<char>>::empty()) =~= Seq::<(Seq<char>, Seq<char>)>::empty());
    if setting_in(line) is Some {
        assert(settings_in(seq![line]) =~= seq![setting_in(line)->0]);
    }
    if rest.len() == 0 {
        assert(first + rest =~= first);
        assert(rest =~= Seq::<Seq<char>>::empty());
        assert(settings_in(first) + settings_in(rest) =~= settings_in(first));
    } else {
        let front = rest.drop_last();
        lines_are_read_in_turn(first, front, line);
        assert((first + rest).drop_last() =~= first + front);
        assert((first + rest).last() == rest.last());
        assert(settings_in(first + rest) =~= settings_in(first) + settings_in(rest));
    }
}

/// Every setting that a file writes is a setting of the launcher, and none is empty.
pub proof fn only_launcher_settings_are_read(lines: Seq<Seq<char>>, i: int)
    requires
        0 <= i < settings_in(lines).len(),
    ensures
        starts_with(settings_in(lines)[i].0, SETTING_PREFIX@),
        settings_in(lines)[i].1.len() > 0,
    decreases lines.len(),
{
    let front = settings_in(lines.drop_last());
    if i < front.len() {
        only_launcher_settings_are_read(lines.drop_last(), i);
    }
}

} // verus!
