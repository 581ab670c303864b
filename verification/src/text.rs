//! Searching, cutting and building text, stated over sequences of characters.
//!
//! Positions count characters. Every function here is total: a search that finds nothing says so
//! in its result.
use vstd::prelude::*;

verus! {

/// `std::string::String::push` appends one character at the end of the text.
pub assume_specification[ String::push ](s: &mut String, c: char)
    ensures
        final(s)@ == old(s)@.push(c),
;

/// `char::is_whitespace` tells whether a character has the Unicode property White_Space; these
/// are the characters that have it.
pub assume_specification[ char::is_whitespace ](c: char) -> (r: bool)
    ensures
        r == white_space(c),
;

/// The characters with the Unicode property White_Space.
pub open spec fn white_space(c: char) -> bool {
    let n = c as int;
    ||| 0x9 <= n <= 0xD
    ||| n == 0x20
    ||| n == 0x85
    ||| n == 0xA0
    ||| n == 0x1680
    ||| 0x2000 <= n <= 0x200A
    ||| n == 0x2028
    ||| n == 0x2029
    ||| n == 0x202F
    ||| n == 0x205F
    ||| n == 0x3000
}

// ---------------------------------------------------------------------------------------------
// What the operations mean
// ---------------------------------------------------------------------------------------------
/// `pattern` stands in `s` with its first character at position `i`.
pub open spec fn occurs_at(s: Seq<char>, pattern: Seq<char>, i: int) -> bool {
    0 <= i && i + pattern.len() <= s.len() && s.subrange(i, i + pattern.len()) == pattern
}

/// The first position at or after `k` at which `pattern` stands in `s`.
pub open spec fn index_from(s: Seq<char>, pattern: Seq<char>, k: int) -> Option<int>
    decreases s.len() - k + 1,
{
    if k < 0 || k + pattern.len() > s.len() {
        None
    } else if occurs_at(s, pattern, k) {
        Some(k)
    } else {
        index_from(s, pattern, k + 1)
    }
}

/// The first position at which `pattern` stands in `s`.
pub open spec fn index_of(s: Seq<char>, pattern: Seq<char>) -> Option<int> {
    index_from(s, pattern, 0)
}

/// The last position at or before `k` at which `pattern` stands in `s`.
pub open spec fn last_index_to(s: Seq<char>, pattern: Seq<char>, k: int) -> Option<int>
    decreases k + 1,
{
    if k < 0 {
        None
    } else if occurs_at(s, pattern, k) {
        Some(k)
    } else {
        last_index_to(s, pattern, k - 1)
    }
}

/// The last position at which `pattern` stands in `s`.
pub open spec fn last_index_of(s: Seq<char>, pattern: Seq<char>) -> Option<int> {
    last_index_to(s, pattern, s.len() - pattern.len())
}

/// `pattern` stands somewhere in `s`.
pub open spec fn contains(s: Seq<char>, pattern: Seq<char>) -> bool {
    exists|i: int| occurs_at(s, pattern, i)
}

/// `s` begins with `pattern`.
pub open spec fn starts_with(s: Seq<char>, pattern: Seq<char>) -> bool {
    occurs_at(s, pattern, 0)
}

/// `s` ends with `pattern`.
pub open spec fn ends_with(s: Seq<char>, pattern: Seq<char>) -> bool {
    occurs_at(s, pattern, s.len() - pattern.len())
}

/// What follows `pattern` at the beginning of `s`.
pub open spec fn without_prefix(s: Seq<char>, pattern: Seq<char>) -> Option<Seq<char>> {
    if starts_with(s, pattern) {
        Some(s.skip(pattern.len() as int))
    } else {
        None
    }
}

/// What precedes `pattern` at the end of `s`.
pub open spec fn without_suffix(s: Seq<char>, pattern: Seq<char>) -> Option<Seq<char>> {
    if ends_with(s, pattern) {
        Some(s.take(s.len() - pattern.len()))
    } else {
        None
    }
}

/// The parts of `s` before and after the first `pattern`.
pub open spec fn parted(s: Seq<char>, pattern: Seq<char>) -> Option<(Seq<char>, Seq<char>)> {
    match index_of(s, pattern) {
        Some(i) => Some((s.take(i), s.skip(i + pattern.len()))),
        None => None,
    }
}

/// The parts of `s` before and after the last `pattern`.
pub open spec fn parted_at_last(s: Seq<char>, pattern: Seq<char>) -> Option<(Seq<char>, Seq<char>)> {
    match last_index_of(s, pattern) {
        Some(i) => Some((s.take(i), s.skip(i + pattern.len()))),
        None => None,
    }
}

/// `s` with every `from`, sought from the left and without overlap, put as `to`.
pub open spec fn replaced(s: Seq<char>, from: Seq<char>, to: Seq<char>) -> Seq<char>
    decreases s.len(),
{
    match index_of(s, from) {
        Some(i) => if 0 <= i && 0 < from.len() && i + from.len() <= s.len() {
            s.take(i) + to + replaced(s.skip(i + from.len()), from, to)
        } else {
            s
        },
        None => s,
    }
}

/// `s` without the `c` at its end.
pub open spec fn without_trailing(s: Seq<char>, c: char) -> Seq<char>
    decreases s.len(),
{
    if s.len() > 0 && s.last() == c {
        without_trailing(s.drop_last(), c)
    } else {
        s
    }
}

/// `s` without the `c` at its beginning.
pub open spec fn without_leading(s: Seq<char>, c: char) -> Seq<char>
    decreases s.len(),
{
    if s.len() > 0 && s[0] == c {
        without_leading(s.skip(1), c)
    } else {
        s
    }
}

/// A slash of either kind.
pub open spec fn slash(c: char) -> bool {
    c == '/' || c == '\\'
}

/// `s` without what of `drop` stands at its end.
pub open spec fn trimmed_end(s: Seq<char>, drop: spec_fn(char) -> bool) -> Seq<char>
    decreases s.len(),
{
    if s.len() > 0 && drop(s.last()) {
        trimmed_end(s.drop_last(), drop)
    } else {
        s
    }
}

/// `s` without what of `drop` stands at its beginning.
pub open spec fn trimmed_start(s: Seq<char>, drop: spec_fn(char) -> bool) -> Seq<char>
    decreases s.len(),
{
    if s.len() > 0 && drop(s[0]) {
        trimmed_start(s.skip(1), drop)
    } else {
        s
    }
}

/// `s` without the white space on both ends.
pub open spec fn trimmed(s: Seq<char>) -> Seq<char> {
    trimmed_end(trimmed_start(s, |c: char| white_space(c)), |c: char| white_space(c))
}

/// `s` without the slashes on both ends.
pub open spec fn without_outer_slashes(s: Seq<char>) -> Seq<char> {
    trimmed_end(trimmed_start(s, |c: char| slash(c)), |c: char| slash(c))
}

/// The pieces of `s` between the `c` in it; a text without `c` is one piece.
pub open spec fn pieces(s: Seq<char>, c: char) -> Seq<Seq<char>>
    decreases s.len(),
{
    match index_of(s, seq![c]) {
        Some(i) => if 0 <= i < s.len() {
            seq![s.take(i)] + pieces(s.skip(i + 1), c)
        } else {
            seq![s]
        },
        None => seq![s],
    }
}

/// The texts of `parts`, one after the other with `c` between two.
pub open spec fn joined(parts: Seq<Seq<char>>, c: char) -> Seq<char>
    decreases parts.len(),
{
    if parts.len() == 0 {
        seq![]
    } else if parts.len() == 1 {
        parts[0]
    } else {
        joined(parts.drop_last(), c).push(c) + parts.last()
    }
}

/// An ASCII capital as its small letter, another character as it is.
pub open spec fn lower_char(c: char) -> char {
    if 'A' <= c <= 'Z' {
        ((c as u8) + 32) as char
    } else {
        c
    }
}

/// `s` with its ASCII capitals as small letters.
pub open spec fn lower(s: Seq<char>) -> Seq<char> {
    s.map_values(|c: char| lower_char(c))
}

/// An ASCII small letter as its capital, another character as it is.
pub open spec fn upper_char(c: char) -> char {
    if 'a' <= c <= 'z' {
        ((c as u8) - 32) as char
    } else {
        c
    }
}

/// The character of a decimal digit.
pub open spec fn digit_char(d: nat) -> char {
    ((d % 10) + 48) as u8 as char
}

/// A number written in decimal.
pub open spec fn decimal(n: nat) -> Seq<char>
    decreases n,
{
    if n < 10 {
        seq![digit_char(n)]
    } else {
        decimal(n / 10).push(digit_char(n % 10))
    }
}

/// A number, negative or not, written in decimal.
pub open spec fn signed_decimal(n: int) -> Seq<char> {
    if n < 0 {
        seq!['-'] + decimal((-n) as nat)
    } else {
        decimal(n as nat)
    }
}

/// `c` is an ASCII digit.
pub open spec fn is_digit(c: char) -> bool {
    '0' <= c <= '9'
}

/// Every character is an ASCII digit.
pub open spec fn all_digits(s: Seq<char>) -> bool {
    forall|i: int| 0 <= i < s.len() ==> is_digit(#[trigger] s[i])
}

/// The number that a sequence of digits writes.
pub open spec fn value_of(s: Seq<char>) -> nat
    decreases s.len(),
{
    if s.len() == 0 {
        0
    } else {
        (10 * value_of(s.drop_last()) + (s.last() as int - 48)) as nat
    }
}

/// The unsigned number that `s` writes, with an optional plus sign, if it is at most `max`.
pub open spec fn unsigned_value(s: Seq<char>, max: nat) -> Option<nat> {
    let body = if s.len() > 0 && s[0] == '+' {
        s.skip(1)
    } else {
        s
    };
    if body.len() > 0 && all_digits(body) && value_of(body) <= max {
        Some(value_of(body))
    } else {
        None
    }
}

/// The number that `s` writes, with an optional sign, if an `i64` holds it.
pub open spec fn i64_value(s: Seq<char>) -> Option<int> {
    let negative = s.len() > 0 && s[0] == '-';
    let body = if s.len() > 0 && (s[0] == '+' || s[0] == '-') {
        s.skip(1)
    } else {
        s
    };
    if body.len() == 0 || !all_digits(body) {
        None
    } else if negative {
        if value_of(body) <= 0x8000_0000_0000_0000 {
            Some(-(value_of(body) as int))
        } else {
            None
        }
    } else if value_of(body) <= i64::MAX {
        Some(value_of(body) as int)
    } else {
        None
    }
}

/// `a` comes before `b` in the order of dictionaries: the first difference decides, and a text
/// comes after its own beginnings.
pub open spec fn before(a: Seq<char>, b: Seq<char>) -> bool
    decreases a.len(),
{
    if b.len() == 0 {
        false
    } else if a.len() == 0 {
        true
    } else if a[0] != b[0] {
        a[0] < b[0]
    } else {
        before(a.skip(1), b.skip(1))
    }
}

/// The texts that a sequence of strings holds.
pub open spec fn texts(v: Seq<String>) -> Seq<Seq<char>> {
    v.map_values(|s: String| s@)
}

/// The text that an optional string holds.
pub open spec fn opt_text(v: Option<String>) -> Option<Seq<char>> {
    match v {
        Some(s) => Some(s@),
        None => None,
    }
}

/// The texts without those that stand earlier in the list already.
pub open spec fn distinct(list: Seq<Seq<char>>) -> Seq<Seq<char>>
    decreases list.len(),
{
    if list.len() == 0 {
        seq![]
    } else {
        let front = distinct(list.drop_last());
        if front.contains(list.last()) {
            front
        } else {
            front.push(list.last())
        }
    }
}

// ---------------------------------------------------------------------------------------------
// Facts about them
// ---------------------------------------------------------------------------------------------
/// A search from the left finds the first place, and finds one if there is one.
pub proof fn lemma_index_from(s: Seq<char>, pattern: Seq<char>, k: int)
    requires
        0 <= k,
    ensures
        match index_from(s, pattern, k) {
            Some(i) => k <= i && occurs_at(s, pattern, i) && forall|j: int|
                k <= j < i ==> !#[trigger] occurs_at(s, pattern, j),
            None => forall|j: int| k <= j ==> !#[trigger] occurs_at(s, pattern, j),
        },
    decreases s.len() - k + 1,
{
    if k + pattern.len() <= s.len() && !occurs_at(s, pattern, k) {
        lemma_index_from(s, pattern, k + 1);
    }
}

/// A search from the right finds the last place, and finds one if there is one.
pub proof fn lemma_last_index_to(s: Seq<char>, pattern: Seq<char>, k: int)
    ensures
        match last_index_to(s, pattern, k) {
            Some(i) => 0 <= i <= k && occurs_at(s, pattern, i) && forall|j: int|
                i < j <= k ==> !#[trigger] occurs_at(s, pattern, j),
            None => forall|j: int| j <= k ==> !#[trigger] occurs_at(s, pattern, j),
        },
    decreases k + 1,
{
    if 0 <= k && !occurs_at(s, pattern, k) {
        lemma_last_index_to(s, pattern, k - 1);
    }
}

/// A text contains a pattern exactly when a search for it finds a place.
pub proof fn lemma_contains(s: Seq<char>, pattern: Seq<char>)
    ensures
        contains(s, pattern) <==> index_of(s, pattern) is Some,
{
    lemma_index_from(s, pattern, 0);
    if contains(s, pattern) {
        let i = choose|i: int| occurs_at(s, pattern, i);
        assert(occurs_at(s, pattern, i));
    }
}

/// Leaving out repetitions keeps every text, adds none, and leaves each once.
pub proof fn distinct_keeps_texts(list: Seq<Seq<char>>)
    ensures
        distinct(list).no_duplicates(),
        distinct(list).len() <= list.len(),
        list.len() > 0 ==> distinct(list).len() > 0,
        forall|x: Seq<char>| #[trigger] distinct(list).contains(x) <==> list.contains(x),
    decreases list.len(),
{
    if list.len() > 0 {
        let rest = list.drop_last();
        let front = distinct(rest);
        distinct_keeps_texts(rest);
        assert forall|x: Seq<char>| #[trigger] distinct(list).contains(x) <==> list.contains(x) by {
            if list.contains(x) {
                let i = choose|i: int| 0 <= i < list.len() && list[i] == x;
                if i < rest.len() {
                    assert(rest[i] == x);
                    assert(front.contains(x));
                    let k = choose|k: int| 0 <= k < front.len() && front[k] == x;
                    assert(distinct(list)[k] == x);
                } else if !front.contains(x) {
                    assert(distinct(list)[front.len() as int] == x);
                }
            }
            if distinct(list).contains(x) {
                if front.contains(x) {
                    let k = choose|k: int| 0 <= k < rest.len() && rest[k] == x;
                    assert(list[k] == x);
                } else {
                    assert(list[list.len() - 1] == x);
                }
            }
        }
    }
}

/// A list without repetitions begins as the list does.
pub proof fn distinct_begins(list: Seq<Seq<char>>)
    requires
        list.len() > 0,
    ensures
        distinct(list).len() > 0,
        distinct(list)[0] == list[0],
    decreases list.len(),
{
    let rest = list.drop_last();
    if rest.len() > 0 {
        distinct_begins(rest);
    } else {
        assert(distinct(rest) =~= Seq::<Seq<char>>::empty());
    }
}

/// Leaving out repetitions does not reorder: a list that begins another one is left as the
/// beginning of what is left of that one, so each text stands where it came first.
pub proof fn distinct_does_not_reorder(list: Seq<Seq<char>>, k: int)
    requires
        0 <= k <= list.len(),
    ensures
        distinct(list.take(k)).is_prefix_of(distinct(list)),
        list.no_duplicates() ==> distinct(list) == list,
    decreases list.len(),
{
    if list.len() == 0 {
        assert(list.take(k) =~= list);
    } else {
        let rest = list.drop_last();
        if k < list.len() {
            distinct_does_not_reorder(rest, k);
            assert(rest.take(k) =~= list.take(k));
        } else {
            distinct_does_not_reorder(rest, k - 1);
            assert(list.take(k) =~= list);
        }
        if list.no_duplicates() {
            assert(distinct(rest) == rest) by {
                assert forall|i: int, j: int|
                    0 <= i < rest.len() && 0 <= j < rest.len() && i != j implies rest[i] != rest[j] by {
                    assert(list[i] != list[j]);
                }
            }
            assert(!rest.contains(list.last())) by {
                if rest.contains(list.last()) {
                    let i = choose|i: int| 0 <= i < rest.len() && rest[i] == list.last();
                    assert(list[i] == list[list.len() - 1]);
                }
            }
            assert(distinct(list) =~= list);
        }
    }
}

/// No text comes before itself, and of two different texts one comes before the other.
pub proof fn lemma_before_total(a: Seq<char>, b: Seq<char>)
    ensures
        !(before(a, b) && before(b, a)),
        !before(a, b) && !before(b, a) <==> a == b,
    decreases a.len(),
{
    if a.len() > 0 && b.len() > 0 && a[0] == b[0] {
        lemma_before_total(a.skip(1), b.skip(1));
        if a.skip(1) == b.skip(1) {
            assert(a =~= seq![a[0]] + a.skip(1));
            assert(b =~= seq![b[0]] + b.skip(1));
        }
    } else if a.len() == 0 && b.len() == 0 {
        assert(a =~= b);
    }
}

/// What comes before a text that comes before a third comes before the third.
pub proof fn lemma_before_transitive(a: Seq<char>, b: Seq<char>, c: Seq<char>)
    requires
        before(a, b),
        before(b, c),
    ensures
        before(a, c),
    decreases a.len(),
{
    if a.len() > 0 && a[0] == b[0] && b[0] == c[0] {
        lemma_before_transitive(a.skip(1), b.skip(1), c.skip(1));
    }
}

/// A number that a text writes fits an `i64`.
pub proof fn i64_values_fit(s: Seq<char>)
    ensures
        i64_value(s) matches Some(n) ==> i64::MIN <= n <= i64::MAX,
{
}

/// A number is written with digits alone, and the digits tell the number.
pub proof fn decimals_tell_their_number(n: nat)
    ensures
        decimal(n).len() > 0,
        all_digits(decimal(n)),
        value_of(decimal(n)) == n,
        n < 10 ==> decimal(n).len() == 1,
    decreases n,
{
    let s = decimal(n);
    if n < 10 {
        assert(s.drop_last() =~= Seq::<char>::empty());
        assert(value_of(s.drop_last()) == 0);
        assert(s.last() as int == 48 + n);
        assert(value_of(s) == (10 * value_of(s.drop_last()) + (s.last() as int - 48)) as nat);
    } else {
        decimals_tell_their_number(n / 10);
        assert(s.drop_last() =~= decimal(n / 10));
        assert(s.last() as int == 48 + n % 10);
    }
}

/// A number that is written is read as that number, with its sign.
pub proof fn written_numbers_are_read(n: int)
    requires
        i64::MIN <= n <= i64::MAX,
    ensures
        i64_value(signed_decimal(n)) == Some(n),
{
    if n < 0 {
        decimals_tell_their_number((-n) as nat);
        let s = signed_decimal(n);
        assert(s.skip(1) =~= decimal((-n) as nat));
    } else {
        decimals_tell_their_number(n as nat);
        assert(is_digit(decimal(n as nat)[0]));
    }
}

/// Different numbers are written differently.
pub proof fn different_numbers_are_written_differently(a: int, b: int)
    ensures
        signed_decimal(a) == signed_decimal(b) ==> a == b,
{
    if a >= 0 {
        decimals_tell_their_number(a as nat);
        assert(is_digit(decimal(a as nat)[0]));
    } else {
        decimals_tell_their_number((-a) as nat);
        assert(signed_decimal(a).skip(1) =~= decimal((-a) as nat));
    }
    if b >= 0 {
        decimals_tell_their_number(b as nat);
        assert(is_digit(decimal(b as nat)[0]));
    } else {
        decimals_tell_their_number((-b) as nat);
        assert(signed_decimal(b).skip(1) =~= decimal((-b) as nat));
    }
}

/// The pieces of a text to which a mark and a text without the mark were added are those of the text
/// and the added one.
proof fn lemma_pieces_grow(s: Seq<char>, c: char, t: Seq<char>)
    requires
        !holds(t, c),
    ensures
        pieces(s + seq![c] + t, c) == pieces(s, c).push(t),
    decreases s.len(),
{
    let mark = seq![c];
    let whole = s + mark + t;
    parts_make_up_the_text(s, mark);
    match parted(s, mark) {
        Some((front, back)) => {
            let i = index_of(s, mark)->0;
            lemma_index_from(s, mark, 0);
            let rest = back + mark + t;
            assert(whole =~= front + mark + rest);
            texts_are_parted_at_the_first_mark(front, mark, rest);
            lemma_index_from(whole, mark, 0);
            let k = index_of(whole, mark)->0;
            assert(whole.take(k).len() == front.len());
            assert(whole.skip(k + 1) =~= rest);
            assert(s.skip(i + 1) =~= back);
            lemma_pieces_grow(back, c, t);
            assert(pieces(whole, c) =~= seq![front] + pieces(back, c).push(t));
            assert(pieces(s, c) =~= seq![front] + pieces(back, c));
            assert(pieces(whole, c) =~= pieces(s, c).push(t));
        },
        None => {
            texts_are_parted_at_the_first_mark(s, mark, t);
            lemma_index_from(whole, mark, 0);
            let k = index_of(whole, mark)->0;
            assert(whole.take(k).len() == s.len());
            assert(whole.skip(k + 1) =~= t);
            parts_make_up_the_text(t, mark);
            assert(pieces(t, c) =~= seq![t]);
            assert(pieces(whole, c) =~= seq![s] + seq![t]);
            assert(pieces(s, c).push(t) =~= seq![s, t]);
        },
    }
}

/// Texts that were joined come apart again into the same texts.
pub proof fn joined_texts_come_apart(parts: Seq<Seq<char>>, c: char)
    requires
        parts.len() > 0,
        forall|i: int| 0 <= i < parts.len() ==> !holds(#[trigger] parts[i], c),
    ensures
        pieces(joined(parts, c), c) == parts,
    decreases parts.len(),
{
    let last = parts.last();
    if parts.len() == 1 {
        parts_make_up_the_text(last, seq![c]);
        assert(pieces(last, c) =~= seq![last]);
        assert(parts =~= seq![last]);
    } else {
        let front = parts.drop_last();
        assert forall|i: int| 0 <= i < front.len() implies !holds(#[trigger] front[i], c) by {
            assert(front[i] == parts[i]);
        }
        joined_texts_come_apart(front, c);
        lemma_pieces_grow(joined(front, c), c, last);
        assert(joined(parts, c) =~= joined(front, c) + seq![c] + last);
        assert(parts =~= front.push(last));
    }
}

/// The pieces of a text hold no mark, and joined with it they are the text.
pub proof fn pieces_make_up_the_text(s: Seq<char>, c: char)
    ensures
        pieces(s, c).len() > 0,
        forall|i: int| 0 <= i < pieces(s, c).len() ==> !holds(#[trigger] pieces(s, c)[i], c),
        joined(pieces(s, c), c) == s,
    decreases s.len(),
{
    let mark = seq![c];
    parts_make_up_the_text(s, mark);
    if let Some((front, back)) = parted(s, mark) {
        lemma_index_from(s, mark, 0);
        let i = index_of(s, mark)->0;
        assert(s.skip(i + 1) =~= back);
        pieces_make_up_the_text(back, c);
        let rest = pieces(back, c);
        assert(pieces(s, c) =~= seq![front] + rest);
        lemma_joined_front(front, rest, c);
        assert forall|k: int| 0 <= k < pieces(s, c).len() implies !holds(
            #[trigger] pieces(s, c)[k],
            c,
        ) by {
            if k > 0 {
                assert(pieces(s, c)[k] == rest[k - 1]);
            }
        }
    } else {
        assert(pieces(s, c) =~= seq![s]);
    }
}

proof fn lemma_joined_front(front: Seq<char>, rest: Seq<Seq<char>>, c: char)
    requires
        rest.len() > 0,
    ensures
        joined(seq![front] + rest, c) == front + seq![c] + joined(rest, c),
    decreases rest.len(),
{
    let all = seq![front] + rest;
    if rest.len() == 1 {
        assert(all.drop_last() =~= seq![front]);
        assert(joined(seq![front], c) == front);
        assert(joined(rest, c) == rest[0] && all.last() == rest[0]);
        assert(joined(all, c) =~= front + seq![c] + joined(rest, c));
    } else {
        assert(all.drop_last() =~= seq![front] + rest.drop_last());
        lemma_joined_front(front, rest.drop_last(), c);
        assert(joined(all, c) =~= front + seq![c] + joined(rest, c));
    }
}

/// A single character that is put for another takes its place wherever it stands, and nothing else
/// changes.
pub proof fn replaced_characters_keep_their_places(s: Seq<char>, from: Seq<char>, to: Seq<char>)
    requires
        from.len() == 1,
        to.len() == 1,
    ensures
        replaced(s, from, to).len() == s.len(),
        forall|i: int|
            0 <= i < s.len() ==> #[trigger] replaced(s, from, to)[i] == (if s[i] == from[0] {
                to[0]
            } else {
                s[i]
            }),
    decreases s.len(),
{
    parts_make_up_the_text(s, from);
    if let Some((front, back)) = parted(s, from) {
        lemma_index_from(s, from, 0);
        replaced_characters_keep_their_places(back, from, to);
        let rest = replaced(back, from, to);
        let k = front.len() as int;
        assert(replaced(s, from, to) =~= front + to + rest);
        assert forall|i: int| 0 <= i < s.len() implies #[trigger] replaced(s, from, to)[i] == (if s[i]
            == from[0] {
            to[0]
        } else {
            s[i]
        }) by {
            if i < k {
                assert(s[i] == front[i]);
            } else if i > k {
                assert(s[i] == back[i - k - 1]);
                assert(rest[i - k - 1] == replaced(s, from, to)[i]);
            }
        }
    } else {
        assert forall|i: int| 0 <= i < s.len() implies s[i] != from[0] by {}
    }
}

/// A text is parted at a pattern where the first character of the pattern does not stand before it.
pub proof fn texts_are_parted_at_the_first_pattern(
    front: Seq<char>,
    pattern: Seq<char>,
    back: Seq<char>,
)
    requires
        pattern.len() > 0,
        !holds(front, pattern[0]),
    ensures
        parted(front + pattern + back, pattern) == Some((front, back)),
        index_of(front + pattern + back, pattern) == Some(front.len() as int),
{
    let s = front + pattern + back;
    let at = front.len() as int;
    let n = pattern.len() as int;
    assert(s.subrange(at, at + n) =~= pattern);
    assert(occurs_at(s, pattern, at));
    lemma_index_from(s, pattern, 0);
    assert forall|j: int| 0 <= j < at implies !#[trigger] occurs_at(s, pattern, j) by {
        if occurs_at(s, pattern, j) {
            assert(s.subrange(j, j + n)[0] == s[j]);
            assert(front[j] == pattern[0]);
        }
    }
    assert(s.take(at) =~= front);
    assert(s.skip(at + n) =~= back);
}

/// A pattern that stands in a text once is replaced there; a text without it stays as it is.
pub proof fn patterns_are_replaced_where_they_stand(
    front: Seq<char>,
    pattern: Seq<char>,
    back: Seq<char>,
    to: Seq<char>,
)
    requires
        pattern.len() > 0,
        !holds(front, pattern[0]),
        !contains(back, pattern),
    ensures
        replaced(front + pattern + back, pattern, to) == front + to + back,
        replaced(back, pattern, to) == back,
{
    let s = front + pattern + back;
    texts_are_parted_at_the_first_pattern(front, pattern, back);
    lemma_contains(back, pattern);
    assert(replaced(back, pattern, to) == back);
    assert(s.take(front.len() as int) =~= front);
    assert(s.skip((front.len() + pattern.len()) as int) =~= back);
}

/// The first difference of two texts tells which comes first, and a text comes before the longer ones
/// that begin with it.
pub proof fn the_first_difference_decides(common: Seq<char>, a: Seq<char>, b: Seq<char>)
    ensures
        before(common + a, common + b) == before(a, b),
        a.len() > 0 && b.len() > 0 && a[0] != b[0] ==> (before(a, b) <==> a[0] < b[0]),
        a.len() == 0 ==> (before(a, b) <==> b.len() > 0),
        b.len() == 0 ==> !before(a, b),
    decreases common.len(),
{
    if common.len() > 0 {
        let rest = common.skip(1);
        the_first_difference_decides(rest, a, b);
        assert((common + a).skip(1) =~= rest + a);
        assert((common + b).skip(1) =~= rest + b);
    } else {
        assert(common + a =~= a);
        assert(common + b =~= b);
    }
}

/// A number that is written is read as that number where it is no larger than allowed, and else not.
pub proof fn small_written_numbers_are_read(n: nat, max: nat)
    ensures
        n <= max ==> unsigned_value(decimal(n), max) == Some(n),
        n > max ==> unsigned_value(decimal(n), max) is None,
{
    decimals_tell_their_number(n);
    assert(is_digit(decimal(n)[0]));
}

/// A text is parted at the last place of a pattern.
pub proof fn texts_are_parted_at_the_last_pattern(
    front: Seq<char>,
    pattern: Seq<char>,
    back: Seq<char>,
)
    requires
        pattern.len() > 0,
        !contains(pattern.skip(1) + back, pattern),
    ensures
        parted_at_last(front + pattern + back, pattern) == Some((front, back)),
{
    let s = front + pattern + back;
    let at = front.len() as int;
    let n = pattern.len() as int;
    let behind = pattern.skip(1) + back;
    assert(s.subrange(at, at + n) =~= pattern);
    assert(occurs_at(s, pattern, at));
    lemma_last_index_to(s, pattern, s.len() - n);
    assert forall|j: int| at < j <= s.len() - n implies !#[trigger] occurs_at(s, pattern, j) by {
        if occurs_at(s, pattern, j) {
            assert(behind.subrange(j - at - 1, j - at - 1 + n) =~= s.subrange(j, j + n));
            assert(occurs_at(behind, pattern, j - at - 1));
        }
    }
    assert(s.take(at) =~= front);
    assert(s.skip(at + n) =~= back);
}

/// What is trimmed off the ends of a text are marks alone, and none is left there.
pub proof fn trimmed_texts_end_in_no_mark(s: Seq<char>, drop: spec_fn(char) -> bool)
    ensures
        ({
            let inner = trimmed_end(trimmed_start(s, drop), drop);
            let at = s.len() - trimmed_start(s, drop).len();
            &&& inner.len() > 0 ==> !drop(inner[0]) && !drop(inner.last())
            &&& 0 <= at && at + inner.len() <= s.len()
            &&& s.subrange(at, at + inner.len()) == inner
            &&& forall|i: int|
                0 <= i < at || at + inner.len() <= i < s.len() ==> drop(#[trigger] s[i])
        }),
{
    lemma_trimmed_start(s, drop);
    let right = trimmed_start(s, drop);
    lemma_trimmed_end(right, drop);
    let inner = trimmed_end(right, drop);
    let at = s.len() - right.len();
    assert(s.subrange(at, at + inner.len()) =~= right.take(inner.len() as int));
    assert forall|i: int| 0 <= i < at || at + inner.len() <= i < s.len() implies drop(
        #[trigger] s[i],
    ) by {
        if i >= at {
            assert(right[i - at] == s[i]);
        }
    }
}

proof fn lemma_trimmed_start(s: Seq<char>, drop: spec_fn(char) -> bool)
    ensures
        trimmed_start(s, drop).len() <= s.len(),
        s.skip(s.len() - trimmed_start(s, drop).len()) == trimmed_start(s, drop),
        forall|i: int| 0 <= i < s.len() - trimmed_start(s, drop).len() ==> drop(#[trigger] s[i]),
        trimmed_start(s, drop).len() > 0 ==> !drop(trimmed_start(s, drop)[0]),
    decreases s.len(),
{
    if s.len() > 0 && drop(s[0]) {
        let rest = s.skip(1);
        lemma_trimmed_start(rest, drop);
        let n = trimmed_start(s, drop).len();
        assert(s.skip(s.len() - n) =~= rest.skip(rest.len() - n));
        assert forall|i: int| 0 <= i < s.len() - n implies drop(#[trigger] s[i]) by {
            if i > 0 {
                assert(rest[i - 1] == s[i]);
            }
        }
    } else {
        assert(s.skip(0) =~= s);
    }
}

proof fn lemma_trimmed_end(s: Seq<char>, drop: spec_fn(char) -> bool)
    ensures
        trimmed_end(s, drop).len() <= s.len(),
        s.take(trimmed_end(s, drop).len() as int) == trimmed_end(s, drop),
        forall|i: int| trimmed_end(s, drop).len() <= i < s.len() ==> drop(#[trigger] s[i]),
        trimmed_end(s, drop).len() > 0 ==> !drop(trimmed_end(s, drop).last()),
    decreases s.len(),
{
    if s.len() > 0 && drop(s.last()) {
        let rest = s.drop_last();
        lemma_trimmed_end(rest, drop);
        let n = trimmed_end(s, drop).len() as int;
        assert(s.take(n) =~= rest.take(n));
        assert forall|i: int| n <= i < s.len() implies drop(#[trigger] s[i]) by {
            if i < rest.len() {
                assert(rest[i] == s[i]);
            }
        }
    } else {
        assert(s.take(s.len() as int) =~= s);
    }
}

/// White space is taken off both ends of a text, and so are slashes of either kind; nothing else is.
pub proof fn outer_marks_are_taken_off(s: Seq<char>)
    requires
        s.len() > 0,
    ensures
        !white_space(s[0]) && !white_space(s.last()) ==> trimmed(s) == s,
        s[0] != '/' && s[0] != '\\' && s.last() != '/' && s.last() != '\\' ==> without_outer_slashes(s)
            == s,
        without_outer_slashes(s).len() > 0 ==> {
            let inner = without_outer_slashes(s);
            inner[0] != '/' && inner[0] != '\\' && inner.last() != '/' && inner.last() != '\\'
        },
        without_outer_slashes(s.push('/')) == without_outer_slashes(s),
        without_outer_slashes(seq!['/'] + s) == without_outer_slashes(s),
{
    let drop = |c: char| slash(c);
    trimmed_texts_end_in_no_mark(s, drop);
    let front = seq!['/'] + s;
    assert(front.skip(1) =~= s);
    assert(trimmed_start(front, drop) == trimmed_start(s, drop));
    lemma_start_of_longer(s, '/', drop);
}

proof fn lemma_start_of_longer(s: Seq<char>, c: char, drop: spec_fn(char) -> bool)
    requires
        drop(c),
    ensures
        trimmed_end(trimmed_start(s.push(c), drop), drop) == trimmed_end(
            trimmed_start(s, drop),
            drop,
        ),
    decreases s.len(),
{
    let longer = s.push(c);
    if s.len() == 0 {
        assert(longer[0] == c);
        assert(longer.skip(1) =~= s);
    } else if drop(s[0]) {
        assert(longer[0] == s[0]);
        assert(longer.skip(1) =~= s.skip(1).push(c));
        lemma_start_of_longer(s.skip(1), c, drop);
    } else {
        assert(longer[0] == s[0]);
        assert(longer.drop_last() =~= s);
    }
}

/// Capitals and small letters are told from each other by nothing else, and making letters small
/// twice is making them small once.
pub proof fn small_letters_stay_small(s: Seq<char>)
    ensures
        lower(lower(s)) == lower(s),
        lower(s).len() == s.len(),
        forall|i: int| 0 <= i < s.len() ==> !('A' <= #[trigger] lower(s)[i] <= 'Z'),
        forall|i: int| 0 <= i < s.len() && !('A' <= s[i] <= 'Z') ==> #[trigger] lower(s)[i] == s[i],
        forall|i: int|
            0 <= i < s.len() && 'A' <= s[i] <= 'Z' ==> (#[trigger] lower(s)[i]) as int == s[i] as int
                + 32,
{
    assert(lower(lower(s)) =~= lower(s));
}

/// A character stands in a text.
pub open spec fn holds(s: Seq<char>, c: char) -> bool {
    exists|i: int| 0 <= i < s.len() && #[trigger] s[i] == c
}

/// A text that is parted at a character is what stands before it, the character, and what follows.
/// It is parted at the first such character, and stays whole only where there is none.
pub proof fn texts_are_parted_at_the_first_mark(front: Seq<char>, mark: Seq<char>, back: Seq<char>)
    requires
        mark.len() == 1,
        !holds(front, mark[0]),
    ensures
        parted(front + mark + back, mark) == Some((front, back)),
        parted(front, mark) is None,
{
    let s = front + mark + back;
    let at = front.len() as int;
    assert(s.subrange(at, at + 1) =~= mark);
    assert(occurs_at(s, mark, at));
    lemma_index_from(s, mark, 0);
    assert forall|j: int| 0 <= j < at implies !#[trigger] occurs_at(s, mark, j) by {
        if occurs_at(s, mark, j) {
            assert(s.subrange(j, j + 1)[0] == s[j]);
            assert(front[j] == mark[0]);
        }
    }
    let i = index_of(s, mark)->0;
    assert(i == at);
    assert(s.take(at) =~= front);
    assert(s.skip(at + 1) =~= back);
    lemma_index_from(front, mark, 0);
    if let Some(k) = index_of(front, mark) {
        assert(front.subrange(k, k + 1)[0] == front[k]);
        assert(front[k] == mark[0]);
    }
}

/// A text that is parted at a mark is what stands before it, the mark, and what follows it.
#[verifier::spinoff_prover]
#[verifier::rlimit(60)]
pub proof fn parts_make_up_the_text(s: Seq<char>, mark: Seq<char>)
    ensures
        parted(s, mark) matches Some((front, back)) ==> s == front + mark + back,
        parted_at_last(s, mark) matches Some((front, back)) ==> s == front + mark + back,
        mark.len() == 1 ==> (parted(s, mark) matches Some((front, _)) ==> !holds(front, mark[0])),
        mark.len() == 1 ==> (parted_at_last(s, mark) matches Some((_, back)) ==> !holds(
            back,
            mark[0],
        )),
        mark.len() == 1 ==> (parted(s, mark) is Some <==> holds(s, mark[0])),
        mark.len() == 1 ==> (parted_at_last(s, mark) is Some <==> holds(s, mark[0])),
{
    lemma_index_from(s, mark, 0);
    lemma_last_index_to(s, mark, s.len() - mark.len());
    if let Some(i) = index_of(s, mark) {
        assert(s =~= s.take(i) + mark + s.skip(i + mark.len())) by {
            assert(s.subrange(i, i + mark.len()) == mark);
            assert forall|k: int| i <= k < i + mark.len() implies s[k] == mark[k - i] by {
                assert(s.subrange(i, i + mark.len())[k - i] == s[k]);
            }
        }
    }
    if let Some(i) = last_index_of(s, mark) {
        assert(s =~= s.take(i) + mark + s.skip(i + mark.len())) by {
            assert(s.subrange(i, i + mark.len()) == mark);
            assert forall|k: int| i <= k < i + mark.len() implies s[k] == mark[k - i] by {
                assert(s.subrange(i, i + mark.len())[k - i] == s[k]);
            }
        }
    }
    if mark.len() == 1 {
        assert forall|k: int| 0 <= k < s.len() && #[trigger] s[k] == mark[0] implies occurs_at(
            s,
            mark,
            k,
        ) by {
            assert(s.subrange(k, k + 1) =~= mark);
        }
        if let Some((front, _)) = parted(s, mark) {
            if holds(front, mark[0]) {
                let k = choose|k: int| 0 <= k < front.len() && #[trigger] front[k] == mark[0];
                assert(s[k] == mark[0]);
            }
            assert(s[index_of(s, mark)->0] == mark[0]);
        }
        if let Some((_, back)) = parted_at_last(s, mark) {
            let at = last_index_of(s, mark)->0;
            if holds(back, mark[0]) {
                let k = choose|k: int| 0 <= k < back.len() && #[trigger] back[k] == mark[0];
                assert(s[at + 1 + k] == mark[0]);
            }
            assert(s[at] == mark[0]);
        }
    }
}

/// What precedes a suffix is what it was put behind; a text that ends in no such suffix has none taken
/// off.
pub proof fn suffixes_are_taken_off(s: Seq<char>, suffix: Seq<char>)
    ensures
        without_suffix(s + suffix, suffix) == Some(s),
        without_suffix(s, suffix) matches Some(rest) ==> s == rest + suffix,
{
    let whole = s + suffix;
    let n = s.len() as int;
    assert(whole.subrange(n, n + suffix.len()) =~= suffix);
    assert(whole.take(n) =~= s);
    if let Some(rest) = without_suffix(s, suffix) {
        let at = s.len() - suffix.len();
        assert(s =~= rest + suffix) by {
            assert forall|k: int| at <= k < s.len() implies s[k] == suffix[k - at] by {
                assert(s.subrange(at, at + suffix.len())[k - at] == s[k]);
            }
        }
    }
}

/// A character at an end of a text is taken off however often it stands there, and nothing else is.
pub proof fn marks_at_an_end_are_taken_off(s: Seq<char>, c: char)
    ensures
        without_leading(seq![c] + s, c) == without_leading(s, c),
        without_trailing(s.push(c), c) == without_trailing(s, c),
        s.len() == 0 || s[0] != c ==> without_leading(s, c) == s,
        s.len() == 0 || s.last() != c ==> without_trailing(s, c) == s,
{
    assert((seq![c] + s).skip(1) =~= s);
    assert(s.push(c).drop_last() =~= s);
}

/// What follows a prefix is what was put behind it; a text has a prefix exactly where it is the
/// prefix and something behind it.
pub proof fn prefixes_are_taken_off(s: Seq<char>, prefix: Seq<char>)
    ensures
        without_prefix(prefix + s, prefix) == Some(s),
        without_prefix(s, prefix) matches Some(rest) ==> s == prefix + rest,
        without_prefix(s, prefix) is Some <==> prefix.is_prefix_of(s),
{
    let whole = prefix + s;
    assert(whole.subrange(0, prefix.len() as int) =~= prefix);
    assert(whole.skip(prefix.len() as int) =~= s);
    if let Some(rest) = without_prefix(s, prefix) {
        assert(s =~= prefix + rest) by {
            assert forall|k: int| 0 <= k < prefix.len() implies s[k] == prefix[k] by {
                assert(s.subrange(0, prefix.len() as int)[k] == s[k]);
            }
        }
    }
    if prefix.is_prefix_of(s) {
        assert(s.subrange(0, prefix.len() as int) =~= prefix);
    }
}

// ---------------------------------------------------------------------------------------------
// The operations
// ---------------------------------------------------------------------------------------------
/// The characters of a text, one by one.
pub fn chars_of(s: &str) -> (v: Vec<char>)
    ensures
        v@ == s@,
{
    let mut v: Vec<char> = Vec::new();
    for c in it: s.chars()
        invariant
            it.seq() == s@,
            v@ == s@.take(it.index() as int),
    {
        v.push(c);
        assert(s@.take(it.index() + 1) =~= s@.take(it.index() as int).push(c));
    }
    assert(s@.take(s@.len() as int) =~= s@);
    v
}

/// The text made of the characters from position `from` up to position `to`.
pub fn text_between(v: &Vec<char>, from: usize, to: usize) -> (s: String)
    requires
        from <= to <= v.len(),
    ensures
        s@ == v@.subrange(from as int, to as int),
{
    let mut s = String::new();
    let mut i: usize = from;
    while i < to
        invariant
            from <= i <= to <= v.len(),
            s@ == v@.subrange(from as int, i as int),
        decreases to - i,
    {
        s.push(v[i]);
        i += 1;
        assert(v@.subrange(from as int, i as int) =~= v@.subrange(from as int, i - 1).push(v@[i - 1]));
    }
    s
}

/// Whether two texts are the same.
pub fn same(a: &str, b: &str) -> (r: bool)
    ensures
        r == (a@ == b@),
{
    a.to_owned() == b.to_owned()
}

/// Two texts, one after the other.
pub fn concat2(a: &str, b: &str) -> (r: String)
    ensures
        r@ == a@ + b@,
{
    let mut r = a.to_owned();
    r.append(b);
    r
}

/// Three texts, one after the other.
pub fn concat3(a: &str, b: &str, c: &str) -> (r: String)
    ensures
        r@ == a@ + b@ + c@,
{
    let mut r = a.to_owned();
    r.append(b);
    r.append(c);
    r
}

/// Four texts, one after the other.
pub fn concat4(a: &str, b: &str, c: &str, d: &str) -> (r: String)
    ensures
        r@ == a@ + b@ + c@ + d@,
{
    let mut r = a.to_owned();
    r.append(b);
    r.append(c);
    r.append(d);
    r
}

fn matches_at(v: &Vec<char>, p: &Vec<char>, at: usize) -> (r: bool)
    requires
        at + p.len() <= v.len(),
    ensures
        r == occurs_at(v@, p@, at as int),
{
    let mut i: usize = 0;
    while i < p.len()
        invariant
            i <= p.len(),
            at + p.len() <= v.len(),
            forall|j: int| 0 <= j < i ==> v@[at + j] == p@[j],
        decreases p.len() - i,
    {
        if v[at + i] != p[i] {
            assert(v@.subrange(at as int, at + p.len())[i as int] != p@[i as int]);
            return false;
        }
        i += 1;
    }
    assert(v@.subrange(at as int, at + p.len()) =~= p@);
    true
}

fn search(v: &Vec<char>, p: &Vec<char>, from: usize) -> (r: Option<usize>)
    ensures
        match r {
            Some(i) => index_from(v@, p@, from as int) == Some(i as int) && i + p.len() <= v.len(),
            None => index_from(v@, p@, from as int) is None,
        },
{
    if v.len() < p.len() {
        return None;
    }
    let last: usize = v.len() - p.len();
    let mut i: usize = from;
    while i <= last
        invariant
            from <= i,
            i <= last + 1 || i == from,
            last == v.len() - p.len(),
            index_from(v@, p@, from as int) == index_from(v@, p@, i as int),
        decreases v.len() + 1 - i,
    {
        if matches_at(v, p, i) {
            return Some(i);
        }
        if i == last {
            assert(index_from(v@, p@, i + 1) is None);
            return None;
        }
        i += 1;
    }
    None
}

fn search_back(v: &Vec<char>, p: &Vec<char>) -> (r: Option<usize>)
    ensures
        match r {
            Some(i) => last_index_of(v@, p@) == Some(i as int) && i + p.len() <= v.len(),
            None => last_index_of(v@, p@) is None,
        },
{
    if v.len() < p.len() {
        return None;
    }
    let mut i: usize = v.len() - p.len();
    loop
        invariant
            i + p.len() <= v.len(),
            last_index_of(v@, p@) == last_index_to(v@, p@, i as int),
        decreases i,
    {
        if matches_at(v, p, i) {
            return Some(i);
        }
        if i == 0 {
            assert(last_index_to(v@, p@, -1) is None);
            return None;
        }
        i -= 1;
    }
}

/// The first position of a pattern.
pub fn find(s: &str, pattern: &str) -> (r: Option<usize>)
    ensures
        match r {
            Some(i) => index_of(s@, pattern@) == Some(i as int) && i + pattern@.len() <= s@.len(),
            None => index_of(s@, pattern@) is None,
        },
{
    let v = chars_of(s);
    let p = chars_of(pattern);
    search(&v, &p, 0)
}

/// Whether a pattern stands in a text.
pub fn has(s: &str, pattern: &str) -> (r: bool)
    ensures
        r == contains(s@, pattern@),
{
    proof {
        lemma_contains(s@, pattern@);
    }
    find(s, pattern).is_some()
}

/// Whether a text begins with a pattern.
pub fn begins(s: &str, pattern: &str) -> (r: bool)
    ensures
        r == starts_with(s@, pattern@),
{
    let v = chars_of(s);
    let p = chars_of(pattern);
    p.len() <= v.len() && matches_at(&v, &p, 0)
}

/// Whether a text ends with a pattern.
pub fn ends(s: &str, pattern: &str) -> (r: bool)
    ensures
        r == ends_with(s@, pattern@),
{
    let v = chars_of(s);
    let p = chars_of(pattern);
    p.len() <= v.len() && matches_at(&v, &p, v.len() - p.len())
}

/// What follows a pattern at the beginning of a text.
pub fn strip_prefix(s: &str, pattern: &str) -> (r: Option<String>)
    ensures
        opt_text(r) == without_prefix(s@, pattern@),
{
    let v = chars_of(s);
    let p = chars_of(pattern);
    if p.len() <= v.len() && matches_at(&v, &p, 0) {
        Some(text_between(&v, p.len(), v.len()))
    } else {
        None
    }
}

/// What precedes a pattern at the end of a text.
pub fn strip_suffix(s: &str, pattern: &str) -> (r: Option<String>)
    ensures
        opt_text(r) == without_suffix(s@, pattern@),
{
    let v = chars_of(s);
    let p = chars_of(pattern);
    if p.len() <= v.len() && matches_at(&v, &p, v.len() - p.len()) {
        Some(text_between(&v, 0, v.len() - p.len()))
    } else {
        None
    }
}

/// The two texts of an optional pair of strings.
pub open spec fn opt_pair(r: Option<(String, String)>) -> Option<(Seq<char>, Seq<char>)> {
    match r {
        Some((a, b)) => Some((a@, b@)),
        None => None,
    }
}

/// The parts of a text before and after the first pattern.
pub fn split_once(s: &str, pattern: &str) -> (r: Option<(String, String)>)
    ensures
        opt_pair(r) == parted(s@, pattern@),
{
    let v = chars_of(s);
    let p = chars_of(pattern);
    match search(&v, &p, 0) {
        Some(i) => Some((text_between(&v, 0, i), text_between(&v, i + p.len(), v.len()))),
        None => None,
    }
}

/// The parts of a text before and after the last pattern.
pub fn rsplit_once(s: &str, pattern: &str) -> (r: Option<(String, String)>)
    ensures
        opt_pair(r) == parted_at_last(s@, pattern@),
{
    let v = chars_of(s);
    let p = chars_of(pattern);
    match search_back(&v, &p) {
        Some(i) => Some((text_between(&v, 0, i), text_between(&v, i + p.len(), v.len()))),
        None => None,
    }
}

/// A text with every `from` put as `to`.
pub fn replace(s: &str, from: &str, to: &str) -> (r: String)
    requires
        from@.len() > 0,
    ensures
        r@ == replaced(s@, from@, to@),
{
    let v = chars_of(s);
    let p = chars_of(from);
    let mut out = String::new();
    let mut at: usize = 0;
    assert(v@.skip(0) =~= v@);
    loop
        invariant
            at <= v.len(),
            v@ == s@,
            p@ == from@,
            p.len() > 0,
            replaced(s@, from@, to@) == out@ + replaced(v@.skip(at as int), from@, to@),
        decreases v.len() - at,
    {
        proof {
            lemma_index_from(v@, p@, at as int);
            lemma_index_shift(v@, p@, at as int, 0);
        }
        match search(&v, &p, at) {
            Some(i) => {
                let ghost before_out = out@;
                let piece = text_between(&v, at, i);
                out.append(piece.as_str());
                out.append(to);
                proof {
                    let rest = v@.skip(at as int);
                    assert(index_of(rest, from@) == Some(i - at));
                    assert(rest.take(i - at) =~= v@.subrange(at as int, i as int));
                    assert(rest.skip(i - at + from@.len()) =~= v@.skip(i + p.len()));
                    assert(before_out + (rest.take(i - at) + to@ + replaced(
                        v@.skip(i + p.len()),
                        from@,
                        to@,
                    )) =~= out@ + replaced(v@.skip(i + p.len()), from@, to@));
                }
                at = i + p.len();
            },
            None => {
                let piece = text_between(&v, at, v.len());
                out.append(piece.as_str());
                assert(v@.subrange(at as int, v.len() as int) =~= v@.skip(at as int));
                return out;
            },
        }
    }
}

/// Searching in what follows position `at` finds the same places, counted from there.
proof fn lemma_index_shift(s: Seq<char>, pattern: Seq<char>, at: int, k: int)
    requires
        0 <= at <= s.len(),
        0 <= k,
    ensures
        match index_from(s, pattern, at + k) {
            Some(i) => index_from(s.skip(at), pattern, k) == Some(i - at),
            None => index_from(s.skip(at), pattern, k) is None,
        },
    decreases s.len() - at - k + 1,
{
    let t = s.skip(at);
    if at + k + pattern.len() <= s.len() {
        assert(t.subrange(k, k + pattern.len()) =~= s.subrange(at + k, at + k + pattern.len()));
        if !occurs_at(s, pattern, at + k) {
            lemma_index_shift(s, pattern, at, k + 1);
        }
    }
}

/// A text without the `c` at its end.
pub fn trim_end(s: &str, c: char) -> (r: String)
    ensures
        r@ == without_trailing(s@, c),
{
    let v = chars_of(s);
    let mut n: usize = v.len();
    assert(v@.take(n as int) =~= v@);
    while n > 0 && v[n - 1] == c
        invariant
            n <= v.len(),
            v@ == s@,
            without_trailing(s@, c) == without_trailing(v@.take(n as int), c),
        decreases n,
    {
        assert(v@.take(n as int).drop_last() =~= v@.take(n - 1));
        n -= 1;
    }
    assert(v@.subrange(0, n as int) =~= v@.take(n as int));
    text_between(&v, 0, n)
}

/// A text without the `c` at its beginning.
pub fn trim_start(s: &str, c: char) -> (r: String)
    ensures
        r@ == without_leading(s@, c),
{
    let v = chars_of(s);
    let mut n: usize = 0;
    assert(v@.skip(n as int) =~= v@);
    while n < v.len() && v[n] == c
        invariant
            n <= v.len(),
            v@ == s@,
            without_leading(s@, c) == without_leading(v@.skip(n as int), c),
        decreases v.len() - n,
    {
        assert(v@.skip(n as int).skip(1) =~= v@.skip(n + 1));
        n += 1;
    }
    assert(v@.subrange(n as int, v.len() as int) =~= v@.skip(n as int));
    text_between(&v, n, v.len())
}

/// A text without the white space on both ends.
pub fn trim(s: &str) -> (r: String)
    ensures
        r@ == trimmed(s@),
{
    let v = chars_of(s);
    let ghost drop = |c: char| white_space(c);
    let mut from: usize = 0;
    assert(v@.skip(0) =~= v@);
    while from < v.len() && v[from].is_whitespace()
        invariant
            from <= v.len(),
            v@ == s@,
            drop == (|c: char| white_space(c)),
            trimmed_start(s@, drop) == trimmed_start(v@.skip(from as int), drop),
        decreases v.len() - from,
    {
        assert(v@.skip(from as int).skip(1) =~= v@.skip(from + 1));
        from += 1;
    }
    let mut to: usize = v.len();
    assert(v@.skip(from as int) =~= v@.subrange(from as int, to as int));
    assert(trimmed_start(s@, drop) == v@.subrange(from as int, to as int));
    while to > from && v[to - 1].is_whitespace()
        invariant
            from <= to <= v.len(),
            v@ == s@,
            drop == (|c: char| white_space(c)),
            trimmed(s@) == trimmed_end(v@.subrange(from as int, to as int), drop),
        decreases to,
    {
        assert(v@.subrange(from as int, to as int).drop_last() =~= v@.subrange(from as int, to - 1));
        to -= 1;
    }
    text_between(&v, from, to)
}

/// A text without the slashes, of either kind, on both ends.
pub fn trim_slashes(s: &str) -> (r: String)
    ensures
        r@ == without_outer_slashes(s@),
{
    let v = chars_of(s);
    let ghost drop = |c: char| slash(c);
    let mut from: usize = 0;
    assert(v@.skip(0) =~= v@);
    while from < v.len() && (v[from] == '/' || v[from] == '\\')
        invariant
            from <= v.len(),
            v@ == s@,
            drop == (|c: char| slash(c)),
            trimmed_start(s@, drop) == trimmed_start(v@.skip(from as int), drop),
        decreases v.len() - from,
    {
        assert(v@.skip(from as int).skip(1) =~= v@.skip(from + 1));
        from += 1;
    }
    let mut to: usize = v.len();
    assert(v@.skip(from as int) =~= v@.subrange(from as int, to as int));
    assert(trimmed_start(s@, drop) == v@.subrange(from as int, to as int));
    while to > from && (v[to - 1] == '/' || v[to - 1] == '\\')
        invariant
            from <= to <= v.len(),
            v@ == s@,
            drop == (|c: char| slash(c)),
            without_outer_slashes(s@) == trimmed_end(v@.subrange(from as int, to as int), drop),
        decreases to,
    {
        assert(v@.subrange(from as int, to as int).drop_last() =~= v@.subrange(from as int, to - 1));
        to -= 1;
    }
    text_between(&v, from, to)
}

/// The pieces of a text between the `c` in it.
pub fn split(s: &str, c: char) -> (r: Vec<String>)
    ensures
        texts(r@) == pieces(s@, c),
        r.len() > 0,
{
    let v = chars_of(s);
    let mut p: Vec<char> = Vec::new();
    p.push(c);
    assert(p@ =~= seq![c]);
    let mut out: Vec<String> = Vec::new();
    let mut at: usize = 0;
    assert(v@.skip(0) =~= v@);
    assert(texts(out@) + pieces(s@, c) =~= pieces(s@, c));
    loop
        invariant
            at <= v.len(),
            v@ == s@,
            p@ == seq![c],
            pieces(s@, c) == texts(out@) + pieces(v@.skip(at as int), c),
        decreases v.len() - at,
    {
        proof {
            lemma_index_from(v@, p@, at as int);
            lemma_index_shift(v@, p@, at as int, 0);
        }
        match search(&v, &p, at) {
            Some(i) => {
                let ghost out_before = texts(out@);
                let piece = text_between(&v, at, i);
                out.push(piece);
                proof {
                    let rest = v@.skip(at as int);
                    assert(rest.take(i - at) =~= v@.subrange(at as int, i as int));
                    assert(rest.skip(i - at + 1) =~= v@.skip(i + 1));
                    assert(texts(out@) =~= out_before.push(rest.take(i - at)));
                    assert(out_before + (seq![rest.take(i - at)] + pieces(v@.skip(i + 1), c))
                        =~= texts(out@) + pieces(v@.skip(i + 1), c));
                }
                at = i + 1;
            },
            None => {
                let ghost out_before = texts(out@);
                let piece = text_between(&v, at, v.len());
                out.push(piece);
                assert(v@.subrange(at as int, v.len() as int) =~= v@.skip(at as int));
                assert(texts(out@) =~= out_before + seq![v@.skip(at as int)]);
                return out;
            },
        }
    }
}

/// The given texts with `c` between two.
pub fn join(parts: &Vec<String>, c: char) -> (r: String)
    ensures
        r@ == joined(texts(parts@), c),
{
    let mut out = String::new();
    let mut i: usize = 0;
    while i < parts.len()
        invariant
            i <= parts.len(),
            out@ == joined(texts(parts@).take(i as int), c),
        decreases parts.len() - i,
    {
        if i > 0 {
            out.push(c);
        }
        out.append(parts[i].as_str());
        proof {
            let all = texts(parts@);
            assert(all.take(i + 1).drop_last() =~= all.take(i as int));
            assert(all.take(i + 1).last() == parts@[i as int]@);
            if i == 0 {
                assert(all.take(0) =~= seq![]);
                assert(out@ =~= all[0]);
            }
        }
        i += 1;
    }
    assert(texts(parts@).take(parts.len() as int) =~= texts(parts@));
    out
}

/// A character as its ASCII small letter.
pub fn to_lower_char(c: char) -> (r: char)
    ensures
        r == lower_char(c),
{
    if c >= 'A' && c <= 'Z' {
        ((c as u8) + 32) as char
    } else {
        c
    }
}

/// A character as its ASCII capital.
pub fn to_upper_char(c: char) -> (r: char)
    ensures
        r == upper_char(c),
{
    if c >= 'a' && c <= 'z' {
        ((c as u8) - 32) as char
    } else {
        c
    }
}

/// A text with its ASCII capitals as small letters.
pub fn to_lower(s: &str) -> (r: String)
    ensures
        r@ == lower(s@),
{
    let v = chars_of(s);
    let mut out = String::new();
    let mut i: usize = 0;
    while i < v.len()
        invariant
            i <= v.len(),
            v@ == s@,
            out@ == lower(s@.take(i as int)),
        decreases v.len() - i,
    {
        out.push(to_lower_char(v[i]));
        i += 1;
        assert(out@ =~= lower(s@.take(i as int)));
    }
    assert(s@.take(s@.len() as int) =~= s@);
    out
}

/// Whether two texts are the same but for the case of ASCII letters.
pub fn same_ignoring_case(a: &str, b: &str) -> (r: bool)
    ensures
        r == (lower(a@) == lower(b@)),
{
    to_lower(a) == to_lower(b)
}

fn push_decimal(s: &mut String, n: u64)
    ensures
        final(s)@ == old(s)@ + decimal(n as nat),
    decreases n,
{
    if n >= 10 {
        push_decimal(s, n / 10);
    }
    s.push((48u8 + (n % 10) as u8) as char);
    assert(s@ =~= old(s)@ + decimal(n as nat));
}

/// A number written in decimal.
pub fn decimal_text(n: u64) -> (r: String)
    ensures
        r@ == decimal(n as nat),
{
    let mut s = String::new();
    push_decimal(&mut s, n);
    assert(s@ =~= decimal(n as nat));
    s
}

/// A number, negative or not, written in decimal.
pub fn signed_decimal_text(n: i64) -> (r: String)
    ensures
        r@ == signed_decimal(n as int),
{
    let mut s = String::new();
    if n < 0 {
        s.push('-');
        let magnitude: u64 = ((-(n + 1)) as u64) + 1;
        push_decimal(&mut s, magnitude);
        assert(s@ =~= signed_decimal(n as int));
    } else {
        push_decimal(&mut s, n as u64);
        assert(s@ =~= signed_decimal(n as int));
    }
    s
}

fn digits_value(v: &Vec<char>, from: usize, max: u64) -> (r: Option<u64>)
    requires
        from <= v.len(),
    ensures
        ({
            let body = v@.skip(from as int);
            match r {
                Some(n) => body.len() > 0 && all_digits(body) && n == value_of(body) && n <= max,
                None => body.len() == 0 || !all_digits(body) || value_of(body) > max,
            }
        }),
{
    if from == v.len() {
        return None;
    }
    let ghost body = v@.skip(from as int);
    let mut acc: u128 = 0;
    let mut over: bool = false;
    let mut i: usize = from;
    while i < v.len()
        invariant
            from <= i <= v.len(),
            body == v@.skip(from as int),
            all_digits(body.take(i - from)),
            !over ==> acc == value_of(body.take(i - from)) && acc <= max,
            over ==> value_of(body.take(i - from)) > max,
        decreases v.len() - i,
    {
        let c = v[i];
        if !(c >= '0' && c <= '9') {
            assert(body[i - from] == c);
            return None;
        }
        proof {
            assert(body.take(i - from + 1).drop_last() =~= body.take(i - from));
            assert(body.take(i - from + 1).last() == c);
            assert(all_digits(body.take(i - from + 1))) by {
                assert forall|j: int| 0 <= j < i - from + 1 implies is_digit(
                    #[trigger] body.take(i - from + 1)[j],
                ) by {
                    if j < i - from {
                        assert(is_digit(body.take(i - from)[j]));
                    }
                }
            }
        }
        if !over {
            acc = acc * 10 + (c as u8 - 48) as u128;
            if acc > max as u128 {
                over = true;
            }
        }
        i += 1;
    }
    assert(body.take(v.len() - from) =~= body);
    if over {
        None
    } else {
        Some(acc as u64)
    }
}

/// The unsigned number that a text writes, if it is at most `max`.
pub fn parse_unsigned(s: &str, max: u64) -> (r: Option<u64>)
    ensures
        match r {
            Some(n) => unsigned_value(s@, max as nat) == Some(n as nat),
            None => unsigned_value(s@, max as nat) is None,
        },
{
    let v = chars_of(s);
    let from: usize = if v.len() > 0 && v[0] == '+' {
        1
    } else {
        0
    };
    assert(v@.skip(0) =~= v@);
    digits_value(&v, from, max)
}

/// The number that a text writes, if an `i64` holds it.
pub fn parse_i64(s: &str) -> (r: Option<i64>)
    ensures
        match r {
            Some(n) => i64_value(s@) == Some(n as int),
            None => i64_value(s@) is None,
        },
{
    let v = chars_of(s);
    assert(v@.skip(0) =~= v@);
    let negative = v.len() > 0 && v[0] == '-';
    let from: usize = if v.len() > 0 && (v[0] == '+' || v[0] == '-') {
        1
    } else {
        0
    };
    if negative {
        match digits_value(&v, from, 0x8000_0000_0000_0000) {
            Some(n) => if n == 0x8000_0000_0000_0000 {
                Some(i64::MIN)
            } else {
                Some(-(n as i64))
            },
            None => None,
        }
    } else {
        match digits_value(&v, from, 0x7fff_ffff_ffff_ffff) {
            Some(n) => Some(n as i64),
            None => None,
        }
    }
}

/// Whether a text comes before another in the order of dictionaries.
pub fn precedes(a: &str, b: &str) -> (r: bool)
    ensures
        r == before(a@, b@),
{
    let x = chars_of(a);
    let y = chars_of(b);
    let mut i: usize = 0;
    assert(x@.skip(0) =~= x@);
    assert(y@.skip(0) =~= y@);
    while i < x.len() && i < y.len()
        invariant
            i <= x.len(),
            i <= y.len(),
            x@ == a@,
            y@ == b@,
            before(a@, b@) == before(x@.skip(i as int), y@.skip(i as int)),
        decreases x.len() - i,
    {
        if x[i] != y[i] {
            return x[i] < y[i];
        }
        assert(x@.skip(i as int).skip(1) =~= x@.skip(i + 1));
        assert(y@.skip(i as int).skip(1) =~= y@.skip(i + 1));
        i += 1;
    }
    i < y.len()
}

/// Whether a text is among the given ones.
pub fn among(list: &Vec<String>, s: &str) -> (r: bool)
    ensures
        r == texts(list@).contains(s@),
{
    let mut i: usize = 0;
    while i < list.len()
        invariant
            i <= list.len(),
            forall|j: int| 0 <= j < i ==> list@[j]@ != s@,
        decreases list.len() - i,
    {
        if same(list[i].as_str(), s) {
            assert(texts(list@)[i as int] == s@);
            return true;
        }
        i += 1;
    }
    assert forall|j: int| 0 <= j < texts(list@).len() implies texts(list@)[j] != s@ by {
        assert(texts(list@)[j] == list@[j]@);
    }
    false
}

/// The given texts without those that stand earlier in the list already.
pub fn without_repetitions(list: &Vec<String>) -> (r: Vec<String>)
    ensures
        texts(r@) == distinct(texts(list@)),
{
    let mut out: Vec<String> = Vec::new();
    let ghost all = texts(list@);
    let mut i: usize = 0;
    assert(texts(out@) =~= distinct(all.take(0)));
    while i < list.len()
        invariant
            i <= list.len(),
            all == texts(list@),
            texts(out@) == distinct(all.take(i as int)),
        decreases list.len() - i,
    {
        assert(all.take(i + 1).drop_last() =~= all.take(i as int));
        assert(all.take(i + 1).last() == list@[i as int]@);
        let ghost before_out = texts(out@);
        if !among(&out, list[i].as_str()) {
            out.push(list[i].clone());
            assert(texts(out@) =~= before_out.push(list@[i as int]@));
        }
        i += 1;
    }
    assert(all.take(list.len() as int) =~= all);
    out
}

/// A list of the same texts.
pub fn copied(list: &Vec<String>) -> (r: Vec<String>)
    ensures
        texts(r@) == texts(list@),
        r.len() == list.len(),
{
    let mut out: Vec<String> = Vec::new();
    let mut i: usize = 0;
    while i < list.len()
        invariant
            i <= list.len(),
            out.len() == i,
            texts(out@) == texts(list@).take(i as int),
        decreases list.len() - i,
    {
        out.push(list[i].clone());
        assert(texts(out@) =~= texts(list@).take(i + 1));
        i += 1;
    }
    assert(texts(list@).take(list.len() as int) =~= texts(list@));
    out
}

} // verus!
