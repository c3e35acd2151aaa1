//! Names of categories, applications and files.

use vstd::prelude::*;
use pinyin::ToPinyin;
use crate::numbers;
use crate::numbers::{decimal_text, hex_text, push_decimal};
use crate::split::join_texts;
use crate::text;
use crate::text::{
    chars_of, is_alphanumeric, push_text, same_text, text_of, text_range, to_lower_char, trim,
};

verus! {

/// Shown where a category has no name.
pub const EMPTY_CATEGORY_NAME: &'static str = "鍒嗙被鍚嶇О涓嶈兘涓虹┖";

/// Shown where a category's name cannot be a folder's name.
pub const INVALID_CATEGORY_NAME: &'static str = "分类名称包含 Windows 文件夹非法字符";

/// The name of a file whose own name leaves nothing.
pub const DEFAULT_FILE_NAME: &'static str = "app";

/// The folder of a category whose name leaves nothing.
pub const DEFAULT_CATEGORY_FOLDER: &'static str = "category";

/// The attempts at a free file name.
pub const NAME_ATTEMPTS: u64 = 1000;

// ---------------------------------------------------------------------------
// Model
// ---------------------------------------------------------------------------

/// The characters that Windows refuses in a file name.
pub open spec fn is_invalid(c: char) -> bool {
    c == '<' || c == '>' || c == ':' || c == '"' || c == '/' || c == '\\' || c == '|' || c == '?'
        || c == '*'
}

/// Every character that a file name cannot have replaced by an underscore.
pub open spec fn underscored(s: Seq<char>) -> Seq<char> {
    Seq::new(
        s.len(),
        |i: int|
            if is_invalid(s[i]) {
                '_'
            } else {
                s[i]
            },
    )
}

/// A name that can be a file's name.
pub open spec fn sanitized(s: Seq<char>) -> Seq<char> {
    let clean = text::trimmed(underscored(s));
    if clean.len() == 0 {
        DEFAULT_FILE_NAME@
    } else {
        clean
    }
}

/// Some character of `s` cannot stand in a file name.
pub open spec fn has_invalid(s: Seq<char>) -> bool {
    exists|i: int| 0 <= i < s.len() && is_invalid(#[trigger] s[i])
}

/// The letters and digits of a name, in lower case.
pub open spec fn normalized_name(s: Seq<char>) -> Seq<char>
    decreases s.len(),
{
    if s.len() == 0 {
        Seq::empty()
    } else {
        let rest = normalized_name(s.drop_last());
        if text::is_ascii_alphanumeric(s.last()) {
            rest.push(text::lower_char(s.last()))
        } else {
            rest
        }
    }
}

/// The number of decimal digits that `s` begins with.
pub open spec fn digit_run(s: Seq<char>) -> nat
    decreases s.len(),
{
    if s.len() > 0 && text::is_digit(s[0]) {
        1 + digit_run(s.drop_first())
    } else {
        0
    }
}

/// The characters that may stand between a sort number and a name.
pub open spec fn is_sort_mark(c: char) -> bool {
    c == '.' || c == '-' || c == '_' || c == ' '
}

/// A name without the number that sorts it, such as `01-` or `2. `.
pub open spec fn without_sort_prefix(s: Seq<char>) -> Seq<char> {
    let t = text::trimmed(s);
    let n = digit_run(t) as int;
    if 0 < n < t.len() && is_sort_mark(t[n]) {
        text::trimmed(t.skip(n + 1))
    } else {
        t
    }
}

/// The ideographs that are written by their code point where they have no
/// reading.
pub open spec fn is_cjk(c: char) -> bool {
    ||| '\u{4e00}' <= c && c <= '\u{9fff}'
    ||| '\u{3400}' <= c && c <= '\u{4dbf}'
    ||| '\u{20000}' <= c && c <= '\u{2a6df}'
    ||| '\u{2a700}' <= c && c <= '\u{2b73f}'
}

/// What a character that is no letter or digit adds to a slug.
pub open spec fn slug_part(c: char, reading: Option<Seq<char>>) -> Seq<Seq<char>> {
    match reading {
        Some(p) => seq![p],
        None => if is_cjk(c) {
            seq![seq!['u'] + numbers::hexadecimal(c as nat)]
        } else {
            Seq::empty()
        },
    }
}

/// A run of letters and digits as a part of a slug.
pub open spec fn run_part(run: Seq<char>) -> Seq<Seq<char>> {
    if run.len() == 0 {
        Seq::empty()
    } else {
        seq![run]
    }
}

/// The parts of the slug of `s[i..]`, after the letters and digits in `run`:
/// each run of letters and digits is a part, and so is each reading.
pub open spec fn slug_parts(
    s: Seq<char>,
    readings: Seq<Option<Seq<char>>>,
    i: int,
    run: Seq<char>,
) -> Seq<Seq<char>>
    decreases s.len() - i,
{
    if i < 0 || i >= s.len() {
        run_part(run)
    } else if text::is_ascii_alphanumeric(s[i]) {
        slug_parts(s, readings, i + 1, run.push(text::lower_char(s[i])))
    } else {
        run_part(run) + slug_part(s[i], readings[i]) + slug_parts(
            s,
            readings,
            i + 1,
            Seq::empty(),
        )
    }
}

/// The slug of a text whose characters have the given readings.
pub open spec fn slug(s: Seq<char>, readings: Seq<Option<Seq<char>>>) -> Seq<char> {
    let joined = text::joined(slug_parts(s, readings, 0, Seq::empty()), seq!['-']);
    if joined.len() == 0 {
        DEFAULT_CATEGORY_FOLDER@
    } else {
        joined
    }
}

/// The characters that a slug is made of.
pub open spec fn is_slug_char(c: char) -> bool {
    text::is_ascii_alphanumeric(c) || c == '-' || c == '\u{ea}' || c == '\u{fc}'
}

pub open spec fn all_slug_chars(s: Seq<char>) -> bool {
    forall|i: int| 0 <= i < s.len() ==> is_slug_char(#[trigger] s[i])
}

/// The last position of `x` in `s`.
pub open spec fn last_index<T>(s: Seq<T>, x: T) -> Option<int>
    decreases s.len(),
{
    if s.len() == 0 {
        None
    } else if s.last() == x {
        Some(s.len() - 1)
    } else {
        last_index(s.drop_last(), x)
    }
}

/// A file name as its stem and its extension: the parts before and behind the
/// last dot, unless the name has no dot but one at its beginning.
pub open spec fn stem_and_extension<T>(name: Seq<T>, dot: T) -> (Seq<T>, Option<Seq<T>>) {
    match last_index(name, dot) {
        Some(i) => if i > 0 && name != seq![dot, dot] {
            (name.take(i), Some(name.skip(i + 1)))
        } else {
            (name, None)
        },
        None => (name, None),
    }
}

/// A name that stands for a folder, not for a file in it.
pub open spec fn is_dots(name: Seq<char>) -> bool {
    name == seq!['.'] || name == seq!['.', '.']
}

/// The `k`-th name that is tried for a file: the name itself, then the name
/// with a number behind its stem.
pub open spec fn name_attempt(clean: Seq<char>, k: nat) -> Seq<char> {
    if k == 0 {
        clean
    } else {
        let (stem, extension) = if is_dots(clean) {
            (DEFAULT_FILE_NAME@, None)
        } else {
            stem_and_extension(clean, '.')
        };
        let numbered = stem + seq!['-'] + numbers::decimal(k);
        match extension {
            Some(e) => numbered + seq!['.'] + e,
            None => numbered,
        }
    }
}

/// The first attempt from the `k`-th on that is not taken.
pub open spec fn free_attempt(clean: Seq<char>, taken: Seq<Seq<char>>, k: nat) -> Option<Seq<char>>
    decreases NAME_ATTEMPTS - k,
{
    if k >= NAME_ATTEMPTS {
        None
    } else if !taken.contains(name_attempt(clean, k)) {
        Some(name_attempt(clean, k))
    } else {
        free_attempt(clean, taken, k + 1)
    }
}

/// A file name that is not taken: the first free attempt or, where all are
/// taken, the name behind the time.
pub open spec fn unique_name(s: Seq<char>, taken: Seq<Seq<char>>, now: nat) -> Seq<char> {
    let clean = sanitized(s);
    match free_attempt(clean, taken, 0) {
        Some(name) => name,
        None => numbers::decimal(now) + seq!['-'] + clean,
    }
}

// ---------------------------------------------------------------------------
// Outside functions
// ---------------------------------------------------------------------------

/// The reading of a character without tones, as the `pinyin` crate has it.
pub uninterp spec fn pinyin_reading(c: char) -> Option<Seq<char>>;

/// `<char as pinyin::ToPinyin>::to_pinyin`, then `pinyin::Pinyin::plain`: the
/// reading is a function of the character, is not empty, and is written with
/// the letters `a` to `z`, `ê` and `ü` alone. Characters below U+3007 have
/// none.
#[verifier::external_body]
fn pinyin_plain(c: char) -> (r: Option<String>)
    ensures
        text::opt_text(r) == pinyin_reading(c),
        r matches Some(p) ==> p@.len() > 0 && forall|i: int|
            0 <= i < p@.len() ==> ('a' <= #[trigger] p@[i] && p@[i] <= 'z') || p@[i] == '\u{ea}'
                || p@[i] == '\u{fc}',
        c < '\u{3007}' ==> r is None,
{
    c.to_pinyin().map(|p| p.plain().to_string())
}

/// The lower-case form of a text, as the Unicode tables of std have it.
pub uninterp spec fn unicode_lowercase(s: Seq<char>) -> Seq<char>;

/// `str::to_lowercase`: the result is a function of the text; an ASCII text is
/// lowered character by character.
#[verifier::external_body]
fn to_lowercase(s: &str) -> (r: String)
    ensures
        r@ == unicode_lowercase(s@),
        vstd::utf8::is_ascii_chars(s@) ==> r@ == text::lower_ascii(s@),
{
    s.to_lowercase()
}

// ---------------------------------------------------------------------------
// Laws
// ---------------------------------------------------------------------------

/// A sanitized name is not empty, has no white space at its ends and no
/// character that a file name cannot have, and is left as it is by sanitizing
/// it again. So is every other name of that kind.
pub proof fn law_sanitized(s: Seq<char>)
    ensures
        sanitized(s).len() > 0,
        !has_invalid(sanitized(s)),
        text::is_trimmed(sanitized(s)),
        sanitized(sanitized(s)) == sanitized(s),
        s.len() > 0 && text::is_trimmed(s) && !has_invalid(s) ==> sanitized(s) == s,
{
    reveal_strlit("app");
    let u = underscored(s);
    text::law_trimmed_idempotent(u);
    let r = sanitized(s);
    if text::trimmed(u).len() > 0 {
        assert forall|i: int| 0 <= i < r.len() implies !is_invalid(#[trigger] r[i]) by {
            assert(r.contains(r[i]));
            text::lemma_trimmed_contains(u, r[i]);
            let k = choose|k: int| 0 <= k < u.len() && u[k] == r[i];
            assert(!is_invalid(u[k]));
        }
    }
    assert(underscored(r) =~= r);
    text::law_trimmed_idempotent(r);
    if !has_invalid(s) {
        assert(u =~= s);
    }
}

/// A lower-case ASCII letter or a decimal digit.
pub open spec fn is_plain(c: char) -> bool {
    text::is_digit(c) || ('a' <= c && c <= 'z')
}

proof fn lemma_lowered_is_plain(c: char)
    requires
        text::is_ascii_alphanumeric(c),
    ensures
        is_plain(text::lower_char(c)),
{
    if 'A' <= c && c <= 'Z' {
        let n = (c as u8 + 32) as u8;
        assert(97 <= n <= 122);
        assert(n as char as u8 == n);
    }
}

proof fn lemma_normalized_plain(s: Seq<char>)
    ensures
        forall|i: int|
            0 <= i < normalized_name(s).len() ==> is_plain(#[trigger] normalized_name(s)[i]),
    decreases s.len(),
{
    if s.len() > 0 {
        lemma_normalized_plain(s.drop_last());
        if text::is_ascii_alphanumeric(s.last()) {
            lemma_lowered_is_plain(s.last());
        }
        let rest = normalized_name(s.drop_last());
        assert forall|i: int| 0 <= i < normalized_name(s).len() implies is_plain(
            #[trigger] normalized_name(s)[i],
        ) by {
            if i < rest.len() {
                assert(normalized_name(s)[i] == rest[i]);
            }
        }
    }
}

proof fn lemma_plain_is_normalized(s: Seq<char>)
    requires
        forall|i: int| 0 <= i < s.len() ==> is_plain(#[trigger] s[i]),
    ensures
        normalized_name(s) == s,
    decreases s.len(),
{
    if s.len() > 0 {
        assert forall|i: int| 0 <= i < s.drop_last().len() implies is_plain(
            #[trigger] s.drop_last()[i],
        ) by {
            assert(s.drop_last()[i] == s[i]);
        }
        lemma_plain_is_normalized(s.drop_last());
        assert(is_plain(s[s.len() - 1]));
        assert(normalized_name(s) =~= s);
    }
}

proof fn lemma_normalized_concat(a: Seq<char>, b: Seq<char>)
    ensures
        normalized_name(a + b) == normalized_name(a) + normalized_name(b),
    decreases b.len(),
{
    if b.len() == 0 {
        assert(a + b =~= a);
        assert(normalized_name(a + b) =~= normalized_name(a) + normalized_name(b));
    } else {
        lemma_normalized_concat(a, b.drop_last());
        assert((a + b).drop_last() =~= a + b.drop_last());
        assert((a + b).last() == b.last());
        assert(normalized_name(a + b) =~= normalized_name(a) + normalized_name(b));
    }
}

/// A normalized name is made of lower-case letters and digits alone, is left as
/// it is by normalizing it again, and is made piece by piece.
pub proof fn law_normalized_name(a: Seq<char>, b: Seq<char>)
    ensures
        normalized_name(a + b) == normalized_name(a) + normalized_name(b),
        normalized_name(normalized_name(a)) == normalized_name(a),
        forall|i: int|
            0 <= i < normalized_name(a).len() ==> is_plain(#[trigger] normalized_name(a)[i]),
{
    lemma_normalized_concat(a, b);
    lemma_normalized_plain(a);
    lemma_plain_is_normalized(normalized_name(a));
}

proof fn lemma_hex_slug_chars(n: nat)
    ensures
        all_slug_chars(numbers::hexadecimal(n)),
        numbers::hexadecimal(n).len() > 0,
    decreases n,
{
    if n >= 16 {
        lemma_hex_slug_chars(n / 16);
        let h = numbers::hexadecimal(n);
        assert forall|i: int| 0 <= i < h.len() implies is_slug_char(#[trigger] h[i]) by {
            if i < h.len() - 1 {
                assert(h[i] == numbers::hexadecimal(n / 16)[i]);
            }
        }
    }
}

/// The parts are not empty and are made of slug characters.
pub open spec fn good_parts(parts: Seq<Seq<char>>) -> bool {
    forall|i: int| 0 <= i < parts.len() ==> all_slug_chars(#[trigger] parts[i]) && parts[i].len() > 0
}

proof fn lemma_good_concat(a: Seq<Seq<char>>, b: Seq<Seq<char>>)
    requires
        good_parts(a),
        good_parts(b),
    ensures
        good_parts(a + b),
{
    assert forall|i: int| 0 <= i < (a + b).len() implies all_slug_chars(#[trigger] (a + b)[i]) && (a
        + b)[i].len() > 0 by {
        if i < a.len() {
            assert((a + b)[i] == a[i]);
        } else {
            assert((a + b)[i] == b[i - a.len()]);
        }
    }
}

proof fn lemma_good_joined(parts: Seq<Seq<char>>)
    requires
        good_parts(parts),
    ensures
        all_slug_chars(text::joined(parts, seq!['-'])),
        parts.len() > 0 ==> text::joined(parts, seq!['-']).len() > 0,
    decreases parts.len(),
{
    if parts.len() > 1 {
        lemma_good_joined(parts.drop_last());
        assert(all_slug_chars(parts.last()));
    }
}

/// Readings that are written with slug characters.
pub open spec fn good_readings(readings: Seq<Option<Seq<char>>>) -> bool {
    forall|i: int|
        0 <= i < readings.len() ==> (#[trigger] readings[i] matches Some(p) ==> p.len() > 0
            && all_slug_chars(p))
}

proof fn lemma_slug_parts_good(
    s: Seq<char>,
    readings: Seq<Option<Seq<char>>>,
    i: int,
    run: Seq<char>,
)
    requires
        0 <= i,
        readings.len() == s.len(),
        good_readings(readings),
        all_slug_chars(run),
    ensures
        good_parts(slug_parts(s, readings, i, run)),
    decreases s.len() - i,
{
    if i >= s.len() {
    } else if text::is_ascii_alphanumeric(s[i]) {
        lemma_slug_parts_good(s, readings, i + 1, run.push(text::lower_char(s[i])));
    } else {
        lemma_slug_parts_good(s, readings, i + 1, Seq::empty());
        lemma_hex_slug_chars(s[i] as nat);
        let part = slug_part(s[i], readings[i]);
        assert(good_parts(part));
        lemma_good_concat(run_part(run), part);
        lemma_good_concat(
            run_part(run) + part,
            slug_parts(s, readings, i + 1, Seq::empty()),
        );
    }
}

/// A slug is not empty and is made of letters, digits and hyphens.
pub proof fn law_slug_shape(s: Seq<char>, readings: Seq<Option<Seq<char>>>)
    requires
        readings.len() == s.len(),
        good_readings(readings),
    ensures
        slug(s, readings).len() > 0,
        all_slug_chars(slug(s, readings)),
        !has_invalid(slug(s, readings)),
        !is_dots(slug(s, readings)),
{
    reveal_strlit("category");
    lemma_slug_parts_good(s, readings, 0, Seq::empty());
    lemma_good_joined(slug_parts(s, readings, 0, Seq::empty()));
    let r = slug(s, readings);
    assert(all_slug_chars(r));
    if has_invalid(r) {
        let i = choose|i: int| 0 <= i < r.len() && is_invalid(r[i]);
        assert(is_slug_char(r[i]));
    }
    if is_dots(r) {
        assert(is_slug_char(r[0]));
    }
}

proof fn lemma_last_index<T>(s: Seq<T>, x: T)
    ensures
        match last_index(s, x) {
            Some(i) => 0 <= i < s.len() && s[i] == x && forall|j: int| i < j < s.len() ==> s[j] != x,
            None => forall|j: int| 0 <= j < s.len() ==> s[j] != x,
        },
    decreases s.len(),
{
    if s.len() > 0 && s.last() != x {
        lemma_last_index(s.drop_last(), x);
        match last_index(s, x) {
            Some(i) => {
                assert(s.drop_last()[i] == x);
                assert forall|j: int| i < j < s.len() implies s[j] != x by {
                    if j < s.len() - 1 {
                        assert(s.drop_last()[j] == s[j]);
                    }
                }
            },
            None => {
                assert forall|j: int| 0 <= j < s.len() implies s[j] != x by {
                    if j < s.len() - 1 {
                        assert(s.drop_last()[j] == s[j]);
                    }
                }
            },
        }
    }
}

/// A position with no later occurrence is the last one.
pub proof fn lemma_last_index_is<T>(s: Seq<T>, x: T, k: int)
    requires
        0 <= k < s.len(),
        s[k] == x,
        forall|j: int| k < j < s.len() ==> s[j] != x,
    ensures
        last_index(s, x) == Some(k),
{
    lemma_last_index(s, x);
}

/// Where nothing equals `x` there is no last occurrence.
pub proof fn lemma_last_index_none<T>(s: Seq<T>, x: T)
    requires
        forall|j: int| 0 <= j < s.len() ==> s[j] != x,
    ensures
        last_index(s, x) is None,
{
    lemma_last_index(s, x);
}

/// The chosen name is not among the taken ones as long as some attempt is
/// free.
pub proof fn law_unique_name_is_free(s: Seq<char>, taken: Seq<Seq<char>>, now: nat, k: nat)
    requires
        k < NAME_ATTEMPTS,
        !taken.contains(name_attempt(sanitized(s), k)),
    ensures
        !taken.contains(unique_name(s, taken, now)),
        taken.len() == 0 ==> unique_name(s, taken, now) == sanitized(s),
{
    lemma_free_attempt(sanitized(s), taken, 0, k);
}

proof fn lemma_free_attempt(clean: Seq<char>, taken: Seq<Seq<char>>, from: nat, k: nat)
    requires
        from <= k < NAME_ATTEMPTS,
        !taken.contains(name_attempt(clean, k)),
    ensures
        free_attempt(clean, taken, from) matches Some(name) && !taken.contains(name),
    decreases k - from,
{
    if taken.contains(name_attempt(clean, from)) {
        lemma_free_attempt(clean, taken, from + 1, k);
    }
}

/// A file's name keeps every character of the text at its place, but for the
/// nine that a file's name cannot hold, which become underscores; white space at
/// the ends is dropped, and a blank text becomes `app`.
pub proof fn law_sanitized_chars(front: Seq<char>, s: Seq<char>, back: Seq<char>)
    requires
        text::all_white(front),
        text::all_white(back),
        text::is_trimmed(s),
    ensures
        s.len() == 0 ==> sanitized(front + s + back) == "app"@,
        s.len() > 0 ==> sanitized(front + s + back).len() == s.len() && forall|i: int|
            0 <= i < s.len() ==> #[trigger] sanitized(front + s + back)[i] == if s[i] == '<' || s[i]
                == '>' || s[i] == ':' || s[i] == '"' || s[i] == '/' || s[i] == '\\' || s[i] == '|'
                || s[i] == '?' || s[i] == '*' {
                '_'
            } else {
                s[i]
            },
{
    let all = front + s + back;
    let n = front.len() as int;
    let m = s.len() as int;
    let u = underscored(s);
    assert forall|i: int| 0 <= i < all.len() implies #[trigger] underscored(all)[i] == (front + u
        + back)[i] by {
        if i < n {
            assert(all[i] == front[i]);
            assert(text::is_white_space(front[i]));
        } else if i < n + m {
            assert(all[i] == s[i - n]);
        } else {
            assert(all[i] == back[i - n - m]);
            assert(text::is_white_space(back[i - n - m]));
        }
    }
    assert(underscored(all) =~= front + u + back);
    assert(text::is_trimmed(u));
    text::law_trimmed(front, u, back);
}

/// A name is compared by its ASCII letters, in lower case, and digits alone: any
/// other character does not count.
pub proof fn law_normalized_char(c: char)
    ensures
        ('0' <= c && c <= '9') || ('a' <= c && c <= 'z') ==> normalized_name(seq![c]) == seq![c],
        'A' <= c && c <= 'Z' ==> normalized_name(seq![c]) == text::lower_ascii(seq![c]),
        !(('0' <= c && c <= '9') || ('a' <= c && c <= 'z') || ('A' <= c && c <= 'Z'))
            ==> normalized_name(seq![c]).len() == 0,
{
    let one = seq![c];
    assert(one.drop_last() =~= Seq::empty());
    assert(normalized_name(one.drop_last()) =~= Seq::empty());
    assert(text::lower_ascii(one) =~= seq![text::lower_char(c)]);
    assert(one.last() == c);
    assert(normalized_name(one) =~= if text::is_ascii_alphanumeric(c) {
        seq![text::lower_char(c)]
    } else {
        Seq::empty()
    });
}

proof fn lemma_digit_run_is(s: Seq<char>, n: int)
    requires
        0 <= n <= s.len(),
        forall|i: int| 0 <= i < n ==> text::is_digit(#[trigger] s[i]),
        n < s.len() ==> !text::is_digit(s[n]),
    ensures
        digit_run(s) == n,
    decreases s.len(),
{
    if n > 0 {
        assert(text::is_digit(s[0]));
        let rest = s.drop_first();
        assert forall|i: int| 0 <= i < n - 1 implies text::is_digit(#[trigger] rest[i]) by {
            assert(rest[i] == s[i + 1]);
        }
        lemma_digit_run_is(rest, n - 1);
    }
}

/// A number that is put before a name to sort it is dropped: digits at the
/// beginning with a dot, a hyphen, an underscore or a blank behind them. Any
/// other text is only trimmed.
pub proof fn law_sort_prefix(digits: Seq<char>, mark: char, rest: Seq<char>)
    requires
        forall|i: int| 0 <= i < digits.len() ==> text::is_digit(#[trigger] digits[i]),
        !text::is_digit(mark),
        text::is_trimmed(digits + seq![mark] + rest),
    ensures
        digits.len() > 0 && (mark == '.' || mark == '-' || mark == '_' || mark == ' ')
            ==> without_sort_prefix(digits + seq![mark] + rest) == text::trimmed(rest),
        digits.len() == 0 || !(mark == '.' || mark == '-' || mark == '_' || mark == ' ')
            ==> without_sort_prefix(digits + seq![mark] + rest) == digits + seq![mark] + rest,
        without_sort_prefix(digits) == digits,
{
    let s = digits + seq![mark] + rest;
    let n = digits.len() as int;
    text::law_trimmed_idempotent(s);
    assert(s[n] == mark);
    assert forall|i: int| 0 <= i < n implies text::is_digit(#[trigger] s[i]) by {
        assert(s[i] == digits[i]);
    }
    lemma_digit_run_is(s, n);
    assert(s.skip(n + 1) =~= rest);
    lemma_digit_run_is(digits, n);
    if n > 0 {
        assert(text::is_digit(digits[0]) && text::is_digit(digits[n - 1]));
    }
    text::law_trimmed_idempotent(digits);
}

/// White space around a name does not matter to its sorting number.
pub proof fn law_sort_prefix_trimmed(front: Seq<char>, s: Seq<char>, back: Seq<char>)
    requires
        text::all_white(front),
        text::all_white(back),
        text::is_trimmed(s),
    ensures
        without_sort_prefix(front + s + back) == without_sort_prefix(s),
{
    text::law_trimmed(front, s, back);
    text::law_trimmed_idempotent(s);
}

proof fn lemma_slug_parts_shift(
    front: Seq<char>,
    front_readings: Seq<Option<Seq<char>>>,
    s: Seq<char>,
    readings: Seq<Option<Seq<char>>>,
    j: int,
    run: Seq<char>,
)
    requires
        front_readings.len() == front.len(),
        readings.len() == s.len(),
        0 <= j <= s.len(),
    ensures
        slug_parts(front + s, front_readings + readings, front.len() + j, run) == slug_parts(
            s,
            readings,
            j,
            run,
        ),
    decreases s.len() - j,
{
    if j < s.len() {
        let n = front.len() as int;
        assert((front + s)[n + j] == s[j]);
        assert((front_readings + readings)[n + j] == readings[j]);
        lemma_slug_parts_shift(
            front,
            front_readings,
            s,
            readings,
            j + 1,
            run.push(text::lower_char(s[j])),
        );
        lemma_slug_parts_shift(front, front_readings, s, readings, j + 1, Seq::empty());
    }
}

proof fn lemma_slug_parts_cut(
    a: Seq<char>,
    a_readings: Seq<Option<Seq<char>>>,
    c: char,
    reading: Option<Seq<char>>,
    b: Seq<char>,
    b_readings: Seq<Option<Seq<char>>>,
    i: int,
    run: Seq<char>,
)
    requires
        a_readings.len() == a.len(),
        b_readings.len() == b.len(),
        !text::is_ascii_alphanumeric(c),
        0 <= i <= a.len(),
    ensures
        slug_parts(
            a + seq![c] + b,
            a_readings + seq![reading] + b_readings,
            i,
            run,
        ) == slug_parts(a, a_readings, i, run) + slug_part(c, reading) + slug_parts(
            b,
            b_readings,
            0,
            Seq::empty(),
        ),
    decreases a.len() - i,
{
    let s = a + seq![c] + b;
    let readings = a_readings + seq![reading] + b_readings;
    let behind = slug_parts(b, b_readings, 0, Seq::empty());
    if i == a.len() {
        assert(s[i] == c);
        assert(readings[i] == reading);
        lemma_slug_parts_shift(
            a + seq![c],
            a_readings + seq![reading],
            b,
            b_readings,
            0,
            Seq::empty(),
        );
        assert(slug_parts(s, readings, i + 1, Seq::empty()) == behind);
    } else {
        assert(s[i] == a[i]);
        assert(readings[i] == a_readings[i]);
        let grown = run.push(text::lower_char(a[i]));
        lemma_slug_parts_cut(a, a_readings, c, reading, b, b_readings, i + 1, grown);
        lemma_slug_parts_cut(a, a_readings, c, reading, b, b_readings, i + 1, Seq::empty());
        if !text::is_ascii_alphanumeric(a[i]) {
            let rest = slug_parts(a, a_readings, i + 1, Seq::empty());
            let head = run_part(run) + slug_part(a[i], a_readings[i]);
            assert(head + (rest + slug_part(c, reading) + behind) =~= head + rest + slug_part(
                c,
                reading,
            ) + behind);
        }
    }
}

proof fn lemma_slug_parts_run(
    s: Seq<char>,
    readings: Seq<Option<Seq<char>>>,
    i: int,
    run: Seq<char>,
)
    requires
        forall|j: int| 0 <= j < s.len() ==> text::is_ascii_alphanumeric(#[trigger] s[j]),
        0 <= i <= s.len(),
    ensures
        slug_parts(s, readings, i, run) == run_part(run + text::lower_ascii(s.skip(i))),
    decreases s.len() - i,
{
    let rest = text::lower_ascii(s.skip(i));
    if i == s.len() {
        assert(run + rest =~= run);
    } else {
        assert(text::is_ascii_alphanumeric(s[i]));
        let grown = run.push(text::lower_char(s[i]));
        lemma_slug_parts_run(s, readings, i + 1, grown);
        assert(run + rest =~= grown + text::lower_ascii(s.skip(i + 1)));
    }
}

/// The parts of a folder's name, in the order of the category's name: a run of
/// ASCII letters and digits is one part, in lower case, and any other character
/// ends it and is a part of its own, where it has one.
pub proof fn law_slug_parts(
    a: Seq<char>,
    a_readings: Seq<Option<Seq<char>>>,
    c: char,
    reading: Option<Seq<char>>,
    b: Seq<char>,
    b_readings: Seq<Option<Seq<char>>>,
)
    requires
        a_readings.len() == a.len(),
        b_readings.len() == b.len(),
    ensures
        !text::is_ascii_alphanumeric(c) ==> slug_parts(
            a + seq![c] + b,
            a_readings + seq![reading] + b_readings,
            0,
            Seq::empty(),
        ) == slug_parts(a, a_readings, 0, Seq::empty()) + slug_part(c, reading) + slug_parts(
            b,
            b_readings,
            0,
            Seq::empty(),
        ),
        a.len() > 0 && (forall|i: int|
            0 <= i < a.len() ==> text::is_ascii_alphanumeric(#[trigger] a[i])) ==> slug_parts(
            a,
            a_readings,
            0,
            Seq::empty(),
        ) == seq![text::lower_ascii(a)],
        a.len() == 0 ==> slug_parts(a, a_readings, 0, Seq::empty()).len() == 0,
{
    if !text::is_ascii_alphanumeric(c) {
        lemma_slug_parts_cut(a, a_readings, c, reading, b, b_readings, 0, Seq::empty());
    }
    if a.len() > 0 && (forall|i: int|
        0 <= i < a.len() ==> text::is_ascii_alphanumeric(#[trigger] a[i])) {
        lemma_slug_parts_run(a, a_readings, 0, Seq::empty());
        assert(Seq::<char>::empty() + text::lower_ascii(a.skip(0)) =~= text::lower_ascii(a));
    }
}

/// A character with a reading is shown by its reading; a Chinese character
/// without one by `u` and its code in hexadecimal; any other leaves nothing.
pub proof fn law_slug_part(c: char, reading: Seq<char>)
    ensures
        slug_part(c, Some(reading)) == seq![reading],
        '\u{4e00}' <= c && c <= '\u{9fff}' ==> slug_part(c, None) == seq![
            seq!['u'] + numbers::hexadecimal(c as nat),
        ],
        ('\u{3400}' <= c && c <= '\u{4dbf}') || ('\u{20000}' <= c && c <= '\u{2a6df}') || (
        '\u{2a700}' <= c && c <= '\u{2b73f}') ==> slug_part(c, None) == seq![
            seq!['u'] + numbers::hexadecimal(c as nat),
        ],
        c < '\u{3400}' || ('\u{4dbf}' < c && c < '\u{4e00}') || ('\u{9fff}' < c && c
            < '\u{20000}') || '\u{2b73f}' < c ==> slug_part(c, None).len() == 0,
{
}

/// A folder's name is its parts with hyphens between them, and `category` where
/// there is no part.
pub proof fn law_slug(s: Seq<char>, readings: Seq<Option<Seq<char>>>)
    requires
        readings.len() == s.len(),
        good_readings(readings),
    ensures
        ({
            let parts = slug_parts(s, readings, 0, Seq::empty());
            &&& parts.len() == 0 ==> slug(s, readings) == "category"@
            &&& parts.len() > 0 ==> slug(s, readings) == text::joined(parts, seq!['-'])
        }),
{
    let parts = slug_parts(s, readings, 0, Seq::empty());
    lemma_slug_parts_good(s, readings, 0, Seq::empty());
    if parts.len() > 0 {
        assert(parts.last() == parts[parts.len() - 1]);
        assert(parts[0].len() > 0);
    }
}

/// A category's folder is named after the lower case of the category's name
/// without its sorting number.
pub proof fn law_category_slug(name: Seq<char>)
    ensures
        ({
            let lower = unicode_lowercase(without_sort_prefix(name));
            category_slug_of(name) == slug(
                lower,
                Seq::new(lower.len(), |i: int| pinyin_reading(lower[i])),
            )
        }),
{
    let t = text::trimmed(name);
    text::law_trimmed_idempotent(name);
    text::law_trimmed_idempotent(t.skip(digit_run(t) as int + 1));
    text::law_trimmed_idempotent(without_sort_prefix(name));
}

/// A name falls apart at its last dot: what stands before it is the stem, what
/// stands behind it the extension. A name without a dot, or whose only dot is at
/// its beginning, has no extension.
pub proof fn law_stem_and_extension<T>(stem: Seq<T>, dot: T, extension: Seq<T>)
    requires
        !extension.contains(dot),
    ensures
        stem.len() > 0 && !(stem == seq![dot] && extension.len() == 0) ==> stem_and_extension(
            stem + seq![dot] + extension,
            dot,
        ) == (stem, Some(extension)),
        stem_and_extension(extension, dot) == (extension, None::<Seq<T>>),
        stem_and_extension(seq![dot] + extension, dot) == (seq![dot] + extension, None::<Seq<T>>),
        stem_and_extension(seq![dot, dot], dot) == (seq![dot, dot], None::<Seq<T>>),
{
    let name = stem + seq![dot] + extension;
    let n = stem.len() as int;
    assert forall|j: int| 0 <= j < extension.len() implies extension[j] != dot by {
        assert(extension.contains(extension[j]));
    }
    assert(name[n] == dot);
    assert forall|j: int| n < j < name.len() implies name[j] != dot by {
        assert(name[j] == extension[j - n - 1]);
    }
    lemma_last_index_is(name, dot, n);
    assert(name.take(n) =~= stem);
    assert(name.skip(n + 1) =~= extension);
    if name == seq![dot, dot] && n > 0 {
        assert(name.len() == 2);
        assert(stem[0] == name[0]);
        assert(stem =~= seq![dot]);
    }
    lemma_last_index_none(extension, dot);
    let hidden = seq![dot] + extension;
    assert(hidden[0] == dot);
    assert forall|j: int| 0 < j < hidden.len() implies hidden[j] != dot by {
        assert(hidden[j] == extension[j - 1]);
    }
    lemma_last_index_is(hidden, dot, 0);
    lemma_last_index_is(seq![dot, dot], dot, 1);
}

/// A name that is taken gets a number: behind its stem and before its extension,
/// which stays as it is.
pub proof fn law_name_attempt(stem: Seq<char>, extension: Seq<char>, k: nat)
    requires
        !extension.contains('.'),
        stem.len() > 0,
        k > 0,
    ensures
        !is_dots(stem + seq!['.'] + extension) ==> name_attempt(
            stem + seq!['.'] + extension,
            k,
        ) == stem + seq!['-'] + numbers::decimal(k) + seq!['.'] + extension,
        name_attempt(extension, k) == extension + seq!['-'] + numbers::decimal(k),
        name_attempt(stem, 0) == stem,
{
    law_stem_and_extension(stem, '.', extension);
    if stem == seq!['.'] && extension.len() == 0 {
        assert(stem + seq!['.'] + extension =~= seq!['.', '.']);
    }
    if is_dots(extension) {
        assert(extension.contains(extension[0]));
    }
}

/// Two attempts at a name differ.
pub proof fn law_name_attempts_differ(clean: Seq<char>, j: nat, k: nat)
    requires
        clean.len() > 0,
        j < k,
    ensures
        name_attempt(clean, j) != name_attempt(clean, k),
{
    numbers::lemma_decimal_shape(j);
    numbers::lemma_decimal_shape(k);
    numbers::law_decimal_read_back(j, k);
    numbers::law_decimal_read_back(k, k);
    lemma_last_index(clean, '.');
    reveal_strlit("app");
    let (stem, extension) = if is_dots(clean) {
        (DEFAULT_FILE_NAME@, None)
    } else {
        stem_and_extension(clean, '.')
    };
    let a = name_attempt(clean, j);
    let b = name_attempt(clean, k);
    let tail = match extension {
        Some(e) => seq!['.'] + e,
        None => Seq::<char>::empty(),
    };
    let n = stem.len() as int + 1;
    let d = numbers::decimal(k);
    assert(b =~= stem + seq!['-'] + d + tail);
    assert(b.subrange(n, n + d.len()) =~= d);
    if j == 0 {
        assert(b.len() > a.len());
    } else {
        let c = numbers::decimal(j);
        assert(a =~= stem + seq!['-'] + c + tail);
        assert(a.subrange(n, n + c.len()) =~= c);
        if a == b {
            assert(c.len() == d.len());
            assert(c == d);
        }
    }
}

/// The name that is chosen is the first attempt that is not taken, of a thousand;
/// after them the time is put before the name.
pub proof fn law_unique_name_is_first(s: Seq<char>, taken: Seq<Seq<char>>, now: nat, k: nat)
    requires
        forall|j: nat| j < k ==> taken.contains(#[trigger] name_attempt(sanitized(s), j)),
    ensures
        k < 1000 && !taken.contains(name_attempt(sanitized(s), k)) ==> unique_name(s, taken, now)
            == name_attempt(sanitized(s), k),
        k >= 1000 ==> unique_name(s, taken, now) == numbers::decimal(now) + seq!['-'] + sanitized(
            s,
        ),
{
    lemma_first_free(sanitized(s), taken, 0, k);
}

proof fn lemma_first_free(clean: Seq<char>, taken: Seq<Seq<char>>, from: nat, k: nat)
    requires
        from <= k,
        from <= NAME_ATTEMPTS,
        forall|j: nat| j < k ==> taken.contains(#[trigger] name_attempt(clean, j)),
    ensures
        k < NAME_ATTEMPTS && !taken.contains(name_attempt(clean, k)) ==> free_attempt(
            clean,
            taken,
            from,
        ) == Some(name_attempt(clean, k)),
        k >= NAME_ATTEMPTS ==> free_attempt(clean, taken, from) is None,
    decreases NAME_ATTEMPTS - from,
{
    if from < k && from < NAME_ATTEMPTS {
        assert(taken.contains(name_attempt(clean, from)));
        lemma_first_free(clean, taken, from + 1, k);
    }
}

proof fn lemma_attempts_taken(clean: Seq<char>, taken: Seq<Seq<char>>, k: nat)
    requires
        clean.len() > 0,
        forall|j: nat| j < k ==> taken.contains(#[trigger] name_attempt(clean, j)),
    ensures
        taken.len() >= k,
    decreases k,
{
    if k > 0 {
        let last = (k - 1) as nat;
        let x = name_attempt(clean, last);
        assert(taken.contains(x));
        let i = choose|i: int| 0 <= i < taken.len() && taken[i] == x;
        let rest = taken.remove(i);
        assert forall|j: nat| j < last implies rest.contains(#[trigger] name_attempt(clean, j)) by {
            let y = name_attempt(clean, j);
            law_name_attempts_differ(clean, j, last);
            assert(taken.contains(y));
            let m = choose|m: int| 0 <= m < taken.len() && taken[m] == y;
            if m < i {
                assert(rest[m] == y);
            } else {
                assert(rest[m - 1] == y);
            }
        }
        lemma_attempts_taken(clean, rest, last);
    }
}

/// Beside fewer than a thousand names the chosen name is none of them.
pub proof fn law_unique_name_is_unique(s: Seq<char>, taken: Seq<Seq<char>>, now: nat)
    requires
        taken.len() < 1000,
    ensures
        !taken.contains(unique_name(s, taken, now)),
{
    let clean = sanitized(s);
    law_sanitized(s);
    if forall|j: nat| j < 1000 ==> taken.contains(#[trigger] name_attempt(clean, j)) {
        lemma_attempts_taken(clean, taken, 1000);
    } else {
        let k = choose|k: nat| k < 1000 && !taken.contains(#[trigger] name_attempt(clean, k));
        law_unique_name_is_free(s, taken, now, k);
    }
}

// ---------------------------------------------------------------------------
// Code
// ---------------------------------------------------------------------------

fn is_invalid_char(c: char) -> (r: bool)
    ensures
        r == is_invalid(c),
{
    c == '<' || c == '>' || c == ':' || c == '"' || c == '/' || c == '\\' || c == '|' || c == '?'
        || c == '*'
}

/// A name that can be a file's name.
pub fn sanitize_file_name(value: &str) -> (r: String)
    ensures
        r@ == sanitized(value@),
{
    let mut out = String::new();
    for c in it: value.chars()
        invariant
            out@ == underscored(value@.take(it.index())),
            it.seq() == value@,
    {
        let d: char = if is_invalid_char(c) {
            '_'
        } else {
            c
        };
        out.push(d);
        assert(underscored(value@.take(it.index() + 1)) =~= underscored(
            value@.take(it.index()),
        ).push(d));
    }
    assert(value@.take(value@.len() as int) =~= value@);
    let clean = trim(out.as_str());
    if clean.as_str().is_empty() {
        DEFAULT_FILE_NAME.to_string()
    } else {
        clean
    }
}

/// The name of a category as it is kept.
pub fn validate_category_name(name: &str) -> (r: Result<String, String>)
    ensures
        match r {
            Ok(clean) => clean@ == text::trimmed(name@) && clean@.len() > 0 && !has_invalid(clean@),
            Err(e) => if text::trimmed(name@).len() == 0 {
                e@ == EMPTY_CATEGORY_NAME@
            } else {
                has_invalid(text::trimmed(name@)) && e@ == INVALID_CATEGORY_NAME@
            },
        },
{
    let clean = trim(name);
    if clean.as_str().is_empty() {
        return Err(EMPTY_CATEGORY_NAME.to_string());
    }
    let v = chars_of(clean.as_str());
    let mut i: usize = 0;
    while i < v.len()
        invariant
            i <= v@.len(),
            v@ == clean@,
            clean@ == text::trimmed(name@),
            clean@.len() > 0,
            forall|j: int| 0 <= j < i ==> !is_invalid(#[trigger] v@[j]),
        decreases v@.len() - i,
    {
        if is_invalid_char(v[i]) {
            return Err(INVALID_CATEGORY_NAME.to_string());
        }
        i = i + 1;
    }
    Ok(clean)
}

/// The letters and digits of a name, in lower case.
pub fn normalize_name(value: &str) -> (r: String)
    ensures
        r@ == normalized_name(value@),
{
    let mut out = String::new();
    for c in it: value.chars()
        invariant
            out@ == normalized_name(value@.take(it.index())),
            it.seq() == value@,
    {
        assert(value@.take(it.index() + 1).drop_last() =~= value@.take(it.index()));
        assert(value@.take(it.index() + 1).last() == c);
        if is_alphanumeric(c) {
            out.push(to_lower_char(c));
        }
    }
    assert(value@.take(value@.len() as int) =~= value@);
    out
}

/// A name without the number that sorts it.
pub fn strip_sort_prefix(value: &str) -> (r: String)
    ensures
        r@ == without_sort_prefix(value@),
{
    let t = trim(value);
    let v = chars_of(t.as_str());
    let mut n: usize = 0;
    assert(v@.skip(0) =~= v@);
    while n < v.len() && '0' <= v[n] && v[n] <= '9'
        invariant
            n <= v@.len(),
            digit_run(v@) == n + digit_run(v@.skip(n as int)),
        decreases v@.len() - n,
    {
        assert(v@.skip(n as int).drop_first() =~= v@.skip(n + 1));
        n = n + 1;
    }
    if n > 0 && n < v.len() && (v[n] == '.' || v[n] == '-' || v[n] == '_' || v[n] == ' ') {
        let rest = text_range(&v, n + 1, v.len());
        assert(rest@ =~= v@.skip(n + 1));
        trim(rest.as_str())
    } else {
        t
    }
}

/// Whether a character is an ideograph of the main block or of the first
/// extensions.
pub fn is_cjk_char(c: char) -> (r: bool)
    ensures
        r == is_cjk(c),
{
    ('\u{4e00}' <= c && c <= '\u{9fff}') || ('\u{3400}' <= c && c <= '\u{4dbf}') || (
    '\u{20000}' <= c && c <= '\u{2a6df}') || ('\u{2a700}' <= c && c <= '\u{2b73f}')
}

/// The slug of a text whose characters have the given readings.
pub fn slug_of(chars: &Vec<char>, readings: &Vec<Option<String>>) -> (r: String)
    requires
        readings@.len() == chars@.len(),
    ensures
        r@ == slug(chars@, opt_texts(readings@)),
{
    let ghost all = slug_parts(chars@, opt_texts(readings@), 0, Seq::empty());
    let mut parts: Vec<String> = Vec::new();
    let mut run = String::new();
    let mut i: usize = 0;
    assert(text::texts(parts@) + all =~= all);
    while i < chars.len()
        invariant
            i <= chars@.len(),
            readings@.len() == chars@.len(),
            all == slug_parts(chars@, opt_texts(readings@), 0, Seq::empty()),
            text::texts(parts@) + slug_parts(chars@, opt_texts(readings@), i as int, run@) == all,
        decreases chars@.len() - i,
    {
        let c = chars[i];
        if is_alphanumeric(c) {
            run.push(to_lower_char(c));
        } else {
            let ghost before = text::texts(parts@);
            let ghost run_before = run@;
            let ghost part = slug_part(c, opt_texts(readings@)[i as int]);
            let ghost rest = slug_parts(
                chars@,
                opt_texts(readings@),
                i + 1,
                Seq::empty(),
            );
            if !run.as_str().is_empty() {
                parts.push(run);
                run = String::new();
            }
            assert(text::texts(parts@) =~= before + run_part(run_before));
            let ghost middle = text::texts(parts@);
            match &readings[i] {
                Some(p) => {
                    parts.push(p.clone());
                },
                None => {
                    if is_cjk_char(c) {
                        let mut code = String::new();
                        code.push('u');
                        let hex = hex_text(c as u64);
                        push_text(&mut code, hex.as_str());
                        assert(code@ =~= seq!['u'] + numbers::hexadecimal(c as nat));
                        parts.push(code);
                    }
                },
            }
            assert(text::texts(parts@) =~= middle + part);
            assert(run@ =~= Seq::<char>::empty());
            assert(text::texts(parts@) + rest =~= before + (run_part(run_before) + part + rest));
        }
        i = i + 1;
    }
    let ghost before = text::texts(parts@);
    let ghost last = run@;
    if !run.as_str().is_empty() {
        parts.push(run);
    }
    assert(text::texts(parts@) =~= before + run_part(last));
    let sep: &str = "-";
    let joined = join_texts(&parts, sep);
    proof {
        reveal_strlit("-");
        assert(sep@ =~= seq!['-']);
    }
    if joined.as_str().is_empty() {
        DEFAULT_CATEGORY_FOLDER.to_string()
    } else {
        joined
    }
}

/// The views of a list of optional strings.
pub open spec fn opt_texts(v: Seq<Option<String>>) -> Seq<Option<Seq<char>>> {
    Seq::new(v.len(), |i: int| text::opt_text(v[i]))
}

/// The readings of the characters of a text.
pub open spec fn readings_of(s: Seq<char>) -> Seq<Option<Seq<char>>> {
    Seq::new(s.len(), |i: int| pinyin_reading(s[i]))
}

/// The slug of a category's name: the name without its sort number, in lower
/// case, with readings in place of ideographs.
pub open spec fn category_slug_of(name: Seq<char>) -> Seq<char> {
    let lower = unicode_lowercase(text::trimmed(without_sort_prefix(name)));
    slug(lower, readings_of(lower))
}

/// The slug of a category's name.
pub fn category_slug(category_name: &str) -> (r: String)
    ensures
        r@ == category_slug_of(category_name@),
        r@.len() > 0,
        all_slug_chars(r@),
{
    let stripped = strip_sort_prefix(category_name);
    let clean = trim(stripped.as_str());
    let lower = to_lowercase(clean.as_str());
    let v = chars_of(lower.as_str());
    let mut readings: Vec<Option<String>> = Vec::new();
    let mut i: usize = 0;
    while i < v.len()
        invariant
            i <= v@.len(),
            readings@.len() == i,
            forall|j: int|
                0 <= j < i ==> opt_texts(readings@)[j] == #[trigger] readings_of(v@)[j],
            good_readings(opt_texts(readings@)),
        decreases v@.len() - i,
    {
        let ghost before = readings@;
        let p = pinyin_plain(v[i]);
        readings.push(p);
        assert forall|j: int| 0 <= j < i + 1 implies opt_texts(readings@)[j]
            == #[trigger] readings_of(v@)[j] by {
            if j < i {
                assert(opt_texts(readings@)[j] == opt_texts(before)[j]);
            }
        }
        assert forall|j: int| 0 <= j < opt_texts(readings@).len() implies (
        #[trigger] opt_texts(readings@)[j] matches Some(p) ==> p.len() > 0 && all_slug_chars(p)) by {
            if j < i {
                assert(opt_texts(readings@)[j] == opt_texts(before)[j]);
            }
        }
        i = i + 1;
    }
    assert(opt_texts(readings@) =~= readings_of(v@));
    proof {
        law_slug_shape(v@, opt_texts(readings@));
    }
    slug_of(&v, &readings)
}

/// The folder of a category.
pub fn category_folder_name(category_name: &str) -> (r: String)
    ensures
        r@ == category_slug_of(category_name@),
        r@.len() > 0,
        all_slug_chars(r@),
{
    category_slug(category_name)
}

/// A file name as its stem and its extension.
fn split_extension(name: &str) -> (r: (String, Option<String>))
    ensures
        (r.0@, text::opt_text(r.1)) == stem_and_extension(name@, '.'),
{
    let v = chars_of(name);
    let mut i: usize = v.len();
    while i > 0
        invariant
            i <= v@.len(),
            v@ == name@,
            forall|j: int| i <= j < v@.len() ==> v@[j] != '.',
        decreases i,
    {
        i = i - 1;
        if v[i] == '.' {
            proof {
                lemma_last_index_is(v@, '.', i as int);
            }
            let two_dots = v.len() == 2 && v[0] == '.' && v[1] == '.';
            assert(two_dots == (name@ == seq!['.', '.'])) by {
                if two_dots {
                    assert(name@ =~= seq!['.', '.']);
                }
            }
            if i > 0 && !two_dots {
                let stem = text_range(&v, 0, i);
                let extension = text_range(&v, i + 1, v.len());
                assert(stem@ =~= name@.take(i as int));
                assert(extension@ =~= name@.skip(i + 1));
                return (stem, Some(extension));
            }
            return (text_of(&v), None);
        }
    }
    proof {
        lemma_last_index_none(v@, '.');
    }
    (text_of(&v), None)
}

/// The name that is tried for a file after `k` others.
fn numbered_name(clean: &str, k: u64) -> (r: String)
    ensures
        r@ == name_attempt(clean@, k as nat),
{
    if k == 0 {
        return clean.to_string();
    }
    let v = chars_of(clean);
    let dots = (v.len() == 1 && v[0] == '.') || (v.len() == 2 && v[0] == '.' && v[1] == '.');
    assert(dots == is_dots(clean@)) by {
        if dots {
            assert(clean@ =~= seq!['.'] || clean@ =~= seq!['.', '.']);
        }
    }
    let (stem, extension) = if dots {
        (DEFAULT_FILE_NAME.to_string(), None)
    } else {
        split_extension(clean)
    };
    let mut out = stem.clone();
    out.push('-');
    push_decimal(&mut out, k);
    match &extension {
        Some(e) => {
            out.push('.');
            push_text(&mut out, e.as_str());
        },
        None => {},
    }
    assert(out@ =~= name_attempt(clean@, k as nat));
    out
}

/// Whether a text stands in a list.
pub fn contains_string(list: &Vec<String>, s: &str) -> (r: bool)
    ensures
        r == text::texts(list@).contains(s@),
{
    let mut i: usize = 0;
    while i < list.len()
        invariant
            i <= list@.len(),
            forall|j: int| 0 <= j < i ==> text::texts(list@)[j] != s@,
        decreases list@.len() - i,
    {
        if same_text(list[i].as_str(), s) {
            assert(text::texts(list@)[i as int] == s@);
            return true;
        }
        i = i + 1;
    }
    false
}

/// A file name that is not among the taken ones: the name itself, the name
/// with a number up to 999 behind its stem or, where all of these are taken,
/// the name behind the time.
pub fn unique_file_name(file_name: &str, taken: &Vec<String>, now: u64) -> (r: String)
    ensures
        r@ == unique_name(file_name@, text::texts(taken@), now as nat),
{
    let clean = sanitize_file_name(file_name);
    let mut k: u64 = 0;
    while k < NAME_ATTEMPTS
        invariant
            k <= NAME_ATTEMPTS,
            clean@ == sanitized(file_name@),
            free_attempt(clean@, text::texts(taken@), 0) == free_attempt(
                clean@,
                text::texts(taken@),
                k as nat,
            ),
        decreases NAME_ATTEMPTS - k,
    {
        let name = numbered_name(clean.as_str(), k);
        if !contains_string(taken, name.as_str()) {
            return name;
        }
        k = k + 1;
    }
    let mut out = decimal_text(now);
    out.push('-');
    push_text(&mut out, clean.as_str());
    assert(out@ =~= numbers::decimal(now as nat) + seq!['-'] + clean@);
    out
}

} // verus!
