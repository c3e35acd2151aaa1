//! Text primitives.
//!
//! A text is modelled by the sequence of its characters. Every function here
//! states its result over that model, so that the rest of the library can
//! reason about names, headers and paths without looking at bytes.

use vstd::prelude::*;

verus! {

/// `String::push` appends the given character to the end of the string.
pub assume_specification[ String::push ](s: &mut String, c: char)
    ensures
        final(s)@ == old(s)@.push(c),
;

// ---------------------------------------------------------------------------
// Model
// ---------------------------------------------------------------------------

/// The views of a list of strings.
pub open spec fn texts(v: Seq<String>) -> Seq<Seq<char>> {
    Seq::new(v.len(), |i: int| v[i]@)
}

/// The view of an optional string.
pub open spec fn opt_text(v: Option<String>) -> Option<Seq<char>> {
    match v {
        Some(s) => Some(s@),
        None => None,
    }
}

/// The characters with the Unicode property `White_Space`.
pub open spec fn is_white_space(c: char) -> bool {
    ||| '\u{9}' <= c && c <= '\u{d}'
    ||| c == '\u{20}'
    ||| c == '\u{85}'
    ||| c == '\u{a0}'
    ||| c == '\u{1680}'
    ||| '\u{2000}' <= c && c <= '\u{200a}'
    ||| c == '\u{2028}'
    ||| c == '\u{2029}'
    ||| c == '\u{202f}'
    ||| c == '\u{205f}'
    ||| c == '\u{3000}'
}

/// `s` without its leading white space.
pub open spec fn trim_start(s: Seq<char>) -> Seq<char>
    decreases s.len(),
{
    if s.len() > 0 && is_white_space(s[0]) {
        trim_start(s.drop_first())
    } else {
        s
    }
}

/// `s` without its trailing white space.
pub open spec fn trim_end(s: Seq<char>) -> Seq<char>
    decreases s.len(),
{
    if s.len() > 0 && is_white_space(s.last()) {
        trim_end(s.drop_last())
    } else {
        s
    }
}

/// `s` without the white space around it.
pub open spec fn trimmed(s: Seq<char>) -> Seq<char> {
    trim_end(trim_start(s))
}

/// Neither end of `s` is white space.
pub open spec fn is_trimmed(s: Seq<char>) -> bool {
    s.len() > 0 ==> !is_white_space(s[0]) && !is_white_space(s.last())
}

/// An ASCII decimal digit.
pub open spec fn is_digit(c: char) -> bool {
    '0' <= c && c <= '9'
}

/// An ASCII letter or decimal digit.
pub open spec fn is_ascii_alphanumeric(c: char) -> bool {
    is_digit(c) || ('a' <= c && c <= 'z') || ('A' <= c && c <= 'Z')
}

/// The lower-case form of an ASCII capital; any other character unchanged.
pub open spec fn lower_char(c: char) -> char {
    if 'A' <= c && c <= 'Z' {
        ((c as u8) + 32) as char
    } else {
        c
    }
}

/// Every ASCII capital replaced by its lower-case form.
pub open spec fn lower_ascii(s: Seq<char>) -> Seq<char> {
    Seq::new(s.len(), |i: int| lower_char(s[i]))
}

/// `pat` stands in `s` at position `i`.
pub open spec fn matches_at<T>(s: Seq<T>, pat: Seq<T>, i: int) -> bool {
    0 <= i && i + pat.len() <= s.len() && s.subrange(i, i + pat.len()) == pat
}

/// The first position at or after `i` at which `pat` stands in `s`.
pub open spec fn find_from<T>(s: Seq<T>, pat: Seq<T>, i: int) -> Option<int>
    decreases s.len() + 1 - i,
{
    if i < 0 || i + pat.len() > s.len() {
        None
    } else if matches_at(s, pat, i) {
        Some(i)
    } else {
        find_from(s, pat, i + 1)
    }
}

/// The first position at which `pat` stands in `s`.
pub open spec fn find<T>(s: Seq<T>, pat: Seq<T>) -> Option<int> {
    find_from(s, pat, 0)
}

/// The first position at or after `i` of the element `x` in `s`.
pub open spec fn index_from<T>(s: Seq<T>, x: T, i: int) -> Option<int>
    decreases s.len() - i,
{
    if i < 0 || i >= s.len() {
        None
    } else if s[i] == x {
        Some(i)
    } else {
        index_from(s, x, i + 1)
    }
}

/// The parts of `s` before and after the first `pat`.
pub open spec fn split_once(s: Seq<char>, pat: Seq<char>) -> Option<(Seq<char>, Seq<char>)> {
    match find(s, pat) {
        Some(i) => Some((s.take(i), s.skip(i + pat.len()))),
        None => None,
    }
}

/// The parts of `s` before and after the first `c`.
pub open spec fn split_at_char(s: Seq<char>, c: char) -> Option<(Seq<char>, Seq<char>)> {
    match index_from(s, c, 0) {
        Some(i) => Some((s.take(i), s.skip(i + 1))),
        None => None,
    }
}

/// `s` without one trailing carriage return.
pub open spec fn strip_cr(s: Seq<char>) -> Seq<char> {
    if s.len() > 0 && s.last() == '\r' {
        s.drop_last()
    } else {
        s
    }
}

/// The lines of `s`: each ends at a line feed or at the end of the text; the
/// line feed, and a carriage return before it, are no part of the line.
pub open spec fn lines(s: Seq<char>) -> Seq<Seq<char>>
    decreases s.len(),
{
    if s.len() == 0 {
        Seq::empty()
    } else {
        match index_from(s, '\n', 0) {
            None => seq![s],
            Some(i) => if 0 <= i < s.len() {
                seq![strip_cr(s.take(i))] + lines(s.skip(i + 1))
            } else {
                Seq::empty()
            },
        }
    }
}

/// The pieces of `s` between the characters `c`.
pub open spec fn pieces(s: Seq<char>, c: char) -> Seq<Seq<char>>
    decreases s.len(),
{
    match index_from(s, c, 0) {
        Some(i) => if 0 <= i < s.len() {
            seq![s.take(i)] + pieces(s.skip(i + 1), c)
        } else {
            seq![s]
        },
        None => seq![s],
    }
}

/// The number of leading characters of `s` that are not white space.
pub open spec fn word_len(s: Seq<char>) -> nat
    decreases s.len(),
{
    if s.len() == 0 || is_white_space(s[0]) {
        0
    } else {
        1 + word_len(s.drop_first())
    }
}

/// The maximal runs of characters that are not white space, in order.
pub open spec fn words(s: Seq<char>) -> Seq<Seq<char>>
    decreases s.len(),
{
    if s.len() == 0 {
        Seq::empty()
    } else if is_white_space(s[0]) {
        words(s.drop_first())
    } else {
        let n = word_len(s) as int;
        if 0 < n <= s.len() {
            seq![s.take(n)] + words(s.skip(n))
        } else {
            Seq::empty()
        }
    }
}

/// `s` with every `from` replaced by `to`.
pub open spec fn replaced(s: Seq<char>, from: char, to: char) -> Seq<char> {
    Seq::new(s.len(), |i: int| if s[i] == from { to } else { s[i] })
}

/// `parts` written one after the other with `sep` between them.
pub open spec fn joined(parts: Seq<Seq<char>>, sep: Seq<char>) -> Seq<char>
    decreases parts.len(),
{
    if parts.len() == 0 {
        Seq::empty()
    } else if parts.len() == 1 {
        parts[0]
    } else {
        joined(parts.drop_last(), sep) + sep + parts.last()
    }
}

/// `a` comes before `b` in the lexicographic order by code point.
pub open spec fn text_less(a: Seq<char>, b: Seq<char>) -> bool
    decreases a.len(),
{
    if b.len() == 0 {
        false
    } else if a.len() == 0 {
        true
    } else if a[0] == b[0] {
        text_less(a.drop_first(), b.drop_first())
    } else {
        a[0] < b[0]
    }
}

// ---------------------------------------------------------------------------
// Facts about the model
// ---------------------------------------------------------------------------

/// Trimming keeps a piece of the text that begins and ends with a character
/// that is not white space.
pub proof fn lemma_trim_end_shape(s: Seq<char>)
    ensures
        trim_end(s).len() <= s.len(),
        trim_end(s) == s.take(trim_end(s).len() as int),
        trim_end(s).len() > 0 ==> !is_white_space(trim_end(s).last()),
        trim_end(s).len() > 0 ==> trim_end(s)[0] == s[0],
    decreases s.len(),
{
    if s.len() > 0 && is_white_space(s.last()) {
        lemma_trim_end_shape(s.drop_last());
    }
}

pub proof fn lemma_trim_start_shape(s: Seq<char>)
    ensures
        trim_start(s).len() <= s.len(),
        trim_start(s) == s.skip(s.len() - trim_start(s).len()),
        trim_start(s).len() > 0 ==> !is_white_space(trim_start(s)[0]),
    decreases s.len(),
{
    if s.len() > 0 && is_white_space(s[0]) {
        lemma_trim_start_shape(s.drop_first());
    }
}

/// Trimming leaves nothing to trim, and leaves a trimmed text as it is.
pub proof fn law_trimmed_idempotent(s: Seq<char>)
    ensures
        is_trimmed(trimmed(s)),
        trimmed(trimmed(s)) == trimmed(s),
        is_trimmed(s) ==> trimmed(s) == s,
        trimmed(s).len() <= s.len(),
{
    lemma_trim_start_shape(s);
    lemma_trim_end_shape(trim_start(s));
}

/// What trimming keeps is a piece of the text.
pub proof fn lemma_trimmed_contains(s: Seq<char>, c: char)
    requires
        trimmed(s).contains(c),
    ensures
        s.contains(c),
{
    lemma_trim_start_shape(s);
    lemma_trim_end_shape(trim_start(s));
    let i = choose|i: int| 0 <= i < trimmed(s).len() && trimmed(s)[i] == c;
    let d = s.len() - trim_start(s).len();
    assert(trim_start(s)[i] == c);
    assert(s[i + d] == c);
}

/// The position that `find_from` gives is the first one.
pub proof fn lemma_find_from<T>(s: Seq<T>, pat: Seq<T>, i: int)
    requires
        0 <= i,
    ensures
        match find_from(s, pat, i) {
            Some(k) => i <= k && matches_at(s, pat, k) && forall|j: int|
                i <= j < k ==> !matches_at(s, pat, j),
            None => forall|j: int| i <= j ==> !matches_at(s, pat, j),
        },
    decreases s.len() + 1 - i,
{
    if i + pat.len() > s.len() {
    } else if matches_at(s, pat, i) {
    } else {
        lemma_find_from(s, pat, i + 1);
    }
}

/// A position with no earlier match is the one that `find` gives.
pub proof fn lemma_find_is<T>(s: Seq<T>, pat: Seq<T>, k: int)
    requires
        matches_at(s, pat, k),
        forall|j: int| 0 <= j < k ==> !matches_at(s, pat, j),
    ensures
        find(s, pat) == Some(k),
{
    lemma_find_from(s, pat, 0);
}

pub proof fn lemma_index_from<T>(s: Seq<T>, x: T, i: int)
    requires
        0 <= i,
    ensures
        match index_from(s, x, i) {
            Some(k) => i <= k < s.len() && s[k] == x && forall|j: int| i <= j < k ==> s[j] != x,
            None => forall|j: int| i <= j < s.len() ==> s[j] != x,
        },
    decreases s.len() - i,
{
    if i >= s.len() {
    } else if s[i] == x {
    } else {
        lemma_index_from(s, x, i + 1);
    }
}

pub proof fn lemma_index_is<T>(s: Seq<T>, x: T, k: int)
    requires
        0 <= k < s.len(),
        s[k] == x,
        forall|j: int| 0 <= j < k ==> s[j] != x,
    ensures
        index_from(s, x, 0) == Some(k),
{
    lemma_index_from(s, x, 0);
}

pub proof fn lemma_word_len(s: Seq<char>)
    ensures
        word_len(s) <= s.len(),
        forall|i: int| 0 <= i < word_len(s) ==> !is_white_space(s[i]),
        word_len(s) < s.len() ==> is_white_space(s[word_len(s) as int]),
        s.len() > 0 && !is_white_space(s[0]) ==> word_len(s) > 0,
    decreases s.len(),
{
    if s.len() == 0 || is_white_space(s[0]) {
    } else {
        lemma_word_len(s.drop_first());
        assert forall|i: int| 0 <= i < word_len(s) implies !is_white_space(s[i]) by {
            if i > 0 {
                assert(s.drop_first()[i - 1] == s[i]);
            }
        }
    }
}

/// The length of the leading word is determined by where it ends.
pub proof fn lemma_word_len_is(s: Seq<char>, n: int)
    requires
        0 <= n <= s.len(),
        forall|i: int| 0 <= i < n ==> !is_white_space(s[i]),
        n < s.len() ==> is_white_space(s[n]),
    ensures
        word_len(s) == n,
{
    lemma_word_len(s);
    if word_len(s) < n {
        assert(is_white_space(s[word_len(s) as int]));
    }
    if n < word_len(s) {
        assert(!is_white_space(s[n]));
    }
}

pub proof fn lemma_text_less_irreflexive(a: Seq<char>)
    ensures
        !text_less(a, a),
    decreases a.len(),
{
    if a.len() > 0 {
        lemma_text_less_irreflexive(a.drop_first());
    }
}

pub proof fn lemma_text_less_transitive(a: Seq<char>, b: Seq<char>, c: Seq<char>)
    requires
        text_less(a, b),
        text_less(b, c),
    ensures
        text_less(a, c),
    decreases a.len(),
{
    if a.len() > 0 && b.len() > 0 && c.len() > 0 && a[0] == b[0] && b[0] == c[0] {
        lemma_text_less_transitive(a.drop_first(), b.drop_first(), c.drop_first());
    }
}

pub proof fn lemma_text_less_total(a: Seq<char>, b: Seq<char>)
    ensures
        text_less(a, b) || text_less(b, a) || a == b,
    decreases a.len(),
{
    if a.len() == 0 || b.len() == 0 {
        if a.len() == 0 && b.len() == 0 {
            assert(a =~= b);
        }
    } else if a[0] == b[0] {
        lemma_text_less_total(a.drop_first(), b.drop_first());
        if a.drop_first() == b.drop_first() {
            assert(a =~= seq![a[0]] + a.drop_first());
            assert(b =~= seq![b[0]] + b.drop_first());
        }
    }
}

/// One more part is written behind the separator.
pub proof fn lemma_joined_push(parts: Seq<Seq<char>>, sep: Seq<char>, part: Seq<char>)
    requires
        parts.len() > 0,
    ensures
        joined(parts.push(part), sep) == joined(parts, sep) + sep + part,
{
    assert(parts.push(part).drop_last() =~= parts);
}

/// Equal UTF-8 encodings come from equal texts.
pub proof fn lemma_encode_injective(a: Seq<char>, b: Seq<char>)
    requires
        vstd::utf8::encode_utf8(a) == vstd::utf8::encode_utf8(b),
    ensures
        a == b,
{
    vstd::utf8::encode_utf8_decode_utf8(a);
    vstd::utf8::encode_utf8_decode_utf8(b);
}

/// The encoding of a concatenation is the concatenation of the encodings.
pub proof fn lemma_encode_concat(a: Seq<char>, b: Seq<char>)
    ensures
        vstd::utf8::encode_utf8(a + b) == vstd::utf8::encode_utf8(a) + vstd::utf8::encode_utf8(b),
    decreases a.len(),
{
    if a.len() == 0 {
        assert(a + b =~= b);
        assert(vstd::utf8::encode_utf8(a) =~= Seq::<u8>::empty());
        assert(vstd::utf8::encode_utf8(a) + vstd::utf8::encode_utf8(b) =~= vstd::utf8::encode_utf8(b));
    } else {
        assert((a + b).drop_first() =~= a.drop_first() + b);
        lemma_encode_concat(a.drop_first(), b);
        assert(vstd::utf8::encode_utf8(a + b) =~= vstd::utf8::encode_utf8(a) + vstd::utf8::encode_utf8(b));
    }
}

// ---------------------------------------------------------------------------
// Code
// ---------------------------------------------------------------------------

/// The characters of a text, in order.
pub fn chars_of(s: &str) -> (r: Vec<char>)
    ensures
        r@ == s@,
{
    let mut out: Vec<char> = Vec::new();
    for c in it: s.chars()
        invariant
            out@ == s@.take(it.index()),
            it.seq() == s@,
    {
        out.push(c);
    }
    out
}

/// Appends a text to a string.
pub fn push_text(out: &mut String, s: &str)
    ensures
        final(out)@ == old(out)@ + s@,
{
    let ghost before = out@;
    for c in it: s.chars()
        invariant
            out@ == before + s@.take(it.index()),
            it.seq() == s@,
    {
        out.push(c);
    }
}

/// The characters `from..to` of `v` as a string.
pub fn text_range(v: &Vec<char>, from: usize, to: usize) -> (r: String)
    requires
        from <= to <= v@.len(),
    ensures
        r@ == v@.subrange(from as int, to as int),
{
    let mut out = String::new();
    let mut i: usize = from;
    while i < to
        invariant
            from <= i <= to <= v@.len(),
            out@ == v@.subrange(from as int, i as int),
        decreases to - i,
    {
        out.push(v[i]);
        i = i + 1;
    }
    out
}

/// The characters of `v` as a string.
pub fn text_of(v: &Vec<char>) -> (r: String)
    ensures
        r@ == v@,
{
    let r = text_range(v, 0, v.len());
    assert(v@.subrange(0, v@.len() as int) =~= v@);
    r
}

/// Whether two texts are the same.
pub fn same_text(a: &str, b: &str) -> (r: bool)
    ensures
        r == (a@ == b@),
{
    let x = a.as_bytes();
    let y = b.as_bytes();
    if x.len() != y.len() {
        return false;
    }
    let mut i: usize = 0;
    while i < x.len()
        invariant
            i <= x@.len(),
            x@.len() == y@.len(),
            x@ == vstd::utf8::encode_utf8(a@),
            y@ == vstd::utf8::encode_utf8(b@),
            forall|j: int| 0 <= j < i ==> x@[j] == y@[j],
        decreases x@.len() - i,
    {
        if x[i] != y[i] {
            return false;
        }
        i = i + 1;
    }
    proof {
        assert(x@ =~= y@);
        lemma_encode_injective(a@, b@);
    }
    true
}

/// Whether `c` has the Unicode property `White_Space`.
pub fn is_whitespace(c: char) -> (r: bool)
    ensures
        r == is_white_space(c),
{
    ('\u{9}' <= c && c <= '\u{d}') || c == '\u{20}' || c == '\u{85}' || c == '\u{a0}' || c
        == '\u{1680}' || ('\u{2000}' <= c && c <= '\u{200a}') || c == '\u{2028}' || c == '\u{2029}'
        || c == '\u{202f}' || c == '\u{205f}' || c == '\u{3000}'
}

/// The text without the white space around it.
pub fn trim(s: &str) -> (r: String)
    ensures
        r@ == trimmed(s@),
{
    let v = chars_of(s);
    let mut i: usize = 0;
    assert(v@.skip(0) =~= v@);
    while i < v.len() && is_whitespace(v[i])
        invariant
            i <= v@.len(),
            trim_start(v@) == trim_start(v@.skip(i as int)),
        decreases v@.len() - i,
    {
        assert(v@.skip(i as int).drop_first() =~= v@.skip(i + 1));
        i = i + 1;
    }
    let ghost t = v@.skip(i as int);
    assert(trim_start(v@) == t);
    let mut j: usize = v.len();
    assert(v@.subrange(i as int, j as int) =~= t);
    while j > i && is_whitespace(v[j - 1])
        invariant
            i <= j <= v@.len(),
            trim_end(t) == trim_end(v@.subrange(i as int, j as int)),
        decreases j,
    {
        assert(v@.subrange(i as int, j as int).drop_last() =~= v@.subrange(i as int, j - 1));
        j = j - 1;
    }
    text_range(&v, i, j)
}

/// Whether a text holds nothing but white space.
pub fn is_blank(s: &str) -> (r: bool)
    ensures
        r == (trimmed(s@).len() == 0),
{
    trim(s).as_str().is_empty()
}

/// Whether `c` is an ASCII letter or decimal digit.
pub fn is_alphanumeric(c: char) -> (r: bool)
    ensures
        r == is_ascii_alphanumeric(c),
{
    ('0' <= c && c <= '9') || ('a' <= c && c <= 'z') || ('A' <= c && c <= 'Z')
}

/// The lower-case form of an ASCII capital; any other character unchanged.
pub fn to_lower_char(c: char) -> (r: char)
    ensures
        r == lower_char(c),
{
    if 'A' <= c && c <= 'Z' {
        ((c as u8) + 32) as char
    } else {
        c
    }
}

/// The text with every ASCII capital in lower case.
pub fn to_lower_ascii(s: &str) -> (r: String)
    ensures
        r@ == lower_ascii(s@),
{
    let mut out = String::new();
    for c in it: s.chars()
        invariant
            out@ == lower_ascii(s@.take(it.index())),
            it.seq() == s@,
    {
        out.push(to_lower_char(c));
        assert(lower_ascii(s@.take(it.index() + 1)) =~= lower_ascii(s@.take(it.index())).push(
            lower_char(c),
        ));
    }
    assert(s@.take(s@.len() as int) =~= s@);
    out
}

/// The text with every `from` replaced by `to`.
pub fn replace_char(s: &str, from: char, to: char) -> (r: String)
    ensures
        r@ == replaced(s@, from, to),
{
    let mut out = String::new();
    for c in it: s.chars()
        invariant
            out@ == replaced(s@.take(it.index()), from, to),
            it.seq() == s@,
    {
        out.push(if c == from { to } else { c });
        assert(replaced(s@.take(it.index() + 1), from, to) =~= replaced(
            s@.take(it.index()),
            from,
            to,
        ).push(if c == from { to } else { c }));
    }
    assert(s@.take(s@.len() as int) =~= s@);
    out
}

/// All characters of `s` are white space.
pub open spec fn all_white(s: Seq<char>) -> bool {
    forall|i: int| 0 <= i < s.len() ==> is_white_space(#[trigger] s[i])
}

/// No character of `s` is white space.
pub open spec fn none_white(s: Seq<char>) -> bool {
    forall|i: int| 0 <= i < s.len() ==> !is_white_space(#[trigger] s[i])
}

proof fn lemma_trim_start_front(front: Seq<char>, s: Seq<char>)
    requires
        all_white(front),
    ensures
        trim_start(front + s) == trim_start(s),
    decreases front.len(),
{
    if front.len() == 0 {
        assert(front + s =~= s);
    } else {
        assert((front + s)[0] == front[0]);
        assert((front + s).drop_first() =~= front.drop_first() + s);
        lemma_trim_start_front(front.drop_first(), s);
    }
}

proof fn lemma_trim_end_back(s: Seq<char>, back: Seq<char>)
    requires
        all_white(back),
    ensures
        trim_end(s + back) == trim_end(s),
    decreases back.len(),
{
    if back.len() == 0 {
        assert(s + back =~= s);
    } else {
        assert((s + back).last() == back.last());
        assert((s + back).drop_last() =~= s + back.drop_last());
        lemma_trim_end_back(s, back.drop_last());
    }
}

/// Trimming takes the white space from both ends of a text and nothing else.
pub proof fn law_trimmed(front: Seq<char>, s: Seq<char>, back: Seq<char>)
    requires
        all_white(front),
        all_white(back),
        is_trimmed(s),
    ensures
        trimmed(front + s + back) == s,
{
    assert(front + s + back =~= front + (s + back));
    lemma_trim_start_front(front, s + back);
    if s.len() == 0 {
        assert(s + back =~= back + Seq::<char>::empty());
        lemma_trim_start_front(back, Seq::empty());
        assert(trimmed(front + s + back) =~= s);
    } else {
        assert((s + back)[0] == s[0]);
        lemma_trim_end_back(s, back);
    }
}

/// A text falls into words at its white space: each run of other characters is
/// one word, and the words stand in the order of the text.
pub proof fn law_words(a: Seq<char>, w: char, b: Seq<char>)
    ensures
        is_white_space(w) ==> words(a + seq![w] + b) == words(a) + words(b),
        none_white(a) && a.len() > 0 ==> words(a) == seq![a],
        a.len() == 0 ==> words(a).len() == 0,
    decreases a.len(),
{
    let all = a + seq![w] + b;
    if a.len() == 0 {
        assert(all[0] == w);
        assert(all.drop_first() =~= b);
        assert(words(a) + words(b) =~= words(b));
    } else if is_white_space(a[0]) {
        assert(all[0] == a[0]);
        assert(all.drop_first() =~= a.drop_first() + seq![w] + b);
        law_words(a.drop_first(), w, b);
    } else {
        lemma_word_len(a);
        let n = word_len(a) as int;
        let rest = a.skip(n);
        if is_white_space(w) {
            assert forall|i: int| 0 <= i < n implies !is_white_space(all[i]) by {
                assert(all[i] == a[i]);
            }
            if n < a.len() {
                assert(all[n] == a[n]);
            } else {
                assert(all[n] == w);
            }
            lemma_word_len_is(all, n);
            assert(all[0] == a[0]);
            assert(all.take(n) =~= a.take(n));
            assert(all.skip(n) =~= rest + seq![w] + b);
            law_words(rest, w, b);
            assert(words(all) =~= words(a) + words(b));
        }
        if none_white(a) {
            assert(n == a.len());
            assert(a.take(n) =~= a);
            assert(rest =~= Seq::empty());
            assert(words(a) =~= seq![a]);
        }
    }
}

/// A text falls into lines at its line feeds; a carriage return before one is
/// not part of the line, and a text without a line feed is one line.
pub proof fn law_lines(a: Seq<char>, b: Seq<char>)
    requires
        !a.contains('\n'),
    ensures
        a.len() == 0 || a.last() != '\r' ==> lines(a + seq!['\n'] + b) == seq![a] + lines(b),
        lines(a + seq!['\r', '\n'] + b) == seq![a] + lines(b),
        a.len() > 0 ==> lines(a) == seq![a],
        a.len() == 0 ==> lines(a).len() == 0,
{
    assert forall|j: int| 0 <= j < a.len() implies a[j] != '\n' by {
        assert(a.contains(a[j]));
    }
    let n = a.len() as int;
    let plain = a + seq!['\n'] + b;
    assert(plain[n] == '\n');
    assert forall|j: int| 0 <= j < n implies plain[j] != '\n' by {
        assert(plain[j] == a[j]);
    }
    lemma_index_is(plain, '\n', n);
    assert(plain.take(n) =~= a);
    assert(plain.skip(n + 1) =~= b);
    let returned = a + seq!['\r', '\n'] + b;
    assert(returned[n] == '\r' && returned[n + 1] == '\n');
    assert forall|j: int| 0 <= j < n + 1 implies returned[j] != '\n' by {
        if j < n {
            assert(returned[j] == a[j]);
        }
    }
    lemma_index_is(returned, '\n', n + 1);
    assert(returned.take(n + 1) =~= a.push('\r'));
    assert(a.push('\r').drop_last() =~= a);
    assert(returned.skip(n + 2) =~= b);
    lemma_index_from(a, '\n', 0);
}

/// Texts are ordered by their first difference; a text stands before what it
/// begins.
pub proof fn law_text_less(p: Seq<char>, c: char, x: Seq<char>, d: char, y: Seq<char>)
    ensures
        c != d ==> text_less(p + seq![c] + x, p + seq![d] + y) == (c < d),
        text_less(p, p + x) == (x.len() > 0),
        !text_less(p + x, p),
    decreases p.len(),
{
    let a = p + seq![c] + x;
    let b = p + seq![d] + y;
    if p.len() == 0 {
        assert(a[0] == c && b[0] == d);
    } else {
        law_text_less(p.drop_first(), c, x, d, y);
        assert(a.drop_first() =~= p.drop_first() + seq![c] + x);
        assert(b.drop_first() =~= p.drop_first() + seq![d] + y);
        assert((p + x).drop_first() =~= p.drop_first() + x);
        assert(a[0] == p[0] && b[0] == p[0] && (p + x)[0] == p[0]);
    }
}

/// Joined texts stand behind each other, with the separator between them and
/// nowhere else.
pub proof fn law_joined(a: Seq<Seq<char>>, b: Seq<Seq<char>>, sep: Seq<char>, s: Seq<char>)
    ensures
        a.len() > 0 && b.len() > 0 ==> joined(a + b, sep) == joined(a, sep) + sep + joined(b, sep),
        joined(seq![s], sep) == s,
        a.len() == 0 ==> joined(a, sep).len() == 0,
    decreases b.len(),
{
    if a.len() > 0 && b.len() > 0 {
        assert((a + b).drop_last() =~= a + b.drop_last());
        assert((a + b).last() == b.last());
        if b.len() == 1 {
            assert(a + b.drop_last() =~= a);
        } else {
            law_joined(a, b.drop_last(), sep, s);
            assert(joined(a + b, sep) =~= joined(a, sep) + sep + joined(b, sep));
        }
    }
}

/// A text is split at the first place where the pattern stands, and only there;
/// a text that does not hold the pattern is not split.
pub proof fn law_split_once(s: Seq<char>, pat: Seq<char>)
    ensures
        match split_once(s, pat) {
            Some((a, b)) => s == a + pat + b && forall|x: Seq<char>, y: Seq<char>|
                s == #[trigger] (x + pat + y) ==> a.len() <= x.len(),
            None => forall|a: Seq<char>, b: Seq<char>| s != #[trigger] (a + pat + b),
        },
{
    lemma_find_from(s, pat, 0);
    match find(s, pat) {
        Some(i) => {
            let a = s.take(i);
            let b = s.skip(i + pat.len());
            assert(s.subrange(i, i + pat.len()) == pat);
            assert(s =~= a + s.subrange(i, i + pat.len()) + b);
            assert forall|x: Seq<char>, y: Seq<char>| s == #[trigger] (x + pat + y) implies a.len()
                <= x.len() by {
                let n = x.len() as int;
                assert((x + pat + y).subrange(n, n + pat.len()) =~= pat);
                assert(matches_at(s, pat, n));
            }
        },
        None => {
            assert forall|a: Seq<char>, b: Seq<char>| s != #[trigger] (a + pat + b) by {
                let t = a + pat + b;
                let n = a.len() as int;
                assert(t.subrange(n, n + pat.len()) =~= pat);
                assert(matches_at(t, pat, n));
                assert(!matches_at(s, pat, n));
            }
        },
    }
}

/// A text is split at the first `c`, and not where it has none.
pub proof fn law_split_at_char(a: Seq<char>, c: char, b: Seq<char>)
    requires
        !a.contains(c),
    ensures
        split_at_char(a + seq![c] + b, c) == Some((a, b)),
        split_at_char(a, c) is None,
{
    let s = a + seq![c] + b;
    let n = a.len() as int;
    assert forall|j: int| 0 <= j < n implies a[j] != c by {
        assert(a.contains(a[j]));
    }
    assert(s[n] == c);
    assert forall|j: int| 0 <= j < n implies s[j] != c by {
        assert(s[j] == a[j]);
    }
    lemma_index_is(s, c, n);
    assert(s.take(n) =~= a);
    assert(s.skip(n + 1) =~= b);
    lemma_index_from(a, c, 0);
}

/// Lower case: the letters from `A` to `Z` become those from `a` to `z`, at their
/// places, and nothing else changes.
pub proof fn law_lower_ascii(s: Seq<char>)
    ensures
        lower_ascii(s).len() == s.len(),
        forall|i: int|
            0 <= i < s.len() ==> {
                let c = #[trigger] s[i];
                let d = lower_ascii(s)[i];
                if 'A' <= c && c <= 'Z' {
                    d as u32 == c as u32 + 32
                } else {
                    d == c
                }
            },
        lower_ascii(lower_ascii(s)) == lower_ascii(s),
{
    assert forall|i: int| 0 <= i < s.len() implies {
        let c = #[trigger] s[i];
        let d = lower_ascii(s)[i];
        if 'A' <= c && c <= 'Z' {
            d as u32 == c as u32 + 32 && 'a' <= d && d <= 'z'
        } else {
            d == c
        }
    } by {
        let c = s[i];
        if 'A' <= c && c <= 'Z' {
            assert(65 <= c as u32 <= 90);
            assert((c as u8) as u32 == c as u32);
        }
    }
    assert(lower_ascii(lower_ascii(s)) =~= lower_ascii(s));
}

/// Replacing a character changes it everywhere and nothing else.
pub proof fn law_replaced(s: Seq<char>, from: char, to: char)
    ensures
        replaced(s, from, to).len() == s.len(),
        forall|i: int|
            0 <= i < s.len() ==> {
                let d = replaced(s, from, to)[i];
                (#[trigger] s[i] == from ==> d == to) && (s[i] != from ==> d == s[i])
            },
        from != to ==> !replaced(s, from, to).contains(from),
{
}

/// A text of which trimming leaves nothing is white space.
pub proof fn lemma_blank_is_white(s: Seq<char>)
    requires
        trimmed(s).len() == 0,
    ensures
        all_white(s),
    decreases s.len(),
{
    if s.len() > 0 {
        if is_white_space(s[0]) {
            lemma_blank_is_white(s.drop_first());
            assert forall|i: int| 0 <= i < s.len() implies is_white_space(#[trigger] s[i]) by {
                if i > 0 {
                    assert(s.drop_first()[i - 1] == s[i]);
                }
            }
        } else {
            lemma_trim_end_keeps_first(s);
        }
    }
}

proof fn lemma_trim_end_keeps_first(s: Seq<char>)
    requires
        s.len() > 0,
        !is_white_space(s[0]),
    ensures
        trim_end(s).len() > 0,
    decreases s.len(),
{
    if is_white_space(s.last()) {
        lemma_trim_end_keeps_first(s.drop_last());
    }
}

/// Trimming leaves nothing exactly where there is nothing but white space.
pub proof fn lemma_blank(s: Seq<char>)
    ensures
        (trimmed(s).len() == 0) == all_white(s),
{
    if trimmed(s).len() == 0 {
        lemma_blank_is_white(s);
    }
    if all_white(s) {
        let none = Seq::<char>::empty();
        law_trimmed(s, none, none);
        assert(s + none + none =~= s);
    }
}

/// White space is what Unicode takes for it: among ASCII the blank and the
/// characters from the tab to the carriage return, and no letter, digit or mark
/// beyond.
pub proof fn law_white_space(c: char)
    ensures
        c as u32 <= 0x7f ==> is_white_space(c) == (c == ' ' || c == '\t' || c == '\n' || c == '\r' || c
            as u32 == 0x0b || c as u32 == 0x0c),
        0x7f < c as u32 && (c as u32) < 0x2000 ==> is_white_space(c) == (c as u32 == 0x85 || c as u32
            == 0xa0 || c as u32 == 0x1680),
        c as u32 >= 0x2000 ==> is_white_space(c) == (c as u32 <= 0x200a || c as u32 == 0x2028 || c
            as u32 == 0x2029 || c as u32 == 0x202f || c as u32 == 0x205f || c as u32 == 0x3000),
{
}

/// The letters from `a` to `z` in both cases and the digits, and nothing else,
/// are alphanumeric.
pub proof fn law_alphanumeric(c: char)
    ensures
        is_digit(c) == (48 <= c as u32 && c as u32 <= 57),
        is_ascii_alphanumeric(c) == (is_digit(c) || (97 <= lower_char(c) as u32 && lower_char(
            c,
        ) as u32 <= 122)),
{
}

} // verus!
