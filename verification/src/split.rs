//! Searching, splitting and joining texts.

use vstd::prelude::*;
use crate::text;
use crate::text::{chars_of, is_whitespace, push_text, text_range};

verus! {

/// Whether `pat` stands in `v` at position `i`.
pub fn stands_at(v: &Vec<char>, pat: &Vec<char>, i: usize) -> (r: bool)
    ensures
        r == text::matches_at(v@, pat@, i as int),
{
    if i > v.len() || pat.len() > v.len() - i {
        return false;
    }
    let mut k: usize = 0;
    while k < pat.len()
        invariant
            i + pat.len() <= v.len(),
            k <= pat@.len(),
            forall|j: int| 0 <= j < k ==> v@[i + j] == pat@[j],
        decreases pat@.len() - k,
    {
        if v[i + k] != pat[k] {
            assert(v@.subrange(i as int, i + pat@.len())[k as int] != pat@[k as int]);
            return false;
        }
        k = k + 1;
    }
    assert(v@.subrange(i as int, i + pat@.len()) =~= pat@);
    true
}

/// The first position at which `pat` stands in `v`.
pub fn find_chars(v: &Vec<char>, pat: &Vec<char>) -> (r: Option<usize>)
    ensures
        match r {
            Some(i) => text::find(v@, pat@) == Some(i as int) && i + pat@.len() <= v@.len(),
            None => text::find(v@, pat@) is None,
        },
{
    if pat.len() > v.len() {
        return None;
    }
    let last: usize = v.len() - pat.len();
    let mut i: usize = 0;
    loop
        invariant
            i <= last,
            last == v@.len() - pat@.len(),
            forall|j: int| 0 <= j < i ==> !text::matches_at(v@, pat@, j),
        decreases last - i,
    {
        if stands_at(v, pat, i) {
            proof {
                text::lemma_find_is(v@, pat@, i as int);
            }
            return Some(i);
        }
        if i == last {
            proof {
                text::lemma_find_from(v@, pat@, 0);
            }
            return None;
        }
        i = i + 1;
    }
}

/// The first position of `c` in `v`.
pub fn index_of(v: &Vec<char>, c: char, from: usize) -> (r: Option<usize>)
    ensures
        match r {
            Some(i) => text::index_from(v@, c, from as int) == Some(i as int) && from <= i < v@.len()
                && v@[i as int] == c,
            None => text::index_from(v@, c, from as int) is None,
        },
{
    let mut i: usize = from;
    while i < v.len()
        invariant
            from <= i,
            text::index_from(v@, c, from as int) == text::index_from(v@, c, i as int),
        decreases v@.len() - i,
    {
        if v[i] == c {
            return Some(i);
        }
        i = i + 1;
    }
    None
}

/// Whether `pat` stands somewhere in `s`.
pub fn contains_text(s: &str, pat: &str) -> (r: bool)
    ensures
        r == (text::find(s@, pat@) is Some),
{
    let v = chars_of(s);
    let p = chars_of(pat);
    match find_chars(&v, &p) {
        Some(_) => true,
        None => false,
    }
}

/// The texts before and after the first `pat`.
pub fn split_text_once(s: &str, pat: &str) -> (r: Option<(String, String)>)
    ensures
        match r {
            Some((a, b)) => text::split_once(s@, pat@) == Some((a@, b@)),
            None => text::split_once(s@, pat@) is None,
        },
{
    let v = chars_of(s);
    let p = chars_of(pat);
    match find_chars(&v, &p) {
        Some(i) => {
            let a = text_range(&v, 0, i);
            let n: usize = v.len();
            let b = text_range(&v, i + p.len(), n);
            assert(v@.subrange(0, i as int) =~= s@.take(i as int));
            assert(v@.subrange(i + p@.len(), v@.len() as int) =~= s@.skip(i + pat@.len()));
            Some((a, b))
        },
        None => None,
    }
}

/// The texts before and after the first `c`.
pub fn split_char_once(s: &str, c: char) -> (r: Option<(String, String)>)
    ensures
        match r {
            Some((a, b)) => text::split_at_char(s@, c) == Some((a@, b@)),
            None => text::split_at_char(s@, c) is None,
        },
{
    let v = chars_of(s);
    match index_of(&v, c, 0) {
        Some(i) => {
            let a = text_range(&v, 0, i);
            let n: usize = v.len();
            let b = text_range(&v, i + 1, n);
            assert(v@.subrange(0, i as int) =~= s@.take(i as int));
            assert(v@.subrange(i + 1, v@.len() as int) =~= s@.skip(i + 1));
            Some((a, b))
        },
        None => None,
    }
}

/// Whether `s` begins with `pat`.
pub fn begins_with(s: &str, pat: &str) -> (r: bool)
    ensures
        r == pat@.is_prefix_of(s@),
{
    let v = chars_of(s);
    let p = chars_of(pat);
    let r = stands_at(&v, &p, 0);
    assert(r == pat@.is_prefix_of(s@));
    r
}

/// Whether `s` ends with `pat`.
pub fn finishes_with(s: &str, pat: &str) -> (r: bool)
    ensures
        r == pat@.is_suffix_of(s@),
{
    let v = chars_of(s);
    let p = chars_of(pat);
    if p.len() > v.len() {
        return false;
    }
    let at: usize = v.len() - p.len();
    let r = stands_at(&v, &p, at);
    assert(s@.subrange(at as int, at + pat@.len()) =~= s@.subrange(at as int, s@.len() as int));
    r
}

/// `s` without the prefix `pat`, where it has it.
pub fn without_prefix(s: &str, pat: &str) -> (r: Option<String>)
    ensures
        match r {
            Some(rest) => pat@.is_prefix_of(s@) && rest@ == s@.skip(pat@.len() as int),
            None => !pat@.is_prefix_of(s@),
        },
{
    if !begins_with(s, pat) {
        return None;
    }
    let v = chars_of(s);
    let p = chars_of(pat);
    let r = text_range(&v, p.len(), v.len());
    assert(r@ =~= s@.skip(pat@.len() as int));
    Some(r)
}

/// `s` without the suffix `pat`, where it has it.
pub fn without_suffix(s: &str, pat: &str) -> (r: Option<String>)
    ensures
        match r {
            Some(rest) => pat@.is_suffix_of(s@) && rest@ == s@.take(s@.len() - pat@.len()),
            None => !pat@.is_suffix_of(s@),
        },
{
    if !finishes_with(s, pat) {
        return None;
    }
    let v = chars_of(s);
    let p = chars_of(pat);
    let r = text_range(&v, 0, v.len() - p.len());
    assert(r@ =~= s@.take(s@.len() - pat@.len()));
    Some(r)
}

/// The lines of `s`.
pub fn split_lines(s: &str) -> (r: Vec<String>)
    ensures
        text::texts(r@) == text::lines(s@),
{
    let v = chars_of(s);
    let mut out: Vec<String> = Vec::new();
    let mut start: usize = 0;
    assert(v@.skip(0) =~= v@);
    assert(text::texts(out@) + text::lines(v@) =~= text::lines(v@));
    while start < v.len()
        invariant
            start <= v@.len(),
            v@ == s@,
            text::texts(out@) + text::lines(v@.skip(start as int)) == text::lines(s@),
        decreases v@.len() - start,
    {
        let ghost rest = v@.skip(start as int);
        let ghost before = text::texts(out@);
        match index_of(&v, '\n', start) {
            None => {
                let line = text_range(&v, start, v.len());
                proof {
                    lemma_index_skip(v@, '\n', start as int);
                    assert(line@ =~= rest);
                    assert(v@.skip(v@.len() as int).len() == 0);
                }
                out.push(line);
                start = v.len();
                assert(text::texts(out@) =~= before.push(rest));
                assert(text::texts(out@) + text::lines(v@.skip(start as int)) =~= before + seq![rest]);
            },
            Some(i) => {
                let end: usize = if i > start && v[i - 1] == '\r' {
                    i - 1
                } else {
                    i
                };
                let line = text_range(&v, start, end);
                proof {
                    lemma_index_skip(v@, '\n', start as int);
                    let k = i - start;
                    assert(text::index_from(rest, '\n', 0) == Some(k));
                    assert(rest.take(k) =~= v@.subrange(start as int, i as int));
                    assert(line@ =~= text::strip_cr(rest.take(k)));
                    assert(rest.skip(k + 1) =~= v@.skip(i + 1));
                    assert(text::lines(rest) == seq![line@] + text::lines(v@.skip(i + 1)));
                }
                out.push(line);
                start = i + 1;
                assert(text::texts(out@) =~= before.push(line@));
                assert(text::texts(out@) + text::lines(v@.skip(start as int)) =~= before + (seq![line@] + text::lines(
                    v@.skip(start as int),
                )));
            },
        }
    }
    assert(v@.skip(start as int).len() == 0);
    assert(text::texts(out@) + text::lines(v@.skip(start as int)) =~= text::texts(out@));
    out
}

/// Searching from a position is searching in what follows it.
pub proof fn lemma_index_skip<T>(s: Seq<T>, x: T, i: int)
    requires
        0 <= i <= s.len(),
    ensures
        match text::index_from(s, x, i) {
            Some(k) => i <= k < s.len() && text::index_from(s.skip(i), x, 0) == Some(k - i),
            None => text::index_from(s.skip(i), x, 0) is None,
        },
{
    text::lemma_index_from(s, x, i);
    text::lemma_index_from(s.skip(i), x, 0);
    match text::index_from(s, x, i) {
        Some(k) => {
            assert(s.skip(i)[k - i] == x);
            assert forall|j: int| 0 <= j < k - i implies s.skip(i)[j] != x by {
                assert(s.skip(i)[j] == s[i + j]);
            }
            text::lemma_index_is(s.skip(i), x, k - i);
        },
        None => {
            match text::index_from(s.skip(i), x, 0) {
                Some(m) => {
                    assert(s[i + m] == x);
                },
                None => {},
            }
        },
    }
}

/// The words of `s`: its maximal runs of characters that are not white space.
pub fn split_words(s: &str) -> (r: Vec<String>)
    ensures
        text::texts(r@) == text::words(s@),
{
    let v = chars_of(s);
    let mut out: Vec<String> = Vec::new();
    let mut start: usize = 0;
    assert(v@.skip(0) =~= v@);
    assert(text::texts(out@) + text::words(v@) =~= text::words(v@));
    while start < v.len()
        invariant
            start <= v@.len(),
            v@ == s@,
            text::texts(out@) + text::words(v@.skip(start as int)) == text::words(s@),
        decreases v@.len() - start,
    {
        let ghost rest = v@.skip(start as int);
        if is_whitespace(v[start]) {
            assert(rest.drop_first() =~= v@.skip(start + 1));
            start = start + 1;
        } else {
            let mut end: usize = start + 1;
            while end < v.len() && !is_whitespace(v[end])
                invariant
                    start < end <= v@.len(),
                    forall|j: int| start <= j < end ==> !text::is_white_space(v@[j]),
                decreases v@.len() - end,
            {
                end = end + 1;
            }
            let word = text_range(&v, start, end);
            let ghost before = text::texts(out@);
            proof {
                let n = end - start;
                assert forall|i: int| 0 <= i < n implies !text::is_white_space(rest[i]) by {
                    assert(rest[i] == v@[start + i]);
                }
                text::lemma_word_len_is(rest, n);
                assert(rest.take(n) =~= word@);
                assert(rest.skip(n) =~= v@.skip(end as int));
                assert(text::words(rest) == seq![word@] + text::words(v@.skip(end as int)));
            }
            out.push(word);
            start = end;
            assert(text::texts(out@) =~= before.push(word@));
            assert(text::texts(out@) + text::words(v@.skip(start as int)) =~= before + (seq![word@] + text::words(
                v@.skip(start as int),
            )));
        }
    }
    assert(v@.skip(start as int).len() == 0);
    assert(text::texts(out@) + text::words(v@.skip(start as int)) =~= text::texts(out@));
    out
}

/// The parts written one after the other with `sep` between them.
pub fn join_texts(parts: &Vec<String>, sep: &str) -> (r: String)
    ensures
        r@ == text::joined(text::texts(parts@), sep@),
{
    let mut out = String::new();
    let mut i: usize = 0;
    while i < parts.len()
        invariant
            i <= parts@.len(),
            out@ == text::joined(text::texts(parts@).take(i as int), sep@),
        decreases parts@.len() - i,
    {
        let ghost done = text::texts(parts@).take(i as int);
        assert(text::texts(parts@).take(i + 1) =~= done.push(parts@[i as int]@));
        if i > 0 {
            proof {
                text::lemma_joined_push(done, sep@, parts@[i as int]@);
            }
            push_text(&mut out, sep);
        }
        push_text(&mut out, parts[i].as_str());
        assert(out@ =~= text::joined(text::texts(parts@).take(i + 1), sep@));
        i = i + 1;
    }
    assert(text::texts(parts@).take(i as int) =~= text::texts(parts@));
    out
}

} // verus!
