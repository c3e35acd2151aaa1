//! Blocks of lines as they go over the wire: each line ends in a carriage
//! return and a line feed, and an empty line ends the block.

use vstd::prelude::*;
use crate::text;

verus! {

/// What ends a line.
pub open spec fn crlf() -> Seq<char> {
    seq!['\r', '\n']
}

/// The bytes that end a block: the end of the last line and an empty line.
pub open spec fn head_end() -> Seq<u8> {
    seq![13u8, 10u8, 13u8, 10u8]
}

/// The lines with line ends between them.
pub open spec fn block(lines: Seq<Seq<char>>) -> Seq<char> {
    text::joined(lines, crlf())
}

/// The lines with a line end behind each, and an empty line behind them.
pub open spec fn head(lines: Seq<Seq<char>>) -> Seq<char> {
    block(lines) + crlf() + crlf()
}

/// A line that is not empty and holds no line end.
pub open spec fn plain_line(s: Seq<char>) -> bool {
    s.len() > 0 && no_line_end(s)
}

/// A text without carriage returns and line feeds.
pub open spec fn no_line_end(s: Seq<char>) -> bool {
    forall|i: int| 0 <= i < s.len() ==> #[trigger] s[i] != '\r' && s[i] != '\n'
}

pub open spec fn plain_lines(lines: Seq<Seq<char>>) -> bool {
    lines.len() > 0 && forall|i: int| 0 <= i < lines.len() ==> plain_line(#[trigger] lines[i])
}

/// Joined texts begin with the first of them.
pub proof fn lemma_joined_front(parts: Seq<Seq<char>>, sep: Seq<char>)
    requires
        parts.len() > 1,
    ensures
        text::joined(parts, sep) == parts[0] + sep + text::joined(parts.drop_first(), sep),
    decreases parts.len(),
{
    let rest = parts.drop_first();
    if parts.len() == 2 {
        assert(parts.drop_last() =~= seq![parts[0]]);
        assert(text::joined(parts.drop_last(), sep) == parts[0]);
    } else {
        lemma_joined_front(parts.drop_last(), sep);
        assert(parts.drop_last().drop_first() =~= rest.drop_last());
        assert(rest.last() == parts.last());
        assert(text::joined(parts, sep) =~= parts[0] + sep + text::joined(rest, sep));
    }
}

/// The first line of a text is what comes before the first line end.
proof fn lemma_first_line(line: Seq<char>, rest: Seq<char>)
    requires
        no_line_end(line),
    ensures
        text::lines(line + crlf() + rest) == seq![line] + text::lines(rest),
{
    let s = line + crlf() + rest;
    let n = line.len() as int;
    assert(s[n + 1] == '\n');
    assert forall|j: int| 0 <= j < n + 1 implies s[j] != '\n' by {
        if j < n {
            assert(s[j] == line[j]);
        }
    }
    text::lemma_index_is(s, '\n', n + 1);
    assert(s.take(n + 1) =~= line.push('\r'));
    assert(text::strip_cr(s.take(n + 1)) =~= line);
    assert(s.skip(n + 2) =~= rest);
}

proof fn lemma_last_line(line: Seq<char>)
    requires
        plain_line(line),
    ensures
        text::lines(line) == seq![line],
{
    text::lemma_index_from(line, '\n', 0);
}

proof fn lemma_plain_rest(lines: Seq<Seq<char>>)
    requires
        plain_lines(lines),
        lines.len() > 1,
    ensures
        plain_lines(lines.drop_first()),
{
    assert forall|i: int| 0 <= i < lines.drop_first().len() implies plain_line(
        #[trigger] lines.drop_first()[i],
    ) by {
        assert(lines.drop_first()[i] == lines[i + 1]);
    }
}

/// A block of lines, read line by line, gives the lines.
pub proof fn law_lines_of_block(lines: Seq<Seq<char>>)
    requires
        plain_lines(lines),
    ensures
        text::lines(block(lines)) == lines,
    decreases lines.len(),
{
    assert(plain_line(lines[0]));
    if lines.len() == 1 {
        lemma_last_line(lines[0]);
        assert(seq![lines[0]] =~= lines);
    } else {
        lemma_plain_rest(lines);
        law_lines_of_block(lines.drop_first());
        lemma_joined_front(lines, crlf());
        lemma_first_line(lines[0], block(lines.drop_first()));
        assert(seq![lines[0]] + lines.drop_first() =~= lines);
    }
}

/// A block with its end, read line by line, gives the lines and an empty one.
pub proof fn law_lines_of_head(lines: Seq<Seq<char>>)
    requires
        plain_lines(lines),
    ensures
        text::lines(head(lines)) == lines.push(Seq::empty()),
    decreases lines.len(),
{
    assert(plain_line(lines[0]));
    let none = Seq::<char>::empty();
    if lines.len() == 1 {
        lemma_first_line(lines[0], crlf());
        lemma_first_line(none, none);
        assert(none + crlf() + none =~= crlf());
        assert(text::lines(none) =~= Seq::<Seq<char>>::empty());
        assert(seq![lines[0]] + (seq![none] + text::lines(none)) =~= lines.push(none));
    } else {
        let rest = lines.drop_first();
        lemma_plain_rest(lines);
        law_lines_of_head(rest);
        lemma_joined_front(lines, crlf());
        lemma_first_line(lines[0], head(rest));
        assert(head(lines) =~= lines[0] + crlf() + head(rest));
        assert(seq![lines[0]] + rest.push(none) =~= lines.push(none));
    }
}

/// The bytes of a character that takes more than one byte are no ASCII bytes.
pub proof fn lemma_wide_bytes(c: u32)
    by (bit_vector)
    ensures
        0xC0u8 | ((c >> 6) & 0x1F) as u8 >= 0x80u8,
        0xE0u8 | ((c >> 12) & 0x0F) as u8 >= 0x80u8,
        0xF0u8 | ((c >> 18) & 0x7) as u8 >= 0x80u8,
        0x80u8 | (c & 0x3F) as u8 >= 0x80u8,
        0x80u8 | ((c >> 6) & 0x3F) as u8 >= 0x80u8,
        0x80u8 | ((c >> 12) & 0x3F) as u8 >= 0x80u8,
{
}

proof fn lemma_narrow_byte(c: u32)
    by (bit_vector)
    requires
        c <= 0x7F,
    ensures
        (c & 0x7F) as u8 == c as u8,
        (c as u8 == 13u8) == (c == 13u32),
        (c as u8 == 10u8) == (c == 10u32),
{
}

/// A text without line ends has none in its bytes.
proof fn lemma_no_line_end_bytes(s: Seq<char>)
    requires
        no_line_end(s),
    ensures
        forall|i: int|
            0 <= i < vstd::utf8::encode_utf8(s).len() ==> #[trigger] vstd::utf8::encode_utf8(s)[i]
                != 13u8 && vstd::utf8::encode_utf8(s)[i] != 10u8,
        s.len() > 0 ==> vstd::utf8::encode_utf8(s).len() > 0,
    decreases s.len(),
{
    if s.len() > 0 {
        let c = s[0];
        let u = c as u32;
        let first = vstd::utf8::encode_scalar(u);
        let rest = vstd::utf8::encode_utf8(s.drop_first());
        assert(no_line_end(s.drop_first())) by {
            assert forall|i: int| 0 <= i < s.drop_first().len() implies #[trigger] s.drop_first()[i]
                != '\r' && s.drop_first()[i] != '\n' by {
                assert(s.drop_first()[i] == s[i + 1]);
            }
        }
        lemma_no_line_end_bytes(s.drop_first());
        lemma_wide_bytes(u);
        vstd::utf8::char_is_scalar(c);
        if u <= 0x7F {
            lemma_narrow_byte(u);
            assert(c != '\r' && c != '\n');
            assert(u != 13 && u != 10) by {
                vstd::utf8::char_u32_cast(c, u);
            }
        }
        let all = vstd::utf8::encode_utf8(s);
        assert(all == first + rest);
        assert forall|i: int| 0 <= i < all.len() implies #[trigger] all[i] != 13u8 && all[i]
            != 10u8 by {
            if i >= first.len() {
                assert(all[i] == rest[i - first.len()]);
            }
        }
    }
}

/// The bytes of a line end.
pub proof fn lemma_crlf_bytes()
    ensures
        vstd::utf8::encode_utf8(crlf()) == seq![13u8, 10u8],
{
    let s = crlf();
    assert(vstd::utf8::is_ascii_chars(s));
    vstd::utf8::is_ascii_chars_encode_utf8(s);
    assert(vstd::utf8::encode_utf8(s)[0] == s[0] as u8);
    assert(vstd::utf8::encode_utf8(s)[1] == s[1] as u8);
    assert(vstd::utf8::encode_utf8(s) =~= seq![13u8, 10u8]);
}

proof fn lemma_no_early_end(lines: Seq<Seq<char>>, body: Seq<u8>, j: int)
    requires
        plain_lines(lines),
        0 <= j < vstd::utf8::encode_utf8(block(lines)).len(),
    ensures
        !text::matches_at(
            vstd::utf8::encode_utf8(block(lines)) + head_end() + body,
            head_end(),
            j,
        ),
    decreases lines.len(),
{
    let line = lines[0];
    assert(plain_line(line));
    let l = vstd::utf8::encode_utf8(line);
    let all = vstd::utf8::encode_utf8(block(lines)) + head_end() + body;
    lemma_no_line_end_bytes(line);
    if text::matches_at(all, head_end(), j) {
        let m = all.subrange(j, j + 4);
        assert(m == head_end());
        assert(m[0] == all[j] && m[1] == all[j + 1] && m[2] == all[j + 2] && m[3] == all[j + 3]);
        assert(all[j] == 13u8 && all[j + 1] == 10u8 && all[j + 2] == 13u8);
        if lines.len() == 1 {
            assert(block(lines) == line);
            assert(all[j] == l[j]);
        } else {
            let rest = lines.drop_first();
            lemma_plain_rest(lines);
            lemma_joined_front(lines, crlf());
            text::lemma_encode_concat(line + crlf(), block(rest));
            text::lemma_encode_concat(line, crlf());
            lemma_crlf_bytes();
            let r = vstd::utf8::encode_utf8(block(rest)) + head_end() + body;
            assert(all =~= l + seq![13u8, 10u8] + r);
            let n = l.len() as int;
            if j < n {
                assert(all[j] == l[j]);
            } else if j == n {
                assert(all[j + 2] == r[0]);
                let first = rest[0];
                assert(plain_line(first));
                lemma_no_line_end_bytes(first);
                let f = vstd::utf8::encode_utf8(first);
                if rest.len() == 1 {
                    assert(block(rest) == first);
                } else {
                    lemma_joined_front(rest, crlf());
                    text::lemma_encode_concat(first + crlf(), block(rest.drop_first()));
                    text::lemma_encode_concat(first, crlf());
                }
                assert(r[0] == f[0]);
            } else if j == n + 1 {
                assert(all[j] == 10u8);
            } else {
                let k = j - n - 2;
                assert(r.subrange(k, k + 4) =~= all.subrange(j, j + 4));
                assert(text::matches_at(r, head_end(), k));
                lemma_no_early_end(rest, body, k);
            }
        }
    }
}

/// The end of a block is found where the block ends, whatever follows.
pub proof fn law_head_end(lines: Seq<Seq<char>>, body: Seq<u8>)
    requires
        plain_lines(lines),
    ensures
        ({
            let b = vstd::utf8::encode_utf8(block(lines));
            let all = vstd::utf8::encode_utf8(head(lines)) + body;
            &&& text::find(all, head_end()) == Some(b.len() as int)
            &&& all.take(b.len() as int) == b
            &&& all.skip((b.len() + 4) as int) == body
        }),
{
    let b = vstd::utf8::encode_utf8(block(lines));
    text::lemma_encode_concat(block(lines) + crlf(), crlf());
    text::lemma_encode_concat(block(lines), crlf());
    lemma_crlf_bytes();
    let all = vstd::utf8::encode_utf8(head(lines)) + body;
    let n = b.len() as int;
    assert(all =~= b + head_end() + body);
    assert(all.subrange(n, n + 4) =~= head_end());
    assert forall|j: int| 0 <= j < n implies !text::matches_at(all, head_end(), j) by {
        lemma_no_early_end(lines, body, j);
    }
    text::lemma_find_is(all, head_end(), n);
    assert(all.take(n) =~= b);
    assert(all.skip(n + 4) =~= body);
}

/// A word that white space follows is the first of the words.
pub proof fn lemma_first_word(word: Seq<char>, rest: Seq<char>)
    requires
        word.len() > 0,
        forall|i: int| 0 <= i < word.len() ==> !text::is_white_space(#[trigger] word[i]),
    ensures
        text::words(word + seq![' '] + rest) == seq![word] + text::words(rest),
{
    let s = word + seq![' '] + rest;
    let n = word.len() as int;
    assert(s[0] == word[0]);
    assert forall|i: int| 0 <= i < n implies !text::is_white_space(s[i]) by {
        assert(s[i] == word[i]);
    }
    assert(s[n] == ' ');
    text::lemma_word_len_is(s, n);
    assert(s.take(n) =~= word);
    let after = s.skip(n);
    assert(after =~= seq![' '] + rest);
    assert(after.drop_first() =~= rest);
    assert(text::words(after) == text::words(rest));
}

/// The position of the end of a block in bytes.
pub fn find_head_end(bytes: &[u8]) -> (r: Option<usize>)
    ensures
        match r {
            Some(i) => text::find(bytes@, head_end()) == Some(i as int) && i + 4 <= bytes@.len(),
            None => text::find(bytes@, head_end()) is None,
        },
{
    let n: usize = bytes.len();
    if n < 4 {
        return None;
    }
    let mut i: usize = 0;
    while i <= n - 4
        invariant
            n == bytes@.len(),
            n >= 4,
            i <= n - 3,
            forall|j: int| 0 <= j < i ==> !text::matches_at(bytes@, head_end(), j),
        decreases n - i,
    {
        if bytes[i] == 13 && bytes[i + 1] == 10 && bytes[i + 2] == 13 && bytes[i + 3] == 10 {
            assert(bytes@.subrange(i as int, i + 4) =~= head_end());
            proof {
                text::lemma_find_is(bytes@, head_end(), i as int);
            }
            return Some(i);
        }
        assert(!text::matches_at(bytes@, head_end(), i as int)) by {
            let m = bytes@.subrange(i as int, i + 4);
            assert(m[0] == bytes@[i as int] && m[1] == bytes@[i + 1] && m[2] == bytes@[i + 2]
                && m[3] == bytes@[i + 3]);
        }
        i = i + 1;
    }
    proof {
        text::lemma_find_from(bytes@, head_end(), 0);
    }
    None
}

/// The empty line that ends the headers is two line ends, each a carriage return
/// and a line feed.
pub proof fn law_empty_line()
    ensures
        head_end() == vstd::utf8::encode_utf8("\r\n\r\n"@),
        crlf() + crlf() == "\r\n\r\n"@,
{
    reveal_strlit("\r\n\r\n");
    assert(crlf() + crlf() =~= "\r\n\r\n"@);
    lemma_crlf_bytes();
    text::lemma_encode_concat(crlf(), crlf());
    assert(seq![13u8, 10u8] + seq![13u8, 10u8] =~= head_end());
}

} // verus!
