//! What one side of an exchange writes, the other side reads.

use vstd::prelude::*;
use crate::http;
use crate::json;
use crate::model::{ClientConfigView, HttpResponseView, ServerConfigView, SettingsView};
use crate::numbers;
use crate::server;
use crate::settings;
use crate::streams;
use crate::text;
use crate::transfer;
use crate::utf8;
use crate::wire;

verus! {

// ---------------------------------------------------------------------------
// Headers
// ---------------------------------------------------------------------------

/// A header that can be written as a line and read back.
pub open spec fn writable(h: (Seq<char>, Seq<char>)) -> bool {
    &&& h.0.len() > 0
    &&& !text::is_white_space(h.0[0])
    &&& wire::no_line_end(h.0)
    &&& wire::no_line_end(h.1)
    &&& forall|i: int| 0 <= i < h.0.len() ==> #[trigger] h.0[i] != ':'
}

pub open spec fn all_writable(headers: Seq<(Seq<char>, Seq<char>)>) -> bool {
    forall|i: int| 0 <= i < headers.len() ==> writable(#[trigger] headers[i])
}

/// A header as it is read back: the name in lower case, the value without
/// white space around it.
pub open spec fn read_back(h: (Seq<char>, Seq<char>)) -> (Seq<char>, Seq<char>) {
    (text::lower_ascii(text::trimmed(h.0)), text::trimmed(h.1))
}

pub open spec fn all_read_back(headers: Seq<(Seq<char>, Seq<char>)>) -> Seq<
    (Seq<char>, Seq<char>),
> {
    Seq::new(headers.len(), |i: int| read_back(headers[i]))
}

/// A first line and headers as lines.
pub open spec fn written(first: Seq<char>, headers: Seq<(Seq<char>, Seq<char>)>) -> Seq<Seq<char>> {
    seq![first] + http::fields(headers)
}

proof fn lemma_trim_end_keeps(s: Seq<char>)
    requires
        s.len() > 0,
        !text::is_white_space(s[0]),
    ensures
        text::trim_end(s).len() > 0,
    decreases s.len(),
{
    if text::is_white_space(s.last()) {
        assert(s.len() > 1);
        lemma_trim_end_keeps(s.drop_last());
    }
}

/// A text that begins with something visible is not blank.
proof fn lemma_not_blank(s: Seq<char>)
    requires
        s.len() > 0,
        !text::is_white_space(s[0]),
    ensures
        text::trimmed(s).len() > 0,
{
    lemma_trim_end_keeps(s);
}

proof fn lemma_field_line(h: (Seq<char>, Seq<char>))
    requires
        writable(h),
    ensures
        wire::plain_line(http::field(h.0, h.1)),
        text::trimmed(http::field(h.0, h.1)).len() > 0,
        http::header_of(http::field(h.0, h.1)) == Some(read_back(h)),
{
    let line = http::field(h.0, h.1);
    let n = h.0.len() as int;
    assert(line[0] == h.0[0]);
    lemma_not_blank(line);
    assert forall|i: int| 0 <= i < line.len() implies #[trigger] line[i] != '\r' && line[i]
        != '\n' by {
        if i < n {
            assert(line[i] == h.0[i]);
        } else if i >= n + 2 {
            assert(line[i] == h.1[i - n - 2]);
        }
    }
    assert(line[n] == ':');
    assert forall|j: int| 0 <= j < n implies line[j] != ':' by {
        assert(line[j] == h.0[j]);
    }
    text::lemma_index_is(line, ':', n);
    assert(line.take(n) =~= h.0);
    let rest = line.skip(n + 1);
    assert(rest =~= seq![' '] + h.1);
    assert(rest.drop_first() =~= h.1);
    assert(text::trim_start(rest) == text::trim_start(h.1));
}

proof fn lemma_written_plain(first: Seq<char>, headers: Seq<(Seq<char>, Seq<char>)>)
    requires
        wire::plain_line(first),
        all_writable(headers),
    ensures
        wire::plain_lines(written(first, headers)),
{
    let ls = written(first, headers);
    assert forall|i: int| 0 <= i < ls.len() implies wire::plain_line(#[trigger] ls[i]) by {
        if i > 0 {
            lemma_field_line(headers[i - 1]);
        }
    }
}

proof fn lemma_headers_from(
    lines: Seq<Seq<char>>,
    first: Seq<char>,
    headers: Seq<(Seq<char>, Seq<char>)>,
    i: int,
    to_blank: bool,
)
    requires
        all_writable(headers),
        lines == written(first, headers) || (to_blank && lines == written(first, headers).push(
            Seq::empty(),
        )),
        1 <= i <= headers.len() + 1,
    ensures
        http::headers_from(lines, i, to_blank) == all_read_back(headers).skip(i - 1),
    decreases headers.len() + 1 - i,
{
    let all = all_read_back(headers);
    if i == headers.len() + 1 {
        assert(all.skip(i - 1) =~= Seq::<(Seq<char>, Seq<char>)>::empty());
        if i < lines.len() {
            let none = Seq::<char>::empty();
            assert(lines[i] == none);
            text::law_trimmed_idempotent(none);
        }
    } else {
        lemma_headers_from(lines, first, headers, i + 1, to_blank);
        let h = headers[i - 1];
        assert(lines[i] == http::field(h.0, h.1));
        lemma_field_line(h);
        assert(all[i - 1] == read_back(h));
        assert(all.skip(i - 1) =~= seq![all[i - 1]] + all.skip(i));
    }
}

/// Headers that are written as a block are read back from it.
pub proof fn law_headers_read_back(first: Seq<char>, headers: Seq<(Seq<char>, Seq<char>)>)
    requires
        wire::plain_line(first),
        all_writable(headers),
    ensures
        http::request_headers(wire::head(written(first, headers))) == all_read_back(headers),
        http::headers_from(text::lines(wire::block(written(first, headers))), 1, false)
            == all_read_back(headers),
        text::lines(wire::head(written(first, headers)))[0] == first,
        text::lines(wire::block(written(first, headers)))[0] == first,
        text::lines(wire::head(written(first, headers))).len() > 0,
        text::lines(wire::block(written(first, headers))).len() > 0,
{
    let ls = written(first, headers);
    lemma_written_plain(first, headers);
    wire::law_lines_of_head(ls);
    wire::law_lines_of_block(ls);
    lemma_headers_from(ls.push(Seq::empty()), first, headers, 1, true);
    lemma_headers_from(ls, first, headers, 1, false);
    assert(all_read_back(headers).skip(0) =~= all_read_back(headers));
}

/// The value of a header with nothing of the name before it.
proof fn lemma_value_at(headers: Seq<(Seq<char>, Seq<char>)>, name: Seq<char>, k: int)
    requires
        0 <= k < headers.len(),
        headers[k].0 == name,
        forall|j: int| 0 <= j < k ==> (#[trigger] headers[j]).0 != name,
    ensures
        http::value_of(headers, name) == Some(headers[k].1),
    decreases k,
{
    if k > 0 {
        assert(headers[0].0 != name);
        let rest = headers.drop_first();
        assert forall|j: int| 0 <= j < k - 1 implies (#[trigger] rest[j]).0 != name by {
            assert(rest[j] == headers[j + 1]);
        }
        lemma_value_at(rest, name, k - 1);
    }
}

/// A name of a header that reads as the other.
proof fn lemma_name(name: Seq<char>, lower: Seq<char>)
    requires
        name.len() > 0,
        !text::is_white_space(name[0]),
        !text::is_white_space(name.last()),
        text::lower_ascii(name) =~= lower,
    ensures
        text::lower_ascii(text::trimmed(name)) == lower,
{
    assert(text::is_trimmed(name));
    text::law_trimmed_idempotent(name);
}

/// The names of the headers, as they are written and as they are read.
proof fn lemma_all_names()
    ensures
        text::lower_ascii(text::trimmed("Host"@)) == "host"@,
        text::lower_ascii(text::trimmed("X-AppManager-Username"@)) == http::USER_HEADER@,
        text::lower_ascii(text::trimmed("X-AppManager-Password"@)) == http::PASSWORD_HEADER@,
        text::lower_ascii(text::trimmed("X-AppManager-Filename"@)) == http::FILE_HEADER@,
        text::lower_ascii(text::trimmed("X-AppManager-Category"@)) == http::CATEGORY_HEADER@,
        text::lower_ascii(text::trimmed("Content-Type"@)) == "content-type"@,
        text::lower_ascii(text::trimmed("Content-Length"@)) == http::LENGTH_HEADER@,
        text::lower_ascii(text::trimmed("Connection"@)) == "connection"@,
        "host"@.len() == 4,
        "content-type"@.len() == 12,
        "connection"@.len() == 10,
        http::LENGTH_HEADER@.len() == 14,
        http::USER_HEADER@.len() == 21,
        http::PASSWORD_HEADER@.len() == 21,
        http::FILE_HEADER@.len() == 21,
        http::CATEGORY_HEADER@.len() == 21,
        http::USER_HEADER@[13] == 'u',
        http::PASSWORD_HEADER@[13] == 'p',
        http::FILE_HEADER@[13] == 'f',
        http::CATEGORY_HEADER@[13] == 'c',
{
    reveal_strlit("Host");
    reveal_strlit("host");
    reveal_strlit("X-AppManager-Username");
    reveal_strlit("x-appmanager-username");
    reveal_strlit("X-AppManager-Password");
    reveal_strlit("x-appmanager-password");
    reveal_strlit("X-AppManager-Filename");
    reveal_strlit("x-appmanager-filename");
    reveal_strlit("X-AppManager-Category");
    reveal_strlit("x-appmanager-category");
    reveal_strlit("Content-Type");
    reveal_strlit("content-type");
    reveal_strlit("Content-Length");
    reveal_strlit("content-length");
    reveal_strlit("Connection");
    reveal_strlit("connection");
    lemma_name("Host"@, "host"@);
    lemma_name("X-AppManager-Username"@, http::USER_HEADER@);
    lemma_name("X-AppManager-Password"@, http::PASSWORD_HEADER@);
    lemma_name("X-AppManager-Filename"@, http::FILE_HEADER@);
    lemma_name("X-AppManager-Category"@, http::CATEGORY_HEADER@);
    lemma_name("Content-Type"@, "content-type"@);
    lemma_name("Content-Length"@, http::LENGTH_HEADER@);
    lemma_name("Connection"@, "connection"@);
}

/// The fixed headers can be written.
proof fn lemma_fixed_writable()
    ensures
        writable(("Content-Type"@, "application/json; charset=utf-8"@)),
        writable(("Content-Type"@, "application/octet-stream"@)),
        writable(("Access-Control-Allow-Origin"@, "*"@)),
        writable(("Connection"@, "close"@)),
{
    reveal_strlit("Content-Type");
    reveal_strlit("application/json; charset=utf-8");
    reveal_strlit("application/octet-stream");
    reveal_strlit("Access-Control-Allow-Origin");
    reveal_strlit("*");
    reveal_strlit("Connection");
    reveal_strlit("close");
}

/// The headers with values of their own can be written wherever the values
/// can.
proof fn lemma_named_writable(value: Seq<char>)
    requires
        wire::no_line_end(value),
    ensures
        writable(("Host"@, value)),
        writable(("X-AppManager-Username"@, value)),
        writable(("X-AppManager-Password"@, value)),
        writable(("X-AppManager-Filename"@, value)),
        writable(("X-AppManager-Category"@, value)),
        writable(("Content-Length"@, value)),
{
    reveal_strlit("Host");
    reveal_strlit("X-AppManager-Username");
    reveal_strlit("X-AppManager-Password");
    reveal_strlit("X-AppManager-Filename");
    reveal_strlit("X-AppManager-Category");
    reveal_strlit("Content-Length");
}

/// A number in decimal digits stands on one line, as one word.
proof fn lemma_decimal_word(n: nat)
    ensures
        wire::no_line_end(numbers::decimal(n)),
        numbers::decimal(n).len() > 0,
        forall|i: int|
            0 <= i < numbers::decimal(n).len() ==> !text::is_white_space(
                #[trigger] numbers::decimal(n)[i],
            ),
        text::trimmed(numbers::decimal(n)) == numbers::decimal(n),
{
    numbers::lemma_decimal_shape(n);
    let d = numbers::decimal(n);
    assert forall|i: int| 0 <= i < d.len() implies !text::is_white_space(#[trigger] d[i]) && d[i]
        != '\r' && d[i] != '\n' by {
        assert(text::is_digit(d[i]));
    }
    assert(text::is_trimmed(d));
    text::law_trimmed_idempotent(d);
}

proof fn lemma_trimmed_no_line_end(s: Seq<char>)
    requires
        wire::no_line_end(s),
    ensures
        wire::no_line_end(text::trimmed(s)),
{
    let t = text::trimmed(s);
    assert forall|i: int| 0 <= i < t.len() implies #[trigger] t[i] != '\r' && t[i] != '\n' by {
        assert(t.contains(t[i]));
        text::lemma_trimmed_contains(s, t[i]);
        let k = choose|k: int| 0 <= k < s.len() && s[k] == t[i];
        assert(s[k] != '\r' && s[k] != '\n');
    }
}

proof fn lemma_address_no_line_end(host: Seq<char>, port: u16)
    requires
        wire::no_line_end(host),
    ensures
        wire::no_line_end(settings::address(host, port)),
{
    lemma_decimal_word(port as nat);
    let a = settings::address(host, port);
    let d = numbers::decimal(port as nat);
    assert forall|i: int| 0 <= i < a.len() implies #[trigger] a[i] != '\r' && a[i] != '\n' by {
        if i < host.len() {
            assert(a[i] == host[i]);
        } else if i > host.len() {
            assert(a[i] == d[i - host.len() - 1]);
        }
    }
}

// ---------------------------------------------------------------------------
// Answers
// ---------------------------------------------------------------------------

/// The first line of an answer gives its status.
proof fn lemma_status_line(status: u16, words: Seq<char>)
    requires
        wire::no_line_end(words),
    ensures
        wire::plain_line(http::status_line(status, words)),
        text::words(http::status_line(status, words)).len() >= 2,
        numbers::parsed(text::words(http::status_line(status, words))[1], u16::MAX as nat) == Some(
            status as nat,
        ),
{
    let line = http::status_line(status, words);
    let d = numbers::decimal(status as nat);
    lemma_decimal_word(status as nat);
    reveal_strlit("HTTP/1.1");
    let rest = d + seq![' '] + words;
    wire::lemma_first_word("HTTP/1.1"@, rest);
    wire::lemma_first_word(d, words);
    assert(text::words(line) == seq!["HTTP/1.1"@] + (seq![d] + text::words(words)));
    assert(text::words(line)[1] == d);
    numbers::law_decimal_read_back(status as nat, u16::MAX as nat);
    assert forall|i: int| 0 <= i < line.len() implies #[trigger] line[i] != '\r' && line[i]
        != '\n' by {
        let n = "HTTP/1.1"@.len();
        if i < n {
            assert(line[i] == "HTTP/1.1"@[i]);
        } else if i > n {
            assert(line[i] == rest[i - n - 1]);
            if i - n - 1 < d.len() {
                assert(rest[i - n - 1] == d[i - n - 1]);
            } else if i - n - 1 > d.len() {
                assert(rest[i - n - 1] == words[i - n - 1 - d.len() - 1]);
            }
        }
    }
}

/// An answer of a first line and headers, with a body behind it, is read as
/// such.
pub proof fn law_answer_read_back(
    status: u16,
    words: Seq<char>,
    headers: Seq<(Seq<char>, Seq<char>)>,
    body: Seq<u8>,
)
    requires
        wire::no_line_end(words),
        all_writable(headers),
    ensures
        ({
            let ls = written(http::status_line(status, words), headers);
            let bytes = vstd::utf8::encode_utf8(wire::head(ls)) + body;
            &&& streams::head_at(bytes) matches Some(i) && http::status_in(
                http::head_lines(bytes.take(i)),
            ) == Ok::<u16, Seq<char>>(status) && http::headers_from(
                http::head_lines(bytes.take(i)),
                1,
                false,
            ) == all_read_back(headers)
            &&& streams::body_of(bytes) == body
            &&& http::parsed_response(bytes) == Ok::<_, Seq<char>>(
                HttpResponseView { status, body },
            )
        }),
{
    let first = http::status_line(status, words);
    let ls = written(first, headers);
    lemma_status_line(status, words);
    lemma_written_plain(first, headers);
    law_headers_read_back(first, headers);
    wire::law_head_end(ls, body);
    let b = vstd::utf8::encode_utf8(wire::block(ls));
    let bytes = vstd::utf8::encode_utf8(wire::head(ls)) + body;
    utf8::law_text_read_back(wire::block(ls));
    assert(http::head_lines(b) == text::lines(wire::block(ls)));
}

/// The words of every status stand on one line.
proof fn lemma_status_words(status: u16)
    ensures
        wire::no_line_end(http::status_words(status)),
        wire::no_line_end("OK"@),
{
    reveal_strlit("Bad Request");
    reveal_strlit("Unauthorized");
    reveal_strlit("Forbidden");
    reveal_strlit("Not Found");
    reveal_strlit("Method Not Allowed");
    reveal_strlit("Internal Server Error");
    reveal_strlit("OK");
}

/// A JSON answer of the server, read by the client, gives the status and the
/// body.
pub proof fn law_json_answer_read_back(status: u16, body: Seq<char>)
    ensures
        http::parsed_response(vstd::utf8::encode_utf8(http::json_answer(status, body))) == Ok::<
            _,
            Seq<char>,
        >(HttpResponseView { status, body: vstd::utf8::encode_utf8(body) }),
        streams::completeness(vstd::utf8::encode_utf8(http::json_answer(status, body))) is Ok,
{
    let n = vstd::utf8::encode_utf8(body).len();
    let ls = http::json_head(status, n);
    let headers = seq![
        ("Content-Type"@, "application/json; charset=utf-8"@),
        ("Access-Control-Allow-Origin"@, "*"@),
        ("Content-Length"@, numbers::decimal(n)),
        ("Connection"@, "close"@),
    ];
    lemma_status_words(status);
    lemma_fixed_writable();
    lemma_decimal_word(n);
    lemma_named_writable(numbers::decimal(n));
    assert(all_writable(headers));
    assert(ls =~= written(http::status_line(status, http::status_words(status)), headers));
    let b = vstd::utf8::encode_utf8(body);
    law_answer_read_back(status, http::status_words(status), headers, b);
    text::lemma_encode_concat(wire::head(ls), body);
    let bytes = vstd::utf8::encode_utf8(wire::head(ls)) + b;
    let got = all_read_back(headers);
    lemma_all_names();
    reveal_strlit("Access-Control-Allow-Origin");
    assert(got[0].0.len() == 12);
    text::law_trimmed_idempotent("Access-Control-Allow-Origin"@);
    assert(text::is_trimmed("Access-Control-Allow-Origin"@));
    assert(got[1].0.len() == 27);
    assert(got[2].0 == http::LENGTH_HEADER@);
    lemma_value_at(got, http::LENGTH_HEADER@, 2);
    if n <= u64::MAX {
        numbers::law_decimal_read_back(n, u64::MAX as nat);
        assert(streams::total_of(bytes) == n);
    } else {
        lemma_too_large(n, u64::MAX as nat);
        assert(streams::total_of(bytes) == 0);
    }
}

/// A number that is too large is not read.
proof fn lemma_too_large(n: nat, max: nat)
    requires
        n > max,
    ensures
        numbers::parsed(numbers::decimal(n), max) is None,
{
    numbers::law_decimal_read_back(n, n);
}

/// A file that is sent with any status and headers, received by the client in
/// whatever pieces, is whole, and the headers are read back behind those that
/// every such answer has.
pub proof fn law_file_read_back(
    status: u16,
    headers: Seq<(Seq<char>, Seq<char>)>,
    content: Seq<u8>,
)
    requires
        all_writable(headers),
        content.len() <= u64::MAX,
    ensures
        ({
            let bytes = vstd::utf8::encode_utf8(
                wire::head(http::sized_head(status, content.len(), headers)),
            ) + content;
            &&& http::parsed_response(bytes) == Ok::<_, Seq<char>>(
                HttpResponseView { status, body: content },
            )
            &&& streams::completeness(bytes) is Ok
            &&& streams::body_of(bytes) == content
            &&& streams::total_of(bytes) == content.len()
            &&& streams::head_at(bytes) matches Some(i) && http::headers_from(
                http::head_lines(bytes.take(i)),
                1,
                false,
            ).skip(2) == all_read_back(headers)
        }),
{
    let n = content.len();
    let all = seq![("Content-Length"@, numbers::decimal(n)), ("Connection"@, "close"@)] + headers;
    let words = http::file_status_words(status);
    lemma_status_words(200);
    lemma_status_words(status);
    lemma_fixed_writable();
    lemma_decimal_word(n);
    lemma_named_writable(numbers::decimal(n));
    assert(all_writable(all)) by {
        assert forall|i: int| 0 <= i < all.len() implies writable(#[trigger] all[i]) by {
            if i >= 2 {
                assert(all[i] == headers[i - 2]);
            }
        }
    }
    assert(http::sized_head(status, n, headers) =~= written(http::status_line(status, words), all));
    law_answer_read_back(status, words, all, content);
    let got = all_read_back(all);
    assert(got.skip(2) =~= all_read_back(headers));
    lemma_all_names();
    assert(got[0].0 == http::LENGTH_HEADER@);
    lemma_value_at(got, http::LENGTH_HEADER@, 0);
    numbers::law_decimal_read_back(n, u64::MAX as nat);
}

/// The package that the server sends, received by the client in whatever
/// pieces, is whole, and its name and category are the given ones without the
/// white space around them.
pub proof fn law_package_read_back(
    file_name: Seq<char>,
    category: Seq<char>,
    content: Seq<u8>,
)
    requires
        wire::no_line_end(file_name),
        wire::no_line_end(category),
        content.len() <= u64::MAX,
    ensures
        ({
            let bytes = vstd::utf8::encode_utf8(
                wire::head(http::file_head(content.len(), file_name, category)),
            ) + content;
            &&& streams::completeness(bytes) is Ok
            &&& streams::body_of(bytes) == content
            &&& streams::total_of(bytes) == content.len()
            &&& streams::head_at(bytes) matches Some(i) && http::status_in(
                http::head_lines(bytes.take(i)),
            ) == Ok::<u16, Seq<char>>(200u16) && http::value_of(
                http::headers_from(http::head_lines(bytes.take(i)), 1, false),
                http::FILE_HEADER@,
            ) == Some(text::trimmed(file_name)) && http::value_of(
                http::headers_from(http::head_lines(bytes.take(i)), 1, false),
                http::CATEGORY_HEADER@,
            ) == Some(text::trimmed(category))
        }),
{
    let n = content.len();
    let ls = http::file_head(n, file_name, category);
    let headers = seq![
        ("Content-Length"@, numbers::decimal(n)),
        ("Connection"@, "close"@),
        ("Content-Type"@, "application/octet-stream"@),
        ("X-AppManager-Filename"@, file_name),
        ("X-AppManager-Category"@, category),
    ];
    lemma_status_words(200);
    lemma_fixed_writable();
    lemma_decimal_word(n);
    lemma_named_writable(numbers::decimal(n));
    lemma_named_writable(file_name);
    lemma_named_writable(category);
    assert(all_writable(headers));
    assert(ls =~= written(http::status_line(200, "OK"@), headers));
    law_answer_read_back(200, "OK"@, headers, content);
    let got = all_read_back(headers);
    lemma_all_names();
    assert(got[0].0 == http::LENGTH_HEADER@);
    assert(got[1].0 == "connection"@);
    assert(got[2].0 == "content-type"@);
    assert(got[3].0 == http::FILE_HEADER@);
    assert(got[4].0 == http::CATEGORY_HEADER@);
    lemma_value_at(got, http::LENGTH_HEADER@, 0);
    lemma_value_at(got, http::FILE_HEADER@, 3);
    lemma_value_at(got, http::CATEGORY_HEADER@, 4);
    numbers::law_decimal_read_back(n, u64::MAX as nat);
}

/// The problem that the server tells of in an answer is what the client shows.
pub proof fn law_problem_reaches_client(status: u16, error: Seq<char>, body: Seq<char>)
    requires
        json::text_at(vstd::utf8::encode_utf8(body), json::ERROR_KEY@) == Some(error),
    ensures
        http::parsed_response(vstd::utf8::encode_utf8(http::json_answer(status, body))) matches Ok(
            response,
        ) && response.status == status && json::problem_in(response.body) == json::COLON@ + error,
{
    law_json_answer_read_back(status, body);
}

// ---------------------------------------------------------------------------
// Requests
// ---------------------------------------------------------------------------

/// What the client says of itself can be written.
pub open spec fn client_writable(config: ClientConfigView) -> bool {
    wire::no_line_end(config.host) && wire::no_line_end(config.username) && wire::no_line_end(
        config.password,
    )
}

/// A path that stands as one word and has no query.
pub open spec fn plain_path(path: Seq<char>) -> bool {
    path.len() > 0 && forall|i: int|
        0 <= i < path.len() ==> !text::is_white_space(#[trigger] path[i]) && path[i] != '?'
}

/// The client's request for a path is read by the server as such: a request
/// for the path, in the client's name and with its password, without the white
/// space around them. So the client gets in exactly where its credentials are
/// the server's.
pub proof fn law_client_request_read_back(
    client: ClientConfigView,
    config: ServerConfigView,
    path: Seq<char>,
)
    requires
        client_writable(client),
        plain_path(path),
    ensures
        ({
            let request = wire::head(http::get_head(client, path));
            &&& utf8::shown(vstd::utf8::encode_utf8(request)) == request
            &&& server::request_words(request).len() >= 2
            &&& server::request_words(request)[0] == server::GET@
            &&& server::without_query(server::request_words(request)[1]) == path
            &&& http::authorized(http::request_headers(request), config)
                == http::credentials_match(
                text::trimmed(client.username),
                text::trimmed(client.password),
                config,
            )
        }),
{
    let request = wire::head(http::get_head(client, path));
    let address = settings::address(text::trimmed(client.host), client.port);
    let username = text::trimmed(client.username);
    let first = http::get_line(path);
    let headers = seq![
        ("Host"@, address),
        ("X-AppManager-Username"@, username),
        ("X-AppManager-Password"@, client.password),
        ("Connection"@, "close"@),
    ];
    utf8::law_text_read_back(request);
    lemma_trimmed_no_line_end(client.host);
    lemma_trimmed_no_line_end(client.username);
    lemma_address_no_line_end(text::trimmed(client.host), client.port);
    lemma_fixed_writable();
    lemma_named_writable(address);
    lemma_named_writable(username);
    lemma_named_writable(client.password);
    assert(all_writable(headers));
    assert(http::get_head(client, path) =~= written(first, headers));
    reveal_strlit("GET");
    reveal_strlit("HTTP/1.1");
    assert(wire::plain_line(first)) by {
        assert forall|i: int| 0 <= i < first.len() implies #[trigger] first[i] != '\r' && first[i]
            != '\n' by {
            if i >= 4 && i < 4 + path.len() {
                assert(first[i] == path[i - 4]);
            } else if i > 4 + path.len() {
                assert(first[i] == "HTTP/1.1"@[i - 4 - path.len() - 1]);
            }
        }
    }
    law_headers_read_back(first, headers);
    wire::lemma_first_word("GET"@, path + seq![' '] + "HTTP/1.1"@);
    wire::lemma_first_word(path, "HTTP/1.1"@);
    let words = text::words(first);
    assert(words == seq!["GET"@] + (seq![path] + text::words("HTTP/1.1"@)));
    assert(words[0] == "GET"@ && words[1] == path);
    text::lemma_index_from(path, '?', 0);
    let got = all_read_back(headers);
    lemma_all_names();
    assert(got[0].0 == "host"@);
    assert(got[1].0 == http::USER_HEADER@);
    assert(got[2].0 == http::PASSWORD_HEADER@);
    lemma_value_at(got, http::USER_HEADER@, 1);
    lemma_value_at(got, http::PASSWORD_HEADER@, 2);
    text::law_trimmed_idempotent(client.username);
}

/// The client's request to send a package is read by the server as such: the
/// server learns the package's name, category and length, and the package
/// begins where the request's head ends.
pub proof fn law_upload_request_read_back(
    client: ClientConfigView,
    config: ServerConfigView,
    file_name: Seq<char>,
    category: Seq<char>,
    total: nat,
    body: Seq<u8>,
)
    requires
        client_writable(client),
        wire::no_line_end(file_name),
        wire::no_line_end(category),
        0 < total <= usize::MAX,
    ensures
        ({
            let request = wire::head(http::upload_head(client, file_name, category, total));
            let bytes = vstd::utf8::encode_utf8(request) + body;
            let headers = http::request_headers(request);
            &&& server::request_words(request).len() >= 2
            &&& server::request_words(request)[0] == server::POST@
            &&& server::without_query(server::request_words(request)[1]) == server::UPLOAD_PATH@
            &&& http::authorized(headers, config) == http::credentials_match(
                text::trimmed(client.username),
                text::trimmed(client.password),
                config,
            )
            &&& server::promised_length(headers) == Some(total)
            &&& http::value_of(headers, http::FILE_HEADER@) == Some(text::trimmed(file_name))
            &&& http::value_of(headers, http::CATEGORY_HEADER@) == Some(text::trimmed(category))
            &&& streams::body_of(bytes) == body
        }),
{
    let request = wire::head(http::upload_head(client, file_name, category, total));
    let address = settings::address(text::trimmed(client.host), client.port);
    let username = text::trimmed(client.username);
    let first = http::UPLOAD_LINE@;
    let headers = seq![
        ("Host"@, address),
        ("X-AppManager-Username"@, username),
        ("X-AppManager-Password"@, client.password),
        ("X-AppManager-Filename"@, file_name),
        ("X-AppManager-Category"@, category),
        ("Content-Type"@, "application/octet-stream"@),
        ("Content-Length"@, numbers::decimal(total)),
        ("Connection"@, "close"@),
    ];
    lemma_trimmed_no_line_end(client.host);
    lemma_trimmed_no_line_end(client.username);
    lemma_address_no_line_end(text::trimmed(client.host), client.port);
    lemma_fixed_writable();
    lemma_decimal_word(total);
    lemma_named_writable(address);
    lemma_named_writable(username);
    lemma_named_writable(client.password);
    lemma_named_writable(file_name);
    lemma_named_writable(category);
    lemma_named_writable(numbers::decimal(total));
    assert(all_writable(headers));
    let ls = http::upload_head(client, file_name, category, total);
    assert(ls =~= written(first, headers));
    reveal_strlit("POST /api/apps/upload HTTP/1.1");
    reveal_strlit("POST");
    reveal_strlit("/api/apps/upload");
    reveal_strlit("HTTP/1.1");
    assert(wire::plain_line(first));
    law_headers_read_back(first, headers);
    let path = server::UPLOAD_PATH@;
    assert(first =~= "POST"@ + seq![' '] + (path + seq![' '] + "HTTP/1.1"@));
    wire::lemma_first_word("POST"@, path + seq![' '] + "HTTP/1.1"@);
    wire::lemma_first_word(path, "HTTP/1.1"@);
    let words = text::words(first);
    assert(words == seq!["POST"@] + (seq![path] + text::words("HTTP/1.1"@)));
    assert(words[0] == "POST"@ && words[1] == path);
    text::lemma_index_from(path, '?', 0);
    let got = all_read_back(headers);
    lemma_all_names();
    assert(got[0].0 == "host"@);
    assert(got[1].0 == http::USER_HEADER@);
    assert(got[2].0 == http::PASSWORD_HEADER@);
    assert(got[3].0 == http::FILE_HEADER@);
    assert(got[4].0 == http::CATEGORY_HEADER@);
    assert(got[5].0 == "content-type"@);
    assert(got[6].0 == http::LENGTH_HEADER@);
    lemma_value_at(got, http::USER_HEADER@, 1);
    lemma_value_at(got, http::PASSWORD_HEADER@, 2);
    lemma_value_at(got, http::FILE_HEADER@, 3);
    lemma_value_at(got, http::CATEGORY_HEADER@, 4);
    lemma_value_at(got, http::LENGTH_HEADER@, 6);
    text::law_trimmed_idempotent(client.username);
    numbers::law_decimal_read_back(total, usize::MAX as nat);
    lemma_written_plain(first, headers);
    wire::law_head_end(ls, body);
}

/// An id that can stand in a path.
pub open spec fn path_id(id: Seq<char>) -> bool {
    id.len() > 0 && forall|i: int| 0 <= i < id.len() ==> #[trigger] id[i] != '/'
}

proof fn lemma_id_in_path(id: Seq<char>, suffix: Seq<char>)
    requires
        path_id(id),
        suffix.len() > 1,
        suffix[0] == '/',
        suffix[1] != '/',
    ensures
        server::id_in_path(server::APP_PREFIX@ + id + suffix, suffix) == id,
{
    reveal_strlit("/api/apps/");
    let prefix = server::APP_PREFIX@;
    let path = prefix + id + suffix;
    let n = prefix.len() as int;
    assert(prefix =~= path.subrange(0, n));
    let inner = id + suffix;
    assert(path.skip(n) =~= inner);
    assert(!prefix.is_prefix_of(inner)) by {
        if prefix.is_prefix_of(inner) {
            assert(prefix[0] == inner.subrange(0, n)[0]);
            assert(inner[0] == id[0]);
        }
    }
    assert(server::without_prefixes(path, prefix) == server::without_prefixes(inner, prefix));
    assert(server::without_prefixes(inner, prefix) == inner);
    assert(suffix =~= inner.subrange(inner.len() - suffix.len(), inner.len() as int));
    assert(inner.take(inner.len() - suffix.len()) =~= id);
    assert(!suffix.is_suffix_of(id)) by {
        if suffix.is_suffix_of(id) {
            let k = id.len() - suffix.len();
            assert(id.subrange(k, id.len() as int)[0] == suffix[0]);
            assert(id[k] == '/');
        }
    }
    assert(server::without_suffixes(inner, suffix) == server::without_suffixes(id, suffix));
    assert(server::without_suffixes(id, suffix) == id);
    let slash = seq!['/'];
    assert(!slash.is_prefix_of(id)) by {
        if slash.is_prefix_of(id) {
            assert(id.subrange(0, 1)[0] == slash[0]);
        }
    }
    assert(!slash.is_suffix_of(id)) by {
        if slash.is_suffix_of(id) {
            let k = id.len() - 1;
            assert(id.subrange(k, id.len() as int)[0] == slash[0]);
        }
    }
}

/// The path under which the client asks for an application's package leads the
/// server to the application's package, and the path under which it asks for
/// the progress to the progress, both of that application.
pub proof fn law_app_paths_read_back(id: Seq<char>)
    requires
        path_id(id),
    ensures
        ({
            let download = transfer::download_path_of(id);
            &&& server::route_of(server::GET@, download, true) == server::Route::Download
            &&& server::id_in_path(download, server::DOWNLOAD_SUFFIX@) == id
            &&& transfer::progress_path(download) matches Some(progress) && server::route_of(
                server::GET@,
                progress,
                true,
            ) == server::Route::Progress && server::id_in_path(progress, server::PROGRESS_SUFFIX@)
                == id
        }),
{
    reveal_strlit("/api/apps/");
    reveal_strlit("/download");
    reveal_strlit("/progress");
    reveal_strlit("GET");
    reveal_strlit("POST");
    let prefix = server::APP_PREFIX@;
    let down = server::DOWNLOAD_SUFFIX@;
    let prog = server::PROGRESS_SUFFIX@;
    let download = transfer::download_path_of(id);
    let progress = prefix + id + prog;
    lemma_id_in_path(id, down);
    lemma_id_in_path(id, prog);
    transfer::law_progress_of_download(id);
    assert(server::GET@ != server::POST@) by {
        assert(server::GET@.len() != server::POST@.len());
    }
    assert(prefix =~= download.subrange(0, prefix.len() as int));
    assert(down =~= download.subrange(download.len() - down.len(), download.len() as int));
    assert(prefix =~= progress.subrange(0, prefix.len() as int));
    assert(prog =~= progress.subrange(progress.len() - prog.len(), progress.len() as int));
    assert(!down.is_suffix_of(progress)) by {
        if down.is_suffix_of(progress) {
            let k = progress.len() - down.len();
            assert(progress.subrange(k, progress.len() as int)[1] == down[1]);
            assert(progress[k + 1] == prog[1]);
        }
    }
}

/// A server whose settings were made with a user name and a password lets a
/// client in that has the same user name and password, and no client with
/// another user name.
pub proof fn law_same_credentials_get_in(
    before: SettingsView,
    request: settings::UpdateSettingsRequest,
    username: Seq<char>,
    password: Seq<char>,
)
    requires
        text::trimmed(request.server_password@).len() > 0,
    ensures
        ({
            let config = settings::updated_settings(before, request).server;
            &&& username == text::trimmed(request.server_username@) && password == text::trimmed(
                request.server_password@,
            ) ==> http::credentials_match(username, password, config)
            &&& username != text::trimmed(request.server_username@) ==> !http::credentials_match(
                username,
                password,
                config,
            )
        }),
{
}

} // verus!
