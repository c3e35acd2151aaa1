//! Requests and responses as they go over the wire.

use vstd::prelude::*;
use crate::fnv;
use crate::fnv::make_id;
use crate::model::{
    ClientConfig, ClientConfigView, HttpResponse, HttpResponseView, ServerConfig, ServerConfigView,
};
use crate::numbers;
use crate::numbers::{decimal_text, parse_number, push_decimal};
use crate::settings;
use crate::settings::client_address;
use crate::split::{split_char_once, split_lines, split_words};
use crate::text;
use crate::text::{is_blank, push_text, same_text, to_lower_ascii, trim};
use crate::utf8;
use crate::utf8::lossy_text;
use crate::wire;
use crate::wire::find_head_end;

verus! {

/// The header that names the user.
pub const USER_HEADER: &'static str = "x-appmanager-username";

/// The header that holds the password.
pub const PASSWORD_HEADER: &'static str = "x-appmanager-password";

/// The header that names the file.
pub const FILE_HEADER: &'static str = "x-appmanager-filename";

/// The header that names the category.
pub const CATEGORY_HEADER: &'static str = "x-appmanager-category";

/// The header that gives the length of the body.
pub const LENGTH_HEADER: &'static str = "content-length";

/// Shown where an answer has no end of its head.
pub const BAD_RESPONSE: &'static str = "服务端响应格式无效";

/// Shown where an answer has an empty head.
pub const EMPTY_RESPONSE: &'static str = "服务端响应为空";

/// Shown where an answer gives no status.
pub const NO_STATUS: &'static str = "无法读取服务端状态码";

/// Shown where the client does not know its server.
pub const NO_HOST: &'static str = "请先填写服务端地址";

/// Shown where the client lacks a user name or a password.
pub const NO_CREDENTIALS: &'static str = "请先填写客户端用户名和密码";

// ---------------------------------------------------------------------------
// Headers
// ---------------------------------------------------------------------------

/// The views of a list of headers.
pub open spec fn header_views(headers: Seq<(String, String)>) -> Seq<(Seq<char>, Seq<char>)> {
    Seq::new(headers.len(), |i: int| (headers[i].0@, headers[i].1@))
}

/// A line as a header: the name in lower case and the value, both without
/// white space around them.
pub open spec fn header_of(line: Seq<char>) -> Option<(Seq<char>, Seq<char>)> {
    match text::split_at_char(line, ':') {
        Some((name, value)) => Some((text::lower_ascii(text::trimmed(name)), text::trimmed(value))),
        None => None,
    }
}

/// The headers among the lines, the first `i` of which are put aside; with
/// `to_blank`, only those before the first blank line.
pub open spec fn headers_from(lines: Seq<Seq<char>>, i: int, to_blank: bool) -> Seq<
    (Seq<char>, Seq<char>),
>
    decreases lines.len() - i,
{
    if i < 0 || i >= lines.len() || (to_blank && text::trimmed(lines[i]).len() == 0) {
        Seq::empty()
    } else {
        let rest = headers_from(lines, i + 1, to_blank);
        match header_of(lines[i]) {
            Some(h) => seq![h] + rest,
            None => rest,
        }
    }
}

/// The headers of a request: those of the lines behind the first, up to the
/// first blank line.
pub open spec fn request_headers(request: Seq<char>) -> Seq<(Seq<char>, Seq<char>)> {
    headers_from(text::lines(request), 1, true)
}

/// The value of the first header with the name.
pub open spec fn value_of(headers: Seq<(Seq<char>, Seq<char>)>, name: Seq<char>) -> Option<Seq<char>>
    decreases headers.len(),
{
    if headers.len() == 0 {
        None
    } else if headers[0].0 == name {
        Some(headers[0].1)
    } else {
        value_of(headers.drop_first(), name)
    }
}

/// The value of the first header with the name, or nothing.
pub open spec fn value_or_empty(headers: Seq<(Seq<char>, Seq<char>)>, name: Seq<char>) -> Seq<char> {
    match value_of(headers, name) {
        Some(v) => v,
        None => Seq::empty(),
    }
}

fn collect_headers(lines: &Vec<String>, to_blank: bool) -> (r: Vec<(String, String)>)
    ensures
        header_views(r@) == headers_from(text::texts(lines@), 1, to_blank),
{
    let ghost all = text::texts(lines@);
    let mut out: Vec<(String, String)> = Vec::new();
    let mut i: usize = 1;
    assert(header_views(out@) + headers_from(all, 1, to_blank) =~= headers_from(all, 1, to_blank));
    while i < lines.len()
        invariant
            1 <= i,
            all == text::texts(lines@),
            header_views(out@) + headers_from(all, i as int, to_blank) == headers_from(
                all,
                1,
                to_blank,
            ),
        decreases lines@.len() - i,
    {
        if to_blank && is_blank(lines[i].as_str()) {
            assert(header_views(out@) =~= header_views(out@) + headers_from(
                all,
                i as int,
                to_blank,
            ));
            return out;
        }
        let ghost before = out@;
        let ghost rest = headers_from(all, i + 1, to_blank);
        match split_char_once(lines[i].as_str(), ':') {
            Some((name, value)) => {
                let clean = trim(name.as_str());
                let h = (to_lower_ascii(clean.as_str()), trim(value.as_str()));
                out.push(h);
                assert(header_views(out@) =~= header_views(before).push((h.0@, h.1@)));
                assert(header_views(out@) + rest =~= header_views(before) + (seq![(h.0@, h.1@)]
                    + rest));
            },
            None => {},
        }
        i = i + 1;
    }
    assert(header_views(out@) =~= header_views(out@) + headers_from(all, i as int, to_blank));
    out
}

/// The headers of a request.
pub fn parse_headers(request: &str) -> (r: Vec<(String, String)>)
    ensures
        header_views(r@) == request_headers(request@),
{
    let lines = split_lines(request);
    collect_headers(&lines, true)
}

/// The value of the first header with the name, whatever the case of its
/// letters.
pub fn header_value(headers: &Vec<(String, String)>, name: &str) -> (r: Option<String>)
    ensures
        text::opt_text(r) == value_of(header_views(headers@), text::lower_ascii(name@)),
{
    let wanted = to_lower_ascii(name);
    let ghost all = header_views(headers@);
    let mut i: usize = 0;
    assert(all.skip(0) =~= all);
    while i < headers.len()
        invariant
            i <= headers@.len(),
            all == header_views(headers@),
            wanted@ == text::lower_ascii(name@),
            value_of(all, wanted@) == value_of(all.skip(i as int), wanted@),
        decreases headers@.len() - i,
    {
        assert(all.skip(i as int)[0] == all[i as int]);
        assert(all.skip(i as int).drop_first() =~= all.skip(i + 1));
        if same_text(headers[i].0.as_str(), wanted.as_str()) {
            return Some(headers[i].1.clone());
        }
        i = i + 1;
    }
    assert(all.skip(i as int).len() == 0);
    None
}

/// The value of the header with exactly the name, or nothing.
fn plain_value(headers: &Vec<(String, String)>, name: &str) -> (r: String)
    requires
        text::lower_ascii(name@) == name@,
    ensures
        r@ == value_or_empty(header_views(headers@), name@),
{
    match header_value(headers, name) {
        Some(v) => v,
        None => {
            let none = String::new();
            assert(none@ =~= Seq::<char>::empty());
            none
        },
    }
}

/// The names that the library looks up are in lower case.
pub proof fn lemma_header_names()
    ensures
        text::lower_ascii(USER_HEADER@) == USER_HEADER@,
        text::lower_ascii(PASSWORD_HEADER@) == PASSWORD_HEADER@,
        text::lower_ascii(FILE_HEADER@) == FILE_HEADER@,
        text::lower_ascii(CATEGORY_HEADER@) == CATEGORY_HEADER@,
        text::lower_ascii(LENGTH_HEADER@) == LENGTH_HEADER@,
{
    reveal_strlit("x-appmanager-username");
    reveal_strlit("x-appmanager-password");
    reveal_strlit("x-appmanager-filename");
    reveal_strlit("x-appmanager-category");
    reveal_strlit("content-length");
    assert(text::lower_ascii(USER_HEADER@) =~= USER_HEADER@);
    assert(text::lower_ascii(PASSWORD_HEADER@) =~= PASSWORD_HEADER@);
    assert(text::lower_ascii(FILE_HEADER@) =~= FILE_HEADER@);
    assert(text::lower_ascii(CATEGORY_HEADER@) =~= CATEGORY_HEADER@);
    assert(text::lower_ascii(LENGTH_HEADER@) =~= LENGTH_HEADER@);
}

// ---------------------------------------------------------------------------
// Authorization
// ---------------------------------------------------------------------------

/// The user name and the password are those of the server: the password
/// itself or one with the same hash, as far as the server has them.
pub open spec fn credentials_match(
    username: Seq<char>,
    password: Seq<char>,
    config: ServerConfigView,
) -> bool {
    username == config.username && ((config.password.len() > 0 && password == config.password) || (
    config.password_hash.len() > 0 && fnv::id_of(password) == config.password_hash))
}

/// The headers give the server's user name and password.
pub open spec fn authorized(
    headers: Seq<(Seq<char>, Seq<char>)>,
    config: ServerConfigView,
) -> bool {
    credentials_match(
        value_or_empty(headers, USER_HEADER@),
        value_or_empty(headers, PASSWORD_HEADER@),
        config,
    )
}

/// Whether the headers give the server's user name and password.
pub fn is_authorized(headers: &Vec<(String, String)>, config: &ServerConfig) -> (r: bool)
    ensures
        r == authorized(header_views(headers@), config@),
{
    proof {
        lemma_header_names();
    }
    let username = plain_value(headers, USER_HEADER);
    let password = plain_value(headers, PASSWORD_HEADER);
    if !same_text(username.as_str(), config.username.as_str()) {
        return false;
    }
    if !config.password.as_str().is_empty() && same_text(
        password.as_str(),
        config.password.as_str(),
    ) {
        return true;
    }
    if config.password_hash.as_str().is_empty() {
        return false;
    }
    let hash = make_id(password.as_str());
    same_text(hash.as_str(), config.password_hash.as_str())
}

// ---------------------------------------------------------------------------
// Responses
// ---------------------------------------------------------------------------

/// The status in the first line of an answer's head.
pub open spec fn status_in(lines: Seq<Seq<char>>) -> Result<u16, Seq<char>> {
    if lines.len() == 0 {
        Err(EMPTY_RESPONSE@)
    } else {
        let words = text::words(lines[0]);
        if words.len() < 2 {
            Err(NO_STATUS@)
        } else {
            match numbers::parsed(words[1], u16::MAX as nat) {
                Some(n) => Ok(n as u16),
                None => Err(NO_STATUS@),
            }
        }
    }
}

/// The lines of an answer's head.
pub open spec fn head_lines(head: Seq<u8>) -> Seq<Seq<char>> {
    text::lines(utf8::shown(head))
}

/// An answer: its status, and what follows its head.
pub open spec fn parsed_response(bytes: Seq<u8>) -> Result<HttpResponseView, Seq<char>> {
    match text::find(bytes, wire::head_end()) {
        None => Err(BAD_RESPONSE@),
        Some(i) => match status_in(head_lines(bytes.take(i))) {
            Ok(status) => Ok(HttpResponseView { status, body: bytes.skip(i + 4) }),
            Err(e) => Err(e),
        },
    }
}

/// The status in the first of the lines.
pub fn parse_status(lines: &Vec<String>) -> (r: Result<u16, String>)
    ensures
        match r {
            Ok(status) => status_in(text::texts(lines@)) == Ok::<u16, Seq<char>>(status),
            Err(e) => status_in(text::texts(lines@)) == Err::<u16, Seq<char>>(e@),
        },
{
    if lines.len() == 0 {
        return Err(EMPTY_RESPONSE.to_string());
    }
    assert(text::texts(lines@)[0] == lines@[0]@);
    let words = split_words(lines[0].as_str());
    assert(text::texts(words@).len() == words@.len());
    if words.len() < 2 {
        return Err(NO_STATUS.to_string());
    }
    assert(text::texts(words@)[1] == words@[1]@);
    match parse_number(words[1].as_str(), 65535) {
        Some(n) => Ok(n as u16),
        None => Err(NO_STATUS.to_string()),
    }
}

/// An answer: its status, and what follows its head.
pub fn parse_http_response(response: &[u8]) -> (r: Result<HttpResponse, String>)
    ensures
        match r {
            Ok(parsed) => parsed_response(response@) == Ok::<_, Seq<char>>(parsed@),
            Err(e) => parsed_response(response@) == Err::<HttpResponseView, _>(e@),
        },
{
    let n: usize = response.len();
    let end: usize = match find_head_end(response) {
        Some(i) => i,
        None => {
            return Err(BAD_RESPONSE.to_string());
        },
    };
    let head = &response[0..end];
    assert(head@ =~= response@.take(end as int));
    let shown = lossy_text(head);
    let lines = split_lines(shown.as_str());
    match parse_status(&lines) {
        Ok(status) => {
            let body = crate::model::copy_bytes(&response[end + 4..n]);
            assert(body@ =~= response@.skip(end + 4));
            Ok(HttpResponse { status, body })
        },
        Err(e) => Err(e),
    }
}

/// The head of an answer.
#[derive(Debug)]
pub struct ResponseHead {
    pub status: u16,
    pub headers: Vec<(String, String)>,
    pub total: u64,
}

/// The length of the body that the headers give; nothing where they give none.
pub open spec fn declared_length(headers: Seq<(Seq<char>, Seq<char>)>) -> u64 {
    match value_of(headers, LENGTH_HEADER@) {
        Some(v) => match numbers::parsed(v, u64::MAX as nat) {
            Some(n) => n as u64,
            None => 0,
        },
        None => 0,
    }
}

/// The length of the body that the headers give; nothing where they give none.
pub fn content_length(headers: &Vec<(String, String)>) -> (r: u64)
    ensures
        r == declared_length(header_views(headers@)),
{
    proof {
        lemma_header_names();
    }
    match header_value(headers, LENGTH_HEADER) {
        Some(v) => match parse_number(v.as_str(), 18446744073709551615) {
            Some(n) => n,
            None => 0,
        },
        None => 0,
    }
}

/// The head is what the bytes of an answer's head say.
pub open spec fn head_matches(head: ResponseHead, bytes: Seq<u8>) -> bool {
    let lines = head_lines(bytes);
    &&& status_in(lines) == Ok::<u16, Seq<char>>(head.status)
    &&& header_views(head.headers@) == headers_from(lines, 1, false)
    &&& head.total == declared_length(headers_from(lines, 1, false))
}

/// The head of an answer.
pub fn parse_response_head(head: &[u8]) -> (r: Result<ResponseHead, String>)
    ensures
        match r {
            Ok(h) => head_matches(h, head@),
            Err(e) => status_in(head_lines(head@)) == Err::<u16, Seq<char>>(e@),
        },
{
    let shown = lossy_text(head);
    let lines = split_lines(shown.as_str());
    match parse_status(&lines) {
        Ok(status) => {
            let headers = collect_headers(&lines, false);
            let total = content_length(&headers);
            Ok(ResponseHead { status, headers, total })
        },
        Err(e) => Err(e),
    }
}

/// The length of the body that an answer's head gives.
pub fn declared_total(head: &[u8]) -> (r: u64)
    ensures
        r == declared_length(headers_from(head_lines(head@), 1, false)),
{
    let shown = lossy_text(head);
    let lines = split_lines(shown.as_str());
    let headers = collect_headers(&lines, false);
    content_length(&headers)
}

/// The words that go with a status.
pub open spec fn status_words(status: u16) -> Seq<char> {
    if status == 400 {
        "Bad Request"@
    } else if status == 401 {
        "Unauthorized"@
    } else if status == 403 {
        "Forbidden"@
    } else if status == 404 {
        "Not Found"@
    } else if status == 405 {
        "Method Not Allowed"@
    } else if status == 500 {
        "Internal Server Error"@
    } else {
        "OK"@
    }
}

fn status_text(status: u16) -> (r: &'static str)
    ensures
        r@ == status_words(status),
{
    if status == 400 {
        "Bad Request"
    } else if status == 401 {
        "Unauthorized"
    } else if status == 403 {
        "Forbidden"
    } else if status == 404 {
        "Not Found"
    } else if status == 405 {
        "Method Not Allowed"
    } else if status == 500 {
        "Internal Server Error"
    } else {
        "OK"
    }
}

/// The first line of an answer.
pub open spec fn status_line(status: u16, words: Seq<char>) -> Seq<char> {
    "HTTP/1.1"@ + seq![' '] + (numbers::decimal(status as nat) + seq![' '] + words)
}

/// A header as a line.
pub open spec fn field(name: Seq<char>, value: Seq<char>) -> Seq<char> {
    name + seq![':', ' '] + value
}

/// The lines of the head of an answer whose body is JSON.
pub open spec fn json_head(status: u16, length: nat) -> Seq<Seq<char>> {
    seq![
        status_line(status, status_words(status)),
        field("Content-Type"@, "application/json; charset=utf-8"@),
        field("Access-Control-Allow-Origin"@, "*"@),
        field("Content-Length"@, numbers::decimal(length)),
        field("Connection"@, "close"@),
    ]
}

/// An answer whose body is JSON.
pub open spec fn json_answer(status: u16, body: Seq<char>) -> Seq<char> {
    wire::head(json_head(status, vstd::utf8::encode_utf8(body).len())) + body
}

fn push_line_end(out: &mut String)
    ensures
        final(out)@ == old(out)@ + wire::crlf(),
{
    out.push('\r');
    out.push('\n');
    assert(out@ =~= old(out)@ + wire::crlf());
}

/// Ends the line before and writes a header.
fn push_field(out: &mut String, name: &str, value: &str)
    ensures
        final(out)@ == old(out)@ + wire::crlf() + field(name@, value@),
{
    push_line_end(out);
    push_text(out, name);
    out.push(':');
    out.push(' ');
    push_text(out, value);
    assert(out@ =~= old(out)@ + wire::crlf() + field(name@, value@));
}

fn begin_status_line(status: u16, words: &str) -> (r: String)
    ensures
        r@ == status_line(status, words@),
{
    let mut out = "HTTP/1.1".to_string();
    out.push(' ');
    push_decimal(&mut out, status as u64);
    out.push(' ');
    push_text(&mut out, words);
    assert(out@ =~= status_line(status, words@));
    out
}

/// A block of lines grows line by line.
proof fn lemma_block_grows(ls: Seq<Seq<char>>)
    ensures
        ls.len() > 0 ==> wire::block(ls.take(1)) == ls[0],
        forall|k: int|
            1 < k <= ls.len() ==> wire::block(#[trigger] ls.take(k)) == wire::block(ls.take(k - 1))
                + wire::crlf() + ls[k - 1],
{
    assert forall|k: int| 1 < k <= ls.len() implies wire::block(#[trigger] ls.take(k))
        == wire::block(ls.take(k - 1)) + wire::crlf() + ls[k - 1] by {
        assert(ls.take(k).drop_last() =~= ls.take(k - 1));
        assert(ls.take(k).last() == ls[k - 1]);
    }
    if ls.len() > 0 {
        assert(wire::block(ls.take(1)) == ls.take(1)[0]);
    }
}

/// An answer whose body is JSON.
pub fn json_response(status: u16, body: &str) -> (r: String)
    ensures
        r@ == json_answer(status, body@),
{
    let n: usize = body.as_bytes().len();
    let ghost ls = json_head(status, n as nat);
    proof {
        lemma_block_grows(ls);
        assert(ls.take(5) =~= ls);
    }
    let length = decimal_text(n as u64);
    let mut out = begin_status_line(status, status_text(status));
    push_field(&mut out, "Content-Type", "application/json; charset=utf-8");
    push_field(&mut out, "Access-Control-Allow-Origin", "*");
    push_field(&mut out, "Content-Length", length.as_str());
    push_field(&mut out, "Connection", "close");
    assert(out@ == wire::block(ls.take(5)));
    push_line_end(&mut out);
    push_line_end(&mut out);
    push_text(&mut out, body);
    out
}

/// The words that go with the status of an answer whose body is a file.
pub open spec fn file_status_words(status: u16) -> Seq<char> {
    if status == 403 {
        "Forbidden"@
    } else if status == 404 {
        "Not Found"@
    } else if status == 500 {
        "Internal Server Error"@
    } else {
        "OK"@
    }
}

fn file_status_text(status: u16) -> (r: &'static str)
    ensures
        r@ == file_status_words(status),
{
    if status == 403 {
        "Forbidden"
    } else if status == 404 {
        "Not Found"
    } else if status == 500 {
        "Internal Server Error"
    } else {
        "OK"
    }
}

/// Headers as lines.
pub open spec fn fields(headers: Seq<(Seq<char>, Seq<char>)>) -> Seq<Seq<char>> {
    Seq::new(headers.len(), |i: int| field(headers[i].0, headers[i].1))
}

/// The lines of the head of an answer whose body is a file of the given size.
pub open spec fn sized_head(
    status: u16,
    size: nat,
    headers: Seq<(Seq<char>, Seq<char>)>,
) -> Seq<Seq<char>> {
    seq![
        status_line(status, file_status_words(status)),
        field("Content-Length"@, numbers::decimal(size)),
        field("Connection"@, "close"@),
    ] + fields(headers)
}

/// The head of an answer whose body is a file of the given size: any status, and
/// any headers behind those that every such answer has.
pub fn sized_response_head(status: u16, size: u64, headers: &Vec<(String, String)>) -> (r: String)
    ensures
        r@ == wire::head(sized_head(status, size as nat, header_views(headers@))),
{
    let ghost given = header_views(headers@);
    let ghost ls = sized_head(status, size as nat, given);
    proof {
        lemma_block_grows(ls);
    }
    let length = decimal_text(size);
    let mut out = begin_status_line(status, file_status_text(status));
    push_field(&mut out, "Content-Length", length.as_str());
    push_field(&mut out, "Connection", "close");
    assert(out@ == wire::block(ls.take(3)));
    let mut i: usize = 0;
    while i < headers.len()
        invariant
            i <= headers@.len(),
            given == header_views(headers@),
            ls == sized_head(status, size as nat, given),
            ls.len() == headers@.len() + 3,
            forall|k: int|
                1 < k <= ls.len() ==> wire::block(#[trigger] ls.take(k)) == wire::block(
                    ls.take(k - 1),
                ) + wire::crlf() + ls[k - 1],
            out@ == wire::block(ls.take(i + 3)),
        decreases headers@.len() - i,
    {
        assert(ls[i + 3] == field(given[i as int].0, given[i as int].1));
        push_field(&mut out, headers[i].0.as_str(), headers[i].1.as_str());
        assert(out@ == wire::block(ls.take(i + 4)));
        i = i + 1;
    }
    assert(ls.take(i + 3) =~= ls);
    push_line_end(&mut out);
    push_line_end(&mut out);
    out
}

/// The headers of an answer whose body is a package.
pub open spec fn package_headers(file_name: Seq<char>, category: Seq<char>) -> Seq<
    (Seq<char>, Seq<char>),
> {
    seq![
        ("Content-Type"@, "application/octet-stream"@),
        ("X-AppManager-Filename"@, file_name),
        ("X-AppManager-Category"@, category),
    ]
}

/// The lines of the head of an answer whose body is a package.
pub open spec fn file_head(size: nat, file_name: Seq<char>, category: Seq<char>) -> Seq<Seq<char>> {
    sized_head(200, size, package_headers(file_name, category))
}

/// The head of an answer whose body is a package.
pub fn file_response_head(size: u64, file_name: &str, category: &str) -> (r: String)
    ensures
        r@ == wire::head(file_head(size as nat, file_name@, category@)),
{
    let mut headers: Vec<(String, String)> = Vec::new();
    headers.push(("Content-Type".to_string(), "application/octet-stream".to_string()));
    headers.push(("X-AppManager-Filename".to_string(), file_name.to_string()));
    headers.push(("X-AppManager-Category".to_string(), category.to_string()));
    assert(header_views(headers@) =~= package_headers(file_name@, category@));
    sized_response_head(200, size, &headers)
}

// ---------------------------------------------------------------------------
// Requests
// ---------------------------------------------------------------------------

/// The client knows its server and has credentials.
pub open spec fn is_configured(config: ClientConfigView) -> bool {
    text::trimmed(config.host).len() > 0 && text::trimmed(config.username).len() > 0
        && config.password.len() > 0
}

/// Refuses to call a server that the client does not know or has no
/// credentials for.
pub fn check_client(config: &ClientConfig) -> (r: Result<(), String>)
    ensures
        match r {
            Ok(_) => is_configured(config@),
            Err(e) => !is_configured(config@) && e@ == if text::trimmed(config@.host).len() == 0 {
                NO_HOST@
            } else {
                NO_CREDENTIALS@
            },
        },
{
    if is_blank(config.host.as_str()) {
        return Err(NO_HOST.to_string());
    }
    if is_blank(config.username.as_str()) || config.password.as_str().is_empty() {
        return Err(NO_CREDENTIALS.to_string());
    }
    Ok(())
}

/// The first line of a request for a path.
pub open spec fn get_line(path: Seq<char>) -> Seq<char> {
    "GET"@ + seq![' '] + (path + seq![' '] + "HTTP/1.1"@)
}

/// The lines of the head of a request for a path.
pub open spec fn get_head(config: ClientConfigView, path: Seq<char>) -> Seq<Seq<char>> {
    seq![
        get_line(path),
        field("Host"@, settings::address(text::trimmed(config.host), config.port)),
        field("X-AppManager-Username"@, text::trimmed(config.username)),
        field("X-AppManager-Password"@, config.password),
        field("Connection"@, "close"@),
    ]
}

/// A request for a path.
pub fn get_request(config: &ClientConfig, path: &str) -> (r: String)
    ensures
        r@ == wire::head(get_head(config@, path@)),
{
    let ghost ls = get_head(config@, path@);
    proof {
        lemma_block_grows(ls);
        assert(ls.take(5) =~= ls);
    }
    let address = client_address(config);
    let username = trim(config.username.as_str());
    let mut out = "GET".to_string();
    out.push(' ');
    push_text(&mut out, path);
    out.push(' ');
    push_text(&mut out, "HTTP/1.1");
    assert(out@ =~= ls[0]);
    push_field(&mut out, "Host", address.as_str());
    push_field(&mut out, "X-AppManager-Username", username.as_str());
    push_field(&mut out, "X-AppManager-Password", config.password.as_str());
    push_field(&mut out, "Connection", "close");
    assert(out@ == wire::block(ls.take(5)));
    push_line_end(&mut out);
    push_line_end(&mut out);
    out
}

/// The first line of a request that sends a package.
pub const UPLOAD_LINE: &'static str = "POST /api/apps/upload HTTP/1.1";

/// The lines of the head of a request that sends a package.
pub open spec fn upload_head(
    config: ClientConfigView,
    file_name: Seq<char>,
    category: Seq<char>,
    total: nat,
) -> Seq<Seq<char>> {
    seq![
        UPLOAD_LINE@,
        field("Host"@, settings::address(text::trimmed(config.host), config.port)),
        field("X-AppManager-Username"@, text::trimmed(config.username)),
        field("X-AppManager-Password"@, config.password),
        field("X-AppManager-Filename"@, file_name),
        field("X-AppManager-Category"@, category),
        field("Content-Type"@, "application/octet-stream"@),
        field("Content-Length"@, numbers::decimal(total)),
        field("Connection"@, "close"@),
    ]
}

/// The head of a request that sends a package.
pub fn upload_request(config: &ClientConfig, file_name: &str, category: &str, total: u64) -> (r:
    String)
    ensures
        r@ == wire::head(upload_head(config@, file_name@, category@, total as nat)),
{
    let ghost ls = upload_head(config@, file_name@, category@, total as nat);
    proof {
        lemma_block_grows(ls);
        assert(ls.take(9) =~= ls);
    }
    let address = client_address(config);
    let username = trim(config.username.as_str());
    let length = decimal_text(total);
    let mut out = UPLOAD_LINE.to_string();
    push_field(&mut out, "Host", address.as_str());
    push_field(&mut out, "X-AppManager-Username", username.as_str());
    push_field(&mut out, "X-AppManager-Password", config.password.as_str());
    push_field(&mut out, "X-AppManager-Filename", file_name);
    push_field(&mut out, "X-AppManager-Category", category);
    push_field(&mut out, "Content-Type", "application/octet-stream");
    push_field(&mut out, "Content-Length", length.as_str());
    push_field(&mut out, "Connection", "close");
    assert(out@ == wire::block(ls.take(9)));
    push_line_end(&mut out);
    push_line_end(&mut out);
    out
}

// ---------------------------------------------------------------------------
// Laws
// ---------------------------------------------------------------------------

/// A line is a header where it has a colon: what stands before the first one is
/// the name, in lower case, what stands behind it the value, both without the
/// white space around them.
pub proof fn law_header_of(name: Seq<char>, value: Seq<char>)
    requires
        !name.contains(':'),
    ensures
        header_of(name + seq![':'] + value) == Some(
            (text::lower_ascii(text::trimmed(name)), text::trimmed(value)),
        ),
        header_of(name) is None,
{
    text::law_split_at_char(name, ':', value);
}

proof fn lemma_headers_shift(front: Seq<Seq<char>>, b: Seq<Seq<char>>, j: int, to_blank: bool)
    requires
        0 <= j <= b.len(),
    ensures
        headers_from(front + b, front.len() + j, to_blank) == headers_from(b, j, to_blank),
    decreases b.len() - j,
{
    if j < b.len() {
        assert((front + b)[front.len() + j] == b[j]);
        lemma_headers_shift(front, b, j + 1, to_blank);
    }
}

proof fn lemma_headers_cut(a: Seq<Seq<char>>, b: Seq<Seq<char>>, i: int, to_blank: bool)
    requires
        0 <= i <= a.len(),
        forall|j: int| 0 <= j < a.len() ==> !(to_blank && text::trimmed(#[trigger] a[j]).len() == 0),
    ensures
        headers_from(a + b, i, to_blank) == headers_from(a, i, to_blank) + headers_from(
            b,
            0,
            to_blank,
        ),
    decreases a.len() - i,
{
    if i == a.len() {
        lemma_headers_shift(a, b, 0, to_blank);
        assert(headers_from(a, i, to_blank) + headers_from(b, 0, to_blank) =~= headers_from(
            b,
            0,
            to_blank,
        ));
    } else {
        assert((a + b)[i] == a[i]);
        assert(!(to_blank && text::trimmed(a[i]).len() == 0));
        lemma_headers_cut(a, b, i + 1, to_blank);
        assert(headers_from(a + b, i, to_blank) =~= headers_from(a, i, to_blank) + headers_from(
            b,
            0,
            to_blank,
        ));
    }
}

/// The headers of a message are those of its lines, from the second line on and
/// in their order; in a request they end at the first blank line.
pub proof fn law_headers_from(
    first: Seq<char>,
    a: Seq<Seq<char>>,
    b: Seq<Seq<char>>,
    line: Seq<char>,
    to_blank: bool,
)
    requires
        forall|j: int| 0 <= j < a.len() ==> !(to_blank && text::trimmed(#[trigger] a[j]).len() == 0),
    ensures
        headers_from(seq![first] + a + b, 1, to_blank) == headers_from(a, 0, to_blank)
            + headers_from(b, 0, to_blank),
        headers_from(a + b, 0, to_blank) == headers_from(a, 0, to_blank) + headers_from(
            b,
            0,
            to_blank,
        ),
        text::trimmed(line).len() > 0 || !to_blank ==> (match header_of(line) {
            Some(h) => headers_from(seq![line], 0, to_blank) == seq![h],
            None => headers_from(seq![line], 0, to_blank).len() == 0,
        }),
        text::trimmed(line).len() == 0 ==> headers_from(seq![line] + b, 0, true).len() == 0,
        a.len() == 0 ==> headers_from(a, 0, to_blank).len() == 0,
{
    lemma_headers_shift(seq![first], a + b, 0, to_blank);
    assert(seq![first] + a + b =~= seq![first] + (a + b));
    lemma_headers_cut(a, b, 0, to_blank);
    let one = seq![line];
    assert(headers_from(one, 1, to_blank) =~= Seq::empty());
    if let Some(h) = header_of(line) {
        assert(seq![h] + Seq::<(Seq<char>, Seq<char>)>::empty() =~= seq![h]);
    }
    assert((one + b)[0] == line);
}

/// The value of a header is that of the first header with the name.
pub proof fn law_value_of(headers: Seq<(Seq<char>, Seq<char>)>, name: Seq<char>, k: int)
    ensures
        0 <= k < headers.len() && headers[k].0 == name && (forall|j: int|
            0 <= j < k ==> (#[trigger] headers[j]).0 != name) ==> value_of(headers, name) == Some(
            headers[k].1,
        ),
        (forall|j: int| 0 <= j < headers.len() ==> (#[trigger] headers[j]).0 != name) ==> value_of(
            headers,
            name,
        ) is None,
    decreases headers.len(),
{
    if headers.len() > 0 {
        let rest = headers.drop_first();
        law_value_of(rest, name, k - 1);
        if headers[0].0 != name {
            if 0 <= k < headers.len() && forall|j: int|
                0 <= j < k ==> (#[trigger] headers[j]).0 != name {
                assert forall|j: int| 0 <= j < k - 1 implies (#[trigger] rest[j]).0 != name by {
                    assert(rest[j] == headers[j + 1]);
                }
            }
            if 0 < k < headers.len() {
                assert(rest[k - 1] == headers[k]);
            }
            if forall|j: int| 0 <= j < headers.len() ==> (#[trigger] headers[j]).0 != name {
                assert forall|j: int| 0 <= j < rest.len() implies (#[trigger] rest[j]).0 != name by {
                    assert(rest[j] == headers[j + 1]);
                }
            }
        } else if 0 < k {
            assert(!(forall|j: int| 0 <= j < k ==> (#[trigger] headers[j]).0 != name)) by {
                assert(headers[0].0 == name);
            }
        }
    }
}

/// Another user's name, or a password that is neither the one that is set nor has
/// its hash, does not get in; the right ones do, and only a name and a password
/// that were sent count.
pub proof fn law_credentials(
    headers: Seq<(Seq<char>, Seq<char>)>,
    username: Seq<char>,
    password: Seq<char>,
    config: ServerConfigView,
)
    ensures
        username != config.username ==> !credentials_match(username, password, config),
        password != config.password && fnv::id_of(password) != config.password_hash
            ==> !credentials_match(username, password, config),
        username == config.username && password == config.password && password.len() > 0
            ==> credentials_match(username, password, config),
        username == config.username && fnv::id_of(password) == config.password_hash
            && config.password_hash.len() > 0 ==> credentials_match(username, password, config),
        value_of(headers, "x-appmanager-username"@) == Some(username) && value_of(
            headers,
            "x-appmanager-password"@,
        ) == Some(password) ==> authorized(headers, config) == credentials_match(
            username,
            password,
            config,
        ),
        value_of(headers, "x-appmanager-username"@) is None && config.username.len() > 0
            ==> !authorized(headers, config),
{
}

/// An answer is read where it has an empty line and a status: the status is the
/// number in the second word of its first line, and everything behind the empty
/// line is the body.
pub proof fn law_parsed_response(bytes: Seq<u8>)
    ensures
        match parsed_response(bytes) {
            Ok(r) => exists|head: Seq<u8>|
                bytes == #[trigger] (head + wire::head_end() + r.body) && status_in(
                    text::lines(utf8::shown(head)),
                ) == Ok::<u16, Seq<char>>(r.status),
            Err(e) => e == BAD_RESPONSE@ || e == EMPTY_RESPONSE@ || e == NO_STATUS@,
        },
        (forall|x: Seq<u8>, y: Seq<u8>|
            bytes != #[trigger] (x + wire::head_end() + y)) ==> parsed_response(bytes)
            == Err::<HttpResponseView, _>(BAD_RESPONSE@),
{
    let mark = wire::head_end();
    text::lemma_find_from(bytes, mark, 0);
    if let Some(i) = text::find(bytes, mark) {
        let head = bytes.take(i);
        assert(bytes =~= head + bytes.subrange(i, i + 4) + bytes.skip(i + 4));
        assert(bytes.subrange(i, i + mark.len()) == mark);
        assert(bytes == head + wire::head_end() + bytes.skip(i + 4));
        if let Ok(r) = parsed_response(bytes) {
            assert(bytes == head + wire::head_end() + r.body);
            assert(status_in(text::lines(utf8::shown(head))) == Ok::<u16, Seq<char>>(r.status));
        }
        law_status_in(head_lines(head));
    }
}

/// The status of an answer is the second word of its first line, a number that
/// fits in 16 bits; without a line, a second word or a number there is none.
pub proof fn law_status_in(lines: Seq<Seq<char>>)
    ensures
        lines.len() == 0 ==> status_in(lines) == Err::<u16, _>(EMPTY_RESPONSE@),
        lines.len() > 0 && text::words(lines[0]).len() < 2 ==> status_in(lines) == Err::<u16, _>(
            NO_STATUS@,
        ),
        lines.len() > 0 && text::words(lines[0]).len() >= 2 ==> (match numbers::parsed(
            text::words(lines[0])[1],
            65535,
        ) {
            Some(n) => status_in(lines) matches Ok(status) && status == n,
            None => status_in(lines) == Err::<u16, _>(NO_STATUS@),
        }),
{
}

/// The length that a message declares is the number in its `Content-Length`, and
/// zero where it has none that can be read.
pub proof fn law_declared_length(headers: Seq<(Seq<char>, Seq<char>)>, n: nat)
    requires
        n <= u64::MAX,
    ensures
        value_of(headers, "content-length"@) == Some(numbers::decimal(n)) ==> declared_length(
            headers,
        ) == n,
        value_of(headers, "content-length"@) is None ==> declared_length(headers) == 0,
{
    numbers::law_decimal_read_back(n, u64::MAX as nat);
}

/// A client can ask where it has a host and a user's name that are not blank, and
/// a password.
pub proof fn law_is_configured(config: ClientConfigView)
    ensures
        is_configured(config) == (!text::all_white(config.host) && !text::all_white(config.username)
            && config.password.len() > 0),
{
    text::lemma_blank(config.host);
    text::lemma_blank(config.username);
}

/// The lines before the body of an answer in JSON.
pub proof fn law_json_head(status: u16, length: nat)
    ensures
        ({
            let lines = json_head(status, length);
            &&& lines.len() == 5
            &&& lines[0] == "HTTP/1.1 "@ + numbers::decimal(status as nat) + " "@ + status_words(
                status,
            )
            &&& lines[1] == "Content-Type: application/json; charset=utf-8"@
            &&& lines[2] == "Access-Control-Allow-Origin: *"@
            &&& lines[3] == "Content-Length: "@ + numbers::decimal(length)
            &&& lines[4] == "Connection: close"@
        }),
{
    reveal_strlit("HTTP/1.1");
    reveal_strlit("HTTP/1.1 ");
    reveal_strlit(" ");
    reveal_strlit("Content-Type");
    reveal_strlit("application/json; charset=utf-8");
    reveal_strlit("Content-Type: application/json; charset=utf-8");
    reveal_strlit("Access-Control-Allow-Origin");
    reveal_strlit("*");
    reveal_strlit("Access-Control-Allow-Origin: *");
    reveal_strlit("Content-Length");
    reveal_strlit("Content-Length: ");
    reveal_strlit("Connection");
    reveal_strlit("close");
    reveal_strlit("Connection: close");
    lemma_status_line_text(status, status_words(status));
    assert(field("Content-Type"@, "application/json; charset=utf-8"@)
        =~= "Content-Type: application/json; charset=utf-8"@);
    assert(field("Access-Control-Allow-Origin"@, "*"@) =~= "Access-Control-Allow-Origin: *"@);
    assert(field("Content-Length"@, numbers::decimal(length)) =~= "Content-Length: "@
        + numbers::decimal(length));
    assert(field("Connection"@, "close"@) =~= "Connection: close"@);
}

proof fn lemma_status_line_text(status: u16, words: Seq<char>)
    ensures
        status_line(status, words) == "HTTP/1.1 "@ + numbers::decimal(status as nat) + " "@ + words,
{
    reveal_strlit("HTTP/1.1");
    reveal_strlit("HTTP/1.1 ");
    reveal_strlit(" ");
    assert(status_line(status, words) =~= "HTTP/1.1 "@ + numbers::decimal(status as nat) + " "@
        + words);
}

/// An answer in JSON is its lines, an empty line and the body, whose length in
/// bytes the lines tell.
pub proof fn law_json_answer(status: u16, body: Seq<char>)
    ensures
        json_answer(status, body) == text::joined(
            json_head(status, vstd::utf8::encode_utf8(body).len()),
            "\r\n"@,
        ) + "\r\n\r\n"@ + body,
{
    reveal_strlit("\r\n");
    assert("\r\n"@ =~= wire::crlf());
    wire::law_empty_line();
    let block = wire::block(json_head(status, vstd::utf8::encode_utf8(body).len()));
    assert(block + wire::crlf() + wire::crlf() =~= block + (wire::crlf() + wire::crlf()));
}

/// The words of a status are those of the protocol; a file's answer says `OK`
/// also where only an answer in JSON refuses.
pub proof fn law_status_words(status: u16)
    ensures
        status == 200 ==> status_words(status) == "OK"@,
        status == 400 ==> status_words(status) == "Bad Request"@,
        status == 401 ==> status_words(status) == "Unauthorized"@,
        status == 403 ==> status_words(status) == "Forbidden"@,
        status == 404 ==> status_words(status) == "Not Found"@,
        status == 405 ==> status_words(status) == "Method Not Allowed"@,
        status == 500 ==> status_words(status) == "Internal Server Error"@,
        status != 400 && status != 401 && status != 405 ==> file_status_words(status)
            == status_words(status),
        status == 400 || status == 401 || status == 405 ==> file_status_words(status) == "OK"@,
{
}

/// The lines before the bytes of a file: its length, that the connection is
/// closed, and the headers that were asked for, in their order.
pub proof fn law_sized_head(status: u16, size: nat, headers: Seq<(Seq<char>, Seq<char>)>)
    ensures
        ({
            let lines = sized_head(status, size, headers);
            &&& lines.len() == 3 + headers.len()
            &&& lines[0] == "HTTP/1.1 "@ + numbers::decimal(status as nat) + " "@
                + file_status_words(status)
            &&& lines[1] == "Content-Length: "@ + numbers::decimal(size)
            &&& lines[2] == "Connection: close"@
            &&& forall|i: int|
                0 <= i < headers.len() ==> lines[3 + i] == (#[trigger] headers[i]).0 + ": "@
                    + headers[i].1
        }),
{
    reveal_strlit("Content-Length");
    reveal_strlit("Content-Length: ");
    reveal_strlit("Connection");
    reveal_strlit("close");
    reveal_strlit("Connection: close");
    reveal_strlit(": ");
    lemma_status_line_text(status, file_status_words(status));
    assert(field("Content-Length"@, numbers::decimal(size)) =~= "Content-Length: "@
        + numbers::decimal(size));
    assert(field("Connection"@, "close"@) =~= "Connection: close"@);
    let lines = sized_head(status, size, headers);
    assert forall|i: int| 0 <= i < headers.len() implies lines[3 + i] == (#[trigger] headers[i]).0
        + ": "@ + headers[i].1 by {
        assert(lines[3 + i] == field(headers[i].0, headers[i].1));
        assert(seq![':', ' '] =~= ": "@);
    }
}

/// The lines before a package.
pub proof fn law_file_head(size: nat, file_name: Seq<char>, category: Seq<char>)
    ensures
        ({
            let lines = file_head(size, file_name, category);
            &&& lines.len() == 6
            &&& lines[0] == "HTTP/1.1 "@ + numbers::decimal(200) + " OK"@
            &&& lines[1] == "Content-Length: "@ + numbers::decimal(size)
            &&& lines[2] == "Connection: close"@
            &&& lines[3] == "Content-Type: application/octet-stream"@
            &&& lines[4] == "X-AppManager-Filename: "@ + file_name
            &&& lines[5] == "X-AppManager-Category: "@ + category
        }),
{
    reveal_strlit(" ");
    reveal_strlit("OK");
    reveal_strlit(" OK");
    reveal_strlit(": ");
    reveal_strlit("Content-Type");
    reveal_strlit("application/octet-stream");
    reveal_strlit("Content-Type: application/octet-stream");
    reveal_strlit("X-AppManager-Filename");
    reveal_strlit("X-AppManager-Filename: ");
    reveal_strlit("X-AppManager-Category");
    reveal_strlit("X-AppManager-Category: ");
    let headers = package_headers(file_name, category);
    law_sized_head(200, size, headers);
    assert(" "@ + "OK"@ =~= " OK"@);
    let lines = file_head(size, file_name, category);
    let version = "HTTP/1.1 "@ + numbers::decimal(200);
    assert(version + " "@ + "OK"@ =~= version + " OK"@);
    assert(lines[3] == headers[0].0 + ": "@ + headers[0].1);
    assert(lines[4] == headers[1].0 + ": "@ + headers[1].1);
    assert(lines[5] == headers[2].0 + ": "@ + headers[2].1);
    assert("Content-Type"@ + ": "@ + "application/octet-stream"@
        =~= "Content-Type: application/octet-stream"@);
    assert("X-AppManager-Filename"@ + ": "@ + file_name =~= "X-AppManager-Filename: "@ + file_name);
    assert("X-AppManager-Category"@ + ": "@ + category =~= "X-AppManager-Category: "@ + category);
}

/// The lines of a client's request for a path.
pub proof fn law_get_head(config: ClientConfigView, path: Seq<char>)
    ensures
        ({
            let lines = get_head(config, path);
            &&& lines.len() == 5
            &&& lines[0] == "GET "@ + path + " HTTP/1.1"@
            &&& lines[1] == "Host: "@ + settings::address(text::trimmed(config.host), config.port)
            &&& lines[2] == "X-AppManager-Username: "@ + text::trimmed(config.username)
            &&& lines[3] == "X-AppManager-Password: "@ + config.password
            &&& lines[4] == "Connection: close"@
        }),
{
    reveal_strlit("GET");
    reveal_strlit("GET ");
    reveal_strlit("HTTP/1.1");
    reveal_strlit(" HTTP/1.1");
    reveal_strlit("Host");
    reveal_strlit("Host: ");
    reveal_strlit("X-AppManager-Username");
    reveal_strlit("X-AppManager-Username: ");
    reveal_strlit("X-AppManager-Password");
    reveal_strlit("X-AppManager-Password: ");
    reveal_strlit("Connection");
    reveal_strlit("close");
    reveal_strlit("Connection: close");
    let address = settings::address(text::trimmed(config.host), config.port);
    let username = text::trimmed(config.username);
    assert(get_line(path) =~= "GET "@ + path + " HTTP/1.1"@);
    assert(field("Host"@, address) =~= "Host: "@ + address);
    assert(field("X-AppManager-Username"@, username) =~= "X-AppManager-Username: "@ + username);
    assert(field("X-AppManager-Password"@, config.password) =~= "X-AppManager-Password: "@
        + config.password);
    assert(field("Connection"@, "close"@) =~= "Connection: close"@);
}

/// The lines before a package that a client sends.
pub proof fn law_upload_head(
    config: ClientConfigView,
    file_name: Seq<char>,
    category: Seq<char>,
    total: nat,
)
    ensures
        ({
            let lines = upload_head(config, file_name, category, total);
            let asked = get_head(config, file_name);
            &&& lines.len() == 9
            &&& lines[0] == "POST /api/apps/upload HTTP/1.1"@
            &&& lines[1] == asked[1]
            &&& lines[2] == asked[2]
            &&& lines[3] == asked[3]
            &&& lines[4] == "X-AppManager-Filename: "@ + file_name
            &&& lines[5] == "X-AppManager-Category: "@ + category
            &&& lines[6] == "Content-Type: application/octet-stream"@
            &&& lines[7] == "Content-Length: "@ + numbers::decimal(total)
            &&& lines[8] == "Connection: close"@
        }),
{
    reveal_strlit("Content-Type");
    reveal_strlit("application/octet-stream");
    reveal_strlit("Content-Type: application/octet-stream");
    reveal_strlit("X-AppManager-Filename");
    reveal_strlit("X-AppManager-Filename: ");
    reveal_strlit("X-AppManager-Category");
    reveal_strlit("X-AppManager-Category: ");
    reveal_strlit("Content-Length");
    reveal_strlit("Content-Length: ");
    reveal_strlit("Connection");
    reveal_strlit("close");
    reveal_strlit("Connection: close");
    assert(field("X-AppManager-Filename"@, file_name) =~= "X-AppManager-Filename: "@ + file_name);
    assert(field("X-AppManager-Category"@, category) =~= "X-AppManager-Category: "@ + category);
    assert(field("Content-Type"@, "application/octet-stream"@)
        =~= "Content-Type: application/octet-stream"@);
    assert(field("Content-Length"@, numbers::decimal(total)) =~= "Content-Length: "@
        + numbers::decimal(total));
    assert(field("Connection"@, "close"@) =~= "Connection: close"@);
}

/// The head of an answer is read into its status, its headers and the length that
/// it declares.
pub proof fn law_head_matches(head: ResponseHead, bytes: Seq<u8>)
    requires
        head_matches(head, bytes),
    ensures
        status_in(text::lines(utf8::shown(bytes))) == Ok::<u16, Seq<char>>(head.status),
        header_views(head.headers@) == headers_from(text::lines(utf8::shown(bytes)), 1, false),
        head.total == declared_length(header_views(head.headers@)),
{
}

} // verus!
