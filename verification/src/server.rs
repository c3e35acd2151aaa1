//! What the server does with a request.

use vstd::prelude::*;
use crate::catalog;
use crate::catalog::find_app;
use crate::fnv;
use crate::fnv::make_id;
use crate::http;
use crate::http::{
    header_value, header_views, is_authorized, parse_headers, CATEGORY_HEADER, FILE_HEADER,
    LENGTH_HEADER, USER_HEADER,
};
use crate::json;
use crate::json::{error_object, object, JsonField};
use crate::lists;
use crate::lists::{position, Wanted};
use crate::model;
use crate::model::{
    copy_clients, AppData, ManagedApp, ServerClientInfo, ServerClientView,
    ServerConfig, ServerConfigView, ServerStatus, ServerStatusView,
};
use crate::numbers;
use crate::numbers::{parse_number, push_decimal};
use crate::order;
use crate::order::{sort, Ranked};
use crate::paths;
use crate::paths::{FilePath, REVIEW_DIR};
use crate::split::{
    begins_with, finishes_with, split_char_once, split_lines, split_words, without_prefix,
    without_suffix,
};
use crate::text;
use crate::text::{push_text, same_text};
use crate::utf8;
use crate::utf8::lossy_text;
use crate::wire;
use crate::wire::find_head_end;

verus! {

pub const SERVER_INFO_PATH: &'static str = "/api/server-info";

pub const AUTH_TEST_PATH: &'static str = "/api/auth/test";

pub const CATEGORIES_PATH: &'static str = "/api/categories";

pub const APPS_PATH: &'static str = "/api/apps";

pub const UPLOAD_PATH: &'static str = "/api/apps/upload";

/// What the paths of single applications begin with.
pub const APP_PREFIX: &'static str = "/api/apps/";

/// What the path of an application's package ends with.
pub const DOWNLOAD_SUFFIX: &'static str = "/download";

/// What the path of a transfer's progress ends with.
pub const PROGRESS_SUFFIX: &'static str = "/progress";

pub const GET: &'static str = "GET";

pub const POST: &'static str = "POST";

pub const BAD_REQUEST_BODY: &'static str = "{\"error\":\"bad request\"}";

pub const UNAUTHORIZED_BODY: &'static str = "{\"error\":\"unauthorized\"}";

pub const METHOD_BODY: &'static str = "{\"error\":\"method not allowed\"}";

pub const NOT_FOUND_BODY: &'static str = "{\"error\":\"not found\"}";

pub const DOWNLOADS_DISABLED_BODY: &'static str = "{\"error\":\"downloads disabled\"}";

pub const UPLOADS_DISABLED_BODY: &'static str = "{\"error\":\"uploads disabled\"}";

pub const APP_NOT_FOUND_BODY: &'static str = "{\"error\":\"app not found\"}";

pub const MISSING_LENGTH_BODY: &'static str = "{\"error\":\"missing content length\"}";

pub const INCOMPLETE_BODY: &'static str = "{\"error\":\"incomplete upload\"}";

pub const DONE_BODY: &'static str = "{\"ok\":true}";

/// The user name of a client that gives none.
pub const ANONYMOUS: &'static str = "anonymous";

/// How long a client that was seen counts as online, in seconds.
pub const SERVER_CLIENT_ONLINE_SECONDS: u64 = 30;

/// How long a client that was seen is remembered, in seconds.
pub const SERVER_CLIENT_KEEP_SECONDS: u64 = 300;

/// How many clients are shown.
pub const SHOWN_CLIENTS: usize = 12;

/// What is asked of the server.
#[derive(Clone, Copy, PartialEq, Eq, Structural, Debug)]
pub enum Route {
    BadRequest,
    Unauthorized,
    MethodNotAllowed,
    NotFound,
    Upload,
    Download,
    Progress,
    ServerInfo,
    AuthTest,
    Categories,
    Apps,
}

/// A request: what it asks for, its path and headers, and whether its sender
/// is remembered as a client.
#[derive(Debug)]
pub struct RoutedRequest {
    pub route: Route,
    pub path: String,
    pub headers: Vec<(String, String)>,
    pub remember: bool,
}

// ---------------------------------------------------------------------------
// Routing
// ---------------------------------------------------------------------------

/// A path without its query.
pub open spec fn without_query(target: Seq<char>) -> Seq<char> {
    match text::split_at_char(target, '?') {
        Some((path, _)) => path,
        None => target,
    }
}

/// The words of the first line of a request.
pub open spec fn request_words(request: Seq<char>) -> Seq<Seq<char>> {
    let lines = text::lines(request);
    if lines.len() == 0 {
        Seq::empty()
    } else {
        text::words(lines[0])
    }
}

/// The request comes from someone who may ask: everyone may ask what the
/// server is, and those who give its user name and password may ask anything.
pub open spec fn may_ask(
    path: Seq<char>,
    headers: Seq<(Seq<char>, Seq<char>)>,
    config: ServerConfigView,
) -> bool {
    path == SERVER_INFO_PATH@ || http::authorized(headers, config)
}

/// What a request asks for.
pub open spec fn route_of(method: Seq<char>, path: Seq<char>, allowed: bool) -> Route {
    if method == POST@ && path == UPLOAD_PATH@ {
        if allowed {
            Route::Upload
        } else {
            Route::Unauthorized
        }
    } else if method != GET@ {
        Route::MethodNotAllowed
    } else if !allowed {
        Route::Unauthorized
    } else if APP_PREFIX@.is_prefix_of(path) && DOWNLOAD_SUFFIX@.is_suffix_of(path) {
        Route::Download
    } else if APP_PREFIX@.is_prefix_of(path) && PROGRESS_SUFFIX@.is_suffix_of(path) {
        Route::Progress
    } else if path == SERVER_INFO_PATH@ {
        Route::ServerInfo
    } else if path == AUTH_TEST_PATH@ {
        Route::AuthTest
    } else if path == CATEGORIES_PATH@ {
        Route::Categories
    } else if path == APPS_PATH@ {
        Route::Apps
    } else {
        Route::NotFound
    }
}

/// The request is read as the text says.
pub open spec fn routed(request: Seq<char>, config: ServerConfigView, r: RoutedRequest) -> bool {
    let words = request_words(request);
    if words.len() < 2 {
        r.route == Route::BadRequest && !r.remember && r.path@.len() == 0 && r.headers@.len() == 0
    } else {
        let path = without_query(words[1]);
        let headers = http::request_headers(request);
        let allowed = may_ask(path, headers, config);
        &&& r.path@ == path
        &&& header_views(r.headers@) == headers
        &&& r.route == route_of(words[0], path, allowed)
        &&& r.remember == (allowed && !PROGRESS_SUFFIX@.is_suffix_of(path))
    }
}

fn choose_route(method: &str, path: &str, allowed: bool) -> (r: Route)
    ensures
        r == route_of(method@, path@, allowed),
{
    if same_text(method, POST) && same_text(path, UPLOAD_PATH) {
        return if allowed {
            Route::Upload
        } else {
            Route::Unauthorized
        };
    }
    if !same_text(method, GET) {
        return Route::MethodNotAllowed;
    }
    if !allowed {
        return Route::Unauthorized;
    }
    if begins_with(path, APP_PREFIX) && finishes_with(path, DOWNLOAD_SUFFIX) {
        return Route::Download;
    }
    if begins_with(path, APP_PREFIX) && finishes_with(path, PROGRESS_SUFFIX) {
        return Route::Progress;
    }
    if same_text(path, SERVER_INFO_PATH) {
        Route::ServerInfo
    } else if same_text(path, AUTH_TEST_PATH) {
        Route::AuthTest
    } else if same_text(path, CATEGORIES_PATH) {
        Route::Categories
    } else if same_text(path, APPS_PATH) {
        Route::Apps
    } else {
        Route::NotFound
    }
}

/// Reads a request as far as it has come in.
pub fn route_request(request: &[u8], config: &ServerConfig) -> (r: RoutedRequest)
    ensures
        routed(utf8::shown(request@), config@, r),
{
    let shown = lossy_text(request);
    let lines = split_lines(shown.as_str());
    let words = if lines.len() == 0 {
        let none: Vec<String> = Vec::new();
        assert(text::texts(none@) =~= Seq::empty());
        none
    } else {
        assert(text::texts(lines@)[0] == lines@[0]@);
        split_words(lines[0].as_str())
    };
    assert(text::texts(words@) == request_words(shown@));
    if words.len() < 2 {
        assert(request_words(shown@).len() < 2);
        let path = String::new();
        assert(path@.len() == 0);
        return RoutedRequest {
            route: Route::BadRequest,
            path,
            headers: Vec::new(),
            remember: false,
        };
    }
    assert(text::texts(words@)[0] == words@[0]@);
    assert(text::texts(words@)[1] == words@[1]@);
    let path = match split_char_once(words[1].as_str(), '?') {
        Some((path, _)) => path,
        None => words[1].clone(),
    };
    let headers = parse_headers(shown.as_str());
    let allowed = same_text(path.as_str(), SERVER_INFO_PATH) || is_authorized(&headers, config);
    let route = choose_route(words[0].as_str(), path.as_str(), allowed);
    let remember = allowed && !finishes_with(path.as_str(), PROGRESS_SUFFIX);
    RoutedRequest { route, path, headers, remember }
}

/// The status and the body of the answer to a request that gets nothing else.
pub open spec fn refusal_of(route: Route) -> Option<(u16, Seq<char>)> {
    match route {
        Route::BadRequest => Some((400, BAD_REQUEST_BODY@)),
        Route::Unauthorized => Some((401, UNAUTHORIZED_BODY@)),
        Route::MethodNotAllowed => Some((405, METHOD_BODY@)),
        Route::NotFound => Some((404, NOT_FOUND_BODY@)),
        _ => None,
    }
}

/// The status and the body of the answer to a request that gets nothing else.
pub fn refusal(route: Route) -> (r: Option<(u16, &'static str)>)
    ensures
        (match r {
            Some((status, body)) => Some((status, body@)),
            None => None,
        }) == refusal_of(route),
{
    match route {
        Route::BadRequest => Some((400, BAD_REQUEST_BODY)),
        Route::Unauthorized => Some((401, UNAUTHORIZED_BODY)),
        Route::MethodNotAllowed => Some((405, METHOD_BODY)),
        Route::NotFound => Some((404, NOT_FOUND_BODY)),
        _ => None,
    }
}

// ---------------------------------------------------------------------------
// Short answers
// ---------------------------------------------------------------------------

/// What the server tells of itself.
pub open spec fn server_info(allow_downloads: bool) -> Seq<(Seq<char>, json::FieldView)> {
    seq![
        ("name"@, json::FieldView::Text("AppManager"@)),
        ("mode"@, json::FieldView::Text("server"@)),
        ("authRequired"@, json::FieldView::Flag(true)),
        ("allowDownloads"@, json::FieldView::Flag(allow_downloads)),
    ]
}

/// What the server tells of itself; a client finds the server's name, its mode
/// and whether it lets packages be taken in it.
pub fn server_info_body(config: &ServerConfig) -> (r: String)
    ensures
        r@ == json::object_text(server_info(config.allow_downloads)),
        ({
            let bytes = vstd::utf8::encode_utf8(r@);
            &&& json::text_at(bytes, "name"@) == Some("AppManager"@)
            &&& json::text_at(bytes, "mode"@) == Some("server"@)
            &&& json::flag_at(bytes, "authRequired"@) == Some(true)
            &&& json::flag_at(bytes, "allowDownloads"@) == Some(config.allow_downloads)
        }),
{
    let mut fields: Vec<(String, JsonField)> = Vec::new();
    fields.push(("name".to_string(), JsonField::Text("AppManager".to_string())));
    fields.push(("mode".to_string(), JsonField::Text("server".to_string())));
    fields.push(("authRequired".to_string(), JsonField::Flag(true)));
    fields.push(("allowDownloads".to_string(), JsonField::Flag(config.allow_downloads)));
    let ghost views = json::field_views(fields@);
    assert(views =~= server_info(config.allow_downloads));
    proof {
        reveal_strlit("name");
        reveal_strlit("mode");
        reveal_strlit("authRequired");
        reveal_strlit("allowDownloads");
        assert("name"@[0] != "mode"@[0]);
        let ks = json::keys(views);
        assert(ks[0] == "name"@ && ks[1] == "mode"@ && ks[2] == "authRequired"@ && ks[3]
            == "allowDownloads"@);
        assert(ks[0].len() == 4 && ks[1].len() == 4 && ks[2].len() == 12 && ks[3].len() == 14);
        assert(lists::distinct(ks));
    }
    let r = object(fields);
    assert(views[0].0 == "name"@);
    assert(views[1].0 == "mode"@);
    assert(views[2].0 == "authRequired"@);
    assert(views[3].0 == "allowDownloads"@);
    r
}

/// The answer to a client that tries its user name and password.
pub fn auth_test_body() -> (r: String)
    ensures
        r@ == json::object_text(seq![("ok"@, json::FieldView::Flag(true))]),
        json::flag_at(vstd::utf8::encode_utf8(r@), "ok"@) == Some(true),
{
    let mut fields: Vec<(String, JsonField)> = Vec::new();
    fields.push(("ok".to_string(), JsonField::Flag(true)));
    let ghost views = json::field_views(fields@);
    assert(views =~= seq![("ok"@, json::FieldView::Flag(true))]);
    proof {
        reveal_strlit("ok");
    }
    let r = object(fields);
    assert(views[0].0 == "ok"@);
    r
}

// ---------------------------------------------------------------------------
// Single applications
// ---------------------------------------------------------------------------

/// The text without `pat` at its beginning, however often it stands there.
pub open spec fn without_prefixes(s: Seq<char>, pat: Seq<char>) -> Seq<char>
    decreases s.len(),
{
    if pat.len() > 0 && pat.is_prefix_of(s) {
        without_prefixes(s.skip(pat.len() as int), pat)
    } else {
        s
    }
}

/// The text without `pat` at its end, however often it stands there.
pub open spec fn without_suffixes(s: Seq<char>, pat: Seq<char>) -> Seq<char>
    decreases s.len(),
{
    if pat.len() > 0 && pat.is_suffix_of(s) {
        without_suffixes(s.take(s.len() - pat.len()), pat)
    } else {
        s
    }
}

/// The text without slashes around it.
pub open spec fn without_slashes(s: Seq<char>) -> Seq<char> {
    without_suffixes(without_prefixes(s, seq!['/']), seq!['/'])
}

/// The id of the application that a path names.
pub open spec fn id_in_path(path: Seq<char>, suffix: Seq<char>) -> Seq<char> {
    without_slashes(without_suffixes(without_prefixes(path, APP_PREFIX@), suffix))
}

fn strip_prefixes(s: &str, pat: &str) -> (r: String)
    ensures
        r@ == without_prefixes(s@, pat@),
{
    let mut rest = s.to_string();
    if pat.is_empty() {
        return rest;
    }
    loop
        invariant
            pat@.len() > 0,
            without_prefixes(rest@, pat@) == without_prefixes(s@, pat@),
        decreases rest@.len(),
    {
        match without_prefix(rest.as_str(), pat) {
            Some(shorter) => {
                rest = shorter;
            },
            None => {
                return rest;
            },
        }
    }
}

fn strip_suffixes(s: &str, pat: &str) -> (r: String)
    ensures
        r@ == without_suffixes(s@, pat@),
{
    let mut rest = s.to_string();
    if pat.is_empty() {
        return rest;
    }
    loop
        invariant
            pat@.len() > 0,
            without_suffixes(rest@, pat@) == without_suffixes(s@, pat@),
        decreases rest@.len(),
    {
        match without_suffix(rest.as_str(), pat) {
            Some(shorter) => {
                rest = shorter;
            },
            None => {
                return rest;
            },
        }
    }
}

/// The id of the application that a path names.
pub fn app_id_in_path(path: &str, suffix: &str) -> (r: String)
    ensures
        r@ == id_in_path(path@, suffix@),
{
    let slash: &str = "/";
    proof {
        reveal_strlit("/");
        assert(slash@ =~= seq!['/']);
    }
    let inner = strip_prefixes(path, APP_PREFIX);
    let id = strip_suffixes(inner.as_str(), suffix);
    let left = strip_prefixes(id.as_str(), slash);
    strip_suffixes(left.as_str(), slash)
}

/// An answer with a status and a JSON body.
#[derive(Debug)]
pub struct Answer {
    pub status: u16,
    pub body: String,
}

/// The answer has the status and the body.
pub open spec fn is_answer(a: Answer, status: u16, body: Seq<char>) -> bool {
    a.status == status && a.body@ == body
}

fn fixed_answer(status: u16, body: &str) -> (r: Answer)
    ensures
        is_answer(r, status, body@),
{
    Answer { status, body: body.to_string() }
}

/// The answer to a request that met a problem inside the server.
pub fn failure_answer(error: &str) -> (r: Answer)
    ensures
        is_answer(r, 500, json::error_text(error@)),
        json::text_at(vstd::utf8::encode_utf8(r.body@), json::ERROR_KEY@) == Some(error@),
{
    Answer { status: 500, body: error_object(error) }
}

/// Refuses to hand out packages where the server does not let them be taken.
pub fn check_downloads(config: &ServerConfig) -> (r: Result<(), Answer>)
    ensures
        match r {
            Ok(_) => config.allow_downloads,
            Err(a) => !config.allow_downloads && is_answer(a, 403, DOWNLOADS_DISABLED_BODY@),
        },
{
    if !config.allow_downloads {
        return Err(fixed_answer(403, DOWNLOADS_DISABLED_BODY));
    }
    Ok(())
}

/// The application whose package is asked for, or the answer that takes its
/// place. The catalogue is given as far as it could be loaded.
pub fn requested_app(path: &str, config: &ServerConfig, data: &Result<AppData, String>) -> (r:
    Result<ManagedApp, Answer>)
    ensures
        ({
            let id = id_in_path(path@, DOWNLOAD_SUFFIX@);
            if !config.allow_downloads {
                r matches Err(a) && is_answer(a, 403, DOWNLOADS_DISABLED_BODY@)
            } else {
                match *data {
                    Err(e) => r matches Err(a) && is_answer(a, 500, json::error_text(e@)),
                    Ok(d) => match lists::found(d@.apps, catalog::app_has_id(id)) {
                        Some(app) => r matches Ok(found) && found@ == app,
                        None => r matches Err(a) && is_answer(a, 404, APP_NOT_FOUND_BODY@),
                    },
                }
            }
        }),
{
    match check_downloads(config) {
        Ok(_) => {},
        Err(a) => {
            return Err(a);
        },
    }
    let id = app_id_in_path(path, DOWNLOAD_SUFFIX);
    match data {
        Err(e) => Err(failure_answer(e.as_str())),
        Ok(d) => match find_app(&d.apps, id.as_str()) {
            Some(k) => Ok(d.apps[k].clone()),
            None => Err(fixed_answer(404, APP_NOT_FOUND_BODY)),
        },
    }
}

/// Shown, around the numbers, where a package was not sent whole.
pub const SENT_BEFORE: &'static str = "鏈嶅姟绔彂閫佷笉瀹屾暣锛氬凡鍙戯拷?";

pub const SENT_AFTER: &'static str = " 瀛楄妭";

/// Whether a package was sent whole.
pub fn check_sent(sent: u64, size: u64) -> (r: Result<(), String>)
    ensures
        match r {
            Ok(_) => sent == size,
            Err(e) => sent != size && e@ == SENT_BEFORE@ + numbers::decimal(sent as nat) + " / "@
                + numbers::decimal(size as nat) + SENT_AFTER@,
        },
{
    if sent != size {
        let mut message = SENT_BEFORE.to_string();
        push_decimal(&mut message, sent);
        push_text(&mut message, " / ");
        push_decimal(&mut message, size);
        push_text(&mut message, SENT_AFTER);
        return Err(message);
    }
    Ok(())
}

// ---------------------------------------------------------------------------
// Uploads
// ---------------------------------------------------------------------------

/// The name of a package that comes without one.
pub const UNNAMED_PACKAGE: &'static str = "uploaded.zip";

/// What the id of an upload begins with.
pub const UPLOAD_ID_PREFIX: &'static str = "server-upload-";

/// A package that is about to come in.
#[derive(Debug)]
pub struct UploadPlan {
    pub content_length: usize,
    pub file_name: String,
    pub category_name: String,
    pub app_id: String,
    pub body_start: usize,
}

/// The length of the package that the headers promise.
pub open spec fn promised_length(headers: Seq<(Seq<char>, Seq<char>)>) -> Option<nat> {
    match http::value_of(headers, LENGTH_HEADER@) {
        Some(v) => match numbers::parsed(v, usize::MAX as nat) {
            Some(n) => if n > 0 {
                Some(n)
            } else {
                None
            },
            None => None,
        },
        None => None,
    }
}

/// A header's value, or what takes its place.
pub open spec fn value_or(
    headers: Seq<(Seq<char>, Seq<char>)>,
    name: Seq<char>,
    other: Seq<char>,
) -> Seq<char> {
    match http::value_of(headers, name) {
        Some(v) => v,
        None => other,
    }
}

/// What a request that sends a package comes to: the answer that refuses it,
/// or the plan for the package.
pub open spec fn upload_planned(
    headers: Seq<(Seq<char>, Seq<char>)>,
    received: Seq<u8>,
    allow: bool,
    r: Result<UploadPlan, Answer>,
) -> bool {
    if !allow {
        r matches Err(a) && is_answer(a, 403, UPLOADS_DISABLED_BODY@)
    } else if promised_length(headers) is None {
        r matches Err(a) && is_answer(a, 400, MISSING_LENGTH_BODY@)
    } else {
        match text::find(received, wire::head_end()) {
            None => r matches Err(a) && is_answer(a, 400, BAD_REQUEST_BODY@),
            Some(i) => {
                let file_name = value_or(headers, FILE_HEADER@, UNNAMED_PACKAGE@);
                &&& r matches Ok(plan)
                &&& plan.content_length == promised_length(headers)->0
                &&& plan.file_name@ == file_name
                &&& plan.category_name@ == value_or(headers, CATEGORY_HEADER@, REVIEW_DIR@)
                &&& plan.app_id@ == UPLOAD_ID_PREFIX@ + fnv::id_of(file_name)
                &&& plan.body_start == i + 4
                &&& plan.body_start <= received.len()
            },
        }
    }
}

fn value_or_else(headers: &Vec<(String, String)>, name: &str, other: &str) -> (r: String)
    requires
        text::lower_ascii(name@) == name@,
    ensures
        r@ == value_or(header_views(headers@), name@, other@),
{
    match header_value(headers, name) {
        Some(v) => v,
        None => other.to_string(),
    }
}

/// What a request that sends a package comes to.
pub fn plan_upload(headers: &Vec<(String, String)>, received: &[u8], config: &ServerConfig) -> (r:
    Result<UploadPlan, Answer>)
    ensures
        upload_planned(header_views(headers@), received@, config.allow_downloads, r),
{
    proof {
        http::lemma_header_names();
    }
    if !config.allow_downloads {
        return Err(fixed_answer(403, UPLOADS_DISABLED_BODY));
    }
    let length: Option<u64> = match header_value(headers, LENGTH_HEADER) {
        Some(v) => parse_number(v.as_str(), usize::MAX as u64),
        None => None,
    };
    let content_length: usize = match length {
        Some(n) => {
            if n == 0 {
                return Err(fixed_answer(400, MISSING_LENGTH_BODY));
            }
            n as usize
        },
        None => {
            return Err(fixed_answer(400, MISSING_LENGTH_BODY));
        },
    };
    let file_name = value_or_else(headers, FILE_HEADER, UNNAMED_PACKAGE);
    let category_name = value_or_else(headers, CATEGORY_HEADER, REVIEW_DIR);
    let mut app_id = UPLOAD_ID_PREFIX.to_string();
    let id = make_id(file_name.as_str());
    push_text(&mut app_id, id.as_str());
    let n: usize = received.len();
    match find_head_end(received) {
        Some(i) => Ok(
            UploadPlan { content_length, file_name, category_name, app_id, body_start: i + 4 },
        ),
        None => Err(fixed_answer(400, BAD_REQUEST_BODY)),
    }
}

/// The name under which an upload is shown: the file's name without its
/// extension.
pub fn upload_display_name(file_path: &FilePath, file_name: &str) -> (r: String)
    ensures
        r@ == (match paths::file_stem_of(file_path@) {
            Some(stem) => stem,
            None => file_name@,
        }),
{
    match file_path.file_stem() {
        Some(stem) => stem,
        None => file_name.to_string(),
    }
}

// ---------------------------------------------------------------------------
// Clients
// ---------------------------------------------------------------------------

pub open spec fn client_at(address: Seq<char>) -> spec_fn(ServerClientView) -> bool {
    |c: ServerClientView| c.address == address
}

/// No address is remembered twice.
pub open spec fn addresses_distinct(clients: Seq<ServerClientView>) -> bool {
    forall|i: int, j: int|
        0 <= i < j < clients.len() ==> (#[trigger] clients[i]).address != (
        #[trigger] clients[j]).address
}

/// A client as it was just seen.
pub open spec fn seen_client(
    address: Seq<char>,
    headers: Seq<(Seq<char>, Seq<char>)>,
    path: Seq<char>,
    now: u64,
) -> ServerClientView {
    ServerClientView {
        address,
        username: value_or(headers, USER_HEADER@, ANONYMOUS@),
        last_path: path,
        last_seen_at: now,
        online: true,
    }
}

/// The clients after one was seen: it takes the place of what was remembered
/// of its address.
pub open spec fn remembered(
    clients: Seq<ServerClientView>,
    client: ServerClientView,
) -> Seq<ServerClientView> {
    match lists::first(clients, client_at(client.address)) {
        Some(k) => clients.update(k, client),
        None => clients.push(client),
    }
}

/// The client at an address.
struct ClientAddress<'a> {
    address: &'a str,
}

impl<'a> Wanted<ServerClientInfo> for ClientAddress<'a> {
    closed spec fn accepts(&self) -> spec_fn(ServerClientView) -> bool {
        client_at(self.address@)
    }

    fn is_met_by(&self, value: &ServerClientInfo) -> (r: bool) {
        same_text(value.address.as_str(), self.address)
    }
}

/// Remembers a client that was just seen.
pub fn remember_server_client(
    clients: &mut Vec<ServerClientInfo>,
    address: &str,
    headers: &Vec<(String, String)>,
    path: &str,
    now: u64,
)
    ensures
        model::views(final(clients)@) == remembered(
            model::views(old(clients)@),
            seen_client(address@, header_views(headers@), path@, now),
        ),
{
    proof {
        http::lemma_header_names();
    }
    let username = value_or_else(headers, USER_HEADER, ANONYMOUS);
    let client = ServerClientInfo {
        address: address.to_string(),
        username,
        last_path: path.to_string(),
        last_seen_at: now,
        online: true,
    };
    let ghost all = model::views(clients@);
    match position(clients, &ClientAddress { address }) {
        Some(k) => {
            clients.set(k, client);
            assert(model::views(clients@) =~= all.update(k as int, client@));
        },
        None => {
            clients.push(client);
            assert(model::views(clients@) =~= all.push(client@));
        },
    }
}

/// The client was seen since the given time.
pub open spec fn seen_since(cutoff: int) -> spec_fn(ServerClientView) -> bool {
    |c: ServerClientView| c.last_seen_at >= cutoff
}

/// The time that lies `seconds` back, as far back as time goes.
pub open spec fn back(now: u64, seconds: u64) -> int {
    if now < seconds {
        0
    } else {
        now - seconds
    }
}

/// The client with the mark of whether it is online.
pub open spec fn marked(c: ServerClientView, now: u64) -> ServerClientView {
    ServerClientView { online: c.last_seen_at >= back(now, SERVER_CLIENT_ONLINE_SECONDS), ..c }
}

pub open spec fn all_marked(s: Seq<ServerClientView>, now: u64) -> Seq<ServerClientView> {
    Seq::new(s.len(), |i: int| marked(s[i], now))
}

/// The clients that are still remembered.
pub open spec fn still_remembered(s: Seq<ServerClientView>, now: u64) -> Seq<ServerClientView> {
    lists::kept(s, seen_since(back(now, SERVER_CLIENT_KEEP_SECONDS)))
}

/// The clients that are shown: the last seen first, no more than fit.
pub open spec fn shown_clients(s: Seq<ServerClientView>, now: u64) -> Seq<ServerClientView> {
    let all = order::sorted::<ServerClientInfo>(all_marked(still_remembered(s, now), now));
    if all.len() > SHOWN_CLIENTS {
        all.take(SHOWN_CLIENTS as int)
    } else {
        all
    }
}

impl Ranked for ServerClientInfo {
    open spec fn ranks_below(a: ServerClientView, b: ServerClientView) -> bool {
        a.last_seen_at > b.last_seen_at
    }

    proof fn lemma_order(a: ServerClientView, b: ServerClientView, c: ServerClientView) {
    }

    fn below(&self, other: &Self) -> (r: bool) {
        self.last_seen_at > other.last_seen_at
    }
}

/// Forgets the clients that were not seen for long and gives those that are
/// shown.
pub fn recent_server_clients(clients: &mut Vec<ServerClientInfo>, now: u64) -> (r: Vec<
    ServerClientInfo,
>)
    ensures
        model::views(final(clients)@) == still_remembered(model::views(old(clients)@), now),
        model::views(r@) == shown_clients(model::views(old(clients)@), now),
{
    let keep_cutoff: u64 = if now < SERVER_CLIENT_KEEP_SECONDS {
        0
    } else {
        now - SERVER_CLIENT_KEEP_SECONDS
    };
    let online_cutoff: u64 = if now < SERVER_CLIENT_ONLINE_SECONDS {
        0
    } else {
        now - SERVER_CLIENT_ONLINE_SECONDS
    };
    let ghost all = model::views(clients@);
    let ghost p = seen_since(back(now, SERVER_CLIENT_KEEP_SECONDS));
    let mut left: Vec<ServerClientInfo> = Vec::new();
    let mut shown: Vec<ServerClientInfo> = Vec::new();
    let mut i: usize = 0;
    assert(all.take(0) =~= Seq::empty());
    assert(model::views(left@) =~= Seq::<ServerClientView>::empty());
    assert(model::views(shown@) =~= all_marked(lists::kept(all.take(0), p), now));
    while i < clients.len()
        invariant
            i <= clients@.len(),
            all == model::views(clients@),
            p == seen_since(back(now, SERVER_CLIENT_KEEP_SECONDS)),
            keep_cutoff == back(now, SERVER_CLIENT_KEEP_SECONDS),
            online_cutoff == back(now, SERVER_CLIENT_ONLINE_SECONDS),
            model::views(left@) == lists::kept(all.take(i as int), p),
            model::views(shown@) == all_marked(lists::kept(all.take(i as int), p), now),
        decreases clients@.len() - i,
    {
        let ghost before = left@;
        let ghost before_shown = shown@;
        assert(all.take(i + 1).drop_last() =~= all.take(i as int));
        assert(all.take(i + 1).last() == clients@[i as int]@);
        if clients[i].last_seen_at >= keep_cutoff {
            let client = clients[i].clone();
            left.push(client.clone());
            assert(model::views(left@) =~= model::views(before).push(all[i as int]));
            let mut mark = client;
            mark.online = mark.last_seen_at >= online_cutoff;
            shown.push(mark);
            assert(model::views(shown@) =~= model::views(before_shown).push(
                marked(all[i as int], now),
            ));
            assert(all_marked(model::views(left@), now) =~= all_marked(
                model::views(before),
                now,
            ).push(marked(all[i as int], now)));
        }
        i = i + 1;
    }
    assert(all.take(i as int) =~= all);
    *clients = left;
    let mut sorted = sort(shown);
    let n: usize = sorted.len();
    assert(model::views(sorted@).len() == n);
    if n > SHOWN_CLIENTS {
        let ghost whole = sorted@;
        sorted.truncate(SHOWN_CLIENTS);
        assert(model::views(sorted@) =~= model::views(whole).take(SHOWN_CLIENTS as int));
    }
    sorted
}

/// The server that was started.
#[derive(Debug)]
pub struct ServerRuntime {
    pub stopped: bool,
    pub host: String,
    pub port: u16,
}

/// How the server is doing.
pub fn current_server_status(
    runtime: &Option<ServerRuntime>,
    clients: &Vec<ServerClientInfo>,
) -> (r: ServerStatus)
    ensures
        r@ == (match *runtime {
            Some(server) => ServerStatusView {
                running: !server.stopped,
                host: server.host@,
                port: server.port,
                clients: model::views(clients@),
            },
            None => ServerStatusView {
                running: false,
                host: Seq::empty(),
                port: 0,
                clients: model::views(clients@),
            },
        }),
{
    let shown = copy_clients(clients);
    match runtime {
        Some(server) => ServerStatus {
            running: !server.stopped,
            host: server.host.clone(),
            port: server.port,
            clients: shown,
        },
        None => {
            let host = String::new();
            assert(host@ =~= Seq::<char>::empty());
            ServerStatus { running: false, host, port: 0, clients: shown }
        },
    }
}

/// Takes the server away; it is given back, stopped, where there was one.
pub fn stop_server(runtime: &mut Option<ServerRuntime>) -> (r: Option<ServerRuntime>)
    ensures
        *final(runtime) is None,
        match *old(runtime) {
            Some(server) => r matches Some(taken) && taken.stopped && taken.host@ == server.host@
                && taken.port == server.port,
            None => r is None,
        },
{
    match runtime.take() {
        Some(server) => {
            Some(ServerRuntime { stopped: true, host: server.host, port: server.port })
        },
        None => None,
    }
}

// ---------------------------------------------------------------------------
// Laws
// ---------------------------------------------------------------------------

/// Without the server's user name and password nothing is reached but what the
/// server tells of itself, and nobody is remembered who asked for anything
/// else.
pub proof fn law_unauthorized_reaches_nothing(
    request: Seq<char>,
    config: ServerConfigView,
    r: RoutedRequest,
)
    requires
        routed(request, config, r),
        !http::authorized(http::request_headers(request), config),
    ensures
        r.route == Route::ServerInfo || refusal_of(r.route) is Some,
        r.remember ==> r.path@ == SERVER_INFO_PATH@,
{
    reveal_strlit("/api/server-info");
    reveal_strlit("/api/apps/");
    reveal_strlit("/api/apps/upload");
    let words = request_words(request);
    if words.len() >= 2 {
        let path = without_query(words[1]);
        if path == SERVER_INFO_PATH@ {
            if APP_PREFIX@.is_prefix_of(path) {
                assert(APP_PREFIX@ =~= path.subrange(0, APP_PREFIX@.len() as int));
                assert(APP_PREFIX@[5] == path[5]);
            }
            assert(path != UPLOAD_PATH@) by {
                assert(path[5] != UPLOAD_PATH@[5]);
            }
        }
    }
}

/// A server that has neither a password nor the hash of one lets nobody in.
pub proof fn law_no_password_no_entry(
    headers: Seq<(Seq<char>, Seq<char>)>,
    config: ServerConfigView,
)
    requires
        config.password.len() == 0,
        config.password_hash.len() == 0,
    ensures
        !http::authorized(headers, config),
{
}

/// A client that was just seen is remembered as such, once, and everyone else
/// is remembered as before.
pub proof fn law_remembered(clients: Seq<ServerClientView>, client: ServerClientView)
    requires
        addresses_distinct(clients),
    ensures
        addresses_distinct(remembered(clients, client)),
        remembered(clients, client).contains(client),
        forall|c: ServerClientView|
            c.address != client.address ==> #[trigger] remembered(clients, client).contains(c)
                == clients.contains(c),
{
    let p = client_at(client.address);
    lists::lemma_first_from(clients, p, 0);
    let r = remembered(clients, client);
    let place = match lists::first(clients, p) {
        Some(k) => k,
        None => clients.len() as int,
    };
    assert(r[place] == client);
    assert forall|j: int| 0 <= j < clients.len() && j != place implies #[trigger] clients[j].address
        != client.address by {
        match lists::first(clients, p) {
            Some(k) => {
                assert(clients[k].address == client.address);
            },
            None => {
                assert(!p(clients[j]));
            },
        }
    }
    assert forall|i: int, j: int| 0 <= i < j < r.len() implies (#[trigger] r[i]).address != (
    #[trigger] r[j]).address by {
        if i == place {
            assert(r[j] == clients[j]);
        } else if j == place {
            assert(r[i] == clients[i]);
        } else {
            assert(r[i] == clients[i] && r[j] == clients[j]);
        }
    }
    assert forall|c: ServerClientView| c.address != client.address implies #[trigger] r.contains(c)
        == clients.contains(c) by {
        if r.contains(c) {
            let k = choose|k: int| 0 <= k < r.len() && r[k] == c;
            assert(clients[k] == c);
        }
        if clients.contains(c) {
            let k = choose|k: int| 0 <= k < clients.len() && clients[k] == c;
            if k == place {
                assert(p(clients[k]));
            }
            assert(r[k] == c);
        }
    }
}

/// The clients that are shown are no more than fit, were seen no longer ago
/// than clients are remembered, are marked as online exactly where they were
/// seen lately, and stand in the order in which they were seen, the last
/// first.
pub proof fn law_shown_clients(s: Seq<ServerClientView>, now: u64)
    ensures
        shown_clients(s, now).len() <= SHOWN_CLIENTS,
        forall|i: int|
            0 <= i < shown_clients(s, now).len() ==> {
                let c = #[trigger] shown_clients(s, now)[i];
                &&& c.last_seen_at >= back(now, SERVER_CLIENT_KEEP_SECONDS)
                &&& c.online == (c.last_seen_at >= back(now, SERVER_CLIENT_ONLINE_SECONDS))
            },
        forall|i: int, j: int|
            0 <= i < j < shown_clients(s, now).len() ==> (#[trigger] shown_clients(
                s,
                now,
            )[i]).last_seen_at >= (#[trigger] shown_clients(s, now)[j]).last_seen_at,
{
    broadcast use vstd::seq_lib::group_to_multiset_ensures;

    let left = still_remembered(s, now);
    let m = all_marked(left, now);
    let all = order::sorted::<ServerClientInfo>(m);
    order::law_sorted::<ServerClientInfo>(m);
    let r = shown_clients(s, now);
    let p = seen_since(back(now, SERVER_CLIENT_KEEP_SECONDS));
    assert forall|i: int| 0 <= i < r.len() implies {
        let c = #[trigger] r[i];
        &&& c.last_seen_at >= back(now, SERVER_CLIENT_KEEP_SECONDS)
        &&& c.online == (c.last_seen_at >= back(now, SERVER_CLIENT_ONLINE_SECONDS))
    } by {
        assert(r[i] == all[i]);
        assert(all.to_multiset().count(all[i]) > 0) by {
            assert(all.contains(all[i]));
        }
        assert(m.contains(all[i]));
        let k = choose|k: int| 0 <= k < m.len() && m[k] == all[i];
        assert(left.contains(left[k]));
        lists::law_kept(s, p, left[k]);
    }
    assert forall|i: int, j: int| 0 <= i < j < r.len() implies (#[trigger] r[i]).last_seen_at >= (
    #[trigger] r[j]).last_seen_at by {
        assert(r[i] == all[i] && r[j] == all[j]);
        assert(!<ServerClientInfo as Ranked>::ranks_below(all[j], all[i]));
    }
}

/// What stands behind a question mark does not belong to the path.
pub proof fn law_without_query(path: Seq<char>, query: Seq<char>)
    requires
        !path.contains('?'),
    ensures
        without_query(path + seq!['?'] + query) == path,
        without_query(path) == path,
{
    text::law_split_at_char(path, '?', query);
}

/// Where a request leads. Packages are sent to `/api/apps/upload`; anything else
/// is only asked for, by those who are let in.
pub proof fn law_route_of(method: Seq<char>, path: Seq<char>, allowed: bool, id: Seq<char>)
    ensures
        route_of("POST"@, "/api/apps/upload"@, true) == Route::Upload,
        route_of("POST"@, "/api/apps/upload"@, false) == Route::Unauthorized,
        method != "GET"@ && (method != "POST"@ || path != "/api/apps/upload"@) ==> route_of(
            method,
            path,
            allowed,
        ) == Route::MethodNotAllowed,
        route_of("GET"@, path, false) == Route::Unauthorized,
        route_of("GET"@, "/api/server-info"@, true) == Route::ServerInfo,
        route_of("GET"@, "/api/auth/test"@, true) == Route::AuthTest,
        route_of("GET"@, "/api/categories"@, true) == Route::Categories,
        route_of("GET"@, "/api/apps"@, true) == Route::Apps,
        route_of("GET"@, "/api/apps/"@ + id + "/download"@, true) == Route::Download,
        route_of("GET"@, "/api/apps/"@ + id + "/progress"@, true) == Route::Progress,
        path != "/api/server-info"@ && path != "/api/auth/test"@ && path != "/api/categories"@
            && path != "/api/apps"@ && !("/api/apps/"@.is_prefix_of(path) && (
        "/download"@.is_suffix_of(path) || "/progress"@.is_suffix_of(path))) ==> route_of(
            "GET"@,
            path,
            true,
        ) == Route::NotFound,
{
    reveal_strlit("GET");
    reveal_strlit("POST");
    reveal_strlit("/api/server-info");
    reveal_strlit("/api/auth/test");
    reveal_strlit("/api/categories");
    reveal_strlit("/api/apps");
    reveal_strlit("/api/apps/");
    reveal_strlit("/download");
    reveal_strlit("/progress");
    assert("GET"@.len() == 3 && "POST"@.len() == 4);
    let prefix = "/api/apps/"@;
    assert(prefix[9] == '/' && prefix[5] == 'a' && prefix[6] == 'p');
    assert("/api/server-info"@[5] == 's');
    assert("/api/auth/test"@[6] == 'u');
    assert("/api/categories"@[5] == 'c');
    assert("/api/apps"@.len() == 9);
    assert(!prefix.is_prefix_of("/api/server-info"@)) by {
        assert("/api/server-info"@.subrange(0, 10)[5] != prefix[5]);
    }
    assert(!prefix.is_prefix_of("/api/auth/test"@)) by {
        assert("/api/auth/test"@.subrange(0, 10)[6] != prefix[6]);
    }
    assert(!prefix.is_prefix_of("/api/categories"@)) by {
        assert("/api/categories"@.subrange(0, 10)[5] != prefix[5]);
    }
    let d = prefix + id + "/download"@;
    let p = prefix + id + "/progress"@;
    assert(d.subrange(0, 10) =~= prefix);
    assert(p.subrange(0, 10) =~= prefix);
    assert(d.subrange(d.len() - 9, d.len() as int) =~= "/download"@);
    assert(p.subrange(p.len() - 9, p.len() as int) =~= "/progress"@);
    assert(!"/download"@.is_suffix_of(p)) by {
        assert(p.subrange(p.len() - 9, p.len() as int)[1] == 'p');
        assert("/download"@[1] == 'd');
    }
    assert("/api/auth/test"@.len() == 14 && "/api/categories"@.len() == 15);
    assert("/api/server-info"@.len() == 16);
}

/// A request is read from its first line and its headers: a line of fewer than
/// two words is a bad request, and else the first word is the method and the
/// second the path. Everybody may ask for the server's information; anything else
/// needs the user's name and the password. Whoever may ask is remembered, but for
/// asking how far a transfer is.
pub proof fn law_routed(request: Seq<char>, config: ServerConfigView, r: RoutedRequest)
    requires
        routed(request, config, r),
    ensures
        ({
            let lines = text::lines(request);
            let words = if lines.len() > 0 {
                text::words(lines[0])
            } else {
                Seq::empty()
            };
            &&& words.len() < 2 ==> r.route == Route::BadRequest && !r.remember
            &&& words.len() >= 2 ==> {
                let allowed = r.path@ == "/api/server-info"@ || http::authorized(
                    header_views(r.headers@),
                    config,
                );
                &&& r.path@ == without_query(words[1])
                &&& header_views(r.headers@) == http::request_headers(request)
                &&& r.route == route_of(words[0], r.path@, allowed)
                &&& r.remember == (allowed && !"/progress"@.is_suffix_of(r.path@))
            }
        }),
{
}

/// A refused request is answered by the status that says why, and by no other.
pub proof fn law_refusals(route: Route)
    ensures
        route == Route::BadRequest ==> refusal_of(route) == Some(
            (400u16, "{\"error\":\"bad request\"}"@),
        ),
        route == Route::Unauthorized ==> refusal_of(route) == Some(
            (401u16, "{\"error\":\"unauthorized\"}"@),
        ),
        route == Route::MethodNotAllowed ==> refusal_of(route) == Some(
            (405u16, "{\"error\":\"method not allowed\"}"@),
        ),
        route == Route::NotFound ==> refusal_of(route) == Some(
            (404u16, "{\"error\":\"not found\"}"@),
        ),
        route == Route::Upload || route == Route::Download || route == Route::Progress || route
            == Route::ServerInfo || route == Route::AuthTest || route == Route::Categories || route
            == Route::Apps ==> refusal_of(route) is None,
{
}

/// A package that is sent: it is refused where the server does not take any,
/// where no length is promised, and where the request has no end of its headers;
/// else it is taken under the name, for the category and in the length that the
/// headers tell, from behind the headers on.
pub proof fn law_upload_planned(
    headers: Seq<(Seq<char>, Seq<char>)>,
    received: Seq<u8>,
    allow: bool,
    r: Result<UploadPlan, Answer>,
)
    requires
        upload_planned(headers, received, allow, r),
    ensures
        !allow ==> (r matches Err(a) && a.status == 403),
        allow && promised_length(headers) is None ==> (r matches Err(a) && a.status == 400),
        r is Ok == (allow && promised_length(headers) is Some && exists|x: Seq<u8>, y: Seq<u8>|
            received == #[trigger] (x + wire::head_end() + y)),
        r matches Ok(plan) ==> {
            &&& promised_length(headers) == Some(plan.content_length as nat)
            &&& http::value_of(headers, "x-appmanager-filename"@) matches Some(name)
                ==> plan.file_name@ == name
            &&& http::value_of(headers, "x-appmanager-filename"@) is None ==> plan.file_name@
                == "uploaded.zip"@
            &&& http::value_of(headers, "x-appmanager-category"@) matches Some(name)
                ==> plan.category_name@ == name
            &&& http::value_of(headers, "x-appmanager-category"@) is None ==> plan.category_name@
                == "未审核软件"@
            &&& plan.app_id@ == "server-upload-"@ + fnv::id_of(plan.file_name@)
            &&& 4 <= plan.body_start <= received.len()
            &&& received.subrange(plan.body_start - 4, plan.body_start as int) == wire::head_end()
            &&& forall|x: Seq<u8>, y: Seq<u8>|
                received == #[trigger] (x + wire::head_end() + y) ==> plan.body_start <= x.len() + 4
        },
{
    let mark = wire::head_end();
    text::lemma_find_from(received, mark, 0);
    match text::find(received, mark) {
        Some(i) => {
            assert(received.subrange(i, i + 4) == mark);
            assert(received =~= received.take(i) + received.subrange(i, i + 4) + received.skip(
                i + 4,
            ));
            assert(received == received.take(i) + wire::head_end() + received.skip(i + 4));
            assert forall|x: Seq<u8>, y: Seq<u8>|
                received == #[trigger] (x + wire::head_end() + y) implies i <= x.len() by {
                let n = x.len() as int;
                assert((x + mark + y).subrange(n, n + 4) =~= mark);
                assert(text::matches_at(received, mark, n));
            }
        },
        None => {
            assert forall|x: Seq<u8>, y: Seq<u8>|
                received != #[trigger] (x + wire::head_end() + y) by {
                let t = x + wire::head_end() + y;
                let n = x.len() as int;
                assert(t.subrange(n, n + 4) =~= mark);
                assert(text::matches_at(t, mark, n));
                assert(!text::matches_at(received, mark, n));
            }
        },
    }
}

/// The promised length of a package is the number in `Content-Length`, where it
/// is not zero.
pub proof fn law_promised_length(headers: Seq<(Seq<char>, Seq<char>)>, n: nat)
    requires
        0 < n <= usize::MAX,
    ensures
        http::value_of(headers, "content-length"@) == Some(numbers::decimal(n)) ==> promised_length(
            headers,
        ) == Some(n),
        http::value_of(headers, "content-length"@) == Some(numbers::decimal(0)) ==> promised_length(
            headers,
        ) is None,
        http::value_of(headers, "content-length"@) is None ==> promised_length(headers) is None,
{
    numbers::law_decimal_read_back(n, usize::MAX as nat);
    numbers::law_decimal_read_back(0, usize::MAX as nat);
}

/// A client that was seen is known by its address, the name that it gave, the
/// last path and the time.
pub proof fn law_seen_client(
    address: Seq<char>,
    headers: Seq<(Seq<char>, Seq<char>)>,
    path: Seq<char>,
    now: u64,
)
    ensures
        ({
            let c = seen_client(address, headers, path, now);
            &&& c.address == address
            &&& c.last_path == path
            &&& c.last_seen_at == now
            &&& c.online
            &&& http::value_of(headers, "x-appmanager-username"@) matches Some(name) ==> c.username
                == name
            &&& http::value_of(headers, "x-appmanager-username"@) is None ==> c.username
                == "anonymous"@
        }),
{
}

/// Clients are remembered for five minutes and are online for half a minute after
/// they were seen.
pub proof fn law_client_times(s: Seq<ServerClientView>, c: ServerClientView, now: u64)
    ensures
        still_remembered(s, now).contains(c) == (s.contains(c) && c.last_seen_at + 300 >= now),
        marked(c, now).online == (c.last_seen_at + 30 >= now),
        marked(c, now) == (ServerClientView { online: marked(c, now).online, ..c }),
{
    lists::law_kept(s, seen_since(back(now, SERVER_CLIENT_KEEP_SECONDS)), c);
}

/// A client that is remembered is shown, unless twelve others are that were seen
/// no earlier.
pub proof fn law_client_is_shown(s: Seq<ServerClientView>, c: ServerClientView, now: u64)
    requires
        s.contains(c),
        c.last_seen_at + 300 >= now,
    ensures
        ({
            let r = shown_clients(s, now);
            r.contains(marked(c, now)) || (r.len() == 12 && forall|i: int|
                0 <= i < r.len() ==> (#[trigger] r[i]).last_seen_at >= c.last_seen_at)
        }),
{
    broadcast use vstd::seq_lib::group_to_multiset_ensures;

    let left = still_remembered(s, now);
    let m = all_marked(left, now);
    let all = order::sorted::<ServerClientInfo>(m);
    order::law_sorted::<ServerClientInfo>(m);
    law_client_times(s, c, now);
    let k = choose|k: int| 0 <= k < left.len() && left[k] == c;
    assert(m[k] == marked(c, now));
    assert(m.contains(marked(c, now)));
    assert(m.to_multiset().count(marked(c, now)) > 0);
    assert(all.contains(marked(c, now)));
    let j = choose|j: int| 0 <= j < all.len() && all[j] == marked(c, now);
    let r = shown_clients(s, now);
    if j < r.len() {
        assert(r[j] == all[j]);
    } else {
        assert forall|i: int| 0 <= i < r.len() implies (#[trigger] r[i]).last_seen_at
            >= c.last_seen_at by {
            assert(r[i] == all[i]);
            assert(!<ServerClientInfo as Ranked>::ranks_below(all[j], all[i]));
        }
    }
}

/// Prefixes and suffixes are taken off as often as they stand there, and nothing
/// else is.
pub proof fn law_without_affixes(s: Seq<char>, pat: Seq<char>)
    requires
        pat.len() > 0,
    ensures
        without_prefixes(pat + s, pat) == without_prefixes(s, pat),
        !pat.is_prefix_of(s) ==> without_prefixes(s, pat) == s,
        without_suffixes(s + pat, pat) == without_suffixes(s, pat),
        !pat.is_suffix_of(s) ==> without_suffixes(s, pat) == s,
{
    let n = pat.len() as int;
    let front = pat + s;
    assert(front.subrange(0, n) =~= pat);
    assert(front.skip(n) =~= s);
    let back = s + pat;
    assert(back.subrange(back.len() - n, back.len() as int) =~= pat);
    assert(back.take(back.len() - n) =~= s);
}

/// The identifier in a path stands between the prefix and the suffix, without the
/// slashes around it.
pub proof fn law_id_in_path(path: Seq<char>, suffix: Seq<char>)
    ensures
        ({
            let inner = without_suffixes(without_prefixes(path, "/api/apps/"@), suffix);
            id_in_path(path, suffix) == without_suffixes(
                without_prefixes(inner, seq!['/']),
                seq!['/'],
            )
        }),
{
}

/// Only clients that are remembered are shown, each as it was seen and with its
/// mark, and as many as there are, up to twelve.
pub proof fn law_shown_clients_are_known(s: Seq<ServerClientView>, now: u64, i: int)
    requires
        0 <= i < shown_clients(s, now).len(),
    ensures
        exists|k: int|
            0 <= k < s.len() && (#[trigger] s[k]).last_seen_at + 300 >= now && shown_clients(
                s,
                now,
            )[i] == marked(s[k], now),
        shown_clients(s, now).len() == 12 || shown_clients(s, now).len() == still_remembered(
            s,
            now,
        ).len(),
{
    broadcast use vstd::seq_lib::group_to_multiset_ensures;

    let left = still_remembered(s, now);
    let m = all_marked(left, now);
    let all = order::sorted::<ServerClientInfo>(m);
    order::law_sorted::<ServerClientInfo>(m);
    let r = shown_clients(s, now);
    assert(r[i] == all[i]);
    assert(all.contains(all[i]));
    assert(all.to_multiset().count(all[i]) > 0);
    assert(m.contains(all[i]));
    let j = choose|j: int| 0 <= j < m.len() && m[j] == all[i];
    assert(left.contains(left[j]));
    law_client_times(s, left[j], now);
    let k = choose|k: int| 0 <= k < s.len() && s[k] == left[j];
    assert(s[k].last_seen_at + 300 >= now);
}

/// A client that is seen again keeps its place in the list, and a new one comes
/// last; the others stay as they are.
pub proof fn law_remembered_in_place(
    clients: Seq<ServerClientView>,
    client: ServerClientView,
    k: int,
)
    ensures
        0 <= k < clients.len() && clients[k].address == client.address && (forall|j: int|
            0 <= j < k ==> (#[trigger] clients[j]).address != client.address) ==> {
            let r = remembered(clients, client);
            &&& r.len() == clients.len()
            &&& r[k] == client
            &&& forall|j: int|
                0 <= j < clients.len() && j != k ==> #[trigger] r[j] == clients[j]
        },
        (forall|j: int|
            0 <= j < clients.len() ==> (#[trigger] clients[j]).address != client.address)
            ==> remembered(clients, client) == clients.push(client),
{
    let p = client_at(client.address);
    lists::law_first(clients, p);
    if 0 <= k < clients.len() && clients[k].address == client.address && (forall|j: int|
        0 <= j < k ==> (#[trigger] clients[j]).address != client.address) {
        assert(forall|j: int| 0 <= j < k ==> !p(#[trigger] clients[j]));
        lists::lemma_first_is(clients, p, k);
    }
    if let Some(i) = lists::first(clients, p) {
        assert(p(clients[i]));
    }
}

/// A length that cannot be read promises nothing.
pub proof fn law_unreadable_length(headers: Seq<(Seq<char>, Seq<char>)>, v: Seq<char>)
    requires
        http::value_of(headers, "content-length"@) == Some(v),
    ensures
        numbers::parsed(v, u64::MAX as nat) is None ==> http::declared_length(headers) == 0,
        numbers::parsed(v, usize::MAX as nat) is None ==> promised_length(headers) is None,
        promised_length(headers) is Some ==> promised_length(headers) == numbers::parsed(
            v,
            usize::MAX as nat,
        ),
        numbers::parsed(v, u64::MAX as nat) matches Some(n) ==> http::declared_length(headers) == n,
{
}

} // verus!
