//! What the client asks of a server and what it makes of the answers.

use vstd::prelude::*;
use crate::http;
use crate::http::{
    check_client, get_request, header_value, header_views, upload_request, ResponseHead,
    CATEGORY_HEADER, FILE_HEADER,
};
use crate::json;
use crate::json::{flag_field, response_error_message, text_field};
use crate::model::{
    ClientConfig, ClientConfigView, ClientConnectionStatus, ConnectionView, HttpResponse,
    Settings,
};
use crate::numbers;
use crate::numbers::push_decimal;
use crate::settings;
use crate::settings::{client_address, MODE_LOCAL, MODE_SERVER};
use crate::text;
use crate::text::{is_blank, push_text, same_text, trim};
use crate::wire;

verus! {

/// Shown before a connection is tried.
pub const NOT_CHECKED: &'static str = "未检测";

/// Shown where the client lacks what it needs to connect.
pub const NOT_CONFIGURED: &'static str = "请先填写服务端地址、用户名和密码";

/// Shown where the server answers.
pub const CONNECTION_FINE: &'static str = "连接正常";

/// Shown where the server refuses the credentials.
pub const AUTH_FAILED: &'static str = "认证失败，请检查用户名和密码";

/// Shown, before the status, where the server answers otherwise.
pub const CONNECTION_ODD: &'static str = "连接异常，HTTP 状态：";

/// Shown in server mode.
pub const INACTIVE_SERVER: &'static str = "当前为服务端模式，客户端连接功能未启用";

/// Shown in local mode.
pub const INACTIVE_LOCAL: &'static str = "当前为本地模式，远程连接功能未启用";

/// Shown in any other mode.
pub const INACTIVE: &'static str = "客户端连接功能未启用";

/// Shown where a try of the connection went well.
pub const CONNECTED: &'static str = "连接成功";

/// Shown, before the status, where a try of the connection did not.
pub const CONNECT_FAILED: &'static str = "连接失败，HTTP 状态：";

/// Shown, before the status, where the server's applications could not be had.
pub const LIST_FAILED: &'static str = "获取服务端软件列表失败，HTTP 状态：";

/// Shown, before the status and the problem, where a download failed.
pub const DOWNLOAD_FAILED: &'static str = "下载失败，HTTP 状态：";

/// Shown where an upload is done.
pub const UPLOADED: &'static str = "上传完成，已进入服务端未审核软件";

/// Shown, before the status and the problem, where an upload failed.
pub const UPLOAD_FAILED: &'static str = "上传失败，HTTP 状态：";

/// The category of a download that names none.
pub const FROM_SERVER: &'static str = "来自服务端";

/// What the name of a download ends with that has no name.
pub const UNNAMED_SUFFIX: &'static str = ".bin";

/// How a download is shown whose application has no name.
pub const REMOTE_APP: &'static str = "远程软件";

/// How an upload is shown whose application has no name.
pub const LOCAL_APP: &'static str = "本地软件";

/// How long a try to connect may take, in milliseconds.
pub const CLIENT_STATUS_CONNECT_TIMEOUT_MS: u64 = 1200;

/// How long an exchange on a try may take, in milliseconds.
pub const CLIENT_STATUS_IO_TIMEOUT_MS: u64 = 1500;

// ---------------------------------------------------------------------------
// Requests
// ---------------------------------------------------------------------------

/// A request that is to be sent, and where to. Without a limit it may take as
/// long as it takes.
#[derive(Debug)]
pub struct OutgoingRequest {
    pub address: String,
    pub request: String,
    pub connect_timeout_ms: Option<u64>,
    pub io_timeout_ms: Option<u64>,
}

/// The request asks for a path, in the client's name.
pub open spec fn asks_for(r: OutgoingRequest, config: ClientConfigView, path: Seq<char>) -> bool {
    r.address@ == settings::address(text::trimmed(config.host), config.port) && r.request@
        == wire::head(http::get_head(config, path))
}

/// The reason why the client cannot ask.
pub open spec fn client_problem(config: ClientConfigView) -> Seq<char> {
    if text::trimmed(config.host).len() == 0 {
        http::NO_HOST@
    } else {
        http::NO_CREDENTIALS@
    }
}

/// A request for a path.
pub fn client_get(config: &ClientConfig, path: &str) -> (r: Result<OutgoingRequest, String>)
    ensures
        match r {
            Ok(out) => http::is_configured(config@) && asks_for(out, config@, path@)
                && out.connect_timeout_ms is None && out.io_timeout_ms is None,
            Err(e) => !http::is_configured(config@) && e@ == client_problem(config@),
        },
{
    match check_client(config) {
        Ok(_) => Ok(
            OutgoingRequest {
                address: client_address(config),
                request: get_request(config, path),
                connect_timeout_ms: None,
                io_timeout_ms: None,
            },
        ),
        Err(e) => Err(e),
    }
}

/// A request for a path that is not to take long.
pub fn client_get_status(config: &ClientConfig, path: &str) -> (r: Result<OutgoingRequest, String>)
    ensures
        match r {
            Ok(out) => http::is_configured(config@) && asks_for(out, config@, path@)
                && out.connect_timeout_ms == Some(CLIENT_STATUS_CONNECT_TIMEOUT_MS)
                && out.io_timeout_ms == Some(CLIENT_STATUS_IO_TIMEOUT_MS),
            Err(e) => !http::is_configured(config@) && e@ == client_problem(config@),
        },
{
    match client_get(config, path) {
        Ok(mut out) => {
            out.connect_timeout_ms = Some(CLIENT_STATUS_CONNECT_TIMEOUT_MS);
            out.io_timeout_ms = Some(CLIENT_STATUS_IO_TIMEOUT_MS);
            Ok(out)
        },
        Err(e) => Err(e),
    }
}

/// The head of a request that sends a package.
pub fn client_upload_request(
    config: &ClientConfig,
    file_name: &str,
    category: &str,
    total: u64,
) -> (r: Result<OutgoingRequest, String>)
    ensures
        match r {
            Ok(out) => {
                &&& http::is_configured(config@)
                &&& out.address@ == settings::address(text::trimmed(config@.host), config@.port)
                &&& out.request@ == wire::head(
                    http::upload_head(config@, file_name@, category@, total as nat),
                )
                &&& out.connect_timeout_ms is None
                &&& out.io_timeout_ms is None
            },
            Err(e) => !http::is_configured(config@) && e@ == client_problem(config@),
        },
{
    match check_client(config) {
        Ok(_) => Ok(
            OutgoingRequest {
                address: client_address(config),
                request: upload_request(config, file_name, category, total),
                connect_timeout_ms: None,
                io_timeout_ms: None,
            },
        ),
        Err(e) => Err(e),
    }
}

// ---------------------------------------------------------------------------
// The state of the connection
// ---------------------------------------------------------------------------

/// What is known of the connection before it is tried.
pub open spec fn untried(config: ClientConfigView, now: u64) -> ConnectionView {
    ConnectionView {
        configured: http::is_configured(config),
        online: false,
        host: text::trimmed(config.host),
        port: config.port,
        username: text::trimmed(config.username),
        message: if http::is_configured(config) {
            NOT_CHECKED@
        } else {
            NOT_CONFIGURED@
        },
        server_name: None,
        server_mode: None,
        allow_downloads: None,
        checked_at: now,
    }
}

/// What the server tells of itself.
#[derive(Debug)]
pub struct ServerInfo {
    pub name: Option<String>,
    pub mode: Option<String>,
    pub allow_downloads: Option<bool>,
}

#[verifier::ext_equal]
pub ghost struct ServerInfoView {
    pub name: Option<Seq<char>>,
    pub mode: Option<Seq<char>>,
    pub allow_downloads: Option<bool>,
}

impl View for ServerInfo {
    type V = ServerInfoView;

    open spec fn view(&self) -> ServerInfoView {
        ServerInfoView {
            name: text::opt_text(self.name),
            mode: text::opt_text(self.mode),
            allow_downloads: self.allow_downloads,
        }
    }
}

/// What the body of an answer tells of the server.
pub open spec fn info_in(body: Seq<u8>) -> ServerInfoView {
    ServerInfoView {
        name: json::text_at(body, "name"@),
        mode: json::text_at(body, "mode"@),
        allow_downloads: json::flag_at(body, "allowDownloads"@),
    }
}

/// What the body of an answer tells of the server.
pub fn read_server_info(body: &[u8]) -> (r: ServerInfo)
    ensures
        r@ == info_in(body@),
{
    ServerInfo {
        name: text_field(body, "name"),
        mode: text_field(body, "mode"),
        allow_downloads: flag_field(body, "allowDownloads"),
    }
}

/// What a status of the server's answer means for the connection.
pub open spec fn status_message(status: u16) -> Seq<char> {
    if status == 200 {
        CONNECTION_FINE@
    } else if status == 401 {
        AUTH_FAILED@
    } else {
        CONNECTION_ODD@ + numbers::decimal(status as nat)
    }
}

/// What is known of the connection after it was tried. The answer of the
/// server tells whether it is online; what it tells of itself is taken over
/// where it is.
pub open spec fn tried(
    config: ClientConfigView,
    answer: Result<u16, Seq<char>>,
    info: Option<ServerInfoView>,
    now: u64,
) -> ConnectionView {
    let before = untried(config, now);
    if !http::is_configured(config) {
        before
    } else {
        match answer {
            Err(e) => ConnectionView { message: e, ..before },
            Ok(status) => if status == 200 {
                ConnectionView {
                    online: true,
                    message: CONNECTION_FINE@,
                    server_name: match info {
                        Some(i) => i.name,
                        None => None,
                    },
                    server_mode: match info {
                        Some(i) => i.mode,
                        None => None,
                    },
                    allow_downloads: match info {
                        Some(i) => i.allow_downloads,
                        None => None,
                    },
                    ..before
                }
            } else {
                ConnectionView { message: status_message(status), ..before }
            },
        }
    }
}

fn make_status_message(before: &str, status: u16) -> (r: String)
    ensures
        r@ == before@ + numbers::decimal(status as nat),
{
    let mut message = before.to_string();
    push_decimal(&mut message, status as u64);
    message
}

fn untried_status(config: &ClientConfig, now: u64) -> (r: ClientConnectionStatus)
    ensures
        r@ == untried(config@, now),
{
    let configured = !is_blank(config.host.as_str()) && !is_blank(config.username.as_str())
        && !config.password.as_str().is_empty();
    ClientConnectionStatus {
        configured,
        online: false,
        host: trim(config.host.as_str()),
        port: config.port,
        username: trim(config.username.as_str()),
        message: if configured {
            NOT_CHECKED.to_string()
        } else {
            NOT_CONFIGURED.to_string()
        },
        server_name: None,
        server_mode: None,
        allow_downloads: None,
        checked_at: now,
    }
}

/// An answer's status, or the reason why there was none.
pub open spec fn answer_status(answer: Result<HttpResponse, String>) -> Result<u16, Seq<char>> {
    match answer {
        Ok(response) => Ok(response.status),
        Err(e) => Err(e@),
    }
}

/// The views of what the server tells of itself.
pub open spec fn info_view(info: Option<ServerInfo>) -> Option<ServerInfoView> {
    match info {
        Some(i) => Some(i@),
        None => None,
    }
}

/// What is known of the connection after it was tried with what the server
/// told of itself.
pub fn judge_connection(
    config: &ClientConfig,
    answer: &Result<HttpResponse, String>,
    info: Option<ServerInfo>,
    now: u64,
) -> (r: ClientConnectionStatus)
    ensures
        r@ == tried(config@, answer_status(*answer), info_view(info), now),
{
    let mut status = untried_status(config, now);
    if !status.configured {
        return status;
    }
    match answer {
        Ok(response) => {
            if response.status == 200 {
                status.online = true;
                status.message = CONNECTION_FINE.to_string();
                match info {
                    Some(i) => {
                        status.server_name = i.name;
                        status.server_mode = i.mode;
                        status.allow_downloads = i.allow_downloads;
                    },
                    None => {},
                }
            } else if response.status == 401 {
                status.message = AUTH_FAILED.to_string();
            } else {
                status.message = make_status_message(CONNECTION_ODD, response.status);
            }
        },
        Err(e) => {
            status.message = e.clone();
        },
    }
    status
}

/// What is known of the connection after it was tried. The server is asked
/// about itself only where it answered well.
pub fn client_connection_status(
    config: &ClientConfig,
    answer: &Result<HttpResponse, String>,
    info: &Option<HttpResponse>,
    now: u64,
) -> (r: ClientConnectionStatus)
    ensures
        r@ == tried(
            config@,
            answer_status(*answer),
            match *info {
                Some(response) => Some(info_in(response@.body)),
                None => None,
            },
            now,
        ),
{
    let told = match info {
        Some(response) => Some(read_server_info(&response.body)),
        None => None,
    };
    judge_connection(config, answer, told, now)
}

/// Whether the server is asked about itself.
pub fn wants_server_info(answer: &Result<HttpResponse, String>) -> (r: bool)
    ensures
        r == (answer_status(*answer) == Ok::<u16, Seq<char>>(200u16)),
{
    match answer {
        Ok(response) => response.status == 200,
        Err(_) => false,
    }
}

/// What is known of the connection where there is none to be.
pub fn inactive_client_connection_status(settings: &Settings, now: u64) -> (r:
    ClientConnectionStatus)
    ensures
        r@ == (ConnectionView {
            configured: false,
            online: false,
            host: text::trimmed(settings@.client.host),
            port: settings@.client.port,
            username: text::trimmed(settings@.client.username),
            message: if settings@.run_mode == MODE_SERVER@ {
                INACTIVE_SERVER@
            } else if settings@.run_mode == MODE_LOCAL@ {
                INACTIVE_LOCAL@
            } else {
                INACTIVE@
            },
            server_name: None,
            server_mode: None,
            allow_downloads: None,
            checked_at: now,
        }),
{
    let message = if same_text(settings.run_mode.as_str(), MODE_SERVER) {
        INACTIVE_SERVER.to_string()
    } else if same_text(settings.run_mode.as_str(), MODE_LOCAL) {
        INACTIVE_LOCAL.to_string()
    } else {
        INACTIVE.to_string()
    };
    ClientConnectionStatus {
        configured: false,
        online: false,
        host: trim(settings.client.host.as_str()),
        port: settings.client.port,
        username: trim(settings.client.username.as_str()),
        message,
        server_name: None,
        server_mode: None,
        allow_downloads: None,
        checked_at: now,
    }
}

// ---------------------------------------------------------------------------
// Outcomes
// ---------------------------------------------------------------------------

/// What a try of the connection comes to.
pub fn test_outcome(status: u16) -> (r: Result<String, String>)
    ensures
        if status == 200 {
            r matches Ok(m) && m@ == CONNECTED@
        } else if status == 401 {
            r matches Err(e) && e@ == AUTH_FAILED@
        } else {
            r matches Err(e) && e@ == CONNECT_FAILED@ + numbers::decimal(status as nat)
        },
{
    if status == 200 {
        Ok(CONNECTED.to_string())
    } else if status == 401 {
        Err(AUTH_FAILED.to_string())
    } else {
        Err(make_status_message(CONNECT_FAILED, status))
    }
}

/// Refuses an answer that does not hold the server's applications.
pub fn check_remote_apps(status: u16) -> (r: Result<(), String>)
    ensures
        match r {
            Ok(_) => status == 200,
            Err(e) => status != 200 && e@ == LIST_FAILED@ + numbers::decimal(status as nat),
        },
{
    if status != 200 {
        return Err(make_status_message(LIST_FAILED, status));
    }
    Ok(())
}

/// Refuses an answer that does not hold a package; the problem that its body
/// tells of is shown.
pub fn check_download(status: u16, body: &[u8]) -> (r: Result<(), String>)
    ensures
        match r {
            Ok(_) => status == 200,
            Err(e) => status != 200 && e@ == DOWNLOAD_FAILED@ + numbers::decimal(status as nat)
                + json::problem_in(body@),
        },
{
    if status != 200 {
        let mut message = make_status_message(DOWNLOAD_FAILED, status);
        let problem = response_error_message(body);
        push_text(&mut message, problem.as_str());
        return Err(message);
    }
    Ok(())
}

/// What an upload comes to.
pub fn upload_outcome(response: &HttpResponse) -> (r: Result<String, String>)
    ensures
        if response.status == 200 {
            r matches Ok(m) && m@ == UPLOADED@
        } else if response.status == 401 {
            r matches Err(e) && e@ == AUTH_FAILED@
        } else {
            r matches Err(e) && e@ == UPLOAD_FAILED@ + numbers::decimal(response.status as nat)
                + json::problem_in(response@.body)
        },
{
    if response.status == 200 {
        Ok(UPLOADED.to_string())
    } else if response.status == 401 {
        Err(AUTH_FAILED.to_string())
    } else {
        let mut message = make_status_message(UPLOAD_FAILED, response.status);
        let problem = response_error_message(&response.body);
        push_text(&mut message, problem.as_str());
        Err(message)
    }
}

/// The name and the category of a download.
pub fn download_names(head: &ResponseHead, app_id: &str) -> (r: (String, String))
    ensures
        r.0@ == (match http::value_of(header_views(head.headers@), FILE_HEADER@) {
            Some(name) => name,
            None => app_id@ + UNNAMED_SUFFIX@,
        }),
        r.1@ == (match http::value_of(header_views(head.headers@), CATEGORY_HEADER@) {
            Some(name) => name,
            None => FROM_SERVER@,
        }),
{
    proof {
        http::lemma_header_names();
    }
    let file_name = match header_value(&head.headers, FILE_HEADER) {
        Some(name) => name,
        None => {
            let mut name = app_id.to_string();
            push_text(&mut name, UNNAMED_SUFFIX);
            name
        },
    };
    let category = match header_value(&head.headers, CATEGORY_HEADER) {
        Some(name) => name,
        None => FROM_SERVER.to_string(),
    };
    (file_name, category)
}

/// How a transfer is shown.
pub fn display_name(app_name: &Option<String>, other: &str) -> (r: String)
    ensures
        r@ == (match text::opt_text(*app_name) {
            Some(name) => name,
            None => other@,
        }),
{
    match app_name {
        Some(name) => name.clone(),
        None => other.to_string(),
    }
}

// ---------------------------------------------------------------------------
// Law
// ---------------------------------------------------------------------------

/// A connection counts as online exactly where the client is configured and
/// the server took its credentials; of a server that is not online nothing is
/// told.
pub proof fn law_online(
    config: ClientConfigView,
    answer: Result<u16, Seq<char>>,
    info: Option<ServerInfoView>,
    now: u64,
)
    ensures
        tried(config, answer, info, now).online == (http::is_configured(config) && answer == Ok::<
            u16,
            Seq<char>,
        >(200u16)),
        !tried(config, answer, info, now).online ==> {
            let t = tried(config, answer, info, now);
            t.server_name is None && t.server_mode is None && t.allow_downloads is None
        },
{
}

/// What is shown of a connection: the server's address and the user's name as
/// they are set, the time, and, where the server answered with success, what it
/// tells of itself. A connection that could not be made shows why.
pub proof fn law_tried(
    config: ClientConfigView,
    answer: Result<u16, Seq<char>>,
    info: Option<ServerInfoView>,
    now: u64,
)
    ensures
        ({
            let r = tried(config, answer, info, now);
            &&& r.configured == http::is_configured(config)
            &&& r.host == text::trimmed(config.host)
            &&& r.port == config.port
            &&& r.username == text::trimmed(config.username)
            &&& r.checked_at == now
            &&& !r.online ==> r.server_name is None && r.server_mode is None
                && r.allow_downloads is None
            &&& r.online ==> r.message == "连接正常"@
            &&& r.online && info is None ==> r.server_name is None && r.server_mode is None
                && r.allow_downloads is None
            &&& r.online ==> (info matches Some(i) ==> r.server_name == i.name && r.server_mode
                == i.mode && r.allow_downloads == i.allow_downloads)
            &&& !r.configured ==> !r.online && r.message == "请先填写服务端地址、用户名和密码"@
            &&& r.configured ==> (answer matches Err(e) ==> r.message == e)
            &&& r.configured && answer == Ok::<u16, Seq<char>>(401u16) ==> r.message
                == "认证失败，请检查用户名和密码"@
            &&& r.configured ==> (answer matches Ok(status) ==> (status != 200 && status != 401
                ==> r.message == "连接异常，HTTP 状态："@ + numbers::decimal(status as nat)))
        }),
{
}

/// A connection that was not tried yet is not online and shows what is set.
pub proof fn law_untried(config: ClientConfigView, now: u64)
    ensures
        ({
            let r = untried(config, now);
            &&& !r.online
            &&& r.configured == http::is_configured(config)
            &&& r.host == text::trimmed(config.host)
            &&& r.port == config.port
            &&& r.username == text::trimmed(config.username)
            &&& r.checked_at == now
            &&& r.server_name is None && r.server_mode is None && r.allow_downloads is None
            &&& r.configured ==> r.message == "未检测"@
            &&& !r.configured ==> r.message == "请先填写服务端地址、用户名和密码"@
        }),
{
}

/// What a server tells of itself reaches the client.
pub proof fn law_server_info_reaches_client(body: Seq<u8>, name: Seq<char>, mode: Seq<char>, allow: bool)
    requires
        json::text_at(body, "name"@) == Some(name),
        json::text_at(body, "mode"@) == Some(mode),
        json::flag_at(body, "allowDownloads"@) == Some(allow),
    ensures
        info_in(body).name == Some(name),
        info_in(body).mode == Some(mode),
        info_in(body).allow_downloads == Some(allow),
{
}

/// A request goes to the server's host, without the white space around it, and
/// port; it is the lines that ask for the path and an empty line.
pub proof fn law_asks_for(r: OutgoingRequest, config: ClientConfigView, path: Seq<char>)
    requires
        asks_for(r, config, path),
    ensures
        ({
            let host = text::trimmed(config.host);
            &&& r.address@.take(host.len() as int) == host
            &&& r.address@[host.len() as int] == ':'
            &&& numbers::parsed(r.address@.skip(host.len() as int + 1), 65535) == Some(
                config.port as nat,
            )
            &&& r.request@ == text::joined(http::get_head(config, path), "\r\n"@)
                + "\r\n\r\n"@
        }),
{
    settings::law_address(text::trimmed(config.host), config.port);
    reveal_strlit("\r\n");
    assert("\r\n"@ =~= wire::crlf());
    wire::law_empty_line();
    let block = wire::block(http::get_head(config, path));
    assert(block + wire::crlf() + wire::crlf() =~= block + (wire::crlf() + wire::crlf()));
}

/// A client that cannot ask is told what is missing: the server's address first,
/// and then the user's name and the password.
pub proof fn law_client_problem(config: ClientConfigView)
    ensures
        text::all_white(config.host) ==> client_problem(config) == "请先填写服务端地址"@,
        !text::all_white(config.host) ==> client_problem(config) == "请先填写客户端用户名和密码"@,
{
    text::lemma_blank(config.host);
}

} // verus!
