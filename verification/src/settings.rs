//! The settings and what they decide.

use vstd::prelude::*;
use crate::fnv;
use crate::fnv::make_id;
use crate::model::{
    AppData, AppDataView, ClientConfig, ClientConfigView, ServerConfig, ServerConfigView, Settings,
    SettingsView,
};
use crate::numbers;
use crate::numbers::{push_decimal, signed_decimal_text};
use crate::paths;
use crate::paths::{path_to_string, FilePath};
use crate::text;
use crate::text::{is_blank, push_text, same_text, trim};

verus! {

pub const THEME_LIGHT: &'static str = "light";

pub const THEME_DARK: &'static str = "dark";

pub const THEME_GREEN: &'static str = "green";

pub const GRID_COMFORTABLE: &'static str = "comfortable";

pub const GRID_COMPACT: &'static str = "compact";

pub const VIEW_FAVORITES: &'static str = "favorites";

pub const MODE_LOCAL: &'static str = "local";

pub const MODE_SERVER: &'static str = "server";

pub const MODE_CLIENT: &'static str = "client";

pub const ANY_HOST: &'static str = "0.0.0.0";

pub const LOCAL_HOST: &'static str = "127.0.0.1";

pub const DEFAULT_USER: &'static str = "admin";

pub const DEFAULT_PORT: u16 = 8765;

/// Shown where the mode is not one of the three.
pub const BAD_MODE: &'static str = "运行模式无效";

/// Shown where the grid density is not one of the two.
pub const BAD_GRID: &'static str = "网格密度无效";

/// Shown where the theme is not one of the three.
pub const BAD_THEME: &'static str = "主题无效";

/// Shown where the server lacks a user name or a password.
pub const NO_SERVER_CREDENTIALS: &'static str = "请先设置服务端用户名和密码";

/// Shown where something remote is wanted outside client mode.
pub const NOT_CLIENT_MODE: &'static str = "当前不是客户端模式，远程客户端功能未启用";

/// Shown where the system has no elevated launch.
pub const ADMIN_UNSUPPORTED: &'static str = "管理员权限启动仅支持 Windows";

/// Shown, before the system's code, where an elevated launch failed.
pub const ADMIN_FAILED: &'static str = "管理员权限启动失败，系统错误码：";

/// Shown where the start with the system could not be set.
pub const AUTOSTART_FAILED: &'static str = "写入开机自启失败";

/// The registry key of the programs that start with the system.
pub const AUTOSTART_KEY: &'static str = "HKCU\\Software\\Microsoft\\Windows\\CurrentVersion\\Run";

/// The program's name in the registry.
pub const AUTOSTART_NAME: &'static str = "AppManager";

/// New settings as the user entered them.
#[derive(Debug)]
pub struct UpdateSettingsRequest {
    pub run_mode: String,
    pub theme: String,
    pub grid_density: String,
    pub autostart_enabled: bool,
    pub server_host: String,
    pub server_port: u16,
    pub server_username: String,
    pub server_password: String,
    pub server_allow_downloads: bool,
    pub client_host: String,
    pub client_port: u16,
    pub client_username: String,
    pub client_password: String,
}

/// What is to become of the server.
#[derive(Debug)]
pub enum ServerCommand {
    /// Start it anew.
    Start(ServerConfig),
    /// Stop it.
    Stop,
    /// Stop it and report a problem.
    Refuse(String),
}

// ---------------------------------------------------------------------------
// Defaults
// ---------------------------------------------------------------------------

pub fn default_theme() -> (r: String)
    ensures
        r@ == THEME_LIGHT@,
{
    THEME_LIGHT.to_string()
}

pub fn default_grid_density() -> (r: String)
    ensures
        r@ == GRID_COMFORTABLE@,
{
    GRID_COMFORTABLE.to_string()
}

pub fn default_startup_view() -> (r: String)
    ensures
        r@ == VIEW_FAVORITES@,
{
    VIEW_FAVORITES.to_string()
}

pub fn default_run_mode() -> (r: String)
    ensures
        r@ == MODE_LOCAL@,
{
    MODE_LOCAL.to_string()
}

pub fn default_server_host() -> (r: String)
    ensures
        r@ == ANY_HOST@,
{
    ANY_HOST.to_string()
}

pub fn default_server_port() -> (r: u16)
    ensures
        r == DEFAULT_PORT,
{
    DEFAULT_PORT
}

pub fn default_server_username() -> (r: String)
    ensures
        r@ == DEFAULT_USER@,
{
    DEFAULT_USER.to_string()
}

pub fn default_client_host() -> (r: String)
    ensures
        r@ == LOCAL_HOST@,
{
    LOCAL_HOST.to_string()
}

pub fn default_true() -> (r: bool)
    ensures
        r,
{
    true
}

/// The server's settings before the user sets any.
pub open spec fn initial_server() -> ServerConfigView {
    ServerConfigView {
        host: ANY_HOST@,
        port: DEFAULT_PORT,
        username: DEFAULT_USER@,
        password: Seq::empty(),
        password_hash: Seq::empty(),
        allow_downloads: true,
    }
}

/// The client's settings before the user sets any.
pub open spec fn initial_client() -> ClientConfigView {
    ClientConfigView {
        host: LOCAL_HOST@,
        port: DEFAULT_PORT,
        username: DEFAULT_USER@,
        password: Seq::empty(),
    }
}

/// The settings before the user sets any.
pub open spec fn initial_settings() -> SettingsView {
    SettingsView {
        theme: THEME_LIGHT@,
        grid_density: GRID_COMFORTABLE@,
        startup_view: VIEW_FAVORITES@,
        run_mode: MODE_LOCAL@,
        autostart_enabled: false,
        server: initial_server(),
        client: initial_client(),
        favorite_order: Seq::empty(),
    }
}

impl Default for ServerConfig {
    fn default() -> (r: Self)
        ensures
            r@ == initial_server(),
    {
        let r = ServerConfig {
            host: default_server_host(),
            port: default_server_port(),
            username: default_server_username(),
            password: String::new(),
            password_hash: String::new(),
            allow_downloads: true,
        };
        assert(r@ =~= initial_server());
        r
    }
}

impl Default for ClientConfig {
    fn default() -> (r: Self)
        ensures
            r@ == initial_client(),
    {
        let r = ClientConfig {
            host: default_client_host(),
            port: default_server_port(),
            username: default_server_username(),
            password: String::new(),
        };
        assert(r@ =~= initial_client());
        r
    }
}

impl Default for Settings {
    fn default() -> (r: Self)
        ensures
            r@ == initial_settings(),
    {
        let r = Settings {
            theme: default_theme(),
            grid_density: default_grid_density(),
            startup_view: default_startup_view(),
            run_mode: default_run_mode(),
            autostart_enabled: false,
            server: ServerConfig::default(),
            client: ClientConfig::default(),
            favorite_order: Vec::new(),
        };
        assert(r@ =~= initial_settings());
        r
    }
}

/// The catalogue of a library that has just been made.
pub fn new_library_data(library: &FilePath) -> (r: AppData)
    ensures
        r@ == (AppDataView {
            library_path: paths::path_text(library@),
            categories: Seq::empty(),
            apps: Seq::empty(),
            settings: initial_settings(),
        }),
{
    let r = AppData {
        library_path: path_to_string(library),
        categories: Vec::new(),
        apps: Vec::new(),
        settings: Settings::default(),
    };
    assert(r@.categories =~= Seq::empty());
    assert(r@.apps =~= Seq::empty());
    r
}

// ---------------------------------------------------------------------------
// Changing the settings
// ---------------------------------------------------------------------------

pub open spec fn is_mode(s: Seq<char>) -> bool {
    s == MODE_LOCAL@ || s == MODE_SERVER@ || s == MODE_CLIENT@
}

pub open spec fn is_grid(s: Seq<char>) -> bool {
    s == GRID_COMFORTABLE@ || s == GRID_COMPACT@
}

pub open spec fn is_theme(s: Seq<char>) -> bool {
    s == THEME_LIGHT@ || s == THEME_DARK@ || s == THEME_GREEN@
}

/// The problem of a request, where it has one.
pub open spec fn request_problem(request: UpdateSettingsRequest) -> Option<Seq<char>> {
    if !is_mode(request.run_mode@) {
        Some(BAD_MODE@)
    } else if !is_grid(request.grid_density@) {
        Some(BAD_GRID@)
    } else if !is_theme(request.theme@) {
        Some(BAD_THEME@)
    } else {
        None
    }
}

/// The settings after a request: names, hosts and passwords lose the white
/// space around them, and a password is kept with its hash.
pub open spec fn updated_settings(
    settings: SettingsView,
    request: UpdateSettingsRequest,
) -> SettingsView {
    let password = text::trimmed(request.server_password@);
    SettingsView {
        run_mode: request.run_mode@,
        theme: request.theme@,
        grid_density: request.grid_density@,
        autostart_enabled: request.autostart_enabled,
        server: ServerConfigView {
            host: text::trimmed(request.server_host@),
            port: request.server_port,
            username: text::trimmed(request.server_username@),
            password,
            password_hash: if password.len() == 0 {
                Seq::empty()
            } else {
                fnv::id_of(password)
            },
            allow_downloads: request.server_allow_downloads,
        },
        client: ClientConfigView {
            host: text::trimmed(request.client_host@),
            port: request.client_port,
            username: text::trimmed(request.client_username@),
            password: text::trimmed(request.client_password@),
        },
        ..settings
    }
}

/// Refuses a request with a mode, grid density or theme that does not exist.
pub fn check_settings(request: &UpdateSettingsRequest) -> (r: Result<(), String>)
    ensures
        match r {
            Ok(_) => request_problem(*request) is None,
            Err(e) => request_problem(*request) == Some(e@),
        },
{
    let mode = request.run_mode.as_str();
    if !same_text(mode, MODE_LOCAL) && !same_text(mode, MODE_SERVER) && !same_text(
        mode,
        MODE_CLIENT,
    ) {
        return Err(BAD_MODE.to_string());
    }
    let grid = request.grid_density.as_str();
    if !same_text(grid, GRID_COMFORTABLE) && !same_text(grid, GRID_COMPACT) {
        return Err(BAD_GRID.to_string());
    }
    let theme = request.theme.as_str();
    if !same_text(theme, THEME_LIGHT) && !same_text(theme, THEME_DARK) && !same_text(
        theme,
        THEME_GREEN,
    ) {
        return Err(BAD_THEME.to_string());
    }
    Ok(())
}

/// Changes the settings as requested.
pub fn update_settings(settings: &mut Settings, request: &UpdateSettingsRequest) -> (r: Result<
    (),
    String,
>)
    ensures
        match r {
            Ok(_) => request_problem(*request) is None && final(settings)@ == updated_settings(
                old(settings)@,
                *request,
            ),
            Err(e) => request_problem(*request) == Some(e@) && final(settings)@ == old(settings)@,
        },
{
    match check_settings(request) {
        Ok(_) => {},
        Err(e) => {
            return Err(e);
        },
    }
    settings.run_mode = request.run_mode.clone();
    settings.theme = request.theme.clone();
    settings.grid_density = request.grid_density.clone();
    settings.autostart_enabled = request.autostart_enabled;
    let server_password = trim(request.server_password.as_str());
    let password_hash = if server_password.as_str().is_empty() {
        String::new()
    } else {
        make_id(server_password.as_str())
    };
    settings.server = ServerConfig {
        host: trim(request.server_host.as_str()),
        port: request.server_port,
        username: trim(request.server_username.as_str()),
        password: server_password,
        password_hash,
        allow_downloads: request.server_allow_downloads,
    };
    settings.client = ClientConfig {
        host: trim(request.client_host.as_str()),
        port: request.client_port,
        username: trim(request.client_username.as_str()),
        password: trim(request.client_password.as_str()),
    };
    assert(settings@ =~= updated_settings(old(settings)@, *request));
    Ok(())
}

// ---------------------------------------------------------------------------
// What the settings decide
// ---------------------------------------------------------------------------

/// The server has what it needs to tell its clients apart from others.
pub open spec fn has_credentials(config: ServerConfigView) -> bool {
    text::trimmed(config.username).len() > 0 && (config.password_hash.len() > 0
        || config.password.len() > 0)
}

/// What is to become of the server under the settings.
pub fn sync_server(settings: &Settings) -> (r: ServerCommand)
    ensures
        if settings.run_mode@ != MODE_SERVER@ {
            r is Stop
        } else if has_credentials(settings@.server) {
            r matches ServerCommand::Start(config) && config@ == settings@.server
        } else {
            r matches ServerCommand::Refuse(e) && e@ == NO_SERVER_CREDENTIALS@
        },
{
    if !same_text(settings.run_mode.as_str(), MODE_SERVER) {
        return ServerCommand::Stop;
    }
    let server = &settings.server;
    if is_blank(server.username.as_str()) || (server.password_hash.as_str().is_empty()
        && server.password.as_str().is_empty()) {
        return ServerCommand::Refuse(NO_SERVER_CREDENTIALS.to_string());
    }
    ServerCommand::Start(settings.server.clone())
}

/// A host and a port as an address.
pub open spec fn address(host: Seq<char>, port: u16) -> Seq<char> {
    host + seq![':'] + numbers::decimal(port as nat)
}

fn make_address(host: &str, port: u16) -> (r: String)
    ensures
        r@ == address(host@, port),
{
    let mut out = host.to_string();
    out.push(':');
    push_decimal(&mut out, port as u64);
    assert(out@ =~= address(host@, port));
    out
}

/// The address on which the server listens.
pub fn server_address(config: &ServerConfig) -> (r: String)
    ensures
        r@ == address(config.host@, config.port),
{
    make_address(config.host.as_str(), config.port)
}

/// The address at which the client reaches the server.
pub fn client_address(config: &ClientConfig) -> (r: String)
    ensures
        r@ == address(text::trimmed(config.host@), config.port),
{
    let host = trim(config.host.as_str());
    make_address(host.as_str(), config.port)
}

/// Refuses what is remote outside client mode.
pub fn ensure_client_mode(settings: &Settings) -> (r: Result<(), String>)
    ensures
        match r {
            Ok(_) => settings.run_mode@ == MODE_CLIENT@,
            Err(e) => settings.run_mode@ != MODE_CLIENT@ && e@ == NOT_CLIENT_MODE@,
        },
{
    if same_text(settings.run_mode.as_str(), MODE_CLIENT) {
        Ok(())
    } else {
        Err(NOT_CLIENT_MODE.to_string())
    }
}

/// The arguments with which the registry tool makes the program start with the
/// system, or no longer.
pub open spec fn autostart_args(enabled: bool, program: Seq<char>) -> Seq<Seq<char>> {
    if enabled {
        seq![
            "add"@,
            AUTOSTART_KEY@,
            "/v"@,
            AUTOSTART_NAME@,
            "/t"@,
            "REG_SZ"@,
            "/d"@,
            program,
            "/f"@,
        ]
    } else {
        seq!["delete"@, AUTOSTART_KEY@, "/v"@, AUTOSTART_NAME@, "/f"@]
    }
}

/// The arguments with which the registry tool is called.
pub fn autostart_arguments(enabled: bool, program: &FilePath) -> (r: Vec<String>)
    ensures
        text::texts(r@) == autostart_args(enabled, paths::path_text(program@)),
{
    let mut out: Vec<String> = Vec::new();
    if enabled {
        out.push("add".to_string());
        out.push(AUTOSTART_KEY.to_string());
        out.push("/v".to_string());
        out.push(AUTOSTART_NAME.to_string());
        out.push("/t".to_string());
        out.push("REG_SZ".to_string());
        out.push("/d".to_string());
        out.push(path_to_string(program));
        out.push("/f".to_string());
    } else {
        out.push("delete".to_string());
        out.push(AUTOSTART_KEY.to_string());
        out.push("/v".to_string());
        out.push(AUTOSTART_NAME.to_string());
        out.push("/f".to_string());
    }
    assert(text::texts(out@) =~= autostart_args(enabled, paths::path_text(program@)));
    out
}

/// What the registry tool's success means: taking an entry out that is not
/// there is no failure.
pub fn set_windows_autostart(enabled: bool, succeeded: bool) -> (r: Result<(), String>)
    ensures
        match r {
            Ok(_) => !enabled || succeeded,
            Err(e) => enabled && !succeeded && e@ == AUTOSTART_FAILED@,
        },
{
    if enabled && !succeeded {
        return Err(AUTOSTART_FAILED.to_string());
    }
    Ok(())
}

/// What the system's answer to an elevated launch means. Systems without such
/// a launch give no code.
pub fn launch_process_as_admin(code: Option<i64>) -> (r: Result<(), String>)
    ensures
        match code {
            None => r matches Err(e) && e@ == ADMIN_UNSUPPORTED@,
            Some(c) => if c > 32 {
                r is Ok
            } else {
                r matches Err(e) && e@ == ADMIN_FAILED@ + numbers::signed_decimal(c as int)
            },
        },
{
    match code {
        None => Err(ADMIN_UNSUPPORTED.to_string()),
        Some(c) => {
            if c <= 32 {
                let mut message = ADMIN_FAILED.to_string();
                let shown = signed_decimal_text(c);
                push_text(&mut message, shown.as_str());
                return Err(message);
            }
            Ok(())
        },
    }
}

// ---------------------------------------------------------------------------
// Laws
// ---------------------------------------------------------------------------

/// The settings that a request makes hold credentials exactly where the
/// request gives a user name and a password; making the same request again
/// changes nothing.
pub proof fn law_updated_settings_have_credentials(
    settings: SettingsView,
    request: UpdateSettingsRequest,
)
    ensures
        has_credentials(updated_settings(settings, request).server) == (text::trimmed(
            request.server_username@,
        ).len() > 0 && text::trimmed(request.server_password@).len() > 0),
        updated_settings(settings, request).startup_view == settings.startup_view,
        updated_settings(settings, request).favorite_order == settings.favorite_order,
        updated_settings(updated_settings(settings, request), request) == updated_settings(
            settings,
            request,
        ),
{
    text::law_trimmed_idempotent(request.server_username@);
}

/// The requested settings take effect one by one: texts without the white space
/// around them, the server's password also as its hash, and nothing else changes.
pub proof fn law_updated_settings(settings: SettingsView, request: UpdateSettingsRequest)
    ensures
        ({
            let r = updated_settings(settings, request);
            &&& r.run_mode == request.run_mode@
            &&& r.theme == request.theme@
            &&& r.grid_density == request.grid_density@
            &&& r.autostart_enabled == request.autostart_enabled
            &&& r.startup_view == settings.startup_view
            &&& r.favorite_order == settings.favorite_order
            &&& r.server.host == text::trimmed(request.server_host@)
            &&& r.server.port == request.server_port
            &&& r.server.username == text::trimmed(request.server_username@)
            &&& r.server.password == text::trimmed(request.server_password@)
            &&& r.server.allow_downloads == request.server_allow_downloads
            &&& text::all_white(request.server_password@) ==> r.server.password_hash.len() == 0
            &&& r.server.password.len() > 0 ==> r.server.password_hash == fnv::id_of(
                r.server.password,
            )
            &&& r.client.host == text::trimmed(request.client_host@)
            &&& r.client.port == request.client_port
            &&& r.client.username == text::trimmed(request.client_username@)
            &&& r.client.password == text::trimmed(request.client_password@)
        }),
{
    text::lemma_blank(request.server_password@);
}

/// A request is refused exactly where the mode, the grid or the theme is none
/// that there is; the first of these that is wrong is named.
pub proof fn law_request_problem(request: UpdateSettingsRequest)
    ensures
        ({
            let mode = request.run_mode@ == "local"@ || request.run_mode@ == "server"@
                || request.run_mode@ == "client"@;
            let grid = request.grid_density@ == "comfortable"@ || request.grid_density@
                == "compact"@;
            let theme = request.theme@ == "light"@ || request.theme@ == "dark"@ || request.theme@
                == "green"@;
            &&& (request_problem(request) is None) == (mode && grid && theme)
            &&& !mode ==> request_problem(request) == Some(BAD_MODE@)
            &&& mode && !grid ==> request_problem(request) == Some(BAD_GRID@)
            &&& mode && grid && !theme ==> request_problem(request) == Some(BAD_THEME@)
        }),
{
}

/// The server has what it needs to let somebody in: a user's name that is not
/// blank, and a password or its hash.
pub proof fn law_has_credentials(config: ServerConfigView)
    ensures
        has_credentials(config) == (!text::all_white(config.username) && (config.password.len() > 0
            || config.password_hash.len() > 0)),
{
    text::lemma_blank(config.username);
}

/// An address is the host, a colon and the port in decimal; the port can be read
/// from it.
pub proof fn law_address(host: Seq<char>, port: u16)
    ensures
        address(host, port).take(host.len() as int) == host,
        address(host, port)[host.len() as int] == ':',
        numbers::parsed(address(host, port).skip(host.len() as int + 1), 65535) == Some(port as nat),
{
    numbers::law_decimal_read_back(port as nat, 65535);
    assert(address(host, port).take(host.len() as int) =~= host);
    assert(address(host, port).skip(host.len() as int + 1) =~= numbers::decimal(port as nat));
}

/// How a library begins: with the light theme, a comfortable grid, the marked
/// applications first, and for itself alone; the server listens everywhere on
/// port 8765 and lets packages through, but has no password yet, and the client
/// looks for it on the same machine.
pub proof fn law_initial_settings()
    ensures
        ({
            let s = initial_settings();
            &&& s.theme == "light"@
            &&& s.grid_density == "comfortable"@
            &&& s.startup_view == "favorites"@
            &&& s.run_mode == "local"@
            &&& !s.autostart_enabled
            &&& s.favorite_order.len() == 0
            &&& s.server == initial_server()
            &&& s.client == initial_client()
            &&& s.server.host == "0.0.0.0"@
            &&& s.server.port == 8765
            &&& s.server.username == "admin"@
            &&& s.server.allow_downloads
            &&& s.client.host == "127.0.0.1"@
            &&& s.client.port == s.server.port
            &&& s.client.username == s.server.username
            &&& s.client.password.len() == 0
            &&& !has_credentials(s.server)
            &&& is_mode(s.run_mode)
            &&& is_grid(s.grid_density)
            &&& is_theme(s.theme)
        }),
{
}

/// The system is told to start the program along with it, or no longer to.
pub proof fn law_autostart_args(program: Seq<char>)
    ensures
        ({
            let on = autostart_args(true, program);
            let off = autostart_args(false, program);
            &&& on.len() == 9
            &&& on[0] == "add"@
            &&& off.len() == 5
            &&& off[0] == "delete"@
            &&& on[6] == "/d"@
            &&& on[7] == program
            &&& on[1] == "HKCU\\Software\\Microsoft\\Windows\\CurrentVersion\\Run"@
            &&& off[1] == on[1]
            &&& on[2] == "/v"@
            &&& off[2] == on[2]
            &&& on[3] == "AppManager"@
            &&& off[3] == on[3]
            &&& on[4] == "/t"@
            &&& on[5] == "REG_SZ"@
            &&& on.last() == "/f"@
            &&& off.last() == "/f"@
        }),
{
}

} // verus!
