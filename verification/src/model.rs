//! The data that the library keeps and shows.
//!
//! Each type has a view over mathematical values; contracts speak of the views.

use vstd::prelude::*;
use crate::text;

verus! {

/// The views of a list of values.
pub open spec fn views<T: View>(s: Seq<T>) -> Seq<T::V> {
    Seq::new(s.len(), |i: int| s[i]@)
}

/// A copy of an optional string.
pub fn copy_opt_text(v: &Option<String>) -> (r: Option<String>)
    ensures
        text::opt_text(r) == text::opt_text(*v),
{
    match v {
        Some(s) => Some(s.clone()),
        None => None,
    }
}

/// A copy of a list of strings.
pub fn copy_texts(v: &Vec<String>) -> (r: Vec<String>)
    ensures
        text::texts(r@) == text::texts(v@),
{
    let mut out: Vec<String> = Vec::new();
    let mut i: usize = 0;
    while i < v.len()
        invariant
            i <= v@.len(),
            text::texts(out@) == text::texts(v@).take(i as int),
        decreases v@.len() - i,
    {
        let ghost before = out@;
        out.push(v[i].clone());
        assert(text::texts(out@) =~= text::texts(before).push(v@[i as int]@));
        assert(text::texts(v@).take(i + 1) =~= text::texts(v@).take(i as int).push(v@[i as int]@));
        i = i + 1;
    }
    assert(text::texts(v@).take(i as int) =~= text::texts(v@));
    out
}

/// A copy of a list of bytes.
pub fn copy_bytes(v: &[u8]) -> (r: Vec<u8>)
    ensures
        r@ == v@,
{
    let mut out: Vec<u8> = Vec::new();
    let mut i: usize = 0;
    while i < v.len()
        invariant
            i <= v@.len(),
            out@ == v@.take(i as int),
        decreases v@.len() - i,
    {
        out.push(v[i]);
        i = i + 1;
    }
    assert(v@.take(i as int) =~= v@);
    out
}

/// A category of the library, kept in a folder of its own.
#[derive(Debug)]
pub struct Category {
    pub id: String,
    pub name: String,
    pub path: String,
    pub created_at: u64,
    pub updated_at: u64,
}

#[verifier::ext_equal]
pub struct CategoryView {
    pub id: Seq<char>,
    pub name: Seq<char>,
    pub path: Seq<char>,
    pub created_at: u64,
    pub updated_at: u64,
}

impl View for Category {
    type V = CategoryView;

    open spec fn view(&self) -> CategoryView {
        CategoryView {
            id: self.id@,
            name: self.name@,
            path: self.path@,
            created_at: self.created_at,
            updated_at: self.updated_at,
        }
    }
}

impl Clone for Category {
    fn clone(&self) -> (r: Self)
        ensures
            r@ == self@,
    {
        Category {
            id: self.id.clone(),
            name: self.name.clone(),
            path: self.path.clone(),
            created_at: self.created_at,
            updated_at: self.updated_at,
        }
    }
}

/// An application of the library.
#[derive(Debug)]
pub struct ManagedApp {
    pub id: String,
    pub name: String,
    pub category_id: String,
    pub category_name: String,
    pub folder_path: String,
    pub executable_path: Option<String>,
    pub executable_candidates: Vec<String>,
    pub icon_data_url: Option<String>,
    pub favorite: bool,
    pub note: String,
    pub launch_count: u64,
    pub last_launched_at: Option<u64>,
}

#[verifier::ext_equal]
pub struct AppView {
    pub id: Seq<char>,
    pub name: Seq<char>,
    pub category_id: Seq<char>,
    pub category_name: Seq<char>,
    pub folder_path: Seq<char>,
    pub executable_path: Option<Seq<char>>,
    pub executable_candidates: Seq<Seq<char>>,
    pub icon_data_url: Option<Seq<char>>,
    pub favorite: bool,
    pub note: Seq<char>,
    pub launch_count: u64,
    pub last_launched_at: Option<u64>,
}

impl View for ManagedApp {
    type V = AppView;

    open spec fn view(&self) -> AppView {
        AppView {
            id: self.id@,
            name: self.name@,
            category_id: self.category_id@,
            category_name: self.category_name@,
            folder_path: self.folder_path@,
            executable_path: text::opt_text(self.executable_path),
            executable_candidates: text::texts(self.executable_candidates@),
            icon_data_url: text::opt_text(self.icon_data_url),
            favorite: self.favorite,
            note: self.note@,
            launch_count: self.launch_count,
            last_launched_at: self.last_launched_at,
        }
    }
}

impl Clone for ManagedApp {
    fn clone(&self) -> (r: Self)
        ensures
            r@ == self@,
    {
        ManagedApp {
            id: self.id.clone(),
            name: self.name.clone(),
            category_id: self.category_id.clone(),
            category_name: self.category_name.clone(),
            folder_path: self.folder_path.clone(),
            executable_path: copy_opt_text(&self.executable_path),
            executable_candidates: copy_texts(&self.executable_candidates),
            icon_data_url: copy_opt_text(&self.icon_data_url),
            favorite: self.favorite,
            note: self.note.clone(),
            launch_count: self.launch_count,
            last_launched_at: self.last_launched_at,
        }
    }
}

/// How the library is offered to others.
#[derive(Debug)]
pub struct ServerConfig {
    pub host: String,
    pub port: u16,
    pub username: String,
    pub password: String,
    pub password_hash: String,
    pub allow_downloads: bool,
}

#[verifier::ext_equal]
pub struct ServerConfigView {
    pub host: Seq<char>,
    pub port: u16,
    pub username: Seq<char>,
    pub password: Seq<char>,
    pub password_hash: Seq<char>,
    pub allow_downloads: bool,
}

impl View for ServerConfig {
    type V = ServerConfigView;

    open spec fn view(&self) -> ServerConfigView {
        ServerConfigView {
            host: self.host@,
            port: self.port,
            username: self.username@,
            password: self.password@,
            password_hash: self.password_hash@,
            allow_downloads: self.allow_downloads,
        }
    }
}

impl Clone for ServerConfig {
    fn clone(&self) -> (r: Self)
        ensures
            r@ == self@,
    {
        ServerConfig {
            host: self.host.clone(),
            port: self.port,
            username: self.username.clone(),
            password: self.password.clone(),
            password_hash: self.password_hash.clone(),
            allow_downloads: self.allow_downloads,
        }
    }
}

/// How another library is reached.
#[derive(Debug)]
pub struct ClientConfig {
    pub host: String,
    pub port: u16,
    pub username: String,
    pub password: String,
}

#[verifier::ext_equal]
pub struct ClientConfigView {
    pub host: Seq<char>,
    pub port: u16,
    pub username: Seq<char>,
    pub password: Seq<char>,
}

impl View for ClientConfig {
    type V = ClientConfigView;

    open spec fn view(&self) -> ClientConfigView {
        ClientConfigView {
            host: self.host@,
            port: self.port,
            username: self.username@,
            password: self.password@,
        }
    }
}

impl Clone for ClientConfig {
    fn clone(&self) -> (r: Self)
        ensures
            r@ == self@,
    {
        ClientConfig {
            host: self.host.clone(),
            port: self.port,
            username: self.username.clone(),
            password: self.password.clone(),
        }
    }
}

/// The user's settings.
#[derive(Debug)]
pub struct Settings {
    pub theme: String,
    pub grid_density: String,
    pub startup_view: String,
    pub run_mode: String,
    pub autostart_enabled: bool,
    pub server: ServerConfig,
    pub client: ClientConfig,
    pub favorite_order: Vec<String>,
}

#[verifier::ext_equal]
pub struct SettingsView {
    pub theme: Seq<char>,
    pub grid_density: Seq<char>,
    pub startup_view: Seq<char>,
    pub run_mode: Seq<char>,
    pub autostart_enabled: bool,
    pub server: ServerConfigView,
    pub client: ClientConfigView,
    pub favorite_order: Seq<Seq<char>>,
}

impl View for Settings {
    type V = SettingsView;

    open spec fn view(&self) -> SettingsView {
        SettingsView {
            theme: self.theme@,
            grid_density: self.grid_density@,
            startup_view: self.startup_view@,
            run_mode: self.run_mode@,
            autostart_enabled: self.autostart_enabled,
            server: self.server@,
            client: self.client@,
            favorite_order: text::texts(self.favorite_order@),
        }
    }
}

impl Clone for Settings {
    fn clone(&self) -> (r: Self)
        ensures
            r@ == self@,
    {
        Settings {
            theme: self.theme.clone(),
            grid_density: self.grid_density.clone(),
            startup_view: self.startup_view.clone(),
            run_mode: self.run_mode.clone(),
            autostart_enabled: self.autostart_enabled,
            server: self.server.clone(),
            client: self.client.clone(),
            favorite_order: copy_texts(&self.favorite_order),
        }
    }
}

/// Everything that is kept between runs.
#[derive(Debug)]
pub struct AppData {
    pub library_path: String,
    pub categories: Vec<Category>,
    pub apps: Vec<ManagedApp>,
    pub settings: Settings,
}

#[verifier::ext_equal]
pub struct AppDataView {
    pub library_path: Seq<char>,
    pub categories: Seq<CategoryView>,
    pub apps: Seq<AppView>,
    pub settings: SettingsView,
}

impl View for AppData {
    type V = AppDataView;

    open spec fn view(&self) -> AppDataView {
        AppDataView {
            library_path: self.library_path@,
            categories: views(self.categories@),
            apps: views(self.apps@),
            settings: self.settings@,
        }
    }
}

impl Clone for AppData {
    fn clone(&self) -> (r: Self)
        ensures
            r@ == self@,
    {
        AppData {
            library_path: self.library_path.clone(),
            categories: copy_categories(&self.categories),
            apps: copy_apps(&self.apps),
            settings: self.settings.clone(),
        }
    }
}

/// A folder that needs the user's attention after a scan.
#[derive(Debug)]
pub struct ScanIssue {
    pub folder_path: String,
    pub reason: String,
    pub candidates: Vec<String>,
}

#[verifier::ext_equal]
pub struct ScanIssueView {
    pub folder_path: Seq<char>,
    pub reason: Seq<char>,
    pub candidates: Seq<Seq<char>>,
}

impl View for ScanIssue {
    type V = ScanIssueView;

    open spec fn view(&self) -> ScanIssueView {
        ScanIssueView {
            folder_path: self.folder_path@,
            reason: self.reason@,
            candidates: text::texts(self.candidates@),
        }
    }
}

impl Clone for ScanIssue {
    fn clone(&self) -> (r: Self)
        ensures
            r@ == self@,
    {
        ScanIssue {
            folder_path: self.folder_path.clone(),
            reason: self.reason.clone(),
            candidates: copy_texts(&self.candidates),
        }
    }
}

/// What a launch recorded.
#[derive(Debug)]
pub struct LaunchResult {
    pub app_id: String,
    pub launch_count: u64,
    pub last_launched_at: u64,
}

#[verifier::ext_equal]
pub struct LaunchResultView {
    pub app_id: Seq<char>,
    pub launch_count: u64,
    pub last_launched_at: u64,
}

impl View for LaunchResult {
    type V = LaunchResultView;

    open spec fn view(&self) -> LaunchResultView {
        LaunchResultView {
            app_id: self.app_id@,
            launch_count: self.launch_count,
            last_launched_at: self.last_launched_at,
        }
    }
}

impl Clone for LaunchResult {
    fn clone(&self) -> (r: Self)
        ensures
            r@ == self@,
    {
        LaunchResult {
            app_id: self.app_id.clone(),
            launch_count: self.launch_count,
            last_launched_at: self.last_launched_at,
        }
    }
}

/// A client that was seen by the server.
#[derive(Debug)]
pub struct ServerClientInfo {
    pub address: String,
    pub username: String,
    pub last_path: String,
    pub last_seen_at: u64,
    pub online: bool,
}

#[verifier::ext_equal]
pub struct ServerClientView {
    pub address: Seq<char>,
    pub username: Seq<char>,
    pub last_path: Seq<char>,
    pub last_seen_at: u64,
    pub online: bool,
}

impl View for ServerClientInfo {
    type V = ServerClientView;

    open spec fn view(&self) -> ServerClientView {
        ServerClientView {
            address: self.address@,
            username: self.username@,
            last_path: self.last_path@,
            last_seen_at: self.last_seen_at,
            online: self.online,
        }
    }
}

impl Clone for ServerClientInfo {
    fn clone(&self) -> (r: Self)
        ensures
            r@ == self@,
    {
        ServerClientInfo {
            address: self.address.clone(),
            username: self.username.clone(),
            last_path: self.last_path.clone(),
            last_seen_at: self.last_seen_at,
            online: self.online,
        }
    }
}

/// The state of the server as it is shown.
#[derive(Debug)]
pub struct ServerStatus {
    pub running: bool,
    pub host: String,
    pub port: u16,
    pub clients: Vec<ServerClientInfo>,
}

#[verifier::ext_equal]
pub struct ServerStatusView {
    pub running: bool,
    pub host: Seq<char>,
    pub port: u16,
    pub clients: Seq<ServerClientView>,
}

impl View for ServerStatus {
    type V = ServerStatusView;

    open spec fn view(&self) -> ServerStatusView {
        ServerStatusView {
            running: self.running,
            host: self.host@,
            port: self.port,
            clients: views(self.clients@),
        }
    }
}

impl Clone for ServerStatus {
    fn clone(&self) -> (r: Self)
        ensures
            r@ == self@,
    {
        ServerStatus {
            running: self.running,
            host: self.host.clone(),
            port: self.port,
            clients: copy_clients(&self.clients),
        }
    }
}

/// An uploaded package that waits for review.
#[derive(Debug)]
pub struct ReviewItem {
    pub id: String,
    pub name: String,
    pub file_name: String,
    pub category_name: String,
    pub size: u64,
    pub uploaded_at: u64,
    pub path: String,
    pub extracted_paths: Vec<String>,
}

#[verifier::ext_equal]
pub struct ReviewItemView {
    pub id: Seq<char>,
    pub name: Seq<char>,
    pub file_name: Seq<char>,
    pub category_name: Seq<char>,
    pub size: u64,
    pub uploaded_at: u64,
    pub path: Seq<char>,
    pub extracted_paths: Seq<Seq<char>>,
}

impl View for ReviewItem {
    type V = ReviewItemView;

    open spec fn view(&self) -> ReviewItemView {
        ReviewItemView {
            id: self.id@,
            name: self.name@,
            file_name: self.file_name@,
            category_name: self.category_name@,
            size: self.size,
            uploaded_at: self.uploaded_at,
            path: self.path@,
            extracted_paths: text::texts(self.extracted_paths@),
        }
    }
}

impl Clone for ReviewItem {
    fn clone(&self) -> (r: Self)
        ensures
            r@ == self@,
    {
        ReviewItem {
            id: self.id.clone(),
            name: self.name.clone(),
            file_name: self.file_name.clone(),
            category_name: self.category_name.clone(),
            size: self.size,
            uploaded_at: self.uploaded_at,
            path: self.path.clone(),
            extracted_paths: copy_texts(&self.extracted_paths),
        }
    }
}

/// The connection to the server as it is shown.
#[derive(Debug)]
pub struct ClientConnectionStatus {
    pub configured: bool,
    pub online: bool,
    pub host: String,
    pub port: u16,
    pub username: String,
    pub message: String,
    pub server_name: Option<String>,
    pub server_mode: Option<String>,
    pub allow_downloads: Option<bool>,
    pub checked_at: u64,
}

#[verifier::ext_equal]
pub struct ConnectionView {
    pub configured: bool,
    pub online: bool,
    pub host: Seq<char>,
    pub port: u16,
    pub username: Seq<char>,
    pub message: Seq<char>,
    pub server_name: Option<Seq<char>>,
    pub server_mode: Option<Seq<char>>,
    pub allow_downloads: Option<bool>,
    pub checked_at: u64,
}

impl View for ClientConnectionStatus {
    type V = ConnectionView;

    open spec fn view(&self) -> ConnectionView {
        ConnectionView {
            configured: self.configured,
            online: self.online,
            host: self.host@,
            port: self.port,
            username: self.username@,
            message: self.message@,
            server_name: text::opt_text(self.server_name),
            server_mode: text::opt_text(self.server_mode),
            allow_downloads: self.allow_downloads,
            checked_at: self.checked_at,
        }
    }
}

impl Clone for ClientConnectionStatus {
    fn clone(&self) -> (r: Self)
        ensures
            r@ == self@,
    {
        ClientConnectionStatus {
            configured: self.configured,
            online: self.online,
            host: self.host.clone(),
            port: self.port,
            username: self.username.clone(),
            message: self.message.clone(),
            server_name: copy_opt_text(&self.server_name),
            server_mode: copy_opt_text(&self.server_mode),
            allow_downloads: self.allow_downloads,
            checked_at: self.checked_at,
        }
    }
}

/// A response that was received.
#[derive(Debug)]
pub struct HttpResponse {
    pub status: u16,
    pub body: Vec<u8>,
}

#[verifier::ext_equal]
pub struct HttpResponseView {
    pub status: u16,
    pub body: Seq<u8>,
}

impl View for HttpResponse {
    type V = HttpResponseView;

    open spec fn view(&self) -> HttpResponseView {
        HttpResponseView {
            status: self.status,
            body: self.body@,
        }
    }
}

impl Clone for HttpResponse {
    fn clone(&self) -> (r: Self)
        ensures
            r@ == self@,
    {
        HttpResponse {
            status: self.status,
            body: copy_bytes(self.body.as_slice()),
        }
    }
}

/// A copy of a list of categories.
pub fn copy_categories(v: &Vec<Category>) -> (r: Vec<Category>)
    ensures
        views(r@) == views(v@),
{
    let mut out: Vec<Category> = Vec::new();
    let mut i: usize = 0;
    while i < v.len()
        invariant
            i <= v@.len(),
            views(out@) == views(v@).take(i as int),
        decreases v@.len() - i,
    {
        let ghost before = out@;
        out.push(v[i].clone());
        assert(views(out@) =~= views(before).push(views(v@)[i as int]));
        assert(views(v@).take(i + 1) =~= views(v@).take(i as int).push(views(v@)[i as int]));
        i = i + 1;
    }
    assert(views(v@).take(i as int) =~= views(v@));
    out
}

/// A copy of a list of applications.
pub fn copy_apps(v: &Vec<ManagedApp>) -> (r: Vec<ManagedApp>)
    ensures
        views(r@) == views(v@),
{
    let mut out: Vec<ManagedApp> = Vec::new();
    let mut i: usize = 0;
    while i < v.len()
        invariant
            i <= v@.len(),
            views(out@) == views(v@).take(i as int),
        decreases v@.len() - i,
    {
        let ghost before = out@;
        out.push(v[i].clone());
        assert(views(out@) =~= views(before).push(views(v@)[i as int]));
        assert(views(v@).take(i + 1) =~= views(v@).take(i as int).push(views(v@)[i as int]));
        i = i + 1;
    }
    assert(views(v@).take(i as int) =~= views(v@));
    out
}

/// A copy of a list of clients.
pub fn copy_clients(v: &Vec<ServerClientInfo>) -> (r: Vec<ServerClientInfo>)
    ensures
        views(r@) == views(v@),
{
    let mut out: Vec<ServerClientInfo> = Vec::new();
    let mut i: usize = 0;
    while i < v.len()
        invariant
            i <= v@.len(),
            views(out@) == views(v@).take(i as int),
        decreases v@.len() - i,
    {
        let ghost before = out@;
        out.push(v[i].clone());
        assert(views(out@) =~= views(before).push(views(v@)[i as int]));
        assert(views(v@).take(i + 1) =~= views(v@).take(i as int).push(views(v@)[i as int]));
        i = i + 1;
    }
    assert(views(v@).take(i as int) =~= views(v@));
    out
}

} // verus!
