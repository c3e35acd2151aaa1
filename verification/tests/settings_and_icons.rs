use appmanager::icons::{
    decode_image_data_url, hydrate_icon_data_urls, icon_extension_from_mime,
    persist_icon_reference, read_image_as_data_url, stores_icon, validate_image_data_url,
    ImageFile, LoadedImage,
};
use appmanager::model::{ClientConfig, ManagedApp, ServerConfig, Settings};
use appmanager::paths::{path_to_string, FilePath, PartKind, PathPart};
use appmanager::settings::{
    autostart_arguments, check_settings, client_address, default_client_host,
    default_grid_density, default_run_mode, default_server_host, default_server_port,
    default_server_username, default_startup_view, default_theme, default_true,
    ensure_client_mode, launch_process_as_admin, new_library_data, server_address,
    set_windows_autostart, sync_server, update_settings, ServerCommand, UpdateSettingsRequest,
};

fn path(s: &str) -> FilePath {
    let mut parts = Vec::new();
    let mut rest = s;
    let part = |kind: PartKind, lead: &str, shown: &str| PathPart {
        kind,
        name: shown.as_bytes().to_vec(),
        lead: lead.to_string(),
        shown: shown.to_string(),
    };
    if let Some(tail) = s.strip_prefix('/') {
        parts.push(part(PartKind::Root, "", "/"));
        rest = tail;
    }
    for (i, piece) in rest.split('/').filter(|p| !p.is_empty()).enumerate() {
        parts.push(part(PartKind::Normal, if i == 0 { "" } else { "/" }, piece));
    }
    FilePath { parts, tail: String::new(), separator: '/' }
}

fn request() -> UpdateSettingsRequest {
    UpdateSettingsRequest {
        run_mode: "server".to_string(),
        theme: "dark".to_string(),
        grid_density: "compact".to_string(),
        autostart_enabled: true,
        server_host: " 0.0.0.0 ".to_string(),
        server_port: 9000,
        server_username: " root ".to_string(),
        server_password: " foobar ".to_string(),
        server_allow_downloads: false,
        client_host: " host ".to_string(),
        client_port: 9001,
        client_username: " me ".to_string(),
        client_password: " pw ".to_string(),
    }
}

#[test]
fn settings_have_defaults() {
    let s = Settings::default();
    assert_eq!(s.theme, default_theme());
    assert_eq!(s.theme, "light");
    assert_eq!(s.grid_density, default_grid_density());
    assert_eq!(s.grid_density, "comfortable");
    assert_eq!(s.startup_view, default_startup_view());
    assert_eq!(s.startup_view, "favorites");
    assert_eq!(s.run_mode, default_run_mode());
    assert_eq!(s.run_mode, "local");
    assert!(!s.autostart_enabled);
    assert_eq!(s.server.host, default_server_host());
    assert_eq!(s.server.host, "0.0.0.0");
    assert_eq!(s.server.port, default_server_port());
    assert_eq!(s.server.port, 8765);
    assert_eq!(s.server.username, default_server_username());
    assert_eq!(s.server.username, "admin");
    assert_eq!(s.server.allow_downloads, default_true());
    assert!(s.server.password.is_empty());
    assert_eq!(s.client.host, default_client_host());
    assert_eq!(s.client.host, "127.0.0.1");
    assert_eq!(ClientConfig::default().port, 8765);
    assert!(ServerConfig::default().password_hash.is_empty());
    assert!(s.favorite_order.is_empty());
}

#[test]
fn settings_are_updated() {
    let mut s = Settings::default();
    s.favorite_order = vec!["x".to_string()];
    update_settings(&mut s, &request()).unwrap();
    assert_eq!(s.run_mode, "server");
    assert_eq!((s.theme.as_str(), s.grid_density.as_str()), ("dark", "compact"));
    assert!(s.autostart_enabled);
    assert_eq!((s.server.host.as_str(), s.server.port), ("0.0.0.0", 9000));
    assert_eq!((s.server.username.as_str(), s.server.password.as_str()), ("root", "foobar"));
    assert_eq!(s.server.password_hash, "85944171f73967e8");
    assert!(!s.server.allow_downloads);
    assert_eq!((s.client.host.as_str(), s.client.port), ("host", 9001));
    assert_eq!((s.client.username.as_str(), s.client.password.as_str()), ("me", "pw"));
    assert_eq!(s.favorite_order, vec!["x"]);
    let mut empty = request();
    empty.server_password = "  ".to_string();
    update_settings(&mut s, &empty).unwrap();
    assert_eq!(s.server.password_hash, "");
}

#[test]
fn settings_that_do_not_exist_are_refused() {
    let mut s = Settings::default();
    let mut mode = request();
    mode.run_mode = "peer".to_string();
    assert_eq!(check_settings(&mode).unwrap_err(), "运行模式无效");
    let mut grid = request();
    grid.grid_density = "dense".to_string();
    assert_eq!(check_settings(&grid).unwrap_err(), "网格密度无效");
    let mut theme = request();
    theme.theme = "blue".to_string();
    assert_eq!(update_settings(&mut s, &theme).unwrap_err(), "主题无效");
    assert_eq!(s.theme, "light");
    assert!(check_settings(&request()).is_ok());
}

#[test]
fn the_mode_decides_on_the_server() {
    let mut s = Settings::default();
    assert!(matches!(sync_server(&s), ServerCommand::Stop));
    s.run_mode = "server".to_string();
    match sync_server(&s) {
        ServerCommand::Refuse(e) => assert_eq!(e, "请先设置服务端用户名和密码"),
        _ => panic!("a server without a password is refused"),
    }
    s.server.password_hash = "abc".to_string();
    match sync_server(&s) {
        ServerCommand::Start(config) => assert_eq!(config.username, "admin"),
        _ => panic!("the server starts"),
    }
    s.server.username = "  ".to_string();
    assert!(matches!(sync_server(&s), ServerCommand::Refuse(_)));
}

#[test]
fn addresses_name_host_and_port() {
    let mut s = Settings::default();
    s.client.host = " example ".to_string();
    assert_eq!(server_address(&s.server), "0.0.0.0:8765");
    assert_eq!(client_address(&s.client), "example:8765");
}

#[test]
fn remote_functions_need_client_mode() {
    let mut s = Settings::default();
    assert_eq!(
        ensure_client_mode(&s).unwrap_err(),
        "当前不是客户端模式，远程客户端功能未启用"
    );
    s.run_mode = "client".to_string();
    assert!(ensure_client_mode(&s).is_ok());
}

#[test]
fn elevated_launches_are_judged_by_their_code() {
    assert!(launch_process_as_admin(Some(33)).is_ok());
    assert_eq!(
        launch_process_as_admin(Some(5)).unwrap_err(),
        "管理员权限启动失败，系统错误码：5"
    );
    assert_eq!(
        launch_process_as_admin(Some(-1)).unwrap_err(),
        "管理员权限启动失败，系统错误码：-1"
    );
    assert_eq!(launch_process_as_admin(None).unwrap_err(), "管理员权限启动仅支持 Windows");
}

#[test]
fn the_registry_is_told_of_the_start_with_the_system() {
    let key = "HKCU\\Software\\Microsoft\\Windows\\CurrentVersion\\Run";
    assert_eq!(
        autostart_arguments(true, &path("/p")),
        vec!["add", key, "/v", "AppManager", "/t", "REG_SZ", "/d", "/p", "/f"]
    );
    assert_eq!(
        autostart_arguments(false, &path("/p")),
        vec!["delete", key, "/v", "AppManager", "/f"]
    );
    assert!(set_windows_autostart(false, false).is_ok());
    assert!(set_windows_autostart(true, true).is_ok());
    assert_eq!(set_windows_autostart(true, false).unwrap_err(), "写入开机自启失败");
}

#[test]
fn images_have_extensions() {
    assert_eq!(icon_extension_from_mime("data:image/png"), Ok("png"));
    assert_eq!(icon_extension_from_mime("data:image/jpeg"), Ok("jpg"));
    assert_eq!(icon_extension_from_mime("data:image/gif"), Ok("gif"));
    assert_eq!(icon_extension_from_mime("data:image/webp"), Ok("webp"));
    assert_eq!(icon_extension_from_mime("data:image/x-icon"), Ok("ico"));
    assert_eq!(icon_extension_from_mime("data:image/vnd.microsoft.icon"), Ok("ico"));
    assert_eq!(icon_extension_from_mime("data:image/bmp"), Ok("bmp"));
    assert_eq!(
        icon_extension_from_mime("data:text/html").unwrap_err(),
        "图标仅支持 png、jpg、jpeg、gif、webp、ico、bmp"
    );
}

#[test]
fn images_are_read_as_data_urls() {
    let read = |name: &str, what: ImageFile| read_image_as_data_url(&LoadedImage { path: path(name), what });
    assert_eq!(read("/a.png", ImageFile::Read(vec![1, 2, 3])).unwrap(), "data:image/png;base64,AQID");
    assert_eq!(read("/a.JPEG", ImageFile::Read(vec![1])).unwrap(), "data:image/jpeg;base64,AQ==");
    assert_eq!(read("/a.ico", ImageFile::Read(vec![])).unwrap(), "data:image/x-icon;base64,");
    assert_eq!(read("/a.png", ImageFile::Missing).unwrap_err(), "图标文件不存在");
    assert_eq!(read("/a.svg", ImageFile::Missing).unwrap_err(), "图标文件不存在");
    assert_eq!(
        read("/a.svg", ImageFile::Unreadable("x".to_string())).unwrap_err(),
        "图标仅支持 png、jpg、jpeg、gif、webp、ico、bmp"
    );
    assert_eq!(read("/a.png", ImageFile::Unreadable("x".to_string())).unwrap_err(), "x");
}

#[test]
fn data_urls_are_decoded() {
    assert_eq!(
        decode_image_data_url(" data:image/png;base64,AQID "),
        Ok(("data:image/png".to_string(), vec![1, 2, 3]))
    );
    assert_eq!(decode_image_data_url("AQID").unwrap_err(), "图标图片格式无效");
    assert!(decode_image_data_url("data:text/css;base64,AQID").is_err());
    assert_eq!(
        decode_image_data_url("data:image/png;base64,").unwrap_err(),
        "图标图片内容无效"
    );
}

#[test]
fn icons_are_validated() {
    assert_eq!(
        validate_image_data_url(" data:image/png;base64,AQID\n").unwrap(),
        "data:image/png;base64,AQID"
    );
    let long = format!("data:image/png;base64,{}", "A".repeat(4 * 1024 * 1024));
    assert_eq!(validate_image_data_url(&long).unwrap_err(), "图标图片不能超过 4 MB");
    assert!(validate_image_data_url("x").is_err());
}

fn app(icon: Option<&str>) -> ManagedApp {
    ManagedApp {
        id: "a".to_string(),
        name: "a".to_string(),
        category_id: "c".to_string(),
        category_name: "c".to_string(),
        folder_path: "/l/Apps/c/a".to_string(),
        executable_path: None,
        executable_candidates: vec![],
        icon_data_url: icon.map(|s| s.to_string()),
        favorite: false,
        note: String::new(),
        launch_count: 0,
        last_launched_at: None,
    }
}

#[test]
fn icons_survive_saving_and_loading() {
    for url in [
        "data:image/png;base64,AQID",
        "data:image/jpeg;base64,AQI=",
        "data:image/x-icon;base64,AQ==",
        "data:image/webp;base64,AQID",
    ] {
        let mut a = app(Some(url));
        assert!(stores_icon(&a));
        let file = persist_icon_reference(&mut a, &path("/l/Apps/c/a")).unwrap().unwrap();
        assert_eq!(a.icon_data_url, Some(path_to_string(&file.path)));
        assert_eq!(file.obsolete.len(), 6);
        assert!(!stores_icon(&a));
        let mut d = new_library_data(&path("/l"));
        d.apps.push(a);
        let image = LoadedImage { path: file.path, what: ImageFile::Read(file.bytes) };
        hydrate_icon_data_urls(&mut d, &vec![Some(image)]);
        assert_eq!(d.apps[0].icon_data_url, Some(url.to_string()));
    }
}

#[test]
fn icons_without_data_are_left_alone() {
    let mut none = app(None);
    assert!(persist_icon_reference(&mut none, &path("/f")).unwrap().is_none());
    let mut kept = app(Some("/f/icon.png"));
    assert!(persist_icon_reference(&mut kept, &path("/f")).unwrap().is_none());
    assert_eq!(kept.icon_data_url, Some("/f/icon.png".to_string()));
    let mut broken = app(Some("data:image/png;base64,***"));
    assert!(persist_icon_reference(&mut broken, &path("/f")).is_err());
    assert_eq!(broken.icon_data_url, Some("data:image/png;base64,***".to_string()));
    let mut d = new_library_data(&path("/l"));
    d.apps.push(app(Some("data:image/png;base64,AQID")));
    d.apps.push(app(Some("/gone.png")));
    d.apps.push(app(None));
    let gone = LoadedImage { path: path("/gone.png"), what: ImageFile::Missing };
    hydrate_icon_data_urls(&mut d, &vec![None, Some(gone), None]);
    assert_eq!(d.apps[0].icon_data_url, Some("data:image/png;base64,AQID".to_string()));
    assert_eq!(d.apps[1].icon_data_url, None);
    assert_eq!(d.apps[2].icon_data_url, None);
}
