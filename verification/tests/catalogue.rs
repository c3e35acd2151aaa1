use appmanager::actions::{
    check_app_name, check_move, delete_app_files, launch_app_inner, launch_target, move_app_files,
    move_app_to_category, path_change, plan_move, reveal_path, update_app_info,
    update_favorite_order, PathChange, PlacedPath, ProgramChange, Removal, UpdateAppInfoRequest,
};
use appmanager::catalog::{
    create_category, delete_app, delete_category, ensure_category_by_name, find_app,
    remove_review_apps_by_paths, require_app, require_category, toggle_favorite,
};
use appmanager::executables::{
    executable_stem_matches, find_executables, is_executable_file,
    normalize_executable_candidates, pick_executable, searches_folder, FolderEntry,
};
use appmanager::fnv::make_id;
use appmanager::icons::{ImageFile, LoadedImage};
use appmanager::layout::ReviewFolders;
use appmanager::model::{AppData, Category, ManagedApp};
use appmanager::paths::{path_to_string, FilePath, PartKind, PathPart};
use appmanager::scan::{
    scan_app_path, scan_app_paths, scan_categories, upsert_scanned_app, FoundCategory, FoundPath,
    Observed,
};
use appmanager::settings::new_library_data;

fn part(kind: PartKind, lead: &str, shown: &str) -> PathPart {
    PathPart {
        kind,
        name: shown.as_bytes().to_vec(),
        lead: lead.to_string(),
        shown: shown.to_string(),
    }
}

fn path(s: &str) -> FilePath {
    let mut parts = Vec::new();
    let mut rest = s;
    if let Some(tail) = s.strip_prefix('/') {
        parts.push(part(PartKind::Root, "", "/"));
        rest = tail;
    }
    for (i, piece) in rest.split('/').filter(|p| !p.is_empty()).enumerate() {
        let kind = if piece == ".." { PartKind::Parent } else { PartKind::Normal };
        parts.push(part(kind, if i == 0 { "" } else { "/" }, piece));
    }
    FilePath { parts, tail: String::new(), separator: '/' }
}

fn placed(s: &str) -> PlacedPath {
    PlacedPath { path: path(s), resolved: path(s) }
}

fn texts(v: &[FilePath]) -> Vec<String> {
    v.iter().map(path_to_string).collect()
}

fn category(name: &str) -> Category {
    Category {
        id: format!("id-{name}"),
        name: name.to_string(),
        path: format!("/l/Apps/{name}"),
        created_at: 1,
        updated_at: 1,
    }
}

fn app(id: &str, category: &str, favorite: bool) -> ManagedApp {
    ManagedApp {
        id: id.to_string(),
        name: format!("name {id}"),
        category_id: format!("id-{category}"),
        category_name: category.to_string(),
        folder_path: format!("/l/Apps/{category}/{id}"),
        executable_path: Some(format!("/l/Apps/{category}/{id}/{id}.exe")),
        executable_candidates: vec![format!("/l/Apps/{category}/{id}/{id}.exe")],
        icon_data_url: None,
        favorite,
        note: "note".to_string(),
        launch_count: 4,
        last_launched_at: None,
    }
}

fn data() -> AppData {
    let mut d = new_library_data(&path("/l"));
    d.categories.push(category("dev"));
    d.categories.push(category("web"));
    d.apps.push(app("a", "dev", true));
    d.apps.push(app("b", "dev", false));
    d.apps.push(app("c", "web", true));
    d
}

const NONE: ReviewFolders = ReviewFolders { pending: false, legacy: false };

fn ids(d: &AppData) -> Vec<String> {
    d.apps.iter().map(|a| a.id.clone()).collect()
}

#[test]
fn a_new_library_is_empty() {
    let d = new_library_data(&path("/l"));
    assert_eq!(d.library_path, "/l");
    assert!(d.categories.is_empty());
    assert!(d.apps.is_empty());
    assert_eq!(d.settings.run_mode, "local");
}

#[test]
fn categories_are_created_once() {
    let mut d = data();
    let folder = create_category(&mut d, " 办公 ", &path("/l"), NONE, 9).unwrap();
    assert_eq!(path_to_string(&folder), "/l/Apps/ban-gong");
    let made = &d.categories[2];
    assert_eq!(made.name, "办公");
    assert_eq!(made.id, make_id("办公"));
    assert_eq!(made.path, "/l/Apps/ban-gong");
    assert_eq!((made.created_at, made.updated_at), (9, 9));
    assert_eq!(
        create_category(&mut d, "办公", &path("/l"), NONE, 9).unwrap_err(),
        "分类名称已存在"
    );
    assert!(create_category(&mut d, "", &path("/l"), NONE, 9).is_err());
    assert!(create_category(&mut d, "a|b", &path("/l"), NONE, 9).is_err());
    assert_eq!(d.categories.len(), 3);
}

#[test]
fn categories_are_found_or_made() {
    let mut d = data();
    let (found, folder) = ensure_category_by_name(&mut d, "dev", &path("/l"), NONE, 9).unwrap();
    assert_eq!(found.id, "id-dev");
    assert!(folder.is_none());
    let (made, folder) = ensure_category_by_name(&mut d, "新", &path("/l"), NONE, 9).unwrap();
    assert_eq!(made.path, "/l/Apps/xin");
    assert_eq!(path_to_string(&folder.unwrap()), "/l/Apps/xin");
    assert_eq!(d.categories.len(), 3);
    let (again, folder) = ensure_category_by_name(&mut d, "新", &path("/l"), NONE, 10).unwrap();
    assert_eq!((again.updated_at, folder.is_none()), (9, true));
    assert!(ensure_category_by_name(&mut d, " ", &path("/l"), NONE, 9).is_err());
}

#[test]
fn the_pending_category_follows_its_folder() {
    let mut d = data();
    let legacy = ReviewFolders { pending: false, legacy: true };
    ensure_category_by_name(&mut d, "未审核软件", &path("/l"), legacy, 5).unwrap();
    assert_eq!(d.categories[2].path, "/l/Apps/未审核软件");
    let both = ReviewFolders { pending: true, legacy: true };
    let (c, folder) = ensure_category_by_name(&mut d, "未审核软件", &path("/l"), both, 6).unwrap();
    assert_eq!(c.path, "/l/Apps/review-pending");
    assert_eq!((c.created_at, c.updated_at), (5, 6));
    assert!(folder.is_some());
    assert_eq!(d.categories[2].path, "/l/Apps/review-pending");
}

#[test]
fn a_deleted_category_takes_its_applications_along() {
    let mut d = data();
    assert_eq!(
        delete_category(&mut d, "x", &path("/l/Apps"), &None).unwrap_err(),
        "分类不存在"
    );
    let outside = Some(path("/elsewhere"));
    assert!(delete_category(&mut d, "id-dev", &path("/l/Apps"), &outside).is_err());
    assert_eq!(d.apps.len(), 3);
    let inside = Some(path("/l/Apps/dev"));
    assert!(delete_category(&mut d, "id-dev", &path("/l/Apps"), &inside).is_ok());
    assert_eq!(ids(&d), vec!["c"]);
    assert_eq!(d.categories.len(), 1);
    assert!(require_category(&d, "id-dev").is_err());
    assert_eq!(require_category(&d, "id-web").unwrap().name, "web");
}

#[test]
fn favourites_toggle_back() {
    let mut d = data();
    toggle_favorite(&mut d, "b").unwrap();
    assert!(d.apps[1].favorite);
    toggle_favorite(&mut d, "b").unwrap();
    assert!(!d.apps[1].favorite);
    assert!(d.apps[0].favorite);
    assert_eq!(toggle_favorite(&mut d, "z").unwrap_err(), "软件不存在");
}

#[test]
fn a_deleted_application_is_gone() {
    let mut d = data();
    delete_app(&mut d, "a").unwrap();
    assert_eq!(ids(&d), vec!["b", "c"]);
    assert!(delete_app(&mut d, "a").is_err());
    assert!(find_app(&d.apps, "a").is_none());
    assert_eq!(find_app(&d.apps, "c"), Some(1));
    assert_eq!(require_app(&d, "b").unwrap().name, "name b");
}

#[test]
fn applications_of_removed_folders_leave_the_catalogue() {
    let mut d = data();
    remove_review_apps_by_paths(&mut d, &vec![], false);
    assert_eq!(d.apps.len(), 3);
    remove_review_apps_by_paths(&mut d, &vec!["/l\\Apps/dev/b".to_string()], true);
    assert_eq!(ids(&d), vec!["a", "c"]);
    remove_review_apps_by_paths(&mut d, &vec!["/l/Apps/web".to_string()], false);
    assert_eq!(ids(&d), vec!["a", "c"]);
}

#[test]
fn the_order_of_favourites_holds_each_once() {
    let mut d = data();
    d.apps.push(app("d", "web", true));
    let asked = vec!["d", "x", "b", "d", "a"].into_iter().map(String::from).collect();
    update_favorite_order(&mut d, &asked);
    assert_eq!(d.settings.favorite_order, vec!["d", "a", "c"]);
    update_favorite_order(&mut d, &vec![]);
    assert_eq!(d.settings.favorite_order, vec!["a", "c", "d"]);
}

#[test]
fn launches_are_counted() {
    let mut d = data();
    assert_eq!(launch_target(&d, "a").unwrap(), "/l/Apps/dev/a/a.exe");
    let result = launch_app_inner(&mut d, "a", true, Ok(()), 99).unwrap();
    assert_eq!((result.launch_count, result.last_launched_at), (5, 99));
    assert_eq!(result.app_id, "a");
    assert_eq!(d.apps[0].launch_count, 5);
    assert_eq!(d.apps[0].last_launched_at, Some(99));
}

#[test]
fn failed_launches_count_for_nothing() {
    let mut d = data();
    d.apps[1].executable_path = None;
    assert_eq!(launch_app_inner(&mut d, "z", true, Ok(()), 1).unwrap_err(), "软件不存在");
    assert_eq!(
        launch_app_inner(&mut d, "b", true, Ok(()), 1).unwrap_err(),
        "该软件还没有设置启动程序"
    );
    assert_eq!(
        launch_app_inner(&mut d, "a", false, Ok(()), 1).unwrap_err(),
        "启动程序不存在，请重新扫描或编辑软件信息"
    );
    assert_eq!(
        launch_app_inner(&mut d, "a", true, Err("no".to_string()), 1).unwrap_err(),
        "no"
    );
    assert!(launch_target(&d, "z").is_err());
    assert!(launch_target(&d, "b").is_err());
    assert_eq!(d.apps[0].launch_count, 4);
}

fn request(name: &str) -> UpdateAppInfoRequest {
    UpdateAppInfoRequest {
        app_id: "a".to_string(),
        name: name.to_string(),
        note: " n ".to_string(),
        icon_path: None,
        icon_data_url: None,
        executable_path: None,
    }
}

#[test]
fn entered_paths_are_cleaned() {
    assert!(matches!(path_change(&None, false), PathChange::Keep));
    assert!(matches!(path_change(&Some("  ".to_string()), false), PathChange::Clear));
    match path_change(&Some(" a/b ".to_string()), true) {
        PathChange::Choose(p) => assert_eq!(p, "a\\b"),
        _ => panic!("a path is chosen"),
    }
}

#[test]
fn application_names_are_checked() {
    assert_eq!(check_app_name(" Tool "), Ok("Tool".to_string()));
    assert_eq!(check_app_name(" \t").unwrap_err(), "软件名称不能为空");
}

#[test]
fn applications_are_edited() {
    let mut d = data();
    let apps = path("/l/Apps");
    let keep = ProgramChange::Keep;
    update_app_info(&mut d, &request(" New "), &apps, &keep, &None).unwrap();
    assert_eq!((d.apps[0].name.as_str(), d.apps[0].note.as_str()), ("New", "n"));
    assert_eq!(
        update_app_info(&mut d, &request(" "), &apps, &keep, &None).unwrap_err(),
        "软件名称不能为空"
    );
    let mut missing = request("x");
    missing.app_id = "zz".to_string();
    assert_eq!(
        update_app_info(&mut d, &missing, &apps, &keep, &None).unwrap_err(),
        "软件不存在"
    );
    let chosen = ProgramChange::Choose(placed("/l/Apps/dev/a/A.EXE"), true);
    update_app_info(&mut d, &request("y"), &apps, &chosen, &None).unwrap();
    assert_eq!(d.apps[0].executable_path, Some("/l/Apps/dev/a/A.EXE".to_string()));
    assert_eq!(
        d.apps[0].executable_candidates,
        vec!["/l/Apps/dev/a/A.EXE", "/l/Apps/dev/a/a.exe"]
    );
    update_app_info(&mut d, &request("y"), &apps, &ProgramChange::Clear, &None).unwrap();
    assert_eq!(d.apps[0].executable_path, None);
}

#[test]
fn edits_that_cannot_be_are_refused() {
    let mut d = data();
    let apps = path("/l/Apps");
    let outside = ProgramChange::Choose(placed("/x/a.exe"), true);
    let gone = ProgramChange::Choose(placed("/l/Apps/dev/a/x.exe"), false);
    let text = ProgramChange::Choose(placed("/l/Apps/dev/a/x.txt"), true);
    assert_eq!(
        update_app_info(&mut d, &request("y"), &apps, &outside, &None).unwrap_err(),
        "目标路径不在软件库 Apps 目录内，已取消操作"
    );
    assert_eq!(
        update_app_info(&mut d, &request("y"), &apps, &gone, &None).unwrap_err(),
        "启动程序不存在"
    );
    assert_eq!(
        update_app_info(&mut d, &request("y"), &apps, &text, &None).unwrap_err(),
        "启动程序必须是 .exe 文件"
    );
    assert_eq!(d.apps[0].name, "name a");
}

#[test]
fn icons_are_edited() {
    let mut d = data();
    let apps = path("/l/Apps");
    let keep = ProgramChange::Keep;
    let image = Some(LoadedImage { path: path("/i.PNG"), what: ImageFile::Read(vec![1, 2, 3]) });
    update_app_info(&mut d, &request("y"), &apps, &keep, &image).unwrap();
    assert_eq!(d.apps[0].icon_data_url, Some("data:image/png;base64,AQID".to_string()));
    let mut with_url = request("y");
    with_url.icon_data_url = Some(" data:image/gif;base64,AQID ".to_string());
    update_app_info(&mut d, &with_url, &apps, &keep, &image).unwrap();
    assert_eq!(d.apps[0].icon_data_url, Some("data:image/gif;base64,AQID".to_string()));
    with_url.icon_data_url = Some("nothing".to_string());
    assert_eq!(
        update_app_info(&mut d, &with_url, &apps, &keep, &None).unwrap_err(),
        "图标图片格式无效"
    );
    let missing = Some(LoadedImage { path: path("/i.png"), what: ImageFile::Missing });
    assert_eq!(
        update_app_info(&mut d, &request("y"), &apps, &keep, &missing).unwrap_err(),
        "图标文件不存在"
    );
    assert_eq!(d.apps[0].icon_data_url, Some("data:image/gif;base64,AQID".to_string()));
}

#[test]
fn deleting_files_spares_a_shared_folder() {
    let apps = path("/l/Apps");
    let alone = delete_app_files(&apps, &placed("/l/Apps/dev"), &Some(placed("/l/Apps/dev/a.exe")));
    assert_eq!(alone.unwrap(), Removal::Program);
    let deep = delete_app_files(&apps, &placed("/l/Apps/dev/a"), &Some(placed("/l/Apps/dev/a/b/a.exe")));
    assert_eq!(deep.unwrap(), Removal::Folder);
    assert_eq!(delete_app_files(&apps, &placed("/l/Apps/dev/a"), &None).unwrap(), Removal::Folder);
    assert!(delete_app_files(&apps, &placed("/x"), &None).is_err());
    assert!(delete_app_files(&apps, &placed("/l/Apps/a"), &Some(placed("/x.exe"))).is_err());
}

#[test]
fn applications_move_between_categories() {
    let mut d = data();
    assert!(plan_move(&d, "a", "id-dev").unwrap().is_none());
    assert_eq!(plan_move(&d, "a", "q").unwrap_err(), "目标分类不存在");
    assert_eq!(plan_move(&d, "q", "id-web").unwrap_err(), "软件不存在");
    let (app, target) = plan_move(&d, "a", "id-web").unwrap().unwrap();
    let plan = move_app_files(
        &path(&app.folder_path),
        &app.executable_path.as_ref().map(|p| path(p)),
        false,
        &path(&target.path),
    )
    .unwrap();
    assert!(!plan.program_alone);
    assert_eq!(path_to_string(&plan.from), "/l/Apps/dev/a");
    assert_eq!(path_to_string(&plan.to), "/l/Apps/web/a");
    assert_eq!(check_move(&plan, true).unwrap_err(), "目标分类中已存在同名软件文件夹");
    assert!(check_move(&plan, false).is_ok());
    move_app_to_category(&mut d, "a", &target, &plan).unwrap();
    assert_eq!(d.apps[0].category_id, "id-web");
    assert_eq!(d.apps[0].category_name, "web");
    assert_eq!(d.apps[0].folder_path, "/l/Apps/web/a");
    assert_eq!(d.apps[0].executable_path, Some("/l/Apps/web/a/a.exe".to_string()));
    assert!(move_app_to_category(&mut d, "q", &target, &plan).is_err());
}

#[test]
fn a_program_that_shares_its_folder_moves_alone() {
    let plan = move_app_files(
        &path("/l/Apps/dev"),
        &Some(path("/l/Apps/dev/x.exe")),
        true,
        &path("/l/Apps/web"),
    )
    .unwrap();
    assert!(plan.program_alone);
    assert_eq!(path_to_string(&plan.folder), "/l/Apps/web");
    assert_eq!(path_to_string(plan.executable.as_ref().unwrap()), "/l/Apps/web/x.exe");
    assert_eq!(check_move(&plan, true).unwrap_err(), "目标分类中已存在同名软件文件");
    let outside = move_app_files(&path("/l/Apps/dev/a"), &Some(path("/l/y.exe")), true, &path("/t"));
    assert!(outside.unwrap().executable.is_none());
    let nameless = move_app_files(&path("/"), &None, false, &path("/t"));
    assert_eq!(nameless.unwrap_err(), "无法读取软件文件夹名");
    let no_file = move_app_files(&path("/l"), &Some(path("/l/..")), true, &path("/t"));
    assert_eq!(no_file.unwrap_err(), "无法读取软件文件名");
}

#[test]
fn paths_are_revealed_where_they_lead_somewhere() {
    assert!(reveal_path(true).is_ok());
    assert_eq!(reveal_path(false).unwrap_err(), "路径不存在");
}

#[test]
fn programs_are_told_by_their_extension() {
    assert!(is_executable_file(&path("/a/b.EXE")));
    assert!(!is_executable_file(&path("/a/b.txt")));
    assert!(!is_executable_file(&path("/a/exe")));
    assert!(executable_stem_matches(&path("/a/01-We Chat.exe"), "wechat"));
    assert!(!executable_stem_matches(&path("/a/qq.exe"), "wechat"));
}

#[test]
fn programs_are_searched_three_folders_deep() {
    let deep = |n: usize, name: &str| {
        let mut entry = FolderEntry::File(path(name));
        for _ in 0..n {
            entry = FolderEntry::Folder(vec![entry]);
        }
        entry
    };
    let entries = vec![
        deep(3, "/f/1/2/3/z.exe"),
        deep(4, "/f/1/2/3/4/y.exe"),
        deep(0, "/f/b.exe"),
        deep(0, "/f/a.txt"),
        deep(1, "/f/1/c.exe"),
    ];
    assert_eq!(
        texts(&find_executables(&entries)),
        vec!["/f/1/2/3/z.exe", "/f/1/c.exe", "/f/b.exe"]
    );
    assert!(searches_folder(3));
    assert!(!searches_folder(4));
}

#[test]
fn the_program_that_starts_an_application_is_picked() {
    let folder = path("/f/01-WeChat");
    let pick = |name: &str, list: &[&str]| {
        let v: Vec<FilePath> = list.iter().map(|s| path(s)).collect();
        pick_executable(name, &folder, &v).map(|p| path_to_string(&p))
    };
    let some = |s: &str| Some(s.to_string());
    assert_eq!(pick("x", &[]), None);
    assert_eq!(pick("x", &["/f/any/one.exe"]), some("/f/any/one.exe"));
    assert_eq!(
        pick("01-WeChat", &["/f/01-WeChat/unins.exe", "/f/01-WeChat/bin/wechat.exe"]),
        some("/f/01-WeChat/bin/wechat.exe")
    );
    assert_eq!(
        pick("01-WeChat", &["/f/01-WeChat/unins.exe", "/f/01-WeChat/WeChatApp.exe"]),
        some("/f/01-WeChat/WeChatApp.exe")
    );
    assert_eq!(
        pick("中文", &["/f/01-WeChat/sub/a.exe", "/f/01-WeChat/b.exe"]),
        some("/f/01-WeChat/b.exe")
    );
    assert_eq!(pick("q", &["/f/x/a.exe", "/f/x/b.exe"]), None);
}

#[test]
fn candidates_are_listed_with_the_chosen_one() {
    let all = vec![path("/f/b.exe"), path("/f/a.exe"), path("/f/b.exe")];
    assert_eq!(
        normalize_executable_candidates(&Some(path("/f/c.exe")), &all),
        vec!["/f/a.exe", "/f/b.exe", "/f/c.exe"]
    );
    assert_eq!(
        normalize_executable_candidates(&Some(path("/f/a.exe")), &all),
        vec!["/f/a.exe", "/f/b.exe"]
    );
    assert!(normalize_executable_candidates(&None, &vec![]).is_empty());
}

fn found(s: &str, what: Observed) -> FoundPath {
    FoundPath { path: path(s), resolved: path(s), what }
}

fn folder_with(files: &[&str]) -> Observed {
    Observed::Folder(Ok(files.iter().map(|f| FolderEntry::File(path(f))).collect()))
}

#[test]
fn a_scan_adds_and_updates() {
    let mut d = data();
    let dev = category("dev");
    let files = vec![path("/l/Apps/dev/n/n.exe")];
    let chosen = Some(path("/l/Apps/dev/n/n.exe"));
    let folder = path("/l/Apps/dev/n");
    assert!(!upsert_scanned_app(&mut d, &dev, "n", &folder, &chosen, &files, false));
    assert_eq!(d.apps[3].id, make_id("/l/Apps/dev/n/n.exe"));
    assert_eq!(d.apps[3].executable_path, Some("/l/Apps/dev/n/n.exe".to_string()));
    assert!(!d.apps[3].favorite);
    d.apps[3].favorite = true;
    d.apps[3].note = "mine".to_string();
    d.apps[3].launch_count = 7;
    assert!(upsert_scanned_app(&mut d, &dev, "n2", &folder, &chosen, &files, false));
    assert_eq!(d.apps.len(), 4);
    assert_eq!(d.apps[3].name, "n2");
    assert!(d.apps[3].favorite);
    assert_eq!((d.apps[3].note.as_str(), d.apps[3].launch_count), ("mine", 7));
}

#[test]
fn a_program_that_turns_up_joins_its_folder() {
    let mut d = data();
    let dev = category("dev");
    let folder = path("/l/Apps/dev/n");
    assert!(!upsert_scanned_app(&mut d, &dev, "n", &folder, &None, &vec![], false));
    assert_eq!(d.apps[3].id, make_id("/l/Apps/dev/n"));
    assert_eq!(d.apps[3].executable_path, None);
    let chosen = Some(path("/l/Apps/dev/n/n.exe"));
    assert!(upsert_scanned_app(&mut d, &dev, "n", &folder, &chosen, &vec![], false));
    assert_eq!(d.apps.len(), 4);
    assert_eq!(d.apps[3].id, make_id("/l/Apps/dev/n/n.exe"));
}

#[test]
fn a_scan_of_paths_tells_what_it_met() {
    let mut d = data();
    let dev = category("dev");
    let apps = path("/l/Apps");
    let list = vec![
        found("/l/Apps/dev/gone", Observed::Missing),
        found("/l/Apps/dev/one", folder_with(&["/l/Apps/dev/one/one.exe"])),
        found("/l/Apps/dev/two", folder_with(&["/l/Apps/dev/two/s/x.exe", "/l/Apps/dev/two/s/y.exe"])),
        found("/l/Apps/dev/none", folder_with(&[])),
        found("/l/Apps/dev/solo.exe", Observed::File),
        found("/l/Apps/dev/readme.txt", Observed::File),
        found("/l/Apps/dev/link", Observed::Other),
    ];
    let result = scan_app_paths(&apps, &mut d, &dev, &list, false).unwrap();
    assert_eq!((result.added, result.updated), (4, 0));
    assert_eq!(result.issues.len(), 2);
    assert_eq!(result.issues[0].reason, "检测到多个 .exe，需要后续选择主程序");
    assert_eq!(
        result.issues[0].candidates,
        vec!["/l/Apps/dev/two/s/x.exe", "/l/Apps/dev/two/s/y.exe"]
    );
    assert_eq!(result.issues[1].reason, "未找到 .exe 文件");
    assert_eq!(result.issues[1].folder_path, "/l/Apps/dev/none");
    assert_eq!(result.data.apps.len(), 7);
    assert_eq!(d.apps[6].name, "solo");
    assert_eq!(d.apps[6].folder_path, "/l/Apps/dev");
    let again = scan_app_paths(&apps, &mut d, &dev, &list, false).unwrap();
    assert_eq!((again.added, again.updated), (0, 4));
    assert_eq!(d.apps.len(), 7);
}

#[test]
fn several_programs_are_an_issue_though_one_is_picked() {
    let mut d = data();
    let dev = category("dev");
    let apps = path("/l/Apps");
    let both = ["/l/Apps/dev/tool/setup.exe", "/l/Apps/dev/tool/tool.exe"];
    let tool = found("/l/Apps/dev/tool", folder_with(&both));
    let (updated, issue) = scan_app_path(&apps, &mut d, &dev, &tool, false).unwrap().unwrap();
    assert!(!updated);
    let issue = issue.unwrap();
    assert_eq!(issue.folder_path, "/l/Apps/dev/tool");
    assert_eq!(issue.reason, "检测到多个 .exe，需要后续选择主程序");
    assert_eq!(issue.candidates, both);
    assert_eq!(d.apps[3].executable_path, Some("/l/Apps/dev/tool/tool.exe".to_string()));

    let scanned = vec![FoundCategory {
        category: category("dev"),
        path: path("/l/Apps/dev"),
        resolved: path("/l/Apps/dev"),
        entries: vec![
            tool,
            found("/l/Apps/dev/one", folder_with(&["/l/Apps/dev/one/one.exe"])),
        ],
        failure: None,
    }];
    let result = scan_categories(&apps, &mut d, &scanned, false).unwrap();
    assert_eq!((result.added, result.updated), (1, 1));
    assert_eq!(result.data.apps.len(), 5);
    assert_eq!(result.issues.len(), 1);
    assert_eq!(result.issues[0].candidates, both);
}

#[test]
fn a_scan_ends_at_the_first_failure() {
    let mut d = data();
    let dev = category("dev");
    let apps = path("/l/Apps");
    let list = vec![
        found("/l/Apps/dev/one.exe", Observed::File),
        found("/x", folder_with(&[])),
        found("/l/Apps/dev/two.exe", Observed::File),
    ];
    assert_eq!(
        scan_app_paths(&apps, &mut d, &dev, &list, false).unwrap_err(),
        "目标路径不在软件库 Apps 目录内，已取消操作"
    );
    assert_eq!(d.apps.len(), 4);
    let unreadable = found("/l/Apps/dev/u", Observed::Folder(Err("denied".to_string())));
    assert_eq!(
        scan_app_path(&apps, &mut d, &dev, &unreadable, false).unwrap_err(),
        "denied"
    );
    let nameless = found("/l/Apps/dev/  ", folder_with(&[]));
    assert!(scan_app_path(&apps, &mut d, &dev, &nameless, false).unwrap().is_none());
}

#[test]
fn a_scan_of_categories_reads_their_folders() {
    let mut d = data();
    let apps = path("/l/Apps");
    let list = vec![
        FoundCategory {
            category: category("dev"),
            path: path("/l/Apps/dev"),
            resolved: path("/l/Apps/dev"),
            entries: vec![
                found("/l/Apps/dev/one", folder_with(&["/l/Apps/dev/one/x.exe"])),
                found("/l/Apps/dev/solo.EXE", Observed::File),
                found("/l/Apps/dev/  ", folder_with(&[])),
            ],
            failure: None,
        },
        FoundCategory {
            category: category("web"),
            path: path("/l/Apps/web"),
            resolved: path("/l/Apps/web"),
            entries: vec![found("/l/Apps/web/empty", folder_with(&[]))],
            failure: None,
        },
    ];
    let result = scan_categories(&apps, &mut d, &list, false).unwrap();
    assert_eq!((result.added, result.updated, result.issues.len()), (3, 0, 1));
    assert_eq!(d.apps[4].folder_path, "/l/Apps/dev");
    assert_eq!(d.apps[5].category_name, "web");
    let mut all = ids(&d);
    all.sort();
    all.dedup();
    assert_eq!(all.len(), d.apps.len());
    let broken = vec![FoundCategory {
        category: category("dev"),
        path: path("/l/Apps/dev"),
        resolved: path("/l/Apps/dev"),
        entries: vec![found("/l/Apps/dev/late.exe", Observed::File)],
        failure: Some("cut".to_string()),
    }];
    assert_eq!(scan_categories(&apps, &mut d, &broken, false).unwrap_err(), "cut");
    assert_eq!(d.apps.len(), 7);
    let outside = vec![FoundCategory {
        category: category("dev"),
        path: path("/x"),
        resolved: path("/x"),
        entries: vec![],
        failure: None,
    }];
    assert!(scan_categories(&apps, &mut d, &outside, false).is_err());
}

fn distinct_ids(d: &AppData) -> bool {
    let mut all = ids(d);
    all.sort();
    let n = all.len();
    all.dedup();
    all.len() == n
}

#[test]
fn ids_stay_distinct_whatever_is_done() {
    let mut d = data();
    toggle_favorite(&mut d, "a").unwrap();
    launch_app_inner(&mut d, "b", true, Ok(()), 1).unwrap();
    update_app_info(&mut d, &request("a"), &path("/l/Apps"), &ProgramChange::Keep, &None).unwrap();
    assert_eq!(ids(&d), vec!["a", "b", "c"]);
    assert!(distinct_ids(&d));
    delete_app(&mut d, "b").unwrap();
    remove_review_apps_by_paths(&mut d, &vec!["/l/Apps/web/c".to_string()], false);
    assert_eq!(ids(&d), vec!["a"]);
    delete_category(&mut d, "id-dev", &path("/l/Apps"), &None).unwrap();
    assert!(d.apps.is_empty());
    assert_eq!(d.categories.len(), 1);
}
