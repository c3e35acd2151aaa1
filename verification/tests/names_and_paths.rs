use appmanager::layout::{
    apps_path, app_icon_path, category_path_for_name, category_storage_path, data_path,
    is_review_metadata_file, legacy_pending_path, library_root, package_cache_dir, pending_path,
    review_dir_path, review_meta_path, ReviewFolders,
};
use appmanager::names::{
    category_folder_name, category_slug, is_cjk_char, normalize_name, sanitize_file_name, slug_of,
    strip_sort_prefix, unique_file_name, validate_category_name,
};
use appmanager::order::{sort, Ranked};
use appmanager::paths::{
    ensure_inside_apps_dir, ensure_inside_review_dir, native_path_to_string,
    normalize_incoming_path, path_to_string, FilePath, PartKind, PathPart,
};

fn part(kind: PartKind, lead: &str, shown: &str) -> PathPart {
    PathPart {
        kind,
        name: shown.as_bytes().to_vec(),
        lead: lead.to_string(),
        shown: shown.to_string(),
    }
}

fn path(s: &str) -> FilePath {
    let mut parts = Vec::new();
    let mut rest = s;
    if let Some(tail) = s.strip_prefix('/') {
        parts.push(part(PartKind::Root, "", "/"));
        rest = tail;
    }
    for (i, piece) in rest.split('/').filter(|p| !p.is_empty()).enumerate() {
        let kind = if piece == ".." { PartKind::Parent } else { PartKind::Normal };
        parts.push(part(kind, if i == 0 { "" } else { "/" }, piece));
    }
    FilePath { parts, tail: String::new(), separator: '/' }
}

fn windows_path(s: &str) -> FilePath {
    let mut parts = vec![part(PartKind::Prefix, "", &s[..2])];
    let rest = &s[2..];
    if rest.starts_with('\\') {
        parts.push(part(PartKind::Root, "", "\\"));
    }
    for (i, piece) in rest.split('\\').filter(|p| !p.is_empty()).enumerate() {
        parts.push(part(PartKind::Normal, if i == 0 { "" } else { "\\" }, piece));
    }
    FilePath { parts, tail: String::new(), separator: '\\' }
}

fn shown(p: &FilePath) -> String {
    path_to_string(p)
}

#[test]
fn sort_numbers_are_stripped() {
    assert_eq!(strip_sort_prefix(" 01-办公 "), "办公");
    assert_eq!(strip_sort_prefix("2. Tools"), "Tools");
    assert_eq!(strip_sort_prefix("10_x"), "x");
    assert_eq!(strip_sort_prefix("3 d"), "d");
    assert_eq!(strip_sort_prefix("7zip"), "7zip");
    assert_eq!(strip_sort_prefix("2024"), "2024");
    assert_eq!(strip_sort_prefix("-x"), "-x");
    assert_eq!(strip_sort_prefix("1-"), "");
}

#[test]
fn names_are_matched_by_letters_and_digits() {
    assert_eq!(normalize_name("Visual Studio 2022 (中)"), "visualstudio2022");
    assert_eq!(normalize_name("中文"), "");
}

#[test]
fn names_are_normalized_piece_by_piece() {
    for (a, b) in [("Ab ", "9-Z"), ("", "X y"), ("中A", "文"), ("q", "")] {
        let whole = normalize_name(&format!("{a}{b}"));
        assert_eq!(whole, format!("{}{}", normalize_name(a), normalize_name(b)));
        assert_eq!(normalize_name(&whole), whole);
        assert!(whole.chars().all(|c| c.is_ascii_lowercase() || c.is_ascii_digit()));
    }
}

#[test]
fn file_names_lose_what_windows_refuses() {
    assert_eq!(sanitize_file_name("a<b>c:d\"e/f\\g|h?i*j"), "a_b_c_d_e_f_g_h_i_j");
    assert_eq!(sanitize_file_name("  name.zip "), "name.zip");
    assert_eq!(sanitize_file_name("   "), "app");
    assert_eq!(sanitize_file_name(""), "app");
    assert_eq!(sanitize_file_name(".."), "..");
    assert_eq!(sanitize_file_name("Tool 2.0 (中).zip"), "Tool 2.0 (中).zip");
}

#[test]
fn sanitizing_twice_is_sanitizing_once() {
    for s in ["a/b", " x ", "", "?", "中:文"] {
        let once = sanitize_file_name(s);
        assert_eq!(sanitize_file_name(&once), once);
        assert!(!once.is_empty());
        assert_eq!(once.trim(), once);
        assert!(!once.contains(['<', '>', ':', '"', '/', '\\', '|', '?', '*']));
    }
}

#[test]
fn category_names_are_checked() {
    assert_eq!(validate_category_name(" 办公 "), Ok("办公".to_string()));
    assert_eq!(validate_category_name("  ").unwrap_err(), "鍒嗙被鍚嶇О涓嶈兘涓虹┖");
    assert_eq!(
        validate_category_name("a/b").unwrap_err(),
        "分类名称包含 Windows 文件夹非法字符"
    );
}

#[test]
fn category_folders_are_written_in_pinyin() {
    assert_eq!(category_slug("01-办公软件"), "ban-gong-ruan-jian");
    assert_eq!(category_slug("Dev Tools 开发"), "dev-tools-kai-fa");
    assert_eq!(category_folder_name("ABC"), "abc");
    assert_eq!(category_slug("!!!"), "category");
    assert_eq!(category_slug(""), "category");
    assert_eq!(category_slug("ÄPFEL"), "pfel");
}

#[test]
fn slugs_are_made_of_runs_and_readings() {
    let chars: Vec<char> = "a1中-b一é".chars().collect();
    let readings = vec![
        None,
        None,
        Some("zhong".to_string()),
        None,
        None,
        None,
        None,
    ];
    assert_eq!(slug_of(&chars, &readings), "a1-zhong-b-u4e00");
    assert_eq!(slug_of(&vec![], &vec![]), "category");
    assert_eq!(slug_of(&vec!['Q'], &vec![None]), "q");
}

#[test]
fn slugs_hold_plain_characters_only() {
    for name in ["办公/软件", "..", "a:b", "绿色 软件", "女ê", "１２"] {
        let slug = category_slug(name);
        assert!(!slug.is_empty());
        assert!(slug
            .chars()
            .all(|c| c.is_ascii_alphanumeric() || c == '-' || c == 'ê' || c == 'ü'));
    }
}

#[test]
fn ideographs_are_told_by_their_blocks() {
    assert!(is_cjk_char('中'));
    assert!(is_cjk_char('\u{3400}'));
    assert!(is_cjk_char('\u{4dbf}'));
    assert!(is_cjk_char('\u{20000}'));
    assert!(is_cjk_char('\u{2b73f}'));
    assert!(!is_cjk_char('a'));
    assert!(!is_cjk_char('\u{4dc0}'));
    assert!(!is_cjk_char('\u{2a6e0}'));
}

#[test]
fn free_file_names_get_numbers() {
    let none: Vec<String> = Vec::new();
    assert_eq!(unique_file_name("a.zip", &none, 5), "a.zip");
    let taken = vec!["a.zip".to_string(), "a-1.zip".to_string()];
    assert_eq!(unique_file_name("a.zip", &taken, 5), "a-2.zip");
    assert_eq!(unique_file_name("b?", &vec!["b_".to_string()], 5), "b_-1");
    assert_eq!(unique_file_name(".x", &vec![".x".to_string()], 5), ".x-1");
    assert_eq!(unique_file_name("a.b.c", &vec!["a.b.c".to_string()], 5), "a.b-1.c");
    assert_eq!(unique_file_name("..", &vec!["..".to_string()], 5), "app-1");
    let mut all = vec!["a".to_string()];
    for k in 1..1000 {
        all.push(format!("a-{k}"));
    }
    assert_eq!(unique_file_name("a", &all, 77), "77-a");
}

#[test]
fn paths_are_taken_apart() {
    let p = path("/lib/Apps/dev/tool.tar.GZ");
    assert_eq!(shown(&p), "/lib/Apps/dev/tool.tar.GZ");
    assert_eq!(native_path_to_string(&p), "/lib/Apps/dev/tool.tar.GZ");
    assert_eq!(p.file_name(), Some("tool.tar.GZ".to_string()));
    assert_eq!(p.file_stem(), Some("tool.tar".to_string()));
    assert_eq!(p.extension(), Some("GZ".to_string()));
    assert!(p.extension_is("gz"));
    assert!(!p.extension_is("tar"));
    assert_eq!(shown(&p.parent().unwrap()), "/lib/Apps/dev");
    assert_eq!(path("/a/.hidden").extension(), None);
    assert_eq!(path("/a/.hidden").file_stem(), Some(".hidden".to_string()));
    assert_eq!(path("/a/b.").extension(), Some(String::new()));
    assert_eq!(path("/a/..").file_name(), None);
    assert!(path("/").parent().is_none());
    assert!(path("").parent().is_none());
    assert_eq!(shown(&path("a").parent().unwrap()), "");
}

#[test]
fn names_that_are_no_text_are_not_read() {
    let mut p = path("/a/b.exe");
    p.parts[2].name = vec![0xff, 0x2e, 0x65, 0x78, 0x65];
    assert_eq!(p.file_name(), None);
    assert_eq!(p.file_stem(), None);
    assert_eq!(p.extension(), Some("exe".to_string()));
}

#[test]
fn names_are_put_behind_paths() {
    assert_eq!(shown(&path("/a").join("b")), "/a/b");
    assert_eq!(shown(&path("/").join("b")), "/b");
    assert_eq!(shown(&path("").join("b")), "b");
    assert_eq!(shown(&path("/a").join("..")), "/a/..");
    assert_eq!(shown(&path("/a").join(".")), "/a/.");
    assert!(path("/a").join(".").same(&path("/a")));
    assert_eq!(shown(&windows_path("C:\\x").join("y")), "C:\\x\\y");
    assert_eq!(shown(&windows_path("C:").join("y")), "C:y");
    assert_eq!(shown(&path("/a/b.zip").with_file_name("c")), "/a/c");
    assert_eq!(shown(&path("/").with_file_name("c")), "/c");
    assert_eq!(shown(&path("/a").join_path(&path("b/c"))), "/a/b/c");
    let joined = path("/a").join("x");
    assert!(joined.starts_with(&path("/a")));
    assert_eq!(joined.file_name(), Some("x".to_string()));
    assert!(joined.parent().unwrap().same(&path("/a")));
}

#[test]
fn paths_begin_with_whole_parts() {
    assert!(path("/a/b/c").starts_with(&path("/a/b")));
    assert!(path("/a/b").starts_with(&path("/a/b")));
    assert!(!path("/a/bc").starts_with(&path("/a/b")));
    assert!(!path("/a").starts_with(&path("/a/b")));
    assert!(!path("a").starts_with(&path("/a")));
}

#[test]
fn files_move_along_with_their_folder() {
    let moved = path("/l/a/x/bin/x.exe").moved(&path("/l/a/x"), &path("/l/b/x")).unwrap();
    assert_eq!(shown(&moved), "/l/b/x/bin/x.exe");
    assert!(moved.starts_with(&path("/l/b/x")));
    assert!(path("/l/c/x.exe").moved(&path("/l/a/x"), &path("/l/b/x")).is_none());
}

#[test]
fn paths_are_ordered_part_by_part() {
    let list = vec![path("/a-b"), path("/a/c"), path("/a"), path("/B"), path("a")];
    let sorted: Vec<String> = sort(list).iter().map(shown).collect();
    assert_eq!(sorted, vec!["/B", "/a", "/a/c", "/a-b", "a"]);
    assert!(path("/a/b").below(&path("/a/c")));
    assert!(!path("/a").below(&path("/a")));
}

#[test]
fn incoming_paths_get_the_separators_of_the_system() {
    assert_eq!(normalize_incoming_path("C:/a\\b/c", true), "C:\\a\\b\\c");
    assert_eq!(normalize_incoming_path("/a\\b", false), "/a\\b");
}

#[test]
fn paths_outside_are_refused() {
    assert!(ensure_inside_apps_dir(&path("/l/Apps"), &path("/l/Apps/x")).is_ok());
    assert_eq!(
        ensure_inside_apps_dir(&path("/l/Apps"), &path("/l/x")).unwrap_err(),
        "目标路径不在软件库 Apps 目录内，已取消操作"
    );
    assert!(ensure_inside_review_dir(&path("/l/r"), &path("/l/r")).is_ok());
    assert_eq!(
        ensure_inside_review_dir(&path("/l/r"), &path("/l/ra")).unwrap_err(),
        "鐩\u{e1bd}爣璺\u{e21a}緞涓嶅湪鏈\u{e044}\u{e178}鏍歌蒋浠剁洰褰曞唴锛屽凡鍙栨秷鎿嶄綔"
    );
}

#[test]
fn the_library_lies_beside_the_program() {
    let library = library_root(&path("/opt/appmanager")).unwrap();
    assert_eq!(shown(&library), "/opt/AppManagerLibrary");
    assert!(library_root(&path("/")).is_err());
    assert_eq!(shown(&apps_path(&library)), "/opt/AppManagerLibrary/Apps");
    assert_eq!(shown(&data_path(&library)), "/opt/AppManagerLibrary/config/app-data.json");
    assert_eq!(
        shown(&package_cache_dir(&library)),
        "/opt/AppManagerLibrary/config/package-cache"
    );
    assert_eq!(
        shown(&app_icon_path(&path("/f"), "png")),
        "/f/.appmanager-icon.png"
    );
}

#[test]
fn pending_applications_keep_their_older_folder() {
    let library = path("/l");
    let both = ReviewFolders { pending: true, legacy: true };
    let legacy = ReviewFolders { pending: false, legacy: true };
    let none = ReviewFolders { pending: false, legacy: false };
    assert_eq!(shown(&pending_path(&library)), "/l/Apps/review-pending");
    assert_eq!(shown(&legacy_pending_path(&library)), "/l/Apps/未审核软件");
    assert_eq!(shown(&review_dir_path(&library, both)), "/l/Apps/review-pending");
    assert_eq!(shown(&review_dir_path(&library, legacy)), "/l/Apps/未审核软件");
    assert_eq!(shown(&review_dir_path(&library, none)), "/l/Apps/review-pending");
    assert_eq!(
        shown(&category_storage_path(&library, "未审核软件", legacy)),
        "/l/Apps/未审核软件"
    );
    assert_eq!(shown(&category_storage_path(&library, "办公", none)), "/l/Apps/ban-gong");
    assert_eq!(shown(&category_path_for_name(&library, "未审核软件")), "/l/Apps/wei-shen-he-ruan-jian");
    let inside = category_storage_path(&library, "x", none);
    assert!(inside.starts_with(&apps_path(&library)));
}

#[test]
fn metadata_files_lie_beside_their_packages() {
    let meta = review_meta_path(&path("/r/a.zip"));
    assert_eq!(shown(&meta), "/r/a.zip.meta.json");
    assert!(is_review_metadata_file(&meta));
    assert!(!is_review_metadata_file(&path("/r/a.zip")));
    assert_eq!(shown(&review_meta_path(&path("/"))), "/upload.meta.json");
}
