use appmanager::layout::review_meta_path;
use appmanager::model::ReviewItem;
use appmanager::package::{
    collect_package_source_files, extract_entry, is_outdated_package, is_package, package_base,
    package_cache_info, package_cache_path, package_source, package_source_hash,
    package_source_signature, packing_problem, prepare_download_file, zip_entry_name, CacheEntry,
    ExtractStep, PackageSourceFile, SourceEntry,
};
use appmanager::paths::{path_to_string, FilePath, PartKind, PathPart};
use appmanager::review::{
    approval_target, check_approval, check_extracted, check_found, extracted_folders, find_review,
    list_review_items, make_review_item, new_directory_entries, read_meta, review_metadata,
    FoundReview, ReviewMeta,
};
use appmanager::scan::{FoundPath, Observed};

fn path(s: &str) -> FilePath {
    let mut parts = Vec::new();
    let mut rest = s;
    let part = |kind: PartKind, lead: &str, shown: &str| PathPart {
        kind,
        name: shown.as_bytes().to_vec(),
        lead: lead.to_string(),
        shown: shown.to_string(),
    };
    if let Some(tail) = s.strip_prefix('/') {
        parts.push(part(PartKind::Root, "", "/"));
        rest = tail;
    }
    for (i, piece) in rest.split('/').filter(|p| !p.is_empty()).enumerate() {
        parts.push(part(PartKind::Normal, if i == 0 { "" } else { "/" }, piece));
    }
    FilePath { parts, tail: String::new(), separator: '/' }
}

fn file(name: &str, len: u64, modified_ms: u128) -> PackageSourceFile {
    PackageSourceFile { path: path(name), len, modified_ms }
}

fn fnv(mut hash: u64, bytes: &[u8]) -> u64 {
    for b in bytes {
        hash ^= u64::from(*b);
        hash = hash.wrapping_mul(0x100000001b3);
    }
    hash
}

#[test]
fn signatures_follow_the_files() {
    let signature = package_source_signature(vec![file("/f/b", 20, 3), file("/f/a", 10, 2)]);
    let names: Vec<String> = signature.files.iter().map(|f| path_to_string(&f.path)).collect();
    assert_eq!(names, vec!["/f/a", "/f/b"]);
    assert_eq!(signature.total_bytes, 30);
    let mut hash = 0xcbf29ce484222325u64;
    for (name, len, time) in [("/f/a", 10u64, 2u128), ("/f/b", 20, 3)] {
        hash = fnv(hash, name.as_bytes());
        hash = fnv(hash, &len.to_le_bytes());
        hash = fnv(hash, &time.to_le_bytes());
    }
    assert_eq!(signature.signature_hash, hash);
    assert_eq!(package_source_hash(&vec![]), 0xcbf29ce484222325);
    let other = package_source_signature(vec![file("/f/a", 10, 2), file("/f/b", 20, 3)]);
    assert_eq!(other.signature_hash, hash);
    let huge = package_source_signature(vec![file("/a", u64::MAX, 0), file("/b", 1, 0)]);
    assert_eq!(huge.total_bytes, u64::MAX);
}

#[test]
fn files_are_collected_from_folders() {
    let tree = SourceEntry::Folder(vec![
        SourceEntry::File(file("/f/z", 1, 1)),
        SourceEntry::Other,
        SourceEntry::Folder(vec![SourceEntry::File(file("/f/d/a", 2, 2)), SourceEntry::Folder(vec![])]),
    ]);
    let names: Vec<String> =
        collect_package_source_files(&tree).iter().map(|f| path_to_string(&f.path)).collect();
    assert_eq!(names, vec!["/f/z", "/f/d/a"]);
    assert_eq!(collect_package_source_files(&SourceEntry::File(file("/x", 1, 1))).len(), 1);
    assert!(collect_package_source_files(&SourceEntry::Other).is_empty());
}

#[test]
fn packages_are_kept_under_their_signature() {
    let mut signature = package_source_signature(vec![file("/f/a", 30, 2)]);
    signature.signature_hash = 255;
    let kept = package_cache_path(&path("/l"), "a:b", &signature, "x?.zip");
    assert_eq!(
        path_to_string(&kept),
        "/l/config/package-cache/a_b-1-30-00000000000000ff-x_.zip"
    );
    assert!(is_outdated_package(&kept, "a:b"));
    assert!(!is_outdated_package(&kept, "a"));
    assert!(!is_outdated_package(&path("/"), "a"));
}

#[test]
fn packages_are_counted() {
    let entries = vec![
        CacheEntry { is_file: true, len: 5 },
        CacheEntry { is_file: false, len: 7 },
        CacheEntry { is_file: true, len: u64::MAX },
    ];
    let info = package_cache_info(&path("/l"), &entries);
    assert_eq!(info.path, "/l/config/package-cache");
    assert_eq!((info.file_count, info.total_size), (2, u64::MAX));
}

#[test]
fn packages_are_planned() {
    assert_eq!(path_to_string(&package_source(&path("/f/x"), true, &None).unwrap()), "/f/x");
    let from_program = package_source(&path("/f/x"), false, &Some(path("/f/y/y.exe"))).unwrap();
    assert_eq!(path_to_string(&from_program), "/f/y");
    assert_eq!(package_source(&path("/f/x"), false, &None).unwrap_err(), "软件文件不存在");
    assert_eq!(
        package_source(&path("/f/x"), false, &Some(path("/"))).unwrap_err(),
        "无法读取软件文件夹名"
    );
    let plan = prepare_download_file(
        &path("/l"),
        "id",
        "name",
        &path("/f/My App"),
        true,
        Ok(vec![file("/f/My App/a", 4, 1)]),
    )
    .unwrap();
    assert_eq!(plan.file_name, "My App.zip");
    assert_eq!(plan.signature.total_bytes, 4);
    let shown = path_to_string(&plan.cache_path);
    assert!(shown.starts_with("/l/config/package-cache/id-1-4-"));
    assert!(shown.ends_with("-My App.zip"));
    let root = prepare_download_file(&path("/l"), "id", "a/b", &path("/"), true, Ok(vec![])).unwrap();
    assert_eq!(root.file_name, "a_b.zip");
    assert_eq!(
        prepare_download_file(&path("/l"), "id", "n", &path("/f"), false, Ok(vec![])).unwrap_err(),
        "软件文件不存在"
    );
    assert_eq!(
        prepare_download_file(&path("/l"), "id", "n", &path("/f"), true, Err("e".to_string()))
            .unwrap_err(),
        "e"
    );
    assert_eq!(packing_problem(&path("/f"), "e"), "打包软件失败：/f：e");
    assert_eq!(path_to_string(&package_base(&path("/f/x")).unwrap()), "/f");
    assert_eq!(package_base(&path("/")).unwrap_err(), "无法读取软件文件夹名");
}

#[test]
fn files_have_names_in_their_package() {
    assert_eq!(zip_entry_name(&path("/f"), &path("/f/x/bin/a.dll")).unwrap(), "x/bin/a.dll");
    assert_eq!(zip_entry_name(&path("/f"), &path("/g/a")).unwrap_err(), "prefix not found");
    assert_eq!(zip_entry_name(&path("/f"), &path("/f")).unwrap_err(), "无法生成压缩包内文件名");
}

#[test]
fn packages_are_unpacked_into_their_folder() {
    let folder = path("/c");
    assert!(matches!(extract_entry(&folder, &None, false), ExtractStep::Skip));
    match extract_entry(&folder, &Some(path("x/y")), true) {
        ExtractStep::MakeFolder(p) => assert_eq!(path_to_string(&p), "/c/x/y"),
        _ => panic!("a folder is made"),
    }
    match extract_entry(&folder, &Some(path("x/y.dll")), false) {
        ExtractStep::WriteFile(parent, p) => {
            assert_eq!(path_to_string(&p), "/c/x/y.dll");
            assert_eq!(path_to_string(&parent.unwrap()), "/c/x");
            assert!(p.starts_with(&folder));
        }
        _ => panic!("a file is written"),
    }
    assert!(is_package(&path("/a.ZIP")));
    assert!(!is_package(&path("/a.exe")));
}

fn review(name: &str, is_file: bool, metadata: Option<&str>) -> FoundReview {
    FoundReview {
        path: path(name),
        is_file,
        size: 9,
        metadata: metadata.map(|s| s.to_string()),
    }
}

#[test]
fn metadata_is_read_back() {
    let folders = vec!["/r/x".to_string(), "/r/y".to_string()];
    let text = review_metadata("办公", 77, &folders);
    let meta = read_meta(&Some(text.clone()));
    assert_eq!(meta.category_name, Some("办公".to_string()));
    assert_eq!(meta.uploaded_at, Some(77));
    assert_eq!(meta.extracted_paths, folders);
    assert!(text.contains("\"registeredInReviewCategory\": true"));
    let none = read_meta(&None);
    assert_eq!((none.category_name, none.uploaded_at), (None, None));
    let broken = read_meta(&Some("{".to_string()));
    assert!(broken.extracted_paths.is_empty());
}

#[test]
fn pending_packages_are_listed() {
    let found = vec![
        review("/r/old.zip", true, Some("{\"uploadedAt\":5,\"categoryName\":\"c\"}")),
        review("/r/old.zip.meta.json", true, None),
        review("/r/folder", false, None),
        review("/r/new.zip", true, Some("{\"uploadedAt\":50}")),
        review("/r/bare", true, None),
        review("/r/same.zip", true, Some("{\"uploadedAt\":5}")),
    ];
    let items = list_review_items(&found);
    let names: Vec<&str> = items.iter().map(|i| i.file_name.as_str()).collect();
    assert_eq!(names, vec!["new.zip", "old.zip", "same.zip", "bare"]);
    assert_eq!(items[1].name, "old");
    assert_eq!(items[1].category_name, "c");
    assert_eq!(items[0].category_name, "来自客户端");
    assert_eq!(items[0].id, appmanager::fnv::make_id("/r/new.zip"));
    assert_eq!((items[3].uploaded_at, items[3].size), (0, 9));
    let id = items[2].id.clone();
    assert_eq!(find_review(&items, &id).unwrap().path, "/r/same.zip");
    assert_eq!(find_review(&items, "x").unwrap_err(), "未审核软件不存在");
    let meta = review_meta_path(&path("/r/new.zip"));
    let meta_entry = FoundReview { path: meta, is_file: true, size: 1, metadata: None };
    assert!(list_review_items(&vec![meta_entry]).is_empty());
}

#[test]
fn approved_packages_go_to_their_category() {
    let meta = ReviewMeta { category_name: None, uploaded_at: None, extracted_paths: vec![] };
    let mut item: ReviewItem = make_review_item(&path("/r/a.zip"), 3, meta);
    item.file_name = "a?.zip".to_string();
    assert_eq!(path_to_string(&approval_target(&path("/c"), &item)), "/c/a_.zip");
    assert!(check_approval(true, false).is_ok());
    assert_eq!(check_approval(false, true).unwrap_err(), "未审核软件文件不存在");
    assert_eq!(
        check_approval(true, true).unwrap_err(),
        "目标分类中已存在同名文件，请先处理后再审核"
    );
}

#[test]
fn packages_that_hold_nothing_are_refused() {
    let found = vec![
        FoundPath {
            path: path("/r/x"),
            resolved: path("/r/x"),
            what: Observed::Folder(Ok(vec![])),
        },
        FoundPath { path: path("/r/f"), resolved: path("/r/f"), what: Observed::File },
    ];
    let folders = extracted_folders(&found);
    assert_eq!(folders, vec!["/r/x"]);
    assert!(check_extracted(&folders).is_ok());
    assert_eq!(check_extracted(&vec![]).unwrap_err(), "上传包没有解压出可扫描的软件文件夹");
    assert!(check_found(0, 1).is_ok());
    assert_eq!(
        check_found(0, 0).unwrap_err(),
        "上传包已解压，但没有扫描到可加入未审核软件的软件目录"
    );
}

#[test]
fn new_entries_are_told_from_old_ones() {
    let before = vec!["/r/a".to_string()];
    let entries = vec![path("/r/c"), path("/r/a"), path("/r/b")];
    let new: Vec<String> =
        new_directory_entries(&before, &entries).iter().map(path_to_string).collect();
    assert_eq!(new, vec!["/r/b", "/r/c"]);
}

#[test]
fn the_order_of_a_listing_does_not_matter() {
    let names = ["/f/b", "/f/a/z", "/f/a", "/f/c"];
    let plan = |order: [usize; 4]| {
        let files = order.iter().map(|i| file(names[*i], *i as u64, 9)).collect();
        prepare_download_file(&path("/l"), "id", "n", &path("/f"), true, Ok(files)).unwrap()
    };
    let one = plan([0, 1, 2, 3]);
    for order in [[3, 2, 1, 0], [1, 3, 0, 2]] {
        let other = plan(order);
        assert_eq!(other.signature.signature_hash, one.signature.signature_hash);
        assert_eq!(other.signature.total_bytes, 6);
        assert_eq!(path_to_string(&other.cache_path), path_to_string(&one.cache_path));
    }
}
