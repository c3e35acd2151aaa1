//! Where the library keeps its files.

use vstd::prelude::*;
use crate::names;
use crate::names::category_folder_name;
use crate::paths;
use crate::paths::{
    FilePath, APPS_DIR, CONFIG_DIR, DATA_FILE, LIBRARY_DIR, PACKAGE_CACHE_DIR, REVIEW_DIR,
    REVIEW_FOLDER,
};
use crate::split::finishes_with;
use crate::text::{push_text, same_text};

verus! {

/// What the name of a review's metadata file ends with.
pub const META_SUFFIX: &'static str = ".meta.json";

/// The name of a pending file without a readable name, in its metadata file's
/// name.
pub const UNNAMED_UPLOAD: &'static str = "upload";

/// The name of an application's icon file without its extension.
pub const APP_ICON_FILE_STEM: &'static str = ".appmanager-icon";

/// Shown where the program lies in no folder.
pub const NO_PROGRAM_FOLDER: &'static str = "鏃犳硶鑾峰彇 APP 鐩綍";

/// Which of the two folders of pending applications are there.
#[derive(Clone, Copy, Debug)]
pub struct ReviewFolders {
    pub pending: bool,
    pub legacy: bool,
}

/// The folder of the applications.
pub open spec fn apps_dir(library: paths::PathView) -> paths::PathView {
    paths::joined(library, APPS_DIR@)
}

/// The folder of pending applications.
pub open spec fn pending_dir(library: paths::PathView) -> paths::PathView {
    paths::joined(apps_dir(library), REVIEW_FOLDER@)
}

/// The folder of pending applications under its older name.
pub open spec fn legacy_dir(library: paths::PathView) -> paths::PathView {
    paths::joined(apps_dir(library), REVIEW_DIR@)
}

/// The folder of pending applications that is in use: the older one only where
/// the newer is not there.
pub open spec fn review_dir(library: paths::PathView, there: ReviewFolders) -> paths::PathView {
    if !there.pending && there.legacy {
        legacy_dir(library)
    } else {
        pending_dir(library)
    }
}

/// The folder of a category.
pub open spec fn category_dir(library: paths::PathView, name: Seq<char>) -> paths::PathView {
    paths::joined(apps_dir(library), names::category_slug_of(name))
}

/// The folder in which a category is kept: pending applications have their own.
pub open spec fn storage_dir(
    library: paths::PathView,
    name: Seq<char>,
    there: ReviewFolders,
) -> paths::PathView {
    if name == REVIEW_DIR@ {
        review_dir(library, there)
    } else {
        category_dir(library, name)
    }
}

/// The metadata file of a pending file.
pub open spec fn meta_path(path: paths::PathView) -> paths::PathView {
    let name = match paths::file_name_of(path) {
        Some(n) => n,
        None => UNNAMED_UPLOAD@,
    };
    paths::renamed(path, name + META_SUFFIX@)
}

/// The path leads to the metadata file of a review.
pub open spec fn is_meta(path: paths::PathView) -> bool {
    paths::file_name_of(path) matches Some(n) && META_SUFFIX@.is_suffix_of(n)
}

/// The folder of finished packages.
pub open spec fn cache_dir(library: paths::PathView) -> paths::PathView {
    paths::joined(paths::joined(library, CONFIG_DIR@), PACKAGE_CACHE_DIR@)
}

/// The file of the catalogue.
pub open spec fn data_file(library: paths::PathView) -> paths::PathView {
    paths::joined(paths::joined(library, CONFIG_DIR@), DATA_FILE@)
}

/// The file of an application's icon.
pub open spec fn icon_path(folder: paths::PathView, extension: Seq<char>) -> paths::PathView {
    paths::joined(folder, APP_ICON_FILE_STEM@ + seq!['.'] + extension)
}

/// Everything that the library keeps of a category lies in the folder of the
/// applications.
pub proof fn law_storage_lies_in_apps(
    library: paths::PathView,
    name: Seq<char>,
    there: ReviewFolders,
)
    ensures
        paths::lies_in(storage_dir(library, name, there), apps_dir(library)),
        paths::lies_in(apps_dir(library), library),
{
    let apps = apps_dir(library);
    paths::law_joined_lies_inside(library, APPS_DIR@);
    paths::law_joined_lies_inside(apps, REVIEW_FOLDER@);
    paths::law_joined_lies_inside(apps, REVIEW_DIR@);
    paths::law_joined_lies_inside(apps, names::category_slug_of(name));
}

/// The library lies in the folder of the program, and the applications, the
/// catalogue and the finished packages lie in the library, so that they move
/// along with the program's folder.
pub proof fn law_library_lies_beside_program(folder: paths::PathView)
    ensures
        ({
            let library = paths::joined(folder, LIBRARY_DIR@);
            &&& paths::lies_in(library, folder)
            &&& paths::lies_in(apps_dir(library), library)
            &&& paths::lies_in(data_file(library), library)
            &&& paths::lies_in(cache_dir(library), library)
            &&& paths::lies_in(data_file(library), folder)
        }),
{
    let library = paths::joined(folder, LIBRARY_DIR@);
    let config = paths::joined(library, CONFIG_DIR@);
    paths::law_joined_lies_inside(folder, LIBRARY_DIR@);
    paths::law_joined_lies_inside(library, APPS_DIR@);
    paths::law_joined_lies_inside(library, CONFIG_DIR@);
    paths::law_joined_lies_inside(config, DATA_FILE@);
    paths::law_joined_lies_inside(config, PACKAGE_CACHE_DIR@);
    paths::law_lies_in(data_file(library), config, library);
    paths::law_lies_in(cache_dir(library), config, library);
    paths::law_lies_in(data_file(library), library, folder);
}

/// The metadata file of a pending file is taken for a metadata file.
pub proof fn law_meta_is_meta(path: paths::PathView)
    ensures
        is_meta(meta_path(path)),
{
    let name = match paths::file_name_of(path) {
        Some(n) => n,
        None => UNNAMED_UPLOAD@,
    };
    let full = name + META_SUFFIX@;
    reveal_strlit(".meta.json");
    assert(META_SUFFIX@.is_suffix_of(full)) by {
        assert(full.subrange(full.len() - META_SUFFIX@.len(), full.len() as int) =~= META_SUFFIX@);
    }
    assert(full.last() == 'n');
    assert(!names::is_dots(full));
    match (paths::name_bytes(path), paths::parent_of(path)) {
        (Some(_), Some(parent)) => {
            paths::law_joined_name(parent, full);
        },
        _ => {
            paths::law_joined_name(path, full);
        },
    }
}

/// The folder of the library: it lies beside the program.
pub fn library_root(program: &FilePath) -> (r: Result<FilePath, String>)
    ensures
        match paths::parent_of(program@) {
            Some(folder) => r matches Ok(library) && library@ == paths::joined(
                folder,
                LIBRARY_DIR@,
            ),
            None => r matches Err(e) && e@ == NO_PROGRAM_FOLDER@,
        },
{
    match program.parent() {
        Some(folder) => Ok(folder.join(LIBRARY_DIR)),
        None => Err(NO_PROGRAM_FOLDER.to_string()),
    }
}

/// The folder of the applications.
pub fn apps_path(library: &FilePath) -> (r: FilePath)
    ensures
        r@ == apps_dir(library@),
{
    library.join(APPS_DIR)
}

/// The folder of pending applications.
pub fn pending_path(library: &FilePath) -> (r: FilePath)
    ensures
        r@ == pending_dir(library@),
{
    apps_path(library).join(REVIEW_FOLDER)
}

/// The folder of pending applications under its older name.
pub fn legacy_pending_path(library: &FilePath) -> (r: FilePath)
    ensures
        r@ == legacy_dir(library@),
{
    apps_path(library).join(REVIEW_DIR)
}

/// The folder of pending applications that is in use.
pub fn review_dir_path(library: &FilePath, there: ReviewFolders) -> (r: FilePath)
    ensures
        r@ == review_dir(library@, there),
{
    if !there.pending && there.legacy {
        legacy_pending_path(library)
    } else {
        pending_path(library)
    }
}

/// The folder of a category.
pub fn category_path_for_name(library: &FilePath, category_name: &str) -> (r: FilePath)
    ensures
        r@ == category_dir(library@, category_name@),
{
    let folder = category_folder_name(category_name);
    apps_path(library).join(folder.as_str())
}

/// The folder in which a category is kept.
pub fn category_storage_path(
    library: &FilePath,
    category_name: &str,
    there: ReviewFolders,
) -> (r: FilePath)
    ensures
        r@ == storage_dir(library@, category_name@, there),
{
    if same_text(category_name, REVIEW_DIR) {
        review_dir_path(library, there)
    } else {
        category_path_for_name(library, category_name)
    }
}

/// The metadata file of a pending file.
pub fn review_meta_path(path: &FilePath) -> (r: FilePath)
    ensures
        r@ == meta_path(path@),
{
    let mut name = match path.file_name() {
        Some(n) => n,
        None => UNNAMED_UPLOAD.to_string(),
    };
    push_text(&mut name, META_SUFFIX);
    path.with_file_name(name.as_str())
}

/// Whether the path leads to the metadata file of a review.
pub fn is_review_metadata_file(path: &FilePath) -> (r: bool)
    ensures
        r == is_meta(path@),
{
    match path.file_name() {
        Some(n) => finishes_with(n.as_str(), META_SUFFIX),
        None => false,
    }
}

/// The file of the catalogue.
pub fn data_path(library: &FilePath) -> (r: FilePath)
    ensures
        r@ == data_file(library@),
{
    library.join(CONFIG_DIR).join(DATA_FILE)
}

/// The folder of finished packages.
pub fn package_cache_dir(library: &FilePath) -> (r: FilePath)
    ensures
        r@ == cache_dir(library@),
{
    library.join(CONFIG_DIR).join(PACKAGE_CACHE_DIR)
}

/// The file of an application's icon.
pub fn app_icon_path(folder: &FilePath, extension: &str) -> (r: FilePath)
    ensures
        r@ == icon_path(folder@, extension@),
{
    let mut name = APP_ICON_FILE_STEM.to_string();
    name.push('.');
    push_text(&mut name, extension);
    assert(name@ =~= APP_ICON_FILE_STEM@ + seq!['.'] + extension@);
    folder.join(name.as_str())
}

/// The path `q` is the path `p` with the names put behind it, and nothing else.
pub open spec fn stands_behind(
    q: paths::PathView,
    p: paths::PathView,
    names_behind: Seq<Seq<char>>,
) -> bool {
    &&& q.parts.len() == p.parts.len() + names_behind.len()
    &&& forall|i: int| 0 <= i < p.parts.len() ==> #[trigger] q.parts[i] == p.parts[i]
    &&& forall|i: int|
        0 <= i < names_behind.len() ==> q.parts[p.parts.len() + i].kind == paths::PartKind::Normal
            && q.parts[p.parts.len() + i].shown == #[trigger] names_behind[i]
}

proof fn lemma_one_behind(p: paths::PathView, name: Seq<char>)
    requires
        !names::is_dots(name),
    ensures
        stands_behind(paths::joined(p, name), p, seq![name]),
{
    paths::law_joined_parts(p, name);
    let q = paths::joined(p, name);
    assert forall|i: int| 0 <= i < p.parts.len() implies #[trigger] q.parts[i] == p.parts[i] by {
        assert(q.parts.drop_last()[i] == q.parts[i]);
    }
}

proof fn lemma_two_behind(p: paths::PathView, first: Seq<char>, second: Seq<char>)
    requires
        !names::is_dots(first),
        !names::is_dots(second),
    ensures
        stands_behind(paths::joined(paths::joined(p, first), second), p, seq![first, second]),
{
    let q = paths::joined(p, first);
    let r = paths::joined(q, second);
    lemma_one_behind(p, first);
    lemma_one_behind(q, second);
    assert(seq![first][0] == first);
    assert(seq![second][0] == second);
    assert forall|i: int| 0 <= i < p.parts.len() implies #[trigger] r.parts[i] == p.parts[i] by {
        assert(r.parts[i] == q.parts[i]);
    }
    assert(r.parts[p.parts.len() as int] == q.parts[p.parts.len() as int]);
}

/// Where the library keeps its files. The packages that wait for a decision lie
/// in `review-pending`, and in the folder of the older name only where that one
/// is there and `review-pending` is not.
pub proof fn law_layout(library: paths::PathView, name: Seq<char>, there: ReviewFolders)
    ensures
        stands_behind(apps_dir(library), library, seq!["Apps"@]),
        stands_behind(data_file(library), library, seq!["config"@, "app-data.json"@]),
        stands_behind(cache_dir(library), library, seq!["config"@, "package-cache"@]),
        !there.pending && there.legacy ==> stands_behind(
            review_dir(library, there),
            library,
            seq!["Apps"@, "未审核软件"@],
        ),
        there.pending || !there.legacy ==> stands_behind(
            review_dir(library, there),
            library,
            seq!["Apps"@, "review-pending"@],
        ),
        storage_dir(library, "未审核软件"@, there) == review_dir(library, there),
        name != "未审核软件"@ && !names::is_dots(names::category_slug_of(name)) ==> stands_behind(
            storage_dir(library, name, there),
            library,
            seq!["Apps"@, names::category_slug_of(name)],
        ),
{
    reveal_strlit("Apps");
    reveal_strlit("config");
    reveal_strlit("app-data.json");
    reveal_strlit("package-cache");
    reveal_strlit("未审核软件");
    reveal_strlit("review-pending");
    assert("Apps"@.len() == 4 && "config"@.len() == 6 && "app-data.json"@.len() == 13);
    assert("package-cache"@.len() == 13 && "未审核软件"@.len() == 5);
    assert("review-pending"@.len() == 14);
    lemma_one_behind(library, "Apps"@);
    lemma_two_behind(library, "config"@, "app-data.json"@);
    lemma_two_behind(library, "config"@, "package-cache"@);
    lemma_two_behind(library, "Apps"@, "未审核软件"@);
    lemma_two_behind(library, "Apps"@, "review-pending"@);
    if !names::is_dots(names::category_slug_of(name)) {
        lemma_two_behind(library, "Apps"@, names::category_slug_of(name));
    }
}

/// The metadata of a pending file lies beside it, in a file with the same name
/// and `.meta.json` behind it.
pub proof fn law_meta_lies_beside(path: paths::PathView, name: Seq<char>)
    requires
        paths::file_name_of(path) == Some(name),
    ensures
        paths::file_name_of(meta_path(path)) == Some(name + ".meta.json"@),
        meta_path(path).parts.drop_last() == path.parts.drop_last(),
        meta_path(path).parts.len() == path.parts.len(),
{
    let full = name + ".meta.json"@;
    reveal_strlit(".meta.json");
    assert(full.last() == 'n');
    assert(!names::is_dots(full));
    paths::law_renamed(path, full);
}

/// A file is taken for metadata exactly where its name ends in `.meta.json`.
pub proof fn law_meta_name(path: paths::PathView, name: Seq<char>)
    requires
        paths::file_name_of(path) == Some(name),
    ensures
        is_meta(path) == exists|front: Seq<char>| name == #[trigger] (front + ".meta.json"@),
{
    let suffix = ".meta.json"@;
    if is_meta(path) {
        let n = name.len() - suffix.len();
        assert(name =~= name.take(n) + name.subrange(n, name.len() as int));
        assert(name.subrange(n, name.len() as int) =~= suffix);
        assert(name == name.take(n) + suffix);
    } else if exists|front: Seq<char>| name == #[trigger] (front + suffix) {
        let front = choose|front: Seq<char>| name == #[trigger] (front + suffix);
        assert((front + suffix).subrange(front.len() as int, name.len() as int) =~= suffix);
    }
}

/// An application's icon lies in its folder, under the name `.appmanager-icon`
/// with the extension behind it.
pub proof fn law_icon_path(folder: paths::PathView, extension: Seq<char>)
    ensures
        stands_behind(
            icon_path(folder, extension),
            folder,
            seq![".appmanager-icon."@ + extension],
        ),
{
    reveal_strlit(".appmanager-icon");
    reveal_strlit(".appmanager-icon.");
    let name = ".appmanager-icon."@ + extension;
    assert(APP_ICON_FILE_STEM@ + seq!['.'] + extension =~= name);
    assert(name[1] == 'a');
    lemma_one_behind(folder, name);
}

/// The metadata of what has no name lies in it, as `upload.meta.json`.
pub proof fn law_meta_of_unnamed(path: paths::PathView)
    requires
        path.parts.len() == 0 || path.parts.last().kind != paths::PartKind::Normal,
    ensures
        stands_behind(meta_path(path), path, seq!["upload.meta.json"@]),
{
    reveal_strlit("upload");
    reveal_strlit(".meta.json");
    reveal_strlit("upload.meta.json");
    assert("upload"@ + ".meta.json"@ =~= "upload.meta.json"@);
    assert("upload.meta.json"@.len() == 16);
    lemma_one_behind(path, "upload.meta.json"@);
}

} // verus!
