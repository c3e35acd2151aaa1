//! The catalogue of categories and applications.

use vstd::prelude::*;
use crate::fnv;
use crate::fnv::make_id;
use crate::layout;
use crate::layout::{category_storage_path, review_dir_path, ReviewFolders};
use crate::lists;
use crate::lists::{position, Wanted};
use crate::model;
use crate::model::{AppData, AppDataView, AppView, Category, CategoryView, ManagedApp};
use crate::names;
use crate::names::{contains_string, validate_category_name};
use crate::paths;
use crate::paths::{
    ensure_inside_apps_dir, normalize_incoming_path, path_to_string, FilePath, OUTSIDE_APPS,
    REVIEW_DIR,
};
use crate::text;
use crate::text::same_text;

verus! {

/// Shown where a category is not in the catalogue.
pub const NO_CATEGORY: &'static str = "分类不存在";

/// Shown where the category that an application is to move to is not in the
/// catalogue.
pub const NO_TARGET_CATEGORY: &'static str = "目标分类不存在";

/// Shown where a category of that name is in the catalogue already.
pub const CATEGORY_EXISTS: &'static str = "分类名称已存在";

/// Shown where an application is not in the catalogue.
pub const NO_APP: &'static str = "软件不存在";

// ---------------------------------------------------------------------------
// Finding
// ---------------------------------------------------------------------------

pub open spec fn app_has_id(id: Seq<char>) -> spec_fn(AppView) -> bool {
    |a: AppView| a.id == id
}

pub open spec fn app_lacks_id(id: Seq<char>) -> spec_fn(AppView) -> bool {
    |a: AppView| a.id != id
}

pub open spec fn app_outside_category(id: Seq<char>) -> spec_fn(AppView) -> bool {
    |a: AppView| a.category_id != id
}

pub open spec fn category_has_id(id: Seq<char>) -> spec_fn(CategoryView) -> bool {
    |c: CategoryView| c.id == id
}

pub open spec fn category_lacks_id(id: Seq<char>) -> spec_fn(CategoryView) -> bool {
    |c: CategoryView| c.id != id
}

pub open spec fn category_has_name(name: Seq<char>) -> spec_fn(CategoryView) -> bool {
    |c: CategoryView| c.name == name
}

/// The place of the first application with the id.
pub open spec fn app_index(apps: Seq<AppView>, id: Seq<char>) -> Option<int> {
    lists::first(apps, app_has_id(id))
}

/// The place of the first category with the id.
pub open spec fn category_index(categories: Seq<CategoryView>, id: Seq<char>) -> Option<int> {
    lists::first(categories, category_has_id(id))
}

/// The place of the first category with the name.
pub open spec fn named_index(categories: Seq<CategoryView>, name: Seq<char>) -> Option<int> {
    lists::first(categories, category_has_name(name))
}

/// No two categories have the same name.
pub open spec fn names_distinct(categories: Seq<CategoryView>) -> bool {
    forall|i: int, j: int|
        0 <= i < j < categories.len() ==> (#[trigger] categories[i]).name != (
        #[trigger] categories[j]).name
}

/// No two applications have the same id.
pub open spec fn ids_distinct(apps: Seq<AppView>) -> bool {
    forall|i: int, j: int|
        0 <= i < j < apps.len() ==> (#[trigger] apps[i]).id != (#[trigger] apps[j]).id
}

/// The application with an id.
struct AppId<'a> {
    id: &'a str,
}

impl<'a> Wanted<ManagedApp> for AppId<'a> {
    closed spec fn accepts(&self) -> spec_fn(AppView) -> bool {
        app_has_id(self.id@)
    }

    fn is_met_by(&self, value: &ManagedApp) -> (r: bool) {
        same_text(value.id.as_str(), self.id)
    }
}

/// The category with an id.
struct CategoryId<'a> {
    id: &'a str,
}

impl<'a> Wanted<Category> for CategoryId<'a> {
    closed spec fn accepts(&self) -> spec_fn(CategoryView) -> bool {
        category_has_id(self.id@)
    }

    fn is_met_by(&self, value: &Category) -> (r: bool) {
        same_text(value.id.as_str(), self.id)
    }
}

/// The category with a name.
struct CategoryName<'a> {
    name: &'a str,
}

impl<'a> Wanted<Category> for CategoryName<'a> {
    closed spec fn accepts(&self) -> spec_fn(CategoryView) -> bool {
        category_has_name(self.name@)
    }

    fn is_met_by(&self, value: &Category) -> (r: bool) {
        same_text(value.name.as_str(), self.name)
    }
}

/// The place of the first application with the id.
pub fn find_app(apps: &Vec<ManagedApp>, id: &str) -> (r: Option<usize>)
    ensures
        match r {
            Some(k) => app_index(model::views(apps@), id@) == Some(k as int) && k < apps@.len(),
            None => app_index(model::views(apps@), id@) is None,
        },
{
    position(apps, &AppId { id })
}

/// The place of the first category with the id.
fn find_category_index(categories: &Vec<Category>, id: &str) -> (r: Option<usize>)
    ensures
        match r {
            Some(k) => category_index(model::views(categories@), id@) == Some(k as int) && k
                < categories@.len(),
            None => category_index(model::views(categories@), id@) is None,
        },
{
    position(categories, &CategoryId { id })
}

/// The place of the first category with the name.
fn find_named_category(categories: &Vec<Category>, name: &str) -> (r: Option<usize>)
    ensures
        match r {
            Some(k) => named_index(model::views(categories@), name@) == Some(k as int) && k
                < categories@.len(),
            None => named_index(model::views(categories@), name@) is None,
        },
{
    position(categories, &CategoryName { name })
}

/// The application with the id.
pub fn require_app(data: &AppData, app_id: &str) -> (r: Result<ManagedApp, String>)
    ensures
        match r {
            Ok(app) => lists::found(data@.apps, app_has_id(app_id@)) == Some(app@),
            Err(e) => app_index(data@.apps, app_id@) is None && e@ == NO_APP@,
        },
{
    match find_app(&data.apps, app_id) {
        Some(k) => Ok(data.apps[k].clone()),
        None => Err(NO_APP.to_string()),
    }
}

/// The category with the id.
pub fn require_category(data: &AppData, category_id: &str) -> (r: Result<Category, String>)
    ensures
        match r {
            Ok(c) => lists::found(data@.categories, category_has_id(category_id@)) == Some(c@),
            Err(e) => category_index(data@.categories, category_id@) is None && e@ == NO_CATEGORY@,
        },
{
    match find_category_index(&data.categories, category_id) {
        Some(k) => Ok(data.categories[k].clone()),
        None => Err(NO_CATEGORY.to_string()),
    }
}

// ---------------------------------------------------------------------------
// Categories
// ---------------------------------------------------------------------------

/// The category of a name that is new to the catalogue.
pub open spec fn new_category(
    name: Seq<char>,
    library: paths::PathView,
    there: ReviewFolders,
    now: u64,
) -> CategoryView {
    CategoryView {
        id: fnv::id_of(name),
        name,
        path: paths::path_text(layout::storage_dir(library, name, there)),
        created_at: now,
        updated_at: now,
    }
}

fn make_category(name: &str, folder: &FilePath, now: u64) -> (r: Category)
    ensures
        r@ == (CategoryView {
            id: fnv::id_of(name@),
            name: name@,
            path: paths::path_text(folder@),
            created_at: now,
            updated_at: now,
        }),
{
    Category {
        id: make_id(name),
        name: name.to_string(),
        path: path_to_string(folder),
        created_at: now,
        updated_at: now,
    }
}

/// A name that a category can have, as it is kept.
pub open spec fn clean_name(name: Seq<char>) -> Option<Seq<char>> {
    let clean = text::trimmed(name);
    if clean.len() == 0 || names::has_invalid(clean) {
        None
    } else {
        Some(clean)
    }
}

/// What is shown for a name that no category can have.
pub open spec fn name_problem(name: Seq<char>) -> Seq<char> {
    if text::trimmed(name).len() == 0 {
        names::EMPTY_CATEGORY_NAME@
    } else {
        names::INVALID_CATEGORY_NAME@
    }
}

/// Adds a category. The folder that is to be made for it is returned.
pub fn create_category(
    data: &mut AppData,
    name: &str,
    library: &FilePath,
    there: ReviewFolders,
    now: u64,
) -> (r: Result<FilePath, String>)
    ensures
        match r {
            Ok(folder) => {
                &&& clean_name(name@) matches Some(clean)
                &&& named_index(old(data)@.categories, clean) is None
                &&& folder@ == layout::storage_dir(library@, clean, there)
                &&& final(data)@ == (AppDataView {
                    categories: old(data)@.categories.push(
                        new_category(clean, library@, there, now),
                    ),
                    ..old(data)@
                })
            },
            Err(e) => {
                &&& final(data)@ == old(data)@
                &&& match clean_name(name@) {
                    None => e@ == name_problem(name@),
                    Some(clean) => named_index(old(data)@.categories, clean) is Some && e@
                        == CATEGORY_EXISTS@,
                }
            },
        },
{
    let clean = match validate_category_name(name) {
        Ok(clean) => clean,
        Err(e) => {
            return Err(e);
        },
    };
    match find_named_category(&data.categories, clean.as_str()) {
        Some(_) => {
            return Err(CATEGORY_EXISTS.to_string());
        },
        None => {},
    }
    let folder = category_storage_path(library, clean.as_str(), there);
    let category = make_category(clean.as_str(), &folder, now);
    let ghost before = data.categories@;
    data.categories.push(category);
    assert(model::views(data.categories@) =~= model::views(before).push(category@));
    Ok(folder)
}

/// The category of a name: the one in the catalogue or, where there is none,
/// a new one. The category of pending applications follows its folder. A
/// folder that is to be made is returned beside the category.
pub fn ensure_category_by_name(
    data: &mut AppData,
    category_name: &str,
    library: &FilePath,
    there: ReviewFolders,
    now: u64,
) -> (r: Result<(Category, Option<FilePath>), String>)
    ensures
        match r {
            Ok((category, folder)) => {
                &&& clean_name(category_name@) matches Some(clean)
                &&& ensured(
                    old(data)@,
                    final(data)@,
                    category@,
                    folder,
                    clean,
                    library@,
                    there,
                    now,
                )
            },
            Err(e) => clean_name(category_name@) is None && e@ == name_problem(category_name@)
                && final(data)@ == old(data)@,
        },
{
    let clean = match validate_category_name(category_name) {
        Ok(clean) => clean,
        Err(e) => {
            return Err(e);
        },
    };
    match find_named_category(&data.categories, clean.as_str()) {
        Some(k) => {
            if same_text(clean.as_str(), REVIEW_DIR) {
                let review = review_dir_path(library, there);
                let shown = path_to_string(&review);
                if !same_text(data.categories[k].path.as_str(), shown.as_str()) {
                    let ghost before = data.categories@;
                    let mut category = data.categories[k].clone();
                    category.path = shown;
                    category.updated_at = now;
                    data.categories.set(k, category.clone());
                    assert(model::views(data.categories@) =~= model::views(before).update(
                        k as int,
                        category@,
                    ));
                    return Ok((category, Some(review)));
                }
            }
            Ok((data.categories[k].clone(), None))
        },
        None => {
            let folder = category_storage_path(library, clean.as_str(), there);
            let category = make_category(clean.as_str(), &folder, now);
            let ghost before = data.categories@;
            data.categories.push(category.clone());
            assert(model::views(data.categories@) =~= model::views(before).push(category@));
            Ok((category, Some(folder)))
        },
    }
}

/// The catalogue `after` holds the category of the clean name, as far as it
/// was not in `before`.
pub open spec fn ensured(
    before: AppDataView,
    after: AppDataView,
    category: CategoryView,
    folder: Option<FilePath>,
    name: Seq<char>,
    library: paths::PathView,
    there: ReviewFolders,
    now: u64,
) -> bool {
    let review = layout::review_dir(library, there);
    match named_index(before.categories, name) {
        Some(k) => if name == REVIEW_DIR@ && before.categories[k].path != paths::path_text(
            review,
        ) {
            &&& category == CategoryView {
                path: paths::path_text(review),
                updated_at: now,
                ..before.categories[k]
            }
            &&& after == AppDataView {
                categories: before.categories.update(k, category),
                ..before
            }
            &&& folder matches Some(f) && f@ == review
        } else {
            category == before.categories[k] && after == before && folder is None
        },
        None => {
            &&& category == new_category(name, library, there, now)
            &&& after == AppDataView { categories: before.categories.push(category), ..before }
            &&& folder matches Some(f) && f@ == layout::storage_dir(library, name, there)
        },
    }
}

/// Removes a category and its applications. Where its files are to be deleted
/// too, its folder is given as the system resolves it.
pub fn delete_category(
    data: &mut AppData,
    category_id: &str,
    apps: &FilePath,
    deleted_folder: &Option<FilePath>,
) -> (r: Result<(), String>)
    ensures
        match r {
            Ok(_) => {
                &&& category_index(old(data)@.categories, category_id@) is Some
                &&& *deleted_folder matches Some(f) ==> paths::lies_in(f@, apps@)
                &&& final(data)@ == without_category(old(data)@, category_id@)
            },
            Err(e) => {
                &&& final(data)@ == old(data)@
                &&& if category_index(old(data)@.categories, category_id@) is None {
                    e@ == NO_CATEGORY@
                } else {
                    &&& *deleted_folder matches Some(f) && !paths::lies_in(f@, apps@)
                    &&& e@ == OUTSIDE_APPS@
                }
            },
        },
{
    match find_category_index(&data.categories, category_id) {
        Some(_) => {},
        None => {
            return Err(NO_CATEGORY.to_string());
        },
    }
    match deleted_folder {
        Some(folder) => {
            match ensure_inside_apps_dir(apps, folder) {
                Ok(_) => {},
                Err(e) => {
                    return Err(e);
                },
            }
        },
        None => {},
    }
    retain_categories(&mut data.categories, category_id);
    retain_apps_outside(&mut data.apps, category_id);
    Ok(())
}

/// The catalogue without a category and its applications.
pub open spec fn without_category(data: AppDataView, id: Seq<char>) -> AppDataView {
    AppDataView {
        categories: lists::kept(data.categories, category_lacks_id(id)),
        apps: lists::kept(data.apps, app_outside_category(id)),
        ..data
    }
}

fn retain_categories(categories: &mut Vec<Category>, id: &str)
    ensures
        model::views(final(categories)@) == lists::kept(
            model::views(old(categories)@),
            category_lacks_id(id@),
        ),
{
    let ghost all = model::views(categories@);
    let ghost p = category_lacks_id(id@);
    let mut out: Vec<Category> = Vec::new();
    let mut i: usize = 0;
    assert(all.take(0) =~= Seq::empty());
    assert(model::views(out@) =~= Seq::<CategoryView>::empty());
    while i < categories.len()
        invariant
            i <= categories@.len(),
            all == model::views(categories@),
            p == category_lacks_id(id@),
            model::views(out@) == lists::kept(all.take(i as int), p),
        decreases categories@.len() - i,
    {
        let ghost before = out@;
        assert(all.take(i + 1).drop_last() =~= all.take(i as int));
        assert(all.take(i + 1).last() == categories@[i as int]@);
        if !same_text(categories[i].id.as_str(), id) {
            out.push(categories[i].clone());
            assert(model::views(out@) =~= model::views(before).push(all[i as int]));
        }
        i = i + 1;
    }
    assert(all.take(i as int) =~= all);
    *categories = out;
}

fn retain_apps_outside(apps: &mut Vec<ManagedApp>, category_id: &str)
    ensures
        model::views(final(apps)@) == lists::kept(
            model::views(old(apps)@),
            app_outside_category(category_id@),
        ),
{
    let ghost all = model::views(apps@);
    let ghost p = app_outside_category(category_id@);
    let mut out: Vec<ManagedApp> = Vec::new();
    let mut i: usize = 0;
    assert(all.take(0) =~= Seq::empty());
    assert(model::views(out@) =~= Seq::<AppView>::empty());
    while i < apps.len()
        invariant
            i <= apps@.len(),
            all == model::views(apps@),
            p == app_outside_category(category_id@),
            model::views(out@) == lists::kept(all.take(i as int), p),
        decreases apps@.len() - i,
    {
        let ghost before = out@;
        assert(all.take(i + 1).drop_last() =~= all.take(i as int));
        assert(all.take(i + 1).last() == apps@[i as int]@);
        if !same_text(apps[i].category_id.as_str(), category_id) {
            out.push(apps[i].clone());
            assert(model::views(out@) =~= model::views(before).push(all[i as int]));
        }
        i = i + 1;
    }
    assert(all.take(i as int) =~= all);
    *apps = out;
}

// ---------------------------------------------------------------------------
// Applications
// ---------------------------------------------------------------------------

/// The catalogue with an application in another state.
pub open spec fn with_app(data: AppDataView, k: int, app: AppView) -> AppDataView {
    AppDataView { apps: data.apps.update(k, app), ..data }
}

/// Puts an application in the place of another.
pub fn replace_app(data: &mut AppData, k: usize, app: ManagedApp)
    requires
        k < old(data)@.apps.len(),
    ensures
        final(data)@ == with_app(old(data)@, k as int, app@),
{
    let ghost before = data.apps@;
    data.apps.set(k, app);
    assert(model::views(data.apps@) =~= model::views(before).update(k as int, app@));
}

/// An application that is a favourite where it was none, and none where it was
/// one.
pub open spec fn toggled(app: AppView) -> AppView {
    AppView { favorite: !app.favorite, ..app }
}

/// Makes an application a favourite, or makes it none.
pub fn toggle_favorite(data: &mut AppData, app_id: &str) -> (r: Result<(), String>)
    ensures
        match app_index(old(data)@.apps, app_id@) {
            Some(k) => r is Ok && final(data)@ == with_app(
                old(data)@,
                k,
                toggled(old(data)@.apps[k]),
            ),
            None => final(data)@ == old(data)@ && (r matches Err(e) && e@ == NO_APP@),
        },
        app_index(old(data)@.apps, app_id@) matches Some(k) ==> final(data)@.apps[k].favorite
            == !old(data)@.apps[k].favorite,
{
    match find_app(&data.apps, app_id) {
        Some(k) => {
            let mut app = data.apps[k].clone();
            app.favorite = !app.favorite;
            replace_app(data, k, app);
            Ok(())
        },
        None => Err(NO_APP.to_string()),
    }
}

/// Removes an application from the catalogue.
pub fn delete_app(data: &mut AppData, app_id: &str) -> (r: Result<(), String>)
    ensures
        match app_index(old(data)@.apps, app_id@) {
            Some(k) => r is Ok && final(data)@ == (AppDataView {
                apps: lists::kept(old(data)@.apps, app_lacks_id(app_id@)),
                ..old(data)@
            }),
            None => final(data)@ == old(data)@ && (r matches Err(e) && e@ == NO_APP@),
        },
{
    match find_app(&data.apps, app_id) {
        Some(_) => {},
        None => {
            return Err(NO_APP.to_string());
        },
    }
    let ghost all = model::views(data.apps@);
    let ghost p = app_lacks_id(app_id@);
    let mut out: Vec<ManagedApp> = Vec::new();
    let mut i: usize = 0;
    assert(all.take(0) =~= Seq::empty());
    assert(model::views(out@) =~= Seq::<AppView>::empty());
    while i < data.apps.len()
        invariant
            i <= data.apps@.len(),
            all == model::views(data.apps@),
            *data == *old(data),
            p == app_lacks_id(app_id@),
            model::views(out@) == lists::kept(all.take(i as int), p),
        decreases data.apps@.len() - i,
    {
        let ghost before = out@;
        assert(all.take(i + 1).drop_last() =~= all.take(i as int));
        assert(all.take(i + 1).last() == data.apps@[i as int]@);
        if !same_text(data.apps[i].id.as_str(), app_id) {
            out.push(data.apps[i].clone());
            assert(model::views(out@) =~= model::views(before).push(all[i as int]));
        }
        i = i + 1;
    }
    assert(all.take(i as int) =~= all);
    data.apps = out;
    Ok(())
}

/// The paths as they come in.
pub open spec fn incoming_all(paths_in: Seq<Seq<char>>, windows: bool) -> Seq<Seq<char>> {
    Seq::new(paths_in.len(), |i: int| paths::incoming(paths_in[i], windows))
}

pub open spec fn app_outside_folders(folders: Seq<Seq<char>>, windows: bool) -> spec_fn(
    AppView,
) -> bool {
    |a: AppView| !incoming_all(folders, windows).contains(paths::incoming(a.folder_path, windows))
}

/// Removes the applications that lie in one of the folders.
pub fn remove_review_apps_by_paths(data: &mut AppData, folders: &Vec<String>, windows: bool)
    ensures
        final(data)@ == (AppDataView {
            apps: lists::kept(
                old(data)@.apps,
                app_outside_folders(text::texts(folders@), windows),
            ),
            ..old(data)@
        }),
{
    let ghost p = app_outside_folders(text::texts(folders@), windows);
    let ghost all = model::views(data.apps@);
    if folders.len() == 0 {
        proof {
            lists::lemma_kept_all(all, p);
        }
        return;
    }
    let mut normalized: Vec<String> = Vec::new();
    let mut k: usize = 0;
    while k < folders.len()
        invariant
            k <= folders@.len(),
            text::texts(normalized@) == incoming_all(text::texts(folders@), windows).take(k as int),
        decreases folders@.len() - k,
    {
        let ghost before = normalized@;
        let folder = normalize_incoming_path(folders[k].as_str(), windows);
        normalized.push(folder);
        assert(text::texts(normalized@) =~= text::texts(before).push(folder@));
        assert(incoming_all(text::texts(folders@), windows).take(k + 1) =~= incoming_all(
            text::texts(folders@),
            windows,
        ).take(k as int).push(folder@));
        k = k + 1;
    }
    assert(incoming_all(text::texts(folders@), windows).take(k as int) =~= incoming_all(
        text::texts(folders@),
        windows,
    ));
    let mut out: Vec<ManagedApp> = Vec::new();
    let mut i: usize = 0;
    assert(all.take(0) =~= Seq::empty());
    assert(model::views(out@) =~= Seq::<AppView>::empty());
    while i < data.apps.len()
        invariant
            i <= data.apps@.len(),
            all == model::views(data.apps@),
            *data == *old(data),
            p == app_outside_folders(text::texts(folders@), windows),
            text::texts(normalized@) == incoming_all(text::texts(folders@), windows),
            model::views(out@) == lists::kept(all.take(i as int), p),
        decreases data.apps@.len() - i,
    {
        let ghost before = out@;
        assert(all.take(i + 1).drop_last() =~= all.take(i as int));
        assert(all.take(i + 1).last() == data.apps@[i as int]@);
        let folder = normalize_incoming_path(data.apps[i].folder_path.as_str(), windows);
        if !contains_string(&normalized, folder.as_str()) {
            out.push(data.apps[i].clone());
            assert(model::views(out@) =~= model::views(before).push(all[i as int]));
        }
        i = i + 1;
    }
    assert(all.take(i as int) =~= all);
    data.apps = out;
}

// ---------------------------------------------------------------------------
// Laws
// ---------------------------------------------------------------------------

/// Toggling a favourite twice changes nothing.
pub proof fn law_toggle_twice(apps: Seq<AppView>, id: Seq<char>, k: int)
    requires
        app_index(apps, id) == Some(k),
    ensures
        app_index(apps.update(k, toggled(apps[k])), id) == Some(k),
        apps.update(k, toggled(apps[k])).update(k, toggled(toggled(apps[k]))) == apps,
{
    let p = app_has_id(id);
    lists::lemma_first_from(apps, p, 0);
    let once = apps.update(k, toggled(apps[k]));
    assert(p(once[k]));
    assert forall|j: int| 0 <= j < k implies !p(#[trigger] once[j]) by {
        assert(!p(apps[j]));
    }
    lists::lemma_first_is(once, p, k);
    assert(once.update(k, toggled(toggled(apps[k]))) =~= apps);
}

/// A new category keeps the names of the categories distinct.
pub proof fn law_new_category_keeps_names_distinct(
    categories: Seq<CategoryView>,
    category: CategoryView,
)
    requires
        names_distinct(categories),
        named_index(categories, category.name) is None,
    ensures
        names_distinct(categories.push(category)),
        named_index(categories.push(category), category.name) == Some(categories.len() as int),
{
    let p = category_has_name(category.name);
    lists::lemma_first_from(categories, p, 0);
    let r = categories.push(category);
    assert forall|i: int, j: int| 0 <= i < j < r.len() implies (#[trigger] r[i]).name != (
    #[trigger] r[j]).name by {
        if j == categories.len() {
            assert(!p(categories[i]));
        } else {
            assert(r[i] == categories[i] && r[j] == categories[j]);
        }
    }
    assert(p(r[categories.len() as int]));
    assert forall|j: int| 0 <= j < categories.len() implies !p(#[trigger] r[j]) by {
        assert(!p(categories[j]));
    }
    lists::lemma_first_is(r, p, categories.len() as int);
}

/// However the category of a name is found or made, the names of the
/// categories stay distinct, the catalogue then holds the category under that
/// name, and asking for it again changes nothing.
pub proof fn law_ensured_category(
    before: AppDataView,
    after: AppDataView,
    category: CategoryView,
    folder: Option<FilePath>,
    name: Seq<char>,
    library: paths::PathView,
    there: ReviewFolders,
    now: u64,
)
    requires
        names_distinct(before.categories),
        ensured(before, after, category, folder, name, library, there, now),
    ensures
        names_distinct(after.categories),
        category.name == name,
        lists::found(after.categories, category_has_name(name)) == Some(category),
        after.apps == before.apps,
        ensured(after, after, category, None, name, library, there, now),
{
    let p = category_has_name(name);
    lists::lemma_first_from(before.categories, p, 0);
    match named_index(before.categories, name) {
        Some(k) => {
            let r = after.categories;
            assert(p(r[k]));
            assert forall|j: int| 0 <= j < k implies !p(#[trigger] r[j]) by {
                assert(!p(before.categories[j]));
            }
            lists::lemma_first_is(r, p, k);
            assert forall|i: int, j: int| 0 <= i < j < r.len() implies (#[trigger] r[i]).name != (
            #[trigger] r[j]).name by {
                assert(before.categories[i].name != before.categories[j].name);
            }
        },
        None => {
            law_new_category_keeps_names_distinct(before.categories, category);
        },
    }
}

/// A deleted category is gone, with every application in it, and nothing else
/// is.
pub proof fn law_deleted_category(
    data: AppDataView,
    id: Seq<char>,
    app: AppView,
    category: CategoryView,
)
    ensures
        without_category(data, id).apps.contains(app) == (data.apps.contains(app)
            && app.category_id != id),
        without_category(data, id).categories.contains(category) == (data.categories.contains(
            category,
        ) && category.id != id),
        category_index(without_category(data, id).categories, id) is None,
{
    lists::law_kept(data.apps, app_outside_category(id), app);
    lists::law_kept(data.categories, category_lacks_id(id), category);
    let left = without_category(data, id).categories;
    assert forall|j: int| 0 <= j < left.len() implies !(category_has_id(id))(#[trigger] left[j]) by {
        assert(left.contains(left[j]));
        lists::law_kept(data.categories, category_lacks_id(id), left[j]);
    }
    lists::lemma_first_none(left, category_has_id(id));
}

/// A deleted application is gone, and nothing else is.
pub proof fn law_deleted_app(apps: Seq<AppView>, id: Seq<char>, app: AppView)
    ensures
        lists::kept(apps, app_lacks_id(id)).contains(app) == (apps.contains(app) && app.id != id),
        app_index(lists::kept(apps, app_lacks_id(id)), id) is None,
{
    lists::law_kept(apps, app_lacks_id(id), app);
    let left = lists::kept(apps, app_lacks_id(id));
    assert forall|j: int| 0 <= j < left.len() implies !(app_has_id(id))(#[trigger] left[j]) by {
        assert(left.contains(left[j]));
        lists::law_kept(apps, app_lacks_id(id), left[j]);
    }
    lists::lemma_first_none(left, app_has_id(id));
}

/// Whatever is deleted, the ids of the applications and the names of the
/// categories stay distinct.
pub proof fn law_deletions_keep_distinct(
    data: AppDataView,
    id: Seq<char>,
    folders: Seq<Seq<char>>,
    windows: bool,
)
    requires
        ids_distinct(data.apps),
        names_distinct(data.categories),
    ensures
        ids_distinct(lists::kept(data.apps, app_lacks_id(id))),
        ids_distinct(lists::kept(data.apps, app_outside_folders(folders, windows))),
        ids_distinct(without_category(data, id).apps),
        names_distinct(without_category(data, id).categories),
{
    let app_key = |a: AppView| a.id;
    let category_key = |c: CategoryView| c.name;
    assert(lists::keys_distinct(data.apps, app_key));
    assert(lists::keys_distinct(data.categories, category_key));
    lists::lemma_kept_keys(data.apps, app_lacks_id(id), app_key);
    lists::lemma_kept_keys(data.apps, app_outside_folders(folders, windows), app_key);
    lists::lemma_kept_keys(data.apps, app_outside_category(id), app_key);
    lists::lemma_kept_keys(data.categories, category_lacks_id(id), category_key);
    lemma_ids_by_key(lists::kept(data.apps, app_lacks_id(id)));
    lemma_ids_by_key(lists::kept(data.apps, app_outside_folders(folders, windows)));
    lemma_ids_by_key(without_category(data, id).apps);
    let left = without_category(data, id).categories;
    assert forall|i: int, j: int| 0 <= i < j < left.len() implies (#[trigger] left[i]).name != (
    #[trigger] left[j]).name by {
        assert(category_key(left[i]) != category_key(left[j]));
    }
}

proof fn lemma_ids_by_key(apps: Seq<AppView>)
    requires
        lists::keys_distinct(apps, |a: AppView| a.id),
    ensures
        ids_distinct(apps),
{
    let key = |a: AppView| a.id;
    assert forall|i: int, j: int| 0 <= i < j < apps.len() implies (#[trigger] apps[i]).id != (
    #[trigger] apps[j]).id by {
        assert(key(apps[i]) != key(apps[j]));
    }
}

/// A change to an application that leaves its id alone, such as making it a
/// favourite, keeps the ids distinct and touches no other application.
pub proof fn law_change_keeps_ids_distinct(data: AppDataView, k: int, app: AppView)
    requires
        0 <= k < data.apps.len(),
        app.id == data.apps[k].id,
        ids_distinct(data.apps),
    ensures
        ids_distinct(with_app(data, k, app).apps),
        forall|j: int|
            0 <= j < data.apps.len() && j != k ==> #[trigger] with_app(data, k, app).apps[j]
                == data.apps[j],
        toggled(data.apps[k]).id == data.apps[k].id,
{
    let after = with_app(data, k, app).apps;
    assert forall|i: int, j: int| 0 <= i < j < after.len() implies (#[trigger] after[i]).id != (
    #[trigger] after[j]).id by {
        assert(data.apps[i].id != data.apps[j].id);
    }
}

/// Marking an application turns its mark and changes nothing else of it, of the
/// other applications or of the catalogue.
pub proof fn law_toggled(data: AppDataView, k: int)
    requires
        0 <= k < data.apps.len(),
    ensures
        ({
            let r = with_app(data, k, toggled(data.apps[k]));
            let app = data.apps[k];
            &&& r.apps.len() == data.apps.len()
            &&& r.apps[k].favorite == !app.favorite
            &&& r.apps[k] == AppView { favorite: r.apps[k].favorite, ..app }
            &&& forall|j: int|
                0 <= j < data.apps.len() && j != k ==> #[trigger] r.apps[j] == data.apps[j]
            &&& r.categories == data.categories
            &&& r.settings == data.settings
            &&& r.library_path == data.library_path
        }),
{
}

/// A new category has the identifier of its name, the folder in which the library
/// keeps it, and the present time.
pub proof fn law_new_category(
    name: Seq<char>,
    library: paths::PathView,
    there: ReviewFolders,
    now: u64,
)
    ensures
        ({
            let c = new_category(name, library, there, now);
            &&& c.name == name
            &&& c.id == fnv::id_of(name)
            &&& c.path == paths::path_text(
                if name == "未审核软件"@ {
                    layout::review_dir(library, there)
                } else {
                    layout::category_dir(library, name)
                },
            )
            &&& c.created_at == now
            &&& c.updated_at == now
        }),
{
}

/// A category's name is taken without the white space around it; it is refused
/// where nothing is left, and where it holds a character that a folder's name
/// cannot hold.
pub proof fn law_clean_name(front: Seq<char>, s: Seq<char>, back: Seq<char>)
    requires
        text::all_white(front),
        text::all_white(back),
        text::is_trimmed(s),
    ensures
        ({
            let bad = exists|i: int|
                0 <= i < s.len() && (#[trigger] s[i] == '<' || s[i] == '>' || s[i] == ':' || s[i]
                    == '"' || s[i] == '/' || s[i] == '\\' || s[i] == '|' || s[i] == '?' || s[i]
                    == '*');
            &&& s.len() > 0 && !bad ==> clean_name(front + s + back) == Some(s)
            &&& s.len() == 0 || bad ==> clean_name(front + s + back) is None
            &&& s.len() == 0 ==> name_problem(front + s + back) == names::EMPTY_CATEGORY_NAME@
            &&& s.len() > 0 ==> name_problem(front + s + back) == names::INVALID_CATEGORY_NAME@
        }),
{
    text::law_trimmed(front, s, back);
    if names::has_invalid(s) {
        let i = choose|i: int| 0 <= i < s.len() && names::is_invalid(#[trigger] s[i]);
        assert(names::is_invalid(s[i]));
    }
}

/// A category that is asked for by its name: where the catalogue has it, it is
/// that one and nothing is made or changed, unless the folder of the pending
/// applications has moved, to which the path of their category is then set. Where
/// the catalogue lacks it, it comes last, and its folder is to be made.
pub proof fn law_ensured_what(
    before: AppDataView,
    after: AppDataView,
    category: CategoryView,
    folder: Option<FilePath>,
    name: Seq<char>,
    library: paths::PathView,
    there: ReviewFolders,
    now: u64,
    k: int,
)
    requires
        ensured(before, after, category, folder, name, library, there, now),
    ensures
        after.settings == before.settings,
        after.library_path == before.library_path,
        after.apps == before.apps,
        (forall|i: int| 0 <= i < before.categories.len() ==> (#[trigger] before.categories[i]).name
            != name) ==> {
            &&& after.categories == before.categories.push(category)
            &&& category.name == name
            &&& category.id == fnv::id_of(name)
            &&& category.created_at == now
            &&& category.updated_at == now
            &&& category.path == paths::path_text(layout::storage_dir(library, name, there))
            &&& folder matches Some(f) && paths::path_text(f@) == category.path
        },
        0 <= k < before.categories.len() && before.categories[k].name == name && (forall|i: int|
            0 <= i < k ==> (#[trigger] before.categories[i]).name != name) ==> {
            &&& after.categories.len() == before.categories.len()
            &&& after.categories[k] == category
            &&& forall|j: int|
                0 <= j < before.categories.len() && j != k ==> #[trigger] after.categories[j]
                    == before.categories[j]
            &&& category.id == before.categories[k].id
            &&& category.name == name
            &&& category.created_at == before.categories[k].created_at
            &&& name != "未审核软件"@ ==> category == before.categories[k] && folder is None
            &&& name == "未审核软件"@ ==> category.path == paths::path_text(
                layout::review_dir(library, there),
            )
            &&& category.path == before.categories[k].path ==> category == before.categories[k]
                && folder is None
            &&& category.path != before.categories[k].path ==> category.updated_at == now && (
            folder matches Some(f) && paths::path_text(f@) == category.path)
        },
{
    let p = category_has_name(name);
    lists::law_first(before.categories, p);
    if forall|i: int| 0 <= i < before.categories.len() ==> (#[trigger] before.categories[i]).name
        != name {
        if let Some(m) = named_index(before.categories, name) {
            assert(p(before.categories[m]));
        }
    }
    if 0 <= k < before.categories.len() && before.categories[k].name == name && (forall|i: int|
        0 <= i < k ==> (#[trigger] before.categories[i]).name != name) {
        assert forall|j: int| 0 <= j < k implies !p(#[trigger] before.categories[j]) by {}
        lists::lemma_first_is(before.categories, p, k);
    }
}

/// Deleting a category leaves the settings and the library's place alone.
pub proof fn law_deleted_category_keeps_rest(data: AppDataView, id: Seq<char>)
    ensures
        without_category(data, id).settings == data.settings,
        without_category(data, id).library_path == data.library_path,
{
}

/// Two texts name the same folder: they are equal, or on Windows equal but for
/// slashes that stand for backslashes.
pub open spec fn same_folder_text(a: Seq<char>, b: Seq<char>, windows: bool) -> bool {
    &&& a.len() == b.len()
    &&& forall|i: int|
        0 <= i < a.len() ==> #[trigger] a[i] == b[i] || (windows && (a[i] == '/' || a[i] == '\\')
            && (b[i] == '/' || b[i] == '\\'))
}

/// Texts that name the same folder are the same on the system at hand.
pub proof fn lemma_same_folder_text(a: Seq<char>, b: Seq<char>, windows: bool)
    ensures
        same_folder_text(a, b, windows) == (paths::incoming(a, windows) == paths::incoming(
            b,
            windows,
        )),
{
    paths::law_incoming(a);
    paths::law_incoming(b);
    let x = paths::incoming(a, windows);
    let y = paths::incoming(b, windows);
    if same_folder_text(a, b, windows) {
        assert forall|i: int| 0 <= i < a.len() implies x[i] == y[i] by {
            assert(a[i] == b[i] || (windows && (a[i] == '/' || a[i] == '\\') && (b[i] == '/'
                || b[i] == '\\')));
        }
        assert(x =~= y);
    }
    if x == y {
        assert(a.len() == b.len());
        assert forall|i: int| 0 <= i < a.len() implies #[trigger] a[i] == b[i] || (windows && (a[i]
            == '/' || a[i] == '\\') && (b[i] == '/' || b[i] == '\\')) by {
            assert(x[i] == y[i]);
        }
    }
}

/// The applications of the given folders leave the catalogue, and only they.
pub proof fn law_removed_by_folders(
    apps: Seq<AppView>,
    folders: Seq<Seq<char>>,
    windows: bool,
    app: AppView,
)
    ensures
        lists::kept(apps, app_outside_folders(folders, windows)).contains(app) == (apps.contains(
            app,
        ) && forall|i: int|
            0 <= i < folders.len() ==> !same_folder_text(
                #[trigger] folders[i],
                app.folder_path,
                windows,
            )),
{
    let p = app_outside_folders(folders, windows);
    lists::law_kept(apps, p, app);
    let all = incoming_all(folders, windows);
    let own = paths::incoming(app.folder_path, windows);
    if all.contains(own) {
        let i = choose|i: int| 0 <= i < all.len() && all[i] == own;
        lemma_same_folder_text(folders[i], app.folder_path, windows);
        assert(same_folder_text(folders[i], app.folder_path, windows));
    } else {
        assert forall|i: int| 0 <= i < folders.len() implies !same_folder_text(
            #[trigger] folders[i],
            app.folder_path,
            windows,
        ) by {
            lemma_same_folder_text(folders[i], app.folder_path, windows);
            assert(all[i] == paths::incoming(folders[i], windows));
            assert(all.contains(all[i]));
        }
    }
}

/// Applications and categories are found by their identifiers, and categories
/// also by their names: each search gives the first that has what is asked for,
/// and nothing where none has.
pub proof fn law_found_by_id(data: AppDataView, id: Seq<char>, k: int)
    ensures
        0 <= k < data.apps.len() && data.apps[k].id == id && (forall|j: int|
            0 <= j < k ==> (#[trigger] data.apps[j]).id != id) ==> app_index(data.apps, id) == Some(k)
            && lists::found(data.apps, app_has_id(id)) == Some(data.apps[k]),
        (forall|j: int| 0 <= j < data.apps.len() ==> (#[trigger] data.apps[j]).id != id)
            ==> app_index(data.apps, id) is None && lists::found(
            data.apps,
            app_has_id(id),
        ) is None,
        0 <= k < data.categories.len() && data.categories[k].id == id && (forall|j: int|
            0 <= j < k ==> (#[trigger] data.categories[j]).id != id) ==> category_index(
            data.categories,
            id,
        ) == Some(k) && lists::found(data.categories, category_has_id(id)) == Some(
            data.categories[k],
        ),
        (forall|j: int| 0 <= j < data.categories.len() ==> (#[trigger] data.categories[j]).id != id)
            ==> category_index(data.categories, id) is None && lists::found(
            data.categories,
            category_has_id(id),
        ) is None,
        0 <= k < data.categories.len() && data.categories[k].name == id && (forall|j: int|
            0 <= j < k ==> (#[trigger] data.categories[j]).name != id) ==> named_index(
            data.categories,
            id,
        ) == Some(k),
        (forall|j: int|
            0 <= j < data.categories.len() ==> (#[trigger] data.categories[j]).name != id)
            ==> named_index(data.categories, id) is None,
{
    let p = app_has_id(id);
    let q = category_has_id(id);
    let r = category_has_name(id);
    lists::law_found(data.apps, p, k);
    lists::law_found(data.categories, q, k);
    lists::law_first(data.apps, p);
    lists::law_first(data.categories, q);
    lists::law_first(data.categories, r);
    if 0 <= k < data.apps.len() && data.apps[k].id == id && (forall|j: int|
        0 <= j < k ==> (#[trigger] data.apps[j]).id != id) {
        assert(forall|j: int| 0 <= j < k ==> !p(#[trigger] data.apps[j]));
        lists::lemma_first_is(data.apps, p, k);
    }
    if 0 <= k < data.categories.len() && data.categories[k].id == id && (forall|j: int|
        0 <= j < k ==> (#[trigger] data.categories[j]).id != id) {
        assert(forall|j: int| 0 <= j < k ==> !q(#[trigger] data.categories[j]));
        lists::lemma_first_is(data.categories, q, k);
    }
    if 0 <= k < data.categories.len() && data.categories[k].name == id && (forall|j: int|
        0 <= j < k ==> (#[trigger] data.categories[j]).name != id) {
        assert(forall|j: int| 0 <= j < k ==> !r(#[trigger] data.categories[j]));
        lists::lemma_first_is(data.categories, r, k);
    }
}

} // verus!
