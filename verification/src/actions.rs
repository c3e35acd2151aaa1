//! What the user does with applications.

use vstd::prelude::*;
use crate::catalog;
use crate::catalog::{find_app, replace_app, require_app, NO_APP, NO_TARGET_CATEGORY};
use crate::executables;
use crate::executables::is_executable_file;
use crate::icons;
use crate::icons::{read_image_as_data_url, validate_image_data_url, LoadedImage};
use crate::lists;
use crate::lists::list_texts;
use crate::model;
use crate::model::{
    copy_texts, AppData, AppDataView, AppView, Category, CategoryView, LaunchResult,
    LaunchResultView, ManagedApp, SettingsView,
};
use crate::names::contains_string;
use crate::paths;
use crate::paths::{
    ensure_inside_apps_dir, normalize_incoming_path, path_to_string, FilePath, PathView,
    OUTSIDE_APPS,
};
use crate::text;
use crate::text::{same_text, trim};

verus! {

/// Shown where an application has no program.
pub const NO_EXECUTABLE: &'static str = "该软件还没有设置启动程序";

/// Shown where an application's program is gone.
pub const EXECUTABLE_GONE: &'static str = "启动程序不存在，请重新扫描或编辑软件信息";

/// Shown where an application is to have no name.
pub const EMPTY_APP_NAME: &'static str = "软件名称不能为空";

/// Shown where a chosen program is not there.
pub const EXECUTABLE_MISSING: &'static str = "启动程序不存在";

/// Shown where a chosen file is no program.
pub const NOT_A_PROGRAM: &'static str = "启动程序必须是 .exe 文件";

/// Shown where the name of a program cannot be read.
pub const NO_FILE_NAME: &'static str = "无法读取软件文件名";

/// Shown where the name of an application's folder cannot be read.
pub const NO_FOLDER_NAME: &'static str = "无法读取软件文件夹名";

/// Shown where the category has a program of that name already.
pub const FILE_TAKEN: &'static str = "目标分类中已存在同名软件文件";

/// Shown where the category has a folder of that name already.
pub const FOLDER_TAKEN: &'static str = "目标分类中已存在同名软件文件夹";

/// A path and where the system resolves it to.
#[derive(Debug)]
pub struct PlacedPath {
    pub path: FilePath,
    pub resolved: FilePath,
}

// ---------------------------------------------------------------------------
// Launching
// ---------------------------------------------------------------------------

/// The program that starts an application.
pub fn launch_target(data: &AppData, app_id: &str) -> (r: Result<String, String>)
    ensures
        match catalog::app_index(data@.apps, app_id@) {
            None => r matches Err(e) && e@ == NO_APP@,
            Some(k) => match data@.apps[k].executable_path {
                Some(p) => r matches Ok(target) && target@ == p,
                None => r matches Err(e) && e@ == NO_EXECUTABLE@,
            },
        },
{
    match find_app(&data.apps, app_id) {
        None => Err(NO_APP.to_string()),
        Some(k) => match &data.apps[k].executable_path {
            Some(p) => Ok(p.clone()),
            None => Err(NO_EXECUTABLE.to_string()),
        },
    }
}

/// An application after it was launched.
pub open spec fn launched_app(app: AppView, now: u64) -> AppView {
    AppView {
        launch_count: (app.launch_count + 1) as u64,
        last_launched_at: Some(now),
        ..app
    }
}

/// The reason why a launch of an application counts for nothing.
pub open spec fn launch_problem(
    data: AppDataView,
    id: Seq<char>,
    there: bool,
    launched: Result<(), String>,
) -> Option<Seq<char>> {
    match catalog::app_index(data.apps, id) {
        None => Some(NO_APP@),
        Some(k) => if data.apps[k].executable_path is None {
            Some(NO_EXECUTABLE@)
        } else if !there {
            Some(EXECUTABLE_GONE@)
        } else {
            match launched {
                Ok(_) => None,
                Err(e) => Some(e@),
            }
        },
    }
}

/// The count of launches of an application can still grow.
pub open spec fn can_count_launch(apps: Seq<AppView>, id: Seq<char>) -> bool {
    catalog::app_index(apps, id) matches Some(k) ==> apps[k].launch_count < u64::MAX
}

/// Takes note of a launch. Whether the program was there, and how the system
/// took the launch, is given.
pub fn launch_app_inner(
    data: &mut AppData,
    app_id: &str,
    executable_is_there: bool,
    launched: Result<(), String>,
    now: u64,
) -> (r: Result<LaunchResult, String>)
    requires
        can_count_launch(old(data)@.apps, app_id@),
    ensures
        match launch_problem(old(data)@, app_id@, executable_is_there, launched) {
            Some(problem) => final(data)@ == old(data)@ && (r matches Err(e) && e@ == problem),
            None => {
                let k = catalog::app_index(old(data)@.apps, app_id@)->0;
                let app = launched_app(old(data)@.apps[k], now);
                &&& final(data)@ == catalog::with_app(old(data)@, k, app)
                &&& r matches Ok(result)
                &&& result@ == (LaunchResultView {
                    app_id: app.id,
                    launch_count: app.launch_count,
                    last_launched_at: now,
                })
            },
        },
{
    match find_app(&data.apps, app_id) {
        None => Err(NO_APP.to_string()),
        Some(k) => {
            if data.apps[k].executable_path.is_none() {
                return Err(NO_EXECUTABLE.to_string());
            }
            if !executable_is_there {
                return Err(EXECUTABLE_GONE.to_string());
            }
            match launched {
                Err(e) => {
                    return Err(e);
                },
                Ok(_) => {},
            }
            let mut app = data.apps[k].clone();
            assert(app@ == data@.apps[k as int]);
            app.launch_count = app.launch_count + 1;
            app.last_launched_at = Some(now);
            let result = LaunchResult {
                app_id: app.id.clone(),
                launch_count: app.launch_count,
                last_launched_at: now,
            };
            replace_app(data, k, app);
            Ok(result)
        },
    }
}

// ---------------------------------------------------------------------------
// Editing
// ---------------------------------------------------------------------------

/// What the user entered for an application.
#[derive(Debug)]
pub struct UpdateAppInfoRequest {
    pub app_id: String,
    pub name: String,
    pub note: String,
    pub icon_path: Option<String>,
    pub icon_data_url: Option<String>,
    pub executable_path: Option<String>,
}

/// What the user wants of a path.
#[derive(Debug)]
pub enum PathChange {
    Keep,
    Clear,
    Choose(String),
}

/// What the user wants of a path: an empty one is cleared.
pub fn path_change(entered: &Option<String>, windows: bool) -> (r: PathChange)
    ensures
        match *entered {
            None => r is Keep,
            Some(path) => if text::trimmed(path@).len() == 0 {
                r is Clear
            } else {
                r matches PathChange::Choose(p) && p@ == paths::incoming(
                    text::trimmed(path@),
                    windows,
                )
            },
        },
{
    match entered {
        None => PathChange::Keep,
        Some(path) => {
            let clean = trim(path.as_str());
            if clean.as_str().is_empty() {
                PathChange::Clear
            } else {
                PathChange::Choose(normalize_incoming_path(clean.as_str(), windows))
            }
        },
    }
}

/// The program that the user wants for an application, with whether it is
/// there.
#[derive(Debug)]
pub enum ProgramChange {
    Keep,
    Clear,
    Choose(PlacedPath, bool),
}

/// The reason why an application cannot have a program.
pub open spec fn program_problem(apps: PathView, change: ProgramChange) -> Option<Seq<char>> {
    match change {
        ProgramChange::Choose(placed, there) => if !paths::lies_in(placed.resolved@, apps) {
            Some(OUTSIDE_APPS@)
        } else if !there {
            Some(EXECUTABLE_MISSING@)
        } else if !executables::is_program(placed.path@) {
            Some(NOT_A_PROGRAM@)
        } else {
            None
        },
        _ => None,
    }
}

/// The application with another program, which is then among its candidates.
pub open spec fn with_program(app: AppView, change: ProgramChange) -> AppView {
    match change {
        ProgramChange::Keep => app,
        ProgramChange::Clear => AppView { executable_path: None, ..app },
        ProgramChange::Choose(placed, _) => {
            let p = paths::path_text(placed.path@);
            AppView {
                executable_path: Some(p),
                executable_candidates: if app.executable_candidates.contains(p) {
                    app.executable_candidates
                } else {
                    lists::listed(app.executable_candidates.push(p))
                },
                ..app
            }
        },
    }
}

/// The icon that the user wants: of an image file, and then of a data URL.
pub open spec fn wanted_icon(
    current: Option<Seq<char>>,
    image: Option<LoadedImage>,
    url: Option<Seq<char>>,
) -> Result<Option<Seq<char>>, Seq<char>> {
    let first = match image {
        None => Ok(current),
        Some(i) => match icons::loaded_url(i) {
            Ok(u) => Ok(Some(u)),
            Err(e) => Err(e),
        },
    };
    match (first, url) {
        (Err(e), _) => Err(e),
        (Ok(icon), None) => Ok(icon),
        (Ok(_), Some(u)) => {
            let clean = text::trimmed(u);
            if vstd::utf8::encode_utf8(clean).len() > icons::MAX_ICON_BYTES {
                Err(icons::ICON_TOO_LARGE@)
            } else {
                match icons::decoded_image(clean) {
                    Ok(_) => Ok(Some(clean)),
                    Err(e) => Err(e),
                }
            }
        },
    }
}

/// The name that an application gets, as it is kept.
pub fn check_app_name(name: &str) -> (r: Result<String, String>)
    ensures
        match r {
            Ok(clean) => clean@ == text::trimmed(name@) && clean@.len() > 0,
            Err(e) => text::trimmed(name@).len() == 0 && e@ == EMPTY_APP_NAME@,
        },
{
    let clean = trim(name);
    if clean.as_str().is_empty() {
        return Err(EMPTY_APP_NAME.to_string());
    }
    Ok(clean)
}

/// What an edit of an application comes to.
pub open spec fn edited(
    data: AppDataView,
    request: UpdateAppInfoRequest,
    apps: PathView,
    program: ProgramChange,
    image: Option<LoadedImage>,
) -> Result<AppDataView, Seq<char>> {
    let name = text::trimmed(request.name@);
    if name.len() == 0 {
        Err(EMPTY_APP_NAME@)
    } else {
        match catalog::app_index(data.apps, request.app_id@) {
            None => Err(NO_APP@),
            Some(k) => {
                let app = data.apps[k];
                match program_problem(apps, program) {
                    Some(e) => Err(e),
                    None => match wanted_icon(
                        app.icon_data_url,
                        image,
                        text::opt_text(request.icon_data_url),
                    ) {
                        Err(e) => Err(e),
                        Ok(icon) => Ok(
                            catalog::with_app(
                                data,
                                k,
                                AppView {
                                    name,
                                    note: text::trimmed(request.note@),
                                    icon_data_url: icon,
                                    ..with_program(app, program)
                                },
                            ),
                        ),
                    },
                }
            },
        }
    }
}

fn check_program(apps: &FilePath, change: &ProgramChange) -> (r: Result<(), String>)
    ensures
        match r {
            Ok(_) => program_problem(apps@, *change) is None,
            Err(e) => program_problem(apps@, *change) == Some(e@),
        },
{
    match change {
        ProgramChange::Choose(placed, there) => {
            match ensure_inside_apps_dir(apps, &placed.resolved) {
                Ok(_) => {},
                Err(e) => {
                    return Err(e);
                },
            }
            if !*there {
                return Err(EXECUTABLE_MISSING.to_string());
            }
            if !is_executable_file(&placed.path) {
                return Err(NOT_A_PROGRAM.to_string());
            }
            Ok(())
        },
        _ => Ok(()),
    }
}

fn set_program(app: &mut ManagedApp, change: &ProgramChange)
    ensures
        final(app)@ == with_program(old(app)@, *change),
{
    match change {
        ProgramChange::Keep => {},
        ProgramChange::Clear => {
            app.executable_path = None;
        },
        ProgramChange::Choose(placed, _) => {
            let p = path_to_string(&placed.path);
            if !contains_string(&app.executable_candidates, p.as_str()) {
                let mut candidates = copy_texts(&app.executable_candidates);
                let ghost before = candidates@;
                candidates.push(p.clone());
                assert(text::texts(candidates@) =~= text::texts(before).push(p@));
                app.executable_candidates = list_texts(candidates);
            }
            app.executable_path = Some(p);
        },
    }
}

fn choose_icon(
    current: &Option<String>,
    image: &Option<LoadedImage>,
    url: &Option<String>,
) -> (r: Result<Option<String>, String>)
    ensures
        match r {
            Ok(icon) => wanted_icon(
                text::opt_text(*current),
                *image,
                text::opt_text(*url),
            ) == Ok::<_, Seq<char>>(text::opt_text(icon)),
            Err(e) => wanted_icon(
                text::opt_text(*current),
                *image,
                text::opt_text(*url),
            ) == Err::<Option<Seq<char>>, _>(e@),
        },
{
    let mut icon = model::copy_opt_text(current);
    match image {
        Some(i) => {
            match read_image_as_data_url(i) {
                Ok(u) => {
                    icon = Some(u);
                },
                Err(e) => {
                    return Err(e);
                },
            }
        },
        None => {},
    }
    match url {
        Some(u) => {
            match validate_image_data_url(u.as_str()) {
                Ok(clean) => {
                    icon = Some(clean);
                },
                Err(e) => {
                    return Err(e);
                },
            }
        },
        None => {},
    }
    Ok(icon)
}

/// The application at `k` is the first with the id.
pub open spec fn is_first_with_id(apps: Seq<AppView>, k: int, id: Seq<char>) -> bool {
    0 <= k < apps.len() && apps[k].id == id && forall|j: int|
        0 <= j < k ==> (#[trigger] apps[j]).id != id
}

/// Changes an application as the user entered it. The program and the image
/// that the entered paths lead to are given.
pub fn update_app_info(
    data: &mut AppData,
    request: &UpdateAppInfoRequest,
    apps: &FilePath,
    program: &ProgramChange,
    image: &Option<LoadedImage>,
) -> (r: Result<(), String>)
    ensures
        match r {
            Ok(_) => edited(old(data)@, *request, apps@, *program, *image) == Ok::<_, Seq<char>>(
                final(data)@,
            ),
            Err(e) => edited(old(data)@, *request, apps@, *program, *image) == Err::<
                AppDataView,
                _,
            >(e@) && final(data)@ == old(data)@,
        },
        r is Ok ==> forall|k: int|
            is_first_with_id(old(data)@.apps, k, request.app_id@) ==> {
                let was = old(data)@.apps[k];
                let is = #[trigger] final(data)@.apps[k];
                &&& is.name == text::trimmed(request.name@)
                &&& is.note == text::trimmed(request.note@)
                &&& is.id == was.id && is.favorite == was.favorite && is.launch_count
                    == was.launch_count
                &&& *program is Keep ==> is.executable_path == was.executable_path
                &&& *program is Clear ==> is.executable_path is None
                &&& *program matches ProgramChange::Choose(chosen, _) ==> is.executable_path
                    == Some(paths::path_text(chosen.path@)) && is.executable_candidates.contains(
                    paths::path_text(chosen.path@),
                ) && forall|x: Seq<char>|
                    was.executable_candidates.contains(x)
                        ==> #[trigger] is.executable_candidates.contains(x)
            },
{
    let ghost before = data@;
    proof {
        assert forall|k: int| #[trigger]
            is_first_with_id(before.apps, k, request.app_id@) implies edited(
            before,
            *request,
            apps@,
            *program,
            *image,
        ) matches Ok(after) ==> {
            let was = before.apps[k];
            let is = after.apps[k];
            &&& is.name == text::trimmed(request.name@)
            &&& is.note == text::trimmed(request.note@)
            &&& is.id == was.id && is.favorite == was.favorite && is.launch_count
                == was.launch_count
            &&& *program is Keep ==> is.executable_path == was.executable_path
            &&& *program is Clear ==> is.executable_path is None
            &&& *program matches ProgramChange::Choose(chosen, _) ==> is.executable_path == Some(
                paths::path_text(chosen.path@),
            ) && is.executable_candidates.contains(paths::path_text(chosen.path@)) && forall|
                x: Seq<char>,
            |
                was.executable_candidates.contains(x)
                    ==> #[trigger] is.executable_candidates.contains(x)
        } by {
            law_edited_app(before, *request, apps@, *program, *image, k);
        }
    }
    let name = match check_app_name(request.name.as_str()) {
        Ok(name) => name,
        Err(e) => {
            return Err(e);
        },
    };
    let k: usize = match find_app(&data.apps, request.app_id.as_str()) {
        Some(k) => k,
        None => {
            return Err(NO_APP.to_string());
        },
    };
    match check_program(apps, program) {
        Ok(_) => {},
        Err(e) => {
            return Err(e);
        },
    }
    let mut app = data.apps[k].clone();
    assert(app@ == data@.apps[k as int]);
    match choose_icon(&app.icon_data_url, image, &request.icon_data_url) {
        Ok(icon) => {
            set_program(&mut app, program);
            app.name = name;
            app.note = trim(request.note.as_str());
            app.icon_data_url = icon;
            replace_app(data, k, app);
            Ok(())
        },
        Err(e) => Err(e),
    }
}

// ---------------------------------------------------------------------------
// Favourites
// ---------------------------------------------------------------------------

/// The ids of the favourites, in the order of the catalogue.
pub open spec fn favorite_ids(apps: Seq<AppView>) -> Seq<Seq<char>>
    decreases apps.len(),
{
    if apps.len() == 0 {
        Seq::empty()
    } else if apps.last().favorite {
        favorite_ids(apps.drop_last()).push(apps.last().id)
    } else {
        favorite_ids(apps.drop_last())
    }
}

/// The list `start` with those of the ids behind it that are allowed and not
/// in it already.
pub open spec fn extended(
    start: Seq<Seq<char>>,
    ids: Seq<Seq<char>>,
    allowed: Seq<Seq<char>>,
) -> Seq<Seq<char>>
    decreases ids.len(),
{
    if ids.len() == 0 {
        start
    } else {
        let before = extended(start, ids.drop_last(), allowed);
        if allowed.contains(ids.last()) && !before.contains(ids.last()) {
            before.push(ids.last())
        } else {
            before
        }
    }
}

/// The order of the favourites: the asked one, and behind it the favourites
/// that were left out.
pub open spec fn ordered_favorites(apps: Seq<AppView>, asked: Seq<Seq<char>>) -> Seq<Seq<char>> {
    let all = favorite_ids(apps);
    extended(extended(Seq::empty(), asked, all), all, all)
}

fn collect_favorites(apps: &Vec<ManagedApp>) -> (r: Vec<String>)
    ensures
        text::texts(r@) == favorite_ids(model::views(apps@)),
{
    let ghost all = model::views(apps@);
    let mut out: Vec<String> = Vec::new();
    let mut i: usize = 0;
    assert(all.take(0) =~= Seq::empty());
    assert(text::texts(out@) =~= Seq::empty());
    while i < apps.len()
        invariant
            i <= apps@.len(),
            all == model::views(apps@),
            text::texts(out@) == favorite_ids(all.take(i as int)),
        decreases apps@.len() - i,
    {
        let ghost before = out@;
        assert(all.take(i + 1).drop_last() =~= all.take(i as int));
        assert(all.take(i + 1).last() == apps@[i as int]@);
        if apps[i].favorite {
            out.push(apps[i].id.clone());
            assert(text::texts(out@) =~= text::texts(before).push(apps@[i as int]@.id));
        }
        i = i + 1;
    }
    assert(all.take(i as int) =~= all);
    out
}

fn extend_order(out: &mut Vec<String>, ids: &Vec<String>, allowed: &Vec<String>)
    ensures
        text::texts(final(out)@) == extended(
            text::texts(old(out)@),
            text::texts(ids@),
            text::texts(allowed@),
        ),
{
    let ghost start = text::texts(out@);
    let ghost all = text::texts(ids@);
    let mut i: usize = 0;
    assert(all.take(0) =~= Seq::empty());
    while i < ids.len()
        invariant
            i <= ids@.len(),
            all == text::texts(ids@),
            text::texts(out@) == extended(start, all.take(i as int), text::texts(allowed@)),
        decreases ids@.len() - i,
    {
        let ghost before = out@;
        assert(all.take(i + 1).drop_last() =~= all.take(i as int));
        assert(all.take(i + 1).last() == ids@[i as int]@);
        if contains_string(allowed, ids[i].as_str()) && !contains_string(out, ids[i].as_str()) {
            out.push(ids[i].clone());
            assert(text::texts(out@) =~= text::texts(before).push(ids@[i as int]@));
        }
        i = i + 1;
    }
    assert(all.take(i as int) =~= all);
}

/// Sets the order of the favourites.
pub fn update_favorite_order(data: &mut AppData, app_ids: &Vec<String>)
    ensures
        final(data)@ == (AppDataView {
            settings: SettingsView {
                favorite_order: ordered_favorites(old(data)@.apps, text::texts(app_ids@)),
                ..old(data)@.settings
            },
            ..old(data)@
        }),
{
    let favorites = collect_favorites(&data.apps);
    let mut order: Vec<String> = Vec::new();
    assert(text::texts(order@) =~= Seq::empty());
    extend_order(&mut order, app_ids, &favorites);
    extend_order(&mut order, &favorites, &favorites);
    data.settings.favorite_order = order;
}

proof fn lemma_extended(start: Seq<Seq<char>>, ids: Seq<Seq<char>>, allowed: Seq<Seq<char>>)
    requires
        lists::distinct(start),
        forall|i: int| 0 <= i < start.len() ==> allowed.contains(#[trigger] start[i]),
    ensures
        lists::distinct(extended(start, ids, allowed)),
        forall|i: int|
            0 <= i < extended(start, ids, allowed).len() ==> allowed.contains(
                #[trigger] extended(start, ids, allowed)[i],
            ),
        forall|x: Seq<char>|
            ids.contains(x) && allowed.contains(x) ==> #[trigger] extended(
                start,
                ids,
                allowed,
            ).contains(x),
        start.is_prefix_of(extended(start, ids, allowed)),
    decreases ids.len(),
{
    if ids.len() == 0 {
        assert(start =~= start.subrange(0, start.len() as int));
    } else {
        let rest = ids.drop_last();
        let before = extended(start, rest, allowed);
        let r = extended(start, ids, allowed);
        lemma_extended(start, rest, allowed);
        let last = ids.last();
        if allowed.contains(last) && !before.contains(last) {
            assert forall|i: int, j: int| 0 <= i < j < r.len() implies #[trigger] r[i]
                != #[trigger] r[j] by {
                if j == before.len() {
                    assert(before.contains(before[i]));
                } else {
                    assert(r[i] == before[i] && r[j] == before[j]);
                }
            }
            assert forall|i: int| 0 <= i < r.len() implies allowed.contains(#[trigger] r[i]) by {
                if i < before.len() {
                    assert(r[i] == before[i]);
                }
            }
            assert(r[before.len() as int] == last);
            assert(start =~= r.subrange(0, start.len() as int));
        }
        assert forall|x: Seq<char>| ids.contains(x) && allowed.contains(x) implies #[trigger] r.contains(
            x,
        ) by {
            let k = choose|k: int| 0 <= k < ids.len() && ids[k] == x;
            if k < rest.len() {
                assert(rest[k] == x);
                assert(rest.contains(x));
                assert(before.contains(x));
                let m = choose|m: int| 0 <= m < before.len() && before[m] == x;
                assert(r[m] == x);
            } else if before.contains(x) {
                let m = choose|m: int| 0 <= m < before.len() && before[m] == x;
                assert(r[m] == x);
            } else {
                assert(r[before.len() as int] == x);
            }
        }
    }
}

/// The order of the favourites holds each favourite once and nothing else, and
/// it begins with those that were asked for, in the asked order.
pub proof fn law_favorite_order(apps: Seq<AppView>, asked: Seq<Seq<char>>)
    ensures
        extended(Seq::empty(), asked, favorite_ids(apps)).is_prefix_of(
            ordered_favorites(apps, asked),
        ),
        lists::distinct(ordered_favorites(apps, asked)),
        forall|x: Seq<char>| #[trigger]
            ordered_favorites(apps, asked).contains(x) == favorite_ids(apps).contains(x),
{
    let all = favorite_ids(apps);
    let none = Seq::<Seq<char>>::empty();
    let first = extended(none, asked, all);
    lemma_extended(none, asked, all);
    lemma_extended(first, all, all);
    let r = ordered_favorites(apps, asked);
    assert forall|x: Seq<char>| #[trigger] r.contains(x) == all.contains(x) by {
        if r.contains(x) {
            let k = choose|k: int| 0 <= k < r.len() && r[k] == x;
            assert(all.contains(r[k]));
        }
    }
}

// ---------------------------------------------------------------------------
// Deleting and moving files
// ---------------------------------------------------------------------------

/// What is deleted of an application.
#[derive(Clone, Copy, PartialEq, Eq, Structural, Debug)]
pub enum Removal {
    /// Its program alone.
    Program,
    /// Its folder with everything in it.
    Folder,
}

/// The program lies directly in the folder; a program without a folder lies in
/// the empty path.
pub open spec fn holds_program(folder: PathView, program: PathView) -> bool {
    match paths::parent_of(program) {
        Some(parent) => paths::same_path(folder, parent),
        None => folder.parts.len() == 0,
    }
}

fn folder_holds_program(folder: &FilePath, program: &FilePath) -> (r: bool)
    ensures
        r == holds_program(folder@, program@),
{
    match program.parent() {
        Some(parent) => folder.same(&parent),
        None => folder.parts.len() == 0,
    }
}

/// What is deleted of an application: only its program, where that lies
/// directly in the folder, which it may share with others; else the folder.
/// Nothing outside the folder of the applications is deleted.
pub fn delete_app_files(apps: &FilePath, folder: &PlacedPath, program: &Option<PlacedPath>) -> (r:
    Result<Removal, String>)
    ensures
        ({
            let safe = paths::lies_in(folder.resolved@, apps@) && (*program matches Some(p)
                ==> paths::lies_in(p.resolved@, apps@));
            match r {
                Err(e) => !safe && e@ == OUTSIDE_APPS@,
                Ok(removal) => safe && removal == (if *program matches Some(p) && holds_program(
                    folder.path@,
                    p.path@,
                ) {
                    Removal::Program
                } else {
                    Removal::Folder
                }),
            }
        }),
{
    match ensure_inside_apps_dir(apps, &folder.resolved) {
        Ok(_) => {},
        Err(e) => {
            return Err(e);
        },
    }
    match program {
        Some(p) => {
            match ensure_inside_apps_dir(apps, &p.resolved) {
                Ok(_) => {},
                Err(e) => {
                    return Err(e);
                },
            }
            if folder_holds_program(&folder.path, &p.path) {
                return Ok(Removal::Program);
            }
            Ok(Removal::Folder)
        },
        None => Ok(Removal::Folder),
    }
}

/// The application and the category that it is to move to; nothing where it is
/// in the category already.
pub fn plan_move(data: &AppData, app_id: &str, category_id: &str) -> (r: Result<
    Option<(ManagedApp, Category)>,
    String,
>)
    ensures
        match lists::found(data@.categories, catalog::category_has_id(category_id@)) {
            None => r matches Err(e) && e@ == NO_TARGET_CATEGORY@,
            Some(category) => match lists::found(data@.apps, catalog::app_has_id(app_id@)) {
                None => r matches Err(e) && e@ == NO_APP@,
                Some(app) => if app.category_id == category.id {
                    r matches Ok(None)
                } else {
                    r matches Ok(Some((a, c))) && a@ == app && c@ == category
                },
            },
        },
{
    let category = match catalog::require_category(data, category_id) {
        Ok(c) => c,
        Err(_) => {
            return Err(NO_TARGET_CATEGORY.to_string());
        },
    };
    let app = match require_app(data, app_id) {
        Ok(a) => a,
        Err(e) => {
            return Err(e);
        },
    };
    if same_text(app.category_id.as_str(), category.id.as_str()) {
        return Ok(None);
    }
    Ok(Some((app, category)))
}

/// What is moved where, and where the application then lies.
#[derive(Debug)]
pub struct MovePlan {
    pub program_alone: bool,
    pub from: FilePath,
    pub to: FilePath,
    pub folder: FilePath,
    pub executable: Option<FilePath>,
}

#[verifier::ext_equal]
pub ghost struct MoveView {
    pub program_alone: bool,
    pub from: PathView,
    pub to: PathView,
    pub folder: PathView,
    pub executable: Option<PathView>,
}

impl View for MovePlan {
    type V = MoveView;

    open spec fn view(&self) -> MoveView {
        MoveView {
            program_alone: self.program_alone,
            from: self.from@,
            to: self.to@,
            folder: self.folder@,
            executable: executables::opt_path(self.executable),
        }
    }
}

/// How an application moves into a category's folder: its program alone, where
/// that is there and lies directly in the application's folder; else the
/// folder, and the program with it as far as it lies in it.
pub open spec fn move_of(
    folder: PathView,
    program: Option<PathView>,
    program_is_there: bool,
    target: PathView,
) -> Result<MoveView, Seq<char>> {
    if program matches Some(p) && program_is_there && holds_program(folder, p) {
        let p = program->0;
        if paths::name_bytes(p) is None {
            Err(NO_FILE_NAME@)
        } else {
            let to = paths::with_part(target, p.parts.last());
            Ok(
                MoveView {
                    program_alone: true,
                    from: p,
                    to,
                    folder: target,
                    executable: Some(to),
                },
            )
        }
    } else if paths::name_bytes(folder) is None {
        Err(NO_FOLDER_NAME@)
    } else {
        let to = paths::with_part(target, folder.parts.last());
        Ok(
            MoveView {
                program_alone: false,
                from: folder,
                to,
                folder: to,
                executable: match program {
                    Some(p) => paths::moved_along(p, folder, to),
                    None => None,
                },
            },
        )
    }
}

/// The path with the name of another put behind it, where that has one.
fn with_name_of(target: &FilePath, other: &FilePath) -> (r: Option<FilePath>)
    ensures
        match r {
            Some(p) => paths::name_bytes(other@) is Some && p@ == paths::with_part(
                target@,
                other@.parts.last(),
            ),
            None => paths::name_bytes(other@) is None,
        },
{
    let n: usize = other.parts.len();
    if n == 0 {
        return None;
    }
    assert(other@.parts.last() == other.parts@[n - 1]@);
    if other.parts[n - 1].kind == paths::PartKind::Normal {
        Some(target.join_part(&other.parts[n - 1]))
    } else {
        None
    }
}

/// How an application moves into a category's folder.
pub fn move_app_files(
    folder: &FilePath,
    program: &Option<FilePath>,
    program_is_there: bool,
    target: &FilePath,
) -> (r: Result<MovePlan, String>)
    ensures
        match r {
            Ok(plan) => move_of(
                folder@,
                executables::opt_path(*program),
                program_is_there,
                target@,
            ) == Ok::<_, Seq<char>>(plan@),
            Err(e) => move_of(
                folder@,
                executables::opt_path(*program),
                program_is_there,
                target@,
            ) == Err::<MoveView, _>(e@),
        },
{
    match program {
        Some(p) => {
            if program_is_there && folder_holds_program(folder, p) {
                return match with_name_of(target, p) {
                    Some(to) => Ok(
                        MovePlan {
                            program_alone: true,
                            from: p.clone(),
                            to: to.clone(),
                            folder: target.clone(),
                            executable: Some(to),
                        },
                    ),
                    None => Err(NO_FILE_NAME.to_string()),
                };
            }
        },
        None => {},
    }
    match with_name_of(target, folder) {
        Some(to) => {
            let executable = match program {
                Some(p) => p.moved(folder, &to),
                None => None,
            };
            Ok(
                MovePlan {
                    program_alone: false,
                    from: folder.clone(),
                    to: to.clone(),
                    folder: to,
                    executable,
                },
            )
        },
        None => Err(NO_FOLDER_NAME.to_string()),
    }
}

/// Refuses a move to a place that is taken.
pub fn check_move(plan: &MovePlan, taken: bool) -> (r: Result<(), String>)
    ensures
        match r {
            Ok(_) => !taken,
            Err(e) => taken && e@ == if plan.program_alone {
                FILE_TAKEN@
            } else {
                FOLDER_TAKEN@
            },
        },
{
    if taken {
        return Err(
            if plan.program_alone {
                FILE_TAKEN.to_string()
            } else {
                FOLDER_TAKEN.to_string()
            },
        );
    }
    Ok(())
}

/// An application after its files were moved to a category.
pub open spec fn moved_app(
    app: AppView,
    category_id: Seq<char>,
    category_name: Seq<char>,
    plan: MoveView,
) -> AppView {
    AppView {
        category_id,
        category_name,
        folder_path: paths::path_text(plan.folder),
        executable_path: match plan.executable {
            Some(p) => Some(paths::path_text(p)),
            None => None,
        },
        ..app
    }
}

/// Takes note of a move.
pub fn move_app_to_category(data: &mut AppData, app_id: &str, category: &Category, plan: &MovePlan)
    -> (r: Result<(), String>)
    ensures
        match catalog::app_index(old(data)@.apps, app_id@) {
            Some(k) => r is Ok && final(data)@ == catalog::with_app(
                old(data)@,
                k,
                moved_app(old(data)@.apps[k], category@.id, category@.name, plan@),
            ),
            None => final(data)@ == old(data)@ && (r matches Err(e) && e@ == NO_APP@),
        },
{
    match find_app(&data.apps, app_id) {
        Some(k) => {
            let mut app = data.apps[k].clone();
            app.category_id = category.id.clone();
            app.category_name = category.name.clone();
            app.folder_path = path_to_string(&plan.folder);
            app.executable_path = match &plan.executable {
                Some(p) => Some(path_to_string(p)),
                None => None,
            };
            replace_app(data, k, app);
            Ok(())
        },
        None => Err(NO_APP.to_string()),
    }
}

/// A moved application lies in the category's folder, with its program, and
/// what is moved goes to where the application then lies.
pub proof fn law_moved_app_lies_in_category(
    folder: PathView,
    program: Option<PathView>,
    program_is_there: bool,
    target: PathView,
)
    requires
        move_of(folder, program, program_is_there, target) is Ok,
    ensures
        ({
            let plan = move_of(folder, program, program_is_there, target)->Ok_0;
            &&& paths::lies_in(plan.folder, target)
            &&& paths::lies_in(plan.to, target)
            &&& (plan.executable matches Some(p) ==> paths::lies_in(p, plan.folder))
            &&& plan.program_alone ==> plan.executable == Some(plan.to)
            &&& !plan.program_alone ==> plan.folder == plan.to
        }),
{
    let plan = move_of(folder, program, program_is_there, target)->Ok_0;
    if !plan.program_alone {
        if let Some(p) = program {
            if paths::lies_in(p, folder) {
                paths::law_moved_along(p, folder, plan.to);
            }
        }
    }
}

/// A program that is there and lies directly in the application's folder moves
/// alone, under its own name, into the category's folder. Else the folder moves
/// there under its own name, and a program in it keeps every part of its path
/// behind the folder; a program elsewhere is forgotten. A move fails only where
/// what is to move has no name.
pub proof fn law_moved_files_keep_their_places(
    folder: PathView,
    program: Option<PathView>,
    program_is_there: bool,
    target: PathView,
)
    ensures
        ({
            let result = move_of(folder, program, program_is_there, target);
            let alone = program_is_there && (program matches Some(p) && if p.parts.len() == 0
                || p.parts.last().kind == paths::PartKind::Prefix || p.parts.last().kind
                == paths::PartKind::Root {
                folder.parts.len() == 0
            } else {
                p.parts.len() == folder.parts.len() + 1 && paths::lies_in(p, folder)
            });
            let moving = if alone {
                program->0
            } else {
                folder
            };
            let n = target.parts.len() as int;
            &&& (result is Ok) == (moving.parts.len() > 0 && moving.parts.last().kind
                == paths::PartKind::Normal)
            &&& result matches Err(e) ==> e == if alone {
                NO_FILE_NAME@
            } else {
                NO_FOLDER_NAME@
            }
            &&& result matches Ok(plan) ==> {
                &&& plan.program_alone == alone
                &&& plan.from == moving
                &&& plan.to.parts.len() == n + 1
                &&& forall|i: int| 0 <= i < n ==> #[trigger] plan.to.parts[i] == target.parts[i]
                &&& plan.to.parts[n].kind == moving.parts.last().kind
                &&& plan.to.parts[n].name == moving.parts.last().name
                &&& plan.to.parts[n].shown == moving.parts.last().shown
                &&& alone ==> plan.folder == target && plan.executable == Some(plan.to)
                &&& !alone ==> plan.folder == plan.to
                &&& !alone ==> (plan.executable is Some) == (program matches Some(p)
                    && paths::lies_in(p, folder))
                &&& !alone && plan.executable is Some ==> {
                    let p = program->0;
                    let q = plan.executable->0;
                    &&& q.parts.len() == plan.to.parts.len() + (p.parts.len()
                        - folder.parts.len())
                    &&& forall|i: int|
                        0 <= i < plan.to.parts.len() ==> #[trigger] q.parts[i] == plan.to.parts[i]
                    &&& forall|i: int|
                        folder.parts.len() <= i < p.parts.len() ==> {
                            let moved = q.parts[plan.to.parts.len() + i - folder.parts.len()];
                            moved.kind == (#[trigger] p.parts[i]).kind && moved.name
                                == p.parts[i].name && moved.shown == p.parts[i].shown
                        }
                }
            }
        }),
{
    if let Some(p) = program {
        if p.parts.len() == folder.parts.len() + 1 {
            if let Some(parent) = paths::parent_of(p) {
                assert(parent.parts =~= p.parts.drop_last());
                if paths::lies_in(p, folder) {
                    assert forall|i: int| 0 <= i < folder.parts.len() implies paths::same_part(
                        #[trigger] parent.parts[i],
                        folder.parts[i],
                    ) by {
                        assert(paths::same_part(p.parts[i], folder.parts[i]));
                    }
                    assert forall|i: int| 0 <= i < folder.parts.len() implies paths::same_part(
                        #[trigger] folder.parts[i],
                        parent.parts[i],
                    ) by {
                        assert(paths::same_part(parent.parts[i], folder.parts[i]));
                    }
                }
                if paths::lies_in(folder, parent) {
                    assert forall|i: int| 0 <= i < folder.parts.len() implies paths::same_part(
                        #[trigger] p.parts[i],
                        folder.parts[i],
                    ) by {
                        assert(paths::same_part(folder.parts[i], parent.parts[i]));
                    }
                }
            }
        }
        if paths::lies_in(p, folder) {
            if let Ok(plan) = move_of(folder, program, program_is_there, target) {
                paths::law_moved_along(p, folder, plan.to);
            }
        }
    }
}

/// What a successful edit leaves: the edited application has the entered name
/// and note without the white space around them, the wanted program, and the
/// wanted icon; everything else of it stays, and so do all other applications.
/// A chosen program is among the candidates, and no candidate is lost or made
/// up.
pub proof fn law_edited_app(
    data: AppDataView,
    request: UpdateAppInfoRequest,
    apps: PathView,
    program: ProgramChange,
    image: Option<LoadedImage>,
    k: int,
)
    requires
        0 <= k < data.apps.len(),
        data.apps[k].id == request.app_id@,
        forall|j: int| 0 <= j < k ==> (#[trigger] data.apps[j]).id != request.app_id@,
    ensures
        edited(data, request, apps, program, image) matches Ok(after) ==> {
            let was = data.apps[k];
            let is = after.apps[k];
            &&& after.apps.len() == data.apps.len()
            &&& forall|j: int|
                0 <= j < data.apps.len() && j != k ==> #[trigger] after.apps[j] == data.apps[j]
            &&& after.categories == data.categories
            &&& after.settings == data.settings
            &&& after.library_path == data.library_path
            &&& is.id == was.id
            &&& is.name == text::trimmed(request.name@) && is.name.len() > 0
            &&& is.note == text::trimmed(request.note@)
            &&& is.category_id == was.category_id
            &&& is.category_name == was.category_name
            &&& is.folder_path == was.folder_path
            &&& is.favorite == was.favorite
            &&& is.launch_count == was.launch_count
            &&& is.last_launched_at == was.last_launched_at
            &&& program is Keep ==> is.executable_path == was.executable_path
                && is.executable_candidates == was.executable_candidates
            &&& program is Clear ==> is.executable_path is None && is.executable_candidates
                == was.executable_candidates
            &&& program matches ProgramChange::Choose(chosen, there) ==> {
                let shown = paths::path_text(chosen.path@);
                &&& there
                &&& paths::lies_in(chosen.resolved@, apps)
                &&& is.executable_path == Some(shown)
                &&& forall|x: Seq<char>| #[trigger]
                    is.executable_candidates.contains(x) == (was.executable_candidates.contains(x)
                        || x == shown)
                &&& was.executable_candidates.contains(shown) ==> is.executable_candidates
                    == was.executable_candidates
                &&& !was.executable_candidates.contains(shown) ==> forall|i: int, j: int|
                    0 <= i < j < is.executable_candidates.len() ==> text::text_less(
                        #[trigger] is.executable_candidates[i],
                        #[trigger] is.executable_candidates[j],
                    )
            }
            &&& image is None && request.icon_data_url is None ==> is.icon_data_url
                == was.icon_data_url
            &&& request.icon_data_url is None ==> (image matches Some(i) ==> (icons::loaded_url(
                i,
            ) matches Ok(url) && is.icon_data_url == Some(url)))
            &&& request.icon_data_url matches Some(url) ==> is.icon_data_url == Some(
                text::trimmed(url@),
            )
        },
{
    let p = catalog::app_has_id(request.app_id@);
    assert(p(data.apps[k]));
    assert forall|j: int| 0 <= j < k implies !p(#[trigger] data.apps[j]) by {
    }
    lists::lemma_first_is(data.apps, p, k);
    if let Ok(after) = edited(data, request, apps, program, image) {
        let was = data.apps[k];
        if let ProgramChange::Choose(chosen, _) = program {
            let shown = paths::path_text(chosen.path@);
            let more = was.executable_candidates.push(shown);
            lists::law_listed(more);
            assert forall|x: Seq<char>| more.contains(x) == (was.executable_candidates.contains(x)
                || x == shown) by {
                if was.executable_candidates.contains(x) {
                    let m = choose|m: int|
                        0 <= m < was.executable_candidates.len() && was.executable_candidates[m]
                            == x;
                    assert(more[m] == x);
                }
                if x == shown {
                    assert(more[more.len() - 1] == x);
                }
            }
        }
    }
}

/// When an edit is refused: the name is empty; the application is not in the
/// catalogue; the chosen program lies outside the folder of the applications,
/// is not there, or is no program; the image or the data URL is no icon.
pub proof fn law_edit_refused(
    data: AppDataView,
    request: UpdateAppInfoRequest,
    apps: PathView,
    program: ProgramChange,
    image: Option<LoadedImage>,
)
    ensures
        ({
            let known = exists|k: int|
                0 <= k < data.apps.len() && (#[trigger] data.apps[k]).id == request.app_id@;
            let r = edited(data, request, apps, program, image);
            &&& text::trimmed(request.name@).len() == 0 ==> r == Err::<AppDataView, _>(
                EMPTY_APP_NAME@,
            )
            &&& text::trimmed(request.name@).len() > 0 && !known ==> r == Err::<AppDataView, _>(
                NO_APP@,
            )
            &&& text::trimmed(request.name@).len() > 0 && known ==> (program matches
                ProgramChange::Choose(chosen, there) ==> {
                &&& !paths::lies_in(chosen.resolved@, apps) ==> r == Err::<AppDataView, _>(
                    OUTSIDE_APPS@,
                )
                &&& paths::lies_in(chosen.resolved@, apps) && !there ==> r == Err::<
                    AppDataView,
                    _,
                >(EXECUTABLE_MISSING@)
                &&& paths::lies_in(chosen.resolved@, apps) && there && !executables::is_program(
                    chosen.path@,
                ) ==> r == Err::<AppDataView, _>(NOT_A_PROGRAM@)
            })
            &&& text::trimmed(request.name@).len() > 0 && known && !(program is Choose) && image
                is None && request.icon_data_url is None ==> r is Ok
        }),
{
    let p = catalog::app_has_id(request.app_id@);
    lists::lemma_first_from(data.apps, p, 0);
    if exists|k: int| 0 <= k < data.apps.len() && (#[trigger] data.apps[k]).id == request.app_id@ {
        let k = choose|k: int|
            0 <= k < data.apps.len() && (#[trigger] data.apps[k]).id == request.app_id@;
        assert(p(data.apps[k]));
    } else if let Some(k) = catalog::app_index(data.apps, request.app_id@) {
        assert(p(data.apps[k]));
        assert(data.apps[k].id == request.app_id@);
    }
}

/// Launching, editing and moving an application keep the ids of the
/// applications distinct.
pub proof fn law_actions_keep_ids_distinct(
    data: AppDataView,
    k: int,
    now: u64,
    category: CategoryView,
    plan: MoveView,
    request: UpdateAppInfoRequest,
    apps: PathView,
    program: ProgramChange,
    image: Option<LoadedImage>,
)
    requires
        catalog::ids_distinct(data.apps),
        0 <= k < data.apps.len(),
    ensures
        catalog::ids_distinct(
            catalog::with_app(data, k, launched_app(data.apps[k], now)).apps,
        ),
        catalog::ids_distinct(
            catalog::with_app(
                data,
                k,
                moved_app(data.apps[k], category.id, category.name, plan),
            ).apps,
        ),
        edited(data, request, apps, program, image) matches Ok(after) ==> catalog::ids_distinct(
            after.apps,
        ),
{
    catalog::law_change_keeps_ids_distinct(data, k, launched_app(data.apps[k], now));
    catalog::law_change_keeps_ids_distinct(
        data,
        k,
        moved_app(data.apps[k], category.id, category.name, plan),
    );
    if let Ok(after) = edited(data, request, apps, program, image) {
        let p = catalog::app_has_id(request.app_id@);
        lists::lemma_first_from(data.apps, p, 0);
        let m = catalog::app_index(data.apps, request.app_id@)->0;
        catalog::law_change_keeps_ids_distinct(data, m, after.apps[m]);
    }
}

// ---------------------------------------------------------------------------
// Showing
// ---------------------------------------------------------------------------

/// Shown where a path leads to nothing.
pub const PATH_MISSING: &'static str = "路径不存在";

/// Refuses to show a path that leads to nothing.
pub fn reveal_path(is_there: bool) -> (r: Result<(), String>)
    ensures
        match r {
            Ok(_) => is_there,
            Err(e) => !is_there && e@ == PATH_MISSING@,
        },
{
    if !is_there {
        return Err(PATH_MISSING.to_string());
    }
    Ok(())
}

/// A launch counts once more, at the present time, and changes nothing else of
/// the application.
pub proof fn law_launched_app(app: AppView, now: u64)
    requires
        app.launch_count < u64::MAX,
    ensures
        ({
            let r = launched_app(app, now);
            &&& r.launch_count == app.launch_count + 1
            &&& r.last_launched_at == Some(now)
            &&& r == AppView {
                launch_count: r.launch_count,
                last_launched_at: r.last_launched_at,
                ..app
            }
        }),
{
}

/// A launch fails where the application is not in the catalogue, where it has no
/// program, where its program is not there, and where the system refuses it, in
/// this order, and else it succeeds.
pub proof fn law_launch_problem(
    data: AppDataView,
    id: Seq<char>,
    there: bool,
    launched: Result<(), String>,
    k: int,
)
    ensures
        (forall|i: int| 0 <= i < data.apps.len() ==> (#[trigger] data.apps[i]).id != id)
            ==> launch_problem(data, id, there, launched) == Some("软件不存在"@),
        is_first_with_id(data.apps, k, id) ==> {
            let problem = launch_problem(data, id, there, launched);
            let chosen = data.apps[k].executable_path is Some;
            &&& !chosen ==> problem == Some("该软件还没有设置启动程序"@)
            &&& chosen && !there ==> problem == Some("启动程序不存在，请重新扫描或编辑软件信息"@)
            &&& chosen && there ==> match launched {
                Ok(_) => problem is None,
                Err(e) => problem == Some(e@),
            }
        },
{
    let p = catalog::app_has_id(id);
    lists::law_first(data.apps, p);
    if let Some(i) = catalog::app_index(data.apps, id) {
        assert(p(data.apps[i]));
        assert(data.apps[i].id == id);
    }
    if is_first_with_id(data.apps, k, id) {
        assert forall|i: int| 0 <= i < k implies !p(#[trigger] data.apps[i]) by {}
        lists::lemma_first_is(data.apps, p, k);
    }
}

/// A moved application is one of the new category, with the folder and the
/// program where they came to lie; nothing else of it changes.
pub proof fn law_moved_app(app: AppView, category: CategoryView, plan: MoveView)
    ensures
        ({
            let r = moved_app(app, category.id, category.name, plan);
            &&& r.category_id == category.id
            &&& r.category_name == category.name
            &&& r.folder_path == paths::path_text(plan.folder)
            &&& plan.executable matches Some(p) ==> r.executable_path == Some(paths::path_text(p))
            &&& plan.executable is None ==> r.executable_path is None
            &&& r == AppView {
                category_id: r.category_id,
                category_name: r.category_name,
                folder_path: r.folder_path,
                executable_path: r.executable_path,
                ..app
            }
        }),
{
}

/// The marked applications are listed in the order of the catalogue.
pub proof fn law_favorite_ids(a: Seq<AppView>, b: Seq<AppView>, app: AppView)
    ensures
        favorite_ids(a + b) == favorite_ids(a) + favorite_ids(b),
        app.favorite ==> favorite_ids(seq![app]) == seq![app.id],
        !app.favorite ==> favorite_ids(seq![app]).len() == 0,
        a.len() == 0 ==> favorite_ids(a).len() == 0,
    decreases b.len(),
{
    let one = seq![app];
    assert(one.drop_last() =~= Seq::empty());
    assert(favorite_ids(one.drop_last()) =~= Seq::empty());
    assert(one.last() == app);
    assert(app.favorite ==> favorite_ids(one) =~= seq![app.id]);
    if b.len() == 0 {
        assert(a + b =~= a);
        assert(favorite_ids(a + b) =~= favorite_ids(a) + favorite_ids(b));
    } else {
        assert((a + b).drop_last() =~= a + b.drop_last());
        assert((a + b).last() == b.last());
        law_favorite_ids(a, b.drop_last(), app);
        assert(favorite_ids(a + b) =~= favorite_ids(a) + favorite_ids(b));
    }
}

/// An order grows by one identifier after the other: by those that are allowed
/// and not yet in it, behind all others.
pub proof fn law_extended(
    start: Seq<Seq<char>>,
    a: Seq<Seq<char>>,
    b: Seq<Seq<char>>,
    id: Seq<char>,
    allowed: Seq<Seq<char>>,
)
    ensures
        extended(start, a + b, allowed) == extended(extended(start, a, allowed), b, allowed),
        a.len() == 0 ==> extended(start, a, allowed) == start,
        allowed.contains(id) && !start.contains(id) ==> extended(start, seq![id], allowed)
            == start.push(id),
        !allowed.contains(id) || start.contains(id) ==> extended(start, seq![id], allowed) == start,
    decreases b.len(),
{
    let one = seq![id];
    assert(one.drop_last() =~= Seq::empty());
    assert(extended(start, one.drop_last(), allowed) == start);
    assert(one.last() == id);
    if b.len() == 0 {
        assert(a + b =~= a);
    } else {
        assert((a + b).drop_last() =~= a + b.drop_last());
        assert((a + b).last() == b.last());
        law_extended(start, a, b.drop_last(), id, allowed);
    }
}

/// An order that names each marked application once is taken as it is.
pub proof fn law_whole_order_is_taken(apps: Seq<AppView>, asked: Seq<Seq<char>>)
    requires
        lists::distinct(asked),
        forall|x: Seq<char>| #[trigger] asked.contains(x) == favorite_ids(apps).contains(x),
    ensures
        ordered_favorites(apps, asked) == asked,
{
    let all = favorite_ids(apps);
    assert(asked.take(asked.len() as int) =~= asked);
    lemma_taken_whole(asked, all, asked.len() as int);
    lemma_nothing_new(asked, all, all);
}

proof fn lemma_taken_whole(asked: Seq<Seq<char>>, allowed: Seq<Seq<char>>, n: int)
    requires
        0 <= n <= asked.len(),
        lists::distinct(asked),
        forall|x: Seq<char>| #[trigger] asked.contains(x) ==> allowed.contains(x),
    ensures
        extended(Seq::empty(), asked.take(n), allowed) == asked.take(n),
    decreases n,
{
    if n > 0 {
        let s = asked.take(n);
        assert(s.drop_last() =~= asked.take(n - 1));
        lemma_taken_whole(asked, allowed, n - 1);
        assert(asked.contains(asked[n - 1]));
        assert(s.last() == asked[n - 1]);
        assert(!asked.take(n - 1).contains(asked[n - 1]));
        assert(asked.take(n - 1).push(asked[n - 1]) =~= s);
    }
}

proof fn lemma_nothing_new(start: Seq<Seq<char>>, ids: Seq<Seq<char>>, allowed: Seq<Seq<char>>)
    requires
        forall|x: Seq<char>| #[trigger] ids.contains(x) ==> start.contains(x),
    ensures
        extended(start, ids, allowed) == start,
    decreases ids.len(),
{
    if ids.len() > 0 {
        let rest = ids.drop_last();
        assert forall|x: Seq<char>| #[trigger] rest.contains(x) implies start.contains(x) by {
            let i = choose|i: int| 0 <= i < rest.len() && rest[i] == x;
            assert(ids[i] == x);
            assert(ids.contains(x));
        }
        lemma_nothing_new(start, rest, allowed);
        assert(ids.contains(ids.last()));
    }
}

/// The icon of an edited application: a data URL that was entered, without the
/// white space around it, where it is an icon; else the image that was chosen;
/// else the one that the application has. A URL of more than 4 MiB is refused.
pub proof fn law_wanted_icon(
    current: Option<Seq<char>>,
    image: Option<LoadedImage>,
    url: Option<Seq<char>>,
)
    ensures
        image is None && url is None ==> wanted_icon(current, image, url) == Ok::<_, Seq<char>>(
            current,
        ),
        url is None ==> (image matches Some(i) ==> match icons::loaded_url(i) {
            Ok(shown) => wanted_icon(current, image, url) == Ok::<_, Seq<char>>(Some(shown)),
            Err(e) => wanted_icon(current, image, url) == Err::<Option<Seq<char>>, _>(e),
        }),
        image matches Some(i) ==> (icons::loaded_url(i) matches Err(e) ==> wanted_icon(
            current,
            image,
            url,
        ) == Err::<Option<Seq<char>>, _>(e)),
        (image matches Some(i) ==> icons::loaded_url(i) is Ok) ==> (url matches Some(u) ==> {
            let clean = text::trimmed(u);
            let big = vstd::utf8::encode_utf8(clean).len() > 4 * 1024 * 1024;
            &&& big ==> wanted_icon(current, image, url) == Err::<Option<Seq<char>>, _>(
                icons::ICON_TOO_LARGE@,
            )
            &&& !big ==> match icons::decoded_image(clean) {
                Ok(_) => wanted_icon(current, image, url) == Ok::<_, Seq<char>>(Some(clean)),
                Err(e) => wanted_icon(current, image, url) == Err::<Option<Seq<char>>, _>(e),
            }
        }),
{
}

/// An application's folder holds its program where the program lies directly in
/// it, and not where it lies deeper or in another folder.
pub proof fn law_holds_program(folder: PathView, other: PathView, a: Seq<char>, b: Seq<char>)
    requires
        a != seq!['.'],
        b != seq!['.'],
    ensures
        holds_program(folder, paths::joined(folder, a)),
        !holds_program(folder, paths::joined(paths::joined(folder, a), b)),
        holds_program(folder, paths::joined(other, a)) == paths::same_path(folder, other),
{
    paths::law_joined_lies_inside(folder, a);
    paths::law_joined_lies_inside(paths::joined(folder, a), b);
    paths::law_joined_parts(folder, a);
    paths::law_joined_parts(paths::joined(folder, a), b);
    paths::law_joined_parts(other, a);
    paths::law_parent(paths::joined(folder, a), a);
    paths::law_parent(paths::joined(other, a), a);
    paths::law_parent(paths::joined(paths::joined(folder, a), b), b);
    paths::law_lies_in(folder, folder, folder);
}

/// An edit whose name, application and program are in order succeeds where the
/// icon can be used, and fails for the icon's reason where it cannot.
pub proof fn law_edit_depends_on_icon(
    data: AppDataView,
    request: UpdateAppInfoRequest,
    apps: PathView,
    program: ProgramChange,
    image: Option<LoadedImage>,
    k: int,
)
    requires
        is_first_with_id(data.apps, k, request.app_id@),
        !text::all_white(request.name@),
        program matches ProgramChange::Choose(placed, there) ==> there && paths::lies_in(
            placed.resolved@,
            apps,
        ) && executables::is_program(placed.path@),
    ensures
        match wanted_icon(
            data.apps[k].icon_data_url,
            image,
            text::opt_text(request.icon_data_url),
        ) {
            Ok(icon) => edited(data, request, apps, program, image) matches Ok(after)
                && after.apps[k].icon_data_url == icon,
            Err(e) => edited(data, request, apps, program, image) == Err::<AppDataView, _>(e),
        },
{
    text::lemma_blank(request.name@);
    let p = catalog::app_has_id(request.app_id@);
    assert(forall|j: int| 0 <= j < k ==> !p(#[trigger] data.apps[j]));
    lists::lemma_first_is(data.apps, p, k);
}

} // verus!
