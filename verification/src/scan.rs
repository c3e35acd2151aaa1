//! Taking the applications that lie in the library's folders into the
//! catalogue.
//!
//! What the file system holds is looked up beforehand and handed over as plain
//! values; the functions here decide what follows from it.

use vstd::prelude::*;
use crate::catalog;
use crate::catalog::{find_app, replace_app};
use crate::executables;
use crate::executables::{
    find_executables, is_executable_file, normalize_executable_candidates, paths_to_strings,
    pick_executable, FolderEntry,
};
use crate::fnv;
use crate::fnv::make_id;
use crate::lists;
use crate::lists::{position, Wanted};
use crate::model;
use crate::model::{
    AppData, AppDataView, AppView, Category, CategoryView, ManagedApp, ScanIssue, ScanIssueView,
};
use crate::order;
use crate::paths;
use crate::paths::{
    ensure_inside_apps_dir, normalize_incoming_path, path_to_string, FilePath, PathView,
    OUTSIDE_APPS,
};
use crate::text;
use crate::text::{same_text, trim};

verus! {

/// The name of an application whose own name cannot be read.
pub const UNNAMED_APP: &'static str = "未命名软件";

/// Shown for a folder without a program.
pub const NO_PROGRAM: &'static str = "未找到 .exe 文件";

/// Shown for a folder with several programs.
pub const SEVERAL_PROGRAMS: &'static str = "检测到多个 .exe，需要后续选择主程序";

/// What a path leads to. A folder is given with what stands in it, or with the
/// reason why it could not be read.
pub enum Observed {
    Missing,
    Folder(Result<Vec<FolderEntry>, String>),
    File,
    Other,
}

/// A path, where the system resolves it to, and what it leads to.
pub struct FoundPath {
    pub path: FilePath,
    pub resolved: FilePath,
    pub what: Observed,
}

/// What stands in a category's folder. Reading it may have failed after the
/// entries that are given.
pub struct FoundCategory {
    pub category: Category,
    pub path: FilePath,
    pub resolved: FilePath,
    pub entries: Vec<FoundPath>,
    pub failure: Option<String>,
}

/// What a scan did to the catalogue.
#[derive(Debug)]
pub struct ScanResult {
    pub added: usize,
    pub updated: usize,
    pub issues: Vec<ScanIssue>,
    pub data: AppData,
}

// ---------------------------------------------------------------------------
// Model
// ---------------------------------------------------------------------------

/// An application as a scan meets it.
pub ghost struct Met {
    pub name: Seq<char>,
    pub folder: PathView,
    pub chosen: Option<PathView>,
    pub programs: Seq<PathView>,
}

/// The id of an application: it comes from the path of its program or, where
/// none is chosen, of its folder.
pub open spec fn met_id(m: Met) -> Seq<char> {
    fnv::id_of(
        paths::path_text(
            match m.chosen {
                Some(p) => p,
                None => m.folder,
            },
        ),
    )
}

/// An application of the same folder that has no program yet.
pub open spec fn awaits_program(folder: Seq<char>, windows: bool) -> spec_fn(AppView) -> bool {
    |a: AppView|
        a.executable_path is None && paths::incoming(a.folder_path, windows) == paths::incoming(
            folder,
            windows,
        )
}

/// The place in the catalogue of an application that a scan meets: that of its
/// id, or else that of the application of its folder that has no program yet.
pub open spec fn met_index(apps: Seq<AppView>, m: Met, windows: bool) -> Option<int> {
    match catalog::app_index(apps, met_id(m)) {
        Some(k) => Some(k),
        None => if m.chosen is Some {
            lists::first(apps, awaits_program(paths::path_text(m.folder), windows))
        } else {
            None
        },
    }
}

/// An application after a scan met it again: what the user set is kept.
pub open spec fn refreshed(app: AppView, category: CategoryView, m: Met) -> AppView {
    AppView {
        id: met_id(m),
        name: m.name,
        category_id: category.id,
        category_name: category.name,
        folder_path: paths::path_text(m.folder),
        executable_path: match m.chosen {
            Some(p) => Some(paths::path_text(p)),
            None => None,
        },
        executable_candidates: executables::candidates(m.chosen, m.programs),
        ..app
    }
}

/// An application that a scan met for the first time.
pub open spec fn fresh(category: CategoryView, m: Met) -> AppView {
    refreshed(
        AppView {
            id: Seq::empty(),
            name: Seq::empty(),
            category_id: Seq::empty(),
            category_name: Seq::empty(),
            folder_path: Seq::empty(),
            executable_path: None,
            executable_candidates: Seq::empty(),
            icon_data_url: None,
            favorite: false,
            note: Seq::empty(),
            launch_count: 0,
            last_launched_at: None,
        },
        category,
        m,
    )
}

/// The applications after a scan met one.
pub open spec fn upserted(
    apps: Seq<AppView>,
    category: CategoryView,
    m: Met,
    windows: bool,
) -> Seq<AppView> {
    match met_index(apps, m, windows) {
        Some(k) => apps.update(k, refreshed(apps[k], category, m)),
        None => apps.push(fresh(category, m)),
    }
}

/// The issue of a folder: that it holds no program, or that it holds several,
/// whether or not one of them is picked for the time being.
pub open spec fn issue_of(folder: PathView, programs: Seq<PathView>) -> Option<ScanIssueView> {
    if programs.len() == 0 {
        Some(
            ScanIssueView {
                folder_path: paths::path_text(folder),
                reason: NO_PROGRAM@,
                candidates: Seq::empty(),
            },
        )
    } else if programs.len() > 1 {
        Some(
            ScanIssueView {
                folder_path: paths::path_text(folder),
                reason: SEVERAL_PROGRAMS@,
                candidates: executables::path_texts(programs),
            },
        )
    } else {
        None
    }
}

/// What one path of a scan comes to.
pub ghost enum Outcome {
    Skipped,
    Failed(Seq<char>),
    Met(Met, Option<ScanIssueView>),
}

/// The application in a folder.
pub open spec fn folder_outcome(
    name: Seq<char>,
    path: PathView,
    contents: Result<Vec<FolderEntry>, String>,
) -> Outcome {
    if name.len() == 0 {
        Outcome::Skipped
    } else {
        match contents {
            Err(e) => Outcome::Failed(e@),
            Ok(entries) => {
                let programs = order::sorted::<FilePath>(executables::programs(entries@, 0));
                let chosen = executables::picked(name, path, programs);
                Outcome::Met(
                    Met { name, folder: path, chosen, programs },
                    issue_of(path, programs),
                )
            },
        }
    }
}

/// The application that is a single program.
pub open spec fn program_outcome(path: PathView, folder: PathView) -> Outcome {
    Outcome::Met(
        Met {
            name: text::trimmed(
                match paths::file_stem_of(path) {
                    Some(stem) => stem,
                    None => UNNAMED_APP@,
                },
            ),
            folder,
            chosen: Some(path),
            programs: Seq::empty(),
        },
        None,
    )
}

/// What a single path comes to.
pub open spec fn path_outcome(apps: PathView, found: FoundPath) -> Outcome {
    let path = found.path@;
    if !paths::lies_in(found.resolved@, apps) {
        Outcome::Failed(OUTSIDE_APPS@)
    } else {
        match found.what {
            Observed::Folder(contents) => folder_outcome(
                text::trimmed(
                    match paths::file_name_of(path) {
                        Some(name) => name,
                        None => UNNAMED_APP@,
                    },
                ),
                path,
                contents,
            ),
            Observed::File => if executables::is_program(path) {
                program_outcome(
                    path,
                    match paths::parent_of(path) {
                        Some(parent) => parent,
                        None => path,
                    },
                )
            } else {
                Outcome::Skipped
            },
            _ => Outcome::Skipped,
        }
    }
}

/// The name of a path's last part as it is shown.
pub open spec fn shown_name(path: PathView) -> Seq<char> {
    if path.parts.len() > 0 {
        path.parts.last().shown
    } else {
        Seq::empty()
    }
}

/// What an entry of a category's folder comes to.
pub open spec fn entry_outcome(category_path: PathView, found: FoundPath) -> Outcome {
    let path = found.path@;
    match found.what {
        Observed::Folder(contents) => folder_outcome(
            text::trimmed(shown_name(path)),
            path,
            contents,
        ),
        Observed::File => if executables::is_program(path) {
            program_outcome(path, category_path)
        } else {
            Outcome::Skipped
        },
        _ => Outcome::Skipped,
    }
}

/// How far a scan has come.
#[verifier::ext_equal]
pub ghost struct Tally {
    pub apps: Seq<AppView>,
    pub added: nat,
    pub updated: nat,
    pub issues: Seq<ScanIssueView>,
    pub failure: Option<Seq<char>>,
}

/// A scan that begins.
pub open spec fn begun(apps: Seq<AppView>) -> Tally {
    Tally { apps, added: 0, updated: 0, issues: Seq::empty(), failure: None }
}

/// The scan after one more outcome.
pub open spec fn counted(t: Tally, category: CategoryView, o: Outcome, windows: bool) -> Tally {
    match o {
        Outcome::Skipped => t,
        Outcome::Failed(e) => Tally { failure: Some(e), ..t },
        Outcome::Met(m, issue) => {
            let known = met_index(t.apps, m, windows) is Some;
            Tally {
                apps: upserted(t.apps, category, m, windows),
                added: if known {
                    t.added
                } else {
                    t.added + 1
                },
                updated: if known {
                    t.updated + 1
                } else {
                    t.updated
                },
                issues: match issue {
                    Some(i) => t.issues.push(i),
                    None => t.issues,
                },
                failure: None,
            }
        },
    }
}

/// The scan of a list of paths; it ends at the first failure. Paths that lead
/// to nothing are passed over.
pub open spec fn paths_scanned(
    t: Tally,
    apps: PathView,
    category: CategoryView,
    found: Seq<FoundPath>,
    windows: bool,
) -> Tally
    decreases found.len(),
{
    if found.len() == 0 {
        t
    } else {
        let before = paths_scanned(t, apps, category, found.drop_last(), windows);
        if before.failure is Some || found.last().what is Missing {
            before
        } else {
            counted(before, category, path_outcome(apps, found.last()), windows)
        }
    }
}

/// The scan of the entries of a category's folder; it ends at the first
/// failure.
pub open spec fn entries_scanned(
    t: Tally,
    category_path: PathView,
    category: CategoryView,
    found: Seq<FoundPath>,
    windows: bool,
) -> Tally
    decreases found.len(),
{
    if found.len() == 0 {
        t
    } else {
        let before = entries_scanned(t, category_path, category, found.drop_last(), windows);
        if before.failure is Some {
            before
        } else {
            counted(before, category, entry_outcome(category_path, found.last()), windows)
        }
    }
}

/// The scan of a category.
pub open spec fn category_scanned(
    t: Tally,
    apps: PathView,
    found: FoundCategory,
    windows: bool,
) -> Tally {
    if !paths::lies_in(found.resolved@, apps) {
        Tally { failure: Some(OUTSIDE_APPS@), ..t }
    } else {
        let after = entries_scanned(t, found.path@, found.category@, found.entries@, windows);
        match (after.failure, found.failure) {
            (None, Some(e)) => Tally { failure: Some(e@), ..after },
            _ => after,
        }
    }
}

/// The scan of a list of categories; it ends at the first failure.
pub open spec fn categories_scanned(
    t: Tally,
    apps: PathView,
    found: Seq<FoundCategory>,
    windows: bool,
) -> Tally
    decreases found.len(),
{
    if found.len() == 0 {
        t
    } else {
        let before = categories_scanned(t, apps, found.drop_last(), windows);
        if before.failure is Some {
            before
        } else {
            category_scanned(before, apps, found.last(), windows)
        }
    }
}

/// The result of a scan is what the tally says, on top of the given data.
pub open spec fn result_matches(
    before: AppDataView,
    after: AppDataView,
    r: Result<ScanResult, String>,
    t: Tally,
) -> bool {
    &&& after == AppDataView { apps: t.apps, ..before }
    &&& match r {
        Ok(result) => {
            &&& t.failure is None
            &&& result.added == t.added
            &&& result.updated == t.updated
            &&& model::views(result.issues@) == t.issues
            &&& result.data@ == after
        },
        Err(e) => t.failure == Some(e@),
    }
}

// ---------------------------------------------------------------------------
// Laws
// ---------------------------------------------------------------------------

/// A scan keeps the ids of the applications distinct.
pub proof fn law_upserted_keeps_ids_distinct(
    apps: Seq<AppView>,
    category: CategoryView,
    m: Met,
    windows: bool,
)
    requires
        catalog::ids_distinct(apps),
    ensures
        catalog::ids_distinct(upserted(apps, category, m, windows)),
        upserted(apps, category, m, windows).len() >= apps.len(),
{
    let id = met_id(m);
    let p = catalog::app_has_id(id);
    lists::lemma_first_from(apps, p, 0);
    lists::lemma_first_from(apps, awaits_program(paths::path_text(m.folder), windows), 0);
    let r = upserted(apps, category, m, windows);
    let place = match met_index(apps, m, windows) {
        Some(k) => k,
        None => apps.len() as int,
    };
    assert forall|j: int| 0 <= j < apps.len() && j != place implies #[trigger] apps[j].id != id by {
        match catalog::app_index(apps, id) {
            Some(k) => {
                assert(apps[k].id == id);
            },
            None => {
                assert(!p(apps[j]));
            },
        }
    }
    assert forall|i: int, j: int| 0 <= i < j < r.len() implies (#[trigger] r[i]).id != (
    #[trigger] r[j]).id by {
        if i == place {
            assert(r[j] == apps[j]);
            assert(apps[j].id != id);
        } else if j == place {
            assert(r[i] == apps[i]);
            assert(apps[i].id != id);
        } else {
            assert(r[i] == apps[i] && r[j] == apps[j]);
        }
    }
}

/// After a scan the application that it met is in the catalogue under its id,
/// and what the user set of an application that was there before is kept.
pub proof fn law_upserted_is_found(
    apps: Seq<AppView>,
    category: CategoryView,
    m: Met,
    windows: bool,
)
    ensures
        match met_index(apps, m, windows) {
            Some(k) => {
                let r = upserted(apps, category, m, windows);
                &&& 0 <= k < apps.len()
                &&& r.len() == apps.len()
                &&& r[k].favorite == apps[k].favorite
                &&& r[k].note == apps[k].note
                &&& r[k].icon_data_url == apps[k].icon_data_url
                &&& r[k].launch_count == apps[k].launch_count
                &&& r[k].last_launched_at == apps[k].last_launched_at
                &&& forall|j: int| 0 <= j < apps.len() && j != k ==> #[trigger] r[j] == apps[j]
            },
            None => upserted(apps, category, m, windows).drop_last() == apps,
        },
        lists::found(upserted(apps, category, m, windows), catalog::app_has_id(met_id(m))) matches Some(
            app,
        ) && app.executable_path == (match m.chosen {
            Some(p) => Some(paths::path_text(p)),
            None => None,
        }) && app.category_id == category.id,
{
    let id = met_id(m);
    let p = catalog::app_has_id(id);
    let q = awaits_program(paths::path_text(m.folder), windows);
    lists::lemma_first_from(apps, p, 0);
    lists::lemma_first_from(apps, q, 0);
    let r = upserted(apps, category, m, windows);
    let place = match met_index(apps, m, windows) {
        Some(k) => k,
        None => apps.len() as int,
    };
    assert(p(r[place]));
    assert forall|j: int| 0 <= j < place implies !p(#[trigger] r[j]) by {
        assert(r[j] == apps[j]);
        assert(!p(apps[j]));
    }
    lists::lemma_first_is(r, p, place);
    if met_index(apps, m, windows) is None {
        assert(r.drop_last() =~= apps);
    }
}

/// Scanning the same application again finds it in the catalogue and leaves
/// the catalogue as it is.
pub proof fn law_rescan_changes_nothing(
    apps: Seq<AppView>,
    category: CategoryView,
    m: Met,
    windows: bool,
)
    ensures
        ({
            let once = upserted(apps, category, m, windows);
            &&& met_index(once, m, windows) is Some
            &&& upserted(once, category, m, windows) == once
        }),
{
    let id = met_id(m);
    let p = catalog::app_has_id(id);
    let q = awaits_program(paths::path_text(m.folder), windows);
    lists::lemma_first_from(apps, p, 0);
    lists::lemma_first_from(apps, q, 0);
    let once = upserted(apps, category, m, windows);
    let place = match met_index(apps, m, windows) {
        Some(k) => k,
        None => apps.len() as int,
    };
    assert(p(once[place]));
    assert forall|j: int| 0 <= j < place implies !p(#[trigger] once[j]) by {
        assert(once[j] == apps[j]);
        assert(!p(apps[j]));
    }
    lists::lemma_first_is(once, p, place);
    assert(refreshed(once[place], category, m) == once[place]);
    assert(upserted(once, category, m, windows) =~= once);
}

proof fn lemma_counted_keeps_ids_distinct(
    t: Tally,
    category: CategoryView,
    o: Outcome,
    windows: bool,
)
    requires
        catalog::ids_distinct(t.apps),
    ensures
        catalog::ids_distinct(counted(t, category, o, windows).apps),
{
    if let Outcome::Met(m, _) = o {
        law_upserted_keeps_ids_distinct(t.apps, category, m, windows);
    }
}

/// A scan of paths keeps the ids of the applications distinct, however it
/// ends.
pub proof fn law_path_scan_keeps_ids_distinct(
    t: Tally,
    apps: PathView,
    category: CategoryView,
    found: Seq<FoundPath>,
    windows: bool,
)
    requires
        catalog::ids_distinct(t.apps),
    ensures
        catalog::ids_distinct(paths_scanned(t, apps, category, found, windows).apps),
    decreases found.len(),
{
    if found.len() > 0 {
        law_path_scan_keeps_ids_distinct(t, apps, category, found.drop_last(), windows);
        lemma_counted_keeps_ids_distinct(
            paths_scanned(t, apps, category, found.drop_last(), windows),
            category,
            path_outcome(apps, found.last()),
            windows,
        );
    }
}

proof fn lemma_entry_scan_keeps_ids_distinct(
    t: Tally,
    category_path: PathView,
    category: CategoryView,
    found: Seq<FoundPath>,
    windows: bool,
)
    requires
        catalog::ids_distinct(t.apps),
    ensures
        catalog::ids_distinct(entries_scanned(t, category_path, category, found, windows).apps),
    decreases found.len(),
{
    if found.len() > 0 {
        lemma_entry_scan_keeps_ids_distinct(
            t,
            category_path,
            category,
            found.drop_last(),
            windows,
        );
        lemma_counted_keeps_ids_distinct(
            entries_scanned(t, category_path, category, found.drop_last(), windows),
            category,
            entry_outcome(category_path, found.last()),
            windows,
        );
    }
}

/// A scan of categories keeps the ids of the applications distinct, however it
/// ends.
pub proof fn law_category_scan_keeps_ids_distinct(
    t: Tally,
    apps: PathView,
    found: Seq<FoundCategory>,
    windows: bool,
)
    requires
        catalog::ids_distinct(t.apps),
    ensures
        catalog::ids_distinct(categories_scanned(t, apps, found, windows).apps),
    decreases found.len(),
{
    if found.len() > 0 {
        law_category_scan_keeps_ids_distinct(t, apps, found.drop_last(), windows);
        let before = categories_scanned(t, apps, found.drop_last(), windows);
        lemma_entry_scan_keeps_ids_distinct(
            before,
            found.last().path@,
            found.last().category@,
            found.last().entries@,
            windows,
        );
    }
}

/// Every path of a scan is counted at most once, the catalogue grows by the
/// applications that were added, and there are no more issues than applications
/// that were met.
pub proof fn law_paths_scanned_counts(
    apps_before: Seq<AppView>,
    apps: PathView,
    category: CategoryView,
    found: Seq<FoundPath>,
    windows: bool,
)
    ensures
        ({
            let t = paths_scanned(begun(apps_before), apps, category, found, windows);
            &&& t.added + t.updated <= found.len()
            &&& t.apps.len() == apps_before.len() + t.added
            &&& t.issues.len() <= t.added + t.updated
        }),
    decreases found.len(),
{
    if found.len() > 0 {
        law_paths_scanned_counts(apps_before, apps, category, found.drop_last(), windows);
        let before = paths_scanned(
            begun(apps_before),
            apps,
            category,
            found.drop_last(),
            windows,
        );
        if let Outcome::Met(m, _) = path_outcome(apps, found.last()) {
            law_upserted_is_found(before.apps, category, m, windows);
        }
    }
}

// ---------------------------------------------------------------------------
// Code
// ---------------------------------------------------------------------------

/// The application of a folder that has no program yet.
struct Awaiting<'a> {
    folder: &'a str,
    windows: bool,
}

impl<'a> Wanted<ManagedApp> for Awaiting<'a> {
    closed spec fn accepts(&self) -> spec_fn(AppView) -> bool {
        awaits_program(self.folder@, self.windows)
    }

    fn is_met_by(&self, value: &ManagedApp) -> (r: bool) {
        if value.executable_path.is_some() {
            return false;
        }
        let own = normalize_incoming_path(value.folder_path.as_str(), self.windows);
        let wanted = normalize_incoming_path(self.folder, self.windows);
        same_text(own.as_str(), wanted.as_str())
    }
}

fn find_awaiting(apps: &Vec<ManagedApp>, folder: &str, windows: bool) -> (r: Option<usize>)
    ensures
        match r {
            Some(k) => lists::first(model::views(apps@), awaits_program(folder@, windows)) == Some(
                k as int,
            ) && k < apps@.len(),
            None => lists::first(model::views(apps@), awaits_program(folder@, windows)) is None,
        },
{
    position(apps, &Awaiting { folder, windows })
}

/// Takes an application that a scan met into the catalogue; tells whether it
/// was there before.
pub fn upsert_scanned_app(
    data: &mut AppData,
    category: &Category,
    app_name: &str,
    folder_path: &FilePath,
    executable_path: &Option<FilePath>,
    executable_candidates: &Vec<FilePath>,
    windows: bool,
) -> (r: bool)
    ensures
        ({
            let m = Met {
                name: app_name@,
                folder: folder_path@,
                chosen: executables::opt_path(*executable_path),
                programs: model::views(executable_candidates@),
            };
            &&& r == (met_index(old(data)@.apps, m, windows) is Some)
            &&& final(data)@ == (AppDataView {
                apps: upserted(old(data)@.apps, category@, m, windows),
                ..old(data)@
            })
        }),
{
    let ghost m = Met {
        name: app_name@,
        folder: folder_path@,
        chosen: executables::opt_path(*executable_path),
        programs: model::views(executable_candidates@),
    };
    let folder_key = path_to_string(folder_path);
    let executable_text = match executable_path {
        Some(p) => Some(path_to_string(p)),
        None => None,
    };
    let app_id = match &executable_text {
        Some(s) => make_id(s.as_str()),
        None => make_id(folder_key.as_str()),
    };
    assert(app_id@ == met_id(m));
    let candidates = normalize_executable_candidates(executable_path, executable_candidates);
    let existing = match find_app(&data.apps, app_id.as_str()) {
        Some(k) => Some(k),
        None => match executable_path {
            Some(_) => find_awaiting(&data.apps, folder_key.as_str(), windows),
            None => None,
        },
    };
    match existing {
        Some(k) => {
            let mut app = data.apps[k].clone();
            let ghost previous = app@;
            app.id = app_id;
            app.name = app_name.to_string();
            app.category_id = category.id.clone();
            app.category_name = category.name.clone();
            app.folder_path = folder_key;
            app.executable_path = executable_text;
            app.executable_candidates = candidates;
            assert(app@ == refreshed(previous, category@, m));
            replace_app(data, k, app);
            true
        },
        None => {
            let app = ManagedApp {
                id: app_id,
                name: app_name.to_string(),
                category_id: category.id.clone(),
                category_name: category.name.clone(),
                folder_path: folder_key,
                executable_path: executable_text,
                executable_candidates: candidates,
                icon_data_url: None,
                favorite: false,
                note: String::new(),
                launch_count: 0,
                last_launched_at: None,
            };
            assert(app.note@ =~= Seq::<char>::empty());
            assert(app@ == fresh(category@, m));
            let ghost before = data.apps@;
            data.apps.push(app);
            assert(model::views(data.apps@) =~= model::views(before).push(app@));
            false
        },
    }
}

fn issue_for(folder: &FilePath, programs: &Vec<FilePath>) -> (r: Option<ScanIssue>)
    ensures
        (match r {
            Some(i) => Some(i@),
            None => None,
        }) == issue_of(folder@, model::views(programs@)),
{
    if programs.len() == 0 {
        let issue = ScanIssue {
            folder_path: path_to_string(folder),
            reason: NO_PROGRAM.to_string(),
            candidates: Vec::new(),
        };
        assert(text::texts(issue.candidates@) =~= Seq::<Seq<char>>::empty());
        Some(issue)
    } else if programs.len() > 1 {
        Some(
            ScanIssue {
                folder_path: path_to_string(folder),
                reason: SEVERAL_PROGRAMS.to_string(),
                candidates: paths_to_strings(programs),
            },
        )
    } else {
        None
    }
}

/// What a step of a scan did to the catalogue: nothing, or an application that
/// was updated or added, with the issue of its folder.
pub open spec fn step_matches(
    before: AppDataView,
    after: AppDataView,
    r: Result<Option<(bool, Option<ScanIssue>)>, String>,
    category: CategoryView,
    o: Outcome,
    windows: bool,
) -> bool {
    match o {
        Outcome::Skipped => after == before && r == Ok::<_, String>(
            None::<(bool, Option<ScanIssue>)>,
        ),
        Outcome::Failed(e) => after == before && (r matches Err(message) && message@ == e),
        Outcome::Met(m, issue) => {
            &&& after == AppDataView {
                apps: upserted(before.apps, category, m, windows),
                ..before
            }
            &&& r matches Ok(Some((was_updated, shown)))
            &&& was_updated == (met_index(before.apps, m, windows) is Some)
            &&& issue == (match shown {
                Some(i) => Some(i@),
                None => None,
            })
        },
    }
}

fn scan_folder(
    data: &mut AppData,
    category: &Category,
    app_name: &str,
    path: &FilePath,
    contents: &Result<Vec<FolderEntry>, String>,
    windows: bool,
) -> (r: Result<Option<(bool, Option<ScanIssue>)>, String>)
    ensures
        step_matches(
            old(data)@,
            final(data)@,
            r,
            category@,
            folder_outcome(app_name@, path@, *contents),
            windows,
        ),
{
    if app_name.is_empty() {
        return Ok(None);
    }
    match contents {
        Err(e) => Err(e.clone()),
        Ok(entries) => {
            let programs = find_executables(entries);
            let chosen = pick_executable(app_name, path, &programs);
            let issue = issue_for(path, &programs);
            let was_updated = upsert_scanned_app(
                data,
                category,
                app_name,
                path,
                &chosen,
                &programs,
                windows,
            );
            Ok(Some((was_updated, issue)))
        },
    }
}

fn scan_program(
    data: &mut AppData,
    category: &Category,
    path: &FilePath,
    folder: &FilePath,
    windows: bool,
) -> (r: Result<Option<(bool, Option<ScanIssue>)>, String>)
    ensures
        step_matches(
            old(data)@,
            final(data)@,
            r,
            category@,
            program_outcome(path@, folder@),
            windows,
        ),
{
    let stem = match path.file_stem() {
        Some(stem) => stem,
        None => UNNAMED_APP.to_string(),
    };
    let app_name = trim(stem.as_str());
    let none: Vec<FilePath> = Vec::new();
    assert(model::views(none@) =~= Seq::<PathView>::empty());
    let chosen = Some(path.clone());
    let was_updated = upsert_scanned_app(
        data,
        category,
        app_name.as_str(),
        folder,
        &chosen,
        &none,
        windows,
    );
    Ok(Some((was_updated, None)))
}

/// Takes the application that a path leads to into the catalogue.
pub fn scan_app_path(
    apps: &FilePath,
    data: &mut AppData,
    category: &Category,
    found: &FoundPath,
    windows: bool,
) -> (r: Result<Option<(bool, Option<ScanIssue>)>, String>)
    ensures
        step_matches(
            old(data)@,
            final(data)@,
            r,
            category@,
            path_outcome(apps@, *found),
            windows,
        ),
{
    match ensure_inside_apps_dir(apps, &found.resolved) {
        Ok(_) => {},
        Err(e) => {
            return Err(e);
        },
    }
    match &found.what {
        Observed::Folder(contents) => {
            let name = match found.path.file_name() {
                Some(name) => name,
                None => UNNAMED_APP.to_string(),
            };
            let app_name = trim(name.as_str());
            scan_folder(data, category, app_name.as_str(), &found.path, contents, windows)
        },
        Observed::File => {
            if is_executable_file(&found.path) {
                match found.path.parent() {
                    Some(parent) => scan_program(data, category, &found.path, &parent, windows),
                    None => scan_program(data, category, &found.path, &found.path, windows),
                }
            } else {
                Ok(None)
            }
        },
        _ => Ok(None),
    }
}

/// Takes an entry of a category's folder into the catalogue.
fn scan_entry(
    data: &mut AppData,
    category: &Category,
    category_path: &FilePath,
    found: &FoundPath,
    windows: bool,
) -> (r: Result<Option<(bool, Option<ScanIssue>)>, String>)
    ensures
        step_matches(
            old(data)@,
            final(data)@,
            r,
            category@,
            entry_outcome(category_path@, *found),
            windows,
        ),
{
    match &found.what {
        Observed::Folder(contents) => {
            let n: usize = found.path.parts.len();
            let app_name = if n > 0 {
                assert(found.path@.parts.last() == found.path.parts@[n - 1]@);
                trim(found.path.parts[n - 1].shown.as_str())
            } else {
                let none = String::new();
                assert(none@ =~= Seq::<char>::empty());
                trim(none.as_str())
            };
            scan_folder(data, category, app_name.as_str(), &found.path, contents, windows)
        },
        Observed::File => {
            if is_executable_file(&found.path) {
                scan_program(data, category, &found.path, category_path, windows)
            } else {
                Ok(None)
            }
        },
        _ => Ok(None),
    }
}

/// The counts of a scan that is under way.
struct Counts {
    added: usize,
    updated: usize,
    issues: Vec<ScanIssue>,
}

/// The counts and the catalogue are those of the tally.
spec fn counts_match(c: Counts, before: AppDataView, now: AppDataView, t: Tally) -> bool {
    &&& now == AppDataView { apps: t.apps, ..before }
    &&& c.added == t.added
    &&& c.updated == t.updated
    &&& model::views(c.issues@) == t.issues
    &&& t.failure is None
}

/// Counts what a step did.
fn count_step(
    counts: &mut Counts,
    step: Result<Option<(bool, Option<ScanIssue>)>, String>,
    Ghost(before): Ghost<AppDataView>,
    Ghost(middle): Ghost<AppDataView>,
    Ghost(after): Ghost<AppDataView>,
    Ghost(t): Ghost<Tally>,
    Ghost(category): Ghost<CategoryView>,
    Ghost(o): Ghost<Outcome>,
    Ghost(windows): Ghost<bool>,
) -> (r: Option<String>)
    requires
        counts_match(*old(counts), before, middle, t),
        step_matches(middle, after, step, category, o, windows),
        t.added + t.updated < usize::MAX,
    ensures
        match r {
            None => counts_match(*final(counts), before, after, counted(t, category, o, windows)),
            Some(e) => counted(t, category, o, windows) == (Tally { failure: Some(e@), ..t })
                && after == middle,
        },
{
    match step {
        Err(e) => Some(e),
        Ok(None) => None,
        Ok(Some((was_updated, issue))) => {
            if was_updated {
                counts.updated = counts.updated + 1;
            } else {
                counts.added = counts.added + 1;
            }
            match issue {
                Some(i) => {
                    let ghost earlier = counts.issues@;
                    counts.issues.push(i);
                    assert(model::views(counts.issues@) =~= model::views(earlier).push(i@));
                },
                None => {},
            }
            None
        },
    }
}

/// Takes the applications that paths lead to into the catalogue.
pub fn scan_app_paths(
    apps: &FilePath,
    data: &mut AppData,
    category: &Category,
    found: &Vec<FoundPath>,
    windows: bool,
) -> (r: Result<ScanResult, String>)
    ensures
        result_matches(
            old(data)@,
            final(data)@,
            r,
            paths_scanned(begun(old(data)@.apps), apps@, category@, found@, windows),
        ),
{
    let ghost before = data@;
    let ghost start = begun(data@.apps);
    let mut counts = Counts { added: 0, updated: 0, issues: Vec::new() };
    assert(model::views(counts.issues@) =~= Seq::<ScanIssueView>::empty());
    let mut i: usize = 0;
    let n: usize = found.len();
    assert(found@.take(0) =~= Seq::empty());
    while i < n
        invariant
            n == found@.len(),
            i <= n,
            before == old(data)@,
            start == begun(before.apps),
            counts_match(
                counts,
                before,
                data@,
                paths_scanned(start, apps@, category@, found@.take(i as int), windows),
            ),
        decreases n - i,
    {
        let ghost t = paths_scanned(start, apps@, category@, found@.take(i as int), windows);
        let ghost next = found@.take(i + 1);
        assert(next.drop_last() =~= found@.take(i as int));
        assert(next.last() == found@[i as int]);
        proof {
            law_paths_scanned_counts(before.apps, apps@, category@, found@.take(i as int), windows);
        }
        let skip = match &found[i].what {
            Observed::Missing => true,
            _ => false,
        };
        if !skip {
            let ghost middle = data@;
            let step = scan_app_path(apps, data, category, &found[i], windows);
            let ghost o = path_outcome(apps@, found@[i as int]);
            match count_step(
                &mut counts,
                step,
                Ghost(before),
                Ghost(middle),
                Ghost(data@),
                Ghost(t),
                Ghost(category@),
                Ghost(o),
                Ghost(windows),
            ) {
                Some(e) => {
                    proof {
                        lemma_failed_paths(start, apps@, category@, found@, windows, i + 1);
                    }
                    return Err(e);
                },
                None => {},
            }
        }
        i = i + 1;
    }
    assert(found@.take(i as int) =~= found@);
    Ok(
        ScanResult {
            added: counts.added,
            updated: counts.updated,
            issues: counts.issues,
            data: data.clone(),
        },
    )
}

/// A scan that failed somewhere has failed at its end.
proof fn lemma_failed_paths(
    t: Tally,
    apps: PathView,
    category: CategoryView,
    found: Seq<FoundPath>,
    windows: bool,
    k: int,
)
    requires
        0 <= k <= found.len(),
        paths_scanned(t, apps, category, found.take(k), windows).failure is Some,
    ensures
        paths_scanned(t, apps, category, found, windows) == paths_scanned(
            t,
            apps,
            category,
            found.take(k),
            windows,
        ),
    decreases found.len() - k,
{
    if k == found.len() {
        assert(found.take(k) =~= found);
    } else {
        assert(found.take(k + 1).drop_last() =~= found.take(k));
        lemma_failed_paths(t, apps, category, found, windows, k + 1);
    }
}

/// Every entry of a category's folder is counted at most once, the catalogue
/// grows by the applications that were added, and there are no more new issues
/// than applications that were met.
pub proof fn law_entries_scanned_counts(
    t: Tally,
    category_path: PathView,
    category: CategoryView,
    found: Seq<FoundPath>,
    windows: bool,
)
    ensures
        ({
            let r = entries_scanned(t, category_path, category, found, windows);
            &&& r.added + r.updated <= t.added + t.updated + found.len()
            &&& r.apps.len() + t.added == t.apps.len() + r.added
            &&& r.issues.len() + t.added + t.updated <= t.issues.len() + r.added + r.updated
        }),
    decreases found.len(),
{
    if found.len() > 0 {
        law_entries_scanned_counts(t, category_path, category, found.drop_last(), windows);
        let before = entries_scanned(t, category_path, category, found.drop_last(), windows);
        if let Outcome::Met(m, _) = entry_outcome(category_path, found.last()) {
            law_upserted_is_found(before.apps, category, m, windows);
        }
    }
}

proof fn lemma_failed_entries(
    t: Tally,
    category_path: PathView,
    category: CategoryView,
    found: Seq<FoundPath>,
    windows: bool,
    k: int,
)
    requires
        0 <= k <= found.len(),
        entries_scanned(t, category_path, category, found.take(k), windows).failure is Some,
    ensures
        entries_scanned(t, category_path, category, found, windows) == entries_scanned(
            t,
            category_path,
            category,
            found.take(k),
            windows,
        ),
    decreases found.len() - k,
{
    if k == found.len() {
        assert(found.take(k) =~= found);
    } else {
        assert(found.take(k + 1).drop_last() =~= found.take(k));
        lemma_failed_entries(t, category_path, category, found, windows, k + 1);
    }
}

proof fn lemma_failed_categories(
    t: Tally,
    apps: PathView,
    found: Seq<FoundCategory>,
    windows: bool,
    k: int,
)
    requires
        0 <= k <= found.len(),
        categories_scanned(t, apps, found.take(k), windows).failure is Some,
    ensures
        categories_scanned(t, apps, found, windows) == categories_scanned(
            t,
            apps,
            found.take(k),
            windows,
        ),
    decreases found.len() - k,
{
    if k == found.len() {
        assert(found.take(k) =~= found);
    } else {
        assert(found.take(k + 1).drop_last() =~= found.take(k));
        lemma_failed_categories(t, apps, found, windows, k + 1);
    }
}

/// The number of entries of all categories.
pub open spec fn entry_count(found: Seq<FoundCategory>) -> nat
    decreases found.len(),
{
    if found.len() == 0 {
        0
    } else {
        entry_count(found.drop_last()) + found.last().entries@.len()
    }
}

/// Every entry of every category is counted at most once, the catalogue grows by
/// the applications that were added, and there are no more issues than
/// applications that were met.
pub proof fn law_categories_scanned_counts(
    apps_before: Seq<AppView>,
    apps: PathView,
    found: Seq<FoundCategory>,
    windows: bool,
)
    ensures
        ({
            let t = categories_scanned(begun(apps_before), apps, found, windows);
            &&& t.added + t.updated <= entry_count(found)
            &&& t.apps.len() == apps_before.len() + t.added
            &&& t.issues.len() <= t.added + t.updated
        }),
    decreases found.len(),
{
    if found.len() > 0 {
        law_categories_scanned_counts(apps_before, apps, found.drop_last(), windows);
        let before = categories_scanned(begun(apps_before), apps, found.drop_last(), windows);
        law_entries_scanned_counts(
            before,
            found.last().path@,
            found.last().category@,
            found.last().entries@,
            windows,
        );
    }
}

proof fn lemma_entry_count_monotone(found: Seq<FoundCategory>, k: int)
    requires
        0 <= k <= found.len(),
    ensures
        entry_count(found.take(k)) <= entry_count(found),
    decreases found.len() - k,
{
    if k == found.len() {
        assert(found.take(k) =~= found);
    } else {
        assert(found.take(k + 1).drop_last() =~= found.take(k));
        lemma_entry_count_monotone(found, k + 1);
    }
}

/// Takes what stands in the folders of categories into the catalogue.
pub fn scan_categories(
    apps: &FilePath,
    data: &mut AppData,
    found: &Vec<FoundCategory>,
    windows: bool,
) -> (r: Result<ScanResult, String>)
    requires
        entry_count(found@) < usize::MAX,
    ensures
        result_matches(
            old(data)@,
            final(data)@,
            r,
            categories_scanned(begun(old(data)@.apps), apps@, found@, windows),
        ),
{
    let ghost before = data@;
    let ghost start = begun(data@.apps);
    let mut counts = Counts { added: 0, updated: 0, issues: Vec::new() };
    assert(model::views(counts.issues@) =~= Seq::<ScanIssueView>::empty());
    let mut i: usize = 0;
    let n: usize = found.len();
    assert(found@.take(0) =~= Seq::empty());
    while i < n
        invariant
            n == found@.len(),
            i <= n,
            entry_count(found@) < usize::MAX,
            before == old(data)@,
            start == begun(before.apps),
            counts_match(
                counts,
                before,
                data@,
                categories_scanned(start, apps@, found@.take(i as int), windows),
            ),
        decreases n - i,
    {
        let ghost t = categories_scanned(start, apps@, found@.take(i as int), windows);
        let ghost next = found@.take(i + 1);
        assert(next.drop_last() =~= found@.take(i as int));
        assert(next.last() == found@[i as int]);
        proof {
            law_categories_scanned_counts(before.apps, apps@, found@.take(i as int), windows);
            lemma_entry_count_monotone(found@, i + 1);
        }
        let item = &found[i];
        match ensure_inside_apps_dir(apps, &item.resolved) {
            Ok(_) => {},
            Err(e) => {
                proof {
                    lemma_failed_categories(start, apps@, found@, windows, i + 1);
                }
                return Err(e);
            },
        }
        let ghost entries = item.entries@;
        let mut k: usize = 0;
        let m: usize = item.entries.len();
        assert(entries.take(0) =~= Seq::empty());
        while k < m
            invariant
                m == entries.len(),
                k <= m,
                i < n,
                n == found@.len(),
                item == found@[i as int],
                entries == item.entries@,
                next == found@.take(i + 1),
                next.drop_last() == found@.take(i as int),
                next.last() == found@[i as int],
                before == old(data)@,
                start == begun(before.apps),
                paths::lies_in(item.resolved@, apps@),
                t == categories_scanned(start, apps@, found@.take(i as int), windows),
                t.failure is None,
                t.added + t.updated + entries.len() < usize::MAX,
                counts_match(
                    counts,
                    before,
                    data@,
                    entries_scanned(
                        t,
                        item.path@,
                        item.category@,
                        entries.take(k as int),
                        windows,
                    ),
                ),
            decreases m - k,
        {
            let ghost u = entries_scanned(
                t,
                item.path@,
                item.category@,
                entries.take(k as int),
                windows,
            );
            let ghost further = entries.take(k + 1);
            assert(further.drop_last() =~= entries.take(k as int));
            assert(further.last() == entries[k as int]);
            proof {
                law_entries_scanned_counts(
                    t,
                    item.path@,
                    item.category@,
                    entries.take(k as int),
                    windows,
                );
            }
            let ghost middle = data@;
            let step = scan_entry(data, &item.category, &item.path, &item.entries[k], windows);
            let ghost o = entry_outcome(item.path@, entries[k as int]);
            match count_step(
                &mut counts,
                step,
                Ghost(before),
                Ghost(middle),
                Ghost(data@),
                Ghost(u),
                Ghost(item.category@),
                Ghost(o),
                Ghost(windows),
            ) {
                Some(e) => {
                    proof {
                        lemma_failed_entries(
                            t,
                            item.path@,
                            item.category@,
                            entries,
                            windows,
                            k + 1,
                        );
                        lemma_failed_categories(start, apps@, found@, windows, i + 1);
                    }
                    return Err(e);
                },
                None => {},
            }
            k = k + 1;
        }
        assert(entries.take(k as int) =~= entries);
        match &item.failure {
            Some(e) => {
                proof {
                    lemma_failed_categories(start, apps@, found@, windows, i + 1);
                }
                return Err(e.clone());
            },
            None => {},
        }
        i = i + 1;
    }
    assert(found@.take(i as int) =~= found@);
    Ok(
        ScanResult {
            added: counts.added,
            updated: counts.updated,
            issues: counts.issues,
            data: data.clone(),
        },
    )
}

/// Where a scan finds an application in the catalogue: at the first entry with
/// its identifier, which comes from the path of its program and, where it has
/// none, of its folder. Where there is no such entry, an application that has a
/// program takes the first entry of its folder that has none.
pub proof fn law_met_index(apps: Seq<AppView>, m: Met, windows: bool, k: int)
    ensures
        ({
            let text = match m.chosen {
                Some(p) => paths::path_text(p),
                None => paths::path_text(m.folder),
            };
            let known = exists|i: int| 0 <= i < apps.len() && (#[trigger] apps[i]).id == fnv::id_of(text);
            let waits = |a: AppView|
                a.executable_path is None && catalog::same_folder_text(
                    a.folder_path,
                    paths::path_text(m.folder),
                    windows,
                );
            &&& 0 <= k < apps.len() && apps[k].id == fnv::id_of(text) && (forall|i: int|
                0 <= i < k ==> (#[trigger] apps[i]).id != fnv::id_of(text)) ==> met_index(
                apps,
                m,
                windows,
            ) == Some(k)
            &&& !known && m.chosen is Some && 0 <= k < apps.len() && waits(apps[k]) && (forall|
                i: int,
            |
                0 <= i < k ==> !waits(#[trigger] apps[i])) ==> met_index(apps, m, windows) == Some(k)
            &&& !known && (m.chosen is None || forall|i: int|
                0 <= i < apps.len() ==> !waits(#[trigger] apps[i])) ==> met_index(
                apps,
                m,
                windows,
            ) is None
        }),
{
    let id = met_id(m);
    let p = catalog::app_has_id(id);
    let q = awaits_program(paths::path_text(m.folder), windows);
    lists::law_first(apps, p);
    lists::law_first(apps, q);
    if 0 <= k < apps.len() && apps[k].id == id && (forall|i: int|
        0 <= i < k ==> (#[trigger] apps[i]).id != id) {
        assert forall|i: int| 0 <= i < k implies !p(#[trigger] apps[i]) by {}
        lists::lemma_first_is(apps, p, k);
    }
    if let Some(i) = catalog::app_index(apps, id) {
        assert(p(apps[i]));
        assert(apps[i].id == id);
    }
    assert forall|i: int| 0 <= i < apps.len() implies q(#[trigger] apps[i]) == (
    apps[i].executable_path is None && catalog::same_folder_text(
        apps[i].folder_path,
        paths::path_text(m.folder),
        windows,
    )) by {
        catalog::lemma_same_folder_text(apps[i].folder_path, paths::path_text(m.folder), windows);
    }
    if 0 <= k < apps.len() && q(apps[k]) && (forall|i: int|
        0 <= i < k ==> !q(#[trigger] apps[i])) {
        lists::lemma_first_is(apps, q, k);
    }
}

/// An application that a scan met stands in the catalogue with the name, the
/// folder, the category, the program and the candidates that the scan found; one
/// that is new comes last, without a mark, a note, an icon or a launch.
pub proof fn law_met_app(apps: Seq<AppView>, category: CategoryView, m: Met, windows: bool)
    ensures
        ({
            let r = upserted(apps, category, m, windows);
            let k = match met_index(apps, m, windows) {
                Some(k) => k,
                None => apps.len() as int,
            };
            &&& 0 <= k < r.len()
            &&& r[k].name == m.name
            &&& r[k].folder_path == paths::path_text(m.folder)
            &&& r[k].category_id == category.id
            &&& r[k].category_name == category.name
            &&& m.chosen matches Some(p) ==> r[k].executable_path == Some(paths::path_text(p))
                && r[k].id == fnv::id_of(paths::path_text(p))
            &&& m.chosen is None ==> r[k].executable_path is None && r[k].id == fnv::id_of(
                paths::path_text(m.folder),
            )
            &&& r[k].executable_candidates == executables::candidates(m.chosen, m.programs)
            &&& k == apps.len() ==> r.drop_last() == apps && !r[k].favorite && r[k].note.len() == 0
                && r[k].icon_data_url is None && r[k].launch_count == 0
                && r[k].last_launched_at is None
        }),
{
    law_upserted_is_found(apps, category, m, windows);
}

/// A folder without a name is passed over, one that could not be read fails with
/// the reason, and any other is met: with all programs that were found in it, in
/// order, the one that was picked of them, and a remark where there is none or
/// more than one.
pub proof fn law_folder_outcome(
    name: Seq<char>,
    path: PathView,
    contents: Result<Vec<FolderEntry>, String>,
)
    ensures
        name.len() == 0 ==> folder_outcome(name, path, contents) is Skipped,
        name.len() > 0 ==> match contents {
            Err(e) => folder_outcome(name, path, contents) == Outcome::Failed(e@),
            Ok(entries) => {
                &&& folder_outcome(name, path, contents) matches Outcome::Met(m, issue)
                &&& m.name == name
                &&& m.folder == path
                &&& m.programs.to_multiset() == executables::programs(entries@, 0).to_multiset()
                &&& order::in_order::<FilePath>(m.programs)
                &&& m.chosen == executables::picked(name, path, m.programs)
                &&& issue is None == (m.programs.len() == 1)
                &&& m.programs.len() == 0 ==> (issue matches Some(i) && i.reason
                    == "未找到 .exe 文件"@ && i.folder_path == paths::path_text(path)
                    && i.candidates.len() == 0)
                &&& m.programs.len() > 1 ==> (issue matches Some(i) && i.reason
                    == "检测到多个 .exe，需要后续选择主程序"@ && i.folder_path == paths::path_text(
                    path,
                ) && i.candidates.len() == m.programs.len() && forall|j: int|
                    0 <= j < m.programs.len() ==> #[trigger] i.candidates[j] == paths::path_text(
                        m.programs[j],
                    ))
            },
        },
{
    if let Ok(entries) = contents {
        order::law_sorted::<FilePath>(executables::programs(entries@, 0));
    }
}

/// A path outside the folder of the applications fails. In it a folder is met
/// under its own name, and a program under its name without the extension, as an
/// application of the folder that it lies in. Nothing else is met.
pub proof fn law_path_outcome(apps: PathView, found: FoundPath)
    ensures
        !paths::lies_in(found.resolved@, apps) ==> path_outcome(apps, found) == Outcome::Failed(
            OUTSIDE_APPS@,
        ),
        paths::lies_in(found.resolved@, apps) ==> match found.what {
            Observed::Folder(contents) => {
                &&& paths::file_name_of(found.path@) matches Some(name) ==> path_outcome(
                    apps,
                    found,
                ) == folder_outcome(text::trimmed(name), found.path@, contents)
                &&& paths::file_name_of(found.path@) is None ==> path_outcome(apps, found)
                    == folder_outcome("未命名软件"@, found.path@, contents)
            },
            Observed::File => {
                &&& !paths::has_extension(found.path@, "exe"@) ==> path_outcome(
                    apps,
                    found,
                ) is Skipped
                &&& paths::has_extension(found.path@, "exe"@) ==> {
                    &&& path_outcome(apps, found) matches Outcome::Met(m, issue)
                    &&& issue is None
                    &&& m.chosen == Some(found.path@)
                    &&& m.programs.len() == 0
                    &&& paths::parent_of(found.path@) matches Some(parent) ==> m.folder == parent
                    &&& paths::file_stem_of(found.path@) matches Some(stem) ==> m.name
                        == text::trimmed(stem)
                }
            },
            Observed::Missing => path_outcome(apps, found) is Skipped,
            Observed::Other => path_outcome(apps, found) is Skipped,
        },
{
    reveal_strlit("未命名软件");
    assert(text::is_trimmed(UNNAMED_APP@));
    text::law_trimmed_idempotent(UNNAMED_APP@);
}

/// An entry of a category's folder: a folder is met under the name by which it is
/// shown, and a program under its name without the extension, as an application
/// of the category's folder. Nothing else is met.
pub proof fn law_entry_outcome(category_path: PathView, found: FoundPath)
    ensures
        match found.what {
            Observed::Folder(contents) => found.path@.parts.len() > 0 ==> entry_outcome(
                category_path,
                found,
            ) == folder_outcome(
                text::trimmed(found.path@.parts.last().shown),
                found.path@,
                contents,
            ),
            Observed::File => {
                &&& !paths::has_extension(found.path@, "exe"@) ==> entry_outcome(
                    category_path,
                    found,
                ) is Skipped
                &&& paths::has_extension(found.path@, "exe"@) ==> {
                    &&& entry_outcome(category_path, found) matches Outcome::Met(m, issue)
                    &&& issue is None
                    &&& m.chosen == Some(found.path@)
                    &&& m.programs.len() == 0
                    &&& m.folder == category_path
                    &&& paths::file_stem_of(found.path@) matches Some(stem) ==> m.name
                        == text::trimmed(stem)
                }
            },
            Observed::Missing => entry_outcome(category_path, found) is Skipped,
            Observed::Other => entry_outcome(category_path, found) is Skipped,
        },
{
}

/// One step of a scan: what was passed over changes nothing; a failure is noted
/// and changes nothing else; an application that was met is put into the
/// catalogue, and counts as updated where the catalogue had it and as added where
/// it did not; a remark comes last.
pub proof fn law_counted(t: Tally, category: CategoryView, o: Outcome, windows: bool)
    ensures
        ({
            let r = counted(t, category, o, windows);
            match o {
                Outcome::Skipped => r == t,
                Outcome::Failed(e) => r.failure == Some(e) && r.apps == t.apps && r.added == t.added
                    && r.updated == t.updated && r.issues == t.issues,
                Outcome::Met(m, issue) => {
                    &&& r.apps == upserted(t.apps, category, m, windows)
                    &&& r.apps.len() == t.apps.len() ==> r.updated == t.updated + 1 && r.added
                        == t.added
                    &&& r.apps.len() != t.apps.len() ==> r.added == t.added + 1 && r.updated
                        == t.updated
                    &&& issue matches Some(i) ==> r.issues == t.issues.push(i)
                    &&& issue is None ==> r.issues == t.issues
                    &&& r.failure is None
                },
            }
        }),
{
    if let Outcome::Met(m, _) = o {
        law_upserted_is_found(t.apps, category, m, windows);
    }
}

/// Paths are scanned one after the other; what is missing is passed over, and
/// after a failure nothing more is scanned.
pub proof fn law_paths_scanned(
    t: Tally,
    apps: PathView,
    category: CategoryView,
    a: Seq<FoundPath>,
    b: Seq<FoundPath>,
    found: FoundPath,
    windows: bool,
)
    ensures
        paths_scanned(t, apps, category, a + b, windows) == paths_scanned(
            paths_scanned(t, apps, category, a, windows),
            apps,
            category,
            b,
            windows,
        ),
        a.len() == 0 ==> paths_scanned(t, apps, category, a, windows) == t,
        t.failure is Some || found.what is Missing ==> paths_scanned(
            t,
            apps,
            category,
            seq![found],
            windows,
        ) == t,
        t.failure is None && !(found.what is Missing) ==> paths_scanned(
            t,
            apps,
            category,
            seq![found],
            windows,
        ) == counted(t, category, path_outcome(apps, found), windows),
    decreases b.len(),
{
    let one = seq![found];
    assert(one.drop_last() =~= Seq::empty());
    assert(paths_scanned(t, apps, category, one.drop_last(), windows) == t);
    assert(one.last() == found);
    if b.len() == 0 {
        assert(a + b =~= a);
    } else {
        assert((a + b).drop_last() =~= a + b.drop_last());
        assert((a + b).last() == b.last());
        law_paths_scanned(t, apps, category, a, b.drop_last(), found, windows);
    }
}

/// The entries of a category's folder are scanned one after the other, up to a
/// failure.
pub proof fn law_entries_scanned(
    t: Tally,
    category_path: PathView,
    category: CategoryView,
    a: Seq<FoundPath>,
    b: Seq<FoundPath>,
    found: FoundPath,
    windows: bool,
)
    ensures
        entries_scanned(t, category_path, category, a + b, windows) == entries_scanned(
            entries_scanned(t, category_path, category, a, windows),
            category_path,
            category,
            b,
            windows,
        ),
        a.len() == 0 ==> entries_scanned(t, category_path, category, a, windows) == t,
        t.failure is Some ==> entries_scanned(t, category_path, category, seq![found], windows)
            == t,
        t.failure is None ==> entries_scanned(t, category_path, category, seq![found], windows)
            == counted(t, category, entry_outcome(category_path, found), windows),
    decreases b.len(),
{
    let one = seq![found];
    assert(one.drop_last() =~= Seq::empty());
    assert(entries_scanned(t, category_path, category, one.drop_last(), windows) == t);
    assert(one.last() == found);
    if b.len() == 0 {
        assert(a + b =~= a);
    } else {
        assert((a + b).drop_last() =~= a + b.drop_last());
        assert((a + b).last() == b.last());
        law_entries_scanned(t, category_path, category, a, b.drop_last(), found, windows);
    }
}

/// The categories are scanned one after the other, up to a failure: a category
/// whose folder lies outside the folder of the applications fails, any other has
/// its entries scanned, and a failure to read the folder comes after the entries
/// that were read.
pub proof fn law_categories_scanned(
    t: Tally,
    apps: PathView,
    a: Seq<FoundCategory>,
    b: Seq<FoundCategory>,
    found: FoundCategory,
    windows: bool,
)
    ensures
        categories_scanned(t, apps, a + b, windows) == categories_scanned(
            categories_scanned(t, apps, a, windows),
            apps,
            b,
            windows,
        ),
        a.len() == 0 ==> categories_scanned(t, apps, a, windows) == t,
        t.failure is Some ==> categories_scanned(t, apps, seq![found], windows) == t,
        t.failure is None ==> ({
            let r = categories_scanned(t, apps, seq![found], windows);
            let s = entries_scanned(t, found.path@, found.category@, found.entries@, windows);
            if !paths::lies_in(found.resolved@, apps) {
                r.failure == Some(OUTSIDE_APPS@) && r.apps == t.apps && r.added == t.added
                    && r.updated == t.updated && r.issues == t.issues
            } else {
                &&& r.apps == s.apps && r.added == s.added && r.updated == s.updated && r.issues
                    == s.issues
                &&& s.failure is Some ==> r.failure == s.failure
                &&& s.failure is None ==> match found.failure {
                    Some(e) => r.failure == Some(e@),
                    None => r.failure is None,
                }
            }
        }),
    decreases b.len(),
{
    let one = seq![found];
    assert(one.drop_last() =~= Seq::empty());
    assert(categories_scanned(t, apps, one.drop_last(), windows) == t);
    assert(one.last() == found);
    if b.len() == 0 {
        assert(a + b =~= a);
    } else {
        assert((a + b).drop_last() =~= a + b.drop_last());
        assert((a + b).last() == b.last());
        law_categories_scanned(t, apps, a, b.drop_last(), found, windows);
    }
}

/// A scan reports what it did: the applications of the catalogue after it are
/// those of the tally, and the report shows the tally's counts and remarks and
/// the catalogue, or the failure.
pub proof fn law_result_matches(
    before: AppDataView,
    after: AppDataView,
    r: Result<ScanResult, String>,
    t: Tally,
)
    requires
        result_matches(before, after, r, t),
    ensures
        after.apps == t.apps,
        after.categories == before.categories,
        after.settings == before.settings,
        after.library_path == before.library_path,
        r is Ok == (t.failure is None),
        r matches Ok(result) ==> result.added == t.added && result.updated == t.updated
            && model::views(result.issues@) == t.issues && result.data@ == after,
        r matches Err(e) ==> t.failure == Some(e@),
{
}

/// One scanned path or entry: the catalogue and the answer say what came of it.
pub proof fn law_step_matches(
    before: AppDataView,
    after: AppDataView,
    r: Result<Option<(bool, Option<ScanIssue>)>, String>,
    category: CategoryView,
    o: Outcome,
    windows: bool,
)
    requires
        step_matches(before, after, r, category, o, windows),
    ensures
        after.categories == before.categories,
        after.settings == before.settings,
        after.library_path == before.library_path,
        after.apps == counted(begun(before.apps), category, o, windows).apps,
        match o {
            Outcome::Skipped => r matches Ok(None),
            Outcome::Failed(e) => r matches Err(message) && message@ == e,
            Outcome::Met(m, issue) => r matches Ok(Some((was_updated, shown))) && was_updated == (
            after.apps.len() == before.apps.len()) && (shown is Some) == (issue is Some) && (
            shown matches Some(i) ==> issue == Some(i@)),
        },
{
    if let Outcome::Met(m, _) = o {
        law_upserted_is_found(before.apps, category, m, windows);
    }
}

} // verus!
