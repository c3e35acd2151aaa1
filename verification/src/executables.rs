//! The programs in an application's folder.

use vstd::prelude::*;
use crate::lists;
use crate::lists::list_texts;
use crate::model;
use crate::names;
use crate::names::{contains_string, normalize_name, strip_sort_prefix};
use crate::order;
use crate::order::sort;
use crate::paths;
use crate::paths::{path_to_string, FilePath, PathView};
use crate::split::contains_text;
use crate::text;
use crate::text::same_text;

verus! {

/// The extension of a program.
pub const PROGRAM_EXTENSION: &'static str = "exe";

/// How many folders deep programs are looked for.
pub const SEARCH_DEPTH: usize = 3;

/// What stands in a folder: folders with what stands in them, and all else.
pub enum FolderEntry {
    Folder(Vec<FolderEntry>),
    File(FilePath),
}

// ---------------------------------------------------------------------------
// Model
// ---------------------------------------------------------------------------

/// The path leads to a program.
pub open spec fn is_program(p: PathView) -> bool {
    paths::has_extension(p, PROGRAM_EXTENSION@)
}

/// The programs in a folder that lies `depth` folders deep, in the order in
/// which they are met.
pub open spec fn programs(entries: Seq<FolderEntry>, depth: nat) -> Seq<PathView>
    decreases SEARCH_DEPTH + 1 - depth, entries.len(),
{
    if depth > SEARCH_DEPTH || entries.len() == 0 {
        Seq::empty()
    } else {
        programs(entries.drop_last(), depth) + match entries.last() {
            FolderEntry::Folder(inner) => programs(inner@, depth + 1),
            FolderEntry::File(p) => if is_program(p@) {
                seq![p@]
            } else {
                Seq::empty()
            },
        }
    }
}

/// A name as programs are matched by it: without sort number, letters and
/// digits only.
pub open spec fn match_name(s: Seq<char>) -> Seq<char> {
    names::normalized_name(names::without_sort_prefix(s))
}

/// The program is named `expected`.
pub open spec fn named(p: PathView, expected: Seq<char>) -> bool {
    paths::file_stem_of(p) matches Some(stem) && match_name(stem) == expected
}

/// The program lies directly in the folder.
pub open spec fn directly_in(p: PathView, folder: PathView) -> bool {
    paths::parent_of(p) matches Some(parent) && paths::same_path(parent, folder)
}

/// One of the two names stands in the other.
pub open spec fn akin(stem: Seq<char>, name: Seq<char>) -> bool {
    ||| stem.len() > 0 && text::find(name, stem) is Some
    ||| name.len() > 0 && text::find(stem, name) is Some
}

pub open spec fn is_named(expected: Seq<char>) -> spec_fn(PathView) -> bool {
    |p: PathView| expected.len() > 0 && named(p, expected)
}

pub open spec fn is_akin(folder: PathView, name: Seq<char>) -> spec_fn(PathView) -> bool {
    |p: PathView|
        directly_in(p, folder) && (paths::file_stem_of(p) matches Some(stem) && akin(
            match_name(stem),
            name,
        ))
}

pub open spec fn is_directly_in(folder: PathView) -> spec_fn(PathView) -> bool {
    |p: PathView| directly_in(p, folder)
}

/// The program that starts an application: the only one; or else the first
/// that has the application's name, with its sort number and then without; or
/// else, in the application's own folder, the first with a kindred name, and
/// then the first.
pub open spec fn picked(
    app_name: Seq<char>,
    folder: PathView,
    executables: Seq<PathView>,
) -> Option<PathView> {
    let full = names::normalized_name(app_name);
    let clean = match_name(app_name);
    if executables.len() == 1 {
        Some(executables[0])
    } else if lists::first(executables, is_named(full)) is Some {
        lists::found(executables, is_named(full))
    } else if lists::first(executables, is_named(clean)) is Some {
        lists::found(executables, is_named(clean))
    } else if lists::first(executables, is_akin(folder, clean)) is Some {
        lists::found(executables, is_akin(folder, clean))
    } else {
        lists::found(executables, is_directly_in(folder))
    }
}

/// The texts of paths.
pub open spec fn path_texts(s: Seq<PathView>) -> Seq<Seq<char>> {
    Seq::new(s.len(), |i: int| paths::path_text(s[i]))
}

/// The list with `x` put in front, where it is not in it.
pub open spec fn with_front(s: Seq<Seq<char>>, x: Seq<char>) -> Seq<Seq<char>> {
    if s.contains(x) {
        s
    } else {
        seq![x] + s
    }
}

/// The programs that an application can be started by: all that were found and
/// the chosen one, in dictionary order, each once.
pub open spec fn candidates(chosen: Option<PathView>, all: Seq<PathView>) -> Seq<Seq<char>> {
    lists::listed(
        match chosen {
            Some(p) => with_front(path_texts(all), paths::path_text(p)),
            None => path_texts(all),
        },
    )
}

// ---------------------------------------------------------------------------
// Laws
// ---------------------------------------------------------------------------

/// A picked program is one of the programs, and where there is exactly one it
/// is picked.
pub proof fn law_picked(app_name: Seq<char>, folder: PathView, executables: Seq<PathView>)
    ensures
        picked(app_name, folder, executables) matches Some(p) ==> executables.contains(p),
        executables.len() == 1 ==> picked(app_name, folder, executables) == Some(executables[0]),
        executables.len() == 0 ==> picked(app_name, folder, executables) is None,
{
    let full = names::normalized_name(app_name);
    let clean = match_name(app_name);
    lists::lemma_first_from(executables, is_named(full), 0);
    lists::lemma_first_from(executables, is_named(clean), 0);
    lists::lemma_first_from(executables, is_akin(folder, clean), 0);
    lists::lemma_first_from(executables, is_directly_in(folder), 0);
    if executables.len() == 1 {
        assert(executables.contains(executables[0]));
    }
}

/// Of several programs, the one at `k` starts the application where no earlier
/// one has as good a claim and none has a better one. The claims, the best
/// first: its name is the application's; its name is the application's without
/// the sort number; it lies directly in the application's folder, and one of the
/// two names stands somewhere in the other; it lies directly in the folder.
/// Names are compared by their letters and digits, a program's without its sort
/// number, and a name without any claims nothing.
pub proof fn law_program_with_best_claim(
    app_name: Seq<char>,
    folder: PathView,
    programs: Seq<PathView>,
    k: int,
)
    requires
        programs.len() > 1,
        0 <= k < programs.len(),
    ensures
        ({
            let full = names::normalized_name(app_name);
            let clean = names::normalized_name(names::without_sort_prefix(app_name));
            let has_name = |p: PathView, name: Seq<char>|
                paths::file_stem_of(p) matches Some(stem) && name.len() > 0
                    && names::normalized_name(names::without_sort_prefix(stem)) == name;
            let inside = |p: PathView|
                p.parts.len() == folder.parts.len() + 1 && p.parts.last().kind
                    != paths::PartKind::Prefix && p.parts.last().kind != paths::PartKind::Root
                    && forall|i: int|
                    0 <= i < folder.parts.len() ==> (#[trigger] p.parts[i]).kind
                        == folder.parts[i].kind && p.parts[i].name == folder.parts[i].name;
            let stands_in = |part: Seq<char>, whole: Seq<char>|
                part.len() > 0 && exists|at: int|
                    0 <= at && at + part.len() <= whole.len() && #[trigger] whole.subrange(
                        at,
                        at + part.len(),
                    ) == part;
            let kindred = |p: PathView|
                inside(p) && (paths::file_stem_of(p) matches Some(stem) && (stands_in(
                    names::normalized_name(names::without_sort_prefix(stem)),
                    clean,
                ) || stands_in(
                    clean,
                    names::normalized_name(names::without_sort_prefix(stem)),
                )));
            let nowhere = |claim: spec_fn(PathView) -> bool|
                forall|i: int| 0 <= i < programs.len() ==> !claim(#[trigger] programs[i]);
            let first_at_k = |claim: spec_fn(PathView) -> bool|
                claim(programs[k]) && forall|i: int| 0 <= i < k ==> !claim(#[trigger] programs[i]);
            let result = picked(app_name, folder, programs);
            &&& first_at_k(|p: PathView| has_name(p, full)) ==> result == Some(programs[k])
            &&& nowhere(|p: PathView| has_name(p, full)) && first_at_k(
                |p: PathView| has_name(p, clean),
            ) ==> result == Some(programs[k])
            &&& nowhere(|p: PathView| has_name(p, full)) && nowhere(
                |p: PathView| has_name(p, clean),
            ) && first_at_k(kindred) ==> result == Some(programs[k])
            &&& nowhere(|p: PathView| has_name(p, full)) && nowhere(
                |p: PathView| has_name(p, clean),
            ) && nowhere(kindred) && first_at_k(inside) ==> result == Some(programs[k])
            &&& nowhere(|p: PathView| has_name(p, full)) && nowhere(
                |p: PathView| has_name(p, clean),
            ) && nowhere(inside) ==> result is None
        }),
{
    let full = names::normalized_name(app_name);
    let clean = names::normalized_name(names::without_sort_prefix(app_name));
    lists::lemma_first_from(programs, is_named(full), 0);
    lists::lemma_first_from(programs, is_named(clean), 0);
    lists::lemma_first_from(programs, is_akin(folder, clean), 0);
    lists::lemma_first_from(programs, is_directly_in(folder), 0);
    let has_name = |p: PathView, name: Seq<char>|
        paths::file_stem_of(p) matches Some(stem) && name.len() > 0 && names::normalized_name(
            names::without_sort_prefix(stem),
        ) == name;
    let inside = |p: PathView|
        p.parts.len() == folder.parts.len() + 1 && p.parts.last().kind != paths::PartKind::Prefix
            && p.parts.last().kind != paths::PartKind::Root && forall|i: int|
            0 <= i < folder.parts.len() ==> (#[trigger] p.parts[i]).kind == folder.parts[i].kind
                && p.parts[i].name == folder.parts[i].name;
    let stands_in = |part: Seq<char>, whole: Seq<char>|
        part.len() > 0 && exists|at: int|
            0 <= at && at + part.len() <= whole.len() && #[trigger] whole.subrange(
                at,
                at + part.len(),
            ) == part;
    let kindred = |p: PathView|
        inside(p) && (paths::file_stem_of(p) matches Some(stem) && (stands_in(
            names::normalized_name(names::without_sort_prefix(stem)),
            clean,
        ) || stands_in(clean, names::normalized_name(names::without_sort_prefix(stem)))));
    assert forall|i: int| 0 <= i < programs.len() implies {
        let p = #[trigger] programs[i];
        &&& has_name(p, full) == (is_named(full))(p)
        &&& has_name(p, clean) == (is_named(clean))(p)
        &&& inside(p) == (is_directly_in(folder))(p)
        &&& kindred(p) == (is_akin(folder, clean))(p)
    } by {
        let p = programs[i];
        lemma_directly_in(p, folder);
        if let Some(stem) = paths::file_stem_of(p) {
            lemma_found_somewhere(clean, match_name(stem));
            lemma_found_somewhere(match_name(stem), clean);
        }
    }
}

/// A folder directly holds the paths that have one part more.
proof fn lemma_directly_in(p: PathView, folder: PathView)
    ensures
        directly_in(p, folder) == (p.parts.len() == folder.parts.len() + 1 && p.parts.last().kind
            != paths::PartKind::Prefix && p.parts.last().kind != paths::PartKind::Root && forall|
            i: int,
        |
            0 <= i < folder.parts.len() ==> (#[trigger] p.parts[i]).kind == folder.parts[i].kind
                && p.parts[i].name == folder.parts[i].name),
{
    if p.parts.len() == folder.parts.len() + 1 {
        let q = p.parts.drop_last();
        assert forall|i: int| 0 <= i < folder.parts.len() implies q[i] == #[trigger] p.parts[i] by {
        }
        if directly_in(p, folder) {
            assert forall|i: int| 0 <= i < folder.parts.len() implies (#[trigger] p.parts[i]).kind
                == folder.parts[i].kind && p.parts[i].name == folder.parts[i].name by {
                assert(paths::same_part(q[i], folder.parts[i]));
            }
        } else if forall|i: int|
            0 <= i < folder.parts.len() ==> (#[trigger] p.parts[i]).kind == folder.parts[i].kind
                && p.parts[i].name == folder.parts[i].name {
            if let Some(parent) = paths::parent_of(p) {
                assert forall|i: int| 0 <= i < folder.parts.len() implies paths::same_part(
                    #[trigger] parent.parts[i],
                    folder.parts[i],
                ) by {
                    assert(parent.parts[i] == p.parts[i]);
                }
            }
        }
    }
}

/// A text is found exactly where it stands somewhere.
proof fn lemma_found_somewhere(whole: Seq<char>, part: Seq<char>)
    ensures
        (text::find(whole, part) is Some) == (exists|at: int|
            0 <= at && at + part.len() <= whole.len() && #[trigger] whole.subrange(
                at,
                at + part.len(),
            ) == part),
{
    text::lemma_find_from(whole, part, 0);
    match text::find(whole, part) {
        Some(at) => {
            assert(text::matches_at(whole, part, at));
            assert(whole.subrange(at, at + part.len()) == part);
        },
        None => {
            assert forall|at: int| 0 <= at && at + part.len() <= whole.len() implies (
            #[trigger] whole.subrange(at, at + part.len())) != part by {
                assert(!text::matches_at(whole, part, at));
            }
        },
    }
}

/// The chosen program is among the candidates, and each candidate is a program
/// that was found or the chosen one.
pub proof fn law_candidates(chosen: Option<PathView>, all: Seq<PathView>)
    ensures
        chosen matches Some(p) ==> candidates(chosen, all).contains(paths::path_text(p)),
        forall|x: Seq<char>| #[trigger]
            candidates(chosen, all).contains(x) ==> path_texts(all).contains(x) || (
            chosen matches Some(p) && x == paths::path_text(p)),
        forall|x: Seq<char>|
            path_texts(all).contains(x) ==> #[trigger] candidates(chosen, all).contains(x),
        lists::distinct(candidates(chosen, all)),
{
    let values = match chosen {
        Some(p) => with_front(path_texts(all), paths::path_text(p)),
        None => path_texts(all),
    };
    lists::law_listed(values);
    if let Some(p) = chosen {
        let x = paths::path_text(p);
        if !path_texts(all).contains(x) {
            assert(values[0] == x);
        }
        assert(values.contains(x));
        assert forall|y: Seq<char>| path_texts(all).contains(y) implies values.contains(y) by {
            let k = choose|k: int| 0 <= k < path_texts(all).len() && path_texts(all)[k] == y;
            if !path_texts(all).contains(x) {
                assert(values[k + 1] == y);
            }
        }
    }
}

// ---------------------------------------------------------------------------
// Code
// ---------------------------------------------------------------------------

/// Whether the path leads to a program.
pub fn is_executable_file(path: &FilePath) -> (r: bool)
    ensures
        r == is_program(path@),
{
    path.extension_is(PROGRAM_EXTENSION)
}

/// Adds the programs in a folder that lies `depth` folders deep.
fn collect_executables(entries: &Vec<FolderEntry>, depth: usize, out: &mut Vec<FilePath>)
    requires
        depth <= SEARCH_DEPTH + 1,
    ensures
        model::views(final(out)@) == model::views(old(out)@) + programs(entries@, depth as nat),
    decreases SEARCH_DEPTH + 1 - depth,
{
    let ghost start = model::views(out@);
    if depth > SEARCH_DEPTH {
        assert(model::views(out@) =~= start + programs(entries@, depth as nat));
        return;
    }
    let mut i: usize = 0;
    assert(entries@.take(0) =~= Seq::empty());
    assert(model::views(out@) =~= start + programs(entries@.take(0), depth as nat));
    while i < entries.len()
        invariant
            i <= entries@.len(),
            depth <= SEARCH_DEPTH,
            model::views(out@) == start + programs(entries@.take(i as int), depth as nat),
        decreases entries@.len() - i,
    {
        let ghost before = model::views(out@);
        let ghost next = entries@.take(i + 1);
        assert(next.drop_last() =~= entries@.take(i as int));
        assert(next.last() == entries@[i as int]);
        match &entries[i] {
            FolderEntry::Folder(inner) => {
                collect_executables(inner, depth + 1, out);
                assert(model::views(out@) =~= start + programs(next, depth as nat));
            },
            FolderEntry::File(path) => {
                if is_executable_file(path) {
                    let ghost old_out = out@;
                    out.push(path.clone());
                    assert(model::views(out@) =~= model::views(old_out).push(path@));
                    assert(model::views(out@) =~= start + programs(next, depth as nat));
                } else {
                    assert(model::views(out@) =~= start + programs(next, depth as nat));
                }
            },
        }
        i = i + 1;
    }
    assert(entries@.take(i as int) =~= entries@);
}

/// Whether the folders that lie `depth` folders deep are searched.
pub fn searches_folder(depth: usize) -> (r: bool)
    ensures
        r == (depth <= SEARCH_DEPTH),
{
    depth <= SEARCH_DEPTH
}

/// The programs in an application's folder, in the order of their paths.
pub fn find_executables(entries: &Vec<FolderEntry>) -> (r: Vec<FilePath>)
    ensures
        model::views(r@) == order::sorted::<FilePath>(programs(entries@, 0)),
{
    let mut out: Vec<FilePath> = Vec::new();
    assert(model::views(out@) =~= Seq::<PathView>::empty());
    collect_executables(entries, 0, &mut out);
    assert(model::views(out@) =~= programs(entries@, 0));
    sort(out)
}

/// Whether the program is named `expected_name`.
pub fn executable_stem_matches(path: &FilePath, expected_name: &str) -> (r: bool)
    ensures
        r == named(path@, expected_name@),
{
    match path.file_stem() {
        Some(stem) => {
            let clean = strip_sort_prefix(stem.as_str());
            let normal = normalize_name(clean.as_str());
            same_text(normal.as_str(), expected_name)
        },
        None => false,
    }
}

/// The first program with the given name.
fn find_named(executables: &Vec<FilePath>, expected: &str) -> (r: Option<usize>)
    ensures
        match r {
            Some(k) => lists::first(model::views(executables@), is_named(expected@)) == Some(
                k as int,
            ) && k < executables@.len(),
            None => lists::first(model::views(executables@), is_named(expected@)) is None,
        },
{
    let ghost all = model::views(executables@);
    let ghost p = is_named(expected@);
    if !expected.is_empty() {
        let mut i: usize = 0;
        while i < executables.len()
            invariant
                i <= executables@.len(),
                all == model::views(executables@),
                p == is_named(expected@),
                expected@.len() > 0,
                forall|j: int| 0 <= j < i ==> !p(#[trigger] all[j]),
            decreases executables@.len() - i,
        {
            if executable_stem_matches(&executables[i], expected) {
                assert(p(all[i as int]));
                proof {
                    lists::lemma_first_is(all, p, i as int);
                }
                return Some(i);
            }
            assert(!p(all[i as int]));
            i = i + 1;
        }
    }
    proof {
        lists::lemma_first_none(all, p);
    }
    None
}

fn lies_directly_in(path: &FilePath, folder: &FilePath) -> (r: bool)
    ensures
        r == directly_in(path@, folder@),
{
    match path.parent() {
        Some(parent) => parent.same(folder),
        None => false,
    }
}

fn has_kindred_name(path: &FilePath, name: &str) -> (r: bool)
    ensures
        r == (paths::file_stem_of(path@) matches Some(stem) && akin(match_name(stem), name@)),
{
    match path.file_stem() {
        Some(stem) => {
            let clean = strip_sort_prefix(stem.as_str());
            let normal = normalize_name(clean.as_str());
            (!normal.as_str().is_empty() && contains_text(name, normal.as_str())) || (
            !name.is_empty() && contains_text(normal.as_str(), name))
        },
        None => false,
    }
}

/// The program that starts an application.
pub fn pick_executable(
    app_name: &str,
    app_folder: &FilePath,
    executables: &Vec<FilePath>,
) -> (r: Option<FilePath>)
    ensures
        match r {
            Some(p) => picked(app_name@, app_folder@, model::views(executables@)) == Some(p@),
            None => picked(app_name@, app_folder@, model::views(executables@)) is None,
        },
{
    let ghost all = model::views(executables@);
    if executables.len() == 1 {
        assert(all[0] == executables@[0]@);
        return Some(executables[0].clone());
    }
    let full = normalize_name(app_name);
    let stripped = strip_sort_prefix(app_name);
    let clean = normalize_name(stripped.as_str());
    match find_named(executables, full.as_str()) {
        Some(k) => {
            return Some(executables[k].clone());
        },
        None => {},
    }
    match find_named(executables, clean.as_str()) {
        Some(k) => {
            return Some(executables[k].clone());
        },
        None => {},
    }
    let ghost p = is_akin(app_folder@, clean@);
    let mut i: usize = 0;
    while i < executables.len()
        invariant
            i <= executables@.len(),
            all == model::views(executables@),
            all.len() != 1,
            full@ == names::normalized_name(app_name@),
            clean@ == match_name(app_name@),
            lists::first(all, is_named(full@)) is None,
            lists::first(all, is_named(clean@)) is None,
            p == is_akin(app_folder@, clean@),
            forall|j: int| 0 <= j < i ==> !p(#[trigger] all[j]),
        decreases executables@.len() - i,
    {
        if lies_directly_in(&executables[i], app_folder) && has_kindred_name(
            &executables[i],
            clean.as_str(),
        ) {
            assert(p(all[i as int]));
            proof {
                lists::lemma_first_is(all, p, i as int);
            }
            return Some(executables[i].clone());
        }
        assert(!p(all[i as int]));
        i = i + 1;
    }
    proof {
        lists::lemma_first_none(all, p);
    }
    let ghost q = is_directly_in(app_folder@);
    let mut k: usize = 0;
    while k < executables.len()
        invariant
            k <= executables@.len(),
            all == model::views(executables@),
            all.len() != 1,
            lists::first(all, is_named(names::normalized_name(app_name@))) is None,
            lists::first(all, is_named(match_name(app_name@))) is None,
            lists::first(all, is_akin(app_folder@, match_name(app_name@))) is None,
            q == is_directly_in(app_folder@),
            forall|j: int| 0 <= j < k ==> !q(#[trigger] all[j]),
        decreases executables@.len() - k,
    {
        if lies_directly_in(&executables[k], app_folder) {
            assert(q(all[k as int]));
            proof {
                lists::lemma_first_is(all, q, k as int);
            }
            return Some(executables[k].clone());
        }
        assert(!q(all[k as int]));
        k = k + 1;
    }
    proof {
        lists::lemma_first_none(all, q);
    }
    None
}

/// The texts of paths.
pub fn paths_to_strings(v: &Vec<FilePath>) -> (r: Vec<String>)
    ensures
        text::texts(r@) == path_texts(model::views(v@)),
{
    let mut out: Vec<String> = Vec::new();
    let mut i: usize = 0;
    while i < v.len()
        invariant
            i <= v@.len(),
            text::texts(out@) == path_texts(model::views(v@)).take(i as int),
        decreases v@.len() - i,
    {
        let ghost before = out@;
        let s = path_to_string(&v[i]);
        out.push(s);
        assert(text::texts(out@) =~= text::texts(before).push(s@));
        assert(path_texts(model::views(v@)).take(i + 1) =~= path_texts(model::views(v@)).take(
            i as int,
        ).push(s@));
        i = i + 1;
    }
    assert(path_texts(model::views(v@)).take(i as int) =~= path_texts(model::views(v@)));
    out
}

/// The views of an optional path.
pub open spec fn opt_path(p: Option<FilePath>) -> Option<PathView> {
    match p {
        Some(path) => Some(path@),
        None => None,
    }
}

/// The programs that an application can be started by.
pub fn normalize_executable_candidates(
    executable_path: &Option<FilePath>,
    executable_candidates: &Vec<FilePath>,
) -> (r: Vec<String>)
    ensures
        text::texts(r@) == candidates(
            opt_path(*executable_path),
            model::views(executable_candidates@),
        ),
{
    let mut values = paths_to_strings(executable_candidates);
    match executable_path {
        Some(path) => {
            let s = path_to_string(path);
            if !contains_string(&values, s.as_str()) {
                let ghost before = values@;
                values.insert(0, s);
                assert(text::texts(values@) =~= seq![s@] + text::texts(before));
            }
        },
        None => {},
    }
    list_texts(values)
}

/// A program is a file whose extension is `exe`, in any case.
pub proof fn law_program_by_extension(p: PathView, stem: Seq<char>, extension: Seq<char>)
    requires
        !extension.contains('.'),
        stem.len() > 0,
        !names::is_dots(stem + seq!['.'] + extension),
    ensures
        is_program(paths::joined(p, stem + seq!['.'] + extension)) == (text::lower_ascii(extension)
            == "exe"@),
        !is_program(paths::joined(p, extension)),
{
    paths::law_stem_of_file(p, stem, extension, "exe"@);
}

/// All programs of a folder are found, in the order of its entries, and so are
/// those of the folders in it, down to the third level below it and no further.
pub proof fn law_programs(a: Seq<FolderEntry>, b: Seq<FolderEntry>, entry: FolderEntry, depth: nat)
    ensures
        programs(a + b, depth) == programs(a, depth) + programs(b, depth),
        depth <= 3 ==> match entry {
            FolderEntry::File(p) => programs(seq![entry], depth) == if paths::has_extension(
                p@,
                "exe"@,
            ) {
                seq![p@]
            } else {
                Seq::empty()
            },
            FolderEntry::Folder(inner) => programs(seq![entry], depth) == programs(
                inner@,
                depth + 1,
            ),
        },
        a.len() == 0 ==> programs(a, depth).len() == 0,
        depth > 3 ==> programs(a, depth).len() == 0,
    decreases b.len(),
{
    let one = seq![entry];
    assert(one.drop_last() =~= Seq::empty());
    assert(programs(one.drop_last(), depth) =~= Seq::empty());
    assert(one.last() == entry);
    if depth <= 3 {
        match entry {
            FolderEntry::File(p) => {
                assert(programs(one, depth) =~= if paths::has_extension(p@, "exe"@) {
                    seq![p@]
                } else {
                    Seq::empty()
                });
            },
            FolderEntry::Folder(inner) => {
                assert(programs(one, depth) =~= programs(inner@, depth + 1));
            },
        }
    }
    if b.len() == 0 {
        assert(a + b =~= a);
        assert(programs(a + b, depth) =~= programs(a, depth) + programs(b, depth));
    } else {
        assert((a + b).drop_last() =~= a + b.drop_last());
        assert((a + b).last() == b.last());
        law_programs(a, b.drop_last(), entry, depth);
        assert(programs(a + b, depth) =~= programs(a, depth) + programs(b, depth));
    }
}

/// The candidates stand in dictionary order.
pub proof fn law_candidates_in_order(chosen: Option<PathView>, all: Seq<PathView>, i: int, j: int)
    requires
        0 <= i < j < candidates(chosen, all).len(),
    ensures
        text::text_less(candidates(chosen, all)[i], candidates(chosen, all)[j]),
{
    lists::law_listed(
        match chosen {
            Some(p) => with_front(path_texts(all), paths::path_text(p)),
            None => path_texts(all),
        },
    );
}

/// The program of an application is compared without the sorting number of its
/// name and by ASCII letters and digits alone.
pub proof fn law_program_named(p: PathView, stem: Seq<char>, extension: Seq<char>, name: Seq<char>)
    requires
        !extension.contains('.'),
        stem.len() > 0,
        !names::is_dots(stem + seq!['.'] + extension),
    ensures
        named(paths::joined(p, stem + seq!['.'] + extension), name) == (names::normalized_name(
            names::without_sort_prefix(stem),
        ) == name),
{
    paths::law_stem_of_file(p, stem, extension, Seq::empty());
}

} // verus!
