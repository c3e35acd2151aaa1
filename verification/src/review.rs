//! Packages that wait for approval.

use vstd::prelude::*;
use crate::fnv;
use crate::fnv::make_id;
use crate::json;
use crate::json::{count_field, pretty_object, text_field, texts_field, JsonField};
use crate::layout;
use crate::layout::is_review_metadata_file;
use crate::lists;
use crate::lists::{position, Wanted};
use crate::model;
use crate::model::{copy_texts, ReviewItem, ReviewItemView};
use crate::names;
use crate::names::{contains_string, sanitize_file_name};
use crate::order;
use crate::order::{sort, Ranked};
use crate::paths;
use crate::paths::{path_to_string, FilePath, PathView};
use crate::scan::{FoundPath, Observed};
use crate::text;
use crate::text::same_text;

verus! {

/// Shown where a pending package is not known.
pub const NO_REVIEW: &'static str = "未审核软件不存在";

/// Shown where the file of a pending package is gone.
pub const REVIEW_FILE_MISSING: &'static str = "未审核软件文件不存在";

/// Shown where the category has a file of that name already.
pub const TARGET_TAKEN: &'static str = "目标分类中已存在同名文件，请先处理后再审核";

/// Shown where a package held no folder.
pub const NOTHING_EXTRACTED: &'static str = "上传包没有解压出可扫描的软件文件夹";

/// Shown where no application was found in a package.
pub const NOTHING_FOUND: &'static str = "上传包已解压，但没有扫描到可加入未审核软件的软件目录";

/// The name of a package whose own name cannot be read.
pub const UNNAMED: &'static str = "未命名软件";

/// The category of a package that names none.
pub const CATEGORY_UNKNOWN: &'static str = "来自客户端";

pub const CATEGORY_KEY: &'static str = "categoryName";

pub const TIME_KEY: &'static str = "uploadedAt";

pub const REGISTERED_KEY: &'static str = "registeredInReviewCategory";

pub const PATHS_KEY: &'static str = "extractedPaths";

/// An entry of the folder of pending packages, with the contents of its
/// metadata file where it has one.
#[derive(Debug)]
pub struct FoundReview {
    pub path: FilePath,
    pub is_file: bool,
    pub size: u64,
    pub metadata: Option<String>,
}

// ---------------------------------------------------------------------------
// Model
// ---------------------------------------------------------------------------

/// The entry is a pending package.
pub open spec fn is_pending(found: FoundReview) -> bool {
    found.is_file && !layout::is_meta(found.path@)
}

/// What the metadata file tells of a package.
#[verifier::ext_equal]
pub ghost struct MetaView {
    pub category_name: Option<Seq<char>>,
    pub uploaded_at: Option<u64>,
    pub extracted_paths: Seq<Seq<char>>,
}

/// What a metadata file tells.
pub open spec fn meta_of(metadata: Option<String>) -> MetaView {
    match metadata {
        Some(content) => {
            let bytes = vstd::utf8::encode_utf8(content@);
            MetaView {
                category_name: json::text_at(bytes, CATEGORY_KEY@),
                uploaded_at: json::count_at(bytes, TIME_KEY@),
                extracted_paths: json::texts_at(bytes, PATHS_KEY@),
            }
        },
        None => MetaView {
            category_name: None,
            uploaded_at: None,
            extracted_paths: Seq::empty(),
        },
    }
}

/// A pending package with what its metadata file tells.
pub open spec fn item_of(path: PathView, size: u64, meta: MetaView) -> ReviewItemView {
    let file_name = match paths::file_name_of(path) {
        Some(name) => name,
        None => UNNAMED@,
    };
    ReviewItemView {
        id: fnv::id_of(paths::path_text(path)),
        name: match paths::file_stem_of(path) {
            Some(stem) => stem,
            None => file_name,
        },
        file_name,
        category_name: match meta.category_name {
            Some(name) => name,
            None => CATEGORY_UNKNOWN@,
        },
        size,
        uploaded_at: match meta.uploaded_at {
            Some(time) => time,
            None => 0,
        },
        path: paths::path_text(path),
        extracted_paths: meta.extracted_paths,
    }
}

/// The pending packages among the entries, in the order in which they are met.
pub open spec fn pending_items(found: Seq<FoundReview>) -> Seq<ReviewItemView>
    decreases found.len(),
{
    if found.len() == 0 {
        Seq::empty()
    } else {
        let rest = pending_items(found.drop_last());
        let last = found.last();
        if is_pending(last) {
            rest.push(item_of(last.path@, last.size, meta_of(last.metadata)))
        } else {
            rest
        }
    }
}

impl Ranked for ReviewItem {
    open spec fn ranks_below(a: ReviewItemView, b: ReviewItemView) -> bool {
        a.uploaded_at > b.uploaded_at
    }

    proof fn lemma_order(a: ReviewItemView, b: ReviewItemView, c: ReviewItemView) {
    }

    fn below(&self, other: &Self) -> (r: bool) {
        self.uploaded_at > other.uploaded_at
    }
}

// ---------------------------------------------------------------------------
// Listing
// ---------------------------------------------------------------------------

/// What a metadata file tells.
#[derive(Debug)]
pub struct ReviewMeta {
    pub category_name: Option<String>,
    pub uploaded_at: Option<u64>,
    pub extracted_paths: Vec<String>,
}

impl View for ReviewMeta {
    type V = MetaView;

    open spec fn view(&self) -> MetaView {
        MetaView {
            category_name: text::opt_text(self.category_name),
            uploaded_at: self.uploaded_at,
            extracted_paths: text::texts(self.extracted_paths@),
        }
    }
}

/// What a metadata file tells.
pub fn read_meta(metadata: &Option<String>) -> (r: ReviewMeta)
    ensures
        r@ == meta_of(*metadata),
{
    match metadata {
        Some(content) => {
            let bytes = content.as_str().as_bytes();
            ReviewMeta {
                category_name: text_field(bytes, CATEGORY_KEY),
                uploaded_at: count_field(bytes, TIME_KEY),
                extracted_paths: texts_field(bytes, PATHS_KEY),
            }
        },
        None => {
            let r = ReviewMeta {
                category_name: None,
                uploaded_at: None,
                extracted_paths: Vec::new(),
            };
            assert(text::texts(r.extracted_paths@) =~= Seq::<Seq<char>>::empty());
            r
        },
    }
}

/// A pending package with what its metadata file tells.
pub fn make_review_item(path: &FilePath, size: u64, meta: ReviewMeta) -> (r: ReviewItem)
    ensures
        r@ == item_of(path@, size, meta@),
{
    let file_name = match path.file_name() {
        Some(name) => name,
        None => UNNAMED.to_string(),
    };
    let name = match path.file_stem() {
        Some(stem) => stem,
        None => file_name.clone(),
    };
    let shown = path_to_string(path);
    let category_name = match meta.category_name {
        Some(name) => name,
        None => CATEGORY_UNKNOWN.to_string(),
    };
    let uploaded_at: u64 = match meta.uploaded_at {
        Some(time) => time,
        None => 0,
    };
    ReviewItem {
        id: make_id(shown.as_str()),
        name,
        file_name,
        category_name,
        size,
        uploaded_at,
        path: shown,
        extracted_paths: meta.extracted_paths,
    }
}

/// The pending packages, the last that came in first.
pub fn list_review_items(found: &Vec<FoundReview>) -> (r: Vec<ReviewItem>)
    ensures
        model::views(r@) == order::sorted::<ReviewItem>(pending_items(found@)),
        forall|k: int|
            0 <= k < found@.len() && (#[trigger] found@[k]).is_file && !(paths::file_name_of(
                found@[k].path@,
            ) matches Some(name) && ".meta.json"@.is_suffix_of(name)) ==> exists|m: int|
                0 <= m < r@.len() && tells_of(#[trigger] r@[m]@, found@[k]),
{
    let mut items: Vec<ReviewItem> = Vec::new();
    let mut i: usize = 0;
    assert(found@.take(0) =~= Seq::empty());
    assert(model::views(items@) =~= Seq::<ReviewItemView>::empty());
    while i < found.len()
        invariant
            i <= found@.len(),
            model::views(items@) == pending_items(found@.take(i as int)),
        decreases found@.len() - i,
    {
        let ghost before = items@;
        assert(found@.take(i + 1).drop_last() =~= found@.take(i as int));
        assert(found@.take(i + 1).last() == found@[i as int]);
        let entry = &found[i];
        if entry.is_file && !is_review_metadata_file(&entry.path) {
            let meta = read_meta(&entry.metadata);
            let item = make_review_item(&entry.path, entry.size, meta);
            items.push(item);
            assert(model::views(items@) =~= model::views(before).push(item@));
        }
        i = i + 1;
    }
    assert(found@.take(i as int) =~= found@);
    let r = sort(items);
    proof {
        let listed = order::sorted::<ReviewItem>(pending_items(found@));
        assert forall|k: int|
            0 <= k < found@.len() && (#[trigger] found@[k]).is_file && !(paths::file_name_of(
                found@[k].path@,
            ) matches Some(name) && ".meta.json"@.is_suffix_of(name)) implies exists|m: int|
            0 <= m < r@.len() && tells_of(#[trigger] r@[m]@, found@[k]) by {
            law_listed_reviews_tell(found@, k);
            let m = choose|m: int| 0 <= m < listed.len() && tells_of(#[trigger] listed[m], found@[k]);
            assert(listed[m] == r@[m]@);
        }
    }
    r
}

pub open spec fn review_has_id(id: Seq<char>) -> spec_fn(ReviewItemView) -> bool {
    |item: ReviewItemView| item.id == id
}

/// The pending package with an id.
struct ReviewId<'a> {
    id: &'a str,
}

impl<'a> Wanted<ReviewItem> for ReviewId<'a> {
    closed spec fn accepts(&self) -> spec_fn(ReviewItemView) -> bool {
        review_has_id(self.id@)
    }

    fn is_met_by(&self, value: &ReviewItem) -> (r: bool) {
        same_text(value.id.as_str(), self.id)
    }
}

/// The pending package with the id.
pub fn find_review(items: &Vec<ReviewItem>, review_id: &str) -> (r: Result<ReviewItem, String>)
    ensures
        match lists::found(model::views(items@), review_has_id(review_id@)) {
            Some(item) => r matches Ok(found) && found@ == item,
            None => r matches Err(e) && e@ == NO_REVIEW@,
        },
{
    match position(items, &ReviewId { id: review_id }) {
        Some(k) => Ok(items[k].clone()),
        None => Err(NO_REVIEW.to_string()),
    }
}

// ---------------------------------------------------------------------------
// Approving
// ---------------------------------------------------------------------------

/// Where an approved package goes.
pub fn approval_target(category_path: &FilePath, item: &ReviewItem) -> (r: FilePath)
    ensures
        r@ == paths::joined(category_path@, names::sanitized(item@.file_name)),
{
    let name = sanitize_file_name(item.file_name.as_str());
    category_path.join(name.as_str())
}

/// Refuses to approve a package that is gone or whose place is taken.
pub fn check_approval(source_is_there: bool, target_is_taken: bool) -> (r: Result<(), String>)
    ensures
        match r {
            Ok(_) => source_is_there && !target_is_taken,
            Err(e) => if !source_is_there {
                e@ == REVIEW_FILE_MISSING@
            } else {
                target_is_taken && e@ == TARGET_TAKEN@
            },
        },
{
    if !source_is_there {
        return Err(REVIEW_FILE_MISSING.to_string());
    }
    if target_is_taken {
        return Err(TARGET_TAKEN.to_string());
    }
    Ok(())
}

// ---------------------------------------------------------------------------
// Taking packages in
// ---------------------------------------------------------------------------

/// What the metadata file of a package is to tell.
pub open spec fn metadata_fields(
    category_name: Seq<char>,
    now: u64,
    extracted: Seq<Seq<char>>,
) -> Seq<(Seq<char>, json::FieldView)> {
    seq![
        (CATEGORY_KEY@, json::FieldView::Text(category_name)),
        (TIME_KEY@, json::FieldView::Count(now)),
        (REGISTERED_KEY@, json::FieldView::Flag(true)),
        (PATHS_KEY@, json::FieldView::Texts(extracted)),
    ]
}

/// The contents of the metadata file of a package; what it tells is found
/// again when it is read.
pub fn review_metadata(category_name: &str, now: u64, extracted: &Vec<String>) -> (r: String)
    ensures
        r@ == json::pretty_object_text(
            metadata_fields(category_name@, now, text::texts(extracted@)),
        ),
        meta_of(Some(r)) == (MetaView {
            category_name: Some(category_name@),
            uploaded_at: Some(now),
            extracted_paths: text::texts(extracted@),
        }),
        meta_tells(r@, category_name@, now, text::texts(extracted@)),
        json::flag_at(vstd::utf8::encode_utf8(r@), "registeredInReviewCategory"@) == Some(true),
{
    let mut fields: Vec<(String, JsonField)> = Vec::new();
    fields.push((CATEGORY_KEY.to_string(), JsonField::Text(category_name.to_string())));
    fields.push((TIME_KEY.to_string(), JsonField::Count(now)));
    fields.push((REGISTERED_KEY.to_string(), JsonField::Flag(true)));
    fields.push((PATHS_KEY.to_string(), JsonField::Texts(copy_texts(extracted))));
    let ghost views = json::field_views(fields@);
    assert(views =~= metadata_fields(category_name@, now, text::texts(extracted@)));
    proof {
        reveal_strlit("categoryName");
        reveal_strlit("uploadedAt");
        reveal_strlit("registeredInReviewCategory");
        reveal_strlit("extractedPaths");
        let ks = json::keys(views);
        assert(ks[0] == CATEGORY_KEY@ && ks[1] == TIME_KEY@ && ks[2] == REGISTERED_KEY@ && ks[3]
            == PATHS_KEY@);
        assert(ks[0].len() == 12 && ks[1].len() == 10 && ks[2].len() == 26 && ks[3].len() == 14);
        assert(lists::distinct(ks));
        json::lemma_only_texts_of_texts(text::texts(extracted@));
    }
    let r = pretty_object(fields);
    assert(views[0].0 == CATEGORY_KEY@);
    assert(views[1].0 == TIME_KEY@);
    assert(views[2].0 == REGISTERED_KEY@);
    assert(views[3].0 == PATHS_KEY@);
    r
}

/// The path leads to a folder.
pub open spec fn is_folder(found: FoundPath) -> bool {
    found.what is Folder
}

/// The folders among the paths.
pub open spec fn folders_of(found: Seq<FoundPath>) -> Seq<Seq<char>>
    decreases found.len(),
{
    if found.len() == 0 {
        Seq::empty()
    } else {
        let rest = folders_of(found.drop_last());
        if is_folder(found.last()) {
            rest.push(paths::path_text(found.last().path@))
        } else {
            rest
        }
    }
}

/// The folders that came out of a package.
pub fn extracted_folders(found: &Vec<FoundPath>) -> (r: Vec<String>)
    ensures
        text::texts(r@) == folders_of(found@),
{
    let mut out: Vec<String> = Vec::new();
    let mut i: usize = 0;
    assert(found@.take(0) =~= Seq::empty());
    assert(text::texts(out@) =~= Seq::empty());
    while i < found.len()
        invariant
            i <= found@.len(),
            text::texts(out@) == folders_of(found@.take(i as int)),
        decreases found@.len() - i,
    {
        let ghost before = out@;
        assert(found@.take(i + 1).drop_last() =~= found@.take(i as int));
        assert(found@.take(i + 1).last() == found@[i as int]);
        match &found[i].what {
            Observed::Folder(_) => {
                let shown = path_to_string(&found[i].path);
                out.push(shown);
                assert(text::texts(out@) =~= text::texts(before).push(shown@));
            },
            _ => {},
        }
        i = i + 1;
    }
    assert(found@.take(i as int) =~= found@);
    out
}

/// Refuses a package in which there was no folder.
pub fn check_extracted(extracted: &Vec<String>) -> (r: Result<(), String>)
    ensures
        match r {
            Ok(_) => extracted@.len() > 0,
            Err(e) => extracted@.len() == 0 && e@ == NOTHING_EXTRACTED@,
        },
{
    if extracted.len() == 0 {
        return Err(NOTHING_EXTRACTED.to_string());
    }
    Ok(())
}

/// Refuses a package in which no application was found.
pub fn check_found(added: usize, updated: usize) -> (r: Result<(), String>)
    ensures
        match r {
            Ok(_) => added > 0 || updated > 0,
            Err(e) => added == 0 && updated == 0 && e@ == NOTHING_FOUND@,
        },
{
    if added == 0 && updated == 0 {
        return Err(NOTHING_FOUND.to_string());
    }
    Ok(())
}

/// The path was not there before.
pub open spec fn is_new(before: Seq<Seq<char>>) -> spec_fn(PathView) -> bool {
    |p: PathView| !before.contains(paths::path_text(p))
}

/// The paths that were not there before, in their order.
pub fn new_directory_entries(before: &Vec<String>, entries: &Vec<FilePath>) -> (r: Vec<FilePath>)
    ensures
        model::views(r@) == order::sorted::<FilePath>(
            lists::kept(model::views(entries@), is_new(text::texts(before@))),
        ),
{
    let ghost all = model::views(entries@);
    let ghost p = is_new(text::texts(before@));
    let mut out: Vec<FilePath> = Vec::new();
    let mut i: usize = 0;
    assert(all.take(0) =~= Seq::empty());
    assert(model::views(out@) =~= Seq::<PathView>::empty());
    while i < entries.len()
        invariant
            i <= entries@.len(),
            all == model::views(entries@),
            p == is_new(text::texts(before@)),
            model::views(out@) == lists::kept(all.take(i as int), p),
        decreases entries@.len() - i,
    {
        let ghost earlier = out@;
        assert(all.take(i + 1).drop_last() =~= all.take(i as int));
        assert(all.take(i + 1).last() == entries@[i as int]@);
        let shown = path_to_string(&entries[i]);
        if !contains_string(before, shown.as_str()) {
            out.push(entries[i].clone());
            assert(model::views(out@) =~= model::views(earlier).push(all[i as int]));
        }
        i = i + 1;
    }
    assert(all.take(i as int) =~= all);
    sort(out)
}

// ---------------------------------------------------------------------------
// Laws
// ---------------------------------------------------------------------------

/// The pending packages stand in the order in which they came in, the last
/// first, and none is lost.
pub proof fn law_reviews_in_order(found: Seq<FoundReview>)
    ensures
        ({
            let r = order::sorted::<ReviewItem>(pending_items(found));
            &&& r.to_multiset() == pending_items(found).to_multiset()
            &&& forall|i: int, j: int|
                0 <= i < j < r.len() ==> (#[trigger] r[i]).uploaded_at >= (
                #[trigger] r[j]).uploaded_at
        }),
{
    let items = pending_items(found);
    order::law_sorted::<ReviewItem>(items);
    let r = order::sorted::<ReviewItem>(items);
    assert forall|i: int, j: int| 0 <= i < j < r.len() implies (#[trigger] r[i]).uploaded_at >= (
    #[trigger] r[j]).uploaded_at by {
        assert(!<ReviewItem as Ranked>::ranks_below(r[j], r[i]));
    }
}

/// The metadata file of a pending package is never listed as a package.
pub proof fn law_metadata_is_not_pending(package: PathView, found: FoundReview)
    requires
        found.path@ == layout::meta_path(package),
    ensures
        !is_pending(found),
{
    layout::law_meta_is_meta(package);
}

/// Every file that is no metadata file is listed, and its item tells what the
/// file and its metadata tell: the path, the file's name with and without its
/// extension, the size, and the category, the time and the unpacked folders that
/// stand in the metadata.
pub proof fn law_listed_reviews_tell(found: Seq<FoundReview>, k: int)
    requires
        0 <= k < found.len(),
        found[k].is_file,
        paths::file_name_of(found[k].path@) matches Some(name) ==> !".meta.json"@.is_suffix_of(name),
    ensures
        exists|m: int|
            0 <= m < order::sorted::<ReviewItem>(pending_items(found)).len() && tells_of(
                #[trigger] order::sorted::<ReviewItem>(pending_items(found))[m],
                found[k],
            ),
{
    broadcast use vstd::seq_lib::group_to_multiset_ensures;

    let items = pending_items(found);
    let r = order::sorted::<ReviewItem>(items);
    order::law_sorted::<ReviewItem>(items);
    lemma_pending_tells(found, k);
    let m = choose|m: int| 0 <= m < items.len() && tells_of(#[trigger] items[m], found[k]);
    assert(items.contains(items[m]));
    assert(items.to_multiset().count(items[m]) > 0);
    assert(r.contains(items[m]));
    let j = choose|j: int| 0 <= j < r.len() && r[j] == items[m];
    assert(tells_of(r[j], found[k]));
}

/// The item tells what the entry's file and metadata hold.
pub open spec fn tells_of(item: ReviewItemView, found: FoundReview) -> bool {
    let bytes = match found.metadata {
        Some(content) => vstd::utf8::encode_utf8(content@),
        None => Seq::empty(),
    };
    &&& item.path == paths::path_text(found.path@)
    &&& item.id == fnv::id_of(paths::path_text(found.path@))
    &&& item.size == found.size
    &&& paths::file_name_of(found.path@) matches Some(name) ==> item.file_name == name
    &&& paths::file_name_of(found.path@) is None ==> item.file_name == "未命名软件"@
    &&& paths::file_stem_of(found.path@) matches Some(stem) ==> item.name == stem
    &&& paths::file_stem_of(found.path@) is None ==> item.name == item.file_name
    &&& found.metadata is None ==> item.category_name == "来自客户端"@ && item.uploaded_at == 0
        && item.extracted_paths.len() == 0
    &&& found.metadata is Some ==> {
        &&& json::text_at(bytes, "categoryName"@) matches Some(name) ==> item.category_name == name
        &&& json::text_at(bytes, "categoryName"@) is None ==> item.category_name == "来自客户端"@
        &&& json::count_at(bytes, "uploadedAt"@) matches Some(time) ==> item.uploaded_at == time
        &&& json::count_at(bytes, "uploadedAt"@) is None ==> item.uploaded_at == 0
        &&& json::list_at(bytes, "extractedPaths"@) matches Some(list) ==> item.extracted_paths
            == json::only_texts(list)
        &&& json::list_at(bytes, "extractedPaths"@) is None ==> item.extracted_paths.len() == 0
    }
}

proof fn lemma_pending_tells(found: Seq<FoundReview>, k: int)
    requires
        0 <= k < found.len(),
        found[k].is_file,
        paths::file_name_of(found[k].path@) matches Some(name) ==> !".meta.json"@.is_suffix_of(name),
    ensures
        exists|m: int|
            0 <= m < pending_items(found).len() && tells_of(
                #[trigger] pending_items(found)[m],
                found[k],
            ),
    decreases found.len(),
{
    let items = pending_items(found);
    let rest = pending_items(found.drop_last());
    if k == found.len() - 1 {
        assert(items.last() == items[items.len() - 1]);
        assert(tells_of(items[items.len() - 1], found[k]));
    } else {
        lemma_pending_tells(found.drop_last(), k);
        let m = choose|m: int| 0 <= m < rest.len() && tells_of(#[trigger] rest[m], found[k]);
        assert(items[m] == rest[m]);
    }
}

/// Every listed item stands for a pending package.
pub proof fn law_listed_reviews_are_pending(found: Seq<FoundReview>, m: int)
    requires
        0 <= m < order::sorted::<ReviewItem>(pending_items(found)).len(),
    ensures
        exists|k: int|
            0 <= k < found.len() && (#[trigger] found[k]).is_file && paths::path_text(
                found[k].path@,
            ) == order::sorted::<ReviewItem>(pending_items(found))[m].path && !(
            paths::file_name_of(found[k].path@) matches Some(name) && ".meta.json"@.is_suffix_of(
                name,
            )),
{
    broadcast use vstd::seq_lib::group_to_multiset_ensures;

    let items = pending_items(found);
    let r = order::sorted::<ReviewItem>(items);
    order::law_sorted::<ReviewItem>(items);
    assert(r.contains(r[m]));
    assert(r.to_multiset().count(r[m]) > 0);
    assert(items.contains(r[m]));
    let j = choose|j: int| 0 <= j < items.len() && items[j] == r[m];
    lemma_pending_comes_from(found, j);
    let k = choose|k: int|
        0 <= k < found.len() && (#[trigger] found[k]).is_file && paths::path_text(found[k].path@)
            == items[j].path && !(paths::file_name_of(found[k].path@) matches Some(name)
            && ".meta.json"@.is_suffix_of(name));
    assert(found[k].is_file);
}

proof fn lemma_pending_comes_from(found: Seq<FoundReview>, j: int)
    requires
        0 <= j < pending_items(found).len(),
    ensures
        pending_items(found).len() <= found.len(),
        exists|k: int|
            0 <= k < found.len() && (#[trigger] found[k]).is_file && paths::path_text(
                found[k].path@,
            ) == pending_items(found)[j].path && !(paths::file_name_of(found[k].path@) matches Some(
                name,
            ) && ".meta.json"@.is_suffix_of(name)),
    decreases found.len(),
{
    let rest = pending_items(found.drop_last());
    let last = found[found.len() - 1];
    if rest.len() > 0 {
        lemma_pending_comes_from(found.drop_last(), rest.len() - 1);
    }
    if j < rest.len() {
        lemma_pending_comes_from(found.drop_last(), j);
        let k = choose|k: int|
            0 <= k < found.drop_last().len() && (#[trigger] found.drop_last()[k]).is_file
                && paths::path_text(found.drop_last()[k].path@) == rest[j].path && !(
            paths::file_name_of(found.drop_last()[k].path@) matches Some(name)
                && ".meta.json"@.is_suffix_of(name));
        assert(found[k] == found.drop_last()[k]);
        assert(found[k].is_file);
    } else {
        assert(is_pending(last));
        assert(found[found.len() - 1].is_file);
    }
}

/// A package whose metadata file holds what the server wrote for it is listed
/// with the category that the client asked for, the time of the upload and the
/// folders that were unpacked.
pub proof fn law_written_metadata_is_listed(
    found: Seq<FoundReview>,
    k: int,
    category: Seq<char>,
    now: u64,
    extracted: Seq<Seq<char>>,
)
    requires
        0 <= k < found.len(),
        found[k].is_file,
        paths::file_name_of(found[k].path@) matches Some(name) ==> !".meta.json"@.is_suffix_of(name),
        found[k].metadata matches Some(content) && meta_tells(content@, category, now, extracted),
    ensures
        exists|m: int| {
            &&& 0 <= m < order::sorted::<ReviewItem>(pending_items(found)).len()
            &&& keeps_upload(
                #[trigger] order::sorted::<ReviewItem>(pending_items(found))[m],
                found[k],
                category,
                now,
                extracted,
            )
        },
{
    law_listed_reviews_tell(found, k);
    json::lemma_only_texts_of_texts(extracted);
    let items = order::sorted::<ReviewItem>(pending_items(found));
    let m = choose|m: int| 0 <= m < items.len() && tells_of(#[trigger] items[m], found[k]);
    assert(keeps_upload(items[m], found[k], category, now, extracted));
}

/// The item shows the package's path and what was noted of its upload.
pub open spec fn keeps_upload(
    item: ReviewItemView,
    found: FoundReview,
    category: Seq<char>,
    now: u64,
    extracted: Seq<Seq<char>>,
) -> bool {
    &&& item.path == paths::path_text(found.path@)
    &&& item.category_name == category
    &&& item.uploaded_at == now
    &&& item.extracted_paths == extracted
}

/// The contents of a metadata file tell the category, the time and the unpacked
/// folders.
pub open spec fn meta_tells(
    content: Seq<char>,
    category: Seq<char>,
    now: u64,
    extracted: Seq<Seq<char>>,
) -> bool {
    let bytes = vstd::utf8::encode_utf8(content);
    &&& json::text_at(bytes, "categoryName"@) == Some(category)
    &&& json::count_at(bytes, "uploadedAt"@) == Some(now)
    &&& json::list_at(bytes, "extractedPaths"@) == Some(
        extracted.map_values(|s: Seq<char>| Some(s)),
    )
}

/// Each pending package is listed once, whatever else lies beside it.
pub proof fn law_pending_items(a: Seq<FoundReview>, b: Seq<FoundReview>, found: FoundReview)
    ensures
        pending_items(a + b) == pending_items(a) + pending_items(b),
        pending_items(seq![found]).len() == if found.is_file && !layout::is_meta(found.path@) {
            1nat
        } else {
            0nat
        },
        a.len() == 0 ==> pending_items(a).len() == 0,
    decreases b.len(),
{
    let one = seq![found];
    assert(one.drop_last() =~= Seq::empty());
    assert(pending_items(one.drop_last()) =~= Seq::empty());
    assert(one.last() == found);
    if b.len() == 0 {
        assert(a + b =~= a);
        assert(pending_items(a + b) =~= pending_items(a) + pending_items(b));
    } else {
        assert((a + b).drop_last() =~= a + b.drop_last());
        assert((a + b).last() == b.last());
        law_pending_items(a, b.drop_last(), found);
        assert(pending_items(a + b) =~= pending_items(a) + pending_items(b));
    }
}

/// The folders that a package unpacked to are all folders among what came out of
/// it, in their order.
pub proof fn law_folders_of(a: Seq<FoundPath>, b: Seq<FoundPath>, found: FoundPath)
    ensures
        folders_of(a + b) == folders_of(a) + folders_of(b),
        found.what is Folder ==> folders_of(seq![found]) == seq![paths::path_text(found.path@)],
        !(found.what is Folder) ==> folders_of(seq![found]).len() == 0,
        a.len() == 0 ==> folders_of(a).len() == 0,
    decreases b.len(),
{
    let one = seq![found];
    assert(one.drop_last() =~= Seq::empty());
    assert(folders_of(one.drop_last()) =~= Seq::empty());
    assert(one.last() == found);
    assert(found.what is Folder ==> folders_of(one) =~= seq![paths::path_text(found.path@)]);
    if b.len() == 0 {
        assert(a + b =~= a);
        assert(folders_of(a + b) =~= folders_of(a) + folders_of(b));
    } else {
        assert((a + b).drop_last() =~= a + b.drop_last());
        assert((a + b).last() == b.last());
        law_folders_of(a, b.drop_last(), found);
        assert(folders_of(a + b) =~= folders_of(a) + folders_of(b));
    }
}

/// What came out of a package is what lies in the folder now and did not before,
/// in the order of paths.
pub proof fn law_new_entries(before: Seq<Seq<char>>, entries: Seq<PathView>, p: PathView)
    ensures
        order::sorted::<FilePath>(lists::kept(entries, is_new(before))).contains(p) == (
        entries.contains(p) && !before.contains(paths::path_text(p))),
        order::in_order::<FilePath>(
            order::sorted::<FilePath>(lists::kept(entries, is_new(before))),
        ),
{
    broadcast use vstd::seq_lib::group_to_multiset_ensures;

    let kept = lists::kept(entries, is_new(before));
    let r = order::sorted::<FilePath>(kept);
    lists::law_kept(entries, is_new(before), p);
    order::law_sorted::<FilePath>(kept);
    assert(r.contains(p) == (r.to_multiset().count(p) > 0));
    assert(kept.contains(p) == (kept.to_multiset().count(p) > 0));
}

/// A pending package is found by its identifier: the first that has it.
pub proof fn law_review_by_id(items: Seq<ReviewItemView>, id: Seq<char>, k: int)
    ensures
        0 <= k < items.len() && items[k].id == id && (forall|j: int|
            0 <= j < k ==> (#[trigger] items[j]).id != id) ==> lists::found(
            items,
            review_has_id(id),
        ) == Some(items[k]),
        (forall|j: int| 0 <= j < items.len() ==> (#[trigger] items[j]).id != id) ==> lists::found(
            items,
            review_has_id(id),
        ) is None,
{
    let p = review_has_id(id);
    lists::law_found(items, p, k);
    if 0 <= k < items.len() && (forall|j: int| 0 <= j < k ==> (#[trigger] items[j]).id != id) {
        assert(forall|j: int| 0 <= j < k ==> !p(#[trigger] items[j]));
    }
}

} // verus!
