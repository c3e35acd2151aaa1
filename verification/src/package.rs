//! Packing applications and unpacking packages.

use vstd::prelude::*;
use crate::fnv;
use crate::fnv::{little_endian_bytes, update_package_hash, OFFSET_BASIS};
use crate::layout;
use crate::layout::package_cache_dir;
use crate::model;
use crate::names;
use crate::names::sanitize_file_name;
use crate::numbers;
use crate::numbers::{decimal_text, hex16_text};
use crate::order;
use crate::order::{sort, Ranked};
use crate::paths;
use crate::paths::{native_path_to_string, path_to_string, FilePath, PathView};
use crate::split::{begins_with, join_texts};
use crate::text;
use crate::text::push_text;
use crate::wire;

verus! {

/// Shown where an application has no files.
pub const NO_FILES: &'static str = "软件文件不存在";

/// Shown where the folder of an application has no name.
pub const NO_FOLDER_NAME: &'static str = "无法读取软件文件夹名";

/// Shown, before the folder and the reason, where packing failed.
pub const PACKING_FAILED: &'static str = "打包软件失败：";

/// Shown where a file has no name in its package.
pub const NO_ENTRY_NAME: &'static str = "无法生成压缩包内文件名";

/// Shown where a file lies outside the folder that is packed.
pub const PREFIX_NOT_FOUND: &'static str = "prefix not found";

/// What the name of a package ends with.
pub const ZIP_SUFFIX: &'static str = ".zip";

/// The extension of a package.
pub const ZIP_EXTENSION: &'static str = "zip";

/// A file that goes into a package.
#[derive(Debug)]
pub struct PackageSourceFile {
    pub path: FilePath,
    pub len: u64,
    pub modified_ms: u128,
}

#[verifier::ext_equal]
pub ghost struct SourceFileView {
    pub path: PathView,
    pub len: u64,
    pub modified_ms: u128,
}

impl View for PackageSourceFile {
    type V = SourceFileView;

    open spec fn view(&self) -> SourceFileView {
        SourceFileView { path: self.path@, len: self.len, modified_ms: self.modified_ms }
    }
}

/// What goes into a package: the files in the order of their paths, how long
/// they are together, and a hash that changes with them.
#[derive(Debug)]
pub struct PackageSourceSignature {
    pub files: Vec<PackageSourceFile>,
    pub total_bytes: u64,
    pub signature_hash: u64,
}

/// The packages that are kept.
#[derive(Debug)]
pub struct PackageCacheInfo {
    pub path: String,
    pub file_count: u64,
    pub total_size: u64,
}

/// An entry of the folder of packages.
#[derive(Clone, Copy, Debug)]
pub struct CacheEntry {
    pub is_file: bool,
    pub len: u64,
}

impl Ranked for PackageSourceFile {
    open spec fn ranks_below(a: SourceFileView, b: SourceFileView) -> bool {
        <FilePath as Ranked>::ranks_below(a.path, b.path)
    }

    proof fn lemma_order(a: SourceFileView, b: SourceFileView, c: SourceFileView) {
        <FilePath as Ranked>::lemma_order(a.path, b.path, c.path);
    }

    fn below(&self, other: &Self) -> (r: bool) {
        self.path.below(&other.path)
    }
}

// ---------------------------------------------------------------------------
// Signatures
// ---------------------------------------------------------------------------

/// The sum of two numbers, as far as it can be counted.
pub open spec fn capped(a: int, b: int) -> u64 {
    if a + b > u64::MAX {
        u64::MAX
    } else {
        (a + b) as u64
    }
}

fn capped_sum(a: u64, b: u64) -> (r: u64)
    ensures
        r == capped(a as int, b as int),
{
    if a > 0xffff_ffff_ffff_ffff - b {
        0xffff_ffff_ffff_ffff
    } else {
        a + b
    }
}

/// How long files are together.
pub open spec fn total_len(files: Seq<SourceFileView>) -> u64
    decreases files.len(),
{
    if files.len() == 0 {
        0
    } else {
        capped(total_len(files.drop_last()) as int, files.last().len as int)
    }
}

/// The hash with a file mixed in: the bytes of its path, its length and its
/// time.
pub open spec fn mixed_file(hash: u64, file: SourceFileView) -> u64 {
    fnv::hashed(
        fnv::hashed(
            fnv::hashed(hash, vstd::utf8::encode_utf8(paths::path_text(file.path))),
            fnv::little_endian(file.len as nat, 8),
        ),
        fnv::little_endian(file.modified_ms as nat, 16),
    )
}

/// The hash of files.
pub open spec fn files_hash(files: Seq<SourceFileView>) -> u64
    decreases files.len(),
{
    if files.len() == 0 {
        OFFSET_BASIS
    } else {
        mixed_file(files_hash(files.drop_last()), files.last())
    }
}

/// The hash of files.
pub fn package_source_hash(files: &Vec<PackageSourceFile>) -> (r: u64)
    ensures
        r == files_hash(model::views(files@)),
{
    let ghost all = model::views(files@);
    let mut hash: u64 = OFFSET_BASIS;
    let mut i: usize = 0;
    assert(all.take(0) =~= Seq::empty());
    while i < files.len()
        invariant
            i <= files@.len(),
            all == model::views(files@),
            hash == files_hash(all.take(i as int)),
        decreases files@.len() - i,
    {
        assert(all.take(i + 1).drop_last() =~= all.take(i as int));
        assert(all.take(i + 1).last() == files@[i as int]@);
        let shown = native_path_to_string(&files[i].path);
        update_package_hash(&mut hash, shown.as_str().as_bytes());
        let len = little_endian_bytes(files[i].len as u128, 8);
        update_package_hash(&mut hash, &len);
        let modified = little_endian_bytes(files[i].modified_ms, 16);
        update_package_hash(&mut hash, &modified);
        i = i + 1;
    }
    assert(all.take(i as int) =~= all);
    hash
}

/// What stands where a package is made of: folders with what stands in them,
/// files, and what is neither.
pub enum SourceEntry {
    Folder(Vec<SourceEntry>),
    File(PackageSourceFile),
    Other,
}

impl Clone for PackageSourceFile {
    fn clone(&self) -> (r: Self)
        ensures
            r@ == self@,
    {
        PackageSourceFile {
            path: self.path.clone(),
            len: self.len,
            modified_ms: self.modified_ms,
        }
    }
}

/// The files of an entry, in the order in which they are met.
pub open spec fn files_in(entry: SourceEntry) -> Seq<SourceFileView>
    decreases entry, 0nat,
{
    match entry {
        SourceEntry::Folder(entries) => files_in_all(entries@),
        SourceEntry::File(file) => seq![file@],
        SourceEntry::Other => Seq::empty(),
    }
}

/// The files of entries, in the order in which they are met.
pub open spec fn files_in_all(entries: Seq<SourceEntry>) -> Seq<SourceFileView>
    decreases entries, entries.len(),
{
    if entries.len() == 0 {
        Seq::empty()
    } else {
        files_in_all(entries.drop_last()) + files_in(entries.last())
    }
}

/// Adds the files of an entry.
fn collect_files(entry: &SourceEntry, out: &mut Vec<PackageSourceFile>)
    ensures
        model::views(final(out)@) == model::views(old(out)@) + files_in(*entry),
    decreases entry,
{
    let ghost start = model::views(out@);
    match entry {
        SourceEntry::Folder(entries) => {
            let mut i: usize = 0;
            assert(entries@.take(0) =~= Seq::empty());
            assert(model::views(out@) =~= start + files_in_all(entries@.take(0)));
            while i < entries.len()
                invariant
                    i <= entries@.len(),
                    *entry == SourceEntry::Folder(*entries),
                    model::views(out@) == start + files_in_all(entries@.take(i as int)),
                decreases entries@.len() - i,
            {
                assert(entries@.take(i + 1).drop_last() =~= entries@.take(i as int));
                assert(entries@.take(i + 1).last() == entries@[i as int]);
                assert(decreases_to!(*entry => entry->Folder_0));
                assert(decreases_to!(*entries => entries@));
                assert(decreases_to!(entries@ => entries@[i as int]));
                collect_files(&entries[i], out);
                assert(model::views(out@) =~= start + files_in_all(entries@.take(i + 1)));
                i = i + 1;
            }
            assert(entries@.take(i as int) =~= entries@);
        },
        SourceEntry::File(file) => {
            let ghost before = out@;
            out.push(file.clone());
            assert(model::views(out@) =~= model::views(before).push(file@));
            assert(model::views(out@) =~= start + files_in(*entry));
        },
        SourceEntry::Other => {
            assert(model::views(out@) =~= start + files_in(*entry));
        },
    }
}

/// The files that a package is made of, in the order in which they are met:
/// the file itself, or those in the folder and in the folders in it.
pub fn collect_package_source_files(entry: &SourceEntry) -> (r: Vec<PackageSourceFile>)
    ensures
        model::views(r@) == files_in(*entry),
{
    let mut out: Vec<PackageSourceFile> = Vec::new();
    collect_files(entry, &mut out);
    assert(model::views(out@) =~= files_in(*entry));
    out
}

/// What goes into a package. The files are given as they were met.
pub fn package_source_signature(files: Vec<PackageSourceFile>) -> (r: PackageSourceSignature)
    ensures
        ({
            let sorted = order::sorted::<PackageSourceFile>(model::views(files@));
            &&& model::views(r.files@) == sorted
            &&& r.total_bytes == total_len(sorted)
            &&& r.signature_hash == files_hash(sorted)
        }),
{
    let sorted = sort(files);
    let ghost all = model::views(sorted@);
    let mut total: u64 = 0;
    let mut i: usize = 0;
    assert(all.take(0) =~= Seq::empty());
    while i < sorted.len()
        invariant
            i <= sorted@.len(),
            all == model::views(sorted@),
            total == total_len(all.take(i as int)),
        decreases sorted@.len() - i,
    {
        assert(all.take(i + 1).drop_last() =~= all.take(i as int));
        assert(all.take(i + 1).last() == sorted@[i as int]@);
        total = capped_sum(total, sorted[i].len);
        i = i + 1;
    }
    assert(all.take(i as int) =~= all);
    let signature_hash = package_source_hash(&sorted);
    PackageSourceSignature { files: sorted, total_bytes: total, signature_hash }
}

// ---------------------------------------------------------------------------
// The folder of packages
// ---------------------------------------------------------------------------

/// The name of a package that is kept.
pub open spec fn cache_name(
    app_id: Seq<char>,
    count: nat,
    total: u64,
    hash: u64,
    file_name: Seq<char>,
) -> Seq<char> {
    names::sanitized(app_id) + seq!['-'] + (numbers::decimal(count) + seq!['-'] + numbers::decimal(
        total as nat,
    ) + seq!['-'] + numbers::zero_padded(numbers::hexadecimal(hash as nat), 16)) + seq!['-']
        + names::sanitized(file_name)
}

/// The file that a package is kept in.
pub open spec fn cache_file(
    library: PathView,
    app_id: Seq<char>,
    count: nat,
    total: u64,
    hash: u64,
    file_name: Seq<char>,
) -> PathView {
    paths::joined(
        layout::cache_dir(library),
        cache_name(app_id, count, total, hash, file_name),
    )
}

/// The file that a package is kept in.
pub fn package_cache_path(
    library: &FilePath,
    app_id: &str,
    signature: &PackageSourceSignature,
    file_name: &str,
) -> (r: FilePath)
    ensures
        r@ == cache_file(
            library@,
            app_id@,
            signature.files@.len(),
            signature.total_bytes,
            signature.signature_hash,
            file_name@,
        ),
{
    let folder = package_cache_dir(library);
    let n: usize = signature.files.len();
    let count = decimal_text(n as u64);
    let total = decimal_text(signature.total_bytes);
    let hash = hex16_text(signature.signature_hash);
    let safe_name = sanitize_file_name(file_name);
    let mut name = sanitize_file_name(app_id);
    name.push('-');
    push_text(&mut name, count.as_str());
    name.push('-');
    push_text(&mut name, total.as_str());
    name.push('-');
    push_text(&mut name, hash.as_str());
    name.push('-');
    push_text(&mut name, safe_name.as_str());
    assert(name@ =~= cache_name(
        app_id@,
        signature.files@.len(),
        signature.total_bytes,
        signature.signature_hash,
        file_name@,
    ));
    folder.join(name.as_str())
}

/// The path leads to a package of the application, made of whatever files.
pub open spec fn is_package_of(path: PathView, app_id: Seq<char>) -> bool {
    paths::file_name_of(path) matches Some(name) && (names::sanitized(app_id) + seq![
        '-',
    ]).is_prefix_of(name)
}

/// Whether a file in the folder of packages goes when a new package of the
/// application is made.
pub fn is_outdated_package(path: &FilePath, app_id: &str) -> (r: bool)
    ensures
        r == is_package_of(path@, app_id@),
{
    let mut prefix = sanitize_file_name(app_id);
    prefix.push('-');
    assert(prefix@ =~= names::sanitized(app_id@) + seq!['-']);
    match path.file_name() {
        Some(name) => begins_with(name.as_str(), prefix.as_str()),
        None => false,
    }
}

/// The number of files among the entries, as far as it can be counted.
pub open spec fn count_files(entries: Seq<CacheEntry>) -> u64
    decreases entries.len(),
{
    if entries.len() == 0 {
        0
    } else if entries.last().is_file {
        capped(count_files(entries.drop_last()) as int, 1)
    } else {
        count_files(entries.drop_last())
    }
}

/// How long the files among the entries are together.
pub open spec fn size_of_files(entries: Seq<CacheEntry>) -> u64
    decreases entries.len(),
{
    if entries.len() == 0 {
        0
    } else if entries.last().is_file {
        capped(size_of_files(entries.drop_last()) as int, entries.last().len as int)
    } else {
        size_of_files(entries.drop_last())
    }
}

/// The packages that are kept.
pub fn package_cache_info(library: &FilePath, entries: &Vec<CacheEntry>) -> (r: PackageCacheInfo)
    ensures
        r.path@ == paths::path_text(layout::cache_dir(library@)),
        r.file_count == count_files(entries@),
        r.total_size == size_of_files(entries@),
{
    let folder = package_cache_dir(library);
    let mut file_count: u64 = 0;
    let mut total_size: u64 = 0;
    let mut i: usize = 0;
    assert(entries@.take(0) =~= Seq::empty());
    while i < entries.len()
        invariant
            i <= entries@.len(),
            file_count == count_files(entries@.take(i as int)),
            total_size == size_of_files(entries@.take(i as int)),
        decreases entries@.len() - i,
    {
        assert(entries@.take(i + 1).drop_last() =~= entries@.take(i as int));
        assert(entries@.take(i + 1).last() == entries@[i as int]);
        if entries[i].is_file {
            file_count = capped_sum(file_count, 1);
            total_size = capped_sum(total_size, entries[i].len);
        }
        i = i + 1;
    }
    assert(entries@.take(i as int) =~= entries@);
    PackageCacheInfo { path: path_to_string(&folder), file_count, total_size }
}

// ---------------------------------------------------------------------------
// Packing
// ---------------------------------------------------------------------------

/// What is packed of an application: its folder or, where that is none, the
/// folder of its program.
pub open spec fn source_of(
    folder: PathView,
    folder_is_there: bool,
    executable: Option<PathView>,
) -> Result<PathView, Seq<char>> {
    if folder_is_there {
        Ok(folder)
    } else {
        match executable {
            Some(p) => match paths::parent_of(p) {
                Some(parent) => Ok(parent),
                None => Err(NO_FOLDER_NAME@),
            },
            None => Err(NO_FILES@),
        }
    }
}

/// What is packed of an application.
pub fn package_source(
    folder: &FilePath,
    folder_is_there: bool,
    executable: &Option<FilePath>,
) -> (r: Result<FilePath, String>)
    ensures
        match r {
            Ok(p) => source_of(
                folder@,
                folder_is_there,
                crate::executables::opt_path(*executable),
            ) == Ok::<_, Seq<char>>(p@),
            Err(e) => source_of(
                folder@,
                folder_is_there,
                crate::executables::opt_path(*executable),
            ) == Err::<PathView, _>(e@),
        },
{
    if folder_is_there {
        return Ok(folder.clone());
    }
    match executable {
        Some(p) => match p.parent() {
            Some(parent) => Ok(parent),
            None => Err(NO_FOLDER_NAME.to_string()),
        },
        None => Err(NO_FILES.to_string()),
    }
}

/// The name of the package of a folder: the folder's, or the application's
/// where the folder's cannot be read.
pub open spec fn package_name(source: PathView, app_name: Seq<char>) -> Seq<char> {
    names::sanitized(
        match paths::file_stem_of(source) {
            Some(stem) => stem,
            None => app_name,
        },
    ) + ZIP_SUFFIX@
}

/// A package that is about to be handed out.
#[derive(Debug)]
pub struct PackagePlan {
    pub file_name: String,
    pub signature: PackageSourceSignature,
    pub cache_path: FilePath,
}

/// Plans the package of an application: its name, what goes into it, and the
/// file that it is kept in. The files are given as they were met, or the reason
/// why they could not be.
pub fn prepare_download_file(
    library: &FilePath,
    app_id: &str,
    app_name: &str,
    source: &FilePath,
    source_is_there: bool,
    files: Result<Vec<PackageSourceFile>, String>,
) -> (r: Result<PackagePlan, String>)
    ensures
        if !source_is_there {
            r matches Err(e) && e@ == NO_FILES@
        } else {
            match files {
                Err(problem) => r matches Err(e) && e@ == problem@,
                Ok(list) => {
                    let sorted = order::sorted::<PackageSourceFile>(model::views(list@));
                    &&& r matches Ok(plan)
                    &&& plan.file_name@ == package_name(source@, app_name@)
                    &&& model::views(plan.signature.files@) == sorted
                    &&& plan.signature.total_bytes == total_len(sorted)
                    &&& plan.signature.signature_hash == files_hash(sorted)
                    &&& plan.cache_path@ == cache_file(
                        library@,
                        app_id@,
                        list@.len(),
                        total_len(sorted),
                        files_hash(sorted),
                        package_name(source@, app_name@),
                    )
                },
            }
        },
{
    if !source_is_there {
        return Err(NO_FILES.to_string());
    }
    let mut file_name = match source.file_stem() {
        Some(stem) => sanitize_file_name(stem.as_str()),
        None => sanitize_file_name(app_name),
    };
    push_text(&mut file_name, ZIP_SUFFIX);
    match files {
        Err(e) => Err(e),
        Ok(list) => {
            proof {
                order::law_sorted::<PackageSourceFile>(model::views(list@));
            }
            let signature = package_source_signature(list);
            assert(model::views(signature.files@).len() == signature.files@.len());
            let cache_path = package_cache_path(
                library,
                app_id,
                &signature,
                file_name.as_str(),
            );
            Ok(PackagePlan { file_name, signature, cache_path })
        },
    }
}

/// What is shown where packing failed.
pub fn packing_problem(source: &FilePath, error: &str) -> (r: String)
    ensures
        r@ == PACKING_FAILED@ + paths::path_text(source@) + "："@ + error@,
{
    let mut message = PACKING_FAILED.to_string();
    let shown = native_path_to_string(source);
    push_text(&mut message, shown.as_str());
    push_text(&mut message, "：");
    push_text(&mut message, error);
    message
}

/// The folder that the names in a package begin from.
pub fn package_base(source: &FilePath) -> (r: Result<FilePath, String>)
    ensures
        match r {
            Ok(base) => paths::parent_of(source@) == Some(base@),
            Err(e) => paths::parent_of(source@) is None && e@ == NO_FOLDER_NAME@,
        },
{
    match source.parent() {
        Some(base) => Ok(base),
        None => Err(NO_FOLDER_NAME.to_string()),
    }
}

/// How parts of a path are shown.
pub open spec fn shown_parts(parts: Seq<paths::PartView>) -> Seq<Seq<char>> {
    Seq::new(parts.len(), |i: int| parts[i].shown)
}

/// The name of a file in a package: its path from the base on, with slashes.
pub open spec fn entry_name(base: PathView, file: PathView) -> Result<Seq<char>, Seq<char>> {
    if !paths::lies_in(file, base) {
        Err(PREFIX_NOT_FOUND@)
    } else {
        let name = text::joined(
            shown_parts(file.parts.skip(base.parts.len() as int)),
            seq!['/'],
        );
        if name.len() == 0 {
            Err(NO_ENTRY_NAME@)
        } else {
            Ok(name)
        }
    }
}

/// The name of a file in a package.
pub fn zip_entry_name(base_parent: &FilePath, file_path: &FilePath) -> (r: Result<String, String>)
    ensures
        match r {
            Ok(name) => entry_name(base_parent@, file_path@) == Ok::<_, Seq<char>>(name@),
            Err(e) => entry_name(base_parent@, file_path@) == Err::<Seq<char>, _>(e@),
        },
{
    if !file_path.starts_with(base_parent) {
        return Err(PREFIX_NOT_FOUND.to_string());
    }
    let start: usize = base_parent.parts.len();
    let ghost rest = file_path@.parts.skip(start as int);
    let mut shown: Vec<String> = Vec::new();
    let mut i: usize = start;
    assert(shown_parts(rest).take(0) =~= Seq::empty());
    assert(text::texts(shown@) =~= Seq::empty());
    while i < file_path.parts.len()
        invariant
            start <= i <= file_path.parts@.len(),
            rest == file_path@.parts.skip(start as int),
            text::texts(shown@) == shown_parts(rest).take(i - start),
        decreases file_path.parts@.len() - i,
    {
        let ghost before = shown@;
        shown.push(file_path.parts[i].shown.clone());
        assert(text::texts(shown@) =~= text::texts(before).push(file_path@.parts[i as int].shown));
        assert(rest[i - start] == file_path@.parts[i as int]);
        assert(shown_parts(rest).take(i + 1 - start) =~= shown_parts(rest).take(i - start).push(
            file_path@.parts[i as int].shown,
        ));
        i = i + 1;
    }
    assert(shown_parts(rest).take(i - start) =~= shown_parts(rest));
    let slash: &str = "/";
    proof {
        reveal_strlit("/");
        assert(slash@ =~= seq!['/']);
    }
    let name = join_texts(&shown, slash);
    if name.as_str().is_empty() {
        Err(NO_ENTRY_NAME.to_string())
    } else {
        Ok(name)
    }
}

// ---------------------------------------------------------------------------
// Unpacking
// ---------------------------------------------------------------------------

/// What is done with an entry of a package.
pub enum ExtractStep {
    /// Nothing: its name leads out of the folder.
    Skip,
    /// Make a folder.
    MakeFolder(FilePath),
    /// Make the folder that a file lies in, where it lies in one, and write
    /// the file.
    WriteFile(Option<FilePath>, FilePath),
}

/// What is done with an entry of a package that is unpacked into a folder. The
/// entry's name is given where it stays in the folder.
pub fn extract_entry(folder: &FilePath, enclosed: &Option<FilePath>, is_folder: bool) -> (r:
    ExtractStep)
    ensures
        match *enclosed {
            None => r is Skip,
            Some(name) => {
                let target = paths::joined_path(folder@, name@);
                if is_folder {
                    r matches ExtractStep::MakeFolder(p) && p@ == target
                } else {
                    &&& r matches ExtractStep::WriteFile(parent, p)
                    &&& p@ == target
                    &&& crate::executables::opt_path(parent) == paths::parent_of(target)
                }
            },
        },
{
    match enclosed {
        None => ExtractStep::Skip,
        Some(name) => {
            let target = folder.join_path(name);
            if is_folder {
                return ExtractStep::MakeFolder(target);
            }
            let parent = target.parent();
            ExtractStep::WriteFile(parent, target)
        },
    }
}

/// Whether the path leads to a package.
pub fn is_package(path: &FilePath) -> (r: bool)
    ensures
        r == paths::has_extension(path@, ZIP_EXTENSION@),
{
    path.extension_is(ZIP_EXTENSION)
}

// ---------------------------------------------------------------------------
// Laws
// ---------------------------------------------------------------------------

/// The package that is kept of an application is found when a new one takes
/// its place.
pub proof fn law_kept_package_is_found(
    library: PathView,
    app_id: Seq<char>,
    count: nat,
    total: u64,
    hash: u64,
    file_name: Seq<char>,
)
    ensures
        is_package_of(cache_file(library, app_id, count, total, hash, file_name), app_id),
        paths::lies_in(
            cache_file(library, app_id, count, total, hash, file_name),
            layout::cache_dir(library),
        ),
{
    let name = cache_name(app_id, count, total, hash, file_name);
    let prefix = names::sanitized(app_id) + seq!['-'];
    names::law_sanitized(app_id);
    names::law_sanitized(file_name);
    numbers::lemma_decimal_shape(count);
    assert(prefix =~= name.subrange(0, prefix.len() as int));
    assert(name.len() > 2);
    assert(!names::is_dots(name));
    paths::law_joined_name(layout::cache_dir(library), name);
    paths::law_joined_lies_inside(layout::cache_dir(library), name);
}

/// The files of a package stand in the order of their paths, and none is lost.
pub proof fn law_signature_files(files: Seq<SourceFileView>)
    ensures
        order::in_order::<PackageSourceFile>(order::sorted::<PackageSourceFile>(files)),
        order::sorted::<PackageSourceFile>(files).to_multiset() == files.to_multiset(),
{
    order::law_sorted::<PackageSourceFile>(files);
}

/// A path names one file.
pub open spec fn paths_name_one(files: Seq<SourceFileView>) -> bool {
    forall|i: int, j: int|
        0 <= i < files.len() && 0 <= j < files.len() && paths::same_path(
            (#[trigger] files[i]).path,
            (#[trigger] files[j]).path,
        ) ==> files[i] == files[j]
}

/// In whatever order the files of a package are met, what goes into it, its
/// length, its hash and the file that it is kept in are the same.
pub proof fn law_listing_order_does_not_matter(
    a: Seq<SourceFileView>,
    b: Seq<SourceFileView>,
    library: PathView,
    app_id: Seq<char>,
    file_name: Seq<char>,
)
    requires
        a.to_multiset() == b.to_multiset(),
        paths_name_one(a),
    ensures
        ({
            let x = order::sorted::<PackageSourceFile>(a);
            let y = order::sorted::<PackageSourceFile>(b);
            &&& x == y
            &&& total_len(x) == total_len(y)
            &&& files_hash(x) == files_hash(y)
            &&& cache_file(library, app_id, a.len(), total_len(x), files_hash(x), file_name)
                == cache_file(library, app_id, b.len(), total_len(y), files_hash(y), file_name)
        }),
{
    assert forall|i: int, j: int|
        0 <= i < a.len() && 0 <= j < a.len() && !<PackageSourceFile as Ranked>::ranks_below(
            a[i],
            a[j],
        ) && !<PackageSourceFile as Ranked>::ranks_below(a[j], a[i]) implies #[trigger] a[i]
        == #[trigger] a[j] by {
        paths::law_paths_ranked(a[i].path, a[j].path);
    }
    order::law_sorted_of_same::<PackageSourceFile>(a, b);
    order::law_sorted::<PackageSourceFile>(a);
    order::law_sorted::<PackageSourceFile>(b);
}

/// The parts of a file's path behind the base are plain names: text that the
/// system does not split.
pub open spec fn plain_behind(base: PathView, file: PathView) -> bool {
    forall|i: int|
        base.parts.len() <= i < file.parts.len() ==> {
            let part = #[trigger] file.parts[i];
            part.kind == paths::PartKind::Normal && part.name == vstd::utf8::encode_utf8(part.shown)
                && !part.shown.contains('/')
        }
}

proof fn lemma_pieces_of_joined(parts: Seq<Seq<char>>)
    requires
        parts.len() > 0,
        forall|i: int| 0 <= i < parts.len() ==> !(#[trigger] parts[i]).contains('/'),
    ensures
        text::pieces(text::joined(parts, seq!['/']), '/') == parts,
    decreases parts.len(),
{
    let first = parts[0];
    let all = text::joined(parts, seq!['/']);
    if parts.len() == 1 {
        text::lemma_index_from(all, '/', 0);
        assert(text::index_from(all, '/', 0) is None) by {
            if let Some(k) = text::index_from(all, '/', 0) {
                assert(first.contains(first[k]));
            }
        }
        assert(seq![all] =~= parts);
    } else {
        let rest = parts.drop_first();
        wire::lemma_joined_front(parts, seq!['/']);
        let tail = text::joined(rest, seq!['/']);
        assert(all =~= first + seq!['/'] + tail);
        let n = first.len() as int;
        assert(all[n] == '/');
        assert forall|j: int| 0 <= j < n implies all[j] != '/' by {
            assert(all[j] == first[j]);
            assert(first.contains(first[j]));
        }
        text::lemma_index_is(all, '/', n);
        assert(all.take(n) =~= first);
        assert(all.skip(n + 1) =~= tail);
        assert forall|i: int| 0 <= i < rest.len() implies !(#[trigger] rest[i]).contains('/') by {
            assert(rest[i] == parts[i + 1]);
        }
        lemma_pieces_of_joined(rest);
        assert(seq![first] + rest =~= parts);
    }
}

/// A file has a name in the package exactly where it lies in the base and is not
/// the base. Cut at the slashes, the name is the list of all parts of the file's
/// path behind the base, in their order, and none left out.
pub proof fn law_entry_name_parts(base: PathView, file: PathView)
    ensures
        !paths::lies_in(file, base) ==> entry_name(base, file) == Err::<Seq<char>, _>(
            PREFIX_NOT_FOUND@,
        ),
        paths::lies_in(file, base) ==> (entry_name(base, file) is Ok) == (file.parts.len()
            > base.parts.len() + 1 || (file.parts.len() == base.parts.len() + 1
            && file.parts.last().shown.len() > 0)),
        paths::lies_in(file, base) && entry_name(base, file) is Err ==> entry_name(base, file)
            == Err::<Seq<char>, _>(NO_ENTRY_NAME@),
        (forall|i: int|
            base.parts.len() <= i < file.parts.len() ==> !(#[trigger] file.parts[i]).shown.contains(
                '/',
            )) ==> (entry_name(base, file) matches Ok(name) ==> text::pieces(name, '/') == Seq::new(
            (file.parts.len() - base.parts.len()) as nat,
            |i: int| file.parts[base.parts.len() + i].shown,
        )),
{
    let rest = file.parts.skip(base.parts.len() as int);
    if paths::lies_in(file, base) {
        let shown = shown_parts(rest);
        assert(rest.len() == file.parts.len() - base.parts.len());
        if rest.len() > 1 {
            assert(text::joined(shown, seq!['/']).len() > 0);
        }
        if rest.len() > 0 && forall|i: int|
            base.parts.len() <= i < file.parts.len() ==> !(#[trigger] file.parts[i]).shown.contains(
                '/',
            ) {
            assert forall|i: int| 0 <= i < shown.len() implies !(#[trigger] shown[i]).contains(
                '/',
            ) by {
                assert(shown[i] == file.parts[base.parts.len() + i].shown);
            }
            lemma_pieces_of_joined(shown);
            assert(shown =~= Seq::new(
                (file.parts.len() - base.parts.len()) as nat,
                |i: int| file.parts[base.parts.len() + i].shown,
            ));
        }
    }
}

/// The relative path `rel` has the pieces of an entry's name as its parts.
pub open spec fn spells(rel: PathView, name: Seq<char>) -> bool {
    let names = text::pieces(name, '/');
    rel.parts.len() == names.len() && forall|i: int|
        0 <= i < names.len() ==> {
            let part = #[trigger] rel.parts[i];
            part.kind == paths::PartKind::Normal && part.name == vstd::utf8::encode_utf8(names[i])
        }
}

/// What was packed is unpacked again: an entry's name, put behind any folder,
/// leads to the same parts in that folder that the file had behind the base.
/// Unpacked where it was packed, it leads to the file itself.
pub proof fn law_packed_is_unpacked(
    base: PathView,
    file: PathView,
    name: Seq<char>,
    rel: PathView,
    folder: PathView,
)
    requires
        entry_name(base, file) == Ok::<_, Seq<char>>(name),
        plain_behind(base, file),
        spells(rel, name),
    ensures
        ({
            let q = paths::joined_path(folder, rel);
            let n = folder.parts.len() as int;
            &&& q.parts.len() == n + file.parts.len() - base.parts.len()
            &&& forall|i: int| 0 <= i < n ==> #[trigger] q.parts[i] == folder.parts[i]
            &&& forall|i: int|
                base.parts.len() <= i < file.parts.len() ==> {
                    let part = q.parts[n + i - base.parts.len()];
                    part.kind == (#[trigger] file.parts[i]).kind && part.name == file.parts[i].name
                }
        }),
        paths::same_path(file, paths::joined_path(base, rel)),
{
    law_entry_name_parts(base, file);
    let m = base.parts.len() as int;
    let names = text::pieces(name, '/');
    let q = paths::joined_path(folder, rel);
    let n = folder.parts.len() as int;
    assert(rel.parts[0].kind == paths::PartKind::Normal);
    assert forall|i: int| m <= i < file.parts.len() implies {
        let part = q.parts[n + i - m];
        part.kind == (#[trigger] file.parts[i]).kind && part.name == file.parts[i].name
    } by {
        assert(names[i - m] == file.parts[i].shown);
        assert(rel.parts[i - m].kind == paths::PartKind::Normal);
        if i > m {
            assert(rel.parts.skip(1)[i - m - 1] == rel.parts[i - m]);
        }
    }
    let back = paths::joined_path(base, rel);
    assert forall|i: int| 0 <= i < back.parts.len() implies paths::same_part(
        #[trigger] file.parts[i],
        back.parts[i],
    ) by {
        if i < m {
            assert(paths::same_part(file.parts[i], base.parts[i]));
        } else {
            assert(names[i - m] == file.parts[i].shown);
            assert(rel.parts[i - m].kind == paths::PartKind::Normal);
            if i > m {
                assert(rel.parts.skip(1)[i - m - 1] == rel.parts[i - m]);
            }
        }
    }
}

/// Different files have different names in the package.
pub proof fn law_entry_names_differ(base: PathView, a: PathView, b: PathView)
    requires
        plain_behind(base, a),
        plain_behind(base, b),
        entry_name(base, a) is Ok,
        entry_name(base, a) == entry_name(base, b),
    ensures
        paths::same_path(a, b),
{
    law_entry_name_parts(base, a);
    law_entry_name_parts(base, b);
    let m = base.parts.len() as int;
    let names = text::pieces(entry_name(base, a)->Ok_0, '/');
    assert(names.len() == a.parts.len() - m && names.len() == b.parts.len() - m);
    assert forall|i: int| 0 <= i < b.parts.len() implies paths::same_part(
        #[trigger] a.parts[i],
        b.parts[i],
    ) by {
        if i < m {
            assert(paths::same_part(a.parts[i], base.parts[i]));
            assert(paths::same_part(b.parts[i], base.parts[i]));
        } else {
            assert(names[i - m] == a.parts[i].shown && names[i - m] == b.parts[i].shown);
        }
    }
}

/// Sizes are added up, and stay at the largest number that there is where they
/// would exceed it.
pub proof fn law_capped(a: u64, b: u64)
    ensures
        a + b <= u64::MAX ==> capped(a as int, b as int) == a + b,
        a + b > u64::MAX ==> capped(a as int, b as int) == u64::MAX,
{
}

/// The size of files is the sum of their sizes.
pub proof fn law_total_len(a: Seq<SourceFileView>, b: Seq<SourceFileView>, file: SourceFileView)
    ensures
        total_len(a + b) == capped(total_len(a) as int, total_len(b) as int),
        total_len(seq![file]) == file.len,
        a.len() == 0 ==> total_len(a) == 0,
    decreases b.len(),
{
    let one = seq![file];
    assert(one.drop_last() =~= Seq::empty());
    assert(total_len(one.drop_last()) == 0);
    assert(one.last() == file);
    if b.len() == 0 {
        assert(a + b =~= a);
    } else {
        assert((a + b).drop_last() =~= a + b.drop_last());
        assert((a + b).last() == b.last());
        law_total_len(a, b.drop_last(), file);
    }
}

/// The signature of files is the hash of all their paths, sizes and times, one
/// file after the other.
pub proof fn law_files_hash(files: Seq<SourceFileView>, file: SourceFileView)
    ensures
        files_hash(Seq::empty()) == 14695981039346656037,
        files_hash(files.push(file)) == fnv::hashed(
            files_hash(files),
            vstd::utf8::encode_utf8(paths::path_text(file.path)) + fnv::little_endian(
                file.len as nat,
                8,
            ) + fnv::little_endian(file.modified_ms as nat, 16),
        ),
{
    let h = files_hash(files);
    let p = vstd::utf8::encode_utf8(paths::path_text(file.path));
    let l = fnv::little_endian(file.len as nat, 8);
    let m = fnv::little_endian(file.modified_ms as nat, 16);
    fnv::law_hash_continues(h, p, l);
    fnv::law_hash_continues(h, p + l, m);
    assert(files.push(file).drop_last() =~= files);
}

/// The files of a folder are those of all its entries, in their order and at any
/// depth; what is neither a file nor a folder is passed over.
pub proof fn law_files_in(a: Seq<SourceEntry>, b: Seq<SourceEntry>, entry: SourceEntry)
    ensures
        files_in_all(a + b) == files_in_all(a) + files_in_all(b),
        files_in_all(seq![entry]) == files_in(entry),
        a.len() == 0 ==> files_in_all(a).len() == 0,
        match entry {
            SourceEntry::Folder(entries) => files_in(entry) == files_in_all(entries@),
            SourceEntry::File(file) => files_in(entry) == seq![file@],
            SourceEntry::Other => files_in(entry).len() == 0,
        },
    decreases b.len(),
{
    let one = seq![entry];
    assert(one.drop_last() =~= Seq::empty());
    assert(files_in_all(one.drop_last()) =~= Seq::empty());
    assert(one.last() == entry);
    assert(files_in_all(one) =~= files_in(entry));
    if b.len() == 0 {
        assert(a + b =~= a);
        assert(files_in_all(a + b) =~= files_in_all(a) + files_in_all(b));
    } else {
        assert((a + b).drop_last() =~= a + b.drop_last());
        assert((a + b).last() == b.last());
        law_files_in(a, b.drop_last(), entry);
        assert(files_in_all(a + b) =~= files_in_all(a) + files_in_all(b));
    }
}

proof fn lemma_padded_value(s: Seq<char>, width: nat)
    ensures
        numbers::hex_value(numbers::zero_padded(s, width)) == numbers::hex_value(s),
    decreases width - s.len(),
{
    if s.len() < width {
        lemma_leading_zero(s);
        lemma_padded_value(seq!['0'] + s, width);
    }
}

proof fn lemma_leading_zero(s: Seq<char>)
    ensures
        numbers::hex_value(seq!['0'] + s) == numbers::hex_value(s),
    decreases s.len(),
{
    let t = seq!['0'] + s;
    if s.len() == 0 {
        assert(t.drop_last() =~= Seq::empty());
        assert(numbers::hex_value(t.drop_last()) == 0);
        assert(t.last() == '0');
    } else {
        assert(t.drop_last() =~= seq!['0'] + s.drop_last());
        assert(t.last() == s.last());
        lemma_leading_zero(s.drop_last());
    }
}

proof fn lemma_no_hyphen(n: nat)
    ensures
        !numbers::decimal(n).contains('-'),
{
    numbers::lemma_decimal_shape(n);
    let d = numbers::decimal(n);
    assert forall|i: int| 0 <= i < d.len() implies d[i] != '-' by {
        assert(text::is_digit(d[i]));
    }
}

/// A package is packed anew where its files have changed: packages of the same
/// application under the same name, but of files in another number, of another
/// size or with another signature, are kept under different names.
pub proof fn law_changed_files_new_package(
    app_id: Seq<char>,
    file_name: Seq<char>,
    count: nat,
    total: u64,
    hash: u64,
    other_count: nat,
    other_total: u64,
    other_hash: u64,
)
    requires
        cache_name(app_id, count, total, hash, file_name) == cache_name(
            app_id,
            other_count,
            other_total,
            other_hash,
            file_name,
        ),
    ensures
        count == other_count,
        total == other_total,
        hash == other_hash,
{
    let front = names::sanitized(app_id) + seq!['-'];
    let back = seq!['-'] + names::sanitized(file_name);
    let h = numbers::zero_padded(numbers::hexadecimal(hash as nat), 16);
    let g = numbers::zero_padded(numbers::hexadecimal(other_hash as nat), 16);
    let a = numbers::decimal(total as nat) + seq!['-'] + (h + back);
    let b = numbers::decimal(other_total as nat) + seq!['-'] + (g + back);
    let x = numbers::decimal(count) + seq!['-'] + a;
    let y = numbers::decimal(other_count) + seq!['-'] + b;
    let name = cache_name(app_id, count, total, hash, file_name);
    let other = cache_name(app_id, other_count, other_total, other_hash, file_name);
    assert(name =~= front + x);
    assert(other =~= front + y);
    assert(name.skip(front.len() as int) =~= x);
    assert(other.skip(front.len() as int) =~= y);
    lemma_no_hyphen(count);
    lemma_no_hyphen(other_count);
    text::law_split_at_char(numbers::decimal(count), '-', a);
    text::law_split_at_char(numbers::decimal(other_count), '-', b);
    lemma_no_hyphen(total as nat);
    lemma_no_hyphen(other_total as nat);
    text::law_split_at_char(numbers::decimal(total as nat), '-', h + back);
    text::law_split_at_char(numbers::decimal(other_total as nat), '-', g + back);
    let most = count + other_count;
    numbers::law_decimal_read_back(count, most);
    numbers::law_decimal_read_back(other_count, most);
    numbers::law_decimal_read_back(total as nat, u64::MAX as nat);
    numbers::law_decimal_read_back(other_total as nat, u64::MAX as nat);
    assert(h + back == g + back);
    assert(h.len() == (h + back).len() - back.len());
    assert(g.len() == (g + back).len() - back.len());
    assert((h + back).take(h.len() as int) =~= h);
    assert((g + back).take(g.len() as int) =~= g);
    assert(h == g);
    lemma_padded_value(numbers::hexadecimal(hash as nat), 16);
    lemma_padded_value(numbers::hexadecimal(other_hash as nat), 16);
    numbers::law_hexadecimal(hash as nat);
    numbers::law_hexadecimal(other_hash as nat);
}

/// The name of a kept package tells the application, the number, the size and the
/// signature of its files, and the name under which it is sent.
pub proof fn law_cache_name(
    app_id: Seq<char>,
    count: nat,
    total: u64,
    hash: u64,
    file_name: Seq<char>,
)
    ensures
        cache_name(app_id, count, total, hash, file_name) == text::joined(
            seq![
                names::sanitized(app_id),
                numbers::decimal(count),
                numbers::decimal(total as nat),
                numbers::zero_padded(numbers::hexadecimal(hash as nat), 16),
                names::sanitized(file_name),
            ],
            seq!['-'],
        ),
{
    let sep = seq!['-'];
    let a = names::sanitized(app_id);
    let b = numbers::decimal(count);
    let c = numbers::decimal(total as nat);
    let d = numbers::zero_padded(numbers::hexadecimal(hash as nat), 16);
    let e = names::sanitized(file_name);
    assert(seq![a, b, c, d, e] =~= seq![a].push(b).push(c).push(d).push(e));
    text::lemma_joined_push(seq![a], sep, b);
    text::lemma_joined_push(seq![a].push(b), sep, c);
    text::lemma_joined_push(seq![a].push(b).push(c), sep, d);
    text::lemma_joined_push(seq![a].push(b).push(c).push(d), sep, e);
    assert(cache_name(app_id, count, total, hash, file_name) =~= a + sep + b + sep + c + sep + d
        + sep + e);
}

/// A file is an application's package exactly where its name begins with the
/// application's identifier and a hyphen.
pub proof fn law_is_package_of(path: PathView, name: Seq<char>, app_id: Seq<char>)
    requires
        paths::file_name_of(path) == Some(name),
    ensures
        is_package_of(path, app_id) == exists|rest: Seq<char>|
            name == #[trigger] (names::sanitized(app_id) + seq!['-'] + rest),
{
    let front = names::sanitized(app_id) + seq!['-'];
    if is_package_of(path, app_id) {
        let n = front.len() as int;
        assert(name.subrange(0, n) =~= front);
        assert(name =~= name.subrange(0, n) + name.skip(n));
        assert(name == names::sanitized(app_id) + seq!['-'] + name.skip(n));
    } else if exists|rest: Seq<char>|
        name == #[trigger] (names::sanitized(app_id) + seq!['-'] + rest) {
        let rest = choose|rest: Seq<char>|
            name == #[trigger] (names::sanitized(app_id) + seq!['-'] + rest);
        assert((front + rest).subrange(0, front.len() as int) =~= front);
    }
}

/// The kept packages are counted, and their sizes added up; folders do not count.
pub proof fn law_cache_counts(a: Seq<CacheEntry>, b: Seq<CacheEntry>, entry: CacheEntry)
    ensures
        count_files(a + b) == capped(count_files(a) as int, count_files(b) as int),
        size_of_files(a + b) == capped(size_of_files(a) as int, size_of_files(b) as int),
        entry.is_file ==> count_files(seq![entry]) == 1 && size_of_files(seq![entry]) == entry.len,
        !entry.is_file ==> count_files(seq![entry]) == 0 && size_of_files(seq![entry]) == 0,
        a.len() == 0 ==> count_files(a) == 0 && size_of_files(a) == 0,
    decreases b.len(),
{
    let one = seq![entry];
    assert(one.drop_last() =~= Seq::empty());
    assert(count_files(one.drop_last()) == 0 && size_of_files(one.drop_last()) == 0);
    assert(one.last() == entry);
    if b.len() == 0 {
        assert(a + b =~= a);
    } else {
        assert((a + b).drop_last() =~= a + b.drop_last());
        assert((a + b).last() == b.last());
        law_cache_counts(a, b.drop_last(), entry);
    }
}

/// An application is packed from its folder or, where that is not there, from the
/// folder of its program.
pub proof fn law_source_of(folder: PathView, there: bool, program: Option<PathView>)
    ensures
        there ==> source_of(folder, there, program) == Ok::<_, Seq<char>>(folder),
        !there && program is None ==> source_of(folder, there, program) == Err::<PathView, _>(
            "软件文件不存在"@,
        ),
        !there ==> (program matches Some(p) ==> (p.parts.len() > 0 && p.parts.last().kind
            == paths::PartKind::Normal ==> (source_of(folder, there, program) matches Ok(q)
            && q.parts == p.parts.drop_last()))),
        !there ==> (program matches Some(p) ==> (p.parts.len() == 0 ==> source_of(
            folder,
            there,
            program,
        ) == Err::<PathView, _>("无法读取软件文件夹名"@))),
{
}

/// A package is named after its source, or after the application where the source
/// has no name, with `.zip` behind it.
pub proof fn law_package_name(source: PathView, app_name: Seq<char>)
    ensures
        paths::file_stem_of(source) matches Some(stem) ==> package_name(source, app_name)
            == names::sanitized(stem) + ".zip"@,
        paths::file_stem_of(source) is None ==> package_name(source, app_name) == names::sanitized(
            app_name,
        ) + ".zip"@,
{
}

/// The files of a signature stand in the order of their paths.
pub proof fn law_signature_in_path_order(files: Seq<SourceFileView>, i: int, j: int)
    requires
        0 <= i < j < files.len(),
    ensures
        ({
            let r = order::sorted::<PackageSourceFile>(files);
            r.len() == files.len() && !paths::parts_less(r[j].path.parts, r[i].path.parts)
        }),
{
    order::law_sorted::<PackageSourceFile>(files);
    let r = order::sorted::<PackageSourceFile>(files);
    assert(!<PackageSourceFile as Ranked>::ranks_below(r[j], r[i]));
}

} // verus!
