//! Paths of the file system.
//!
//! A path is kept as its parts together with the text that stands between
//! them, so that it can be compared part by part and still be shown as it was
//! written.

use vstd::prelude::*;
use crate::names;
use crate::order;
use crate::order::Ranked;
use crate::text;
use crate::text::{chars_of, push_text, replace_char};
use crate::utf8;
use crate::utf8::text_of_bytes;

verus! {

/// The folder of the library below the program.
pub const LIBRARY_DIR: &'static str = "AppManagerLibrary";

/// The folder of the applications in the library.
pub const APPS_DIR: &'static str = "Apps";

/// The folder of the configuration in the library.
pub const CONFIG_DIR: &'static str = "config";

/// The file of the catalogue in the configuration folder.
pub const DATA_FILE: &'static str = "app-data.json";

/// The name of the category of applications that wait for approval.
pub const REVIEW_DIR: &'static str = "未审核软件";

/// The folder of the applications that wait for approval.
pub const REVIEW_FOLDER: &'static str = "review-pending";

/// The folder of finished packages in the configuration folder.
pub const PACKAGE_CACHE_DIR: &'static str = "package-cache";

/// Shown where a path leaves the folder of the applications.
pub const OUTSIDE_APPS: &'static str = "目标路径不在软件库 Apps 目录内，已取消操作";

/// Shown where a path leaves the folder of pending applications.
pub const OUTSIDE_REVIEW: &'static str = "鐩爣璺緞涓嶅湪鏈鏍歌蒋浠剁洰褰曞唴锛屽凡鍙栨秷鎿嶄綔";

/// The dot that sets an extension off.
pub const DOT: u8 = 46;

/// What a part of a path stands for, in the order in which paths are listed.
#[derive(Clone, Copy, PartialEq, Eq, Structural, Debug)]
pub enum PartKind {
    Prefix,
    Root,
    Current,
    Parent,
    Normal,
}

/// A part of a path: its kind, the bytes by which parts of one kind are
/// compared, what stands before it in the path, and how it is shown.
#[derive(Debug)]
pub struct PathPart {
    pub kind: PartKind,
    pub name: Vec<u8>,
    pub lead: String,
    pub shown: String,
}

/// A path: its parts, what stands behind the last of them, and the separator
/// of the system.
#[derive(Debug)]
pub struct FilePath {
    pub parts: Vec<PathPart>,
    pub tail: String,
    pub separator: char,
}

#[verifier::ext_equal]
pub ghost struct PartView {
    pub kind: PartKind,
    pub name: Seq<u8>,
    pub lead: Seq<char>,
    pub shown: Seq<char>,
}

#[verifier::ext_equal]
pub ghost struct PathView {
    pub parts: Seq<PartView>,
    pub tail: Seq<char>,
    pub separator: char,
}

impl View for PathPart {
    type V = PartView;

    open spec fn view(&self) -> PartView {
        PartView { kind: self.kind, name: self.name@, lead: self.lead@, shown: self.shown@ }
    }
}

/// The views of the parts of a path.
pub open spec fn part_views(s: Seq<PathPart>) -> Seq<PartView> {
    Seq::new(s.len(), |i: int| s[i]@)
}

impl View for FilePath {
    type V = PathView;

    open spec fn view(&self) -> PathView {
        PathView { parts: part_views(self.parts@), tail: self.tail@, separator: self.separator }
    }
}

// ---------------------------------------------------------------------------
// Model
// ---------------------------------------------------------------------------

/// The text of the parts of a path.
pub open spec fn run_text(parts: Seq<PartView>) -> Seq<char>
    decreases parts.len(),
{
    if parts.len() == 0 {
        Seq::empty()
    } else {
        run_text(parts.drop_last()) + parts.last().lead + parts.last().shown
    }
}

/// The text of a path.
pub open spec fn path_text(p: PathView) -> Seq<char> {
    run_text(p.parts) + p.tail
}

/// Two parts stand for the same thing.
pub open spec fn same_part(a: PartView, b: PartView) -> bool {
    a.kind == b.kind && a.name == b.name
}

/// The path `p` lies below `base` or is `base`.
pub open spec fn lies_in(p: PathView, base: PathView) -> bool {
    base.parts.len() <= p.parts.len() && forall|i: int|
        0 <= i < base.parts.len() ==> same_part(#[trigger] p.parts[i], base.parts[i])
}

/// Two paths have the same parts.
pub open spec fn same_path(a: PathView, b: PathView) -> bool {
    a.parts.len() == b.parts.len() && lies_in(a, b)
}

/// The path without its last part.
pub open spec fn parent_of(p: PathView) -> Option<PathView> {
    if p.parts.len() == 0 || p.parts.last().kind == PartKind::Prefix || p.parts.last().kind
        == PartKind::Root {
        None
    } else {
        Some(PathView { parts: p.parts.drop_last(), tail: Seq::empty(), separator: p.separator })
    }
}

/// The bytes of the name of the file or folder that a path leads to.
pub open spec fn name_bytes(p: PathView) -> Option<Seq<u8>> {
    if p.parts.len() > 0 && p.parts.last().kind == PartKind::Normal {
        Some(p.parts.last().name)
    } else {
        None
    }
}

/// The name of the file or folder that a path leads to, where it is text.
pub open spec fn file_name_of(p: PathView) -> Option<Seq<char>> {
    match name_bytes(p) {
        Some(name) => utf8::as_text(name),
        None => None,
    }
}

/// The name without its extension, where it is text.
pub open spec fn file_stem_of(p: PathView) -> Option<Seq<char>> {
    match name_bytes(p) {
        Some(name) => utf8::as_text(names::stem_and_extension(name, DOT).0),
        None => None,
    }
}

/// The extension of the name, where there is one and it is text.
pub open spec fn extension_of(p: PathView) -> Option<Seq<char>> {
    match name_bytes(p) {
        Some(name) => match names::stem_and_extension(name, DOT).1 {
            Some(e) => utf8::as_text(e),
            None => None,
        },
        None => None,
    }
}

/// The extension of the path is `wanted`, whatever the case of its letters.
pub open spec fn has_extension(p: PathView, wanted: Seq<char>) -> bool {
    extension_of(p) matches Some(e) && text::lower_ascii(e) == wanted
}

/// A character that separates the parts of a path.
pub open spec fn is_separator(c: char, separator: char) -> bool {
    c == '/' || (separator == '\\' && c == '\\')
}

/// A text that is no more than a drive, such as `C:`.
pub open spec fn is_drive(s: Seq<char>) -> bool {
    s.len() == 2 && s[1] == ':' && (('a' <= s[0] && s[0] <= 'z') || ('A' <= s[0] && s[0] <= 'Z'))
}

/// What comes between a path and a name that is put behind it.
pub open spec fn gap(p: PathView) -> Seq<char> {
    let t = path_text(p);
    if t.len() == 0 || is_separator(t.last(), p.separator) || (p.separator == '\\' && is_drive(t)) {
        Seq::empty()
    } else {
        seq![p.separator]
    }
}

/// The path with a part put behind it.
pub open spec fn with_part(p: PathView, part: PartView) -> PathView {
    PathView {
        parts: p.parts.push(PartView { lead: p.tail + gap(p), ..part }),
        tail: Seq::empty(),
        separator: p.separator,
    }
}

/// A name as a part of a path.
pub open spec fn part_of_name(name: Seq<char>) -> PartView {
    PartView {
        kind: if name == seq!['.'] {
            PartKind::Current
        } else if name == seq!['.', '.'] {
            PartKind::Parent
        } else {
            PartKind::Normal
        },
        name: vstd::utf8::encode_utf8(name),
        lead: Seq::empty(),
        shown: name,
    }
}

/// The path with a name put behind it. A single dot adds nothing to a path
/// that has parts.
pub open spec fn joined(p: PathView, name: Seq<char>) -> PathView {
    if name == seq!['.'] && p.parts.len() > 0 {
        PathView { parts: p.parts, tail: p.tail + gap(p) + name, separator: p.separator }
    } else {
        with_part(p, part_of_name(name))
    }
}

/// The path with another name in place of its own; a path without a name gets
/// the name put behind it.
pub open spec fn renamed(p: PathView, name: Seq<char>) -> PathView {
    match (name_bytes(p), parent_of(p)) {
        (Some(_), Some(parent)) => joined(parent, name),
        _ => joined(p, name),
    }
}

/// A path with the parts of a relative path put behind it.
pub open spec fn with_parts(p: PathView, rest: Seq<PartView>) -> PathView {
    if rest.len() == 0 {
        PathView { parts: p.parts, tail: p.tail + gap(p), separator: p.separator }
    } else {
        let first = PartView { lead: p.tail + gap(p), ..rest[0] };
        PathView {
            parts: p.parts + seq![first] + rest.skip(1),
            tail: Seq::empty(),
            separator: p.separator,
        }
    }
}

/// Where `p` leads after `from` was moved to `to`, if it lay in it.
pub open spec fn moved_along(p: PathView, from: PathView, to: PathView) -> Option<PathView> {
    if lies_in(p, from) {
        Some(with_parts(to, p.parts.skip(from.parts.len() as int)))
    } else {
        None
    }
}

/// A path with a relative path put behind it. A dot at the beginning of the
/// relative path adds nothing to a path that has parts.
pub open spec fn joined_path(p: PathView, rel: PathView) -> PathView {
    let dropped = p.parts.len() > 0 && rel.parts.len() > 0 && rel.parts[0].kind
        == PartKind::Current;
    let rest = if dropped {
        rel.parts.skip(1)
    } else {
        rel.parts
    };
    let lead = if dropped {
        p.tail + gap(p) + rel.parts[0].shown
    } else {
        p.tail + gap(p)
    };
    if rest.len() == 0 {
        PathView { parts: p.parts, tail: lead + rel.tail, separator: p.separator }
    } else {
        let first = PartView {
            lead: if dropped {
                lead + rest[0].lead
            } else {
                lead
            },
            ..rest[0]
        };
        PathView {
            parts: p.parts + seq![first] + rest.skip(1),
            tail: rel.tail,
            separator: p.separator,
        }
    }
}

/// The place of a kind of part among the others.
pub open spec fn kind_rank(k: PartKind) -> int {
    match k {
        PartKind::Prefix => 0,
        PartKind::Root => 1,
        PartKind::Current => 2,
        PartKind::Parent => 3,
        PartKind::Normal => 4,
    }
}

/// Bytes in dictionary order.
pub open spec fn bytes_less(a: Seq<u8>, b: Seq<u8>) -> bool
    decreases a.len(),
{
    if b.len() == 0 {
        false
    } else if a.len() == 0 {
        true
    } else if a[0] != b[0] {
        a[0] < b[0]
    } else {
        bytes_less(a.drop_first(), b.drop_first())
    }
}

/// Parts by their kind, then by their name.
pub open spec fn part_less(a: PartView, b: PartView) -> bool {
    kind_rank(a.kind) < kind_rank(b.kind) || (a.kind == b.kind && bytes_less(a.name, b.name))
}

/// Lists of parts in dictionary order.
pub open spec fn parts_less(a: Seq<PartView>, b: Seq<PartView>) -> bool
    decreases a.len(),
{
    if b.len() == 0 {
        false
    } else if a.len() == 0 {
        true
    } else if !same_part(a[0], b[0]) {
        part_less(a[0], b[0])
    } else {
        parts_less(a.drop_first(), b.drop_first())
    }
}

// ---------------------------------------------------------------------------
// Laws
// ---------------------------------------------------------------------------

proof fn lemma_bytes_order(a: Seq<u8>, b: Seq<u8>, c: Seq<u8>)
    ensures
        !bytes_less(a, a),
        bytes_less(a, b) && bytes_less(b, c) ==> bytes_less(a, c),
        !bytes_less(b, a) && !bytes_less(c, b) ==> !bytes_less(c, a),
    decreases a.len() + b.len() + c.len(),
{
    if a.len() > 0 && b.len() > 0 && c.len() > 0 {
        lemma_bytes_order(a.drop_first(), b.drop_first(), c.drop_first());
    } else if a.len() > 0 {
        lemma_bytes_order(a.drop_first(), Seq::empty(), Seq::empty());
    }
}

proof fn lemma_bytes_total(a: Seq<u8>, b: Seq<u8>)
    ensures
        a != b ==> bytes_less(a, b) || bytes_less(b, a),
        !(bytes_less(a, b) && bytes_less(b, a)),
    decreases a.len(),
{
    if a.len() > 0 && b.len() > 0 {
        lemma_bytes_total(a.drop_first(), b.drop_first());
        if a.drop_first() == b.drop_first() && a[0] == b[0] {
            assert(a =~= seq![a[0]] + a.drop_first());
            assert(b =~= seq![b[0]] + b.drop_first());
        }
    } else if a.len() == 0 && b.len() == 0 {
        assert(a =~= b);
    }
}

proof fn lemma_part_order(a: PartView, b: PartView, c: PartView)
    ensures
        !part_less(a, a),
        part_less(a, b) && part_less(b, c) ==> part_less(a, c),
        !part_less(b, a) && !part_less(c, b) ==> !part_less(c, a),
        !same_part(a, b) ==> part_less(a, b) || part_less(b, a),
        !(part_less(a, b) && part_less(b, a)),
{
    lemma_bytes_order(a.name, b.name, c.name);
    lemma_bytes_total(a.name, b.name);
    assert(kind_rank(a.kind) == kind_rank(b.kind) ==> a.kind == b.kind);
    assert(kind_rank(c.kind) == kind_rank(b.kind) ==> c.kind == b.kind);
}

proof fn lemma_parts_order(a: Seq<PartView>, b: Seq<PartView>, c: Seq<PartView>)
    ensures
        !parts_less(a, a),
        parts_less(a, b) && parts_less(b, c) ==> parts_less(a, c),
        !parts_less(b, a) && !parts_less(c, b) ==> !parts_less(c, a),
    decreases a.len() + b.len() + c.len(),
{
    if a.len() > 0 && b.len() > 0 && c.len() > 0 {
        lemma_parts_order(a.drop_first(), b.drop_first(), c.drop_first());
        lemma_part_order(a[0], b[0], c[0]);
        lemma_part_order(b[0], c[0], a[0]);
        lemma_part_order(c[0], a[0], b[0]);
        lemma_part_order(a[0], c[0], b[0]);
        lemma_part_order(b[0], a[0], c[0]);
        lemma_part_order(c[0], b[0], a[0]);
    } else if a.len() > 0 {
        lemma_parts_order(a.drop_first(), Seq::empty(), Seq::empty());
    }
}

/// Of two paths one is listed before the other, unless they have the same parts.
pub proof fn law_paths_ranked(a: PathView, b: PathView)
    ensures
        same_path(a, b) == (!parts_less(a.parts, b.parts) && !parts_less(b.parts, a.parts)),
{
    lemma_parts_total(a.parts, b.parts);
}

proof fn lemma_parts_total(a: Seq<PartView>, b: Seq<PartView>)
    ensures
        (!parts_less(a, b) && !parts_less(b, a)) == (a.len() == b.len() && forall|i: int|
            0 <= i < b.len() ==> same_part(#[trigger] a[i], b[i])),
    decreases a.len(),
{
    if a.len() > 0 && b.len() > 0 {
        let p = a.drop_first();
        let q = b.drop_first();
        lemma_part_order(a[0], b[0], a[0]);
        lemma_parts_total(p, q);
        if same_part(a[0], b[0]) {
            if p.len() == q.len() && forall|i: int|
                0 <= i < q.len() ==> same_part(#[trigger] p[i], q[i]) {
                assert forall|i: int| 0 <= i < b.len() implies same_part(#[trigger] a[i], b[i]) by {
                    if i > 0 {
                        assert(same_part(p[i - 1], q[i - 1]));
                    }
                }
            } else if a.len() == b.len() {
                let k = choose|k: int| 0 <= k < q.len() && !same_part(#[trigger] p[k], q[k]);
                assert(!same_part(a[k + 1], b[k + 1]));
            }
        }
    }
}

/// What is put into a folder lies in it, and its parent is the folder.
pub proof fn law_joined_lies_inside(p: PathView, name: Seq<char>)
    ensures
        lies_in(joined(p, name), p),
        name != seq!['.'] ==> (parent_of(joined(p, name)) matches Some(parent) && same_path(
            parent,
            p,
        )),
        path_text(joined(p, name)) == path_text(p) + gap(p) + name,
{
    let j = joined(p, name);
    if name == seq!['.'] && p.parts.len() > 0 {
        assert(path_text(j) =~= path_text(p) + gap(p) + name);
    } else {
        assert(j.parts.drop_last() =~= p.parts);
        assert(path_text(j) =~= path_text(p) + gap(p) + name);
    }
}

/// A plain name that was put behind a path is the name that the path has.
pub proof fn law_joined_name(p: PathView, name: Seq<char>)
    requires
        !names::is_dots(name),
    ensures
        file_name_of(joined(p, name)) == Some(name),
{
    utf8::law_text_read_back(name);
}

/// A relative path that is put behind a folder leads into it.
pub proof fn law_joined_path_lies_inside(p: PathView, rel: PathView)
    ensures
        lies_in(joined_path(p, rel), p),
{
}

/// Lying in a folder is reflexive and passes from folder to folder.
pub proof fn law_lies_in(a: PathView, b: PathView, c: PathView)
    ensures
        lies_in(a, a),
        lies_in(a, b) && lies_in(b, c) ==> lies_in(a, c),
{
    if lies_in(a, b) && lies_in(b, c) {
        assert forall|i: int| 0 <= i < c.parts.len() implies same_part(
            #[trigger] a.parts[i],
            c.parts[i],
        ) by {
            assert(same_part(b.parts[i], c.parts[i]));
        }
    }
}

/// A file keeps its place in a folder that is moved: behind the parts of where
/// the folder came to lie stand exactly the parts that stood behind the folder,
/// in their order.
pub proof fn law_moved_along(p: PathView, from: PathView, to: PathView)
    requires
        lies_in(p, from),
    ensures
        moved_along(p, from, to) matches Some(q) && lies_in(q, to) && q.parts.len() - to.parts.len()
            == p.parts.len() - from.parts.len() && (forall|i: int|
            0 <= i < to.parts.len() ==> #[trigger] q.parts[i] == to.parts[i]) && (forall|i: int|
            from.parts.len() <= i < p.parts.len() ==> {
                let moved = q.parts[to.parts.len() + i - from.parts.len()];
                moved.kind == (#[trigger] p.parts[i]).kind && moved.name == p.parts[i].name
                    && moved.shown == p.parts[i].shown
            }),
{
    let q = moved_along(p, from, to)->0;
    let n = from.parts.len() as int;
    let rest = p.parts.skip(n);
    if rest.len() > 0 {
        assert forall|i: int| n <= i < p.parts.len() implies {
            let moved = q.parts[to.parts.len() + i - n];
            moved.kind == (#[trigger] p.parts[i]).kind && moved.name == p.parts[i].name
                && moved.shown == p.parts[i].shown
        } by {
            assert(rest[i - n] == p.parts[i]);
            if i > n {
                assert(rest.skip(1)[i - n - 1] == rest[i - n]);
            }
        }
    }
}

// ---------------------------------------------------------------------------
// Code
// ---------------------------------------------------------------------------

fn same_bytes(a: &Vec<u8>, b: &Vec<u8>) -> (r: bool)
    ensures
        r == (a@ == b@),
{
    if a.len() != b.len() {
        return false;
    }
    let mut i: usize = 0;
    while i < a.len()
        invariant
            i <= a@.len(),
            a@.len() == b@.len(),
            forall|j: int| 0 <= j < i ==> a@[j] == b@[j],
        decreases a@.len() - i,
    {
        if a[i] != b[i] {
            return false;
        }
        i = i + 1;
    }
    assert(a@ =~= b@);
    true
}

fn bytes_below(a: &Vec<u8>, b: &Vec<u8>) -> (r: bool)
    ensures
        r == bytes_less(a@, b@),
{
    let mut i: usize = 0;
    assert(a@.skip(0) =~= a@);
    assert(b@.skip(0) =~= b@);
    while i < a.len() && i < b.len()
        invariant
            i <= a@.len(),
            i <= b@.len(),
            bytes_less(a@, b@) == bytes_less(a@.skip(i as int), b@.skip(i as int)),
        decreases a@.len() - i,
    {
        if a[i] != b[i] {
            return a[i] < b[i];
        }
        assert(a@.skip(i as int).drop_first() =~= a@.skip(i + 1));
        assert(b@.skip(i as int).drop_first() =~= b@.skip(i + 1));
        i = i + 1;
    }
    i < b.len()
}

fn rank_of(k: PartKind) -> (r: u8)
    ensures
        r == kind_rank(k),
{
    match k {
        PartKind::Prefix => 0,
        PartKind::Root => 1,
        PartKind::Current => 2,
        PartKind::Parent => 3,
        PartKind::Normal => 4,
    }
}

impl PathPart {
    /// Whether two parts stand for the same thing.
    pub fn same(&self, other: &PathPart) -> (r: bool)
        ensures
            r == same_part(self@, other@),
    {
        self.kind == other.kind && same_bytes(&self.name, &other.name)
    }
}

impl Clone for PathPart {
    fn clone(&self) -> (r: Self)
        ensures
            r@ == self@,
    {
        let name = crate::model::copy_bytes(&self.name);
        PathPart { kind: self.kind, name, lead: self.lead.clone(), shown: self.shown.clone() }
    }
}

impl Clone for FilePath {
    fn clone(&self) -> (r: Self)
        ensures
            r@ == self@,
    {
        let mut parts: Vec<PathPart> = Vec::new();
        let mut i: usize = 0;
        while i < self.parts.len()
            invariant
                i <= self.parts@.len(),
                part_views(parts@) == part_views(self.parts@).take(i as int),
            decreases self.parts@.len() - i,
        {
            let ghost before = parts@;
            parts.push(self.parts[i].clone());
            assert(part_views(parts@) =~= part_views(before).push(self.parts@[i as int]@));
            assert(part_views(self.parts@).take(i + 1) =~= part_views(self.parts@).take(
                i as int,
            ).push(self.parts@[i as int]@));
            i = i + 1;
        }
        assert(part_views(self.parts@).take(i as int) =~= part_views(self.parts@));
        FilePath { parts, tail: self.tail.clone(), separator: self.separator }
    }
}

impl Ranked for FilePath {
    open spec fn ranks_below(a: PathView, b: PathView) -> bool {
        parts_less(a.parts, b.parts)
    }

    proof fn lemma_order(a: PathView, b: PathView, c: PathView) {
        lemma_parts_order(a.parts, b.parts, c.parts);
    }

    fn below(&self, other: &Self) -> (r: bool) {
        let mut i: usize = 0;
        let ghost a = self@.parts;
        let ghost b = other@.parts;
        assert(a.skip(0) =~= a);
        assert(b.skip(0) =~= b);
        while i < self.parts.len() && i < other.parts.len()
            invariant
                a == part_views(self.parts@),
                b == part_views(other.parts@),
                i <= self.parts@.len(),
                i <= other.parts@.len(),
                parts_less(a, b) == parts_less(a.skip(i as int), b.skip(i as int)),
            decreases self.parts@.len() - i,
        {
            let x = &self.parts[i];
            let y = &other.parts[i];
            assert(a.skip(i as int)[0] == x@ && b.skip(i as int)[0] == y@);
            if !x.same(y) {
                return rank_of(x.kind) < rank_of(y.kind) || (x.kind == y.kind && bytes_below(
                    &x.name,
                    &y.name,
                ));
            }
            assert(a.skip(i as int).drop_first() =~= a.skip(i + 1));
            assert(b.skip(i as int).drop_first() =~= b.skip(i + 1));
            i = i + 1;
        }
        i < other.parts.len()
    }
}

/// A byte name as its stem and its extension.
fn split_name(name: &Vec<u8>) -> (r: (Vec<u8>, Option<Vec<u8>>))
    ensures
        (r.0@, match r.1 {
            Some(e) => Some(e@),
            None => None,
        }) == names::stem_and_extension(name@, DOT),
{
    let mut i: usize = name.len();
    while i > 0
        invariant
            i <= name@.len(),
            forall|j: int| i <= j < name@.len() ==> name@[j] != DOT,
        decreases i,
    {
        i = i - 1;
        if name[i] == DOT {
            proof {
                names::lemma_last_index_is(name@, DOT, i as int);
            }
            let two_dots = name.len() == 2 && name[0] == DOT && name[1] == DOT;
            assert(two_dots == (name@ == seq![DOT, DOT])) by {
                if two_dots {
                    assert(name@ =~= seq![DOT, DOT]);
                }
            }
            if i > 0 && !two_dots {
                let stem = crate::model::copy_bytes(&name[0..i]);
                let extension = crate::model::copy_bytes(&name[i + 1..name.len()]);
                assert(stem@ =~= name@.take(i as int));
                assert(extension@ =~= name@.skip(i + 1));
                return (stem, Some(extension));
            }
            return (crate::model::copy_bytes(name), None);
        }
    }
    proof {
        names::lemma_last_index_none(name@, DOT);
    }
    (crate::model::copy_bytes(name), None)
}

fn is_separator_char(c: char, separator: char) -> (r: bool)
    ensures
        r == is_separator(c, separator),
{
    c == '/' || (separator == '\\' && c == '\\')
}

impl FilePath {
    /// The text of the path.
    pub fn to_text(&self) -> (r: String)
        ensures
            r@ == path_text(self@),
    {
        let mut out = String::new();
        let mut i: usize = 0;
        while i < self.parts.len()
            invariant
                i <= self.parts@.len(),
                out@ == run_text(self@.parts.take(i as int)),
            decreases self.parts@.len() - i,
        {
            assert(self@.parts.take(i + 1).drop_last() =~= self@.parts.take(i as int));
            push_text(&mut out, self.parts[i].lead.as_str());
            push_text(&mut out, self.parts[i].shown.as_str());
            i = i + 1;
        }
        assert(self@.parts.take(i as int) =~= self@.parts);
        push_text(&mut out, self.tail.as_str());
        out
    }

    /// Whether the path lies below `base` or is `base`.
    pub fn starts_with(&self, base: &FilePath) -> (r: bool)
        ensures
            r == lies_in(self@, base@),
    {
        if base.parts.len() > self.parts.len() {
            return false;
        }
        let mut i: usize = 0;
        while i < base.parts.len()
            invariant
                i <= base.parts@.len(),
                base.parts@.len() <= self.parts@.len(),
                forall|j: int|
                    0 <= j < i ==> same_part(#[trigger] self@.parts[j], base@.parts[j]),
            decreases base.parts@.len() - i,
        {
            if !self.parts[i].same(&base.parts[i]) {
                assert(!same_part(self@.parts[i as int], base@.parts[i as int]));
                return false;
            }
            i = i + 1;
        }
        true
    }

    /// Whether two paths have the same parts.
    pub fn same(&self, other: &FilePath) -> (r: bool)
        ensures
            r == same_path(self@, other@),
    {
        self.parts.len() == other.parts.len() && self.starts_with(other)
    }

    /// The path without its last part.
    pub fn parent(&self) -> (r: Option<FilePath>)
        ensures
            match r {
                Some(p) => parent_of(self@) == Some(p@),
                None => parent_of(self@) is None,
            },
    {
        let n: usize = self.parts.len();
        if n == 0 {
            return None;
        }
        assert(self@.parts.last() == self.parts@[n - 1]@);
        match self.parts[n - 1].kind {
            PartKind::Prefix => None,
            PartKind::Root => None,
            _ => {
                let mut p = self.clone();
                let _ = p.parts.pop();
                p.tail = String::new();
                assert(p@.parts =~= self@.parts.drop_last()) by {
                    assert forall|i: int| 0 <= i < n - 1 implies p@.parts[i] == self@.parts[i] by {}
                }
                assert(p.tail@ =~= Seq::<char>::empty());
                Some(p)
            },
        }
    }

    /// The name of the file or folder that the path leads to.
    pub fn file_name(&self) -> (r: Option<String>)
        ensures
            text::opt_text(r) == file_name_of(self@),
    {
        let n: usize = self.parts.len();
        if n == 0 {
            return None;
        }
        assert(self@.parts.last() == self.parts@[n - 1]@);
        if self.parts[n - 1].kind == PartKind::Normal {
            text_of_bytes(&self.parts[n - 1].name)
        } else {
            None
        }
    }

    /// The name without its extension.
    pub fn file_stem(&self) -> (r: Option<String>)
        ensures
            text::opt_text(r) == file_stem_of(self@),
    {
        let n: usize = self.parts.len();
        if n == 0 {
            return None;
        }
        assert(self@.parts.last() == self.parts@[n - 1]@);
        if self.parts[n - 1].kind == PartKind::Normal {
            let (stem, _) = split_name(&self.parts[n - 1].name);
            text_of_bytes(&stem)
        } else {
            None
        }
    }

    /// The extension of the name.
    pub fn extension(&self) -> (r: Option<String>)
        ensures
            text::opt_text(r) == extension_of(self@),
    {
        let n: usize = self.parts.len();
        if n == 0 {
            return None;
        }
        assert(self@.parts.last() == self.parts@[n - 1]@);
        if self.parts[n - 1].kind == PartKind::Normal {
            let (_, extension) = split_name(&self.parts[n - 1].name);
            match &extension {
                Some(e) => text_of_bytes(e),
                None => None,
            }
        } else {
            None
        }
    }

    /// The text that comes before a name that is put behind the path.
    fn lead_for_next(&self) -> (r: String)
        ensures
            r@ == self@.tail + gap(self@),
    {
        let whole = self.to_text();
        let v = chars_of(whole.as_str());
        let n: usize = v.len();
        let windows = self.separator == '\\';
        let drive = n == 2 && v[1] == ':' && (('a' <= v[0] && v[0] <= 'z') || ('A' <= v[0] && v[0]
            <= 'Z'));
        let mut lead = self.tail.clone();
        if n > 0 && !is_separator_char(v[n - 1], self.separator) && !(windows && drive) {
            lead.push(self.separator);
            assert(lead@ =~= self@.tail + gap(self@));
        }
        assert(lead@ =~= self@.tail + gap(self@));
        lead
    }

    /// The path with a part put behind it.
    pub fn join_part(&self, part: &PathPart) -> (r: FilePath)
        ensures
            r@ == with_part(self@, part@),
    {
        let lead = self.lead_for_next();
        let mut p = self.clone();
        let mut last = part.clone();
        last.lead = lead;
        p.parts.push(last);
        p.tail = String::new();
        assert(p@.parts =~= with_part(self@, part@).parts) by {
            assert forall|i: int| 0 <= i < self@.parts.len() implies p@.parts[i]
                == self@.parts[i] by {}
        }
        assert(p.tail@ =~= Seq::<char>::empty());
        p
    }

    /// The path with a name put behind it.
    pub fn join(&self, name: &str) -> (r: FilePath)
        ensures
            r@ == joined(self@, name@),
    {
        let v = chars_of(name);
        let one_dot = v.len() == 1 && v[0] == '.';
        let two_dots = v.len() == 2 && v[0] == '.' && v[1] == '.';
        assert(one_dot == (name@ == seq!['.'])) by {
            if one_dot {
                assert(name@ =~= seq!['.']);
            }
        }
        assert(two_dots == (name@ == seq!['.', '.'])) by {
            if two_dots {
                assert(name@ =~= seq!['.', '.']);
            }
        }
        if one_dot && self.parts.len() > 0 {
            let mut tail = self.lead_for_next();
            push_text(&mut tail, name);
            let mut p = self.clone();
            p.tail = tail;
            return p;
        }
        let kind = if one_dot {
            PartKind::Current
        } else if two_dots {
            PartKind::Parent
        } else {
            PartKind::Normal
        };
        let part = PathPart {
            kind,
            name: crate::model::copy_bytes(name.as_bytes()),
            lead: String::new(),
            shown: name.to_string(),
        };
        assert(part.lead@ =~= Seq::<char>::empty());
        self.join_part(&part)
    }

    /// The path with another name in place of its own.
    pub fn with_file_name(&self, name: &str) -> (r: FilePath)
        ensures
            r@ == renamed(self@, name@),
    {
        let n: usize = self.parts.len();
        if n > 0 {
            assert(self@.parts.last() == self.parts@[n - 1]@);
            if self.parts[n - 1].kind == PartKind::Normal {
                match self.parent() {
                    Some(parent) => {
                        return parent.join(name);
                    },
                    None => {},
                }
            }
        }
        self.join(name)
    }

    /// Where the path leads after `from` was moved to `to`, if it lay in it.
    pub fn moved(&self, from: &FilePath, to: &FilePath) -> (r: Option<FilePath>)
        ensures
            match r {
                Some(p) => moved_along(self@, from@, to@) == Some(p@),
                None => moved_along(self@, from@, to@) is None,
            },
    {
        if !self.starts_with(from) {
            return None;
        }
        let start: usize = from.parts.len();
        let mut p = to.clone();
        let lead = to.lead_for_next();
        if start == self.parts.len() {
            p.tail = lead;
            return Some(p);
        }
        let mut first = self.parts[start].clone();
        first.lead = lead;
        p.parts.push(first);
        p.tail = String::new();
        let ghost rest = self@.parts.skip(start as int);
        let ghost wanted = with_parts(to@, rest);
        assert(p@.parts =~= wanted.parts.take((to@.parts.len() + 1) as int));
        let mut i: usize = start + 1;
        while i < self.parts.len()
            invariant
                start + 1 <= i <= self.parts@.len(),
                rest == self@.parts.skip(start as int),
                wanted == with_parts(to@, rest),
                rest.len() > 0,
                wanted.parts.len() == to@.parts.len() + self@.parts.len() - start,
                p@.parts == wanted.parts.take(to@.parts.len() + (i - start)),
                p.tail@.len() == 0,
                p.separator == to.separator,
            decreases self.parts@.len() - i,
        {
            let ghost before = p@.parts;
            p.parts.push(self.parts[i].clone());
            assert(p@.parts =~= before.push(self@.parts[i as int]));
            assert(wanted.parts[to@.parts.len() + (i - start)] == rest[i - start]);
            assert(wanted.parts.take(to@.parts.len() + (i + 1 - start)) =~= wanted.parts.take(
                to@.parts.len() + (i - start),
            ).push(self@.parts[i as int]));
            i = i + 1;
        }
        assert(wanted.parts.take(to@.parts.len() + (i - start)) =~= wanted.parts);
        assert(p.tail@ =~= Seq::<char>::empty());
        Some(p)
    }

    /// The path with a relative path put behind it.
    pub fn join_path(&self, rel: &FilePath) -> (r: FilePath)
        ensures
            r@ == joined_path(self@, rel@),
    {
        let total: usize = rel.parts.len();
        let dropped = self.parts.len() > 0 && total > 0 && rel.parts[0].kind == PartKind::Current;
        let mut lead = self.lead_for_next();
        let mut i: usize = 0;
        if dropped {
            assert(rel@.parts[0] == rel.parts@[0]@);
            push_text(&mut lead, rel.parts[0].shown.as_str());
            i = 1;
        }
        let ghost start = i as int;
        let ghost rest = rel@.parts.skip(start);
        let ghost wanted = joined_path(self@, rel@);
        assert(!dropped ==> rest =~= rel@.parts);
        let mut p = self.clone();
        if i == total {
            push_text(&mut lead, rel.tail.as_str());
            p.tail = lead;
            assert(p@ == wanted);
            return p;
        }
        let mut first = rel.parts[i].clone();
        assert(rest[0] == rel.parts@[i as int]@);
        if dropped {
            push_text(&mut lead, first.lead.as_str());
        }
        first.lead = lead;
        p.parts.push(first);
        p.tail = rel.tail.clone();
        i = i + 1;
        let ghost base = self@.parts.len() as int;
        assert(p@.parts =~= wanted.parts.take(base + (i - start)));
        while i < total
            invariant
                total == rel.parts@.len(),
                0 <= start < i <= total,
                base == self@.parts.len(),
                rest == rel@.parts.skip(start),
                wanted == joined_path(self@, rel@),
                wanted.parts.len() == base + total - start,
                forall|k: int| 0 < k < rest.len() ==> #[trigger] wanted.parts[base + k] == rest[k],
                p@.parts == wanted.parts.take(base + (i - start)),
                p.tail@ == rel@.tail,
                p.separator == self.separator,
            decreases total - i,
        {
            let ghost before = p@.parts;
            p.parts.push(rel.parts[i].clone());
            assert(p@.parts =~= before.push(rel@.parts[i as int]));
            assert(rest[i - start] == rel@.parts[i as int]);
            assert(wanted.parts[base + (i - start)] == rest[i - start]);
            assert(wanted.parts.take(base + (i + 1 - start)) =~= wanted.parts.take(
                base + (i - start),
            ).push(rel@.parts[i as int]));
            i = i + 1;
        }
        assert(wanted.parts.take(base + (i - start)) =~= wanted.parts);
        p
    }

    /// Whether the extension of the path is `wanted`, which is given in lower
    /// case.
    pub fn extension_is(&self, wanted: &str) -> (r: bool)
        ensures
            r == has_extension(self@, wanted@),
    {
        match self.extension() {
            Some(e) => {
                let lower = text::to_lower_ascii(e.as_str());
                text::same_text(lower.as_str(), wanted)
            },
            None => false,
        }
    }
}

/// A path as it is shown and kept.
pub fn path_to_string(path: &FilePath) -> (r: String)
    ensures
        r@ == path_text(path@),
{
    native_path_to_string(path)
}

/// A path as the system writes it.
pub fn native_path_to_string(path: &FilePath) -> (r: String)
    ensures
        r@ == path_text(path@),
{
    path.to_text()
}

/// A path that came in, with the separators of the system.
pub open spec fn incoming(path: Seq<char>, windows: bool) -> Seq<char> {
    if windows {
        text::replaced(path, '/', '\\')
    } else {
        path
    }
}

/// Puts the separators of the system into a path that came in.
pub fn normalize_incoming_path(path: &str, windows: bool) -> (r: String)
    ensures
        r@ == incoming(path@, windows),
{
    if windows {
        replace_char(path, '/', '\\')
    } else {
        path.to_string()
    }
}

/// Refuses a path that lies outside the folder of the applications. Both paths
/// are given as the system resolves them.
pub fn ensure_inside_apps_dir(apps: &FilePath, target: &FilePath) -> (r: Result<(), String>)
    ensures
        match r {
            Ok(_) => lies_in(target@, apps@),
            Err(e) => !lies_in(target@, apps@) && e@ == OUTSIDE_APPS@,
        },
{
    if !target.starts_with(apps) {
        return Err(OUTSIDE_APPS.to_string());
    }
    Ok(())
}

/// Refuses a path that lies outside the folder of pending applications. Both
/// paths are given as the system resolves them.
pub fn ensure_inside_review_dir(review: &FilePath, target: &FilePath) -> (r: Result<(), String>)
    ensures
        match r {
            Ok(_) => lies_in(target@, review@),
            Err(e) => !lies_in(target@, review@) && e@ == OUTSIDE_REVIEW@,
        },
{
    if !target.starts_with(review) {
        return Err(OUTSIDE_REVIEW.to_string());
    }
    Ok(())
}

/// The text of a path is the text of its parts, one behind the other.
pub proof fn law_run_text(a: Seq<PartView>, b: Seq<PartView>, part: PartView)
    ensures
        run_text(a + b) == run_text(a) + run_text(b),
        run_text(seq![part]) == part.lead + part.shown,
        a.len() == 0 ==> run_text(a).len() == 0,
    decreases b.len(),
{
    let one = seq![part];
    assert(one.drop_last() =~= Seq::empty());
    assert(run_text(one.drop_last()) =~= Seq::empty());
    assert(one.last() == part);
    assert(run_text(one) =~= part.lead + part.shown);
    if b.len() == 0 {
        assert(a + b =~= a);
        assert(run_text(a + b) =~= run_text(a) + run_text(b));
    } else {
        assert((a + b).drop_last() =~= a + b.drop_last());
        law_run_text(a, b.drop_last(), part);
        assert(run_text(a + b) =~= run_text(a) + run_text(b));
    }
}

/// A name that is put behind a path becomes its last part and leaves the others
/// as they are. In the text one separator stands before it, and none where the
/// path is empty or ends in one.
pub proof fn law_joined_parts(p: PathView, name: Seq<char>)
    requires
        name != seq!['.'],
    ensures
        ({
            let q = joined(p, name);
            let t = path_text(p);
            &&& q.parts.len() == p.parts.len() + 1
            &&& q.parts.drop_last() == p.parts
            &&& q.parts.last().name == vstd::utf8::encode_utf8(name)
            &&& q.parts.last().shown == name
            &&& q.parts.last().kind == if name == seq!['.', '.'] {
                PartKind::Parent
            } else {
                PartKind::Normal
            }
            &&& q.separator == p.separator
            &&& t.len() == 0 || t.last() == '/' ==> path_text(q) == t + name
            &&& t.len() > 0 && t.last() != '/' && p.separator == '/' ==> path_text(q) == t + seq!['/']
                + name
            &&& p.separator == '\\' && t.len() > 0 && t.last() == '\\' ==> path_text(q) == t + name
            &&& p.separator == '\\' && t.len() > 2 && t.last() != '/' && t.last() != '\\'
                ==> path_text(q) == t + seq!['\\'] + name
        }),
{
    law_joined_lies_inside(p, name);
    let q = joined(p, name);
    assert(q.parts.drop_last() =~= p.parts);
    assert(path_text(p) + Seq::<char>::empty() + name =~= path_text(p) + name);
}

/// The parent of a path has all parts but the last one, and putting the last name
/// behind it leads back to the path.
pub proof fn law_parent(p: PathView, name: Seq<char>)
    ensures
        parent_of(p) is Some == (p.parts.len() > 0 && p.parts.last().kind != PartKind::Prefix
            && p.parts.last().kind != PartKind::Root),
        parent_of(p) matches Some(parent) ==> parent.parts == p.parts.drop_last() && lies_in(
            p,
            parent,
        ),
        file_name_of(p) == Some(name) && !names::is_dots(name) ==> (parent_of(p) matches Some(parent)
            && same_path(joined(parent, name), p)),
{
    broadcast use vstd::utf8::group_utf8_lib;

    if file_name_of(p) == Some(name) && !names::is_dots(name) {
        let parent = parent_of(p)->0;
        let q = joined(parent, name);
        vstd::utf8::decode_utf8_encode_utf8(p.parts.last().name);
        assert(p.parts.last().name == vstd::utf8::encode_utf8(name));
        assert forall|i: int| 0 <= i < p.parts.len() implies same_part(
            #[trigger] q.parts[i],
            p.parts[i],
        ) by {
            if i < p.parts.len() - 1 {
                assert(q.parts[i] == p.parts[i]);
            }
        }
    }
}

proof fn lemma_narrow_dot(c: u32)
    by (bit_vector)
    requires
        c <= 0x7F,
    ensures
        (c & 0x7F) as u8 == c as u8,
        (c as u8 == 46u8) == (c == 46u32),
{
}

proof fn lemma_no_dot_bytes(s: Seq<char>)
    requires
        !s.contains('.'),
    ensures
        !vstd::utf8::encode_utf8(s).contains(DOT),
    decreases s.len(),
{
    if s.len() > 0 {
        let c = s[0];
        let u = c as u32;
        let first = vstd::utf8::encode_scalar(u);
        let rest = vstd::utf8::encode_utf8(s.drop_first());
        assert(s.contains(s[0]));
        assert(!s.drop_first().contains('.')) by {
            assert forall|i: int| 0 <= i < s.drop_first().len() implies s.drop_first()[i] != '.' by {
                assert(s.drop_first()[i] == s[i + 1]);
                assert(s.contains(s[i + 1]));
            }
        }
        lemma_no_dot_bytes(s.drop_first());
        crate::wire::lemma_wide_bytes(u);
        vstd::utf8::char_is_scalar(c);
        if u <= 0x7F {
            lemma_narrow_dot(u);
            assert(u != 46) by {
                vstd::utf8::char_u32_cast(c, u);
            }
        }
        let all = vstd::utf8::encode_utf8(s);
        assert(all == first + rest);
        assert forall|i: int| 0 <= i < all.len() implies #[trigger] all[i] != DOT by {
            if i >= first.len() {
                assert(all[i] == rest[i - first.len()]);
                assert(rest.contains(rest[i - first.len()]));
            }
        }
    }
}

/// A file's name falls apart at its last dot into the stem and the extension; a
/// name without a dot is its own stem and has no extension. An extension is told
/// apart without regard to the case of its ASCII letters.
pub proof fn law_stem_of_file(p: PathView, stem: Seq<char>, extension: Seq<char>, wanted: Seq<char>)
    requires
        !extension.contains('.'),
    ensures
        stem.len() > 0 && !names::is_dots(stem + seq!['.'] + extension) ==> {
            let q = joined(p, stem + seq!['.'] + extension);
            &&& file_stem_of(q) == Some(stem)
            &&& extension_of(q) == Some(extension)
            &&& has_extension(q, wanted) == (text::lower_ascii(extension) == wanted)
        },
        file_stem_of(joined(p, extension)) == Some(extension),
        extension_of(joined(p, extension)) is None,
        !has_extension(joined(p, extension), wanted),
{
    let name = stem + seq!['.'] + extension;
    let s = vstd::utf8::encode_utf8(stem);
    let e = vstd::utf8::encode_utf8(extension);
    let dot = seq!['.'];
    assert(vstd::utf8::is_ascii_chars(dot));
    vstd::utf8::is_ascii_chars_encode_utf8(dot);
    assert(vstd::utf8::encode_utf8(dot)[0] == dot[0] as u8);
    assert(vstd::utf8::encode_utf8(dot) =~= seq![DOT]);
    text::lemma_encode_concat(stem + dot, extension);
    text::lemma_encode_concat(stem, dot);
    assert(vstd::utf8::encode_utf8(name) == s + seq![DOT] + e);
    lemma_no_dot_bytes(extension);
    utf8::law_text_read_back(stem);
    utf8::law_text_read_back(extension);
    names::law_stem_and_extension(s, DOT, e);
    if stem.len() > 0 && !names::is_dots(name) {
        if s.len() == 0 {
            text::lemma_encode_injective(stem, Seq::empty());
        }
        if s == seq![DOT] && e.len() == 0 {
            text::lemma_encode_injective(stem, dot);
            text::lemma_encode_injective(extension, Seq::empty());
            assert(name =~= seq!['.', '.']);
        }
    }
    if names::is_dots(extension) {
        assert(extension.contains(extension[0]));
    }
}

/// A relative path that is put behind a folder leads to its own parts there, all
/// of them and in their order; only a leading `.` is dropped, which leads
/// nowhere.
pub proof fn law_joined_path_parts(p: PathView, rel: PathView)
    ensures
        ({
            let q = joined_path(p, rel);
            let n = p.parts.len() as int;
            let skipped: int = if n > 0 && rel.parts.len() > 0 && rel.parts[0].kind
                == PartKind::Current {
                1
            } else {
                0
            };
            &&& q.parts.len() == n + rel.parts.len() - skipped
            &&& forall|i: int| 0 <= i < n ==> #[trigger] q.parts[i] == p.parts[i]
            &&& forall|i: int|
                skipped <= i < rel.parts.len() ==> {
                    let part = q.parts[n + i - skipped];
                    part.kind == (#[trigger] rel.parts[i]).kind && part.name == rel.parts[i].name
                        && part.shown == rel.parts[i].shown
                }
            &&& q.separator == p.separator
        }),
{
    let q = joined_path(p, rel);
    let n = p.parts.len() as int;
    let dropped = n > 0 && rel.parts.len() > 0 && rel.parts[0].kind == PartKind::Current;
    let skipped: int = if dropped {
        1
    } else {
        0
    };
    let rest = if dropped {
        rel.parts.skip(1)
    } else {
        rel.parts
    };
    assert forall|i: int| skipped <= i < rel.parts.len() implies {
        let part = q.parts[n + i - skipped];
        part.kind == (#[trigger] rel.parts[i]).kind && part.name == rel.parts[i].name && part.shown
            == rel.parts[i].shown
    } by {
        assert(rest[i - skipped] == rel.parts[i]);
        if i > skipped {
            assert(rest.skip(1)[i - skipped - 1] == rest[i - skipped]);
        }
    }
}

/// A renamed file lies where it lay, under the new name.
pub proof fn law_renamed(p: PathView, name: Seq<char>)
    requires
        !names::is_dots(name),
        p.parts.len() > 0,
        p.parts.last().kind == PartKind::Normal,
    ensures
        file_name_of(renamed(p, name)) == Some(name),
        renamed(p, name).parts.drop_last() == p.parts.drop_last(),
        renamed(p, name).parts.len() == p.parts.len(),
        parent_of(p) matches Some(parent) && path_text(renamed(p, name)) == path_text(parent) + gap(
            parent,
        ) + name,
{
    let parent = parent_of(p)->0;
    law_joined_lies_inside(parent, name);
    law_joined_name(parent, name);
    law_joined_parts(parent, name);
}

/// A path that comes from another system is written with backslashes on Windows,
/// where it has slashes, and is left as it is elsewhere.
pub proof fn law_incoming(path: Seq<char>)
    ensures
        incoming(path, false) == path,
        incoming(path, true).len() == path.len(),
        forall|i: int|
            0 <= i < path.len() ==> #[trigger] incoming(path, true)[i] == if path[i] == '/' {
                '\\'
            } else {
                path[i]
            },
        incoming(incoming(path, true), true) == incoming(path, true),
{
    assert(incoming(incoming(path, true), true) =~= incoming(path, true));
}

/// Bytes are ordered by their first difference; what begins a run of bytes stands
/// before it.
pub proof fn law_bytes_less(p: Seq<u8>, c: u8, x: Seq<u8>, d: u8, y: Seq<u8>)
    ensures
        c != d ==> bytes_less(p + seq![c] + x, p + seq![d] + y) == (c < d),
        bytes_less(p, p + x) == (x.len() > 0),
        !bytes_less(p + x, p),
    decreases p.len(),
{
    let a = p + seq![c] + x;
    let b = p + seq![d] + y;
    if p.len() == 0 {
        assert(a[0] == c && b[0] == d);
    } else {
        law_bytes_less(p.drop_first(), c, x, d, y);
        assert(a.drop_first() =~= p.drop_first() + seq![c] + x);
        assert(b.drop_first() =~= p.drop_first() + seq![d] + y);
        assert((p + x).drop_first() =~= p.drop_first() + x);
        assert(a[0] == p[0] && b[0] == p[0] && (p + x)[0] == p[0]);
    }
}

/// Paths are ordered by the first part in which they differ: names by their
/// bytes, and before a name stand the prefix, the root, `.` and `..`, in this
/// order. A folder stands before what lies in it.
pub proof fn law_parts_less(
    p: Seq<PartView>,
    a: PartView,
    x: Seq<PartView>,
    b: PartView,
    y: Seq<PartView>,
)
    ensures
        a.kind == b.kind && a.name != b.name ==> parts_less(p + seq![a] + x, p + seq![b] + y)
            == bytes_less(a.name, b.name),
        a.kind != b.kind && b.kind == PartKind::Normal ==> parts_less(
            p + seq![a] + x,
            p + seq![b] + y,
        ),
        a.kind == PartKind::Prefix && b.kind == PartKind::Root ==> parts_less(
            p + seq![a] + x,
            p + seq![b] + y,
        ),
        a.kind == PartKind::Root && (b.kind == PartKind::Current || b.kind == PartKind::Parent)
            ==> parts_less(p + seq![a] + x, p + seq![b] + y),
        a.kind == PartKind::Current && b.kind == PartKind::Parent ==> parts_less(
            p + seq![a] + x,
            p + seq![b] + y,
        ),
        parts_less(p, p + x) == (x.len() > 0),
        !parts_less(p + x, p),
    decreases p.len(),
{
    let s = p + seq![a] + x;
    let t = p + seq![b] + y;
    if p.len() == 0 {
        assert(s[0] == a && t[0] == b);
    } else {
        law_parts_less(p.drop_first(), a, x, b, y);
        assert(s.drop_first() =~= p.drop_first() + seq![a] + x);
        assert(t.drop_first() =~= p.drop_first() + seq![b] + y);
        assert((p + x).drop_first() =~= p.drop_first() + x);
        assert(s[0] == p[0] && t[0] == p[0] && (p + x)[0] == p[0]);
    }
}

/// A path is named by its last part, where that is a plain name, and has no name
/// where it ends in a root, a prefix, `.` or `..`.
pub proof fn law_file_name(p: PathView, name: Seq<char>)
    ensures
        p.parts.len() > 0 && p.parts.last().kind == PartKind::Normal && p.parts.last().name
            == vstd::utf8::encode_utf8(name) ==> file_name_of(p) == Some(name),
        p.parts.len() == 0 || p.parts.last().kind != PartKind::Normal ==> file_name_of(p) is None
            && file_stem_of(p) is None && extension_of(p) is None,
        file_name_of(p) == Some(name) ==> p.parts.last().name == vstd::utf8::encode_utf8(name),
{
    utf8::law_text_read_back(name);
    if p.parts.len() > 0 {
        utf8::law_as_text(p.parts.last().name, name);
    }
}

/// A path lies in a folder exactly where it begins with all parts of the folder:
/// so a folder does not lie in what it holds, two names in one folder lie in each
/// other only where they are equal, and two paths that lie in each other are the
/// same.
pub proof fn law_lies_outside(p: PathView, a: Seq<char>, b: Seq<char>, q: PathView)
    requires
        !names::is_dots(a),
        !names::is_dots(b),
    ensures
        !lies_in(p, joined(p, a)),
        lies_in(joined(p, a), joined(p, b)) == (a == b),
        same_path(joined(p, a), joined(p, b)) == (a == b),
        same_path(p, q) == (lies_in(p, q) && lies_in(q, p)),
        lies_in(p, q) ==> forall|i: int|
            0 <= i < q.parts.len() ==> i < p.parts.len() && p.parts[i].kind == (
            #[trigger] q.parts[i]).kind && p.parts[i].name == q.parts[i].name,
{
    law_joined_parts(p, a);
    law_joined_parts(p, b);
    let x = joined(p, a);
    let y = joined(p, b);
    let n = p.parts.len() as int;
    assert forall|i: int| 0 <= i < n implies x.parts[i] == p.parts[i] && y.parts[i]
        == p.parts[i] by {
        assert(x.parts.drop_last()[i] == x.parts[i]);
        assert(y.parts.drop_last()[i] == y.parts[i]);
    }
    if lies_in(x, y) {
        assert(same_part(x.parts[n], y.parts[n]));
        text::lemma_encode_injective(a, b);
    }
    if a == b {
        assert forall|i: int| 0 <= i < y.parts.len() implies same_part(
            #[trigger] x.parts[i],
            y.parts[i],
        ) by {}
    }
    if lies_in(p, q) && lies_in(q, p) {
        assert(p.parts.len() == q.parts.len());
    }
    if same_path(p, q) {
        assert forall|i: int| 0 <= i < p.parts.len() implies same_part(
            #[trigger] q.parts[i],
            p.parts[i],
        ) by {
            assert(same_part(p.parts[i], q.parts[i]));
        }
    }
}

/// Paths with the same parts lie in the same folders.
pub proof fn law_same_parts(p: PathView, q: PathView, base: PathView)
    requires
        base.parts.len() <= p.parts.len(),
        forall|i: int|
            0 <= i < base.parts.len() ==> (#[trigger] p.parts[i]).kind == base.parts[i].kind
                && p.parts[i].name == base.parts[i].name,
        same_path(p, q),
    ensures
        lies_in(p, base),
        lies_in(q, base),
{
    assert forall|i: int| 0 <= i < base.parts.len() implies same_part(
        #[trigger] q.parts[i],
        base.parts[i],
    ) by {
        assert(same_part(p.parts[i], q.parts[i]));
    }
}

/// A part that is put behind a path is its last part, as it is.
pub proof fn law_with_part(p: PathView, part: PartView)
    ensures
        with_part(p, part).parts.drop_last() == p.parts,
        with_part(p, part).parts.last().kind == part.kind,
        with_part(p, part).parts.last().name == part.name,
        with_part(p, part).parts.last().shown == part.shown,
        path_text(with_part(p, part)) == path_text(p) + gap(p) + part.shown,
{
    let q = with_part(p, part);
    assert(q.parts.drop_last() =~= p.parts);
    assert(path_text(q) =~= path_text(p) + gap(p) + part.shown);
}

/// Sorted paths stand in the order of their parts: of two, none stands before one
/// that has to stand before it.
pub proof fn law_sorted_paths(s: Seq<PathView>, i: int, j: int)
    requires
        0 <= i < j < s.len(),
    ensures
        ({
            let r = order::sorted::<FilePath>(s);
            r.len() == s.len() && !parts_less(r[j].parts, r[i].parts)
        }),
{
    order::law_sorted::<FilePath>(s);
    let r = order::sorted::<FilePath>(s);
    assert(!<FilePath as Ranked>::ranks_below(r[j], r[i]));
}

/// The text of a path behind another is the text of both, with what separates
/// them between; that of a moved file is the text of where its folder came to lie
/// and of the parts behind the folder.
pub proof fn law_texts_of_joined_paths(p: PathView, rel: PathView, from: PathView, to: PathView)
    ensures
        rel.parts.len() > 0 && rel.parts[0].lead.len() == 0 && (rel.parts[0].kind
            != PartKind::Current || p.parts.len() == 0) ==> path_text(joined_path(p, rel))
            == path_text(p) + gap(p) + path_text(rel),
        p.parts.len() > from.parts.len() ==> (moved_along(p, from, to) matches Some(q) ==> path_text(
            q,
        ) == path_text(to) + gap(to) + p.parts[from.parts.len() as int].shown + run_text(
            p.parts.skip(from.parts.len() as int + 1),
        )),
        p.parts.len() == from.parts.len() ==> (moved_along(p, from, to) matches Some(q)
            ==> path_text(q) == path_text(to) + gap(to)),
        parent_of(p) matches Some(parent) ==> path_text(parent) == run_text(p.parts.drop_last())
            && parent.separator == p.separator,
{
    if rel.parts.len() > 0 && rel.parts[0].lead.len() == 0 && (rel.parts[0].kind
        != PartKind::Current || p.parts.len() == 0) {
        let first = PartView { lead: p.tail + gap(p), ..rel.parts[0] };
        let rest = rel.parts.skip(1);
        law_run_text(p.parts + seq![first], rest, first);
        law_run_text(p.parts, seq![first], first);
        law_run_text(seq![rel.parts[0]], rest, rel.parts[0]);
        assert(seq![rel.parts[0]] + rest =~= rel.parts);
        assert(path_text(joined_path(p, rel)) =~= path_text(p) + gap(p) + path_text(rel));
    }
    if lies_in(p, from) && p.parts.len() > from.parts.len() {
        let n = from.parts.len() as int;
        let rest = p.parts.skip(n);
        let first = PartView { lead: to.tail + gap(to), ..rest[0] };
        law_run_text(to.parts + seq![first], rest.skip(1), first);
        law_run_text(to.parts, seq![first], first);
        assert(rest.skip(1) =~= p.parts.skip(n + 1));
        assert(path_text(with_parts(to, rest)) =~= path_text(to) + gap(to) + rest[0].shown
            + run_text(p.parts.skip(n + 1)));
    }
    if lies_in(p, from) && p.parts.len() == from.parts.len() {
        assert(path_text(moved_along(p, from, to)->0) =~= path_text(to) + gap(to));
    }
    if let Some(parent) = parent_of(p) {
        assert(path_text(parent) =~= run_text(p.parts.drop_last()));
    }
}

} // verus!
