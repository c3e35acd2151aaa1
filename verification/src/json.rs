//! JSON objects, read and written with `serde_json`.

use vstd::prelude::*;
use crate::lists;
use crate::text;
use crate::text::push_text;

verus! {

/// A member of an object that is to be written.
#[derive(Debug)]
pub enum JsonField {
    Text(String),
    Flag(bool),
    Count(u64),
    Texts(Vec<String>),
}

pub ghost enum FieldView {
    Text(Seq<char>),
    Flag(bool),
    Count(u64),
    Texts(Seq<Seq<char>>),
}

impl View for JsonField {
    type V = FieldView;

    open spec fn view(&self) -> FieldView {
        match self {
            JsonField::Text(s) => FieldView::Text(s@),
            JsonField::Flag(b) => FieldView::Flag(*b),
            JsonField::Count(n) => FieldView::Count(*n),
            JsonField::Texts(v) => FieldView::Texts(text::texts(v@)),
        }
    }
}

/// The views of the members of an object.
pub open spec fn field_views(fields: Seq<(String, JsonField)>) -> Seq<(Seq<char>, FieldView)> {
    Seq::new(fields.len(), |i: int| (fields[i].0@, fields[i].1@))
}

/// The names of members.
pub open spec fn keys(fields: Seq<(Seq<char>, FieldView)>) -> Seq<Seq<char>> {
    Seq::new(fields.len(), |i: int| fields[i].0)
}

/// The names of members can be read back: no two are the same, and none begins
/// with a dollar sign, which sets names apart that `serde_json` keeps for
/// itself.
pub open spec fn plain_keys(keys: Seq<Seq<char>>) -> bool {
    &&& lists::distinct(keys)
    &&& forall|i: int| 0 <= i < keys.len() ==> (#[trigger] keys[i]).len() > 0 && keys[i][0] != '$'
}

// ---------------------------------------------------------------------------
// Outside functions
// ---------------------------------------------------------------------------

/// The text under a key of the object that the bytes hold.
pub uninterp spec fn text_at(bytes: Seq<u8>, key: Seq<char>) -> Option<Seq<char>>;

/// The truth value under a key of the object that the bytes hold.
pub uninterp spec fn flag_at(bytes: Seq<u8>, key: Seq<char>) -> Option<bool>;

/// The natural number under a key of the object that the bytes hold.
pub uninterp spec fn count_at(bytes: Seq<u8>, key: Seq<char>) -> Option<u64>;

/// The array under a key of the object that the bytes hold; elements that are
/// no texts are given as none.
pub uninterp spec fn list_at(bytes: Seq<u8>, key: Seq<char>) -> Option<Seq<Option<Seq<char>>>>;

/// An object with the given members, without white space.
pub uninterp spec fn object_text(fields: Seq<(Seq<char>, FieldView)>) -> Seq<char>;

/// An object with the given members, indented.
pub uninterp spec fn pretty_object_text(fields: Seq<(Seq<char>, FieldView)>) -> Seq<char>;

/// The member is what reading the bytes gives under the key.
pub open spec fn reads(bytes: Seq<u8>, key: Seq<char>, field: FieldView) -> bool {
    match field {
        FieldView::Text(s) => text_at(bytes, key) == Some(s),
        FieldView::Flag(b) => flag_at(bytes, key) == Some(b),
        FieldView::Count(n) => count_at(bytes, key) == Some(n),
        FieldView::Texts(v) => list_at(bytes, key) == Some(v.map_values(|s: Seq<char>| Some(s))),
    }
}

/// `serde_json::from_slice` into a `serde_json::Value`, then `Value::get` and
/// `Value::as_str`: what is found depends on the bytes and the key alone.
#[verifier::external_body]
fn read_text(bytes: &[u8], key: &str) -> (r: Option<String>)
    ensures
        text::opt_text(r) == text_at(bytes@, key@),
{
    let value: serde_json::Value = serde_json::from_slice(bytes).ok()?;
    value.get(key)?.as_str().map(|s| s.to_string())
}

/// `serde_json::from_slice` into a `serde_json::Value`, then `Value::get` and
/// `Value::as_bool`: what is found depends on the bytes and the key alone.
#[verifier::external_body]
fn read_flag(bytes: &[u8], key: &str) -> (r: Option<bool>)
    ensures
        r == flag_at(bytes@, key@),
{
    let value: serde_json::Value = serde_json::from_slice(bytes).ok()?;
    value.get(key)?.as_bool()
}

/// `serde_json::from_slice` into a `serde_json::Value`, then `Value::get` and
/// `Value::as_u64`: what is found depends on the bytes and the key alone.
#[verifier::external_body]
fn read_count(bytes: &[u8], key: &str) -> (r: Option<u64>)
    ensures
        r == count_at(bytes@, key@),
{
    let value: serde_json::Value = serde_json::from_slice(bytes).ok()?;
    value.get(key)?.as_u64()
}

/// The views of a list of optional strings.
pub open spec fn list_view(v: Option<Vec<Option<String>>>) -> Option<Seq<Option<Seq<char>>>> {
    match v {
        Some(items) => Some(Seq::new(items@.len(), |i: int| text::opt_text(items@[i]))),
        None => None,
    }
}

/// `serde_json::from_slice` into a `serde_json::Value`, then `Value::get`,
/// `Value::as_array` and, on each element, `Value::as_str`: what is found
/// depends on the bytes and the key alone.
#[verifier::external_body]
fn read_list(bytes: &[u8], key: &str) -> (r: Option<Vec<Option<String>>>)
    ensures
        list_view(r) == list_at(bytes@, key@),
{
    let value: serde_json::Value = serde_json::from_slice(bytes).ok()?;
    let items = value.get(key)?.as_array()?;
    Some(items.iter().map(|item| item.as_str().map(|s| s.to_string())).collect())
}

/// `serde_json::Value::to_string` on an object: the text is a function of the
/// members, and reading it under a key gives the member back. How the text is
/// laid out is not stated.
#[verifier::external_body]
fn write_object(fields: Vec<(String, JsonField)>) -> (r: String)
    requires
        plain_keys(keys(field_views(fields@))),
    ensures
        r@ == object_text(field_views(fields@)),
        forall|i: int|
            0 <= i < fields@.len() ==> reads(
                vstd::utf8::encode_utf8(r@),
                #[trigger] field_views(fields@)[i].0,
                field_views(fields@)[i].1,
            ),
{
    let mut map = serde_json::Map::new();
    for (key, field) in fields {
        let value = match field {
            JsonField::Text(s) => serde_json::Value::from(s),
            JsonField::Flag(b) => serde_json::Value::from(b),
            JsonField::Count(n) => serde_json::Value::from(n),
            JsonField::Texts(v) => serde_json::Value::from(v),
        };
        map.insert(key, value);
    }
    serde_json::Value::Object(map).to_string()
}

/// `serde_json::to_string_pretty` on an object, which does not fail: the text
/// is a function of the members, and reading it under a key gives the member
/// back. How the text is laid out is not stated.
#[verifier::external_body]
fn write_pretty_object(fields: Vec<(String, JsonField)>) -> (r: String)
    requires
        plain_keys(keys(field_views(fields@))),
    ensures
        r@ == pretty_object_text(field_views(fields@)),
        forall|i: int|
            0 <= i < fields@.len() ==> reads(
                vstd::utf8::encode_utf8(r@),
                #[trigger] field_views(fields@)[i].0,
                field_views(fields@)[i].1,
            ),
{
    let mut map = serde_json::Map::new();
    for (key, field) in fields {
        let value = match field {
            JsonField::Text(s) => serde_json::Value::from(s),
            JsonField::Flag(b) => serde_json::Value::from(b),
            JsonField::Count(n) => serde_json::Value::from(n),
            JsonField::Texts(v) => serde_json::Value::from(v),
        };
        map.insert(key, value);
    }
    serde_json::to_string_pretty(&serde_json::Value::Object(map)).unwrap_or_default()
}

// ---------------------------------------------------------------------------
// Objects
// ---------------------------------------------------------------------------

/// The text under a key.
pub fn text_field(bytes: &[u8], key: &str) -> (r: Option<String>)
    ensures
        text::opt_text(r) == text_at(bytes@, key@),
{
    read_text(bytes, key)
}

/// The truth value under a key.
pub fn flag_field(bytes: &[u8], key: &str) -> (r: Option<bool>)
    ensures
        r == flag_at(bytes@, key@),
{
    read_flag(bytes, key)
}

/// The natural number under a key.
pub fn count_field(bytes: &[u8], key: &str) -> (r: Option<u64>)
    ensures
        r == count_at(bytes@, key@),
{
    read_count(bytes, key)
}

/// The texts among the elements of a list.
pub open spec fn only_texts(items: Seq<Option<Seq<char>>>) -> Seq<Seq<char>>
    decreases items.len(),
{
    if items.len() == 0 {
        Seq::empty()
    } else {
        let rest = only_texts(items.drop_last());
        match items.last() {
            Some(s) => rest.push(s),
            None => rest,
        }
    }
}

/// The texts of the array under a key; nothing where there is no array.
pub open spec fn texts_at(bytes: Seq<u8>, key: Seq<char>) -> Seq<Seq<char>> {
    match list_at(bytes, key) {
        Some(items) => only_texts(items),
        None => Seq::empty(),
    }
}

/// The texts among the elements of a list.
pub fn keep_texts(items: &Vec<Option<String>>) -> (r: Vec<String>)
    ensures
        text::texts(r@) == only_texts(
            Seq::new(items@.len(), |i: int| text::opt_text(items@[i])),
        ),
{
    let ghost all = Seq::new(items@.len(), |i: int| text::opt_text(items@[i]));
    let mut out: Vec<String> = Vec::new();
    let mut i: usize = 0;
    assert(all.take(0) =~= Seq::empty());
    assert(text::texts(out@) =~= Seq::empty());
    while i < items.len()
        invariant
            i <= items@.len(),
            all == Seq::new(items@.len(), |k: int| text::opt_text(items@[k])),
            text::texts(out@) == only_texts(all.take(i as int)),
        decreases items@.len() - i,
    {
        let ghost before = out@;
        assert(all.take(i + 1).drop_last() =~= all.take(i as int));
        assert(all.take(i + 1).last() == text::opt_text(items@[i as int]));
        match &items[i] {
            Some(s) => {
                out.push(s.clone());
                assert(text::texts(out@) =~= text::texts(before).push(s@));
            },
            None => {},
        }
        i = i + 1;
    }
    assert(all.take(i as int) =~= all);
    out
}

/// The texts of the array under a key.
pub fn texts_field(bytes: &[u8], key: &str) -> (r: Vec<String>)
    ensures
        text::texts(r@) == texts_at(bytes@, key@),
{
    match read_list(bytes, key) {
        Some(items) => keep_texts(&items),
        None => {
            let none: Vec<String> = Vec::new();
            assert(text::texts(none@) =~= Seq::empty());
            none
        },
    }
}

/// Texts that were written as an array are read back.
pub proof fn lemma_only_texts_of_texts(v: Seq<Seq<char>>)
    ensures
        only_texts(v.map_values(|s: Seq<char>| Some(s))) == v,
    decreases v.len(),
{
    let m = v.map_values(|s: Seq<char>| Some(s));
    if v.len() == 0 {
        assert(only_texts(m) =~= v);
    } else {
        lemma_only_texts_of_texts(v.drop_last());
        assert(m.drop_last() =~= v.drop_last().map_values(|s: Seq<char>| Some(s)));
        assert(only_texts(m) =~= v);
    }
}

/// An object with the given members.
pub fn object(fields: Vec<(String, JsonField)>) -> (r: String)
    requires
        plain_keys(keys(field_views(fields@))),
    ensures
        r@ == object_text(field_views(fields@)),
        forall|i: int|
            0 <= i < fields@.len() ==> reads(
                vstd::utf8::encode_utf8(r@),
                #[trigger] field_views(fields@)[i].0,
                field_views(fields@)[i].1,
            ),
{
    write_object(fields)
}

/// An object with the given members, indented.
pub fn pretty_object(fields: Vec<(String, JsonField)>) -> (r: String)
    requires
        plain_keys(keys(field_views(fields@))),
    ensures
        r@ == pretty_object_text(field_views(fields@)),
        forall|i: int|
            0 <= i < fields@.len() ==> reads(
                vstd::utf8::encode_utf8(r@),
                #[trigger] field_views(fields@)[i].0,
                field_views(fields@)[i].1,
            ),
{
    write_pretty_object(fields)
}

/// The key of a problem in an answer.
pub const ERROR_KEY: &'static str = "error";

/// What sets a problem off from what comes before it.
pub const COLON: &'static str = "：";

/// An object that tells of a problem.
pub open spec fn error_text(error: Seq<char>) -> Seq<char> {
    object_text(seq![(ERROR_KEY@, FieldView::Text(error))])
}

/// An object that tells of a problem, and in which the problem is found again.
pub fn error_object(error: &str) -> (r: String)
    ensures
        r@ == error_text(error@),
        text_at(vstd::utf8::encode_utf8(r@), ERROR_KEY@) == Some(error@),
{
    let mut fields: Vec<(String, JsonField)> = Vec::new();
    fields.push((ERROR_KEY.to_string(), JsonField::Text(error.to_string())));
    let ghost views = field_views(fields@);
    assert(views =~= seq![(ERROR_KEY@, FieldView::Text(error@))]);
    proof {
        reveal_strlit("error");
    }
    let r = object(fields);
    assert(views[0].0 == ERROR_KEY@);
    r
}

/// The problem that an answer tells of, set off from what comes before it.
pub open spec fn problem_in(body: Seq<u8>) -> Seq<char> {
    match text_at(body, ERROR_KEY@) {
        Some(e) => COLON@ + e,
        None => Seq::empty(),
    }
}

/// The text of a problem, set off from what comes before it.
pub fn problem_text(error: &Option<String>) -> (r: String)
    ensures
        r@ == (match text::opt_text(*error) {
            Some(e) => COLON@ + e,
            None => Seq::empty(),
        }),
{
    match error {
        Some(e) => {
            let mut out = COLON.to_string();
            push_text(&mut out, e.as_str());
            out
        },
        None => {
            let out = String::new();
            assert(out@ =~= Seq::<char>::empty());
            out
        },
    }
}

/// The problem that an answer tells of.
pub fn response_error_message(body: &[u8]) -> (r: String)
    ensures
        r@ == problem_in(body@),
{
    let error = text_field(body, ERROR_KEY);
    problem_text(&error)
}

/// The texts of a list are picked element by element: a text counts, anything
/// else does not.
pub proof fn law_only_texts(a: Seq<Option<Seq<char>>>, b: Seq<Option<Seq<char>>>, s: Seq<char>)
    ensures
        only_texts(a + b) == only_texts(a) + only_texts(b),
        only_texts(seq![Some(s)]) == seq![s],
        only_texts(seq![None::<Seq<char>>]).len() == 0,
    decreases b.len(),
{
    let one = seq![Some(s)];
    let none = seq![None::<Seq<char>>];
    assert(only_texts(one.drop_last()) =~= Seq::empty());
    assert(only_texts(one) =~= seq![s]);
    assert(only_texts(none.drop_last()) =~= Seq::empty());
    if b.len() == 0 {
        assert(a + b =~= a);
        assert(only_texts(a + b) =~= only_texts(a) + only_texts(b));
    } else {
        law_only_texts(a, b.drop_last(), s);
        assert((a + b).drop_last() =~= a + b.drop_last());
        assert(only_texts(a + b) =~= only_texts(a) + only_texts(b));
    }
}

/// The texts of a list are read as they were written; what is no list has none.
pub proof fn law_texts_at(bytes: Seq<u8>, key: Seq<char>, v: Seq<Seq<char>>)
    ensures
        list_at(bytes, key) == Some(v.map_values(|s: Seq<char>| Some(s))) ==> texts_at(bytes, key)
            == v,
        list_at(bytes, key) is None ==> texts_at(bytes, key).len() == 0,
{
    lemma_only_texts_of_texts(v);
}

/// The problem in an answer is shown behind a colon; an answer without one shows
/// nothing.
pub proof fn law_problem_in(body: Seq<u8>, error: Seq<char>)
    ensures
        text_at(body, "error"@) == Some(error) ==> problem_in(body) == "："@ + error,
        text_at(body, "error"@) is None ==> problem_in(body).len() == 0,
{
}

} // verus!
