//! The icons of applications.
//!
//! In the catalogue in memory an icon is a data URL; in the file of the
//! catalogue it is the path of an image file in the application's folder.

use vstd::prelude::*;
use crate::base64;
use crate::base64::{base64_decode, base64_encode, INVALID_ICON_CONTENT};
use crate::layout;
use crate::layout::app_icon_path;
use crate::model;
use crate::model::{AppData, AppDataView, AppView, ManagedApp};
use crate::names;
use crate::paths;
use crate::paths::{path_to_string, FilePath, PathView, DOT};
use crate::split::{begins_with, split_text_once};
use crate::text;
use crate::text::{push_text, same_text, to_lower_ascii, trim};
use crate::utf8;

verus! {

/// Shown where an icon's file is not there.
pub const ICON_MISSING: &'static str = "图标文件不存在";

/// Shown where an image is of a kind that icons cannot have.
pub const ICON_UNSUPPORTED: &'static str = "图标仅支持 png、jpg、jpeg、gif、webp、ico、bmp";

/// Shown where an icon's data URL is too long.
pub const ICON_TOO_LARGE: &'static str = "图标图片不能超过 4 MB";

/// Shown where an icon is no data URL.
pub const ICON_MALFORMED: &'static str = "图标图片格式无效";

/// What a data URL of an image begins with.
pub const DATA_IMAGE: &'static str = "data:image/";

/// What comes before the kind of the data in a data URL.
pub const DATA_SCHEME: &'static str = "data:";

/// What comes before the contents in a data URL.
pub const BASE64_MARK: &'static str = ";base64,";

/// The longest data URL of an icon, in bytes.
pub const MAX_ICON_BYTES: usize = 4194304;

/// What is known of an image file.
pub enum ImageFile {
    Missing,
    Unreadable(String),
    Read(Vec<u8>),
}

/// An image file and what is known of it.
pub struct LoadedImage {
    pub path: FilePath,
    pub what: ImageFile,
}

/// An icon that is to be written: the file, its contents, and the files that
/// it takes the place of.
#[derive(Debug)]
pub struct IconFile {
    pub path: FilePath,
    pub bytes: Vec<u8>,
    pub obsolete: Vec<FilePath>,
}

// ---------------------------------------------------------------------------
// Model
// ---------------------------------------------------------------------------

/// The extension of the file of an image whose data URL begins so.
pub open spec fn extension_for(mime: Seq<char>) -> Option<Seq<char>> {
    if mime == "data:image/png"@ {
        Some("png"@)
    } else if mime == "data:image/jpeg"@ {
        Some("jpg"@)
    } else if mime == "data:image/gif"@ {
        Some("gif"@)
    } else if mime == "data:image/webp"@ {
        Some("webp"@)
    } else if mime == "data:image/x-icon"@ || mime == "data:image/vnd.microsoft.icon"@ {
        Some("ico"@)
    } else if mime == "data:image/bmp"@ {
        Some("bmp"@)
    } else {
        None
    }
}

/// The kind of image that a file of the extension holds.
pub open spec fn mime_for(extension: Seq<char>) -> Option<Seq<char>> {
    if extension == "png"@ {
        Some("image/png"@)
    } else if extension == "jpg"@ || extension == "jpeg"@ {
        Some("image/jpeg"@)
    } else if extension == "gif"@ {
        Some("image/gif"@)
    } else if extension == "webp"@ {
        Some("image/webp"@)
    } else if extension == "ico"@ {
        Some("image/x-icon"@)
    } else if extension == "bmp"@ {
        Some("image/bmp"@)
    } else {
        None
    }
}

/// The kind of image that the path leads to.
pub open spec fn mime_of_path(path: PathView) -> Option<Seq<char>> {
    match paths::extension_of(path) {
        Some(e) => mime_for(text::lower_ascii(e)),
        None => None,
    }
}

/// The data URL of an image.
pub open spec fn data_url(mime: Seq<char>, bytes: Seq<u8>) -> Seq<char> {
    DATA_SCHEME@ + mime + BASE64_MARK@ + base64::encoded(bytes)
}

/// The image of a data URL: what comes before the mark, and the contents.
pub open spec fn decoded_image(value: Seq<char>) -> Result<(Seq<char>, Seq<u8>), Seq<char>> {
    match text::split_once(text::trimmed(value), BASE64_MARK@) {
        None => Err(ICON_MALFORMED@),
        Some((mime, payload)) => if extension_for(mime) is None {
            Err(ICON_UNSUPPORTED@)
        } else {
            match base64::decoded(payload) {
                Some(bytes) => if bytes.len() == 0 {
                    Err(INVALID_ICON_CONTENT@)
                } else {
                    Ok((mime, bytes))
                },
                None => Err(INVALID_ICON_CONTENT@),
            }
        },
    }
}

/// The data URL of an image file.
pub open spec fn loaded_url(image: LoadedImage) -> Result<Seq<char>, Seq<char>> {
    match image.what {
        ImageFile::Missing => Err(ICON_MISSING@),
        ImageFile::Unreadable(e) => if mime_of_path(image.path@) is None {
            Err(ICON_UNSUPPORTED@)
        } else {
            Err(e@)
        },
        ImageFile::Read(bytes) => match mime_of_path(image.path@) {
            Some(mime) => Ok(data_url(mime, bytes@)),
            None => Err(ICON_UNSUPPORTED@),
        },
    }
}

/// The extensions that an icon's file can have.
pub open spec fn icon_extensions() -> Seq<Seq<char>> {
    seq!["png"@, "jpg"@, "gif"@, "webp"@, "ico"@, "bmp"@]
}

/// The files that an application's icon can lie in.
pub open spec fn icon_paths(folder: PathView) -> Seq<PathView> {
    Seq::new(6, |i: int| layout::icon_path(folder, icon_extensions()[i]))
}

/// The icon is a data URL.
pub open spec fn is_data_image(icon: Option<Seq<char>>) -> bool {
    icon matches Some(value) && DATA_IMAGE@.is_prefix_of(value)
}

/// The application as it comes out of the file of the catalogue, with the
/// image that its icon's path leads to.
pub open spec fn hydrated(app: AppView, image: Option<LoadedImage>) -> AppView {
    if app.icon_data_url is None || is_data_image(app.icon_data_url) {
        app
    } else {
        AppView {
            icon_data_url: match image {
                Some(i) => match loaded_url(i) {
                    Ok(url) => Some(url),
                    Err(_) => None,
                },
                None => None,
            },
            ..app
        }
    }
}

// ---------------------------------------------------------------------------
// Code
// ---------------------------------------------------------------------------

/// The extension of the file of an image whose data URL begins so.
pub fn icon_extension_from_mime(mime: &str) -> (r: Result<&'static str, String>)
    ensures
        match r {
            Ok(e) => extension_for(mime@) == Some(e@),
            Err(e) => extension_for(mime@) is None && e@ == ICON_UNSUPPORTED@,
        },
{
    if same_text(mime, "data:image/png") {
        Ok("png")
    } else if same_text(mime, "data:image/jpeg") {
        Ok("jpg")
    } else if same_text(mime, "data:image/gif") {
        Ok("gif")
    } else if same_text(mime, "data:image/webp") {
        Ok("webp")
    } else if same_text(mime, "data:image/x-icon") || same_text(
        mime,
        "data:image/vnd.microsoft.icon",
    ) {
        Ok("ico")
    } else if same_text(mime, "data:image/bmp") {
        Ok("bmp")
    } else {
        Err(ICON_UNSUPPORTED.to_string())
    }
}

fn image_mime(path: &FilePath) -> (r: Option<&'static str>)
    ensures
        match r {
            Some(m) => mime_of_path(path@) == Some(m@),
            None => mime_of_path(path@) is None,
        },
{
    match path.extension() {
        Some(e) => {
            let lower = to_lower_ascii(e.as_str());
            let l = lower.as_str();
            if same_text(l, "png") {
                Some("image/png")
            } else if same_text(l, "jpg") || same_text(l, "jpeg") {
                Some("image/jpeg")
            } else if same_text(l, "gif") {
                Some("image/gif")
            } else if same_text(l, "webp") {
                Some("image/webp")
            } else if same_text(l, "ico") {
                Some("image/x-icon")
            } else if same_text(l, "bmp") {
                Some("image/bmp")
            } else {
                None
            }
        },
        None => None,
    }
}

/// The data URL of an image file.
pub fn read_image_as_data_url(image: &LoadedImage) -> (r: Result<String, String>)
    ensures
        match r {
            Ok(url) => loaded_url(*image) == Ok::<Seq<char>, Seq<char>>(url@),
            Err(e) => loaded_url(*image) == Err::<Seq<char>, Seq<char>>(e@),
        },
{
    match &image.what {
        ImageFile::Missing => {
            return Err(ICON_MISSING.to_string());
        },
        _ => {},
    }
    let mime = match image_mime(&image.path) {
        Some(m) => m,
        None => {
            return Err(ICON_UNSUPPORTED.to_string());
        },
    };
    match &image.what {
        ImageFile::Missing => Err(ICON_MISSING.to_string()),
        ImageFile::Unreadable(e) => Err(e.clone()),
        ImageFile::Read(bytes) => {
            let mut url = DATA_SCHEME.to_string();
            push_text(&mut url, mime);
            push_text(&mut url, BASE64_MARK);
            let payload = base64_encode(bytes);
            push_text(&mut url, payload.as_str());
            Ok(url)
        },
    }
}

/// The image of a data URL.
pub fn decode_image_data_url(value: &str) -> (r: Result<(String, Vec<u8>), String>)
    ensures
        match r {
            Ok((mime, bytes)) => decoded_image(value@) == Ok::<_, Seq<char>>((mime@, bytes@)),
            Err(e) => decoded_image(value@) == Err::<(Seq<char>, Seq<u8>), _>(e@),
        },
{
    let clean = trim(value);
    match split_text_once(clean.as_str(), BASE64_MARK) {
        None => Err(ICON_MALFORMED.to_string()),
        Some((mime, payload)) => {
            match icon_extension_from_mime(mime.as_str()) {
                Ok(_) => {},
                Err(e) => {
                    return Err(e);
                },
            }
            match base64_decode(payload.as_str()) {
                Ok(bytes) => {
                    if bytes.len() == 0 {
                        return Err(INVALID_ICON_CONTENT.to_string());
                    }
                    Ok((mime, bytes))
                },
                Err(e) => Err(e),
            }
        },
    }
}

/// A data URL that can be an application's icon, as it is kept.
pub fn validate_image_data_url(value: &str) -> (r: Result<String, String>)
    ensures
        ({
            let clean = text::trimmed(value@);
            if vstd::utf8::encode_utf8(clean).len() > MAX_ICON_BYTES {
                r matches Err(e) && e@ == ICON_TOO_LARGE@
            } else {
                match decoded_image(clean) {
                    Ok(_) => r matches Ok(url) && url@ == clean,
                    Err(problem) => r matches Err(e) && e@ == problem,
                }
            }
        }),
{
    let clean = trim(value);
    if clean.as_str().as_bytes().len() > MAX_ICON_BYTES {
        return Err(ICON_TOO_LARGE.to_string());
    }
    match decode_image_data_url(clean.as_str()) {
        Ok(_) => Ok(clean),
        Err(e) => Err(e),
    }
}

/// Whether the application's icon is a data URL, which goes into a file of its
/// own when the catalogue is saved.
pub fn stores_icon(app: &ManagedApp) -> (r: bool)
    ensures
        r == is_data_image(app@.icon_data_url),
{
    match &app.icon_data_url {
        Some(value) => begins_with(value.as_str(), DATA_IMAGE),
        None => false,
    }
}

/// The files that an application's icon can lie in.
fn all_icon_paths(folder: &FilePath) -> (r: Vec<FilePath>)
    ensures
        model::views(r@) == icon_paths(folder@),
{
    let mut out: Vec<FilePath> = Vec::new();
    out.push(app_icon_path(folder, "png"));
    out.push(app_icon_path(folder, "jpg"));
    out.push(app_icon_path(folder, "gif"));
    out.push(app_icon_path(folder, "webp"));
    out.push(app_icon_path(folder, "ico"));
    out.push(app_icon_path(folder, "bmp"));
    assert(model::views(out@) =~= icon_paths(folder@));
    out
}

/// Puts the path of an image file in the place of an icon that is a data URL.
/// The file that is to be written is returned.
pub fn persist_icon_reference(app: &mut ManagedApp, folder: &FilePath) -> (r: Result<
    Option<IconFile>,
    String,
>)
    ensures
        match r {
            Ok(None) => !is_data_image(old(app)@.icon_data_url) && final(app)@ == old(app)@,
            Ok(Some(file)) => {
                &&& is_data_image(old(app)@.icon_data_url)
                &&& decoded_image(old(app)@.icon_data_url->0) matches Ok((mime, bytes))
                &&& file.bytes@ == bytes
                &&& file.path@ == layout::icon_path(folder@, extension_for(mime)->0)
                &&& model::views(file.obsolete@) == icon_paths(folder@)
                &&& final(app)@ == (AppView {
                    icon_data_url: Some(paths::path_text(file.path@)),
                    ..old(app)@
                })
            },
            Err(e) => {
                &&& is_data_image(old(app)@.icon_data_url)
                &&& decoded_image(old(app)@.icon_data_url->0) == Err::<(Seq<char>, Seq<u8>), _>(e@)
                &&& final(app)@ == old(app)@
            },
        },
{
    if !stores_icon(app) {
        return Ok(None);
    }
    let value = match &app.icon_data_url {
        Some(value) => value.clone(),
        None => {
            return Ok(None);
        },
    };
    let (mime, bytes) = match decode_image_data_url(value.as_str()) {
        Ok(image) => image,
        Err(e) => {
            return Err(e);
        },
    };
    match icon_extension_from_mime(mime.as_str()) {
        Ok(extension) => {
            let path = app_icon_path(folder, extension);
            app.icon_data_url = Some(path_to_string(&path));
            Ok(Some(IconFile { path, bytes, obsolete: all_icon_paths(folder) }))
        },
        Err(e) => Err(e),
    }
}

/// Puts data URLs in the place of icons that are paths of image files; an
/// image that cannot be had leaves no icon. The images are given application
/// by application.
pub fn hydrate_icon_data_urls(data: &mut AppData, images: &Vec<Option<LoadedImage>>)
    requires
        images@.len() == old(data)@.apps.len(),
    ensures
        final(data)@ == (AppDataView {
            apps: Seq::new(
                old(data)@.apps.len(),
                |i: int| hydrated(old(data)@.apps[i], images@[i]),
            ),
            ..old(data)@
        }),
{
    let ghost before = data@;
    let mut i: usize = 0;
    while i < data.apps.len()
        invariant
            before == old(data)@,
            i <= data.apps@.len(),
            data.apps@.len() == before.apps.len(),
            images@.len() == before.apps.len(),
            data@ == (AppDataView { apps: data@.apps, ..before }),
            forall|j: int|
                0 <= j < i ==> #[trigger] data@.apps[j] == hydrated(before.apps[j], images@[j]),
            forall|j: int| i <= j < before.apps.len() ==> #[trigger] data@.apps[j] == before.apps[j],
        decreases data.apps@.len() - i,
    {
        let wants = match &data.apps[i].icon_data_url {
            Some(value) => !begins_with(value.as_str(), DATA_IMAGE),
            None => false,
        };
        assert(data@.apps[i as int] == before.apps[i as int]);
        if wants {
            let mut app = data.apps[i].clone();
            app.icon_data_url = match &images[i] {
                Some(image) => match read_image_as_data_url(image) {
                    Ok(url) => Some(url),
                    Err(_) => None,
                },
                None => None,
            };
            assert(app@ == hydrated(before.apps[i as int], images@[i as int]));
            let ghost earlier = data@.apps;
            crate::catalog::replace_app(data, i, app);
            assert(data@.apps.len() == data.apps@.len());
            assert forall|j: int| 0 <= j < i + 1 implies #[trigger] data@.apps[j] == hydrated(
                before.apps[j],
                images@[j],
            ) by {
                if j < i {
                    assert(earlier[j] == hydrated(before.apps[j], images@[j]));
                }
            }
            assert forall|j: int| i + 1 <= j < before.apps.len() implies #[trigger] data@.apps[j]
                == before.apps[j] by {
                assert(earlier[j] == before.apps[j]);
            }
        }
        i = i + 1;
    }
    assert(data@.apps =~= Seq::new(
        before.apps.len(),
        |k: int| hydrated(before.apps[k], images@[k]),
    ));
}

// ---------------------------------------------------------------------------
// Laws
// ---------------------------------------------------------------------------

/// The kinds of images that files are read as.
pub open spec fn is_image_mime(mime: Seq<char>) -> bool {
    mime == "image/png"@ || mime == "image/jpeg"@ || mime == "image/gif"@ || mime == "image/webp"@
        || mime == "image/x-icon"@ || mime == "image/bmp"@
}

proof fn lemma_mime_plain(mime: Seq<char>)
    requires
        is_image_mime(mime),
    ensures
        mime.len() > 0,
        forall|i: int| 0 <= i < mime.len() ==> #[trigger] mime[i] != ';',
        extension_for(DATA_SCHEME@ + mime) is Some,
        mime_for(extension_for(DATA_SCHEME@ + mime)->0) == Some(mime),
{
    reveal_strlit("image/png");
    reveal_strlit("image/jpeg");
    reveal_strlit("image/gif");
    reveal_strlit("image/webp");
    reveal_strlit("image/x-icon");
    reveal_strlit("image/bmp");
    reveal_strlit("data:");
    reveal_strlit("data:image/png");
    reveal_strlit("data:image/jpeg");
    reveal_strlit("data:image/gif");
    reveal_strlit("data:image/webp");
    reveal_strlit("data:image/x-icon");
    reveal_strlit("data:image/bmp");
    reveal_strlit("data:image/vnd.microsoft.icon");
    reveal_strlit("png");
    reveal_strlit("jpg");
    reveal_strlit("jpeg");
    reveal_strlit("gif");
    reveal_strlit("webp");
    reveal_strlit("ico");
    reveal_strlit("bmp");
    let full = DATA_SCHEME@ + mime;
    if mime == "image/png"@ {
        assert(full =~= "data:image/png"@);
    } else if mime == "image/jpeg"@ {
        assert(full =~= "data:image/jpeg"@);
        assert(full.len() != "data:image/png"@.len());
        assert("jpg"@ != "png"@) by {
            assert("jpg"@[0] != "png"@[0]);
        }
    } else if mime == "image/gif"@ {
        assert(full =~= "data:image/gif"@);
        assert(full[11] != "data:image/png"@[11]);
        assert("gif"@[0] != "png"@[0]);
        assert("gif"@[0] != "jpg"@[0]);
    } else if mime == "image/webp"@ {
        assert(full =~= "data:image/webp"@);
        assert(full[11] != "data:image/jpeg"@[11]);
        assert("webp"@[0] != "jpeg"@[0]);
    } else if mime == "image/x-icon"@ {
        assert(full =~= "data:image/x-icon"@);
        assert("ico"@[0] != "png"@[0]);
        assert("ico"@[0] != "jpg"@[0]);
        assert("ico"@[0] != "gif"@[0]);
    } else {
        assert(full =~= "data:image/bmp"@);
        assert(full[11] != "data:image/png"@[11]);
        assert(full[11] != "data:image/gif"@[11]);
        assert("bmp"@[0] != "png"@[0]);
        assert("bmp"@[0] != "jpg"@[0]);
        assert("bmp"@[0] != "gif"@[0]);
        assert("bmp"@[0] != "ico"@[0]);
    }
}

/// The image of a data URL that was made of an image is that image.
pub proof fn law_data_url_read_back(mime: Seq<char>, bytes: Seq<u8>)
    requires
        is_image_mime(mime),
        bytes.len() > 0,
    ensures
        decoded_image(data_url(mime, bytes)) == Ok::<_, Seq<char>>((DATA_SCHEME@ + mime, bytes)),
{
    let url = data_url(mime, bytes);
    let mark = BASE64_MARK@;
    let head = DATA_SCHEME@ + mime;
    let payload = base64::encoded(bytes);
    lemma_mime_plain(mime);
    base64::lemma_encoded_plain(bytes);
    base64::law_base64_read_back(bytes);
    reveal_strlit("data:");
    reveal_strlit(";base64,");
    assert(payload.len() > 0) by {
        if payload.len() == 0 {
            assert(payload =~= Seq::<char>::empty());
            text::law_trimmed_idempotent(payload);
            assert(text::trimmed(payload).len() == 0);
        }
    }
    assert(url[0] == 'd');
    assert(url.last() == payload.last());
    assert(!text::is_white_space(payload[payload.len() - 1]));
    assert(text::is_trimmed(url));
    text::law_trimmed_idempotent(url);
    assert(text::matches_at(url, mark, head.len() as int)) by {
        assert(url.subrange(head.len() as int, (head.len() + mark.len()) as int) =~= mark);
    }
    assert forall|j: int| 0 <= j < head.len() implies !text::matches_at(url, mark, j) by {
        if text::matches_at(url, mark, j) {
            assert(url.subrange(j, j + mark.len())[0] == mark[0]);
            assert(url[j] == head[j]);
            if j >= 5 {
                assert(head[j] == mime[j - 5]);
            }
        }
    }
    text::lemma_find_is(url, mark, head.len() as int);
    assert(url.take(head.len() as int) =~= head);
    assert(url.skip((head.len() + mark.len()) as int) =~= payload);
}

proof fn lemma_extension_plain(mime: Seq<char>)
    requires
        extension_for(mime) is Some,
    ensures
        ({
            let e = extension_for(mime)->0;
            &&& vstd::utf8::is_ascii_chars(e)
            &&& forall|i: int| 0 <= i < e.len() ==> #[trigger] e[i] != '.'
            &&& text::lower_ascii(e) == e
            &&& mime_for(e) is Some
            &&& is_image_mime(mime_for(e)->0)
            &&& extension_for(DATA_SCHEME@ + mime_for(e)->0) == Some(e)
        }),
{
    reveal_strlit("png");
    reveal_strlit("jpg");
    reveal_strlit("gif");
    reveal_strlit("webp");
    reveal_strlit("ico");
    reveal_strlit("bmp");
    reveal_strlit("jpeg");
    let e = extension_for(mime)->0;
    assert(text::lower_ascii(e) =~= e);
    assert("jpg"@[0] != "png"@[0]);
    assert("gif"@[0] != "png"@[0]);
    assert("gif"@[0] != "jpg"@[0]);
    assert("webp"@[0] != "jpeg"@[0]);
    assert("ico"@[0] != "png"@[0]);
    assert("ico"@[0] != "jpg"@[0]);
    assert("ico"@[0] != "gif"@[0]);
    assert("bmp"@[0] != "png"@[0]);
    assert("bmp"@[0] != "jpg"@[0]);
    assert("bmp"@[0] != "gif"@[0]);
    assert("bmp"@[0] != "ico"@[0]);
    let m = mime_for(e)->0;
    lemma_mime_plain(m);
    reveal_strlit("image/png");
    reveal_strlit("image/jpeg");
    reveal_strlit("image/gif");
    reveal_strlit("image/webp");
    reveal_strlit("image/x-icon");
    reveal_strlit("image/bmp");
    reveal_strlit("data:");
    reveal_strlit("data:image/png");
    reveal_strlit("data:image/jpeg");
    reveal_strlit("data:image/gif");
    reveal_strlit("data:image/webp");
    reveal_strlit("data:image/x-icon");
    reveal_strlit("data:image/bmp");
    let full = DATA_SCHEME@ + m;
    if e == "png"@ {
        assert(full =~= "data:image/png"@);
    } else if e == "jpg"@ {
        assert(full =~= "data:image/jpeg"@);
        assert(full.len() != "data:image/png"@.len());
    } else if e == "gif"@ {
        assert(full =~= "data:image/gif"@);
        assert(full[11] != "data:image/png"@[11]);
    } else if e == "webp"@ {
        assert(full =~= "data:image/webp"@);
        assert(full[11] != "data:image/jpeg"@[11]);
    } else if e == "ico"@ {
        assert(full =~= "data:image/x-icon"@);
    } else {
        assert(full =~= "data:image/bmp"@);
        assert(full[11] != "data:image/png"@[11]);
        assert(full[11] != "data:image/gif"@[11]);
    }
}

/// The path of an icon's file has the extension that it was made with.
proof fn lemma_icon_path_extension(folder: PathView, e: Seq<char>)
    requires
        vstd::utf8::is_ascii_chars(e),
        forall|i: int| 0 <= i < e.len() ==> #[trigger] e[i] != '.',
        e.len() > 0,
    ensures
        paths::extension_of(layout::icon_path(folder, e)) == Some(e),
{
    let stem = layout::APP_ICON_FILE_STEM@;
    let name = stem + seq!['.'] + e;
    reveal_strlit(".appmanager-icon");
    assert(vstd::utf8::is_ascii_chars(name));
    vstd::utf8::is_ascii_chars_encode_utf8(name);
    vstd::utf8::is_ascii_chars_encode_utf8(e);
    let b = vstd::utf8::encode_utf8(name);
    assert(name.len() > 2);
    assert(name[0] == '.' && name[1] == 'a');
    assert(!names::is_dots(name));
    let k = stem.len() as int;
    assert(name[k] == '.');
    assert(b[k] == DOT);
    assert forall|j: int| k < j < b.len() implies b[j] != DOT by {
        assert(name[j] == e[j - k - 1]);
        assert(b[j] == name[j] as u8);
        assert('\0' <= name[j] && name[j] <= '\u{7f}');
        assert(name[j] != '.');
    }
    names::lemma_last_index_is(b, DOT, k);
    assert(b.len() > 2);
    assert(b != seq![DOT, DOT]);
    let rest = b.skip(k + 1);
    assert(rest =~= vstd::utf8::encode_utf8(e)) by {
        assert forall|i: int| 0 <= i < rest.len() implies rest[i] == vstd::utf8::encode_utf8(
            e,
        )[i] by {
            assert(name[i + k + 1] == e[i]);
            assert(b[i + k + 1] == name[i + k + 1] as u8);
            assert(vstd::utf8::encode_utf8(e)[i] == e[i] as u8);
        }
    }
    utf8::law_text_read_back(e);
}

/// An icon survives the saving and loading of the catalogue: the file that it
/// is written to, read again, gives a data URL of the same contents, for a file
/// of the same extension.
pub proof fn law_icon_survives_saving(icon: Seq<char>, folder: PathView, image: LoadedImage)
    requires
        decoded_image(icon) matches Ok((mime, bytes)) && image.path@ == layout::icon_path(
            folder,
            extension_for(mime)->0,
        ) && (image.what matches ImageFile::Read(read) && read@ == bytes),
    ensures
        loaded_url(image) matches Ok(url) && decoded_image(url) matches Ok((again, bytes_again))
            && bytes_again == decoded_image(icon)->Ok_0.1 && extension_for(again) == extension_for(
            decoded_image(icon)->Ok_0.0,
        ),
{
    let (mime, bytes) = decoded_image(icon)->Ok_0;
    let e = extension_for(mime)->0;
    lemma_extension_plain(mime);
    reveal_strlit("png");
    reveal_strlit("jpg");
    reveal_strlit("gif");
    reveal_strlit("webp");
    reveal_strlit("ico");
    reveal_strlit("bmp");
    lemma_icon_path_extension(folder, e);
    law_data_url_read_back(mime_for(e)->0, bytes);
}

/// An icon that is saved by its own kind is shown by the same kind.
pub proof fn law_kinds_of_images(mime: Seq<char>)
    ensures
        is_image_mime(mime) ==> (extension_for("data:"@ + mime) matches Some(e) && mime_for(e)
            == Some(mime)),
        mime_for(mime) matches Some(m) ==> extension_for("data:"@ + m) is Some,
        mime == "png"@ || mime == "gif"@ || mime == "webp"@ || mime == "bmp"@ ==> extension_for(
            "data:image/"@ + mime,
        ) == Some(mime) && mime_for(mime) == Some("image/"@ + mime),
        mime_for("jpeg"@) == mime_for("jpg"@),
        mime_for("jpg"@) == Some("image/jpeg"@),
        mime_for("ico"@) == Some("image/x-icon"@),
        extension_for("data:image/vnd.microsoft.icon"@) == extension_for("data:image/x-icon"@),
{
    reveal_strlit("data:");
    reveal_strlit("image/");
    reveal_strlit("data:image/");
    reveal_strlit("png");
    reveal_strlit("jpg");
    reveal_strlit("jpeg");
    reveal_strlit("gif");
    reveal_strlit("webp");
    reveal_strlit("ico");
    reveal_strlit("bmp");
    reveal_strlit("image/png");
    reveal_strlit("image/jpeg");
    reveal_strlit("image/gif");
    reveal_strlit("image/webp");
    reveal_strlit("image/x-icon");
    reveal_strlit("image/bmp");
    reveal_strlit("data:image/png");
    reveal_strlit("data:image/jpeg");
    reveal_strlit("data:image/gif");
    reveal_strlit("data:image/webp");
    reveal_strlit("data:image/x-icon");
    reveal_strlit("data:image/bmp");
    reveal_strlit("data:image/vnd.microsoft.icon");
    assert("data:"@ + "image/png"@ =~= "data:image/png"@);
    assert("data:"@ + "image/jpeg"@ =~= "data:image/jpeg"@);
    assert("data:"@ + "image/gif"@ =~= "data:image/gif"@);
    assert("data:"@ + "image/webp"@ =~= "data:image/webp"@);
    assert("data:"@ + "image/x-icon"@ =~= "data:image/x-icon"@);
    assert("data:"@ + "image/bmp"@ =~= "data:image/bmp"@);
    assert("data:image/"@ + "png"@ =~= "data:image/png"@);
    assert("data:image/"@ + "gif"@ =~= "data:image/gif"@);
    assert("data:image/"@ + "webp"@ =~= "data:image/webp"@);
    assert("data:image/"@ + "bmp"@ =~= "data:image/bmp"@);
    assert("image/"@ + "png"@ =~= "image/png"@);
    assert("image/"@ + "gif"@ =~= "image/gif"@);
    assert("image/"@ + "webp"@ =~= "image/webp"@);
    assert("image/"@ + "bmp"@ =~= "image/bmp"@);
    assert("data:image/jpeg"@[11] == 'j' && "data:image/png"@[11] == 'p');
    assert("data:image/gif"@[11] == 'g' && "data:image/webp"@[11] == 'w');
    assert("data:image/x-icon"@[11] == 'x' && "data:image/bmp"@[11] == 'b');
    assert("data:image/vnd.microsoft.icon"@[11] == 'v');
    assert("png"@[0] == 'p' && "jpg"@[0] == 'j' && "gif"@[0] == 'g' && "webp"@[0] == 'w');
    assert("ico"@[0] == 'i' && "bmp"@[0] == 'b' && "jpeg"@[0] == 'j');
    assert("jpg"@.len() == 3 && "jpeg"@.len() == 4);
}

/// A data URL is read where it names one of the kinds of images, the mark
/// `;base64,` and at least one byte in Base64; the kind and the bytes are those
/// that it names.
pub proof fn law_decoded_image(value: Seq<char>, mime: Seq<char>, payload: Seq<char>)
    requires
        text::trimmed(value) == mime + ";base64,"@ + payload,
        forall|x: Seq<char>, y: Seq<char>|
            text::trimmed(value) == #[trigger] (x + ";base64,"@ + y) ==> mime.len() <= x.len(),
    ensures
        extension_for(mime) is None ==> decoded_image(value) == Err::<(Seq<char>, Seq<u8>), _>(
            ICON_UNSUPPORTED@,
        ),
        extension_for(mime) is Some ==> match base64::decoded(payload) {
            Some(bytes) => if bytes.len() > 0 {
                decoded_image(value) == Ok::<_, Seq<char>>((mime, bytes))
            } else {
                decoded_image(value) is Err
            },
            None => decoded_image(value) is Err,
        },
{
    let t = text::trimmed(value);
    text::law_split_once(t, ";base64,"@);
    let (a, b) = text::split_once(t, ";base64,"@)->0;
    assert(t == mime + ";base64,"@ + payload);
    assert(t == a + ";base64,"@ + b);
    assert(a.len() == mime.len());
    assert(a =~= t.take(mime.len() as int));
    assert(mime =~= t.take(mime.len() as int));
    let n = mime.len() + ";base64,"@.len();
    assert(b =~= t.skip(n as int));
    assert(payload =~= t.skip(n as int));
}

/// A text without the mark `;base64,` is no data URL of an image.
pub proof fn law_no_mark_no_image(value: Seq<char>)
    requires
        forall|x: Seq<char>, y: Seq<char>| text::trimmed(value) != #[trigger] (x + ";base64,"@ + y),
    ensures
        decoded_image(value) == Err::<(Seq<char>, Seq<u8>), _>(ICON_MALFORMED@),
{
    text::law_split_once(text::trimmed(value), ";base64,"@);
    if let Some((a, b)) = text::split_once(text::trimmed(value), ";base64,"@) {
        assert(text::trimmed(value) == a + ";base64,"@ + b);
    }
}

/// An image that was read is shown as a data URL of its kind with its bytes; one
/// that is missing, that is of no kind of image, or that could not be read is
/// refused for that reason.
pub proof fn law_loaded_url(image: LoadedImage)
    ensures
        image.what is Missing ==> loaded_url(image) == Err::<Seq<char>, _>("图标文件不存在"@),
        !(image.what is Missing) && mime_of_path(image.path@) is None ==> loaded_url(image) == Err::<
            Seq<char>,
            _,
        >(ICON_UNSUPPORTED@),
        mime_of_path(image.path@) matches Some(mime) ==> match image.what {
            ImageFile::Missing => true,
            ImageFile::Unreadable(e) => loaded_url(image) == Err::<Seq<char>, _>(e@),
            ImageFile::Read(bytes) => loaded_url(image) == Ok::<_, Seq<char>>(
                "data:"@ + mime + ";base64,"@ + base64::encoded(bytes@),
            ),
        },
{
}

/// The kind of an image is told by its extension, in any case.
pub proof fn law_mime_of_path(p: PathView, stem: Seq<char>, extension: Seq<char>)
    requires
        !extension.contains('.'),
        stem.len() > 0,
        !names::is_dots(stem + seq!['.'] + extension),
    ensures
        mime_of_path(paths::joined(p, stem + seq!['.'] + extension)) == mime_for(
            text::lower_ascii(extension),
        ),
{
    paths::law_stem_of_file(p, stem, extension, Seq::empty());
}

/// A saved icon is shown again: a path is replaced by the image that it leads to,
/// and by nothing where the image cannot be shown. A data URL and a missing icon
/// stay, and so does everything else of the application.
pub proof fn law_hydrated(app: AppView, image: Option<LoadedImage>)
    ensures
        ({
            let r = hydrated(app, image);
            let stays = match app.icon_data_url {
                None => true,
                Some(value) => "data:image/"@.is_prefix_of(value),
            };
            &&& r == AppView { icon_data_url: r.icon_data_url, ..app }
            &&& stays ==> r.icon_data_url == app.icon_data_url
            &&& !stays ==> match image {
                Some(i) => match loaded_url(i) {
                    Ok(url) => r.icon_data_url == Some(url),
                    Err(_) => r.icon_data_url is None,
                },
                None => r.icon_data_url is None,
            }
        }),
{
}

/// Wherever an icon of the folder was saved, its path is among those of the
/// folder's icons.
pub proof fn law_icon_paths(folder: PathView, mime: Seq<char>)
    ensures
        extension_for(mime) matches Some(e) ==> icon_paths(folder).contains(
            layout::icon_path(folder, e),
        ),
        forall|i: int|
            0 <= i < icon_paths(folder).len() ==> exists|e: Seq<char>|
                mime_for(e) is Some && #[trigger] icon_paths(folder)[i] == #[trigger] layout::icon_path(
                    folder,
                    e,
                ),
{
    let all = icon_paths(folder);
    let names_of = icon_extensions();
    assert(names_of[0] == "png"@ && names_of[1] == "jpg"@ && names_of[2] == "gif"@);
    assert(names_of[3] == "webp"@ && names_of[4] == "ico"@ && names_of[5] == "bmp"@);
    assert(all[0] == layout::icon_path(folder, "png"@));
    assert(all[1] == layout::icon_path(folder, "jpg"@));
    assert(all[2] == layout::icon_path(folder, "gif"@));
    assert(all[3] == layout::icon_path(folder, "webp"@));
    assert(all[4] == layout::icon_path(folder, "ico"@));
    assert(all[5] == layout::icon_path(folder, "bmp"@));
    assert forall|i: int| 0 <= i < all.len() implies exists|e: Seq<char>|
        mime_for(e) is Some && #[trigger] all[i] == #[trigger] layout::icon_path(folder, e) by {
        let e = names_of[i];
        assert(mime_for(e) is Some);
        assert(all[i] == layout::icon_path(folder, e));
    }
}

} // verus!
