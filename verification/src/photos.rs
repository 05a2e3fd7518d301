//! Pictures: what is uploaded, under which name it is kept, how it is served,
//! and what the record of a car or a worker says of it.
use crate::failure;
use crate::failure::{fail, Failure, Status};
use crate::json;
use crate::json::{Doc, Json};
use crate::names;
use crate::outside;
use crate::text;
use vstd::prelude::*;

verus! {

/// The type of content for the extension of a photo.
pub open spec fn photo_mime(ext: Seq<char>) -> Seq<char> {
    let e = text::all_small(ext);
    if e == "png"@ {
        "image/png"@
    } else if e == "jpg"@ || e == "jpeg"@ {
        "image/jpeg"@
    } else if e == "webp"@ {
        "image/webp"@
    } else if e == "gif"@ {
        "image/gif"@
    } else {
        "application/octet-stream"@
    }
}

pub fn photo_content_type(ext: &str) -> (r: &'static str)
    ensures
        r@ == photo_mime(ext@),
{
    let low = text::ascii_lower(ext);
    let e = low.as_str();
    if text::same(e, "png") {
        "image/png"
    } else if text::same(e, "jpg") || text::same(e, "jpeg") {
        "image/jpeg"
    } else if text::same(e, "webp") {
        "image/webp"
    } else if text::same(e, "gif") {
        "image/gif"
    } else {
        "application/octet-stream"
    }
}

/// The type of content for the extension of a picture, which may be a drawing.
pub open spec fn picture_mime(ext: Seq<char>) -> Seq<char> {
    let e = text::lowered(ext);
    if e == "png"@ {
        "image/png"@
    } else if e == "jpg"@ || e == "jpeg"@ {
        "image/jpeg"@
    } else if e == "svg"@ {
        "image/svg+xml"@
    } else if e == "webp"@ {
        "image/webp"@
    } else if e == "gif"@ {
        "image/gif"@
    } else {
        "application/octet-stream"@
    }
}

pub fn picture_content_type(ext: &str) -> (r: &'static str)
    ensures
        r@ == picture_mime(ext@),
{
    let low = text::lower(ext);
    let e = low.as_str();
    if text::same(e, "png") {
        "image/png"
    } else if text::same(e, "jpg") || text::same(e, "jpeg") {
        "image/jpeg"
    } else if text::same(e, "svg") {
        "image/svg+xml"
    } else if text::same(e, "webp") {
        "image/webp"
    } else if text::same(e, "gif") {
        "image/gif"
    } else {
        "application/octet-stream"
    }
}

/// The type of content of a picture in a file.
pub open spec fn file_mime(name: Seq<char>) -> Seq<char> {
    match names::extension(name) {
        Some(e) => picture_mime(e),
        None => picture_mime(Seq::<char>::empty()),
    }
}

pub fn file_content_type(name: &str) -> (r: &'static str)
    ensures
        r@ == file_mime(name@),
{
    match names::file_extension(name) {
        Some(e) => picture_content_type(e.as_str()),
        None => {
            let none = String::new();
            assert(none@ =~= Seq::<char>::empty());
            picture_content_type(none.as_str())
        },
    }
}

/// The extensions that a photo may have.
pub open spec fn is_photo_kind(e: Seq<char>) -> bool {
    e == "png"@ || e == "jpg"@ || e == "jpeg"@ || e == "webp"@ || e == "gif"@
}

/// The extensions that a picture may have.
pub open spec fn is_picture_kind(e: Seq<char>) -> bool {
    is_photo_kind(e) || e == "svg"@
}

fn photo_kind_known(e: &str) -> (r: bool)
    ensures
        r == is_photo_kind(e@),
{
    text::same(e, "png") || text::same(e, "jpg") || text::same(e, "jpeg") || text::same(e, "webp")
        || text::same(e, "gif")
}

/// The extension under which a photo is kept.
pub open spec fn photo_kind(ext: Option<Seq<char>>) -> Seq<char> {
    match ext {
        Some(e) if is_photo_kind(text::all_small(e)) => text::all_small(e),
        _ => "jpg"@,
    }
}

/// The extension under which a picture is kept.
pub open spec fn picture_kind(ext: Option<Seq<char>>) -> Seq<char> {
    match ext {
        Some(e) if is_picture_kind(text::lowered(e)) => text::lowered(e),
        _ => "png"@,
    }
}

/// The extension under which a photo is kept, given that of its name.
pub fn choose_photo_kind(ext: Option<String>) -> (r: String)
    ensures
        r@ == photo_kind(text::opt_text(ext)),
{
    if let Some(e) = ext {
        let low = text::ascii_lower(e.as_str());
        if photo_kind_known(low.as_str()) {
            return low;
        }
    }
    "jpg".to_owned()
}

/// The extension under which a picture is kept, given that of its name.
pub fn choose_picture_kind(ext: Option<String>) -> (r: String)
    ensures
        r@ == picture_kind(text::opt_text(ext)),
{
    if let Some(e) = ext {
        let low = text::lower(e.as_str());
        if photo_kind_known(low.as_str()) || text::same(low.as_str(), "svg") {
            return low;
        }
    }
    "png".to_owned()
}

/// The extension under which a photo with this name is kept. Which extension
/// a name has that is not the same path everywhere is left to the platform.
pub fn photo_extension(name: &str) -> (r: String)
    ensures
        is_photo_kind(r@),
        outside::same_everywhere(name@) ==> r@ == photo_kind(
            names::extension(outside::last_part(name@)),
        ),
{
    choose_photo_kind(outside::path_extension(name))
}

/// The extension under which a picture with this name is kept. Which
/// extension a name has that is not the same path everywhere is left to the
/// platform.
pub fn picture_extension(name: &str) -> (r: String)
    ensures
        is_picture_kind(r@),
        outside::same_everywhere(name@) ==> r@ == picture_kind(
            names::extension(outside::last_part(name@)),
        ),
{
    choose_picture_kind(outside::path_extension(name))
}

/// The text in Base64 that an upload carries: what follows `base64,`, or all
/// of it.
pub open spec fn base64_part(data: Seq<char>) -> Seq<char> {
    text::trimmed(text::after_first(data, "base64,"@))
}

/// The bytes of an upload, given what decoding gave.
pub open spec fn decoded(found: Result<Seq<u8>, Seq<char>>) -> Result<
    Seq<u8>,
    (Status, Seq<char>),
> {
    match found {
        Ok(bytes) => Ok(bytes),
        Err(message) => Err((Status::BadRequest, message)),
    }
}

/// The bytes that an upload carries.
pub open spec fn uploaded(payload: Doc) -> Result<Seq<u8>, (Status, Seq<char>)> {
    match payload.text_at("data_base64"@) {
        Some(data) => decoded(outside::base64_bytes(base64_part(data))),
        None => Err((Status::BadRequest, "data_base64 required"@)),
    }
}

pub open spec fn bytes_outcome(r: Result<Vec<u8>, Failure>) -> Result<
    Seq<u8>,
    (Status, Seq<char>),
> {
    match r {
        Ok(v) => Ok(v@),
        Err(f) => Err(f@),
    }
}

/// The text in Base64 that an upload carries.
pub fn upload_text(payload: &Json) -> (r: Result<String, Failure>)
    ensures
        match r {
            Ok(s) => payload@.text_at("data_base64"@) is Some && s@ == base64_part(
                payload@.text_at("data_base64"@)->0,
            ),
            Err(f) => payload@.text_at("data_base64"@) is None && f@ == (
                Status::BadRequest,
                "data_base64 required"@,
            ),
        },
{
    match payload.text_at("data_base64") {
        Some(data) => Ok(text::trim(text::text_after(data, "base64,").as_str())),
        None => Err(fail(Status::BadRequest, "data_base64 required")),
    }
}

/// The bytes of an upload, given what decoding gave.
pub fn accept_decoded(found: Result<Vec<u8>, String>) -> (r: Result<Vec<u8>, Failure>)
    ensures
        bytes_outcome(r) == decoded(outside::bytes_view(found)),
{
    match found {
        Ok(bytes) => Ok(bytes),
        Err(message) => Err(fail(Status::BadRequest, message.as_str())),
    }
}

/// The bytes that an upload carries.
pub fn upload_bytes(payload: &Json) -> (r: Result<Vec<u8>, Failure>)
    ensures
        bytes_outcome(r) == uploaded(payload@),
{
    match upload_text(payload) {
        Ok(s) => accept_decoded(outside::decode_base64(s.as_str())),
        Err(f) => Err(f),
    }
}

/// The file in which a photo of that kind is kept.
pub open spec fn photo_name(kind: Seq<char>) -> Seq<char> {
    "photo."@ + kind
}

/// Whether a photo that is sent is kept in that file. Which extension a name
/// has that is not the same path everywhere is left to the platform.
pub open spec fn photo_named(payload: Doc, file: Seq<char>) -> bool {
    let sent = payload.text_or("filename"@, "photo.jpg"@);
    exists|kind: Seq<char>|
        is_photo_kind(kind) && file == #[trigger] photo_name(kind) && (
        outside::same_everywhere(sent) ==> kind == photo_kind(
            names::extension(outside::last_part(sent)),
        ))
}

/// A photo to keep: its bytes and the name of its file.
pub fn upload_photo(payload: &Json) -> (r: Result<(Vec<u8>, String), Failure>)
    ensures
        match r {
            Ok(p) => uploaded(payload@) == Ok::<Seq<u8>, (Status, Seq<char>)>(p.0@)
                && photo_named(payload@, p.1@),
            Err(f) => uploaded(payload@) == Err::<Seq<u8>, (Status, Seq<char>)>(f@),
        },
{
    let name = payload.text_or("filename", "photo.jpg");
    match upload_bytes(payload) {
        Ok(bytes) => {
            let kind = photo_extension(name.as_str());
            let file = text::cat("photo.", kind.as_str());
            assert(file@ == photo_name(kind@));
            Ok((bytes, file))
        },
        Err(f) => Err(f),
    }
}

/// A picture to keep: its bytes and the name of its file, which starts with
/// `stem` and a dot.
pub fn upload_picture(payload: &Json, default_name: &str, stem: &str) -> (r: Result<
    (Vec<u8>, String),
    Failure,
>)
    ensures
        match r {
            Ok(p) => uploaded(payload@) == Ok::<Seq<u8>, (Status, Seq<char>)>(p.0@)
                && picture_named(payload@, default_name@, stem@, p.1@),
            Err(f) => uploaded(payload@) == Err::<Seq<u8>, (Status, Seq<char>)>(f@),
        },
{
    let name = payload.text_or("filename", default_name);
    match upload_bytes(payload) {
        Ok(bytes) => {
            let kind = picture_extension(name.as_str());
            let file = text::cat3(stem, ".", kind.as_str());
            assert(file@ == picture_name(stem@, kind@));
            Ok((bytes, file))
        },
        Err(f) => Err(f),
    }
}

/// Whether a picture that is sent is kept in that file. Which extension a
/// name has that is not the same path everywhere is left to the platform.
pub open spec fn picture_named(
    payload: Doc,
    default_name: Seq<char>,
    stem: Seq<char>,
    file: Seq<char>,
) -> bool {
    let sent = payload.text_or("filename"@, default_name);
    exists|kind: Seq<char>|
        is_picture_kind(kind) && file == #[trigger] picture_name(stem, kind) && (
        outside::same_everywhere(sent) ==> kind == picture_kind(
            names::extension(outside::last_part(sent)),
        ))
}

/// The file in which a picture of that kind is kept.
pub open spec fn picture_name(stem: Seq<char>, kind: Seq<char>) -> Seq<char> {
    stem + "."@ + kind
}

/// Whether a file beside a record is its photo or the small copy of it.
pub open spec fn is_photo_name(name: Seq<char>) -> bool {
    text::starts_with_spec(name, "photo."@) || name == "thumb.jpg"@
}

/// Whether the file goes when a photo is replaced or removed.
pub fn is_photo_file(name: &str) -> (r: bool)
    ensures
        r == is_photo_name(name@),
{
    text::starts_with(name, "photo.") || text::same(name, "thumb.jpg")
}

/// The file that a record names as its photo.
pub open spec fn photo_file_of(record: Doc) -> Option<Seq<char>> {
    match record.text_at("photo"@) {
        Some(s) => Some(names::safe_name(s)),
        None => None,
    }
}

pub fn photo_file(record: &Json) -> (r: Option<String>)
    ensures
        text::opt_text(r) == photo_file_of(record@),
{
    match record.text_at("photo") {
        Some(s) => Some(names::sanitize_filename(s)),
        None => None,
    }
}

/// The file to serve as a photo and its type of content.
pub fn get_photo(record: &Json) -> (r: Result<(String, &'static str), Failure>)
    ensures
        match r {
            Ok(p) => photo_file_of(record@) == Some(p.0@) && p.1@ == photo_mime(
                match names::extension(p.0@) {
                    Some(e) => e,
                    None => Seq::<char>::empty(),
                },
            ),
            Err(f) => photo_file_of(record@) is None && f@ == (Status::NotFound, "no photo"@),
        },
        match r {
            Ok(p) => photo_served(record@) == Ok::<(Seq<char>, Seq<char>), (Status, Seq<char>)>(
                (p.0@, p.1@),
            ),
            Err(f) => photo_served(record@) == Err::<(Seq<char>, Seq<char>), (Status, Seq<char>)>(
                f@,
            ),
        },
{
    match photo_file(record) {
        Some(name) => {
            let mime = match names::file_extension(name.as_str()) {
                Some(e) => photo_content_type(e.as_str()),
                None => {
                    proof {
                        reveal_strlit("");
                        assert(""@ =~= Seq::<char>::empty());
                    }
                    photo_content_type("")
                },
            };
            Ok((name, mime))
        },
        None => Err(fail(Status::NotFound, "no photo")),
    }
}

/// A record with its photo set. Where there is none yet, one that holds only
/// its key is started.
pub open spec fn photo_set(
    record: Option<Doc>,
    key: Seq<char>,
    id: Seq<char>,
    file: Seq<char>,
    now: u64,
) -> Doc {
    let base = match record {
        Some(d) => d,
        None => Doc::object().with(key, Doc::Str(id)),
    };
    base.with(key, Doc::Str(id)).with("photo"@, Doc::Str(file)).with(
        "photo_updated_ms"@,
        Doc::num(now as int),
    ).with("updated_ms"@, Doc::num(now as int))
}

pub fn set_photo(record: Option<Json>, key: &str, id: &str, file: &str, now: u64) -> (r: Json)
    ensures
        r@ == photo_set(json::opt_json(record), key@, id@, file@, now),
{
    let base = match record {
        Some(j) => j,
        None => Json::object().with_text(key, id),
    };
    base.with_text(key, id).with_text("photo", file).with(
        "photo_updated_ms",
        Json::of_u64(now),
    ).with("updated_ms", Json::of_u64(now))
}

/// A record with its photo taken out.
pub open spec fn photo_cleared(record: Doc, now: u64) -> Doc {
    record.without("photo"@).without("photo_updated_ms"@).with("updated_ms"@, Doc::num(now as int))
}

/// The record to write when a photo is removed; nothing is written over what
/// is no object.
pub fn clear_photo(record: Json, now: u64) -> (r: Option<Json>)
    ensures
        json::opt_json(r) == if record@.is_object() {
            Some(photo_cleared(record@, now))
        } else {
            None
        },
        json::opt_json(r) == photo_taken_off(record@, now),
{
    if record.is_object() {
        Some(
            record.without("photo").without("photo_updated_ms").with(
                "updated_ms",
                Json::of_u64(now),
            ),
        )
    } else {
        None
    }
}

/// The answer to a photo that was stored.
pub open spec fn photo_stored(file: Seq<char>, now: u64) -> Doc {
    failure::done().with("filename"@, Doc::Str(file)).with("photo_updated_ms"@, Doc::num(now as int))
}

pub fn photo_answer(file: &str, now: u64) -> (r: Json)
    ensures
        r@ == photo_stored(file@, now),
{
    failure::ok_answer().with_text("filename", file).with("photo_updated_ms", Json::of_u64(now))
}

/// The most pixels that go into one of a small image.
fn count_pixels(width: u32, height: u32) -> (r: u128)
    ensures
        r == outside::most_pixels(width, height, 400, 400),
{
    let by_width = width >= height;
    let long: u32 = if by_width {
        width
    } else {
        height
    };
    let short: u32 = if by_width {
        height
    } else {
        width
    };
    let along: u128 = (long / 400) as u128 + (long / 40000) as u128 + 3;
    let across: u128 = if 2 * along < short as u128 {
        2 * along
    } else {
        short as u128
    };
    assert(along * across <= 0x1_0000_0000 * 0x2_0000_0000) by (nonlinear_arith)
        requires
            0 <= along <= 0x1_0000_0000,
            0 <= across <= 0x2_0000_0000,
    ;
    along * across
}

/// Whether an image of that size can be shrunk. Any can that the decoder
/// gives: it takes more than three thousand million pixels to be too large.
pub fn is_shrinkable(width: u32, height: u32) -> (r: bool)
    ensures
        r == outside::size_fits(width, height, 400, 400),
{
    count_pixels(width, height) <= 16800000
}

/// Whether an image can be shrunk.
pub open spec fn shrinkable(img: image::DynamicImage) -> bool {
    outside::size_fits(outside::image_shape(img).0, outside::image_shape(img).1, 400, 400)
}

/// The small JPEG of an image. Where samples of 16 bits might not add up in
/// 32 bits, they are added up in more.
pub open spec fn shrunk(img: image::DynamicImage) -> Seq<u8> {
    if outside::sums_fit(outside::image_shape(img), 400, 400) {
        outside::small_jpeg(img, 400, 400, 65)
    } else {
        outside::small_jpeg(outside::widely_fitted(img, 400, 400), 400, 400, 65)
    }
}

/// A small JPEG of what was decoded, at most 400 pixels wide and high, of
/// middling quality. There is none exactly where the decoding failed, for the
/// reason that it gave, and where the image is too large to be shrunk.
pub fn shrink_decoded(found: Result<image::DynamicImage, String>) -> (r: Result<Vec<u8>, String>)
    ensures
        match (found, r) {
            (Ok(img), Ok(v)) => shrinkable(img) && v@ == shrunk(img) && outside::fitted_jpeg(
                v@,
                400,
                400,
                65,
            ),
            (Ok(img), Err(said)) => !shrinkable(img) && said@ == "image too large"@,
            (Err(why), Err(said)) => said@ == why@,
            _ => false,
        },
{
    match found {
        Ok(img) => {
            let (width, height, bits, samples) = outside::measure_image(&img);
            if !is_shrinkable(width, height) {
                return Err("image too large".to_owned());
            }
            if bits as u32 == 16 * samples as u32 && count_pixels(width, height) > 65536 {
                let fitted = outside::fit_widely(&img, 400, 400);
                proof {
                    lemma_small_fits(outside::image_shape(fitted));
                }
                outside::fit_image(&fitted, 400, 400, 65)
            } else {
                outside::fit_image(&img, 400, 400, 65)
            }
        },
        Err(why) => Err(why),
    }
}

/// What fits the frame has small sums.
proof fn lemma_small_fits(shape: (u32, u32, u16, u8))
    requires
        shape.0 <= 400,
        shape.1 <= 400,
    ensures
        outside::sums_fit(shape, 400, 400),
{
    let long: int = if shape.0 >= shape.1 {
        shape.0 as int
    } else {
        shape.1 as int
    };
    let short: int = if shape.0 >= shape.1 {
        shape.1 as int
    } else {
        shape.0 as int
    };
    let along: int = long / 400 + long / 40000 + 3;
    let across: int = if 2 * along < short {
        2 * along
    } else {
        short
    };
    assert(outside::most_pixels(shape.0, shape.1, 400, 400) == along * across);
    assert(0 <= along * across <= 32) by (nonlinear_arith)
        requires
            0 <= along <= 4,
            0 <= across <= 8,
    ;
}

/// A small JPEG of an image, at most 400 pixels wide and high, of middling
/// quality. Which image the bytes are, and whether they are one, is left to the
/// decoder.
pub fn generate_thumbnail(bytes: &[u8]) -> (r: Result<Vec<u8>, String>)
    ensures
        r matches Ok(v) ==> outside::fitted_jpeg(v@, 400, 400, 65) && exists|img: image::DynamicImage|
            shrinkable(img) && v@ == #[trigger] shrunk(img),
{
    shrink_decoded(outside::load_image(bytes))
}

proof fn lemma_kinds_safe(kind: Seq<char>)
    requires
        is_picture_kind(kind),
    ensures
        0 < kind.len() <= 4,
        forall|i: int| 0 <= i < kind.len() ==> 'a' <= #[trigger] kind[i] <= 'z',
{
    reveal_strlit("png");
    reveal_strlit("jpg");
    reveal_strlit("jpeg");
    reveal_strlit("webp");
    reveal_strlit("gif");
    reveal_strlit("svg");
}

/// The name of a picture's file without its extension is the one that it was
/// kept under.
pub proof fn law_picture_stem(stem: Seq<char>, kind: Seq<char>)
    requires
        stem.len() > 0,
        is_picture_kind(kind),
    ensures
        names::stem(picture_name(stem, kind)) == stem,
{
    lemma_kinds_safe(kind);
    reveal_strlit(".");
    reveal_strlit("..");
    let name = picture_name(stem, kind);
    assert forall|i: int| 0 <= i < kind.len() implies #[trigger] kind[i] != '.' by {}
    names::lemma_dot_before(stem, kind);
    assert(name =~= stem.push('.') + kind);
    assert(name.last() == kind.last());
    assert(name != ".."@);
    assert(name.take(stem.len() as int) =~= stem);
}

/// A stored photo is found again under the name it was stored under, and it
/// is among the files that go when it is replaced.
pub proof fn law_photo_found(record: Option<Doc>, key: Seq<char>, id: Seq<char>, kind: Seq<char>, now: u64)
    requires
        is_photo_kind(kind),
        record matches Some(d) ==> d.is_object(),
    ensures
        photo_file_of(photo_set(record, key, id, photo_name(kind), now)) == Some(photo_name(kind)),
        is_photo_name(photo_name(kind)),
{
    reveal_strlit("photo.");
    reveal_strlit("photo");
    reveal_strlit("photo_updated_ms");
    reveal_strlit("updated_ms");
    assert("photo"@.len() == 5 && "photo_updated_ms"@.len() == 16 && "updated_ms"@.len() == 10);
    lemma_kinds_safe(kind);
    let name = photo_name(kind);
    assert forall|i: int| 0 <= i < name.len() implies names::name_char(#[trigger] name[i]) by {
        if i < 6 {
            assert(name[i] == "photo."@[i]);
        } else {
            assert(name[i] == kind[i - 6]);
        }
    }
    names::lemma_safe_as_is(name);
    assert(name.take(6) =~= "photo."@);
}

/// A record whose photo was taken out names none, and keeps all its other
/// members but the time.
pub proof fn law_photo_gone(record: Doc, now: u64, k: Seq<char>)
    requires
        record.is_object(),
    ensures
        photo_file_of(photo_cleared(record, now)) is None,
        k != "photo"@ && k != "photo_updated_ms"@ && k != "updated_ms"@ ==> photo_cleared(
            record,
            now,
        ).get(k) == record.get(k),
{
    reveal_strlit("photo");
    reveal_strlit("photo_updated_ms");
    reveal_strlit("updated_ms");
    assert("photo"@.len() == 5 && "photo_updated_ms"@.len() == 16 && "updated_ms"@.len() == 10);
}

/// No two of these names are the same.
proof fn lemma_kind_names()
    ensures
        "png"@.len() == 3,
        "jpg"@.len() == 3,
        "jpeg"@.len() == 4,
        "webp"@.len() == 4,
        "gif"@.len() == 3,
        "svg"@.len() == 3,
        "png"@ != "jpg"@,
        "png"@ != "gif"@,
        "png"@ != "svg"@,
        "jpg"@ != "gif"@,
        "jpg"@ != "svg"@,
        "jpeg"@ != "webp"@,
        "gif"@ != "svg"@,
{
    reveal_strlit("png");
    reveal_strlit("jpg");
    reveal_strlit("jpeg");
    reveal_strlit("webp");
    reveal_strlit("gif");
    reveal_strlit("svg");
    assert("png"@[0] != "jpg"@[0]);
    assert("png"@[0] != "gif"@[0]);
    assert("png"@[0] != "svg"@[0]);
    assert("jpg"@[0] != "gif"@[0]);
    assert("jpg"@[0] != "svg"@[0]);
    assert("jpeg"@[0] != "webp"@[0]);
    assert("gif"@[0] != "svg"@[0]);
}
/// No two of these names are the same.
proof fn lemma_photo_names()
    ensures
        "photo"@.len() == 5,
        "photo_updated_ms"@.len() == 16,
        "updated_ms"@.len() == 10,
        "filename"@.len() == 8,
        "ok"@.len() == 2,
{
    reveal_strlit("photo");
    reveal_strlit("photo_updated_ms");
    reveal_strlit("updated_ms");
    reveal_strlit("filename");
    reveal_strlit("ok");
}

/// The type of content of a photo goes by its extension, whatever the case of
/// its letters.
pub proof fn law_photo_mime(ext: Seq<char>)
    ensures
        text::all_small(ext) == "png"@ ==> photo_mime(ext) == "image/png"@,
        text::all_small(ext) == "jpg"@ || text::all_small(ext) == "jpeg"@ ==> photo_mime(ext)
            == "image/jpeg"@,
        text::all_small(ext) == "webp"@ ==> photo_mime(ext) == "image/webp"@,
        text::all_small(ext) == "gif"@ ==> photo_mime(ext) == "image/gif"@,
        text::all_small(ext) != "png"@ && text::all_small(ext) != "jpg"@ && text::all_small(ext)
            != "jpeg"@ && text::all_small(ext) != "webp"@ && text::all_small(ext) != "gif"@
            ==> photo_mime(ext) == "application/octet-stream"@,
{
    lemma_kind_names();
}

/// The type of content of a picture goes by its extension too; it may also be a
/// drawing.
pub proof fn law_picture_mime(ext: Seq<char>)
    ensures
        text::lowered(ext) == "png"@ ==> picture_mime(ext) == "image/png"@,
        text::lowered(ext) == "jpg"@ || text::lowered(ext) == "jpeg"@ ==> picture_mime(ext)
            == "image/jpeg"@,
        text::lowered(ext) == "svg"@ ==> picture_mime(ext) == "image/svg+xml"@,
        text::lowered(ext) == "webp"@ ==> picture_mime(ext) == "image/webp"@,
        text::lowered(ext) == "gif"@ ==> picture_mime(ext) == "image/gif"@,
        text::lowered(ext) != "png"@ && text::lowered(ext) != "jpg"@ && text::lowered(ext) != "jpeg"@
            && text::lowered(ext) != "svg"@ && text::lowered(ext) != "webp"@ && text::lowered(ext)
            != "gif"@ ==> picture_mime(ext) == "application/octet-stream"@,
{
    lemma_kind_names();
}

/// The type of content of a file is that of what stands behind its last dot.
pub proof fn law_file_mime(front: Seq<char>, ext: Seq<char>)
    requires
        forall|k: int| 0 <= k < ext.len() ==> #[trigger] ext[k] != '.',
    ensures
        front.len() > 0 && !(front == seq!['.'] && ext.len() == 0) ==> file_mime(
            front + seq!['.'] + ext,
        ) == picture_mime(ext),
        file_mime(ext) == picture_mime(Seq::<char>::empty()),
{
    names::law_extension(front, ext);
}

/// A photo is kept as the kind that its extension names, where it is one of
/// five, and as a JPEG otherwise.
pub proof fn law_photo_kind(ext: Seq<char>)
    ensures
        ({
            let e = text::all_small(ext);
            let known = e == "png"@ || e == "jpg"@ || e == "jpeg"@ || e == "webp"@ || e == "gif"@;
            &&& known ==> photo_kind(Some(ext)) == e
            &&& !known ==> photo_kind(Some(ext)) == "jpg"@
            &&& photo_kind(None) == "jpg"@
        }),
{
}

/// A picture is kept as the kind that its extension names, where it is one of
/// six, and as a PNG otherwise.
pub proof fn law_picture_kind(ext: Seq<char>)
    ensures
        ({
            let e = text::lowered(ext);
            let known = e == "png"@ || e == "jpg"@ || e == "jpeg"@ || e == "webp"@ || e == "gif"@ || e
                == "svg"@;
            &&& known ==> picture_kind(Some(ext)) == e
            &&& !known ==> picture_kind(Some(ext)) == "png"@
            &&& picture_kind(None) == "png"@
        }),
{
}

/// The kinds of photos and pictures.
pub proof fn law_kinds(e: Seq<char>)
    ensures
        is_photo_kind(e) <==> e == "png"@ || e == "jpg"@ || e == "jpeg"@ || e == "webp"@ || e
            == "gif"@,
        is_picture_kind(e) <==> e == "png"@ || e == "jpg"@ || e == "jpeg"@ || e == "webp"@ || e
            == "gif"@ || e == "svg"@,
{
}

/// What is decoded of an upload stands behind `base64,`, without the space
/// around it; where that does not occur, it is all of it.
pub proof fn law_base64_part(head: Seq<char>, data: Seq<char>)
    ensures
        (forall|i: int|
            0 <= i < head.len() ==> #[trigger] (head + "base64,"@ + data).subrange(i, i + 7)
                != "base64,"@) ==> base64_part(head + "base64,"@ + data) == text::trimmed(data),
        (forall|i: int|
            0 <= i <= data.len() - 7 ==> #[trigger] data.subrange(i, i + 7) != "base64,"@)
            ==> base64_part(data) == text::trimmed(data),
{
    reveal_strlit("base64,");
    let p = "base64,"@;
    assert(p.len() == 7);
    if forall|i: int| 0 <= i < head.len() ==> #[trigger] (head + p + data).subrange(i, i + 7) != p {
        assert forall|i: int|
            0 <= i < head.len() implies #[trigger] (head + p + data).subrange(i, i + p.len()) != p by {
            assert((head + p + data).subrange(i, i + 7) != p);
        }
        text::law_after_first(head, p, data);
    }
    if forall|i: int| 0 <= i <= data.len() - 7 ==> #[trigger] data.subrange(i, i + 7) != p {
        assert forall|i: int|
            0 <= i <= data.len() - p.len() implies #[trigger] data.subrange(i, i + p.len()) != p by {
            assert(data.subrange(i, i + 7) != p);
        }
        text::law_after_nothing(data, p);
    }
}

/// What comes of an upload: the bytes that its text stands for; why it stands
/// for none; that there is no text.
pub proof fn law_uploaded(payload: Doc, data: Seq<char>, bytes: Seq<u8>, message: Seq<char>)
    ensures
        payload.text_at("data_base64"@) is None ==> uploaded(payload) == Err::<
            Seq<u8>,
            (Status, Seq<char>),
        >((Status::BadRequest, "data_base64 required"@)),
        payload.text_at("data_base64"@) == Some(data) && outside::base64_bytes(base64_part(data))
            == Ok::<Seq<u8>, Seq<char>>(bytes) ==> uploaded(payload) == Ok::<
            Seq<u8>,
            (Status, Seq<char>),
        >(bytes),
        payload.text_at("data_base64"@) == Some(data) && outside::base64_bytes(base64_part(data))
            == Err::<Seq<u8>, Seq<char>>(message) ==> uploaded(payload) == Err::<
            Seq<u8>,
            (Status, Seq<char>),
        >((Status::BadRequest, message)),
{
}

/// How the files are called: a photo is `photo` with its kind, a picture what it
/// belongs to with its kind.
pub proof fn law_file_names(stem: Seq<char>, kind: Seq<char>)
    ensures
        photo_name(kind) == seq!['p', 'h', 'o', 't', 'o', '.'] + kind,
        picture_name(stem, kind) == stem + seq!['.'] + kind,
        is_photo_name(photo_name(kind)),
        is_photo_name("thumb.jpg"@),
{
    reveal_strlit("photo.");
    reveal_strlit(".");
    assert("photo."@ =~= seq!['p', 'h', 'o', 't', 'o', '.']);
    assert("."@ =~= seq!['.']);
    text::law_prefix("photo."@, kind);
}

/// Only a file that begins with `photo.`, and the small one, is a photo.
pub proof fn law_no_photo(name: Seq<char>)
    ensures
        is_photo_name(name) ==> name == "thumb.jpg"@ || exists|kind: Seq<char>|
            name == #[trigger] photo_name(kind),
{
    if is_photo_name(name) && name != "thumb.jpg"@ {
        text::law_prefix("photo."@, name);
        assert(name == photo_name(name.skip("photo."@.len() as int)));
    }
}

/// The photo of a record is the file that it names, made safe.
pub proof fn law_photo_file(record: Doc, s: Seq<char>)
    ensures
        record.text_at("photo"@) == Some(s) ==> photo_file_of(record) == Some(names::safe_name(s)),
        record.text_at("photo"@) is None ==> photo_file_of(record) is None,
{
}

/// A record that gets a photo names it, and says when; what else it says stays.
pub proof fn law_photo_set(
    record: Doc,
    key: Seq<char>,
    id: Seq<char>,
    file: Seq<char>,
    now: u64,
    k: Seq<char>,
)
    requires
        record.is_object(),
        key != "photo"@,
        key != "photo_updated_ms"@,
        key != "updated_ms"@,
    ensures
        ({
            let r = photo_set(Some(record), key, id, file, now);
            &&& r.text_at(key) == Some(id)
            &&& r.text_at("photo"@) == Some(file)
            &&& r.whole_at("photo_updated_ms"@) == Some(now)
            &&& r.whole_at("updated_ms"@) == Some(now)
            &&& k != key && k != "photo"@ && k != "photo_updated_ms"@ && k != "updated_ms"@
                ==> r.get(k) == record.get(k)
        }),
        ({
            let r = photo_set(None, key, id, file, now);
            &&& r.text_at(key) == Some(id)
            &&& r.text_at("photo"@) == Some(file)
            &&& r.whole_at("photo_updated_ms"@) == Some(now)
            &&& r.whole_at("updated_ms"@) == Some(now)
            &&& r.has(k) ==> k == key || k == "photo"@ || k == "photo_updated_ms"@ || k
                == "updated_ms"@
        }),
{
    lemma_photo_names();
}

/// A record that loses its photo says when it did; what is answered to a photo
/// that was stored.
pub proof fn law_photo_cleared(record: Doc, file: Seq<char>, now: u64)
    requires
        record.is_object(),
    ensures
        !photo_cleared(record, now).has("photo"@),
        !photo_cleared(record, now).has("photo_updated_ms"@),
        photo_cleared(record, now).whole_at("updated_ms"@) == Some(now),
        photo_stored(file, now).get("ok"@) == Some(Doc::Bool(true)),
        photo_stored(file, now).text_at("filename"@) == Some(file),
        photo_stored(file, now).whole_at("photo_updated_ms"@) == Some(now),
{
    lemma_photo_names();
}

/// An image of up to three thousand million pixels can be shrunk.
pub proof fn law_large_photos_shrink(width: u32, height: u32)
    requires
        width * height <= 3_000_000_000,
    ensures
        outside::size_fits(width, height, 400, 400),
{
    let long: int = if width >= height {
        width as int
    } else {
        height as int
    };
    let short: int = if width >= height {
        height as int
    } else {
        width as int
    };
    let along: int = long / 400 + long / 40000 + 3;
    let across: int = if 2 * along < short {
        2 * along
    } else {
        short
    };
    assert(long * short <= 3_000_000_000) by {
        if width < height {
            assert(width * height == height * width) by (nonlinear_arith);
        }
    }
    assert(outside::most_pixels(width, height, 400, 400) == along * across);
    if long <= 1_140_000 {
        assert(along * across <= 2881 * 5762) by (nonlinear_arith)
            requires
                0 <= along <= 2881,
                0 <= across <= 5762,
        ;
    } else {
        assert(short <= 2632) by (nonlinear_arith)
            requires
                long * short <= 3_000_000_000,
                long > 1_140_000,
                short >= 0,
        ;
        assert(40000 * along <= 101 * long + 120000);
        assert(40000 * (along * across) <= 101 * (long * short) + 120000 * short) by (
            nonlinear_arith)
            requires
                40000 * along <= 101 * long + 120000,
                0 <= across <= short,
                0 <= along,
        ;
    }
}

/// An image whose samples have at most 8 bits, or that is small, is shrunk as it
/// is to at most 400 pixels and the quality 65; another one is first fitted with
/// wider sums.
pub proof fn law_shrunk(img: image::DynamicImage)
    requires
        shrinkable(img),
    ensures
        outside::image_shape(img).2 != 16 * outside::image_shape(img).3 ==> shrunk(img)
            == outside::small_jpeg(img, 400, 400, 65),
        outside::image_shape(img).0 <= 400 && outside::image_shape(img).1 <= 400 ==> shrunk(img)
            == outside::small_jpeg(img, 400, 400, 65),
        shrunk(img) == outside::small_jpeg(img, 400, 400, 65) || shrunk(img) == outside::small_jpeg(
            outside::widely_fitted(img, 400, 400),
            400,
            400,
            65,
        ),
{
    if outside::image_shape(img).0 <= 400 && outside::image_shape(img).1 <= 400 {
        lemma_small_fits(outside::image_shape(img));
    }
}

/// The last part of a path stands behind its last slash.
pub proof fn law_last_part(dir: Seq<char>, name: Seq<char>)
    requires
        forall|k: int| 0 <= k < name.len() ==> #[trigger] name[k] != '/',
    ensures
        outside::last_part(dir + seq!['/'] + name) == name,
        outside::last_part(name) == name,
    decreases name.len(),
{
    let path = dir + seq!['/'] + name;
    if name.len() == 0 {
        assert(path.last() == '/');
        assert(name =~= Seq::<char>::empty());
    } else {
        let front = name.drop_last();
        law_last_part(dir, front);
        assert(path.last() == name.last());
        assert(path.drop_last() =~= dir + seq!['/'] + front);
        assert(name =~= front.push(name.last()));
    }
}

proof fn lemma_sent_extension(sent: Seq<char>, front: Seq<char>, ext: Seq<char>)
    requires
        outside::last_part(sent) == front + seq!['.'] + ext,
        front.len() > 0,
        ext.len() > 0,
        forall|k: int| 0 <= k < ext.len() ==> #[trigger] ext[k] != '.',
    ensures
        names::extension(outside::last_part(sent)) == Some(ext),
{
    names::law_extension(front, ext);
}

/// A photo that is sent is kept under the kind that the name with it ends in,
/// whatever the case of its letters; where that is none of the kinds, or no name
/// was sent, as a JPEG.
pub proof fn law_photo_named(payload: Doc, file: Seq<char>, front: Seq<char>, ext: Seq<char>)
    requires
        photo_named(payload, file),
    ensures
        file == "photo.png"@ || file == "photo.jpg"@ || file == "photo.jpeg"@ || file
            == "photo.webp"@ || file == "photo.gif"@,
        payload.text_at("filename"@) is None ==> file == "photo.jpg"@,
        payload.text_at("filename"@) is Some && outside::same_everywhere(
            payload.text_in("filename"@),
        ) && outside::last_part(payload.text_in("filename"@)) == front + seq!['.'] + ext
            && front.len() > 0 && ext.len() > 0 && (forall|k: int|
            0 <= k < ext.len() ==> #[trigger] ext[k] != '.') ==> {
            let e = text::all_small(ext);
            file == if e == "png"@ || e == "jpg"@ || e == "jpeg"@ || e == "webp"@ || e == "gif"@ {
                photo_name(e)
            } else {
                photo_name("jpg"@)
            }
        },
{
    reveal_strlit("photo.");
    reveal_strlit("png");
    reveal_strlit("jpg");
    reveal_strlit("jpeg");
    reveal_strlit("webp");
    reveal_strlit("gif");
    reveal_strlit("photo.png");
    reveal_strlit("photo.jpg");
    reveal_strlit("photo.jpeg");
    reveal_strlit("photo.webp");
    reveal_strlit("photo.gif");
    reveal_strlit("photo");
    reveal_strlit(".");
    assert("photo."@ + "png"@ =~= "photo.png"@);
    assert("photo."@ + "jpg"@ =~= "photo.jpg"@);
    assert("photo."@ + "jpeg"@ =~= "photo.jpeg"@);
    assert("photo."@ + "webp"@ =~= "photo.webp"@);
    assert("photo."@ + "gif"@ =~= "photo.gif"@);
    let sent = payload.text_or("filename"@, "photo.jpg"@);
    if payload.text_at("filename"@) is None {
        assert(forall|k: int| 0 <= k < sent.len() ==> #[trigger] sent[k] != '/');
        law_last_part(Seq::<char>::empty(), sent);
        assert(sent =~= "photo"@ + seq!['.'] + "jpg"@);
        lemma_sent_extension(sent, "photo"@, "jpg"@);
        assert(text::all_small("jpg"@) =~= "jpg"@);
        assert(outside::same_everywhere(sent)) by {
            assert(sent.len() == 9);
            assert("."@.len() == 1);
        }
    }
    if outside::last_part(sent) == front + seq!['.'] + ext && front.len() > 0 && ext.len() > 0 && (
    forall|k: int| 0 <= k < ext.len() ==> #[trigger] ext[k] != '.') {
        lemma_sent_extension(sent, front, ext);
    }
}

/// A picture that is sent is kept under what it belongs to, with the kind that
/// the name with it ends in; where that is none of the kinds, as a PNG.
pub proof fn law_picture_named(
    payload: Doc,
    default_name: Seq<char>,
    stem: Seq<char>,
    file: Seq<char>,
    front: Seq<char>,
    ext: Seq<char>,
)
    requires
        picture_named(payload, default_name, stem, file),
    ensures
        file == picture_name(stem, "png"@) || file == picture_name(stem, "jpg"@) || file
            == picture_name(stem, "jpeg"@) || file == picture_name(stem, "webp"@) || file
            == picture_name(stem, "gif"@) || file == picture_name(stem, "svg"@),
        ({
            let sent = match payload.text_at("filename"@) {
                Some(s) => s,
                None => default_name,
            };
            let e = text::lowered(ext);
            outside::same_everywhere(sent) && outside::last_part(sent) == front + seq!['.'] + ext
                && front.len() > 0 && ext.len() > 0 && (forall|k: int|
                0 <= k < ext.len() ==> #[trigger] ext[k] != '.') ==> file == if e == "png"@ || e
                == "jpg"@ || e == "jpeg"@ || e == "webp"@ || e == "gif"@ || e == "svg"@ {
                picture_name(stem, e)
            } else {
                picture_name(stem, "png"@)
            }
        }),
{
    let sent = payload.text_or("filename"@, default_name);
    if outside::last_part(sent) == front + seq!['.'] + ext && front.len() > 0 && ext.len() > 0 && (
    forall|k: int| 0 <= k < ext.len() ==> #[trigger] ext[k] != '.') {
        lemma_sent_extension(sent, front, ext);
    }
}

/// A name is the same path everywhere where it holds no backslash and no colon,
/// does not begin with two slashes, and ends in a part that is more than a dot.
pub proof fn law_same_everywhere(dir: Seq<char>, name: Seq<char>)
    requires
        forall|k: int| 0 <= k < name.len() ==> #[trigger] name[k] != '/' && name[k] != '\\' && name[k]
            != ':',
        name.len() > 1,
    ensures
        outside::same_everywhere(name),
        (forall|k: int| 0 <= k < dir.len() ==> #[trigger] dir[k] != '\\' && dir[k] != ':') && (
        dir.len() > 1 ==> !(dir[0] == '/' && dir[1] == '/')) && dir != seq!['/']
            ==> outside::same_everywhere(dir + seq!['/'] + name),
{
    reveal_strlit(".");
    law_last_part(dir, name);
    assert("."@.len() == 1);
    let path = dir + seq!['/'] + name;
    if (forall|k: int| 0 <= k < dir.len() ==> #[trigger] dir[k] != '\\' && dir[k] != ':') && (
    dir.len() > 1 ==> !(dir[0] == '/' && dir[1] == '/')) && dir != seq!['/'] {
        assert forall|i: int| 0 <= i < path.len() implies #[trigger] path[i] != '\\' && path[i]
            != ':' by {
            if i < dir.len() {
                assert(path[i] == dir[i]);
            } else if i > dir.len() {
                assert(path[i] == name[i - dir.len() - 1]);
            }
        }
        if dir.len() == 0 {
            assert(path[1] == name[0]);
        } else if dir.len() == 1 {
            if dir[0] == '/' {
                assert(dir =~= seq!['/']);
            }
            assert(path[0] == dir[0]);
        } else {
            assert(path[0] == dir[0] && path[1] == dir[1]);
        }
    }
}

/// The file to serve as the photo of a record, and its type of content.
pub open spec fn photo_served(record: Doc) -> Result<(Seq<char>, Seq<char>), (Status, Seq<char>)> {
    match photo_file_of(record) {
        Some(file) => Ok(
            (
                file,
                photo_mime(
                    match names::extension(file) {
                        Some(e) => e,
                        None => Seq::<char>::empty(),
                    },
                ),
            ),
        ),
        None => Err((Status::NotFound, "no photo"@)),
    }
}

/// The record to write where a photo goes.
pub open spec fn photo_taken_off(record: Doc, now: u64) -> Option<Doc> {
    if record.is_object() {
        Some(photo_cleared(record, now))
    } else {
        None
    }
}

/// What is served is the file that the record names, made safe, as what its
/// extension says; a record without a photo has none to serve.
pub proof fn law_photo_served(record: Doc, s: Seq<char>, front: Seq<char>, ext: Seq<char>)
    ensures
        record.text_at("photo"@) is None ==> photo_served(record) == Err::<
            (Seq<char>, Seq<char>),
            (Status, Seq<char>),
        >((Status::NotFound, "no photo"@)),
        record.text_at("photo"@) == Some(s) ==> (photo_served(record) matches Ok(p) && p.0
            == names::safe_name(s) && (names::safe_name(s) == front + seq!['.'] + ext && front.len()
            > 0 && ext.len() > 0 && (forall|k: int| 0 <= k < ext.len() ==> #[trigger] ext[k] != '.')
            ==> p.1 == photo_mime(ext))),
{
    if front.len() > 0 && ext.len() > 0 && (forall|k: int|
        0 <= k < ext.len() ==> #[trigger] ext[k] != '.') {
        names::law_extension(front, ext);
    }
}

/// A photo goes from a record that is one, and from nothing else.
pub proof fn law_photo_taken_off(record: Doc, now: u64, k: Seq<char>)
    ensures
        record.is_object() ==> (photo_taken_off(record, now) matches Some(d) && photo_file_of(
            d,
        ) is None && d.whole_at("updated_ms"@) == Some(now) && (k != "photo"@ && k
            != "photo_updated_ms"@ && k != "updated_ms"@ ==> d.get(k) == record.get(k))),
        !record.is_object() ==> photo_taken_off(record, now) is None,
{
    lemma_photo_names();
}

} // verus!
