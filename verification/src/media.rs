use vstd::prelude::*;

use image::ImageFormat;

use crate::config::{join_path, join_spec};
use crate::digest::{
    hex_lower, lemma_hex_lower_digits, lemma_hex_lower_injective, lemma_hex_lower_len,
    sha256_digest,
};
use crate::refusal::Refusal;
use crate::text::{
    ascii_lower, chars_of, decimal, find_char, find_char_from, has_prefix_at, parse_u64_range,
    parse_u64_spec, push_decimal, push_str, str_equals, to_ascii_lowercase, to_owned_string,
};

verus! {

// ----------------------------------------------------------------------
// Formats
// ----------------------------------------------------------------------

/// A media format the service stores.
#[derive(Clone, Copy, Debug, PartialEq, Eq, Structural)]
pub enum MediaFormat {
    Mp4,
    Jpeg,
    Png,
    Gif,
    WebP,
    Avif,
    Ico,
}

impl MediaFormat {
    pub open spec fn ext_spec(self) -> Seq<char> {
        match self {
            MediaFormat::Mp4 => "mp4"@,
            MediaFormat::Jpeg => "jpeg"@,
            MediaFormat::Png => "png"@,
            MediaFormat::Gif => "gif"@,
            MediaFormat::WebP => "webp"@,
            MediaFormat::Avif => "avif"@,
            MediaFormat::Ico => "ico"@,
        }
    }

    pub open spec fn mime_spec(self) -> Seq<char> {
        match self {
            MediaFormat::Mp4 => "video/mp4"@,
            MediaFormat::Jpeg => "image/jpeg"@,
            MediaFormat::Png => "image/png"@,
            MediaFormat::Gif => "image/gif"@,
            MediaFormat::WebP => "image/webp"@,
            MediaFormat::Avif => "image/avif"@,
            MediaFormat::Ico => "image/x-icon"@,
        }
    }

    /// The file extension stored files of this format get.
    pub fn ext(&self) -> (e: &'static str)
        ensures
            e@ == self.ext_spec(),
            (*self == MediaFormat::Mp4) == (e@ == "mp4"@),
            mime_for_ext_spec(e@) == self.mime_spec(),
            ext_for_format_spec(e@) == e@,
            *self != MediaFormat::Mp4 ==> output_format_spec(e@) == Some(*self),
    {
        proof {
            law_format_names(*self);
        }
        match self {
            MediaFormat::Mp4 => "mp4",
            MediaFormat::Jpeg => "jpeg",
            MediaFormat::Png => "png",
            MediaFormat::Gif => "gif",
            MediaFormat::WebP => "webp",
            MediaFormat::Avif => "avif",
            MediaFormat::Ico => "ico",
        }
    }

    /// The MIME type of this format.
    pub fn mime(&self) -> (m: &'static str)
        ensures
            m@ == self.mime_spec(),
    {
        match self {
            MediaFormat::Mp4 => "video/mp4",
            MediaFormat::Jpeg => "image/jpeg",
            MediaFormat::Png => "image/png",
            MediaFormat::Gif => "image/gif",
            MediaFormat::WebP => "image/webp",
            MediaFormat::Avif => "image/avif",
            MediaFormat::Ico => "image/x-icon",
        }
    }

    /// Whether this is a still image (everything but MP4).
    pub fn is_image(&self) -> (b: bool)
        ensures
            b == (self != MediaFormat::Mp4),
    {
        match self {
            MediaFormat::Mp4 => false,
            _ => true,
        }
    }
}

/// The image formats that `image::guess_format` tells apart and that matter here.
#[derive(Clone, Copy, Debug, PartialEq, Eq, Structural)]
pub enum GuessedFormat {
    Png,
    Jpeg,
    Gif,
    WebP,
    Avif,
    Ico,
    Other,
}

/// Whether `b` holds the bytes `sig` from offset `at` on.
pub open spec fn bytes_at(b: Seq<u8>, at: int, sig: Seq<u8>) -> bool {
    b.len() >= at + sig.len() && b.subrange(at, at + sig.len()) == sig
}

/// The format `image::guess_format` reads from the magic bytes at the start of
/// `b`: the first row of its signature table that matches, or `None`. The WebP
/// row leaves bytes 4 to 7 free, the AVIF row bytes 2 and 3; rows of formats not
/// listed here read as `Other`.
pub open spec fn guess_spec(b: Seq<u8>) -> Option<GuessedFormat> {
    if bytes_at(b, 0, seq![0x89u8, 0x50, 0x4e, 0x47, 0x0d, 0x0a, 0x1a, 0x0a]) {
        Some(GuessedFormat::Png)
    } else if bytes_at(b, 0, seq![0xffu8, 0xd8, 0xff]) {
        Some(GuessedFormat::Jpeg)
    } else if bytes_at(b, 0, seq![0x47u8, 0x49, 0x46, 0x38, 0x39, 0x61]) || bytes_at(
        b,
        0,
        seq![0x47u8, 0x49, 0x46, 0x38, 0x37, 0x61],
    ) {
        Some(GuessedFormat::Gif)
    } else if bytes_at(b, 0, seq![0x52u8, 0x49, 0x46, 0x46]) && bytes_at(
        b,
        8,
        seq![0x57u8, 0x45, 0x42, 0x50],
    ) {
        Some(GuessedFormat::WebP)
    } else if bytes_at(b, 0, seq![0x4du8, 0x4d, 0x00, 0x2a])  // TIFF
     || bytes_at(b, 0, seq![0x49u8, 0x49, 0x2a, 0x00])  // TIFF
     || bytes_at(b, 0, seq![0x44u8, 0x44, 0x53, 0x20])  // DDS
     || bytes_at(b, 0, seq![0x42u8, 0x4d]) {  // BMP
        Some(GuessedFormat::Other)
    } else if bytes_at(b, 0, seq![0x00u8, 0x00, 0x01, 0x00]) {
        Some(GuessedFormat::Ico)
    } else if bytes_at(b, 0, seq![0x23u8, 0x3f, 0x52, 0x41, 0x44, 0x49, 0x41, 0x4e, 0x43, 0x45]) {
        Some(GuessedFormat::Other)  // HDR
    } else if bytes_at(b, 0, seq![0x00u8, 0x00]) && bytes_at(
        b,
        4,
        seq![0x66u8, 0x74, 0x79, 0x70, 0x61, 0x76, 0x69, 0x66],
    ) {
        Some(GuessedFormat::Avif)
    } else if bytes_at(b, 0, seq![0x76u8, 0x2f, 0x31, 0x01])  // OpenEXR
     || bytes_at(b, 0, seq![0x71u8, 0x6f, 0x69, 0x66])  // QOI
     || (bytes_at(b, 0, seq![0x50u8]) && b.len() >= 2 && 0x31 <= b[1] <= 0x37)  // PNM, P1 to P7
     || bytes_at(b, 0, seq![0x66u8, 0x61, 0x72, 0x62, 0x66, 0x65, 0x6c, 0x64]) {  // farbfeld
        Some(GuessedFormat::Other)
    } else {
        None
    }
}

/// Guesses an image format from the leading bytes.
///
/// Trusted: `image::guess_format`, whose `guess_format_impl` walks the 22 rows of
/// `MAGIC_BYTES` in order and returns the format of the first whose signature the
/// start of `bytes` matches (under the row's mask, if it has one), and an error when
/// none does. The contract states that table as `guess_spec`. Variants of
/// `ImageFormat` other than the six listed become `Other`; an error becomes `None`.
#[verifier::external_body]
fn guess_image_format(bytes: &[u8]) -> (g: Option<GuessedFormat>)
    ensures
        g == guess_spec(bytes@),
{
    match image::guess_format(bytes) {
        Ok(ImageFormat::Png) => Some(GuessedFormat::Png),
        Ok(ImageFormat::Jpeg) => Some(GuessedFormat::Jpeg),
        Ok(ImageFormat::Gif) => Some(GuessedFormat::Gif),
        Ok(ImageFormat::WebP) => Some(GuessedFormat::WebP),
        Ok(ImageFormat::Avif) => Some(GuessedFormat::Avif),
        Ok(ImageFormat::Ico) => Some(GuessedFormat::Ico),
        Ok(_) => Some(GuessedFormat::Other),
        Err(_) => None,
    }
}

pub open spec fn format_of_guess(g: Option<GuessedFormat>) -> Option<MediaFormat> {
    match g {
        Some(GuessedFormat::Png) => Some(MediaFormat::Png),
        Some(GuessedFormat::Jpeg) => Some(MediaFormat::Jpeg),
        Some(GuessedFormat::Gif) => Some(MediaFormat::Gif),
        Some(GuessedFormat::WebP) => Some(MediaFormat::WebP),
        Some(GuessedFormat::Avif) => Some(MediaFormat::Avif),
        Some(GuessedFormat::Ico) => Some(MediaFormat::Ico),
        _ => None,
    }
}

/// The stored format for a guessed image format; other formats are not accepted.
pub fn format_from_guess(g: Option<GuessedFormat>) -> (f: Option<MediaFormat>)
    ensures
        f == format_of_guess(g),
{
    match g {
        Some(GuessedFormat::Png) => Some(MediaFormat::Png),
        Some(GuessedFormat::Jpeg) => Some(MediaFormat::Jpeg),
        Some(GuessedFormat::Gif) => Some(MediaFormat::Gif),
        Some(GuessedFormat::WebP) => Some(MediaFormat::WebP),
        Some(GuessedFormat::Avif) => Some(MediaFormat::Avif),
        Some(GuessedFormat::Ico) => Some(MediaFormat::Ico),
        _ => None,
    }
}

/// Whether bytes 8 to 11, the major brand of an `ftyp` box, spell `c0 c1 c2 c3`.
pub open spec fn brand_is(b: Seq<u8>, c0: char, c1: char, c2: char, c3: char) -> bool {
    &&& b.len() >= 12
    &&& b[8] == c0 as u8
    &&& b[9] == c1 as u8
    &&& b[10] == c2 as u8
    &&& b[11] == c3 as u8
}

/// The major brand of an AVIF image, `avif`: of the files with an `ftyp` box, the
/// one the service stores as an image.
pub open spec fn is_avif_brand(b: Seq<u8>) -> bool {
    brand_is(b, 'a', 'v', 'i', 'f')
}

/// An MP4 file: at least 12 bytes, `ftyp` at bytes 4 to 7, and a major brand
/// other than `avif`.
pub open spec fn is_mp4_spec(b: Seq<u8>) -> bool {
    &&& b.len() >= 12
    &&& b[4] == 0x66u8
    &&& b[5] == 0x74u8
    &&& b[6] == 0x79u8
    &&& b[7] == 0x70u8
    &&& !is_avif_brand(b)
}

fn has_brand(bytes: &[u8], c0: char, c1: char, c2: char, c3: char) -> (r: bool)
    ensures
        r == brand_is(bytes@, c0, c1, c2, c3),
{
    bytes.len() >= 12 && bytes[8] == c0 as u8 && bytes[9] == c1 as u8 && bytes[10] == c2 as u8
        && bytes[11] == c3 as u8
}

/// Whether the `ftyp` box at the start of `bytes` names the AVIF brand.
pub fn has_avif_brand(bytes: &[u8]) -> (r: bool)
    ensures
        r == is_avif_brand(bytes@),
{
    has_brand(bytes, 'a', 'v', 'i', 'f')
}

/// Whether `bytes` look like an MP4 file.
pub fn is_mp4(bytes: &[u8]) -> (r: bool)
    ensures
        r == is_mp4_spec(bytes@),
{
    bytes.len() >= 12 && bytes[4] == 0x66u8 && bytes[5] == 0x74u8 && bytes[6] == 0x79u8 && bytes[7]
        == 0x70u8 && !has_avif_brand(bytes)
}

pub open spec fn detect_spec(b: Seq<u8>) -> Option<MediaFormat> {
    if is_mp4_spec(b) {
        Some(MediaFormat::Mp4)
    } else {
        format_of_guess(guess_spec(b))
    }
}

/// The format of uploaded bytes: MP4 by an `ftyp` box of a brand other than AVIF, else
/// the image format guessed from the leading bytes, if it is one the service stores.
pub fn detect_format(bytes: &[u8]) -> (f: Option<MediaFormat>)
    ensures
        f == detect_spec(bytes@),
{
    if is_mp4(bytes) {
        return Some(MediaFormat::Mp4);
    }
    format_from_guess(guess_image_format(bytes))
}

/// The width and height of the image that `image::load_from_memory` decodes from
/// `bytes`, or `None` when it decodes none.
pub uninterp spec fn decoded_dimensions(bytes: Seq<u8>) -> Option<(u32, u32)>;

/// Decodes `bytes` as an image and reads its dimensions.
///
/// Trusted: `image::load_from_memory`, then `DynamicImage::width` and `height`.
/// It guesses the format from the magic bytes and runs that decoder under the
/// default limits, so its result is a function of `bytes` alone; the contract names
/// it `decoded_dimensions` and claims no more. An error becomes `None`.
#[verifier::external_body]
fn decode_dimensions(bytes: &[u8]) -> (d: Option<(u32, u32)>)
    ensures
        d == decoded_dimensions(bytes@),
{
    match image::load_from_memory(bytes) {
        Ok(img) => Some((img.width(), img.height())),
        Err(_) => None,
    }
}

/// The dimensions recorded for an upload: those of the decoded image for an
/// image format, none for a video or an image that does not decode.
pub fn upload_dimensions(format: MediaFormat, bytes: &[u8]) -> (d: Option<(u32, u32)>)
    ensures
        d == (if format != MediaFormat::Mp4 {
            decoded_dimensions(bytes@)
        } else {
            None
        }),
{
    if format.is_image() {
        decode_dimensions(bytes)
    } else {
        None
    }
}

/// The decision on an upload's bytes: refused when empty or of no stored format.
pub fn check_upload(bytes: &[u8]) -> (r: Result<MediaFormat, Refusal>)
    ensures
        bytes@.len() == 0 ==> r == Err::<MediaFormat, Refusal>(Refusal::MissingFile),
        bytes@.len() > 0 ==> r == match detect_spec(bytes@) {
            Some(f) => Ok(f),
            None => Err(Refusal::UnsupportedMedia),
        },
{
    if bytes.len() == 0 {
        return Err(Refusal::MissingFile);
    }
    match detect_format(bytes) {
        Some(f) => Ok(f),
        None => Err(Refusal::UnsupportedMedia),
    }
}

/// The output formats of transforms.
pub open spec fn is_transform_format(f: Seq<char>) -> bool {
    ||| f == "jpeg"@
    ||| f == "png"@
    ||| f == "gif"@
    ||| f == "webp"@
    ||| f == "avif"@
    ||| f == "ico"@
}

/// Whether `f` names an output format of transforms.
pub fn transform_format_allowed(f: &str) -> (b: bool)
    ensures
        b == is_transform_format(f@),
{
    str_equals(f, "jpeg") || str_equals(f, "png") || str_equals(f, "gif") || str_equals(f, "webp")
        || str_equals(f, "avif") || str_equals(f, "ico")
}

/// The formats transforms can produce, as the status report lists them.
pub fn transform_formats() -> (v: Vec<&'static str>)
    ensures
        v@.len() == 6,
        v@[0]@ == "jpeg"@ && v@[1]@ == "png"@ && v@[2]@ == "gif"@,
        v@[3]@ == "webp"@ && v@[4]@ == "avif"@ && v@[5]@ == "ico"@,
{
    vec!["jpeg", "png", "gif", "webp", "avif", "ico"]
}

/// The formats uploads may have, as the status report lists them.
pub fn upload_formats() -> (v: Vec<&'static str>)
    ensures
        v@.len() == 7,
        v@[0]@ == "jpeg"@ && v@[1]@ == "png"@ && v@[2]@ == "gif"@,
        v@[3]@ == "webp"@ && v@[4]@ == "avif"@ && v@[5]@ == "ico"@,
        v@[6]@ == "mp4"@,
{
    vec!["jpeg", "png", "gif", "webp", "avif", "ico", "mp4"]
}

pub open spec fn output_format_spec(name: Seq<char>) -> Option<MediaFormat> {
    if name == "jpeg"@ || name == "jpg"@ {
        Some(MediaFormat::Jpeg)
    } else if name == "png"@ {
        Some(MediaFormat::Png)
    } else if name == "gif"@ {
        Some(MediaFormat::Gif)
    } else if name == "webp"@ {
        Some(MediaFormat::WebP)
    } else if name == "avif"@ {
        Some(MediaFormat::Avif)
    } else if name == "ico"@ {
        Some(MediaFormat::Ico)
    } else {
        None
    }
}

/// The image format a transform writes for an output format name; `jpg` is JPEG.
pub fn output_format(name: &str) -> (f: Option<MediaFormat>)
    ensures
        f == output_format_spec(name@),
        is_transform_format(name@) ==> (f matches Some(g) && g.ext_spec() == name@),
        f matches Some(g) ==> g != MediaFormat::Mp4,
{
    proof {
        law_transform_formats_have_encoders(name@);
    }
    if str_equals(name, "jpeg") || str_equals(name, "jpg") {
        Some(MediaFormat::Jpeg)
    } else if str_equals(name, "png") {
        Some(MediaFormat::Png)
    } else if str_equals(name, "gif") {
        Some(MediaFormat::Gif)
    } else if str_equals(name, "webp") {
        Some(MediaFormat::WebP)
    } else if str_equals(name, "avif") {
        Some(MediaFormat::Avif)
    } else if str_equals(name, "ico") {
        Some(MediaFormat::Ico)
    } else {
        None
    }
}

/// The lengths and first letters that tell the format names apart.
proof fn lemma_format_name_letters()
    ensures
        "mp4"@.len() == 3 && "mp4"@[0] == 'm',
        "jpeg"@.len() == 4 && "jpeg"@[0] == 'j',
        "jpg"@.len() == 3 && "jpg"@[0] == 'j',
        "png"@.len() == 3 && "png"@[0] == 'p',
        "gif"@.len() == 3 && "gif"@[0] == 'g',
        "webp"@.len() == 4 && "webp"@[0] == 'w',
        "avif"@.len() == 4 && "avif"@[0] == 'a',
        "ico"@.len() == 3 && "ico"@[0] == 'i',
{
    reveal_strlit("mp4");
    reveal_strlit("jpeg");
    reveal_strlit("jpg");
    reveal_strlit("png");
    reveal_strlit("gif");
    reveal_strlit("webp");
    reveal_strlit("avif");
    reveal_strlit("ico");
}

/// Every output format that transforms accept has an encoder, which writes files
/// of that very name; none of them is MP4.
pub proof fn law_transform_formats_have_encoders(n: Seq<char>)
    ensures
        is_transform_format(n) ==> (output_format_spec(n) matches Some(g) && g.ext_spec() == n),
        output_format_spec(n) matches Some(g) ==> g != MediaFormat::Mp4,
{
    lemma_format_name_letters();
}

/// Each format is stored and served under its own name: `ext_for_format` keeps the
/// extension, it is served with the format's MIME type, an image's extension is an
/// output format of transforms that encodes to the same format, and `mp4`, the
/// name the player page and `plan_serve` treat as video, is MP4's alone.
pub proof fn law_format_names(f: MediaFormat)
    ensures
        ext_for_format_spec(f.ext_spec()) == f.ext_spec(),
        mime_for_ext_spec(f.ext_spec()) == f.mime_spec(),
        (f == MediaFormat::Mp4) == (f.ext_spec() == "mp4"@),
        f != MediaFormat::Mp4 ==> is_transform_format(f.ext_spec()) && output_format_spec(
            f.ext_spec(),
        ) == Some(f),
{
    lemma_format_name_letters();
    match f {
        MediaFormat::Mp4 => {},
        MediaFormat::Jpeg => {},
        MediaFormat::Png => {},
        MediaFormat::Gif => {},
        MediaFormat::WebP => {},
        MediaFormat::Avif => {},
        MediaFormat::Ico => {},
    }
}

pub open spec fn ext_for_format_spec(f: Seq<char>) -> Seq<char> {
    if f == "jpg"@ {
        "jpeg"@
    } else if f == "jpeg"@ || f == "png"@ || f == "gif"@ || f == "webp"@ || f == "avif"@ || f
        == "ico"@ || f == "mp4"@ {
        f
    } else {
        "bin"@
    }
}

/// The file extension for an output format: `jpg` becomes `jpeg`, known formats
/// keep their name, anything else is `bin`.
pub fn ext_for_format<'a>(format: &'a str) -> (e: &'a str)
    ensures
        e@ == ext_for_format_spec(format@),
{
    if str_equals(format, "jpg") {
        "jpeg"
    } else if str_equals(format, "jpeg") || str_equals(format, "png") || str_equals(format, "gif")
        || str_equals(format, "webp") || str_equals(format, "avif") || str_equals(format, "ico")
        || str_equals(format, "mp4") {
        format
    } else {
        "bin"
    }
}

pub open spec fn mime_for_ext_spec(e: Seq<char>) -> Seq<char> {
    if e == "jpeg"@ || e == "jpg"@ {
        "image/jpeg"@
    } else if e == "png"@ {
        "image/png"@
    } else if e == "gif"@ {
        "image/gif"@
    } else if e == "webp"@ {
        "image/webp"@
    } else if e == "avif"@ {
        "image/avif"@
    } else if e == "ico"@ {
        "image/x-icon"@
    } else if e == "mp4"@ {
        "video/mp4"@
    } else {
        "application/octet-stream"@
    }
}

/// The MIME type served for a file extension.
pub fn mime_for_ext(ext: &str) -> (m: &'static str)
    ensures
        m@ == mime_for_ext_spec(ext@),
{
    if str_equals(ext, "jpeg") || str_equals(ext, "jpg") {
        "image/jpeg"
    } else if str_equals(ext, "png") {
        "image/png"
    } else if str_equals(ext, "gif") {
        "image/gif"
    } else if str_equals(ext, "webp") {
        "image/webp"
    } else if str_equals(ext, "avif") {
        "image/avif"
    } else if str_equals(ext, "ico") {
        "image/x-icon"
    } else if str_equals(ext, "mp4") {
        "video/mp4"
    } else {
        "application/octet-stream"
    }
}

// ----------------------------------------------------------------------
// Links and receipts
// ----------------------------------------------------------------------

/// The direct link of a stored file: `/i/<id>`.
pub fn image_url(id: &str) -> (u: String)
    ensures
        u@ == "/i/"@ + id@,
{
    let mut u = String::new();
    push_str(&mut u, "/i/");
    push_str(&mut u, id);
    u
}

/// The player page of an MP4 file, `/p/<id>`; other files have none.
pub fn player_url_for_ext(id: &str, ext: String) -> (u: Option<String>)
    ensures
        match u {
            Some(p) => ext@ == "mp4"@ && p@ == "/p/"@ + id@,
            None => ext@ != "mp4"@,
        },
{
    if str_equals(ext.as_str(), "mp4") {
        let mut p = String::new();
        push_str(&mut p, "/p/");
        push_str(&mut p, id);
        Some(p)
    } else {
        None
    }
}

/// What an upload answers.
#[derive(Debug)]
pub struct UploadReceipt {
    pub id: String,
    pub duplicate: bool,
    pub url: String,
    pub player_url: Option<String>,
    pub sha256: String,
}

/// The answer to an upload of a file stored under `id`, with extension `ext` and
/// content hash `sha256`; `duplicate` when the uploader had stored it before.
pub fn upload_receipt(id: &str, duplicate: bool, ext: &str, sha256: String) -> (r: UploadReceipt)
    ensures
        r.id@ == id@,
        r.duplicate == duplicate,
        r.url@ == "/i/"@ + id@,
        match r.player_url {
            Some(p) => ext@ == "mp4"@ && p@ == "/p/"@ + id@,
            None => ext@ != "mp4"@,
        },
        r.sha256@ == sha256@,
{
    UploadReceipt {
        id: to_owned_string(id),
        duplicate,
        url: image_url(id),
        player_url: player_url_for_ext(id, to_owned_string(ext)),
        sha256,
    }
}

/// The answer to an upload whose bytes the uploader had stored before, found as
/// the row `(id, ext)` of that earlier upload: a receipt marked duplicate. `None`
/// where there was no such row, and the upload goes on to be stored.
pub fn duplicate_receipt(existing: Option<(String, String)>, sha256: String) -> (r: Option<
    UploadReceipt,
>)
    ensures
        match existing {
            None => r is None,
            Some((id, ext)) => match r {
                None => false,
                Some(rc) => {
                    &&& rc.id@ == id@
                    &&& rc.duplicate
                    &&& rc.url@ == "/i/"@ + id@
                    &&& (match rc.player_url {
                        Some(p) => ext@ == "mp4"@ && p@ == "/p/"@ + id@,
                        None => ext@ != "mp4"@,
                    })
                    &&& rc.sha256@ == sha256@
                },
            },
        },
{
    match existing {
        None => None,
        Some((id, ext)) => Some(upload_receipt(id.as_str(), true, ext.as_str(), sha256)),
    }
}

// ----------------------------------------------------------------------
// Where originals are stored
// ----------------------------------------------------------------------

/// The file an original is stored in: `<sha256>.<ext>` in the originals directory.
pub open spec fn original_path_spec(dir: Seq<char>, sha256: Seq<char>, ext: Seq<char>) -> Seq<
    char,
> {
    join_spec(dir, sha256 + seq!['.'] + ext)
}

/// The file an original with content hash `sha256` and extension `ext` is stored in.
pub fn original_path(originals_dir: &str, sha256: &str, ext: &str) -> (p: String)
    ensures
        p@ == original_path_spec(originals_dir@, sha256@, ext@),
{
    let mut name = String::new();
    push_str(&mut name, sha256);
    push_str(&mut name, ".");
    push_str(&mut name, ext);
    proof {
        reveal_strlit(".");
    }
    join_path(originals_dir, name.as_str())
}

/// The file that uploaded `bytes` are stored in, when their format is accepted.
pub open spec fn stored_file_of(dir: Seq<char>, bytes: Seq<u8>) -> Option<Seq<char>> {
    match detect_spec(bytes) {
        Some(f) => Some(original_path_spec(dir, hex_lower(sha256_digest(bytes)), f.ext_spec())),
        None => None,
    }
}

/// Storage is deduplicated: where two uploads have the same content hash and
/// are read as the same format, they go to one stored file, whoever sent them.
pub proof fn law_same_digest_same_original(dir: Seq<char>, a: Seq<u8>, b: Seq<u8>)
    requires
        sha256_digest(a) == sha256_digest(b),
        detect_spec(a) == detect_spec(b),
    ensures
        stored_file_of(dir, a) == stored_file_of(dir, b),
        stored_file_of(dir, a) is Some <==> detect_spec(a) is Some,
{
}

/// Storage is keyed by content: two accepted uploads share a stored file exactly
/// when they have the same content hash and are read as the same format (digests
/// are 32 bytes, as `sha256_of` gives them).
pub proof fn law_shared_original_iff_same_content(dir: Seq<char>, a: Seq<u8>, b: Seq<u8>)
    requires
        sha256_digest(a).len() == 32,
        sha256_digest(b).len() == 32,
        detect_spec(a) is Some,
        detect_spec(b) is Some,
    ensures
        stored_file_of(dir, a) == stored_file_of(dir, b) <==> (sha256_digest(a) == sha256_digest(
            b,
        ) && detect_spec(a) == detect_spec(b)),
{
    let ha = hex_lower(sha256_digest(a));
    let hb = hex_lower(sha256_digest(b));
    lemma_hex_lower_len(sha256_digest(a));
    lemma_hex_lower_len(sha256_digest(b));
    lemma_hex_lower_digits(sha256_digest(a));
    lemma_hex_lower_digits(sha256_digest(b));
    assert(ha[0] != '/');
    assert(hb[0] != '/');
    if stored_file_of(dir, a) == stored_file_of(dir, b) {
        let fa = detect_spec(a).unwrap();
        let fb = detect_spec(b).unwrap();
        let na = ha + seq!['.'] + fa.ext_spec();
        let nb = hb + seq!['.'] + fb.ext_spec();
        lemma_join_same_base(dir, na, nb);
        assert(na.subrange(0, 64) =~= ha);
        assert(nb.subrange(0, 64) =~= hb);
        lemma_hex_lower_injective(sha256_digest(a), sha256_digest(b));
        assert(na.subrange(65, na.len() as int) =~= fa.ext_spec());
        assert(nb.subrange(65, nb.len() as int) =~= fb.ext_spec());
        lemma_ext_injective(fa, fb);
    }
}

/// The first letter of each format's extension, which tells the formats apart.
spec fn ext_initial(f: MediaFormat) -> char {
    match f {
        MediaFormat::Mp4 => 'm',
        MediaFormat::Jpeg => 'j',
        MediaFormat::Png => 'p',
        MediaFormat::Gif => 'g',
        MediaFormat::WebP => 'w',
        MediaFormat::Avif => 'a',
        MediaFormat::Ico => 'i',
    }
}

proof fn lemma_ext_initial(f: MediaFormat)
    ensures
        f.ext_spec().len() > 0,
        f.ext_spec()[0] == ext_initial(f),
{
    match f {
        MediaFormat::Mp4 => reveal_strlit("mp4"),
        MediaFormat::Jpeg => reveal_strlit("jpeg"),
        MediaFormat::Png => reveal_strlit("png"),
        MediaFormat::Gif => reveal_strlit("gif"),
        MediaFormat::WebP => reveal_strlit("webp"),
        MediaFormat::Avif => reveal_strlit("avif"),
        MediaFormat::Ico => reveal_strlit("ico"),
    }
}

/// Each format has an extension of its own.
proof fn lemma_ext_injective(f: MediaFormat, g: MediaFormat)
    requires
        f.ext_spec() == g.ext_spec(),
    ensures
        f == g,
{
    lemma_ext_initial(f);
    lemma_ext_initial(g);
}

/// Joined to one directory, two names that do not start with `/` give the same
/// path only if they are the same name.
proof fn lemma_join_same_base(dir: Seq<char>, x: Seq<char>, y: Seq<char>)
    requires
        x.len() > 0 && x[0] != '/',
        y.len() > 0 && y[0] != '/',
        join_spec(dir, x) == join_spec(dir, y),
    ensures
        x == y,
{
    let p = join_spec(dir, x);
    if dir.len() == 0 || dir.last() == '/' {
        assert(x =~= p.subrange(dir.len() as int, p.len() as int));
        assert(y =~= p.subrange(dir.len() as int, p.len() as int));
    } else {
        assert(x =~= p.subrange(dir.len() as int + 1, p.len() as int));
        assert(y =~= p.subrange(dir.len() as int + 1, p.len() as int));
    }
}

/// After images are deleted, a stored original goes when no image row still has
/// its content hash (`rows_with_hash` of them remain).
pub fn original_unused(rows_with_hash: i64) -> (r: bool)
    ensures
        r == (rows_with_hash == 0),
{
    rows_with_hash == 0
}

/// The player page exists for MP4 files only.
pub fn check_player_ext(ext: &str) -> (r: Result<(), Refusal>)
    ensures
        r == (if ext@ == "mp4"@ {
            Ok(())
        } else {
            Err(Refusal::PlayerOnlyForMp4)
        }),
{
    if str_equals(ext, "mp4") {
        Ok(())
    } else {
        Err(Refusal::PlayerOnlyForMp4)
    }
}

// ----------------------------------------------------------------------
// HTML
// ----------------------------------------------------------------------

pub open spec fn escape_char(c: char) -> Seq<char> {
    if c == '&' {
        "&amp;"@
    } else if c == '<' {
        "&lt;"@
    } else if c == '>' {
        "&gt;"@
    } else if c == '"' {
        "&quot;"@
    } else if c == '\'' {
        "&#39;"@
    } else {
        seq![c]
    }
}

/// `s` with `& < > " '` written as HTML character references.
pub open spec fn escape_html_spec(s: Seq<char>) -> Seq<char>
    decreases s.len(),
{
    if s.len() == 0 {
        Seq::empty()
    } else {
        escape_html_spec(s.drop_last()) + escape_char(s.last())
    }
}

/// Escaped text holds no `<`, `>`, `"` or `'`, so it can neither open a tag nor
/// close an attribute value.
pub proof fn law_escaped_html_has_no_markup(s: Seq<char>)
    ensures
        forall|i: int|
            0 <= i < escape_html_spec(s).len() ==> {
                let c = #[trigger] escape_html_spec(s)[i];
                c != '<' && c != '>' && c != '"' && c != '\''
            },
    decreases s.len(),
{
    if s.len() > 0 {
        law_escaped_html_has_no_markup(s.drop_last());
        let p = escape_html_spec(s.drop_last());
        let e = escape_char(s.last());
        reveal_strlit("&amp;");
        reveal_strlit("&lt;");
        reveal_strlit("&gt;");
        reveal_strlit("&quot;");
        reveal_strlit("&#39;");
        assert forall|i: int| 0 <= i < (p + e).len() implies {
            let c = #[trigger] (p + e)[i];
            c != '<' && c != '>' && c != '"' && c != '\''
        } by {
            if i >= p.len() {
                assert((p + e)[i] == e[i - p.len()]);
            } else {
                assert((p + e)[i] == p[i]);
            }
        }
    }
}

/// `value` made safe to stand in HTML text and attributes.
pub fn escape_html(value: &str) -> (r: String)
    ensures
        r@ == escape_html_spec(value@),
{
    let v = chars_of(value);
    let mut r = String::new();
    let mut i: usize = 0;
    while i < v.len()
        invariant
            v@ == value@,
            0 <= i <= v@.len(),
            r@ == escape_html_spec(v@.take(i as int)),
        decreases v@.len() - i,
    {
        let c = v[i];
        assert(v@.take(i + 1).drop_last() =~= v@.take(i as int));
        if c == '&' {
            push_str(&mut r, "&amp;");
        } else if c == '<' {
            push_str(&mut r, "&lt;");
        } else if c == '>' {
            push_str(&mut r, "&gt;");
        } else if c == '"' {
            push_str(&mut r, "&quot;");
        } else if c == '\'' {
            push_str(&mut r, "&#39;");
        } else {
            crate::text::push_char(&mut r, c);
            assert(r@ =~= escape_html_spec(v@.take(i as int)) + seq![c]);
        }
        i += 1;
    }
    assert(v@.take(v@.len() as int) =~= v@);
    r
}

// ----------------------------------------------------------------------
// Byte ranges
// ----------------------------------------------------------------------

pub open spec fn min_u64(a: u64, b: u64) -> u64 {
    if a <= b {
        a
    } else {
        b
    }
}

/// The byte range a `Range` header asks of a file of `size` bytes: `bytes=a-b`,
/// `bytes=a-` or `bytes=-n`, the end clamped to the file and `-n` meaning the last
/// `n` bytes; `None` where the header is not understood or selects no byte (a
/// start past the end, an end before the start, or a suffix of zero bytes).
pub open spec fn range_spec(v: Seq<char>, size: u64) -> Option<(u64, u64)> {
    if size == 0 || v.len() < 6 || v.subrange(0, 6) != "bytes="@ {
        None
    } else {
        let r = v.subrange(6, v.len() as int);
        match find_char(r, '-') {
            None => None,
            Some(i) => {
                let a = r.subrange(0, i);
                let b = r.subrange(i + 1, r.len() as int);
                if a.len() == 0 {
                    match parse_u64_spec(b) {
                        None => None,
                        Some(n) => if n == 0 {
                            None
                        } else {
                            let suffix = min_u64(n, size);
                            Some(((size - suffix) as u64, (size - 1) as u64))
                        },
                    }
                } else {
                    match parse_u64_spec(a) {
                        None => None,
                        Some(start) => if start >= size {
                            None
                        } else {
                            let end = if b.len() == 0 {
                                Some((size - 1) as u64)
                            } else {
                                match parse_u64_spec(b) {
                                    None => None,
                                    Some(e) => Some(min_u64(e, (size - 1) as u64)),
                                }
                            };
                            match end {
                                None => None,
                                Some(e) => if start <= e {
                                    Some((start, e))
                                } else {
                                    None
                                },
                            }
                        },
                    }
                }
            },
        }
    }
}

/// The byte range that a `Range` header value asks of a file of `size` bytes.
pub fn parse_range(value: &str, size: u64) -> (r: Option<(u64, u64)>)
    ensures
        r == range_spec(value@, size),
        r matches Some((s, e)) ==> s <= e && e < size,
{
    if size == 0 {
        return None;
    }
    let v = chars_of(value);
    if !has_prefix_at(&v, 0, "bytes=") {
        proof {
            reveal_strlit("bytes=");
        }
        return None;
    }
    proof {
        reveal_strlit("bytes=");
    }
    let ghost r = v@.subrange(6, v@.len() as int);
    let dash = match find_char_from(&v, 6, '-') {
        None => {
            return None;
        },
        Some(i) => i,
    };
    proof {
        crate::text::lemma_find_char(r, '-');
    }
    let a_lo: usize = 6;
    let a_hi: usize = 6 + dash;
    let b_lo: usize = 7 + dash;
    let b_hi: usize = v.len();
    assert(r.subrange(0, dash as int) =~= v@.subrange(a_lo as int, a_hi as int));
    assert(r.subrange(dash + 1, r.len() as int) =~= v@.subrange(b_lo as int, b_hi as int));
    if a_lo == a_hi {
        match parse_u64_range(&v, b_lo, b_hi) {
            None => None,
            Some(0) => None,
            Some(n) => {
                let suffix = if n <= size {
                    n
                } else {
                    size
                };
                Some((size - suffix, size - 1))
            },
        }
    } else {
        match parse_u64_range(&v, a_lo, a_hi) {
            None => None,
            Some(start) => {
                if start >= size {
                    return None;
                }
                let end = if b_lo == b_hi {
                    size - 1
                } else {
                    match parse_u64_range(&v, b_lo, b_hi) {
                        None => {
                            return None;
                        },
                        Some(e) => if e <= size - 1 {
                            e
                        } else {
                            size - 1
                        },
                    }
                };
                if start <= end {
                    Some((start, end))
                } else {
                    None
                }
            },
        }
    }
}

/// The `Content-Range` value of a partial answer: `bytes <start>-<end>/<size>`.
pub fn content_range(start: u64, end: u64, size: u64) -> (h: String)
    ensures
        h@ == "bytes "@ + decimal(start as nat) + "-"@ + decimal(end as nat) + "/"@ + decimal(
            size as nat,
        ),
{
    let mut h = String::new();
    push_str(&mut h, "bytes ");
    push_decimal(&mut h, start);
    push_str(&mut h, "-");
    push_decimal(&mut h, end);
    push_str(&mut h, "/");
    push_decimal(&mut h, size);
    h
}

// ----------------------------------------------------------------------
// Serving
// ----------------------------------------------------------------------

/// The query of an image link: width, height, output format and JPEG quality.
#[derive(Debug)]
pub struct TransformQuery {
    pub w: Option<u32>,
    pub h: Option<u32>,
    pub fmt: Option<String>,
    pub q: Option<u8>,
}

/// What to answer a request for a stored file.
#[derive(Debug)]
pub enum ServePlan {
    /// Refuse the request.
    Reject(Refusal),
    /// Send the stored file as it is.
    Original,
    /// Send a variant in `format`, cached under the key derived from `query_key`.
    Transform { format: String, query_key: String },
}

/// The output format asked for: the query's `fmt`, else the stored extension,
/// in ASCII lower case.
pub open spec fn requested_format(ext: Seq<char>, q: TransformQuery) -> Seq<char> {
    match q.fmt {
        Some(f) => ascii_lower(f@),
        None => ascii_lower(ext),
    }
}

/// An optional number as `{:?}` writes it: `None` or `Some(n)`.
pub open spec fn debug_option(o: Option<nat>) -> Seq<char> {
    match o {
        None => "None"@,
        Some(n) => "Some("@ + decimal(n) + ")"@,
    }
}

pub open spec fn opt32(o: Option<u32>) -> Option<nat> {
    match o {
        Some(v) => Some(v as nat),
        None => None,
    }
}

pub open spec fn opt8(o: Option<u8>) -> Option<nat> {
    match o {
        Some(v) => Some(v as nat),
        None => None,
    }
}

/// The text a variant's cache key is derived from: `w=..&h=..&fmt=..&q=..`.
pub open spec fn query_key_spec(q: TransformQuery, format: Seq<char>) -> Seq<char> {
    "w="@ + debug_option(opt32(q.w)) + "&h="@ + debug_option(opt32(q.h)) + "&fmt="@ + format
        + "&q="@ + debug_option(opt8(q.q))
}

pub open spec fn dimension_invalid(o: Option<u32>) -> bool {
    match o {
        Some(v) => v == 0 || v > 8192,
        None => false,
    }
}

pub open spec fn quality_invalid(o: Option<u8>) -> bool {
    match o {
        Some(v) => v == 0 || v > 100,
        None => false,
    }
}

/// The refusal a request for a file stored with extension `ext` meets, if any.
pub open spec fn serve_refusal(ext: Seq<char>, q: TransformQuery) -> Option<Refusal> {
    let fmt = requested_format(ext, q);
    if ext == "mp4"@ {
        if q.w is Some || q.h is Some || q.q is Some || q.fmt is Some {
            Some(Refusal::Mp4NotTransformable)
        } else {
            None
        }
    } else if !is_transform_format(fmt) {
        Some(Refusal::UnsupportedOutputFormat)
    } else if !(q.w is Some || q.h is Some || q.q is Some || fmt != ext) {
        None
    } else if dimension_invalid(q.w) || dimension_invalid(q.h) {
        Some(Refusal::DimensionsOutOfRange)
    } else if quality_invalid(q.q) {
        Some(Refusal::QualityOutOfRange)
    } else {
        None
    }
}

/// Whether a request that is not refused is answered with the stored file itself.
pub open spec fn serves_original(ext: Seq<char>, q: TransformQuery) -> bool {
    ext == "mp4"@ || !(q.w is Some || q.h is Some || q.q is Some || requested_format(ext, q) != ext)
}

/// A width, height or quality in the query always changes the answer: such a
/// request is refused or answered with a transform, never with the stored file.
pub proof fn law_parameters_never_serve_original(ext: Seq<char>, q: TransformQuery)
    requires
        q.w is Some || q.h is Some || q.q is Some,
    ensures
        serve_refusal(ext, q) is Some || !serves_original(ext, q),
{
}

fn push_debug_u64(out: &mut String, o: Option<u64>)
    ensures
        final(out)@ == old(out)@ + debug_option(
            match o {
                Some(v) => Some(v as nat),
                None => None,
            },
        ),
{
    match o {
        None => {
            push_str(out, "None");
        },
        Some(v) => {
            push_str(out, "Some(");
            push_decimal(out, v);
            push_str(out, ")");
        },
    }
}

/// How to answer a request for a file stored with extension `original_ext`.
pub fn plan_serve(original_ext: &str, query: &TransformQuery) -> (p: ServePlan)
    ensures
        match serve_refusal(original_ext@, *query) {
            Some(r) => p == ServePlan::Reject(r),
            None => if serves_original(original_ext@, *query) {
                p is Original
            } else {
                p matches ServePlan::Transform { format, query_key } && format@ == requested_format(
                    original_ext@,
                    *query,
                ) && query_key@ == query_key_spec(*query, format@)
            },
        },
        query.w is Some || query.h is Some || query.q is Some ==> !(p is Original),
        original_ext@ != "mp4"@ && requested_format(original_ext@, *query) != original_ext@ ==> !(
        p is Original),
        original_ext@ != "mp4"@ && is_transform_format(requested_format(original_ext@, *query)) && (
        query.w is Some || query.h is Some || query.q is Some || requested_format(
            original_ext@,
            *query,
        ) != original_ext@) && (query.w matches Some(v) ==> 1 <= v <= 8192) && (
        query.h matches Some(v) ==> 1 <= v <= 8192) && (query.q matches Some(v) ==> 1 <= v <= 100)
            ==> (p matches ServePlan::Transform { format, query_key } && format@ == requested_format(
            original_ext@,
            *query,
        )),
        p matches ServePlan::Transform { format, query_key } ==> original_ext@ != "mp4"@
            && is_transform_format(format@),
{
    let requested = match &query.fmt {
        Some(f) => to_ascii_lowercase(f.as_str()),
        None => to_ascii_lowercase(original_ext),
    };
    let any_param = query.w.is_some() || query.h.is_some() || query.q.is_some()
        || query.fmt.is_some();
    if str_equals(original_ext, "mp4") {
        if any_param {
            return ServePlan::Reject(Refusal::Mp4NotTransformable);
        }
        return ServePlan::Original;
    }
    if !transform_format_allowed(requested.as_str()) {
        return ServePlan::Reject(Refusal::UnsupportedOutputFormat);
    }
    let needs_transform = query.w.is_some() || query.h.is_some() || query.q.is_some()
        || !str_equals(requested.as_str(), original_ext);
    if !needs_transform {
        return ServePlan::Original;
    }
    let w_bad = match query.w {
        Some(v) => v == 0 || v > 8192,
        None => false,
    };
    let h_bad = match query.h {
        Some(v) => v == 0 || v > 8192,
        None => false,
    };
    if w_bad || h_bad {
        return ServePlan::Reject(Refusal::DimensionsOutOfRange);
    }
    let q_bad = match query.q {
        Some(v) => v == 0 || v > 100,
        None => false,
    };
    if q_bad {
        return ServePlan::Reject(Refusal::QualityOutOfRange);
    }
    let mut key = String::new();
    push_str(&mut key, "w=");
    push_debug_u64(
        &mut key,
        match query.w {
            Some(v) => Some(v as u64),
            None => None,
        },
    );
    push_str(&mut key, "&h=");
    push_debug_u64(
        &mut key,
        match query.h {
            Some(v) => Some(v as u64),
            None => None,
        },
    );
    push_str(&mut key, "&fmt=");
    push_str(&mut key, requested.as_str());
    push_str(&mut key, "&q=");
    push_debug_u64(
        &mut key,
        match query.q {
            Some(v) => Some(v as u64),
            None => None,
        },
    );
    ServePlan::Transform { format: requested, query_key: key }
}

/// The JPEG quality of a transform: the query's `q`, else 85, kept within 1 to 100.
pub fn jpeg_quality(q: Option<u8>) -> (r: u8)
    ensures
        r == match q {
            Some(v) => if v < 1 {
                1
            } else if v > 100 {
                100
            } else {
                v
            },
            None => 85,
        },
{
    let v = match q {
        Some(v) => v,
        None => 85,
    };
    if v < 1 {
        1
    } else if v > 100 {
        100
    } else {
        v
    }
}

} // verus!
