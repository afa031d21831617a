use picbad::media::{
    check_player_ext, check_upload, content_range, detect_format, escape_html,
    ext_for_format, format_from_guess, output_format, image_url, is_mp4, jpeg_quality, mime_for_ext, original_path,
    parse_range, plan_serve, player_url_for_ext, transform_format_allowed, transform_formats,
    upload_formats, upload_receipt, duplicate_receipt, upload_dimensions, original_unused, GuessedFormat, MediaFormat, ServePlan, TransformQuery,
};
use picbad::digest::sha256_hex;
use picbad::refusal::Refusal;

fn png() -> Vec<u8> {
    let mut v = b"\x89PNG\r\n\x1a\n".to_vec();
    v.extend_from_slice(&[0; 16]);
    v
}

fn mp4() -> Vec<u8> {
    let mut v = vec![0, 0, 0, 0x18];
    v.extend_from_slice(b"ftypisom");
    v.extend_from_slice(&[0; 8]);
    v
}

#[test]
fn detects_stored_formats() {
    assert_eq!(detect_format(&png()), Some(MediaFormat::Png));
    assert_eq!(detect_format(&[0xff, 0xd8, 0xff, 0xe0, 0, 0]), Some(MediaFormat::Jpeg));
    assert_eq!(detect_format(b"GIF89a......"), Some(MediaFormat::Gif));
    assert_eq!(detect_format(b"GIF87a......"), Some(MediaFormat::Gif));
    assert_eq!(detect_format(b"RIFF\x10\0\0\0WEBPVP8 "), Some(MediaFormat::WebP));
    assert_eq!(detect_format(&[0, 0, 1, 0, 1, 0]), Some(MediaFormat::Ico));
    assert_eq!(detect_format(&mp4()), Some(MediaFormat::Mp4));
    assert_eq!(detect_format(b"BM\0\0\0\0"), None);
    assert_eq!(detect_format(b"hello world"), None);
}

#[test]
fn avif_ftyp_box_reads_as_avif() {
    // An AVIF file opens with an `ftyp` box whose major brand is `avif`: an image, not a video.
    let avif = b"\0\0\0\x1cftypavif\0\0\0\0avifmif1miaf".to_vec();
    assert!(!is_mp4(&avif));
    assert_eq!(detect_format(&avif), Some(MediaFormat::Avif));
    assert!(detect_format(&avif).unwrap().is_image());
    // Every other brand of an `ftyp` box is stored as MP4, HEIF brands included.
    let heic = b"\0\0\0\x18ftypheic\0\0\0\0mif1heic".to_vec();
    assert!(is_mp4(&heic));
    assert_eq!(detect_format(&heic), Some(MediaFormat::Mp4));
    assert!(is_mp4(b"\0\0\0\x1cftypavis\0\0\0\0"));
    assert!(is_mp4(b"\0\0\0\x18ftypmp42\0\0\0\0"));
    assert!(is_mp4(&mp4()));
    assert!(!is_mp4(b"\0\0\0\x1cftyp"));
}

#[test]
fn guess_follows_the_signature_table() {
    // Formats the `image` crate knows but the service does not store are refused.
    assert_eq!(detect_format(b"MM\0*\0\0\0\0"), None);
    assert_eq!(detect_format(b"II*\0\0\0\0\0"), None);
    assert_eq!(detect_format(b"P6 1 1 255\n"), None);
    assert_eq!(detect_format(b"qoif...."), None);
    // WebP leaves the size bytes free.
    assert_eq!(detect_format(b"RIFF\xff\xff\xff\xffWEBPVP8L"), Some(MediaFormat::WebP));
    assert_eq!(detect_format(b"RIFF\0\0\0\0WEBQ"), None);
    // The ICO row comes before the AVIF row, and AVIF wants two zero bytes first.
    assert_eq!(detect_format(b"\0\0\x01\0ftypavif"), Some(MediaFormat::Ico));
    assert_eq!(detect_format(b"\x01\0\0\x1cftypavif"), None);
    assert_eq!(detect_format(b"\0\0\x12\x34ftypavif"), Some(MediaFormat::Avif));
    // Too short for its signature.
    assert_eq!(detect_format(b"\x89PNG"), None);
}

#[test]
fn guesses_map_to_formats() {
    assert_eq!(format_from_guess(Some(GuessedFormat::Avif)), Some(MediaFormat::Avif));
    assert_eq!(format_from_guess(Some(GuessedFormat::Other)), None);
    assert_eq!(format_from_guess(None), None);
}

#[test]
fn format_names_and_types() {
    assert_eq!(MediaFormat::Jpeg.ext(), "jpeg");
    assert_eq!(MediaFormat::Ico.mime(), "image/x-icon");
    assert_eq!(MediaFormat::Mp4.mime(), "video/mp4");
    assert!(!MediaFormat::Mp4.is_image());
    assert!(MediaFormat::WebP.is_image());
}

#[test]
fn upload_checks() {
    assert_eq!(check_upload(&[]), Err(Refusal::MissingFile));
    assert_eq!(check_upload(b"plain text"), Err(Refusal::UnsupportedMedia));
    assert_eq!(check_upload(&png()), Ok(MediaFormat::Png));
    assert_eq!(Refusal::UnsupportedMedia.status(), 415);
    assert_eq!(Refusal::MissingFile.message(), "missing file field");
}

#[test]
fn same_bytes_same_original() {
    let a = png();
    let b = png();
    let pa = original_path("data/originals", &sha256_hex(&a), detect_format(&a).unwrap().ext());
    let pb = original_path("data/originals", &sha256_hex(&b), detect_format(&b).unwrap().ext());
    assert_eq!(pa, pb);
    assert!(pa.starts_with("data/originals/") && pa.ends_with(".png"));
}

#[test]
fn different_content_different_original() {
    let a = png();
    let mut b = png();
    b.push(1);
    let pa = original_path("data/originals", &sha256_hex(&a), detect_format(&a).unwrap().ext());
    let pb = original_path("data/originals", &sha256_hex(&b), detect_format(&b).unwrap().ext());
    assert_ne!(pa, pb);
    // One hash under two formats names two files.
    let h = sha256_hex(&a);
    assert_ne!(original_path("d", &h, "png"), original_path("d", &h, "gif"));
    assert_eq!(original_path("d/", &h, "png"), format!("d/{h}.png"));
}

#[test]
fn extensions_and_mime_types() {
    assert_eq!(ext_for_format("jpg"), "jpeg");
    assert_eq!(ext_for_format("png"), "png");
    assert_eq!(ext_for_format("mp4"), "mp4");
    assert_eq!(ext_for_format("tiff"), "bin");
    assert_eq!(mime_for_ext("jpg"), "image/jpeg");
    assert_eq!(mime_for_ext("webp"), "image/webp");
    assert_eq!(mime_for_ext("mp4"), "video/mp4");
    assert_eq!(mime_for_ext("zip"), "application/octet-stream");
    assert!(transform_format_allowed("avif"));
    assert!(!transform_format_allowed("jpg"));
    assert_eq!(transform_formats(), vec!["jpeg", "png", "gif", "webp", "avif", "ico"]);
    assert_eq!(upload_formats(), vec!["jpeg", "png", "gif", "webp", "avif", "ico", "mp4"]);
}

#[test]
fn links() {
    assert_eq!(image_url("abc"), "/i/abc");
    assert_eq!(player_url_for_ext("abc", "mp4".to_string()), Some("/p/abc".to_string()));
    assert_eq!(player_url_for_ext("abc", "png".to_string()), None);
    let r = upload_receipt("id1", true, "mp4", "ff".to_string());
    assert_eq!((r.id.as_str(), r.duplicate, r.url.as_str(), r.sha256.as_str()), ("id1", true, "/i/id1", "ff"));
    assert_eq!(r.player_url, Some("/p/id1".to_string()));
    let r = upload_receipt("id2", false, "gif", "00".to_string());
    assert_eq!(r.player_url, None);
    assert_eq!(check_player_ext("mp4"), Ok(()));
    assert_eq!(check_player_ext("png"), Err(Refusal::PlayerOnlyForMp4));
}

#[test]
fn escapes_html() {
    assert_eq!(
        escape_html("<a href=\"x\">Tom & Jerry's</a>"),
        "&lt;a href=&quot;x&quot;&gt;Tom &amp; Jerry&#39;s&lt;/a&gt;"
    );
    assert_eq!(escape_html("视频.mp4"), "视频.mp4");
}

#[test]
fn ranges() {
    assert_eq!(parse_range("bytes=0-99", 1000), Some((0, 99)));
    assert_eq!(parse_range("bytes=500-", 1000), Some((500, 999)));
    assert_eq!(parse_range("bytes=-200", 1000), Some((800, 999)));
    assert_eq!(parse_range("bytes=-2000", 1000), Some((0, 999)));
    assert_eq!(parse_range("bytes=-0", 1000), None);
    assert_eq!(parse_range("bytes=-0", 1), None);
    assert_eq!(parse_range("bytes=-1", 1), Some((0, 0)));
    assert_eq!(parse_range("bytes=0-5000", 1000), Some((0, 999)));
    assert_eq!(parse_range("bytes=+5-", 1000), Some((5, 999)));
    assert_eq!(parse_range("bytes=1000-", 1000), None);
    assert_eq!(parse_range("bytes=5-2", 1000), None);
    assert_eq!(parse_range("bytes=abc", 1000), None);
    assert_eq!(parse_range("bytes= 5-", 1000), None);
    assert_eq!(parse_range("bytes=5-x", 1000), None);
    assert_eq!(parse_range("items=0-1", 1000), None);
    assert_eq!(parse_range("bytes=0-1", 0), None);
    assert_eq!(parse_range("bytes=1-2-3", 1000), None);
    assert_eq!(content_range(0, 99, 1000), "bytes 0-99/1000");
    assert_eq!(content_range(18446744073709551614, 18446744073709551614, 18446744073709551615), "bytes 18446744073709551614-18446744073709551614/18446744073709551615");
}

fn q(w: Option<u32>, h: Option<u32>, fmt: Option<&str>, q: Option<u8>) -> TransformQuery {
    TransformQuery { w, h, fmt: fmt.map(|s| s.to_string()), q }
}

fn transform(p: ServePlan) -> (String, String) {
    match p {
        ServePlan::Transform { format, query_key } => (format, query_key),
        _ => panic!("expected a transform"),
    }
}

fn rejected(p: ServePlan) -> Refusal {
    match p {
        ServePlan::Reject(r) => r,
        _ => panic!("expected a refusal"),
    }
}

#[test]
fn serving_plans() {
    assert!(matches!(plan_serve("png", &q(None, None, None, None)), ServePlan::Original));
    assert!(matches!(plan_serve("png", &q(None, None, Some("PNG"), None)), ServePlan::Original));
    assert_eq!(
        transform(plan_serve("png", &q(None, None, Some("WEBP"), None))),
        ("webp".to_string(), "w=None&h=None&fmt=webp&q=None".to_string())
    );
    assert_eq!(
        transform(plan_serve("jpeg", &q(Some(1200), None, None, Some(85)))),
        ("jpeg".to_string(), "w=Some(1200)&h=None&fmt=jpeg&q=Some(85)".to_string())
    );
    assert_eq!(rejected(plan_serve("png", &q(Some(0), None, None, None))), Refusal::DimensionsOutOfRange);
    assert_eq!(rejected(plan_serve("png", &q(None, Some(8193), None, None))), Refusal::DimensionsOutOfRange);
    assert_eq!(transform(plan_serve("png", &q(Some(8192), Some(1), None, None))).1, "w=Some(8192)&h=Some(1)&fmt=png&q=None");
    assert_eq!(rejected(plan_serve("png", &q(None, None, None, Some(0)))), Refusal::QualityOutOfRange);
    assert_eq!(rejected(plan_serve("png", &q(None, None, None, Some(101)))), Refusal::QualityOutOfRange);
    assert_eq!(rejected(plan_serve("png", &q(Some(0), None, Some("bmp"), None))), Refusal::UnsupportedOutputFormat);
    assert_eq!(rejected(plan_serve("png", &q(None, None, Some("jpg"), None))), Refusal::UnsupportedOutputFormat);
    assert_eq!(rejected(plan_serve("mp4", &q(Some(10), None, None, None))), Refusal::Mp4NotTransformable);
    assert_eq!(rejected(plan_serve("mp4", &q(None, None, Some("mp4"), None))), Refusal::Mp4NotTransformable);
    assert!(matches!(plan_serve("mp4", &q(None, None, None, None)), ServePlan::Original));
    assert_eq!(Refusal::DimensionsOutOfRange.message(), "w and h must be between 1 and 8192");
}

#[test]
fn jpeg_quality_defaults_and_clamps() {
    assert_eq!(jpeg_quality(None), 85);
    assert_eq!(jpeg_quality(Some(0)), 1);
    assert_eq!(jpeg_quality(Some(200)), 100);
    assert_eq!(jpeg_quality(Some(40)), 40);
}

#[test]
fn output_formats() {
    assert_eq!(output_format("jpg"), Some(MediaFormat::Jpeg));
    assert_eq!(output_format("jpeg"), Some(MediaFormat::Jpeg));
    assert_eq!(output_format("ico"), Some(MediaFormat::Ico));
    assert_eq!(output_format("mp4"), None);
    assert_eq!(output_format("bmp"), None);
}

#[test]
fn every_refusal_has_its_status_and_message() {
    let table: [(Refusal, u16, &str); 25] = [
        (Refusal::InvalidLogin, 401, "invalid username or password"),
        (Refusal::MissingBearerToken, 401, "missing bearer token"),
        (Refusal::InvalidToken, 401, "invalid token"),
        (Refusal::MissingUploadKey, 401, "missing upload api key"),
        (Refusal::InvalidUploadKey, 401, "invalid upload api key"),
        (Refusal::AdminRequired, 403, "admin required"),
        (Refusal::CredentialsTooShort, 400, "username must be 3+ chars and password 8+ chars"),
        (Refusal::InvalidRole, 400, "role must be admin or user"),
        (Refusal::UsernameTaken, 400, "username already exists"),
        (Refusal::CannotRotateOthersKey, 403, "cannot rotate another user's key"),
        (Refusal::CannotDeleteSelf, 400, "cannot delete your own account"),
        (Refusal::CannotDeleteAdmin, 403, "cannot delete another admin account"),
        (Refusal::UserNotFound, 400, "user not found"),
        (Refusal::MissingFile, 400, "missing file field"),
        (Refusal::UnsupportedMedia, 415, "unsupported media format"),
        (Refusal::ImageNotFound, 404, "image not found"),
        (Refusal::MediaNotFound, 404, "media not found"),
        (Refusal::ImageOfAnotherUser, 403, "image belongs to another user"),
        (Refusal::Mp4NotTransformable, 400, "mp4 files are served directly and cannot be image-transformed"),
        (Refusal::UnsupportedOutputFormat, 400, "unsupported output format"),
        (Refusal::DimensionsOutOfRange, 400, "w and h must be between 1 and 8192"),
        (Refusal::QualityOutOfRange, 400, "q must be between 1 and 100"),
        (Refusal::PlayerOnlyForMp4, 400, "player is only available for mp4"),
        (Refusal::OriginalMissing, 404, "original file missing"),
        (Refusal::TransformFailed, 400, "image transform failed"),
    ];
    for (r, status, message) in table {
        assert_eq!(r.status(), status);
        assert_eq!(r.message(), message);
    }
}

fn encoded_png(width: u32, height: u32) -> Vec<u8> {
    let img = image::RgbImage::new(width, height);
    let mut out = std::io::Cursor::new(Vec::new());
    img.write_to(&mut out, image::ImageFormat::Png).expect("encodes");
    out.into_inner()
}

#[test]
fn dimensions_of_uploads() {
    let png3x2 = encoded_png(3, 2);
    assert_eq!(detect_format(&png3x2), Some(MediaFormat::Png));
    assert_eq!(upload_dimensions(MediaFormat::Png, &png3x2), Some((3, 2)));
    // Videos get no dimensions, and a PNG header alone does not decode.
    assert_eq!(upload_dimensions(MediaFormat::Mp4, &png3x2), None);
    assert_eq!(upload_dimensions(MediaFormat::Png, &png()), None);
}

#[test]
fn duplicate_uploads_get_the_earlier_receipt() {
    assert!(duplicate_receipt(None, "ab".to_string()).is_none());
    let r = duplicate_receipt(Some(("img1".to_string(), "mp4".to_string())), "ab".to_string())
        .expect("receipt");
    assert_eq!(r.id, "img1");
    assert!(r.duplicate);
    assert_eq!(r.url, "/i/img1");
    assert_eq!(r.player_url, Some("/p/img1".to_string()));
    assert_eq!(r.sha256, "ab");
    let r = duplicate_receipt(Some(("img2".to_string(), "png".to_string())), "cd".to_string())
        .expect("receipt");
    assert!(r.duplicate);
    assert_eq!(r.player_url, None);
}

#[test]
fn originals_go_when_no_row_uses_them() {
    assert!(original_unused(0));
    assert!(!original_unused(1));
    assert!(!original_unused(3));
}
