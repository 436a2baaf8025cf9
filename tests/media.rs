use pict_rs::error::UploadError;
use pict_rs::media::{
    file_name, from_ext, plan_validation, reencode, serve_type, str_eq, to_ext, validate_bytes,
    Canonicalize,
    Detected, Format,
    ImageType, Validation,
};

#[test]
fn extension_table() {
    assert_eq!(to_ext(ImageType::Png), "png");
    assert_eq!(to_ext(ImageType::Jpeg), "jpg");
    assert_eq!(to_ext(ImageType::Gif), "gif");
    assert_eq!(to_ext(ImageType::Webp), "webp");
    assert_eq!(to_ext(ImageType::Bmp), "bmp");
}

#[test]
fn extension_back_to_type() {
    assert_eq!(from_ext("png"), ImageType::Png);
    assert_eq!(from_ext("jpg"), ImageType::Jpeg);
    assert_eq!(from_ext("gif"), ImageType::Gif);
    assert_eq!(from_ext("webp"), ImageType::Webp);
    assert_eq!(from_ext("tiff"), ImageType::Bmp);
    assert_eq!(from_ext(""), ImageType::Bmp);
}

#[test]
fn file_name_appends_extension() {
    assert_eq!(file_name("abcdefghij", ImageType::Png), "abcdefghij.png");
    assert_eq!(file_name("x", ImageType::Jpeg), "x.jpg");
}

#[test]
fn format_from_str() {
    assert_eq!(Format::from_str("png"), Ok(Format::Png));
    assert_eq!(Format::from_str("jpg"), Ok(Format::Jpeg));
    assert_eq!(Format::from_str("webp"), Ok(Format::Webp));
    assert_eq!(Format::from_str("gif"), Err("gif".to_string()));
    assert_eq!(Format::from_str(""), Err(String::new()));
}

#[test]
fn magick_names() {
    assert_eq!(Format::Jpeg.to_magick_format(), "JPEG");
    assert_eq!(Format::Png.to_magick_format(), "PNG");
    assert_eq!(Format::Webp.to_magick_format(), "WEBP");
    assert_eq!(Format::Webp.to_mime(), ImageType::Webp);
}

#[test]
fn string_equality() {
    assert!(str_eq("héllo", "héllo"));
    assert!(!str_eq("hello", "hellò"));
}

#[test]
fn validation_without_prescribed_format() {
    assert_eq!(
        plan_validation(None, Detected::Gif),
        Ok(Validation { action: Canonicalize::TranscodeGif, content_type: ImageType::Gif })
    );
    assert_eq!(
        plan_validation(None, Detected::Jpeg),
        Ok(Validation { action: Canonicalize::StripMetadata, content_type: ImageType::Jpeg })
    );
    assert_eq!(
        plan_validation(None, Detected::Png),
        Ok(Validation { action: Canonicalize::StripMetadata, content_type: ImageType::Png })
    );
    assert_eq!(
        plan_validation(None, Detected::Bmp),
        Ok(Validation {
            action: Canonicalize::Reencode(ImageType::Bmp),
            content_type: ImageType::Bmp
        })
    );
    assert_eq!(
        plan_validation(None, Detected::Webp),
        Ok(Validation {
            action: Canonicalize::Reencode(ImageType::Webp),
            content_type: ImageType::Webp
        })
    );
}

#[test]
fn validation_with_prescribed_format() {
    for detected in [Detected::Gif, Detected::Jpeg, Detected::Png, Detected::Bmp, Detected::Webp] {
        assert_eq!(
            plan_validation(Some(Format::Png), detected),
            Ok(Validation {
                action: Canonicalize::Reencode(ImageType::Png),
                content_type: ImageType::Png
            })
        );
    }
    assert_eq!(
        plan_validation(Some(Format::Jpeg), Detected::Gif),
        Ok(Validation {
            action: Canonicalize::Reencode(ImageType::Jpeg),
            content_type: ImageType::Jpeg
        })
    );
}

#[test]
fn validation_rejects_unknown_images() {
    assert_eq!(plan_validation(None, Detected::Other), Err(UploadError::UnsupportedFormat));
    assert_eq!(
        plan_validation(Some(Format::Webp), Detected::Other),
        Err(UploadError::UnsupportedFormat)
    );
}

#[test]
fn status_codes() {
    assert_eq!(UploadError::NoFiles.status_code(), 400);
    assert_eq!(UploadError::Upload("x".to_string()).status_code(), 400);
    assert_eq!(UploadError::DuplicateAlias.status_code(), 400);
    assert_eq!(UploadError::Gif("x".to_string()).status_code(), 400);
    assert_eq!(UploadError::InvalidImage("x".to_string()).status_code(), 400);
    assert_eq!(UploadError::UnsupportedFormat.status_code(), 400);
    assert_eq!(UploadError::Download(502).status_code(), 400);
    assert_eq!(UploadError::MissingAlias.status_code(), 404);
    assert_eq!(UploadError::MissingFilename.status_code(), 404);
    assert_eq!(UploadError::InvalidToken.status_code(), 403);
    assert_eq!(UploadError::MissingFile.status_code(), 500);
    assert_eq!(UploadError::Db("x".to_string()).status_code(), 500);
    assert_eq!(UploadError::Canceled.status_code(), 500);
    assert_eq!(UploadError::FileExists.status_code(), 500);
}

#[test]
fn sniffing_by_signature() {
    let png = [0x89u8, b'P', b'N', b'G', 0x0d, 0x0a, 0x1a, 0x0a, 0, 0];
    assert_eq!(
        validate_bytes(None, &png),
        Ok(Validation { action: Canonicalize::StripMetadata, content_type: ImageType::Png })
    );
    let gif = b"GIF89a......";
    assert_eq!(
        validate_bytes(None, gif),
        Ok(Validation { action: Canonicalize::TranscodeGif, content_type: ImageType::Gif })
    );
    let jpeg = [0xffu8, 0xd8, 0xff, 0xe0, 0, 0];
    assert_eq!(
        validate_bytes(Some(Format::Webp), &jpeg),
        Ok(Validation {
            action: Canonicalize::Reencode(ImageType::Webp),
            content_type: ImageType::Webp
        })
    );
    assert_eq!(validate_bytes(None, b"plain text"), Err(UploadError::UnsupportedFormat));
    assert_eq!(validate_bytes(None, b""), Err(UploadError::UnsupportedFormat));
}

#[test]
fn served_content_type() {
    assert_eq!(serve_type("/data/files/thumbnail/256/abc.jpg"), Ok(ImageType::Jpeg));
    assert_eq!(serve_type("/data/files/abc.png"), Ok(ImageType::Png));
    assert_eq!(serve_type("/data/files/abc.tar.gif"), Ok(ImageType::Gif));
    assert_eq!(serve_type("/data/files/abc.xyz"), Ok(ImageType::Bmp));
    assert_eq!(serve_type("/data/files/abc"), Err(UploadError::MissingExtension));
    assert_eq!(serve_type("/data/files/.png"), Err(UploadError::MissingExtension));
    assert_eq!(serve_type("/data/x.y/abc"), Err(UploadError::MissingExtension));
}

#[test]
fn sniffing_other_signatures() {
    assert_eq!(
        validate_bytes(None, b"RIFF....WEBPVP8 "),
        Ok(Validation {
            action: Canonicalize::Reencode(ImageType::Webp),
            content_type: ImageType::Webp
        })
    );
    assert_eq!(
        validate_bytes(None, b"BM......"),
        Ok(Validation {
            action: Canonicalize::Reencode(ImageType::Bmp),
            content_type: ImageType::Bmp
        })
    );
    assert_eq!(
        validate_bytes(None, b"GIF87a.."),
        Ok(Validation { action: Canonicalize::TranscodeGif, content_type: ImageType::Gif })
    );
    assert_eq!(validate_bytes(None, b"II*\x00...."), Err(UploadError::UnsupportedFormat));
    assert_eq!(validate_bytes(None, b"B"), Err(UploadError::UnsupportedFormat));
    assert_eq!(validate_bytes(None, b"RIFF....AVI "), Err(UploadError::UnsupportedFormat));
}

fn red_png() -> Vec<u8> {
    let img = image::DynamicImage::ImageRgb8(image::RgbImage::from_pixel(10, 10, image::Rgb([255, 0, 0])));
    let mut out = std::io::Cursor::new(Vec::new());
    img.write_to(&mut out, image::ImageFormat::Png).unwrap();
    out.into_inner()
}

#[test]
fn reencoding_changes_the_container() {
    let png = red_png();
    let bmp = reencode(&png, ImageType::Bmp).unwrap();
    assert_eq!(&bmp[..2], b"BM");
    let again = reencode(&png, ImageType::Png).unwrap();
    assert_eq!(&again[..4], b"\x89PNG");
    let jpeg = reencode(&png, ImageType::Jpeg).unwrap();
    assert_eq!(&jpeg[..3], &[0xff, 0xd8, 0xff]);
    let webp = reencode(&png, ImageType::Webp).unwrap();
    assert_eq!(&webp[..4], b"RIFF");
    assert_eq!(&webp[8..12], b"WEBP");
}

#[test]
fn reencoding_rejects_non_images() {
    assert!(matches!(reencode(b"not an image", ImageType::Png), Err(UploadError::InvalidImage(_))));
}
