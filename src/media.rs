//! Content types, the configured target format, the extension table, and the
//! rule that decides how an uploaded image is canonicalised.
use vstd::prelude::*;
use crate::error::UploadError;
use vstd::string::StringSliceAdditionalSpecFns;
use vstd::string::StrSliceExecFns;

verus! {

/// The content type that a stored image is served with.
#[derive(Debug, Clone, Copy, PartialEq, Eq)]
pub enum ImageType {
    Png,
    Jpeg,
    Gif,
    Webp,
    Bmp,
}

/// A format that every upload may be converted into.
#[derive(Debug, Clone, Copy, PartialEq, Eq)]
pub enum Format {
    Jpeg,
    Png,
    Webp,
}

/// The kind of image that sniffing the uploaded bytes found.
#[derive(Debug, Clone, Copy, PartialEq, Eq)]
pub enum Detected {
    Gif,
    Jpeg,
    Png,
    Bmp,
    Webp,
    Other,
}

/// How an uploaded image is rewritten before it is hashed.
#[derive(Debug, Clone, Copy, PartialEq, Eq)]
pub enum Canonicalize {
    /// Decode and re-encode the GIF frame by frame, dropping metadata.
    TranscodeGif,
    /// Decode to check the image, then clear its metadata in place.
    StripMetadata,
    /// Decode and encode again in the given type.
    Reencode(ImageType),
}

/// What validation does to an upload and the content type it ends with.
#[derive(Debug, Clone, Copy, PartialEq, Eq)]
pub struct Validation {
    pub action: Canonicalize,
    pub content_type: ImageType,
}

pub open spec fn format_type(f: Format) -> ImageType {
    match f {
        Format::Jpeg => ImageType::Jpeg,
        Format::Png => ImageType::Png,
        Format::Webp => ImageType::Webp,
    }
}

/// The extension, without its dot, that files of a content type carry.
pub open spec fn ext_of(t: ImageType) -> Seq<char> {
    match t {
        ImageType::Png => seq!['p', 'n', 'g'],
        ImageType::Jpeg => seq!['j', 'p', 'g'],
        ImageType::Gif => seq!['g', 'i', 'f'],
        ImageType::Webp => seq!['w', 'e', 'b', 'p'],
        ImageType::Bmp => seq!['b', 'm', 'p'],
    }
}

/// The content type that a file's extension announces; unknown ones are BMP.
pub open spec fn type_of_ext(ext: Seq<char>) -> ImageType {
    if ext == ext_of(ImageType::Png) {
        ImageType::Png
    } else if ext == ext_of(ImageType::Jpeg) {
        ImageType::Jpeg
    } else if ext == ext_of(ImageType::Gif) {
        ImageType::Gif
    } else if ext == ext_of(ImageType::Webp) {
        ImageType::Webp
    } else {
        ImageType::Bmp
    }
}

/// The canonicalisation table: by what was detected and what was prescribed.
pub open spec fn validation_of(prescribed: Option<Format>, detected: Detected) -> Result<
    Validation,
    UploadError,
> {
    match (prescribed, detected) {
        (_, Detected::Other) => Err(UploadError::UnsupportedFormat),
        (Some(f), _) => Ok(
            Validation { action: Canonicalize::Reencode(format_type(f)), content_type: format_type(f) },
        ),
        (None, Detected::Gif) => Ok(
            Validation { action: Canonicalize::TranscodeGif, content_type: ImageType::Gif },
        ),
        (None, Detected::Jpeg) => Ok(
            Validation { action: Canonicalize::StripMetadata, content_type: ImageType::Jpeg },
        ),
        (None, Detected::Png) => Ok(
            Validation { action: Canonicalize::StripMetadata, content_type: ImageType::Png },
        ),
        (None, Detected::Bmp) => Ok(
            Validation {
                action: Canonicalize::Reencode(ImageType::Bmp),
                content_type: ImageType::Bmp,
            },
        ),
        (None, Detected::Webp) => Ok(
            Validation {
                action: Canonicalize::Reencode(ImageType::Webp),
                content_type: ImageType::Webp,
            },
        ),
    }
}

/// Decides how an upload is canonicalised, given the prescribed format and
/// the kind of image that was detected.
pub fn plan_validation(prescribed: Option<Format>, detected: Detected) -> (r: Result<
    Validation,
    UploadError,
>)
    ensures
        r == validation_of(prescribed, detected),
{
    match (prescribed, detected) {
        (_, Detected::Other) => Err(UploadError::UnsupportedFormat),
        (Some(f), _) => Ok(
            Validation { action: Canonicalize::Reencode(f.to_mime()), content_type: f.to_mime() },
        ),
        (None, Detected::Gif) => Ok(
            Validation { action: Canonicalize::TranscodeGif, content_type: ImageType::Gif },
        ),
        (None, Detected::Jpeg) => Ok(
            Validation { action: Canonicalize::StripMetadata, content_type: ImageType::Jpeg },
        ),
        (None, Detected::Png) => Ok(
            Validation { action: Canonicalize::StripMetadata, content_type: ImageType::Png },
        ),
        (None, Detected::Bmp) => Ok(
            Validation {
                action: Canonicalize::Reencode(ImageType::Bmp),
                content_type: ImageType::Bmp,
            },
        ),
        (None, Detected::Webp) => Ok(
            Validation {
                action: Canonicalize::Reencode(ImageType::Webp),
                content_type: ImageType::Webp,
            },
        ),
    }
}

/// `b` starts with `sig`.
pub open spec fn starts_with(b: Seq<u8>, sig: Seq<u8>) -> bool {
    sig.len() <= b.len() && b.subrange(0, sig.len() as int) == sig
}

/// The kind of image whose signature a byte string starts with: the PNG
/// signature, `FF D8 FF`, `GIF89a` or `GIF87a`, `RIFF` with `WEBP` at
/// offset 8, `BM`, tried in this order; any other start is `Other`.
pub open spec fn sniffed(b: Seq<u8>) -> Detected {
    if starts_with(b, seq![0x89u8, 0x50u8, 0x4eu8, 0x47u8, 0x0du8, 0x0au8, 0x1au8, 0x0au8]) {
        Detected::Png
    } else if starts_with(b, seq![0xffu8, 0xd8u8, 0xffu8]) {
        Detected::Jpeg
    } else if starts_with(b, seq![0x47u8, 0x49u8, 0x46u8, 0x38u8, 0x39u8, 0x61u8])
        || starts_with(b, seq![0x47u8, 0x49u8, 0x46u8, 0x38u8, 0x37u8, 0x61u8]) {
        Detected::Gif
    } else if starts_with(b, seq![0x52u8, 0x49u8, 0x46u8, 0x46u8]) && b.len() >= 12 && b.subrange(8, 12)
        == seq![0x57u8, 0x45u8, 0x42u8, 0x50u8] {
        Detected::Webp
    } else if starts_with(b, seq![0x42u8, 0x4du8]) {
        Detected::Bmp
    } else {
        Detected::Other
    }
}

/// Relies on `image::guess_format`, which tries its table of signatures in
/// order; the signatures of the other formats it knows start with other
/// bytes than these five, so they come out as `Other`.
#[verifier::external_body]
fn guess_kind(bytes: &[u8]) -> (r: Detected)
    ensures
        r == sniffed(bytes@),
{
    match image::guess_format(bytes) {
        Ok(image::ImageFormat::Png) => Detected::Png,
        Ok(image::ImageFormat::Jpeg) => Detected::Jpeg,
        Ok(image::ImageFormat::Gif) => Detected::Gif,
        Ok(image::ImageFormat::WebP) => Detected::Webp,
        Ok(image::ImageFormat::Bmp) => Detected::Bmp,
        _ => Detected::Other,
    }
}

/// Decides how uploaded bytes are canonicalised: by the kind of image
/// that their signature announces and the prescribed format.
pub fn validate_bytes(prescribed: Option<Format>, bytes: &[u8]) -> (r: Result<
    Validation,
    UploadError,
>)
    ensures
        r == validation_of(prescribed, sniffed(bytes@)),
{
    plan_validation(prescribed, guess_kind(bytes))
}

/// The bytes of the image that `b` decodes to, encoded again as `t`.
pub uninterp spec fn reencoded(b: Seq<u8>, t: ImageType) -> Seq<u8>;

/// Relies on `image::load_from_memory` and `DynamicImage::write_to`: the
/// decoded image encoded again in the format of `t`, or the text of the
/// error where decoding or encoding fails.
#[verifier::external_body]
fn decode_and_encode(bytes: &[u8], t: ImageType) -> (r: Result<Vec<u8>, String>)
    ensures
        r matches Ok(v) ==> v@ == reencoded(bytes@, t),
{
    let format = match t {
        ImageType::Png => image::ImageFormat::Png,
        ImageType::Jpeg => image::ImageFormat::Jpeg,
        ImageType::Gif => image::ImageFormat::Gif,
        ImageType::Webp => image::ImageFormat::WebP,
        ImageType::Bmp => image::ImageFormat::Bmp,
    };
    let mut out = std::io::Cursor::new(Vec::new());
    match image::load_from_memory(bytes).and_then(|img| img.write_to(&mut out, format)) {
        Ok(()) => Ok(out.into_inner()),
        Err(e) => Err(e.to_string()),
    }
}

/// Decodes an image and encodes it again as `t`, which drops what the
/// encoder does not write back (metadata, trailing payloads).
pub fn reencode(bytes: &[u8], t: ImageType) -> (r: Result<Vec<u8>, UploadError>)
    ensures
        r matches Ok(v) ==> v@ == reencoded(bytes@, t),
        r matches Err(e) ==> e is InvalidImage,
{
    match decode_and_encode(bytes, t) {
        Ok(v) => Ok(v),
        Err(text) => Err(UploadError::InvalidImage(text)),
    }
}

/// Where the component that ends at `i` starts: just after the last `/`
/// before `i`.
pub open spec fn char_component_start(p: Seq<char>, i: int) -> int
    decreases i,
{
    if i > 0 && i <= p.len() && p[i - 1] != '/' {
        char_component_start(p, i - 1)
    } else {
        i
    }
}

/// The position of the last `.` in `p[start..i]`, or `start - 1`.
pub open spec fn last_dot(p: Seq<char>, start: int, i: int) -> int
    decreases i - start,
{
    if i <= start || i > p.len() {
        start - 1
    } else if p[i - 1] == '.' {
        i - 1
    } else {
        last_dot(p, start, i - 1)
    }
}

/// The extension of a path's last component: what follows its last `.`,
/// where that `.` is not the component's first character.
pub open spec fn extension_of(p: Seq<char>) -> Option<Seq<char>> {
    let s = char_component_start(p, p.len() as int);
    let d = last_dot(p, s, p.len() as int);
    if d > s {
        Some(p.subrange(d + 1, p.len() as int))
    } else {
        None
    }
}

/// The content type that a stored file is served with, by its extension.
pub fn serve_type(path: &str) -> (r: Result<ImageType, UploadError>)
    ensures
        r == (match extension_of(path@) {
            Some(e) => Ok(type_of_ext(e)),
            None => Err(UploadError::MissingExtension),
        }),
{
    let n = path.unicode_len();
    let mut s = n;
    while s > 0 && path.get_char(s - 1) != '/'
        invariant
            s <= n,
            n == path@.len(),
            char_component_start(path@, n as int) == char_component_start(path@, s as int),
        decreases s,
    {
        s = s - 1;
    }
    let mut i = n;
    while i > s && path.get_char(i - 1) != '.'
        invariant
            s <= i <= n,
            n == path@.len(),
            last_dot(path@, s as int, n as int) == last_dot(path@, s as int, i as int),
        decreases i,
    {
        i = i - 1;
    }
    if i <= s || i - s == 1 {
        return Err(UploadError::MissingExtension);
    }
    let ext = path.substring_char(i, n);
    Ok(from_ext(ext))
}

impl Format {
    /// The content type of images in this format.
    pub fn to_mime(&self) -> (r: ImageType)
        ensures
            r == format_type(*self),
    {
        match self {
            Format::Jpeg => ImageType::Jpeg,
            Format::Png => ImageType::Png,
            Format::Webp => ImageType::Webp,
        }
    }

    /// The raster engine's name for this format.
    pub fn to_magick_format(&self) -> (r: &'static str)
        ensures
            r@ == match *self {
                Format::Jpeg => seq!['J', 'P', 'E', 'G'],
                Format::Png => seq!['P', 'N', 'G'],
                Format::Webp => seq!['W', 'E', 'B', 'P'],
            },
    {
        proof {
            reveal_strlit("JPEG");
            reveal_strlit("PNG");
            reveal_strlit("WEBP");
        }
        match self {
            Format::Jpeg => "JPEG",
            Format::Png => "PNG",
            Format::Webp => "WEBP",
        }
    }

    /// Reads a configured format: `png`, `jpg` or `webp`; anything else is
    /// returned as the error.
    pub fn from_str(s: &str) -> (r: Result<Format, String>)
        ensures
            s@ == seq!['p', 'n', 'g'] ==> r == Ok::<Format, String>(Format::Png),
            s@ == seq!['j', 'p', 'g'] ==> r == Ok::<Format, String>(Format::Jpeg),
            s@ == seq!['w', 'e', 'b', 'p'] ==> r == Ok::<Format, String>(Format::Webp),
            s@ != seq!['p', 'n', 'g'] && s@ != seq!['j', 'p', 'g'] && s@ != seq!['w', 'e', 'b', 'p']
                ==> (r matches Err(e) && e@ == s@),
    {
        proof {
            reveal_strlit("png");
            reveal_strlit("jpg");
            reveal_strlit("webp");
            assert("png"@ =~= seq!['p', 'n', 'g']);
            assert("jpg"@ =~= seq!['j', 'p', 'g']);
            assert("webp"@ =~= seq!['w', 'e', 'b', 'p']);
        }
        if str_eq(s, "png") {
            Ok(Format::Png)
        } else if str_eq(s, "jpg") {
            Ok(Format::Jpeg)
        } else if str_eq(s, "webp") {
            Ok(Format::Webp)
        } else {
            Err(String::from_str(s))
        }
    }
}

/// Equality of two strings, by their bytes.
pub fn str_eq(a: &str, b: &str) -> (r: bool)
    ensures
        r == (a@ == b@),
{
    let x = a.as_bytes();
    let y = b.as_bytes();
    proof {
        vstd::utf8::encode_utf8_decode_utf8(a@);
        vstd::utf8::encode_utf8_decode_utf8(b@);
    }
    if x.len() != y.len() {
        return false;
    }
    let n = x.len();
    let mut i: usize = 0;
    while i < n
        invariant
            i <= n,
            n == x@.len(),
            n == y@.len(),
            x@ == a.spec_bytes(),
            y@ == b.spec_bytes(),
            forall|j: int| 0 <= j < i ==> x@[j] == y@[j],
        decreases n - i,
    {
        if x[i] != y[i] {
            return false;
        }
        i = i + 1;
    }
    assert(x@ =~= y@);
    true
}

/// The extension, without its dot, of files of a content type.
pub fn to_ext(t: ImageType) -> (r: &'static str)
    ensures
        r@ == ext_of(t),
{
    proof {
        reveal_strlit("png");
        reveal_strlit("jpg");
        reveal_strlit("gif");
        reveal_strlit("webp");
        reveal_strlit("bmp");
    }
    match t {
        ImageType::Png => "png",
        ImageType::Jpeg => "jpg",
        ImageType::Gif => "gif",
        ImageType::Webp => "webp",
        ImageType::Bmp => "bmp",
    }
}

/// The content type that a file's extension announces.
pub fn from_ext(ext: &str) -> (r: ImageType)
    ensures
        r == type_of_ext(ext@),
{
    if str_eq(ext, to_ext(ImageType::Png)) {
        ImageType::Png
    } else if str_eq(ext, to_ext(ImageType::Jpeg)) {
        ImageType::Jpeg
    } else if str_eq(ext, to_ext(ImageType::Gif)) {
        ImageType::Gif
    } else if str_eq(ext, to_ext(ImageType::Webp)) {
        ImageType::Webp
    } else {
        ImageType::Bmp
    }
}

/// `name.ext`, the stored name of a file of the given content type.
pub fn file_name(name: &str, t: ImageType) -> (r: String)
    ensures
        r@ == name@ + seq!['.'] + ext_of(t),
{
    let mut s = String::from_str(name);
    proof {
        reveal_strlit(".");
    }
    s.append(".");
    s.append(to_ext(t));
    assert(s@ =~= name@ + seq!['.'] + ext_of(t));
    s
}

} // verus!
