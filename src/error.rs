//! Errors of the library and the HTTP status each one answers with.
use vstd::prelude::*;

verus! {

/// Why an operation of the repository failed.
#[derive(Debug, PartialEq, Eq)]
pub enum UploadError {
    /// The multipart form was malformed.
    Upload(String),
    /// Writing a file failed.
    Save(String),
    /// The key/value store failed.
    Db(String),
    /// Stored bytes were not UTF-8.
    ParseString,
    /// The image codec failed.
    Image(String),
    /// A filesystem call failed.
    Io(String),
    /// A blocking worker panicked.
    Canceled,
    /// The upload held no files.
    NoFiles,
    /// A stored file has no extension to serve it by.
    MissingExtension,
    /// No such alias.
    MissingAlias,
    /// The alias leads to a hash without a file.
    MissingFile,
    /// The delete token does not match.
    InvalidToken,
    /// The bytes do not decode as an image.
    InvalidImage(String),
    /// The image is of a kind that is not accepted.
    UnsupportedFormat,
    /// A remote download answered with this status.
    Download(u16),
    /// A remote download's body failed.
    Payload(String),
    /// A remote request could not be sent.
    SendRequest(String),
    /// A filename was looked up and is not known.
    MissingFilename,
    /// A path is not valid UTF-8.
    Path,
    /// The alias is taken by another image.
    DuplicateAlias,
    /// A GIF could not be re-encoded.
    Gif(String),
    /// The target of a move already exists.
    FileExists,
    /// The raster engine reported an error.
    Wand(String),
}

/// Status `400`: the request itself is at fault.
pub open spec fn is_client_error(e: UploadError) -> bool {
    match e {
        UploadError::NoFiles | UploadError::Upload(_) | UploadError::DuplicateAlias
        | UploadError::Gif(_) | UploadError::InvalidImage(_) | UploadError::UnsupportedFormat
        | UploadError::Download(_) => true,
        _ => false,
    }
}

/// The HTTP status that answers an error.
pub open spec fn status_of(e: UploadError) -> u16 {
    if is_client_error(e) {
        400
    } else {
        match e {
            UploadError::MissingAlias | UploadError::MissingFilename => 404,
            UploadError::InvalidToken => 403,
            _ => 500,
        }
    }
}

impl UploadError {
    /// The HTTP status that answers this error.
    pub fn status_code(&self) -> (r: u16)
        ensures
            r == status_of(*self),
    {
        match self {
            UploadError::NoFiles | UploadError::Upload(_) | UploadError::DuplicateAlias
            | UploadError::Gif(_) | UploadError::InvalidImage(_) | UploadError::UnsupportedFormat
            | UploadError::Download(_) => 400,
            UploadError::MissingAlias | UploadError::MissingFilename => 404,
            UploadError::InvalidToken => 403,
            _ => 500,
        }
    }
}

} // verus!
