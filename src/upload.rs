//! Admission of uploads, and the errors reported to clients.

use vstd::prelude::*;

verus! {

/// The largest payload accepted, in bytes.
pub const MAX_UPLOAD_BYTES: u64 = 25_000_000;

/// What content sniffing tells of a payload: the kind `(is_image, extension)`
/// that infer's matchers find, or `None` where none matches.
pub uninterp spec fn sniffed_kind(b: Seq<u8>) -> Option<(bool, Seq<char>)>;

/// The type of a payload as found by sniffing its leading bytes.
#[derive(Debug, PartialEq, Eq)]
pub struct FileKind {
    pub is_image: bool,
    pub extension: String,
}

/// Why an upload was refused.
#[derive(Debug, Clone, Copy, PartialEq, Eq, Structural)]
pub enum UploadError {
    UnknownFileType,
    NotAnImage,
    FileTooBig,
    InternalServerError,
}

/// Why a download failed.
#[derive(Debug, Clone, Copy, PartialEq, Eq, Structural)]
pub enum DownloadError {
    NotFound,
    InternalServerError,
}

impl UploadError {
    /// The HTTP status that reports this error.
    pub fn status_code(&self) -> (r: u16)
        ensures
            r == (match *self {
                UploadError::UnknownFileType => 400u16,
                UploadError::NotAnImage => 400u16,
                UploadError::FileTooBig => 413u16,
                UploadError::InternalServerError => 500u16,
            }),
    {
        match *self {
            UploadError::UnknownFileType => 400,
            UploadError::NotAnImage => 400,
            UploadError::FileTooBig => 413,
            UploadError::InternalServerError => 500,
        }
    }

    /// The message shown to the client.
    pub fn message(&self) -> (r: &'static str)
        ensures
            *self == UploadError::UnknownFileType ==> r@ == "Unknown file type"@,
            *self == UploadError::NotAnImage ==> r@ == "Not an image"@,
            *self == UploadError::FileTooBig ==> r@ == "File is too big"@,
            *self == UploadError::InternalServerError ==> r@ == "Internal server error"@,
    {
        match *self {
            UploadError::UnknownFileType => "Unknown file type",
            UploadError::NotAnImage => "Not an image",
            UploadError::FileTooBig => "File is too big",
            UploadError::InternalServerError => "Internal server error",
        }
    }
}

impl DownloadError {
    /// The HTTP status that reports this error.
    pub fn status_code(&self) -> (r: u16)
        ensures
            *self == DownloadError::NotFound ==> r == 404,
            *self == DownloadError::InternalServerError ==> r == 500,
    {
        match *self {
            DownloadError::NotFound => 404,
            DownloadError::InternalServerError => 500,
        }
    }

    /// The message shown to the client.
    pub fn message(&self) -> (r: &'static str)
        ensures
            *self == DownloadError::NotFound ==> r@ == "File not found"@,
            *self == DownloadError::InternalServerError ==> r@ == "Internal server error"@,
    {
        match *self {
            DownloadError::NotFound => "File not found",
            DownloadError::InternalServerError => "Internal server error",
        }
    }
}

/// Relies on `infer::get`: the first matcher that recognises the bytes, told
/// apart by whether its matcher type is `Image`, with its extension.
#[verifier::external_body]
fn sniff(bytes: &[u8]) -> (r: Option<FileKind>)
    ensures
        r is None <==> sniffed_kind(bytes@) is None,
        r is Some ==> sniffed_kind(bytes@) == Some((r->Some_0.is_image, r->Some_0.extension@)),
{
    infer::get(bytes).map(
        |t| FileKind {
            is_image: t.matcher_type() == infer::MatcherType::Image,
            extension: t.extension().to_string(),
        },
    )
}

/// Decides on an upload of `size` bytes (`None`: the size is not known) whose
/// sniffed type is `kind`. On success, the extension to name it with.
pub fn classify_upload(size: Option<u64>, kind: Option<FileKind>) -> (r: Result<String, UploadError>)
    ensures
        size is None ==> (r is Err && r->Err_0 == UploadError::InternalServerError),
        size is Some && size->Some_0 > MAX_UPLOAD_BYTES ==> (r is Err && r->Err_0 == UploadError::FileTooBig),
        size is Some && size->Some_0 <= MAX_UPLOAD_BYTES && kind is None ==> (r is Err && r->Err_0 == UploadError::UnknownFileType),
        size is Some && size->Some_0 <= MAX_UPLOAD_BYTES && kind is Some && !kind->Some_0.is_image
            ==> (r is Err && r->Err_0 == UploadError::NotAnImage),
        r is Ok <==> size is Some && size->Some_0 <= MAX_UPLOAD_BYTES && kind is Some
            && kind->Some_0.is_image,
        r is Ok ==> r->Ok_0@ == kind->Some_0.extension@,
{
    match size {
        None => Err(UploadError::InternalServerError),
        Some(n) => {
            if n > MAX_UPLOAD_BYTES {
                Err(UploadError::FileTooBig)
            } else {
                match kind {
                    None => Err(UploadError::UnknownFileType),
                    Some(k) => {
                        if k.is_image {
                            Ok(k.extension)
                        } else {
                            Err(UploadError::NotAnImage)
                        }
                    },
                }
            }
        },
    }
}

/// Checks a payload of `size` bytes: the size limit, then its sniffed type.
/// On success, the extension to name it with.
pub fn check_upload(bytes: &[u8], size: Option<u64>) -> (r: Result<String, UploadError>)
    ensures
        size is None ==> (r is Err && r->Err_0 == UploadError::InternalServerError),
        size is Some && size->Some_0 > MAX_UPLOAD_BYTES ==> (r is Err && r->Err_0 == UploadError::FileTooBig),
        size is Some && size->Some_0 <= MAX_UPLOAD_BYTES && sniffed_kind(bytes@) is None ==> (r is Err && r->Err_0 == UploadError::UnknownFileType),
        size is Some && size->Some_0 <= MAX_UPLOAD_BYTES && sniffed_kind(bytes@) is Some
            && !sniffed_kind(bytes@)->Some_0.0 ==> (r is Err && r->Err_0 == UploadError::NotAnImage),
        r is Ok <==> size is Some && size->Some_0 <= MAX_UPLOAD_BYTES && sniffed_kind(bytes@) is Some
            && sniffed_kind(bytes@)->Some_0.0,
        r is Ok ==> r->Ok_0@ == sniffed_kind(bytes@)->Some_0.1,
{
    let kind = sniff(bytes);
    classify_upload(size, kind)
}

} // verus!
