//! Checks on uploaded files: the declared MIME type must be on the allowed
//! list, the extension must not be that of an executable, the MIME type
//! guessed from the name must agree, and the content must not exceed 50 MiB.

use vstd::prelude::*;
use vstd::string::StringExecFns;
use sha2::Digest;
use crate::error::AppError;
use crate::text::{contains_text, hex_encode, hex_lower, str_eq, texts_view, lowercase, to_lowercase};

verus! {

/// The MIME types an upload may declare.
pub open spec fn allowed_mime_types() -> Seq<Seq<char>> {
    seq![
        "image/jpeg"@,
        "image/png"@,
        "image/gif"@,
        "image/svg+xml"@,
        "image/webp"@,
        "image/bmp"@,
        "image/tiff"@,
        "image/x-icon"@,
        "video/mp4"@,
        "video/webm"@,
        "video/quicktime"@,
        "video/mpeg"@,
        "video/x-msvideo"@,
        "video/x-flv"@,
        "application/zip"@,
        "application/gzip"@,
        "application/x-rar-compressed"@,
        "application/x-tar"@,
        "application/x-7z-compressed"@,
        "application/x-bzip2"@,
        "application/pdf"@,
        "application/msword"@,
        "application/vnd.openxmlformats-officedocument.wordprocessingml.document"@,
        "application/vnd.ms-excel"@,
        "application/vnd.openxmlformats-officedocument.spreadsheetml.sheet"@,
        "text/plain"@,
        "text/csv"@,
        "application/rtf"@,
        "application/vnd.oasis.opendocument.text"@,
        "application/vnd.oasis.opendocument.spreadsheet"@,
    ]
}

/// The extensions of executables, which no upload may have.
pub open spec fn blocked_extensions() -> Seq<Seq<char>> {
    seq![
        "exe"@,
        "bat"@,
        "dll"@,
        "msi"@,
        "com"@,
        "cmd"@,
        "sh"@,
        "bin"@,
        "app"@,
        "dmg"@,
        "jar"@,
    ]
}

/// The allowed MIME types.
pub fn allowed_mime_list() -> (v: Vec<String>)
    ensures
        texts_view(v@) == allowed_mime_types(),
{
    let mut v: Vec<String> = Vec::new();
    v.push(String::from_str("image/jpeg"));
    v.push(String::from_str("image/png"));
    v.push(String::from_str("image/gif"));
    v.push(String::from_str("image/svg+xml"));
    v.push(String::from_str("image/webp"));
    v.push(String::from_str("image/bmp"));
    v.push(String::from_str("image/tiff"));
    v.push(String::from_str("image/x-icon"));
    v.push(String::from_str("video/mp4"));
    v.push(String::from_str("video/webm"));
    v.push(String::from_str("video/quicktime"));
    v.push(String::from_str("video/mpeg"));
    v.push(String::from_str("video/x-msvideo"));
    v.push(String::from_str("video/x-flv"));
    v.push(String::from_str("application/zip"));
    v.push(String::from_str("application/gzip"));
    v.push(String::from_str("application/x-rar-compressed"));
    v.push(String::from_str("application/x-tar"));
    v.push(String::from_str("application/x-7z-compressed"));
    v.push(String::from_str("application/x-bzip2"));
    v.push(String::from_str("application/pdf"));
    v.push(String::from_str("application/msword"));
    v.push(String::from_str("application/vnd.openxmlformats-officedocument.wordprocessingml.document"));
    v.push(String::from_str("application/vnd.ms-excel"));
    v.push(String::from_str("application/vnd.openxmlformats-officedocument.spreadsheetml.sheet"));
    v.push(String::from_str("text/plain"));
    v.push(String::from_str("text/csv"));
    v.push(String::from_str("application/rtf"));
    v.push(String::from_str("application/vnd.oasis.opendocument.text"));
    v.push(String::from_str("application/vnd.oasis.opendocument.spreadsheet"));
    assert(texts_view(v@) =~= allowed_mime_types());
    v
}

/// The blocked extensions.
pub fn blocked_extension_list() -> (v: Vec<String>)
    ensures
        texts_view(v@) == blocked_extensions(),
{
    let mut v: Vec<String> = Vec::new();
    v.push(String::from_str("exe"));
    v.push(String::from_str("bat"));
    v.push(String::from_str("dll"));
    v.push(String::from_str("msi"));
    v.push(String::from_str("com"));
    v.push(String::from_str("cmd"));
    v.push(String::from_str("sh"));
    v.push(String::from_str("bin"));
    v.push(String::from_str("app"));
    v.push(String::from_str("dmg"));
    v.push(String::from_str("jar"));
    assert(texts_view(v@) =~= blocked_extensions());
    v
}

/// The largest upload accepted, in bytes (50 MiB).
pub const MAX_UPLOAD_BYTES: usize = 52428800;

/// What `std::path::Path::extension` gives for a file name, as text.
pub uninterp spec fn path_extension(name: Seq<char>) -> Option<Seq<char>>;

/// The name holds no character that a path may separate components or
/// start a prefix with, so it is one file name.
pub open spec fn plain_name(name: Seq<char>) -> bool {
    !name.contains('/') && !name.contains('\\') && !name.contains(':')
}

/// `k` is the position of the name's last `.`.
pub open spec fn last_dot_at(name: Seq<char>, k: int) -> bool {
    &&& 0 <= k < name.len()
    &&& name[k] == '.'
    &&& forall|j: int| k < j < name.len() ==> name[j] != '.'
}

/// The extension of a single file name as `Path::extension` documents it:
/// the part after the final `.`; none for `..`, for a name without `.`, and
/// for a name whose only `.` is its first character.
pub open spec fn plain_extension(name: Seq<char>) -> Option<Seq<char>> {
    if name == ".."@ {
        None
    } else if exists|k: int| #[trigger] last_dot_at(name, k) && k > 0 {
        Some(name.skip((choose|k: int| #[trigger] last_dot_at(name, k) && k > 0) + 1))
    } else {
        None
    }
}

/// The extension of a file name: as documented for a single file name, as
/// named otherwise.
pub open spec fn name_extension(name: Seq<char>) -> Option<Seq<char>> {
    if plain_name(name) {
        plain_extension(name)
    } else {
        path_extension(name)
    }
}

/// Calls `std::path::Path::extension` on the name and turns the result,
/// which is valid UTF-8 as the name is, back into a string. For a single
/// file name the contract states the rule that the documentation of
/// `extension` gives; for a name with separators it claims only that the
/// result is a function of the name, named `path_extension`, as the rules
/// for splitting a path into components are not restated.
#[verifier::external_body]
fn file_extension(name: &str) -> (r: Option<String>)
    ensures
        match r {
            Some(e) => path_extension(name@) == Some(e@),
            None => path_extension(name@) is None,
        },
        plain_name(name@) ==> match r {
            Some(e) => plain_extension(name@) == Some(e@),
            None => plain_extension(name@) is None,
        },
{
    match std::path::Path::new(name).extension() {
        Some(e) => match e.to_str() {
            Some(t) => Some(t.to_string()),
            None => None,
        },
        None => None,
    }
}

/// What `mime_guess::from_path(name).first()` gives, as text.
pub uninterp spec fn guessed_mime(name: Seq<char>) -> Option<Seq<char>>;

/// Calls `mime_guess::from_path` and takes the first guess, as text. The
/// guess depends on the name's extension and the crate's fixed table; the
/// contract claims only that it is a function of the name, named
/// `guessed_mime`.
#[verifier::external_body]
fn guess_mime(name: &str) -> (r: Option<String>)
    ensures
        match r {
            Some(m) => guessed_mime(name@) == Some(m@),
            None => guessed_mime(name@) is None,
        },
{
    match mime_guess::from_path(name).first() {
        Some(m) => Some(m.as_ref().to_string()),
        None => None,
    }
}

/// The SHA-256 digest of bytes.
pub uninterp spec fn sha256_of(data: Seq<u8>) -> Seq<u8>;

/// Calls `sha2::Sha256::digest`. The contract claims that the digest is a
/// function of the bytes, named `sha256_of`, and that it has 32 bytes.
#[verifier::external_body]
fn sha256(data: &[u8]) -> (r: Vec<u8>)
    ensures
        r@ == sha256_of(data@),
        r@.len() == 32,
{
    sha2::Sha256::digest(data).to_vec()
}

/// The declared content type, or `application/octet-stream` where none was
/// declared.
pub open spec fn content_type_of(declared: Option<Seq<char>>) -> Seq<char> {
    match declared {
        Some(t) => t,
        None => "application/octet-stream"@,
    }
}

/// The lowercase extension of a file name, or empty.
pub open spec fn extension_of(name: Seq<char>) -> Seq<char> {
    lowercase(
        match name_extension(name) {
            Some(e) => e,
            None => Seq::empty(),
        },
    )
}

/// An upload that passed the checks on its name and type.
#[derive(Clone, Debug)]
pub struct UploadPlan {
    pub file_name: String,
    pub content_type: String,
    /// The lowercase extension of the file name, or empty.
    pub extension: String,
}

/// The answer to a stored upload.
#[derive(Clone, Debug)]
pub struct UploadReceipt {
    /// Where the file can be fetched: `/blobs/<id>.<extension>`.
    pub url: String,
    /// The SHA-256 of the content, in lowercase hex.
    pub hash: String,
    pub mime: String,
    pub size: usize,
}

/// Checks an upload's name and declared type: the name must be given, the
/// type (by default `application/octet-stream`) must be allowed, the
/// extension must not be blocked, and a MIME type guessed from the name
/// must equal the declared one.
pub fn validate_upload(file_name: Option<String>, content_type: Option<String>) -> (r: Result<
    UploadPlan,
    AppError,
>)
    ensures
        file_name is None ==> (r matches Err(AppError::Internal(m)) && m@ == "missing file name"@),
        file_name matches Some(name) ==> ({
            let ct = content_type_of(match content_type {
                Some(t) => Some(t@),
                None => None,
            });
            let ext = extension_of(name@);
            if !allowed_mime_types().contains(ct) {
                r matches Err(AppError::UnsupportedFileType)
            } else if blocked_extensions().contains(ext) {
                r matches Err(AppError::ExecutableNotAllowed)
            } else if guessed_mime(name@) is Some && guessed_mime(name@)->0 != ct {
                r matches Err(AppError::MimeMismatch)
            } else {
                r matches Ok(p) && p.file_name@ == name@ && p.content_type@ == ct && p.extension@ == ext
            }
        }),
{
    let name = match file_name {
        Some(n) => n,
        None => {
            return Err(AppError::Internal(String::from_str("missing file name")));
        },
    };
    let ct = match content_type {
        Some(t) => t,
        None => String::from_str("application/octet-stream"),
    };
    if !contains_text(&allowed_mime_list(), ct.as_str()) {
        return Err(AppError::UnsupportedFileType);
    }
    let raw_ext = match file_extension(name.as_str()) {
        Some(e) => e,
        None => String::new(),
    };
    let ext = to_lowercase(raw_ext.as_str());
    if contains_text(&blocked_extension_list(), ext.as_str()) {
        return Err(AppError::ExecutableNotAllowed);
    }
    match guess_mime(name.as_str()) {
        Some(guessed) => {
            if !str_eq(guessed.as_str(), ct.as_str()) {
                return Err(AppError::MimeMismatch);
            }
        },
        None => {},
    }
    Ok(UploadPlan { file_name: name, content_type: ct, extension: ext })
}

/// The name an upload is stored under: `<id>.<extension>`.
pub fn stored_file_name(id: &str, extension: &str) -> (s: String)
    ensures
        s@ == id@ + "."@ + extension@,
{
    let mut s = id.to_owned();
    s.append(".");
    s.append(extension);
    s
}

/// The receipt for an upload stored under `id`: refused where the content
/// exceeds 50 MiB, else the URL, the SHA-256 of the content in hex, the
/// type and the size.
pub fn upload_receipt(plan: &UploadPlan, id: &str, data: &[u8]) -> (r: Result<UploadReceipt, AppError>)
    ensures
        data@.len() > MAX_UPLOAD_BYTES ==> r matches Err(AppError::FileTooLarge),
        data@.len() <= MAX_UPLOAD_BYTES ==> (r matches Ok(rc) && rc.url@ == "/blobs/"@ + id@ + "."@
            + plan.extension@ && rc.hash@ == hex_lower(sha256_of(data@)) && rc.mime@
            == plan.content_type@ && rc.size == data@.len()),
{
    let size = data.len();
    if size > MAX_UPLOAD_BYTES {
        return Err(AppError::FileTooLarge);
    }
    let digest = sha256(data);
    let hash = hex_encode(digest.as_slice());
    let mut url = String::from_str("/blobs/");
    url.append(stored_file_name(id, plan.extension.as_str()).as_str());
    Ok(UploadReceipt { url, hash, mime: plan.content_type.clone(), size })
}

} // verus!
