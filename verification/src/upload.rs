//! Uploading reports: what goes into which request, and what the answers mean.
use vstd::prelude::*;

use crate::json::{members, object_of, pairs_map};
use crate::paths::{components, extension, extension_of, file_name, is_dot_dot, parts_of};
use crate::ranking::{arranged, is_ranking, rank_desc, reversed};
use crate::text::{
    chars_of, concat2, concat3, decimal, decimal_of, lower, lower_of, opt_text, rows, same, text_of,
    trim_end_by, trim_end_of,
};

verus! {

/// The dashboard that is used unless another is configured.
pub const DEFAULT_API_URL: &'static str = "https://app.gaffer.sh";

/// Files of at least this size are uploaded in parts.
pub const SMALL_FILE_THRESHOLD: u64 = 94_371_840;

/// A request holds less than this in all.
pub const SMALL_BUNDLE_TOTAL_THRESHOLD: u64 = 209_715_200;

/// Largest file that can be uploaded.
pub const MAX_MPU_BYTES: u64 = 5_368_709_120;

/// Most parts of one file that are under way at a time.
pub const MPU_PART_CONCURRENCY: usize = 8;

/// How often a failed request is repeated.
pub const MAX_RETRIES: usize = 3;

/// The first wait before a repetition, in milliseconds. Each further one is twice as long.
pub const RETRY_BASE_DELAY_MS: u64 = 1_000;

// ---------------------------------------------------------------------------------------------
// Errors
// ---------------------------------------------------------------------------------------------
/// Why an upload failed.
pub enum UploadError {
    UserError { message: String, kind: &'static str },
    ServerError {
        message: String,
        kind: &'static str,
        status: Option<u16>,
        upload_session_id: Option<String>,
        cf_ray_id: Option<String>,
    },
    Unexpected { message: String, kind: &'static str },
}

/// Whose fault a failure is.
pub enum Blame {
    User,
    Server,
    Nobody,
}

/// What an `UploadError` says.
pub ghost struct Failure {
    pub blame: Blame,
    pub kind: Seq<char>,
    pub message: Seq<char>,
    pub status: Option<u16>,
    pub session: Option<Seq<char>>,
    pub ray: Option<Seq<char>>,
}

/// A failure without further details.
pub open spec fn failure(blame: Blame, kind: Seq<char>, message: Seq<char>) -> Failure {
    Failure { blame, kind, message, status: None, session: None, ray: None }
}

impl DeepView for UploadError {
    type V = Failure;

    open spec fn deep_view(&self) -> Failure {
        match self {
            UploadError::UserError { message, kind } => failure(Blame::User, kind@, message@),
            UploadError::ServerError { message, kind, status, upload_session_id, cf_ray_id } => Failure {
                blame: Blame::Server,
                kind: kind@,
                message: message@,
                status: *status,
                session: opt_text(*upload_session_id),
                ray: opt_text(*cf_ray_id),
            },
            UploadError::Unexpected { message, kind } => failure(Blame::Nobody, kind@, message@),
        }
    }
}

/// The exit code that tells callers whose fault a failure is.
pub open spec fn exit_code_for(blame: Blame) -> i32 {
    match blame {
        Blame::User => 1,
        Blame::Server => 2,
        Blame::Nobody => 3,
    }
}

impl UploadError {
    pub fn user(kind: &'static str, message: &str) -> (e: UploadError)
        ensures
            e.deep_view() == failure(Blame::User, kind@, message@),
    {
        UploadError::UserError { kind, message: message.to_owned() }
    }

    pub fn server(kind: &'static str, message: &str) -> (e: UploadError)
        ensures
            e.deep_view() == failure(Blame::Server, kind@, message@),
    {
        UploadError::ServerError {
            kind,
            message: message.to_owned(),
            status: None,
            upload_session_id: None,
            cf_ray_id: None,
        }
    }

    pub fn unexpected(kind: &'static str, message: &str) -> (e: UploadError)
        ensures
            e.deep_view() == failure(Blame::Nobody, kind@, message@),
    {
        UploadError::Unexpected { kind, message: message.to_owned() }
    }

    /// Adds the HTTP status to a server's failure; other failures stay as they are.
    pub fn with_status(self, code: u16) -> (e: UploadError)
        ensures
            self.deep_view().blame is Server ==> e.deep_view() == (Failure {
                status: Some(code),
                ..self.deep_view()
            }),
            !(self.deep_view().blame is Server) ==> e == self,
    {
        match self {
            UploadError::ServerError { message, kind, status, upload_session_id, cf_ray_id } =>
                UploadError::ServerError {
                    message,
                    kind,
                    status: Some(code),
                    upload_session_id,
                    cf_ray_id,
                },
            other => other,
        }
    }

    /// Adds the upload session to a server's failure; other failures stay as they are.
    pub fn with_session(self, sid: &str) -> (e: UploadError)
        ensures
            self.deep_view().blame is Server ==> e.deep_view() == (Failure {
                session: Some(sid@),
                ..self.deep_view()
            }),
            !(self.deep_view().blame is Server) ==> e == self,
    {
        match self {
            UploadError::ServerError { message, kind, status, upload_session_id, cf_ray_id } =>
                UploadError::ServerError {
                    message,
                    kind,
                    status,
                    upload_session_id: Some(sid.to_owned()),
                    cf_ray_id,
                },
            other => other,
        }
    }

    /// Adds the request's trace to a server's failure; other failures stay as they are.
    pub fn with_ray(self, ray: &str) -> (e: UploadError)
        ensures
            self.deep_view().blame is Server ==> e.deep_view() == (Failure {
                ray: Some(ray@),
                ..self.deep_view()
            }),
            !(self.deep_view().blame is Server) ==> e == self,
    {
        match self {
            UploadError::ServerError { message, kind, status, upload_session_id, cf_ray_id } =>
                UploadError::ServerError {
                    message,
                    kind,
                    status,
                    upload_session_id,
                    cf_ray_id: Some(ray.to_owned()),
                },
            other => other,
        }
    }

    pub fn kind(&self) -> (r: &'static str)
        ensures
            r@ == self.deep_view().kind,
    {
        match self {
            UploadError::UserError { kind, message } => *kind,
            UploadError::ServerError { kind, .. } => *kind,
            UploadError::Unexpected { kind, message } => *kind,
        }
    }

    /// What the failure tells the user.
    pub fn message(&self) -> (r: String)
        ensures
            r@ == self.deep_view().message,
    {
        match self {
            UploadError::UserError { kind, message } => message.clone(),
            UploadError::ServerError { message, .. } => message.clone(),
            UploadError::Unexpected { kind, message } => message.clone(),
        }
    }

    /// The process's exit code: 1 for the user's fault, 2 for the server's, 3 for nobody's.
    pub fn exit_code(&self) -> (r: i32)
        ensures
            r == exit_code_for(self.deep_view().blame),
    {
        match self {
            UploadError::UserError { .. } => 1,
            UploadError::ServerError { .. } => 2,
            UploadError::Unexpected { .. } => 3,
        }
    }
}

// ---------------------------------------------------------------------------------------------
// Configuration
// ---------------------------------------------------------------------------------------------
/// How to upload.
pub struct UploadConfig {
    pub token: String,
    pub api_url: Option<String>,
    pub commit_sha: Option<String>,
    pub branch: Option<String>,
    pub test_framework: Option<String>,
    pub test_suite: Option<String>,
    pub timeout_secs: u64,
    /// Largest file that is accepted, in megabytes.
    pub max_file_size_mb: u64,
    pub debug: bool,
}

/// `map`, with `key` bound to the text of `value` where there is one.
pub open spec fn bound_if(
    map: Map<Seq<char>, Seq<char>>,
    key: Seq<char>,
    value: Option<String>,
) -> Map<Seq<char>, Seq<char>> {
    match value {
        Some(v) => map.insert(key, v@),
        None => map,
    }
}

fn push_pair(pairs: &mut Vec<(String, String)>, key: &str, value: &Option<String>)
    ensures
        pairs_map(final(pairs)@, final(pairs)@.len() as int) == bound_if(
            pairs_map(old(pairs)@, old(pairs)@.len() as int),
            key@,
            *value,
        ),
{
    let ghost before = pairs@;
    if let Some(v) = value {
        pairs.push((key.to_owned(), v.clone()));
        proof {
            pairs_of_prefix(before, pairs@, before.len() as int);
        }
    }
}

proof fn pairs_of_prefix(a: Seq<(String, String)>, b: Seq<(String, String)>, n: int)
    requires
        n <= a.len(),
        n <= b.len(),
        forall|k: int| 0 <= k < n ==> a[k] == b[k],
    ensures
        pairs_map(a, n) == pairs_map(b, n),
    decreases n,
{
    if n > 0 {
        pairs_of_prefix(a, b, n - 1);
    }
}

impl UploadConfig {
    /// The dashboard's address.
    pub fn api_url(&self) -> (r: &str)
        ensures
            r@ == match self.api_url {
                Some(url) => url@,
                None => DEFAULT_API_URL@,
            },
    {
        match &self.api_url {
            Some(url) => url.as_str(),
            None => DEFAULT_API_URL,
        }
    }

    /// The address of one of the dashboard's services.
    pub fn endpoint(&self, path: &str) -> (r: String)
        ensures
            r@ == trim_end_by(
                match self.api_url {
                    Some(url) => url@,
                    None => DEFAULT_API_URL@,
                },
                |c: char| c == '/',
            ) + path@,
    {
        let base = text_of(&trim_end_of(&chars_of(self.api_url()), '/'));
        concat2(base.as_str(), path)
    }

    /// The tags that accompany an upload: an object with one member for each field that is set.
    pub fn tags(&self) -> (r: serde_json::Value)
        ensures
            members(r) == bound_if(
                bound_if(
                    bound_if(
                        bound_if(Map::empty(), "commitSha"@, self.commit_sha),
                        "branch"@,
                        self.branch,
                    ),
                    "framework"@,
                    self.test_framework,
                ),
                "testSuite"@,
                self.test_suite,
            ),
    {
        let mut pairs: Vec<(String, String)> = Vec::new();
        push_pair(&mut pairs, "commitSha", &self.commit_sha);
        push_pair(&mut pairs, "branch", &self.branch);
        push_pair(&mut pairs, "framework", &self.test_framework);
        push_pair(&mut pairs, "testSuite", &self.test_suite);
        object_of(pairs)
    }
}

// ---------------------------------------------------------------------------------------------
// Content types
// ---------------------------------------------------------------------------------------------
/// The content type of a lower-case extension.
pub open spec fn type_of_extension(ext: Seq<char>) -> Seq<char> {
    if ext == "html"@ || ext == "htm"@ {
        "text/html"@
    } else if ext == "xml"@ || ext == "trx"@ {
        "application/xml"@
    } else if ext == "json"@ {
        "application/json"@
    } else if ext == "css"@ {
        "text/css"@
    } else if ext == "js"@ || ext == "mjs"@ {
        "application/javascript"@
    } else if ext == "svg"@ {
        "image/svg+xml"@
    } else if ext == "png"@ {
        "image/png"@
    } else if ext == "jpg"@ || ext == "jpeg"@ {
        "image/jpeg"@
    } else if ext == "gif"@ {
        "image/gif"@
    } else if ext == "ico"@ {
        "image/x-icon"@
    } else if ext == "webp"@ {
        "image/webp"@
    } else if ext == "webm"@ {
        "video/webm"@
    } else if ext == "mp4"@ {
        "video/mp4"@
    } else if ext == "woff"@ {
        "font/woff"@
    } else if ext == "woff2"@ {
        "font/woff2"@
    } else if ext == "ttf"@ {
        "font/ttf"@
    } else if ext == "eot"@ {
        "application/vnd.ms-fontobject"@
    } else if ext == "gz"@ {
        "application/gzip"@
    } else if ext == "zip"@ {
        "application/zip"@
    } else if ext == "tar"@ {
        "application/x-tar"@
    } else if ext == "txt"@ || ext == "lcov"@ || ext == "info"@ {
        "text/plain"@
    } else if ext == "md"@ {
        "text/markdown"@
    } else if ext == "csv"@ {
        "text/csv"@
    } else if ext == "webmanifest"@ {
        "application/manifest+json"@
    } else {
        "application/octet-stream"@
    }
}

/// The extension of the file that a path names, in lower case.
pub open spec fn low_extension(path: Seq<char>) -> Option<Seq<char>> {
    match file_name(components(path)) {
        Some(name) => match extension(name) {
            Some(e) => Some(lower(e)),
            None => None,
        },
        None => None,
    }
}

/// The content type of a path.
pub open spec fn content_type(path: Seq<char>) -> Seq<char> {
    match low_extension(path) {
        Some(e) => type_of_extension(e),
        None => "application/octet-stream"@,
    }
}

fn extension_type(e: &str) -> (r: &'static str)
    ensures
        r@ == type_of_extension(e@),
{
    if same(e, "html") || same(e, "htm") {
        "text/html"
    } else if same(e, "xml") || same(e, "trx") {
        "application/xml"
    } else if same(e, "json") {
        "application/json"
    } else if same(e, "css") {
        "text/css"
    } else if same(e, "js") || same(e, "mjs") {
        "application/javascript"
    } else if same(e, "svg") {
        "image/svg+xml"
    } else if same(e, "png") {
        "image/png"
    } else if same(e, "jpg") || same(e, "jpeg") {
        "image/jpeg"
    } else if same(e, "gif") {
        "image/gif"
    } else if same(e, "ico") {
        "image/x-icon"
    } else if same(e, "webp") {
        "image/webp"
    } else if same(e, "webm") {
        "video/webm"
    } else if same(e, "mp4") {
        "video/mp4"
    } else if same(e, "woff") {
        "font/woff"
    } else if same(e, "woff2") {
        "font/woff2"
    } else if same(e, "ttf") {
        "font/ttf"
    } else if same(e, "eot") {
        "application/vnd.ms-fontobject"
    } else if same(e, "gz") {
        "application/gzip"
    } else if same(e, "zip") {
        "application/zip"
    } else if same(e, "tar") {
        "application/x-tar"
    } else if same(e, "txt") || same(e, "lcov") || same(e, "info") {
        "text/plain"
    } else if same(e, "md") {
        "text/markdown"
    } else if same(e, "csv") {
        "text/csv"
    } else if same(e, "webmanifest") {
        "application/manifest+json"
    } else {
        "application/octet-stream"
    }
}

/// The content type that a file's extension stands for, whatever its case.
pub fn content_type_for(path: &str) -> (r: &'static str)
    ensures
        r@ == content_type(path@),
{
    let parts = parts_of(path);
    let n: usize = parts.len();
    if n == 0 {
        return "application/octet-stream";
    }
    assert(rows(parts@).last() == parts@[n - 1]@);
    if is_dot_dot(&parts[n - 1]) {
        return "application/octet-stream";
    }
    match extension_of(&parts[n - 1]) {
        Some(e) => extension_type(lower_of(text_of(&e).as_str()).as_str()),
        None => "application/octet-stream",
    }
}

// ---------------------------------------------------------------------------------------------
// Files
// ---------------------------------------------------------------------------------------------
/// A file to upload.
pub struct UploadFile {
    pub absolute_path: String,
    /// The name under which the server keeps it.
    pub relative_path: String,
    pub size: u64,
}

/// What an `UploadFile` says.
pub ghost struct FileView {
    pub absolute_path: Seq<char>,
    pub relative_path: Seq<char>,
    pub size: u64,
}

impl DeepView for UploadFile {
    type V = FileView;

    open spec fn deep_view(&self) -> FileView {
        FileView {
            absolute_path: self.absolute_path@,
            relative_path: self.relative_path@,
            size: self.size,
        }
    }
}

/// What a walk through a directory came across.
pub enum Found {
    /// The walk failed here.
    Broken { reason: String },
    NotAFile,
    /// A file whose size could not be read.
    Unreadable { path: String, reason: String },
    File {
        path: String,
        /// The path relative to the directory, where it stands below it.
        relative: Option<String>,
        /// The file name, where the path ends in one.
        name: Option<String>,
        size: u64,
    },
}

/// What stands at a path that the user gave.
pub enum PathListing {
    Unreachable { path: String, reason: String },
    File { path: String, name: Option<String>, size: u64 },
    Directory { path: String, found: Vec<Found> },
    Other { path: String },
}

/// The files so far, or the failure that ended the enumeration.
pub ghost enum Enumeration {
    Files(Seq<FileView>),
    Failed(Failure),
}

/// `num / den` to the nearest integer, halves to the even one.
pub open spec fn half_even(num: nat, den: nat) -> nat {
    let q = num / den;
    let r = num % den;
    if 2 * r > den || (2 * r == den && q % 2 == 1) {
        q + 1
    } else {
        q
    }
}

/// A number of bytes in megabytes, with two decimals.
pub open spec fn megabytes(size: u64) -> Seq<char> {
    let h = half_even(100 * size as nat, 1_048_576);
    decimal(h / 100) + "."@ + decimal(h / 10 % 10) + decimal(h % 10)
}

/// The failure of a file that is larger than the user allows.
pub open spec fn over_max(path: Seq<char>, size: u64, max_mb: u64) -> Failure {
    failure(
        Blame::User,
        "file_too_large"@,
        path + " is "@ + megabytes(size) + " MB, exceeds the "@ + decimal(max_mb as nat)
            + " MB per-file limit (--max-file-size-mb)."@,
    )
}

/// The text, or `upload.bin` where there is none.
pub open spec fn name_or_default(name: Option<String>) -> Seq<char> {
    match name {
        Some(n) => n@,
        None => "upload.bin"@,
    }
}

/// `e` and one more file, unless it is too large.
pub open spec fn with_file(
    e: Seq<FileView>,
    path: Seq<char>,
    relative: Seq<char>,
    size: u64,
    max_mb: u64,
) -> Enumeration {
    if size > max_mb * 1_048_576 {
        Enumeration::Failed(over_max(path, size, max_mb))
    } else {
        Enumeration::Files(
            e.push(FileView { absolute_path: path, relative_path: relative, size }),
        )
    }
}

/// The enumeration after the first `n` findings in the directory `dir`.
pub open spec fn enumerate_found(
    e: Enumeration,
    dir: Seq<char>,
    found: Seq<Found>,
    max_mb: u64,
    n: int,
) -> Enumeration
    decreases n,
{
    if n <= 0 {
        e
    } else {
        match enumerate_found(e, dir, found, max_mb, n - 1) {
            Enumeration::Failed(f) => Enumeration::Failed(f),
            Enumeration::Files(files) => match found[n - 1] {
                Found::Broken { reason } => Enumeration::Failed(
                    failure(
                        Blame::User,
                        "path_walk_failed"@,
                        "Failed to walk "@ + dir + ": "@ + reason@,
                    ),
                ),
                Found::NotAFile => Enumeration::Files(files),
                Found::Unreadable { path, reason } => Enumeration::Failed(
                    failure(
                        Blame::User,
                        "path_walk_failed"@,
                        "Failed to stat "@ + path@ + ": "@ + reason@,
                    ),
                ),
                Found::File { path, relative, name, size } => with_file(
                    files,
                    path@,
                    match relative {
                        Some(r) => r@,
                        None => name_or_default(name),
                    },
                    size,
                    max_mb,
                ),
            },
        }
    }
}

/// The enumeration after the first `n` paths.
pub open spec fn enumerated(listings: Seq<PathListing>, max_mb: u64, n: int) -> Enumeration
    decreases n,
{
    if n <= 0 {
        Enumeration::Files(Seq::empty())
    } else {
        match enumerated(listings, max_mb, n - 1) {
            Enumeration::Failed(f) => Enumeration::Failed(f),
            Enumeration::Files(files) => match listings[n - 1] {
                PathListing::Unreachable { path, reason } => Enumeration::Failed(
                    failure(
                        Blame::User,
                        "path_not_found"@,
                        "Cannot access "@ + path@ + ": "@ + reason@,
                    ),
                ),
                PathListing::File { path, name, size } => with_file(
                    files,
                    path@,
                    name_or_default(name),
                    size,
                    max_mb,
                ),
                PathListing::Directory { path, found } => enumerate_found(
                    Enumeration::Files(files),
                    path@,
                    found@,
                    max_mb,
                    found@.len() as int,
                ),
                PathListing::Other { path } => Enumeration::Failed(
                    failure(
                        Blame::User,
                        "path_unsupported"@,
                        path@ + " is neither a file nor a directory."@,
                    ),
                ),
            },
        }
    }
}

fn megabytes_text(size: u64) -> (r: String)
    ensures
        r@ == megabytes(size),
{
    let num: u128 = 100 * (size as u128);
    let q: u64 = (num / 1_048_576) as u64;
    let rest: u128 = num % 1_048_576;
    let h: u64 = if 2 * rest > 1_048_576 || (2 * rest == 1_048_576 && q % 2 == 1) {
        q + 1
    } else {
        q
    };
    let whole = concat2(decimal_of(h / 100).as_str(), ".");
    concat3(whole.as_str(), decimal_of(h / 10 % 10).as_str(), decimal_of(h % 10).as_str())
}

fn over_max_file_error(path: &str, size: u64, max_mb: u64) -> (e: UploadError)
    ensures
        e.deep_view() == over_max(path@, size, max_mb),
{
    let start = concat3(path, " is ", megabytes_text(size).as_str());
    let middle = concat3(start.as_str(), " MB, exceeds the ", decimal_of(max_mb).as_str());
    let message = concat2(middle.as_str(), " MB per-file limit (--max-file-size-mb).");
    UploadError::user("file_too_large", message.as_str())
}

fn push_file(
    files: &mut Vec<UploadFile>,
    path: &str,
    relative: &str,
    size: u64,
    max_mb: u64,
) -> (r: Option<UploadError>)
    ensures
        match r {
            Some(e) => with_file(old(files).deep_view(), path@, relative@, size, max_mb)
                == Enumeration::Failed(e.deep_view()),
            None => with_file(old(files).deep_view(), path@, relative@, size, max_mb)
                == Enumeration::Files(final(files).deep_view()),
        },
{
    if size as u128 > (max_mb as u128) * 1_048_576 {
        return Some(over_max_file_error(path, size, max_mb));
    }
    let ghost before = files.deep_view();
    let file = UploadFile {
        absolute_path: path.to_owned(),
        relative_path: relative.to_owned(),
        size,
    };
    let ghost view = file.deep_view();
    files.push(file);
    assert(files.deep_view() =~= before.push(view));
    None
}

fn name_text(name: &Option<String>) -> (r: &str)
    ensures
        r@ == name_or_default(*name),
{
    match name {
        Some(n) => n.as_str(),
        None => "upload.bin",
    }
}

fn push_found(files: &mut Vec<UploadFile>, dir: &str, found: &Vec<Found>, max_mb: u64) -> (r: Option<
    UploadError,
>)
    ensures
        match r {
            Some(e) => enumerate_found(
                Enumeration::Files(old(files).deep_view()),
                dir@,
                found@,
                max_mb,
                found@.len() as int,
            ) == Enumeration::Failed(e.deep_view()),
            None => enumerate_found(
                Enumeration::Files(old(files).deep_view()),
                dir@,
                found@,
                max_mb,
                found@.len() as int,
            ) == Enumeration::Files(final(files).deep_view()),
        },
{
    let ghost start = Enumeration::Files(files.deep_view());
    let mut n: usize = 0;
    while n < found.len()
        invariant
            0 <= n <= found@.len(),
            start == Enumeration::Files(old(files).deep_view()),
            enumerate_found(start, dir@, found@, max_mb, n as int) == Enumeration::Files(
                files.deep_view(),
            ),
        decreases found@.len() - n,
    {
        let failed: Option<UploadError> = match &found[n] {
            Found::Broken { reason } => {
                let head = concat3("Failed to walk ", dir, ": ");
                Some(
                    UploadError::user(
                        "path_walk_failed",
                        concat2(head.as_str(), reason.as_str()).as_str(),
                    ),
                )
            },
            Found::NotAFile => None,
            Found::Unreadable { path, reason } => {
                let head = concat3("Failed to stat ", path.as_str(), ": ");
                Some(
                    UploadError::user(
                        "path_walk_failed",
                        concat2(head.as_str(), reason.as_str()).as_str(),
                    ),
                )
            },
            Found::File { path, relative, name, size } => {
                let rel = match relative {
                    Some(r) => r.as_str(),
                    None => name_text(name),
                };
                push_file(files, path.as_str(), rel, *size, max_mb)
            },
        };
        if let Some(e) = failed {
            proof {
                found_failure_stays(
                    start,
                    dir@,
                    found@,
                    max_mb,
                    n + 1,
                    found@.len() as int,
                    e.deep_view(),
                );
            }
            return Some(e);
        }
        n += 1;
    }
    None
}

proof fn found_failure_stays(
    e: Enumeration,
    dir: Seq<char>,
    found: Seq<Found>,
    max_mb: u64,
    a: int,
    b: int,
    f: Failure,
)
    requires
        a <= b,
        enumerate_found(e, dir, found, max_mb, a) == Enumeration::Failed(f),
    ensures
        enumerate_found(e, dir, found, max_mb, b) == Enumeration::Failed(f),
    decreases b - a,
{
    if a < b {
        found_failure_stays(e, dir, found, max_mb, a, b - 1, f);
    }
}

proof fn failure_stays(listings: Seq<PathListing>, max_mb: u64, a: int, b: int, f: Failure)
    requires
        a <= b,
        enumerated(listings, max_mb, a) == Enumeration::Failed(f),
    ensures
        enumerated(listings, max_mb, b) == Enumeration::Failed(f),
    decreases b - a,
{
    if a < b {
        failure_stays(listings, max_mb, a, b - 1, f);
    }
}

/// The files at the given paths, in order. A single file goes by its name, a file in a directory
/// by its path below that directory. The first path that cannot be read, or file that is too
/// large, ends the enumeration.
pub fn enumerate_files(listings: &Vec<PathListing>, max_mb: u64) -> (r: Result<
    Vec<UploadFile>,
    UploadError,
>)
    ensures
        match r {
            Ok(files) => enumerated(listings@, max_mb, listings@.len() as int)
                == Enumeration::Files(files.deep_view()),
            Err(e) => enumerated(listings@, max_mb, listings@.len() as int)
                == Enumeration::Failed(e.deep_view()),
        },
{
    let mut files: Vec<UploadFile> = Vec::new();
    assert(files.deep_view() =~= Seq::<FileView>::empty());
    let mut n: usize = 0;
    while n < listings.len()
        invariant
            0 <= n <= listings@.len(),
            enumerated(listings@, max_mb, n as int) == Enumeration::Files(files.deep_view()),
        decreases listings@.len() - n,
    {
        let failed: Option<UploadError> = match &listings[n] {
            PathListing::Unreachable { path, reason } => {
                let head = concat3("Cannot access ", path.as_str(), ": ");
                Some(
                    UploadError::user(
                        "path_not_found",
                        concat2(head.as_str(), reason.as_str()).as_str(),
                    ),
                )
            },
            PathListing::File { path, name, size } => push_file(
                &mut files,
                path.as_str(),
                name_text(name),
                *size,
                max_mb,
            ),
            PathListing::Directory { path, found } => push_found(
                &mut files,
                path.as_str(),
                found,
                max_mb,
            ),
            PathListing::Other { path } => Some(
                UploadError::user(
                    "path_unsupported",
                    concat2(path.as_str(), " is neither a file nor a directory.").as_str(),
                ),
            ),
        };
        if let Some(e) = failed {
            proof {
                failure_stays(listings@, max_mb, n + 1, listings@.len() as int, e.deep_view());
            }
            return Err(e);
        }
        n += 1;
    }
    Ok(files)
}

// ---------------------------------------------------------------------------------------------
// Bundles
// ---------------------------------------------------------------------------------------------
/// The size of the files `b` in all.
pub open spec fn bundle_size(sizes: Seq<u64>, b: Seq<int>) -> int
    decreases b.len(),
{
    if b.len() == 0 {
        0
    } else {
        bundle_size(sizes, b.drop_last()) + sizes[b.last()]
    }
}

/// The first bundle from number `k` on that has room for a file of the given size.
pub open spec fn first_room(sizes: Seq<u64>, bundles: Seq<Seq<int>>, size: u64, k: int) -> Option<
    int,
>
    decreases bundles.len() - k,
{
    if k < 0 || k >= bundles.len() {
        None
    } else if bundle_size(sizes, bundles[k]) + size < SMALL_BUNDLE_TOTAL_THRESHOLD {
        Some(k)
    } else {
        first_room(sizes, bundles, size, k + 1)
    }
}

/// The first `n` files in bundles: each goes into the first bundle with room, or else opens one.
pub open spec fn packed(sizes: Seq<u64>, n: int) -> Seq<Seq<int>>
    decreases n,
{
    if n <= 0 {
        Seq::empty()
    } else {
        let prev = packed(sizes, n - 1);
        match first_room(sizes, prev, sizes[n - 1], 0) {
            Some(k) => prev.update(k, prev[k].push(n - 1)),
            None => prev.push(seq![n - 1]),
        }
    }
}

/// The sizes of files.
pub open spec fn sizes_of(files: Seq<UploadFile>) -> Seq<u64> {
    Seq::new(files.len(), |k: int| files[k].size)
}

/// The sizes of files, as ranking keys.
pub open spec fn size_keys(files: Seq<UploadFile>) -> Seq<u128> {
    Seq::new(files.len(), |k: int| files[k].size as u128)
}

/// The files with the given positions.
pub open spec fn files_at(files: Seq<UploadFile>, b: Seq<int>) -> Seq<UploadFile> {
    Seq::new(b.len(), |k: int| files[b[k]])
}

/// `out` packs `sorted` into bundles.
pub open spec fn is_packing(out: Seq<Vec<UploadFile>>, sorted: Seq<UploadFile>) -> bool {
    let plan = packed(sizes_of(sorted), sorted.len() as int);
    &&& out.len() == plan.len()
    &&& forall|b: int| 0 <= b < plan.len() ==> (#[trigger] out[b])@ == files_at(sorted, plan[b])
}

/// Every bundle stays under the threshold, unless it is a single file that exceeds it by itself.
/// None is empty.
pub proof fn bundles_stay_small(sizes: Seq<u64>, n: int, b: int)
    requires
        0 <= n <= sizes.len(),
        0 <= b < packed(sizes, n).len(),
    ensures
        packed(sizes, n)[b].len() > 0,
        bundle_size(sizes, packed(sizes, n)[b]) < SMALL_BUNDLE_TOTAL_THRESHOLD || packed(
            sizes,
            n,
        )[b].len() == 1,
    decreases n,
{
    let prev = packed(sizes, n - 1);
    room_is_there(sizes, prev, sizes[n - 1], 0);
    match first_room(sizes, prev, sizes[n - 1], 0) {
        Some(k) => {
            if b != k {
                bundles_stay_small(sizes, n - 1, b);
            } else {
                assert(prev[k].push(n - 1).drop_last() =~= prev[k]);
            }
        },
        None => {
            if b < prev.len() {
                bundles_stay_small(sizes, n - 1, b);
            }
        },
    }
}

/// Every file lands in exactly one place of one bundle, and nothing else does.
pub proof fn bundles_partition_files(sizes: Seq<u64>, n: int)
    requires
        0 <= n <= sizes.len(),
    ensures
        forall|i: int| 0 <= i < n ==> #[trigger] is_placed(packed(sizes, n), i),
        forall|b: int, k: int|
            0 <= b < packed(sizes, n).len() && 0 <= k < packed(sizes, n)[b].len() ==> 0
                <= #[trigger] packed(sizes, n)[b][k] < n,
        forall|b: int, k: int, c: int, l: int|
            0 <= b < packed(sizes, n).len() && 0 <= k < packed(sizes, n)[b].len() && 0 <= c < packed(
                sizes,
                n,
            ).len() && 0 <= l < packed(sizes, n)[c].len() && #[trigger] packed(sizes, n)[b][k]
                == #[trigger] packed(sizes, n)[c][l] ==> b == c && k == l,
    decreases n,
{
    if n > 0 {
        bundles_partition_files(sizes, n - 1);
        let prev = packed(sizes, n - 1);
        let all = packed(sizes, n);
        room_is_there(sizes, prev, sizes[n - 1], 0);
        let at = match first_room(sizes, prev, sizes[n - 1], 0) {
            Some(k) => k,
            None => prev.len() as int,
        };
        let last = all[at].len() - 1;
        assert(all[at][last] == n - 1);
        assert forall|b: int, k: int|
            0 <= b < all.len() && 0 <= k < all[b].len() && !(b == at && k == last) implies b
            < prev.len() && k < prev[b].len() && #[trigger] all[b][k] == prev[b][k] by {}
        assert forall|i: int| 0 <= i < n implies #[trigger] is_placed(all, i) by {
            if i < n - 1 {
                assert(is_placed(prev, i));
                let (b, k) = choose|b: int, k: int|
                    0 <= b < prev.len() && 0 <= k < prev[b].len() && #[trigger] prev[b][k] == i;
                assert(all[b][k] == i);
            } else {
                assert(all[at][last] == i);
            }
        }
    }
}

/// Some bundle holds file `i`.
pub open spec fn is_placed(bundles: Seq<Seq<int>>, i: int) -> bool {
    exists|b: int, k: int|
        0 <= b < bundles.len() && 0 <= k < bundles[b].len() && #[trigger] bundles[b][k] == i
}

proof fn room_is_there(sizes: Seq<u64>, bundles: Seq<Seq<int>>, size: u64, k: int)
    requires
        0 <= k,
    ensures
        match first_room(sizes, bundles, size, k) {
            Some(b) => k <= b < bundles.len() && bundle_size(sizes, bundles[b]) + size
                < SMALL_BUNDLE_TOTAL_THRESHOLD,
            None => true,
        },
    decreases bundles.len() - k,
{
    if k < bundles.len() && bundle_size(sizes, bundles[k]) + size >= SMALL_BUNDLE_TOTAL_THRESHOLD {
        room_is_there(sizes, bundles, size, k + 1);
    }
}

/// Sorts files largest first, and packs them into bundles that stay under the threshold.
pub fn pack_small_bundles(files: Vec<UploadFile>) -> (out: Vec<Vec<UploadFile>>)
    ensures
        exists|order: Seq<int>| #[trigger]
            is_ranking(size_keys(files@), order) && is_packing(out@, arranged(files@, order)),
{
    let ghost given = files@;
    let mut keys: Vec<u128> = Vec::new();
    let mut i: usize = 0;
    while i < files.len()
        invariant
            0 <= i <= files@.len(),
            keys@ == size_keys(files@).take(i as int),
        decreases files@.len() - i,
    {
        keys.push(files[i].size as u128);
        i += 1;
        assert(keys@ =~= size_keys(files@).take(i as int));
    }
    assert(keys@ =~= size_keys(given));
    let sorted = rank_desc(files, keys);
    let ghost all = sorted@;
    let ghost order = choose|order: Seq<int>| #[trigger]
        is_ranking(size_keys(given), order) && all == arranged(given, order);
    assert(is_ranking(size_keys(given), order));
    let ghost sizes = sizes_of(all);
    let mut queue = reversed(sorted);
    let mut bundles: Vec<Vec<UploadFile>> = Vec::new();
    let mut totals: Vec<u128> = Vec::new();
    let ghost mut n: int = 0;
    assert(all.skip(0) =~= all);
    while queue.len() > 0
        invariant
            0 <= n,
            n + queue@.len() == all.len(),
            queue@ == all.skip(n).reverse(),
            sizes == sizes_of(all),
            bundles@.len() == totals@.len() == packed(sizes, n).len(),
            forall|b: int|
                0 <= b < bundles@.len() ==> (#[trigger] bundles@[b])@ == files_at(
                    all,
                    packed(sizes, n)[b],
                ),
            forall|b: int|
                0 <= b < totals@.len() ==> #[trigger] totals@[b] == bundle_size(
                    sizes,
                    packed(sizes, n)[b],
                ),
            forall|b: int|
                0 <= b < totals@.len() ==> #[trigger] totals@[b] <= 2 * u64::MAX as u128,
        decreases queue@.len(),
    {
        let ghost prev = packed(sizes, n);
        let ghost b0 = bundles@;
        let ghost t0 = totals@;
        assert(queue@.last() == all[n]);
        if let Some(f) = queue.pop() {
            assert(queue@ =~= all.skip(n + 1).reverse());
            assert(sizes[n] == f.size);
            let mut k: usize = 0;
            while k < totals.len() && totals[k] + f.size as u128
                >= SMALL_BUNDLE_TOTAL_THRESHOLD as u128
                invariant
                    0 <= k <= totals@.len(),
                    totals@.len() == prev.len(),
                    forall|b: int|
                        0 <= b < totals@.len() ==> #[trigger] totals@[b] == bundle_size(
                            sizes,
                            prev[b],
                        ),
                    forall|b: int|
                        0 <= b < totals@.len() ==> #[trigger] totals@[b] <= 2 * u64::MAX as u128,
                    first_room(sizes, prev, f.size, 0) == first_room(
                        sizes,
                        prev,
                        f.size,
                        k as int,
                    ),
                decreases totals@.len() - k,
            {
                k += 1;
            }
            if k < totals.len() {
                let more: u128 = totals[k] + f.size as u128;
                totals.set(k, more);
                bundles[k].push(f);
                proof {
                    let next = packed(sizes, n + 1);
                    assert(next == prev.update(k as int, prev[k as int].push(n)));
                    assert(prev[k as int].push(n).drop_last() =~= prev[k as int]);
                    assert(bundles@[k as int]@ =~= files_at(all, prev[k as int].push(n)));
                    assert forall|b: int| 0 <= b < bundles@.len() implies (
                    #[trigger] bundles@[b])@ == files_at(all, next[b]) by {
                        if b != k {
                            assert(bundles@[b] == b0[b]);
                        }
                    }
                }
            } else {
                let ghost size = f.size;
                totals.push(f.size as u128);
                let one: Vec<UploadFile> = vec![f];
                bundles.push(one);
                proof {
                    let next = packed(sizes, n + 1);
                    assert(next == prev.push(seq![n]));
                    assert(seq![n].drop_last() =~= Seq::<int>::empty());
                    assert(bundle_size(sizes, seq![n]) == size) by {
                        reveal_with_fuel(bundle_size, 2);
                    }
                    assert(one@ =~= files_at(all, seq![n]));
                    assert forall|b: int| 0 <= b < bundles@.len() implies (
                    #[trigger] bundles@[b])@ == files_at(all, next[b]) by {
                        if b < b0.len() {
                            assert(bundles@[b] == b0[b]);
                        }
                    }
                }
            }
            proof {
                n = n + 1;
            }
        }
    }
    assert(is_packing(bundles@, arranged(given, order)));
    bundles
}

} // verus!
