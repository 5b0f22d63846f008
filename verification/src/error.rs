//! Errors the API hands back, with their machine-readable codes and the
//! HTTP status each one is answered with.

use vstd::prelude::*;
use vstd::string::*;

verus! {

#[verifier::external_type_specification]
#[verifier::external_body]
pub struct ExIoError(std::io::Error);

#[verifier::external_type_specification]
#[verifier::external_body]
pub struct ExJsonError(serde_json::Error);

/// Every failure an API handler can report.
#[derive(Debug)]
pub enum ApiError {
    Message { code: &'static str, message: String },
    Io(std::io::Error),
    Json(serde_json::Error),
    Config(String),
    Database(String),
    Unauthorized,
    Forbidden,
    NotFound,
    BadRequest(String),
}

/// The kinds of I/O failure that the API answers with a status of their own.
#[derive(Clone, Copy, Debug, PartialEq, Eq)]
pub enum IoKind {
    NotFound,
    PermissionDenied,
    AlreadyExists,
    DirectoryNotEmpty,
    Other,
}

/// The machine-readable code of an error.
pub open spec fn spec_code(e: &ApiError) -> Seq<char> {
    match e {
        ApiError::Message { code, .. } => code@,
        ApiError::Io(_) => "io_error"@,
        ApiError::Json(_) => "json_error"@,
        ApiError::Config(_) => "config_error"@,
        ApiError::Database(_) => "database_error"@,
        ApiError::Unauthorized => "unauthorized"@,
        ApiError::Forbidden => "forbidden"@,
        ApiError::NotFound => "not_found"@,
        ApiError::BadRequest(_) => "bad_request"@,
    }
}

/// The human-readable text of an error whose text does not come from an
/// I/O or JSON error value.
pub open spec fn spec_describe(e: &ApiError) -> Seq<char> {
    match e {
        ApiError::Message { message, .. } => message@,
        ApiError::Config(s) => "config error: "@ + s@,
        ApiError::Database(s) => "database error: "@ + s@,
        ApiError::Unauthorized => "unauthorized"@,
        ApiError::Forbidden => "forbidden"@,
        ApiError::NotFound => "not found"@,
        ApiError::BadRequest(s) => "bad request: "@ + s@,
        ApiError::Io(_) => "io error: "@,
        ApiError::Json(_) => "json error: "@,
    }
}

/// The text of an I/O error.
/// Calls `std::io::Error`'s `Display`; its text can come from the operating
/// system, so nothing is stated of it.
#[verifier::external_body]
fn io_error_text(e: &std::io::Error) -> String {
    e.to_string()
}

/// The text of a JSON error.
/// Calls `serde_json::Error`'s `Display`; the value is opaque here, so
/// nothing is stated of the text.
#[verifier::external_body]
fn json_error_text(e: &serde_json::Error) -> String {
    e.to_string()
}

/// The kind of an I/O error.
/// Calls `std::io::Error::kind` and tells apart the kinds the API answers
/// differently; the value is opaque here, so nothing is stated of the kind.
#[verifier::external_body]
pub(crate) fn io_error_kind(e: &std::io::Error) -> IoKind {
    match e.kind() {
        std::io::ErrorKind::NotFound => IoKind::NotFound,
        std::io::ErrorKind::PermissionDenied => IoKind::PermissionDenied,
        std::io::ErrorKind::AlreadyExists => IoKind::AlreadyExists,
        std::io::ErrorKind::DirectoryNotEmpty => IoKind::DirectoryNotEmpty,
        _ => IoKind::Other,
    }
}

impl ApiError {
    /// A `BadRequest` carrying `message`.
    pub fn bad_request(message: String) -> (e: ApiError)
        ensures
            e == ApiError::BadRequest(message),
    {
        ApiError::BadRequest(message)
    }

    /// A `Message` error with the given code and text.
    pub fn message(code: &'static str, message: String) -> (e: ApiError)
        ensures
            e == (ApiError::Message { code, message }),
    {
        ApiError::Message { code, message }
    }

    /// The machine-readable code of this error.
    pub fn code(&self) -> (c: &'static str)
        ensures
            c@ == spec_code(self),
    {
        match self {
            ApiError::Message { code, .. } => code,
            ApiError::Io(_) => "io_error",
            ApiError::Json(_) => "json_error",
            ApiError::Config(_) => "config_error",
            ApiError::Database(_) => "database_error",
            ApiError::Unauthorized => "unauthorized",
            ApiError::Forbidden => "forbidden",
            ApiError::NotFound => "not_found",
            ApiError::BadRequest(_) => "bad_request",
        }
    }

    /// The human-readable text of this error.
    pub fn describe(&self) -> (s: String)
        ensures
            (self is Io || self is Json) ==> has_prefix_str(s@, spec_describe(self)),
            !(self is Io || self is Json) ==> s@ == spec_describe(self),
    {
        match self {
            ApiError::Message { message, .. } => message.clone(),
            ApiError::Io(e) => {
                let mut s = "io error: ".to_owned();
                let t = io_error_text(e);
                let ghost head = s@;
                s.append(t.as_str());
                assert(s@.subrange(0, head.len() as int) =~= head);
                s
            },
            ApiError::Json(e) => {
                let mut s = "json error: ".to_owned();
                let t = json_error_text(e);
                let ghost head = s@;
                s.append(t.as_str());
                assert(s@.subrange(0, head.len() as int) =~= head);
                s
            },
            ApiError::Config(m) => {
                let mut s = "config error: ".to_owned();
                s.append(m.as_str());
                s
            },
            ApiError::Database(m) => {
                let mut s = "database error: ".to_owned();
                s.append(m.as_str());
                s
            },
            ApiError::Unauthorized => "unauthorized".to_owned(),
            ApiError::Forbidden => "forbidden".to_owned(),
            ApiError::NotFound => "not found".to_owned(),
            ApiError::BadRequest(m) => {
                let mut s = "bad request: ".to_owned();
                s.append(m.as_str());
                s
            },
        }
    }
}

/// Whether `s` begins with `p`.
pub open spec fn has_prefix_str(s: Seq<char>, p: Seq<char>) -> bool {
    p.len() <= s.len() && s.subrange(0, p.len() as int) == p
}

/// The body of an error answer.
pub struct ApiErrorBody {
    pub code: &'static str,
    pub message: String,
}

/// An error answer: `{"error": {"code": ..., "message": ...}}`.
pub struct ApiErrorResponse {
    pub error: ApiErrorBody,
}

impl ApiErrorResponse {
    /// The answer for `err`: its code and its text.
    pub fn from_error(err: ApiError) -> (r: ApiErrorResponse)
        ensures
            r.error.code@ == spec_code(&err),
            (err is Io || err is Json) ==> has_prefix_str(r.error.message@, spec_describe(&err)),
            !(err is Io || err is Json) ==> r.error.message@ == spec_describe(&err),
    {
        let code = err.code();
        let message = err.describe();
        ApiErrorResponse { error: ApiErrorBody { code, message } }
    }
}

/// The status the file handlers answer an I/O failure of the given kind with.
pub open spec fn spec_file_io_status(kind: IoKind) -> u16 {
    match kind {
        IoKind::NotFound => 404,
        IoKind::PermissionDenied => 403,
        IoKind::AlreadyExists => 409,
        IoKind::DirectoryNotEmpty => 409,
        IoKind::Other => 400,
    }
}

/// The status the server handlers answer an I/O failure of the given kind with.
pub open spec fn spec_server_io_status(kind: IoKind) -> u16 {
    match kind {
        IoKind::NotFound => 404,
        IoKind::PermissionDenied => 403,
        _ => 400,
    }
}

/// The status for an error other than an I/O failure.
pub open spec fn spec_plain_status(e: &ApiError) -> u16 {
    match e {
        ApiError::Unauthorized => 401,
        ApiError::Forbidden => 403,
        ApiError::NotFound => 404,
        ApiError::BadRequest(_) | ApiError::Message { .. } | ApiError::Json(_) => 400,
        ApiError::Config(_) | ApiError::Database(_) => 500,
        ApiError::Io(_) => 400,
    }
}

/// The HTTP status the file handlers answer `err` with, given the kind of
/// its I/O failure when it is one.
pub fn file_status_for(err: &ApiError, kind: IoKind) -> (status: u16)
    ensures
        status == match err {
            ApiError::Io(_) => spec_file_io_status(kind),
            _ => spec_plain_status(err),
        },
{
    match err {
        ApiError::Unauthorized => 401,
        ApiError::Forbidden => 403,
        ApiError::NotFound => 404,
        ApiError::BadRequest(_) | ApiError::Message { .. } | ApiError::Json(_) => 400,
        ApiError::Io(_) => match kind {
            IoKind::NotFound => 404,
            IoKind::PermissionDenied => 403,
            IoKind::AlreadyExists => 409,
            IoKind::DirectoryNotEmpty => 409,
            IoKind::Other => 400,
        },
        ApiError::Config(_) | ApiError::Database(_) => 500,
    }
}

/// The HTTP status the server handlers answer `err` with, given the kind of
/// its I/O failure when it is one.
pub fn server_status_for(err: &ApiError, kind: IoKind) -> (status: u16)
    ensures
        status == match err {
            ApiError::Io(_) => spec_server_io_status(kind),
            _ => spec_plain_status(err),
        },
{
    match err {
        ApiError::Unauthorized => 401,
        ApiError::Forbidden => 403,
        ApiError::NotFound => 404,
        ApiError::BadRequest(_) | ApiError::Message { .. } | ApiError::Json(_) => 400,
        ApiError::Io(_) => match kind {
            IoKind::NotFound => 404,
            IoKind::PermissionDenied => 403,
            _ => 400,
        },
        ApiError::Config(_) | ApiError::Database(_) => 500,
    }
}

/// The HTTP status the file handlers answer `err` with.
pub fn file_error_status(err: &ApiError) -> (status: u16)
    ensures
        match err {
            ApiError::Io(_) => exists|k: IoKind| status == spec_file_io_status(k),
            _ => status == spec_plain_status(err),
        },
{
    let kind = match err {
        ApiError::Io(e) => io_error_kind(e),
        _ => IoKind::Other,
    };
    file_status_for(err, kind)
}

/// The HTTP status the server handlers answer `err` with.
pub fn server_error_status(err: &ApiError) -> (status: u16)
    ensures
        match err {
            ApiError::Io(_) => exists|k: IoKind| status == spec_server_io_status(k),
            _ => status == spec_plain_status(err),
        },
{
    let kind = match err {
        ApiError::Io(e) => io_error_kind(e),
        _ => IoKind::Other,
    };
    server_status_for(err, kind)
}

} // verus!

verus! {

/// Whether `e` is a `BadRequest` with text `m`.
pub open spec fn bad_request_with(e: ApiError, m: Seq<char>) -> bool {
    match e {
        ApiError::BadRequest(x) => x@ == m,
        _ => false,
    }
}

} // verus!

verus! {

impl From<std::io::Error> for ApiError {
    fn from(err: std::io::Error) -> (e: ApiError) {
        ApiError::Io(err)
    }
}

impl vstd::std_specs::convert::FromSpecImpl<std::io::Error> for ApiError {
    open spec fn obeys_from_spec() -> bool {
        true
    }

    open spec fn from_spec(v: std::io::Error) -> ApiError {
        ApiError::Io(v)
    }
}

impl From<serde_json::Error> for ApiError {
    fn from(err: serde_json::Error) -> (e: ApiError) {
        ApiError::Json(err)
    }
}

impl vstd::std_specs::convert::FromSpecImpl<serde_json::Error> for ApiError {
    open spec fn obeys_from_spec() -> bool {
        true
    }

    open spec fn from_spec(v: serde_json::Error) -> ApiError {
        ApiError::Json(v)
    }
}

/// The error for a path that could not be resolved on disk, by the kind of
/// I/O failure: a missing path is not found, a denied one forbidden, and
/// any other failure is passed on.
pub fn resolve_error_for(kind: IoKind, err: std::io::Error) -> (e: ApiError)
    ensures
        match kind {
            IoKind::NotFound => e is NotFound,
            IoKind::PermissionDenied => e is Forbidden,
            _ => e == ApiError::Io(err),
        },
{
    match kind {
        IoKind::NotFound => ApiError::NotFound,
        IoKind::PermissionDenied => ApiError::Forbidden,
        _ => ApiError::Io(err),
    }
}

/// The error for a path that could not be resolved on disk.
pub fn resolve_error(err: std::io::Error) -> (e: ApiError)
    ensures
        e is NotFound || e is Forbidden || e == ApiError::Io(err),
{
    let kind = io_error_kind(&err);
    resolve_error_for(kind, err)
}

} // verus!
