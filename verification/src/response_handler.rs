//! Classification of HTTP status codes and the decisions taken on them.
use vstd::prelude::*;

verus! {

/// Response status category for decision making.
#[derive(Debug, Clone, Copy, PartialEq, Eq, Structural)]
pub enum ResponseStatus {
    /// Successful response (2xx)
    Success,
    /// No content - successful but empty body (204)
    NoContent,
    /// Not modified - file is up to date (304)
    NotModified,
    /// Range not satisfiable - file already complete (416)
    RangeNotSatisfiable,
    /// Client error (4xx)
    ClientError,
    /// Server error (5xx)
    ServerError,
    /// Authentication challenge (401/407)
    AuthChallenge,
    /// Other/unexpected status
    Other,
}

/// The category of a status code.
pub open spec fn status_category(code: u16) -> ResponseStatus {
    if code == 204 {
        ResponseStatus::NoContent
    } else if 200 <= code <= 299 {
        ResponseStatus::Success
    } else if code == 304 {
        ResponseStatus::NotModified
    } else if code == 416 {
        ResponseStatus::RangeNotSatisfiable
    } else if code == 401 || code == 407 {
        ResponseStatus::AuthChallenge
    } else if 400 <= code <= 499 {
        ResponseStatus::ClientError
    } else if 500 <= code <= 599 {
        ResponseStatus::ServerError
    } else {
        ResponseStatus::Other
    }
}

impl ResponseStatus {
    /// Classify an HTTP status code.
    pub fn from_status_code(status_code: u16) -> (r: Self)
        ensures
            r == status_category(status_code),
    {
        if status_code == 204 {
            ResponseStatus::NoContent
        } else if 200 <= status_code && status_code <= 299 {
            ResponseStatus::Success
        } else if status_code == 304 {
            ResponseStatus::NotModified
        } else if status_code == 416 {
            ResponseStatus::RangeNotSatisfiable
        } else if status_code == 401 || status_code == 407 {
            ResponseStatus::AuthChallenge
        } else if 400 <= status_code && status_code <= 499 {
            ResponseStatus::ClientError
        } else if 500 <= status_code && status_code <= 599 {
            ResponseStatus::ServerError
        } else {
            ResponseStatus::Other
        }
    }

    /// Whether the status means success, counting the special success codes.
    pub open spec fn spec_is_success_or_special(self) -> bool {
        self is Success || self is NoContent || self is NotModified || self is RangeNotSatisfiable
    }

    /// Check if status indicates success (including special success codes).
    pub fn is_success_or_special(&self) -> (r: bool)
        ensures
            r == self.spec_is_success_or_special(),
    {
        match self {
            ResponseStatus::Success | ResponseStatus::NoContent | ResponseStatus::NotModified
            | ResponseStatus::RangeNotSatisfiable => true,
            _ => false,
        }
    }
}


/// A file is created unless the status is 204 or nothing was downloaded
/// without a resume offset.
pub open spec fn spec_should_create_file(status_code: u16, downloaded_bytes: u64, resumed_from: u64) -> bool {
    status_code != 204 && !(downloaded_bytes == 0 && resumed_from == 0)
}

/// Check if we should create a file for this response.
pub fn should_create_file(status_code: u16, downloaded_bytes: u64, resumed_from: u64) -> (r: bool)
    ensures
        r == spec_should_create_file(status_code, downloaded_bytes, resumed_from),
{
    if status_code == 204 {
        return false;
    }
    if downloaded_bytes == 0 && resumed_from == 0 {
        return false;
    }
    true
}

/// The decision on whether to read a response body: `Ok(true)` to proceed,
/// `Ok(false)` to skip (304/416), `Err(code)` to fail.
pub open spec fn spec_proceed(status_code: u16, content_on_error: bool) -> Result<bool, u16> {
    match status_category(status_code) {
        ResponseStatus::Success | ResponseStatus::NoContent => Ok(true),
        ResponseStatus::NotModified | ResponseStatus::RangeNotSatisfiable => Ok(false),
        ResponseStatus::ClientError | ResponseStatus::ServerError => if content_on_error {
            Ok(true)
        } else {
            Err(status_code)
        },
        _ => Err(status_code),
    }
}

/// Determine if we should proceed with download or return error.
///
/// `content_on_error` is the configuration's setting of that name: whether
/// error pages (4xx/5xx) are saved.
pub fn should_proceed_download(status_code: u16, content_on_error: bool) -> (r: Result<bool, u16>)
    ensures
        r == spec_proceed(status_code, content_on_error),
{
    let status = ResponseStatus::from_status_code(status_code);
    match status {
        ResponseStatus::Success => Ok(true),
        ResponseStatus::NoContent => Ok(true),
        ResponseStatus::NotModified | ResponseStatus::RangeNotSatisfiable => Ok(false),
        ResponseStatus::AuthChallenge => Err(status_code),
        ResponseStatus::ClientError | ResponseStatus::ServerError => {
            if content_on_error {
                Ok(true)
            } else {
                Err(status_code)
            }
        },
        ResponseStatus::Other => Err(status_code),
    }
}

/// Check if status code indicates a special case that needs handling.
pub fn check_special_status(status_code: u16) -> (r: Option<&'static str>)
    ensures
        status_code == 204 ==> r is Some && r->0@ == "no_content"@,
        status_code == 304 ==> r is Some && r->0@ == "not_modified"@,
        status_code == 416 ==> r is Some && r->0@ == "range_not_satisfiable"@,
        status_code != 204 && status_code != 304 && status_code != 416 ==> r is None,
{
    match status_code {
        204 => Some("no_content"),
        304 => Some("not_modified"),
        416 => Some("range_not_satisfiable"),
        _ => None,
    }
}

/// The reason phrase printed for a status code.
pub open spec fn spec_status_text(code: u16) -> Seq<char> {
    if code == 200 { "OK"@ }
    else if code == 201 { "Created"@ }
    else if code == 204 { "No Content"@ }
    else if code == 206 { "Partial Content"@ }
    else if code == 301 { "Moved Permanently"@ }
    else if code == 302 { "Found"@ }
    else if code == 304 { "Not Modified"@ }
    else if code == 400 { "Bad Request"@ }
    else if code == 401 { "Unauthorized"@ }
    else if code == 403 { "Forbidden"@ }
    else if code == 404 { "Not Found"@ }
    else if code == 500 { "Internal Server Error"@ }
    else if code == 502 { "Bad Gateway"@ }
    else if code == 503 { "Service Unavailable"@ }
    else { "Unknown"@ }
}

/// Get status text for HTTP status code.
pub fn status_text(code: u16) -> (r: &'static str)
    ensures
        r@ == spec_status_text(code),
{
    match code {
        200 => "OK",
        201 => "Created",
        204 => "No Content",
        206 => "Partial Content",
        301 => "Moved Permanently",
        302 => "Found",
        304 => "Not Modified",
        400 => "Bad Request",
        401 => "Unauthorized",
        403 => "Forbidden",
        404 => "Not Found",
        500 => "Internal Server Error",
        502 => "Bad Gateway",
        503 => "Service Unavailable",
        _ => "Unknown",
    }
}

/// A response body is read only for a success, or for an error page that
/// is wanted; a download never proceeds on any other status.
pub proof fn lemma_proceed_only_on_success_or_wanted_error(status_code: u16, content_on_error: bool)
    ensures
        spec_proceed(status_code, content_on_error) == Ok::<bool, u16>(true) ==> (200 <= status_code <= 299
            || (content_on_error && 400 <= status_code <= 599 && status_code != 401 && status_code != 407
            && status_code != 416)),
        spec_proceed(status_code, content_on_error) is Err ==> spec_proceed(status_code, content_on_error) == Err::<bool, u16>(status_code),
{
}

} // verus!
