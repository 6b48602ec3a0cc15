//! The decisions of a single download: whether to ask for metadata first,
//! what a status code means for the transfer, where to resume, how to open
//! the output file, which credentials to send, and what to keep at the end.
use vstd::prelude::*;
use crate::auth_handler::spec_is_auth_challenge;
use crate::config::{AuthConfig, AuthView, HttpMethod};
use crate::netrc::{auth_opt_view, credentials_for, Netrc};
use crate::response_handler::{spec_should_create_file, status_category, should_create_file, ResponseStatus};
use crate::text::{chars_of, decimal, decimal_chars, eq_chars, eq_lit, parse_u64, parse_u64_spec, push_str, string_of};
use crate::response_handler::{spec_status_text, status_text};
use crate::urls::{parse_url, url_parse};

verus! {

/// Whether the metadata (HEAD) request is skipped: in timestamping mode a
/// conditional GET is used instead, and a download that will not be split
/// needs no range support check.
pub open spec fn spec_skip_head(timestamping: bool, parallel_threshold: u64, parallel_chunks: usize) -> bool {
    timestamping || parallel_threshold == 0 || parallel_chunks <= 1
}

/// Whether the metadata request is skipped (see [`spec_skip_head`]).
pub fn skip_head(timestamping: bool, parallel_threshold: u64, parallel_chunks: usize) -> (r: bool)
    ensures
        r == spec_skip_head(timestamping, parallel_threshold, parallel_chunks),
{
    timestamping || parallel_threshold == 0 || parallel_chunks <= 1
}

/// What to do after the metadata response.
#[derive(Debug, Clone, Copy, PartialEq, Eq, Structural)]
pub enum HeadStep {
    /// Go on with the download
    Continue,
    /// Finish with an empty result and no file
    Empty,
    /// Finish with the existing local file as it is
    KeepExisting,
    /// Fail with this status code
    Fail(u16),
}

/// What the metadata response's status means: 204 ends with nothing; 304
/// keeps the local file if there is one (else nothing); 416 keeps the
/// local file if there is one, else fails; client and server errors fail
/// unless error pages are wanted; an authentication challenge that is
/// still there fails; anything else goes on.
pub open spec fn head_step(status: u16, content_on_error: bool, file_exists: bool) -> HeadStep {
    match status_category(status) {
        ResponseStatus::NoContent => HeadStep::Empty,
        ResponseStatus::NotModified => if file_exists {
            HeadStep::KeepExisting
        } else {
            HeadStep::Empty
        },
        ResponseStatus::RangeNotSatisfiable => if file_exists {
            HeadStep::KeepExisting
        } else {
            HeadStep::Fail(416)
        },
        ResponseStatus::ClientError | ResponseStatus::ServerError => if content_on_error {
            HeadStep::Continue
        } else {
            HeadStep::Fail(status)
        },
        ResponseStatus::AuthChallenge => HeadStep::Fail(status),
        _ => HeadStep::Continue,
    }
}

/// What to do after the metadata response (see [`head_step`]).
pub fn after_head(status: u16, content_on_error: bool, file_exists: bool) -> (r: HeadStep)
    ensures
        r == head_step(status, content_on_error, file_exists),
{
    match ResponseStatus::from_status_code(status) {
        ResponseStatus::NoContent => HeadStep::Empty,
        ResponseStatus::NotModified => if file_exists {
            HeadStep::KeepExisting
        } else {
            HeadStep::Empty
        },
        ResponseStatus::RangeNotSatisfiable => if file_exists {
            HeadStep::KeepExisting
        } else {
            HeadStep::Fail(416)
        },
        ResponseStatus::ClientError | ResponseStatus::ServerError => if content_on_error {
            HeadStep::Continue
        } else {
            HeadStep::Fail(status)
        },
        ResponseStatus::AuthChallenge => HeadStep::Fail(status),
        _ => HeadStep::Continue,
    }
}

/// Where a download to a file starts: at 0 in timestamping mode (a
/// conditional GET replaces resuming), at the configured start position if
/// there is one, else after the bytes of an existing file.
pub open spec fn spec_resume_offset(timestamping: bool, start_pos: Option<u64>, existing_size: Option<u64>) -> u64 {
    if timestamping {
        0
    } else {
        match start_pos {
            Some(p) => p,
            None => match existing_size {
                Some(s) => s,
                None => 0,
            },
        }
    }
}

/// Where a download to a file starts (see [`spec_resume_offset`]);
/// `existing_size` is the size of the file already there, if any.
pub fn resume_offset(timestamping: bool, start_pos: Option<u64>, existing_size: Option<u64>) -> (r: u64)
    ensures
        r == spec_resume_offset(timestamping, start_pos, existing_size),
{
    if timestamping {
        0
    } else {
        match start_pos {
            Some(p) => p,
            None => match existing_size {
                Some(s) => s,
                None => 0,
            },
        }
    }
}

/// How the output file is opened.
#[derive(Debug, Clone, Copy, PartialEq, Eq, Structural)]
pub enum OpenMode {
    /// Append to the existing file (resuming)
    Append,
    /// Write into the existing file without truncating it (conditional GET)
    KeepContents,
    /// Create the file anew (truncating any existing one)
    Create,
}

/// How the output file is opened: appended to when resuming from the
/// file's own size, opened without truncation for a conditional GET on an
/// existing file, created anew otherwise (a configured start position
/// always writes a new file).
pub open spec fn spec_open_mode(resume_from: u64, start_pos_given: bool, timestamping: bool, file_exists: bool) -> OpenMode {
    if resume_from > 0 && !start_pos_given {
        OpenMode::Append
    } else if timestamping && file_exists {
        OpenMode::KeepContents
    } else {
        OpenMode::Create
    }
}

/// How the output file is opened (see [`spec_open_mode`]).
pub fn open_mode(resume_from: u64, start_pos_given: bool, timestamping: bool, file_exists: bool) -> (r: OpenMode)
    ensures
        r == spec_open_mode(resume_from, start_pos_given, timestamping, file_exists),
{
    if resume_from > 0 && !start_pos_given {
        OpenMode::Append
    } else if timestamping && file_exists {
        OpenMode::KeepContents
    } else {
        OpenMode::Create
    }
}

/// The size to fetch in parallel ranges, if the transfer is split: the
/// server takes ranges, the download starts at 0, and the known length is
/// above the threshold.
pub open spec fn spec_parallel_size(supports_range: bool, resume_from: u64, content_length: Option<u64>, threshold: u64) -> Option<u64> {
    if supports_range && resume_from == 0 {
        match content_length {
            Some(n) => if n > threshold {
                Some(n)
            } else {
                None
            },
            None => None,
        }
    } else {
        None
    }
}

/// The size to fetch in parallel ranges, if any (see
/// [`spec_parallel_size`]).
pub fn parallel_size(supports_range: bool, resume_from: u64, content_length: Option<u64>, threshold: u64) -> (r: Option<u64>)
    ensures
        r == spec_parallel_size(supports_range, resume_from, content_length, threshold),
{
    if supports_range && resume_from == 0 {
        match content_length {
            Some(n) => if n > threshold {
                Some(n)
            } else {
                None
            },
            None => None,
        }
    } else {
        None
    }
}

/// The `Range` header that resumes at an offset: `bytes=N-`, none at 0.
pub open spec fn spec_resume_range(resume_from: u64) -> Option<Seq<char>> {
    if resume_from > 0 {
        Some("bytes="@ + decimal(resume_from as nat) + "-"@)
    } else {
        None
    }
}

/// The `Range` header that resumes at an offset (see
/// [`spec_resume_range`]).
pub fn resume_range(resume_from: u64) -> (r: Option<String>)
    ensures
        crate::urls::opt_str(r) == spec_resume_range(resume_from),
{
    if resume_from > 0 {
        let mut v = chars_of("bytes=");
        let d = decimal_chars(resume_from);
        crate::text::append_chars(&mut v, &d);
        push_str(&mut v, "-");
        Some(string_of(v.as_slice()))
    } else {
        None
    }
}

/// The `Range` header of one chunk: `bytes=START-END`.
pub open spec fn spec_chunk_range(start: u64, end: u64) -> Seq<char> {
    "bytes="@ + decimal(start as nat) + "-"@ + decimal(end as nat)
}

/// The `Range` header of one chunk (see [`spec_chunk_range`]).
pub fn chunk_range(start: u64, end: u64) -> (r: String)
    ensures
        r@ == spec_chunk_range(start, end),
{
    let mut v = chars_of("bytes=");
    crate::text::append_chars(&mut v, &decimal_chars(start));
    push_str(&mut v, "-");
    crate::text::append_chars(&mut v, &decimal_chars(end));
    string_of(v.as_slice())
}

/// Whether a chunk response is accepted: a 2xx status (206 included).
pub fn chunk_status_ok(status: u16) -> (r: bool)
    ensures
        r == (200 <= status <= 299 || status == 206),
{
    (200 <= status && status <= 299) || status == 206
}

/// What to do with the response to a download request.
#[derive(Debug, Clone, Copy, PartialEq, Eq, Structural)]
pub enum BodyStep {
    /// Write the body
    Write,
    /// Write nothing; the transfer counts this many bytes
    Done(u64),
    /// Fail with this status code
    Fail(u16),
}

/// What the status of a GET response means for the body: 204 and 304 give
/// no bytes (304 on a fresh request keeps the file as it is; on a request
/// that was retried with credentials, the bytes already there count); 416
/// means the bytes already there are complete; 2xx is written; client and
/// server errors are written only when error pages are wanted; anything
/// else fails.
pub open spec fn body_step(status: u16, content_on_error: bool, resume_from: u64, retried: bool) -> BodyStep {
    match status_category(status) {
        ResponseStatus::NoContent => BodyStep::Done(0),
        ResponseStatus::NotModified => if retried {
            BodyStep::Done(resume_from)
        } else {
            BodyStep::Done(0)
        },
        ResponseStatus::RangeNotSatisfiable => BodyStep::Done(resume_from),
        ResponseStatus::Success => BodyStep::Write,
        ResponseStatus::ClientError | ResponseStatus::ServerError => if content_on_error {
            BodyStep::Write
        } else {
            BodyStep::Fail(status)
        },
        _ => BodyStep::Fail(status),
    }
}

/// What to do with a GET response's body (see [`body_step`]); `retried`
/// tells whether the request was repeated with credentials.
pub fn after_get(status: u16, content_on_error: bool, resume_from: u64, retried: bool) -> (r: BodyStep)
    ensures
        r == body_step(status, content_on_error, resume_from, retried),
{
    match ResponseStatus::from_status_code(status) {
        ResponseStatus::NoContent => BodyStep::Done(0),
        ResponseStatus::NotModified => if retried {
            BodyStep::Done(resume_from)
        } else {
            BodyStep::Done(0)
        },
        ResponseStatus::RangeNotSatisfiable => BodyStep::Done(resume_from),
        ResponseStatus::Success => BodyStep::Write,
        ResponseStatus::ClientError | ResponseStatus::ServerError => if content_on_error {
            BodyStep::Write
        } else {
            BodyStep::Fail(status)
        },
        _ => BodyStep::Fail(status),
    }
}

/// Whether the downloaded file is kept: always after a conditional GET
/// (the file was handled there), otherwise as [`spec_should_create_file`]
/// decides.
pub fn keep_file(skipped_head: bool, status: u16, total_bytes: u64, resume_from: u64) -> (r: bool)
    ensures
        r == (skipped_head || spec_should_create_file(status, total_bytes, resume_from)),
{
    skipped_head || should_create_file(status, total_bytes, resume_from)
}

/// The size reported for the downloaded file: after a conditional GET that
/// brought nothing, the size of the file already there; otherwise the
/// bytes transferred.
pub open spec fn spec_final_size(skipped_head: bool, total_bytes: u64, existing_size: Option<u64>) -> u64 {
    if skipped_head && total_bytes == 0 && existing_size is Some {
        existing_size->0
    } else {
        total_bytes
    }
}

/// The size reported for the downloaded file (see [`spec_final_size`]).
pub fn final_size(skipped_head: bool, total_bytes: u64, existing_size: Option<u64>) -> (r: u64)
    ensures
        r == spec_final_size(skipped_head, total_bytes, existing_size),
{
    if skipped_head && total_bytes == 0 {
        match existing_size {
            Some(s) => s,
            None => total_bytes,
        }
    } else {
        total_bytes
    }
}

/// The `Content-Type` sent with a request body: the configured type; else
/// form encoding for POST, PUT and PATCH; none without a body.
pub open spec fn spec_body_content_type(method: HttpMethod, has_body: bool, content_type: Option<Seq<char>>) -> Option<Seq<char>> {
    if !has_body {
        None
    } else {
        match content_type {
            Some(ct) => Some(ct),
            None => match method {
                HttpMethod::Post | HttpMethod::Put | HttpMethod::Patch => Some("application/x-www-form-urlencoded"@),
                _ => None,
            },
        }
    }
}

/// The `Content-Type` sent with a request body (see
/// [`spec_body_content_type`]).
pub fn body_content_type(method: HttpMethod, has_body: bool, content_type: Option<&str>) -> (r: Option<String>)
    ensures
        crate::urls::opt_str(r) == spec_body_content_type(method, has_body, crate::recursive::opt_chars(content_type)),
{
    if !has_body {
        return None;
    }
    match content_type {
        Some(ct) => Some(string_of(chars_of(ct).as_slice())),
        None => match method {
            HttpMethod::Post | HttpMethod::Put | HttpMethod::Patch => Some(string_of(chars_of("application/x-www-form-urlencoded").as_slice())),
            _ => None,
        },
    }
}

/// The credentials for a URL: the configured ones; else, when a `.netrc`
/// was read and the URL has a host, the `.netrc` entry for that host (or
/// its default entry).
pub open spec fn spec_credentials(
    configured: Option<AuthView>,
    netrc: Option<crate::netrc::NetrcView>,
    url: Seq<char>,
) -> Option<AuthView> {
    match configured {
        Some(a) => Some(a),
        None => match netrc {
            Some(n) => match url_parse(url) {
                Ok(p) => match p.host {
                    Some(h) => credentials_for(n, h),
                    None => None,
                },
                Err(_) => None,
            },
            None => None,
        },
    }
}

/// The view of an optional `.netrc`.
pub open spec fn netrc_opt_view(n: Option<&Netrc>) -> Option<crate::netrc::NetrcView> {
    match n {
        Some(x) => Some(x@),
        None => None,
    }
}

/// Get authentication credentials for a URL: configured auth first, then
/// the `.netrc` file, if one was read (see [`spec_credentials`]).
pub fn get_credentials(url: &str, configured: Option<&AuthConfig>, netrc: Option<&Netrc>) -> (r: Option<AuthConfig>)
    ensures
        auth_opt_view(r) == spec_credentials(
            match configured {
                Some(a) => Some(a@),
                None => None,
            },
            netrc_opt_view(netrc),
            url@,
        ),
{
    if let Some(auth) = configured {
        return Some(AuthConfig {
            username: string_of(chars_of(auth.username.as_str()).as_slice()),
            password: string_of(chars_of(auth.password.as_str()).as_slice()),
            auth_type: auth.auth_type,
        });
    }
    let n = match netrc {
        Some(n) => n,
        None => return None,
    };
    match parse_url(url) {
        Ok(p) => match &p.host {
            Some(h) => n.get(h.as_str()),
            None => None,
        },
        Err(_) => None,
    }
}

/// The view of a response's headers: each (lowercase name, value as text
/// when it is visible ASCII) in the order received.
pub open spec fn headers_view(hs: Seq<(String, Option<String>)>) -> Seq<(Seq<char>, Option<Seq<char>>)> {
    hs.map_values(|h: (String, Option<String>)| (h.0@, crate::urls::opt_str(h.1)))
}

/// The text of the first header of a name, when it has one.
pub open spec fn header_text(hs: Seq<(Seq<char>, Option<Seq<char>>)>, name: Seq<char>) -> Option<Seq<char>>
    decreases hs.len(),
{
    if hs.len() == 0 {
        None
    } else if hs[0].0 == name {
        hs[0].1
    } else {
        header_text(hs.drop_first(), name)
    }
}

/// The text of the first header of a name (see [`header_text`]).
pub fn header_value(headers: &Vec<(String, Option<String>)>, name: &str) -> (r: Option<String>)
    ensures
        crate::urls::opt_str(r) == header_text(headers_view(headers@), name@),
{
    let ghost hv = headers_view(headers@);
    let n = chars_of(name);
    let mut i: usize = 0;
    assert(hv.skip(0) =~= hv);
    while i < headers.len()
        invariant
            i <= headers.len(),
            hv == headers_view(headers@),
            n@ == name@,
            header_text(hv, name@) == header_text(hv.skip(i as int), name@),
        decreases headers.len() - i,
    {
        assert(hv.skip(i as int)[0] == hv[i as int]);
        assert(hv.skip(i as int).drop_first() =~= hv.skip(i + 1));
        let k = chars_of(headers[i].0.as_str());
        if eq_chars(k.as_slice(), n.as_slice()) {
            return match &headers[i].1 {
                Some(v) => Some(string_of(chars_of(v.as_str()).as_slice())),
                None => None,
            };
        }
        i += 1;
    }
    None
}

/// What a response's headers say of the resource.
#[derive(Debug)]
pub struct HeaderSummary {
    /// Whether the server accepts range requests
    pub supports_range: bool,
    /// Content length in bytes, if known
    pub content_length: Option<u64>,
    /// Last-Modified header
    pub last_modified: Option<String>,
    /// ETag header
    pub etag: Option<String>,
    /// Content-Type header
    pub content_type: Option<String>,
    /// Content-Disposition header
    pub content_disposition: Option<String>,
}

/// Read the resource's metadata from a response's headers: range support
/// unless `Accept-Ranges` is absent or `none`; the length when
/// `Content-Length` is a decimal number; the other headers' text.
pub fn summarize_headers(headers: &Vec<(String, Option<String>)>) -> (r: HeaderSummary)
    ensures
        r.supports_range == match header_text(headers_view(headers@), "accept-ranges"@) {
            Some(v) => v != "none"@,
            None => false,
        },
        r.content_length == match header_text(headers_view(headers@), "content-length"@) {
            Some(v) => parse_u64_spec(v),
            None => None,
        },
        crate::urls::opt_str(r.last_modified) == header_text(headers_view(headers@), "last-modified"@),
        crate::urls::opt_str(r.etag) == header_text(headers_view(headers@), "etag"@),
        crate::urls::opt_str(r.content_type) == header_text(headers_view(headers@), "content-type"@),
        crate::urls::opt_str(r.content_disposition) == header_text(headers_view(headers@), "content-disposition"@),
{
    let supports_range = match header_value(headers, "accept-ranges") {
        Some(v) => !eq_lit(chars_of(v.as_str()).as_slice(), "none"),
        None => false,
    };
    let content_length = match header_value(headers, "content-length") {
        Some(v) => parse_u64(chars_of(v.as_str()).as_slice()),
        None => None,
    };
    HeaderSummary {
        supports_range,
        content_length,
        last_modified: header_value(headers, "last-modified"),
        etag: header_value(headers, "etag"),
        content_type: header_value(headers, "content-type"),
        content_disposition: header_value(headers, "content-disposition"),
    }
}

/// The lines of a header dump for those headers whose value is text.
pub open spec fn header_lines(hs: Seq<(Seq<char>, Option<Seq<char>>)>) -> Seq<char>
    decreases hs.len(),
{
    if hs.len() == 0 {
        Seq::empty()
    } else {
        header_lines(hs.drop_last()) + match hs.last().1 {
            Some(v) => "  "@ + hs.last().0 + ": "@ + v + "\n"@,
            None => Seq::empty(),
        }
    }
}

/// The server response as printed with `-S`: the status line, then each
/// header whose value is text, indented.
pub open spec fn headers_text(status: u16, hs: Seq<(Seq<char>, Option<Seq<char>>)>) -> Seq<char> {
    "HTTP/1.1 "@ + decimal(status as nat) + " "@ + spec_status_text(status) + "\n"@ + header_lines(hs)
}

/// Format a response's status and headers for display (see
/// [`headers_text`]).
pub fn format_headers(status: u16, headers: &Vec<(String, Option<String>)>) -> (r: String)
    ensures
        r@ == headers_text(status, headers_view(headers@)),
{
    let ghost hv = headers_view(headers@);
    let mut v = chars_of("HTTP/1.1 ");
    crate::text::append_chars(&mut v, &decimal_chars(status as u64));
    push_str(&mut v, " ");
    push_str(&mut v, status_text(status));
    push_str(&mut v, "\n");
    let ghost head = v@;
    let mut i: usize = 0;
    assert(hv.take(0) =~= Seq::<(Seq<char>, Option<Seq<char>>)>::empty());
    assert(v@ =~= head + header_lines(hv.take(0)));
    while i < headers.len()
        invariant
            i <= headers.len(),
            hv == headers_view(headers@),
            v@ == head + header_lines(hv.take(i as int)),
        decreases headers.len() - i,
    {
        assert(hv.take(i + 1).drop_last() =~= hv.take(i as int));
        assert(hv.take(i + 1).last() == hv[i as int]);
        let ghost before = v@;
        match &headers[i].1 {
            Some(val) => {
                push_str(&mut v, "  ");
                push_str(&mut v, headers[i].0.as_str());
                push_str(&mut v, ": ");
                push_str(&mut v, val.as_str());
                push_str(&mut v, "\n");
                assert(v@ =~= before + ("  "@ + headers@[i as int].0@ + ": "@ + val@ + "\n"@));
            },
            None => {
                assert(v@ =~= before + Seq::<char>::empty());
            },
        }
        i += 1;
    }
    assert(hv.take(headers@.len() as int) =~= hv);
    string_of(v.as_slice())
}

/// In timestamping mode a download never resumes, and an existing file is
/// opened without truncation (a `304 Not Modified` keeps it intact).
pub proof fn lemma_timestamping_keeps_file(start_pos: Option<u64>, existing_size: Option<u64>)
    ensures
        spec_resume_offset(true, start_pos, existing_size) == 0,
        spec_open_mode(spec_resume_offset(true, start_pos, existing_size), start_pos is Some, true, true)
            == OpenMode::KeepContents,
{
}

/// Without timestamping or a start position, a download resumes after the
/// bytes of an existing non-empty file and appends to it.
pub proof fn lemma_resume_appends(existing_size: u64)
    requires
        existing_size > 0,
    ensures
        spec_resume_offset(false, None, Some(existing_size)) == existing_size,
        spec_open_mode(existing_size, false, false, true) == OpenMode::Append,
{
}

} // verus!
