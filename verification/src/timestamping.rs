//! Timestamping (`-N`): whether a local copy is kept, replaced or fetched,
//! from its size and modification time and the server's `Last-Modified`.
use vstd::prelude::*;

verus! {

/// Result of timestamp comparison.
#[derive(Debug, Clone, Copy, PartialEq, Eq, Structural)]
pub enum TimestampAction {
    /// Download the file (local is older or doesn't exist)
    Download,
    /// Skip download (local is newer or same)
    Skip,
    /// Delete existing file and re-download
    DeleteAndDownload,
}

/// What is known of the local copy of a file.
#[derive(Debug, Clone, Copy)]
pub struct LocalFile {
    /// Size in bytes
    pub size: u64,
    /// Modification time: whole seconds since the Unix epoch
    pub modified_secs: i64,
    /// Modification time: nanoseconds past the whole second
    pub modified_nanos: u32,
}

/// The seconds since the Unix epoch that an HTTP date (as in
/// `Last-Modified`) stands for, as `httpdate` parses it; `None` when it
/// does not parse.
pub uninterp spec fn http_date_secs(s: Seq<char>) -> Option<u64>;

/// Parse an HTTP date to seconds since the Unix epoch.
///
/// Trusted: calls `httpdate::parse_http_date` and measures the time from
/// the epoch in whole seconds (the parser only yields whole seconds from
/// 1970 on); the contract names the result, a function of the text alone.
#[verifier::external_body]
pub(crate) fn parse_http_date_secs(s: &str) -> (r: Option<u64>)
    ensures
        r == http_date_secs(s@),
{
    let t = httpdate::parse_http_date(s).ok()?;
    t.duration_since(std::time::UNIX_EPOCH).ok().map(|d| d.as_secs())
}

/// The timestamping rule: no local copy, download; no or unparsable
/// `Last-Modified`, replace the copy; a copy older than the server's,
/// replace it; a newer one, keep it; the same time, keep it unless the
/// server gives a different length.
pub open spec fn timestamp_decision(
    local: Option<LocalFile>,
    last_modified: Option<Seq<char>>,
    content_length: Option<u64>,
) -> TimestampAction {
    match local {
        None => TimestampAction::Download,
        Some(f) => match last_modified {
            None => TimestampAction::DeleteAndDownload,
            Some(lm) => match http_date_secs(lm) {
                None => TimestampAction::DeleteAndDownload,
                Some(remote) => if f.modified_secs < remote {
                    TimestampAction::DeleteAndDownload
                } else if f.modified_secs > remote || f.modified_nanos > 0 {
                    TimestampAction::Skip
                } else {
                    match content_length {
                        Some(n) => if n == f.size {
                            TimestampAction::Skip
                        } else {
                            TimestampAction::DeleteAndDownload
                        },
                        None => TimestampAction::Skip,
                    }
                },
            },
        },
    }
}

/// Decide what timestamping does with a file (see [`timestamp_decision`]):
/// `local` describes the local copy, if there is one.
pub fn timestamp_action(local: Option<LocalFile>, last_modified: Option<&str>, content_length: Option<u64>) -> (r: TimestampAction)
    ensures
        r == timestamp_decision(local, crate::recursive::opt_chars(last_modified), content_length),
{
    let f = match local {
        None => return TimestampAction::Download,
        Some(f) => f,
    };
    let lm = match last_modified {
        None => return TimestampAction::DeleteAndDownload,
        Some(lm) => lm,
    };
    let remote = match parse_http_date_secs(lm) {
        None => return TimestampAction::DeleteAndDownload,
        Some(r) => r,
    };
    if (f.modified_secs as i128) < (remote as i128) {
        TimestampAction::DeleteAndDownload
    } else if (f.modified_secs as i128) > (remote as i128) || f.modified_nanos > 0 {
        TimestampAction::Skip
    } else {
        match content_length {
            Some(n) => if n == f.size {
                TimestampAction::Skip
            } else {
                TimestampAction::DeleteAndDownload
            },
            None => TimestampAction::Skip,
        }
    }
}

/// The modification time that a server timestamp sets on a downloaded
/// file, in seconds since the epoch: none without a parsable
/// `Last-Modified`.
pub fn server_mtime(last_modified: Option<&str>) -> (r: Option<u64>)
    ensures
        r == match crate::recursive::opt_chars(last_modified) {
            Some(lm) => http_date_secs(lm),
            None => None,
        },
{
    match last_modified {
        Some(lm) => parse_http_date_secs(lm),
        None => None,
    }
}

/// A file is fetched plainly only when there is no local copy, and a
/// local copy is never fetched plainly (it is kept or replaced).
pub proof fn lemma_download_iff_no_copy(local: Option<LocalFile>, last_modified: Option<Seq<char>>, content_length: Option<u64>)
    ensures
        (timestamp_decision(local, last_modified, content_length) == TimestampAction::Download) <==> local is None,
        timestamp_decision(local, last_modified, content_length) == TimestampAction::Skip ==> local is Some,
{
}

/// A local copy whose time and size match the server's is kept.
pub proof fn lemma_same_copy_kept(f: LocalFile, lm: Seq<char>)
    requires
        http_date_secs(lm) matches Some(t) && f.modified_secs == t && f.modified_nanos == 0,
    ensures
        timestamp_decision(Some(f), Some(lm), Some(f.size)) == TimestampAction::Skip,
        timestamp_decision(Some(f), Some(lm), None) == TimestampAction::Skip,
{
}

/// The HTTP date (IMF-fixdate, as in `If-Modified-Since`) that `httpdate`
/// writes for a time given in whole seconds since the Unix epoch.
pub uninterp spec fn http_date_text(secs: u64) -> Seq<char>;

/// The first second that an HTTP date cannot write (year 10000).
pub open spec fn http_date_limit() -> u64 {
    253402300800
}

/// Write a time as an HTTP date.
///
/// Trusted: calls `httpdate::fmt_http_date` on the epoch plus `secs`
/// seconds (which panics from year 10000 on, hence the bound); the contract
/// names the result, a function of the seconds alone.
#[verifier::external_body]
fn format_http_date(secs: u64) -> (r: String)
    requires
        secs < http_date_limit(),
    ensures
        r@ == http_date_text(secs),
{
    httpdate::fmt_http_date(std::time::UNIX_EPOCH + std::time::Duration::from_secs(secs))
}

/// The `If-Modified-Since` value for a local copy last modified
/// `modified_secs` whole seconds after the epoch (`None` when before it):
/// its HTTP date, or no header when the time cannot be written as one.
pub fn if_modified_since_value(modified_secs: Option<u64>) -> (r: Option<String>)
    ensures
        crate::urls::opt_str(r) == match modified_secs {
            Some(t) => if t < http_date_limit() {
                Some(http_date_text(t))
            } else {
                None
            },
            None => None,
        },
{
    match modified_secs {
        Some(t) => if t < 253402300800 {
            Some(format_http_date(t))
        } else {
            None
        },
        None => None,
    }
}

} // verus!
