//! Errors of download operations, their messages and their wget exit codes.
use vstd::prelude::*;
use crate::text::{append_chars, chars_of, decimal, decimal_chars, has_infix, contains_chars, lit_only, lit_plus, push_str, string_of};

verus! {

/// What the library reads of a failed HTTP exchange.
#[derive(Debug)]
pub struct HttpFailure {
    /// The failure's message
    pub message: String,
    /// Whether the request timed out
    pub is_timeout: bool,
    /// Whether the connection could not be established
    pub is_connect: bool,
}

/// Error types for download operations.
#[derive(Debug)]
pub enum Error {
    /// HTTP request failed
    HttpError(HttpFailure),
    /// IO error (its message)
    IoError(String),
    /// Invalid URL (the parser's message)
    InvalidUrl(String),
    /// Invalid header value (its message)
    InvalidHeader(String),
    /// Invalid header name (its message)
    InvalidHeaderName(String),
    /// Server does not support range requests
    RangeNotSupported,
    /// Content length not available
    ContentLengthUnavailable,
    /// Download failed after the given number of retries
    MaxRetriesExceeded(usize),
    /// Timeout exceeded
    Timeout,
    /// Invalid response status
    InvalidStatus(u16),
    /// Chunk download failed
    ChunkError(String),
    /// Failed to create temporary file
    TempFileError(String),
    /// Failed to write to output
    WriteError(String),
    /// Configuration error
    ConfigError(String),
    /// Unknown error
    Unknown(String),
}

/// Whether an HTTP failure's message names a certificate or TLS problem.
pub open spec fn tls_failure(f: HttpFailure) -> bool {
    has_infix(f.message@, "certificate"@) || has_infix(f.message@, "tls"@) || has_infix(f.message@, "ssl"@)
}

/// The wget exit code of an error.
pub open spec fn spec_exit_code(e: Error) -> i32 {
    match e {
        Error::IoError(_) | Error::TempFileError(_) | Error::WriteError(_) => 3,
        Error::Timeout => 4,
        Error::HttpError(f) => if f.is_timeout || f.is_connect {
            4
        } else if tls_failure(f) {
            5
        } else {
            1
        },
        Error::InvalidStatus(c) => if c == 401 || c == 407 {
            6
        } else if 400 <= c < 500 {
            8
        } else if c >= 500 {
            4
        } else {
            1
        },
        Error::RangeNotSupported | Error::ContentLengthUnavailable => 7,
        Error::InvalidUrl(_) | Error::InvalidHeader(_) | Error::InvalidHeaderName(_) | Error::ConfigError(_) => 2,
        _ => 1,
    }
}

/// The display text of an error.
pub open spec fn spec_message(e: Error) -> Seq<char> {
    match e {
        Error::HttpError(f) => "HTTP request failed: "@ + f.message@,
        Error::IoError(m) => "IO error: "@ + m@,
        Error::InvalidUrl(m) => "Invalid URL: "@ + m@,
        Error::InvalidHeader(m) => "Invalid header value: "@ + m@,
        Error::InvalidHeaderName(m) => "Invalid header name: "@ + m@,
        Error::RangeNotSupported => "Server does not support range requests"@,
        Error::ContentLengthUnavailable => "Content length not available"@,
        Error::MaxRetriesExceeded(n) => "Download failed after "@ + decimal(n as nat) + " retries"@,
        Error::Timeout => "Timeout exceeded"@,
        Error::InvalidStatus(c) => "Invalid response status: "@ + decimal(c as nat),
        Error::ChunkError(m) => "Chunk download failed: "@ + m@,
        Error::TempFileError(m) => "Failed to create temporary file: "@ + m@,
        Error::WriteError(m) => "Failed to write to output: "@ + m@,
        Error::ConfigError(m) => "Configuration error: "@ + m@,
        Error::Unknown(m) => "Unknown error: "@ + m@,
    }
}

/// The reason phrase wget prints for an error status.
pub open spec fn error_status_text(c: u16) -> Seq<char> {
    if c == 400 { "Bad Request"@ }
    else if c == 401 { "Unauthorized"@ }
    else if c == 403 { "Forbidden"@ }
    else if c == 404 { "Not Found"@ }
    else if c == 500 { "Internal Server Error"@ }
    else if c == 502 { "Bad Gateway"@ }
    else if c == 503 { "Service Unavailable"@ }
    else { "Error"@ }
}

/// The wget-style text of an error.
pub open spec fn spec_wget_style(e: Error) -> Seq<char> {
    match e {
        Error::HttpError(f) => if f.is_timeout {
            "Read error (Connection timed out)."@
        } else if f.is_connect {
            "Unable to establish connection: "@ + f.message@
        } else {
            "HTTP error: "@ + f.message@
        },
        Error::IoError(m) => "File write error: "@ + m@,
        Error::InvalidUrl(_) => "Invalid URL format."@,
        Error::RangeNotSupported => "Server does not support byte ranges."@,
        Error::ContentLengthUnavailable => "Content-Length header missing."@,
        Error::MaxRetriesExceeded(n) => "Giving up after "@ + decimal(n as nat) + " retries."@,
        Error::Timeout => "Read error (Connection timed out)."@,
        Error::InvalidStatus(c) => decimal(c as nat) + ": "@ + error_status_text(c) + " "@ + spec_message(e),
        Error::ChunkError(m) => "Download failed: "@ + m@,
        Error::TempFileError(m) => "Cannot create temp file: "@ + m@,
        Error::WriteError(m) => "File write error: "@ + m@,
        Error::ConfigError(m) => "Configuration error: "@ + m@,
        Error::Unknown(m) => "Error: "@ + m@,
        _ => spec_message(e),
    }
}

impl Error {
    /// Get wget-compatible exit code for this error.
    pub fn exit_code(&self) -> (r: i32)
        ensures
            r == spec_exit_code(*self),
    {
        match self {
            Error::IoError(_) | Error::TempFileError(_) | Error::WriteError(_) => 3,
            Error::Timeout => 4,
            Error::HttpError(f) => {
                if f.is_timeout || f.is_connect {
                    4
                } else {
                    let m = chars_of(f.message.as_str());
                    if contains_chars(m.as_slice(), chars_of("certificate").as_slice())
                        || contains_chars(m.as_slice(), chars_of("tls").as_slice())
                        || contains_chars(m.as_slice(), chars_of("ssl").as_slice()) {
                        5
                    } else {
                        1
                    }
                }
            },
            Error::InvalidStatus(c) => {
                let c = *c;
                if c == 401 || c == 407 {
                    6
                } else if 400 <= c && c < 500 {
                    8
                } else if c >= 500 {
                    4
                } else {
                    1
                }
            },
            Error::RangeNotSupported | Error::ContentLengthUnavailable => 7,
            Error::InvalidUrl(_) | Error::InvalidHeader(_) | Error::InvalidHeaderName(_)
            | Error::ConfigError(_) => 2,
            _ => 1,
        }
    }

    /// The display text of the error.
    pub fn message(&self) -> (r: String)
        ensures
            r@ == spec_message(*self),
    {
        match self {
            Error::HttpError(f) => lit_plus("HTTP request failed: ", f.message.as_str()),
            Error::IoError(m) => lit_plus("IO error: ", m.as_str()),
            Error::InvalidUrl(m) => lit_plus("Invalid URL: ", m.as_str()),
            Error::InvalidHeader(m) => lit_plus("Invalid header value: ", m.as_str()),
            Error::InvalidHeaderName(m) => lit_plus("Invalid header name: ", m.as_str()),
            Error::RangeNotSupported => lit_only("Server does not support range requests"),
            Error::ContentLengthUnavailable => lit_only("Content length not available"),
            Error::MaxRetriesExceeded(n) => {
                let mut v = chars_of("Download failed after ");
                append_chars(&mut v, &decimal_chars(*n as u64));
                push_str(&mut v, " retries");
                string_of(v.as_slice())
            },
            Error::Timeout => lit_only("Timeout exceeded"),
            Error::InvalidStatus(c) => {
                let mut v = chars_of("Invalid response status: ");
                append_chars(&mut v, &decimal_chars(*c as u64));
                string_of(v.as_slice())
            },
            Error::ChunkError(m) => lit_plus("Chunk download failed: ", m.as_str()),
            Error::TempFileError(m) => lit_plus("Failed to create temporary file: ", m.as_str()),
            Error::WriteError(m) => lit_plus("Failed to write to output: ", m.as_str()),
            Error::ConfigError(m) => lit_plus("Configuration error: ", m.as_str()),
            Error::Unknown(m) => lit_plus("Unknown error: ", m.as_str()),
        }
    }

    /// Format error in wget-style output.
    pub fn format_wget_style(&self) -> (r: String)
        ensures
            r@ == spec_wget_style(*self),
    {
        match self {
            Error::HttpError(f) => {
                if f.is_timeout {
                    lit_only("Read error (Connection timed out).")
                } else if f.is_connect {
                    lit_plus("Unable to establish connection: ", f.message.as_str())
                } else {
                    lit_plus("HTTP error: ", f.message.as_str())
                }
            },
            Error::IoError(m) => lit_plus("File write error: ", m.as_str()),
            Error::InvalidUrl(_) => lit_only("Invalid URL format."),
            Error::RangeNotSupported => lit_only("Server does not support byte ranges."),
            Error::ContentLengthUnavailable => lit_only("Content-Length header missing."),
            Error::MaxRetriesExceeded(n) => {
                let mut v = chars_of("Giving up after ");
                append_chars(&mut v, &decimal_chars(*n as u64));
                push_str(&mut v, " retries.");
                string_of(v.as_slice())
            },
            Error::Timeout => lit_only("Read error (Connection timed out)."),
            Error::InvalidStatus(c) => {
                let code = *c;
                let text = match code {
                    400 => "Bad Request",
                    401 => "Unauthorized",
                    403 => "Forbidden",
                    404 => "Not Found",
                    500 => "Internal Server Error",
                    502 => "Bad Gateway",
                    503 => "Service Unavailable",
                    _ => "Error",
                };
                let mut v = decimal_chars(code as u64);
                push_str(&mut v, ": ");
                push_str(&mut v, text);
                push_str(&mut v, " ");
                let m = self.message();
                push_str(&mut v, m.as_str());
                string_of(v.as_slice())
            },
            Error::ChunkError(m) => lit_plus("Download failed: ", m.as_str()),
            Error::TempFileError(m) => lit_plus("Cannot create temp file: ", m.as_str()),
            Error::WriteError(m) => lit_plus("File write error: ", m.as_str()),
            Error::ConfigError(m) => lit_plus("Configuration error: ", m.as_str()),
            Error::Unknown(m) => lit_plus("Error: ", m.as_str()),
            _ => self.message(),
        }
    }

    /// Format error with URL context (wget-style): the URL, `: `, and the
    /// wget-style text.
    pub fn format_with_url(&self, url: &str) -> (r: String)
        ensures
            r@ == url@ + ": "@ + spec_wget_style(*self),
    {
        let mut v = chars_of(url);
        push_str(&mut v, ": ");
        let w = self.format_wget_style();
        push_str(&mut v, w.as_str());
        string_of(v.as_slice())
    }
}

} // verus!
