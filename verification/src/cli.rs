//! The command-line interface's own rules: the options, their checks and
//! `-e` commands, how arguments are normalized, which name a download is
//! saved under, and how input files list URLs.
use vstd::prelude::*;
use crate::config::{
    apply_filename_restrictions, method_named, restrict_all, restriction_named, AuthConfig, AuthType,
    AuthView, FilenameRestriction, HttpMethod, ProxyConfig,
};
use crate::html::{html_select, lits, select_attrs, table_view};
use crate::recursive::{column, first_column, opt_chars, opt_view, opt_views, string_views, RecursiveConfig};
use crate::text::{
    append_chars, chars_of, decimal, decimal_chars, eq_lit, first_index, has_prefix, index_of,
    join, join_chars, lines, lit_chars, lit_only, lower_chars, matches_at, occurs_at, parse_u64,
    parse_u64_spec, push_str, split_chars, split_lines, split_on, starts_with, string_of, sub_slice,
    sub_vec, trim, trim_chars, unicode_lowercase, views,
};
use crate::urls::{file_name_of, last_segment_of, url_join, url_parse};

verus! {

/// The command-line options.
#[derive(Debug, Default)]
pub struct Args {
    /// URLs to download
    pub urls: Vec<String>,
    /// Display version information
    pub version: bool,
    /// Display help
    pub help: bool,
    /// Go to background after startup
    pub background: bool,
    /// Execute a `.wgetrc'-style command
    pub execute: Option<String>,
    /// Log messages to FILE
    pub output_file: Option<std::path::PathBuf>,
    /// Append messages to FILE
    pub append_output: Option<std::path::PathBuf>,
    /// Print lots of debugging information
    pub debug: u8,
    /// Quiet (no output)
    pub quiet: bool,
    /// Be verbose (this is the default)
    pub verbose: bool,
    /// Turn off verboseness, without being quiet
    pub no_verbose: bool,
    /// Output bandwidth as TYPE
    pub report_speed: Option<String>,
    /// Download URLs found in local or external FILE
    pub input_file: Option<std::path::PathBuf>,
    /// Treat input file as HTML
    pub force_html: bool,
    /// Resolves HTML input-file links relative to URL
    pub base: Option<String>,
    /// Specify config file to use
    pub config: Option<std::path::PathBuf>,
    /// Do not read any config file
    pub no_config: bool,
    /// Log reasons for URL rejection to FILE
    pub rejected_log: Option<std::path::PathBuf>,
    /// Set number of retries to NUMBER (0 unlimits)
    pub tries: usize,
    /// Retry even if connection is refused
    pub retry_connrefused: bool,
    /// Consider host errors as non-fatal, transient errors
    pub retry_on_host_error: bool,
    /// Comma-separated list of HTTP errors to retry
    pub retry_on_http_error: Option<String>,
    /// Write documents to FILE
    pub output_document: Option<std::path::PathBuf>,
    /// Skip downloads that would download to existing files
    pub no_clobber: bool,
    /// Don't try to obtain credentials from .netrc
    pub no_netrc: bool,
    /// Resume getting a partially-downloaded file
    pub continue_download: bool,
    /// Start downloading from zero-based position OFFSET
    pub start_pos: Option<u64>,
    /// Select progress gauge type
    pub progress: Option<String>,
    /// Display the progress bar in any verbosity mode
    pub show_progress: bool,
    /// Don't re-retrieve files unless newer than local
    pub timestamping: bool,
    /// Don't use conditional if-modified-since get requests
    pub no_if_modified_since: bool,
    /// Don't set the local file's timestamp by the one on the server
    pub no_use_server_timestamps: bool,
    /// Print server response
    pub server_response: bool,
    /// Don't download anything
    pub spider: bool,
    /// Set all timeout values to SECONDS
    pub timeout: Option<u64>,
    /// Set the DNS lookup timeout to SECS
    pub dns_timeout: Option<u64>,
    /// Set the connect timeout to SECS
    pub connect_timeout: Option<u64>,
    /// Set the read timeout to SECS
    pub read_timeout: Option<u64>,
    /// Wait SECONDS between retrievals
    pub wait: Option<u64>,
    /// Wait 1..SECONDS between retries of a retrieval
    pub waitretry: Option<u64>,
    /// Wait from 0.5*WAIT...1.5*WAIT secs between retrievals
    pub random_wait: bool,
    /// Explicitly turn off proxy
    pub no_proxy: bool,
    /// Set retrieval quota to NUMBER
    pub quota: Option<String>,
    /// Bind to ADDRESS (hostname or IP) on local host
    pub bind_address: Option<String>,
    /// Limit download rate to RATE
    pub limit_rate: Option<String>,
    /// Disable caching DNS lookups
    pub no_dns_cache: bool,
    /// Restrict chars in file names to ones OS allows
    pub restrict_file_names: Option<String>,
    /// Ignore case when matching files/directories
    pub ignore_case: bool,
    /// Connect only to IPv4 addresses
    pub inet4_only: bool,
    /// Connect only to IPv6 addresses
    pub inet6_only: bool,
    /// Connect first to addresses of specified family
    pub prefer_family: Option<String>,
    /// Set both ftp and http user to USER
    pub user: Option<String>,
    /// Set both ftp and http password to PASS
    pub password: Option<String>,
    /// Prompt for passwords
    pub ask_password: bool,
    /// Specify credential handler for requesting username and password
    pub use_askpass: Option<String>,
    /// Turn off IRI support
    pub no_iri: bool,
    /// Use ENC as the local encoding for IRIs
    pub local_encoding: Option<String>,
    /// Use ENC as the default remote encoding
    pub remote_encoding: Option<String>,
    /// Remove file before clobber
    pub unlink: bool,
    /// Turn on storage of metadata in extended file attributes
    pub xattr: bool,
    /// Don't create directories
    pub no_directories: bool,
    /// Force creation of directories
    pub force_directories: bool,
    /// Don't create host directories
    pub no_host_directories: bool,
    /// Use protocol name in directories
    pub protocol_directories: bool,
    /// Save files to PREFIX/..
    pub directory_prefix: Option<std::path::PathBuf>,
    /// Ignore NUMBER remote directory components
    pub cut_dirs: Option<usize>,
    /// Set http user to USER
    pub http_user: Option<String>,
    /// Set http password to PASS
    pub http_password: Option<String>,
    /// Disallow server-cached data
    pub no_cache: bool,
    /// Change the default page name
    pub default_page: Option<String>,
    /// Save HTML/CSS documents with proper extensions
    pub adjust_extension: bool,
    /// Ignore 'Content-Length' header field
    pub ignore_length: bool,
    /// Insert STRING among the headers
    pub header: Vec<String>,
    /// Choose compression type
    pub compression: Option<String>,
    /// Maximum redirections allowed per page
    pub max_redirect: Option<usize>,
    /// Set USER as proxy username
    pub proxy_user: Option<String>,
    /// Set PASS as proxy password
    pub proxy_password: Option<String>,
    /// Include 'Referer: URL' header in HTTP request
    pub referer: Option<String>,
    /// Save the HTTP headers to file
    pub save_headers: bool,
    /// Identify as AGENT instead of Wget/VERSION
    pub user_agent: Option<String>,
    /// Disable HTTP keep-alive
    pub no_http_keep_alive: bool,
    /// Don't use cookies
    pub no_cookies: bool,
    /// Load cookies from FILE before session
    pub load_cookies: Option<std::path::PathBuf>,
    /// Save cookies to FILE after session
    pub save_cookies: Option<std::path::PathBuf>,
    /// Load and save session (non-permanent) cookies
    pub keep_session_cookies: bool,
    /// Use the POST method; send STRING as the data
    pub post_data: Option<String>,
    /// Use the POST method; send contents of FILE
    pub post_file: Option<std::path::PathBuf>,
    /// Use method "HTTPMethod" in the request
    pub method: Option<String>,
    /// Send STRING as data
    pub body_data: Option<String>,
    /// Send contents of FILE
    pub body_file: Option<std::path::PathBuf>,
    /// Honor the Content-Disposition header
    pub content_disposition: bool,
    /// Ignore the Content-Disposition header
    pub no_content_disposition: bool,
    /// Output the received content on server errors
    pub content_on_error: bool,
    /// Send Basic HTTP authentication without waiting for challenge
    pub auth_no_challenge: bool,
    /// Choose secure protocol
    pub secure_protocol: Option<String>,
    /// Only follow secure HTTPS links
    pub https_only: bool,
    /// Don't validate the server's certificate
    pub no_check_certificate: bool,
    /// Client certificate file
    pub certificate: Option<std::path::PathBuf>,
    /// Client certificate type, PEM or DER
    pub certificate_type: Option<String>,
    /// Private key file
    pub private_key: Option<std::path::PathBuf>,
    /// Private key type, PEM or DER
    pub private_key_type: Option<String>,
    /// File with the bundle of CAs
    pub ca_certificate: Option<std::path::PathBuf>,
    /// Directory where hash list of CAs is stored
    pub ca_directory: Option<std::path::PathBuf>,
    /// File with bundle of CRLs
    pub crl_file: Option<std::path::PathBuf>,
    /// Public key file to verify peer against
    pub pinnedpubkey: Option<String>,
    /// File with random data for seeding the SSL PRNG
    pub random_file: Option<std::path::PathBuf>,
    /// Set the priority string or cipher list string directly
    pub ciphers: Option<String>,
    /// Disable HSTS
    pub no_hsts: bool,
    /// Path of HSTS database
    pub hsts_file: Option<std::path::PathBuf>,
    /// Set ftp user to USER
    pub ftp_user: Option<String>,
    /// Set ftp password to PASS
    pub ftp_password: Option<String>,
    /// Don't remove '.listing' files
    pub no_remove_listing: bool,
    /// Turn off FTP file name globbing
    pub no_glob: bool,
    /// Disable the "passive" transfer mode
    pub no_passive_ftp: bool,
    /// Preserve remote file permissions
    pub preserve_permissions: bool,
    /// When recursing, get linked-to files (not dir)
    pub retr_symlinks: bool,
    /// Use implicit FTPS (default port is 990)
    pub ftps_implicit: bool,
    /// Resume the SSL/TLS session started in the control connection
    pub ftps_resume_ssl: bool,
    /// Cipher the control channel only
    pub ftps_clear_data_connection: bool,
    /// Fall back to FTP if FTPS is not supported
    pub ftps_fallback_to_ftp: bool,
    /// Specify recursive download
    pub recursive: bool,
    /// Maximum recursion depth (inf or 0 for infinite)
    pub level: Option<String>,
    /// Delete files locally after downloading them
    pub delete_after: bool,
    /// Make links in downloaded HTML or CSS point to local files
    pub convert_links: bool,
    /// Convert the file part of the URLs only
    pub convert_file_only: bool,
    /// Before writing file X, rotate up to N backup files
    pub backups: Option<usize>,
    /// Before converting file X, back up as X.orig
    pub backup_converted: bool,
    /// Shortcut for -N -r -l inf --no-remove-listing
    pub mirror: bool,
    /// Get all images, etc. needed to display HTML page
    pub page_requisites: bool,
    /// Turn on strict (SGML) handling of HTML comments
    pub strict_comments: bool,
    /// Comma-separated list of accepted extensions
    pub accept: Option<String>,
    /// Comma-separated list of rejected extensions
    pub reject: Option<String>,
    /// Regex matching accepted URLs
    pub accept_regex: Option<String>,
    /// Regex matching rejected URLs
    pub reject_regex: Option<String>,
    /// Regex type (posix)
    pub regex_type: Option<String>,
    /// Comma-separated list of accepted domains
    pub domains: Option<String>,
    /// Comma-separated list of rejected domains
    pub exclude_domains: Option<String>,
    /// Follow FTP links from HTML documents
    pub follow_ftp: bool,
    /// Comma-separated list of followed HTML tags
    pub follow_tags: Option<String>,
    /// Comma-separated list of ignored HTML tags
    pub ignore_tags: Option<String>,
    /// Go to foreign hosts when recursive
    pub span_hosts: bool,
    /// Follow relative links only
    pub relative: bool,
    /// List of allowed directories
    pub include_directories: Option<String>,
    /// Use the name specified by the redirection URL's last component
    pub trust_server_names: bool,
    /// List of excluded directories
    pub exclude_directories: Option<String>,
    /// Don't ascend to the parent directory
    pub no_parent: bool,
    /// Download sequentially, without metadata requests or parallel chunks
    pub no_parallel: bool,
}

/// Which option combinations are refused, in the order they are checked:
/// `-N` with `-O`; `-k` with `-O` and more than one URL; `--spider` with
/// `-O`.
pub open spec fn validation(a: Args) -> Result<(), Seq<char>> {
    if a.timestamping && a.output_document is Some {
        Err("-N (timestamping) cannot be used with -O (output-document)"@)
    } else if a.convert_links && a.output_document is Some && a.urls@.len() > 1 {
        Err("-k (convert-links) with -O (output-document) only works with single URL"@)
    } else if a.spider && a.output_document is Some {
        Err("--spider mode doesn't download, -O makes no sense"@)
    } else {
        Ok(())
    }
}

/// The view of a unit result with a message.
pub open spec fn unit_result(r: Result<(), String>) -> Result<(), Seq<char>> {
    match r {
        Ok(()) => Ok(()),
        Err(e) => Err(e@),
    }
}

impl Args {
    /// Validate argument combinations (see [`validation`]).
    pub fn validate(&self) -> (r: Result<(), String>)
        ensures
            unit_result(r) == validation(*self),
    {
        if self.timestamping && self.output_document.is_some() {
            return Err(lit_only("-N (timestamping) cannot be used with -O (output-document)"));
        }
        if self.convert_links && self.output_document.is_some() && self.urls.len() > 1 {
            return Err(lit_only("-k (convert-links) with -O (output-document) only works with single URL"));
        }
        if self.spider && self.output_document.is_some() {
            return Err(lit_only("--spider mode doesn't download, -O makes no sense"));
        }
        Ok(())
    }
}

/// What an `-e` command does: `key=value` with the key and value trimmed
/// and lowercased; `contentdisposition` takes on/1/true or off/0/false
/// (`Ok(Some(setting))`), and refuses other values; other keys are
/// ignored (`Ok(None)`); a command without `=` is refused.
pub open spec fn execute_effect(command: Seq<char>) -> Result<Option<bool>, Seq<char>> {
    let c = trim(command);
    match first_index(c, '=') {
        None => Err("Invalid execute command format: "@ + c),
        Some(i) => {
            let key = unicode_lowercase(trim(c.take(i)));
            let value = unicode_lowercase(trim(c.skip(i + 1)));
            if key == "contentdisposition"@ {
                if value == "on"@ || value == "1"@ || value == "true"@ {
                    Ok(Some(true))
                } else if value == "off"@ || value == "0"@ || value == "false"@ {
                    Ok(Some(false))
                } else {
                    Err("Invalid value for contentdisposition: "@ + value)
                }
            } else {
                Ok(None)
            }
        },
    }
}

/// The view of an `-e` command's effect.
pub open spec fn effect_view(r: Result<Option<bool>, String>) -> Result<Option<bool>, Seq<char>> {
    match r {
        Ok(x) => Ok(x),
        Err(e) => Err(e@),
    }
}

/// What an `-e` command does (see [`execute_effect`]).
pub fn execute_setting(command: &str) -> (r: Result<Option<bool>, String>)
    ensures
        effect_view(r) == execute_effect(command@),
{
    let c = trim_chars(&chars_of(command));
    let eq = match index_of(c.as_slice(), '=') {
        None => return Err(lit_chars("Invalid execute command format: ", &c)),
        Some(i) => i,
    };
    let key = lower_chars(&trim_chars(&sub_vec(&c, 0, eq)));
    let value = lower_chars(&trim_chars(&sub_vec(&c, eq + 1, c.len())));
    assert(c@.take(eq as int) =~= c@.subrange(0, eq as int));
    assert(c@.skip(eq + 1) =~= c@.subrange(eq + 1, c@.len() as int));
    if eq_lit(key.as_slice(), "contentdisposition") {
        if eq_lit(value.as_slice(), "on") || eq_lit(value.as_slice(), "1") || eq_lit(value.as_slice(), "true") {
            Ok(Some(true))
        } else if eq_lit(value.as_slice(), "off") || eq_lit(value.as_slice(), "0") || eq_lit(value.as_slice(), "false") {
            Ok(Some(false))
        } else {
            Err(lit_chars("Invalid value for contentdisposition: ", &value))
        }
    } else {
        Ok(None)
    }
}

/// Apply an `-e` (`.wgetrc`-style) command to the options (see
/// [`execute_effect`]); only `content_disposition` can change.
pub fn process_execute_command(args: &mut Args, command: &str) -> (r: Result<(), String>)
    ensures
        match execute_effect(command@) {
            Ok(Some(b)) => r is Ok && final(args).content_disposition == b,
            Ok(None) => r is Ok && final(args).content_disposition == old(args).content_disposition,
            Err(m) => unit_result(r) == Err::<(), Seq<char>>(m) && final(args).content_disposition == old(args).content_disposition,
        },
        *final(args) == (Args { content_disposition: final(args).content_disposition, ..*old(args) }),
{
    match execute_setting(command) {
        Ok(Some(b)) => {
            args.content_disposition = b;
            Ok(())
        },
        Ok(None) => Ok(()),
        Err(e) => Err(e),
    }
}

/// How one argument is normalized: the wget-style short flags `-nH`,
/// `-np` and `-nv` become their long forms; everything else stays.
pub open spec fn normalized_arg(a: Seq<char>) -> Seq<char> {
    if a == "-nH"@ {
        "--no-host-directories"@
    } else if a == "-np"@ {
        "--no-parent"@
    } else if a == "-nv"@ {
        "--no-verbose"@
    } else {
        a
    }
}

/// Pre-process arguments to handle wget-style multi-character short flags
/// (see [`normalized_arg`]).
pub fn preprocess_args(args: Vec<String>) -> (r: Vec<String>)
    ensures
        string_views(r@) == string_views(args@).map_values(|a: Seq<char>| normalized_arg(a)),
{
    let ghost target = string_views(args@).map_values(|a: Seq<char>| normalized_arg(a));
    let mut result: Vec<String> = Vec::new();
    let mut i: usize = 0;
    while i < args.len()
        invariant
            i <= args.len(),
            target == string_views(args@).map_values(|a: Seq<char>| normalized_arg(a)),
            string_views(result@) == target.take(i as int),
        decreases args.len() - i,
    {
        let a = chars_of(args[i].as_str());
        let n = if eq_lit(a.as_slice(), "-nH") {
            lit_only("--no-host-directories")
        } else if eq_lit(a.as_slice(), "-np") {
            lit_only("--no-parent")
        } else if eq_lit(a.as_slice(), "-nv") {
            lit_only("--no-verbose")
        } else {
            string_of(a.as_slice())
        };
        let ghost before = string_views(result@);
        result.push(n);
        assert(string_views(result@) =~= before.push(n@));
        assert(target[i as int] == normalized_arg(args@[i as int]@));
        assert(target.take(i + 1) =~= target.take(i as int).push(target[i as int]));
        i += 1;
    }
    assert(target.take(args@.len() as int) =~= target);
    result
}

/// A copy of an optional path.
///
/// Trusted: calls std's `Clone` for `Option<PathBuf>`, which std documents
/// as an equal copy: the same path, present exactly when the original is.
#[verifier::external_body]
fn clone_path(p: &Option<std::path::PathBuf>) -> (r: Option<std::path::PathBuf>)
    ensures
        r == *p,
{
    p.clone()
}

/// A `usize` parsed from decimal text, as `str::parse::<usize>` does.
pub fn parse_usize(s: &str) -> (r: Option<usize>)
    ensures
        r == match parse_u64_spec(s@) {
            Some(v) => if v <= usize::MAX {
                Some(v as usize)
            } else {
                None::<usize>
            },
            None => None,
        },
{
    match parse_u64(chars_of(s).as_slice()) {
        Some(v) => if v as u128 <= usize::MAX as u128 {
            Some(v as usize)
        } else {
            None
        },
        None => None,
    }
}

/// The recursion depth a `--level` option gives: 0 (no limit) for `inf`,
/// else its number, or 5 when it is absent or does not parse.
pub open spec fn level_depth(level: Option<String>) -> usize {
    match level {
        Some(l) => if l@ == "inf"@ {
            0
        } else {
            match parse_u64_spec(l@) {
                Some(v) => if v <= usize::MAX {
                    v as usize
                } else {
                    5
                },
                None => 5,
            }
        },
        None => 5,
    }
}

/// Build the recursive download configuration from the options: depth from
/// `--level` (see [`level_depth`]), the recursive switches copied over,
/// everything else at its default.
pub fn build_recursive_config(args: &Args) -> (r: RecursiveConfig)
    ensures
        r.max_depth == level_depth(args.level),
        r.spider == args.spider,
        r.span_hosts == args.span_hosts,
        r.page_requisites == args.page_requisites,
        r.no_parent == args.no_parent,
        r.no_host_directories == args.no_host_directories,
        r.convert_links == args.convert_links,
        r.backup_converted == args.backup_converted,
        r.adjust_extension == args.adjust_extension,
        r.no_directories == args.no_directories,
        r.rejected_log == args.rejected_log,
        !r.relative_only,
        r.accept_extensions@.len() == 0 && r.reject_extensions@.len() == 0,
        r.accepted_domains@.len() == 0 && r.rejected_domains@.len() == 0,
        r.include_directories@.len() == 0 && r.exclude_directories@.len() == 0,
{
    let mut config = RecursiveConfig::default();
    config.max_depth = match &args.level {
        Some(l) => if eq_lit(chars_of(l.as_str()).as_slice(), "inf") {
            0
        } else {
            match parse_usize(l.as_str()) {
                Some(d) => d,
                None => 5,
            }
        },
        None => 5,
    };
    config.spider = args.spider;
    config.span_hosts = args.span_hosts;
    config.page_requisites = args.page_requisites;
    config.no_parent = args.no_parent;
    config.no_host_directories = args.no_host_directories;
    config.convert_links = args.convert_links;
    config.backup_converted = args.backup_converted;
    config.adjust_extension = args.adjust_extension;
    config.rejected_log = clone_path(&args.rejected_log);
    config.no_directories = args.no_directories;
    config
}

/// A duration in wget's style: hours, minutes and seconds that are not
/// zero (`Nh`, `Nm`, `Ns`), separated by spaces; `0s` for nothing.
pub open spec fn wget_duration_text(total: nat) -> Seq<char> {
    if total == 0 {
        "0s"@
    } else {
        let h = total / 3600;
        let m = (total % 3600) / 60;
        let s = total % 60;
        let hp: Seq<Seq<char>> = if h > 0 { seq![decimal(h) + "h"@] } else { Seq::empty() };
        let mp: Seq<Seq<char>> = if m > 0 { seq![decimal(m) + "m"@] } else { Seq::empty() };
        let parts = hp + mp;
        let sp: Seq<Seq<char>> = if s > 0 || parts.len() == 0 { seq![decimal(s) + "s"@] } else { Seq::empty() };
        join(parts + sp, " "@)
    }
}

/// Format a duration given in whole seconds in wget style (see
/// [`wget_duration_text`]).
pub fn format_duration_wget_secs(total_secs: u64) -> (r: String)
    ensures
        r@ == wget_duration_text(total_secs as nat),
{
    if total_secs == 0 {
        return lit_only("0s");
    }
    let hours = total_secs / 3600;
    let minutes = (total_secs % 3600) / 60;
    let seconds = total_secs % 60;
    let mut parts: Vec<Vec<char>> = Vec::new();
    if hours > 0 {
        let mut p = decimal_chars(hours);
        push_str(&mut p, "h");
        parts.push(p);
    }
    if minutes > 0 {
        let mut p = decimal_chars(minutes);
        push_str(&mut p, "m");
        let ghost before = views(parts@);
        parts.push(p);
        assert(views(parts@) =~= before.push(p@));
    }
    if seconds > 0 || parts.len() == 0 {
        let mut p = decimal_chars(seconds);
        push_str(&mut p, "s");
        let ghost before = views(parts@);
        parts.push(p);
        assert(views(parts@) =~= before.push(p@));
    }
    let ghost h = total_secs as nat / 3600;
    let ghost m = (total_secs as nat % 3600) / 60;
    let ghost s = total_secs as nat % 60;
    let ghost hp: Seq<Seq<char>> = if h > 0 { seq![decimal(h) + "h"@] } else { Seq::empty() };
    let ghost mp: Seq<Seq<char>> = if m > 0 { seq![decimal(m) + "m"@] } else { Seq::empty() };
    let ghost sp: Seq<Seq<char>> = if s > 0 || (hp + mp).len() == 0 { seq![decimal(s) + "s"@] } else { Seq::empty() };
    assert(views(parts@) =~= hp + mp + sp);
    let r = join_chars(&parts, " ");
    string_of(r.as_slice())
}

/// Format duration in wget style (e.g., "2m 30s", "1h 15m 20s"), from its
/// whole seconds (see [`format_duration_wget_secs`]).
pub fn format_duration_wget(duration: std::time::Duration) -> (r: String)
    ensures
        r@ == wget_duration_text(crate::progress::duration_secs(duration) as nat),
{
    format_duration_wget_secs(crate::progress::whole_secs(&duration))
}

/// The value of a hexadecimal digit byte (either case).
pub open spec fn hex_value(b: u8) -> Option<nat> {
    if 48 <= b <= 57 {
        Some((b - 48) as nat)
    } else if 97 <= b <= 102 {
        Some((b - 87) as nat)
    } else if 65 <= b <= 70 {
        Some((b - 55) as nat)
    } else {
        None
    }
}

/// Bytes with each `%` followed by two hex digits replaced by the byte
/// they spell; every other byte (a lone `%` too) stays.
pub open spec fn percent_decode_bytes(s: Seq<u8>) -> Seq<u8>
    decreases s.len(),
{
    if s.len() == 0 {
        Seq::empty()
    } else if s[0] == 37 && s.len() >= 3 && hex_value(s[1]) is Some && hex_value(s[2]) is Some {
        seq![(hex_value(s[1])->0 * 16 + hex_value(s[2])->0) as u8] + percent_decode_bytes(s.skip(3))
    } else {
        seq![s[0]] + percent_decode_bytes(s.drop_first())
    }
}

/// The text that a percent-encoded text decodes to, if the decoded bytes
/// are valid UTF-8.
#[verifier::opaque]
pub open spec fn percent_decoded(s: Seq<char>) -> Option<Seq<char>> {
    let b = percent_decode_bytes(vstd::utf8::encode_utf8(s));
    if vstd::utf8::valid_utf8(b) {
        Some(vstd::utf8::decode_utf8(b))
    } else {
        None
    }
}

/// Percent-decode a text into UTF-8.
///
/// Trusted: calls `percent_encoding::percent_decode_str` and
/// `PercentDecode::decode_utf8`; the contract states what that crate's
/// source does: `%` and two hex digits become that byte, other bytes stay,
/// and the result is the text of the bytes when they are valid UTF-8.
#[verifier::external_body]
fn percent_decode(s: &str) -> (r: Option<String>)
    ensures
        crate::urls::opt_str(r) == percent_decoded(s@),
{
    percent_encoding::percent_decode_str(s).decode_utf8().ok().map(|c| c.into_owned())
}

/// The text without leading `"` characters.
pub open spec fn drop_leading_quotes(s: Seq<char>) -> Seq<char>
    decreases s.len(),
{
    if s.len() > 0 && s[0] == '"' {
        drop_leading_quotes(s.drop_first())
    } else {
        s
    }
}

/// The text without trailing `"` characters.
pub open spec fn drop_trailing_quotes(s: Seq<char>) -> Seq<char>
    decreases s.len(),
{
    if s.len() > 0 && s.last() == '"' {
        drop_trailing_quotes(s.drop_last())
    } else {
        s
    }
}

/// The text without the `"` characters around it (`trim_matches('"')`).
pub open spec fn strip_quotes(s: Seq<char>) -> Seq<char> {
    drop_trailing_quotes(drop_leading_quotes(s))
}

/// The text without the `"` characters around it.
fn strip_quotes_chars(v: &Vec<char>) -> (r: Vec<char>)
    ensures
        r@ == strip_quotes(v@),
{
    let mut lo: usize = 0;
    assert(v@.skip(0) =~= v@);
    while lo < v.len() && v[lo] == '"'
        invariant
            lo <= v.len(),
            drop_leading_quotes(v@) == drop_leading_quotes(v@.skip(lo as int)),
        decreases v.len() - lo,
    {
        assert(v@.skip(lo as int).drop_first() =~= v@.skip(lo + 1));
        lo += 1;
    }
    let mut hi: usize = v.len();
    assert(drop_leading_quotes(v@) == v@.subrange(lo as int, hi as int)) by {
        assert(v@.skip(lo as int) =~= v@.subrange(lo as int, v@.len() as int));
    }
    while hi > lo && v[hi - 1] == '"'
        invariant
            lo <= hi <= v.len(),
            strip_quotes(v@) == drop_trailing_quotes(v@.subrange(lo as int, hi as int)),
        decreases hi,
    {
        assert(v@.subrange(lo as int, hi as int).drop_last() =~= v@.subrange(lo as int, hi - 1));
        hi -= 1;
    }
    sub_vec(v, lo, hi)
}

/// The second piece of a text split at `=`, if there is one.
pub open spec fn second_piece(t: Seq<char>) -> Option<Seq<char>> {
    let ps = split_on(t, '=');
    if ps.len() >= 2 {
        Some(ps[1])
    } else {
        None
    }
}

/// The position of the first occurrence of `p` in `s`.
#[verifier::opaque]
pub open spec fn first_occurrence(s: Seq<char>, p: Seq<char>) -> Option<int> {
    if exists|i: int| occurs_at(s, p, i) {
        Some(choose|i: int| occurs_at(s, p, i) && forall|j: int| 0 <= j < i ==> !occurs_at(s, p, j))
    } else {
        None
    }
}

/// The text after the charset's `''` of an RFC 5987 value, if it has one.
pub open spec fn after_charset(v: Seq<char>) -> Seq<char> {
    match first_occurrence(v, seq!['\'', '\'']) {
        Some(pos) => v.skip(pos + 2),
        None => v,
    }
}

/// An RFC 5987 value: the text after the charset's `''` (if any),
/// percent-decoded, without quotes; `None` when it does not decode.
pub open spec fn encoded_value(v: Seq<char>) -> Option<Seq<char>> {
    match percent_decoded(after_charset(v)) {
        Some(d) => Some(strip_quotes(d)),
        None => None,
    }
}

/// The text after the charset's `''` (see [`after_charset`]).
fn after_charset_chars(v: &Vec<char>) -> (r: Vec<char>)
    ensures
        r@ == after_charset(v@),
{
    let quote2 = vec!['\'', '\''];
    assert(quote2@ =~= seq!['\'', '\'']);
    match find_chars(v, &quote2) {
        Some(pos) => {
            assert(quote2@.len() == 2);
            assert(pos + 2 <= v@.len());
            let n = v.len();
            assert(pos + 2 <= n);
            let rest = sub_vec(v, pos + 2, v.len());
            assert(rest@ =~= v@.skip(pos + 2));
            rest
        },
        None => v.clone(),
    }
}

/// Decode an RFC 5987 value (see [`encoded_value`]).
fn encoded_value_chars(v: &Vec<char>) -> (r: Option<Vec<char>>)
    ensures
        match r {
            Some(x) => encoded_value(v@) == Some(x@),
            None => encoded_value(v@) is None,
        },
{
    let v2 = after_charset_chars(v);
    let text = string_of(v2.as_slice());
    match percent_decode(text.as_str()) {
        Some(d) => Some(strip_quotes_chars(&chars_of(d.as_str()))),
        None => None,
    }
}

/// What one `;`-separated part (already trimmed) of a
/// `Content-Disposition` header says of the file name: `None` when it is
/// not a file name parameter; `Some(None)` when it is an encoded one
/// (`filename*=`) that does not decode, which ends the search with no
/// name; otherwise `Some(Some(name))`, the value after the first `=` (for
/// `filename*=`, after the charset's `''`, percent-decoded) without its
/// quotes.
pub open spec fn part_filename(t: Seq<char>) -> Option<Option<Seq<char>>> {
    let l = unicode_lowercase(t);
    if has_prefix(l, "filename*="@) && second_piece(t) is Some {
        Some(encoded_value(second_piece(t)->0))
    } else if has_prefix(l, "filename="@) && second_piece(t) is Some {
        Some(Some(strip_quotes(second_piece(t)->0)))
    } else {
        None
    }
}

/// The file name that the first file name part of a header's
/// `;`-separated parts gives.
pub open spec fn first_filename(parts: Seq<Seq<char>>) -> Option<Seq<char>>
    decreases parts.len(),
{
    if parts.len() == 0 {
        None
    } else {
        match part_filename(trim(parts[0])) {
            Some(r) => r,
            None => first_filename(parts.drop_first()),
        }
    }
}

/// The file name a `Content-Disposition` header gives (see
/// [`part_filename`]).
pub open spec fn disposition_filename(header: Seq<char>) -> Option<Seq<char>> {
    first_filename(split_on(header, ';'))
}

/// The first occurrence of `p` in `s`, as [`first_occurrence`] states.
fn find_chars(s: &Vec<char>, p: &Vec<char>) -> (r: Option<usize>)
    ensures
        match r {
            Some(i) => first_occurrence(s@, p@) == Some(i as int) && i + p@.len() <= s@.len(),
            None => first_occurrence(s@, p@) is None,
        },
{
    reveal(first_occurrence);
    if p.len() > s.len() {
        assert(forall|j: int| !occurs_at(s@, p@, j));
        return None;
    }
    if p.len() == 0 {
        assert(occurs_at(s@, p@, 0)) by {
            assert(s@.subrange(0, 0) =~= p@);
        }
        return Some(0);
    }
    let mut i: usize = 0;
    while i <= s.len() - p.len()
        invariant
            0 < p.len() <= s.len(),
            forall|j: int| 0 <= j < i ==> !occurs_at(s@, p@, j),
        decreases s.len() - p.len() + 1 - i,
    {
        if matches_at(s.as_slice(), p.as_slice(), i) {
            proof {
                reveal(first_occurrence);
                let k = choose|k: int| occurs_at(s@, p@, k) && forall|j: int| 0 <= j < k ==> !occurs_at(s@, p@, j);
                assert(exists|k: int| occurs_at(s@, p@, k) && forall|j: int| 0 <= j < k ==> !occurs_at(s@, p@, j));
                if k < i {
                } else if k > i {
                    assert(!occurs_at(s@, p@, i as int));
                }
            }
            return Some(i);
        }
        i += 1;
    }
    assert forall|j: int| !occurs_at(s@, p@, j) by {
        if j >= i {
            assert(j + p@.len() > s@.len());
        }
    }
    reveal(first_occurrence);
    None
}

/// The second piece of a text split at `=`.
fn second_piece_chars(t: &Vec<char>) -> (r: Option<Vec<char>>)
    ensures
        match r {
            Some(v) => second_piece(t@) == Some(v@),
            None => second_piece(t@) is None,
        },
{
    let ps = split_chars(t, '=');
    if ps.len() >= 2 {
        assert(views(ps@)[1] == ps@[1]@);
        Some(ps[1].clone())
    } else {
        None
    }
}

/// What one trimmed header part says of the file name (see
/// [`part_filename`]).
fn part_filename_chars(t: &Vec<char>) -> (r: Option<Option<Vec<char>>>)
    ensures
        match r {
            None => part_filename(t@) is None,
            Some(None) => part_filename(t@) == Some(None::<Seq<char>>),
            Some(Some(v)) => part_filename(t@) == Some(Some(v@)),
        },
{
    let l = lower_chars(t);
    if starts_with(l.as_slice(), chars_of("filename*=").as_slice()) {
        if let Some(v) = second_piece_chars(t) {
            return Some(encoded_value_chars(&v));
        }
    }
    if starts_with(l.as_slice(), chars_of("filename=").as_slice()) {
        if let Some(v) = second_piece_chars(t) {
            return Some(Some(strip_quotes_chars(&v)));
        }
    }
    None
}

/// Extract the file name from a `Content-Disposition` header (see
/// [`disposition_filename`]).
pub fn extract_filename_from_content_disposition(header: &str) -> (r: Option<String>)
    ensures
        crate::urls::opt_str(r) == disposition_filename(header@),
{
    let parts = split_chars(&chars_of(header), ';');
    let ghost ps = views(parts@);
    let mut i: usize = 0;
    assert(ps.skip(0) =~= ps);
    while i < parts.len()
        invariant
            i <= parts.len(),
            ps == views(parts@),
            ps == split_on(header@, ';'),
            disposition_filename(header@) == first_filename(ps.skip(i as int)),
        decreases parts.len() - i,
    {
        assert(ps.skip(i as int)[0] == parts@[i as int]@);
        assert(ps.skip(i as int).drop_first() =~= ps.skip(i + 1));
        let t = trim_chars(&parts[i]);
        match part_filename_chars(&t) {
            Some(Some(v)) => return Some(string_of(v.as_slice())),
            Some(None) => return None,
            None => {},
        }
        i += 1;
    }
    None
}

/// The restrictions named in a `--restrict-file-names` value: each
/// comma-separated mode, trimmed, that names one (case-insensitively).
pub open spec fn named_restrictions(parts: Seq<Seq<char>>) -> Seq<FilenameRestriction>
    decreases parts.len(),
{
    if parts.len() == 0 {
        Seq::empty()
    } else {
        let rest = named_restrictions(parts.drop_last());
        match restriction_named(unicode_lowercase(trim(parts.last()))) {
            Some(r) => rest.push(r),
            None => rest,
        }
    }
}

/// The file name a download is saved under: the `Content-Disposition`
/// name when that is enabled and the header gives one, else the URL
/// path's last segment (`index.html` when it has none); then the
/// `--restrict-file-names` modes applied in order.
pub open spec fn chosen_filename(
    url_path: Seq<char>,
    use_disposition: bool,
    disposition: Option<Seq<char>>,
    restrict: Option<Seq<char>>,
) -> Seq<char> {
    let from_header = if use_disposition {
        match disposition {
            Some(h) => disposition_filename(h),
            None => None,
        }
    } else {
        None
    };
    let name = match from_header {
        Some(n) => n,
        None => file_name_of(url_path),
    };
    match restrict {
        Some(r) => restrict_all(named_restrictions(split_on(r, ',')), name),
        None => name,
    }
}

/// Choose the file name a download is saved under (see
/// [`chosen_filename`]); `url_path` is the parsed URL's path.
pub fn choose_filename(
    url_path: &str,
    use_disposition: bool,
    disposition: Option<&str>,
    restrict: Option<&str>,
) -> (r: String)
    ensures
        r@ == chosen_filename(url_path@, use_disposition, opt_chars(disposition), opt_chars(restrict)),
{
    let from_header = if use_disposition {
        match disposition {
            Some(h) => extract_filename_from_content_disposition(h),
            None => None,
        }
    } else {
        None
    };
    let name = match from_header {
        Some(n) => n,
        None => match last_segment_of(url_path) {
            Some(seg) => string_of(seg.as_slice()),
            None => lit_only("index.html"),
        },
    };
    match restrict {
        Some(r) => {
            let parts = split_chars(&chars_of(r), ',');
            let ghost ps = views(parts@);
            let mut modes: Vec<FilenameRestriction> = Vec::new();
            let mut i: usize = 0;
            assert(ps.take(0) =~= Seq::<Seq<char>>::empty());
            while i < parts.len()
                invariant
                    i <= parts.len(),
                    ps == views(parts@),
                    modes@ == named_restrictions(ps.take(i as int)),
                decreases parts.len() - i,
            {
                assert(ps.take(i + 1).drop_last() =~= ps.take(i as int));
                assert(ps.take(i + 1).last() == parts@[i as int]@);
                let mode = trim_chars(&parts[i]);
                match FilenameRestriction::from_str(string_of(mode.as_slice()).as_str()) {
                    Some(m) => modes.push(m),
                    None => {},
                }
                i += 1;
            }
            assert(ps.take(parts@.len() as int) =~= ps);
            apply_filename_restrictions(name.as_str(), modes.as_slice())
        },
        None => name,
    }
}

/// The name of the `n`th duplicate of a file: `name.n`.
pub fn numbered_name(name: &str, n: u32) -> (r: String)
    ensures
        r@ == name@ + "."@ + decimal(n as nat),
{
    let mut v = chars_of(name);
    push_str(&mut v, ".");
    append_chars(&mut v, &decimal_chars(n as u64));
    string_of(v.as_slice())
}

/// Whether an existing output file gets a numbered twin (`.1`, `.2`, ...)
/// instead of being overwritten: not with `-nc` (which refuses), not with
/// `-N`, and not with `-c` unless a start position is given.
pub fn should_number_file(exists: bool, no_clobber: bool, timestamping: bool, continue_download: bool, start_pos_given: bool) -> (r: bool)
    ensures
        r == (exists && !no_clobber && !timestamping && (!continue_download || start_pos_given)),
{
    exists && !no_clobber && !timestamping && (!continue_download || start_pos_given)
}

/// Whether an input file names a remote document (`http://`, `https://`
/// or `ftp://`) rather than a local file.
pub fn is_remote_input(name: &str) -> (r: bool)
    ensures
        r == (has_prefix(name@, "http://"@) || has_prefix(name@, "https://"@) || has_prefix(name@, "ftp://"@)),
{
    let n = chars_of(name);
    starts_with(n.as_slice(), chars_of("http://").as_slice())
        || starts_with(n.as_slice(), chars_of("https://").as_slice())
        || starts_with(n.as_slice(), chars_of("ftp://").as_slice())
}

/// A size or rate with an optional binary suffix: the number's text (the
/// value trimmed and lowercased, without a final `k`, `m` or `g`) and the
/// multiplier that suffix stands for.
pub open spec fn size_suffix(s: Seq<char>) -> (Seq<char>, nat) {
    let l = unicode_lowercase(trim(s));
    if l.len() > 0 && l.last() == 'k' {
        (l.drop_last(), 1024)
    } else if l.len() > 0 && l.last() == 'm' {
        (l.drop_last(), 1024 * 1024)
    } else if l.len() > 0 && l.last() == 'g' {
        (l.drop_last(), 1024 * 1024 * 1024)
    } else {
        (l, 1)
    }
}

/// Split a `--quota` or `--limit-rate` value into its number's text and
/// its multiplier (see [`size_suffix`]).
pub fn split_size_suffix(s: &str) -> (r: (String, u32))
    ensures
        (r.0@, r.1 as nat) == size_suffix(s@),
{
    let l = lower_chars(&trim_chars(&chars_of(s)));
    let n = l.len();
    if n > 0 && l[n - 1] == 'k' {
        let d = sub_vec(&l, 0, n - 1);
        assert(d@ =~= l@.drop_last());
        (string_of(d.as_slice()), 1024)
    } else if n > 0 && l[n - 1] == 'm' {
        let d = sub_vec(&l, 0, n - 1);
        assert(d@ =~= l@.drop_last());
        (string_of(d.as_slice()), 1024 * 1024)
    } else if n > 0 && l[n - 1] == 'g' {
        let d = sub_vec(&l, 0, n - 1);
        assert(d@ =~= l@.drop_last());
        (string_of(d.as_slice()), 1024 * 1024 * 1024)
    } else {
        (string_of(l.as_slice()), 1)
    }
}

/// A URL of an input file resolved against the `--base` URL; an error
/// naming the base when it does not parse, or both when the join fails.
pub open spec fn input_resolved(base: Seq<char>, rel: Seq<char>) -> Result<Seq<char>, Seq<char>> {
    match url_parse(base) {
        Err(_) => Err("Failed to parse base URL: "@ + base),
        Ok(_) => match url_join(base, rel) {
            Ok(a) => Ok(a),
            Err(_) => Err("Failed to resolve relative URL '"@ + rel + "' against base '"@ + base + "'"@),
        },
    }
}

/// The URLs that the items of an input file stand for, in order: each
/// item itself, or resolved against the base when one is given; the first
/// item that does not resolve makes the whole list an error.
pub open spec fn listed_urls(items: Seq<Seq<char>>, base: Option<Seq<char>>) -> Result<Seq<Seq<char>>, Seq<char>>
    decreases items.len(),
{
    if items.len() == 0 {
        Ok(Seq::empty())
    } else {
        match listed_urls(items.drop_last(), base) {
            Err(e) => Err(e),
            Ok(done) => match base {
                None => Ok(done.push(items.last())),
                Some(b) => match input_resolved(b, items.last()) {
                    Ok(u) => Ok(done.push(u)),
                    Err(e) => Err(e),
                },
            },
        }
    }
}

/// The items of a plain input file: each line, trimmed, that is neither
/// empty nor a `#` comment.
pub open spec fn line_items(ls: Seq<Seq<char>>) -> Seq<Seq<char>>
    decreases ls.len(),
{
    if ls.len() == 0 {
        Seq::empty()
    } else {
        let rest = line_items(ls.drop_last());
        let t = trim(ls.last());
        if t.len() == 0 || t[0] == '#' {
            rest
        } else {
            rest.push(t)
        }
    }
}

/// The values present in a column, in order.
pub open spec fn present(vals: Seq<Option<Seq<char>>>) -> Seq<Seq<char>>
    decreases vals.len(),
{
    if vals.len() == 0 {
        Seq::empty()
    } else {
        match vals.last() {
            Some(v) => present(vals.drop_last()).push(v),
            None => present(vals.drop_last()),
        }
    }
}

/// The link values of an HTML input file: the `href` of `<a>`, the `src`
/// of `<img>`, the `href` of `<link>` and the `src` of `<script>`.
pub open spec fn html_items(html: Seq<char>) -> Seq<Seq<char>> {
    present(column(html_select(html, "a[href]"@, seq!["href"@])))
        + present(column(html_select(html, "img[src]"@, seq!["src"@])))
        + present(column(html_select(html, "link[href]"@, seq!["href"@])))
        + present(column(html_select(html, "script[src]"@, seq!["src"@])))
}

/// The view of a URL list result.
pub open spec fn list_result(r: Result<Vec<String>, String>) -> Result<Seq<Seq<char>>, Seq<char>> {
    match r {
        Ok(v) => Ok(string_views(v@)),
        Err(e) => Err(e@),
    }
}

/// Resolve an input-file URL against the base (see [`input_resolved`]).
pub fn resolve_input_url(base: &str, relative: &str) -> (r: Result<String, String>)
    ensures
        crate::urls::str_result(r) == input_resolved(base@, relative@),
{
    match crate::urls::parse_url(base) {
        Err(_) => return Err(lit_plus_str("Failed to parse base URL: ", base)),
        Ok(_) => {},
    }
    match crate::urls::join_url(base, relative) {
        Ok(a) => Ok(a),
        Err(_) => {
            let mut v = chars_of("Failed to resolve relative URL '");
            push_str(&mut v, relative);
            push_str(&mut v, "' against base '");
            push_str(&mut v, base);
            push_str(&mut v, "'");
            Err(string_of(v.as_slice()))
        },
    }
}

/// A literal followed by a string.
fn lit_plus_str(lit: &str, s: &str) -> (r: String)
    ensures
        r@ == lit@ + s@,
{
    crate::text::lit_plus(lit, s)
}

/// The URLs that input-file items stand for (see [`listed_urls`]).
fn resolve_items(items: &Vec<Vec<char>>, base: Option<&str>) -> (r: Result<Vec<String>, String>)
    ensures
        list_result(r) == listed_urls(views(items@), opt_chars(base)),
{
    let ghost vs = views(items@);
    let mut out: Vec<String> = Vec::new();
    let mut i: usize = 0;
    assert(vs.take(0) =~= Seq::<Seq<char>>::empty());
    assert(string_views(out@) =~= Seq::<Seq<char>>::empty());
    while i < items.len()
        invariant
            i <= items.len(),
            vs == views(items@),
            listed_urls(vs.take(i as int), opt_chars(base)) == Ok::<Seq<Seq<char>>, Seq<char>>(string_views(out@)),
        decreases items.len() - i,
    {
        assert(vs.take(i + 1).drop_last() =~= vs.take(i as int));
        assert(vs.take(i + 1).last() == items@[i as int]@);
        let item = string_of(items[i].as_slice());
        let u = match base {
            Some(b) => match resolve_input_url(b, item.as_str()) {
                Ok(u) => u,
                Err(e) => {
                    proof {
                        lemma_listed_error(vs, i as int + 1, opt_chars(base), e@);
                    }
                    return Err(e);
                },
            },
            None => item,
        };
        let ghost before = string_views(out@);
        out.push(u);
        assert(string_views(out@) =~= before.push(u@));
        i += 1;
    }
    assert(vs.take(items@.len() as int) =~= vs);
    Ok(out)
}

/// Once an item fails to resolve, the list is that error.
proof fn lemma_listed_error(items: Seq<Seq<char>>, k: int, base: Option<Seq<char>>, e: Seq<char>)
    requires
        0 < k <= items.len(),
        listed_urls(items.take(k), base) == Err::<Seq<Seq<char>>, Seq<char>>(e),
    ensures
        listed_urls(items, base) == Err::<Seq<Seq<char>>, Seq<char>>(e),
    decreases items.len() - k,
{
    if k < items.len() {
        assert(items.take(k + 1).drop_last() =~= items.take(k));
        lemma_listed_error(items, k + 1, base, e);
    } else {
        assert(items.take(k) =~= items);
    }
}

/// The URLs listed in a plain input file (see [`line_items`] and
/// [`listed_urls`]).
pub fn urls_from_lines(content: &str, base: Option<&str>) -> (r: Result<Vec<String>, String>)
    ensures
        list_result(r) == listed_urls(line_items(lines(content@)), opt_chars(base)),
{
    let ls = split_lines(&chars_of(content));
    let ghost lv = views(ls@);
    let mut items: Vec<Vec<char>> = Vec::new();
    let mut i: usize = 0;
    assert(lv.take(0) =~= Seq::<Seq<char>>::empty());
    while i < ls.len()
        invariant
            i <= ls.len(),
            lv == views(ls@),
            views(items@) == line_items(lv.take(i as int)),
        decreases ls.len() - i,
    {
        assert(lv.take(i + 1).drop_last() =~= lv.take(i as int));
        assert(lv.take(i + 1).last() == ls@[i as int]@);
        let t = trim_chars(&ls[i]);
        if !(t.len() == 0 || t[0] == '#') {
            let ghost before = views(items@);
            items.push(t);
            assert(views(items@) =~= before.push(t@));
        }
        i += 1;
    }
    assert(lv.take(ls@.len() as int) =~= lv);
    resolve_items(&items, base)
}

/// Append the values present in the column of an attribute.
fn push_present(items: &mut Vec<Vec<char>>, html: &str, selector: &str, attr: &str)
    ensures
        views(final(items)@) == views(old(items)@) + present(column(html_select(html@, selector@, seq![attr@]))),
{
    let attrs: [&str; 1] = [attr];
    let t = select_attrs(html, selector, attrs.as_slice());
    proof {
        assert(lits(attrs@) =~= seq![attr@]);
    }
    let vals = first_column(&t);
    let ghost vv = opt_views(vals@);
    let ghost start = views(items@);
    let mut i: usize = 0;
    assert(vv.take(0) =~= Seq::<Option<Seq<char>>>::empty());
    assert(views(items@) =~= start + present(vv.take(0)));
    while i < vals.len()
        invariant
            i <= vals.len(),
            vv == opt_views(vals@),
            views(items@) == start + present(vv.take(i as int)),
        decreases vals.len() - i,
    {
        assert(vv.take(i + 1).drop_last() =~= vv.take(i as int));
        assert(vv.take(i + 1).last() == opt_view(vals@[i as int]));
        match &vals[i] {
            Some(v) => {
                let ghost before = views(items@);
                items.push(v.clone());
                assert(views(items@) =~= before.push(v@));
            },
            None => {},
        }
        i += 1;
    }
    assert(vv.take(vals@.len() as int) =~= vv);
}

/// The URLs listed in an HTML input file (see [`html_items`] and
/// [`listed_urls`]).
pub fn urls_from_html(html: &str, base: Option<&str>) -> (r: Result<Vec<String>, String>)
    ensures
        list_result(r) == listed_urls(html_items(html@), opt_chars(base)),
{
    let mut items: Vec<Vec<char>> = Vec::new();
    assert(views(items@) =~= Seq::<Seq<char>>::empty());
    push_present(&mut items, html, "a[href]", "href");
    push_present(&mut items, html, "img[src]", "src");
    push_present(&mut items, html, "link[href]", "href");
    push_present(&mut items, html, "script[src]", "src");
    assert(views(items@) =~= html_items(html@));
    resolve_items(&items, base)
}

/// A `--header` value split at its first `:` into a trimmed name and
/// value; `None` without a `:`.
pub open spec fn header_option(h: Seq<char>) -> Option<(Seq<char>, Seq<char>)> {
    match first_index(h, ':') {
        Some(i) => Some((trim(h.take(i)), trim(h.skip(i + 1)))),
        None => None,
    }
}

/// Split a `--header` value into name and value (see [`header_option`]).
pub fn parse_header_option(h: &str) -> (r: Option<(String, String)>)
    ensures
        match r {
            Some((k, v)) => header_option(h@) == Some((k@, v@)),
            None => header_option(h@) is None,
        },
{
    let c = chars_of(h);
    match index_of(c.as_slice(), ':') {
        Some(i) => {
            let k = trim_chars(&sub_vec(&c, 0, i));
            let v = trim_chars(&sub_vec(&c, i + 1, c.len()));
            assert(c@.take(i as int) =~= c@.subrange(0, i as int));
            assert(c@.skip(i + 1) =~= c@.subrange(i + 1, c@.len() as int));
            Some((string_of(k.as_slice()), string_of(v.as_slice())))
        },
        None => None,
    }
}

/// The optional text or the empty text.
pub open spec fn or_empty_text(s: Option<String>) -> Seq<char> {
    match s {
        Some(x) => x@,
        None => Seq::empty(),
    }
}

/// The credentials the options give: `--http-user` with `--http-password`
/// (empty when absent), else `--user` with `--password`; Basic auth.
pub open spec fn option_credentials(
    http_user: Option<String>,
    http_password: Option<String>,
    user: Option<String>,
    password: Option<String>,
) -> Option<AuthView> {
    match http_user {
        Some(u) => Some(AuthView { username: u@, password: or_empty_text(http_password), auth_type: AuthType::Basic }),
        None => match user {
            Some(u) => Some(AuthView { username: u@, password: or_empty_text(password), auth_type: AuthType::Basic }),
            None => None,
        },
    }
}

/// A copy of an optional string, empty when absent.
fn text_or_empty(s: &Option<String>) -> (r: String)
    ensures
        r@ == or_empty_text(*s),
{
    match s {
        Some(x) => string_of(chars_of(x.as_str()).as_slice()),
        None => string_of(Vec::<char>::new().as_slice()),
    }
}

/// The credentials the options give (see [`option_credentials`]).
pub fn credentials_from_options(args: &Args) -> (r: Option<AuthConfig>)
    ensures
        crate::netrc::auth_opt_view(r) == option_credentials(args.http_user, args.http_password, args.user, args.password),
{
    match &args.http_user {
        Some(u) => Some(AuthConfig {
            username: string_of(chars_of(u.as_str()).as_slice()),
            password: text_or_empty(&args.http_password),
            auth_type: AuthType::Basic,
        }),
        None => match &args.user {
            Some(u) => Some(AuthConfig {
                username: string_of(chars_of(u.as_str()).as_slice()),
                password: text_or_empty(&args.password),
                auth_type: AuthType::Basic,
            }),
            None => None,
        },
    }
}

/// The proxy credentials the options give: `--proxy-user` with
/// `--proxy-password` (empty when absent).
pub fn proxy_credentials(args: &Args) -> (r: Option<(String, String)>)
    ensures
        match r {
            Some((u, p)) => args.proxy_user matches Some(pu) && u@ == pu@ && p@ == or_empty_text(args.proxy_password),
            None => args.proxy_user is None,
        },
{
    match &args.proxy_user {
        Some(u) => Some((string_of(chars_of(u.as_str()).as_slice()), text_or_empty(&args.proxy_password))),
        None => None,
    }
}

/// The hosts of a `no_proxy` value: its comma-separated entries, trimmed,
/// the empty ones left out.
pub open spec fn no_proxy_entries(parts: Seq<Seq<char>>) -> Seq<Seq<char>>
    decreases parts.len(),
{
    if parts.len() == 0 {
        Seq::empty()
    } else {
        let rest = no_proxy_entries(parts.drop_last());
        let t = trim(parts.last());
        if t.len() == 0 {
            rest
        } else {
            rest.push(t)
        }
    }
}

/// Parse a `no_proxy` value (see [`no_proxy_entries`]).
pub fn no_proxy_list(value: &str) -> (r: Vec<String>)
    ensures
        string_views(r@) == no_proxy_entries(split_on(value@, ',')),
{
    let parts = split_chars(&chars_of(value), ',');
    let ghost ps = views(parts@);
    let mut out: Vec<String> = Vec::new();
    let mut i: usize = 0;
    assert(ps.take(0) =~= Seq::<Seq<char>>::empty());
    assert(string_views(out@) =~= Seq::<Seq<char>>::empty());
    while i < parts.len()
        invariant
            i <= parts.len(),
            ps == views(parts@),
            ps == split_on(value@, ','),
            string_views(out@) == no_proxy_entries(ps.take(i as int)),
        decreases parts.len() - i,
    {
        assert(ps.take(i + 1).drop_last() =~= ps.take(i as int));
        assert(ps.take(i + 1).last() == parts@[i as int]@);
        let t = trim_chars(&parts[i]);
        if t.len() > 0 {
            let ghost before = string_views(out@);
            let s = string_of(t.as_slice());
            out.push(s);
            assert(string_views(out@) =~= before.push(t@));
        }
        i += 1;
    }
    assert(ps.take(parts@.len() as int) =~= ps);
    out
}

/// The restrictions of a `--restrict-file-names` value, strictly: every
/// comma-separated mode, trimmed, must name one (case-insensitively); the
/// first that does not is an error naming it.
pub open spec fn strict_restrictions(parts: Seq<Seq<char>>) -> Result<Seq<FilenameRestriction>, Seq<char>>
    decreases parts.len(),
{
    if parts.len() == 0 {
        Ok(Seq::empty())
    } else {
        match strict_restrictions(parts.drop_last()) {
            Err(e) => Err(e),
            Ok(done) => {
                let m = trim(parts.last());
                match restriction_named(unicode_lowercase(m)) {
                    Some(r) => Ok(done.push(r)),
                    None => Err("Invalid filename restriction: "@ + m),
                }
            },
        }
    }
}

/// Once a mode fails, the list is that error.
proof fn lemma_strict_error(parts: Seq<Seq<char>>, k: int, e: Seq<char>)
    requires
        0 < k <= parts.len(),
        strict_restrictions(parts.take(k)) == Err::<Seq<FilenameRestriction>, Seq<char>>(e),
    ensures
        strict_restrictions(parts) == Err::<Seq<FilenameRestriction>, Seq<char>>(e),
    decreases parts.len() - k,
{
    if k < parts.len() {
        assert(parts.take(k + 1).drop_last() =~= parts.take(k));
        lemma_strict_error(parts, k + 1, e);
    } else {
        assert(parts.take(k) =~= parts);
    }
}

/// The view of a restriction list result.
pub open spec fn restrictions_result(r: Result<Vec<FilenameRestriction>, String>) -> Result<Seq<FilenameRestriction>, Seq<char>> {
    match r {
        Ok(v) => Ok(v@),
        Err(e) => Err(e@),
    }
}

/// Parse a `--restrict-file-names` value strictly (see
/// [`strict_restrictions`]).
pub fn parse_restrictions(value: &str) -> (r: Result<Vec<FilenameRestriction>, String>)
    ensures
        restrictions_result(r) == strict_restrictions(split_on(value@, ',')),
{
    let parts = split_chars(&chars_of(value), ',');
    let ghost ps = views(parts@);
    let mut out: Vec<FilenameRestriction> = Vec::new();
    let mut i: usize = 0;
    assert(ps.take(0) =~= Seq::<Seq<char>>::empty());
    while i < parts.len()
        invariant
            i <= parts.len(),
            ps == views(parts@),
            ps == split_on(value@, ','),
            strict_restrictions(ps.take(i as int)) == Ok::<Seq<FilenameRestriction>, Seq<char>>(out@),
        decreases parts.len() - i,
    {
        assert(ps.take(i + 1).drop_last() =~= ps.take(i as int));
        assert(ps.take(i + 1).last() == parts@[i as int]@);
        let m = trim_chars(&parts[i]);
        match FilenameRestriction::from_str(string_of(m.as_slice()).as_str()) {
            Some(r) => out.push(r),
            None => {
                let e = lit_chars("Invalid filename restriction: ", &m);
                proof {
                    lemma_strict_error(ps, i + 1, e@);
                }
                return Err(e);
            },
        }
        i += 1;
    }
    assert(ps.take(parts@.len() as int) =~= ps);
    Ok(out)
}

/// The method a `--method` value names (case-insensitively), or an error
/// naming the value.
pub open spec fn method_option(m: Seq<char>) -> Result<HttpMethod, Seq<char>> {
    match method_named(crate::text::unicode_uppercase(m)) {
        Some(x) => Ok(x),
        None => Err("Invalid HTTP method: "@ + m),
    }
}

/// Parse a `--method` value (see [`method_option`]).
pub fn parse_method(m: &str) -> (r: Result<HttpMethod, String>)
    ensures
        match r {
            Ok(x) => method_option(m@) == Ok::<HttpMethod, Seq<char>>(x),
            Err(e) => method_option(m@) == Err::<HttpMethod, Seq<char>>(e@),
        },
{
    match HttpMethod::from_str(m) {
        Some(x) => Ok(x),
        None => Err(crate::text::lit_plus("Invalid HTTP method: ", m)),
    }
}

/// The first value that is present, in order.
pub open spec fn first_present(vals: Seq<Option<String>>) -> Option<Seq<char>>
    decreases vals.len(),
{
    if vals.len() == 0 {
        None
    } else {
        match vals[0] {
            Some(v) => Some(v@),
            None => first_present(vals.drop_first()),
        }
    }
}

/// The first value that is present (see [`first_present`]).
fn first_present_of(vals: &Vec<Option<String>>) -> (r: Option<String>)
    ensures
        crate::urls::opt_str(r) == first_present(vals@),
{
    let mut i: usize = 0;
    assert(vals@.skip(0) =~= vals@);
    while i < vals.len()
        invariant
            i <= vals.len(),
            first_present(vals@.skip(i as int)) == first_present(vals@),
        decreases vals.len() - i,
    {
        assert(vals@.skip(i as int).drop_first() =~= vals@.skip(i + 1));
        assert(vals@.skip(i as int)[0] == vals@[i as int]);
        match &vals[i] {
            Some(v) => return Some(string_of(chars_of(v.as_str()).as_slice())),
            None => {},
        }
        i += 1;
    }
    assert(vals@.skip(i as int) =~= Seq::<Option<String>>::empty());
    None
}

/// The proxy settings of a run: unless `--no-proxy` is given, the first
/// proxy URL the environment gives (`proxy_env` holds `http_proxy`,
/// `https_proxy`, `HTTP_PROXY`, `HTTPS_PROXY` in that order), with the
/// `--proxy-user` credentials and the bypass list of the first `no_proxy`
/// value (`no_proxy_env` holds `no_proxy`, `NO_PROXY`), empty when none.
pub fn proxy_settings(args: &Args, proxy_env: &Vec<Option<String>>, no_proxy_env: &Vec<Option<String>>) -> (r: Option<ProxyConfig>)
    ensures
        match r {
            None => args.no_proxy || first_present(proxy_env@) is None,
            Some(p) => {
                &&& !args.no_proxy
                &&& first_present(proxy_env@) == Some(p.url@)
                &&& string_views(p.no_proxy@) == no_proxy_entries(split_on(
                    match first_present(no_proxy_env@) {
                        Some(v) => v,
                        None => Seq::empty(),
                    },
                    ',',
                ))
                &&& match p.auth {
                    Some((u, pw)) => args.proxy_user matches Some(pu) && u@ == pu@ && pw@ == or_empty_text(
                        args.proxy_password,
                    ),
                    None => args.proxy_user is None,
                }
            },
        },
{
    if args.no_proxy {
        return None;
    }
    let url = match first_present_of(proxy_env) {
        Some(u) => u,
        None => return None,
    };
    let bypass = match first_present_of(no_proxy_env) {
        Some(v) => no_proxy_list(v.as_str()),
        None => no_proxy_list(""),
    };
    proof {
        reveal_strlit("");
    }
    Some(ProxyConfig { url, auth: proxy_credentials(args), no_proxy: bypass })
}

/// Whether the download quota is used up: a quota is set and the bytes
/// downloaded so far reach it.
pub fn quota_reached(quota: Option<u64>, total_downloaded: u64) -> (r: bool)
    ensures
        r == (quota matches Some(q) && total_downloaded >= q),
{
    match quota {
        Some(q) => total_downloaded >= q,
        None => false,
    }
}

/// Whether a failed download is tried again: it failed with a status the
/// retry settings name, and attempts remain.
pub fn should_retry_status(status: Option<u16>, retry_on_status: &Vec<u16>, attempt: usize, max_tries: usize) -> (r: bool)
    ensures
        r == (status matches Some(st) && retry_on_status@.contains(st) && attempt < max_tries),
{
    let st = match status {
        Some(st) => st,
        None => return false,
    };
    if attempt >= max_tries {
        return false;
    }
    let mut i: usize = 0;
    while i < retry_on_status.len()
        invariant
            i <= retry_on_status.len(),
            status == Some(st),
            attempt < max_tries,
            forall|j: int| 0 <= j < i ==> retry_on_status@[j] != st,
        decreases retry_on_status.len() - i,
    {
        if retry_on_status[i] == st {
            assert(retry_on_status@[i as int] == st);
            assert(retry_on_status@.contains(st));
            return true;
        }
        i += 1;
    }
    false
}

/// Where a request's body comes from.
#[derive(Debug, Clone, Copy, PartialEq, Eq, Structural)]
pub enum BodySource {
    /// No body
    NoBody,
    /// The text of `--post-data`
    PostData,
    /// The contents of `--post-file`
    PostFile,
    /// The text of `--body-data`
    BodyData,
    /// The contents of `--body-file`
    BodyFile,
}

/// The request body the options choose: `--body-data`, else `--body-file`,
/// else `--post-data`, else `--post-file`; and whether the method becomes
/// POST (when `--post-data` or `--post-file` is given).
pub open spec fn body_choice(args: Args) -> (bool, BodySource) {
    let post = args.post_data is Some || args.post_file is Some;
    let source = if args.body_data is Some {
        BodySource::BodyData
    } else if args.body_file is Some {
        BodySource::BodyFile
    } else if args.post_data is Some {
        BodySource::PostData
    } else if args.post_file is Some {
        BodySource::PostFile
    } else {
        BodySource::NoBody
    };
    (post, source)
}

/// Choose the request body and whether the method becomes POST (see
/// [`body_choice`]).
pub fn request_body(args: &Args) -> (r: (bool, BodySource))
    ensures
        r == body_choice(*args),
{
    let post = args.post_data.is_some() || args.post_file.is_some();
    let source = if args.body_data.is_some() {
        BodySource::BodyData
    } else if args.body_file.is_some() {
        BodySource::BodyFile
    } else if args.post_data.is_some() {
        BodySource::PostData
    } else if args.post_file.is_some() {
        BodySource::PostFile
    } else {
        BodySource::NoBody
    };
    (post, source)
}

/// The parallel settings of a run: `--no-parallel` turns chunked downloads
/// off (one connection, no size threshold, so no metadata request);
/// otherwise the given chunk count and threshold stay.
pub fn parallel_settings(no_parallel: bool, chunks: usize, threshold: u64) -> (r: (usize, u64))
    ensures
        r == if no_parallel {
            (1usize, 0u64)
        } else {
            (chunks, threshold)
        },
{
    if no_parallel {
        (1, 0)
    } else {
        (chunks, threshold)
    }
}

/// The host, port and file name of a download: the URL's host (`unknown`
/// when it has none), its port (that of the scheme when none is given:
/// 443 for `https`, else 80), and the file name chosen from its path (see
/// [`chosen_filename`]); the parse error's text when the URL does not parse.
pub fn download_target(
    url: &str,
    use_disposition: bool,
    disposition: Option<&str>,
    restrict: Option<&str>,
) -> (r: Result<(String, u16, String), crate::error::Error>)
    ensures
        match url_parse(url@) {
            Ok(u) => r matches Ok((host, port, name)) && host@ == (match u.host {
                Some(h) => h,
                None => "unknown"@,
            }) && port == (match u.port {
                Some(p) => p,
                None => if u.scheme == "https"@ {
                    443u16
                } else {
                    80u16
                },
            }) && name@ == chosen_filename(u.path, use_disposition, opt_chars(disposition), opt_chars(restrict)),
            Err(e) => r matches Err(crate::error::Error::InvalidUrl(m)) && m@ == e,
        },
{
    let p = match crate::urls::parse_url(url) {
        Ok(p) => p,
        Err(e) => return Err(crate::error::Error::InvalidUrl(e)),
    };
    let host = match &p.host {
        Some(h) => string_of(chars_of(h.as_str()).as_slice()),
        None => crate::text::lit_only("unknown"),
    };
    let port = crate::messages::display_port(p.scheme.as_str(), p.port);
    let name = choose_filename(p.path.as_str(), use_disposition, disposition, restrict);
    Ok((host, port, name))
}

/// Whether responses are asked for compressed: unless `--compression` is
/// `none`.
pub fn compression_enabled(compression: Option<&str>) -> (r: bool)
    ensures
        r == !(opt_chars(compression) == Some("none"@)),
{
    match compression {
        Some(c) => !eq_lit(chars_of(c).as_slice(), "none"),
        None => true,
    }
}

/// Whether a run is verbose: `--verbose`, or any `--debug`.
pub fn verbose_mode(verbose: bool, debug: u8) -> (r: bool)
    ensures
        r == (verbose || debug > 0),
{
    verbose || debug > 0
}

} // verus!
