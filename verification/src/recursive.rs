//! Recursive download: the configuration, which URLs are followed, where
//! they are saved, how links are found in a page, and the rejection log.
use vstd::prelude::*;
use std::collections::VecDeque;
use crate::error::Error;
use crate::html::{has_meta_robots_nofollow, html_select, lits, meta_nofollow, select_attrs, table_view};
use crate::paths::{extension_chars, path_extension, last_index, last_index_of, pushed, push_piece};
use crate::robots::{robots_allows, RobotsTxt};
use crate::text::{
    append_chars, chars_of, contains_chars, decimal, decimal_chars, eq_chars, eq_lit, ends_with,
    has_infix, has_prefix, has_suffix, lit_chars, lit_only, lower_chars, push_str, starts_with,
    split_chars, split_on, split_words, string_of, sub_slice, unicode_lowercase, views, words, join,
    join_chars,
};
use crate::urls::{
    colon_encoded, encode_with_colon, file_name_of, join_url, last_segment_of, parse_url, path_segments, segments_of, url_join,
    url_parse, UrlView,
};

verus! {

/// A file-system path, carried through unread.
#[verifier::external_type_specification]
#[verifier::external_body]
pub struct ExPathBuf(std::path::PathBuf);

/// Configuration for recursive downloads.
#[derive(Debug, Clone)]
pub struct RecursiveConfig {
    /// Maximum recursion depth (0 = infinite)
    pub max_depth: usize,
    /// Follow links across domains
    pub span_hosts: bool,
    /// Only follow relative links
    pub relative_only: bool,
    /// Convert links for local viewing
    pub convert_links: bool,
    /// Backup original files before converting (with -K flag)
    pub backup_converted: bool,
    /// Adjust file extensions (.html for HTML/CSS files) - used with -E flag
    pub adjust_extension: bool,
    /// Download page requisites (images, CSS, JS)
    pub page_requisites: bool,
    /// Accepted file extensions (empty = all)
    pub accept_extensions: Vec<String>,
    /// Rejected file extensions
    pub reject_extensions: Vec<String>,
    /// Accepted domains
    pub accepted_domains: Vec<String>,
    /// Rejected domains
    pub rejected_domains: Vec<String>,
    /// Include directories (path patterns)
    pub include_directories: Vec<String>,
    /// Exclude directories (path patterns)
    pub exclude_directories: Vec<String>,
    /// Don't ascend to parent directory
    pub no_parent: bool,
    /// Don't create hostname directories
    pub no_host_directories: bool,
    /// Spider mode - only check links, don't download files
    pub spider: bool,
    /// Log rejected URLs to a file
    pub rejected_log: Option<std::path::PathBuf>,
    /// Don't create directories (save all files in output directory)
    pub no_directories: bool,
}

impl Default for RecursiveConfig {
    fn default() -> (r: Self)
        ensures
            r.max_depth == 5,
            !r.span_hosts && !r.relative_only && !r.convert_links && !r.backup_converted,
            !r.adjust_extension && !r.page_requisites,
            r.accept_extensions@.len() == 0 && r.reject_extensions@.len() == 0,
            r.accepted_domains@.len() == 0 && r.rejected_domains@.len() == 0,
            r.include_directories@.len() == 0 && r.exclude_directories@.len() == 0,
            !r.no_parent && !r.no_host_directories && !r.spider && !r.no_directories,
            r.rejected_log is None,
    {
        RecursiveConfig {
            max_depth: 5,
            span_hosts: false,
            relative_only: false,
            convert_links: false,
            backup_converted: false,
            adjust_extension: false,
            page_requisites: false,
            accept_extensions: Vec::new(),
            reject_extensions: Vec::new(),
            accepted_domains: Vec::new(),
            rejected_domains: Vec::new(),
            include_directories: Vec::new(),
            exclude_directories: Vec::new(),
            no_parent: false,
            no_host_directories: false,
            spider: false,
            rejected_log: None,
            no_directories: false,
        }
    }
}

/// The character sequences of a list of strings.
pub open spec fn strs(v: Seq<String>) -> Seq<Seq<char>> {
    v.map_values(|s: String| s@)
}

/// Some pattern of the list occurs in `hay` (`str::contains`).
pub open spec fn infix_of_any(hay: Seq<char>, pats: Seq<Seq<char>>) -> bool {
    exists|i: int| 0 <= i < pats.len() && has_infix(hay, #[trigger] pats[i])
}

/// Whether some pattern of the list occurs in `hay`.
pub fn contains_any(hay: &[char], pats: &Vec<String>) -> (r: bool)
    ensures
        r == infix_of_any(hay@, strs(pats@)),
{
    let mut i: usize = 0;
    while i < pats.len()
        invariant
            i <= pats.len(),
            forall|j: int| 0 <= j < i ==> !has_infix(hay@, #[trigger] strs(pats@)[j]),
        decreases pats.len() - i,
    {
        let p = chars_of(pats[i].as_str());
        assert(strs(pats@)[i as int] == pats@[i as int]@);
        if contains_chars(hay, p.as_slice()) {
            return true;
        }
        i += 1;
    }
    false
}

/// Whether the list holds exactly the characters `x`.
pub fn list_contains(pats: &Vec<String>, x: &[char]) -> (r: bool)
    ensures
        r == strs(pats@).contains(x@),
{
    let mut i: usize = 0;
    while i < pats.len()
        invariant
            i <= pats.len(),
            forall|j: int| 0 <= j < i ==> strs(pats@)[j] != x@,
        decreases pats.len() - i,
    {
        let p = chars_of(pats[i].as_str());
        assert(strs(pats@)[i as int] == pats@[i as int]@);
        if eq_chars(p.as_slice(), x) {
            return true;
        }
        i += 1;
    }
    false
}

/// The directory part of a URL path: the path itself when it ends with
/// `/`, else everything up to and including its last `/`, else `/`.
pub open spec fn dir_of(path: Seq<char>) -> Seq<char> {
    if has_suffix(path, seq!['/']) {
        path
    } else {
        match last_index_of(path, '/') {
            Some(pos) => path.take(pos + 1),
            None => seq!['/'],
        }
    }
}

/// The directory part of a URL path, as [`dir_of`] states.
pub fn dir_chars(path: &Vec<char>) -> (r: Vec<char>)
    ensures
        r@ == dir_of(path@),
{
    let slash = vec!['/'];
    assert(slash@ =~= seq!['/']);
    if ends_with(path.as_slice(), slash.as_slice()) {
        return path.clone();
    }
    match last_index(path.as_slice(), '/') {
        Some(pos) => {
            let d = sub_slice(path.as_slice(), 0, pos + 1);
            assert(d@ =~= path@.take(pos + 1));
            d
        },
        None => slash,
    }
}

/// The reason texts of the URL filter.
pub open spec fn reason_non_https() -> Seq<char> {
    "Non-HTTPS URL rejected (HTTPS-only mode)"@
}

/// Rejected by robots.txt.
pub open spec fn reason_robots() -> Seq<char> {
    "Rejected by robots.txt rules"@
}

/// Ascends to the parent directory.
pub open spec fn reason_parent() -> Seq<char> {
    "Ascends to parent directory (no-parent mode)"@
}

/// What the URL filter decides once the URL has parsed with a host and
/// the HTTPS and robots.txt checks have passed: `Ok(None)` to download,
/// `Ok(Some(reason))` to reject, `Err(message)` for a configuration error.
pub open spec fn later_checks(
    cfg: RecursiveConfig,
    p: UrlView,
    host: Seq<char>,
    depth: nat,
    base_url: Option<Seq<char>>,
) -> Result<Option<Seq<char>>, Seq<char>> {
    let base = match base_url {
        Some(b) => Some(url_parse(b)),
        None => None,
    };
    let ext = path_extension(p.path);
    let other_host = match base {
        Some(Ok(bp)) => bp.host != p.host,
        _ => false,
    };
    let base_error: Option<Seq<char>> = match base {
        Some(Err(e)) => Some(e),
        _ => None,
    };
    let ascends = match base {
        Some(Ok(bp)) => bp.host == p.host && !has_prefix(p.path, dir_of(bp.path)),
        _ => false,
    };
    if !cfg.span_hosts && depth > 0 && other_host {
        Ok(Some("Domain not in accepted list: "@ + host))
    } else if strs(cfg.accepted_domains@).len() > 0 && !infix_of_any(host, strs(cfg.accepted_domains@)) {
        Ok(Some("Domain not in accepted list: "@ + host))
    } else if infix_of_any(host, strs(cfg.rejected_domains@)) {
        Ok(Some("Domain in rejected list: "@ + host))
    } else if ext is Some && strs(cfg.accept_extensions@).len() > 0
        && !strs(cfg.accept_extensions@).contains(unicode_lowercase(ext->0)) {
        Ok(Some("Extension not in accepted list: "@ + unicode_lowercase(ext->0)))
    } else if ext is Some && strs(cfg.reject_extensions@).contains(unicode_lowercase(ext->0)) {
        Ok(Some("Extension in rejected list: "@ + unicode_lowercase(ext->0)))
    } else if strs(cfg.include_directories@).len() > 0 && !infix_of_any(p.path, strs(cfg.include_directories@)) {
        Ok(Some("Directory not in include list: "@ + p.path))
    } else if infix_of_any(p.path, strs(cfg.exclude_directories@)) {
        Ok(Some("Directory in exclude list: "@ + p.path))
    } else if cfg.no_parent && base_error is Some {
        Err("Invalid base URL: "@ + base_error->0)
    } else if cfg.no_parent && ascends {
        Ok(Some(reason_parent()))
    } else {
        Ok(None)
    }
}

/// What the URL filter decides for `url` found at `depth` (0 for the
/// starting URL), with the crawl's starting URL `base_url` and the
/// robots.txt rules of the URL's host (`None` when there are none):
/// an unparsable URL or one without a host is a configuration error;
/// with `https_only`, a non-HTTPS link is rejected; a link that robots.txt
/// disallows for `user_agent` is rejected; then the host, extension,
/// directory and parent checks of [`later_checks`] decide.
pub open spec fn url_verdict(
    cfg: RecursiveConfig,
    https_only: bool,
    user_agent: Seq<char>,
    url: Seq<char>,
    depth: nat,
    base_url: Option<Seq<char>>,
    robots: Option<Map<Seq<char>, Seq<crate::robots::RuleView>>>,
) -> Result<Option<Seq<char>>, Seq<char>> {
    match url_parse(url) {
        Err(e) => Err("Invalid URL: "@ + e),
        Ok(p) => if https_only && depth > 0 && p.scheme != "https"@ {
            Ok(Some(reason_non_https()))
        } else {
            match p.host {
                None => Err("URL has no host"@),
                Some(h) => if depth > 0 && (match robots {
                    Some(rules) => !robots_allows(rules, p.path, user_agent),
                    None => false,
                }) {
                    Ok(Some(reason_robots()))
                } else {
                    later_checks(cfg, p, h, depth, base_url)
                },
            }
        },
    }
}

/// The view of a filter decision.
pub open spec fn verdict_view(r: Result<Option<String>, Error>) -> Result<Option<Seq<char>>, Seq<char>> {
    match r {
        Ok(Some(s)) => Ok(Some(s@)),
        Ok(None) => Ok(None),
        Err(Error::ConfigError(m)) => Err(m@),
        Err(_) => Err(Seq::empty()),
    }
}

/// The view of optional robots.txt rules.
pub open spec fn robots_view(r: Option<&RobotsTxt>) -> Option<Map<Seq<char>, Seq<crate::robots::RuleView>>> {
    match r {
        Some(x) => Some(x@),
        None => None,
    }
}

/// The view of an optional string.
pub open spec fn opt_chars(s: Option<&str>) -> Option<Seq<char>> {
    match s {
        Some(x) => Some(x@),
        None => None,
    }
}

/// The checks that follow the HTTPS and robots.txt checks.
fn later_checks_exec(
    cfg: &RecursiveConfig,
    p: &crate::urls::ParsedUrl,
    host: &str,
    depth: usize,
    base_url: Option<&str>,
) -> (r: Result<Option<String>, Error>)
    ensures
        verdict_view(r) == later_checks(*cfg, p@, host@, depth as nat, opt_chars(base_url)),
        r matches Err(e) ==> e is ConfigError,
{
    let base = match base_url {
        Some(b) => Some(parse_url(b)),
        None => None,
    };
    let host_chars = chars_of(host);
    let path_chars = chars_of(p.path.as_str());
    let ext = extension_chars(&path_chars);
    if !cfg.span_hosts && depth > 0 {
        if let Some(Ok(bp)) = &base {
            if !opt_string_eq(&bp.host, &p.host) {
                return Ok(Some(lit_chars("Domain not in accepted list: ", &host_chars)));
            }
        }
    }
    if cfg.accepted_domains.len() > 0 && !contains_any(host_chars.as_slice(), &cfg.accepted_domains) {
        return Ok(Some(lit_chars("Domain not in accepted list: ", &host_chars)));
    }
    if contains_any(host_chars.as_slice(), &cfg.rejected_domains) {
        return Ok(Some(lit_chars("Domain in rejected list: ", &host_chars)));
    }
    if let Some(e) = &ext {
        let le = lower_chars(e);
        if cfg.accept_extensions.len() > 0 && !list_contains(&cfg.accept_extensions, le.as_slice()) {
            return Ok(Some(lit_chars("Extension not in accepted list: ", &le)));
        }
        if list_contains(&cfg.reject_extensions, le.as_slice()) {
            return Ok(Some(lit_chars("Extension in rejected list: ", &le)));
        }
    }
    if cfg.include_directories.len() > 0 && !contains_any(path_chars.as_slice(), &cfg.include_directories) {
        return Ok(Some(lit_chars("Directory not in include list: ", &path_chars)));
    }
    if contains_any(path_chars.as_slice(), &cfg.exclude_directories) {
        return Ok(Some(lit_chars("Directory in exclude list: ", &path_chars)));
    }
    if cfg.no_parent {
        match &base {
            Some(Err(e)) => {
                let m = chars_of(e.as_str());
                return Err(Error::ConfigError(lit_chars("Invalid base URL: ", &m)));
            },
            Some(Ok(bp)) => {
                if opt_string_eq(&bp.host, &p.host) {
                    let d = dir_chars(&chars_of(bp.path.as_str()));
                    if !starts_with(path_chars.as_slice(), d.as_slice()) {
                        return Ok(Some(lit_only("Ascends to parent directory (no-parent mode)")));
                    }
                }
            },
            None => {},
        }
    }
    Ok(None)
}

/// Whether two optional strings are equal.
pub fn opt_string_eq(a: &Option<String>, b: &Option<String>) -> (r: bool)
    ensures
        r == (crate::urls::opt_str(*a) == crate::urls::opt_str(*b)),
{
    match (a, b) {
        (Some(x), Some(y)) => {
            let xs = chars_of(x.as_str());
            let ys = chars_of(y.as_str());
            eq_chars(xs.as_slice(), ys.as_slice())
        },
        (None, None) => true,
        _ => false,
    }
}

/// Decide whether a URL found during a recursive download is followed
/// (see [`url_verdict`]): `Ok(None)` to download it, `Ok(Some(reason))`
/// to reject it with the reason that the rejection log records.
pub fn url_filter(
    cfg: &RecursiveConfig,
    https_only: bool,
    user_agent: &str,
    url: &str,
    depth: usize,
    base_url: Option<&str>,
    robots: Option<&RobotsTxt>,
) -> (r: Result<Option<String>, Error>)
    ensures
        verdict_view(r) == url_verdict(*cfg, https_only, user_agent@, url@, depth as nat, opt_chars(base_url), robots_view(robots)),
        r matches Err(e) ==> e is ConfigError,
{
    let p = match parse_url(url) {
        Ok(p) => p,
        Err(e) => {
            let m = chars_of(e.as_str());
            return Err(Error::ConfigError(lit_chars("Invalid URL: ", &m)));
        },
    };
    if https_only && depth > 0 {
        let scheme = chars_of(p.scheme.as_str());
        let https = chars_of("https");
        if !eq_chars(scheme.as_slice(), https.as_slice()) {
            return Ok(Some(lit_only("Non-HTTPS URL rejected (HTTPS-only mode)")));
        }
    }
    let host = match &p.host {
        Some(h) => h,
        None => return Err(Error::ConfigError(lit_only("URL has no host"))),
    };
    if depth > 0 {
        if let Some(rules) = robots {
            if !rules.is_allowed(p.path.as_str(), user_agent) {
                return Ok(Some(lit_only("Rejected by robots.txt rules")));
            }
        }
    }
    later_checks_exec(cfg, &p, host.as_str(), depth, base_url)
}

/// `scheme://host[:port]`, the origin of a URL.
pub open spec fn origin(scheme: Seq<char>, host: Seq<char>, port: Option<u16>) -> Seq<char> {
    scheme + "://"@ + host + match port {
        Some(n) => ":"@ + decimal(n as nat),
        None => Seq::empty(),
    }
}

/// When the URL filter needs the robots.txt rules of a URL's host (a link,
/// not the starting URL, that parses, passes the HTTPS check and has a
/// host): the key they are cached under, the origin, and where they are
/// fetched from, the origin followed by `/robots.txt`.
pub open spec fn robots_source_of(https_only: bool, url: Seq<char>, depth: nat) -> Option<(Seq<char>, Seq<char>)> {
    if depth == 0 {
        None
    } else {
        match url_parse(url) {
            Err(_) => None,
            Ok(p) => if https_only && p.scheme != "https"@ {
                None
            } else {
                match p.host {
                    None => None,
                    Some(h) => Some((origin(p.scheme, h, p.port), origin(p.scheme, h, p.port) + "/robots.txt"@)),
                }
            },
        }
    }
}

/// The view of an optional pair of strings.
pub open spec fn pair_view(r: Option<(String, String)>) -> Option<(Seq<char>, Seq<char>)> {
    match r {
        Some((a, b)) => Some((a@, b@)),
        None => None,
    }
}

/// Whether, and from where, the URL filter needs robots.txt rules for a
/// URL (see [`robots_source_of`]): the cache key and the robots.txt URL.
pub fn robots_source(https_only: bool, url: &str, depth: usize) -> (r: Option<(String, String)>)
    ensures
        pair_view(r) == robots_source_of(https_only, url@, depth as nat),
{
    if depth == 0 {
        return None;
    }
    let p = match parse_url(url) {
        Ok(p) => p,
        Err(_) => return None,
    };
    if https_only {
        let scheme = chars_of(p.scheme.as_str());
        if !eq_lit(scheme.as_slice(), "https") {
            return None;
        }
    }
    let host = match &p.host {
        Some(h) => h,
        None => return None,
    };
    let mut key = chars_of(p.scheme.as_str());
    push_str(&mut key, "://");
    push_str(&mut key, host.as_str());
    if let Some(n) = p.port {
        push_str(&mut key, ":");
        append_chars(&mut key, &decimal_chars(n as u64));
    }
    assert(key@ =~= origin(p@.scheme, p@.host->0, p@.port));
    let mut loc = key.clone();
    push_str(&mut loc, "/robots.txt");
    Some((string_of(key.as_slice()), string_of(loc.as_slice())))
}

/// A path with each non-empty segment pushed in turn.
pub open spec fn push_all(p: Seq<char>, segs: Seq<Seq<char>>) -> Seq<char>
    decreases segs.len(),
{
    if segs.len() == 0 {
        p
    } else if segs.last().len() == 0 {
        push_all(p, segs.drop_last())
    } else {
        pushed(push_all(p, segs.drop_last()), segs.last())
    }
}

/// Where a parsed URL is saved under `output_dir`, before the directory
/// and extension adjustments: with `no_directories`, the URL's file name
/// (`index.html` when it has none); otherwise the host (unless
/// `no_host_directories`) and then each non-empty path segment.
pub open spec fn save_path(cfg: RecursiveConfig, p: UrlView, output_dir: Seq<char>) -> Seq<char> {
    if cfg.no_directories {
        pushed(output_dir, file_name_of(p.path))
    } else {
        let d = if !cfg.no_host_directories && p.host is Some {
            pushed(output_dir, p.host->0)
        } else {
            output_dir
        };
        match path_segments(p.path) {
            Some(segs) => push_all(d, segs),
            None => d,
        }
    }
}

/// The save path of a URL (see [`save_path`]), or the URL's parse error.
pub open spec fn base_local_path(cfg: RecursiveConfig, url: Seq<char>, output_dir: Seq<char>) -> Result<Seq<char>, Seq<char>> {
    match url_parse(url) {
        Err(e) => Err("Invalid URL: "@ + e),
        Ok(p) => Ok(save_path(cfg, p, output_dir)),
    }
}

/// The view of a path result.
pub open spec fn path_result(r: Result<String, Error>) -> Result<Seq<char>, Seq<char>> {
    match r {
        Ok(s) => Ok(s@),
        Err(Error::ConfigError(m)) => Err(m@),
        Err(_) => Err(Seq::empty()),
    }
}

/// Where a URL is saved under `output_dir`, before the directory and
/// extension adjustments of [`finish_local_path`] (see [`save_path`]).
pub fn base_path_for(cfg: &RecursiveConfig, url: &str, output_dir: &str) -> (r: Result<String, Error>)
    ensures
        path_result(r) == base_local_path(*cfg, url@, output_dir@),
        r matches Err(e) ==> e is ConfigError,
{
    let p = match parse_url(url) {
        Ok(p) => p,
        Err(e) => {
            let m = chars_of(e.as_str());
            return Err(Error::ConfigError(lit_chars("Invalid URL: ", &m)));
        },
    };
    let mut path = chars_of(output_dir);
    if cfg.no_directories {
        let name = match last_segment_of(p.path.as_str()) {
            Some(n) => n,
            None => {
                let d = chars_of("index.html");
                d
            },
        };
        assert(name@ == file_name_of(p@.path));
        push_piece(&mut path, &name);
    } else {
        if !cfg.no_host_directories {
            if let Some(h) = &p.host {
                push_piece(&mut path, &chars_of(h.as_str()));
            }
        }
        let ghost d = path@;
        match segments_of(p.path.as_str()) {
            Some(segs) => {
                let mut i: usize = 0;
                assert(crate::text::views(segs@).take(0) =~= Seq::<Seq<char>>::empty());
                while i < segs.len()
                    invariant
                        i <= segs.len(),
                        path@ == push_all(d, crate::text::views(segs@).take(i as int)),
                    decreases segs.len() - i,
                {
                    let ghost vs = crate::text::views(segs@);
                    assert(vs.take(i + 1).drop_last() =~= vs.take(i as int));
                    assert(vs.take(i + 1).last() == segs@[i as int]@);
                    if segs[i].len() > 0 {
                        push_piece(&mut path, &segs[i]);
                    }
                    i += 1;
                }
                assert(crate::text::views(segs@).take(segs@.len() as int) =~= crate::text::views(segs@));
            },
            None => {},
        }
    }
    Ok(string_of(path.as_slice()))
}

/// The path without trailing `/` and `.` pieces: what is left up to the
/// end of its file name.
pub open spec fn trim_tail(p: Seq<char>) -> Seq<char>
    decreases p.len(),
{
    if p.len() > 0 && p.last() == '/' {
        trim_tail(p.drop_last())
    } else if p == seq!['.'] || (p.len() >= 2 && p.last() == '.' && p[p.len() - 2] == '/') {
        trim_tail(p.drop_last())
    } else {
        p
    }
}

/// Extensions of server-side scripts, which `-E` gives an `.html` suffix.
pub open spec fn script_extension(e: Seq<char>) -> bool {
    e == "php"@ || e == "asp"@ || e == "aspx"@ || e == "jsp"@ || e == "cgi"@ || e == "pl"@
        || e == "py"@ || e == "rb"@
}

/// The final local path: `index.html` pushed when the save path is an
/// existing directory or the URL ends with `/`; then, with
/// `adjust_extension`, `.html` appended after the file name when its
/// extension is a server-side script's.
pub open spec fn final_local_path(cfg: RecursiveConfig, url: Seq<char>, base: Seq<char>, is_dir: bool) -> Seq<char> {
    let p2 = if is_dir || has_suffix(url, seq!['/']) {
        pushed(base, "index.html"@)
    } else {
        base
    };
    let ext = path_extension(p2);
    if cfg.adjust_extension && ext is Some && script_extension(ext->0) {
        trim_tail(p2) + ".html"@
    } else {
        p2
    }
}

/// The path without trailing `/` and `.` pieces, as [`trim_tail`] states.
pub fn trim_tail_chars(p: &Vec<char>) -> (r: Vec<char>)
    ensures
        r@ == trim_tail(p@),
{
    let mut n: usize = p.len();
    assert(p@.take(n as int) =~= p@);
    while n > 0
        invariant
            n <= p.len(),
            trim_tail(p@) == trim_tail(p@.take(n as int)),
        decreases n,
    {
        let ghost q = p@.take(n as int);
        assert(q.last() == p@[n - 1]);
        assert(q.drop_last() =~= p@.take(n - 1));
        if p[n - 1] == '/' {
            n -= 1;
        } else if p[n - 1] == '.' && (n == 1 || p[n - 2] == '/') {
            proof {
                if n == 1 {
                    assert(q =~= seq!['.']);
                } else {
                    assert(q[q.len() - 2] == p@[n - 2]);
                }
            }
            n -= 1;
        } else {
            proof {
                if n >= 2 {
                    assert(q[q.len() - 2] == p@[n - 2]);
                }
                if q == seq!['.'] {
                    assert(q[0] == p@[0]);
                }
            }
            return sub_slice(p.as_slice(), 0, n);
        }
    }
    assert(p@.take(0) =~= Seq::<char>::empty());
    Vec::new()
}

/// Whether an extension is a server-side script's.
fn is_script_extension(e: &Vec<char>) -> (r: bool)
    ensures
        r == script_extension(e@),
{
    eq_lit(e.as_slice(), "php") || eq_lit(e.as_slice(), "asp") || eq_lit(e.as_slice(), "aspx")
        || eq_lit(e.as_slice(), "jsp") || eq_lit(e.as_slice(), "cgi") || eq_lit(e.as_slice(), "pl")
        || eq_lit(e.as_slice(), "py") || eq_lit(e.as_slice(), "rb")
}

/// The final local path of a URL from its save path (see
/// [`final_local_path`]); `is_dir` tells whether the save path is an
/// existing directory.
pub fn finish_local_path(cfg: &RecursiveConfig, url: &str, base: &str, is_dir: bool) -> (r: String)
    ensures
        r@ == final_local_path(*cfg, url@, base@, is_dir),
{
    let url_chars = chars_of(url);
    let slash = vec!['/'];
    assert(slash@ =~= seq!['/']);
    let mut p = chars_of(base);
    if is_dir || ends_with(url_chars.as_slice(), slash.as_slice()) {
        let index = chars_of("index.html");
        push_piece(&mut p, &index);
    }
    if cfg.adjust_extension {
        if let Some(e) = extension_chars(&p) {
            if is_script_extension(&e) {
                let mut t = trim_tail_chars(&p);
                push_str(&mut t, ".html");
                return string_of(t.as_slice());
            }
        }
    }
    string_of(p.as_slice())
}

/// Whether a path names an HTML file by its extension (`html`, `htm` or
/// `xhtml`, in any case).
pub open spec fn html_path(p: Seq<char>) -> bool {
    match path_extension(p) {
        Some(e) => {
            let l = unicode_lowercase(e);
            l == "html"@ || l == "htm"@ || l == "xhtml"@
        },
        None => false,
    }
}

/// Check if file is HTML, by its extension (see [`html_path`]).
pub fn is_html_file(path: &str) -> (r: bool)
    ensures
        r == html_path(path@),
{
    match extension_chars(&chars_of(path)) {
        Some(e) => {
            let l = lower_chars(&e);
            eq_lit(l.as_slice(), "html") || eq_lit(l.as_slice(), "htm") || eq_lit(l.as_slice(), "xhtml")
        },
        None => false,
    }
}

/// What a URL's ending says of its content: HTML for `.html`, `.htm` or a
/// final `/`; not HTML for the listed image, style, script and archive
/// endings; nothing otherwise.
pub open spec fn html_by_ending(url: Seq<char>) -> Option<bool> {
    if has_suffix(url, ".html"@) || has_suffix(url, ".htm"@) || has_suffix(url, "/"@) {
        Some(true)
    } else if has_suffix(url, ".jpg"@) || has_suffix(url, ".jpeg"@) || has_suffix(url, ".png"@)
        || has_suffix(url, ".gif"@) || has_suffix(url, ".webp"@) || has_suffix(url, ".css"@)
        || has_suffix(url, ".js"@) || has_suffix(url, ".ico"@) || has_suffix(url, ".pdf"@)
        || has_suffix(url, ".zip"@) || has_suffix(url, ".tar"@) || has_suffix(url, ".gz"@) {
        Some(false)
    } else {
        None
    }
}

/// Whether `s` ends with the literal.
fn ends_with_lit(s: &Vec<char>, lit: &str) -> (r: bool)
    ensures
        r == has_suffix(s@, lit@),
{
    let l = chars_of(lit);
    ends_with(s.as_slice(), l.as_slice())
}

/// Whether a URL's ending tells if it is HTML (see [`html_by_ending`]);
/// `None` when only its content type can tell.
pub fn html_by_url(url: &str) -> (r: Option<bool>)
    ensures
        r == html_by_ending(url@),
{
    let u = chars_of(url);
    if ends_with_lit(&u, ".html") || ends_with_lit(&u, ".htm") || ends_with_lit(&u, "/") {
        Some(true)
    } else if ends_with_lit(&u, ".jpg") || ends_with_lit(&u, ".jpeg") || ends_with_lit(&u, ".png")
        || ends_with_lit(&u, ".gif") || ends_with_lit(&u, ".webp") || ends_with_lit(&u, ".css")
        || ends_with_lit(&u, ".js") || ends_with_lit(&u, ".ico") || ends_with_lit(&u, ".pdf")
        || ends_with_lit(&u, ".zip") || ends_with_lit(&u, ".tar") || ends_with_lit(&u, ".gz") {
        Some(false)
    } else {
        None
    }
}

/// Whether a response with this content type is HTML: it names
/// `text/html`; with no content type, or no response, it is taken as HTML.
pub fn content_type_is_html(content_type: Option<&str>) -> (r: bool)
    ensures
        r == match content_type {
            Some(ct) => has_infix(ct@, "text/html"@),
            None => true,
        },
{
    match content_type {
        Some(ct) => {
            let c = chars_of(ct);
            let h = chars_of("text/html");
            contains_chars(c.as_slice(), h.as_slice())
        },
        None => true,
    }
}

/// How a link is resolved against the page it was found on: an error when
/// the page URL does not parse, for `data:` and `javascript:` links, and
/// when the join fails; otherwise the joined URL.
pub open spec fn resolved(base: Seq<char>, relative: Seq<char>) -> Result<Seq<char>, Seq<char>> {
    match url_parse(base) {
        Err(e) => Err("Invalid base URL: "@ + e),
        Ok(_) => if has_prefix(relative, "data:"@) || has_prefix(relative, "javascript:"@) {
            Err("Skipping non-HTTP URL"@)
        } else {
            match url_join(base, relative) {
                Ok(a) => Ok(a),
                Err(e) => Err("Failed to resolve URL: "@ + e),
            }
        },
    }
}

/// Resolve relative URL to absolute (see [`resolved`]).
pub fn resolve_url(base: &str, relative: &str) -> (r: Result<String, Error>)
    ensures
        path_result(r) == resolved(base@, relative@),
        r matches Err(e) ==> e is ConfigError,
{
    match parse_url(base) {
        Err(e) => {
            let m = chars_of(e.as_str());
            return Err(Error::ConfigError(lit_chars("Invalid base URL: ", &m)));
        },
        Ok(_) => {},
    }
    let rel = chars_of(relative);
    let data = chars_of("data:");
    let js = chars_of("javascript:");
    if starts_with(rel.as_slice(), data.as_slice()) || starts_with(rel.as_slice(), js.as_slice()) {
        return Err(Error::ConfigError(lit_only("Skipping non-HTTP URL")));
    }
    match join_url(base, relative) {
        Ok(a) => Ok(a),
        Err(e) => {
            let m = chars_of(e.as_str());
            Err(Error::ConfigError(lit_chars("Failed to resolve URL: ", &m)))
        },
    }
}

/// The links that attribute values resolve to against `base`, in order;
/// missing values and those that do not resolve are left out.
pub open spec fn resolved_links(base: Seq<char>, vals: Seq<Option<Seq<char>>>) -> Seq<Seq<char>>
    decreases vals.len(),
{
    if vals.len() == 0 {
        Seq::empty()
    } else {
        let rest = resolved_links(base, vals.drop_last());
        match vals.last() {
            Some(v) => match resolved(base, v) {
                Ok(a) => rest.push(a),
                Err(_) => rest,
            },
            None => rest,
        }
    }
}

/// The first entry of each row of an attribute table.
pub open spec fn column(t: Seq<Seq<Option<Seq<char>>>>) -> Seq<Option<Seq<char>>> {
    t.map_values(|row: Seq<Option<Seq<char>>>| row[0])
}

/// The first word of each piece that has one.
pub open spec fn first_words(ps: Seq<Seq<char>>) -> Seq<Seq<char>>
    decreases ps.len(),
{
    if ps.len() == 0 {
        Seq::empty()
    } else if words(ps.last()).len() > 0 {
        first_words(ps.drop_last()).push(words(ps.last())[0])
    } else {
        first_words(ps.drop_last())
    }
}

/// The URLs of a `srcset` value: the first word of each comma-separated
/// candidate (the rest are width or density descriptors).
pub open spec fn srcset_urls(v: Seq<char>) -> Seq<Seq<char>> {
    first_words(split_on(v, ','))
}

/// The links of `srcset` values, resolved against `base`.
pub open spec fn srcset_links(base: Seq<char>, vals: Seq<Option<Seq<char>>>) -> Seq<Seq<char>>
    decreases vals.len(),
{
    if vals.len() == 0 {
        Seq::empty()
    } else {
        let rest = srcset_links(base, vals.drop_last());
        match vals.last() {
            Some(v) => rest + resolved_links(base, srcset_urls(v).map_values(|u: Seq<char>| Some(u))),
            None => rest,
        }
    }
}

/// The links of an attribute over the elements a selector picks.
pub open spec fn attr_links(doc: Seq<char>, base: Seq<char>, selector: Seq<char>, attr: Seq<char>) -> Seq<Seq<char>> {
    resolved_links(base, column(html_select(doc, selector, seq![attr])))
}

/// The links of the `srcset` attributes of the elements a selector picks.
pub open spec fn srcset_attr_links(doc: Seq<char>, base: Seq<char>, selector: Seq<char>) -> Seq<Seq<char>> {
    srcset_links(base, column(html_select(doc, selector, seq!["srcset"@])))
}

/// The links found in an HTML page at `base`: none when a meta robots tag
/// says `nofollow`; otherwise the `href` of each `<a>`, then, with
/// `page_requisites`, the `src` and `srcset` URLs of images, the `srcset`
/// URLs of `<source>`, the `href` of stylesheet links and the `src` of
/// scripts, each resolved against `base` (see [`resolved`]).
pub open spec fn page_links(doc: Seq<char>, base: Seq<char>, page_requisites: bool) -> Seq<Seq<char>> {
    if meta_nofollow(html_select(doc, "meta[name]"@, seq!["name"@, "content"@])) {
        Seq::empty()
    } else {
        let anchors = attr_links(doc, base, "a[href]"@, "href"@);
        if page_requisites {
            anchors + attr_links(doc, base, "img[src]"@, "src"@)
                + srcset_attr_links(doc, base, "img[srcset]"@)
                + srcset_attr_links(doc, base, "source[srcset]"@)
                + attr_links(doc, base, "link[rel=stylesheet][href]"@, "href"@)
                + attr_links(doc, base, "script[src]"@, "src"@)
        } else {
            anchors
        }
    }
}

/// The view of a list of strings.
pub open spec fn string_views(v: Seq<String>) -> Seq<Seq<char>> {
    v.map_values(|s: String| s@)
}

/// The view of an optional character vector.
pub open spec fn opt_view(v: Option<Vec<char>>) -> Option<Seq<char>> {
    match v {
        Some(x) => Some(x@),
        None => None,
    }
}

/// The views of optional character vectors.
pub open spec fn opt_views(s: Seq<Option<Vec<char>>>) -> Seq<Option<Seq<char>>> {
    s.map_values(|v: Option<Vec<char>>| opt_view(v))
}

/// Append the links that values resolve to.
fn push_resolved(out: &mut Vec<String>, base: &str, vals: &Vec<Option<Vec<char>>>)
    ensures
        string_views(final(out)@) == string_views(old(out)@) + resolved_links(base@, opt_views(vals@)),
{
    let ghost start = string_views(out@);
    let ghost vv = opt_views(vals@);
    let mut i: usize = 0;
    assert(vv.take(0) =~= Seq::<Option<Seq<char>>>::empty());
    assert(string_views(out@) =~= start + resolved_links(base@, vv.take(0)));
    while i < vals.len()
        invariant
            i <= vals.len(),
            vv == opt_views(vals@),
            string_views(out@) == start + resolved_links(base@, vv.take(i as int)),
        decreases vals.len() - i,
    {
        assert(vv.take(i + 1).drop_last() =~= vv.take(i as int));
        assert(vv.take(i + 1).last() == vv[i as int]);
        match &vals[i] {
            Some(v) => {
                let s = string_of(v.as_slice());
                match resolve_url(base, s.as_str()) {
                    Ok(a) => {
                        let ghost old_o = string_views(out@);
                        out.push(a);
                        assert(string_views(out@) =~= old_o.push(a@));
                    },
                    Err(_) => {},
                }
            },
            None => {},
        }
        i += 1;
    }
    assert(vv.take(vals@.len() as int) =~= vv);
}

/// The first column of a table of single-attribute rows.
pub(crate) fn first_column(t: &Vec<Vec<Option<String>>>) -> (r: Vec<Option<Vec<char>>>)
    requires
        forall|i: int| 0 <= i < t@.len() ==> (#[trigger] t@[i])@.len() == 1,
    ensures
        opt_views(r@) == column(table_view(t@)),
{
    let mut r: Vec<Option<Vec<char>>> = Vec::new();
    let mut i: usize = 0;
    while i < t.len()
        invariant
            i <= t.len(),
            forall|k: int| 0 <= k < t@.len() ==> (#[trigger] t@[k])@.len() == 1,
            opt_views(r@) == column(table_view(t@)).take(i as int),
        decreases t.len() - i,
    {
        let row = &t[i];
        assert(row@.len() == 1);
        let cell = match &row[0] {
            Some(s) => Some(chars_of(s.as_str())),
            None => None,
        };
        let ghost old_r = r@;
        r.push(cell);
        assert(r@ =~= old_r.push(cell));
        assert(column(table_view(t@))[i as int] == table_view(t@)[i as int][0]);
        assert(table_view(t@)[i as int] == row@.map_values(|v: Option<String>| crate::html::cell_view(v)));
        assert(opt_view(cell) == crate::html::cell_view(row@[0]));
        assert(opt_views(r@) =~= opt_views(old_r).push(opt_view(cell)));
        assert(opt_views(r@) =~= column(table_view(t@)).take(i + 1));
        i += 1;
    }
    r
}

/// Append the links of an attribute over the elements a selector picks.
fn push_attr_links(out: &mut Vec<String>, doc: &str, base: &str, selector: &str, attr: &str)
    ensures
        string_views(final(out)@) == string_views(old(out)@) + attr_links(doc@, base@, selector@, attr@),
{
    let attrs: [&str; 1] = [attr];
    let t = select_attrs(doc, selector, attrs.as_slice());
    proof {
        assert(lits(attrs@) =~= seq![attr@]);
    }
    let vals = first_column(&t);
    push_resolved(out, base, &vals);
}

/// The first word of each piece that has one, as [`first_words`] states.
fn first_words_of(ps: &Vec<Vec<char>>) -> (r: Vec<Option<Vec<char>>>)
    ensures
        opt_views(r@) == first_words(views(ps@)).map_values(|u: Seq<char>| Some(u)),
{
    let ghost vs = views(ps@);
    let mut r: Vec<Option<Vec<char>>> = Vec::new();
    let mut i: usize = 0;
    assert(vs.take(0) =~= Seq::<Seq<char>>::empty());
    while i < ps.len()
        invariant
            i <= ps.len(),
            vs == views(ps@),
            opt_views(r@) == first_words(vs.take(i as int)).map_values(|u: Seq<char>| Some(u)),
        decreases ps.len() - i,
    {
        assert(vs.take(i + 1).drop_last() =~= vs.take(i as int));
        assert(vs.take(i + 1).last() == ps@[i as int]@);
        let w = split_words(&ps[i]);
        if w.len() > 0 {
            assert(views(w@)[0] == w@[0]@);
            let ghost old_r = r@;
            let first = w[0].clone();
            r.push(Some(first));
            assert(opt_views(r@) =~= opt_views(old_r).push(Some(first@)));
            assert(first@ == words(vs[i as int])[0]);
            assert(opt_views(r@) =~= first_words(vs.take(i + 1)).map_values(|u: Seq<char>| Some(u)));
        }
        i += 1;
    }
    assert(vs.take(ps@.len() as int) =~= vs);
    r
}

/// Append the links of the `srcset` attributes of the elements a selector
/// picks.
fn push_srcset_links(out: &mut Vec<String>, doc: &str, base: &str, selector: &str)
    ensures
        string_views(final(out)@) == string_views(old(out)@) + srcset_attr_links(doc@, base@, selector@),
{
    let attrs: [&str; 1] = ["srcset"];
    let t = select_attrs(doc, selector, attrs.as_slice());
    proof {
        assert(lits(attrs@) =~= seq!["srcset"@]);
    }
    let vals = first_column(&t);
    let ghost vv = opt_views(vals@);
    let ghost start = string_views(out@);
    let mut i: usize = 0;
    assert(vv.take(0) =~= Seq::<Option<Seq<char>>>::empty());
    assert(string_views(out@) =~= start + srcset_links(base@, vv.take(0)));
    while i < vals.len()
        invariant
            i <= vals.len(),
            vv == opt_views(vals@),
            string_views(out@) == start + srcset_links(base@, vv.take(i as int)),
        decreases vals.len() - i,
    {
        assert(vv.take(i + 1).drop_last() =~= vv.take(i as int));
        assert(vv.take(i + 1).last() == vv[i as int]);
        match &vals[i] {
            Some(v) => {
                let pieces = split_chars(v, ',');
                let urls = first_words_of(&pieces);
                let ghost before = string_views(out@);
                push_resolved(out, base, &urls);
                assert(string_views(out@) =~= start + srcset_links(base@, vv.take(i + 1)));
            },
            None => {},
        }
        i += 1;
    }
    assert(vv.take(vals@.len() as int) =~= vv);
}

/// Extract the links of an HTML page at `base_url` (see [`page_links`]).
pub fn extract_links(content: &str, base_url: &str, page_requisites: bool) -> (r: Vec<String>)
    ensures
        string_views(r@) == page_links(content@, base_url@, page_requisites),
{
    let mut links: Vec<String> = Vec::new();
    if has_meta_robots_nofollow(content) {
        assert(string_views(links@) =~= Seq::<Seq<char>>::empty());
        return links;
    }
    assert(string_views(links@) =~= Seq::<Seq<char>>::empty());
    push_attr_links(&mut links, content, base_url, "a[href]", "href");
    if page_requisites {
        push_attr_links(&mut links, content, base_url, "img[src]", "src");
        push_srcset_links(&mut links, content, base_url, "img[srcset]");
        push_srcset_links(&mut links, content, base_url, "source[srcset]");
        push_attr_links(&mut links, content, base_url, "link[rel=stylesheet][href]", "href");
        push_attr_links(&mut links, content, base_url, "script[src]", "src");
    }
    links
}

/// The rejection log's reason code for a rejection reason.
pub open spec fn csv_reason(reason: Seq<char>) -> Seq<char> {
    if has_infix(reason, "robots.txt"@) {
        "ROBOTS"@
    } else if has_infix(reason, "Domain in rejected list"@) || has_infix(reason, "Domain not in accepted list"@) {
        "SPANNEDHOST"@
    } else {
        "BLACKLIST"@
    }
}

/// The rejection log's name for a URL scheme.
pub open spec fn scheme_code(scheme: Seq<char>) -> Seq<char> {
    if scheme == "https"@ {
        "SCHEME_HTTPS"@
    } else if scheme == "ftp"@ {
        "SCHEME_FTP"@
    } else {
        "SCHEME_HTTP"@
    }
}

/// The port of a URL: its explicit port, else the scheme's default
/// (443 for https, 21 for ftp, 80 otherwise).
pub open spec fn port_of(p: UrlView) -> nat {
    match p.port {
        Some(n) => n as nat,
        None => if p.scheme == "https"@ {
            443
        } else if p.scheme == "ftp"@ {
            21
        } else {
            80
        },
    }
}

/// The text without its leading `/` characters.
pub open spec fn drop_slashes(s: Seq<char>) -> Seq<char>
    decreases s.len(),
{
    if s.len() > 0 && s[0] == '/' {
        drop_slashes(s.drop_first())
    } else {
        s
    }
}

/// An optional text, empty when absent.
pub open spec fn or_empty(s: Option<Seq<char>>) -> Seq<char> {
    match s {
        Some(x) => x,
        None => Seq::empty(),
    }
}

/// The eight rejection-log columns of a URL, separated by tabs: the URL
/// with `:` escaped, scheme code, host, port, path without leading `/`, an
/// empty params column, query and fragment.
pub open spec fn url_columns(url: Seq<char>, p: UrlView) -> Seq<char> {
    join(seq![colon_encoded(url), scheme_code(p.scheme), or_empty(p.host), decimal(port_of(p)),
        drop_slashes(p.path), Seq::empty(), or_empty(p.query), or_empty(p.fragment)], seq!['\t'])
}

/// A rejection-log line: the reason code, the URL's columns, and the
/// parent URL's columns (seven tabs, for empty columns, when there is no
/// parsable parent), separated by tabs; an error when the URL does not
/// parse.
pub open spec fn csv_line(url: Seq<char>, reason: Seq<char>, parent: Option<Seq<char>>) -> Result<Seq<char>, Seq<char>> {
    match url_parse(url) {
        Err(e) => Err("Invalid URL: "@ + e),
        Ok(p) => {
            let parent_cols = match parent {
                Some(pu) => match url_parse(pu) {
                    Ok(pp) => url_columns(pu, pp),
                    Err(_) => "\t\t\t\t\t\t\t"@,
                },
                None => "\t\t\t\t\t\t\t"@,
            };
            Ok(join(seq![csv_reason(reason), url_columns(url, p), parent_cols], seq!['\t']))
        },
    }
}

/// The reason code of a rejection reason (see [`csv_reason`]).
fn reason_code(reason: &str) -> (r: &'static str)
    ensures
        r@ == csv_reason(reason@),
{
    let rc = chars_of(reason);
    if contains_chars(rc.as_slice(), chars_of("robots.txt").as_slice()) {
        "ROBOTS"
    } else if contains_chars(rc.as_slice(), chars_of("Domain in rejected list").as_slice())
        || contains_chars(rc.as_slice(), chars_of("Domain not in accepted list").as_slice()) {
        "SPANNEDHOST"
    } else {
        "BLACKLIST"
    }
}

/// An optional string's characters, empty when absent.
fn opt_chars_of(s: &Option<String>) -> (r: Vec<char>)
    ensures
        r@ == or_empty(crate::urls::opt_str(*s)),
{
    match s {
        Some(x) => chars_of(x.as_str()),
        None => Vec::new(),
    }
}

/// The text without its leading `/` characters.
fn drop_slashes_chars(path: &Vec<char>) -> (r: Vec<char>)
    ensures
        r@ == drop_slashes(path@),
{
    let mut k: usize = 0;
    assert(path@.skip(0) =~= path@);
    while k < path.len() && path[k] == '/'
        invariant
            k <= path.len(),
            drop_slashes(path@) == drop_slashes(path@.skip(k as int)),
        decreases path.len() - k,
    {
        assert(path@.skip(k as int).drop_first() =~= path@.skip(k + 1));
        k += 1;
    }
    let rest = sub_slice(path.as_slice(), k, path.len());
    assert(rest@ =~= path@.skip(k as int));
    rest
}

/// The rejection-log columns of a parsed URL (see [`url_columns`]).
fn url_columns_of(url: &str, p: &crate::urls::ParsedUrl) -> (r: Vec<char>)
    ensures
        r@ == url_columns(url@, p@),
{
    let scheme = chars_of(p.scheme.as_str());
    let is_https = eq_lit(scheme.as_slice(), "https");
    let is_ftp = eq_lit(scheme.as_slice(), "ftp");
    let code = if is_https {
        chars_of("SCHEME_HTTPS")
    } else if is_ftp {
        chars_of("SCHEME_FTP")
    } else {
        chars_of("SCHEME_HTTP")
    };
    let port: u16 = match p.port {
        Some(n) => n,
        None => if is_https {
            443
        } else if is_ftp {
            21
        } else {
            80
        },
    };
    let mut parts: Vec<Vec<char>> = Vec::new();
    parts.push(chars_of(encode_with_colon(url).as_str()));
    parts.push(code);
    parts.push(opt_chars_of(&p.host));
    parts.push(decimal_chars(port as u64));
    parts.push(drop_slashes_chars(&chars_of(p.path.as_str())));
    parts.push(Vec::new());
    parts.push(opt_chars_of(&p.query));
    parts.push(opt_chars_of(&p.fragment));
    assert(views(parts@) =~= seq![colon_encoded(url@), scheme_code(p@.scheme), or_empty(p@.host),
        decimal(port_of(p@)), drop_slashes(p@.path), Seq::empty(), or_empty(p@.query),
        or_empty(p@.fragment)]);
    let r = join_chars(&parts, "\t");
    proof {
        reveal_strlit("\t");
        assert("\t"@ =~= seq!['\t']);
    }
    r
}

/// Format a rejected URL as a line of the rejection log (see [`csv_line`]).
pub fn format_rejected_url_csv(url: &str, reason: &str, parent_url: Option<&str>) -> (r: Result<String, Error>)
    ensures
        path_result(r) == csv_line(url@, reason@, opt_chars(parent_url)),
        r matches Err(e) ==> e is ConfigError,
{
    let p = match parse_url(url) {
        Ok(p) => p,
        Err(e) => {
            let m = chars_of(e.as_str());
            return Err(Error::ConfigError(lit_chars("Invalid URL: ", &m)));
        },
    };
    let parent_cols = match parent_url {
        Some(pu) => match parse_url(pu) {
            Ok(pp) => url_columns_of(pu, &pp),
            Err(_) => chars_of("\t\t\t\t\t\t\t"),
        },
        None => chars_of("\t\t\t\t\t\t\t"),
    };
    let mut parts: Vec<Vec<char>> = Vec::new();
    parts.push(chars_of(reason_code(reason)));
    parts.push(url_columns_of(url, &p));
    let ghost pc = parent_cols@;
    parts.push(parent_cols);
    assert(views(parts@) =~= seq![csv_reason(reason@), url_columns(url@, p@), pc]);
    let line = join_chars(&parts, "\t");
    proof {
        reveal_strlit("\t");
        assert("\t"@ =~= seq!['\t']);
    }
    Ok(string_of(line.as_slice()))
}

/// The view of a queued link: URL, depth, and the page it was found on.
pub open spec fn queued_view(q: (String, usize, Option<String>)) -> (Seq<char>, nat, Option<Seq<char>>) {
    (q.0@, q.1 as nat, crate::urls::opt_str(q.2))
}

/// The view of a rejection: URL, reason, and the page it was found on.
pub open spec fn rejection_view(q: (String, String, Option<String>)) -> (Seq<char>, Seq<char>, Option<Seq<char>>) {
    (q.0@, q.1@, crate::urls::opt_str(q.2))
}

/// The state of a recursive crawl.
pub ghost struct CrawlView {
    /// Links waiting, in order: URL, depth, parent page
    pub pending: Seq<(Seq<char>, nat, Option<Seq<char>>)>,
    /// URLs already taken for download
    pub visited: Seq<Seq<char>>,
    /// Rejections recorded so far: URL, reason, parent page
    pub rejected: Seq<(Seq<char>, Seq<char>, Option<Seq<char>>)>,
    /// Maximum depth (0 = unlimited)
    pub max_depth: nat,
    /// Whether rejections are recorded
    pub logs: bool,
}

/// The queue, visited set and rejection log of a recursive download.
pub struct CrawlState {
    queue: VecDeque<(String, usize, Option<String>)>,
    visited: Vec<String>,
    rejected: Vec<(String, String, Option<String>)>,
    max_depth: usize,
    log_rejections: bool,
}

impl View for CrawlState {
    type V = CrawlView;

    closed spec fn view(&self) -> CrawlView {
        CrawlView {
            pending: self.queue@.map_values(|q: (String, usize, Option<String>)| queued_view(q)),
            visited: self.visited@.map_values(|s: String| s@),
            rejected: self.rejected@.map_values(|q: (String, String, Option<String>)| rejection_view(q)),
            max_depth: self.max_depth as nat,
            logs: self.log_rejections,
        }
    }
}

/// Whether a queued link is taken for download: not yet visited and,
/// with a depth limit, below it.
pub open spec fn eligible(item: (Seq<char>, nat, Option<Seq<char>>), visited: Seq<Seq<char>>, max_depth: nat) -> bool {
    !visited.contains(item.0) && (max_depth == 0 || item.1 < max_depth)
}

/// The reason recorded for a link to a page already visited.
pub open spec fn reason_loop() -> Seq<char> {
    "Already visited (recursive loop)"@
}

/// The rejections recorded while skipping links: each link to a visited
/// page that was found on some page.
pub open spec fn loop_rejections(
    items: Seq<(Seq<char>, nat, Option<Seq<char>>)>,
    visited: Seq<Seq<char>>,
) -> Seq<(Seq<char>, Seq<char>, Option<Seq<char>>)>
    decreases items.len(),
{
    if items.len() == 0 {
        Seq::empty()
    } else {
        let rest = loop_rejections(items.drop_last(), visited);
        let it = items.last();
        if visited.contains(it.0) && it.2 is Some {
            rest.push((it.0, reason_loop(), it.2))
        } else {
            rest
        }
    }
}

/// What the log gains from skipping `items`.
pub open spec fn logged(logs: bool, items: Seq<(Seq<char>, nat, Option<Seq<char>>)>, visited: Seq<Seq<char>>) -> Seq<(Seq<char>, Seq<char>, Option<Seq<char>>)> {
    if logs {
        loop_rejections(items, visited)
    } else {
        Seq::empty()
    }
}

impl CrawlState {
    /// A crawl that starts at `start_url` (depth 0, no parent page).
    pub fn new(start_url: &str, max_depth: usize, log_rejections: bool) -> (r: Self)
        ensures
            r@.pending == seq![(start_url@, 0nat, None::<Seq<char>>)],
            r@.visited.len() == 0,
            r@.rejected.len() == 0,
            r@.max_depth == max_depth,
            r@.logs == log_rejections,
    {
        let mut queue: VecDeque<(String, usize, Option<String>)> = VecDeque::new();
        queue.push_back((string_of(chars_of(start_url).as_slice()), 0, None));
        let r = CrawlState { queue, visited: Vec::new(), rejected: Vec::new(), max_depth, log_rejections };
        assert(r@.pending =~= seq![(start_url@, 0nat, None::<Seq<char>>)]);
        assert(r@.visited =~= Seq::<Seq<char>>::empty());
        assert(r@.rejected =~= Seq::<(Seq<char>, Seq<char>, Option<Seq<char>>)>::empty());
        r
    }

    /// Whether a URL has been taken for download.
    pub fn is_visited(&self, url: &str) -> (r: bool)
        ensures
            r == self@.visited.contains(url@),
    {
        let u = chars_of(url);
        let ghost vs = self@.visited;
        let mut i: usize = 0;
        while i < self.visited.len()
            invariant
                i <= self.visited.len(),
                vs == self.visited@.map_values(|s: String| s@),
                u@ == url@,
                forall|j: int| 0 <= j < i ==> vs[j] != u@,
            decreases self.visited.len() - i,
        {
            let v = chars_of(self.visited[i].as_str());
            assert(vs[i as int] == self.visited@[i as int]@);
            if eq_chars(v.as_slice(), u.as_slice()) {
                assert(vs[i as int] == url@);
                return true;
            }
            i += 1;
        }
        false
    }

    /// Record a URL as taken for download.
    pub fn mark_visited(&mut self, url: &str)
        ensures
            final(self)@.visited == if old(self)@.visited.contains(url@) {
                old(self)@.visited
            } else {
                old(self)@.visited.push(url@)
            },
            final(self)@.pending == old(self)@.pending,
            final(self)@.rejected == old(self)@.rejected,
            final(self)@.max_depth == old(self)@.max_depth,
            final(self)@.logs == old(self)@.logs,
    {
        if !self.is_visited(url) {
            let ghost before = self@.visited;
            self.visited.push(string_of(chars_of(url).as_slice()));
            assert(self@.visited =~= before.push(url@));
        }
    }

    /// Record a rejected URL with its reason, when rejections are logged.
    pub fn log_rejected_url(&mut self, url: &str, reason: &str, parent_url: Option<&str>)
        ensures
            final(self)@.rejected == if old(self)@.logs {
                old(self)@.rejected.push((url@, reason@, opt_chars(parent_url)))
            } else {
                old(self)@.rejected
            },
            final(self)@.pending == old(self)@.pending,
            final(self)@.visited == old(self)@.visited,
            final(self)@.max_depth == old(self)@.max_depth,
            final(self)@.logs == old(self)@.logs,
    {
        if self.log_rejections {
            let parent = match parent_url {
                Some(p) => Some(string_of(chars_of(p).as_slice())),
                None => None,
            };
            let ghost before = self@.rejected;
            self.rejected.push((string_of(chars_of(url).as_slice()), string_of(chars_of(reason).as_slice()), parent));
            assert(self@.rejected =~= before.push((url@, reason@, opt_chars(parent_url))));
        }
    }

    /// Queue another starting URL (depth 0, no parent page); what was
    /// visited and rejected before is kept.
    pub fn start(&mut self, url: &str)
        ensures
            final(self)@.pending == old(self)@.pending.push((url@, 0nat, None::<Seq<char>>)),
            final(self)@.visited == old(self)@.visited,
            final(self)@.rejected == old(self)@.rejected,
            final(self)@.max_depth == old(self)@.max_depth,
            final(self)@.logs == old(self)@.logs,
    {
        let ghost before = self@.pending;
        self.queue.push_back((string_of(chars_of(url).as_slice()), 0, None));
        assert(self@.pending =~= before.push((url@, 0nat, None::<Seq<char>>)));
    }

    /// Queue the links found on `parent_url` (at `depth`) one level deeper.
    pub fn push_links(&mut self, links: Vec<String>, depth: usize, parent_url: &str)
        requires
            depth < usize::MAX,
        ensures
            final(self)@.pending == old(self)@.pending + links@.map_values(|l: String| (l@, (depth + 1) as nat, Some(parent_url@))),
            final(self)@.visited == old(self)@.visited,
            final(self)@.rejected == old(self)@.rejected,
            final(self)@.max_depth == old(self)@.max_depth,
            final(self)@.logs == old(self)@.logs,
    {
        let ghost start = self@.pending;
        let ghost added = links@.map_values(|l: String| (l@, (depth + 1) as nat, Some(parent_url@)));
        let mut i: usize = 0;
        assert(added.take(0) =~= Seq::<(Seq<char>, nat, Option<Seq<char>>)>::empty());
        assert(self@.pending =~= start + added.take(0));
        while i < links.len()
            invariant
                i <= links.len(),
                depth < usize::MAX,
                added == links@.map_values(|l: String| (l@, (depth + 1) as nat, Some(parent_url@))),
                self@.pending == start + added.take(i as int),
                self@.visited == old(self)@.visited,
                self@.rejected == old(self)@.rejected,
                self@.max_depth == old(self)@.max_depth,
                self@.logs == old(self)@.logs,
            decreases links.len() - i,
        {
            let ghost before = self@.pending;
            let item = (string_of(chars_of(links[i].as_str()).as_slice()), depth + 1, Some(string_of(chars_of(parent_url).as_slice())));
            self.queue.push_back(item);
            assert(self@.pending =~= before.push(added[i as int]));
            assert(added.take(i + 1) =~= added.take(i as int).push(added[i as int]));
            assert(self@.pending =~= start + added.take(i + 1));
            i += 1;
        }
        assert(added.take(links@.len() as int) =~= added);
    }

    /// The rejections recorded so far.
    pub fn rejected(&self) -> (r: &Vec<(String, String, Option<String>)>)
        ensures
            r@.map_values(|q: (String, String, Option<String>)| rejection_view(q)) == self@.rejected,
    {
        &self.rejected
    }

    /// Take the next queued link to download: links to visited pages are
    /// dropped (and logged as loops when found on a page), and so are links
    /// at or beyond the depth limit; `None` when the queue runs out.
    pub fn next(&mut self) -> (r: Option<(String, usize, Option<String>)>)
        ensures
            final(self)@.visited == old(self)@.visited,
            final(self)@.max_depth == old(self)@.max_depth,
            final(self)@.logs == old(self)@.logs,
            match r {
                None => {
                    &&& final(self)@.pending.len() == 0
                    &&& forall|j: int| 0 <= j < old(self)@.pending.len()
                        ==> !eligible(#[trigger] old(self)@.pending[j], old(self)@.visited, old(self)@.max_depth)
                    &&& final(self)@.rejected == old(self)@.rejected + logged(old(self)@.logs, old(self)@.pending, old(self)@.visited)
                },
                Some(item) => exists|k: int| {
                    &&& 0 <= k < old(self)@.pending.len()
                    &&& #[trigger] old(self)@.pending[k] == queued_view(item)
                    &&& eligible(queued_view(item), old(self)@.visited, old(self)@.max_depth)
                    &&& forall|j: int| 0 <= j < k
                        ==> !eligible(#[trigger] old(self)@.pending[j], old(self)@.visited, old(self)@.max_depth)
                    &&& final(self)@.pending == old(self)@.pending.skip(k + 1)
                    &&& final(self)@.rejected == old(self)@.rejected + logged(old(self)@.logs, old(self)@.pending.take(k), old(self)@.visited)
                },
            },
    {
        let ghost p0 = self@.pending;
        let ghost v0 = self@.visited;
        let ghost r0 = self@.rejected;
        let ghost mut c: int = 0;
        assert(p0.take(0) =~= Seq::<(Seq<char>, nat, Option<Seq<char>>)>::empty());
        assert(p0.skip(0) =~= p0);
        assert(r0 =~= r0 + logged(self.log_rejections, p0.take(0), v0));
        loop
            invariant
                0 <= c <= p0.len(),
                self@.pending == p0.skip(c),
                self@.visited == v0,
                self@.max_depth == old(self)@.max_depth,
                self@.logs == old(self)@.logs,
                p0 == old(self)@.pending,
                v0 == old(self)@.visited,
                r0 == old(self)@.rejected,
                forall|j: int| 0 <= j < c ==> !eligible(#[trigger] p0[j], v0, self@.max_depth),
                self@.rejected == r0 + logged(self@.logs, p0.take(c), v0),
            decreases p0.len() - c,
        {
            let ghost before = self.queue@;
            assert(self@.pending == before.map_values(|q: (String, usize, Option<String>)| queued_view(q)));
            assert(self@.pending.len() == before.len());
            assert(p0.skip(c).len() == p0.len() - c);
            match self.queue.pop_front() {
                None => {
                    assert(p0.take(c) =~= p0);
                    return None;
                },
                Some(item) => {
                    assert(self.queue@ =~= before.subrange(1, before.len() as int));
                    assert(item == before[0]);
                    assert(self@.pending.len() > 0 || before.len() > 0);
                    assert(c < p0.len());
                    assert(before.map_values(|q: (String, usize, Option<String>)| queued_view(q))[0] == queued_view(before[0]));
                    assert(p0.skip(c)[0] == p0[c]);
                    assert(queued_view(item) == p0[c]);
                    assert(p0.take(c + 1) =~= p0.take(c).push(p0[c]));
                    assert(p0.take(c + 1).drop_last() =~= p0.take(c));
                    assert forall|j: int| 0 <= j < self@.pending.len() implies self@.pending[j] == p0.skip(c + 1)[j] by {
                        assert(self@.pending[j] == queued_view(self.queue@[j]));
                        assert(self.queue@[j] == before[j + 1]);
                        assert(before.map_values(|q: (String, usize, Option<String>)| queued_view(q))[j + 1] == queued_view(before[j + 1]));
                        assert(p0.skip(c)[j + 1] == p0[c + 1 + j]);
                    }
                    assert(self@.pending.len() == p0.skip(c + 1).len());
                    assert(self@.pending =~= p0.skip(c + 1));
                    let visited = self.is_visited(item.0.as_str());
                    if visited {
                        assert(v0.contains(p0[c].0));
                        let ghost rb = self@.rejected;
                        if item.2.is_some() && self.log_rejections {
                            let (u, _, parent) = item;
                            self.rejected.push((u, lit_only("Already visited (recursive loop)"), parent));
                            assert(self@.rejected =~= rb.push((p0[c].0, reason_loop(), p0[c].2)));
                        }
                        assert(self@.rejected =~= r0 + logged(self@.logs, p0.take(c + 1), v0));
                        proof {
                            c = c + 1;
                        }
                    } else if self.max_depth > 0 && item.1 >= self.max_depth {
                        assert(self@.rejected =~= r0 + logged(self@.logs, p0.take(c + 1), v0));
                        proof {
                            c = c + 1;
                        }
                    } else {
                        return Some(item);
                    }
                },
            }
        }
    }
}

/// The starting URL (depth 0) is exempt from the HTTPS-only and robots.txt
/// checks and from the host check: its verdict does not depend on them.
pub proof fn lemma_start_url_exempt(
    cfg: RecursiveConfig,
    https_only: bool,
    user_agent: Seq<char>,
    url: Seq<char>,
    base_url: Option<Seq<char>>,
    robots: Option<Map<Seq<char>, Seq<crate::robots::RuleView>>>,
)
    ensures
        url_verdict(cfg, https_only, user_agent, url, 0, base_url, robots)
            == url_verdict(cfg, false, user_agent, url, 0, base_url, None),
{
}

/// A link to a page already taken for download is never taken again, and
/// a link at or past the depth limit is never taken.
pub proof fn lemma_visited_not_taken(
    item: (Seq<char>, nat, Option<Seq<char>>),
    visited: Seq<Seq<char>>,
    max_depth: nat,
)
    requires
        visited.contains(item.0) || (max_depth > 0 && item.1 >= max_depth),
    ensures
        !eligible(item, visited, max_depth),
{
}

/// With accepted domains given, a link whose host contains none of them
/// is never followed: the filter rejects it (its verdict is a rejection,
/// never `Ok(None)`).
pub proof fn lemma_unaccepted_host_rejected(
    cfg: RecursiveConfig,
    https_only: bool,
    user_agent: Seq<char>,
    url: Seq<char>,
    depth: nat,
    base_url: Option<Seq<char>>,
    robots: Option<Map<Seq<char>, Seq<crate::robots::RuleView>>>,
    u: UrlView,
    h: Seq<char>,
)
    requires
        url_parse(url) == Ok::<UrlView, Seq<char>>(u),
        u.host == Some(h),
        cfg.accepted_domains@.len() > 0,
        forall|i: int| 0 <= i < cfg.accepted_domains@.len() ==> !has_infix(h, (#[trigger] cfg.accepted_domains@[i])@),
    ensures
        url_verdict(cfg, https_only, user_agent, url, depth, base_url, robots) matches Ok(Some(_)),
{
    assert(!infix_of_any(h, strs(cfg.accepted_domains@))) by {
        if infix_of_any(h, strs(cfg.accepted_domains@)) {
            let i = choose|i: int| 0 <= i < strs(cfg.accepted_domains@).len() && has_infix(h, #[trigger] strs(cfg.accepted_domains@)[i]);
            assert(strs(cfg.accepted_domains@)[i] == cfg.accepted_domains@[i]@);
        }
    }
    assert(strs(cfg.accepted_domains@).len() > 0);
}

/// A link whose host contains one of the rejected domains is never
/// followed: the filter rejects it.
pub proof fn lemma_rejected_host_rejected(
    cfg: RecursiveConfig,
    https_only: bool,
    user_agent: Seq<char>,
    url: Seq<char>,
    depth: nat,
    base_url: Option<Seq<char>>,
    robots: Option<Map<Seq<char>, Seq<crate::robots::RuleView>>>,
    u: UrlView,
    h: Seq<char>,
    k: int,
)
    requires
        url_parse(url) == Ok::<UrlView, Seq<char>>(u),
        u.host == Some(h),
        0 <= k < cfg.rejected_domains@.len(),
        has_infix(h, cfg.rejected_domains@[k]@),
    ensures
        url_verdict(cfg, https_only, user_agent, url, depth, base_url, robots) matches Ok(Some(_)),
{
    assert(strs(cfg.rejected_domains@)[k] == cfg.rejected_domains@[k]@);
    assert(infix_of_any(h, strs(cfg.rejected_domains@)));
}

} // verus!
