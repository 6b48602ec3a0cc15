//! URL parsing, joining and encoding through the `url` and
//! `percent_encoding` crates, with the parts that the library reads held
//! as plain strings.
use vstd::prelude::*;
use crate::text::{
    append_chars, chars_of, push_str, split_chars, split_on, string_of, sub_vec, views,
};

verus! {

/// The parts of a parsed URL that the library reads.
#[derive(Debug)]
pub struct ParsedUrl {
    /// Scheme, lowercased (e.g. "https")
    pub scheme: String,
    /// Host as serialized (domain, IPv4 or bracketed IPv6), if any
    pub host: Option<String>,
    /// Port, when it is not the scheme's default
    pub port: Option<u16>,
    /// Path, percent-encoded (e.g. "/a/b.html")
    pub path: String,
    /// Query without the `?`, if any
    pub query: Option<String>,
    /// Fragment without the `#`, if any
    pub fragment: Option<String>,
}

/// The contents of a [`ParsedUrl`].
pub ghost struct UrlView {
    /// Scheme
    pub scheme: Seq<char>,
    /// Host
    pub host: Option<Seq<char>>,
    /// Explicit non-default port
    pub port: Option<u16>,
    /// Path
    pub path: Seq<char>,
    /// Query
    pub query: Option<Seq<char>>,
    /// Fragment
    pub fragment: Option<Seq<char>>,
}

/// The view of an optional string.
pub open spec fn opt_str(s: Option<String>) -> Option<Seq<char>> {
    match s {
        Some(x) => Some(x@),
        None => None,
    }
}

impl View for ParsedUrl {
    type V = UrlView;

    open spec fn view(&self) -> UrlView {
        UrlView {
            scheme: self.scheme@,
            host: opt_str(self.host),
            port: self.port,
            path: self.path@,
            query: opt_str(self.query),
            fragment: opt_str(self.fragment),
        }
    }
}

/// What the `url` crate parses a string to: the parts of the URL if it is
/// a valid absolute URL, otherwise the text of the parse error.
pub uninterp spec fn url_parse(s: Seq<char>) -> Result<UrlView, Seq<char>>;

/// The serialization of `relative` resolved against the URL `base`, or
/// the text of the error when `base` does not parse or the join fails.
pub uninterp spec fn url_join(base: Seq<char>, relative: Seq<char>) -> Result<Seq<char>, Seq<char>>;

/// The serialization of a URL without its fragment, if it parses.
pub uninterp spec fn url_defragment(s: Seq<char>) -> Option<Seq<char>>;

/// The view of a parse result.
pub open spec fn url_result(u: Result<ParsedUrl, String>) -> Result<UrlView, Seq<char>> {
    match u {
        Ok(x) => Ok(x@),
        Err(e) => Err(e@),
    }
}

/// Parse an absolute URL.
///
/// Trusted: calls `url::Url::parse` and copies out scheme, `host_str`,
/// `port`, `path`, `query` and `fragment`, or the error's text; the
/// contract names the result, a function of the text alone.
#[verifier::external_body]
pub(crate) fn parse_url(s: &str) -> (r: Result<ParsedUrl, String>)
    ensures
        url_result(r) == url_parse(s@),
{
    match url::Url::parse(s) {
        Ok(u) => Ok(ParsedUrl {
            scheme: u.scheme().to_string(),
            host: u.host_str().map(|h| h.to_string()),
            port: u.port(),
            path: u.path().to_string(),
            query: u.query().map(|q| q.to_string()),
            fragment: u.fragment().map(|f| f.to_string()),
        }),
        Err(e) => Err(e.to_string()),
    }
}

/// The view of a string result.
pub open spec fn str_result(r: Result<String, String>) -> Result<Seq<char>, Seq<char>> {
    match r {
        Ok(x) => Ok(x@),
        Err(e) => Err(e@),
    }
}

/// Resolve a URL reference against a base URL.
///
/// Trusted: calls `url::Url::parse` on `base`, then `Url::join`, and
/// serializes the result (or the error); the contract names it, a
/// function of the two texts alone.
#[verifier::external_body]
pub(crate) fn join_url(base: &str, relative: &str) -> (r: Result<String, String>)
    ensures
        str_result(r) == url_join(base@, relative@),
{
    let b = match url::Url::parse(base) {
        Ok(b) => b,
        Err(e) => return Err(e.to_string()),
    };
    match b.join(relative) {
        Ok(u) => Ok(u.to_string()),
        Err(e) => Err(e.to_string()),
    }
}

/// A URL without its fragment.
///
/// Trusted: calls `url::Url::parse`, then `Url::set_fragment(None)`, and
/// serializes the result; the contract names it, a function of the text
/// alone.
#[verifier::external_body]
pub(crate) fn defragment_url(s: &str) -> (r: Option<String>)
    ensures
        opt_str(r) == url_defragment(s@),
{
    let mut u = url::Url::parse(s).ok()?;
    u.set_fragment(None);
    Some(u.to_string())
}

/// The path segments of a URL path, as `Url::path_segments` gives them:
/// the text after a leading `/`, split at every `/`.
pub open spec fn path_segments(path: Seq<char>) -> Option<Seq<Seq<char>>> {
    if path.len() > 0 && path[0] == '/' {
        Some(split_on(path.drop_first(), '/'))
    } else {
        None
    }
}

/// The path segments of a URL path.
pub fn segments_of(path: &str) -> (r: Option<Vec<Vec<char>>>)
    ensures
        match r {
            Some(v) => path_segments(path@) == Some(views(v@)),
            None => path_segments(path@) is None,
        },
{
    let p = chars_of(path);
    if p.len() > 0 && p[0] == '/' {
        let rest = sub_vec(&p, 1, p.len());
        assert(rest@ =~= p@.drop_first());
        Some(split_chars(&rest, '/'))
    } else {
        None
    }
}

/// The last segment of a URL path, when the path has segments and the last
/// one is not empty.
pub open spec fn last_segment(path: Seq<char>) -> Option<Seq<char>> {
    match path_segments(path) {
        Some(segs) => if segs.len() > 0 && segs.last().len() > 0 {
            Some(segs.last())
        } else {
            None
        },
        None => None,
    }
}

/// The file name a URL path names: its last non-empty segment, else
/// `index.html`.
pub open spec fn file_name_of(path: Seq<char>) -> Seq<char> {
    match last_segment(path) {
        Some(s) => s,
        None => "index.html"@,
    }
}

/// The last segment of a URL path, as [`last_segment`] states.
pub fn last_segment_of(path: &str) -> (r: Option<Vec<char>>)
    ensures
        match r {
            Some(v) => last_segment(path@) == Some(v@),
            None => last_segment(path@) is None,
        },
{
    match segments_of(path) {
        Some(segs) => {
            if segs.len() > 0 && segs[segs.len() - 1].len() > 0 {
                assert(views(segs@).last() == segs@[segs@.len() - 1]@);
                Some(segs[segs.len() - 1].clone())
            } else {
                proof {
                    if segs@.len() > 0 {
                        assert(views(segs@).last() == segs@[segs@.len() - 1]@);
                    }
                }
                None
            }
        },
        None => None,
    }
}

/// The uppercase hexadecimal digit of a value below 16.
pub open spec fn hex_digit(d: nat) -> char {
    if d < 10 {
        ((d + ('0' as nat)) as u32) as char
    } else {
        ((d - 10 + ('A' as nat)) as u32) as char
    }
}

/// Each byte as `%` and two uppercase hex digits.
pub open spec fn escape_bytes(bytes: Seq<u8>) -> Seq<char>
    decreases bytes.len(),
{
    if bytes.len() == 0 {
        Seq::empty()
    } else {
        let b = bytes.last();
        escape_bytes(bytes.drop_last()) + seq!['%', hex_digit((b / 16) as nat), hex_digit((b % 16) as nat)]
    }
}

/// How percent-encoding with the control set writes a character: printable
/// ASCII stands for itself; controls, DEL and every non-ASCII character are
/// written as the `%XX` escapes of their UTF-8 bytes.
pub open spec fn control_escape(c: char) -> Seq<char> {
    if 0x20 <= (c as u32) && (c as u32) < 0x7f {
        seq![c]
    } else {
        escape_bytes(vstd::utf8::encode_utf8(seq![c]))
    }
}

/// Percent-encoding of a string with the control set.
pub open spec fn control_encoded(s: Seq<char>) -> Seq<char>
    decreases s.len(),
{
    if s.len() == 0 {
        Seq::empty()
    } else {
        control_encoded(s.drop_last()) + control_escape(s.last())
    }
}

/// Percent-encoding of a string with the control set plus `:`, which is
/// written `%3A`.
pub open spec fn colon_encoded(s: Seq<char>) -> Seq<char>
    decreases s.len(),
{
    if s.len() == 0 {
        Seq::empty()
    } else {
        colon_encoded(s.drop_last()) + if s.last() == ':' {
            "%3A"@
        } else {
            control_escape(s.last())
        }
    }
}

/// Percent-encode a string with the control set.
///
/// Trusted: calls `percent_encoding::utf8_percent_encode` with `CONTROLS`;
/// the contract states that crate's documented encoding: bytes of the set
/// (C0 controls and DEL) and all non-ASCII bytes become `%` and two
/// uppercase hex digits, other bytes stand for themselves.
#[verifier::external_body]
fn encode_controls(s: &str) -> (r: String)
    ensures
        r@ == control_encoded(s@),
{
    percent_encoding::utf8_percent_encode(s, percent_encoding::CONTROLS).to_string()
}

/// Percent-encode a string with the control set plus `:` (as wget writes
/// URLs in its rejection log).
pub fn encode_with_colon(s: &str) -> (r: String)
    ensures
        r@ == colon_encoded(s@),
{
    let chars = chars_of(s);
    let mut out: Vec<char> = Vec::new();
    let mut piece: Vec<char> = Vec::new();
    let mut i: usize = 0;
    while i < chars.len()
        invariant
            i <= chars.len(),
            chars@ == s@,
            colon_encoded(chars@.take(i as int)) == out@ + control_encoded(piece@),
        decreases chars.len() - i,
    {
        let c = chars[i];
        proof {
            assert(chars@.take(i + 1).drop_last() =~= chars@.take(i as int));
            assert(chars@.take(i + 1).last() == c);
        }
        if c == ':' {
            let enc = encode_controls(&string_of(piece.as_slice()));
            let e = chars_of(enc.as_str());
            append_chars(&mut out, &e);
            push_str(&mut out, "%3A");
            piece = Vec::new();
            assert(control_encoded(piece@) =~= Seq::<char>::empty());
            assert(colon_encoded(chars@.take(i + 1)) =~= out@ + control_encoded(piece@));
        } else {
            let ghost old_piece = piece@;
            piece.push(c);
            proof {
                assert(piece@.drop_last() =~= old_piece);
            }
            assert(colon_encoded(chars@.take(i + 1)) =~= out@ + control_encoded(piece@));
        }
        i += 1;
    }
    assert(chars@.take(chars@.len() as int) =~= chars@);
    let enc = encode_controls(&string_of(piece.as_slice()));
    let e = chars_of(enc.as_str());
    append_chars(&mut out, &e);
    string_of(out.as_slice())
}

} // verus!
