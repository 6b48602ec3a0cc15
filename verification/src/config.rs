//! Configuration types: HTTP method, authentication, proxy bypass and
//! file name restrictions.
use vstd::prelude::*;
use crate::text::{
    append_chars, chars_of, ends_with, eq_chars, eq_lit, has_suffix, lower_chars, string_of,
    sub_vec, to_lowercase, to_uppercase, trim, trim_chars, unicode_lowercase, unicode_uppercase,
};
use crate::urls::{parse_url, url_parse, UrlView};

verus! {

/// HTTP authentication type.
#[derive(Debug, Clone, Copy, PartialEq, Eq, Structural)]
pub enum AuthType {
    /// HTTP Basic authentication (Base64-encoded credentials)
    Basic,
    /// HTTP Digest authentication (challenge-response)
    Digest,
}

/// Authentication configuration.
#[derive(Debug, Clone)]
pub struct AuthConfig {
    /// Username
    pub username: String,
    /// Password
    pub password: String,
    /// Authentication type
    pub auth_type: AuthType,
}

/// The contents of an [`AuthConfig`].
pub ghost struct AuthView {
    /// Username
    pub username: Seq<char>,
    /// Password
    pub password: Seq<char>,
    /// Authentication type
    pub auth_type: AuthType,
}

impl View for AuthConfig {
    type V = AuthView;

    open spec fn view(&self) -> AuthView {
        AuthView { username: self.username@, password: self.password@, auth_type: self.auth_type }
    }
}

} // verus!

verus! {

/// HTTP request method.
#[derive(Debug, Clone, Copy, PartialEq, Eq, Structural)]
pub enum HttpMethod {
    /// HTTP GET - retrieve resource
    Get,
    /// HTTP HEAD - retrieve headers only
    Head,
    /// HTTP POST - submit data
    Post,
    /// HTTP PUT - update resource
    Put,
    /// HTTP DELETE - delete resource
    Delete,
    /// HTTP PATCH - partial update
    Patch,
    /// HTTP OPTIONS - query capabilities
    Options,
}

/// The name of a method as sent on the wire.
pub open spec fn method_name(m: HttpMethod) -> Seq<char> {
    match m {
        HttpMethod::Get => "GET"@,
        HttpMethod::Head => "HEAD"@,
        HttpMethod::Post => "POST"@,
        HttpMethod::Put => "PUT"@,
        HttpMethod::Delete => "DELETE"@,
        HttpMethod::Patch => "PATCH"@,
        HttpMethod::Options => "OPTIONS"@,
    }
}

/// The method an uppercased name stands for.
pub open spec fn method_named(upper: Seq<char>) -> Option<HttpMethod> {
    if upper == "GET"@ { Some(HttpMethod::Get) }
    else if upper == "HEAD"@ { Some(HttpMethod::Head) }
    else if upper == "POST"@ { Some(HttpMethod::Post) }
    else if upper == "PUT"@ { Some(HttpMethod::Put) }
    else if upper == "DELETE"@ { Some(HttpMethod::Delete) }
    else if upper == "PATCH"@ { Some(HttpMethod::Patch) }
    else if upper == "OPTIONS"@ { Some(HttpMethod::Options) }
    else { None }
}

impl HttpMethod {
    /// Convert HTTP method to string representation.
    pub fn as_str(&self) -> (r: &'static str)
        ensures
            r@ == method_name(*self),
    {
        match self {
            HttpMethod::Get => "GET",
            HttpMethod::Head => "HEAD",
            HttpMethod::Post => "POST",
            HttpMethod::Put => "PUT",
            HttpMethod::Delete => "DELETE",
            HttpMethod::Patch => "PATCH",
            HttpMethod::Options => "OPTIONS",
        }
    }

    /// Parse an HTTP method name, case-insensitively.
    pub fn from_str(s: &str) -> (r: Option<HttpMethod>)
        ensures
            r == method_named(unicode_uppercase(s@)),
    {
        let u = upper_chars(&chars_of(s));
        let v = u.as_slice();
        if eq_lit(v, "GET") { Some(HttpMethod::Get) }
        else if eq_lit(v, "HEAD") { Some(HttpMethod::Head) }
        else if eq_lit(v, "POST") { Some(HttpMethod::Post) }
        else if eq_lit(v, "PUT") { Some(HttpMethod::Put) }
        else if eq_lit(v, "DELETE") { Some(HttpMethod::Delete) }
        else if eq_lit(v, "PATCH") { Some(HttpMethod::Patch) }
        else if eq_lit(v, "OPTIONS") { Some(HttpMethod::Options) }
        else { None }
    }
}

/// `v` as a string with its characters uppercased (as `str::to_uppercase`).
pub fn upper_chars(v: &Vec<char>) -> (r: Vec<char>)
    ensures
        r@ == unicode_uppercase(v@),
        crate::text::all_ascii(v@) ==> r@ == v@.map_values(|c: char| crate::text::ascii_upper_char(c)),
{
    let s = string_of(v.as_slice());
    let u = to_uppercase(s.as_str());
    chars_of(u.as_str())
}

/// Filename restriction modes.
#[derive(Debug, Clone, Copy, PartialEq, Eq, Structural)]
pub enum FilenameRestriction {
    /// Convert filenames to lowercase
    Lowercase,
    /// Convert filenames to uppercase
    Uppercase,
    /// Remove control characters (0x00-0x1F, 0x7F)
    NoControl,
    /// Restrict to ASCII characters (percent-encode non-ASCII)
    Ascii,
    /// Make filenames Unix-compatible (replace \ : * ? " < > |)
    Unix,
    /// Make filenames Windows-compatible (replace / \ : * ? " < > |)
    Windows,
}

/// How the ASCII restriction writes a non-ASCII character: the `%XX`
/// escapes (uppercase hex) of its UTF-8 bytes.
pub open spec fn code_escape(c: char) -> Seq<char> {
    crate::urls::escape_bytes(vstd::utf8::encode_utf8(seq![c]))
}

/// Whether a character is a control character (below U+0020, or U+007F).
pub open spec fn is_control(c: char) -> bool {
    (c as u32) < 0x20 || (c as u32) == 0x7f
}

/// The characters Unix file names avoid: \ : * ? " < > |
pub open spec fn unix_unsafe(c: char) -> bool {
    c == '\\' || c == ':' || c == '*' || c == '?' || c == '"' || c == '<' || c == '>' || c == '|'
}

/// The characters Windows file names avoid: those of Unix and `/`.
pub open spec fn windows_unsafe(c: char) -> bool {
    c == '/' || unix_unsafe(c)
}

/// A string with each character mapped to a string.
pub open spec fn flat_map(s: Seq<char>, f: spec_fn(char) -> Seq<char>) -> Seq<char>
    decreases s.len(),
{
    if s.len() == 0 {
        Seq::empty()
    } else {
        flat_map(s.drop_last(), f) + f(s.last())
    }
}

/// What one restriction does to a file name.
pub open spec fn restrict(r: FilenameRestriction, name: Seq<char>) -> Seq<char> {
    match r {
        FilenameRestriction::Lowercase => unicode_lowercase(name),
        FilenameRestriction::Uppercase => unicode_uppercase(name),
        FilenameRestriction::NoControl => flat_map(
            name,
            |c: char| if is_control(c) { Seq::empty() } else { seq![c] },
        ),
        FilenameRestriction::Ascii => flat_map(
            name,
            |c: char| if (c as u32) < 0x80 { seq![c] } else { code_escape(c) },
        ),
        FilenameRestriction::Unix => flat_map(
            name,
            |c: char| if unix_unsafe(c) { seq!['_'] } else { seq![c] },
        ),
        FilenameRestriction::Windows => flat_map(
            name,
            |c: char| if windows_unsafe(c) { seq!['_'] } else { seq![c] },
        ),
    }
}

/// The restrictions applied in order.
pub open spec fn restrict_all(rs: Seq<FilenameRestriction>, name: Seq<char>) -> Seq<char>
    decreases rs.len(),
{
    if rs.len() == 0 {
        name
    } else {
        restrict(rs.last(), restrict_all(rs.drop_last(), name))
    }
}

/// The UTF-8 bytes of a character.
fn utf8_bytes(c: char) -> (r: Vec<u8>)
    ensures
        r@ == vstd::utf8::encode_utf8(seq![c]),
{
    let v = c as u32;
    let mut r: Vec<u8> = Vec::new();
    if v <= 0x7F {
        r.push((v & 0x7F) as u8);
    } else if v <= 0x7FF {
        r.push(0xC0 | ((v >> 6) & 0x1F) as u8);
        r.push(0x80 | (v & 0x3F) as u8);
    } else if v <= 0xFFFF {
        r.push(0xE0 | ((v >> 12) & 0x0F) as u8);
        r.push(0x80 | ((v >> 6) & 0x3F) as u8);
        r.push(0x80 | (v & 0x3F) as u8);
        assert(vstd::utf8::has_width_3_encoding(v));
    } else {
        r.push(0xF0 | ((v >> 18) & 0x7) as u8);
        r.push(0x80 | ((v >> 12) & 0x3F) as u8);
        r.push(0x80 | ((v >> 6) & 0x3F) as u8);
        r.push(0x80 | (v & 0x3F) as u8);
    }
    proof {
        let cs = seq![c];
        assert(cs.drop_first() =~= Seq::<char>::empty());
        assert(vstd::utf8::encode_utf8(cs) =~= vstd::utf8::encode_scalar(v) + vstd::utf8::encode_utf8(cs.drop_first()));
        assert(!(0xD800 <= v && v <= 0xDFFF) && v <= 0x10FFFF);
        assert(r@ =~= vstd::utf8::encode_scalar(v));
    }
    r
}

/// Append the `%XX` escapes of some bytes.
fn push_escapes(out: &mut Vec<char>, bytes: &Vec<u8>)
    ensures
        final(out)@ == old(out)@ + crate::urls::escape_bytes(bytes@),
{
    let ghost start = out@;
    let mut i: usize = 0;
    assert(bytes@.take(0) =~= Seq::<u8>::empty());
    assert(out@ =~= start + crate::urls::escape_bytes(bytes@.take(0)));
    while i < bytes.len()
        invariant
            i <= bytes.len(),
            out@ == start + crate::urls::escape_bytes(bytes@.take(i as int)),
        decreases bytes.len() - i,
    {
        let b = bytes[i];
        assert(bytes@.take(i + 1).drop_last() =~= bytes@.take(i as int));
        assert(bytes@.take(i + 1).last() == b);
        out.push('%');
        out.push(hex_char((b / 16) as u32));
        out.push(hex_char((b % 16) as u32));
        assert(out@ =~= start + crate::urls::escape_bytes(bytes@.take(i + 1)));
        i += 1;
    }
    assert(bytes@.take(bytes@.len() as int) =~= bytes@);
}

/// The uppercase hex digit of a value below 16.
fn hex_char(d: u32) -> (c: char)
    requires
        d < 16,
    ensures
        c == crate::urls::hex_digit(d as nat),
{
    match d {
        0 => '0',
        1 => '1',
        2 => '2',
        3 => '3',
        4 => '4',
        5 => '5',
        6 => '6',
        7 => '7',
        8 => '8',
        9 => '9',
        10 => 'A',
        11 => 'B',
        12 => 'C',
        13 => 'D',
        14 => 'E',
        _ => 'F',
    }
}

impl FilenameRestriction {
    /// Apply this restriction to a filename.
    pub fn apply(&self, filename: &str) -> (r: String)
        ensures
            r@ == restrict(*self, filename@),
    {
        match self {
            FilenameRestriction::Lowercase => to_lowercase(filename),
            FilenameRestriction::Uppercase => to_uppercase(filename),
            _ => {
                let s = chars_of(filename);
                let mut out: Vec<char> = Vec::new();
                let mut i: usize = 0;
                while i < s.len()
                    invariant
                        i <= s.len(),
                        s@ == filename@,
                        *self !is Lowercase && *self !is Uppercase,
                        out@ == restrict(*self, s@.take(i as int)),
                    decreases s.len() - i,
                {
                    proof {
                        assert(s@.take(i + 1).drop_last() =~= s@.take(i as int));
                        assert(s@.take(i + 1).last() == s@[i as int]);
                    }
                    let c = s[i];
                    let code = c as u32;
                    match self {
                        FilenameRestriction::NoControl => {
                            if !(code < 0x20 || code == 0x7f) {
                                out.push(c);
                            }
                            assert(out@ =~= restrict(*self, s@.take(i + 1)));
                        },
                        FilenameRestriction::Ascii => {
                            if code < 0x80 {
                                out.push(c);
                            } else {
                                push_escapes(&mut out, &utf8_bytes(c));
                            }
                            assert(out@ =~= restrict(*self, s@.take(i + 1)));
                        },
                        FilenameRestriction::Unix => {
                            if c == '\\' || c == ':' || c == '*' || c == '?' || c == '"' || c == '<' || c == '>' || c == '|' {
                                out.push('_');
                            } else {
                                out.push(c);
                            }
                            assert(out@ =~= restrict(*self, s@.take(i + 1)));
                        },
                        _ => {
                            if c == '/' || c == '\\' || c == ':' || c == '*' || c == '?' || c == '"' || c == '<' || c == '>' || c == '|' {
                                out.push('_');
                            } else {
                                out.push(c);
                            }
                            assert(out@ =~= restrict(*self, s@.take(i + 1)));
                        },
                    }
                    i += 1;
                }
                assert(s@.take(s@.len() as int) =~= s@);
                string_of(out.as_slice())
            },
        }
    }

    /// Parse a restriction mode name, case-insensitively.
    pub fn from_str(s: &str) -> (r: Option<FilenameRestriction>)
        ensures
            r == restriction_named(unicode_lowercase(s@)),
    {
        let l = lower_chars(&chars_of(s));
        let v = l.as_slice();
        if eq_lit(v, "lowercase") { Some(FilenameRestriction::Lowercase) }
        else if eq_lit(v, "uppercase") { Some(FilenameRestriction::Uppercase) }
        else if eq_lit(v, "nocontrol") { Some(FilenameRestriction::NoControl) }
        else if eq_lit(v, "ascii") { Some(FilenameRestriction::Ascii) }
        else if eq_lit(v, "unix") { Some(FilenameRestriction::Unix) }
        else if eq_lit(v, "windows") { Some(FilenameRestriction::Windows) }
        else { None }
    }
}

/// The restriction a lowercased mode name stands for.
pub open spec fn restriction_named(lower: Seq<char>) -> Option<FilenameRestriction> {
    if lower == "lowercase"@ { Some(FilenameRestriction::Lowercase) }
    else if lower == "uppercase"@ { Some(FilenameRestriction::Uppercase) }
    else if lower == "nocontrol"@ { Some(FilenameRestriction::NoControl) }
    else if lower == "ascii"@ { Some(FilenameRestriction::Ascii) }
    else if lower == "unix"@ { Some(FilenameRestriction::Unix) }
    else if lower == "windows"@ { Some(FilenameRestriction::Windows) }
    else { None }
}

/// Apply a list of filename restrictions in order.
pub fn apply_filename_restrictions(filename: &str, restrictions: &[FilenameRestriction]) -> (r: String)
    ensures
        r@ == restrict_all(restrictions@, filename@),
{
    let mut name = string_of(chars_of(filename).as_slice());
    let mut i: usize = 0;
    while i < restrictions.len()
        invariant
            i <= restrictions.len(),
            name@ == restrict_all(restrictions@.take(i as int), filename@),
        decreases restrictions.len() - i,
    {
        proof {
            assert(restrictions@.take(i + 1).drop_last() =~= restrictions@.take(i as int));
            assert(restrictions@.take(i + 1).last() == restrictions@[i as int]);
        }
        name = restrictions[i].apply(name.as_str());
        i += 1;
    }
    assert(restrictions@.take(restrictions@.len() as int) =~= restrictions@);
    name
}

} // verus!

verus! {

/// Proxy configuration.
#[derive(Debug, Clone)]
pub struct ProxyConfig {
    /// Proxy URL
    pub url: String,
    /// Proxy authentication (user, password)
    pub auth: Option<(String, String)>,
    /// Domains to bypass the proxy for (`no_proxy` list)
    pub no_proxy: Vec<String>,
}

/// Whether one `no_proxy` pattern (trimmed, lowercased) covers a host:
/// `.domain` covers only subdomains of `domain`; `domain` covers the domain
/// itself and its subdomains; an empty pattern covers nothing.
pub open spec fn pattern_covers(host: Seq<char>, raw: Seq<char>) -> bool {
    let p = unicode_lowercase(trim(raw));
    if p.len() == 0 {
        false
    } else if p[0] == '.' {
        has_suffix(host, p) && host != p.drop_first()
    } else {
        host == p || has_suffix(host, seq!['.'] + p)
    }
}

/// Whether a URL bypasses the proxy: it parses, has a host, and some
/// pattern covers the lowercased host.
pub open spec fn bypasses(url: Seq<char>, patterns: Seq<Seq<char>>) -> bool {
    match url_parse(url) {
        Ok(u) => match u.host {
            Some(h) => exists|i: int| 0 <= i < patterns.len() && pattern_covers(unicode_lowercase(h), #[trigger] patterns[i]),
            None => false,
        },
        Err(_) => false,
    }
}

impl ProxyConfig {
    /// Check if a URL should bypass the proxy based on the `no_proxy` list.
    pub fn should_bypass(&self, url: &str) -> (r: bool)
        ensures
            r == bypasses(url@, self.no_proxy@.map_values(|p: String| p@)),
    {
        let parsed = match parse_url(url) {
            Ok(u) => u,
            Err(_) => return false,
        };
        let host = match &parsed.host {
            Some(h) => lower_chars(&chars_of(h.as_str())),
            None => return false,
        };
        let ghost pats = self.no_proxy@.map_values(|p: String| p@);
        let mut i: usize = 0;
        while i < self.no_proxy.len()
            invariant
                i <= self.no_proxy.len(),
                pats == self.no_proxy@.map_values(|p: String| p@),
                url_parse(url@) == Ok::<UrlView, Seq<char>>(parsed@),
                parsed@.host is Some,
                host@ == unicode_lowercase(parsed@.host->0),
                forall|j: int| 0 <= j < i ==> !pattern_covers(host@, #[trigger] pats[j]),
            decreases self.no_proxy.len() - i,
        {
            assert(pats[i as int] == self.no_proxy@[i as int]@);
            let p = lower_chars(&trim_chars(&chars_of(self.no_proxy[i].as_str())));
            if p.len() > 0 {
                if p[0] == '.' {
                    let domain = sub_vec(&p, 1, p.len());
                    assert(domain@ =~= p@.drop_first());
                    if ends_with(host.as_slice(), p.as_slice()) && !eq_chars(host.as_slice(), domain.as_slice()) {
                        assert(pattern_covers(host@, pats[i as int]));
                        return true;
                    }
                } else {
                    let mut dotted: Vec<char> = Vec::new();
                    dotted.push('.');
                    append_chars(&mut dotted, &p);
                    assert(dotted@ =~= seq!['.'] + p@);
                    if eq_chars(host.as_slice(), p.as_slice()) || ends_with(host.as_slice(), dotted.as_slice()) {
                        assert(pattern_covers(host@, pats[i as int]));
                        return true;
                    }
                }
            }
            i += 1;
        }
        false
    }
}

/// A character Windows file names cannot hold: / \ : * ? " < > |
pub open spec fn windows_forbidden(c: char) -> bool {
    c == '/' || c == '\\' || c == ':' || c == '*' || c == '?' || c == '"' || c == '<' || c == '>' || c == '|'
}

/// The Windows restriction leaves none of / \ : * ? " < > | in a name:
/// each such character becomes `_`, every other stays, so the name keeps
/// its length and its other characters.
pub proof fn lemma_windows_names_safe(name: Seq<char>)
    ensures
        restrict(FilenameRestriction::Windows, name).len() == name.len(),
        forall|i: int| 0 <= i < name.len() ==> !windows_forbidden(
            #[trigger] restrict(FilenameRestriction::Windows, name)[i],
        ),
        forall|i: int| 0 <= i < name.len() ==> (#[trigger] restrict(FilenameRestriction::Windows, name)[i])
            == if windows_forbidden(name[i]) {
                '_'
            } else {
                name[i]
            },
    decreases name.len(),
{
    if name.len() > 0 {
        let d = name.drop_last();
        lemma_windows_names_safe(d);
        let f = |c: char| if windows_unsafe(c) { seq!['_'] } else { seq![c] };
        assert(restrict(FilenameRestriction::Windows, name) == flat_map(d, f) + f(name.last()));
        assert(restrict(FilenameRestriction::Windows, d) == flat_map(d, f));
        assert forall|i: int| 0 <= i < name.len() implies (#[trigger] restrict(FilenameRestriction::Windows, name)[i])
            == if windows_forbidden(name[i]) { '_' } else { name[i] } by {
            if i < d.len() {
                assert(d[i] == name[i]);
            } else {
                assert(name[i] == name.last());
            }
        }
    }
}

/// A `no_proxy` pattern without a leading dot covers its domain and every
/// subdomain of it: a URL whose host (lowercased) is the pattern (trimmed
/// and lowercased) or ends with `.` and the pattern bypasses the proxy.
pub proof fn lemma_no_proxy_covers_subdomains(url: Seq<char>, patterns: Seq<Seq<char>>, i: int, u: UrlView, h: Seq<char>)
    requires
        0 <= i < patterns.len(),
        url_parse(url) == Ok::<UrlView, Seq<char>>(u),
        u.host == Some(h),
        unicode_lowercase(trim(patterns[i])).len() > 0,
        unicode_lowercase(trim(patterns[i]))[0] != '.',
        unicode_lowercase(h) == unicode_lowercase(trim(patterns[i]))
            || has_suffix(unicode_lowercase(h), seq!['.'] + unicode_lowercase(trim(patterns[i]))),
    ensures
        bypasses(url, patterns),
{
    assert(pattern_covers(unicode_lowercase(h), patterns[i]));
}

/// A `no_proxy` pattern with a leading dot covers the subdomains of the
/// domain after the dot, not that domain itself.
pub proof fn lemma_dotted_pattern_covers_subdomains(h: Seq<char>, pattern: Seq<char>)
    requires
        unicode_lowercase(trim(pattern)).len() > 0,
        unicode_lowercase(trim(pattern))[0] == '.',
    ensures
        has_suffix(h, unicode_lowercase(trim(pattern))) && h != unicode_lowercase(trim(pattern)).drop_first()
            ==> pattern_covers(h, pattern),
        h == unicode_lowercase(trim(pattern)).drop_first() ==> !pattern_covers(h, pattern),
{
}

} // verus!
