//! HTTP cookies: a jar grouped by lowercased domain, domain and path
//! matching, expiry, `Cookie` header building and `Set-Cookie` parsing.
use vstd::prelude::*;
use crate::text::{
    append_chars, chars_of, eq_chars, eq_lit, has_prefix, has_suffix, join, join_chars,
    lower_chars, parse_i32, parse_i32_spec, parse_u32, parse_u32_spec, parse_u64,
    parse_u64_spec, push_str, split_chars, split_on, starts_with, string_of, sub_vec, trim,
    trim_chars, unicode_lowercase, views, ends_with, date_fields, split_date_fields, sub_slice,
    decimal, decimal_chars, lines, split_lines, is_ws, strip_cr, lemma_decimal_avoids, lemma_join_avoids,
    lemma_join_first, lemma_join_last, lemma_parse_decimal, lemma_split_join, lemma_split_on_after_sep,
    lemma_split_on_single, lemma_trim_unchanged, lemma_lines_push, lemma_lines_single,
};

verus! {

/// An HTTP cookie with all its attributes.
#[derive(Debug)]
pub struct Cookie {
    /// Domain this cookie applies to (e.g., "example.com")
    pub domain: String,
    /// Whether this cookie should be sent to subdomains
    pub include_subdomains: bool,
    /// Path this cookie applies to (e.g., "/", "/api")
    pub path: String,
    /// Whether this cookie should only be sent over HTTPS
    pub secure: bool,
    /// Expiration time as Unix timestamp, None for session cookies
    pub expiration: Option<u64>,
    /// Cookie name
    pub name: String,
    /// Cookie value
    pub value: String,
}

/// The contents of a [`Cookie`].
pub ghost struct CookieView {
    /// Domain
    pub domain: Seq<char>,
    /// Whether sent to subdomains
    pub include_subdomains: bool,
    /// Path prefix
    pub path: Seq<char>,
    /// HTTPS only
    pub secure: bool,
    /// Expiration (Unix seconds)
    pub expiration: Option<u64>,
    /// Name
    pub name: Seq<char>,
    /// Value
    pub value: Seq<char>,
}

impl View for Cookie {
    type V = CookieView;

    open spec fn view(&self) -> CookieView {
        CookieView {
            domain: self.domain@,
            include_subdomains: self.include_subdomains,
            path: self.path@,
            secure: self.secure,
            expiration: self.expiration,
            name: self.name@,
            value: self.value@,
        }
    }
}

impl Clone for Cookie {
    fn clone(&self) -> (r: Self)
        ensures
            r@ == self@,
    {
        Cookie {
            domain: self.domain.clone(),
            include_subdomains: self.include_subdomains,
            path: self.path.clone(),
            secure: self.secure,
            expiration: self.expiration,
            name: self.name.clone(),
            value: self.value.clone(),
        }
    }
}

/// The cookies of a jar: for each lowercased domain (in the order the
/// domains were first seen), its cookies in the order they were added.
pub type Groups = Seq<(Seq<char>, Seq<CookieView>)>;

/// Cookie jar for managing HTTP cookies.
#[derive(Debug)]
pub struct CookieJar {
    cookies: Vec<(Vec<char>, Vec<Cookie>)>,
}

/// The cookies of one domain.
pub open spec fn cookie_views(cs: Seq<Cookie>) -> Seq<CookieView> {
    cs.map_values(|c: Cookie| c@)
}

impl View for CookieJar {
    type V = Groups;

    closed spec fn view(&self) -> Groups {
        raw_groups(self.cookies@)
    }
}

/// The groups that a vector of domains and cookies stands for.
spec fn raw_groups(v: Seq<(Vec<char>, Vec<Cookie>)>) -> Groups {
    v.map_values(|g: (Vec<char>, Vec<Cookie>)| (g.0@, cookie_views(g.1@)))
}

/// No domain occurs twice.
pub open spec fn groups_unique(g: Groups) -> bool {
    forall|i: int, j: int| 0 <= i < j < g.len() ==> g[i].0 != g[j].0
}

/// The position of a domain among the groups.
pub open spec fn group_pos(g: Groups, key: Seq<char>) -> Option<int> {
    if exists|i: int| 0 <= i < g.len() && g[i].0 == key {
        Some(choose|i: int| 0 <= i < g.len() && g[i].0 == key)
    } else {
        None
    }
}

/// The jar after adding a cookie under its lowercased domain.
pub open spec fn jar_add(g: Groups, c: CookieView) -> Groups {
    let key = unicode_lowercase(c.domain);
    match group_pos(g, key) {
        Some(i) => g.update(i, (key, g[i].1.push(c))),
        None => g.push((key, seq![c])),
    }
}

/// Whether a request domain matches a cookie domain: equal, or the cookie
/// domain starts with `.` and the request domain ends with it or equals it
/// without the dot.
pub open spec fn spec_domain_matches(request_domain: Seq<char>, cookie_domain: Seq<char>) -> bool {
    request_domain == cookie_domain || (cookie_domain.len() > 0 && cookie_domain[0] == '.' && (
    has_suffix(request_domain, cookie_domain) || request_domain == cookie_domain.drop_first()))
}

/// Whether a cookie has expired at time `now` (Unix seconds).
pub open spec fn expired(c: CookieView, now: u64) -> bool {
    match c.expiration {
        Some(e) => now > e,
        None => false,
    }
}

/// Whether a cookie filed under `key` is meant for a request domain: the
/// domains match (see [`spec_domain_matches`]), or the cookie is sent to
/// subdomains and the request domain is a subdomain of `key`.
pub open spec fn reaches(request_domain: Seq<char>, key: Seq<char>, c: CookieView) -> bool {
    spec_domain_matches(request_domain, key) || (c.include_subdomains && has_suffix(
        request_domain,
        seq!['.'] + key,
    ))
}

/// The cookies of a group under `key` that are sent for a request domain
/// at time `now`: those that have not expired and reach it, in order.
pub open spec fn sent_cookies(cs: Seq<CookieView>, request_domain: Seq<char>, key: Seq<char>, now: u64) -> Seq<CookieView>
    decreases cs.len(),
{
    if cs.len() == 0 {
        cs
    } else if !expired(cs.last(), now) && reaches(request_domain, key, cs.last()) {
        sent_cookies(cs.drop_last(), request_domain, key, now).push(cs.last())
    } else {
        sent_cookies(cs.drop_last(), request_domain, key, now)
    }
}

/// The live cookies meant for the (lowercased) request domain (see
/// [`reaches`]), group by group.
pub open spec fn cookies_for(g: Groups, request_domain: Seq<char>, now: u64) -> Seq<CookieView>
    decreases g.len(),
{
    if g.len() == 0 {
        Seq::empty()
    } else {
        cookies_for(g.drop_last(), request_domain, now) + sent_cookies(g.last().1, request_domain, g.last().0, now)
    }
}

/// Every cookie of the groups, group by group.
pub open spec fn all_held(g: Groups) -> Seq<CookieView>
    decreases g.len(),
{
    if g.len() == 0 {
        Seq::empty()
    } else {
        all_held(g.drop_last()) + g.last().1
    }
}

/// Whether a cookie is sent with a request for `path` over a connection
/// that is secure or not.
pub open spec fn sent_with(c: CookieView, path: Seq<char>, secure: bool) -> bool {
    has_prefix(path, c.path) && !(c.secure && !secure)
}

/// The `name=value` pairs of the cookies sent with a request.
pub open spec fn header_pairs(cs: Seq<CookieView>, path: Seq<char>, secure: bool) -> Seq<Seq<char>>
    decreases cs.len(),
{
    if cs.len() == 0 {
        Seq::empty()
    } else {
        let r = header_pairs(cs.drop_last(), path, secure);
        let c = cs.last();
        if sent_with(c, path, secure) {
            r.push(c.name + "="@ + c.value)
        } else {
            r
        }
    }
}

/// The `Cookie` header for a request: the pairs joined with `; `, or none.
pub open spec fn cookie_header(g: Groups, domain: Seq<char>, path: Seq<char>, secure: bool, now: u64) -> Option<Seq<char>> {
    let pairs = header_pairs(cookies_for(g, unicode_lowercase(domain), now), path, secure);
    if pairs.len() == 0 {
        None
    } else {
        Some(join(pairs, "; "@))
    }
}

/// Check if a domain matches a cookie domain.
pub fn domain_matches(request_domain: &str, cookie_domain: &str) -> (r: bool)
    ensures
        r == spec_domain_matches(request_domain@, cookie_domain@),
{
    let rd = chars_of(request_domain);
    let cd = chars_of(cookie_domain);
    domain_matches_chars(&rd, &cd)
}

/// [`domain_matches`] on character strings.
fn domain_matches_chars(rd: &Vec<char>, cd: &Vec<char>) -> (r: bool)
    ensures
        r == spec_domain_matches(rd@, cd@),
{
    if eq_chars(rd.as_slice(), cd.as_slice()) {
        return true;
    }
    if cd.len() > 0 && cd[0] == '.' {
        let tail = sub_vec(cd, 1, cd.len());
        assert(tail@ =~= cd@.drop_first());
        ends_with(rd.as_slice(), cd.as_slice()) || eq_chars(rd.as_slice(), tail.as_slice())
    } else {
        false
    }
}

/// The current time in Unix seconds; `None` when the clock reads before
/// the Unix epoch.
///
/// Trusted: reads the system clock through `std::time::SystemTime::now`
/// and measures it with `duration_since(UNIX_EPOCH)` (an error for an
/// earlier time) and `Duration::as_secs`; nothing is promised of the value.
#[verifier::external_body]
fn now_unix_secs() -> Option<u64> {
    std::time::SystemTime::now().duration_since(std::time::UNIX_EPOCH).ok().map(|d| d.as_secs())
}

/// The time at which a clock-dependent operation runs: the current Unix
/// time in seconds, a clock before the epoch counting as time 0.
fn current_time() -> u64 {
    match now_unix_secs() {
        Some(t) => t,
        None => 0,
    }
}

impl CookieJar {
    /// No domain occurs twice.
    #[verifier::type_invariant]
    spec fn wf(self) -> bool {
        well_keyed(self@)
    }

    /// Create a new empty cookie jar.
    pub fn new() -> (r: Self)
        ensures
            r@ == Seq::<(Seq<char>, Seq<CookieView>)>::empty(),
    {
        let r = CookieJar { cookies: Vec::new() };
        assert(r@ =~= Seq::<(Seq<char>, Seq<CookieView>)>::empty());
        r
    }

    /// Add a cookie to the jar, under its lowercased domain.
    pub fn add_cookie(&mut self, cookie: Cookie)
        ensures
            final(self)@ == jar_add(old(self)@, cookie@),
    {
        proof {
            use_type_invariant(&*self);
        }
        let ghost g = self@;
        let ghost cv = cookie@;
        let key = lower_chars(&chars_of(cookie.domain.as_str()));
        let mut k: usize = 0;
        while k < self.cookies.len()
            invariant
                k <= self.cookies.len(),
                g == self@,
                g == old(self)@,
                groups_unique(g),
                well_keyed(g),
                key@ == unicode_lowercase(cv.domain),
                cv == cookie@,
                forall|m: int| 0 <= m < k ==> g[m].0 != key@,
            decreases self.cookies.len() - k,
        {
            assert(g[k as int].0 == self.cookies@[k as int].0@);
            if eq_chars(self.cookies[k].0.as_slice(), key.as_slice()) {
                let mut cookies: Vec<(Vec<char>, Vec<Cookie>)> = Vec::new();
                std::mem::swap(&mut cookies, &mut self.cookies);
                let ghost old_raw = cookies@;
                let (kk, mut group) = cookies.remove(k);
                let ghost old_group = group@;
                group.push(cookie);
                proof {
                    assert forall|m: int| 0 <= m < group@.len() implies #[trigger] cookie_views(group@)[m]
                        == cookie_views(old_group).push(cv)[m] by {
                        if m < old_group.len() {
                            assert(group@[m] == old_group[m]);
                        }
                    }
                    assert(cookie_views(group@) =~= cookie_views(old_group).push(cv));
                }
                cookies.insert(k, (kk, group));
                proof {
                    assert(cookies@ =~= old_raw.update(k as int, (old_raw[k as int].0, group)));
                    assert(raw_groups(cookies@) =~= g.update(k as int, (key@, g[k as int].1.push(cv))));
                    assert(group_pos(g, key@) == Some(k as int)) by {
                        let i = choose|i: int| 0 <= i < g.len() && g[i].0 == key@;
                        if i != k {
                            if i < k {
                            } else {
                                assert(g[k as int].0 == g[i].0);
                            }
                        }
                    }
                    assert(raw_groups(cookies@) =~= jar_add(g, cv));
                    lemma_jar_add_keeps(g, cv);
                }
                self.cookies = cookies;
                proof {
                    assert(self@ =~= jar_add(g, cv));
                }
                return;
            }
            k += 1;
        }
        let mut group: Vec<Cookie> = Vec::new();
        group.push(cookie);
        let mut cookies: Vec<(Vec<char>, Vec<Cookie>)> = Vec::new();
        std::mem::swap(&mut cookies, &mut self.cookies);
        let ghost old_raw = cookies@;
        let ghost kv = key@;
        cookies.push((key, group));
        proof {
            assert(cookie_views(group@) =~= seq![cv]);
            assert(raw_groups(cookies@) =~= g.push((kv, seq![cv])));
            assert(group_pos(g, kv) is None);
            assert(raw_groups(cookies@) =~= jar_add(g, cv));
            lemma_jar_add_keeps(g, cv);
        }
        self.cookies = cookies;
        proof {
            assert(self@ =~= jar_add(g, cv));
        }
    }

    /// The live cookies meant for the lowercased request domain at time
    /// `now` (Unix seconds): those of a matching domain group, and those
    /// sent to subdomains when the request domain is a subdomain of their
    /// group's domain (see [`reaches`]).
    pub fn get_cookies_for_domain_at(&self, domain: &str, now: u64) -> (r: Vec<&Cookie>)
        ensures
            r@.map_values(|c: &Cookie| c@) == cookies_for(self@, unicode_lowercase(domain@), now),
            r@.map_values(|c: &Cookie| c@) == all_held(self@).filter(
                |c: CookieView| wanted_by(c, unicode_lowercase(domain@), now),
            ),
    {
        proof {
            use_type_invariant(self);
            lemma_cookies_for_is_filter(self@, unicode_lowercase(domain@), now);
        }
        let d = lower_chars(&chars_of(domain));
        let ghost g = self@;
        let mut result: Vec<&Cookie> = Vec::new();
        let mut i: usize = 0;
        while i < self.cookies.len()
            invariant
                i <= self.cookies.len(),
                g == self@,
                d@ == unicode_lowercase(domain@),
                result@.map_values(|c: &Cookie| c@) == cookies_for(g.take(i as int), d@, now),
            decreases self.cookies.len() - i,
        {
            proof {
                assert(g.take(i + 1).drop_last() =~= g.take(i as int));
                assert(g.take(i + 1).last() == g[i as int]);
                assert(g[i as int] == (self.cookies@[i as int].0@, cookie_views(self.cookies@[i as int].1@)));
            }
            let group = &self.cookies[i];
            let dm = domain_matches_chars(&d, &group.0);
            let mut dotted = vec!['.'];
            append_chars(&mut dotted, &group.0);
            let sub = ends_with(d.as_slice(), dotted.as_slice());
            assert(dotted@ =~= seq!['.'] + group.0@);
            let ghost before = result@.map_values(|c: &Cookie| c@);
            let ghost key = group.0@;
            let cs = &group.1;
            let mut j: usize = 0;
            while j < cs.len()
                invariant
                    j <= cs.len(),
                    dm == spec_domain_matches(d@, key),
                    sub == has_suffix(d@, seq!['.'] + key),
                    result@.map_values(|c: &Cookie| c@) == before + sent_cookies(cookie_views(cs@).take(j as int), d@, key, now),
                decreases cs.len() - j,
            {
                proof {
                    assert(cookie_views(cs@).take(j + 1).drop_last() =~= cookie_views(cs@).take(j as int));
                    assert(cookie_views(cs@).take(j + 1).last() == cs@[j as int]@);
                }
                let c = &cs[j];
                let exp = match c.expiration {
                    Some(e) => now > e,
                    None => false,
                };
                if !exp && (dm || (c.include_subdomains && sub)) {
                    let ghost old_r = result@.map_values(|c: &Cookie| c@);
                    result.push(c);
                    assert(result@.map_values(|c: &Cookie| c@) =~= old_r.push(c@));
                }
                j += 1;
            }
            assert(cookie_views(cs@).take(cs@.len() as int) =~= cookie_views(cs@));
            i += 1;
        }
        assert(g.take(g.len() as int) =~= g);
        result
    }

    /// Every cookie held, expired ones too, group by group.
    pub fn all_cookies(&self) -> (r: Vec<&Cookie>)
        ensures
            r@.map_values(|c: &Cookie| c@) == all_held(self@),
    {
        let ghost g = self@;
        let mut result: Vec<&Cookie> = Vec::new();
        let mut i: usize = 0;
        assert(g.take(0) =~= Seq::<(Seq<char>, Seq<CookieView>)>::empty());
        assert(result@.map_values(|c: &Cookie| c@) =~= Seq::<CookieView>::empty());
        while i < self.cookies.len()
            invariant
                i <= self.cookies.len(),
                g == self@,
                result@.map_values(|c: &Cookie| c@) == all_held(g.take(i as int)),
            decreases self.cookies.len() - i,
        {
            proof {
                assert(g.take(i + 1).drop_last() =~= g.take(i as int));
                assert(g.take(i + 1).last() == g[i as int]);
                assert(g[i as int] == (self.cookies@[i as int].0@, cookie_views(self.cookies@[i as int].1@)));
            }
            let cs = &self.cookies[i].1;
            let ghost before = result@.map_values(|c: &Cookie| c@);
            let mut j: usize = 0;
            assert(cookie_views(cs@).take(0) =~= Seq::<CookieView>::empty());
            assert(before + cookie_views(cs@).take(0) =~= before);
            while j < cs.len()
                invariant
                    j <= cs.len(),
                    result@.map_values(|c: &Cookie| c@) == before + cookie_views(cs@).take(j as int),
                decreases cs.len() - j,
            {
                let c = &cs[j];
                let ghost old_r = result@.map_values(|c: &Cookie| c@);
                result.push(c);
                assert(result@.map_values(|c: &Cookie| c@) =~= old_r.push(c@));
                assert(cookie_views(cs@).take(j + 1) =~= cookie_views(cs@).take(j as int).push(cs@[j as int]@));
                j += 1;
            }
            assert(cookie_views(cs@).take(cs@.len() as int) =~= cookie_views(cs@));
            i += 1;
        }
        assert(g.take(g.len() as int) =~= g);
        result
    }

    /// Get cookies for a domain: the live cookies meant for the lowercased
    /// request domain (see [`reaches`]), at the time of the call.
    pub fn get_cookies_for_domain(&self, domain: &str) -> (r: Vec<&Cookie>)
        ensures
            exists|now: u64| {
                &&& r@.map_values(|c: &Cookie| c@) == cookies_for(self@, unicode_lowercase(domain@), now)
                &&& r@.map_values(|c: &Cookie| c@) == all_held(self@).filter(
                    |c: CookieView| wanted_by(c, unicode_lowercase(domain@), now),
                )
            },
    {
        let now = current_time();
        self.get_cookies_for_domain_at(domain, now)
    }

    /// The `Cookie` header value for a request at time `now`: the
    /// `name=value` pairs of the live cookies meant for the domain whose path is a
    /// prefix of the request path and that are not secure-only on an
    /// insecure request, joined with `; `; none when no cookie is sent.
    pub fn to_cookie_header_at(&self, domain: &str, path: &str, secure: bool, now: u64) -> (r: Option<String>)
        ensures
            match r {
                Some(h) => cookie_header(self@, domain@, path@, secure, now) == Some(h@),
                None => cookie_header(self@, domain@, path@, secure, now) is None,
            },
    {
        let cookies = self.get_cookies_for_domain_at(domain, now);
        let ghost cv = cookies@.map_values(|c: &Cookie| c@);
        let p = chars_of(path);
        let mut pairs: Vec<Vec<char>> = Vec::new();
        let mut i: usize = 0;
        while i < cookies.len()
            invariant
                i <= cookies.len(),
                cv == cookies@.map_values(|c: &Cookie| c@),
                p@ == path@,
                views(pairs@) == header_pairs(cv.take(i as int), path@, secure),
            decreases cookies.len() - i,
        {
            proof {
                assert(cv.take(i + 1).drop_last() =~= cv.take(i as int));
                assert(cv.take(i + 1).last() == cookies@[i as int]@);
            }
            let c = cookies[i];
            let cp = chars_of(c.path.as_str());
            if starts_with(p.as_slice(), cp.as_slice()) && !(c.secure && !secure) {
                let mut pair = chars_of(c.name.as_str());
                push_str(&mut pair, "=");
                push_str(&mut pair, c.value.as_str());
                let ghost old_p = views(pairs@);
                pairs.push(pair);
                assert(views(pairs@) =~= old_p.push(c.name@ + "="@ + c.value@));
            }
            i += 1;
        }
        assert(cv.take(cv.len() as int) =~= cv);
        if pairs.len() == 0 {
            None
        } else {
            let joined = join_chars(&pairs, "; ");
            Some(string_of(joined.as_slice()))
        }
    }

    /// Convert cookies to a `Cookie` header value for a request, at the time
    /// of the call (see [`CookieJar::to_cookie_header_at`]).
    pub fn to_cookie_header(&self, domain: &str, path: &str, secure: bool) -> (r: Option<String>)
        ensures
            exists|now: u64| match r {
                Some(h) => cookie_header(self@, domain@, path@, secure, now) == Some(h@),
                None => cookie_header(self@, domain@, path@, secure, now) is None,
            },
    {
        let now = current_time();
        self.to_cookie_header_at(domain, path, secure, now)
    }
}


/// The number of the month named by its three-letter English abbreviation
/// (any case).
pub open spec fn month_number(m: Seq<char>) -> Option<u32> {
    let l = unicode_lowercase(m);
    if l == "jan"@ { Some(1) }
    else if l == "feb"@ { Some(2) }
    else if l == "mar"@ { Some(3) }
    else if l == "apr"@ { Some(4) }
    else if l == "may"@ { Some(5) }
    else if l == "jun"@ { Some(6) }
    else if l == "jul"@ { Some(7) }
    else if l == "aug"@ { Some(8) }
    else if l == "sep"@ { Some(9) }
    else if l == "oct"@ { Some(10) }
    else if l == "nov"@ { Some(11) }
    else if l == "dec"@ { Some(12) }
    else { None }
}

/// Parse month name to month number (1-12).
pub fn parse_month(month_str: &str) -> (r: Option<u32>)
    ensures
        r == month_number(month_str@),
{
    let l = lower_chars(&chars_of(month_str));
    let s = l.as_slice();
    if eq_lit(s, "jan") { Some(1) }
    else if eq_lit(s, "feb") { Some(2) }
    else if eq_lit(s, "mar") { Some(3) }
    else if eq_lit(s, "apr") { Some(4) }
    else if eq_lit(s, "may") { Some(5) }
    else if eq_lit(s, "jun") { Some(6) }
    else if eq_lit(s, "jul") { Some(7) }
    else if eq_lit(s, "aug") { Some(8) }
    else if eq_lit(s, "sep") { Some(9) }
    else if eq_lit(s, "oct") { Some(10) }
    else if eq_lit(s, "nov") { Some(11) }
    else if eq_lit(s, "dec") { Some(12) }
    else { None }
}

/// Whether a year is a leap year in the proleptic Gregorian calendar.
pub open spec fn is_leap(y: int) -> bool {
    y % 4 == 0 && (y % 100 != 0 || y % 400 == 0)
}

/// The number of days in a month.
pub open spec fn month_days(y: int, m: int) -> int {
    if m == 2 {
        if is_leap(y) { 29 } else { 28 }
    } else if m == 4 || m == 6 || m == 9 || m == 11 {
        30
    } else {
        31
    }
}

/// Days from 1970-01-01 to a proleptic Gregorian date.
pub open spec fn days_from_civil(y: int, m: int, d: int) -> int {
    let yy = if m <= 2 { y - 1 } else { y };
    let era = yy / 400;
    let yoe = yy - era * 400;
    let mp = if m > 2 { m - 3 } else { m + 9 };
    let doy = (153 * mp + 2) / 5 + d - 1;
    let doe = yoe * 365 + yoe / 4 - yoe / 100 + doy;
    era * 146097 + doe - 719468
}

/// The Unix time of a UTC date and time, when chrono accepts them: a month
/// 1-12, a day within the month, an hour below 24, a minute and a second
/// below 60, and a year within chrono's range (-262143 to 262142).
pub open spec fn civil_timestamp(year: i32, month: u32, day: u32, hour: u32, min: u32, sec: u32) -> Option<i64> {
    if -262143 <= year <= 262142 && 1 <= month <= 12 && 1 <= day <= month_days(year as int, month as int)
        && hour < 24 && min < 60 && sec < 60 {
        Some((days_from_civil(year as int, month as int, day as int) * 86400 + hour * 3600 + min * 60
            + sec) as i64)
    } else {
        None
    }
}

/// The Unix time of a UTC date and time.
///
/// Trusted: calls chrono's `NaiveDate::from_ymd_opt`, `NaiveDate::and_hms_opt`
/// and `NaiveDateTime::and_utc().timestamp()`; the contract states chrono's
/// documented validity rules (and its year range from the source) and the
/// proleptic Gregorian day count.
#[verifier::external_body]
fn utc_timestamp(year: i32, month: u32, day: u32, hour: u32, min: u32, sec: u32) -> (r: Option<i64>)
    ensures
        r == civil_timestamp(year, month, day, hour, min, sec),
{
    chrono::NaiveDate::from_ymd_opt(year, month, day)
        .and_then(|d| d.and_hms_opt(hour, min, sec))
        .map(|dt| dt.and_utc().timestamp())
}

/// The expiry time that an `Expires` date gives: fields split at commas and
/// spaces, day (field 1), month name (field 2), year (field 3) and
/// `HH:MM:SS` (field 4), with at least six fields; the day of the week is
/// not checked.
pub open spec fn expires_time(date: Seq<char>) -> Option<u64> {
    let f = date_fields(date);
    if f.len() >= 6 {
        match (parse_u32_spec(f[1]), month_number(f[2]), parse_i32_spec(f[3])) {
            (Some(day), Some(month), Some(year)) => {
                let t = split_on(f[4], ':');
                if t.len() == 3 {
                    match (parse_u32_spec(t[0]), parse_u32_spec(t[1]), parse_u32_spec(t[2])) {
                        (Some(h), Some(mi), Some(sc)) => match civil_timestamp(year, month, day, h, mi, sc) {
                            Some(ts) => Some(ts as u64),
                            None => None,
                        },
                        _ => None,
                    }
                } else {
                    None
                }
            },
            _ => None,
        }
    } else {
        None
    }
}

/// The text after the first `n` characters, when there are that many.
pub open spec fn after(p: Seq<char>, n: int) -> Seq<char> {
    if p.len() >= n { p.skip(n) } else { Seq::empty() }
}

/// The cookie after one `Set-Cookie` attribute.
pub open spec fn apply_attr(c: CookieView, raw: Seq<char>, now: u64) -> CookieView {
    let p = trim(raw);
    let lp = unicode_lowercase(p);
    if lp == "secure"@ {
        CookieView { secure: true, ..c }
    } else if has_prefix(lp, "path="@) {
        if p.len() >= 5 { CookieView { path: trim(p.skip(5)), ..c } } else { c }
    } else if has_prefix(lp, "domain="@) {
        if p.len() >= 7 { CookieView { domain: trim(p.skip(7)), ..c } } else { c }
    } else if has_prefix(lp, "expires="@) {
        match expires_time(trim(after(p, 8))) {
            Some(t) if p.len() >= 8 => CookieView { expiration: Some(t), ..c },
            _ => c,
        }
    } else if has_prefix(lp, "max-age="@) {
        match parse_u64_spec(trim(after(p, 8))) {
            Some(m) if p.len() >= 8 => CookieView { expiration: Some(((now + m) % 0x1_0000_0000_0000_0000) as u64), ..c },
            _ => c,
        }
    } else {
        c
    }
}

/// The cookie after a sequence of attributes.
pub open spec fn apply_attrs(c: CookieView, attrs: Seq<Seq<char>>, now: u64) -> CookieView
    decreases attrs.len(),
{
    if attrs.len() == 0 {
        c
    } else {
        apply_attr(apply_attrs(c, attrs.drop_last(), now), attrs.last(), now)
    }
}

/// The cookie a `Set-Cookie` value describes: the part before the first `;`
/// must be `name=value` with exactly one `=`; defaults are the given domain,
/// subdomains included, path `/`, not secure, no expiry; `Max-Age` counts
/// from `now` (wrapping around on overflow).
pub open spec fn parse_set_cookie(domain: Seq<char>, sc: Seq<char>, now: u64) -> Option<CookieView> {
    let parts = split_on(sc, ';');
    let nv = split_on(parts[0], '=');
    if nv.len() != 2 {
        None
    } else {
        Some(apply_attrs(
            CookieView {
                domain: domain,
                include_subdomains: true,
                path: "/"@,
                secure: false,
                expiration: None,
                name: trim(nv[0]),
                value: trim(nv[1]),
            },
            parts.skip(1),
            now,
        ))
    }
}

/// The jar after a `Set-Cookie` value is applied at time `now`.
pub open spec fn set_cookie_effect(g: Groups, domain: Seq<char>, sc: Seq<char>, now: u64) -> Groups {
    match parse_set_cookie(domain, sc, now) {
        Some(c) => jar_add(g, c),
        None => g,
    }
}

impl CookieJar {
    /// Parse a `Set-Cookie` header value and add the cookie it describes,
    /// with `Max-Age` counted from `now` (Unix seconds); a value whose first
    /// part is not `name=value` changes nothing.
    pub fn add_from_set_cookie_at(&mut self, domain: &str, set_cookie: &str, now: u64)
        ensures
            final(self)@ == set_cookie_effect(old(self)@, domain@, set_cookie@, now),
    {
        let sc = chars_of(set_cookie);
        let parts = split_chars(&sc, ';');
        proof {
            crate::text::lemma_split_on_nonempty(set_cookie@, ';');
            assert(views(parts@)[0] == parts@[0]@);
        }
        let nv = split_chars(&parts[0], '=');
        if nv.len() != 2 {
            return;
        }
        proof {
            assert(views(nv@)[0] == nv@[0]@);
            assert(views(nv@)[1] == nv@[1]@);
        }
        let name = trim_chars(&nv[0]);
        let value = trim_chars(&nv[1]);
        let mut cookie = Cookie {
            domain: string_of(chars_of(domain).as_slice()),
            include_subdomains: true,
            path: string_of(chars_of("/").as_slice()),
            secure: false,
            expiration: None,
            name: string_of(name.as_slice()),
            value: string_of(value.as_slice()),
        };
        let ghost attrs = views(parts@).skip(1);
        let mut i: usize = 1;
        while i < parts.len()
            invariant
                1 <= i <= parts.len(),
                attrs == views(parts@).skip(1),
                cookie@ == apply_attrs(
                    CookieView {
                        domain: domain@,
                        include_subdomains: true,
                        path: "/"@,
                        secure: false,
                        expiration: None,
                        name: trim(views(nv@)[0]),
                        value: trim(views(nv@)[1]),
                    },
                    attrs.take(i - 1),
                    now,
                ),
            decreases parts.len() - i,
        {
            proof {
                assert(attrs.take(i as int).drop_last() =~= attrs.take(i - 1));
                assert(attrs.take(i as int).last() == parts@[i as int]@);
            }
            Self::apply_attribute(&mut cookie, &parts[i], now);
            i += 1;
        }
        assert(attrs.take(parts@.len() - 1) =~= attrs);
        self.add_cookie(cookie);
    }

    /// Apply one attribute, as [`apply_attr`] states.
    fn apply_attribute(cookie: &mut Cookie, raw: &Vec<char>, now: u64)
        ensures
            final(cookie)@ == apply_attr(old(cookie)@, raw@, now),
    {
        let p = trim_chars(raw);
        let lp = lower_chars(&p);
        let ps = p.as_slice();
        let lps = lp.as_slice();
        if eq_lit(lps, "secure") {
            cookie.secure = true;
        } else if starts_with(lps, chars_of("path=").as_slice()) {
            if p.len() >= 5 {
                let v = trim_chars(&sub_vec(&p, 5, p.len()));
                assert(p@.skip(5) =~= p@.subrange(5, p@.len() as int));
                cookie.path = string_of(v.as_slice());
            }
        } else if starts_with(lps, chars_of("domain=").as_slice()) {
            if p.len() >= 7 {
                let v = trim_chars(&sub_vec(&p, 7, p.len()));
                assert(p@.skip(7) =~= p@.subrange(7, p@.len() as int));
                cookie.domain = string_of(v.as_slice());
            }
        } else if starts_with(lps, chars_of("expires=").as_slice()) {
            if p.len() >= 8 {
                let v = trim_chars(&sub_vec(&p, 8, p.len()));
                assert(p@.skip(8) =~= p@.subrange(8, p@.len() as int));
                if let Some(t) = Self::expires_from(&v) {
                    cookie.expiration = Some(t);
                }
            }
        } else if starts_with(lps, chars_of("max-age=").as_slice()) {
            if p.len() >= 8 {
                let v = trim_chars(&sub_vec(&p, 8, p.len()));
                assert(p@.skip(8) =~= p@.subrange(8, p@.len() as int));
                if let Some(m) = parse_u64(v.as_slice()) {
                    cookie.expiration = Some(now.wrapping_add(m));
                }
            }
        }
    }

    /// The expiry time of an `Expires` date, as [`expires_time`] states.
    fn expires_from(date: &Vec<char>) -> (r: Option<u64>)
        ensures
            r == expires_time(date@),
    {
        let f = split_date_fields(date);
        if f.len() < 6 {
            return None;
        }
        proof {
            assert(views(f@)[1] == f@[1]@);
            assert(views(f@)[2] == f@[2]@);
            assert(views(f@)[3] == f@[3]@);
            assert(views(f@)[4] == f@[4]@);
        }
        let day = parse_u32(f[1].as_slice());
        let month = parse_month(&string_of(f[2].as_slice()));
        let year = parse_i32(f[3].as_slice());
        match (day, month, year) {
            (Some(day), Some(month), Some(year)) => {
                let t = split_chars(&f[4], ':');
                if t.len() != 3 {
                    return None;
                }
                proof {
                    assert(views(t@)[0] == t@[0]@);
                    assert(views(t@)[1] == t@[1]@);
                    assert(views(t@)[2] == t@[2]@);
                }
                match (parse_u32(t[0].as_slice()), parse_u32(t[1].as_slice()), parse_u32(t[2].as_slice())) {
                    (Some(h), Some(mi), Some(sc)) => match utc_timestamp(year, month, day, h, mi, sc) {
                        Some(ts) => Some(ts as u64),
                        None => None,
                    },
                    _ => None,
                }
            },
            _ => None,
        }
    }

    /// Parse and add cookies from a `Set-Cookie` header, with `Max-Age`
    /// counted from the time of the call.
    pub fn add_from_set_cookie(&mut self, domain: &str, set_cookie: &str)
        ensures
            exists|now: u64| final(self)@ == set_cookie_effect(old(self)@, domain@, set_cookie@, now),
    {
        let now = current_time();
        self.add_from_set_cookie_at(domain, set_cookie, now);
    }
}

/// Every cookie of a group that is sent for the request domain is among
/// the cookies returned for it.
proof fn lemma_cookies_for_includes(g: Groups, r: Seq<char>, now: u64, j: int, x: CookieView)
    requires
        0 <= j < g.len(),
        sent_cookies(g[j].1, r, g[j].0, now).contains(x),
    ensures
        cookies_for(g, r, now).contains(x),
    decreases g.len(),
{
    let rest = cookies_for(g.drop_last(), r, now);
    if j == g.len() - 1 {
        let sc = sent_cookies(g[j].1, r, g[j].0, now);
        let k = choose|k: int| 0 <= k < sc.len() && sc[k] == x;
        assert((rest + sc)[rest.len() + k] == x);
    } else {
        assert(g.drop_last()[j] == g[j]);
        lemma_cookies_for_includes(g.drop_last(), r, now, j, x);
        let k = choose|k: int| 0 <= k < rest.len() && rest[k] == x;
        assert((rest + sent_cookies(g.last().1, r, g.last().0, now))[k] == x);
    }
}

/// The cookies filed under a domain key, in order (none when the key has
/// no group).
pub open spec fn group_of(g: Groups, key: Seq<char>) -> Seq<CookieView> {
    match group_pos(g, key) {
        Some(i) => g[i].1,
        None => Seq::empty(),
    }
}

/// Adding a cookie appends it, unchanged, to the cookies of its lowercased
/// domain and leaves every other domain's cookies as they were; no cookie
/// is removed or replaced.
pub proof fn lemma_add_cookie_groups(g: Groups, c: CookieView, other: Seq<char>)
    requires
        groups_unique(g),
    ensures
        group_of(jar_add(g, c), unicode_lowercase(c.domain)) == group_of(g, unicode_lowercase(c.domain)).push(c),
        other != unicode_lowercase(c.domain) ==> group_of(jar_add(g, c), other) == group_of(g, other),
        groups_unique(jar_add(g, c)),
{
    let key = unicode_lowercase(c.domain);
    let r = jar_add(g, c);
    lemma_group_pos(g, key);
    lemma_group_pos(g, other);
    match group_pos(g, key) {
        Some(i) => {
            assert(groups_unique(r)) by {
                assert forall|a: int, b: int| 0 <= a < b < r.len() implies r[a].0 != r[b].0 by {
                    assert(r[a].0 == g[a].0 && r[b].0 == g[b].0);
                }
            }
            lemma_group_pos(r, key);
            assert(r[i].0 == key);
            lemma_group_pos(r, other);
            if other != key {
                match group_pos(g, other) {
                    Some(j) => {
                        assert(r[j] == g[j]);
                    },
                    None => {
                        assert forall|m: int| 0 <= m < r.len() implies r[m].0 != other by {
                            assert(r[m].0 == g[m].0);
                        }
                    },
                }
            }
        },
        None => {
            assert(groups_unique(r)) by {
                assert forall|a: int, b: int| 0 <= a < b < r.len() implies r[a].0 != r[b].0 by {
                    if b == g.len() {
                        assert(r[a] == g[a]);
                    } else {
                        assert(r[a] == g[a] && r[b] == g[b]);
                    }
                }
            }
            lemma_group_pos(r, key);
            assert(r[g.len() as int].0 == key);
            assert(Seq::<CookieView>::empty().push(c) =~= seq![c]);
            lemma_group_pos(r, other);
            if other != key {
                match group_pos(g, other) {
                    Some(j) => {
                        assert(r[j] == g[j]);
                    },
                    None => {
                        assert forall|m: int| 0 <= m < r.len() implies r[m].0 != other by {
                            if m < g.len() {
                                assert(r[m] == g[m]);
                            }
                        }
                    },
                }
            }
        },
    }
}

/// Whether a cookie is sent for a (lowercased) request domain at time
/// `now`: it has not expired (no expiration, or one not before `now`), and
/// its lowercased domain matches the request domain or, for a cookie sent
/// to subdomains, the request domain is a subdomain of it.
pub open spec fn wanted_by(c: CookieView, request_domain: Seq<char>, now: u64) -> bool {
    !expired(c, now) && reaches(request_domain, unicode_lowercase(c.domain), c)
}

/// The cookies of a group whose cookies all lie under `key` that are sent
/// are those the filter keeps.
proof fn lemma_sent_is_filter(cs: Seq<CookieView>, d: Seq<char>, key: Seq<char>, now: u64)
    requires
        forall|j: int| 0 <= j < cs.len() ==> unicode_lowercase((#[trigger] cs[j]).domain) == key,
    ensures
        sent_cookies(cs, d, key, now) == cs.filter(|c: CookieView| wanted_by(c, d, now)),
    decreases cs.len(),
{
    reveal(Seq::filter);
    if cs.len() > 0 {
        assert forall|j: int| 0 <= j < cs.drop_last().len() implies unicode_lowercase((#[trigger] cs.drop_last()[j]).domain) == key by {
            assert(cs.drop_last()[j] == cs[j]);
        }
        lemma_sent_is_filter(cs.drop_last(), d, key, now);
        assert(cs[cs.len() - 1] == cs.last());
    }
}

/// The cookies returned for a request domain are the jar's cookies, group
/// by group in the order they were added, that are sent for it.
proof fn lemma_cookies_for_is_filter(g: Groups, d: Seq<char>, now: u64)
    requires
        well_keyed(g),
    ensures
        cookies_for(g, d, now) == all_held(g).filter(|c: CookieView| wanted_by(c, d, now)),
    decreases g.len(),
{
    reveal(Seq::filter);
    if g.len() > 0 {
        let h = g.drop_last();
        assert(well_keyed(h)) by {
            assert forall|i: int| 0 <= i < h.len() implies (#[trigger] h[i]).1.len() > 0 by {
                assert(h[i] == g[i]);
            }
            assert forall|i: int, j: int| 0 <= i < h.len() && 0 <= j < h[i].1.len()
                implies unicode_lowercase((#[trigger] h[i].1[j]).domain) == h[i].0 by {
                assert(h[i] == g[i]);
            }
        }
        lemma_cookies_for_is_filter(h, d, now);
        let last = g.last();
        assert(g[g.len() - 1] == last);
        assert forall|j: int| 0 <= j < last.1.len() implies unicode_lowercase((#[trigger] last.1[j]).domain) == last.0 by {
            assert(g[g.len() - 1].1[j] == last.1[j]);
        }
        lemma_sent_is_filter(last.1, d, last.0, now);
        Seq::filter_distributes_over_add(all_held(h), last.1, |c: CookieView| wanted_by(c, d, now));
    }
}

/// A cookie added to the jar is returned for its own (lowercased) domain
/// as long as it has not expired.
pub proof fn lemma_added_cookie_is_returned(g: Groups, c: CookieView, now: u64)
    requires
        !expired(c, now),
    ensures
        cookies_for(jar_add(g, c), unicode_lowercase(c.domain), now).contains(c),
{
    let key = unicode_lowercase(c.domain);
    let g2 = jar_add(g, c);
    match group_pos(g, key) {
        Some(i) => {
            let cs = g[i].1.push(c);
            assert(cs.drop_last() =~= g[i].1);
            assert(reaches(key, key, c));
            let sc = sent_cookies(cs, key, key, now);
            assert(sc == sent_cookies(g[i].1, key, key, now).push(c));
            assert(sc[sc.len() - 1] == c);
            assert(g2[i] == (key, cs));
            lemma_cookies_for_includes(g2, key, now, i, c);
        },
        None => {
            let cs = seq![c];
            assert(cs.drop_last() =~= Seq::<CookieView>::empty());
            assert(sent_cookies(cs.drop_last(), key, key, now) =~= Seq::<CookieView>::empty());
            assert(cs.last() == c);
            assert(reaches(key, key, c));
            assert(sent_cookies(cs, key, key, now) == sent_cookies(cs.drop_last(), key, key, now).push(c));
            assert(sent_cookies(cs, key, key, now)[0] == c);
            assert(g2[g2.len() - 1] == (key, cs));
            lemma_cookies_for_includes(g2, key, now, g2.len() - 1, c);
        },
    }
}

/// The cookie a line of a Netscape cookie file describes: the trimmed
/// line, unless empty or a `#` comment, split at tabs into exactly seven
/// fields (domain, subdomain flag, path, secure flag, expiration, name,
/// value); a flag is set when it reads `TRUE`, and an expiration that is
/// not a number is absent.
pub open spec fn cookie_line(line: Seq<char>) -> Option<CookieView> {
    let t = trim(line);
    if t.len() == 0 || t[0] == '#' {
        None
    } else {
        let f = split_on(t, '\t');
        if f.len() != 7 {
            None
        } else {
            Some(CookieView {
                domain: f[0],
                include_subdomains: f[1] == "TRUE"@,
                path: f[2],
                secure: f[3] == "TRUE"@,
                expiration: parse_u64_spec(f[4]),
                name: f[5],
                value: f[6],
            })
        }
    }
}

/// The jar that the lines of a cookie file fill, line by line.
pub open spec fn cookie_file_groups(ls: Seq<Seq<char>>) -> Groups
    decreases ls.len(),
{
    if ls.len() == 0 {
        Seq::empty()
    } else {
        let g = cookie_file_groups(ls.drop_last());
        match cookie_line(ls.last()) {
            Some(c) => jar_add(g, c),
            None => g,
        }
    }
}

/// The text of a flag in a cookie file.
pub open spec fn flag_text(b: bool) -> Seq<char> {
    if b {
        "TRUE"@
    } else {
        "FALSE"@
    }
}

/// The line of a cookie in a Netscape cookie file (a session cookie is
/// written with expiration 0).
pub open spec fn cookie_file_line(c: CookieView) -> Seq<char> {
    join(seq![c.domain, flag_text(c.include_subdomains), c.path, flag_text(c.secure),
        decimal(match c.expiration {
            Some(e) => e as nat,
            None => 0,
        }), c.name, c.value], seq!['\t']) + seq!['\n']
}

/// The lines of cookies, in order.
pub open spec fn cookie_file_lines(cs: Seq<CookieView>) -> Seq<char>
    decreases cs.len(),
{
    if cs.len() == 0 {
        Seq::empty()
    } else {
        cookie_file_lines(cs.drop_last()) + cookie_file_line(cs.last())
    }
}

/// The header of a Netscape cookie file.
pub open spec fn cookie_file_header() -> Seq<char> {
    "# Netscape HTTP Cookie File\n# This is a generated file! Do not edit.\n\n"@
}

/// Whether a cookie can be written to a cookie file and read back: its
/// text fields hold no tab or line break, its domain is nonempty and does
/// not start with white space or `#`, and its value is nonempty and does
/// not end with white space.
pub open spec fn writable_cookie(c: CookieView) -> bool {
    &&& !c.domain.contains('\t') && !c.domain.contains('\n')
    &&& !c.path.contains('\t') && !c.path.contains('\n')
    &&& !c.name.contains('\t') && !c.name.contains('\n')
    &&& !c.value.contains('\t') && !c.value.contains('\n')
    &&& c.domain.len() > 0 && !is_ws(c.domain[0]) && c.domain[0] != '#'
    &&& c.value.len() > 0 && !is_ws(c.value.last())
}

/// A cookie as a cookie file gives it back: a session cookie comes back
/// with expiration 0.
pub open spec fn as_saved(c: CookieView) -> CookieView {
    CookieView {
        expiration: Some(
            match c.expiration {
                Some(e) => e,
                None => 0,
            },
        ),
        ..c
    }
}

/// A cookie written to a cookie file reads back from its line: the line is
/// one line of text, and it describes the same cookie (a session cookie
/// with expiration 0).
pub proof fn lemma_cookie_line_round_trip(c: CookieView)
    requires
        writable_cookie(c),
    ensures
        cookie_file_line(c) == cookie_file_line(c).drop_last() + seq!['\n'],
        !cookie_file_line(c).drop_last().contains('\n'),
        strip_cr(cookie_file_line(c).drop_last()) == cookie_file_line(c).drop_last(),
        lines(cookie_file_line(c)) == seq![cookie_file_line(c).drop_last()],
        cookie_line(cookie_file_line(c).drop_last()) == Some(as_saved(c)),
{
    let e: u64 = match c.expiration {
        Some(e) => e,
        None => 0,
    };
    let parts: Seq<Seq<char>> = seq![c.domain, flag_text(c.include_subdomains), c.path, flag_text(c.secure),
        decimal(e as nat), c.name, c.value];
    let l = join(parts, seq!['\t']);
    let written: Seq<Seq<char>> = seq![c.domain, flag_text(c.include_subdomains), c.path, flag_text(c.secure),
        decimal(match c.expiration {
            Some(x) => x as nat,
            None => 0,
        }), c.name, c.value];
    assert(cookie_file_line(c) == join(written, seq!['\t']) + seq!['\n']);
    assert(written =~= parts);
    assert(cookie_file_line(c) == l + seq!['\n']);
    assert((l + seq!['\n']).drop_last() =~= l);
    reveal_strlit("TRUE");
    reveal_strlit("FALSE");
    assert("TRUE"@ =~= seq!['T', 'R', 'U', 'E']);
    assert("FALSE"@ =~= seq!['F', 'A', 'L', 'S', 'E']);
    lemma_decimal_avoids(e as nat, '\t');
    lemma_decimal_avoids(e as nat, '\n');
    assert forall|i: int| 0 <= i < parts.len() implies !(#[trigger] parts[i]).contains('\t') && !parts[i].contains('\n') by {
        if i == 1 || i == 3 {
            let f = parts[i];
            assert forall|k: int| 0 <= k < f.len() implies f[k] != '\t' && f[k] != '\n' by {}
        }
    }
    // One line of text.
    lemma_join_avoids(parts, '\t', '\n');
    lemma_split_on_single(l, '\n');
    lemma_split_on_after_sep(l, Seq::<char>::empty(), '\n');
    assert(l + seq!['\n'] + Seq::<char>::empty() =~= l + seq!['\n']);
    lemma_join_last(parts, seq!['\t']);
    assert(parts.last() == c.value);
    assert(strip_cr(l) == l);
    let ps = split_on(l + seq!['\n'], '\n');
    assert(ps =~= seq![l, Seq::<char>::empty()]);
    assert(ps.take(1).map_values(|p: Seq<char>| strip_cr(p)) =~= seq![l]);
    // The line describes the cookie.
    lemma_join_first(parts, seq!['\t']);
    lemma_trim_unchanged(l);
    lemma_split_join(parts, '\t');
    lemma_parse_decimal(e);
    assert(parts[1] == "TRUE"@ <==> c.include_subdomains);
    assert(parts[3] == "TRUE"@ <==> c.secure);
    assert(cookie_line(l) == Some(as_saved(c)));
}

/// The jar after adding cookies one after another.
pub open spec fn jar_adds(g: Groups, cs: Seq<CookieView>) -> Groups
    decreases cs.len(),
{
    if cs.len() == 0 {
        g
    } else {
        jar_add(jar_adds(g, cs.drop_last()), cs.last())
    }
}

/// The jar as a cookie file gives it back (see [`as_saved`]).
pub open spec fn saved_groups(g: Groups) -> Groups {
    g.map_values(|p: (Seq<char>, Seq<CookieView>)| (p.0, p.1.map_values(|c: CookieView| as_saved(c))))
}

/// Each group is nonempty, is filed under the lowercased domain of each of
/// its cookies, and no domain occurs twice.
pub open spec fn well_keyed(g: Groups) -> bool {
    &&& groups_unique(g)
    &&& forall|i: int| 0 <= i < g.len() ==> (#[trigger] g[i]).1.len() > 0
    &&& forall|i: int, j: int| 0 <= i < g.len() && 0 <= j < g[i].1.len()
        ==> unicode_lowercase((#[trigger] g[i].1[j]).domain) == g[i].0
}

/// Every cookie of the groups can be written to a cookie file.
pub open spec fn all_writable(g: Groups) -> bool {
    forall|i: int, j: int| 0 <= i < g.len() && 0 <= j < g[i].1.len() ==> writable_cookie(#[trigger] g[i].1[j])
}

/// Where a domain's group is, when there is one.
proof fn lemma_group_pos(g: Groups, key: Seq<char>)
    requires
        groups_unique(g),
    ensures
        match group_pos(g, key) {
            Some(i) => 0 <= i < g.len() && g[i].0 == key,
            None => forall|i: int| 0 <= i < g.len() ==> g[i].0 != key,
        },
        forall|i: int| 0 <= i < g.len() && g[i].0 == key ==> group_pos(g, key) == Some(i),
{
}

/// Adding a cookie keeps the groups well keyed, and writable when the
/// cookie is.
proof fn lemma_jar_add_keeps(g: Groups, c: CookieView)
    requires
        well_keyed(g),
    ensures
        well_keyed(jar_add(g, c)),
        all_writable(g) && writable_cookie(c) ==> all_writable(jar_add(g, c)),
{
    let key = unicode_lowercase(c.domain);
    lemma_group_pos(g, key);
    let r = jar_add(g, c);
    match group_pos(g, key) {
        Some(k) => {
            assert forall|i: int, j: int| 0 <= i < r.len() && 0 <= j < r[i].1.len()
                implies unicode_lowercase((#[trigger] r[i].1[j]).domain) == r[i].0 by {
                if i == k && j == g[k].1.len() {
                    assert(r[i].1[j] == c);
                } else if i == k {
                    assert(r[i].1[j] == g[k].1[j]);
                }
            }
            assert forall|i: int, j: int| 0 <= i < r.len() && 0 <= j < r[i].1.len() && all_writable(g)
                && writable_cookie(c) implies writable_cookie(#[trigger] r[i].1[j]) by {
                if i == k && j == g[k].1.len() {
                    assert(r[i].1[j] == c);
                } else if i == k {
                    assert(r[i].1[j] == g[k].1[j]);
                }
            }
            assert forall|i: int| 0 <= i < r.len() implies (#[trigger] r[i]).1.len() > 0 by {
                if i != k {
                    assert(r[i] == g[i]);
                }
            }
        },
        None => {
            assert forall|i: int, j: int| 0 <= i < r.len() && 0 <= j < r[i].1.len()
                implies unicode_lowercase((#[trigger] r[i].1[j]).domain) == r[i].0 by {
                if i == g.len() {
                    assert(r[i].1[j] == c);
                } else {
                    assert(r[i] == g[i]);
                }
            }
            assert forall|i: int, j: int| 0 <= i < r.len() && 0 <= j < r[i].1.len() && all_writable(g)
                && writable_cookie(c) implies writable_cookie(#[trigger] r[i].1[j]) by {
                if i == g.len() {
                    assert(r[i].1[j] == c);
                } else {
                    assert(r[i] == g[i]);
                }
            }
            assert forall|i: int| 0 <= i < r.len() implies (#[trigger] r[i]).1.len() > 0 by {
                if i != g.len() {
                    assert(r[i] == g[i]);
                }
            }
        },
    }
}

/// A jar filled by adding cookies is well keyed, and writable when every
/// added cookie is.
proof fn lemma_jar_adds_keeps(cs: Seq<CookieView>)
    ensures
        well_keyed(jar_adds(Seq::empty(), cs)),
        (forall|k: int| 0 <= k < cs.len() ==> writable_cookie(#[trigger] cs[k]))
            ==> all_writable(jar_adds(Seq::empty(), cs)),
    decreases cs.len(),
{
    if cs.len() > 0 {
        lemma_jar_adds_keeps(cs.drop_last());
        if forall|k: int| 0 <= k < cs.len() ==> writable_cookie(#[trigger] cs[k]) {
            assert forall|k: int| 0 <= k < cs.drop_last().len() implies writable_cookie(#[trigger] cs.drop_last()[k]) by {
                assert(cs.drop_last()[k] == cs[k]);
            }
            assert(writable_cookie(cs[cs.len() - 1]));
        }
        lemma_jar_add_keeps(jar_adds(Seq::empty(), cs.drop_last()), cs.last());
    }
}

/// Adding cookies in two runs is adding them all.
proof fn lemma_jar_adds_append(g: Groups, a: Seq<CookieView>, b: Seq<CookieView>)
    ensures
        jar_adds(g, a + b) == jar_adds(jar_adds(g, a), b),
    decreases b.len(),
{
    if b.len() == 0 {
        assert(a + b =~= a);
    } else {
        lemma_jar_adds_append(g, a, b.drop_last());
        assert((a + b).drop_last() =~= a + b.drop_last());
        assert((a + b).last() == b.last());
    }
}

/// Adding a domain's cookies, none of whose group exists yet, makes one new
/// group of them.
proof fn lemma_jar_adds_new_group(g: Groups, key: Seq<char>, cs: Seq<CookieView>)
    requires
        groups_unique(g),
        cs.len() > 0,
        forall|i: int| 0 <= i < g.len() ==> g[i].0 != key,
        forall|j: int| 0 <= j < cs.len() ==> unicode_lowercase((#[trigger] cs[j]).domain) == key,
    ensures
        jar_adds(g, cs) == g.push((key, cs)),
    decreases cs.len(),
{
    let c = cs.last();
    assert(unicode_lowercase(c.domain) == key) by {
        assert(cs[cs.len() - 1] == c);
    }
    assert(jar_adds(g, cs) == jar_add(jar_adds(g, cs.drop_last()), c));
    if cs.len() == 1 {
        assert(cs.drop_last() =~= Seq::<CookieView>::empty());
        assert(jar_adds(g, cs.drop_last()) == g);
        lemma_group_pos(g, key);
        assert(group_pos(g, key) is None);
        assert(seq![c] =~= cs);
    } else {
        assert forall|j: int| 0 <= j < cs.drop_last().len() implies unicode_lowercase((#[trigger] cs.drop_last()[j]).domain) == key by {
            assert(cs.drop_last()[j] == cs[j]);
        }
        lemma_jar_adds_new_group(g, key, cs.drop_last());
        let h = g.push((key, cs.drop_last()));
        assert(groups_unique(h)) by {
            assert forall|i: int, j: int| 0 <= i < j < h.len() implies h[i].0 != h[j].0 by {
                if j == g.len() {
                    assert(h[i] == g[i]);
                } else {
                    assert(h[i] == g[i] && h[j] == g[j]);
                }
            }
        }
        lemma_group_pos(h, key);
        assert(h[g.len() as int].0 == key);
        assert(group_pos(h, key) == Some(g.len() as int));
        assert(cs.drop_last().push(c) =~= cs);
        assert(h.update(g.len() as int, (key, h[g.len() as int].1.push(c))) =~= g.push((key, cs)));
    }
}

/// Adding back every cookie of well-keyed groups, group by group, gives the
/// groups back.
proof fn lemma_readd_all(g: Groups)
    requires
        well_keyed(g),
    ensures
        jar_adds(Seq::empty(), all_held(g)) == g,
    decreases g.len(),
{
    if g.len() == 0 {
        assert(g =~= Seq::<(Seq<char>, Seq<CookieView>)>::empty());
    } else {
        let h = g.drop_last();
        let last = g.last();
        assert(g[g.len() - 1] == last);
        assert(well_keyed(h)) by {
            assert forall|i: int| 0 <= i < h.len() implies (#[trigger] h[i]).1.len() > 0 by {
                assert(h[i] == g[i]);
            }
            assert forall|i: int, j: int| 0 <= i < h.len() && 0 <= j < h[i].1.len()
                implies unicode_lowercase((#[trigger] h[i].1[j]).domain) == h[i].0 by {
                assert(h[i] == g[i]);
            }
        }
        lemma_readd_all(h);
        lemma_jar_adds_append(Seq::empty(), all_held(h), last.1);
        assert forall|i: int| 0 <= i < h.len() implies h[i].0 != last.0 by {
            assert(h[i] == g[i]);
        }
        assert forall|j: int| 0 <= j < last.1.len() implies unicode_lowercase((#[trigger] last.1[j]).domain) == last.0 by {
            assert(g[g.len() - 1].1[j] == last.1[j]);
        }
        lemma_jar_adds_new_group(h, last.0, last.1);
        assert(h.push((last.0, last.1)) =~= g);
    }
}

/// The saved cookies, group by group, are the saved groups' cookies.
proof fn lemma_saved_all_held(g: Groups)
    ensures
        all_held(g).map_values(|c: CookieView| as_saved(c)) == all_held(saved_groups(g)),
    decreases g.len(),
{
    if g.len() > 0 {
        lemma_saved_all_held(g.drop_last());
        assert(saved_groups(g).drop_last() =~= saved_groups(g.drop_last()));
        assert(saved_groups(g).last() == (g.last().0, g.last().1.map_values(|c: CookieView| as_saved(c))));
        assert((all_held(g.drop_last()) + g.last().1).map_values(|c: CookieView| as_saved(c))
            =~= all_held(g.drop_last()).map_values(|c: CookieView| as_saved(c)) + g.last().1.map_values(|c: CookieView| as_saved(c)));
    } else {
        assert(all_held(g).map_values(|c: CookieView| as_saved(c)) =~= Seq::<CookieView>::empty());
    }
}

/// Each cookie held by writable groups is writable.
proof fn lemma_all_held_writable(g: Groups)
    requires
        all_writable(g),
    ensures
        forall|k: int| 0 <= k < all_held(g).len() ==> writable_cookie(#[trigger] all_held(g)[k]),
    decreases g.len(),
{
    if g.len() > 0 {
        let h = g.drop_last();
        assert(all_writable(h)) by {
            assert forall|i: int, j: int| 0 <= i < h.len() && 0 <= j < h[i].1.len() implies writable_cookie(#[trigger] h[i].1[j]) by {
                assert(h[i] == g[i]);
            }
        }
        lemma_all_held_writable(h);
        let a = all_held(h);
        let b = g.last().1;
        assert forall|k: int| 0 <= k < all_held(g).len() implies writable_cookie(#[trigger] all_held(g)[k]) by {
            if k < a.len() {
                assert(all_held(g)[k] == a[k]);
            } else {
                assert(all_held(g)[k] == b[k - a.len()]);
                assert(g[g.len() - 1] == g.last());
            }
        }
    }
}

/// The header of a cookie file ends a line, and its lines describe no
/// cookie.
proof fn lemma_header_lines()
    ensures
        cookie_file_header().len() > 0,
        cookie_file_header().last() == '\n',
        cookie_file_groups(lines(cookie_file_header())) == Seq::<(Seq<char>, Seq<CookieView>)>::empty(),
{
    let h1 = "# Netscape HTTP Cookie File"@;
    let h2 = "# This is a generated file! Do not edit."@;
    reveal_strlit("# Netscape HTTP Cookie File\n# This is a generated file! Do not edit.\n\n");
    reveal_strlit("# Netscape HTTP Cookie File");
    reveal_strlit("# This is a generated file! Do not edit.");
    let e = Seq::<char>::empty();
    let t1 = h1 + seq!['\n'];
    let t2 = t1 + h2 + seq!['\n'];
    assert(cookie_file_header() =~= t2 + e + seq!['\n']);
    assert(!h1.contains('\n')) by {
        assert forall|k: int| 0 <= k < h1.len() implies h1[k] != '\n' by {}
    }
    assert(!h2.contains('\n')) by {
        assert forall|k: int| 0 <= k < h2.len() implies h2[k] != '\n' by {}
    }
    lemma_lines_single(h1);
    lemma_lines_push(t1, h2);
    lemma_lines_push(t2, e);
    assert(strip_cr(h1) == h1);
    assert(strip_cr(h2) == h2);
    assert(strip_cr(e) =~= e);
    let ls = lines(cookie_file_header());
    assert(ls =~= seq![h1, h2, e]);
    lemma_trim_unchanged(h1);
    lemma_trim_unchanged(h2);
    assert(trim(e) =~= e);
    assert(cookie_line(h1) is None);
    assert(cookie_line(h2) is None);
    assert(cookie_line(e) is None);
    let l2 = seq![h1, h2];
    let l1 = seq![h1];
    let l0 = Seq::<Seq<char>>::empty();
    assert(ls.drop_last() =~= l2);
    assert(l2.drop_last() =~= l1);
    assert(l1.drop_last() =~= l0);
    assert(cookie_file_groups(l0) == Seq::<(Seq<char>, Seq<CookieView>)>::empty());
    assert(cookie_file_groups(l1) == cookie_file_groups(l0));
    assert(cookie_file_groups(l2) == cookie_file_groups(l1));
    assert(cookie_file_groups(ls) == cookie_file_groups(l2));
}

/// The cookies of a cookie file's body, read after its header, are added
/// one after another (as saved).
proof fn lemma_read_body(cs: Seq<CookieView>)
    requires
        forall|k: int| 0 <= k < cs.len() ==> writable_cookie(#[trigger] cs[k]),
    ensures
        cookie_file_groups(lines(cookie_file_header() + cookie_file_lines(cs)))
            == jar_adds(Seq::empty(), cs.map_values(|c: CookieView| as_saved(c))),
        (cookie_file_header() + cookie_file_lines(cs)).len() > 0,
        (cookie_file_header() + cookie_file_lines(cs)).last() == '\n',
    decreases cs.len(),
{
    if cs.len() == 0 {
        lemma_header_lines();
        assert(cookie_file_header() + cookie_file_lines(cs) =~= cookie_file_header());
    } else {
        let front = cs.drop_last();
        let c = cs.last();
        assert forall|k: int| 0 <= k < front.len() implies writable_cookie(#[trigger] front[k]) by {
            assert(front[k] == cs[k]);
        }
        assert(writable_cookie(c)) by {
            assert(cs[cs.len() - 1] == c);
        }
        lemma_read_body(front);
        lemma_cookie_line_round_trip(c);
        let t = cookie_file_header() + cookie_file_lines(front);
        let l = cookie_file_line(c).drop_last();
        lemma_lines_push(t, l);
        assert(cookie_file_header() + cookie_file_lines(cs) =~= t + l + seq!['\n']);
        let ls = lines(t + l + seq!['\n']);
        assert(ls.drop_last() =~= lines(t));
        assert(ls.last() == l);
        assert(cs.map_values(|x: CookieView| as_saved(x)).drop_last() =~= front.map_values(|x: CookieView| as_saved(x)));
        assert(cs.map_values(|x: CookieView| as_saved(x)).last() == as_saved(c));
    }
}

/// A jar filled by adding cookies, written to a cookie file and read back,
/// is the same jar, each session cookie coming back with expiration 0; it
/// holds when every cookie can be written (see [`writable_cookie`]).
pub proof fn lemma_cookie_file_round_trip(cs: Seq<CookieView>)
    requires
        forall|k: int| 0 <= k < cs.len() ==> writable_cookie(#[trigger] cs[k]),
    ensures
        cookie_file_groups(lines(cookie_file_header() + cookie_file_lines(all_held(jar_adds(Seq::empty(), cs)))))
            == saved_groups(jar_adds(Seq::empty(), cs)),
{
    let g = jar_adds(Seq::empty(), cs);
    lemma_jar_adds_keeps(cs);
    lemma_all_held_writable(g);
    lemma_read_body(all_held(g));
    lemma_saved_all_held(g);
    let sg = saved_groups(g);
    assert(well_keyed(sg)) by {
        assert forall|i: int| 0 <= i < sg.len() implies (#[trigger] sg[i]).1.len() > 0 by {
            assert(sg[i].1.len() == g[i].1.len());
        }
        assert forall|i: int, j: int| 0 <= i < sg.len() && 0 <= j < sg[i].1.len()
            implies unicode_lowercase((#[trigger] sg[i].1[j]).domain) == sg[i].0 by {
            assert(sg[i].1[j] == as_saved(g[i].1[j]));
        }
        assert forall|i: int, j: int| 0 <= i < j < sg.len() implies sg[i].0 != sg[j].0 by {
            assert(sg[i].0 == g[i].0 && sg[j].0 == g[j].0);
        }
    }
    lemma_readd_all(sg);
}

/// A cookie read from one line of a cookie file (see [`cookie_line`]).
fn parse_cookie_line(line: &Vec<char>) -> (r: Option<Cookie>)
    ensures
        match r {
            Some(c) => cookie_line(line@) == Some(c@),
            None => cookie_line(line@) is None,
        },
{
    let t = trim_chars(line);
    if t.len() == 0 || t[0] == '#' {
        return None;
    }
    let f = split_chars(&t, '\t');
    if f.len() != 7 {
        return None;
    }
    proof {
        assert(views(f@)[0] == f@[0]@);
        assert(views(f@)[1] == f@[1]@);
        assert(views(f@)[2] == f@[2]@);
        assert(views(f@)[3] == f@[3]@);
        assert(views(f@)[4] == f@[4]@);
        assert(views(f@)[5] == f@[5]@);
        assert(views(f@)[6] == f@[6]@);
    }
    Some(Cookie {
        domain: string_of(f[0].as_slice()),
        include_subdomains: eq_lit(f[1].as_slice(), "TRUE"),
        path: string_of(f[2].as_slice()),
        secure: eq_lit(f[3].as_slice(), "TRUE"),
        expiration: parse_u64(f[4].as_slice()),
        name: string_of(f[5].as_slice()),
        value: string_of(f[6].as_slice()),
    })
}

impl CookieJar {
    /// Read a jar from the text of a Netscape cookie file: each line that
    /// describes a cookie adds it (see [`cookie_line`]); other lines are
    /// skipped.
    pub fn from_netscape(content: &str) -> (r: Self)
        ensures
            r@ == cookie_file_groups(lines(content@)),
    {
        let ls = split_lines(&chars_of(content));
        let ghost lv = views(ls@);
        let mut jar = CookieJar::new();
        let mut i: usize = 0;
        assert(lv.take(0) =~= Seq::<Seq<char>>::empty());
        while i < ls.len()
            invariant
                i <= ls.len(),
                lv == views(ls@),
                lv == lines(content@),
                jar@ == cookie_file_groups(lv.take(i as int)),
            decreases ls.len() - i,
        {
            assert(lv.take(i + 1).drop_last() =~= lv.take(i as int));
            assert(lv.take(i + 1).last() == ls@[i as int]@);
            match parse_cookie_line(&ls[i]) {
                Some(c) => jar.add_cookie(c),
                None => {},
            }
            i += 1;
        }
        assert(lv.take(ls@.len() as int) =~= lv);
        jar
    }

    /// The text of the jar as a Netscape cookie file: the header, then one
    /// line per cookie, group by group.
    pub fn to_netscape(&self) -> (r: String)
        ensures
            r@ == cookie_file_header() + cookie_file_lines(all_held(self@)),
    {
        let all = self.all_cookies();
        let ghost cv = all@.map_values(|c: &Cookie| c@);
        let mut out = chars_of("# Netscape HTTP Cookie File\n# This is a generated file! Do not edit.\n\n");
        let ghost head = out@;
        let mut i: usize = 0;
        assert(cv.take(0) =~= Seq::<CookieView>::empty());
        assert(out@ =~= head + cookie_file_lines(cv.take(0)));
        while i < all.len()
            invariant
                i <= all.len(),
                cv == all@.map_values(|c: &Cookie| c@),
                out@ == head + cookie_file_lines(cv.take(i as int)),
            decreases all.len() - i,
        {
            assert(cv.take(i + 1).drop_last() =~= cv.take(i as int));
            assert(cv.take(i + 1).last() == all@[i as int]@);
            let c = all[i];
            let mut fields: Vec<Vec<char>> = Vec::new();
            fields.push(chars_of(c.domain.as_str()));
            fields.push(if c.include_subdomains { chars_of("TRUE") } else { chars_of("FALSE") });
            fields.push(chars_of(c.path.as_str()));
            fields.push(if c.secure { chars_of("TRUE") } else { chars_of("FALSE") });
            let e: u64 = match c.expiration {
                Some(e) => e,
                None => 0,
            };
            fields.push(decimal_chars(e));
            fields.push(chars_of(c.name.as_str()));
            fields.push(chars_of(c.value.as_str()));
            let ghost cc: CookieView = c@;
            let ghost want: Seq<Seq<char>> = seq![cc.domain, flag_text(cc.include_subdomains), cc.path,
                flag_text(cc.secure), decimal(match cc.expiration {
                    Some(e) => e as nat,
                    None => 0,
                }), cc.name, cc.value];
            assert(views(fields@) =~= want);
            let line = join_chars(&fields, "\t");
            proof {
                reveal_strlit("\t");
                assert("\t"@ =~= seq!['\t']);
            }
            assert(line@ == join(want, seq!['\t']));
            let ghost before = out@;
            append_chars(&mut out, &line);
            out.push('\n');
            assert(out@ =~= before + line@ + seq!['\n']);
            assert(cookie_file_line(cc) == join(want, seq!['\t']) + seq!['\n']);
            assert(out@ =~= before + cookie_file_line(cc));
            i += 1;
        }
        assert(cv.take(all@.len() as int) =~= cv);
        string_of(out.as_slice())
    }
}

} // verus!
