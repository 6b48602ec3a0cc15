//! Attribute values read from HTML documents through the `scraper` crate,
//! and the small text rules applied to them.
use vstd::prelude::*;
use crate::text::{chars_of, split_chars, split_on, trim, trim_chars, views};

verus! {

/// The view of a list of string literals.
pub open spec fn lits(v: Seq<&str>) -> Seq<Seq<char>> {
    v.map_values(|a: &str| a@)
}

/// For each element of the HTML document `doc` that the CSS selector picks,
/// in document order, the values of the attributes `attrs` (in that order,
/// `None` where the element lacks one), as `scraper` parses and selects;
/// nothing when the selector does not parse.
pub uninterp spec fn html_select(doc: Seq<char>, selector: Seq<char>, attrs: Seq<Seq<char>>) -> Seq<Seq<Option<Seq<char>>>>;

/// The view of an optional attribute value.
pub open spec fn cell_view(v: Option<String>) -> Option<Seq<char>> {
    match v {
        Some(s) => Some(s@),
        None => None,
    }
}

/// The view of an attribute table.
pub open spec fn table_view(t: Seq<Vec<Option<String>>>) -> Seq<Seq<Option<Seq<char>>>> {
    t.map_values(|row: Vec<Option<String>>| row@.map_values(|v: Option<String>| cell_view(v)))
}

/// Read attribute values from the elements that a selector picks.
///
/// Trusted: calls `scraper::Html::parse_document`, `Selector::parse`,
/// `Html::select` and `Element::attr`; the contract names the table (a
/// function of the three arguments alone) and states that each row has
/// one entry per requested attribute, as the body builds it.
#[verifier::external_body]
pub(crate) fn select_attrs(doc: &str, selector: &str, attrs: &[&str]) -> (r: Vec<Vec<Option<String>>>)
    ensures
        table_view(r@) == html_select(doc@, selector@, lits(attrs@)),
        forall|i: int| 0 <= i < r@.len() ==> (#[trigger] r@[i])@.len() == attrs@.len(),
{
    let document = scraper::Html::parse_document(doc);
    let sel = match scraper::Selector::parse(selector) {
        Ok(s) => s,
        Err(_) => return Vec::new(),
    };
    let mut rows = Vec::new();
    for element in document.select(&sel) {
        let e = element.value();
        rows.push(attrs.iter().map(|a| e.attr(a).map(|v| v.to_string())).collect());
    }
    rows
}

/// A character lowercased if it is an ASCII capital.
pub open spec fn ascii_lower_char(c: char) -> char {
    if 'A' <= c && c <= 'Z' {
        ((c as u32) + 32) as char
    } else {
        c
    }
}

/// Two strings are equal ignoring ASCII case (`str::eq_ignore_ascii_case`).
pub open spec fn eq_ascii_nocase(a: Seq<char>, b: Seq<char>) -> bool {
    a.len() == b.len() && forall|i: int| 0 <= i < a.len() ==> ascii_lower_char(#[trigger] a[i]) == ascii_lower_char(b[i])
}

/// A character lowercased if it is an ASCII capital.
pub fn ascii_lower(c: char) -> (r: char)
    ensures
        r == ascii_lower_char(c),
{
    if 'A' <= c && c <= 'Z' {
        let b: u8 = (c as u32) as u8;
        (b + 32) as char
    } else {
        c
    }
}

/// Whether two strings are equal ignoring ASCII case.
pub fn eq_ignore_ascii_case(a: &[char], b: &[char]) -> (r: bool)
    ensures
        r == eq_ascii_nocase(a@, b@),
{
    if a.len() != b.len() {
        return false;
    }
    let mut i: usize = 0;
    while i < a.len()
        invariant
            a.len() == b.len(),
            i <= a.len(),
            forall|j: int| 0 <= j < i ==> ascii_lower_char(#[trigger] a@[j]) == ascii_lower_char(b@[j]),
        decreases a.len() - i,
    {
        if ascii_lower(a[i]) != ascii_lower(b[i]) {
            return false;
        }
        i += 1;
    }
    true
}

/// Whether a meta robots `content` value holds the `nofollow` directive
/// among its comma-separated, trimmed parts (in any ASCII case).
pub open spec fn says_nofollow(content: Seq<char>) -> bool {
    exists|i: int| 0 <= i < split_on(content, ',').len()
        && eq_ascii_nocase(trim(#[trigger] split_on(content, ',')[i]), "nofollow"@)
}

/// Whether a meta robots `content` value holds `nofollow`.
pub fn content_says_nofollow(content: &str) -> (r: bool)
    ensures
        r == says_nofollow(content@),
{
    let parts = split_chars(&chars_of(content), ',');
    let nofollow = chars_of("nofollow");
    let mut i: usize = 0;
    while i < parts.len()
        invariant
            i <= parts.len(),
            views(parts@) == split_on(content@, ','),
            nofollow@ == "nofollow"@,
            forall|j: int| 0 <= j < i ==> !eq_ascii_nocase(trim(#[trigger] split_on(content@, ',')[j]), "nofollow"@),
        decreases parts.len() - i,
    {
        assert(views(parts@)[i as int] == parts@[i as int]@);
        let t = trim_chars(&parts[i]);
        if eq_ignore_ascii_case(t.as_slice(), nofollow.as_slice()) {
            return true;
        }
        i += 1;
    }
    false
}

/// Whether a document has a `<meta name="robots">` (name in any ASCII
/// case) whose content holds `nofollow`; `metas` are the (name, content)
/// pairs of its `meta[name]` elements.
pub open spec fn meta_nofollow(metas: Seq<Seq<Option<Seq<char>>>>) -> bool {
    exists|i: int| 0 <= i < metas.len() && #[trigger] metas[i].len() == 2
        && metas[i][0] is Some && eq_ascii_nocase(metas[i][0]->0, "robots"@)
        && metas[i][1] is Some && says_nofollow(metas[i][1]->0)
}

/// Whether an HTML document has a meta robots `nofollow` directive.
pub fn has_meta_robots_nofollow(doc: &str) -> (r: bool)
    ensures
        r == meta_nofollow(html_select(doc@, "meta[name]"@, seq!["name"@, "content"@])),
{
    let attrs: [&str; 2] = ["name", "content"];
    let metas = select_attrs(doc, "meta[name]", attrs.as_slice());
    let ghost t = table_view(metas@);
    proof {
        assert(lits(attrs@) =~= seq!["name"@, "content"@]);
    }
    let robots = chars_of("robots");
    let mut i: usize = 0;
    while i < metas.len()
        invariant
            i <= metas.len(),
            t == table_view(metas@),
            t == html_select(doc@, "meta[name]"@, seq!["name"@, "content"@]),
            robots@ == "robots"@,
            forall|k: int| 0 <= k < metas@.len() ==> (#[trigger] metas@[k])@.len() == 2,
            forall|j: int| 0 <= j < i ==> !(#[trigger] t[j].len() == 2 && t[j][0] is Some
                && eq_ascii_nocase(t[j][0]->0, "robots"@) && t[j][1] is Some && says_nofollow(t[j][1]->0)),
        decreases metas.len() - i,
    {
        let row = &metas[i];
        assert(row@.len() == 2);
        assert(t[i as int] == row@.map_values(|v: Option<String>| cell_view(v)));
        if let Some(name) = &row[0] {
            let n = chars_of(name.as_str());
            if eq_ignore_ascii_case(n.as_slice(), robots.as_slice()) {
                if let Some(content) = &row[1] {
                    if content_says_nofollow(content.as_str()) {
                        assert(t[i as int][0] == Some(name@));
                        assert(t[i as int][1] == Some(content@));
                        assert(t[i as int].len() == 2);
                        return true;
                    }
                }
            }
        }
        i += 1;
    }
    false
}

/// For each match of the regular expression `pattern` in `text`, left to
/// right, the text of its first capture group (`None` where the group did
/// not take part), as the `regex` crate finds them; the error's text when
/// the pattern does not compile.
pub uninterp spec fn regex_group1(pattern: Seq<char>, text: Seq<char>) -> Result<Seq<Option<Seq<char>>>, Seq<char>>;

/// The view of a capture list.
pub open spec fn captures_view(r: Result<Vec<Option<String>>, String>) -> Result<Seq<Option<Seq<char>>>, Seq<char>> {
    match r {
        Ok(v) => Ok(v@.map_values(|c: Option<String>| cell_view(c))),
        Err(e) => Err(e@),
    }
}

/// The first capture group of each match of a regular expression.
///
/// Trusted: calls `regex::Regex::new`, `Regex::captures_iter` and
/// `Captures::get(1)`; the contract names the result, a function of the
/// pattern and the text alone.
#[verifier::external_body]
pub(crate) fn captures_group1(pattern: &str, text: &str) -> (r: Result<Vec<Option<String>>, String>)
    ensures
        captures_view(r) == regex_group1(pattern@, text@),
{
    let re = match regex::Regex::new(pattern) {
        Ok(re) => re,
        Err(e) => return Err(e.to_string()),
    };
    let mut out = Vec::new();
    for cap in re.captures_iter(text) {
        out.push(cap.get(1).map(|m| m.as_str().to_string()));
    }
    Ok(out)
}

} // verus!
