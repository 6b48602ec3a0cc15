//! Link conversion for local viewing (`--convert-links`): links in saved
//! HTML and CSS that point to downloaded files are rewritten as paths
//! relative to the download directory.
use vstd::prelude::*;
use crate::error::Error;
use crate::html::{captures_group1, captures_view, cell_view, html_select, lits, regex_group1, select_attrs, table_view};
use crate::paths::{components, extension_chars, path_extension, strip_base, strip_base_chars, file_name, file_name_chars, last_index, last_index_of};
use crate::recursive::{html_path, is_html_file as html_file, column, opt_view, opt_views, trim_tail, trim_tail_chars};
use crate::paths::{last_name, lemma_split_last};
use crate::text::{
    split_on, append_chars, chars_of, contains_chars, eq_chars, eq_lit, has_infix, has_prefix, lit_chars,
    lower_chars, push_str, starts_with, string_of, sub_slice, unicode_lowercase,
};
use crate::urls::{defragment_url, join_url, parse_url, url_defragment, url_join, url_parse};

verus! {

/// What `s` becomes when every occurrence of `from` (non-empty), scanned
/// from the left without overlap, is replaced by `to` (`str::replace`).
pub open spec fn replace_all(s: Seq<char>, from: Seq<char>, to: Seq<char>) -> Seq<char>
    decreases s.len(),
{
    if from.len() == 0 || s.len() < from.len() {
        s
    } else if s.take(from.len() as int) == from {
        to + replace_all(s.skip(from.len() as int), from, to)
    } else {
        seq![s[0]] + replace_all(s.drop_first(), from, to)
    }
}

/// Replace every occurrence of a non-empty pattern, as [`replace_all`]
/// states.
pub fn replace_chars(s: &Vec<char>, from: &Vec<char>, to: &Vec<char>) -> (r: Vec<char>)
    requires
        from.len() > 0,
    ensures
        r@ == replace_all(s@, from@, to@),
{
    let mut out: Vec<char> = Vec::new();
    let mut i: usize = 0;
    assert(s@.skip(0) =~= s@);
    while i < s.len()
        invariant
            i <= s.len(),
            from@.len() > 0,
            replace_all(s@, from@, to@) == out@ + replace_all(s@.skip(i as int), from@, to@),
        decreases s.len() - i,
    {
        let ghost rest = s@.skip(i as int);
        if crate::text::matches_at(s.as_slice(), from.as_slice(), i) {
            assert(rest.take(from@.len() as int) =~= s@.subrange(i as int, i + from@.len()));
            assert(rest.skip(from@.len() as int) =~= s@.skip(i + from@.len()));
            let ghost old_out = out@;
            append_chars(&mut out, to);
            assert(out@ + replace_all(s@.skip(i + from@.len()), from@, to@) =~= old_out + (to@ + replace_all(rest.skip(from@.len() as int), from@, to@)));
            i = i + from.len();
        } else {
            proof {
                if rest.len() >= from@.len() {
                    assert(rest.take(from@.len() as int) =~= s@.subrange(i as int, i + from@.len()));
                }
                assert(rest.drop_first() =~= s@.skip(i + 1));
                assert(rest[0] == s@[i as int]);
            }
            let ghost old_out = out@;
            out.push(s[i]);
            assert(out@ + replace_all(s@.skip(i + 1), from@, to@) =~= old_out + (seq![s@[i as int]] + replace_all(rest.drop_first(), from@, to@)));
            i = i + 1;
        }
    }
    assert(s@.skip(i as int) =~= Seq::<char>::empty());
    assert(out@ + Seq::<char>::empty() =~= out@);
    out
}

/// The map that a list of (URL, path) entries stands for.
pub open spec fn entries_map(s: Seq<(String, String)>) -> Map<Seq<char>, Seq<char>>
    decreases s.len(),
{
    if s.len() == 0 {
        Map::empty()
    } else {
        entries_map(s.drop_last()).insert(s.last().0@, s.last().1@)
    }
}

/// No URL occurs twice in a list of entries.
pub open spec fn urls_unique(s: Seq<(String, String)>) -> bool {
    forall|i: int, j: int| 0 <= i < j < s.len() ==> s[i].0@ != s[j].0@
}

/// In a list without repeated URLs, the map holds exactly the listed URLs,
/// each with its path.
pub proof fn lemma_entries_lookup(s: Seq<(String, String)>, k: Seq<char>)
    requires
        urls_unique(s),
    ensures
        entries_map(s).contains_key(k) <==> exists|i: int| 0 <= i < s.len() && s[i].0@ == k,
        forall|i: int| 0 <= i < s.len() && s[i].0@ == k ==> entries_map(s)[k] == (#[trigger] s[i]).1@,
    decreases s.len(),
{
    if s.len() > 0 {
        lemma_entries_lookup(s.drop_last(), k);
        assert forall|i: int| 0 <= i < s.len() - 1 implies s.drop_last()[i] == s[i] by {}
    }
}

/// Replacing the path of a listed URL updates the map.
proof fn lemma_entries_update(s: Seq<(String, String)>, idx: int, k: String, v: String)
    requires
        urls_unique(s),
        0 <= idx < s.len(),
        k@ == s[idx].0@,
    ensures
        urls_unique(s.update(idx, (k, v))),
        entries_map(s.update(idx, (k, v))) == entries_map(s).insert(k@, v@),
    decreases s.len(),
{
    let t = s.update(idx, (k, v));
    if idx == s.len() - 1 {
        assert(t.drop_last() =~= s.drop_last());
        lemma_entries_lookup(s.drop_last(), k@);
        assert(entries_map(t) =~= entries_map(s).insert(k@, v@));
    } else {
        lemma_entries_update(s.drop_last(), idx, k, v);
        assert(t.drop_last() =~= s.drop_last().update(idx, (k, v)));
        assert(entries_map(t) =~= entries_map(s).insert(k@, v@));
    }
}

/// Link converter for making downloaded files suitable for local viewing.
pub struct LinkConverter {
    /// Original URL (without fragment) and the local path it was saved to
    url_to_path: Vec<(String, String)>,
    /// Base directory for all downloads
    base_dir: String,
    /// Whether to backup original files before conversion
    backup_converted: bool,
}

/// The contents of a link converter.
pub ghost struct ConverterView {
    /// Local path of each downloaded URL
    pub files: Map<Seq<char>, Seq<char>>,
    /// Base directory for all downloads
    pub base_dir: Seq<char>,
    /// Whether originals are backed up before conversion
    pub backup: bool,
}

impl View for LinkConverter {
    type V = ConverterView;

    closed spec fn view(&self) -> ConverterView {
        ConverterView {
            files: entries_map(self.url_to_path@),
            base_dir: self.base_dir@,
            backup: self.backup_converted,
        }
    }
}

/// The key a URL is registered under: the URL without its fragment, or the
/// text itself when it does not parse.
pub open spec fn url_key(url: Seq<char>) -> Seq<char> {
    match url_defragment(url) {
        Some(n) => n,
        None => url,
    }
}

/// How a link found in a page at `base` is written for local viewing:
/// `data:`, `javascript:`, `mailto:` and `#` links stay; others are made
/// absolute (parsed, else joined to `base`) without their fragment, and if
/// that URL was downloaded to a path under `base_dir`, the link becomes
/// that path relative to `base_dir`, with `./` in front when it has a `:`
/// and no `/`.
pub open spec fn relative_link(
    files: Map<Seq<char>, Seq<char>>,
    base_dir: Seq<char>,
    base: Seq<char>,
    link: Seq<char>,
) -> Option<Seq<char>> {
    if has_prefix(link, "data:"@) || has_prefix(link, "javascript:"@) || has_prefix(link, "mailto:"@)
        || has_prefix(link, "#"@) {
        None
    } else {
        let absolute = match url_defragment(link) {
            Some(n) => Some(n),
            None => match url_join(base, link) {
                Ok(j) => url_defragment(j),
                Err(_) => None,
            },
        };
        match absolute {
            Some(key) => if files.contains_key(key) {
                match strip_base(files[key], base_dir) {
                    Some(rel) => if !has_infix(rel, "/"@) && has_infix(rel, ":"@) {
                        Some("./"@ + rel)
                    } else {
                        Some(rel)
                    },
                    None => None,
                }
            } else {
                None
            },
            None => None,
        }
    }
}

/// Whether a path names a CSS file by its extension (`css` in any case).
pub open spec fn css_path(p: Seq<char>) -> bool {
    match path_extension(p) {
        Some(e) => unicode_lowercase(e) == "css"@,
        None => false,
    }
}

/// The file stem of a file name (`Path::file_stem`): the name without its
/// extension.
pub open spec fn name_stem(name: Seq<char>) -> Seq<char> {
    match last_index_of(name, '.') {
        Some(i) => if i == 0 {
            name
        } else {
            name.take(i)
        },
        None => name,
    }
}

/// Where the original of a converted file is kept: the file name's stem
/// with `.orig`, in the same directory (so `index.php.html` keeps
/// `index.php.orig`); a path without a file name is left as it is.
pub open spec fn backup_path_of(p: Seq<char>) -> Seq<char> {
    match file_name(p) {
        Some(n) => {
            let t = trim_tail(p);
            t.take(t.len() - n.len()) + name_stem(n) + ".orig"@
        },
        None => p,
    }
}

impl LinkConverter {
    /// No URL is registered twice.
    #[verifier::type_invariant]
    spec fn wf(self) -> bool {
        urls_unique(self.url_to_path@)
    }

    /// Create a new link converter.
    pub fn new(base_dir: String, backup_converted: bool) -> (r: Self)
        ensures
            r@.files == Map::<Seq<char>, Seq<char>>::empty(),
            r@.base_dir == base_dir@,
            r@.backup == backup_converted,
    {
        LinkConverter { url_to_path: Vec::new(), base_dir, backup_converted }
    }

    /// Whether originals are backed up before conversion.
    pub fn backup_converted(&self) -> (r: bool)
        ensures
            r == self@.backup,
    {
        self.backup_converted
    }

    /// Register a downloaded file (maps the URL, without fragment, to its
    /// local path).
    pub fn register_file(&mut self, url: &str, path: String)
        ensures
            final(self)@.files == old(self)@.files.insert(url_key(url@), path@),
            final(self)@.base_dir == old(self)@.base_dir,
            final(self)@.backup == old(self)@.backup,
    {
        let key = match defragment_url(url) {
            Some(n) => n,
            None => string_of(chars_of(url).as_slice()),
        };
        let kc = chars_of(key.as_str());
        proof {
            use_type_invariant(&*self);
        }
        let mut i: usize = 0;
        while i < self.url_to_path.len()
            invariant
                i <= self.url_to_path.len(),
                urls_unique(self.url_to_path@),
                self.url_to_path@ == old(self).url_to_path@,
                self.base_dir == old(self).base_dir,
                self.backup_converted == old(self).backup_converted,
                kc@ == key@,
                key@ == url_key(url@),
                forall|j: int| 0 <= j < i ==> self.url_to_path@[j].0@ != key@,
            decreases self.url_to_path.len() - i,
        {
            let existing = chars_of(self.url_to_path[i].0.as_str());
            if eq_chars(existing.as_slice(), kc.as_slice()) {
                let ghost before = self.url_to_path@;
                let old_key = self.url_to_path[i].0.clone();
                proof {
                    lemma_entries_update(before, i as int, old_key, path);
                }
                let mut entries: Vec<(String, String)> = Vec::new();
                std::mem::swap(&mut entries, &mut self.url_to_path);
                entries.set(i, (old_key, path));
                assert(entries@ =~= before.update(i as int, (old_key, path)));
                self.url_to_path = entries;
                return;
            }
            i += 1;
        }
        let ghost before = self.url_to_path@;
        let mut entries: Vec<(String, String)> = Vec::new();
        std::mem::swap(&mut entries, &mut self.url_to_path);
        entries.push((key, path));
        assert(entries@.drop_last() =~= before);
        self.url_to_path = entries;
    }

    /// The registered (URL, local path) entries, each URL once.
    pub fn files(&self) -> (r: Vec<(String, String)>)
        ensures
            entries_map(r@) == self@.files,
            urls_unique(r@),
    {
        proof {
            use_type_invariant(self);
        }
        let mut r: Vec<(String, String)> = Vec::new();
        let mut i: usize = 0;
        while i < self.url_to_path.len()
            invariant
                i <= self.url_to_path.len(),
                urls_unique(self.url_to_path@),
                r@.len() == i,
                forall|j: int| 0 <= j < i ==> (#[trigger] r@[j]).0@ == self.url_to_path@[j].0@ && r@[j].1@ == self.url_to_path@[j].1@,
                entries_map(r@) == entries_map(self.url_to_path@.take(i as int)),
            decreases self.url_to_path.len() - i,
        {
            let ghost before = r@;
            let entry = (self.url_to_path[i].0.clone(), self.url_to_path[i].1.clone());
            r.push(entry);
            assert(r@.drop_last() =~= before);
            assert(self.url_to_path@.take(i + 1).drop_last() =~= self.url_to_path@.take(i as int));
            i += 1;
        }
        assert(self.url_to_path@.take(self.url_to_path@.len() as int) =~= self.url_to_path@);
        r
    }

    /// Check if file is HTML based on extension (see [`html_path`]).
    pub fn is_html_file(&self, path: &str) -> (r: bool)
        ensures
            r == html_path(path@),
    {
        html_file(path)
    }

    /// Check if file is CSS based on extension (see [`css_path`]).
    pub fn is_css_file(&self, path: &str) -> (r: bool)
        ensures
            r == css_path(path@),
    {
        match extension_chars(&chars_of(path)) {
            Some(e) => {
                let l = lower_chars(&e);
                eq_lit(l.as_slice(), "css")
            },
            None => false,
        }
    }

    /// The local path of a URL's key, if registered.
    fn lookup(&self, key: &Vec<char>) -> (r: Option<String>)
        ensures
            match r {
                Some(p) => self@.files.contains_key(key@) && self@.files[key@] == p@,
                None => !self@.files.contains_key(key@),
            },
    {
        proof {
            use_type_invariant(self);
            lemma_entries_lookup(self.url_to_path@, key@);
        }
        let mut i: usize = 0;
        while i < self.url_to_path.len()
            invariant
                i <= self.url_to_path.len(),
                forall|j: int| 0 <= j < i ==> self.url_to_path@[j].0@ != key@,
            decreases self.url_to_path.len() - i,
        {
            let k = chars_of(self.url_to_path[i].0.as_str());
            if eq_chars(k.as_slice(), key.as_slice()) {
                proof {
                    use_type_invariant(self);
                    lemma_entries_lookup(self.url_to_path@, key@);
                    assert(entries_map(self.url_to_path@)[key@] == self.url_to_path@[i as int].1@);
                }
                return Some(self.url_to_path[i].1.clone());
            }
            i += 1;
        }
        None
    }

    /// Convert a link found in a page at `base_url` to a path relative to
    /// the download directory, if it points to a downloaded file (see
    /// [`relative_link`]).
    pub fn convert_url_to_relative(&self, base_url: &str, url_str: &str) -> (r: Option<String>)
        ensures
            crate::urls::opt_str(r) == relative_link(self@.files, self@.base_dir, base_url@, url_str@),
    {
        let link = chars_of(url_str);
        if starts_with(link.as_slice(), chars_of("data:").as_slice())
            || starts_with(link.as_slice(), chars_of("javascript:").as_slice())
            || starts_with(link.as_slice(), chars_of("mailto:").as_slice())
            || starts_with(link.as_slice(), chars_of("#").as_slice()) {
            return None;
        }
        let absolute = match defragment_url(url_str) {
            Some(n) => Some(n),
            None => match join_url(base_url, url_str) {
                Ok(j) => defragment_url(j.as_str()),
                Err(_) => None,
            },
        };
        let key = match absolute {
            Some(k) => chars_of(k.as_str()),
            None => return None,
        };
        let target = match self.lookup(&key) {
            Some(t) => t,
            None => return None,
        };
        let rel = match strip_base_chars(&chars_of(target.as_str()), &chars_of(self.base_dir.as_str())) {
            Some(r) => r,
            None => return None,
        };
        let has_slash = contains_chars(rel.as_slice(), chars_of("/").as_slice());
        let has_colon = contains_chars(rel.as_slice(), chars_of(":").as_slice());
        if !has_slash && has_colon {
            Some(lit_chars("./", &rel))
        } else {
            Some(string_of(rel.as_slice()))
        }
    }

    /// Where the original of a converted file is kept (see
    /// [`backup_path_of`]).
    pub fn backup_path(&self, path: &str) -> (r: String)
        ensures
            r@ == backup_path_of(path@),
    {
        let p = chars_of(path);
        match file_name_chars(&p) {
            Some(n) => {
                let t = trim_tail_chars(&p);
                proof {
                    lemma_trim_tail_ends_with_name(p@);
                }
                let mut out = sub_slice(t.as_slice(), 0, t.len() - n.len());
                let stem = match last_index(n.as_slice(), '.') {
                    Some(i) => if i == 0 {
                        n.clone()
                    } else {
                        sub_slice(n.as_slice(), 0, i)
                    },
                    None => n.clone(),
                };
                assert(stem@ == name_stem(n@)) by {
                    if last_index_of(n@, '.') is Some && last_index_of(n@, '.')->0 != 0 {
                        assert(stem@ =~= n@.take(last_index_of(n@, '.')->0));
                    }
                }
                append_chars(&mut out, &stem);
                push_str(&mut out, ".orig");
                string_of(out.as_slice())
            },
            None => string_of(p.as_slice()),
        }
    }
}

/// A path's file name ends what is left after trimming its trailing `/`
/// and `.` pieces.
pub proof fn lemma_trim_tail_ends_with_name(p: Seq<char>)
    ensures
        file_name(p) matches Some(n) ==> n.len() <= trim_tail(p).len()
            && trim_tail(p).skip(trim_tail(p).len() - n.len()) == n,
    decreases p.len(),
{
    lemma_split_last(p, '/');
    if p.len() == 0 {
        assert(split_on(p, '/').drop_last() =~= Seq::<Seq<char>>::empty());
        assert(last_name(split_on(p, '/').drop_last()) is None);
        assert(file_name(p) is None);
    } else if p.last() == '/' {
        let q = p.drop_last();
        assert(split_on(p, '/').drop_last() =~= split_on(q, '/'));
        assert(split_on(p, '/').last().len() == 0);
        assert(file_name(p) == file_name(q));
        assert(trim_tail(p) == trim_tail(q));
        lemma_trim_tail_ends_with_name(q);
    } else if p == seq!['.'] || (p.len() >= 2 && p.last() == '.' && p[p.len() - 2] == '/') {
        let q = p.drop_last();
        lemma_split_last(q, '/');
        let rest = split_on(q, '/');
        assert(q.len() == 0 || q.last() == '/');
        assert(rest.last().len() == 0);
        assert(split_on(p, '/').last() =~= seq!['.']);
        assert(split_on(p, '/').drop_last() =~= rest.drop_last());
        assert(file_name(p) == last_name(rest.drop_last()));
        assert(file_name(q) == last_name(rest.drop_last()));
        assert(trim_tail(p) == trim_tail(q));
        lemma_trim_tail_ends_with_name(q);
    } else {
        let ps = split_on(p, '/');
        assert(trim_tail(p) == p);
        assert(ps.last().len() > 0);
        if ps.last() == seq!['.'] {
            let q = p.drop_last();
            lemma_split_last(q, '/');
            assert(p.skip(p.len() - 1)[0] == p.last());
            assert(p.last() == '.');
            assert(split_on(p, '/') == split_on(q, '/').update(split_on(q, '/').len() - 1, split_on(q, '/').last().push(p.last())));
            assert(split_on(q, '/').last().len() == 0);
            assert(q.len() == 0 || q.last() == '/');
            if q.len() == 0 {
                assert(p =~= seq!['.']);
            } else {
                assert(p[p.len() - 2] == q.last());
            }
        }
        assert(ps.last() != seq!['.']);
        assert(file_name(p) matches Some(n) ==> n == ps.last());
    }
}

/// `text` with `prefix + old + suffix` replaced by `prefix + new + suffix`
/// for each (prefix, suffix) form in turn.
pub open spec fn wrap_replace(text: Seq<char>, forms: Seq<(Seq<char>, Seq<char>)>, old: Seq<char>, new: Seq<char>) -> Seq<char>
    decreases forms.len(),
{
    if forms.len() == 0 {
        text
    } else {
        let f = forms.last();
        replace_all(wrap_replace(text, forms.drop_last(), old, new), f.0 + old + f.1, f.0 + new + f.1)
    }
}

/// `text` with each link value that has a local form (see
/// [`relative_link`]) rewritten in every quoting form, value by value.
pub open spec fn rewrite_all(
    c: ConverterView,
    base: Seq<char>,
    text: Seq<char>,
    vals: Seq<Option<Seq<char>>>,
    forms: Seq<(Seq<char>, Seq<char>)>,
) -> Seq<char>
    decreases vals.len(),
{
    if vals.len() == 0 {
        text
    } else {
        let t = rewrite_all(c, base, text, vals.drop_last(), forms);
        match vals.last() {
            Some(v) => match relative_link(c.files, c.base_dir, base, v) {
                Some(n) => wrap_replace(t, forms, v, n),
                None => t,
            },
            None => t,
        }
    }
}

/// The values of an attribute over the elements a selector picks.
pub open spec fn attr_values(doc: Seq<char>, selector: Seq<char>, attr: Seq<char>) -> Seq<Option<Seq<char>>> {
    crate::recursive::column(html_select(doc, selector, seq![attr]))
}

/// The quoting form of an HTML attribute: `attr="` and `"`.
pub open spec fn attr_form(attr: Seq<char>) -> Seq<(Seq<char>, Seq<char>)> {
    seq![(attr + "=\""@, "\""@)]
}

/// HTML with its links converted for local viewing: the `href` of `<a>`,
/// the `src` of `<img>`, the `href` of `<link>` and the `src` of
/// `<script>`, each written as `attr="value"`, rewritten when they point
/// to downloaded files; an error when the page URL does not parse.
pub open spec fn html_converted(c: ConverterView, html: Seq<char>, base: Seq<char>) -> Result<Seq<char>, Seq<char>> {
    match url_parse(base) {
        Err(e) => Err("Invalid base URL: "@ + e),
        Ok(_) => {
            let t1 = rewrite_all(c, base, html, attr_values(html, "a[href]"@, "href"@), attr_form("href"@));
            let t2 = rewrite_all(c, base, t1, attr_values(html, "img[src]"@, "src"@), attr_form("src"@));
            let t3 = rewrite_all(c, base, t2, attr_values(html, "link[href]"@, "href"@), attr_form("href"@));
            Ok(rewrite_all(c, base, t3, attr_values(html, "script[src]"@, "src"@), attr_form("src"@)))
        },
    }
}

/// The pattern of CSS `url(...)` references.
pub open spec fn url_pattern() -> Seq<char> {
    "url\\s*\\(\\s*['\"]?([^'\")]+)['\"]?\\s*\\)"@
}

/// The pattern of CSS `@import` references.
pub open spec fn import_pattern() -> Seq<char> {
    "@import\\s+['\"]([^'\"]+)['\"]"@
}

/// The forms of a CSS `url()` reference: bare, double- and single-quoted.
pub open spec fn url_forms() -> Seq<(Seq<char>, Seq<char>)> {
    seq![("url("@, ")"@), ("url(\""@, "\")"@), ("url('"@, "')"@)]
}

/// The forms of a CSS `@import`: double- and single-quoted.
pub open spec fn import_forms() -> Seq<(Seq<char>, Seq<char>)> {
    seq![("@import \""@, "\""@), ("@import '"@, "'"@)]
}

/// CSS with its links converted for local viewing: each `url()` reference
/// and then each `@import` rewritten in all its quoting forms when it
/// points to a downloaded file; an error when the page URL does not parse
/// or a pattern does not compile.
pub open spec fn css_converted(c: ConverterView, css: Seq<char>, base: Seq<char>) -> Result<Seq<char>, Seq<char>> {
    match url_parse(base) {
        Err(e) => Err("Invalid base URL: "@ + e),
        Ok(_) => match regex_group1(url_pattern(), css) {
            Err(e) => Err("Regex error: "@ + e),
            Ok(urls) => {
                let t1 = rewrite_all(c, base, css, urls, url_forms());
                match regex_group1(import_pattern(), css) {
                    Err(e) => Err("Regex error: "@ + e),
                    Ok(imports) => Ok(rewrite_all(c, base, t1, imports, import_forms())),
                }
            },
        },
    }
}

/// The view of a list of quoting forms.
pub open spec fn forms_view(f: Seq<(Vec<char>, Vec<char>)>) -> Seq<(Seq<char>, Seq<char>)> {
    f.map_values(|p: (Vec<char>, Vec<char>)| (p.0@, p.1@))
}

/// The view of a conversion result.
pub open spec fn text_result(r: Result<String, Error>) -> Result<Seq<char>, Seq<char>> {
    match r {
        Ok(s) => Ok(s@),
        Err(Error::ConfigError(m)) => Err(m@),
        Err(_) => Err(Seq::empty()),
    }
}

/// A quoting form from two literals.
fn form(prefix: &str, suffix: &str) -> (r: (Vec<char>, Vec<char>))
    ensures
        r.0@ == prefix@,
        r.1@ == suffix@,
{
    (chars_of(prefix), chars_of(suffix))
}

/// Replace `prefix + old + suffix` by `prefix + new + suffix` for each
/// form, as [`wrap_replace`] states.
fn replace_forms(text: Vec<char>, forms: &Vec<(Vec<char>, Vec<char>)>, old: &Vec<char>, new: &Vec<char>) -> (r: Vec<char>)
    requires
        forall|i: int| 0 <= i < forms@.len() ==> (#[trigger] forms@[i]).0@.len() > 0,
    ensures
        r@ == wrap_replace(text@, forms_view(forms@), old@, new@),
{
    let ghost fv = forms_view(forms@);
    let mut t = text;
    let ghost t0 = t@;
    let mut i: usize = 0;
    assert(fv.take(0) =~= Seq::<(Seq<char>, Seq<char>)>::empty());
    while i < forms.len()
        invariant
            i <= forms.len(),
            fv == forms_view(forms@),
            forall|k: int| 0 <= k < forms@.len() ==> (#[trigger] forms@[k]).0@.len() > 0,
            t@ == wrap_replace(t0, fv.take(i as int), old@, new@),
        decreases forms.len() - i,
    {
        assert(fv.take(i + 1).drop_last() =~= fv.take(i as int));
        assert(fv.take(i + 1).last() == (forms@[i as int].0@, forms@[i as int].1@));
        let mut from = forms[i].0.clone();
        append_chars(&mut from, old);
        append_chars(&mut from, &forms[i].1);
        let mut to = forms[i].0.clone();
        append_chars(&mut to, new);
        append_chars(&mut to, &forms[i].1);
        assert(forms@[i as int].0@.len() > 0);
        t = replace_chars(&t, &from, &to);
        i += 1;
    }
    assert(fv.take(forms@.len() as int) =~= fv);
    t
}

impl LinkConverter {
    /// Rewrite each link value that has a local form, as [`rewrite_all`]
    /// states.
    fn rewrite_links(
        &self,
        base: &str,
        text: Vec<char>,
        vals: &Vec<Option<Vec<char>>>,
        forms: &Vec<(Vec<char>, Vec<char>)>,
    ) -> (r: Vec<char>)
        requires
            forall|i: int| 0 <= i < forms@.len() ==> (#[trigger] forms@[i]).0@.len() > 0,
        ensures
            r@ == rewrite_all(self@, base@, text@, opt_views(vals@), forms_view(forms@)),
    {
        let ghost vv = opt_views(vals@);
        let ghost t0 = text@;
        let mut t = text;
        let mut i: usize = 0;
        assert(vv.take(0) =~= Seq::<Option<Seq<char>>>::empty());
        while i < vals.len()
            invariant
                i <= vals.len(),
                vv == opt_views(vals@),
                forall|k: int| 0 <= k < forms@.len() ==> (#[trigger] forms@[k]).0@.len() > 0,
                t@ == rewrite_all(self@, base@, t0, vv.take(i as int), forms_view(forms@)),
            decreases vals.len() - i,
        {
            assert(vv.take(i + 1).drop_last() =~= vv.take(i as int));
            assert(vv.take(i + 1).last() == opt_view(vals@[i as int]));
            match &vals[i] {
                Some(v) => {
                    let vs = string_of(v.as_slice());
                    match self.convert_url_to_relative(base, vs.as_str()) {
                        Some(n) => {
                            t = replace_forms(t, forms, v, &chars_of(n.as_str()));
                        },
                        None => {},
                    }
                },
                None => {},
            }
            i += 1;
        }
        assert(vv.take(vals@.len() as int) =~= vv);
        t
    }

    /// Rewrite the links of an attribute over the elements a selector picks.
    fn rewrite_attr(&self, html: &str, base: &str, text: Vec<char>, selector: &str, attr: &str) -> (r: Vec<char>)
        ensures
            r@ == rewrite_all(self@, base@, text@, attr_values(html@, selector@, attr@), attr_form(attr@)),
    {
        let attrs: [&str; 1] = [attr];
        let t = select_attrs(html, selector, attrs.as_slice());
        proof {
            assert(lits(attrs@) =~= seq![attr@]);
        }
        let vals = crate::recursive::first_column(&t);
        let mut prefix = chars_of(attr);
        push_str(&mut prefix, "=\"");
        let mut forms: Vec<(Vec<char>, Vec<char>)> = Vec::new();
        proof {
            reveal_strlit("=\"");
            assert(prefix@.len() > 0);
        }
        forms.push((prefix, chars_of("\"")));
        assert(forms_view(forms@) =~= attr_form(attr@));
        assert(forms@[0].0@.len() > 0);
        self.rewrite_links(base, text, &vals, &forms)
    }

    /// Convert links in HTML content (see [`html_converted`]).
    pub fn convert_html_content(&self, html: &str, base_url: &str) -> (r: Result<String, Error>)
        ensures
            text_result(r) == html_converted(self@, html@, base_url@),
            r matches Err(e) ==> e is ConfigError,
    {
        match parse_url(base_url) {
            Err(e) => {
                let m = chars_of(e.as_str());
                return Err(Error::ConfigError(lit_chars("Invalid base URL: ", &m)));
            },
            Ok(_) => {},
        }
        let t = chars_of(html);
        let t = self.rewrite_attr(html, base_url, t, "a[href]", "href");
        let t = self.rewrite_attr(html, base_url, t, "img[src]", "src");
        let t = self.rewrite_attr(html, base_url, t, "link[href]", "href");
        let t = self.rewrite_attr(html, base_url, t, "script[src]", "src");
        Ok(string_of(t.as_slice()))
    }

    /// Convert links in CSS content (`url()` and `@import`; see
    /// [`css_converted`]).
    pub fn convert_css_content(&self, css: &str, base_url: &str) -> (r: Result<String, Error>)
        ensures
            text_result(r) == css_converted(self@, css@, base_url@),
            r matches Err(e) ==> e is ConfigError,
    {
        match parse_url(base_url) {
            Err(e) => {
                let m = chars_of(e.as_str());
                return Err(Error::ConfigError(lit_chars("Invalid base URL: ", &m)));
            },
            Ok(_) => {},
        }
        let urls = match captures_group1("url\\s*\\(\\s*['\"]?([^'\")]+)['\"]?\\s*\\)", css) {
            Ok(c) => c,
            Err(e) => {
                let m = chars_of(e.as_str());
                return Err(Error::ConfigError(lit_chars("Regex error: ", &m)));
            },
        };
        let mut forms: Vec<(Vec<char>, Vec<char>)> = Vec::new();
        forms.push(form("url(", ")"));
        forms.push(form("url(\"", "\")"));
        forms.push(form("url('", "')"));
        assert(forms_view(forms@) =~= url_forms());
        proof {
            reveal_strlit("url(");
            reveal_strlit("url(\"");
            reveal_strlit("url('");
        }
        let vals = opt_chars_list(&urls);
        let t = self.rewrite_links(base_url, chars_of(css), &vals, &forms);
        let imports = match captures_group1("@import\\s+['\"]([^'\"]+)['\"]", css) {
            Ok(c) => c,
            Err(e) => {
                let m = chars_of(e.as_str());
                return Err(Error::ConfigError(lit_chars("Regex error: ", &m)));
            },
        };
        let mut forms2: Vec<(Vec<char>, Vec<char>)> = Vec::new();
        forms2.push(form("@import \"", "\""));
        forms2.push(form("@import '", "'"));
        assert(forms_view(forms2@) =~= import_forms());
        proof {
            reveal_strlit("@import \"");
            reveal_strlit("@import '");
        }
        let vals2 = opt_chars_list(&imports);
        let t = self.rewrite_links(base_url, t, &vals2, &forms2);
        Ok(string_of(t.as_slice()))
    }
}

/// The characters of each optional string.
fn opt_chars_list(v: &Vec<Option<String>>) -> (r: Vec<Option<Vec<char>>>)
    ensures
        opt_views(r@) == v@.map_values(|c: Option<String>| cell_view(c)),
{
    let mut r: Vec<Option<Vec<char>>> = Vec::new();
    let mut i: usize = 0;
    while i < v.len()
        invariant
            i <= v.len(),
            opt_views(r@) == v@.map_values(|c: Option<String>| cell_view(c)).take(i as int),
        decreases v.len() - i,
    {
        let cell = match &v[i] {
            Some(s) => Some(chars_of(s.as_str())),
            None => None,
        };
        let ghost old_r = r@;
        r.push(cell);
        assert(opt_views(r@) =~= opt_views(old_r).push(opt_view(cell)));
        assert(opt_views(r@) =~= v@.map_values(|c: Option<String>| cell_view(c)).take(i + 1));
        i += 1;
    }
    assert(v@.map_values(|c: Option<String>| cell_view(c)).take(v@.len() as int) =~= v@.map_values(|c: Option<String>| cell_view(c)));
    r
}

/// A link to a downloaded file is converted to that file's path relative
/// to the download directory (with `./` in front when it has a `:` and no
/// `/`): what registering a URL writes, converting its link reads back.
pub proof fn lemma_registered_link_converts(
    files: Map<Seq<char>, Seq<char>>,
    base_dir: Seq<char>,
    base: Seq<char>,
    url: Seq<char>,
    path: Seq<char>,
    rel: Seq<char>,
)
    requires
        url_defragment(url) is Some,
        !has_prefix(url, "data:"@) && !has_prefix(url, "javascript:"@) && !has_prefix(url, "mailto:"@)
            && !has_prefix(url, "#"@),
        strip_base(path, base_dir) == Some(rel),
    ensures
        relative_link(files.insert(url_key(url), path), base_dir, base, url) == Some(
            if !has_infix(rel, "/"@) && has_infix(rel, ":"@) {
                "./"@ + rel
            } else {
                rel
            },
        ),
{
}


/// Replacing every occurrence of a non-empty pattern that occurs in `s`
/// leaves the replacement in the result.
pub proof fn lemma_replace_all_shows_replacement(s: Seq<char>, from: Seq<char>, to: Seq<char>, i: int)
    requires
        from.len() > 0,
        crate::text::occurs_at(s, from, i),
    ensures
        has_infix(replace_all(s, from, to), to),
    decreases s.len(),
{
    let r = replace_all(s, from, to);
    if s.take(from.len() as int) == from {
        assert(r == to + replace_all(s.skip(from.len() as int), from, to));
        assert(r.subrange(0, to.len() as int) =~= to);
        assert(crate::text::occurs_at(r, to, 0));
    } else {
        if i == 0 {
            assert(s.subrange(0, from.len() as int) =~= s.take(from.len() as int));
        }
        assert(i >= 1);
        let d = s.drop_first();
        assert(d.subrange(i - 1, i - 1 + from.len()) =~= s.subrange(i, i + from.len()));
        lemma_replace_all_shows_replacement(d, from, to, i - 1);
        let rd = replace_all(d, from, to);
        let j = choose|j: int| crate::text::occurs_at(rd, to, j);
        assert(r == seq![s[0]] + rd);
        assert(r.subrange(j + 1, j + 1 + to.len()) =~= rd.subrange(j, j + to.len()));
        assert(crate::text::occurs_at(r, to, j + 1));
    }
}

/// Whether a link value found in a page at `base` has a local form.
pub open spec fn converts(c: ConverterView, base: Seq<char>, o: Option<Seq<char>>) -> bool {
    match o {
        Some(w) => relative_link(c.files, c.base_dir, base, w) is Some,
        None => false,
    }
}

/// Link values none of which has a local form leave the text unchanged.
pub proof fn lemma_rewrite_nothing(
    c: ConverterView,
    base: Seq<char>,
    text: Seq<char>,
    vals: Seq<Option<Seq<char>>>,
    forms: Seq<(Seq<char>, Seq<char>)>,
)
    requires
        forall|i: int| 0 <= i < vals.len() ==> !converts(c, base, #[trigger] vals[i]),
    ensures
        rewrite_all(c, base, text, vals, forms) == text,
    decreases vals.len(),
{
    if vals.len() > 0 {
        assert forall|i: int| 0 <= i < vals.drop_last().len() implies !converts(c, base, #[trigger] vals.drop_last()[i]) by {
            assert(vals.drop_last()[i] == vals[i]);
        }
        lemma_rewrite_nothing(c, base, text, vals.drop_last(), forms);
        assert(!converts(c, base, vals[vals.len() - 1]));
    }
}

/// When exactly one link value, `v`, has a local form `n`, the text is
/// rewritten for that value alone.
proof fn lemma_rewrite_one(
    c: ConverterView,
    base: Seq<char>,
    text: Seq<char>,
    vals: Seq<Option<Seq<char>>>,
    forms: Seq<(Seq<char>, Seq<char>)>,
    k: int,
    v: Seq<char>,
    n: Seq<char>,
)
    requires
        0 <= k < vals.len(),
        vals[k] == Some(v),
        relative_link(c.files, c.base_dir, base, v) == Some(n),
        forall|i: int| 0 <= i < vals.len() && i != k ==> !converts(c, base, #[trigger] vals[i]),
    ensures
        rewrite_all(c, base, text, vals, forms) == wrap_replace(text, forms, v, n),
    decreases vals.len(),
{
    let init = vals.drop_last();
    if k == vals.len() - 1 {
        assert forall|i: int| 0 <= i < init.len() implies !converts(c, base, #[trigger] init[i]) by {
            assert(init[i] == vals[i]);
        }
        lemma_rewrite_nothing(c, base, text, init, forms);
    } else {
        assert forall|i: int| 0 <= i < init.len() && i != k implies !converts(c, base, #[trigger] init[i]) by {
            assert(init[i] == vals[i]);
        }
        assert(init[k] == vals[k]);
        lemma_rewrite_one(c, base, text, init, forms, k, v, n);
        assert(!converts(c, base, vals[vals.len() - 1]));
    }
}

/// A `<link>` element (a stylesheet, say) whose `href` value `v` has a local
/// form `n` is converted: on a page at a URL that parses, where `v` is the
/// only link value with a local form and appears as `href="v"`, the result
/// is the page with `href="v"` replaced by `href="n"`, and it holds
/// `href="n"`.
pub proof fn lemma_link_href_converted(
    c: ConverterView,
    html: Seq<char>,
    base: Seq<char>,
    k: int,
    v: Seq<char>,
    n: Seq<char>,
)
    requires
        url_parse(base) is Ok,
        forall|i: int| 0 <= i < attr_values(html, "a[href]"@, "href"@).len()
            ==> !converts(c, base, #[trigger] attr_values(html, "a[href]"@, "href"@)[i]),
        forall|i: int| 0 <= i < attr_values(html, "img[src]"@, "src"@).len()
            ==> !converts(c, base, #[trigger] attr_values(html, "img[src]"@, "src"@)[i]),
        forall|i: int| 0 <= i < attr_values(html, "script[src]"@, "src"@).len()
            ==> !converts(c, base, #[trigger] attr_values(html, "script[src]"@, "src"@)[i]),
        0 <= k < attr_values(html, "link[href]"@, "href"@).len(),
        attr_values(html, "link[href]"@, "href"@)[k] == Some(v),
        forall|i: int| 0 <= i < attr_values(html, "link[href]"@, "href"@).len() && i != k
            ==> !converts(c, base, #[trigger] attr_values(html, "link[href]"@, "href"@)[i]),
        relative_link(c.files, c.base_dir, base, v) == Some(n),
        has_infix(html, "href=\""@ + v + "\""@),
    ensures
        html_converted(c, html, base) == Ok::<Seq<char>, Seq<char>>(
            replace_all(html, "href=\""@ + v + "\""@, "href=\""@ + n + "\""@),
        ),
        html_converted(c, html, base) matches Ok(out) && has_infix(out, "href=\""@ + n + "\""@),
{
    reveal_strlit("href");
    reveal_strlit("=\"");
    reveal_strlit("href=\"");
    reveal_strlit("\"");
    let forms = attr_form("href"@);
    assert("href"@ + "=\""@ =~= "href=\""@);
    let a = attr_values(html, "a[href]"@, "href"@);
    let im = attr_values(html, "img[src]"@, "src"@);
    let l = attr_values(html, "link[href]"@, "href"@);
    let sc = attr_values(html, "script[src]"@, "src"@);
    lemma_rewrite_nothing(c, base, html, a, forms);
    lemma_rewrite_nothing(c, base, html, im, attr_form("src"@));
    lemma_rewrite_one(c, base, html, l, forms, k, v, n);
    let from = "href=\""@ + v + "\""@;
    let to = "href=\""@ + n + "\""@;
    assert(forms.drop_last() =~= Seq::<(Seq<char>, Seq<char>)>::empty());
    assert(forms.last() == ("href"@ + "=\""@, "\""@));
    assert(wrap_replace(html, forms.drop_last(), v, n) == html);
    assert(forms.last().0 + v + forms.last().1 == from);
    assert(forms.last().0 + n + forms.last().1 == to);
    assert(wrap_replace(html, forms, v, n) == replace_all(html, from, to));
    let t3 = replace_all(html, from, to);
    lemma_rewrite_nothing(c, base, t3, sc, attr_form("src"@));
    let i = choose|i: int| crate::text::occurs_at(html, from, i);
    assert(from.len() > 0);
    lemma_replace_all_shows_replacement(html, from, to, i);
}
} // verus!
