//! Text utilities over the characters of a string, each with its meaning
//! stated over `Seq<char>`.
use vstd::prelude::*;

verus! {

broadcast use vstd::string::group_string_axioms;

/// The characters of a string, in order.
pub fn chars_of(s: &str) -> (v: Vec<char>)
    ensures
        v@ == s@,
{
    let mut v: Vec<char> = Vec::new();
    let mut it = s.chars();
    loop
        invariant
            vstd::std_specs::iter::IteratorSpec::obeys_prophetic_iter_laws(&it),
            vstd::std_specs::iter::IteratorSpec::decrease(&it) is Some,
            v@ + vstd::std_specs::iter::IteratorSpec::remaining(&it) == s@,
        decreases vstd::std_specs::iter::IteratorSpec::decrease(&it)->0,
    {
        match it.next() {
            Some(c) => {
                v.push(c);
            },
            None => {
                return v;
            },
        }
    }
}

} // verus!

verus! {

/// A string holding the given characters, in order.
///
/// Trusted: calls std's `FromIterator<char> for String`, whose result holds
/// exactly the characters handed to it.
#[verifier::external_body]
pub(crate) fn string_of(chars: &[char]) -> (r: String)
    ensures
        r@ == chars@,
{
    chars.iter().collect()
}

/// Unicode lowercase mapping of a string, as std's `str::to_lowercase` computes it.
pub uninterp spec fn unicode_lowercase(s: Seq<char>) -> Seq<char>;

/// Unicode uppercase mapping of a string, as std's `str::to_uppercase` computes it.
pub uninterp spec fn unicode_uppercase(s: Seq<char>) -> Seq<char>;

/// Whether every character is ASCII.
pub open spec fn all_ascii(s: Seq<char>) -> bool {
    forall|i: int| 0 <= i < s.len() ==> (#[trigger] s[i] as u32) < 0x80
}

/// ASCII lowercase of a character: `A`..`Z` become `a`..`z`, the rest stay.
pub open spec fn ascii_lower_char(c: char) -> char {
    if 'A' <= c <= 'Z' {
        ((c as u32) + 32) as char
    } else {
        c
    }
}

/// ASCII uppercase of a character: `a`..`z` become `A`..`Z`, the rest stay.
pub open spec fn ascii_upper_char(c: char) -> char {
    if 'a' <= c <= 'z' {
        ((c as u32) - 32) as char
    } else {
        c
    }
}

/// Lowercase a string.
///
/// Trusted: calls std's `str::to_lowercase`; the contract names its result
/// (a function of the characters alone) and states what std documents for
/// ASCII text: each letter `A`..`Z` becomes `a`..`z`, every other
/// character stays.
#[verifier::external_body]
pub(crate) fn to_lowercase(s: &str) -> (r: String)
    ensures
        r@ == unicode_lowercase(s@),
        all_ascii(s@) ==> r@ == s@.map_values(|c: char| ascii_lower_char(c)),
{
    s.to_lowercase()
}

/// Uppercase a string.
///
/// Trusted: calls std's `str::to_uppercase`; the contract names its result
/// (a function of the characters alone) and states what std documents for
/// ASCII text: each letter `a`..`z` becomes `A`..`Z`, every other
/// character stays.
#[verifier::external_body]
pub(crate) fn to_uppercase(s: &str) -> (r: String)
    ensures
        r@ == unicode_uppercase(s@),
        all_ascii(s@) ==> r@ == s@.map_values(|c: char| ascii_upper_char(c)),
{
    s.to_uppercase()
}

/// Whether a character has the Unicode White_Space property (as
/// `char::is_whitespace` documents).
pub open spec fn is_ws(c: char) -> bool {
    c == ' ' || ('\u{9}' <= c && c <= '\u{d}') || c == '\u{85}' || c == '\u{a0}'
        || c == '\u{1680}' || ('\u{2000}' <= c && c <= '\u{200a}') || c == '\u{2028}'
        || c == '\u{2029}' || c == '\u{202f}' || c == '\u{205f}' || c == '\u{3000}'
}

/// Whether a character is white space.
pub fn char_is_ws(c: char) -> (r: bool)
    ensures
        r == is_ws(c),
{
    c == ' ' || ('\u{9}' <= c && c <= '\u{d}') || c == '\u{85}' || c == '\u{a0}'
        || c == '\u{1680}' || ('\u{2000}' <= c && c <= '\u{200a}') || c == '\u{2028}'
        || c == '\u{2029}' || c == '\u{202f}' || c == '\u{205f}' || c == '\u{3000}'
}

/// The string without its leading white space.
pub open spec fn trim_start(s: Seq<char>) -> Seq<char>
    decreases s.len(),
{
    if s.len() > 0 && is_ws(s[0]) {
        trim_start(s.drop_first())
    } else {
        s
    }
}

/// The string without its trailing white space.
pub open spec fn trim_end(s: Seq<char>) -> Seq<char>
    decreases s.len(),
{
    if s.len() > 0 && is_ws(s.last()) {
        trim_end(s.drop_last())
    } else {
        s
    }
}

/// The string without leading and trailing white space (`str::trim`).
pub open spec fn trim(s: Seq<char>) -> Seq<char> {
    trim_end(trim_start(s))
}

/// A copy of `v[lo..hi]`.
pub fn sub_vec(v: &Vec<char>, lo: usize, hi: usize) -> (r: Vec<char>)
    requires
        lo <= hi <= v.len(),
    ensures
        r@ == v@.subrange(lo as int, hi as int),
{
    let mut r: Vec<char> = Vec::new();
    let mut i = lo;
    while i < hi
        invariant
            lo <= i <= hi <= v.len(),
            r@ == v@.subrange(lo as int, i as int),
        decreases hi - i,
    {
        r.push(v[i]);
        i += 1;
    }
    r
}

/// Remove leading and trailing white space.
pub fn trim_chars(v: &Vec<char>) -> (r: Vec<char>)
    ensures
        r@ == trim(v@),
{
    let n = v.len();
    let mut lo: usize = 0;
    assert(v@.skip(0) =~= v@);
    while lo < n && char_is_ws(v[lo])
        invariant
            lo <= n == v.len(),
            trim_start(v@) == trim_start(v@.skip(lo as int)),
        decreases n - lo,
    {
        assert(v@.skip(lo as int).drop_first() =~= v@.skip(lo + 1));
        lo += 1;
    }
    assert(trim_start(v@) == v@.subrange(lo as int, n as int)) by {
        assert(v@.skip(lo as int) =~= v@.subrange(lo as int, n as int));
    }
    let mut hi: usize = n;
    while hi > lo && char_is_ws(v[hi - 1])
        invariant
            lo <= hi <= n == v.len(),
            trim(v@) == trim_end(v@.subrange(lo as int, hi as int)),
        decreases hi,
    {
        assert(v@.subrange(lo as int, hi as int).drop_last() =~= v@.subrange(lo as int, hi - 1));
        hi -= 1;
    }
    sub_vec(v, lo, hi)
}

/// `p` is a prefix of `s`.
pub open spec fn has_prefix(s: Seq<char>, p: Seq<char>) -> bool {
    p.len() <= s.len() && s.take(p.len() as int) == p
}

/// `p` is a suffix of `s`.
pub open spec fn has_suffix(s: Seq<char>, p: Seq<char>) -> bool {
    p.len() <= s.len() && s.skip(s.len() - p.len()) == p
}

/// `p` occurs in `s` starting at `i`.
pub open spec fn occurs_at(s: Seq<char>, p: Seq<char>, i: int) -> bool {
    0 <= i && i + p.len() <= s.len() && s.subrange(i, i + p.len()) == p
}

/// `p` occurs somewhere in `s` (`str::contains`).
pub open spec fn has_infix(s: Seq<char>, p: Seq<char>) -> bool {
    exists|i: int| occurs_at(s, p, i)
}

/// Whether `s` starts with `p`.
pub fn starts_with(s: &[char], p: &[char]) -> (r: bool)
    ensures
        r == has_prefix(s@, p@),
{
    if p.len() > s.len() {
        return false;
    }
    let mut i: usize = 0;
    while i < p.len()
        invariant
            p.len() <= s.len(),
            i <= p.len(),
            forall|j: int| 0 <= j < i ==> s@[j] == p@[j],
        decreases p.len() - i,
    {
        if s[i] != p[i] {
            assert(s@.take(p@.len() as int)[i as int] != p@[i as int]);
            return false;
        }
        i += 1;
    }
    assert(s@.take(p@.len() as int) =~= p@);
    true
}

/// Whether `s` has `p` at position `at`.
pub fn matches_at(s: &[char], p: &[char], at: usize) -> (r: bool)
    ensures
        r == occurs_at(s@, p@, at as int),
{
    if at > s.len() || p.len() > s.len() - at {
        return false;
    }
    let mut i: usize = 0;
    while i < p.len()
        invariant
            at + p.len() <= s.len(),
            i <= p.len(),
            forall|j: int| 0 <= j < i ==> s@[at + j] == p@[j],
        decreases p.len() - i,
    {
        if s[at + i] != p[i] {
            assert(s@.subrange(at as int, at + p@.len())[i as int] != p@[i as int]);
            return false;
        }
        i += 1;
    }
    assert(s@.subrange(at as int, at + p@.len()) =~= p@);
    true
}

/// Whether `s` ends with `p`.
pub fn ends_with(s: &[char], p: &[char]) -> (r: bool)
    ensures
        r == has_suffix(s@, p@),
{
    if p.len() > s.len() {
        return false;
    }
    let r = matches_at(s, p, s.len() - p.len());
    assert(s@.skip(s@.len() - p@.len()) =~= s@.subrange(s@.len() - p@.len(), s@.len() as int));
    r
}

/// Whether `p` occurs in `s`.
pub fn contains_chars(s: &[char], p: &[char]) -> (r: bool)
    ensures
        r == has_infix(s@, p@),
{
    if p.len() > s.len() {
        assert(forall|i: int| !occurs_at(s@, p@, i));
        return false;
    }
    if p.len() == 0 {
        assert(occurs_at(s@, p@, 0)) by {
            assert(s@.subrange(0, 0) =~= p@);
        }
        return true;
    }
    let mut i: usize = 0;
    while i <= s.len() - p.len()
        invariant
            0 < p.len() <= s.len(),
            forall|j: int| 0 <= j < i ==> !occurs_at(s@, p@, j),
        decreases s.len() - i + 1,
    {
        if matches_at(s, p, i) {
            return true;
        }
        i += 1;
    }
    assert forall|j: int| !occurs_at(s@, p@, j) by {
        if j >= i {
            assert(j + p@.len() > s@.len());
        }
    }
    false
}

/// The position of the first `c` in `s`.
pub fn find_char(s: &[char], c: char) -> (r: Option<usize>)
    ensures
        r matches Some(i) ==> i < s@.len() && s@[i as int] == c && forall|j: int|
            0 <= j < i ==> s@[j] != c,
        r is None ==> forall|j: int| 0 <= j < s@.len() ==> s@[j] != c,
{
    let mut i: usize = 0;
    while i < s.len()
        invariant
            i <= s.len(),
            forall|j: int| 0 <= j < i ==> s@[j] != c,
        decreases s.len() - i,
    {
        if s[i] == c {
            return Some(i);
        }
        i += 1;
    }
    None
}

/// The pieces of `s` between occurrences of `sep`, empty pieces included
/// (`str::split` with a character).
pub open spec fn split_on(s: Seq<char>, sep: char) -> Seq<Seq<char>>
    decreases s.len(),
{
    if s.len() == 0 {
        seq![Seq::<char>::empty()]
    } else {
        let rest = split_on(s.drop_last(), sep);
        if s.last() == sep {
            rest.push(Seq::<char>::empty())
        } else {
            rest.update(rest.len() - 1, rest.last().push(s.last()))
        }
    }
}

/// Every split has at least one piece.
pub proof fn lemma_split_on_nonempty(s: Seq<char>, sep: char)
    ensures
        split_on(s, sep).len() >= 1,
    decreases s.len(),
{
    if s.len() > 0 {
        lemma_split_on_nonempty(s.drop_last(), sep);
    }
}

/// The character sequences of a sequence of character vectors.
pub open spec fn views(v: Seq<Vec<char>>) -> Seq<Seq<char>> {
    v.map_values(|x: Vec<char>| x@)
}

/// Split `s` at every `sep`.
pub fn split_chars(s: &Vec<char>, sep: char) -> (r: Vec<Vec<char>>)
    ensures
        views(r@) == split_on(s@, sep),
{
    let mut done: Vec<Vec<char>> = Vec::new();
    let mut cur: Vec<char> = Vec::new();
    let mut i: usize = 0;
    while i < s.len()
        invariant
            i <= s.len(),
            views(done@).push(cur@) == split_on(s@.take(i as int), sep),
        decreases s.len() - i,
    {
        proof {
            lemma_split_on_nonempty(s@.take(i as int), sep);
            assert(s@.take(i + 1).drop_last() =~= s@.take(i as int));
        }
        let ghost old_dv = views(done@);
        let ghost old_cur = cur@;
        assert(s@.take(i + 1).last() == s@[i as int]);
        if s[i] == sep {
            let piece = cur;
            done.push(piece);
            cur = Vec::new();
            assert(views(done@) =~= old_dv.push(old_cur));
            assert(views(done@).push(cur@) =~= split_on(s@.take(i + 1), sep));
        } else {
            cur.push(s[i]);
            assert(views(done@).push(cur@) =~= split_on(s@.take(i + 1), sep));
        }
        i += 1;
    }
    assert(s@.take(s@.len() as int) =~= s@);
    let ghost old_dv = views(done@);
    let ghost old_cur = cur@;
    done.push(cur);
    assert(views(done@) =~= old_dv.push(old_cur));
    done
}

/// The value of a string of decimal digits.
pub open spec fn digits_value(s: Seq<char>) -> nat
    decreases s.len(),
{
    if s.len() == 0 {
        0
    } else {
        digits_value(s.drop_last()) * 10 + ((s.last() as nat) - ('0' as nat)) as nat
    }
}

/// Every character is an ASCII digit.
pub open spec fn all_digits(s: Seq<char>) -> bool {
    forall|i: int| 0 <= i < s.len() ==> '0' <= #[trigger] s[i] <= '9'
}

/// What `str::parse::<u64>` returns: an optional `+`, then one or more
/// decimal digits whose value fits in a `u64`.
pub open spec fn parse_u64_spec(s: Seq<char>) -> Option<u64> {
    let d = unsigned_digits(s);
    if d.len() > 0 && all_digits(d) && digits_value(d) <= u64::MAX {
        Some(digits_value(d) as u64)
    } else {
        None
    }
}

/// The digits of an unsigned number: the text after an optional leading `+`.
pub open spec fn unsigned_digits(s: Seq<char>) -> Seq<char> {
    if s.len() > 0 && s[0] == '+' {
        s.drop_first()
    } else {
        s
    }
}

/// Parse a decimal `u64` as `str::parse::<u64>` does.
pub fn parse_u64(s: &[char]) -> (r: Option<u64>)
    ensures
        r == parse_u64_spec(s@),
{
    let start: usize = if s.len() > 0 && s[0] == '+' {
        1
    } else {
        0
    };
    let ghost d = s@.skip(start as int);
    assert(d == unsigned_digits(s@)) by {
        if start == 0 {
            assert(d =~= s@);
        } else {
            assert(d =~= s@.drop_first());
        }
    }
    if start >= s.len() {
        return None;
    }
    let mut acc: u64 = 0;
    let mut i: usize = start;
    while i < s.len()
        invariant
            start <= i <= s.len(),
            d == s@.skip(start as int),
            d == unsigned_digits(s@),
            all_digits(s@.subrange(start as int, i as int)),
            acc as nat == digits_value(s@.subrange(start as int, i as int)),
        decreases s.len() - i,
    {
        let c = s[i];
        assert(s@.subrange(start as int, i + 1).drop_last() =~= s@.subrange(start as int, i as int));
        assert(d[i - start] == c);
        if c < '0' || c > '9' {
            assert(!all_digits(d));
            return None;
        }
        let digit: u64 = (c as u64) - ('0' as u64);
        assert(digits_value(s@.subrange(start as int, i + 1)) == acc * 10 + digit);
        if acc > (u64::MAX - digit) / 10 {
            proof {
                assert(acc * 10 + digit > u64::MAX) by (nonlinear_arith)
                    requires
                        acc > (u64::MAX - digit) / 10,
                        digit <= 9,
                ;
                if all_digits(d) {
                    lemma_digits_value_prefix_bound(d, (i + 1 - start) as int);
                    assert(d.take(i + 1 - start) =~= s@.subrange(start as int, i + 1));
                }
            }
            return None;
        }
        assert(acc * 10 + digit <= u64::MAX) by (nonlinear_arith)
            requires
                acc <= (u64::MAX - digit) / 10,
                digit <= 9,
        ;
        acc = acc * 10 + digit;
        i += 1;
    }
    assert(s@.subrange(start as int, s@.len() as int) =~= d);
    Some(acc)
}

/// The value of a digit string is at least the value of any of its prefixes.
pub proof fn lemma_digits_value_prefix_bound(s: Seq<char>, k: int)
    requires
        0 <= k <= s.len(),
        all_digits(s),
    ensures
        digits_value(s.take(k)) <= digits_value(s),
    decreases s.len() - k,
{
    if k < s.len() {
        lemma_digits_value_prefix_bound(s, k + 1);
        assert(s.take(k + 1).drop_last() =~= s.take(k));
        assert('0' <= s[k] <= '9');
    }
    else {
        assert(s.take(k) =~= s);
    }
}

/// The decimal digit character of `d`.
pub open spec fn digit_char(d: nat) -> char {
    ((d + ('0' as nat)) as u32) as char
}

/// The decimal representation of `n`, without leading zeros.
pub open spec fn decimal(n: nat) -> Seq<char>
    decreases n,
{
    if n < 10 {
        seq![digit_char(n)]
    } else {
        decimal(n / 10).push(digit_char(n % 10))
    }
}

/// The decimal digits of `n`.
pub fn decimal_chars(n: u64) -> (r: Vec<char>)
    ensures
        r@ == decimal(n as nat),
    decreases n,
{
    let d: u32 = (n % 10) as u32;
    let c: char = char_of_digit(d);
    if n < 10 {
        let mut v = Vec::new();
        v.push(c);
        v
    } else {
        let mut v = decimal_chars(n / 10);
        v.push(c);
        v
    }
}

/// The character of a decimal digit.
pub fn char_of_digit(d: u32) -> (c: char)
    requires
        d < 10,
    ensures
        c == digit_char(d as nat),
{
    match d {
        0 => '0',
        1 => '1',
        2 => '2',
        3 => '3',
        4 => '4',
        5 => '5',
        6 => '6',
        7 => '7',
        8 => '8',
        _ => '9',
    }
}

/// Append the characters of `s` to `v`.
pub fn push_str(v: &mut Vec<char>, s: &str)
    ensures
        final(v)@ == old(v)@ + s@,
{
    let c = chars_of(s);
    append_chars(v, &c);
}

/// Append `w` to `v`.
pub fn append_chars(v: &mut Vec<char>, w: &Vec<char>)
    ensures
        final(v)@ == old(v)@ + w@,
{
    let mut i: usize = 0;
    while i < w.len()
        invariant
            i <= w.len(),
            v@ == old(v)@ + w@.take(i as int),
        decreases w.len() - i,
    {
        v.push(w[i]);
        assert(w@.take(i + 1) =~= w@.take(i as int).push(w@[i as int]));
        i += 1;
    }
    assert(w@.take(w@.len() as int) =~= w@);
}

} // verus!

verus! {

/// The maximal runs of non-white-space characters (`str::split_whitespace`).
pub open spec fn words(s: Seq<char>) -> Seq<Seq<char>>
    decreases s.len(),
{
    if s.len() == 0 {
        Seq::<Seq<char>>::empty()
    } else {
        let w = words(s.drop_last());
        if is_ws(s.last()) {
            w
        } else if s.len() >= 2 && !is_ws(s[s.len() - 2]) {
            w.update(w.len() - 1, w.last().push(s.last()))
        } else {
            w.push(seq![s.last()])
        }
    }
}

/// A string that ends in a non-white-space character has a word.
pub proof fn lemma_words_nonempty(s: Seq<char>)
    requires
        s.len() > 0,
        !is_ws(s.last()),
    ensures
        words(s).len() >= 1,
    decreases s.len(),
{
    if s.len() >= 2 && !is_ws(s[s.len() - 2]) {
        lemma_words_nonempty(s.drop_last());
    }
}

/// Split `s` into its white-space separated words.
pub fn split_words(s: &Vec<char>) -> (r: Vec<Vec<char>>)
    ensures
        views(r@) == words(s@),
{
    let mut done: Vec<Vec<char>> = Vec::new();
    let mut cur: Vec<char> = Vec::new();
    let mut in_word = false;
    let mut i: usize = 0;
    while i < s.len()
        invariant
            i <= s.len(),
            in_word ==> i > 0 && !is_ws(s@[i - 1]) && views(done@).push(cur@) == words(s@.take(i as int)),
            !in_word ==> (i == 0 || is_ws(s@[i - 1])) && views(done@) == words(s@.take(i as int)) && cur@.len() == 0,
        decreases s.len() - i,
    {
        let c = s[i];
        let ghost old_dv = views(done@);
        let ghost old_cur = cur@;
        proof {
            assert(s@.take(i + 1).drop_last() =~= s@.take(i as int));
            assert(s@.take(i + 1).last() == c);
            if i > 0 {
                assert(s@.take(i + 1)[i - 1] == s@[i - 1]);
            }
            if in_word {
                lemma_words_nonempty(s@.take(i as int));
                assert(s@.take(i as int).last() == s@[i - 1]);
            }
        }
        if char_is_ws(c) {
            if in_word {
                let piece = cur;
                done.push(piece);
                cur = Vec::new();
                assert(views(done@) =~= old_dv.push(old_cur));
                in_word = false;
            }
        } else {
            cur.push(c);
            if in_word {
                assert(views(done@).push(cur@) =~= words(s@.take(i + 1)));
            } else {
                assert(cur@ =~= seq![c]);
                assert(views(done@).push(cur@) =~= words(s@.take(i + 1)));
            }
            in_word = true;
        }
        i += 1;
    }
    assert(s@.take(s@.len() as int) =~= s@);
    if in_word {
        let ghost old_dv = views(done@);
        let ghost old_cur = cur@;
        done.push(cur);
        assert(views(done@) =~= old_dv.push(old_cur));
    }
    done
}

/// Whether a character separates the fields of a date (`,` or space).
pub open spec fn is_date_sep(c: char) -> bool {
    c == ',' || c == ' '
}

/// The non-empty pieces of `s` between commas and spaces (how an `Expires`
/// date is split into fields).
pub open spec fn date_fields(s: Seq<char>) -> Seq<Seq<char>>
    decreases s.len(),
{
    if s.len() == 0 {
        Seq::<Seq<char>>::empty()
    } else {
        let w = date_fields(s.drop_last());
        if is_date_sep(s.last()) {
            w
        } else if s.len() >= 2 && !is_date_sep(s[s.len() - 2]) {
            w.update(w.len() - 1, w.last().push(s.last()))
        } else {
            w.push(seq![s.last()])
        }
    }
}

/// A string that ends in a non-separator character has a field.
pub proof fn lemma_date_fields_nonempty(s: Seq<char>)
    requires
        s.len() > 0,
        !is_date_sep(s.last()),
    ensures
        date_fields(s).len() >= 1,
    decreases s.len(),
{
    if s.len() >= 2 && !is_date_sep(s[s.len() - 2]) {
        lemma_date_fields_nonempty(s.drop_last());
    }
}

/// Split `s` into its comma- and space-separated fields.
pub fn split_date_fields(s: &Vec<char>) -> (r: Vec<Vec<char>>)
    ensures
        views(r@) == date_fields(s@),
{
    let mut done: Vec<Vec<char>> = Vec::new();
    let mut cur: Vec<char> = Vec::new();
    let mut in_word = false;
    let mut i: usize = 0;
    while i < s.len()
        invariant
            i <= s.len(),
            in_word ==> i > 0 && !is_date_sep(s@[i - 1]) && views(done@).push(cur@) == date_fields(s@.take(i as int)),
            !in_word ==> (i == 0 || is_date_sep(s@[i - 1])) && views(done@) == date_fields(s@.take(i as int)) && cur@.len() == 0,
        decreases s.len() - i,
    {
        let c = s[i];
        let ghost old_dv = views(done@);
        let ghost old_cur = cur@;
        proof {
            assert(s@.take(i + 1).drop_last() =~= s@.take(i as int));
            assert(s@.take(i + 1).last() == c);
            if i > 0 {
                assert(s@.take(i + 1)[i - 1] == s@[i - 1]);
            }
            if in_word {
                lemma_date_fields_nonempty(s@.take(i as int));
                assert(s@.take(i as int).last() == s@[i - 1]);
            }
        }
        if (c == ',' || c == ' ') {
            if in_word {
                let piece = cur;
                done.push(piece);
                cur = Vec::new();
                assert(views(done@) =~= old_dv.push(old_cur));
                in_word = false;
            }
        } else {
            cur.push(c);
            if in_word {
                assert(views(done@).push(cur@) =~= date_fields(s@.take(i + 1)));
            } else {
                assert(cur@ =~= seq![c]);
                assert(views(done@).push(cur@) =~= date_fields(s@.take(i + 1)));
            }
            in_word = true;
        }
        i += 1;
    }
    assert(s@.take(s@.len() as int) =~= s@);
    if in_word {
        let ghost old_dv = views(done@);
        let ghost old_cur = cur@;
        done.push(cur);
        assert(views(done@) =~= old_dv.push(old_cur));
    }
    done
}

/// Whether `v` holds exactly the characters of `lit`.
pub fn eq_lit(v: &[char], lit: &str) -> (r: bool)
    ensures
        r == (v@ == lit@),
{
    let l = chars_of(lit);
    if v.len() != l.len() {
        return false;
    }
    let r = starts_with(v, l.as_slice());
    assert(v@.take(l@.len() as int) =~= v@);
    r
}

} // verus!

verus! {

/// The position of the first `c` in `s`, if any.
pub open spec fn first_index(s: Seq<char>, c: char) -> Option<int> {
    if exists|i: int| 0 <= i < s.len() && s[i] == c {
        Some(choose|i: int| 0 <= i < s.len() && s[i] == c && forall|j: int| 0 <= j < i ==> s[j] != c)
    } else {
        None
    }
}

/// The position of the first `c` in `s`, as [`first_index`] states.
pub fn index_of(s: &[char], c: char) -> (r: Option<usize>)
    ensures
        match r {
            Some(i) => first_index(s@, c) == Some(i as int),
            None => first_index(s@, c) is None,
        },
        r matches Some(i) ==> i < s@.len() && s@[i as int] == c,
{
    let r = find_char(s, c);
    proof {
        match r {
            Some(i) => {
                assert(0 <= i < s@.len() && s@[i as int] == c);
                let k = choose|k: int| 0 <= k < s@.len() && s@[k] == c && forall|j: int| 0 <= j < k ==> s@[j] != c;
                assert(exists|k: int| 0 <= k < s@.len() && s@[k] == c && forall|j: int| 0 <= j < k ==> s@[j] != c);
                if k < i {
                    assert(s@[k] != c);
                } else if k > i {
                    assert(s@[i as int] != c);
                }
            },
            None => {},
        }
    }
    r
}

/// A line without the carriage return that ended it.
pub open spec fn strip_cr(p: Seq<char>) -> Seq<char> {
    if p.len() > 0 && p.last() == '\r' {
        p.drop_last()
    } else {
        p
    }
}

/// The lines of a text (`str::lines`): split at `\n`, a `\r` before the `\n`
/// removed, and no empty last line after a final `\n`.
pub open spec fn lines(s: Seq<char>) -> Seq<Seq<char>> {
    let ps = split_on(s, '\n');
    let n = ps.len();
    let body = ps.take(n - 1).map_values(|p: Seq<char>| strip_cr(p));
    if ps[n - 1].len() == 0 {
        body
    } else {
        body.push(ps[n - 1])
    }
}

/// The lines of a text, as [`lines`] states.
pub fn split_lines(s: &Vec<char>) -> (r: Vec<Vec<char>>)
    ensures
        views(r@) == lines(s@),
{
    let ps = split_chars(s, '\n');
    proof {
        lemma_split_on_nonempty(s@, '\n');
    }
    let n = ps.len();
    let mut out: Vec<Vec<char>> = Vec::new();
    let mut i: usize = 0;
    while i + 1 < n
        invariant
            n == ps@.len() >= 1,
            i + 1 <= n,
            views(ps@) == split_on(s@, '\n'),
            views(out@) == views(ps@).take(i as int).map_values(|p: Seq<char>| strip_cr(p)),
        decreases n - i,
    {
        let p = &ps[i];
        let q = if p.len() > 0 && p[p.len() - 1] == '\r' {
            sub_vec(p, 0, p.len() - 1)
        } else {
            p.clone()
        };
        let ghost old_o = views(out@);
        out.push(q);
        assert(views(out@) =~= views(ps@).take(i + 1).map_values(|p: Seq<char>| strip_cr(p))) by {
            assert(views(out@) =~= old_o.push(q@));
            assert(views(ps@)[i as int] == ps@[i as int]@);
            assert(p@.len() > 0 ==> p@.drop_last() =~= p@.subrange(0, p@.len() - 1));
        }
        i += 1;
    }
    let last = &ps[n - 1];
    assert(views(ps@)[n - 1] == last@);
    if last.len() == 0 {
        out
    } else {
        let ghost old_o = views(out@);
        out.push(last.clone());
        assert(views(out@) =~= old_o.push(last@));
        out
    }
}

/// `v` as a string with its characters lowercased (as `str::to_lowercase`).
pub fn lower_chars(v: &Vec<char>) -> (r: Vec<char>)
    ensures
        r@ == unicode_lowercase(v@),
        all_ascii(v@) ==> r@ == v@.map_values(|c: char| ascii_lower_char(c)),
{
    let s = string_of(v.as_slice());
    let l = to_lowercase(s.as_str());
    chars_of(l.as_str())
}

/// Whether the sequence `v` contains the character string `x`.
pub fn contains_vec(v: &Vec<Vec<char>>, x: &Vec<char>) -> (r: bool)
    ensures
        r == views(v@).contains(x@),
{
    let mut i: usize = 0;
    while i < v.len()
        invariant
            i <= v.len(),
            forall|j: int| 0 <= j < i ==> v@[j]@ != x@,
        decreases v.len() - i,
    {
        if eq_lit(v[i].as_slice(), &string_of(x.as_slice())) {
            assert(views(v@)[i as int] == x@);
            return true;
        }
        i += 1;
    }
    assert forall|j: int| 0 <= j < views(v@).len() implies views(v@)[j] != x@ by {
        assert(views(v@)[j] == v@[j]@);
    }
    false
}

} // verus!

verus! {

/// Whether two character strings are equal.
pub fn eq_chars(a: &[char], b: &[char]) -> (r: bool)
    ensures
        r == (a@ == b@),
{
    if a.len() != b.len() {
        return false;
    }
    let r = starts_with(a, b);
    assert(a@.take(b@.len() as int) =~= a@);
    r
}

} // verus!

verus! {

/// What `str::parse::<u32>` returns: an optional `+`, then one or more
/// decimal digits whose value fits in a `u32`.
pub open spec fn parse_u32_spec(s: Seq<char>) -> Option<u32> {
    let d = unsigned_digits(s);
    if d.len() > 0 && all_digits(d) && digits_value(d) <= u32::MAX {
        Some(digits_value(d) as u32)
    } else {
        None
    }
}

/// Parse a decimal `u32` as `str::parse::<u32>` does.
pub fn parse_u32(s: &[char]) -> (r: Option<u32>)
    ensures
        r == parse_u32_spec(s@),
{
    match parse_u64(s) {
        Some(v) => if v <= u32::MAX as u64 {
            Some(v as u32)
        } else {
            None
        },
        None => None,
    }
}

/// What `str::parse::<i32>` returns: an optional sign (`+` or `-`), then
/// one or more decimal digits whose signed value fits in an `i32`.
pub open spec fn parse_i32_spec(s: Seq<char>) -> Option<i32> {
    let neg = s.len() > 0 && s[0] == '-';
    let d = if s.len() > 0 && (s[0] == '+' || s[0] == '-') {
        s.drop_first()
    } else {
        s
    };
    let v: int = if neg {
        -(digits_value(d) as int)
    } else {
        digits_value(d) as int
    };
    if d.len() > 0 && all_digits(d) && i32::MIN <= v <= i32::MAX {
        Some(v as i32)
    } else {
        None
    }
}

/// Parse a decimal `i32` as `str::parse::<i32>` does.
pub fn parse_i32(s: &[char]) -> (r: Option<i32>)
    ensures
        r == parse_i32_spec(s@),
{
    if s.len() > 0 && s[0] == '-' {
        let rest = sub_slice(s, 1, s.len());
        assert(rest@ =~= s@.drop_first());
        if rest.len() > 0 && rest[0] == '+' {
            assert(!all_digits(rest@)) by {
                assert(rest@[0] == '+');
            }
            return None;
        }
        assert(unsigned_digits(rest@) == rest@);
        match parse_u64(rest.as_slice()) {
            Some(v) => if v <= 2147483648 {
                if v == 2147483648 {
                    Some(-2147483647i32 - 1)
                } else {
                    Some(-(v as i32))
                }
            } else {
                None
            },
            None => None,
        }
    } else {
        match parse_u64(s) {
            Some(v) => if v <= i32::MAX as u64 {
                Some(v as i32)
            } else {
                None
            },
            None => None,
        }
    }
}

/// A copy of `s[lo..hi]`.
pub fn sub_slice(s: &[char], lo: usize, hi: usize) -> (r: Vec<char>)
    requires
        lo <= hi <= s.len(),
    ensures
        r@ == s@.subrange(lo as int, hi as int),
{
    let mut r: Vec<char> = Vec::new();
    let mut i = lo;
    while i < hi
        invariant
            lo <= i <= hi <= s.len(),
            r@ == s@.subrange(lo as int, i as int),
        decreases hi - i,
    {
        r.push(s[i]);
        i += 1;
    }
    r
}

/// The pieces of `parts` joined with `sep` between them.
pub open spec fn join(parts: Seq<Seq<char>>, sep: Seq<char>) -> Seq<char>
    decreases parts.len(),
{
    if parts.len() == 0 {
        Seq::empty()
    } else if parts.len() == 1 {
        parts[0]
    } else {
        join(parts.drop_last(), sep) + sep + parts.last()
    }
}

/// Join character strings with a separator.
pub fn join_chars(parts: &Vec<Vec<char>>, sep: &str) -> (r: Vec<char>)
    ensures
        r@ == join(views(parts@), sep@),
{
    let mut r: Vec<char> = Vec::new();
    let mut i: usize = 0;
    while i < parts.len()
        invariant
            i <= parts.len(),
            r@ == join(views(parts@).take(i as int), sep@),
        decreases parts.len() - i,
    {
        proof {
            assert(views(parts@).take(i + 1).drop_last() =~= views(parts@).take(i as int));
            assert(views(parts@).take(i + 1).last() == parts@[i as int]@);
        }
        if i > 0 {
            push_str(&mut r, sep);
        } else {
            assert(views(parts@).take(0) =~= Seq::<Seq<char>>::empty());
        }
        append_chars(&mut r, &parts[i]);
        proof {
            if i == 0 {
                assert(views(parts@).take(1)[0] == parts@[0]@);
                assert(r@ =~= join(views(parts@).take(1), sep@));
            }
        }
        i += 1;
    }
    assert(views(parts@).take(parts@.len() as int) =~= views(parts@));
    r
}

} // verus!

verus! {

/// The decimal digits of a `u128`.
pub fn decimal_chars_wide(n: u128) -> (r: Vec<char>)
    ensures
        r@ == decimal(n as nat),
    decreases n,
{
    let d: u32 = (n % 10) as u32;
    let c: char = char_of_digit(d);
    if n < 10 {
        let mut v = Vec::new();
        v.push(c);
        v
    } else {
        let mut v = decimal_chars_wide(n / 10);
        v.push(c);
        v
    }
}

} // verus!

verus! {

/// A string made of a literal and a string.
pub fn lit_plus(lit: &str, s: &str) -> (r: String)
    ensures
        r@ == lit@ + s@,
{
    let mut v = chars_of(lit);
    push_str(&mut v, s);
    string_of(v.as_slice())
}

/// A string holding a literal.
pub fn lit_only(lit: &str) -> (r: String)
    ensures
        r@ == lit@,
{
    string_of(chars_of(lit).as_slice())
}

/// A string made of a literal and characters.
pub fn lit_chars(lit: &str, s: &Vec<char>) -> (r: String)
    ensures
        r@ == lit@ + s@,
{
    let mut v = chars_of(lit);
    append_chars(&mut v, s);
    string_of(v.as_slice())
}

} // verus!

verus! {

/// A string without the separator is a single piece.
pub proof fn lemma_split_on_single(s: Seq<char>, sep: char)
    requires
        !s.contains(sep),
    ensures
        split_on(s, sep) == seq![s],
    decreases s.len(),
{
    if s.len() > 0 {
        assert(!s.drop_last().contains(sep)) by {
            if s.drop_last().contains(sep) {
                let k = choose|k: int| 0 <= k < s.drop_last().len() && s.drop_last()[k] == sep;
                assert(s[k] == sep);
            }
        }
        lemma_split_on_single(s.drop_last(), sep);
        assert(s.last() != sep) by {
            assert(s[s.len() - 1] == s.last());
        }
        assert(s.drop_last().push(s.last()) =~= s);
        let rest = split_on(s.drop_last(), sep);
        assert(split_on(s, sep) == rest.update(rest.len() - 1, rest.last().push(s.last())));
        assert(seq![s.drop_last()].update(0, s.drop_last().push(s.last())) =~= seq![s]);
    } else {
        assert(s =~= Seq::<char>::empty());
    }
}

/// Splitting after a separator: the piece after the last separator is a
/// piece of its own.
pub proof fn lemma_split_on_after_sep(x: Seq<char>, y: Seq<char>, sep: char)
    requires
        !y.contains(sep),
    ensures
        split_on(x + seq![sep] + y, sep) == split_on(x, sep).push(y),
    decreases y.len(),
{
    let s = x + seq![sep] + y;
    if y.len() == 0 {
        assert(s.drop_last() =~= x);
        assert(s.last() == sep);
        assert(y =~= Seq::<char>::empty());
        assert(split_on(s, sep) == split_on(s.drop_last(), sep).push(Seq::<char>::empty()));
    } else {
        assert(!y.drop_last().contains(sep)) by {
            if y.drop_last().contains(sep) {
                let k = choose|k: int| 0 <= k < y.drop_last().len() && y.drop_last()[k] == sep;
                assert(y[k] == sep);
            }
        }
        lemma_split_on_after_sep(x, y.drop_last(), sep);
        assert(s.drop_last() =~= x + seq![sep] + y.drop_last());
        assert(s.last() == y.last());
        assert(y.last() != sep) by {
            assert(y[y.len() - 1] == y.last());
        }
        let r = split_on(x, sep).push(y.drop_last());
        assert(split_on(s, sep) == r.update(r.len() - 1, r.last().push(s.last())));
        assert(y.drop_last().push(y.last()) =~= y);
        assert(r.update(r.len() - 1, r.last().push(s.last())) =~= split_on(x, sep).push(y));
    }
}

/// Splitting a join gives back the pieces, when none holds the separator.
pub proof fn lemma_split_join(parts: Seq<Seq<char>>, sep: char)
    requires
        parts.len() >= 1,
        forall|i: int| 0 <= i < parts.len() ==> !(#[trigger] parts[i]).contains(sep),
    ensures
        split_on(join(parts, seq![sep]), sep) == parts,
    decreases parts.len(),
{
    if parts.len() == 1 {
        lemma_split_on_single(parts[0], sep);
        assert(seq![parts[0]] =~= parts);
    } else {
        lemma_split_join(parts.drop_last(), sep);
        assert(!parts.last().contains(sep)) by {
            assert(parts[parts.len() - 1] == parts.last());
        }
        lemma_split_on_after_sep(join(parts.drop_last(), seq![sep]), parts.last(), sep);
        assert(parts.drop_last().push(parts.last()) =~= parts);
    }
}

/// A string that neither starts nor ends with white space is its own trim.
pub proof fn lemma_trim_unchanged(s: Seq<char>)
    requires
        s.len() > 0,
        !is_ws(s[0]),
        !is_ws(s.last()),
    ensures
        trim(s) == s,
{
    assert(trim_start(s) == s);
}

/// The digits of a decimal are digits and give back its value.
pub proof fn lemma_decimal_digits(n: nat)
    ensures
        all_digits(decimal(n)),
        digits_value(decimal(n)) == n,
        decimal(n).len() > 0,
    decreases n,
{
    let d = digit_char(n % 10);
    assert((d as nat) == n % 10 + ('0' as nat));
    if n < 10 {
        let s = decimal(n);
        assert(s == seq![digit_char(n)]);
        assert(s.drop_last() =~= Seq::<char>::empty());
        assert(s.last() == d);
        assert(digits_value(s) == digits_value(s.drop_last()) * 10 + ((s.last() as nat) - ('0' as nat)) as nat);
        assert(digits_value(Seq::<char>::empty()) == 0);
    } else {
        lemma_decimal_digits(n / 10);
        let s = decimal(n);
        assert(s.drop_last() =~= decimal(n / 10));
        assert(s.last() == d);
        assert forall|i: int| 0 <= i < s.len() implies '0' <= #[trigger] s[i] <= '9' by {
            if i < s.len() - 1 {
                assert(s[i] == decimal(n / 10)[i]);
            }
        }
        assert(digits_value(s) == n / 10 * 10 + n % 10);
        assert(n / 10 * 10 + n % 10 == n) by (nonlinear_arith);
    }
}

/// Parsing a decimal gives back its value.
pub proof fn lemma_parse_decimal(n: u64)
    ensures
        parse_u64_spec(decimal(n as nat)) == Some(n),
{
    lemma_decimal_digits(n as nat);
    let s = decimal(n as nat);
    assert('0' <= s[0] <= '9');
    assert(unsigned_digits(s) == s);
}

} // verus!

verus! {

/// A join starts with the first piece's first character.
pub proof fn lemma_join_first(parts: Seq<Seq<char>>, sep: Seq<char>)
    requires
        parts.len() >= 1,
        parts[0].len() > 0,
    ensures
        join(parts, sep).len() > 0,
        join(parts, sep)[0] == parts[0][0],
    decreases parts.len(),
{
    if parts.len() > 1 {
        lemma_join_first(parts.drop_last(), sep);
    }
}

/// A join ends with the last piece's last character.
pub proof fn lemma_join_last(parts: Seq<Seq<char>>, sep: Seq<char>)
    requires
        parts.len() >= 1,
        parts.last().len() > 0,
    ensures
        join(parts, sep).len() > 0,
        join(parts, sep).last() == parts.last().last(),
{
    if parts.len() == 1 {
        assert(parts[0] == parts.last());
    }
}

/// A character in neither the pieces nor the separator is not in the join.
pub proof fn lemma_join_avoids(parts: Seq<Seq<char>>, sep: char, c: char)
    requires
        sep != c,
        forall|i: int| 0 <= i < parts.len() ==> !(#[trigger] parts[i]).contains(c),
    ensures
        !join(parts, seq![sep]).contains(c),
    decreases parts.len(),
{
    if parts.len() == 1 {
        assert(!parts[0].contains(c));
    } else if parts.len() > 1 {
        lemma_join_avoids(parts.drop_last(), sep, c);
        let a = join(parts.drop_last(), seq![sep]);
        let b = parts.last();
        assert(!b.contains(c)) by {
            assert(parts[parts.len() - 1] == b);
        }
        let j = a + seq![sep] + b;
        assert(join(parts, seq![sep]) == j);
        assert forall|k: int| 0 <= k < j.len() implies j[k] != c by {
            if k < a.len() {
                assert(j[k] == a[k]);
            } else if k == a.len() {
                assert(j[k] == sep);
            } else {
                assert(j[k] == b[k - a.len() - 1]);
            }
        }
    }
}

/// The digits of a decimal hold no character but digits.
pub proof fn lemma_decimal_avoids(n: nat, c: char)
    requires
        !('0' <= c <= '9'),
    ensures
        !decimal(n).contains(c),
{
    lemma_decimal_digits(n);
    let s = decimal(n);
    assert forall|k: int| 0 <= k < s.len() implies s[k] != c by {
        assert('0' <= s[k] <= '9');
    }
}

} // verus!

verus! {

/// The lines of a single line ended by a line break.
pub proof fn lemma_lines_single(l: Seq<char>)
    requires
        !l.contains('\n'),
    ensures
        lines(l + seq!['\n']) == seq![strip_cr(l)],
{
    lemma_split_on_single(l, '\n');
    lemma_split_on_after_sep(l, Seq::<char>::empty(), '\n');
    assert(l + seq!['\n'] + Seq::<char>::empty() =~= l + seq!['\n']);
    let ps = split_on(l + seq!['\n'], '\n');
    assert(ps =~= seq![l, Seq::<char>::empty()]);
    assert(ps.take(1).map_values(|p: Seq<char>| strip_cr(p)) =~= seq![strip_cr(l)]);
}

/// Appending a line ended by a line break to a text that ends with one
/// appends that line to its lines.
pub proof fn lemma_lines_push(t: Seq<char>, l: Seq<char>)
    requires
        t.len() > 0,
        t.last() == '\n',
        !l.contains('\n'),
    ensures
        lines(t + l + seq!['\n']) == lines(t).push(strip_cr(l)),
{
    let e = Seq::<char>::empty();
    let u = t.drop_last();
    assert(t =~= u + seq!['\n'] + e);
    lemma_split_on_after_sep(u, e, '\n');
    lemma_split_on_after_sep(u, l, '\n');
    lemma_split_on_after_sep(u + seq!['\n'] + l, e, '\n');
    assert(t + l + seq!['\n'] =~= (u + seq!['\n'] + l) + seq!['\n'] + e);
    let su = split_on(u, '\n');
    let pt = split_on(t, '\n');
    let pf = split_on(t + l + seq!['\n'], '\n');
    assert(pt == su.push(e));
    assert(pf == su.push(l).push(e));
    assert(pt.take(pt.len() - 1) =~= su);
    assert(pf.take(pf.len() - 1) =~= su.push(l));
    assert(lines(t) == su.map_values(|p: Seq<char>| strip_cr(p)));
    assert(su.push(l).map_values(|p: Seq<char>| strip_cr(p)) =~= su.map_values(|p: Seq<char>| strip_cr(p)).push(strip_cr(l)));
}

} // verus!

verus! {

/// Whether a string holds no white space.
pub open spec fn no_ws(s: Seq<char>) -> bool {
    forall|k: int| 0 <= k < s.len() ==> !is_ws(#[trigger] s[k])
}

/// A string without white space is one word, when it is not empty.
pub proof fn lemma_words_single(y: Seq<char>)
    requires
        y.len() > 0,
        no_ws(y),
    ensures
        words(y) == seq![y],
    decreases y.len(),
{
    assert(!is_ws(y.last())) by {
        assert(y[y.len() - 1] == y.last());
    }
    if y.len() == 1 {
        assert(y.drop_last() =~= Seq::<char>::empty());
        assert(words(y.drop_last()) == Seq::<Seq<char>>::empty());
        assert(words(y) == words(y.drop_last()).push(seq![y.last()]));
        assert(seq![y.last()] =~= y);
        assert(Seq::<Seq<char>>::empty().push(y) =~= seq![y]);
    } else {
        let d = y.drop_last();
        assert(no_ws(d)) by {
            assert forall|k: int| 0 <= k < d.len() implies !is_ws(#[trigger] d[k]) by {
                assert(d[k] == y[k]);
            }
        }
        lemma_words_single(d);
        assert(!is_ws(y[y.len() - 2]));
        let w = words(d);
        assert(words(y) == w.update(w.len() - 1, w.last().push(y.last())));
        assert(d.push(y.last()) =~= y);
        assert(seq![d].update(0, d.push(y.last())) =~= seq![y]);
    }
}

/// A word after a space is one more word.
pub proof fn lemma_words_after_space(x: Seq<char>, y: Seq<char>)
    requires
        y.len() > 0,
        no_ws(y),
    ensures
        words(x + seq![' '] + y) == words(x).push(y),
    decreases y.len(),
{
    let s = x + seq![' '] + y;
    assert(!is_ws(y.last())) by {
        assert(y[y.len() - 1] == y.last());
    }
    assert(s.last() == y.last());
    if y.len() == 1 {
        assert(s.drop_last() =~= x + seq![' ']);
        assert((x + seq![' ']).drop_last() =~= x);
        assert(is_ws((x + seq![' ']).last()));
        assert(words(x + seq![' ']) == words(x));
        assert(s[s.len() - 2] == ' ');
        assert(seq![y.last()] =~= y);
    } else {
        let d = y.drop_last();
        assert(no_ws(d)) by {
            assert forall|k: int| 0 <= k < d.len() implies !is_ws(#[trigger] d[k]) by {
                assert(d[k] == y[k]);
            }
        }
        lemma_words_after_space(x, d);
        assert(s.drop_last() =~= x + seq![' '] + d);
        assert(s[s.len() - 2] == y[y.len() - 2]);
        assert(!is_ws(y[y.len() - 2]));
        let w = words(x).push(d);
        assert(d.push(y.last()) =~= y);
        assert(w.update(w.len() - 1, w.last().push(s.last())) =~= words(x).push(y));
    }
}

/// The words of nonempty white-space-free pieces joined with spaces are the
/// pieces.
pub proof fn lemma_words_join(toks: Seq<Seq<char>>)
    requires
        forall|i: int| 0 <= i < toks.len() ==> (#[trigger] toks[i]).len() > 0 && no_ws(toks[i]),
    ensures
        words(join(toks, seq![' '])) == toks,
    decreases toks.len(),
{
    if toks.len() == 0 {
        assert(join(toks, seq![' ']) =~= Seq::<char>::empty());
        assert(toks =~= Seq::<Seq<char>>::empty());
    } else if toks.len() == 1 {
        lemma_words_single(toks[0]);
        assert(seq![toks[0]] =~= toks);
    } else {
        let d = toks.drop_last();
        assert forall|i: int| 0 <= i < d.len() implies (#[trigger] d[i]).len() > 0 && no_ws(d[i]) by {
            assert(d[i] == toks[i]);
        }
        lemma_words_join(d);
        assert(toks[toks.len() - 1] == toks.last());
        lemma_words_after_space(join(d, seq![' ']), toks.last());
        assert(d.push(toks.last()) =~= toks);
    }
}

} // verus!
