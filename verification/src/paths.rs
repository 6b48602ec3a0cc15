//! File-system paths held as `/`-separated text, with the parts of
//! `std::path::Path` that the library reads (file name, extension,
//! joining, prefix stripping) stated over `Seq<char>`.
use vstd::prelude::*;
use crate::text::{append_chars, eq_chars, join, join_chars, split_chars, split_on, sub_slice, views};

verus! {

/// The last piece that is neither empty nor `.`, unless that piece is `..`
/// (how `Path::file_name` reads a path split at `/`).
pub open spec fn last_name(pieces: Seq<Seq<char>>) -> Option<Seq<char>>
    decreases pieces.len(),
{
    if pieces.len() == 0 {
        None
    } else if pieces.last().len() == 0 || pieces.last() == seq!['.'] {
        last_name(pieces.drop_last())
    } else if pieces.last() == seq!['.', '.'] {
        None
    } else {
        Some(pieces.last())
    }
}

/// The file name of a path (`Path::file_name`).
pub open spec fn file_name(p: Seq<char>) -> Option<Seq<char>> {
    last_name(split_on(p, '/'))
}

/// The position of the last `c` in `s`.
pub open spec fn last_index_of(s: Seq<char>, c: char) -> Option<int>
    decreases s.len(),
{
    if s.len() == 0 {
        None
    } else if s.last() == c {
        Some(s.len() - 1)
    } else {
        last_index_of(s.drop_last(), c)
    }
}

/// The extension of a file name: the text after its last `.`, unless there
/// is no `.` or the only one starts the name.
pub open spec fn name_extension(name: Seq<char>) -> Option<Seq<char>> {
    match last_index_of(name, '.') {
        Some(i) => if i == 0 {
            None
        } else {
            Some(name.skip(i + 1))
        },
        None => None,
    }
}

/// The extension of a path (`Path::extension`).
pub open spec fn path_extension(p: Seq<char>) -> Option<Seq<char>> {
    match file_name(p) {
        Some(n) => name_extension(n),
        None => None,
    }
}

/// The position of the last `c` in `s`, as [`last_index_of`] states.
pub fn last_index(s: &[char], c: char) -> (r: Option<usize>)
    ensures
        match r {
            Some(i) => last_index_of(s@, c) == Some(i as int) && i < s.len(),
            None => last_index_of(s@, c) is None,
        },
{
    let mut i: usize = s.len();
    assert(s@.take(i as int) =~= s@);
    while i > 0
        invariant
            i <= s.len(),
            last_index_of(s@, c) == last_index_of(s@.take(i as int), c),
        decreases i,
    {
        assert(s@.take(i as int).last() == s@[i - 1]);
        if s[i - 1] == c {
            return Some(i - 1);
        }
        assert(s@.take(i as int).drop_last() =~= s@.take(i - 1));
        i -= 1;
    }
    None
}

/// The file name of a path, as [`file_name`] states.
pub fn file_name_chars(p: &Vec<char>) -> (r: Option<Vec<char>>)
    ensures
        match r {
            Some(v) => file_name(p@) == Some(v@),
            None => file_name(p@) is None,
        },
{
    let pieces = split_chars(p, '/');
    let ghost all = views(pieces@);
    let mut k: usize = pieces.len();
    assert(all.take(k as int) =~= all);
    while k > 0
        invariant
            k <= pieces.len(),
            all == views(pieces@),
            all == split_on(p@, '/'),
            last_name(all) == last_name(all.take(k as int)),
        decreases k,
    {
        let piece = &pieces[k - 1];
        assert(all.take(k as int).last() == piece@);
        assert(all.take(k as int).drop_last() =~= all.take(k - 1));
        if piece.len() == 0 || (piece.len() == 1 && piece[0] == '.') {
            assert(piece@.len() == 1 ==> piece@ =~= seq!['.']);
            k -= 1;
        } else if piece.len() == 2 && piece[0] == '.' && piece[1] == '.' {
            assert(piece@ =~= seq!['.', '.']);
            return None;
        } else {
            assert(piece@ != seq!['.']) by {
                if piece@.len() == 1 {
                    assert(piece@[0] != '.');
                }
            }
            assert(piece@ != seq!['.', '.']) by {
                if piece@.len() == 2 {
                    assert(piece@[0] != '.' || piece@[1] != '.');
                }
            }
            return Some(piece.clone());
        }
    }
    None
}

/// The extension of a path, as [`path_extension`] states.
pub fn extension_chars(p: &Vec<char>) -> (r: Option<Vec<char>>)
    ensures
        match r {
            Some(v) => path_extension(p@) == Some(v@),
            None => path_extension(p@) is None,
        },
{
    match file_name_chars(p) {
        Some(name) => match last_index(name.as_slice(), '.') {
            Some(i) => if i == 0 {
                None
            } else {
                let e = sub_slice(name.as_slice(), i + 1, name.len());
                assert(e@ =~= name@.skip(i + 1));
                Some(e)
            },
            None => None,
        },
        None => None,
    }
}

/// A path with `piece` appended as `PathBuf::push` appends a relative
/// piece: nothing added before it when the path is empty, otherwise a `/`
/// unless the path already ends with one. An absolute piece replaces the
/// path.
pub open spec fn pushed(p: Seq<char>, piece: Seq<char>) -> Seq<char> {
    if piece.len() > 0 && piece[0] == '/' {
        piece
    } else if p.len() == 0 || p.last() == '/' {
        p + piece
    } else {
        p + seq!['/'] + piece
    }
}

/// Append a piece to a path, as [`pushed`] states.
pub fn push_piece(p: &mut Vec<char>, piece: &Vec<char>)
    ensures
        final(p)@ == pushed(old(p)@, piece@),
{
    if piece.len() > 0 && piece[0] == '/' {
        *p = piece.clone();
    } else if p.len() == 0 || p[p.len() - 1] == '/' {
        append_chars(p, piece);
    } else {
        p.push('/');
        append_chars(p, piece);
    }
}

/// The pieces that name something in a path: non-empty and not `.`.
pub open spec fn named_pieces(ps: Seq<Seq<char>>) -> Seq<Seq<char>>
    decreases ps.len(),
{
    if ps.len() == 0 {
        Seq::empty()
    } else if ps.last().len() == 0 || ps.last() == seq!['.'] {
        named_pieces(ps.drop_last())
    } else {
        named_pieces(ps.drop_last()).push(ps.last())
    }
}

/// The components of a path (`Path::components` on Unix): `/` for a root,
/// `.` for a leading current-directory piece, then every piece that is
/// neither empty nor `.`.
pub open spec fn components(p: Seq<char>) -> Seq<Seq<char>> {
    let ps = split_on(p, '/');
    let head: Seq<Seq<char>> = if p.len() > 0 && p[0] == '/' {
        seq![seq!['/']]
    } else if ps.len() > 0 && ps[0] == seq!['.'] {
        seq![seq!['.']]
    } else {
        Seq::empty()
    };
    head + named_pieces(ps)
}

/// What is left of `p` after the components of `base`, joined with `/`,
/// if `base`'s components begin `p`'s (`Path::strip_prefix`).
pub open spec fn strip_base(p: Seq<char>, base: Seq<char>) -> Option<Seq<char>> {
    let cp = components(p);
    let cb = components(base);
    if cb.len() <= cp.len() && cp.take(cb.len() as int) == cb {
        Some(join(cp.skip(cb.len() as int), seq!['/']))
    } else {
        None
    }
}

/// The components of a path, as [`components`] states.
pub fn components_of(p: &Vec<char>) -> (r: Vec<Vec<char>>)
    ensures
        views(r@) == components(p@),
{
    let ps = split_chars(p, '/');
    let ghost all = views(ps@);
    let mut out: Vec<Vec<char>> = Vec::new();
    if p.len() > 0 && p[0] == '/' {
        let mut root: Vec<char> = Vec::new();
        root.push('/');
        out.push(root);
    } else if ps.len() > 0 && ps[0].len() == 1 && ps[0][0] == '.' {
        let mut cur: Vec<char> = Vec::new();
        cur.push('.');
        out.push(cur);
        assert(all[0] == ps@[0]@);
        assert(ps@[0]@ =~= seq!['.']);
    } else {
        proof {
            if ps@.len() > 0 && all[0] == seq!['.'] {
                assert(all[0] == ps@[0]@);
                assert(ps@[0]@.len() == 1 && ps@[0]@[0] == '.');
            }
        }
    }
    let ghost head = views(out@);
    assert(head.len() <= 1);
    assert(head =~= (if p@.len() > 0 && p@[0] == '/' {
        seq![seq!['/']]
    } else if all.len() > 0 && all[0] == seq!['.'] {
        seq![seq!['.']]
    } else {
        Seq::<Seq<char>>::empty()
    }));
    let mut i: usize = 0;
    assert(all.take(0) =~= Seq::<Seq<char>>::empty());
    while i < ps.len()
        invariant
            i <= ps.len(),
            all == views(ps@),
            all == split_on(p@, '/'),
            views(out@) == head + named_pieces(all.take(i as int)),
        decreases ps.len() - i,
    {
        let piece = &ps[i];
        assert(all.take(i + 1).last() == piece@);
        assert(all.take(i + 1).drop_last() =~= all.take(i as int));
        if piece.len() == 0 || (piece.len() == 1 && piece[0] == '.') {
            assert(piece@.len() == 1 ==> piece@ =~= seq!['.']);
        } else {
            assert(piece@ != seq!['.']) by {
                if piece@.len() == 1 {
                    assert(piece@[0] != '.');
                }
            }
            let ghost old_o = views(out@);
            out.push(piece.clone());
            assert(views(out@) =~= old_o.push(piece@));
        }
        i += 1;
    }
    assert(all.take(all.len() as int) =~= all);
    out
}

/// What is left of a path after a base path, as [`strip_base`] states.
pub fn strip_base_chars(p: &Vec<char>, base: &Vec<char>) -> (r: Option<Vec<char>>)
    ensures
        match r {
            Some(v) => strip_base(p@, base@) == Some(v@),
            None => strip_base(p@, base@) is None,
        },
{
    let cp = components_of(p);
    let cb = components_of(base);
    if cb.len() > cp.len() {
        return None;
    }
    let mut i: usize = 0;
    while i < cb.len()
        invariant
            i <= cb.len() <= cp.len(),
            views(cp@) == components(p@),
            views(cb@) == components(base@),
            forall|j: int| 0 <= j < i ==> views(cp@)[j] == views(cb@)[j],
        decreases cb.len() - i,
    {
        assert(views(cp@)[i as int] == cp@[i as int]@);
        assert(views(cb@)[i as int] == cb@[i as int]@);
        if !eq_chars(cp[i].as_slice(), cb[i].as_slice()) {
            assert(cp@[i as int]@ != cb@[i as int]@);
            assert(views(cp@).take(cb@.len() as int)[i as int] != views(cb@)[i as int]);
            assert(views(cp@).take(cb@.len() as int) != views(cb@));
            return None;
        }
        i += 1;
    }
    assert(views(cp@).take(cb@.len() as int) =~= views(cb@));
    let mut rest: Vec<Vec<char>> = Vec::new();
    let mut k: usize = cb.len();
    while k < cp.len()
        invariant
            cb.len() <= k <= cp.len(),
            views(rest@) == views(cp@).subrange(cb@.len() as int, k as int),
        decreases cp.len() - k,
    {
        let ghost old_r = views(rest@);
        rest.push(cp[k].clone());
        assert(views(cp@)[k as int] == cp@[k as int]@);
        assert(views(rest@) =~= old_r.push(cp@[k as int]@));
        assert(views(rest@) =~= views(cp@).subrange(cb@.len() as int, k + 1));
        k += 1;
    }
    assert(views(rest@) =~= views(cp@).skip(cb@.len() as int));
    let joined = join_chars(&rest, "/");
    proof {
        reveal_strlit("/");
        assert("/"@ =~= seq!['/']);
    }
    Some(joined)
}

/// The last piece of a split is a suffix of the text, and it is empty
/// exactly when the text is empty or ends with the separator.
pub proof fn lemma_split_last(s: Seq<char>, sep: char)
    ensures
        split_on(s, sep).len() >= 1,
        split_on(s, sep).last().len() <= s.len(),
        s.skip(s.len() - split_on(s, sep).last().len()) == split_on(s, sep).last(),
        split_on(s, sep).last().len() == 0 <==> (s.len() == 0 || s.last() == sep),
    decreases s.len(),
{
    if s.len() == 0 {
        assert(s.skip(0) =~= Seq::<char>::empty());
    } else {
        let q = s.drop_last();
        lemma_split_last(q, sep);
        let rest = split_on(q, sep);
        if s.last() == sep {
            assert(s.skip(s.len() as int) =~= Seq::<char>::empty());
        } else {
            let l = rest.last().push(s.last());
            assert(split_on(s, sep).last() == l);
            assert(s.skip(s.len() - l.len()) =~= q.skip(q.len() - rest.last().len()).push(s.last()));
        }
    }
}

} // verus!
