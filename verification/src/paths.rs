//! Paths, compared and shortened name by name.

use crate::mcp::strings_eq;
use crate::text::{
    chars_of, join, join_strings, lemma_skip_step, lemma_split_by_len, lemma_split_concat,
    lemma_split_none, lemma_take_full, lemma_take_step, lemma_texts_push, only, opt_text,
    split_by, split_char, split_on, str_eq, texts,
};
use vstd::prelude::*;

verus! {

/// Whether a piece of a path is a name, given whether it is the first piece: an empty one is none,
/// and that of the directory itself is one only at the start.
pub open spec fn is_name(piece: Seq<char>, first: bool) -> bool {
    piece.len() > 0 && (piece != "."@ || first)
}

/// The names that make up a path: empty ones and, but at its start, those of the directory
/// itself count for nothing.
pub open spec fn path_names(pieces: Seq<Seq<char>>) -> Seq<Seq<char>>
    decreases pieces.len(),
{
    if pieces.len() == 0 {
        Seq::empty()
    } else {
        let before = path_names(pieces.drop_last());
        let last = pieces.last();
        if is_name(last, pieces.len() == 1) {
            before.push(last)
        } else {
            before
        }
    }
}

/// Whether a path starts at the root.
pub open spec fn is_rooted(p: Seq<char>) -> bool {
    p.len() > 0 && p[0] == '/'
}

/// Whether two paths are the same one, name by name.
pub open spec fn same_path(a: Seq<char>, b: Seq<char>) -> bool {
    is_rooted(a) == is_rooted(b) && path_names(split_on(a, '/')) == path_names(split_on(b, '/'))
}

fn is_name_piece(piece: &str, first: bool) -> (r: bool)
    ensures
        r == is_name(piece@, first),
{
    !piece.is_empty() && (!str_eq(piece, ".") || first)
}

/// The names that make up a path.
pub fn path_names_of(p: &str) -> (r: Vec<String>)
    ensures
        texts(r@) == path_names(split_on(p@, '/')),
{
    let pieces = split_char(p, '/');
    let ghost src = texts(pieces@);
    let mut out: Vec<String> = Vec::new();
    let mut i: usize = 0;
    proof {
        assert(texts(out@) =~= path_names(src.take(0)));
    }
    while i < pieces.len()
        invariant
            i <= pieces@.len(),
            src == texts(pieces@),
            texts(out@) == path_names(src.take(i as int)),
        decreases pieces@.len() - i,
    {
        proof {
            lemma_take_step(src, i as int);
            assert(src[i as int] == pieces@[i as int]@);
        }
        let name = pieces[i].as_str();
        if is_name_piece(name, i == 0) {
            let owned = name.to_owned();
            proof {
                lemma_texts_push(out@, owned);
            }
            out.push(owned);
        }
        i = i + 1;
    }
    proof {
        lemma_take_full(src);
    }
    out
}

/// Whether a path starts at the root.
pub fn is_rooted_path(p: &str) -> (r: bool)
    ensures
        r == is_rooted(p@),
{
    let c = chars_of(p);
    c.len() > 0 && c[0] == '/'
}

/// Whether two paths are the same one.
pub fn is_same_path(a: &str, b: &str) -> (r: bool)
    ensures
        r == same_path(a@, b@),
{
    is_rooted_path(a) == is_rooted_path(b) && strings_eq(&path_names_of(a), &path_names_of(b))
}

/// The pieces behind the first `n` names.
pub open spec fn behind_names(pieces: Seq<Seq<char>>, n: nat, first: bool) -> Seq<Seq<char>>
    decreases pieces.len(),
{
    if n == 0 || pieces.len() == 0 {
        pieces
    } else if is_name(pieces[0], first) {
        behind_names(pieces.drop_first(), (n - 1) as nat, false)
    } else {
        behind_names(pieces.drop_first(), n, false)
    }
}

/// Pieces from the first name on.
pub open spec fn from_name(pieces: Seq<Seq<char>>) -> Seq<Seq<char>>
    decreases pieces.len(),
{
    if pieces.len() > 0 && !is_name(pieces[0], false) {
        from_name(pieces.drop_first())
    } else {
        pieces
    }
}

/// Pieces up to the last name, but never without the first piece.
pub open spec fn up_to_name(pieces: Seq<Seq<char>>) -> Seq<Seq<char>>
    decreases pieces.len(),
{
    if pieces.len() > 1 && !is_name(pieces.last(), false) {
        up_to_name(pieces.drop_last())
    } else {
        pieces
    }
}

/// A path below a directory, as seen from there, if its names start with those of the directory.
pub open spec fn below(path: Seq<char>, dir: Seq<char>) -> Option<Seq<char>> {
    let pieces = split_on(path, '/');
    let names = path_names(split_on(dir, '/'));
    if is_rooted(path) != is_rooted(dir) || !names.is_prefix_of(path_names(pieces)) {
        None
    } else if names.len() == 0 && !is_rooted(dir) {
        Some(join(up_to_name(pieces), "/"@))
    } else {
        Some(join(up_to_name(from_name(behind_names(pieces, names.len(), true))), "/"@))
    }
}

fn starts_with_names(v: &Vec<String>, names: &Vec<String>) -> (r: bool)
    ensures
        r == texts(names@).is_prefix_of(texts(v@)),
{
    let ghost a = texts(names@);
    let ghost b = texts(v@);
    if names.len() > v.len() {
        return false;
    }
    let mut i: usize = 0;
    while i < names.len()
        invariant
            i <= names@.len() <= v@.len(),
            a == texts(names@),
            b == texts(v@),
            forall|k: int| 0 <= k < i ==> a[k] == b[k],
        decreases names@.len() - i,
    {
        proof {
            assert(a[i as int] == names@[i as int]@);
            assert(b[i as int] == v@[i as int]@);
        }
        if !str_eq(names[i].as_str(), v[i].as_str()) {
            proof {
                assert(b.subrange(0, a.len() as int)[i as int] == b[i as int]);
            }
            return false;
        }
        i = i + 1;
    }
    proof {
        assert(a =~= b.subrange(0, a.len() as int));
    }
    true
}

/// The index of the first name behind `n` names.
fn name_behind(pieces: &Vec<String>, n: usize) -> (r: usize)
    ensures
        r <= pieces@.len(),
        texts(pieces@).skip(r as int) == from_name(behind_names(texts(pieces@), n as nat, true)),
{
    let ghost src = texts(pieces@);
    let ghost goal = behind_names(src, n as nat, true);
    let mut left: usize = n;
    let mut i: usize = 0;
    proof {
        assert(src.skip(0) =~= src);
    }
    while i < pieces.len() && left > 0
        invariant
            i <= pieces@.len(),
            src == texts(pieces@),
            behind_names(src.skip(i as int), left as nat, i == 0) == goal,
        decreases pieces@.len() - i,
    {
        proof {
            lemma_skip_step(src, i as int);
            assert(src[i as int] == pieces@[i as int]@);
            assert(src.skip(i as int).drop_first() =~= src.skip(i + 1));
        }
        if is_name_piece(pieces[i].as_str(), i == 0) {
            left = left - 1;
        }
        i = i + 1;
    }
    proof {
        assert(src.skip(i as int) == goal);
    }
    while i < pieces.len() && !is_name_piece(pieces[i].as_str(), false)
        invariant
            i <= pieces@.len(),
            src == texts(pieces@),
            from_name(src.skip(i as int)) == from_name(goal),
        decreases pieces@.len() - i,
    {
        proof {
            lemma_skip_step(src, i as int);
            assert(src[i as int] == pieces@[i as int]@);
            assert(src.skip(i as int).drop_first() =~= src.skip(i + 1));
        }
        i = i + 1;
    }
    proof {
        if i < pieces.len() {
            assert(src.skip(i as int)[0] == pieces@[i as int]@);
        }
    }
    i
}

/// The pieces from an index on, up to the last name, as a path.
fn joined_pieces(pieces: &Vec<String>, from: usize) -> (r: String)
    requires
        from <= pieces@.len(),
    ensures
        r@ == join(up_to_name(texts(pieces@).skip(from as int)), "/"@),
{
    let ghost src = texts(pieces@);
    let ghost goal = up_to_name(src.skip(from as int));
    let mut to: usize = pieces.len();
    proof {
        assert(src.subrange(from as int, to as int) =~= src.skip(from as int));
    }
    while to > from && to - from > 1 && !is_name_piece(pieces[to - 1].as_str(), false)
        invariant
            from <= to <= pieces@.len(),
            src == texts(pieces@),
            up_to_name(src.subrange(from as int, to as int)) == goal,
        decreases to,
    {
        proof {
            let part = src.subrange(from as int, to as int);
            assert(part.last() == pieces@[to - 1]@);
            assert(part.drop_last() =~= src.subrange(from as int, to - 1));
        }
        to = to - 1;
    }
    let mut part: Vec<String> = Vec::new();
    let mut i: usize = from;
    proof {
        let w = src.subrange(from as int, to as int);
        if w.len() > 1 {
            assert(w.last() == pieces@[to - 1]@);
        }
        assert(w == goal);
        assert(texts(part@) =~= src.subrange(from as int, from as int));
    }
    while i < to
        invariant
            from <= i <= to <= pieces@.len(),
            src == texts(pieces@),
            texts(part@) == src.subrange(from as int, i as int),
        decreases to - i,
    {
        let piece = pieces[i].clone();
        proof {
            lemma_texts_push(part@, piece);
            assert(src[i as int] == pieces@[i as int]@);
            assert(src.subrange(from as int, i + 1) =~= src.subrange(from as int, i as int).push(
                src[i as int],
            ));
        }
        part.push(piece);
        i = i + 1;
    }
    join_strings(&part, "/")
}

/// A path below a directory, as seen from there.
pub fn path_below(path: &str, dir: &str) -> (r: Option<String>)
    ensures
        opt_text(r) == below(path@, dir@),
{
    let pieces = split_char(path, '/');
    let names = path_names_of(dir);
    proof {
        assert(texts(names@).len() == names@.len());
    }
    if is_rooted_path(path) != is_rooted_path(dir) {
        return None;
    }
    if !starts_with_names(&path_names_of(path), &names) {
        return None;
    }
    if names.len() == 0 && !is_rooted_path(dir) {
        proof {
            assert(texts(pieces@).skip(0) =~= texts(pieces@));
        }
        return Some(joined_pieces(&pieces, 0));
    }
    let from: usize = name_behind(&pieces, names.len());
    Some(joined_pieces(&pieces, from))
}

/// A path below a directory is seen from there as it was named.
pub proof fn law_below_keeps_name(dir: Seq<char>, name: Seq<char>)
    requires
        is_rooted(dir),
        name.len() > 0,
        name != "."@,
        !name.contains('/'),
    ensures
        below(dir + "/"@ + name, dir) == Some(name),
{
    reveal_strlit("/");
    let f = only('/');
    let d = split_on(dir, '/');
    lemma_split_by_len(dir, f);
    lemma_split_concat(dir, "/"@ + name, f);
    let path = dir + "/"@ + name;
    assert(path =~= dir + ("/"@ + name));
    let tail = d.last() + ("/"@ + name);
    lemma_split_concat(d.last() + "/"@, name, f);
    assert(tail =~= d.last() + "/"@ + name);
    lemma_last_piece(dir, f);
    lemma_split_none(d.last(), f);
    assert((d.last() + "/"@).drop_last() =~= d.last());
    assert(split_by(d.last() + "/"@, f) =~= seq![d.last(), Seq::empty()]);
    assert(Seq::<char>::empty() + name =~= name);
    assert forall|i: int| 0 <= i < name.len() implies !f(#[trigger] name[i]) by {
        assert(name.contains(name[i]));
    }
    lemma_split_none(name, f);
    let p = split_on(path, '/');
    assert(split_by(tail, f) =~= seq![d.last(), name]);
    assert(p =~= d.push(name));
    assert(p.drop_last() =~= d);
    let names = path_names(d);
    assert(path_names(p) == names.push(name));
    assert(names =~= names.push(name).subrange(0, names.len() as int));
    lemma_names_count(d);
    lemma_behind_all(d, name, true);
    assert(up_to_name(seq![name]) == seq![name]);
    assert(join(seq![name], "/"@) =~= name) by {
        assert(seq![name].drop_last() =~= Seq::<Seq<char>>::empty());
    }
}

proof fn lemma_last_piece(s: Seq<char>, f: spec_fn(char) -> bool)
    ensures
        forall|i: int| 0 <= i < split_by(s, f).last().len() ==> !f(#[trigger] split_by(s, f).last()[i]),
    decreases s.len(),
{
    if s.len() > 0 {
        lemma_last_piece(s.drop_last(), f);
        lemma_split_by_len(s.drop_last(), f);
        let before = split_by(s.drop_last(), f).last();
        let last = split_by(s, f).last();
        assert forall|i: int| 0 <= i < last.len() implies !f(#[trigger] last[i]) by {
            if i < before.len() {
                assert(last[i] == before[i]);
            }
        }
    } else {
        assert(split_by(s, f).last().len() == 0);
    }
}

/// How many names there are among pieces, given whether they are at the start of a path.
spec fn names_count(pieces: Seq<Seq<char>>, first: bool) -> nat
    decreases pieces.len(),
{
    if pieces.len() == 0 {
        0
    } else if is_name(pieces[0], first) {
        names_count(pieces.drop_first(), false) + 1
    } else {
        names_count(pieces.drop_first(), false)
    }
}

proof fn lemma_count_push(d: Seq<Seq<char>>, x: Seq<char>, first: bool)
    ensures
        names_count(d.push(x), first) == names_count(d, first) + if is_name(
            x,
            first && d.len() == 0,
        ) {
            1nat
        } else {
            0
        },
    decreases d.len(),
{
    if d.len() == 0 {
        assert(d.push(x).drop_first() =~= Seq::<Seq<char>>::empty());
        assert(names_count(Seq::<Seq<char>>::empty(), false) == 0);
        assert(d.push(x)[0] == x);
    } else {
        assert(d.push(x)[0] == d[0]);
        lemma_count_push(d.drop_first(), x, false);
        assert(d.push(x).drop_first() =~= d.drop_first().push(x));
    }
}

proof fn lemma_names_count(d: Seq<Seq<char>>)
    ensures
        path_names(d).len() == names_count(d, true),
    decreases d.len(),
{
    if d.len() > 0 {
        lemma_names_count(d.drop_last());
        lemma_count_push(d.drop_last(), d.last(), true);
        assert(d.drop_last().push(d.last()) =~= d);
    }
}

proof fn lemma_no_names(d: Seq<Seq<char>>, name: Seq<char>, first: bool)
    requires
        names_count(d, first) == 0,
        is_name(name, false),
    ensures
        from_name(d.push(name)) == seq![name],
    decreases d.len(),
{
    if d.len() == 0 {
        assert(d.push(name) =~= seq![name]);
    } else {
        lemma_no_names(d.drop_first(), name, false);
        assert(d.push(name).drop_first() =~= d.drop_first().push(name));
    }
}

/// Behind all the names of a directory, the next name is the one that was appended.
proof fn lemma_behind_all(d: Seq<Seq<char>>, name: Seq<char>, first: bool)
    requires
        is_name(name, false),
    ensures
        from_name(behind_names(d.push(name), names_count(d, first), first)) == seq![name],
    decreases d.len(),
{
    if names_count(d, first) == 0 {
        lemma_no_names(d, name, first);
    } else {
        lemma_behind_all(d.drop_first(), name, false);
        assert(d.push(name).drop_first() =~= d.drop_first().push(name));
    }
}

} // verus!
