//! What the operations on texts are for, each in other words than those that it is written in.

use crate::text::{
    ascii_lower, byte_prefix, bytes_len, char_bytes, contains_text, decimal, digit_char,
    find_text, is_blank, is_space, join, lemma_find_from, lemma_split_by_len,
    lemma_split_concat, lemma_split_none, lines, matches_at, non_empty, only, repeat, replaced,
    replaced_from, split_by, split_on, split_once_spec, trimmed, trimmed_end, trimmed_start,
    without_cr, words,
};
use vstd::prelude::*;

verus! {

/// Whether a text holds nothing but white space.
pub open spec fn all_space(s: Seq<char>) -> bool {
    forall|i: int| 0 <= i < s.len() ==> is_space(#[trigger] s[i])
}

/// What is white space: the ASCII blanks and line ends, and some blanks of other scripts; no
/// letter, digit or other visible ASCII character is.
pub proof fn law_white_space(c: char)
    ensures
        is_space(' ') && is_space('\t') && is_space('\n') && is_space('\r'),
        '!' <= c && c <= '~' ==> !is_space(c),
{
}

proof fn lemma_trimmed_start(s: Seq<char>)
    ensures
        ({
            let t = trimmed_start(s);
            &&& t.len() <= s.len()
            &&& t == s.skip(s.len() - t.len())
            &&& all_space(s.take(s.len() - t.len()))
            &&& t.len() > 0 ==> !is_space(t[0])
        }),
    decreases s.len(),
{
    if s.len() > 0 && is_space(s[0]) {
        let r = s.drop_first();
        lemma_trimmed_start(r);
        let t = trimmed_start(s);
        let n = s.len() - t.len();
        assert(s.skip(n) =~= r.skip(n - 1));
        assert forall|i: int| 0 <= i < n implies is_space(#[trigger] s.take(n)[i]) by {
            if i > 0 {
                assert(r.take(n - 1)[i - 1] == s[i]);
            }
        }
    } else {
        assert(s.skip(0) =~= s);
    }
}

proof fn lemma_trimmed_end(s: Seq<char>)
    ensures
        ({
            let t = trimmed_end(s);
            &&& t.len() <= s.len()
            &&& t == s.take(t.len() as int)
            &&& all_space(s.skip(t.len() as int))
            &&& t.len() > 0 ==> !is_space(t.last())
        }),
    decreases s.len(),
{
    if s.len() > 0 && is_space(s.last()) {
        let r = s.drop_last();
        lemma_trimmed_end(r);
        let t = trimmed_end(s);
        let n = t.len() as int;
        assert(s.take(n) =~= r.take(n));
        assert forall|i: int| 0 <= i < s.len() - n implies is_space(#[trigger] s.skip(n)[i]) by {
            if i < r.len() - n {
                assert(r.skip(n)[i] == s[n + i]);
            }
        }
    } else {
        assert(s.take(s.len() as int) =~= s);
    }
}

/// Trimming takes white space off the two ends of a text, all of it, and nothing else.
pub proof fn law_trimming_takes_space_only(s: Seq<char>)
    ensures
        exists|a: Seq<char>, b: Seq<char>|
            all_space(a) && all_space(b) && s == #[trigger] (a + trimmed(s) + b),
        trimmed(s).len() > 0 ==> !is_space(trimmed(s)[0]) && !is_space(trimmed(s).last()),
        is_blank(s) == all_space(s),
{
    lemma_trimmed_start(s);
    let m = trimmed_start(s);
    lemma_trimmed_end(m);
    let t = trimmed(s);
    let a = s.take(s.len() - m.len());
    let b = m.skip(t.len() as int);
    assert(s =~= a + t + b);
    assert(all_space(a) && all_space(b));
    if all_space(s) && t.len() > 0 {
        assert(s[s.len() - m.len()] == m[0]);
    }
    if t.len() == 0 {
        assert forall|i: int| 0 <= i < s.len() implies is_space(#[trigger] s[i]) by {
            if i < a.len() {
                assert(a[i] == s[i]);
            } else {
                assert(b[i - a.len()] == s[i]);
            }
        }
    }
}

/// Joining the pieces of a text with the character it was split at gives the text, and no piece
/// holds that character.
pub proof fn law_split_pieces_join(s: Seq<char>, c: char)
    ensures
        join(split_on(s, c), seq![c]) == s,
        split_on(s, c).len() >= 1,
        forall|i: int| 0 <= i < split_on(s, c).len() ==> !(#[trigger] split_on(s, c)[i]).contains(c),
    decreases s.len(),
{
    let v = split_on(s, c);
    if s.len() == 0 {
        assert(v =~= seq![Seq::<char>::empty()]);
        assert(join(v, seq![c]) =~= s);
    } else {
        let r = s.drop_last();
        let w = split_on(r, c);
        law_split_pieces_join(r, c);
        if s.last() == c {
            assert(v == w.push(Seq::empty()));
            assert(v.drop_last() =~= w);
            assert(join(v, seq![c]) =~= r.push(c));
            assert(r.push(c) =~= s);
        } else {
            assert(v == w.drop_last().push(w.last().push(s.last())));
            assert(v.drop_last() =~= w.drop_last());
            if w.len() == 1 {
                assert(join(w, seq![c]) == w[0]);
                assert(join(v, seq![c]) == v[0]);
                assert(v[0] =~= s);
            } else {
                assert(join(v, seq![c]) =~= join(w, seq![c]).push(s.last()));
                assert(r.push(s.last()) =~= s);
            }
            assert forall|i: int| 0 <= i < v.len() implies !(#[trigger] v[i]).contains(c) by {
                if i < w.len() - 1 {
                    assert(v[i] == w[i]);
                } else if v[i].contains(c) {
                    let k = choose|k: int| 0 <= k < v[i].len() && v[i][k] == c;
                    assert(!w[w.len() - 1].contains(c));
                    if k < w.last().len() {
                        assert(w.last()[k] == c);
                    }
                }
            }
        }
    }
}

/// Splitting what was joined gives the parts back, where no part holds the separator.
pub proof fn law_joined_parts_split(v: Seq<Seq<char>>, c: char)
    requires
        v.len() >= 1,
        forall|i: int| 0 <= i < v.len() ==> !(#[trigger] v[i]).contains(c),
    ensures
        split_on(join(v, seq![c]), c) == v,
    decreases v.len(),
{
    let f = only(c);
    let last = v.last();
    assert(!v[v.len() - 1].contains(c));
    assert forall|i: int| 0 <= i < last.len() implies !f(#[trigger] last[i]) by {
        assert(last.contains(last[i]));
    }
    lemma_split_none(last, f);
    if v.len() == 1 {
        assert(v =~= seq![last]);
    } else {
        let w = v.drop_last();
        assert forall|i: int| 0 <= i < w.len() implies !(#[trigger] w[i]).contains(c) by {
            assert(w[i] == v[i]);
        }
        law_joined_parts_split(w, c);
        let x = join(w, seq![c]);
        let y = x + seq![c];
        assert(y.drop_last() =~= x);
        assert(split_by(y, f) == w.push(Seq::empty()));
        lemma_split_concat(y, last, f);
        assert(w.push(Seq::<char>::empty()).drop_last() =~= w);
        assert(Seq::<char>::empty() + last =~= last);
        assert(join(v, seq![c]) =~= y + last);
        assert(w + seq![last] =~= v);
    }
}

/// The lines of a text without carriage returns are what stands between its newlines; a newline
/// at the end starts no line.
pub proof fn law_lines_join(s: Seq<char>)
    requires
        !s.contains('\r'),
    ensures
        s.len() == 0 ==> lines(s).len() == 0,
        s.len() > 0 && s.last() != '\n' ==> join(lines(s), seq!['\n']) == s,
        s.len() > 0 && s.last() == '\n' ==> join(lines(s), seq!['\n']) + seq!['\n'] == s,
        forall|i: int| 0 <= i < lines(s).len() ==> !(#[trigger] lines(s)[i]).contains('\n'),
{
    let p = split_on(s, '\n');
    law_split_pieces_join(s, '\n');
    let ended = p.drop_last().map_values(|x: Seq<char>| without_cr(x));
    assert forall|i: int| 0 <= i < ended.len() implies ended[i] == p[i] by {
        if p[i].len() > 0 && p[i].last() == '\r' {
            lemma_piece_within(s, '\n', i);
            assert(p[i].contains('\r'));
        }
    }
    assert(ended =~= p.drop_last());
    if p.last().len() > 0 {
        assert(ended.push(p.last()) =~= p);
        if s.len() > 0 && s.last() == '\n' {
            assert(p.last().len() == 0);
        }
    } else {
        assert(p.last() =~= Seq::<char>::empty());
        if p.len() == 1 {
            assert(join(p, seq!['\n']) == p[0]);
        } else {
            assert(join(p, seq!['\n']) =~= join(ended, seq!['\n']) + seq!['\n']);
        }
    }
    assert forall|i: int| 0 <= i < lines(s).len() implies !(#[trigger] lines(s)[i]).contains(
        '\n',
    ) by {
        assert(lines(s)[i] == p[i]);
    }
}

/// What stands in a piece stands in the text.
proof fn lemma_piece_within(s: Seq<char>, c: char, i: int)
    requires
        0 <= i < split_on(s, c).len(),
    ensures
        forall|x: char| #[trigger] split_on(s, c)[i].contains(x) ==> s.contains(x),
    decreases s.len(),
{
    if s.len() == 0 {
        assert(split_on(s, c)[i].len() == 0);
    } else {
        let r = s.drop_last();
        let w = split_on(r, c);
        let v = split_on(s, c);
        lemma_split_by_len(r, only(c));
        assert forall|x: char| #[trigger] v[i].contains(x) implies s.contains(x) by {
            let k = choose|k: int| 0 <= k < v[i].len() && v[i][k] == x;
            if i < w.len() - 1 || (i < w.len() && k < w[i].len()) {
                lemma_piece_within(r, c, i);
                assert(w[i][k] == x);
                assert(w[i].contains(x));
                let m = choose|m: int| 0 <= m < r.len() && r[m] == x;
                assert(s[m] == x);
            } else {
                assert(x == s.last());
                assert(s[s.len() - 1] == x);
            }
        }
    }
}

/// No line of a text holds a newline, and what a line holds the text holds.
pub proof fn law_lines_are_of_the_text(s: Seq<char>)
    ensures
        forall|i: int| 0 <= i < lines(s).len() ==> !(#[trigger] lines(s)[i]).contains('\n'),
        forall|i: int, c: char|
            0 <= i < lines(s).len() && #[trigger] lines(s)[i].contains(c) ==> s.contains(c),
{
    let p = split_on(s, '\n');
    law_split_pieces_join(s, '\n');
    assert forall|i: int| 0 <= i < lines(s).len() implies !(#[trigger] lines(s)[i]).contains(
        '\n',
    ) by {
        assert(!p[i].contains('\n'));
        let x = lines(s)[i];
        if x.contains('\n') {
            let k = choose|k: int| 0 <= k < x.len() && x[k] == '\n';
            assert(p[i][k] == '\n');
        }
    }
    assert forall|i: int, c: char|
        0 <= i < lines(s).len() && #[trigger] lines(s)[i].contains(c) implies s.contains(c) by {
        lemma_piece_within(s, '\n', i);
        let x = lines(s)[i];
        let k = choose|k: int| 0 <= k < x.len() && x[k] == c;
        assert(p[i][k] == c);
        assert(p[i].contains(c));
    }
}

/// Where a line ends with a carriage return and a newline, both are taken off.
pub proof fn law_carriage_returns_end_lines(line: Seq<char>)
    requires
        !line.contains('\n'),
        line.len() == 0 || line.last() != '\r',
    ensures
        lines(line + seq!['\r', '\n']) == seq![line],
        lines(line + seq!['\n']) == seq![line],
{
    let f = only('\n');
    let a = line.push('\r');
    assert forall|i: int| 0 <= i < a.len() implies !f(#[trigger] a[i]) by {
        if i < line.len() {
            assert(line.contains(a[i]));
        }
    }
    lemma_split_none(a, f);
    let s = line + seq!['\r', '\n'];
    assert(s.drop_last() =~= a);
    assert(split_by(s, f) == seq![a].push(Seq::empty()));
    assert(a.drop_last() =~= line);
    assert(lines(s) =~= seq![line]);
    assert forall|i: int| 0 <= i < line.len() implies !f(#[trigger] line[i]) by {
        assert(line.contains(line[i]));
    }
    lemma_split_none(line, f);
    let t = line + seq!['\n'];
    assert(t.drop_last() =~= line);
    assert(split_by(t, f) == seq![line].push(Seq::empty()));
    assert(lines(t) =~= seq![line]);
}

/// Lower case concerns the capital letters of ASCII and nothing else.
pub proof fn law_lower_case(s: Seq<char>, i: int)
    requires
        0 <= i < s.len(),
    ensures
        ascii_lower(s).len() == s.len(),
        !('A' <= s[i] && s[i] <= 'Z') ==> ascii_lower(s)[i] == s[i],
        'A' <= s[i] && s[i] <= 'Z' ==> ascii_lower(s)[i] as u32 == s[i] as u32 + 32,
{
}

/// A number in decimal is its digits, the highest first.
pub proof fn law_decimal_digits(n: nat, d: nat)
    requires
        d < 10,
    ensures
        decimal(d) == seq![digit_char(d)],
        n > 0 ==> decimal(n * 10 + d) == decimal(n).push(digit_char(d)),
        digit_char(d) as u32 == 48 + d,
{
    assert((n * 10 + d) / 10 == n && (n * 10 + d) % 10 == d) by (nonlinear_arith)
        requires
            d < 10,
    ;
}

/// A cut to a number of bytes keeps the start of a text, as much of it as fits.
pub proof fn law_byte_cut_keeps_most(s: Seq<char>, max: nat, k: int)
    requires
        0 <= k <= s.len(),
    ensures
        byte_prefix(s, max).len() <= s.len(),
        byte_prefix(s, max) == s.take(byte_prefix(s, max).len() as int),
        bytes_len(byte_prefix(s, max)) <= max,
        bytes_len(s.take(k)) <= max ==> k <= byte_prefix(s, max).len(),
    decreases s.len(),
{
    assert(s.take(s.len() as int) =~= s);
    if bytes_len(s) > max && s.len() > 0 {
        let r = s.drop_last();
        if k < s.len() {
            law_byte_cut_keeps_most(r, max, k);
            assert(r.take(k) =~= s.take(k));
        } else {
            law_byte_cut_keeps_most(r, max, 0);
        }
        let n = byte_prefix(s, max).len() as int;
        assert(r.take(n) =~= s.take(n));
    }
}

/// How many bytes a character takes in UTF-8, and a text with it.
pub proof fn law_bytes_are_counted(s: Seq<char>, c: char)
    ensures
        bytes_len(s.push(c)) == bytes_len(s) + char_bytes(c),
        bytes_len(Seq::empty()) == 0,
        c <= '\x7f' ==> char_bytes(c) == 1,
        c > '\x7f' ==> char_bytes(c) > 1,
{
    assert(s.push(c).drop_last() =~= s);
}

/// A repeated text is that text over and over: one character repeated is so many of it, and once
/// more can be put in front as well as behind.
pub proof fn law_repeated_text(s: Seq<char>, n: nat, i: int)
    ensures
        repeat(s, 0).len() == 0,
        repeat(s, n + 1) == s + repeat(s, n),
        repeat(s, n + 1) == repeat(s, n) + s,
        s.len() == 1 ==> repeat(s, n).len() == n,
        s.len() == 1 && 0 <= i < n ==> repeat(s, n)[i] == s[0],
    decreases n,
{
    if n > 0 {
        let m = (n - 1) as nat;
        law_repeated_text(s, m, i);
        assert(s + repeat(s, m) + s =~= s + (repeat(s, m) + s));
    } else {
        assert(repeat(s, 0) =~= Seq::<char>::empty());
        assert(repeat(s, 1) == repeat(s, 0) + s);
        assert(repeat(s, 1) =~= s);
        assert(s + repeat(s, 0) =~= s);
    }
}

proof fn lemma_non_empty(v: Seq<Seq<char>>)
    ensures
        forall|i: int| 0 <= i < non_empty(v).len() ==> (#[trigger] non_empty(v)[i]).len() > 0,
        forall|i: int| 0 <= i < non_empty(v).len() ==> v.contains(#[trigger] non_empty(v)[i]),
        forall|i: int| 0 <= i < v.len() && v[i].len() > 0 ==> non_empty(v).contains(#[trigger] v[i]),
    decreases v.len(),
{
    if v.len() > 0 {
        let w = v.drop_last();
        lemma_non_empty(w);
        let a = non_empty(w);
        let b = non_empty(v);
        assert forall|i: int| 0 <= i < b.len() implies v.contains(#[trigger] b[i]) by {
            if i < a.len() {
                assert(w.contains(a[i]));
                let k = choose|k: int| 0 <= k < w.len() && w[k] == a[i];
                assert(v[k] == a[i]);
            } else {
                assert(v[v.len() - 1] == b[i]);
            }
        }
        assert forall|i: int| 0 <= i < v.len() && v[i].len() > 0 implies b.contains(
            #[trigger] v[i],
        ) by {
            if i < w.len() {
                assert(a.contains(w[i]));
                let k = choose|k: int| 0 <= k < a.len() && a[k] == w[i];
                assert(b[k] == w[i]);
            } else {
                assert(b[b.len() - 1] == v[i]);
            }
        }
    }
}

/// The words of a text are what stands between white space: none is empty, none holds any, and
/// every piece between white space that is not empty is one of them.
pub proof fn law_words_hold_no_space(s: Seq<char>)
    ensures
        forall|i: int| 0 <= i < words(s).len() ==> (#[trigger] words(s)[i]).len() > 0,
{
    lemma_non_empty(split_by(s, |c: char| is_space(c)));
}

/// Replacing puts a text in the place of another one, wherever that stands, and changes nothing
/// else.
pub proof fn law_replacing_is_local(s: Seq<char>, p: Seq<char>, to: Seq<char>, at: int)
    requires
        p.len() > 0,
        0 <= at,
        at + p.len() <= s.len(),
        s.subrange(at, at + p.len()) == p,
        forall|j: int| 0 <= j < at ==> !matches_at(s, p, j),
    ensures
        replaced(s, p, to) == s.take(at) + to + replaced(s.skip(at + p.len()), p, to),
{
    lemma_replace_before(s, p, to, 0, at);
    lemma_replaced_shift(s, p, to, at + p.len(), 0);
    assert(s.subrange(0, at) =~= s.take(at));
}

proof fn lemma_replace_before(s: Seq<char>, p: Seq<char>, to: Seq<char>, i: int, at: int)
    requires
        p.len() > 0,
        0 <= i <= at,
        matches_at(s, p, at),
        forall|j: int| i <= j < at ==> !matches_at(s, p, j),
    ensures
        replaced_from(s, p, to, i) == s.subrange(i, at) + to + replaced_from(s, p, to, at + p.len()),
    decreases at - i,
{
    let rest = replaced_from(s, p, to, at + p.len());
    if i == at {
        assert(s.subrange(i, at) =~= Seq::<char>::empty());
        assert(Seq::<char>::empty() + to + rest =~= to + rest);
    } else {
        lemma_replace_before(s, p, to, i + 1, at);
        assert(seq![s[i]] + (s.subrange(i + 1, at) + to + rest) =~= s.subrange(i, at) + to + rest);
    }
}

proof fn lemma_replaced_shift(s: Seq<char>, p: Seq<char>, to: Seq<char>, d: int, i: int)
    requires
        0 <= d <= s.len(),
        0 <= i,
        p.len() > 0,
    ensures
        replaced_from(s, p, to, d + i) == replaced_from(s.skip(d), p, to, i),
    decreases s.len() - d - i,
{
    let t = s.skip(d);
    if i < t.len() {
        if i + p.len() <= t.len() {
            assert(t.subrange(i, i + p.len()) =~= s.subrange(d + i, d + i + p.len()));
        }
        assert(matches_at(t, p, i) == matches_at(s, p, d + i));
        if matches_at(t, p, i) {
            lemma_replaced_shift(s, p, to, d, i + p.len());
        } else {
            lemma_replaced_shift(s, p, to, d, i + 1);
        }
    }
}

/// A text in which another one does not stand is left as it is by replacing that.
pub proof fn law_nothing_to_replace(s: Seq<char>, p: Seq<char>, to: Seq<char>)
    requires
        !contains_text(s, p),
    ensures
        replaced(s, p, to) == s,
{
    lemma_find_from(s, p, 0);
    lemma_nothing_replaced(s, p, to, 0);
    assert(s.skip(0) =~= s);
}

proof fn lemma_nothing_replaced(s: Seq<char>, p: Seq<char>, to: Seq<char>, i: int)
    requires
        0 <= i <= s.len(),
        forall|j: int| 0 <= j ==> !matches_at(s, p, j),
    ensures
        replaced_from(s, p, to, i) == s.skip(i),
    decreases s.len() - i,
{
    if i < s.len() {
        lemma_nothing_replaced(s, p, to, i + 1);
        assert(!matches_at(s, p, i));
        assert(seq![s[i]] + s.skip(i + 1) =~= s.skip(i));
    } else {
        assert(s.skip(i) =~= Seq::<char>::empty());
    }
}

/// What comes before and behind a text in another one, with that text between them, is that other
/// one; and the text does not stand any earlier.
pub proof fn law_split_once_is_first(s: Seq<char>, p: Seq<char>)
    ensures
        match split_once_spec(s, p) {
            Some((a, b)) => s == a + p + b && (forall|j: int|
                0 <= j < a.len() ==> !matches_at(s, p, j)),
            None => forall|j: int| 0 <= j ==> !matches_at(s, p, j),
        },
{
    lemma_find_from(s, p, 0);
    if let Some((a, b)) = split_once_spec(s, p) {
        let i = find_text(s, p)->Some_0;
        assert(s.subrange(i, i + p.len()) == p);
        assert(s =~= a + p + b);
    }
}

} // verus!
