//! Line diffs: finding, writing, reading and showing them.

use crate::ansi::{DIM, GREEN, RED, RESET, painted};
use crate::error::{AppError, AppResult, EXIT_ARGS, Failure, failure};
use crate::render::pad_len;
use crate::stream::sat_add;
use crate::text::{
    before_at, byte_len, bytes_len, chars_of, decimal, decimal_string, decimal_wide, join,
    join_strings, lemma_bytes_len_ge, lemma_bytes_len_prefix, lemma_head, lemma_skip_step,
    lemma_split_by_len, lemma_take_full, lemma_take_step, lemma_texts_push, lines, lines_of,
    number_of, on_boundary, only, parse_number, preview, preview_string, repeat, repeat_str,
    split_on, split_once, split_once_spec, starts_with, starts_with_spec, str_eq, substring,
    take_bytes, texts, words, words_of,
};
use vstd::prelude::*;

verus! {

#[derive(Debug, Clone, Copy, PartialEq, Eq, Structural)]
pub enum DiffLineKind {
    Context,
    Add,
    Remove,
}

#[derive(Debug)]
pub struct DiffLine {
    pub kind: DiffLineKind,
    pub content: String,
}

pub open spec fn diff_views(v: Seq<DiffLine>) -> Seq<(DiffLineKind, Seq<char>)> {
    v.map_values(|d: DiffLine| (d.kind, d.content@))
}

pub proof fn lemma_diff_push(v: Seq<DiffLine>, d: DiffLine)
    ensures
        diff_views(v.push(d)) == diff_views(v).push((d.kind, d.content@)),
{
    assert(diff_views(v.push(d)) =~= diff_views(v).push((d.kind, d.content@)));
}

// ---------------------------------------------------------------------------
// Finding a diff
// ---------------------------------------------------------------------------

/// The length of the longest common subsequence of two texts from given lines on.
pub open spec fn lcs(a: Seq<Seq<char>>, b: Seq<Seq<char>>, i: int, j: int) -> nat
    decreases a.len() - i + b.len() - j,
{
    if i < 0 || j < 0 || i >= a.len() || j >= b.len() {
        0
    } else if a[i] == b[j] {
        lcs(a, b, i + 1, j + 1) + 1
    } else if lcs(a, b, i + 1, j) >= lcs(a, b, i, j + 1) {
        lcs(a, b, i + 1, j)
    } else {
        lcs(a, b, i, j + 1)
    }
}

/// The diff of two texts from given lines on: equal lines are kept, and otherwise a line is
/// removed where that loses nothing, else one is added.
pub open spec fn diff_from(a: Seq<Seq<char>>, b: Seq<Seq<char>>, i: int, j: int) -> Seq<
    (DiffLineKind, Seq<char>),
>
    decreases
            (if i < a.len() {
                a.len() - i
            } else {
                0
            }) + (if j < b.len() {
                b.len() - j
            } else {
                0
            }),
{
    if i < 0 || j < 0 || (i >= a.len() && j >= b.len()) {
        Seq::empty()
    } else if i >= a.len() {
        seq![(DiffLineKind::Add, b[j])] + diff_from(a, b, i, j + 1)
    } else if j >= b.len() {
        seq![(DiffLineKind::Remove, a[i])] + diff_from(a, b, i + 1, j)
    } else if a[i] == b[j] {
        seq![(DiffLineKind::Context, a[i])] + diff_from(a, b, i + 1, j + 1)
    } else if lcs(a, b, i + 1, j) >= lcs(a, b, i, j + 1) {
        seq![(DiffLineKind::Remove, a[i])] + diff_from(a, b, i + 1, j)
    } else {
        seq![(DiffLineKind::Add, b[j])] + diff_from(a, b, i, j + 1)
    }
}

proof fn lemma_lcs_bound(a: Seq<Seq<char>>, b: Seq<Seq<char>>, i: int, j: int)
    requires
        0 <= i <= a.len(),
        0 <= j <= b.len(),
    ensures
        lcs(a, b, i, j) <= a.len() - i,
        lcs(a, b, i, j) <= b.len() - j,
    decreases a.len() - i + b.len() - j,
{
    if i < a.len() && j < b.len() {
        lemma_lcs_bound(a, b, i + 1, j + 1);
        lemma_lcs_bound(a, b, i + 1, j);
        lemma_lcs_bound(a, b, i, j + 1);
    }
}

/// Whether a row holds the common lengths from line `i` of the old text on.
spec fn row_holds(row: Seq<usize>, a: Seq<Seq<char>>, b: Seq<Seq<char>>, i: int) -> bool {
    row.len() == b.len() + 1 && forall|j: int|
        0 <= j < row.len() ==> #[trigger] row[j] == lcs(a, b, i, j)
}

/// Whether a table holds the common lengths, its rows from the end of the old text on.
spec fn table_holds(t: Seq<Vec<usize>>, a: Seq<Seq<char>>, b: Seq<Seq<char>>) -> bool {
    forall|k: int| 0 <= k < t.len() ==> row_holds((#[trigger] t[k])@, a, b, a.len() - k)
}

/// One row of the table of common lengths, from the row below it.
fn lcs_row(old_lines: &Vec<String>, new_lines: &Vec<String>, i: usize, below: &Vec<usize>) -> (row:
    Vec<usize>)
    requires
        i < old_lines@.len(),
        row_holds(below@, texts(old_lines@), texts(new_lines@), i + 1),
    ensures
        row_holds(row@, texts(old_lines@), texts(new_lines@), i as int),
{
    let ghost a = texts(old_lines@);
    let ghost b = texts(new_lines@);
    let n: usize = new_lines.len();
    let m: usize = old_lines.len();
    let mut row: Vec<usize> = Vec::new();
    let mut k: usize = 0;
    while k < below.len()
        invariant
            k <= below@.len(),
            row@.len() == k,
            forall|j: int| 0 <= j < k ==> row@[j] == 0,
        decreases below@.len() - k,
    {
        row.push(0);
        k = k + 1;
    }
    let mut j: usize = n;
    while j > 0
        invariant
            j <= n,
            n == new_lines@.len(),
            m == old_lines@.len(),
            i < m,
            a == texts(old_lines@),
            b == texts(new_lines@),
            row@.len() == n + 1,
            row_holds(below@, a, b, i + 1),
            forall|x: int| j <= x <= n ==> #[trigger] row@[x] == lcs(a, b, i as int, x),
        decreases j,
    {
        j = j - 1;
        proof {
            lemma_lcs_bound(a, b, i + 1, j + 1);
            assert(below@[j + 1] == lcs(a, b, i + 1, j + 1));
            assert(below@[j as int] == lcs(a, b, i + 1, j as int));
            assert(row@[j + 1] == lcs(a, b, i as int, j + 1));
        }
        let value: usize = if str_eq(old_lines[i].as_str(), new_lines[j].as_str()) {
            below[j + 1] + 1
        } else if below[j] >= row[j + 1] {
            below[j]
        } else {
            row[j + 1]
        };
        row.set(j, value);
    }
    row
}

/// The table of common lengths, last row first.
fn lcs_table(old_lines: &Vec<String>, new_lines: &Vec<String>) -> (t: Vec<Vec<usize>>)
    ensures
        t@.len() == old_lines@.len() + 1,
        table_holds(t@, texts(old_lines@), texts(new_lines@)),
{
    let ghost a = texts(old_lines@);
    let ghost b = texts(new_lines@);
    let m: usize = old_lines.len();
    let n: usize = new_lines.len();
    let mut last: Vec<usize> = Vec::new();
    let mut k: usize = 0;
    while k < n
        invariant
            k <= n,
            n == new_lines@.len(),
            last@.len() == k,
            forall|j: int| 0 <= j < k ==> last@[j] == 0,
        decreases n - k,
    {
        last.push(0);
        k = k + 1;
    }
    last.push(0);
    let mut t: Vec<Vec<usize>> = Vec::new();
    t.push(last);
    let mut i: usize = m;
    while i > 0
        invariant
            i <= m,
            m == old_lines@.len(),
            a == texts(old_lines@),
            b == texts(new_lines@),
            t@.len() == m - i + 1,
            table_holds(t@, a, b),
        decreases i,
    {
        i = i - 1;
        proof {
            assert(row_holds(t@[m - i - 1]@, a, b, i + 1));
        }
        let row = lcs_row(old_lines, new_lines, i, &t[m - i - 1]);
        t.push(row);
    }
    t
}

fn push_line(out: &mut Vec<DiffLine>, kind: DiffLineKind, content: &String)
    ensures
        diff_views(final(out)@) == diff_views(old(out)@).push((kind, content@)),
{
    let d = DiffLine { kind, content: content.clone() };
    proof {
        lemma_diff_push(out@, d);
    }
    out.push(d);
}

proof fn lemma_push_front<T>(s: Seq<T>, x: T, rest: Seq<T>)
    ensures
        s + (seq![x] + rest) == s.push(x) + rest,
{
    assert(s + (seq![x] + rest) =~= s.push(x) + rest);
}

/// The diff of two texts, line by line.
pub fn diff_line_sequences(old_lines: &Vec<String>, new_lines: &Vec<String>) -> (r: Vec<DiffLine>)
    ensures
        diff_views(r@) == diff_from(texts(old_lines@), texts(new_lines@), 0, 0),
{
    let ghost a = texts(old_lines@);
    let ghost b = texts(new_lines@);
    let ghost goal = diff_from(a, b, 0, 0);
    let t = lcs_table(old_lines, new_lines);
    let m: usize = old_lines.len();
    let n: usize = new_lines.len();
    let mut out: Vec<DiffLine> = Vec::new();
    let mut i: usize = 0;
    let mut j: usize = 0;
    proof {
        assert(diff_views(out@) + goal =~= goal);
    }
    while i < m || j < n
        invariant
            i <= m,
            j <= n,
            m == old_lines@.len(),
            n == new_lines@.len(),
            a == texts(old_lines@),
            b == texts(new_lines@),
            t@.len() == m + 1,
            table_holds(t@, a, b),
            diff_views(out@) + diff_from(a, b, i as int, j as int) == goal,
        decreases m - i + n - j,
    {
        let ghost before = diff_views(out@);
        if i >= m {
            push_line(&mut out, DiffLineKind::Add, &new_lines[j]);
            j = j + 1;
            proof {
                lemma_push_front(
                    before,
                    (DiffLineKind::Add, b[j - 1]),
                    diff_from(a, b, i as int, j as int),
                );
            }
        } else if j >= n {
            push_line(&mut out, DiffLineKind::Remove, &old_lines[i]);
            i = i + 1;
            proof {
                lemma_push_front(
                    before,
                    (DiffLineKind::Remove, a[i - 1]),
                    diff_from(a, b, i as int, j as int),
                );
            }
        } else if str_eq(old_lines[i].as_str(), new_lines[j].as_str()) {
            push_line(&mut out, DiffLineKind::Context, &old_lines[i]);
            i = i + 1;
            j = j + 1;
            proof {
                lemma_push_front(
                    before,
                    (DiffLineKind::Context, a[i - 1]),
                    diff_from(a, b, i as int, j as int),
                );
            }
        } else {
            proof {
                assert(row_holds(t@[m - i - 1]@, a, b, i + 1));
                assert(row_holds(t@[m - i]@, a, b, i as int));
            }
            if t[m - i - 1][j] >= t[m - i][j + 1] {
                push_line(&mut out, DiffLineKind::Remove, &old_lines[i]);
                i = i + 1;
                proof {
                    lemma_push_front(
                        before,
                        (DiffLineKind::Remove, a[i - 1]),
                        diff_from(a, b, i as int, j as int),
                    );
                }
            } else {
                push_line(&mut out, DiffLineKind::Add, &new_lines[j]);
                j = j + 1;
                proof {
                    lemma_push_front(
                        before,
                        (DiffLineKind::Add, b[j - 1]),
                        diff_from(a, b, i as int, j as int),
                    );
                }
            }
        }
    }
    proof {
        assert(diff_views(out@) + Seq::<(DiffLineKind, Seq<char>)>::empty() =~= diff_views(out@));
    }
    out
}

/// The lines that a diff keeps or removes.
pub open spec fn old_side(d: Seq<(DiffLineKind, Seq<char>)>) -> Seq<Seq<char>>
    decreases d.len(),
{
    if d.len() == 0 {
        Seq::empty()
    } else if d[0].0 == DiffLineKind::Add {
        old_side(d.drop_first())
    } else {
        seq![d[0].1] + old_side(d.drop_first())
    }
}

/// The lines that a diff keeps or adds.
pub open spec fn new_side(d: Seq<(DiffLineKind, Seq<char>)>) -> Seq<Seq<char>>
    decreases d.len(),
{
    if d.len() == 0 {
        Seq::empty()
    } else if d[0].0 == DiffLineKind::Remove {
        new_side(d.drop_first())
    } else {
        seq![d[0].1] + new_side(d.drop_first())
    }
}

/// How many lines a diff keeps.
pub open spec fn kept(d: Seq<(DiffLineKind, Seq<char>)>) -> nat
    decreases d.len(),
{
    if d.len() == 0 {
        0
    } else if d[0].0 == DiffLineKind::Context {
        kept(d.drop_first()) + 1
    } else {
        kept(d.drop_first())
    }
}

proof fn lemma_sides_front(x: (DiffLineKind, Seq<char>), d: Seq<(DiffLineKind, Seq<char>)>)
    ensures
        old_side(seq![x] + d) == if x.0 == DiffLineKind::Add {
            old_side(d)
        } else {
            seq![x.1] + old_side(d)
        },
        new_side(seq![x] + d) == if x.0 == DiffLineKind::Remove {
            new_side(d)
        } else {
            seq![x.1] + new_side(d)
        },
        kept(seq![x] + d) == if x.0 == DiffLineKind::Context {
            kept(d) + 1
        } else {
            kept(d)
        },
{
    assert((seq![x] + d).drop_first() =~= d);
}

proof fn lemma_skip_front<T>(s: Seq<T>, i: int)
    requires
        0 <= i < s.len(),
    ensures
        s.skip(i) == seq![s[i]] + s.skip(i + 1),
{
    assert(s.skip(i) =~= seq![s[i]] + s.skip(i + 1));
}

proof fn lemma_diff_sides(a: Seq<Seq<char>>, b: Seq<Seq<char>>, i: int, j: int)
    requires
        0 <= i <= a.len(),
        0 <= j <= b.len(),
    ensures
        old_side(diff_from(a, b, i, j)) == a.skip(i),
        new_side(diff_from(a, b, i, j)) == b.skip(j),
        kept(diff_from(a, b, i, j)) == lcs(a, b, i, j),
    decreases a.len() - i + b.len() - j,
{
    if i >= a.len() && j >= b.len() {
        assert(a.skip(i) =~= Seq::<Seq<char>>::empty());
        assert(b.skip(j) =~= Seq::<Seq<char>>::empty());
    } else if i >= a.len() {
        lemma_diff_sides(a, b, i, j + 1);
        lemma_sides_front((DiffLineKind::Add, b[j]), diff_from(a, b, i, j + 1));
        lemma_skip_front(b, j);
    } else if j >= b.len() {
        lemma_diff_sides(a, b, i + 1, j);
        lemma_sides_front((DiffLineKind::Remove, a[i]), diff_from(a, b, i + 1, j));
        lemma_skip_front(a, i);
    } else if a[i] == b[j] {
        lemma_diff_sides(a, b, i + 1, j + 1);
        lemma_sides_front((DiffLineKind::Context, a[i]), diff_from(a, b, i + 1, j + 1));
        lemma_skip_front(a, i);
        lemma_skip_front(b, j);
    } else if lcs(a, b, i + 1, j) >= lcs(a, b, i, j + 1) {
        lemma_diff_sides(a, b, i + 1, j);
        lemma_sides_front((DiffLineKind::Remove, a[i]), diff_from(a, b, i + 1, j));
        lemma_skip_front(a, i);
    } else {
        lemma_diff_sides(a, b, i, j + 1);
        lemma_sides_front((DiffLineKind::Add, b[j]), diff_from(a, b, i, j + 1));
        lemma_skip_front(b, j);
    }
}

/// A diff tells both texts: the lines that it keeps or removes are the old ones, and those that
/// it keeps or adds are the new ones. It keeps as many lines as the longest common subsequence.
pub proof fn law_diff_tells_both(a: Seq<Seq<char>>, b: Seq<Seq<char>>)
    ensures
        old_side(diff_from(a, b, 0, 0)) == a,
        new_side(diff_from(a, b, 0, 0)) == b,
        kept(diff_from(a, b, 0, 0)) == lcs(a, b, 0, 0),
{
    lemma_diff_sides(a, b, 0, 0);
    assert(a.skip(0) =~= a);
    assert(b.skip(0) =~= b);
}

/// Whether pairs of line numbers, each later than the one before, mark equal lines.
pub open spec fn common(a: Seq<Seq<char>>, b: Seq<Seq<char>>, p: Seq<(int, int)>) -> bool {
    &&& forall|k: int|
        0 <= k < p.len() ==> 0 <= (#[trigger] p[k]).0 < a.len() && 0 <= p[k].1 < b.len()
            && a[p[k].0] == b[p[k].1]
    &&& forall|k: int, l: int|
        0 <= k < l < p.len() ==> (#[trigger] p[k]).0 < (#[trigger] p[l]).0 && p[k].1 < p[l].1
}

proof fn lemma_lcs_longest(a: Seq<Seq<char>>, b: Seq<Seq<char>>, i: int, j: int, p: Seq<(int, int)>)
    requires
        0 <= i <= a.len(),
        0 <= j <= b.len(),
        common(a, b, p),
        p.len() > 0 ==> p[0].0 >= i && p[0].1 >= j,
    ensures
        p.len() <= lcs(a, b, i, j),
    decreases a.len() - i + b.len() - j,
{
    if p.len() > 0 {
        assert(p[0].0 < a.len());
        let rest = p.drop_first();
        assert(common(a, b, rest)) by {
            assert forall|k: int| 0 <= k < rest.len() implies 0 <= (#[trigger] rest[k]).0 < a.len()
                && 0 <= rest[k].1 < b.len() && a[rest[k].0] == b[rest[k].1] by {
                assert(p[k + 1] == rest[k]);
            }
            assert forall|k: int, l: int| 0 <= k < l < rest.len() implies (#[trigger] rest[k]).0 < (
            #[trigger] rest[l]).0 && rest[k].1 < rest[l].1 by {
                assert(p[k + 1] == rest[k]);
                assert(p[l + 1] == rest[l]);
            }
        }
        if rest.len() > 0 {
            assert(p[1] == rest[0]);
            assert(p[0].0 < p[1].0 && p[0].1 < p[1].1);
        }
        if a[i] == b[j] {
            lemma_lcs_longest(a, b, i + 1, j + 1, rest);
        } else if p[0].0 > i {
            lemma_lcs_longest(a, b, i + 1, j, p);
        } else {
            assert(p[0].0 == i);
            assert(p[0].1 > j);
            lemma_lcs_longest(a, b, i, j + 1, p);
        }
    }
}

/// No diff of two texts can keep more lines.
pub proof fn law_diff_keeps_most(a: Seq<Seq<char>>, b: Seq<Seq<char>>, p: Seq<(int, int)>)
    requires
        common(a, b, p),
    ensures
        p.len() <= kept(diff_from(a, b, 0, 0)),
{
    if p.len() > 0 {
        assert(p[0].0 >= 0 && p[0].1 >= 0);
    }
    lemma_lcs_longest(a, b, 0, 0, p);
    law_diff_tells_both(a, b);
}

// ---------------------------------------------------------------------------
// Writing a diff
// ---------------------------------------------------------------------------

pub open spec fn mark(kind: DiffLineKind) -> char {
    match kind {
        DiffLineKind::Context => ' ',
        DiffLineKind::Add => '+',
        DiffLineKind::Remove => '-',
    }
}

fn mark_of(kind: DiffLineKind) -> (r: char)
    ensures
        r == mark(kind),
{
    match kind {
        DiffLineKind::Context => ' ',
        DiffLineKind::Add => '+',
        DiffLineKind::Remove => '-',
    }
}

/// A line of a diff behind its mark.
pub open spec fn marked_line(c: char, content: Seq<char>) -> Seq<char> {
    seq![c] + content + "\n"@
}

pub fn push_diff_line(output: &mut String, prefix: char, content: &str)
    ensures
        final(output)@ == old(output)@ + marked_line(prefix, content@),
{
    let ghost before = output@;
    output.push(prefix);
    output.append(content);
    output.append("\n");
    proof {
        assert(output@ =~= before + marked_line(prefix, content@));
    }
}

/// The lines of a diff behind their marks.
pub open spec fn marked_lines(d: Seq<(DiffLineKind, Seq<char>)>) -> Seq<char>
    decreases d.len(),
{
    if d.len() == 0 {
        Seq::empty()
    } else {
        marked_lines(d.drop_last()) + marked_line(mark(d.last().0), d.last().1)
    }
}

fn push_diff_lines(output: &mut String, d: &Vec<DiffLine>)
    ensures
        final(output)@ == old(output)@ + marked_lines(diff_views(d@)),
{
    let ghost src = diff_views(d@);
    let ghost before = output@;
    let mut i: usize = 0;
    proof {
        assert(before + marked_lines(src.take(0)) =~= before);
    }
    while i < d.len()
        invariant
            i <= d@.len(),
            src == diff_views(d@),
            output@ == before + marked_lines(src.take(i as int)),
        decreases d@.len() - i,
    {
        proof {
            lemma_take_step(src, i as int);
        }
        let ghost mid = marked_lines(src.take(i as int));
        let ghost line = marked_line(mark(src[i as int].0), src[i as int].1);
        push_diff_line(output, mark_of(d[i].kind), d[i].content.as_str());
        proof {
            assert(before + mid + line =~= before + (mid + line));
        }
        i = i + 1;
    }
    proof {
        lemma_take_full(src);
    }
}

/// Lines that stay, behind their mark.
pub open spec fn context_lines(v: Seq<Seq<char>>) -> Seq<char>
    decreases v.len(),
{
    if v.len() == 0 {
        Seq::empty()
    } else {
        context_lines(v.drop_last()) + marked_line(' ', v.last())
    }
}

fn push_context(output: &mut String, lines: &Vec<String>, from: usize, to: usize)
    requires
        from <= to <= lines@.len(),
    ensures
        final(output)@ == old(output)@ + context_lines(
            texts(lines@).subrange(from as int, to as int),
        ),
{
    let ghost part = texts(lines@).subrange(from as int, to as int);
    let ghost before = output@;
    let mut i: usize = from;
    proof {
        assert(before + context_lines(part.take(0)) =~= before);
    }
    while i < to
        invariant
            from <= i <= to,
            to <= lines@.len(),
            part == texts(lines@).subrange(from as int, to as int),
            output@ == before + context_lines(part.take(i - from)),
        decreases to - i,
    {
        proof {
            lemma_take_step(part, i - from);
        }
        let ghost mid = context_lines(part.take(i - from));
        push_diff_line(output, ' ', lines[i].as_str());
        proof {
            let line = marked_line(' ', part[i - from]);
            assert(before + mid + line =~= before + (mid + line));
        }
        i = i + 1;
    }
    proof {
        lemma_take_full(part);
    }
}

pub open spec fn file_header(path: Seq<char>) -> Seq<char> {
    "--- "@ + path + "\n+++ "@ + path + "\n"@
}

pub open spec fn hunk_header(os: nat, oc: nat, ns: nat, nc: nat) -> Seq<char> {
    "@@ -"@ + decimal(os) + ","@ + decimal(oc) + " +"@ + decimal(ns) + ","@ + decimal(nc)
        + " @@\n"@
}

fn hunk_header_string(os: u64, oc: u64, ns: u128, nc: u64) -> (r: String)
    ensures
        r@ == hunk_header(os as nat, oc as nat, ns as nat, nc as nat),
{
    "@@ -".to_owned().concat(decimal_string(os).as_str()).concat(",").concat(
        decimal_string(oc).as_str(),
    ).concat(" +").concat(decimal_wide(ns).as_str()).concat(",").concat(
        decimal_string(nc).as_str(),
    ).concat(" @@\n")
}

fn file_header_string(path: &str) -> (r: String)
    ensures
        r@ == file_header(path@),
{
    "--- ".to_owned().concat(path).concat("\n+++ ").concat(path).concat("\n")
}

/// The diff of a whole file.
pub open spec fn full_diff(path: Seq<char>, old_text: Seq<char>, new_text: Seq<char>) -> Seq<char> {
    let a = lines(old_text);
    let b = lines(new_text);
    file_header(path) + hunk_header(1, a.len(), 1, b.len()) + marked_lines(diff_from(a, b, 0, 0))
}

pub fn build_full_file_diff(display_path: &str, original: &str, updated: &str) -> (r: String)
    ensures
        r@ == full_diff(display_path@, original@, updated@),
{
    let a = lines_of(original);
    let b = lines_of(updated);
    let d = diff_line_sequences(&a, &b);
    let head = hunk_header_string(1, a.len() as u64, 1, b.len() as u64);
    let mut diff = file_header_string(display_path).concat(head.as_str());
    push_diff_lines(&mut diff, &d);
    diff
}

/// The indices at which lines start, among the first `i` places of a text.
pub open spec fn starts_upto(s: Seq<char>, i: int) -> Seq<int>
    decreases i,
{
    if i <= 0 {
        seq![0int]
    } else if i < s.len() && s[i - 1] == '\n' {
        starts_upto(s, i - 1).push(i)
    } else {
        starts_upto(s, i - 1)
    }
}

/// The indices at which the lines of a text start.
pub open spec fn line_starts(s: Seq<char>) -> Seq<int> {
    starts_upto(s, s.len() as int)
}

/// The last line that starts at or before an index.
pub open spec fn line_at(starts: Seq<int>, offset: int) -> int
    decreases starts.len(),
{
    if starts.len() <= 1 {
        0
    } else if starts.last() <= offset {
        starts.len() - 1
    } else {
        line_at(starts.drop_last(), offset)
    }
}

/// The index at which a line ends, its newline included.
pub open spec fn line_end(s: Seq<char>, starts: Seq<int>, line: int) -> int {
    if 0 <= line + 1 < starts.len() {
        starts[line + 1]
    } else {
        s.len() as int
    }
}

pub open spec fn ints(v: Seq<usize>) -> Seq<int> {
    v.map_values(|x: usize| x as int)
}

pub fn line_start_offsets(content: &[char]) -> (r: Vec<usize>)
    ensures
        ints(r@) == line_starts(content@),
{
    let n: usize = content.len();
    let mut out: Vec<usize> = Vec::new();
    out.push(0);
    proof {
        assert(ints(out@) =~= starts_upto(content@, 0));
    }
    let mut i: usize = 0;
    while i < n
        invariant
            i <= n,
            n == content@.len(),
            ints(out@) == starts_upto(content@, i as int),
        decreases n - i,
    {
        let ghost before = out@;
        if content[i] == '\n' && i + 1 < n {
            out.push(i + 1);
            proof {
                assert(ints(out@) =~= ints(before).push(i + 1));
            }
        }
        i = i + 1;
    }
    out
}

proof fn lemma_starts(s: Seq<char>, i: int)
    requires
        0 <= i <= s.len(),
    ensures
        starts_upto(s, i).len() >= 1,
        starts_upto(s, i)[0] == 0,
        forall|k: int| 0 <= k < starts_upto(s, i).len() ==> 0 <= #[trigger] starts_upto(s, i)[k] <= i,
        forall|k: int|
            0 <= k < starts_upto(s, i).len() ==> (#[trigger] starts_upto(s, i)[k]) < s.len() || k
                == 0,
        forall|k: int, l: int|
            0 <= k < l < starts_upto(s, i).len() ==> #[trigger] starts_upto(s, i)[k]
                < #[trigger] starts_upto(s, i)[l],
    decreases i,
{
    if i > 0 {
        lemma_starts(s, i - 1);
    }
}

pub fn line_index_for_offset(starts: &Vec<usize>, offset: usize) -> (r: usize)
    requires
        starts@.len() >= 1,
    ensures
        r == line_at(ints(starts@), offset as int),
        r < starts@.len(),
        r > 0 ==> starts@[r as int] <= offset,
{
    let ghost all = ints(starts@);
    let mut n: usize = starts.len();
    proof {
        lemma_take_full(all);
    }
    while n > 1
        invariant
            1 <= n <= starts@.len(),
            all == ints(starts@),
            line_at(all.take(n as int), offset as int) == line_at(all, offset as int),
        decreases n,
    {
        proof {
            lemma_take_step(all, n - 1);
        }
        if starts[n - 1] <= offset {
            return n - 1;
        }
        n = n - 1;
    }
    0
}

pub fn line_end_offset(content_len: usize, starts: &Vec<usize>, line: usize) -> (r: usize)
    requires
        line < starts@.len(),
    ensures
        r == if line + 1 < starts@.len() {
            starts@[line + 1]
        } else {
            content_len
        },
{
    let n: usize = starts.len();
    if line + 1 < n {
        starts[line + 1]
    } else {
        content_len
    }
}

/// The lines around a replacement: the first and the last that it touches, the first and the end
/// of those that are shown, and the indices between which the touched lines stand.
pub struct Place {
    pub first: int,
    pub last: int,
    pub from: int,
    pub to: int,
    pub start: int,
    pub end: int,
}

pub open spec fn edit_place(s: Seq<char>, at: int, len: int) -> Place {
    let starts = line_starts(s);
    let count = lines(s).len();
    let first = line_at(starts, at);
    let last = line_at(starts, at + len - 1);
    Place {
        first,
        last,
        from: if first > 0 {
            first - 1
        } else {
            0
        },
        to: if last + 2 < count {
            last + 2
        } else {
            count as int
        },
        start: starts[first],
        end: line_end(s, starts, last),
    }
}

/// One replacement as a hunk of a diff.
pub struct EditHunk {
    pub text: Seq<char>,
    pub delta: int,
}

/// The touched lines after a replacement.
pub open spec fn edited_block(
    s: Seq<char>,
    p: Place,
    at: int,
    len: int,
    new_text: Seq<char>,
) -> Seq<char> {
    s.subrange(p.start, at) + new_text + s.subrange(at + len, p.end)
}

/// The hunk of touched lines `a` that become `b`, with the lines around them.
pub open spec fn place_hunk(
    all: Seq<Seq<char>>,
    p: Place,
    a: Seq<Seq<char>>,
    b: Seq<Seq<char>>,
    delta: int,
) -> EditHunk {
    let new_start = if p.from + 1 + delta >= 1 {
        p.from + 1 + delta
    } else {
        1
    };
    let around = (p.first - p.from) + (p.to - (p.last + 1));
    EditHunk {
        text: hunk_header(
            (p.from + 1) as nat,
            (around + a.len()) as nat,
            new_start as nat,
            (around + b.len()) as nat,
        ) + context_lines(all.subrange(p.from, p.first)) + marked_lines(diff_from(a, b, 0, 0))
            + context_lines(all.subrange(p.last + 1, p.to)),
        delta: delta + b.len() - a.len(),
    }
}

/// The hunk of a replacement at an index: the lines that the replaced text stands on, diffed
/// against what they become, with one line of context on each side. `delta` is by how many lines
/// the replacements before it have moved the text.
pub open spec fn edit_hunk(
    s: Seq<char>,
    at: int,
    len: int,
    new_text: Seq<char>,
    delta: int,
) -> EditHunk {
    let p = edit_place(s, at, len);
    place_hunk(
        lines(s),
        p,
        lines(s.subrange(p.start, p.end)),
        lines(edited_block(s, p, at, len, new_text)),
        delta,
    )
}

/// Where the bytes from an offset on stand in a text: the index of their first character, and
/// how many characters they are.
pub open spec fn span_at(s: Seq<char>, offset: nat, bytes: nat) -> (int, int) {
    let start = before_at(s, offset).len() as int;
    (start, before_at(s, offset + bytes).len() - start)
}

/// The hunks of the first `i` replacements, each at an offset in bytes.
pub open spec fn edit_hunks(
    s: Seq<char>,
    offsets: Seq<usize>,
    bytes: nat,
    new_text: Seq<char>,
    i: int,
) -> EditHunk
    decreases i,
{
    if i <= 0 {
        EditHunk { text: Seq::empty(), delta: 0 }
    } else {
        let before = edit_hunks(s, offsets, bytes, new_text, i - 1);
        let (at, len) = span_at(s, offsets[i - 1] as nat, bytes);
        let h = edit_hunk(s, at, len, new_text, before.delta);
        EditHunk { text: before.text + h.text, delta: h.delta }
    }
}

/// The diff of replacements in a text, each at an offset in bytes and of the length of the old
/// text.
pub open spec fn edit_diff(
    path: Seq<char>,
    s: Seq<char>,
    offsets: Seq<usize>,
    old_text: Seq<char>,
    new_text: Seq<char>,
) -> Seq<char> {
    file_header(path) + edit_hunks(
        s,
        offsets,
        bytes_len(old_text),
        new_text,
        offsets.len() as int,
    ).text
}

/// Whether some bytes from an offset on are whole characters of a text.
pub open spec fn cuts_out(s: Seq<char>, offset: nat, bytes: nat) -> bool {
    on_boundary(s, offset) && on_boundary(s, offset + bytes)
}

proof fn lemma_span(s: Seq<char>, offset: nat, bytes: nat)
    requires
        cuts_out(s, offset, bytes),
        bytes > 0,
    ensures
        ({
            let (at, len) = span_at(s, offset, bytes);
            0 <= at && len > 0 && at + len <= s.len() && offset + bytes <= bytes_len(s)
        }),
{
    lemma_head(s, offset);
    lemma_head(s, offset + bytes);
    let i = before_at(s, offset).len() as int;
    let j = before_at(s, offset + bytes).len() as int;
    if j <= i {
        lemma_bytes_len_prefix(s, j, i);
    }
    lemma_bytes_len_prefix(s, j, s.len() as int);
    lemma_take_full(s);
}

/// The index of the character at an offset in bytes.
fn index_at(s: &str, offset: usize) -> (r: usize)
    ensures
        r == before_at(s@, offset as nat).len(),
{
    let before = take_bytes(s, offset);
    chars_of(before.as_str()).len()
}

spec fn newlines(s: Seq<char>) -> nat
    decreases s.len(),
{
    if s.len() == 0 {
        0
    } else if s.last() == '\n' {
        newlines(s.drop_last()) + 1
    } else {
        newlines(s.drop_last())
    }
}

proof fn lemma_split_newlines(s: Seq<char>)
    ensures
        split_on(s, '\n').len() == newlines(s) + 1,
        split_on(s, '\n').last().len() == 0 <==> s.len() == 0 || s.last() == '\n',
    decreases s.len(),
{
    lemma_split_by_len(s, only('\n'));
    if s.len() > 0 {
        lemma_split_newlines(s.drop_last());
        lemma_split_by_len(s.drop_last(), only('\n'));
    }
}

proof fn lemma_starts_newlines(s: Seq<char>, i: int)
    requires
        0 <= i < s.len(),
    ensures
        starts_upto(s, i).len() == newlines(s.take(i)) + 1,
    decreases i,
{
    if i > 0 {
        lemma_starts_newlines(s, i - 1);
        lemma_take_step(s, i - 1);
    }
}

/// A text that is not empty has as many lines as line starts.
proof fn lemma_lines_starts(s: Seq<char>)
    requires
        s.len() > 0,
    ensures
        lines(s).len() == line_starts(s).len(),
{
    let n = s.len() as int;
    lemma_split_newlines(s);
    lemma_starts_newlines(s, n - 1);
    lemma_take_step(s, n - 1);
    lemma_take_full(s);
    assert(line_starts(s) == starts_upto(s, n - 1));
}

proof fn lemma_lines_len(s: Seq<char>)
    ensures
        lines(s).len() <= s.len() + 1,
{
    lemma_split_by_len(s, only('\n'));
}

proof fn lemma_line_at(starts: Seq<int>, offset: int)
    requires
        starts.len() >= 1,
    ensures
        0 <= line_at(starts, offset) < starts.len(),
        forall|k: int| line_at(starts, offset) < k < starts.len() ==> starts[k] > offset,
        line_at(starts, offset) > 0 ==> starts[line_at(starts, offset)] <= offset,
    decreases starts.len(),
{
    if starts.len() > 1 && starts.last() > offset {
        lemma_line_at(starts.drop_last(), offset);
        assert forall|k: int| line_at(starts, offset) < k < starts.len() implies starts[k]
            > offset by {
            if k < starts.len() - 1 {
                assert(starts.drop_last()[k] == starts[k]);
            }
        }
    }
}

/// Later places stand on later lines.
proof fn lemma_line_at_order(s: Seq<char>, x: int, y: int)
    requires
        s.len() > 0,
        0 <= x <= y < s.len(),
    ensures
        0 <= line_at(line_starts(s), x) <= line_at(line_starts(s), y) < line_starts(s).len(),
        line_starts(s)[line_at(line_starts(s), x)] <= x,
        line_end(s, line_starts(s), line_at(line_starts(s), y)) > y,
        line_end(s, line_starts(s), line_at(line_starts(s), y)) <= s.len(),
{
    let starts = line_starts(s);
    lemma_starts(s, s.len() as int);
    lemma_line_at(starts, x);
    lemma_line_at(starts, y);
    let lx = line_at(starts, x);
    let ly = line_at(starts, y);
    if ly < lx {
        assert(starts[lx] > y);
    }
}

struct ExecPlace {
    first: usize,
    last: usize,
    from: usize,
    to: usize,
    start: usize,
    end: usize,
}

spec fn place_view(p: ExecPlace) -> Place {
    Place {
        first: p.first as int,
        last: p.last as int,
        from: p.from as int,
        to: p.to as int,
        start: p.start as int,
        end: p.end as int,
    }
}

fn place_of(c: &[char], count: usize, starts: &Vec<usize>, at: usize, len: usize) -> (p: ExecPlace)
    requires
        count == lines(c@).len(),
        ints(starts@) == line_starts(c@),
        len > 0,
        at + len <= c@.len(),
    ensures
        place_view(p) == edit_place(c@, at as int, len as int),
        p.from <= p.first <= p.last < p.to <= count,
        p.first - p.from <= 1,
        p.to - p.last <= 2,
        p.start <= at,
        at + len <= p.end <= c@.len(),
{
    let n: usize = c.len();
    proof {
        lemma_lines_starts(c@);
        lemma_line_at_order(c@, at as int, at + len - 1);
        lemma_starts(c@, n as int);
    }
    let first: usize = line_index_for_offset(starts, at);
    let last: usize = line_index_for_offset(starts, at + (len - 1));
    let from: usize = if first > 0 {
        first - 1
    } else {
        0
    };
    let to: usize = if count - last > 2 {
        last + 2
    } else {
        count
    };
    let start: usize = starts[first];
    let end: usize = line_end_offset(n, starts, last);
    proof {
        assert(ints(starts@)[first as int] == starts@[first as int]);
        if last + 1 < starts@.len() {
            assert(ints(starts@)[last + 1] == starts@[last + 1]);
        }
    }
    ExecPlace { first, last, from, to, start, end }
}

fn push_place_hunk(
    diff: &mut String,
    all: &Vec<String>,
    p: &ExecPlace,
    a: &Vec<String>,
    b: &Vec<String>,
    delta: i128,
)
    requires
        p.from <= p.first <= p.last < p.to <= all@.len(),
        p.first - p.from <= 1,
        p.to - p.last <= 2,
        a@.len() + 2 <= usize::MAX,
        b@.len() + 2 <= usize::MAX,
        -0x1_0000_0000_0000_0000_0000_0000 <= delta <= 0x1_0000_0000_0000_0000_0000_0000,
    ensures
        final(diff)@ == old(diff)@ + place_hunk(
            texts(all@),
            place_view(*p),
            texts(a@),
            texts(b@),
            delta as int,
        ).text,
{
    let ghost before = diff@;
    let d = diff_line_sequences(a, b);
    let moved: i128 = (p.from as i128) + 1 + delta;
    let new_start: u128 = if moved >= 1 {
        moved as u128
    } else {
        1
    };
    let around: usize = (p.first - p.from) + (p.to - (p.last + 1));
    let head = hunk_header_string(
        (p.from + 1) as u64,
        (around + a.len()) as u64,
        new_start,
        (around + b.len()) as u64,
    );
    diff.append(head.as_str());
    push_context(diff, all, p.from, p.first);
    push_diff_lines(diff, &d);
    push_context(diff, all, p.last + 1, p.to);
    proof {
        let t1 = context_lines(texts(all@).subrange(p.from as int, p.first as int));
        let t2 = marked_lines(diff_views(d@));
        let t3 = context_lines(texts(all@).subrange(p.last + 1, p.to as int));
        assert(before + head@ + t1 + t2 + t3 =~= before + (head@ + t1 + t2 + t3));
    }
}

/// Writes one replacement as a hunk and gives by how many lines the text has moved after it.
fn push_edit_hunk(
    diff: &mut String,
    c: &[char],
    all: &Vec<String>,
    starts: &Vec<usize>,
    at: usize,
    len: usize,
    new_text: &str,
    delta: i128,
) -> (r: i128)
    requires
        texts(all@) == lines(c@),
        ints(starts@) == line_starts(c@),
        len > 0,
        at + len <= c@.len(),
        c@.len() + new_text@.len() + 4 <= usize::MAX,
        -0x1_0000_0000_0000_0000_0000_0000 <= delta <= 0x1_0000_0000_0000_0000_0000_0000,
    ensures
        final(diff)@ == old(diff)@ + edit_hunk(
            c@,
            at as int,
            len as int,
            new_text@,
            delta as int,
        ).text,
        r == edit_hunk(c@, at as int, len as int, new_text@, delta as int).delta,
        -0x1_0000_0000_0000_0000 <= r - delta <= 0x1_0000_0000_0000_0000,
{
    let p = place_of(c, all.len(), starts, at, len);
    let block = substring(c, p.start, p.end);
    let updated = substring(c, p.start, at).concat(new_text).concat(
        substring(c, at + len, p.end).as_str(),
    );
    let a = lines_of(block.as_str());
    let b = lines_of(updated.as_str());
    proof {
        lemma_lines_len(block@);
        lemma_lines_len(updated@);
        assert(updated@.len() <= c@.len() + new_text@.len());
        assert(texts(a@).len() == a@.len());
        assert(texts(b@).len() == b@.len());
    }
    push_place_hunk(diff, all, &p, &a, &b, delta);
    delta + (b.len() as i128) - (a.len() as i128)
}

/// The diff of replacing a text at the given places of another one, each an offset in bytes.
pub fn build_edit_preview_diff(
    display_path: &str,
    original: &str,
    match_offsets: &[usize],
    old_string: &str,
    new_string: &str,
) -> (r: String)
    requires
        old_string@.len() > 0,
        forall|i: int|
            0 <= i < match_offsets@.len() ==> cuts_out(
                original@,
                #[trigger] match_offsets@[i] as nat,
                bytes_len(old_string@),
            ),
        match_offsets@.len() <= u32::MAX,
        original@.len() + new_string@.len() + 4 <= usize::MAX,
    ensures
        r@ == edit_diff(display_path@, original@, match_offsets@, old_string@, new_string@),
{
    let c = chars_of(original);
    let total: usize = byte_len(original);
    let bytes: usize = byte_len(old_string);
    proof {
        lemma_bytes_len_ge(old_string@);
    }
    let all = lines_of(original);
    let starts = line_start_offsets(c.as_slice());
    let mut diff = file_header_string(display_path);
    let ghost head = diff@;
    let mut delta: i128 = 0;
    let mut i: usize = 0;
    proof {
        assert(head + Seq::<char>::empty() =~= head);
    }
    while i < match_offsets.len()
        invariant
            i <= match_offsets@.len(),
            c@ == original@,
            total == bytes_len(original@),
            bytes == bytes_len(old_string@),
            bytes > 0,
            texts(all@) == lines(c@),
            ints(starts@) == line_starts(c@),
            forall|k: int|
                0 <= k < match_offsets@.len() ==> cuts_out(
                    original@,
                    #[trigger] match_offsets@[k] as nat,
                    bytes as nat,
                ),
            match_offsets@.len() <= u32::MAX,
            c@.len() + new_string@.len() + 4 <= usize::MAX,
            ({
                let h = edit_hunks(c@, match_offsets@, bytes as nat, new_string@, i as int);
                diff@ == head + h.text && delta == h.delta
            }),
            -0x1_0000_0000_0000_0000 * i <= delta <= 0x1_0000_0000_0000_0000 * i,
        decreases match_offsets@.len() - i,
    {
        let offset: usize = match_offsets[i];
        proof {
            lemma_span(original@, offset as nat, bytes as nat);
        }
        let at: usize = index_at(original, offset);
        let end: usize = index_at(original, offset + bytes);
        let ghost before = edit_hunks(c@, match_offsets@, bytes as nat, new_string@, i as int).text;
        let ghost h = edit_hunk(c@, at as int, end - at, new_string@, delta as int).text;
        delta = push_edit_hunk(
            &mut diff,
            c.as_slice(),
            &all,
            &starts,
            at,
            end - at,
            new_string,
            delta,
        );
        proof {
            assert(head + before + h =~= head + (before + h));
        }
        i = i + 1;
    }
    diff
}

// ---------------------------------------------------------------------------
// Reading a diff
// ---------------------------------------------------------------------------

#[derive(Debug)]
pub struct DiffHunk {
    pub orig_start: usize,
    pub orig_count: usize,
    pub new_start: usize,
    pub new_count: usize,
    pub lines: Vec<DiffLine>,
}

pub struct HunkView {
    pub orig_start: nat,
    pub orig_count: nat,
    pub new_start: nat,
    pub new_count: nat,
    pub lines: Seq<(DiffLineKind, Seq<char>)>,
}

impl View for DiffHunk {
    type V = HunkView;

    open spec fn view(&self) -> HunkView {
        HunkView {
            orig_start: self.orig_start as nat,
            orig_count: self.orig_count as nat,
            new_start: self.new_start as nat,
            new_count: self.new_count as nat,
            lines: diff_views(self.lines@),
        }
    }
}

pub open spec fn hunk_views(v: Seq<DiffHunk>) -> Seq<HunkView> {
    v.map_values(|h: DiffHunk| h@)
}

/// A text without the given character at its start.
pub open spec fn without_leading(s: Seq<char>, c: char) -> Seq<char>
    decreases s.len(),
{
    if s.len() > 0 && s[0] == c {
        without_leading(s.drop_first(), c)
    } else {
        s
    }
}

pub fn drop_leading(s: &str, ch: char) -> (r: String)
    ensures
        r@ == without_leading(s@, ch),
{
    let c = chars_of(s);
    let n: usize = c.len();
    let mut i: usize = 0;
    proof {
        assert(c@.skip(0) =~= c@);
    }
    while i < n && c[i] == ch
        invariant
            i <= n,
            n == c@.len(),
            without_leading(c@.skip(i as int), ch) == without_leading(c@, ch),
        decreases n - i,
    {
        proof {
            lemma_skip_step(c@, i as int);
        }
        i = i + 1;
    }
    proof {
        if i < n {
            lemma_skip_step(c@, i as int);
        }
    }
    let r = substring(c.as_slice(), i, n);
    proof {
        assert(r@ =~= c@.skip(i as int));
    }
    r
}

pub open spec fn size_or(s: Seq<char>, default: nat) -> nat {
    match number_of(s, usize::MAX as nat) {
        Some(n) => n,
        None => default,
    }
}

fn parse_size_or(s: &str, default: usize) -> (r: usize)
    ensures
        r == size_or(s@, default as nat),
{
    match parse_number(s, usize::MAX as u64) {
        Some(n) => n as usize,
        None => default,
    }
}

/// A start and a count; without a count it is one line.
pub open spec fn hunk_range(s: Seq<char>) -> (nat, nat) {
    match split_once_spec(s, ","@) {
        Some((start, count)) => (size_or(start, 1), size_or(count, 0)),
        None => (size_or(s, 1), 1),
    }
}

fn parse_range(s: &str) -> (r: (usize, usize))
    ensures
        (r.0 as nat, r.1 as nat) == hunk_range(s@),
{
    match split_once(s, ",") {
        Some((start, count)) => (
            parse_size_or(start.as_str(), 1),
            parse_size_or(count.as_str(), 0),
        ),
        None => (parse_size_or(s, 1), 1),
    }
}

pub open spec fn bad_header(line: Seq<char>) -> Failure {
    failure(EXIT_ARGS, "invalid hunk header: "@ + line)
}

/// The hunk that a header line opens.
pub open spec fn header_hunk(line: Seq<char>) -> Result<HunkView, Failure> {
    let w = words(line);
    if w.len() < 3 {
        Err(bad_header(line))
    } else {
        let (os, oc) = hunk_range(without_leading(w[1], '-'));
        let (ns, nc) = hunk_range(without_leading(w[2], '+'));
        Ok(
            HunkView {
                orig_start: os,
                orig_count: oc,
                new_start: ns,
                new_count: nc,
                lines: Seq::empty(),
            },
        )
    }
}

pub open spec fn hunk_result(r: AppResult<DiffHunk>) -> Result<HunkView, Failure> {
    match r {
        Ok(h) => Ok(h@),
        Err(e) => Err(e@),
    }
}

pub fn parse_hunk_header(line: &str) -> (r: AppResult<DiffHunk>)
    ensures
        hunk_result(r) == header_hunk(line@),
{
    let parts = words_of(line);
    if parts.len() < 3 {
        let message = "invalid hunk header: ".to_owned().concat(line);
        return Err(AppError::new(EXIT_ARGS, message.as_str()));
    }
    proof {
        assert(texts(parts@)[1] == parts@[1]@);
        assert(texts(parts@)[2] == parts@[2]@);
    }
    let a = drop_leading(parts[1].as_str(), '-');
    let b = drop_leading(parts[2].as_str(), '+');
    let (orig_start, orig_count) = parse_range(a.as_str());
    let (new_start, new_count) = parse_range(b.as_str());
    let h = DiffHunk { orig_start, orig_count, new_start, new_count, lines: Vec::new() };
    proof {
        assert(diff_views(h.lines@) =~= Seq::<(DiffLineKind, Seq<char>)>::empty());
    }
    Ok(h)
}

/// The line of a hunk that a line of a diff stands for; a remark stands for none.
pub open spec fn hunk_line(line: Seq<char>) -> Option<(DiffLineKind, Seq<char>)> {
    if line.len() > 0 && line[0] == '+' {
        Some((DiffLineKind::Add, line.skip(1)))
    } else if line.len() > 0 && line[0] == '-' {
        Some((DiffLineKind::Remove, line.skip(1)))
    } else if line.len() > 0 && line[0] == ' ' {
        Some((DiffLineKind::Context, line.skip(1)))
    } else if line.len() > 0 && line[0] == '\\' {
        None
    } else {
        Some((DiffLineKind::Context, line))
    }
}

fn read_hunk_line(line: &str) -> (r: Option<DiffLine>)
    ensures
        match r {
            Some(d) => hunk_line(line@) == Some((d.kind, d.content@)),
            None => hunk_line(line@) is None,
        },
{
    let c = chars_of(line);
    if c.len() == 0 {
        return Some(DiffLine { kind: DiffLineKind::Context, content: line.to_owned() });
    }
    let rest = substring(c.as_slice(), 1, c.len());
    proof {
        assert(rest@ =~= line@.skip(1));
    }
    if c[0] == '+' {
        Some(DiffLine { kind: DiffLineKind::Add, content: rest })
    } else if c[0] == '-' {
        Some(DiffLine { kind: DiffLineKind::Remove, content: rest })
    } else if c[0] == ' ' {
        Some(DiffLine { kind: DiffLineKind::Context, content: rest })
    } else if c[0] == '\\' {
        None
    } else {
        Some(DiffLine { kind: DiffLineKind::Context, content: line.to_owned() })
    }
}

/// The state of reading a diff: the hunks so far, whether the last one is open, and the first
/// failure.
pub struct HunkState {
    pub hunks: Seq<HunkView>,
    pub open: bool,
    pub error: Option<Failure>,
}

pub open spec fn with_line(h: HunkView, l: Option<(DiffLineKind, Seq<char>)>) -> HunkView {
    match l {
        Some(x) => HunkView { lines: h.lines.push(x), ..h },
        None => h,
    }
}

pub open spec fn hunk_step(st: HunkState, line: Seq<char>) -> HunkState {
    if st.error is Some {
        st
    } else if starts_with_spec(line, "@@"@) {
        match header_hunk(line) {
            Ok(h) => HunkState { hunks: st.hunks.push(h), open: true, ..st },
            Err(e) => HunkState { error: Some(e), ..st },
        }
    } else if !st.open || st.hunks.len() == 0 {
        st
    } else if starts_with_spec(line, "diff "@) {
        HunkState { open: false, ..st }
    } else {
        HunkState {
            hunks: st.hunks.drop_last().push(with_line(st.hunks.last(), hunk_line(line))),
            ..st
        }
    }
}

pub open spec fn hunk_state(v: Seq<Seq<char>>) -> HunkState
    decreases v.len(),
{
    if v.len() == 0 {
        HunkState { hunks: Seq::empty(), open: false, error: None }
    } else {
        hunk_step(hunk_state(v.drop_last()), v.last())
    }
}

/// The hunks of a diff: each reaches from its header to the next header or file.
pub open spec fn diff_hunks(diff: Seq<char>) -> Result<Seq<HunkView>, Failure> {
    let st = hunk_state(lines(diff));
    match st.error {
        Some(e) => Err(e),
        None => if st.hunks.len() == 0 {
            Err(failure(EXIT_ARGS, "no valid diff hunks found in content"@))
        } else {
            Ok(st.hunks)
        },
    }
}

proof fn lemma_hunk_error(v: Seq<Seq<char>>, i: int)
    requires
        0 <= i <= v.len(),
        hunk_state(v.take(i)).error is Some,
    ensures
        hunk_state(v) == hunk_state(v.take(i)),
    decreases v.len() - i,
{
    if i == v.len() {
        lemma_take_full(v);
    } else {
        lemma_take_step(v, i);
        lemma_hunk_error(v, i + 1);
    }
}

pub open spec fn hunks_result(r: AppResult<Vec<DiffHunk>>) -> Result<Seq<HunkView>, Failure> {
    match r {
        Ok(v) => Ok(hunk_views(v@)),
        Err(e) => Err(e@),
    }
}

pub fn parse_diff_hunks(diff: &str) -> (r: AppResult<Vec<DiffHunk>>)
    ensures
        hunks_result(r) == diff_hunks(diff@),
{
    let all = lines_of(diff);
    let ghost src = texts(all@);
    let mut hunks: Vec<DiffHunk> = Vec::new();
    let mut open = false;
    let mut i: usize = 0;
    proof {
        assert(hunk_views(hunks@) =~= Seq::<HunkView>::empty());
    }
    while i < all.len()
        invariant
            i <= all@.len(),
            src == texts(all@),
            src == lines(diff@),
            hunk_state(src.take(i as int)) == (HunkState {
                hunks: hunk_views(hunks@),
                open,
                error: None,
            }),
            open ==> hunks@.len() > 0,
        decreases all@.len() - i,
    {
        proof {
            lemma_take_step(src, i as int);
        }
        let ghost before = hunk_views(hunks@);
        let line = all[i].as_str();
        if starts_with(line, "@@") {
            match parse_hunk_header(line) {
                Ok(h) => {
                    hunks.push(h);
                    open = true;
                    proof {
                        assert(hunk_views(hunks@) =~= before.push(h@));
                    }
                },
                Err(e) => {
                    proof {
                        lemma_hunk_error(src, i + 1);
                    }
                    return Err(e);
                },
            }
        } else if open {
            if starts_with(line, "diff ") {
                open = false;
            } else {
                match read_hunk_line(line) {
                    Some(d) => {
                        match hunks.pop() {
                            Some(h) => {
                                let mut last = h;
                                proof {
                                    lemma_diff_push(last.lines@, d);
                                    assert(hunk_views(hunks@) =~= before.drop_last());
                                }
                                last.lines.push(d);
                                hunks.push(last);
                                proof {
                                    assert(hunk_views(hunks@) =~= before.drop_last().push(last@));
                                }
                            },
                            None => {},
                        }
                    },
                    None => {
                        proof {
                            assert(before.drop_last().push(before.last()) =~= before);
                        }
                    },
                }
            }
        }
        i = i + 1;
    }
    proof {
        lemma_take_full(src);
    }
    if hunks.len() == 0 {
        return Err(AppError::new(EXIT_ARGS, "no valid diff hunks found in content"));
    }
    Ok(hunks)
}

pub open spec fn is_addition(line: Seq<char>) -> bool {
    starts_with_spec(line, "+"@) && !starts_with_spec(line, "+++"@)
}

pub open spec fn is_deletion(line: Seq<char>) -> bool {
    starts_with_spec(line, "-"@) && !starts_with_spec(line, "---"@)
}

/// How many lines a diff adds and removes.
pub open spec fn changes(v: Seq<Seq<char>>) -> (nat, nat)
    decreases v.len(),
{
    if v.len() == 0 {
        (0, 0)
    } else {
        let (a, d) = changes(v.drop_last());
        if is_addition(v.last()) {
            (a + 1, d)
        } else if is_deletion(v.last()) {
            (a, d + 1)
        } else {
            (a, d)
        }
    }
}

proof fn lemma_changes_len(v: Seq<Seq<char>>)
    ensures
        changes(v).0 + changes(v).1 <= v.len(),
    decreases v.len(),
{
    if v.len() > 0 {
        lemma_changes_len(v.drop_last());
    }
}

pub fn count_diff_changes(diff: &str) -> (r: (usize, usize))
    ensures
        (r.0 as nat, r.1 as nat) == changes(lines(diff@)),
{
    let all = lines_of(diff);
    let ghost src = texts(all@);
    let mut a: usize = 0;
    let mut d: usize = 0;
    let mut i: usize = 0;
    while i < all.len()
        invariant
            i <= all@.len(),
            src == texts(all@),
            (a as nat, d as nat) == changes(src.take(i as int)),
        decreases all@.len() - i,
    {
        proof {
            lemma_take_step(src, i as int);
            lemma_changes_len(src.take(i as int));
        }
        let line = all[i].as_str();
        if starts_with(line, "+") && !starts_with(line, "+++") {
            a = a + 1;
        } else if starts_with(line, "-") && !starts_with(line, "---") {
            d = d + 1;
        }
        i = i + 1;
    }
    proof {
        lemma_take_full(src);
    }
    (a, d)
}

// ---------------------------------------------------------------------------
// Showing a diff
// ---------------------------------------------------------------------------

pub const BRIGHT_GREEN: &'static str = "\x1b[38;5;151m";

pub const BRIGHT_RED: &'static str = "\x1b[38;5;224m";

pub const GUTTER: &'static str = "\x1b[38;5;245m";

pub const ADD_BG: &'static str = "\x1b[48;5;22m";

pub const REMOVE_BG: &'static str = "\x1b[48;5;52m";

/// How many lines of a diff are shown.
pub const PREVIEW_LINES: usize = 8;

/// How many characters of a line are shown.
pub const PREVIEW_CHARS: usize = 120;

/// A text cut after `n` characters.
pub open spec fn clipped(s: Seq<char>, n: nat) -> Seq<char> {
    if s.len() <= n {
        s
    } else {
        s.take(n as int) + "..."@
    }
}

pub fn truncate_code_preview(value: &str, max_chars: usize) -> (r: String)
    ensures
        r@ == clipped(value@, max_chars as nat),
{
    let c = chars_of(value);
    if c.len() <= max_chars {
        return value.to_owned();
    }
    let head = substring(c.as_slice(), 0, max_chars);
    proof {
        assert(head@ =~= value@.take(max_chars as int));
    }
    head.concat("...")
}

/// A text behind spaces, up to a width.
pub open spec fn right_aligned(s: Seq<char>, width: nat) -> Seq<char> {
    repeat(" "@, pad_len(width, s.len())) + s
}

pub fn align_right(s: &str, width: usize) -> (r: String)
    ensures
        r@ == right_aligned(s@, width as nat),
{
    let n: usize = chars_of(s).len();
    repeat_str(" ", width.saturating_sub(n)).concat(s)
}

/// A shown line of a diff: its number, its mark and its text.
pub open spec fn preview_line(kind: DiffLineKind, number: nat, content: Seq<char>, width: nat) -> Seq<
    char,
> {
    let label = right_aligned(decimal(number), width);
    let text = clipped(content, PREVIEW_CHARS as nat);
    match kind {
        DiffLineKind::Context => DIM@ + label + " "@ + " "@ + " "@ + text + RESET@,
        DiffLineKind::Remove => REMOVE_BG@ + GUTTER@ + label + " "@ + BRIGHT_RED@ + "-"@ + " "@
            + text + RESET@,
        DiffLineKind::Add => ADD_BG@ + GUTTER@ + label + " "@ + BRIGHT_GREEN@ + "+"@ + " "@ + text
            + RESET@,
    }
}

pub fn format_diff_preview_line(
    kind: DiffLineKind,
    line_number: usize,
    content: &str,
    gutter_width: usize,
) -> (r: String)
    ensures
        r@ == preview_line(kind, line_number as nat, content@, gutter_width as nat),
{
    let number = decimal_string(line_number as u64);
    let label = align_right(number.as_str(), gutter_width);
    let text = truncate_code_preview(content, PREVIEW_CHARS);
    match kind {
        DiffLineKind::Context => DIM.to_owned().concat(label.as_str()).concat(" ").concat(
            " ",
        ).concat(" ").concat(text.as_str()).concat(RESET),
        DiffLineKind::Remove => REMOVE_BG.to_owned().concat(GUTTER).concat(
            label.as_str(),
        ).concat(" ").concat(BRIGHT_RED).concat("-").concat(" ").concat(text.as_str()).concat(
            RESET,
        ),
        DiffLineKind::Add => ADD_BG.to_owned().concat(GUTTER).concat(label.as_str()).concat(
            " ",
        ).concat(BRIGHT_GREEN).concat("+").concat(" ").concat(text.as_str()).concat(RESET),
    }
}

/// What is shown of a diff so far: the lines, how many of them are lines of the diff, whether
/// some were left out, and the numbers of the next lines.
pub struct Preview {
    pub out: Seq<Seq<char>>,
    pub shown: nat,
    pub full: bool,
    pub old_line: nat,
    pub new_line: nat,
}

pub open spec fn preview_step(
    p: Preview,
    l: (DiffLineKind, Seq<char>),
    width: nat,
) -> Preview {
    if p.full || p.shown >= PREVIEW_LINES {
        Preview { full: true, ..p }
    } else {
        let number = if l.0 == DiffLineKind::Add {
            p.new_line
        } else {
            p.old_line
        };
        Preview {
            out: p.out.push(preview_line(l.0, number, l.1, width)),
            shown: p.shown + 1,
            old_line: if l.0 == DiffLineKind::Add {
                p.old_line
            } else {
                sat_add(p.old_line, 1)
            },
            new_line: if l.0 == DiffLineKind::Remove {
                p.new_line
            } else {
                sat_add(p.new_line, 1)
            },
            ..p
        }
    }
}

pub open spec fn preview_lines(
    p: Preview,
    v: Seq<(DiffLineKind, Seq<char>)>,
    width: nat,
) -> Preview
    decreases v.len(),
{
    if v.len() == 0 {
        p
    } else {
        preview_step(preview_lines(p, v.drop_last(), width), v.last(), width)
    }
}

/// The first `i` hunks as they are shown, dots between each two.
pub open spec fn preview_hunks(v: Seq<HunkView>, width: nat, i: int) -> Preview
    decreases i,
{
    if i <= 0 {
        Preview { out: Seq::empty(), shown: 0, full: false, old_line: 0, new_line: 0 }
    } else {
        let before = preview_hunks(v, width, i - 1);
        if before.full {
            before
        } else {
            let start = Preview {
                out: if i > 1 && before.shown < PREVIEW_LINES {
                    before.out.push(DIM@ + "..."@ + RESET@)
                } else {
                    before.out
                },
                old_line: v[i - 1].orig_start,
                new_line: v[i - 1].new_start,
                ..before
            };
            preview_lines(start, v[i - 1].lines, width)
        }
    }
}

/// The greatest line number of the first `i` hunks, at least one.
pub open spec fn greatest_line(v: Seq<HunkView>, i: int) -> nat
    decreases i,
{
    if i <= 0 {
        1
    } else {
        let a = sat_add(v[i - 1].orig_start, v[i - 1].orig_count);
        let b = sat_add(v[i - 1].new_start, v[i - 1].new_count);
        let before = greatest_line(v, i - 1);
        let m = if a >= b {
            a
        } else {
            b
        };
        if m >= before {
            m
        } else {
            before
        }
    }
}

/// The diff as it is shown where it holds no hunk: its additions and deletions.
pub open spec fn fallback_lines(v: Seq<Seq<char>>) -> Seq<Seq<char>>
    decreases v.len(),
{
    if v.len() == 0 {
        Seq::empty()
    } else {
        let before = fallback_lines(v.drop_last());
        if before.len() >= PREVIEW_LINES {
            before
        } else if is_addition(v.last()) {
            before.push(
                GREEN@ + "+ "@ + preview(without_leading(v.last(), '+'), PREVIEW_CHARS as nat)
                    + RESET@,
            )
        } else if is_deletion(v.last()) {
            before.push(
                RED@ + "- "@ + preview(without_leading(v.last(), '-'), PREVIEW_CHARS as nat)
                    + RESET@,
            )
        } else {
            before
        }
    }
}

pub open spec fn fallback_preview(path: Seq<char>, diff: Seq<char>) -> Seq<char> {
    join(
        seq![DIM@ + path + " · diff preview unavailable"@ + RESET@] + fallback_lines(lines(diff)),
        "\n"@,
    )
}

pub fn render_fallback_diff_preview(display_path: &str, diff: &str) -> (r: String)
    ensures
        r@ == fallback_preview(display_path@, diff@),
{
    let all = lines_of(diff);
    let ghost src = texts(all@);
    let mut out: Vec<String> = Vec::new();
    out.push(
        DIM.to_owned().concat(display_path).concat(" · diff preview unavailable").concat(RESET),
    );
    let ghost head = texts(out@);
    let mut shown: usize = 0;
    let mut i: usize = 0;
    proof {
        assert(head =~= seq![DIM@ + display_path@ + " · diff preview unavailable"@ + RESET@]);
        assert(head + fallback_lines(src.take(0)) =~= head);
    }
    while i < all.len()
        invariant
            i <= all@.len(),
            src == texts(all@),
            shown == fallback_lines(src.take(i as int)).len(),
            shown <= PREVIEW_LINES,
            texts(out@) == head + fallback_lines(src.take(i as int)),
        decreases all@.len() - i,
    {
        proof {
            lemma_take_step(src, i as int);
        }
        let line = all[i].as_str();
        if shown < PREVIEW_LINES {
            let ghost before = fallback_lines(src.take(i as int));
            if starts_with(line, "+") && !starts_with(line, "+++") {
                let body = preview_string(drop_leading(line, '+').as_str(), PREVIEW_CHARS);
                let text = GREEN.to_owned().concat("+ ").concat(body.as_str()).concat(RESET);
                proof {
                    lemma_texts_push(out@, text);
                    assert((head + before).push(text@) =~= head + before.push(text@));
                }
                out.push(text);
                shown = shown + 1;
            } else if starts_with(line, "-") && !starts_with(line, "---") {
                let body = preview_string(drop_leading(line, '-').as_str(), PREVIEW_CHARS);
                let text = RED.to_owned().concat("- ").concat(body.as_str()).concat(RESET);
                proof {
                    lemma_texts_push(out@, text);
                    assert((head + before).push(text@) =~= head + before.push(text@));
                }
                out.push(text);
                shown = shown + 1;
            }
        }
        i = i + 1;
    }
    proof {
        lemma_take_full(src);
    }
    join_strings(&out, "\n")
}

/// How many lines the first `i` hunks hold.
pub open spec fn line_total(v: Seq<HunkView>, i: int) -> nat
    decreases i,
{
    if i <= 0 {
        0
    } else {
        line_total(v, i - 1) + v[i - 1].lines.len()
    }
}

/// A diff as it is shown: at most eight of its lines with their numbers, dots where something was
/// left out.
pub open spec fn diff_preview(path: Seq<char>, diff: Seq<char>) -> Seq<char> {
    match diff_hunks(diff) {
        Err(_) => fallback_preview(path, diff),
        Ok(v) => {
            let n = v.len() as int;
            let width = decimal(greatest_line(v, n)).len();
            let p = preview_hunks(v, width, n);
            let out = if p.full || line_total(v, n) > p.shown {
                p.out.push(DIM@ + "..."@ + RESET@)
            } else {
                p.out
            };
            if out.len() == 0 {
                fallback_preview(path, diff)
            } else {
                join(out, "\n"@)
            }
        },
    }
}

proof fn lemma_preview_full(p: Preview, v: Seq<(DiffLineKind, Seq<char>)>, width: nat, i: int)
    requires
        0 <= i < v.len(),
        preview_lines(p, v.take(i), width).full || preview_lines(p, v.take(i), width).shown
            >= PREVIEW_LINES,
    ensures
        preview_lines(p, v, width) == (Preview { full: true, ..preview_lines(p, v.take(i), width) }),
    decreases v.len() - i,
{
    lemma_take_step(v, i);
    if i + 1 == v.len() {
        lemma_take_full(v);
    } else {
        lemma_preview_full(p, v, width, i + 1);
    }
}

proof fn lemma_hunks_full(v: Seq<HunkView>, width: nat, i: int, n: int)
    requires
        0 <= i <= n <= v.len(),
        preview_hunks(v, width, i).full,
    ensures
        preview_hunks(v, width, n) == preview_hunks(v, width, i),
    decreases n - i,
{
    if i < n {
        lemma_hunks_full(v, width, i + 1, n);
    }
}

fn greatest_line_of(hunks: &Vec<DiffHunk>) -> (r: usize)
    ensures
        r == greatest_line(hunk_views(hunks@), hunks@.len() as int),
{
    let ghost v = hunk_views(hunks@);
    let mut most: usize = 1;
    let mut i: usize = 0;
    while i < hunks.len()
        invariant
            i <= hunks@.len(),
            v == hunk_views(hunks@),
            most == greatest_line(v, i as int),
        decreases hunks@.len() - i,
    {
        proof {
            assert(v[i as int] == hunks@[i as int]@);
        }
        let a: usize = hunks[i].orig_start.saturating_add(hunks[i].orig_count);
        let b: usize = hunks[i].new_start.saturating_add(hunks[i].new_count);
        let m: usize = if a >= b {
            a
        } else {
            b
        };
        if m >= most {
            most = m;
        }
        i = i + 1;
    }
    most
}

struct ExecPreview {
    out: Vec<String>,
    shown: usize,
    full: bool,
    old_line: usize,
    new_line: usize,
}

spec fn preview_view(p: ExecPreview) -> Preview {
    Preview {
        out: texts(p.out@),
        shown: p.shown as nat,
        full: p.full,
        old_line: p.old_line as nat,
        new_line: p.new_line as nat,
    }
}

fn show_lines(p: &mut ExecPreview, v: &Vec<DiffLine>, width: usize)
    requires
        old(p).shown <= PREVIEW_LINES,
        !old(p).full,
    ensures
        preview_view(*final(p)) == preview_lines(
            preview_view(*old(p)),
            diff_views(v@),
            width as nat,
        ),
        final(p).shown <= PREVIEW_LINES,
{
    let ghost src = diff_views(v@);
    let ghost start = preview_view(*p);
    let mut i: usize = 0;
    while i < v.len()
        invariant
            i <= v@.len(),
            src == diff_views(v@),
            p.shown <= PREVIEW_LINES,
            !p.full,
            start == preview_view(*old(p)),
            preview_view(*p) == preview_lines(start, src.take(i as int), width as nat),
        decreases v@.len() - i,
    {
        proof {
            lemma_take_step(src, i as int);
        }
        if p.shown >= PREVIEW_LINES {
            proof {
                lemma_preview_full(start, src, width as nat, i as int);
            }
            p.full = true;
            return;
        }
        let kind = v[i].kind;
        let number: usize = match kind {
            DiffLineKind::Add => p.new_line,
            _ => p.old_line,
        };
        let text = format_diff_preview_line(kind, number, v[i].content.as_str(), width);
        proof {
            lemma_texts_push(p.out@, text);
        }
        p.out.push(text);
        p.shown = p.shown + 1;
        match kind {
            DiffLineKind::Context => {
                p.old_line = p.old_line.saturating_add(1);
                p.new_line = p.new_line.saturating_add(1);
            },
            DiffLineKind::Remove => {
                p.old_line = p.old_line.saturating_add(1);
            },
            DiffLineKind::Add => {
                p.new_line = p.new_line.saturating_add(1);
            },
        }
        i = i + 1;
    }
    proof {
        lemma_take_full(src);
    }
}

proof fn lemma_line_total(v: Seq<HunkView>, i: int, n: int)
    requires
        0 <= i <= n,
    ensures
        line_total(v, i) <= line_total(v, n),
    decreases n - i,
{
    if i < n {
        lemma_line_total(v, i, n - 1);
    }
}

fn more_lines_than(hunks: &Vec<DiffHunk>, shown: usize) -> (r: bool)
    ensures
        r == (line_total(hunk_views(hunks@), hunks@.len() as int) > shown),
{
    let ghost v = hunk_views(hunks@);
    let mut total: usize = 0;
    let mut i: usize = 0;
    while i < hunks.len()
        invariant
            i <= hunks@.len(),
            v == hunk_views(hunks@),
            total == line_total(v, i as int),
            total <= shown,
        decreases hunks@.len() - i,
    {
        proof {
            assert(v[i as int] == hunks@[i as int]@);
            lemma_line_total(v, i + 1, v.len() as int);
        }
        if hunks[i].lines.len() > shown - total {
            return true;
        }
        total = total + hunks[i].lines.len();
        i = i + 1;
    }
    false
}

pub fn render_diff_preview(display_path: &str, diff: &str) -> (r: String)
    ensures
        r@ == diff_preview(display_path@, diff@),
{
    let hunks = match parse_diff_hunks(diff) {
        Ok(h) => h,
        Err(_) => {
            return render_fallback_diff_preview(display_path, diff);
        },
    };
    let ghost v = hunk_views(hunks@);
    let most: usize = greatest_line_of(&hunks);
    let number = decimal_string(most as u64);
    let width: usize = chars_of(number.as_str()).len();
    let mut p = ExecPreview {
        out: Vec::new(),
        shown: 0,
        full: false,
        old_line: 0,
        new_line: 0,
    };
    let mut i: usize = 0;
    proof {
        assert(texts(p.out@) =~= Seq::<Seq<char>>::empty());
    }
    while i < hunks.len() && !p.full
        invariant
            i <= hunks@.len(),
            v == hunk_views(hunks@),
            p.shown <= PREVIEW_LINES,
            preview_view(p) == preview_hunks(v, width as nat, i as int),
        decreases hunks@.len() - i,
    {
        proof {
            assert(v[i as int] == hunks@[i as int]@);
        }
        if i > 0 && p.shown < PREVIEW_LINES {
            let dots = painted(DIM, "...");
            proof {
                lemma_texts_push(p.out@, dots);
            }
            p.out.push(dots);
        }
        p.old_line = hunks[i].orig_start;
        p.new_line = hunks[i].new_start;
        show_lines(&mut p, &hunks[i].lines, width);
        i = i + 1;
    }
    proof {
        if i < hunks@.len() {
            lemma_hunks_full(v, width as nat, i as int, v.len() as int);
        }
    }
    if p.full || more_lines_than(&hunks, p.shown) {
        let dots = painted(DIM, "...");
        proof {
            lemma_texts_push(p.out@, dots);
        }
        p.out.push(dots);
    }
    if p.out.len() == 0 {
        return render_fallback_diff_preview(display_path, diff);
    }
    join_strings(&p.out, "\n")
}

} // verus!
