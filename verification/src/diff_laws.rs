//! What a diff tells, and what is shown of it.

use crate::ansi::{DIM, RESET};
use crate::diff::{
    ADD_BG, BRIGHT_GREEN, BRIGHT_RED, DiffLineKind, GUTTER, HunkState, HunkView, Preview,
    REMOVE_BG, changes, clipped, diff_from, diff_hunks, diff_preview, file_header, full_diff,
    greatest_line, header_hunk, hunk_header, hunk_line, hunk_range, hunk_state, is_addition,
    is_deletion, lcs, line_total, mark, marked_lines, preview_hunks, preview_line,
    preview_lines, right_aligned, without_leading,
};
use crate::error::Failure;
use crate::markdown_laws::lemma_tag_found;
use crate::render::pad_len;
use crate::table_laws::lemma_contained;
use crate::text::{
    contains_text, decimal, digit_char, is_digit, is_space, join,
    law_contained_text_stands_somewhere, law_decimal_reads_back, lemma_split_by_len,
    lemma_split_concat, lemma_split_none, lines, matches_at, non_empty, only, repeat, split_by,
    split_on, starts_with_spec, without_cr, words,
};
use crate::text_laws::{law_lines_are_of_the_text, law_split_pieces_join};
use vstd::prelude::*;

verus! {

/// Whether a text stands on one line.
pub open spec fn on_one_line(s: Seq<char>) -> bool {
    !s.contains('\n') && !s.contains('\r')
}

pub(crate) proof fn lemma_line_added(a: Seq<char>, line: Seq<char>)
    requires
        on_one_line(line),
        a.len() == 0 || a.last() == '\n',
    ensures
        lines(a + line + seq!['\n']) == lines(a).push(line),
{
    let f = only('\n');
    let x = a + line;
    let y = x + seq!['\n'];
    lemma_split_by_len(a, f);
    lemma_split_by_len(x, f);
    assert(split_on(a, '\n').last().len() == 0) by {
        if a.len() > 0 {
            assert(f(a.last()));
        }
    }
    lemma_split_concat(a, line, f);
    let p = split_on(a, '\n');
    assert(p.last() =~= Seq::<char>::empty());
    assert(p.last() + line =~= line);
    assert forall|i: int| 0 <= i < line.len() implies !f(#[trigger] line[i]) by {
        assert(line.contains(line[i]));
    }
    lemma_split_none(line, f);
    assert(split_on(x, '\n') == p.drop_last() + seq![line]);
    assert(y.drop_last() =~= x);
    assert(y.last() == '\n');
    assert(split_on(y, '\n') == split_on(x, '\n').push(Seq::empty()));
    let q = split_on(y, '\n');
    assert(q.drop_last() =~= p.drop_last().push(line));
    if line.len() > 0 {
        assert(line.contains(line.last()));
    }
    assert(without_cr(line) == line);
    let g = |s: Seq<char>| without_cr(s);
    assert(q.drop_last().map_values(g) =~= p.drop_last().map_values(g).push(line));
}

/// A diff is written line by line, in order, each behind its mark.
pub proof fn law_diff_is_written(head: Seq<char>, d: Seq<(DiffLineKind, Seq<char>)>)
    requires
        head.len() == 0 || head.last() == '\n',
        forall|i: int| 0 <= i < d.len() ==> on_one_line((#[trigger] d[i]).1),
    ensures
        lines(head + marked_lines(d)) == lines(head) + d.map_values(
            |l: (DiffLineKind, Seq<char>)|
                seq![
                    match l.0 {
                        DiffLineKind::Context => ' ',
                        DiffLineKind::Add => '+',
                        DiffLineKind::Remove => '-',
                    },
                ] + l.1,
        ),
        (head + marked_lines(d)).len() > 0 ==> (head + marked_lines(d)).last() == '\n',
    decreases d.len(),
{
    let g = |l: (DiffLineKind, Seq<char>)|
        seq![
            match l.0 {
                DiffLineKind::Context => ' ',
                DiffLineKind::Add => '+',
                DiffLineKind::Remove => '-',
            },
        ] + l.1;
    if d.len() == 0 {
        assert(head + marked_lines(d) =~= head);
        assert(lines(head) + d.map_values(g) =~= lines(head));
    } else {
        let e = d.drop_last();
        assert forall|i: int| 0 <= i < e.len() implies on_one_line((#[trigger] e[i]).1) by {
            assert(e[i] == d[i]);
        }
        law_diff_is_written(head, e);
        let before = head + marked_lines(e);
        let line = seq![mark(d.last().0)] + d.last().1;
        assert(on_one_line(d[d.len() - 1].1));
        assert(on_one_line(line)) by {
            if line.contains('\n') {
                let k = choose|k: int| 0 <= k < line.len() && line[k] == '\n';
                assert(d.last().1[k - 1] == '\n');
            }
            if line.contains('\r') {
                let k = choose|k: int| 0 <= k < line.len() && line[k] == '\r';
                assert(d.last().1[k - 1] == '\r');
            }
        }
        lemma_line_added(before, line);
        reveal_strlit("\n");
        assert("\n"@ =~= seq!['\n']);
        assert(head + marked_lines(d) =~= before + line + seq!['\n']);
        assert(lines(head) + d.map_values(g) =~= (lines(head) + e.map_values(g)).push(line));
    }
}

/// The additions and the deletions of a diff are counted: the lines behind their marks, but not
/// those that name the file.
pub proof fn law_changes_are_counted(v: Seq<Seq<char>>, t: Seq<char>)
    ensures
        changes(v).0 == v.filter(|l: Seq<char>| is_addition(l)).len(),
        changes(v).1 == v.filter(|l: Seq<char>| is_deletion(l) && !is_addition(l)).len(),
        !"++"@.is_prefix_of(t) ==> is_addition(seq!['+'] + t),
        !"--"@.is_prefix_of(t) ==> is_deletion(seq!['-'] + t),
        !is_addition(seq![' '] + t) && !is_deletion(seq![' '] + t),
        !is_addition("+++ "@ + t) && !is_deletion("--- "@ + t),
        !is_addition(seq!['-'] + t) && !is_deletion(seq!['+'] + t),
    decreases v.len(),
{
    reveal(Seq::filter);
    if v.len() > 0 {
        law_changes_are_counted(v.drop_last(), t);
    }
    reveal_strlit("+");
    reveal_strlit("-");
    reveal_strlit("++");
    reveal_strlit("--");
    reveal_strlit("+++");
    reveal_strlit("---");
    reveal_strlit("+++ ");
    reveal_strlit("--- ");
    let a = seq!['+'] + t;
    let d = seq!['-'] + t;
    assert("+"@.is_prefix_of(a) && "-"@.is_prefix_of(d)) by {
        assert(a.subrange(0, 1) =~= "+"@);
        assert(d.subrange(0, 1) =~= "-"@);
    }
    if "+++"@.is_prefix_of(a) {
        assert(a[1] == "+++"@[1] && a[2] == "+++"@[2]);
        assert("++"@ =~= t.subrange(0, 2));
    }
    if "---"@.is_prefix_of(d) {
        assert(d[1] == "---"@[1] && d[2] == "---"@[2]);
        assert("--"@ =~= t.subrange(0, 2));
    }
    let s = seq![' '] + t;
    assert(s[0] == ' ' && a[0] == '+' && d[0] == '-');
    assert("+"@[0] == '+' && "-"@[0] == '-');
    let h = "+++ "@ + t;
    let k = "--- "@ + t;
    assert("+++"@ =~= h.subrange(0, 3));
    assert("---"@ =~= k.subrange(0, 3));
}

/// A line of a diff is read by its mark.
pub proof fn law_marked_line_is_read(t: Seq<char>)
    ensures
        hunk_line(seq!['+'] + t) == Some((DiffLineKind::Add, t)),
        hunk_line(seq!['-'] + t) == Some((DiffLineKind::Remove, t)),
        hunk_line(seq![' '] + t) == Some((DiffLineKind::Context, t)),
        hunk_line(seq!['\\'] + t) is None,
{
    assert((seq!['+'] + t).skip(1) =~= t);
    assert((seq!['-'] + t).skip(1) =~= t);
    assert((seq![' '] + t).skip(1) =~= t);
}

proof fn lemma_range_is_read(start: nat, count: nat)
    requires
        start <= usize::MAX,
        count <= usize::MAX,
    ensures
        hunk_range(decimal(start) + ","@ + decimal(count)) == (start, count),
{
    reveal_strlit(",");
    law_decimal_reads_back(start, usize::MAX as nat);
    law_decimal_reads_back(count, usize::MAX as nat);
    lemma_decimal_chars(start);
    law_contained_text_stands_somewhere(decimal(start), ","@);
    assert(!contains_text(decimal(start), ","@)) by {
        if contains_text(decimal(start), ","@) {
            let i = choose|i: int| matches_at(decimal(start), ","@, i);
            assert(decimal(start).subrange(i, i + 1)[0] == ',');
            assert(is_digit(decimal(start)[i]));
        }
    }
    lemma_tag_found(decimal(start), ","@, decimal(count));
}

proof fn lemma_decimal_chars(n: nat)
    ensures
        decimal(n).len() > 0,
        forall|i: int| 0 <= i < decimal(n).len() ==> is_digit(#[trigger] decimal(n)[i]),
    decreases n,
{
    if n >= 10 {
        lemma_decimal_chars(n / 10);
        let d = n % 10;
        assert(digit_char(d) == ((d + 48) as u8) as char);
        assert(is_digit(digit_char(d)));
    } else {
        assert(is_digit(digit_char(n)));
    }
}

proof fn lemma_no_space(s: Seq<char>, f: spec_fn(char) -> bool)
    requires
        f == (|c: char| is_space(c)),
        forall|i: int| 0 <= i < s.len() ==> !is_space(#[trigger] s[i]),
    ensures
        split_by(s, f) == seq![s],
{
    lemma_split_none(s, f);
}

proof fn lemma_word_added(a: Seq<char>, w: Seq<char>)
    requires
        w.len() > 0,
        forall|i: int| 0 <= i < w.len() ==> !is_space(#[trigger] w[i]),
        a.len() == 0 || is_space(a.last()),
    ensures
        words(a + w) == words(a).push(w),
        words(a + w + seq![' ']) == words(a).push(w),
{
    let f = |c: char| is_space(c);
    lemma_split_by_len(a, f);
    let p = split_by(a, f);
    assert(p.last().len() == 0) by {
        if a.len() > 0 {
            assert(f(a.last()));
        }
    }
    lemma_split_concat(a, w, f);
    assert(p.last() + w =~= w);
    lemma_no_space(w, f);
    let q = p.drop_last() + seq![w];
    assert(split_by(a + w, f) == q);
    assert(q.drop_last() =~= p.drop_last());
    assert(q.last() == w);
    assert(non_empty(q) == non_empty(p.drop_last()).push(w));
    assert(non_empty(p) == non_empty(p.drop_last()));
    let y = a + w + seq![' '];
    assert(y.drop_last() =~= a + w);
    assert(f(y.last()));
    let r = split_by(y, f);
    assert(r == q.push(Seq::empty()));
    assert(r.drop_last() =~= q);
    assert(non_empty(r) == non_empty(q));
}

proof fn lemma_header_words(x: Seq<char>, y: Seq<char>)
    requires
        x.len() > 0,
        y.len() > 0,
        forall|i: int| 0 <= i < x.len() ==> !is_space(#[trigger] x[i]),
        forall|i: int| 0 <= i < y.len() ==> !is_space(#[trigger] y[i]),
    ensures
        words("@@ "@ + x + seq![' '] + y + " @@"@) == seq!["@@"@, x, y, "@@"@],
{
    reveal_strlit("@@ ");
    reveal_strlit(" @@");
    reveal_strlit("@@");
    let none = Seq::<char>::empty();
    let at = "@@"@;
    assert(words(none) =~= Seq::<Seq<char>>::empty()) by {
        let f = |c: char| is_space(c);
        assert(split_by(none, f) =~= seq![none]);
        assert(seq![none].drop_last() =~= Seq::<Seq<char>>::empty());
        reveal_with_fuel(non_empty, 2);
        assert(non_empty(seq![none]) =~= Seq::<Seq<char>>::empty());
    }
    lemma_word_added(none, at);
    let a = none + at + seq![' '];
    lemma_word_added(a, x);
    let b = a + x + seq![' '];
    lemma_word_added(b, y);
    let c = b + y + seq![' '];
    lemma_word_added(c, at);
    assert(c + at =~= "@@ "@ + x + seq![' '] + y + " @@"@);
    assert(words(c + at) =~= seq![at, x, y, at]);
}

/// The header of a hunk tells where it starts and how many lines it has, on each side.
pub proof fn law_hunk_header_is_read(os: nat, oc: nat, ns: nat, nc: nat)
    requires
        os <= usize::MAX,
        oc <= usize::MAX,
        ns <= usize::MAX,
        nc <= usize::MAX,
    ensures
        header_hunk(hunk_header(os, oc, ns, nc).drop_last()) == Ok::<HunkView, Failure>(
            HunkView {
                orig_start: os,
                orig_count: oc,
                new_start: ns,
                new_count: nc,
                lines: Seq::empty(),
            },
        ),
        hunk_header(os, oc, ns, nc).last() == '\n',
        on_one_line(hunk_header(os, oc, ns, nc).drop_last()),
        "@@"@.is_prefix_of(hunk_header(os, oc, ns, nc).drop_last()),
{
    reveal_strlit("@@ -");
    reveal_strlit(",");
    reveal_strlit(" +");
    reveal_strlit(" @@\n");
    reveal_strlit("@@ ");
    reveal_strlit(" @@");
    reveal_strlit("@@");
    lemma_decimal_chars(os);
    lemma_decimal_chars(oc);
    lemma_decimal_chars(ns);
    lemma_decimal_chars(nc);
    let a = decimal(os) + ","@ + decimal(oc);
    let b = decimal(ns) + ","@ + decimal(nc);
    let x = seq!['-'] + a;
    let y = seq!['+'] + b;
    let h = hunk_header(os, oc, ns, nc);
    let line = "@@ "@ + x + seq![' '] + y + " @@"@;
    assert(h =~= line + seq!['\n']);
    assert(h.drop_last() =~= line);
    assert forall|i: int| 0 <= i < x.len() implies !is_space(#[trigger] x[i]) && x[i] != '\n'
        && x[i] != '\r' by {
        lemma_range_char(os, oc, i - 1);
    }
    assert forall|i: int| 0 <= i < y.len() implies !is_space(#[trigger] y[i]) && y[i] != '\n'
        && y[i] != '\r' by {
        lemma_range_char(ns, nc, i - 1);
    }
    lemma_header_words(x, y);
    assert(x.drop_first() =~= a && y.drop_first() =~= b);
    assert(is_digit(a[0]) && is_digit(b[0])) by {
        assert(is_digit(decimal(os)[0]) && is_digit(decimal(ns)[0]));
    }
    assert(without_leading(a, '-') == a);
    assert(without_leading(b, '+') == b);
    assert(without_leading(x, '-') == a);
    assert(without_leading(y, '+') == b);
    lemma_range_is_read(os, oc);
    lemma_range_is_read(ns, nc);
    assert("@@"@ =~= line.subrange(0, 2));
    lemma_plain_line(x, y, line);
}

proof fn lemma_plain_line(x: Seq<char>, y: Seq<char>, line: Seq<char>)
    requires
        line == "@@ "@ + x + seq![' '] + y + " @@"@,
        forall|i: int| 0 <= i < x.len() ==> #[trigger] x[i] != '\n' && x[i] != '\r',
        forall|i: int| 0 <= i < y.len() ==> #[trigger] y[i] != '\n' && y[i] != '\r',
    ensures
        on_one_line(line),
{
    reveal_strlit("@@ ");
    reveal_strlit(" @@");
    let n = x.len() as int;
    let m = y.len() as int;
    assert forall|i: int| 0 <= i < line.len() implies #[trigger] line[i] != '\n' && line[i]
        != '\r' by {
        if 3 <= i < 3 + n {
            assert(line[i] == x[i - 3]);
        } else if 4 + n <= i < 4 + n + m {
            assert(line[i] == y[i - 4 - n]);
        } else if i >= 4 + n + m {
            assert(line[i] == " @@"@[i - 4 - n - m]);
        } else if i < 3 {
            assert(line[i] == "@@ "@[i]);
        }
    }
}

proof fn lemma_range_char(start: nat, count: nat, i: int)
    ensures
        0 <= i < (decimal(start) + ","@ + decimal(count)).len() ==> ({
            let c = (decimal(start) + ","@ + decimal(count))[i];
            !is_space(c) && c != '\n' && c != '\r'
        }),
{
    reveal_strlit(",");
    lemma_decimal_chars(start);
    lemma_decimal_chars(count);
    let n = decimal(start).len() as int;
    let s = decimal(start) + ","@ + decimal(count);
    if 0 <= i < s.len() {
        if i < n {
            assert(is_digit(decimal(start)[i]));
        } else if i > n {
            assert(is_digit(decimal(count)[i - n - 1]));
        }
    }
}

proof fn lemma_hunk_lines(
    v: Seq<Seq<char>>,
    d: Seq<(DiffLineKind, Seq<char>)>,
    h: HunkView,
    hunks: Seq<HunkView>,
)
    requires
        hunk_state(v) == (HunkState { hunks: hunks.push(h), open: true, error: None }),
    ensures
        hunk_state(
            v + d.map_values(|l: (DiffLineKind, Seq<char>)| seq![mark(l.0)] + l.1),
        ) == (HunkState {
            hunks: hunks.push(HunkView { lines: h.lines + d, ..h }),
            open: true,
            error: None,
        }),
    decreases d.len(),
{
    let g = |l: (DiffLineKind, Seq<char>)| seq![mark(l.0)] + l.1;
    if d.len() == 0 {
        assert(v + d.map_values(g) =~= v);
        assert(h.lines + d =~= h.lines);
    } else {
        let e = d.drop_last();
        lemma_hunk_lines(v, e, h, hunks);
        let l = d.last();
        let line = seq![mark(l.0)] + l.1;
        let all = v + d.map_values(g);
        assert(all.drop_last() =~= v + e.map_values(g));
        assert(all.last() == line);
        assert(line.skip(1) =~= l.1);
        reveal_strlit("@@");
        reveal_strlit("diff ");
        assert(line[0] == mark(l.0));
        assert(!starts_with_spec(line, "@@"@)) by {
            assert("@@"@[0] == '@');
        }
        assert(!starts_with_spec(line, "diff "@)) by {
            assert("diff "@[0] == 'd');
        }
        assert(hunk_line(line) == Some(l));
        let before = HunkView { lines: h.lines + e, ..h };
        assert(hunks.push(before).drop_last() =~= hunks);
        assert((h.lines + e).push(l) =~= h.lines + d);
    }
}

proof fn lemma_lines_have_no_end(s: Seq<char>)
    requires
        !s.contains('\r'),
    ensures
        forall|i: int| 0 <= i < lines(s).len() ==> on_one_line(#[trigger] lines(s)[i]),
{
    law_lines_are_of_the_text(s);
    assert forall|i: int| 0 <= i < lines(s).len() implies on_one_line(#[trigger] lines(s)[i]) by {
        lemma_line_plain(s, i);
    }
}

proof fn lemma_line_plain(s: Seq<char>, i: int)
    requires
        !s.contains('\r'),
        0 <= i < lines(s).len(),
    ensures
        on_one_line(lines(s)[i]),
{
    law_split_pieces_join(s, '\n');
    law_lines_are_of_the_text(s);
}

/// The diff of two texts, written and read again, is one hunk that covers both and holds their
/// diff, line by line.
pub proof fn law_diff_reads_back(path: Seq<char>, old_text: Seq<char>, new_text: Seq<char>)
    requires
        on_one_line(path),
        !old_text.contains('\r'),
        !new_text.contains('\r'),
        lines(old_text).len() <= usize::MAX,
        lines(new_text).len() <= usize::MAX,
    ensures
        diff_hunks(full_diff(path, old_text, new_text)) == Ok::<Seq<HunkView>, Failure>(
            seq![
                HunkView {
                    orig_start: 1,
                    orig_count: lines(old_text).len(),
                    new_start: 1,
                    new_count: lines(new_text).len(),
                    lines: diff_from(lines(old_text), lines(new_text), 0, 0),
                },
            ],
        ),
{
    let a = lines(old_text);
    let b = lines(new_text);
    let d = diff_from(a, b, 0, 0);
    lemma_lines_have_no_end(old_text);
    lemma_lines_have_no_end(new_text);
    lemma_diff_of_lines(a, b, 0, 0);
    let none = Seq::<char>::empty();
    reveal_strlit("--- ");
    reveal_strlit("\n+++ ");
    reveal_strlit("+++ ");
    reveal_strlit("\n");
    reveal_strlit("@@");
    assert("\n+++ "@ =~= seq!['\n'] + "+++ "@);
    assert("\n"@ =~= seq!['\n']);
    let first = "--- "@ + path;
    let second = "+++ "@ + path;
    lemma_name_line("--- "@, path);
    lemma_name_line("+++ "@, path);
    lemma_line_added(none, first);
    let x = none + first + seq!['\n'];
    lemma_line_added(x, second);
    let y = x + second + seq!['\n'];
    assert(y =~= file_header(path));
    law_hunk_header_is_read(1, a.len(), 1, b.len());
    let h = hunk_header(1, a.len(), 1, b.len());
    let third = h.drop_last();
    lemma_line_added(y, third);
    let z = y + third + seq!['\n'];
    assert(z =~= file_header(path) + h);
    law_diff_is_written(z, d);
    assert(full_diff(path, old_text, new_text) =~= z + marked_lines(d));
    assert(lines(none) =~= Seq::<Seq<char>>::empty());
    let head = lines(none).push(first).push(second).push(third);
    let g = |l: (DiffLineKind, Seq<char>)| seq![mark(l.0)] + l.1;
    let g2 = |l: (DiffLineKind, Seq<char>)|
        seq![
            match l.0 {
                DiffLineKind::Context => ' ',
                DiffLineKind::Add => '+',
                DiffLineKind::Remove => '-',
            },
        ] + l.1;
    assert(d.map_values(g) =~= d.map_values(g2));
    assert(lines(full_diff(path, old_text, new_text)) == head + d.map_values(g));
    let hunk = HunkView {
        orig_start: 1,
        orig_count: a.len(),
        new_start: 1,
        new_count: b.len(),
        lines: Seq::empty(),
    };
    assert(head.drop_last() =~= lines(none).push(first).push(second));
    assert(head.drop_last().drop_last() =~= lines(none).push(first));
    assert(head.drop_last().drop_last().drop_last() =~= lines(none));
    assert(!starts_with_spec(first, "@@"@) && !starts_with_spec(second, "@@"@)) by {
        assert(first[0] == '-' && second[0] == '+' && "@@"@[0] == '@');
    }
    reveal_with_fuel(hunk_state, 4);
    let hunks = Seq::<HunkView>::empty();
    assert(hunk_state(head).hunks =~= hunks.push(hunk));
    lemma_hunk_lines(head, d, hunk, hunks);
    assert(hunk.lines + d =~= d);
    assert(hunks.push(HunkView { lines: d, ..hunk }) =~= seq![HunkView { lines: d, ..hunk }]);
}

proof fn lemma_name_line(start: Seq<char>, path: Seq<char>)
    requires
        on_one_line(path),
        on_one_line(start),
    ensures
        on_one_line(start + path),
{
    let s = start + path;
    assert forall|c: char| s.contains(c) implies start.contains(c) || path.contains(c) by {
        let k = choose|k: int| 0 <= k < s.len() && s[k] == c;
        if k < start.len() {
            assert(start[k] == c);
        } else {
            assert(path[k - start.len()] == c);
        }
    }
}

proof fn lemma_diff_of_lines(a: Seq<Seq<char>>, b: Seq<Seq<char>>, i: int, j: int)
    requires
        0 <= i <= a.len(),
        0 <= j <= b.len(),
        forall|k: int| 0 <= k < a.len() ==> on_one_line(#[trigger] a[k]),
        forall|k: int| 0 <= k < b.len() ==> on_one_line(#[trigger] b[k]),
    ensures
        forall|k: int|
            0 <= k < diff_from(a, b, i, j).len() ==> on_one_line(
                (#[trigger] diff_from(a, b, i, j)[k]).1,
            ),
    decreases a.len() - i + b.len() - j,
{
    if i < a.len() {
        lemma_diff_of_lines(a, b, i + 1, j);
    }
    if j < b.len() {
        lemma_diff_of_lines(a, b, i, j + 1);
    }
    if i < a.len() && j < b.len() {
        lemma_diff_of_lines(a, b, i + 1, j + 1);
    }
    let d = diff_from(a, b, i, j);
    assert forall|k: int| 0 <= k < d.len() implies on_one_line((#[trigger] d[k]).1) by {
        let rest = d.drop_first();
        if k == 0 {
            assert(i < a.len() ==> on_one_line(a[i]));
            assert(j < b.len() ==> on_one_line(b[j]));
        } else {
            assert(d[k] == rest[k - 1]);
            if i >= a.len() {
                assert(rest =~= diff_from(a, b, i, j + 1));
            } else if j >= b.len() {
                assert(rest =~= diff_from(a, b, i + 1, j));
            } else if a[i] == b[j] {
                assert(rest =~= diff_from(a, b, i + 1, j + 1));
            } else if lcs(a, b, i + 1, j) >= lcs(a, b, i, j + 1) {
                assert(rest =~= diff_from(a, b, i + 1, j));
            } else {
                assert(rest =~= diff_from(a, b, i, j + 1));
            }
        }
    }
}

/// How many lines of the old text some lines of a diff cover.
pub open spec fn old_lines(d: Seq<(DiffLineKind, Seq<char>)>) -> nat {
    d.filter(|l: (DiffLineKind, Seq<char>)| l.0 != DiffLineKind::Add).len()
}

/// How many lines of the new text some lines of a diff cover.
pub open spec fn new_lines(d: Seq<(DiffLineKind, Seq<char>)>) -> nat {
    d.filter(|l: (DiffLineKind, Seq<char>)| l.0 != DiffLineKind::Remove).len()
}

/// The number that line `i` of a hunk is shown with: that of an added line in the new text, and of
/// every other one in the old text.
pub open spec fn shown_number(h: HunkView, i: int) -> nat {
    if h.lines[i].0 == DiffLineKind::Add {
        h.new_start + new_lines(h.lines.take(i))
    } else {
        h.orig_start + old_lines(h.lines.take(i))
    }
}

proof fn lemma_preview_lines(p: Preview, h: HunkView, width: nat, n: int)
    requires
        0 <= n <= h.lines.len(),
        !p.full,
        p.shown + h.lines.len() <= 8,
        p.old_line == h.orig_start,
        p.new_line == h.new_start,
        h.orig_start + h.lines.len() <= usize::MAX,
        h.new_start + h.lines.len() <= usize::MAX,
    ensures
        ({
            let q = preview_lines(p, h.lines.take(n), width);
            &&& q.out == p.out + Seq::new(
                n as nat,
                |i: int| preview_line(h.lines[i].0, shown_number(h, i), h.lines[i].1, width),
            )
            &&& !q.full
            &&& q.shown == p.shown + n
            &&& q.old_line == h.orig_start + old_lines(h.lines.take(n))
            &&& q.new_line == h.new_start + new_lines(h.lines.take(n))
            &&& old_lines(h.lines.take(n)) <= n
            &&& new_lines(h.lines.take(n)) <= n
        }),
    decreases n,
{
    reveal(Seq::filter);
    let v = h.lines.take(n);
    if n == 0 {
        assert(preview_lines(p, v, width).out =~= p.out + Seq::new(
            0,
            |i: int| preview_line(h.lines[i].0, shown_number(h, i), h.lines[i].1, width),
        ));
    } else {
        lemma_preview_lines(p, h, width, n - 1);
        assert(v.drop_last() =~= h.lines.take(n - 1));
        assert(v.last() == h.lines[n - 1]);
        let q = preview_lines(p, v, width);
        assert(q.out =~= p.out + Seq::new(
            n as nat,
            |i: int| preview_line(h.lines[i].0, shown_number(h, i), h.lines[i].1, width),
        ));
    }
}

/// A diff of one short hunk is shown line by line, each with its own number, text and mark.
pub proof fn law_preview_numbers_lines(path: Seq<char>, diff: Seq<char>, h: HunkView)
    requires
        diff_hunks(diff) == Ok::<Seq<HunkView>, Failure>(seq![h]),
        0 < h.lines.len() <= 8,
        h.orig_start + h.lines.len() <= usize::MAX,
        h.new_start + h.lines.len() <= usize::MAX,
    ensures
        diff_preview(path, diff) == join(
            Seq::new(
                h.lines.len(),
                |i: int|
                    preview_line(
                        h.lines[i].0,
                        shown_number(h, i),
                        h.lines[i].1,
                        decimal(greatest_line(seq![h], 1)).len(),
                    ),
            ),
            seq!['\n'],
        ),
{
    reveal_strlit("\n");
    assert("\n"@ =~= seq!['\n']);
    let v = seq![h];
    let width = decimal(greatest_line(v, 1)).len();
    let empty = Preview {
        out: Seq::empty(),
        shown: 0,
        full: false,
        old_line: 0,
        new_line: 0,
    };
    let start = Preview { old_line: h.orig_start, new_line: h.new_start, ..empty };
    let n = h.lines.len() as int;
    lemma_preview_lines(start, h, width, n);
    assert(h.lines.take(n) =~= h.lines);
    assert(preview_hunks(v, width, 0) == empty);
    assert(preview_hunks(v, width, 1) == preview_lines(start, h.lines, width));
    assert(line_total(v, 0) == 0);
    assert(line_total(v, 1) == h.lines.len());
    let shown = Seq::new(
        h.lines.len(),
        |i: int| preview_line(h.lines[i].0, shown_number(h, i), h.lines[i].1, width),
    );
    assert(preview_hunks(v, width, 1).out =~= shown);
}

/// A shown line holds its number and ends with its text, cut where it is long.
pub proof fn law_preview_line_tells(kind: DiffLineKind, n: nat, content: Seq<char>, width: nat)
    ensures
        contains_text(preview_line(kind, n, content, width), decimal(n)),
        content.len() <= 120 ==> (content + RESET@).is_suffix_of(
            preview_line(kind, n, content, width),
        ),
        content.len() > 120 ==> (content.take(120) + "..."@ + RESET@).is_suffix_of(
            preview_line(kind, n, content, width),
        ),
        kind == DiffLineKind::Add ==> contains_text(
            preview_line(kind, n, content, width),
            BRIGHT_GREEN@ + "+"@,
        ),
        kind == DiffLineKind::Remove ==> contains_text(
            preview_line(kind, n, content, width),
            BRIGHT_RED@ + "-"@,
        ),
{
    let label = right_aligned(decimal(n), width);
    let text = clipped(content, 120);
    let space = " "@;
    match kind {
        DiffLineKind::Context => {
            lemma_shown_parts(DIM@, n, width, space, space, space, text);
        },
        DiffLineKind::Remove => {
            lemma_shown_parts(REMOVE_BG@ + GUTTER@, n, width, space + BRIGHT_RED@, "-"@, space, text);
            lemma_shown_sign(REMOVE_BG@ + GUTTER@ + label + space, BRIGHT_RED@, "-"@, space, text);
            assert(REMOVE_BG@ + GUTTER@ + label + (space + BRIGHT_RED@) =~= REMOVE_BG@ + GUTTER@
                + label + space + BRIGHT_RED@);
        },
        DiffLineKind::Add => {
            lemma_shown_parts(ADD_BG@ + GUTTER@, n, width, space + BRIGHT_GREEN@, "+"@, space, text);
            lemma_shown_sign(ADD_BG@ + GUTTER@ + label + space, BRIGHT_GREEN@, "+"@, space, text);
            assert(ADD_BG@ + GUTTER@ + label + (space + BRIGHT_GREEN@) =~= ADD_BG@ + GUTTER@
                + label + space + BRIGHT_GREEN@);
        },
    }
}

proof fn lemma_shown_parts(
    start: Seq<char>,
    n: nat,
    width: nat,
    a: Seq<char>,
    b: Seq<char>,
    c: Seq<char>,
    text: Seq<char>,
)
    ensures
        ({
            let line = start + right_aligned(decimal(n), width) + a + b + c + text + RESET@;
            contains_text(line, decimal(n)) && (text + RESET@).is_suffix_of(line)
        }),
{
    let pad = repeat(" "@, pad_len(width, decimal(n).len()));
    let head = start + right_aligned(decimal(n), width) + a + b + c;
    let line = head + text + RESET@;
    assert(line =~= head + (text + RESET@));
    let rest = a + b + c + text + RESET@;
    assert(line =~= (start + pad) + decimal(n) + rest);
    lemma_contained(start + pad, decimal(n), rest);
}

proof fn lemma_shown_sign(
    head: Seq<char>,
    colour: Seq<char>,
    sign: Seq<char>,
    space: Seq<char>,
    text: Seq<char>,
)
    ensures
        contains_text(head + colour + sign + space + text + RESET@, colour + sign),
{
    let rest = space + text + RESET@;
    assert(head + colour + sign + space + text + RESET@ =~= head + (colour + sign) + rest);
    lemma_contained(head, colour + sign, rest);
}

} // verus!
