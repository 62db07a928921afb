//! What is shown of markdown: its text, in order, with the styles that its marks ask for.

use crate::ansi::{
    BLUE, BOLD, CYAN, DIM, ESC, GREEN, ITALIC, MAGENTA, RESET, STRIKETHROUGH, UNDERLINE,
    YELLOW,
};
use crate::render::{
    Inline, RULE_WIDTH, all_digits, char_at, closing1, code_lang, code_line, comment_at,
    digit_count, document, document_from, ends_lang, fence, fence_label, fence_lang,
    footnote_label, footnote_marker, hash_count, header, highlight_from, highlighted,
    horizontal_rule, ident_end, ident_start, indent_of, inline_at, inline_end, inline_from,
    item_text, keywords, lang_end, law_no_thinking_without_tag, lemma_ident_end,
    lemma_inline_at, lemma_number_end, lemma_quote_end, literals, message_text, number_end,
    quote_bars, quote_depth, quote_end, single_line, status_text, sticky, table_end,
    table_start, table_text, task_marker, think_parts, without_ticks, word_text,
};
use crate::session::short;
use crate::text::{
    all_in, contains_text, find_from, in_list, is_blank, is_digit, is_space, join,
    lemma_find_from, lines, matches_at, only_digits, repeat, replaced, replaced_from,
    split_once_spec, starts_with_spec, trimmed, trimmed_end, trimmed_start,
};
use crate::text_laws::{all_space, law_trimming_takes_space_only};
use vstd::prelude::*;

verus! {

/// Whether a text holds none of the characters that start inline markdown.
pub open spec fn unmarked(s: Seq<char>) -> bool {
    !s.contains('`') && !s.contains('[') && !s.contains('*') && !s.contains('~')
}

pub(crate) proof fn lemma_first_place(s: Seq<char>, p: Seq<char>, i: int, k: int)
    requires
        0 <= i <= k,
        matches_at(s, p, k),
        forall|m: int| i <= m < k ==> !matches_at(s, p, m),
    ensures
        find_from(s, p, i) == Some(k),
{
    lemma_find_from(s, p, i);
}

proof fn lemma_find_shift(a: Seq<char>, s: Seq<char>, p: Seq<char>, i: int)
    requires
        0 <= i,
    ensures
        find_from(a + s, p, a.len() + i) == match find_from(s, p, i) {
            Some(k) => Some(a.len() + k),
            None => None,
        },
    decreases s.len() + 1 - i,
{
    if i + p.len() <= s.len() {
        assert((a + s).subrange(a.len() + i, a.len() + i + p.len()) =~= s.subrange(i, i + p.len()));
        if !matches_at(s, p, i) {
            lemma_find_shift(a, s, p, i + 1);
        }
    }
}

spec fn shifted(t: Inline, d: int) -> Inline {
    match t {
        Inline::Code(a, b) => Inline::Code(a + d, b + d),
        Inline::Footnote(a, b) => Inline::Footnote(a + d, b + d),
        Inline::Link(a, b, c, e) => Inline::Link(a + d, b + d, c + d, e + d),
        Inline::BoldItalic(a, b) => Inline::BoldItalic(a + d, b + d),
        Inline::Strike(a, b) => Inline::Strike(a + d, b + d),
        Inline::Bold(a, b) => Inline::Bold(a + d, b + d),
        Inline::Italic(a, b) => Inline::Italic(a + d, b + d),
        Inline::Plain => Inline::Plain,
    }
}

proof fn lemma_inline_at_shift(a: Seq<char>, s: Seq<char>, i: int)
    requires
        0 <= i < s.len(),
    ensures
        inline_at(a + s, a.len() + i) == shifted(inline_at(s, i), a.len() as int),
{
    let n = a.len() as int;
    assert forall|k: int, c: char| 0 <= k implies #[trigger] char_at(s, k, c) == char_at(
        a + s,
        n + k,
        c,
    ) by {}
    lemma_find_shift(a, s, seq!['`'], i + 1);
    lemma_find_shift(a, s, seq![']'], i + 1);
    lemma_find_shift(a, s, seq![']'], i + 2);
    lemma_find_from(s, seq![']'], i + 1);
    if let Some(k) = closing1(s, i + 1, ']') {
        lemma_find_shift(a, s, seq![')'], k + 2);
        assert(char_at(s, k + 1, '(') == char_at(a + s, n + k + 1, '('));
    }
    lemma_find_shift(a, s, seq!['*'], i + 1);
    lemma_find_shift(a, s, seq!['*', '*'], i + 2);
    lemma_find_shift(a, s, seq!['~', '~'], i + 2);
    lemma_find_shift(a, s, seq!['*', '*', '*'], i + 3);
    assert(char_at(s, i, '`') == char_at(a + s, n + i, '`'));
    assert(char_at(s, i, '[') == char_at(a + s, n + i, '['));
    assert(char_at(s, i, '*') == char_at(a + s, n + i, '*'));
    assert(char_at(s, i, '~') == char_at(a + s, n + i, '~'));
    assert(char_at(s, i + 1, '^') == char_at(a + s, n + i + 1, '^'));
    assert(char_at(s, i + 1, '*') == char_at(a + s, n + i + 1, '*'));
    assert(char_at(s, i + 1, '~') == char_at(a + s, n + i + 1, '~'));
    assert(char_at(s, i + 2, '*') == char_at(a + s, n + i + 2, '*'));
}

proof fn lemma_inline_shift(a: Seq<char>, s: Seq<char>, i: int)
    requires
        0 <= i,
    ensures
        inline_from(a + s, a.len() + i) == inline_from(s, i),
    decreases s.len() - i,
{
    if i < s.len() {
        let n = a.len() as int;
        lemma_inline_at_shift(a, s, i);
        lemma_inline_at(s, i);
        let t = inline_at(s, i);
        lemma_inline_shift(a, s, inline_end(t, i));
        match t {
            Inline::Code(x, y)
            | Inline::Footnote(x, y)
            | Inline::BoldItalic(x, y)
            | Inline::Strike(x, y)
            | Inline::Bold(x, y)
            | Inline::Italic(x, y) => {
                assert((a + s).subrange(n + x, n + y) =~= s.subrange(x, y));
            },
            Inline::Link(x, y, z, w) => {
                assert((a + s).subrange(n + x, n + y) =~= s.subrange(x, y));
                assert((a + s).subrange(n + z, n + w) =~= s.subrange(z, w));
            },
            Inline::Plain => {},
        }
    }
}

/// Text without marks is shown as it is, and what follows it as if it stood alone.
pub proof fn law_unmarked_text_is_shown(a: Seq<char>, rest: Seq<char>)
    requires
        unmarked(a),
    ensures
        crate::render::inline(a + rest) == a + crate::render::inline(rest),
        crate::render::inline(a) == a,
    decreases a.len(),
{
    let none = Seq::<char>::empty();
    if a.len() == 0 {
        assert(a + rest =~= rest);
        assert(a + crate::render::inline(rest) =~= crate::render::inline(rest));
        assert(crate::render::inline(a) =~= a);
    } else {
        let b = a.drop_first();
        let head = seq![a[0]];
        assert(a.contains(a[0]));
        assert forall|c: char| b.contains(c) implies a.contains(c) by {
            let k = choose|k: int| 0 <= k < b.len() && b[k] == c;
            assert(a[k + 1] == c);
        }
        law_unmarked_text_is_shown(b, rest);
        assert(a + rest =~= head + (b + rest));
        lemma_inline_shift(head, b + rest, 0);
        assert(inline_at(a + rest, 0) is Plain);
        assert(crate::render::inline(a + rest) =~= a + crate::render::inline(rest));
        assert(a =~= head + b);
        lemma_inline_shift(head, b, 0);
        assert(inline_at(a, 0) is Plain);
        assert(crate::render::inline(a) =~= a);
    }
}

proof fn lemma_place_after(a: Seq<char>, t: Seq<char>, p: Seq<char>, rest: Seq<char>)
    requires
        p.len() > 0,
        !t.contains(p[0]),
    ensures
        find_from(a + t + p + rest, p, a.len() as int) == Some((a.len() + t.len()) as int),
{
    let s = a + t + p + rest;
    let k = (a.len() + t.len()) as int;
    assert(s.subrange(k, k + p.len()) =~= p);
    assert forall|m: int| a.len() <= m < k implies !matches_at(s, p, m) by {
        if matches_at(s, p, m) {
            assert(s.subrange(m, m + p.len())[0] == s[m]);
            assert(t[m - a.len()] == p[0]);
        }
    }
    lemma_first_place(s, p, a.len() as int, k);
}

/// What stands between marks is shown in the style that the marks ask for, without them, and what
/// follows as if it stood alone.
pub proof fn law_marked_text_is_styled(t: Seq<char>, rest: Seq<char>)
    requires
        t.len() > 0,
    ensures
        !t.contains('`') ==> crate::render::inline("`"@ + t + "`"@ + rest) == YELLOW@ + t + RESET@
            + crate::render::inline(rest),
        !t.contains('*') ==> crate::render::inline("*"@ + t + "*"@ + rest) == ITALIC@ + t + RESET@
            + crate::render::inline(rest),
        !t.contains('*') ==> crate::render::inline("**"@ + t + "**"@ + rest) == BOLD@ + t + RESET@
            + crate::render::inline(rest),
        !t.contains('*') ==> crate::render::inline("***"@ + t + "***"@ + rest) == BOLD@ + ITALIC@
            + t + RESET@ + crate::render::inline(rest),
        !t.contains('~') ==> crate::render::inline("~~"@ + t + "~~"@ + rest) == STRIKETHROUGH@ + t
            + RESET@ + crate::render::inline(rest),
        !t.contains(']') ==> crate::render::inline("[^"@ + t + "]"@ + rest) == footnote_marker(t)
            + crate::render::inline(rest),
{
    reveal_strlit("`");
    reveal_strlit("*");
    reveal_strlit("**");
    reveal_strlit("***");
    reveal_strlit("~~");
    reveal_strlit("[^");
    reveal_strlit("]");
    assert("`"@ =~= seq!['`']);
    assert("*"@ =~= seq!['*']);
    assert("**"@ =~= seq!['*', '*']);
    assert("***"@ =~= seq!['*', '*', '*']);
    assert("~~"@ =~= seq!['~', '~']);
    assert("[^"@ =~= seq!['[', '^']);
    assert("]"@ =~= seq![']']);
    assert(t.contains(t[0]));
    if !t.contains('`') {
        lemma_place_after("`"@, t, "`"@, rest);
        lemma_styled("`"@, t, "`"@, rest);
    }
    if !t.contains('*') {
        lemma_place_after("*"@, t, "*"@, rest);
        lemma_styled("*"@, t, "*"@, rest);
        lemma_place_after("**"@, t, "**"@, rest);
        lemma_styled("**"@, t, "**"@, rest);
        lemma_place_after("***"@, t, "***"@, rest);
        lemma_styled("***"@, t, "***"@, rest);
    }
    if !t.contains('~') {
        lemma_place_after("~~"@, t, "~~"@, rest);
        lemma_styled("~~"@, t, "~~"@, rest);
    }
    if !t.contains(']') {
        lemma_place_after("[^"@, t, "]"@, rest);
        lemma_styled("[^"@, t, "]"@, rest);
    }
}

proof fn lemma_styled(a: Seq<char>, t: Seq<char>, b: Seq<char>, rest: Seq<char>)
    ensures
        ({
            let s = a + t + b + rest;
            &&& s.subrange(a.len() as int, (a.len() + t.len()) as int) == t
            &&& inline_from(s, (a.len() + t.len() + b.len()) as int) == crate::render::inline(rest)
            &&& forall|k: int| 0 <= k < a.len() ==> #[trigger] s[k] == a[k]
            &&& t.len() > 0 ==> s[a.len() as int] == t[0]
        }),
{
    let s = a + t + b + rest;
    assert(s.subrange(a.len() as int, (a.len() + t.len()) as int) =~= t);
    lemma_inline_shift(a + t + b, rest, 0);
}

/// A link shows its label, underlined, with the markdown in it, and its address behind it unless
/// the label is the address.
pub proof fn law_link_is_shown(label: Seq<char>, url: Seq<char>, rest: Seq<char>)
    requires
        label.len() > 0,
        label[0] != '^',
        !label.contains(']'),
        !url.contains(')'),
    ensures
        ({
            let shown = sticky(UNDERLINE@ + CYAN@, crate::render::inline(label));
            crate::render::inline("["@ + label + "]("@ + url + ")"@ + rest) == shown + (if label
                == url || shown.len() == 0 {
                Seq::empty()
            } else {
                " "@ + DIM@ + CYAN@ + "<"@ + url + ">"@ + RESET@
            }) + crate::render::inline(rest)
        }),
{
    reveal_strlit("[");
    reveal_strlit("](");
    reveal_strlit(")");
    assert("["@ =~= seq!['[']);
    assert("]("@ =~= seq![']', '(']);
    assert(")"@ =~= seq![')']);
    let s = "["@ + label + "]("@ + url + ")"@ + rest;
    let n = label.len() as int;
    let m = url.len() as int;
    lemma_place_after("["@, label, seq![']'], "("@ + url + ")"@ + rest);
    reveal_strlit("(");
    assert("("@ =~= seq!['(']);
    assert(s =~= "["@ + label + seq![']'] + ("("@ + url + ")"@ + rest));
    lemma_place_after("["@ + label + "]("@, url, ")"@, rest);
    assert(s.subrange(1, n + 1) =~= label);
    assert(s.subrange(n + 3, n + 3 + m) =~= url);
    assert(s[0] == '[' && s[1] == label[0] && s[n + 1] == ']' && s[n + 2] == '(');
    lemma_inline_shift("["@ + label + "]("@ + url + ")"@, rest, 0);
    let shown = sticky(UNDERLINE@ + CYAN@, crate::render::inline(label));
    assert(inline_at(s, 0) == Inline::Link(1, n + 1, n + 3, n + 3 + m));
    if label == url || shown.len() == 0 {
        assert(shown + Seq::<char>::empty() =~= shown);
    } else {
        assert(shown + " "@ + DIM@ + CYAN@ + "<"@ + url + ">"@ + RESET@ =~= shown + (" "@ + DIM@
            + CYAN@ + "<"@ + url + ">"@ + RESET@));
    }
}

/// A footnote mark shows its label between brackets; a number in superscript digits, one for each
/// digit.
pub proof fn law_footnote_mark_shows_label(label: Seq<char>, i: int)
    requires
        0 <= i < label.len(),
    ensures
        !only_digits(label) ==> footnote_marker(label) == DIM@ + CYAN@ + "[^"@ + label + "]"@
            + RESET@,
        only_digits(label) ==> exists|d: Seq<char>|
            footnote_marker(label) == #[trigger] (DIM@ + CYAN@ + "⁽"@ + d + "⁾"@ + RESET@)
                && d.len() == label.len() && superscript_of(d[i]) == label[i],
{
    if all_digits(label) {
        let d = footnote_label(label);
        assert(is_digit(label[i]));
        assert(footnote_marker(label) == DIM@ + CYAN@ + "⁽"@ + d + "⁾"@ + RESET@);
        assert(superscript_of(d[i]) == label[i]);
    }
}

/// The digit that a superscript digit stands for.
pub open spec fn superscript_of(c: char) -> char {
    if c == '⁰' {
        '0'
    } else if c == '¹' {
        '1'
    } else if c == '²' {
        '2'
    } else if c == '³' {
        '3'
    } else if c == '⁴' {
        '4'
    } else if c == '⁵' {
        '5'
    } else if c == '⁶' {
        '6'
    } else if c == '⁷' {
        '7'
    } else if c == '⁸' {
        '8'
    } else {
        '9'
    }
}

/// Whether a text that starts inside an escape sequence or outside of one ends inside of one, and
/// what is seen of it: all but its escape sequences, each of which an `m` ends.
pub open spec fn seen(esc: bool, s: Seq<char>) -> (bool, Seq<char>)
    decreases s.len(),
{
    if s.len() == 0 {
        (esc, Seq::empty())
    } else if s[0] == ESC {
        seen(true, s.drop_first())
    } else if esc {
        seen(s[0] != 'm', s.drop_first())
    } else {
        let (end, rest) = seen(false, s.drop_first());
        (end, seq![s[0]] + rest)
    }
}

/// Whether a text is seen as another one.
pub open spec fn seen_as(s: Seq<char>, t: Seq<char>) -> bool {
    seen(false, s) == (false, t)
}

pub(crate) proof fn lemma_seen_concat(esc: bool, a: Seq<char>, b: Seq<char>)
    ensures
        seen(esc, a + b) == (
            seen(seen(esc, a).0, b).0,
            seen(esc, a).1 + seen(seen(esc, a).0, b).1,
        ),
    decreases a.len(),
{
    if a.len() == 0 {
        assert(a + b =~= b);
        assert(seen(esc, a).1 + seen(esc, b).1 =~= seen(esc, b).1);
    } else {
        assert((a + b).drop_first() =~= a.drop_first() + b);
        if a[0] == ESC {
            lemma_seen_concat(true, a.drop_first(), b);
        } else if esc {
            lemma_seen_concat(a[0] != 'm', a.drop_first(), b);
        } else {
            lemma_seen_concat(false, a.drop_first(), b);
            let x = seen(false, a.drop_first());
            assert(seq![a[0]] + (x.1 + seen(x.0, b).1) =~= seq![a[0]] + x.1 + seen(x.0, b).1);
        }
    }
}

pub(crate) proof fn lemma_seen_both(a: Seq<char>, x: Seq<char>, b: Seq<char>, y: Seq<char>)
    requires
        seen_as(a, x),
        seen_as(b, y),
    ensures
        seen_as(a + b, x + y),
{
    lemma_seen_concat(false, a, b);
}

pub(crate) proof fn lemma_seen_plain(s: Seq<char>)
    requires
        !s.contains(ESC),
    ensures
        seen_as(s, s),
    decreases s.len(),
{
    if s.len() > 0 {
        assert(s.contains(s[0]));
        assert forall|c: char| s.drop_first().contains(c) implies s.contains(c) by {
            let k = choose|k: int| 0 <= k < s.drop_first().len() && s.drop_first()[k] == c;
            assert(s[k + 1] == c);
        }
        lemma_seen_plain(s.drop_first());
        assert(seq![s[0]] + s.drop_first() =~= s);
    } else {
        assert(seen(false, s).1 =~= s);
    }
}

proof fn lemma_style_tail(c: char)
    requires
        c != ESC,
        c != 'm',
    ensures
        seen(true, seq![c, 'm']) == (false, Seq::<char>::empty()),
{
    let s = seq![c, 'm'];
    assert(s.drop_first() =~= seq!['m']);
    assert(seq!['m'].drop_first() =~= Seq::<char>::empty());
    assert(seen(true, seq!['m']) == seen(false, Seq::<char>::empty()));
}

proof fn lemma_short_style(esc: bool, s: Seq<char>, c: char)
    requires
        c != ESC,
        c != 'm',
        s == seq![ESC, '[', c, 'm'],
    ensures
        seen(esc, s) == (false, Seq::<char>::empty()),
{
    lemma_style_tail(c);
    let t = s.drop_first();
    assert(t =~= seq!['[', c, 'm']);
    assert(t.drop_first() =~= seq![c, 'm']);
    assert(seen(true, t) == seen(true, seq![c, 'm']));
}

proof fn lemma_long_style(esc: bool, s: Seq<char>, c: char)
    requires
        c != ESC,
        c != 'm',
        s == seq![ESC, '[', '3', c, 'm'],
    ensures
        seen(esc, s) == (false, Seq::<char>::empty()),
{
    lemma_style_tail(c);
    let t = s.drop_first();
    assert(t =~= seq!['[', '3', c, 'm']);
    let u = t.drop_first();
    assert(u =~= seq!['3', c, 'm']);
    assert(u.drop_first() =~= seq![c, 'm']);
    assert(seen(true, u) == seen(true, seq![c, 'm']));
    assert(seen(true, t) == seen(true, u));
}

proof fn lemma_styles()
    ensures
        RESET@ == seq![ESC, '[', '0', 'm'],
        BOLD@ == seq![ESC, '[', '1', 'm'],
        DIM@ == seq![ESC, '[', '2', 'm'],
        ITALIC@ == seq![ESC, '[', '3', 'm'],
        UNDERLINE@ == seq![ESC, '[', '4', 'm'],
        STRIKETHROUGH@ == seq![ESC, '[', '9', 'm'],
        BLUE@ == seq![ESC, '[', '3', '4', 'm'],
        CYAN@ == seq![ESC, '[', '3', '6', 'm'],
        GREEN@ == seq![ESC, '[', '3', '2', 'm'],
        MAGENTA@ == seq![ESC, '[', '3', '5', 'm'],
        YELLOW@ == seq![ESC, '[', '3', '3', 'm'],
{
    reveal_strlit("\x1b[0m");
    reveal_strlit("\x1b[1m");
    reveal_strlit("\x1b[2m");
    reveal_strlit("\x1b[3m");
    reveal_strlit("\x1b[4m");
    reveal_strlit("\x1b[9m");
    reveal_strlit("\x1b[34m");
    reveal_strlit("\x1b[36m");
    reveal_strlit("\x1b[32m");
    reveal_strlit("\x1b[35m");
    reveal_strlit("\x1b[33m");
}

/// No style is seen: each is an escape sequence.
pub proof fn law_styles_are_not_seen(esc: bool)
    ensures
        seen(esc, RESET@) == (false, Seq::<char>::empty()),
        seen(esc, BOLD@) == (false, Seq::<char>::empty()),
        seen(esc, DIM@) == (false, Seq::<char>::empty()),
        seen(esc, ITALIC@) == (false, Seq::<char>::empty()),
        seen(esc, UNDERLINE@) == (false, Seq::<char>::empty()),
        seen(esc, STRIKETHROUGH@) == (false, Seq::<char>::empty()),
        seen(esc, BLUE@) == (false, Seq::<char>::empty()),
        seen(esc, CYAN@) == (false, Seq::<char>::empty()),
        seen(esc, GREEN@) == (false, Seq::<char>::empty()),
        seen(esc, MAGENTA@) == (false, Seq::<char>::empty()),
        seen(esc, YELLOW@) == (false, Seq::<char>::empty()),
{
    lemma_styles();
    lemma_short_style(esc, RESET@, '0');
    lemma_short_style(esc, BOLD@, '1');
    lemma_short_style(esc, DIM@, '2');
    lemma_short_style(esc, ITALIC@, '3');
    lemma_short_style(esc, UNDERLINE@, '4');
    lemma_short_style(esc, STRIKETHROUGH@, '9');
    lemma_long_style(esc, BLUE@, '4');
    lemma_long_style(esc, CYAN@, '6');
    lemma_long_style(esc, GREEN@, '2');
    lemma_long_style(esc, MAGENTA@, '5');
    lemma_long_style(esc, YELLOW@, '3');
}

proof fn lemma_replaced_seen(s: Seq<char>, style: Seq<char>, esc: bool, i: int)
    requires
        0 <= i <= s.len(),
        seen_as(style, Seq::empty()),
    ensures
        seen(esc, replaced_from(s, RESET@, RESET@ + style, i)) == seen(esc, s.skip(i)),
    decreases s.len() - i,
{
    let none = Seq::<char>::empty();
    if i < s.len() {
        if RESET@.len() > 0 && matches_at(s, RESET@, i) {
            let n = RESET@.len() as int;
            let rest = replaced_from(s, RESET@, RESET@ + style, i + n);
            law_styles_are_not_seen(esc);
            lemma_replaced_seen(s, style, false, i + n);
            assert(s.skip(i) =~= RESET@ + s.skip(i + n)) by {
                assert(s.subrange(i, i + n) =~= RESET@);
                assert(s.skip(i) =~= s.subrange(i, i + n) + s.skip(i + n));
            }
            lemma_seen_concat(esc, RESET@, s.skip(i + n));
            lemma_seen_concat(esc, RESET@ + style, rest);
            lemma_seen_concat(esc, RESET@, style);
            assert(none + none =~= none);
            assert(none + seen(false, rest).1 =~= seen(false, rest).1);
        } else {
            let head = seq![s[i]];
            let rest = replaced_from(s, RESET@, RESET@ + style, i + 1);
            let next = seen(esc, head).0;
            lemma_replaced_seen(s, style, next, i + 1);
            assert(s.skip(i) =~= head + s.skip(i + 1));
            lemma_seen_concat(esc, head, rest);
            lemma_seen_concat(esc, head, s.skip(i + 1));
        }
    } else {
        assert(s.skip(i) =~= none);
    }
}

/// A style around a text changes nothing of what is seen.
pub proof fn law_style_keeps_text(style: Seq<char>, text: Seq<char>, t: Seq<char>)
    requires
        seen_as(style, Seq::empty()),
        seen_as(text, t),
    ensures
        seen_as(sticky(style, text), t),
{
    let none = Seq::<char>::empty();
    if text.len() > 0 {
        lemma_replaced_seen(text, style, false, 0);
        assert(text.skip(0) =~= text);
        let mid = replaced(text, RESET@, RESET@ + style);
        law_styles_are_not_seen(false);
        lemma_seen_both(style, none, mid, t);
        lemma_seen_both(style + mid, none + t, RESET@, none);
        assert(none + t + none =~= t);
    }
}

proof fn lemma_painted_seen(style: Seq<char>, text: Seq<char>)
    requires
        seen_as(style, Seq::empty()),
        !text.contains(ESC),
    ensures
        seen_as(style + text + RESET@, text),
{
    let none = Seq::<char>::empty();
    law_styles_are_not_seen(false);
    lemma_seen_plain(text);
    lemma_seen_both(style, none, text, text);
    lemma_seen_both(style + text, none + text, RESET@, none);
    assert(none + text + none =~= text);
}

proof fn lemma_part_plain(s: Seq<char>, i: int, j: int)
    requires
        !s.contains(ESC),
        0 <= i <= j <= s.len(),
    ensures
        !s.subrange(i, j).contains(ESC),
{
    if s.subrange(i, j).contains(ESC) {
        let k = choose|k: int| 0 <= k < j - i && s.subrange(i, j)[k] == ESC;
        assert(s[i + k] == ESC);
    }
}

proof fn lemma_word_seen(lang: Seq<char>, word: Seq<char>)
    requires
        !word.contains(ESC),
    ensures
        seen_as(word_text(lang, word), word),
{
    let none = Seq::<char>::empty();
    law_styles_are_not_seen(false);
    lemma_seen_plain(word);
    lemma_seen_both(BOLD@, none, CYAN@, none);
    lemma_seen_both(BOLD@, none, MAGENTA@, none);
    assert(none + none =~= none);
    lemma_painted_seen(BOLD@ + CYAN@, word);
    lemma_painted_seen(BOLD@ + MAGENTA@, word);
}

proof fn lemma_highlight_seen(lang: Seq<char>, s: Seq<char>, i: int)
    requires
        0 <= i <= s.len(),
        !s.contains(ESC),
    ensures
        seen_as(highlight_from(lang, s, i), s.skip(i)),
    decreases s.len() - i,
{
    law_styles_are_not_seen(false);
    if i == s.len() {
        assert(s.skip(i) =~= Seq::<char>::empty());
    } else if comment_at(lang, s, i) {
        lemma_part_plain(s, i, s.len() as int);
        assert(s.subrange(i, s.len() as int) =~= s.skip(i));
        lemma_painted_seen(GREEN@, s.skip(i));
    } else {
        lemma_quote_end(s, i + 1, s[i], false);
        lemma_number_end(s, i + 1);
        lemma_ident_end(s, i + 1);
        let end = if s[i] == '"' || s[i] == '\'' {
            quote_end(s, i + 1, s[i], false)
        } else if is_digit(s[i]) {
            number_end(s, i + 1)
        } else if ident_start(s[i]) {
            ident_end(s, i + 1)
        } else {
            i + 1
        };
        let word = s.subrange(i, end);
        lemma_part_plain(s, i, end);
        lemma_painted_seen(YELLOW@, word);
        lemma_painted_seen(MAGENTA@, word);
        lemma_word_seen(lang, word);
        lemma_seen_plain(word);
        assert(s.subrange(i, i + 1) =~= seq![s[i]]);
        lemma_highlight_seen(lang, s, end);
        assert(s.skip(i) =~= word + s.skip(end));
        let rest = highlight_from(lang, s, end);
        if s[i] == '"' || s[i] == '\'' {
            lemma_seen_both(YELLOW@ + word + RESET@, word, rest, s.skip(end));
        } else if is_digit(s[i]) {
            lemma_seen_both(MAGENTA@ + word + RESET@, word, rest, s.skip(end));
        } else if ident_start(s[i]) {
            lemma_seen_both(word_text(lang, word), word, rest, s.skip(end));
        } else {
            lemma_seen_both(seq![s[i]], word, rest, s.skip(end));
        }
    }
}

/// Colours change nothing of a line of code: what is seen of it is the line.
pub proof fn law_code_is_seen(s: Seq<char>, lang: Seq<char>)
    requires
        !s.contains(ESC),
    ensures
        seen_as(highlighted(lang, s), s),
        seen_as(code_line(s, lang), s + seq!['\n']),
        code_lang(lang).len() == 0 ==> highlighted(lang, s) == s,
{
    lemma_seen_plain(s);
    lemma_highlight_seen(code_lang(lang), s, 0);
    assert(s.skip(0) =~= s);
    law_styles_are_not_seen(false);
    law_style_keeps_text(DIM@, highlighted(lang, s), s);
    reveal_strlit("\n");
    assert("\n"@ =~= seq!['\n']);
    lemma_seen_plain(seq!['\n']);
    lemma_seen_both(sticky(DIM@, highlighted(lang, s)), s, "\n"@, seq!['\n']);
}

/// A comment is green to the end of its line, a quoted text yellow, and a word that is no keyword
/// and no literal of the language as it is.
pub proof fn law_code_is_coloured(lang: Seq<char>, s: Seq<char>, t: Seq<char>)
    ensures
        s.len() > 0 && comment_at(lang, s, 0) ==> highlight_from(lang, s, 0) == GREEN@ + s + RESET@,
        !t.contains('"') && !t.contains('\\') && !comment_at(lang, seq!['"'] + t + seq!['"'], 0)
            ==> highlight_from(lang, seq!['"'] + t + seq!['"'], 0) == YELLOW@ + (seq!['"'] + t
            + seq!['"']) + RESET@,
        in_list(s, keywords(lang)) ==> word_text(lang, s) == BOLD@ + CYAN@ + s + RESET@,
        !in_list(s, keywords(lang)) && in_list(s, literals(lang)) ==> word_text(lang, s) == BOLD@
            + MAGENTA@ + s + RESET@,
        !in_list(s, keywords(lang)) && !in_list(s, literals(lang)) ==> word_text(lang, s) == s,
{
    assert(s.skip(0) =~= s);
    let q = seq!['"'] + t + seq!['"'];
    if !t.contains('"') && !t.contains('\\') {
        lemma_quote_closes(q, 1);
        let n = q.len() as int;
        assert(q.subrange(0, n) =~= q);
        assert(highlight_from(lang, q, n) =~= Seq::<char>::empty());
        assert(YELLOW@ + q + RESET@ + Seq::<char>::empty() =~= YELLOW@ + q + RESET@);
    }
}

proof fn lemma_quote_closes(q: Seq<char>, i: int)
    requires
        1 <= i < q.len(),
        q.last() == '"',
        forall|k: int| 1 <= k < q.len() - 1 ==> #[trigger] q[k] != '"' && q[k] != '\\',
    ensures
        quote_end(q, i, '"', false) == q.len(),
    decreases q.len() - i,
{
    if i < q.len() - 1 {
        lemma_quote_closes(q, i + 1);
    }
}

proof fn lemma_indent(a: Seq<char>, t: Seq<char>)
    requires
        all_space(a),
        t.len() > 0,
        !is_space(t[0]),
    ensures
        trimmed_start(a + t) == t,
        indent_of(a + t) == a,
    decreases a.len(),
{
    if a.len() == 0 {
        assert(a + t =~= t);
        assert((a + t).take(0) =~= a);
    } else {
        let b = a.drop_first();
        assert forall|i: int| 0 <= i < b.len() implies is_space(#[trigger] b[i]) by {
            assert(a[i + 1] == b[i]);
        }
        assert(is_space(a[0]));
        lemma_indent(b, t);
        assert((a + t).drop_first() =~= b + t);
        assert((a + t).take(a.len() as int) =~= a);
    }
}

proof fn lemma_hashes(s: Seq<char>, n: int, i: int)
    requires
        0 <= i <= n < s.len(),
        s[n] != '#',
        forall|k: int| 0 <= k < n ==> #[trigger] s[k] == '#',
    ensures
        hash_count(s, i) == n,
    decreases n - i,
{
    if i < n {
        assert(s[i] == '#');
        lemma_hashes(s, n, i + 1);
    }
}

proof fn lemma_digits(s: Seq<char>, n: int, i: int)
    requires
        0 <= i <= n < s.len(),
        !is_digit(s[n]),
        forall|k: int| 0 <= k < n ==> is_digit(#[trigger] s[k]),
    ensures
        digit_count(s, i) == n,
    decreases n - i,
{
    if i < n {
        assert(is_digit(s[i]));
        lemma_digits(s, n, i + 1);
    }
}

/// A heading of one to six hashes shows its title; with more hashes, or without the space behind
/// them, there is no heading.
pub proof fn law_heading_shows_title(indent: Seq<char>, level: nat, title: Seq<char>)
    requires
        all_space(indent),
        level >= 1,
    ensures
        ({
            let line = indent + Seq::new(level, |i: int| '#') + seq![' '] + title;
            &&& level <= 6 ==> header(line) == Some(
                BOLD@ + CYAN@ + crate::render::inline(title) + RESET@,
            ) && single_line(line) == BOLD@ + CYAN@ + crate::render::inline(title) + RESET@
            &&& level > 6 ==> header(line) is None
        }),
        title.len() > 0 && title[0] != ' ' && title[0] != '#' ==> header(
            indent + Seq::new(level, |i: int| '#') + title,
        ) is None,
{
    let hashes = Seq::new(level, |i: int| '#');
    let n = level as int;
    let t = hashes + seq![' '] + title;
    let line = indent + hashes + seq![' '] + title;
    assert(line =~= indent + t);
    lemma_indent(indent, t);
    lemma_hashes(t, n, 0);
    assert(t.skip(n + 1) =~= title);
    reveal_strlit("[^");
    assert(!starts_with_spec(t, "[^"@)) by {
        assert(t[0] == '#' && "[^"@[0] == '[');
    }
    if title.len() > 0 && title[0] != ' ' && title[0] != '#' {
        let u = hashes + title;
        assert(indent + hashes + title =~= indent + u);
        lemma_indent(indent, u);
        lemma_hashes(u, n, 0);
    }
}

/// An item of a list shows a bullet, or a box where it is a task, and its text.
pub proof fn law_item_shows_text(indent: Seq<char>, mark: char, text: Seq<char>)
    requires
        all_space(indent),
        mark == '-' || mark == '*' || mark == '+',
        !starts_with_spec(text, "["@),
    ensures
        ({
            let shown = crate::render::inline(text);
            &&& single_line(indent + seq![mark, ' '] + text) == indent + DIM@ + "•"@ + RESET@ + " "@
                + shown
            &&& single_line(indent + seq![mark, ' '] + ("[x] "@ + text)) == indent + box_shown(true)
                + " "@ + shown
            &&& single_line(indent + seq![mark, ' '] + ("[X] "@ + text)) == indent + box_shown(true)
                + " "@ + shown
            &&& single_line(indent + seq![mark, ' '] + ("[ ] "@ + text)) == indent + box_shown(
                false,
            ) + " "@ + shown
        }),
{
    lemma_task(text);
    lemma_bullet(indent, mark, text);
    lemma_bullet(indent, mark, "[x] "@ + text);
    lemma_bullet(indent, mark, "[X] "@ + text);
    lemma_bullet(indent, mark, "[ ] "@ + text);
}

/// The box before a task, ticked where it is done.
pub open spec fn box_shown(done: bool) -> Seq<char> {
    if done {
        GREEN@ + "☑"@ + RESET@
    } else {
        DIM@ + "☐"@ + RESET@
    }
}

/// A numbered item of a list shows its number, a box where it is a task, and its text.
pub proof fn law_numbered_item_shows_text(indent: Seq<char>, number: Seq<char>, text: Seq<char>)
    requires
        all_space(indent),
        number.len() > 0,
        only_digits(number),
        !starts_with_spec(text, "["@),
    ensures
        ({
            let numbered = indent + DIM@ + (number + seq!['.']) + RESET@ + " "@;
            let shown = crate::render::inline(text);
            &&& single_line(indent + number + seq!['.', ' '] + text) == numbered + shown
            &&& single_line(indent + number + seq!['.', ' '] + ("[x] "@ + text)) == numbered
                + box_shown(true) + " "@ + shown
            &&& single_line(indent + number + seq!['.', ' '] + ("[X] "@ + text)) == numbered
                + box_shown(true) + " "@ + shown
            &&& single_line(indent + number + seq!['.', ' '] + ("[ ] "@ + text)) == numbered
                + box_shown(false) + " "@ + shown
        }),
{
    lemma_task(text);
    lemma_number(indent, number, text);
    lemma_number(indent, number, "[x] "@ + text);
    lemma_number(indent, number, "[X] "@ + text);
    lemma_number(indent, number, "[ ] "@ + text);
}

proof fn lemma_task(text: Seq<char>)
    requires
        !starts_with_spec(text, "["@),
    ensures
        task_marker(text) is None,
        task_marker("[x] "@ + text) == Some((true, text)),
        task_marker("[X] "@ + text) == Some((true, text)),
        task_marker("[ ] "@ + text) == Some((false, text)),
{
    reveal_strlit("[");
    reveal_strlit("[x] ");
    reveal_strlit("[X] ");
    reveal_strlit("[ ] ");
    assert("["@ =~= seq!['[']);
    assert("[x] "@ =~= seq!['[', 'x', ']', ' ']);
    assert("[X] "@ =~= seq!['[', 'X', ']', ' ']);
    assert("[ ] "@ =~= seq!['[', ' ', ']', ' ']);
    assert(text.len() > 0 ==> text[0] != '[') by {
        if text.len() > 0 && text[0] == '[' {
            assert(text.take(1) =~= "["@);
            assert("["@.is_prefix_of(text));
        }
    }
    assert(("[x] "@ + text).skip(4) =~= text);
    assert(("[X] "@ + text).skip(4) =~= text);
    assert(("[ ] "@ + text).skip(4) =~= text);
    assert("[x] "@.is_prefix_of("[x] "@ + text));
    assert("[X] "@.is_prefix_of("[X] "@ + text));
    assert("[ ] "@.is_prefix_of("[ ] "@ + text));
    assert(("[ ] "@ + text)[1] == ' ');
}

proof fn lemma_bullet(indent: Seq<char>, mark: char, content: Seq<char>)
    requires
        all_space(indent),
        mark == '-' || mark == '*' || mark == '+',
    ensures
        single_line(indent + seq![mark, ' '] + content) == item_text(indent, None, content),
{
    let t = seq![mark, ' '] + content;
    assert(indent + seq![mark, ' '] + content =~= indent + t);
    lemma_indent(indent, t);
    assert(t.skip(2) =~= content);
    reveal_strlit("[^");
    assert(!starts_with_spec(t, "[^"@)) by {
        assert(t[0] == mark && "[^"@[0] == '[');
    }
}

proof fn lemma_number(indent: Seq<char>, number: Seq<char>, content: Seq<char>)
    requires
        all_space(indent),
        number.len() > 0,
        only_digits(number),
    ensures
        single_line(indent + number + seq!['.', ' '] + content) == item_text(
            indent,
            Some(number + seq!['.']),
            content,
        ),
{
    let n = number.len() as int;
    let t = number + seq!['.', ' '] + content;
    assert(indent + number + seq!['.', ' '] + content =~= indent + t);
    assert(is_digit(number[0]));
    assert(t[0] == number[0]);
    lemma_indent(indent, t);
    assert forall|k: int| 0 <= k < n implies is_digit(#[trigger] t[k]) by {
        assert(is_digit(number[k]));
    }
    lemma_digits(t, n, 0);
    assert(t.take(n + 1) =~= number + seq!['.']);
    assert(t.skip(n + 2) =~= content);
    reveal_strlit("[^");
    assert(!starts_with_spec(t, "[^"@)) by {
        assert("[^"@[0] == '[');
    }
}

/// A quote shows a bar for each of its marks, and its text as it would be shown alone, dim.
pub proof fn law_quote_shows_text(indent: Seq<char>, content: Seq<char>)
    requires
        all_space(indent),
        content.len() > 0,
        !is_space(content[0]),
        content[0] != '>',
        sticky(DIM@, single_line(content)).len() > 0,
    ensures
        ({
            let one = BLUE@ + "│"@ + RESET@;
            let shown = sticky(DIM@, single_line(content));
            &&& single_line(indent + seq!['>', ' '] + content) == indent + one + " "@ + shown
            &&& single_line(indent + seq!['>', ' ', '>', ' '] + content) == indent + one + " "@
                + one + " "@ + shown
            &&& single_line(indent + seq!['>', '>'] + content) == indent + one + " "@ + one + " "@
                + shown
        }),
{
    let one = BLUE@ + "│"@ + RESET@;
    let shown = sticky(DIM@, single_line(content));
    let space = seq![' '];
    let none = Seq::<char>::empty();
    assert(all_space(space));
    assert(none + content =~= content);
    lemma_indent(none, content);
    lemma_indent(space, content);
    let a = seq!['>', ' '] + content;
    let b = seq!['>', ' ', '>', ' '] + content;
    let c = seq!['>', '>'] + content;
    let d = seq!['>'] + content;
    lemma_indent(indent, a);
    lemma_indent(indent, b);
    lemma_indent(indent, c);
    assert(indent + seq!['>', ' '] + content =~= indent + a);
    assert(indent + seq!['>', ' ', '>', ' '] + content =~= indent + b);
    assert(indent + seq!['>', '>'] + content =~= indent + c);
    assert(quote_depth(content) == (0nat, content));
    assert(a.drop_first() =~= space + content);
    assert(quote_depth(a) == (1nat, content));
    assert(d.drop_first() =~= content);
    assert(quote_depth(d) == (1nat, content));
    assert(none + d =~= d);
    lemma_indent(none, d);
    assert(c.drop_first() =~= d);
    assert(quote_depth(c) == (2nat, content));
    lemma_indent(space, a);
    assert(b.drop_first() =~= space + a);
    assert(quote_depth(b) == (2nat, content));
    assert(quote_bars(1) == one);
    assert(quote_bars(2) == one + " "@ + one);
    assert(indent + (one + " "@ + one) + " "@ + shown =~= indent + one + " "@ + one + " "@ + shown);
}

/// A footnote shows its mark and its text, dim.
pub proof fn law_footnote_shows_text(indent: Seq<char>, label: Seq<char>, text: Seq<char>)
    requires
        all_space(indent),
        !label.contains(']'),
        text.len() > 0,
        !is_space(text[0]),
        sticky(DIM@, crate::render::inline(text)).len() > 0,
    ensures
        single_line(indent + "[^"@ + label + "]: "@ + text) == indent + footnote_marker(label)
            + " "@ + sticky(DIM@, crate::render::inline(text)),
{
    reveal_strlit("[^");
    reveal_strlit("]: ");
    reveal_strlit("]:");
    let t = "[^"@ + label + "]: "@ + text;
    assert(indent + "[^"@ + label + "]: "@ + text =~= indent + t);
    assert(t[0] == '[');
    lemma_indent(indent, t);
    let body = label + "]: "@ + text;
    assert("[^"@.is_prefix_of(t));
    assert(t.skip(2) =~= body);
    let none = Seq::<char>::empty();
    let space = seq![' '];
    assert(body =~= none + label + "]:"@ + (space + text));
    lemma_place_after(none, label, "]:"@, space + text);
    assert(body.take(label.len() as int) =~= label);
    assert(body.skip((label.len() + 2) as int) =~= space + text);
    assert(all_space(space));
    lemma_indent(space, text);
}

/// Whether a line is no part of a code block or a table and no rule.
pub open spec fn ordinary(line: Seq<char>) -> bool {
    !fence(line) && !line.contains('|') && !horizontal_rule(line)
}

proof fn lemma_table_end_shift(a: Seq<Seq<char>>, b: Seq<Seq<char>>, i: int)
    requires
        0 <= i <= b.len(),
    ensures
        table_end(a + b, a.len() + i) == a.len() + table_end(b, i),
        i <= table_end(b, i) <= b.len(),
    decreases b.len() - i,
{
    if i < b.len() && b[i].contains('|') {
        assert((a + b)[a.len() + i] == b[i]);
        lemma_table_end_shift(a, b, i + 1);
    } else if i < b.len() {
        assert((a + b)[a.len() + i] == b[i]);
    }
}

proof fn lemma_document_shift(
    a: Seq<Seq<char>>,
    b: Seq<Seq<char>>,
    i: int,
    code: Option<Seq<char>>,
    rule: nat,
)
    requires
        0 <= i <= b.len(),
    ensures
        document_from(a + b, a.len() + i, code, rule) == document_from(b, i, code, rule),
    decreases b.len() - i,
{
    let n = a.len() as int;
    if i < b.len() {
        assert((a + b)[n + i] == b[i]);
        if i + 1 < b.len() {
            assert((a + b)[n + i + 1] == b[i + 1]);
        }
        assert(table_start(a + b, n + i) == table_start(b, i));
        lemma_table_end_shift(a, b, i + 1);
        let end = table_end(b, i + 1);
        assert((a + b).subrange(n + i, n + end) =~= b.subrange(i, end));
        lemma_document_shift(a, b, end, None, rule);
        lemma_document_shift(a, b, i + 1, None, rule);
        lemma_document_shift(a, b, i + 1, code, rule);
        lemma_document_shift(a, b, i + 1, Some(fence_lang(b[i])), rule);
    }
}

/// An ordinary line is shown alone, on a line of its own, before what follows it.
pub proof fn law_line_is_shown(line: Seq<char>, rest: Seq<Seq<char>>, rule: nat)
    requires
        ordinary(line),
    ensures
        document_from(seq![line] + rest, 0, None, rule) == single_line(line) + "\n"@
            + document_from(rest, 0, None, rule),
{
    lemma_document_shift(seq![line], rest, 0, None, rule);
    assert((seq![line] + rest)[0] == line);
}

/// A line of at least three equal dashes, stars or underscores is shown as a rule of the given
/// width.
pub proof fn law_rule_is_shown(c: char, n: nat, rest: Seq<Seq<char>>, rule: nat)
    requires
        !is_space(c),
    ensures
        ({
            let line = Seq::new(n, |i: int| c);
            &&& horizontal_rule(line) <==> n >= 3 && (c == '-' || c == '*' || c == '_')
            &&& horizontal_rule(line) ==> document_from(seq![line] + rest, 0, None, rule) == DIM@
                + repeat("─"@, rule) + RESET@ + "\n"@ + document_from(rest, 0, None, rule)
        }),
{
    let line = Seq::new(n, |i: int| c);
    assert(trimmed(line) == line) by {
        assert(trimmed_start(line) == line);
        assert(trimmed_end(line) == line);
    }
    if horizontal_rule(line) {
        let doc = seq![line] + rest;
        assert(doc[0] == line);
        lemma_document_shift(seq![line], rest, 0, None, rule);
        reveal_strlit("```");
        assert(!fence(line)) by {
            assert(line[0] == c && "```"@[0] == '`');
        }
        assert(!line.contains('|'));
    }
}

/// The lines of a code block are shown as code, in order, below its label, and its fences are not.
pub proof fn law_code_block_is_shown(
    open: Seq<char>,
    code: Seq<Seq<char>>,
    close: Seq<char>,
    rest: Seq<Seq<char>>,
    rule: nat,
)
    requires
        fence(open),
        fence(close),
        forall|i: int| 0 <= i < code.len() ==> !fence(#[trigger] code[i]),
    ensures
        document_from(seq![open] + code + seq![close] + rest, 0, None, rule) == fence_label(
            fence_lang(open),
        ) + join(
            code.map_values(|line: Seq<char>| code_line(line, fence_lang(open))),
            Seq::empty(),
        ) + document_from(rest, 0, None, rule),
{
    let lang = fence_lang(open);
    let doc = seq![open] + code + seq![close] + rest;
    let tail = code + seq![close] + rest;
    assert(doc =~= seq![open] + tail);
    assert(doc[0] == open);
    lemma_document_shift(seq![open], tail, 0, Some(lang), rule);
    lemma_code_lines(code, close, rest, lang, rule);
    let shown = join(
        code.map_values(|line: Seq<char>| code_line(line, lang)),
        Seq::<char>::empty(),
    );
    let end = document_from(rest, 0, None, rule);
    assert(fence_label(lang) + (shown + end) =~= fence_label(lang) + shown + end);
}

proof fn lemma_join_first(v: Seq<Seq<char>>)
    requires
        v.len() > 0,
    ensures
        join(v, Seq::empty()) == v[0] + join(v.drop_first(), Seq::empty()),
    decreases v.len(),
{
    let none = Seq::<char>::empty();
    if v.len() == 1 {
        assert(v[0] + none =~= v[0]);
        assert(join(v.drop_first(), none) =~= none);
    } else {
        lemma_join_first(v.drop_last());
        assert(v.drop_last().drop_first() =~= v.drop_first().drop_last());
        assert(v.drop_last()[0] == v[0]);
        let mid = join(v.drop_first().drop_last(), none);
        assert(join(v, none) == v[0] + mid + none + v.last());
        if v.len() == 2 {
            assert(mid =~= none);
            assert(v.drop_first() =~= seq![v.last()]);
            assert(join(v.drop_first(), none) == v.last());
        } else {
            assert(join(v.drop_first(), none) == mid + none + v.drop_first().last());
        }
        assert(join(v, none) =~= v[0] + join(v.drop_first(), none));
    }
}

proof fn lemma_code_lines(
    code: Seq<Seq<char>>,
    close: Seq<char>,
    rest: Seq<Seq<char>>,
    lang: Seq<char>,
    rule: nat,
)
    requires
        fence(close),
        forall|i: int| 0 <= i < code.len() ==> !fence(#[trigger] code[i]),
    ensures
        document_from(code + seq![close] + rest, 0, Some(lang), rule) == join(
            code.map_values(|line: Seq<char>| code_line(line, lang)),
            Seq::empty(),
        ) + document_from(rest, 0, None, rule),
    decreases code.len(),
{
    let none = Seq::<char>::empty();
    let f = |line: Seq<char>| code_line(line, lang);
    let doc = code + seq![close] + rest;
    let end = document_from(rest, 0, None, rule);
    let shown = code.map_values(f);
    if code.len() == 0 {
        assert(doc =~= seq![close] + rest);
        lemma_document_shift(seq![close], rest, 0, None, rule);
        assert(doc[0] == close);
        assert(join(shown, none) + end =~= end);
    } else {
        let more = code.drop_first();
        assert forall|i: int| 0 <= i < more.len() implies !fence(#[trigger] more[i]) by {
            assert(more[i] == code[i + 1]);
        }
        lemma_code_lines(more, close, rest, lang, rule);
        let tail = more + seq![close] + rest;
        assert(doc =~= seq![code[0]] + tail);
        assert(doc[0] == code[0]);
        lemma_document_shift(seq![code[0]], tail, 0, Some(lang), rule);
        lemma_join_first(shown);
        assert(shown.drop_first() =~= more.map_values(f));
        assert(shown[0] == code_line(code[0], lang));
        assert(shown[0] + (join(shown.drop_first(), none) + end) =~= shown[0] + join(
            shown.drop_first(),
            none,
        ) + end);
    }
}

/// A line with bars above a separator line starts a table, which reaches over the lines with bars.
pub proof fn law_table_is_shown(table: Seq<Seq<char>>, rest: Seq<Seq<char>>, rule: nat)
    requires
        table.len() >= 2,
        forall|i: int| 0 <= i < table.len() ==> (#[trigger] table[i]).contains('|'),
        !fence(table[0]),
        trimmed(table[1]).contains('|'),
        all_in(trimmed(table[1]), "|-: "@),
        rest.len() > 0 ==> !rest[0].contains('|'),
    ensures
        document_from(table + rest, 0, None, rule) == table_text(table) + document_from(
            rest,
            0,
            None,
            rule,
        ),
{
    let doc = table + rest;
    assert(doc[0] == table[0] && doc[1] == table[1]);
    assert(table[0].contains('|'));
    lemma_table_reaches(table, rest, 1);
    assert(doc.subrange(0, table.len() as int) =~= table);
    lemma_document_shift(table, rest, 0, None, rule);
}

proof fn lemma_table_reaches(table: Seq<Seq<char>>, rest: Seq<Seq<char>>, i: int)
    requires
        0 <= i <= table.len(),
        forall|i: int| 0 <= i < table.len() ==> (#[trigger] table[i]).contains('|'),
        rest.len() > 0 ==> !rest[0].contains('|'),
    ensures
        table_end(table + rest, i) == table.len(),
    decreases table.len() - i,
{
    if i < table.len() {
        assert((table + rest)[i] == table[i]);
        lemma_table_reaches(table, rest, i + 1);
    } else if rest.len() > 0 {
        assert((table + rest)[i] == rest[0]);
    }
}

/// A fence names the language of its block.
pub proof fn law_fence_names_language(indent: Seq<char>, lang: Seq<char>)
    requires
        all_space(indent),
        forall|i: int| 0 <= i < lang.len() ==> !ends_lang(#[trigger] lang[i]) && lang[i] != '`',
    ensures
        fence(indent + "```"@ + lang),
        fence_lang(indent + "```"@ + lang) == lang,
        fence_label(lang) == if lang.len() == 0 {
            Seq::empty()
        } else {
            sticky(DIM@, lang) + "\n"@
        },
{
    reveal_strlit("```");
    let t = "```"@ + lang;
    assert(indent + "```"@ + lang =~= indent + t);
    lemma_indent(indent, t);
    assert("```"@.is_prefix_of(t));
    reveal_with_fuel(without_ticks, 4);
    assert(t.drop_first().drop_first().drop_first() =~= lang);
    assert(without_ticks(t) == lang) by {
        assert(t[0] == '`' && t.drop_first()[0] == '`' && t.drop_first().drop_first()[0] == '`');
    }
    assert(trimmed(lang) == lang) by {
        assert(trimmed_start(lang) == lang);
        assert(trimmed_end(lang) == lang);
    }
    lemma_whole_lang(lang, 0);
    assert(lang.take(lang.len() as int) =~= lang);
}

proof fn lemma_whole_lang(lang: Seq<char>, i: int)
    requires
        0 <= i <= lang.len(),
        forall|i: int| 0 <= i < lang.len() ==> !ends_lang(#[trigger] lang[i]),
    ensures
        lang_end(lang, i) == lang.len(),
    decreases lang.len() - i,
{
    if i < lang.len() {
        lemma_whole_lang(lang, i + 1);
    }
}

/// Text of ordinary lines is shown line by line, each in the place of its own.
pub proof fn law_ordinary_text_is_shown(s: Seq<char>, rule: nat)
    requires
        lines(s).len() > 0,
        forall|i: int| 0 <= i < lines(s).len() ==> ordinary(#[trigger] lines(s)[i]),
    ensures
        document(s, rule) == join(
            lines(s).map_values(|line: Seq<char>| single_line(line)),
            seq!['\n'],
        ),
{
    let v = lines(s);
    lemma_ordinary_lines(v, rule);
    let text = join(v.map_values(|line: Seq<char>| single_line(line)), seq!['\n']);
    assert((text + seq!['\n']).drop_last() =~= text);
}

proof fn lemma_join_front(v: Seq<Seq<char>>, sep: Seq<char>)
    requires
        v.len() > 1,
    ensures
        join(v, sep) == v[0] + sep + join(v.drop_first(), sep),
    decreases v.len(),
{
    if v.len() == 2 {
        assert(v.drop_last() =~= seq![v[0]]);
        assert(v.drop_first() =~= seq![v[1]]);
        assert(join(v.drop_last(), sep) == v[0]);
        assert(join(v.drop_first(), sep) == v[1]);
    } else {
        lemma_join_front(v.drop_last(), sep);
        assert(v.drop_last().drop_first() =~= v.drop_first().drop_last());
        assert(v.drop_last()[0] == v[0]);
        assert(v.drop_first().last() == v.last());
        assert(join(v, sep) =~= v[0] + sep + join(v.drop_first(), sep));
    }
}

proof fn lemma_ordinary_lines(v: Seq<Seq<char>>, rule: nat)
    requires
        v.len() > 0,
        forall|i: int| 0 <= i < v.len() ==> ordinary(#[trigger] v[i]),
    ensures
        document_from(v, 0, None, rule) == join(
            v.map_values(|line: Seq<char>| single_line(line)),
            seq!['\n'],
        ) + seq!['\n'],
    decreases v.len(),
{
    reveal_strlit("\n");
    assert("\n"@ =~= seq!['\n']);
    let f = |line: Seq<char>| single_line(line);
    let rest = v.drop_first();
    assert(v =~= seq![v[0]] + rest);
    assert(ordinary(v[0]));
    law_line_is_shown(v[0], rest, rule);
    let shown = v.map_values(f);
    assert(shown.drop_first() =~= rest.map_values(f));
    assert(shown[0] == single_line(v[0]));
    if v.len() == 1 {
        assert(document_from(rest, 0, None, rule) =~= Seq::<char>::empty());
        assert(join(shown, seq!['\n']) == shown[0]);
        assert(shown[0] + seq!['\n'] + Seq::<char>::empty() =~= shown[0] + seq!['\n']);
    } else {
        assert forall|i: int| 0 <= i < rest.len() implies ordinary(#[trigger] rest[i]) by {
            assert(rest[i] == v[i + 1]);
        }
        lemma_ordinary_lines(rest, rule);
        lemma_join_front(shown, seq!['\n']);
        let more = join(shown.drop_first(), seq!['\n']);
        assert(shown[0] + seq!['\n'] + (more + seq!['\n']) =~= shown[0] + seq!['\n'] + more
            + seq!['\n']);
    }
}

pub(crate) proof fn lemma_tag_found(t: Seq<char>, tag: Seq<char>, rest: Seq<char>)
    requires
        tag.len() > 0,
        forall|k: int| 0 < k < tag.len() ==> #[trigger] tag[k] != tag[0],
        !contains_text(t, tag),
    ensures
        split_once_spec(t + tag + rest, tag) == Some((t, rest)),
{
    let s = t + tag + rest;
    let n = t.len() as int;
    assert(s.subrange(n, n + tag.len()) =~= tag);
    lemma_find_from(t, tag, 0);
    assert forall|m: int| 0 <= m < n implies !matches_at(s, tag, m) by {
        if matches_at(s, tag, m) {
            if m + tag.len() <= n {
                assert(t.subrange(m, m + tag.len()) =~= s.subrange(m, m + tag.len()));
                assert(matches_at(t, tag, m));
            } else {
                assert(s.subrange(m, m + tag.len())[n - m] == tag[0]);
            }
        }
    }
    lemma_first_place(s, tag, 0, n);
    assert(s.take(n) =~= t);
    assert(s.skip(n + tag.len()) =~= rest);
}

/// What stands between the tags is thought, and the rest is shown; a newline behind the closing
/// tag is dropped. What no closing tag ends is thought to the end.
pub proof fn law_thoughts_are_parted(before: Seq<char>, think: Seq<char>, answer: Seq<char>)
    requires
        !contains_text(before, "<think>"@),
        !contains_text(think, "</think>"@),
    ensures
        ({
            let (shown, hidden) = think_parts(answer);
            &&& think_parts(before + "<think>"@ + (think + "</think>"@ + (seq!['\n'] + answer)))
                == (before + shown, think + hidden)
            &&& answer.len() > 0 && answer[0] != '\n' ==> think_parts(
                before + "<think>"@ + (think + "</think>"@ + answer),
            ) == (before + shown, think + hidden)
            &&& think_parts(before + "<think>"@ + think) == (before, think)
            &&& think_parts(before) == (before, Seq::<char>::empty())
        }),
{
    reveal_strlit("<think>");
    reveal_strlit("</think>");
    lemma_tag_found(think, "</think>"@, answer);
    lemma_tag_found(think, "</think>"@, seq!['\n'] + answer);
    lemma_tag_found(before, "<think>"@, think + "</think>"@ + answer);
    lemma_tag_found(before, "<think>"@, think + "</think>"@ + (seq!['\n'] + answer));
    lemma_tag_found(before, "<think>"@, think);
    assert((seq!['\n'] + answer).drop_first() =~= answer);
}

/// A message shows what was thought, dim, above the answer, each where there is something to show.
pub proof fn law_message_shows_both(think: Seq<char>, answer: Seq<char>, rule: nat)
    requires
        !contains_text(think, "</think>"@),
        !contains_text(answer, "<think>"@),
        !is_blank(think),
        !is_blank(answer),
        answer[0] != '\n',
    ensures
        message_text("<think>"@ + (think + "</think>"@ + answer), rule) == sticky(
            DIM@,
            document(trimmed(think), RULE_WIDTH as nat),
        ) + "\n\n"@ + document(trimmed(answer), rule),
        message_text("<think>"@ + think, rule) == sticky(
            DIM@,
            document(trimmed(think), RULE_WIDTH as nat),
        ),
        message_text(answer, rule) == document(trimmed(answer), rule),
{
    let none = Seq::<char>::empty();
    reveal_strlit("<think>");
    assert(!contains_text(none, "<think>"@));
    law_no_thinking_without_tag(answer);
    law_thoughts_are_parted(none, think, answer);
    assert(answer.len() > 0) by {
        law_trimming_takes_space_only(answer);
    }
    assert(none + "<think>"@ + (think + "</think>"@ + answer) =~= "<think>"@ + (think + "</think>"@
        + answer));
    assert(none + "<think>"@ + think =~= "<think>"@ + think);
    assert(none + answer =~= answer);
    assert(think + none =~= think);
    assert(trimmed(none) =~= none);
}

proof fn lemma_status_seen(provider: Seq<char>, model: Seq<char>, mark: Seq<char>, id: Seq<char>)
    requires
        !provider.contains(ESC),
        !model.contains(ESC),
        !id.contains(ESC),
    ensures
        forall|m: Seq<char>|
            seen_as(mark, m) ==> seen_as(
                DIM@ + provider + RESET@ + " "@ + BOLD@ + CYAN@ + model + RESET@ + " "@ + mark
                    + " "@ + DIM@ + id + RESET@,
                provider + " "@ + model + " "@ + m + " "@ + id,
            ),
{
    let none = Seq::<char>::empty();
    assert forall|m: Seq<char>| seen_as(mark, m) implies seen_as(
        DIM@ + provider + RESET@ + " "@ + BOLD@ + CYAN@ + model + RESET@ + " "@ + mark + " "@
            + DIM@ + id + RESET@,
        provider + " "@ + model + " "@ + m + " "@ + id,
    ) by {
        law_styles_are_not_seen(false);
        reveal_strlit(" ");
        lemma_seen_plain(" "@);
        lemma_painted_seen(DIM@, provider);
        lemma_painted_seen(DIM@, id);
        lemma_seen_both(BOLD@, none, CYAN@, none);
        assert(none + none =~= none);
        lemma_painted_seen(BOLD@ + CYAN@, model);
        let a = DIM@ + provider + RESET@;
        let b = BOLD@ + CYAN@ + model + RESET@;
        let c = DIM@ + id + RESET@;
        lemma_seen_both(a, provider, " "@, " "@);
        lemma_seen_both(a + " "@, provider + " "@, b, model);
        lemma_seen_both(a + " "@ + b, provider + " "@ + model, " "@, " "@);
        let x = a + " "@ + b + " "@;
        let y = provider + " "@ + model + " "@;
        lemma_seen_both(x, y, mark, m);
        lemma_seen_both(x + mark, y + m, " "@, " "@);
        lemma_seen_both(x + mark + " "@, y + m + " "@, c, id);
        assert(x + mark + " "@ + c =~= DIM@ + provider + RESET@ + " "@ + BOLD@ + CYAN@ + model
            + RESET@ + " "@ + mark + " "@ + DIM@ + id + RESET@);
    }
}

/// The line above an answer names the provider, the model and the session by its first characters,
/// and says whether it is temporary or saved.
pub proof fn law_status_names_session(provider: Seq<char>, model: Seq<char>, id: Seq<char>)
    requires
        !provider.contains(ESC),
        !model.contains(ESC),
        !id.contains(ESC),
        id.len() == 8,
    ensures
        seen_as(
            status_text(provider, model, "sess_"@ + id),
            provider + " "@ + model + " "@ + "[saved]"@ + " "@ + id,
        ),
        seen_as(
            status_text(provider, model, "tmp_"@ + id),
            provider + " "@ + model + " "@ + "[temp]"@ + " "@ + ("tmp_"@ + id),
        ),
        forall|more: Seq<char>|
            #[trigger] status_text(provider, model, "sess_"@ + id + more) == status_text(
                provider,
                model,
                "sess_"@ + id,
            ),
{
    reveal_strlit("sess_");
    reveal_strlit("tmp_");
    reveal_strlit("[saved]");
    reveal_strlit("[temp]");
    law_styles_are_not_seen(false);
    lemma_painted_seen(YELLOW@, "[temp]"@);
    lemma_painted_seen(DIM@, "[saved]"@);
    let a = "sess_"@ + id;
    let b = "tmp_"@ + id;
    assert(a[0] == 's' && b[0] == 't' && "tmp_"@[0] == 't');
    assert(a.skip(5) =~= id && b.skip(4) =~= id);
    assert("sess_"@.is_prefix_of(a) && "tmp_"@.is_prefix_of(b));
    assert(short(a) == id && short(b) == "tmp_"@ + id);
    lemma_status_seen(provider, model, DIM@ + "[saved]"@ + RESET@, id);
    lemma_status_seen(provider, model, YELLOW@ + "[temp]"@ + RESET@, "tmp_"@ + id);
    assert forall|more: Seq<char>| #[trigger]
        status_text(provider, model, "sess_"@ + id + more) == status_text(
            provider,
            model,
            "sess_"@ + id,
        ) by {
        let c = "sess_"@ + id + more;
        assert(c[0] == 's');
        assert("sess_"@.is_prefix_of(c));
        assert(c.skip(5) =~= id + more);
        assert((id + more).take(8) =~= id);
        if more.len() == 0 {
            assert(id + more =~= id);
        }
        assert(short(c) == id);
    }
}

} // verus!
