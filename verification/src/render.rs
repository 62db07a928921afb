//! Markdown as styled terminal text: headers, emphasis, inline code, links, lists, quotes, tables,
//! rules and fenced code blocks, which are dim and carry the label of their language.

use crate::ansi::{
    BLUE, BOLD, CYAN, DIM, ESC, GREEN, ITALIC, MAGENTA, RESET, STRIKETHROUGH, UNDERLINE,
    YELLOW, painted,
};
use crate::config::{join_path, joined_path};
use crate::session::{is_temp, is_temp_session, short, short_id};
use crate::text::{
    all_in, byte_len, bytes_len, char_is_ascii_letter, char_is_digit, char_is_space, chars_of,
    contains_text, count_leading_space, find_chars, find_from, has_char, in_list,
    is_ascii_letter, is_at, is_digit, is_space, lemma_bytes_len_prefix, lemma_find_from,
    lemma_skip_step, lemma_split_once_len, lemma_take_full, lemma_take_step, lemma_texts_push,
    lemma_trimmed_len, lines, lines_of, matches_at, one_of, only_chars, opt_str, opt_text,
    repeat, repeat_str, replace, replaced, split_char, split_on, split_once, split_once_spec,
    starts_with, starts_with_spec, str_eq, string_of, strip_prefix, strip_prefix_spec,
    strip_suffix, strip_suffix_spec, substring, texts, trim, trim_start, trimmed,
    trimmed_start,
};
use vstd::prelude::*;
use vstd::string::*;

verus! {

// ---------------------------------------------------------------------------
// Thinking blocks
// ---------------------------------------------------------------------------

/// A text without one newline at its start.
pub open spec fn without_newline(s: Seq<char>) -> Seq<char> {
    if s.len() > 0 && s[0] == '\n' {
        s.drop_first()
    } else {
        s
    }
}

/// What stands outside and inside the `<think>` blocks of a text. An unclosed block reaches
/// to the end; the newline right after a closed one is dropped.
pub open spec fn think_parts(s: Seq<char>) -> (Seq<char>, Seq<char>)
    decreases s.len() via think_parts_decreases
{
    match split_once_spec(s, "<think>"@) {
        None => (s, Seq::empty()),
        Some((before, rest)) => match split_once_spec(rest, "</think>"@) {
            None => (before, rest),
            Some((inner, after)) => {
                let (shown, hidden) = think_parts(without_newline(after));
                (before + shown, inner + hidden)
            },
        },
    }
}

#[via_fn]
proof fn think_parts_decreases(s: Seq<char>) {
    lemma_think_parts_shrink(s);
}

proof fn lemma_think_parts_shrink(s: Seq<char>)
    ensures
        split_once_spec(s, "<think>"@) matches Some((before, rest)) ==> (split_once_spec(
            rest,
            "</think>"@,
        ) matches Some((inner, after)) ==> without_newline(after).len() < s.len()),
{
    reveal_strlit("<think>");
    lemma_split_once_len(s, "<think>"@);
    if let Some((before, rest)) = split_once_spec(s, "<think>"@) {
        lemma_split_once_len(rest, "</think>"@);
    }
}

pub fn skip_newline(s: String) -> (r: String)
    ensures
        r@ == without_newline(s@),
{
    let c = chars_of(s.as_str());
    if c.len() > 0 && c[0] == '\n' {
        let r = substring(c.as_slice(), 1, c.len());
        proof {
            assert(r@ =~= s@.drop_first());
        }
        r
    } else {
        s
    }
}

/// Splits a text into what is shown and what was thought, both trimmed.
pub fn strip_thinking(input: &str) -> (r: (String, String))
    ensures
        r.0@ == trimmed(think_parts(input@).0),
        r.1@ == trimmed(think_parts(input@).1),
{
    let mut output = String::new();
    let mut thinking = String::new();
    let mut remaining = input.to_owned();
    proof {
        assert(output@ + think_parts(remaining@).0 =~= think_parts(input@).0);
        assert(thinking@ + think_parts(remaining@).1 =~= think_parts(input@).1);
    }
    let ghost goal = think_parts(input@);
    loop
        invariant
            output@ + think_parts(remaining@).0 == goal.0,
            thinking@ + think_parts(remaining@).1 == goal.1,
            goal == think_parts(input@),
        decreases remaining@.len(),
    {
        let ghost out0 = output@;
        let ghost th0 = thinking@;
        match split_once(remaining.as_str(), "<think>") {
            None => {
                output.append(remaining.as_str());
                proof {
                    assert(th0 + Seq::<char>::empty() =~= th0);
                }
                return (trim(output.as_str()), trim(thinking.as_str()));
            },
            Some((before, rest)) => {
                output.append(before.as_str());
                match split_once(rest.as_str(), "</think>") {
                    None => {
                        thinking.append(rest.as_str());
                        return (trim(output.as_str()), trim(thinking.as_str()));
                    },
                    Some((inner, after)) => {
                        thinking.append(inner.as_str());
                        proof {
                            lemma_think_parts_shrink(remaining@);
                            let next = think_parts(without_newline(after@));
                            assert(out0 + (before@ + next.0) =~= out0 + before@ + next.0);
                            assert(th0 + (inner@ + next.1) =~= th0 + inner@ + next.1);
                        }
                        remaining = skip_newline(after);
                    },
                }
            },
        }
    }
}

/// A text without a `<think>` tag is shown whole, and nothing of it is thought.
pub proof fn law_no_thinking_without_tag(s: Seq<char>)
    requires
        !contains_text(s, "<think>"@),
    ensures
        think_parts(s) == (s, Seq::<char>::empty()),
{
}

/// A text of one closed block, followed by text without a tag, is parted at the block.
pub proof fn law_thinking_is_parted(before: Seq<char>, inner: Seq<char>, after: Seq<char>)
    requires
        split_once_spec(before + "<think>"@ + (inner + "</think>"@ + after), "<think>"@) == Some(
            (before, inner + "</think>"@ + after),
        ),
        split_once_spec(inner + "</think>"@ + after, "</think>"@) == Some((inner, after)),
        !contains_text(without_newline(after), "<think>"@),
    ensures
        think_parts(before + "<think>"@ + (inner + "</think>"@ + after)) == (
            before + without_newline(after),
            inner,
        ),
{
    law_no_thinking_without_tag(without_newline(after));
    assert(inner + Seq::<char>::empty() =~= inner);
}

// ---------------------------------------------------------------------------
// Inline markdown
// ---------------------------------------------------------------------------

/// A text in a style that outlives the resets inside it.
pub open spec fn sticky(style: Seq<char>, text: Seq<char>) -> Seq<char> {
    if text.len() == 0 {
        Seq::empty()
    } else {
        style + replaced(text, RESET@, RESET@ + style) + RESET@
    }
}

pub fn sticky_style(style: &str, text: &str) -> (r: String)
    ensures
        r@ == sticky(style@, text@),
{
    if text.is_empty() {
        return String::new();
    }
    proof {
        reveal_strlit("\x1b[0m");
    }
    let again = RESET.to_owned().concat(style);
    let persisted = replace(text, RESET, again.as_str());
    style.to_owned().concat(persisted.as_str()).concat(RESET)
}

pub open spec fn superscript(c: char) -> char {
    match c {
        '0' => '⁰',
        '1' => '¹',
        '2' => '²',
        '3' => '³',
        '4' => '⁴',
        '5' => '⁵',
        '6' => '⁶',
        '7' => '⁷',
        '8' => '⁸',
        '9' => '⁹',
        _ => c,
    }
}

pub fn to_superscript_digit(ch: char) -> (r: char)
    ensures
        r == superscript(ch),
{
    match ch {
        '0' => '⁰',
        '1' => '¹',
        '2' => '²',
        '3' => '³',
        '4' => '⁴',
        '5' => '⁵',
        '6' => '⁶',
        '7' => '⁷',
        '8' => '⁸',
        '9' => '⁹',
        _ => ch,
    }
}

pub open spec fn all_digits(s: Seq<char>) -> bool {
    forall|i: int| 0 <= i < s.len() ==> is_digit(#[trigger] s[i])
}

pub fn is_all_digits(s: &str) -> (r: bool)
    ensures
        r == all_digits(s@),
{
    let c = chars_of(s);
    let mut i: usize = 0;
    while i < c.len()
        invariant
            i <= c@.len(),
            c@ == s@,
            forall|k: int| 0 <= k < i ==> is_digit(#[trigger] s@[k]),
        decreases c@.len() - i,
    {
        if !char_is_digit(c[i]) {
            return false;
        }
        i = i + 1;
    }
    true
}

/// A footnote label as it is shown: a number in superscript, another label as it is.
pub open spec fn footnote_label(label: Seq<char>) -> Seq<char> {
    if all_digits(label) {
        label.map_values(|c: char| superscript(c))
    } else {
        label
    }
}

pub fn footnote_display_label(label: &str) -> (r: String)
    ensures
        r@ == footnote_label(label@),
{
    if !is_all_digits(label) {
        return label.to_owned();
    }
    let c = chars_of(label);
    let ghost goal = footnote_label(label@);
    let mut out = String::new();
    let mut i: usize = 0;
    while i < c.len()
        invariant
            i <= c@.len(),
            c@ == label@,
            goal == label@.map_values(|c: char| superscript(c)),
            out@ == goal.take(i as int),
        decreases c@.len() - i,
    {
        proof {
            lemma_take_step(goal, i as int);
        }
        out.push(to_superscript_digit(c[i]));
        i = i + 1;
    }
    proof {
        lemma_take_full(goal);
    }
    out
}

pub open spec fn footnote_marker(label: Seq<char>) -> Seq<char> {
    if all_digits(label) {
        DIM@ + CYAN@ + "⁽"@ + footnote_label(label) + "⁾"@ + RESET@
    } else {
        DIM@ + CYAN@ + "[^"@ + footnote_label(label) + "]"@ + RESET@
    }
}

pub fn render_footnote_marker(label: &str) -> (r: String)
    ensures
        r@ == footnote_marker(label@),
{
    let shown = footnote_display_label(label);
    if is_all_digits(label) {
        DIM.to_owned().concat(CYAN).concat("⁽").concat(shown.as_str()).concat("⁾").concat(RESET)
    } else {
        DIM.to_owned().concat(CYAN).concat("[^").concat(shown.as_str()).concat("]").concat(RESET)
    }
}

/// An inline construct, by the index ranges of its parts.
pub enum Inline {
    Code(int, int),
    Footnote(int, int),
    Link(int, int, int, int),
    BoldItalic(int, int),
    Strike(int, int),
    Bold(int, int),
    Italic(int, int),
    Plain,
}

pub open spec fn closing1(s: Seq<char>, i: int, c: char) -> Option<int> {
    find_from(s, seq![c], i)
}

pub open spec fn closing2(s: Seq<char>, i: int, c: char) -> Option<int> {
    find_from(s, seq![c, c], i)
}

pub open spec fn closing3(s: Seq<char>, i: int, c: char) -> Option<int> {
    find_from(s, seq![c, c, c], i)
}

pub open spec fn char_at(s: Seq<char>, i: int, c: char) -> bool {
    0 <= i < s.len() && s[i] == c
}

/// The bracketed construct that starts at index `i`: a footnote reference or a link.
pub open spec fn bracket_at(s: Seq<char>, i: int) -> Inline {
    if !char_at(s, i, '[') {
        Inline::Plain
    } else if char_at(s, i + 1, '^') {
        match closing1(s, i + 2, ']') {
            Some(end) => Inline::Footnote(i + 2, end),
            None => Inline::Plain,
        }
    } else {
        match closing1(s, i + 1, ']') {
            Some(label_end) => if char_at(s, label_end + 1, '(') {
                match closing1(s, label_end + 2, ')') {
                    Some(url_end) => Inline::Link(i + 1, label_end, label_end + 2, url_end),
                    None => Inline::Plain,
                }
            } else {
                Inline::Plain
            },
            None => Inline::Plain,
        }
    }
}

/// The emphasis that starts at index `i`.
pub open spec fn emphasis_at(s: Seq<char>, i: int) -> Inline {
    let star = char_at(s, i, '*');
    let star2 = star && char_at(s, i + 1, '*');
    let star3 = star2 && char_at(s, i + 2, '*');
    if star3 && closing3(s, i + 3, '*') is Some {
        Inline::BoldItalic(i + 3, closing3(s, i + 3, '*').unwrap())
    } else if char_at(s, i, '~') && char_at(s, i + 1, '~') && closing2(s, i + 2, '~') is Some {
        Inline::Strike(i + 2, closing2(s, i + 2, '~').unwrap())
    } else if star2 && closing2(s, i + 2, '*') is Some {
        Inline::Bold(i + 2, closing2(s, i + 2, '*').unwrap())
    } else if star && !star2 && closing1(s, i + 1, '*') is Some {
        Inline::Italic(i + 1, closing1(s, i + 1, '*').unwrap())
    } else {
        Inline::Plain
    }
}

/// The construct that starts at index `i`.
pub open spec fn inline_at(s: Seq<char>, i: int) -> Inline {
    if char_at(s, i, '`') && closing1(s, i + 1, '`') is Some {
        Inline::Code(i + 1, closing1(s, i + 1, '`').unwrap())
    } else if !(bracket_at(s, i) is Plain) {
        bracket_at(s, i)
    } else {
        emphasis_at(s, i)
    }
}

/// The index right after the construct that starts at index `i`.
pub open spec fn inline_end(t: Inline, i: int) -> int {
    match t {
        Inline::Code(_, end) => end + 1,
        Inline::Footnote(_, end) => end + 1,
        Inline::Link(_, _, _, end) => end + 1,
        Inline::BoldItalic(_, end) => end + 3,
        Inline::Strike(_, end) => end + 2,
        Inline::Bold(_, end) => end + 2,
        Inline::Italic(_, end) => end + 1,
        Inline::Plain => i + 1,
    }
}

/// A link: its label, underlined, and its address unless that is the label.
pub open spec fn link_text(label: Seq<char>, rendered: Seq<char>, url: Seq<char>) -> Seq<char> {
    let shown = sticky(UNDERLINE@ + CYAN@, rendered);
    if label == url || shown.len() == 0 {
        shown
    } else {
        shown + " "@ + DIM@ + CYAN@ + "<"@ + url + ">"@ + RESET@
    }
}

/// A line of markdown from index `i` on as styled text.
pub open spec fn inline_from(s: Seq<char>, i: int) -> Seq<char>
    decreases s.len(), s.len() - i via inline_from_decreases
{
    if i < 0 || i >= s.len() {
        Seq::empty()
    } else {
        let t = inline_at(s, i);
        let shown = match t {
            Inline::Code(a, b) => YELLOW@ + s.subrange(a, b) + RESET@,
            Inline::Footnote(a, b) => footnote_marker(s.subrange(a, b)),
            Inline::Link(a, b, c, d) => link_text(
                s.subrange(a, b),
                inline_from(s.subrange(a, b), 0),
                s.subrange(c, d),
            ),
            Inline::BoldItalic(a, b) => BOLD@ + ITALIC@ + s.subrange(a, b) + RESET@,
            Inline::Strike(a, b) => STRIKETHROUGH@ + s.subrange(a, b) + RESET@,
            Inline::Bold(a, b) => BOLD@ + s.subrange(a, b) + RESET@,
            Inline::Italic(a, b) => ITALIC@ + s.subrange(a, b) + RESET@,
            Inline::Plain => seq![s[i]],
        };
        shown + inline_from(s, inline_end(t, i))
    }
}

/// A line of markdown as styled text.
pub open spec fn inline(s: Seq<char>) -> Seq<char> {
    inline_from(s, 0)
}

pub proof fn lemma_inline_at(s: Seq<char>, i: int)
    requires
        0 <= i < s.len(),
    ensures
        i < inline_end(inline_at(s, i), i) <= s.len(),
        match inline_at(s, i) {
            Inline::Code(a, b) => i < a <= b <= s.len(),
            Inline::Footnote(a, b) => i < a <= b <= s.len(),
            Inline::Link(a, b, c, d) => i < a <= b < c <= d <= s.len(),
            Inline::BoldItalic(a, b) => i < a <= b <= s.len(),
            Inline::Strike(a, b) => i < a <= b <= s.len(),
            Inline::Bold(a, b) => i < a <= b <= s.len(),
            Inline::Italic(a, b) => i < a <= b <= s.len(),
            Inline::Plain => true,
        },
{
    lemma_find_from(s, seq!['`'], i + 1);
    lemma_find_from(s, seq![']'], i + 1);
    lemma_find_from(s, seq![']'], i + 2);
    if let Some(k) = closing1(s, i + 1, ']') {
        lemma_find_from(s, seq![')'], k + 2);
    }
    lemma_find_from(s, seq!['*'], i + 1);
    lemma_find_from(s, seq!['*', '*'], i + 2);
    lemma_find_from(s, seq!['~', '~'], i + 2);
    lemma_find_from(s, seq!['*', '*', '*'], i + 3);
}

#[via_fn]
proof fn inline_from_decreases(s: Seq<char>, i: int) {
    if 0 <= i < s.len() {
        lemma_inline_at(s, i);
    }
}

enum Token {
    Code(usize, usize),
    Footnote(usize, usize),
    Link(usize, usize, usize, usize),
    BoldItalic(usize, usize),
    Strike(usize, usize),
    Bold(usize, usize),
    Italic(usize, usize),
    Plain,
}

spec fn token_view(t: Token) -> Inline {
    match t {
        Token::Code(a, b) => Inline::Code(a as int, b as int),
        Token::Footnote(a, b) => Inline::Footnote(a as int, b as int),
        Token::Link(a, b, c, d) => Inline::Link(a as int, b as int, c as int, d as int),
        Token::BoldItalic(a, b) => Inline::BoldItalic(a as int, b as int),
        Token::Strike(a, b) => Inline::Strike(a as int, b as int),
        Token::Bold(a, b) => Inline::Bold(a as int, b as int),
        Token::Italic(a, b) => Inline::Italic(a as int, b as int),
        Token::Plain => Inline::Plain,
    }
}

pub fn find_closing(chars: &[char], start: usize, marker: char) -> (r: Option<usize>)
    requires
        start <= chars@.len(),
    ensures
        match r {
            Some(k) => closing1(chars@, start as int, marker) == Some(k as int) && start <= k < chars@.len(),
            None => closing1(chars@, start as int, marker) is None,
        },
{
    let m = [marker];
    proof {
        assert(m@ =~= seq![marker]);
    }
    find_chars(chars, &m, start)
}

pub fn find_double_closing(chars: &[char], start: usize, marker: char) -> (r: Option<usize>)
    requires
        start <= chars@.len(),
    ensures
        match r {
            Some(k) => closing2(chars@, start as int, marker) == Some(k as int) && start <= k && k + 2
                <= chars@.len(),
            None => closing2(chars@, start as int, marker) is None,
        },
{
    let m = [marker, marker];
    proof {
        assert(m@ =~= seq![marker, marker]);
    }
    find_chars(chars, &m, start)
}

pub fn find_triple_closing(chars: &[char], start: usize, marker: char) -> (r: Option<usize>)
    requires
        start <= chars@.len(),
    ensures
        match r {
            Some(k) => closing3(chars@, start as int, marker) == Some(k as int) && start <= k && k + 3
                <= chars@.len(),
            None => closing3(chars@, start as int, marker) is None,
        },
{
    let m = [marker, marker, marker];
    proof {
        assert(m@ =~= seq![marker, marker, marker]);
    }
    find_chars(chars, &m, start)
}

fn bracket_token(c: &[char], i: usize) -> (t: Token)
    requires
        i < c@.len(),
    ensures
        token_view(t) == bracket_at(c@, i as int),
{
    let n: usize = c.len();
    if c[i] != '[' {
        return Token::Plain;
    }
    if i + 1 < n && c[i + 1] == '^' {
        return match find_closing(c, i + 2, ']') {
            Some(end) => Token::Footnote(i + 2, end),
            None => Token::Plain,
        };
    }
    match find_closing(c, i + 1, ']') {
        Some(label_end) => {
            if label_end + 1 < n && c[label_end + 1] == '(' {
                match find_closing(c, label_end + 2, ')') {
                    Some(url_end) => Token::Link(i + 1, label_end, label_end + 2, url_end),
                    None => Token::Plain,
                }
            } else {
                Token::Plain
            }
        },
        None => Token::Plain,
    }
}

fn emphasis_token(c: &[char], i: usize) -> (t: Token)
    requires
        i < c@.len(),
    ensures
        token_view(t) == emphasis_at(c@, i as int),
{
    let n: usize = c.len();
    let star = c[i] == '*';
    let star2 = star && i + 1 < n && c[i + 1] == '*';
    let star3 = star2 && i + 2 < n && c[i + 2] == '*';
    if star3 {
        if let Some(end) = find_triple_closing(c, i + 3, '*') {
            return Token::BoldItalic(i + 3, end);
        }
    }
    if c[i] == '~' && i + 1 < n && c[i + 1] == '~' {
        if let Some(end) = find_double_closing(c, i + 2, '~') {
            return Token::Strike(i + 2, end);
        }
    }
    if star2 {
        if let Some(end) = find_double_closing(c, i + 2, '*') {
            return Token::Bold(i + 2, end);
        }
    }
    if star && !star2 {
        if let Some(end) = find_closing(c, i + 1, '*') {
            return Token::Italic(i + 1, end);
        }
    }
    Token::Plain
}

fn next_token(c: &[char], i: usize) -> (t: Token)
    requires
        i < c@.len(),
    ensures
        token_view(t) == inline_at(c@, i as int),
{
    if c[i] == '`' {
        if let Some(end) = find_closing(c, i + 1, '`') {
            return Token::Code(i + 1, end);
        }
    }
    match bracket_token(c, i) {
        Token::Plain => emphasis_token(c, i),
        t => t,
    }
}

fn link_string(label: &str, rendered: &str, url: &str) -> (r: String)
    ensures
        r@ == link_text(label@, rendered@, url@),
{
    let style = UNDERLINE.to_owned().concat(CYAN);
    let shown = sticky_style(style.as_str(), rendered);
    if str_eq(label, url) || shown.as_str().is_empty() {
        return shown;
    }
    shown.concat(" ").concat(DIM).concat(CYAN).concat("<").concat(url).concat(">").concat(RESET)
}

pub fn render_link(label: &str, url: &str) -> (r: String)
    ensures
        r@ == link_text(label@, inline(label@), url@),
{
    let rendered = render_inline(label);
    link_string(label, rendered.as_str(), url)
}

fn inline_string(c: &[char]) -> (r: String)
    ensures
        r@ == inline(c@),
    decreases c@.len(),
{
    let n: usize = c.len();
    let mut out = String::new();
    let mut i: usize = 0;
    proof {
        assert(out@ + inline_from(c@, 0) =~= inline(c@));
    }
    while i < n
        invariant
            i <= n,
            n == c@.len(),
            out@ + inline_from(c@, i as int) == inline(c@),
        decreases n - i,
    {
        let t = next_token(c, i);
        proof {
            lemma_inline_at(c@, i as int);
        }
        let ghost before = out@;
        let ghost i0 = i as int;
        let shown = match t {
            Token::Code(a, b) => {
                i = b + 1;
                painted(YELLOW, substring(c, a, b).as_str())
            },
            Token::Footnote(a, b) => {
                i = b + 1;
                render_footnote_marker(substring(c, a, b).as_str())
            },
            Token::Link(a, b, p, q) => {
                i = q + 1;
                let label = vstd::slice::slice_subrange(c, a, b);
                let rendered = inline_string(label);
                link_string(
                    string_of(label).as_str(),
                    rendered.as_str(),
                    substring(c, p, q).as_str(),
                )
            },
            Token::BoldItalic(a, b) => {
                i = b + 3;
                BOLD.to_owned().concat(ITALIC).concat(substring(c, a, b).as_str()).concat(RESET)
            },
            Token::Strike(a, b) => {
                i = b + 2;
                painted(STRIKETHROUGH, substring(c, a, b).as_str())
            },
            Token::Bold(a, b) => {
                i = b + 2;
                painted(BOLD, substring(c, a, b).as_str())
            },
            Token::Italic(a, b) => {
                i = b + 1;
                painted(ITALIC, substring(c, a, b).as_str())
            },
            Token::Plain => {
                i = i + 1;
                let r = substring(c, i - 1, i);
                proof {
                    assert(r@ =~= seq![c@[i - 1]]);
                }
                r
            },
        };
        out.append(shown.as_str());
        proof {
            assert(before + (shown@ + inline_from(c@, i as int)) =~= before + shown@ + inline_from(
                c@,
                i as int,
            ));
        }
    }
    proof {
        assert(out@ + Seq::<char>::empty() =~= out@);
    }
    out
}

/// Renders the inline markdown of one line.
pub fn render_inline(text: &str) -> (r: String)
    ensures
        r@ == inline(text@),
{
    let c = chars_of(text);
    inline_string(c.as_slice())
}

// ---------------------------------------------------------------------------
// Code
// ---------------------------------------------------------------------------

pub open spec fn ends_lang(c: char) -> bool {
    is_space(c) || c == ',' || c == '{'
}

pub open spec fn lang_end(s: Seq<char>, i: int) -> int
    decreases s.len() - i,
{
    if 0 <= i < s.len() && !ends_lang(s[i]) {
        lang_end(s, i + 1)
    } else {
        i
    }
}

/// The language word of a fence: what stands before the first space, comma or brace.
pub open spec fn code_lang(s: Seq<char>) -> Seq<char> {
    trimmed(s.take(lang_end(s, 0)))
}

pub fn normalize_code_lang(lang: &str) -> (r: String)
    ensures
        r@ == code_lang(lang@),
{
    let c = chars_of(lang);
    let mut i: usize = 0;
    while i < c.len() && !(char_is_space(c[i]) || c[i] == ',' || c[i] == '{')
        invariant
            i <= c@.len(),
            c@ == lang@,
            lang_end(lang@, 0) == lang_end(lang@, i as int),
        decreases c@.len() - i,
    {
        i = i + 1;
    }
    let head = substring(c.as_slice(), 0, i);
    proof {
        assert(head@ =~= lang@.take(i as int));
    }
    trim(head.as_str())
}

pub open spec fn slash_langs() -> Seq<&'static str> {
    seq!["rs", "rust", "js", "jsx", "ts", "tsx", "c", "cpp", "cc", "cxx", "go", "java", "kt",
        "kotlin", "swift", "scala"]
}

pub open spec fn hash_langs() -> Seq<&'static str> {
    seq!["py", "python", "sh", "bash", "zsh", "yaml", "yml", "toml", "rb", "ruby", "perl", "pl",
        "ini", "conf"]
}

pub open spec fn dash_langs() -> Seq<&'static str> {
    seq!["sql", "lua"]
}

/// What starts a comment that reaches to the end of the line.
pub open spec fn comment_prefix(lang: Seq<char>) -> Option<&'static str> {
    if in_list(lang, slash_langs()) {
        Some("//")
    } else if in_list(lang, hash_langs()) {
        Some("#")
    } else if in_list(lang, dash_langs()) {
        Some("--")
    } else {
        None
    }
}

pub fn comment_prefixes(lang: &str) -> (r: Option<&'static str>)
    ensures
        r == comment_prefix(lang@),
{
    let slash = ["rs", "rust", "js", "jsx", "ts", "tsx", "c", "cpp", "cc", "cxx", "go", "java",
        "kt", "kotlin", "swift", "scala"];
    let hash = ["py", "python", "sh", "bash", "zsh", "yaml", "yml", "toml", "rb", "ruby", "perl",
        "pl", "ini", "conf"];
    let dash = ["sql", "lua"];
    proof {
        assert(slash@ =~= slash_langs());
        assert(hash@ =~= hash_langs());
        assert(dash@ =~= dash_langs());
    }
    if one_of(lang, &slash) {
        Some("//")
    } else if one_of(lang, &hash) {
        Some("#")
    } else if one_of(lang, &dash) {
        Some("--")
    } else {
        None
    }
}

pub open spec fn rust_lang(lang: Seq<char>) -> bool {
    in_list(lang, seq!["rs", "rust"])
}

pub open spec fn script_lang(lang: Seq<char>) -> bool {
    in_list(lang, seq!["js", "jsx", "ts", "tsx"])
}

pub open spec fn python_lang(lang: Seq<char>) -> bool {
    in_list(lang, seq!["py", "python"])
}

pub open spec fn shell_lang(lang: Seq<char>) -> bool {
    in_list(lang, seq!["sh", "bash", "zsh"])
}

pub open spec fn yaml_lang(lang: Seq<char>) -> bool {
    in_list(lang, seq!["toml", "yaml", "yml"])
}

/// The keywords of a language.
pub open spec fn keywords(lang: Seq<char>) -> Seq<&'static str> {
    if rust_lang(lang) {
        seq!["fn", "let", "mut", "pub", "impl", "struct", "enum", "trait", "use", "mod", "match",
            "if", "else", "loop", "while", "for", "in", "return", "async", "await", "const",
            "static", "crate", "super", "Self", "self"]
    } else if script_lang(lang) {
        seq!["function", "const", "let", "var", "return", "if", "else", "for", "while", "switch",
            "case", "break", "continue", "class", "new", "import", "from", "export", "async",
            "await", "try", "catch", "finally"]
    } else if python_lang(lang) {
        seq!["def", "class", "import", "from", "return", "if", "elif", "else", "for", "while",
            "in", "async", "await", "with", "as", "try", "except", "finally", "lambda", "pass"]
    } else if shell_lang(lang) {
        seq!["if", "then", "else", "fi", "for", "do", "done", "case", "esac", "function", "local",
            "export", "in"]
    } else {
        Seq::empty()
    }
}

/// The literal words of a language.
pub open spec fn literals(lang: Seq<char>) -> Seq<&'static str> {
    if rust_lang(lang) {
        seq!["true", "false", "None", "Some", "Ok", "Err"]
    } else if script_lang(lang) {
        seq!["true", "false", "null", "undefined"]
    } else if python_lang(lang) {
        seq!["True", "False", "None"]
    } else if yaml_lang(lang) {
        seq!["true", "false"]
    } else if lang == "json"@ {
        seq!["true", "false", "null"]
    } else if shell_lang(lang) {
        seq!["true", "false"]
    } else {
        Seq::empty()
    }
}

fn is_rust(lang: &str) -> (r: bool)
    ensures
        r == rust_lang(lang@),
{
    let set = ["rs", "rust"];
    proof {
        assert(set@ =~= seq!["rs", "rust"]);
    }
    one_of(lang, &set)
}

fn is_script(lang: &str) -> (r: bool)
    ensures
        r == script_lang(lang@),
{
    let set = ["js", "jsx", "ts", "tsx"];
    proof {
        assert(set@ =~= seq!["js", "jsx", "ts", "tsx"]);
    }
    one_of(lang, &set)
}

fn is_python(lang: &str) -> (r: bool)
    ensures
        r == python_lang(lang@),
{
    let set = ["py", "python"];
    proof {
        assert(set@ =~= seq!["py", "python"]);
    }
    one_of(lang, &set)
}

fn is_shell(lang: &str) -> (r: bool)
    ensures
        r == shell_lang(lang@),
{
    let set = ["sh", "bash", "zsh"];
    proof {
        assert(set@ =~= seq!["sh", "bash", "zsh"]);
    }
    one_of(lang, &set)
}

fn is_yaml(lang: &str) -> (r: bool)
    ensures
        r == yaml_lang(lang@),
{
    let set = ["toml", "yaml", "yml"];
    proof {
        assert(set@ =~= seq!["toml", "yaml", "yml"]);
    }
    one_of(lang, &set)
}

pub fn keyword_set(lang: &str) -> (r: Vec<&'static str>)
    ensures
        r@ == keywords(lang@),
{
    let r: Vec<&'static str> = if is_rust(lang) {
        vec!["fn", "let", "mut", "pub", "impl", "struct", "enum", "trait", "use", "mod", "match",
            "if", "else", "loop", "while", "for", "in", "return", "async", "await", "const",
            "static", "crate", "super", "Self", "self"]
    } else if is_script(lang) {
        vec!["function", "const", "let", "var", "return", "if", "else", "for", "while", "switch",
            "case", "break", "continue", "class", "new", "import", "from", "export", "async",
            "await", "try", "catch", "finally"]
    } else if is_python(lang) {
        vec!["def", "class", "import", "from", "return", "if", "elif", "else", "for", "while",
            "in", "async", "await", "with", "as", "try", "except", "finally", "lambda", "pass"]
    } else if is_shell(lang) {
        vec!["if", "then", "else", "fi", "for", "do", "done", "case", "esac", "function", "local",
            "export", "in"]
    } else {
        Vec::new()
    };
    proof {
        assert(r@ =~= keywords(lang@));
    }
    r
}

pub fn boolean_literal_set(lang: &str) -> (r: Vec<&'static str>)
    ensures
        r@ == literals(lang@),
{
    let r: Vec<&'static str> = if is_rust(lang) {
        vec!["true", "false", "None", "Some", "Ok", "Err"]
    } else if is_script(lang) {
        vec!["true", "false", "null", "undefined"]
    } else if is_python(lang) {
        vec!["True", "False", "None"]
    } else if is_yaml(lang) {
        vec!["true", "false"]
    } else if str_eq(lang, "json") {
        vec!["true", "false", "null"]
    } else if is_shell(lang) {
        vec!["true", "false"]
    } else {
        Vec::new()
    };
    proof {
        assert(r@ =~= literals(lang@));
    }
    r
}

pub open spec fn ident_start(c: char) -> bool {
    c == '_' || is_ascii_letter(c)
}

pub open spec fn ident_char(c: char) -> bool {
    c == '_' || is_ascii_letter(c) || is_digit(c)
}

pub open spec fn number_char(c: char) -> bool {
    c == '_' || c == '.' || is_ascii_letter(c) || is_digit(c)
}

/// The index right after the identifier characters that stand at index `i`.
pub open spec fn ident_end(s: Seq<char>, i: int) -> int
    decreases s.len() - i,
{
    if 0 <= i < s.len() && ident_char(s[i]) {
        ident_end(s, i + 1)
    } else {
        i
    }
}

/// The index right after the number characters that stand at index `i`.
pub open spec fn number_end(s: Seq<char>, i: int) -> int
    decreases s.len() - i,
{
    if 0 <= i < s.len() && number_char(s[i]) {
        number_end(s, i + 1)
    } else {
        i
    }
}

/// The index right after the closing quote of a string whose contents go on at index `i`,
/// or the end of the line.
pub open spec fn quote_end(s: Seq<char>, i: int, quote: char, escaped: bool) -> int
    decreases s.len() - i,
{
    if i < 0 || i >= s.len() {
        i
    } else if escaped {
        quote_end(s, i + 1, quote, false)
    } else if s[i] == '\\' {
        quote_end(s, i + 1, quote, true)
    } else if s[i] == quote {
        i + 1
    } else {
        quote_end(s, i + 1, quote, false)
    }
}

pub proof fn lemma_ident_end(s: Seq<char>, i: int)
    requires
        0 <= i <= s.len(),
    ensures
        i <= ident_end(s, i) <= s.len(),
    decreases s.len() - i,
{
    if i < s.len() && ident_char(s[i]) {
        lemma_ident_end(s, i + 1);
    }
}

pub proof fn lemma_number_end(s: Seq<char>, i: int)
    requires
        0 <= i <= s.len(),
    ensures
        i <= number_end(s, i) <= s.len(),
    decreases s.len() - i,
{
    if i < s.len() && number_char(s[i]) {
        lemma_number_end(s, i + 1);
    }
}

pub proof fn lemma_quote_end(s: Seq<char>, i: int, quote: char, escaped: bool)
    requires
        0 <= i <= s.len(),
    ensures
        i <= quote_end(s, i, quote, escaped) <= s.len(),
    decreases s.len() - i,
{
    if i < s.len() {
        if escaped {
            lemma_quote_end(s, i + 1, quote, false);
        } else if s[i] == '\\' {
            lemma_quote_end(s, i + 1, quote, true);
        } else if s[i] != quote {
            lemma_quote_end(s, i + 1, quote, false);
        }
    }
}

pub fn identifier_end_offset(line: &[char], start: usize) -> (r: usize)
    requires
        start <= line@.len(),
    ensures
        r == ident_end(line@, start as int),
        start <= r <= line@.len(),
{
    let mut i: usize = start;
    while i < line.len() && (line[i] == '_' || char_is_ascii_letter(line[i]) || char_is_digit(
        line[i],
    ))
        invariant
            start <= i <= line@.len(),
            ident_end(line@, start as int) == ident_end(line@, i as int),
        decreases line@.len() - i,
    {
        i = i + 1;
    }
    i
}

pub fn number_end_offset(line: &[char], start: usize) -> (r: usize)
    requires
        start <= line@.len(),
    ensures
        r == number_end(line@, start as int),
        start <= r <= line@.len(),
{
    let mut i: usize = start;
    while i < line.len() && (line[i] == '_' || line[i] == '.' || char_is_ascii_letter(line[i])
        || char_is_digit(line[i]))
        invariant
            start <= i <= line@.len(),
            number_end(line@, start as int) == number_end(line@, i as int),
        decreases line@.len() - i,
    {
        i = i + 1;
    }
    i
}

pub fn string_end_offset(line: &[char], start: usize, quote: char) -> (r: usize)
    requires
        start < line@.len(),
    ensures
        r == quote_end(line@, start + 1, quote, false),
        start < r <= line@.len(),
{
    let n: usize = line.len();
    let mut escaped = false;
    let mut i: usize = start + 1;
    while i < n
        invariant
            start < i <= line@.len(),
            n == line@.len(),
            quote_end(line@, start + 1, quote, false) == quote_end(line@, i as int, quote, escaped),
        decreases line@.len() - i,
    {
        let ch: char = line[i];
        i = i + 1;
        if escaped {
            escaped = false;
        } else if ch == '\\' {
            escaped = true;
        } else if ch == quote {
            return i;
        }
    }
    i
}

pub open spec fn comment_at(lang: Seq<char>, s: Seq<char>, i: int) -> bool {
    comment_prefix(lang) matches Some(p) && matches_at(s, p@, i)
}

/// A word of code: a keyword, a literal or another name.
pub open spec fn word_text(lang: Seq<char>, word: Seq<char>) -> Seq<char> {
    if in_list(word, keywords(lang)) {
        BOLD@ + CYAN@ + word + RESET@
    } else if in_list(word, literals(lang)) {
        BOLD@ + MAGENTA@ + word + RESET@
    } else {
        word
    }
}

/// A line of code from index `i` on with its comments, strings, numbers and words coloured.
pub open spec fn highlight_from(lang: Seq<char>, s: Seq<char>, i: int) -> Seq<char>
    decreases s.len() - i via highlight_from_decreases
{
    if i < 0 || i >= s.len() {
        Seq::empty()
    } else if comment_at(lang, s, i) {
        GREEN@ + s.skip(i) + RESET@
    } else if s[i] == '"' || s[i] == '\'' {
        let end = quote_end(s, i + 1, s[i], false);
        YELLOW@ + s.subrange(i, end) + RESET@ + highlight_from(lang, s, end)
    } else if is_digit(s[i]) {
        let end = number_end(s, i + 1);
        MAGENTA@ + s.subrange(i, end) + RESET@ + highlight_from(lang, s, end)
    } else if ident_start(s[i]) {
        let end = ident_end(s, i + 1);
        word_text(lang, s.subrange(i, end)) + highlight_from(lang, s, end)
    } else {
        seq![s[i]] + highlight_from(lang, s, i + 1)
    }
}

#[via_fn]
proof fn highlight_from_decreases(lang: Seq<char>, s: Seq<char>, i: int) {
    if 0 <= i < s.len() {
        lemma_quote_end(s, i + 1, s[i], false);
        lemma_number_end(s, i + 1);
        lemma_ident_end(s, i + 1);
    }
}

/// A line of code, coloured where its language is named.
pub open spec fn highlighted(lang: Seq<char>, s: Seq<char>) -> Seq<char> {
    if code_lang(lang).len() == 0 {
        s
    } else {
        highlight_from(code_lang(lang), s, 0)
    }
}

fn word_string(lang: &str, word: String) -> (r: String)
    ensures
        r@ == word_text(lang@, word@),
{
    let keys = keyword_set(lang);
    let lits = boolean_literal_set(lang);
    if one_of(word.as_str(), keys.as_slice()) {
        BOLD.to_owned().concat(CYAN).concat(word.as_str()).concat(RESET)
    } else if one_of(word.as_str(), lits.as_slice()) {
        BOLD.to_owned().concat(MAGENTA).concat(word.as_str()).concat(RESET)
    } else {
        word
    }
}

pub fn highlight_code_content(lang: &str, line: &str) -> (r: String)
    ensures
        r@ == highlighted(lang@, line@),
{
    let norm = normalize_code_lang(lang);
    if norm.as_str().is_empty() {
        return line.to_owned();
    }
    let c = chars_of(line);
    let n: usize = c.len();
    let prefix: Vec<char> = match comment_prefixes(norm.as_str()) {
        Some(p) => chars_of(p),
        None => Vec::new(),
    };
    let has_comments = comment_prefixes(norm.as_str()).is_some();
    let mut out = String::new();
    let mut i: usize = 0;
    let ghost goal = highlight_from(norm@, line@, 0);
    proof {
        assert(out@ + goal =~= goal);
    }
    while i < n
        invariant
            i <= n,
            n == c@.len(),
            c@ == line@,
            has_comments == (comment_prefix(norm@) is Some),
            comment_prefix(norm@) matches Some(p) ==> prefix@ == p@,
            out@ + highlight_from(norm@, line@, i as int) == goal,
        decreases n - i,
    {
        let ghost before = out@;
        if has_comments && is_at(c.as_slice(), prefix.as_slice(), i) {
            let rest = substring(c.as_slice(), i, n);
            proof {
                assert(rest@ =~= line@.skip(i as int));
            }
            let shown = painted(GREEN, rest.as_str());
            out.append(shown.as_str());
            proof {
                assert(goal == out@);
                assert(out@ + Seq::<char>::empty() =~= out@);
            }
            i = n;
        } else {
            let ch: char = c[i];
            let shown: String;
            if ch == '"' || ch == '\'' {
                let end: usize = string_end_offset(c.as_slice(), i, ch);
                shown = painted(YELLOW, substring(c.as_slice(), i, end).as_str());
                i = end;
            } else if char_is_digit(ch) {
                let end: usize = number_end_offset(c.as_slice(), i + 1);
                shown = painted(MAGENTA, substring(c.as_slice(), i, end).as_str());
                i = end;
            } else if ch == '_' || char_is_ascii_letter(ch) {
                let end: usize = identifier_end_offset(c.as_slice(), i + 1);
                shown = word_string(norm.as_str(), substring(c.as_slice(), i, end));
                i = end;
            } else {
                shown = substring(c.as_slice(), i, i + 1);
                proof {
                    assert(shown@ =~= seq![ch]);
                }
                i = i + 1;
            }
            out.append(shown.as_str());
            proof {
                assert(before + (shown@ + highlight_from(norm@, line@, i as int)) =~= before
                    + shown@ + highlight_from(norm@, line@, i as int));
            }
        }
    }
    proof {
        assert(out@ + Seq::<char>::empty() =~= out@);
    }
    out
}

/// A line of a code block: dim, with its colours, and a newline.
pub open spec fn code_line(s: Seq<char>, lang: Seq<char>) -> Seq<char> {
    sticky(DIM@, highlighted(lang, s)) + "\n"@
}

pub fn render_code_block_line_with_lang(line: &str, lang: &str) -> (r: String)
    ensures
        r@ == code_line(line@, lang@),
{
    let high = highlight_code_content(lang, line);
    sticky_style(DIM, high.as_str()).concat("\n")
}

// ---------------------------------------------------------------------------
// Lines
// ---------------------------------------------------------------------------

/// A line of at least three dashes, stars or underscores, with spaces between them.
pub open spec fn horizontal_rule(line: Seq<char>) -> bool {
    let t = trimmed(line);
    t.len() >= 3 && (t[0] == '-' || t[0] == '*' || t[0] == '_') && (forall|i: int|
        0 <= i < t.len() ==> #[trigger] t[i] == t[0] || t[i] == ' ')
}

pub fn is_horizontal_rule(line: &str) -> (r: bool)
    ensures
        r == horizontal_rule(line@),
{
    let t = trim(line);
    let c = chars_of(t.as_str());
    if c.len() < 3 {
        return false;
    }
    let ch: char = c[0];
    if !(ch == '-' || ch == '*' || ch == '_') {
        return false;
    }
    let mut i: usize = 0;
    while i < c.len()
        invariant
            i <= c@.len(),
            c@ == trimmed(line@),
            c@.len() >= 3,
            ch == c@[0],
            forall|k: int| 0 <= k < i ==> #[trigger] c@[k] == ch || c@[k] == ' ',
        decreases c@.len() - i,
    {
        if c[i] != ch && c[i] != ' ' {
            return false;
        }
        i = i + 1;
    }
    true
}

pub open spec fn rule_text(width: nat) -> Seq<char> {
    DIM@ + repeat("─"@, width) + RESET@
}

pub fn rule_string(width: usize) -> (r: String)
    ensures
        r@ == rule_text(width as nat),
{
    painted(DIM, repeat_str("─", width).as_str())
}

/// The white space that a line starts with.
pub open spec fn indent_of(line: Seq<char>) -> Seq<char> {
    line.take(line.len() - trimmed_start(line).len())
}

fn split_indent(line: &str) -> (r: (String, String))
    ensures
        r.0@ == indent_of(line@),
        r.1@ == trimmed_start(line@),
{
    let c = chars_of(line);
    let n: usize = count_leading_space(c.as_slice());
    let a = substring(c.as_slice(), 0, n);
    let b = substring(c.as_slice(), n, c.len());
    proof {
        assert(b@ =~= line@.skip(n as int));
        assert(a@ =~= line@.take(n as int));
    }
    (a, b)
}

pub open spec fn hash_count(s: Seq<char>, i: int) -> int
    decreases s.len() - i,
{
    if 0 <= i < s.len() && s[i] == '#' {
        hash_count(s, i + 1)
    } else {
        i
    }
}

/// A heading: one to six hashes, a space and the title.
pub open spec fn header(line: Seq<char>) -> Option<Seq<char>> {
    let t = trimmed_start(line);
    let level = hash_count(t, 0);
    if 1 <= level <= 6 && char_at(t, level, ' ') {
        Some(BOLD@ + CYAN@ + inline(t.skip(level + 1)) + RESET@)
    } else {
        None
    }
}

pub fn render_header(line: &str) -> (r: Option<String>)
    ensures
        opt_text(r) == header(line@),
{
    let t = trim_start(line);
    let c = chars_of(t.as_str());
    let n: usize = c.len();
    let mut level: usize = 0;
    while level < n && c[level] == '#'
        invariant
            level <= n,
            n == c@.len(),
            hash_count(c@, 0) == hash_count(c@, level as int),
        decreases n - level,
    {
        level = level + 1;
    }
    if level == 0 || level > 6 || level >= n || c[level] != ' ' {
        return None;
    }
    let title = substring(c.as_slice(), level + 1, n);
    proof {
        assert(title@ =~= t@.skip(level + 1));
    }
    let body = render_inline(title.as_str());
    Some(BOLD.to_owned().concat(CYAN).concat(body.as_str()).concat(RESET))
}

/// Whether an item is a task, with its mark and the text behind it.
pub open spec fn task_marker(s: Seq<char>) -> Option<(bool, Seq<char>)> {
    if starts_with_spec(s, "[x] "@) || starts_with_spec(s, "[X] "@) {
        Some((true, s.skip(4)))
    } else if starts_with_spec(s, "[ ] "@) {
        Some((false, s.skip(4)))
    } else {
        None
    }
}

pub fn parse_task_marker(content: &str) -> (r: Option<(bool, String)>)
    ensures
        match r {
            Some(p) => task_marker(content@) == Some((p.0, p.1@)),
            None => task_marker(content@) is None,
        },
{
    proof {
        reveal_strlit("[x] ");
        reveal_strlit("[X] ");
        reveal_strlit("[ ] ");
    }
    if let Some(rest) = strip_prefix(content, "[x] ") {
        return Some((true, rest));
    }
    if let Some(rest) = strip_prefix(content, "[X] ") {
        return Some((true, rest));
    }
    if let Some(rest) = strip_prefix(content, "[ ] ") {
        return Some((false, rest));
    }
    None
}

pub open spec fn check_box(checked: bool) -> Seq<char> {
    if checked {
        GREEN@ + "☑"@ + RESET@
    } else {
        DIM@ + "☐"@ + RESET@
    }
}

/// A list item behind its indent and its marker.
pub open spec fn item_text(indent: Seq<char>, ordered: Option<Seq<char>>, content: Seq<char>) -> Seq<
    char,
> {
    match (task_marker(content), ordered) {
        (Some((checked, rest)), Some(marker)) => indent + DIM@ + marker + RESET@ + " "@ + check_box(
            checked,
        ) + " "@ + inline(rest),
        (Some((checked, rest)), None) => indent + check_box(checked) + " "@ + inline(rest),
        (None, Some(marker)) => indent + DIM@ + marker + RESET@ + " "@ + inline(content),
        (None, None) => indent + DIM@ + "•"@ + RESET@ + " "@ + inline(content),
    }
}

pub fn render_task_list_item(
    indent: &str,
    ordered_marker: Option<&str>,
    content: &str,
) -> (r: Option<String>)
    ensures
        r is Some <==> task_marker(content@) is Some,
        r matches Some(text) ==> text@ == item_text(indent@, opt_str(ordered_marker), content@),
{
    match parse_task_marker(content) {
        None => None,
        Some((checked, rest)) => {
            let mark = if checked {
                painted(GREEN, "☑")
            } else {
                painted(DIM, "☐")
            };
            let body = render_inline(rest.as_str());
            Some(
                match ordered_marker {
                    Some(prefix) => indent.to_owned().concat(DIM).concat(prefix).concat(RESET).concat(
                        " ",
                    ).concat(mark.as_str()).concat(" ").concat(body.as_str()),
                    None => indent.to_owned().concat(mark.as_str()).concat(" ").concat(
                        body.as_str(),
                    ),
                },
            )
        },
    }
}

fn item_string(indent: &str, ordered: Option<&str>, content: &str) -> (r: String)
    ensures
        r@ == item_text(indent@, opt_str(ordered), content@),
{
    if let Some(r) = render_task_list_item(indent, ordered, content) {
        return r;
    }
    let body = render_inline(content);
    match ordered {
        Some(marker) => indent.to_owned().concat(DIM).concat(marker).concat(RESET).concat(
            " ",
        ).concat(body.as_str()),
        None => indent.to_owned().concat(DIM).concat("•").concat(RESET).concat(" ").concat(
            body.as_str(),
        ),
    }
}

pub open spec fn digit_count(s: Seq<char>, i: int) -> int
    decreases s.len() - i,
{
    if 0 <= i < s.len() && is_digit(s[i]) {
        digit_count(s, i + 1)
    } else {
        i
    }
}

/// A list item: a bullet, or a number and a dot, each with a space behind it.
pub open spec fn list_item(line: Seq<char>) -> Option<Seq<char>> {
    let t = trimmed_start(line);
    let n = digit_count(t, 0);
    if t.len() >= 2 && (t[0] == '-' || t[0] == '*' || t[0] == '+') && t[1] == ' ' {
        Some(item_text(indent_of(line), None, t.skip(2)))
    } else if n > 0 && char_at(t, n, '.') && char_at(t, n + 1, ' ') {
        Some(item_text(indent_of(line), Some(t.take(n + 1)), t.skip(n + 2)))
    } else {
        None
    }
}

pub fn render_list_item(line: &str) -> (r: Option<String>)
    ensures
        opt_text(r) == list_item(line@),
{
    let (indent, t) = split_indent(line);
    let c = chars_of(t.as_str());
    let n: usize = c.len();
    if n >= 2 && (c[0] == '-' || c[0] == '*' || c[0] == '+') && c[1] == ' ' {
        let content = substring(c.as_slice(), 2, n);
        proof {
            assert(content@ =~= t@.skip(2));
        }
        return Some(item_string(indent.as_str(), None, content.as_str()));
    }
    let mut k: usize = 0;
    while k < n && char_is_digit(c[k])
        invariant
            k <= n,
            n == c@.len(),
            digit_count(c@, 0) == digit_count(c@, k as int),
        decreases n - k,
    {
        k = k + 1;
    }
    if k > 0 && k < n && c[k] == '.' && k + 1 < n && c[k + 1] == ' ' {
        let marker = substring(c.as_slice(), 0, k + 1);
        let content = substring(c.as_slice(), k + 2, n);
        proof {
            assert(marker@ =~= t@.take(k + 1));
            assert(content@ =~= t@.skip(k + 2));
        }
        return Some(item_string(indent.as_str(), Some(marker.as_str()), content.as_str()));
    }
    None
}

/// A footnote: its marker and its dim text.
pub open spec fn footnote_definition(line: Seq<char>) -> Option<Seq<char>> {
    match strip_prefix_spec(trimmed_start(line), "[^"@) {
        None => None,
        Some(body) => match split_once_spec(body, "]:"@) {
            None => None,
            Some((label, content)) => {
                let shown = sticky(DIM@, inline(trimmed_start(content)));
                if shown.len() == 0 {
                    Some(indent_of(line) + footnote_marker(label))
                } else {
                    Some(indent_of(line) + footnote_marker(label) + " "@ + shown)
                }
            },
        },
    }
}

pub fn render_footnote_definition(line: &str) -> (r: Option<String>)
    ensures
        opt_text(r) == footnote_definition(line@),
{
    let (indent, t) = split_indent(line);
    match strip_prefix(t.as_str(), "[^") {
        None => None,
        Some(body) => match split_once(body.as_str(), "]:") {
            None => None,
            Some((label, content)) => {
                let text = trim_start(content.as_str());
                let inner = render_inline(text.as_str());
                let shown = sticky_style(DIM, inner.as_str());
                let marker = render_footnote_marker(label.as_str());
                if shown.as_str().is_empty() {
                    Some(indent.concat(marker.as_str()))
                } else {
                    Some(indent.concat(marker.as_str()).concat(" ").concat(shown.as_str()))
                }
            },
        },
    }
}

/// The number of quote marks that a text starts with, and what stands behind them.
pub open spec fn quote_depth(s: Seq<char>) -> (nat, Seq<char>)
    decreases s.len() via quote_depth_decreases
{
    if s.len() > 0 && s[0] == '>' {
        let (depth, content) = quote_depth(trimmed_start(s.drop_first()));
        (depth + 1, content)
    } else {
        (0, s)
    }
}

#[via_fn]
proof fn quote_depth_decreases(s: Seq<char>) {
    if s.len() > 0 {
        lemma_trimmed_len(s.drop_first());
    }
}

proof fn lemma_quote_depth_len(s: Seq<char>)
    ensures
        quote_depth(s).1.len() <= s.len(),
        quote_depth(s).0 <= s.len(),
        s.len() > 0 && s[0] == '>' ==> quote_depth(s).1.len() < s.len(),
    decreases s.len(),
{
    if s.len() > 0 && s[0] == '>' {
        lemma_trimmed_len(s.drop_first());
        lemma_quote_depth_len(trimmed_start(s.drop_first()));
    }
}

pub open spec fn is_quote(line: Seq<char>) -> bool {
    trimmed_start(line).len() > 0 && trimmed_start(line)[0] == '>'
}

pub fn parse_blockquote_line(line: &str) -> (r: Option<(String, usize, String)>)
    ensures
        r is Some <==> is_quote(line@),
        r matches Some(q) ==> q.0@ == indent_of(line@) && (q.1 as nat, q.2@) == quote_depth(
            trimmed_start(line@),
        ) && q.2@.len() < line@.len(),
{
    let (indent, t) = split_indent(line);
    let c = chars_of(t.as_str());
    if c.len() == 0 || c[0] != '>' {
        return None;
    }
    let n: usize = c.len();
    let mut depth: usize = 0;
    let mut content = t;
    let ghost goal = quote_depth(trimmed_start(line@));
    loop
        invariant
            depth + quote_depth(content@).0 == goal.0,
            quote_depth(content@).1 == goal.1,
            depth + content@.len() <= n,
            goal == quote_depth(trimmed_start(line@)),
            is_quote(line@),
        ensures
            goal == (depth as nat, content@),
        decreases content@.len(),
    {
        let cc = chars_of(content.as_str());
        if cc.len() == 0 || cc[0] != '>' {
            break;
        }
        let rest = substring(cc.as_slice(), 1, cc.len());
        proof {
            assert(rest@ =~= content@.drop_first());
            lemma_trimmed_len(rest@);
        }
        content = trim_start(rest.as_str());
        depth = depth + 1;
    }
    proof {
        lemma_quote_depth_len(trimmed_start(line@));
        lemma_trimmed_len(line@);
    }
    Some((indent, depth, content))
}

/// The bars of a quote, one for each level.
pub open spec fn quote_bars(depth: nat) -> Seq<char>
    decreases depth,
{
    if depth == 0 {
        Seq::empty()
    } else if depth == 1 {
        BLUE@ + "│"@ + RESET@
    } else {
        quote_bars((depth - 1) as nat) + " "@ + (BLUE@ + "│"@ + RESET@)
    }
}

pub fn render_blockquote_bars(depth: usize) -> (r: String)
    ensures
        r@ == quote_bars(depth as nat),
{
    let bar = painted(BLUE, "│");
    let mut out = String::new();
    let mut i: usize = 0;
    while i < depth
        invariant
            i <= depth,
            bar@ == BLUE@ + "│"@ + RESET@,
            out@ == quote_bars(i as nat),
        decreases depth - i,
    {
        if i == 0 {
            out = bar.clone();
        } else {
            out.append(" ");
            out.append(bar.as_str());
        }
        i = i + 1;
    }
    out
}

pub open spec fn quoted(indent: Seq<char>, depth: nat, shown: Seq<char>) -> Seq<char> {
    if shown.len() == 0 {
        indent + quote_bars(depth)
    } else {
        indent + quote_bars(depth) + " "@ + shown
    }
}

/// One line of markdown as styled text: a quote, a footnote, a heading, a list item or a
/// paragraph line.
pub open spec fn single_line(line: Seq<char>) -> Seq<char>
    decreases line.len() via single_line_decreases
{
    if is_quote(line) {
        let (depth, content) = quote_depth(trimmed_start(line));
        quoted(indent_of(line), depth, sticky(DIM@, if content.len() == 0 {
            Seq::empty()
        } else {
            single_line(content)
        }))
    } else {
        match (footnote_definition(line), header(line), list_item(line)) {
            (Some(r), _, _) => r,
            (None, Some(r), _) => r,
            (None, None, Some(r)) => r,
            (None, None, None) => inline(line),
        }
    }
}

#[via_fn]
proof fn single_line_decreases(line: Seq<char>) {
    if is_quote(line) {
        lemma_quote_depth_len(trimmed_start(line));
        lemma_trimmed_len(line);
    }
}

pub fn render_blockquote_line(line: &str) -> (r: Option<String>)
    ensures
        r is Some <==> is_quote(line@),
        r matches Some(text) ==> text@ == single_line(line@),
    decreases line@.len(), 0nat,
{
    match parse_blockquote_line(line) {
        None => None,
        Some((indent, depth, content)) => {
            let shown = if content.as_str().is_empty() {
                String::new()
            } else {
                let inner = render_single_markdown_line(content.as_str());
                sticky_style(DIM, inner.as_str())
            };
            let bars = render_blockquote_bars(depth);
            proof {
                assert(content@.len() == 0 ==> shown@ == sticky(DIM@, Seq::empty()));
            }
            if shown.as_str().is_empty() {
                Some(indent.concat(bars.as_str()))
            } else {
                Some(indent.concat(bars.as_str()).concat(" ").concat(shown.as_str()))
            }
        },
    }
}

pub fn render_single_markdown_line(line: &str) -> (r: String)
    ensures
        r@ == single_line(line@),
    decreases line@.len(), 1nat,
{
    if let Some(r) = render_blockquote_line(line) {
        return r;
    }
    if let Some(r) = render_footnote_definition(line) {
        return r;
    }
    if let Some(r) = render_header(line) {
        return r;
    }
    if let Some(r) = render_list_item(line) {
        return r;
    }
    render_inline(line)
}

// ---------------------------------------------------------------------------
// Tables
// ---------------------------------------------------------------------------

/// The characters that a table counts as two columns.
pub open spec fn wide_char(c: char) -> bool {
    let n = c as u32;
    ||| 0x1100 <= n <= 0x115F
    ||| 0x2E80 <= n <= 0x303E
    ||| 0x3041 <= n <= 0x33BF
    ||| 0x3400 <= n <= 0x4DBF
    ||| 0x4E00 <= n <= 0x9FFF
    ||| 0xA000 <= n <= 0xA4CF
    ||| 0xAC00 <= n <= 0xD7AF
    ||| 0xF900 <= n <= 0xFAFF
    ||| 0xFE30 <= n <= 0xFE4F
    ||| 0xFF01 <= n <= 0xFF60
    ||| 0xFFE0 <= n <= 0xFFE6
    ||| 0x20000 <= n <= 0x2FA1F
}

pub fn is_wide_char(c: char) -> (r: bool)
    ensures
        r == wide_char(c),
{
    let n: u32 = c as u32;
    (0x1100 <= n && n <= 0x115F) || (0x2E80 <= n && n <= 0x303E) || (0x3041 <= n && n <= 0x33BF)
        || (0x3400 <= n && n <= 0x4DBF) || (0x4E00 <= n && n <= 0x9FFF) || (0xA000 <= n && n
        <= 0xA4CF) || (0xAC00 <= n && n <= 0xD7AF) || (0xF900 <= n && n <= 0xFAFF) || (0xFE30 <= n
        && n <= 0xFE4F) || (0xFF01 <= n && n <= 0xFF60) || (0xFFE0 <= n && n <= 0xFFE6) || (0x20000
        <= n && n <= 0x2FA1F)
}

/// Whether a cell ends inside an escape sequence, and its length without them.
pub open spec fn cell_state(s: Seq<char>) -> (bool, nat)
    decreases s.len(),
{
    if s.len() == 0 {
        (false, 0)
    } else {
        let (esc, len) = cell_state(s.drop_last());
        let c = s.last();
        if c == ESC {
            (true, len)
        } else if esc {
            (c != 'm', len)
        } else if wide_char(c) {
            (false, len + 2)
        } else {
            (false, len + 1)
        }
    }
}

/// The length of a cell on the screen.
pub open spec fn cell_len(s: Seq<char>) -> nat {
    cell_state(s).1
}

pub fn strip_ansi_len(s: &str) -> (r: usize)
    ensures
        r == cell_len(s@),
{
    let c = chars_of(s);
    let n: usize = byte_len(s);
    let mut esc = false;
    let mut len: usize = 0;
    let mut i: usize = 0;
    while i < c.len()
        invariant
            i <= c@.len(),
            c@ == s@,
            n == bytes_len(s@),
            cell_state(s@.take(i as int)) == (esc, len as nat),
            len <= bytes_len(s@.take(i as int)),
        decreases c@.len() - i,
    {
        proof {
            lemma_take_step(s@, i as int);
            lemma_bytes_len_prefix(s@, i + 1, s@.len() as int);
            lemma_take_full(s@);
        }
        let ch: char = c[i];
        if ch == ESC {
            esc = true;
        } else if esc {
            esc = ch != 'm';
        } else if is_wide_char(ch) {
            len = len + 2;
        } else {
            len = len + 1;
        }
        i = i + 1;
    }
    proof {
        lemma_take_full(s@);
    }
    len
}

pub open spec fn table_border_from(widths: Seq<usize>, mid: char, i: int) -> Seq<char>
    decreases i,
{
    if i <= 0 {
        Seq::empty()
    } else {
        let cell = table_border_from(widths, mid, i - 1) + repeat("─"@, (widths[i - 1] + 2) as nat);
        if i < widths.len() {
            cell.push(mid)
        } else {
            cell
        }
    }
}

/// A horizontal border of a table.
pub open spec fn border(widths: Seq<usize>, left: char, mid: char, right: char) -> Seq<char> {
    (seq![left] + table_border_from(widths, mid, widths.len() as int)).push(right)
}

pub fn table_border(widths: &Vec<usize>, left: char, mid: char, right: char) -> (r: String)
    ensures
        r@ == border(widths@, left, mid, right),
{
    let mut s = String::new();
    s.push(left);
    proof {
        assert(s@ =~= seq![left] + table_border_from(widths@, mid, 0));
    }
    let n: usize = widths.len();
    let mut i: usize = 0;
    while i < n
        invariant
            i <= n,
            n == widths@.len(),
            s@ == seq![left] + table_border_from(widths@, mid, i as int),
        decreases n - i,
    {
        let ghost before = s@;
        let bar = repeat_str("─", widths[i]).concat("─").concat("─");
        proof {
            let w = widths@[i as int] as nat;
            assert(repeat("─"@, (w + 1) as nat) == repeat("─"@, w) + "─"@);
            assert(repeat("─"@, (w + 2) as nat) == repeat("─"@, (w + 1) as nat) + "─"@);
            assert(before + bar@ =~= seq![left] + (table_border_from(widths@, mid, i as int)
                + bar@));
        }
        s.append(bar.as_str());
        if i + 1 < n {
            s.push(mid);
        }
        i = i + 1;
        proof {
            assert(s@ =~= seq![left] + table_border_from(widths@, mid, i as int));
        }
    }
    s.push(right);
    s
}

/// A line of a table without the bars at its ends.
pub open spec fn table_line(line: Seq<char>) -> Seq<char> {
    let t = trimmed(line);
    let t = match strip_prefix_spec(t, "|"@) {
        Some(rest) => rest,
        None => t,
    };
    match strip_suffix_spec(t, "|"@) {
        Some(rest) => rest,
        None => t,
    }
}

pub open spec fn separator_line(line: Seq<char>) -> bool {
    all_in(table_line(line), "-:| "@) && table_line(line).contains('-')
}

/// The trimmed cells of a line of a table.
pub open spec fn table_cells(line: Seq<char>) -> Seq<Seq<char>> {
    split_on(table_line(line), '|').map_values(|s: Seq<char>| trimmed(s))
}

/// The rows of a table: its lines, but for the separator.
pub open spec fn table_rows(lines: Seq<Seq<char>>) -> Seq<Seq<Seq<char>>>
    decreases lines.len(),
{
    if lines.len() == 0 {
        Seq::empty()
    } else {
        let before = table_rows(lines.drop_last());
        if separator_line(lines.last()) {
            before
        } else {
            before.push(table_cells(lines.last()))
        }
    }
}

pub open spec fn has_separator(lines: Seq<Seq<char>>) -> bool {
    exists|i: int| 0 <= i < lines.len() && separator_line(#[trigger] lines[i])
}

/// A row as it is shown: the heading bold, the others with their inline markdown.
pub open spec fn shown_row(cells: Seq<Seq<char>>, heading: bool) -> Seq<Seq<char>> {
    cells.map_values(
        |c: Seq<char>|
            if heading {
                BOLD@ + c + RESET@
            } else {
                inline(c)
            },
    )
}

pub open spec fn shown_rows(lines: Seq<Seq<char>>) -> Seq<Seq<Seq<char>>> {
    table_rows(lines).map(
        |i: int, cells: Seq<Seq<char>>| shown_row(cells, i == 0 && has_separator(lines)),
    )
}

/// The length of the longest row.
pub open spec fn column_count(rows: Seq<Seq<Seq<char>>>) -> nat
    decreases rows.len(),
{
    if rows.len() == 0 {
        0
    } else {
        let before = column_count(rows.drop_last());
        if rows.last().len() > before {
            rows.last().len()
        } else {
            before
        }
    }
}

/// The width of the widest cell of column `j`.
pub open spec fn column_width(rows: Seq<Seq<Seq<char>>>, j: int) -> nat
    decreases rows.len(),
{
    if rows.len() == 0 {
        0
    } else {
        let before = column_width(rows.drop_last(), j);
        if 0 <= j < rows.last().len() && cell_len(rows.last()[j]) > before {
            cell_len(rows.last()[j])
        } else {
            before
        }
    }
}

pub open spec fn column_widths(rows: Seq<Seq<Seq<char>>>) -> Seq<nat> {
    Seq::new(column_count(rows), |j: int| column_width(rows, j))
}

pub open spec fn cell_of(row: Seq<Seq<char>>, j: int) -> Seq<char> {
    if 0 <= j < row.len() {
        row[j]
    } else {
        Seq::empty()
    }
}

pub open spec fn pad_len(width: nat, len: nat) -> nat {
    if width >= len {
        (width - len) as nat
    } else {
        0
    }
}

/// The first `j` cells of a row, each padded to its column.
pub open spec fn row_cells(row: Seq<Seq<char>>, widths: Seq<usize>, j: int) -> Seq<char>
    decreases j,
{
    if j <= 0 {
        Seq::empty()
    } else {
        let cell = cell_of(row, j - 1);
        row_cells(row, widths, j - 1) + " "@ + cell + repeat(
            " "@,
            pad_len(widths[j - 1] as nat, cell_len(cell)),
        ) + " "@ + DIM@ + "│"@ + RESET@
    }
}

pub open spec fn row_text(row: Seq<Seq<char>>, widths: Seq<usize>) -> Seq<char> {
    DIM@ + "│"@ + RESET@ + row_cells(row, widths, widths.len() as int) + "\n"@
}

pub open spec fn border_line(widths: Seq<usize>, left: char, mid: char, right: char) -> Seq<char> {
    DIM@ + border(widths, left, mid, right) + RESET@ + "\n"@
}

/// The first `i` rows, with the separator line under the heading.
pub open spec fn rows_text(
    rows: Seq<Seq<Seq<char>>>,
    widths: Seq<usize>,
    separated: bool,
    i: int,
) -> Seq<char>
    decreases i,
{
    if i <= 0 {
        Seq::empty()
    } else {
        let text = rows_text(rows, widths, separated, i - 1) + row_text(rows[i - 1], widths);
        if i == 1 && separated {
            text + border_line(widths, '├', '┼', '┤')
        } else {
            text
        }
    }
}

/// A table in box-drawing characters, given the widths of its columns.
pub open spec fn boxed_table(
    rows: Seq<Seq<Seq<char>>>,
    widths: Seq<usize>,
    separated: bool,
) -> Seq<char> {
    border_line(widths, '┌', '┬', '┐') + rows_text(rows, widths, separated, rows.len() as int)
        + border_line(widths, '└', '┴', '┘')
}

/// A table: nothing without rows, else its rows in a box whose columns are as wide as their
/// widest cells.
pub open spec fn table_text(lines: Seq<Seq<char>>) -> Seq<char> {
    let rows = shown_rows(lines);
    if rows.len() == 0 {
        Seq::empty()
    } else {
        boxed_table(
            rows,
            column_widths(rows).map_values(|w: nat| w as usize),
            has_separator(lines),
        )
    }
}

fn table_line_of(line: &str) -> (r: String)
    ensures
        r@ == table_line(line@),
{
    let t = trim(line);
    let t = match strip_prefix(t.as_str(), "|") {
        Some(rest) => rest,
        None => t,
    };
    match strip_suffix(t.as_str(), "|") {
        Some(rest) => rest,
        None => t,
    }
}

fn table_cells_of(inner: &str) -> (r: Vec<String>)
    ensures
        texts(r@) == split_on(inner@, '|').map_values(|s: Seq<char>| trimmed(s)),
{
    let pieces = split_char(inner, '|');
    let ghost goal = texts(pieces@).map_values(|s: Seq<char>| trimmed(s));
    let mut out: Vec<String> = Vec::new();
    let mut i: usize = 0;
    while i < pieces.len()
        invariant
            i <= pieces@.len(),
            goal == texts(pieces@).map_values(|s: Seq<char>| trimmed(s)),
            texts(out@) == goal.take(i as int),
        decreases pieces@.len() - i,
    {
        let cell = trim(pieces[i].as_str());
        proof {
            lemma_take_step(goal, i as int);
            lemma_texts_push(out@, cell);
        }
        out.push(cell);
        i = i + 1;
    }
    proof {
        lemma_take_full(goal);
    }
    out
}

/// The texts of rows of cells.
pub open spec fn grid(v: Seq<Vec<String>>) -> Seq<Seq<Seq<char>>> {
    v.map_values(|row: Vec<String>| texts(row@))
}

pub proof fn lemma_grid_push(v: Seq<Vec<String>>, row: Vec<String>)
    ensures
        grid(v.push(row)) == grid(v).push(texts(row@)),
{
    assert(grid(v.push(row)) =~= grid(v).push(texts(row@)));
}

fn show_row(cells: &Vec<String>, heading: bool) -> (r: Vec<String>)
    ensures
        texts(r@) == shown_row(texts(cells@), heading),
{
    let ghost goal = shown_row(texts(cells@), heading);
    let mut out: Vec<String> = Vec::new();
    let mut i: usize = 0;
    while i < cells.len()
        invariant
            i <= cells@.len(),
            goal == shown_row(texts(cells@), heading),
            texts(out@) == goal.take(i as int),
        decreases cells@.len() - i,
    {
        let cell = if heading {
            painted(BOLD, cells[i].as_str())
        } else {
            render_inline(cells[i].as_str())
        };
        proof {
            lemma_take_step(goal, i as int);
            lemma_texts_push(out@, cell);
        }
        out.push(cell);
        i = i + 1;
    }
    proof {
        lemma_take_full(goal);
    }
    out
}

fn widths_of(rows: &Vec<Vec<String>>) -> (r: Vec<usize>)
    ensures
        r@ == column_widths(grid(rows@)).map_values(|w: nat| w as usize),
{
    let ghost g = grid(rows@);
    let mut count: usize = 0;
    let mut i: usize = 0;
    while i < rows.len()
        invariant
            i <= rows@.len(),
            g == grid(rows@),
            count == column_count(g.take(i as int)),
        decreases rows@.len() - i,
    {
        proof {
            lemma_take_step(g, i as int);
        }
        if rows[i].len() > count {
            count = rows[i].len();
        }
        i = i + 1;
    }
    proof {
        lemma_take_full(g);
    }
    let mut out: Vec<usize> = Vec::new();
    let mut j: usize = 0;
    while j < count
        invariant
            j <= count,
            g == grid(rows@),
            out@.len() == j,
            forall|k: int| 0 <= k < j ==> #[trigger] out@[k] == column_width(g, k),
        decreases count - j,
    {
        let mut width: usize = 0;
        let mut k: usize = 0;
        while k < rows.len()
            invariant
                k <= rows@.len(),
                g == grid(rows@),
                width == column_width(g.take(k as int), j as int),
            decreases rows@.len() - k,
        {
            proof {
                lemma_take_step(g, k as int);
            }
            if j < rows[k].len() {
                let len: usize = strip_ansi_len(rows[k][j].as_str());
                if len > width {
                    width = len;
                }
            }
            k = k + 1;
        }
        proof {
            lemma_take_full(g);
        }
        out.push(width);
        j = j + 1;
    }
    proof {
        assert(out@ =~= column_widths(g).map_values(|w: nat| w as usize));
    }
    out
}

fn row_string(row: &Vec<String>, widths: &Vec<usize>) -> (r: String)
    ensures
        r@ == row_text(texts(row@), widths@),
{
    let ghost cells = texts(row@);
    let mut out = painted(DIM, "│");
    let ghost start = out@;
    proof {
        assert(out@ =~= start + row_cells(cells, widths@, 0));
    }
    let mut j: usize = 0;
    while j < widths.len()
        invariant
            j <= widths@.len(),
            cells == texts(row@),
            start == DIM@ + "│"@ + RESET@,
            out@ == start + row_cells(cells, widths@, j as int),
        decreases widths@.len() - j,
    {
        let cell = if j < row.len() {
            row[j].clone()
        } else {
            String::new()
        };
        let len: usize = strip_ansi_len(cell.as_str());
        let pad = repeat_str(" ", widths[j].saturating_sub(len));
        let ghost before = row_cells(cells, widths@, j as int);
        proof {
            assert(cell@ =~= cell_of(cells, j as int));
            assert(start + before + " "@ + cell@ + pad@ + " "@ + DIM@ + "│"@ + RESET@ =~= start + (
            before + " "@ + cell@ + pad@ + " "@ + DIM@ + "│"@ + RESET@));
        }
        out.append(" ");
        out.append(cell.as_str());
        out.append(pad.as_str());
        out.append(" ");
        out.append(DIM);
        out.append("│");
        out.append(RESET);
        j = j + 1;
    }
    out.append("\n");
    out
}

fn border_string(widths: &Vec<usize>, left: char, mid: char, right: char) -> (r: String)
    ensures
        r@ == border_line(widths@, left, mid, right),
{
    let b = table_border(widths, left, mid, right);
    DIM.to_owned().concat(b.as_str()).concat(RESET).concat("\n")
}

/// Renders the lines of a table.
pub fn render_table(lines: &[String]) -> (r: String)
    ensures
        r@ == table_text(texts(lines@)),
{
    let ghost src = texts(lines@);
    let mut rows: Vec<Vec<String>> = Vec::new();
    let mut separated = false;
    let mut i: usize = 0;
    proof {
        assert(grid(rows@) =~= table_rows(src.take(0)));
    }
    while i < lines.len()
        invariant
            i <= lines@.len(),
            src == texts(lines@),
            grid(rows@) == table_rows(src.take(i as int)),
            separated == (exists|k: int| 0 <= k < i && separator_line(#[trigger] src[k])),
        decreases lines@.len() - i,
    {
        proof {
            lemma_take_step(src, i as int);
        }
        let inner = table_line_of(lines[i].as_str());
        if only_chars(inner.as_str(), "-:| ") && has_char(inner.as_str(), '-') {
            proof {
                assert(separator_line(src[i as int]));
            }
            separated = true;
        } else {
            let cells = table_cells_of(inner.as_str());
            proof {
                lemma_grid_push(rows@, cells);
            }
            rows.push(cells);
        }
        i = i + 1;
    }
    proof {
        lemma_take_full(src);
        assert(separated == has_separator(src));
    }
    let ghost goal = shown_rows(src);
    if rows.len() == 0 {
        return String::new();
    }
    let mut shown: Vec<Vec<String>> = Vec::new();
    let mut k: usize = 0;
    proof {
        assert(grid(shown@) =~= goal.take(0));
    }
    while k < rows.len()
        invariant
            k <= rows@.len(),
            src == texts(lines@),
            grid(rows@) == table_rows(src),
            separated == has_separator(src),
            goal == shown_rows(src),
            grid(shown@) == goal.take(k as int),
        decreases rows@.len() - k,
    {
        let row = show_row(&rows[k], k == 0 && separated);
        proof {
            assert(grid(rows@)[k as int] == texts(rows@[k as int]@));
            lemma_take_step(goal, k as int);
            lemma_grid_push(shown@, row);
        }
        shown.push(row);
        k = k + 1;
    }
    proof {
        lemma_take_full(goal);
    }
    let widths = widths_of(&shown);
    let mut out = border_string(&widths, '┌', '┬', '┐');
    let ghost top = out@;
    proof {
        assert(out@ =~= top + rows_text(goal, widths@, separated, 0));
    }
    let mut m: usize = 0;
    while m < shown.len()
        invariant
            m <= shown@.len(),
            grid(shown@) == goal,
            out@ == top + rows_text(goal, widths@, separated, m as int),
        decreases shown@.len() - m,
    {
        let row = row_string(&shown[m], &widths);
        let ghost before = rows_text(goal, widths@, separated, m as int);
        proof {
            assert(grid(shown@)[m as int] == texts(shown@[m as int]@));
            assert(top + before + row@ =~= top + (before + row@));
        }
        out.append(row.as_str());
        if m == 0 && separated {
            let line = border_string(&widths, '├', '┼', '┤');
            proof {
                assert(top + (before + row@) + line@ =~= top + (before + row@ + line@));
            }
            out.append(line.as_str());
        }
        m = m + 1;
    }
    let bottom = border_string(&widths, '└', '┴', '┘');
    out.concat(bottom.as_str())
}

// ---------------------------------------------------------------------------
// Documents
// ---------------------------------------------------------------------------

/// Whether a line opens or closes a code block.
pub open spec fn fence(line: Seq<char>) -> bool {
    starts_with_spec(trimmed_start(line), "```"@)
}

pub fn is_fence(line: &str) -> (r: bool)
    ensures
        r == fence(line@),
{
    let t = trim_start(line);
    starts_with(t.as_str(), "```")
}

/// A text without the backticks that it starts with.
pub open spec fn without_ticks(s: Seq<char>) -> Seq<char>
    decreases s.len(),
{
    if s.len() > 0 && s[0] == '`' {
        without_ticks(s.drop_first())
    } else {
        s
    }
}

/// The language that a fence names.
pub open spec fn fence_lang(line: Seq<char>) -> Seq<char> {
    code_lang(trimmed(without_ticks(trimmed_start(line))))
}

pub fn fence_lang_of(line: &str) -> (r: String)
    ensures
        r@ == fence_lang(line@),
{
    let t = trim_start(line);
    let c = chars_of(t.as_str());
    let n: usize = c.len();
    let mut i: usize = 0;
    proof {
        assert(c@.skip(0) =~= c@);
    }
    while i < n && c[i] == '`'
        invariant
            i <= n,
            n == c@.len(),
            without_ticks(c@.skip(i as int)) == without_ticks(c@),
        decreases n - i,
    {
        proof {
            lemma_skip_step(c@, i as int);
        }
        i = i + 1;
    }
    proof {
        if i < n {
            lemma_skip_step(c@, i as int);
        }
    }
    let rest = substring(c.as_slice(), i, n);
    proof {
        assert(rest@ =~= c@.skip(i as int));
    }
    let word = trim(rest.as_str());
    normalize_code_lang(word.as_str())
}

/// The label of a code block: the language that its fence names, dim, on a line of its own.
pub open spec fn fence_label(lang: Seq<char>) -> Seq<char> {
    if lang.len() == 0 {
        Seq::empty()
    } else {
        sticky(DIM@, lang) + "\n"@
    }
}

pub fn render_fence_label(lang: &str) -> (r: String)
    ensures
        r@ == fence_label(lang@),
{
    if lang.is_empty() {
        return String::new();
    }
    sticky_style(DIM, lang).concat("\n")
}

/// Whether the line behind index `i` is the separator line of a table.
pub open spec fn table_start(lines: Seq<Seq<char>>, i: int) -> bool {
    0 <= i && i + 1 < lines.len() && trimmed(lines[i + 1]).contains('|') && all_in(
        trimmed(lines[i + 1]),
        "|-: "@,
    )
}

pub fn is_table_start(lines: &Vec<String>, idx: usize) -> (r: bool)
    requires
        idx < lines@.len(),
    ensures
        r == table_start(texts(lines@), idx as int),
{
    let n: usize = lines.len();
    if idx + 1 >= n {
        return false;
    }
    let next = trim(lines[idx + 1].as_str());
    has_char(next.as_str(), '|') && only_chars(next.as_str(), "|-: ")
}

/// The index right after the lines from `i` on that hold a bar.
pub open spec fn table_end(lines: Seq<Seq<char>>, i: int) -> int
    decreases lines.len() - i,
{
    if 0 <= i < lines.len() && lines[i].contains('|') {
        table_end(lines, i + 1)
    } else {
        i
    }
}

proof fn lemma_table_end(lines: Seq<Seq<char>>, i: int)
    requires
        0 <= i <= lines.len(),
    ensures
        i <= table_end(lines, i) <= lines.len(),
    decreases lines.len() - i,
{
    if i < lines.len() && lines[i].contains('|') {
        lemma_table_end(lines, i + 1);
    }
}

pub fn find_table_end(lines: &Vec<String>, start: usize) -> (r: usize)
    requires
        start <= lines@.len(),
    ensures
        r == table_end(texts(lines@), start as int),
        start <= r <= lines@.len(),
{
    let mut i: usize = start;
    while i < lines.len() && has_char(lines[i].as_str(), '|')
        invariant
            start <= i <= lines@.len(),
            table_end(texts(lines@), start as int) == table_end(texts(lines@), i as int),
        decreases lines@.len() - i,
    {
        i = i + 1;
    }
    i
}

/// The lines of a document from index `i` on as styled text, where `code` is the language
/// of the code block that is open. Every piece ends with a newline.
pub open spec fn document_from(
    lines: Seq<Seq<char>>,
    i: int,
    code: Option<Seq<char>>,
    rule: nat,
) -> Seq<char>
    decreases lines.len() - i via document_from_decreases
{
    if i < 0 || i >= lines.len() {
        Seq::empty()
    } else {
        let line = lines[i];
        match code {
            Some(lang) => if fence(line) {
                document_from(lines, i + 1, None, rule)
            } else {
                code_line(line, lang) + document_from(lines, i + 1, code, rule)
            },
            None => if fence(line) {
                fence_label(fence_lang(line)) + document_from(
                    lines,
                    i + 1,
                    Some(fence_lang(line)),
                    rule,
                )
            } else if line.contains('|') && table_start(lines, i) {
                let end = table_end(lines, i + 1);
                table_text(lines.subrange(i, end)) + document_from(lines, end, None, rule)
            } else if horizontal_rule(line) {
                rule_text(rule) + "\n"@ + document_from(lines, i + 1, None, rule)
            } else {
                single_line(line) + "\n"@ + document_from(lines, i + 1, None, rule)
            },
        }
    }
}

#[via_fn]
proof fn document_from_decreases(
    lines: Seq<Seq<char>>,
    i: int,
    code: Option<Seq<char>>,
    rule: nat,
) {
    if 0 <= i < lines.len() {
        lemma_table_end(lines, i + 1);
    }
}

/// A text without one newline at its end.
pub open spec fn without_last_newline(s: Seq<char>) -> Seq<char> {
    if s.len() > 0 && s.last() == '\n' {
        s.drop_last()
    } else {
        s
    }
}

/// A markdown document as styled text, with rules of the given width.
pub open spec fn document(s: Seq<char>, rule: nat) -> Seq<char> {
    without_last_newline(document_from(lines(s), 0, None, rule))
}

fn drop_last_newline(s: String) -> (r: String)
    ensures
        r@ == without_last_newline(s@),
{
    let c = chars_of(s.as_str());
    if c.len() > 0 && c[c.len() - 1] == '\n' {
        let r = substring(c.as_slice(), 0, c.len() - 1);
        proof {
            assert(r@ =~= s@.drop_last());
        }
        r
    } else {
        s
    }
}

pub fn render_document(input: &str, rule: usize) -> (r: String)
    ensures
        r@ == document(input@, rule as nat),
{
    let lines = lines_of(input);
    let n: usize = lines.len();
    let ghost src = texts(lines@);
    let ghost goal = document_from(src, 0, None, rule as nat);
    let mut out = String::new();
    let mut code: Option<String> = None;
    let mut i: usize = 0;
    proof {
        assert(out@ + goal =~= goal);
    }
    while i < n
        invariant
            i <= n,
            n == lines@.len(),
            src == texts(lines@),
            out@ + document_from(src, i as int, opt_text(code), rule as nat) == goal,
        decreases n - i,
    {
        let ghost before = out@;
        let ghost tail;
        let line = lines[i].as_str();
        let shown: String;
        let mut next: Option<String> = None;
        match &code {
            Some(lang) => {
                if is_fence(line) {
                    shown = String::new();
                } else {
                    shown = render_code_block_line_with_lang(line, lang.as_str());
                    next = Some(lang.clone());
                }
                i = i + 1;
            },
            None => {
                if is_fence(line) {
                    let lang = fence_lang_of(line);
                    shown = render_fence_label(lang.as_str());
                    next = Some(lang);
                    i = i + 1;
                } else if has_char(line, '|') && is_table_start(&lines, i) {
                    let end: usize = find_table_end(&lines, i + 1);
                    let part = vstd::slice::slice_subrange(lines.as_slice(), i, end);
                    proof {
                        assert(texts(part@) =~= src.subrange(i as int, end as int));
                    }
                    shown = render_table(part);
                    i = end;
                } else if is_horizontal_rule(line) {
                    shown = rule_string(rule).concat("\n");
                    i = i + 1;
                } else {
                    shown = render_single_markdown_line(line).concat("\n");
                    i = i + 1;
                }
            },
        }
        code = next;
        proof {
            tail = document_from(src, i as int, opt_text(code), rule as nat);
            assert(Seq::<char>::empty() + tail =~= tail);
            assert(before + (shown@ + tail) =~= before + shown@ + tail);
        }
        out.append(shown.as_str());
    }
    proof {
        assert(out@ + Seq::<char>::empty() =~= out@);
    }
    drop_last_newline(out)
}

/// The width of a rule where no width is asked for.
pub const RULE_WIDTH: usize = 48;

/// The parts of a message as styled text: what was thought, dim, and what is shown.
pub open spec fn message_text(s: Seq<char>, rule: nat) -> Seq<char> {
    let content = trimmed(think_parts(s).0);
    let thinking = trimmed(think_parts(s).1);
    let thought = sticky(DIM@, document(thinking, RULE_WIDTH as nat));
    let shown = document(content, rule);
    if thinking.len() == 0 && content.len() == 0 {
        Seq::empty()
    } else if thinking.len() == 0 {
        shown
    } else if content.len() == 0 {
        thought
    } else {
        thought + "\n\n"@ + shown
    }
}

pub fn render_thinking_content(content: &str) -> (r: String)
    ensures
        r@ == sticky(DIM@, document(content@, RULE_WIDTH as nat)),
{
    let body = render_document(content, RULE_WIDTH);
    sticky_style(DIM, body.as_str())
}

/// Renders a message, its rules as wide as the given width.
pub fn render_markdown_with_width(input: &str, _collapse_thinking: bool, width: usize) -> (r: String)
    ensures
        r@ == message_text(input@, width as nat),
{
    let (content, thinking) = strip_thinking(input);
    if thinking.as_str().is_empty() {
        if content.as_str().is_empty() {
            return String::new();
        }
        return render_document(content.as_str(), width);
    }
    let thought = render_thinking_content(thinking.as_str());
    if content.as_str().is_empty() {
        return thought;
    }
    let shown = render_document(content.as_str(), width);
    thought.concat("\n\n").concat(shown.as_str())
}

/// Renders a message.
pub fn render_markdown(input: &str, collapse_thinking: bool) -> (r: String)
    ensures
        r@ == message_text(input@, RULE_WIDTH as nat),
{
    render_markdown_with_width(input, collapse_thinking, RULE_WIDTH)
}

// ---------------------------------------------------------------------------
// The status bar
// ---------------------------------------------------------------------------

/// The provider, the model and the session above an answer.
pub open spec fn status_text(provider: Seq<char>, model: Seq<char>, id: Seq<char>) -> Seq<char> {
    DIM@ + provider + RESET@ + " "@ + BOLD@ + CYAN@ + model + RESET@ + " "@ + (if is_temp(id) {
        YELLOW@ + "[temp]"@ + RESET@
    } else {
        DIM@ + "[saved]"@ + RESET@
    }) + " "@ + DIM@ + short(id) + RESET@
}

/// Format the static message bar shown above streaming output.
pub fn format_status_bar(provider: &str, model: &str, session_id: &str) -> (r: String)
    ensures
        r@ == status_text(provider@, model@, session_id@),
{
    let badge = if is_temp_session(session_id) {
        YELLOW.to_owned().concat("[temp]").concat(RESET)
    } else {
        DIM.to_owned().concat("[saved]").concat(RESET)
    };
    DIM.to_owned().concat(provider).concat(RESET).concat(" ").concat(BOLD).concat(CYAN).concat(
        model,
    ).concat(RESET).concat(" ").concat(badge.as_str()).concat(" ").concat(DIM).concat(
        short_id(session_id).as_str(),
    ).concat(RESET)
}

/// The directory of the program below a directory of the user.
pub open spec fn own_dir(dir: Option<Seq<char>>, default: Seq<char>) -> Seq<char> {
    match dir {
        Some(d) => joined_path(d, "chat-cli"@),
        None => default,
    }
}

fn own_dir_of(dir: &Option<String>, default: &str) -> (r: String)
    ensures
        r@ == own_dir(opt_text(*dir), default@),
{
    match dir {
        Some(d) => join_path(d.as_str(), "chat-cli"),
        None => default.to_owned(),
    }
}

/// Where the last thinking is kept, given the data directory of the user.
pub fn thinking_file_path(data_dir: &Option<String>) -> (r: String)
    ensures
        r@ == joined_path(
            own_dir(opt_text(*data_dir), ".local/share/chat-cli"@),
            ".last_thinking"@,
        ),
{
    join_path(own_dir_of(data_dir, ".local/share/chat-cli").as_str(), ".last_thinking")
}

/// Where it was kept before, given the configuration directory of the user.
pub fn legacy_thinking_file_path(config_dir: &Option<String>) -> (r: String)
    ensures
        r@ == joined_path(own_dir(opt_text(*config_dir), ".config/chat-cli"@), ".last_thinking"@),
{
    join_path(own_dir_of(config_dir, ".config/chat-cli").as_str(), ".last_thinking")
}

} // verus!
