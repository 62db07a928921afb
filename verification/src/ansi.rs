//! Terminal text: escape sequences, display widths, and cutting and wrapping by width.

use crate::text::{
    byte_len, bytes_len, char_bytes, chars_of, ends_with, ends_with_spec,
    lemma_bytes_len_prefix, lemma_take_full, lemma_take_step, lemma_texts_push, opt_text,
    str_eq, texts,
};
use vstd::prelude::*;
use vstd::string::*;

verus! {

pub const BOLD: &'static str = "\x1b[1m";

pub const BLUE: &'static str = "\x1b[34m";

pub const BRIGHT_WHITE: &'static str = "\x1b[97m";

pub const CYAN: &'static str = "\x1b[36m";

pub const DIM: &'static str = "\x1b[2m";

pub const GREEN: &'static str = "\x1b[32m";

pub const ITALIC: &'static str = "\x1b[3m";

pub const MAGENTA: &'static str = "\x1b[35m";

pub const RED: &'static str = "\x1b[31m";

pub const RESET: &'static str = "\x1b[0m";

pub const STRIKETHROUGH: &'static str = "\x1b[9m";

pub const UNDERLINE: &'static str = "\x1b[4m";

pub const WHITE: &'static str = "\x1b[37m";

pub const YELLOW: &'static str = "\x1b[33m";

pub const CLEAR_LINE: &'static str = "\x1b[2K";

pub const CURSOR_UP: &'static str = "\x1b[A";

pub open spec fn paint(style: Seq<char>, body: Seq<char>) -> Seq<char> {
    style + body + RESET@
}

pub fn painted(style: &str, body: &str) -> (r: String)
    ensures
        r@ == paint(style@, body@),
{
    style.to_owned().concat(body).concat(RESET)
}

// ---------------------------------------------------------------------------
// Widths
// ---------------------------------------------------------------------------

/// The columns that the `unicode-width` crate gives a character, if it gives it any.
pub uninterp spec fn char_columns(c: char) -> Option<usize>;

/// The columns that the `unicode-width` crate gives a text.
pub uninterp spec fn text_columns(s: Seq<char>) -> usize;

/// `UnicodeWidthChar::width`: printable ASCII takes one column and ASCII control characters
/// have no width; no character is wider than its UTF-8 form is long.
#[verifier::external_body]
fn unicode_char_width(c: char) -> (r: Option<usize>)
    ensures
        r == char_columns(c),
        0x20 <= c as u32 && (c as u32) < 0x7f ==> r == Some(1usize),
        (c as u32) < 0x20 || c as u32 == 0x7f ==> r is None,
        r matches Some(w) ==> w <= char_bytes(c),
{
    unicode_width::UnicodeWidthChar::width(c)
}

/// `UnicodeWidthStr::width`: the columns of a whole text.
#[verifier::external_body]
fn unicode_str_width(s: &str) -> (r: usize)
    ensures
        r == text_columns(s@),
{
    unicode_width::UnicodeWidthStr::width(s)
}

/// The columns of a character; one without a width takes none.
pub open spec fn columns(c: char) -> nat {
    match char_columns(c) {
        Some(w) => w as nat,
        None => 0,
    }
}

pub fn display_width_char(ch: char) -> (r: usize)
    ensures
        r == columns(ch),
        r <= char_bytes(ch),
        0x20 <= ch as u32 && (ch as u32) < 0x7f ==> r == 1,
{
    match unicode_char_width(ch) {
        Some(w) => w,
        None => 0,
    }
}

pub fn display_width(text: &str) -> (r: usize)
    ensures
        r == text_columns(text@),
{
    unicode_str_width(text)
}

/// The escape character.
pub const ESC: char = '\x1b';

/// Whether a text ends inside an escape sequence, and the columns of what it shows. An
/// escape sequence reaches from the escape character to the next `m`.
pub open spec fn shown(s: Seq<char>) -> (bool, nat)
    decreases s.len(),
{
    if s.len() == 0 {
        (false, 0)
    } else {
        shown_step(shown(s.drop_last()), s.last())
    }
}

pub open spec fn shown_step(st: (bool, nat), c: char) -> (bool, nat) {
    if st.0 {
        (c != 'm', st.1)
    } else if c == ESC {
        (true, st.1)
    } else {
        (false, st.1 + columns(c))
    }
}

/// The columns that a text takes on the screen, escape sequences aside.
pub open spec fn visible_columns(s: Seq<char>) -> nat {
    shown(s).1
}

pub fn visible_width(text: &str) -> (r: usize)
    ensures
        r == visible_columns(text@),
{
    let c = chars_of(text);
    let n: usize = byte_len(text);
    let mut esc = false;
    let mut width: usize = 0;
    let mut i: usize = 0;
    while i < c.len()
        invariant
            i <= c@.len(),
            c@ == text@,
            n == bytes_len(text@),
            shown(text@.take(i as int)) == (esc, width as nat),
            width <= bytes_len(text@.take(i as int)),
        decreases c@.len() - i,
    {
        proof {
            lemma_take_step(text@, i as int);
            lemma_bytes_len_prefix(text@, i + 1, text@.len() as int);
            lemma_take_full(text@);
        }
        let ch: char = c[i];
        if esc {
            esc = ch != 'm';
        } else if ch == ESC {
            esc = true;
        } else {
            let w: usize = display_width_char(ch);
            width = width + w;
        }
        i = i + 1;
    }
    proof {
        lemma_take_full(text@);
    }
    width
}

pub proof fn lemma_shown_push(s: Seq<char>, c: char)
    ensures
        shown(s.push(c)) == shown_step(shown(s), c),
{
    assert(s.push(c).drop_last() =~= s);
}

/// Appending the reset sequence adds no columns.
pub proof fn lemma_shown_reset(s: Seq<char>)
    ensures
        visible_columns(s + RESET@) == visible_columns(s),
{
    reveal_strlit("\x1b[0m");
    let r = RESET@;
    assert(r =~= seq!['\x1b', '[', '0', 'm']);
    assert(s + r =~= s.push('\x1b').push('[').push('0').push('m'));
    lemma_shown_push(s, '\x1b');
    lemma_shown_push(s.push('\x1b'), '[');
    lemma_shown_push(s.push('\x1b').push('['), '0');
    lemma_shown_push(s.push('\x1b').push('[').push('0'), 'm');
}

// ---------------------------------------------------------------------------
// Cutting to a width
// ---------------------------------------------------------------------------

/// What fits of a text: its longest prefix that takes at most `width` columns.
pub open spec fn plain_prefix(s: Seq<char>, width: nat) -> (Seq<char>, nat, bool)
    decreases s.len(),
{
    if s.len() == 0 {
        (Seq::empty(), 0, false)
    } else {
        let (out, used, full) = plain_prefix(s.drop_last(), width);
        if full || used + columns(s.last()) > width {
            (out, used, true)
        } else {
            (out.push(s.last()), used + columns(s.last()), false)
        }
    }
}

pub open spec fn truncated_plain(s: Seq<char>, width: nat) -> Seq<char> {
    plain_prefix(s, width).0
}

pub fn truncate_plain_to_width(text: &str, width: usize) -> (r: String)
    ensures
        r@ == truncated_plain(text@, width as nat),
{
    let c = chars_of(text);
    let mut out = String::new();
    let mut used: usize = 0;
    let mut i: usize = 0;
    let mut full = false;
    while i < c.len() && !full
        invariant
            i <= c@.len(),
            c@ == text@,
            used <= width,
            plain_prefix(text@.take(i as int), width as nat) == (out@, used as nat, full),
        decreases c@.len() - i,
    {
        proof {
            lemma_take_step(text@, i as int);
        }
        let w: usize = display_width_char(c[i]);
        if w > width - used {
            full = true;
        } else {
            out.push(c[i]);
            used = used + w;
        }
        i = i + 1;
    }
    proof {
        lemma_plain_prefix_full(text@, width as nat, i as int);
    }
    out
}

proof fn lemma_plain_prefix_full(s: Seq<char>, width: nat, i: int)
    requires
        0 <= i <= s.len(),
        i < s.len() ==> plain_prefix(s.take(i), width).2,
    ensures
        plain_prefix(s, width).0 == plain_prefix(s.take(i), width).0,
        plain_prefix(s, width).1 == plain_prefix(s.take(i), width).1,
    decreases s.len() - i,
{
    if i == s.len() {
        lemma_take_full(s);
    } else {
        lemma_take_step(s, i);
        lemma_plain_prefix_full(s, width, i + 1);
    }
}

/// The state of cutting a text that may hold escape sequences.
pub struct Cut {
    pub out: Seq<char>,
    pub used: nat,
    pub esc: bool,
    pub full: bool,
}

pub open spec fn cut(s: Seq<char>, width: nat) -> Cut
    decreases s.len(),
{
    if s.len() == 0 {
        Cut { out: Seq::empty(), used: 0, esc: false, full: false }
    } else {
        let st = cut(s.drop_last(), width);
        let c = s.last();
        if st.full {
            st
        } else if st.esc {
            Cut { out: st.out.push(c), esc: c != 'm', ..st }
        } else if c == ESC {
            Cut { out: st.out.push(c), esc: true, ..st }
        } else if st.used + columns(c) > width {
            Cut { full: true, ..st }
        } else {
            Cut { out: st.out.push(c), used: st.used + columns(c), ..st }
        }
    }
}

/// A text cut to the given width, its escape sequences kept up to the cut. Where it holds
/// one, it ends with a reset. With no width nothing is left.
pub open spec fn truncated_ansi(s: Seq<char>, width: nat) -> Seq<char> {
    if width == 0 {
        Seq::empty()
    } else {
        let out = cut(s, width).out;
        if out.contains(ESC) && !ends_with_spec(out, RESET@) {
            out + RESET@
        } else {
            out
        }
    }
}

proof fn lemma_cut_full(s: Seq<char>, width: nat, i: int)
    requires
        0 <= i <= s.len(),
        i < s.len() ==> cut(s.take(i), width).full,
    ensures
        cut(s, width) == cut(s.take(i), width),
    decreases s.len() - i,
{
    if i == s.len() {
        lemma_take_full(s);
    } else {
        lemma_take_step(s, i);
        lemma_cut_full(s, width, i + 1);
    }
}

pub fn ansi_truncate(text: &str, width: usize) -> (r: String)
    ensures
        r@ == truncated_ansi(text@, width as nat),
{
    if width == 0 {
        return String::new();
    }
    let c = chars_of(text);
    let mut out = String::new();
    let mut used: usize = 0;
    let mut esc = false;
    let mut full = false;
    let mut seen = false;
    let mut i: usize = 0;
    while i < c.len() && !full
        invariant
            i <= c@.len(),
            c@ == text@,
            used <= width,
            cut(text@.take(i as int), width as nat) == (Cut {
                out: out@,
                used: used as nat,
                esc,
                full,
            }),
            seen == out@.contains(ESC),
            esc ==> seen,
        decreases c@.len() - i,
    {
        proof {
            lemma_take_step(text@, i as int);
        }
        let ch: char = c[i];
        let ghost before = out@;
        proof {
            assert(before.push(ch)[before.len() as int] == ch);
            assert(before.push(ch).contains(ESC) == (before.contains(ESC) || ch == ESC)) by {
                if before.contains(ESC) {
                    let k = choose|k: int| 0 <= k < before.len() && before[k] == ESC;
                    assert(before.push(ch)[k] == ESC);
                }
            }
        }
        if esc {
            out.push(ch);
            esc = ch != 'm';
        } else if ch == ESC {
            out.push(ch);
            esc = true;
            seen = true;
        } else {
            let w: usize = display_width_char(ch);
            if w > width - used {
                full = true;
            } else {
                out.push(ch);
                used = used + w;
            }
        }
        i = i + 1;
    }
    proof {
        lemma_cut_full(text@, width as nat, i as int);
    }
    if seen && !ends_with(out.as_str(), RESET) {
        out.append(RESET);
    }
    out
}

proof fn lemma_cut_shown(s: Seq<char>, width: nat)
    ensures
        cut(s, width).used <= width,
        shown(cut(s, width).out) == (cut(s, width).esc, cut(s, width).used),
    decreases s.len(),
{
    if s.len() > 0 {
        lemma_cut_shown(s.drop_last(), width);
        lemma_shown_push(cut(s.drop_last(), width).out, s.last());
    }
}

/// A text cut to a width takes no more columns than that on the screen.
pub proof fn law_truncated_fits(s: Seq<char>, width: nat)
    ensures
        visible_columns(truncated_ansi(s, width)) <= width,
{
    lemma_cut_shown(s, width);
    lemma_shown_reset(cut(s, width).out);
}

// ---------------------------------------------------------------------------
// Wrapping to a width
// ---------------------------------------------------------------------------

/// The state of wrapping a text: the finished lines, the line in work with its columns, the
/// style sequences in force, and the escape sequence that is being read.
pub struct Wrap {
    pub done: Seq<Seq<char>>,
    pub line: Seq<char>,
    pub used: nat,
    pub style: Seq<char>,
    pub esc: Option<Seq<char>>,
}

/// A line that ends while a style is in force is reset at its end.
pub open spec fn closed_line(line: Seq<char>, style: Seq<char>) -> Seq<char> {
    if style.len() == 0 {
        line
    } else {
        line + RESET@
    }
}

pub open spec fn wrap_step(st: Wrap, c: char, width: nat) -> Wrap {
    match st.esc {
        Some(seq) => {
            let seq = seq.push(c);
            if c != 'm' {
                Wrap { esc: Some(seq), ..st }
            } else {
                Wrap {
                    line: st.line + seq,
                    style: if seq == RESET@ {
                        Seq::empty()
                    } else {
                        st.style + seq
                    },
                    esc: None,
                    ..st
                }
            }
        },
        None => if c == ESC {
            Wrap { esc: Some(seq![c]), ..st }
        } else if st.used > 0 && st.used + columns(c) > width {
            Wrap {
                done: st.done.push(closed_line(st.line, st.style)),
                line: st.style.push(c),
                used: columns(c),
                ..st
            }
        } else {
            Wrap { line: st.line.push(c), used: st.used + columns(c), ..st }
        },
    }
}

pub open spec fn wrap_state(s: Seq<char>, width: nat) -> Wrap
    decreases s.len(),
{
    if s.len() == 0 {
        Wrap {
            done: Seq::empty(),
            line: Seq::empty(),
            used: 0,
            style: Seq::empty(),
            esc: None,
        }
    } else {
        wrap_step(wrap_state(s.drop_last(), width), s.last(), width)
    }
}

/// The screen lines of a text: a character that does not fit starts a new line, on which the
/// styles in force are set again.
pub open spec fn wrapped(s: Seq<char>, width: nat) -> Seq<Seq<char>> {
    let st = wrap_state(s, width);
    let line = match st.esc {
        Some(seq) => st.line + seq,
        None => st.line,
    };
    st.done.push(closed_line(line, st.style))
}

fn close_line(line: String, style: &String) -> (r: String)
    ensures
        r@ == closed_line(line@, style@),
{
    if style.as_str().is_empty() {
        line
    } else {
        line.concat(RESET)
    }
}

pub fn wrap_ansi_to_width(text: &str, width: usize) -> (r: Vec<String>)
    ensures
        texts(r@) == wrapped(text@, width as nat),
{
    let c = chars_of(text);
    let n: usize = byte_len(text);
    let mut done: Vec<String> = Vec::new();
    let mut line = String::new();
    let mut used: usize = 0;
    let mut style = String::new();
    let mut esc: Option<String> = None;
    let mut i: usize = 0;
    proof {
        assert(texts(done@) =~= Seq::<Seq<char>>::empty());
    }
    while i < c.len()
        invariant
            i <= c@.len(),
            c@ == text@,
            n == bytes_len(text@),
            used <= bytes_len(text@.take(i as int)),
            wrap_state(text@.take(i as int), width as nat) == (Wrap {
                done: texts(done@),
                line: line@,
                used: used as nat,
                style: style@,
                esc: opt_text(esc),
            }),
        decreases c@.len() - i,
    {
        proof {
            lemma_take_step(text@, i as int);
            lemma_bytes_len_prefix(text@, i + 1, text@.len() as int);
            lemma_take_full(text@);
        }
        let ch: char = c[i];
        match esc {
            Some(seq) => {
                let mut seq = seq;
                seq.push(ch);
                if ch != 'm' {
                    esc = Some(seq);
                } else {
                    line.append(seq.as_str());
                    if str_eq(seq.as_str(), RESET) {
                        style = String::new();
                    } else {
                        style.append(seq.as_str());
                    }
                    esc = None;
                }
            },
            None => {
                if ch == ESC {
                    let mut seq = String::new();
                    seq.push(ch);
                    proof {
                        assert(seq@ =~= seq![ch]);
                    }
                    esc = Some(seq);
                } else {
                    let w: usize = display_width_char(ch);
                    esc = None;
                    if used > 0 && used + w > width {
                        let finished = close_line(line, &style);
                        proof {
                            lemma_texts_push(done@, finished);
                        }
                        done.push(finished);
                        line = style.clone();
                        line.push(ch);
                        used = w;
                    } else {
                        line.push(ch);
                        used = used + w;
                    }
                }
            },
        }
        i = i + 1;
    }
    proof {
        lemma_take_full(text@);
    }
    let last = match esc {
        Some(seq) => line.concat(seq.as_str()),
        None => line,
    };
    let finished = close_line(last, &style);
    proof {
        lemma_texts_push(done@, finished);
    }
    done.push(finished);
    done
}

/// Behind a text that does not end inside an escape sequence, another one shows what it shows
/// alone.
proof fn lemma_shown_concat(a: Seq<char>, b: Seq<char>)
    requires
        !shown(a).0,
    ensures
        shown(a + b) == (shown(b).0, shown(a).1 + shown(b).1),
    decreases b.len(),
{
    if b.len() == 0 {
        assert(a + b =~= a);
    } else {
        lemma_shown_concat(a, b.drop_last());
        assert((a + b).drop_last() =~= a + b.drop_last());
    }
}

/// Whether a number of columns fits into a width, or is that of a single character.
pub open spec fn fits_or_single(used: nat, width: nat) -> bool {
    used <= width || exists|c: char| used == #[trigger] columns(c)
}

proof fn lemma_wrap_fits(s: Seq<char>, width: nat)
    ensures
        ({
            let st = wrap_state(s, width);
            &&& shown(st.line) == (false, st.used)
            &&& shown(st.style) == (false, 0nat)
            &&& fits_or_single(st.used, width)
            &&& st.esc matches Some(seq) ==> shown(seq) == (true, 0nat)
            &&& forall|i: int|
                0 <= i < st.done.len() ==> fits_or_single(visible_columns(#[trigger] st.done[i]), width)
        }),
    decreases s.len(),
{
    if s.len() > 0 {
        lemma_wrap_fits(s.drop_last(), width);
        let st = wrap_state(s.drop_last(), width);
        let c = s.last();
        match st.esc {
            Some(seq) => {
                lemma_shown_push(seq, c);
                if c == 'm' {
                    lemma_shown_concat(st.line, seq.push(c));
                    lemma_shown_concat(st.style, seq.push(c));
                }
            },
            None => {
                lemma_shown_push(Seq::empty(), c);
                assert(Seq::<char>::empty().push(c) =~= seq![c]);
                lemma_shown_push(st.line, c);
                lemma_shown_push(st.style, c);
                lemma_shown_reset(st.line);
            },
        }
    }
}

/// A wrapped text has at least one line, and every line fits into the width unless it shows a
/// single character.
pub proof fn law_wrapped_fits(s: Seq<char>, width: nat)
    ensures
        wrapped(s, width).len() >= 1,
        forall|i: int|
            0 <= i < wrapped(s, width).len() ==> fits_or_single(
                visible_columns(#[trigger] wrapped(s, width)[i]),
                width,
            ),
{
    lemma_wrap_fits(s, width);
    let st = wrap_state(s, width);
    let line = match st.esc {
        Some(seq) => {
            lemma_shown_concat(st.line, seq);
            st.line + seq
        },
        None => st.line,
    };
    lemma_shown_reset(line);
}

} // verus!
