//! The layout of the interactive screen.

use crate::ansi::{
    DIM, RESET, ansi_truncate, display_width, painted, text_columns, truncate_plain_to_width,
    truncated_ansi, truncated_plain, visible_columns, visible_width, wrap_ansi_to_width,
    wrapped,
};
use crate::composer::{
    ComposerView, ReplComposerView, composer_box, law_cursor_is_shown, repl_composer_view,
    sublist,
};
use crate::editor::{DraftView, ReplEditorDraft, materialize_repl_prompt, paste_views, prompt_of};
use crate::media::image_views;
use crate::popup::{
    ItemView, MAX_POPUP_LINES, PopupView, ReplPopupModel, ReplSlashPopupView, least,
    mode_label, opt_popup, popup_lines, popup_view, popup_width, slash_popup_lines,
    window_start,
};
use crate::render::pad_len;
use crate::text::{
    blank, chars_of, decimal, decimal_string, is_blank, join, join_strings, lemma_take_full,
    lemma_take_step, lemma_texts_push, lines, lines_of, repeat, repeat_str, texts,
};
use vstd::prelude::*;

verus! {

/// The lines of the transcript that stay on the screen below a popup.
pub const REPL_MIN_TRANSCRIPT_HEIGHT: u16 = 3;

/// What the screen shows besides the draft.
#[derive(Debug)]
pub struct ReplScreenView {
    pub transcript: String,
    pub provider_id: String,
    pub model_id: String,
    pub cwd_label: String,
    pub session_short: String,
    pub stream: bool,
    pub tools: bool,
}

/// Where the parts of the screen stand: the transcript, the input box, the popup and the status
/// bar, from top to bottom.
#[derive(Debug, Clone, Copy, PartialEq, Eq, Structural)]
pub struct ReplLayout {
    pub transcript_height: u16,
    pub popup_top: u16,
    pub popup_height: u16,
    pub composer_top: u16,
    pub composer_body_height: u16,
    pub status_row: u16,
}

pub open spec fn less(a: int, b: int) -> int {
    if a >= b {
        a - b
    } else {
        0
    }
}

/// The lines of the input box: three to eight, fewer than eight on a low screen.
pub open spec fn body_height(d: DraftView, cols: u16, rows: u16) -> int {
    let n = composer_box(d, cols, u16::MAX as nat).lines.len() as int;
    let most = if rows >= 12 {
        8int
    } else if rows >= 7 {
        rows - 4
    } else {
        3
    };
    if n < 3 {
        3
    } else if n > most {
        most
    } else {
        n
    }
}

pub fn repl_composer_body_height(cols: u16, rows: u16, draft: &ReplEditorDraft) -> (r: u16)
    requires
        draft@.wf(),
    ensures
        r == body_height(draft@, cols, rows),
        3 <= r <= 8,
{
    let view = repl_composer_view(draft, cols, u16::MAX);
    proof {
        assert(texts(view.lines@).len() == view.lines@.len());
    }
    let n: usize = view.lines.len();
    let most: u16 = if rows >= 12 {
        8
    } else if rows >= 7 {
        rows - 4
    } else {
        3
    };
    if n < 3 {
        3
    } else if n > most as usize {
        most
    } else {
        n as u16
    }
}

/// How many lines a popup may take, so that some of the transcript stays visible.
pub fn max_repl_popup_height(rows: u16, composer_body_height: u16) -> (r: u16)
    requires
        composer_body_height + 3 + REPL_MIN_TRANSCRIPT_HEIGHT <= u16::MAX,
    ensures
        r == less(rows as int, composer_body_height + 3 + REPL_MIN_TRANSCRIPT_HEIGHT),
{
    rows.saturating_sub(composer_body_height + 3 + REPL_MIN_TRANSCRIPT_HEIGHT)
}

/// The layout for a screen of so many rows.
pub open spec fn layout_of(rows: u16, body: u16, popup: u16) -> ReplLayout {
    let top = less(rows as int, body + 3 + popup) as u16;
    ReplLayout {
        transcript_height: top,
        popup_top: (top + body + 2) as u16,
        popup_height: popup,
        composer_top: top,
        composer_body_height: body,
        status_row: less(rows as int, 1) as u16,
    }
}

pub fn compute_repl_layout(rows: u16, composer_body_height: u16, popup_height: u16) -> (r:
    ReplLayout)
    requires
        composer_body_height + 3 + popup_height <= u16::MAX,
    ensures
        r == layout_of(rows, composer_body_height, popup_height),
{
    let status_row: u16 = rows.saturating_sub(1);
    let composer_top: u16 = rows.saturating_sub(composer_body_height + 3 + popup_height);
    let popup_top: u16 = composer_top + composer_body_height + 2;
    ReplLayout {
        transcript_height: composer_top,
        popup_top,
        popup_height,
        composer_top,
        composer_body_height,
        status_row,
    }
}

/// On a screen that is high enough the parts fill it without overlapping, and a popup of the
/// allowed height leaves room for the transcript.
pub proof fn law_layout_fills_screen(rows: u16, body: u16, popup: u16)
    requires
        body + 3 + REPL_MIN_TRANSCRIPT_HEIGHT <= rows,
        popup <= less(rows as int, body + 3 + REPL_MIN_TRANSCRIPT_HEIGHT),
    ensures
        ({
            let l = layout_of(rows, body, popup);
            &&& l.composer_top == l.transcript_height
            &&& l.popup_top == l.composer_top + 1 + l.composer_body_height + 1
            &&& l.status_row == l.popup_top + l.popup_height
            &&& l.status_row == rows - 1
            &&& l.transcript_height >= REPL_MIN_TRANSCRIPT_HEIGHT
        }),
{
}

// ---------------------------------------------------------------------------
// The transcript
// ---------------------------------------------------------------------------

/// The screen lines of several lines.
pub open spec fn all_wrapped(v: Seq<Seq<char>>, width: nat) -> Seq<Seq<char>>
    decreases v.len(),
{
    if v.len() == 0 {
        Seq::empty()
    } else {
        all_wrapped(v.drop_last(), width) + wrapped(v.last(), width)
    }
}

pub open spec fn some_columns(cols: u16) -> nat {
    if cols == 0 {
        1
    } else {
        cols as nat
    }
}

/// The screen lines of a transcript; an empty one says so.
pub open spec fn screen_lines(t: Seq<char>, cols: u16) -> Seq<Seq<char>> {
    if is_blank(t) {
        seq![DIM@ + "No conversation yet. Start with a prompt below."@ + RESET@]
    } else {
        all_wrapped(lines(t), some_columns(cols))
    }
}

/// Appends a list of texts to another.
pub fn append_strings(out: &mut Vec<String>, more: Vec<String>)
    ensures
        texts(final(out)@) == texts(old(out)@) + texts(more@),
{
    let mut more = more;
    let ghost a = out@;
    let ghost b = more@;
    out.append(&mut more);
    proof {
        assert(texts(out@) =~= texts(a) + texts(b));
    }
}

pub fn transcript_screen_lines(transcript: &str, cols: u16) -> (r: Vec<String>)
    ensures
        texts(r@) == screen_lines(transcript@, cols),
{
    let mut out: Vec<String> = Vec::new();
    if blank(transcript) {
        out.push(painted(DIM, "No conversation yet. Start with a prompt below."));
        proof {
            assert(texts(out@) =~= screen_lines(transcript@, cols));
        }
        return out;
    }
    let width: usize = if cols == 0 {
        1
    } else {
        cols as usize
    };
    let v = lines_of(transcript);
    let ghost src = texts(v@);
    let mut i: usize = 0;
    proof {
        assert(texts(out@) =~= Seq::<Seq<char>>::empty());
    }
    while i < v.len()
        invariant
            i <= v@.len(),
            src == texts(v@),
            texts(out@) == all_wrapped(src.take(i as int), width as nat),
        decreases v@.len() - i,
    {
        proof {
            lemma_take_step(src, i as int);
            assert(src[i as int] == v@[i as int]@);
        }
        let part = wrap_ansi_to_width(v[i].as_str(), width);
        append_strings(&mut out, part);
        i = i + 1;
    }
    proof {
        lemma_take_full(src);
    }
    out
}

/// The first line shown of so many: the one asked for, as far as the end allows. The largest
/// number asks for the end.
pub open spec fn scroll_top(total: nat, height: nat, requested: nat) -> nat {
    let max_top = less(total as int, height as int) as nat;
    if requested == usize::MAX || requested > max_top {
        max_top
    } else {
        requested
    }
}

pub fn resolve_transcript_scroll(total_lines: usize, height: usize, requested: usize) -> (r: usize)
    ensures
        r == scroll_top(total_lines as nat, height as nat, requested as nat),
{
    let max_top: usize = total_lines.saturating_sub(height);
    if requested == usize::MAX || requested > max_top {
        max_top
    } else {
        requested
    }
}

/// The part of the transcript that is on the screen.
pub open spec fn clipped_lines(t: Seq<char>, cols: u16, height: u16, requested: nat) -> Seq<Seq<char>> {
    if height == 0 {
        Seq::empty()
    } else {
        let v = screen_lines(t, cols);
        let top = scroll_top(v.len(), height as nat, requested);
        v.subrange(top as int, least(top + height as nat, v.len()) as int)
    }
}

pub fn clipped_repl_transcript_lines(
    transcript: &str,
    cols: u16,
    height: u16,
    scroll: usize,
) -> (r: Vec<String>)
    ensures
        texts(r@) == clipped_lines(transcript@, cols, height, scroll as nat),
{
    if height == 0 {
        let out: Vec<String> = Vec::new();
        proof {
            assert(texts(out@) =~= Seq::<Seq<char>>::empty());
        }
        return out;
    }
    let v = transcript_screen_lines(transcript, cols);
    proof {
        assert(texts(v@).len() == v@.len());
    }
    let n: usize = v.len();
    let top: usize = resolve_transcript_scroll(n, height as usize, scroll);
    let end: usize = if n - top <= height as usize {
        n
    } else {
        top + height as usize
    };
    sublist(&v, top, end)
}

/// The clipped transcript never has more lines than there is room for, and it fills the room
/// when there are lines enough.
pub proof fn law_transcript_fits(t: Seq<char>, cols: u16, height: u16, requested: nat)
    ensures
        clipped_lines(t, cols, height, requested).len() == least(
            height as nat,
            screen_lines(t, cols).len(),
        ),
{
}

/// How far a page scrolls.
pub fn transcript_page_step(rows: u16) -> (r: usize)
    ensures
        r == if rows > 8 {
            rows - 8
        } else {
            1
        },
{
    if rows > 8 {
        (rows - 8) as usize
    } else {
        1
    }
}

/// The room for the transcript.
pub open spec fn transcript_room(d: DraftView, cols: u16, rows: u16) -> nat {
    layout_of(rows, body_height(d, cols, rows) as u16, 0).transcript_height as nat
}

/// At least one line is scrolled.
pub open spec fn some_lines(amount: nat) -> nat {
    if amount == 0 {
        1
    } else {
        amount
    }
}

pub fn transcript_scroll_page_up(
    transcript: &str,
    draft: &ReplEditorDraft,
    amount: usize,
    cols: u16,
    rows: u16,
) -> (r: usize)
    requires
        draft@.wf(),
    ensures
        ({
            let current = scroll_top(
                screen_lines(transcript@, cols).len(),
                transcript_room(draft@, cols, rows),
                draft@.scroll,
            );
            r == less(current as int, some_lines(amount as nat) as int)
        }),
{
    let v = transcript_screen_lines(transcript, cols);
    proof {
        assert(texts(v@).len() == v@.len());
    }
    let body: u16 = repl_composer_body_height(cols, rows, draft);
    let height: usize = compute_repl_layout(rows, body, 0).transcript_height as usize;
    let current: usize = resolve_transcript_scroll(v.len(), height, draft.transcript_scroll);
    let step: usize = if amount == 0 {
        1
    } else {
        amount
    };
    current.saturating_sub(step)
}

pub fn transcript_scroll_page_down(
    transcript: &str,
    draft: &ReplEditorDraft,
    amount: usize,
    cols: u16,
    rows: u16,
) -> (r: usize)
    requires
        draft@.wf(),
    ensures
        ({
            let total = screen_lines(transcript@, cols).len();
            let room = transcript_room(draft@, cols, rows);
            let current = scroll_top(total, room, draft@.scroll);
            r == least(
                current + some_lines(amount as nat),
                less(total as int, room as int) as nat,
            )
        }),
{
    let v = transcript_screen_lines(transcript, cols);
    proof {
        assert(texts(v@).len() == v@.len());
    }
    let total: usize = v.len();
    let body: u16 = repl_composer_body_height(cols, rows, draft);
    let height: usize = compute_repl_layout(rows, body, 0).transcript_height as usize;
    let current: usize = resolve_transcript_scroll(total, height, draft.transcript_scroll);
    let step: usize = if amount == 0 {
        1
    } else {
        amount
    };
    let last: usize = total.saturating_sub(height);
    if last - current <= step {
        last
    } else {
        current + step
    }
}

// ---------------------------------------------------------------------------
// The frame
// ---------------------------------------------------------------------------

/// A rule across the screen.
pub open spec fn screen_rule(cols: u16) -> Seq<char> {
    DIM@ + repeat("─"@, some_columns(cols)) + RESET@
}

pub fn full_width_rule(cols: u16) -> (r: String)
    ensures
        r@ == screen_rule(cols),
{
    let width: usize = if cols == 0 {
        1
    } else {
        cols as usize
    };
    DIM.to_owned().concat(repeat_str("─", width).as_str()).concat(RESET)
}

/// A line of a box: cut to the width inside, and filled up with spaces.
pub open spec fn box_line(content: Seq<char>, inner: nat) -> Seq<char> {
    let t = truncated_ansi(content, inner);
    " "@ + t + repeat(" "@, pad_len(inner, visible_columns(t)))
}

fn box_line_of(content: &str, inner: usize) -> (r: String)
    ensures
        r@ == box_line(content@, inner as nat),
{
    let t = ansi_truncate(content, inner);
    let w: usize = visible_width(t.as_str());
    let pad: usize = if w < inner {
        inner - w
    } else {
        0
    };
    " ".to_owned().concat(t.as_str()).concat(repeat_str(" ", pad).as_str())
}

pub open spec fn line_or_empty(v: Seq<Seq<char>>, i: int) -> Seq<char> {
    if i < v.len() {
        v[i]
    } else {
        Seq::empty()
    }
}

/// So many lines of a box; those that are missing are empty.
pub open spec fn box_body(v: Seq<Seq<char>>, height: nat, inner: nat) -> Seq<Seq<char>> {
    Seq::new(height, |i: int| box_line(line_or_empty(v, i), inner))
}

fn push_box_body(out: &mut Vec<String>, v: &Vec<String>, height: usize, inner: usize)
    ensures
        texts(final(out)@) == texts(old(out)@) + box_body(texts(v@), height as nat, inner as nat),
{
    let ghost before = texts(out@);
    let ghost body = box_body(texts(v@), height as nat, inner as nat);
    let mut i: usize = 0;
    proof {
        assert(before + body.take(0) =~= before);
    }
    while i < height
        invariant
            i <= height,
            body == box_body(texts(v@), height as nat, inner as nat),
            texts(out@) == before + body.take(i as int),
        decreases height - i,
    {
        let line = if i < v.len() {
            box_line_of(v[i].as_str(), inner)
        } else {
            let blank_line = String::new();
            proof {
                assert(blank_line@ =~= Seq::<char>::empty());
            }
            box_line_of(blank_line.as_str(), inner)
        };
        proof {
            assert(line@ == body[i as int]);
            lemma_texts_push(out@, line);
            lemma_take_step(body, i as int);
            assert((before + body.take(i as int)).push(line@) =~= before + body.take(i + 1));
        }
        out.push(line);
        i = i + 1;
    }
    proof {
        lemma_take_full(body);
    }
}

pub open spec fn inner_columns(cols: u16) -> nat {
    less(cols as int, 2) as nat
}

/// The input box between its two rules.
pub open spec fn composer_lines(v: Seq<Seq<char>>, height: u16, cols: u16) -> Seq<Seq<char>> {
    seq![screen_rule(cols)] + box_body(v, height as nat, inner_columns(cols)) + seq![
        screen_rule(cols),
    ]
}

pub fn draw_repl_composer(cols: u16, layout: &ReplLayout, composer_view: &ReplComposerView) -> (r:
    Vec<String>)
    ensures
        texts(r@) == composer_lines(composer_view@.lines, layout.composer_body_height, cols),
{
    let inner: usize = cols.saturating_sub(2) as usize;
    let mut out: Vec<String> = Vec::new();
    out.push(full_width_rule(cols));
    proof {
        assert(texts(out@) =~= seq![screen_rule(cols)]);
    }
    push_box_body(&mut out, &composer_view.lines, layout.composer_body_height as usize, inner);
    let rule = full_width_rule(cols);
    proof {
        lemma_texts_push(out@, rule);
        assert(texts(out@).push(rule@) =~= texts(out@) + seq![rule@]);
    }
    out.push(rule);
    out
}

/// The lines of the popup.
pub open spec fn popup_box(v: Seq<Seq<char>>, height: u16, cols: u16) -> Seq<Seq<char>> {
    if v.len() == 0 {
        Seq::empty()
    } else {
        box_body(v, height as nat, inner_columns(cols))
    }
}

pub fn draw_repl_slash_popup(cols: u16, layout: &ReplLayout, popup_view: &ReplSlashPopupView) -> (r:
    Vec<String>)
    ensures
        texts(r@) == popup_box(texts(popup_view.lines@), layout.popup_height, cols),
{
    let mut out: Vec<String> = Vec::new();
    proof {
        assert(texts(out@) =~= Seq::<Seq<char>>::empty());
        assert(texts(popup_view.lines@).len() == popup_view.lines@.len());
    }
    if popup_view.lines.len() == 0 {
        return out;
    }
    let inner: usize = cols.saturating_sub(2) as usize;
    push_box_body(&mut out, &popup_view.lines, layout.popup_height as usize, inner);
    proof {
        let body = box_body(
            texts(popup_view.lines@),
            layout.popup_height as nat,
            inner as nat,
        );
        assert(Seq::<Seq<char>>::empty() + body =~= body);
    }
    out
}

/// Where the cursor stands on the screen: column and row, of which a terminal takes sixteen bits.
pub fn repl_cursor_position(cols: u16, layout: &ReplLayout, composer_view: &ReplComposerView) -> (r:
    (u16, u16))
    requires
        composer_view.cursor_col % 0x10000 < u16::MAX,
        layout.composer_top + 1 + composer_view.cursor_row % 0x10000 <= u16::MAX,
    ensures
        r.0 == least((1 + composer_view.cursor_col % 0x10000) as nat, inner_columns(cols)),
        r.1 == layout.composer_top + 1 + composer_view.cursor_row % 0x10000,
{
    let max_x: u16 = cols.saturating_sub(2);
    let x: u16 = 1 + (composer_view.cursor_col % 0x10000) as u16;
    (
        if x <= max_x {
            x
        } else {
            max_x
        },
        layout.composer_top + 1 + (composer_view.cursor_row % 0x10000) as u16,
    )
}

/// Where the cursor stands, if its column can be given to a terminal.
pub open spec fn cursor_at(cols: u16, top: u16, b: ComposerView) -> Option<(u16, u16)> {
    let x = b.col % 0x10000;
    if x < u16::MAX {
        Some((least(1 + x, inner_columns(cols)) as u16, (top + 1 + b.row) as u16))
    } else {
        None
    }
}

fn cursor_position(cols: u16, layout: &ReplLayout, composer_view: &ReplComposerView) -> (r: Option<
    (u16, u16),
>)
    requires
        layout.composer_top + 1 + composer_view.cursor_row <= u16::MAX,
    ensures
        r == cursor_at(cols, layout.composer_top, composer_view@),
{
    if composer_view.cursor_col % 0x10000 < u16::MAX as usize {
        Some(repl_cursor_position(cols, layout, composer_view))
    } else {
        None
    }
}

/// Two texts at the ends of a line; where they do not fit side by side, the left one alone.
pub open spec fn status_line(left: Seq<char>, right: Seq<char>, width: nat) -> Seq<char> {
    let l = " "@ + left + " "@;
    let r = " "@ + right + " "@;
    let used = text_columns(l) + text_columns(r);
    if used >= width {
        truncated_plain(l, width)
    } else {
        l + repeat(" "@, (width - used) as nat) + r
    }
}

pub fn pad_status_bar_plain(left: &str, right: &str, width: usize) -> (r: String)
    ensures
        r@ == status_line(left@, right@, width as nat),
{
    let l = " ".to_owned().concat(left).concat(" ");
    let r = " ".to_owned().concat(right).concat(" ");
    let lw: usize = display_width(l.as_str());
    let rw: usize = display_width(r.as_str());
    if lw >= width || rw >= width - lw {
        return truncate_plain_to_width(l.as_str(), width);
    }
    let pad: usize = width - lw - rw;
    l.concat(repeat_str(" ", pad).as_str()).concat(r.as_str())
}

pub open spec fn on_off(b: bool) -> Seq<char> {
    if b {
        "on"@
    } else {
        "off"@
    }
}

pub fn on_off_name(b: bool) -> (r: &'static str)
    ensures
        r@ == on_off(b),
{
    if b {
        "on"
    } else {
        "off"
    }
}

/// The counts at the right end of the status bar.
pub open spec fn draft_counts(d: DraftView, stream: bool, tools: bool) -> Seq<char> {
    decimal(d.images.len()) + " images │ "@ + decimal(d.pastes.len()) + " paste(s) │ "@ + decimal(
        prompt_of(d).len(),
    ) + " chars │ stream "@ + on_off(stream) + " │ tools "@ + on_off(tools)
}

/// What stands at the right end of the status bar: a message, the mode and the counts.
pub open spec fn status_right(d: DraftView, stream: bool, tools: bool) -> Seq<char> {
    let message = match d.status {
        Some(s) => seq![s],
        None => Seq::empty(),
    };
    let mode = match d.mode {
        Some(m) => seq!["slash /"@ + mode_label(m)],
        None => Seq::empty(),
    };
    join(message + mode + seq![draft_counts(d, stream, tools)], " │ "@)
}

pub open spec fn status_left(v: ReplScreenView) -> Seq<char> {
    v.model_id@ + " │ "@ + v.cwd_label@ + " │ "@ + v.provider_id@ + " │ "@ + v.session_short@
}

pub open spec fn status_bar(v: ReplScreenView, d: DraftView, cols: u16) -> Seq<char> {
    "\x1b[48;5;236m\x1b[38;5;252m"@ + status_line(
        status_left(v),
        status_right(d, v.stream, v.tools),
        cols as nat,
    ) + "\x1b[0m"@
}

pub fn build_repl_status_bar(view: &ReplScreenView, draft: &ReplEditorDraft, cols: u16) -> (r:
    String)
    ensures
        r@ == status_bar(*view, draft@, cols),
{
    proof {
        assert(image_views(draft.images@).len() == draft.images@.len());
        assert(paste_views(draft.collapsed_pastes@).len() == draft.collapsed_pastes@.len());
    }
    let prompt = materialize_repl_prompt(draft);
    let prompt_chars: usize = chars_of(prompt.as_str()).len();
    let left = view.model_id.clone().concat(" │ ").concat(view.cwd_label.as_str()).concat(
        " │ ",
    ).concat(view.provider_id.as_str()).concat(" │ ").concat(view.session_short.as_str());
    let mut parts: Vec<String> = Vec::new();
    proof {
        assert(texts(parts@) =~= Seq::<Seq<char>>::empty());
    }
    if let Some(status) = &draft.status {
        let part = status.clone();
        proof {
            lemma_texts_push(parts@, part);
        }
        parts.push(part);
    }
    if let Some(mode) = draft.slash_mode {
        let part = "slash /".to_owned().concat(mode.label());
        proof {
            lemma_texts_push(parts@, part);
        }
        parts.push(part);
    }
    let counts = decimal_string(draft.images.len() as u64).concat(" images │ ").concat(
        decimal_string(draft.collapsed_pastes.len() as u64).as_str(),
    ).concat(" paste(s) │ ").concat(decimal_string(prompt_chars as u64).as_str()).concat(
        " chars │ stream ",
    ).concat(on_off_name(view.stream)).concat(" │ tools ").concat(on_off_name(view.tools));
    proof {
        lemma_texts_push(parts@, counts);
    }
    parts.push(counts);
    let right = join_strings(&parts, " │ ");
    proof {
        let d = draft@;
        let message = match d.status {
            Some(s) => seq![s],
            None => Seq::empty(),
        };
        let mode = match d.mode {
            Some(m) => seq!["slash /"@ + mode_label(m)],
            None => Seq::empty(),
        };
        assert(texts(parts@) =~= message + mode + seq![draft_counts(d, view.stream, view.tools)]);
    }
    let content = pad_status_bar_plain(left.as_str(), right.as_str(), cols as usize);
    "\x1b[48;5;236m\x1b[38;5;252m".to_owned().concat(content.as_str()).concat("\x1b[0m")
}

/// Everything that is drawn: lists of lines from given rows on, and the cursor.
#[derive(Debug)]
pub struct ReplFrame {
    pub transcript: Vec<String>,
    pub popup_top: u16,
    pub popup: Vec<String>,
    pub composer_top: u16,
    pub composer: Vec<String>,
    pub status_row: u16,
    pub status: String,
    /// Column and row, where the column can be given to a terminal.
    pub cursor: Option<(u16, u16)>,
}

/// The popup of a draft on a screen.
pub open spec fn frame_popup(
    d: DraftView,
    popup: Option<PopupView>,
    cols: u16,
    rows: u16,
) -> Seq<Seq<char>> {
    popup_view(
        popup,
        d.selected,
        cols,
        less(rows as int, body_height(d, cols, rows) + 3 + REPL_MIN_TRANSCRIPT_HEIGHT) as nat,
    )
}

pub open spec fn frame_layout(d: DraftView, popup: Option<PopupView>, cols: u16, rows: u16) -> ReplLayout {
    layout_of(
        rows,
        body_height(d, cols, rows) as u16,
        frame_popup(d, popup, cols, rows).len() as u16,
    )
}

pub open spec fn is_frame(
    f: ReplFrame,
    v: ReplScreenView,
    d: DraftView,
    popup: Option<PopupView>,
    cols: u16,
    rows: u16,
) -> bool {
    let l = frame_layout(d, popup, cols, rows);
    let b = composer_box(d, cols, l.composer_body_height as nat);
    &&& texts(f.transcript@) == clipped_lines(v.transcript@, cols, l.transcript_height, d.scroll)
    &&& f.popup_top == l.popup_top
    &&& texts(f.popup@) == popup_box(frame_popup(d, popup, cols, rows), l.popup_height, cols)
    &&& f.composer_top == l.composer_top
    &&& texts(f.composer@) == composer_lines(b.lines, l.composer_body_height, cols)
    &&& f.status_row == l.status_row
    &&& f.status@ == status_bar(v, d, cols)
    &&& f.cursor == cursor_at(cols, l.composer_top, b)
}

proof fn lemma_popup_lines(popup: Option<PopupView>, selected: nat, cols: u16, max_lines: nat)
    ensures
        popup_view(popup, selected, cols, max_lines).len() <= 8,
{
    if let Some(p) = popup {
        if p.items.len() > 0 && max_lines > 0 {
            let visible = least(least(p.items.len(), max_lines), MAX_POPUP_LINES as nat);
            let start = window_start(selected, p.items.len(), visible);
            lemma_popup_lines_len(
                p.items,
                selected,
                popup_width(cols),
                start as int,
                (start + visible) as int,
            );
        }
    }
}

proof fn lemma_popup_lines_len(items: Seq<ItemView>, selected: nat, width: nat, from: int, to: int)
    requires
        from <= to,
    ensures
        popup_lines(items, selected, width, from, to).len() == to - from,
    decreases to - from,
{
    if from < to {
        lemma_popup_lines_len(items, selected, width, from, to - 1);
    }
}

/// What the screen shows; nothing on a screen without room.
pub fn render_repl_editor(
    view: &ReplScreenView,
    draft: &ReplEditorDraft,
    popup_model: Option<&ReplPopupModel>,
    cols: u16,
    rows: u16,
) -> (r: Option<ReplFrame>)
    requires
        draft@.wf(),
    ensures
        r is None <==> cols == 0 || rows == 0,
        r matches Some(f) ==> is_frame(f, *view, draft@, opt_popup(popup_model), cols, rows),
{
    if cols == 0 || rows == 0 {
        return None;
    }
    let body: u16 = repl_composer_body_height(cols, rows, draft);
    let popup_max: usize = max_repl_popup_height(rows, body) as usize;
    let popup_lines_shown = slash_popup_lines(popup_model, draft.popup_selected, cols, popup_max);
    proof {
        lemma_popup_lines(
            opt_popup(popup_model),
            draft@.selected,
            cols,
            popup_max as nat,
        );
        assert(texts(popup_lines_shown.lines@).len() == popup_lines_shown.lines@.len());
    }
    let layout = compute_repl_layout(rows, body, popup_lines_shown.lines.len() as u16);
    let transcript = clipped_repl_transcript_lines(
        view.transcript.as_str(),
        cols,
        layout.transcript_height,
        draft.transcript_scroll,
    );
    let composer_view = repl_composer_view(draft, cols, layout.composer_body_height);
    let status = build_repl_status_bar(view, draft, cols);
    let popup = draw_repl_slash_popup(cols, &layout, &popup_lines_shown);
    let composer = draw_repl_composer(cols, &layout, &composer_view);
    proof {
        law_cursor_is_shown(draft@, cols, layout.composer_body_height as nat);
    }
    let cursor = cursor_position(cols, &layout, &composer_view);
    Some(
        ReplFrame {
            transcript,
            popup_top: layout.popup_top,
            popup,
            composer_top: layout.composer_top,
            composer,
            status_row: layout.status_row,
            status,
            cursor,
        },
    )
}

/// The popup of a draft.
pub fn repl_slash_popup_view(
    popup_model: Option<&ReplPopupModel>,
    draft: &ReplEditorDraft,
    cols: u16,
    max_lines: usize,
) -> (r: ReplSlashPopupView)
    ensures
        texts(r.lines@) == popup_view(
            opt_popup(popup_model),
            draft@.selected,
            cols,
            max_lines as nat,
        ),
{
    slash_popup_lines(popup_model, draft.popup_selected, cols, max_lines)
}

} // verus!
