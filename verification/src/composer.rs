//! How the text that is being written stands on the screen.

use crate::ansi::{DIM, RESET, columns, display_width, display_width_char, text_columns};
use crate::editor::{CollapsedPaste, DraftView, PasteView, ReplEditorDraft, paste_views};
use crate::media::image_views;
use crate::popup::{least, mode_command, mode_placeholder};
use crate::stream::sat_add;
use crate::text::{
    before_at, blank, byte_len, bytes_len, char_byte_len, chars_of, decimal, decimal_string,
    decimal_wide, is_blank, join, join_strings, lemma_bytes_len_prefix, lemma_head,
    lemma_head_of_prefix, lemma_take_full, lemma_take_step, lemma_texts_push, on_boundary,
    texts,
};
use vstd::prelude::*;

verus! {

// ---------------------------------------------------------------------------
// Wrapping
// ---------------------------------------------------------------------------

/// The rows of a text, and the columns taken in the last of them.
pub struct Rows {
    pub rows: Seq<Seq<char>>,
    pub col: nat,
}

pub open spec fn rows_step(st: Rows, c: char, width: nat) -> Rows {
    let last = st.rows.last();
    if c == '\n' {
        Rows { rows: st.rows.push(Seq::empty()), col: 0 }
    } else if last.len() > 0 && st.col + columns(c) > width {
        Rows { rows: st.rows.push(seq![c]), col: columns(c) }
    } else {
        Rows { rows: st.rows.drop_last().push(last.push(c)), col: st.col + columns(c) }
    }
}

/// The rows of a text: a newline starts a row, and so does a character that does not fit.
pub open spec fn rows(s: Seq<char>, width: nat) -> Rows
    decreases s.len(),
{
    if s.len() == 0 {
        Rows { rows: seq![Seq::empty()], col: 0 }
    } else {
        rows_step(rows(s.drop_last(), width), s.last(), width)
    }
}

/// What stands before the cursor; a cursor inside a character counts as standing at the end.
pub open spec fn before_cursor(s: Seq<char>, cursor: nat) -> Seq<char> {
    if on_boundary(s, cursor) {
        before_at(s, cursor)
    } else {
        s
    }
}

pub open spec fn cursor_row(s: Seq<char>, cursor: nat, width: nat) -> nat {
    (rows(before_cursor(s, cursor), width).rows.len() - 1) as nat
}

pub open spec fn cursor_col(s: Seq<char>, cursor: nat, width: nat) -> nat {
    rows(before_cursor(s, cursor), width).col
}

#[derive(Debug)]
pub struct WrappedInput {
    pub lines: Vec<String>,
    pub cursor_row: usize,
    pub cursor_col: usize,
}

proof fn lemma_rows_len(s: Seq<char>, width: nat)
    ensures
        1 <= rows(s, width).rows.len() <= s.len() + 1,
    decreases s.len(),
{
    if s.len() > 0 {
        lemma_rows_len(s.drop_last(), width);
    }
}

proof fn lemma_rows_prefix(s: Seq<char>, k: int, width: nat)
    requires
        0 <= k <= s.len(),
    ensures
        rows(s.take(k), width).rows.len() <= rows(s, width).rows.len(),
    decreases s.len() - k,
{
    if k == s.len() {
        lemma_take_full(s);
    } else {
        lemma_rows_prefix(s, k + 1, width);
        lemma_take_step(s, k);
        lemma_rows_len(s.take(k), width);
    }
}

/// The cursor stands in one of the rows.
pub proof fn law_cursor_has_a_row(s: Seq<char>, cursor: nat, width: nat)
    ensures
        cursor_row(s, cursor, width) < rows(s, width).rows.len(),
{
    lemma_rows_len(s, width);
    lemma_head(s, cursor);
    lemma_take_full(s);
    if on_boundary(s, cursor) {
        lemma_rows_prefix(s, before_at(s, cursor).len() as int, width);
        lemma_rows_len(before_at(s, cursor), width);
    }
}

/// The characters of a text but the newlines.
pub open spec fn without_newlines(s: Seq<char>) -> Seq<char>
    decreases s.len(),
{
    if s.len() == 0 {
        Seq::empty()
    } else if s.last() == '\n' {
        without_newlines(s.drop_last())
    } else {
        without_newlines(s.drop_last()).push(s.last())
    }
}

pub open spec fn concat_all(v: Seq<Seq<char>>) -> Seq<char>
    decreases v.len(),
{
    if v.len() == 0 {
        Seq::empty()
    } else {
        concat_all(v.drop_last()) + v.last()
    }
}

/// Wrapping loses and adds nothing: the rows in a row are the text without its newlines.
pub proof fn law_rows_keep_text(s: Seq<char>, width: nat)
    ensures
        concat_all(rows(s, width).rows) == without_newlines(s),
    decreases s.len(),
{
    if s.len() == 0 {
        let v = seq![Seq::<char>::empty()];
        assert(v.drop_last() =~= Seq::<Seq<char>>::empty());
        assert(concat_all(v.drop_last()) == Seq::<char>::empty());
        assert(concat_all(v) =~= Seq::<char>::empty());
    } else {
        let st = rows(s.drop_last(), width);
        let c = s.last();
        let n = rows(s, width).rows;
        law_rows_keep_text(s.drop_last(), width);
        lemma_rows_len(s.drop_last(), width);
        if c == '\n' || (st.rows.last().len() > 0 && st.col + columns(c) > width) {
            assert(n.drop_last() =~= st.rows);
        } else {
            assert(n.drop_last() =~= st.rows.drop_last());
            assert(n.last() == st.rows.last().push(c));
        }
        assert(concat_all(n) =~= without_newlines(s));
    }
}

/// The columns of a row.
pub open spec fn row_columns(s: Seq<char>) -> nat
    decreases s.len(),
{
    if s.len() == 0 {
        0
    } else {
        row_columns(s.drop_last()) + columns(s.last())
    }
}

/// Every row fits into the width, unless it holds a single character.
pub proof fn law_rows_fit(s: Seq<char>, width: nat)
    ensures
        rows(s, width).col == row_columns(rows(s, width).rows.last()),
        forall|i: int|
            0 <= i < rows(s, width).rows.len() ==> (#[trigger] rows(s, width).rows[i]).len() <= 1
                || row_columns(rows(s, width).rows[i]) <= width,
    decreases s.len(),
{
    if s.len() > 0 {
        let st = rows(s.drop_last(), width);
        let c = s.last();
        let n = rows(s, width).rows;
        law_rows_fit(s.drop_last(), width);
        lemma_rows_len(s.drop_last(), width);
        assert(seq![c].drop_last() =~= Seq::<char>::empty());
        assert(row_columns(seq![c]) == columns(c)) by {
            assert(row_columns(Seq::<char>::empty()) == 0);
        }
        assert(st.rows.last().push(c).drop_last() =~= st.rows.last());
        assert(st.rows[st.rows.len() - 1] == st.rows.last());
        assert forall|i: int| 0 <= i < n.len() implies (#[trigger] n[i]).len() <= 1 || row_columns(
            n[i],
        ) <= width by {
            if i < st.rows.len() - 1 {
                assert(n[i] == st.rows[i]);
            } else if i < n.len() - 1 {
                assert(n[i] == st.rows[i]);
            }
        }
    }
}

pub fn wrap_editor_input(buffer: &str, cursor: usize, width: usize) -> (r: WrappedInput)
    ensures
        texts(r.lines@) == rows(buffer@, width as nat).rows,
        r.cursor_row == cursor_row(buffer@, cursor as nat, width as nat),
        r.cursor_col == cursor_col(buffer@, cursor as nat, width as nat),
        r.cursor_row < r.lines@.len(),
{
    let ghost s = buffer@;
    let ghost w = width as nat;
    let c = chars_of(buffer);
    let total: usize = byte_len(buffer);
    let mut done: Vec<String> = Vec::new();
    let mut line = String::new();
    let mut col: usize = 0;
    let mut offset: usize = 0;
    let mut found: Option<(usize, usize)> = if cursor == 0 {
        Some((0, 0))
    } else {
        None
    };
    let mut i: usize = 0;
    let ghost mut at: int = 0;
    proof {
        assert(s.take(0) =~= Seq::<char>::empty());
        assert(texts(done@).push(line@) =~= seq![Seq::<char>::empty()]);
    }
    while i < c.len()
        invariant
            i <= c@.len(),
            c@ == s,
            s == buffer@,
            w == width as nat,
            total == bytes_len(s),
            offset == bytes_len(s.take(i as int)),
            done@.len() <= i,
            col <= offset,
            rows(s.take(i as int), w) == (Rows {
                rows: texts(done@).push(line@),
                col: col as nat,
            }),
            found matches Some(p) ==> {
                &&& 0 <= at <= i
                &&& bytes_len(s.take(at)) == cursor
                &&& p.0 == rows(s.take(at), w).rows.len() - 1
                &&& p.1 == rows(s.take(at), w).col
            },
            found is None ==> forall|k: int|
                0 <= k <= i ==> bytes_len(#[trigger] s.take(k)) != cursor,
        decreases c@.len() - i,
    {
        let ch: char = c[i];
        let ghost before = rows(s.take(i as int), w);
        let ghost old_done = done@;
        let ghost old_line = line@;
        proof {
            lemma_take_step(s, i as int);
            lemma_bytes_len_prefix(s, i + 1, s.len() as int);
            lemma_take_full(s);
            lemma_rows_len(s.take(i + 1), w);
            lemma_rows_len(s.take(i as int), w);
            assert(before.rows.last() == line@);
            assert(before.rows.drop_last() =~= texts(done@));
        }
        let n: usize = display_width_char(ch);
        if ch == '\n' {
            proof {
                lemma_texts_push(done@, line);
            }
            done.push(line);
            line = String::new();
            col = 0;
            proof {
                assert(line@ =~= Seq::<char>::empty());
            }
        } else if !line.as_str().is_empty() && col + n > width {
            proof {
                lemma_texts_push(done@, line);
            }
            done.push(line);
            line = String::new();
            line.push(ch);
            col = n;
            proof {
                assert(line@ =~= seq![ch]);
            }
        } else {
            line.push(ch);
            col = col + n;
        }
        offset = offset + char_byte_len(ch);
        i = i + 1;
        proof {
            assert(rows(s.take(i as int), w) == rows_step(before, ch, w));
            assert(texts(done@).push(line@).len() == done@.len() + 1);
        }
        if found.is_none() && offset == cursor {
            found = Some((done.len(), col));
            proof {
                at = i as int;
            }
        }
    }
    proof {
        lemma_take_full(s);
        lemma_head(s, cursor as nat);
        if found is Some {
            lemma_head_of_prefix(s, at);
        } else if on_boundary(s, cursor as nat) {
            let k = before_at(s, cursor as nat).len() as int;
            assert(bytes_len(s.take(k)) == cursor);
        }
        law_cursor_has_a_row(s, cursor as nat, w);
        lemma_texts_push(done@, line);
    }
    let last: usize = done.len();
    done.push(line);
    match found {
        Some((row, at_col)) => WrappedInput { lines: done, cursor_row: row, cursor_col: at_col },
        None => WrappedInput { lines: done, cursor_row: last, cursor_col: col },
    }
}

// ---------------------------------------------------------------------------
// Badges
// ---------------------------------------------------------------------------

pub open spec fn image_badge(i: int) -> Seq<char> {
    "[Image #"@ + decimal((i + 1) as nat) + "]"@
}

/// A badge for each of so many images.
pub open spec fn image_badge_text(count: nat) -> Seq<char> {
    join(Seq::new(count, |i: int| image_badge(i)), " "@)
}

pub fn image_badges(count: usize) -> (r: String)
    ensures
        r@ == image_badge_text(count as nat),
{
    let mut parts: Vec<String> = Vec::new();
    let mut i: usize = 0;
    while i < count
        invariant
            i <= count,
            parts@.len() == i,
            texts(parts@) =~= Seq::new(i as nat, |k: int| image_badge(k)),
        decreases count - i,
    {
        let part = "[Image #".to_owned().concat(decimal_wide(i as u128 + 1).as_str()).concat("]");
        proof {
            lemma_texts_push(parts@, part);
        }
        parts.push(part);
        i = i + 1;
    }
    join_strings(&parts, " ")
}

pub open spec fn paste_badge(p: PasteView, number: nat) -> Seq<char> {
    "[Pasted text #"@ + decimal(number) + " +"@ + decimal(
        if p.line_count == 0 {
            0
        } else {
            (p.line_count - 1) as nat
        },
    ) + " lines]"@
}

/// A badge for each pasted text; their numbers go on after those of the images.
pub open spec fn paste_badge_text(v: Seq<PasteView>, images: nat) -> Seq<char> {
    join(Seq::new(v.len(), |i: int| paste_badge(v[i], (images + i + 1) as nat)), " "@)
}

pub fn paste_badges(pastes: &Vec<CollapsedPaste>, image_offset: usize) -> (r: String)
    ensures
        r@ == paste_badge_text(paste_views(pastes@), image_offset as nat),
{
    let ghost v = paste_views(pastes@);
    let mut parts: Vec<String> = Vec::new();
    let mut i: usize = 0;
    while i < pastes.len()
        invariant
            i <= pastes@.len(),
            parts@.len() == i,
            v == paste_views(pastes@),
            texts(parts@) =~= Seq::new(
                i as nat,
                |k: int| paste_badge(v[k], (image_offset + k + 1) as nat),
            ),
        decreases pastes@.len() - i,
    {
        let more: usize = pastes[i].line_count.saturating_sub(1);
        let part = "[Pasted text #".to_owned().concat(
            decimal_wide(image_offset as u128 + i as u128 + 1).as_str(),
        ).concat(" +").concat(decimal_string(more as u64).as_str()).concat(" lines]");
        proof {
            assert(v[i as int] == pastes@[i as int]@);
            lemma_texts_push(parts@, part);
        }
        parts.push(part);
        i = i + 1;
    }
    proof {
        assert(texts(parts@) =~= Seq::new(
            v.len(),
            |k: int| paste_badge(v[k], (image_offset + k + 1) as nat),
        ));
    }
    join_strings(&parts, " ")
}

/// The badges of everything that is attached.
pub open spec fn badge_text(d: DraftView) -> Seq<char> {
    let i = image_badge_text(d.images.len());
    let p = paste_badge_text(d.pastes, d.images.len());
    if d.images.len() > 0 && d.pastes.len() > 0 {
        i + " "@ + p
    } else if d.images.len() > 0 {
        i
    } else if d.pastes.len() > 0 {
        p
    } else {
        Seq::empty()
    }
}

pub fn repl_attachment_badges(draft: &ReplEditorDraft) -> (r: String)
    ensures
        r@ == badge_text(draft@),
{
    proof {
        assert(image_views(draft.images@).len() == draft.images@.len());
        assert(paste_views(draft.collapsed_pastes@).len() == draft.collapsed_pastes@.len());
    }
    if draft.images.len() == 0 && draft.collapsed_pastes.len() == 0 {
        let out = String::new();
        proof {
            assert(out@ =~= Seq::<char>::empty());
        }
        return out;
    }
    if draft.images.len() == 0 {
        return paste_badges(&draft.collapsed_pastes, 0);
    }
    let images = image_badges(draft.images.len());
    if draft.collapsed_pastes.len() == 0 {
        return images;
    }
    images.concat(" ").concat(
        paste_badges(&draft.collapsed_pastes, draft.images.len()).as_str(),
    )
}

/// The segments that hold more than spaces.
pub open spec fn written_segments(v: Seq<Option<String>>) -> Seq<Seq<char>>
    decreases v.len(),
{
    if v.len() == 0 {
        Seq::empty()
    } else {
        let before = written_segments(v.drop_last());
        match v.last() {
            Some(s) => if is_blank(s@) {
                before
            } else {
                before.push(s@)
            },
            None => before,
        }
    }
}

pub fn join_inline_prompt_segments(segments: &[Option<String>]) -> (r: String)
    ensures
        r@ == join(written_segments(segments@), " "@),
{
    let mut parts: Vec<String> = Vec::new();
    let mut i: usize = 0;
    proof {
        assert(texts(parts@) =~= written_segments(segments@.take(0)));
    }
    while i < segments.len()
        invariant
            i <= segments@.len(),
            texts(parts@) == written_segments(segments@.take(i as int)),
        decreases segments@.len() - i,
    {
        proof {
            lemma_take_step(segments@, i as int);
        }
        if let Some(s) = &segments[i] {
            if !blank(s.as_str()) {
                let part = s.clone();
                proof {
                    lemma_texts_push(parts@, part);
                }
                parts.push(part);
            }
        }
        i = i + 1;
    }
    proof {
        lemma_take_full(segments@);
    }
    join_strings(&parts, " ")
}

// ---------------------------------------------------------------------------
// The input box
// ---------------------------------------------------------------------------

#[derive(Debug)]
pub struct ReplComposerView {
    pub lines: Vec<String>,
    pub cursor_row: usize,
    pub cursor_col: usize,
}

pub struct ComposerView {
    pub lines: Seq<Seq<char>>,
    pub row: nat,
    pub col: nat,
}

impl View for ReplComposerView {
    type V = ComposerView;

    open spec fn view(&self) -> ComposerView {
        ComposerView {
            lines: texts(self.lines@),
            row: self.cursor_row as nat,
            col: self.cursor_col as nat,
        }
    }
}

/// What stands before the input: the badges and the command of the mode.
pub open spec fn prompt_prefix(d: DraftView) -> Seq<char> {
    let badges = badge_text(d);
    let slash = match d.mode {
        Some(m) => match mode_command(m) {
            Some(c) => DIM@ + "/"@ + c + RESET@ + " "@,
            None => Seq::empty(),
        },
        None => Seq::empty(),
    };
    if badges.len() == 0 {
        "❯ "@ + slash
    } else if slash.len() == 0 {
        "❯ "@ + badges + " "@
    } else {
        "❯ "@ + badges + " "@ + slash
    }
}

pub open spec fn placeholder_of(d: DraftView) -> Seq<char> {
    match d.mode {
        Some(m) => mode_placeholder(m),
        None => "Type a message. Press /commands for help."@,
    }
}

/// The columns for the input beside its prefix.
pub open spec fn input_width(cols: u16, prefix: nat) -> nat {
    let inner = if cols >= 12 {
        (cols - 4) as nat
    } else {
        8
    };
    if inner > prefix {
        (inner - prefix) as nat
    } else {
        1
    }
}

/// The lines of the input box, all of them.
pub open spec fn whole_box(d: DraftView, cols: u16) -> ComposerView {
    let prefix = prompt_prefix(d);
    let w = text_columns(prefix) as nat;
    let width = input_width(cols, w);
    if d.buffer.len() == 0 {
        ComposerView { lines: seq![prefix + DIM@ + placeholder_of(d) + RESET@], row: 0, col: w }
    } else {
        let v = rows(d.buffer, width).rows;
        ComposerView {
            lines: Seq::new(
                v.len(),
                |i: int|
                    if i == 0 {
                        prefix + v[i]
                    } else {
                        "  "@ + v[i]
                    },
            ),
            row: cursor_row(d.buffer, d.cursor, width),
            col: sat_add(w, cursor_col(d.buffer, d.cursor, width)),
        }
    }
}

/// The part of a box that fits, the row of the cursor within it.
pub open spec fn box_window(b: ComposerView, max_lines: nat) -> ComposerView {
    if b.lines.len() > max_lines {
        let start = if b.row + 1 >= max_lines && max_lines > 0 {
            (b.row + 1 - max_lines) as nat
        } else if max_lines == 0 {
            b.row
        } else {
            0
        };
        let end = least(start + max_lines, b.lines.len());
        ComposerView {
            lines: b.lines.subrange(start as int, end as int),
            row: (b.row - start) as nat,
            col: b.col,
        }
    } else {
        b
    }
}

pub open spec fn composer_box(d: DraftView, cols: u16, max_lines: nat) -> ComposerView {
    box_window(whole_box(d, cols), max_lines)
}

/// The line of the cursor is always among those shown.
pub proof fn law_cursor_is_shown(d: DraftView, cols: u16, max_lines: nat)
    requires
        max_lines > 0,
    ensures
        composer_box(d, cols, max_lines).row < composer_box(d, cols, max_lines).lines.len(),
        composer_box(d, cols, max_lines).lines.len() <= max_lines,
{
    if d.buffer.len() > 0 {
        let width = input_width(cols, text_columns(prompt_prefix(d)) as nat);
        law_cursor_has_a_row(d.buffer, d.cursor, width);
    }
}

fn prefix_of(draft: &ReplEditorDraft) -> (r: String)
    ensures
        r@ == prompt_prefix(draft@),
{
    let badges = repl_attachment_badges(draft);
    let slash = match draft.slash_mode {
        Some(m) => match m.command() {
            Some(c) => {
                let out = DIM.to_owned().concat("/").concat(c).concat(RESET).concat(" ");
                out
            },
            None => String::new(),
        },
        None => String::new(),
    };
    proof {
        reveal_strlit(" ");
        if draft.slash_mode is None || mode_command(draft.slash_mode->Some_0) is None {
            assert(slash@ =~= Seq::<char>::empty());
        }
    }
    if badges.as_str().is_empty() {
        "❯ ".to_owned().concat(slash.as_str())
    } else if slash.as_str().is_empty() {
        "❯ ".to_owned().concat(badges.as_str()).concat(" ")
    } else {
        "❯ ".to_owned().concat(badges.as_str()).concat(" ").concat(slash.as_str())
    }
}

fn box_lines(prefix: &String, v: &Vec<String>) -> (r: Vec<String>)
    ensures
        texts(r@) == Seq::new(
            v@.len(),
            |i: int|
                if i == 0 {
                    prefix@ + v@[i]@
                } else {
                    "  "@ + v@[i]@
                },
        ),
{
    let mut out: Vec<String> = Vec::new();
    let mut i: usize = 0;
    while i < v.len()
        invariant
            i <= v@.len(),
            out@.len() == i,
            forall|k: int|
                0 <= k < i ==> (#[trigger] out@[k])@ == if k == 0 {
                    prefix@ + v@[k]@
                } else {
                    "  "@ + v@[k]@
                },
        decreases v@.len() - i,
    {
        let line = if i == 0 {
            prefix.clone().concat(v[i].as_str())
        } else {
            "  ".to_owned().concat(v[i].as_str())
        };
        out.push(line);
        i = i + 1;
    }
    proof {
        assert(texts(out@) =~= Seq::new(
            v@.len(),
            |i: int|
                if i == 0 {
                    prefix@ + v@[i]@
                } else {
                    "  "@ + v@[i]@
                },
        ));
    }
    out
}

fn whole_box_of(draft: &ReplEditorDraft, cols: u16) -> (r: ReplComposerView)
    requires
        draft@.wf(),
    ensures
        r@ == whole_box(draft@, cols),
        r.cursor_row < r.lines@.len(),
{
    let prefix = prefix_of(draft);
    let prefix_width: usize = display_width(prefix.as_str());
    let inner: usize = if cols >= 12 {
        (cols - 4) as usize
    } else {
        8
    };
    let width: usize = if inner > prefix_width {
        inner - prefix_width
    } else {
        1
    };
    if draft.buffer.as_str().is_empty() {
        let placeholder = match draft.slash_mode {
            Some(m) => m.placeholder(),
            None => "Type a message. Press /commands for help.",
        };
        let line = prefix.concat(DIM).concat(placeholder).concat(RESET);
        let lines = vec![line];
        proof {
            assert(texts(lines@) =~= seq![line@]);
        }
        return ReplComposerView { lines, cursor_row: 0, cursor_col: prefix_width };
    }
    let w = wrap_editor_input(draft.buffer.as_str(), draft.cursor, width);
    let lines = box_lines(&prefix, &w.lines);
    let col: usize = prefix_width.saturating_add(w.cursor_col);
    let r = ReplComposerView { lines, cursor_row: w.cursor_row, cursor_col: col };
    proof {
        let v = rows(draft@.buffer, width as nat).rows;
        assert(texts(w.lines@).len() == w.lines@.len());
        assert(texts(lines@).len() == lines@.len());
        assert forall|i: int| 0 <= i < v.len() implies v[i] == w.lines@[i]@ by {
            assert(texts(w.lines@)[i] == w.lines@[i]@);
        }
        assert(r@.lines =~= whole_box(draft@, cols).lines);
    }
    r
}

pub fn repl_composer_view(draft: &ReplEditorDraft, cols: u16, max_lines: u16) -> (r:
    ReplComposerView)
    requires
        draft@.wf(),
    ensures
        r@ == composer_box(draft@, cols, max_lines as nat),
{
    let b = whole_box_of(draft, cols);
    proof {
        assert(texts(b.lines@).len() == b.lines@.len());
    }
    let max: usize = max_lines as usize;
    let n: usize = b.lines.len();
    if n <= max {
        return b;
    }
    let start: usize = b.cursor_row.saturating_sub(max.saturating_sub(1));
    let end: usize = if n - start <= max {
        n
    } else {
        start + max
    };
    let lines = sublist(&b.lines, start, end);
    ReplComposerView { lines, cursor_row: b.cursor_row - start, cursor_col: b.cursor_col }
}

/// A part of a list of texts.
pub fn sublist(v: &Vec<String>, from: usize, to: usize) -> (r: Vec<String>)
    requires
        from <= to <= v@.len(),
    ensures
        texts(r@) == texts(v@).subrange(from as int, to as int),
{
    let mut out: Vec<String> = Vec::new();
    let mut i: usize = from;
    while i < to
        invariant
            from <= i <= to,
            to <= v@.len(),
            out@.len() == i - from,
            forall|k: int| 0 <= k < i - from ==> (#[trigger] out@[k])@ == v@[from + k]@,
        decreases to - i,
    {
        out.push(v[i].clone());
        i = i + 1;
    }
    proof {
        assert(texts(out@) =~= texts(v@).subrange(from as int, to as int));
    }
    out
}

} // verus!
