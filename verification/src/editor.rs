//! The line editor: what is being written, and what every key does to it.

use crate::error::AppResult;
use crate::media::{
    ImageView, MessageImage, after_last, clone_images, image_views, last_index,
    lemma_images_push,
};
use crate::popup::{
    ActionView, PopupView, ReplPopupAction, ReplPopupModel, ReplSlashMode, item_views,
    mode_command, opt_popup,
};
use crate::text::{
    after_at, before_at, blank, byte_len, bytes_len, char_byte_len, char_bytes, chars_of,
    decimal, decimal_string, is_blank, lemma_bytes_len_concat, lemma_bytes_len_ge,
    lemma_bytes_len_prefix, lemma_head, lemma_head_of_prefix, lemma_take_full, lemma_take_step,
    lines, lines_of, on_boundary, opt_eq, opt_text, string_of, substring, take_bytes, texts,
    trim, trimmed,
};
use vstd::prelude::*;

verus! {

/// A long pasted text that is shown as a badge.
#[derive(Debug)]
pub struct CollapsedPaste {
    pub text: String,
    pub line_count: usize,
}

pub struct PasteView {
    pub text: Seq<char>,
    pub line_count: nat,
}

impl View for CollapsedPaste {
    type V = PasteView;

    open spec fn view(&self) -> PasteView {
        PasteView { text: self.text@, line_count: self.line_count as nat }
    }
}

pub open spec fn paste_views(v: Seq<CollapsedPaste>) -> Seq<PasteView> {
    v.map_values(|p: CollapsedPaste| p@)
}

/// What is being written. The cursor is an offset in bytes.
#[derive(Debug)]
pub struct ReplEditorDraft {
    pub buffer: String,
    pub images: Vec<MessageImage>,
    pub collapsed_pastes: Vec<CollapsedPaste>,
    pub status: Option<String>,
    pub cursor: usize,
    pub transcript_scroll: usize,
    pub esc_pending: bool,
    pub popup_selected: usize,
    pub popup_signature: Option<String>,
    pub slash_mode: Option<ReplSlashMode>,
}

pub struct DraftView {
    pub buffer: Seq<char>,
    pub images: Seq<ImageView>,
    pub pastes: Seq<PasteView>,
    pub status: Option<Seq<char>>,
    pub cursor: nat,
    pub scroll: nat,
    pub esc: bool,
    pub selected: nat,
    pub signature: Option<Seq<char>>,
    pub mode: Option<ReplSlashMode>,
}

impl View for ReplEditorDraft {
    type V = DraftView;

    open spec fn view(&self) -> DraftView {
        DraftView {
            buffer: self.buffer@,
            images: image_views(self.images@),
            pastes: paste_views(self.collapsed_pastes@),
            status: opt_text(self.status),
            cursor: self.cursor as nat,
            scroll: self.transcript_scroll as nat,
            esc: self.esc_pending,
            selected: self.popup_selected as nat,
            signature: opt_text(self.popup_signature),
            mode: self.slash_mode,
        }
    }
}

/// An empty draft.
pub open spec fn empty_draft() -> DraftView {
    DraftView {
        buffer: Seq::empty(),
        images: Seq::empty(),
        pastes: Seq::empty(),
        status: None,
        cursor: 0,
        scroll: 0,
        esc: false,
        selected: 0,
        signature: None,
        mode: None,
    }
}

impl Default for ReplEditorDraft {
    fn default() -> (r: ReplEditorDraft)
        ensures
            r@ == empty_draft(),
    {
        let r = ReplEditorDraft {
            buffer: String::new(),
            images: Vec::new(),
            collapsed_pastes: Vec::new(),
            status: None,
            cursor: 0,
            transcript_scroll: 0,
            esc_pending: false,
            popup_selected: 0,
            popup_signature: None,
            slash_mode: None,
        };
        proof {
            assert(image_views(r.images@) =~= Seq::<ImageView>::empty());
            assert(paste_views(r.collapsed_pastes@) =~= Seq::<PasteView>::empty());
        }
        r
    }
}

// ---------------------------------------------------------------------------
// The cursor
// ---------------------------------------------------------------------------

impl DraftView {
    /// The cursor stands between two characters.
    pub open spec fn wf(self) -> bool {
        on_boundary(self.buffer, self.cursor)
    }
}

/// Splits a text at an offset between two characters.
fn split_at(s: &str, offset: usize) -> (r: (Vec<char>, Vec<char>))
    ensures
        r.0@ == before_at(s@, offset as nat),
        r.1@ == after_at(s@, offset as nat),
        r.0@ + r.1@ == s@,
{
    let h = take_bytes(s, offset);
    let a = chars_of(h.as_str());
    let c = chars_of(s);
    proof {
        lemma_head(s@, offset as nat);
    }
    let mut b: Vec<char> = Vec::new();
    let mut i: usize = a.len();
    proof {
        assert(b@ =~= s@.subrange(a@.len() as int, a@.len() as int));
    }
    while i < c.len()
        invariant
            a@.len() <= i <= c@.len(),
            c@ == s@,
            b@ == s@.subrange(a@.len() as int, i as int),
        decreases c@.len() - i,
    {
        b.push(c[i]);
        i = i + 1;
        proof {
            assert(b@ =~= s@.subrange(a@.len() as int, i as int));
        }
    }
    proof {
        assert(b@ =~= after_at(s@, offset as nat));
    }
    (a, b)
}

fn bytes_of(c: &[char]) -> (n: usize)
    ensures
        n == bytes_len(c@),
{
    let s = string_of(c);
    byte_len(s.as_str())
}

fn joined(a: &Vec<char>, b: &Vec<char>) -> (r: String)
    ensures
        r@ == a@ + b@,
{
    string_of(a.as_slice()).concat(string_of(b.as_slice()).as_str())
}

pub open spec fn inserted(d: DraftView, t: Seq<char>) -> DraftView {
    DraftView {
        buffer: before_at(d.buffer, d.cursor) + t + after_at(d.buffer, d.cursor),
        cursor: d.cursor + bytes_len(t),
        ..d
    }
}

proof fn lemma_inserted(s: Seq<char>, offset: nat, t: Seq<char>)
    requires
        on_boundary(s, offset),
    ensures
        ({
            let r = before_at(s, offset) + t + after_at(s, offset);
            &&& on_boundary(r, offset + bytes_len(t))
            &&& before_at(r, offset + bytes_len(t)) == before_at(s, offset) + t
            &&& offset + bytes_len(t) <= bytes_len(r)
        }),
{
    let h = before_at(s, offset) + t;
    let r = h + after_at(s, offset);
    lemma_bytes_len_concat(before_at(s, offset), t);
    lemma_bytes_len_concat(h, after_at(s, offset));
    assert(r.take(h.len() as int) =~= h);
    lemma_head_of_prefix(r, h.len() as int);
}

pub fn insert_text_at_cursor(draft: &mut ReplEditorDraft, text: &str)
    requires
        old(draft)@.wf(),
    ensures
        final(draft)@ == inserted(old(draft)@, text@),
        final(draft)@.wf(),
{
    let (a, b) = split_at(draft.buffer.as_str(), draft.cursor);
    let front = string_of(a.as_slice()).concat(text);
    let whole = front.clone().concat(string_of(b.as_slice()).as_str());
    let total: usize = byte_len(whole.as_str());
    let added: usize = byte_len(text);
    proof {
        lemma_inserted(draft.buffer@, draft.cursor as nat, text@);
        assert(whole@ == before_at(draft.buffer@, draft.cursor as nat) + text@ + after_at(
            draft.buffer@,
            draft.cursor as nat,
        ));
    }
    draft.cursor = draft.cursor + added;
    draft.buffer = whole;
}

pub fn insert_char_at_cursor(draft: &mut ReplEditorDraft, ch: char)
    requires
        old(draft)@.wf(),
    ensures
        final(draft)@ == inserted(old(draft)@, seq![ch]),
        final(draft)@.wf(),
{
    let mut s = String::new();
    s.push(ch);
    proof {
        assert(s@ =~= seq![ch]);
    }
    insert_text_at_cursor(draft, s.as_str());
}

/// The draft without the character before the cursor.
pub open spec fn without_prev(d: DraftView) -> DraftView {
    let h = before_at(d.buffer, d.cursor).drop_last();
    DraftView { buffer: h + after_at(d.buffer, d.cursor), cursor: bytes_len(h), ..d }
}

proof fn lemma_head_some(s: Seq<char>, offset: nat)
    requires
        on_boundary(s, offset),
    ensures
        offset > 0 <==> before_at(s, offset).len() > 0,
        offset < bytes_len(s) <==> after_at(s, offset).len() > 0,
        bytes_len(s) == offset + bytes_len(after_at(s, offset)),
{
    lemma_head(s, offset);
    lemma_bytes_len_concat(before_at(s, offset), after_at(s, offset));
    lemma_bytes_len_ge(before_at(s, offset));
    lemma_bytes_len_ge(after_at(s, offset));
}

pub fn delete_prev_char_at_cursor(draft: &mut ReplEditorDraft) -> (r: bool)
    requires
        old(draft)@.wf(),
    ensures
        r == (old(draft)@.cursor > 0),
        final(draft)@ == if r {
            without_prev(old(draft)@)
        } else {
            old(draft)@
        },
        final(draft)@.wf(),
{
    if draft.cursor == 0 {
        return false;
    }
    proof {
        lemma_head_some(draft.buffer@, draft.cursor as nat);
    }
    let (a, b) = split_at(draft.buffer.as_str(), draft.cursor);
    let mut a = a;
    let ghost h = a@.drop_last();
    let last = a.pop();
    let n: usize = bytes_of(a.as_slice());
    let whole = joined(&a, &b);
    proof {
        assert(a@ =~= h);
        assert(whole@.take(h.len() as int) =~= h);
        lemma_head_of_prefix(whole@, h.len() as int);
    }
    draft.buffer = whole;
    draft.cursor = n;
    true
}

/// The draft without the character behind the cursor.
pub open spec fn without_next(d: DraftView) -> DraftView {
    DraftView {
        buffer: before_at(d.buffer, d.cursor) + after_at(d.buffer, d.cursor).drop_first(),
        ..d
    }
}

pub fn delete_char_at_cursor(draft: &mut ReplEditorDraft) -> (r: bool)
    requires
        old(draft)@.wf(),
    ensures
        r == (old(draft)@.cursor < bytes_len(old(draft)@.buffer)),
        final(draft)@ == if r {
            without_next(old(draft)@)
        } else {
            old(draft)@
        },
        final(draft)@.wf(),
{
    let total: usize = byte_len(draft.buffer.as_str());
    if draft.cursor >= total {
        return false;
    }
    proof {
        lemma_head_some(draft.buffer@, draft.cursor as nat);
    }
    let (a, b) = split_at(draft.buffer.as_str(), draft.cursor);
    let rest = substring(b.as_slice(), 1, b.len());
    let whole = string_of(a.as_slice()).concat(rest.as_str());
    proof {
        assert(rest@ =~= b@.drop_first());
        assert(whole@.take(a@.len() as int) =~= a@);
        lemma_head_of_prefix(whole@, a@.len() as int);
    }
    draft.buffer = whole;
    true
}

/// The offset of the character before an offset.
pub open spec fn prev_offset(s: Seq<char>, offset: nat) -> nat {
    if before_at(s, offset).len() == 0 {
        0
    } else {
        bytes_len(before_at(s, offset).drop_last())
    }
}

pub fn previous_char_boundary(text: &str, index: usize) -> (r: usize)
    requires
        on_boundary(text@, index as nat),
    ensures
        r == prev_offset(text@, index as nat),
        on_boundary(text@, r as nat),
{
    let (a, _b) = split_at(text, index);
    if a.len() == 0 {
        proof {
            lemma_head_of_prefix(text@, 0);
            assert(text@.take(0) =~= Seq::<char>::empty());
        }
        return 0;
    }
    let h = vstd::slice::slice_subrange(a.as_slice(), 0, a.len() - 1);
    proof {
        lemma_head(text@, index as nat);
        assert(h@ =~= a@.drop_last());
        assert(h@ =~= text@.take(a@.len() - 1));
        lemma_head_of_prefix(text@, a@.len() - 1);
    }
    bytes_of(h)
}

/// The offset of the character behind the one at an offset.
pub open spec fn next_offset(s: Seq<char>, offset: nat) -> nat {
    if after_at(s, offset).len() == 0 {
        offset
    } else {
        offset + char_bytes(after_at(s, offset)[0])
    }
}

pub fn next_char_boundary(text: &str, index: usize) -> (r: usize)
    requires
        on_boundary(text@, index as nat),
    ensures
        r == next_offset(text@, index as nat),
        on_boundary(text@, r as nat),
{
    let (a, b) = split_at(text, index);
    if b.len() == 0 {
        return index;
    }
    let total: usize = byte_len(text);
    proof {
        lemma_head(text@, index as nat);
        let k = a@.len() as int;
        assert(text@[k] == b@[0]);
        lemma_take_step(text@, k);
        lemma_head_of_prefix(text@, k + 1);
        lemma_bytes_len_prefix(text@, k + 1, text@.len() as int);
        lemma_take_full(text@);
    }
    index + char_byte_len(b[0])
}

/// The offset at which the line of an offset starts.
pub open spec fn line_start(s: Seq<char>, offset: nat) -> nat {
    let h = before_at(s, offset);
    bytes_len(h.take(last_index(h, '\n') + 1))
}

pub fn line_start_boundary(text: &str, index: usize) -> (r: usize)
    requires
        on_boundary(text@, index as nat),
    ensures
        r == line_start(text@, index as nat),
        on_boundary(text@, r as nat),
{
    let (a, _b) = split_at(text, index);
    let k: usize = after_last(a.as_slice(), '\n');
    let h = vstd::slice::slice_subrange(a.as_slice(), 0, k);
    proof {
        lemma_head(text@, index as nat);
        assert(h@ =~= a@.take(k as int));
        assert(h@ =~= text@.take(k as int));
        lemma_head_of_prefix(text@, k as int);
    }
    bytes_of(h)
}

/// The index of the first newline from `i` on, or the end.
pub open spec fn newline_from(s: Seq<char>, i: int) -> int
    decreases s.len() - i,
{
    if 0 <= i < s.len() && s[i] != '\n' {
        newline_from(s, i + 1)
    } else {
        i
    }
}

/// The offset at which the line of an offset ends.
pub open spec fn line_stop(s: Seq<char>, offset: nat) -> nat {
    let t = after_at(s, offset);
    offset + bytes_len(t.take(newline_from(t, 0)))
}

pub fn line_end_boundary(text: &str, index: usize) -> (r: usize)
    requires
        on_boundary(text@, index as nat),
    ensures
        r == line_stop(text@, index as nat),
        on_boundary(text@, r as nat),
{
    let (a, b) = split_at(text, index);
    let n: usize = b.len();
    let mut k: usize = 0;
    while k < n && b[k] != '\n'
        invariant
            k <= n,
            n == b@.len(),
            newline_from(b@, 0) == newline_from(b@, k as int),
        decreases n - k,
    {
        k = k + 1;
    }
    let part = vstd::slice::slice_subrange(b.as_slice(), 0, k);
    let total: usize = byte_len(text);
    proof {
        lemma_head(text@, index as nat);
        assert(part@ =~= b@.take(k as int));
        let m = a@.len() + k;
        assert(text@.take(m) =~= a@ + part@);
        lemma_bytes_len_concat(a@, part@);
        lemma_head_of_prefix(text@, m);
        lemma_bytes_len_prefix(text@, m, text@.len() as int);
        lemma_take_full(text@);
    }
    index + bytes_of(part)
}

pub open spec fn moved(d: DraftView, cursor: nat) -> DraftView {
    DraftView { cursor, ..d }
}

pub fn move_cursor_left(draft: &mut ReplEditorDraft)
    requires
        old(draft)@.wf(),
    ensures
        final(draft)@ == moved(old(draft)@, prev_offset(old(draft)@.buffer, old(draft)@.cursor)),
        final(draft)@.wf(),
{
    draft.cursor = previous_char_boundary(draft.buffer.as_str(), draft.cursor);
}

pub fn move_cursor_right(draft: &mut ReplEditorDraft)
    requires
        old(draft)@.wf(),
    ensures
        final(draft)@ == moved(old(draft)@, next_offset(old(draft)@.buffer, old(draft)@.cursor)),
        final(draft)@.wf(),
{
    draft.cursor = next_char_boundary(draft.buffer.as_str(), draft.cursor);
}

pub fn move_cursor_line_start(draft: &mut ReplEditorDraft)
    requires
        old(draft)@.wf(),
    ensures
        final(draft)@ == moved(old(draft)@, line_start(old(draft)@.buffer, old(draft)@.cursor)),
        final(draft)@.wf(),
{
    draft.cursor = line_start_boundary(draft.buffer.as_str(), draft.cursor);
}

pub fn move_cursor_line_end(draft: &mut ReplEditorDraft)
    requires
        old(draft)@.wf(),
    ensures
        final(draft)@ == moved(old(draft)@, line_stop(old(draft)@.buffer, old(draft)@.cursor)),
        final(draft)@.wf(),
{
    draft.cursor = line_end_boundary(draft.buffer.as_str(), draft.cursor);
}

/// Deleting right after a character was typed takes it back.
pub proof fn law_delete_undoes_typing(d: DraftView, c: char)
    requires
        d.wf(),
    ensures
        without_prev(inserted(d, seq![c])) == d,
{
    let e = inserted(d, seq![c]);
    lemma_inserted(d.buffer, d.cursor, seq![c]);
    lemma_head(d.buffer, d.cursor);
    lemma_head(e.buffer, e.cursor);
    let h = before_at(d.buffer, d.cursor) + seq![c];
    assert(h.drop_last() =~= before_at(d.buffer, d.cursor));
    assert(after_at(e.buffer, e.cursor) =~= after_at(d.buffer, d.cursor));
}

/// Going left after going right leads back, where there was something to the right.
pub proof fn law_left_undoes_right(s: Seq<char>, offset: nat)
    requires
        on_boundary(s, offset),
        offset < bytes_len(s),
    ensures
        prev_offset(s, next_offset(s, offset)) == offset,
{
    lemma_head_some(s, offset);
    lemma_head(s, offset);
    let k = before_at(s, offset).len() as int;
    assert(s[k] == after_at(s, offset)[0]);
    lemma_take_step(s, k);
    lemma_head_of_prefix(s, k + 1);
    assert(s.take(k + 1).drop_last() =~= s.take(k));
}

// ---------------------------------------------------------------------------
// Pasting and submitting
// ---------------------------------------------------------------------------

/// Whether a pasted text is long: more than eight lines or 320 characters.
pub open spec fn is_long(t: Seq<char>) -> bool {
    lines(t).len() > 8 || t.len() > 320
}

pub fn should_collapse_pasted_text(text: &str) -> (r: bool)
    ensures
        r == is_long(text@),
{
    let v = lines_of(text);
    proof {
        assert(texts(v@).len() == v@.len());
    }
    v.len() > 8 || chars_of(text).len() > 320
}

/// The draft after a text was pasted: a long one becomes a badge.
pub open spec fn pasted(d: DraftView, t: Seq<char>) -> DraftView {
    if is_long(t) {
        let n = lines(t).len();
        DraftView {
            pastes: d.pastes.push(
                PasteView {
                    text: t,
                    line_count: if n == 0 {
                        1
                    } else {
                        n
                    },
                },
            ),
            status: None,
            ..d
        }
    } else {
        DraftView { status: None, ..inserted(d, t) }
    }
}

pub fn handle_pasted_text(draft: &mut ReplEditorDraft, text: String)
    requires
        old(draft)@.wf(),
    ensures
        final(draft)@ == pasted(old(draft)@, text@),
        final(draft)@.wf(),
{
    if should_collapse_pasted_text(text.as_str()) {
        let v = lines_of(text.as_str());
        let n: usize = v.len();
        proof {
            assert(texts(v@).len() == v@.len());
        }
        let line_count: usize = if n == 0 {
            1
        } else {
            n
        };
        let ghost before = paste_views(draft.collapsed_pastes@);
        let p = CollapsedPaste { text, line_count };
        draft.collapsed_pastes.push(p);
        proof {
            assert(paste_views(draft.collapsed_pastes@) =~= before.push(p@));
        }
        draft.status = None;
    } else {
        insert_text_at_cursor(draft, text.as_str());
        draft.status = None;
    }
}

/// The written text and the pasted ones, a blank line between each two.
pub open spec fn with_pastes(s: Seq<char>, pastes: Seq<PasteView>) -> Seq<char>
    decreases pastes.len(),
{
    if pastes.len() == 0 {
        s
    } else {
        let before = with_pastes(s, pastes.drop_last());
        if before.len() > 0 && before.last() != '\n' {
            before + "\n\n"@ + pastes.last().text
        } else {
            before + pastes.last().text
        }
    }
}

/// What is submitted of a draft.
pub open spec fn prompt_of(d: DraftView) -> Seq<char> {
    with_pastes(d.buffer, d.pastes)
}

fn ends_line(s: &String) -> (r: bool)
    ensures
        r == (s@.len() == 0 || s@.last() == '\n'),
{
    let c = chars_of(s.as_str());
    c.len() == 0 || c[c.len() - 1] == '\n'
}

pub fn materialize_repl_prompt(draft: &ReplEditorDraft) -> (r: String)
    ensures
        r@ == prompt_of(draft@),
{
    let ghost src = paste_views(draft.collapsed_pastes@);
    let mut prompt = draft.buffer.clone();
    let mut i: usize = 0;
    while i < draft.collapsed_pastes.len()
        invariant
            i <= draft.collapsed_pastes@.len(),
            src == paste_views(draft.collapsed_pastes@),
            prompt@ == with_pastes(draft.buffer@, src.take(i as int)),
        decreases draft.collapsed_pastes@.len() - i,
    {
        proof {
            lemma_take_step(src, i as int);
            assert(src[i as int] == draft.collapsed_pastes@[i as int]@);
        }
        if !ends_line(&prompt) {
            prompt.append("\n\n");
        }
        prompt.append(draft.collapsed_pastes[i].text.as_str());
        i = i + 1;
    }
    proof {
        lemma_take_full(src);
    }
    prompt
}

pub open spec fn cleared(d: DraftView) -> DraftView {
    DraftView {
        buffer: Seq::empty(),
        cursor: 0,
        pastes: Seq::empty(),
        esc: false,
        selected: 0,
        signature: None,
        mode: None,
        ..d
    }
}

proof fn lemma_empty_wf()
    ensures
        on_boundary(Seq::empty(), 0),
{
    assert(before_at(Seq::empty(), 0) =~= Seq::<char>::empty());
}

pub fn clear_repl_text_input(draft: &mut ReplEditorDraft)
    ensures
        final(draft)@ == cleared(old(draft)@),
        final(draft)@.wf(),
{
    draft.buffer = String::new();
    draft.cursor = 0;
    draft.collapsed_pastes = Vec::new();
    draft.esc_pending = false;
    draft.popup_selected = 0;
    draft.popup_signature = None;
    draft.slash_mode = None;
    proof {
        assert(paste_views(draft.collapsed_pastes@) =~= Seq::<PasteView>::empty());
        lemma_empty_wf();
    }
}

pub open spec fn entered(d: DraftView, mode: ReplSlashMode) -> DraftView {
    DraftView {
        mode: Some(mode),
        buffer: Seq::empty(),
        cursor: 0,
        selected: 0,
        signature: None,
        ..d
    }
}

pub fn enter_repl_slash_mode(draft: &mut ReplEditorDraft, mode: ReplSlashMode)
    ensures
        final(draft)@ == entered(old(draft)@, mode),
        final(draft)@.wf(),
{
    draft.slash_mode = Some(mode);
    draft.buffer = String::new();
    draft.cursor = 0;
    draft.popup_selected = 0;
    draft.popup_signature = None;
    proof {
        lemma_empty_wf();
    }
}

/// The command that is submitted in a mode when nothing was chosen.
pub open spec fn manual_prompt(d: DraftView) -> Option<Seq<char>> {
    let query = trimmed(d.buffer);
    match d.mode {
        None => None,
        Some(ReplSlashMode::Commands) => if query.len() == 0 {
            None
        } else {
            Some("/"@ + query)
        },
        Some(mode) => match mode_command(mode) {
            None => None,
            Some(c) => if query.len() > 0 {
                Some("/"@ + c + " "@ + query)
            } else if mode == ReplSlashMode::Audit || mode == ReplSlashMode::ToolSearch || mode
                == ReplSlashMode::Bash {
                None
            } else {
                Some("/"@ + c)
            },
        },
    }
}

pub fn manual_repl_slash_prompt(draft: &ReplEditorDraft) -> (r: Option<String>)
    ensures
        opt_text(r) == manual_prompt(draft@),
{
    let mode = match draft.slash_mode {
        Some(m) => m,
        None => {
            return None;
        },
    };
    let query = trim(draft.buffer.as_str());
    let empty = query.as_str().is_empty();
    match mode.command() {
        None => {
            if empty {
                None
            } else {
                Some("/".to_owned().concat(query.as_str()))
            }
        },
        Some(c) => {
            if !empty {
                Some("/".to_owned().concat(c).concat(" ").concat(query.as_str()))
            } else {
                match mode {
                    ReplSlashMode::Audit | ReplSlashMode::ToolSearch | ReplSlashMode::Bash => None,
                    _ => Some("/".to_owned().concat(c)),
                }
            }
        },
    }
}

// ---------------------------------------------------------------------------
// The popup
// ---------------------------------------------------------------------------

/// The draft once a popup is shown: a new popup starts at its first choice.
pub open spec fn synced(d: DraftView, popup: Option<PopupView>) -> DraftView {
    match popup {
        None => DraftView { selected: 0, signature: None, ..d },
        Some(p) => {
            let selected = if d.signature == Some(p.signature) {
                d.selected
            } else {
                0
            };
            DraftView {
                selected: if selected >= p.items.len() {
                    0
                } else {
                    selected
                },
                signature: Some(p.signature),
                ..d
            }
        },
    }
}

pub fn sync_repl_popup_selection(
    draft: &mut ReplEditorDraft,
    popup_model: Option<&ReplPopupModel>,
)
    ensures
        final(draft)@ == synced(old(draft)@, opt_popup(popup_model)),
{
    match popup_model {
        None => {
            draft.popup_selected = 0;
            draft.popup_signature = None;
        },
        Some(p) => {
            proof {
                assert(item_views(p.items@).len() == p.items@.len());
            }
            if !opt_eq(&draft.popup_signature, p.signature.as_str()) {
                draft.popup_selected = 0;
            }
            draft.popup_signature = Some(p.signature.clone());
            if draft.popup_selected >= p.items.len() {
                draft.popup_selected = 0;
            }
        },
    }
}

/// The draft after the selection moved, around the ends.
pub open spec fn selection_moved(d: DraftView, popup: Option<PopupView>, forward: bool) -> DraftView {
    match popup {
        None => d,
        Some(p) => {
            let n = p.items.len() as int;
            let step = if forward {
                1int
            } else {
                -1int
            };
            DraftView {
                selected: if n == 0 {
                    0
                } else {
                    ((d.selected as int % n + step) % n) as nat
                },
                ..d
            }
        },
    }
}

proof fn lemma_wrap(c: int, n: int)
    requires
        0 <= c < n,
    ensures
        (c + 1) % n == if c + 1 == n {
            0
        } else {
            c + 1
        },
        (c - 1) % n == if c == 0 {
            n - 1
        } else {
            c - 1
        },
{
    if c + 1 == n {
        assert(n % n == 0) by (nonlinear_arith)
            requires
                n > 0,
        ;
    } else {
        assert((c + 1) % n == c + 1) by (nonlinear_arith)
            requires
                0 <= c + 1 < n,
        ;
    }
    if c == 0 {
        assert((-1int) % n == n - 1) by (nonlinear_arith)
            requires
                n > 0,
        ;
    } else {
        assert((c - 1) % n == c - 1) by (nonlinear_arith)
            requires
                0 <= c - 1 < n,
        ;
    }
}

pub fn move_repl_popup_selection(
    draft: &mut ReplEditorDraft,
    popup_model: Option<&ReplPopupModel>,
    forward: bool,
)
    ensures
        final(draft)@ == selection_moved(old(draft)@, opt_popup(popup_model), forward),
{
    match popup_model {
        None => {},
        Some(p) => {
            let n: usize = p.items.len();
            proof {
                assert(item_views(p.items@).len() == n);
            }
            if n == 0 {
                draft.popup_selected = 0;
                return;
            }
            let c: usize = draft.popup_selected % n;
            proof {
                lemma_wrap(c as int, n as int);
            }
            draft.popup_selected = if forward {
                if c == n - 1 {
                    0
                } else {
                    c + 1
                }
            } else if c == 0 {
                n - 1
            } else {
                c - 1
            };
        },
    }
}

/// What the selected choice does.
pub open spec fn chosen(d: DraftView, popup: Option<PopupView>) -> Option<ActionView> {
    match popup {
        Some(p) => if d.selected < p.items.len() {
            Some(p.items[d.selected as int].action)
        } else {
            None
        },
        None => None,
    }
}

pub open spec fn opt_action(r: Option<ReplPopupAction>) -> Option<ActionView> {
    match r {
        Some(a) => Some(a@),
        None => None,
    }
}

pub fn accept_repl_popup_selection(
    draft: &ReplEditorDraft,
    popup_model: Option<&ReplPopupModel>,
) -> (r: Option<ReplPopupAction>)
    ensures
        opt_action(r) == chosen(draft@, opt_popup(popup_model)),
{
    match popup_model {
        None => None,
        Some(p) => {
            proof {
                assert(item_views(p.items@).len() == p.items@.len());
            }
            if draft.popup_selected < p.items.len() {
                proof {
                    assert(item_views(p.items@)[draft.popup_selected as int]
                        == p.items@[draft.popup_selected as int]@);
                }
                Some(p.items[draft.popup_selected].action.copy())
            } else {
                None
            }
        },
    }
}

/// Moving the selection there and back leaves it where it was.
pub proof fn law_selection_moves_back(d: DraftView, p: PopupView)
    requires
        d.selected < p.items.len(),
    ensures
        selection_moved(selection_moved(d, Some(p), true), Some(p), false).selected == d.selected,
        selection_moved(selection_moved(d, Some(p), false), Some(p), true).selected == d.selected,
{
    let n = p.items.len() as int;
    let c = d.selected as int;
    lemma_small(c, n);
    lemma_wrap(c, n);
    let up = if c + 1 == n {
        0
    } else {
        c + 1
    };
    let down = if c == 0 {
        n - 1
    } else {
        c - 1
    };
    lemma_small(up, n);
    lemma_small(down, n);
    lemma_wrap(up, n);
    lemma_wrap(down, n);
}

proof fn lemma_small(c: int, n: int)
    requires
        0 <= c < n,
    ensures
        c % n == c,
{
    assert(c % n == c) by (nonlinear_arith)
        requires
            0 <= c < n,
    ;
}

// ---------------------------------------------------------------------------
// Keys
// ---------------------------------------------------------------------------

#[derive(Debug, Clone, Copy, PartialEq, Eq, Structural)]
pub enum ReplKey {
    Char(char),
    Up,
    Down,
    Left,
    Right,
    Home,
    End,
    Tab,
    Enter,
    Backspace,
    Delete,
    Esc,
    PageUp,
    PageDown,
    Other,
}

#[derive(Debug, Clone, Copy, PartialEq, Eq, Structural)]
pub struct KeyMods {
    pub control: bool,
    pub shift: bool,
    pub other: bool,
}

pub open spec fn no_mods(m: KeyMods) -> bool {
    !m.control && !m.shift && !m.other
}

/// What has to be done after a key.
#[derive(Debug)]
pub enum ReplStep {
    /// Nothing but drawing the draft.
    Stay,
    /// The input is complete.
    Submit(String, Vec<MessageImage>),
    /// The transcript scrolls up, by a page or a little.
    ScrollUp(bool),
    /// The transcript scrolls down, by a page or a little.
    ScrollDown(bool),
    /// The text of the clipboard is to be pasted.
    PasteText,
    /// The image of the clipboard is to be attached.
    PasteImage,
}

pub enum StepView {
    Stay,
    Submit(Seq<char>, Seq<ImageView>),
    ScrollUp(bool),
    ScrollDown(bool),
    PasteText,
    PasteImage,
}

impl View for ReplStep {
    type V = StepView;

    open spec fn view(&self) -> StepView {
        match self {
            ReplStep::Stay => StepView::Stay,
            ReplStep::Submit(p, i) => StepView::Submit(p@, image_views(i@)),
            ReplStep::ScrollUp(page) => StepView::ScrollUp(*page),
            ReplStep::ScrollDown(page) => StepView::ScrollDown(*page),
            ReplStep::PasteText => StepView::PasteText,
            ReplStep::PasteImage => StepView::PasteImage,
        }
    }
}

pub open spec fn calm(d: DraftView) -> DraftView {
    DraftView { esc: false, ..d }
}

pub open spec fn with_status(d: DraftView, s: Seq<char>) -> DraftView {
    DraftView { status: Some(s), ..d }
}

pub open spec fn no_status(d: DraftView) -> DraftView {
    DraftView { status: None, ..d }
}

/// What a choice does to the draft.
pub open spec fn act(d: DraftView, a: ActionView) -> (DraftView, StepView) {
    match a {
        ActionView::Enter(m) => (no_status(entered(d, m)), StepView::Stay),
        ActionView::Submit(p) => (d, StepView::Submit(p, Seq::empty())),
    }
}

/// What the enter key does: it takes the selected choice, else the typed command, else the text.
pub open spec fn enter_key(d: DraftView, popup: Option<PopupView>) -> (DraftView, StepView) {
    match chosen(d, popup) {
        Some(a) => act(d, a),
        None => match manual_prompt(d) {
            Some(p) => (d, StepView::Submit(p, Seq::empty())),
            None => if d.mode is Some {
                (with_status(d, "No matching slash command."@), StepView::Stay)
            } else if is_blank(d.buffer) && d.images.len() == 0 && d.pastes.len() == 0 {
                (
                    with_status(
                        d,
                        "Input is empty. Press Ctrl+V to attach a clipboard image."@,
                    ),
                    StepView::Stay,
                )
            } else {
                (d, StepView::Submit(prompt_of(d), d.images))
            },
        },
    }
}

/// What the backspace key takes away: a character, else the mode, else a pasted text, else an
/// image.
pub open spec fn backspace_key(d: DraftView) -> DraftView {
    if d.cursor > 0 {
        no_status(without_prev(d))
    } else if d.mode is Some {
        DraftView { mode: None, status: None, selected: 0, signature: None, ..d }
    } else if d.pastes.len() > 0 {
        with_status(
            DraftView { pastes: d.pastes.drop_last(), ..d },
            "Removed one pasted text block. "@ + decimal((d.pastes.len() - 1) as nat)
                + " remaining."@,
        )
    } else if d.images.len() > 0 {
        with_status(
            DraftView { images: d.images.drop_last(), ..d },
            "Removed one image. "@ + decimal((d.images.len() - 1) as nat) + " remaining."@,
        )
    } else {
        d
    }
}

/// What the escape key does: the second time it clears the input.
pub open spec fn escape_key(d: DraftView) -> DraftView {
    if d.esc {
        with_status(cleared(d), "Input cleared."@)
    } else {
        with_status(
            DraftView { esc: true, ..d },
            if d.mode is Some {
                "Press Esc again to leave slash mode."@
            } else {
                "Press Esc again to clear the input."@
            },
        )
    }
}

/// What a character key does.
pub open spec fn char_key(d: DraftView, c: char, m: KeyMods) -> (DraftView, StepView) {
    if c == '/' && no_mods(m) && d.mode is None && d.buffer.len() == 0 && d.images.len() == 0
        && d.pastes.len() == 0 {
        (entered(calm(d), ReplSlashMode::Commands), StepView::Stay)
    } else if m.control && (c == 'j' || c == 'J') {
        (no_status(inserted(calm(d), "\n"@)), StepView::Stay)
    } else if m.control && (c == 'c' || c == 'C') {
        (d, StepView::Submit("/exit"@, Seq::empty()))
    } else if m.control && m.shift && (c == 'v' || c == 'V') {
        (calm(d), StepView::PasteText)
    } else if m.control && (c == 'v' || c == 'V') {
        (calm(d), StepView::PasteImage)
    } else if !m.control {
        (no_status(inserted(calm(d), seq![c])), StepView::Stay)
    } else {
        (d, StepView::Stay)
    }
}

/// What a key does to the draft, and what has to be done after it.
pub open spec fn key_step(d: DraftView, popup: Option<PopupView>, key: ReplKey, m: KeyMods) -> (
    DraftView,
    StepView,
) {
    match key {
        ReplKey::Char(c) => char_key(d, c, m),
        ReplKey::Up => if no_mods(m) && popup is Some {
            (selection_moved(calm(d), popup, false), StepView::Stay)
        } else if m.control {
            (calm(d), StepView::ScrollUp(false))
        } else {
            (d, StepView::Stay)
        },
        ReplKey::Down => if no_mods(m) && popup is Some {
            (selection_moved(calm(d), popup, true), StepView::Stay)
        } else if m.control {
            (calm(d), StepView::ScrollDown(false))
        } else {
            (d, StepView::Stay)
        },
        ReplKey::Tab => if no_mods(m) && popup is Some {
            match chosen(calm(d), popup) {
                Some(a) => act(calm(d), a),
                None => (calm(d), StepView::Stay),
            }
        } else if d.mode is None {
            (no_status(inserted(calm(d), "    "@)), StepView::Stay)
        } else {
            (calm(d), StepView::Stay)
        },
        ReplKey::Enter => if no_mods(m) {
            enter_key(d, popup)
        } else if m.control || m.shift {
            (no_status(inserted(calm(d), "\n"@)), StepView::Stay)
        } else {
            (d, StepView::Stay)
        },
        ReplKey::PageUp => (calm(d), StepView::ScrollUp(true)),
        ReplKey::PageDown => (calm(d), StepView::ScrollDown(true)),
        ReplKey::Backspace => (backspace_key(calm(d)), StepView::Stay),
        ReplKey::Delete => (
            if d.cursor < bytes_len(d.buffer) {
                no_status(without_next(calm(d)))
            } else {
                calm(d)
            },
            StepView::Stay,
        ),
        ReplKey::Left => (moved(calm(d), prev_offset(d.buffer, d.cursor)), StepView::Stay),
        ReplKey::Right => (moved(calm(d), next_offset(d.buffer, d.cursor)), StepView::Stay),
        ReplKey::Home => (moved(calm(d), line_start(d.buffer, d.cursor)), StepView::Stay),
        ReplKey::End => (moved(calm(d), line_stop(d.buffer, d.cursor)), StepView::Stay),
        ReplKey::Esc => (escape_key(d), StepView::Stay),
        ReplKey::Other => (d, StepView::Stay),
    }
}

fn submit(prompt: String) -> (r: ReplStep)
    ensures
        r@ == StepView::Submit(prompt@, Seq::empty()),
{
    let images: Vec<MessageImage> = Vec::new();
    proof {
        assert(image_views(images@) =~= Seq::<ImageView>::empty());
    }
    ReplStep::Submit(prompt, images)
}

fn do_action(draft: &mut ReplEditorDraft, action: ReplPopupAction) -> (r: ReplStep)
    requires
        old(draft)@.wf(),
    ensures
        (final(draft)@, r@) == act(old(draft)@, action@),
        final(draft)@.wf(),
{
    match action {
        ReplPopupAction::EnterSlashMode(m) => {
            enter_repl_slash_mode(draft, m);
            draft.status = None;
            ReplStep::Stay
        },
        ReplPopupAction::SubmitPrompt(p) => submit(p),
    }
}

fn press_enter(draft: &mut ReplEditorDraft, popup_model: Option<&ReplPopupModel>) -> (r: ReplStep)
    requires
        old(draft)@.wf(),
    ensures
        (final(draft)@, r@) == enter_key(old(draft)@, opt_popup(popup_model)),
        final(draft)@.wf(),
{
    if let Some(a) = accept_repl_popup_selection(draft, popup_model) {
        return do_action(draft, a);
    }
    if let Some(p) = manual_repl_slash_prompt(draft) {
        return submit(p);
    }
    if draft.slash_mode.is_some() {
        draft.status = Some("No matching slash command.".to_owned());
        return ReplStep::Stay;
    }
    proof {
        assert(image_views(draft.images@).len() == draft.images@.len());
        assert(paste_views(draft.collapsed_pastes@).len() == draft.collapsed_pastes@.len());
    }
    if blank(draft.buffer.as_str()) && draft.images.len() == 0 && draft.collapsed_pastes.len() == 0 {
        draft.status = Some(
            "Input is empty. Press Ctrl+V to attach a clipboard image.".to_owned(),
        );
        return ReplStep::Stay;
    }
    ReplStep::Submit(materialize_repl_prompt(draft), clone_images(&draft.images))
}

fn press_backspace(draft: &mut ReplEditorDraft)
    requires
        old(draft)@.wf(),
    ensures
        final(draft)@ == backspace_key(old(draft)@),
        final(draft)@.wf(),
{
    proof {
        assert(image_views(draft.images@).len() == draft.images@.len());
        assert(paste_views(draft.collapsed_pastes@).len() == draft.collapsed_pastes@.len());
    }
    if delete_prev_char_at_cursor(draft) {
        draft.status = None;
    } else if draft.slash_mode.is_some() {
        draft.slash_mode = None;
        draft.status = None;
        draft.popup_selected = 0;
        draft.popup_signature = None;
    } else if draft.collapsed_pastes.len() > 0 {
        let ghost before = paste_views(draft.collapsed_pastes@);
        let gone = draft.collapsed_pastes.pop();
        proof {
            assert(paste_views(draft.collapsed_pastes@) =~= before.drop_last());
        }
        draft.status = Some(
            "Removed one pasted text block. ".to_owned().concat(
                decimal_string(draft.collapsed_pastes.len() as u64).as_str(),
            ).concat(" remaining."),
        );
    } else if draft.images.len() > 0 {
        let ghost before = image_views(draft.images@);
        let gone = draft.images.pop();
        proof {
            assert(image_views(draft.images@) =~= before.drop_last());
        }
        draft.status = Some(
            "Removed one image. ".to_owned().concat(
                decimal_string(draft.images.len() as u64).as_str(),
            ).concat(" remaining."),
        );
    }
}

fn press_escape(draft: &mut ReplEditorDraft)
    requires
        old(draft)@.wf(),
    ensures
        final(draft)@ == escape_key(old(draft)@),
        final(draft)@.wf(),
{
    if draft.esc_pending {
        clear_repl_text_input(draft);
        draft.status = Some("Input cleared.".to_owned());
    } else {
        draft.esc_pending = true;
        if draft.slash_mode.is_some() {
            draft.status = Some("Press Esc again to leave slash mode.".to_owned());
        } else {
            draft.status = Some("Press Esc again to clear the input.".to_owned());
        }
    }
}

fn press_char(draft: &mut ReplEditorDraft, c: char, m: KeyMods) -> (r: ReplStep)
    requires
        old(draft)@.wf(),
    ensures
        (final(draft)@, r@) == char_key(old(draft)@, c, m),
        final(draft)@.wf(),
{
    proof {
        assert(image_views(draft.images@).len() == draft.images@.len());
        assert(paste_views(draft.collapsed_pastes@).len() == draft.collapsed_pastes@.len());
    }
    let plain = !m.control && !m.shift && !m.other;
    if c == '/' && plain && draft.slash_mode.is_none() && draft.buffer.as_str().is_empty()
        && draft.images.len() == 0 && draft.collapsed_pastes.len() == 0 {
        draft.esc_pending = false;
        enter_repl_slash_mode(draft, ReplSlashMode::Commands);
        return ReplStep::Stay;
    }
    if m.control {
        if c == 'j' || c == 'J' {
            draft.esc_pending = false;
            insert_text_at_cursor(draft, "\n");
            draft.status = None;
            return ReplStep::Stay;
        }
        if c == 'c' || c == 'C' {
            return submit("/exit".to_owned());
        }
        if c == 'v' || c == 'V' {
            draft.esc_pending = false;
            return if m.shift {
                ReplStep::PasteText
            } else {
                ReplStep::PasteImage
            };
        }
        return ReplStep::Stay;
    }
    draft.esc_pending = false;
    insert_char_at_cursor(draft, c);
    draft.status = None;
    ReplStep::Stay
}

/// Handles a key.
pub fn handle_repl_key(
    draft: &mut ReplEditorDraft,
    popup_model: Option<&ReplPopupModel>,
    key: ReplKey,
    m: KeyMods,
) -> (r: ReplStep)
    requires
        old(draft)@.wf(),
    ensures
        (final(draft)@, r@) == key_step(old(draft)@, opt_popup(popup_model), key, m),
        final(draft)@.wf(),
{
    let plain = !m.control && !m.shift && !m.other;
    match key {
        ReplKey::Char(c) => press_char(draft, c, m),
        ReplKey::Up => {
            if plain && popup_model.is_some() {
                draft.esc_pending = false;
                move_repl_popup_selection(draft, popup_model, false);
                ReplStep::Stay
            } else if m.control {
                draft.esc_pending = false;
                ReplStep::ScrollUp(false)
            } else {
                ReplStep::Stay
            }
        },
        ReplKey::Down => {
            if plain && popup_model.is_some() {
                draft.esc_pending = false;
                move_repl_popup_selection(draft, popup_model, true);
                ReplStep::Stay
            } else if m.control {
                draft.esc_pending = false;
                ReplStep::ScrollDown(false)
            } else {
                ReplStep::Stay
            }
        },
        ReplKey::Tab => {
            draft.esc_pending = false;
            if plain && popup_model.is_some() {
                match accept_repl_popup_selection(draft, popup_model) {
                    Some(a) => do_action(draft, a),
                    None => ReplStep::Stay,
                }
            } else {
                if draft.slash_mode.is_none() {
                    insert_text_at_cursor(draft, "    ");
                    draft.status = None;
                }
                ReplStep::Stay
            }
        },
        ReplKey::Enter => {
            if plain {
                press_enter(draft, popup_model)
            } else {
                if m.control || m.shift {
                    draft.esc_pending = false;
                    insert_text_at_cursor(draft, "\n");
                    draft.status = None;
                }
                ReplStep::Stay
            }
        },
        ReplKey::PageUp => {
            draft.esc_pending = false;
            ReplStep::ScrollUp(true)
        },
        ReplKey::PageDown => {
            draft.esc_pending = false;
            ReplStep::ScrollDown(true)
        },
        ReplKey::Backspace => {
            draft.esc_pending = false;
            press_backspace(draft);
            ReplStep::Stay
        },
        ReplKey::Delete => {
            draft.esc_pending = false;
            if delete_char_at_cursor(draft) {
                draft.status = None;
            }
            ReplStep::Stay
        },
        ReplKey::Left => {
            draft.esc_pending = false;
            move_cursor_left(draft);
            ReplStep::Stay
        },
        ReplKey::Right => {
            draft.esc_pending = false;
            move_cursor_right(draft);
            ReplStep::Stay
        },
        ReplKey::Home => {
            draft.esc_pending = false;
            move_cursor_line_start(draft);
            ReplStep::Stay
        },
        ReplKey::End => {
            draft.esc_pending = false;
            move_cursor_line_end(draft);
            ReplStep::Stay
        },
        ReplKey::Esc => {
            press_escape(draft);
            ReplStep::Stay
        },
        ReplKey::Other => ReplStep::Stay,
    }
}

/// The images of a draft change only when one is attached or when there is nothing else left to
/// delete: no other key loses an image.
pub proof fn law_keys_keep_images(d: DraftView, popup: Option<PopupView>, key: ReplKey, m: KeyMods)
    requires
        !(key is Backspace) || d.cursor > 0 || d.mode is Some || d.pastes.len() > 0,
    ensures
        key_step(d, popup, key, m).0.images == d.images,
{
}

// ---------------------------------------------------------------------------
// Events
// ---------------------------------------------------------------------------

/// What the terminal reports.
#[derive(Debug)]
pub enum ReplEvent {
    Paste(String),
    WheelUp,
    WheelDown,
    /// Any other movement of the mouse.
    Mouse,
    Key(ReplKey, KeyMods),
    /// A change of size, a released key and the like.
    Other,
}

/// What an event does to the draft, and what has to be done after it.
pub open spec fn event_step(d: DraftView, popup: Option<PopupView>, e: ReplEvent) -> (
    DraftView,
    StepView,
) {
    match e {
        ReplEvent::Paste(t) => (pasted(calm(d), t@), StepView::Stay),
        ReplEvent::WheelUp => (calm(d), StepView::ScrollUp(false)),
        ReplEvent::WheelDown => (calm(d), StepView::ScrollDown(false)),
        ReplEvent::Mouse => (calm(d), StepView::Stay),
        ReplEvent::Key(k, m) => key_step(d, popup, k, m),
        ReplEvent::Other => (d, StepView::Stay),
    }
}

/// Handles an event.
pub fn handle_repl_event(
    draft: &mut ReplEditorDraft,
    popup_model: Option<&ReplPopupModel>,
    event: ReplEvent,
) -> (r: ReplStep)
    requires
        old(draft)@.wf(),
    ensures
        (final(draft)@, r@) == event_step(old(draft)@, opt_popup(popup_model), event),
        final(draft)@.wf(),
{
    match event {
        ReplEvent::Paste(text) => {
            draft.esc_pending = false;
            handle_pasted_text(draft, text);
            ReplStep::Stay
        },
        ReplEvent::WheelUp => {
            draft.esc_pending = false;
            ReplStep::ScrollUp(false)
        },
        ReplEvent::WheelDown => {
            draft.esc_pending = false;
            ReplStep::ScrollDown(false)
        },
        ReplEvent::Mouse => {
            draft.esc_pending = false;
            ReplStep::Stay
        },
        ReplEvent::Key(k, m) => handle_repl_key(draft, popup_model, k, m),
        ReplEvent::Other => ReplStep::Stay,
    }
}

/// Whether an event takes a passing message off the screen.
pub fn event_ends_message(event: &ReplEvent) -> (r: bool)
    ensures
        r == !(event is Other),
{
    match event {
        ReplEvent::Other => false,
        _ => true,
    }
}

/// The draft after the clipboard was asked for a text.
pub fn paste_clipboard_text(draft: &mut ReplEditorDraft, text: AppResult<String>)
    requires
        old(draft)@.wf(),
    ensures
        final(draft)@ == match text {
            Ok(t) => pasted(old(draft)@, t@),
            Err(e) => with_status(old(draft)@, e.message@),
        },
        final(draft)@.wf(),
{
    match text {
        Ok(t) => handle_pasted_text(draft, t),
        Err(e) => {
            draft.status = Some(e.message);
        },
    }
}

/// The draft after the clipboard was asked for an image.
pub fn attach_clipboard_image(draft: &mut ReplEditorDraft, image: AppResult<MessageImage>)
    requires
        old(draft)@.wf(),
    ensures
        final(draft)@ == match image {
            Ok(i) => (DraftView {
                images: old(draft)@.images.push(i@),
                status: None,
                ..old(draft)@
            }),
            Err(e) => with_status(old(draft)@, e.message@),
        },
        final(draft)@.wf(),
{
    match image {
        Ok(i) => {
            proof {
                lemma_images_push(draft.images@, i);
            }
            draft.images.push(i);
            draft.status = None;
        },
        Err(e) => {
            draft.status = Some(e.message);
        },
    }
}

/// Pasting never loses what was written or attached before.
pub proof fn law_paste_keeps_all(d: DraftView, t: Seq<char>)
    requires
        d.wf(),
    ensures
        pasted(d, t).images == d.images,
        is_long(t) ==> pasted(d, t).buffer == d.buffer && pasted(d, t).pastes.drop_last()
            == d.pastes,
        !is_long(t) ==> pasted(d, t).pastes == d.pastes && pasted(d, t).buffer == before_at(
            d.buffer,
            d.cursor,
        ) + t + after_at(d.buffer, d.cursor),
{
    if is_long(t) {
        assert(pasted(d, t).pastes.drop_last() =~= d.pastes);
    }
}

} // verus!
