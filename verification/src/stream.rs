//! Rendering of an answer while it streams in: complete lines are rendered as they arrive,
//! and `<think>` blocks are shown dim and may be collapsed.

use crate::ansi::{BOLD, BRIGHT_WHITE, CLEAR_LINE, CURSOR_UP, DIM, RESET, WHITE};
use crate::render::{
    RULE_WIDTH, code_line, document_from, fence, fence_label, fence_lang, fence_lang_of,
    horizontal_rule, is_fence, is_horizontal_rule, law_no_thinking_without_tag, message_text,
    render_code_block_line_with_lang, render_fence_label, render_single_markdown_line,
    render_table, rule_string, rule_text, single_line, skip_newline, sticky, sticky_style,
    table_text, without_newline,
};
use crate::text::{
    chars_of, clone_opt, contains_text, ends_with_spec, find_text, has_char, is_at, is_space,
    lemma_find_from, lemma_split_by_len, lemma_split_concat, lemma_split_none,
    lemma_split_once_len, lemma_take_full, lemma_take_step, lemma_texts_push, lines, lines_of,
    matches_at, only, opt_text, repeat, repeat_str, split_by, split_char, split_on, split_once,
    split_once_spec, substring, texts, trim, trimmed, trimmed_end, trimmed_start, without_cr,
};
use vstd::prelude::*;
use vstd::string::*;

verus! {

// ---------------------------------------------------------------------------
// Line by line
// ---------------------------------------------------------------------------

/// A renderer that is given one line at a time.
pub struct LineRenderer {
    in_code_block: bool,
    code_block_lang: String,
    table_buffer: Vec<String>,
    in_table: bool,
}

/// What a line renderer has to remember.
pub struct LineView {
    pub in_code: bool,
    pub lang: Seq<char>,
    pub table: Seq<Seq<char>>,
    pub in_table: bool,
}

impl View for LineRenderer {
    type V = LineView;

    closed spec fn view(&self) -> LineView {
        LineView {
            in_code: self.in_code_block,
            lang: self.code_block_lang@,
            table: texts(self.table_buffer@),
            in_table: self.in_table,
        }
    }
}

pub open spec fn fresh_lines() -> LineView {
    LineView { in_code: false, lang: Seq::empty(), table: Seq::empty(), in_table: false }
}

/// A line outside of code and tables.
pub open spec fn plain_line(line: Seq<char>) -> Seq<char> {
    if horizontal_rule(line) {
        rule_text(RULE_WIDTH as nat) + "\n"@
    } else {
        single_line(line) + "\n"@
    }
}

/// What comes out when the table in work ends.
pub open spec fn line_flush(st: LineView) -> (LineView, Seq<char>) {
    if st.in_table {
        (LineView { in_table: false, table: Seq::empty(), ..st }, table_text(st.table))
    } else {
        (st, Seq::empty())
    }
}

/// What comes out for the next line: lines of a table are held back until it ends.
pub open spec fn line_step(st: LineView, line: Seq<char>) -> (LineView, Seq<char>) {
    if fence(line) {
        if st.in_code {
            (LineView { in_code: false, lang: Seq::empty(), ..st }, Seq::empty())
        } else {
            (
                LineView { in_code: true, lang: fence_lang(line), ..st },
                fence_label(fence_lang(line)),
            )
        }
    } else if st.in_code {
        (st, code_line(line, st.lang))
    } else if line.contains('|') {
        (LineView { in_table: true, table: st.table.push(line), ..st }, Seq::empty())
    } else {
        (line_flush(st).0, line_flush(st).1 + plain_line(line))
    }
}

impl LineRenderer {
    pub fn new() -> (r: LineRenderer)
        ensures
            r@ == fresh_lines(),
    {
        let r = LineRenderer {
            in_code_block: false,
            code_block_lang: String::new(),
            table_buffer: Vec::new(),
            in_table: false,
        };
        proof {
            assert(texts(r.table_buffer@) =~= Seq::<Seq<char>>::empty());
        }
        r
    }

    pub fn render_single_line(&self, line: &str) -> (r: String)
        ensures
            r@ == plain_line(line@),
    {
        if is_horizontal_rule(line) {
            return rule_string(RULE_WIDTH).concat("\n");
        }
        render_single_markdown_line(line).concat("\n")
    }

    pub fn flush(&mut self) -> (r: String)
        ensures
            (final(self)@, r@) == line_flush(old(self)@),
    {
        if !self.in_table {
            return String::new();
        }
        self.in_table = false;
        let r = render_table(self.table_buffer.as_slice());
        self.table_buffer = Vec::new();
        proof {
            assert(texts(self.table_buffer@) =~= Seq::<Seq<char>>::empty());
        }
        r
    }

    pub fn process_line(&mut self, line: &str) -> (r: String)
        ensures
            (final(self)@, r@) == line_step(old(self)@, line@),
    {
        if is_fence(line) {
            if self.in_code_block {
                self.in_code_block = false;
                self.code_block_lang = String::new();
                return String::new();
            }
            self.in_code_block = true;
            self.code_block_lang = fence_lang_of(line);
            return render_fence_label(self.code_block_lang.as_str());
        }
        if self.in_code_block {
            return render_code_block_line_with_lang(line, self.code_block_lang.as_str());
        }
        if has_char(line, '|') {
            self.in_table = true;
            let owned = line.to_owned();
            proof {
                lemma_texts_push(self.table_buffer@, owned);
            }
            self.table_buffer.push(owned);
            return String::new();
        }
        let out = self.flush();
        let shown = self.render_single_line(line);
        out.concat(shown.as_str())
    }
}

// ---------------------------------------------------------------------------
// Phases
// ---------------------------------------------------------------------------

#[derive(Debug, Clone, Copy, PartialEq, Eq, Structural)]
pub enum StreamPhase {
    Waiting,
    Thinking,
    Answering,
}

pub open spec fn phase_label(p: StreamPhase) -> Seq<char> {
    match p {
        StreamPhase::Waiting => "waiting"@,
        StreamPhase::Thinking => "thinking"@,
        StreamPhase::Answering => "answering"@,
    }
}

impl StreamPhase {
    pub fn label(self) -> (r: &'static str)
        ensures
            r@ == phase_label(self),
    {
        match self {
            Self::Waiting => "waiting",
            Self::Thinking => "thinking",
            Self::Answering => "answering",
        }
    }
}

/// The first `i` characters of a label, the one at `lead` bright, the one at `trail` white
/// and the others dim.
pub open spec fn animated_from(label: Seq<char>, lead: int, trail: int, i: int) -> Seq<char>
    decreases i,
{
    if i <= 0 {
        Seq::empty()
    } else {
        let style = if i - 1 == lead {
            BRIGHT_WHITE@ + BOLD@
        } else if i - 1 == trail {
            WHITE@
        } else {
            DIM@
        };
        animated_from(label, lead, trail, i - 1) + style + seq![label[i - 1]] + RESET@
    }
}

/// The label of a phase at an animation step: the highlight moves one character a step.
pub open spec fn animated_label(p: StreamPhase, tick: nat) -> Seq<char> {
    let label = phase_label(p);
    let lead = (tick % label.len()) as int;
    let trail = if lead == 0 {
        label.len() - 1
    } else {
        lead - 1
    };
    animated_from(label, lead, trail, label.len() as int)
}

pub fn animated_phase_label(phase: StreamPhase, tick: usize) -> (r: String)
    ensures
        r@ == animated_label(phase, tick as nat),
{
    proof {
        reveal_strlit("waiting");
        reveal_strlit("thinking");
        reveal_strlit("answering");
    }
    let label = phase.label();
    let c = chars_of(label);
    let n: usize = c.len();
    let lead: usize = tick % n;
    let trail: usize = if lead == 0 {
        n - 1
    } else {
        lead - 1
    };
    let mut out = String::new();
    let mut i: usize = 0;
    while i < n
        invariant
            i <= n,
            n == c@.len(),
            out@ == animated_from(c@, lead as int, trail as int, i as int),
        decreases n - i,
    {
        let one = substring(c.as_slice(), i, i + 1);
        let style = if i == lead {
            BRIGHT_WHITE.to_owned().concat(BOLD)
        } else if i == trail {
            WHITE.to_owned()
        } else {
            DIM.to_owned()
        };
        proof {
            assert(one@ =~= seq![c@[i as int]]);
        }
        out.append(style.as_str());
        out.append(one.as_str());
        out.append(RESET);
        i = i + 1;
    }
    out
}

// ---------------------------------------------------------------------------
// The stream
// ---------------------------------------------------------------------------

/// Streaming-friendly markdown renderer with thinking tag support.
pub struct StreamRenderer {
    buffer: String,
    normal_renderer: LineRenderer,
    thinking_renderer: LineRenderer,
    in_thinking: bool,
    thinking_content: String,
    thinking_lines_shown: usize,
    collapse_thinking: bool,
    phase_transitions: Vec<StreamPhase>,
    current_phase: Option<StreamPhase>,
    tag_buffer: String,
    finished_thinking: Option<String>,
}

/// What a stream renderer has to remember.
pub struct StreamView {
    /// The line in work.
    pub buffer: Seq<char>,
    pub normal: LineView,
    pub thinking: LineView,
    pub in_thinking: bool,
    /// What was thought in the open block.
    pub thought: Seq<char>,
    /// How many lines of the open block were shown.
    pub shown_lines: nat,
    pub collapse: bool,
    /// The phase changes that were not taken yet.
    pub phases: Seq<StreamPhase>,
    pub phase: Option<StreamPhase>,
    /// Text in which a tag was not looked for, or whose end may be the start of one.
    pub tag: Seq<char>,
    /// What was thought in the last block that was closed and not taken yet.
    pub finished: Option<Seq<char>>,
}

impl View for StreamRenderer {
    type V = StreamView;

    closed spec fn view(&self) -> StreamView {
        StreamView {
            buffer: self.buffer@,
            normal: self.normal_renderer@,
            thinking: self.thinking_renderer@,
            in_thinking: self.in_thinking,
            thought: self.thinking_content@,
            shown_lines: self.thinking_lines_shown as nat,
            collapse: self.collapse_thinking,
            phases: self.phase_transitions@,
            phase: self.current_phase,
            tag: self.tag_buffer@,
            finished: opt_text(self.finished_thinking),
        }
    }
}

/// A renderer that was given nothing.
pub open spec fn fresh_stream(collapse: bool) -> StreamView {
    StreamView {
        buffer: Seq::empty(),
        normal: fresh_lines(),
        thinking: fresh_lines(),
        in_thinking: false,
        thought: Seq::empty(),
        shown_lines: 0,
        collapse,
        phases: Seq::empty(),
        phase: None,
        tag: Seq::empty(),
        finished: None,
    }
}

pub open spec fn sat_add(a: nat, b: nat) -> nat {
    if a + b > usize::MAX {
        usize::MAX as nat
    } else {
        a + b
    }
}

/// A phase is noted unless it is the current one.
pub open spec fn note(st: StreamView, p: StreamPhase) -> StreamView {
    if st.phase == Some(p) {
        st
    } else {
        StreamView { phases: st.phases.push(p), phase: Some(p), ..st }
    }
}

/// Rendered thinking is shown dim, and its lines are counted.
pub open spec fn show_thinking(st: StreamView, rendered: Seq<char>) -> (StreamView, Seq<char>) {
    if rendered.len() == 0 {
        (st, Seq::empty())
    } else {
        (
            StreamView { shown_lines: sat_add(st.shown_lines, lines(rendered).len()), ..st },
            sticky(DIM@, rendered),
        )
    }
}

pub open spec fn think_line(st: StreamView, line: Seq<char>) -> (StreamView, Seq<char>) {
    let (lr, rendered) = line_step(st.thinking, line);
    show_thinking(StreamView { thinking: lr, ..st }, rendered)
}

pub open spec fn think_lines(st: StreamView, pieces: Seq<Seq<char>>) -> (StreamView, Seq<char>)
    decreases pieces.len(),
{
    if pieces.len() == 0 {
        (st, Seq::empty())
    } else {
        let (mid, out) = think_lines(st, pieces.drop_last());
        let (end, more) = think_line(
            StreamView { thought: mid.thought + pieces.last() + "\n"@, ..mid },
            pieces.last(),
        );
        (end, out + more)
    }
}

pub open spec fn answer_line(st: StreamView, line: Seq<char>) -> (StreamView, Seq<char>) {
    let (lr, rendered) = line_step(st.normal, line);
    let next = StreamView { normal: lr, ..st };
    (
        if rendered.len() == 0 {
            next
        } else {
            note(next, StreamPhase::Answering)
        },
        rendered,
    )
}

pub open spec fn answer_lines(st: StreamView, pieces: Seq<Seq<char>>) -> (StreamView, Seq<char>)
    decreases pieces.len(),
{
    if pieces.len() == 0 {
        (st, Seq::empty())
    } else {
        let (mid, out) = answer_lines(st, pieces.drop_last());
        let (end, more) = answer_line(mid, pieces.last());
        (end, out + more)
    }
}

/// The complete lines of the buffer are rendered; what follows the last newline stays.
pub open spec fn drain(st: StreamView) -> (StreamView, Seq<char>) {
    let pieces = split_on(st.buffer, '\n');
    let rest = StreamView { buffer: pieces.last(), ..st };
    if st.in_thinking {
        think_lines(rest, pieces.drop_last())
    } else {
        answer_lines(rest, pieces.drop_last())
    }
}

/// The unfinished line of a thinking block is rendered.
pub open spec fn finish_thinking_line(st: StreamView) -> (StreamView, Seq<char>) {
    if st.buffer.len() == 0 {
        (st, Seq::empty())
    } else {
        think_line(
            StreamView { buffer: Seq::empty(), thought: st.thought + st.buffer, ..st },
            st.buffer,
        )
    }
}

/// The end of a thinking block: its lines are erased, or its last table is shown.
pub open spec fn close_thinking(st: StreamView) -> (StreamView, Seq<char>) {
    let (flushed, out) = if st.collapse {
        (st, repeat(CURSOR_UP@ + CLEAR_LINE@, st.shown_lines))
    } else {
        let (lr, rendered) = line_flush(st.thinking);
        show_thinking(StreamView { thinking: lr, ..st }, rendered)
    };
    (
        note(
            StreamView {
                finished: Some(trimmed(flushed.thought)),
                in_thinking: false,
                shown_lines: 0,
                thinking: fresh_lines(),
                ..flushed
            },
            StreamPhase::Answering,
        ),
        out,
    )
}

pub open spec fn open_thinking(st: StreamView) -> StreamView {
    note(
        StreamView {
            in_thinking: true,
            thought: Seq::empty(),
            shown_lines: 0,
            thinking: fresh_lines(),
            ..st
        },
        StreamPhase::Thinking,
    )
}

/// The length of the longest end of `text` that is a start of `tag`, among those of at most
/// `n` characters.
pub open spec fn partial_tag(text: Seq<char>, tag: Seq<char>, n: int) -> int
    decreases n,
{
    if n <= 0 {
        0
    } else if ends_with_spec(text, tag.take(n)) {
        n
    } else {
        partial_tag(text, tag, n - 1)
    }
}

pub open spec fn answering_if(st: StreamView, some: bool) -> StreamView {
    if some {
        note(st, StreamPhase::Answering)
    } else {
        st
    }
}

/// The tag that is looked for.
pub open spec fn awaited_tag(st: StreamView) -> Seq<char> {
    if st.in_thinking {
        "</think>"@
    } else {
        "<think>"@
    }
}

/// The text before a tag, or before what may become one, is rendered as far as its lines are
/// complete.
pub open spec fn feed(st: StreamView, part: Seq<char>, rest: Seq<char>) -> (StreamView, Seq<char>) {
    let noted = answering_if(st, !st.in_thinking && part.len() > 0);
    drain(StreamView { buffer: st.buffer + part, tag: rest, ..noted })
}

/// What happens at a tag.
pub open spec fn at_tag(st: StreamView) -> (StreamView, Seq<char>) {
    let (end, out) = if st.in_thinking {
        let (mid, line) = finish_thinking_line(st);
        let (closed, last) = close_thinking(mid);
        (closed, line + last)
    } else {
        (open_thinking(st), Seq::empty())
    };
    (StreamView { tag: without_newline(end.tag), ..end }, out)
}

/// Everything that was given is taken in, tag by tag.
pub open spec fn advance(st: StreamView) -> (StreamView, Seq<char>)
    decreases st.tag.len() via advance_decreases
{
    match split_once_spec(st.tag, awaited_tag(st)) {
        Some((part, rest)) => {
            let (fed, out1) = feed(st, part, rest);
            let (next, out2) = at_tag(fed);
            let (end, out3) = advance(next);
            (end, out1 + out2 + out3)
        },
        None => {
            let keep = partial_tag(st.tag, awaited_tag(st), awaited_tag(st).len() - 1);
            feed(st, st.tag.take(st.tag.len() - keep), st.tag.skip(st.tag.len() - keep))
        },
    }
}

proof fn lemma_lines_keep_tag(st: StreamView, pieces: Seq<Seq<char>>)
    ensures
        think_lines(st, pieces).0.tag == st.tag,
        think_lines(st, pieces).0.in_thinking == st.in_thinking,
        answer_lines(st, pieces).0.tag == st.tag,
        answer_lines(st, pieces).0.in_thinking == st.in_thinking,
    decreases pieces.len(),
{
    if pieces.len() > 0 {
        lemma_lines_keep_tag(st, pieces.drop_last());
    }
}

proof fn lemma_advance_shrinks(st: StreamView)
    ensures
        split_once_spec(st.tag, awaited_tag(st)) matches Some((part, rest)) ==> at_tag(
            feed(st, part, rest).0,
        ).0.tag.len() < st.tag.len(),
{
    reveal_strlit("</think>");
    reveal_strlit("<think>");
    lemma_split_once_len(st.tag, awaited_tag(st));
    if let Some((part, rest)) = split_once_spec(st.tag, awaited_tag(st)) {
        let noted = answering_if(st, !st.in_thinking && part.len() > 0);
        let full = StreamView { buffer: st.buffer + part, tag: rest, ..noted };
        let pieces = split_on(full.buffer, '\n');
        lemma_lines_keep_tag(
            StreamView { buffer: pieces.last(), ..full },
            pieces.drop_last(),
        );
    }
}

#[via_fn]
proof fn advance_decreases(st: StreamView) {
    lemma_advance_shrinks(st);
}

/// The effect of giving a renderer more text.
pub open spec fn pushed(st: StreamView, delta: Seq<char>) -> (StreamView, Seq<char>) {
    advance(StreamView { tag: st.tag + delta, ..st })
}

/// The rest of the answer: an unfinished block is closed, then the table and the line in work
/// are rendered.
pub open spec fn flushed(st: StreamView) -> (StreamView, Seq<char>) {
    let st0 = StreamView { buffer: st.buffer + st.tag, tag: Seq::empty(), ..st };
    let (st1, out1) = if st0.in_thinking {
        let (mid, line) = finish_thinking_line(st0);
        let (closed, last) = close_thinking(mid);
        (closed, line + last)
    } else {
        (st0, Seq::empty())
    };
    let (lr, table) = line_flush(st1.normal);
    let st2 = answering_if(StreamView { normal: lr, ..st1 }, table.len() > 0);
    let out2 = out1 + table;
    if st2.buffer.len() == 0 {
        (st2, out2)
    } else {
        (
            note(StreamView { buffer: Seq::empty(), ..st2 }, StreamPhase::Answering),
            out2 + plain_line(st2.buffer),
        )
    }
}

pub fn could_be_partial_tag(text: &str, tag: &str) -> (r: usize)
    ensures
        tag@.len() > 0 ==> r == partial_tag(text@, tag@, tag@.len() - 1),
        tag@.len() == 0 ==> r == 0,
        r <= text@.len(),
{
    let t = chars_of(tag);
    let c = chars_of(text);
    if t.len() == 0 {
        return 0;
    }
    let mut n: usize = t.len() - 1;
    while n > 0
        invariant
            n < t@.len(),
            t@ == tag@,
            c@ == text@,
            partial_tag(text@, tag@, tag@.len() - 1) == partial_tag(text@, tag@, n as int),
        decreases n,
    {
        let start = vstd::slice::slice_subrange(t.as_slice(), 0, n);
        proof {
            assert(start@ =~= tag@.take(n as int));
        }
        if n <= c.len() && is_at(c.as_slice(), start, c.len() - n) {
            return n;
        }
        n = n - 1;
    }
    0
}

impl StreamRenderer {
    pub fn new(collapse_thinking: bool) -> (r: StreamRenderer)
        ensures
            r@ == fresh_stream(collapse_thinking),
    {
        StreamRenderer {
            buffer: String::new(),
            normal_renderer: LineRenderer::new(),
            thinking_renderer: LineRenderer::new(),
            in_thinking: false,
            thinking_content: String::new(),
            thinking_lines_shown: 0,
            collapse_thinking,
            phase_transitions: Vec::new(),
            current_phase: None,
            tag_buffer: String::new(),
            finished_thinking: None,
        }
    }

    fn note_phase(&mut self, phase: StreamPhase)
        ensures
            final(self)@ == note(old(self)@, phase),
    {
        let same = match self.current_phase {
            Some(p) => p == phase,
            None => false,
        };
        if !same {
            self.phase_transitions.push(phase);
            self.current_phase = Some(phase);
        }
    }

    fn push_thinking_rendered(&mut self, rendered: &str) -> (r: String)
        ensures
            (final(self)@, r@) == show_thinking(old(self)@, rendered@),
    {
        if rendered.is_empty() {
            return String::new();
        }
        let count: usize = lines_of(rendered).len();
        self.thinking_lines_shown = self.thinking_lines_shown.saturating_add(count);
        sticky_style(DIM, rendered)
    }

    fn push_thinking_line(&mut self, line: &str) -> (r: String)
        ensures
            (final(self)@, r@) == think_line(old(self)@, line@),
    {
        let rendered = self.thinking_renderer.process_line(line);
        self.push_thinking_rendered(rendered.as_str())
    }

    fn push_answer_line(&mut self, line: &str) -> (r: String)
        ensures
            (final(self)@, r@) == answer_line(old(self)@, line@),
    {
        let rendered = self.normal_renderer.process_line(line);
        if !rendered.as_str().is_empty() {
            self.note_phase(StreamPhase::Answering);
        }
        rendered
    }

    /// Renders the complete lines of the buffer.
    fn drain_lines(&mut self) -> (r: String)
        ensures
            (final(self)@, r@) == drain(old(self)@),
    {
        let pieces = split_char(self.buffer.as_str(), '\n');
        let ghost all = texts(pieces@);
        let ghost done = all.drop_last();
        let last: usize = pieces.len() - 1;
        self.buffer = pieces[last].clone();
        let ghost start = self@;
        let mut out = String::new();
        let mut i: usize = 0;
        proof {
            assert(done.take(0) =~= Seq::<Seq<char>>::empty());
        }
        if self.in_thinking {
            while i < last
                invariant
                    i <= last,
                    last == pieces@.len() - 1,
                    all == texts(pieces@),
                    done == all.drop_last(),
                    (self@, out@) == think_lines(start, done.take(i as int)),
                decreases last - i,
            {
                proof {
                    lemma_take_step(done, i as int);
                }
                self.thinking_content.append(pieces[i].as_str());
                self.thinking_content.append("\n");
                let more = self.push_thinking_line(pieces[i].as_str());
                out.append(more.as_str());
                i = i + 1;
            }
        } else {
            while i < last
                invariant
                    i <= last,
                    last == pieces@.len() - 1,
                    all == texts(pieces@),
                    done == all.drop_last(),
                    (self@, out@) == answer_lines(start, done.take(i as int)),
                decreases last - i,
            {
                proof {
                    lemma_take_step(done, i as int);
                }
                let more = self.push_answer_line(pieces[i].as_str());
                out.append(more.as_str());
                i = i + 1;
            }
        }
        proof {
            lemma_take_full(done);
        }
        out
    }

    fn feed_part(&mut self, part: &str, rest: String) -> (r: String)
        ensures
            (final(self)@, r@) == feed(old(self)@, part@, rest@),
    {
        if !self.in_thinking && !part.is_empty() {
            self.note_phase(StreamPhase::Answering);
        }
        self.buffer.append(part);
        self.tag_buffer = rest;
        self.drain_lines()
    }

    fn finish_line(&mut self) -> (r: String)
        ensures
            (final(self)@, r@) == finish_thinking_line(old(self)@),
    {
        if self.buffer.as_str().is_empty() {
            return String::new();
        }
        let partial = self.buffer.clone();
        self.buffer = String::new();
        self.thinking_content.append(partial.as_str());
        self.push_thinking_line(partial.as_str())
    }

    fn close_block(&mut self) -> (r: String)
        ensures
            (final(self)@, r@) == close_thinking(old(self)@),
    {
        let out = if self.collapse_thinking {
            let erase = CURSOR_UP.to_owned().concat(CLEAR_LINE);
            repeat_str(erase.as_str(), self.thinking_lines_shown)
        } else {
            let rendered = self.thinking_renderer.flush();
            self.push_thinking_rendered(rendered.as_str())
        };
        self.finished_thinking = Some(trim(self.thinking_content.as_str()));
        self.in_thinking = false;
        self.thinking_lines_shown = 0;
        self.thinking_renderer = LineRenderer::new();
        self.note_phase(StreamPhase::Answering);
        out
    }

    fn cross_tag(&mut self) -> (r: String)
        ensures
            (final(self)@, r@) == at_tag(old(self)@),
    {
        let out = if self.in_thinking {
            let line = self.finish_line();
            let last = self.close_block();
            line.concat(last.as_str())
        } else {
            self.in_thinking = true;
            self.thinking_content = String::new();
            self.thinking_lines_shown = 0;
            self.thinking_renderer = LineRenderer::new();
            self.note_phase(StreamPhase::Thinking);
            String::new()
        };
        let tag = self.tag_buffer.clone();
        self.tag_buffer = skip_newline(tag);
        out
    }

    /// Push a text delta, returns rendered output.
    pub fn push(&mut self, delta: &str) -> (r: String)
        ensures
            (final(self)@, r@) == pushed(old(self)@, delta@),
    {
        self.tag_buffer.append(delta);
        let ghost goal = advance(self@);
        let mut output = String::new();
        proof {
            assert(output@ + goal.1 =~= goal.1);
        }
        loop
            invariant
                advance(self@).0 == goal.0,
                output@ + advance(self@).1 == goal.1,
                goal == pushed(old(self)@, delta@),
            decreases self@.tag.len(),
        {
            let tag = if self.in_thinking {
                "</think>"
            } else {
                "<think>"
            };
            proof {
                lemma_advance_shrinks(self@);
                reveal_strlit("</think>");
                reveal_strlit("<think>");
            }
            let ghost before = output@;
            match split_once(self.tag_buffer.as_str(), tag) {
                Some((part, rest)) => {
                    let out1 = self.feed_part(part.as_str(), rest);
                    let out2 = self.cross_tag();
                    output.append(out1.as_str());
                    output.append(out2.as_str());
                    proof {
                        let tail = advance(self@).1;
                        assert(before + (out1@ + out2@ + tail) =~= before + out1@ + out2@ + tail);
                    }
                },
                None => {
                    let keep: usize = could_be_partial_tag(self.tag_buffer.as_str(), tag);
                    let c = chars_of(self.tag_buffer.as_str());
                    let safe_end: usize = c.len() - keep;
                    let safe = substring(c.as_slice(), 0, safe_end);
                    let rest = substring(c.as_slice(), safe_end, c.len());
                    proof {
                        assert(safe@ =~= self@.tag.take(safe_end as int));
                        assert(rest@ =~= self@.tag.skip(safe_end as int));
                    }
                    let out1 = self.feed_part(safe.as_str(), rest);
                    output.append(out1.as_str());
                    return output;
                },
            }
        }
    }

    /// Flush remaining buffer content.
    pub fn flush(&mut self) -> (r: String)
        ensures
            (final(self)@, r@) == flushed(old(self)@),
    {
        let tag = self.tag_buffer.clone();
        self.buffer.append(tag.as_str());
        self.tag_buffer = String::new();
        let mut output = String::new();
        if self.in_thinking {
            let line = self.finish_line();
            let last = self.close_block();
            output = line.concat(last.as_str());
        }
        let table = self.normal_renderer.flush();
        if !table.as_str().is_empty() {
            self.note_phase(StreamPhase::Answering);
        }
        output.append(table.as_str());
        if !self.buffer.as_str().is_empty() {
            let remaining = self.buffer.clone();
            self.buffer = String::new();
            let rendered = self.normal_renderer.render_single_line(remaining.as_str());
            self.note_phase(StreamPhase::Answering);
            output.append(rendered.as_str());
        }
        output
    }

    /// Takes the phase changes since the last call.
    pub fn drain_phase_transitions(&mut self) -> (r: Vec<StreamPhase>)
        ensures
            r@ == old(self)@.phases,
            final(self)@ == (StreamView { phases: Seq::empty(), ..old(self)@ }),
    {
        let mut out: Vec<StreamPhase> = Vec::new();
        std::mem::swap(&mut out, &mut self.phase_transitions);
        out
    }

    /// Takes what was thought in the last block that was closed since the last call.
    pub fn take_finished_thinking(&mut self) -> (r: Option<String>)
        ensures
            opt_text(r) == old(self)@.finished,
            final(self)@ == (StreamView { finished: None, ..old(self)@ }),
    {
        let r = clone_opt(&self.finished_thinking);
        self.finished_thinking = None;
        r
    }
}

// ---------------------------------------------------------------------------
// Laws
// ---------------------------------------------------------------------------

/// The phase changes since a phase: each differs from the one before it, the last one is the
/// current phase, and none is the wait for an answer.
pub open spec fn phases_since(st: StreamView, start: Option<StreamPhase>) -> bool {
    &&& !st.phases.contains(StreamPhase::Waiting)
    &&& st.phases.len() == 0 ==> st.phase == start
    &&& st.phases.len() > 0 ==> Some(st.phases[0]) != start && st.phase == Some(st.phases.last())
    &&& forall|i: int| 0 < i < st.phases.len() ==> #[trigger] st.phases[i] != st.phases[i - 1]
}

proof fn lemma_note_phases(st: StreamView, p: StreamPhase, start: Option<StreamPhase>)
    requires
        phases_since(st, start),
        p != StreamPhase::Waiting,
    ensures
        phases_since(note(st, p), start),
{
    let v = st.phases.push(p);
    if v.contains(StreamPhase::Waiting) {
        let k = choose|k: int| 0 <= k < v.len() && v[k] == StreamPhase::Waiting;
        assert(k < st.phases.len());
        assert(st.phases[k] == StreamPhase::Waiting);
    }
}

proof fn lemma_close_phases(st: StreamView, start: Option<StreamPhase>)
    requires
        phases_since(st, start),
    ensures
        phases_since(close_thinking(finish_thinking_line(st).0).0, start),
{
    let mid = finish_thinking_line(st).0;
    let flushed = if mid.collapse {
        mid
    } else {
        let (lr, rendered) = line_flush(mid.thinking);
        show_thinking(StreamView { thinking: lr, ..mid }, rendered).0
    };
    lemma_note_phases(
        StreamView {
            finished: Some(trimmed(flushed.thought)),
            in_thinking: false,
            shown_lines: 0,
            thinking: fresh_lines(),
            ..flushed
        },
        StreamPhase::Answering,
        start,
    );
}

proof fn lemma_at_tag_phases(st: StreamView, start: Option<StreamPhase>)
    requires
        phases_since(st, start),
    ensures
        phases_since(at_tag(st).0, start),
{
    if st.in_thinking {
        lemma_close_phases(st, start);
    } else {
        lemma_note_phases(
            StreamView {
                in_thinking: true,
                thought: Seq::empty(),
                shown_lines: 0,
                thinking: fresh_lines(),
                ..st
            },
            StreamPhase::Thinking,
            start,
        );
    }
}

proof fn lemma_flush_phases(st: StreamView, start: Option<StreamPhase>)
    requires
        phases_since(st, start),
    ensures
        phases_since(flushed(st).0, start),
{
    let st0 = StreamView { buffer: st.buffer + st.tag, tag: Seq::empty(), ..st };
    lemma_close_phases(st0, start);
    let st1 = if st0.in_thinking {
        close_thinking(finish_thinking_line(st0).0).0
    } else {
        st0
    };
    let (lr, table) = line_flush(st1.normal);
    lemma_note_phases(StreamView { normal: lr, ..st1 }, StreamPhase::Answering, start);
    let st2 = answering_if(StreamView { normal: lr, ..st1 }, table.len() > 0);
    lemma_note_phases(
        StreamView { buffer: Seq::empty(), ..st2 },
        StreamPhase::Answering,
        start,
    );
}

proof fn lemma_lines_phases(st: StreamView, pieces: Seq<Seq<char>>, start: Option<StreamPhase>)
    requires
        phases_since(st, start),
    ensures
        phases_since(think_lines(st, pieces).0, start),
        phases_since(answer_lines(st, pieces).0, start),
    decreases pieces.len(),
{
    if pieces.len() > 0 {
        lemma_lines_phases(st, pieces.drop_last(), start);
        let mid = answer_lines(st, pieces.drop_last()).0;
        lemma_note_phases(
            StreamView { normal: line_step(mid.normal, pieces.last()).0, ..mid },
            StreamPhase::Answering,
            start,
        );
    }
}

proof fn lemma_feed_phases(
    st: StreamView,
    part: Seq<char>,
    rest: Seq<char>,
    start: Option<StreamPhase>,
)
    requires
        phases_since(st, start),
    ensures
        phases_since(feed(st, part, rest).0, start),
{
    lemma_note_phases(st, StreamPhase::Answering, start);
    let noted = answering_if(st, !st.in_thinking && part.len() > 0);
    let full = StreamView { buffer: st.buffer + part, tag: rest, ..noted };
    let pieces = split_on(full.buffer, '\n');
    lemma_lines_phases(
        StreamView { buffer: pieces.last(), ..full },
        pieces.drop_last(),
        start,
    );
}

proof fn lemma_advance_phases(st: StreamView, start: Option<StreamPhase>)
    requires
        phases_since(st, start),
    ensures
        phases_since(advance(st).0, start),
    decreases st.tag.len(),
{
    lemma_advance_shrinks(st);
    match split_once_spec(st.tag, awaited_tag(st)) {
        Some((part, rest)) => {
            lemma_feed_phases(st, part, rest, start);
            let fed = feed(st, part, rest).0;
            lemma_at_tag_phases(fed, start);
            lemma_advance_phases(at_tag(fed).0, start);
        },
        None => {
            let keep = partial_tag(st.tag, awaited_tag(st), awaited_tag(st).len() - 1);
            lemma_feed_phases(
                st,
                st.tag.take(st.tag.len() - keep),
                st.tag.skip(st.tag.len() - keep),
                start,
            );
        },
    }
}

/// However an answer comes in, a phase change is reported only when the phase changes, the last
/// one reported is the current phase, and the wait for an answer is never reported.
pub proof fn law_phases_change(st: StreamView, delta: Seq<char>, start: Option<StreamPhase>)
    requires
        phases_since(st, start),
    ensures
        phases_since(pushed(st, delta).0, start),
        phases_since(flushed(st).0, start),
{
    lemma_advance_phases(StreamView { tag: st.tag + delta, ..st }, start);
    lemma_flush_phases(st, start);
}

/// What can be done with a renderer.
pub enum StreamAct {
    Push(Seq<char>),
    Flush,
    /// The phase changes are taken.
    Drain,
    /// What was thought is taken.
    TakeThinking,
}

/// The effect of one act, and the phase changes that it gives.
pub open spec fn act_once(st: StreamView, act: StreamAct) -> (StreamView, Seq<StreamPhase>) {
    match act {
        StreamAct::Push(delta) => (pushed(st, delta).0, Seq::empty()),
        StreamAct::Flush => (flushed(st).0, Seq::empty()),
        StreamAct::Drain => (StreamView { phases: Seq::empty(), ..st }, st.phases),
        StreamAct::TakeThinking => (StreamView { finished: None, ..st }, Seq::empty()),
    }
}

/// The effect of acts on a fresh renderer, and all the phase changes that they give.
pub open spec fn acted(collapse: bool, acts: Seq<StreamAct>) -> (StreamView, Seq<StreamPhase>)
    decreases acts.len(),
{
    if acts.len() == 0 {
        (fresh_stream(collapse), Seq::empty())
    } else {
        let (st, given) = acted(collapse, acts.drop_last());
        let (next, more) = act_once(st, acts.last());
        (next, given + more)
    }
}

/// The last phase that was given, if there was one.
pub open spec fn last_given(given: Seq<StreamPhase>) -> Option<StreamPhase> {
    if given.len() == 0 {
        None
    } else {
        Some(given.last())
    }
}

/// Over the whole life of a renderer, however its phase changes are taken, each phase given
/// differs from the one given before it, and the wait for an answer is never given.
pub proof fn law_given_phases_change(collapse: bool, acts: Seq<StreamAct>)
    ensures
        ({
            let (st, given) = acted(collapse, acts);
            &&& !given.contains(StreamPhase::Waiting)
            &&& forall|i: int| 0 < i < given.len() ==> #[trigger] given[i] != given[i - 1]
            &&& phases_since(st, last_given(given))
        }),
    decreases acts.len(),
{
    if acts.len() > 0 {
        law_given_phases_change(collapse, acts.drop_last());
        let (st, given) = acted(collapse, acts.drop_last());
        let start = last_given(given);
        match acts.last() {
            StreamAct::Push(delta) => law_phases_change(st, delta, start),
            StreamAct::Flush => law_phases_change(st, Seq::empty(), start),
            _ => {},
        }
        let (next, more) = act_once(st, acts.last());
        let all = given + more;
        assert forall|i: int| 0 <= i < all.len() implies all[i] != StreamPhase::Waiting by {
            if i < given.len() {
                assert(given.contains(given[i]));
            } else {
                assert(st.phases.contains(st.phases[i - given.len()]));
            }
        }
        assert forall|i: int| 0 < i < all.len() implies #[trigger] all[i] != all[i - 1] by {
            if i < given.len() {
                assert(given[i] != given[i - 1]);
            } else if i > given.len() {
                assert(more[i - given.len()] != more[i - given.len() - 1]);
            }
        }
        if more.len() == 0 {
            assert(all =~= given);
        } else {
            assert(all.last() == more.last());
        }
    }
}

/// After a flush nothing is held back: no text, no table and no open block.
pub proof fn law_flush_leaves_nothing(st: StreamView)
    ensures
        flushed(st).0.buffer.len() == 0,
        flushed(st).0.tag.len() == 0,
        !flushed(st).0.in_thinking,
        !flushed(st).0.normal.in_table,
{
}

/// The lines of a thinking block, or of the answer, are rendered.
pub open spec fn block_lines(st: StreamView, pieces: Seq<Seq<char>>) -> (StreamView, Seq<char>) {
    if st.in_thinking {
        think_lines(st, pieces)
    } else {
        answer_lines(st, pieces)
    }
}

/// One thing is done after another.
pub open spec fn and_then(
    first: (StreamView, Seq<char>),
    second: (StreamView, Seq<char>),
) -> (StreamView, Seq<char>) {
    (second.0, first.1 + second.1)
}

/// Rendering lines one after the other has the effect of rendering them at once.
proof fn lemma_lines_concat(st: StreamView, a: Seq<Seq<char>>, b: Seq<Seq<char>>)
    ensures
        block_lines(st, a + b) == and_then(block_lines(st, a), block_lines(block_lines(st, a).0, b)),
    decreases b.len(),
{
    let mid = block_lines(st, a);
    lemma_lines_keep_tag(st, a);
    if b.len() == 0 {
        assert(a + b =~= a);
        assert(mid.1 + Seq::<char>::empty() =~= mid.1);
    } else {
        lemma_lines_concat(st, a, b.drop_last());
        lemma_lines_keep_tag(mid.0, b.drop_last());
        assert((a + b).drop_last() =~= a + b.drop_last());
        let far = block_lines(mid.0, b.drop_last());
        let end = block_lines(mid.0, b);
        let last = if st.in_thinking {
            think_line(
                StreamView { thought: far.0.thought + b.last() + "\n"@, ..far.0 },
                b.last(),
            )
        } else {
            answer_line(far.0, b.last())
        };
        assert(end.1 == far.1 + last.1);
        assert(mid.1 + far.1 + last.1 =~= mid.1 + (far.1 + last.1));
    }
}

/// Rendering lines neither reads nor changes the line in work and the text that waits.
proof fn lemma_lines_frame(
    st: StreamView,
    pieces: Seq<Seq<char>>,
    buffer: Seq<char>,
    tag: Seq<char>,
)
    ensures
        block_lines(StreamView { buffer, tag, ..st }, pieces) == (
            StreamView { buffer, tag, ..block_lines(st, pieces).0 },
            block_lines(st, pieces).1,
        ),
        block_lines(st, pieces).0.buffer == st.buffer,
        block_lines(st, pieces).0.tag == st.tag,
        block_lines(st, pieces).0.in_thinking == st.in_thinking,
        !st.in_thinking && st.phase == Some(StreamPhase::Answering) ==> block_lines(
            st,
            pieces,
        ).0.phase == Some(StreamPhase::Answering),
    decreases pieces.len(),
{
    if pieces.len() > 0 {
        lemma_lines_frame(st, pieces.drop_last(), buffer, tag);
    }
}

/// What is left of a text after its last newline holds none.
proof fn lemma_last_line(s: Seq<char>)
    ensures
        !split_on(s, '\n').last().contains('\n'),
    decreases s.len(),
{
    if s.len() > 0 {
        lemma_last_line(s.drop_last());
        lemma_split_by_len(s.drop_last(), only('\n'));
        let before = split_on(s.drop_last(), '\n');
        if s.last() != '\n' {
            let last = before.last().push(s.last());
            if last.contains('\n') {
                let k = choose|k: int| 0 <= k < last.len() && last[k] == '\n';
                assert(k < before.last().len());
                assert(before.last()[k] == '\n');
            }
        }
    }
}

/// Taking in a text in two parts has the effect of taking it in at once.
#[verifier::spinoff_prover]
proof fn lemma_feed_concat(
    st: StreamView,
    x: Seq<char>,
    y: Seq<char>,
    r: Seq<char>,
    rest: Seq<char>,
)
    requires
        !st.buffer.contains('\n'),
    ensures
        feed(st, x + y, rest) == and_then(feed(st, x, r), feed(feed(st, x, r).0, y, rest)),
{
    let f = only('\n');
    let bx = st.buffer + x;
    let p = split_by(bx, f);
    lemma_split_by_len(bx, f);
    let noted = answering_if(st, !st.in_thinking && x.len() > 0);
    let s1 = StreamView { buffer: p.last(), tag: r, ..noted };
    let first = block_lines(s1, p.drop_last());
    assert(feed(st, x, r) == first);
    let mid = first.0;
    lemma_lines_frame(s1, p.drop_last(), p.last(), r);
    let q = split_by(p.last() + y, f);
    lemma_split_by_len(p.last() + y, f);
    lemma_split_concat(bx, y, f);
    assert(st.buffer + (x + y) =~= bx + y);
    let all = split_by(bx + y, f);
    assert(all.last() == q.last());
    assert(all.drop_last() =~= p.drop_last() + q.drop_last());
    let whole = StreamView {
        buffer: q.last(),
        tag: rest,
        ..answering_if(st, !st.in_thinking && (x + y).len() > 0)
    };
    assert(feed(st, x + y, rest) == block_lines(whole, all.drop_last()));
    lemma_lines_concat(whole, p.drop_last(), q.drop_last());
    let s2 = StreamView {
        buffer: q.last(),
        tag: rest,
        ..answering_if(mid, !mid.in_thinking && y.len() > 0)
    };
    assert(feed(mid, y, rest) == block_lines(s2, q.drop_last()));
    if x.len() == 0 {
        assert(bx =~= st.buffer);
        assert forall|i: int| 0 <= i < bx.len() implies !f(#[trigger] bx[i]) by {
            assert(st.buffer.contains(bx[i]));
        }
        lemma_split_none(bx, f);
        assert(p.drop_last() =~= Seq::<Seq<char>>::empty());
        assert(x + y =~= y);
        assert(mid == s1);
        assert(s2 == whole);
    } else {
        lemma_lines_frame(s1, p.drop_last(), q.last(), rest);
        assert(StreamView { buffer: q.last(), tag: rest, ..s1 } == whole);
        assert(s2 == StreamView { buffer: q.last(), tag: rest, ..mid });
    }
}

proof fn lemma_partial_tag(text: Seq<char>, tag: Seq<char>, n: int)
    requires
        n <= tag.len(),
    ensures
        0 <= partial_tag(text, tag, n) <= if n < 0 {
            0
        } else {
            n
        },
        partial_tag(text, tag, n) <= text.len(),
        ends_with_spec(text, tag.take(partial_tag(text, tag, n))),
        forall|k: int| partial_tag(text, tag, n) < k <= n ==> !ends_with_spec(text, #[trigger] tag.take(k)),
    decreases n,
{
    if n <= 0 {
        assert(tag.take(0) =~= Seq::<char>::empty());
        assert(text.skip(text.len() as int) =~= tag.take(0));
        assert(text.subrange(text.len() as int, text.len() as int) =~= tag.take(0));
    } else if !ends_with_spec(text, tag.take(n)) {
        lemma_partial_tag(text, tag, n - 1);
    }
}

/// The first place of a tag in a text stays its first place when the text goes on.
proof fn lemma_tag_stays(t: Seq<char>, b: Seq<char>, tag: Seq<char>)
    requires
        split_once_spec(t, tag) is Some,
        tag.len() > 0,
    ensures
        split_once_spec(t + b, tag) == Some(
            (split_once_spec(t, tag)->Some_0.0, split_once_spec(t, tag)->Some_0.1 + b),
        ),
{
    let s = t + b;
    lemma_find_from(t, tag, 0);
    lemma_find_from(s, tag, 0);
    let i = find_text(t, tag)->Some_0;
    assert(s.subrange(i, i + tag.len()) =~= t.subrange(i, i + tag.len()));
    assert(matches_at(s, tag, i));
    let k = find_text(s, tag)->Some_0;
    if k < i {
        assert(t.subrange(k, k + tag.len()) =~= s.subrange(k, k + tag.len()));
        assert(matches_at(t, tag, k));
    }
    assert(s.take(i) =~= t.take(i));
    assert(s.skip(i + tag.len()) =~= t.skip(i + tag.len()) + b);
}

/// Where no tag stands in a text, none starts in it, when it goes on, but in the part that is
/// kept back.
proof fn lemma_tag_starts_late(t: Seq<char>, b: Seq<char>, tag: Seq<char>, m: int, n: int)
    requires
        find_text(t, tag) is None,
        0 < n <= tag.len(),
        0 <= m < t.len() - partial_tag(t, tag, tag.len() - 1),
        m + n <= (t + b).len(),
        m + n >= t.len(),
    ensures
        (t + b).subrange(m, m + n) != tag.take(n),
{
    let s = t + b;
    lemma_find_from(t, tag, 0);
    lemma_partial_tag(t, tag, tag.len() - 1);
    let k = t.len() - m;
    if s.subrange(m, m + n) == tag.take(n) {
        assert(t.subrange(m, t.len() as int) =~= tag.take(k)) by {
            assert forall|i: int| 0 <= i < k implies t.subrange(m, t.len() as int)[i]
                == tag.take(k)[i] by {
                assert(s.subrange(m, m + n)[i] == tag.take(n)[i]);
            }
        }
        if k == tag.len() {
            assert(tag.take(k) =~= tag);
            assert(matches_at(t, tag, m));
        } else {
            assert(ends_with_spec(t, tag.take(k))) by {
                assert(t.subrange(t.len() - k, t.len() as int) =~= tag.take(k));
            }
        }
    }
}

/// Where no tag stands in a text, it is looked for, when the text goes on, from the part on that
/// was kept back.
proof fn lemma_tag_from_kept(t: Seq<char>, b: Seq<char>, tag: Seq<char>)
    requires
        split_once_spec(t, tag) is None,
        tag.len() > 0,
    ensures
        ({
            let keep = partial_tag(t, tag, tag.len() - 1);
            let part = t.take(t.len() - keep);
            let rest = t.skip(t.len() - keep);
            &&& split_once_spec(t + b, tag) == match split_once_spec(rest + b, tag) {
                Some((x, y)) => Some((part + x, y)),
                None => None,
            }
            &&& partial_tag(t + b, tag, tag.len() - 1) == partial_tag(
                rest + b,
                tag,
                tag.len() - 1,
            )
        }),
{
    let keep = partial_tag(t, tag, tag.len() - 1);
    lemma_partial_tag(t, tag, tag.len() - 1);
    let cut = t.len() - keep;
    let part = t.take(cut);
    let rest = t.skip(cut);
    let s = t + b;
    let u = rest + b;
    assert(s =~= part + u);
    lemma_find_from(t, tag, 0);
    lemma_find_from(s, tag, 0);
    lemma_find_from(u, tag, 0);
    assert forall|j: int| 0 <= j < cut implies !matches_at(s, tag, j) by {
        if matches_at(s, tag, j) {
            assert(tag.take(tag.len() as int) =~= tag);
            if j + tag.len() <= t.len() {
                assert(t.subrange(j, j + tag.len()) =~= s.subrange(j, j + tag.len()));
                assert(matches_at(t, tag, j));
            } else {
                lemma_tag_starts_late(t, b, tag, j, tag.len() as int);
            }
        }
    }
    assert forall|j: int| 0 <= j implies matches_at(u, tag, j) == matches_at(s, tag, j + cut) by {
        if j + tag.len() <= u.len() {
            assert(u.subrange(j, j + tag.len()) =~= s.subrange(j + cut, j + cut + tag.len()));
        }
    }
    match find_text(u, tag) {
        Some(k) => {
            assert(matches_at(s, tag, k + cut));
            let i = find_text(s, tag)->Some_0;
            assert(i >= cut);
            assert(matches_at(u, tag, i - cut));
            assert(i == k + cut);
            assert(s.take(i) =~= part + u.take(k));
            assert(s.skip(i + tag.len()) =~= u.skip(k + tag.len()));
        },
        None => {
            if let Some(i) = find_text(s, tag) {
                assert(i >= cut);
                assert(matches_at(u, tag, i - cut));
            }
        },
    }
    lemma_partial_same(t, b, tag, tag.len() - 1);
}

proof fn lemma_partial_same(t: Seq<char>, b: Seq<char>, tag: Seq<char>, n: int)
    requires
        find_text(t, tag) is None,
        n < tag.len(),
    ensures
        partial_tag(t + b, tag, n) == partial_tag(
            t.skip(t.len() - partial_tag(t, tag, tag.len() - 1)) + b,
            tag,
            n,
        ),
    decreases n,
{
    let keep = partial_tag(t, tag, tag.len() - 1);
    lemma_partial_tag(t, tag, tag.len() - 1);
    let cut = t.len() - keep;
    let s = t + b;
    let u = t.skip(cut) + b;
    if n > 0 {
        lemma_partial_same(t, b, tag, n - 1);
        let p = tag.take(n);
        assert(s =~= t.take(cut) + u);
        if n <= u.len() {
            assert(u.subrange(u.len() - n, u.len() as int) =~= s.subrange(
                s.len() - n,
                s.len() as int,
            ));
            assert(ends_with_spec(s, p) == ends_with_spec(u, p));
        } else if ends_with_spec(s, p) {
            assert(s.subrange(s.len() - n, s.len() as int) =~= p);
            lemma_tag_starts_late(t, b, tag, s.len() - n, n);
        }
    }
}

/// Whether the text that waits ends right behind a tag.
pub open spec fn ends_at_tag(st: StreamView) -> bool
    decreases st.tag.len() via ends_at_tag_decreases
{
    match split_once_spec(st.tag, awaited_tag(st)) {
        Some((part, rest)) => rest.len() == 0 || ends_at_tag(at_tag(feed(st, part, rest).0).0),
        None => false,
    }
}

#[via_fn]
proof fn ends_at_tag_decreases(st: StreamView) {
    lemma_advance_shrinks(st);
}

/// The text that waits is of no matter before a tag is looked for in it.
proof fn lemma_feed_rest(st: StreamView, part: Seq<char>, rest: Seq<char>, other: Seq<char>)
    ensures
        feed(st, part, other) == (
            StreamView { tag: other, ..feed(st, part, rest).0 },
            feed(st, part, rest).1,
        ),
        feed(st, part, rest).0.tag == rest,
        feed(st, part, rest).0.in_thinking == st.in_thinking,
        !feed(st, part, rest).0.buffer.contains('\n'),
{
    let noted = answering_if(st, !st.in_thinking && part.len() > 0);
    let p = split_on(st.buffer + part, '\n');
    lemma_last_line(st.buffer + part);
    let s1 = StreamView { buffer: p.last(), tag: rest, ..noted };
    assert(feed(st, part, rest) == block_lines(s1, p.drop_last()));
    lemma_lines_frame(s1, p.drop_last(), p.last(), other);
}

/// What happens once a tag was found.
spec fn past_tag(st: StreamView, part: Seq<char>, rest: Seq<char>) -> (StreamView, Seq<char>) {
    let (fed, out1) = feed(st, part, rest);
    let (next, out2) = at_tag(fed);
    let (end, out3) = advance(next);
    (end, out1 + out2 + out3)
}

proof fn lemma_advance_found(st: StreamView, part: Seq<char>, rest: Seq<char>)
    requires
        split_once_spec(st.tag, awaited_tag(st)) == Some((part, rest)),
    ensures
        advance(st) == past_tag(st, part, rest),
{
}

proof fn lemma_advance_missed(st: StreamView)
    requires
        split_once_spec(st.tag, awaited_tag(st)) is None,
    ensures
        ({
            let keep = partial_tag(st.tag, awaited_tag(st), awaited_tag(st).len() - 1);
            advance(st) == feed(
                st,
                st.tag.take(st.tag.len() - keep),
                st.tag.skip(st.tag.len() - keep),
            )
        }),
{
}

/// The text that waited before is of no matter for what is taken in.
proof fn lemma_feed_forgets(st: StreamView, tag: Seq<char>, part: Seq<char>, rest: Seq<char>)
    ensures
        feed(StreamView { tag, ..st }, part, rest) == feed(st, part, rest),
        past_tag(StreamView { tag, ..st }, part, rest) == past_tag(st, part, rest),
{
}

#[verifier::spinoff_prover]
proof fn lemma_past_tag_concat(
    st: StreamView,
    part: Seq<char>,
    x: Seq<char>,
    r: Seq<char>,
    y: Seq<char>,
)
    requires
        !st.buffer.contains('\n'),
    ensures
        past_tag(st, part + x, y) == and_then(
            feed(st, part, r),
            past_tag(feed(st, part, r).0, x, y),
        ),
{
    lemma_feed_concat(st, part, x, r, y);
    let (fed, out1) = feed(st, part, r);
    let (f2, o2) = feed(fed, x, y);
    let (n2, o3) = at_tag(f2);
    let (e2, o4) = advance(n2);
    assert(out1 + o2 + o3 + o4 =~= out1 + (o2 + o3 + o4));
}

proof fn lemma_chunk_finds_tag(
    st: StreamView,
    s: Seq<char>,
    u: Seq<char>,
    part: Seq<char>,
    rest: Seq<char>,
    x: Seq<char>,
    y: Seq<char>,
)
    requires
        !st.buffer.contains('\n'),
        split_once_spec(s, awaited_tag(st)) == Some((part + x, y)),
        split_once_spec(u, awaited_tag(st)) == Some((x, y)),
    ensures
        advance(StreamView { tag: s, ..st }) == and_then(
            feed(st, part, rest),
            advance(StreamView { tag: u, ..feed(st, part, rest).0 }),
        ),
{
    let fed = feed(st, part, rest).0;
    lemma_feed_rest(st, part, rest, u);
    lemma_advance_found(StreamView { tag: s, ..st }, part + x, y);
    lemma_advance_found(StreamView { tag: u, ..fed }, x, y);
    lemma_feed_forgets(st, s, part + x, y);
    lemma_feed_forgets(fed, u, x, y);
    lemma_past_tag_concat(st, part, x, rest, y);
}

proof fn lemma_chunk_finds_none(
    st: StreamView,
    s: Seq<char>,
    u: Seq<char>,
    part: Seq<char>,
    rest: Seq<char>,
)
    requires
        !st.buffer.contains('\n'),
        s == part + u,
        split_once_spec(s, awaited_tag(st)) is None,
        split_once_spec(u, awaited_tag(st)) is None,
        partial_tag(s, awaited_tag(st), awaited_tag(st).len() - 1) == partial_tag(
            u,
            awaited_tag(st),
            awaited_tag(st).len() - 1,
        ),
    ensures
        advance(StreamView { tag: s, ..st }) == and_then(
            feed(st, part, rest),
            advance(StreamView { tag: u, ..feed(st, part, rest).0 }),
        ),
{
    let fed = feed(st, part, rest).0;
    let tag = awaited_tag(st);
    lemma_feed_rest(st, part, rest, u);
    let k = partial_tag(u, tag, tag.len() - 1);
    lemma_partial_tag(u, tag, tag.len() - 1);
    let x = u.take(u.len() - k);
    let y = u.skip(u.len() - k);
    assert(s.take(s.len() - k) =~= part + x);
    assert(s.skip(s.len() - k) =~= y);
    lemma_advance_missed(StreamView { tag: s, ..st });
    lemma_advance_missed(StreamView { tag: u, ..fed });
    lemma_feed_forgets(st, s, part + x, y);
    lemma_feed_forgets(fed, u, x, y);
    lemma_feed_concat(st, part, x, rest, y);
}

#[verifier::spinoff_prover]
#[verifier::rlimit(50)]
proof fn lemma_chunks_without_tag(st: StreamView, b: Seq<char>)
    requires
        !st.buffer.contains('\n'),
        split_once_spec(st.tag, awaited_tag(st)) is None,
    ensures
        advance(StreamView { tag: st.tag + b, ..st }) == and_then(
            advance(st),
            pushed(advance(st).0, b),
        ),
        !advance(st).0.buffer.contains('\n'),
{
    let tag = awaited_tag(st);
    assert(tag.len() > 0) by {
        reveal_strlit("</think>");
        reveal_strlit("<think>");
    }
    let keep = partial_tag(st.tag, tag, tag.len() - 1);
    lemma_partial_tag(st.tag, tag, tag.len() - 1);
    let part = st.tag.take(st.tag.len() - keep);
    let rest = st.tag.skip(st.tag.len() - keep);
    let s = st.tag + b;
    let u = rest + b;
    assert(s =~= part + u);
    lemma_feed_rest(st, part, rest, u);
    lemma_tag_from_kept(st.tag, b, tag);
    lemma_advance_missed(st);
    match split_once_spec(u, tag) {
        Some((x, y)) => lemma_chunk_finds_tag(st, s, u, part, rest, x, y),
        None => lemma_chunk_finds_none(st, s, u, part, rest),
    }
}

proof fn lemma_at_tag_rest(st: StreamView, b: Seq<char>)
    requires
        !st.buffer.contains('\n'),
        b.len() > 0 && b[0] == '\n' ==> st.tag.len() > 0,
    ensures
        at_tag(StreamView { tag: st.tag + b, ..st }) == (
            StreamView { tag: at_tag(st).0.tag + b, ..at_tag(st).0 },
            at_tag(st).1,
        ),
        !at_tag(st).0.buffer.contains('\n'),
{
    assert(without_newline(st.tag + b) =~= without_newline(st.tag) + b);
}

#[verifier::spinoff_prover]
proof fn lemma_advance_chunks(st: StreamView, b: Seq<char>)
    requires
        !st.buffer.contains('\n'),
        b.len() > 0 && b[0] == '\n' ==> !ends_at_tag(st),
    ensures
        advance(StreamView { tag: st.tag + b, ..st }) == and_then(
            advance(st),
            pushed(advance(st).0, b),
        ),
        !advance(st).0.buffer.contains('\n'),
    decreases st.tag.len(),
{
    match split_once_spec(st.tag, awaited_tag(st)) {
        Some((part, rest)) => {
            let tag = awaited_tag(st);
            let whole = StreamView { tag: st.tag + b, ..st };
            assert(tag.len() > 0) by {
                reveal_strlit("</think>");
                reveal_strlit("<think>");
            }
            lemma_advance_shrinks(st);
            lemma_tag_stays(st.tag, b, tag);
            lemma_feed_rest(st, part, rest, rest + b);
            let (fed, out1) = feed(st, part, rest);
            let (next, out2) = at_tag(fed);
            lemma_at_tag_rest(fed, b);
            lemma_advance_found(st, part, rest);
            lemma_advance_found(whole, part, rest + b);
            lemma_feed_forgets(st, st.tag + b, part, rest + b);
            lemma_advance_chunks(next, b);
            let (end, out3) = advance(next);
            let out4 = pushed(end, b).1;
            assert(out1 + out2 + (out3 + out4) =~= out1 + out2 + out3 + out4);
        },
        None => lemma_chunks_without_tag(st, b),
    }
}

/// An answer is rendered the same however it is cut into pieces: giving two texts one after the
/// other has the effect of giving them at once. The one exception is a newline right behind a
/// tag, which is dropped only where it comes in with the tag.
pub proof fn law_chunks_render_alike(st: StreamView, a: Seq<char>, b: Seq<char>)
    requires
        !st.buffer.contains('\n'),
        b.len() > 0 && b[0] == '\n' ==> !ends_at_tag(StreamView { tag: st.tag + a, ..st }),
    ensures
        pushed(st, a + b) == and_then(pushed(st, a), pushed(pushed(st, a).0, b)),
{
    assert(st.tag + (a + b) =~= st.tag + a + b);
    lemma_advance_chunks(StreamView { tag: st.tag + a, ..st }, b);
}

/// The line in work is a line: no renderer ever holds a complete one back.
pub proof fn law_no_line_is_held_back(st: StreamView, delta: Seq<char>, collapse: bool)
    requires
        !st.buffer.contains('\n'),
    ensures
        !fresh_stream(collapse).buffer.contains('\n'),
        !pushed(st, delta).0.buffer.contains('\n'),
        !flushed(st).0.buffer.contains('\n'),
{
    assert(st.tag + delta + Seq::<char>::empty() =~= st.tag + delta);
    lemma_advance_chunks(StreamView { tag: st.tag + delta, ..st }, Seq::empty());
}

/// The lines of a document without tables and code.
pub open spec fn plain_lines(v: Seq<Seq<char>>) -> Seq<char>
    decreases v.len(),
{
    if v.len() == 0 {
        Seq::empty()
    } else {
        plain_lines(v.drop_last()) + plain_line(v.last())
    }
}

/// Whether a line belongs neither to a table nor to code.
pub open spec fn is_plain(line: Seq<char>) -> bool {
    !line.contains('|') && !fence(line)
}

proof fn lemma_stream_plain_lines(st: StreamView, v: Seq<Seq<char>>)
    requires
        st.normal == fresh_lines(),
        forall|i: int| 0 <= i < v.len() ==> is_plain(#[trigger] v[i]),
    ensures
        answer_lines(st, v).0.normal == fresh_lines(),
        answer_lines(st, v).1 == plain_lines(v),
    decreases v.len(),
{
    if v.len() > 0 {
        let w = v.drop_last();
        assert forall|i: int| 0 <= i < w.len() implies is_plain(#[trigger] w[i]) by {
            assert(is_plain(v[i]));
        }
        lemma_stream_plain_lines(st, w);
        assert(is_plain(v[v.len() - 1]));
        assert(Seq::<char>::empty() + plain_line(v.last()) =~= plain_line(v.last()));
    }
}

proof fn lemma_document_plain_lines(v: Seq<Seq<char>>, i: int)
    requires
        0 <= i <= v.len(),
        forall|k: int| 0 <= k < v.len() ==> is_plain(#[trigger] v[k]),
    ensures
        plain_lines(v) == plain_lines(v.take(i)) + document_from(v, i, None, RULE_WIDTH as nat),
    decreases v.len() - i,
{
    if i == v.len() {
        lemma_take_full(v);
        assert(plain_lines(v) + Seq::<char>::empty() =~= plain_lines(v));
    } else {
        lemma_document_plain_lines(v, i + 1);
        lemma_take_step(v, i);
        assert(is_plain(v[i]));
        let rest = document_from(v, i + 1, None, RULE_WIDTH as nat);
        assert(document_from(v, i, None, RULE_WIDTH as nat) == plain_line(v[i]) + rest);
        assert(plain_lines(v.take(i)) + plain_line(v[i]) + rest =~= plain_lines(v.take(i)) + (
        plain_line(v[i]) + rest));
    }
}

/// The pieces of a text between newlines, where its end is one without any.
proof fn lemma_split_end(x: Seq<char>, y: Seq<char>)
    requires
        !y.contains('\n'),
    ensures
        split_on(x + y, '\n').drop_last() == split_on(x, '\n').drop_last(),
        split_on(x + y, '\n').last() == split_on(x, '\n').last() + y,
{
    let f = only('\n');
    lemma_split_by_len(x, f);
    lemma_last_line(x);
    lemma_split_concat(x, y, f);
    let z = split_by(x, f).last() + y;
    assert forall|i: int| 0 <= i < z.len() implies !f(#[trigger] z[i]) by {
        if i < split_by(x, f).last().len() {
            assert(split_on(x, '\n').last().contains(z[i]));
        } else {
            assert(y.contains(z[i]));
        }
    }
    lemma_split_none(z, f);
    assert(split_by(x + y, f).drop_last() =~= split_by(x, f).drop_last());
}

proof fn lemma_pieces_keep(s: Seq<char>, c: char)
    requires
        !s.contains(c),
    ensures
        forall|i: int| 0 <= i < split_on(s, '\n').len() ==> !(#[trigger] split_on(s, '\n')[i]).contains(c),
    decreases s.len(),
{
    let v = split_on(s, '\n');
    if s.len() == 0 {
        assert forall|i: int| 0 <= i < v.len() implies !(#[trigger] v[i]).contains(c) by {
            assert(v[i].len() == 0);
        }
    } else {
        let w = split_on(s.drop_last(), '\n');
        lemma_split_by_len(s.drop_last(), only('\n'));
        assert(!s.drop_last().contains(c)) by {
            if s.drop_last().contains(c) {
                let k = choose|k: int| 0 <= k < s.drop_last().len() && s.drop_last()[k] == c;
                assert(s[k] == c);
            }
        }
        lemma_pieces_keep(s.drop_last(), c);
        assert(s[s.len() - 1] != c);
        assert forall|i: int| 0 <= i < v.len() implies !(#[trigger] v[i]).contains(c) by {
            if i < w.len() - 1 {
                assert(v[i] == w[i]);
            } else if v[i].contains(c) {
                let k = choose|k: int| 0 <= k < v[i].len() && v[i][k] == c;
                assert(!w[w.len() - 1].contains(c));
                if k < w.last().len() {
                    assert(w.last()[k] == c);
                }
            }
        }
    }
}

/// The lines of a text that neither ends with a newline nor holds a carriage return are the
/// pieces between its newlines.
proof fn lemma_lines_are_pieces(s: Seq<char>)
    requires
        s.len() > 0,
        s.last() != '\n',
        !s.contains('\r'),
    ensures
        lines(s) == split_on(s, '\n'),
        split_on(s, '\n').last().len() > 0,
{
    let v = split_on(s, '\n');
    lemma_split_by_len(s, only('\n'));
    lemma_split_by_len(s.drop_last(), only('\n'));
    lemma_pieces_keep(s, '\r');
    let ended = v.drop_last().map_values(|p: Seq<char>| without_cr(p));
    assert forall|i: int| 0 <= i < ended.len() implies ended[i] == v[i] by {
        assert(!v[i].contains('\r'));
        if v[i].len() > 0 {
            assert(v[i].contains(v[i].last()));
        }
    }
    assert(ended =~= v.drop_last());
    assert(ended.push(v.last()) =~= v);
}

proof fn lemma_plain_stream(s: Seq<char>, collapse: bool)
    requires
        s.len() > 0,
        s.last() != '\n',
        !contains_text(s, "<think>"@),
        forall|i: int| 0 <= i < split_on(s, '\n').len() ==> is_plain(#[trigger] split_on(s, '\n')[i]),
        split_on(s, '\n').last().len() > 0,
    ensures
        pushed(fresh_stream(collapse), s).1 + flushed(pushed(fresh_stream(collapse), s).0).1
            == plain_lines(split_on(s, '\n')),
{
    reveal_strlit("<think>");
    let st = fresh_stream(collapse);
    let tag = "<think>"@;
    let whole = StreamView { tag: s, ..st };
    assert(st.tag + s =~= s);
    let keep = partial_tag(s, tag, tag.len() - 1);
    lemma_partial_tag(s, tag, tag.len() - 1);
    let part = s.take(s.len() - keep);
    let rest = s.skip(s.len() - keep);
    assert(s =~= part + rest);
    assert(rest =~= tag.take(keep));
    assert(!rest.contains('\n')) by {
        assert forall|i: int| 0 <= i < rest.len() implies rest[i] != '\n' by {
            assert(rest[i] == tag[i]);
        }
    }
    lemma_split_end(part, rest);
    let v = split_on(s, '\n');
    let p = split_on(part, '\n');
    lemma_advance_missed(whole);
    let noted = answering_if(whole, part.len() > 0);
    let s1 = StreamView { buffer: p.last(), tag: rest, ..noted };
    assert(Seq::<char>::empty() + part =~= part);
    let (fed, out) = block_lines(s1, p.drop_last());
    assert(pushed(st, s) == (fed, out));
    lemma_lines_frame(s1, p.drop_last(), p.last(), rest);
    let w = v.drop_last();
    assert forall|i: int| 0 <= i < w.len() implies is_plain(#[trigger] w[i]) by {
        assert(is_plain(v[i]));
    }
    lemma_stream_plain_lines(s1, p.drop_last());
    assert(fed.buffer + fed.tag == v.last());
    assert(Seq::<char>::empty() + Seq::<char>::empty() =~= Seq::<char>::empty());
    assert(Seq::<char>::empty() + plain_line(v.last()) =~= plain_line(v.last()));
}

/// A document without tables, code and thinking gives the same text streamed as at once, closed
/// by a newline.
pub proof fn law_streamed_is_rendered(s: Seq<char>, collapse: bool)
    requires
        s.len() > 0,
        trimmed(s) == s,
        !s.contains('\r'),
        !s.contains('|'),
        !contains_text(s, "<think>"@),
        forall|i: int| 0 <= i < lines(s).len() ==> !fence(#[trigger] lines(s)[i]),
    ensures
        pushed(fresh_stream(collapse), s).1 + flushed(pushed(fresh_stream(collapse), s).0).1
            == message_text(s, RULE_WIDTH as nat) + "\n"@,
{
    lemma_trimmed_ends(s);
    lemma_lines_are_pieces(s);
    lemma_pieces_keep(s, '|');
    let v = lines(s);
    assert forall|i: int| 0 <= i < v.len() implies is_plain(#[trigger] v[i]) by {
        assert(!fence(v[i]));
        assert(!split_on(s, '\n')[i].contains('|'));
    }
    lemma_plain_stream(s, collapse);
    law_no_thinking_without_tag(s);
    lemma_document_plain_lines(v, 0);
    let doc = document_from(v, 0, None, RULE_WIDTH as nat);
    assert(v.take(0) =~= Seq::<Seq<char>>::empty());
    assert(Seq::<char>::empty() + doc =~= doc);
    assert(trimmed(Seq::<char>::empty()) =~= Seq::<char>::empty());
    reveal_strlit("\n");
    assert(plain_line(v.last()).last() == '\n');
    assert(doc.last() == '\n');
    assert(doc.drop_last() + "\n"@ =~= doc);
}

/// A text that is not blank and has nothing to trim does not end with white space.
proof fn lemma_trimmed_ends(s: Seq<char>)
    requires
        s.len() > 0,
        trimmed(s) == s,
    ensures
        !is_space(s.last()),
{
    lemma_trimmed_end_last(trimmed_start(s));
}

proof fn lemma_trimmed_end_last(s: Seq<char>)
    ensures
        trimmed_end(s).len() > 0 ==> !is_space(trimmed_end(s).last()),
    decreases s.len(),
{
    if s.len() > 0 && is_space(s.last()) {
        lemma_trimmed_end_last(s.drop_last());
    }
}

} // verus!
