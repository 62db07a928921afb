//! Sessions as they are shown: turns, messages and lists.

use crate::activity::{call_bullets, render_call_bullets};
use crate::ansi::{CYAN, DIM, GREEN, MAGENTA, RESET, YELLOW, painted};
use crate::config::{AppConfig, flag_or};
use crate::json::{JsonView, json_text, jsons, print_json, printed_json};
use crate::media::image_views;
use crate::render::{RULE_WIDTH, message_text, render_markdown, render_markdown_with_width};
use crate::session::{
    SessionEvent, SessionMessage, SessionSummary, StoredEvent, StoredMessage, SummaryView,
    event_views, short, short_id,
};
use crate::text::{
    decimal, decimal_string, join, join_strings, lemma_take_full, lemma_take_step,
    lemma_texts_push, lines, lines_of, repeat, repeat_str, str_eq, texts,
};
use vstd::prelude::*;

verus! {

// ---------------------------------------------------------------------------
// Turns
// ---------------------------------------------------------------------------

pub open spec fn stored_messages(v: Seq<SessionMessage>) -> Seq<StoredMessage> {
    v.map_values(|m: SessionMessage| m@)
}

pub open spec fn turn_views(v: Seq<Vec<SessionMessage>>) -> Seq<Seq<StoredMessage>> {
    v.map_values(|t: Vec<SessionMessage>| stored_messages(t@))
}

pub open spec fn renderable(m: StoredMessage) -> bool {
    m.content.len() > 0 || m.images.len() > 0 || m.tool_calls.len() > 0 || m.tool_call_id is Some
}

pub fn session_message_has_renderable_payload(message: &SessionMessage) -> (r: bool)
    ensures
        r == renderable(message@),
{
    proof {
        assert(image_views(message.images@).len() == message.images@.len());
        assert(jsons(message.tool_calls@).len() == message.tool_calls@.len());
    }
    !message.content.as_str().is_empty() || message.images.len() > 0 || message.tool_calls.len() > 0
        || message.tool_call_id.is_some()
}

/// The turns that are complete, and the messages of the one that is not.
pub struct Turns {
    pub done: Seq<Seq<StoredMessage>>,
    pub current: Seq<StoredMessage>,
}

pub open spec fn turns_step(st: Turns, m: StoredMessage) -> Turns {
    if !renderable(m) {
        st
    } else if m.role == "user"@ && st.current.len() > 0 {
        Turns { done: st.done.push(st.current), current: seq![m] }
    } else {
        Turns { done: st.done, current: st.current.push(m) }
    }
}

pub open spec fn turns_of(v: Seq<StoredEvent>) -> Turns
    decreases v.len(),
{
    if v.len() == 0 {
        Turns { done: Seq::empty(), current: Seq::empty() }
    } else {
        let before = turns_of(v.drop_last());
        match v.last() {
            StoredEvent::Message(m) => turns_step(before, m),
            _ => before,
        }
    }
}

pub open spec fn all_turns(st: Turns) -> Seq<Seq<StoredMessage>> {
    if st.current.len() > 0 {
        st.done.push(st.current)
    } else {
        st.done
    }
}

/// The turns of a session: a message of the user starts one.
pub open spec fn turns(v: Seq<StoredEvent>) -> Seq<Seq<StoredMessage>> {
    all_turns(turns_of(v))
}

proof fn lemma_stored_push(v: Seq<SessionMessage>, m: SessionMessage)
    ensures
        stored_messages(v.push(m)) == stored_messages(v).push(m@),
{
    assert(stored_messages(v.push(m)) =~= stored_messages(v).push(m@));
}

proof fn lemma_turns_push(v: Seq<Vec<SessionMessage>>, t: Vec<SessionMessage>)
    ensures
        turn_views(v.push(t)) == turn_views(v).push(stored_messages(t@)),
{
    assert(turn_views(v.push(t)) =~= turn_views(v).push(stored_messages(t@)));
}

pub fn session_turns_from_events(events: &[SessionEvent]) -> (r: Vec<Vec<SessionMessage>>)
    ensures
        turn_views(r@) == turns(event_views(events@)),
{
    let ghost src = event_views(events@);
    let mut done: Vec<Vec<SessionMessage>> = Vec::new();
    let mut current: Vec<SessionMessage> = Vec::new();
    let mut i: usize = 0;
    proof {
        assert(turn_views(done@) =~= Seq::<Seq<StoredMessage>>::empty());
        assert(stored_messages(current@) =~= Seq::<StoredMessage>::empty());
    }
    while i < events.len()
        invariant
            i <= events@.len(),
            src == event_views(events@),
            turns_of(src.take(i as int)) == (Turns {
                done: turn_views(done@),
                current: stored_messages(current@),
            }),
        decreases events@.len() - i,
    {
        proof {
            lemma_take_step(src, i as int);
            assert(src[i as int] == events@[i as int]@);
            assert(stored_messages(current@).len() == current@.len());
        }
        if let SessionEvent::Message(m) = &events[i] {
            if session_message_has_renderable_payload(m) {
                let kept = m.copy();
                if str_eq(m.role.as_str(), "user") && current.len() > 0 {
                    proof {
                        lemma_turns_push(done@, current);
                    }
                    done.push(current);
                    current = Vec::new();
                    proof {
                        assert(stored_messages(current@.push(kept)) =~= seq![kept@]);
                    }
                } else {
                    proof {
                        lemma_stored_push(current@, kept);
                    }
                }
                current.push(kept);
            }
        }
        i = i + 1;
    }
    proof {
        lemma_take_full(src);
        assert(stored_messages(current@).len() == current@.len());
    }
    if current.len() > 0 {
        proof {
            lemma_turns_push(done@, current);
        }
        done.push(current);
    }
    done
}

/// The messages of a session that can be shown.
pub open spec fn renderable_messages(v: Seq<StoredEvent>) -> Seq<StoredMessage>
    decreases v.len(),
{
    if v.len() == 0 {
        Seq::empty()
    } else {
        let before = renderable_messages(v.drop_last());
        match v.last() {
            StoredEvent::Message(m) => if renderable(m) {
                before.push(m)
            } else {
                before
            },
            _ => before,
        }
    }
}

pub open spec fn concat_turns(v: Seq<Seq<StoredMessage>>) -> Seq<StoredMessage>
    decreases v.len(),
{
    if v.len() == 0 {
        Seq::empty()
    } else {
        concat_turns(v.drop_last()) + v.last()
    }
}

proof fn lemma_concat_turns_push(v: Seq<Seq<StoredMessage>>, t: Seq<StoredMessage>)
    ensures
        concat_turns(v.push(t)) == concat_turns(v) + t,
{
    assert(v.push(t).drop_last() =~= v);
}

/// The turns hold every message that can be shown, once and in order.
pub proof fn law_turns_keep_messages(v: Seq<StoredEvent>)
    ensures
        concat_turns(turns(v)) == renderable_messages(v),
{
    lemma_turns_concat(v);
    let st = turns_of(v);
    if st.current.len() > 0 {
        lemma_concat_turns_push(st.done, st.current);
    } else {
        assert(concat_turns(st.done) + st.current =~= concat_turns(st.done));
    }
}

proof fn lemma_turns_concat(v: Seq<StoredEvent>)
    ensures
        concat_turns(turns_of(v).done) + turns_of(v).current == renderable_messages(v),
    decreases v.len(),
{
    if v.len() == 0 {
        assert(concat_turns(turns_of(v).done) + turns_of(v).current =~= Seq::<
            StoredMessage,
        >::empty());
    } else {
        lemma_turns_concat(v.drop_last());
        let st = turns_of(v.drop_last());
        if let StoredEvent::Message(m) = v.last() {
            if renderable(m) {
                lemma_concat_turns_push(st.done, st.current);
                assert(concat_turns(st.done) + st.current.push(m) =~= (concat_turns(st.done)
                    + st.current).push(m));
                assert((concat_turns(st.done) + st.current) + seq![m] =~= (concat_turns(st.done)
                    + st.current).push(m));
            }
        }
    }
}

/// Whether only the first message of a turn is one of the user.
pub open spec fn one_question(t: Seq<StoredMessage>) -> bool {
    t.len() > 0 && forall|i: int| 0 < i < t.len() ==> (#[trigger] t[i]).role != "user"@
}

/// No turn is empty, only its first message may be one of the user, and every turn but the first
/// starts with one.
pub proof fn law_turns_start_with_user(v: Seq<StoredEvent>)
    ensures
        forall|i: int| 0 <= i < turns(v).len() ==> one_question(#[trigger] turns(v)[i]),
        forall|i: int| 0 < i < turns(v).len() ==> (#[trigger] turns(v)[i])[0].role == "user"@,
{
    lemma_turns_questions(v);
}

proof fn lemma_turns_questions(v: Seq<StoredEvent>)
    ensures
        forall|i: int|
            0 <= i < turns_of(v).done.len() ==> one_question(#[trigger] turns_of(v).done[i]),
        turns_of(v).current.len() > 0 ==> one_question(turns_of(v).current),
        forall|i: int|
            0 < i < turns_of(v).done.len() ==> (#[trigger] turns_of(v).done[i])[0].role == "user"@,
        turns_of(v).done.len() > 0 ==> turns_of(v).current.len() > 0
            && turns_of(v).current[0].role == "user"@,
    decreases v.len(),
{
    if v.len() > 0 {
        lemma_turns_questions(v.drop_last());
    }
}

/// The messages of a turn but those of the system.
pub open spec fn without_system(t: Seq<StoredMessage>) -> Seq<StoredMessage>
    decreases t.len(),
{
    if t.len() == 0 {
        Seq::empty()
    } else if t.last().role == "system"@ {
        without_system(t.drop_last())
    } else {
        without_system(t.drop_last()).push(t.last())
    }
}

/// The turns without the messages of the system; those that hold nothing else are left out.
pub open spec fn spoken_turns(v: Seq<Seq<StoredMessage>>) -> Seq<Seq<StoredMessage>>
    decreases v.len(),
{
    if v.len() == 0 {
        Seq::empty()
    } else {
        let before = spoken_turns(v.drop_last());
        let t = without_system(v.last());
        if t.len() == 0 {
            before
        } else {
            before.push(t)
        }
    }
}

fn drop_system(turn: &Vec<SessionMessage>) -> (r: Vec<SessionMessage>)
    ensures
        stored_messages(r@) == without_system(stored_messages(turn@)),
{
    let ghost src = stored_messages(turn@);
    let mut out: Vec<SessionMessage> = Vec::new();
    let mut i: usize = 0;
    proof {
        assert(stored_messages(out@) =~= Seq::<StoredMessage>::empty());
    }
    while i < turn.len()
        invariant
            i <= turn@.len(),
            src == stored_messages(turn@),
            stored_messages(out@) == without_system(src.take(i as int)),
        decreases turn@.len() - i,
    {
        proof {
            lemma_take_step(src, i as int);
            assert(src[i as int] == turn@[i as int]@);
        }
        if !str_eq(turn[i].role.as_str(), "system") {
            let m = turn[i].copy();
            proof {
                lemma_stored_push(out@, m);
            }
            out.push(m);
        }
        i = i + 1;
    }
    proof {
        lemma_take_full(src);
    }
    out
}

pub fn filter_session_turns_for_repl(turns: &Vec<Vec<SessionMessage>>) -> (r: Vec<
    Vec<SessionMessage>,
>)
    ensures
        turn_views(r@) == spoken_turns(turn_views(turns@)),
{
    let ghost src = turn_views(turns@);
    let mut out: Vec<Vec<SessionMessage>> = Vec::new();
    let mut i: usize = 0;
    proof {
        assert(turn_views(out@) =~= Seq::<Seq<StoredMessage>>::empty());
    }
    while i < turns.len()
        invariant
            i <= turns@.len(),
            src == turn_views(turns@),
            turn_views(out@) == spoken_turns(src.take(i as int)),
        decreases turns@.len() - i,
    {
        proof {
            lemma_take_step(src, i as int);
            assert(src[i as int] == stored_messages(turns@[i as int]@));
        }
        let t = drop_system(&turns[i]);
        proof {
            assert(stored_messages(t@).len() == t@.len());
        }
        if t.len() > 0 {
            proof {
                lemma_turns_push(out@, t);
            }
            out.push(t);
        }
        i = i + 1;
    }
    proof {
        lemma_take_full(src);
    }
    out
}

// ---------------------------------------------------------------------------
// Messages
// ---------------------------------------------------------------------------

/// The lines of a text behind a bar.
pub open spec fn barred(accent: Seq<char>, v: Seq<Seq<char>>) -> Seq<Seq<char>> {
    v.map_values(
        |line: Seq<char>|
            if line.len() == 0 {
                accent + "│"@ + RESET@
            } else {
                accent + "│"@ + RESET@ + " "@ + line
            },
    )
}

/// The lines of a text behind a bar, one below the other.
pub fn bar_lines(accent: &str, v: &Vec<String>) -> (r: String)
    ensures
        r@ == join(barred(accent@, texts(v@)), "\n"@),
{
    let ghost src = texts(v@);
    let ghost goal = barred(accent@, src);
    let mut out: Vec<String> = Vec::new();
    let mut i: usize = 0;
    proof {
        assert(texts(out@) =~= goal.take(0));
    }
    while i < v.len()
        invariant
            i <= v@.len(),
            src == texts(v@),
            goal == barred(accent@, src),
            texts(out@) == goal.take(i as int),
        decreases v@.len() - i,
    {
        let bar = accent.to_owned().concat("│").concat(RESET);
        let line = if v[i].as_str().is_empty() {
            bar
        } else {
            bar.concat(" ").concat(v[i].as_str())
        };
        proof {
            assert(src[i as int] == v@[i as int]@);
            lemma_take_step(goal, i as int);
            lemma_texts_push(out@, line);
        }
        out.push(line);
        i = i + 1;
    }
    proof {
        lemma_take_full(goal);
    }
    join_strings(&out, "\n")
}

/// One empty line.
pub fn one_empty_line() -> (r: Vec<String>)
    ensures
        texts(r@) == seq![Seq::<char>::empty()],
{
    let s = String::new();
    let v = vec![s];
    proof {
        assert(s@ =~= Seq::<char>::empty());
        assert(texts(v@) =~= seq![Seq::<char>::empty()]);
    }
    v
}

/// A message of the user: its label and its text behind a bar.
pub open spec fn user_block(label: Seq<char>, body: Seq<char>) -> Seq<char> {
    let v = if body.len() == 0 {
        seq![Seq::empty()]
    } else {
        lines(body)
    };
    label + "\n"@ + join(barred(GREEN@, v), "\n"@)
}

pub fn render_user_message_block(label: &str, body: &str) -> (r: String)
    ensures
        r@ == user_block(label@, body@),
{
    let v = if body.is_empty() {
        one_empty_line()
    } else {
        lines_of(body)
    };
    label.to_owned().concat("\n").concat(bar_lines(GREEN, &v).as_str())
}

pub open spec fn message_label(m: StoredMessage) -> Seq<char> {
    if m.role == "user"@ {
        GREEN@ + "User"@ + RESET@
    } else if m.role == "assistant"@ {
        CYAN@ + "Assistant"@ + RESET@
    } else if m.role == "tool"@ {
        YELLOW@ + "Tool:"@ + RESET@ + " "@ + (match m.name {
            Some(n) => n,
            None => "Tool"@,
        })
    } else if m.role == "system"@ {
        MAGENTA@ + "System"@ + RESET@
    } else {
        DIM@ + m.role + RESET@
    }
}

pub fn session_message_label(message: &SessionMessage) -> (r: String)
    ensures
        r@ == message_label(message@),
{
    let role = message.role.as_str();
    if str_eq(role, "user") {
        painted(GREEN, "User")
    } else if str_eq(role, "assistant") {
        painted(CYAN, "Assistant")
    } else if str_eq(role, "tool") {
        let tag = painted(YELLOW, "Tool:").concat(" ");
        match &message.name {
            Some(n) => tag.concat(n.as_str()),
            None => tag.concat("Tool"),
        }
    } else if str_eq(role, "system") {
        painted(MAGENTA, "System")
    } else {
        painted(DIM, role)
    }
}

/// The width of the rules in a rendered text.
pub open spec fn rule_columns(width: Option<usize>) -> nat {
    match width {
        Some(w) => w as nat,
        None => RULE_WIDTH as nat,
    }
}

/// The parts of a message: its text, its calls and a note on its images.
pub open spec fn body_parts(m: StoredMessage, width: Option<usize>) -> Seq<Seq<char>> {
    let content = if m.content.len() > 0 {
        seq![message_text(m.content, rule_columns(width))]
    } else {
        Seq::empty()
    };
    let calls = if m.tool_calls.len() > 0 {
        seq![DIM@ + "tool calls"@ + RESET@ + "\n"@ + join(call_bullets(m.tool_calls), "\n"@)]
    } else {
        Seq::empty()
    };
    let images = if m.images.len() > 0 {
        seq![DIM@ + "["@ + decimal(m.images.len()) + " image(s) attached]"@ + RESET@]
    } else {
        Seq::empty()
    };
    let all = content + calls + images;
    if all.len() == 0 && m.tool_call_id is Some {
        seq![DIM@ + "[empty tool result]"@ + RESET@]
    } else {
        all
    }
}

pub open spec fn message_body(m: StoredMessage, width: Option<usize>) -> Seq<char> {
    join(body_parts(m, width), "\n"@)
}

pub fn render_session_message_body(
    config: &AppConfig,
    message: &SessionMessage,
    width: Option<usize>,
) -> (r: String)
    ensures
        r@ == message_body(message@, width),
{
    let collapse = flag_or(config.defaults.collapse_thinking, false);
    let mut parts: Vec<String> = Vec::new();
    proof {
        assert(texts(parts@) =~= Seq::<Seq<char>>::empty());
        assert(image_views(message.images@).len() == message.images@.len());
        assert(jsons(message.tool_calls@).len() == message.tool_calls@.len());
    }
    if !message.content.as_str().is_empty() {
        let part = match width {
            Some(w) => render_markdown_with_width(message.content.as_str(), collapse, w),
            None => render_markdown(message.content.as_str(), collapse),
        };
        proof {
            lemma_texts_push(parts@, part);
        }
        parts.push(part);
    }
    if message.tool_calls.len() > 0 {
        let part = painted(DIM, "tool calls").concat("\n").concat(
            render_call_bullets(&message.tool_calls).as_str(),
        );
        proof {
            lemma_texts_push(parts@, part);
        }
        parts.push(part);
    }
    if message.images.len() > 0 {
        let part = DIM.to_owned().concat("[").concat(
            decimal_string(message.images.len() as u64).as_str(),
        ).concat(" image(s) attached]").concat(RESET);
        proof {
            lemma_texts_push(parts@, part);
        }
        parts.push(part);
    }
    if parts.len() == 0 && message.tool_call_id.is_some() {
        let part = painted(DIM, "[empty tool result]");
        proof {
            lemma_texts_push(parts@, part);
        }
        parts.push(part);
    }
    proof {
        assert(texts(parts@) =~= body_parts(message@, width));
    }
    join_strings(&parts, "\n")
}

/// A message as it is shown.
pub open spec fn shown_message(m: StoredMessage, width: Option<usize>) -> Seq<char> {
    let body = message_body(m, width);
    if m.role == "user"@ {
        user_block(message_label(m), body)
    } else if body.len() == 0 {
        message_label(m)
    } else {
        message_label(m) + "\n"@ + body
    }
}

pub fn render_session_message(
    config: &AppConfig,
    message: &SessionMessage,
    width: Option<usize>,
) -> (r: String)
    ensures
        r@ == shown_message(message@, width),
{
    let label = session_message_label(message);
    let body = render_session_message_body(config, message, width);
    if str_eq(message.role.as_str(), "user") {
        render_user_message_block(label.as_str(), body.as_str())
    } else if body.as_str().is_empty() {
        label
    } else {
        label.concat("\n").concat(body.as_str())
    }
}

/// What stands between two turns.
pub open spec fn turn_rule() -> Seq<char> {
    "\n\n"@ + DIM@ + repeat("─"@, 56) + RESET@ + "\n\n"@
}

pub fn turn_separator() -> (r: String)
    ensures
        r@ == turn_rule(),
{
    "\n\n".to_owned().concat(DIM).concat(repeat_str("─", 56).as_str()).concat(RESET).concat(
        "\n\n",
    )
}

pub open spec fn shown_turn(t: Seq<StoredMessage>, width: Option<usize>) -> Seq<char> {
    join(t.map_values(|m: StoredMessage| shown_message(m, width)), "\n\n"@)
}

/// The last turns as they are shown, or all of them.
pub open spec fn shown_turns(
    v: Seq<Seq<StoredMessage>>,
    last: Option<usize>,
    width: Option<usize>,
) -> Seq<char> {
    let kept = match last {
        Some(n) => if v.len() > n {
            v.skip(v.len() - n)
        } else {
            v
        },
        None => v,
    };
    join(kept.map_values(|t: Seq<StoredMessage>| shown_turn(t, width)), turn_rule())
}

fn render_turn(config: &AppConfig, turn: &Vec<SessionMessage>, width: Option<usize>) -> (r: String)
    ensures
        r@ == shown_turn(stored_messages(turn@), width),
{
    let ghost src = stored_messages(turn@);
    let ghost goal = src.map_values(|m: StoredMessage| shown_message(m, width));
    let mut out: Vec<String> = Vec::new();
    let mut i: usize = 0;
    proof {
        assert(texts(out@) =~= goal.take(0));
    }
    while i < turn.len()
        invariant
            i <= turn@.len(),
            src == stored_messages(turn@),
            goal == src.map_values(|m: StoredMessage| shown_message(m, width)),
            texts(out@) == goal.take(i as int),
        decreases turn@.len() - i,
    {
        let part = render_session_message(config, &turn[i], width);
        proof {
            assert(src[i as int] == turn@[i as int]@);
            lemma_take_step(goal, i as int);
            lemma_texts_push(out@, part);
        }
        out.push(part);
        i = i + 1;
    }
    proof {
        lemma_take_full(goal);
    }
    join_strings(&out, "\n\n")
}

pub fn render_session_turns_with_width(
    config: &AppConfig,
    turns: &Vec<Vec<SessionMessage>>,
    last: Option<usize>,
    width: Option<usize>,
) -> (r: String)
    ensures
        r@ == shown_turns(turn_views(turns@), last, width),
{
    let n: usize = turns.len();
    let start: usize = match last {
        Some(k) => n.saturating_sub(k),
        None => 0,
    };
    let ghost kept = turn_views(turns@).skip(start as int);
    let ghost goal = kept.map_values(|t: Seq<StoredMessage>| shown_turn(t, width));
    let mut out: Vec<String> = Vec::new();
    let mut i: usize = start;
    proof {
        assert(texts(out@) =~= goal.take(0));
    }
    while i < n
        invariant
            start <= i <= n,
            n == turns@.len(),
            kept == turn_views(turns@).skip(start as int),
            goal == kept.map_values(|t: Seq<StoredMessage>| shown_turn(t, width)),
            texts(out@) == goal.take(i - start),
        decreases n - i,
    {
        let part = render_turn(config, &turns[i], width);
        proof {
            assert(kept[i - start] == stored_messages(turns@[i as int]@));
            lemma_take_step(goal, i - start);
            lemma_texts_push(out@, part);
        }
        out.push(part);
        i = i + 1;
    }
    proof {
        lemma_take_full(goal);
        assert(turn_views(turns@).skip(0) =~= turn_views(turns@));
    }
    join_strings(&out, turn_separator().as_str())
}

pub fn render_session_turns(
    config: &AppConfig,
    turns: &Vec<Vec<SessionMessage>>,
    last: Option<usize>,
) -> (r: String)
    ensures
        r@ == shown_turns(turn_views(turns@), last, None),
{
    render_session_turns_with_width(config, turns, last, None)
}

/// A session as the interactive screen shows it.
pub open spec fn shown_history(events: Seq<StoredEvent>, width: nat) -> Seq<char> {
    shown_turns(spoken_turns(turns(events)), None, Some(width as usize))
}

pub fn render_repl_session_history(config: &AppConfig, events: &[SessionEvent], width: usize) -> (r:
    String)
    ensures
        r@ == shown_history(event_views(events@), width as nat),
{
    let all = session_turns_from_events(events);
    let spoken = filter_session_turns_for_repl(&all);
    render_session_turns_with_width(config, &spoken, None, Some(width))
}

// ---------------------------------------------------------------------------
// Lists
// ---------------------------------------------------------------------------

/// An entry of the list of sessions.
pub open spec fn session_entry(s: SummaryView) -> Seq<char> {
    (if s.is_current {
        "* "@
    } else {
        "  "@
    }) + short(s.session_id) + (if s.is_temp {
        " [temp]"@
    } else {
        ""@
    }) + " "@ + printed_json(
        JsonView::Str(
            match s.first_prompt {
                Some(p) => p,
                None => ""@,
            },
        ),
    ) + " "@ + DIM@ + "· "@ + decimal(s.user_messages) + "u/"@ + decimal(s.assistant_messages)
        + "a · updated="@ + decimal(
        match s.updated_at {
            Some(t) => t as nat,
            None => 0,
        },
    ) + RESET@
}

pub fn format_session_list_entry(summary: &SessionSummary) -> (r: String)
    ensures
        r@ == session_entry(summary@),
{
    let marker = if summary.is_current {
        "* "
    } else {
        "  "
    };
    let temp_tag = if summary.is_temp {
        " [temp]"
    } else {
        ""
    };
    let prompt = match &summary.first_prompt {
        Some(p) => print_json(&json_text(p.as_str())),
        None => print_json(&json_text("")),
    };
    let updated: u64 = match summary.updated_at {
        Some(t) => t,
        None => 0,
    };
    marker.to_owned().concat(short_id(summary.session_id.as_str()).as_str()).concat(
        temp_tag,
    ).concat(" ").concat(prompt.as_str()).concat(" ").concat(DIM).concat("· ").concat(
        decimal_string(summary.user_messages as u64).as_str(),
    ).concat("u/").concat(decimal_string(summary.assistant_messages as u64).as_str()).concat(
        "a · updated=",
    ).concat(decimal_string(updated).as_str()).concat(RESET)
}

} // verus!
