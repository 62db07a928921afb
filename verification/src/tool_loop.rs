//! The rounds in which a model calls tools.

use crate::actions::{add_path, with_path};
use crate::activity::{discovered, discovered_by_call};
use crate::chat::{
    ChatMessage, ChatRequest, ChatResponse, MessageView, clone_messages, lemma_messages_push,
    message_views, plain_message,
};
use crate::config::{AppConfig, flag_or, or_flag};
use crate::error::{AppError, AppResult, EXIT_ARGS, Failure, failure};
use crate::json::{Json, JsonView, clone_list, jsons};
use crate::session::contains_string;
use crate::table::{ascending, lemma_text_lt_total, lemma_text_lt_transitive, text_lt};
use crate::text::{decimal, decimal_string, lemma_take_full, lemma_take_step, texts};
use crate::tools::{
    CallView, ToolCall, call_of, call_result, definitions_for, loads_progressively,
    parse_tool_call, tool_definitions_for_names,
};
use vstd::prelude::*;

verus! {

/// What comes after a reply of the model.
#[derive(Debug, Clone, Copy, PartialEq, Eq, Structural)]
pub enum RoundStep {
    /// The reply is the answer.
    Final,
    /// Its calls are to be made.
    Calls,
}

/// Whether a round is streamed: whenever that was asked for.
pub fn should_stream_tool_round(_request: &ChatRequest, requested_stream: bool, _round: usize) -> (r:
    bool)
    ensures
        r == requested_stream,
{
    requested_stream
}

/// A conversation in which a model calls tools.
#[derive(Debug)]
pub struct ToolLoop {
    /// The conversation.
    pub messages: Vec<ChatMessage>,
    /// The names of the tools that were found on the way, in order and each once.
    pub loaded: Vec<String>,
    /// The rounds that are over, and how many there may be.
    pub round: usize,
    pub max_rounds: usize,
    /// Where the question of this turn stands in the conversation.
    pub turn_start: usize,
}

pub struct LoopView {
    pub messages: Seq<MessageView>,
    pub loaded: Seq<Seq<char>>,
    pub round: nat,
    pub max_rounds: nat,
    pub turn_start: nat,
}

impl View for ToolLoop {
    type V = LoopView;

    open spec fn view(&self) -> LoopView {
        LoopView {
            messages: message_views(self.messages@),
            loaded: texts(self.loaded@),
            round: self.round as nat,
            max_rounds: self.max_rounds as nat,
            turn_start: self.turn_start as nat,
        }
    }
}

impl LoopView {
    pub open spec fn wf(self) -> bool {
        &&& self.round <= self.max_rounds
        &&& self.turn_start <= self.messages.len()
        &&& ascending(self.loaded)
    }
}

pub open spec fn most_rounds(c: AppConfig) -> nat {
    match c.tools.max_rounds {
        Some(n) => n as nat,
        None => 20,
    }
}

pub open spec fn loop_start(messages: Seq<MessageView>, c: AppConfig) -> LoopView {
    LoopView {
        messages,
        loaded: Seq::empty(),
        round: 0,
        max_rounds: most_rounds(c),
        turn_start: if messages.len() == 0 {
            0
        } else {
            (messages.len() - 1) as nat
        },
    }
}

/// The conversation after the model called tools.
pub open spec fn called(l: LoopView, content: Seq<char>, calls: Seq<JsonView>) -> LoopView {
    LoopView {
        messages: l.messages.push(
            MessageView { tool_calls: Some(calls), ..plain_message("assistant"@, content) },
        ),
        round: l.round + 1,
        ..l
    }
}

/// Names in order with one more, unless it is there.
pub open spec fn with_name(v: Seq<Seq<char>>, n: Seq<char>) -> Seq<Seq<char>> {
    if v.contains(n) {
        v
    } else {
        with_path(v, n)
    }
}

pub open spec fn with_names(v: Seq<Seq<char>>, names: Seq<Seq<char>>) -> Seq<Seq<char>>
    decreases names.len(),
{
    if names.len() == 0 {
        v
    } else {
        with_name(with_names(v, names.drop_last()), names.last())
    }
}

/// The conversation once the tools that a call finds are known. They are noted only where the
/// configuration asks for loading on the way.
pub open spec fn found(l: LoopView, c: AppConfig, call: Result<CallView, Failure>) -> LoopView {
    if or_flag(c.tools.progressive_loading, false) {
        LoopView { loaded: with_names(l.loaded, discovered(call)), ..l }
    } else {
        l
    }
}

pub open spec fn too_many_rounds(max: nat) -> Failure {
    failure(EXIT_ARGS, "max tool calling rounds ("@ + decimal(max) + ") exceeded"@)
}

proof fn lemma_with_path_ascends(v: Seq<Seq<char>>, p: Seq<char>)
    requires
        ascending(v),
        !v.contains(p),
    ensures
        ascending(with_path(v, p)),
        forall|i: int|
            0 <= i < with_path(v, p).len() ==> (#[trigger] with_path(v, p)[i]) == p || v.contains(
                with_path(v, p)[i],
            ),
    decreases v.len(),
{
    let r = with_path(v, p);
    if v.len() > 0 && text_lt(p, v.last()) {
        let w = v.drop_last();
        assert(ascending(w)) by {
            assert forall|i: int, j: int| 0 <= i < j < w.len() implies #[trigger] text_lt(
                w[i],
                w[j],
            ) by {
                assert(text_lt(v[i], v[j]));
            }
        }
        assert(!w.contains(p)) by {
            if w.contains(p) {
                let k = w.index_of(p);
                assert(v[k] == p);
            }
        }
        lemma_with_path_ascends(w, p);
        let q = with_path(w, p);
        assert forall|i: int| 0 <= i < r.len() implies (#[trigger] r[i]) == p || v.contains(
            r[i],
        ) by {
            if i < r.len() - 1 {
                assert(r[i] == q[i]);
                if q[i] != p {
                    let k = w.index_of(q[i]);
                    assert(v[k] == r[i]);
                }
            } else {
                assert(v[v.len() - 1] == r[i]);
            }
        }
        assert forall|i: int, j: int| 0 <= i < j < r.len() implies #[trigger] text_lt(
            r[i],
            r[j],
        ) by {
            if j < r.len() - 1 {
                assert(text_lt(q[i], q[j]));
            } else {
                assert(r[i] == q[i]);
                assert(r[j] == v.last());
                if q[i] != p {
                    let k = w.index_of(q[i]);
                    assert(text_lt(v[k], v[v.len() - 1]));
                }
            }
        }
    } else {
        assert forall|i: int| 0 <= i < r.len() implies (#[trigger] r[i]) == p || v.contains(
            r[i],
        ) by {
            if i < v.len() {
                assert(v[i] == r[i]);
            }
        }
        assert forall|i: int, j: int| 0 <= i < j < r.len() implies #[trigger] text_lt(
            r[i],
            r[j],
        ) by {
            if j < v.len() {
                assert(text_lt(v[i], v[j]));
            } else {
                assert(v.contains(v[v.len() - 1]));
                lemma_text_lt_total(v.last(), p);
                if i < v.len() - 1 {
                    assert(text_lt(v[i], v[v.len() - 1]));
                    lemma_text_lt_transitive(v[i], v.last(), p);
                }
            }
        }
    }
}

proof fn lemma_with_names_ascends(v: Seq<Seq<char>>, names: Seq<Seq<char>>)
    requires
        ascending(v),
    ensures
        ascending(with_names(v, names)),
    decreases names.len(),
{
    if names.len() > 0 {
        lemma_with_names_ascends(v, names.drop_last());
        let before = with_names(v, names.drop_last());
        if !before.contains(names.last()) {
            lemma_with_path_ascends(before, names.last());
        }
    }
}

fn add_names(loaded: &mut Vec<String>, names: &Vec<String>)
    ensures
        texts(final(loaded)@) == with_names(texts(old(loaded)@), texts(names@)),
{
    let ghost start = texts(loaded@);
    let ghost src = texts(names@);
    let mut i: usize = 0;
    while i < names.len()
        invariant
            i <= names@.len(),
            src == texts(names@),
            texts(loaded@) == with_names(start, src.take(i as int)),
        decreases names@.len() - i,
    {
        proof {
            lemma_take_step(src, i as int);
            assert(src[i as int] == names@[i as int]@);
        }
        if !contains_string(loaded, names[i].as_str()) {
            add_path(loaded, names[i].clone());
        }
        i = i + 1;
    }
    proof {
        lemma_take_full(src);
    }
}

impl ToolLoop {
    /// Starts with the messages of a request, of which the last is the question.
    pub fn start(messages: Vec<ChatMessage>, config: &AppConfig) -> (r: ToolLoop)
        ensures
            r@ == loop_start(message_views(messages@), *config),
            r@.wf(),
    {
        let max_rounds: usize = match config.tools.max_rounds {
            Some(n) => n as usize,
            None => 20,
        };
        let turn_start: usize = messages.len().saturating_sub(1);
        let r = ToolLoop { messages, loaded: Vec::new(), round: 0, max_rounds, turn_start };
        proof {
            assert(texts(r.loaded@) =~= Seq::<Seq<char>>::empty());
            assert(message_views(r.messages@).len() == r.messages@.len());
        }
        r
    }

    /// Whether the model may be asked once more.
    pub fn may_ask(&self) -> (r: bool)
        ensures
            r == (self@.round < self@.max_rounds),
    {
        self.round < self.max_rounds
    }

    /// The error when it may not.
    pub fn exceeded(&self) -> (r: AppError)
        ensures
            r@ == too_many_rounds(self@.max_rounds),
    {
        let message = "max tool calling rounds (".to_owned().concat(
            decimal_string(self.max_rounds as u64).as_str(),
        ).concat(") exceeded");
        AppError::new(EXIT_ARGS, message.as_str())
    }

    /// The tools that the model is offered in the next round.
    pub fn round_tools(&self, config: &AppConfig, skills_dir: &str) -> (r: Vec<Json>)
        ensures
            jsons(r@) == definitions_for(
                loads_progressively(*config),
                self@.loaded,
                skills_dir@,
            ),
    {
        tool_definitions_for_names(config, &self.loaded, skills_dir)
    }

    /// Takes the calls of the model into the conversation.
    pub fn take_calls(&mut self, content: &str, calls: &Vec<Json>)
        requires
            old(self)@.wf(),
            old(self)@.round < old(self)@.max_rounds,
        ensures
            final(self)@ == called(old(self)@, content@, jsons(calls@)),
            final(self)@.wf(),
    {
        let mut message = ChatMessage::plain("assistant", content.to_owned());
        message.tool_calls = Some(clone_list(calls));
        proof {
            lemma_messages_push(self.messages@, message);
        }
        self.messages.push(message);
        self.round = self.round + 1;
    }

    /// Takes a reply: one without calls is the answer and ends the rounds, else its calls go into
    /// the conversation.
    pub fn take_reply(&mut self, reply: &ChatResponse) -> (r: RoundStep)
        requires
            old(self)@.wf(),
            old(self)@.round < old(self)@.max_rounds,
        ensures
            r == if reply.tool_calls@.len() == 0 {
                RoundStep::Final
            } else {
                RoundStep::Calls
            },
            final(self)@ == match r {
                RoundStep::Final => old(self)@,
                RoundStep::Calls => called(
                    old(self)@,
                    reply.content@,
                    jsons(reply.tool_calls@),
                ),
            },
            final(self)@.wf(),
    {
        if reply.tool_calls.len() == 0 {
            return RoundStep::Final;
        }
        self.take_calls(reply.content.as_str(), &reply.tool_calls);
        RoundStep::Calls
    }

    /// Notes the tools that a call finds, given the call that a value stands for.
    pub fn note_call(&mut self, config: &AppConfig, call: &AppResult<ToolCall>)
        requires
            old(self)@.wf(),
        ensures
            final(self)@ == found(old(self)@, *config, call_result(*call)),
            final(self)@.wf(),
    {
        if flag_or(config.tools.progressive_loading, false) {
            let names = discovered_by_call(call);
            proof {
                lemma_with_names_ascends(texts(self.loaded@), texts(names@));
            }
            add_names(&mut self.loaded, &names);
        }
    }

    /// Notes the tools that a call finds.
    pub fn note_found(&mut self, config: &AppConfig, raw_call: &Json)
        requires
            old(self)@.wf(),
        ensures
            final(self)@ == found(old(self)@, *config, call_of(raw_call@)),
            final(self)@.wf(),
    {
        let call = parse_tool_call(raw_call);
        self.note_call(config, &call);
    }

    /// Takes the answer to a call into the conversation.
    pub fn answer(&mut self, message: ChatMessage)
        requires
            old(self)@.wf(),
        ensures
            final(self)@ == (LoopView {
                messages: old(self)@.messages.push(message@),
                ..old(self)@
            }),
            final(self)@.wf(),
    {
        proof {
            lemma_messages_push(self.messages@, message);
        }
        self.messages.push(message);
    }

    /// The messages of this turn, from the question on.
    pub fn turn(&self) -> (r: Vec<ChatMessage>)
        requires
            self@.wf(),
        ensures
            message_views(r@) == self@.messages.skip(self@.turn_start as int),
    {
        let n: usize = self.messages.len();
        proof {
            assert(message_views(self.messages@).len() == n);
        }
        let part = vstd::slice::slice_subrange(self.messages.as_slice(), self.turn_start, n);
        let r = clone_messages(part);
        proof {
            assert(message_views(part@) =~= self@.messages.skip(self@.turn_start as int));
        }
        r
    }
}

/// The conversation after all calls of a round were answered.
pub open spec fn answered(l: LoopView, content: Seq<char>, calls: Seq<JsonView>, answers: Seq<
    MessageView,
>) -> Seq<MessageView> {
    called(l, content, calls).messages + answers
}

/// However many rounds there are, the question of the turn stays where it was and everything
/// before it stays as it was.
pub proof fn law_calls_keep_question(
    l: LoopView,
    content: Seq<char>,
    calls: Seq<JsonView>,
    answers: Seq<MessageView>,
)
    requires
        l.wf(),
        l.turn_start < l.messages.len(),
    ensures
        answered(l, content, calls, answers).take(l.messages.len() as int) == l.messages,
        answered(l, content, calls, answers)[l.turn_start as int] == l.messages[l.turn_start as int],
{
    assert(answered(l, content, calls, answers).take(l.messages.len() as int) =~= l.messages);
}

proof fn lemma_with_path_has(v: Seq<Seq<char>>, p: Seq<char>, n: Seq<char>)
    requires
        v.contains(n) || n == p,
    ensures
        with_path(v, p).contains(n),
    decreases v.len(),
{
    let r = with_path(v, p);
    if v.len() > 0 && text_lt(p, v.last()) {
        let w = v.drop_last();
        if n == v.last() {
            assert(r[r.len() - 1] == n);
        } else {
            if n != p {
                let k = v.index_of(n);
                assert(w[k] == n);
            }
            lemma_with_path_has(w, p, n);
            let k = with_path(w, p).index_of(n);
            assert(r[k] == n);
        }
    } else if n == p {
        assert(r[r.len() - 1] == n);
    } else {
        let k = v.index_of(n);
        assert(r[k] == n);
    }
}

/// A tool that was found stays loaded, and every tool that a search finds is.
pub proof fn law_found_tools_stay(v: Seq<Seq<char>>, names: Seq<Seq<char>>, n: Seq<char>)
    requires
        v.contains(n) || names.contains(n),
    ensures
        with_names(v, names).contains(n),
    decreases names.len(),
{
    if names.len() > 0 {
        let before = with_names(v, names.drop_last());
        let last = names.last();
        if n != last && !v.contains(n) {
            let k = names.index_of(n);
            assert(names.drop_last()[k] == n);
        }
        if n != last || v.contains(n) {
            law_found_tools_stay(v, names.drop_last(), n);
        }
        if !before.contains(last) {
            lemma_with_path_has(before, last, n);
        }
    }
}

} // verus!
