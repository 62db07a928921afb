//! What reading a reply is for: whatever kind of provider answers, nothing that it said is lost,
//! changed or put in another place.

use crate::chat::{ChunkView, ReplyView};
use crate::error::Failure;
use crate::json::{JsonView, field_from};
use crate::reply::{
    DraftCall, Gathered, ReplyOrigin, anthropic_chunk, anthropic_reply, call_json,
    calls_with_all, empty_call, gather, grown, ollama_chunk, ollama_reply, openai_chunk,
    openai_reply, parts_text, payload_effect, reply_of_text, text_parts,
};
use crate::session::{Usage, no_usage};
use crate::text::{is_blank, join, trimmed};
use vstd::prelude::*;

verus! {

/// Whether an OpenAI-compatible message comes without reasoning.
pub open spec fn says_no_reasoning(message: JsonView) -> bool {
    &&& !(message.at("reasoning_content"@) is Str)
    &&& !(message.at("reasoning_content"@) is Array)
    &&& !(message.at("reasoning"@) is Str)
    &&& !(message.at("reasoning"@) is Array)
}

/// The content of an OpenAI-compatible reply ends with what the message says, and is just that
/// where there is no reasoning.
pub proof fn law_whole_reply_keeps_answer(o: ReplyOrigin, raw: JsonView, t: Seq<char>)
    requires
        raw.at("choices"@).nth(0).at("message"@).at("content"@) == JsonView::Str(t),
        !is_blank(t),
    ensures
        t.is_suffix_of(openai_reply(o, raw).content),
        says_no_reasoning(raw.at("choices"@).nth(0).at("message"@)) ==> openai_reply(
            o,
            raw,
        ).content == t,
{
    let c = openai_reply(o, raw).content;
    assert(c.subrange(c.len() - t.len(), c.len() as int) =~= t);
}

/// Reasoning, under either of its names, stands whole in a thinking block in front of the answer;
/// reasoning or an answer that is blank leaves nothing behind.
pub proof fn law_whole_reply_keeps_reasoning(
    o: ReplyOrigin,
    raw: JsonView,
    r: Seq<char>,
    t: Seq<char>,
)
    requires
        ({
            let message = raw.at("choices"@).nth(0).at("message"@);
            &&& message.at("content"@) == JsonView::Str(t)
            &&& message.at("reasoning_content"@) == JsonView::Str(r) || (message.at(
                "reasoning_content"@,
            ) is Null && message.at("reasoning"@) == JsonView::Str(r))
        }),
    ensures
        !is_blank(r) && !is_blank(t) ==> openai_reply(o, raw).content == "<think>\n"@ + r
            + "\n</think>\n\n"@ + t,
        !is_blank(r) && is_blank(t) ==> openai_reply(o, raw).content == "<think>\n"@ + r
            + "\n</think>"@,
        is_blank(r) && !is_blank(t) ==> openai_reply(o, raw).content == t,
        is_blank(r) && is_blank(t) ==> openai_reply(o, raw).content.len() == 0,
{
}

/// A content in parts says what its parts say, one after the other.
pub proof fn law_whole_reply_joins_parts(
    o: ReplyOrigin,
    raw: JsonView,
    parts: Seq<JsonView>,
    said: Seq<Seq<char>>,
)
    requires
        raw.at("choices"@).nth(0).at("message"@).at("content"@) == JsonView::Array(parts),
        says_no_reasoning(raw.at("choices"@).nth(0).at("message"@)),
        parts.len() == said.len(),
        forall|i: int|
            0 <= i < parts.len() ==> (#[trigger] parts[i]).at("text"@) == JsonView::Str(said[i]) || (
            !(parts[i].at("text"@) is Str) && parts[i].at("content"@) == JsonView::Str(said[i])),
        !is_blank(join(said, Seq::empty())),
    ensures
        openai_reply(o, raw).content == join(said, Seq::empty()),
{
    lemma_parts_joined(parts, said);
    if join(said, Seq::empty()).len() == 0 {
        assert(is_blank(join(said, Seq::empty())));
    }
}

proof fn lemma_parts_joined(parts: Seq<JsonView>, said: Seq<Seq<char>>)
    requires
        parts.len() == said.len(),
        forall|i: int|
            0 <= i < parts.len() ==> (#[trigger] parts[i]).at("text"@) == JsonView::Str(said[i]) || (
            !(parts[i].at("text"@) is Str) && parts[i].at("content"@) == JsonView::Str(said[i])),
    ensures
        parts_text(parts) == join(said, Seq::empty()),
    decreases parts.len(),
{
    if parts.len() > 0 {
        let p = parts.drop_last();
        let s = said.drop_last();
        assert forall|i: int| 0 <= i < p.len() implies (#[trigger] p[i]).at("text"@)
            == JsonView::Str(s[i]) || (!(p[i].at("text"@) is Str) && p[i].at("content"@)
            == JsonView::Str(s[i])) by {
            assert(p[i] == parts[i]);
        }
        lemma_parts_joined(p, s);
        assert(parts.last() == parts[parts.len() - 1]);
        assert(join(said, Seq::empty()) =~= join(s, Seq::empty()) + said.last());
    }
}

/// What else an OpenAI-compatible reply tells is taken over from where it stands: its tool calls,
/// its reason to finish and its usage; who answered is who was asked.
pub proof fn law_whole_reply_keeps_rest(
    o: ReplyOrigin,
    raw: JsonView,
    calls: Seq<JsonView>,
    reason: Seq<char>,
    n: u64,
)
    ensures
        ({
            let r = openai_reply(o, raw);
            let choice = raw.at("choices"@).nth(0);
            let usage = raw.at("usage"@);
            &&& r.provider_id == o.provider_id@
            &&& r.model_id == o.model_id@
            &&& r.latency_ms == o.latency_ms
            &&& r.raw == raw
            &&& choice.at("message"@).at("tool_calls"@) == JsonView::Array(calls) ==> r.tool_calls
                == calls
            &&& choice.at("message"@).at("tool_calls"@) is Null ==> r.tool_calls.len() == 0
            &&& choice.at("finish_reason"@) == JsonView::Str(reason) ==> r.finish_reason == reason
            &&& choice.at("finish_reason"@) is Null ==> r.finish_reason == "stop"@
            &&& usage.at("prompt_tokens"@) == JsonView::Unsigned(n) ==> r.usage.input_tokens
                == Some(n)
            &&& usage.at("completion_tokens"@) == JsonView::Unsigned(n)
                ==> r.usage.output_tokens == Some(n)
            &&& usage.at("total_tokens"@) == JsonView::Unsigned(n) ==> r.usage.total_tokens
                == Some(n)
            &&& usage is Null ==> r.usage == no_usage()
        }),
{
}

/// A reply of Anthropic says what its text parts say, one after the other, and fails only where
/// they say nothing.
pub proof fn law_anthropic_reply_joins_texts(
    o: ReplyOrigin,
    raw: JsonView,
    parts: Seq<JsonView>,
    said: Seq<Seq<char>>,
)
    requires
        raw.at("content"@) == JsonView::Array(parts),
        parts.len() == said.len(),
        forall|i: int|
            0 <= i < parts.len() ==> if (#[trigger] parts[i]).at("type"@) == JsonView::Str(
                "text"@,
            ) {
                parts[i].at("text"@) == JsonView::Str(said[i])
            } else {
                said[i].len() == 0
            },
    ensures
        join(said, Seq::empty()).len() > 0 ==> (anthropic_reply(o, raw) matches Ok(r) && r.content
            == join(said, Seq::empty())),
        join(said, Seq::empty()).len() == 0 ==> anthropic_reply(o, raw) is Err,
{
    lemma_texts_joined(parts, said);
}

proof fn lemma_texts_joined(parts: Seq<JsonView>, said: Seq<Seq<char>>)
    requires
        parts.len() == said.len(),
        forall|i: int|
            0 <= i < parts.len() ==> if (#[trigger] parts[i]).at("type"@) == JsonView::Str(
                "text"@,
            ) {
                parts[i].at("text"@) == JsonView::Str(said[i])
            } else {
                said[i].len() == 0
            },
    ensures
        text_parts(parts) == join(said, Seq::empty()),
    decreases parts.len(),
{
    if parts.len() > 0 {
        let p = parts.drop_last();
        let s = said.drop_last();
        assert forall|i: int| 0 <= i < p.len() implies if (#[trigger] p[i]).at("type"@)
            == JsonView::Str("text"@) {
            p[i].at("text"@) == JsonView::Str(s[i])
        } else {
            s[i].len() == 0
        } by {
            assert(p[i] == parts[i]);
        }
        lemma_texts_joined(p, s);
        assert(parts.last() == parts[parts.len() - 1]);
        assert(join(said, Seq::empty()) =~= join(s, Seq::empty()) + said.last());
        if said.last().len() == 0 {
            assert(said.last() =~= Seq::<char>::empty());
        }
    }
}

/// What else a reply of Anthropic or of Ollama tells is taken over from where it stands.
pub proof fn law_other_replies_keep_rest(
    o: ReplyOrigin,
    raw: JsonView,
    t: Seq<char>,
    a: u64,
    b: u64,
)
    ensures
        anthropic_reply(o, raw) matches Ok(r) ==> {
            let usage = raw.at("usage"@);
            &&& r.provider_id == o.provider_id@
            &&& r.model_id == o.model_id@
            &&& r.latency_ms == o.latency_ms
            &&& r.raw == raw
            &&& r.tool_calls.len() == 0
            &&& raw.at("stop_reason"@) == JsonView::Str(t) ==> r.finish_reason == t
            &&& raw.at("stop_reason"@) is Null ==> r.finish_reason == "end_turn"@
            &&& usage.at("input_tokens"@) == JsonView::Unsigned(a) ==> r.usage.input_tokens
                == Some(a)
            &&& usage.at("output_tokens"@) == JsonView::Unsigned(b) ==> r.usage.output_tokens
                == Some(b)
            &&& usage.at("input_tokens"@) == JsonView::Unsigned(a) && usage.at("output_tokens"@)
                == JsonView::Unsigned(b) && a + b <= u64::MAX ==> r.usage.total_tokens == Some(
                (a + b) as u64,
            )
        },
        raw.at("message"@).at("content"@) == JsonView::Str(t) ==> (ollama_reply(o, raw) matches Ok(
            r,
        ) && r.content == t),
        !(raw.at("message"@).at("content"@) is Str) ==> ollama_reply(o, raw) is Err,
        ollama_reply(o, raw) matches Ok(r) ==> {
            &&& r.provider_id == o.provider_id@
            &&& r.model_id == o.model_id@
            &&& r.latency_ms == o.latency_ms
            &&& r.raw == raw
            &&& r.tool_calls.len() == 0
            &&& raw.at("done_reason"@) == JsonView::Str(t) ==> r.finish_reason == t
            &&& raw.at("done_reason"@) is Null ==> r.finish_reason == "stop"@
            &&& raw.at("prompt_eval_count"@) == JsonView::Unsigned(a) ==> r.usage.input_tokens
                == Some(a)
            &&& raw.at("eval_count"@) == JsonView::Unsigned(b) ==> r.usage.output_tokens == Some(b)
            &&& raw.at("prompt_eval_count"@) == JsonView::Unsigned(a) && raw.at("eval_count"@)
                == JsonView::Unsigned(b) && a + b <= u64::MAX ==> r.usage.total_tokens == Some(
                (a + b) as u64,
            )
        },
{
}

/// A status that is no success is never read as a reply, and neither is a text that is no JSON;
/// a success is read as its kind of provider answers.
pub proof fn law_reply_needs_success(
    kind: Seq<char>,
    o: ReplyOrigin,
    status: u16,
    text: Seq<char>,
    parsed: Result<JsonView, Seq<char>>,
)
    ensures
        ({
            let r = reply_of_text(kind, o, status, text, parsed);
            &&& r is Ok ==> 200 <= status && status <= 299 && parsed is Ok && (kind
                == "openai_compatible"@ || kind == "anthropic"@ || kind == "ollama"@)
            &&& (200 <= status <= 299 && parsed is Ok && kind == "openai_compatible"@) ==> r
                == Ok::<ReplyView, Failure>(openai_reply(o, parsed->Ok_0))
            &&& (200 <= status <= 299 && parsed is Ok && kind == "anthropic"@) ==> r
                == anthropic_reply(o, parsed->Ok_0)
            &&& (200 <= status <= 299 && parsed is Ok && kind == "ollama"@) ==> r == ollama_reply(
                o,
                parsed->Ok_0,
            )
        }),
{
    reveal_strlit("openai_compatible");
    reveal_strlit("anthropic");
    reveal_strlit("ollama");
    assert("openai_compatible"@.len() == 17 && "anthropic"@.len() == 9 && "ollama"@.len() == 6);
}

/// Whether an event of an OpenAI-compatible stream has nothing but an answer in it.
pub open spec fn only_answers(raw: JsonView, t: Seq<char>) -> bool {
    let choice = raw.at("choices"@).nth(0);
    &&& choice.at("delta"@).at("content"@) == JsonView::Str(t)
    &&& says_no_reasoning(choice.at("delta"@))
    &&& choice.at("delta"@).at("tool_calls"@) is Null
    &&& choice.at("finish_reason"@) is Null
    &&& raw.at("usage"@) is Null
}

/// A piece of an answer is handed on and gathered as it came, whatever kind of provider streams
/// it; a control word is neither. Nothing else is changed by it.
pub proof fn law_streamed_answer_is_kept(
    g: Gathered,
    payload: Seq<char>,
    raw: JsonView,
    t: Seq<char>,
)
    requires
        !is_blank(payload),
        trimmed(payload) != "[DONE]"@,
        !g.in_reasoning,
    ensures
        only_answers(raw, t) && trimmed(t) != "FINISHED"@ ==> (payload_effect(
            "openai_compatible"@,
            g,
            payload,
            Ok(raw),
        ) matches Ok((h, Some(c))) && c.delta == t && h == (Gathered {
            content: g.content + t,
            raw_events: g.raw_events.push(raw),
            ..g
        })),
        only_answers(raw, t) && trimmed(t) == "FINISHED"@ ==> (payload_effect(
            "openai_compatible"@,
            g,
            payload,
            Ok(raw),
        ) matches Ok((h, Some(c))) && c.delta.len() == 0 && h.content == g.content),
        raw.at("type"@) == JsonView::Str("content_block_delta"@) && raw.at("delta"@).at("type"@)
            == JsonView::Str("text_delta"@) && raw.at("delta"@).at("text"@) == JsonView::Str(t)
            ==> (payload_effect("anthropic"@, g, payload, Ok(raw)) matches Ok((h, Some(c)))
            && c.delta == t && h == (Gathered {
            content: g.content + t,
            raw_events: g.raw_events.push(raw),
            ..g
        })),
        raw.at("message"@).at("content"@) == JsonView::Str(t) && raw.at("error"@) is Null
            && raw.at("done"@) is Null && raw.at("prompt_eval_count"@) is Null && raw.at(
            "eval_count"@,
        ) is Null ==> (payload_effect("ollama"@, g, payload, Ok(raw)) matches Ok((h, Some(c)))
            && c.delta == t && h == (Gathered {
            content: g.content + t,
            raw_events: g.raw_events.push(raw),
            ..g
        })),
{
    reveal_strlit("openai_compatible");
    reveal_strlit("anthropic");
    reveal_strlit("ollama");
    reveal_strlit("error");
    reveal_strlit("message_start");
    reveal_strlit("content_block_delta");
    assert("openai_compatible"@.len() == 17 && "anthropic"@.len() == 9 && "ollama"@.len() == 6);
    assert("error"@.len() == 5 && "message_start"@.len() == 13 && "content_block_delta"@.len()
        == 19);
    assert(Seq::<char>::empty() + t =~= t);
    assert(g.content + Seq::<char>::empty() =~= g.content);
}

/// Reasoning that is streamed is handed on in a thinking block, which the answer closes.
pub proof fn law_streamed_reasoning_is_kept(
    g: Gathered,
    payload: Seq<char>,
    raw: JsonView,
    r: Seq<char>,
)
    requires
        !is_blank(payload),
        trimmed(payload) != "[DONE]"@,
        raw.at("choices"@).nth(0).at("delta"@).at("content"@) is Null,
        raw.at("choices"@).nth(0).at("delta"@).at("reasoning_content"@) == JsonView::Str(r) || (
        raw.at("choices"@).nth(0).at("delta"@).at("reasoning_content"@) is Null && raw.at(
            "choices"@,
        ).nth(0).at("delta"@).at("reasoning"@) == JsonView::Str(r)),
        raw.at("choices"@).nth(0).at("delta"@).at("tool_calls"@) is Null,
        raw.at("choices"@).nth(0).at("finish_reason"@) is Null,
        r.len() > 0,
    ensures
        payload_effect("openai_compatible"@, g, payload, Ok(raw)) matches Ok((h, Some(c)))
            && h.in_reasoning && h.content == g.content + c.delta && c.delta == if g.in_reasoning {
            r
        } else {
            "<think>\n"@ + r
        },
{
    reveal_strlit("openai_compatible");
    reveal_strlit("anthropic");
    reveal_strlit("ollama");
    reveal_strlit("FINISHED");
    assert("openai_compatible"@.len() == 17 && "anthropic"@.len() == 9 && "ollama"@.len() == 6);
    assert(trimmed(Seq::<char>::empty()) =~= Seq::<char>::empty());
    assert("FINISHED"@.len() == 8);
    assert(r + Seq::<char>::empty() =~= r);
    assert("<think>\n"@ + r + Seq::<char>::empty() =~= "<think>\n"@ + r);
}

/// The pieces of a tool call, which come with its place, are put together in the order in which
/// they come, and no other call is touched.
pub proof fn law_call_pieces_are_joined(
    v: Seq<DraftCall>,
    d: JsonView,
    i: u64,
    id: Seq<char>,
    name: Seq<char>,
    arguments: Seq<char>,
    k: int,
)
    requires
        d.at("index"@) == JsonView::Unsigned(i),
        d.at("id"@) == JsonView::Str(id),
        d.at("function"@).at("name"@) == JsonView::Str(name),
        d.at("function"@).at("arguments"@) == JsonView::Str(arguments),
        0 <= k,
    ensures
        ({
            let w = calls_with_all(v, seq![d]);
            &&& i < w.len()
            &&& w[i as int].id == id
            &&& i < v.len() ==> w[i as int].name == v[i as int].name + name && w[i as int].arguments
                == v[i as int].arguments + arguments
            &&& i >= v.len() ==> w[i as int].name == name && w[i as int].arguments == arguments
            &&& k < v.len() && k != i ==> w[k] == v[k]
            &&& w.len() == if i < v.len() {
                v.len()
            } else {
                (i + 1) as nat
            }
        }),
{
    assert(seq![d].drop_last() =~= Seq::<JsonView>::empty());
    assert(calls_with_all(v, Seq::empty()) == v);
    lemma_grown(v, (i + 1) as nat);
    assert(Seq::<char>::empty() + name =~= name);
    assert(Seq::<char>::empty() + arguments =~= arguments);
}

proof fn lemma_grown(v: Seq<DraftCall>, len: nat)
    ensures
        grown(v, len).len() == if v.len() < len {
            len
        } else {
            v.len()
        },
        forall|k: int| 0 <= k < v.len() ==> #[trigger] grown(v, len)[k] == v[k],
        forall|k: int| v.len() <= k < len ==> #[trigger] grown(v, len)[k] == empty_call(),
    decreases len - v.len(),
{
    if v.len() < len {
        lemma_grown(v.push(empty_call()), len);
        let g = grown(v.push(empty_call()), len);
        assert forall|k: int| v.len() <= k < len implies #[trigger] grown(v, len)[k]
            == empty_call() by {
            if k == v.len() {
                assert(g[k] == v.push(empty_call())[k]);
            }
        }
        assert forall|k: int| 0 <= k < v.len() implies #[trigger] grown(v, len)[k] == v[k] by {
            assert(g[k] == v.push(empty_call())[k]);
        }
    }
}

/// Pieces of calls take effect one after the other.
pub proof fn law_call_pieces_come_in_order(v: Seq<DraftCall>, a: Seq<JsonView>, b: Seq<JsonView>)
    ensures
        calls_with_all(v, a + b) == calls_with_all(calls_with_all(v, a), b),
    decreases b.len(),
{
    if b.len() == 0 {
        assert(a + b =~= a);
    } else {
        law_call_pieces_come_in_order(v, a, b.drop_last());
        assert((a + b).drop_last() =~= a + b.drop_last());
    }
}

/// A call that was put together reads as it was: its identifier, name and arguments stand where a
/// call is read.
pub proof fn law_joined_call_reads_back(c: DraftCall)
    ensures
        call_json(c).at("id"@) == JsonView::Str(c.id),
        call_json(c).at("type"@) == JsonView::Str("function"@),
        call_json(c).at("function"@).at("name"@) == JsonView::Str(c.name),
        call_json(c).at("function"@).at("arguments"@) == JsonView::Str(c.arguments),
{
    reveal_strlit("id");
    reveal_strlit("type");
    reveal_strlit("function");
    reveal_strlit("name");
    reveal_strlit("arguments");
    reveal_with_fuel(field_from, 4);
    assert("id"@.len() == 2 && "type"@.len() == 4 && "function"@.len() == 8 && "name"@.len() == 4
        && "arguments"@.len() == 9);
}

/// A reason to finish and a usage that are streamed are the ones that the reply has in the end.
pub proof fn law_streamed_end_is_kept(g: Gathered, c: ChunkView, reason: Seq<char>, u: Usage)
    ensures
        c.finish_reason == Some(reason) ==> gather(g, c).finish_reason == reason,
        c.finish_reason is None ==> gather(g, c).finish_reason == g.finish_reason,
        c.usage is None ==> gather(g, c).usage == g.usage,
        c.usage == Some(u) && u.input_tokens is Some ==> gather(g, c).usage.input_tokens
            == u.input_tokens,
        c.usage == Some(u) && u.output_tokens is Some ==> gather(g, c).usage.output_tokens
            == u.output_tokens,
        c.usage == Some(u) && u.input_tokens is None ==> gather(g, c).usage.input_tokens
            == g.usage.input_tokens,
        c.usage == Some(u) && u.output_tokens is None ==> gather(g, c).usage.output_tokens
            == g.usage.output_tokens,
        gather(g, c).tool_calls == g.tool_calls,
{
}

/// What ends a stream is read from where it stands.
pub proof fn law_stream_end_is_read(raw: JsonView, reason: Seq<char>, n: u64, m: u64)
    ensures
        raw.at("choices"@).nth(0).at("finish_reason"@) == JsonView::Str(reason) ==> openai_chunk(
            raw,
        ).finish_reason == Some(reason),
        raw.at("choices"@).nth(0).at("finish_reason"@) is Null ==> openai_chunk(
            raw,
        ).finish_reason is None,
        raw.at("usage"@).at("prompt_tokens"@) == JsonView::Unsigned(n) ==> (openai_chunk(
            raw,
        ).usage matches Some(u) && u.input_tokens == Some(n)),
        raw.at("usage"@).at("completion_tokens"@) == JsonView::Unsigned(n) ==> (openai_chunk(
            raw,
        ).usage matches Some(u) && u.output_tokens == Some(n)),
        raw.at("usage"@).at("total_tokens"@) == JsonView::Unsigned(n) ==> (openai_chunk(
            raw,
        ).usage matches Some(u) && u.total_tokens == Some(n)),
        raw.at("type"@) == JsonView::Str("message_delta"@) && raw.at("delta"@).at("stop_reason"@)
            == JsonView::Str(reason) && raw.at("usage"@).at("output_tokens"@)
            == JsonView::Unsigned(n) && raw.at("usage"@).at("input_tokens"@) is Null ==> (
        anthropic_chunk(raw) matches Ok(Some(c)) && c.delta.len() == 0 && c.finish_reason == Some(
            reason,
        ) && (c.usage matches Some(u) && u.output_tokens == Some(n) && u.input_tokens is None)),
        raw.at("type"@) == JsonView::Str("message_start"@) && raw.at("message"@).at("usage"@).at(
            "input_tokens"@,
        ) == JsonView::Unsigned(n) && raw.at("message"@).at("usage"@).at("output_tokens"@)
            == JsonView::Unsigned(m) ==> (anthropic_chunk(raw) matches Ok(Some(c)) && c.delta.len()
            == 0 && c.finish_reason is None && (c.usage matches Some(u) && u.input_tokens == Some(n)
            && u.output_tokens == Some(m))),
        raw.at("type"@) == JsonView::Str("error"@) ==> anthropic_chunk(raw) is Err,
        raw.at("error"@) == JsonView::Str(reason) ==> (ollama_chunk(raw) matches Err(f)
            && f.message == reason),
        raw.at("error"@) is Null && raw.at("done"@) == JsonView::Bool(true) && raw.at(
            "done_reason"@,
        ) == JsonView::Str(reason) ==> (ollama_chunk(raw) matches Ok(Some(c)) && c.finish_reason
            == Some(reason)),
        raw.at("error"@) is Null && !(raw.at("done"@) == JsonView::Bool(true)) ==> (ollama_chunk(
            raw,
        ) matches Ok(Some(c)) && c.finish_reason is None),
{
    reveal_strlit("error");
    reveal_strlit("message_start");
    reveal_strlit("content_block_delta");
    reveal_strlit("message_delta");
    assert("error"@.len() == 5);
    assert("message_start"@.len() == 13 && "content_block_delta"@.len() == 19);
    assert("message_start"@[8] == 's' && "message_delta"@[8] == 'd');
}

} // verus!
