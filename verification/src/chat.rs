//! Messages, requests and replies of a chat.

use crate::config::{ModelConfig, ProviderConfig};
use crate::json::{Json, JsonView, clone_list, jsons};
use crate::media::{ImageView, MessageImage, clone_images, image_views};
use crate::session::Usage;
use crate::text::{clone_opt, lemma_take_full, lemma_take_step, opt_text};
use vstd::prelude::*;

verus! {

#[derive(Debug)]
pub struct ChatMessage {
    pub role: String,
    pub content: String,
    pub images: Vec<MessageImage>,
    pub tool_calls: Option<Vec<Json>>,
    pub tool_call_id: Option<String>,
    pub name: Option<String>,
}

/// What a message is.
pub struct MessageView {
    pub role: Seq<char>,
    pub content: Seq<char>,
    pub images: Seq<ImageView>,
    pub tool_calls: Option<Seq<JsonView>>,
    pub tool_call_id: Option<Seq<char>>,
    pub name: Option<Seq<char>>,
}

pub open spec fn opt_jsons(o: Option<Vec<Json>>) -> Option<Seq<JsonView>> {
    match o {
        Some(v) => Some(jsons(v@)),
        None => None,
    }
}

impl View for ChatMessage {
    type V = MessageView;

    open spec fn view(&self) -> MessageView {
        MessageView {
            role: self.role@,
            content: self.content@,
            images: image_views(self.images@),
            tool_calls: opt_jsons(self.tool_calls),
            tool_call_id: opt_text(self.tool_call_id),
            name: opt_text(self.name),
        }
    }
}

/// A message that is only text.
pub open spec fn plain_message(role: Seq<char>, content: Seq<char>) -> MessageView {
    MessageView {
        role,
        content,
        images: Seq::empty(),
        tool_calls: None,
        tool_call_id: None,
        name: None,
    }
}

pub open spec fn message_views(v: Seq<ChatMessage>) -> Seq<MessageView> {
    v.map_values(|m: ChatMessage| m@)
}

pub proof fn lemma_messages_push(v: Seq<ChatMessage>, m: ChatMessage)
    ensures
        message_views(v.push(m)) == message_views(v).push(m@),
{
    assert(message_views(v.push(m)) =~= message_views(v).push(m@));
}

impl ChatMessage {
    pub fn plain(role: &str, content: String) -> (r: ChatMessage)
        ensures
            r@ == plain_message(role@, content@),
    {
        let r = ChatMessage {
            role: role.to_owned(),
            content,
            images: Vec::new(),
            tool_calls: None,
            tool_call_id: None,
            name: None,
        };
        proof {
            assert(image_views(r.images@) =~= Seq::<ImageView>::empty());
        }
        r
    }

    pub fn copy(&self) -> (r: ChatMessage)
        ensures
            r@ == self@,
    {
        let calls = match &self.tool_calls {
            Some(v) => Some(clone_list(v)),
            None => None,
        };
        ChatMessage {
            role: self.role.clone(),
            content: self.content.clone(),
            images: clone_images(&self.images),
            tool_calls: calls,
            tool_call_id: clone_opt(&self.tool_call_id),
            name: clone_opt(&self.name),
        }
    }
}

pub fn clone_messages(v: &[ChatMessage]) -> (r: Vec<ChatMessage>)
    ensures
        message_views(r@) == message_views(v@),
{
    let mut out: Vec<ChatMessage> = Vec::new();
    let mut i: usize = 0;
    while i < v.len()
        invariant
            i <= v@.len(),
            message_views(out@) == message_views(v@).take(i as int),
        decreases v@.len() - i,
    {
        let copy = v[i].copy();
        proof {
            lemma_take_step(message_views(v@), i as int);
            lemma_messages_push(out@, copy);
        }
        out.push(copy);
        i = i + 1;
    }
    proof {
        lemma_take_full(message_views(v@));
    }
    out
}

/// A request to a model; the temperature is the text of a number.
#[derive(Debug)]
pub struct ChatRequest {
    pub provider_id: String,
    pub provider: ProviderConfig,
    pub model_id: String,
    pub model: ModelConfig,
    pub api_key: String,
    pub messages: Vec<ChatMessage>,
    pub temperature: Option<String>,
    pub max_output_tokens: Option<u32>,
    pub params: Vec<(String, Json)>,
    pub timeout_secs: Option<u64>,
    pub tools: Vec<Json>,
}

#[derive(Debug)]
pub struct ChatResponse {
    pub provider_id: String,
    pub model_id: String,
    pub content: String,
    pub finish_reason: String,
    pub usage: Usage,
    pub latency_ms: u64,
    pub raw: Json,
    pub tool_calls: Vec<Json>,
}

#[derive(Debug)]
pub struct ChatStreamChunk {
    pub delta: String,
    pub finish_reason: Option<String>,
    pub usage: Option<Usage>,
    pub tool_calls_delta: Vec<Json>,
    pub raw: Json,
}

/// What a piece of a streamed reply is.
pub struct ChunkView {
    pub delta: Seq<char>,
    pub finish_reason: Option<Seq<char>>,
    pub usage: Option<Usage>,
    pub tool_calls: Seq<JsonView>,
    pub raw: JsonView,
}

impl View for ChatStreamChunk {
    type V = ChunkView;

    open spec fn view(&self) -> ChunkView {
        ChunkView {
            delta: self.delta@,
            finish_reason: opt_text(self.finish_reason),
            usage: self.usage,
            tool_calls: jsons(self.tool_calls_delta@),
            raw: self.raw@,
        }
    }
}

/// What a reply is.
pub struct ReplyView {
    pub provider_id: Seq<char>,
    pub model_id: Seq<char>,
    pub content: Seq<char>,
    pub finish_reason: Seq<char>,
    pub usage: Usage,
    pub latency_ms: u64,
    pub raw: JsonView,
    pub tool_calls: Seq<JsonView>,
}

impl View for ChatResponse {
    type V = ReplyView;

    open spec fn view(&self) -> ReplyView {
        ReplyView {
            provider_id: self.provider_id@,
            model_id: self.model_id@,
            content: self.content@,
            finish_reason: self.finish_reason@,
            usage: self.usage,
            latency_ms: self.latency_ms,
            raw: self.raw@,
            tool_calls: jsons(self.tool_calls@),
        }
    }
}

} // verus!
