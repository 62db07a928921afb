//! Sessions: their identifiers, what is stored in them and how they are listed and cleaned up.

use crate::config::{join_path, joined_path, text_result};
use crate::error::{AppError, AppResult, EXIT_SESSION, Failure, failure};
use crate::json::{Json, JsonView, clone_list, jsons};
use crate::media::{
    ImageView, MessageImage, after_last, clone_images, extension, extension_of, file_name,
    file_name_of, image_views, last_index,
};
use crate::table::{
    lemma_text_lt_irreflexive, lemma_text_lt_total, lemma_text_lt_transitive, text_before,
    text_lt,
};
use crate::text::{
    all_in, chars_of, clone_opt, decimal, decimal_string, join, join_strings,
    law_decimal_reads_back, lemma_take_full, lemma_take_step, lemma_texts_push, number_of,
    opt_eq, opt_str, opt_text, parse_number, prefix_chars, preview, preview_string,
    starts_with, starts_with_spec, str_eq, strip_prefix, strip_prefix_spec, substring,
    take_chars, texts,
};
use vstd::prelude::*;

verus! {

#[derive(Debug, Clone, Copy, PartialEq, Eq, Structural)]
pub struct Usage {
    pub input_tokens: Option<u64>,
    pub output_tokens: Option<u64>,
    pub total_tokens: Option<u64>,
}

pub open spec fn no_usage() -> Usage {
    Usage { input_tokens: None, output_tokens: None, total_tokens: None }
}

impl Default for Usage {
    fn default() -> (r: Usage)
        ensures
            r == no_usage(),
    {
        Usage { input_tokens: None, output_tokens: None, total_tokens: None }
    }
}

#[derive(Debug)]
pub enum SessionEvent {
    Meta(SessionMeta),
    Message(SessionMessage),
    Response(SessionResponse),
    Audit(SessionAudit),
}

#[derive(Debug)]
pub struct SessionMeta {
    pub session_id: String,
    pub created_at: String,
}

#[derive(Debug)]
pub struct SessionMessage {
    pub role: String,
    pub content: String,
    pub images: Vec<MessageImage>,
    pub tool_calls: Vec<Json>,
    pub tool_call_id: Option<String>,
    pub name: Option<String>,
    pub created_at: String,
}

#[derive(Debug)]
pub struct SessionResponse {
    pub provider: String,
    pub model: String,
    pub finish_reason: String,
    pub latency_ms: u64,
    pub usage: Usage,
    pub created_at: String,
}

#[derive(Debug)]
pub struct SessionAudit {
    pub provider: String,
    pub model: String,
    pub tool_name: Option<String>,
    pub tool_call_id: Option<String>,
    pub verdict: String,
    pub summary: String,
    pub findings: Vec<String>,
    pub recommendations: Vec<String>,
    pub latency_ms: u64,
    pub usage: Usage,
    pub created_at: String,
}

#[derive(Debug)]
pub struct SessionState {
    pub current_session: Option<String>,
    pub is_temp: Option<bool>,
}

impl Default for SessionState {
    fn default() -> (r: SessionState)
        ensures
            r.current_session is None,
            r.is_temp is None,
    {
        SessionState { current_session: None, is_temp: None }
    }
}

#[derive(Debug)]
pub struct SessionSummary {
    pub session_id: String,
    pub is_current: bool,
    pub is_temp: bool,
    pub created_at: Option<u64>,
    pub updated_at: Option<u64>,
    pub first_prompt: Option<String>,
    pub user_messages: usize,
    pub assistant_messages: usize,
}

/// What a stored message is.
pub struct StoredMessage {
    pub role: Seq<char>,
    pub content: Seq<char>,
    pub images: Seq<ImageView>,
    pub tool_calls: Seq<JsonView>,
    pub tool_call_id: Option<Seq<char>>,
    pub name: Option<Seq<char>>,
    pub created_at: Seq<char>,
}

impl View for SessionMessage {
    type V = StoredMessage;

    open spec fn view(&self) -> StoredMessage {
        StoredMessage {
            role: self.role@,
            content: self.content@,
            images: image_views(self.images@),
            tool_calls: jsons(self.tool_calls@),
            tool_call_id: opt_text(self.tool_call_id),
            name: opt_text(self.name),
            created_at: self.created_at@,
        }
    }
}

pub struct StoredResponse {
    pub provider: Seq<char>,
    pub model: Seq<char>,
    pub finish_reason: Seq<char>,
    pub latency_ms: u64,
    pub usage: Usage,
    pub created_at: Seq<char>,
}

pub struct StoredAudit {
    pub provider: Seq<char>,
    pub model: Seq<char>,
    pub tool_name: Option<Seq<char>>,
    pub tool_call_id: Option<Seq<char>>,
    pub verdict: Seq<char>,
    pub summary: Seq<char>,
    pub findings: Seq<Seq<char>>,
    pub recommendations: Seq<Seq<char>>,
    pub latency_ms: u64,
    pub usage: Usage,
    pub created_at: Seq<char>,
}

/// What a stored event is.
pub enum StoredEvent {
    Meta(Seq<char>, Seq<char>),
    Message(StoredMessage),
    Response(StoredResponse),
    Audit(StoredAudit),
}

impl View for SessionEvent {
    type V = StoredEvent;

    open spec fn view(&self) -> StoredEvent {
        match self {
            SessionEvent::Meta(m) => StoredEvent::Meta(m.session_id@, m.created_at@),
            SessionEvent::Message(m) => StoredEvent::Message(m@),
            SessionEvent::Response(r) => StoredEvent::Response(
                StoredResponse {
                    provider: r.provider@,
                    model: r.model@,
                    finish_reason: r.finish_reason@,
                    latency_ms: r.latency_ms,
                    usage: r.usage,
                    created_at: r.created_at@,
                },
            ),
            SessionEvent::Audit(a) => StoredEvent::Audit(
                StoredAudit {
                    provider: a.provider@,
                    model: a.model@,
                    tool_name: opt_text(a.tool_name),
                    tool_call_id: opt_text(a.tool_call_id),
                    verdict: a.verdict@,
                    summary: a.summary@,
                    findings: texts(a.findings@),
                    recommendations: texts(a.recommendations@),
                    latency_ms: a.latency_ms,
                    usage: a.usage,
                    created_at: a.created_at@,
                },
            ),
        }
    }
}

pub open spec fn event_views(v: Seq<SessionEvent>) -> Seq<StoredEvent> {
    v.map_values(|e: SessionEvent| e@)
}

pub proof fn lemma_events_push(v: Seq<SessionEvent>, e: SessionEvent)
    ensures
        event_views(v.push(e)) == event_views(v).push(e@),
{
    assert(event_views(v.push(e)) =~= event_views(v).push(e@));
}

impl SessionMessage {
    pub fn copy(&self) -> (r: SessionMessage)
        ensures
            r@ == self@,
    {
        SessionMessage {
            role: self.role.clone(),
            content: self.content.clone(),
            images: clone_images(&self.images),
            tool_calls: clone_list(&self.tool_calls),
            tool_call_id: clone_opt(&self.tool_call_id),
            name: clone_opt(&self.name),
            created_at: self.created_at.clone(),
        }
    }
}

// ---------------------------------------------------------------------------
// Identifiers
// ---------------------------------------------------------------------------

/// Whether a text is the 26 digits of a ULID.
pub open spec fn ulid_text(s: Seq<char>) -> bool {
    s.len() == 26 && all_in(s, "0123456789ABCDEFGHJKMNPQRSTVWXYZ"@)
}

/// `ulid::Ulid::new` and its `Display`: a new identifier, random and of the current time, in
/// its 26 digits. Which one it is, nothing says.
#[verifier::external_body]
fn new_ulid() -> (r: String)
    ensures
        ulid_text(r@),
{
    ulid::Ulid::new().to_string()
}

pub fn generate_session_id() -> (r: String)
    ensures
        starts_with_spec(r@, "sess_"@),
        ulid_text(r@.skip(5)),
{
    let u = new_ulid();
    let r = "sess_".to_owned().concat(u.as_str());
    proof {
        reveal_strlit("sess_");
        assert(r@.skip(5) =~= u@);
    }
    r
}

pub fn generate_temp_session_id() -> (r: String)
    ensures
        starts_with_spec(r@, "tmp_"@),
        ulid_text(r@.skip(4)),
{
    let u = new_ulid();
    let r = "tmp_".to_owned().concat(u.as_str());
    proof {
        reveal_strlit("tmp_");
        assert(r@.skip(4) =~= u@);
    }
    r
}

pub open spec fn is_temp(id: Seq<char>) -> bool {
    starts_with_spec(id, "tmp_"@)
}

pub fn is_temp_session(session_id: &str) -> (r: bool)
    ensures
        r == is_temp(session_id@),
{
    starts_with(session_id, "tmp_")
}

/// An identifier without its prefix.
pub open spec fn bare_id(id: Seq<char>) -> Seq<char> {
    match strip_prefix_spec(id, "sess_"@) {
        Some(rest) => rest,
        None => match strip_prefix_spec(id, "tmp_"@) {
            Some(rest) => rest,
            None => id,
        },
    }
}

pub fn bare_session_id(id: &str) -> (r: String)
    ensures
        r@ == bare_id(id@),
{
    match strip_prefix(id, "sess_") {
        Some(rest) => rest,
        None => match strip_prefix(id, "tmp_") {
            Some(rest) => rest,
            None => id.to_owned(),
        },
    }
}

/// The short form of an identifier: the first eight characters behind the prefix, of which only
/// `tmp_` is shown.
pub open spec fn short(id: Seq<char>) -> Seq<char> {
    if is_temp(id) {
        "tmp_"@ + prefix_chars(bare_id(id), 8)
    } else {
        prefix_chars(bare_id(id), 8)
    }
}

/// Returns the short display ID: strips the prefix (sess_/tmp_) and takes the first 8 chars.
pub fn short_id(session_id: &str) -> (r: String)
    ensures
        r@ == short(session_id@),
{
    let bare = bare_session_id(session_id);
    let head = take_chars(bare.as_str(), 8);
    if is_temp_session(session_id) {
        "tmp_".to_owned().concat(head.as_str())
    } else {
        head
    }
}

/// The short form of an identifier marks temporary ones: it starts with `tmp_` where the
/// identifier does.
pub proof fn law_short_keeps_temp(id: Seq<char>)
    requires
        is_temp(id),
    ensures
        is_temp(short(id)),
{
    let s = short(id);
    assert("tmp_"@ =~= s.subrange(0, "tmp_"@.len() as int));
}

/// The members of a list that start with a text.
pub open spec fn starting_with(ids: Seq<Seq<char>>, p: Seq<char>) -> Seq<Seq<char>>
    decreases ids.len(),
{
    if ids.len() == 0 {
        Seq::empty()
    } else if starts_with_spec(ids.last(), p) {
        starting_with(ids.drop_last(), p).push(ids.last())
    } else {
        starting_with(ids.drop_last(), p)
    }
}

/// The members of a list that start with a text behind their prefix.
pub open spec fn bare_starting_with(ids: Seq<Seq<char>>, p: Seq<char>) -> Seq<Seq<char>>
    decreases ids.len(),
{
    if ids.len() == 0 {
        Seq::empty()
    } else if starts_with_spec(bare_id(ids.last()), p) {
        bare_starting_with(ids.drop_last(), p).push(ids.last())
    } else {
        bare_starting_with(ids.drop_last(), p)
    }
}

pub open spec fn candidates(ids: Seq<Seq<char>>, input: Seq<char>) -> Seq<Seq<char>> {
    if starting_with(ids, input).len() > 0 {
        starting_with(ids, input)
    } else {
        bare_starting_with(ids, input)
    }
}

pub open spec fn shorts(ids: Seq<Seq<char>>) -> Seq<Seq<char>> {
    ids.map_values(|id: Seq<char>| short(id))
}

pub open spec fn no_match(input: Seq<char>) -> Failure {
    failure(EXIT_SESSION, "no session matching `"@ + input + "`"@)
}

/// The session that an abbreviation stands for: the one with that very name, else the only one
/// that starts so, with its prefix or without.
pub open spec fn resolved(ids: Seq<Seq<char>>, input: Seq<char>) -> Result<Seq<char>, Failure> {
    let found = candidates(ids, input);
    if ids.contains(input) {
        Ok(input)
    } else if found.len() == 0 {
        Err(no_match(input))
    } else if found.len() == 1 {
        Ok(found[0])
    } else {
        Err(
            failure(
                EXIT_SESSION,
                "`"@ + input + "` is ambiguous, matches "@ + decimal(found.len()) + " sessions: "@
                    + join(shorts(found), ", "@),
            ),
        )
    }
}

fn filter_ids(ids: &Vec<String>, p: &str, bare: bool) -> (r: Vec<String>)
    ensures
        texts(r@) == if bare {
            bare_starting_with(texts(ids@), p@)
        } else {
            starting_with(texts(ids@), p@)
        },
{
    let ghost src = texts(ids@);
    let mut out: Vec<String> = Vec::new();
    let mut i: usize = 0;
    proof {
        assert(texts(out@) =~= Seq::<Seq<char>>::empty());
    }
    while i < ids.len()
        invariant
            i <= ids@.len(),
            src == texts(ids@),
            texts(out@) == if bare {
                bare_starting_with(src.take(i as int), p@)
            } else {
                starting_with(src.take(i as int), p@)
            },
        decreases ids@.len() - i,
    {
        proof {
            lemma_take_step(src, i as int);
            lemma_texts_push(out@, ids@[i as int]);
        }
        let hit = if bare {
            let b = bare_session_id(ids[i].as_str());
            starts_with(b.as_str(), p)
        } else {
            starts_with(ids[i].as_str(), p)
        };
        if hit {
            out.push(ids[i].clone());
        }
        i = i + 1;
    }
    proof {
        lemma_take_full(src);
    }
    out
}

pub fn contains_string(v: &Vec<String>, s: &str) -> (r: bool)
    ensures
        r == texts(v@).contains(s@),
{
    let mut i: usize = 0;
    while i < v.len()
        invariant
            i <= v@.len(),
            forall|k: int| 0 <= k < i ==> texts(v@)[k] != s@,
        decreases v@.len() - i,
    {
        if str_eq(v[i].as_str(), s) {
            proof {
                assert(texts(v@)[i as int] == s@);
            }
            return true;
        }
        i = i + 1;
    }
    false
}

fn short_list(ids: &Vec<String>) -> (r: Vec<String>)
    ensures
        texts(r@) == shorts(texts(ids@)),
{
    let ghost goal = shorts(texts(ids@));
    let mut out: Vec<String> = Vec::new();
    let mut i: usize = 0;
    while i < ids.len()
        invariant
            i <= ids@.len(),
            goal == shorts(texts(ids@)),
            texts(out@) == goal.take(i as int),
        decreases ids@.len() - i,
    {
        let s = short_id(ids[i].as_str());
        proof {
            lemma_take_step(goal, i as int);
            lemma_texts_push(out@, s);
        }
        out.push(s);
        i = i + 1;
    }
    proof {
        lemma_take_full(goal);
    }
    out
}

/// Resolve a potentially abbreviated session ID to its full form via prefix matching, among the
/// given sessions.
pub fn resolve_session_id(all_sessions: &Vec<String>, input: &str) -> (r: AppResult<String>)
    ensures
        text_result(r) == resolved(texts(all_sessions@), input@),
{
    if contains_string(all_sessions, input) {
        return Ok(input.to_owned());
    }
    let mut found = filter_ids(all_sessions, input, false);
    if found.len() == 0 {
        found = filter_ids(all_sessions, input, true);
    }
    if found.len() == 0 {
        let message = "no session matching `".to_owned().concat(input).concat("`");
        return Err(AppError::new(EXIT_SESSION, message.as_str()));
    }
    if found.len() == 1 {
        proof {
            assert(texts(found@)[0] == found@[0]@);
        }
        return Ok(found[0].clone());
    }
    let shown = short_list(&found);
    let previews = join_strings(&shown, ", ");
    let count = decimal_string(found.len() as u64);
    let message = "`".to_owned().concat(input).concat("` is ambiguous, matches ").concat(
        count.as_str(),
    ).concat(" sessions: ").concat(previews.as_str());
    Err(AppError::new(EXIT_SESSION, message.as_str()))
}

/// The full name of a session always stands for it, whatever else starts so.
pub proof fn law_full_id_resolves(ids: Seq<Seq<char>>, id: Seq<char>)
    requires
        ids.contains(id),
    ensures
        resolved(ids, id) == Ok::<Seq<char>, Failure>(id),
{
}

proof fn lemma_starting_members(ids: Seq<Seq<char>>, p: Seq<char>, i: int)
    ensures
        0 <= i < starting_with(ids, p).len() ==> ids.contains(starting_with(ids, p)[i])
            && starts_with_spec(starting_with(ids, p)[i], p),
        0 <= i < bare_starting_with(ids, p).len() ==> ids.contains(bare_starting_with(ids, p)[i])
            && starts_with_spec(bare_id(bare_starting_with(ids, p)[i]), p),
    decreases ids.len(),
{
    if ids.len() > 0 {
        lemma_starting_members(ids.drop_last(), p, i);
        assert(ids[ids.len() - 1] == ids.last());
        if 0 <= i < starting_with(ids.drop_last(), p).len() {
            let x = starting_with(ids.drop_last(), p)[i];
            let k = choose|k: int| 0 <= k < ids.drop_last().len() && ids.drop_last()[k] == x;
            assert(ids[k] == x);
        }
        if 0 <= i < bare_starting_with(ids.drop_last(), p).len() {
            let x = bare_starting_with(ids.drop_last(), p)[i];
            let k = choose|k: int| 0 <= k < ids.drop_last().len() && ids.drop_last()[k] == x;
            assert(ids[k] == x);
        }
    }
}

/// What an abbreviation stands for is a session that there is, and it starts so, with its
/// prefix or without.
pub proof fn law_resolved_is_there(ids: Seq<Seq<char>>, input: Seq<char>)
    requires
        resolved(ids, input) is Ok,
    ensures
        ({
            let id = resolved(ids, input)->Ok_0;
            ids.contains(id) && (starts_with_spec(id, input) || starts_with_spec(
                bare_id(id),
                input,
            ))
        }),
{
    if ids.contains(input) {
        assert(input.subrange(0, input.len() as int) =~= input);
    } else {
        lemma_starting_members(ids, input, 0);
    }
}

// ---------------------------------------------------------------------------
// Files
// ---------------------------------------------------------------------------

/// The path of the file of a session.
pub open spec fn session_path(dir: Seq<char>, id: Seq<char>) -> Seq<char> {
    joined_path(dir, id + ".jsonl"@)
}

pub fn session_file(sessions_dir: &str, session_id: &str) -> (r: String)
    ensures
        r@ == session_path(sessions_dir@, session_id@),
{
    let name = session_id.to_owned().concat(".jsonl");
    join_path(sessions_dir, name.as_str())
}

/// The session whose file has a name.
pub open spec fn session_of_file(name: Seq<char>) -> Option<Seq<char>> {
    if extension(name) == Some("jsonl"@) {
        let base = file_name(name);
        Some(base.take(last_index(base, '.')))
    } else {
        None
    }
}

pub fn session_id_of_file(name: &str) -> (r: Option<String>)
    ensures
        opt_text(r) == session_of_file(name@),
{
    match extension_of(name) {
        None => None,
        Some(ext) => {
            if !str_eq(ext.as_str(), "jsonl") {
                return None;
            }
            let base = file_name_of(name);
            let c = chars_of(base.as_str());
            let after: usize = after_last(c.as_slice(), '.');
            let r = substring(c.as_slice(), 0, after - 1);
            proof {
                assert(r@ =~= base@.take(last_index(base@, '.')));
            }
            Some(r)
        },
    }
}

/// A list with one more member, in descending order.
pub open spec fn with_id(ids: Seq<Seq<char>>, id: Seq<char>) -> Seq<Seq<char>>
    decreases ids.len(),
{
    if ids.len() > 0 && text_lt(ids.last(), id) {
        with_id(ids.drop_last(), id).push(ids.last())
    } else {
        ids.push(id)
    }
}

/// The sessions of the files of a directory, the latest name first.
pub open spec fn sessions_of(names: Seq<Seq<char>>) -> Seq<Seq<char>>
    decreases names.len(),
{
    if names.len() == 0 {
        Seq::empty()
    } else {
        match session_of_file(names.last()) {
            Some(id) => with_id(sessions_of(names.drop_last()), id),
            None => sessions_of(names.drop_last()),
        }
    }
}

proof fn lemma_with_id_at(ids: Seq<Seq<char>>, id: Seq<char>, i: int)
    requires
        0 <= i <= ids.len(),
        forall|k: int| i <= k < ids.len() ==> text_lt(#[trigger] ids[k], id),
        i > 0 ==> !text_lt(ids[i - 1], id),
    ensures
        with_id(ids, id) == ids.insert(i, id),
    decreases ids.len(),
{
    if i == ids.len() {
        assert(ids.insert(i, id) =~= ids.push(id));
        if ids.len() > 0 {
            assert(ids.last() == ids[i - 1]);
        }
    } else {
        assert(text_lt(ids[ids.len() - 1], id));
        lemma_with_id_at(ids.drop_last(), id, i);
        assert(ids.insert(i, id) =~= ids.drop_last().insert(i, id).push(ids.last()));
    }
}

fn add_id(ids: &mut Vec<String>, id: String)
    ensures
        texts(final(ids)@) == with_id(texts(old(ids)@), id@),
{
    let ghost src = texts(ids@);
    let mut i: usize = ids.len();
    while i > 0 && text_before(ids[i - 1].as_str(), id.as_str())
        invariant
            i <= ids@.len(),
            *ids == *old(ids),
            src == texts(ids@),
            forall|k: int| i <= k < ids@.len() ==> text_lt(#[trigger] src[k], id@),
        decreases i,
    {
        i = i - 1;
    }
    proof {
        lemma_with_id_at(src, id@, i as int);
    }
    let ghost text = id@;
    ids.insert(i, id);
    proof {
        assert(texts(ids@) =~= src.insert(i as int, text));
    }
}

pub fn list_sessions(file_names: &Vec<String>) -> (r: Vec<String>)
    ensures
        texts(r@) == sessions_of(texts(file_names@)),
{
    let ghost src = texts(file_names@);
    let mut out: Vec<String> = Vec::new();
    let mut i: usize = 0;
    proof {
        assert(texts(out@) =~= Seq::<Seq<char>>::empty());
    }
    while i < file_names.len()
        invariant
            i <= file_names@.len(),
            src == texts(file_names@),
            texts(out@) == sessions_of(src.take(i as int)),
        decreases file_names@.len() - i,
    {
        proof {
            lemma_take_step(src, i as int);
        }
        if let Some(id) = session_id_of_file(file_names[i].as_str()) {
            add_id(&mut out, id);
        }
        i = i + 1;
    }
    proof {
        lemma_take_full(src);
    }
    out
}

/// Whether a list comes in descending order.
pub open spec fn descending(ids: Seq<Seq<char>>) -> bool {
    forall|i: int, j: int| 0 <= i < j < ids.len() ==> !#[trigger] text_lt(ids[i], ids[j])
}

proof fn lemma_with_id_order(ids: Seq<Seq<char>>, id: Seq<char>)
    requires
        descending(ids),
    ensures
        descending(with_id(ids, id)),
        forall|x: Seq<char>| #[trigger] with_id(ids, id).contains(x) ==> ids.contains(x) || x == id,
        with_id(ids, id).len() == ids.len() + 1,
    decreases ids.len(),
{
    let r = with_id(ids, id);
    if ids.len() > 0 && text_lt(ids.last(), id) {
        let before = ids.drop_last();
        assert(descending(before)) by {
            assert forall|i: int, j: int| 0 <= i < j < before.len() implies !#[trigger] text_lt(
                before[i],
                before[j],
            ) by {
                assert(!text_lt(ids[i], ids[j]));
            }
        }
        lemma_with_id_order(before, id);
        let w = with_id(before, id);
        assert forall|x: Seq<char>| #[trigger] r.contains(x) implies ids.contains(x) || x == id by {
            let k = choose|k: int| 0 <= k < r.len() && r[k] == x;
            if k < w.len() {
                assert(w.contains(x)) by {
                    assert(w[k] == x);
                }
                if before.contains(x) {
                    let m = choose|m: int| 0 <= m < before.len() && before[m] == x;
                    assert(ids[m] == x);
                }
            } else {
                assert(ids[ids.len() - 1] == x);
            }
        }
        assert forall|i: int, j: int| 0 <= i < j < r.len() implies !#[trigger] text_lt(
            r[i],
            r[j],
        ) by {
            if j < w.len() {
                assert(!text_lt(w[i], w[j]));
            } else {
                assert(w.contains(w[i]));
                lemma_text_lt_irreflexive(ids.last());
                if w[i] == id {
                    if text_lt(id, ids.last()) {
                        lemma_text_lt_transitive(id, ids.last(), id);
                        lemma_text_lt_irreflexive(id);
                    }
                } else {
                    let m = choose|m: int| 0 <= m < before.len() && before[m] == w[i];
                    assert(!text_lt(ids[m], ids[ids.len() - 1]));
                }
            }
        }
    } else {
        assert forall|x: Seq<char>| #[trigger] r.contains(x) implies ids.contains(x) || x == id by {
            let k = choose|k: int| 0 <= k < r.len() && r[k] == x;
            if k < ids.len() {
                assert(ids[k] == x);
            }
        }
        assert forall|i: int, j: int| 0 <= i < j < r.len() implies !#[trigger] text_lt(
            r[i],
            r[j],
        ) by {
            if j < ids.len() {
                assert(!text_lt(ids[i], ids[j]));
            } else if text_lt(ids[i], id) {
                lemma_text_lt_total(ids.last(), ids[i]);
                if i < ids.len() - 1 {
                    assert(!text_lt(ids[i], ids[ids.len() - 1]));
                    if text_lt(ids.last(), ids[i]) {
                        lemma_text_lt_transitive(ids.last(), ids[i], id);
                    }
                }
            }
        }
    }
}

/// Sessions are listed in descending order of their names.
pub proof fn law_sessions_descend(names: Seq<Seq<char>>)
    ensures
        descending(sessions_of(names)),
    decreases names.len(),
{
    if names.len() > 0 {
        law_sessions_descend(names.drop_last());
        if let Some(id) = session_of_file(names.last()) {
            lemma_with_id_order(sessions_of(names.drop_last()), id);
        }
    }
}

// ---------------------------------------------------------------------------
// The current session, cleaning up
// ---------------------------------------------------------------------------

/// What switching the current session does: the new state, and the temporary session that is
/// left and whose file goes.
#[derive(Debug)]
pub struct SessionSwitch {
    pub state: SessionState,
    pub discard: Option<String>,
}

/// The session whose file goes: the current one if it is temporary and not the new one.
pub open spec fn discarded(state: SessionState, next: Option<Seq<char>>) -> Option<Seq<char>> {
    match opt_text(state.current_session) {
        Some(old) => if next != Some(old) && state.is_temp == Some(true) {
            Some(old)
        } else {
            None
        },
        None => None,
    }
}

pub fn set_current_session(state: &SessionState, session_id: Option<&str>, temp: bool) -> (r: SessionSwitch)
    ensures
        opt_text(r.state.current_session) == opt_str(session_id),
        r.state.is_temp == if temp {
            Some(true)
        } else {
            None
        },
        opt_text(r.discard) == discarded(*state, opt_str(session_id)),
{
    let discard = match &state.current_session {
        Some(old) => {
            let same = match session_id {
                Some(new) => str_eq(new, old.as_str()),
                None => false,
            };
            let was_temp = match state.is_temp {
                Some(b) => b,
                None => false,
            };
            if !same && was_temp {
                Some(old.clone())
            } else {
                None
            }
        },
        None => None,
    };
    let current = match session_id {
        Some(id) => Some(id.to_owned()),
        None => None,
    };
    SessionSwitch {
        state: SessionState {
            current_session: current,
            is_temp: if temp {
                Some(true)
            } else {
                None
            },
        },
        discard,
    }
}

/// Whether clearing removes the file of a session: every one but the current one, or really
/// every one.
pub open spec fn is_cleared(state: SessionState, include_current: bool, name: Seq<char>) -> bool {
    include_current || name.len() == 0 || opt_text(state.current_session) != Some(name)
}

pub fn clear_removes(state: &SessionState, include_current: bool, name: &str) -> (r: bool)
    ensures
        r == is_cleared(*state, include_current, name@),
{
    if include_current || name.is_empty() {
        return true;
    }
    !opt_eq(&state.current_session, name)
}

/// Whether collecting garbage removes the file of a session.
pub open spec fn is_garbage(state: SessionState, stem: Seq<char>, len: nat) -> bool {
    len == 0 || (is_temp(stem) && opt_text(state.current_session) != Some(stem))
}

pub fn gc_removes(state: &SessionState, stem: &str, len: u64) -> (r: bool)
    ensures
        r == is_garbage(*state, stem@, len as nat),
{
    len == 0 || (is_temp_session(stem) && !opt_eq(&state.current_session, stem))
}

/// Collecting garbage keeps the current session, and every saved one, unless its file is empty.
pub proof fn law_gc_keeps(state: SessionState, stem: Seq<char>, len: nat)
    requires
        len > 0,
        !is_temp(stem) || opt_text(state.current_session) == Some(stem),
    ensures
        !is_garbage(state, stem, len),
{
}

// ---------------------------------------------------------------------------
// Summaries
// ---------------------------------------------------------------------------

/// What a summary says.
pub struct SummaryView {
    pub session_id: Seq<char>,
    pub is_current: bool,
    pub is_temp: bool,
    pub created_at: Option<u64>,
    pub updated_at: Option<u64>,
    pub first_prompt: Option<Seq<char>>,
    pub user_messages: nat,
    pub assistant_messages: nat,
}

impl View for SessionSummary {
    type V = SummaryView;

    open spec fn view(&self) -> SummaryView {
        SummaryView {
            session_id: self.session_id@,
            is_current: self.is_current,
            is_temp: self.is_temp,
            created_at: self.created_at,
            updated_at: self.updated_at,
            first_prompt: opt_text(self.first_prompt),
            user_messages: self.user_messages as nat,
            assistant_messages: self.assistant_messages as nat,
        }
    }
}

pub open spec fn timestamp(s: Seq<char>) -> Option<u64> {
    match number_of(s, u64::MAX as nat) {
        Some(n) => Some(n as u64),
        None => None,
    }
}

pub fn parse_timestamp(value: &str) -> (r: Option<u64>)
    ensures
        r == timestamp(value@),
{
    parse_number(value, u64::MAX)
}

pub open spec fn later(new: Option<u64>, old: Option<u64>) -> Option<u64> {
    if new is Some {
        new
    } else {
        old
    }
}

/// A summary with one more event.
pub open spec fn summary_step(s: SummaryView, e: StoredEvent) -> SummaryView {
    match e {
        StoredEvent::Meta(_, at) => SummaryView {
            created_at: timestamp(at),
            updated_at: timestamp(at),
            ..s
        },
        StoredEvent::Message(m) => {
            let t = SummaryView { updated_at: later(timestamp(m.created_at), s.updated_at), ..s };
            if m.role == "user"@ {
                SummaryView {
                    user_messages: s.user_messages + 1,
                    first_prompt: match s.first_prompt {
                        Some(p) => Some(p),
                        None => Some(preview(m.content, 60)),
                    },
                    ..t
                }
            } else if m.role == "assistant"@ {
                SummaryView { assistant_messages: s.assistant_messages + 1, ..t }
            } else {
                t
            }
        },
        StoredEvent::Response(r) => SummaryView {
            updated_at: later(timestamp(r.created_at), s.updated_at),
            ..s
        },
        StoredEvent::Audit(a) => SummaryView {
            updated_at: later(timestamp(a.created_at), s.updated_at),
            ..s
        },
    }
}

/// The summary of a session: when it was begun and last used, its first question and how many
/// messages it holds.
pub open spec fn summary(id: Seq<char>, events: Seq<StoredEvent>, is_current: bool) -> SummaryView
    decreases events.len(),
{
    if events.len() == 0 {
        SummaryView {
            session_id: id,
            is_current,
            is_temp: is_temp(id),
            created_at: None,
            updated_at: None,
            first_prompt: None,
            user_messages: 0,
            assistant_messages: 0,
        }
    } else {
        summary_step(summary(id, events.drop_last(), is_current), events.last())
    }
}

proof fn lemma_summary_counts(id: Seq<char>, events: Seq<StoredEvent>, is_current: bool)
    ensures
        summary(id, events, is_current).user_messages + summary(
            id,
            events,
            is_current,
        ).assistant_messages <= events.len(),
    decreases events.len(),
{
    if events.len() > 0 {
        lemma_summary_counts(id, events.drop_last(), is_current);
    }
}

pub fn build_session_summary(session_id: &str, events: &Vec<SessionEvent>, is_current: bool) -> (r:
    SessionSummary)
    ensures
        r@ == summary(session_id@, event_views(events@), is_current),
{
    let ghost src = event_views(events@);
    let mut s = SessionSummary {
        session_id: session_id.to_owned(),
        is_current,
        is_temp: is_temp_session(session_id),
        created_at: None,
        updated_at: None,
        first_prompt: None,
        user_messages: 0,
        assistant_messages: 0,
    };
    let mut i: usize = 0;
    while i < events.len()
        invariant
            i <= events@.len(),
            src == event_views(events@),
            s@ == summary(session_id@, src.take(i as int), is_current),
        decreases events@.len() - i,
    {
        proof {
            lemma_take_step(src, i as int);
            lemma_summary_counts(session_id@, src.take(i as int), is_current);
        }
        match &events[i] {
            SessionEvent::Meta(m) => {
                s.created_at = parse_timestamp(m.created_at.as_str());
                s.updated_at = s.created_at;
            },
            SessionEvent::Message(m) => {
                let ts = parse_timestamp(m.created_at.as_str());
                if ts.is_some() {
                    s.updated_at = ts;
                }
                if str_eq(m.role.as_str(), "user") {
                    s.user_messages = s.user_messages + 1;
                    if s.first_prompt.is_none() {
                        s.first_prompt = Some(preview_string(m.content.as_str(), 60));
                    }
                } else if str_eq(m.role.as_str(), "assistant") {
                    s.assistant_messages = s.assistant_messages + 1;
                }
            },
            SessionEvent::Response(r) => {
                let ts = parse_timestamp(r.created_at.as_str());
                if ts.is_some() {
                    s.updated_at = ts;
                }
            },
            SessionEvent::Audit(a) => {
                let ts = parse_timestamp(a.created_at.as_str());
                if ts.is_some() {
                    s.updated_at = ts;
                }
            },
        }
        i = i + 1;
    }
    proof {
        lemma_take_full(src);
    }
    s
}

pub open spec fn summary_views(v: Seq<SessionSummary>) -> Seq<SummaryView> {
    v.map_values(|s: SessionSummary| s@)
}

pub open spec fn used_at(s: SummaryView) -> u64 {
    match s.updated_at {
        Some(t) => t,
        None => 0,
    }
}

/// A list with one more summary behind those that were used as late or later.
pub open spec fn with_summary(v: Seq<SummaryView>, s: SummaryView) -> Seq<SummaryView>
    decreases v.len(),
{
    if v.len() > 0 && used_at(v.last()) < used_at(s) {
        with_summary(v.drop_last(), s).push(v.last())
    } else {
        v.push(s)
    }
}

/// Summaries with the last used one first; where two were used at the same time their order
/// stays.
pub open spec fn by_use(v: Seq<SummaryView>) -> Seq<SummaryView>
    decreases v.len(),
{
    if v.len() == 0 {
        Seq::empty()
    } else {
        with_summary(by_use(v.drop_last()), v.last())
    }
}

proof fn lemma_with_summary_at(v: Seq<SummaryView>, s: SummaryView, i: int)
    requires
        0 <= i <= v.len(),
        forall|k: int| i <= k < v.len() ==> used_at(#[trigger] v[k]) < used_at(s),
        i > 0 ==> used_at(v[i - 1]) >= used_at(s),
    ensures
        with_summary(v, s) == v.insert(i, s),
    decreases v.len(),
{
    if i == v.len() {
        assert(v.insert(i, s) =~= v.push(s));
        if v.len() > 0 {
            assert(v.last() == v[i - 1]);
        }
    } else {
        assert(used_at(v[v.len() - 1]) < used_at(s));
        lemma_with_summary_at(v.drop_last(), s, i);
        assert(v.insert(i, s) =~= v.drop_last().insert(i, s).push(v.last()));
    }
}

fn used(s: &SessionSummary) -> (r: u64)
    ensures
        r == used_at(s@),
{
    match s.updated_at {
        Some(t) => t,
        None => 0,
    }
}

fn add_summary(v: &mut Vec<SessionSummary>, s: SessionSummary)
    ensures
        summary_views(final(v)@) == with_summary(summary_views(old(v)@), s@),
{
    let ghost src = summary_views(v@);
    let key: u64 = used(&s);
    let mut i: usize = v.len();
    while i > 0 && used(&v[i - 1]) < key
        invariant
            i <= v@.len(),
            *v == *old(v),
            src == summary_views(v@),
            key == used_at(s@),
            forall|k: int| i <= k < v@.len() ==> used_at(#[trigger] src[k]) < key,
        decreases i,
    {
        proof {
            assert(src[i - 1] == v@[i - 1]@);
        }
        i = i - 1;
    }
    proof {
        if i > 0 {
            assert(src[i - 1] == v@[i - 1]@);
        }
        lemma_with_summary_at(src, s@, i as int);
    }
    let ghost view = s@;
    v.insert(i, s);
    proof {
        assert(summary_views(v@) =~= src.insert(i as int, view));
    }
}

/// A session with its events.
#[derive(Debug)]
pub struct StoredSession {
    pub session_id: String,
    pub events: Vec<SessionEvent>,
}

pub open spec fn summaries_of(v: Seq<StoredSession>, current: Option<Seq<char>>) -> Seq<
    SummaryView,
> {
    v.map_values(
        |s: StoredSession|
            summary(s.session_id@, event_views(s.events@), current == Some(s.session_id@)),
    )
}

/// The summaries of sessions, the last used one first.
pub fn list_session_summaries(sessions: &Vec<StoredSession>, current: Option<&str>) -> (r: Vec<
    SessionSummary,
>)
    ensures
        summary_views(r@) == by_use(summaries_of(sessions@, opt_str(current))),
{
    let ghost src = summaries_of(sessions@, opt_str(current));
    let mut out: Vec<SessionSummary> = Vec::new();
    let mut i: usize = 0;
    proof {
        assert(summary_views(out@) =~= Seq::<SummaryView>::empty());
    }
    while i < sessions.len()
        invariant
            i <= sessions@.len(),
            src == summaries_of(sessions@, opt_str(current)),
            summary_views(out@) == by_use(src.take(i as int)),
        decreases sessions@.len() - i,
    {
        proof {
            lemma_take_step(src, i as int);
        }
        let is_current = match current {
            Some(c) => str_eq(c, sessions[i].session_id.as_str()),
            None => false,
        };
        let s = build_session_summary(
            sessions[i].session_id.as_str(),
            &sessions[i].events,
            is_current,
        );
        add_summary(&mut out, s);
        i = i + 1;
    }
    proof {
        lemma_take_full(src);
    }
    out
}

proof fn lemma_with_summary_order(v: Seq<SummaryView>, s: SummaryView)
    requires
        forall|i: int, j: int| 0 <= i < j < v.len() ==> used_at(v[i]) >= used_at(v[j]),
    ensures
        ({
            let w = with_summary(v, s);
            &&& w.len() == v.len() + 1
            &&& forall|i: int, j: int| 0 <= i < j < w.len() ==> used_at(w[i]) >= used_at(w[j])
            &&& forall|i: int|
                0 <= i < w.len() ==> used_at(#[trigger] w[i]) >= used_at(s) || (v.len() > 0
                    && used_at(w[i]) >= used_at(v.last()))
            &&& w.to_multiset() == v.to_multiset().insert(s)
        }),
    decreases v.len(),
{
    broadcast use vstd::seq_lib::group_to_multiset_ensures;

    if v.len() > 0 && used_at(v.last()) < used_at(s) {
        let before = v.drop_last();
        lemma_with_summary_order(before, s);
        assert(before.push(v.last()) =~= v);
        let w = with_summary(before, s);
        assert forall|i: int| 0 <= i < w.len() implies used_at(#[trigger] w[i]) >= used_at(
            v.last(),
        ) by {
            if before.len() > 0 {
                assert(used_at(v[before.len() - 1]) >= used_at(v[v.len() - 1]));
            }
        }
        assert(w.push(v.last()).to_multiset() =~= v.to_multiset().insert(s));
    } else {
        assert forall|i: int| 0 <= i < v.len() implies used_at(#[trigger] v[i]) >= used_at(s) by {
            if i < v.len() - 1 {
                assert(used_at(v[i]) >= used_at(v[v.len() - 1]));
            }
        }
        assert(v.push(s).to_multiset() =~= v.to_multiset().insert(s));
    }
}

/// Sessions are listed by their last use, latest first, and none is lost or invented.
pub proof fn law_listed_by_use(v: Seq<SummaryView>)
    ensures
        forall|i: int, j: int|
            0 <= i < j < by_use(v).len() ==> used_at(by_use(v)[i]) >= used_at(by_use(v)[j]),
        by_use(v).to_multiset() == v.to_multiset(),
    decreases v.len(),
{
    broadcast use vstd::seq_lib::group_to_multiset_ensures;

    if v.len() > 0 {
        law_listed_by_use(v.drop_last());
        lemma_with_summary_order(by_use(v.drop_last()), v.last());
        assert(v.drop_last().push(v.last()) =~= v);
    } else {
        assert(by_use(v) =~= v);
    }
}

/// A point in time that was stored reads back.
pub proof fn law_time_reads_back(secs: u64)
    ensures
        timestamp(decimal(secs as nat)) == Some(secs),
{
    law_decimal_reads_back(secs as nat, u64::MAX as nat);
}

/// A point in time as it is stored: the seconds since the epoch.
pub fn now_rfc3339(secs: u64) -> (r: String)
    ensures
        r@ == decimal(secs as nat),
{
    decimal_string(secs)
}

} // verus!
