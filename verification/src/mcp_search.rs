//! Tools of outside servers: what they are and how they are found.

use crate::config::{McpServerConfig, flag_or, or_flag};
use crate::json::{
    Json, JsonView, clone_json, elements_in, field_views, flag_in, get_in, has_field,
    json_text, jsons, lemma_jsons_push, object, object2, object3, text_in, text_in_or,
};
use crate::session::contains_string;
use crate::stream::sat_add;
use crate::table::{
    lemma_text_lt_irreflexive, lemma_text_lt_total, lemma_text_lt_transitive, text_before,
    text_lt,
};
use crate::text::{
    ascii_lower, blank, char_is_space, chars_of, contains, contains_text, is_ascii_letter,
    is_blank, is_digit, is_space, lemma_take_full, lemma_take_step, lemma_texts_push, split_by,
    str_eq, substring, texts, to_ascii_lower, trim, trimmed, trimmed_end, trimmed_start,
};
use vstd::prelude::*;

verus! {

#[derive(Debug)]
pub struct McpToolSpec {
    pub full_name: String,
    pub server: String,
    pub remote_name: String,
    pub description: String,
    pub input_schema: Json,
    pub read_only: bool,
}

/// What is known of such a tool.
pub struct McpTool {
    pub full_name: Seq<char>,
    pub server: Seq<char>,
    pub remote_name: Seq<char>,
    pub description: Seq<char>,
    pub input_schema: JsonView,
    pub read_only: bool,
}

impl View for McpToolSpec {
    type V = McpTool;

    open spec fn view(&self) -> McpTool {
        McpTool {
            full_name: self.full_name@,
            server: self.server@,
            remote_name: self.remote_name@,
            description: self.description@,
            input_schema: self.input_schema@,
            read_only: self.read_only,
        }
    }
}

pub open spec fn mcp_tools(v: Seq<McpToolSpec>) -> Seq<McpTool> {
    v.map_values(|t: McpToolSpec| t@)
}

pub proof fn lemma_mcp_push(v: Seq<McpToolSpec>, t: McpToolSpec)
    ensures
        mcp_tools(v.push(t)) == mcp_tools(v).push(t@),
{
    assert(mcp_tools(v.push(t)) =~= mcp_tools(v).push(t@));
}

impl McpToolSpec {
    pub fn copy(&self) -> (r: McpToolSpec)
        ensures
            r@ == self@,
    {
        McpToolSpec {
            full_name: self.full_name.clone(),
            server: self.server.clone(),
            remote_name: self.remote_name.clone(),
            description: self.description.clone(),
            input_schema: clone_json(&self.input_schema),
            read_only: self.read_only,
        }
    }
}

pub fn clone_mcp_tools(v: &Vec<McpToolSpec>) -> (r: Vec<McpToolSpec>)
    ensures
        mcp_tools(r@) == mcp_tools(v@),
{
    let mut out: Vec<McpToolSpec> = Vec::new();
    append_mcp_tools(&mut out, v);
    proof {
        assert(Seq::<McpTool>::empty() + mcp_tools(v@) =~= mcp_tools(v@));
    }
    out
}

/// Appends copies of tools.
pub fn append_mcp_tools(out: &mut Vec<McpToolSpec>, v: &Vec<McpToolSpec>)
    ensures
        mcp_tools(final(out)@) == mcp_tools(old(out)@) + mcp_tools(v@),
{
    let ghost before = mcp_tools(out@);
    let ghost src = mcp_tools(v@);
    let mut i: usize = 0;
    proof {
        assert(before + src.take(0) =~= before);
    }
    while i < v.len()
        invariant
            i <= v@.len(),
            src == mcp_tools(v@),
            mcp_tools(out@) == before + src.take(i as int),
        decreases v@.len() - i,
    {
        let t = v[i].copy();
        proof {
            assert(src[i as int] == v@[i as int]@);
            lemma_take_step(src, i as int);
            lemma_mcp_push(out@, t);
            assert((before + src.take(i as int)).push(t@) =~= before + src.take(i + 1));
        }
        out.push(t);
        i = i + 1;
    }
    proof {
        lemma_take_full(src);
    }
}

// ---------------------------------------------------------------------------
// Queries
// ---------------------------------------------------------------------------

/// Whether a query asks for everything.
pub open spec fn asks_for_all(query: Seq<char>) -> bool {
    let q = ascii_lower(trimmed(query));
    q == "all"@ || q == "*"@
}

pub fn is_mcp_tool_search_all_query(query: &str) -> (r: bool)
    ensures
        r == asks_for_all(query@),
{
    let q = to_ascii_lower(trim(query).as_str());
    str_eq(q.as_str(), "all") || str_eq(q.as_str(), "*")
}

pub fn mcp_tool_search_limit(query: &str, max_results: usize) -> (r: usize)
    ensures
        r == if asks_for_all(query@) {
            usize::MAX
        } else if max_results == 0 {
            1
        } else {
            max_results
        },
{
    if is_mcp_tool_search_all_query(query) {
        usize::MAX
    } else if max_results == 0 {
        1
    } else {
        max_results
    }
}

/// Whether a character is a letter or a digit of some script.
pub uninterp spec fn letter_or_digit(c: char) -> bool;

/// `char::is_alphanumeric`: whether a character is a letter or a digit, which depends on the
/// character alone. Among the ASCII characters these are the letters and the digits.
#[verifier::external_body]
fn unicode_alphanumeric(c: char) -> (r: bool)
    ensures
        r == letter_or_digit(c),
        (c as u32) < 128 ==> r == (is_digit(c) || is_ascii_letter(c)),
{
    c.is_alphanumeric()
}

/// Whether a character may stand at the end of a term.
pub open spec fn term_char(c: char) -> bool {
    letter_or_digit(c) || c == '_' || c == '-' || c == ':'
}

fn is_term_char(c: char) -> (r: bool)
    ensures
        r == term_char(c),
{
    unicode_alphanumeric(c) || c == '_' || c == '-' || c == ':'
}

/// The index of the first character from `i` on that may stand at the end of a term.
pub open spec fn term_from(s: Seq<char>, i: int) -> int
    decreases s.len() - i,
{
    if 0 <= i < s.len() && !term_char(s[i]) {
        term_from(s, i + 1)
    } else {
        i
    }
}

/// The index behind the last character before `j` that may stand at the end of a term.
pub open spec fn term_to(s: Seq<char>, i: int, j: int) -> int
    decreases j - i,
{
    if i < j <= s.len() && 0 <= i && !term_char(s[j - 1]) {
        term_to(s, i, j - 1)
    } else {
        j
    }
}

/// A term without what surrounds it, in lower case.
pub open spec fn term(s: Seq<char>) -> Seq<char> {
    let i = term_from(s, 0);
    ascii_lower(s.subrange(i, term_to(s, i, s.len() as int)))
}

/// Whether a character stands between terms.
pub open spec fn between_terms() -> spec_fn(char) -> bool {
    |c: char| is_space(c) || c == ',' || c == ';'
}

/// The terms of parts of a query; empty ones are left out.
pub open spec fn terms_of(parts: Seq<Seq<char>>) -> Seq<Seq<char>>
    decreases parts.len(),
{
    if parts.len() == 0 {
        Seq::empty()
    } else if term(parts.last()).len() == 0 {
        terms_of(parts.drop_last())
    } else {
        terms_of(parts.drop_last()).push(term(parts.last()))
    }
}

/// The terms of a query.
pub open spec fn terms(query: Seq<char>) -> Seq<Seq<char>> {
    terms_of(split_by(query, between_terms()))
}

fn term_of(s: &str) -> (r: String)
    ensures
        r@ == term(s@),
{
    let c = chars_of(s);
    let n: usize = c.len();
    let mut i: usize = 0;
    while i < n
        invariant_except_break
            term_from(s@, 0) == term_from(s@, i as int),
        invariant
            i <= n,
            n == c@.len(),
            c@ == s@,
        ensures
            i <= n,
            term_from(s@, 0) == i,
        decreases n - i,
    {
        if is_term_char(c[i]) {
            break;
        }
        i = i + 1;
    }
    let mut j: usize = n;
    while j > i
        invariant_except_break
            term_to(s@, i as int, n as int) == term_to(s@, i as int, j as int),
        invariant
            i <= j <= n,
            n == c@.len(),
            c@ == s@,
        ensures
            i <= j <= n,
            term_to(s@, i as int, n as int) == j,
        decreases j,
    {
        if is_term_char(c[j - 1]) {
            break;
        }
        j = j - 1;
    }
    to_ascii_lower(substring(c.as_slice(), i, j).as_str())
}

fn query_parts(query: &str) -> (r: Vec<String>)
    ensures
        texts(r@) == split_by(query@, between_terms()),
{
    let c = chars_of(query);
    let mut out: Vec<String> = Vec::new();
    let mut current = String::new();
    let mut i: usize = 0;
    let ghost f = between_terms();
    proof {
        assert(texts(out@).push(current@) =~= split_by(query@.take(0), f));
    }
    while i < c.len()
        invariant
            i <= c@.len(),
            c@ == query@,
            f == between_terms(),
            texts(out@).push(current@) == split_by(query@.take(i as int), f),
        decreases c@.len() - i,
    {
        proof {
            lemma_take_step(query@, i as int);
        }
        let ch: char = c[i];
        let ghost before = split_by(query@.take(i as int), f);
        proof {
            assert(before.last() == current@);
            assert(before.drop_last() =~= texts(out@));
        }
        if char_is_space(ch) || ch == ',' || ch == ';' {
            proof {
                lemma_texts_push(out@, current);
            }
            out.push(current);
            current = String::new();
            proof {
                assert(current@ =~= Seq::<char>::empty());
            }
        } else {
            current.push(ch);
        }
        i = i + 1;
        proof {
            assert(texts(out@).push(current@) =~= split_by(query@.take(i as int), f));
        }
    }
    proof {
        lemma_take_full(query@);
        lemma_texts_push(out@, current);
    }
    out.push(current);
    out
}

pub fn mcp_tool_search_terms(query: &str) -> (r: Vec<String>)
    ensures
        texts(r@) == terms(query@),
{
    let parts = query_parts(query);
    let ghost src = texts(parts@);
    let mut out: Vec<String> = Vec::new();
    let mut i: usize = 0;
    proof {
        assert(texts(out@) =~= Seq::<Seq<char>>::empty());
    }
    while i < parts.len()
        invariant
            i <= parts@.len(),
            src == texts(parts@),
            texts(out@) == terms_of(src.take(i as int)),
        decreases parts@.len() - i,
    {
        proof {
            lemma_take_step(src, i as int);
            assert(src[i as int] == parts@[i as int]@);
        }
        let t = term_of(parts[i].as_str());
        if !t.as_str().is_empty() {
            proof {
                lemma_texts_push(out@, t);
            }
            out.push(t);
        }
        i = i + 1;
    }
    proof {
        lemma_take_full(src);
    }
    out
}

// ---------------------------------------------------------------------------
// Scores
// ---------------------------------------------------------------------------

/// Whether the characters of a text stand in another one in order, from given places on.
pub open spec fn is_subsequence(hay: Seq<char>, i: int, needle: Seq<char>, j: int) -> bool
    decreases hay.len() - i,
{
    if j >= needle.len() {
        true
    } else if i < 0 || i >= hay.len() {
        false
    } else if hay[i] == needle[j] {
        is_subsequence(hay, i + 1, needle, j + 1)
    } else {
        is_subsequence(hay, i + 1, needle, j)
    }
}

/// Whether a text of three characters or more stands in another one, gaps allowed.
pub open spec fn fuzzy(hay: Seq<char>, needle: Seq<char>) -> bool {
    needle.len() >= 3 && is_subsequence(hay, 0, needle, 0)
}

pub fn fuzzy_subsequence_match(haystack: &str, needle: &str) -> (r: bool)
    ensures
        r == fuzzy(haystack@, needle@),
{
    let h = chars_of(haystack);
    let p = chars_of(needle);
    if p.len() < 3 {
        return false;
    }
    let mut i: usize = 0;
    let mut j: usize = 0;
    while i < h.len() && j < p.len()
        invariant
            i <= h@.len(),
            j <= p@.len(),
            h@ == haystack@,
            p@ == needle@,
            is_subsequence(h@, 0, p@, 0) == is_subsequence(h@, i as int, p@, j as int),
        decreases h@.len() - i,
    {
        if h[i] == p[j] {
            j = j + 1;
        }
        i = i + 1;
    }
    j >= p.len()
}

/// How well a field fits a term.
pub open spec fn field_score(
    field: Seq<char>,
    t: Seq<char>,
    exact: nat,
    contained: nat,
    near: nat,
) -> nat {
    let f = ascii_lower(field);
    let score = (if f == t {
        exact
    } else {
        0
    }) + (if contains_text(f, t) {
        contained
    } else {
        0
    });
    if score == 0 && fuzzy(f, t) {
        near
    } else {
        score
    }
}

pub fn mcp_tool_field_score(
    field: &str,
    term: &str,
    exact_score: usize,
    contains_score: usize,
    fuzzy_score: usize,
) -> (r: usize)
    requires
        exact_score + contains_score <= usize::MAX,
    ensures
        r == field_score(
            field@,
            term@,
            exact_score as nat,
            contains_score as nat,
            fuzzy_score as nat,
        ),
{
    let f = to_ascii_lower(field);
    let mut score: usize = 0;
    if str_eq(f.as_str(), term) {
        score = score + exact_score;
    }
    if contains(f.as_str(), term) {
        score = score + contains_score;
    }
    if score == 0 && fuzzy_subsequence_match(f.as_str(), term) {
        score = fuzzy_score;
    }
    score
}

pub open spec fn larger(a: nat, b: nat) -> nat {
    if a >= b {
        a
    } else {
        b
    }
}

/// How well a tool fits a term: its best field counts.
pub open spec fn term_score(tool: McpTool, t: Seq<char>) -> nat {
    larger(
        larger(
            field_score(tool.full_name, t, 100, 50, 20),
            field_score(tool.remote_name, t, 100, 50, 20),
        ),
        field_score(tool.description, t, 0, 10, 3),
    )
}

pub fn best_mcp_tool_field_score(tool: &McpToolSpec, term: &str) -> (r: usize)
    ensures
        r == term_score(tool@, term@),
        r <= 150,
{
    let a: usize = mcp_tool_field_score(tool.full_name.as_str(), term, 100, 50, 20);
    let b: usize = mcp_tool_field_score(tool.remote_name.as_str(), term, 100, 50, 20);
    let c: usize = mcp_tool_field_score(tool.description.as_str(), term, 0, 10, 3);
    let ab: usize = if a >= b {
        a
    } else {
        b
    };
    if ab >= c {
        ab
    } else {
        c
    }
}

/// The scores of several terms together.
pub open spec fn terms_score(tool: McpTool, v: Seq<Seq<char>>, base: nat) -> nat
    decreases v.len(),
{
    if v.len() == 0 {
        base
    } else {
        sat_add(terms_score(tool, v.drop_last(), base), term_score(tool, v.last()))
    }
}

/// How well a tool fits a query: as a whole and term by term.
pub open spec fn query_score(tool: McpTool, query: Seq<char>) -> nat {
    let q = ascii_lower(trimmed(query));
    if q.len() == 0 {
        0
    } else if asks_for_all(q) {
        1
    } else {
        terms_score(tool, terms(q), term_score(tool, q))
    }
}

pub fn mcp_tool_search_score(tool: &McpToolSpec, query: &str) -> (r: usize)
    ensures
        r == query_score(tool@, query@),
{
    let q = to_ascii_lower(trim(query).as_str());
    if q.as_str().is_empty() {
        return 0;
    }
    if is_mcp_tool_search_all_query(q.as_str()) {
        return 1;
    }
    let base: usize = best_mcp_tool_field_score(tool, q.as_str());
    let mut score: usize = base;
    let v = mcp_tool_search_terms(q.as_str());
    let ghost src = texts(v@);
    let mut i: usize = 0;
    while i < v.len()
        invariant
            i <= v@.len(),
            src == texts(v@),
            score == terms_score(tool@, src.take(i as int), base as nat),
        decreases v@.len() - i,
    {
        proof {
            lemma_take_step(src, i as int);
            assert(src[i as int] == v@[i as int]@);
        }
        let more: usize = best_mcp_tool_field_score(tool, v[i].as_str());
        score = score.saturating_add(more);
        i = i + 1;
    }
    proof {
        lemma_take_full(src);
    }
    score
}

// ---------------------------------------------------------------------------
// Search
// ---------------------------------------------------------------------------

/// The better fit comes first; of two that fit alike, the one whose name comes first.
pub open spec fn fits_better(a: McpTool, b: McpTool, query: Seq<char>) -> bool {
    let x = query_score(a, query);
    let y = query_score(b, query);
    x > y || (x == y && text_lt(a.full_name, b.full_name))
}

pub open spec fn with_match(v: Seq<McpTool>, t: McpTool, query: Seq<char>) -> Seq<McpTool>
    decreases v.len(),
{
    if v.len() > 0 && fits_better(t, v.last(), query) {
        with_match(v.drop_last(), t, query).push(v.last())
    } else {
        v.push(t)
    }
}

/// The tools that fit a query, in order.
pub open spec fn matching_tools(v: Seq<McpTool>, query: Seq<char>) -> Seq<McpTool>
    decreases v.len(),
{
    if v.len() == 0 {
        Seq::empty()
    } else if query_score(v.last(), query) == 0 {
        matching_tools(v.drop_last(), query)
    } else {
        with_match(matching_tools(v.drop_last(), query), v.last(), query)
    }
}

/// The tools that a search gives: the first of those that fit, or all of them if all are asked
/// for.
pub open spec fn mcp_search(v: Seq<McpTool>, query: Seq<char>, max: nat) -> Seq<McpTool> {
    let found = matching_tools(v, query);
    let limit = if asks_for_all(query) {
        usize::MAX as nat
    } else if max == 0 {
        1
    } else {
        max
    };
    if found.len() > limit {
        found.take(limit as int)
    } else {
        found
    }
}

fn goes_before(a: &McpToolSpec, b: &McpToolSpec, query: &str) -> (r: bool)
    ensures
        r == fits_better(a@, b@, query@),
{
    let x: usize = mcp_tool_search_score(a, query);
    let y: usize = mcp_tool_search_score(b, query);
    x > y || (x == y && text_before(a.full_name.as_str(), b.full_name.as_str()))
}

proof fn lemma_with_match_at(v: Seq<McpTool>, t: McpTool, query: Seq<char>, i: int)
    requires
        0 <= i <= v.len(),
        i == 0 || !fits_better(t, v[i - 1], query),
        forall|k: int| i <= k < v.len() ==> fits_better(t, #[trigger] v[k], query),
    ensures
        with_match(v, t, query) == v.insert(i, t),
    decreases v.len(),
{
    if v.len() > 0 && fits_better(t, v.last(), query) {
        assert(i < v.len());
        lemma_with_match_at(v.drop_last(), t, query, i);
        assert(with_match(v, t, query) =~= v.insert(i, t));
    } else {
        if i < v.len() {
            assert(fits_better(t, v[v.len() - 1], query));
        }
        assert(with_match(v, t, query) =~= v.insert(i, t));
    }
}

fn insert_match(v: &mut Vec<McpToolSpec>, t: McpToolSpec, query: &str)
    ensures
        mcp_tools(final(v)@) == with_match(mcp_tools(old(v)@), t@, query@),
{
    let n: usize = v.len();
    let mut i: usize = n;
    while i > 0 && goes_before(&t, &v[i - 1], query)
        invariant
            i <= n,
            n == v@.len(),
            *v == *old(v),
            forall|k: int| i <= k < n ==> fits_better(t@, #[trigger] mcp_tools(v@)[k], query@),
        decreases i,
    {
        i = i - 1;
        proof {
            assert(mcp_tools(v@)[i as int] == v@[i as int]@);
        }
    }
    proof {
        if i > 0 {
            assert(mcp_tools(v@)[i - 1] == v@[i - 1]@);
        }
        lemma_with_match_at(mcp_tools(v@), t@, query@, i as int);
    }
    v.insert(i, t);
    proof {
        assert(mcp_tools(v@) =~= mcp_tools(old(v)@).insert(i as int, t@));
    }
}

/// Searches tools.
pub fn search_mcp_tools(tools: &Vec<McpToolSpec>, query: &str, max_results: usize) -> (r: Vec<
    McpToolSpec,
>)
    ensures
        mcp_tools(r@) == mcp_search(mcp_tools(tools@), query@, max_results as nat),
{
    let limit: usize = mcp_tool_search_limit(query, max_results);
    let ghost src = mcp_tools(tools@);
    let mut out: Vec<McpToolSpec> = Vec::new();
    let mut i: usize = 0;
    proof {
        assert(mcp_tools(out@) =~= Seq::<McpTool>::empty());
    }
    while i < tools.len()
        invariant
            i <= tools@.len(),
            src == mcp_tools(tools@),
            mcp_tools(out@) == matching_tools(src.take(i as int), query@),
        decreases tools@.len() - i,
    {
        proof {
            lemma_take_step(src, i as int);
            assert(src[i as int] == tools@[i as int]@);
        }
        if mcp_tool_search_score(&tools[i], query) > 0 {
            insert_match(&mut out, tools[i].copy(), query);
        }
        i = i + 1;
    }
    proof {
        lemma_take_full(src);
        assert(mcp_tools(out@).len() == out@.len());
    }
    if out.len() > limit {
        let ghost all = mcp_tools(out@);
        out.truncate(limit);
        proof {
            assert(mcp_tools(out@) =~= all.take(limit as int));
        }
    }
    out
}

proof fn lemma_with_match_orders(v: Seq<McpTool>, t: McpTool, query: Seq<char>)
    requires
        in_order(v, query),
    ensures
        in_order(with_match(v, t, query), query),
        forall|i: int|
            0 <= i < with_match(v, t, query).len() ==> (#[trigger] with_match(v, t, query)[i]) == t
                || v.contains(with_match(v, t, query)[i]),
    decreases v.len(),
{
    let r = with_match(v, t, query);
    if v.len() > 0 && fits_better(t, v.last(), query) {
        let w = v.drop_last();
        assert(in_order(w, query)) by {
            assert forall|i: int, j: int| 0 <= i < j < w.len() implies !fits_better(
                #[trigger] w[j],
                #[trigger] w[i],
                query,
            ) by {
                assert(!fits_better(v[j], v[i], query));
            }
        }
        lemma_with_match_orders(w, t, query);
        let q = with_match(w, t, query);
        assert forall|i: int| 0 <= i < r.len() implies (#[trigger] r[i]) == t || v.contains(
            r[i],
        ) by {
            if i < r.len() - 1 {
                assert(r[i] == q[i]);
                if q[i] != t {
                    let k = w.index_of(q[i]);
                    assert(v[k] == r[i]);
                }
            } else {
                assert(v[v.len() - 1] == r[i]);
            }
        }
        assert forall|i: int, j: int| 0 <= i < j < r.len() implies !fits_better(
            #[trigger] r[j],
            #[trigger] r[i],
            query,
        ) by {
            assert(r[i] == q[i]);
            if j < r.len() - 1 {
                assert(r[j] == q[j]);
            } else {
                assert(r[j] == v.last());
                if q[i] == t {
                    lemma_better_one_way(t, v.last(), query);
                } else {
                    let k = w.index_of(q[i]);
                    assert(!fits_better(v[v.len() - 1], v[k], query));
                }
            }
        }
    } else {
        assert forall|i: int| 0 <= i < r.len() implies (#[trigger] r[i]) == t || v.contains(
            r[i],
        ) by {
            if i < v.len() {
                assert(v[i] == r[i]);
            }
        }
        assert forall|i: int, j: int| 0 <= i < j < r.len() implies !fits_better(
            #[trigger] r[j],
            #[trigger] r[i],
            query,
        ) by {
            if j < v.len() {
                assert(!fits_better(v[j], v[i], query));
            } else if i < v.len() - 1 {
                assert(!fits_better(v[v.len() - 1], v[i], query));
                lemma_not_better_chain(t, v.last(), v[i], query);
            }
        }
    }
}

proof fn lemma_better_one_way(a: McpTool, b: McpTool, query: Seq<char>)
    requires
        fits_better(a, b, query),
    ensures
        !fits_better(b, a, query),
{
    if text_lt(a.full_name, b.full_name) && text_lt(b.full_name, a.full_name) {
        lemma_text_lt_transitive(a.full_name, b.full_name, a.full_name);
        lemma_text_lt_irreflexive(a.full_name);
    }
}

proof fn lemma_not_better_chain(a: McpTool, b: McpTool, c: McpTool, query: Seq<char>)
    requires
        !fits_better(a, b, query),
        !fits_better(b, c, query),
    ensures
        !fits_better(a, c, query),
{
    if fits_better(a, c, query) {
        lemma_text_lt_total(a.full_name, b.full_name);
        lemma_text_lt_total(b.full_name, c.full_name);
        if text_lt(b.full_name, a.full_name) && text_lt(a.full_name, c.full_name) {
            lemma_text_lt_transitive(b.full_name, a.full_name, c.full_name);
        }
    }
}

/// Whether no tool fits better than one before it.
pub open spec fn in_order(v: Seq<McpTool>, query: Seq<char>) -> bool {
    forall|i: int, j: int|
        0 <= i < j < v.len() ==> !fits_better(#[trigger] v[j], #[trigger] v[i], query)
}

/// What a search finds fits, and the better fit comes first.
pub proof fn law_search_orders(v: Seq<McpTool>, query: Seq<char>)
    ensures
        in_order(matching_tools(v, query), query),
        forall|i: int|
            0 <= i < matching_tools(v, query).len() ==> query_score(
                #[trigger] matching_tools(v, query)[i],
                query,
            ) > 0,
    decreases v.len(),
{
    if v.len() > 0 {
        law_search_orders(v.drop_last(), query);
        if query_score(v.last(), query) != 0 {
            lemma_with_match_orders(matching_tools(v.drop_last(), query), v.last(), query);
        }
    }
}

proof fn lemma_with_match_len(v: Seq<McpTool>, t: McpTool, query: Seq<char>)
    ensures
        with_match(v, t, query).len() == v.len() + 1,
    decreases v.len(),
{
    if v.len() > 0 && fits_better(t, v.last(), query) {
        lemma_with_match_len(v.drop_last(), t, query);
    }
}

/// A query for everything finds every tool, however few were asked for.
pub proof fn law_all_finds_all(v: Seq<McpTool>, query: Seq<char>, max: nat)
    requires
        asks_for_all(query),
        v.len() <= usize::MAX,
    ensures
        mcp_search(v, query, max).len() == v.len(),
{
    lemma_all_scores(query);
    lemma_all_match(v, query);
}

proof fn lemma_all_scores(query: Seq<char>)
    requires
        asks_for_all(query),
    ensures
        forall|t: McpTool| #[trigger] query_score(t, query) == 1,
{
    let q = ascii_lower(trimmed(query));
    reveal_strlit("all");
    reveal_strlit("*");
    assert(trimmed(q) == q && ascii_lower(q) == q) by {
        assert(trimmed_start(q) == q);
        assert(trimmed_end(q) == q);
        assert(ascii_lower(q) =~= q);
    }
    assert forall|t: McpTool| #[trigger] query_score(t, query) == 1 by {}
}

proof fn lemma_all_match(v: Seq<McpTool>, query: Seq<char>)
    requires
        forall|t: McpTool| #[trigger] query_score(t, query) == 1,
    ensures
        matching_tools(v, query).len() == v.len(),
    decreases v.len(),
{
    if v.len() > 0 {
        lemma_all_match(v.drop_last(), query);
        assert(query_score(v.last(), query) == 1);
        lemma_with_match_len(matching_tools(v.drop_last(), query), v.last(), query);
    }
}

/// A tool with a name.
pub open spec fn tool_at(v: Seq<McpTool>, name: Seq<char>, i: int) -> Option<McpTool>
    decreases v.len() - i,
{
    if i < 0 || i >= v.len() {
        None
    } else if v[i].full_name == name {
        Some(v[i])
    } else {
        tool_at(v, name, i + 1)
    }
}

/// The first tool with a name.
pub fn find_mcp_tool<'a>(tools: &'a Vec<McpToolSpec>, full_name: &str) -> (r: Option<
    &'a McpToolSpec,
>)
    ensures
        match r {
            Some(t) => tool_at(mcp_tools(tools@), full_name@, 0) == Some(t@),
            None => tool_at(mcp_tools(tools@), full_name@, 0) is None,
        },
{
    let ghost src = mcp_tools(tools@);
    let mut i: usize = 0;
    while i < tools.len()
        invariant
            i <= tools@.len(),
            src == mcp_tools(tools@),
            tool_at(src, full_name@, 0) == tool_at(src, full_name@, i as int),
        decreases tools@.len() - i,
    {
        proof {
            assert(src[i as int] == tools@[i as int]@);
        }
        if str_eq(tools[i].full_name.as_str(), full_name) {
            return Some(&tools[i]);
        }
        i = i + 1;
    }
    None
}

pub fn has_cached_mcp_tool(tools: &Vec<McpToolSpec>, full_name: &str) -> (r: bool)
    ensures
        r == tool_at(mcp_tools(tools@), full_name@, 0) is Some,
{
    find_mcp_tool(tools, full_name).is_some()
}

// ---------------------------------------------------------------------------
// Merging
// ---------------------------------------------------------------------------

/// Tools ordered by name with one more, which takes the place of one with its name.
pub open spec fn with_mcp_tool(v: Seq<McpTool>, t: McpTool) -> Seq<McpTool>
    decreases v.len(),
{
    if v.len() == 0 {
        seq![t]
    } else if t.full_name == v.last().full_name {
        v.drop_last().push(t)
    } else if text_lt(t.full_name, v.last().full_name) {
        with_mcp_tool(v.drop_last(), t).push(v.last())
    } else {
        v.push(t)
    }
}

pub open spec fn merged_tools(base: Seq<McpTool>, v: Seq<McpTool>) -> Seq<McpTool>
    decreases v.len(),
{
    if v.len() == 0 {
        base
    } else {
        with_mcp_tool(merged_tools(base, v.drop_last()), v.last())
    }
}

proof fn lemma_with_mcp_tool_at(v: Seq<McpTool>, t: McpTool, i: int)
    requires
        0 <= i <= v.len(),
        forall|k: int| i <= k < v.len() ==> text_lt(t.full_name, (#[trigger] v[k]).full_name) && t.full_name
            != v[k].full_name,
        i > 0 ==> !text_lt(t.full_name, v[i - 1].full_name) || t.full_name == v[i - 1].full_name,
    ensures
        with_mcp_tool(v, t) == if i > 0 && v[i - 1].full_name == t.full_name {
            v.update(i - 1, t)
        } else {
            v.insert(i, t)
        },
    decreases v.len(),
{
    if i == v.len() {
        if v.len() == 0 {
            assert(v.insert(i, t) =~= seq![t]);
        } else if v.last().full_name == t.full_name {
            assert(v.update(i - 1, t) =~= v.drop_last().push(t));
        } else {
            assert(v.insert(i, t) =~= v.push(t));
        }
    } else {
        assert(v.last() == v[v.len() - 1]);
        lemma_with_mcp_tool_at(v.drop_last(), t, i);
        if i > 0 && v[i - 1].full_name == t.full_name {
            assert(v.update(i - 1, t) =~= v.drop_last().update(i - 1, t).push(v.last()));
        } else {
            assert(v.insert(i, t) =~= v.drop_last().insert(i, t).push(v.last()));
        }
    }
}

fn put_mcp_tool(v: &mut Vec<McpToolSpec>, t: McpToolSpec)
    ensures
        mcp_tools(final(v)@) == with_mcp_tool(mcp_tools(old(v)@), t@),
{
    let n: usize = v.len();
    let mut i: usize = n;
    while i > 0 && !str_eq(t.full_name.as_str(), v[i - 1].full_name.as_str()) && text_before(
        t.full_name.as_str(),
        v[i - 1].full_name.as_str(),
    )
        invariant
            i <= n,
            n == v@.len(),
            *v == *old(v),
            forall|k: int|
                i <= k < n ==> text_lt(t@.full_name, (#[trigger] mcp_tools(v@)[k]).full_name)
                    && t@.full_name != mcp_tools(v@)[k].full_name,
        decreases i,
    {
        i = i - 1;
        proof {
            assert(mcp_tools(v@)[i as int] == v@[i as int]@);
        }
    }
    proof {
        if i > 0 {
            assert(mcp_tools(v@)[i - 1] == v@[i - 1]@);
        }
        lemma_with_mcp_tool_at(mcp_tools(v@), t@, i as int);
    }
    if i > 0 && str_eq(t.full_name.as_str(), v[i - 1].full_name.as_str()) {
        let ghost text = t@;
        v.set(i - 1, t);
        proof {
            assert(mcp_tools(v@) =~= mcp_tools(old(v)@).update(i - 1, text));
        }
    } else {
        let ghost text = t@;
        v.insert(i, t);
        proof {
            assert(mcp_tools(v@) =~= mcp_tools(old(v)@).insert(i as int, text));
        }
    }
}

fn put_all(out: &mut Vec<McpToolSpec>, v: &Vec<McpToolSpec>)
    ensures
        mcp_tools(final(out)@) == merged_tools(mcp_tools(old(out)@), mcp_tools(v@)),
{
    let ghost base = mcp_tools(out@);
    let ghost src = mcp_tools(v@);
    let mut i: usize = 0;
    while i < v.len()
        invariant
            i <= v@.len(),
            src == mcp_tools(v@),
            mcp_tools(out@) == merged_tools(base, src.take(i as int)),
        decreases v@.len() - i,
    {
        proof {
            lemma_take_step(src, i as int);
            assert(src[i as int] == v@[i as int]@);
        }
        put_mcp_tool(out, v[i].copy());
        i = i + 1;
    }
    proof {
        lemma_take_full(src);
    }
}

/// The tools of two lists, ordered by name; of two with one name the fresh one counts.
pub fn merge_tool_specs(existing: &Vec<McpToolSpec>, fresh: &Vec<McpToolSpec>) -> (r: Vec<
    McpToolSpec,
>)
    ensures
        mcp_tools(r@) == merged_tools(
            merged_tools(Seq::empty(), mcp_tools(existing@)),
            mcp_tools(fresh@),
        ),
{
    let mut out: Vec<McpToolSpec> = Vec::new();
    proof {
        assert(mcp_tools(out@) =~= Seq::<McpTool>::empty());
    }
    put_all(&mut out, existing);
    put_all(&mut out, fresh);
    out
}

proof fn lemma_put_has(v: Seq<McpTool>, t: McpTool)
    ensures
        with_mcp_tool(v, t).contains(t),
    decreases v.len(),
{
    let r = with_mcp_tool(v, t);
    if v.len() == 0 {
        assert(r[0] == t);
    } else if t.full_name == v.last().full_name {
        assert(r[r.len() - 1] == t);
    } else if text_lt(t.full_name, v.last().full_name) {
        lemma_put_has(v.drop_last(), t);
        let w = with_mcp_tool(v.drop_last(), t);
        let k = w.index_of(t);
        assert(r[k] == t);
    } else {
        assert(r[r.len() - 1] == t);
    }
}

/// The last of the fresh tools is always there afterwards.
pub proof fn law_fresh_tool_counts(base: Seq<McpTool>, v: Seq<McpTool>)
    requires
        v.len() > 0,
    ensures
        merged_tools(base, v).contains(v.last()),
{
    lemma_put_has(merged_tools(base, v.drop_last()), v.last());
}

// ---------------------------------------------------------------------------
// Definitions
// ---------------------------------------------------------------------------

/// The schema of a tool that gives none: any object.
pub open spec fn any_object_schema() -> JsonView {
    JsonView::Object(
        seq![
            ("type"@, JsonView::Str("object"@)),
            ("properties"@, JsonView::Object(Seq::empty())),
            ("additionalProperties"@, JsonView::Bool(true)),
        ],
    )
}

pub open spec fn has_key(j: JsonView, key: Seq<char>) -> bool {
    j is Object && has_field(j->Object_0, key)
}

pub open spec fn tool_schema(j: JsonView) -> JsonView {
    if has_key(j, "inputSchema"@) {
        j.at("inputSchema"@)
    } else if has_key(j, "input_schema"@) {
        j.at("input_schema"@)
    } else {
        any_object_schema()
    }
}

/// Whether a tool of a server is used: it is named among those enabled, if any are, and not
/// among those disabled.
pub open spec fn tool_is_used(s: McpServerConfig, name: Seq<char>) -> bool {
    (s.enabled_tools@.len() == 0 || texts(s.enabled_tools@).contains(name)) && !texts(
        s.disabled_tools@,
    ).contains(name)
}

pub open spec fn decoded_tool(server: Seq<char>, j: JsonView, name: Seq<char>) -> McpTool {
    McpTool {
        full_name: "mcp__"@ + server + "__"@ + name,
        server,
        remote_name: name,
        description: j.at("description"@).text_or(""@),
        input_schema: tool_schema(j),
        read_only: or_flag(j.at("annotations"@).at("readOnlyHint"@).flag(), false),
    }
}

/// The tools that a server lists, those that are used.
pub open spec fn decoded(server: Seq<char>, s: McpServerConfig, v: Seq<JsonView>) -> Seq<McpTool>
    decreases v.len(),
{
    if v.len() == 0 {
        Seq::empty()
    } else {
        let before = decoded(server, s, v.drop_last());
        match v.last().at("name"@).text() {
            Some(name) => if tool_is_used(s, name) {
                before.push(decoded_tool(server, v.last(), name))
            } else {
                before
            },
            None => before,
        }
    }
}

fn any_object() -> (r: Json)
    ensures
        r@ == any_object_schema(),
{
    let none: Vec<(String, Json)> = Vec::new();
    proof {
        assert(field_views(none@) =~= Seq::<(Seq<char>, JsonView)>::empty());
    }
    object3(
        "type",
        json_text("object"),
        "properties",
        object(none),
        "additionalProperties",
        Json::Bool(true),
    )
}

fn schema_of(j: &Json) -> (r: Json)
    ensures
        r@ == tool_schema(j@),
{
    match j.get("inputSchema") {
        Some(s) => clone_json(s),
        None => match j.get("input_schema") {
            Some(s) => clone_json(s),
            None => any_object(),
        },
    }
}

/// The tools in the answer of a server, those that are used.
pub fn decode_tool_specs(server_name: &str, server: &McpServerConfig, result: &Json) -> (r: Vec<
    McpToolSpec,
>)
    ensures
        mcp_tools(r@) == decoded(server_name@, *server, result@.at("tools"@).elements()),
{
    let listed = elements_in(result.get("tools"));
    let ghost src = jsons(listed@);
    let mut out: Vec<McpToolSpec> = Vec::new();
    let mut i: usize = 0;
    proof {
        assert(mcp_tools(out@) =~= Seq::<McpTool>::empty());
    }
    while i < listed.len()
        invariant
            i <= listed@.len(),
            src == jsons(listed@),
            mcp_tools(out@) == decoded(server_name@, *server, src.take(i as int)),
        decreases listed@.len() - i,
    {
        proof {
            lemma_take_step(src, i as int);
            assert(src[i as int] == listed@[i as int]@);
        }
        let j = &listed[i];
        if let Some(name) = text_in(j.get("name")) {
            if (server.enabled_tools.len() == 0 || contains_string(
                &server.enabled_tools,
                name.as_str(),
            )) && !contains_string(&server.disabled_tools, name.as_str()) {
                let spec_of_tool = McpToolSpec {
                    full_name: "mcp__".to_owned().concat(server_name).concat("__").concat(
                        name.as_str(),
                    ),
                    server: server_name.to_owned(),
                    remote_name: name,
                    description: text_in_or(j.get("description"), ""),
                    input_schema: schema_of(j),
                    read_only: flag_or(
                        flag_in(get_in(j.get("annotations"), "readOnlyHint")),
                        false,
                    ),
                };
                proof {
                    lemma_mcp_push(out@, spec_of_tool);
                }
                out.push(spec_of_tool);
            }
        }
        i = i + 1;
    }
    proof {
        lemma_take_full(src);
    }
    out
}

/// A tool that is disabled is never used.
pub proof fn law_disabled_is_unused(server: Seq<char>, s: McpServerConfig, v: Seq<JsonView>, i: int)
    requires
        0 <= i < decoded(server, s, v).len(),
    ensures
        !texts(s.disabled_tools@).contains(decoded(server, s, v)[i].remote_name),
        decoded(server, s, v)[i].server == server,
    decreases v.len(),
{
    if v.len() > 0 {
        let before = decoded(server, s, v.drop_last());
        if i < before.len() {
            law_disabled_is_unused(server, s, v.drop_last(), i);
        }
    }
}

/// The definition of a tool for a model.
pub open spec fn mcp_definition(t: McpTool) -> JsonView {
    JsonView::Object(
        seq![
            ("type"@, JsonView::Str("function"@)),
            (
                "function"@,
                JsonView::Object(
                    seq![
                        ("name"@, JsonView::Str(t.full_name)),
                        (
                            "description"@,
                            JsonView::Str(
                                if is_blank(t.description) {
                                    "[MCP:"@ + t.server + "] Call MCP tool `"@ + t.remote_name
                                        + "`."@
                                } else {
                                    "[MCP:"@ + t.server + "] "@ + t.description
                                },
                            ),
                        ),
                        ("parameters"@, t.input_schema),
                    ],
                ),
            ),
        ],
    )
}

pub fn define_mcp_tool(tool: &McpToolSpec) -> (r: Json)
    ensures
        r@ == mcp_definition(tool@),
{
    let description = if blank(tool.description.as_str()) {
        "[MCP:".to_owned().concat(tool.server.as_str()).concat("] Call MCP tool `").concat(
            tool.remote_name.as_str(),
        ).concat("`.")
    } else {
        "[MCP:".to_owned().concat(tool.server.as_str()).concat("] ").concat(
            tool.description.as_str(),
        )
    };
    object2(
        "type",
        json_text("function"),
        "function",
        object3(
            "name",
            json_text(tool.full_name.as_str()),
            "description",
            json_text(description.as_str()),
            "parameters",
            clone_json(&tool.input_schema),
        ),
    )
}

/// The definitions of tools for a model.
pub fn mcp_tool_definitions(tools: &Vec<McpToolSpec>) -> (r: Vec<Json>)
    ensures
        jsons(r@) == mcp_tools(tools@).map_values(|t: McpTool| mcp_definition(t)),
{
    let ghost goal = mcp_tools(tools@).map_values(|t: McpTool| mcp_definition(t));
    let mut out: Vec<Json> = Vec::new();
    let mut i: usize = 0;
    proof {
        assert(jsons(out@) =~= goal.take(0));
    }
    while i < tools.len()
        invariant
            i <= tools@.len(),
            goal == mcp_tools(tools@).map_values(|t: McpTool| mcp_definition(t)),
            jsons(out@) == goal.take(i as int),
        decreases tools@.len() - i,
    {
        let j = define_mcp_tool(&tools[i]);
        proof {
            assert(mcp_tools(tools@)[i as int] == tools@[i as int]@);
            lemma_take_step(goal, i as int);
            lemma_jsons_push(out@, j);
        }
        out.push(j);
        i = i + 1;
    }
    proof {
        lemma_take_full(goal);
    }
    out
}

/// The definition of the tool with a name.
pub fn mcp_tool_definition_for_name(tools: &Vec<McpToolSpec>, name: &str) -> (r: Option<Json>)
    ensures
        match (tool_at(mcp_tools(tools@), name@, 0), r) {
            (Some(t), Some(j)) => j@ == mcp_definition(t),
            (None, None) => true,
            _ => false,
        },
{
    match find_mcp_tool(tools, name) {
        Some(t) => Some(define_mcp_tool(t)),
        None => None,
    }
}

} // verus!
