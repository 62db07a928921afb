//! What outside servers and their tools are used for, and which skills are found.

use crate::config::{AppConfig, McpServerConfig};
use crate::error::Failure;
use crate::json::{JsonView, field_from, printed_json};
use crate::markdown_laws::lemma_tag_found;
use crate::mcp::{
    DaemonServerSession, DaemonStepView, McpCache, McpDaemonRequest, McpServerProbe,
    call_result_text, daemon_call, daemon_step, enabled_names, not_positive, probe_failure,
    probed_tools_of, result_blocks, rpc_answer, server_issues, server_state, session_tools,
    session_with, structured_part, used_servers,
};
use crate::mcp_search::{
    McpTool, decoded, has_key, mcp_definition, mcp_tools, term_score, tool_at, with_mcp_tool,
};
use crate::skills::{
    SkillView, limited_skill, resolved_skill, skill_before, skill_line, skill_lines,
    skill_list, sorted_skills, summary_from, wanted_skills, with_skill,
};
use crate::table::{Table, lemma_text_lt_irreflexive, lemma_text_lt_transitive, text_lt};
use crate::table_laws::lemma_contained;
use crate::text::{
    ascii_lower, byte_prefix, bytes_len, contains_text, decimal, is_blank, join,
    law_contained_text_stands_somewhere, matches_at, opt_text, split_once_spec,
    starts_with_spec, texts, trimmed,
};
use vstd::prelude::*;

verus! {

/// A tool that a server lists is known under the name of the server and its own, with what the
/// server says of it; tools that are switched off are left out.
pub proof fn law_listed_tool_is_known(
    server: Seq<char>,
    s: McpServerConfig,
    v: Seq<JsonView>,
    j: JsonView,
    name: Seq<char>,
    text: Seq<char>,
)
    requires
        j.at("name"@) == JsonView::Str(name),
        j.at("description"@) == JsonView::Str(text),
    ensures
        s.enabled_tools@.len() == 0 && !texts(s.disabled_tools@).contains(name) ==> decoded(
            server,
            s,
            v.push(j),
        ).len() == decoded(server, s, v).len() + 1 && ({
            let t = decoded(server, s, v.push(j)).last();
            &&& t.full_name == "mcp__"@ + server + "__"@ + name
            &&& t.server == server
            &&& t.remote_name == name
            &&& t.description == text
            &&& has_key(j, "inputSchema"@) ==> t.input_schema == j.at("inputSchema"@)
            &&& t.read_only <==> j.at("annotations"@).at("readOnlyHint"@) == JsonView::Bool(true)
        }),
        texts(s.enabled_tools@).contains(name) && !texts(s.disabled_tools@).contains(name)
            ==> decoded(server, s, v.push(j)).len() == decoded(server, s, v).len() + 1,
        s.enabled_tools@.len() > 0 && !texts(s.enabled_tools@).contains(name) ==> decoded(
            server,
            s,
            v.push(j),
        ) == decoded(server, s, v),
        texts(s.disabled_tools@).contains(name) ==> decoded(server, s, v.push(j)) == decoded(
            server,
            s,
            v,
        ),
        decoded(server, s, v.push(j)).len() >= decoded(server, s, v).len() && decoded(
            server,
            s,
            v.push(j),
        ).take(decoded(server, s, v).len() as int) == decoded(server, s, v),
{
    assert(v.push(j).drop_last() =~= v);
    let b = decoded(server, s, v);
    assert(b.take(b.len() as int) =~= b);
    assert(decoded(server, s, v.push(j)).take(b.len() as int) =~= b);
}

/// A model is told of an outside tool under its full name, with its schema and where it is from.
pub proof fn law_outside_tool_is_defined(t: McpTool)
    ensures
        ({
            let f = mcp_definition(t).at("function"@);
            &&& mcp_definition(t).at("type"@) == JsonView::Str("function"@)
            &&& f.at("name"@) == JsonView::Str(t.full_name)
            &&& f.at("parameters"@) == t.input_schema
            &&& !is_blank(t.description) ==> f.at("description"@) == JsonView::Str(
                "[MCP:"@ + t.server + "] "@ + t.description,
            )
        }),
{
    reveal_with_fuel(field_from, 4);
    reveal_strlit("type");
    reveal_strlit("function");
    reveal_strlit("name");
    reveal_strlit("description");
    reveal_strlit("parameters");
    assert("type"@.len() == 4 && "function"@.len() == 8 && "name"@.len() == 4 && "description"@.len()
        == 11 && "parameters"@.len() == 10);
}

proof fn lemma_tool_at(v: Seq<McpTool>, name: Seq<char>, i: int)
    requires
        0 <= i,
    ensures
        match tool_at(v, name, i) {
            Some(t) => t.full_name == name && v.contains(t),
            None => forall|k: int| i <= k < v.len() ==> (#[trigger] v[k]).full_name != name,
        },
    decreases v.len() - i,
{
    if i < v.len() {
        if v[i].full_name == name {
            assert(v.contains(v[i]));
        } else {
            lemma_tool_at(v, name, i + 1);
        }
    }
}

/// A call goes to the first server that has the tool, under the name that it has there, with its
/// arguments; a tool that no server has is refused.
pub proof fn law_call_goes_to_server(
    v: Seq<DaemonServerSession>,
    name: Seq<char>,
    arguments: JsonView,
)
    ensures
        match daemon_call(v, name, arguments) {
            Ok((i, p)) => {
                &&& 0 <= i < v.len()
                &&& exists|t: McpTool|
                    #[trigger] mcp_tools(v[i].tools@).contains(t) && t.full_name == name && p.at(
                        "name"@,
                    ) == JsonView::Str(t.remote_name)
                &&& p.at("arguments"@) == arguments
                &&& forall|k: int, m: int|
                    0 <= k < i && 0 <= m < v[k].tools@.len() ==> (#[trigger] v[k].tools@[m])@.full_name
                        != name
            },
            Err(_) => arguments is Object ==> forall|k: int, m: int|
                0 <= k < v.len() && 0 <= m < v[k].tools@.len() ==> (
                #[trigger] v[k].tools@[m])@.full_name != name,
        },
{
    reveal_with_fuel(field_from, 3);
    reveal_strlit("name");
    reveal_strlit("arguments");
    assert("name"@.len() == 4 && "arguments"@.len() == 9);
    lemma_session_with(v, name, 0);
}

proof fn lemma_session_with(v: Seq<DaemonServerSession>, name: Seq<char>, i: int)
    requires
        0 <= i,
    ensures
        match session_with(v, name, i) {
            Some((k, t)) => i <= k < v.len() && t.full_name == name && mcp_tools(
                v[k].tools@,
            ).contains(t) && (forall|j: int, m: int|
                i <= j < k && 0 <= m < v[j].tools@.len() ==> (#[trigger] v[j].tools@[m])@.full_name
                    != name),
            None => forall|j: int, m: int|
                i <= j < v.len() && 0 <= m < v[j].tools@.len() ==> (
                #[trigger] v[j].tools@[m])@.full_name != name,
        },
    decreases v.len() - i,
{
    if i < v.len() {
        let w = mcp_tools(v[i].tools@);
        lemma_tool_at(w, name, 0);
        if tool_at(w, name, 0) is None {
            assert forall|m: int| 0 <= m < v[i].tools@.len() implies (
            #[trigger] v[i].tools@[m])@.full_name != name by {
                assert(w[m] == v[i].tools@[m]@);
            }
            lemma_session_with(v, name, i + 1);
        }
    }
}

/// What a running helper is asked for it does: it stops, tells its tools, says that it is there, or
/// makes a call; anything else it refuses.
pub proof fn law_helper_answers(r: McpDaemonRequest, v: Seq<DaemonServerSession>, name: Seq<char>)
    ensures
        r.kind@ == "stop"@ ==> daemon_step(r, v) is Stop,
        r.kind@ == "health"@ ==> (daemon_step(r, v) matches DaemonStepView::Reply(a) && a.ok),
        r.kind@ == "tools"@ ==> (daemon_step(r, v) matches DaemonStepView::Reply(a) && a.ok
            && a.tools == Some(session_tools(v))),
        r.kind@ == "call"@ && opt_text(r.full_name) == Some(name) ==> match daemon_call(
            v,
            name,
            match r.arguments {
                Some(a) => a@,
                None => JsonView::Null,
            },
        ) {
            Ok((i, p)) => daemon_step(r, v) == DaemonStepView::Call(i, p),
            Err(e) => daemon_step(r, v) matches DaemonStepView::Reply(a) && !a.ok && a.error
                == Some(e.message),
        },
        r.kind@ == "call"@ && r.full_name is None ==> (daemon_step(r, v)
            matches DaemonStepView::Reply(a) && !a.ok),
        r.kind@ != "stop"@ && r.kind@ != "health"@ && r.kind@ != "tools"@ && r.kind@ != "call"@
            ==> (daemon_step(r, v) matches DaemonStepView::Reply(a) && !a.ok),
{
    reveal_strlit("stop");
    reveal_strlit("tools");
    reveal_strlit("health");
    reveal_strlit("call");
    assert("stop"@.len() == 4 && "tools"@.len() == 5 && "health"@.len() == 6 && "call"@.len() == 4
        && "stop"@[0] == 's' && "call"@[0] == 'c');
}

/// The tools of all servers are told, server by server.
pub proof fn law_all_tools_are_told(v: Seq<DaemonServerSession>, k: int, m: int)
    requires
        0 <= k < v.len(),
        0 <= m < v[k].tools@.len(),
    ensures
        session_tools(v).contains(v[k].tools@[m]@),
    decreases v.len(),
{
    let before = session_tools(v.drop_last());
    let last = mcp_tools(v.last().tools@);
    let t = v[k].tools@[m]@;
    if k == v.len() - 1 {
        assert(last[m] == t);
        assert((before + last)[before.len() + m] == t);
    } else {
        law_all_tools_are_told(v.drop_last(), k, m);
        let i = choose|i: int| 0 <= i < before.len() && before[i] == t;
        assert((before + last)[i] == t);
    }
}

/// The answer to a request is its result, or its error with the words of the server.
pub proof fn law_answer_is_taken(message: JsonView, id: u64, method: Seq<char>, text: Seq<char>)
    requires
        message.at("id"@) == JsonView::Unsigned(id),
    ensures
        message.at("error"@) is Null ==> rpc_answer(message, id, method) == Some(
            Ok::<JsonView, Failure>(message.at("result"@)),
        ),
        message.at("error"@).at("message"@) == JsonView::Str(text) ==> (rpc_answer(
            message,
            id,
            method,
        ) matches Some(Err(e)) && text.is_suffix_of(e.message)),
{
    if message.at("error"@).at("message"@) == JsonView::Str(text) {
        assert(!(message.at("error"@) is Null));
        let start = "MCP request `"@ + method + "` failed: "@;
        assert(text.is_suffix_of(start + text)) by {
            assert((start + text).subrange(start.len() as int, (start + text).len() as int) =~= text);
        }
    }
}

/// The result of a call is told by its texts, in order, with blank lines between them.
pub proof fn law_result_is_told(result: JsonView, v: Seq<JsonView>, told: Seq<Seq<char>>)
    requires
        result.at("content"@) == JsonView::Array(v),
        structured_part(result) is Null,
        v.len() == told.len(),
        v.len() > 0,
        forall|i: int|
            0 <= i < v.len() ==> (#[trigger] v[i]).at("text"@) == JsonView::Str(told[i])
                && !is_blank(told[i]),
    ensures
        call_result_text(result) == join(told, seq!['\n', '\n']),
{
    reveal_strlit("\n\n");
    assert("\n\n"@ =~= seq!['\n', '\n']);
    lemma_result_blocks(v, told);
}

proof fn lemma_result_blocks(v: Seq<JsonView>, told: Seq<Seq<char>>)
    requires
        v.len() == told.len(),
        forall|i: int|
            0 <= i < v.len() ==> (#[trigger] v[i]).at("text"@) == JsonView::Str(told[i])
                && !is_blank(told[i]),
    ensures
        result_blocks(v) == told,
    decreases v.len(),
{
    if v.len() > 0 {
        let w = v.drop_last();
        assert forall|i: int| 0 <= i < w.len() implies (#[trigger] w[i]).at("text"@)
            == JsonView::Str(told.drop_last()[i]) && !is_blank(told.drop_last()[i]) by {
            assert(w[i] == v[i]);
        }
        lemma_result_blocks(w, told.drop_last());
        assert(v[v.len() - 1].at("text"@) == JsonView::Str(told[told.len() - 1]));
        assert(result_blocks(v) =~= told);
    } else {
        assert(result_blocks(v) =~= told);
    }
}

/// Whether a name is that of one of the first `n` servers, and that one is switched on.
pub open spec fn switched_on(t: Table<McpServerConfig>, n: int, name: Seq<char>) -> bool {
    exists|m: int| 0 <= m < n && #[trigger] t.keys()[m] == name && t.values()[m].enabled
}

/// The servers that are used are those that are switched on, in order, and none where outside
/// tools are switched off.
pub proof fn law_servers_are_used(c: AppConfig, i: int)
    requires
        0 <= i < c.mcp.keys().len(),
    ensures
        c.tools.mcp != Some(true) ==> enabled_names(c).len() == 0,
        c.tools.mcp == Some(true) && c.mcp.values()[i].enabled ==> enabled_names(c).contains(
            c.mcp.keys()[i],
        ),
        forall|k: int|
            0 <= k < enabled_names(c).len() ==> switched_on(
                c.mcp,
                c.mcp.keys().len() as int,
                #[trigger] enabled_names(c)[k],
            ),
{
    lemma_used_servers(c.mcp, c.mcp.keys().len() as int, i);
}

proof fn lemma_used_servers(t: Table<McpServerConfig>, n: int, i: int)
    requires
        0 <= n <= t.keys().len(),
        0 <= i,
    ensures
        i < n && t.values()[i].enabled ==> used_servers(t, n).contains(t.keys()[i]),
        forall|k: int|
            0 <= k < used_servers(t, n).len() ==> switched_on(t, n, #[trigger] used_servers(t, n)[k]),
    decreases n,
{
    if n > 0 {
        lemma_used_servers(t, n - 1, i);
        let before = used_servers(t, n - 1);
        let all = used_servers(t, n);
        if t.values()[n - 1].enabled {
            assert(all[before.len() as int] == t.keys()[n - 1]);
            if i < n - 1 && t.values()[i].enabled {
                let k = choose|k: int| 0 <= k < before.len() && before[k] == t.keys()[i];
                assert(all[k] == t.keys()[i]);
            }
            assert forall|k: int| 0 <= k < all.len() implies switched_on(
                t,
                n,
                #[trigger] all[k],
            ) by {
                if k < before.len() {
                    assert(switched_on(t, n - 1, before[k]));
                } else {
                    assert(t.keys()[n - 1] == all[k]);
                }
            }
        } else {
            assert forall|k: int| 0 <= k < all.len() implies switched_on(
                t,
                n,
                #[trigger] all[k],
            ) by {
                assert(switched_on(t, n - 1, before[k]));
            }
        }
    }
}

/// A server without faults has a command, is reached by its standard streams, and its limits are
/// above zero.
pub proof fn law_server_faults(name: Seq<char>, s: McpServerConfig)
    ensures
        server_issues(name, s).len() == 0 <==> {
            &&& !is_blank(s.command@)
            &&& s.kind matches Some(k) ==> k@ == "stdio"@
            &&& s.startup_timeout_sec matches Some(t) ==> !not_positive(t@)
            &&& s.tool_timeout_sec matches Some(t) ==> !not_positive(t@)
        },
        not_positive("0"@) && not_positive("0.0"@) && not_positive("-1"@) && !not_positive("1"@),
{
    reveal_strlit("0");
    reveal_strlit("0.0");
    reveal_strlit("-1");
    reveal_strlit("1");
    reveal_strlit("-");
    reveal_strlit("0.");
    assert("0."@[0] == '0' && "0."@[1] == '.');
    assert("-"@.is_prefix_of("-1"@)) by {
        assert("-1"@.subrange(0, 1) =~= "-"@);
    }
    assert("1"@[0] == '1');
    assert(!"0."@.contains('1'));
    assert(!"-"@.is_prefix_of("1"@)) by {
        assert("-"@[0] == '-');
    }
}

/// The full name of a tool finds it, before all others that fit less.
pub proof fn law_full_name_fits_best(t: McpTool, q: Seq<char>)
    requires
        ascii_lower(t.full_name) == q,
    ensures
        term_score(t, q) == 150,
        forall|u: McpTool| #[trigger] term_score(u, q) <= 150,
        forall|u: McpTool|
            ascii_lower(u.full_name) != q && ascii_lower(u.remote_name) != q ==> #[trigger] term_score(
                u,
                q,
            ) <= 50,
{
    let none = Seq::<char>::empty();
    assert(none + q + none =~= q);
    lemma_contained(none, q, none);
}

/// Outside tools are in order of their names, one of each name, and a later one of a name counts.
pub proof fn law_merged_tools_have_one_name(base: Seq<McpTool>, t: McpTool, other: McpTool)
    requires
        forall|i: int, j: int|
            0 <= i < j < base.len() ==> text_lt(
                (#[trigger] base[i]).full_name,
                (#[trigger] base[j]).full_name,
            ),
        base.contains(other),
    ensures
        ({
            let w = with_mcp_tool(base, t);
            &&& w.contains(t)
            &&& other.full_name != t.full_name ==> w.contains(other)
            &&& other.full_name == t.full_name && other != t ==> !w.contains(other)
        }),
{
    lemma_merged(base, t);
    let w = with_mcp_tool(base, t);
    if other.full_name == t.full_name && w.contains(other) {
        let k = choose|k: int| 0 <= k < w.len() && w[k] == other;
        assert(w[k].full_name == t.full_name);
    }
}

proof fn lemma_merged(v: Seq<McpTool>, t: McpTool)
    requires
        forall|i: int, j: int|
            0 <= i < j < v.len() ==> text_lt(
                (#[trigger] v[i]).full_name,
                (#[trigger] v[j]).full_name,
            ),
    ensures
        ({
            let w = with_mcp_tool(v, t);
            &&& w.contains(t)
            &&& forall|x: McpTool|
                v.contains(x) && x.full_name != t.full_name ==> #[trigger] w.contains(x)
            &&& forall|k: int|
                0 <= k < w.len() && (#[trigger] w[k]).full_name == t.full_name ==> w[k] == t
        }),
    decreases v.len(),
{
    let w = with_mcp_tool(v, t);
    if v.len() == 0 {
        assert(w[0] == t);
    } else {
        let u = v.drop_last();
        let last = v.len() - 1;
        assert forall|i: int, j: int| 0 <= i < j < u.len() implies text_lt(
            (#[trigger] u[i]).full_name,
            (#[trigger] u[j]).full_name,
        ) by {
            assert(text_lt(v[i].full_name, v[j].full_name));
        }
        if t.full_name == v.last().full_name {
            assert(w[last] == t);
            assert forall|x: McpTool| v.contains(x) && x.full_name
                != t.full_name implies #[trigger] w.contains(x) by {
                let k = choose|k: int| 0 <= k < v.len() && v[k] == x;
                assert(w[k] == x);
            }
            assert forall|k: int|
                0 <= k < w.len() && (#[trigger] w[k]).full_name == t.full_name implies w[k] == t by {
                if k < last {
                    assert(text_lt(v[k].full_name, v[last].full_name));
                    lemma_text_lt_irreflexive(t.full_name);
                }
            }
        } else if text_lt(t.full_name, v.last().full_name) {
            lemma_merged(u, t);
            let x = with_mcp_tool(u, t);
            let i = choose|i: int| 0 <= i < x.len() && x[i] == t;
            assert(w[i] == t);
            assert forall|y: McpTool| v.contains(y) && y.full_name
                != t.full_name implies #[trigger] w.contains(y) by {
                let k = choose|k: int| 0 <= k < v.len() && v[k] == y;
                if k < last {
                    assert(u[k] == y);
                    assert(x.contains(y));
                    let m = choose|m: int| 0 <= m < x.len() && x[m] == y;
                    assert(w[m] == y);
                } else {
                    assert(w[w.len() - 1] == y);
                }
            }
            assert forall|k: int|
                0 <= k < w.len() && (#[trigger] w[k]).full_name == t.full_name implies w[k] == t by {
                if k < x.len() {
                    assert(x[k] == w[k]);
                }
            }
        } else {
            assert(w[v.len() as int] == t);
            assert forall|x: McpTool| v.contains(x) && x.full_name
                != t.full_name implies #[trigger] w.contains(x) by {
                let k = choose|k: int| 0 <= k < v.len() && v[k] == x;
                assert(w[k] == x);
            }
            assert forall|k: int|
                0 <= k < w.len() && (#[trigger] w[k]).full_name == t.full_name implies w[k] == t by {
                if k < last {
                    assert(text_lt(v[k].full_name, v[last].full_name));
                }
            }
        }
    }
}

/// The only skill of a name is found by it, in any scope or in its own.
pub proof fn law_skill_is_found(v: Seq<SkillView>, i: int)
    requires
        0 <= i < v.len(),
        !v[i].name.contains(':'),
        !v[i].scope.contains(':'),
        forall|k: int| 0 <= k < v.len() && k != i ==> (#[trigger] v[k]).name != v[i].name,
    ensures
        resolved_skill(v, v[i].name, None) == Ok::<SkillView, Failure>(v[i]),
        resolved_skill(v, v[i].name, Some(v[i].scope)) == Ok::<SkillView, Failure>(v[i]),
        resolved_skill(v, v[i].scope + seq![':'] + v[i].name, None) == Ok::<SkillView, Failure>(
            v[i],
        ),
        forall|s: Seq<char>|
            s != v[i].scope ==> #[trigger] resolved_skill(v, v[i].name, Some(s)) is Err,
{
    let n = v[i].name;
    reveal_strlit(":");
    assert(":"@ =~= seq![':']);
    lemma_no_colon(n);
    lemma_no_colon(v[i].scope);
    lemma_tag_found(v[i].scope, ":"@, n);
    lemma_wanted_skills(v, None, n, i);
    lemma_wanted_skills(v, Some(v[i].scope), n, i);
    assert forall|s: Seq<char>| s != v[i].scope implies #[trigger] resolved_skill(
        v,
        n,
        Some(s),
    ) is Err by {
        lemma_wanted_skills(v, Some(s), n, i);
    }
}

proof fn lemma_no_colon(s: Seq<char>)
    requires
        !s.contains(':'),
    ensures
        !contains_text(s, ":"@),
        split_once_spec(s, ":"@) is None,
{
    reveal_strlit(":");
    law_contained_text_stands_somewhere(s, ":"@);
    if contains_text(s, ":"@) {
        let i = choose|i: int| matches_at(s, ":"@, i);
        assert(s.subrange(i, i + 1)[0] == ':');
        assert(s[i] == ':');
    }
}

proof fn lemma_wanted_skills(v: Seq<SkillView>, scope: Option<Seq<char>>, name: Seq<char>, i: int)
    requires
        0 <= i,
        forall|k: int| 0 <= k < v.len() && k != i ==> (#[trigger] v[k]).name != name,
        i < v.len() ==> v[i].name == name,
    ensures
        wanted_skills(v, scope, name) == if i < v.len() && (scope matches Some(s) ==> s
            == v[i].scope) {
            seq![i]
        } else {
            Seq::empty()
        },
    decreases v.len(),
{
    if v.len() > 0 {
        let w = v.drop_last();
        assert forall|k: int| 0 <= k < w.len() && k != i implies (#[trigger] w[k]).name != name by {
            assert(w[k] == v[k]);
        }
        lemma_wanted_skills(w, scope, name, i);
        if i != v.len() - 1 {
            assert(v[v.len() - 1].name != name);
        }
        assert(wanted_skills(v, scope, name) =~= if i < v.len() && (scope matches Some(s) ==> s
            == v[i].scope) {
            seq![i]
        } else {
            Seq::empty()
        });
    }
}

/// Skills are listed one on a line, those whose names hold the query in any case, in order.
pub proof fn law_skills_are_listed(v: Seq<SkillView>, s: SkillView, q: Seq<char>)
    ensures
        skill_lines(v.push(s), None) == skill_lines(v, None).push(skill_line(s)),
        contains_text(ascii_lower(s.name), ascii_lower(q)) ==> skill_lines(v.push(s), Some(q))
            == skill_lines(v, Some(q)).push(skill_line(s)),
        !contains_text(ascii_lower(s.name), ascii_lower(q)) ==> skill_lines(v.push(s), Some(q))
            == skill_lines(v, Some(q)),
        skill_lines(Seq::empty(), None).len() == 0 && skill_lines(Seq::empty(), Some(q)).len() == 0,
        skill_list(v, None) == if v.len() == 0 {
            "no skills found"@
        } else {
            join(v.map_values(|s: SkillView| skill_line(s)), "\n"@)
        },
        starts_with_spec(skill_line(s), s.scope + ":"@ + s.name + " path="@ + s.path),
{
    assert(v.push(s).drop_last() =~= v);
    lemma_all_skills(v);
    let head = s.scope + ":"@ + s.name + " path="@ + s.path;
    assert(head.is_prefix_of(head));
    if let Some(t) = s.summary {
        if t.len() > 0 {
            let rest = " summary="@ + printed_json(JsonView::Str(t));
            assert(skill_line(s) =~= head + rest);
        }
    }
}

proof fn lemma_all_skills(v: Seq<SkillView>)
    ensures
        skill_lines(v, None) == v.map_values(|s: SkillView| skill_line(s)),
    decreases v.len(),
{
    if v.len() > 0 {
        lemma_all_skills(v.drop_last());
    }
    assert(skill_lines(v, None) =~= v.map_values(|s: SkillView| skill_line(s)));
}

/// Ordering skills loses and invents none.
pub proof fn law_skills_stay(v: Seq<SkillView>)
    ensures
        sorted_skills(v).to_multiset() == v.to_multiset(),
        forall|i: int| 0 < i < sorted_skills(v).len() ==> !skill_before(
            #[trigger] sorted_skills(v)[i],
            sorted_skills(v)[i - 1],
        ),
    decreases v.len(),
{
    broadcast use vstd::seq_lib::group_to_multiset_ensures;

    if v.len() > 0 {
        law_skills_stay(v.drop_last());
        assert(v.drop_last().push(v.last()) =~= v);
        lemma_with_skill(sorted_skills(v.drop_last()), v.last());
    } else {
        assert(sorted_skills(v) =~= v);
    }
}

proof fn lemma_with_skill(v: Seq<SkillView>, s: SkillView)
    requires
        forall|i: int| 0 < i < v.len() ==> !skill_before(#[trigger] v[i], v[i - 1]),
    ensures
        with_skill(v, s).to_multiset() == v.to_multiset().insert(s),
        with_skill(v, s).len() == v.len() + 1,
        with_skill(v, s).last() == s || (v.len() > 0 && with_skill(v, s).last() == v.last()),
        forall|i: int|
            0 < i < with_skill(v, s).len() ==> !skill_before(
                #[trigger] with_skill(v, s)[i],
                with_skill(v, s)[i - 1],
            ),
    decreases v.len(),
{
    broadcast use vstd::seq_lib::group_to_multiset_ensures;

    let w = with_skill(v, s);
    if v.len() > 0 && skill_before(s, v.last()) {
        let u = v.drop_last();
        assert forall|i: int| 0 < i < u.len() implies !skill_before(#[trigger] u[i], u[i - 1]) by {
            assert(u[i] == v[i]);
        }
        lemma_with_skill(u, s);
        let x = with_skill(u, s);
        assert(u.push(v.last()) =~= v);
        assert(w == x.push(v.last()));
        assert(w.to_multiset() =~= v.to_multiset().insert(s));
        assert forall|i: int| 0 < i < w.len() implies !skill_before(#[trigger] w[i], w[i - 1]) by {
            if i < x.len() {
                assert(x[i] == w[i] && x[i - 1] == w[i - 1]);
            } else {
                assert(w[i - 1] == x.last());
                if x.last() == s {
                    lemma_skill_order(s, v.last());
                } else {
                    assert(x.last() == u.last());
                    assert(v[v.len() - 1] == v.last());
                    assert(v[v.len() - 2] == u.last());
                }
            }
        }
    } else {
        assert(w == v.push(s));
        assert forall|i: int| 0 < i < w.len() implies !skill_before(#[trigger] w[i], w[i - 1]) by {
            if i < v.len() {
                assert(v[i] == w[i]);
            }
        }
    }
}

proof fn lemma_skill_order(a: SkillView, b: SkillView)
    requires
        skill_before(a, b),
    ensures
        !skill_before(b, a),
{
    lemma_text_lt_irreflexive(a.scope);
    lemma_text_lt_irreflexive(a.name);
    if text_lt(a.scope, b.scope) && text_lt(b.scope, a.scope) {
        lemma_text_lt_transitive(a.scope, b.scope, a.scope);
    }
    if text_lt(a.name, b.name) && text_lt(b.name, a.name) {
        lemma_text_lt_transitive(a.name, b.name, a.name);
    }
}

/// The summary of a skill is the first line of its text that is neither blank nor a heading.
pub proof fn law_summary_is_first_line(v: Seq<Seq<char>>, i: int)
    requires
        0 <= i < v.len(),
        !is_blank(v[i]),
        trimmed(v[i])[0] != '#',
        forall|k: int| 0 <= k < i ==> is_blank(#[trigger] v[k]) || trimmed(v[k])[0] == '#',
        bytes_len(trimmed(v[i])) <= 120,
    ensures
        summary_from(v, 0, false) == Some(trimmed(v[i])),
{
    lemma_summary_from(v, i, 0, false);
}

proof fn lemma_summary_from(v: Seq<Seq<char>>, i: int, k: int, heading: bool)
    requires
        0 <= k <= i < v.len(),
        !is_blank(v[i]),
        trimmed(v[i])[0] != '#',
        forall|k: int| 0 <= k < i ==> is_blank(#[trigger] v[k]) || trimmed(v[k])[0] == '#',
        bytes_len(trimmed(v[i])) <= 120,
    ensures
        summary_from(v, k, heading) == Some(trimmed(v[i])),
    decreases i - k,
{
    if k < i {
        assert(is_blank(v[k]) || trimmed(v[k])[0] == '#');
        lemma_summary_from(v, i, k + 1, heading);
        lemma_summary_from(v, i, k + 1, true);
    }
}

/// A skill that is not too long is read whole; of a longer one the start is.
pub proof fn law_skill_is_read(s: Seq<char>)
    ensures
        bytes_len(s) <= 65536 ==> limited_skill(s) == s,
        bytes_len(s) > 65536 ==> byte_prefix(s, 65536).is_prefix_of(limited_skill(s)),
{
    if bytes_len(s) > 65536 {
        let p = byte_prefix(s, 65536);
        let rest = "\n\n... (truncated at 65536 bytes, total "@ + decimal(bytes_len(s))
            + " bytes)"@;
        assert(limited_skill(s) =~= p + rest);
    }
}

/// The first server that failed is told, and none where all went well.
pub proof fn law_failed_server_is_told(v: Seq<McpServerProbe>, what: Seq<char>, i: int, e: Seq<char>)
    requires
        0 <= i < v.len(),
        !v[i].ok,
        forall|k: int| 0 <= k < i ==> (#[trigger] v[k]).ok,
    ensures
        probe_failure(v, what, 0) is Some,
        opt_text(v[i].error) == Some(e) ==> probe_failure(v, what, 0)->Some_0.message == e,
        probe_failure(v.take(i), what, 0) is None,
{
    lemma_probe_failure(v, what, i, 0);
    lemma_no_failure(v.take(i), what, 0);
}

proof fn lemma_probe_failure(v: Seq<McpServerProbe>, what: Seq<char>, i: int, k: int)
    requires
        0 <= k <= i < v.len(),
        forall|k: int| 0 <= k < i ==> (#[trigger] v[k]).ok,
    ensures
        probe_failure(v, what, k) == probe_failure(v, what, i),
    decreases i - k,
{
    if k < i {
        assert(v[k].ok);
        lemma_probe_failure(v, what, i, k + 1);
    }
}

proof fn lemma_no_failure(v: Seq<McpServerProbe>, what: Seq<char>, k: int)
    requires
        0 <= k <= v.len(),
        forall|k: int| 0 <= k < v.len() ==> (#[trigger] v[k]).ok,
    ensures
        probe_failure(v, what, k) is None,
    decreases v.len() - k,
{
    if k < v.len() {
        assert(v[k].ok);
        lemma_no_failure(v, what, k + 1);
    }
}

/// The tools of the servers that answered are used, in order.
pub proof fn law_answering_servers_are_used(v: Seq<McpServerProbe>, p: McpServerProbe)
    ensures
        p.ok ==> probed_tools_of(v.push(p)) == probed_tools_of(v) + mcp_tools(p.tools@),
        !p.ok ==> probed_tools_of(v.push(p)) == probed_tools_of(v),
{
    assert(v.push(p).drop_last() =~= v);
}

/// The state of a server tells what is kept of it and what it answers.
pub proof fn law_server_state_tells(
    name: Seq<char>,
    s: McpServerConfig,
    cache: McpCache,
    v: Seq<McpServerProbe>,
    p: McpServerProbe,
)
    requires
        p.server@ == name,
    ensures
        server_state(name, s, cache, v.push(p)).live_ok == p.ok,
        server_state(name, s, cache, v.push(p)).live_tools == p.tool_count,
        server_state(name, s, cache, v.push(p)).error == opt_text(p.error),
        server_state(name, s, cache, v).server == name,
        server_state(name, s, cache, v).enabled == s.enabled,
        cache.on(name) matches Some(e) ==> server_state(name, s, cache, v).cached_tools
            == e.tools.len(),
{
}

} // verus!
