//! Servers of tools: their configuration, what is kept of them and how they are talked to.

use crate::config::{
    AppConfig, AppPaths, McpServerConfig, expand_tilde, expanded, flag_or, join_path,
    joined_path, or_flag, or_text,
};
use crate::error::{AppError, AppResult, EXIT_ARGS, EXIT_CONFIG, Failure, failure};
use crate::json::{
    Json, JsonView, clone_json, elements_in, field_views, get_in, json_number, json_text,
    jsons, lemma_object_view, object, object1, object2, object3, object4, opt_json,
    pretty_json, print_json, print_json_pretty, printed_json, text_in, text_in_or, unsigned_in,
};
use crate::mcp_search::{
    McpTool, McpToolSpec, append_mcp_tools, clone_mcp_tools, decode_tool_specs, decoded,
    find_mcp_tool, has_key, mcp_tools, tool_at,
};
use crate::screen::append_strings;
use crate::table::Table;
use crate::text::{
    all_in, blank, clone_opt, clone_strings, decimal, decimal_string, decimal_wide, is_blank,
    join, join_strings, lemma_take_full, lemma_take_step, lemma_texts_push, only_chars,
    opt_text, starts_with, starts_with_spec, str_eq, texts,
};
use vstd::prelude::*;

verus! {

pub fn mcp_enabled(config: &AppConfig) -> (r: bool)
    ensures
        r == or_flag(config.tools.mcp, false),
{
    flag_or(config.tools.mcp, false)
}

pub fn mcp_cache_path(paths: &AppPaths) -> (r: String)
    ensures
        r@ == joined_path(paths.cache_dir@, "mcp-tools.json"@),
{
    join_path(paths.cache_dir.as_str(), "mcp-tools.json")
}

pub fn mcp_daemon_pid_path(paths: &AppPaths) -> (r: String)
    ensures
        r@ == joined_path(paths.cache_dir@, "mcp-daemon.json"@),
{
    join_path(paths.cache_dir.as_str(), "mcp-daemon.json")
}

pub fn mcp_daemon_log_path(paths: &AppPaths) -> (r: String)
    ensures
        r@ == joined_path(paths.cache_dir@, "mcp-daemon.log"@),
{
    join_path(paths.cache_dir.as_str(), "mcp-daemon.log")
}

/// The directory in which a server runs.
pub fn expand_mcp_cwd(cwd: &Option<String>, home: &Option<String>) -> (r: Option<String>)
    ensures
        opt_text(r) == match opt_text(*cwd) {
            Some(d) => Some(expanded(d, opt_text(*home))),
            None => None,
        },
{
    match cwd {
        Some(d) => Some(expand_tilde(d.as_str(), home)),
        None => None,
    }
}

// ---------------------------------------------------------------------------
// Configuration
// ---------------------------------------------------------------------------

/// The servers of a configuration file, under either of two names.
#[derive(Debug)]
pub struct McpConfigCompat {
    pub mcp: Table<McpServerConfig>,
    pub mcp_servers: Table<McpServerConfig>,
}

impl McpConfigCompat {
    /// The servers under the first name, or under the second where there are none.
    pub fn into_servers(self) -> (r: Table<McpServerConfig>)
        requires
            self.mcp.wf(),
        ensures
            r == if self.mcp.keys().len() > 0 {
                self.mcp
            } else {
                self.mcp_servers
            },
    {
        if self.mcp.len() > 0 {
            self.mcp
        } else {
            self.mcp_servers
        }
    }
}

/// The first `n` servers, those that are used.
pub open spec fn used_servers(t: Table<McpServerConfig>, n: int) -> Seq<Seq<char>>
    decreases n,
{
    if n <= 0 {
        Seq::empty()
    } else if t.values()[n - 1].enabled {
        used_servers(t, n - 1).push(t.keys()[n - 1])
    } else {
        used_servers(t, n - 1)
    }
}

/// The names of the servers that are used.
pub open spec fn enabled_names(c: AppConfig) -> Seq<Seq<char>> {
    if or_flag(c.tools.mcp, false) {
        used_servers(c.mcp, c.mcp.keys().len() as int)
    } else {
        Seq::empty()
    }
}

pub fn enabled_mcp_servers(config: &AppConfig) -> (r: Vec<String>)
    requires
        config.mcp.wf(),
    ensures
        texts(r@) == enabled_names(*config),
{
    let mut out: Vec<String> = Vec::new();
    proof {
        assert(texts(out@) =~= Seq::<Seq<char>>::empty());
    }
    if !mcp_enabled(config) {
        return out;
    }
    let n: usize = config.mcp.len();
    let mut i: usize = 0;
    while i < n
        invariant
            i <= n,
            config.mcp.wf(),
            n == config.mcp.keys().len(),
            texts(out@) == used_servers(config.mcp, i as int),
        decreases n - i,
    {
        if config.mcp.value_at(i).enabled {
            let name = config.mcp.key_at(i).to_owned();
            proof {
                lemma_texts_push(out@, name);
            }
            out.push(name);
        }
        i = i + 1;
    }
    out
}

/// Whether a server is one that is used.
pub open spec fn is_used(c: AppConfig, name: Seq<char>) -> bool {
    or_flag(c.tools.mcp, false) && (c.mcp.lookup(name) matches Some(s) && s.enabled)
}

fn used_server<'a>(config: &'a AppConfig, name: &str) -> (r: Option<&'a McpServerConfig>)
    requires
        config.mcp.wf(),
    ensures
        match r {
            Some(s) => is_used(*config, name@) && config.mcp.lookup(name@) == Some(*s),
            None => !is_used(*config, name@),
        },
{
    if !mcp_enabled(config) {
        return None;
    }
    match config.mcp.get(name) {
        Some(s) => if s.enabled {
            Some(s)
        } else {
            None
        },
        None => None,
    }
}

/// Whether the text of a number is that of one which is not above zero: it has a sign, or no
/// digit but zeros.
pub open spec fn not_positive(t: Seq<char>) -> bool {
    starts_with_spec(t, "-"@) || all_in(t, "0."@)
}

fn is_not_positive(t: &Option<String>) -> (r: bool)
    ensures
        r == (opt_text(*t) matches Some(s) && not_positive(s)),
{
    match t {
        Some(s) => starts_with(s.as_str(), "-") || only_chars(s.as_str(), "0."),
        None => false,
    }
}

/// What is wrong with a server.
pub open spec fn server_issues(name: Seq<char>, s: McpServerConfig) -> Seq<Seq<char>> {
    (if is_blank(s.command@) {
        seq!["mcp."@ + name + ".command cannot be empty"@]
    } else {
        Seq::empty()
    }) + (match opt_text(s.kind) {
        Some(k) => if k == "stdio"@ {
            Seq::empty()
        } else {
            seq!["mcp."@ + name + ".type must be 'stdio'"@]
        },
        None => Seq::empty(),
    }) + (if opt_text(s.startup_timeout_sec) matches Some(t) && not_positive(t) {
        seq!["mcp."@ + name + ".startup_timeout_sec must be greater than 0"@]
    } else {
        Seq::empty()
    }) + (if opt_text(s.tool_timeout_sec) matches Some(t) && not_positive(t) {
        seq!["mcp."@ + name + ".tool_timeout_sec must be greater than 0"@]
    } else {
        Seq::empty()
    })
}

/// What is wrong with the first `n` servers.
pub open spec fn mcp_issues(t: Table<McpServerConfig>, n: int) -> Seq<Seq<char>>
    decreases n,
{
    if n <= 0 {
        Seq::empty()
    } else {
        mcp_issues(t, n - 1) + server_issues(t.keys()[n - 1], t.values()[n - 1])
    }
}

fn push_issue_on(out: &mut Vec<String>, name: &str, rest: &str)
    ensures
        texts(final(out)@) == texts(old(out)@).push("mcp."@ + name@ + rest@),
{
    let issue = "mcp.".to_owned().concat(name).concat(rest);
    proof {
        lemma_texts_push(out@, issue);
    }
    out.push(issue);
}

fn check_server(out: &mut Vec<String>, name: &str, s: &McpServerConfig)
    ensures
        texts(final(out)@) == texts(old(out)@) + server_issues(name@, *s),
{
    let ghost before = texts(out@);
    if blank(s.command.as_str()) {
        push_issue_on(out, name, ".command cannot be empty");
    }
    if let Some(k) = &s.kind {
        if !str_eq(k.as_str(), "stdio") {
            push_issue_on(out, name, ".type must be 'stdio'");
        }
    }
    if is_not_positive(&s.startup_timeout_sec) {
        push_issue_on(out, name, ".startup_timeout_sec must be greater than 0");
    }
    if is_not_positive(&s.tool_timeout_sec) {
        push_issue_on(out, name, ".tool_timeout_sec must be greater than 0");
    }
    proof {
        assert(texts(out@) =~= before + server_issues(name@, *s));
    }
}

pub fn validate_mcp_config(config: &AppConfig) -> (r: Vec<String>)
    requires
        config.mcp.wf(),
    ensures
        texts(r@) == mcp_issues(config.mcp, config.mcp.keys().len() as int),
{
    let mut out: Vec<String> = Vec::new();
    let n: usize = config.mcp.len();
    let mut i: usize = 0;
    proof {
        assert(texts(out@) =~= Seq::<Seq<char>>::empty());
    }
    while i < n
        invariant
            i <= n,
            config.mcp.wf(),
            n == config.mcp.keys().len(),
            texts(out@) == mcp_issues(config.mcp, i as int),
        decreases n - i,
    {
        check_server(&mut out, config.mcp.key_at(i), config.mcp.value_at(i));
        i = i + 1;
    }
    out
}

// ---------------------------------------------------------------------------
// What is kept
// ---------------------------------------------------------------------------

#[derive(Debug)]
pub struct McpServerCacheEntry {
    pub server: String,
    pub command: String,
    pub args: Vec<String>,
    pub cwd: Option<String>,
    pub enabled_tools: Vec<String>,
    pub disabled_tools: Vec<String>,
    pub tools: Vec<McpToolSpec>,
    pub checked_at_unix_ms: u128,
}

pub struct CacheEntry {
    pub server: Seq<char>,
    pub command: Seq<char>,
    pub args: Seq<Seq<char>>,
    pub cwd: Option<Seq<char>>,
    pub enabled_tools: Seq<Seq<char>>,
    pub disabled_tools: Seq<Seq<char>>,
    pub tools: Seq<McpTool>,
    pub checked_at_unix_ms: u128,
}

impl View for McpServerCacheEntry {
    type V = CacheEntry;

    open spec fn view(&self) -> CacheEntry {
        CacheEntry {
            server: self.server@,
            command: self.command@,
            args: texts(self.args@),
            cwd: opt_text(self.cwd),
            enabled_tools: texts(self.enabled_tools@),
            disabled_tools: texts(self.disabled_tools@),
            tools: mcp_tools(self.tools@),
            checked_at_unix_ms: self.checked_at_unix_ms,
        }
    }
}

#[derive(Debug)]
pub struct McpCache {
    pub servers: Table<McpServerCacheEntry>,
}

impl McpCache {
    /// What is kept of a server.
    pub open spec fn on(&self, name: Seq<char>) -> Option<CacheEntry> {
        match self.servers.lookup(name) {
            Some(e) => Some(e@),
            None => None,
        }
    }
}

impl Default for McpCache {
    fn default() -> (r: McpCache)
        ensures
            r.servers.wf(),
            forall|n: Seq<char>| #[trigger] r.on(n) is None,
    {
        McpCache { servers: Table::new() }
    }
}

/// What is kept of a server with its tools.
pub open spec fn entry_for(name: Seq<char>, s: McpServerConfig, tools: Seq<McpTool>, now: u128) -> CacheEntry {
    CacheEntry {
        server: name,
        command: s.command@,
        args: texts(s.args@),
        cwd: opt_text(s.cwd),
        enabled_tools: texts(s.enabled_tools@),
        disabled_tools: texts(s.disabled_tools@),
        tools,
        checked_at_unix_ms: now,
    }
}

/// Keeps the tools of a server.
pub fn set_cache_entry(
    cache: &mut McpCache,
    server_name: &str,
    server: &McpServerConfig,
    tools: &Vec<McpToolSpec>,
    now_unix_ms: u128,
)
    requires
        old(cache).servers.wf(),
    ensures
        final(cache).servers.wf(),
        forall|n: Seq<char>| #[trigger]
            final(cache).on(n) == if n == server_name@ {
                Some(entry_for(server_name@, *server, mcp_tools(tools@), now_unix_ms))
            } else {
                old(cache).on(n)
            },
{
    let ghost before = *cache;
    let entry = McpServerCacheEntry {
        server: server_name.to_owned(),
        command: server.command.clone(),
        args: clone_strings(&server.args),
        cwd: clone_opt(&server.cwd),
        enabled_tools: clone_strings(&server.enabled_tools),
        disabled_tools: clone_strings(&server.disabled_tools),
        tools: clone_mcp_tools(tools),
        checked_at_unix_ms: now_unix_ms,
    };
    cache.servers.insert(server_name, entry);
    proof {
        assert forall|n: Seq<char>| #[trigger] cache.on(n) == if n == server_name@ {
            Some(entry_for(server_name@, *server, mcp_tools(tools@), now_unix_ms))
        } else {
            before.on(n)
        } by {
            if n != server_name@ {
                assert(cache.servers.lookup(n) == before.servers.lookup(n));
            }
        }
    }
}

/// Whether two lists of texts are equal.
pub fn strings_eq(a: &Vec<String>, b: &Vec<String>) -> (r: bool)
    ensures
        r == (texts(a@) == texts(b@)),
{
    proof {
        assert(texts(a@).len() == a@.len());
        assert(texts(b@).len() == b@.len());
    }
    if a.len() != b.len() {
        return false;
    }
    let mut i: usize = 0;
    while i < a.len()
        invariant
            i <= a@.len(),
            a@.len() == b@.len(),
            forall|k: int| 0 <= k < i ==> #[trigger] texts(a@)[k] == texts(b@)[k],
        decreases a@.len() - i,
    {
        proof {
            assert(texts(a@)[i as int] == a@[i as int]@);
            assert(texts(b@)[i as int] == b@[i as int]@);
        }
        if !str_eq(a[i].as_str(), b[i].as_str()) {
            return false;
        }
        i = i + 1;
    }
    proof {
        assert(texts(a@) =~= texts(b@));
    }
    true
}

fn opt_texts_eq(a: &Option<String>, b: &Option<String>) -> (r: bool)
    ensures
        r == (opt_text(*a) == opt_text(*b)),
{
    match (a, b) {
        (Some(x), Some(y)) => str_eq(x.as_str(), y.as_str()),
        (None, None) => true,
        _ => false,
    }
}

/// Whether what is kept of a server is of the server as it is configured.
pub open spec fn still_holds(s: McpServerConfig, e: CacheEntry) -> bool {
    &&& s.command@ == e.command
    &&& texts(s.args@) == e.args
    &&& opt_text(s.cwd) == e.cwd
    &&& texts(s.enabled_tools@) == e.enabled_tools
    &&& texts(s.disabled_tools@) == e.disabled_tools
}

pub fn server_matches_cache_entry(server: &McpServerConfig, entry: &McpServerCacheEntry) -> (r:
    bool)
    ensures
        r == still_holds(*server, entry@),
{
    str_eq(server.command.as_str(), entry.command.as_str()) && strings_eq(
        &server.args,
        &entry.args,
    ) && opt_texts_eq(&server.cwd, &entry.cwd) && strings_eq(
        &server.enabled_tools,
        &entry.enabled_tools,
    ) && strings_eq(&server.disabled_tools, &entry.disabled_tools)
}

/// The tools that are kept of a server, if they are those of the server as it is configured.
pub open spec fn kept_tools(c: AppConfig, cache: McpCache, name: Seq<char>) -> Seq<McpTool> {
    match (c.mcp.lookup(name), cache.on(name)) {
        (Some(s), Some(e)) => if still_holds(s, e) {
            e.tools
        } else {
            Seq::empty()
        },
        _ => Seq::empty(),
    }
}

pub open spec fn all_kept_tools(c: AppConfig, cache: McpCache, names: Seq<Seq<char>>) -> Seq<McpTool>
    decreases names.len(),
{
    if names.len() == 0 {
        Seq::empty()
    } else {
        all_kept_tools(c, cache, names.drop_last()) + kept_tools(c, cache, names.last())
    }
}

/// The tools that are kept of the servers that are used.
pub fn cached_mcp_tools_from_disk(config: &AppConfig, cache: &McpCache) -> (r: Vec<McpToolSpec>)
    requires
        config.mcp.wf(),
        cache.servers.wf(),
    ensures
        mcp_tools(r@) == all_kept_tools(*config, *cache, enabled_names(*config)),
{
    let names = enabled_mcp_servers(config);
    let ghost src = texts(names@);
    let mut out: Vec<McpToolSpec> = Vec::new();
    let mut i: usize = 0;
    proof {
        assert(mcp_tools(out@) =~= Seq::<McpTool>::empty());
    }
    while i < names.len()
        invariant
            i <= names@.len(),
            src == texts(names@),
            config.mcp.wf(),
            cache.servers.wf(),
            mcp_tools(out@) == all_kept_tools(*config, *cache, src.take(i as int)),
        decreases names@.len() - i,
    {
        let ghost before = mcp_tools(out@);
        proof {
            lemma_take_step(src, i as int);
            assert(src[i as int] == names@[i as int]@);
            assert(before + Seq::<McpTool>::empty() =~= before);
        }
        if let Some(s) = config.mcp.get(names[i].as_str()) {
            if let Some(e) = cache.servers.get(names[i].as_str()) {
                if server_matches_cache_entry(s, e) {
                    append_mcp_tools(&mut out, &e.tools);
                }
            }
        }
        i = i + 1;
    }
    proof {
        lemma_take_full(src);
    }
    out
}

/// What was kept of a server is given back as long as the server is configured the same.
pub proof fn law_kept_tools_return(
    c: AppConfig,
    cache: McpCache,
    name: Seq<char>,
    s: McpServerConfig,
    tools: Seq<McpTool>,
    now: u128,
)
    requires
        c.mcp.lookup(name) == Some(s),
        cache.on(name) == Some(entry_for(name, s, tools, now)),
    ensures
        kept_tools(c, cache, name) == tools,
{
}

// ---------------------------------------------------------------------------
// Probes
// ---------------------------------------------------------------------------

/// What came of asking a server for its tools.
#[derive(Debug)]
pub struct McpServerProbe {
    pub server: String,
    pub ok: bool,
    pub command: String,
    pub tool_count: usize,
    pub tools: Vec<McpToolSpec>,
    pub debug: Vec<String>,
    pub error: Option<String>,
}

/// The lines that a server wrote to its error output, those that hold something.
pub open spec fn debug_lines(v: Seq<Seq<char>>) -> Seq<Seq<char>>
    decreases v.len(),
{
    if v.len() == 0 {
        Seq::empty()
    } else if is_blank(v.last()) {
        debug_lines(v.drop_last())
    } else {
        debug_lines(v.drop_last()).push("stderr: "@ + v.last())
    }
}

pub fn take_debug_lines(written: &Vec<String>) -> (r: Vec<String>)
    ensures
        texts(r@) == debug_lines(texts(written@)),
{
    let ghost src = texts(written@);
    let mut out: Vec<String> = Vec::new();
    let mut i: usize = 0;
    proof {
        assert(texts(out@) =~= Seq::<Seq<char>>::empty());
    }
    while i < written.len()
        invariant
            i <= written@.len(),
            src == texts(written@),
            texts(out@) == debug_lines(src.take(i as int)),
        decreases written@.len() - i,
    {
        proof {
            lemma_take_step(src, i as int);
            assert(src[i as int] == written@[i as int]@);
        }
        if !blank(written[i].as_str()) {
            let line = "stderr: ".to_owned().concat(written[i].as_str());
            proof {
                lemma_texts_push(out@, line);
            }
            out.push(line);
        }
        i = i + 1;
    }
    proof {
        lemma_take_full(src);
    }
    out
}

/// A probe that failed in a step.
pub fn failed_probe(
    server_name: &str,
    command: &str,
    debug: Vec<String>,
    written: &Vec<String>,
    step: &str,
    message: &str,
) -> (r: McpServerProbe)
    ensures
        r.server@ == server_name@,
        !r.ok,
        r.command@ == command@,
        r.tool_count == 0,
        r.tools@.len() == 0,
        texts(r.debug@) == (texts(debug@) + debug_lines(texts(written@))).push(
            step@ + " error: "@ + message@,
        ),
        opt_text(r.error) == Some(message@),
{
    let mut lines_of_probe = debug;
    append_strings(&mut lines_of_probe, take_debug_lines(written));
    let last = step.to_owned().concat(" error: ").concat(message);
    proof {
        lemma_texts_push(lines_of_probe@, last);
    }
    lines_of_probe.push(last);
    McpServerProbe {
        server: server_name.to_owned(),
        ok: false,
        command: command.to_owned(),
        tool_count: 0,
        tools: Vec::new(),
        debug: lines_of_probe,
        error: Some(message.to_owned()),
    }
}

/// A probe that gave tools.
pub fn successful_probe(
    server_name: &str,
    server: &McpServerConfig,
    debug: Vec<String>,
    written: &Vec<String>,
    result: &Json,
) -> (r: McpServerProbe)
    ensures
        r.server@ == server_name@,
        r.ok,
        r.command@ == server.command@,
        mcp_tools(r.tools@) == decoded(server_name@, *server, result@.at("tools"@).elements()),
        r.tool_count == r.tools@.len(),
        texts(r.debug@) == (texts(debug@) + debug_lines(texts(written@))).push(
            "tools/list ok count="@ + decimal(r.tools@.len()),
        ),
        r.error is None,
{
    let tools = decode_tool_specs(server_name, server, result);
    let count: usize = tools.len();
    let mut lines_of_probe = debug;
    append_strings(&mut lines_of_probe, take_debug_lines(written));
    let last = "tools/list ok count=".to_owned().concat(decimal_string(count as u64).as_str());
    proof {
        lemma_texts_push(lines_of_probe@, last);
    }
    lines_of_probe.push(last);
    McpServerProbe {
        server: server_name.to_owned(),
        ok: true,
        command: server.command.clone(),
        tool_count: count,
        tools,
        debug: lines_of_probe,
        error: None,
    }
}

/// The error of the first probe that failed, from `i` on.
pub open spec fn probe_failure(v: Seq<McpServerProbe>, what: Seq<char>, i: int) -> Option<Failure>
    decreases v.len() - i,
{
    if i < 0 || i >= v.len() {
        None
    } else if !v[i].ok {
        Some(
            failure(
                EXIT_CONFIG,
                match opt_text(v[i].error) {
                    Some(e) => e,
                    None => "MCP server `"@ + v[i].server@ + "` "@ + what + " failed"@,
                },
            ),
        )
    } else {
        probe_failure(v, what, i + 1)
    }
}

/// Whether all probes went well; else the error of the first that failed.
pub fn check_probes(probes: &Vec<McpServerProbe>, what: &str) -> (r: AppResult<()>)
    ensures
        match probe_failure(probes@, what@, 0) {
            Some(e) => r matches Err(f) && f@ == e,
            None => r is Ok && forall|i: int| 0 <= i < probes@.len() ==> (#[trigger] probes@[i]).ok,
        },
{
    let mut i: usize = 0;
    while i < probes.len()
        invariant
            i <= probes@.len(),
            probe_failure(probes@, what@, 0) == probe_failure(probes@, what@, i as int),
            forall|k: int| 0 <= k < i ==> (#[trigger] probes@[k]).ok,
        decreases probes@.len() - i,
    {
        if !probes[i].ok {
            let message = match &probes[i].error {
                Some(e) => e.clone(),
                None => "MCP server `".to_owned().concat(probes[i].server.as_str()).concat(
                    "` ",
                ).concat(what).concat(" failed"),
            };
            return Err(AppError::new(EXIT_CONFIG, message.as_str()));
        }
        i = i + 1;
    }
    Ok(())
}

/// What is kept of a server after the first `n` probes: the tools of the last of them that went
/// well.
pub open spec fn probed_entry(
    c: AppConfig,
    v: Seq<McpServerProbe>,
    n: int,
    name: Seq<char>,
    now: u128,
) -> Option<CacheEntry>
    decreases n,
{
    if n <= 0 {
        None
    } else if v[n - 1].ok && v[n - 1].server@ == name && is_used(c, name) {
        Some(
            entry_for(name, c.mcp.lookup(name)->Some_0, mcp_tools(v[n - 1].tools@), now),
        )
    } else {
        probed_entry(c, v, n - 1, name, now)
    }
}

/// Keeps the tools of every server whose probe went well.
pub fn persist_successful_probe_tools(
    cache: &mut McpCache,
    config: &AppConfig,
    probes: &Vec<McpServerProbe>,
    now_unix_ms: u128,
)
    requires
        config.mcp.wf(),
        old(cache).servers.wf(),
    ensures
        final(cache).servers.wf(),
        forall|n: Seq<char>| #[trigger]
            final(cache).on(n) == match probed_entry(
                *config,
                probes@,
                probes@.len() as int,
                n,
                now_unix_ms,
            ) {
                Some(e) => Some(e),
                None => old(cache).on(n),
            },
{
    let mut i: usize = 0;
    while i < probes.len()
        invariant
            i <= probes@.len(),
            config.mcp.wf(),
            cache.servers.wf(),
            forall|n: Seq<char>| #[trigger]
                cache.on(n) == match probed_entry(*config, probes@, i as int, n, now_unix_ms) {
                    Some(e) => Some(e),
                    None => old(cache).on(n),
                },
        decreases probes@.len() - i,
    {
        let ghost before = *cache;
        if probes[i].ok {
            if let Some(s) = used_server(config, probes[i].server.as_str()) {
                set_cache_entry(
                    cache,
                    probes[i].server.as_str(),
                    s,
                    &probes[i].tools,
                    now_unix_ms,
                );
            }
        }
        proof {
            assert forall|n: Seq<char>| #[trigger] cache.on(n) == match probed_entry(
                *config,
                probes@,
                i + 1,
                n,
                now_unix_ms,
            ) {
                Some(e) => Some(e),
                None => old(cache).on(n),
            } by {
                assert(before.on(n) == match probed_entry(
                    *config,
                    probes@,
                    i as int,
                    n,
                    now_unix_ms,
                ) {
                    Some(e) => Some(e),
                    None => old(cache).on(n),
                });
            }
        }
        i = i + 1;
    }
}

/// What is kept after all servers were asked: nothing changes unless all went well; asking all
/// of them drops what was kept of others.
pub fn authenticate_and_cache_mcp(
    config: &AppConfig,
    only_server: Option<&str>,
    use_cache: bool,
    cache: McpCache,
    probes: &Vec<McpServerProbe>,
    now_unix_ms: u128,
) -> (r: (Option<McpCache>, AppResult<()>))
    requires
        config.mcp.wf(),
        cache.servers.wf(),
    ensures
        match probe_failure(probes@, "probe"@, 0) {
            Some(e) => r.0 is None && (r.1 matches Err(f) && f@ == e),
            None => r.1 is Ok && if use_cache {
                r.0 matches Some(c) && c.servers.wf() && forall|n: Seq<char>| #[trigger]
                    c.on(n) == match probed_entry(
                        *config,
                        probes@,
                        probes@.len() as int,
                        n,
                        now_unix_ms,
                    ) {
                        Some(e) => Some(e),
                        None => if only_server is None {
                            None
                        } else {
                            cache.on(n)
                        },
                    }
            } else {
                r.0 is None
            },
        },
{
    match check_probes(probes, "probe") {
        Err(e) => (None, Err(e)),
        Ok(_) => {
            if !use_cache {
                return (None, Ok(()));
            }
            let mut next = if only_server.is_none() {
                McpCache::default()
            } else {
                cache
            };
            persist_successful_probe_tools(&mut next, config, probes, now_unix_ms);
            (Some(next), Ok(()))
        },
    }
}

/// The tools of the probes that went well.
pub open spec fn probed_tools_of(v: Seq<McpServerProbe>) -> Seq<McpTool>
    decreases v.len(),
{
    if v.len() == 0 {
        Seq::empty()
    } else if v.last().ok {
        probed_tools_of(v.drop_last()) + mcp_tools(v.last().tools@)
    } else {
        probed_tools_of(v.drop_last())
    }
}

pub fn successful_tools(probes: &Vec<McpServerProbe>) -> (r: Vec<McpToolSpec>)
    ensures
        mcp_tools(r@) == probed_tools_of(probes@),
{
    let mut out: Vec<McpToolSpec> = Vec::new();
    let mut i: usize = 0;
    proof {
        assert(mcp_tools(out@) =~= Seq::<McpTool>::empty());
    }
    while i < probes.len()
        invariant
            i <= probes@.len(),
            mcp_tools(out@) == probed_tools_of(probes@.take(i as int)),
        decreases probes@.len() - i,
    {
        proof {
            lemma_take_step(probes@, i as int);
        }
        if probes[i].ok {
            append_mcp_tools(&mut out, &probes[i].tools);
        }
        i = i + 1;
    }
    proof {
        lemma_take_full(probes@);
    }
    out
}

#[derive(Debug)]
pub struct McpWarmupWarning {
    pub message: String,
}

pub fn warmup_timeout_warning(now_unix_ms: u128, started_at_unix_ms: u128) -> (r: McpWarmupWarning)
    ensures
        r.message@ == "MCP warmup is still running after "@ + decimal(
            if now_unix_ms >= started_at_unix_ms {
                (now_unix_ms - started_at_unix_ms) as nat
            } else {
                0
            },
        ) + " ms; continuing without blocking until an MCP tool is used"@,
{
    let waited: u128 = if now_unix_ms >= started_at_unix_ms {
        now_unix_ms - started_at_unix_ms
    } else {
        0
    };
    let message = "MCP warmup is still running after ".to_owned().concat(
        decimal_wide(waited).as_str(),
    ).concat(" ms; continuing without blocking until an MCP tool is used");
    McpWarmupWarning { message }
}

// ---------------------------------------------------------------------------
// Status
// ---------------------------------------------------------------------------

#[derive(Debug)]
pub struct McpServerStatus {
    pub server: String,
    pub enabled: bool,
    pub cached: bool,
    pub cached_tools: usize,
    pub live_ok: bool,
    pub live_tools: usize,
    pub error: Option<String>,
}

pub struct ServerState {
    pub server: Seq<char>,
    pub enabled: bool,
    pub cached: bool,
    pub cached_tools: nat,
    pub live_ok: bool,
    pub live_tools: nat,
    pub error: Option<Seq<char>>,
}

impl View for McpServerStatus {
    type V = ServerState;

    open spec fn view(&self) -> ServerState {
        ServerState {
            server: self.server@,
            enabled: self.enabled,
            cached: self.cached,
            cached_tools: self.cached_tools as nat,
            live_ok: self.live_ok,
            live_tools: self.live_tools as nat,
            error: opt_text(self.error),
        }
    }
}

pub open spec fn server_states(v: Seq<McpServerStatus>) -> Seq<ServerState> {
    v.map_values(|s: McpServerStatus| s@)
}

/// The last probe of a server among the first `n`.
pub open spec fn last_probe(v: Seq<McpServerProbe>, name: Seq<char>, n: int) -> Option<McpServerProbe>
    decreases n,
{
    if n <= 0 {
        None
    } else if v[n - 1].server@ == name {
        Some(v[n - 1])
    } else {
        last_probe(v, name, n - 1)
    }
}

/// The status of a server: what is configured, what is kept of it and what it answers.
pub open spec fn server_state(
    name: Seq<char>,
    s: McpServerConfig,
    cache: McpCache,
    probes: Seq<McpServerProbe>,
) -> ServerState {
    let p = last_probe(probes, name, probes.len() as int);
    ServerState {
        server: name,
        enabled: s.enabled,
        cached: cache.on(name) matches Some(e) && still_holds(s, e),
        cached_tools: match cache.on(name) {
            Some(e) => e.tools.len(),
            None => 0,
        },
        live_ok: p matches Some(p) && p.ok,
        live_tools: match p {
            Some(p) => p.tool_count as nat,
            None => 0,
        },
        error: match p {
            Some(p) => opt_text(p.error),
            None => None,
        },
    }
}

pub open spec fn unused_state(name: Seq<char>) -> ServerState {
    ServerState {
        server: name,
        enabled: false,
        cached: false,
        cached_tools: 0,
        live_ok: false,
        live_tools: 0,
        error: Some("mcp disabled by config"@),
    }
}

pub open spec fn all_states(c: AppConfig, cache: McpCache, probes: Seq<McpServerProbe>) -> Seq<
    ServerState,
> {
    Seq::new(
        c.mcp.keys().len(),
        |i: int|
            if or_flag(c.tools.mcp, false) {
                server_state(c.mcp.keys()[i], c.mcp.values()[i], cache, probes)
            } else {
                unused_state(c.mcp.keys()[i])
            },
    )
}

fn find_probe<'a>(probes: &'a Vec<McpServerProbe>, name: &str) -> (r: Option<&'a McpServerProbe>)
    ensures
        match r {
            Some(p) => last_probe(probes@, name@, probes@.len() as int) == Some(*p),
            None => last_probe(probes@, name@, probes@.len() as int) is None,
        },
{
    let mut i: usize = probes.len();
    while i > 0
        invariant
            i <= probes@.len(),
            last_probe(probes@, name@, probes@.len() as int) == last_probe(
                probes@,
                name@,
                i as int,
            ),
        decreases i,
    {
        i = i - 1;
        if str_eq(probes[i].server.as_str(), name) {
            return Some(&probes[i]);
        }
    }
    None
}

fn state_of_server(
    name: &str,
    s: &McpServerConfig,
    cache: &McpCache,
    probes: &Vec<McpServerProbe>,
) -> (r: McpServerStatus)
    requires
        cache.servers.wf(),
    ensures
        r@ == server_state(name@, *s, *cache, probes@),
{
    let (cached, cached_tools) = match cache.servers.get(name) {
        Some(e) => {
            proof {
                assert(mcp_tools(e.tools@).len() == e.tools@.len());
            }
            (server_matches_cache_entry(s, e), e.tools.len())
        },
        None => (false, 0),
    };
    let (live_ok, live_tools, error) = match find_probe(probes, name) {
        Some(p) => (p.ok, p.tool_count, clone_opt(&p.error)),
        None => (false, 0, None),
    };
    McpServerStatus {
        server: name.to_owned(),
        enabled: s.enabled,
        cached,
        cached_tools,
        live_ok,
        live_tools,
        error,
    }
}

pub fn current_mcp_server_statuses(
    config: &AppConfig,
    cache: &McpCache,
    probes: &Vec<McpServerProbe>,
) -> (r: Vec<McpServerStatus>)
    requires
        config.mcp.wf(),
        cache.servers.wf(),
    ensures
        server_states(r@) == all_states(*config, *cache, probes@),
{
    let used = mcp_enabled(config);
    let n: usize = config.mcp.len();
    let ghost goal = all_states(*config, *cache, probes@);
    let mut out: Vec<McpServerStatus> = Vec::new();
    let mut i: usize = 0;
    proof {
        assert(server_states(out@) =~= goal.take(0));
    }
    while i < n
        invariant
            i <= n,
            n == config.mcp.keys().len(),
            config.mcp.wf(),
            cache.servers.wf(),
            used == or_flag(config.tools.mcp, false),
            goal == all_states(*config, *cache, probes@),
            server_states(out@) == goal.take(i as int),
        decreases n - i,
    {
        let name = config.mcp.key_at(i);
        let state = if used {
            state_of_server(name, config.mcp.value_at(i), cache, probes)
        } else {
            McpServerStatus {
                server: name.to_owned(),
                enabled: false,
                cached: false,
                cached_tools: 0,
                live_ok: false,
                live_tools: 0,
                error: Some("mcp disabled by config".to_owned()),
            }
        };
        proof {
            lemma_take_step(goal, i as int);
            assert(server_states(out@.push(state)) =~= server_states(out@).push(state@));
        }
        out.push(state);
        i = i + 1;
    }
    proof {
        lemma_take_full(goal);
    }
    out
}

#[derive(Debug)]
pub struct McpDaemonStatus {
    pub running: bool,
    pub registered: bool,
    pub pid: Option<u32>,
    pub port: Option<u16>,
    pub log_file: String,
    pub server: Option<String>,
    pub error: Option<String>,
}

#[derive(Debug)]
pub struct McpDaemonState {
    pub pid: u32,
    pub port: u16,
    pub started_at_unix_ms: u128,
    pub log_file: String,
    pub server: Option<String>,
}

#[derive(Debug)]
pub struct McpDaemonStart {
    pub pid_file: String,
    pub log_file: String,
    pub server: Option<String>,
}

#[derive(Debug)]
pub struct McpDaemonStop {
    pub pid: u32,
}

/// The status of the daemon, given what is registered of it and, if it is, whether it answers.
pub fn current_mcp_daemon_status(
    paths: &AppPaths,
    registered: Option<(McpDaemonState, AppResult<()>)>,
) -> (r: McpDaemonStatus)
    ensures
        match registered {
            Some((state, ping)) => {
                &&& r.running == ping is Ok
                &&& r.registered
                &&& r.pid == Some(state.pid)
                &&& r.port == Some(state.port)
                &&& r.log_file == state.log_file
                &&& r.server == state.server
                &&& opt_text(r.error) == match ping {
                    Ok(_) => None,
                    Err(e) => Some(e@.message),
                }
            },
            None => {
                &&& !r.running
                &&& !r.registered
                &&& r.pid is None
                &&& r.port is None
                &&& r.log_file@ == joined_path(paths.cache_dir@, "mcp-daemon.log"@)
                &&& r.server is None
                &&& r.error is None
            },
        },
{
    match registered {
        Some((state, ping)) => {
            let (running, error) = match ping {
                Ok(_) => (true, None),
                Err(e) => (false, Some(e.message)),
            };
            McpDaemonStatus {
                running,
                registered: true,
                pid: Some(state.pid),
                port: Some(state.port),
                log_file: state.log_file,
                server: state.server,
                error,
            }
        },
        None => McpDaemonStatus {
            running: false,
            registered: false,
            pid: None,
            port: None,
            log_file: mcp_daemon_log_path(paths),
            server: None,
            error: None,
        },
    }
}

// ---------------------------------------------------------------------------
// The daemon
// ---------------------------------------------------------------------------

#[derive(Debug)]
pub struct McpDaemonRequest {
    pub kind: String,
    pub full_name: Option<String>,
    pub arguments: Option<Json>,
}

#[derive(Debug)]
pub struct McpDaemonResponse {
    pub ok: bool,
    pub content: Option<String>,
    pub tools: Option<Vec<McpToolSpec>>,
    pub error: Option<String>,
}

pub struct ResponseView {
    pub ok: bool,
    pub content: Option<Seq<char>>,
    pub tools: Option<Seq<McpTool>>,
    pub error: Option<Seq<char>>,
}

impl View for McpDaemonResponse {
    type V = ResponseView;

    open spec fn view(&self) -> ResponseView {
        ResponseView {
            ok: self.ok,
            content: opt_text(self.content),
            tools: match self.tools {
                Some(v) => Some(mcp_tools(v@)),
                None => None,
            },
            error: opt_text(self.error),
        }
    }
}

pub open spec fn said(content: Seq<char>) -> ResponseView {
    ResponseView { ok: true, content: Some(content), tools: None, error: None }
}

pub open spec fn refused(error: Seq<char>) -> ResponseView {
    ResponseView { ok: false, content: None, tools: None, error: Some(error) }
}

fn say(content: String) -> (r: McpDaemonResponse)
    ensures
        r@ == said(content@),
{
    McpDaemonResponse { ok: true, content: Some(content), tools: None, error: None }
}

fn refuse(error: String) -> (r: McpDaemonResponse)
    ensures
        r@ == refused(error@),
{
    McpDaemonResponse { ok: false, content: None, tools: None, error: Some(error) }
}

/// A server that the daemon runs.
#[derive(Debug)]
pub struct DaemonServerSession {
    pub name: String,
    pub tools: Vec<McpToolSpec>,
}

/// The tools of all servers of the daemon.
pub open spec fn session_tools(v: Seq<DaemonServerSession>) -> Seq<McpTool>
    decreases v.len(),
{
    if v.len() == 0 {
        Seq::empty()
    } else {
        session_tools(v.drop_last()) + mcp_tools(v.last().tools@)
    }
}

fn all_session_tools(v: &Vec<DaemonServerSession>) -> (r: Vec<McpToolSpec>)
    ensures
        mcp_tools(r@) == session_tools(v@),
{
    let mut out: Vec<McpToolSpec> = Vec::new();
    let mut i: usize = 0;
    proof {
        assert(mcp_tools(out@) =~= Seq::<McpTool>::empty());
    }
    while i < v.len()
        invariant
            i <= v@.len(),
            mcp_tools(out@) == session_tools(v@.take(i as int)),
        decreases v@.len() - i,
    {
        proof {
            lemma_take_step(v@, i as int);
        }
        append_mcp_tools(&mut out, &v[i].tools);
        i = i + 1;
    }
    proof {
        lemma_take_full(v@);
    }
    out
}

/// The first server, from `i` on, that has a tool, and the tool.
pub open spec fn session_with(v: Seq<DaemonServerSession>, name: Seq<char>, i: int) -> Option<
    (int, McpTool),
>
    decreases v.len() - i,
{
    if i < 0 || i >= v.len() {
        None
    } else {
        match tool_at(mcp_tools(v[i].tools@), name, 0) {
            Some(t) => Some((i, t)),
            None => session_with(v, name, i + 1),
        }
    }
}

/// The parameters of a call: its arguments are an object, or missing.
pub open spec fn call_params(remote_name: Seq<char>, arguments: JsonView) -> Result<
    JsonView,
    Failure,
> {
    match arguments {
        JsonView::Object(_) => Ok(
            JsonView::Object(
                seq![("name"@, JsonView::Str(remote_name)), ("arguments"@, arguments)],
            ),
        ),
        JsonView::Null => Ok(JsonView::Object(seq![("name"@, JsonView::Str(remote_name))])),
        _ => Err(
            failure(
                EXIT_ARGS,
                "MCP tool arguments must be a JSON object, got "@ + printed_json(arguments),
            ),
        ),
    }
}

pub open spec fn json_outcome(r: AppResult<Json>) -> Result<JsonView, Failure> {
    match r {
        Ok(j) => Ok(j@),
        Err(e) => Err(e@),
    }
}

pub fn mcp_call_params(remote_name: &str, arguments: &Json) -> (r: AppResult<Json>)
    ensures
        json_outcome(r) == call_params(remote_name@, arguments@),
{
    match arguments {
        Json::Object(f) => {
            proof {
                lemma_object_view(*f);
            }
            Ok(object2("name", json_text(remote_name), "arguments", clone_json(arguments)))
        },
        Json::Null => Ok(object1("name", json_text(remote_name))),
        _ => {
            let message = "MCP tool arguments must be a JSON object, got ".to_owned().concat(
                print_json(arguments).as_str(),
            );
            Err(AppError::new(EXIT_ARGS, message.as_str()))
        },
    }
}

pub open spec fn unknown_mcp_tool(name: Seq<char>) -> Failure {
    failure(EXIT_ARGS, "unknown MCP tool `"@ + name + "`"@)
}

pub fn unknown_mcp_tool_error(name: &str) -> (r: AppError)
    ensures
        r@ == unknown_mcp_tool(name@),
{
    AppError::new(
        EXIT_ARGS,
        "unknown MCP tool `".to_owned().concat(name).concat("`").as_str(),
    )
}

/// What is asked of which server to make a call.
pub open spec fn daemon_call(v: Seq<DaemonServerSession>, name: Seq<char>, arguments: JsonView) -> Result<
    (int, JsonView),
    Failure,
> {
    match session_with(v, name, 0) {
        None => Err(unknown_mcp_tool(name)),
        Some((i, t)) => match call_params(t.remote_name, arguments) {
            Ok(p) => Ok((i, p)),
            Err(e) => Err(e),
        },
    }
}

pub fn call_daemon_session_tool(
    sessions: &Vec<DaemonServerSession>,
    full_name: &str,
    arguments: &Json,
) -> (r: AppResult<(usize, Json)>)
    ensures
        match r {
            Ok((i, p)) => daemon_call(sessions@, full_name@, arguments@) == Ok::<
                (int, JsonView),
                Failure,
            >((i as int, p@)) && i < sessions@.len(),
            Err(e) => daemon_call(sessions@, full_name@, arguments@) == Err::<
                (int, JsonView),
                Failure,
            >(e@),
        },
{
    let mut i: usize = 0;
    while i < sessions.len()
        invariant
            i <= sessions@.len(),
            session_with(sessions@, full_name@, 0) == session_with(
                sessions@,
                full_name@,
                i as int,
            ),
        decreases sessions@.len() - i,
    {
        if let Some(t) = find_mcp_tool(&sessions[i].tools, full_name) {
            return match mcp_call_params(t.remote_name.as_str(), arguments) {
                Ok(p) => Ok((i, p)),
                Err(e) => Err(e),
            };
        }
        i = i + 1;
    }
    Err(unknown_mcp_tool_error(full_name))
}

/// What the daemon does with a request.
#[derive(Debug)]
pub enum DaemonStep {
    /// It answers and ends.
    Stop(McpDaemonResponse),
    /// It answers.
    Reply(McpDaemonResponse),
    /// It makes a call to a server with these parameters and answers with what comes back.
    Call(usize, Json),
}

pub enum DaemonStepView {
    Stop(ResponseView),
    Reply(ResponseView),
    Call(int, JsonView),
}

impl View for DaemonStep {
    type V = DaemonStepView;

    open spec fn view(&self) -> DaemonStepView {
        match self {
            DaemonStep::Stop(r) => DaemonStepView::Stop(r@),
            DaemonStep::Reply(r) => DaemonStepView::Reply(r@),
            DaemonStep::Call(i, p) => DaemonStepView::Call(*i as int, p@),
        }
    }
}

pub open spec fn daemon_step(r: McpDaemonRequest, v: Seq<DaemonServerSession>) -> DaemonStepView {
    if r.kind@ == "stop"@ {
        DaemonStepView::Stop(said("stopping"@))
    } else if r.kind@ == "tools"@ {
        DaemonStepView::Reply(
            ResponseView { ok: true, content: None, tools: Some(session_tools(v)), error: None },
        )
    } else if r.kind@ == "health"@ {
        DaemonStepView::Reply(said("ok"@))
    } else if r.kind@ == "call"@ {
        match opt_text(r.full_name) {
            None => DaemonStepView::Reply(refused("missing full_name"@)),
            Some(name) => match daemon_call(
                v,
                name,
                match r.arguments {
                    Some(a) => a@,
                    None => JsonView::Null,
                },
            ) {
                Ok((i, p)) => DaemonStepView::Call(i, p),
                Err(e) => DaemonStepView::Reply(refused(e.message)),
            },
        }
    } else {
        DaemonStepView::Reply(refused("unknown MCP daemon request `"@ + r.kind@ + "`"@))
    }
}

/// Decides what the daemon does with a request.
pub fn run_mcp_daemon(request: &McpDaemonRequest, sessions: &Vec<DaemonServerSession>) -> (r:
    DaemonStep)
    ensures
        r@ == daemon_step(*request, sessions@),
        r matches DaemonStep::Call(i, _) ==> i < sessions@.len(),
{
    let kind = request.kind.as_str();
    if str_eq(kind, "stop") {
        DaemonStep::Stop(say("stopping".to_owned()))
    } else if str_eq(kind, "tools") {
        DaemonStep::Reply(
            McpDaemonResponse {
                ok: true,
                content: None,
                tools: Some(all_session_tools(sessions)),
                error: None,
            },
        )
    } else if str_eq(kind, "health") {
        DaemonStep::Reply(say("ok".to_owned()))
    } else if str_eq(kind, "call") {
        match &request.full_name {
            None => DaemonStep::Reply(refuse("missing full_name".to_owned())),
            Some(name) => {
                let outcome = match &request.arguments {
                    Some(a) => call_daemon_session_tool(sessions, name.as_str(), a),
                    None => call_daemon_session_tool(sessions, name.as_str(), &Json::Null),
                };
                match outcome {
                    Ok((i, p)) => DaemonStep::Call(i, p),
                    Err(e) => DaemonStep::Reply(refuse(e.message)),
                }
            },
        }
    } else {
        DaemonStep::Reply(
            refuse("unknown MCP daemon request `".to_owned().concat(kind).concat("`")),
        )
    }
}

/// The answer of the daemon to a call, given what the server gave.
pub fn daemon_call_reply(outcome: AppResult<String>) -> (r: McpDaemonResponse)
    ensures
        r@ == match outcome {
            Ok(content) => said(content@),
            Err(e) => refused(e@.message),
        },
{
    match outcome {
        Ok(content) => say(content),
        Err(e) => refuse(e.message),
    }
}

fn response_error(response: &McpDaemonResponse, default: &str) -> (r: AppError)
    ensures
        r@ == failure(EXIT_CONFIG, or_text(response@.error, default@)),
{
    match &response.error {
        Some(e) => AppError::new(EXIT_CONFIG, e.as_str()),
        None => AppError::new(EXIT_CONFIG, default),
    }
}

/// What came of stopping the daemon, given its answer.
pub fn stop_mcp_daemon(state: &McpDaemonState, response: AppResult<McpDaemonResponse>) -> (r:
    AppResult<McpDaemonStop>)
    ensures
        match response {
            Err(e) => r == Err::<McpDaemonStop, AppError>(e),
            Ok(p) => if p.ok {
                r matches Ok(s) && s.pid == state.pid
            } else {
                r matches Err(f) && f@ == failure(
                    EXIT_CONFIG,
                    or_text(p@.error, "failed to stop MCP daemon"@),
                )
            },
        },
{
    match response {
        Err(e) => Err(e),
        Ok(p) => {
            if p.ok {
                Ok(McpDaemonStop { pid: state.pid })
            } else {
                Err(response_error(&p, "failed to stop MCP daemon"))
            }
        },
    }
}

/// Whether the daemon answers, given its answer.
pub fn ping_mcp_daemon(response: AppResult<McpDaemonResponse>) -> (r: AppResult<()>)
    ensures
        match response {
            Err(e) => r == Err::<(), AppError>(e),
            Ok(p) => if p.ok {
                r is Ok
            } else {
                r matches Err(f) && f@ == failure(
                    EXIT_CONFIG,
                    or_text(p@.error, "MCP daemon health check failed"@),
                )
            },
        },
{
    match response {
        Err(e) => Err(e),
        Ok(p) => {
            if p.ok {
                Ok(())
            } else {
                Err(response_error(&p, "MCP daemon health check failed"))
            }
        },
    }
}

/// The tools of the daemon, given its answer.
pub fn list_mcp_tools_from_ready_daemon(
    config: &AppConfig,
    response: Option<McpDaemonResponse>,
) -> (r: Option<Vec<McpToolSpec>>)
    ensures
        if !or_flag(config.tools.mcp, false) {
            r matches Some(v) && v@.len() == 0
        } else {
            match response {
                Some(p) => if p.ok {
                    r matches Some(v) && mcp_tools(v@) == match p@.tools {
                        Some(t) => t,
                        None => Seq::empty(),
                    }
                } else {
                    r is None
                },
                None => r is None,
            }
        },
{
    if !mcp_enabled(config) {
        return Some(Vec::new());
    }
    match response {
        Some(p) => {
            if !p.ok {
                return None;
            }
            match p.tools {
                Some(v) => Some(v),
                None => {
                    let none: Vec<McpToolSpec> = Vec::new();
                    proof {
                        assert(mcp_tools(none@) =~= Seq::<McpTool>::empty());
                    }
                    Some(none)
                },
            }
        },
        None => None,
    }
}

/// What came of a call through the daemon; `None` where the server has to be asked directly.
pub fn execute_mcp_tool_with_daemon(
    config: &AppConfig,
    response: Option<McpDaemonResponse>,
) -> (r: Option<AppResult<String>>)
    ensures
        if !or_flag(config.tools.mcp, false) {
            r matches Some(Err(e)) && e@ == failure(EXIT_CONFIG, "mcp disabled by config"@)
        } else {
            match response {
                Some(p) => if p.ok {
                    r matches Some(Ok(t)) && t@ == or_text(p@.content, ""@)
                } else {
                    match p@.error {
                        Some(message) => r matches Some(Err(e)) && e@ == failure(
                            EXIT_CONFIG,
                            message,
                        ),
                        None => r is None,
                    }
                },
                None => r is None,
            }
        },
{
    if !mcp_enabled(config) {
        return Some(Err(AppError::new(EXIT_CONFIG, "mcp disabled by config")));
    }
    match response {
        Some(p) => {
            if p.ok {
                let content = match p.content {
                    Some(t) => t,
                    None => "".to_owned(),
                };
                return Some(Ok(content));
            }
            match p.error {
                Some(message) => Some(Err(AppError::new(EXIT_CONFIG, message.as_str()))),
                None => None,
            }
        },
        None => None,
    }
}

// ---------------------------------------------------------------------------
// The protocol
// ---------------------------------------------------------------------------

pub const MCP_PROTOCOL_VERSION: &'static str = "2025-03-26";

/// What a server is told at the start.
pub open spec fn initialize_json(version: Seq<char>) -> JsonView {
    JsonView::Object(
        seq![
            ("protocolVersion"@, JsonView::Str(MCP_PROTOCOL_VERSION@)),
            ("capabilities"@, JsonView::Object(Seq::empty())),
            (
                "clientInfo"@,
                JsonView::Object(
                    seq![
                        ("name"@, JsonView::Str("chat-cli"@)),
                        ("version"@, JsonView::Str(version)),
                    ],
                ),
            ),
        ],
    )
}

pub fn initialize_params(version: &str) -> (r: Json)
    ensures
        r@ == initialize_json(version@),
{
    let none: Vec<(String, Json)> = Vec::new();
    proof {
        assert(field_views(none@) =~= Seq::<(Seq<char>, JsonView)>::empty());
    }
    object3(
        "protocolVersion",
        json_text(MCP_PROTOCOL_VERSION),
        "capabilities",
        object(none),
        "clientInfo",
        object2("name", json_text("chat-cli"), "version", json_text(version)),
    )
}

/// A request to a server.
pub fn rpc_request(id: u64, method: &str, params: Json) -> (r: Json)
    ensures
        r@ == JsonView::Object(
            seq![
                ("jsonrpc"@, JsonView::Str("2.0"@)),
                ("id"@, JsonView::Unsigned(id)),
                ("method"@, JsonView::Str(method@)),
                ("params"@, params@),
            ],
        ),
{
    object4(
        "jsonrpc",
        json_text("2.0"),
        "id",
        json_number(id),
        "method",
        json_text(method),
        "params",
        params,
    )
}

/// A note to a server, which it does not answer.
pub fn rpc_notification(method: &str) -> (r: Json)
    ensures
        r@ == JsonView::Object(
            seq![
                ("jsonrpc"@, JsonView::Str("2.0"@)),
                ("method"@, JsonView::Str(method@)),
                ("params"@, JsonView::Null),
            ],
        ),
{
    object3("jsonrpc", json_text("2.0"), "method", json_text(method), "params", Json::Null)
}

/// What a message of a server says to the request with an identifier: nothing if it is not the
/// answer to it.
pub open spec fn rpc_answer(message: JsonView, id: u64, method: Seq<char>) -> Option<
    Result<JsonView, Failure>,
> {
    if message.at("id"@).unsigned() != Some(id) {
        None
    } else if !(message.at("error"@) is Null) {
        Some(
            Err(
                failure(
                    EXIT_CONFIG,
                    "MCP request `"@ + method + "` failed: "@ + message.at("error"@).at(
                        "message"@,
                    ).text_or("unknown MCP error"@),
                ),
            ),
        )
    } else {
        Some(Ok(message.at("result"@)))
    }
}

fn is_null(j: Option<&Json>) -> (r: bool)
    ensures
        r == opt_json(j) is Null,
{
    match j {
        None => true,
        Some(Json::Null) => true,
        _ => false,
    }
}

fn copy_or_null(j: Option<&Json>) -> (r: Json)
    ensures
        r@ == opt_json(j),
{
    match j {
        Some(v) => clone_json(v),
        None => Json::Null,
    }
}

pub fn rpc_reply(message: &Json, id: u64, method: &str) -> (r: Option<AppResult<Json>>)
    ensures
        match r {
            Some(outcome) => rpc_answer(message@, id, method@) == Some(json_outcome(outcome)),
            None => rpc_answer(message@, id, method@) is None,
        },
{
    match unsigned_in(message.get("id")) {
        Some(n) => {
            if n != id {
                return None;
            }
        },
        None => {
            return None;
        },
    }
    if !is_null(message.get("error")) {
        let detail = text_in_or(get_in(message.get("error"), "message"), "unknown MCP error");
        let text = "MCP request `".to_owned().concat(method).concat("` failed: ").concat(
            detail.as_str(),
        );
        return Some(Err(AppError::new(EXIT_CONFIG, text.as_str())));
    }
    Some(Ok(copy_or_null(message.get("result"))))
}

/// A reply is taken only for the request whose identifier it has.
pub proof fn law_replies_match_requests(message: JsonView, id: u64, other: u64, method: Seq<char>)
    requires
        id != other,
        rpc_answer(message, id, method) is Some,
    ensures
        rpc_answer(message, other, method) is None,
{
}

/// The blocks of a result: the texts, and everything else that is not null as it is.
pub open spec fn result_blocks(v: Seq<JsonView>) -> Seq<Seq<char>>
    decreases v.len(),
{
    if v.len() == 0 {
        Seq::empty()
    } else {
        let before = result_blocks(v.drop_last());
        let item = v.last();
        match item.at("text"@).text() {
            Some(t) => if is_blank(t) {
                before
            } else {
                before.push(t)
            },
            None => if item is Null {
                before
            } else {
                before.push(pretty_json(item))
            },
        }
    }
}

/// The structured part of a result.
pub open spec fn structured_part(result: JsonView) -> JsonView {
    if has_key(result, "structuredContent"@) {
        result.at("structuredContent"@)
    } else {
        result.at("structured_content"@)
    }
}

/// The result of a call as a text; one with no blocks is shown as it is.
pub open spec fn call_result_text(result: JsonView) -> Seq<char> {
    let texts_of_result = result_blocks(result.at("content"@).elements());
    let all = if structured_part(result) is Null {
        texts_of_result
    } else {
        texts_of_result.push(pretty_json(structured_part(result)))
    };
    if all.len() == 0 {
        pretty_json(result)
    } else {
        join(all, "\n\n"@)
    }
}

fn blocks_of(content: &Vec<Json>) -> (r: Vec<String>)
    ensures
        texts(r@) == result_blocks(jsons(content@)),
{
    let ghost src = jsons(content@);
    let mut out: Vec<String> = Vec::new();
    let mut i: usize = 0;
    proof {
        assert(texts(out@) =~= Seq::<Seq<char>>::empty());
    }
    while i < content.len()
        invariant
            i <= content@.len(),
            src == jsons(content@),
            texts(out@) == result_blocks(src.take(i as int)),
        decreases content@.len() - i,
    {
        proof {
            lemma_take_step(src, i as int);
            assert(src[i as int] == content@[i as int]@);
        }
        let item = &content[i];
        match text_in(item.get("text")) {
            Some(t) => {
                if !blank(t.as_str()) {
                    proof {
                        lemma_texts_push(out@, t);
                    }
                    out.push(t);
                }
            },
            None => {
                if !is_null(Some(item)) {
                    let block = print_json_pretty(item);
                    proof {
                        lemma_texts_push(out@, block);
                    }
                    out.push(block);
                }
            },
        }
        i = i + 1;
    }
    proof {
        lemma_take_full(src);
    }
    out
}

pub fn render_call_tool_result(result: &Json) -> (r: String)
    ensures
        r@ == call_result_text(result@),
{
    let content = elements_in(result.get("content"));
    let mut blocks = blocks_of(&content);
    let structured = match result.get("structuredContent") {
        Some(j) => Some(j),
        None => result.get("structured_content"),
    };
    if !is_null(structured) {
        let block = match structured {
            Some(j) => print_json_pretty(j),
            None => print_json_pretty(&Json::Null),
        };
        proof {
            lemma_texts_push(blocks@, block);
        }
        blocks.push(block);
    }
    proof {
        assert(texts(blocks@).len() == blocks@.len());
    }
    if blocks.len() == 0 {
        return print_json_pretty(result);
    }
    join_strings(&blocks, "\n\n")
}

} // verus!
