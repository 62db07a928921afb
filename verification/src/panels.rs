//! The state of the interactive mode and the panels below its transcript.

use crate::activity::{
    TodoUiItem, TodoUiStatus, TodoView, latest_plan, latest_todo_items_from_events, todo_views,
};
use crate::ansi::{CYAN, GREEN, RED, RESET, painted};
use crate::composer::{
    image_badge, image_badge_text, image_badges, join_inline_prompt_segments, written_segments,
};
use crate::config::{AppConfig, flag_or, or_text};
use crate::context::{ContextStatusMode, mode_name};
use crate::media::MessageImage;
use crate::render::{RULE_WIDTH, message_text, render_markdown, render_markdown_with_width};
use crate::screen::{on_off, on_off_name};
use crate::session::{SessionEvent, event_views, short, short_id};
use crate::text::{
    blank, clone_opt, is_blank, is_space, join, join_strings, lemma_not_blank, lemma_take_full,
    lemma_take_step, lemma_texts_push, lines, lines_of, opt_text, str_eq, texts, trim, trimmed,
};
use crate::transcript::{
    bar_lines, barred, render_user_message_block, turn_rule, turn_separator, user_block,
};
use vstd::prelude::*;

verus! {

#[derive(Debug, Clone, Copy, PartialEq, Eq, Structural)]
pub enum ReplRuntimePanelKind {
    User,
    Status,
    Error,
    Todo,
}

#[derive(Debug)]
pub struct ReplRuntimePanel {
    pub kind: ReplRuntimePanelKind,
    pub title: String,
    pub body: String,
}

pub struct PanelView {
    pub kind: ReplRuntimePanelKind,
    pub title: Seq<char>,
    pub body: Seq<char>,
}

impl View for ReplRuntimePanel {
    type V = PanelView;

    open spec fn view(&self) -> PanelView {
        PanelView { kind: self.kind, title: self.title@, body: self.body@ }
    }
}

pub open spec fn panel_views(v: Seq<ReplRuntimePanel>) -> Seq<PanelView> {
    v.map_values(|p: ReplRuntimePanel| p@)
}

pub open spec fn opt_panel(o: Option<ReplRuntimePanel>) -> Option<PanelView> {
    match o {
        Some(p) => Some(p@),
        None => None,
    }
}

impl ReplRuntimePanel {
    pub fn copy(&self) -> (r: ReplRuntimePanel)
        ensures
            r@ == self@,
    {
        ReplRuntimePanel { kind: self.kind, title: self.title.clone(), body: self.body.clone() }
    }
}

// ---------------------------------------------------------------------------
// The state
// ---------------------------------------------------------------------------

#[derive(Debug)]
pub struct ReplState {
    pub stream: bool,
    pub tools: bool,
    pub context_status: ContextStatusMode,
    pub provider_override: Option<String>,
    pub model_override: Option<String>,
    pub panels: Vec<ReplRuntimePanel>,
    pub transient_panel: Option<ReplRuntimePanel>,
}

pub struct StateView {
    pub stream: bool,
    pub tools: bool,
    pub context_status: ContextStatusMode,
    pub provider: Option<Seq<char>>,
    pub model: Option<Seq<char>>,
    pub panels: Seq<PanelView>,
    pub transient: Option<PanelView>,
}

impl View for ReplState {
    type V = StateView;

    open spec fn view(&self) -> StateView {
        StateView {
            stream: self.stream,
            tools: self.tools,
            context_status: self.context_status,
            provider: opt_text(self.provider_override),
            model: opt_text(self.model_override),
            panels: panel_views(self.panels@),
            transient: opt_panel(self.transient_panel),
        }
    }
}

impl Default for ReplState {
    fn default() -> (r: ReplState)
        ensures
            r@ == (StateView {
                stream: false,
                tools: false,
                context_status: ContextStatusMode::Off,
                provider: None,
                model: None,
                panels: Seq::empty(),
                transient: None,
            }),
    {
        let r = ReplState {
            stream: false,
            tools: false,
            context_status: ContextStatusMode::Off,
            provider_override: None,
            model_override: None,
            panels: Vec::new(),
            transient_panel: None,
        };
        proof {
            assert(panel_views(r.panels@) =~= Seq::<PanelView>::empty());
        }
        r
    }
}

/// The last of so many panels.
pub open spec fn last_panels(v: Seq<PanelView>, n: nat) -> Seq<PanelView> {
    if v.len() > n {
        v.skip(v.len() - n)
    } else {
        v
    }
}

/// How many panels are kept.
pub const MAX_PANELS: usize = 12;

/// The state with one more panel; the oldest goes when there are too many.
pub open spec fn with_panel(s: StateView, p: PanelView) -> StateView {
    StateView { panels: last_panels(s.panels.push(p), MAX_PANELS as nat), ..s }
}

pub fn push_repl_panel(state: &mut ReplState, panel: ReplRuntimePanel)
    ensures
        final(state)@ == with_panel(old(state)@, panel@),
{
    let ghost before = state@;
    state.panels.push(panel);
    let ghost pushed = panel_views(state.panels@);
    proof {
        assert(pushed =~= before.panels.push(panel@));
    }
    while state.panels.len() > MAX_PANELS
        invariant
            panel_views(state.panels@).len() <= pushed.len(),
            panel_views(state.panels@) == pushed.skip(pushed.len() - state.panels@.len()),
            pushed.len() > MAX_PANELS ==> state.panels@.len() >= MAX_PANELS,
            pushed.len() <= MAX_PANELS ==> state.panels@.len() == pushed.len(),
            state@ == (StateView { panels: panel_views(state.panels@), ..before }),
        decreases state.panels@.len(),
    {
        let ghost v = state.panels@;
        let first = state.panels.remove(0);
        proof {
            assert(state.panels@ =~= v.skip(1));
            assert(panel_views(state.panels@) =~= panel_views(v).skip(1));
            assert(pushed.skip(pushed.len() - v.len()).skip(1) =~= pushed.skip(
                pushed.len() - v.len() + 1,
            ));
        }
    }
    proof {
        assert(pushed.skip(0) =~= pushed);
        assert(panel_views(state.panels@).len() == state.panels@.len());
    }
}

pub fn set_repl_transient_panel(state: &mut ReplState, panel: ReplRuntimePanel)
    ensures
        final(state)@ == (StateView { transient: Some(panel@), ..old(state)@ }),
{
    state.transient_panel = Some(panel);
}

pub fn clear_repl_transient_panel(state: &mut ReplState)
    ensures
        final(state)@ == (StateView { transient: None, ..old(state)@ }),
{
    state.transient_panel = None;
}

/// What was asked for on the command line.
#[derive(Debug)]
pub struct Selection {
    pub provider: Option<String>,
    pub model: Option<String>,
}

pub open spec fn either(a: Option<Seq<char>>, b: Option<Seq<char>>) -> Option<Seq<char>> {
    match a {
        Some(t) => Some(t),
        None => b,
    }
}

pub fn first_of(a: &Option<String>, b: &Option<String>, c: &Option<String>) -> (r: Option<String>)
    ensures
        opt_text(r) == either(opt_text(*a), either(opt_text(*b), opt_text(*c))),
{
    if a.is_some() {
        clone_opt(a)
    } else if b.is_some() {
        clone_opt(b)
    } else {
        clone_opt(c)
    }
}

/// The provider in use: the one chosen while running, else the one asked for, else the default.
pub open spec fn effective_provider(s: StateView, cli: Selection, c: AppConfig) -> Option<
    Seq<char>,
> {
    either(s.provider, either(opt_text(cli.provider), opt_text(c.defaults.provider)))
}

pub fn repl_effective_provider_id(cli: &Selection, config: &AppConfig, state: &ReplState) -> (r:
    Option<String>)
    ensures
        opt_text(r) == effective_provider(state@, *cli, *config),
{
    first_of(&state.provider_override, &cli.provider, &config.defaults.provider)
}

pub open spec fn is_model_of(c: AppConfig, model: Seq<char>, provider: Seq<char>) -> bool {
    c.models.lookup(model) matches Some(m) && m.provider@ == provider
}

/// The model in use: the one chosen, unless it belongs to another provider than the one in use;
/// that one's default then.
pub open spec fn effective_model(s: StateView, cli: Selection, c: AppConfig) -> Option<Seq<char>> {
    let provider = effective_provider(s, cli, c);
    let selected = either(s.model, either(opt_text(cli.model), opt_text(c.defaults.model)));
    match selected {
        Some(m) if provider is None || is_model_of(c, m, provider->Some_0) => Some(m),
        _ => match provider {
            Some(p) => match c.providers.lookup(p) {
                Some(pc) => opt_text(pc.default_model),
                None => None,
            },
            None => None,
        },
    }
}

pub fn repl_effective_model_id(cli: &Selection, config: &AppConfig, state: &ReplState) -> (r: Option<
    String,
>)
    requires
        config.wf(),
    ensures
        opt_text(r) == effective_model(state@, *cli, *config),
{
    let provider = repl_effective_provider_id(cli, config, state);
    let selected = first_of(&state.model_override, &cli.model, &config.defaults.model);
    if let Some(m) = &selected {
        let fits_provider = match &provider {
            None => true,
            Some(p) => match config.models.get(m.as_str()) {
                Some(mc) => str_eq(mc.provider.as_str(), p.as_str()),
                None => false,
            },
        };
        if fits_provider {
            return clone_opt(&selected);
        }
    }
    match &provider {
        Some(p) => match config.providers.get(p.as_str()) {
            Some(pc) => clone_opt(&pc.default_model),
            None => None,
        },
        None => None,
    }
}

/// What the next request asks for.
pub fn repl_runtime_cli(cli: &Selection, config: &AppConfig, state: &ReplState) -> (r: Selection)
    requires
        config.wf(),
    ensures
        opt_text(r.provider) == effective_provider(state@, *cli, *config),
        opt_text(r.model) == effective_model(state@, *cli, *config),
{
    Selection {
        provider: repl_effective_provider_id(cli, config, state),
        model: repl_effective_model_id(cli, config, state),
    }
}

// ---------------------------------------------------------------------------
// Panels
// ---------------------------------------------------------------------------

pub open spec fn panel_lines(body: Seq<char>, default: Seq<char>) -> Seq<Seq<char>> {
    if is_blank(body) {
        seq![default]
    } else {
        lines(body)
    }
}

fn panel_lines_of(body: &str, default: &str) -> (r: Vec<String>)
    ensures
        texts(r@) == panel_lines(body@, default@),
{
    if blank(body) {
        let v = vec![default.to_owned()];
        proof {
            assert(texts(v@) =~= seq![default@]);
        }
        v
    } else {
        lines_of(body)
    }
}

/// A panel: its title and its text behind a bar.
pub open spec fn barred_panel(title: Seq<char>, body: Seq<char>, accent: Seq<char>) -> Seq<char> {
    accent + title + RESET@ + "\n"@ + join(barred(accent, panel_lines(body, ""@)), "\n"@)
}

pub fn render_runtime_panel(title: &str, body: &str, accent: &str) -> (r: String)
    ensures
        r@ == barred_panel(title@, body@, accent@),
{
    let v = panel_lines_of(body, "");
    accent.to_owned().concat(title).concat(RESET).concat("\n").concat(
        bar_lines(accent, &v).as_str(),
    )
}

pub open spec fn compact_lines(v: Seq<Seq<char>>, accent: Seq<char>) -> Seq<Seq<char>> {
    Seq::new(
        v.len(),
        |i: int|
            accent + (if i == 0 {
                "└ "@
            } else {
                "  "@
            }) + RESET@ + v[i],
    )
}

/// A panel below a bullet.
pub open spec fn compact_panel(title: Seq<char>, body: Seq<char>, accent: Seq<char>) -> Seq<char> {
    join(
        seq![accent + "• "@ + title + RESET@] + compact_lines(panel_lines(body, "(empty)"@), accent),
        "\n"@,
    )
}

pub fn render_compact_runtime_panel(title: &str, body: &str, accent: &str) -> (r: String)
    ensures
        r@ == compact_panel(title@, body@, accent@),
{
    let first = accent.to_owned().concat("• ").concat(title).concat(RESET);
    let v = panel_lines_of(body, "(empty)");
    let ghost src = texts(v@);
    let ghost goal = compact_lines(src, accent@);
    let ghost start = seq![first@];
    let mut out = vec![first];
    let mut i: usize = 0;
    proof {
        assert(texts(out@) =~= start + goal.take(0));
    }
    while i < v.len()
        invariant
            i <= v@.len(),
            src == texts(v@),
            goal == compact_lines(src, accent@),
            texts(out@) == start + goal.take(i as int),
        decreases v@.len() - i,
    {
        let prefix = if i == 0 {
            "└ "
        } else {
            "  "
        };
        let line = accent.to_owned().concat(prefix).concat(RESET).concat(v[i].as_str());
        proof {
            assert(src[i as int] == v@[i as int]@);
            lemma_take_step(goal, i as int);
            lemma_texts_push(out@, line);
            assert((start + goal.take(i as int)).push(line@) =~= start + goal.take(i + 1));
        }
        out.push(line);
        i = i + 1;
    }
    proof {
        lemma_take_full(goal);
    }
    join_strings(&out, "\n")
}

/// A panel as it is shown.
pub open spec fn shown_panel(p: PanelView) -> Seq<char> {
    match p.kind {
        ReplRuntimePanelKind::User => user_block(p.title, p.body),
        ReplRuntimePanelKind::Status => barred_panel(p.title, p.body, CYAN@),
        ReplRuntimePanelKind::Error => barred_panel(p.title, p.body, RED@),
        ReplRuntimePanelKind::Todo => compact_panel(p.title, p.body, CYAN@),
    }
}

pub fn render_repl_runtime_panel(panel: &ReplRuntimePanel) -> (r: String)
    ensures
        r@ == shown_panel(panel@),
{
    let title = panel.title.as_str();
    let body = panel.body.as_str();
    match panel.kind {
        ReplRuntimePanelKind::User => render_user_message_block(title, body),
        ReplRuntimePanelKind::Status => render_runtime_panel(title, body, CYAN),
        ReplRuntimePanelKind::Error => render_runtime_panel(title, body, RED),
        ReplRuntimePanelKind::Todo => render_compact_runtime_panel(title, body, CYAN),
    }
}

pub open spec fn shown_panels(v: Seq<PanelView>) -> Seq<Seq<char>> {
    v.map_values(|p: PanelView| shown_panel(p))
}

pub open spec fn with_transient(v: Seq<PanelView>, t: Option<PanelView>) -> Seq<PanelView> {
    match t {
        Some(p) => v.push(p),
        None => v,
    }
}

/// What stands below the history and what above it, a rule between the two.
pub open spec fn history_and_panels(history: Seq<char>, panels: Seq<char>) -> Seq<char> {
    if is_blank(history) && is_blank(panels) {
        Seq::empty()
    } else if is_blank(panels) {
        history
    } else if is_blank(history) {
        panels
    } else {
        history + turn_rule() + panels
    }
}

/// The transcript: the history and the panels, the passing one last.
pub open spec fn transcript(
    history: Seq<char>,
    v: Seq<PanelView>,
    t: Option<PanelView>,
) -> Seq<char> {
    history_and_panels(history, join(shown_panels(with_transient(v, t)), turn_rule()))
}

pub fn render_repl_transcript(
    history: &str,
    panels: &Vec<ReplRuntimePanel>,
    transient_panel: &Option<ReplRuntimePanel>,
) -> (r: String)
    ensures
        r@ == transcript(history@, panel_views(panels@), opt_panel(*transient_panel)),
{
    let ghost v = panel_views(panels@);
    let ghost goal = shown_panels(v);
    let mut out: Vec<String> = Vec::new();
    let mut i: usize = 0;
    proof {
        assert(texts(out@) =~= goal.take(0));
    }
    while i < panels.len()
        invariant
            i <= panels@.len(),
            v == panel_views(panels@),
            goal == shown_panels(v),
            texts(out@) == goal.take(i as int),
        decreases panels@.len() - i,
    {
        let part = render_repl_runtime_panel(&panels[i]);
        proof {
            assert(v[i as int] == panels@[i as int]@);
            lemma_take_step(goal, i as int);
            lemma_texts_push(out@, part);
        }
        out.push(part);
        i = i + 1;
    }
    proof {
        lemma_take_full(goal);
    }
    if let Some(p) = transient_panel {
        let part = render_repl_runtime_panel(p);
        proof {
            lemma_texts_push(out@, part);
            assert(shown_panels(v.push(p@)) =~= goal.push(part@));
        }
        out.push(part);
    }
    let rule = turn_separator();
    let text = join_strings(&out, rule.as_str());
    if blank(text.as_str()) {
        if blank(history) {
            let none = String::new();
            proof {
                assert(none@ =~= Seq::<char>::empty());
            }
            none
        } else {
            history.to_owned()
        }
    } else if blank(history) {
        text
    } else {
        history.to_owned().concat(rule.as_str()).concat(text.as_str())
    }
}

/// The details that a plan shows: those of the item in progress, else of the first.
pub open spec fn current_details(v: Seq<TodoView>, i: int) -> Seq<char>
    decreases v.len() - i,
{
    if i < 0 || i >= v.len() {
        trimmed(v[0].details)
    } else if v[i].status == TodoUiStatus::InProgress {
        trimmed(v[i].details)
    } else {
        current_details(v, i + 1)
    }
}

pub open spec fn todo_line(t: TodoView) -> Seq<char> {
    (if t.status == TodoUiStatus::Completed {
        "✔"@
    } else {
        "□"@
    }) + " "@ + trimmed(t.title)
}

/// The lines of a plan.
pub open spec fn todo_lines(v: Seq<TodoView>) -> Seq<Seq<char>> {
    if v.len() == 0 {
        seq!["└ (empty)"@]
    } else {
        seq![current_details(v, 0)] + v.map_values(|t: TodoView| todo_line(t))
    }
}

fn details_of(todos: &Vec<TodoUiItem>) -> (r: String)
    requires
        todos@.len() > 0,
    ensures
        r@ == current_details(todo_views(todos@), 0),
{
    let ghost v = todo_views(todos@);
    let mut i: usize = 0;
    while i < todos.len()
        invariant
            i <= todos@.len(),
            todos@.len() > 0,
            v == todo_views(todos@),
            current_details(v, 0) == current_details(v, i as int),
        decreases todos@.len() - i,
    {
        proof {
            assert(v[i as int] == todos@[i as int]@);
        }
        if todos[i].status == TodoUiStatus::InProgress {
            return trim(todos[i].details.as_str());
        }
        i = i + 1;
    }
    proof {
        assert(v[0] == todos@[0]@);
    }
    trim(todos[0].details.as_str())
}

pub fn render_repl_todo_lines(todos: &Vec<TodoUiItem>) -> (r: Vec<String>)
    ensures
        texts(r@) == todo_lines(todo_views(todos@)),
{
    if todos.len() == 0 {
        let out = vec!["└ (empty)".to_owned()];
        proof {
            assert(texts(out@) =~= seq!["└ (empty)"@]);
        }
        return out;
    }
    let ghost v = todo_views(todos@);
    let ghost goal = v.map_values(|t: TodoView| todo_line(t));
    let details = details_of(todos);
    let ghost start = seq![details@];
    let mut out = vec![details];
    let mut i: usize = 0;
    proof {
        assert(texts(out@) =~= start + goal.take(0));
    }
    while i < todos.len()
        invariant
            i <= todos@.len(),
            v == todo_views(todos@),
            goal == v.map_values(|t: TodoView| todo_line(t)),
            texts(out@) == start + goal.take(i as int),
        decreases todos@.len() - i,
    {
        let marker = if todos[i].status == TodoUiStatus::Completed {
            "✔"
        } else {
            "□"
        };
        let line = marker.to_owned().concat(" ").concat(trim(todos[i].title.as_str()).as_str());
        proof {
            assert(v[i as int] == todos@[i as int]@);
            lemma_take_step(goal, i as int);
            lemma_texts_push(out@, line);
            assert((start + goal.take(i as int)).push(line@) =~= start + goal.take(i + 1));
        }
        out.push(line);
        i = i + 1;
    }
    proof {
        lemma_take_full(goal);
    }
    out
}

pub open spec fn todo_panel(v: Seq<TodoView>) -> PanelView {
    PanelView {
        kind: ReplRuntimePanelKind::Todo,
        title: "Updated Plan"@,
        body: join(todo_lines(v), "\n"@),
    }
}

pub fn build_repl_todo_panel(todos: &Vec<TodoUiItem>) -> (r: ReplRuntimePanel)
    ensures
        r@ == todo_panel(todo_views(todos@)),
{
    ReplRuntimePanel {
        kind: ReplRuntimePanelKind::Todo,
        title: "Updated Plan".to_owned(),
        body: join_strings(&render_repl_todo_lines(todos), "\n"),
    }
}

pub open spec fn without_todo(v: Seq<PanelView>) -> Seq<PanelView>
    decreases v.len(),
{
    if v.len() == 0 {
        Seq::empty()
    } else if v.last().kind == ReplRuntimePanelKind::Todo {
        without_todo(v.drop_last())
    } else {
        without_todo(v.drop_last()).push(v.last())
    }
}

/// The state once the plan changed: the panel of the old plan goes, and one of the new plan
/// comes, if there is one.
pub open spec fn with_plan(s: StateView, plan: Option<Seq<TodoView>>) -> StateView {
    let cleared = StateView {
        panels: without_todo(s.panels),
        transient: match s.transient {
            Some(p) => if p.kind == ReplRuntimePanelKind::Todo {
                None
            } else {
                Some(p)
            },
            None => None,
        },
        ..s
    };
    match plan {
        Some(v) => if v.len() == 0 {
            cleared
        } else {
            with_panel(cleared, todo_panel(v))
        },
        None => cleared,
    }
}

fn drop_todo_panels(panels: &Vec<ReplRuntimePanel>) -> (r: Vec<ReplRuntimePanel>)
    ensures
        panel_views(r@) == without_todo(panel_views(panels@)),
{
    let ghost src = panel_views(panels@);
    let mut out: Vec<ReplRuntimePanel> = Vec::new();
    let mut i: usize = 0;
    proof {
        assert(panel_views(out@) =~= Seq::<PanelView>::empty());
    }
    while i < panels.len()
        invariant
            i <= panels@.len(),
            src == panel_views(panels@),
            panel_views(out@) == without_todo(src.take(i as int)),
        decreases panels@.len() - i,
    {
        proof {
            lemma_take_step(src, i as int);
            assert(src[i as int] == panels@[i as int]@);
        }
        if panels[i].kind != ReplRuntimePanelKind::Todo {
            let p = panels[i].copy();
            proof {
                assert(panel_views(out@.push(p)) =~= panel_views(out@).push(p@));
            }
            out.push(p);
        }
        i = i + 1;
    }
    proof {
        lemma_take_full(src);
    }
    out
}

/// Shows the plan that the events of a session end with; `None` stands for events that could
/// not be read.
pub fn sync_repl_todo_panel(state: &mut ReplState, events: &Option<Vec<SessionEvent>>)
    ensures
        final(state)@ == with_plan(
            old(state)@,
            match *events {
                Some(v) => latest_plan(event_views(v@)),
                None => None,
            },
        ),
{
    let todos = match events {
        Some(v) => latest_todo_items_from_events(v.as_slice()),
        None => None,
    };
    state.panels = drop_todo_panels(&state.panels);
    let gone = match &state.transient_panel {
        Some(p) => p.kind == ReplRuntimePanelKind::Todo,
        None => false,
    };
    if gone {
        state.transient_panel = None;
    }
    if let Some(v) = todos {
        proof {
            assert(todo_views(v@).len() == v@.len());
        }
        if v.len() > 0 {
            push_repl_panel(state, build_repl_todo_panel(&v));
        }
    }
}

proof fn lemma_without_todo(v: Seq<PanelView>)
    ensures
        forall|i: int|
            0 <= i < without_todo(v).len() ==> (#[trigger] without_todo(v)[i]).kind
                != ReplRuntimePanelKind::Todo,
    decreases v.len(),
{
    if v.len() > 0 {
        lemma_without_todo(v.drop_last());
    }
}

/// There is never more than one panel of a plan, and it is the last one.
pub proof fn law_one_plan(s: StateView, plan: Option<Seq<TodoView>>, i: int)
    requires
        0 <= i < with_plan(s, plan).panels.len(),
        with_plan(s, plan).panels[i].kind == ReplRuntimePanelKind::Todo,
    ensures
        i == with_plan(s, plan).panels.len() - 1,
        plan is Some,
        with_plan(s, plan).panels[i] == todo_panel(plan->Some_0),
{
    lemma_without_todo(s.panels);
    let before = without_todo(s.panels);
    if plan is Some && plan->Some_0.len() > 0 {
        let p = todo_panel(plan->Some_0);
        let v = before.push(p);
        let kept = last_panels(v, MAX_PANELS as nat);
        assert(with_plan(s, plan).panels == kept);
        let shift = v.len() - kept.len();
        assert(kept[i] == v[i + shift]);
        if i + shift < before.len() {
            assert(v[i + shift] == before[i + shift]);
        }
    }
}

/// There are never more panels than are kept.
pub proof fn law_panels_are_bounded(s: StateView, p: PanelView)
    ensures
        with_panel(s, p).panels.len() <= MAX_PANELS,
        with_panel(s, p).panels.last() == p,
{
}

/// The lines of the panel that shows the state.
pub open spec fn status_lines(
    id: Seq<char>,
    provider: Option<Seq<char>>,
    model: Option<Seq<char>>,
    s: StateView,
) -> Seq<Seq<char>> {
    seq![
        "session: "@ + short(id),
        "provider: "@ + or_text(provider, "-"@),
        "model: "@ + or_text(model, "-"@),
        "stream: "@ + on_off(s.stream),
        "tools: "@ + on_off(s.tools),
        "context_status: "@ + mode_name(s.context_status),
        Seq::empty(),
        "quick actions:"@,
        "/model       choose model"@,
        "/sessions    switch session"@,
        "/audit       toggle audit checks"@,
        "/tool-search toggle progressive loading"@,
        "/clear       clear current session history"@,
        "/new         create a new session"@,
    ]
}

pub open spec fn status_panel(id: Seq<char>, s: StateView, cli: Selection, c: AppConfig) -> PanelView {
    PanelView {
        kind: ReplRuntimePanelKind::Status,
        title: "Status"@,
        body: join(
            status_lines(id, effective_provider(s, cli, c), effective_model(s, cli, c), s),
            "\n"@,
        ),
    }
}

fn or_dash(o: Option<String>) -> (r: String)
    ensures
        r@ == or_text(opt_text(o), "-"@),
{
    match o {
        Some(t) => t,
        None => "-".to_owned(),
    }
}

pub fn build_repl_status_panel(
    cli: &Selection,
    config: &AppConfig,
    session_id: &str,
    state: &ReplState,
) -> (r: ReplRuntimePanel)
    requires
        config.wf(),
    ensures
        r@ == status_panel(session_id@, state@, *cli, *config),
{
    let provider = or_dash(repl_effective_provider_id(cli, config, state));
    let model = or_dash(repl_effective_model_id(cli, config, state));
    let empty = String::new();
    proof {
        assert(empty@ =~= Seq::<char>::empty());
    }
    let v = vec![
        "session: ".to_owned().concat(short_id(session_id).as_str()),
        "provider: ".to_owned().concat(provider.as_str()),
        "model: ".to_owned().concat(model.as_str()),
        "stream: ".to_owned().concat(on_off_name(state.stream)),
        "tools: ".to_owned().concat(on_off_name(state.tools)),
        "context_status: ".to_owned().concat(state.context_status.as_str()),
        empty,
        "quick actions:".to_owned(),
        "/model       choose model".to_owned(),
        "/sessions    switch session".to_owned(),
        "/audit       toggle audit checks".to_owned(),
        "/tool-search toggle progressive loading".to_owned(),
        "/clear       clear current session history".to_owned(),
        "/new         create a new session".to_owned(),
    ];
    proof {
        assert(texts(v@) =~= status_lines(
            session_id@,
            effective_provider(state@, *cli, *config),
            effective_model(state@, *cli, *config),
            state@,
        ));
    }
    ReplRuntimePanel {
        kind: ReplRuntimePanelKind::Status,
        title: "Status".to_owned(),
        body: join_strings(&v, "\n"),
    }
}

pub fn build_repl_error_panel(message: &str) -> (r: ReplRuntimePanel)
    ensures
        r@ == (PanelView {
            kind: ReplRuntimePanelKind::Error,
            title: "Error"@,
            body: message@,
        }),
{
    ReplRuntimePanel {
        kind: ReplRuntimePanelKind::Error,
        title: "Error".to_owned(),
        body: message.to_owned(),
    }
}

/// What was submitted, in one line: the badges of the images and the text.
pub open spec fn submitted(prompt: Seq<char>, images: nat) -> Seq<char> {
    if images > 0 && !is_blank(prompt) {
        image_badge_text(images) + " "@ + prompt
    } else if images > 0 {
        image_badge_text(images)
    } else if !is_blank(prompt) {
        prompt
    } else {
        Seq::empty()
    }
}

proof fn lemma_badges_not_blank(n: nat)
    requires
        n > 0,
    ensures
        !is_blank(image_badge_text(n)),
{
    let v = Seq::new(n, |i: int| image_badge(i));
    reveal_strlit("[Image #");
    lemma_join_start(v, " "@);
    let t = image_badge_text(n);
    assert(v[0] == image_badge(0));
    assert(t[0] == '[');
    assert(!is_space('['));
    lemma_not_blank(t);
}

proof fn lemma_join_start(v: Seq<Seq<char>>, sep: Seq<char>)
    requires
        v.len() > 0,
        v[0].len() > 0,
    ensures
        join(v, sep).len() > 0,
        join(v, sep)[0] == v[0][0],
    decreases v.len(),
{
    if v.len() > 1 {
        lemma_join_start(v.drop_last(), sep);
    }
}

fn submitted_line(prompt: &str, images: &Vec<MessageImage>) -> (r: String)
    ensures
        r@ == submitted(prompt@, images@.len()),
{
    let mut parts: Vec<Option<String>> = Vec::new();
    if images.len() > 0 {
        parts.push(Some(image_badges(images.len())));
        proof {
            lemma_badges_not_blank(images@.len());
        }
    }
    if !blank(prompt) {
        parts.push(Some(prompt.to_owned()));
    }
    proof {
        reveal_with_fuel(written_segments, 3);
        reveal_with_fuel(join, 3);
        if parts@.len() == 2 {
            assert(parts@.drop_last().drop_last() =~= Seq::<Option<String>>::empty());
            assert(written_segments(parts@) =~= seq![image_badge_text(images@.len()), prompt@]);
            assert(written_segments(parts@).drop_last() =~= seq![image_badge_text(images@.len())]);
        } else if parts@.len() == 1 {
            assert(parts@.drop_last() =~= Seq::<Option<String>>::empty());
        }
    }
    join_inline_prompt_segments(parts.as_slice())
}

pub open spec fn user_title() -> Seq<char> {
    GREEN@ + "User"@ + RESET@
}

/// The panel of what the user submitted.
pub open spec fn user_panel(prompt: Seq<char>, images: nat) -> PanelView {
    let line = submitted(prompt, images);
    PanelView {
        kind: ReplRuntimePanelKind::User,
        title: user_title(),
        body: if line.len() == 0 {
            Seq::empty()
        } else {
            message_text(line, RULE_WIDTH as nat)
        },
    }
}

pub fn build_repl_user_panel(config: &AppConfig, prompt: &str, images: &Vec<MessageImage>) -> (r:
    ReplRuntimePanel)
    ensures
        r@ == user_panel(prompt@, images@.len()),
{
    let line = submitted_line(prompt, images);
    let body = if line.as_str().is_empty() {
        let none = String::new();
        proof {
            assert(none@ =~= Seq::<char>::empty());
        }
        none
    } else {
        render_markdown(line.as_str(), flag_or(config.defaults.collapse_thinking, false))
    };
    ReplRuntimePanel {
        kind: ReplRuntimePanelKind::User,
        title: painted(GREEN, "User"),
        body,
    }
}

/// What is printed when something was submitted: the history and the message.
pub open spec fn submission_preview(
    history: Seq<char>,
    width: nat,
    prompt: Seq<char>,
    images: nat,
) -> Seq<char> {
    let line = submitted(prompt, images);
    let block = user_block(
        user_title(),
        if line.len() == 0 {
            Seq::empty()
        } else {
            message_text(line, width)
        },
    );
    if is_blank(history) {
        block + "\n"@
    } else {
        history + "\n\n"@ + block + "\n"@
    }
}

pub fn render_repl_submission_preview(
    config: &AppConfig,
    history: &str,
    width: usize,
    prompt: &str,
    images: &Vec<MessageImage>,
) -> (r: String)
    ensures
        r@ == submission_preview(history@, width as nat, prompt@, images@.len()),
{
    let line = submitted_line(prompt, images);
    let body = if line.as_str().is_empty() {
        let none = String::new();
        proof {
            assert(none@ =~= Seq::<char>::empty());
        }
        none
    } else {
        let collapse = flag_or(config.defaults.collapse_thinking, false);
        render_markdown_with_width(line.as_str(), collapse, width)
    };
    let block = render_user_message_block(painted(GREEN, "User").as_str(), body.as_str());
    if blank(history) {
        block.concat("\n")
    } else {
        history.to_owned().concat("\n\n").concat(block.as_str()).concat("\n")
    }
}

} // verus!
