//! Slash commands and the choices that pop up while one is typed.

use crate::ansi::{
    CYAN, DIM, RESET, ansi_truncate, painted, truncate_plain_to_width, truncated_ansi,
    truncated_plain,
};
use crate::config::{AppConfig, ModelConfig, or_flag};
use crate::diff::ints;
use crate::render::pad_len;
use crate::session::{SessionSummary, SummaryView, short, short_id, summary_views};
use crate::table::{Table, text_before, text_lt};
use crate::text::{
    ascii_lower, char_is_space, chars_of, contains, contains_text, is_blank, is_space,
    lemma_take_full, lemma_take_step, lemma_texts_push, lines, lines_of, opt_str, opt_text,
    repeat, repeat_str, str_eq, strip_prefix, strip_prefix_spec, substring, texts,
    to_ascii_lower, trim, trimmed,
};
use vstd::prelude::*;

verus! {

#[derive(Debug, Clone, Copy, PartialEq, Eq, Structural)]
pub enum ReplSlashCommand {
    Model,
    Session,
    Audit,
    ToolSearch,
    Status,
    New,
    Clear,
    Bash,
    Quit,
    Exit,
}

/// The name of a command.
pub open spec fn command_command(c: ReplSlashCommand) -> Seq<char> {
    match c {
        ReplSlashCommand::Model => "model"@,
        ReplSlashCommand::Session => "sessions"@,
        ReplSlashCommand::Audit => "audit"@,
        ReplSlashCommand::ToolSearch => "tool-search"@,
        ReplSlashCommand::Status => "status"@,
        ReplSlashCommand::New => "new"@,
        ReplSlashCommand::Clear => "clear"@,
        ReplSlashCommand::Bash => "bash"@,
        ReplSlashCommand::Quit => "quit"@,
        ReplSlashCommand::Exit => "exit"@,
    }
}

impl ReplSlashCommand {
    pub fn command(self) -> (r: &'static str)
        ensures
            r@ == command_command(self),
    {
        match self {
            ReplSlashCommand::Model => "model",
            ReplSlashCommand::Session => "sessions",
            ReplSlashCommand::Audit => "audit",
            ReplSlashCommand::ToolSearch => "tool-search",
            ReplSlashCommand::Status => "status",
            ReplSlashCommand::New => "new",
            ReplSlashCommand::Clear => "clear",
            ReplSlashCommand::Bash => "bash",
            ReplSlashCommand::Quit => "quit",
            ReplSlashCommand::Exit => "exit",
        }
    }
}

/// How a command is used.
pub open spec fn command_usage(c: ReplSlashCommand) -> Seq<char> {
    match c {
        ReplSlashCommand::Model => "/model [list [provider]|reset|<id>|<provider>/<model>]"@,
        ReplSlashCommand::Session => "/sessions [list|current|switch <id>]"@,
        ReplSlashCommand::Audit => "/audit [on|off|status]"@,
        ReplSlashCommand::ToolSearch => "/tool-search [on|off|status]"@,
        ReplSlashCommand::Status => "/status"@,
        ReplSlashCommand::New => "/new [temp]"@,
        ReplSlashCommand::Clear => "/clear"@,
        ReplSlashCommand::Bash => "/bash ..."@,
        ReplSlashCommand::Quit => "/quit"@,
        ReplSlashCommand::Exit => "/exit"@,
    }
}

impl ReplSlashCommand {
    pub fn usage(self) -> (r: &'static str)
        ensures
            r@ == command_usage(self),
    {
        match self {
            ReplSlashCommand::Model => "/model [list [provider]|reset|<id>|<provider>/<model>]",
            ReplSlashCommand::Session => "/sessions [list|current|switch <id>]",
            ReplSlashCommand::Audit => "/audit [on|off|status]",
            ReplSlashCommand::ToolSearch => "/tool-search [on|off|status]",
            ReplSlashCommand::Status => "/status",
            ReplSlashCommand::New => "/new [temp]",
            ReplSlashCommand::Clear => "/clear",
            ReplSlashCommand::Bash => "/bash ...",
            ReplSlashCommand::Quit => "/quit",
            ReplSlashCommand::Exit => "/exit",
        }
    }
}

/// What a command does.
pub open spec fn command_description(c: ReplSlashCommand) -> Seq<char> {
    match c {
        ReplSlashCommand::Model => "choose the model for new turns"@,
        ReplSlashCommand::Session => "list or switch chat sessions"@,
        ReplSlashCommand::Audit => "toggle audit checks for dangerous tools"@,
        ReplSlashCommand::ToolSearch => "toggle progressive tool loading"@,
        ReplSlashCommand::Status => "show current REPL session and runtime config"@,
        ReplSlashCommand::New => "start a new chat session"@,
        ReplSlashCommand::Clear => "clear the current session history"@,
        ReplSlashCommand::Bash => "inspect or continue interactive bash sessions"@,
        ReplSlashCommand::Quit => "exit the REPL"@,
        ReplSlashCommand::Exit => "exit the REPL"@,
    }
}

impl ReplSlashCommand {
    pub fn description(self) -> (r: &'static str)
        ensures
            r@ == command_description(self),
    {
        match self {
            ReplSlashCommand::Model => "choose the model for new turns",
            ReplSlashCommand::Session => "list or switch chat sessions",
            ReplSlashCommand::Audit => "toggle audit checks for dangerous tools",
            ReplSlashCommand::ToolSearch => "toggle progressive tool loading",
            ReplSlashCommand::Status => "show current REPL session and runtime config",
            ReplSlashCommand::New => "start a new chat session",
            ReplSlashCommand::Clear => "clear the current session history",
            ReplSlashCommand::Bash => "inspect or continue interactive bash sessions",
            ReplSlashCommand::Quit => "exit the REPL",
            ReplSlashCommand::Exit => "exit the REPL",
        }
    }
}

/// The commands, in the order in which they are offered.
pub open spec fn all_commands() -> Seq<ReplSlashCommand> {
    seq![
        ReplSlashCommand::Model,
        ReplSlashCommand::Session,
        ReplSlashCommand::Audit,
        ReplSlashCommand::ToolSearch,
        ReplSlashCommand::Status,
        ReplSlashCommand::New,
        ReplSlashCommand::Clear,
        ReplSlashCommand::Bash,
        ReplSlashCommand::Quit,
        ReplSlashCommand::Exit,
    ]
}

pub fn visible_repl_slash_commands() -> (r: Vec<ReplSlashCommand>)
    ensures
        r@ == all_commands(),
{
    let r = vec![
        ReplSlashCommand::Model,
        ReplSlashCommand::Session,
        ReplSlashCommand::Audit,
        ReplSlashCommand::ToolSearch,
        ReplSlashCommand::Status,
        ReplSlashCommand::New,
        ReplSlashCommand::Clear,
        ReplSlashCommand::Bash,
        ReplSlashCommand::Quit,
        ReplSlashCommand::Exit,
    ];
    proof {
        assert(r@ =~= all_commands());
    }
    r
}

/// The commands among the first ones whose names hold a query in lower case.
pub open spec fn commands_with(v: Seq<ReplSlashCommand>, q: Seq<char>) -> Seq<ReplSlashCommand>
    decreases v.len(),
{
    if v.len() == 0 {
        Seq::empty()
    } else {
        let before = commands_with(v.drop_last(), q);
        if q.len() == 0 || contains_text(ascii_lower(command_command(v.last())), q) {
            before.push(v.last())
        } else {
            before
        }
    }
}

pub open spec fn filtered_commands(query: Seq<char>) -> Seq<ReplSlashCommand> {
    commands_with(all_commands(), ascii_lower(trimmed(query)))
}

pub fn filtered_repl_slash_commands(query: &str) -> (r: Vec<ReplSlashCommand>)
    ensures
        r@ == filtered_commands(query@),
{
    let t = trim(query);
    let q = to_ascii_lower(t.as_str());
    let all = visible_repl_slash_commands();
    let mut out: Vec<ReplSlashCommand> = Vec::new();
    let mut i: usize = 0;
    while i < all.len()
        invariant
            i <= all@.len(),
            all@ == all_commands(),
            out@ == commands_with(all_commands().take(i as int), q@),
        decreases all@.len() - i,
    {
        proof {
            lemma_take_step(all_commands(), i as int);
        }
        let name = to_ascii_lower(all[i].command());
        if q.as_str().is_empty() || contains(name.as_str(), q.as_str()) {
            out.push(all[i]);
        }
        i = i + 1;
    }
    proof {
        lemma_take_full(all_commands());
    }
    out
}

/// An empty query offers every command.
pub proof fn law_empty_query_offers_all(query: Seq<char>)
    requires
        is_blank(query),
    ensures
        filtered_commands(query) == all_commands(),
{
    assert(ascii_lower(trimmed(query)).len() == 0);
    lemma_commands_all(all_commands(), ascii_lower(trimmed(query)));
}

proof fn lemma_commands_all(v: Seq<ReplSlashCommand>, q: Seq<char>)
    requires
        q.len() == 0,
    ensures
        commands_with(v, q) == v,
    decreases v.len(),
{
    if v.len() > 0 {
        lemma_commands_all(v.drop_last(), q);
        assert(v.drop_last().push(v.last()) =~= v);
    } else {
        assert(commands_with(v, q) =~= v);
    }
}

/// The command that a name stands for.
pub open spec fn command_named(name: Seq<char>) -> Option<ReplSlashCommand> {
    if name == "model"@ {
        Some(ReplSlashCommand::Model)
    } else if name == "sessions"@ || name == "session"@ {
        Some(ReplSlashCommand::Session)
    } else if name == "audit"@ {
        Some(ReplSlashCommand::Audit)
    } else if name == "tool-search"@ || name == "toolsearch"@ {
        Some(ReplSlashCommand::ToolSearch)
    } else if name == "status"@ {
        Some(ReplSlashCommand::Status)
    } else if name == "new"@ {
        Some(ReplSlashCommand::New)
    } else if name == "clear"@ {
        Some(ReplSlashCommand::Clear)
    } else if name == "bash"@ {
        Some(ReplSlashCommand::Bash)
    } else if name == "quit"@ {
        Some(ReplSlashCommand::Quit)
    } else if name == "exit"@ {
        Some(ReplSlashCommand::Exit)
    } else {
        None
    }
}

fn command_of(name: &str) -> (r: Option<ReplSlashCommand>)
    ensures
        r == command_named(name@),
{
    if str_eq(name, "model") {
        Some(ReplSlashCommand::Model)
    } else if str_eq(name, "sessions") || str_eq(name, "session") {
        Some(ReplSlashCommand::Session)
    } else if str_eq(name, "audit") {
        Some(ReplSlashCommand::Audit)
    } else if str_eq(name, "tool-search") || str_eq(name, "toolsearch") {
        Some(ReplSlashCommand::ToolSearch)
    } else if str_eq(name, "status") {
        Some(ReplSlashCommand::Status)
    } else if str_eq(name, "new") {
        Some(ReplSlashCommand::New)
    } else if str_eq(name, "clear") {
        Some(ReplSlashCommand::Clear)
    } else if str_eq(name, "bash") {
        Some(ReplSlashCommand::Bash)
    } else if str_eq(name, "quit") {
        Some(ReplSlashCommand::Quit)
    } else if str_eq(name, "exit") {
        Some(ReplSlashCommand::Exit)
    } else {
        None
    }
}

/// The index of the first white space from `i` on, or the end.
pub open spec fn space_from(s: Seq<char>, i: int) -> int
    decreases s.len() - i,
{
    if 0 <= i < s.len() && !is_space(s[i]) {
        space_from(s, i + 1)
    } else {
        i
    }
}

/// The command that a line gives, and what follows its name.
pub open spec fn slash_command(input: Seq<char>) -> Option<(ReplSlashCommand, Seq<char>)> {
    match strip_prefix_spec(input, "/"@) {
        None => None,
        Some(s) => {
            let end = space_from(s, 0);
            match command_named(s.take(end)) {
                Some(c) => Some((c, trimmed(s.skip(end)))),
                None => None,
            }
        },
    }
}

pub fn parse_repl_slash_command(input: &str) -> (r: Option<(ReplSlashCommand, String)>)
    ensures
        match r {
            Some(p) => slash_command(input@) == Some((p.0, p.1@)),
            None => slash_command(input@) is None,
        },
{
    let stripped = match strip_prefix(input, "/") {
        Some(s) => s,
        None => {
            return None;
        },
    };
    let c = chars_of(stripped.as_str());
    let n: usize = c.len();
    let mut i: usize = 0;
    while i < n && !char_is_space(c[i])
        invariant
            i <= n,
            n == c@.len(),
            space_from(c@, 0) == space_from(c@, i as int),
        decreases n - i,
    {
        i = i + 1;
    }
    let name = substring(c.as_slice(), 0, i);
    let rest = substring(c.as_slice(), i, n);
    proof {
        assert(name@ =~= stripped@.take(i as int));
        assert(rest@ =~= stripped@.skip(i as int));
    }
    match command_of(name.as_str()) {
        Some(command) => Some((command, trim(rest.as_str()))),
        None => None,
    }
}

// ---------------------------------------------------------------------------
// Modes
// ---------------------------------------------------------------------------

#[derive(Debug, Clone, Copy, PartialEq, Eq, Structural)]
pub enum ReplSlashMode {
    Commands,
    Model,
    Session,
    Audit,
    ToolSearch,
    Bash,
}

/// The name of the command of a mode.
pub open spec fn mode_command(m: ReplSlashMode) -> Option<Seq<char>> {
    match m {
        ReplSlashMode::Commands => None,
        ReplSlashMode::Model => Some("model"@),
        ReplSlashMode::Session => Some("sessions"@),
        ReplSlashMode::Audit => Some("audit"@),
        ReplSlashMode::ToolSearch => Some("tool-search"@),
        ReplSlashMode::Bash => Some("bash"@),
    }
}

pub open spec fn mode_placeholder(m: ReplSlashMode) -> Seq<char> {
    match m {
        ReplSlashMode::Commands => "Filter slash commands. Press Enter to apply."@,
        ReplSlashMode::Model => "Filter models. Press Enter to apply."@,
        ReplSlashMode::Session => "Filter sessions. Press Enter to switch."@,
        ReplSlashMode::Audit => "Choose an audit setting. Press Enter to apply."@,
        ReplSlashMode::ToolSearch => "Choose a tool search setting. Press Enter to apply."@,
        ReplSlashMode::Bash => "Choose a bash subcommand. Press Enter to apply."@,
    }
}

pub open spec fn mode_title(m: ReplSlashMode) -> Seq<char> {
    match m {
        ReplSlashMode::Commands => "Commands"@,
        ReplSlashMode::Model => "Model"@,
        ReplSlashMode::Session => "Session"@,
        ReplSlashMode::Audit => "Audit"@,
        ReplSlashMode::ToolSearch => "ToolSearch"@,
        ReplSlashMode::Bash => "Bash"@,
    }
}

pub open spec fn mode_label(m: ReplSlashMode) -> Seq<char> {
    match mode_command(m) {
        Some(c) => c,
        None => "commands"@,
    }
}

impl ReplSlashMode {
    pub fn command(self) -> (r: Option<&'static str>)
        ensures
            opt_str(r) == mode_command(self),
    {
        match self {
            ReplSlashMode::Commands => None,
            ReplSlashMode::Model => Some("model"),
            ReplSlashMode::Session => Some("sessions"),
            ReplSlashMode::Audit => Some("audit"),
            ReplSlashMode::ToolSearch => Some("tool-search"),
            ReplSlashMode::Bash => Some("bash"),
        }
    }

    pub fn label(self) -> (r: &'static str)
        ensures
            r@ == mode_label(self),
    {
        match self.command() {
            Some(c) => c,
            None => "commands",
        }
    }

    pub fn placeholder(self) -> (r: &'static str)
        ensures
            r@ == mode_placeholder(self),
    {
        match self {
            ReplSlashMode::Commands => "Filter slash commands. Press Enter to apply.",
            ReplSlashMode::Model => "Filter models. Press Enter to apply.",
            ReplSlashMode::Session => "Filter sessions. Press Enter to switch.",
            ReplSlashMode::Audit => "Choose an audit setting. Press Enter to apply.",
            ReplSlashMode::ToolSearch => "Choose a tool search setting. Press Enter to apply.",
            ReplSlashMode::Bash => "Choose a bash subcommand. Press Enter to apply.",
        }
    }

    pub fn title(self) -> (r: &'static str)
        ensures
            r@ == mode_title(self),
    {
        match self {
            ReplSlashMode::Commands => "Commands",
            ReplSlashMode::Model => "Model",
            ReplSlashMode::Session => "Session",
            ReplSlashMode::Audit => "Audit",
            ReplSlashMode::ToolSearch => "ToolSearch",
            ReplSlashMode::Bash => "Bash",
        }
    }
}

// ---------------------------------------------------------------------------
// Choices
// ---------------------------------------------------------------------------

#[derive(Debug)]
pub enum ReplPopupAction {
    EnterSlashMode(ReplSlashMode),
    SubmitPrompt(String),
}

pub enum ActionView {
    Enter(ReplSlashMode),
    Submit(Seq<char>),
}

impl View for ReplPopupAction {
    type V = ActionView;

    open spec fn view(&self) -> ActionView {
        match self {
            ReplPopupAction::EnterSlashMode(m) => ActionView::Enter(*m),
            ReplPopupAction::SubmitPrompt(p) => ActionView::Submit(p@),
        }
    }
}

impl ReplPopupAction {
    pub fn copy(&self) -> (r: ReplPopupAction)
        ensures
            r@ == self@,
    {
        match self {
            ReplPopupAction::EnterSlashMode(m) => ReplPopupAction::EnterSlashMode(*m),
            ReplPopupAction::SubmitPrompt(p) => ReplPopupAction::SubmitPrompt(p.clone()),
        }
    }
}

#[derive(Debug)]
pub struct ReplPopupItem {
    pub label: String,
    pub detail: String,
    pub action: ReplPopupAction,
}

pub struct ItemView {
    pub label: Seq<char>,
    pub detail: Seq<char>,
    pub action: ActionView,
}

impl View for ReplPopupItem {
    type V = ItemView;

    open spec fn view(&self) -> ItemView {
        ItemView { label: self.label@, detail: self.detail@, action: self.action@ }
    }
}

pub open spec fn item_views(v: Seq<ReplPopupItem>) -> Seq<ItemView> {
    v.map_values(|i: ReplPopupItem| i@)
}

pub proof fn lemma_items_push(v: Seq<ReplPopupItem>, i: ReplPopupItem)
    ensures
        item_views(v.push(i)) == item_views(v).push(i@),
{
    assert(item_views(v.push(i)) =~= item_views(v).push(i@));
}

#[derive(Debug)]
pub struct ReplPopupModel {
    pub signature: String,
    pub items: Vec<ReplPopupItem>,
}

pub struct PopupView {
    pub signature: Seq<char>,
    pub items: Seq<ItemView>,
}

impl View for ReplPopupModel {
    type V = PopupView;

    open spec fn view(&self) -> PopupView {
        PopupView { signature: self.signature@, items: item_views(self.items@) }
    }
}

pub open spec fn opt_popup(o: Option<&ReplPopupModel>) -> Option<PopupView> {
    match o {
        Some(m) => Some(m@),
        None => None,
    }
}

/// An item that submits a prompt.
pub open spec fn submit_item(label: Seq<char>, detail: Seq<char>, prompt: Seq<char>) -> ItemView {
    ItemView { label, detail, action: ActionView::Submit(prompt) }
}

fn push_item(items: &mut Vec<ReplPopupItem>, label: String, detail: String, action: ReplPopupAction)
    ensures
        item_views(final(items)@) == item_views(old(items)@).push(
            ItemView { label: label@, detail: detail@, action: action@ },
        ),
{
    let item = ReplPopupItem { label, detail, action };
    proof {
        lemma_items_push(items@, item);
    }
    items.push(item);
}

/// Whether a choice fits a query: an empty one always, else where the choice holds it.
pub open spec fn fits(candidate: Seq<char>, query: Seq<char>) -> bool {
    is_blank(query) || contains_text(ascii_lower(candidate), ascii_lower(trimmed(query)))
}

pub fn matches_popup_query(candidate: &str, query: &str) -> (r: bool)
    ensures
        r == fits(candidate@, query@),
{
    let t = trim(query);
    if t.as_str().is_empty() {
        return true;
    }
    let c = to_ascii_lower(candidate);
    let q = to_ascii_lower(t.as_str());
    contains(c.as_str(), q.as_str())
}

/// What choosing a command does: some lead on to further choices.
pub open spec fn command_action(c: ReplSlashCommand) -> ActionView {
    match c {
        ReplSlashCommand::Model => ActionView::Enter(ReplSlashMode::Model),
        ReplSlashCommand::Session => ActionView::Enter(ReplSlashMode::Session),
        ReplSlashCommand::Audit => ActionView::Enter(ReplSlashMode::Audit),
        ReplSlashCommand::ToolSearch => ActionView::Enter(ReplSlashMode::ToolSearch),
        ReplSlashCommand::Bash => ActionView::Enter(ReplSlashMode::Bash),
        _ => ActionView::Submit("/"@ + command_command(c)),
    }
}

pub open spec fn command_item(c: ReplSlashCommand) -> ItemView {
    ItemView {
        label: "/"@ + command_command(c),
        detail: command_description(c),
        action: command_action(c),
    }
}

pub open spec fn command_items(query: Seq<char>) -> Seq<ItemView> {
    filtered_commands(query).map_values(|c: ReplSlashCommand| command_item(c))
}

fn action_of(c: ReplSlashCommand) -> (r: ReplPopupAction)
    ensures
        r@ == command_action(c),
{
    match c {
        ReplSlashCommand::Model => ReplPopupAction::EnterSlashMode(ReplSlashMode::Model),
        ReplSlashCommand::Session => ReplPopupAction::EnterSlashMode(ReplSlashMode::Session),
        ReplSlashCommand::Audit => ReplPopupAction::EnterSlashMode(ReplSlashMode::Audit),
        ReplSlashCommand::ToolSearch => ReplPopupAction::EnterSlashMode(ReplSlashMode::ToolSearch),
        ReplSlashCommand::Bash => ReplPopupAction::EnterSlashMode(ReplSlashMode::Bash),
        _ => ReplPopupAction::SubmitPrompt("/".to_owned().concat(c.command())),
    }
}

pub fn build_repl_command_popup_items(query: &str) -> (r: Vec<ReplPopupItem>)
    ensures
        item_views(r@) == command_items(query@),
{
    let v = filtered_repl_slash_commands(query);
    let ghost goal = command_items(query@);
    let mut out: Vec<ReplPopupItem> = Vec::new();
    let mut i: usize = 0;
    proof {
        assert(item_views(out@) =~= goal.take(0));
    }
    while i < v.len()
        invariant
            i <= v@.len(),
            v@ == filtered_commands(query@),
            goal == command_items(query@),
            item_views(out@) == goal.take(i as int),
        decreases v@.len() - i,
    {
        proof {
            lemma_take_step(goal, i as int);
        }
        let label = "/".to_owned().concat(v[i].command());
        push_item(&mut out, label, v[i].description().to_owned(), action_of(v[i]));
        i = i + 1;
    }
    proof {
        lemma_take_full(goal);
    }
    out
}

/// One choice of a switch.
pub open spec fn toggle_detail(value: Seq<char>, current: bool) -> Seq<char> {
    if value == "status"@ {
        "current "@ + (if current {
            "on"@
        } else {
            "off"@
        })
    } else if (value == "on"@ && current) || (value == "off"@ && !current) {
        "current"@
    } else {
        "update config"@
    }
}

pub open spec fn toggle_values() -> Seq<&'static str> {
    seq!["status", "on", "off"]
}

/// The first `i` choices of a switch that fit a query.
pub open spec fn toggle_items(name: Seq<char>, current: bool, query: Seq<char>, i: int) -> Seq<
    ItemView,
>
    decreases i,
{
    if i <= 0 {
        Seq::empty()
    } else {
        let before = toggle_items(name, current, query, i - 1);
        let value = toggle_values()[i - 1]@;
        if fits(value, query) {
            before.push(
                submit_item(value, toggle_detail(value, current), "/"@ + name + " "@ + value),
            )
        } else {
            before
        }
    }
}

pub fn build_repl_toggle_popup_items(name: &str, current: bool, query: &str) -> (r: Vec<
    ReplPopupItem,
>)
    ensures
        item_views(r@) == toggle_items(name@, current, query@, 3),
{
    let values = ["status", "on", "off"];
    proof {
        assert(values@ =~= toggle_values());
    }
    let mut out: Vec<ReplPopupItem> = Vec::new();
    let mut i: usize = 0;
    proof {
        assert(item_views(out@) =~= Seq::<ItemView>::empty());
    }
    while i < 3
        invariant
            i <= 3,
            values@ == toggle_values(),
            item_views(out@) == toggle_items(name@, current, query@, i as int),
        decreases 3 - i,
    {
        let value = values[i];
        if matches_popup_query(value, query) {
            let detail = if str_eq(value, "status") {
                "current ".to_owned().concat(
                    if current {
                        "on"
                    } else {
                        "off"
                    },
                )
            } else if (str_eq(value, "on") && current) || (str_eq(value, "off") && !current) {
                "current".to_owned()
            } else {
                "update config".to_owned()
            };
            let prompt = "/".to_owned().concat(name).concat(" ").concat(value);
            push_item(
                &mut out,
                value.to_owned(),
                detail,
                ReplPopupAction::SubmitPrompt(prompt),
            );
        }
        i = i + 1;
    }
    out
}

pub open spec fn bash_items(query: Seq<char>) -> Seq<ItemView> {
    let help = submit_item("help"@, "show bash REPL subcommands"@, "/bash help"@);
    let sessions = submit_item("sessions"@, "list interactive bash sessions"@, "/bash sessions"@);
    (if fits("help"@, query) {
        seq![help]
    } else {
        Seq::empty()
    }) + (if fits("sessions"@, query) {
        seq![sessions]
    } else {
        Seq::empty()
    })
}

pub fn build_repl_bash_popup_items(query: &str) -> (r: Vec<ReplPopupItem>)
    ensures
        item_views(r@) == bash_items(query@),
{
    let mut out: Vec<ReplPopupItem> = Vec::new();
    if matches_popup_query("help", query) {
        push_item(
            &mut out,
            "help".to_owned(),
            "show bash REPL subcommands".to_owned(),
            ReplPopupAction::SubmitPrompt("/bash help".to_owned()),
        );
    }
    if matches_popup_query("sessions", query) {
        push_item(
            &mut out,
            "sessions".to_owned(),
            "list interactive bash sessions".to_owned(),
            ReplPopupAction::SubmitPrompt("/bash sessions".to_owned()),
        );
    }
    proof {
        assert(item_views(out@) =~= bash_items(query@));
    }
    out
}

/// A model by its provider and its name there.
pub open spec fn model_entry(m: ModelConfig) -> Seq<char> {
    m.provider@ + "/"@ + m.remote_name@
}

pub fn format_model_list_entry(model: &ModelConfig) -> (r: String)
    ensures
        r@ == model_entry(*model),
{
    model.provider.clone().concat("/").concat(model.remote_name.as_str())
}

/// Whether a model comes before another one: by its entry, then by its identifier.
pub open spec fn model_before(t: Table<ModelConfig>, a: int, b: int) -> bool {
    let x = model_entry(t.values()[a]);
    let y = model_entry(t.values()[b]);
    text_lt(x, y) || (x == y && text_lt(t.keys()[a], t.keys()[b]))
}

pub open spec fn with_model(t: Table<ModelConfig>, v: Seq<int>, m: int) -> Seq<int>
    decreases v.len(),
{
    if v.len() > 0 && model_before(t, m, v.last()) {
        with_model(t, v.drop_last(), m).push(v.last())
    } else {
        v.push(m)
    }
}

/// The numbers of the first `i` models in order.
pub open spec fn model_order(t: Table<ModelConfig>, i: int) -> Seq<int>
    decreases i,
{
    if i <= 0 {
        Seq::empty()
    } else {
        with_model(t, model_order(t, i - 1), i - 1)
    }
}

proof fn lemma_with_model_at(t: Table<ModelConfig>, v: Seq<int>, m: int, i: int)
    requires
        0 <= i <= v.len(),
        forall|k: int| i <= k < v.len() ==> model_before(t, m, #[trigger] v[k]),
        i > 0 ==> !model_before(t, m, v[i - 1]),
    ensures
        with_model(t, v, m) == v.insert(i, m),
    decreases v.len(),
{
    if i == v.len() {
        assert(v.insert(i, m) =~= v.push(m));
        if v.len() > 0 {
            assert(v.last() == v[i - 1]);
        }
    } else {
        assert(model_before(t, m, v[v.len() - 1]));
        lemma_with_model_at(t, v.drop_last(), m, i);
        assert(v.insert(i, m) =~= v.drop_last().insert(i, m).push(v.last()));
    }
}

fn is_model_before(t: &Table<ModelConfig>, a: usize, b: usize) -> (r: bool)
    requires
        t.wf(),
        a < t.keys().len(),
        b < t.keys().len(),
    ensures
        r == model_before(*t, a as int, b as int),
{
    let x = format_model_list_entry(t.value_at(a));
    let y = format_model_list_entry(t.value_at(b));
    text_before(x.as_str(), y.as_str()) || (str_eq(x.as_str(), y.as_str()) && text_before(
        t.key_at(a),
        t.key_at(b),
    ))
}

/// The numbers of the models in the order in which they are listed.
pub fn ordered_models(t: &Table<ModelConfig>) -> (r: Vec<usize>)
    requires
        t.wf(),
    ensures
        ints(r@) == model_order(*t, t.keys().len() as int),
        forall|k: int| 0 <= k < r@.len() ==> #[trigger] r@[k] < t.keys().len(),
{
    let n: usize = t.len();
    let mut out: Vec<usize> = Vec::new();
    let mut m: usize = 0;
    proof {
        assert(ints(out@) =~= Seq::<int>::empty());
    }
    while m < n
        invariant
            m <= n,
            n == t.keys().len(),
            t.wf(),
            ints(out@) == model_order(*t, m as int),
            forall|k: int| 0 <= k < out@.len() ==> #[trigger] out@[k] < n,
        decreases n - m,
    {
        let ghost src = ints(out@);
        let mut i: usize = out.len();
        while i > 0 && is_model_before(t, m, out[i - 1])
            invariant
                i <= out@.len(),
                m < n,
                n == t.keys().len(),
                t.wf(),
                src == ints(out@),
                forall|k: int| 0 <= k < out@.len() ==> #[trigger] out@[k] < n,
                forall|k: int| i <= k < out@.len() ==> model_before(*t, m as int, #[trigger] src[k]),
            decreases i,
        {
            proof {
                assert(src[i - 1] == out@[i - 1]);
            }
            i = i - 1;
        }
        proof {
            if i > 0 {
                assert(src[i - 1] == out@[i - 1]);
            }
            lemma_with_model_at(*t, src, m as int, i as int);
        }
        let ghost before = out@;
        out.insert(i, m);
        proof {
            assert(ints(out@) =~= src.insert(i as int, m as int));
            assert forall|k: int| 0 <= k < out@.len() implies #[trigger] out@[k] < n by {
                if k < i {
                    assert(before[k] < n);
                } else if k > i {
                    assert(before[k - 1] < n);
                }
            }
        }
        m = m + 1;
    }
    out
}

/// The items of the first `i` models of an order that fit a query.
pub open spec fn model_items_from(t: Table<ModelConfig>, order: Seq<int>, query: Seq<char>, i: int) -> Seq<
    ItemView,
>
    decreases i,
{
    if i <= 0 {
        Seq::empty()
    } else {
        let before = model_items_from(t, order, query, i - 1);
        let id = t.keys()[order[i - 1]];
        let label = model_entry(t.values()[order[i - 1]]);
        if fits(label, query) || fits(id, query) {
            before.push(submit_item(label, "id="@ + id, "/model "@ + id))
        } else {
            before
        }
    }
}

/// The choices of models: the reset first, then those that fit.
pub open spec fn model_items(t: Table<ModelConfig>, query: Seq<char>) -> Seq<ItemView> {
    let order = model_order(t, t.keys().len() as int);
    seq![
        submit_item("reset"@, "use CLI/config/default provider model"@, "/model reset"@),
    ] + model_items_from(t, order, query, order.len() as int)
}

pub fn build_repl_model_popup_items(models: &Table<ModelConfig>, query: &str) -> (r: Vec<
    ReplPopupItem,
>)
    requires
        models.wf(),
    ensures
        item_views(r@) == model_items(*models, query@),
{
    let order = ordered_models(models);
    let ghost ord = ints(order@);
    let mut items: Vec<ReplPopupItem> = Vec::new();
    push_item(
        &mut items,
        "reset".to_owned(),
        "use CLI/config/default provider model".to_owned(),
        ReplPopupAction::SubmitPrompt("/model reset".to_owned()),
    );
    let ghost head = item_views(items@);
    proof {
        assert(head =~= seq![
            submit_item("reset"@, "use CLI/config/default provider model"@, "/model reset"@),
        ]);
        assert(head + Seq::<ItemView>::empty() =~= head);
    }
    let mut i: usize = 0;
    while i < order.len()
        invariant
            i <= order@.len(),
            models.wf(),
            ord == ints(order@),
            forall|k: int| 0 <= k < order@.len() ==> #[trigger] order@[k] < models.keys().len(),
            item_views(items@) == head + model_items_from(*models, ord, query@, i as int),
        decreases order@.len() - i,
    {
        let ghost before = model_items_from(*models, ord, query@, i as int);
        proof {
            assert(ord[i as int] == order@[i as int]);
        }
        let id = models.key_at(order[i]);
        let label = format_model_list_entry(models.value_at(order[i]));
        if matches_popup_query(label.as_str(), query) || matches_popup_query(id, query) {
            let ghost item = submit_item(label@, "id="@ + id@, "/model "@ + id@);
            push_item(
                &mut items,
                label,
                "id=".to_owned().concat(id),
                ReplPopupAction::SubmitPrompt("/model ".to_owned().concat(id)),
            );
            proof {
                assert((head + before).push(item) =~= head + before.push(item));
            }
        }
        i = i + 1;
    }
    items
}

/// The item of a session.
pub open spec fn session_item(s: SummaryView) -> ItemView {
    submit_item(
        short(s.session_id),
        match s.first_prompt {
            Some(p) => truncated_plain(p, 36),
            None => "(empty)"@,
        },
        "/sessions switch "@ + short(s.session_id),
    )
}

pub open spec fn session_fits(s: SummaryView, query: Seq<char>) -> bool {
    fits(short(s.session_id), query) || (s.first_prompt matches Some(p) && fits(p, query))
}

pub open spec fn session_items_from(v: Seq<SummaryView>, query: Seq<char>) -> Seq<ItemView>
    decreases v.len(),
{
    if v.len() == 0 {
        Seq::empty()
    } else {
        let before = session_items_from(v.drop_last(), query);
        if session_fits(v.last(), query) {
            before.push(session_item(v.last()))
        } else {
            before
        }
    }
}

/// The choices of sessions: the list, the current one, then those that fit.
pub open spec fn session_items(v: Seq<SummaryView>, current: Option<Seq<char>>, query: Seq<char>) -> Seq<
    ItemView,
> {
    let head = seq![submit_item("list"@, "show saved sessions"@, "/sessions list"@)];
    let head = match current {
        Some(id) => head.push(
            submit_item("current"@, "active "@ + short(id), "/sessions current"@),
        ),
        None => head,
    };
    head + session_items_from(v, query)
}

pub fn build_repl_session_popup_items(
    summaries: &Vec<SessionSummary>,
    current: Option<&str>,
    query: &str,
) -> (r: Vec<ReplPopupItem>)
    ensures
        item_views(r@) == session_items(summary_views(summaries@), opt_str(current), query@),
{
    let ghost src = summary_views(summaries@);
    let mut items: Vec<ReplPopupItem> = Vec::new();
    push_item(
        &mut items,
        "list".to_owned(),
        "show saved sessions".to_owned(),
        ReplPopupAction::SubmitPrompt("/sessions list".to_owned()),
    );
    proof {
        assert(item_views(items@) =~= seq![
            submit_item("list"@, "show saved sessions"@, "/sessions list"@),
        ]);
    }
    if let Some(id) = current {
        let detail = "active ".to_owned().concat(short_id(id).as_str());
        push_item(
            &mut items,
            "current".to_owned(),
            detail,
            ReplPopupAction::SubmitPrompt("/sessions current".to_owned()),
        );
    }
    let ghost head = item_views(items@);
    proof {
        assert(head + Seq::<ItemView>::empty() =~= head);
    }
    let mut i: usize = 0;
    while i < summaries.len()
        invariant
            i <= summaries@.len(),
            src == summary_views(summaries@),
            item_views(items@) == head + session_items_from(src.take(i as int), query@),
        decreases summaries@.len() - i,
    {
        proof {
            lemma_take_step(src, i as int);
            assert(src[i as int] == summaries@[i as int]@);
        }
        let ghost before = session_items_from(src.take(i as int), query@);
        let s = &summaries[i];
        let short = short_id(s.session_id.as_str());
        let hit = matches_popup_query(short.as_str(), query) || match &s.first_prompt {
            Some(p) => matches_popup_query(p.as_str(), query),
            None => false,
        };
        if hit {
            let detail = match &s.first_prompt {
                Some(p) => truncate_plain_to_width(p.as_str(), 36),
                None => "(empty)".to_owned(),
            };
            let prompt = "/sessions switch ".to_owned().concat(short.as_str());
            push_item(&mut items, short, detail, ReplPopupAction::SubmitPrompt(prompt));
            proof {
                let item = session_item(src[i as int]);
                assert((head + before).push(item) =~= head + before.push(item));
            }
        }
        i = i + 1;
    }
    proof {
        lemma_take_full(src);
    }
    items
}

// ---------------------------------------------------------------------------
// The popup
// ---------------------------------------------------------------------------

/// The sessions that can be chosen.
#[derive(Debug)]
pub struct SessionChoices {
    pub summaries: Vec<SessionSummary>,
    pub current: Option<String>,
}

/// The choices in a mode.
pub open spec fn mode_items(
    mode: ReplSlashMode,
    c: AppConfig,
    s: SessionChoices,
    query: Seq<char>,
) -> Seq<ItemView> {
    match mode {
        ReplSlashMode::Commands => command_items(query),
        ReplSlashMode::Model => model_items(c.models, query),
        ReplSlashMode::Session => session_items(
            summary_views(s.summaries@),
            opt_text(s.current),
            query,
        ),
        ReplSlashMode::Audit => toggle_items("audit"@, or_flag(c.audit.enabled, false), query, 3),
        ReplSlashMode::ToolSearch => toggle_items(
            "tool-search"@,
            or_flag(c.tools.progressive_loading, false),
            query,
            3,
        ),
        ReplSlashMode::Bash => bash_items(query),
    }
}

pub open spec fn popup_with(signature: Seq<char>, items: Seq<ItemView>) -> Option<PopupView> {
    if items.len() == 0 {
        None
    } else {
        Some(PopupView { signature, items })
    }
}

/// The first line of a text.
pub open spec fn first_line(s: Seq<char>) -> Seq<char> {
    if lines(s).len() == 0 {
        Seq::empty()
    } else {
        lines(s)[0]
    }
}

/// What pops up: in a mode its choices, else the commands while one is typed.
pub open spec fn popup(
    mode: Option<ReplSlashMode>,
    buffer: Seq<char>,
    c: AppConfig,
    s: SessionChoices,
) -> Option<PopupView> {
    match mode {
        Some(m) => {
            let query = trimmed(buffer);
            popup_with("slash:"@ + mode_title(m) + ":"@ + query, mode_items(m, c, s, query))
        },
        None => match strip_prefix_spec(first_line(buffer), "/"@) {
            None => None,
            Some(rest) => popup_with(first_line(buffer), command_items(rest)),
        },
    }
}

pub open spec fn popup_result(r: Option<ReplPopupModel>) -> Option<PopupView> {
    match r {
        Some(m) => Some(m@),
        None => None,
    }
}

fn popup_of(signature: String, items: Vec<ReplPopupItem>) -> (r: Option<ReplPopupModel>)
    ensures
        popup_result(r) == popup_with(signature@, item_views(items@)),
{
    if items.len() == 0 {
        None
    } else {
        Some(ReplPopupModel { signature, items })
    }
}

pub fn repl_popup_model(
    slash_mode: Option<ReplSlashMode>,
    buffer: &str,
    config: &AppConfig,
    sessions: &SessionChoices,
) -> (r: Option<ReplPopupModel>)
    requires
        config.models.wf(),
    ensures
        popup_result(r) == popup(slash_mode, buffer@, *config, *sessions),
{
    if let Some(mode) = slash_mode {
        let query = trim(buffer);
        let q = query.as_str();
        let items = match mode {
            ReplSlashMode::Commands => build_repl_command_popup_items(q),
            ReplSlashMode::Model => build_repl_model_popup_items(&config.models, q),
            ReplSlashMode::Session => match &sessions.current {
                Some(c) => build_repl_session_popup_items(&sessions.summaries, Some(c.as_str()), q),
                None => build_repl_session_popup_items(&sessions.summaries, None, q),
            },
            ReplSlashMode::Audit => {
                let on = match config.audit.enabled {
                    Some(b) => b,
                    None => false,
                };
                build_repl_toggle_popup_items("audit", on, q)
            },
            ReplSlashMode::ToolSearch => {
                let on = match config.tools.progressive_loading {
                    Some(b) => b,
                    None => false,
                };
                build_repl_toggle_popup_items("tool-search", on, q)
            },
            ReplSlashMode::Bash => build_repl_bash_popup_items(q),
        };
        let signature = "slash:".to_owned().concat(mode.title()).concat(":").concat(q);
        return popup_of(signature, items);
    }
    let all = lines_of(buffer);
    let line = if all.len() == 0 {
        String::new()
    } else {
        all[0].clone()
    };
    proof {
        if all@.len() > 0 {
            assert(texts(all@)[0] == all@[0]@);
        }
        assert(line@ =~= first_line(buffer@));
    }
    match strip_prefix(line.as_str(), "/") {
        None => None,
        Some(rest) => {
            let items = build_repl_command_popup_items(rest.as_str());
            popup_of(line, items)
        },
    }
}

/// The first of the choices that are shown, so that the selected one is among them.
pub open spec fn window_start(selected: nat, total: nat, visible: nat) -> nat {
    if total <= visible || visible == 0 {
        0
    } else {
        let half = visible / 2;
        let from = if selected >= half {
            (selected - half) as nat
        } else {
            0
        };
        if from <= total - visible {
            from
        } else {
            (total - visible) as nat
        }
    }
}

pub fn popup_window_start(selected: usize, total_items: usize, visible_count: usize) -> (r: usize)
    ensures
        r == window_start(selected as nat, total_items as nat, visible_count as nat),
{
    if total_items <= visible_count || visible_count == 0 {
        return 0;
    }
    let from: usize = selected.saturating_sub(visible_count / 2);
    if from <= total_items - visible_count {
        from
    } else {
        total_items - visible_count
    }
}

/// The selected choice is always among those that are shown.
pub proof fn law_selected_is_shown(selected: nat, total: nat, visible: nat)
    requires
        selected < total,
        visible > 0,
    ensures
        ({
            let start = window_start(selected, total, visible);
            start <= selected < start + visible
        }),
{
}

/// A text and spaces behind it, up to a width.
pub open spec fn left_aligned(s: Seq<char>, width: nat) -> Seq<char> {
    s + repeat(" "@, pad_len(width, s.len()))
}

fn align_left(s: &str, width: usize) -> (r: String)
    ensures
        r@ == left_aligned(s@, width as nat),
{
    let n: usize = chars_of(s).len();
    let pad: usize = if n < width {
        width - n
    } else {
        0
    };
    s.to_owned().concat(repeat_str(" ", pad).as_str())
}

/// How many choices are shown at most.
pub const MAX_POPUP_LINES: usize = 8;

/// A choice as it is shown.
pub open spec fn popup_line(item: ItemView, selected: bool, width: nat) -> Seq<char> {
    let text = if selected {
        "\x1b[48;5;240m\x1b[38;5;231m› "@ + left_aligned(item.label, 14) + item.detail
            + "\x1b[0m"@
    } else {
        CYAN@ + "  "@ + left_aligned(item.label, 12) + RESET@ + " "@ + DIM@ + item.detail + RESET@
    };
    truncated_ansi(text, width)
}

/// The choices `from` to `to` as they are shown.
pub open spec fn popup_lines(items: Seq<ItemView>, selected: nat, width: nat, from: int, to: int) -> Seq<
    Seq<char>,
>
    decreases to - from,
{
    if to <= from {
        Seq::empty()
    } else {
        popup_lines(items, selected, width, from, to - 1).push(
            popup_line(items[to - 1], selected == to - 1, width),
        )
    }
}

pub open spec fn popup_width(cols: u16) -> nat {
    if cols >= 16 {
        (cols - 4) as nat
    } else {
        12
    }
}

pub open spec fn least(a: nat, b: nat) -> nat {
    if a <= b {
        a
    } else {
        b
    }
}

/// The lines of the popup: as many choices as fit, around the selected one.
pub open spec fn popup_view(
    popup: Option<PopupView>,
    selected: nat,
    cols: u16,
    max_lines: nat,
) -> Seq<Seq<char>> {
    match popup {
        None => Seq::empty(),
        Some(p) => if p.items.len() == 0 || max_lines == 0 {
            seq![DIM@ + "  no matching options"@ + RESET@]
        } else {
            let visible = least(least(p.items.len(), max_lines), MAX_POPUP_LINES as nat);
            let start = window_start(selected, p.items.len(), visible);
            popup_lines(p.items, selected, popup_width(cols), start as int, (start + visible) as int)
        },
    }
}

#[derive(Debug)]
pub struct ReplSlashPopupView {
    pub lines: Vec<String>,
}

fn popup_line_of(item: &ReplPopupItem, selected: bool, width: usize) -> (r: String)
    ensures
        r@ == popup_line(item@, selected, width as nat),
{
    let text = if selected {
        "\x1b[48;5;240m\x1b[38;5;231m› ".to_owned().concat(
            align_left(item.label.as_str(), 14).as_str(),
        ).concat(item.detail.as_str()).concat("\x1b[0m")
    } else {
        CYAN.to_owned().concat("  ").concat(align_left(item.label.as_str(), 12).as_str()).concat(
            RESET,
        ).concat(" ").concat(DIM).concat(item.detail.as_str()).concat(RESET)
    };
    ansi_truncate(text.as_str(), width)
}

pub fn slash_popup_lines(
    popup_model: Option<&ReplPopupModel>,
    popup_selected: usize,
    cols: u16,
    max_lines: usize,
) -> (r: ReplSlashPopupView)
    ensures
        texts(r.lines@) == popup_view(
            opt_popup(popup_model),
            popup_selected as nat,
            cols,
            max_lines as nat,
        ),
{
    let mut out: Vec<String> = Vec::new();
    let model = match popup_model {
        Some(m) => m,
        None => {
            proof {
                assert(texts(out@) =~= Seq::<Seq<char>>::empty());
            }
            return ReplSlashPopupView { lines: out };
        },
    };
    if model.items.len() == 0 || max_lines == 0 {
        let line = painted(DIM, "  no matching options");
        out.push(line);
        proof {
            assert(texts(out@) =~= seq![DIM@ + "  no matching options"@ + RESET@]);
        }
        return ReplSlashPopupView { lines: out };
    }
    let width: usize = if cols >= 16 {
        (cols - 4) as usize
    } else {
        12
    };
    let total: usize = model.items.len();
    let mut visible: usize = if total <= max_lines {
        total
    } else {
        max_lines
    };
    if visible > MAX_POPUP_LINES {
        visible = MAX_POPUP_LINES;
    }
    let start: usize = popup_window_start(popup_selected, total, visible);
    let end: usize = start + visible;
    let ghost items = item_views(model.items@);
    let mut i: usize = start;
    proof {
        assert(texts(out@) =~= popup_lines(
            items,
            popup_selected as nat,
            width as nat,
            start as int,
            start as int,
        ));
    }
    while i < end
        invariant
            start <= i <= end,
            end <= total,
            total == model.items@.len(),
            items == item_views(model.items@),
            texts(out@) == popup_lines(
                items,
                popup_selected as nat,
                width as nat,
                start as int,
                i as int,
            ),
        decreases end - i,
    {
        proof {
            assert(items[i as int] == model.items@[i as int]@);
        }
        let line = popup_line_of(&model.items[i], i == popup_selected, width);
        proof {
            lemma_texts_push(out@, line);
        }
        out.push(line);
        i = i + 1;
    }
    ReplSlashPopupView { lines: out }
}

} // verus!
