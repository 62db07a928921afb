//! What typing does, and what is offered and shown on the screen.

use crate::activity::{TodoUiStatus, TodoView};
use crate::ansi::{text_columns, wrapped};
use crate::composer::{
    image_badge, image_badge_text, input_width, paste_badge, prompt_prefix, rows, whole_box,
};
use crate::config::{AppConfig, ModelConfig};
use crate::editor::{
    DraftView, KeyMods, PasteView, ReplKey, StepView, backspace_key, enter_key, escape_key,
    inserted, key_step, manual_prompt, newline_from, prompt_of, synced, with_pastes,
};
use crate::panels::{
    PanelView, ReplRuntimePanelKind, Selection, StateView, current_details, effective_model,
    effective_provider, is_model_of, shown_panel, shown_panels, status_lines, submitted,
    todo_lines, transcript, user_panel,
};
use crate::popup::{
    ActionView, ItemView, PopupView, ReplSlashCommand, ReplSlashMode, all_commands,
    command_command, command_item, command_items, command_named, commands_with,
    filtered_commands, mode_label, model_entry, model_items_from, popup_line, popup_lines,
    session_item, session_items_from, slash_command, space_from, toggle_items, toggle_values,
};
use crate::render::{RULE_WIDTH, message_text};
use crate::screen::{
    ReplScreenView, all_wrapped, clipped_lines, draft_counts, on_off, screen_lines,
    status_left, status_right,
};
use crate::session::{SummaryView, short};
use crate::session_laws::lemma_last_index_is;
use crate::sse::{SseState, data_lines, event_payload, line_bytes, sse_byte};
use crate::table::Table;
use crate::table_laws::{lemma_contained, lemma_contained_within, lemma_joined_holds};
use crate::text::{
    after_at, ascii_lower, before_at, bytes_len, char_bytes, contains_text, decimal, is_blank,
    is_space, join, lemma_bytes_len_concat, lemma_head_of_prefix, opt_text, starts_with_spec,
    trimmed, trimmed_start,
};
use crate::text_laws::{all_space, law_trimming_takes_space_only};
use crate::transcript::turn_rule;
use vstd::prelude::*;
use vstd::utf8::{decode_utf8, valid_utf8};

verus! {

proof fn lemma_at(a: Seq<char>, b: Seq<char>)
    ensures
        before_at(a + b, bytes_len(a)) == a,
        after_at(a + b, bytes_len(a)) == b,
{
    let s = a + b;
    let n = a.len() as int;
    assert(s.take(n) =~= a);
    lemma_head_of_prefix(s, n);
    assert(s.skip(n) =~= b);
}

/// Whether a draft is written as two texts with the cursor between them.
pub open spec fn between(d: DraftView, a: Seq<char>, b: Seq<char>) -> bool {
    d.buffer == a + b && d.cursor == bytes_len(a)
}

/// What is typed stands where the cursor was, and the cursor behind it.
pub proof fn law_typed_text_is_inserted(d: DraftView, a: Seq<char>, b: Seq<char>, t: Seq<char>)
    requires
        between(d, a, b),
    ensures
        between(inserted(d, t), a + t, b),
        inserted(d, t).images == d.images,
        inserted(d, t).pastes == d.pastes,
        inserted(d, t).mode == d.mode,
{
    lemma_at(a, b);
    lemma_bytes_len_concat(a, t);
}

/// Keys that delete take the character beside the cursor, and keys that move pass it.
pub proof fn law_keys_take_and_pass_characters(
    d: DraftView,
    a: Seq<char>,
    c: char,
    b: Seq<char>,
    popup: Option<PopupView>,
    m: KeyMods,
)
    ensures
        between(d, a + seq![c], b) ==> between(
            key_step(d, popup, ReplKey::Backspace, m).0,
            a,
            b,
        ),
        between(d, a, seq![c] + b) ==> between(key_step(d, popup, ReplKey::Delete, m).0, a, b),
        between(d, a, seq![c] + b) ==> between(
            key_step(d, popup, ReplKey::Right, m).0,
            a + seq![c],
            b,
        ),
        between(d, a + seq![c], b) ==> between(
            key_step(d, popup, ReplKey::Left, m).0,
            a,
            seq![c] + b,
        ),
        between(d, a, Seq::empty()) ==> key_step(d, popup, ReplKey::Right, m).0.cursor == d.cursor,
        between(d, Seq::empty(), b) ==> key_step(d, popup, ReplKey::Left, m).0.cursor == d.cursor,
{
    let one = seq![c];
    let none = Seq::<char>::empty();
    lemma_bytes_len_concat(a, one);
    assert(one.drop_last() =~= none);
    reveal_with_fuel(bytes_len, 2);
    assert(bytes_len(one) == char_bytes(c));
    assert(bytes_len(none) == 0);
    assert(char_bytes(c) >= 1);
    lemma_at(a + one, b);
    lemma_at(a, one + b);
    lemma_at(a, none);
    lemma_at(none, b);
    assert((a + one).drop_last() =~= a);
    assert((one + b).drop_first() =~= b);
    assert((one + b)[0] == c);
    assert(a + one + b =~= a + (one + b));
    lemma_bytes_len_concat(a, one + b);
    lemma_bytes_len_concat(one, b);
}

proof fn lemma_newline_from(s: Seq<char>, n: int, i: int)
    requires
        0 <= i <= n <= s.len(),
        n < s.len() ==> s[n] == '\n',
        forall|k: int| 0 <= k < n ==> #[trigger] s[k] != '\n',
    ensures
        newline_from(s, i) == n,
    decreases n - i,
{
    if i < n {
        assert(s[i] != '\n');
        lemma_newline_from(s, n, i + 1);
    }
}

/// The home key goes to the start of the line of the cursor, the end key to its end.
pub proof fn law_home_and_end_stay_on_line(
    d: DraftView,
    a: Seq<char>,
    x: Seq<char>,
    y: Seq<char>,
    b: Seq<char>,
    popup: Option<PopupView>,
    m: KeyMods,
)
    requires
        !x.contains('\n'),
        !y.contains('\n'),
        between(d, a + seq!['\n'] + x, y + seq!['\n'] + b),
    ensures
        between(
            key_step(d, popup, ReplKey::Home, m).0,
            a + seq!['\n'],
            x + y + seq!['\n'] + b,
        ),
        between(key_step(d, popup, ReplKey::End, m).0, a + seq!['\n'] + x + y, seq!['\n'] + b),
{
    let h = a + seq!['\n'] + x;
    let t = y + seq!['\n'] + b;
    let n = a.len() as int;
    lemma_at(h, t);
    assert(h[n] == '\n');
    assert forall|i: int| n < i < h.len() implies #[trigger] h[i] != '\n' by {
        assert(x.contains(x[i - n - 1]));
    }
    lemma_last_index_is(h, '\n', n);
    assert(h.take(n + 1) =~= a + seq!['\n']);
    let k = y.len() as int;
    assert forall|i: int| 0 <= i < k implies #[trigger] t[i] != '\n' by {
        assert(y.contains(y[i]));
    }
    lemma_newline_from(t, k, 0);
    assert(t.take(k) =~= y);
    lemma_bytes_len_concat(h, y);
    assert(h + t =~= a + seq!['\n'] + (x + y + seq!['\n'] + b));
    assert(h + t =~= (h + y) + (seq!['\n'] + b));
}

/// What is submitted is what was typed, with every pasted text behind it, and all images.
pub proof fn law_draft_is_submitted(d: DraftView, p: PasteView, t: Seq<char>)
    requires
        d.mode is None,
        !is_blank(d.buffer),
    ensures
        enter_key(d, None) == (d, StepView::Submit(prompt_of(d), d.images)),
        d.pastes.len() == 0 ==> prompt_of(d) == d.buffer,
        starts_with_spec(prompt_of(d), d.buffer),
        prompt_of(d).len() > 0 && prompt_of(d).last() != '\n' ==> with_pastes(
            d.buffer,
            d.pastes.push(p),
        ) == prompt_of(d) + seq!['\n', '\n'] + p.text,
        p.text.is_suffix_of(with_pastes(d.buffer, d.pastes.push(p))),
{
    reveal_strlit("\n\n");
    assert("\n\n"@ =~= seq!['\n', '\n']);
    lemma_starts_with_buffer(d.buffer, d.pastes);
    let v = d.pastes.push(p);
    assert(v.drop_last() =~= d.pastes);
    let before = prompt_of(d);
    assert(p.text.is_suffix_of(before + p.text)) by {
        assert((before + p.text).skip(before.len() as int) =~= p.text);
    }
    let more = before + "\n\n"@;
    assert(p.text.is_suffix_of(more + p.text)) by {
        assert((more + p.text).skip(more.len() as int) =~= p.text);
    }
}

proof fn lemma_starts_with_buffer(s: Seq<char>, v: Seq<PasteView>)
    ensures
        starts_with_spec(with_pastes(s, v), s),
    decreases v.len(),
{
    if v.len() == 0 {
        assert(s.subrange(0, s.len() as int) =~= s);
    } else {
        lemma_starts_with_buffer(s, v.drop_last());
        let before = with_pastes(s, v.drop_last());
        assert(with_pastes(s, v).subrange(0, s.len() as int) =~= before.subrange(
            0,
            s.len() as int,
        ));
    }
}

/// The escape key clears the input the second time, and keeps the images.
pub proof fn law_escape_clears(d: DraftView)
    ensures
        !d.esc ==> escape_key(d).buffer == d.buffer && escape_key(d).esc,
        escape_key(escape_key(d)).buffer.len() == 0 || d.esc,
        d.esc ==> escape_key(d).buffer.len() == 0 && escape_key(d).pastes.len() == 0 && escape_key(
            d,
        ).mode is None && escape_key(d).cursor == 0,
        escape_key(d).images == d.images,
{
}

/// With nothing before the cursor, the backspace key leaves the mode, and then takes the last paste
/// and the last image.
pub proof fn law_backspace_takes_attachments(d: DraftView)
    requires
        d.cursor == 0,
    ensures
        d.mode is Some ==> backspace_key(d).mode is None && backspace_key(d).pastes == d.pastes
            && backspace_key(d).images == d.images && backspace_key(d).buffer == d.buffer,
        d.mode is None && d.pastes.len() > 0 ==> backspace_key(d).pastes == d.pastes.drop_last()
            && backspace_key(d).images == d.images,
        d.mode is None && d.pastes.len() == 0 && d.images.len() > 0 ==> backspace_key(d).images
            == d.images.drop_last(),
{
}

/// The chosen item is what is done.
pub proof fn law_choice_is_done(d: DraftView, p: PopupView, t: Seq<char>, m: ReplSlashMode)
    requires
        d.selected < p.items.len(),
    ensures
        p.items[d.selected as int].action == ActionView::Submit(t) ==> enter_key(d, Some(p)).1
            == StepView::Submit(t, Seq::empty()),
        p.items[d.selected as int].action == ActionView::Enter(m) ==> enter_key(d, Some(p)).0.mode
            == Some(m),
{
}

/// A command is understood by its name, with what stands behind it.
pub proof fn law_command_is_understood(c: ReplSlashCommand, rest: Seq<char>)
    ensures
        command_named(command_command(c)) == Some(c),
        slash_command("/"@ + command_command(c)) == Some((c, Seq::<char>::empty())),
        slash_command("/"@ + command_command(c) + seq![' '] + rest) == Some((c, trimmed(rest))),
{
    lemma_command_names();
    let name = command_command(c);
    reveal_strlit("/");
    lemma_name_has_no_space(c);
    let a = "/"@ + name;
    assert("/"@.is_prefix_of(a));
    assert(a.skip(1) =~= name);
    lemma_space_from(name, name.len() as int, 0);
    assert(name.take(name.len() as int) =~= name);
    assert(name.skip(name.len() as int) =~= Seq::<char>::empty());
    assert(trimmed(Seq::<char>::empty()) =~= Seq::<char>::empty());
    let b = "/"@ + name + seq![' '] + rest;
    assert("/"@.is_prefix_of(b));
    let s = name + seq![' '] + rest;
    assert(b.skip(1) =~= s);
    lemma_space_from(s, name.len() as int, 0);
    assert(s.take(name.len() as int) =~= name);
    let tail = s.skip(name.len() as int);
    assert(tail =~= seq![' '] + rest);
    assert(tail.drop_first() =~= rest);
    assert(is_space(tail[0]));
    assert(trimmed(tail) == trimmed(rest));
}

proof fn lemma_space_from(s: Seq<char>, n: int, i: int)
    requires
        0 <= i <= n <= s.len(),
        n < s.len() ==> is_space(s[n]),
        forall|k: int| 0 <= k < n ==> !is_space(#[trigger] s[k]),
    ensures
        space_from(s, i) == n,
    decreases n - i,
{
    if i < n {
        assert(!is_space(s[i]));
        lemma_space_from(s, n, i + 1);
    }
}

proof fn lemma_command_names()
    ensures
        "model"@ == seq!['m', 'o', 'd', 'e', 'l'],
        "sessions"@ == seq!['s', 'e', 's', 's', 'i', 'o', 'n', 's'],
        "session"@ == seq!['s', 'e', 's', 's', 'i', 'o', 'n'],
        "audit"@ == seq!['a', 'u', 'd', 'i', 't'],
        "tool-search"@ == seq!['t', 'o', 'o', 'l', '-', 's', 'e', 'a', 'r', 'c', 'h'],
        "toolsearch"@ == seq!['t', 'o', 'o', 'l', 's', 'e', 'a', 'r', 'c', 'h'],
        "status"@ == seq!['s', 't', 'a', 't', 'u', 's'],
        "new"@ == seq!['n', 'e', 'w'],
        "clear"@ == seq!['c', 'l', 'e', 'a', 'r'],
        "bash"@ == seq!['b', 'a', 's', 'h'],
        "quit"@ == seq!['q', 'u', 'i', 't'],
        "exit"@ == seq!['e', 'x', 'i', 't'],
{
    reveal_strlit("model");
    reveal_strlit("sessions");
    reveal_strlit("session");
    reveal_strlit("audit");
    reveal_strlit("tool-search");
    reveal_strlit("toolsearch");
    reveal_strlit("status");
    reveal_strlit("new");
    reveal_strlit("clear");
    reveal_strlit("bash");
    reveal_strlit("quit");
    reveal_strlit("exit");
}

proof fn lemma_name_has_no_space(c: ReplSlashCommand)
    ensures
        forall|k: int|
            0 <= k < command_command(c).len() ==> !is_space(#[trigger] command_command(c)[k]),
{
    lemma_command_names();
}

/// The commands whose names hold a query are offered, in order.
pub proof fn law_commands_are_offered(query: Seq<char>, c: ReplSlashCommand)
    ensures
        !is_blank(query) ==> filtered_commands(query) == all_commands().filter(
            |c: ReplSlashCommand|
                contains_text(ascii_lower(command_command(c)), ascii_lower(trimmed(query))),
        ),
        all_commands().contains(c),
        command_item(c).label == "/"@ + command_command(c),
        command_items(query).len() == filtered_commands(query).len(),
{
    lemma_commands_with(all_commands(), ascii_lower(trimmed(query)));
    let v = all_commands();
    assert(v[0] == ReplSlashCommand::Model && v[1] == ReplSlashCommand::Session && v[2]
        == ReplSlashCommand::Audit && v[3] == ReplSlashCommand::ToolSearch && v[4]
        == ReplSlashCommand::Status && v[5] == ReplSlashCommand::New && v[6]
        == ReplSlashCommand::Clear && v[7] == ReplSlashCommand::Bash && v[8]
        == ReplSlashCommand::Quit && v[9] == ReplSlashCommand::Exit);
}

proof fn lemma_commands_with(v: Seq<ReplSlashCommand>, q: Seq<char>)
    ensures
        q.len() > 0 ==> commands_with(v, q) == v.filter(
            |c: ReplSlashCommand| contains_text(ascii_lower(command_command(c)), q),
        ),
    decreases v.len(),
{
    reveal(Seq::filter);
    let f = |c: ReplSlashCommand| contains_text(ascii_lower(command_command(c)), q);
    if v.len() > 0 {
        lemma_commands_with(v.drop_last(), q);
    } else {
        assert(commands_with(v, q) =~= v.filter(f));
    }
}

/// Choosing a model, a session or a switch submits the command for that very one.
pub proof fn law_choices_name_what_they_do(
    t: Table<ModelConfig>,
    order: Seq<int>,
    i: int,
    s: SummaryView,
    v: Seq<SummaryView>,
)
    requires
        0 <= i < order.len(),
    ensures
        ({
            let id = t.keys()[order[i]];
            let item = model_items_from(t, order, Seq::empty(), i + 1).last();
            &&& model_items_from(t, order, Seq::empty(), i + 1).len() == i + 1
            &&& item.action == ActionView::Submit("/model "@ + id)
            &&& item.label == model_entry(t.values()[order[i]])
        }),
        session_item(s).action == ActionView::Submit("/sessions switch "@ + short(s.session_id)),
        session_item(s).label == short(s.session_id),
        session_items_from(v.push(s), Seq::empty()) == session_items_from(v, Seq::empty()).push(
            session_item(s),
        ),
{
    let none = Seq::<char>::empty();
    assert(is_blank(none)) by {
        assert(trimmed(none) =~= none);
    }
    lemma_model_items(t, order, i + 1);
    assert(v.push(s).drop_last() =~= v);
}

proof fn lemma_model_items(t: Table<ModelConfig>, order: Seq<int>, n: int)
    requires
        0 <= n <= order.len(),
    ensures
        model_items_from(t, order, Seq::empty(), n).len() == n,
    decreases n,
{
    let none = Seq::<char>::empty();
    assert(is_blank(none)) by {
        assert(trimmed(none) =~= none);
    }
    if n > 0 {
        lemma_model_items(t, order, n - 1);
    }
}

/// Each line of the popup shows its own item, and one of them is marked: the selected one.
pub proof fn law_popup_shows_items(
    items: Seq<ItemView>,
    selected: nat,
    width: nat,
    from: int,
    to: int,
    k: int,
)
    requires
        0 <= from <= to <= items.len(),
        0 <= k < to - from,
    ensures
        popup_lines(items, selected, width, from, to).len() == to - from,
        popup_lines(items, selected, width, from, to)[k] == popup_line(
            items[from + k],
            selected == from + k,
            width,
        ),
    decreases to - from,
{
    if to - from > 1 {
        law_popup_shows_items(items, selected, width, from, to - 1, if k < to - from - 1 {
            k
        } else {
            0
        });
    } else {
        assert(popup_lines(items, selected, width, from, to - 1).len() == 0);
    }
}

/// The transcript on the screen is a part of its lines, from the asked one on, or the end.
pub proof fn law_screen_shows_transcript(t: Seq<char>, cols: u16, height: u16, asked: nat, i: int)
    requires
        0 <= i < clipped_lines(t, cols, height, asked).len(),
    ensures
        ({
            let v = screen_lines(t, cols);
            let top = if asked != usize::MAX && asked + height <= v.len() {
                asked as int
            } else if v.len() > height {
                v.len() - height
            } else {
                0
            };
            clipped_lines(t, cols, height, asked)[i] == v[top + i]
        }),
{
}

/// The lines of a transcript are shown in order, each wrapped on its own.
pub proof fn law_lines_are_wrapped_in_order(v: Seq<Seq<char>>, line: Seq<char>, width: nat)
    ensures
        all_wrapped(v.push(line), width) == all_wrapped(v, width) + wrapped(line, width),
        all_wrapped(Seq::empty(), width).len() == 0,
{
    assert(v.push(line).drop_last() =~= v);
}

/// The plan shows what is in progress and every item with its state, in order.
pub proof fn law_plan_is_shown(v: Seq<TodoView>, i: int)
    requires
        0 <= i < v.len(),
    ensures
        todo_lines(v).len() == v.len() + 1,
        v[i].status == TodoUiStatus::Completed ==> todo_lines(v)[i + 1] == "✔ "@ + trimmed(
            v[i].title,
        ),
        v[i].status != TodoUiStatus::Completed ==> todo_lines(v)[i + 1] == "□ "@ + trimmed(
            v[i].title,
        ),
        v[i].status == TodoUiStatus::InProgress && (forall|k: int|
            0 <= k < i ==> (#[trigger] v[k]).status != TodoUiStatus::InProgress) ==> todo_lines(v)[0]
            == trimmed(v[i].details),
{
    reveal_strlit("✔ ");
    reveal_strlit("✔");
    reveal_strlit("□ ");
    reveal_strlit("□");
    reveal_strlit(" ");
    assert("✔"@ + " "@ =~= "✔ "@);
    assert("□"@ + " "@ =~= "□ "@);
    if v[i].status == TodoUiStatus::InProgress && (forall|k: int|
        0 <= k < i ==> (#[trigger] v[k]).status != TodoUiStatus::InProgress) {
        lemma_current_details(v, i, 0);
    }
}

proof fn lemma_current_details(v: Seq<TodoView>, i: int, k: int)
    requires
        0 <= k <= i < v.len(),
        v[i].status == TodoUiStatus::InProgress,
        forall|k: int| 0 <= k < i ==> (#[trigger] v[k]).status != TodoUiStatus::InProgress,
    ensures
        current_details(v, k) == trimmed(v[i].details),
    decreases i - k,
{
    if k < i {
        assert(v[k].status != TodoUiStatus::InProgress);
        lemma_current_details(v, i, k + 1);
    }
}

/// The state panel tells the session, the provider and the model in use.
pub proof fn law_state_is_shown(id: Seq<char>, p: Seq<char>, m: Seq<char>, s: StateView)
    ensures
        status_lines(id, Some(p), Some(m), s)[0] == "session: "@ + short(id),
        status_lines(id, Some(p), Some(m), s)[1] == "provider: "@ + p,
        status_lines(id, Some(p), Some(m), s)[2] == "model: "@ + m,
        status_lines(id, Some(p), Some(m), s)[3] == "stream: "@ + on_off(s.stream),
        status_lines(id, Some(p), Some(m), s)[4] == "tools: "@ + on_off(s.tools),
        on_off(true) == "on"@,
        on_off(false) == "off"@,
{
}

/// The provider in use is the one chosen while running, else the one asked for, else the default;
/// and a model of that provider is used.
pub proof fn law_provider_in_use(s: StateView, cli: Selection, c: AppConfig, p: Seq<char>, m: Seq<char>)
    ensures
        s.provider == Some(p) ==> effective_provider(s, cli, c) == Some(p),
        s.provider is None && opt_text(cli.provider) == Some(p) ==> effective_provider(s, cli, c)
            == Some(p),
        s.provider is None && cli.provider is None ==> effective_provider(s, cli, c) == opt_text(
            c.defaults.provider,
        ),
        s.model == Some(m) && effective_provider(s, cli, c) == Some(p) && is_model_of(c, m, p)
            ==> effective_model(s, cli, c) == Some(m),
        s.model == Some(m) && effective_provider(s, cli, c) == Some(p) && !is_model_of(c, m, p)
            ==> effective_model(s, cli, c) == match c.providers.lookup(p) {
            Some(pc) => opt_text(pc.default_model),
            None => None,
        },
{
}

/// The history stands above the panels, with a rule between them.
pub proof fn law_history_is_above_panels(history: Seq<char>, v: Seq<PanelView>, i: int)
    requires
        0 <= i < v.len(),
        !is_blank(history),
        !is_blank(join(shown_panels(v), turn_rule())),
    ensures
        starts_with_spec(transcript(history, v, None), history + turn_rule()),
        contains_text(transcript(history, v, None), shown_panel(v[i])),
        transcript(history, Seq::empty(), None) == history,
{
    let none = Seq::<char>::empty();
    let p = shown_panel(v[i]);
    assert(none + p + none =~= p);
    lemma_contained(none, p, none);
    assert(shown_panels(v)[i] == p);
    lemma_joined_holds(shown_panels(v), turn_rule(), i, p);
    let all = join(shown_panels(v), turn_rule());
    let head = history + turn_rule();
    assert(head + all + none =~= head + all);
    lemma_contained_within(head, all, none, p);
    assert((head + all).subrange(0, head.len() as int) =~= head);
    assert(join(shown_panels(Seq::empty()), turn_rule()) =~= none);
    assert(is_blank(none)) by {
        assert(trimmed(none) =~= none);
    }
}

/// Each image and each pasted text has a badge with its number.
pub proof fn law_badges_are_numbered(n: nat, i: int, p: PasteView)
    requires
        0 <= i < n,
    ensures
        contains_text(image_badge_text(n), "[Image #"@ + decimal((i + 1) as nat) + "]"@),
        p.line_count > 0 ==> paste_badge(p, n) == "[Pasted text #"@ + decimal(n) + " +"@ + decimal(
            (p.line_count - 1) as nat,
        ) + " lines]"@,
{
    let none = Seq::<char>::empty();
    let b = image_badge(i);
    let v = Seq::new(n, |i: int| image_badge(i));
    assert(v[i] == b);
    assert(none + b + none =~= b);
    lemma_contained(none, b, none);
    lemma_joined_holds(v, " "@, i, b);
}

/// The input box shows the rows of the text below each other, the first behind the prompt.
pub proof fn law_input_is_shown(d: DraftView, cols: u16, i: int)
    requires
        d.buffer.len() > 0,
    ensures
        ({
            let w = input_width(cols, text_columns(prompt_prefix(d)) as nat);
            let v = rows(d.buffer, w).rows;
            &&& whole_box(d, cols).lines.len() == v.len()
            &&& v.len() > 0 ==> whole_box(d, cols).lines[0] == prompt_prefix(d) + v[0]
            &&& 0 < i < v.len() ==> whole_box(d, cols).lines[i] == "  "@ + v[i]
        }),
{
}

/// The payload of an event is what stands behind the marks of its data lines, line by line; other
/// lines count for nothing.
pub proof fn law_event_data_is_read(v: Seq<Seq<char>>, t: Seq<char>, other: Seq<char>)
    requires
        t.len() > 0,
        !is_space(t[0]),
        !"data:"@.is_prefix_of(other),
    ensures
        data_lines(v.push("data: "@ + t)) == data_lines(v).push(t),
        data_lines(v.push("data:"@ + t)) == data_lines(v).push(t),
        data_lines(v.push(other)) == data_lines(v),
        event_payload(seq!["data: "@ + t]) == Some(t),
{
    reveal_strlit("data: ");
    reveal_strlit("data:");
    let a = "data: "@ + t;
    let b = "data:"@ + t;
    assert("data:"@.is_prefix_of(a) && "data:"@.is_prefix_of(b)) by {
        assert(a.subrange(0, 5) =~= "data:"@);
        assert(b.subrange(0, 5) =~= "data:"@);
    }
    assert(a.skip(5) =~= seq![' '] + t);
    assert(b.skip(5) =~= t);
    let s = seq![' '] + t;
    assert(s.drop_first() =~= t);
    assert(is_space(s[0]));
    assert(trimmed_start(t) == t);
    assert(trimmed_start(s) == t);
    assert(v.push(a).drop_last() =~= v && v.push(b).drop_last() =~= v && v.push(other).drop_last()
        =~= v);
    let e = seq![a];
    assert(e.drop_last() =~= Seq::<Seq<char>>::empty());
    reveal_with_fuel(data_lines, 2);
    assert(data_lines(e) =~= seq![t]);
    assert(join(seq![t], "\n"@) == t);
    law_trimming_takes_space_only(t);
    assert(!all_space(t));
}

/// A blank line ends an event: its payload is handed on, and the next one starts.
pub proof fn law_blank_line_ends_event(st: SseState, p: Seq<char>)
    requires
        st.error is None,
        st.pending.len() == 0,
    ensures
        event_payload(st.lines) == Some(p) ==> sse_byte(st, 10u8).events == st.events.push(p),
        event_payload(st.lines) is None ==> sse_byte(st, 10u8).events == st.events,
        sse_byte(st, 10u8).lines.len() == 0,
{
    let none = Seq::<u8>::empty();
    assert(line_bytes(st.pending) =~= none);
    assert(valid_utf8(none));
    assert(decode_utf8(none).len() == 0);
}

/// What is typed in a mode is submitted as its command, with what was typed behind it.
pub proof fn law_typed_command_is_submitted(d: DraftView)
    requires
        !is_blank(d.buffer),
    ensures
        d.mode == Some(ReplSlashMode::Commands) ==> manual_prompt(d) == Some(
            "/"@ + trimmed(d.buffer),
        ),
        d.mode == Some(ReplSlashMode::Model) ==> manual_prompt(d) == Some(
            "/"@ + "model"@ + " "@ + trimmed(d.buffer),
        ),
        d.mode == Some(ReplSlashMode::Session) ==> manual_prompt(d) == Some(
            "/"@ + "sessions"@ + " "@ + trimmed(d.buffer),
        ),
        d.mode is None ==> manual_prompt(d) is None,
{
}

/// A new popup starts at its first choice, and the selection of the same one stays.
pub proof fn law_selection_stays(d: DraftView, p: PopupView)
    requires
        p.items.len() > 0,
    ensures
        synced(d, Some(p)).selected < p.items.len(),
        d.signature == Some(p.signature) && d.selected < p.items.len() ==> synced(
            d,
            Some(p),
        ).selected == d.selected,
        d.signature != Some(p.signature) ==> synced(d, Some(p)).selected == 0,
        synced(d, Some(p)).signature == Some(p.signature),
        synced(d, Some(p)).buffer == d.buffer,
{
}

/// A switch offers its states, each submitted under its name.
pub proof fn law_switch_is_offered(name: Seq<char>, current: bool)
    ensures
        ({
            let v = toggle_items(name, current, Seq::empty(), 3);
            &&& v.len() == 3
            &&& v[0].action == ActionView::Submit("/"@ + name + " "@ + "status"@)
            &&& v[1].action == ActionView::Submit("/"@ + name + " "@ + "on"@)
            &&& v[2].action == ActionView::Submit("/"@ + name + " "@ + "off"@)
        }),
{
    let none = Seq::<char>::empty();
    assert(is_blank(none)) by {
        assert(trimmed(none) =~= none);
    }
    reveal_with_fuel(toggle_items, 4);
    let v = toggle_values();
    assert(v[0]@ == "status"@ && v[1]@ == "on"@ && v[2]@ == "off"@);
}

/// What the user submitted is shown as the user's, rendered.
pub proof fn law_submission_is_shown(prompt: Seq<char>)
    requires
        !is_blank(prompt),
    ensures
        user_panel(prompt, 0).kind == ReplRuntimePanelKind::User,
        user_panel(prompt, 0).body == message_text(prompt, RULE_WIDTH as nat),
        submitted(prompt, 1) == "[Image #"@ + decimal(1) + "]"@ + " "@ + prompt,
{
    law_trimming_takes_space_only(prompt);
    let v = Seq::new(1, |i: int| image_badge(i));
    assert(v =~= seq![image_badge(0)]);
    assert(join(v, " "@) == image_badge(0));
}

/// The status bar names the model, the directory, the provider and the session, and counts what is
/// attached.
pub proof fn law_status_bar_tells(v: ReplScreenView, d: DraftView)
    ensures
        status_left(v) == v.model_id@ + " │ "@ + v.cwd_label@ + " │ "@ + v.provider_id@ + " │ "@
            + v.session_short@,
        starts_with_spec(
            draft_counts(d, true, true),
            decimal(d.images.len()) + " images │ "@ + decimal(d.pastes.len()) + " paste(s) │ "@
                + decimal(prompt_of(d).len()) + " chars"@,
        ),
        d.status matches Some(s) ==> starts_with_spec(status_right(d, true, true), s),
{
    let a = decimal(d.images.len()) + " images │ "@ + decimal(d.pastes.len()) + " paste(s) │ "@
        + decimal(prompt_of(d).len());
    reveal_strlit(" chars │ stream ");
    reveal_strlit(" chars");
    let all = draft_counts(d, true, true);
    let rest = on_off(true) + " │ tools "@ + on_off(true);
    assert(all =~= a + " chars │ stream "@ + rest);
    let head = a + " chars"@;
    assert(all.subrange(0, head.len() as int) =~= head);
    if let Some(s) = d.status {
        let mode = match d.mode {
            Some(m) => seq!["slash /"@ + mode_label(m)],
            None => Seq::empty(),
        };
        let parts = seq![s] + mode + seq![draft_counts(d, true, true)];
        lemma_join_starts(parts, " │ "@);
        assert(parts[0] == s);
    }
}

proof fn lemma_join_starts(v: Seq<Seq<char>>, sep: Seq<char>)
    requires
        v.len() > 0,
    ensures
        v[0].is_prefix_of(join(v, sep)),
    decreases v.len(),
{
    if v.len() == 1 {
        assert(v[0].subrange(0, v[0].len() as int) =~= v[0]);
    } else {
        lemma_join_starts(v.drop_last(), sep);
        let a = join(v.drop_last(), sep);
        let n = v[0].len() as int;
        assert(join(v, sep).subrange(0, n) =~= a.subrange(0, n));
    }
}

} // verus!
