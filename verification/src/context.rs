//! The status of the surroundings that a question can carry.

use crate::popup::first_line;
use crate::table::{text_before, text_lt};
use crate::text::{
    ascii_lower, chars_of, contains, contains_text, decimal, decimal_string, in_list, join,
    join_strings, lemma_take_full, lemma_take_step, lemma_texts_push, lemma_trimmed_len, lines,
    lines_of, one_of, opt_eq, opt_str, opt_text, substring, texts, to_ascii_lower, trim,
    trimmed,
};
use vstd::prelude::*;

verus! {

#[derive(Debug, Clone, Copy, PartialEq, Eq, Structural)]
pub enum ContextStatusMode {
    Off,
    Always,
    Latest,
    SystemOnce,
}

impl Default for ContextStatusMode {
    fn default() -> (r: ContextStatusMode)
        ensures
            r == ContextStatusMode::Off,
    {
        ContextStatusMode::Off
    }
}

pub open spec fn mode_name(m: ContextStatusMode) -> Seq<char> {
    match m {
        ContextStatusMode::Off => "off"@,
        ContextStatusMode::Always => "always"@,
        ContextStatusMode::Latest => "latest"@,
        ContextStatusMode::SystemOnce => "system-once"@,
    }
}

impl ContextStatusMode {
    pub fn as_str(self) -> (r: &'static str)
        ensures
            r@ == mode_name(self),
    {
        match self {
            Self::Off => "off",
            Self::Always => "always",
            Self::Latest => "latest",
            Self::SystemOnce => "system-once",
        }
    }
}

/// The mode asked for on the command line, else the one configured, else none.
pub fn resolve_context_status_mode(
    cli_value: Option<ContextStatusMode>,
    config_value: Option<ContextStatusMode>,
) -> (r: ContextStatusMode)
    ensures
        r == match (cli_value, config_value) {
            (Some(m), _) => m,
            (None, Some(m)) => m,
            (None, None) => ContextStatusMode::Off,
        },
{
    match (cli_value, config_value) {
        (Some(m), _) => m,
        (None, Some(m)) => m,
        (None, None) => ContextStatusMode::Off,
    }
}

pub open spec fn with_status_text(status: Seq<char>, prompt: Seq<char>) -> Seq<char> {
    status + "\n\n---\n\n"@ + prompt
}

/// Puts a status before a prompt.
pub fn prepend_context_status(status: &str, prompt: &str) -> (r: String)
    ensures
        r@ == with_status_text(status@, prompt@),
{
    status.to_owned().concat("\n\n---\n\n").concat(prompt)
}

// ---------------------------------------------------------------------------
// Output of commands
// ---------------------------------------------------------------------------

/// A text without byte order marks at its start.
pub open spec fn without_marks(s: Seq<char>) -> Seq<char>
    decreases s.len(),
{
    if s.len() > 0 && s[0] == '\u{feff}' {
        without_marks(s.drop_first())
    } else {
        s
    }
}

fn drop_marks(s: &str) -> (r: String)
    ensures
        r@ == without_marks(s@),
{
    let c = chars_of(s);
    let n: usize = c.len();
    let mut i: usize = 0;
    proof {
        assert(s@.skip(0) =~= s@);
    }
    while i < n && c[i] == '\u{feff}'
        invariant
            i <= n,
            n == c@.len(),
            c@ == s@,
            without_marks(s@) == without_marks(s@.skip(i as int)),
        decreases n - i,
    {
        proof {
            assert(s@.skip(i as int).drop_first() =~= s@.skip(i + 1));
        }
        i = i + 1;
    }
    let r = substring(c.as_slice(), i, n);
    proof {
        assert(r@ =~= s@.skip(i as int));
    }
    r
}

pub open spec fn bare_line(line: Seq<char>) -> Seq<char> {
    without_marks(trimmed(line))
}

/// The first line from `i` on that is not empty, without white space around it.
pub open spec fn written_line(v: Seq<Seq<char>>, i: int) -> Option<Seq<char>>
    decreases v.len() - i,
{
    if i < 0 || i >= v.len() {
        None
    } else if bare_line(v[i]).len() > 0 {
        Some(bare_line(v[i]))
    } else {
        written_line(v, i + 1)
    }
}

fn written_line_of(v: &Vec<String>) -> (r: Option<String>)
    ensures
        opt_text(r) == written_line(texts(v@), 0),
{
    let ghost src = texts(v@);
    let mut i: usize = 0;
    while i < v.len()
        invariant
            i <= v@.len(),
            src == texts(v@),
            written_line(src, 0) == written_line(src, i as int),
        decreases v@.len() - i,
    {
        proof {
            assert(src[i as int] == v@[i as int]@);
        }
        let line = drop_marks(trim(v[i].as_str()).as_str());
        if !line.as_str().is_empty() {
            return Some(line);
        }
        i = i + 1;
    }
    None
}

/// The first line that a command wrote: to its output, else to its error output.
pub open spec fn first_written(stdout: Seq<char>, stderr: Seq<char>) -> Option<Seq<char>> {
    match written_line(lines(stdout), 0) {
        Some(t) => Some(t),
        None => written_line(lines(stderr), 0),
    }
}

pub fn first_non_empty_line(stdout: &str, stderr: &str) -> (r: Option<String>)
    ensures
        opt_text(r) == first_written(stdout@, stderr@),
{
    match written_line_of(&lines_of(stdout)) {
        Some(t) => Some(t),
        None => written_line_of(&lines_of(stderr)),
    }
}

/// The version that a command told: its first line, unless that is blank.
pub open spec fn version_text(told: Option<Seq<char>>) -> Option<Seq<char>> {
    match told {
        Some(t) => {
            let line = trimmed(first_line(t));
            if line.len() == 0 {
                None
            } else {
                Some(line)
            }
        },
        None => None,
    }
}

pub fn command_version(told: &Option<String>) -> (r: Option<String>)
    ensures
        opt_text(r) == version_text(opt_text(*told)),
{
    match told {
        None => None,
        Some(t) => {
            let v = lines_of(t.as_str());
            let line = if v.len() == 0 {
                String::new()
            } else {
                trim(v[0].as_str())
            };
            proof {
                assert(texts(v@).len() == v@.len());
                if v@.len() > 0 {
                    assert(texts(v@)[0] == v@[0]@);
                } else {
                    lemma_trimmed_len(first_line(t@));
                }
            }
            if line.as_str().is_empty() {
                None
            } else {
                Some(line)
            }
        },
    }
}

/// A line on a tool: its version, or that it was not found.
pub open spec fn tool_line(label: Seq<char>, told: Option<Seq<char>>, note: Option<Seq<char>>) -> Seq<
    char,
> {
    match version_text(told) {
        Some(v) => "**"@ + label + "**: "@ + v,
        None => match note {
            Some(n) => "**"@ + label + "**: not found ("@ + n + ")"@,
            None => "**"@ + label + "**: not found"@,
        },
    }
}

fn tool_line_of(label: &str, told: &Option<String>, note: Option<&str>) -> (r: String)
    ensures
        r@ == tool_line(label@, opt_text(*told), opt_str(note)),
{
    match command_version(told) {
        Some(v) => "**".to_owned().concat(label).concat("**: ").concat(v.as_str()),
        None => match note {
            Some(n) => "**".to_owned().concat(label).concat("**: not found (").concat(n).concat(
                ")",
            ),
            None => "**".to_owned().concat(label).concat("**: not found"),
        },
    }
}

// ---------------------------------------------------------------------------
// The file tree
// ---------------------------------------------------------------------------

/// An entry of a directory.
#[derive(Debug)]
pub struct DirItem {
    pub name: String,
    pub is_dir: bool,
}

pub struct DirItemView {
    pub name: Seq<char>,
    pub is_dir: bool,
}

impl View for DirItem {
    type V = DirItemView;

    open spec fn view(&self) -> DirItemView {
        DirItemView { name: self.name@, is_dir: self.is_dir }
    }
}

pub open spec fn dir_items(v: Seq<DirItem>) -> Seq<DirItemView> {
    v.map_values(|d: DirItem| d@)
}

pub open spec fn ignored_names() -> Seq<&'static str> {
    seq![
        "node_modules",
        ".git",
        "target",
        "__pycache__",
        ".DS_Store",
        "dist",
        ".next",
        ".nuxt",
        "build",
        ".cache",
        ".turbo",
        "vendor",
    ]
}

pub fn is_ignored_entry(name: &str) -> (r: bool)
    ensures
        r == in_list(name@, ignored_names()),
{
    let set = [
        "node_modules",
        ".git",
        "target",
        "__pycache__",
        ".DS_Store",
        "dist",
        ".next",
        ".nuxt",
        "build",
        ".cache",
        ".turbo",
        "vendor",
    ];
    proof {
        assert(set@ =~= ignored_names());
    }
    one_of(name, &set)
}

pub open spec fn item_before(a: DirItemView, b: DirItemView) -> bool {
    text_lt(ascii_lower(a.name), ascii_lower(b.name))
}

/// A list with one more item: behind all that do not come after it.
pub open spec fn with_item(v: Seq<DirItemView>, x: DirItemView) -> Seq<DirItemView>
    decreases v.len(),
{
    if v.len() > 0 && item_before(x, v.last()) {
        with_item(v.drop_last(), x).push(v.last())
    } else {
        v.push(x)
    }
}

/// The entries of a directory that are shown, ordered by name without regard to case.
pub open spec fn visible_items(v: Seq<DirItemView>) -> Seq<DirItemView>
    decreases v.len(),
{
    if v.len() == 0 {
        Seq::empty()
    } else if in_list(v.last().name, ignored_names()) {
        visible_items(v.drop_last())
    } else {
        with_item(visible_items(v.drop_last()), v.last())
    }
}

proof fn lemma_with_item_at(v: Seq<DirItemView>, x: DirItemView, i: int)
    requires
        0 <= i <= v.len(),
        i == 0 || !item_before(x, v[i - 1]),
        forall|k: int| i <= k < v.len() ==> item_before(x, #[trigger] v[k]),
    ensures
        with_item(v, x) == v.insert(i, x),
    decreases v.len(),
{
    if v.len() > 0 && item_before(x, v.last()) {
        assert(i < v.len());
        lemma_with_item_at(v.drop_last(), x, i);
        assert(with_item(v, x) =~= v.insert(i, x));
    } else {
        if i < v.len() {
            assert(item_before(x, v[v.len() - 1]));
        }
        assert(with_item(v, x) =~= v.insert(i, x));
    }
}

fn comes_before(a: &DirItem, b: &DirItem) -> (r: bool)
    ensures
        r == item_before(a@, b@),
{
    text_before(to_ascii_lower(a.name.as_str()).as_str(), to_ascii_lower(b.name.as_str()).as_str())
}

fn insert_item(v: &mut Vec<DirItem>, x: DirItem)
    ensures
        dir_items(final(v)@) == with_item(dir_items(old(v)@), x@),
{
    let n: usize = v.len();
    let mut i: usize = n;
    while i > 0 && comes_before(&x, &v[i - 1])
        invariant
            i <= n,
            n == v@.len(),
            *v == *old(v),
            forall|k: int| i <= k < n ==> item_before(x@, #[trigger] dir_items(v@)[k]),
        decreases i,
    {
        i = i - 1;
        proof {
            assert(dir_items(v@)[i as int] == v@[i as int]@);
        }
    }
    proof {
        if i > 0 {
            assert(dir_items(v@)[i - 1] == v@[i - 1]@);
        }
        lemma_with_item_at(dir_items(v@), x@, i as int);
    }
    v.insert(i, x);
    proof {
        assert(dir_items(v@) =~= dir_items(old(v)@).insert(i as int, x@));
    }
}

/// The entries of a directory that are shown, in order.
pub fn visible_dir_entries(items: &Vec<DirItem>) -> (r: Vec<DirItem>)
    ensures
        dir_items(r@) == visible_items(dir_items(items@)),
{
    let ghost src = dir_items(items@);
    let mut out: Vec<DirItem> = Vec::new();
    let mut i: usize = 0;
    proof {
        assert(dir_items(out@) =~= Seq::<DirItemView>::empty());
    }
    while i < items.len()
        invariant
            i <= items@.len(),
            src == dir_items(items@),
            dir_items(out@) == visible_items(src.take(i as int)),
        decreases items@.len() - i,
    {
        proof {
            lemma_take_step(src, i as int);
            assert(src[i as int] == items@[i as int]@);
        }
        if !is_ignored_entry(items[i].name.as_str()) {
            let item = DirItem { name: items[i].name.clone(), is_dir: items[i].is_dir };
            insert_item(&mut out, item);
        }
        i = i + 1;
    }
    proof {
        lemma_take_full(src);
    }
    out
}

/// Nothing that is ignored is shown.
pub proof fn law_ignored_is_hidden(v: Seq<DirItemView>)
    ensures
        forall|i: int|
            0 <= i < visible_items(v).len() ==> !in_list(
                (#[trigger] visible_items(v)[i]).name,
                ignored_names(),
            ),
    decreases v.len(),
{
    if v.len() > 0 {
        law_ignored_is_hidden(v.drop_last());
        if !in_list(v.last().name, ignored_names()) {
            lemma_with_item_keeps(visible_items(v.drop_last()), v.last());
        }
    }
}

proof fn lemma_with_item_keeps(v: Seq<DirItemView>, x: DirItemView)
    ensures
        forall|i: int|
            0 <= i < with_item(v, x).len() ==> (#[trigger] with_item(v, x)[i]) == x || v.contains(
                with_item(v, x)[i],
            ),
    decreases v.len(),
{
    let r = with_item(v, x);
    if v.len() > 0 && item_before(x, v.last()) {
        let w = v.drop_last();
        lemma_with_item_keeps(w, x);
        assert forall|i: int| 0 <= i < r.len() implies (#[trigger] r[i]) == x || v.contains(
            r[i],
        ) by {
            if i < r.len() - 1 {
                assert(r[i] == with_item(w, x)[i]);
                if r[i] != x {
                    let k = w.index_of(r[i]);
                    assert(v[k] == r[i]);
                }
            } else {
                assert(v[v.len() - 1] == r[i]);
            }
        }
    } else {
        assert forall|i: int| 0 <= i < r.len() implies (#[trigger] r[i]) == x || v.contains(
            r[i],
        ) by {
            if i < v.len() {
                assert(v[i] == r[i]);
            }
        }
    }
}

pub const MAX_ROOT_TREE_ENTRIES: usize = 50;

pub const MAX_SUBDIR_TREE_ENTRIES: usize = 20;

/// The lines of the first `n` entries of a directory below the current one.
pub open spec fn child_lines(v: Seq<DirItemView>, n: nat) -> Seq<char>
    decreases n,
{
    if n == 0 {
        Seq::empty()
    } else {
        child_lines(v, (n - 1) as nat) + ("\n  - "@ + v[n - 1].name + (if v[n - 1].is_dir {
            "/"@
        } else {
            ""@
        }))
    }
}

pub open spec fn children_text(v: Seq<DirItemView>) -> Seq<char> {
    if v.len() > MAX_SUBDIR_TREE_ENTRIES {
        child_lines(v, MAX_SUBDIR_TREE_ENTRIES as nat) + ("\n  - ... ("@ + decimal(
            (v.len() - MAX_SUBDIR_TREE_ENTRIES) as nat,
        ) + " more)"@)
    } else {
        child_lines(v, v.len())
    }
}

/// An entry of the tree, given what a directory holds.
pub open spec fn tree_entry(item: DirItemView, children: Option<Seq<DirItemView>>) -> Seq<char> {
    if !item.is_dir {
        "- "@ + item.name
    } else {
        match children {
            Some(v) => ("- "@ + item.name + "/"@) + children_text(visible_items(v)),
            None => "- "@ + item.name + "/"@,
        }
    }
}

pub open spec fn opt_items(o: Option<Vec<DirItem>>) -> Option<Seq<DirItemView>> {
    match o {
        Some(v) => Some(dir_items(v@)),
        None => None,
    }
}

pub fn render_tree_entry(item: &DirItem, children: &Option<Vec<DirItem>>) -> (r: String)
    ensures
        r@ == tree_entry(item@, opt_items(*children)),
{
    if !item.is_dir {
        return "- ".to_owned().concat(item.name.as_str());
    }
    let mut line = "- ".to_owned().concat(item.name.as_str()).concat("/");
    let ghost start = line@;
    if let Some(all) = children {
        let v = visible_dir_entries(all);
        let ghost src = dir_items(v@);
        let total: usize = v.len();
        let shown_count: usize = if total > MAX_SUBDIR_TREE_ENTRIES {
            MAX_SUBDIR_TREE_ENTRIES
        } else {
            total
        };
        let mut i: usize = 0;
        proof {
            assert(start + child_lines(src, 0) =~= start);
        }
        while i < shown_count
            invariant
                i <= shown_count,
                shown_count <= v@.len(),
                src == dir_items(v@),
                line@ == start + child_lines(src, i as nat),
            decreases shown_count - i,
        {
            proof {
                assert(src[i as int] == v@[i as int]@);
            }
            let suffix = if v[i].is_dir {
                "/"
            } else {
                ""
            };
            let part = "\n  - ".to_owned().concat(v[i].name.as_str()).concat(suffix);
            line.append(part.as_str());
            proof {
                assert(line@ =~= start + child_lines(src, (i + 1) as nat));
            }
            i = i + 1;
        }
        if total > MAX_SUBDIR_TREE_ENTRIES {
            let part = "\n  - ... (".to_owned().concat(
                decimal_string((total - MAX_SUBDIR_TREE_ENTRIES) as u64).as_str(),
            ).concat(" more)");
            line.append(part.as_str());
        }
        proof {
            assert(line@ =~= start + children_text(src));
        }
    }
    line
}

/// What is known of the entries below a directory; nothing beyond the list.
pub open spec fn children_at(v: Seq<Option<Vec<DirItem>>>, i: int) -> Option<Seq<DirItemView>> {
    if 0 <= i < v.len() {
        opt_items(v[i])
    } else {
        None
    }
}

pub open spec fn tree_lines(
    v: Seq<DirItemView>,
    children: Seq<Option<Vec<DirItem>>>,
    n: nat,
) -> Seq<Seq<char>> {
    Seq::new(n, |i: int| tree_entry(v[i], children_at(children, i)))
}

/// The tree of a directory, given what the directories in it hold.
pub open spec fn file_tree(v: Seq<DirItemView>, children: Seq<Option<Vec<DirItem>>>) -> Seq<
    Seq<char>,
> {
    if v.len() == 0 {
        seq!["**Workspace**: empty directory"@]
    } else if v.len() > MAX_ROOT_TREE_ENTRIES {
        seq!["## File Tree (depth=2)"@] + tree_lines(v, children, MAX_ROOT_TREE_ENTRIES as nat)
            + seq![
            "... ("@ + decimal((v.len() - MAX_ROOT_TREE_ENTRIES) as nat) + " more entries)"@,
        ]
    } else {
        seq!["## File Tree (depth=2)"@] + tree_lines(v, children, v.len())
    }
}

fn push_part(parts: &mut Vec<String>, part: String)
    ensures
        texts(final(parts)@) == texts(old(parts)@).push(part@),
{
    proof {
        lemma_texts_push(parts@, part);
    }
    parts.push(part);
}

/// Appends the tree of a directory. The entries are those shown, in order; `children` holds, for
/// each of them that is a directory, what it holds.
pub fn append_file_tree(
    entries: &Vec<DirItem>,
    children: &Vec<Option<Vec<DirItem>>>,
    parts: &mut Vec<String>,
)
    ensures
        texts(final(parts)@) == texts(old(parts)@) + file_tree(dir_items(entries@), children@),
{
    let ghost before = texts(parts@);
    let ghost v = dir_items(entries@);
    let total: usize = entries.len();
    if total == 0 {
        push_part(parts, "**Workspace**: empty directory".to_owned());
        proof {
            assert(texts(parts@) =~= before + file_tree(v, children@));
        }
        return;
    }
    push_part(parts, "## File Tree (depth=2)".to_owned());
    let ghost start = texts(parts@);
    let shown_count: usize = if total > MAX_ROOT_TREE_ENTRIES {
        MAX_ROOT_TREE_ENTRIES
    } else {
        total
    };
    let ghost goal = tree_lines(v, children@, shown_count as nat);
    let mut i: usize = 0;
    proof {
        assert(texts(parts@) =~= start + goal.take(0));
    }
    while i < shown_count
        invariant
            i <= shown_count,
            shown_count <= entries@.len(),
            v == dir_items(entries@),
            goal == tree_lines(v, children@, shown_count as nat),
            texts(parts@) == start + goal.take(i as int),
        decreases shown_count - i,
    {
        proof {
            assert(v[i as int] == entries@[i as int]@);
            lemma_take_step(goal, i as int);
        }
        let line = if i < children.len() {
            render_tree_entry(&entries[i], &children[i])
        } else {
            render_tree_entry(&entries[i], &None)
        };
        push_part(parts, line);
        proof {
            assert(texts(parts@) =~= start + goal.take(i + 1));
        }
        i = i + 1;
    }
    proof {
        lemma_take_full(goal);
    }
    if total > MAX_ROOT_TREE_ENTRIES {
        push_part(
            parts,
            "... (".to_owned().concat(
                decimal_string((total - MAX_ROOT_TREE_ENTRIES) as u64).as_str(),
            ).concat(" more entries)"),
        );
    }
    proof {
        assert(texts(parts@) =~= before + file_tree(v, children@));
    }
}

// ---------------------------------------------------------------------------
// The status
// ---------------------------------------------------------------------------

/// What was found out about the surroundings.
#[derive(Debug)]
pub struct Surroundings {
    pub time: String,
    /// The value of the variable that names the user.
    pub user: Option<String>,
    pub cwd: Option<String>,
    /// The entries of the current directory that are shown, if it could be read.
    pub entries: Option<Vec<DirItem>>,
    /// For each of them that is a directory, what it holds.
    pub children: Vec<Option<Vec<DirItem>>>,
    /// What `git` told of whether this is a work tree, of the branch and of the last commit.
    pub work_tree: Option<String>,
    pub branch: Option<String>,
    pub commit: Option<String>,
    pub os: String,
    /// Whether this is Windows, where the shell is PowerShell.
    pub windows: bool,
    /// What the shell told of itself.
    pub shell: Option<String>,
    /// What the tools told of themselves, in the order of `probed_tools`.
    pub tools: Vec<Option<String>>,
}

/// The tools that are looked for, each with a note for when it is missing.
pub open spec fn probed_tools() -> Seq<(&'static str, Option<&'static str>)> {
    seq![
        ("Git", None),
        ("ripgrep (`rg`)", Some("required by Grep")),
        ("Python", None),
        ("Node.js", None),
        ("Rust", None),
        ("Cargo", None),
        ("uv", Some("optional")),
        ("fzf", Some("optional")),
        ("Go", None),
        ("Java", None),
    ]
}

fn probed_tool_list() -> (r: Vec<(&'static str, Option<&'static str>)>)
    ensures
        r@ == probed_tools(),
{
    let v: Vec<(&'static str, Option<&'static str>)> = vec![
        ("Git", None),
        ("ripgrep (`rg`)", Some("required by Grep")),
        ("Python", None),
        ("Node.js", None),
        ("Rust", None),
        ("Cargo", None),
        ("uv", Some("optional")),
        ("fzf", Some("optional")),
        ("Go", None),
        ("Java", None),
    ];
    proof {
        assert(v@ =~= probed_tools());
    }
    v
}

pub open spec fn told_at(v: Seq<Option<String>>, i: int) -> Option<Seq<char>> {
    if 0 <= i < v.len() {
        opt_text(v[i])
    } else {
        None
    }
}

pub open spec fn tool_lines(v: Seq<Option<String>>) -> Seq<Seq<char>> {
    Seq::new(
        probed_tools().len(),
        |i: int| tool_line(probed_tools()[i].0@, told_at(v, i), opt_str(probed_tools()[i].1)),
    )
}

pub open spec fn user_line(user: Option<Seq<char>>) -> Seq<Seq<char>> {
    match user {
        Some(u) => if trimmed(u).len() > 0 {
            seq!["**User**: "@ + trimmed(u)]
        } else {
            Seq::empty()
        },
        None => Seq::empty(),
    }
}

pub open spec fn place_lines(s: Surroundings) -> Seq<Seq<char>> {
    match s.cwd {
        Some(d) => seq!["**Working Directory**: `"@ + d@ + "`"@] + match s.entries {
            Some(v) => file_tree(dir_items(v@), s.children@),
            None => Seq::empty(),
        },
        None => Seq::empty(),
    }
}

pub open spec fn git_lines(s: Surroundings) -> Seq<Seq<char>> {
    if opt_text(s.work_tree) == Some("true"@) {
        seq!["## Git"@] + (match s.branch {
            Some(b) => seq!["**Branch**: "@ + b@],
            None => Seq::empty(),
        }) + (match s.commit {
            Some(c) => if c@.len() > 0 {
                seq!["**Commit**: "@ + c@]
            } else {
                Seq::empty()
            },
            None => Seq::empty(),
        })
    } else {
        Seq::empty()
    }
}

/// What is said of the shell, given what it told of itself.
pub open spec fn shell_status(told: Option<Seq<char>>, windows: bool) -> Seq<char> {
    match version_text(told) {
        Some(v) => if windows && !contains_text(ascii_lower(v), "powershell"@) {
            "PowerShell "@ + v
        } else {
            v
        },
        None => if windows {
            "PowerShell not found"@
        } else {
            "bash not found"@
        },
    }
}

/// What is said of the shell.
pub fn shell_tool_status(told: &Option<String>, windows: bool) -> (r: String)
    ensures
        r@ == shell_status(opt_text(*told), windows),
{
    match command_version(told) {
        Some(v) => {
            if windows {
                let low = to_ascii_lower(v.as_str());
                if !contains(low.as_str(), "powershell") {
                    return "PowerShell ".to_owned().concat(v.as_str());
                }
            }
            v
        },
        None => {
            if windows {
                "PowerShell not found".to_owned()
            } else {
                "bash not found".to_owned()
            }
        },
    }
}

/// The parts of the status, from top to bottom.
pub open spec fn status_parts(s: Surroundings) -> Seq<Seq<char>> {
    seq!["# Current Status"@, "**Time**: "@ + s.time@] + user_line(opt_text(s.user)) + place_lines(s)
        + git_lines(s) + seq![
        "## Environment"@,
        "**OS**: "@ + s.os@,
        "**Shell Tool**: "@ + shell_status(opt_text(s.shell), s.windows),
        "## Tooling"@,
    ] + tool_lines(s.tools@)
}

fn append_place(s: &Surroundings, parts: &mut Vec<String>)
    ensures
        texts(final(parts)@) == texts(old(parts)@) + place_lines(*s),
{
    let ghost before = texts(parts@);
    if let Some(d) = &s.cwd {
        push_part(
            parts,
            "**Working Directory**: `".to_owned().concat(d.as_str()).concat("`"),
        );
        if let Some(v) = &s.entries {
            append_file_tree(v, &s.children, parts);
        }
    }
    proof {
        assert(texts(parts@) =~= before + place_lines(*s));
    }
}

pub fn append_git_status(s: &Surroundings, parts: &mut Vec<String>)
    ensures
        texts(final(parts)@) == texts(old(parts)@) + git_lines(*s),
{
    let ghost before = texts(parts@);
    if opt_eq(&s.work_tree, "true") {
        push_part(parts, "## Git".to_owned());
        if let Some(b) = &s.branch {
            push_part(parts, "**Branch**: ".to_owned().concat(b.as_str()));
        }
        if let Some(c) = &s.commit {
            if !c.as_str().is_empty() {
                push_part(parts, "**Commit**: ".to_owned().concat(c.as_str()));
            }
        }
    }
    proof {
        assert(texts(parts@) =~= before + git_lines(*s));
    }
}

fn append_tool_lines(s: &Surroundings, parts: &mut Vec<String>)
    ensures
        texts(final(parts)@) == texts(old(parts)@) + tool_lines(s.tools@),
{
    let ghost before = texts(parts@);
    let tools = probed_tool_list();
    let ghost goal = tool_lines(s.tools@);
    let mut i: usize = 0;
    proof {
        assert(before + goal.take(0) =~= before);
    }
    while i < tools.len()
        invariant
            i <= tools@.len(),
            tools@ == probed_tools(),
            goal == tool_lines(s.tools@),
            texts(parts@) == before + goal.take(i as int),
        decreases tools@.len() - i,
    {
        let line = if i < s.tools.len() {
            tool_line_of(tools[i].0, &s.tools[i], tools[i].1)
        } else {
            tool_line_of(tools[i].0, &None, tools[i].1)
        };
        proof {
            lemma_take_step(goal, i as int);
        }
        push_part(parts, line);
        proof {
            assert(texts(parts@) =~= before + goal.take(i + 1));
        }
        i = i + 1;
    }
    proof {
        lemma_take_full(goal);
    }
}

/// The status of the surroundings.
pub fn collect_context_status(s: &Surroundings) -> (r: String)
    ensures
        r@ == join(status_parts(*s), "\n\n"@),
{
    let mut parts: Vec<String> = Vec::new();
    push_part(&mut parts, "# Current Status".to_owned());
    push_part(&mut parts, "**Time**: ".to_owned().concat(s.time.as_str()));
    if let Some(u) = &s.user {
        let name = trim(u.as_str());
        if !name.as_str().is_empty() {
            push_part(&mut parts, "**User**: ".to_owned().concat(name.as_str()));
        }
    }
    proof {
        assert(texts(parts@) =~= seq!["# Current Status"@, "**Time**: "@ + s.time@] + user_line(
            opt_text(s.user),
        ));
    }
    append_place(s, &mut parts);
    append_git_status(s, &mut parts);
    let ghost before = texts(parts@);
    push_part(&mut parts, "## Environment".to_owned());
    push_part(&mut parts, "**OS**: ".to_owned().concat(s.os.as_str()));
    let shell_text = shell_tool_status(&s.shell, s.windows);
    push_part(&mut parts, "**Shell Tool**: ".to_owned().concat(shell_text.as_str()));
    push_part(&mut parts, "## Tooling".to_owned());
    proof {
        assert(texts(parts@) =~= before + seq![
            "## Environment"@,
            "**OS**: "@ + s.os@,
            "**Shell Tool**: "@ + shell_status(opt_text(s.shell), s.windows),
            "## Tooling"@,
        ]);
    }
    append_tool_lines(s, &mut parts);
    join_strings(&parts, "\n\n")
}

} // verus!
