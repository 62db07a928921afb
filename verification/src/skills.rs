//! Skills: where they are looked for, how they are named, listed and read.

use crate::config::{AppConfig, expand_tilde, expanded, join_path, joined_path, skill_paths};
use crate::diff::ints;
use crate::error::{AppError, AppResult, EXIT_ARGS, Failure, failure};
use crate::json::{JsonView, json_text, print_json, printed_json};
use crate::paths::{is_rooted, is_same_path, same_path};
use crate::table::{text_before, text_lt};
use crate::text::{
    ascii_lower, byte_len, byte_prefix, bytes_len, chars_of, contains, contains_text, decimal,
    decimal_string, join, join_strings, lemma_skip_step, lemma_take_full, lemma_take_step,
    lemma_texts_push, lines, lines_of, opt_str, opt_text, replace, replaced, split_once,
    split_once_spec, str_eq, strip_prefix_spec, take_bytes, texts, to_ascii_lower, trim,
    trimmed,
};
use vstd::prelude::*;

verus! {

#[derive(Debug)]
pub struct SkillEntry {
    pub name: String,
    pub scope: String,
    pub path: String,
    pub summary: Option<String>,
}

pub struct SkillView {
    pub name: Seq<char>,
    pub scope: Seq<char>,
    pub path: Seq<char>,
    pub summary: Option<Seq<char>>,
}

impl View for SkillEntry {
    type V = SkillView;

    open spec fn view(&self) -> SkillView {
        SkillView {
            name: self.name@,
            scope: self.scope@,
            path: self.path@,
            summary: opt_text(self.summary),
        }
    }
}

pub open spec fn skill_views(v: Seq<SkillEntry>) -> Seq<SkillView> {
    v.map_values(|s: SkillEntry| s@)
}

/// The scope of a directory of skills: the project's own, the user's, or another one. The first two
/// are those below the current directory and the home, under the path `skills_dir`.
pub open spec fn scope_label(
    root: Seq<char>,
    cwd: Option<Seq<char>>,
    home: Option<Seq<char>>,
    configured: Seq<char>,
    skills_dir: Seq<char>,
) -> Seq<char> {
    if cwd matches Some(d) && same_path(root, joined_path(d, skills_dir)) {
        "project"@
    } else if home matches Some(d) && same_path(root, joined_path(d, skills_dir)) {
        "global"@
    } else {
        "path:"@ + configured
    }
}

pub fn skill_scope_label(
    root: &str,
    current_dir: &Option<String>,
    home_dir: &Option<String>,
    configured: &str,
    skills_dir: &str,
) -> (r: String)
    ensures
        r@ == scope_label(
            root@,
            opt_text(*current_dir),
            opt_text(*home_dir),
            configured@,
            skills_dir@,
        ),
{
    if let Some(d) = current_dir {
        let p = join_path(d.as_str(), skills_dir);
        if is_same_path(root, p.as_str()) {
            return "project".to_owned();
        }
    }
    if let Some(d) = home_dir {
        let p = join_path(d.as_str(), skills_dir);
        if is_same_path(root, p.as_str()) {
            return "global".to_owned();
        }
    }
    "path:".to_owned().concat(configured)
}

/// A directory of skills: its scope and where it is.
pub open spec fn skill_root(
    configured: Seq<char>,
    cwd: Option<Seq<char>>,
    home: Option<Seq<char>>,
    skills_dir: Seq<char>,
) -> (Seq<char>, Seq<char>) {
    let p = expanded(configured, home);
    let root = match cwd {
        Some(d) => joined_path(d, p),
        None => p,
    };
    (scope_label(root, cwd, home, configured, skills_dir), root)
}

/// Of the two paths that a configuration has for skills at first, one is the project's own and one
/// is the user's, unless both are the same.
pub proof fn law_first_paths_have_scopes(skills_dir: Seq<char>, cwd: Seq<char>, home: Seq<char>)
    requires
        skills_dir.len() > 0,
        skills_dir[0] != '/',
        skills_dir[0] != '~',
        is_rooted(home),
        !same_path(joined_path(home, skills_dir), joined_path(cwd, skills_dir)),
    ensures
        skill_root(skill_paths(skills_dir)[0], Some(cwd), Some(home), skills_dir) == (
            "project"@,
            joined_path(cwd, skills_dir),
        ),
        skill_root(skill_paths(skills_dir)[1], Some(cwd), Some(home), skills_dir) == (
            "global"@,
            joined_path(home, skills_dir),
        ),
{
    reveal_strlit("~/");
    let p = "~/"@ + skills_dir;
    assert(p.skip(2) =~= skills_dir);
    assert(p.subrange(0, 2) =~= "~/"@);
    assert(strip_prefix_spec(skills_dir, "~/"@) is None) by {
        if "~/"@.is_prefix_of(skills_dir) {
            assert(skills_dir.subrange(0, 2)[0] == '~');
        }
    }
}

pub open spec fn pair_views(v: Seq<(String, String)>) -> Seq<(Seq<char>, Seq<char>)> {
    v.map_values(|p: (String, String)| (p.0@, p.1@))
}

/// The directories of skills that are configured.
pub fn skill_roots(
    config: &AppConfig,
    current_dir: &Option<String>,
    home_dir: &Option<String>,
    skills_dir: &str,
) -> (r: Vec<(String, String)>)
    ensures
        pair_views(r@) == texts(config.skills.paths@).map_values(
            |c: Seq<char>| skill_root(c, opt_text(*current_dir), opt_text(*home_dir), skills_dir@),
        ),
{
    let ghost f = |c: Seq<char>| skill_root(c, opt_text(*current_dir), opt_text(*home_dir), skills_dir@);
    let ghost goal = texts(config.skills.paths@).map_values(f);
    let mut out: Vec<(String, String)> = Vec::new();
    let mut i: usize = 0;
    proof {
        assert(pair_views(out@) =~= goal.take(0));
    }
    while i < config.skills.paths.len()
        invariant
            i <= config.skills.paths@.len(),
            f == (|c: Seq<char>| skill_root(c, opt_text(*current_dir), opt_text(*home_dir), skills_dir@)),
            goal == texts(config.skills.paths@).map_values(f),
            pair_views(out@) == goal.take(i as int),
        decreases config.skills.paths@.len() - i,
    {
        let configured = config.skills.paths[i].as_str();
        let p = expand_tilde(configured, home_dir);
        let root = match current_dir {
            Some(d) => join_path(d.as_str(), p.as_str()),
            None => p,
        };
        let scope = skill_scope_label(
            root.as_str(),
            current_dir,
            home_dir,
            configured,
            skills_dir,
        );
        let pair = (scope, root);
        let ghost before = pair_views(out@);
        proof {
            lemma_take_step(goal, i as int);
        }
        out.push(pair);
        proof {
            assert(pair_views(out@) =~= before.push((pair.0@, pair.1@)));
            assert(texts(config.skills.paths@)[i as int] == config.skills.paths@[i as int]@);
        }
        i = i + 1;
    }
    proof {
        lemma_take_full(goal);
    }
    out
}

/// What is done with a directory below a directory of skills.
#[derive(Debug)]
pub enum SkillVisit {
    /// It is a skill with this name.
    Skill(String),
    /// It is none, and nothing below it is looked at.
    Nothing,
    /// These paths, below the directory of skills, are looked at.
    Visit(Vec<String>),
}

/// A directory with the file of a skill is a skill, under its path below the directory of skills,
/// and nothing below it is looked at. The directory of skills itself has no name and is none. Any
/// other directory is searched entry by entry.
pub fn visit_skill_dir(relative: &str, has_skill_file: bool, entries: &Vec<String>) -> (r: SkillVisit)
    ensures
        if !has_skill_file {
            r matches SkillVisit::Visit(v) && texts(v@) == texts(entries@).map_values(
                |e: Seq<char>| joined_path(relative@, e),
            )
        } else if relative@.len() == 0 {
            r is Nothing
        } else {
            r matches SkillVisit::Skill(name) && name@ == replaced(relative@, "\\"@, "/"@)
        },
{
    if has_skill_file {
        if relative.is_empty() {
            return SkillVisit::Nothing;
        }
        proof {
            reveal_strlit("\\");
        }
        return SkillVisit::Skill(replace(relative, "\\", "/"));
    }
    let ghost f = |e: Seq<char>| joined_path(relative@, e);
    let ghost goal = texts(entries@).map_values(f);
    let mut out: Vec<String> = Vec::new();
    let mut i: usize = 0;
    proof {
        assert(texts(out@) =~= goal.take(0));
    }
    while i < entries.len()
        invariant
            i <= entries@.len(),
            f == (|e: Seq<char>| joined_path(relative@, e)),
            goal == texts(entries@).map_values(f),
            texts(out@) == goal.take(i as int),
        decreases entries@.len() - i,
    {
        let p = join_path(relative, entries[i].as_str());
        proof {
            lemma_take_step(goal, i as int);
            lemma_texts_push(out@, p);
            assert(texts(entries@)[i as int] == entries@[i as int]@);
        }
        out.push(p);
        i = i + 1;
    }
    proof {
        lemma_take_full(goal);
    }
    SkillVisit::Visit(out)
}

// ---------------------------------------------------------------------------
// Summaries
// ---------------------------------------------------------------------------

pub open spec fn cut_summary(s: Seq<char>) -> Seq<char> {
    if bytes_len(s) > 120 {
        byte_prefix(s, 117) + "..."@
    } else {
        s
    }
}

/// The first line from line `i` on that is neither blank nor a heading; where there is none, the
/// empty text if a heading was seen.
pub open spec fn summary_from(v: Seq<Seq<char>>, i: int, heading: bool) -> Option<Seq<char>>
    decreases v.len() - i,
{
    if i < 0 || i >= v.len() {
        if heading {
            Some(Seq::empty())
        } else {
            None
        }
    } else {
        let t = trimmed(v[i]);
        if t.len() == 0 {
            summary_from(v, i + 1, heading)
        } else if t[0] == '#' {
            summary_from(v, i + 1, true)
        } else {
            Some(cut_summary(t))
        }
    }
}

pub fn extract_skill_summary(content: &str) -> (r: Option<String>)
    ensures
        opt_text(r) == summary_from(lines(content@), 0, false),
{
    let all = lines_of(content);
    let ghost v = texts(all@);
    let mut heading = false;
    let mut i: usize = 0;
    while i < all.len()
        invariant
            i <= all@.len(),
            v == texts(all@),
            v == lines(content@),
            summary_from(v, 0, false) == summary_from(v, i as int, heading),
        decreases all@.len() - i,
    {
        let t = trim(all[i].as_str());
        let c = chars_of(t.as_str());
        if c.len() > 0 {
            if c[0] == '#' {
                heading = true;
            } else {
                if byte_len(t.as_str()) > 120 {
                    return Some(take_bytes(t.as_str(), 117).concat("..."));
                }
                return Some(t);
            }
        }
        i = i + 1;
    }
    if heading {
        Some(String::new())
    } else {
        None
    }
}

/// A skill on one line.
pub open spec fn skill_line(s: SkillView) -> Seq<char> {
    let head = s.scope + ":"@ + s.name + " path="@ + s.path;
    match s.summary {
        Some(t) if t.len() > 0 => head + " summary="@ + printed_json(JsonView::Str(t)),
        _ => head,
    }
}

pub fn format_skill_entry(entry: &SkillEntry) -> (r: String)
    ensures
        r@ == skill_line(entry@),
{
    let head = entry.scope.clone().concat(":").concat(entry.name.as_str()).concat(" path=").concat(
        entry.path.as_str(),
    );
    match &entry.summary {
        Some(t) => {
            if t.as_str().is_empty() {
                head
            } else {
                let quoted = print_json(&json_text(t.as_str()));
                head.concat(" summary=").concat(quoted.as_str())
            }
        },
        None => head,
    }
}

// ---------------------------------------------------------------------------
// Listing and finding
// ---------------------------------------------------------------------------

/// Whether a skill comes before another: by scope, then by name.
pub open spec fn skill_before(a: SkillView, b: SkillView) -> bool {
    text_lt(a.scope, b.scope) || (a.scope == b.scope && text_lt(a.name, b.name))
}

pub open spec fn with_skill(v: Seq<SkillView>, s: SkillView) -> Seq<SkillView>
    decreases v.len(),
{
    if v.len() > 0 && skill_before(s, v.last()) {
        with_skill(v.drop_last(), s).push(v.last())
    } else {
        v.push(s)
    }
}

/// Skills in order; those of one scope and name keep theirs.
pub open spec fn sorted_skills(v: Seq<SkillView>) -> Seq<SkillView>
    decreases v.len(),
{
    if v.len() == 0 {
        Seq::empty()
    } else {
        with_skill(sorted_skills(v.drop_last()), v.last())
    }
}

proof fn lemma_with_skill_at(v: Seq<SkillView>, s: SkillView, i: int)
    requires
        0 <= i <= v.len(),
        forall|k: int| i <= k < v.len() ==> skill_before(s, #[trigger] v[k]),
        i > 0 ==> !skill_before(s, v[i - 1]),
    ensures
        with_skill(v, s) == v.insert(i, s),
    decreases v.len(),
{
    if i == v.len() {
        assert(v.insert(i, s) =~= v.push(s));
        if v.len() > 0 {
            assert(v.last() == v[i - 1]);
        }
    } else {
        assert(skill_before(s, v[v.len() - 1]));
        lemma_with_skill_at(v.drop_last(), s, i);
        assert(v.insert(i, s) =~= v.drop_last().insert(i, s).push(v.last()));
    }
}

fn is_skill_before(a: &SkillEntry, b: &SkillEntry) -> (r: bool)
    ensures
        r == skill_before(a@, b@),
{
    text_before(a.scope.as_str(), b.scope.as_str()) || (str_eq(
        a.scope.as_str(),
        b.scope.as_str(),
    ) && text_before(a.name.as_str(), b.name.as_str()))
}

/// Adds a skill to skills in order.
pub fn add_skill(v: &mut Vec<SkillEntry>, s: SkillEntry)
    ensures
        skill_views(final(v)@) == with_skill(skill_views(old(v)@), s@),
{
    let ghost src = skill_views(v@);
    let mut i: usize = v.len();
    while i > 0 && is_skill_before(&s, &v[i - 1])
        invariant
            i <= v@.len(),
            *v == *old(v),
            src == skill_views(v@),
            forall|k: int| i <= k < v@.len() ==> skill_before(s@, #[trigger] src[k]),
        decreases i,
    {
        proof {
            assert(src[i - 1] == v@[i - 1]@);
        }
        i = i - 1;
    }
    proof {
        if i > 0 {
            assert(src[i - 1] == v@[i - 1]@);
        }
        lemma_with_skill_at(src, s@, i as int);
    }
    let ghost view = s@;
    v.insert(i, s);
    proof {
        assert(skill_views(v@) =~= src.insert(i as int, view));
    }
}

/// Puts the skills that were found in order.
pub fn discover_skills_from_roots(found: Vec<SkillEntry>) -> (r: Vec<SkillEntry>)
    ensures
        skill_views(r@) == sorted_skills(skill_views(found@)),
{
    let ghost src = skill_views(found@);
    let mut rest = found;
    let mut back: Vec<SkillEntry> = Vec::new();
    while rest.len() > 0
        invariant
            skill_views(rest@) + skill_views(back@).reverse() == src,
        decreases rest@.len(),
    {
        let ghost a = skill_views(rest@);
        let ghost b = skill_views(back@);
        match rest.pop() {
            Some(s) => {
                back.push(s);
                proof {
                    assert(skill_views(rest@) =~= a.drop_last());
                    assert(skill_views(back@) =~= b.push(s@));
                    assert(a.drop_last() + b.push(s@).reverse() =~= a + b.reverse());
                }
            },
            None => {},
        }
    }
    proof {
        assert(skill_views(back@).reverse() =~= src);
    }
    let mut out: Vec<SkillEntry> = Vec::new();
    proof {
        assert(skill_views(out@) =~= sorted_skills(src.take(0)));
        assert(src.skip(0) =~= src);
    }
    let ghost mut k: int = 0;
    while back.len() > 0
        invariant
            0 <= k <= src.len(),
            skill_views(back@).reverse() == src.skip(k),
            skill_views(out@) == sorted_skills(src.take(k)),
        decreases back@.len(),
    {
        let ghost b = skill_views(back@);
        proof {
            assert(src.skip(k).len() == b.len());
            lemma_take_step(src, k);
            assert(b.reverse()[0] == b.last());
        }
        match back.pop() {
            Some(s) => {
                proof {
                    assert(skill_views(back@) =~= b.drop_last());
                    assert(b.last() == s@);
                    assert(src.skip(k)[0] == src[k]);
                    assert(b.drop_last().reverse() =~= src.skip(k).drop_first());
                    lemma_skip_step(src, k);
                    k = k + 1;
                }
                add_skill(&mut out, s);
            },
            None => {},
        }
    }
    proof {
        assert(src.skip(k).len() == 0);
        assert(k == src.len());
        lemma_take_full(src);
    }
    out
}

/// The lines of the skills whose names hold a query in lower case.
pub open spec fn skill_lines(v: Seq<SkillView>, query: Option<Seq<char>>) -> Seq<Seq<char>>
    decreases v.len(),
{
    if v.len() == 0 {
        Seq::empty()
    } else {
        let before = skill_lines(v.drop_last(), query);
        let fits = match query {
            Some(q) => contains_text(ascii_lower(v.last().name), ascii_lower(q)),
            None => true,
        };
        if fits {
            before.push(skill_line(v.last()))
        } else {
            before
        }
    }
}

pub open spec fn skill_list(v: Seq<SkillView>, query: Option<Seq<char>>) -> Seq<char> {
    let l = skill_lines(v, query);
    if l.len() == 0 {
        "no skills found"@
    } else {
        join(l, "\n"@)
    }
}

pub fn tool_skills_list(entries: &Vec<SkillEntry>, query: Option<&str>) -> (r: String)
    ensures
        r@ == skill_list(skill_views(entries@), opt_str(query)),
{
    let ghost src = skill_views(entries@);
    let mut out: Vec<String> = Vec::new();
    let mut i: usize = 0;
    proof {
        assert(texts(out@) =~= Seq::<Seq<char>>::empty());
    }
    while i < entries.len()
        invariant
            i <= entries@.len(),
            src == skill_views(entries@),
            texts(out@) == skill_lines(src.take(i as int), opt_str(query)),
        decreases entries@.len() - i,
    {
        proof {
            lemma_take_step(src, i as int);
            assert(src[i as int] == entries@[i as int]@);
        }
        let fits = match query {
            Some(q) => {
                let low = to_ascii_lower(q);
                let name = to_ascii_lower(entries[i].name.as_str());
                contains(name.as_str(), low.as_str())
            },
            None => true,
        };
        if fits {
            let line = format_skill_entry(&entries[i]);
            proof {
                lemma_texts_push(out@, line);
            }
            out.push(line);
        }
        i = i + 1;
    }
    proof {
        lemma_take_full(src);
    }
    if out.len() == 0 {
        return "no skills found".to_owned();
    }
    join_strings(&out, "\n")
}

/// The scope and the name that a reference to a skill gives.
pub open spec fn wanted(name: Seq<char>, scope: Option<Seq<char>>) -> (Option<Seq<char>>, Seq<char>) {
    match split_once_spec(name, ":"@) {
        Some((s, n)) => (
            match scope {
                Some(x) => Some(x),
                None => Some(s),
            },
            n,
        ),
        None => (scope, name),
    }
}

pub open spec fn is_wanted(s: SkillView, scope: Option<Seq<char>>, name: Seq<char>) -> bool {
    s.name == name && (scope matches Some(x) ==> x == s.scope)
}

/// The numbers of the skills that are meant.
pub open spec fn wanted_skills(v: Seq<SkillView>, scope: Option<Seq<char>>, name: Seq<char>) -> Seq<
    int,
>
    decreases v.len(),
{
    if v.len() == 0 {
        Seq::empty()
    } else {
        let before = wanted_skills(v.drop_last(), scope, name);
        if is_wanted(v.last(), scope, name) {
            before.push(v.len() - 1)
        } else {
            before
        }
    }
}

pub open spec fn full_names(v: Seq<SkillView>, at: Seq<int>) -> Seq<Seq<char>> {
    at.map_values(|i: int| v[i].scope + ":"@ + v[i].name)
}

/// The skill that a reference means: the only one of that name in that scope.
pub open spec fn resolved_skill(v: Seq<SkillView>, name: Seq<char>, scope: Option<Seq<char>>) -> Result<
    SkillView,
    Failure,
> {
    let (s, n) = wanted(name, scope);
    let at = wanted_skills(v, s, n);
    if at.len() == 1 {
        Ok(v[at[0]])
    } else if at.len() == 0 {
        Err(failure(EXIT_ARGS, "skill `"@ + n + "` was not found"@))
    } else {
        Err(
            failure(
                EXIT_ARGS,
                "skill `"@ + n + "` is ambiguous, matches: "@ + join(full_names(v, at), ", "@),
            ),
        )
    }
}

pub open spec fn skill_result(r: AppResult<&SkillEntry>) -> Result<SkillView, Failure> {
    match r {
        Ok(s) => Ok(s@),
        Err(e) => Err(e@),
    }
}

pub fn resolve_skill_entry<'a>(entries: &'a Vec<SkillEntry>, name: &str, scope: Option<&str>) -> (r:
    AppResult<&'a SkillEntry>)
    ensures
        skill_result(r) == resolved_skill(skill_views(entries@), name@, opt_str(scope)),
{
    let ghost v = skill_views(entries@);
    let mut want: Option<String> = match scope {
        Some(s) => Some(s.to_owned()),
        None => None,
    };
    let mut bare = name.to_owned();
    if let Some((s, n)) = split_once(name, ":") {
        if want.is_none() {
            want = Some(s);
        }
        bare = n;
    }
    proof {
        assert((opt_text(want), bare@) == wanted(name@, opt_str(scope)));
    }
    let mut at: Vec<usize> = Vec::new();
    let mut i: usize = 0;
    proof {
        assert(ints(at@) =~= Seq::<int>::empty());
    }
    while i < entries.len()
        invariant
            i <= entries@.len(),
            v == skill_views(entries@),
            ints(at@) == wanted_skills(v.take(i as int), opt_text(want), bare@),
            forall|k: int| 0 <= k < at@.len() ==> #[trigger] at@[k] < entries@.len(),
        decreases entries@.len() - i,
    {
        proof {
            lemma_take_step(v, i as int);
            assert(v[i as int] == entries@[i as int]@);
        }
        let fits = match &want {
            Some(s) => str_eq(s.as_str(), entries[i].scope.as_str()),
            None => true,
        };
        if fits && str_eq(entries[i].name.as_str(), bare.as_str()) {
            let ghost before = ints(at@);
            at.push(i);
            proof {
                assert(ints(at@) =~= before.push(i as int));
            }
        }
        i = i + 1;
    }
    proof {
        lemma_take_full(v);
        assert(ints(at@).len() == at@.len());
    }
    if at.len() == 1 {
        proof {
            assert(ints(at@)[0] == at@[0]);
        }
        return Ok(&entries[at[0]]);
    }
    if at.len() == 0 {
        let m = "skill `".to_owned().concat(bare.as_str()).concat("` was not found");
        return Err(AppError::new(EXIT_ARGS, m.as_str()));
    }
    let ghost goal = full_names(v, ints(at@));
    let mut names: Vec<String> = Vec::new();
    let mut k: usize = 0;
    proof {
        assert(texts(names@) =~= goal.take(0));
    }
    while k < at.len()
        invariant
            k <= at@.len(),
            v == skill_views(entries@),
            goal == full_names(v, ints(at@)),
            texts(names@) == goal.take(k as int),
            forall|j: int| 0 <= j < at@.len() ==> #[trigger] at@[j] < entries@.len(),
        decreases at@.len() - k,
    {
        let e = &entries[at[k]];
        let full = e.scope.clone().concat(":").concat(e.name.as_str());
        proof {
            assert(ints(at@)[k as int] == at@[k as int]);
            lemma_take_step(goal, k as int);
            lemma_texts_push(names@, full);
        }
        names.push(full);
        k = k + 1;
    }
    proof {
        lemma_take_full(goal);
    }
    let m = "skill `".to_owned().concat(bare.as_str()).concat("` is ambiguous, matches: ").concat(
        join_strings(&names, ", ").as_str(),
    );
    Err(AppError::new(EXIT_ARGS, m.as_str()))
}

/// A text of at most `max` bytes, or its start with a note.
pub open spec fn limited_skill(s: Seq<char>) -> Seq<char> {
    if bytes_len(s) > 65536 {
        byte_prefix(s, 65536) + "\n\n... (truncated at 65536 bytes, total "@ + decimal(bytes_len(s))
            + " bytes)"@
    } else {
        s
    }
}

/// The instructions of a skill behind a line that names it.
pub fn tool_skill_read(entry: &SkillEntry, content: &str) -> (r: String)
    ensures
        r@ == "name="@ + entry@.name + " scope="@ + entry@.scope + " path="@ + entry@.path + "\n"@
            + limited_skill(content@),
{
    let total: usize = byte_len(content);
    let body = if total > 65536 {
        take_bytes(content, 65536).concat("\n\n... (truncated at 65536 bytes, total ").concat(
            decimal_string(total as u64).as_str(),
        ).concat(" bytes)")
    } else {
        content.to_owned()
    };
    "name=".to_owned().concat(entry.name.as_str()).concat(" scope=").concat(
        entry.scope.as_str(),
    ).concat(" path=").concat(entry.path.as_str()).concat("\n").concat(body.as_str())
}

} // verus!
