//! Which shell commands only read.

use crate::text::{
    chars_of, has_char, in_list, is_blank, lemma_texts_push, one_of, str_eq, texts, trim,
    trimmed, words, words_of,
};
use vstd::prelude::*;

verus! {

/// Whether a character ends a simple command: `;`, `|`, or `&` before another `&`.
pub open spec fn ends_segment(s: Seq<char>, i: int) -> bool {
    s[i] == ';' || s[i] == '|' || (s[i] == '&' && i + 1 < s.len() && s[i + 1] == '&')
}

/// How many characters the operator at index `i` takes.
pub open spec fn operator_len(s: Seq<char>, i: int) -> int {
    if (s[i] == '&' || s[i] == '|') && i + 1 < s.len() && s[i + 1] == s[i] {
        2
    } else {
        1
    }
}

pub open spec fn with_segment(parts: Seq<Seq<char>>, cur: Seq<char>) -> Seq<Seq<char>> {
    if is_blank(cur) {
        parts
    } else {
        parts.push(trimmed(cur))
    }
}

/// The simple commands of a command line from index `i` on, the one in work being `cur`.
pub open spec fn segments_from(
    s: Seq<char>,
    i: int,
    parts: Seq<Seq<char>>,
    cur: Seq<char>,
) -> Seq<Seq<char>>
    decreases s.len() - i,
{
    if i < 0 || i >= s.len() {
        with_segment(parts, cur)
    } else if ends_segment(s, i) {
        segments_from(s, i + operator_len(s, i), with_segment(parts, cur), Seq::empty())
    } else {
        segments_from(s, i + 1, parts, cur.push(s[i]))
    }
}

/// The simple commands of a command line.
pub open spec fn segments(s: Seq<char>) -> Seq<Seq<char>> {
    segments_from(s, 0, Seq::empty(), Seq::empty())
}

fn add_segment(parts: &mut Vec<String>, cur: &str)
    ensures
        texts(final(parts)@) == with_segment(texts(old(parts)@), cur@),
{
    let t = trim(cur);
    if !t.as_str().is_empty() {
        proof {
            lemma_texts_push(parts@, t);
        }
        parts.push(t);
    }
}

pub fn split_command_segments(command: &str) -> (r: Vec<String>)
    ensures
        texts(r@) == segments(command@),
{
    let c = chars_of(command);
    let n: usize = c.len();
    let mut parts: Vec<String> = Vec::new();
    let mut cur = String::new();
    let mut i: usize = 0;
    proof {
        assert(texts(parts@) =~= Seq::<Seq<char>>::empty());
    }
    while i < n
        invariant
            i <= n,
            n == c@.len(),
            c@ == command@,
            segments_from(command@, i as int, texts(parts@), cur@) == segments(command@),
        decreases n - i,
    {
        let ch: char = c[i];
        let twice = i + 1 < n && c[i + 1] == ch;
        if ch == ';' || ch == '|' || (ch == '&' && twice) {
            add_segment(&mut parts, cur.as_str());
            cur = String::new();
            if (ch == '&' || ch == '|') && twice {
                i = i + 2;
            } else {
                i = i + 1;
            }
        } else {
            cur.push(ch);
            i = i + 1;
        }
    }
    add_segment(&mut parts, cur.as_str());
    parts
}

/// Commands that search.
pub open spec fn search_commands() -> Seq<&'static str> {
    seq!["find", "grep", "rg", "ag", "ack", "locate", "which", "whereis"]
}

/// Commands that read.
pub open spec fn read_commands() -> Seq<&'static str> {
    seq!["cat", "head", "tail", "less", "more", "wc", "stat", "file", "strings", "jq", "awk",
        "cut", "sort", "uniq", "tr", "pwd", "date", "uname", "whoami", "id", "ps", "env",
        "printenv"]
}

/// Commands that list.
pub open spec fn list_commands() -> Seq<&'static str> {
    seq!["ls", "tree", "du"]
}

/// Commands that neither read nor write.
pub open spec fn neutral_commands() -> Seq<&'static str> {
    seq!["echo", "printf", "true", "false", ":"]
}

/// What of `git` only reads.
pub open spec fn git_reads() -> Seq<&'static str> {
    seq!["status", "diff", "show", "log", "branch", "rev-parse"]
}

/// The word of a text at an index; empty where there is none.
pub open spec fn word_at(s: Seq<char>, i: int) -> Seq<char> {
    if 0 <= i < words(s).len() {
        words(s)[i]
    } else {
        Seq::empty()
    }
}

pub open spec fn is_neutral(segment: Seq<char>) -> bool {
    words(segment).len() == 0 || in_list(word_at(segment, 0), neutral_commands())
}

/// Whether a simple command only reads: it redirects nothing, and its program is known to only
/// read.
pub open spec fn segment_reads(segment: Seq<char>) -> bool {
    let base = word_at(segment, 0);
    !segment.contains('>') && (is_neutral(segment) || in_list(base, search_commands()) || in_list(
        base,
        read_commands(),
    ) || in_list(base, list_commands()) || (base == "git"@ && in_list(
        word_at(segment, 1),
        git_reads(),
    )))
}

/// Whether a command line only reads: each of its simple commands does, and one of them reads
/// something.
pub open spec fn only_reads(command: Seq<char>) -> bool {
    let v = segments(command);
    (forall|i: int| 0 <= i < v.len() ==> segment_reads(#[trigger] v[i])) && (exists|i: int|
        0 <= i < v.len() && !is_neutral(#[trigger] v[i]))
}

fn word_of(w: &Vec<String>, i: usize) -> (r: String)
    ensures
        r@ == if i < w@.len() {
            w@[i as int]@
        } else {
            Seq::empty()
        },
{
    if i < w.len() {
        w[i].clone()
    } else {
        String::new()
    }
}

/// The program of a simple command.
pub fn command_base_name(segment: &str) -> (r: Option<String>)
    ensures
        match r {
            Some(w) => words(segment@).len() > 0 && w@ == words(segment@)[0],
            None => words(segment@).len() == 0,
        },
{
    let w = words_of(segment);
    if w.len() == 0 {
        None
    } else {
        proof {
            assert(texts(w@)[0] == w@[0]@);
        }
        Some(w[0].clone())
    }
}

fn neutral(segment: &str) -> (r: bool)
    ensures
        r == is_neutral(segment@),
{
    let set = ["echo", "printf", "true", "false", ":"];
    proof {
        assert(set@ =~= neutral_commands());
    }
    match command_base_name(segment) {
        Some(base) => one_of(base.as_str(), &set),
        None => true,
    }
}

fn reads(segment: &str) -> (r: bool)
    ensures
        r == segment_reads(segment@),
{
    let search = ["find", "grep", "rg", "ag", "ack", "locate", "which", "whereis"];
    let read = ["cat", "head", "tail", "less", "more", "wc", "stat", "file", "strings", "jq",
        "awk", "cut", "sort", "uniq", "tr", "pwd", "date", "uname", "whoami", "id", "ps", "env",
        "printenv"];
    let list = ["ls", "tree", "du"];
    let git = ["status", "diff", "show", "log", "branch", "rev-parse"];
    proof {
        assert(search@ =~= search_commands());
        assert(read@ =~= read_commands());
        assert(list@ =~= list_commands());
        assert(git@ =~= git_reads());
    }
    if has_char(segment, '>') {
        return false;
    }
    if neutral(segment) {
        return true;
    }
    let w = words_of(segment);
    let base = word_of(&w, 0);
    let sub = word_of(&w, 1);
    proof {
        assert(base@ == word_at(segment@, 0));
        assert(sub@ == word_at(segment@, 1));
    }
    one_of(base.as_str(), &search) || one_of(base.as_str(), &read) || one_of(base.as_str(), &list)
        || (str_eq(base.as_str(), "git") && one_of(sub.as_str(), &git))
}

pub fn is_read_only_bash_command(command: &str) -> (r: bool)
    ensures
        r == only_reads(command@),
{
    let parts = split_command_segments(command);
    let ghost v = texts(parts@);
    let mut busy = false;
    let mut i: usize = 0;
    while i < parts.len()
        invariant
            i <= parts@.len(),
            v == texts(parts@),
            v == segments(command@),
            forall|k: int| 0 <= k < i ==> segment_reads(#[trigger] v[k]),
            busy == (exists|k: int| 0 <= k < i && !is_neutral(#[trigger] v[k])),
        decreases parts@.len() - i,
    {
        proof {
            assert(v[i as int] == parts@[i as int]@);
        }
        if !reads(parts[i].as_str()) {
            return false;
        }
        if !neutral(parts[i].as_str()) {
            proof {
                assert(!is_neutral(v[i as int]));
            }
            busy = true;
        }
        i = i + 1;
    }
    busy
}

/// A command that redirects its output anywhere does not count as one that only reads.
pub proof fn law_redirect_is_no_read(command: Seq<char>, i: int)
    requires
        0 <= i < segments(command).len(),
        segments(command)[i].contains('>'),
    ensures
        !only_reads(command),
{
    assert(!segment_reads(segments(command)[i]));
}

} // verus!
