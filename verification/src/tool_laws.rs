//! What the tools of the model are for: what they give back is what was read, run, found or
//! fetched, and they do what was asked.

use crate::actions::{
    Confirmed, PlanView, SearchRun, bash_text, call_plan, common_args, confirmed, decided,
    declined, fetched, first_results, full_lines, glob_from, glob_outcome, glob_regex,
    grep_args, grep_outcome, is_special, match_line, matches_of, matching_paths,
    numbered_lines, plan_for, read_limit, read_skip, read_text, regex_match, search_failure,
    shown_path, signed_decimal, with_path, without_line_ends,
};
use crate::diff::right_aligned;
use crate::error::{EXIT_ARGS, Failure};
use crate::json::{JsonView, parsed_json};
use crate::paths::{is_rooted, law_below_keeps_name};
use crate::render::pad_len;
use crate::table::{
    lemma_text_lt_irreflexive, lemma_text_lt_total, lemma_text_lt_transitive, text_lt,
};
use crate::text::{
    ascii_lower, byte_prefix, bytes_len, decimal, digit_char, is_ascii_letter, is_blank,
    is_digit, join, lemma_split_concat, lemma_split_none, lemma_trimmed_len, lines, only,
    repeat, split_by, split_on, starts_with_spec, trimmed,
};
use crate::text_laws::{law_joined_parts_split, law_lines_are_of_the_text, law_repeated_text};
use crate::tools::{CallView, ToolEntry, tool_named};
use vstd::prelude::*;

verus! {

/// The number of the first line that is read: the one asked for, and the first line where none is.
pub open spec fn first_read(offset: Option<u64>) -> nat {
    match offset {
        Some(n) => if n >= 1 {
            n as nat
        } else {
            1
        },
        None => 1,
    }
}

/// How many lines are read at most.
pub open spec fn most_read(limit: Option<u64>) -> nat {
    match limit {
        Some(n) => if n < 2000 {
            n as nat
        } else {
            2000
        },
        None => 2000,
    }
}

proof fn lemma_numbered(v: Seq<Seq<char>>, from: int, to: int, k: int)
    requires
        0 <= from <= to <= v.len(),
        forall|i: int| 0 <= i < v.len() ==> !(#[trigger] v[i]).contains('\n'),
    ensures
        numbered_lines(v, from, to).len() == to - from,
        from <= k < to ==> numbered_lines(v, from, to)[k - from] == right_aligned(
            decimal((k + 1) as nat),
            6,
        ) + "\t"@ + v[k],
        forall|i: int|
            0 <= i < numbered_lines(v, from, to).len() ==> !(#[trigger] numbered_lines(
                v,
                from,
                to,
            )[i]).contains('\n'),
    decreases to - from,
{
    if to > from {
        lemma_numbered(v, from, to - 1, k);
        let w = numbered_lines(v, from, to - 1);
        let x = right_aligned(decimal(to as nat), 6) + "\t"@ + v[to - 1];
        lemma_no_newline_number(to as nat);
        reveal_strlit("\t");
        assert(!v[to - 1].contains('\n'));
        assert(!x.contains('\n')) by {
            if x.contains('\n') {
                let i = choose|i: int| 0 <= i < x.len() && x[i] == '\n';
                let head = right_aligned(decimal(to as nat), 6);
                if i < head.len() {
                    assert(head.contains('\n'));
                } else if i > head.len() {
                    assert(v[to - 1][i - head.len() - 1] == '\n');
                }
            }
        }
    }
}

proof fn lemma_no_newline_number(n: nat)
    ensures
        !right_aligned(decimal(n), 6).contains('\n'),
{
    lemma_decimal_plain(n);
    reveal_strlit(" ");
    let pad = repeat(" "@, pad_len(6, decimal(n).len()));
    let x = right_aligned(decimal(n), 6);
    if x.contains('\n') {
        let i = choose|i: int| 0 <= i < x.len() && x[i] == '\n';
        if i < pad.len() {
            law_repeated_text(" "@, pad_len(6, decimal(n).len()), i);
        } else {
            assert(decimal(n)[i - pad.len()] == '\n');
        }
    }
}

proof fn lemma_decimal_plain(n: nat)
    ensures
        forall|i: int| 0 <= i < decimal(n).len() ==> '0' <= #[trigger] decimal(n)[i] <= '9',
    decreases n,
{
    let d = digit_char(n % 10);
    assert('0' <= d <= '9');
    if n >= 10 {
        lemma_decimal_plain(n / 10);
        let before = decimal(n / 10);
        assert(decimal(n) == before.push(d));
        assert forall|i: int| 0 <= i < decimal(n).len() implies '0' <= #[trigger] decimal(n)[i]
            <= '9' by {
            if i < before.len() {
                assert(decimal(n)[i] == before[i]);
            }
        }
    } else {
        assert(decimal(n) =~= seq![d]);
    }
}

/// A number at the right end of a column stands behind blanks and nothing else.
pub proof fn law_aligned_number(s: Seq<char>, width: nat, i: int)
    ensures
        s.is_suffix_of(right_aligned(s, width)),
        right_aligned(s, width).len() == if s.len() < width {
            width
        } else {
            s.len()
        },
        0 <= i < right_aligned(s, width).len() - s.len() ==> right_aligned(s, width)[i] == ' ',
{
    reveal_strlit(" ");
    let n = pad_len(width, s.len());
    law_repeated_text(" "@, n, i);
    let x = right_aligned(s, width);
    assert(x.subrange(x.len() - s.len(), x.len() as int) =~= s);
}

/// What is read of a file are its own lines, from the first one asked for on and no more than were
/// asked for: each stands on a line of its own, behind its number.
pub proof fn law_read_shows_lines(text: Seq<char>, offset: Option<u64>, limit: Option<u64>, k: int)
    requires
        0 <= k < most_read(limit),
        first_read(offset) + k <= lines(text).len(),
    ensures
        ({
            let shown = split_on(read_text(text, offset, limit), '\n');
            let number = (first_read(offset) + k) as nat;
            &&& k < shown.len()
            &&& shown[k] == right_aligned(decimal(number), 6) + "\t"@ + lines(text)[number - 1]
        }),
{
    let v = lines(text);
    law_lines_are_of_the_text(text);
    let from = first_read(offset) - 1;
    assert(read_skip(offset) == from);
    assert(read_limit(limit) == most_read(limit));
    let end = from + most_read(limit);
    let to = if end < v.len() {
        end
    } else {
        v.len() as int
    };
    lemma_numbered(v, from, to, from + k);
    let body = numbered_lines(v, from, to);
    reveal_strlit("\n");
    assert("\n"@ =~= seq!['\n']);
    law_joined_parts_split(body, '\n');
    lemma_note_split(text, offset, limit);
}

/// The note behind what was read stands on a line of its own.
proof fn lemma_note_split(text: Seq<char>, offset: Option<u64>, limit: Option<u64>)
    requires
        first_read(offset) <= lines(text).len(),
        most_read(limit) > 0,
    ensures
        ({
            let v = lines(text);
            let from = first_read(offset) - 1;
            let end = from + most_read(limit);
            let to = if end < v.len() {
                end
            } else {
                v.len() as int
            };
            let body = numbered_lines(v, from, to);
            let shown = split_on(read_text(text, offset, limit), '\n');
            &&& body.len() >= 1
            &&& shown.len() >= body.len()
            &&& forall|k: int| 0 <= k < body.len() ==> #[trigger] shown[k] == body[k]
            &&& end >= v.len() ==> shown == body
            &&& end < v.len() ==> shown.len() == body.len() + 1 && starts_with_spec(
                shown.last(),
                "... (truncated at "@,
            )
        }),
{
    let v = lines(text);
    law_lines_are_of_the_text(text);
    let from = first_read(offset) - 1;
    let end = from + most_read(limit);
    let to = if end < v.len() {
        end
    } else {
        v.len() as int
    };
    lemma_numbered(v, from, to, from);
    let body = numbered_lines(v, from, to);
    reveal_strlit("\n");
    assert("\n"@ =~= seq!['\n']);
    law_joined_parts_split(body, '\n');
    if v.len() > end {
        let f = only('\n');
        let x = join(body, "\n"@);
        let lead = "\n... (truncated at "@;
        let tail = " lines; use offset and limit to read more)"@;
        let note = lead + decimal(most_read(limit)) + tail;
        reveal_strlit("\n... (truncated at ");
        reveal_strlit("... (truncated at ");
        reveal_strlit(" lines; use offset and limit to read more)");
        lemma_decimal_plain(most_read(limit));
        let rest = note.skip(1);
        assert forall|i: int| 0 <= i < rest.len() implies !f(#[trigger] rest[i]) by {
            if i + 1 < lead.len() {
                assert(rest[i] == lead[i + 1]);
            } else if i + 1 < lead.len() + decimal(most_read(limit)).len() {
                assert(rest[i] == decimal(most_read(limit))[i + 1 - lead.len()]);
            } else {
                assert(rest[i] == tail[i + 1 - lead.len() - decimal(most_read(limit)).len()]);
            }
        }
        lemma_split_none(rest, f);
        let y = x + seq!['\n'];
        assert(y.drop_last() =~= x);
        assert(split_by(y, f) == body.push(Seq::empty()));
        lemma_split_concat(y, rest, f);
        assert(body.push(Seq::<char>::empty()).drop_last() =~= body);
        assert(Seq::<char>::empty() + rest =~= rest);
        assert(read_text(text, offset, limit) =~= y + rest);
        let shown = split_on(read_text(text, offset, limit), '\n');
        assert(shown =~= body.push(rest));
        assert(rest.subrange(0, "... (truncated at "@.len() as int) =~= "... (truncated at "@);
    }
}

/// Where more lines follow than are read, that is said behind them, and nowhere else.
pub proof fn law_read_tells_of_more(text: Seq<char>, offset: Option<u64>, limit: Option<u64>)
    requires
        first_read(offset) <= lines(text).len(),
        most_read(limit) > 0,
    ensures
        ({
            let shown = split_on(read_text(text, offset, limit), '\n');
            let left = lines(text).len() - (first_read(offset) - 1);
            &&& left <= most_read(limit) ==> shown.len() == left
            &&& left > most_read(limit) ==> shown.len() == most_read(limit) + 1
                && starts_with_spec(shown.last(), "... (truncated at "@)
        }),
{
    let v = lines(text);
    law_lines_are_of_the_text(text);
    let from = first_read(offset) - 1;
    let end = from + most_read(limit);
    let to = if end < v.len() {
        end
    } else {
        v.len() as int
    };
    lemma_numbered(v, from, to, from);
    lemma_note_split(text, offset, limit);
}

/// What a command wrote comes back whole: what it wrote first, then its errors behind a mark, and
/// how it ended where that was no success.
pub proof fn law_command_output_is_told(
    out: Seq<char>,
    err: Seq<char>,
    success: bool,
    code: Option<i32>,
)
    ensures
        success && err.len() == 0 && out.len() > 0 ==> bash_text(out, err, success, code) == out,
        success && err.len() == 0 && out.len() == 0 ==> bash_text(out, err, success, code)
            == "(no output)"@,
        success && err.len() > 0 && out.len() == 0 ==> bash_text(out, err, success, code)
            == "[stderr]\n"@ + err,
        success && err.len() > 0 && out.len() > 0 ==> bash_text(out, err, success, code) == out
            + "\n[stderr]\n"@ + err,
        out.len() > 0 ==> out.is_prefix_of(bash_text(out, err, success, code)),
        !success ==> bash_text(out, err, success, code) == (if err.len() == 0 {
            out
        } else {
            bash_text(out, err, true, code)
        }) + "\n[exit code: "@ + signed_decimal(
            match code {
                Some(c) => c as int,
                None => -1,
            },
        ) + "]"@,
{
    reveal_strlit("\n");
    reveal_strlit("[stderr]\n");
    reveal_strlit("\n[stderr]\n");
    reveal_strlit("\n[exit code: ");
    let x = bash_text(out, err, success, code);
    assert("\n"@ + "[stderr]\n"@ =~= "\n[stderr]\n"@);
    assert(out + "\n"@ + "[stderr]\n"@ + err =~= out + "\n[stderr]\n"@ + err);
    if out.len() > 0 {
        assert(x.subrange(0, out.len() as int) =~= out);
    }
}

/// A number with a sign is its digits, behind a minus where it is negative.
pub proof fn law_signed_number(n: int)
    ensures
        n >= 0 ==> signed_decimal(n) == decimal(n as nat),
        n < 0 ==> signed_decimal(n) == seq!['-'] + decimal((-n) as nat),
{
    reveal_strlit("-");
    assert("-"@ =~= seq!['-']);
}

/// What was fetched comes back behind its status, whole where it is short enough, else its start.
pub proof fn law_fetched_body_is_told(status: u16, body: Seq<char>)
    ensures
        bytes_len(body) <= 32 * 1024 ==> fetched(status, body) == "[HTTP "@ + decimal(status as nat)
            + "]\n"@ + body,
        bytes_len(body) > 32 * 1024 ==> {
            let kept = byte_prefix(body, 32 * 1024);
            let head = "[HTTP "@ + decimal(status as nat) + "]\n"@ + kept;
            head.is_prefix_of(fetched(status, body)) && fetched(status, body).len() > head.len()
        },
{
    if bytes_len(body) > 32 * 1024 {
        let kept = byte_prefix(body, 32 * 1024);
        let head = "[HTTP "@ + decimal(status as nat) + "]\n"@ + kept;
        let x = fetched(status, body);
        reveal_strlit("\n... (truncated at 32KB, total ");
        assert(x.subrange(0, head.len() as int) =~= head);
    }
}

/// A match of a search is told by its file, its line number and its line.
pub proof fn law_match_is_told(raw: JsonView, path: Seq<char>, n: u64, line: Seq<char>)
    requires
        raw.at("data"@).at("path"@).at("text"@) == JsonView::Str(path),
        raw.at("data"@).at("line_number"@) == JsonView::Unsigned(n),
        raw.at("data"@).at("lines"@).at("text"@) == JsonView::Str(line) || raw.at("data"@).at(
            "lines"@,
        ).at("text"@) == JsonView::Str(line.push('\n')),
        line.len() == 0 || (line.last() != '\n' && line.last() != '\r'),
    ensures
        raw.at("type"@) == JsonView::Str("match"@) ==> match_line(raw) == Some(
            path + ":"@ + decimal(n as nat) + ": "@ + line,
        ),
        raw.at("type"@) != JsonView::Str("match"@) ==> match_line(raw) is None,
{
    reveal_with_fuel(without_line_ends, 3);
    assert(line.push('\n').drop_last() =~= line);
}

/// A search that ended with another code than found or not found is a failure, and what it wrote
/// of that is told; no other one is.
pub proof fn law_failed_search_is_told(run: SearchRun, label: Seq<char>)
    ensures
        run.code == Some(0i32) || run.code == Some(1i32) ==> search_failure(run, label) is None,
        !(run.code == Some(0i32) || run.code == Some(1i32)) ==> (search_failure(
            run,
            label,
        ) matches Some(f) && label.is_prefix_of(f.message) && trimmed(run.stderr@).is_suffix_of(
            f.message,
        )),
{
    if !(run.code == Some(0i32) || run.code == Some(1i32)) {
        let m = search_failure(run, label)->Some_0.message;
        let t = trimmed(run.stderr@);
        assert(m.subrange(0, label.len() as int) =~= label);
        assert(m.subrange(m.len() - t.len(), m.len() as int) =~= t);
    }
}

/// A list of results holds each of them, on a line of its own and in order; where there are too
/// many, the first ones and a note.
pub proof fn law_results_are_listed(v: Seq<Seq<char>>, max: nat, k: int)
    requires
        0 <= k < v.len(),
        k < max,
        forall|i: int| 0 <= i < v.len() ==> !(#[trigger] v[i]).contains('\n'),
    ensures
        ({
            let shown = split_on(first_results(v, max), '\n');
            &&& k < shown.len()
            &&& shown[k] == v[k]
            &&& v.len() <= max ==> shown == v
            &&& v.len() > max ==> shown.len() == max + 1
        }),
{
    reveal_strlit("\n");
    assert("\n"@ =~= seq!['\n']);
    if v.len() <= max {
        law_joined_parts_split(v, '\n');
    } else {
        let w = v.take(max as int);
        assert forall|i: int| 0 <= i < w.len() implies !(#[trigger] w[i]).contains('\n') by {
            assert(w[i] == v[i]);
        }
        law_joined_parts_split(w, '\n');
        let f = only('\n');
        let x = join(w, "\n"@);
        let lead = "\n... (truncated at "@;
        let tail = " results)"@;
        let note = lead + decimal(max) + tail;
        reveal_strlit("\n... (truncated at ");
        reveal_strlit(" results)");
        lemma_decimal_plain(max);
        let rest = note.skip(1);
        assert forall|i: int| 0 <= i < rest.len() implies !f(#[trigger] rest[i]) by {
            if i + 1 < lead.len() {
                assert(rest[i] == lead[i + 1]);
            } else if i + 1 < lead.len() + decimal(max).len() {
                assert(rest[i] == decimal(max)[i + 1 - lead.len()]);
            } else {
                assert(rest[i] == tail[i + 1 - lead.len() - decimal(max).len()]);
            }
        }
        lemma_split_none(rest, f);
        let y = x + seq!['\n'];
        assert(y.drop_last() =~= x);
        assert(split_by(y, f) == w.push(Seq::empty()));
        lemma_split_concat(y, rest, f);
        assert(w.push(Seq::<char>::empty()).drop_last() =~= w);
        assert(Seq::<char>::empty() + rest =~= rest);
        assert(first_results(v, max) =~= y + rest);
        assert(split_on(first_results(v, max), '\n') =~= w.push(rest));
    }
}

/// Where nothing was found, that is said.
pub proof fn law_no_result_is_told(max: nat)
    ensures
        first_results(Seq::empty(), max) == "no matches found"@,
{
}

/// What an expression matches.
pub open spec fn matched_by(re: Seq<char>) -> spec_fn(Seq<char>) -> bool {
    |p: Seq<char>| regex_match(re, p) == Ok::<bool, Seq<char>>(true)
}

/// A search by a pattern gives exactly the files that match it, each as often as it was given, in
/// the order of their names.
pub proof fn law_glob_gives_matches(re: Seq<char>, v: Seq<Seq<char>>)
    ensures
        matching_paths(re, v).to_multiset() == v.filter(matched_by(re)).to_multiset(),
        forall|i: int, j: int|
            0 <= i < j < matching_paths(re, v).len() ==> !#[trigger] text_lt(
                matching_paths(re, v)[j],
                matching_paths(re, v)[i],
            ),
    decreases v.len(),
{
    reveal(Seq::filter);
    let f = matched_by(re);
    if v.len() > 0 {
        law_glob_gives_matches(re, v.drop_last());
        let before = matching_paths(re, v.drop_last());
        if f(v.last()) {
            lemma_with_path(before, v.last());
            v.drop_last().filter(f).to_multiset_ensures();
        }
    } else {
        assert(matching_paths(re, v) =~= v.filter(f));
    }
}

proof fn lemma_with_path(v: Seq<Seq<char>>, p: Seq<char>)
    requires
        forall|i: int, j: int| 0 <= i < j < v.len() ==> !#[trigger] text_lt(v[j], v[i]),
    ensures
        with_path(v, p).to_multiset() == v.to_multiset().insert(p),
        forall|i: int, j: int|
            0 <= i < j < with_path(v, p).len() ==> !#[trigger] text_lt(
                with_path(v, p)[j],
                with_path(v, p)[i],
            ),
        forall|i: int|
            0 <= i < with_path(v, p).len() ==> v.contains(#[trigger] with_path(v, p)[i])
                || with_path(v, p)[i] == p,
        with_path(v, p).len() == v.len() + 1,
    decreases v.len(),
{
    let r = with_path(v, p);
    if v.len() > 0 && text_lt(p, v.last()) {
        let w = v.drop_last();
        assert forall|i: int, j: int| 0 <= i < j < w.len() implies !#[trigger] text_lt(
            w[j],
            w[i],
        ) by {
            assert(!text_lt(v[j], v[i]));
        }
        lemma_with_path(w, p);
        let q = with_path(w, p);
        q.to_multiset_ensures();
        w.to_multiset_ensures();
        assert(w.push(v.last()) =~= v);
        assert(r.to_multiset() =~= v.to_multiset().insert(p));
        assert forall|i: int| 0 <= i < r.len() implies v.contains(#[trigger] r[i]) || r[i] == p by {
            if i < q.len() {
                assert(r[i] == q[i]);
                if q[i] != p {
                    let k = choose|k: int| 0 <= k < w.len() && w[k] == q[i];
                    assert(v[k] == r[i]);
                }
            } else {
                assert(v[v.len() - 1] == r[i]);
            }
        }
        assert forall|i: int, j: int| 0 <= i < j < r.len() implies !#[trigger] text_lt(
            r[j],
            r[i],
        ) by {
            if j < q.len() {
                assert(!text_lt(q[j], q[i]));
            } else {
                assert(r[j] == v.last() && r[i] == q[i]);
                if q[i] == p {
                    lemma_text_lt_irreflexive(p);
                    if text_lt(v.last(), p) {
                        lemma_text_lt_transitive(p, v.last(), p);
                    }
                } else {
                    let k = choose|k: int| 0 <= k < w.len() && w[k] == q[i];
                    assert(!text_lt(v[v.len() - 1], v[k]));
                }
            }
        }
    } else {
        v.to_multiset_ensures();
        assert forall|i: int, j: int| 0 <= i < j < r.len() implies !#[trigger] text_lt(
            r[j],
            r[i],
        ) by {
            if j < v.len() {
                assert(!text_lt(v[j], v[i]));
            } else {
                assert(r[j] == p && r[i] == v[i]);
                if i < v.len() - 1 {
                    assert(!text_lt(v[v.len() - 1], v[i]));
                    if text_lt(p, v[i]) {
                        lemma_text_lt_total(v[i], v.last());
                        if v[i] != v.last() {
                            lemma_text_lt_transitive(p, v[i], v.last());
                        }
                    }
                }
            }
        }
        assert forall|i: int| 0 <= i < r.len() implies v.contains(#[trigger] r[i]) || r[i] == p by {
            if i < v.len() {
                assert(v[i] == r[i]);
            }
        }
    }
}

/// A pattern matches from end to end; a plain character stands for itself, a star for anything
/// within a name, two for anything at all, a question mark for one character.
pub proof fn law_pattern_is_read(p: Seq<char>, i: int)
    requires
        0 <= i < p.len(),
    ensures
        glob_regex(p).len() >= 2 && glob_regex(p)[0] == '^' && glob_regex(p).last() == '$',
        p[i] == '*' && i + 1 < p.len() && p[i + 1] == '*' ==> glob_from(p, i) == ".*"@ + glob_from(
            p,
            i + 2,
        ),
        p[i] == '*' && !(i + 1 < p.len() && p[i + 1] == '*') ==> glob_from(p, i) == "[^/]*"@
            + glob_from(p, i + 1),
        p[i] == '?' ==> glob_from(p, i) == "."@ + glob_from(p, i + 1),
        p[i] == '.' || p[i] == '+' || p[i] == '(' || p[i] == ')' || p[i] == '[' || p[i] == ']'
            || p[i] == '{' || p[i] == '}' || p[i] == '^' || p[i] == '$' || p[i] == '|' || p[i]
            == '\\' ==> glob_from(p, i) == seq!['\\', p[i]] + glob_from(p, i + 1),
        is_digit(p[i]) || is_ascii_letter(p[i]) || p[i] == '/' || p[i] == '_' || p[i] == '-'
            ==> glob_from(p, i) == seq![p[i]] + glob_from(p, i + 1),
{
    reveal_strlit("^");
    reveal_strlit("$");
    reveal_strlit("\\.");
    reveal_strlit("\\");
    assert("\\."@ =~= seq!['\\', '.']);
    assert("\\"@ + seq![p[i]] =~= seq!['\\', p[i]]);
    reveal_strlit("+()[]{}^$|\\");
    let sp = "+()[]{}^$|\\"@;
    assert(sp.len() == 11);
    assert(sp[0] == '+' && sp[1] == '(' && sp[2] == ')' && sp[3] == '[' && sp[4] == ']' && sp[5]
        == '{' && sp[6] == '}' && sp[7] == '^' && sp[8] == '$' && sp[9] == '|' && sp[10] == '\\');
    if is_special(p[i]) {
        let k = choose|k: int| 0 <= k < sp.len() && sp[k] == p[i];
        assert(!is_digit(p[i]) && !is_ascii_letter(p[i]));
    }
}

/// The matches of a search are those that its output tells, in order, the first ones of them where
/// there are too many.
pub proof fn law_matches_are_taken_over(
    v: Seq<Seq<char>>,
    raws: Seq<JsonView>,
    told: Seq<Seq<char>>,
    max: nat,
)
    requires
        v.len() == raws.len() == told.len(),
        forall|i: int|
            0 <= i < v.len() ==> !is_blank(#[trigger] v[i]) && parsed_json(v[i]) == Ok::<
                JsonView,
                Seq<char>,
            >(raws[i]) && match_line(raws[i]) == Some(told[i]),
    ensures
        matches_of(v, max) matches Ok(m) && m.found == (if told.len() <= max {
            told
        } else {
            told.take(max as int)
        }) && m.more == (told.len() > max),
    decreases v.len(),
{
    if v.len() == 0 {
        assert(matches_of(v, max)->Ok_0.found =~= told);
    } else {
        let w = v.drop_last();
        assert forall|i: int| 0 <= i < w.len() implies !is_blank(#[trigger] w[i]) && parsed_json(
            w[i],
        ) == Ok::<JsonView, Seq<char>>(raws.drop_last()[i]) && match_line(raws.drop_last()[i])
            == Some(told.drop_last()[i]) by {
            assert(w[i] == v[i]);
        }
        law_matches_are_taken_over(w, raws.drop_last(), told.drop_last(), max);
        assert(!is_blank(v[v.len() - 1]));
        let m = matches_of(v, max)->Ok_0;
        if told.len() <= max {
            assert(m.found =~= told);
        } else {
            assert(told.drop_last().take(max as int) =~= told.take(max as int));
            if told.len() - 1 == max {
                assert(told.drop_last() =~= told.take(max as int));
            }
        }
    }
}

/// Blank lines and events that are no matches count for nothing, and output that is no JSON is a
/// failure.
pub proof fn law_other_output_is_skipped(v: Seq<Seq<char>>, line: Seq<char>, max: nat)
    requires
        matches_of(v, max) is Ok,
    ensures
        is_blank(line) ==> matches_of(v.push(line), max) == matches_of(v, max),
        !is_blank(line) && parsed_json(line) is Err ==> matches_of(v.push(line), max) is Err,
        !is_blank(line) && (parsed_json(line) matches Ok(raw) && match_line(raw) is None)
            ==> matches_of(v.push(line), max) == matches_of(v, max),
{
    assert(v.push(line).drop_last() =~= v);
}

/// A search in some mode gives what its output holds: in the one mode the matches, in the others
/// its lines that are not blank.
pub proof fn law_search_output_is_used(mode: Seq<char>, run: SearchRun)
    requires
        run.code == Some(0i32) || run.code == Some(1i32),
    ensures
        mode == "content"@ && (matches_of(lines(run.stdout@), 50) matches Ok(m) && !m.more
            && m.found.len() > 0) ==> grep_outcome(mode, run) == Ok::<Seq<char>, Failure>(
            join(matches_of(lines(run.stdout@), 50)->Ok_0.found, seq!['\n']),
        ),
        mode != "content"@ ==> grep_outcome(mode, run) == Ok::<Seq<char>, Failure>(
            first_results(lines(run.stdout@).filter(|l: Seq<char>| !is_blank(l)), 50),
        ),
{
    reveal_strlit("\n");
    assert("\n"@ =~= seq!['\n']);
    lemma_full_lines(lines(run.stdout@));
}

proof fn lemma_full_lines(v: Seq<Seq<char>>)
    ensures
        full_lines(v) == v.filter(|l: Seq<char>| !is_blank(l)),
    decreases v.len(),
{
    reveal(Seq::filter);
    if v.len() > 0 {
        lemma_full_lines(v.drop_last());
    } else {
        assert(full_lines(v) =~= v.filter(|l: Seq<char>| !is_blank(l)));
    }
}

/// A search looks for the pattern in the path that were asked for, behind the mark that ends the
/// options, and by the filter where there is one.
pub proof fn law_search_asks_for_pattern(
    mode: Seq<char>,
    pattern: Seq<char>,
    path: Seq<char>,
    filter: Option<Seq<char>>,
)
    ensures
        grep_args(mode, pattern, path, filter) matches Ok(v) ==> {
            &&& v.len() >= 3
            &&& v[v.len() - 1] == path
            &&& v[v.len() - 2] == pattern
            &&& v[v.len() - 3] == "--"@
            &&& filter matches Some(g) ==> v.contains(g)
            &&& mode == "content"@ ==> v.contains("--json"@)
            &&& mode == "files_with_matches"@ ==> v.contains("-l"@)
            &&& mode == "count"@ ==> v.contains("-c"@)
        },
        grep_args(mode, pattern, path, filter) is Ok <==> (mode == "content"@ || mode
            == "files_with_matches"@ || mode == "count"@),
{
    reveal_strlit("content");
    reveal_strlit("files_with_matches");
    reveal_strlit("count");
    assert("content"@.len() == 7 && "files_with_matches"@.len() == 18 && "count"@.len() == 5);
    if let Ok(v) = grep_args(mode, pattern, path, filter) {
        let base = common_args(filter);
        let n = base.len() as int;
        if mode == "content"@ {
            assert(v[n] == "--json"@);
        } else if mode == "files_with_matches"@ {
            assert(v[n] == "-l"@);
        } else {
            assert(v[n] == "-c"@);
        }
        if let Some(g) = filter {
            assert(v[n - 1] == g);
        }
    }
}

/// A call asks for what its arguments say.
pub proof fn law_call_is_understood(a: JsonView, t: Seq<char>, u: Seq<char>, n: u64, m: u64)
    ensures
        a.at("file_path"@) == JsonView::Str(t) && a.at("offset"@) == JsonView::Unsigned(n) && a.at(
            "limit"@,
        ) == JsonView::Unsigned(m) ==> plan_for("Read"@, a) == Ok::<PlanView, Failure>(
            PlanView::Read(t, Some(n), Some(m)),
        ),
        a.at("file_path"@) is Null && a.at("path"@) == JsonView::Str(t) && a.at("offset"@) is Null
            && a.at("limit"@) is Null ==> plan_for("Read"@, a) == Ok::<PlanView, Failure>(
            PlanView::Read(t, None, None),
        ),
        a.at("command"@) == JsonView::Str(t) ==> plan_for("Bash"@, a) == Ok::<PlanView, Failure>(
            PlanView::Bash(t),
        ),
        a.at("url"@) == JsonView::Str(t) ==> plan_for("WebFetch"@, a) == Ok::<PlanView, Failure>(
            PlanView::Fetch(t),
        ),
        a.at("pattern"@) == JsonView::Str(t) && a.at("path"@) == JsonView::Str(u) ==> plan_for(
            "Glob"@,
            a,
        ) == Ok::<PlanView, Failure>(PlanView::Glob(t, u)),
        a.at("pattern"@) == JsonView::Str(t) && a.at("path"@) is Null ==> plan_for("Glob"@, a)
            == Ok::<PlanView, Failure>(PlanView::Glob(t, "."@)),
        a.at("pattern"@) == JsonView::Str(t) && a.at("path"@) == JsonView::Str(u) && a.at(
            "glob"@,
        ) is Null && a.at("include"@) is Null && a.at("output_mode"@) is Null ==> plan_for(
            "Grep"@,
            a,
        ) == Ok::<PlanView, Failure>(PlanView::Grep(t, u, None, "files_with_matches"@)),
        a.at("pattern"@) == JsonView::Str(t) && a.at("path"@) is Null && a.at("glob"@)
            == JsonView::Str(u) && a.at("output_mode"@) == JsonView::Str("count"@) ==> plan_for(
            "Grep"@,
            a,
        ) == Ok::<PlanView, Failure>(PlanView::Grep(t, "."@, Some(u), "count"@)),
        a.at("query"@) == JsonView::Str(t) && a.at("max_results"@) == JsonView::Unsigned(n)
            ==> plan_for("ToolSearch"@, a) == Ok::<PlanView, Failure>(PlanView::Search(t, n)),
        a.at("query"@) == JsonView::Str(t) && a.at("max_results"@) is Null ==> plan_for(
            "ToolSearch"@,
            a,
        ) == Ok::<PlanView, Failure>(PlanView::Search(t, 5)),
        a.at("query"@) == JsonView::Str(t) ==> plan_for("SkillsList"@, a) == Ok::<
            PlanView,
            Failure,
        >(PlanView::SkillsList(Some(t))),
        a.at("name"@) == JsonView::Str(t) && a.at("scope"@) == JsonView::Str(u) ==> plan_for(
            "SkillRead"@,
            a,
        ) == Ok::<PlanView, Failure>(PlanView::SkillRead(t, Some(u))),
        a.at("file_path"@) == JsonView::Str(t) && a.at("old_string"@) == JsonView::Str(u) && a.at(
            "new_string"@,
        ) == JsonView::Str(t + u) ==> plan_for("Edit"@, a) == Ok::<PlanView, Failure>(
            PlanView::Edit(t, u, t + u, a.at("replace_all"@) == JsonView::Bool(true)),
        ),
        a.at("command"@) is Null ==> plan_for("Bash"@, a) is Err,
        a.at("url"@) is Null ==> plan_for("WebFetch"@, a) is Err,
        a.at("pattern"@) is Null ==> plan_for("Glob"@, a) is Err && plan_for("Grep"@, a) is Err,
        a.at("file_path"@) is Null && a.at("path"@) is Null ==> plan_for("Read"@, a) is Err
            && plan_for("Edit"@, a) is Err,
{
    reveal_strlit("ToolSearch");
    reveal_strlit("Read");
    reveal_strlit("Edit");
    reveal_strlit("Bash");
    reveal_strlit("Grep");
    reveal_strlit("Glob");
    reveal_strlit("WebFetch");
    reveal_strlit("SkillsList");
    reveal_strlit("SkillRead");
    assert("ToolSearch"@.len() == 10 && "Read"@.len() == 4 && "Edit"@.len() == 4 && "Bash"@.len()
        == 4 && "Grep"@.len() == 4 && "Glob"@.len() == 4 && "WebFetch"@.len() == 8
        && "SkillsList"@.len() == 10 && "SkillRead"@.len() == 9);
    assert("ToolSearch"@[0] == 'T' && "SkillsList"@[0] == 'S');
    assert("Read"@[0] == 'R' && "Edit"@[0] == 'E' && "Bash"@[0] == 'B' && "Grep"@[1] == 'r'
        && "Glob"@[1] == 'l' && "Grep"@[0] == 'G' && "Glob"@[0] == 'G');
}

/// What a user answers is understood: a yes, a no, a replacement or feedback, whatever the case of
/// the letters and the white space around.
pub proof fn law_answers_are_understood(input: Seq<char>, editable: bool)
    ensures
        ascii_lower(trimmed(input)) == "y"@ || ascii_lower(trimmed(input)) == "yes"@ || is_blank(
            input,
        ) ==> confirmed(input, editable) == Some(Confirmed::Yes),
        ascii_lower(trimmed(input)) == "n"@ || ascii_lower(trimmed(input)) == "no"@ ==> confirmed(
            input,
            editable,
        ) == Some(Confirmed::No(None)),
        confirmed(input, editable) matches Some(Confirmed::No(Some(f))) ==> editable && f == trimmed(
            input,
        ),
        confirmed(input, editable) matches Some(Confirmed::Edit(t)) ==> editable && t.len() > 0
            && starts_with_spec(ascii_lower(trimmed(input)), "e"@) && t.len() < trimmed(input).len(),
{
    reveal_strlit("y");
    reveal_strlit("yes");
    reveal_strlit("n");
    reveal_strlit("no");
    reveal_strlit("e");
    reveal_strlit("edit ");
    reveal_strlit("e ");
    assert("y"@.len() == 1 && "yes"@.len() == 3 && "n"@.len() == 1 && "no"@.len() == 2);
    assert("y"@[0] == 'y' && "n"@[0] == 'n');
    let t = trimmed(input);
    let low = ascii_lower(t);
    if let Some(Confirmed::Edit(x)) = confirmed(input, editable) {
        if starts_with_spec(low, "edit "@) {
            lemma_trimmed_len(t.skip(4));
            assert(low.subrange(0, 5)[0] == low[0]);
        } else {
            lemma_trimmed_len(t.skip(1));
            assert(low.subrange(0, 2)[0] == low[0]);
        }
        assert(low.subrange(0, 1) =~= "e"@);
    }
}

/// A call asks for the same under every name of its tool, and one of an unknown tool for nothing.
pub proof fn law_plan_by_any_name(c: CallView, t: ToolEntry)
    ensures
        tool_named(c.name) == Some(t) ==> call_plan(c) == plan_for(t.name@, c.arguments),
        tool_named(c.name) is None ==> call_plan(c) == Ok::<PlanView, Failure>(
            PlanView::Unknown(c.name),
        ),
{
}

/// What is confirmed beforehand goes ahead, what nobody can be asked about does not, and else the
/// answer decides; what the user said is passed on.
pub proof fn law_answer_decides(input: Seq<char>, editable: bool, action: Seq<char>, f: Seq<char>)
    ensures
        decided(true, Some(input), editable) == Some(Confirmed::Yes),
        decided(true, None, editable) == Some(Confirmed::Yes),
        decided(false, None, editable) is Some && decided(false, None, editable)->Some_0 is No,
        decided(false, Some(input), editable) == confirmed(input, editable),
        f.is_suffix_of(declined(action, Some(f))),
        starts_with_spec(declined(action, Some(f)), "user declined the "@ + action),
        declined(action, None) == "user declined the "@ + action,
{
    let head = "user declined the "@ + action;
    let mid = head + ". user feedback: "@;
    assert((mid + f).skip(mid.len() as int) =~= f);
    assert(mid + f =~= head + (". user feedback: "@ + f));
}

/// A file in the current directory is shown by its name, and where no directory is known a path is
/// shown as it is.
pub proof fn law_path_is_shown(dir: Seq<char>, name: Seq<char>, path: Seq<char>)
    requires
        is_rooted(dir),
        name.len() > 0,
        name != "."@,
        !name.contains('/'),
    ensures
        shown_path(dir + "/"@ + name, Some(dir)) == name,
        shown_path(path, None) == path,
        !is_rooted(path) ==> shown_path(path, Some(dir)) == path,
{
    law_below_keeps_name(dir, name);
}

/// A glob that can be read gives its first results, and one that cannot is an error.
pub proof fn law_glob_is_answered(pattern: Seq<char>, files: Seq<Seq<char>>)
    ensures
        regex_match(glob_regex(pattern), Seq::empty()) is Ok ==> glob_outcome(pattern, files)
            == Ok::<Seq<char>, Failure>(
            first_results(matching_paths(glob_regex(pattern), files), 100),
        ),
        regex_match(glob_regex(pattern), Seq::empty()) is Err ==> (glob_outcome(pattern, files)
            matches Err(e) && e.code == EXIT_ARGS),
{
}

} // verus!
