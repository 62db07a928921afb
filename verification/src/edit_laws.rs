//! What an edit is for: the text that was named is replaced, everything else stays, and what is
//! shown beforehand is what is done.

use crate::diff::{edit_place, edited_block, line_at, line_starts, starts_upto};
use crate::edit::{EditRequest, FileStatus, FileText, edit_outcome, places, places_from, refusal};
use crate::text::{ends_with_spec, is_blank, matches_at, replaced_from};
use vstd::prelude::*;

verus! {

/// Where the search for the place number `k` starts: behind the place before it.
pub open spec fn search_start(at: Seq<int>, n: nat, k: int) -> int {
    if k <= 0 {
        0
    } else {
        at[k - 1] + n
    }
}

/// Whether places are all those at which a text stands in another one, from left to right and
/// none overlapping the one before.
pub open spec fn are_places(s: Seq<char>, p: Seq<char>, at: Seq<int>) -> bool {
    &&& forall|k: int|
        0 <= k < at.len() ==> {
            &&& search_start(at, p.len(), k) <= #[trigger] at[k]
            &&& at[k] + p.len() <= s.len()
            &&& s.subrange(at[k], at[k] + p.len()) == p
        }
    &&& forall|k: int, j: int|
        0 <= k < at.len() && search_start(at, p.len(), k) <= j < #[trigger] at[k]
            ==> !#[trigger] stands_at(s, p, j)
    &&& forall|j: int|
        search_start(at, p.len(), at.len() as int) <= j ==> !#[trigger] stands_at(s, p, j)
}

/// Whether a text stands at an index of another one.
pub open spec fn stands_at(s: Seq<char>, p: Seq<char>, j: int) -> bool {
    0 <= j && j + p.len() <= s.len() && s.subrange(j, j + p.len()) == p
}

/// A text from an index on, with another text put in the place of the `n` characters at each of
/// the places from number `k` on.
pub open spec fn spliced(
    s: Seq<char>,
    at: Seq<int>,
    n: nat,
    to: Seq<char>,
    k: int,
    from: int,
) -> Seq<char>
    decreases at.len() - k,
{
    if k < 0 || k >= at.len() {
        s.skip(from)
    } else {
        s.subrange(from, at[k]) + to + spliced(s, at, n, to, k + 1, at[k] + n)
    }
}

proof fn lemma_spliced(
    s: Seq<char>,
    p: Seq<char>,
    to: Seq<char>,
    at: Seq<int>,
    k: int,
    i: int,
)
    requires
        p.len() > 0,
        are_places(s, p, at),
        0 <= k <= at.len(),
        0 <= i <= s.len(),
        search_start(at, p.len(), k) <= i,
        k < at.len() ==> i <= at[k],
    ensures
        replaced_from(s, p, to, i) == spliced(s, at, p.len(), to, k, i),
        places_from(s, p, i) == at.skip(k),
    decreases s.len() - i,
{
    if i == s.len() {
        if k < at.len() {
            assert(at[k] + p.len() <= s.len());
        }
        assert(s.skip(i) =~= Seq::<char>::empty());
        assert(at.skip(k) =~= Seq::<int>::empty());
    } else if k < at.len() && i == at[k] {
        assert(matches_at(s, p, i));
        assert(search_start(at, p.len(), k + 1) == at[k] + p.len());
        if k + 1 < at.len() {
            assert(search_start(at, p.len(), k + 1) <= at[k + 1]);
        }
        lemma_spliced(s, p, to, at, k + 1, i + p.len());
        assert(s.subrange(i, i) =~= Seq::<char>::empty());
        assert(Seq::<char>::empty() + to =~= to);
        assert(seq![i] + at.skip(k + 1) =~= at.skip(k));
    } else {
        assert(!stands_at(s, p, i));
        lemma_spliced(s, p, to, at, k, i + 1);
        if k < at.len() {
            let rest = spliced(s, at, p.len(), to, k + 1, at[k] + p.len());
            assert(s.subrange(i, at[k]) =~= seq![s[i]] + s.subrange(i + 1, at[k]));
            assert(seq![s[i]] + (s.subrange(i + 1, at[k]) + to + rest) =~= s.subrange(i, at[k]) + to
                + rest);
        } else {
            assert(s.skip(i) =~= seq![s[i]] + s.skip(i + 1));
        }
    }
}

proof fn lemma_places_from(s: Seq<char>, p: Seq<char>, i: int)
    requires
        p.len() > 0,
        0 <= i <= s.len(),
    ensures
        ({
            let at = places_from(s, p, i);
            &&& forall|k: int|
                0 <= k < at.len() ==> {
                    &&& i <= #[trigger] at[k]
                    &&& at[k] + p.len() <= s.len()
                    &&& s.subrange(at[k], at[k] + p.len()) == p
                    &&& k > 0 ==> at[k - 1] + p.len() <= at[k]
                }
            &&& forall|k: int, j: int|
                0 <= k < at.len() && (if k == 0 {
                    i
                } else {
                    at[k - 1] + p.len()
                }) <= j < #[trigger] at[k] ==> !#[trigger] stands_at(s, p, j)
            &&& forall|j: int|
                (if at.len() == 0 {
                    i
                } else {
                    at.last() + p.len()
                }) <= j ==> !#[trigger] stands_at(s, p, j)
        }),
    decreases s.len() - i,
{
    let at = places_from(s, p, i);
    if i < s.len() {
        if matches_at(s, p, i) {
            lemma_places_from(s, p, i + p.len());
            let rest = places_from(s, p, i + p.len());
            assert(at == seq![i] + rest);
            assert forall|k: int| 0 <= k < at.len() implies {
                &&& i <= #[trigger] at[k]
                &&& at[k] + p.len() <= s.len()
                &&& s.subrange(at[k], at[k] + p.len()) == p
                &&& k > 0 ==> at[k - 1] + p.len() <= at[k]
            } by {
                if k > 0 {
                    assert(at[k] == rest[k - 1]);
                    if k > 1 {
                        assert(at[k - 1] == rest[k - 2]);
                    }
                }
            }
            assert forall|k: int, j: int|
                0 <= k < at.len() && (if k == 0 {
                    i
                } else {
                    at[k - 1] + p.len()
                }) <= j < #[trigger] at[k] implies !#[trigger] stands_at(s, p, j) by {
                assert(at[k] == rest[k - 1]);
                if k > 1 {
                    assert(at[k - 1] == rest[k - 2]);
                }
            }
            assert forall|j: int|
                (if at.len() == 0 {
                    i
                } else {
                    at.last() + p.len()
                }) <= j implies !#[trigger] stands_at(s, p, j) by {
                if rest.len() > 0 {
                    assert(at.last() == rest.last());
                }
            }
        } else {
            lemma_places_from(s, p, i + 1);
            assert(at == places_from(s, p, i + 1));
            assert(!stands_at(s, p, i));
        }
    } else {
        assert(at.len() == 0);
    }
}

/// The places that an edit finds are all those at which the old text stands.
pub proof fn law_every_place_is_found(s: Seq<char>, p: Seq<char>)
    requires
        p.len() > 0,
    ensures
        are_places(s, p, places(s, p)),
{
    lemma_places_from(s, p, 0);
    let at = places(s, p);
    assert forall|k: int| 0 <= k < at.len() implies {
        &&& search_start(at, p.len(), k) <= #[trigger] at[k]
        &&& at[k] + p.len() <= s.len()
        &&& s.subrange(at[k], at[k] + p.len()) == p
    } by {}
    assert forall|k: int, j: int|
        0 <= k < at.len() && search_start(at, p.len(), k) <= j < #[trigger] at[k]
            implies !#[trigger] stands_at(s, p, j) by {}
    assert forall|j: int|
        search_start(at, p.len(), at.len() as int) <= j implies !#[trigger] stands_at(s, p, j) by {}
}

/// An edit that is carried out puts the new text in the place of the old one, at every place where
/// it stands, once, and changes nothing else. It is carried out where the old text stands once,
/// or at least once where all are to be replaced, and refused where it does not.
pub proof fn law_edit_replaces_places(
    r: EditRequest,
    status: FileStatus,
    text: String,
    at: Seq<int>,
)
    requires
        r.old_string@.len() > 0,
        r.old_string@ != r.new_string@,
        are_places(text@, r.old_string@, at),
    ensures
        edit_outcome(r, status, FileText::Text(text)) matches Ok((content, _)) ==> content
            == spliced(text@, at, r.old_string@.len(), r.new_string@, 0, 0) && at.len() >= 1 && (
        at.len() == 1 || r.replace_all),
        refusal(r.path@, r.old_string@, r.new_string@, status) is None && (at.len() == 1 || (
        at.len() > 1 && r.replace_all)) ==> edit_outcome(r, status, FileText::Text(text)) is Ok,
{
    lemma_spliced(text@, r.old_string@, r.new_string@, at, 0, 0);
    assert(at.skip(0) =~= at);
}

/// An edit without an old text writes a new file: its text is the new text. It never touches a
/// file that holds anything, and an old text is never looked for in a file that is missing.
pub proof fn law_new_file_is_written(r: EditRequest, status: FileStatus, file: FileText)
    ensures
        r.old_string@.len() == 0 && (edit_outcome(r, status, file) matches Ok((content, _)))
            ==> edit_outcome(r, status, file)->Ok_0.0 == r.new_string@,
        r.old_string@.len() == 0 && (file matches FileText::Text(t) && !is_blank(t@))
            ==> edit_outcome(r, status, file) is Err,
        r.old_string@.len() == 0 && r.new_string@.len() > 0 && file is Missing && status is Missing
            && !ends_with_spec(r.path@, ".ipynb"@) ==> edit_outcome(r, status, file) is Ok,
        r.old_string@.len() > 0 && file is Missing ==> edit_outcome(r, status, file) is Err,
        file is Problem ==> edit_outcome(r, status, file) is Err,
        status is Problem ==> edit_outcome(r, status, file) is Err,
        r.old_string@ == r.new_string@ ==> edit_outcome(r, status, file) is Err,
        ends_with_spec(r.path@, ".ipynb"@) ==> edit_outcome(r, status, file) is Err,
        (status matches FileStatus::Size(n) && n > 1024 * 1024 * 1024) ==> edit_outcome(
            r,
            status,
            file,
        ) is Err,
{
}

proof fn lemma_line_at(starts: Seq<int>, o: int)
    requires
        starts.len() >= 1,
        starts[0] == 0,
        0 <= o,
        forall|k: int, l: int| 0 <= k < l < starts.len() ==> starts[k] < starts[l],
    ensures
        0 <= line_at(starts, o) < starts.len(),
        starts[line_at(starts, o)] <= o,
        line_at(starts, o) + 1 < starts.len() ==> o < starts[line_at(starts, o) + 1],
    decreases starts.len(),
{
    if starts.len() > 1 && starts.last() > o {
        let t = starts.drop_last();
        lemma_line_at(t, o);
        assert(line_at(starts, o) == line_at(t, o));
    }
}

proof fn lemma_starts_of(s: Seq<char>, i: int)
    requires
        0 <= i <= s.len(),
    ensures
        starts_upto(s, i).len() >= 1,
        starts_upto(s, i)[0] == 0,
        forall|k: int|
            0 <= k < starts_upto(s, i).len() ==> 0 <= #[trigger] starts_upto(s, i)[k] <= i,
        forall|k: int|
            0 < k < starts_upto(s, i).len() ==> s[(#[trigger] starts_upto(s, i)[k]) - 1] == '\n',
        forall|k: int, l: int|
            0 <= k < l < starts_upto(s, i).len() ==> starts_upto(s, i)[k] < starts_upto(s, i)[l],
    decreases i,
{
    if i > 0 {
        lemma_starts_of(s, i - 1);
    }
}

/// What a preview compares are whole lines around a place, before and after the edit: put where
/// they were, the lines after the edit give the edited text.
pub proof fn law_preview_shows_edited_lines(s: Seq<char>, at: int, len: int, to: Seq<char>)
    requires
        0 <= at,
        len > 0,
        at + len <= s.len(),
    ensures
        ({
            let p = edit_place(s, at, len);
            &&& 0 <= p.start <= at
            &&& at + len <= p.end <= s.len()
            &&& p.start == 0 || s[p.start - 1] == '\n'
            &&& p.end == s.len() || s[p.end - 1] == '\n'
            &&& s.take(p.start) + edited_block(s, p, at, len, to) + s.skip(p.end) == s.take(at) + to
                + s.skip(at + len)
        }),
{
    let starts = line_starts(s);
    lemma_starts_of(s, s.len() as int);
    lemma_line_at(starts, at);
    lemma_line_at(starts, at + len - 1);
    let p = edit_place(s, at, len);
    assert(s.take(p.start) + edited_block(s, p, at, len, to) + s.skip(p.end) =~= s.take(at) + to
        + s.skip(at + len));
}

} // verus!
