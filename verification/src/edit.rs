//! Editing of files: which edits are allowed, what they make of a file and how they are shown.

use crate::config::text_result;
use crate::diff::{
    build_edit_preview_diff, build_full_file_diff, cuts_out, edit_diff, full_diff, ints,
};
use crate::error::{AppError, AppResult, EXIT_ARGS, Failure, failure};
use crate::text::{
    blank, byte_len, bytes_len, chars_of, decimal, decimal_string, ends_with, ends_with_spec,
    is_at, is_blank, lemma_bytes_len_concat, lemma_bytes_len_prefix, lemma_head_of_prefix,
    lemma_take_full, lemma_take_step, matches_at, replace, replaced, replaced_from, str_eq,
    substring,
};
use vstd::prelude::*;

verus! {

/// What is at a path.
#[derive(Debug)]
pub enum FileStatus {
    Missing,
    Size(u64),
    Problem(String),
}

/// Files above this size are not edited.
pub const MAX_EDIT_FILE_SIZE_BYTES: u64 = 1073741824;

pub open spec fn edit_failure(message: Seq<char>) -> Failure {
    failure(EXIT_ARGS, message)
}

/// Why an edit is refused before the file is read, if it is.
pub open spec fn refusal(
    path: Seq<char>,
    old_text: Seq<char>,
    new_text: Seq<char>,
    status: FileStatus,
) -> Option<Failure> {
    if old_text == new_text {
        Some(edit_failure("Edit: old_string and new_string are identical"@))
    } else if ends_with_spec(path, ".ipynb"@) {
        Some(edit_failure("Edit: notebook files are not supported by this tool"@))
    } else {
        match status {
            FileStatus::Missing => None,
            FileStatus::Size(n) => if n > MAX_EDIT_FILE_SIZE_BYTES {
                Some(
                    edit_failure(
                        "Edit: file exceeds max editable size ("@ + decimal(
                            MAX_EDIT_FILE_SIZE_BYTES as nat,
                        ) + " bytes)"@,
                    ),
                )
            } else {
                None
            },
            FileStatus::Problem(m) => Some(
                edit_failure("failed to inspect `"@ + path + "`: "@ + m@),
            ),
        }
    }
}

pub fn validate_edit_inputs(path: &str, old_string: &str, new_string: &str, status: &FileStatus) -> (r:
    AppResult<()>)
    ensures
        match refusal(path@, old_string@, new_string@, *status) {
            None => r is Ok,
            Some(f) => r matches Err(e) && e@ == f,
        },
{
    if str_eq(old_string, new_string) {
        return Err(AppError::new(EXIT_ARGS, "Edit: old_string and new_string are identical"));
    }
    if ends_with(path, ".ipynb") {
        return Err(
            AppError::new(EXIT_ARGS, "Edit: notebook files are not supported by this tool"),
        );
    }
    match status {
        FileStatus::Missing => Ok(()),
        FileStatus::Size(n) => {
            if *n > MAX_EDIT_FILE_SIZE_BYTES {
                let message = "Edit: file exceeds max editable size (".to_owned().concat(
                    decimal_string(MAX_EDIT_FILE_SIZE_BYTES).as_str(),
                ).concat(" bytes)");
                Err(AppError::new(EXIT_ARGS, message.as_str()))
            } else {
                Ok(())
            }
        },
        FileStatus::Problem(m) => {
            let message = "failed to inspect `".to_owned().concat(path).concat("`: ").concat(
                m.as_str(),
            );
            Err(AppError::new(EXIT_ARGS, message.as_str()))
        },
    }
}

/// The places from index `i` on at which a text stands in another one, none overlapping the one
/// before.
pub open spec fn places_from(s: Seq<char>, p: Seq<char>, i: int) -> Seq<int>
    decreases s.len() - i,
{
    if p.len() == 0 || i < 0 || i >= s.len() {
        Seq::empty()
    } else if matches_at(s, p, i) {
        seq![i] + places_from(s, p, i + p.len())
    } else {
        places_from(s, p, i + 1)
    }
}

/// The places at which a text stands in another one.
pub open spec fn places(s: Seq<char>, p: Seq<char>) -> Seq<int> {
    places_from(s, p, 0)
}

pub fn match_places(s: &str, p: &str) -> (r: Vec<usize>)
    requires
        p@.len() > 0,
    ensures
        ints(r@) == places(s@, p@),
        forall|i: int| 0 <= i < r@.len() ==> #[trigger] r@[i] + p@.len() <= s@.len(),
{
    let c = chars_of(s);
    let q = chars_of(p);
    let n: usize = c.len();
    let mut out: Vec<usize> = Vec::new();
    let mut i: usize = 0;
    proof {
        assert(ints(out@) + places(s@, p@) =~= places(s@, p@));
    }
    while i < n
        invariant
            i <= n,
            n == c@.len(),
            c@ == s@,
            q@ == p@,
            p@.len() > 0,
            ints(out@) + places_from(s@, p@, i as int) == places(s@, p@),
            forall|k: int| 0 <= k < out@.len() ==> #[trigger] out@[k] + p@.len() <= s@.len(),
        decreases n - i,
    {
        if is_at(c.as_slice(), q.as_slice(), i) {
            let ghost before = ints(out@);
            out.push(i);
            i = i + q.len();
            proof {
                let tail = places_from(s@, p@, i as int);
                let at = i - p@.len();
                assert(ints(out@) =~= before.push(at));
                assert(before + (seq![at] + tail) =~= before.push(at) + tail);
            }
        } else {
            i = i + 1;
        }
    }
    proof {
        assert(ints(out@) + Seq::<int>::empty() =~= ints(out@));
    }
    out
}

/// A file as it was found: its text, or why it could not be read; nothing where it is missing.
#[derive(Debug)]
pub enum FileText {
    Missing,
    Text(String),
    Problem(String),
}

/// What an edit does to a file.
pub enum EditView {
    /// Writes a whole new file.
    Create,
    /// Replaces a text at some places.
    Replace(Seq<int>),
}

/// What an edit of a file comes to: an empty old text makes a new file, or fills a blank one;
/// another old text has to be there, and only once unless all are replaced.
pub open spec fn edit_kind(
    path: Seq<char>,
    old_text: Seq<char>,
    replace_all: bool,
    file: FileText,
) -> Result<EditView, Failure> {
    match file {
        FileText::Missing => if old_text.len() == 0 {
            Ok(EditView::Create)
        } else {
            Err(
                edit_failure(
                    "Edit: `"@ + path
                        + "` does not exist; use old_string=\"\" to create a new file"@,
                ),
            )
        },
        FileText::Problem(m) => Err(edit_failure("failed to read `"@ + path + "`: "@ + m@)),
        FileText::Text(t) => if old_text.len() == 0 {
            if is_blank(t@) {
                Ok(EditView::Create)
            } else {
                Err(
                    edit_failure(
                        "Edit: cannot create new file at `"@ + path
                            + "` because it already exists; read it first and replace exact text"@,
                    ),
                )
            }
        } else {
            let at = places(t@, old_text);
            if at.len() == 0 {
                Err(edit_failure("Edit: old_string was not found in `"@ + path + "`"@))
            } else if !replace_all && at.len() > 1 {
                Err(
                    edit_failure(
                        "Edit: old_string matched "@ + decimal(at.len())
                            + " times; set replace_all=true"@,
                    ),
                )
            } else {
                Ok(EditView::Replace(at))
            }
        },
    }
}

enum ExecEdit {
    Create,
    Replace(Vec<usize>),
}

spec fn exec_edit_view(e: ExecEdit) -> EditView {
    match e {
        ExecEdit::Create => EditView::Create,
        ExecEdit::Replace(v) => EditView::Replace(ints(v@)),
    }
}

fn classify_edit(path: &str, old_string: &str, replace_all: bool, file: &FileText) -> (r: AppResult<
    ExecEdit,
>)
    ensures
        match edit_kind(path@, old_string@, replace_all, *file) {
            Ok(k) => r matches Ok(e) && exec_edit_view(e) == k,
            Err(f) => r matches Err(e) && e@ == f,
        },
        r matches Ok(ExecEdit::Replace(v)) ==> (*file matches FileText::Text(t) && old_string@.len()
            > 0 && forall|i: int|
            0 <= i < v@.len() ==> #[trigger] v@[i] + old_string@.len() <= t@.len()),
{
    match file {
        FileText::Missing => {
            if old_string.is_empty() {
                Ok(ExecEdit::Create)
            } else {
                let m = "Edit: `".to_owned().concat(path).concat(
                    "` does not exist; use old_string=\"\" to create a new file",
                );
                Err(AppError::new(EXIT_ARGS, m.as_str()))
            }
        },
        FileText::Problem(text) => {
            let m = "failed to read `".to_owned().concat(path).concat("`: ").concat(text.as_str());
            Err(AppError::new(EXIT_ARGS, m.as_str()))
        },
        FileText::Text(t) => {
            if old_string.is_empty() {
                if blank(t.as_str()) {
                    return Ok(ExecEdit::Create);
                }
                let m = "Edit: cannot create new file at `".to_owned().concat(path).concat(
                    "` because it already exists; read it first and replace exact text",
                );
                return Err(AppError::new(EXIT_ARGS, m.as_str()));
            }
            let at = match_places(t.as_str(), old_string);
            proof {
                assert(ints(at@).len() == at@.len());
            }
            if at.len() == 0 {
                let m = "Edit: old_string was not found in `".to_owned().concat(path).concat("`");
                return Err(AppError::new(EXIT_ARGS, m.as_str()));
            }
            if !replace_all && at.len() > 1 {
                let m = "Edit: old_string matched ".to_owned().concat(
                    decimal_string(at.len() as u64).as_str(),
                ).concat(" times; set replace_all=true");
                return Err(AppError::new(EXIT_ARGS, m.as_str()));
            }
            Ok(ExecEdit::Replace(at))
        },
    }
}

/// What an edit is given.
#[derive(Debug)]
pub struct EditRequest {
    pub path: String,
    pub display_path: String,
    pub old_string: String,
    pub new_string: String,
    pub replace_all: bool,
}

/// Whether the text of a file and the new text are small enough to be shown as a diff.
pub open spec fn diffable(r: EditRequest, file: FileText) -> bool {
    file matches FileText::Text(t) ==> t@.len() <= u32::MAX && t@.len() + r.new_string@.len() + 4
        <= usize::MAX
}

/// The offsets in bytes of some indices of a text.
pub open spec fn byte_offsets(s: Seq<char>, v: Seq<int>) -> Seq<usize> {
    v.map_values(|x: int| bytes_len(s.take(x)) as usize)
}

fn byte_offsets_of(s: &str, at: &Vec<usize>) -> (r: Vec<usize>)
    requires
        forall|i: int| 0 <= i < at@.len() ==> #[trigger] at@[i] <= s@.len(),
    ensures
        r@ == byte_offsets(s@, ints(at@)),
        bytes_len(s@) <= usize::MAX,
{
    let c = chars_of(s);
    let total: usize = byte_len(s);
    let ghost goal = byte_offsets(s@, ints(at@));
    let mut out: Vec<usize> = Vec::new();
    let mut i: usize = 0;
    proof {
        assert(out@ =~= goal.take(0));
    }
    while i < at.len()
        invariant
            i <= at@.len(),
            c@ == s@,
            goal == byte_offsets(s@, ints(at@)),
            forall|k: int| 0 <= k < at@.len() ==> #[trigger] at@[k] <= s@.len(),
            out@ == goal.take(i as int),
        decreases at@.len() - i,
    {
        let before = substring(c.as_slice(), 0, at[i]);
        proof {
            assert(before@ =~= s@.take(at@[i as int] as int));
            assert(ints(at@)[i as int] == at@[i as int]);
            lemma_take_step(goal, i as int);
        }
        out.push(byte_len(before.as_str()));
        i = i + 1;
    }
    proof {
        lemma_take_full(goal);
    }
    out
}

/// The diff that shows an edit.
pub open spec fn edit_preview(r: EditRequest, status: FileStatus, file: FileText) -> Result<
    Seq<char>,
    Failure,
> {
    match refusal(r.path@, r.old_string@, r.new_string@, status) {
        Some(f) => Err(f),
        None => match edit_kind(r.path@, r.old_string@, r.replace_all, file) {
            Err(f) => Err(f),
            Ok(EditView::Create) => Ok(full_diff(r.display_path@, Seq::empty(), r.new_string@)),
            Ok(EditView::Replace(at)) => Ok(
                edit_diff(
                    r.display_path@,
                    file->Text_0@,
                    byte_offsets(file->Text_0@, at),
                    r.old_string@,
                    r.new_string@,
                ),
            ),
        },
    }
}

pub fn build_edit_preview(r: &EditRequest, status: &FileStatus, file: &FileText) -> (out: AppResult<
    String,
>)
    requires
        diffable(*r, *file),
    ensures
        text_result(out) == edit_preview(*r, *status, *file),
{
    let new_text = r.new_string.as_str();
    match validate_edit_inputs(r.path.as_str(), r.old_string.as_str(), new_text, status) {
        Err(e) => {
            return Err(e);
        },
        Ok(_) => {},
    }
    match classify_edit(r.path.as_str(), r.old_string.as_str(), r.replace_all, file) {
        Err(e) => Err(e),
        Ok(ExecEdit::Create) => {
            proof {
                reveal_strlit("");
                assert(""@ =~= Seq::<char>::empty());
            }
            Ok(build_full_file_diff(r.display_path.as_str(), "", new_text))
        },
        Ok(ExecEdit::Replace(at)) => match file {
            FileText::Text(t) => {
                proof {
                    lemma_places_count(t@, r.old_string@, 0);
                    lemma_places_match(t@, r.old_string@, 0);
                    assert(ints(at@).len() == at@.len());
                    assert forall|i: int| 0 <= i < at@.len() implies #[trigger] at@[i]
                        <= t@.len() by {
                        assert(ints(at@)[i] == at@[i]);
                        assert(matches_at(t@, r.old_string@, ints(at@)[i]));
                    }
                }
                let offsets = byte_offsets_of(t.as_str(), &at);
                proof {
                    assert forall|i: int| 0 <= i < offsets@.len() implies cuts_out(
                        t@,
                        #[trigger] offsets@[i] as nat,
                        bytes_len(r.old_string@),
                    ) by {
                        assert(matches_at(t@, r.old_string@, ints(at@)[i]));
                        lemma_match_cuts_out(t@, r.old_string@, ints(at@)[i]);
                    }
                }
                Ok(
                    build_edit_preview_diff(
                        r.display_path.as_str(),
                        t.as_str(),
                        offsets.as_slice(),
                        r.old_string.as_str(),
                        new_text,
                    ),
                )
            },
            _ => Ok(String::new()),
        },
    }
}

/// Every place that is found is one where the text stands.
proof fn lemma_places_match(s: Seq<char>, p: Seq<char>, i: int)
    requires
        0 <= i <= s.len(),
    ensures
        forall|k: int|
            0 <= k < places_from(s, p, i).len() ==> matches_at(
                s,
                p,
                #[trigger] places_from(s, p, i)[k],
            ),
    decreases s.len() - i,
{
    if p.len() > 0 && i < s.len() {
        if matches_at(s, p, i) {
            lemma_places_match(s, p, i + p.len());
            let rest = places_from(s, p, i + p.len());
            let all = places_from(s, p, i);
            assert(all == seq![i] + rest);
            assert forall|k: int| 0 <= k < all.len() implies matches_at(s, p, #[trigger] all[k]) by {
                if k > 0 {
                    assert(all[k] == rest[k - 1]);
                }
            }
        } else {
            lemma_places_match(s, p, i + 1);
            assert(places_from(s, p, i) == places_from(s, p, i + 1));
        }
    } else {
        assert(places_from(s, p, i).len() == 0);
    }
}

/// The bytes of a text that stands in another one are whole characters of it.
proof fn lemma_match_cuts_out(s: Seq<char>, p: Seq<char>, i: int)
    requires
        matches_at(s, p, i),
        bytes_len(s) <= usize::MAX,
    ensures
        bytes_len(s.take(i)) <= usize::MAX,
        cuts_out(s, bytes_len(s.take(i)), bytes_len(p)),
{
    let j = i + p.len();
    assert(s.take(j) =~= s.take(i) + p) by {
        assert(s.subrange(i, j) =~= p);
    }
    lemma_bytes_len_concat(s.take(i), p);
    lemma_head_of_prefix(s, i);
    lemma_head_of_prefix(s, j);
    lemma_bytes_len_prefix(s, i, s.len() as int);
    lemma_take_full(s);
}

proof fn lemma_places_count(s: Seq<char>, p: Seq<char>, i: int)
    requires
        0 <= i <= s.len(),
    ensures
        places_from(s, p, i).len() <= s.len() - i,
    decreases s.len() - i,
{
    if p.len() > 0 && i < s.len() {
        if matches_at(s, p, i) {
            lemma_places_count(s, p, i + p.len());
        } else {
            lemma_places_count(s, p, i + 1);
        }
    }
}

/// The new text of a file, and what is said of the edit.
pub open spec fn edit_outcome(r: EditRequest, status: FileStatus, file: FileText) -> Result<
    (Seq<char>, Seq<char>),
    Failure,
> {
    match refusal(r.path@, r.old_string@, r.new_string@, status) {
        Some(f) => Err(f),
        None => match edit_kind(r.path@, r.old_string@, r.replace_all, file) {
            Err(f) => Err(f),
            Ok(EditView::Create) => Ok((r.new_string@, "created `"@ + r.path@ + "`"@)),
            Ok(EditView::Replace(_)) => Ok(
                (
                    replaced(file->Text_0@, r.old_string@, r.new_string@),
                    "edited `"@ + r.path@ + "`"@,
                ),
            ),
        },
    }
}

/// What to write, and what to say of it.
#[derive(Debug)]
pub struct EditDone {
    pub content: String,
    pub message: String,
}

pub fn tool_edit(r: &EditRequest, status: &FileStatus, file: &FileText) -> (out: AppResult<EditDone>)
    ensures
        match edit_outcome(*r, *status, *file) {
            Ok((content, message)) => out matches Ok(d) && d.content@ == content && d.message@
                == message,
            Err(f) => out matches Err(e) && e@ == f,
        },
{
    let new_text = r.new_string.as_str();
    match validate_edit_inputs(r.path.as_str(), r.old_string.as_str(), new_text, status) {
        Err(e) => {
            return Err(e);
        },
        Ok(_) => {},
    }
    match classify_edit(r.path.as_str(), r.old_string.as_str(), r.replace_all, file) {
        Err(e) => Err(e),
        Ok(ExecEdit::Create) => Ok(
            EditDone {
                content: r.new_string.clone(),
                message: "created `".to_owned().concat(r.path.as_str()).concat("`"),
            },
        ),
        Ok(ExecEdit::Replace(_)) => match file {
            FileText::Text(t) => Ok(
                EditDone {
                    content: replace(t.as_str(), r.old_string.as_str(), new_text),
                    message: "edited `".to_owned().concat(r.path.as_str()).concat("`"),
                },
            ),
            _ => Ok(EditDone { content: String::new(), message: String::new() }),
        },
    }
}

proof fn lemma_replaced_none(s: Seq<char>, p: Seq<char>, to: Seq<char>, i: int)
    requires
        0 <= i <= s.len(),
        p.len() > 0,
        places_from(s, p, i).len() == 0,
    ensures
        replaced_from(s, p, to, i) == s.skip(i),
    decreases s.len() - i,
{
    if i == s.len() {
        assert(s.skip(i) =~= Seq::<char>::empty());
    } else {
        lemma_replaced_none(s, p, to, i + 1);
        assert(s.skip(i) =~= seq![s[i]] + s.skip(i + 1));
    }
}

proof fn lemma_replaced_one(s: Seq<char>, p: Seq<char>, to: Seq<char>, i: int)
    requires
        0 <= i <= s.len(),
        p.len() > 0,
        places_from(s, p, i).len() == 1,
    ensures
        ({
            let at = places_from(s, p, i)[0];
            &&& i <= at
            &&& at + p.len() <= s.len()
            &&& replaced_from(s, p, to, i) == s.subrange(i, at) + to + s.skip(at + p.len())
        }),
    decreases s.len() - i,
{
    if matches_at(s, p, i) {
        lemma_replaced_none(s, p, to, i + p.len());
        let at = places_from(s, p, i)[0];
        assert(at == i);
        assert(s.subrange(i, i) =~= Seq::<char>::empty());
        assert(Seq::<char>::empty() + to =~= to);
    } else {
        lemma_replaced_one(s, p, to, i + 1);
        let at = places_from(s, p, i)[0];
        assert(s.subrange(i, at) =~= seq![s[i]] + s.subrange(i + 1, at));
        assert(seq![s[i]] + (s.subrange(i + 1, at) + to + s.skip(at + p.len())) =~= seq![s[i]]
            + s.subrange(i + 1, at) + to + s.skip(at + p.len()));
    }
}

/// An edit that is accepted without replacing all changes its one place and nothing else.
pub proof fn law_single_edit_is_local(r: EditRequest, status: FileStatus, text: String)
    requires
        !r.replace_all,
        r.old_string@.len() > 0,
        edit_outcome(r, status, FileText::Text(text)) is Ok,
    ensures
        ({
            let at = places(text@, r.old_string@)[0];
            &&& matches_at(text@, r.old_string@, at)
            &&& edit_outcome(r, status, FileText::Text(text))->Ok_0.0 == text@.take(at)
                + r.new_string@ + text@.skip(at + r.old_string@.len())
        }),
{
    lemma_replaced_one(text@, r.old_string@, r.new_string@, 0);
    lemma_first_place(text@, r.old_string@, 0);
    let at = places(text@, r.old_string@)[0];
    assert(text@.subrange(0, at) =~= text@.take(at));
}

proof fn lemma_first_place(s: Seq<char>, p: Seq<char>, i: int)
    requires
        0 <= i,
        places_from(s, p, i).len() > 0,
    ensures
        matches_at(s, p, places_from(s, p, i)[0]),
    decreases s.len() - i,
{
    if !matches_at(s, p, i) {
        lemma_first_place(s, p, i + 1);
    }
}

/// What is shown is what is done: an edit has a preview exactly when it can be carried out, and is
/// refused both times for the same reason.
pub proof fn law_preview_matches_edit(r: EditRequest, status: FileStatus, file: FileText)
    ensures
        edit_preview(r, status, file) is Ok <==> edit_outcome(r, status, file) is Ok,
        edit_preview(r, status, file) is Err ==> edit_preview(r, status, file)->Err_0
            == edit_outcome(r, status, file)->Err_0,
{
}

} // verus!
