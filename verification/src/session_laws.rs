//! What is told of sessions, and which of them are found, kept and left.

use crate::error::{EXIT_SESSION, Failure};
use crate::media::{
    ImageFile, ImageView, base64_text, extension, file_name, image_outcome, images_of_files,
    images_with_clipboard, last_index, lemma_last_index, magic_type, media_type, without_tail,
};
use crate::session::{
    SessionState, StoredEvent, bare_id, bare_starting_with, discarded, is_cleared, is_garbage,
    is_temp, law_time_reads_back, resolved, session_of_file, session_path, sessions_of,
    starting_with, summary, with_id,
};
use crate::table::text_lt;
use crate::text::{ascii_lower, decimal, join, opt_text, preview, words};
use vstd::prelude::*;

verus! {

/// The identifiers that start with a text.
pub open spec fn with_start(p: Seq<char>) -> spec_fn(Seq<char>) -> bool {
    |id: Seq<char>| p.is_prefix_of(id)
}

/// The identifiers that start with a text behind their prefix.
pub open spec fn with_bare_start(p: Seq<char>) -> spec_fn(Seq<char>) -> bool {
    |id: Seq<char>| p.is_prefix_of(bare_id(id))
}

/// An identifier without its prefix is what stands behind it.
pub proof fn law_prefix_is_taken_off(id: Seq<char>)
    ensures
        bare_id("sess_"@ + id) == id,
        bare_id("tmp_"@ + id) == id,
        !"sess_"@.is_prefix_of(id) && !"tmp_"@.is_prefix_of(id) ==> bare_id(id) == id,
        is_temp("tmp_"@ + id),
        !is_temp("sess_"@ + id),
{
    reveal_strlit("sess_");
    reveal_strlit("tmp_");
    assert("sess_"@.is_prefix_of("sess_"@ + id));
    assert("tmp_"@.is_prefix_of("tmp_"@ + id));
    assert(("sess_"@ + id).skip(5) =~= id);
    assert(("tmp_"@ + id).skip(4) =~= id);
    assert(("tmp_"@ + id)[0] == 't' && ("sess_"@ + id)[0] == 's');
    assert("sess_"@[0] == 's' && "tmp_"@[0] == 't');
}

proof fn lemma_candidates(ids: Seq<Seq<char>>, p: Seq<char>)
    ensures
        starting_with(ids, p) == ids.filter(with_start(p)),
        bare_starting_with(ids, p) == ids.filter(with_bare_start(p)),
    decreases ids.len(),
{
    reveal(Seq::filter);
    if ids.len() > 0 {
        lemma_candidates(ids.drop_last(), p);
    } else {
        assert(starting_with(ids, p) =~= ids.filter(with_start(p)));
        assert(bare_starting_with(ids, p) =~= ids.filter(with_bare_start(p)));
    }
}

proof fn lemma_no_member<T>(v: Seq<T>, f: spec_fn(T) -> bool)
    requires
        forall|i: int| 0 <= i < v.len() ==> !f(#[trigger] v[i]),
    ensures
        v.filter(f).len() == 0,
    decreases v.len(),
{
    reveal(Seq::filter);
    if v.len() > 0 {
        assert(!f(v[v.len() - 1]));
        assert forall|i: int| 0 <= i < v.drop_last().len() implies !f(
            #[trigger] v.drop_last()[i],
        ) by {
            assert(v[i] == v.drop_last()[i]);
        }
        lemma_no_member(v.drop_last(), f);
    }
}

proof fn lemma_one_member<T>(v: Seq<T>, f: spec_fn(T) -> bool, k: int)
    requires
        0 <= k < v.len(),
        f(v[k]),
        forall|i: int| 0 <= i < v.len() && i != k ==> !f(#[trigger] v[i]),
    ensures
        v.filter(f) == seq![v[k]],
    decreases v.len(),
{
    reveal(Seq::filter);
    let w = v.drop_last();
    assert forall|i: int| 0 <= i < w.len() && i != k implies !f(#[trigger] w[i]) by {
        assert(v[i] == w[i]);
    }
    if k == v.len() - 1 {
        lemma_no_member(w, f);
        assert(v.filter(f) =~= seq![v[k]]);
    } else {
        assert(!f(v[v.len() - 1]));
        assert(w[k] == v[k]);
        lemma_one_member(w, f, k);
    }
}

proof fn lemma_two_members<T>(v: Seq<T>, f: spec_fn(T) -> bool, i: int, j: int)
    requires
        0 <= i < j < v.len(),
        f(v[i]),
        f(v[j]),
    ensures
        v.filter(f).len() >= 2,
    decreases v.len(),
{
    reveal(Seq::filter);
    let w = v.drop_last();
    assert(w[i] == v[i]);
    if j < v.len() - 1 {
        assert(w[j] == v[j]);
        lemma_two_members(w, f, i, j);
    } else {
        lemma_some_member(w, f, i);
    }
}

proof fn lemma_some_member<T>(v: Seq<T>, f: spec_fn(T) -> bool, i: int)
    requires
        0 <= i < v.len(),
        f(v[i]),
    ensures
        v.filter(f).len() >= 1,
    decreases v.len(),
{
    reveal(Seq::filter);
    if i < v.len() - 1 {
        assert(v.drop_last()[i] == v[i]);
        lemma_some_member(v.drop_last(), f, i);
    }
}

/// The start of the name of one session alone stands for it.
pub proof fn law_only_start_resolves(ids: Seq<Seq<char>>, input: Seq<char>, k: int)
    requires
        0 <= k < ids.len(),
        input.is_prefix_of(ids[k]),
        forall|i: int| 0 <= i < ids.len() && i != k ==> !input.is_prefix_of(#[trigger] ids[i]),
    ensures
        resolved(ids, input) == Ok::<Seq<char>, Failure>(ids[k]),
{
    lemma_candidates(ids, input);
    lemma_one_member(ids, with_start(input), k);
    if ids.contains(input) {
        let i = choose|i: int| 0 <= i < ids.len() && ids[i] == input;
        assert(input.is_prefix_of(ids[i])) by {
            assert(input.subrange(0, input.len() as int) =~= input);
        }
    }
}

/// Where no name starts so, the start of one name alone behind its prefix stands for it.
pub proof fn law_only_bare_start_resolves(ids: Seq<Seq<char>>, input: Seq<char>, k: int)
    requires
        0 <= k < ids.len(),
        input.is_prefix_of(bare_id(ids[k])),
        forall|i: int| 0 <= i < ids.len() ==> !input.is_prefix_of(#[trigger] ids[i]),
        forall|i: int|
            0 <= i < ids.len() && i != k ==> !input.is_prefix_of(bare_id(#[trigger] ids[i])),
    ensures
        resolved(ids, input) == Ok::<Seq<char>, Failure>(ids[k]),
{
    lemma_candidates(ids, input);
    lemma_no_member(ids, with_start(input));
    lemma_one_member(ids, with_bare_start(input), k);
    if ids.contains(input) {
        let i = choose|i: int| 0 <= i < ids.len() && ids[i] == input;
        assert(input.is_prefix_of(ids[i])) by {
            assert(input.subrange(0, input.len() as int) =~= input);
        }
    }
}

/// The start of several names, or of none, stands for no session.
pub proof fn law_other_starts_fail(ids: Seq<Seq<char>>, input: Seq<char>, i: int, j: int)
    requires
        !ids.contains(input),
    ensures
        0 <= i < j < ids.len() && input.is_prefix_of(ids[i]) && input.is_prefix_of(ids[j]) ==> (
        resolved(ids, input) matches Err(e) && e.code == EXIT_SESSION),
        (forall|k: int|
            0 <= k < ids.len() ==> !input.is_prefix_of(#[trigger] ids[k]) && !input.is_prefix_of(
                bare_id(ids[k]),
            )) ==> (resolved(ids, input) matches Err(e) && e.code == EXIT_SESSION && e.message
            == "no session matching `"@ + input + "`"@),
{
    lemma_candidates(ids, input);
    if 0 <= i < j < ids.len() && input.is_prefix_of(ids[i]) && input.is_prefix_of(ids[j]) {
        lemma_two_members(ids, with_start(input), i, j);
    }
    if forall|k: int|
        0 <= k < ids.len() ==> !input.is_prefix_of(#[trigger] ids[k]) && !input.is_prefix_of(
            bare_id(ids[k]),
        ) {
        lemma_no_member(ids, with_start(input));
        lemma_no_member(ids, with_bare_start(input));
    }
}

pub(crate) proof fn lemma_last_index_is(s: Seq<char>, c: char, k: int)
    requires
        0 <= k < s.len(),
        s[k] == c,
        forall|i: int| k < i < s.len() ==> #[trigger] s[i] != c,
    ensures
        last_index(s, c) == k,
{
    lemma_last_index(s, c);
    let n = last_index(s, c);
    if n > k {
        assert(s[n] != c);
    }
}

/// The last name of a path is what stands behind its last slash, and the extension of a name what
/// stands behind its last dot.
pub proof fn law_path_ends_with_name(dir: Seq<char>, stem: Seq<char>, ext: Seq<char>)
    requires
        stem.len() > 0,
        !stem.contains('/'),
        ext.len() > 0,
        !ext.contains('/'),
        !ext.contains('.'),
    ensures
        file_name(dir + seq!['/'] + stem + seq!['.'] + ext) == stem + seq!['.'] + ext,
        file_name(stem + seq!['.'] + ext) == stem + seq!['.'] + ext,
        extension(dir + seq!['/'] + stem + seq!['.'] + ext) == Some(ext),
        extension(stem + seq!['.'] + ext) == Some(ext),
{
    let name = stem + seq!['.'] + ext;
    let p = dir + seq!['/'] + name;
    assert(dir + seq!['/'] + stem + seq!['.'] + ext =~= p);
    let n = dir.len() as int;
    let k = stem.len() as int;
    assert(ext.contains(ext.last()));
    assert(p.last() == ext.last() && name.last() == ext.last());
    assert(without_tail(p) == p && without_tail(name) == name);
    assert forall|i: int| n < i < p.len() implies #[trigger] p[i] != '/' by {
        assert(p[i] == name[i - n - 1]);
        if i - n - 1 < k {
            assert(stem.contains(stem[i - n - 1]));
        } else if i - n - 1 > k {
            assert(ext.contains(ext[i - n - 1 - k - 1]));
        }
    }
    lemma_last_index_is(p, '/', n);
    assert(p.skip(n + 1) =~= name);
    lemma_last_index(name, '/');
    let z = last_index(name, '/');
    if z >= 0 {
        assert(p[n + 1 + z] == name[z]);
    }
    assert(name.skip(0) =~= name);
    assert forall|i: int| k < i < name.len() implies #[trigger] name[i] != '.' by {
        assert(ext.contains(ext[i - k - 1]));
    }
    lemma_last_index_is(name, '.', k);
    assert(name.skip(k + 1) =~= ext);
    reveal_strlit("..");
    assert(name != ".."@) by {
        if name == ".."@ {
            assert(name[name.len() - 1] == '.');
        }
    }
}

/// The file of a session is found again as its file, and files with other extensions are of no
/// session.
pub proof fn law_session_file_is_found(dir: Seq<char>, id: Seq<char>, ext: Seq<char>)
    requires
        dir.len() > 0,
        id.len() > 0,
        !id.contains('/'),
        ext.len() > 0,
        !ext.contains('/'),
        !ext.contains('.'),
    ensures
        session_of_file(session_path(dir, id)) == Some(id),
        session_of_file(id + ".jsonl"@) == Some(id),
        ext != "jsonl"@ ==> session_of_file(id + seq!['.'] + ext) is None,
{
    reveal_strlit(".jsonl");
    reveal_strlit("jsonl");
    reveal_strlit("/");
    let name = id + ".jsonl"@;
    assert(name =~= id + seq!['.'] + "jsonl"@);
    assert(!"jsonl"@.contains('/') && !"jsonl"@.contains('.'));
    law_path_ends_with_name(dir, id, "jsonl"@);
    law_path_ends_with_name(dir.drop_last(), id, "jsonl"@);
    law_path_ends_with_name(dir, id, ext);
    let k = id.len() as int;
    assert forall|i: int| k < i < name.len() implies #[trigger] name[i] != '.' by {
        assert("jsonl"@.contains("jsonl"@[i - k - 1]));
    }
    lemma_last_index_is(name, '.', k);
    assert(name.take(k) =~= id);
    assert(id.contains(id[0]));
    assert(dir.drop_last() + seq![dir.last()] =~= dir);
    let path = session_path(dir, id);
    if dir.last() == '/' {
        assert(path =~= dir.drop_last() + seq!['/'] + id + seq!['.'] + "jsonl"@);
    } else {
        assert(path =~= dir + seq!['/'] + id + seq!['.'] + "jsonl"@);
    }
}

/// The sessions of a directory are those of its files, each as often as it has one.
pub proof fn law_sessions_are_of_files(names: Seq<Seq<char>>)
    ensures
        sessions_of(names).to_multiset() == names.filter(
            |n: Seq<char>| session_of_file(n) is Some,
        ).map_values(|n: Seq<char>| session_of_file(n)->Some_0).to_multiset(),
    decreases names.len(),
{
    broadcast use vstd::seq_lib::group_to_multiset_ensures;

    reveal(Seq::filter);
    let f = |n: Seq<char>| session_of_file(n) is Some;
    let g = |n: Seq<char>| session_of_file(n)->Some_0;
    if names.len() == 0 {
        assert(sessions_of(names) =~= names.filter(f).map_values(g));
    } else {
        let w = names.drop_last();
        law_sessions_are_of_files(w);
        if let Some(id) = session_of_file(names.last()) {
            lemma_with_id_members(sessions_of(w), id);
            assert(names.filter(f) == w.filter(f).push(names.last()));
            assert(names.filter(f).map_values(g) =~= w.filter(f).map_values(g).push(id));
        } else {
            assert(names.filter(f) == w.filter(f));
        }
    }
}

proof fn lemma_with_id_members(ids: Seq<Seq<char>>, id: Seq<char>)
    ensures
        with_id(ids, id).to_multiset() == ids.to_multiset().insert(id),
    decreases ids.len(),
{
    broadcast use vstd::seq_lib::group_to_multiset_ensures;

    if ids.len() > 0 && text_lt(ids.last(), id) {
        lemma_with_id_members(ids.drop_last(), id);
        assert(ids.drop_last().push(ids.last()) =~= ids);
        assert(with_id(ids, id).to_multiset() =~= ids.to_multiset().insert(id));
    }
}

/// Leaving a temporary session discards it, and no other one is ever discarded.
pub proof fn law_left_sessions(state: SessionState, next: Option<Seq<char>>, name: Seq<char>)
    ensures
        discarded(state, next) matches Some(old) ==> opt_text(state.current_session) == Some(old)
            && state.is_temp == Some(true) && next != Some(old),
        state.is_temp == Some(true) && opt_text(state.current_session) == Some(name) && next
            != Some(name) ==> discarded(state, next) == Some(name),
        name.len() > 0 && opt_text(state.current_session) == Some(name) ==> !is_cleared(
            state,
            false,
            name,
        ),
        opt_text(state.current_session) != Some(name) ==> is_cleared(state, false, name),
        is_cleared(state, true, name),
        is_garbage(state, name, 0),
        is_temp(name) && opt_text(state.current_session) != Some(name) ==> is_garbage(
            state,
            name,
            1,
        ),
{
}

/// Whether an event is a message of someone.
pub open spec fn said_by(role: Seq<char>) -> spec_fn(StoredEvent) -> bool {
    |e: StoredEvent| e matches StoredEvent::Message(m) && m.role == role
}

/// A summary tells whose session it is, counts the messages of each side, and shows the first
/// question on one line.
pub proof fn law_summary_counts_messages(id: Seq<char>, events: Seq<StoredEvent>, current: bool)
    ensures
        ({
            let s = summary(id, events, current);
            &&& s.session_id == id
            &&& s.is_current == current
            &&& s.is_temp == is_temp(id)
            &&& s.user_messages == events.filter(said_by("user"@)).len()
            &&& s.assistant_messages == events.filter(said_by("assistant"@)).len()
            &&& s.first_prompt == if events.filter(said_by("user"@)).len() == 0 {
                None
            } else {
                Some(preview(events.filter(said_by("user"@))[0]->Message_0.content, 60))
            }
        }),
    decreases events.len(),
{
    reveal(Seq::filter);
    reveal_strlit("user");
    reveal_strlit("assistant");
    assert("user"@.len() == 4 && "assistant"@.len() == 9);
    if events.len() > 0 {
        law_summary_counts_messages(id, events.drop_last(), current);
    }
}

/// The time at which an event happened.
pub open spec fn happened_at(e: StoredEvent) -> Seq<char> {
    match e {
        StoredEvent::Meta(_, at) => at,
        StoredEvent::Message(m) => m.created_at,
        StoredEvent::Response(r) => r.created_at,
        StoredEvent::Audit(a) => a.created_at,
    }
}

/// A session was begun when its opening event says, and last used when its last event says.
pub proof fn law_summary_tells_times(
    id: Seq<char>,
    events: Seq<StoredEvent>,
    e: StoredEvent,
    current: bool,
    secs: u64,
)
    requires
        happened_at(e) == decimal(secs as nat),
    ensures
        summary(id, events.push(e), current).updated_at == Some(secs),
        e is Meta ==> summary(id, events.push(e), current).created_at == Some(secs),
        !(e is Meta) ==> summary(id, events.push(e), current).created_at == summary(
            id,
            events,
            current,
        ).created_at,
{
    law_time_reads_back(secs);
    assert(events.push(e).drop_last() =~= events);
}

/// A preview is a text on one line, its words one space apart, cut after so many characters.
pub proof fn law_preview_is_start(s: Seq<char>, n: nat)
    ensures
        ({
            let line = join(words(s), seq![' ']);
            &&& line.len() <= n ==> preview(s, n) == line
            &&& line.len() > n ==> preview(s, n) == line.take(n as int) + seq!['.', '.', '.']
        }),
{
    reveal_strlit(" ");
    reveal_strlit("...");
    assert(" "@ =~= seq![' ']);
    assert("..."@ =~= seq!['.', '.', '.']);
}

/// What an image holds is told by its first bytes, whatever its name, and by its extension in any
/// case where they tell nothing.
pub proof fn law_image_kind_is_told(dir: Seq<char>, stem: Seq<char>, ext: Seq<char>, b: Seq<u8>)
    requires
        stem.len() > 0,
        !stem.contains('/'),
        ext.len() > 0,
        !ext.contains('/'),
        !ext.contains('.'),
    ensures
        ({
            let path = dir + seq!['/'] + stem + seq!['.'] + ext;
            let kind = ascii_lower(ext);
            &&& magic_type(b) is Some ==> media_type(path, b) == magic_type(b)
            &&& magic_type(b) is None && kind == "png"@ ==> media_type(path, b) == Some("image/png")
            &&& magic_type(b) is None && (kind == "jpg"@ || kind == "jpeg"@) ==> media_type(path, b)
                == Some("image/jpeg")
            &&& magic_type(b) is None && kind == "gif"@ ==> media_type(path, b) == Some("image/gif")
            &&& magic_type(b) is None && kind == "bmp"@ ==> media_type(path, b) == Some("image/bmp")
            &&& magic_type(b) is None && kind == "webp"@ ==> media_type(path, b) == Some(
                "image/webp",
            )
            &&& magic_type(b) is None && kind == "txt"@ ==> media_type(path, b) is None
        }),
        seq![0x89u8, 0x50, 0x4e, 0x47, 0x0d, 0x0a, 0x1a, 0x0a].is_prefix_of(b) ==> magic_type(b)
            == Some("image/png"),
        seq![0xffu8, 0xd8, 0xff].is_prefix_of(b) ==> magic_type(b) == Some("image/jpeg"),
{
    law_path_ends_with_name(dir, stem, ext);
    reveal_strlit("png");
    reveal_strlit("jpg");
    reveal_strlit("jpeg");
    reveal_strlit("gif");
    reveal_strlit("bmp");
    reveal_strlit("webp");
    reveal_strlit("txt");
    assert("png"@[0] == 'p' && "jpg"@[0] == 'j' && "gif"@[0] == 'g' && "bmp"@[0] == 'b'
        && "webp"@[0] == 'w' && "txt"@[0] == 't' && "jpeg"@[0] == 'j');
    if seq![0xffu8, 0xd8, 0xff].is_prefix_of(b) {
        assert(b[0] == 0xffu8);
    }
}

/// An image is sent with its kind and its bytes; one that cannot be read, or of another kind, is
/// refused.
pub proof fn law_image_is_read(f: ImageFile, b: Vec<u8>, kind: &'static str)
    ensures
        f.content == Ok::<Vec<u8>, String>(b) && media_type(f.path@, b@) == Some(kind)
            ==> image_outcome(f) == Ok::<ImageView, Failure>(
            ImageView { media_type: kind@, data: base64_text(b@) },
        ),
        f.content == Ok::<Vec<u8>, String>(b) && media_type(f.path@, b@) is None ==> image_outcome(
            f,
        ) is Err,
        f.content is Err ==> image_outcome(f) is Err,
{
}

/// The images of a question come in the order of their files, and the one that was copied last.
pub proof fn law_images_keep_order(
    v: Seq<ImageFile>,
    f: ImageFile,
    before: Seq<ImageView>,
    i: ImageView,
    c: ImageView,
)
    requires
        images_of_files(v) == Ok::<Seq<ImageView>, Failure>(before),
        image_outcome(f) == Ok::<ImageView, Failure>(i),
    ensures
        images_of_files(v.push(f)) == Ok::<Seq<ImageView>, Failure>(before.push(i)),
        images_with_clipboard(v, Some(Ok(c))) == Ok::<Seq<ImageView>, Failure>(before.push(c)),
        images_with_clipboard(v, None) == Ok::<Seq<ImageView>, Failure>(before),
{
    assert(v.push(f).drop_last() =~= v);
}

} // verus!
