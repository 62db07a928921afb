//! Decoding of streamed replies: server-sent events and lines of JSON, fed in chunks of bytes
//! that may end anywhere.

use crate::error::{AppError, AppResult, EXIT_NETWORK, Failure, failure};
use crate::text::{
    blank, chars_of, is_blank, join, join_strings, lemma_take_full, lemma_take_step,
    lemma_texts_push, opt_text, strip_prefix, strip_prefix_spec, substring, texts, trim,
    trim_start, trimmed, trimmed_start,
};
use vstd::prelude::*;
use vstd::utf8::*;

verus! {

/// The message of the error that `std::str::from_utf8` gives for bytes that are not UTF-8.
pub uninterp spec fn utf8_error_text(bytes: Seq<u8>) -> Seq<char>;

/// `std::str::from_utf8`: the text of bytes that are UTF-8, else an error whose message
/// depends on the bytes alone.
#[verifier::external_body]
fn utf8_text(bytes: &[u8]) -> (r: Result<String, String>)
    ensures
        match r {
            Ok(s) => valid_utf8(bytes@) && s@ == decode_utf8(bytes@),
            Err(m) => !valid_utf8(bytes@) && m@ == utf8_error_text(bytes@),
        },
{
    match std::str::from_utf8(bytes) {
        Ok(s) => Ok(s.to_string()),
        Err(err) => Err(err.to_string()),
    }
}

pub open spec fn utf8_failure(bytes: Seq<u8>) -> Failure {
    failure(EXIT_NETWORK, "provider stream contained invalid UTF-8: "@ + utf8_error_text(bytes))
}

fn line_text(bytes: &[u8]) -> (r: AppResult<String>)
    ensures
        match r {
            Ok(s) => valid_utf8(bytes@) && s@ == decode_utf8(bytes@),
            Err(e) => !valid_utf8(bytes@) && e@ == utf8_failure(bytes@),
        },
{
    match utf8_text(bytes) {
        Ok(s) => Ok(s),
        Err(m) => {
            let message = "provider stream contained invalid UTF-8: ".to_owned().concat(
                m.as_str(),
            );
            Err(AppError::new(EXIT_NETWORK, message.as_str()))
        },
    }
}

/// The bytes of a line without the carriage return at its end.
pub open spec fn line_bytes(b: Seq<u8>) -> Seq<u8> {
    if b.len() > 0 && b.last() == 13u8 {
        b.drop_last()
    } else {
        b
    }
}

fn without_return(b: &Vec<u8>) -> (r: &[u8])
    ensures
        r@ == line_bytes(b@),
{
    let n: usize = b.len();
    if n > 0 && b[n - 1] == 13u8 {
        let r = vstd::slice::slice_subrange(b.as_slice(), 0, n - 1);
        proof {
            assert(r@ =~= b@.drop_last());
        }
        r
    } else {
        b.as_slice()
    }
}

// ---------------------------------------------------------------------------
// Server-sent events
// ---------------------------------------------------------------------------

/// The data lines among the lines of an event, without their mark and leading white space.
pub open spec fn data_lines(lines: Seq<Seq<char>>) -> Seq<Seq<char>>
    decreases lines.len(),
{
    if lines.len() == 0 {
        Seq::empty()
    } else {
        match strip_prefix_spec(lines.last(), "data:"@) {
            Some(data) => data_lines(lines.drop_last()).push(trimmed_start(data)),
            None => data_lines(lines.drop_last()),
        }
    }
}

/// The payload of an event: its data lines, unless they are blank.
pub open spec fn event_payload(lines: Seq<Seq<char>>) -> Option<Seq<char>> {
    let payload = join(data_lines(lines), "\n"@);
    if is_blank(payload) {
        None
    } else {
        Some(payload)
    }
}

pub open spec fn with_event(events: Seq<Seq<char>>, e: Option<Seq<char>>) -> Seq<Seq<char>> {
    match e {
        Some(p) => events.push(p),
        None => events,
    }
}

/// The state of reading: the bytes of the line in work, the lines of the event in work, the
/// payloads that were completed, and the first failure. After a failure bytes are only kept.
pub struct SseState {
    pub pending: Seq<u8>,
    pub lines: Seq<Seq<char>>,
    pub events: Seq<Seq<char>>,
    pub error: Option<Failure>,
}

pub open spec fn sse_start(lines: Seq<Seq<char>>) -> SseState {
    SseState { pending: Seq::empty(), lines, events: Seq::empty(), error: None }
}

pub open spec fn sse_line(st: SseState, line: Seq<u8>) -> SseState {
    if !valid_utf8(line) {
        SseState { pending: Seq::empty(), error: Some(utf8_failure(line)), ..st }
    } else if decode_utf8(line).len() == 0 {
        SseState {
            pending: Seq::empty(),
            lines: Seq::empty(),
            events: with_event(st.events, event_payload(st.lines)),
            ..st
        }
    } else {
        SseState { pending: Seq::empty(), lines: st.lines.push(decode_utf8(line)), ..st }
    }
}

pub open spec fn sse_byte(st: SseState, b: u8) -> SseState {
    if st.error is Some || b != 10u8 {
        SseState { pending: st.pending.push(b), ..st }
    } else {
        sse_line(st, line_bytes(st.pending))
    }
}

/// Reading bytes one after the other.
pub open spec fn sse_read(st: SseState, bytes: Seq<u8>) -> SseState
    decreases bytes.len(),
{
    if bytes.len() == 0 {
        st
    } else {
        sse_byte(sse_read(st, bytes.drop_last()), bytes.last())
    }
}

/// Parser of server-sent events.
pub struct SseParser {
    pending: Vec<u8>,
    event_lines: Vec<String>,
}

/// What a parser of server-sent events holds between two chunks.
pub struct SseView {
    pub pending: Seq<u8>,
    pub lines: Seq<Seq<char>>,
}

impl View for SseParser {
    type V = SseView;

    closed spec fn view(&self) -> SseView {
        SseView { pending: self.pending@, lines: texts(self.event_lines@) }
    }
}

/// The outcome of giving a parser a chunk.
pub open spec fn sse_chunk(v: SseView, chunk: Seq<u8>) -> SseState {
    sse_read(sse_start(v.lines), v.pending + chunk)
}

/// The line in work when the stream ends.
pub open spec fn last_line(bytes: Seq<u8>) -> Seq<char> {
    without_returns(decode_utf8(bytes))
}

pub open spec fn without_returns(s: Seq<char>) -> Seq<char>
    decreases s.len(),
{
    if s.len() > 0 && s.last() == '\r' {
        without_returns(s.drop_last())
    } else {
        s
    }
}

/// The lines of the last event when the stream ends.
pub open spec fn final_lines(v: SseView) -> Seq<Seq<char>> {
    if v.pending.len() > 0 && last_line(v.pending).len() > 0 {
        v.lines.push(last_line(v.pending))
    } else {
        v.lines
    }
}

fn drop_returns(s: String) -> (r: String)
    ensures
        r@ == without_returns(s@),
{
    let c = chars_of(s.as_str());
    let mut n: usize = c.len();
    proof {
        lemma_take_full(c@);
    }
    while n > 0 && c[n - 1] == '\r'
        invariant
            n <= c@.len(),
            without_returns(c@.take(n as int)) == without_returns(c@),
        decreases n,
    {
        proof {
            lemma_take_step(c@, n - 1);
        }
        n = n - 1;
    }
    proof {
        if n > 0 {
            lemma_take_step(c@, n - 1);
        }
    }
    let r = substring(c.as_slice(), 0, n);
    proof {
        assert(r@ =~= c@.take(n as int));
    }
    r
}

impl Default for SseParser {
    fn default() -> (r: SseParser)
        ensures
            r@ == (SseView { pending: Seq::empty(), lines: Seq::empty() }),
    {
        let r = SseParser { pending: Vec::new(), event_lines: Vec::new() };
        proof {
            assert(texts(r.event_lines@) =~= Seq::<Seq<char>>::empty());
        }
        r
    }
}

impl SseParser {
    /// Ends the event in work.
    fn take_event(&mut self) -> (r: Option<String>)
        ensures
            opt_text(r) == event_payload(old(self)@.lines),
            final(self)@ == (SseView { lines: Seq::empty(), ..old(self)@ }),
    {
        let ghost src = texts(self.event_lines@);
        let mut data: Vec<String> = Vec::new();
        let mut i: usize = 0;
        proof {
            assert(texts(data@) =~= data_lines(src.take(0)));
        }
        while i < self.event_lines.len()
            invariant
                i <= self.event_lines@.len(),
                *self == *old(self),
                src == texts(self.event_lines@),
                texts(data@) == data_lines(src.take(i as int)),
            decreases self.event_lines@.len() - i,
        {
            proof {
                lemma_take_step(src, i as int);
            }
            if let Some(rest) = strip_prefix(self.event_lines[i].as_str(), "data:") {
                let line = trim_start(rest.as_str());
                proof {
                    lemma_texts_push(data@, line);
                }
                data.push(line);
            }
            i = i + 1;
        }
        proof {
            lemma_take_full(src);
        }
        let payload = join_strings(&data, "\n");
        self.event_lines = Vec::new();
        proof {
            assert(texts(self.event_lines@) =~= Seq::<Seq<char>>::empty());
        }
        if blank(payload.as_str()) {
            None
        } else {
            Some(payload)
        }
    }

    /// Takes in a chunk and gives the payloads of the events that it completes.
    pub fn push_bytes(&mut self, bytes: &[u8]) -> (r: AppResult<Vec<String>>)
        ensures
            ({
                let end = sse_chunk(old(self)@, bytes@);
                &&& match end.error {
                    None => r matches Ok(v) && texts(v@) == end.events,
                    Some(f) => r matches Err(e) && e@ == f,
                }
                &&& final(self)@ == (SseView { pending: end.pending, lines: end.lines })
            }),
    {
        let mut total: Vec<u8> = Vec::new();
        total.append(&mut self.pending);
        let ghost start = old(self)@.pending;
        let mut k: usize = 0;
        while k < bytes.len()
            invariant
                k <= bytes@.len(),
                total@ == start + bytes@.take(k as int),
                texts(self.event_lines@) == old(self)@.lines,
                self.pending@.len() == 0,
            decreases bytes@.len() - k,
        {
            proof {
                lemma_take_step(bytes@, k as int);
                assert(start + bytes@.take(k + 1) =~= (start + bytes@.take(k as int)).push(
                    bytes@[k as int],
                ));
            }
            total.push(bytes[k]);
            k = k + 1;
        }
        proof {
            lemma_take_full(bytes@);
        }
        let ghost first = sse_start(old(self)@.lines);
        let ghost all = start + bytes@;
        let mut events: Vec<String> = Vec::new();
        let mut i: usize = 0;
        proof {
            assert(texts(events@) =~= Seq::<Seq<char>>::empty());
            assert(self.pending@ =~= Seq::<u8>::empty());
        }
        while i < total.len()
            invariant
                i <= total@.len(),
                total@ == all,
                first == sse_start(old(self)@.lines),
                all == old(self)@.pending + bytes@,
                sse_read(first, all.take(i as int)) == (SseState {
                    pending: self@.pending,
                    lines: self@.lines,
                    events: texts(events@),
                    error: None,
                }),
            decreases total@.len() - i,
        {
            proof {
                lemma_take_step(all, i as int);
            }
            let b: u8 = total[i];
            if b != 10u8 {
                self.pending.push(b);
            } else {
                let outcome = line_text(without_return(&self.pending));
                self.pending = Vec::new();
                proof {
                    assert(self.pending@ =~= Seq::<u8>::empty());
                }
                match outcome {
                    Err(e) => {
                        let mut j: usize = i + 1;
                        let ghost bad = sse_read(first, all.take(i + 1));
                        while j < total.len()
                            invariant
                                i < j <= total@.len(),
                                total@ == all,
                                self@.lines == bad.lines,
                                bad.error == Some(e@),
                                sse_read(first, all.take(j as int)) == (SseState {
                                    pending: self@.pending,
                                    ..bad
                                }),
                            decreases total@.len() - j,
                        {
                            proof {
                                lemma_take_step(all, j as int);
                            }
                            self.pending.push(total[j]);
                            j = j + 1;
                        }
                        proof {
                            lemma_take_full(all);
                        }
                        return Err(e);
                    },
                    Ok(line) => {
                        if line.as_str().is_empty() {
                            if let Some(event) = self.take_event() {
                                proof {
                                    lemma_texts_push(events@, event);
                                }
                                events.push(event);
                            }
                        } else {
                            proof {
                                lemma_texts_push(self.event_lines@, line);
                            }
                            self.event_lines.push(line);
                        }
                    },
                }
            }
            i = i + 1;
        }
        proof {
            lemma_take_full(all);
        }
        Ok(events)
    }

    /// Ends the stream and gives the payload of the event in work.
    pub fn finish(&mut self) -> (r: AppResult<Vec<String>>)
        ensures
            if old(self)@.pending.len() > 0 && !valid_utf8(old(self)@.pending) {
                &&& r matches Err(e) && e@ == utf8_failure(old(self)@.pending)
                &&& final(self)@ == old(self)@
            } else {
                &&& r matches Ok(v) && texts(v@) == with_event(
                    Seq::empty(),
                    event_payload(final_lines(old(self)@)),
                )
                &&& final(self)@ == (SseView { pending: Seq::empty(), lines: Seq::empty() })
            },
    {
        if self.pending.len() > 0 {
            match line_text(self.pending.as_slice()) {
                Err(e) => {
                    return Err(e);
                },
                Ok(text) => {
                    let line = drop_returns(text);
                    if !line.as_str().is_empty() {
                        proof {
                            lemma_texts_push(self.event_lines@, line);
                        }
                        self.event_lines.push(line);
                    }
                },
            }
            self.pending = Vec::new();
        }
        proof {
            assert(self.pending@ =~= Seq::<u8>::empty());
        }
        let mut events: Vec<String> = Vec::new();
        proof {
            assert(texts(events@) =~= Seq::<Seq<char>>::empty());
        }
        if let Some(event) = self.take_event() {
            proof {
                lemma_texts_push(events@, event);
            }
            events.push(event);
        }
        Ok(events)
    }
}

// ---------------------------------------------------------------------------
// Lines of JSON
// ---------------------------------------------------------------------------

/// The state of reading lines: the bytes of the line in work, the lines that are not blank, and
/// the first failure. After a failure bytes are only kept.
pub struct LinesState {
    pub pending: Seq<u8>,
    pub lines: Seq<Seq<char>>,
    pub error: Option<Failure>,
}

pub open spec fn lines_start() -> LinesState {
    LinesState { pending: Seq::empty(), lines: Seq::empty(), error: None }
}

pub open spec fn lines_byte(st: LinesState, b: u8) -> LinesState {
    if st.error is Some || b != 10u8 {
        LinesState { pending: st.pending.push(b), ..st }
    } else {
        let line = line_bytes(st.pending);
        if !valid_utf8(line) {
            LinesState { pending: Seq::empty(), error: Some(utf8_failure(line)), ..st }
        } else if is_blank(decode_utf8(line)) {
            LinesState { pending: Seq::empty(), ..st }
        } else {
            LinesState { pending: Seq::empty(), lines: st.lines.push(decode_utf8(line)), ..st }
        }
    }
}

pub open spec fn lines_read(st: LinesState, bytes: Seq<u8>) -> LinesState
    decreases bytes.len(),
{
    if bytes.len() == 0 {
        st
    } else {
        lines_byte(lines_read(st, bytes.drop_last()), bytes.last())
    }
}

/// Parser of lines of JSON.
pub struct JsonLineParser {
    pending: Vec<u8>,
}

impl View for JsonLineParser {
    type V = Seq<u8>;

    closed spec fn view(&self) -> Seq<u8> {
        self.pending@
    }
}

impl Default for JsonLineParser {
    fn default() -> (r: JsonLineParser)
        ensures
            r@ == Seq::<u8>::empty(),
    {
        JsonLineParser { pending: Vec::new() }
    }
}

impl JsonLineParser {
    /// Takes in a chunk and gives the lines that it completes, but for blank ones.
    pub fn push_bytes(&mut self, bytes: &[u8]) -> (r: AppResult<Vec<String>>)
        ensures
            ({
                let end = lines_read(lines_start(), old(self)@ + bytes@);
                &&& match end.error {
                    None => r matches Ok(v) && texts(v@) == end.lines,
                    Some(f) => r matches Err(e) && e@ == f,
                }
                &&& final(self)@ == end.pending
            }),
    {
        let mut total: Vec<u8> = Vec::new();
        total.append(&mut self.pending);
        let ghost start = old(self)@;
        let mut k: usize = 0;
        while k < bytes.len()
            invariant
                k <= bytes@.len(),
                total@ == start + bytes@.take(k as int),
                self.pending@.len() == 0,
            decreases bytes@.len() - k,
        {
            proof {
                lemma_take_step(bytes@, k as int);
                assert(start + bytes@.take(k + 1) =~= (start + bytes@.take(k as int)).push(
                    bytes@[k as int],
                ));
            }
            total.push(bytes[k]);
            k = k + 1;
        }
        proof {
            lemma_take_full(bytes@);
        }
        let ghost all = start + bytes@;
        let mut found: Vec<String> = Vec::new();
        let mut i: usize = 0;
        proof {
            assert(texts(found@) =~= Seq::<Seq<char>>::empty());
            assert(self.pending@ =~= Seq::<u8>::empty());
        }
        while i < total.len()
            invariant
                i <= total@.len(),
                total@ == all,
                all == old(self)@ + bytes@,
                lines_read(lines_start(), all.take(i as int)) == (LinesState {
                    pending: self@,
                    lines: texts(found@),
                    error: None,
                }),
            decreases total@.len() - i,
        {
            proof {
                lemma_take_step(all, i as int);
            }
            let b: u8 = total[i];
            if b != 10u8 {
                self.pending.push(b);
            } else {
                let outcome = line_text(without_return(&self.pending));
                self.pending = Vec::new();
                proof {
                    assert(self.pending@ =~= Seq::<u8>::empty());
                }
                match outcome {
                    Err(e) => {
                        let mut j: usize = i + 1;
                        let ghost bad = lines_read(lines_start(), all.take(i + 1));
                        while j < total.len()
                            invariant
                                i < j <= total@.len(),
                                total@ == all,
                                bad.error == Some(e@),
                                lines_read(lines_start(), all.take(j as int)) == (LinesState {
                                    pending: self@,
                                    ..bad
                                }),
                            decreases total@.len() - j,
                        {
                            proof {
                                lemma_take_step(all, j as int);
                            }
                            self.pending.push(total[j]);
                            j = j + 1;
                        }
                        proof {
                            lemma_take_full(all);
                        }
                        return Err(e);
                    },
                    Ok(line) => {
                        if !blank(line.as_str()) {
                            proof {
                                lemma_texts_push(found@, line);
                            }
                            found.push(line);
                        }
                    },
                }
            }
            i = i + 1;
        }
        proof {
            lemma_take_full(all);
        }
        Ok(found)
    }

    /// Ends the stream and gives the line in work, trimmed.
    pub fn finish(&mut self) -> (r: AppResult<Vec<String>>)
        ensures
            if old(self)@.len() == 0 {
                r matches Ok(v) && v@.len() == 0 && final(self)@ == old(self)@
            } else if !valid_utf8(old(self)@) {
                &&& r matches Err(e) && e@ == utf8_failure(old(self)@)
                &&& final(self)@ == old(self)@
            } else {
                let line = trimmed(decode_utf8(old(self)@));
                &&& r matches Ok(v) && texts(v@) == if line.len() == 0 {
                    Seq::empty()
                } else {
                    seq![line]
                }
                &&& final(self)@ == Seq::<u8>::empty()
            },
    {
        let mut out: Vec<String> = Vec::new();
        if self.pending.len() == 0 {
            return Ok(out);
        }
        match line_text(self.pending.as_slice()) {
            Err(e) => Err(e),
            Ok(text) => {
                let line = trim(text.as_str());
                self.pending = Vec::new();
                proof {
                    assert(self.pending@ =~= Seq::<u8>::empty());
                }
                if !line.as_str().is_empty() {
                    out.push(line);
                }
                proof {
                    assert(texts(out@) =~= if line@.len() == 0 {
                        Seq::empty()
                    } else {
                        seq![line@]
                    });
                }
                Ok(out)
            },
        }
    }
}

// ---------------------------------------------------------------------------
// Laws
// ---------------------------------------------------------------------------

proof fn lemma_sse_concat(st: SseState, a: Seq<u8>, b: Seq<u8>)
    ensures
        sse_read(st, a + b) == sse_read(sse_read(st, a), b),
    decreases b.len(),
{
    if b.len() == 0 {
        assert(a + b =~= a);
    } else {
        assert((a + b).drop_last() =~= a + b.drop_last());
        lemma_sse_concat(st, a, b.drop_last());
    }
}

/// Bytes without a newline are only kept.
proof fn lemma_sse_kept(st: SseState, a: Seq<u8>)
    requires
        !a.contains(10u8),
    ensures
        sse_read(st, a) == (SseState { pending: st.pending + a, ..st }),
    decreases a.len(),
{
    if a.len() == 0 {
        assert(st.pending + a =~= st.pending);
    } else {
        assert(a.contains(a.last()));
        assert(!a.drop_last().contains(10u8)) by {
            if a.drop_last().contains(10u8) {
                let k = choose|k: int| 0 <= k < a.len() - 1 && a.drop_last()[k] == 10u8;
                assert(a[k] == 10u8);
            }
        }
        lemma_sse_kept(st, a.drop_last());
        assert(st.pending + a =~= (st.pending + a.drop_last()).push(a.last()));
    }
}

/// The events that were there before stay in front.
proof fn lemma_sse_events(st: SseState, e: Seq<Seq<char>>, a: Seq<u8>)
    ensures
        sse_read(SseState { events: e + st.events, ..st }, a) == (SseState {
            events: e + sse_read(st, a).events,
            ..sse_read(st, a)
        }),
    decreases a.len(),
{
    if a.len() > 0 {
        lemma_sse_events(st, e, a.drop_last());
        let mid = sse_read(st, a.drop_last());
        if let Some(p) = event_payload(mid.lines) {
            assert((e + mid.events).push(p) =~= e + mid.events.push(p));
        }
    }
}

/// As long as nothing failed, the line in work holds no newline.
proof fn lemma_sse_pending(st: SseState, a: Seq<u8>)
    requires
        !st.pending.contains(10u8),
        sse_read(st, a).error is None,
    ensures
        !sse_read(st, a).pending.contains(10u8),
    decreases a.len(),
{
    if a.len() > 0 {
        let mid = sse_read(st, a.drop_last());
        assert(mid.error is None);
        lemma_sse_pending(st, a.drop_last());
        let p = mid.pending;
        if p.push(a.last()).contains(10u8) && a.last() != 10u8 {
            let k = choose|k: int| 0 <= k < p.push(a.last()).len() && p.push(a.last())[k] == 10u8;
            assert(p[k] == 10u8);
        }
    }
}

/// A stream of events reads the same however it is cut into chunks: as long as nothing fails,
/// two chunks one after the other give the events that they give at once, and leave the parser
/// the same.
pub proof fn law_sse_chunks(v: SseView, a: Seq<u8>, b: Seq<u8>)
    requires
        sse_chunk(v, a).error is None,
    ensures
        ({
            let first = sse_chunk(v, a);
            let second = sse_chunk(SseView { pending: first.pending, lines: first.lines }, b);
            let whole = sse_chunk(v, a + b);
            &&& whole.events == first.events + second.events
            &&& whole.pending == second.pending
            &&& whole.lines == second.lines
            &&& whole.error == second.error
        }),
{
    let start = sse_start(v.lines);
    let first = sse_chunk(v, a);
    assert(v.pending + (a + b) =~= (v.pending + a) + b);
    lemma_sse_concat(start, v.pending + a, b);
    lemma_sse_pending(start, v.pending + a);
    let again = sse_start(first.lines);
    lemma_sse_kept(again, first.pending);
    assert(again.pending + first.pending =~= first.pending);
    lemma_sse_concat(again, first.pending, b);
    let resumed = SseState { pending: first.pending, ..again };
    assert(first.events + resumed.events =~= first.events);
    assert(first == SseState { events: first.events + resumed.events, ..resumed });
    lemma_sse_events(resumed, first.events, b);
}

proof fn lemma_lines_concat(st: LinesState, a: Seq<u8>, b: Seq<u8>)
    ensures
        lines_read(st, a + b) == lines_read(lines_read(st, a), b),
    decreases b.len(),
{
    if b.len() == 0 {
        assert(a + b =~= a);
    } else {
        assert((a + b).drop_last() =~= a + b.drop_last());
        lemma_lines_concat(st, a, b.drop_last());
    }
}

proof fn lemma_lines_kept(st: LinesState, a: Seq<u8>)
    requires
        !a.contains(10u8),
    ensures
        lines_read(st, a) == (LinesState { pending: st.pending + a, ..st }),
    decreases a.len(),
{
    if a.len() == 0 {
        assert(st.pending + a =~= st.pending);
    } else {
        assert(a.contains(a.last()));
        assert(!a.drop_last().contains(10u8)) by {
            if a.drop_last().contains(10u8) {
                let k = choose|k: int| 0 <= k < a.len() - 1 && a.drop_last()[k] == 10u8;
                assert(a[k] == 10u8);
            }
        }
        lemma_lines_kept(st, a.drop_last());
        assert(st.pending + a =~= (st.pending + a.drop_last()).push(a.last()));
    }
}

proof fn lemma_lines_before(st: LinesState, e: Seq<Seq<char>>, a: Seq<u8>)
    ensures
        lines_read(LinesState { lines: e + st.lines, ..st }, a) == (LinesState {
            lines: e + lines_read(st, a).lines,
            ..lines_read(st, a)
        }),
    decreases a.len(),
{
    if a.len() > 0 {
        lemma_lines_before(st, e, a.drop_last());
        let mid = lines_read(st, a.drop_last());
        let line = decode_utf8(line_bytes(mid.pending));
        assert((e + mid.lines).push(line) =~= e + mid.lines.push(line));
    }
}

proof fn lemma_lines_pending(st: LinesState, a: Seq<u8>)
    requires
        !st.pending.contains(10u8),
        lines_read(st, a).error is None,
    ensures
        !lines_read(st, a).pending.contains(10u8),
    decreases a.len(),
{
    if a.len() > 0 {
        let mid = lines_read(st, a.drop_last());
        assert(mid.error is None);
        lemma_lines_pending(st, a.drop_last());
        let p = mid.pending;
        if p.push(a.last()).contains(10u8) && a.last() != 10u8 {
            let k = choose|k: int| 0 <= k < p.push(a.last()).len() && p.push(a.last())[k] == 10u8;
            assert(p[k] == 10u8);
        }
    }
}

/// Lines of JSON read the same however they are cut into chunks, as long as nothing fails.
pub proof fn law_json_line_chunks(pending: Seq<u8>, a: Seq<u8>, b: Seq<u8>)
    requires
        lines_read(lines_start(), pending + a).error is None,
    ensures
        ({
            let first = lines_read(lines_start(), pending + a);
            let second = lines_read(lines_start(), first.pending + b);
            let whole = lines_read(lines_start(), pending + (a + b));
            &&& whole.lines == first.lines + second.lines
            &&& whole.pending == second.pending
            &&& whole.error == second.error
        }),
{
    let start = lines_start();
    let first = lines_read(start, pending + a);
    assert(pending + (a + b) =~= (pending + a) + b);
    lemma_lines_concat(start, pending + a, b);
    lemma_lines_pending(start, pending + a);
    lemma_lines_kept(start, first.pending);
    assert(start.pending + first.pending =~= first.pending);
    lemma_lines_concat(start, first.pending, b);
    let resumed = LinesState { pending: first.pending, ..start };
    assert(first.lines + resumed.lines =~= first.lines);
    assert(first == LinesState { lines: first.lines + resumed.lines, ..resumed });
    lemma_lines_before(resumed, first.lines, b);
}

} // verus!
