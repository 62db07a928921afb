//! Text as sequences of characters: the string operations that the other modules are
//! stated over.

use vstd::prelude::*;
use vstd::string::*;

verus! {

broadcast use vstd::seq_lib::group_seq_properties;

/// `String::push` appends one character.
pub assume_specification[ String::push ](s: &mut String, c: char)
    ensures
        final(s)@ == old(s)@.push(c),
;

/// The texts of a sequence of strings.
pub open spec fn texts(v: Seq<String>) -> Seq<Seq<char>> {
    v.map_values(|s: String| s@)
}

/// The text of an optional string.
pub open spec fn opt_text(o: Option<String>) -> Option<Seq<char>> {
    match o {
        Some(s) => Some(s@),
        None => None,
    }
}

/// The text of an optional borrowed string.
pub open spec fn opt_str(o: Option<&str>) -> Option<Seq<char>> {
    match o {
        Some(s) => Some(s@),
        None => None,
    }
}

pub proof fn lemma_texts_push(v: Seq<String>, s: String)
    ensures
        texts(v.push(s)) == texts(v).push(s@),
{
    assert(texts(v.push(s)) =~= texts(v).push(s@));
}

pub proof fn lemma_take_step<T>(s: Seq<T>, i: int)
    requires
        0 <= i < s.len(),
    ensures
        s.take(i + 1).drop_last() == s.take(i),
        s.take(i + 1).last() == s[i],
        s.take(i + 1) == s.take(i).push(s[i]),
        s.take(i + 1).len() == i + 1,
{
    assert(s.take(i + 1).drop_last() =~= s.take(i));
    assert(s.take(i + 1) =~= s.take(i).push(s[i]));
}

pub proof fn lemma_take_full<T>(s: Seq<T>)
    ensures
        s.take(s.len() as int) == s,
{
    assert(s.take(s.len() as int) =~= s);
}

pub proof fn lemma_skip_step<T>(s: Seq<T>, i: int)
    requires
        0 <= i < s.len(),
    ensures
        s.skip(i)[0] == s[i],
        s.skip(i).drop_first() == s.skip(i + 1),
        s.skip(i).len() == s.len() - i,
{
    assert(s.skip(i).drop_first() =~= s.skip(i + 1));
}

/// The characters of a string.
pub fn chars_of(s: &str) -> (r: Vec<char>)
    ensures
        r@ == s@,
{
    let mut out: Vec<char> = Vec::new();
    for c in iter: s.chars()
        invariant
            out@ == iter.seq().take(iter.index() as int),
            iter.seq() == s@,
    {
        proof {
            lemma_take_step(s@, iter.index() as int);
        }
        out.push(c);
    }
    proof {
        lemma_take_full(s@);
    }
    out
}

/// The string that holds the given characters.
pub fn string_of(c: &[char]) -> (r: String)
    ensures
        r@ == c@,
{
    let mut out = String::new();
    let mut i: usize = 0;
    while i < c.len()
        invariant
            i <= c@.len(),
            out@ == c@.take(i as int),
        decreases c@.len() - i,
    {
        proof {
            lemma_take_step(c@, i as int);
        }
        out.push(c[i]);
        i = i + 1;
    }
    proof {
        lemma_take_full(c@);
    }
    out
}

/// Whether two strings hold the same text.
pub fn str_eq(a: &str, b: &str) -> (r: bool)
    ensures
        r == (a@ == b@),
{
    let x = a.to_owned();
    let y = b.to_owned();
    x == y
}

/// Whether an optional string is present and holds the given text.
pub fn opt_eq(a: &Option<String>, b: &str) -> (r: bool)
    ensures
        r == (opt_text(*a) == Some(b@)),
{
    match a {
        Some(s) => str_eq(s.as_str(), b),
        None => false,
    }
}

/// A copy of an optional string.
pub fn clone_opt(a: &Option<String>) -> (r: Option<String>)
    ensures
        opt_text(r) == opt_text(*a),
{
    match a {
        Some(s) => Some(s.clone()),
        None => None,
    }
}

/// A copy of a list of strings.
pub fn clone_strings(v: &Vec<String>) -> (r: Vec<String>)
    ensures
        texts(r@) == texts(v@),
{
    let mut out: Vec<String> = Vec::new();
    let mut i: usize = 0;
    while i < v.len()
        invariant
            i <= v@.len(),
            texts(out@) == texts(v@).take(i as int),
        decreases v@.len() - i,
    {
        proof {
            lemma_take_step(texts(v@), i as int);
            lemma_texts_push(out@, v@[i as int]);
        }
        out.push(v[i].clone());
        i = i + 1;
    }
    proof {
        lemma_take_full(texts(v@));
    }
    out
}

// ---------------------------------------------------------------------------
// Character classes
// ---------------------------------------------------------------------------

/// The characters with the Unicode property White_Space.
pub open spec fn is_space(c: char) -> bool {
    let n = c as u32;
    ||| 9 <= n <= 13
    ||| n == 0x20
    ||| n == 0x85
    ||| n == 0xa0
    ||| n == 0x1680
    ||| 0x2000 <= n <= 0x200a
    ||| n == 0x2028
    ||| n == 0x2029
    ||| n == 0x202f
    ||| n == 0x205f
    ||| n == 0x3000
}

pub fn char_is_space(c: char) -> (r: bool)
    ensures
        r == is_space(c),
{
    let n: u32 = c as u32;
    (9 <= n && n <= 13) || n == 0x20 || n == 0x85 || n == 0xa0 || n == 0x1680 || (0x2000 <= n && n
        <= 0x200a) || n == 0x2028 || n == 0x2029 || n == 0x202f || n == 0x205f || n == 0x3000
}

pub open spec fn is_digit(c: char) -> bool {
    '0' <= c <= '9'
}

pub fn char_is_digit(c: char) -> (r: bool)
    ensures
        r == is_digit(c),
{
    '0' <= c && c <= '9'
}

pub open spec fn is_ascii_letter(c: char) -> bool {
    ('a' <= c <= 'z') || ('A' <= c <= 'Z')
}

pub fn char_is_ascii_letter(c: char) -> (r: bool)
    ensures
        r == is_ascii_letter(c),
{
    ('a' <= c && c <= 'z') || ('A' <= c && c <= 'Z')
}

/// The ASCII lowercase form of a character.
pub open spec fn lower(c: char) -> char {
    if 'A' <= c <= 'Z' {
        ((c as u8) + 32u8) as u8 as char
    } else {
        c
    }
}

pub fn char_lower(c: char) -> (r: char)
    ensures
        r == lower(c),
{
    if 'A' <= c && c <= 'Z' {
        ((c as u8) + 32u8) as char
    } else {
        c
    }
}

/// A text with its ASCII letters in lowercase.
pub open spec fn ascii_lower(s: Seq<char>) -> Seq<char> {
    s.map_values(|c: char| lower(c))
}

pub fn to_ascii_lower(s: &str) -> (r: String)
    ensures
        r@ == ascii_lower(s@),
{
    let c = chars_of(s);
    let mut out = String::new();
    let mut i: usize = 0;
    while i < c.len()
        invariant
            i <= c@.len(),
            c@ == s@,
            out@ == ascii_lower(s@).take(i as int),
        decreases c@.len() - i,
    {
        proof {
            lemma_take_step(ascii_lower(s@), i as int);
        }
        out.push(char_lower(c[i]));
        i = i + 1;
    }
    proof {
        lemma_take_full(ascii_lower(s@));
    }
    out
}

// ---------------------------------------------------------------------------
// Trimming
// ---------------------------------------------------------------------------

/// A text without its leading white space.
pub open spec fn trimmed_start(s: Seq<char>) -> Seq<char>
    decreases s.len(),
{
    if s.len() > 0 && is_space(s[0]) {
        trimmed_start(s.drop_first())
    } else {
        s
    }
}

/// A text without its trailing white space.
pub open spec fn trimmed_end(s: Seq<char>) -> Seq<char>
    decreases s.len(),
{
    if s.len() > 0 && is_space(s.last()) {
        trimmed_end(s.drop_last())
    } else {
        s
    }
}

/// A text without the white space at its two ends.
pub open spec fn trimmed(s: Seq<char>) -> Seq<char> {
    trimmed_end(trimmed_start(s))
}

/// Whether a text holds nothing but white space.
pub open spec fn is_blank(s: Seq<char>) -> bool {
    trimmed(s).len() == 0
}

/// The number of leading white space characters.
pub fn count_leading_space(c: &[char]) -> (n: usize)
    ensures
        n <= c@.len(),
        c@.skip(n as int) == trimmed_start(c@),
        forall|k: int| 0 <= k < n ==> is_space(c@[k]),
        n < c@.len() ==> !is_space(c@[n as int]),
{
    let mut i: usize = 0;
    proof {
        assert(c@.skip(0) =~= c@);
    }
    while i < c.len() && char_is_space(c[i])
        invariant
            i <= c@.len(),
            trimmed_start(c@.skip(i as int)) == trimmed_start(c@),
            forall|k: int| 0 <= k < i ==> is_space(c@[k]),
        decreases c@.len() - i,
    {
        proof {
            lemma_skip_step(c@, i as int);
        }
        i = i + 1;
    }
    proof {
        if i < c@.len() {
            lemma_skip_step(c@, i as int);
        }
    }
    i
}

/// The length that is left without the trailing white space.
pub fn trimmed_end_len(c: &[char]) -> (n: usize)
    ensures
        n <= c@.len(),
        c@.take(n as int) == trimmed_end(c@),
{
    let mut i: usize = c.len();
    proof {
        lemma_take_full(c@);
    }
    while i > 0 && char_is_space(c[i - 1])
        invariant
            i <= c@.len(),
            trimmed_end(c@.take(i as int)) == trimmed_end(c@),
        decreases i,
    {
        proof {
            lemma_take_step(c@, i - 1);
        }
        i = i - 1;
    }
    proof {
        if i > 0 {
            lemma_take_step(c@, i - 1);
        }
    }
    i
}

pub fn trim_start(s: &str) -> (r: String)
    ensures
        r@ == trimmed_start(s@),
{
    let c = chars_of(s);
    let n: usize = count_leading_space(c.as_slice());
    let rest = vstd::slice::slice_subrange(c.as_slice(), n, c.len());
    proof {
        assert(rest@ =~= c@.skip(n as int));
    }
    string_of(rest)
}

pub fn trim_end(s: &str) -> (r: String)
    ensures
        r@ == trimmed_end(s@),
{
    let c = chars_of(s);
    let n: usize = trimmed_end_len(c.as_slice());
    let rest = vstd::slice::slice_subrange(c.as_slice(), 0, n);
    proof {
        assert(rest@ =~= c@.take(n as int));
    }
    string_of(rest)
}

pub fn trim(s: &str) -> (r: String)
    ensures
        r@ == trimmed(s@),
{
    let t = trim_start(s);
    trim_end(t.as_str())
}

pub fn blank(s: &str) -> (r: bool)
    ensures
        r == is_blank(s@),
{
    trim(s).as_str().is_empty()
}

/// Trimming never lengthens a text.
pub proof fn lemma_trimmed_len(s: Seq<char>)
    ensures
        trimmed_start(s).len() <= s.len(),
        trimmed_end(s).len() <= s.len(),
        trimmed(s).len() <= s.len(),
{
    lemma_trimmed_start_len(s);
    lemma_trimmed_end_len(s);
    lemma_trimmed_end_len(trimmed_start(s));
}

proof fn lemma_trimmed_start_len(s: Seq<char>)
    ensures
        trimmed_start(s).len() <= s.len(),
    decreases s.len(),
{
    if s.len() > 0 && is_space(s[0]) {
        lemma_trimmed_start_len(s.drop_first());
    }
}

proof fn lemma_trimmed_end_len(s: Seq<char>)
    ensures
        trimmed_end(s).len() <= s.len(),
    decreases s.len(),
{
    if s.len() > 0 && is_space(s.last()) {
        lemma_trimmed_end_len(s.drop_last());
    }
}

/// A text that starts with something else than white space is not blank.
pub proof fn lemma_not_blank(s: Seq<char>)
    requires
        s.len() > 0,
        !is_space(s[0]),
    ensures
        !is_blank(s),
{
    lemma_trimmed_end_some(s);
}

proof fn lemma_trimmed_end_some(s: Seq<char>)
    requires
        s.len() > 0,
        !is_space(s[0]),
    ensures
        trimmed_end(s).len() > 0,
    decreases s.len(),
{
    if is_space(s.last()) {
        lemma_trimmed_end_some(s.drop_last());
    }
}

// ---------------------------------------------------------------------------
// Prefixes, suffixes and search
// ---------------------------------------------------------------------------

pub open spec fn starts_with_spec(s: Seq<char>, p: Seq<char>) -> bool {
    p.is_prefix_of(s)
}

/// Whether `p` stands in `s` at index `i`.
pub open spec fn matches_at(s: Seq<char>, p: Seq<char>, i: int) -> bool {
    0 <= i && i + p.len() <= s.len() && s.subrange(i, i + p.len()) == p
}

/// The first index from `i` on at which `p` stands in `s`.
pub open spec fn find_from(s: Seq<char>, p: Seq<char>, i: int) -> Option<int>
    decreases s.len() + 1 - i,
{
    if i < 0 || i + p.len() > s.len() {
        None
    } else if matches_at(s, p, i) {
        Some(i)
    } else {
        find_from(s, p, i + 1)
    }
}

/// The first index at which `p` stands in `s`.
pub open spec fn find_text(s: Seq<char>, p: Seq<char>) -> Option<int> {
    find_from(s, p, 0)
}

/// Whether `p` stands somewhere in `s`.
pub open spec fn contains_text(s: Seq<char>, p: Seq<char>) -> bool {
    find_text(s, p) is Some
}

/// What `find_from` finds is the least index with a match.
pub proof fn lemma_find_from(s: Seq<char>, p: Seq<char>, i: int)
    requires
        0 <= i,
    ensures
        match find_from(s, p, i) {
            Some(k) => i <= k && matches_at(s, p, k) && (forall|j: int| i <= j < k ==> !matches_at(
                s,
                p,
                j,
            )),
            None => forall|j: int| i <= j ==> !matches_at(s, p, j),
        },
    decreases s.len() + 1 - i,
{
    if i + p.len() > s.len() {
    } else if matches_at(s, p, i) {
    } else {
        lemma_find_from(s, p, i + 1);
    }
}

/// A text is contained in another one exactly when it stands at some index of it.
pub proof fn law_contained_text_stands_somewhere(s: Seq<char>, p: Seq<char>)
    ensures
        contains_text(s, p) <==> exists|i: int| matches_at(s, p, i),
{
    lemma_find_from(s, p, 0);
}

/// Whether `p` stands in `c` at index `i`.
pub fn is_at(c: &[char], p: &[char], i: usize) -> (r: bool)
    requires
        i <= c@.len(),
    ensures
        r == matches_at(c@, p@, i as int),
{
    let n: usize = c.len();
    if p.len() > n - i {
        return false;
    }
    let mut k: usize = 0;
    while k < p.len()
        invariant
            k <= p@.len(),
            n == c@.len(),
            i + p@.len() <= c@.len(),
            forall|j: int| 0 <= j < k ==> c@[i + j] == p@[j],
        decreases p@.len() - k,
    {
        if c[i + k] != p[k] {
            proof {
                assert(c@.subrange(i as int, i + p@.len())[k as int] != p@[k as int]);
            }
            return false;
        }
        k = k + 1;
    }
    proof {
        assert(c@.subrange(i as int, i + p@.len()) =~= p@);
    }
    true
}

/// The first index from `start` on at which `p` stands in `c`.
pub fn find_chars(c: &[char], p: &[char], start: usize) -> (r: Option<usize>)
    requires
        start <= c@.len(),
    ensures
        match r {
            Some(k) => find_from(c@, p@, start as int) == Some(k as int) && start <= k && k
                + p@.len() <= c@.len(),
            None => find_from(c@, p@, start as int) is None,
        },
{
    let mut i: usize = start;
    loop
        invariant
            start <= i <= c@.len(),
            find_from(c@, p@, start as int) == find_from(c@, p@, i as int),
        decreases c@.len() - i,
    {
        if p.len() > c.len() - i {
            return None;
        }
        if is_at(c, p, i) {
            return Some(i);
        }
        proof {
            if i == c@.len() {
                assert(c@.subrange(i as int, i as int) =~= p@);
            }
        }
        i = i + 1;
    }
}

pub fn starts_with(s: &str, p: &str) -> (r: bool)
    ensures
        r == starts_with_spec(s@, p@),
{
    let c = chars_of(s);
    let q = chars_of(p);
    is_at(c.as_slice(), q.as_slice(), 0)
}

pub open spec fn ends_with_spec(s: Seq<char>, p: Seq<char>) -> bool {
    p.is_suffix_of(s)
}

pub fn ends_with(s: &str, p: &str) -> (r: bool)
    ensures
        r == ends_with_spec(s@, p@),
{
    let c = chars_of(s);
    let q = chars_of(p);
    if q.len() > c.len() {
        return false;
    }
    is_at(c.as_slice(), q.as_slice(), c.len() - q.len())
}

pub fn contains(s: &str, p: &str) -> (r: bool)
    ensures
        r == contains_text(s@, p@),
{
    let c = chars_of(s);
    let q = chars_of(p);
    find_chars(c.as_slice(), q.as_slice(), 0).is_some()
}

/// A text with the given prefix taken off, where it has it.
pub open spec fn strip_prefix_spec(s: Seq<char>, p: Seq<char>) -> Option<Seq<char>> {
    if starts_with_spec(s, p) {
        Some(s.skip(p.len() as int))
    } else {
        None
    }
}

pub fn strip_prefix(s: &str, p: &str) -> (r: Option<String>)
    ensures
        opt_text(r) == strip_prefix_spec(s@, p@),
{
    let c = chars_of(s);
    let q = chars_of(p);
    if is_at(c.as_slice(), q.as_slice(), 0) {
        let rest = vstd::slice::slice_subrange(c.as_slice(), q.len(), c.len());
        proof {
            assert(rest@ =~= c@.skip(q@.len() as int));
        }
        Some(string_of(rest))
    } else {
        None
    }
}

pub open spec fn strip_suffix_spec(s: Seq<char>, p: Seq<char>) -> Option<Seq<char>> {
    if ends_with_spec(s, p) {
        Some(s.take(s.len() - p.len()))
    } else {
        None
    }
}

pub fn strip_suffix(s: &str, p: &str) -> (r: Option<String>)
    ensures
        opt_text(r) == strip_suffix_spec(s@, p@),
{
    if !ends_with(s, p) {
        return None;
    }
    let c = chars_of(s);
    let q = chars_of(p);
    let rest = vstd::slice::slice_subrange(c.as_slice(), 0, c.len() - q.len());
    proof {
        assert(rest@ =~= c@.take(c@.len() - q@.len()));
    }
    Some(string_of(rest))
}

/// A text cut in two around the first place where `p` stands in it.
pub open spec fn split_once_spec(s: Seq<char>, p: Seq<char>) -> Option<(Seq<char>, Seq<char>)> {
    match find_text(s, p) {
        Some(i) => Some((s.take(i), s.skip(i + p.len()))),
        None => None,
    }
}

pub fn split_once(s: &str, p: &str) -> (r: Option<(String, String)>)
    ensures
        match r {
            Some(pair) => split_once_spec(s@, p@) == Some((pair.0@, pair.1@)),
            None => split_once_spec(s@, p@) is None,
        },
{
    let c = chars_of(s);
    let q = chars_of(p);
    let n: usize = c.len();
    match find_chars(c.as_slice(), q.as_slice(), 0) {
        Some(i) => {
            let a = vstd::slice::slice_subrange(c.as_slice(), 0, i);
            let b = vstd::slice::slice_subrange(c.as_slice(), i + q.len(), n);
            proof {
                assert(a@ =~= c@.take(i as int));
                assert(b@ =~= c@.skip(i + q@.len()));
            }
            Some((string_of(a), string_of(b)))
        },
        None => None,
    }
}

/// The first characters of a text, at most `n`.
pub open spec fn prefix_chars(s: Seq<char>, n: nat) -> Seq<char> {
    if s.len() <= n {
        s
    } else {
        s.take(n as int)
    }
}

pub fn take_chars(s: &str, n: usize) -> (r: String)
    ensures
        r@ == prefix_chars(s@, n as nat),
{
    let c = chars_of(s);
    if c.len() <= n {
        return string_of(c.as_slice());
    }
    let a = vstd::slice::slice_subrange(c.as_slice(), 0, n);
    proof {
        assert(a@ =~= c@.take(n as int));
    }
    string_of(a)
}

// ---------------------------------------------------------------------------
// Splitting and joining
// ---------------------------------------------------------------------------

/// The pieces of a text between the characters of class `f`.
pub open spec fn split_by(s: Seq<char>, f: spec_fn(char) -> bool) -> Seq<Seq<char>>
    decreases s.len(),
{
    if s.len() == 0 {
        seq![Seq::empty()]
    } else {
        let before = split_by(s.drop_last(), f);
        if f(s.last()) {
            before.push(Seq::empty())
        } else {
            before.drop_last().push(before.last().push(s.last()))
        }
    }
}

/// The class of one character.
pub open spec fn only(c: char) -> spec_fn(char) -> bool {
    |x: char| x == c
}

/// The pieces of a text between the occurrences of one character.
pub open spec fn split_on(s: Seq<char>, c: char) -> Seq<Seq<char>> {
    split_by(s, only(c))
}

pub proof fn lemma_split_by_len(s: Seq<char>, f: spec_fn(char) -> bool)
    ensures
        1 <= split_by(s, f).len() <= s.len() + 1,
    decreases s.len(),
{
    if s.len() > 0 {
        lemma_split_by_len(s.drop_last(), f);
    }
}

pub fn split_char(s: &str, sep: char) -> (r: Vec<String>)
    ensures
        texts(r@) == split_on(s@, sep),
        r@.len() >= 1,
{
    let c = chars_of(s);
    let ghost f = only(sep);
    let mut out: Vec<String> = Vec::new();
    let mut cur = String::new();
    let mut i: usize = 0;
    proof {
        assert(texts(out@).push(cur@) =~= split_by(s@.take(0), f));
    }
    while i < c.len()
        invariant
            i <= c@.len(),
            c@ == s@,
            f == only(sep),
            texts(out@).push(cur@) == split_by(s@.take(i as int), f),
        decreases c@.len() - i,
    {
        proof {
            lemma_take_step(s@, i as int);
            assert(texts(out@).push(cur@).drop_last() =~= texts(out@));
            lemma_texts_push(out@, cur);
        }
        let ch: char = c[i];
        if ch == sep {
            out.push(cur);
            cur = String::new();
        } else {
            cur.push(ch);
        }
        i = i + 1;
    }
    proof {
        lemma_take_full(s@);
        lemma_texts_push(out@, cur);
    }
    out.push(cur);
    out
}

/// A line without the carriage return at its end.
pub open spec fn without_cr(s: Seq<char>) -> Seq<char> {
    if s.len() > 0 && s.last() == '\r' {
        s.drop_last()
    } else {
        s
    }
}

/// The lines of a text: the pieces that a newline, or a carriage return and a newline,
/// ends, and what follows the last newline unless it is empty.
pub open spec fn lines(s: Seq<char>) -> Seq<Seq<char>> {
    let pieces = split_on(s, '\n');
    let ended = pieces.drop_last().map_values(|p: Seq<char>| without_cr(p));
    if pieces.last().len() == 0 {
        ended
    } else {
        ended.push(pieces.last())
    }
}

fn drop_cr(s: &String) -> (r: String)
    ensures
        r@ == without_cr(s@),
{
    let c = chars_of(s.as_str());
    if c.len() > 0 && c[c.len() - 1] == '\r' {
        let a = vstd::slice::slice_subrange(c.as_slice(), 0, c.len() - 1);
        proof {
            assert(a@ =~= c@.drop_last());
        }
        string_of(a)
    } else {
        s.clone()
    }
}

pub fn lines_of(s: &str) -> (r: Vec<String>)
    ensures
        texts(r@) == lines(s@),
{
    let pieces = split_char(s, '\n');
    let ghost ended = texts(pieces@).drop_last().map_values(|p: Seq<char>| without_cr(p));
    let last: usize = pieces.len() - 1;
    let mut out: Vec<String> = Vec::new();
    let mut i: usize = 0;
    while i < last
        invariant
            i <= last,
            last == pieces@.len() - 1,
            ended == texts(pieces@).drop_last().map_values(|p: Seq<char>| without_cr(p)),
            texts(out@) == ended.take(i as int),
        decreases last - i,
    {
        let line = drop_cr(&pieces[i]);
        proof {
            lemma_take_step(ended, i as int);
            lemma_texts_push(out@, line);
        }
        out.push(line);
        i = i + 1;
    }
    proof {
        lemma_take_full(ended);
    }
    if !pieces[last].as_str().is_empty() {
        proof {
            lemma_texts_push(out@, pieces@[last as int]);
        }
        out.push(pieces[last].clone());
    }
    out
}

/// The non-empty members of a sequence of texts.
pub open spec fn non_empty(parts: Seq<Seq<char>>) -> Seq<Seq<char>>
    decreases parts.len(),
{
    if parts.len() == 0 {
        Seq::empty()
    } else {
        let before = non_empty(parts.drop_last());
        if parts.last().len() == 0 {
            before
        } else {
            before.push(parts.last())
        }
    }
}

/// The words of a text: its non-empty pieces between white space.
pub open spec fn words(s: Seq<char>) -> Seq<Seq<char>> {
    non_empty(split_by(s, |c: char| is_space(c)))
}

pub fn words_of(s: &str) -> (r: Vec<String>)
    ensures
        texts(r@) == words(s@),
{
    let c = chars_of(s);
    let ghost f = |c: char| is_space(c);
    let mut out: Vec<String> = Vec::new();
    let mut cur = String::new();
    let mut i: usize = 0;
    let ghost mut done: Seq<Seq<char>> = Seq::empty();
    proof {
        assert(done.push(cur@) =~= split_by(s@.take(0), f));
    }
    while i < c.len()
        invariant
            i <= c@.len(),
            c@ == s@,
            f == (|c: char| is_space(c)),
            done.push(cur@) == split_by(s@.take(i as int), f),
            texts(out@) == non_empty(done),
        decreases c@.len() - i,
    {
        let ghost before = done.push(cur@);
        proof {
            lemma_take_step(s@, i as int);
            assert(before.drop_last() =~= done);
            lemma_texts_push(out@, cur);
        }
        let ch: char = c[i];
        if char_is_space(ch) {
            proof {
                done = done.push(cur@);
            }
            if !cur.as_str().is_empty() {
                out.push(cur);
            }
            cur = String::new();
        } else {
            cur.push(ch);
        }
        i = i + 1;
    }
    proof {
        lemma_take_full(s@);
        lemma_texts_push(out@, cur);
        assert(done.push(cur@).drop_last() =~= done);
    }
    if !cur.as_str().is_empty() {
        out.push(cur);
    }
    out
}

/// Texts one after another, with a separator between each two.
pub open spec fn join(parts: Seq<Seq<char>>, sep: Seq<char>) -> Seq<char>
    decreases parts.len(),
{
    if parts.len() == 0 {
        Seq::empty()
    } else if parts.len() == 1 {
        parts[0]
    } else {
        join(parts.drop_last(), sep) + sep + parts.last()
    }
}

pub fn join_strings(parts: &Vec<String>, sep: &str) -> (r: String)
    ensures
        r@ == join(texts(parts@), sep@),
{
    let mut out = String::new();
    let mut i: usize = 0;
    while i < parts.len()
        invariant
            i <= parts@.len(),
            out@ == join(texts(parts@).take(i as int), sep@),
        decreases parts@.len() - i,
    {
        proof {
            lemma_take_step(texts(parts@), i as int);
        }
        if i == 0 {
            out = parts[0].clone();
        } else {
            out.append(sep);
            out.append(parts[i].as_str());
        }
        i = i + 1;
    }
    proof {
        lemma_take_full(texts(parts@));
    }
    out
}

/// A text repeated `n` times.
pub open spec fn repeat(s: Seq<char>, n: nat) -> Seq<char>
    decreases n,
{
    if n == 0 {
        Seq::empty()
    } else {
        repeat(s, (n - 1) as nat) + s
    }
}

pub fn repeat_str(s: &str, n: usize) -> (r: String)
    ensures
        r@ == repeat(s@, n as nat),
{
    let mut out = String::new();
    let mut i: usize = 0;
    while i < n
        invariant
            i <= n,
            out@ == repeat(s@, i as nat),
        decreases n - i,
    {
        out.append(s);
        i = i + 1;
    }
    out
}

// ---------------------------------------------------------------------------
// Numbers as text
// ---------------------------------------------------------------------------

/// The decimal digit of a number below ten.
pub open spec fn digit_char(n: nat) -> char {
    ((n + 48) as u8) as char
}

/// A number in decimal.
pub open spec fn decimal(n: nat) -> Seq<char>
    decreases n,
{
    if n < 10 {
        seq![digit_char(n)]
    } else {
        decimal(n / 10).push(digit_char(n % 10))
    }
}

pub fn decimal_string(n: u64) -> (r: String)
    ensures
        r@ == decimal(n as nat),
    decreases n,
{
    if n < 10 {
        let mut out = String::new();
        out.push(((n as u8) + 48u8) as char);
        proof {
            assert(out@ =~= decimal(n as nat));
        }
        out
    } else {
        let mut out = decimal_string(n / 10);
        out.push((((n % 10) as u8) + 48u8) as char);
        out
    }
}

// ---------------------------------------------------------------------------
// Length in bytes
// ---------------------------------------------------------------------------

/// The length of a character in UTF-8.
pub open spec fn char_bytes(c: char) -> nat {
    let n = c as u32;
    if n < 0x80 {
        1
    } else if n < 0x800 {
        2
    } else if n < 0x10000 {
        3
    } else {
        4
    }
}

pub fn char_byte_len(c: char) -> (r: usize)
    ensures
        r == char_bytes(c),
{
    let n: u32 = c as u32;
    if n < 0x80 {
        1
    } else if n < 0x800 {
        2
    } else if n < 0x10000 {
        3
    } else {
        4
    }
}

/// The length of a text in UTF-8.
pub open spec fn bytes_len(s: Seq<char>) -> nat
    decreases s.len(),
{
    if s.len() == 0 {
        0
    } else {
        bytes_len(s.drop_last()) + char_bytes(s.last())
    }
}

pub proof fn lemma_bytes_len_concat(a: Seq<char>, b: Seq<char>)
    ensures
        bytes_len(a + b) == bytes_len(a) + bytes_len(b),
    decreases b.len(),
{
    if b.len() == 0 {
        assert(a + b =~= a);
    } else {
        assert((a + b).drop_last() =~= a + b.drop_last());
        lemma_bytes_len_concat(a, b.drop_last());
    }
}

pub proof fn lemma_bytes_len_ge(s: Seq<char>)
    ensures
        s.len() <= bytes_len(s),
    decreases s.len(),
{
    if s.len() > 0 {
        lemma_bytes_len_ge(s.drop_last());
    }
}

/// A longer prefix has more bytes.
pub proof fn lemma_bytes_len_prefix(s: Seq<char>, i: int, j: int)
    requires
        0 <= i <= j <= s.len(),
    ensures
        bytes_len(s.take(i)) <= bytes_len(s.take(j)),
        i < j ==> bytes_len(s.take(i)) < bytes_len(s.take(j)),
    decreases j - i,
{
    if i < j {
        lemma_take_step(s, j - 1);
        lemma_bytes_len_prefix(s, i, j - 1);
    }
}

proof fn lemma_encode_len(s: Seq<char>)
    ensures
        vstd::utf8::encode_utf8(s).len() == bytes_len(s),
    decreases s.len(),
{
    if s.len() > 0 {
        let first = seq![s[0]];
        assert(s =~= first + s.drop_first());
        lemma_bytes_len_concat(first, s.drop_first());
        assert(first.drop_last() =~= Seq::<char>::empty());
        assert(bytes_len(first) == bytes_len(first.drop_last()) + char_bytes(s[0]));
        lemma_encode_len(s.drop_first());
        vstd::utf8::encode_utf8_first_scalar(s);
    }
}

/// The length of a string in bytes.
pub fn byte_len(s: &str) -> (n: usize)
    ensures
        n == bytes_len(s@),
{
    proof {
        lemma_encode_len(s@);
    }
    let b = s.as_bytes();
    b.len()
}

// ---------------------------------------------------------------------------
// Replacing, lists of words
// ---------------------------------------------------------------------------

/// A text from index `i` on with every occurrence of `from` replaced, left to right.
pub open spec fn replaced_from(s: Seq<char>, from: Seq<char>, to: Seq<char>, i: int) -> Seq<char>
    decreases s.len() - i,
{
    if i < 0 || i >= s.len() {
        Seq::empty()
    } else if from.len() > 0 && matches_at(s, from, i) {
        to + replaced_from(s, from, to, i + from.len())
    } else {
        seq![s[i]] + replaced_from(s, from, to, i + 1)
    }
}

/// A text with every occurrence of a non-empty text replaced.
pub open spec fn replaced(s: Seq<char>, from: Seq<char>, to: Seq<char>) -> Seq<char> {
    replaced_from(s, from, to, 0)
}

pub fn replace(s: &str, from: &str, to: &str) -> (r: String)
    requires
        from@.len() > 0,
    ensures
        r@ == replaced(s@, from@, to@),
{
    let c = chars_of(s);
    let f = chars_of(from);
    let n: usize = c.len();
    let mut out = String::new();
    let mut i: usize = 0;
    while i < n
        invariant
            i <= n,
            n == c@.len(),
            c@ == s@,
            f@ == from@,
            from@.len() > 0,
            out@ + replaced_from(s@, from@, to@, i as int) == replaced(s@, from@, to@),
        decreases n - i,
    {
        let ghost before = out@;
        if is_at(c.as_slice(), f.as_slice(), i) {
            out.append(to);
            i = i + f.len();
            proof {
                assert(before + (to@ + replaced_from(s@, from@, to@, i as int)) =~= (before + to@)
                    + replaced_from(s@, from@, to@, i as int));
            }
        } else {
            out.push(c[i]);
            i = i + 1;
            proof {
                assert(before + (seq![s@[i - 1]] + replaced_from(s@, from@, to@, i as int))
                    =~= before.push(s@[i - 1]) + replaced_from(s@, from@, to@, i as int));
            }
        }
    }
    out
}

/// Whether a text is one of the given words.
pub open spec fn in_list(s: Seq<char>, set: Seq<&str>) -> bool {
    exists|i: int| 0 <= i < set.len() && (#[trigger] set[i])@ == s
}

pub fn one_of(s: &str, set: &[&str]) -> (r: bool)
    ensures
        r == in_list(s@, set@),
{
    let mut i: usize = 0;
    while i < set.len()
        invariant
            i <= set@.len(),
            forall|k: int| 0 <= k < i ==> (#[trigger] set@[k])@ != s@,
        decreases set@.len() - i,
    {
        if str_eq(set[i], s) {
            return true;
        }
        i = i + 1;
    }
    false
}

/// Whether all characters of a text are among the given ones.
pub open spec fn all_in(s: Seq<char>, set: Seq<char>) -> bool {
    forall|i: int| 0 <= i < s.len() ==> set.contains(#[trigger] s[i])
}

pub fn char_in(c: char, set: &str) -> (r: bool)
    ensures
        r == set@.contains(c),
{
    let m = chars_of(set);
    let mut i: usize = 0;
    while i < m.len()
        invariant
            i <= m@.len(),
            m@ == set@,
            forall|k: int| 0 <= k < i ==> set@[k] != c,
        decreases m@.len() - i,
    {
        if m[i] == c {
            return true;
        }
        i = i + 1;
    }
    false
}

pub fn only_chars(s: &str, set: &str) -> (r: bool)
    ensures
        r == all_in(s@, set@),
{
    let c = chars_of(s);
    let mut i: usize = 0;
    while i < c.len()
        invariant
            i <= c@.len(),
            c@ == s@,
            forall|k: int| 0 <= k < i ==> set@.contains(#[trigger] s@[k]),
        decreases c@.len() - i,
    {
        if !char_in(c[i], set) {
            return false;
        }
        i = i + 1;
    }
    true
}

pub fn has_char(s: &str, c: char) -> (r: bool)
    ensures
        r == s@.contains(c),
{
    char_in(c, s)
}

/// Around a separator a text is cut into shorter pieces.
pub proof fn lemma_split_once_len(s: Seq<char>, p: Seq<char>)
    ensures
        split_once_spec(s, p) matches Some((a, b)) ==> a.len() + p.len() + b.len() == s.len(),
{
    lemma_find_from(s, p, 0);
}

/// A text cut at an index.
pub fn substring(c: &[char], from: usize, to: usize) -> (r: String)
    requires
        from <= to <= c@.len(),
    ensures
        r@ == c@.subrange(from as int, to as int),
{
    string_of(vstd::slice::slice_subrange(c, from, to))
}

/// The pieces of two texts in a row: those of the first but the last, and those of what the
/// second makes of the last.
pub proof fn lemma_split_concat(x: Seq<char>, y: Seq<char>, f: spec_fn(char) -> bool)
    ensures
        split_by(x + y, f) == split_by(x, f).drop_last() + split_by(
            split_by(x, f).last() + y,
            f,
        ),
    decreases y.len(),
{
    lemma_split_by_len(x, f);
    let p = split_by(x, f);
    if y.len() == 0 {
        assert(x + y =~= x);
        assert(p.last() + y =~= p.last());
        lemma_last_piece(x, f);
        assert(split_by(p.last(), f) =~= seq![p.last()]);
        assert(p =~= p.drop_last() + seq![p.last()]);
    } else {
        let z = y.drop_last();
        lemma_split_concat(x, z, f);
        assert((x + y).drop_last() =~= x + z);
        assert((p.last() + y).drop_last() =~= p.last() + z);
        let q = split_by(p.last() + z, f);
        lemma_split_by_len(p.last() + z, f);
        assert((p.drop_last() + q).last() == q.last());
        assert((p.drop_last() + q).drop_last() =~= p.drop_last() + q.drop_last());
        assert(split_by(x + y, f) =~= p.drop_last() + split_by(p.last() + y, f));
    }
}

/// The last piece of a text holds no separator, so it is its own only piece.
pub proof fn lemma_last_piece(x: Seq<char>, f: spec_fn(char) -> bool)
    ensures
        split_by(split_by(x, f).last(), f) == seq![split_by(x, f).last()],
        forall|i: int|
            0 <= i < split_by(x, f).last().len() ==> !f(#[trigger] split_by(x, f).last()[i]),
    decreases x.len(),
{
    lemma_split_by_len(x, f);
    if x.len() == 0 {
    } else {
        lemma_last_piece(x.drop_last(), f);
        lemma_split_by_len(x.drop_last(), f);
        let before = split_by(x.drop_last(), f);
        if f(x.last()) {
            assert(split_by(x, f).last() =~= Seq::<char>::empty());
        } else {
            let w = before.last().push(x.last());
            assert(split_by(x, f).last() == w);
            assert(w.drop_last() =~= before.last());
            assert(split_by(w, f) =~= seq![w]);
        }
    }
}

/// A text without a separator is its own only piece.
pub proof fn lemma_split_none(x: Seq<char>, f: spec_fn(char) -> bool)
    requires
        forall|i: int| 0 <= i < x.len() ==> !f(#[trigger] x[i]),
    ensures
        split_by(x, f) == seq![x],
    decreases x.len(),
{
    if x.len() == 0 {
        assert(split_by(x, f) =~= seq![x]);
    } else {
        lemma_split_none(x.drop_last(), f);
        assert(x.drop_last().push(x.last()) =~= x);
        assert(split_by(x, f) =~= seq![x]);
    }
}

/// The number that decimal digits stand for.
pub open spec fn digits_value(s: Seq<char>) -> nat
    decreases s.len(),
{
    if s.len() == 0 {
        0
    } else {
        digits_value(s.drop_last()) * 10 + ((s.last() as u32) - 48) as nat
    }
}

pub open spec fn only_digits(s: Seq<char>) -> bool {
    forall|i: int| 0 <= i < s.len() ==> is_digit(#[trigger] s[i])
}

/// The number that a text gives, if it is one of at most `max`: decimal digits, with a plus
/// sign in front or without.
pub open spec fn number_of(s: Seq<char>, max: nat) -> Option<nat> {
    let d = if s.len() > 0 && s[0] == '+' {
        s.drop_first()
    } else {
        s
    };
    if d.len() > 0 && only_digits(d) && digits_value(d) <= max {
        Some(digits_value(d))
    } else {
        None
    }
}

pub proof fn lemma_digits_grow(s: Seq<char>, i: int)
    requires
        0 <= i <= s.len(),
        only_digits(s),
    ensures
        digits_value(s.take(i)) <= digits_value(s),
    decreases s.len() - i,
{
    if i == s.len() {
        lemma_take_full(s);
    } else {
        lemma_take_step(s, i);
        lemma_digits_grow(s, i + 1);
    }
}

pub fn parse_number(s: &str, max: u64) -> (r: Option<u64>)
    ensures
        match r {
            Some(n) => number_of(s@, max as nat) == Some(n as nat),
            None => number_of(s@, max as nat) is None,
        },
{
    let c = chars_of(s);
    let start: usize = if c.len() > 0 && c[0] == '+' {
        1
    } else {
        0
    };
    let d = vstd::slice::slice_subrange(c.as_slice(), start, c.len());
    proof {
        assert(start == 1 ==> d@ =~= s@.drop_first());
        assert(start == 0 ==> d@ =~= s@);
    }
    if d.len() == 0 {
        return None;
    }
    let mut k: usize = 0;
    while k < d.len()
        invariant
            k <= d@.len(),
            number_of(s@, max as nat) == if only_digits(d@) && digits_value(d@) <= max {
                Some(digits_value(d@))
            } else {
                None::<nat>
            },
            forall|j: int| 0 <= j < k ==> is_digit(#[trigger] d@[j]),
        ensures
            k == d@.len(),
            only_digits(d@),
        decreases d@.len() - k,
    {
        if !char_is_digit(d[k]) {
            proof {
                assert(!is_digit(d@[k as int]));
            }
            return None;
        }
        k = k + 1;
    }
    let mut value: u64 = 0;
    let mut i: usize = 0;
    while i < d.len()
        invariant
            i <= d@.len(),
            only_digits(d@),
            value == digits_value(d@.take(i as int)),
            value <= max,
            d@.len() > 0,
            number_of(s@, max as nat) == if digits_value(d@) <= max {
                Some(digits_value(d@))
            } else {
                None::<nat>
            },
        decreases d@.len() - i,
    {
        proof {
            lemma_take_step(d@, i as int);
            lemma_digits_grow(d@, i + 1);
        }
        let v: u64 = (d[i] as u32 - 48) as u64;
        let wide: u128 = (value as u128) * 10 + (v as u128);
        if wide > max as u128 {
            return None;
        }
        value = wide as u64;
        i = i + 1;
    }
    proof {
        lemma_take_full(d@);
    }
    Some(value)
}

/// A text on one line, its words one space apart, cut after `n` characters.
pub open spec fn preview(s: Seq<char>, n: nat) -> Seq<char> {
    let line = join(words(s), " "@);
    if line.len() <= n {
        line
    } else {
        line.take(n as int) + "..."@
    }
}

pub fn preview_string(s: &str, n: usize) -> (r: String)
    ensures
        r@ == preview(s@, n as nat),
{
    let w = words_of(s);
    let line = join_strings(&w, " ");
    let c = chars_of(line.as_str());
    if c.len() <= n {
        return line;
    }
    let head = substring(c.as_slice(), 0, n);
    proof {
        assert(head@ =~= line@.take(n as int));
    }
    head.concat("...")
}

pub fn decimal_wide(n: u128) -> (r: String)
    ensures
        r@ == decimal(n as nat),
    decreases n,
{
    if n < 10 {
        let mut out = String::new();
        out.push(((n as u8) + 48u8) as char);
        proof {
            assert(out@ =~= decimal(n as nat));
        }
        out
    } else {
        let mut out = decimal_wide(n / 10);
        out.push((((n % 10) as u8) + 48u8) as char);
        out
    }
}

/// A number in decimal reads back as itself.
pub proof fn law_decimal_reads_back(n: nat, max: nat)
    requires
        n <= max,
    ensures
        number_of(decimal(n), max) == Some(n),
{
    lemma_decimal_digits(n);
    assert(is_digit(decimal(n)[0]));
}

proof fn lemma_decimal_digits(n: nat)
    ensures
        decimal(n).len() > 0,
        only_digits(decimal(n)),
        digits_value(decimal(n)) == n,
    decreases n,
{
    let d = decimal(n);
    if n < 10 {
        assert(d.drop_last() =~= Seq::<char>::empty());
        assert(digits_value(d.drop_last()) == 0);
    } else {
        lemma_decimal_digits(n / 10);
        assert(d.drop_last() =~= decimal(n / 10));
        assert forall|i: int| 0 <= i < d.len() implies is_digit(#[trigger] d[i]) by {
            if i < d.len() - 1 {
                assert(decimal(n / 10)[i] == d[i]);
            }
        }
    }
}

// ---------------------------------------------------------------------------
// Cutting by bytes
// ---------------------------------------------------------------------------

/// The longest prefix of a text of at most `max` bytes.
pub open spec fn byte_prefix(s: Seq<char>, max: nat) -> Seq<char>
    decreases s.len(),
{
    if bytes_len(s) <= max {
        s
    } else if s.len() == 0 {
        s
    } else {
        byte_prefix(s.drop_last(), max)
    }
}

pub fn take_bytes(s: &str, max: usize) -> (r: String)
    ensures
        r@ == byte_prefix(s@, max as nat),
{
    let c = chars_of(s);
    let n: usize = c.len();
    let mut used: usize = 0;
    let mut i: usize = 0;
    while i < n && char_byte_len(c[i]) <= max - used
        invariant
            i <= n,
            n == c@.len(),
            c@ == s@,
            used == bytes_len(s@.take(i as int)),
            used <= max,
        decreases n - i,
    {
        proof {
            lemma_take_step(s@, i as int);
        }
        used = used + char_byte_len(c[i]);
        i = i + 1;
    }
    proof {
        if i < n {
            lemma_take_step(s@, i as int);
        }
        lemma_byte_prefix(s@, max as nat, i as int);
    }
    let r = substring(c.as_slice(), 0, i);
    proof {
        assert(r@ =~= s@.take(i as int));
    }
    r
}

proof fn lemma_byte_prefix(s: Seq<char>, max: nat, i: int)
    requires
        0 <= i <= s.len(),
        bytes_len(s.take(i)) <= max,
        i < s.len() ==> bytes_len(s.take(i + 1)) > max,
    ensures
        byte_prefix(s, max) == s.take(i),
    decreases s.len(),
{
    lemma_take_full(s);
    if i < s.len() {
        lemma_bytes_len_prefix(s, i + 1, s.len() as int);
        let t = s.drop_last();
        assert(t.take(i) =~= s.take(i));
        if i + 1 < s.len() {
            assert(t.take(i + 1) =~= s.take(i + 1));
        }
        lemma_byte_prefix(t, max, i);
    }
}

// ---------------------------------------------------------------------------
// Offsets in bytes
// ---------------------------------------------------------------------------

/// The text before an offset.
pub open spec fn before_at(s: Seq<char>, offset: nat) -> Seq<char> {
    byte_prefix(s, offset)
}

/// The text from an offset on.
pub open spec fn after_at(s: Seq<char>, offset: nat) -> Seq<char> {
    s.skip(before_at(s, offset).len() as int)
}

/// Whether an offset stands between two characters, or at an end.
pub open spec fn on_boundary(s: Seq<char>, offset: nat) -> bool {
    bytes_len(before_at(s, offset)) == offset
}

pub proof fn lemma_head(s: Seq<char>, offset: nat)
    ensures
        before_at(s, offset).len() <= s.len(),
        before_at(s, offset) == s.take(before_at(s, offset).len() as int),
        bytes_len(before_at(s, offset)) <= offset || before_at(s, offset).len() == 0,
        s == before_at(s, offset) + after_at(s, offset),
    decreases s.len(),
{
    if bytes_len(s) <= offset || s.len() == 0 {
        lemma_take_full(s);
    } else {
        lemma_head(s.drop_last(), offset);
        let n = before_at(s, offset).len() as int;
        assert(s.drop_last().take(n) =~= s.take(n));
    }
    assert(s =~= before_at(s, offset) + after_at(s, offset));
}

/// The length of a prefix is an offset between two characters, and gives that prefix back.
pub proof fn lemma_head_of_prefix(s: Seq<char>, k: int)
    requires
        0 <= k <= s.len(),
    ensures
        before_at(s, bytes_len(s.take(k))) == s.take(k),
        after_at(s, bytes_len(s.take(k))) == s.skip(k),
        on_boundary(s, bytes_len(s.take(k))),
    decreases s.len(),
{
    let off = bytes_len(s.take(k));
    if k == s.len() {
        lemma_take_full(s);
    } else {
        lemma_take_full(s);
        lemma_bytes_len_prefix(s, k, s.len() as int);
        lemma_head_of_prefix(s.drop_last(), k);
        assert(s.drop_last().take(k) =~= s.take(k));
    }
}

} // verus!
