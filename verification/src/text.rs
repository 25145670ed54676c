//! Character-level text primitives: the building blocks that the room,
//! assertion, delta and merge logic is written with.  Every function here
//! works on the `Seq<char>` view of a string and is specified against a
//! spec function of the same name.
use vstd::prelude::*;
use vstd::std_specs::iter::IteratorSpec;

verus! {

broadcast use vstd::string::group_string_axioms;

// ------------------------------------------------------------------
// Conversions between `str`/`String` and character vectors
// ------------------------------------------------------------------

/// The characters of `s`, in order.
pub fn chars_of(s: &str) -> (r: Vec<char>)
    ensures
        r@ == s@,
{
    let mut out: Vec<char> = Vec::new();
    let mut it = s.chars();
    loop
        invariant
            out@ + it.remaining() == s@,
            it.decrease() is Some,
        ensures
            out@ == s@,
        decreases it.decrease()->0,
    {
        match it.next() {
            Some(c) => {
                out.push(c);
            },
            None => {
                break ;
            },
        }
    }
    out
}

/// `String::push`: appends one character to the end of the string.
#[verifier::external_body]
pub(crate) fn push_char(s: &mut String, c: char)
    ensures
        final(s)@ == old(s)@.push(c),
{
    s.push(c)
}

/// Appends every character of `cs` to `out`.
pub fn push_chars(out: &mut String, cs: &Vec<char>)
    ensures
        final(out)@ == old(out)@ + cs@,
{
    let mut i: usize = 0;
    while i < cs.len()
        invariant
            i <= cs.len(),
            out@ == old(out)@ + cs@.take(i as int),
        decreases cs.len() - i,
    {
        push_char(out, cs[i]);
        i = i + 1;
        assert(cs@.take(i as int) == cs@.take((i - 1) as int).push(cs@[i - 1]));
    }
    assert(cs@.take(cs.len() as int) == cs@);
}

/// Appends every character of `s` to `out`.
pub fn push_str(out: &mut String, s: &str)
    ensures
        final(out)@ == old(out)@ + s@,
{
    let cs = chars_of(s);
    push_chars(out, &cs);
}

/// A fresh `String` holding exactly the characters `cs`.
pub fn string_of(cs: &Vec<char>) -> (r: String)
    ensures
        r@ == cs@,
{
    let mut out = String::new();
    push_chars(&mut out, cs);
    assert(Seq::<char>::empty() + cs@ == cs@);
    out
}

/// A fresh `String` holding the characters of `s`.
pub fn string_from(s: &str) -> (r: String)
    ensures
        r@ == s@,
{
    let cs = chars_of(s);
    string_of(&cs)
}

/// Whether two character vectors hold the same characters.
pub fn chars_equal(a: &Vec<char>, b: &Vec<char>) -> (r: bool)
    ensures
        r == (a@ == b@),
{
    if a.len() != b.len() {
        return false;
    }
    let mut i: usize = 0;
    while i < a.len()
        invariant
            a.len() == b.len(),
            i <= a.len(),
            forall|k: int| 0 <= k < i ==> a@[k] == b@[k],
        decreases a.len() - i,
    {
        if a[i] != b[i] {
            return false;
        }
        i = i + 1;
    }
    assert(a@ =~= b@);
    true
}

/// Whether two string slices hold the same characters.
pub fn str_equal(a: &str, b: &str) -> (r: bool)
    ensures
        r == (a@ == b@),
{
    let x = chars_of(a);
    let y = chars_of(b);
    chars_equal(&x, &y)
}


// ------------------------------------------------------------------
// Whitespace and trimming
// ------------------------------------------------------------------

/// The Unicode `White_Space` property, which `char::is_whitespace` tests.
pub open spec fn is_whitespace(c: char) -> bool {
    let n = c as u32;
    ||| 0x9 <= n <= 0xd
    ||| n == 0x20 || n == 0x85 || n == 0xa0 || n == 0x1680
    ||| 0x2000 <= n <= 0x200a
    ||| n == 0x2028 || n == 0x2029 || n == 0x202f || n == 0x205f || n == 0x3000
}

/// `s` without its leading whitespace.
pub open spec fn trim_start(s: Seq<char>) -> Seq<char>
    decreases s.len(),
{
    if s.len() > 0 && is_whitespace(s[0]) {
        trim_start(s.drop_first())
    } else {
        s
    }
}

/// `s` without its trailing whitespace.
pub open spec fn trim_end(s: Seq<char>) -> Seq<char>
    decreases s.len(),
{
    if s.len() > 0 && is_whitespace(s.last()) {
        trim_end(s.drop_last())
    } else {
        s
    }
}

/// `s` without leading and trailing whitespace, as `str::trim` gives it.
pub open spec fn trim(s: Seq<char>) -> Seq<char> {
    trim_end(trim_start(s))
}

pub fn is_whitespace_char(c: char) -> (r: bool)
    ensures
        r == is_whitespace(c),
{
    let n = c as u32;
    (0x9 <= n && n <= 0xd) || n == 0x20 || n == 0x85 || n == 0xa0 || n == 0x1680 || (0x2000 <= n
        && n <= 0x200a) || n == 0x2028 || n == 0x2029 || n == 0x202f || n == 0x205f || n == 0x3000
}

proof fn lemma_trim_start_skip(s: Seq<char>, a: int)
    requires
        0 <= a <= s.len(),
        forall|k: int| 0 <= k < a ==> is_whitespace(#[trigger] s[k]),
        a == s.len() || !is_whitespace(s[a]),
    ensures
        trim_start(s) == s.skip(a),
    decreases a,
{
    if a == 0 {
        assert(s.skip(0) =~= s);
    } else {
        assert(is_whitespace(s[0]));
        let t = s.drop_first();
        assert forall|k: int| 0 <= k < a - 1 implies is_whitespace(#[trigger] t[k]) by {
            assert(t[k] == s[k + 1]);
        }
        if a - 1 < t.len() {
            assert(t[a - 1] == s[a]);
        }
        lemma_trim_start_skip(t, a - 1);
        assert(t.skip(a - 1) =~= s.skip(a));
    }
}

proof fn lemma_trim_end_take(s: Seq<char>, b: int)
    requires
        0 <= b <= s.len(),
        forall|k: int| b <= k < s.len() ==> is_whitespace(#[trigger] s[k]),
        b == 0 || !is_whitespace(s[b - 1]),
    ensures
        trim_end(s) == s.take(b),
    decreases s.len() - b,
{
    if b == s.len() {
        assert(s.take(b) =~= s);
    } else {
        assert(is_whitespace(s.last()));
        let t = s.drop_last();
        assert forall|k: int| b <= k < t.len() implies is_whitespace(#[trigger] t[k]) by {
            assert(t[k] == s[k]);
        }
        if b > 0 {
            assert(t[b - 1] == s[b - 1]);
        }
        lemma_trim_end_take(t, b);
        assert(t.take(b) =~= s.take(b));
    }
}

/// `s` without leading and trailing whitespace.
pub fn trim_chars(s: &Vec<char>) -> (r: Vec<char>)
    ensures
        r@ == trim(s@),
{
    let mut a: usize = 0;
    while a < s.len() && is_whitespace_char(s[a])
        invariant
            a <= s.len(),
            forall|k: int| 0 <= k < a ==> is_whitespace(#[trigger] s@[k]),
        decreases s.len() - a,
    {
        a = a + 1;
    }
    proof {
        lemma_trim_start_skip(s@, a as int);
    }
    let ghost t = s@.skip(a as int);
    let mut b: usize = s.len();
    while b > a && is_whitespace_char(s[b - 1])
        invariant
            a <= b <= s.len(),
            t == s@.skip(a as int),
            forall|k: int| b <= k < s.len() ==> is_whitespace(#[trigger] s@[k]),
        decreases b,
    {
        b = b - 1;
    }
    proof {
        assert forall|k: int| b - a <= k < t.len() implies is_whitespace(#[trigger] t[k]) by {
            assert(t[k] == s@[k + a]);
        }
        if b > a {
            assert(t[b - a - 1] == s@[b - 1]);
        }
        lemma_trim_end_take(t, b - a);
    }
    let mut out: Vec<char> = Vec::new();
    let mut i: usize = a;
    while i < b
        invariant
            a <= i <= b <= s.len(),
            out@ == s@.subrange(a as int, i as int),
        decreases b - i,
    {
        out.push(s[i]);
        i = i + 1;
        assert(out@ =~= s@.subrange(a as int, i as int));
    }
    assert(t.take(b - a) =~= s@.subrange(a as int, b as int));
    out
}

// ------------------------------------------------------------------
// Removing one character everywhere
// ------------------------------------------------------------------

/// `s` with every occurrence of `c` removed, as `replace(c, "")` gives it.
pub open spec fn remove_char(s: Seq<char>, c: char) -> Seq<char>
    decreases s.len(),
{
    if s.len() == 0 {
        s
    } else if s.last() == c {
        remove_char(s.drop_last(), c)
    } else {
        remove_char(s.drop_last(), c).push(s.last())
    }
}

pub fn remove_char_all(s: &Vec<char>, c: char) -> (r: Vec<char>)
    ensures
        r@ == remove_char(s@, c),
{
    let mut out: Vec<char> = Vec::new();
    let mut i: usize = 0;
    while i < s.len()
        invariant
            i <= s.len(),
            out@ == remove_char(s@.take(i as int), c),
        decreases s.len() - i,
    {
        assert(s@.take(i + 1).drop_last() =~= s@.take(i as int));
        if s[i] != c {
            out.push(s[i]);
        }
        i = i + 1;
    }
    assert(s@.take(s.len() as int) =~= s@);
    out
}

// ------------------------------------------------------------------
// Searching
// ------------------------------------------------------------------

/// Whether `pat` occurs in `s` starting at position `i`.
pub open spec fn occurs_at(s: Seq<char>, pat: Seq<char>, i: int) -> bool {
    0 <= i && i + pat.len() <= s.len() && s.subrange(i, i + pat.len()) == pat
}

/// Whether `pat` occurs anywhere in `s`, as `str::contains` tests.
pub open spec fn contains(s: Seq<char>, pat: Seq<char>) -> bool {
    exists|i: int| occurs_at(s, pat, i)
}

/// The first position at or after `k` where `pat` occurs in `s`.
pub open spec fn index_from(s: Seq<char>, pat: Seq<char>, k: int) -> Option<int>
    decreases s.len() + 1 - k,
{
    if k < 0 || k + pat.len() > s.len() {
        None
    } else if s.subrange(k, k + pat.len()) == pat {
        Some(k)
    } else {
        index_from(s, pat, k + 1)
    }
}

/// What `index_from` returns is the first occurrence at or after `k`.
pub proof fn lemma_index_from(s: Seq<char>, pat: Seq<char>, k: int)
    requires
        0 <= k,
    ensures
        index_from(s, pat, k) matches Some(j) ==> k <= j && occurs_at(s, pat, j) && forall|m: int|
            k <= m < j ==> !#[trigger] occurs_at(s, pat, m),
        index_from(s, pat, k) is None ==> forall|m: int| k <= m ==> !#[trigger] occurs_at(s, pat, m),
    decreases s.len() + 1 - k,
{
    if k + pat.len() > s.len() {
    } else if s.subrange(k, k + pat.len()) == pat {
    } else {
        lemma_index_from(s, pat, k + 1);
    }
}

/// Whether `pat` occurs in `s` at position `i`.
pub fn occurs_at_exec(s: &Vec<char>, pat: &Vec<char>, i: usize) -> (r: bool)
    ensures
        r == occurs_at(s@, pat@, i as int),
{
    if i > s.len() || pat.len() > s.len() - i {
        return false;
    }
    let mut j: usize = 0;
    while j < pat.len()
        invariant
            i + pat.len() <= s.len(),
            j <= pat.len(),
            forall|m: int| 0 <= m < j ==> s@[i + m] == pat@[m],
        decreases pat.len() - j,
    {
        if s[i + j] != pat[j] {
            assert(s@.subrange(i as int, i + pat.len())[j as int] != pat@[j as int]);
            return false;
        }
        j = j + 1;
    }
    assert(s@.subrange(i as int, i + pat.len()) =~= pat@);
    true
}

/// The first position at or after `k` where `pat` occurs in `s`.
pub fn find_from(s: &Vec<char>, pat: &Vec<char>, k: usize) -> (r: Option<usize>)
    ensures
        r matches Some(j) ==> index_from(s@, pat@, k as int) == Some(j as int),
        r is None ==> index_from(s@, pat@, k as int) is None,
{
    if pat.len() > s.len() || k > s.len() - pat.len() {
        return None;
    }
    if pat.len() == 0 {
        assert(s@.subrange(k as int, k as int) =~= pat@);
        return Some(k);
    }
    let mut i: usize = k;
    while i <= s.len() - pat.len()
        invariant
            1 <= pat.len() <= s.len(),
            k <= i,
            index_from(s@, pat@, k as int) == index_from(s@, pat@, i as int),
        decreases s.len() - i,
    {
        if occurs_at_exec(s, pat, i) {
            return Some(i);
        }
        i = i + 1;
    }
    None
}

/// Whether `pat` occurs anywhere in `s`.
pub fn contains_chars(s: &Vec<char>, pat: &Vec<char>) -> (r: bool)
    ensures
        r == contains(s@, pat@),
{
    let f = find_from(s, pat, 0);
    proof {
        lemma_index_from(s@, pat@, 0);
    }
    f.is_some()
}

/// The character sequences held by a vector of character vectors.
pub open spec fn char_vecs(v: Seq<Vec<char>>) -> Seq<Seq<char>> {
    Seq::new(v.len(), |i: int| v[i]@)
}

/// Pushing a string onto a vector of strings pushes its text onto the
/// vector's deep view.
pub proof fn lemma_push_string(before: Vec<String>, after: Vec<String>, s: String)
    requires
        after@ == before@.push(s),
    ensures
        after.deep_view() == before.deep_view().push(s@),
{
    assert forall|k: int| 0 <= k < before@.len() implies #[trigger] after.deep_view()[k]
        == before.deep_view()[k] by {
        assert(after@[k] == before@[k]);
    }
    assert(after.deep_view() =~= before.deep_view().push(s@));
}

/// A copy of `s[a..b]`.
pub fn slice_chars(s: &Vec<char>, a: usize, b: usize) -> (r: Vec<char>)
    requires
        a <= b <= s.len(),
    ensures
        r@ == s@.subrange(a as int, b as int),
{
    let mut out: Vec<char> = Vec::new();
    let mut i: usize = a;
    while i < b
        invariant
            a <= i <= b <= s.len(),
            out@ == s@.subrange(a as int, i as int),
        decreases b - i,
    {
        out.push(s[i]);
        i = i + 1;
        assert(out@ =~= s@.subrange(a as int, i as int));
    }
    out
}

// ------------------------------------------------------------------
// Splitting
// ------------------------------------------------------------------

/// The piece of `s` that follows the last match of `pat`, where matches are
/// taken left to right without overlap from `start` on.  This is the last
/// item of `str::split` for a nonempty pattern.
pub open spec fn after_last_match_from(s: Seq<char>, pat: Seq<char>, start: int) -> Seq<char>
    decreases s.len() + 1 - start,
    when pat.len() > 0 && 0 <= start
{
    match index_from(s, pat, start) {
        Some(i) => {
            proof {
                lemma_index_from(s, pat, start);
            }
            after_last_match_from(s, pat, i + pat.len())
        },
        None => s.subrange(start, s.len() as int),
    }
}

/// What `s.split(pat).last()` yields for a nonempty `pat`.
pub open spec fn after_last_match(s: Seq<char>, pat: Seq<char>) -> Seq<char> {
    after_last_match_from(s, pat, 0)
}

/// When `pat` occurs at `j`, nowhere after `j` and nowhere overlapping that
/// occurrence from the left, the piece after the last match, scanning from
/// any `start` up to `j`, is what follows the occurrence at `j`.
pub proof fn lemma_after_last_match_at(s: Seq<char>, pat: Seq<char>, start: int, j: int)
    requires
        pat.len() > 0,
        0 <= start <= j,
        occurs_at(s, pat, j),
        forall|m: int| j < m ==> !#[trigger] occurs_at(s, pat, m),
        forall|m: int| j - pat.len() < m < j ==> !#[trigger] occurs_at(s, pat, m),
    ensures
        after_last_match_from(s, pat, start) == s.subrange(j + pat.len(), s.len() as int),
    decreases j - start,
{
    lemma_index_from(s, pat, start);
    match index_from(s, pat, start) {
        Some(i) => {
            if i == j {
                lemma_index_from(s, pat, j + pat.len());
                assert(index_from(s, pat, j + pat.len()) is None);
                assert(after_last_match_from(s, pat, j + pat.len()) == s.subrange(
                    j + pat.len(),
                    s.len() as int,
                ));
                assert(after_last_match_from(s, pat, start) == after_last_match_from(
                    s,
                    pat,
                    j + pat.len(),
                ));
            } else {
                assert(i < j);
                assert(i + pat.len() <= j);
                lemma_after_last_match_at(s, pat, i + pat.len(), j);
                assert(after_last_match_from(s, pat, start) == after_last_match_from(
                    s,
                    pat,
                    i + pat.len(),
                ));
            }
        },
        None => {
            assert(!occurs_at(s, pat, j));
        },
    }
}

/// Removing a character that does not occur leaves the text as it is.
pub proof fn lemma_remove_absent_char(s: Seq<char>, c: char)
    requires
        !s.contains(c),
    ensures
        remove_char(s, c) == s,
    decreases s.len(),
{
    if s.len() > 0 {
        assert(!s.drop_last().contains(c)) by {
            if s.drop_last().contains(c) {
                let k = choose|k: int| 0 <= k < s.drop_last().len() && s.drop_last()[k] == c;
                assert(s[k] == c);
            }
        }
        lemma_remove_absent_char(s.drop_last(), c);
        assert(s.last() != c) by {
            assert(s[s.len() - 1] == s.last());
        }
        assert(s.drop_last().push(s.last()) =~= s);
    }
}

/// Leading whitespace does not change what trimming the start leaves.
pub proof fn lemma_trim_start_after_whitespace(ws: Seq<char>, s: Seq<char>)
    requires
        forall|q: int| 0 <= q < ws.len() ==> is_whitespace(#[trigger] ws[q]),
    ensures
        trim_start(ws + s) == trim_start(s),
    decreases ws.len(),
{
    if ws.len() == 0 {
        assert(ws + s =~= s);
    } else {
        assert((ws + s)[0] == ws[0]);
        let rest = ws.drop_first();
        assert((ws + s).drop_first() =~= rest + s);
        assert forall|q: int| 0 <= q < rest.len() implies is_whitespace(#[trigger] rest[q]) by {
            assert(rest[q] == ws[q + 1]);
        }
        lemma_trim_start_after_whitespace(rest, s);
    }
}

/// Removing a character from a joined text removes it from each part.
pub proof fn lemma_remove_char_append(x: Seq<char>, y: Seq<char>, c: char)
    ensures
        remove_char(x + y, c) == remove_char(x, c) + remove_char(y, c),
    decreases y.len(),
{
    if y.len() == 0 {
        assert(x + y =~= x);
        assert(remove_char(x, c) + remove_char(y, c) =~= remove_char(x, c));
    } else {
        assert((x + y).drop_last() =~= x + y.drop_last());
        assert((x + y).last() == y.last());
        lemma_remove_char_append(x, y.drop_last(), c);
        if y.last() != c {
            assert((remove_char(x, c) + remove_char(y.drop_last(), c)).push(y.last())
                =~= remove_char(x, c) + remove_char(y.drop_last(), c).push(y.last()));
        }
    }
}

/// Leading whitespace neither makes nor hides an occurrence of a pattern
/// that starts with a character other than whitespace.
pub proof fn lemma_contains_after_whitespace(ws: Seq<char>, s: Seq<char>, pat: Seq<char>)
    requires
        forall|q: int| 0 <= q < ws.len() ==> is_whitespace(#[trigger] ws[q]),
        pat.len() > 0,
        !is_whitespace(pat[0]),
    ensures
        contains(ws + s, pat) == contains(s, pat),
{
    let t = ws + s;
    if contains(t, pat) {
        let m = choose|m: int| occurs_at(t, pat, m);
        assert(t.subrange(m, m + pat.len())[0] == t[m]);
        if m < ws.len() {
            assert(t[m] == ws[m]);
        }
        assert(s.subrange(m - ws.len(), m - ws.len() + pat.len()) =~= t.subrange(m, m + pat.len()));
        assert(occurs_at(s, pat, m - ws.len()));
    }
    if contains(s, pat) {
        let m = choose|m: int| occurs_at(s, pat, m);
        assert(t.subrange(m + ws.len(), m + ws.len() + pat.len()) =~= s.subrange(m, m + pat.len()));
        assert(occurs_at(t, pat, m + ws.len()));
    }
}

/// The piece of `s` after the last match of `pat` (all of `s` when there is none).
pub fn split_last_piece(s: &Vec<char>, pat: &Vec<char>) -> (r: Vec<char>)
    requires
        pat.len() > 0,
    ensures
        r@ == after_last_match(s@, pat@),
{
    let mut start: usize = 0;
    loop
        invariant
            pat.len() > 0,
            start <= s.len(),
            after_last_match_from(s@, pat@, start as int) == after_last_match(s@, pat@),
        decreases s.len() - start,
    {
        match find_from(s, pat, start) {
            None => {
                return slice_chars(s, start, s.len());
            },
            Some(i) => {
                proof {
                    lemma_index_from(s@, pat@, start as int);
                }
                start = i + pat.len();
            },
        }
    }
}

// ------------------------------------------------------------------
// Lines
// ------------------------------------------------------------------

/// The first position at or after `k` that holds `c`.
pub open spec fn char_index_from(s: Seq<char>, c: char, k: int) -> Option<int>
    decreases s.len() - k,
{
    if k < 0 || k >= s.len() {
        None
    } else if s[k] == c {
        Some(k)
    } else {
        char_index_from(s, c, k + 1)
    }
}

pub proof fn lemma_char_index_from(s: Seq<char>, c: char, k: int)
    requires
        0 <= k,
    ensures
        char_index_from(s, c, k) matches Some(j) ==> k <= j < s.len() && s[j] == c && forall|m: int|
            k <= m < j ==> s[m] != c,
        char_index_from(s, c, k) is None ==> forall|m: int| k <= m < s.len() ==> s[m] != c,
    decreases s.len() - k,
{
    if k < s.len() && s[k] != c {
        lemma_char_index_from(s, c, k + 1);
    }
}

/// A line without the carriage return of a `\r\n` ending.
pub open spec fn strip_cr(line: Seq<char>) -> Seq<char> {
    if line.len() > 0 && line.last() == '\r' {
        line.drop_last()
    } else {
        line
    }
}

/// The lines of `s[start..]`, split at `\n` with a `\r` before it dropped; a
/// final line ending yields no empty last line.  This is `str::lines`.
pub open spec fn lines_from(s: Seq<char>, start: int) -> Seq<Seq<char>>
    decreases s.len() - start,
{
    if start < 0 || start >= s.len() {
        seq![]
    } else {
        match char_index_from(s, '\n', start) {
            Some(j) => {
                proof {
                    lemma_char_index_from(s, '\n', start);
                }
                seq![strip_cr(s.subrange(start, j))] + lines_from(s, j + 1)
            },
            None => seq![s.subrange(start, s.len() as int)],
        }
    }
}

/// The lines of `s`, as `str::lines` yields them.
pub open spec fn lines(s: Seq<char>) -> Seq<Seq<char>> {
    lines_from(s, 0)
}

/// The first position at or after `k` that holds `c`.
pub fn find_char_from(s: &Vec<char>, c: char, k: usize) -> (r: Option<usize>)
    ensures
        r matches Some(j) ==> char_index_from(s@, c, k as int) == Some(j as int),
        r is None ==> char_index_from(s@, c, k as int) is None,
{
    let mut i: usize = k;
    while i < s.len()
        invariant
            k <= i,
            char_index_from(s@, c, k as int) == char_index_from(s@, c, i as int),
        decreases s.len() - i,
    {
        if s[i] == c {
            return Some(i);
        }
        i = i + 1;
    }
    None
}

/// The lines of `s`.
pub fn lines_of(s: &Vec<char>) -> (r: Vec<Vec<char>>)
    ensures
        char_vecs(r@) == lines(s@),
{
    let mut out: Vec<Vec<char>> = Vec::new();
    let mut start: usize = 0;
    while start < s.len()
        invariant
            start <= s.len(),
            char_vecs(out@) + lines_from(s@, start as int) == lines(s@),
        decreases s.len() - start,
    {
        let ghost before = char_vecs(out@);
        match find_char_from(s, '\n', start) {
            None => {
                let line = slice_chars(s, start, s.len());
                out.push(line);
                assert(char_vecs(out@) =~= before.push(line@));
                assert(before.push(line@) =~= before + lines_from(s@, start as int));
                start = s.len();
                assert(lines_from(s@, start as int) =~= Seq::<Seq<char>>::empty());
            },
            Some(j) => {
                proof {
                    lemma_char_index_from(s@, '\n', start as int);
                }
                let mut line = slice_chars(s, start, j);
                if line.len() > 0 && line[line.len() - 1] == '\r' {
                    line.pop();
                    assert(line@ =~= s@.subrange(start as int, j as int).drop_last());
                }
                out.push(line);
                assert(char_vecs(out@) =~= before.push(line@));
                assert(before + lines_from(s@, start as int) =~= before.push(line@) + lines_from(
                    s@,
                    j + 1,
                ));
                start = j + 1;
            },
        }
    }
    assert(lines_from(s@, start as int) =~= Seq::<Seq<char>>::empty());
    assert(char_vecs(out@) + Seq::<Seq<char>>::empty() =~= char_vecs(out@));
    out
}

/// Line `i` of `ls`, if there is one.
pub open spec fn line_at(ls: Seq<Seq<char>>, i: int) -> Option<Seq<char>> {
    if 0 <= i < ls.len() {
        Some(ls[i])
    } else {
        None
    }
}

/// The larger of two lengths.
pub open spec fn longer(a: nat, b: nat) -> nat {
    if a >= b {
        a
    } else {
        b
    }
}

/// The items of `parts` with `sep` between neighbours, as `join` gives it.
pub open spec fn join(parts: Seq<Seq<char>>, sep: Seq<char>) -> Seq<char>
    decreases parts.len(),
{
    if parts.len() == 0 {
        seq![]
    } else if parts.len() == 1 {
        parts[0]
    } else {
        join(parts.drop_last(), sep) + sep + parts.last()
    }
}

/// The items of `parts` with `sep` between neighbours.
pub fn join_chars(parts: &Vec<Vec<char>>, sep: &Vec<char>) -> (r: Vec<char>)
    ensures
        r@ == join(char_vecs(parts@), sep@),
{
    let mut out: Vec<char> = Vec::new();
    let mut i: usize = 0;
    while i < parts.len()
        invariant
            i <= parts.len(),
            out@ == join(char_vecs(parts@).take(i as int), sep@),
        decreases parts.len() - i,
    {
        let ghost before = out@;
        let ghost p = char_vecs(parts@);
        assert(p.take(i + 1).drop_last() =~= p.take(i as int));
        if i > 0 {
            let mut j: usize = 0;
            while j < sep.len()
                invariant
                    j <= sep.len(),
                    out@ == before + sep@.take(j as int),
                decreases sep.len() - j,
            {
                out.push(sep[j]);
                j = j + 1;
                assert(out@ =~= before + sep@.take(j as int));
            }
        }
        let ghost mid = out@;
        let part = &parts[i];
        let mut j: usize = 0;
        while j < part.len()
            invariant
                j <= part.len(),
                out@ == mid + part@.take(j as int),
            decreases part.len() - j,
        {
            out.push(part[j]);
            j = j + 1;
            assert(out@ =~= mid + part@.take(j as int));
        }
        assert(part@.take(part.len() as int) =~= part@);
        assert(sep@.take(sep.len() as int) =~= sep@);
        assert(p[i as int] == part@);
        if i == 0 {
            assert(out@ =~= join(p.take(1), sep@));
        }
        i = i + 1;
    }
    assert(char_vecs(parts@).take(parts.len() as int) =~= char_vecs(parts@));
    out
}

// ------------------------------------------------------------------
// Numbers as text
// ------------------------------------------------------------------

/// The digit for the value `d` (below sixteen), lower case past nine.
pub open spec fn digit(d: int) -> char {
    if d == 0 {
        '0'
    } else if d == 1 {
        '1'
    } else if d == 2 {
        '2'
    } else if d == 3 {
        '3'
    } else if d == 4 {
        '4'
    } else if d == 5 {
        '5'
    } else if d == 6 {
        '6'
    } else if d == 7 {
        '7'
    } else if d == 8 {
        '8'
    } else if d == 9 {
        '9'
    } else if d == 10 {
        'a'
    } else if d == 11 {
        'b'
    } else if d == 12 {
        'c'
    } else if d == 13 {
        'd'
    } else if d == 14 {
        'e'
    } else {
        'f'
    }
}

/// `n` written in decimal, as `{}` formats an unsigned integer.
pub open spec fn decimal(n: nat) -> Seq<char>
    decreases n,
{
    if n < 10 {
        seq![digit(n as int)]
    } else {
        decimal(n / 10).push(digit((n % 10) as int))
    }
}

/// `n` written in lower-case hexadecimal, as `{:x}` formats it.
pub open spec fn lower_hex(n: nat) -> Seq<char>
    decreases n,
{
    if n < 16 {
        seq![digit(n as int)]
    } else {
        lower_hex(n / 16).push(digit((n % 16) as int))
    }
}

fn digit_char(d: u64) -> (r: char)
    requires
        d < 16,
    ensures
        r == digit(d as int),
{
    if d == 0 {
        '0'
    } else if d == 1 {
        '1'
    } else if d == 2 {
        '2'
    } else if d == 3 {
        '3'
    } else if d == 4 {
        '4'
    } else if d == 5 {
        '5'
    } else if d == 6 {
        '6'
    } else if d == 7 {
        '7'
    } else if d == 8 {
        '8'
    } else if d == 9 {
        '9'
    } else if d == 10 {
        'a'
    } else if d == 11 {
        'b'
    } else if d == 12 {
        'c'
    } else if d == 13 {
        'd'
    } else if d == 14 {
        'e'
    } else {
        'f'
    }
}

/// The decimal digits of `n`.
pub fn decimal_chars(n: u64) -> (r: Vec<char>)
    ensures
        r@ == decimal(n as nat),
    decreases n,
{
    if n < 10 {
        let mut v: Vec<char> = Vec::new();
        v.push(digit_char(n));
        assert(v@ =~= seq![digit(n as int)]);
        v
    } else {
        let mut v = decimal_chars(n / 10);
        v.push(digit_char(n % 10));
        v
    }
}

/// The lower-case hexadecimal digits of `n`.
pub fn lower_hex_chars(n: u64) -> (r: Vec<char>)
    ensures
        r@ == lower_hex(n as nat),
    decreases n,
{
    if n < 16 {
        let mut v: Vec<char> = Vec::new();
        v.push(digit_char(n));
        assert(v@ =~= seq![digit(n as int)]);
        v
    } else {
        let mut v = lower_hex_chars(n / 16);
        v.push(digit_char(n % 16));
        v
    }
}

// ------------------------------------------------------------------
// Lower case
// ------------------------------------------------------------------

/// What `str::to_lowercase` returns for a string with these characters: the
/// Unicode lower-case mapping, applied character by character with the
/// context rules of the Unicode standard.
pub uninterp spec fn lowercase(s: Seq<char>) -> Seq<char>;

/// Every character is ASCII.
pub open spec fn is_ascii_text(s: Seq<char>) -> bool {
    forall|i: int| 0 <= i < s.len() ==> (s[i] as u32) < 128
}

/// An ASCII upper-case letter made lower case; any other character kept.
pub open spec fn ascii_lower_char(c: char) -> char {
    if 'A' <= c && c <= 'Z' {
        ((c as u32) + 32) as char
    } else {
        c
    }
}

/// Every ASCII upper-case letter made lower case.
pub open spec fn ascii_lower(s: Seq<char>) -> Seq<char> {
    Seq::new(s.len(), |i: int| ascii_lower_char(s[i]))
}

/// The lower-case form of a text: for ASCII text, `A`-`Z` become `a`-`z`
/// and nothing else changes; for other text, what `str::to_lowercase` gives.
pub open spec fn lower_text(s: Seq<char>) -> Seq<char> {
    if is_ascii_text(s) {
        ascii_lower(s)
    } else {
        lowercase(s)
    }
}

/// `str::to_lowercase`.  Its result is named by `lowercase`.  On ASCII text
/// the Unicode lower-case mapping turns `A`-`Z` into `a`-`z` and has no
/// mapping for any other ASCII character, so the result is then the text
/// with its upper-case letters made lower case, character for character.
#[verifier::external_body]
pub(crate) fn to_lowercase(s: &str) -> (r: String)
    ensures
        r@ == lowercase(s@),
        is_ascii_text(s@) ==> r@ == ascii_lower(s@),
{
    s.to_lowercase()
}

} // verus!
