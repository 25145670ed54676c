//! Assertion traps: plain-English behavioural constraints taken from a
//! room's Markdown specification and checked against an output payload.
use vstd::prelude::*;

use crate::text::{
    after_last_match, char_vecs, chars_of, contains, contains_chars, decimal, decimal_chars,
    find_from, index_from, join, is_ascii_text, ascii_lower, occurs_at, trim_start, is_whitespace, lemma_after_last_match_at, lemma_remove_absent_char, lemma_trim_start_after_whitespace, lemma_remove_char_append, lemma_contains_after_whitespace, join_chars, lemma_index_from, lemma_push_string, lines, lines_of, lower_text,
    push_chars, push_str, remove_char, remove_char_all, slice_chars, split_last_piece, string_from,
    string_of, to_lowercase, trim, trim_chars,
};

verus! {

broadcast use vstd::string::group_string_axioms;

// ------------------------------------------------------------------
// Extracting assertions from Markdown
// ------------------------------------------------------------------

/// A line that opens the constraints section.
pub open spec fn is_constraints_heading(line: Seq<char>) -> bool {
    contains(line, "Behavioral Constraints"@) || contains(line, "🛑"@)
}

/// Whether `s` begins with the character `c`.
pub open spec fn starts_with_char(s: Seq<char>, c: char) -> bool {
    s.len() > 0 && s[0] == c
}

/// A bullet line: after trimming it starts with `*` or `-`.
pub open spec fn is_bullet(line: Seq<char>) -> bool {
    starts_with_char(trim(line), '*') || starts_with_char(trim(line), '-')
}

/// The text of a bullet: every `*` and `-` removed, then trimmed.
pub open spec fn bullet_text(line: Seq<char>) -> Seq<char> {
    trim(remove_char(remove_char(line, '*'), '-'))
}

/// The assertions found in `lines`, given whether the constraints section is
/// already open.  The section opens at a constraints heading and closes at
/// the next line starting with `#`; each nonempty bullet text inside it is
/// an assertion.
pub open spec fn assertions_in(lines: Seq<Seq<char>>, in_constraints: bool) -> Seq<Seq<char>>
    decreases lines.len(),
{
    if lines.len() == 0 {
        seq![]
    } else {
        let line = lines[0];
        let rest = lines.drop_first();
        if is_constraints_heading(line) {
            assertions_in(rest, true)
        } else if in_constraints && starts_with_char(line, '#') {
            seq![]
        } else if in_constraints && is_bullet(line) && bullet_text(line).len() > 0 {
            seq![bullet_text(line)] + assertions_in(rest, in_constraints)
        } else {
            assertions_in(rest, in_constraints)
        }
    }
}

/// The assertions of a Markdown specification.
pub open spec fn spec_extract_assertions(markdown: Seq<char>) -> Seq<Seq<char>> {
    assertions_in(lines(markdown), false)
}

/// Extract assertions from a Markdown spec's Behavioral Constraints section.
pub fn extract_assertions(markdown: &str) -> (r: Vec<String>)
    ensures
        r.deep_view() == spec_extract_assertions(markdown@),
{
    let md = chars_of(markdown);
    let ls = lines_of(&md);
    let heading = chars_of("Behavioral Constraints");
    let stop_sign = chars_of("🛑");
    let ghost all = char_vecs(ls@);
    let mut out: Vec<String> = Vec::new();
    let mut in_constraints = false;
    let mut done = false;
    let mut i: usize = 0;
    assert(all.skip(0) =~= all);
    assert(out.deep_view() =~= Seq::<Seq<char>>::empty());
    assert(Seq::<Seq<char>>::empty() + assertions_in(all, false) =~= assertions_in(all, false));
    while i < ls.len() && !done
        invariant
            i <= ls.len(),
            all == char_vecs(ls@),
            heading@ == "Behavioral Constraints"@,
            stop_sign@ == "🛑"@,
            done ==> out.deep_view() == assertions_in(all, false),
            !done ==> out.deep_view() + assertions_in(all.skip(i as int), in_constraints)
                == assertions_in(all, false),
        decreases ls.len() - i,
    {
        let ghost before = out.deep_view();
        let line = &ls[i];
        let ghost rest = all.skip(i as int);
        assert(rest[0] == line@);
        assert(rest.drop_first() =~= all.skip(i + 1));
        if contains_chars(line, &heading) || contains_chars(line, &stop_sign) {
            in_constraints = true;
        } else if in_constraints && line.len() > 0 && line[0] == '#' {
            done = true;
            assert(before + Seq::<Seq<char>>::empty() =~= before);
        } else if in_constraints {
            let t = trim_chars(line);
            if t.len() > 0 && (t[0] == '*' || t[0] == '-') {
                let without_stars = remove_char_all(line, '*');
                let without_marks = remove_char_all(&without_stars, '-');
                let clean = trim_chars(&without_marks);
                if clean.len() > 0 {
                    let s = string_of(&clean);
                    out.push(s);
                    assert(out.deep_view() =~= before.push(clean@));
                    assert(before.push(clean@) + assertions_in(all.skip(i + 1), in_constraints)
                        =~= before + (seq![clean@] + assertions_in(all.skip(i + 1), in_constraints)));
                }
            }
        }
        i = i + 1;
    }
    if !done {
        assert(all.skip(i as int) =~= Seq::<Seq<char>>::empty());
        assert(out.deep_view() + Seq::<Seq<char>>::empty() =~= out.deep_view());
    }
    out
}


// ------------------------------------------------------------------
// Validating a payload
// ------------------------------------------------------------------

/// `s` with every `'`, `` ` `` and `"` removed.
pub open spec fn without_quotes(s: Seq<char>) -> Seq<char> {
    remove_char(remove_char(remove_char(s, '\''), '`'), '"')
}

/// The violation of a "must contain X" assertion: X, taken after the last
/// "must contain" of the assertion, is missing from the payload.
pub open spec fn missing_violations(payload: Seq<char>, a: Seq<char>, lower: Seq<char>) -> Seq<
    Seq<char>,
> {
    if contains(lower, "must contain"@) {
        let keyword = without_quotes(trim(after_last_match(a, "must contain"@)));
        if keyword.len() > 0 && !contains(payload, keyword) {
            seq!["Missing required: '"@ + keyword + "'"@]
        } else {
            seq![]
        }
    } else {
        seq![]
    }
}

/// The violation of a "shall not / must not contain X" assertion: X, taken
/// after the last "contain" (or "word"), occurs in the payload.
pub open spec fn forbidden_violations(payload: Seq<char>, a: Seq<char>, lower: Seq<char>) -> Seq<
    Seq<char>,
> {
    if contains(lower, "shall not"@) || contains(lower, "must not"@) || contains(
        lower,
        "no condition"@,
    ) {
        let raw = if contains(lower, "contain"@) {
            after_last_match(a, "contain"@)
        } else {
            after_last_match(a, "word"@)
        };
        let term = without_quotes(trim(raw));
        if term.len() > 0 && contains(payload, term) {
            seq!["Forbidden term found: '"@ + term + "'"@]
        } else {
            seq![]
        }
    } else {
        seq![]
    }
}

/// The violation of a "must be X" assertion: X, taken after the first
/// "must be ", is missing from the payload.
pub open spec fn property_violations(payload: Seq<char>, a: Seq<char>, lower: Seq<char>) -> Seq<
    Seq<char>,
> {
    if contains(lower, "must be "@) || contains(lower, "should be "@) {
        match index_from(a, "must be "@, 0) {
            Some(i) => {
                let expected = remove_char(
                    remove_char(trim(a.skip(i + "must be "@.len())), '\''),
                    '`',
                );
                if expected.len() > 0 && !contains(payload, expected) {
                    seq!["Expected property: '"@ + expected + "'"@]
                } else {
                    seq![]
                }
            },
            None => seq![],
        }
    } else {
        seq![]
    }
}

/// The violations of one assertion `a`, whose lower-case form is `lower`.
pub open spec fn assertion_violations(payload: Seq<char>, a: Seq<char>, lower: Seq<char>) -> Seq<
    Seq<char>,
> {
    missing_violations(payload, a, lower) + forbidden_violations(payload, a, lower)
        + property_violations(payload, a, lower)
}

/// The violations of all `assertions`, in order.
pub open spec fn payload_violations(payload: Seq<char>, assertions: Seq<Seq<char>>) -> Seq<
    Seq<char>,
>
    decreases assertions.len(),
{
    if assertions.len() == 0 {
        seq![]
    } else {
        payload_violations(payload, assertions.drop_last()) + assertion_violations(
            payload,
            assertions.last(),
            lower_text(assertions.last()),
        )
    }
}

/// The summary line of a validation.
pub open spec fn summary_text(violations: Seq<Seq<char>>) -> Seq<char> {
    if violations.len() == 0 {
        "✅ All assertions verified."@
    } else {
        "❌ "@ + decimal(violations.len()) + " violation(s):\n"@ + join(violations, "\n"@)
    }
}

/// Result of validating output against plain-English assertions.
#[derive(Debug, Clone)]
pub struct AssertionResult {
    pub passed: bool,
    pub violations: Vec<String>,
    pub summary: String,
}

fn message(prefix: &str, body: &Vec<char>) -> (r: String)
    ensures
        r@ == prefix@ + body@ + "'"@,
{
    let mut m = string_from(prefix);
    push_chars(&mut m, body);
    push_str(&mut m, "'");
    m
}

fn violations_of(payload: &Vec<char>, a: &Vec<char>, lower: &Vec<char>) -> (r: Vec<String>)
    ensures
        r.deep_view() == assertion_violations(payload@, a@, lower@),
{
    let must_contain = chars_of("must contain");
    let shall_not = chars_of("shall not");
    let must_not = chars_of("must not");
    let no_condition = chars_of("no condition");
    let contain = chars_of("contain");
    let word = chars_of("word");
    let must_be = chars_of("must be ");
    let should_be = chars_of("should be ");
    proof {
        reveal_strlit("must contain");
        reveal_strlit("contain");
        reveal_strlit("word");
    }
    let mut out: Vec<String> = Vec::new();

    // "must contain X"
    if contains_chars(lower, &must_contain) {
        let piece = split_last_piece(a, &must_contain);
        let trimmed = trim_chars(&piece);
        let k1 = remove_char_all(&trimmed, '\'');
        let k2 = remove_char_all(&k1, '`');
        let keyword = remove_char_all(&k2, '"');
        if keyword.len() > 0 && !contains_chars(payload, &keyword) {
            out.push(message("Missing required: '", &keyword));
        }
    }
    let ghost first = out.deep_view();
    assert(first =~= missing_violations(payload@, a@, lower@));

    // "shall not" / "must not" contain X
    if contains_chars(lower, &shall_not) || contains_chars(lower, &must_not) || contains_chars(
        lower,
        &no_condition,
    ) {
        let piece = if contains_chars(lower, &contain) {
            split_last_piece(a, &contain)
        } else {
            split_last_piece(a, &word)
        };
        let trimmed = trim_chars(&piece);
        let f1 = remove_char_all(&trimmed, '\'');
        let f2 = remove_char_all(&f1, '`');
        let term = remove_char_all(&f2, '"');
        if term.len() > 0 && contains_chars(payload, &term) {
            out.push(message("Forbidden term found: '", &term));
        }
    }
    let ghost second = out.deep_view();
    assert(second =~= first + forbidden_violations(payload@, a@, lower@));

    // "must be" / "should be" X
    if contains_chars(lower, &must_be) || contains_chars(lower, &should_be) {
        match find_from(a, &must_be, 0) {
            Some(i) => {
                proof {
                    lemma_index_from(a@, must_be@, 0);
                }
                assert(crate::text::occurs_at(a@, must_be@, i as int));
                assert(i + must_be@.len() <= a@.len());
                assert(i + must_be.len() <= a.len());
                let rest = slice_chars(a, i + must_be.len(), a.len());
                assert(rest@ =~= a@.skip(i + "must be "@.len()));
                let trimmed = trim_chars(&rest);
                let e1 = remove_char_all(&trimmed, '\'');
                let expected = remove_char_all(&e1, '`');
                if expected.len() > 0 && !contains_chars(payload, &expected) {
                    out.push(message("Expected property: '", &expected));
                }
            },
            None => {},
        }
    }
    assert(out.deep_view() =~= second + property_violations(payload@, a@, lower@));
    out
}

/// The violations of one assertion, given the assertion's lower-case form
/// (what `str::to_lowercase` returns for it).
pub fn check_assertion(payload: &str, assertion: &str, assertion_lowercase: &str) -> (r: Vec<
    String,
>)
    ensures
        r.deep_view() == assertion_violations(payload@, assertion@, assertion_lowercase@),
{
    let p = chars_of(payload);
    let a = chars_of(assertion);
    let l = chars_of(assertion_lowercase);
    violations_of(&p, &a, &l)
}

fn summary_of(violations: &Vec<String>) -> (r: String)
    ensures
        r@ == summary_text(violations.deep_view()),
{
    if violations.len() == 0 {
        return string_from("✅ All assertions verified.");
    }
    let mut parts: Vec<Vec<char>> = Vec::new();
    let mut i: usize = 0;
    while i < violations.len()
        invariant
            i <= violations.len(),
            char_vecs(parts@) == violations.deep_view().take(i as int),
        decreases violations.len() - i,
    {
        let piece = chars_of(violations[i].as_str());
        assert(piece@ == violations.deep_view()[i as int]);
        let ghost prev = parts@;
        parts.push(piece);
        assert(char_vecs(parts@) =~= char_vecs(prev).push(piece@));
        i = i + 1;
        assert(char_vecs(parts@) =~= violations.deep_view().take(i as int));
    }
    assert(violations.deep_view().take(i as int) =~= violations.deep_view());
    let newline = chars_of("\n");
    let joined = join_chars(&parts, &newline);
    let mut s = string_from("❌ ");
    let count = decimal_chars(violations.len() as u64);
    push_chars(&mut s, &count);
    push_str(&mut s, " violation(s):\n");
    push_chars(&mut s, &joined);
    s
}

/// Validate an output payload against plain-English assertions.
pub fn validate_payload(payload: &str, assertions: &[String]) -> (r: AssertionResult)
    ensures
        r.violations.deep_view() == payload_violations(payload@, assertions.deep_view()),
        r.passed == (r.violations@.len() == 0),
        r.summary@ == summary_text(r.violations.deep_view()),
{
    let p = chars_of(payload);
    let ghost all = assertions.deep_view();
    let mut violations: Vec<String> = Vec::new();
    let mut i: usize = 0;
    while i < assertions.len()
        invariant
            i <= assertions.len(),
            all == assertions.deep_view(),
            p@ == payload@,
            violations.deep_view() == payload_violations(payload@, all.take(i as int)),
        decreases assertions.len() - i,
    {
        let a = chars_of(assertions[i].as_str());
        let lower_string = to_lowercase(assertions[i].as_str());
        let lower = chars_of(lower_string.as_str());
        assert(lower@ == lower_text(a@));
        let found = violations_of(&p, &a, &lower);
        let ghost before = violations.deep_view();
        let mut j: usize = 0;
        while j < found.len()
            invariant
                j <= found.len(),
                violations.deep_view() == before + found.deep_view().take(j as int),
            decreases found.len() - j,
        {
            let ghost prev = violations;
            let item = string_from(found[j].as_str());
            violations.push(item);
            proof {
                lemma_push_string(prev, violations, item);
            }
            j = j + 1;
            assert(violations.deep_view() =~= before + found.deep_view().take(j as int));
        }
        assert(found.deep_view().take(j as int) =~= found.deep_view());
        assert(all.take(i + 1).drop_last() =~= all.take(i as int));
        assert(all.take(i + 1).last() == a@);
        i = i + 1;
    }
    assert(all.take(i as int) =~= all);
    let passed = violations.len() == 0;
    let summary = summary_of(&violations);
    AssertionResult { passed, violations, summary }
}


// ------------------------------------------------------------------
// Laws of assertion traps
// ------------------------------------------------------------------

proof fn lemma_assertions_without_heading(ls: Seq<Seq<char>>)
    requires
        forall|i: int| 0 <= i < ls.len() ==> !is_constraints_heading(#[trigger] ls[i]),
    ensures
        assertions_in(ls, false) == Seq::<Seq<char>>::empty(),
    decreases ls.len(),
{
    if ls.len() > 0 {
        let rest = ls.drop_first();
        assert forall|i: int| 0 <= i < rest.len() implies !is_constraints_heading(#[trigger] rest[i]) by {
            assert(rest[i] == ls[i + 1]);
        }
        assert(!is_constraints_heading(ls[0]));
        lemma_assertions_without_heading(rest);
    }
}

/// A specification without a constraints heading (a line mentioning
/// "Behavioral Constraints" or 🛑) has no assertions.
pub proof fn lemma_no_constraints_heading_no_assertions(markdown: Seq<char>)
    requires
        forall|i: int|
            0 <= i < lines(markdown).len() ==> !is_constraints_heading(#[trigger] lines(markdown)[i]),
    ensures
        spec_extract_assertions(markdown) == Seq::<Seq<char>>::empty(),
{
    lemma_assertions_without_heading(lines(markdown));
}

proof fn lemma_assertions_in_nonempty(ls: Seq<Seq<char>>, in_constraints: bool)
    ensures
        forall|i: int|
            0 <= i < assertions_in(ls, in_constraints).len() ==> #[trigger] assertions_in(
                ls,
                in_constraints,
            )[i].len() > 0,
    decreases ls.len(),
{
    if ls.len() > 0 {
        let rest = ls.drop_first();
        lemma_assertions_in_nonempty(rest, true);
        lemma_assertions_in_nonempty(rest, in_constraints);
        let line = ls[0];
        if !is_constraints_heading(line) && !(in_constraints && starts_with_char(line, '#'))
            && in_constraints && is_bullet(line) && bullet_text(line).len() > 0 {
            let tail = assertions_in(rest, in_constraints);
            let all = seq![bullet_text(line)] + tail;
            assert(assertions_in(ls, in_constraints) == all);
            assert forall|i: int| 0 <= i < all.len() implies #[trigger] all[i].len() > 0 by {
                if i > 0 {
                    assert(all[i] == tail[i - 1]);
                }
            }
        } else if is_constraints_heading(line) {
            assert(assertions_in(ls, in_constraints) == assertions_in(rest, true));
        } else if in_constraints && starts_with_char(line, '#') {
            assert(assertions_in(ls, in_constraints) == Seq::<Seq<char>>::empty());
        } else {
            assert(assertions_in(ls, in_constraints) == assertions_in(rest, in_constraints));
        }
    }
}

/// Every assertion taken from a specification is nonempty text.
pub proof fn lemma_extracted_assertions_nonempty(markdown: Seq<char>)
    ensures
        forall|i: int|
            0 <= i < spec_extract_assertions(markdown).len() ==> #[trigger] spec_extract_assertions(
                markdown,
            )[i].len() > 0,
{
    lemma_assertions_in_nonempty(lines(markdown), false);
}

/// A payload checked against no assertions has no violations, so it passes
/// with the all-verified summary.
pub proof fn lemma_no_assertions_pass(payload: Seq<char>)
    ensures
        payload_violations(payload, Seq::<Seq<char>>::empty()) == Seq::<Seq<char>>::empty(),
        summary_text(payload_violations(payload, Seq::<Seq<char>>::empty()))
            == "✅ All assertions verified."@,
{
}

/// The violations of a list of assertions are those of its first part
/// followed by those of the rest: each assertion is checked on its own.
pub proof fn lemma_violations_split(
    payload: Seq<char>,
    first: Seq<Seq<char>>,
    rest: Seq<Seq<char>>,
)
    ensures
        payload_violations(payload, first + rest) == payload_violations(payload, first)
            + payload_violations(payload, rest),
    decreases rest.len(),
{
    if rest.len() == 0 {
        assert(first + rest =~= first);
        assert(payload_violations(payload, first) + Seq::<Seq<char>>::empty() =~= payload_violations(
            payload,
            first,
        ));
    } else {
        assert((first + rest).drop_last() =~= first + rest.drop_last());
        assert((first + rest).last() == rest.last());
        lemma_violations_split(payload, first, rest.drop_last());
        let a = rest.last();
        let v = assertion_violations(payload, a, lower_text(a));
        assert(payload_violations(payload, first) + payload_violations(payload, rest.drop_last()) + v
            =~= payload_violations(payload, first) + (payload_violations(payload, rest.drop_last())
            + v));
    }
}


/// The assertion `s`, then the negation `neg`, then ` contain `, then the
/// forbidden text `k`.
pub open spec fn negated_assertion(s: Seq<char>, neg: Seq<char>, k: Seq<char>) -> Seq<char> {
    s + neg + " contain "@ + k
}

proof fn lemma_ascii_lower_keeps(a: Seq<char>, at: int, w: Seq<char>)
    requires
        0 <= at,
        at + w.len() <= a.len(),
        a.subrange(at, at + w.len()) == w,
        forall|q: int| 0 <= q < w.len() ==> !('A' <= #[trigger] w[q] && w[q] <= 'Z'),
    ensures
        occurs_at(ascii_lower(a), w, at),
{
    assert(ascii_lower(a).subrange(at, at + w.len()) =~= w) by {
        assert forall|q: int| 0 <= q < w.len() implies ascii_lower(a).subrange(at, at + w.len())[q]
            == w[q] by {
            assert(a[at + q] == a.subrange(at, at + w.len())[q]);
        }
    }
}

/// A "shall not contain" (or "must not contain") assertion forbids the
/// whole text that follows it: the payload violates it exactly when the
/// payload contains all of that text, and the violation names it.  This
/// holds for an ASCII assertion whose forbidden text is nonempty, trimmed,
/// free of quotes and of the word "contain", and which reads as no other
/// kind of assertion.
pub proof fn lemma_forbidden_text_is_whole(
    payload: Seq<char>,
    s: Seq<char>,
    neg: Seq<char>,
    k: Seq<char>,
)
    requires
        neg == "shall not"@ || neg == "must not"@,
        k.len() > 0,
        trim(k) == k,
        !k.contains('\''),
        !k.contains('`'),
        !k.contains('"'),
        !contains(k, "contain"@),
        is_ascii_text(negated_assertion(s, neg, k)),
        !contains(lower_text(negated_assertion(s, neg, k)), "must contain"@),
        !contains(lower_text(negated_assertion(s, neg, k)), "must be "@),
        !contains(lower_text(negated_assertion(s, neg, k)), "should be "@),
    ensures
        payload_violations(payload, seq![negated_assertion(s, neg, k)]) == if contains(payload, k) {
            seq!["Forbidden term found: '"@ + k + "'"@]
        } else {
            seq![]
        },
{
    reveal_strlit("shall not");
    reveal_strlit("must not");
    reveal_strlit(" contain ");
    reveal_strlit("contain");
    let a = negated_assertion(s, neg, k);
    let pat = "contain"@;
    let lower = lower_text(a);
    let p: int = (s.len() + neg.len() + 1) as int;
    let tail = " contain "@;
    assert(a.len() == p + 8 + k.len());
    // where the phrases stand in the assertion and in its lower-case form
    assert(a.subrange(p, p + 7) =~= pat);
    assert(a.subrange(s.len() as int, s.len() + neg.len() as int) =~= neg);
    assert(lower == ascii_lower(a));
    lemma_ascii_lower_keeps(a, p, pat);
    lemma_ascii_lower_keeps(a, s.len() as int, neg);
    assert(contains(lower, pat));
    assert(contains(lower, "shall not"@) || contains(lower, "must not"@));
    // the last "contain" is the one before `k`
    assert forall|m: int| p < m implies !#[trigger] occurs_at(a, pat, m) by {
        if occurs_at(a, pat, m) {
            assert(a.subrange(m, m + 7)[0] == a[m]);
            if m < p + 8 {
                assert(a[m] == tail[m - s.len() - neg.len()]);
            } else {
                assert(k.subrange(m - p - 8, m - p - 1) =~= a.subrange(m, m + 7));
                assert(occurs_at(k, pat, m - p - 8));
            }
        }
    }
    assert forall|m: int| p - pat.len() < m < p implies !#[trigger] occurs_at(a, pat, m) by {
        if occurs_at(a, pat, m) {
            assert(a.subrange(m, m + 7)[0] == a[m]);
            if m < s.len() + neg.len() {
                assert(a[m] == neg[m - s.len()]);
            } else {
                assert(a[m] == tail[m - s.len() - neg.len()]);
            }
        }
    }
    lemma_after_last_match_at(a, pat, 0, p);
    let raw = after_last_match(a, pat);
    assert(raw =~= seq![' '] + k);
    assert((seq![' '] + k).drop_first() =~= k);
    assert(is_whitespace(' '));
    assert(trim_start(raw) == trim_start(k));
    assert(trim(raw) == k);
    lemma_remove_absent_char(k, '\'');
    lemma_remove_absent_char(k, '`');
    lemma_remove_absent_char(k, '"');
    assert(without_quotes(trim(raw)) == k);
    assert(missing_violations(payload, a, lower) == Seq::<Seq<char>>::empty());
    assert(property_violations(payload, a, lower) == Seq::<Seq<char>>::empty());
    let f = forbidden_violations(payload, a, lower);
    let none = Seq::<Seq<char>>::empty();
    assert(seq![a].drop_last() =~= none);
    assert(seq![a].last() == a);
    assert(payload_violations(payload, none) == none);
    assert(assertion_violations(payload, a, lower) =~= f);
    assert(payload_violations(payload, seq![a]) == payload_violations(payload, none)
        + assertion_violations(payload, a, lower));
    assert(payload_violations(payload, seq![a]) =~= f);
}


/// Two lines that the extraction reads alike.
spec fn reads_alike(l1: Seq<char>, l2: Seq<char>) -> bool {
    &&& is_constraints_heading(l1) == is_constraints_heading(l2)
    &&& starts_with_char(l1, '#') == starts_with_char(l2, '#')
    &&& is_bullet(l1) == is_bullet(l2)
    &&& bullet_text(l1) == bullet_text(l2)
}

proof fn lemma_assertions_in_replace(ls: Seq<Seq<char>>, i: int, l2: Seq<char>, f: bool)
    requires
        0 <= i < ls.len(),
        reads_alike(ls[i], l2),
    ensures
        assertions_in(ls.update(i, l2), f) == assertions_in(ls, f),
    decreases ls.len(),
{
    let ls2 = ls.update(i, l2);
    if i == 0 {
        assert(ls2.drop_first() =~= ls.drop_first());
    } else {
        assert(ls2[0] == ls[0]);
        assert(ls2.drop_first() =~= ls.drop_first().update(i - 1, l2));
        lemma_assertions_in_replace(ls.drop_first(), i - 1, l2, true);
        lemma_assertions_in_replace(ls.drop_first(), i - 1, l2, false);
    }
}

proof fn lemma_indented_reads_alike(ws: Seq<char>, line: Seq<char>)
    requires
        forall|q: int| 0 <= q < ws.len() ==> is_whitespace(#[trigger] ws[q]),
        !starts_with_char(line, '#'),
    ensures
        reads_alike(line, ws + line),
{
    reveal_strlit("Behavioral Constraints");
    reveal_strlit("🛑");
    lemma_contains_after_whitespace(ws, line, "Behavioral Constraints"@);
    lemma_contains_after_whitespace(ws, line, "🛑"@);
    if ws.len() > 0 {
        assert((ws + line)[0] == ws[0]);
    } else {
        assert(ws + line =~= line);
    }
    lemma_trim_start_after_whitespace(ws, line);
    assert(!ws.contains('*') && !ws.contains('-'));
    lemma_remove_absent_char(ws, '*');
    lemma_remove_absent_char(ws, '-');
    lemma_remove_char_append(ws, line, '*');
    lemma_remove_char_append(ws, remove_char(line, '*'), '-');
    lemma_trim_start_after_whitespace(ws, remove_char(remove_char(line, '*'), '-'));
}

/// Indenting a line of a specification (one that is not a heading marker
/// line starting with `#`) changes nothing that is extracted from it: a
/// bullet is a bullet whatever whitespace comes before its `*` or `-`.
pub proof fn lemma_indentation_keeps_assertions(
    markdown: Seq<char>,
    indented: Seq<char>,
    i: int,
    ws: Seq<char>,
)
    requires
        0 <= i < lines(markdown).len(),
        forall|q: int| 0 <= q < ws.len() ==> is_whitespace(#[trigger] ws[q]),
        !starts_with_char(lines(markdown)[i], '#'),
        lines(indented) == lines(markdown).update(i, ws + lines(markdown)[i]),
    ensures
        spec_extract_assertions(indented) == spec_extract_assertions(markdown),
{
    lemma_indented_reads_alike(ws, lines(markdown)[i]);
    lemma_assertions_in_replace(lines(markdown), i, ws + lines(markdown)[i], false);
}

} // verus!
