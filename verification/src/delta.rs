//! Delta compression — line-based diff with hashing.
use vstd::prelude::*;
use vstd::string::StringSliceAdditionalSpecFns;

use crate::text::{
    char_vecs, chars_of, join, join_chars, line_at, lines, lines_of, longer, str_equal, string_of,
};

verus! {

broadcast use vstd::string::group_string_axioms;

/// One edit of a line, numbered as in the base text: `"ADD"` puts `text` at
/// `line`, `"REM"` takes the line there away.
#[derive(Debug, Clone)]
pub struct DiffOp {
    pub line: usize,
    pub op: String,
    pub text: String,
}

/// A line delta between a base text and a current text, with a checksum of
/// each.
#[derive(Debug, Clone)]
pub struct DeltaPatch {
    pub base_checksum: u64,
    pub current_checksum: u64,
    pub ops: Vec<DiffOp>,
}

/// The values a diff operation holds.
pub struct DiffOpView {
    pub line: int,
    pub op: Seq<char>,
    pub text: Seq<char>,
}

impl View for DiffOp {
    type V = DiffOpView;

    open spec fn view(&self) -> DiffOpView {
        DiffOpView { line: self.line as int, op: self.op@, text: self.text@ }
    }
}

/// The values of a sequence of diff operations.
pub open spec fn op_views(ops: Seq<DiffOp>) -> Seq<DiffOpView> {
    Seq::new(ops.len(), |i: int| ops[i]@)
}

// ------------------------------------------------------------------
// Hashing
// ------------------------------------------------------------------

/// The DJB2 hash of `bytes`: start from 5381, and for each byte multiply by
/// 33 and add the byte, both wrapping at 2^64.
pub open spec fn djb2(bytes: Seq<u8>) -> u64
    decreases bytes.len(),
{
    if bytes.len() == 0 {
        5381
    } else {
        vstd::wrapping::u64_specs::wrapping_add(
            vstd::wrapping::u64_specs::wrapping_mul(djb2(bytes.drop_last()), 33),
            bytes.last() as u64,
        )
    }
}

/// Compute a simple hash for text content: DJB2 over its UTF-8 bytes.
pub fn text_hash(text: &str) -> (r: u64)
    ensures
        r == djb2(text.spec_bytes()),
{
    let bytes = text.as_bytes();
    let mut hash: u64 = 5381;
    let mut i: usize = 0;
    while i < bytes.len()
        invariant
            i <= bytes@.len(),
            bytes@ == text.spec_bytes(),
            hash == djb2(bytes@.take(i as int)),
        decreases bytes.len() - i,
    {
        assert(bytes@.take(i + 1).drop_last() =~= bytes@.take(i as int));
        hash = hash.wrapping_mul(33).wrapping_add(bytes[i] as u64);
        i = i + 1;
    }
    assert(bytes@.take(i as int) =~= bytes@);
    hash
}

// ------------------------------------------------------------------
// Computing a delta
// ------------------------------------------------------------------

/// The removal of `text` at `line`.
pub open spec fn removal(line: int, text: Seq<char>) -> DiffOpView {
    DiffOpView { line, op: "REM"@, text }
}

/// The addition of `text` at `line`.
pub open spec fn addition(line: int, text: Seq<char>) -> DiffOpView {
    DiffOpView { line, op: "ADD"@, text }
}

/// The operations for line position `i`: a changed line is removed and its
/// new text added; a line only in the current text is added; a line only in
/// the base is removed.
pub open spec fn ops_at(b: Seq<Seq<char>>, c: Seq<Seq<char>>, i: int) -> Seq<DiffOpView> {
    match (line_at(b, i), line_at(c, i)) {
        (Some(old), Some(new)) => if old != new {
            seq![removal(i, old), addition(i, new)]
        } else {
            seq![]
        },
        (None, Some(new)) => seq![addition(i, new)],
        (Some(old), None) => seq![removal(i, old)],
        (None, None) => seq![],
    }
}

/// The operations for the first `n` line positions.
pub open spec fn ops_upto(b: Seq<Seq<char>>, c: Seq<Seq<char>>, n: nat) -> Seq<DiffOpView>
    decreases n,
{
    if n == 0 {
        seq![]
    } else {
        ops_upto(b, c, (n - 1) as nat) + ops_at(b, c, n - 1)
    }
}

/// The operations that turn the lines of `base` into those of `current`.
pub open spec fn spec_delta_ops(base: Seq<char>, current: Seq<char>) -> Seq<DiffOpView> {
    ops_upto(lines(base), lines(current), longer(lines(base).len(), lines(current).len()))
}

fn diff_op(line: usize, op: &str, text: &Vec<char>) -> (r: DiffOp)
    ensures
        r@ == (DiffOpView { line: line as int, op: op@, text: text@ }),
{
    DiffOp { line, op: crate::text::string_from(op), text: string_of(text) }
}

/// Compute delta between two text strings (line-based).
pub fn compute_delta(base: &str, current: &str) -> (r: DeltaPatch)
    ensures
        op_views(r.ops@) == spec_delta_ops(base@, current@),
        r.base_checksum == djb2(base.spec_bytes()),
        r.current_checksum == djb2(current.spec_bytes()),
        canonical_lines(current@) ==> spec_apply_delta(base@, op_views(r.ops@)) == current@,
{
    let bc = chars_of(base);
    let cc = chars_of(current);
    let base_lines = lines_of(&bc);
    let curr_lines = lines_of(&cc);
    let ghost bl = char_vecs(base_lines@);
    let ghost cl = char_vecs(curr_lines@);
    let mut ops: Vec<DiffOp> = Vec::new();
    let max_len = if base_lines.len() >= curr_lines.len() {
        base_lines.len()
    } else {
        curr_lines.len()
    };
    let mut i: usize = 0;
    while i < max_len
        invariant
            i <= max_len,
            max_len == longer(bl.len(), cl.len()),
            bl == char_vecs(base_lines@),
            cl == char_vecs(curr_lines@),
            op_views(ops@) == ops_upto(bl, cl, i as nat),
        decreases max_len - i,
    {
        let ghost before = op_views(ops@);
        if i < base_lines.len() && i < curr_lines.len() {
            let old = &base_lines[i];
            let new = &curr_lines[i];
            if !crate::text::chars_equal(old, new) {
                ops.push(diff_op(i, "REM", old));
                ops.push(diff_op(i, "ADD", new));
                assert(op_views(ops@) =~= before + seq![
                    removal(i as int, old@),
                    addition(i as int, new@),
                ]);
            } else {
                assert(op_views(ops@) =~= before + Seq::<DiffOpView>::empty());
            }
        } else if i < curr_lines.len() {
            ops.push(diff_op(i, "ADD", &curr_lines[i]));
            assert(op_views(ops@) =~= before + seq![addition(i as int, cl[i as int])]);
        } else if i < base_lines.len() {
            ops.push(diff_op(i, "REM", &base_lines[i]));
            assert(op_views(ops@) =~= before + seq![removal(i as int, bl[i as int])]);
        }
        i = i + 1;
    }
    proof {
        if canonical_lines(current@) {
            lemma_delta_round_trip(base@, current@);
        }
    }
    DeltaPatch { base_checksum: text_hash(base), current_checksum: text_hash(current), ops }
}

// ------------------------------------------------------------------
// Applying a delta
// ------------------------------------------------------------------

/// The lines of a base as slots, each holding its line.
pub open spec fn slots_of(ls: Seq<Seq<char>>) -> Seq<Option<Seq<char>>> {
    Seq::new(ls.len(), |i: int| Some(ls[i]))
}

/// The lines that the slots still hold, in order.
pub open spec fn kept_lines(slots: Seq<Option<Seq<char>>>) -> Seq<Seq<char>>
    decreases slots.len(),
{
    if slots.len() == 0 {
        seq![]
    } else {
        match slots.last() {
            Some(t) => kept_lines(slots.drop_last()).push(t),
            None => kept_lines(slots.drop_last()),
        }
    }
}

/// One operation applied to the line slots.  Line numbers are those of the
/// base throughout: a removal empties the slot at `line`, when there is one,
/// and moves no other line; an addition fills the slot at `line`, or appends
/// a slot when `line` is past the end; an operation of another name does
/// nothing.
pub open spec fn apply_op(slots: Seq<Option<Seq<char>>>, op: DiffOpView) -> Seq<
    Option<Seq<char>>,
> {
    if op.op == "ADD"@ {
        if op.line >= slots.len() {
            slots.push(Some(op.text))
        } else {
            slots.update(op.line, Some(op.text))
        }
    } else if op.op == "REM"@ {
        if 0 <= op.line < slots.len() {
            slots.update(op.line, None)
        } else {
            slots
        }
    } else {
        slots
    }
}

/// The operations applied in order.
pub open spec fn apply_ops(slots: Seq<Option<Seq<char>>>, ops: Seq<DiffOpView>) -> Seq<
    Option<Seq<char>>,
>
    decreases ops.len(),
{
    if ops.len() == 0 {
        slots
    } else {
        apply_op(apply_ops(slots, ops.drop_last()), ops.last())
    }
}

/// The text that applying `ops` to `base` gives: the lines of `base` edited
/// by the operations, the emptied ones left out, joined with `\n`.
pub open spec fn spec_apply_delta(base: Seq<char>, ops: Seq<DiffOpView>) -> Seq<char> {
    join(kept_lines(apply_ops(slots_of(lines(base)), ops)), "\n"@)
}

spec fn slot_views(v: Seq<Option<Vec<char>>>) -> Seq<Option<Seq<char>>> {
    Seq::new(
        v.len(),
        |i: int|
            match v[i] {
                Some(t) => Some(t@),
                None => None,
            },
    )
}

/// Apply a delta patch to base text.  Line numbers are those of the base
/// throughout, so a removal does not move the lines after it; applied to its
/// base, the delta of `compute_delta` gives the current text back.
pub fn apply_delta(base: &str, patch: &DeltaPatch) -> (r: String)
    ensures
        r@ == spec_apply_delta(base@, op_views(patch.ops@)),
{
    let bc = chars_of(base);
    let base_lines = lines_of(&bc);
    let ghost start = slots_of(lines(base@));
    let mut slots: Vec<Option<Vec<char>>> = Vec::new();
    let mut j: usize = 0;
    while j < base_lines.len()
        invariant
            j <= base_lines@.len(),
            char_vecs(base_lines@) == lines(base@),
            start == slots_of(lines(base@)),
            slot_views(slots@) == start.take(j as int),
        decreases base_lines.len() - j,
    {
        let line = base_lines[j].clone();
        assert(line@ =~= base_lines@[j as int]@);
        let ghost before = slot_views(slots@);
        slots.push(Some(line));
        assert(slot_views(slots@) =~= before.push(Some(line@)));
        assert(start.take(j + 1) =~= start.take(j as int).push(Some(line@)));
        j = j + 1;
    }
    assert(start.take(j as int) =~= start);
    let ghost ops = op_views(patch.ops@);
    let mut k: usize = 0;
    while k < patch.ops.len()
        invariant
            k <= patch.ops@.len(),
            ops == op_views(patch.ops@),
            slot_views(slots@) == apply_ops(slots_of(lines(base@)), ops.take(k as int)),
        decreases patch.ops.len() - k,
    {
        let op = &patch.ops[k];
        let ghost before = slot_views(slots@);
        assert(ops.take(k + 1).drop_last() =~= ops.take(k as int));
        assert(ops.take(k + 1).last() == op@);
        if str_equal(op.op.as_str(), "ADD") {
            let text = chars_of(op.text.as_str());
            if op.line >= slots.len() {
                slots.push(Some(text));
                assert(slot_views(slots@) =~= before.push(Some(op.text@)));
            } else {
                slots.set(op.line, Some(text));
                assert(slot_views(slots@) =~= before.update(op.line as int, Some(op.text@)));
            }
        } else if str_equal(op.op.as_str(), "REM") {
            if op.line < slots.len() {
                slots.set(op.line, None);
                assert(slot_views(slots@) =~= before.update(op.line as int, None));
            }
        }
        k = k + 1;
    }
    assert(ops.take(k as int) =~= ops);
    let ghost end = slot_views(slots@);
    let mut kept: Vec<Vec<char>> = Vec::new();
    let mut m: usize = 0;
    while m < slots.len()
        invariant
            m <= slots@.len(),
            end == slot_views(slots@),
            char_vecs(kept@) == kept_lines(end.take(m as int)),
        decreases slots.len() - m,
    {
        let ghost before = char_vecs(kept@);
        assert(end.take(m + 1).drop_last() =~= end.take(m as int));
        assert(end.take(m + 1).last() == end[m as int]);
        match &slots[m] {
            Some(t) => {
                let line = t.clone();
                assert(line@ =~= t@);
                kept.push(line);
                assert(char_vecs(kept@) =~= before.push(t@));
            },
            None => {},
        }
        m = m + 1;
    }
    assert(end.take(m as int) =~= end);
    let newline = chars_of("\n");
    let joined = join_chars(&kept, &newline);
    string_of(&joined)
}

// ------------------------------------------------------------------
// Laws of deltas
// ------------------------------------------------------------------

proof fn lemma_no_ops_upto(b: Seq<Seq<char>>, n: nat)
    ensures
        ops_upto(b, b, n) == Seq::<DiffOpView>::empty(),
    decreases n,
{
    if n > 0 {
        lemma_no_ops_upto(b, (n - 1) as nat);
        assert(ops_upto(b, b, n) =~= Seq::<DiffOpView>::empty());
    }
}

/// A text compared with itself gives no operations.
pub proof fn lemma_delta_of_same_text_is_empty(text: Seq<char>)
    ensures
        spec_delta_ops(text, text) == Seq::<DiffOpView>::empty(),
{
    lemma_no_ops_upto(lines(text), longer(lines(text).len(), lines(text).len()));
}

/// Applying `xs` and then `ys` is applying `xs + ys`.
pub proof fn lemma_apply_ops_append(
    slots: Seq<Option<Seq<char>>>,
    xs: Seq<DiffOpView>,
    ys: Seq<DiffOpView>,
)
    ensures
        apply_ops(slots, xs + ys) == apply_ops(apply_ops(slots, xs), ys),
    decreases ys.len(),
{
    if ys.len() == 0 {
        assert(xs + ys =~= xs);
    } else {
        assert((xs + ys).drop_last() =~= xs + ys.drop_last());
        assert((xs + ys).last() == ys.last());
        lemma_apply_ops_append(slots, xs, ys.drop_last());
    }
}

/// A text whose lines, joined with `\n`, give the text back: it has no
/// `\r\n` line ending and no final line ending.
pub open spec fn canonical_lines(text: Seq<char>) -> bool {
    join(lines(text), "\n"@) == text
}

/// The first `total` slots of a finished edit: the lines of `c`, then
/// emptied slots.
spec fn filled(c: Seq<Seq<char>>, total: nat) -> Seq<Option<Seq<char>>> {
    Seq::new(total, |i: int| if i < c.len() { Some(c[i]) } else { None })
}

proof fn lemma_kept_filled(c: Seq<Seq<char>>, total: nat)
    ensures
        kept_lines(filled(c, total)) == c.take(if total <= c.len() { total as int } else { c.len() as int }),
    decreases total,
{
    if total == 0 {
        assert(c.take(0) =~= Seq::<Seq<char>>::empty());
    } else {
        let t = (total - 1) as nat;
        assert(filled(c, total).drop_last() =~= filled(c, t));
        lemma_kept_filled(c, t);
        if t < c.len() {
            assert(c.take(t as int).push(c[t as int]) =~= c.take(total as int));
        }
    }
}

/// The slots after the edits of the first `n` line positions: positions
/// already edited hold the current line or are emptied, later ones still
/// hold the base line.
spec fn round_trip_slots(b: Seq<Seq<char>>, c: Seq<Seq<char>>, n: nat) -> Seq<Option<Seq<char>>> {
    Seq::new(
        longer(b.len(), n),
        |i: int|
            if i < n {
                if i < c.len() {
                    Some(c[i])
                } else {
                    None
                }
            } else {
                Some(b[i])
            },
    )
}

proof fn lemma_apply_one(slots: Seq<Option<Seq<char>>>, x: DiffOpView)
    ensures
        apply_ops(slots, seq![x]) == apply_op(slots, x),
{
    let none = Seq::<DiffOpView>::empty();
    assert(seq![x].drop_last() =~= none);
    assert(apply_ops(slots, none) == slots);
    assert(seq![x].last() == x);
}

proof fn lemma_apply_two(slots: Seq<Option<Seq<char>>>, x: DiffOpView, y: DiffOpView)
    ensures
        apply_ops(slots, seq![x, y]) == apply_op(apply_op(slots, x), y),
{
    assert(seq![x, y].drop_last() =~= seq![x]);
    assert(seq![x, y].last() == y);
    lemma_apply_one(slots, x);
}

proof fn lemma_round_trip_upto(b: Seq<Seq<char>>, c: Seq<Seq<char>>, n: nat)
    requires
        n <= longer(b.len(), c.len()),
    ensures
        apply_ops(slots_of(b), ops_upto(b, c, n)) == round_trip_slots(b, c, n),
    decreases n,
{
    reveal_strlit("ADD");
    reveal_strlit("REM");
    assert("REM"@[0] != "ADD"@[0]);
    assert("REM"@ != "ADD"@);
    if n == 0 {
        assert(round_trip_slots(b, c, 0) =~= slots_of(b));
    } else {
        let k = n - 1;
        lemma_round_trip_upto(b, c, k as nat);
        lemma_apply_ops_append(slots_of(b), ops_upto(b, c, k as nat), ops_at(b, c, k));
        let prev = round_trip_slots(b, c, k as nat);
        let next = round_trip_slots(b, c, n);
        if k < b.len() && k < c.len() {
            if b[k] == c[k] {
                assert(ops_at(b, c, k) =~= Seq::<DiffOpView>::empty());
                assert(next =~= prev);
            } else {
                assert(ops_at(b, c, k) == seq![removal(k, b[k]), addition(k, c[k])]);
                lemma_apply_two(prev, removal(k, b[k]), addition(k, c[k]));
                assert(apply_op(prev, removal(k, b[k])) == prev.update(k, None));
                assert(next =~= prev.update(k, None).update(k, Some(c[k])));
            }
        } else if k < b.len() {
            assert(ops_at(b, c, k) == seq![removal(k, b[k])]);
            lemma_apply_one(prev, removal(k, b[k]));
            assert(next =~= prev.update(k, None));
        } else {
            assert(ops_at(b, c, k) == seq![addition(k, c[k])]);
            lemma_apply_one(prev, addition(k, c[k]));
            assert(prev.len() == k);
            assert(next =~= prev.push(Some(c[k])));
        }
    }
}

/// Applying the delta from `base` to `current` gives `current` back, for
/// every base, when `current` is written with plain `\n` line ends and no
/// final line end.
pub proof fn lemma_delta_round_trip(base: Seq<char>, current: Seq<char>)
    requires
        canonical_lines(current),
    ensures
        spec_apply_delta(base, spec_delta_ops(base, current)) == current,
{
    let (b, c) = (lines(base), lines(current));
    let n = longer(b.len(), c.len());
    lemma_round_trip_upto(b, c, n);
    assert(round_trip_slots(b, c, n) =~= filled(c, n));
    lemma_kept_filled(c, n);
    assert(c.take(c.len() as int) =~= c);
}

} // verus!
