//! Three-way merge — reconcile concurrent edits against a common base.
use vstd::prelude::*;

use crate::text::{
    char_vecs, chars_equal, chars_of, line_at, lines, lines_of, longer, push_str, string_of,
};

verus! {

/// One line of a merge: agreed text, or the two sides of a conflict.
#[derive(Debug, Clone, PartialEq)]
pub enum MergeLine {
    Clean(String),
    Conflict { ours: String, theirs: String },
}

/// The text a merge line holds.
pub enum MergeLineView {
    Clean(Seq<char>),
    Conflict(Seq<char>, Seq<char>),
}

impl View for MergeLine {
    type V = MergeLineView;

    open spec fn view(&self) -> MergeLineView {
        match self {
            MergeLine::Clean(t) => MergeLineView::Clean(t@),
            MergeLine::Conflict { ours, theirs } => MergeLineView::Conflict(ours@, theirs@),
        }
    }
}

/// The outcome of a three-way merge.
#[derive(Debug, Clone)]
pub struct MergeResult {
    pub has_conflicts: bool,
    pub lines: Vec<MergeLine>,
    pub clean_count: usize,
    pub conflict_count: usize,
}

/// The texts of a sequence of merge lines.
pub open spec fn merge_views(ms: Seq<MergeLine>) -> Seq<MergeLineView> {
    Seq::new(ms.len(), |i: int| ms[i]@)
}

/// The text of an optional line, empty when there is none.
pub open spec fn text_or_empty(l: Option<Seq<char>>) -> Seq<char> {
    match l {
        Some(t) => t,
        None => seq![],
    }
}

/// A present line as a clean merge line.
pub open spec fn clean_line(l: Option<Seq<char>>) -> Option<MergeLineView> {
    match l {
        Some(t) => Some(MergeLineView::Clean(t)),
        None => None,
    }
}

/// How one line position merges: both sides alike, or only one side changed
/// from the base, give the agreed line (none when it is absent); two
/// different changes give a conflict.
pub open spec fn merge_at(b: Option<Seq<char>>, o: Option<Seq<char>>, t: Option<Seq<char>>) -> Option<
    MergeLineView,
> {
    if o == t {
        clean_line(o)
    } else if o != b && t == b {
        clean_line(o)
    } else if t != b && o == b {
        clean_line(t)
    } else {
        Some(MergeLineView::Conflict(text_or_empty(o), text_or_empty(t)))
    }
}

/// The merge of the first `n` line positions.
pub open spec fn merge_prefix(
    b: Seq<Seq<char>>,
    o: Seq<Seq<char>>,
    t: Seq<Seq<char>>,
    n: nat,
) -> Seq<MergeLineView>
    decreases n,
{
    if n == 0 {
        seq![]
    } else {
        let prev = merge_prefix(b, o, t, (n - 1) as nat);
        match merge_at(line_at(b, n - 1), line_at(o, n - 1), line_at(t, n - 1)) {
            Some(m) => prev.push(m),
            None => prev,
        }
    }
}

/// The merged lines of `ours` and `theirs` against `base`, position by
/// position over the longer of `ours` and `theirs`.
pub open spec fn spec_merge(base: Seq<char>, ours: Seq<char>, theirs: Seq<char>) -> Seq<
    MergeLineView,
> {
    merge_prefix(
        lines(base),
        lines(ours),
        lines(theirs),
        longer(lines(ours).len(), lines(theirs).len()),
    )
}

/// The number of clean lines.
pub open spec fn count_clean(ms: Seq<MergeLineView>) -> nat
    decreases ms.len(),
{
    if ms.len() == 0 {
        0
    } else {
        count_clean(ms.drop_last()) + if ms.last() is Clean {
            1nat
        } else {
            0nat
        }
    }
}

/// The number of conflicts.
pub open spec fn count_conflicts(ms: Seq<MergeLineView>) -> nat
    decreases ms.len(),
{
    if ms.len() == 0 {
        0
    } else {
        count_conflicts(ms.drop_last()) + if ms.last() is Conflict {
            1nat
        } else {
            0nat
        }
    }
}

/// Every merge line is either clean or a conflict.
pub proof fn lemma_counts(ms: Seq<MergeLineView>)
    ensures
        count_clean(ms) + count_conflicts(ms) == ms.len(),
    decreases ms.len(),
{
    if ms.len() > 0 {
        lemma_counts(ms.drop_last());
    }
}

fn line_of(ls: &Vec<Vec<char>>, i: usize) -> (r: Option<&Vec<char>>)
    ensures
        r matches Some(l) ==> line_at(char_vecs(ls@), i as int) == Some(l@),
        r is None ==> line_at(char_vecs(ls@), i as int) is None,
{
    if i < ls.len() {
        Some(&ls[i])
    } else {
        None
    }
}

fn same_line(a: Option<&Vec<char>>, b: Option<&Vec<char>>) -> (r: bool)
    ensures
        r == (match a {
            Some(x) => Some(x@),
            None => None::<Seq<char>>,
        } == match b {
            Some(y) => Some(y@),
            None => None::<Seq<char>>,
        }),
{
    match (a, b) {
        (Some(x), Some(y)) => chars_equal(x, y),
        (None, None) => true,
        _ => false,
    }
}

fn text_or_empty_exec(l: Option<&Vec<char>>) -> (r: String)
    ensures
        r@ == text_or_empty(
            match l {
                Some(x) => Some(x@),
                None => None,
            },
        ),
{
    match l {
        Some(x) => string_of(x),
        None => String::new(),
    }
}

/// Three-way merge: reconcile ours and theirs against a common base.
pub fn three_way_merge(base: &str, ours: &str, theirs: &str) -> (r: MergeResult)
    ensures
        merge_views(r.lines@) == spec_merge(base@, ours@, theirs@),
        r.clean_count == count_clean(merge_views(r.lines@)),
        r.conflict_count == count_conflicts(merge_views(r.lines@)),
        r.has_conflicts == (r.conflict_count > 0),
{
    let bc = chars_of(base);
    let oc = chars_of(ours);
    let tc = chars_of(theirs);
    let base_lines = lines_of(&bc);
    let ours_lines = lines_of(&oc);
    let theirs_lines = lines_of(&tc);
    let ghost bl = char_vecs(base_lines@);
    let ghost ol = char_vecs(ours_lines@);
    let ghost tl = char_vecs(theirs_lines@);

    let mut merged: Vec<MergeLine> = Vec::new();
    let mut has_conflicts = false;
    let mut clean_count: usize = 0;
    let mut conflict_count: usize = 0;

    let max_len = if ours_lines.len() >= theirs_lines.len() {
        ours_lines.len()
    } else {
        theirs_lines.len()
    };
    let mut i: usize = 0;
    while i < max_len
        invariant
            i <= max_len,
            max_len == longer(ol.len(), tl.len()),
            bl == char_vecs(base_lines@),
            ol == char_vecs(ours_lines@),
            tl == char_vecs(theirs_lines@),
            merge_views(merged@) == merge_prefix(bl, ol, tl, i as nat),
            merged@.len() <= i,
            clean_count == count_clean(merge_views(merged@)),
            conflict_count == count_conflicts(merge_views(merged@)),
            has_conflicts == (conflict_count > 0),
            clean_count + conflict_count == merged@.len(),
        decreases max_len - i,
    {
        let b = line_of(&base_lines, i);
        let o = line_of(&ours_lines, i);
        let t = line_of(&theirs_lines, i);
        let ghost prev = merge_views(merged@);
        let ghost before = merged@;
        let mut pushed: Option<MergeLine> = None;
        if same_line(o, t) {
            if let Some(line) = o {
                pushed = Some(MergeLine::Clean(string_of(line)));
            }
        } else if !same_line(o, b) && same_line(t, b) {
            if let Some(line) = o {
                pushed = Some(MergeLine::Clean(string_of(line)));
            }
        } else if !same_line(t, b) && same_line(o, b) {
            if let Some(line) = t {
                pushed = Some(MergeLine::Clean(string_of(line)));
            }
        } else {
            pushed = Some(
                MergeLine::Conflict { ours: text_or_empty_exec(o), theirs: text_or_empty_exec(t) },
            );
        }
        match pushed {
            Some(m) => {
                let is_conflict = match &m {
                    MergeLine::Clean(_) => false,
                    MergeLine::Conflict { .. } => true,
                };
                let ghost mv = m@;
                merged.push(m);
                assert(merge_views(merged@) =~= prev.push(mv));
                assert(merge_views(merged@).drop_last() =~= prev);
                proof {
                    lemma_counts(prev);
                }
                if is_conflict {
                    has_conflicts = true;
                    conflict_count = conflict_count + 1;
                } else {
                    clean_count = clean_count + 1;
                }
            },
            None => {},
        }
        i = i + 1;
    }
    MergeResult { has_conflicts, lines: merged, clean_count, conflict_count }
}

/// The text of one merge line: a clean line followed by a newline, or a
/// conflict between `<<<<<<< OURS`, `=======` and `>>>>>>> THEIRS` markers.
pub open spec fn render_line(m: MergeLineView) -> Seq<char> {
    match m {
        MergeLineView::Clean(t) => t + "\n"@,
        MergeLineView::Conflict(o, t) => "<<<<<<< OURS\n"@ + o + "\n=======\n"@ + t
            + "\n>>>>>>> THEIRS\n"@,
    }
}

/// The text of a sequence of merge lines.
pub open spec fn render(ms: Seq<MergeLineView>) -> Seq<char>
    decreases ms.len(),
{
    if ms.len() == 0 {
        seq![]
    } else {
        render(ms.drop_last()) + render_line(ms.last())
    }
}

/// Render merge result to text with conflict markers.
pub fn render_merge(result: &MergeResult) -> (r: String)
    ensures
        r@ == render(merge_views(result.lines@)),
{
    let mut out = String::new();
    let ghost ms = merge_views(result.lines@);
    let mut i: usize = 0;
    while i < result.lines.len()
        invariant
            i <= result.lines@.len(),
            ms == merge_views(result.lines@),
            out@ == render(ms.take(i as int)),
        decreases result.lines.len() - i,
    {
        assert(ms.take(i + 1).drop_last() =~= ms.take(i as int));
        match &result.lines[i] {
            MergeLine::Clean(text) => {
                push_str(&mut out, text.as_str());
                push_str(&mut out, "\n");
            },
            MergeLine::Conflict { ours, theirs } => {
                push_str(&mut out, "<<<<<<< OURS\n");
                push_str(&mut out, ours.as_str());
                push_str(&mut out, "\n=======\n");
                push_str(&mut out, theirs.as_str());
                push_str(&mut out, "\n>>>>>>> THEIRS\n");
            },
        }
        i = i + 1;
    }
    assert(ms.take(i as int) =~= ms);
    out
}


// ------------------------------------------------------------------
// Laws of the merge
// ------------------------------------------------------------------

/// Each line of `ls` as a clean merge line.
pub open spec fn all_clean(ls: Seq<Seq<char>>) -> Seq<MergeLineView> {
    Seq::new(ls.len(), |i: int| MergeLineView::Clean(ls[i]))
}

/// A merge line with the sides of a conflict exchanged.
pub open spec fn swap_sides(m: MergeLineView) -> MergeLineView {
    match m {
        MergeLineView::Clean(t) => MergeLineView::Clean(t),
        MergeLineView::Conflict(o, t) => MergeLineView::Conflict(t, o),
    }
}

/// A merge with the sides of every conflict exchanged.
pub open spec fn swapped(ms: Seq<MergeLineView>) -> Seq<MergeLineView> {
    Seq::new(ms.len(), |i: int| swap_sides(ms[i]))
}

proof fn lemma_prefix_follows(
    b: Seq<Seq<char>>,
    o: Seq<Seq<char>>,
    t: Seq<Seq<char>>,
    side: Seq<Seq<char>>,
    n: nat,
)
    requires
        forall|i: int|
            0 <= i < n ==> #[trigger] merge_at(line_at(b, i), line_at(o, i), line_at(t, i))
                == clean_line(line_at(side, i)),
    ensures
        merge_prefix(b, o, t, n) == all_clean(
            side.take(
                if n < side.len() {
                    n as int
                } else {
                    side.len() as int
                },
            ),
        ),
    decreases n,
{
    if n > 0 {
        lemma_prefix_follows(b, o, t, side, (n - 1) as nat);
        let k = n - 1;
        assert(merge_at(line_at(b, k), line_at(o, k), line_at(t, k)) == clean_line(line_at(side, k)));
        if k < side.len() {
            assert(all_clean(side.take(n as int)) =~= all_clean(side.take(k)).push(
                MergeLineView::Clean(side[k]),
            ));
        } else {
            assert(side.take(side.len() as int) =~= side.take(
                if k < side.len() {
                    k
                } else {
                    side.len() as int
                },
            ));
        }
    }
}

/// When only our side changed the base, the merge is our text, line for
/// line, with no conflict.
pub proof fn lemma_merge_only_ours_changed(base: Seq<char>, ours: Seq<char>)
    ensures
        spec_merge(base, ours, base) == all_clean(lines(ours)),
        count_conflicts(spec_merge(base, ours, base)) == 0,
{
    let (b, o) = (lines(base), lines(ours));
    let n = longer(o.len(), b.len());
    assert forall|i: int| 0 <= i < n implies #[trigger] merge_at(line_at(b, i), line_at(o, i), line_at(b, i))
        == clean_line(line_at(o, i)) by {}
    lemma_prefix_follows(b, o, b, o, n);
    assert(o.take(o.len() as int) =~= o);
    lemma_all_clean_no_conflicts(o);
}

/// When only their side changed the base, the merge is their text, line
/// for line, with no conflict.
pub proof fn lemma_merge_only_theirs_changed(base: Seq<char>, theirs: Seq<char>)
    ensures
        spec_merge(base, base, theirs) == all_clean(lines(theirs)),
        count_conflicts(spec_merge(base, base, theirs)) == 0,
{
    let (b, t) = (lines(base), lines(theirs));
    let n = longer(b.len(), t.len());
    assert forall|i: int| 0 <= i < n implies #[trigger] merge_at(line_at(b, i), line_at(b, i), line_at(t, i))
        == clean_line(line_at(t, i)) by {}
    lemma_prefix_follows(b, b, t, t, n);
    assert(t.take(t.len() as int) =~= t);
    lemma_all_clean_no_conflicts(t);
}

/// When both sides made the same change, the merge is that text, line for
/// line, with no conflict.
pub proof fn lemma_merge_same_change(base: Seq<char>, both: Seq<char>)
    ensures
        spec_merge(base, both, both) == all_clean(lines(both)),
        count_conflicts(spec_merge(base, both, both)) == 0,
{
    let (b, x) = (lines(base), lines(both));
    let n = longer(x.len(), x.len());
    assert forall|i: int| 0 <= i < n implies #[trigger] merge_at(line_at(b, i), line_at(x, i), line_at(x, i))
        == clean_line(line_at(x, i)) by {}
    lemma_prefix_follows(b, x, x, x, n);
    assert(x.take(x.len() as int) =~= x);
    lemma_all_clean_no_conflicts(x);
}

proof fn lemma_all_clean_no_conflicts(ls: Seq<Seq<char>>)
    ensures
        count_conflicts(all_clean(ls)) == 0,
    decreases ls.len(),
{
    if ls.len() > 0 {
        assert(all_clean(ls).drop_last() =~= all_clean(ls.drop_last()));
        lemma_all_clean_no_conflicts(ls.drop_last());
    }
}

proof fn lemma_prefix_swapped(b: Seq<Seq<char>>, o: Seq<Seq<char>>, t: Seq<Seq<char>>, n: nat)
    ensures
        merge_prefix(b, t, o, n) == swapped(merge_prefix(b, o, t, n)),
    decreases n,
{
    if n > 0 {
        lemma_prefix_swapped(b, o, t, (n - 1) as nat);
        let prev = merge_prefix(b, o, t, (n - 1) as nat);
        match merge_at(line_at(b, n - 1), line_at(o, n - 1), line_at(t, n - 1)) {
            Some(m) => {
                assert(swapped(prev.push(m)) =~= swapped(prev).push(swap_sides(m)));
            },
            None => {},
        }
    }
}

/// Exchanging our side and their side exchanges the two sides of every
/// conflict and leaves every clean line as it was.
pub proof fn lemma_merge_symmetric(base: Seq<char>, ours: Seq<char>, theirs: Seq<char>)
    ensures
        spec_merge(base, theirs, ours) == swapped(spec_merge(base, ours, theirs)),
{
    let (b, o, t) = (lines(base), lines(ours), lines(theirs));
    assert(longer(t.len(), o.len()) == longer(o.len(), t.len()));
    lemma_prefix_swapped(b, o, t, longer(o.len(), t.len()));
}

proof fn lemma_prefix_no_conflicts(b: Seq<Seq<char>>, o: Seq<Seq<char>>, t: Seq<Seq<char>>, n: nat)
    requires
        forall|i: int|
            0 <= i < n ==> line_at(o, i) == line_at(t, i) || line_at(o, i) == line_at(b, i)
                || line_at(t, i) == line_at(b, i),
    ensures
        count_conflicts(merge_prefix(b, o, t, n)) == 0,
    decreases n,
{
    if n > 0 {
        lemma_prefix_no_conflicts(b, o, t, (n - 1) as nat);
        let prev = merge_prefix(b, o, t, (n - 1) as nat);
        match merge_at(line_at(b, n - 1), line_at(o, n - 1), line_at(t, n - 1)) {
            Some(m) => {
                assert(prev.push(m).drop_last() =~= prev);
            },
            None => {},
        }
    }
}

/// Changes that never touch the same line from both sides in different ways
/// merge without conflict.
pub proof fn lemma_merge_disjoint_changes(base: Seq<char>, ours: Seq<char>, theirs: Seq<char>)
    requires
        forall|i: int|
            0 <= i < longer(lines(ours).len(), lines(theirs).len()) ==> line_at(lines(ours), i)
                == line_at(lines(theirs), i) || line_at(lines(ours), i) == line_at(lines(base), i)
                || line_at(lines(theirs), i) == line_at(lines(base), i),
    ensures
        count_conflicts(spec_merge(base, ours, theirs)) == 0,
{
    lemma_prefix_no_conflicts(
        lines(base),
        lines(ours),
        lines(theirs),
        longer(lines(ours).len(), lines(theirs).len()),
    );
}


proof fn lemma_conflicts_of_containing(ms: Seq<MergeLineView>, x: MergeLineView)
    requires
        ms.contains(x),
        x is Conflict,
    ensures
        count_conflicts(ms) > 0,
    decreases ms.len(),
{
    let k = choose|k: int| 0 <= k < ms.len() && ms[k] == x;
    if k < ms.len() - 1 {
        assert(ms.drop_last()[k] == x);
        lemma_conflicts_of_containing(ms.drop_last(), x);
    }
}

proof fn lemma_prefix_keeps_conflict(
    b: Seq<Seq<char>>,
    o: Seq<Seq<char>>,
    t: Seq<Seq<char>>,
    i: int,
    n: nat,
)
    requires
        0 <= i < n,
        line_at(o, i) != line_at(t, i),
        line_at(o, i) != line_at(b, i),
        line_at(t, i) != line_at(b, i),
    ensures
        merge_prefix(b, o, t, n).contains(
            MergeLineView::Conflict(text_or_empty(line_at(o, i)), text_or_empty(line_at(t, i))),
        ),
    decreases n,
{
    let x = MergeLineView::Conflict(text_or_empty(line_at(o, i)), text_or_empty(line_at(t, i)));
    let prev = merge_prefix(b, o, t, (n - 1) as nat);
    if i == n - 1 {
        assert(merge_at(line_at(b, i), line_at(o, i), line_at(t, i)) == Some(x));
        assert(prev.push(x)[prev.len() as int] == x);
    } else {
        lemma_prefix_keeps_conflict(b, o, t, i, (n - 1) as nat);
        let j = choose|j: int| 0 <= j < prev.len() && prev[j] == x;
        match merge_at(line_at(b, n - 1), line_at(o, n - 1), line_at(t, n - 1)) {
            Some(m) => {
                assert(prev.push(m)[j] == x);
            },
            None => {},
        }
    }
}

/// Wherever the two sides changed a line position in different ways (a
/// line absent from a text counts as a line of its own, so lines that both
/// sides appended past the end of the base are included), the merge holds a
/// conflict between the two sides' lines there, and so reports a conflict.
pub proof fn lemma_merge_conflicting_changes(
    base: Seq<char>,
    ours: Seq<char>,
    theirs: Seq<char>,
    i: int,
)
    requires
        0 <= i < longer(lines(ours).len(), lines(theirs).len()),
        line_at(lines(ours), i) != line_at(lines(theirs), i),
        line_at(lines(ours), i) != line_at(lines(base), i),
        line_at(lines(theirs), i) != line_at(lines(base), i),
    ensures
        spec_merge(base, ours, theirs).contains(
            MergeLineView::Conflict(
                text_or_empty(line_at(lines(ours), i)),
                text_or_empty(line_at(lines(theirs), i)),
            ),
        ),
        count_conflicts(spec_merge(base, ours, theirs)) > 0,
{
    let (b, o, t) = (lines(base), lines(ours), lines(theirs));
    lemma_prefix_keeps_conflict(b, o, t, i, longer(o.len(), t.len()));
    lemma_conflicts_of_containing(
        spec_merge(base, ours, theirs),
        MergeLineView::Conflict(text_or_empty(line_at(o, i)), text_or_empty(line_at(t, i))),
    );
}

} // verus!
