use plato_runtime_kernel::merge::{render_merge, three_way_merge, MergeLine};

#[test]
fn test_merge_no_changes() {
    let r = three_way_merge("a\nb", "a\nb", "a\nb");
    assert!(!r.has_conflicts);
    assert_eq!(r.clean_count, 2);
}

#[test]
fn test_merge_ours_only() {
    let r = three_way_merge("a", "b", "a");
    assert!(!r.has_conflicts);
    assert_eq!(r.lines[0], MergeLine::Clean("b".into()));
}

#[test]
fn test_merge_theirs_only() {
    let r = three_way_merge("a", "a", "c");
    assert!(!r.has_conflicts);
    assert_eq!(r.lines[0], MergeLine::Clean("c".into()));
}

#[test]
fn test_merge_both_same() {
    let r = three_way_merge("a", "b", "b");
    assert!(!r.has_conflicts);
}

#[test]
fn test_merge_conflict() {
    let r = three_way_merge("a", "b", "c");
    assert!(r.has_conflicts);
    assert_eq!(r.conflict_count, 1);
}

#[test]
fn test_merge_mixed() {
    let r = three_way_merge("a\nb\nc", "a\nx\nc", "a\nb\ny");
    assert!(!r.has_conflicts);
    assert_eq!(r.clean_count, 3);
}

#[test]
fn test_render_clean() {
    let r = three_way_merge("a", "b", "b");
    let text = render_merge(&r);
    assert!(!text.contains("<<<<<"));
}

#[test]
fn test_render_conflict() {
    let r = three_way_merge("a", "b", "c");
    let text = render_merge(&r);
    assert!(text.contains("OURS"));
    assert!(text.contains("THEIRS"));
}

#[test]
fn test_merge_counts() {
    let r = three_way_merge("a\nb\nc", "d\nb\ne", "a\nf\ne");
    assert_eq!(r.clean_count + r.conflict_count, 3);
}

// ---- further cases ----

#[test]
fn merge_tutorial_example_renders_both_changes() {
    let base = "temp: 70.0\npressure: 1013.2\nstatus: OK";
    let ours = "temp: 72.5\npressure: 1013.2\nstatus: OK";
    let theirs = "temp: 70.0\npressure: 1013.2\nstatus: WARNING";
    let r = three_way_merge(base, ours, theirs);
    assert_eq!(r.clean_count, 3);
    assert_eq!(r.conflict_count, 0);
    assert_eq!(render_merge(&r), "temp: 72.5\npressure: 1013.2\nstatus: WARNING\n");
}

#[test]
fn merge_conflict_renders_markers() {
    let r = three_way_merge("a", "b", "c");
    assert_eq!(
        r.lines[0],
        MergeLine::Conflict { ours: "b".to_string(), theirs: "c".to_string() }
    );
    assert_eq!(render_merge(&r), "<<<<<<< OURS\nb\n=======\nc\n>>>>>>> THEIRS\n");
}

#[test]
fn merge_symmetry_swaps_conflict_sides() {
    let r1 = three_way_merge("a\nb", "x\nb", "y\nb");
    let r2 = three_way_merge("a\nb", "y\nb", "x\nb");
    assert_eq!(r1.lines[0], MergeLine::Conflict { ours: "x".into(), theirs: "y".into() });
    assert_eq!(r2.lines[0], MergeLine::Conflict { ours: "y".into(), theirs: "x".into() });
    assert_eq!(r1.lines[1], r2.lines[1]);
}

#[test]
fn merge_only_ours_gives_ours() {
    let r = three_way_merge("a\nb\nc", "a\nB\nc\nd", "a\nb\nc");
    assert!(!r.has_conflicts);
    assert_eq!(render_merge(&r), "a\nB\nc\nd\n");
}

#[test]
fn merge_deleted_line_on_one_side_is_dropped() {
    // ours deleted the last line, theirs kept it: only ours changed there.
    let r = three_way_merge("a\nb", "a", "a\nb");
    assert!(!r.has_conflicts);
    assert_eq!(r.lines, vec![MergeLine::Clean("a".into())]);
}

#[test]
fn merge_deletion_against_change_conflicts_with_empty_side() {
    let r = three_way_merge("a\nb", "a", "a\nc");
    assert!(r.has_conflicts);
    assert_eq!(r.lines[1], MergeLine::Conflict { ours: String::new(), theirs: "c".into() });
}

#[test]
fn merge_of_empty_texts_is_empty() {
    let r = three_way_merge("", "", "");
    assert!(r.lines.is_empty());
    assert_eq!(render_merge(&r), "");
}
