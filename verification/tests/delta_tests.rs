use plato_runtime_kernel::delta::{apply_delta, compute_delta, text_hash, DeltaPatch, DiffOp};

#[test]
fn test_hash_deterministic() {
    let h1 = text_hash("hello");
    let h2 = text_hash("hello");
    assert_eq!(h1, h2);
}

#[test]
fn test_hash_different() {
    let h1 = text_hash("hello");
    let h2 = text_hash("world");
    assert_ne!(h1, h2);
}

#[test]
fn test_delta_no_change() {
    let d = compute_delta("abc", "abc");
    assert!(d.ops.is_empty());
}

#[test]
fn test_delta_line_change() {
    let d = compute_delta("old line", "new line");
    assert_eq!(d.ops.len(), 2);
    assert_eq!(d.ops[0].op, "REM");
    assert_eq!(d.ops[1].op, "ADD");
}

#[test]
fn test_delta_addition() {
    let d = compute_delta("line1", "line1\nline2");
    assert_eq!(d.ops.len(), 1);
    assert_eq!(d.ops[0].op, "ADD");
}

#[test]
fn test_delta_deletion() {
    let d = compute_delta("line1\nline2", "line1");
    assert_eq!(d.ops.len(), 1);
    assert_eq!(d.ops[0].op, "REM");
}

#[test]
fn test_delta_checksums() {
    let d = compute_delta("a", "b");
    assert_ne!(d.base_checksum, d.current_checksum);
}

#[test]
fn test_apply_delta_change() {
    let base = "old";
    let patch = compute_delta(base, "new");
    let result = apply_delta(base, &patch);
    assert_eq!(result, "new");
}

#[test]
fn test_apply_delta_add() {
    let base = "line1";
    let patch = compute_delta(base, "line1\nline2");
    let result = apply_delta(base, &patch);
    assert!(result.contains("line2"));
}

// ---- further cases ----

#[test]
fn hash_of_empty_text_is_the_seed() {
    assert_eq!(text_hash(""), 5381);
}

#[test]
fn hash_follows_djb2() {
    // 5381 * 33 + 'a' (97)
    assert_eq!(text_hash("a"), 5381 * 33 + 97);
    assert_eq!(text_hash("ab"), (5381 * 33 + 97) * 33 + 98);
}

#[test]
fn hash_wraps_on_long_text() {
    let long = "z".repeat(100);
    let mut expected: u64 = 5381;
    for _ in 0..100 {
        expected = expected.wrapping_mul(33).wrapping_add(b'z' as u64);
    }
    assert_eq!(text_hash(&long), expected);
}

#[test]
fn hash_reads_utf8_bytes() {
    let mut expected: u64 = 5381;
    for b in "é".bytes() {
        expected = expected.wrapping_mul(33).wrapping_add(b as u64);
    }
    assert_eq!(text_hash("é"), expected);
}

#[test]
fn delta_ops_carry_line_numbers_and_text() {
    let d = compute_delta("a\nb\nc", "a\nx\nc\nd");
    assert_eq!(d.ops.len(), 3);
    assert_eq!((d.ops[0].line, d.ops[0].op.as_str(), d.ops[0].text.as_str()), (1, "REM", "b"));
    assert_eq!((d.ops[1].line, d.ops[1].op.as_str(), d.ops[1].text.as_str()), (1, "ADD", "x"));
    assert_eq!((d.ops[2].line, d.ops[2].op.as_str(), d.ops[2].text.as_str()), (3, "ADD", "d"));
    assert_eq!(d.base_checksum, text_hash("a\nb\nc"));
    assert_eq!(d.current_checksum, text_hash("a\nx\nc\nd"));
}

#[test]
fn delta_round_trip_on_last_line_change() {
    let base = "temp: 70\nstatus: OK";
    let current = "temp: 70\nstatus: WARN\nextra: 1";
    let patch = compute_delta(base, current);
    assert_eq!(apply_delta(base, &patch), current);
}

#[test]
fn delta_round_trip_dropping_last_line() {
    let base = "a\nb\nc";
    let current = "a\nb";
    let patch = compute_delta(base, current);
    assert_eq!(apply_delta(base, &patch), current);
}

#[test]
fn delta_round_trip_after_a_middle_change() {
    let base = "a\nb";
    let current = "x\nb";
    let patch = compute_delta(base, current);
    assert_eq!(apply_delta(base, &patch), current);
}

#[test]
fn delta_round_trip_tutorial_example() {
    let base = "engine_room: OK\ntemp: 72.3\npressure: 1013.2";
    let current = "engine_room: OK\ntemp: 75.1\npressure: 1013.2";
    let patch = compute_delta(base, current);
    assert_eq!(patch.ops.len(), 2);
    assert_eq!(apply_delta(base, &patch), current);
}

#[test]
fn delta_round_trip_sync_example() {
    let base = "temp: 70.0\nstatus: OK";
    let current = "temp: 75.0\nstatus: OK";
    let patch = compute_delta(base, current);
    assert_eq!(apply_delta(base, &patch), current);
}

#[test]
fn delta_round_trip_dropping_several_lines() {
    let base = "a\nb\nc\nd";
    let current = "x";
    let patch = compute_delta(base, current);
    assert_eq!(patch.ops.len(), 5);
    assert_eq!(apply_delta(base, &patch), current);
}

#[test]
fn delta_round_trip_with_empty_lines_and_empty_texts() {
    for (base, current) in [("a\n\nb", "\n\nc"), ("", "p\nq"), ("p\nq", ""), ("", "")] {
        let patch = compute_delta(base, current);
        assert_eq!(apply_delta(base, &patch), current);
    }
}

#[test]
fn delta_removal_keeps_later_line_numbers() {
    // Line numbers are those of the base: removing line 0 does not move
    // line 1, so the addition at line 1 replaces "q".
    let patch = DeltaPatch {
        base_checksum: 0,
        current_checksum: 0,
        ops: vec![
            DiffOp { line: 0, op: "REM".to_string(), text: "p".to_string() },
            DiffOp { line: 1, op: "ADD".to_string(), text: "z".to_string() },
        ],
    };
    assert_eq!(apply_delta("p\nq\nr", &patch), "z\nr");
}

#[test]
fn delta_apply_ignores_unknown_ops_and_far_removals() {
    let patch = DeltaPatch {
        base_checksum: 0,
        current_checksum: 0,
        ops: vec![
            DiffOp { line: 0, op: "MOVE".to_string(), text: "zzz".to_string() },
            DiffOp { line: 9, op: "REM".to_string(), text: String::new() },
        ],
    };
    assert_eq!(apply_delta("p\nq", &patch), "p\nq");
}

#[test]
fn delta_apply_drops_crlf_and_final_newline() {
    let patch = compute_delta("a\r\nb\n", "a\r\nb\n");
    assert!(patch.ops.is_empty());
    assert_eq!(apply_delta("a\r\nb\n", &patch), "a\nb");
}
