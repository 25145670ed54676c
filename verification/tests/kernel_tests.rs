use plato_runtime_kernel::{
    check_assertion, extract_assertions, validate_payload, Baton, DirEntry, GridBridge,
    RoomContract, RoomDepth, RoomIdentity, RoomTopology, RuntimeAssets, TextMap, TutorLoop,
};

fn contract(room_id: &str, depth: RoomDepth, adjacent: Vec<String>) -> RoomContract {
    RoomContract {
        room_id: room_id.into(),
        identity: RoomIdentity {
            room_id: room_id.into(),
            tensor_hash: "".into(),
            grid_position: (0, 0),
            depth,
        },
        topology: RoomTopology { parent_room: None, adjacent_rooms: adjacent, traversal_history: vec![] },
        runtime_assets: RuntimeAssets { specification: "README.md".into(), reflex_bindings: TextMap::new() },
    }
}

// RoomIdentity tests
#[test]
fn test_room_identity() {
    let ri = RoomIdentity {
        room_id: "/rooms/test".into(),
        tensor_hash: "abc".into(),
        grid_position: (0, 0),
        depth: RoomDepth::Floor,
    };
    assert_eq!(ri.room_id, "/rooms/test");
}

#[test]
fn test_room_depth_floor() {
    let ri = RoomIdentity { room_id: "/".into(), tensor_hash: "".into(), grid_position: (0, 0), depth: RoomDepth::Floor };
    assert_eq!(ri.depth, RoomDepth::Floor);
}

// RoomContract tests
#[test]
fn test_contract_adjacent() {
    let c = contract("/a", RoomDepth::Floor, vec!["/b".into(), "/c".into()]);
    assert!(c.is_adjacent("/b"));
    assert!(!c.is_adjacent("/d"));
}

#[test]
fn test_traversal_record() {
    let mut c = contract("/a", RoomDepth::Floor, vec!["/b".into()]);
    c.record_traversal("/b", "baton_1", 1);
    assert_eq!(c.topology.traversal_history.len(), 1);
    assert_eq!(c.topology.traversal_history[0].weight_tenths as f64 / 10.0, 0.1);
}

// Baton tests
#[test]
fn test_baton_new() {
    let b = Baton::new("b1", "/rooms/test");
    assert_eq!(b.baton_id, "b1");
    assert_eq!(b.tick, 0);
}

#[test]
fn test_baton_advance() {
    let mut b = Baton::new("b1", "/a");
    b.advance_to("/b");
    assert_eq!(b.current_scope, "/b");
    assert_eq!(b.tick, 1);
}

#[test]
fn test_baton_data() {
    let mut b = Baton::new("b1", "/a");
    b.set_data("key", "value");
    assert_eq!(b.get_data("key"), Some("value"));
}

#[test]
fn test_baton_timestamp() {
    let b = Baton::new("b1", "/a");
    let ts = b.timestamp();
    assert!(ts > 0);
}

// Assertion extraction tests
#[test]
fn test_extract_assertions() {
    let md = "# Title\n## Behavioral Constraints\n* Must contain SUCCESS\n* Shall not contain ERROR";
    let a = extract_assertions(md);
    assert_eq!(a.len(), 2);
}

#[test]
fn test_extract_assertions_emoji() {
    let md = "# Title\n## 🛑 Constraints\n* Must contain OK\n* Must not contain FAIL";
    let a = extract_assertions(md);
    assert_eq!(a.len(), 2);
}

#[test]
fn test_extract_no_constraints() {
    let md = "# Title\nJust some text";
    let a = extract_assertions(md);
    assert!(a.is_empty());
}

#[test]
fn test_extract_constraints_boundary() {
    let md = "## 🛑 Constraints\n* Rule 1\n## Next Section\n* Not a constraint";
    let a = extract_assertions(md);
    assert_eq!(a.len(), 1);
}

// Validation tests
#[test]
fn test_validate_pass() {
    let assertions = vec!["output must contain OK".into()];
    let r = validate_payload("Status: OK", &assertions);
    assert!(r.passed);
}

#[test]
fn test_validate_fail_missing() {
    let assertions = vec!["output must contain SUCCESS".into()];
    let r = validate_payload("Status: FAIL", &assertions);
    assert!(!r.passed);
    assert_eq!(r.violations.len(), 1);
}

#[test]
fn test_validate_forbidden() {
    let assertions = vec!["shall not contain ERROR".into()];
    let r = validate_payload("System ERROR occurred", &assertions);
    assert!(!r.passed);
}

#[test]
fn test_validate_forbidden_pass() {
    let assertions = vec!["shall not contain CRITICAL".into()];
    let r = validate_payload("All systems nominal", &assertions);
    assert!(r.passed);
}

#[test]
fn test_validate_multiple() {
    let assertions = vec!["output must contain Resource ID".into(), "shall not contain CRITICAL".into()];
    let r = validate_payload("Resource ID: abc-123\nStatus: OK", &assertions);
    assert!(r.passed);
}

#[test]
fn test_validate_empty() {
    let r = validate_payload("anything", &[]);
    assert!(r.passed);
}

// GridBridge tests
#[test]
fn test_grid_new() {
    let g = GridBridge::new();
    assert!(g.cells().is_empty());
}

#[test]
fn test_grid_hydrate() {
    let mut g = GridBridge::new();
    g.hydrate("A1", "/rooms/test");
    assert_eq!(g.get_room("A1"), Some("/rooms/test"));
}

#[test]
fn test_grid_serialize() {
    let mut g = GridBridge::new();
    g.hydrate("A1", "/a");
    let json = g.serialize();
    assert!(json.contains("A1"));
}

// TutorLoop tests
#[test]
fn test_tutor_pass() {
    let mut tl = TutorLoop::new(3);
    let spec = "## 🛑 Constraints\n* output must contain OK";
    let r = tl.cycle("Status: OK", spec);
    assert!(r.passed);
    assert!(!r.should_continue);
}

#[test]
fn test_tutor_fail_then_pass() {
    let mut tl = TutorLoop::new(3);
    let spec = "## 🛑 Constraints\n* output must contain OK";
    let r1 = tl.cycle("Status: PENDING", spec);
    assert!(!r1.passed);
    assert!(r1.should_continue);
    let r2 = tl.cycle("Status: OK", spec);
    assert!(r2.passed);
}

#[test]
fn test_tutor_max_iterations() {
    let mut tl = TutorLoop::new(2);
    let spec = "## 🛑 Constraints\n* Must contain OK";
    tl.cycle("nope", spec);
    tl.cycle("still nope", spec);
    assert_eq!(tl.iteration, 2);
}

// ---- further cases ----

#[test]
fn readme_quick_start_validates() {
    let mut baton = Baton::new("watchdog", "/rooms/engine_room");
    baton.set_data("coolant_threshold", "95");
    baton.advance_to("/rooms/wheelhouse");
    assert_eq!(baton.current_scope, "/rooms/wheelhouse");
    assert_eq!(baton.get_data("coolant_threshold"), Some("95"));
    let spec = "## 🛑 Constraints\n* output must contain OK";
    let result = validate_payload("Status: OK", &extract_assertions(spec));
    assert!(result.passed);
}

#[test]
fn extracted_assertion_text_is_cleaned() {
    let md = "## Behavioral Constraints\n  * Must contain `OK`  \n- Shall not contain ERROR\nplain line\n* \n# Next\n* after";
    let a = extract_assertions(md);
    assert_eq!(a, vec!["Must contain `OK`".to_string(), "Shall not contain ERROR".to_string()]);
}

#[test]
fn extracted_bullets_lose_every_star_and_dash() {
    let md = "🛑\n* abc-123 **bold**";
    assert_eq!(extract_assertions(md), vec!["abc123 bold".to_string()]);
}

#[test]
fn heading_text_before_the_section_does_not_count() {
    let md = "* early bullet\n## 🛑 Constraints\n* late bullet";
    assert_eq!(extract_assertions(md), vec!["late bullet".to_string()]);
}

#[test]
fn violation_messages_and_summary() {
    let assertions = vec![
        "output must contain 'SUCCESS'".to_string(),
        "must not contain \"ERROR\"".to_string(),
        "the mode must be `auto`".to_string(),
    ];
    let r = validate_payload("ERROR in manual", &assertions);
    assert!(!r.passed);
    assert_eq!(
        r.violations,
        vec![
            "Missing required: 'SUCCESS'".to_string(),
            "Forbidden term found: 'ERROR'".to_string(),
            "Expected property: 'auto'".to_string(),
        ]
    );
    assert_eq!(
        r.summary,
        "❌ 3 violation(s):\nMissing required: 'SUCCESS'\nForbidden term found: 'ERROR'\nExpected property: 'auto'"
    );
}

#[test]
fn passing_summary() {
    let r = validate_payload("OK", &["output must contain OK".to_string()]);
    assert_eq!(r.summary, "✅ All assertions verified.");
    assert!(r.violations.is_empty());
}

#[test]
fn assertion_case_is_read_through_lowercase() {
    // "MUST CONTAIN" is recognised through the lower-case form; the keyword is
    // then split on the exact words, which do not occur, so the whole
    // assertion is the keyword.
    let r = validate_payload("nothing", &["MUST CONTAIN OK".to_string()]);
    assert_eq!(r.violations, vec!["Missing required: 'MUST CONTAIN OK'".to_string()]);
}

#[test]
fn check_assertion_takes_the_given_lowercase() {
    assert!(check_assertion("x", "MUST CONTAIN OK", "MUST CONTAIN OK").is_empty());
    assert_eq!(
        check_assertion("x", "MUST CONTAIN OK", "must contain ok"),
        vec!["Missing required: 'MUST CONTAIN OK'".to_string()]
    );
}

#[test]
fn forbidden_word_form() {
    let r = validate_payload("a panic here", &["no condition may use the word panic".to_string()]);
    assert_eq!(r.violations, vec!["Forbidden term found: 'panic'".to_string()]);
}

#[test]
fn keyword_after_last_must_contain() {
    let r = validate_payload("B", &["must contain A must contain B".to_string()]);
    assert!(r.passed);
}

#[test]
fn should_be_is_recognised_but_never_checked() {
    let r = validate_payload("x", &["value should be 5".to_string()]);
    assert!(r.passed);
}

#[test]
fn tutor_stops_at_max_iterations() {
    let mut tl = TutorLoop::new(2);
    let spec = "## 🛑 Constraints\n* Must contain OK";
    let r1 = tl.cycle("nope", spec);
    assert!(r1.should_continue);
    assert_eq!(r1.iteration, 1);
    let r2 = tl.cycle("still nope", spec);
    assert!(!r2.should_continue);
    assert_eq!(r2.iteration, 2);
    assert_eq!(r2.violations, vec!["Missing required: 'Must contain OK'".to_string()]);
}

#[test]
fn baton_data_overwrites_and_keeps_other_keys() {
    let mut b = Baton::new("b", "/a");
    b.set_data("k", "1");
    b.set_data("j", "2");
    b.set_data("k", "3");
    assert_eq!(b.get_data("k"), Some("3"));
    assert_eq!(b.get_data("j"), Some("2"));
    assert_eq!(b.get_data("missing"), None);
    assert_eq!(b.operational_data.len(), 2);
}

#[test]
fn traversal_weight_grows_by_a_tenth() {
    let mut c = contract("/a", RoomDepth::Board, vec![]);
    c.record_traversal("/b", "x", 1);
    c.record_traversal("/c", "y", 2);
    c.record_traversal("/b", "z", 3);
    let h = &c.topology.traversal_history;
    assert_eq!(h.len(), 2);
    assert_eq!(h[0].target_room, "/b");
    assert_eq!(h[0].weight_tenths, 2);
    assert_eq!(h[0].last_baton, "z");
    assert_eq!(h[0].timestamp, 3);
    assert_eq!(h[1].weight_tenths, 1);
}

#[test]
fn grid_cells_and_tree() {
    let mut g = GridBridge::new();
    g.hydrate("B2", "/rooms/bridge");
    let tree = vec![
        DirEntry { name: "engine".into(), children: vec!["ROOM.json".into(), "x".into()] },
        DirEntry { name: "notes".into(), children: vec!["README.md".into()] },
        DirEntry { name: "galley".into(), children: vec!["ROOM.json".into()] },
    ];
    let n = g.hydrate_tree(&tree, "/rooms");
    assert_eq!(n, 2);
    assert_eq!(g.get_room("A2"), Some("/rooms/engine"));
    assert_eq!(g.get_room("A3"), Some("/rooms/galley"));
    let mut cells = g.cells();
    cells.sort();
    assert_eq!(cells, vec!["A2", "A3", "B2"]);
}

#[test]
fn grid_serialize_is_a_json_object() {
    let mut g = GridBridge::new();
    g.hydrate("A1", "/a");
    g.hydrate("B1", "/b");
    assert_eq!(g.serialize(), "{\n  \"A1\": \"/a\",\n  \"B1\": \"/b\"\n}");
}

#[test]
fn text_map_clone_keeps_entries() {
    let mut m = TextMap::new();
    m.insert("a", "1");
    let c = m.clone();
    assert_eq!(c.get("a").map(|s| s.as_str()), Some("1"));
    assert_eq!(c.keys(), vec!["a"]);
}

#[test]
fn tutor_driver_runs_at_most_the_limit() {
    let spec = "## 🛑 Constraints\n* Must contain OK";
    for (limit, most) in [(0usize, 1usize), (1, 1), (4, 4)] {
        let mut tl = TutorLoop::new(limit);
        let mut runs = 0;
        loop {
            let r = tl.cycle("never", spec);
            runs += 1;
            assert_eq!(r.iteration, runs);
            assert!(!r.passed);
            if !r.should_continue {
                break;
            }
        }
        assert_eq!(runs, most);
    }
}

#[test]
fn assertion_case_is_read_through_lowercase_beyond_ascii() {
    // A non-ASCII character in the assertion: the phrase is still found in
    // the lower-case form; the exact words do not occur, so the whole
    // assertion is the keyword.
    let r = validate_payload("status ok", &["Ausgabe MUST CONTAIN Ü".to_string()]);
    assert!(!r.passed);
    assert_eq!(r.violations, vec!["Missing required: 'Ausgabe MUST CONTAIN Ü'".to_string()]);
}
