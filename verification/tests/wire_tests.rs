use plato_runtime_kernel::wire::{
    cmd_actuator, cmd_history, cmd_quit, cmd_subscribe, cmd_tick, cmd_unsubscribe, default_format,
    default_protocol_version, WireWelcome,
};
use plato_runtime_kernel::RoomDepth;

fn welcome(room_id: &str, tick_hz: f64, sensors: &[&str]) -> WireWelcome {
    WireWelcome {
        msg_type: "welcome".to_string(),
        room_id: room_id.to_string(),
        tick_hz_text: tick_hz.to_string(),
        tick_hz_millis: (tick_hz * 1000.0) as u64,
        sensors: sensors.iter().map(|s| s.to_string()).collect(),
        format: default_format(),
        protocol_version: default_protocol_version(),
    }
}

#[test]
fn test_welcome_to_contract() {
    let welcome = welcome("engine_room", 0.2, &["coolant_temp_c", "rpm"]);
    let contract = welcome.to_room_contract((0, 0));

    assert_eq!(contract.room_id, "/rooms/engine_room");
    assert_eq!(contract.identity.depth, RoomDepth::Floor);
    assert_eq!(contract.identity.grid_position, (0, 0));
    assert!(contract.runtime_assets.reflex_bindings.contains_key("coolant_temp_c"));
    assert!(contract.runtime_assets.reflex_bindings.contains_key("rpm"));
    assert!(contract.runtime_assets.reflex_bindings.contains_key("tick_hz"));
    assert!(contract.runtime_assets.reflex_bindings.contains_key("protocol_version"));
}

#[test]
fn test_cmd_builders() {
    assert_eq!(cmd_tick(), "tick");
    assert_eq!(cmd_history(20), "history 20");
    assert_eq!(cmd_actuator("pump", &1.0f64.to_string()), "actuator pump 1");
    assert_eq!(cmd_subscribe(), "subscribe");
    assert_eq!(cmd_unsubscribe(), "unsubscribe");
    assert_eq!(cmd_quit(), "quit");
}

// ---- further cases ----

#[test]
fn welcome_contract_values() {
    let w = welcome("engine_room", 0.2, &["coolant_temp_c", "rpm"]);
    let c = w.to_room_contract((3, 4));
    assert_eq!(c.identity.room_id, "/rooms/engine_room");
    assert_eq!(c.identity.tensor_hash, "c8");
    assert_eq!(c.identity.grid_position, (3, 4));
    assert_eq!(c.runtime_assets.specification, "ROOM.json");
    let b = &c.runtime_assets.reflex_bindings;
    assert_eq!(b.get("rpm").map(|s| s.as_str()), Some("stream"));
    assert_eq!(b.get("tick_hz").map(|s| s.as_str()), Some("0.2"));
    assert_eq!(b.get("protocol_version").map(|s| s.as_str()), Some("0.1"));
    assert_eq!(b.get("format").map(|s| s.as_str()), Some("json"));
    assert_eq!(b.len(), 5);
    assert!(c.topology.parent_room.is_none());
    assert!(c.topology.adjacent_rooms.is_empty());
}

#[test]
fn welcome_sensor_named_like_a_setting_is_overwritten() {
    let w = welcome("r", 1.0, &["format"]);
    let c = w.to_room_contract((0, 0));
    assert_eq!(c.runtime_assets.reflex_bindings.get("format").map(|s| s.as_str()), Some("json"));
    assert_eq!(c.identity.tensor_hash, "3e8");
}

#[test]
fn history_command_numbers() {
    assert_eq!(cmd_history(0), "history 0");
    assert_eq!(cmd_history(1234567), "history 1234567");
}

#[test]
fn defaults() {
    assert_eq!(default_format(), "json");
    assert_eq!(default_protocol_version(), "0.1");
}
