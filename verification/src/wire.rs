//! Wire protocol bridge: the command lines the kernel sends to engine
//! blocks, and the room contract that an engine block's welcome message
//! describes.
use vstd::prelude::*;

use crate::room::{RoomContract, RoomDepth, RoomIdentity, RoomTopology, RuntimeAssets};
use crate::text::{decimal, decimal_chars, lower_hex, lower_hex_chars, push_chars, push_str, string_from};
use crate::text_map::TextMap;

verus! {

/// The welcome message of an engine block, with its tick rate held as the
/// two values the kernel reads from it: the rate as decimal text, and the
/// whole number of ticks per thousand seconds.
#[derive(Debug, Clone)]
pub struct WireWelcome {
    pub msg_type: String,
    pub room_id: String,
    pub tick_hz_text: String,
    pub tick_hz_millis: u64,
    pub sensors: Vec<String>,
    pub format: String,
    pub protocol_version: String,
}

/// The format a welcome message has when it names none.
pub fn default_format() -> (r: String)
    ensures
        r@ == "json"@,
{
    string_from("json")
}

/// The protocol version a welcome message has when it names none.
pub fn default_protocol_version() -> (r: String)
    ensures
        r@ == "0.1"@,
{
    string_from("0.1")
}

/// Each sensor bound to `"stream"`, on top of `m`.
pub open spec fn sensor_bindings(
    m: Map<Seq<char>, Seq<char>>,
    sensors: Seq<Seq<char>>,
) -> Map<Seq<char>, Seq<char>>
    decreases sensors.len(),
{
    if sensors.len() == 0 {
        m
    } else {
        sensor_bindings(m, sensors.drop_last()).insert(sensors.last(), "stream"@)
    }
}

/// The reflex bindings of a welcomed room: each sensor streams, then the
/// tick rate, protocol version and format are recorded.
pub open spec fn welcome_bindings(w: WireWelcome) -> Map<Seq<char>, Seq<char>> {
    sensor_bindings(Map::empty(), w.sensors.deep_view()).insert("tick_hz"@, w.tick_hz_text@).insert(
        "protocol_version"@,
        w.protocol_version@,
    ).insert("format"@, w.format@)
}

impl WireWelcome {
    /// Convert a welcome message into a RoomContract for spatial tracking:
    /// a Floor-depth room at `/rooms/<room_id>` whose tensor hash is the
    /// tick rate per thousand seconds in hexadecimal.
    pub fn to_room_contract(&self, grid_pos: (usize, usize)) -> (r: RoomContract)
        ensures
            r.room_id@ == "/rooms/"@ + self.room_id@,
            r.identity.room_id@ == "/rooms/"@ + self.room_id@,
            r.identity.tensor_hash@ == lower_hex(self.tick_hz_millis as nat),
            r.identity.grid_position == grid_pos,
            r.identity.depth == RoomDepth::Floor,
            r.topology.parent_room is None,
            r.topology.adjacent_rooms@.len() == 0,
            r.topology.traversal_history@.len() == 0,
            r.runtime_assets.specification@ == "ROOM.json"@,
            r.runtime_assets.reflex_bindings@ == welcome_bindings(*self),
    {
        let mut bindings = TextMap::new();
        let ghost sensors = self.sensors.deep_view();
        let mut i: usize = 0;
        while i < self.sensors.len()
            invariant
                i <= self.sensors@.len(),
                sensors == self.sensors.deep_view(),
                bindings@ == sensor_bindings(Map::empty(), sensors.take(i as int)),
            decreases self.sensors.len() - i,
        {
            assert(sensors.take(i + 1).drop_last() =~= sensors.take(i as int));
            assert(sensors.take(i + 1).last() == self.sensors@[i as int]@);
            bindings.insert(self.sensors[i].as_str(), "stream");
            i = i + 1;
        }
        assert(sensors.take(i as int) =~= sensors);
        bindings.insert("tick_hz", self.tick_hz_text.as_str());
        bindings.insert("protocol_version", self.protocol_version.as_str());
        bindings.insert("format", self.format.as_str());

        let mut room_id = string_from("/rooms/");
        push_str(&mut room_id, self.room_id.as_str());
        let mut identity_id = string_from("/rooms/");
        push_str(&mut identity_id, self.room_id.as_str());
        let hash_digits = lower_hex_chars(self.tick_hz_millis);
        let mut tensor_hash = String::new();
        push_chars(&mut tensor_hash, &hash_digits);
        assert(Seq::<char>::empty() + hash_digits@ =~= hash_digits@);

        RoomContract {
            room_id,
            identity: RoomIdentity {
                room_id: identity_id,
                tensor_hash,
                grid_position: grid_pos,
                depth: RoomDepth::Floor,
            },
            topology: RoomTopology {
                parent_room: None,
                adjacent_rooms: Vec::new(),
                traversal_history: Vec::new(),
            },
            runtime_assets: RuntimeAssets {
                specification: string_from("ROOM.json"),
                reflex_bindings: bindings,
            },
        }
    }
}

/// Build a `tick` command string.
pub fn cmd_tick() -> (r: &'static str)
    ensures
        r@ == "tick"@,
{
    "tick"
}

/// Build a `history N` command string.
pub fn cmd_history(n: usize) -> (r: String)
    ensures
        r@ == "history "@ + decimal(n as nat),
{
    let mut s = string_from("history ");
    let digits = decimal_chars(n as u64);
    push_chars(&mut s, &digits);
    s
}

/// Build an `actuator` command string from the actuator's name and the
/// text of the value to set.
pub fn cmd_actuator(name: &str, value: &str) -> (r: String)
    ensures
        r@ == "actuator "@ + name@ + " "@ + value@,
{
    let mut s = string_from("actuator ");
    push_str(&mut s, name);
    push_str(&mut s, " ");
    push_str(&mut s, value);
    s
}

/// Build a `subscribe` command string.
pub fn cmd_subscribe() -> (r: &'static str)
    ensures
        r@ == "subscribe"@,
{
    "subscribe"
}

/// Build an `unsubscribe` command string.
pub fn cmd_unsubscribe() -> (r: &'static str)
    ensures
        r@ == "unsubscribe"@,
{
    "unsubscribe"
}

/// Build a `quit` command string.
pub fn cmd_quit() -> (r: &'static str)
    ensures
        r@ == "quit"@,
{
    "quit"
}

} // verus!
