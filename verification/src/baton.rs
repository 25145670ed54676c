//! Batons: the state an agent carries as it passes from room to room.
use std::time::{Duration, SystemTime, SystemTimeError};

use vstd::prelude::*;

use crate::text::string_from;
use crate::text_map::TextMap;

verus! {

/// A baton payload — execution state passing through rooms.
#[derive(Debug, Clone)]
pub struct Baton {
    pub baton_id: String,
    pub current_scope: String,
    pub cognitive_state: String,
    pub operational_data: TextMap,
    pub tick: u64,
}

#[verifier::external_type_specification]
#[verifier::external_body]
pub struct ExSystemTime(SystemTime);

#[verifier::external_type_specification]
#[verifier::external_body]
pub struct ExSystemTimeError(SystemTimeError);

/// `SystemTime::now`: the current reading of the system clock.  Nothing is
/// claimed of the reading.
#[verifier::external_body]
fn system_time_now() -> SystemTime {
    SystemTime::now()
}

/// `SystemTime::duration_since(UNIX_EPOCH)`: the time from the Unix epoch to
/// `t`, or an error when `t` is earlier than the epoch.  Nothing is claimed
/// of the result, which depends on the clock reading it is given.
#[verifier::external_body]
fn duration_since_unix_epoch(t: &SystemTime) -> Result<Duration, SystemTimeError> {
    t.duration_since(std::time::UNIX_EPOCH)
}

/// `Duration::as_secs`: the whole seconds of a duration.  Nothing is claimed
/// of the result, since the duration's value is not modelled.
#[verifier::external_body]
fn duration_whole_seconds(d: &Duration) -> u64 {
    d.as_secs()
}

impl Baton {
    /// A baton with the given id, in the room `scope`, carrying no data, at
    /// tick 0.
    pub fn new(id: &str, scope: &str) -> (r: Self)
        ensures
            r.baton_id@ == id@,
            r.current_scope@ == scope@,
            r.cognitive_state@ == Seq::<char>::empty(),
            r.operational_data@ == Map::<Seq<char>, Seq<char>>::empty(),
            r.tick == 0,
    {
        Baton {
            baton_id: string_from(id),
            current_scope: string_from(scope),
            cognitive_state: String::new(),
            operational_data: TextMap::new(),
            tick: 0,
        }
    }

    /// Advance baton to a new room scope: one tick later.
    pub fn advance_to(&mut self, room_id: &str)
        requires
            old(self).tick < u64::MAX,
        ensures
            final(self).current_scope@ == room_id@,
            final(self).tick == old(self).tick + 1,
            final(self).baton_id == old(self).baton_id,
            final(self).cognitive_state == old(self).cognitive_state,
            final(self).operational_data == old(self).operational_data,
    {
        self.current_scope = string_from(room_id);
        self.tick = self.tick + 1;
    }

    /// Set a data field.
    pub fn set_data(&mut self, key: &str, value: &str)
        ensures
            final(self).operational_data@ == old(self).operational_data@.insert(key@, value@),
            final(self).baton_id == old(self).baton_id,
            final(self).current_scope == old(self).current_scope,
            final(self).cognitive_state == old(self).cognitive_state,
            final(self).tick == old(self).tick,
    {
        self.operational_data.insert(key, value);
    }

    /// Get a data field.
    pub fn get_data(&self, key: &str) -> (r: Option<&str>)
        ensures
            r matches Some(v) ==> self.operational_data@.dom().contains(key@) && v@
                == self.operational_data@[key@],
            r is None ==> !self.operational_data@.dom().contains(key@),
    {
        match self.operational_data.get(key) {
            Some(v) => Some(v.as_str()),
            None => None,
        }
    }

    /// Get the Unix timestamp (seconds since epoch) for cross-layer interop,
    /// or 0 when the system clock reads earlier than the epoch.
    pub fn timestamp(&self) -> u64 {
        let now = system_time_now();
        match duration_since_unix_epoch(&now) {
            Ok(d) => duration_whole_seconds(&d),
            Err(_) => 0,
        }
    }
}

/// What `set_data` stores, `get_data` gives back, and every other key keeps
/// its value.
pub proof fn lemma_get_after_set(
    data: Map<Seq<char>, Seq<char>>,
    key: Seq<char>,
    value: Seq<char>,
    other: Seq<char>,
)
    ensures
        data.insert(key, value).dom().contains(key),
        data.insert(key, value)[key] == value,
        other != key ==> (data.insert(key, value).dom().contains(other) == data.dom().contains(
            other,
        ) && (data.dom().contains(other) ==> data.insert(key, value)[other] == data[other])),
{
}

} // verus!
