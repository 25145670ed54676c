//! Rooms: cells of the tensor grid, their contracts and their topology.
use vstd::prelude::*;

use crate::text::{chars_equal, chars_of, string_from};
use crate::text_map::TextMap;

verus! {

/// The five depth levels a room can live at, from agents down to bits.
#[derive(Debug, Clone, Copy, PartialEq, Eq, Structural)]
pub enum RoomDepth {
    Floor,
    Board,
    Panel,
    Code,
    Metal,
}

/// A room's spatial identity within the tensor grid.
#[derive(Debug)]
pub struct RoomIdentity {
    pub room_id: String,
    pub tensor_hash: String,
    pub grid_position: (usize, usize),
    pub depth: RoomDepth,
}

impl Clone for RoomIdentity {
    fn clone(&self) -> (r: Self)
        ensures
            r == *self,
    {
        RoomIdentity {
            room_id: self.room_id.clone(),
            tensor_hash: self.tensor_hash.clone(),
            grid_position: self.grid_position,
            depth: self.depth,
        }
    }
}

/// The full ROOM.json contract that defines a room's spatial borders.
#[derive(Debug, Clone)]
pub struct RoomContract {
    pub room_id: String,
    pub identity: RoomIdentity,
    pub topology: RoomTopology,
    pub runtime_assets: RuntimeAssets,
}

/// A room's parent, its neighbours, and where batons went from it.
#[derive(Debug, Clone)]
pub struct RoomTopology {
    pub parent_room: Option<String>,
    pub adjacent_rooms: Vec<String>,
    pub traversal_history: Vec<TraversalRecord>,
}

/// The traversals from a room to one target room.  The traversal weight is
/// kept in tenths: each traversal adds one tenth.
#[derive(Debug, Clone)]
pub struct TraversalRecord {
    pub target_room: String,
    pub weight_tenths: u64,
    pub last_baton: String,
    pub timestamp: u64,
}

/// The room's specification document and its reflex bindings.
#[derive(Debug, Clone)]
pub struct RuntimeAssets {
    pub specification: String,
    pub reflex_bindings: TextMap,
}

/// The values a traversal record holds.
pub struct TraversalView {
    pub target_room: Seq<char>,
    pub weight_tenths: u64,
    pub last_baton: Seq<char>,
    pub timestamp: u64,
}

impl View for TraversalRecord {
    type V = TraversalView;

    open spec fn view(&self) -> TraversalView {
        TraversalView {
            target_room: self.target_room@,
            weight_tenths: self.weight_tenths,
            last_baton: self.last_baton@,
            timestamp: self.timestamp,
        }
    }
}

/// The values of a traversal history.
pub open spec fn history_view(h: Seq<TraversalRecord>) -> Seq<TraversalView> {
    Seq::new(h.len(), |i: int| h[i]@)
}

/// The first record at or after `k` whose target is `target`.
pub open spec fn record_index_from(h: Seq<TraversalView>, target: Seq<char>, k: int) -> Option<int>
    decreases h.len() - k,
{
    if k < 0 || k >= h.len() {
        None
    } else if h[k].target_room == target {
        Some(k)
    } else {
        record_index_from(h, target, k + 1)
    }
}

/// One more traversal of a recorded target: a tenth more weight (the weight
/// stops at the largest value), and the latest baton and tick.
pub open spec fn revisited(r: TraversalView, baton: Seq<char>, tick: u64) -> TraversalView {
    TraversalView {
        target_room: r.target_room,
        weight_tenths: if r.weight_tenths < u64::MAX {
            (r.weight_tenths + 1) as u64
        } else {
            r.weight_tenths
        },
        last_baton: baton,
        timestamp: tick,
    }
}

/// The record of a first traversal to `target`.
pub open spec fn first_visit(target: Seq<char>, baton: Seq<char>, tick: u64) -> TraversalView {
    TraversalView { target_room: target, weight_tenths: 1, last_baton: baton, timestamp: tick }
}

/// The history after one traversal to `target`: the first record of that
/// target is revisited, or a new record goes at the end.
pub open spec fn after_traversal(
    h: Seq<TraversalView>,
    target: Seq<char>,
    baton: Seq<char>,
    tick: u64,
) -> Seq<TraversalView> {
    match record_index_from(h, target, 0) {
        Some(i) => h.update(i, revisited(h[i], baton, tick)),
        None => h.push(first_visit(target, baton, tick)),
    }
}

/// No two records share a target.
pub open spec fn distinct_targets(h: Seq<TraversalView>) -> bool {
    forall|i: int, j: int| 0 <= i < j < h.len() ==> h[i].target_room != h[j].target_room
}

pub proof fn lemma_record_index_from(h: Seq<TraversalView>, target: Seq<char>, k: int)
    requires
        0 <= k,
    ensures
        record_index_from(h, target, k) matches Some(j) ==> k <= j < h.len() && h[j].target_room
            == target && forall|m: int| k <= m < j ==> h[m].target_room != target,
        record_index_from(h, target, k) is None ==> forall|m: int|
            k <= m < h.len() ==> h[m].target_room != target,
    decreases h.len() - k,
{
    if k < h.len() && h[k].target_room != target {
        lemma_record_index_from(h, target, k + 1);
    }
}

/// Recording a traversal keeps the targets of the history distinct.
pub proof fn lemma_traversal_keeps_targets_distinct(
    h: Seq<TraversalView>,
    target: Seq<char>,
    baton: Seq<char>,
    tick: u64,
)
    requires
        distinct_targets(h),
    ensures
        distinct_targets(after_traversal(h, target, baton, tick)),
{
    lemma_record_index_from(h, target, 0);
}

/// After a traversal to `target`, the history holds a record of `target`
/// (the first record of that target, and the only one when targets were
/// distinct) that names the baton and tick of this traversal.  That record
/// is the one already there, one tenth heavier, or a new record at the end
/// weighing one tenth; every other record stays as it was.
pub proof fn lemma_traversal_records_baton_and_tick(
    h: Seq<TraversalView>,
    target: Seq<char>,
    baton: Seq<char>,
    tick: u64,
)
    ensures
        ({
            let h2 = after_traversal(h, target, baton, tick);
            exists|i: int|
                0 <= i < h2.len() && {
                    let r = #[trigger] h2[i];
                    &&& r.target_room == target
                    &&& r.last_baton == baton
                    &&& r.timestamp == tick
                    &&& (forall|j: int| 0 <= j < i ==> h2[j].target_room != target)
                    &&& (forall|j: int| 0 <= j < h.len() && j != i ==> h2[j] == h[j])
                    &&& if i < h.len() {
                        &&& h2.len() == h.len()
                        &&& h[i].target_room == target
                        &&& r.weight_tenths == if h[i].weight_tenths < u64::MAX {
                            h[i].weight_tenths + 1
                        } else {
                            h[i].weight_tenths as int
                        }
                    } else {
                        &&& h2.len() == h.len() + 1
                        &&& i == h.len()
                        &&& (forall|j: int| 0 <= j < h.len() ==> h[j].target_room != target)
                        &&& r.weight_tenths == 1
                    }
                }
        }),
{
    lemma_record_index_from(h, target, 0);
    let h2 = after_traversal(h, target, baton, tick);
    match record_index_from(h, target, 0) {
        Some(i) => {
            let r = h2[i];
            assert(r.target_room == target);
            assert(r.last_baton == baton);
            assert(r.timestamp == tick);
            assert(forall|j: int| 0 <= j < i ==> h2[j].target_room != target);
            assert(forall|j: int| 0 <= j < h.len() && j != i ==> h2[j] == h[j]);
            assert(h2.len() == h.len());
            assert(r.weight_tenths == if h[i].weight_tenths < u64::MAX {
                h[i].weight_tenths + 1
            } else {
                h[i].weight_tenths as int
            });
        },
        None => {
            let i = h.len() as int;
            let r = h2[i];
            assert(r.target_room == target);
            assert(forall|j: int| 0 <= j < h.len() && j != i ==> h2[j] == h[j]);
            assert(forall|j: int| 0 <= j < i ==> h2[j].target_room != target);
        },
    }
}

impl RoomContract {
    /// Check if a room is adjacent to this one.
    pub fn is_adjacent(&self, room_id: &str) -> (r: bool)
        ensures
            r == self.topology.adjacent_rooms.deep_view().contains(room_id@),
    {
        let wanted = chars_of(room_id);
        let rooms = &self.topology.adjacent_rooms;
        let mut i: usize = 0;
        while i < rooms.len()
            invariant
                rooms == &self.topology.adjacent_rooms,
                i <= rooms@.len(),
                wanted@ == room_id@,
                forall|k: int| 0 <= k < i ==> rooms@[k]@ != room_id@,
            decreases rooms.len() - i,
        {
            let candidate = chars_of(rooms[i].as_str());
            if chars_equal(&candidate, &wanted) {
                assert(rooms.deep_view()[i as int] == room_id@);
                return true;
            }
            i = i + 1;
        }
        proof {
            if rooms.deep_view().contains(room_id@) {
                let k = choose|k: int| 0 <= k < rooms.deep_view().len() && rooms.deep_view()[k] == room_id@;
                assert(rooms@[k]@ == room_id@);
            }
        }
        false
    }

    /// Record a traversal to another room: the record of `target` gains a
    /// tenth of weight and remembers the baton and tick, or a first record of
    /// `target` is added.
    pub fn record_traversal(&mut self, target: &str, baton_id: &str, tick: u64)
        ensures
            history_view(final(self).topology.traversal_history@) == after_traversal(
                history_view(old(self).topology.traversal_history@),
                target@,
                baton_id@,
                tick,
            ),
            final(self).room_id == old(self).room_id,
            final(self).identity == old(self).identity,
            final(self).runtime_assets == old(self).runtime_assets,
            final(self).topology.parent_room == old(self).topology.parent_room,
            final(self).topology.adjacent_rooms == old(self).topology.adjacent_rooms,
    {
        let wanted = chars_of(target);
        let ghost h = history_view(self.topology.traversal_history@);
        let n = self.topology.traversal_history.len();
        let mut i: usize = 0;
        while i < n
            invariant
                n == self.topology.traversal_history@.len(),
                i <= n,
                h == history_view(self.topology.traversal_history@),
                wanted@ == target@,
                record_index_from(h, target@, 0) == record_index_from(h, target@, i as int),
            ensures
                i <= n,
                h == history_view(self.topology.traversal_history@),
                record_index_from(h, target@, 0) == record_index_from(h, target@, i as int),
                i < n ==> h[i as int].target_room == target@,
            decreases n - i,
        {
            let candidate = chars_of(self.topology.traversal_history[i].target_room.as_str());
            if chars_equal(&candidate, &wanted) {
                assert(h[i as int].target_room == target@);
                break ;
            }
            i = i + 1;
        }
        if i < n {
            let ghost old_record = h[i as int];
            assert(record_index_from(h, target@, i as int) == Some(i as int));
            let weight = self.topology.traversal_history[i].weight_tenths.saturating_add(1);
            let record = TraversalRecord {
                target_room: string_from(target),
                weight_tenths: weight,
                last_baton: string_from(baton_id),
                timestamp: tick,
            };
            assert(record@ == revisited(old_record, baton_id@, tick));
            self.topology.traversal_history.set(i, record);
            assert(history_view(self.topology.traversal_history@) =~= h.update(
                i as int,
                revisited(old_record, baton_id@, tick),
            ));
        } else {
            let record = TraversalRecord {
                target_room: string_from(target),
                weight_tenths: 1,
                last_baton: string_from(baton_id),
                timestamp: tick,
            };
            self.topology.traversal_history.push(record);
            assert(history_view(self.topology.traversal_history@) =~= h.push(
                first_visit(target@, baton_id@, tick),
            ));
        }
    }
}

} // verus!
