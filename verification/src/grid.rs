//! The grid bridge: spreadsheet cell coordinates mapped to room paths.
use vstd::prelude::*;

use crate::text::{decimal, decimal_chars, push_chars, push_str, str_equal, string_from};
use crate::text_map::{pair_views, TextMap};

verus! {

broadcast use vstd::string::group_string_axioms;

/// The JSON text that `serde_json::to_string_pretty` writes for an object
/// with these keys and string values.
pub uninterp spec fn pretty_json_object(entries: Seq<(Seq<char>, Seq<char>)>) -> Seq<char>;

/// `serde_json::to_string_pretty` on a JSON object whose members are the
/// given keys with string values.  Its text is named by
/// `pretty_json_object`.  It succeeds: its documentation names as the only
/// failures a `Serialize` impl that decides to fail and a map with
/// non-string keys, and a map from `&str` to `&str`, written into a `Vec`,
/// has neither.
#[verifier::external_body]
fn json_object_pretty(entries: &Vec<(String, String)>) -> (r: Option<String>)
    ensures
        r is Some,
        r matches Some(s) ==> s@ == pretty_json_object(pair_views(entries@)),
{
    let object: std::collections::BTreeMap<&str, &str> = entries.iter().map(
        |(k, v)| (k.as_str(), v.as_str()),
    ).collect();
    serde_json::to_string_pretty(&object).ok()
}

/// A directory of a room tree: its name and the names of its children.
#[derive(Debug, Clone)]
pub struct DirEntry {
    pub name: String,
    pub children: Vec<String>,
}

/// Maps spreadsheet cell coordinates to room paths.
#[derive(Debug, Clone)]
pub struct GridBridge {
    cells: TextMap,
}

/// A directory that holds a `ROOM.json`.
pub open spec fn is_room_dir(e: DirEntry) -> bool {
    e.children.deep_view().contains("ROOM.json"@)
}

/// The coordinate of column A, row `row`.
pub open spec fn column_a(row: nat) -> Seq<char> {
    seq!['A'] + decimal(row)
}

/// The cells after hydrating from the directories `tree` under `prefix`,
/// and how many were hydrated: each directory holding a `ROOM.json` maps
/// the next row of column A (one past the number of cells) to
/// `prefix/name`.
pub open spec fn hydrate_tree_result(
    cells: Map<Seq<char>, Seq<char>>,
    tree: Seq<DirEntry>,
    prefix: Seq<char>,
) -> (Map<Seq<char>, Seq<char>>, nat)
    decreases tree.len(),
{
    if tree.len() == 0 {
        (cells, 0)
    } else {
        let (m, count) = hydrate_tree_result(cells, tree.drop_last(), prefix);
        let e = tree.last();
        if is_room_dir(e) {
            (m.insert(column_a(m.len() + 1), prefix + seq!['/'] + e.name@), count + 1)
        } else {
            (m, count)
        }
    }
}

/// Hydrating one more directory after `tree`: it is mapped, at the next row
/// of column A and to `prefix/name`, exactly when one of its children, at
/// whatever position, is named `ROOM.json`; otherwise the cells and the
/// count stay as they were.
pub proof fn lemma_hydrate_one_more(
    cells: Map<Seq<char>, Seq<char>>,
    tree: Seq<DirEntry>,
    e: DirEntry,
    prefix: Seq<char>,
)
    ensures
        ({
            let (m, count) = hydrate_tree_result(cells, tree, prefix);
            hydrate_tree_result(cells, tree.push(e), prefix) == if exists|k: int|
                0 <= k < e.children@.len() && (#[trigger] e.children@[k])@ == "ROOM.json"@ {
                (m.insert(column_a(m.len() + 1), prefix + seq!['/'] + e.name@), count + 1)
            } else {
                (m, count)
            }
        }),
{
    let t = tree.push(e);
    assert(t.drop_last() =~= tree);
    assert(t.last() == e);
    let d = e.children.deep_view();
    if exists|k: int| 0 <= k < e.children@.len() && (#[trigger] e.children@[k])@ == "ROOM.json"@ {
        let k = choose|k: int|
            0 <= k < e.children@.len() && (#[trigger] e.children@[k])@ == "ROOM.json"@;
        assert(d[k] == "ROOM.json"@);
    } else if d.contains("ROOM.json"@) {
        let k = choose|k: int| 0 <= k < d.len() && d[k] == "ROOM.json"@;
        assert(e.children@[k]@ == "ROOM.json"@);
    }
}

impl View for GridBridge {
    type V = Map<Seq<char>, Seq<char>>;

    closed spec fn view(&self) -> Map<Seq<char>, Seq<char>> {
        self.cells@
    }
}

impl GridBridge {
    /// The cells as coordinate/path pairs, in the order the coordinates were
    /// first mapped.
    pub closed spec fn cell_pairs(self) -> Seq<(Seq<char>, Seq<char>)> {
        self.cells.pairs()
    }

    /// A grid with no cells.
    pub fn new() -> (r: Self)
        ensures
            r@ == Map::<Seq<char>, Seq<char>>::empty(),
    {
        GridBridge { cells: TextMap::new() }
    }

    /// Map a cell coordinate to a room path.
    pub fn hydrate(&mut self, coord: &str, room_path: &str)
        ensures
            final(self)@ == old(self)@.insert(coord@, room_path@),
            final(self)@.len() <= old(self)@.len() + 1,
    {
        self.cells.insert(coord, room_path);
    }

    /// Get room path for a cell.
    pub fn get_room(&self, coord: &str) -> (r: Option<&str>)
        ensures
            r matches Some(p) ==> self@.dom().contains(coord@) && p@ == self@[coord@],
            r is None ==> !self@.dom().contains(coord@),
    {
        match self.cells.get(coord) {
            Some(p) => Some(p.as_str()),
            None => None,
        }
    }

    /// Serialize the entire grid topology to JSON: an object from
    /// coordinate to room path.
    pub fn serialize(&self) -> (r: String)
        ensures
            r@ == pretty_json_object(self.cell_pairs()),
    {
        match json_object_pretty(self.cells.entries()) {
            Some(s) => s,
            None => String::new(),
        }
    }

    /// Get all cell coordinates, each once.
    pub fn cells(&self) -> (r: Vec<&str>)
        ensures
            r@.len() == self@.len(),
            forall|k: Seq<char>|
                self@.dom().contains(k) <==> exists|i: int| 0 <= i < r@.len() && r@[i]@ == k,
            forall|i: int, j: int| 0 <= i < j < r@.len() ==> r@[i]@ != r@[j]@,
    {
        let keys = self.cells.keys();
        proof {
            let order = self.cells.key_order();
            assert forall|k: Seq<char>| self@.dom().contains(k) implies exists|i: int|
                0 <= i < keys@.len() && keys@[i]@ == k by {
                assert(self.cells@.dom().contains(k));
                assert(order.contains(k));
                let i = choose|i: int| 0 <= i < order.len() && order[i] == k;
                assert(keys@[i]@ == k);
            }
            assert forall|k: Seq<char>|
                (exists|i: int| 0 <= i < keys@.len() && keys@[i]@ == k) implies self@.dom().contains(
                k,
            ) by {
                let i = choose|i: int| 0 <= i < keys@.len() && keys@[i]@ == k;
                assert(order[i] == k);
                assert(order.contains(k));
                assert(self.cells@.dom().contains(k));
            }
            assert forall|i: int, j: int| 0 <= i < j < keys@.len() implies keys@[i]@ != keys@[j]@ by {
                assert(keys@[i]@ == order[i]);
                assert(keys@[j]@ == order[j]);
            }
        }
        keys
    }

    /// The number of mapped cells.
    pub fn len(&self) -> (r: usize)
        ensures
            r == self@.len(),
    {
        self.cells.len()
    }

    /// Hydrate from a directory tree: every directory that holds a
    /// `ROOM.json` is mapped, in order, at the next row of column A.
    /// Returns how many directories were mapped.
    pub fn hydrate_tree(&mut self, tree: &Vec<DirEntry>, prefix: &str) -> (r: usize)
        requires
            old(self)@.len() + tree@.len() < usize::MAX,
        ensures
            (final(self)@, r as nat) == hydrate_tree_result(old(self)@, tree@, prefix@),
    {
        let mut count: usize = 0;
        let mut i: usize = 0;
        while i < tree.len()
            invariant
                i <= tree@.len(),
                (self@, count as nat) == hydrate_tree_result(
                    old(self)@,
                    tree@.take(i as int),
                    prefix@,
                ),
                self@.len() <= old(self)@.len() + i,
                count <= i,
                old(self)@.len() + tree@.len() < usize::MAX,
            decreases tree.len() - i,
        {
            let entry = &tree[i];
            assert(tree@.take(i + 1).drop_last() =~= tree@.take(i as int));
            assert(tree@.take(i + 1).last() == *entry);
            let mut has_room_file = false;
            let mut j: usize = 0;
            while j < entry.children.len()
                invariant
                    j <= entry.children@.len(),
                    has_room_file == exists|k: int|
                        0 <= k < j && entry.children@[k]@ == "ROOM.json"@,
                decreases entry.children.len() - j,
            {
                if str_equal(entry.children[j].as_str(), "ROOM.json") {
                    has_room_file = true;
                }
                j = j + 1;
            }
            proof {
                let d = entry.children.deep_view();
                if has_room_file {
                    let k = choose|k: int| 0 <= k < j && entry.children@[k]@ == "ROOM.json"@;
                    assert(d[k] == "ROOM.json"@);
                } else if d.contains("ROOM.json"@) {
                    let k = choose|k: int| 0 <= k < d.len() && d[k] == "ROOM.json"@;
                    assert(entry.children@[k]@ == "ROOM.json"@);
                }
            }
            if has_room_file {
                let row = self.len() + 1;
                let digits = decimal_chars(row as u64);
                let mut coord = string_from("A");
                push_chars(&mut coord, &digits);
                proof {
                    reveal_strlit("A");
                    assert(coord@ =~= column_a(row as nat));
                }
                let mut path = string_from(prefix);
                push_str(&mut path, "/");
                push_str(&mut path, entry.name.as_str());
                proof {
                    reveal_strlit("/");
                    assert(path@ =~= prefix@ + seq!['/'] + entry.name@);
                }
                self.hydrate(coord.as_str(), path.as_str());
                proof {
                    vstd::map::axiom_map_insert_domain(
                        hydrate_tree_result(old(self)@, tree@.take(i as int), prefix@).0,
                        coord@,
                        path@,
                    );
                }
                count = count + 1;
            }
            i = i + 1;
        }
        assert(tree@.take(i as int) =~= tree@);
        count
    }
}


/// A cell hydrated with a room path maps to that path, and every other cell
/// keeps its room.
pub proof fn lemma_get_room_after_hydrate(
    cells: Map<Seq<char>, Seq<char>>,
    coord: Seq<char>,
    room_path: Seq<char>,
    other: Seq<char>,
)
    ensures
        cells.insert(coord, room_path).dom().contains(coord),
        cells.insert(coord, room_path)[coord] == room_path,
        other != coord ==> (cells.insert(coord, room_path).dom().contains(other)
            == cells.dom().contains(other) && (cells.dom().contains(other) ==> cells.insert(
            coord,
            room_path,
        )[other] == cells[other])),
{
}

} // verus!
