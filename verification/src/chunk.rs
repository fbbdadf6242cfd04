use vstd::prelude::*;

use crate::defines::ID_OVERWORLD;
use crate::chunk_map::{
    f_loaded, f_loaded_size, f_players, f_size, grid_members, players_of, region_ids_without,
    window_ids, ChunkMap,
};
pub use crate::chunk_map::Chunk;
use crate::entity::{debug_text, decimal_text, EntityID, Position};
use crate::text::{decimal_digits, push_decimal};
use vstd::string::*;
use crate::error::{FFError, FFResult, Severity};
use crate::grid::{cell_index, grid_sum, in_grid, in_window, win_hi, win_lo, window_sum, GRID_CELLS};


verus! {

/// Identifies one copy of a map: its channel, its map and, for private
/// copies, the instance number.
#[derive(Debug, Clone, Copy, PartialEq, Eq, Structural, Hash)]
pub struct InstanceID {
    pub channel_num: u8,
    pub map_num: u32,
    pub instance_num: Option<u32>,
}

impl Default for InstanceID {
    fn default() -> (r: Self)
        ensures
            r.channel_num == 1,
            r.map_num == ID_OVERWORLD,
            r.instance_num is None,
    {
        InstanceID { channel_num: 1, map_num: ID_OVERWORLD, instance_num: None }
    }
}

/// How many map squares there are in each direction.
pub const MAP_SQUARE_COUNT: i32 = 16;
/// Chunks per side of a map: 16 map squares with side lengths of 8 chunks.
pub const NCHUNKS: usize = 128;
/// Side length of one map square in world units.
pub const MAP_SQUARE_SIZE: i32 = 51200;
/// Side length of the whole map in world units.
pub const MAP_SIZE: i32 = 819200;
/// Side length of one chunk in world units.
pub const CHUNK_SIZE: usize = 6400;

/// Rust's integer division, which rounds toward zero.
pub open spec fn trunc_div(a: int, b: int) -> int
    recommends
        b > 0,
{
    if a >= 0 {
        a / b
    } else {
        -((-a) / b)
    }
}

/// The chunk column or row that holds the world coordinate `c`.
pub open spec fn chunk_index_of(c: int) -> int {
    trunc_div(c * NCHUNKS, MAP_SIZE as int)
}

/// The chunk coordinates of a world position.
pub fn world_pos_to_chunk_pos(pos: Position) -> (r: (i32, i32))
    requires
        i32::MIN <= pos.x * (NCHUNKS as int) <= i32::MAX,
        i32::MIN <= pos.y * (NCHUNKS as int) <= i32::MAX,
    ensures
        r.0 == chunk_index_of(pos.x as int),
        r.1 == chunk_index_of(pos.y as int),
{
    ((pos.x * 128) / MAP_SIZE, (pos.y * 128) / MAP_SIZE)
}


/// The chunk coordinates of a world position in an instance.
#[derive(Debug, Clone, Copy, PartialEq, Eq, Structural, Hash)]
pub struct ChunkCoords {
    pub i: InstanceID,
    pub x: i32,
    pub y: i32,
}

impl ChunkCoords {
    /// The chunk of instance `instance_id` that holds `pos`.
    pub fn from_pos_inst(pos: Position, instance_id: InstanceID) -> (c: Self)
        requires
            i32::MIN <= pos.x * (NCHUNKS as int) <= i32::MAX,
            i32::MIN <= pos.y * (NCHUNKS as int) <= i32::MAX,
        ensures
            c.x == chunk_index_of(pos.x as int),
            c.y == chunk_index_of(pos.y as int),
            c.i == instance_id,
    {
        let (x, y) = world_pos_to_chunk_pos(pos);
        ChunkCoords { x, y, i: instance_id }
    }

    /// The text of these coordinates in messages, e.g. `(3, 4, 1/0:None)`.
    pub fn display_string(&self) -> (s: String)
        ensures
            s@ == coords_text(*self),
    {
        let mut s = String::from_str("(");
        let x = crate::entity::i32_to_string(self.x);
        s.append(x.as_str());
        s.append(", ");
        let y = crate::entity::i32_to_string(self.y);
        s.append(y.as_str());
        s.append(", ");
        let i = self.i.display_string();
        s.append(i.as_str());
        s.append(")");
        s
    }
}

/// The text of an instance identity in messages: its channel, its map and
/// its instance number (`None` for the base instance of a map), as
/// `channel/map:instance`.
pub open spec fn instance_text(i: InstanceID) -> Seq<char> {
    decimal_digits(i.channel_num as nat) + "/"@ + decimal_digits(i.map_num as nat) + ":"@ + match i.instance_num {
        Some(n) => decimal_digits(n as nat),
        None => "None"@,
    }
}

/// The text of chunk coordinates in messages: `(x, y, instance)`.
pub open spec fn coords_text(c: ChunkCoords) -> Seq<char> {
    "("@ + decimal_text(c.x) + ", "@ + decimal_text(c.y) + ", "@ + instance_text(c.i) + ")"@
}

impl InstanceID {
    /// The text of this identity in messages, e.g. `1/0:None` or `2/7:4`.
    pub fn display_string(&self) -> (s: String)
        ensures
            s@ == instance_text(*self),
    {
        let mut s = String::new();
        push_decimal(&mut s, self.channel_num as usize);
        s.append("/");
        push_decimal(&mut s, self.map_num as usize);
        s.append(":");
        match self.instance_num {
            Some(n) => push_decimal(&mut s, n as usize),
            None => s.append("None"),
        }
        proof {
            reveal_strlit("/");
            reveal_strlit(":");
            reveal_strlit("None");
            assert(s@ =~= instance_text(*self));
        }
        s
    }
}

/// When an entity takes part in the shard's ticks.
#[derive(Debug, Clone, Copy, PartialEq, Eq, Structural)]
pub enum TickMode {
    Always,
    WhenLoaded,
    Never,
}

/// What the map records of a tracked entity.
struct RegistryEntry {
    id: EntityID,
    chunk: Option<ChunkCoords>,
    tick_mode: TickMode,
}

/// The grid of one instance.
struct InstanceMap {
    id: InstanceID,
    map: ChunkMap,
}

/// No two entries of the registry are for the same entity.
spec fn reg_unique(s: Seq<RegistryEntry>) -> bool {
    forall|j: int, l: int| 0 <= j < s.len() && 0 <= l < s.len() && j != l ==> s[j].id != s[l].id
}

/// The registry as a map from entity to its chunk and tick mode.
spec fn reg_view(s: Seq<RegistryEntry>) -> Map<EntityID, (Option<ChunkCoords>, TickMode)> {
    Map::new(
        |id: EntityID| exists|j: int| 0 <= j < s.len() && #[trigger] s[j].id == id,
        |id: EntityID|
            {
                let j = choose|j: int| 0 <= j < s.len() && #[trigger] s[j].id == id;
                (s[j].chunk, s[j].tick_mode)
            },
    )
}

proof fn lemma_reg_view(s: Seq<RegistryEntry>)
    requires
        reg_unique(s),
    ensures
        forall|j: int|
            0 <= j < s.len() ==> #[trigger] reg_view(s).dom().contains(s[j].id) && reg_view(s)[s[j].id]
                == (s[j].chunk, s[j].tick_mode),
        forall|id: EntityID|
            #[trigger] reg_view(s).dom().contains(id) <==> exists|j: int|
                0 <= j < s.len() && #[trigger] s[j].id == id,
{
    assert forall|j: int| 0 <= j < s.len() implies #[trigger] reg_view(s).dom().contains(s[j].id)
        && reg_view(s)[s[j].id] == (s[j].chunk, s[j].tick_mode) by {
        let id = s[j].id;
        assert(exists|l: int| 0 <= l < s.len() && #[trigger] s[l].id == id);
        let l = choose|l: int| 0 <= l < s.len() && #[trigger] s[l].id == id;
        assert(l == j);
    }
}

/// No two grids are for the same instance.
spec fn inst_unique(s: Seq<InstanceMap>) -> bool {
    forall|j: int, l: int| 0 <= j < s.len() && 0 <= l < s.len() && j != l ==> s[j].id != s[l].id
}

/// Whether some grid is for instance `i`.
spec fn inst_has(s: Seq<InstanceMap>, i: InstanceID) -> bool {
    exists|j: int| 0 <= j < s.len() && #[trigger] s[j].id == i
}

/// The position of the grid for instance `i`.
spec fn inst_index(s: Seq<InstanceMap>, i: InstanceID) -> int {
    choose|j: int| 0 <= j < s.len() && #[trigger] s[j].id == i
}

proof fn lemma_inst_index(s: Seq<InstanceMap>, j: int)
    requires
        inst_unique(s),
        0 <= j < s.len(),
    ensures
        inst_has(s, s[j].id),
        inst_index(s, s[j].id) == j,
{
    let i = s[j].id;
    assert(inst_has(s, i));
    let l = inst_index(s, i);
    assert(s[l].id == i);
}

/// The chunks of instance `i`'s grid in `s` (empty if it has none).
spec fn seq_cells_of(s: Seq<InstanceMap>, i: InstanceID) -> Seq<Chunk> {
    if inst_has(s, i) {
        s[inst_index(s, i)].map.cells()
    } else {
        Seq::empty()
    }
}

proof fn lemma_sum_grids_update(s: Seq<InstanceMap>, k: int, m: InstanceMap, f: spec_fn(InstanceMap) -> int)
    requires
        0 <= k < s.len(),
    ensures
        sum_grids(s.update(k, m), f) == sum_grids(s, f) - f(s[k]) + f(m),
    decreases s.len(),
{
    if k < s.len() - 1 {
        assert(s.update(k, m).drop_last() =~= s.drop_last().update(k, m));
        lemma_sum_grids_update(s.drop_last(), k, m, f);
    } else {
        assert(s.update(k, m).drop_last() =~= s.drop_last());
    }
}

proof fn lemma_sum_grids_push(s: Seq<InstanceMap>, m: InstanceMap, f: spec_fn(InstanceMap) -> int)
    ensures
        sum_grids(s.push(m), f) == sum_grids(s, f) + f(m),
{
    assert(s.push(m).drop_last() =~= s);
}

proof fn lemma_sum_grids_ge(s: Seq<InstanceMap>, k: int, f: spec_fn(InstanceMap) -> int)
    requires
        0 <= k < s.len(),
        forall|m: InstanceMap| #[trigger] f(m) >= 0,
    ensures
        f(s[k]) <= sum_grids(s, f),
        0 <= sum_grids(s, f),
    decreases s.len(),
{
    lemma_sum_grids_nonneg(s.drop_last(), f);
    if k < s.len() - 1 {
        lemma_sum_grids_ge(s.drop_last(), k, f);
    }
}

proof fn lemma_sum_grids_nonneg(s: Seq<InstanceMap>, f: spec_fn(InstanceMap) -> int)
    requires
        forall|m: InstanceMap| #[trigger] f(m) >= 0,
    ensures
        0 <= sum_grids(s, f),
    decreases s.len(),
{
    if s.len() > 0 {
        lemma_sum_grids_nonneg(s.drop_last(), f);
    }
}

proof fn lemma_grid_size_nonneg()
    ensures
        forall|m: InstanceMap| #[trigger] g_size()(m) >= 0,
{
    assert forall|m: InstanceMap| #[trigger] g_size()(m) >= 0 by {
        crate::chunk_map::lemma_size_nonneg();
        crate::grid::lemma_rect_nonneg(m.map.cells(), f_size(), 0, 128, 0, 128);
    }
}

/// Replacing the grid at position `k` by one for the same instance changes
/// only that instance's chunks.
proof fn lemma_cells_of_update(s: Seq<InstanceMap>, k: int, m: InstanceMap)
    requires
        inst_unique(s),
        0 <= k < s.len(),
        m.id == s[k].id,
    ensures
        inst_unique(s.update(k, m)),
        forall|i: InstanceID| #[trigger] inst_has(s.update(k, m), i) == inst_has(s, i),
        forall|i: InstanceID| #[trigger] seq_cells_of(s.update(k, m), i) == if i == m.id {
            m.map.cells()
        } else {
            seq_cells_of(s, i)
        },
{
    let t = s.update(k, m);
    assert forall|i: InstanceID| #[trigger] inst_has(t, i) == inst_has(s, i) by {
        if inst_has(t, i) {
            let j = choose|j: int| 0 <= j < t.len() && #[trigger] t[j].id == i;
            assert(s[j].id == i);
        }
        if inst_has(s, i) {
            let j = choose|j: int| 0 <= j < s.len() && #[trigger] s[j].id == i;
            assert(t[j].id == i);
        }
    }
    assert forall|i: InstanceID| #[trigger] seq_cells_of(t, i) == if i == m.id {
        m.map.cells()
    } else {
        seq_cells_of(s, i)
    } by {
        if inst_has(t, i) {
            let j = inst_index(t, i);
            let j0 = inst_index(s, i);
            assert(t[j].id == i);
            assert(s[j0].id == i);
            if j != j0 {
                assert(t[j0].id == i || j0 == k);
            }
            if i == m.id {
                assert(t[k].id == i);
            }
        }
    }
}

/// Appending a grid for a new instance adds that instance's chunks.
proof fn lemma_cells_of_push(s: Seq<InstanceMap>, m: InstanceMap)
    requires
        inst_unique(s),
        !inst_has(s, m.id),
    ensures
        inst_unique(s.push(m)),
        forall|i: InstanceID| #[trigger] inst_has(s.push(m), i) == (inst_has(s, i) || i == m.id),
        forall|i: InstanceID| #[trigger] seq_cells_of(s.push(m), i) == if i == m.id {
            m.map.cells()
        } else {
            seq_cells_of(s, i)
        },
{
    let t = s.push(m);
    assert forall|j: int, l: int| 0 <= j < t.len() && 0 <= l < t.len() && j != l implies t[j].id != t[l].id by {
        if j == s.len() {
            assert(!(s[l].id == m.id));
        } else if l == s.len() {
            assert(!(s[j].id == m.id));
        }
    }
    assert forall|i: InstanceID| #[trigger] inst_has(t, i) == (inst_has(s, i) || i == m.id) by {
        if inst_has(t, i) {
            let j = choose|j: int| 0 <= j < t.len() && #[trigger] t[j].id == i;
            if j < s.len() {
                assert(s[j].id == i);
            }
        }
        if inst_has(s, i) {
            let j = choose|j: int| 0 <= j < s.len() && #[trigger] s[j].id == i;
            assert(t[j].id == i);
        }
        if i == m.id {
            assert(t[s.len() as int].id == i);
        }
    }
    assert forall|i: InstanceID| #[trigger] seq_cells_of(t, i) == if i == m.id {
        m.map.cells()
    } else {
        seq_cells_of(s, i)
    } by {
        if inst_has(t, i) {
            let j = inst_index(t, i);
            assert(t[j].id == i);
            if i == m.id {
                assert(t[s.len() as int].id == i);
            } else {
                let j0 = inst_index(s, i);
                assert(s[j0].id == i);
                assert(t[j0].id == i);
            }
        }
    }
}

/// Entity placements in a grid.
spec fn g_size() -> spec_fn(InstanceMap) -> int {
    |m: InstanceMap| grid_sum(m.map.cells(), f_size())
}

/// Loaded chunks in a grid.
spec fn g_loaded() -> spec_fn(InstanceMap) -> int {
    |m: InstanceMap| grid_sum(m.map.cells(), f_loaded())
}

/// Entities in loaded chunks of a grid.
spec fn g_loaded_size() -> spec_fn(InstanceMap) -> int {
    |m: InstanceMap| grid_sum(m.map.cells(), f_loaded_size())
}

/// Sum of `f` over the grids of `s`, in order.
spec fn sum_grids(s: Seq<InstanceMap>, f: spec_fn(InstanceMap) -> int) -> int
    decreases s.len(),
{
    if s.len() == 0 {
        0
    } else {
        sum_grids(s.drop_last(), f) + f(s.last())
    }
}

/// The elements of `a` that are not in `b`.
fn difference(a: &Vec<EntityID>, b: &Vec<EntityID>) -> (d: Vec<EntityID>)
    requires
        a@.no_duplicates(),
    ensures
        d@.no_duplicates(),
        d@.to_set() == a@.to_set().difference(b@.to_set()),
{
    let mut d: Vec<EntityID> = Vec::new();
    let mut i: usize = 0;
    while i < a.len()
        invariant
            0 <= i <= a@.len(),
            a@.no_duplicates(),
            d@.no_duplicates(),
            forall|e: EntityID| #[trigger] d@.contains(e) <==> (a@.subrange(0, i as int).contains(e) && !b@.contains(e)),
        decreases a@.len() - i,
    {
        let e = a[i];
        let mut in_b = false;
        let mut j: usize = 0;
        while j < b.len()
            invariant
                0 <= j <= b@.len(),
                in_b == (exists|l: int| 0 <= l < j && b@[l] == e),
            decreases b@.len() - j,
        {
            if b[j] == e {
                in_b = true;
            }
            j = j + 1;
        }
        proof {
            assert forall|e2: EntityID| #[trigger] a@.subrange(0, i + 1).contains(e2) <==> (a@.subrange(0, i as int).contains(e2) || e2 == e) by {
                if a@.subrange(0, i + 1).contains(e2) {
                    let q = choose|q: int| 0 <= q < i + 1 && #[trigger] a@.subrange(0, i + 1)[q] == e2;
                    if q < i {
                        assert(a@.subrange(0, i as int)[q] == e2);
                    }
                }
                if a@.subrange(0, i as int).contains(e2) {
                    let q = choose|q: int| 0 <= q < i && #[trigger] a@.subrange(0, i as int)[q] == e2;
                    assert(a@.subrange(0, i + 1)[q] == e2);
                }
                if e2 == e {
                    assert(a@.subrange(0, i + 1)[i as int] == e2);
                }
            }
        }
        if !in_b {
            let ghost before = d@;
            proof {
                assert(!d@.contains(e)) by {
                    if d@.contains(e) {
                        let q = choose|q: int| 0 <= q < i && #[trigger] a@.subrange(0, i as int)[q] == e;
                        assert(a@[q] == a@[i as int]);
                    }
                }
            }
            d.push(e);
            proof {
                assert forall|x: int, y: int| 0 <= x < d@.len() && 0 <= y < d@.len() && x != y implies d@[x] != d@[y] by {
                    if x == d@.len() - 1 {
                        assert(before.contains(d@[y]));
                    } else if y == d@.len() - 1 {
                        assert(before.contains(d@[x]));
                    }
                }
                assert forall|e2: EntityID| #[trigger] d@.contains(e2) <==> (a@.subrange(0, i + 1).contains(e2) && !b@.contains(e2)) by {
                    if d@.contains(e2) && e2 != e {
                        let q = choose|q: int| 0 <= q < d@.len() && #[trigger] d@[q] == e2;
                        assert(before[q] == e2);
                        assert(before.contains(e2));
                        assert(a@.subrange(0, i as int).contains(e2) && !b@.contains(e2));
                    }
                    if e2 == e {
                        assert(d@[d@.len() - 1] == e2);
                        if b@.contains(e2) {
                            let q = choose|q: int| 0 <= q < b@.len() && b@[q] == e2;
                            assert(exists|l: int| 0 <= l < j && b@[l] == e);
                        }
                    }
                    if a@.subrange(0, i as int).contains(e2) && !b@.contains(e2) {
                        assert(before.contains(e2));
                        let q = choose|q: int| 0 <= q < before.len() && before[q] == e2;
                        assert(d@[q] == e2);
                    }
                }
            }
        } else {
            proof {
                let q = choose|q: int| 0 <= q < j && b@[q] == e;
                assert(b@.contains(e));
            }
        }
        i = i + 1;
    }
    proof {
        assert(a@.subrange(0, i as int) =~= a@);
        assert(d@.to_set() =~= a@.to_set().difference(b@.to_set()));
    }
    d
}

/// `v` with `i` added, unless it is already there.
fn push_unique_instance(v: &mut Vec<InstanceID>, i: InstanceID)
    requires
        old(v)@.no_duplicates(),
    ensures
        final(v)@.no_duplicates(),
        final(v)@.to_set() == old(v)@.to_set().insert(i),
{
    let ghost v0 = v@;
    let mut found = false;
    let mut j: usize = 0;
    while j < v.len()
        invariant
            0 <= j <= v@.len(),
            v@ == v0,
            found == (exists|l: int| 0 <= l < j && v@[l] == i),
        decreases v@.len() - j,
    {
        if v[j] == i {
            found = true;
        }
        j = j + 1;
    }
    if !found {
        v.push(i);
        proof {
            let w = v@;
            assert forall|a: int, b: int| 0 <= a < w.len() && 0 <= b < w.len() && a != b implies w[a] != w[b] by {
                if a == w.len() - 1 {
                    assert(v0[b] == w[b]);
                } else if b == w.len() - 1 {
                    assert(v0[a] == w[a]);
                }
            }
            v0.lemma_push_to_set_commute(i);
        }
    } else {
        proof {
            assert(v0.to_set().contains(i));
            assert(v0.to_set().insert(i) =~= v0.to_set());
        }
    }
}

proof fn lemma_sum_grids_prefix_le(s: Seq<InstanceMap>, n: int, f: spec_fn(InstanceMap) -> int)
    requires
        0 <= n <= s.len(),
        forall|m: InstanceMap| #[trigger] f(m) >= 0,
    ensures
        sum_grids(s.subrange(0, n), f) <= sum_grids(s, f),
    decreases s.len() - n,
{
    if n < s.len() {
        lemma_sum_grids_prefix_le(s, n + 1, f);
        assert(s.subrange(0, n + 1).drop_last() =~= s.subrange(0, n));
    } else {
        assert(s.subrange(0, n) =~= s);
    }
}

proof fn lemma_sum_grids_le(s: Seq<InstanceMap>, f: spec_fn(InstanceMap) -> int, g: spec_fn(InstanceMap) -> int)
    requires
        forall|m: InstanceMap| #[trigger] f(m) <= g(m),
    ensures
        sum_grids(s, f) <= sum_grids(s, g),
    decreases s.len(),
{
    if s.len() > 0 {
        lemma_sum_grids_le(s.drop_last(), f, g);
    }
}

proof fn lemma_sum_grids_bound(s: Seq<InstanceMap>, f: spec_fn(InstanceMap) -> int)
    requires
        forall|m: InstanceMap| #[trigger] f(m) <= 16384,
    ensures
        sum_grids(s, f) <= 16384 * s.len(),
    decreases s.len(),
{
    if s.len() > 0 {
        lemma_sum_grids_bound(s.drop_last(), f);
    }
}

proof fn lemma_sum_grids_remove(s: Seq<InstanceMap>, k: int, f: spec_fn(InstanceMap) -> int)
    requires
        0 <= k < s.len(),
    ensures
        sum_grids(s.remove(k), f) == sum_grids(s, f) - f(s[k]),
    decreases s.len(),
{
    if k < s.len() - 1 {
        assert(s.remove(k).drop_last() =~= s.drop_last().remove(k));
        lemma_sum_grids_remove(s.drop_last(), k, f);
    } else {
        assert(s.remove(k) =~= s.drop_last());
    }
}

/// Removing the grid at position `k` removes that instance and nothing else.
proof fn lemma_cells_of_remove(s: Seq<InstanceMap>, k: int)
    requires
        inst_unique(s),
        0 <= k < s.len(),
    ensures
        inst_unique(s.remove(k)),
        forall|i: InstanceID| #[trigger] inst_has(s.remove(k), i) == (inst_has(s, i) && i != s[k].id),
        forall|i: InstanceID| i != s[k].id ==> #[trigger] seq_cells_of(s.remove(k), i) == seq_cells_of(s, i),
{
    let t = s.remove(k);
    assert forall|a: int, b: int| 0 <= a < t.len() && 0 <= b < t.len() && a != b implies t[a].id != t[b].id by {
        let a0 = if a < k { a } else { a + 1 };
        let b0 = if b < k { b } else { b + 1 };
        assert(t[a] == s[a0]);
        assert(t[b] == s[b0]);
    }
    assert forall|i: InstanceID| #[trigger] inst_has(t, i) == (inst_has(s, i) && i != s[k].id) by {
        if inst_has(t, i) {
            let j = choose|j: int| 0 <= j < t.len() && #[trigger] t[j].id == i;
            let j0 = if j < k { j } else { j + 1 };
            assert(s[j0].id == i);
            assert(j0 != k);
        }
        if inst_has(s, i) && i != s[k].id {
            let j0 = choose|j0: int| 0 <= j0 < s.len() && #[trigger] s[j0].id == i;
            assert(j0 != k);
            if j0 < k {
                assert(t[j0].id == i);
            } else {
                assert(t[j0 - 1].id == i);
            }
        }
    }
    assert forall|i: InstanceID| i != s[k].id implies #[trigger] seq_cells_of(t, i) == seq_cells_of(s, i) by {
        if inst_has(t, i) {
            let j = inst_index(t, i);
            let j0 = if j < k { j } else { j + 1 };
            assert(t[j] == s[j0]);
            assert(s[j0].id == i);
            lemma_inst_index(s, j0);
        }
    }
}

/// `c`, when it names a chunk that lies on the grid.
pub open spec fn on_grid(c: Option<ChunkCoords>) -> Option<ChunkCoords> {
    match c {
        Some(t) => if in_grid(t.x as int, t.y as int) {
            Some(t)
        } else {
            None
        },
        None => None,
    }
}

/// A player identity when `player`, else an NPC identity.
pub open spec fn kind_id(player: bool, n: i32) -> EntityID {
    if player {
        EntityID::Player(n)
    } else {
        EntityID::NPC(n)
    }
}

/// Tracks spatial metadata (chunk positions, tick modes) and visibility for
/// entities. Does not store entity data.
pub struct EntityMap {
    registry: Vec<RegistryEntry>,
    chunk_maps: Vec<InstanceMap>,
    instances_to_cleanup: Vec<InstanceID>,
    entities_to_cleanup: Vec<EntityID>,
    next_pc_id: u32,
    next_npc_id: u32,
    next_slider_id: u32,
    next_egg_id: u32,
    visibility_range: usize,
    num_channels: u8,
}

impl EntityMap {
    /// The tracked entities, each with its chunk (if placed) and tick mode.
    pub closed spec fn registry(&self) -> Map<EntityID, (Option<ChunkCoords>, TickMode)> {
        reg_view(self.registry@)
    }

    /// The instances that have a grid, in the order they were created.
    pub closed spec fn instance_seq(&self) -> Seq<InstanceID> {
        self.chunk_maps@.map_values(|m: InstanceMap| m.id)
    }

    /// Whether instance `i` has a grid.
    pub open spec fn has_instance(&self, i: InstanceID) -> bool {
        self.instance_seq().contains(i)
    }

    /// The chunks of instance `i`, row-major (empty if it has no grid).
    pub closed spec fn cells_of(&self, i: InstanceID) -> Seq<Chunk> {
        seq_cells_of(self.chunk_maps@, i)
    }

    /// The chunk at `c`, if its instance has a grid and `c` lies on it.
    pub open spec fn chunk_at(&self, c: ChunkCoords) -> Option<Chunk> {
        if self.has_instance(c.i) && in_grid(c.x as int, c.y as int) {
            Some(self.cells_of(c.i)[cell_index(c.x as int, c.y as int)])
        } else {
            None
        }
    }

    /// The entities in the chunk at `c` (none where there is no such chunk).
    pub open spec fn contents(&self, c: ChunkCoords) -> Set<EntityID> {
        match self.chunk_at(c) {
            Some(ch) => ch.contents(),
            None => Set::empty(),
        }
    }

    /// How many players see the chunk at `c` (none where there is no such chunk).
    pub open spec fn loads(&self, c: ChunkCoords) -> nat {
        match self.chunk_at(c) {
            Some(ch) => ch.loads(),
            None => 0,
        }
    }

    /// The radius, in chunks, within which players see.
    pub closed spec fn range(&self) -> int {
        self.visibility_range as int
    }

    /// The number of channels the shard runs.
    pub closed spec fn channels(&self) -> int {
        self.num_channels as int
    }

    /// The instances waiting to be cleaned up.
    pub closed spec fn instance_cleanup(&self) -> Set<InstanceID> {
        self.instances_to_cleanup@.to_set()
    }

    /// The entities waiting to be cleaned up.
    pub closed spec fn entity_cleanup(&self) -> Set<EntityID> {
        self.entities_to_cleanup@.to_set()
    }

    /// The next player identity to hand out.
    pub closed spec fn next_pc(&self) -> u32 {
        self.next_pc_id
    }

    /// The next NPC identity to hand out.
    pub closed spec fn next_npc(&self) -> u32 {
        self.next_npc_id
    }

    /// The next slider identity to hand out.
    pub closed spec fn next_slider(&self) -> u32 {
        self.next_slider_id
    }

    /// The next egg identity to hand out.
    pub closed spec fn next_egg(&self) -> u32 {
        self.next_egg_id
    }

    /// Number of entity placements over all chunks of all instances.
    pub closed spec fn total_size(&self) -> int {
        sum_grids(self.chunk_maps@, g_size())
    }

    /// The map's internal consistency: each entity is tracked once and placed
    /// where the registry says, each instance has one complete grid whose load
    /// counts are the numbers of players in sight, and placements fit a `usize`.
    pub closed spec fn wf(&self) -> bool {
        &&& reg_unique(self.registry@)
        &&& inst_unique(self.chunk_maps@)
        &&& forall|j: int|
            0 <= j < self.chunk_maps@.len() ==> #[trigger] self.chunk_maps@[j].map.wf(
                self.visibility_range as int,
            )
        &&& forall|j: int|
            0 <= j < self.registry@.len() ==> match (#[trigger] self.registry@[j]).chunk {
                Some(c) => self.contents(c).contains(self.registry@[j].id),
                None => true,
            }
        &&& self.instances_to_cleanup@.no_duplicates()
        &&& self.entities_to_cleanup@.no_duplicates()
        &&& self.total_size() <= usize::MAX
    }
}


impl EntityMap {
    /// The entities in the chunks within sight of `c` (none if its instance
    /// has no grid).
    pub open spec fn around(&self, c: ChunkCoords) -> Set<EntityID> {
        if self.has_instance(c.i) {
            window_ids(self.cells_of(c.i), c.x as int, c.y as int, self.range())
        } else {
            Set::empty()
        }
    }

    /// The entities in the chunks within sight of `c`, not counting `id` in
    /// the chunk `c` itself (none if its instance has no grid).
    pub open spec fn around_without(&self, c: ChunkCoords, id: EntityID) -> Set<EntityID> {
        if self.has_instance(c.i) {
            region_ids_without(
                self.cells_of(c.i),
                win_lo(c.x as int, self.range()),
                win_hi(c.x as int, self.range()),
                win_lo(c.y as int, self.range()),
                win_hi(c.y as int, self.range()),
                c.x as int,
                c.y as int,
                id,
            )
        } else {
            Set::empty()
        }
    }

    /// Whether `id` takes part in ticks: always for `Always`, never for
    /// `Never`, and for `WhenLoaded` when it is in no chunk or in a chunk
    /// some player sees.
    pub open spec fn tickable(&self, id: EntityID) -> bool {
        match self.registry()[id].1 {
            TickMode::Always => true,
            TickMode::Never => false,
            TickMode::WhenLoaded => match self.registry()[id].0 {
                Some(c) => self.chunk_at(c) is Some && self.loads(c) > 0,
                None => true,
            },
        }
    }

    /// Sum of `f` over the first `n` instances (in order of creation), each
    /// taken with its chunks.
    pub open spec fn sum_over_instances(&self, n: int, f: spec_fn(InstanceID, Seq<Chunk>) -> int) -> int
        decreases n,
    {
        if n <= 0 {
            0
        } else {
            self.sum_over_instances(n - 1, f) + f(self.instance_seq()[n - 1], self.cells_of(self.instance_seq()[n - 1]))
        }
    }

    /// Number of players in the instances of channel `channel_num`.
    pub open spec fn channel_population(&self, channel_num: u8) -> int {
        self.sum_over_instances(
            self.instance_seq().len() as int,
            |i: InstanceID, cells: Seq<Chunk>| if i.channel_num == channel_num {
                grid_sum(cells, f_players())
            } else {
                0
            },
        )
    }

    /// The entities placed in instance `i`, chunk by chunk (none if it has
    /// no grid).
    pub open spec fn instance_members(&self, i: InstanceID) -> Seq<EntityID> {
        if self.has_instance(i) {
            grid_members(self.cells_of(i), 128)
        } else {
            Seq::empty()
        }
    }

    /// Number of players in instance `i`.
    pub open spec fn instance_players(&self, i: InstanceID) -> int {
        grid_sum(self.cells_of(i), f_players())
    }

    /// `self` and `other` have the same instances with the same chunks.
    pub open spec fn same_grids(&self, other: &Self) -> bool {
        &&& self.instance_seq() == other.instance_seq()
        &&& forall|i: InstanceID| #[trigger] self.cells_of(i) == other.cells_of(i)
    }

    /// `self` and `other` agree on everything but the registry and the grids.
    pub open spec fn same_bookkeeping(&self, other: &Self) -> bool {
        &&& self.instance_cleanup() == other.instance_cleanup()
        &&& self.entity_cleanup() == other.entity_cleanup()
        &&& self.next_pc() == other.next_pc()
        &&& self.next_npc() == other.next_npc()
        &&& self.next_slider() == other.next_slider()
        &&& self.next_egg() == other.next_egg()
        &&& self.range() == other.range()
        &&& self.channels() == other.channels()
    }

    /// `self` is `before` with `id` moved to `to` (placed nowhere when `to`
    /// is `None` or off the grid): the registry records the new place, and
    /// only the chunk it left and the chunk it entered change.
    pub open spec fn moved(&self, before: &Self, id: EntityID, to: Option<ChunkCoords>) -> bool {
        &&& self.registry() == before.registry().insert(id, (on_grid(to), before.registry()[id].1))
        &&& forall|c: ChunkCoords| #[trigger] self.contents(c) == if Some(c) == on_grid(to) {
            before.contents(c).insert(id)
        } else if Some(c) == before.registry()[id].0 {
            before.contents(c).remove(id)
        } else {
            before.contents(c)
        }
    }

    /// An empty map whose players see `visibility_range` chunks in each
    /// direction, for a shard of `num_channels` channels.
    pub fn new(visibility_range: usize, num_channels: u8) -> (m: Self)
        ensures
            m.wf(),
            m.registry() == Map::<EntityID, (Option<ChunkCoords>, TickMode)>::empty(),
            m.instance_seq() == Seq::<InstanceID>::empty(),
            m.instance_cleanup() == Set::<InstanceID>::empty(),
            m.entity_cleanup() == Set::<EntityID>::empty(),
            m.next_pc() == 1,
            m.next_npc() == 1,
            m.next_slider() == 1,
            m.next_egg() == 1,
            m.range() == visibility_range,
            m.channels() == num_channels,
            m.total_size() == 0,
    {
        let m = EntityMap {
            registry: Vec::new(),
            chunk_maps: Vec::new(),
            instances_to_cleanup: Vec::new(),
            entities_to_cleanup: Vec::new(),
            next_pc_id: 1,
            next_npc_id: 1,
            next_slider_id: 1,
            next_egg_id: 1,
            visibility_range,
            num_channels,
        };
        proof {
            assert(m.registry() =~= Map::<EntityID, (Option<ChunkCoords>, TickMode)>::empty());
            assert(m.instance_seq() =~= Seq::<InstanceID>::empty());
            assert(m.instance_cleanup() =~= Set::<InstanceID>::empty());
            assert(m.entity_cleanup() =~= Set::<EntityID>::empty());
        }
        m
    }

    /// The position of `id`'s registry entry, if it is tracked.
    fn find_entry(&self, id: EntityID) -> (j: Option<usize>)
        requires
            reg_unique(self.registry@),
        ensures
            match j {
                Some(j) => j < self.registry@.len() && self.registry@[j as int].id == id
                    && self.registry().dom().contains(id),
                None => !self.registry().dom().contains(id),
            },
    {
        proof {
            lemma_reg_view(self.registry@);
        }
        let mut j: usize = 0;
        while j < self.registry.len()
            invariant
                0 <= j <= self.registry@.len(),
                forall|l: int| 0 <= l < j ==> (#[trigger] self.registry@[l]).id != id,
            decreases self.registry@.len() - j,
        {
            if self.registry[j].id == id {
                return Some(j);
            }
            j = j + 1;
        }
        None
    }

    /// The position of instance `i`'s grid, if it has one.
    fn find_instance(&self, i: InstanceID) -> (j: Option<usize>)
        requires
            inst_unique(self.chunk_maps@),
        ensures
            match j {
                Some(j) => j < self.chunk_maps@.len() && self.chunk_maps@[j as int].id == i
                    && inst_has(self.chunk_maps@, i) && inst_index(self.chunk_maps@, i) == j,
                None => !inst_has(self.chunk_maps@, i),
            },
            inst_has(self.chunk_maps@, i) == self.has_instance(i),
    {
        proof {
            self.lemma_has_instance(i);
        }
        let mut j: usize = 0;
        while j < self.chunk_maps.len()
            invariant
                0 <= j <= self.chunk_maps@.len(),
                inst_unique(self.chunk_maps@),
                inst_has(self.chunk_maps@, i) == self.has_instance(i),
                forall|l: int| 0 <= l < j ==> (#[trigger] self.chunk_maps@[l]).id != i,
            decreases self.chunk_maps@.len() - j,
        {
            if self.chunk_maps[j].id == i {
                proof {
                    lemma_inst_index(self.chunk_maps@, j as int);
                }
                return Some(j);
            }
            j = j + 1;
        }
        None
    }

    proof fn lemma_has_instance(&self, i: InstanceID)
        ensures
            inst_has(self.chunk_maps@, i) == self.has_instance(i),
    {
        let s = self.chunk_maps@;
        let ids = self.instance_seq();
        if inst_has(s, i) {
            let j = choose|j: int| 0 <= j < s.len() && #[trigger] s[j].id == i;
            assert(ids[j] == i);
        }
        if ids.contains(i) {
            let j = choose|j: int| 0 <= j < ids.len() && ids[j] == i;
            assert(s[j].id == i);
        }
    }

    /// Whether `id` is tracked.
    pub fn is_tracked(&self, id: EntityID) -> (b: bool)
        requires
            self.wf(),
        ensures
            b == self.registry().dom().contains(id),
    {
        self.find_entry(id).is_some()
    }

    /// The chunk `id` is placed in, if it is tracked and placed.
    pub fn get_entity_chunk(&self, id: EntityID) -> (c: Option<ChunkCoords>)
        requires
            self.wf(),
        ensures
            c == (if self.registry().dom().contains(id) {
                self.registry()[id].0
            } else {
                None
            }),
    {
        proof {
            lemma_reg_view(self.registry@);
        }
        match self.find_entry(id) {
            Some(j) => self.registry[j].chunk,
            None => None,
        }
    }

    /// The tick mode of `id`, if it is tracked.
    pub fn get_tick_mode(&self, id: EntityID) -> (t: Option<TickMode>)
        requires
            self.wf(),
        ensures
            t == (if self.registry().dom().contains(id) {
                Some(self.registry()[id].1)
            } else {
                None
            }),
    {
        proof {
            lemma_reg_view(self.registry@);
        }
        match self.find_entry(id) {
            Some(j) => Some(self.registry[j].tick_mode),
            None => None,
        }
    }

    /// Whether instance `instance_id` has a grid.
    pub fn instance_exists(&self, instance_id: InstanceID) -> (b: bool)
        requires
            self.wf(),
        ensures
            b == self.has_instance(instance_id),
    {
        self.find_instance(instance_id).is_some()
    }

    /// The tracked entities, each once.
    pub fn get_all_ids(&self) -> (ids: Vec<EntityID>)
        requires
            self.wf(),
        ensures
            ids@.no_duplicates(),
            ids@.to_set() == self.registry().dom(),
    {
        proof {
            lemma_reg_view(self.registry@);
        }
        let mut ids: Vec<EntityID> = Vec::new();
        let mut j: usize = 0;
        while j < self.registry.len()
            invariant
                0 <= j <= self.registry@.len(),
                reg_unique(self.registry@),
                ids@.len() == j,
                forall|l: int| 0 <= l < j ==> #[trigger] ids@[l] == self.registry@[l].id,
            decreases self.registry@.len() - j,
        {
            ids.push(self.registry[j].id);
            j = j + 1;
        }
        proof {
            assert forall|e: EntityID| ids@.to_set().contains(e) <==> self.registry().dom().contains(e) by {
                if ids@.contains(e) {
                    let l = choose|l: int| 0 <= l < ids@.len() && ids@[l] == e;
                    assert(self.registry@[l].id == e);
                }
                if self.registry().dom().contains(e) {
                    let l = choose|l: int| 0 <= l < self.registry@.len() && #[trigger] self.registry@[l].id == e;
                    assert(ids@[l] == e);
                }
            }
            assert(ids@.to_set() =~= self.registry().dom());
        }
        ids
    }

    /// The identities of the tracked players, each once.
    pub fn get_player_ids(&self) -> (ids: Vec<i32>)
        requires
            self.wf(),
        ensures
            ids@.no_duplicates(),
            forall|n: i32| #[trigger] ids@.contains(n) <==> self.registry().dom().contains(EntityID::Player(n)),
    {
        self.ids_of_kind(true)
    }

    /// The identities of the tracked NPCs, each once.
    pub fn get_npc_ids(&self) -> (ids: Vec<i32>)
        requires
            self.wf(),
        ensures
            ids@.no_duplicates(),
            forall|n: i32| #[trigger] ids@.contains(n) <==> self.registry().dom().contains(EntityID::NPC(n)),
    {
        self.ids_of_kind(false)
    }

    /// The identities of the tracked players (or NPCs), each once.
    fn ids_of_kind(&self, players: bool) -> (ids: Vec<i32>)
        requires
            self.wf(),
        ensures
            ids@.no_duplicates(),
            forall|n: i32| #[trigger] ids@.contains(n) <==> self.registry().dom().contains(kind_id(players, n)),
    {
        proof {
            lemma_reg_view(self.registry@);
        }
        let mut ids: Vec<i32> = Vec::new();
        let mut j: usize = 0;
        while j < self.registry.len()
            invariant
                0 <= j <= self.registry@.len(),
                reg_unique(self.registry@),
                ids@.no_duplicates(),
                forall|n: i32| #[trigger] ids@.contains(n) <==> exists|l: int| 0 <= l < j && #[trigger] self.registry@[l].id == kind_id(players, n),
            decreases self.registry@.len() - j,
        {
            let found = match self.registry[j].id {
                EntityID::Player(n) => if players { Some(n) } else { None },
                EntityID::NPC(n) => if players { None } else { Some(n) },
                _ => None,
            };
            if let Some(n) = found {
                let ghost before = ids@;
                proof {
                    assert(!ids@.contains(n)) by {
                        if ids@.contains(n) {
                            let l = choose|l: int| 0 <= l < j && #[trigger] self.registry@[l].id == kind_id(players, n);
                        }
                    }
                }
                ids.push(n);
                proof {
                    assert forall|a: int, b: int| 0 <= a < ids@.len() && 0 <= b < ids@.len() && a != b implies ids@[a] != ids@[b] by {
                        if a == ids@.len() - 1 {
                            assert(before.contains(ids@[b]));
                        } else if b == ids@.len() - 1 {
                            assert(before.contains(ids@[a]));
                        }
                    }
                    assert forall|m: i32| #[trigger] ids@.contains(m) <==> exists|l: int| 0 <= l < j + 1 && #[trigger] self.registry@[l].id == kind_id(players, m) by {
                        if ids@.contains(m) && m != n {
                            let q = choose|q: int| 0 <= q < ids@.len() && ids@[q] == m;
                            assert(before[q] == m);
                            assert(before.contains(m));
                        }
                        if m == n {
                            assert(ids@[ids@.len() - 1] == m);
                        }
                        if exists|l: int| 0 <= l < j && #[trigger] self.registry@[l].id == kind_id(players, m) {
                            assert(before.contains(m));
                            let q = choose|q: int| 0 <= q < before.len() && before[q] == m;
                            assert(ids@[q] == m);
                        }
                    }
                }
            }
            j = j + 1;
        }
        ids
    }
}


impl EntityMap {
    /// Starts tracking `id`, unplaced, with tick mode `tick_mode`.
    pub fn track(&mut self, id: EntityID, tick_mode: TickMode)
        requires
            old(self).wf(),
            !old(self).registry().dom().contains(id),
        ensures
            final(self).wf(),
            final(self).registry() == old(self).registry().insert(id, (None, tick_mode)),
            final(self).same_grids(old(self)),
            final(self).total_size() == old(self).total_size(),
            final(self).same_bookkeeping(old(self)),
    {
        let ghost s0 = self.registry@;
        proof {
            lemma_reg_view(s0);
        }
        self.registry.push(RegistryEntry { id, chunk: None, tick_mode });
        proof {
            let s = self.registry@;
            assert forall|j: int, l: int|
                0 <= j < s.len() && 0 <= l < s.len() && j != l implies s[j].id != s[l].id by {
                if j == s.len() - 1 {
                    assert(s0[l].id == s[l].id);
                } else if l == s.len() - 1 {
                    assert(s0[j].id == s[j].id);
                }
            }
            lemma_reg_view(s);
            assert forall|e: EntityID| #[trigger] self.registry().dom().contains(e) <==> old(self).registry().insert(id, (None, tick_mode)).dom().contains(e) by {
                if self.registry().dom().contains(e) {
                    let j = choose|j: int| 0 <= j < s.len() && #[trigger] s[j].id == e;
                    if j < s0.len() {
                        assert(s0[j].id == e);
                    }
                }
                if old(self).registry().dom().contains(e) {
                    let j = choose|j: int| 0 <= j < s0.len() && #[trigger] s0[j].id == e;
                    assert(s[j].id == e);
                }
                assert(s[s.len() - 1].id == id);
            }
            assert forall|e: EntityID| #[trigger] self.registry().dom().contains(e) implies self.registry()[e] == old(self).registry().insert(id, (None, tick_mode))[e] by {
                let j = choose|j: int| 0 <= j < s.len() && #[trigger] s[j].id == e;
                if j < s0.len() {
                    assert(s0[j] == s[j]);
                }
            }
            assert(self.registry() =~= old(self).registry().insert(id, (None, tick_mode)));
            assert forall|j: int| 0 <= j < s.len() implies match (#[trigger] s[j]).chunk {
                Some(c) => self.contents(c).contains(s[j].id),
                None => true,
            } by {
                if j < s0.len() {
                    assert(s0[j] == s[j]);
                }
            }
        }
    }

    /// Stops tracking `id`. Its placement in a chunk, if any, stays.
    pub fn untrack(&mut self, id: EntityID)
        requires
            old(self).wf(),
            old(self).registry().dom().contains(id),
        ensures
            final(self).wf(),
            final(self).registry() == old(self).registry().remove(id),
            final(self).same_grids(old(self)),
            final(self).total_size() == old(self).total_size(),
            final(self).same_bookkeeping(old(self)),
    {
        let ghost s0 = self.registry@;
        proof {
            lemma_reg_view(s0);
        }
        let j = self.find_entry(id).unwrap();
        self.registry.remove(j);
        proof {
            let s = self.registry@;
            assert(s =~= s0.remove(j as int));
            assert forall|a: int, b: int|
                0 <= a < s.len() && 0 <= b < s.len() && a != b implies s[a].id != s[b].id by {
                let a0 = if a < j { a } else { a + 1 };
                let b0 = if b < j { b } else { b + 1 };
                assert(s[a] == s0[a0]);
                assert(s[b] == s0[b0]);
            }
            lemma_reg_view(s);
            assert forall|e: EntityID| #[trigger] self.registry().dom().contains(e) <==> old(self).registry().remove(id).dom().contains(e) by {
                if self.registry().dom().contains(e) {
                    let k = choose|k: int| 0 <= k < s.len() && #[trigger] s[k].id == e;
                    let k0 = if k < j { k } else { k + 1 };
                    assert(s0[k0].id == e);
                    assert(k0 != j);
                }
                if old(self).registry().dom().contains(e) && e != id {
                    let k0 = choose|k0: int| 0 <= k0 < s0.len() && #[trigger] s0[k0].id == e;
                    assert(k0 != j);
                    if k0 < j {
                        assert(s[k0].id == e);
                    } else {
                        assert(s[k0 - 1].id == e);
                    }
                }
            }
            assert forall|e: EntityID| #[trigger] self.registry().dom().contains(e) implies self.registry()[e] == old(self).registry().remove(id)[e] by {
                let k = choose|k: int| 0 <= k < s.len() && #[trigger] s[k].id == e;
                let k0 = if k < j { k } else { k + 1 };
                assert(s0[k0] == s[k]);
            }
            assert(self.registry() =~= old(self).registry().remove(id));
            assert forall|k: int| 0 <= k < s.len() implies match (#[trigger] s[k]).chunk {
                Some(c) => self.contents(c).contains(s[k].id),
                None => true,
            } by {
                let k0 = if k < j { k } else { k + 1 };
                assert(s0[k0] == s[k]);
            }
        }
    }

    /// Marks `id` to be untracked by the next entity garbage collection.
    pub fn mark_for_cleanup(&mut self, id: EntityID)
        requires
            old(self).wf(),
        ensures
            final(self).wf(),
            final(self).entity_cleanup() == old(self).entity_cleanup().insert(id),
            final(self).registry() == old(self).registry(),
            final(self).same_grids(old(self)),
            final(self).total_size() == old(self).total_size(),
            final(self).instance_cleanup() == old(self).instance_cleanup(),
            final(self).next_pc() == old(self).next_pc(),
            final(self).next_npc() == old(self).next_npc(),
            final(self).next_slider() == old(self).next_slider(),
            final(self).next_egg() == old(self).next_egg(),
            final(self).range() == old(self).range(),
            final(self).channels() == old(self).channels(),
    {
        let ghost v0 = self.entities_to_cleanup@;
        let mut found = false;
        let mut j: usize = 0;
        while j < self.entities_to_cleanup.len()
            invariant
                0 <= j <= self.entities_to_cleanup@.len(),
                found == (exists|l: int| 0 <= l < j && self.entities_to_cleanup@[l] == id),
            decreases self.entities_to_cleanup@.len() - j,
        {
            if self.entities_to_cleanup[j] == id {
                found = true;
            }
            j = j + 1;
        }
        if !found {
            self.entities_to_cleanup.push(id);
            proof {
                let v = self.entities_to_cleanup@;
                assert forall|a: int, b: int| 0 <= a < v.len() && 0 <= b < v.len() && a != b implies v[a] != v[b] by {
                    if a == v.len() - 1 {
                        assert(v0[b] == v[b]);
                    } else if b == v.len() - 1 {
                        assert(v0[a] == v[a]);
                    }
                }
                v0.lemma_push_to_set_commute(id);
            }
        } else {
            proof {
                assert(v0.to_set().contains(id));
                assert(v0.to_set().insert(id) =~= v0.to_set());
            }
        }
    }

    /// Sets the tick mode of `id`. Fails, with a warning, when `id` is not tracked.
    pub fn set_tick(&mut self, id: EntityID, tick_mode: TickMode) -> (res: FFResult<()>)
        requires
            old(self).wf(),
        ensures
            final(self).wf(),
            final(self).same_grids(old(self)),
            final(self).total_size() == old(self).total_size(),
            final(self).same_bookkeeping(old(self)),
            match res {
                Ok(()) => old(self).registry().dom().contains(id) && final(self).registry()
                    == old(self).registry().insert(id, (old(self).registry()[id].0, tick_mode)),
                Err(e) => !old(self).registry().dom().contains(id) && final(self).registry()
                    == old(self).registry() && e.severity() == Severity::Warning && e.msg() == "Entity with ID "@
                    + debug_text(id) + " doesn't exist"@,
            },
    {
        let ghost s0 = self.registry@;
        proof {
            lemma_reg_view(s0);
        }
        match self.find_entry(id) {
            Some(j) => {
                self.registry[j].tick_mode = tick_mode;
                proof {
                    let s = self.registry@;
                    assert forall|a: int| 0 <= a < s.len() && a != j implies #[trigger] s[a] == s0[a] by {}
                    assert(s[j as int].id == s0[j as int].id && s[j as int].chunk == s0[j as int].chunk);
                    assert forall|a: int, b: int| 0 <= a < s.len() && 0 <= b < s.len() && a != b implies s[a].id != s[b].id by {
                        assert(s[a].id == s0[a].id);
                        assert(s[b].id == s0[b].id);
                    }
                    lemma_reg_view(s);
                    let want = old(self).registry().insert(id, (old(self).registry()[id].0, tick_mode));
                    assert forall|e: EntityID| #[trigger] self.registry().dom().contains(e) <==> want.dom().contains(e) by {
                        if self.registry().dom().contains(e) {
                            let k = choose|k: int| 0 <= k < s.len() && #[trigger] s[k].id == e;
                            assert(s0[k].id == e);
                        }
                        if old(self).registry().dom().contains(e) {
                            let k = choose|k: int| 0 <= k < s0.len() && #[trigger] s0[k].id == e;
                            assert(s[k].id == e);
                        }
                    }
                    assert forall|e: EntityID| #[trigger] self.registry().dom().contains(e) implies self.registry()[e] == want[e] by {
                        let k = choose|k: int| 0 <= k < s.len() && #[trigger] s[k].id == e;
                        assert(s0[k].id == e);
                    }
                    assert(self.registry() =~= want);
                    assert forall|k: int| 0 <= k < s.len() implies match (#[trigger] s[k]).chunk {
                        Some(c) => self.contents(c).contains(s[k].id),
                        None => true,
                    } by {
                        assert(s0[k].chunk == s[k].chunk && s0[k].id == s[k].id);
                    }
                }
                Ok(())
            },
            None => {
                let mut msg = String::from_str("Entity with ID ");
                let text = id.debug_string();
                msg.append(text.as_str());
                msg.append(" doesn't exist");
                Err(FFError::build(Severity::Warning, msg))
            },
        }
    }

    /// Hands out the next player identity.
    pub fn gen_next_pc_id(&mut self) -> (id: i32)
        requires
            old(self).wf(),
            old(self).next_pc() != u32::MAX,
        ensures
            final(self).wf(),
            id == old(self).next_pc() as i32,
            final(self).next_pc() == old(self).next_pc() + 1,
            final(self).next_npc() == old(self).next_npc(),
            final(self).next_slider() == old(self).next_slider(),
            final(self).next_egg() == old(self).next_egg(),
            final(self).registry() == old(self).registry(),
            final(self).same_grids(old(self)),
            final(self).total_size() == old(self).total_size(),
            final(self).instance_cleanup() == old(self).instance_cleanup(),
            final(self).entity_cleanup() == old(self).entity_cleanup(),
            final(self).range() == old(self).range(),
            final(self).channels() == old(self).channels(),
    {
        let id = self.next_pc_id;
        self.next_pc_id = self.next_pc_id + 1;
        id as i32
    }

    /// Hands out the next NPC identity.
    pub fn gen_next_npc_id(&mut self) -> (id: i32)
        requires
            old(self).wf(),
            old(self).next_npc() != u32::MAX,
        ensures
            final(self).wf(),
            id == old(self).next_npc() as i32,
            final(self).next_npc() == old(self).next_npc() + 1,
            final(self).next_pc() == old(self).next_pc(),
            final(self).next_slider() == old(self).next_slider(),
            final(self).next_egg() == old(self).next_egg(),
            final(self).registry() == old(self).registry(),
            final(self).same_grids(old(self)),
            final(self).total_size() == old(self).total_size(),
            final(self).instance_cleanup() == old(self).instance_cleanup(),
            final(self).entity_cleanup() == old(self).entity_cleanup(),
            final(self).range() == old(self).range(),
            final(self).channels() == old(self).channels(),
    {
        let id = self.next_npc_id;
        self.next_npc_id = self.next_npc_id + 1;
        id as i32
    }

    /// Hands out the next slider identity.
    pub fn gen_next_slider_id(&mut self) -> (id: i32)
        requires
            old(self).wf(),
            old(self).next_slider() != u32::MAX,
        ensures
            final(self).wf(),
            id == old(self).next_slider() as i32,
            final(self).next_slider() == old(self).next_slider() + 1,
            final(self).next_pc() == old(self).next_pc(),
            final(self).next_npc() == old(self).next_npc(),
            final(self).next_egg() == old(self).next_egg(),
            final(self).registry() == old(self).registry(),
            final(self).same_grids(old(self)),
            final(self).total_size() == old(self).total_size(),
            final(self).instance_cleanup() == old(self).instance_cleanup(),
            final(self).entity_cleanup() == old(self).entity_cleanup(),
            final(self).range() == old(self).range(),
            final(self).channels() == old(self).channels(),
    {
        let id = self.next_slider_id;
        self.next_slider_id = self.next_slider_id + 1;
        id as i32
    }

    /// Hands out the next egg identity.
    pub fn gen_next_egg_id(&mut self) -> (id: i32)
        requires
            old(self).wf(),
            old(self).next_egg() != u32::MAX,
        ensures
            final(self).wf(),
            id == old(self).next_egg() as i32,
            final(self).next_egg() == old(self).next_egg() + 1,
            final(self).next_pc() == old(self).next_pc(),
            final(self).next_npc() == old(self).next_npc(),
            final(self).next_slider() == old(self).next_slider(),
            final(self).registry() == old(self).registry(),
            final(self).same_grids(old(self)),
            final(self).total_size() == old(self).total_size(),
            final(self).instance_cleanup() == old(self).instance_cleanup(),
            final(self).entity_cleanup() == old(self).entity_cleanup(),
            final(self).range() == old(self).range(),
            final(self).channels() == old(self).channels(),
    {
        let id = self.next_egg_id;
        self.next_egg_id = self.next_egg_id + 1;
        id as i32
    }
}


impl EntityMap {
    /// The position of instance `instance_id`'s grid, creating an empty grid
    /// for it if it has none.
    fn init_instance(&mut self, instance_id: InstanceID) -> (k: usize)
        requires
            old(self).wf(),
        ensures
            final(self).wf(),
            k < final(self).chunk_maps@.len(),
            final(self).chunk_maps@[k as int].id == instance_id,
            inst_index(final(self).chunk_maps@, instance_id) == k,
            final(self).registry@ == old(self).registry@,
            final(self).registry() == old(self).registry(),
            final(self).same_bookkeeping(old(self)),
            final(self).total_size() == old(self).total_size(),
            old(self).has_instance(instance_id) ==> final(self).chunk_maps@ == old(self).chunk_maps@,
            !old(self).has_instance(instance_id) ==> final(self).instance_seq() == old(
                self,
            ).instance_seq().push(instance_id),
            forall|i: InstanceID| #[trigger] final(self).has_instance(i) == (old(self).has_instance(i) || i == instance_id),
            forall|i: InstanceID|
                i != instance_id || old(self).has_instance(i) ==> #[trigger] final(self).cells_of(i)
                    == old(self).cells_of(i),
            forall|c: ChunkCoords| #[trigger] final(self).contents(c) == old(self).contents(c),
            forall|c: ChunkCoords| #[trigger] final(self).loads(c) == old(self).loads(c) || !old(self).has_instance(c.i),
    {
        proof {
            self.lemma_has_instance(instance_id);
        }
        match self.find_instance(instance_id) {
            Some(k) => k,
            None => {
                let ghost s0 = self.chunk_maps@;
                let ghost old_self = *self;
                let map = ChunkMap::new(Ghost(self.visibility_range as int));
                let m = InstanceMap { id: instance_id, map };
                proof {
                    lemma_cells_of_push(s0, m);
                    lemma_sum_grids_push(s0, m, g_size());
                }
                self.chunk_maps.push(m);
                let k = self.chunk_maps.len() - 1;
                proof {
                    let s = self.chunk_maps@;
                    assert(s =~= s0.push(m));
                    lemma_inst_index(s, k as int);
                    assert forall|i: InstanceID| #[trigger] self.has_instance(i) == (old(self).has_instance(i) || i == instance_id) by {
                        self.lemma_has_instance(i);
                        old_self.lemma_has_instance(i);
                    }
                    assert(self.instance_seq() =~= old(self).instance_seq().push(instance_id));
                    assert forall|c: ChunkCoords| #[trigger] self.contents(c) == old(self).contents(c) by {
                        self.lemma_has_instance(c.i);
                        old_self.lemma_has_instance(c.i);
                        if c.i == instance_id && in_grid(c.x as int, c.y as int) {
                            map.lemma_wf(self.visibility_range as int);
                            assert(map.cell(c.x as int, c.y as int) == map.cells()[cell_index(c.x as int, c.y as int)]);
                        }
                    }
                    assert forall|c: ChunkCoords| #[trigger] self.loads(c) == old(self).loads(c) || !old(self).has_instance(c.i) by {
                        self.lemma_has_instance(c.i);
                        old_self.lemma_has_instance(c.i);
                    }
                    assert forall|j: int|
                        0 <= j < s.len() implies #[trigger] s[j].map.wf(self.visibility_range as int) by {
                        if j < s0.len() {
                            assert(s[j] == s0[j]);
                        }
                    }
                    assert forall|j: int|
                        0 <= j < self.registry@.len() implies match (#[trigger] self.registry@[j]).chunk {
                            Some(c) => self.contents(c).contains(self.registry@[j].id),
                            None => true,
                        } by {
                        assert(old(self).registry@[j] == self.registry@[j]);
                    }
                }
                k
            },
        }
    }
}


impl EntityMap {
    /// Takes the entity of registry entry `j` out of its chunk, if it is in
    /// one. Returns the entities within sight of that chunk afterwards.
    fn remove_from_chunk(&mut self, id: EntityID, j: usize) -> (affected: Vec<EntityID>)
        requires
            old(self).wf(),
            j < old(self).registry@.len(),
            old(self).registry@[j as int].id == id,
        ensures
            final(self).wf(),
            final(self).registry@ == old(self).registry@.update(
                j as int,
                RegistryEntry { chunk: None, ..old(self).registry@[j as int] },
            ),
            final(self).same_bookkeeping(old(self)),
            final(self).instance_seq() == old(self).instance_seq(),
            forall|i: InstanceID| #[trigger] final(self).has_instance(i) == old(self).has_instance(i),
            affected@.no_duplicates(),
            match old(self).registry@[j as int].chunk {
                None => final(self).chunk_maps@ == old(self).chunk_maps@ && affected@.len() == 0,
                Some(f) => {
                    &&& forall|c: ChunkCoords| #[trigger] final(self).contents(c) == if c == f {
                        old(self).contents(c).remove(id)
                    } else {
                        old(self).contents(c)
                    }
                    &&& forall|i: InstanceID| i != f.i ==> #[trigger] final(self).cells_of(i) == old(self).cells_of(i)
                    &&& affected@.to_set() == old(self).around_without(f, id)
                    &&& affected@.to_set() == final(self).around(f)
                    &&& final(self).total_size() == old(self).total_size() - 1
                    &&& old(self).contents(f).contains(id)
                    &&& final(self).has_instance(f.i)
                },
            },
    {
        proof {
            lemma_reg_view(self.registry@);
        }
        match self.registry[j].chunk {
            None => Vec::new(),
            Some(coords) => {
                let ghost old_self = *self;
                self.registry[j].chunk = None;
                proof {
                    let s = self.registry@;
                    assert(s =~= old_self.registry@.update(j as int, RegistryEntry { chunk: None, ..old_self.registry@[j as int] }));
                    assert forall|a: int, b: int| 0 <= a < s.len() && 0 <= b < s.len() && a != b implies s[a].id != s[b].id by {
                        assert(s[a].id == old_self.registry@[a].id);
                        assert(s[b].id == old_self.registry@[b].id);
                    }
                    assert forall|l: int|
                        0 <= l < s.len() implies match (#[trigger] s[l]).chunk {
                            Some(c) => self.contents(c).contains(s[l].id),
                            None => true,
                        } by {
                        if l != j {
                            assert(s[l] == old_self.registry@[l]);
                        }
                    }
                    old_self.lemma_has_instance(coords.i);
                }
                let ghost mid = *self;
                let k = self.init_instance(coords.i);
                let ghost s0 = self.chunk_maps@;
                let r = self.visibility_range;
                proof {
                    assert(s0 == mid.chunk_maps@);
                    s0[k as int].map.lemma_wf(r as int);
                    assert(s0[k as int].map.cell(coords.x as int, coords.y as int) == s0[k as int].map.cells()[cell_index(coords.x as int, coords.y as int)]);
                }
                let affected = self.chunk_maps[k].map.remove_entity(
                    coords.x as usize,
                    coords.y as usize,
                    id,
                    r,
                );
                proof {
                    let s1 = self.chunk_maps@;
                    let m1 = s1[k as int];
                    assert(s1 =~= s0.update(k as int, m1));
                    lemma_cells_of_update(s0, k as int, m1);
                    lemma_sum_grids_update(s0, k as int, m1, g_size());
                    assert forall|i: InstanceID| #[trigger] self.has_instance(i) == old(self).has_instance(i) by {
                        self.lemma_has_instance(i);
                        old_self.lemma_has_instance(i);
                    }
                    assert(self.instance_seq() =~= old(self).instance_seq());
                    m1.map.lemma_wf(r as int);
                    assert forall|c: ChunkCoords| #[trigger] self.contents(c) == if c == coords {
                        old(self).contents(c).remove(id)
                    } else {
                        old(self).contents(c)
                    } by {
                        self.lemma_has_instance(c.i);
                        old_self.lemma_has_instance(c.i);
                        if c.i == coords.i && in_grid(c.x as int, c.y as int) {
                            assert(m1.map.cell(c.x as int, c.y as int) == m1.map.cells()[cell_index(c.x as int, c.y as int)]);
                            assert(s0[k as int].map.cell(c.x as int, c.y as int) == s0[k as int].map.cells()[cell_index(c.x as int, c.y as int)]);
                        }
                    }
                    assert forall|jj: int|
                        0 <= jj < s1.len() implies #[trigger] s1[jj].map.wf(r as int) by {
                        if jj != k {
                            assert(s1[jj] == s0[jj]);
                        }
                    }
                    let rs = self.registry@;
                    assert forall|l: int|
                        0 <= l < rs.len() implies match (#[trigger] rs[l]).chunk {
                            Some(c) => self.contents(c).contains(rs[l].id),
                            None => true,
                        } by {
                        if l != j {
                            assert(rs[l] == mid.registry@[l]);
                            assert(rs[l].id != id);
                        }
                    }
                }
                affected
            },
        }
    }
}


impl EntityMap {
    /// Places the entity of registry entry `j`, which is in no chunk, in
    /// `to_chunk` when that lies on a grid, creating the instance's grid if
    /// needed. Returns the other entities within sight of it there.
    fn insert_into_chunk(&mut self, id: EntityID, j: usize, to_chunk: Option<ChunkCoords>) -> (affected: Vec<EntityID>)
        requires
            old(self).wf(),
            j < old(self).registry@.len(),
            old(self).registry@[j as int].id == id,
            old(self).registry@[j as int].chunk is None,
            match on_grid(to_chunk) {
                Some(t) => !old(self).contents(t).contains(id) && old(self).total_size() < usize::MAX,
                None => true,
            },
        ensures
            final(self).wf(),
            final(self).same_bookkeeping(old(self)),
            affected@.no_duplicates(),
            match on_grid(to_chunk) {
                Some(t) => {
                    &&& final(self).registry@ == old(self).registry@.update(
                        j as int,
                        RegistryEntry { chunk: to_chunk, ..old(self).registry@[j as int] },
                    )
                    &&& forall|i: InstanceID| #[trigger] final(self).has_instance(i) == (old(self).has_instance(i) || i == t.i)
                    &&& (old(self).has_instance(t.i) ==> final(self).instance_seq() == old(self).instance_seq())
                    &&& (!old(self).has_instance(t.i) ==> final(self).instance_seq() == old(self).instance_seq().push(t.i))
                    &&& forall|c: ChunkCoords| #[trigger] final(self).contents(c) == if c == t {
                        old(self).contents(c).insert(id)
                    } else {
                        old(self).contents(c)
                    }
                    &&& forall|i: InstanceID| i != t.i ==> #[trigger] final(self).cells_of(i) == old(self).cells_of(i)
                    &&& affected@.to_set() == final(self).around(t).remove(id)
                    &&& final(self).total_size() == old(self).total_size() + 1
                },
                None => {
                    &&& final(self).registry@ == old(self).registry@
                    &&& final(self).chunk_maps@ == old(self).chunk_maps@
                    &&& affected@.len() == 0
                },
            },
    {
        match to_chunk {
            None => Vec::new(),
            Some(coords) => {
                if 0 <= coords.x && coords.x < 128 && 0 <= coords.y && coords.y < 128 {
                    let ghost old_self = *self;
                    let k = self.init_instance(coords.i);
                    let ghost s0 = self.chunk_maps@;
                    let ghost mid = *self;
                    let r = self.visibility_range;
                    proof {
                        s0[k as int].map.lemma_wf(r as int);
                        assert(s0[k as int].map.cell(coords.x as int, coords.y as int) == s0[k as int].map.cells()[cell_index(coords.x as int, coords.y as int)]);
                        mid.lemma_has_instance(coords.i);
                        assert(mid.cells_of(coords.i) == s0[k as int].map.cells());
                        assert(mid.contents(coords) == s0[k as int].map.cell(coords.x as int, coords.y as int).contents());
                        lemma_grid_size_nonneg();
                        lemma_sum_grids_ge(s0, k as int, g_size());
                    }
                    let affected = self.chunk_maps[k].map.insert_entity(
                        coords.x as usize,
                        coords.y as usize,
                        id,
                        r,
                    );
                    self.registry[j].chunk = to_chunk;
                    proof {
                        let s1 = self.chunk_maps@;
                        let m1 = s1[k as int];
                        assert(s1 =~= s0.update(k as int, m1));
                        lemma_cells_of_update(s0, k as int, m1);
                        lemma_sum_grids_update(s0, k as int, m1, g_size());
                        assert forall|i: InstanceID| #[trigger] self.has_instance(i) == mid.has_instance(i) by {
                            self.lemma_has_instance(i);
                            mid.lemma_has_instance(i);
                        }
                        assert(self.instance_seq() =~= mid.instance_seq());
                        m1.map.lemma_wf(r as int);
                        assert forall|c: ChunkCoords| #[trigger] self.contents(c) == if c == coords {
                            old(self).contents(c).insert(id)
                        } else {
                            old(self).contents(c)
                        } by {
                            self.lemma_has_instance(c.i);
                            mid.lemma_has_instance(c.i);
                            if c.i == coords.i && in_grid(c.x as int, c.y as int) {
                                assert(m1.map.cell(c.x as int, c.y as int) == m1.map.cells()[cell_index(c.x as int, c.y as int)]);
                                assert(s0[k as int].map.cell(c.x as int, c.y as int) == s0[k as int].map.cells()[cell_index(c.x as int, c.y as int)]);
                            }
                            assert(mid.contents(c) == old(self).contents(c));
                        }
                        assert forall|i: InstanceID| i != coords.i implies #[trigger] self.cells_of(i) == old(self).cells_of(i) by {
                            assert(mid.cells_of(i) == old_self.cells_of(i) || !old_self.has_instance(i));
                            if !old_self.has_instance(i) {
                                old_self.lemma_has_instance(i);
                                mid.lemma_has_instance(i);
                            }
                        }
                        assert forall|jj: int|
                            0 <= jj < s1.len() implies #[trigger] s1[jj].map.wf(r as int) by {
                            if jj != k {
                                assert(s1[jj] == s0[jj]);
                            }
                        }
                        let rs = self.registry@;
                        assert(rs =~= old(self).registry@.update(j as int, RegistryEntry { chunk: to_chunk, ..old(self).registry@[j as int] }));
                        assert forall|a: int, b: int| 0 <= a < rs.len() && 0 <= b < rs.len() && a != b implies rs[a].id != rs[b].id by {
                            assert(rs[a].id == old_self.registry@[a].id);
                            assert(rs[b].id == old_self.registry@[b].id);
                        }
                        assert forall|l: int|
                            0 <= l < rs.len() implies match (#[trigger] rs[l]).chunk {
                                Some(c) => self.contents(c).contains(rs[l].id),
                                None => true,
                            } by {
                            if l != j {
                                assert(rs[l] == old_self.registry@[l]);
                            }
                        }
                        assert(self.cells_of(coords.i) == m1.map.cells());
                    }
                    affected
                } else {
                    Vec::new()
                }
            },
        }
    }
}


impl EntityMap {
    /// Whether instance `instance_id` should be cleaned up: it is a private
    /// instance with no players left.
    fn should_cleanup_instance(&self, instance_id: InstanceID) -> (b: bool)
        requires
            self.wf(),
            instance_id.instance_num is Some ==> self.has_instance(instance_id),
        ensures
            b == (instance_id.instance_num is Some && self.instance_players(instance_id) == 0),
    {
        if instance_id.instance_num.is_none() {
            return false;
        }
        proof {
            self.lemma_has_instance(instance_id);
        }
        let k = self.find_instance(instance_id).unwrap();
        let r = self.visibility_range;
        self.chunk_maps[k].map.get_player_count(Ghost(r as int)) == 0
    }

    /// Moves `id` to `to_chunk` (or out of every chunk, for `None`). A chunk
    /// off the grid places it nowhere. Returns `None` if `id` was already
    /// there; otherwise the entities that left and entered its sight, as
    /// sets. A private instance left without players by an entity leaving
    /// every chunk is marked for cleanup.
    pub fn update(&mut self, id: EntityID, to_chunk: Option<ChunkCoords>) -> (res: Option<(Vec<EntityID>, Vec<EntityID>)>)
        requires
            old(self).wf(),
            old(self).registry().dom().contains(id),
            old(self).registry()[id].0 != to_chunk ==> match on_grid(to_chunk) {
                Some(t) => !old(self).contents(t).contains(id) && (old(self).registry()[id].0 is None ==> old(self).total_size() < usize::MAX),
                None => true,
            },
        ensures
            final(self).wf(),
            final(self).range() == old(self).range(),
            final(self).channels() == old(self).channels(),
            final(self).entity_cleanup() == old(self).entity_cleanup(),
            final(self).next_pc() == old(self).next_pc(),
            final(self).next_npc() == old(self).next_npc(),
            final(self).next_slider() == old(self).next_slider(),
            final(self).next_egg() == old(self).next_egg(),
            ({
                let from = old(self).registry()[id].0;
                if from == to_chunk {
                    &&& res is None
                    &&& final(self).registry() == old(self).registry()
                    &&& final(self).same_grids(old(self))
                    &&& final(self).instance_cleanup() == old(self).instance_cleanup()
                } else {
                    let seen_before = match from {
                        Some(f) => old(self).around_without(f, id),
                        None => Set::<EntityID>::empty(),
                    };
                    let seen_after = match on_grid(to_chunk) {
                        Some(t) => final(self).around(t).remove(id),
                        None => Set::<EntityID>::empty(),
                    };
                    &&& res matches Some(p) && {
                        &&& p.0@.no_duplicates()
                        &&& p.1@.no_duplicates()
                        &&& p.0@.to_set() == seen_before.difference(seen_after)
                        &&& p.1@.to_set() == seen_after.difference(seen_before)
                    }
                    &&& final(self).moved(old(self), id, to_chunk)
                    &&& final(self).instance_seq() == if on_grid(to_chunk) is Some && !old(self).has_instance(on_grid(to_chunk).unwrap().i) {
                        old(self).instance_seq().push(on_grid(to_chunk).unwrap().i)
                    } else {
                        old(self).instance_seq()
                    }
                    &&& forall|i: InstanceID| #[trigger] final(self).has_instance(i) == (old(self).has_instance(i) || (on_grid(to_chunk) matches Some(t) && i == t.i))
                    &&& final(self).instance_cleanup() == if from matches Some(f) && to_chunk is None && f.i.instance_num is Some && final(self).instance_players(f.i) == 0 {
                        old(self).instance_cleanup().insert(from->0.i)
                    } else {
                        old(self).instance_cleanup()
                    }
                    &&& final(self).total_size() == old(self).total_size() + (if on_grid(to_chunk) is Some { 1int } else { 0int }) - (if from is Some { 1int } else { 0int })
                }
            }),
    {
        proof {
            lemma_reg_view(self.registry@);
        }
        let j = self.find_entry(id).unwrap();
        let from_chunk = self.registry[j].chunk;
        if from_chunk == to_chunk {
            return None;
        }
        let ghost s0 = *self;
        let around_from = self.remove_from_chunk(id, j);
        let ghost s1 = *self;
        proof {
            match from_chunk {
                Some(f) => {
                    match on_grid(to_chunk) {
                        Some(t) => {
                            assert(t != f);
                            assert(s1.contents(t) == s0.contents(t));
                        },
                        None => {},
                    }
                },
                None => {},
            }
        }
        let around_to = self.insert_into_chunk(id, j, to_chunk);
        let ghost s2 = *self;
        if let Some(coords) = from_chunk {
            if to_chunk.is_none() && self.should_cleanup_instance(coords.i) {
                push_unique_instance(&mut self.instances_to_cleanup, coords.i);
            }
        }
        let removed = difference(&around_from, &around_to);
        let added = difference(&around_to, &around_from);
        proof {
            lemma_reg_view(s2.registry@);
            let want = old(self).registry().insert(id, (on_grid(to_chunk), old(self).registry()[id].1));
            let rs = self.registry@;
            assert(rs == s2.registry@);
            assert forall|e: EntityID| #[trigger] self.registry().dom().contains(e) <==> want.dom().contains(e) by {
                if self.registry().dom().contains(e) {
                    let q = choose|q: int| 0 <= q < rs.len() && #[trigger] rs[q].id == e;
                    assert(old(self).registry@[q].id == e);
                }
                if old(self).registry().dom().contains(e) {
                    let q = choose|q: int| 0 <= q < old(self).registry@.len() && #[trigger] old(self).registry@[q].id == e;
                    assert(rs[q].id == e);
                }
            }
            assert forall|e: EntityID| #[trigger] self.registry().dom().contains(e) implies self.registry()[e] == want[e] by {
                let q = choose|q: int| 0 <= q < rs.len() && #[trigger] rs[q].id == e;
                assert(old(self).registry@[q].id == e);
                if q != j {
                    assert(rs[q] == old(self).registry@[q]);
                }
            }
            assert(self.registry() =~= want);
            assert forall|c: ChunkCoords| #[trigger] self.contents(c) == if Some(c) == on_grid(to_chunk) {
                old(self).contents(c).insert(id)
            } else if Some(c) == from_chunk {
                old(self).contents(c).remove(id)
            } else {
                old(self).contents(c)
            } by {
                assert(self.contents(c) == s2.contents(c));
                match from_chunk {
                    Some(f) => {
                        assert(s1.contents(c) == if c == f { s0.contents(c).remove(id) } else { s0.contents(c) });
                    },
                    None => {
                        assert(s1.chunk_maps@ == s0.chunk_maps@);
                        assert(s1.contents(c) == s0.contents(c));
                    },
                }
                match on_grid(to_chunk) {
                    Some(t) => {
                        assert(s2.contents(c) == if c == t { s1.contents(c).insert(id) } else { s1.contents(c) });
                    },
                    None => {
                        assert(s2.chunk_maps@ == s1.chunk_maps@);
                        assert(s2.contents(c) == s1.contents(c));
                    },
                }
            }
            match on_grid(to_chunk) {
                Some(t) => {
                    assert(s2.around(t) == self.around(t)) by {
                        self.lemma_has_instance(t.i);
                        s2.lemma_has_instance(t.i);
                    }
                },
                None => {},
            }
            match from_chunk {
                Some(f) => {
                    if to_chunk.is_none() {
                        assert(self.instance_players(f.i) == s2.instance_players(f.i));
                    }
                },
                None => {},
            }
        }
        Some((removed, added))
    }
}


impl EntityMap {
    /// The chunk at `coords`, if its instance has a grid and it lies on it.
    fn get_chunk(&self, coords: ChunkCoords) -> (c: Option<&Chunk>)
        requires
            self.wf(),
        ensures
            match c {
                Some(ch) => self.chunk_at(coords) == Some(*ch),
                None => self.chunk_at(coords) is None,
            },
    {
        if 0 <= coords.x && coords.x < 128 && 0 <= coords.y && coords.y < 128 {
            proof {
                self.lemma_has_instance(coords.i);
            }
            match self.find_instance(coords.i) {
                Some(k) => {
                    let r = self.visibility_range;
                    proof {
                        self.chunk_maps@[k as int].map.lemma_wf(r as int);
                    }
                    Some(self.chunk_maps[k].map.chunk_ref(coords.x as usize, coords.y as usize, Ghost(r as int)))
                },
                None => None,
            }
        } else {
            None
        }
    }

    /// The tracked entities that take part in ticks, each once.
    pub fn get_tickable_ids(&self) -> (ids: Vec<EntityID>)
        requires
            self.wf(),
        ensures
            ids@.no_duplicates(),
            forall|id: EntityID| #[trigger] ids@.contains(id) <==> (self.registry().dom().contains(id) && self.tickable(id)),
    {
        proof {
            lemma_reg_view(self.registry@);
        }
        let mut ids: Vec<EntityID> = Vec::new();
        let mut j: usize = 0;
        while j < self.registry.len()
            invariant
                0 <= j <= self.registry@.len(),
                self.wf(),
                ids@.no_duplicates(),
                forall|id: EntityID| #[trigger] ids@.contains(id) <==> exists|l: int| 0 <= l < j && #[trigger] self.registry@[l].id == id && self.tickable(id),
            decreases self.registry@.len() - j,
        {
            let entry = &self.registry[j];
            let ghost before = ids@;
            let tick = match entry.tick_mode {
                TickMode::Always => true,
                TickMode::Never => false,
                TickMode::WhenLoaded => match entry.chunk {
                    Some(coords) => match self.get_chunk(coords) {
                        Some(chunk) => chunk.is_loaded(),
                        None => false,
                    },
                    None => true,
                },
            };
            proof {
                lemma_reg_view(self.registry@);
                assert(self.registry()[entry.id] == (entry.chunk, entry.tick_mode));
                assert(tick == self.tickable(entry.id));
            }
            if tick {
                proof {
                    assert(!ids@.contains(entry.id)) by {
                        if ids@.contains(entry.id) {
                            let l = choose|l: int| 0 <= l < j && #[trigger] self.registry@[l].id == entry.id && self.tickable(entry.id);
                        }
                    }
                }
                ids.push(entry.id);
                proof {
                    assert forall|a: int, b: int| 0 <= a < ids@.len() && 0 <= b < ids@.len() && a != b implies ids@[a] != ids@[b] by {
                        if a == ids@.len() - 1 {
                            assert(before.contains(ids@[b]));
                        } else if b == ids@.len() - 1 {
                            assert(before.contains(ids@[a]));
                        }
                    }
                }
            }
            proof {
                let id0 = entry.id;
                assert(tick ==> ids@ == before.push(id0));
                assert(!tick ==> ids@ == before);
                assert forall|id: EntityID| #[trigger] ids@.contains(id) <==> exists|l: int| 0 <= l < j + 1 && #[trigger] self.registry@[l].id == id && self.tickable(id) by {
                    if exists|l: int| 0 <= l < j && #[trigger] self.registry@[l].id == id && self.tickable(id) {
                        assert(before.contains(id));
                        let q = choose|q: int| 0 <= q < before.len() && before[q] == id;
                        assert(ids@[q] == id);
                    }
                    if id == id0 && tick {
                        assert(ids@[ids@.len() - 1] == id);
                    }
                    if ids@.contains(id) {
                        let q = choose|q: int| 0 <= q < ids@.len() && ids@[q] == id;
                        if q < before.len() {
                            assert(before[q] == id);
                            assert(before.contains(id));
                        } else {
                            assert(id == id0);
                            assert(self.registry@[j as int].id == id);
                        }
                    }
                }
            }
            j = j + 1;
        }
        proof {
            assert forall|id: EntityID| #[trigger] ids@.contains(id) <==> (self.registry().dom().contains(id) && self.tickable(id)) by {
                if self.registry().dom().contains(id) && self.tickable(id) {
                    let l = choose|l: int| 0 <= l < self.registry@.len() && #[trigger] self.registry@[l].id == id;
                }
            }
        }
        ids
    }
}


/// Bounds `[lo, hi)` of the window of radius `r` around the (possibly
/// off-grid) coordinate `c`, clipped to `[0, 128]`.
fn clipped_window(c: i32, r: usize) -> (b: (usize, usize))
    ensures
        b.0 <= 128,
        b.1 <= 128,
        b.0 == if win_lo(c as int, r as int) > 128 { 128 } else { win_lo(c as int, r as int) },
        b.1 == if win_hi(c as int, r as int) < 0 { 0 } else { win_hi(c as int, r as int) },
{
    let rr: i64 = if (r as u64) > 1099511627776u64 { 1099511627776i64 } else { r as i64 };
    let lo: i64 = if (c as i64) - rr < 0 { 0 } else { (c as i64) - rr };
    let hi: i64 = if (c as i64) + rr + 1 > 128 { 128 } else { (c as i64) + rr + 1 };
    let lo2: i64 = if lo > 128 { 128 } else { lo };
    let hi2: i64 = if hi < 0 { 0 } else { hi };
    (lo2 as usize, hi2 as usize)
}

/// Clipping a window to `[0, 128]` does not change the entities in it.
proof fn lemma_clipped_region(s: Seq<Chunk>, xlo: int, xhi: int, ylo: int, yhi: int, x2lo: int, x2hi: int, y2lo: int, y2hi: int)
    requires
        xlo >= 0,
        xhi <= 128,
        ylo >= 0,
        yhi <= 128,
        x2lo == if xlo > 128 { 128 } else { xlo },
        x2hi == if xhi < 0 { 0 } else { xhi },
        y2lo == if ylo > 128 { 128 } else { ylo },
        y2hi == if yhi < 0 { 0 } else { yhi },
    ensures
        crate::chunk_map::region_ids(s, xlo, xhi, ylo, yhi) == crate::chunk_map::region_ids(s, x2lo, x2hi, y2lo, y2hi),
{
    assert(crate::chunk_map::region_ids(s, xlo, xhi, ylo, yhi) =~= crate::chunk_map::region_ids(s, x2lo, x2hi, y2lo, y2hi));
}

impl EntityMap {
    /// The entities in the chunks within sight of `coords`, each once.
    pub fn get_around_chunk(&self, coords: ChunkCoords) -> (ids: Vec<EntityID>)
        requires
            self.wf(),
        ensures
            ids@.no_duplicates(),
            ids@.to_set() == self.around(coords),
    {
        proof {
            self.lemma_has_instance(coords.i);
        }
        match self.find_instance(coords.i) {
            Some(k) => {
                let r = self.visibility_range;
                let (xlo, xhi) = clipped_window(coords.x, r);
                let (ylo, yhi) = clipped_window(coords.y, r);
                proof {
                    let cells = self.chunk_maps@[k as int].map.cells();
                    lemma_clipped_region(
                        cells,
                        win_lo(coords.x as int, r as int),
                        win_hi(coords.x as int, r as int),
                        win_lo(coords.y as int, r as int),
                        win_hi(coords.y as int, r as int),
                        xlo as int,
                        xhi as int,
                        ylo as int,
                        yhi as int,
                    );
                }
                self.chunk_maps[k].map.region_entities(xlo, xhi, ylo, yhi, Ghost(r as int))
            },
            None => {
                let ids: Vec<EntityID> = Vec::new();
                proof {
                    assert(ids@.to_set() =~= Set::<EntityID>::empty());
                }
                ids
            },
        }
    }

    /// The entities in the chunks within sight of `id`'s chunk, each once
    /// (none if `id` is not tracked or not placed).
    pub fn get_around_entity(&self, id: EntityID) -> (ids: Vec<EntityID>)
        requires
            self.wf(),
        ensures
            ids@.no_duplicates(),
            ids@.to_set() == if self.registry().dom().contains(id) && self.registry()[id].0 is Some {
                self.around(self.registry()[id].0->0)
            } else {
                Set::<EntityID>::empty()
            },
    {
        match self.get_entity_chunk(id) {
            Some(coords) => self.get_around_chunk(coords),
            None => {
                let ids: Vec<EntityID> = Vec::new();
                proof {
                    assert(ids@.to_set() =~= Set::<EntityID>::empty());
                }
                ids
            },
        }
    }

    /// The entities placed in instance `instance_id`, chunk by chunk (none if
    /// it has no grid).
    pub fn get_instance_ids(&self, instance_id: InstanceID) -> (ids: Vec<EntityID>)
        requires
            self.wf(),
        ensures
            ids@ == if self.has_instance(instance_id) {
                grid_members(self.cells_of(instance_id), 128)
            } else {
                Seq::<EntityID>::empty()
            },
            self.has_instance(instance_id) ==> ids@.to_set() == crate::chunk_map::region_ids(self.cells_of(instance_id), 0, 128, 0, 128),
    {
        proof {
            self.lemma_has_instance(instance_id);
        }
        match self.find_instance(instance_id) {
            Some(k) => {
                let r = self.visibility_range;
                proof {
                    crate::chunk_map::lemma_grid_members(self.chunk_maps@[k as int].map.cells(), 128);
                }
                self.chunk_maps[k].map.get_ids(Ghost(r as int))
            },
            None => Vec::new(),
        }
    }

    /// Number of instances with a grid.
    pub fn get_num_instances(&self) -> (n: usize)
        ensures
            n == self.instance_seq().len(),
    {
        self.chunk_maps.len()
    }

    /// Number of instances with a grid that are not private copies.
    pub fn get_num_base_instances(&self) -> (n: usize)
        ensures
            n == self.instance_seq().filter(|i: InstanceID| i.instance_num is None).len(),
    {
        let ghost ids = self.instance_seq();
        let ghost p = |i: InstanceID| i.instance_num is None;
        let mut n: usize = 0;
        let mut k: usize = 0;
        while k < self.chunk_maps.len()
            invariant
                0 <= k <= self.chunk_maps@.len(),
                ids == self.instance_seq(),
                ids.len() == self.chunk_maps@.len(),
                p == (|i: InstanceID| i.instance_num is None),
                n == ids.subrange(0, k as int).filter(p).len(),
                n <= k,
            decreases self.chunk_maps@.len() - k,
        {
            proof {
                assert(ids.subrange(0, k + 1) =~= ids.subrange(0, k as int).push(ids[k as int]));
                ids.subrange(0, k as int).lemma_filter_push(ids[k as int], p);
                assert(ids[k as int] == self.chunk_maps@[k as int].id);
            }
            let base = self.chunk_maps[k].id.instance_num.is_none();
            proof {
                assert(p(ids[k as int]) == base);
                if base {
                    assert(ids.subrange(0, k + 1).filter(p) == ids.subrange(0, k as int).filter(p).push(ids[k as int]));
                } else {
                    assert(ids.subrange(0, k + 1).filter(p) == ids.subrange(0, k as int).filter(p));
                }
            }
            if base {
                n = n + 1;
            }
            k = k + 1;
        }
        proof {
            assert(ids.subrange(0, k as int) =~= ids);
            assert(p == |i: InstanceID| i.instance_num is None);
        }
        n
    }

    /// Number of chunks over all instances with a grid.
    pub fn get_num_chunks(&self) -> (n: usize)
        requires
            self.instance_seq().len() * 16384 <= usize::MAX,
        ensures
            n == self.instance_seq().len() * 16384,
    {
        self.chunk_maps.len() * 16384
    }
}


impl EntityMap {
    proof fn lemma_sum_over_instances(
        &self,
        n: int,
        f: spec_fn(InstanceID, Seq<Chunk>) -> int,
        g: spec_fn(InstanceMap) -> int,
    )
        requires
            inst_unique(self.chunk_maps@),
            0 <= n <= self.chunk_maps@.len(),
            forall|m: InstanceMap| #[trigger] g(m) == f(m.id, m.map.cells()),
        ensures
            self.sum_over_instances(n, f) == sum_grids(self.chunk_maps@.subrange(0, n), g),
        decreases n,
    {
        let s = self.chunk_maps@;
        if n > 0 {
            self.lemma_sum_over_instances(n - 1, f, g);
            assert(s.subrange(0, n).drop_last() =~= s.subrange(0, n - 1));
            lemma_inst_index(s, n - 1);
            assert(self.instance_seq()[n - 1] == s[n - 1].id);
        } else {
            assert(s.subrange(0, n) =~= Seq::<InstanceMap>::empty());
        }
    }

    /// The number of channels the shard runs.
    pub fn num_channels(&self) -> (n: u8)
        ensures
            n == self.channels(),
    {
        self.num_channels
    }

    /// Number of chunks, over all instances, that some player sees.
    pub fn get_num_loaded_chunks(&self) -> (n: usize)
        requires
            self.wf(),
            self.instance_seq().len() * 16384 <= usize::MAX,
        ensures
            n == self.sum_over_instances(
                self.instance_seq().len() as int,
                |i: InstanceID, cells: Seq<Chunk>| grid_sum(cells, f_loaded()),
            ),
    {
        let ghost s = self.chunk_maps@;
        let ghost r = self.visibility_range as int;
        proof {
            assert forall|m: InstanceMap| #[trigger] g_loaded()(m) <= 16384 by {
                crate::chunk_map::lemma_grid_le_cells(m.map.cells(), f_loaded(), 128);
            }
            assert forall|m: InstanceMap| #[trigger] g_loaded()(m) >= 0 by {
                crate::grid::lemma_rect_nonneg(m.map.cells(), f_loaded(), 0, 128, 0, 128);
            }
        }
        let mut n: usize = 0;
        let mut k: usize = 0;
        while k < self.chunk_maps.len()
            invariant
                0 <= k <= s.len(),
                s == self.chunk_maps@,
                self.wf(),
                r == self.visibility_range,
                s.len() * 16384 <= usize::MAX,
                forall|m: InstanceMap| #[trigger] g_loaded()(m) <= 16384,
                n == sum_grids(s.subrange(0, k as int), g_loaded()),
            decreases s.len() - k,
        {
            proof {
                assert(s.subrange(0, k + 1).drop_last() =~= s.subrange(0, k as int));
                s[k as int].map.lemma_wf(r);
                lemma_sum_grids_bound(s.subrange(0, k + 1), g_loaded());
                assert(16384 * (k + 1) <= 16384 * s.len());
            }
            n = n + self.chunk_maps[k].map.loaded_chunk_count();
            k = k + 1;
        }
        proof {
            assert(s.subrange(0, k as int) =~= s);
            self.lemma_sum_over_instances(s.len() as int, |i: InstanceID, cells: Seq<Chunk>| grid_sum(cells, f_loaded()), g_loaded());
        }
        n
    }

    /// Number of entities, over all instances, in chunks that some player sees.
    pub fn get_num_loaded_entities(&self) -> (n: usize)
        requires
            self.wf(),
        ensures
            n == self.sum_over_instances(
                self.instance_seq().len() as int,
                |i: InstanceID, cells: Seq<Chunk>| grid_sum(cells, f_loaded_size()),
            ),
    {
        let ghost s = self.chunk_maps@;
        let ghost r = self.visibility_range as int;
        proof {
            assert forall|c: Chunk| #[trigger] f_loaded_size()(c) >= 0 by {
                crate::chunk_map::lemma_players_le_size(c);
            }
            assert forall|m: InstanceMap| #[trigger] g_loaded_size()(m) >= 0 by {
                crate::grid::lemma_rect_nonneg(m.map.cells(), f_loaded_size(), 0, 128, 0, 128);
            }
            assert forall|m: InstanceMap| #[trigger] g_loaded_size()(m) <= g_size()(m) by {
                let cells = m.map.cells();
                assert forall|aa: int, bb: int| 0 <= aa < 128 && 0 <= bb < 128 implies
                    #[trigger] f_loaded_size()(cells[cell_index(aa, bb)]) <= f_size()(cells[cell_index(aa, bb)]) by {
                    crate::chunk_map::lemma_players_le_size(cells[cell_index(aa, bb)]);
                }
                crate::grid::lemma_rect_le(cells, f_loaded_size(), f_size(), 0, 128, 0, 128);
            }
            lemma_sum_grids_le(s, g_loaded_size(), g_size());
        }
        let mut n: usize = 0;
        let mut k: usize = 0;
        while k < self.chunk_maps.len()
            invariant
                0 <= k <= s.len(),
                s == self.chunk_maps@,
                self.wf(),
                r == self.visibility_range,
                forall|m: InstanceMap| #[trigger] g_loaded_size()(m) >= 0,
                sum_grids(s, g_loaded_size()) <= usize::MAX,
                n == sum_grids(s.subrange(0, k as int), g_loaded_size()),
            decreases s.len() - k,
        {
            proof {
                assert(s.subrange(0, k + 1).drop_last() =~= s.subrange(0, k as int));
                s[k as int].map.lemma_wf(r);
                lemma_sum_grids_prefix_le(s, k + 1, g_loaded_size());
            }
            n = n + self.chunk_maps[k].map.loaded_entity_count();
            k = k + 1;
        }
        proof {
            assert(s.subrange(0, k as int) =~= s);
            self.lemma_sum_over_instances(s.len() as int, |i: InstanceID, cells: Seq<Chunk>| grid_sum(cells, f_loaded_size()), g_loaded_size());
        }
        n
    }

    /// Number of players in the instances of channel `channel_num`.
    pub fn get_channel_population(&self, channel_num: u8) -> (n: usize)
        requires
            self.wf(),
        ensures
            n == self.channel_population(channel_num),
    {
        let ghost s = self.chunk_maps@;
        let ghost r = self.visibility_range as int;
        let ghost g = |m: InstanceMap| if m.id.channel_num == channel_num {
            grid_sum(m.map.cells(), f_players())
        } else {
            0
        };
        proof {
            assert forall|m: InstanceMap| #[trigger] g(m) >= 0 by {
                assert forall|c: Chunk| #[trigger] f_players()(c) >= 0 by {
                    crate::chunk_map::lemma_players_le_size(c);
                }
                crate::grid::lemma_rect_nonneg(m.map.cells(), f_players(), 0, 128, 0, 128);
            }
            assert forall|m: InstanceMap| #[trigger] g(m) <= g_size()(m) by {
                let cells = m.map.cells();
                assert forall|aa: int, bb: int| 0 <= aa < 128 && 0 <= bb < 128 implies
                    #[trigger] f_players()(cells[cell_index(aa, bb)]) <= f_size()(cells[cell_index(aa, bb)]) by {
                    crate::chunk_map::lemma_players_le_size(cells[cell_index(aa, bb)]);
                }
                crate::grid::lemma_rect_le(cells, f_players(), f_size(), 0, 128, 0, 128);
                crate::chunk_map::lemma_size_nonneg();
                crate::grid::lemma_rect_nonneg(cells, f_size(), 0, 128, 0, 128);
            }
            lemma_sum_grids_le(s, g, g_size());
        }
        let mut n: usize = 0;
        let mut k: usize = 0;
        while k < self.chunk_maps.len()
            invariant
                0 <= k <= s.len(),
                s == self.chunk_maps@,
                self.wf(),
                r == self.visibility_range,
                g == (|m: InstanceMap| if m.id.channel_num == channel_num {
                    grid_sum(m.map.cells(), f_players())
                } else {
                    0
                }),
                forall|m: InstanceMap| #[trigger] g(m) >= 0,
                sum_grids(s, g) <= usize::MAX,
                n == sum_grids(s.subrange(0, k as int), g),
            decreases s.len() - k,
        {
            proof {
                assert(s.subrange(0, k + 1).drop_last() =~= s.subrange(0, k as int));
                s[k as int].map.lemma_wf(r);
                lemma_sum_grids_prefix_le(s, k + 1, g);
            }
            if self.chunk_maps[k].id.channel_num == channel_num {
                n = n + self.chunk_maps[k].map.get_player_count(Ghost(r));
            }
            k = k + 1;
        }
        proof {
            assert(s.subrange(0, k as int) =~= s);
            self.lemma_sum_over_instances(
                s.len() as int,
                |i: InstanceID, cells: Seq<Chunk>| if i.channel_num == channel_num {
                    grid_sum(cells, f_players())
                } else {
                    0
                },
                g,
            );
        }
        n
    }

    /// The channel, among `1 ..= channels()`, with the fewest players; the
    /// lowest such channel on a tie.
    pub fn get_min_pop_channel_num(&self) -> (ch: u8)
        requires
            self.wf(),
            self.channels() >= 1,
        ensures
            1 <= ch <= self.channels(),
            forall|c: u8| 1 <= c <= self.channels() ==> self.channel_population(ch) <= #[trigger] self.channel_population(c),
            forall|c: u8| 1 <= c < ch ==> self.channel_population(ch) < #[trigger] self.channel_population(c),
    {
        let n = self.num_channels;
        let mut best: u8 = 1;
        let mut best_pop = self.get_channel_population(1);
        let mut c: u16 = 2;
        while c <= n as u16
            invariant
                2 <= c,
                c <= n + 1,
                n == self.num_channels,
                self.wf(),
                1 <= best < c,
                best_pop == self.channel_population(best),
                forall|d: u8| 1 <= d < c ==> best_pop <= #[trigger] self.channel_population(d),
                forall|d: u8| 1 <= d < best ==> best_pop < #[trigger] self.channel_population(d),
            decreases n + 1 - c,
        {
            let pop = self.get_channel_population(c as u8);
            if pop < best_pop {
                best = c as u8;
                best_pop = pop;
            }
            c = c + 1;
        }
        best
    }
}


impl EntityMap {
    /// Stops tracking the entities of `ids` one by one.
    fn untrack_all(&mut self, ids: &Vec<EntityID>)
        requires
            old(self).wf(),
            ids@.no_duplicates(),
            forall|e: EntityID| ids@.contains(e) ==> old(self).registry().dom().contains(e),
        ensures
            final(self).wf(),
            final(self).registry() == old(self).registry().remove_keys(ids@.to_set()),
            final(self).same_grids(old(self)),
            final(self).total_size() == old(self).total_size(),
            final(self).same_bookkeeping(old(self)),
    {
        let mut k: usize = 0;
        while k < ids.len()
            invariant
                0 <= k <= ids@.len(),
                self.wf(),
                ids@.no_duplicates(),
                forall|e: EntityID| ids@.contains(e) ==> old(self).registry().dom().contains(e),
                self.registry() == old(self).registry().remove_keys(ids@.subrange(0, k as int).to_set()),
                self.same_grids(old(self)),
                self.total_size() == old(self).total_size(),
                self.same_bookkeeping(old(self)),
            decreases ids@.len() - k,
        {
            let id = ids[k];
            proof {
                assert(ids@.contains(id));
                assert(!ids@.subrange(0, k as int).to_set().contains(id)) by {
                    if ids@.subrange(0, k as int).contains(id) {
                        let q = choose|q: int| 0 <= q < k && ids@.subrange(0, k as int)[q] == id;
                        assert(ids@[q] == ids@[k as int]);
                    }
                }
            }
            self.untrack(id);
            proof {
                assert(ids@.subrange(0, k + 1) =~= ids@.subrange(0, k as int).push(id));
                ids@.subrange(0, k as int).lemma_push_to_set_commute(id);
                assert(self.registry() =~= old(self).registry().remove_keys(ids@.subrange(0, k + 1).to_set()));
            }
            k = k + 1;
        }
        proof {
            assert(ids@.subrange(0, k as int) =~= ids@);
        }
    }

    /// Untracks every entity placed in instance `instance_id` and drops its
    /// grid. Returns the entities untracked.
    fn cleanup_instance(&mut self, instance_id: InstanceID) -> (ids: Vec<EntityID>)
        requires
            old(self).wf(),
            old(self).instance_members(instance_id).no_duplicates(),
            forall|e: EntityID| old(self).instance_members(instance_id).contains(e) ==> old(self).registry().dom().contains(e),
        ensures
            final(self).wf(),
            ids@ == old(self).instance_members(instance_id),
            final(self).registry() == old(self).registry().remove_keys(ids@.to_set()),
            forall|i: InstanceID| #[trigger] final(self).has_instance(i) == (old(self).has_instance(i) && i != instance_id),
            forall|i: InstanceID| i != instance_id ==> #[trigger] final(self).cells_of(i) == old(self).cells_of(i),
            final(self).same_bookkeeping(old(self)),
            final(self).total_size() <= old(self).total_size(),
    {
        let ids = self.get_instance_ids(instance_id);
        self.untrack_all(&ids);
        let ghost mid = *self;
        proof {
            self.lemma_has_instance(instance_id);
        }
        match self.find_instance(instance_id) {
            Some(k) => {
                let ghost s0 = self.chunk_maps@;
                let ghost old_self = *self;
                proof {
                    lemma_cells_of_remove(s0, k as int);
                    lemma_sum_grids_remove(s0, k as int, g_size());
                    lemma_grid_size_nonneg();
                    lemma_sum_grids_ge(s0, k as int, g_size());
                    crate::chunk_map::lemma_grid_members(s0[k as int].map.cells(), 128);
                }
                self.chunk_maps.remove(k);
                proof {
                    let s1 = self.chunk_maps@;
                    assert forall|i: InstanceID| #[trigger] self.has_instance(i) == (old(self).has_instance(i) && i != instance_id) by {
                        self.lemma_has_instance(i);
                        old_self.lemma_has_instance(i);
                    }
                    assert forall|i: InstanceID| i != instance_id implies #[trigger] self.cells_of(i) == old(self).cells_of(i) by {
                        assert(seq_cells_of(s1, i) == seq_cells_of(s0, i));
                        assert(mid.cells_of(i) == old(self).cells_of(i));
                    }
                    assert forall|jj: int| 0 <= jj < s1.len() implies #[trigger] s1[jj].map.wf(self.visibility_range as int) by {
                        let j0 = if jj < k { jj } else { jj + 1 };
                        assert(s1[jj] == s0[j0]);
                    }
                    let rs = self.registry@;
                    lemma_reg_view(rs);
                    assert forall|l: int| 0 <= l < rs.len() implies match (#[trigger] rs[l]).chunk {
                        Some(c) => self.contents(c).contains(rs[l].id),
                        None => true,
                    } by {
                        match rs[l].chunk {
                            Some(c) => {
                                assert(old_self.contents(c).contains(rs[l].id));
                                old_self.lemma_has_instance(c.i);
                                self.lemma_has_instance(c.i);
                                if c.i == instance_id {
                                    let cells = s0[k as int].map.cells();
                                    s0[k as int].map.lemma_wf(self.visibility_range as int);
                                    assert(crate::chunk_map::region_ids(cells, 0, 128, 0, 128).contains(rs[l].id)) by {
                                        assert(cells[cell_index(c.x as int, c.y as int)].contents().contains(rs[l].id));
                                    }
                                    assert(ids@.to_set().contains(rs[l].id));
                                    assert(self.registry().dom().contains(rs[l].id));
                                    assert(false);
                                }
                            },
                            None => {},
                        }
                    }
                }
            },
            None => {},
        }
        ids
    }
}


/// A copy of `v`.
fn copy_instances(v: &Vec<InstanceID>) -> (c: Vec<InstanceID>)
    ensures
        c@ == v@,
{
    let mut c: Vec<InstanceID> = Vec::new();
    let mut k: usize = 0;
    while k < v.len()
        invariant
            0 <= k <= v@.len(),
            c@ == v@.subrange(0, k as int),
        decreases v@.len() - k,
    {
        c.push(v[k]);
        proof {
            assert(v@.subrange(0, k + 1) =~= v@.subrange(0, k as int).push(v@[k as int]));
        }
        k = k + 1;
    }
    proof {
        assert(v@.subrange(0, k as int) =~= v@);
    }
    c
}

/// A copy of `v`.
fn copy_ids(v: &Vec<EntityID>) -> (c: Vec<EntityID>)
    ensures
        c@ == v@,
{
    let mut c: Vec<EntityID> = Vec::new();
    let mut k: usize = 0;
    while k < v.len()
        invariant
            0 <= k <= v@.len(),
            c@ == v@.subrange(0, k as int),
        decreases v@.len() - k,
    {
        c.push(v[k]);
        proof {
            assert(v@.subrange(0, k + 1) =~= v@.subrange(0, k as int).push(v@[k as int]));
        }
        k = k + 1;
    }
    proof {
        assert(v@.subrange(0, k as int) =~= v@);
    }
    c
}

impl EntityMap {
    /// Untracks every entity marked for cleanup. Returns them, each once.
    pub fn garbage_collect_entities(&mut self) -> (ids: Vec<EntityID>)
        requires
            old(self).wf(),
            forall|e: EntityID| old(self).entity_cleanup().contains(e) ==> old(self).registry().dom().contains(e),
        ensures
            final(self).wf(),
            ids@.no_duplicates(),
            ids@.to_set() == old(self).entity_cleanup(),
            final(self).registry() == old(self).registry().remove_keys(old(self).entity_cleanup()),
            final(self).entity_cleanup() == Set::<EntityID>::empty(),
            final(self).same_grids(old(self)),
            final(self).total_size() == old(self).total_size(),
            final(self).instance_cleanup() == old(self).instance_cleanup(),
            final(self).next_pc() == old(self).next_pc(),
            final(self).next_npc() == old(self).next_npc(),
            final(self).next_slider() == old(self).next_slider(),
            final(self).next_egg() == old(self).next_egg(),
            final(self).range() == old(self).range(),
            final(self).channels() == old(self).channels(),
    {
        let ids = copy_ids(&self.entities_to_cleanup);
        proof {
            assert forall|e: EntityID| ids@.contains(e) implies old(self).registry().dom().contains(e) by {
                assert(old(self).entity_cleanup().contains(e));
            }
        }
        self.untrack_all(&ids);
        let ghost mid = *self;
        self.entities_to_cleanup.clear();
        proof {
            assert(self.entity_cleanup() =~= Set::<EntityID>::empty());
            assert(self.chunk_maps@ == mid.chunk_maps@);
            assert forall|i: InstanceID| #[trigger] self.cells_of(i) == old(self).cells_of(i) by {
                assert(self.cells_of(i) == mid.cells_of(i));
            }
            assert(self.same_grids(old(self)));
        }
        ids
    }

    /// Cleans up every instance marked for cleanup: untracks the entities
    /// placed in it and drops its grid. Returns the entities untracked.
    pub fn garbage_collect_instances(&mut self) -> (ids: Vec<EntityID>)
        requires
            old(self).wf(),
            forall|i: InstanceID| #[trigger] old(self).instance_cleanup().contains(i) ==> old(self).instance_members(i).no_duplicates(),
            forall|i: InstanceID, e: EntityID| #[trigger] old(self).instance_cleanup().contains(i) && #[trigger] old(self).instance_members(i).contains(e) ==> old(self).registry().dom().contains(e),
            forall|i1: InstanceID, i2: InstanceID, e: EntityID|
                #[trigger] old(self).instance_cleanup().contains(i1) && #[trigger] old(self).instance_cleanup().contains(i2) && i1 != i2
                && #[trigger] old(self).instance_members(i1).contains(e) ==> !old(self).instance_members(i2).contains(e),
        ensures
            final(self).wf(),
            ids@.no_duplicates(),
            forall|e: EntityID| #[trigger] ids@.contains(e) <==> exists|i: InstanceID| #[trigger] old(self).instance_cleanup().contains(i) && old(self).instance_members(i).contains(e),
            final(self).registry() == old(self).registry().remove_keys(ids@.to_set()),
            forall|i: InstanceID| #[trigger] final(self).has_instance(i) == (old(self).has_instance(i) && !old(self).instance_cleanup().contains(i)),
            forall|i: InstanceID| !old(self).instance_cleanup().contains(i) ==> #[trigger] final(self).cells_of(i) == old(self).cells_of(i),
            final(self).instance_cleanup() == Set::<InstanceID>::empty(),
            final(self).entity_cleanup() == old(self).entity_cleanup(),
            final(self).next_pc() == old(self).next_pc(),
            final(self).next_npc() == old(self).next_npc(),
            final(self).next_slider() == old(self).next_slider(),
            final(self).next_egg() == old(self).next_egg(),
            final(self).range() == old(self).range(),
            final(self).channels() == old(self).channels(),
            final(self).total_size() <= old(self).total_size(),
    {
        let todo = copy_instances(&self.instances_to_cleanup);
        let ghost cleanup = old(self).instance_cleanup();
        let mut ids: Vec<EntityID> = Vec::new();
        let mut k: usize = 0;
        while k < todo.len()
            invariant
                0 <= k <= todo@.len(),
                todo@ == old(self).instances_to_cleanup@,
                todo@.no_duplicates(),
                cleanup == todo@.to_set(),
                self.wf(),
                self.same_bookkeeping(old(self)),
                self.total_size() <= old(self).total_size(),
                forall|i: InstanceID| #[trigger] old(self).instance_cleanup().contains(i) ==> old(self).instance_members(i).no_duplicates(),
                forall|i: InstanceID, e: EntityID| #[trigger] old(self).instance_cleanup().contains(i) && #[trigger] old(self).instance_members(i).contains(e) ==> old(self).registry().dom().contains(e),
                forall|i1: InstanceID, i2: InstanceID, e: EntityID|
                    #[trigger] old(self).instance_cleanup().contains(i1) && #[trigger] old(self).instance_cleanup().contains(i2) && i1 != i2
                    && #[trigger] old(self).instance_members(i1).contains(e) ==> !old(self).instance_members(i2).contains(e),
                ids@.no_duplicates(),
                forall|e: EntityID| #[trigger] ids@.contains(e) <==> exists|l: int| 0 <= l < k && #[trigger] old(self).instance_members(todo@[l]).contains(e),
                self.registry() == old(self).registry().remove_keys(ids@.to_set()),
                forall|i: InstanceID| #[trigger] self.has_instance(i) == (old(self).has_instance(i) && !todo@.subrange(0, k as int).contains(i)),
                forall|i: InstanceID| !todo@.subrange(0, k as int).contains(i) ==> #[trigger] self.cells_of(i) == old(self).cells_of(i),
            decreases todo@.len() - k,
        {
            let inst = todo[k];
            let ghost before = *self;
            let ghost ids0 = ids@;
            proof {
                assert(cleanup.contains(inst));
                assert(!todo@.subrange(0, k as int).contains(inst)) by {
                    if todo@.subrange(0, k as int).contains(inst) {
                        let q = choose|q: int| 0 <= q < k && #[trigger] todo@.subrange(0, k as int)[q] == inst;
                        assert(todo@[q] == todo@[k as int]);
                    }
                }
                assert(self.cells_of(inst) == old(self).cells_of(inst));
                assert(self.has_instance(inst) == old(self).has_instance(inst));
                assert(self.instance_members(inst) == old(self).instance_members(inst));
                assert forall|e: EntityID| self.instance_members(inst).contains(e) implies self.registry().dom().contains(e) by {
                    assert(old(self).instance_members(inst).contains(e));
                    assert(old(self).registry().dom().contains(e));
                    if ids@.to_set().contains(e) {
                        let l = choose|l: int| 0 <= l < k && #[trigger] old(self).instance_members(todo@[l]).contains(e);
                        assert(todo@[l] != inst);
                        assert(cleanup.contains(todo@[l]));
                    }
                }
            }
            let got = self.cleanup_instance(inst);
            let mut q: usize = 0;
            while q < got.len()
                invariant
                    0 <= q <= got@.len(),
                    got@.no_duplicates(),
                    ids@.no_duplicates(),
                    forall|e: EntityID| #[trigger] ids@.contains(e) <==> (ids0.contains(e) || got@.subrange(0, q as int).contains(e)),
                    forall|e: EntityID| got@.contains(e) ==> !ids0.contains(e),
                decreases got@.len() - q,
            {
                let e = got[q];
                let ghost prev = ids@;
                proof {
                    assert(!ids@.contains(e)) by {
                        if ids@.contains(e) {
                            if got@.subrange(0, q as int).contains(e) {
                                let w = choose|w: int| 0 <= w < q && #[trigger] got@.subrange(0, q as int)[w] == e;
                                assert(got@[w] == got@[q as int]);
                            }
                            assert(got@.contains(e));
                        }
                    }
                }
                ids.push(e);
                proof {
                    assert forall|a: int, b: int| 0 <= a < ids@.len() && 0 <= b < ids@.len() && a != b implies ids@[a] != ids@[b] by {
                        if a == ids@.len() - 1 {
                            assert(prev.contains(ids@[b]));
                        } else if b == ids@.len() - 1 {
                            assert(prev.contains(ids@[a]));
                        }
                    }
                    assert(got@.subrange(0, q + 1) =~= got@.subrange(0, q as int).push(e));
                    assert forall|e2: EntityID| #[trigger] ids@.contains(e2) <==> (ids0.contains(e2) || got@.subrange(0, q + 1).contains(e2)) by {
                        if ids@.contains(e2) && e2 != e {
                            let w = choose|w: int| 0 <= w < ids@.len() && #[trigger] ids@[w] == e2;
                            assert(prev[w] == e2);
                            assert(prev.contains(e2));
                        }
                        if e2 == e {
                            assert(ids@[ids@.len() - 1] == e2);
                            assert(got@.subrange(0, q + 1)[q as int] == e2);
                        }
                        if got@.subrange(0, q + 1).contains(e2) && e2 != e {
                            let w = choose|w: int| 0 <= w < q + 1 && #[trigger] got@.subrange(0, q + 1)[w] == e2;
                            assert(got@.subrange(0, q as int)[w] == e2);
                            assert(prev.contains(e2));
                            let w2 = choose|w2: int| 0 <= w2 < prev.len() && #[trigger] prev[w2] == e2;
                            assert(ids@[w2] == e2);
                        }
                        if ids0.contains(e2) {
                            assert(prev.contains(e2));
                            let w2 = choose|w2: int| 0 <= w2 < prev.len() && #[trigger] prev[w2] == e2;
                            assert(ids@[w2] == e2);
                        }
                    }
                }
                q = q + 1;
            }
            proof {
                assert(got@.subrange(0, q as int) =~= got@);
                assert(todo@.subrange(0, k + 1) =~= todo@.subrange(0, k as int).push(inst));
                assert forall|e: EntityID| #[trigger] ids@.contains(e) <==> exists|l: int| 0 <= l < k + 1 && #[trigger] old(self).instance_members(todo@[l]).contains(e) by {
                    if ids@.contains(e) {
                        if ids0.contains(e) {
                            let l = choose|l: int| 0 <= l < k && #[trigger] old(self).instance_members(todo@[l]).contains(e);
                        } else {
                            assert(old(self).instance_members(todo@[k as int]).contains(e));
                        }
                    }
                    if exists|l: int| 0 <= l < k + 1 && #[trigger] old(self).instance_members(todo@[l]).contains(e) {
                        let l = choose|l: int| 0 <= l < k + 1 && #[trigger] old(self).instance_members(todo@[l]).contains(e);
                        if l == k {
                            assert(got@.contains(e));
                        } else {
                            assert(ids0.contains(e));
                        }
                    }
                }
                assert(ids@.to_set() =~= ids0.to_set() + got@.to_set());
                assert(self.registry() =~= old(self).registry().remove_keys(ids@.to_set()));
                assert forall|i: InstanceID| #[trigger] self.has_instance(i) == (old(self).has_instance(i) && !todo@.subrange(0, k + 1).contains(i)) by {
                    assert(todo@.subrange(0, k + 1).contains(i) == (todo@.subrange(0, k as int).contains(i) || i == inst)) by {
                        if todo@.subrange(0, k + 1).contains(i) {
                            let w = choose|w: int| 0 <= w < k + 1 && #[trigger] todo@.subrange(0, k + 1)[w] == i;
                            if w < k {
                                assert(todo@.subrange(0, k as int)[w] == i);
                            }
                        }
                        if todo@.subrange(0, k as int).contains(i) {
                            let w = choose|w: int| 0 <= w < k && #[trigger] todo@.subrange(0, k as int)[w] == i;
                            assert(todo@.subrange(0, k + 1)[w] == i);
                        }
                        if i == inst {
                            assert(todo@.subrange(0, k + 1)[k as int] == i);
                        }
                    }
                }
                assert forall|i: InstanceID| !todo@.subrange(0, k + 1).contains(i) implies #[trigger] self.cells_of(i) == old(self).cells_of(i) by {
                    assert(!todo@.subrange(0, k as int).contains(i)) by {
                        if todo@.subrange(0, k as int).contains(i) {
                            let w = choose|w: int| 0 <= w < k && #[trigger] todo@.subrange(0, k as int)[w] == i;
                            assert(todo@.subrange(0, k + 1)[w] == i);
                        }
                    }
                    assert(i != inst) by {
                        if i == inst {
                            assert(todo@.subrange(0, k + 1)[k as int] == i);
                        }
                    }
                    assert(before.cells_of(i) == old(self).cells_of(i));
                }
            }
            k = k + 1;
        }
        let ghost mid = *self;
        self.instances_to_cleanup.clear();
        proof {
            assert(todo@.subrange(0, k as int) =~= todo@);
            assert(self.chunk_maps@ == mid.chunk_maps@);
            assert(self.instance_cleanup() =~= Set::<InstanceID>::empty());
            assert forall|e: EntityID| #[trigger] ids@.contains(e) <==> exists|i: InstanceID| #[trigger] old(self).instance_cleanup().contains(i) && old(self).instance_members(i).contains(e) by {
                if ids@.contains(e) {
                    let l = choose|l: int| 0 <= l < k && #[trigger] old(self).instance_members(todo@[l]).contains(e);
                    assert(cleanup.contains(todo@[l]));
                }
                if exists|i: InstanceID| #[trigger] old(self).instance_cleanup().contains(i) && old(self).instance_members(i).contains(e) {
                    let i = choose|i: InstanceID| #[trigger] old(self).instance_cleanup().contains(i) && old(self).instance_members(i).contains(e);
                    assert(todo@.contains(i));
                    let l = choose|l: int| 0 <= l < todo@.len() && #[trigger] todo@[l] == i;
                    assert(old(self).instance_members(todo@[l]).contains(e));
                }
            }
            assert forall|i: InstanceID| #[trigger] self.has_instance(i) == (old(self).has_instance(i) && !old(self).instance_cleanup().contains(i)) by {
                assert(todo@.to_set().contains(i) == todo@.contains(i));
                assert(self.has_instance(i) == mid.has_instance(i));
            }
            assert forall|i: InstanceID| !old(self).instance_cleanup().contains(i) implies #[trigger] self.cells_of(i) == old(self).cells_of(i) by {
                assert(todo@.to_set().contains(i) == todo@.contains(i));
                assert(self.cells_of(i) == mid.cells_of(i));
            }
        }
        ids
    }
}

impl Default for EntityMap {
    /// An empty map for a shard at its default settings: players see one
    /// chunk in each direction, and the shard runs one channel.
    fn default() -> (m: Self)
        ensures
            m.wf(),
            m.registry() == Map::<EntityID, (Option<ChunkCoords>, TickMode)>::empty(),
            m.instance_seq() == Seq::<InstanceID>::empty(),
            m.instance_cleanup() == Set::<InstanceID>::empty(),
            m.entity_cleanup() == Set::<EntityID>::empty(),
            m.next_pc() == 1,
            m.next_npc() == 1,
            m.next_slider() == 1,
            m.next_egg() == 1,
            m.range() == 1,
            m.channels() == 1,
            m.total_size() == 0,
    {
        EntityMap::new(1, 1)
    }
}

/// Number of players in a chunk, counted over its contents.
pub open spec fn f_player_ids() -> spec_fn(Chunk) -> int {
    |ch: Chunk| players_of(ch.contents()).len() as int
}

impl EntityMap {
    /// Number of players in the chunks within sight of `c`, counted over
    /// their contents (none if its instance has no grid).
    pub open spec fn players_in_sight(&self, c: ChunkCoords) -> int {
        if self.has_instance(c.i) {
            window_sum(self.cells_of(c.i), f_player_ids(), c.x as int, c.y as int, self.range())
        } else {
            0
        }
    }

    /// Some chunk of `c`'s instance within sight of `c` holds a player.
    pub open spec fn player_in_sight(&self, c: ChunkCoords) -> bool {
        exists|p: ChunkCoords, e: EntityID|
            p.i == c.i && in_grid(p.x as int, p.y as int) && in_window(
                c.x as int,
                c.y as int,
                self.range(),
                p.x as int,
                p.y as int,
            ) && #[trigger] self.contents(p).contains(e) && e is Player
    }

    /// What a well-formed map guarantees of the grid of instance `i`.
    proof fn lemma_cells_wf(&self, i: InstanceID)
        requires
            self.wf(),
            self.has_instance(i),
        ensures
            self.range() >= 0,
            self.cells_of(i).len() == GRID_CELLS,
            forall|k: int| 0 <= k < GRID_CELLS ==> #[trigger] self.cells_of(i)[k].wf(),
            forall|a: int, b: int|
                #![trigger self.cells_of(i)[cell_index(a, b)]]
                in_grid(a, b) ==> self.cells_of(i)[cell_index(a, b)].loads() == window_sum(
                    self.cells_of(i),
                    f_players(),
                    a,
                    b,
                    self.range(),
                ),
            forall|p: ChunkCoords|
                p.i == i && in_grid(p.x as int, p.y as int) ==> #[trigger] self.contents(p)
                    == self.cells_of(i)[cell_index(p.x as int, p.y as int)].contents(),
    {
        self.lemma_has_instance(i);
        let s = self.chunk_maps@;
        let k = inst_index(s, i);
        let m = s[k].map;
        assert(m.wf(self.visibility_range as int));
        m.lemma_wf(self.visibility_range as int);
        assert(self.cells_of(i) == m.cells());
        assert forall|a: int, b: int| in_grid(a, b) implies #[trigger] self.cells_of(i)[cell_index(a, b)].loads()
            == window_sum(self.cells_of(i), f_players(), a, b, self.range()) by {
            assert(m.cell(a, b) == m.cells()[cell_index(a, b)]);
        }
    }

    /// The load count of a chunk on the grid is the number of players within
    /// sight of it: each player loads every chunk within the visibility range
    /// of its own, and nothing else does.
    pub proof fn lemma_loads_are_players_in_sight(&self, c: ChunkCoords)
        requires
            self.wf(),
            in_grid(c.x as int, c.y as int),
        ensures
            self.loads(c) == self.players_in_sight(c),
    {
        if self.has_instance(c.i) {
            self.lemma_cells_wf(c.i);
            let cells = self.cells_of(c.i);
            let r = self.range();
            let (xlo, xhi, ylo, yhi) = (win_lo(c.x as int, r), win_hi(c.x as int, r), win_lo(c.y as int, r), win_hi(c.y as int, r));
            assert forall|x: int, y: int| xlo <= x < xhi && ylo <= y < yhi implies
                f_players()(cells[cell_index(x, y)]) <= f_player_ids()(cells[cell_index(x, y)])
                && f_player_ids()(cells[cell_index(x, y)]) <= f_players()(cells[cell_index(x, y)]) by {
                crate::grid::lemma_cell_index(x, y);
                assert(cells[cell_index(x, y)].wf());
                cells[cell_index(x, y)].lemma_players();
            }
            crate::grid::lemma_rect_le(cells, f_players(), f_player_ids(), xlo, xhi, ylo, yhi);
            crate::grid::lemma_rect_le(cells, f_player_ids(), f_players(), xlo, xhi, ylo, yhi);
            assert(cells[cell_index(c.x as int, c.y as int)].loads() == window_sum(cells, f_players(), c.x as int, c.y as int, r));
        }
    }

    /// A chunk on the grid is loaded exactly when some chunk within sight of
    /// it holds a player.
    pub proof fn lemma_loaded_iff_player_in_sight(&self, c: ChunkCoords)
        requires
            self.wf(),
            in_grid(c.x as int, c.y as int),
        ensures
            self.loads(c) > 0 <==> self.player_in_sight(c),
    {
        broadcast use vstd::set::group_set_axioms;
        self.lemma_loads_are_players_in_sight(c);
        if self.has_instance(c.i) {
            self.lemma_cells_wf(c.i);
            let cells = self.cells_of(c.i);
            let r = self.range();
            let (xlo, xhi, ylo, yhi) = (win_lo(c.x as int, r), win_hi(c.x as int, r), win_lo(c.y as int, r), win_hi(c.y as int, r));
            assert forall|ch: Chunk| #[trigger] f_player_ids()(ch) >= 0 by {}
            crate::grid::lemma_rect_pos(cells, f_player_ids(), xlo, xhi, ylo, yhi);
            if self.loads(c) > 0 {
                let (a, b) = choose|a: int, b: int|
                    xlo <= a < xhi && ylo <= b < yhi && #[trigger] f_player_ids()(cells[cell_index(a, b)]) > 0;
                let p = ChunkCoords { i: c.i, x: a as i32, y: b as i32 };
                crate::chunk_map::lemma_window_bounds(c.x as int, c.y as int, r, a, b);
                let ps = players_of(cells[cell_index(a, b)].contents());
                assert(ps.len() > 0);
                assert(ps != Set::<EntityID>::empty());
                let e = ps.choose();
                assert(ps.contains(e));
                assert(self.contents(p) == cells[cell_index(a, b)].contents());
                assert(self.contents(p).contains(e) && e is Player);
            }
            if self.player_in_sight(c) {
                let (p, e) = choose|p: ChunkCoords, e: EntityID|
                    p.i == c.i && in_grid(p.x as int, p.y as int) && in_window(
                        c.x as int,
                        c.y as int,
                        r,
                        p.x as int,
                        p.y as int,
                    ) && #[trigger] self.contents(p).contains(e) && e is Player;
                let (a, b) = (p.x as int, p.y as int);
                crate::chunk_map::lemma_window_bounds(c.x as int, c.y as int, r, a, b);
                crate::grid::lemma_cell_index(a, b);
                let ch = cells[cell_index(a, b)];
                assert(ch.wf());
                ch.lemma_players();
                let ps = players_of(ch.contents());
                assert(ps.contains(e));
                assert(ps.remove(e).len() + 1 == ps.len());
                assert(f_player_ids()(cells[cell_index(a, b)]) > 0);
            }
        } else {
            if self.player_in_sight(c) {
                let (p, e) = choose|p: ChunkCoords, e: EntityID|
                    p.i == c.i && in_grid(p.x as int, p.y as int) && in_window(
                        c.x as int,
                        c.y as int,
                        self.range(),
                        p.x as int,
                        p.y as int,
                    ) && #[trigger] self.contents(p).contains(e) && e is Player;
                assert(self.contents(p) == Set::<EntityID>::empty());
            }
        }
    }

    /// Load counts follow from where entities are: two well-formed maps with
    /// the same visibility range and the same contents in every chunk have
    /// the same load count in every chunk.
    pub proof fn lemma_loads_follow_contents(&self, other: &Self, c: ChunkCoords)
        requires
            self.wf(),
            other.wf(),
            self.range() == other.range(),
            forall|p: ChunkCoords| #[trigger] self.contents(p) == other.contents(p),
        ensures
            self.loads(c) == other.loads(c),
    {
        broadcast use vstd::set::group_set_axioms;
        if in_grid(c.x as int, c.y as int) {
            self.lemma_loads_are_players_in_sight(c);
            other.lemma_loads_are_players_in_sight(c);
            let r = self.range();
            let (xlo, xhi, ylo, yhi) = (win_lo(c.x as int, r), win_hi(c.x as int, r), win_lo(c.y as int, r), win_hi(c.y as int, r));
            if self.has_instance(c.i) {
                self.lemma_cells_wf(c.i);
            }
            if other.has_instance(c.i) {
                other.lemma_cells_wf(c.i);
            }
            if self.has_instance(c.i) && other.has_instance(c.i) {
                assert forall|x: int, y: int| xlo <= x < xhi && ylo <= y < yhi implies
                    #[trigger] f_player_ids()(self.cells_of(c.i)[cell_index(x, y)])
                    == f_player_ids()(other.cells_of(c.i)[cell_index(x, y)]) by {
                    let p = ChunkCoords { i: c.i, x: x as i32, y: y as i32 };
                    assert(self.contents(p) == other.contents(p));
                }
                crate::grid::lemma_rect_ext(self.cells_of(c.i), other.cells_of(c.i), f_player_ids(), xlo, xhi, ylo, yhi);
            } else if self.has_instance(c.i) {
                assert forall|x: int, y: int| xlo <= x < xhi && ylo <= y < yhi implies
                    #[trigger] f_player_ids()(self.cells_of(c.i)[cell_index(x, y)]) == 0 by {
                    let p = ChunkCoords { i: c.i, x: x as i32, y: y as i32 };
                    assert(self.contents(p) == other.contents(p));
                    assert(other.contents(p) == Set::<EntityID>::empty());
                    assert(players_of(Set::<EntityID>::empty()) =~= Set::<EntityID>::empty());
                }
                crate::chunk_map::lemma_rect_zero(self.cells_of(c.i), f_player_ids(), xlo, xhi, ylo, yhi);
            } else if other.has_instance(c.i) {
                assert forall|x: int, y: int| xlo <= x < xhi && ylo <= y < yhi implies
                    #[trigger] f_player_ids()(other.cells_of(c.i)[cell_index(x, y)]) == 0 by {
                    let p = ChunkCoords { i: c.i, x: x as i32, y: y as i32 };
                    assert(self.contents(p) == other.contents(p));
                    assert(self.contents(p) == Set::<EntityID>::empty());
                    assert(players_of(Set::<EntityID>::empty()) =~= Set::<EntityID>::empty());
                }
                crate::chunk_map::lemma_rect_zero(other.cells_of(c.i), f_player_ids(), xlo, xhi, ylo, yhi);
            }
        }
    }

    /// Moving an entity away from where it is and then back where it was
    /// restores the registry and the contents of every chunk.
    pub proof fn lemma_move_and_back(&self, moved: &Self, back: &Self, id: EntityID, to: Option<ChunkCoords>)
        requires
            self.wf(),
            self.registry().dom().contains(id),
            on_grid(to) != self.registry()[id].0,
            on_grid(to) matches Some(t) ==> !self.contents(t).contains(id),
            moved.moved(self, id, to),
            back.moved(moved, id, self.registry()[id].0),
        ensures
            back.registry() == self.registry(),
            forall|c: ChunkCoords| #[trigger] back.contents(c) == self.contents(c),
    {
        broadcast use vstd::set::group_set_axioms;
        lemma_reg_view(self.registry@);
        let from = self.registry()[id].0;
        let j = choose|j: int| 0 <= j < self.registry@.len() && #[trigger] self.registry@[j].id == id;
        assert(self.registry@[j].chunk == from);
        match from {
            Some(f) => {
                assert(self.contents(f).contains(self.registry@[j].id));
                assert(in_grid(f.x as int, f.y as int));
                assert(on_grid(from) == from);
            },
            None => {},
        }
        assert(back.registry() =~= self.registry());
        assert forall|c: ChunkCoords| #[trigger] back.contents(c) == self.contents(c) by {
            assert(back.contents(c) == moved.contents(c) || true);
            if Some(c) == from {
                assert(self.contents(c).contains(id));
                assert(moved.contents(c) == self.contents(c).remove(id));
                assert(back.contents(c) =~= self.contents(c));
            } else if Some(c) == on_grid(to) {
                assert(moved.contents(c) == self.contents(c).insert(id));
                assert(back.contents(c) == moved.contents(c).remove(id));
                assert(back.contents(c) =~= self.contents(c));
            } else {
                assert(back.contents(c) == self.contents(c));
            }
        }
    }

    /// Tracking an entity and then untracking it leaves the registry as it
    /// was, and neither touches the grids.
    pub proof fn lemma_track_then_untrack(&self, after_track: &Self, after_untrack: &Self, id: EntityID, tick_mode: TickMode)
        requires
            !self.registry().dom().contains(id),
            after_track.registry() == self.registry().insert(id, (None, tick_mode)),
            after_track.same_grids(self),
            after_untrack.registry() == after_track.registry().remove(id),
            after_untrack.same_grids(after_track),
        ensures
            after_untrack.registry() == self.registry(),
            after_untrack.same_grids(self),
    {
        assert(after_untrack.registry() =~= self.registry());
    }
}

/// The positions of the cells of a grid, row-major.
pub open spec fn positions() -> Seq<int> {
    Seq::new(GRID_CELLS as nat, |k: int| k)
}

impl EntityMap {
    /// One for the chunk at position `k` (row-major) of instance `i` when a
    /// player is within sight of it, zero otherwise.
    pub open spec fn sighted_flag(&self, i: InstanceID) -> spec_fn(int) -> int {
        |k: int|
            if self.player_in_sight(ChunkCoords { i, x: (k / 128) as i32, y: (k % 128) as i32 }) {
                1int
            } else {
                0int
            }
    }

    /// Number of chunks of instance `i` with a player within sight of them.
    pub open spec fn sighted_chunks(&self, i: InstanceID) -> int {
        grid_sum(positions(), self.sighted_flag(i))
    }

    /// In an instance with a grid, the loaded chunks are exactly the chunks
    /// with a player within sight of them.
    pub proof fn lemma_loaded_chunks_are_sighted(&self, i: InstanceID)
        requires
            self.wf(),
            self.has_instance(i),
        ensures
            grid_sum(self.cells_of(i), f_loaded()) == self.sighted_chunks(i),
    {
        self.lemma_cells_wf(i);
        let cells = self.cells_of(i);
        assert forall|x: int, y: int| 0 <= x < 128 && 0 <= y < 128 implies #[trigger] f_loaded()(cells[cell_index(x, y)])
            == self.sighted_flag(i)(positions()[cell_index(x, y)]) by {
            let k = cell_index(x, y);
            assert(k / 128 == x && k % 128 == y) by (nonlinear_arith)
                requires
                    k == x * 128 + y,
                    0 <= y < 128,
            ;
            let c = ChunkCoords { i, x: x as i32, y: y as i32 };
            assert(positions()[k] == k);
            assert(c == ChunkCoords { i, x: (k / 128) as i32, y: (k % 128) as i32 });
            self.lemma_loaded_iff_player_in_sight(c);
            assert(self.loads(c) == cells[k].loads());
        }
        crate::grid::lemma_rect_ext2(cells, f_loaded(), positions(), self.sighted_flag(i), 0, 128, 0, 128);
    }

    /// Sums over instances agree where their terms agree.
    proof fn lemma_sum_over_instances_ext(
        &self,
        n: int,
        f: spec_fn(InstanceID, Seq<Chunk>) -> int,
        g: spec_fn(InstanceID, Seq<Chunk>) -> int,
    )
        requires
            0 <= n <= self.instance_seq().len(),
            forall|j: int| 0 <= j < n ==> #[trigger] f(self.instance_seq()[j], self.cells_of(self.instance_seq()[j])) == g(
                self.instance_seq()[j],
                self.cells_of(self.instance_seq()[j]),
            ),
        ensures
            self.sum_over_instances(n, f) == self.sum_over_instances(n, g),
        decreases n,
    {
        if n > 0 {
            self.lemma_sum_over_instances_ext(n - 1, f, g);
            assert(f(self.instance_seq()[n - 1], self.cells_of(self.instance_seq()[n - 1])) == g(
                self.instance_seq()[n - 1],
                self.cells_of(self.instance_seq()[n - 1]),
            ));
        }
    }

    /// Sums over instances compare as their terms do.
    proof fn lemma_sum_over_instances_le(
        &self,
        n: int,
        f: spec_fn(InstanceID, Seq<Chunk>) -> int,
        g: spec_fn(InstanceID, Seq<Chunk>) -> int,
    )
        requires
            0 <= n <= self.instance_seq().len(),
            forall|j: int| 0 <= j < n ==> #[trigger] f(self.instance_seq()[j], self.cells_of(self.instance_seq()[j])) <= g(
                self.instance_seq()[j],
                self.cells_of(self.instance_seq()[j]),
            ),
        ensures
            self.sum_over_instances(n, f) <= self.sum_over_instances(n, g),
        decreases n,
    {
        if n > 0 {
            self.lemma_sum_over_instances_le(n - 1, f, g);
            assert(f(self.instance_seq()[n - 1], self.cells_of(self.instance_seq()[n - 1])) <= g(
                self.instance_seq()[n - 1],
                self.cells_of(self.instance_seq()[n - 1]),
            ));
        }
    }

    /// The number of loaded chunks that `get_num_loaded_chunks` gives is the
    /// number of chunks, over all instances with a grid, that have a player
    /// within sight.
    pub proof fn lemma_num_loaded_chunks_counts_sighted(&self)
        requires
            self.wf(),
        ensures
            self.sum_over_instances(
                self.instance_seq().len() as int,
                |i: InstanceID, cells: Seq<Chunk>| grid_sum(cells, f_loaded()),
            ) == self.sum_over_instances(
                self.instance_seq().len() as int,
                |i: InstanceID, cells: Seq<Chunk>| self.sighted_chunks(i),
            ),
    {
        let f = |i: InstanceID, cells: Seq<Chunk>| grid_sum(cells, f_loaded());
        let g = |i: InstanceID, cells: Seq<Chunk>| self.sighted_chunks(i);
        let n = self.instance_seq().len() as int;
        assert forall|j: int| 0 <= j < n implies #[trigger] f(self.instance_seq()[j], self.cells_of(self.instance_seq()[j])) == g(
            self.instance_seq()[j],
            self.cells_of(self.instance_seq()[j]),
        ) by {
            let i = self.instance_seq()[j];
            assert(self.has_instance(i));
            self.lemma_loaded_chunks_are_sighted(i);
        }
        self.lemma_sum_over_instances_ext(n, f, g);
    }

    /// The number of entities in loaded chunks that
    /// `get_num_loaded_entities` gives is at most the number of entities
    /// placed over all instances.
    pub proof fn lemma_num_loaded_entities_bounded(&self)
        requires
            self.wf(),
        ensures
            self.sum_over_instances(
                self.instance_seq().len() as int,
                |i: InstanceID, cells: Seq<Chunk>| grid_sum(cells, f_loaded_size()),
            ) <= self.sum_over_instances(
                self.instance_seq().len() as int,
                |i: InstanceID, cells: Seq<Chunk>| self.instance_members(i).len() as int,
            ),
    {
        let f = |i: InstanceID, cells: Seq<Chunk>| grid_sum(cells, f_loaded_size());
        let g = |i: InstanceID, cells: Seq<Chunk>| self.instance_members(i).len() as int;
        let n = self.instance_seq().len() as int;
        assert forall|j: int| 0 <= j < n implies #[trigger] f(self.instance_seq()[j], self.cells_of(self.instance_seq()[j])) <= g(
            self.instance_seq()[j],
            self.cells_of(self.instance_seq()[j]),
        ) by {
            let i = self.instance_seq()[j];
            assert(self.has_instance(i));
            let cells = self.cells_of(i);
            assert forall|aa: int, bb: int| 0 <= aa < 128 && 0 <= bb < 128 implies
                #[trigger] f_loaded_size()(cells[cell_index(aa, bb)]) <= f_size()(cells[cell_index(aa, bb)]) by {
                crate::chunk_map::lemma_players_le_size(cells[cell_index(aa, bb)]);
            }
            crate::grid::lemma_rect_le(cells, f_loaded_size(), f_size(), 0, 128, 0, 128);
            crate::chunk_map::lemma_grid_members(cells, 128);
        }
        self.lemma_sum_over_instances_le(n, f, g);
    }
}

impl EntityMap {
    /// Every entity in a chunk is tracked and registered as placed in that
    /// chunk, so each entity sits in one chunk at most. Untracking an entity
    /// that is still placed is what breaks it.
    pub open spec fn placements_exact(&self) -> bool {
        forall|c: ChunkCoords, e: EntityID|
            #[trigger] self.contents(c).contains(e) ==> self.registry().dom().contains(e) && self.registry()[e].0
                == Some(c)
    }

    /// An empty map places nothing.
    pub proof fn lemma_empty_exact(&self)
        requires
            self.instance_seq() == Seq::<InstanceID>::empty(),
        ensures
            self.placements_exact(),
    {
        assert forall|c: ChunkCoords, e: EntityID| #[trigger] self.contents(c).contains(e) implies self.registry().dom().contains(e)
            && self.registry()[e].0 == Some(c) by {
            assert(!self.has_instance(c.i));
        }
    }

    /// Tracking a new entity keeps placements exact.
    pub proof fn lemma_track_keeps_exact(&self, after: &Self, id: EntityID, tick_mode: TickMode)
        requires
            self.placements_exact(),
            !self.registry().dom().contains(id),
            after.registry() == self.registry().insert(id, (None, tick_mode)),
            after.same_grids(self),
        ensures
            after.placements_exact(),
    {
        assert forall|c: ChunkCoords, e: EntityID| #[trigger] after.contents(c).contains(e) implies after.registry().dom().contains(e)
            && after.registry()[e].0 == Some(c) by {
            assert(after.cells_of(c.i) == self.cells_of(c.i));
            assert(after.contents(c) == self.contents(c));
        }
    }

    /// Moving an entity keeps placements exact.
    pub proof fn lemma_move_keeps_exact(&self, after: &Self, id: EntityID, to: Option<ChunkCoords>)
        requires
            self.wf(),
            self.placements_exact(),
            self.registry().dom().contains(id),
            self.registry()[id].0 != to,
            after.moved(self, id, to),
        ensures
            after.placements_exact(),
    {
        let from = self.registry()[id].0;
        assert forall|c: ChunkCoords, e: EntityID| #[trigger] after.contents(c).contains(e) implies after.registry().dom().contains(e)
            && after.registry()[e].0 == Some(c) by {
            if Some(c) == on_grid(to) {
                if e != id {
                    assert(self.contents(c).contains(e));
                }
            } else if Some(c) == from {
                assert(e != id);
                assert(self.contents(c).contains(e));
            } else {
                assert(self.contents(c).contains(e));
                if e == id {
                    assert(self.registry()[id].0 == Some(c));
                }
            }
        }
    }

    /// With exact placements, an entity placed at `ce` is around `c` exactly
    /// when `ce` lies in the grid of `c`'s instance within sight of `c`.
    pub proof fn lemma_around_exact(&self, c: ChunkCoords, e: EntityID)
        requires
            self.wf(),
            self.placements_exact(),
            self.registry().dom().contains(e),
            self.registry()[e].0 is Some,
        ensures
            self.around(c).contains(e) == ({
                let ce = self.registry()[e].0->0;
                &&& self.has_instance(c.i)
                &&& ce.i == c.i
                &&& in_window(c.x as int, c.y as int, self.range(), ce.x as int, ce.y as int)
            }),
    {
        let ce = self.registry()[e].0->0;
        lemma_reg_view(self.registry@);
        let j = choose|j: int| 0 <= j < self.registry@.len() && #[trigger] self.registry@[j].id == e;
        assert(self.registry@[j].chunk == Some(ce));
        assert(self.contents(ce).contains(e));
        assert(self.chunk_at(ce) is Some);
        if self.has_instance(c.i) {
            self.lemma_cells_wf(c.i);
            let r = self.range();
            let cells = self.cells_of(c.i);
            if self.around(c).contains(e) {
                let (a, b) = choose|a: int, b: int|
                    win_lo(c.x as int, r) <= a < win_hi(c.x as int, r) && win_lo(c.y as int, r) <= b < win_hi(c.y as int, r)
                        && #[trigger] cells[cell_index(a, b)].contents().contains(e);
                let p = ChunkCoords { i: c.i, x: a as i32, y: b as i32 };
                assert(self.contents(p) == cells[cell_index(a, b)].contents());
                assert(self.contents(p).contains(e));
                assert(p == ce);
                crate::chunk_map::lemma_window_bounds(c.x as int, c.y as int, r, a, b);
            }
            if ce.i == c.i && in_window(c.x as int, c.y as int, r, ce.x as int, ce.y as int) {
                let (a, b) = (ce.x as int, ce.y as int);
                crate::chunk_map::lemma_window_bounds(c.x as int, c.y as int, r, a, b);
                assert(self.contents(ce) == cells[cell_index(a, b)].contents());
                assert(cells[cell_index(a, b)].contents().contains(e));
            }
        }
    }

    /// With exact placements, seeing is mutual: of two placed entities, each
    /// is around the other's chunk exactly when the other is around its own,
    /// and each is around its own chunk.
    pub proof fn lemma_sight_is_mutual(&self, a: EntityID, b: EntityID)
        requires
            self.wf(),
            self.placements_exact(),
            self.registry().dom().contains(a),
            self.registry().dom().contains(b),
            self.registry()[a].0 is Some,
            self.registry()[b].0 is Some,
        ensures
            self.around(self.registry()[a].0->0).contains(b) == self.around(self.registry()[b].0->0).contains(a),
            self.around(self.registry()[a].0->0).contains(a),
    {
        let ca = self.registry()[a].0->0;
        let cb = self.registry()[b].0->0;
        self.lemma_around_exact(ca, b);
        self.lemma_around_exact(cb, a);
        self.lemma_around_exact(ca, a);
        lemma_reg_view(self.registry@);
        let ja = choose|j: int| 0 <= j < self.registry@.len() && #[trigger] self.registry@[j].id == a;
        let jb = choose|j: int| 0 <= j < self.registry@.len() && #[trigger] self.registry@[j].id == b;
        assert(self.contents(ca).contains(self.registry@[ja].id));
        assert(self.contents(cb).contains(self.registry@[jb].id));
        assert(self.chunk_at(ca) is Some);
        assert(self.chunk_at(cb) is Some);
        self.lemma_cells_wf(ca.i);
    }

    /// With exact placements, what an entity placed at `f` saw before it
    /// moves (`around_without`, as `update` reports it) is everything around
    /// its chunk but itself, as `get_around_entity` gives it.
    pub proof fn lemma_seen_before_is_around(&self, id: EntityID)
        requires
            self.wf(),
            self.placements_exact(),
            self.registry().dom().contains(id),
            self.registry()[id].0 is Some,
        ensures
            self.around_without(self.registry()[id].0->0, id) == self.around(self.registry()[id].0->0).remove(id),
    {
        let f = self.registry()[id].0->0;
        self.lemma_around_exact(f, id);
        lemma_reg_view(self.registry@);
        let j = choose|j: int| 0 <= j < self.registry@.len() && #[trigger] self.registry@[j].id == id;
        assert(self.contents(f).contains(self.registry@[j].id));
        assert(self.chunk_at(f) is Some);
        self.lemma_cells_wf(f.i);
        let r = self.range();
        let cells = self.cells_of(f.i);
        assert forall|e: EntityID| #[trigger] self.around_without(f, id).contains(e) == self.around(f).remove(id).contains(e) by {
            if self.around_without(f, id).contains(e) {
                let (a, b) = choose|a: int, b: int|
                    win_lo(f.x as int, r) <= a < win_hi(f.x as int, r) && win_lo(f.y as int, r) <= b < win_hi(f.y as int, r)
                        && #[trigger] cells[cell_index(a, b)].contents().contains(e) && !(a == f.x && b == f.y && e == id);
                if e == id {
                    let p = ChunkCoords { i: f.i, x: a as i32, y: b as i32 };
                    assert(self.contents(p) == cells[cell_index(a, b)].contents());
                    assert(self.contents(p).contains(e));
                    assert(p == f);
                }
                assert(cells[cell_index(a, b)].contents().contains(e));
            }
            if self.around(f).remove(id).contains(e) {
                let (a, b) = choose|a: int, b: int|
                    win_lo(f.x as int, r) <= a < win_hi(f.x as int, r) && win_lo(f.y as int, r) <= b < win_hi(f.y as int, r)
                        && #[trigger] cells[cell_index(a, b)].contents().contains(e);
                assert(!(a == f.x && b == f.y && e == id));
            }
        }
        assert(self.around_without(f, id) =~= self.around(f).remove(id));
    }
}

} // verus!
