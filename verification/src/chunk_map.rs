use vstd::prelude::*;

use crate::entity::EntityID;
use crate::grid::{
    cell_index, col_sum, grid_sum, in_grid, in_window, lemma_rect_le, lemma_rect_le_grid,
    lemma_rect_ext, lemma_rect_update, lemma_window_update, rect_sum, win_hi, win_lo,
    window_sum, GRID_CELLS,
};

verus! {

/// Number of player identities in a sequence of entity identities.
pub open spec fn count_players(s: Seq<EntityID>) -> int
    decreases s.len(),
{
    if s.len() == 0 {
        0
    } else {
        count_players(s.drop_last()) + (if s.last() is Player {
            1int
        } else {
            0int
        })
    }
}

/// A count of players lies between zero and the length.
pub proof fn lemma_count_players_bounds(s: Seq<EntityID>)
    ensures
        0 <= count_players(s) <= s.len(),
    decreases s.len(),
{
    if s.len() > 0 {
        lemma_count_players_bounds(s.drop_last());
    }
}

/// Counting players over two sequences one after the other.
pub proof fn lemma_count_players_concat(a: Seq<EntityID>, b: Seq<EntityID>)
    ensures
        count_players(a + b) == count_players(a) + count_players(b),
    decreases b.len(),
{
    if b.len() > 0 {
        assert((a + b).drop_last() =~= a + b.drop_last());
        lemma_count_players_concat(a, b.drop_last());
    } else {
        assert(a + b =~= a);
    }
}

/// Counting players after one more identity.
pub proof fn lemma_count_players_push(s: Seq<EntityID>, e: EntityID)
    ensures
        count_players(s.push(e)) == count_players(s) + (if e is Player {
            1int
        } else {
            0int
        }),
{
    assert(s.push(e).drop_last() =~= s);
}

/// Counting players after taking one identity out.
pub proof fn lemma_count_players_remove(s: Seq<EntityID>, i: int)
    requires
        0 <= i < s.len(),
    ensures
        count_players(s.remove(i)) == count_players(s) - (if s[i] is Player {
            1int
        } else {
            0int
        }),
{
    let a = s.subrange(0, i);
    let b = s.subrange(i + 1, s.len() as int);
    assert(s.remove(i) =~= a + b);
    assert(s =~= a.push(s[i]) + b);
    lemma_count_players_concat(a, b);
    lemma_count_players_concat(a.push(s[i]), b);
    lemma_count_players_push(a, s[i]);
}

/// The players among a set of entity identities.
pub open spec fn players_of(s: Set<EntityID>) -> Set<EntityID> {
    s.filter(|e: EntityID| e is Player)
}

/// In a sequence without repetitions, counting players counts the players of
/// its set of elements.
pub proof fn lemma_count_players_set(s: Seq<EntityID>)
    requires
        s.no_duplicates(),
    ensures
        players_of(s.to_set()).finite(),
        count_players(s) == players_of(s.to_set()).len(),
    decreases s.len(),
{
    broadcast use vstd::seq_lib::seq_to_set_is_finite;
    if s.len() == 0 {
        assert(players_of(s.to_set()) =~= Set::<EntityID>::empty());
    } else {
        let t = s.drop_last();
        let e = s.last();
        assert forall|i: int, j: int| 0 <= i < t.len() && 0 <= j < t.len() && i != j implies t[i] != t[j] by {
            assert(t[i] == s[i] && t[j] == s[j]);
        }
        lemma_count_players_set(t);
        assert(s =~= t.push(e));
        t.lemma_push_to_set_commute(e);
        assert(!t.to_set().contains(e)) by {
            if t.contains(e) {
                let i = choose|i: int| 0 <= i < t.len() && #[trigger] t[i] == e;
                assert(s[i] == s[s.len() - 1]);
            }
        }
        t.to_set().lemma_len_filter(|x: EntityID| x is Player);
        if e is Player {
            assert(players_of(s.to_set()) =~= players_of(t.to_set()).insert(e));
        } else {
            assert(players_of(s.to_set()) =~= players_of(t.to_set()));
        }
    }
}

/// One cell of an instance's grid: the entities in it and how many players
/// can see it.
pub struct Chunk {
    load_count: usize,
    members: Vec<EntityID>,
}

impl Chunk {
    /// The entities in this chunk, in the order the chunk holds them.
    pub closed spec fn member_seq(&self) -> Seq<EntityID> {
        self.members@
    }

    /// A well-formed chunk's player count is the number of players in it.
    pub proof fn lemma_players(&self)
        requires
            self.wf(),
        ensures
            players_of(self.contents()).finite(),
            self.players() == players_of(self.contents()).len(),
    {
        lemma_count_players_set(self.members@);
    }

    /// How the members of a chunk relate to its contents and size.
    pub proof fn lemma_member_seq(&self)
        ensures
            self.member_seq().to_set() == self.contents(),
            self.member_seq().len() == self.size(),
            self.wf() ==> self.member_seq().no_duplicates(),
    {
    }

    /// The entities in this chunk.
    pub closed spec fn contents(&self) -> Set<EntityID> {
        self.members@.to_set()
    }

    /// How many players can currently see this chunk.
    pub closed spec fn loads(&self) -> nat {
        self.load_count as nat
    }

    /// Number of players in this chunk.
    pub closed spec fn players(&self) -> int {
        count_players(self.members@)
    }

    /// Number of entities in this chunk.
    pub closed spec fn size(&self) -> int {
        self.members@.len() as int
    }

    /// The chunk holds each entity once.
    pub closed spec fn wf(&self) -> bool {
        self.members@.no_duplicates()
    }

    /// An empty chunk that nobody sees.
    pub fn new() -> (r: Self)
        ensures
            r.wf(),
            r.contents() == Set::<EntityID>::empty(),
            r.loads() == 0,
            r.players() == 0,
            r.size() == 0,
    {
        let r = Chunk { load_count: 0, members: Vec::new() };
        proof {
            assert(r.members@.to_set() =~= Set::<EntityID>::empty());
        }
        r
    }

    /// Whether at least one player can see this chunk.
    pub fn is_loaded(&self) -> (r: bool)
        ensures
            r == (self.loads() > 0),
    {
        self.load_count > 0
    }

    /// The entities in this chunk, each once.
    pub(crate) fn get_all(&self) -> (r: &Vec<EntityID>)
        requires
            self.wf(),
        ensures
            r@.to_set() == self.contents(),
            r@.no_duplicates(),
            r@.len() == self.size(),
    {
        &self.members
    }

    /// Whether `id` is in this chunk.
    pub(crate) fn contains(&self, id: EntityID) -> (r: bool)
        ensures
            r == self.contents().contains(id),
    {
        let mut i: usize = 0;
        while i < self.members.len()
            invariant
                0 <= i <= self.members@.len(),
                forall|j: int| 0 <= j < i ==> self.members@[j] != id,
            decreases self.members@.len() - i,
        {
            if self.members[i] == id {
                proof {
                    assert(self.members@.contains(id));
                }
                return true;
            }
            i = i + 1;
        }
        false
    }

    /// Number of players in this chunk.
    pub(crate) fn get_player_count(&self) -> (r: usize)
        ensures
            r == self.players(),
    {
        let mut n: usize = 0;
        let mut i: usize = 0;
        while i < self.members.len()
            invariant
                0 <= i <= self.members@.len(),
                n == count_players(self.members@.subrange(0, i as int)),
            decreases self.members@.len() - i,
        {
            proof {
                assert(self.members@.subrange(0, i + 1) =~= self.members@.subrange(
                    0,
                    i as int,
                ).push(self.members@[i as int]));
                lemma_count_players_push(
                    self.members@.subrange(0, i as int),
                    self.members@[i as int],
                );
                lemma_count_players_bounds(self.members@.subrange(0, i as int));
            }
            if self.members[i].is_player() {
                n = n + 1;
            }
            i = i + 1;
        }
        proof {
            assert(self.members@.subrange(0, i as int) =~= self.members@);
        }
        n
    }

    /// Adds `id` to this chunk. Returns whether it was not already there.
    pub(crate) fn insert(&mut self, id: EntityID) -> (r: bool)
        requires
            old(self).wf(),
        ensures
            final(self).wf(),
            r == !old(self).contents().contains(id),
            final(self).contents() == old(self).contents().insert(id),
            final(self).loads() == old(self).loads(),
            final(self).players() == old(self).players() + (if r && id is Player {
                1int
            } else {
                0int
            }),
            final(self).size() == old(self).size() + (if r {
                1int
            } else {
                0int
            }),
    {
        if self.contains(id) {
            proof {
                assert(self.contents().insert(id) =~= self.contents());
            }
            false
        } else {
            proof {
                lemma_count_players_push(self.members@, id);
                self.members@.lemma_push_to_set_commute(id);
            }
            self.members.push(id);
            proof {
                let s = self.members@;
                assert forall|a: int, b: int|
                    0 <= a < s.len() && 0 <= b < s.len() && a != b implies s[a] != s[b] by {
                    if a == s.len() - 1 {
                        assert(old(self).members@.contains(s[b]) || b == a);
                    } else if b == s.len() - 1 {
                        assert(old(self).members@.contains(s[a]));
                    }
                }
            }
            true
        }
    }

    /// Removes `id` from this chunk. Returns whether it was there.
    pub(crate) fn remove(&mut self, id: EntityID) -> (r: bool)
        requires
            old(self).wf(),
        ensures
            final(self).wf(),
            r == old(self).contents().contains(id),
            final(self).contents() == old(self).contents().remove(id),
            final(self).loads() == old(self).loads(),
            final(self).players() == old(self).players() - (if r && id is Player {
                1int
            } else {
                0int
            }),
            final(self).size() == old(self).size() - (if r {
                1int
            } else {
                0int
            }),
    {
        let mut i: usize = 0;
        while i < self.members.len()
            invariant
                0 <= i <= self.members@.len(),
                forall|j: int| 0 <= j < i ==> self.members@[j] != id,
                self.members@ == old(self).members@,
                self.load_count == old(self).load_count,
                old(self).wf(),
            decreases self.members@.len() - i,
        {
            if self.members[i] == id {
                proof {
                    lemma_count_players_remove(self.members@, i as int);
                }
                let ghost s0 = self.members@;
                self.members.remove(i);
                proof {
                    let s = self.members@;
                    assert(s =~= s0.remove(i as int));
                    assert forall|a: int, b: int|
                        0 <= a < s.len() && 0 <= b < s.len() && a != b implies s[a] != s[b] by {
                        let a0 = if a < i { a } else { a + 1 };
                        let b0 = if b < i { b } else { b + 1 };
                        assert(s[a] == s0[a0]);
                        assert(s[b] == s0[b0]);
                    }
                    assert forall|e: EntityID| #[trigger] s.to_set().contains(e) <==> s0.to_set().remove(id).contains(e) by {
                        if s0.contains(e) && e != id {
                            let k = choose|k: int| 0 <= k < s0.len() && s0[k] == e;
                            assert(k != i);
                            if k < i {
                                assert(s[k] == e);
                            } else {
                                assert(s[k - 1] == e);
                            }
                        }
                        if s.contains(e) {
                            let k = choose|k: int| 0 <= k < s.len() && s[k] == e;
                            if k < i {
                                assert(s0[k] == e);
                                assert(k != i);
                            } else {
                                assert(s0[k + 1] == e);
                            }
                        }
                    }
                    assert(s.to_set() =~= s0.to_set().remove(id));
                }
                return true;
            }
            i = i + 1;
        }
        proof {
            assert(self.contents().remove(id) =~= self.contents());
        }
        false
    }
}


/// Players in a chunk.
pub open spec fn f_players() -> spec_fn(Chunk) -> int {
    |c: Chunk| c.players()
}

/// Entities in a chunk.
pub open spec fn f_size() -> spec_fn(Chunk) -> int {
    |c: Chunk| c.size()
}

/// One for a chunk that some player sees, zero otherwise.
pub open spec fn f_loaded() -> spec_fn(Chunk) -> int {
    |c: Chunk|
        if c.loads() > 0 {
            1int
        } else {
            0int
        }
}

/// Entities in a chunk that some player sees, zero for other chunks.
pub open spec fn f_loaded_size() -> spec_fn(Chunk) -> int {
    |c: Chunk|
        if c.loads() > 0 {
            c.size()
        } else {
            0int
        }
}

/// The entities in the chunks of the rectangle `[xlo, xhi) x [ylo, yhi)`.
pub open spec fn region_ids(s: Seq<Chunk>, xlo: int, xhi: int, ylo: int, yhi: int) -> Set<
    EntityID,
> {
    Set::new(
        |e: EntityID|
            exists|a: int, b: int|
                xlo <= a < xhi && ylo <= b < yhi && #[trigger] s[cell_index(a, b)].contents().contains(
                    e,
                ),
    )
}

/// The entities in the chunks of the grid within radius `r` of `(x, y)`.
pub open spec fn window_ids(s: Seq<Chunk>, x: int, y: int, r: int) -> Set<EntityID> {
    region_ids(s, win_lo(x, r), win_hi(x, r), win_lo(y, r), win_hi(y, r))
}

/// The entities in the chunks of the rectangle `[xlo, xhi) x [ylo, yhi)`,
/// not counting `id` in the chunk `(x, y)` itself.
pub open spec fn region_ids_without(
    s: Seq<Chunk>,
    xlo: int,
    xhi: int,
    ylo: int,
    yhi: int,
    x: int,
    y: int,
    id: EntityID,
) -> Set<EntityID> {
    Set::new(
        |e: EntityID|
            exists|a: int, b: int|
                xlo <= a < xhi && ylo <= b < yhi && #[trigger] s[cell_index(a, b)].contents().contains(
                    e,
                ) && !(a == x && b == y && e == id),
    )
}

/// If `t` is `s` with `id` taken out of chunk `(x, y)`, the entities of a
/// region of `t` are those of `s` but `id` in that chunk.
pub proof fn lemma_region_without(
    s: Seq<Chunk>,
    t: Seq<Chunk>,
    xlo: int,
    xhi: int,
    ylo: int,
    yhi: int,
    x: int,
    y: int,
    id: EntityID,
)
    requires
        0 <= ylo,
        yhi <= 128,
        0 <= y < 128,
        forall|a: int, b: int|
            xlo <= a < xhi && ylo <= b < yhi ==> #[trigger] t[cell_index(a, b)].contents() == if a
                == x && b == y {
                s[cell_index(a, b)].contents().remove(id)
            } else {
                s[cell_index(a, b)].contents()
            },
    ensures
        region_ids(t, xlo, xhi, ylo, yhi) == region_ids_without(s, xlo, xhi, ylo, yhi, x, y, id),
{
    let lhs = region_ids(t, xlo, xhi, ylo, yhi);
    let rhs = region_ids_without(s, xlo, xhi, ylo, yhi, x, y, id);
    assert forall|e: EntityID| lhs.contains(e) <==> rhs.contains(e) by {
        if lhs.contains(e) {
            let (a, b) = choose|a: int, b: int|
                xlo <= a < xhi && ylo <= b < yhi && #[trigger] t[cell_index(a, b)].contents().contains(
                    e,
                );
            assert(s[cell_index(a, b)].contents().contains(e) && !(a == x && b == y && e == id));
        }
        if rhs.contains(e) {
            let (a, b) = choose|a: int, b: int|
                xlo <= a < xhi && ylo <= b < yhi && #[trigger] s[cell_index(a, b)].contents().contains(
                    e,
                ) && !(a == x && b == y && e == id);
            assert(t[cell_index(a, b)].contents().contains(e));
        }
    }
    assert(lhs =~= rhs);
}

/// A chunk holds a nonnegative number of players, and no more than entities.
pub proof fn lemma_players_le_size(c: Chunk)
    ensures
        0 <= c.players() <= c.size(),
{
    reveal(Chunk::players);
    reveal(Chunk::size);
    lemma_count_players_bounds(c.members@);
}

/// Every chunk holds a nonnegative number of entities.
pub proof fn lemma_size_nonneg()
    ensures
        forall|c: Chunk| #[trigger] f_size()(c) >= 0,
{
    assert forall|c: Chunk| #[trigger] f_size()(c) >= 0 by {
        lemma_players_le_size(c);
    }
}

/// Whether `(a, b)` is within the clipped window bounds around `(x, y)`.
pub proof fn lemma_window_bounds(x: int, y: int, r: int, a: int, b: int)
    requires
        in_grid(a, b),
        r >= 0,
    ensures
        (win_lo(x, r) <= a < win_hi(x, r) && win_lo(y, r) <= b < win_hi(y, r)) == in_window(
            x,
            y,
            r,
            a,
            b,
        ),
{
}

/// A column of cells that each count at most one sums to at most its height.
pub proof fn lemma_col_const<T>(s: Seq<T>, f: spec_fn(T) -> int, x: int, ylo: int, yhi: int)
    requires
        forall|t: T| #[trigger] f(t) <= 1,
        ylo <= yhi,
    ensures
        col_sum(s, f, x, ylo, yhi) <= yhi - ylo,
    decreases yhi - ylo,
{
    if yhi > ylo {
        lemma_col_const(s, f, x, ylo, yhi - 1);
    }
}

/// A grid sum of cells that are each at most one is at most the number of cells.
pub proof fn lemma_grid_le_cells<T>(s: Seq<T>, f: spec_fn(T) -> int, xhi: int)
    requires
        forall|t: T| #[trigger] f(t) <= 1,
        0 <= xhi,
    ensures
        rect_sum(s, f, 0, xhi, 0, 128) <= xhi * 128,
    decreases xhi,
{
    if xhi > 0 {
        lemma_grid_le_cells(s, f, xhi - 1);
        lemma_col_const(s, f, xhi - 1, 0, 128);
    }
}

/// A column of cells that each count zero sums to zero.
pub proof fn lemma_col_zero<T>(s: Seq<T>, f: spec_fn(T) -> int, x: int, ylo: int, yhi: int)
    requires
        forall|y: int| ylo <= y < yhi ==> #[trigger] f(s[cell_index(x, y)]) == 0,
    ensures
        col_sum(s, f, x, ylo, yhi) == 0,
    decreases yhi - ylo,
{
    if yhi > ylo {
        lemma_col_zero(s, f, x, ylo, yhi - 1);
    }
}

/// A rectangle of cells that each count zero sums to zero.
pub proof fn lemma_rect_zero<T>(
    s: Seq<T>,
    f: spec_fn(T) -> int,
    xlo: int,
    xhi: int,
    ylo: int,
    yhi: int,
)
    requires
        forall|x: int, y: int|
            xlo <= x < xhi && ylo <= y < yhi ==> #[trigger] f(s[cell_index(x, y)]) == 0,
    ensures
        rect_sum(s, f, xlo, xhi, ylo, yhi) == 0,
    decreases xhi - xlo,
{
    if xhi > xlo {
        lemma_rect_zero(s, f, xlo, xhi - 1, ylo, yhi);
        assert forall|y: int| ylo <= y < yhi implies #[trigger] f(s[cell_index(xhi - 1, y)])
            == 0 by {}
        lemma_col_zero(s, f, xhi - 1, ylo, yhi);
    }
}

/// An empty rectangle holds no entities.
pub proof fn lemma_region_empty(s: Seq<Chunk>, xlo: int, xhi: int, ylo: int, yhi: int)
    requires
        xhi <= xlo || yhi <= ylo,
    ensures
        region_ids(s, xlo, xhi, ylo, yhi) == Set::<EntityID>::empty(),
{
    assert(region_ids(s, xlo, xhi, ylo, yhi) =~= Set::<EntityID>::empty());
}

/// Extending a partial last column of a rectangle by one cell adds that cell's entities.
pub proof fn lemma_region_add_cell(s: Seq<Chunk>, xlo: int, xx: int, ylo: int, yhi: int, yy: int)
    requires
        ylo <= yy,
    ensures
        region_ids(s, xlo, xx, ylo, yhi) + region_ids(s, xx, xx + 1, ylo, yy + 1) == region_ids(
            s,
            xlo,
            xx,
            ylo,
            yhi,
        ) + region_ids(s, xx, xx + 1, ylo, yy) + s[cell_index(xx, yy)].contents(),
{
    let lhs = region_ids(s, xlo, xx, ylo, yhi) + region_ids(s, xx, xx + 1, ylo, yy + 1);
    let rhs = region_ids(s, xlo, xx, ylo, yhi) + region_ids(s, xx, xx + 1, ylo, yy) + s[cell_index(
        xx,
        yy,
    )].contents();
    assert forall|e: EntityID| lhs.contains(e) <==> rhs.contains(e) by {
        if region_ids(s, xx, xx + 1, ylo, yy + 1).contains(e) {
            let (a, b) = choose|a: int, b: int|
                xx <= a < xx + 1 && ylo <= b < yy + 1 && #[trigger] s[cell_index(
                    a,
                    b,
                )].contents().contains(e);
            if b < yy {
                assert(region_ids(s, xx, xx + 1, ylo, yy).contains(e));
            }
        }
        if region_ids(s, xx, xx + 1, ylo, yy).contains(e) {
            let (a, b) = choose|a: int, b: int|
                xx <= a < xx + 1 && ylo <= b < yy && #[trigger] s[cell_index(a, b)].contents().contains(
                    e,
                );
            assert(region_ids(s, xx, xx + 1, ylo, yy + 1).contains(e));
        }
        if s[cell_index(xx, yy)].contents().contains(e) {
            assert(region_ids(s, xx, xx + 1, ylo, yy + 1).contains(e));
        }
    }
    assert(lhs =~= rhs);
}

/// Adding a column to a rectangle adds that column's entities.
pub proof fn lemma_region_next_col(s: Seq<Chunk>, xlo: int, xx: int, ylo: int, yhi: int)
    requires
        xlo <= xx,
    ensures
        region_ids(s, xlo, xx, ylo, yhi) + region_ids(s, xx, xx + 1, ylo, yhi) == region_ids(
            s,
            xlo,
            xx + 1,
            ylo,
            yhi,
        ),
{
    let lhs = region_ids(s, xlo, xx, ylo, yhi) + region_ids(s, xx, xx + 1, ylo, yhi);
    let rhs = region_ids(s, xlo, xx + 1, ylo, yhi);
    assert forall|e: EntityID| lhs.contains(e) <==> rhs.contains(e) by {
        if rhs.contains(e) {
            let (a, b) = choose|a: int, b: int|
                xlo <= a < xx + 1 && ylo <= b < yhi && #[trigger] s[cell_index(
                    a,
                    b,
                )].contents().contains(e);
            if a < xx {
                assert(region_ids(s, xlo, xx, ylo, yhi).contains(e));
            } else {
                assert(region_ids(s, xx, xx + 1, ylo, yhi).contains(e));
            }
        }
        if region_ids(s, xlo, xx, ylo, yhi).contains(e) {
            let (a, b) = choose|a: int, b: int|
                xlo <= a < xx && ylo <= b < yhi && #[trigger] s[cell_index(a, b)].contents().contains(
                    e,
                );
            assert(rhs.contains(e));
        }
        if region_ids(s, xx, xx + 1, ylo, yhi).contains(e) {
            let (a, b) = choose|a: int, b: int|
                xx <= a < xx + 1 && ylo <= b < yhi && #[trigger] s[cell_index(
                    a,
                    b,
                )].contents().contains(e);
            assert(rhs.contains(e));
        }
    }
    assert(lhs =~= rhs);
}

/// Grids whose cells agree on a rectangle hold the same entities there.
pub proof fn lemma_region_ext(s1: Seq<Chunk>, s2: Seq<Chunk>, xlo: int, xhi: int, ylo: int, yhi: int)
    requires
        forall|a: int, b: int|
            xlo <= a < xhi && ylo <= b < yhi ==> #[trigger] s1[cell_index(a, b)].contents()
                == s2[cell_index(a, b)].contents(),
    ensures
        region_ids(s1, xlo, xhi, ylo, yhi) == region_ids(s2, xlo, xhi, ylo, yhi),
{
    let r1 = region_ids(s1, xlo, xhi, ylo, yhi);
    let r2 = region_ids(s2, xlo, xhi, ylo, yhi);
    assert forall|e: EntityID| r1.contains(e) <==> r2.contains(e) by {
        if r1.contains(e) {
            let (a, b) = choose|a: int, b: int|
                xlo <= a < xhi && ylo <= b < yhi && #[trigger] s1[cell_index(
                    a,
                    b,
                )].contents().contains(e);
            assert(s2[cell_index(a, b)].contents().contains(e));
        }
        if r2.contains(e) {
            let (a, b) = choose|a: int, b: int|
                xlo <= a < xhi && ylo <= b < yhi && #[trigger] s2[cell_index(
                    a,
                    b,
                )].contents().contains(e);
            assert(s1[cell_index(a, b)].contents().contains(e));
        }
    }
    assert(r1 =~= r2);
}

/// The members of the chunks `(x, 0) .. (x, yhi - 1)`, in order.
pub open spec fn col_members(s: Seq<Chunk>, x: int, yhi: int) -> Seq<EntityID>
    decreases yhi,
{
    if yhi <= 0 {
        Seq::empty()
    } else {
        col_members(s, x, yhi - 1) + s[cell_index(x, yhi - 1)].member_seq()
    }
}

/// The members of the chunks of columns `0 .. xhi - 1`, column by column.
pub open spec fn grid_members(s: Seq<Chunk>, xhi: int) -> Seq<EntityID>
    decreases xhi,
{
    if xhi <= 0 {
        Seq::empty()
    } else {
        grid_members(s, xhi - 1) + col_members(s, xhi - 1, 128)
    }
}

/// The elements of two sequences one after the other.
pub proof fn lemma_concat_to_set(a: Seq<EntityID>, b: Seq<EntityID>)
    ensures
        (a + b).to_set() == a.to_set() + b.to_set(),
{
    assert forall|e: EntityID| (a + b).to_set().contains(e) <==> (a.to_set() + b.to_set()).contains(
        e,
    ) by {
        if (a + b).contains(e) {
            let j = choose|j: int| 0 <= j < (a + b).len() && #[trigger] (a + b)[j] == e;
            if j < a.len() {
                assert(a[j] == e);
            } else {
                assert(b[j - a.len()] == e);
            }
        }
        if a.contains(e) {
            let j = choose|j: int| 0 <= j < a.len() && #[trigger] a[j] == e;
            assert((a + b)[j] == e);
        }
        if b.contains(e) {
            let j = choose|j: int| 0 <= j < b.len() && #[trigger] b[j] == e;
            assert((a + b)[a.len() + j] == e);
        }
    }
    assert((a + b).to_set() =~= a.to_set() + b.to_set());
}

/// The members of a column are the entities of its cells, as many as it holds.
pub proof fn lemma_col_members(s: Seq<Chunk>, x: int, yhi: int)
    requires
        0 <= yhi,
    ensures
        col_members(s, x, yhi).to_set() == region_ids(s, x, x + 1, 0, yhi),
        col_members(s, x, yhi).len() == col_sum(s, f_size(), x, 0, yhi),
    decreases yhi,
{
    if yhi == 0 {
        lemma_region_empty(s, x, x + 1, 0, 0);
        assert(col_members(s, x, yhi).to_set() =~= Set::<EntityID>::empty());
    } else {
        lemma_col_members(s, x, yhi - 1);
        lemma_concat_to_set(col_members(s, x, yhi - 1), s[cell_index(x, yhi - 1)].member_seq());
        lemma_region_add_cell(s, x, x, 0, yhi, yhi - 1);
        lemma_region_empty(s, x, x, 0, yhi);
        s[cell_index(x, yhi - 1)].lemma_member_seq();
        assert(region_ids(s, x, x + 1, 0, yhi) =~= Set::<EntityID>::empty() + region_ids(s, x, x + 1, 0, yhi));
        assert(region_ids(s, x, x + 1, 0, yhi - 1) =~= Set::<EntityID>::empty() + region_ids(s, x, x + 1, 0, yhi - 1));
    }
}

/// The members of a grid are the entities of its cells.
pub proof fn lemma_grid_members(s: Seq<Chunk>, xhi: int)
    requires
        0 <= xhi,
    ensures
        grid_members(s, xhi).to_set() == region_ids(s, 0, xhi, 0, 128),
        grid_members(s, xhi).len() == rect_sum(s, f_size(), 0, xhi, 0, 128),
    decreases xhi,
{
    if xhi == 0 {
        lemma_region_empty(s, 0, 0, 0, 128);
        assert(grid_members(s, xhi).to_set() =~= Set::<EntityID>::empty());
    } else {
        lemma_grid_members(s, xhi - 1);
        lemma_col_members(s, xhi - 1, 128);
        lemma_concat_to_set(grid_members(s, xhi - 1), col_members(s, xhi - 1, 128));
        lemma_region_next_col(s, 0, xhi - 1, 0, 128);
    }
}

/// `v` without `id`.
pub(crate) fn remove_id(v: Vec<EntityID>, id: EntityID) -> (r: Vec<EntityID>)
    requires
        v@.no_duplicates(),
    ensures
        r@.no_duplicates(),
        r@.to_set() == v@.to_set().remove(id),
{
    let mut r: Vec<EntityID> = Vec::new();
    let mut i: usize = 0;
    while i < v.len()
        invariant
            0 <= i <= v@.len(),
            v@.no_duplicates(),
            r@.no_duplicates(),
            forall|e: EntityID| #[trigger] r@.contains(e) <==> (e != id && v@.subrange(0, i as int).contains(e)),
        decreases v@.len() - i,
    {
        let e = v[i];
        proof {
            assert forall|e2: EntityID| #[trigger] v@.subrange(0, i + 1).contains(e2) <==> (v@.subrange(0, i as int).contains(e2) || e2 == e) by {
                if v@.subrange(0, i + 1).contains(e2) {
                    let j = choose|j: int| 0 <= j < i + 1 && #[trigger] v@.subrange(0, i + 1)[j] == e2;
                    if j < i {
                        assert(v@.subrange(0, i as int)[j] == e2);
                    }
                }
                if v@.subrange(0, i as int).contains(e2) {
                    let j = choose|j: int| 0 <= j < i && #[trigger] v@.subrange(0, i as int)[j] == e2;
                    assert(v@.subrange(0, i + 1)[j] == e2);
                }
                if e2 == e {
                    assert(v@.subrange(0, i + 1)[i as int] == e2);
                }
            }
        }
        if e != id {
            let ghost before = r@;
            proof {
                assert(!r@.contains(e)) by {
                    if r@.contains(e) {
                        let j = choose|j: int| 0 <= j < i && #[trigger] v@.subrange(0, i as int)[j] == e;
                        assert(v@[j] == v@[i as int]);
                    }
                }
            }
            r.push(e);
            proof {
                let s = r@;
                assert forall|a: int, b: int|
                    0 <= a < s.len() && 0 <= b < s.len() && a != b implies s[a] != s[b] by {
                    if a == s.len() - 1 {
                        assert(before.contains(s[b]));
                    } else if b == s.len() - 1 {
                        assert(before.contains(s[a]));
                    }
                }
                assert forall|e2: EntityID| #[trigger] r@.contains(e2) <==> (e2 != id && v@.subrange(0, i + 1).contains(e2)) by {
                    if r@.contains(e2) {
                        let j = choose|j: int| 0 <= j < r@.len() && #[trigger] r@[j] == e2;
                        if j < before.len() {
                            assert(before.contains(e2));
                        }
                    }
                    if e2 != id && v@.subrange(0, i as int).contains(e2) {
                        assert(before.contains(e2));
                        let j = choose|j: int| 0 <= j < before.len() && before[j] == e2;
                        assert(r@[j] == e2);
                    }
                    if e2 == e {
                        assert(r@[r@.len() - 1] == e2);
                    }
                }
            }
        }
        i = i + 1;
    }
    proof {
        assert(v@.subrange(0, i as int) =~= v@);
        assert(r@.to_set() =~= v@.to_set().remove(id));
    }
    r
}

/// The grid of chunks of one instance.
pub(crate) struct ChunkMap {
    chunks: Vec<Chunk>,
    loaded_chunk_count: usize,
    loaded_entity_count: usize,
}

/// Bounds `[lo, hi)` of the window of radius `r` around `c`, clipped to the grid.
pub(crate) fn window_bounds(c: usize, r: usize) -> (b: (usize, usize))
    requires
        c < 128,
    ensures
        b.0 == win_lo(c as int, r as int),
        b.1 == win_hi(c as int, r as int),
        b.0 <= c < b.1 <= 128,
{
    let lo = if c >= r {
        c - r
    } else {
        0
    };
    let hi = if r >= 128 {
        128
    } else if c + r + 1 > 128 {
        128
    } else {
        c + r + 1
    };
    (lo, hi)
}

/// Appends to `dst` the entities of `src` that it lacks.
pub(crate) fn extend_unique(dst: &mut Vec<EntityID>, src: &Vec<EntityID>)
    requires
        old(dst)@.no_duplicates(),
    ensures
        final(dst)@.no_duplicates(),
        final(dst)@.to_set() == old(dst)@.to_set() + src@.to_set(),
{
    let ghost d0 = dst@;
    let mut i: usize = 0;
    while i < src.len()
        invariant
            0 <= i <= src@.len(),
            dst@.no_duplicates(),
            dst@.to_set() == d0.to_set() + src@.subrange(0, i as int).to_set(),
        decreases src@.len() - i,
    {
        let e = src[i];
        let mut found = false;
        let mut j: usize = 0;
        while j < dst.len()
            invariant
                0 <= j <= dst@.len(),
                found == (exists|k: int| 0 <= k < j && dst@[k] == e),
            decreases dst@.len() - j,
        {
            if dst[j] == e {
                found = true;
            }
            j = j + 1;
        }
        let ghost before = dst@;
        if !found {
            dst.push(e);
            proof {
                let s = dst@;
                assert forall|a: int, b: int|
                    0 <= a < s.len() && 0 <= b < s.len() && a != b implies s[a] != s[b] by {
                    if a == s.len() - 1 {
                        assert(before[b] == s[b]);
                    } else if b == s.len() - 1 {
                        assert(before[a] == s[a]);
                    }
                }
                before.lemma_push_to_set_commute(e);
            }
        } else {
            proof {
                let k = choose|k: int| 0 <= k < j && dst@[k] == e;
                assert(dst@.to_set().contains(e));
                assert(dst@.to_set().insert(e) =~= dst@.to_set());
            }
        }
        proof {
            assert(src@.subrange(0, i + 1) =~= src@.subrange(0, i as int).push(e));
            src@.subrange(0, i as int).lemma_push_to_set_commute(e);
            assert(dst@.to_set() =~= d0.to_set() + src@.subrange(0, i + 1).to_set());
        }
        i = i + 1;
    }
    proof {
        assert(src@.subrange(0, i as int) =~= src@);
    }
}


impl ChunkMap {
    /// The chunks of the grid, row-major.
    pub(crate) closed spec fn cells(&self) -> Seq<Chunk> {
        self.chunks@
    }

    /// Number of chunks that some player sees.
    pub(crate) closed spec fn loaded_chunks(&self) -> int {
        self.loaded_chunk_count as int
    }

    /// Number of entities in chunks that some player sees.
    pub(crate) closed spec fn loaded_entities(&self) -> int {
        self.loaded_entity_count as int
    }

    /// The chunk at `(x, y)`.
    pub(crate) closed spec fn cell(&self, x: int, y: int) -> Chunk {
        self.chunks@[cell_index(x, y)]
    }

    /// The grid is complete, each chunk's load count is the number of players
    /// within radius `r` of it, and the counters are the numbers of loaded
    /// chunks and of entities in loaded chunks.
    pub(crate) closed spec fn wf(&self, r: int) -> bool {
        &&& r >= 0
        &&& self.chunks@.len() == GRID_CELLS
        &&& forall|k: int| 0 <= k < GRID_CELLS ==> #[trigger] self.chunks@[k].wf()
        &&& forall|a: int, b: int|
            #![trigger self.chunks@[cell_index(a, b)]]
            in_grid(a, b) ==> self.chunks@[cell_index(a, b)].loads() == window_sum(
                self.chunks@,
                f_players(),
                a,
                b,
                r,
            )
        &&& self.loaded_chunk_count == grid_sum(self.chunks@, f_loaded())
        &&& self.loaded_entity_count == grid_sum(self.chunks@, f_loaded_size())
        &&& grid_sum(self.chunks@, f_size()) <= usize::MAX
    }

    /// Adds one viewer to the chunk at `(a, b)`. Returns whether the chunk
    /// was loaded before and how many entities it holds.
    fn add_viewer(&mut self, a: usize, b: usize) -> (res: (bool, usize))
        requires
            old(self).chunks@.len() == GRID_CELLS,
            a < 128,
            b < 128,
            old(self).cell(a as int, b as int).loads() < usize::MAX,
        ensures
            final(self).chunks@.len() == GRID_CELLS,
            final(self).loaded_chunk_count == old(self).loaded_chunk_count,
            final(self).loaded_entity_count == old(self).loaded_entity_count,
            forall|j: int|
                0 <= j < GRID_CELLS && j != cell_index(a as int, b as int) ==> #[trigger] final(self).chunks@[j] == old(self).chunks@[j],
            final(self).cell(a as int, b as int).members@ == old(self).cell(
                a as int,
                b as int,
            ).members@,
            final(self).cell(a as int, b as int).loads() == old(self).cell(a as int, b as int).loads()
                + 1,
            res.0 == (old(self).cell(a as int, b as int).loads() > 0),
            res.1 == old(self).cell(a as int, b as int).size(),
            grid_sum(final(self).chunks@, f_loaded()) == grid_sum(old(self).chunks@, f_loaded()) + (
            if res.0 {
                0int
            } else {
                1int
            }),
            grid_sum(final(self).chunks@, f_loaded_size()) == grid_sum(
                old(self).chunks@,
                f_loaded_size(),
            ) + (if res.0 {
                0int
            } else {
                res.1 as int
            }),
            grid_sum(final(self).chunks@, f_size()) == grid_sum(old(self).chunks@, f_size()),
            grid_sum(final(self).chunks@, f_players()) == grid_sum(old(self).chunks@, f_players()),
            forall|x: int, y: int, r: int| #[trigger]
                window_sum(final(self).chunks@, f_players(), x, y, r) == window_sum(
                    old(self).chunks@,
                    f_players(),
                    x,
                    y,
                    r,
                ),
    {
        let k = a * 128 + b;
        let ghost s0 = self.chunks@;
        let was_loaded = self.chunks[k].is_loaded();
        let size = self.chunks[k].members.len();
        self.chunks[k].load_count = self.chunks[k].load_count + 1;
        proof {
            let c1 = self.chunks@[k as int];
            assert(self.chunks@ =~= s0.update(k as int, c1));
            lemma_rect_update(s0, f_loaded(), 0, 128, 0, 128, a as int, b as int, c1);
            lemma_rect_update(s0, f_loaded_size(), 0, 128, 0, 128, a as int, b as int, c1);
            lemma_rect_update(s0, f_size(), 0, 128, 0, 128, a as int, b as int, c1);
            lemma_rect_update(s0, f_players(), 0, 128, 0, 128, a as int, b as int, c1);
            assert forall|x: int, y: int, r: int| #[trigger]
                window_sum(self.chunks@, f_players(), x, y, r) == window_sum(s0, f_players(), x, y, r) by {
                lemma_rect_ext(
                    self.chunks@,
                    s0,
                    f_players(),
                    win_lo(x, r),
                    win_hi(x, r),
                    win_lo(y, r),
                    win_hi(y, r),
                );
            }
        }
        (was_loaded, size)
    }

    /// Removes one viewer from the chunk at `(a, b)`. Returns whether the
    /// chunk is unloaded afterwards and how many entities it holds.
    fn drop_viewer(&mut self, a: usize, b: usize) -> (res: (bool, usize))
        requires
            old(self).chunks@.len() == GRID_CELLS,
            a < 128,
            b < 128,
            old(self).cell(a as int, b as int).loads() > 0,
        ensures
            final(self).chunks@.len() == GRID_CELLS,
            final(self).loaded_chunk_count == old(self).loaded_chunk_count,
            final(self).loaded_entity_count == old(self).loaded_entity_count,
            forall|j: int|
                0 <= j < GRID_CELLS && j != cell_index(a as int, b as int) ==> #[trigger] final(self).chunks@[j] == old(self).chunks@[j],
            final(self).cell(a as int, b as int).members@ == old(self).cell(
                a as int,
                b as int,
            ).members@,
            final(self).cell(a as int, b as int).loads() == old(self).cell(a as int, b as int).loads()
                - 1,
            res.0 == (old(self).cell(a as int, b as int).loads() == 1),
            res.1 == old(self).cell(a as int, b as int).size(),
            grid_sum(final(self).chunks@, f_loaded()) == grid_sum(old(self).chunks@, f_loaded()) - (
            if res.0 {
                1int
            } else {
                0int
            }),
            grid_sum(final(self).chunks@, f_loaded_size()) == grid_sum(
                old(self).chunks@,
                f_loaded_size(),
            ) - (if res.0 {
                res.1 as int
            } else {
                0int
            }),
            grid_sum(final(self).chunks@, f_size()) == grid_sum(old(self).chunks@, f_size()),
            grid_sum(final(self).chunks@, f_players()) == grid_sum(old(self).chunks@, f_players()),
            forall|x: int, y: int, r: int| #[trigger]
                window_sum(final(self).chunks@, f_players(), x, y, r) == window_sum(
                    old(self).chunks@,
                    f_players(),
                    x,
                    y,
                    r,
                ),
    {
        let k = a * 128 + b;
        let ghost s0 = self.chunks@;
        self.chunks[k].load_count = self.chunks[k].load_count - 1;
        let unloaded = !self.chunks[k].is_loaded();
        let size = self.chunks[k].members.len();
        proof {
            let c1 = self.chunks@[k as int];
            assert(self.chunks@ =~= s0.update(k as int, c1));
            lemma_rect_update(s0, f_loaded(), 0, 128, 0, 128, a as int, b as int, c1);
            lemma_rect_update(s0, f_loaded_size(), 0, 128, 0, 128, a as int, b as int, c1);
            lemma_rect_update(s0, f_size(), 0, 128, 0, 128, a as int, b as int, c1);
            lemma_rect_update(s0, f_players(), 0, 128, 0, 128, a as int, b as int, c1);
            assert forall|x: int, y: int, r: int| #[trigger]
                window_sum(self.chunks@, f_players(), x, y, r) == window_sum(s0, f_players(), x, y, r) by {
                lemma_rect_ext(
                    self.chunks@,
                    s0,
                    f_players(),
                    win_lo(x, r),
                    win_hi(x, r),
                    win_lo(y, r),
                    win_hi(y, r),
                );
            }
        }
        (unloaded, size)
    }

    /// Adds `id` to the chunk at `(x, y)`. If `id` is a player, every chunk
    /// within radius `r` gains a viewer. Returns the entities, other than
    /// `id`, in the chunks within radius `r` of `(x, y)`.
    pub(crate) fn insert_entity(&mut self, x: usize, y: usize, id: EntityID, r: usize) -> (affected: Vec<
        EntityID,
    >)
        requires
            old(self).wf(r as int),
            x < 128,
            y < 128,
            !old(self).cell(x as int, y as int).contents().contains(id),
            grid_sum(old(self).cells(), f_size()) < usize::MAX,
        ensures
            final(self).wf(r as int),
            forall|a: int, b: int|
                in_grid(a, b) ==> (#[trigger] final(self).cell(a, b)).contents() == if a == x && b
                    == y {
                    old(self).cell(a, b).contents().insert(id)
                } else {
                    old(self).cell(a, b).contents()
                },
            affected@.no_duplicates(),
            affected@.to_set() == window_ids(final(self).cells(), x as int, y as int, r as int).remove(
                id,
            ),
            grid_sum(final(self).cells(), f_size()) == grid_sum(old(self).cells(), f_size()) + 1,
    {
        let k = x * 128 + y;
        let ghost pre = self.chunks@;
        proof {
            crate::grid::lemma_cell_index(x as int, y as int);
        }
        let inserted = self.chunks[k].insert(id);
        let ghost base = self.chunks@;
        proof {
            let c1 = base[k as int];
            assert(base =~= pre.update(k as int, c1));
            lemma_rect_update(pre, f_loaded(), 0, 128, 0, 128, x as int, y as int, c1);
            lemma_rect_update(pre, f_loaded_size(), 0, 128, 0, 128, x as int, y as int, c1);
            lemma_rect_update(pre, f_size(), 0, 128, 0, 128, x as int, y as int, c1);
            lemma_size_nonneg();
            assert forall|a: int, b: int| #![trigger base[cell_index(a, b)]]
                in_grid(a, b) implies base[cell_index(a, b)].loads() < usize::MAX by {
                assert forall|aa: int, bb: int|
                    win_lo(a, r as int) <= aa < win_hi(a, r as int) && win_lo(b, r as int) <= bb
                        < win_hi(b, r as int) implies #[trigger] f_players()(
                    pre[cell_index(aa, bb)],
                ) <= f_size()(pre[cell_index(aa, bb)]) by {
                    lemma_players_le_size(pre[cell_index(aa, bb)]);
                }
                lemma_rect_le(
                    pre,
                    f_players(),
                    f_size(),
                    win_lo(a, r as int),
                    win_hi(a, r as int),
                    win_lo(b, r as int),
                    win_hi(b, r as int),
                );
                lemma_rect_le_grid(
                    pre,
                    f_size(),
                    win_lo(a, r as int),
                    win_hi(a, r as int),
                    win_lo(b, r as int),
                    win_hi(b, r as int),
                );
                if cell_index(a, b) == k {
                } else {
                    assert(base[cell_index(a, b)] == pre[cell_index(a, b)]);
                }
            }
        }
        let chunk_already_loaded = self.chunks[k].is_loaded();
        let is_player = id.is_player();
        let mut chunks_loaded: usize = 0;
        let mut entities_in_loaded: usize = 0;
        let mut affected: Vec<EntityID> = Vec::new();
        let (xlo, xhi) = window_bounds(x, r);
        let (ylo, yhi) = window_bounds(y, r);
        let mut xx = xlo;
        proof {
            lemma_region_empty(base, xlo as int, xx as int, ylo as int, yhi as int);
            lemma_region_empty(base, xx as int, xx + 1, ylo as int, ylo as int);
            assert(affected@.to_set() =~= Set::<EntityID>::empty());
        }
        while xx < xhi
            invariant
                xlo <= xx <= xhi <= 128,
                ylo < yhi <= 128,
                self.chunks@.len() == GRID_CELLS,
                self.loaded_chunk_count == old(self).loaded_chunk_count,
                self.loaded_entity_count == old(self).loaded_entity_count,
                forall|j: int|
                    0 <= j < GRID_CELLS ==> (#[trigger] self.chunks@[j]).members@ == base[j].members@,
                forall|a: int, b: int|
                    #![trigger self.chunks@[cell_index(a, b)]]
                    in_grid(a, b) ==> self.chunks@[cell_index(a, b)].loads() == base[cell_index(
                        a,
                        b,
                    )].loads() + (if is_player && xlo <= a < xx && ylo <= b < yhi {
                        1int
                    } else {
                        0int
                    }),
                forall|a: int, b: int| #![trigger base[cell_index(a, b)]]
                    in_grid(a, b) ==> base[cell_index(a, b)].loads() < usize::MAX,
                grid_sum(self.chunks@, f_loaded()) == grid_sum(base, f_loaded()) + chunks_loaded,
                grid_sum(self.chunks@, f_loaded_size()) == grid_sum(base, f_loaded_size())
                    + entities_in_loaded,
                grid_sum(self.chunks@, f_size()) == grid_sum(base, f_size()),
                forall|xa: int, ya: int, ra: int| #[trigger]
                    window_sum(self.chunks@, f_players(), xa, ya, ra) == window_sum(
                        base,
                        f_players(),
                        xa,
                        ya,
                        ra,
                    ),
                grid_sum(base, f_size()) <= usize::MAX,
                base.len() == GRID_CELLS,
                affected@.no_duplicates(),
                affected@.to_set() == region_ids(base, xlo as int, xx as int, ylo as int, yhi as int),
            decreases xhi - xx,
        {
            let mut yy = ylo;
            proof {
                lemma_region_empty(base, xx as int, xx + 1, ylo as int, yy as int);
                assert(affected@.to_set() =~= region_ids(
                    base,
                    xlo as int,
                    xx as int,
                    ylo as int,
                    yhi as int,
                ) + region_ids(base, xx as int, xx + 1, ylo as int, yy as int));
            }
            while yy < yhi
                invariant
                    xlo <= xx < xhi <= 128,
                    ylo <= yy <= yhi <= 128,
                    self.chunks@.len() == GRID_CELLS,
                    self.loaded_chunk_count == old(self).loaded_chunk_count,
                    self.loaded_entity_count == old(self).loaded_entity_count,
                    forall|j: int|
                        0 <= j < GRID_CELLS ==> (#[trigger] self.chunks@[j]).members@
                            == base[j].members@,
                    forall|a: int, b: int|
                        #![trigger self.chunks@[cell_index(a, b)]]
                        in_grid(a, b) ==> self.chunks@[cell_index(a, b)].loads() == base[cell_index(
                            a,
                            b,
                        )].loads() + (if is_player && ((xlo <= a < xx && ylo <= b < yhi) || (a
                            == xx && ylo <= b < yy)) {
                            1int
                        } else {
                            0int
                        }),
                    forall|a: int, b: int| #![trigger base[cell_index(a, b)]]
                        in_grid(a, b) ==> base[cell_index(a, b)].loads() < usize::MAX,
                    grid_sum(self.chunks@, f_loaded()) == grid_sum(base, f_loaded())
                        + chunks_loaded,
                    grid_sum(self.chunks@, f_loaded_size()) == grid_sum(base, f_loaded_size())
                        + entities_in_loaded,
                    grid_sum(self.chunks@, f_size()) == grid_sum(base, f_size()),
                    forall|xa: int, ya: int, ra: int| #[trigger]
                        window_sum(self.chunks@, f_players(), xa, ya, ra) == window_sum(
                            base,
                            f_players(),
                            xa,
                            ya,
                            ra,
                        ),
                    grid_sum(base, f_size()) <= usize::MAX,
                    base.len() == GRID_CELLS,
                    affected@.no_duplicates(),
                    affected@.to_set() == region_ids(
                        base,
                        xlo as int,
                        xx as int,
                        ylo as int,
                        yhi as int,
                    ) + region_ids(base, xx as int, xx + 1, ylo as int, yy as int),
                decreases yhi - yy,
            {
                let ghost before = self.chunks@;
                let ghost cc = cell_index(xx as int, yy as int);
                proof {
                    crate::grid::lemma_cell_index(xx as int, yy as int);
                }
                if is_player {
                    let (was_loaded, size) = self.add_viewer(xx, yy);
                    proof {
                        crate::grid::lemma_rect_nonneg(base, f_loaded(), 0, 128, 0, 128);
                        crate::grid::lemma_rect_nonneg(base, f_loaded_size(), 0, 128, 0, 128);
                        lemma_grid_le_cells(self.chunks@, f_loaded(), 128);
                        assert forall|aa: int, bb: int| 0 <= aa < 128 && 0 <= bb < 128 implies
                            #[trigger] f_loaded_size()(self.chunks@[cell_index(aa, bb)]) <= f_size()(
                            self.chunks@[cell_index(aa, bb)],
                        ) by {
                            lemma_players_le_size(self.chunks@[cell_index(aa, bb)]);
                        }
                        lemma_rect_le(self.chunks@, f_loaded_size(), f_size(), 0, 128, 0, 128);
                    }
                    if !was_loaded {
                        chunks_loaded = chunks_loaded + 1;
                        entities_in_loaded = entities_in_loaded + size;
                    }
                    proof {
                        assert forall|a: int, b: int|
                            #![trigger self.chunks@[cell_index(a, b)]]
                            in_grid(a, b) implies self.chunks@[cell_index(a, b)].loads() == base[cell_index(
                                a,
                                b,
                            )].loads() + (if is_player && ((xlo <= a < xx && ylo <= b < yhi) || (a
                                == xx && ylo <= b < yy + 1)) {
                                1int
                            } else {
                                0int
                            }) by {
                            crate::grid::lemma_cell_index(a, b);
                            if cell_index(a, b) == cc {
                                crate::grid::lemma_cell_index_injective(a, b, xx as int, yy as int);
                            } else {
                                assert(self.chunks@[cell_index(a, b)] == before[cell_index(a, b)]);
                                if a == xx && b == yy {
                                }
                            }
                        }
                    }
                }
                proof {
                    assert(self.chunks@[cc].members@ == base[cc].members@);
                }
                extend_unique(&mut affected, &self.chunks[xx * 128 + yy].members);
                proof {
                    lemma_region_add_cell(
                        base,
                        xlo as int,
                        xx as int,
                        ylo as int,
                        yhi as int,
                        yy as int,
                    );
                    assert(base[cc].contents() == base[cc].members@.to_set());
                }
                yy = yy + 1;
            }
            proof {
                lemma_region_next_col(base, xlo as int, xx as int, ylo as int, yhi as int);
            }
            xx = xx + 1;
        }
        affected = remove_id(affected, id);
        proof {
            let fin = self.chunks@;
            lemma_grid_le_cells(fin, f_loaded(), 128);
            assert forall|aa: int, bb: int| 0 <= aa < 128 && 0 <= bb < 128 implies
                #[trigger] f_loaded_size()(fin[cell_index(aa, bb)]) <= f_size()(
                fin[cell_index(aa, bb)],
            ) by {
                lemma_players_le_size(fin[cell_index(aa, bb)]);
            }
            lemma_rect_le(fin, f_loaded_size(), f_size(), 0, 128, 0, 128);
        }
        if chunk_already_loaded {
            self.loaded_entity_count = self.loaded_entity_count + 1;
        }
        self.loaded_chunk_count = self.loaded_chunk_count + chunks_loaded;
        self.loaded_entity_count = self.loaded_entity_count + entities_in_loaded;
        proof {
            let fin = self.chunks@;
            assert forall|j: int| 0 <= j < GRID_CELLS implies #[trigger] fin[j].wf() by {
                assert(base[j].wf());
            }
            assert forall|a: int, b: int| #![trigger fin[cell_index(a, b)]]
                in_grid(a, b) implies fin[cell_index(a, b)].loads() == window_sum(
                fin,
                f_players(),
                a,
                b,
                r as int,
            ) by {
                lemma_window_bounds(x as int, y as int, r as int, a, b);
                crate::grid::lemma_window_update(pre, f_players(), a, b, r as int, x as int, y as int, base[k as int]);
                if cell_index(a, b) != k {
                    assert(base[cell_index(a, b)] == pre[cell_index(a, b)]);
                }
            }
            assert forall|a: int, b: int|
                in_grid(a, b) implies (#[trigger] self.cell(a, b)).contents() == if a == x && b
                    == y {
                    old(self).cell(a, b).contents().insert(id)
                } else {
                    old(self).cell(a, b).contents()
                } by {
                crate::grid::lemma_cell_index(a, b);
                if cell_index(a, b) == k {
                    crate::grid::lemma_cell_index_injective(a, b, x as int, y as int);
                } else {
                    assert(base[cell_index(a, b)] == pre[cell_index(a, b)]);
                    if a == x && b == y {
                    }
                }
            }
            lemma_region_ext(fin, base, xlo as int, xhi as int, ylo as int, yhi as int);
        }
        affected
    }

    /// Removes `id` from the chunk at `(x, y)`. If `id` is a player, every
    /// chunk within radius `r` loses a viewer. Returns the entities in the
    /// chunks within radius `r` of `(x, y)` once `id` has left.
    pub(crate) fn remove_entity(&mut self, x: usize, y: usize, id: EntityID, r: usize) -> (affected: Vec<
        EntityID,
    >)
        requires
            old(self).wf(r as int),
            x < 128,
            y < 128,
            old(self).cell(x as int, y as int).contents().contains(id),
        ensures
            final(self).wf(r as int),
            forall|a: int, b: int|
                in_grid(a, b) ==> (#[trigger] final(self).cell(a, b)).contents() == if a == x && b
                    == y {
                    old(self).cell(a, b).contents().remove(id)
                } else {
                    old(self).cell(a, b).contents()
                },
            affected@.no_duplicates(),
            affected@.to_set() == window_ids(final(self).cells(), x as int, y as int, r as int),
            affected@.to_set() == region_ids_without(
                old(self).cells(),
                win_lo(x as int, r as int),
                win_hi(x as int, r as int),
                win_lo(y as int, r as int),
                win_hi(y as int, r as int),
                x as int,
                y as int,
                id,
            ),
            grid_sum(final(self).cells(), f_size()) == grid_sum(old(self).cells(), f_size()) - 1,
    {
        let k = x * 128 + y;
        let ghost pre = self.chunks@;
        proof {
            crate::grid::lemma_cell_index(x as int, y as int);
        }
        let removed = self.chunks[k].remove(id);
        let ghost base = self.chunks@;
        let chunk_was_loaded = self.chunks[k].is_loaded();
        let is_player = id.is_player();
        proof {
            let c1 = base[k as int];
            assert(base =~= pre.update(k as int, c1));
            lemma_rect_update(pre, f_loaded(), 0, 128, 0, 128, x as int, y as int, c1);
            lemma_rect_update(pre, f_loaded_size(), 0, 128, 0, 128, x as int, y as int, c1);
            lemma_rect_update(pre, f_size(), 0, 128, 0, 128, x as int, y as int, c1);
            assert forall|c: Chunk| #[trigger] f_players()(c) >= 0 by {
                lemma_players_le_size(c);
            }
            assert forall|a: int, b: int| #![trigger base[cell_index(a, b)]]
                in_grid(a, b) && is_player && in_window(x as int, y as int, r as int, a, b)
                implies base[cell_index(a, b)].loads() >= 1 by {
                crate::grid::lemma_window_update(pre, f_players(), a, b, r as int, x as int, y as int, c1);
                assert(pre.update(k as int, c1) =~= base);
                crate::grid::lemma_rect_nonneg(
                    base,
                    f_players(),
                    win_lo(a, r as int),
                    win_hi(a, r as int),
                    win_lo(b, r as int),
                    win_hi(b, r as int),
                );
                if cell_index(a, b) != k {
                    assert(base[cell_index(a, b)] == pre[cell_index(a, b)]);
                }
            }
        }
        proof {
            lemma_grid_le_cells(base, f_loaded(), 128);
            assert forall|aa: int, bb: int| 0 <= aa < 128 && 0 <= bb < 128 implies
                #[trigger] f_loaded_size()(base[cell_index(aa, bb)]) <= f_size()(
                base[cell_index(aa, bb)],
            ) by {
                lemma_players_le_size(base[cell_index(aa, bb)]);
            }
            lemma_rect_le(base, f_loaded_size(), f_size(), 0, 128, 0, 128);
        }
        let mut chunks_unloaded: usize = 0;
        let mut entities_in_unloaded: usize = 0;
        let mut affected: Vec<EntityID> = Vec::new();
        let (xlo, xhi) = window_bounds(x, r);
        let (ylo, yhi) = window_bounds(y, r);
        let mut xx = xlo;
        proof {
            lemma_region_empty(base, xlo as int, xx as int, ylo as int, yhi as int);
            assert(affected@.to_set() =~= Set::<EntityID>::empty());
        }
        while xx < xhi
            invariant
                xlo <= xx <= xhi <= 128,
                ylo < yhi <= 128,
                xlo == win_lo(x as int, r as int),
                xhi == win_hi(x as int, r as int),
                ylo == win_lo(y as int, r as int),
                yhi == win_hi(y as int, r as int),
                x < 128,
                y < 128,
                self.chunks@.len() == GRID_CELLS,
                self.loaded_chunk_count == old(self).loaded_chunk_count,
                self.loaded_entity_count == old(self).loaded_entity_count,
                forall|j: int|
                    0 <= j < GRID_CELLS ==> (#[trigger] self.chunks@[j]).members@ == base[j].members@,
                forall|a: int, b: int|
                    #![trigger self.chunks@[cell_index(a, b)]]
                    in_grid(a, b) ==> self.chunks@[cell_index(a, b)].loads() == base[cell_index(
                        a,
                        b,
                    )].loads() - (if is_player && xlo <= a < xx && ylo <= b < yhi {
                        1int
                    } else {
                        0int
                    }),
                forall|a: int, b: int| #![trigger base[cell_index(a, b)]]
                    in_grid(a, b) && is_player && in_window(x as int, y as int, r as int, a, b)
                        ==> base[cell_index(a, b)].loads() >= 1,
                grid_sum(self.chunks@, f_loaded()) == grid_sum(base, f_loaded()) - chunks_unloaded,
                grid_sum(self.chunks@, f_loaded_size()) == grid_sum(base, f_loaded_size())
                    - entities_in_unloaded,
                grid_sum(self.chunks@, f_size()) == grid_sum(base, f_size()),
                forall|xa: int, ya: int, ra: int| #[trigger]
                    window_sum(self.chunks@, f_players(), xa, ya, ra) == window_sum(
                        base,
                        f_players(),
                        xa,
                        ya,
                        ra,
                    ),
                base.len() == GRID_CELLS,
                grid_sum(base, f_loaded()) <= 16384,
                grid_sum(base, f_loaded_size()) <= usize::MAX,
                affected@.no_duplicates(),
                affected@.to_set() == region_ids(base, xlo as int, xx as int, ylo as int, yhi as int),
            decreases xhi - xx,
        {
            let mut yy = ylo;
            proof {
                lemma_region_empty(base, xx as int, xx + 1, ylo as int, yy as int);
                assert(affected@.to_set() =~= region_ids(
                    base,
                    xlo as int,
                    xx as int,
                    ylo as int,
                    yhi as int,
                ) + region_ids(base, xx as int, xx + 1, ylo as int, yy as int));
            }
            while yy < yhi
                invariant
                    xlo <= xx < xhi <= 128,
                    ylo <= yy <= yhi <= 128,
                    xlo == win_lo(x as int, r as int),
                    xhi == win_hi(x as int, r as int),
                    ylo == win_lo(y as int, r as int),
                    yhi == win_hi(y as int, r as int),
                    x < 128,
                    y < 128,
                    self.chunks@.len() == GRID_CELLS,
                    self.loaded_chunk_count == old(self).loaded_chunk_count,
                    self.loaded_entity_count == old(self).loaded_entity_count,
                    forall|j: int|
                        0 <= j < GRID_CELLS ==> (#[trigger] self.chunks@[j]).members@
                            == base[j].members@,
                    forall|a: int, b: int|
                        #![trigger self.chunks@[cell_index(a, b)]]
                        in_grid(a, b) ==> self.chunks@[cell_index(a, b)].loads() == base[cell_index(
                            a,
                            b,
                        )].loads() - (if is_player && ((xlo <= a < xx && ylo <= b < yhi) || (a
                            == xx && ylo <= b < yy)) {
                            1int
                        } else {
                            0int
                        }),
                    forall|a: int, b: int| #![trigger base[cell_index(a, b)]]
                        in_grid(a, b) && is_player && in_window(x as int, y as int, r as int, a, b)
                            ==> base[cell_index(a, b)].loads() >= 1,
                    grid_sum(self.chunks@, f_loaded()) == grid_sum(base, f_loaded())
                        - chunks_unloaded,
                    grid_sum(self.chunks@, f_loaded_size()) == grid_sum(base, f_loaded_size())
                        - entities_in_unloaded,
                    grid_sum(self.chunks@, f_size()) == grid_sum(base, f_size()),
                    forall|xa: int, ya: int, ra: int| #[trigger]
                        window_sum(self.chunks@, f_players(), xa, ya, ra) == window_sum(
                            base,
                            f_players(),
                            xa,
                            ya,
                            ra,
                        ),
                    base.len() == GRID_CELLS,
                    grid_sum(base, f_loaded()) <= 16384,
                    grid_sum(base, f_loaded_size()) <= usize::MAX,
                    affected@.no_duplicates(),
                    affected@.to_set() == region_ids(
                        base,
                        xlo as int,
                        xx as int,
                        ylo as int,
                        yhi as int,
                    ) + region_ids(base, xx as int, xx + 1, ylo as int, yy as int),
                decreases yhi - yy,
            {
                let ghost before = self.chunks@;
                let ghost cc = cell_index(xx as int, yy as int);
                proof {
                    crate::grid::lemma_cell_index(xx as int, yy as int);
                    assert(self.chunks@[cc].members@ == base[cc].members@);
                }
                extend_unique(&mut affected, &self.chunks[xx * 128 + yy].members);
                proof {
                    lemma_region_add_cell(
                        base,
                        xlo as int,
                        xx as int,
                        ylo as int,
                        yhi as int,
                        yy as int,
                    );
                    assert(base[cc].contents() == base[cc].members@.to_set());
                }
                if is_player {
                    proof {
                        lemma_window_bounds(x as int, y as int, r as int, xx as int, yy as int);
                    }
                    let (unloaded, size) = self.drop_viewer(xx, yy);
                    proof {
                        crate::grid::lemma_rect_nonneg(self.chunks@, f_loaded(), 0, 128, 0, 128);
                        crate::grid::lemma_rect_nonneg(self.chunks@, f_loaded_size(), 0, 128, 0, 128);
                    }
                    if unloaded {
                        chunks_unloaded = chunks_unloaded + 1;
                        entities_in_unloaded = entities_in_unloaded + size;
                    }
                    proof {
                        assert forall|a: int, b: int|
                            #![trigger self.chunks@[cell_index(a, b)]]
                            in_grid(a, b) implies self.chunks@[cell_index(a, b)].loads() == base[cell_index(
                                a,
                                b,
                            )].loads() - (if is_player && ((xlo <= a < xx && ylo <= b < yhi) || (a
                                == xx && ylo <= b < yy + 1)) {
                                1int
                            } else {
                                0int
                            }) by {
                            crate::grid::lemma_cell_index(a, b);
                            if cell_index(a, b) == cc {
                                crate::grid::lemma_cell_index_injective(a, b, xx as int, yy as int);
                            } else {
                                assert(self.chunks@[cell_index(a, b)] == before[cell_index(a, b)]);
                                if a == xx && b == yy {
                                }
                            }
                        }
                    }
                }
                yy = yy + 1;
            }
            proof {
                lemma_region_next_col(base, xlo as int, xx as int, ylo as int, yhi as int);
            }
            xx = xx + 1;
        }
        proof {
            let fin = self.chunks@;
            crate::grid::lemma_rect_nonneg(base, f_loaded_size(), 0, 128, 0, 128);
            crate::grid::lemma_rect_nonneg(fin, f_loaded_size(), 0, 128, 0, 128);
            crate::grid::lemma_rect_nonneg(fin, f_loaded(), 0, 128, 0, 128);
        }
        if chunk_was_loaded {
            self.loaded_entity_count = self.loaded_entity_count - 1;
        }
        self.loaded_chunk_count = self.loaded_chunk_count - chunks_unloaded;
        self.loaded_entity_count = self.loaded_entity_count - entities_in_unloaded;
        proof {
            let fin = self.chunks@;
            assert forall|j: int| 0 <= j < GRID_CELLS implies #[trigger] fin[j].wf() by {
                assert(base[j].wf());
            }
            assert forall|a: int, b: int| #![trigger fin[cell_index(a, b)]]
                in_grid(a, b) implies fin[cell_index(a, b)].loads() == window_sum(
                fin,
                f_players(),
                a,
                b,
                r as int,
            ) by {
                lemma_window_bounds(x as int, y as int, r as int, a, b);
                crate::grid::lemma_window_update(pre, f_players(), a, b, r as int, x as int, y as int, base[k as int]);
                assert(pre.update(k as int, base[k as int]) =~= base);
                if cell_index(a, b) != k {
                    assert(base[cell_index(a, b)] == pre[cell_index(a, b)]);
                }
            }
            assert forall|a: int, b: int|
                in_grid(a, b) implies (#[trigger] self.cell(a, b)).contents() == if a == x && b
                    == y {
                    old(self).cell(a, b).contents().remove(id)
                } else {
                    old(self).cell(a, b).contents()
                } by {
                crate::grid::lemma_cell_index(a, b);
                if cell_index(a, b) == k {
                    crate::grid::lemma_cell_index_injective(a, b, x as int, y as int);
                } else {
                    assert(base[cell_index(a, b)] == pre[cell_index(a, b)]);
                    if a == x && b == y {
                    }
                }
            }
            lemma_region_ext(fin, base, xlo as int, xhi as int, ylo as int, yhi as int);
            lemma_region_empty(base, xhi as int, xhi + 1, ylo as int, ylo as int);
            assert forall|a: int, b: int|
                xlo <= a < xhi && ylo <= b < yhi implies #[trigger] fin[cell_index(a, b)].contents() == if a
                    == x && b == y {
                    pre[cell_index(a, b)].contents().remove(id)
                } else {
                    pre[cell_index(a, b)].contents()
                } by {
                assert(self.cell(a, b) == fin[cell_index(a, b)]);
            }
            lemma_region_without(pre, fin, xlo as int, xhi as int, ylo as int, yhi as int, x as int, y as int, id);
        }
        affected
    }

    /// Number of players in the instance.
    pub(crate) fn get_player_count(&self, Ghost(r): Ghost<int>) -> (n: usize)
        requires
            self.wf(r),
        ensures
            n == grid_sum(self.cells(), f_players()),
    {
        let ghost s = self.chunks@;
        proof {
            assert forall|aa: int, bb: int| 0 <= aa < 128 && 0 <= bb < 128 implies
                #[trigger] f_players()(s[cell_index(aa, bb)]) <= f_size()(s[cell_index(aa, bb)]) by {
                lemma_players_le_size(s[cell_index(aa, bb)]);
            }
            lemma_rect_le(s, f_players(), f_size(), 0, 128, 0, 128);
            assert forall|c: Chunk| #[trigger] f_players()(c) >= 0 by {
                lemma_players_le_size(c);
            }
        }
        let mut n: usize = 0;
        let mut x: usize = 0;
        while x < 128
            invariant
                0 <= x <= 128,
                s == self.chunks@,
                s.len() == GRID_CELLS,
                grid_sum(s, f_players()) <= usize::MAX,
                forall|c: Chunk| #[trigger] f_players()(c) >= 0,
                n == rect_sum(s, f_players(), 0, x as int, 0, 128),
            decreases 128 - x,
        {
            let mut y: usize = 0;
            while y < 128
                invariant
                    0 <= x < 128,
                    0 <= y <= 128,
                    s == self.chunks@,
                    s.len() == GRID_CELLS,
                    grid_sum(s, f_players()) <= usize::MAX,
                    forall|c: Chunk| #[trigger] f_players()(c) >= 0,
                    n == rect_sum(s, f_players(), 0, x as int, 0, 128) + col_sum(
                        s,
                        f_players(),
                        x as int,
                        0,
                        y as int,
                    ),
                decreases 128 - y,
            {
                proof {
                    crate::grid::lemma_cell_index(x as int, y as int);
                    crate::grid::lemma_col_split(s, f_players(), x as int, 0, y + 1, 128);
                    crate::grid::lemma_col_nonneg(s, f_players(), x as int, y + 1, 128);
                    crate::grid::lemma_rect_le_grid(s, f_players(), 0, x + 1, 0, 128);
                }
                let p = self.chunks[x * 128 + y].get_player_count();
                n = n + p;
                y = y + 1;
            }
            x = x + 1;
        }
        n
    }

    /// The entities of the instance, chunk by chunk.
    pub(crate) fn get_ids(&self, Ghost(r): Ghost<int>) -> (ids: Vec<EntityID>)
        requires
            self.wf(r),
        ensures
            ids@ == grid_members(self.cells(), 128),
    {
        let ghost s = self.chunks@;
        let mut ids: Vec<EntityID> = Vec::new();
        let mut x: usize = 0;
        while x < 128
            invariant
                0 <= x <= 128,
                s == self.chunks@,
                s.len() == GRID_CELLS,
                ids@ == grid_members(s, x as int),
            decreases 128 - x,
        {
            let mut y: usize = 0;
            while y < 128
                invariant
                    0 <= x < 128,
                    0 <= y <= 128,
                    s == self.chunks@,
                    s.len() == GRID_CELLS,
                    ids@ == grid_members(s, x as int) + col_members(s, x as int, y as int),
                decreases 128 - y,
            {
                proof {
                    crate::grid::lemma_cell_index(x as int, y as int);
                }
                let members = &self.chunks[x * 128 + y].members;
                let ghost before = ids@;
                let mut i: usize = 0;
                while i < members.len()
                    invariant
                        0 <= i <= members@.len(),
                        ids@ == before + members@.subrange(0, i as int),
                    decreases members@.len() - i,
                {
                    ids.push(members[i]);
                    proof {
                        assert(members@.subrange(0, i + 1) =~= members@.subrange(0, i as int).push(members@[i as int]));
                        assert(ids@ =~= before + members@.subrange(0, i + 1));
                    }
                    i = i + 1;
                }
                proof {
                    assert(members@.subrange(0, i as int) =~= members@);
                    assert(ids@ =~= grid_members(s, x as int) + col_members(s, x as int, y + 1));
                }
                y = y + 1;
            }
            x = x + 1;
        }
        ids
    }

    /// What a well-formed grid guarantees.
    pub(crate) proof fn lemma_wf(&self, r: int)
        requires
            self.wf(r),
        ensures
            r >= 0,
            self.cells().len() == GRID_CELLS,
            forall|k: int| 0 <= k < GRID_CELLS ==> #[trigger] self.cells()[k].wf(),
            forall|a: int, b: int| #[trigger] self.cell(a, b) == self.cells()[cell_index(a, b)],
            forall|a: int, b: int|
                in_grid(a, b) ==> (#[trigger] self.cell(a, b)).loads() == window_sum(
                    self.cells(),
                    f_players(),
                    a,
                    b,
                    r,
                ),
            self.loaded_chunks() == grid_sum(self.cells(), f_loaded()),
            self.loaded_entities() == grid_sum(self.cells(), f_loaded_size()),
            0 <= grid_sum(self.cells(), f_size()) <= usize::MAX,
            0 <= self.loaded_chunks() <= GRID_CELLS,
            0 <= self.loaded_entities() <= grid_sum(self.cells(), f_size()),
            0 <= grid_sum(self.cells(), f_players()) <= grid_sum(self.cells(), f_size()),
    {
        let s = self.chunks@;
        assert forall|a: int, b: int|
            in_grid(a, b) implies (#[trigger] self.cell(a, b)).loads() == window_sum(
                self.cells(),
                f_players(),
                a,
                b,
                r,
            ) by {
            assert(self.chunks@[cell_index(a, b)].loads() == window_sum(
                self.chunks@,
                f_players(),
                a,
                b,
                r,
            ));
        }
        lemma_size_nonneg();
        crate::grid::lemma_rect_nonneg(s, f_size(), 0, 128, 0, 128);
        crate::grid::lemma_rect_nonneg(s, f_loaded(), 0, 128, 0, 128);
        crate::grid::lemma_rect_nonneg(s, f_loaded_size(), 0, 128, 0, 128);
        assert forall|c: Chunk| #[trigger] f_players()(c) >= 0 by {
            lemma_players_le_size(c);
        }
        crate::grid::lemma_rect_nonneg(s, f_players(), 0, 128, 0, 128);
        lemma_grid_le_cells(s, f_loaded(), 128);
        assert forall|aa: int, bb: int| 0 <= aa < 128 && 0 <= bb < 128 implies
            #[trigger] f_loaded_size()(s[cell_index(aa, bb)]) <= f_size()(s[cell_index(aa, bb)]) by {
            lemma_players_le_size(s[cell_index(aa, bb)]);
        }
        lemma_rect_le(s, f_loaded_size(), f_size(), 0, 128, 0, 128);
        assert forall|aa: int, bb: int| 0 <= aa < 128 && 0 <= bb < 128 implies
            #[trigger] f_players()(s[cell_index(aa, bb)]) <= f_size()(s[cell_index(aa, bb)]) by {
            lemma_players_le_size(s[cell_index(aa, bb)]);
        }
        lemma_rect_le(s, f_players(), f_size(), 0, 128, 0, 128);
    }

    /// Number of chunks that some player sees.
    pub(crate) fn loaded_chunk_count(&self) -> (n: usize)
        ensures
            n == self.loaded_chunks(),
    {
        self.loaded_chunk_count
    }

    /// Number of entities in chunks that some player sees.
    pub(crate) fn loaded_entity_count(&self) -> (n: usize)
        ensures
            n == self.loaded_entities(),
    {
        self.loaded_entity_count
    }

    /// The chunk at `(x, y)`.
    pub(crate) fn chunk_ref(&self, x: usize, y: usize, Ghost(r): Ghost<int>) -> (c: &Chunk)
        requires
            self.wf(r),
            x < 128,
            y < 128,
        ensures
            *c == self.cell(x as int, y as int),
    {
        proof {
            crate::grid::lemma_cell_index(x as int, y as int);
        }
        &self.chunks[x * 128 + y]
    }

    /// Whether some player sees the chunk at `(x, y)`.
    pub(crate) fn is_loaded_at(&self, x: usize, y: usize, Ghost(r): Ghost<int>) -> (b: bool)
        requires
            self.wf(r),
            x < 128,
            y < 128,
        ensures
            b == (self.cell(x as int, y as int).loads() > 0),
    {
        proof {
            crate::grid::lemma_cell_index(x as int, y as int);
        }
        self.chunks[x * 128 + y].is_loaded()
    }

    /// The entities in the chunks of the rectangle `[xlo, xhi) x [ylo, yhi)`, each once.
    pub(crate) fn region_entities(
        &self,
        xlo: usize,
        xhi: usize,
        ylo: usize,
        yhi: usize,
        Ghost(r): Ghost<int>,
    ) -> (ids: Vec<EntityID>)
        requires
            self.wf(r),
            xhi <= 128,
            yhi <= 128,
        ensures
            ids@.no_duplicates(),
            ids@.to_set() == region_ids(self.cells(), xlo as int, xhi as int, ylo as int, yhi as int),
    {
        let ghost s = self.chunks@;
        let mut ids: Vec<EntityID> = Vec::new();
        if xlo >= xhi || ylo >= yhi {
            proof {
                lemma_region_empty(s, xlo as int, xhi as int, ylo as int, yhi as int);
                assert(ids@.to_set() =~= Set::<EntityID>::empty());
            }
            return ids;
        }
        let mut xx = xlo;
        proof {
            lemma_region_empty(s, xlo as int, xx as int, ylo as int, yhi as int);
            assert(ids@.to_set() =~= Set::<EntityID>::empty());
        }
        while xx < xhi
            invariant
                xlo <= xx <= xhi <= 128,
                ylo < yhi <= 128,
                s == self.chunks@,
                s.len() == GRID_CELLS,
                ids@.no_duplicates(),
                ids@.to_set() == region_ids(s, xlo as int, xx as int, ylo as int, yhi as int),
            decreases xhi - xx,
        {
            let mut yy = ylo;
            proof {
                lemma_region_empty(s, xx as int, xx + 1, ylo as int, yy as int);
                assert(ids@.to_set() =~= region_ids(s, xlo as int, xx as int, ylo as int, yhi as int)
                    + region_ids(s, xx as int, xx + 1, ylo as int, yy as int));
            }
            while yy < yhi
                invariant
                    xlo <= xx < xhi <= 128,
                    ylo <= yy <= yhi <= 128,
                    s == self.chunks@,
                    s.len() == GRID_CELLS,
                    ids@.no_duplicates(),
                    ids@.to_set() == region_ids(s, xlo as int, xx as int, ylo as int, yhi as int)
                        + region_ids(s, xx as int, xx + 1, ylo as int, yy as int),
                decreases yhi - yy,
            {
                proof {
                    crate::grid::lemma_cell_index(xx as int, yy as int);
                }
                extend_unique(&mut ids, &self.chunks[xx * 128 + yy].members);
                proof {
                    lemma_region_add_cell(s, xlo as int, xx as int, ylo as int, yhi as int, yy as int);
                }
                yy = yy + 1;
            }
            proof {
                lemma_region_next_col(s, xlo as int, xx as int, ylo as int, yhi as int);
            }
            xx = xx + 1;
        }
        ids
    }

    /// A grid of empty chunks that nobody sees.
    pub(crate) fn new(Ghost(r): Ghost<int>) -> (m: Self)
        requires
            r >= 0,
        ensures
            m.wf(r),
            forall|a: int, b: int|
                in_grid(a, b) ==> (#[trigger] m.cell(a, b)).contents() == Set::<EntityID>::empty(),
            grid_sum(m.cells(), f_size()) == 0,
            grid_sum(m.cells(), f_players()) == 0,
            m.loaded_chunks() == 0,
            m.loaded_entities() == 0,
    {
        let mut chunks: Vec<Chunk> = Vec::with_capacity(GRID_CELLS);
        let mut k: usize = 0;
        while k < GRID_CELLS
            invariant
                0 <= k <= GRID_CELLS,
                chunks@.len() == k,
                forall|j: int|
                    0 <= j < k ==> (#[trigger] chunks@[j]).wf() && chunks@[j].contents()
                        == Set::<EntityID>::empty() && chunks@[j].loads() == 0
                        && chunks@[j].players() == 0 && chunks@[j].size() == 0,
            decreases GRID_CELLS - k,
        {
            chunks.push(Chunk::new());
            k = k + 1;
        }
        let m = ChunkMap { chunks, loaded_chunk_count: 0, loaded_entity_count: 0 };
        proof {
            let s = m.chunks@;
            assert forall|a: int, b: int| in_grid(a, b) implies #[trigger] s[cell_index(a, b)].loads()
                == window_sum(s, f_players(), a, b, r) by {
                crate::grid::lemma_cell_index(a, b);
                lemma_rect_zero(s, f_players(), win_lo(a, r), win_hi(a, r), win_lo(b, r), win_hi(b, r));
            }
            lemma_rect_zero(s, f_loaded(), 0, 128, 0, 128);
            lemma_rect_zero(s, f_loaded_size(), 0, 128, 0, 128);
            lemma_rect_zero(s, f_size(), 0, 128, 0, 128);
            lemma_rect_zero(s, f_players(), 0, 128, 0, 128);
            assert forall|a: int, b: int| in_grid(a, b) implies (#[trigger] m.cell(a, b)).contents()
                == Set::<EntityID>::empty() by {
                crate::grid::lemma_cell_index(a, b);
            }
        }
        m
    }
}

} // verus!
