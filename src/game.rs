use vstd::prelude::*;
use crate::key::AccountKey;
use crate::battle::{Battle, is_terminal};
use crate::empire::{Empire, MAX_TERRITORIES, bonus_for_count, contiguous, lemma_filter_no_duplicates};
use crate::errors::EmpireBlocksError;
use crate::grid::{FeeSplit, GridState, after_sale, fresh_grid, sale_fits};
use crate::territory::{Territory, VisualConfig, block_type_of, determine_block_type};

verus! {

/// Position of cell `(x, y)` in the row-major list of cells of an `n`-wide grid.
pub open spec fn cell_index(n: int, x: int, y: int) -> int {
    y * n + x
}

/// Number of claimed cells.
pub open spec fn count_claimed(cells: Seq<Option<Territory>>) -> nat
    decreases cells.len(),
{
    if cells.len() == 0 {
        0
    } else {
        count_claimed(cells.drop_last()) + if cells.last() is Some {
            1nat
        } else {
            0nat
        }
    }
}

pub(crate) proof fn lemma_count_claimed_update(cells: Seq<Option<Territory>>, i: int, c: Option<Territory>)
    requires
        0 <= i < cells.len(),
    ensures
        cells[i] is None && c is Some ==> count_claimed(cells.update(i, c)) == count_claimed(cells) + 1,
        cells[i] is Some && c is Some ==> count_claimed(cells.update(i, c)) == count_claimed(cells),
    decreases cells.len(),
{
    let w = cells.update(i, c);
    if i == cells.len() - 1 {
        assert(w.drop_last() =~= cells.drop_last());
    } else {
        assert(w.drop_last() =~= cells.drop_last().update(i, c));
        lemma_count_claimed_update(cells.drop_last(), i, c);
    }
}

proof fn lemma_count_claimed_bound(cells: Seq<Option<Territory>>)
    ensures
        count_claimed(cells) <= cells.len(),
    decreases cells.len(),
{
    if cells.len() > 0 {
        lemma_count_claimed_bound(cells.drop_last());
    }
}

proof fn lemma_count_claimed_empty(cells: Seq<Option<Territory>>)
    requires
        forall|i: int| 0 <= i < cells.len() ==> cells[i] is None,
    ensures
        count_claimed(cells) == 0,
    decreases cells.len(),
{
    if cells.len() > 0 {
        lemma_count_claimed_empty(cells.drop_last());
    }
}

pub(crate) proof fn lemma_index_in_grid(n: int, x: int, y: int)
    requires
        0 <= x < n,
        0 <= y < n,
    ensures
        0 <= cell_index(n, x, y) < n * n,
{
    assert(0 <= y * n + x < n * n) by (nonlinear_arith)
        requires
            0 <= x < n,
            0 <= y < n,
    ;
}

pub(crate) proof fn lemma_index_unique(n: int, a: int, b: int, x: int, y: int)
    requires
        0 <= a < n,
        0 <= b < n,
        0 <= x < n,
        0 <= y < n,
        cell_index(n, a, b) == cell_index(n, x, y),
    ensures
        a == x && b == y,
{
    assert(a == x && b == y) by (nonlinear_arith)
        requires
            0 <= a < n,
            0 <= b < n,
            0 <= x < n,
            0 <= y < n,
            b * n + a == y * n + x,
    ;
}

/// Cell slot `c` after empire `id` took the cells `members`: a member
/// carries the id, a former member loses it, other cells keep theirs.
pub open spec fn restamp(c: Option<Territory>, members: Seq<(u8, u8)>, id: u32) -> Option<Territory> {
    match c {
        None => None,
        Some(t) => Some(
            Territory {
                empire_id: if members.contains((t.x, t.y)) {
                    Some(id)
                } else if t.empire_id == Some(id) {
                    None
                } else {
                    t.empire_id
                },
                ..t
            },
        ),
    }
}

/// Whether `cells` holds `c`.
fn contains_cell(cells: &Vec<(u8, u8)>, c: (u8, u8)) -> (r: bool)
    ensures
        r == cells@.contains(c),
{
    let mut i: usize = 0;
    while i < cells.len()
        invariant
            i <= cells@.len(),
            forall|j: int| 0 <= j < i ==> cells@[j] != c,
        decreases cells@.len() - i,
    {
        if cells[i].0 == c.0 && cells[i].1 == c.1 {
            assert(cells@[i as int] == c);
            return true;
        }
        i = i + 1;
    }
    false
}

/// Every claimed cell records its own coordinates, the classification of
/// its position and the multiplier of that classification.
pub open spec fn cells_wf(n: int, cells: Seq<Option<Territory>>) -> bool {
    forall|x: int, y: int|
        #![trigger cells[cell_index(n, x, y)]]
        0 <= x < n && 0 <= y < n ==> (cells[cell_index(n, x, y)] matches Some(t) ==> {
            &&& t.x == x && t.y == y
            &&& t.block_type == block_type_of(x, y, n)
            &&& t.revenue_multiplier == t.block_type.base_multiplier_spec()
        })
}

/// The empires are at most `u32::MAX`, each is well formed and sits at the
/// position of its id.
pub open spec fn empires_wf(es: Seq<Empire>) -> bool {
    &&& es.len() <= u32::MAX
    &&& forall|i: int| 0 <= i < es.len() ==> #[trigger] es[i].wf() && es[i].id == i
}

/// The test that keeps every cell but `c`.
pub open spec fn not_cell(c: (u8, u8)) -> spec_fn((u8, u8)) -> bool {
    |m: (u8, u8)| m != c
}

/// Whether cell `c` is on the `n`-wide grid, claimed, and marked as a
/// member of empire `i`.
pub open spec fn carries(n: int, cells: Seq<Option<Territory>>, c: (u8, u8), i: int) -> bool {
    &&& c.0 < n && c.1 < n
    &&& cells[cell_index(n, c.0 as int, c.1 as int)] is Some
    &&& cells[cell_index(n, c.0 as int, c.1 as int)]->0.empire_id == Some(i as u32)
}

/// Every member of every empire is a claimed cell marked with that
/// empire's id; so no cell is a member of two empires.
pub open spec fn members_stamped(n: int, cells: Seq<Option<Territory>>, es: Seq<Empire>) -> bool {
    forall|i: int, k: int|
        0 <= i < es.len() && 0 <= k < es[i].territories@.len() ==> #[trigger] carries(
            n,
            cells,
            es[i].territories@[k],
            i,
        )
}

/// The battles are at most `u32::MAX`, each is well formed, and no two open
/// battles contest the same cell.
pub open spec fn battles_wf(bs: Seq<Battle>) -> bool {
    &&& bs.len() <= u32::MAX
    &&& forall|i: int| 0 <= i < bs.len() ==> #[trigger] bs[i].wf()
    &&& forall|i: int, j: int|
        0 <= i < bs.len() && 0 <= j < bs.len() && i != j && !is_terminal(#[trigger] bs[i].status)
            && !is_terminal(#[trigger] bs[j].status) ==> bs[i].target_territory != bs[j].target_territory
}

impl Territory {
    /// The record of cell `(x, y)` of an `n`-wide grid claimed by `owner`
    /// at time `now`.
    pub fn claim(x: u8, y: u8, n: u8, owner: AccountKey, now: i64) -> (r: Territory)
        requires
            n >= 1,
        ensures
            is_fresh_claim(r, x, y, n, owner, now),
    {
        let block_type = determine_block_type(x, y, n);
        Territory {
            x,
            y,
            owner,
            block_type,
            empire_id: None,
            revenue_multiplier: block_type.base_multiplier(),
            last_sale_price: 0,
            total_revenue_earned: 0,
            purchase_timestamp: now,
            visual_config: VisualConfig::default(),
        }
    }

    /// This record after a sale to `buyer` for `price` at time `now`: the
    /// cell changes owner, records the price and leaves its empire.
    pub fn sold_to(&self, buyer: AccountKey, price: u64, now: i64) -> (r: Territory)
        ensures
            r == (Territory {
                owner: buyer,
                last_sale_price: price,
                purchase_timestamp: now,
                empire_id: None,
                ..*self
            }),
    {
        Territory { owner: buyer, last_sale_price: price, purchase_timestamp: now, empire_id: None, ..*self }
    }
}

/// Whether `t` is the record of a cell `(x, y)` just claimed by `owner` at
/// time `now` on an `n`-wide grid.
pub open spec fn is_fresh_claim(t: Territory, x: u8, y: u8, n: u8, owner: AccountKey, now: i64) -> bool {
    &&& t.x == x && t.y == y
    &&& t.owner == owner
    &&& t.block_type == block_type_of(x as int, y as int, n as int)
    &&& t.empire_id is None
    &&& t.revenue_multiplier == t.block_type.base_multiplier_spec()
    &&& t.last_sale_price == 0
    &&& t.total_revenue_earned == 0
    &&& t.purchase_timestamp == now
    &&& t.visual_config.color_r == 100 && t.visual_config.color_g == 100 && t.visual_config.color_b == 100
    &&& t.visual_config.pattern == 0 && t.visual_config.logo_index == 0
    &&& forall|i: int| 0 <= i < 10 ==> t.visual_config.reserved[i] == 0
}

/// The whole state of a game: grid configuration, one slot per cell (row
/// by row), the empires by id and the battles by id.
#[derive(Debug)]
pub struct Game {
    pub grid: GridState,
    pub cells: Vec<Option<Territory>>,
    pub empires: Vec<Empire>,
    pub battles: Vec<Battle>,
}

impl Game {
    /// Side of the grid.
    pub open spec fn n(&self) -> int {
        self.grid.grid_size as int
    }

    /// The slot of cell `(x, y)`.
    pub open spec fn cell(&self, x: int, y: int) -> Option<Territory> {
        self.cells@[cell_index(self.n(), x, y)]
    }

    /// Whether `(x, y)` lies on the grid.
    pub open spec fn in_bounds(&self, x: int, y: int) -> bool {
        0 <= x < self.n() && 0 <= y < self.n()
    }

    /// Whether `(x, y)` lies on the grid and is owned by `who`.
    pub open spec fn owns(&self, who: AccountKey, x: int, y: int) -> bool {
        &&& self.in_bounds(x, y)
        &&& self.cell(x, y) matches Some(t) && t.owner == who
    }

    /// The invariant that every operation keeps.
    pub open spec fn wf(&self) -> bool {
        &&& self.grid.wf()
        &&& self.cells@.len() == self.grid.total_territories
        &&& self.grid.territories_minted == count_claimed(self.cells@)
        &&& cells_wf(self.n(), self.cells@)
        &&& empires_wf(self.empires@)
        &&& members_stamped(self.n(), self.cells@, self.empires@)
        &&& battles_wf(self.battles@)
    }

    /// Position of the in-bounds cell `(x, y)` in `cells`.
    pub(crate) fn index_of(&self, x: u8, y: u8) -> (r: usize)
        requires
            self.wf(),
            self.in_bounds(x as int, y as int),
        ensures
            r == cell_index(self.n(), x as int, y as int),
            r < self.cells@.len(),
    {
        proof {
            lemma_index_in_grid(self.n(), x as int, y as int);
        }
        (y as usize) * (self.grid.grid_size as usize) + (x as usize)
    }

    /// The record of cell `(x, y)`, or `None` where it is off the grid or unclaimed.
    pub fn territory(&self, x: u8, y: u8) -> (r: Option<Territory>)
        requires
            self.wf(),
        ensures
            r == if self.in_bounds(x as int, y as int) {
                self.cell(x as int, y as int)
            } else {
                None
            },
    {
        if x >= self.grid.grid_size || y >= self.grid.grid_size {
            return None;
        }
        let idx = self.index_of(x, y);
        self.cells[idx]
    }

    /// A new game on a `grid_size` by `grid_size` grid with no cell claimed,
    /// administered by `authority`. Fails with `InvalidConfiguration` on a
    /// grid of side 0.
    pub fn initialize_grid(authority: AccountKey, grid_size: u8, now: i64) -> (r: Result<
        Game,
        EmpireBlocksError,
    >)
        ensures
            grid_size == 0 <==> r == Err::<Game, _>(EmpireBlocksError::InvalidConfiguration),
            grid_size > 0 <==> r is Ok,
            r matches Ok(g) ==> {
                &&& g.wf()
                &&& g.grid == fresh_grid(authority, grid_size, now)
                &&& g.grid.total_territories == grid_size * grid_size
                &&& g.grid.territories_minted == 0
                &&& g.grid.authority == authority
                &&& forall|x: int, y: int| g.in_bounds(x, y) ==> #[trigger] g.cell(x, y) is None
                &&& g.empires@.len() == 0
                &&& g.battles@.len() == 0
            },
    {
        let grid = match GridState::new(authority, grid_size, now) {
            Ok(g) => g,
            Err(e) => return Err(e),
        };
        let total = grid.total_territories as usize;
        let mut cells: Vec<Option<Territory>> = Vec::new();
        let mut k: usize = 0;
        while k < total
            invariant
                k <= total,
                cells@.len() == k,
                forall|i: int| 0 <= i < k ==> cells@[i] is None,
            decreases total - k,
        {
            cells.push(None);
            k = k + 1;
        }
        proof {
            lemma_count_claimed_empty(cells@);
        }
        let g = Game { grid, cells, empires: Vec::new(), battles: Vec::new() };
        assert forall|x: int, y: int| g.in_bounds(x, y) implies #[trigger] g.cell(x, y) is None by {
            lemma_index_in_grid(g.n(), x, y);
        }
        assert(cells_wf(g.n(), g.cells@)) by {
            assert forall|x: int, y: int|
                #![trigger g.cells@[cell_index(g.n(), x, y)]]
                0 <= x < g.n() && 0 <= y < g.n() implies g.cells@[cell_index(g.n(), x, y)] is None by {
                lemma_index_in_grid(g.n(), x, y);
            }
        }
        Ok(g)
    }

    /// `buyer` claims cell `(x, y)` at time `now`. The cell's classification
    /// and multiplier follow from its position. Fails with `OutOfBounds` off
    /// the grid and with `AlreadyClaimed` on an owned cell.
    pub fn mint_territory(&mut self, x: u8, y: u8, buyer: AccountKey, now: i64) -> (r: Result<
        (),
        EmpireBlocksError,
    >)
        requires
            old(self).wf(),
        ensures
            final(self).wf(),
            !old(self).in_bounds(x as int, y as int) ==> r == Err::<(), _>(
                EmpireBlocksError::OutOfBounds,
            ),
            old(self).in_bounds(x as int, y as int) && old(self).cell(x as int, y as int) is Some
                ==> r == Err::<(), _>(EmpireBlocksError::AlreadyClaimed),
            r is Err ==> *final(self) == *old(self),
            r is Ok <==> old(self).in_bounds(x as int, y as int) && old(self).cell(
                x as int,
                y as int,
            ) is None,
            r is Ok ==> {
                &&& final(self).cell(x as int, y as int) matches Some(t) && is_fresh_claim(
                    t,
                    x,
                    y,
                    old(self).grid.grid_size,
                    buyer,
                    now,
                )
                &&& final(self).cells@ == old(self).cells@.update(
                    cell_index(old(self).n(), x as int, y as int),
                    final(self).cell(x as int, y as int),
                )
                &&& final(self).grid == (GridState {
                    territories_minted: (old(self).grid.territories_minted + 1) as u16,
                    ..old(self).grid
                })
                &&& final(self).empires == old(self).empires
                &&& final(self).battles == old(self).battles
            },
    {
        if x >= self.grid.grid_size || y >= self.grid.grid_size {
            return Err(EmpireBlocksError::OutOfBounds);
        }
        let idx = self.index_of(x, y);
        if self.cells[idx].is_some() {
            return Err(EmpireBlocksError::AlreadyClaimed);
        }
        let t = Territory::claim(x, y, self.grid.grid_size, buyer, now);
        proof {
            lemma_count_claimed_update(self.cells@, idx as int, Some(t));
            lemma_count_claimed_bound(self.cells@.update(idx as int, Some(t)));
        }
        let ghost prev = *self;
        self.cells.set(idx, Some(t));
        match self.grid.record_claim() {
            Ok(()) => {},
            Err(e) => return Err(e),
        }
        proof {
            assert forall|a: int, b: int|
                #![trigger self.cells@[cell_index(self.n(), a, b)]]
                0 <= a < self.n() && 0 <= b < self.n() implies (self.cells@[cell_index(self.n(), a, b)] matches Some(u) ==> {
                    &&& u.x == a && u.y == b
                    &&& u.block_type == block_type_of(a, b, self.n())
                    &&& u.revenue_multiplier == u.block_type.base_multiplier_spec()
                }) by {
                lemma_index_in_grid(self.n(), a, b);
                if cell_index(self.n(), a, b) != idx {
                    assert(self.cell(a, b) == prev.cell(a, b));
                } else {
                    lemma_index_unique(self.n(), a, b, x as int, y as int);
                }
            }
            assert forall|i: int, k: int|
                0 <= i < self.empires@.len() && 0 <= k < self.empires@[i].territories@.len() implies #[trigger] carries(
                self.n(),
                self.cells@,
                self.empires@[i].territories@[k],
                i,
            ) by {
                let c = self.empires@[i].territories@[k];
                assert(carries(prev.n(), prev.cells@, c, i));
                lemma_index_in_grid(self.n(), c.0 as int, c.1 as int);
            }
        }
        Ok(())
    }

    /// The empire that cell `(x, y)` is a member of, if any.
    pub open spec fn leaving_id(&self, x: int, y: int) -> Option<u32> {
        match self.cell(x, y) {
            Some(t) => match t.empire_id {
                Some(e) => if e < self.empires@.len() {
                    Some(e)
                } else {
                    None
                },
                None => None,
            },
            None => None,
        }
    }

    /// The members that empire `eid` keeps when cell `c` leaves it: the
    /// others while they stay contiguous; otherwise none, and the empire
    /// dissolves.
    pub open spec fn kept_members(&self, eid: u32, c: (u8, u8)) -> Seq<(u8, u8)> {
        let rest = self.empires@[eid as int].territories@.filter(not_cell(c));
        if rest.len() > 0 && contiguous(rest) {
            rest
        } else {
            Seq::empty()
        }
    }

    /// Whether `g` is this game after cell `(x, y)` left its empire at time
    /// `now`: the cell loses its mark, and its empire keeps `kept_members`,
    /// with the count and the bonus recomputed; cells it no longer keeps
    /// lose their mark too.
    pub open spec fn left_empire(&self, g: Game, x: u8, y: u8, now: i64) -> bool {
        let idx = cell_index(self.n(), x as int, y as int);
        &&& g.grid == self.grid
        &&& g.battles == self.battles
        &&& g.cells@.len() == self.cells@.len()
        &&& match self.leaving_id(x as int, y as int) {
            None => g.cells@ == self.cells@.update(
                idx,
                Some(Territory { empire_id: None, ..self.cell(x as int, y as int)->0 }),
            ) && g.empires == self.empires,
            Some(eid) => {
                let kept = self.kept_members(eid, (x, y));
                let e = self.empires@[eid as int];
                let f = g.empires@[eid as int];
                &&& forall|i: int| 0 <= i < self.cells@.len() ==> #[trigger] g.cells@[i] == restamp(self.cells@[i], kept, eid)
                &&& g.empires@ == self.empires@.update(eid as int, f)
                &&& f.territories@ == kept
                &&& f.territory_count == kept.len()
                &&& f.bonus_multiplier == bonus_for_count(kept.len() as int)
                &&& f.last_updated == now
                &&& f.id == e.id && f.owner == e.owner && f.total_revenue == e.total_revenue
                &&& f.formation_timestamp == e.formation_timestamp
            },
        }
    }

    /// Takes the claimed cell `(x, y)` out of its empire, if it is in one.
    pub(crate) fn leave_empire(&mut self, x: u8, y: u8, now: i64)
        requires
            old(self).wf(),
            old(self).in_bounds(x as int, y as int),
            old(self).cell(x as int, y as int) is Some,
        ensures
            final(self).wf(),
            old(self).left_empire(*final(self), x, y, now),
            final(self).cell(x as int, y as int) == Some(
                Territory { empire_id: None, ..old(self).cell(x as int, y as int)->0 },
            ),
            forall|i: int, k: int|
                0 <= i < final(self).empires@.len() && 0 <= k < final(self).empires@[i].territories@.len()
                    ==> #[trigger] final(self).empires@[i].territories@[k] != (x, y),
    {
        let ghost prev = *self;
        let idx = self.index_of(x, y);
        let t = self.cells[idx].unwrap();
        proof {
            assert(t.x == x && t.y == y);
        }
        let eid: u32 = match t.empire_id {
            Some(e) => e,
            None => 0,
        };
        if t.empire_id.is_some() && (eid as usize) < self.empires.len() {
            let n_members = self.empires[eid as usize].territories.len();
            let ghost old_members = self.empires@[eid as int].territories@;
            let mut rest: Vec<(u8, u8)> = Vec::new();
            let mut i: usize = 0;
            while i < n_members
                invariant
                    *self == prev,
                    eid < self.empires@.len(),
                    old_members == self.empires@[eid as int].territories@,
                    n_members == old_members.len(),
                    i <= n_members,
                    rest@ == old_members.take(i as int).filter(not_cell((x, y))),
                decreases n_members - i,
            {
                let m = self.empires[eid as usize].territories[i];
                proof {
                    let tk = old_members.take(i as int + 1);
                    assert(tk.drop_last() =~= old_members.take(i as int));
                    assert(tk.last() == m);
                    reveal_with_fuel(Seq::filter, 1);
                    assert(tk.filter(not_cell((x, y))) == if not_cell((x, y))(tk.last()) {
                        tk.drop_last().filter(not_cell((x, y))).push(tk.last())
                    } else {
                        tk.drop_last().filter(not_cell((x, y)))
                    });
                }
                if !(m.0 == x && m.1 == y) {
                    rest.push(m);
                }
                i = i + 1;
            }
            assert(old_members.take(n_members as int) =~= old_members);
            proof {
                assert(prev.empires@[eid as int].wf());
                lemma_filter_no_duplicates(old_members, not_cell((x, y)));
                old_members.lemma_filter_len(not_cell((x, y)));
            }
            let keep = rest.len() > 0 && Empire::is_contiguous(rest.as_slice());
            let kept: Vec<(u8, u8)> = if keep {
                rest
            } else {
                Vec::new()
            };
            assert(kept@ == prev.kept_members(eid, (x, y)));
            self.restamp_cells(&kept, eid);
            let e_id = self.empires[eid as usize].id;
            let e_owner = self.empires[eid as usize].owner;
            let e_revenue = self.empires[eid as usize].total_revenue;
            let e_formed = self.empires[eid as usize].formation_timestamp;
            let count = kept.len() as u16;
            let bonus = Empire::calculate_bonus(count);
            let ghost kept_seq = kept@;
            self.empires.set(
                eid as usize,
                Empire {
                    id: e_id,
                    owner: e_owner,
                    territory_count: count,
                    territories: kept,
                    bonus_multiplier: bonus,
                    total_revenue: e_revenue,
                    formation_timestamp: e_formed,
                    last_updated: now,
                },
            );
            proof {
                assert(self.cell(x as int, y as int) == restamp(prev.cell(x as int, y as int), kept_seq, eid));
                assert(!kept_seq.contains((x, y))) by {
                    if kept_seq.contains((x, y)) {
                        let w = choose|w: int| 0 <= w < kept_seq.len() && kept_seq[w] == (x, y);
                        old_members.lemma_filter_pred(not_cell((x, y)), w);
                    }
                }
                let rest_seq = old_members.filter(not_cell((x, y)));
                assert(kept_seq.no_duplicates()) by {
                    if kept_seq.len() > 0 {
                        assert(kept_seq == rest_seq);
                    }
                }
                assert(kept_seq.len() <= MAX_TERRITORIES) by {
                    if kept_seq.len() > 0 {
                        assert(kept_seq == rest_seq);
                    }
                }
                assert(self.empires@[eid as int].wf());
                assert forall|q: int| 0 <= q < self.empires@.len() implies #[trigger] self.empires@[q].wf()
                    && self.empires@[q].id == q by {
                    if q != eid {
                        assert(self.empires@[q] == prev.empires@[q]);
                    }
                }
                assert forall|a: int, k: int|
                    0 <= a < self.empires@.len() && 0 <= k < self.empires@[a].territories@.len() implies #[trigger] carries(
                    self.n(),
                    self.cells@,
                    self.empires@[a].territories@[k],
                    a,
                ) by {
                    let c = self.empires@[a].territories@[k];
                    if a == eid {
                        assert(kept_seq.contains(c));
                        old_members.lemma_filter_contains_rev(not_cell((x, y)), c);
                        let w = choose|w: int| 0 <= w < old_members.len() && old_members[w] == c;
                        assert(carries(prev.n(), prev.cells@, old_members[w], eid as int));
                        lemma_index_in_grid(self.n(), c.0 as int, c.1 as int);
                    } else {
                        assert(self.empires@[a] == prev.empires@[a]);
                        assert(carries(prev.n(), prev.cells@, c, a));
                        lemma_index_in_grid(self.n(), c.0 as int, c.1 as int);
                        let u = prev.cells@[cell_index(self.n(), c.0 as int, c.1 as int)]->0;
                        if kept_seq.contains((u.x, u.y)) {
                            old_members.lemma_filter_contains_rev(not_cell((x, y)), (u.x, u.y));
                            let w = choose|w: int| 0 <= w < old_members.len() && old_members[w] == (u.x, u.y);
                            assert(carries(prev.n(), prev.cells@, old_members[w], eid as int));
                        }
                    }
                }
                assert forall|a: int, k: int|
                    0 <= a < self.empires@.len() && 0 <= k < self.empires@[a].territories@.len()
                        implies #[trigger] self.empires@[a].territories@[k] != (x, y) by {
                    if a == eid {
                        if self.empires@[a].territories@[k] == (x, y) {
                            assert(kept_seq[k] == (x, y));
                            assert(kept_seq.contains((x, y)));
                        }
                    } else {
                        assert(self.empires@[a] == prev.empires@[a]);
                        if self.empires@[a].territories@[k] == (x, y) {
                            assert(carries(prev.n(), prev.cells@, prev.empires@[a].territories@[k], a));
                            assert(prev.cells@[idx as int] == Some(t));
                        }
                    }
                }
            }
        } else {
            let nt = Territory { empire_id: None, ..t };
            proof {
                lemma_count_claimed_update(self.cells@, idx as int, Some(nt));
            }
            self.cells.set(idx, Some(nt));
            proof {
                assert forall|a: int, b: int|
                    #![trigger self.cells@[cell_index(self.n(), a, b)]]
                    0 <= a < self.n() && 0 <= b < self.n() implies (self.cells@[cell_index(self.n(), a, b)] matches Some(u) ==> {
                        &&& u.x == a && u.y == b
                        &&& u.block_type == block_type_of(a, b, self.n())
                        &&& u.revenue_multiplier == u.block_type.base_multiplier_spec()
                    }) by {
                    lemma_index_in_grid(self.n(), a, b);
                    if cell_index(self.n(), a, b) != idx {
                        assert(self.cells@[cell_index(self.n(), a, b)] == prev.cells@[cell_index(prev.n(), a, b)]);
                    } else {
                        lemma_index_unique(self.n(), a, b, x as int, y as int);
                    }
                }
                assert forall|a: int, k: int|
                    0 <= a < self.empires@.len() && 0 <= k < self.empires@[a].territories@.len() implies #[trigger] carries(
                    self.n(),
                    self.cells@,
                    self.empires@[a].territories@[k],
                    a,
                ) by {
                    let c = self.empires@[a].territories@[k];
                    assert(carries(prev.n(), prev.cells@, c, a));
                    lemma_index_in_grid(self.n(), c.0 as int, c.1 as int);
                    if cell_index(self.n(), c.0 as int, c.1 as int) == idx {
                        lemma_index_unique(self.n(), c.0 as int, c.1 as int, x as int, y as int);
                    }
                }
                assert forall|a: int, k: int|
                    0 <= a < self.empires@.len() && 0 <= k < self.empires@[a].territories@.len()
                        implies #[trigger] self.empires@[a].territories@[k] != (x, y) by {
                    let c = self.empires@[a].territories@[k];
                    assert(carries(self.n(), self.cells@, c, a));
                }
            }
        }
    }

    /// `seller` sells cell `(x, y)` to `buyer` for `sale_price` at time `now`.
    /// The returned split says what the buyer owes: `seller_receives` to the
    /// seller and `total_fee` to the treasury. The fee is added to the grid's
    /// totals, and the cell changes owner and records the price. Fails with
    /// `OutOfBounds` off the grid, `Unclaimed` on a free cell, `NotOwner`
    /// where `seller` does not own it, `ArithmeticOverflow` where the fee or
    /// a total leaves 64 bits.
    pub fn transfer_territory(
        &mut self,
        x: u8,
        y: u8,
        seller: AccountKey,
        buyer: AccountKey,
        sale_price: u64,
        now: i64,
    ) -> (r: Result<FeeSplit, EmpireBlocksError>)
        requires
            old(self).wf(),
        ensures
            final(self).wf(),
            r is Err ==> *final(self) == *old(self),
            !old(self).in_bounds(x as int, y as int) ==> r == Err::<FeeSplit, _>(
                EmpireBlocksError::OutOfBounds,
            ),
            old(self).in_bounds(x as int, y as int) && old(self).cell(x as int, y as int) is None
                ==> r == Err::<FeeSplit, _>(EmpireBlocksError::Unclaimed),
            old(self).in_bounds(x as int, y as int) && old(self).cell(x as int, y as int) is Some
                && old(self).cell(x as int, y as int)->0.owner != seller ==> r == Err::<FeeSplit, _>(
                EmpireBlocksError::NotOwner,
            ),
            old(self).owns(seller, x as int, y as int) && !sale_fits(old(self).grid, sale_price as int)
                ==> r == Err::<FeeSplit, _>(EmpireBlocksError::ArithmeticOverflow),
            r is Ok <==> old(self).owns(seller, x as int, y as int) && sale_fits(
                old(self).grid,
                sale_price as int,
            ),
            r matches Ok(split) ==> {
                &&& crate::grid::split_matches(split, sale_price as int, old(self).grid.protocol_fee_bps as int)
                &&& final(self).grid == after_sale(old(self).grid, sale_price as int)
                &&& exists|mid: Game|
                    #[trigger] old(self).left_empire(mid, x, y, now) && final(self).empires == mid.empires
                        && final(self).cells@ == mid.cells@.update(
                        cell_index(old(self).n(), x as int, y as int),
                        Some(
                            Territory {
                                owner: buyer,
                                last_sale_price: sale_price,
                                purchase_timestamp: now,
                                empire_id: None,
                                ..old(self).cell(x as int, y as int)->0
                            },
                        ),
                    )
                &&& final(self).battles == old(self).battles
            },
    {
        if x >= self.grid.grid_size || y >= self.grid.grid_size {
            return Err(EmpireBlocksError::OutOfBounds);
        }
        let idx = self.index_of(x, y);
        let t = match self.cells[idx] {
            Some(t) => t,
            None => return Err(EmpireBlocksError::Unclaimed),
        };
        if t.owner != seller {
            return Err(EmpireBlocksError::NotOwner);
        }
        let split = match self.grid.fee_split(sale_price) {
            Ok(s) => s,
            Err(e) => return Err(e),
        };
        let mut grid = self.grid;
        match grid.record_sale(sale_price) {
            Ok(_) => {},
            Err(e) => return Err(e),
        }
        let ghost before = *self;
        self.leave_empire(x, y, now);
        let ghost prev = *self;
        self.grid = grid;
        let nt = t.sold_to(buyer, sale_price, now);
        proof {
            lemma_count_claimed_update(self.cells@, idx as int, Some(nt));
        }
        self.cells.set(idx, Some(nt));
        proof {
            assert(before.left_empire(prev, x, y, now));
            assert forall|a: int, b: int|
                #![trigger self.cells@[cell_index(self.n(), a, b)]]
                0 <= a < self.n() && 0 <= b < self.n() implies (self.cells@[cell_index(self.n(), a, b)] matches Some(u) ==> {
                    &&& u.x == a && u.y == b
                    &&& u.block_type == block_type_of(a, b, self.n())
                    &&& u.revenue_multiplier == u.block_type.base_multiplier_spec()
                }) by {
                lemma_index_in_grid(self.n(), a, b);
                if cell_index(self.n(), a, b) != idx {
                    assert(self.cells@[cell_index(self.n(), a, b)] == prev.cells@[cell_index(prev.n(), a, b)]);
                } else {
                    lemma_index_unique(self.n(), a, b, x as int, y as int);
                }
            }
            assert forall|a: int, k: int|
                0 <= a < self.empires@.len() && 0 <= k < self.empires@[a].territories@.len() implies #[trigger] carries(
                self.n(),
                self.cells@,
                self.empires@[a].territories@[k],
                a,
            ) by {
                let c = self.empires@[a].territories@[k];
                assert(carries(prev.n(), prev.cells@, c, a));
                assert(c != (x, y));
                lemma_index_in_grid(self.n(), c.0 as int, c.1 as int);
                if cell_index(self.n(), c.0 as int, c.1 as int) == idx {
                    lemma_index_unique(self.n(), c.0 as int, c.1 as int, x as int, y as int);
                }
            }
        }
        Ok(split)
    }

    /// Whether `owner` owns every cell of `members`.
    pub open spec fn owns_all(&self, owner: AccountKey, members: Seq<(u8, u8)>) -> bool {
        forall|k: int| 0 <= k < members.len() ==> #[trigger] self.owns(owner, members[k].0 as int, members[k].1 as int)
    }

    /// The id that `update_empire` gives: `empire_id`, or the next free id.
    pub open spec fn target_empire_id(&self, empire_id: Option<u32>) -> u32 {
        match empire_id {
            Some(i) => i,
            None => self.empires@.len() as u32,
        }
    }

    /// Whether no cell of `members` belongs to an empire other than `id`.
    pub open spec fn free_for(&self, members: Seq<(u8, u8)>, id: u32) -> bool {
        forall|k: int|
            0 <= k < members.len() ==> #[trigger] self.cell_free_for(members[k], id)
    }

    /// Whether cell `c` belongs to no empire or to empire `id`.
    pub open spec fn cell_free_for(&self, c: (u8, u8), id: u32) -> bool {
        self.cell(c.0 as int, c.1 as int)->0.empire_id is None || self.cell(c.0 as int, c.1 as int)->0.empire_id
            == Some(id)
    }

    /// The error with which `update_empire(owner, empire_id, members, _)`
    /// is refused, if any, in order of precedence.
    pub open spec fn empire_error(&self, owner: AccountKey, empire_id: Option<u32>, members: Seq<(u8, u8)>) -> Option<
        EmpireBlocksError,
    > {
        if members.len() > MAX_TERRITORIES {
            Some(EmpireBlocksError::EmpireTooBig)
        } else if empire_id is Some && empire_id->0 >= self.empires@.len() {
            Some(EmpireBlocksError::EmpireNotFound)
        } else if empire_id is Some && self.empires@[empire_id->0 as int].owner != owner {
            Some(EmpireBlocksError::NotAuthorized)
        } else if empire_id is None && self.empires@.len() >= u32::MAX {
            Some(EmpireBlocksError::ArithmeticOverflow)
        } else if !self.owns_all(owner, members) {
            Some(EmpireBlocksError::NotOwner)
        } else if !members.no_duplicates() {
            Some(EmpireBlocksError::DuplicateTerritory)
        } else if !self.free_for(members, self.target_empire_id(empire_id)) {
            Some(EmpireBlocksError::InAnotherEmpire)
        } else if !contiguous(members) {
            Some(EmpireBlocksError::NotContiguous)
        } else {
            None
        }
    }

    /// Whether `owner` owns cell `c`.
    pub(crate) fn owns_cell(&self, owner: AccountKey, c: (u8, u8)) -> (r: bool)
        requires
            self.wf(),
        ensures
            r == self.owns(owner, c.0 as int, c.1 as int),
    {
        if c.0 >= self.grid.grid_size || c.1 >= self.grid.grid_size {
            return false;
        }
        let idx = self.index_of(c.0, c.1);
        match self.cells[idx] {
            Some(t) => t.owner == owner,
            None => false,
        }
    }

    /// Applies `restamp` with `members` and `id` to every cell.
    fn restamp_cells(&mut self, members: &Vec<(u8, u8)>, id: u32)
        requires
            old(self).grid.wf(),
            old(self).cells@.len() == old(self).grid.total_territories,
            cells_wf(old(self).n(), old(self).cells@),
        ensures
            final(self).cells@.len() == old(self).cells@.len(),
            forall|i: int| 0 <= i < old(self).cells@.len() ==> #[trigger] final(self).cells@[i] == restamp(
                old(self).cells@[i],
                members@,
                id,
            ),
            count_claimed(final(self).cells@) == count_claimed(old(self).cells@),
            cells_wf(final(self).n(), final(self).cells@),
            final(self).grid == old(self).grid,
            final(self).empires == old(self).empires,
            final(self).battles == old(self).battles,
    {
        let ghost prev = *self;
        let n_cells = self.cells.len();
        let mut i: usize = 0;
        while i < n_cells
            invariant
                n_cells == self.cells@.len(),
                n_cells == prev.cells@.len(),
                i <= n_cells,
                self.grid == prev.grid,
                self.empires == prev.empires,
                self.battles == prev.battles,
                forall|j: int| 0 <= j < i ==> #[trigger] self.cells@[j] == restamp(prev.cells@[j], members@, id),
                forall|j: int| i <= j < n_cells ==> #[trigger] self.cells@[j] == prev.cells@[j],
                count_claimed(self.cells@) == count_claimed(prev.cells@),
            decreases n_cells - i,
        {
            match self.cells[i] {
                Some(t) => {
                    let member = contains_cell(members, (t.x, t.y));
                    let stamp = if member {
                        Some(id)
                    } else if t.empire_id == Some(id) {
                        None
                    } else {
                        t.empire_id
                    };
                    proof {
                        lemma_count_claimed_update(self.cells@, i as int, Some(Territory { empire_id: stamp, ..t }));
                    }
                    self.cells.set(i, Some(Territory { empire_id: stamp, ..t }));
                },
                None => {},
            }
            i = i + 1;
        }
        proof {
            assert forall|a: int, b: int|
                #![trigger self.cells@[cell_index(self.n(), a, b)]]
                0 <= a < self.n() && 0 <= b < self.n() implies (self.cells@[cell_index(self.n(), a, b)] matches Some(u) ==> {
                    &&& u.x == a && u.y == b
                    &&& u.block_type == block_type_of(a, b, self.n())
                    &&& u.revenue_multiplier == u.block_type.base_multiplier_spec()
                }) by {
                lemma_index_in_grid(self.n(), a, b);
                assert(self.cell(a, b) == restamp(prev.cell(a, b), members@, id));
            }
        }
    }

    /// `owner` forms a new empire from `members` (`empire_id` is `None`) or
    /// replaces the members of empire `empire_id`, at time `now`. The
    /// bonus follows the number of members. Every member cell is marked
    /// with the empire's id, and cells that carried the id but are no
    /// longer members lose it. Returns the empire's id.
    pub fn update_empire(&mut self, owner: AccountKey, empire_id: Option<u32>, members: Vec<(u8, u8)>, now: i64) -> (r:
        Result<u32, EmpireBlocksError>)
        requires
            old(self).wf(),
        ensures
            final(self).wf(),
            r is Err <==> old(self).empire_error(owner, empire_id, members@) is Some,
            r matches Err(e) ==> old(self).empire_error(owner, empire_id, members@) == Some(e),
            r is Err ==> *final(self) == *old(self),
            r matches Ok(id) ==> {
                let e = final(self).empires@[id as int];
                &&& empire_id matches Some(old_id) ==> id == old_id && final(self).empires@ == old(
                    self,
                ).empires@.update(id as int, e) && e.formation_timestamp == old(self).empires@[id as int].formation_timestamp
                    && e.total_revenue == old(self).empires@[id as int].total_revenue
                &&& empire_id is None ==> id == old(self).empires@.len() && final(self).empires@ == old(
                    self,
                ).empires@.push(e) && e.formation_timestamp == now && e.total_revenue == 0
                &&& e.id == id && e.owner == owner
                &&& e.territories@ == members@
                &&& e.territory_count == members@.len()
                &&& e.bonus_multiplier == bonus_for_count(members@.len() as int)
                &&& e.last_updated == now
                &&& final(self).cells@.len() == old(self).cells@.len()
                &&& forall|i: int| 0 <= i < old(self).cells@.len() ==> #[trigger] final(self).cells@[i] == restamp(
                    old(self).cells@[i],
                    members@,
                    id,
                )
                &&& final(self).grid == old(self).grid
                &&& final(self).battles == old(self).battles
            },
    {
        if members.len() > MAX_TERRITORIES {
            return Err(EmpireBlocksError::EmpireTooBig);
        }
        match empire_id {
            Some(id) => {
                if id as usize >= self.empires.len() {
                    return Err(EmpireBlocksError::EmpireNotFound);
                }
                if self.empires[id as usize].owner != owner {
                    return Err(EmpireBlocksError::NotAuthorized);
                }
            },
            None => {
                if self.empires.len() >= u32::MAX as usize {
                    return Err(EmpireBlocksError::ArithmeticOverflow);
                }
            },
        }
        let mut k: usize = 0;
        while k < members.len()
            invariant
                self.wf(),
                *self == *old(self),
                k <= members@.len(),
                members@.len() <= MAX_TERRITORIES,
                empire_id matches Some(id) ==> id < self.empires@.len() && self.empires@[id as int].owner
                    == owner,
                empire_id is None ==> self.empires@.len() < u32::MAX,
                forall|q: int| 0 <= q < k ==> #[trigger] self.owns(owner, members@[q].0 as int, members@[q].1 as int),
            decreases members@.len() - k,
        {
            if !self.owns_cell(owner, members[k]) {
                assert(!self.owns(owner, members@[k as int].0 as int, members@[k as int].1 as int));
                return Err(EmpireBlocksError::NotOwner);
            }
            k = k + 1;
        }
        if Empire::has_repeats(members.as_slice()) {
            return Err(EmpireBlocksError::DuplicateTerritory);
        }
        let id: u32 = match empire_id {
            Some(id) => id,
            None => self.empires.len() as u32,
        };
        let mut k: usize = 0;
        while k < members.len()
            invariant
                self.wf(),
                *self == *old(self),
                k <= members@.len(),
                id == self.target_empire_id(empire_id),
                self.owns_all(owner, members@),
                members@.no_duplicates(),
                members@.len() <= MAX_TERRITORIES,
                empire_id matches Some(i) ==> i < self.empires@.len() && self.empires@[i as int].owner
                    == owner,
                empire_id is None ==> self.empires@.len() < u32::MAX,
                forall|q: int| 0 <= q < k ==> #[trigger] self.cell_free_for(members@[q], id),
            decreases members@.len() - k,
        {
            let c = members[k];
            assert(self.owns(owner, members@[k as int].0 as int, members@[k as int].1 as int));
            let idx = self.index_of(c.0, c.1);
            match self.cells[idx] {
                Some(t) => {
                    if t.empire_id.is_some() && t.empire_id != Some(id) {
                        assert(!self.cell_free_for(members@[k as int], id));
                        return Err(EmpireBlocksError::InAnotherEmpire);
                    }
                },
                None => {},
            }
            k = k + 1;
        }
        if !Empire::is_contiguous(members.as_slice()) {
            return Err(EmpireBlocksError::NotContiguous);
        }
        let ghost prev = *self;
        self.restamp_cells(&members, id);
        let count = members.len() as u16;
        let bonus = Empire::calculate_bonus(count);
        let (formed, revenue) = match empire_id {
            Some(id) => (self.empires[id as usize].formation_timestamp, self.empires[id as usize].total_revenue),
            None => (now, 0),
        };
        let e = Empire {
            id,
            owner,
            territory_count: count,
            territories: members,
            bonus_multiplier: bonus,
            total_revenue: revenue,
            formation_timestamp: formed,
            last_updated: now,
        };
        match empire_id {
            Some(_) => {
                self.empires.set(id as usize, e);
            },
            None => {
                self.empires.push(e);
            },
        }
        proof {
            assert forall|q: int| 0 <= q < self.empires@.len() implies #[trigger] self.empires@[q].wf()
                && self.empires@[q].id == q by {
                if q != id {
                    assert(self.empires@[q] == prev.empires@[q]);
                }
            }
            assert forall|i: int, k: int|
                0 <= i < self.empires@.len() && 0 <= k < self.empires@[i].territories@.len() implies #[trigger] carries(
                self.n(),
                self.cells@,
                self.empires@[i].territories@[k],
                i,
            ) by {
                let c = self.empires@[i].territories@[k];
                let j = cell_index(self.n(), c.0 as int, c.1 as int);
                if i == id {
                    assert(c == members@[k]);
                    assert(prev.owns(owner, members@[k].0 as int, members@[k].1 as int));
                    lemma_index_in_grid(self.n(), c.0 as int, c.1 as int);
                    assert(members@.contains(c));
                } else {
                    assert(self.empires@[i] == prev.empires@[i]);
                    assert(carries(prev.n(), prev.cells@, c, i));
                    lemma_index_in_grid(self.n(), c.0 as int, c.1 as int);
                    let t = prev.cells@[j]->0;
                    if members@.contains((t.x, t.y)) {
                        let q = choose|q: int| 0 <= q < members@.len() && members@[q] == (t.x, t.y);
                        assert(prev.cell_free_for(members@[q], id));
                    }
                }
            }
        }
        Ok(id)
    }

    /// The grid's authority sets the smallest stake that starts a battle
    /// and the treasury's skim of a battle's pot, in basis points. Fails
    /// with `NotAuthorized` for anyone else and with `InvalidConfiguration`
    /// for a skim above 100%.
    pub fn configure_battles(&mut self, caller: AccountKey, min_stake: u64, skim_bps: u16) -> (r: Result<
        (),
        EmpireBlocksError,
    >)
        requires
            old(self).wf(),
        ensures
            final(self).wf(),
            caller != old(self).grid.authority ==> r == Err::<(), _>(EmpireBlocksError::NotAuthorized),
            caller == old(self).grid.authority && skim_bps > 10000 ==> r == Err::<(), _>(
                EmpireBlocksError::InvalidConfiguration,
            ),
            r is Ok <==> caller == old(self).grid.authority && skim_bps <= 10000,
            r is Err ==> *final(self) == *old(self),
            r is Ok ==> final(self).grid == (GridState {
                min_battle_stake: min_stake,
                battle_skim_bps: skim_bps,
                ..old(self).grid
            }) && final(self).cells == old(self).cells && final(self).empires == old(self).empires
                && final(self).battles == old(self).battles,
    {
        if caller != self.grid.authority {
            return Err(EmpireBlocksError::NotAuthorized);
        }
        if skim_bps > 10000 {
            return Err(EmpireBlocksError::InvalidConfiguration);
        }
        self.grid.min_battle_stake = min_stake;
        self.grid.battle_skim_bps = skim_bps;
        Ok(())
    }
}

} // verus!
