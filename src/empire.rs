use vstd::prelude::*;
use crate::key::AccountKey;
use crate::territory::manhattan;

verus! {

/// Largest number of territories an empire may hold.
pub const MAX_TERRITORIES: usize = 100;

/// Whether two cells are rook neighbours: one step apart along one axis.
pub open spec fn adjacent(a: (u8, u8), b: (u8, u8)) -> bool {
    manhattan(a.0 as int, a.1 as int, b.0 as int, b.1 as int) == 1
}

/// Whether the set `m` of indices into `cells` contains, with each index,
/// every index whose cell is adjacent to that one's.
pub open spec fn closed_under_adjacency(cells: Seq<(u8, u8)>, m: Set<int>) -> bool {
    forall|i: int, j: int|
        0 <= i < cells.len() && 0 <= j < cells.len() && m.contains(i) && #[trigger] adjacent(
            cells[i],
            cells[j],
        ) ==> m.contains(j)
}

/// Whether `cells` is non-empty and forms one group under adjacency: every
/// set of indices that holds the first cell and is closed under adjacency
/// holds them all.
pub open spec fn contiguous(cells: Seq<(u8, u8)>) -> bool {
    &&& cells.len() > 0
    &&& forall|m: Set<int>|
        m.contains(0) && #[trigger] closed_under_adjacency(cells, m) ==> forall|i: int|
            0 <= i < cells.len() ==> #[trigger] m.contains(i)
}

/// Bonus multiplier, in hundredths, for an empire of `count` territories.
pub open spec fn bonus_for_count(count: int) -> u16 {
    if 4 <= count <= 8 {
        110
    } else if 9 <= count <= 15 {
        125
    } else if count >= 16 {
        150
    } else {
        100
    }
}

/// Number of `true` entries.
pub open spec fn count_true(v: Seq<bool>) -> nat
    decreases v.len(),
{
    if v.len() == 0 {
        0
    } else {
        count_true(v.drop_last()) + if v.last() {
            1nat
        } else {
            0nat
        }
    }
}

proof fn lemma_count_true_set(v: Seq<bool>, i: int)
    requires
        0 <= i < v.len(),
        !v[i],
    ensures
        count_true(v.update(i, true)) == count_true(v) + 1,
    decreases v.len(),
{
    let w = v.update(i, true);
    if i == v.len() - 1 {
        assert(w.drop_last() =~= v.drop_last());
    } else {
        assert(w.drop_last() =~= v.drop_last().update(i, true));
        lemma_count_true_set(v.drop_last(), i);
    }
}

proof fn lemma_count_true_bound(v: Seq<bool>)
    ensures
        count_true(v) <= v.len(),
        count_true(v) == v.len() <==> forall|i: int| 0 <= i < v.len() ==> v[i],
    decreases v.len(),
{
    if v.len() > 0 {
        lemma_count_true_bound(v.drop_last());
        if forall|i: int| 0 <= i < v.len() ==> v[i] {
            assert forall|i: int| 0 <= i < v.drop_last().len() implies v.drop_last()[i] by {
                assert(v[i]);
            }
        }
        if count_true(v) == v.len() {
            assert forall|i: int| 0 <= i < v.len() implies v[i] by {
                if i < v.len() - 1 {
                    assert(v[i] == v.drop_last()[i]);
                }
            }
        }
    }
}

/// A named group of contiguous territories with one owner.
#[derive(Clone, Debug)]
pub struct Empire {
    pub id: u32,
    pub owner: AccountKey,
    pub territory_count: u16,
    pub territories: Vec<(u8, u8)>,
    pub bonus_multiplier: u16,
    pub total_revenue: u64,
    pub formation_timestamp: i64,
    pub last_updated: i64,
}

impl Empire {
    /// The members are distinct, contiguous unless the empire was dissolved
    /// (no members left), at most `MAX_TERRITORIES`, counted by
    /// `territory_count`, and the bonus matches their number.
    pub open spec fn wf(&self) -> bool {
        &&& self.territories@.len() == 0 || contiguous(self.territories@)
        &&& self.territories@.no_duplicates()
        &&& self.territories@.len() <= MAX_TERRITORIES
        &&& self.territory_count == self.territories@.len()
        &&& self.bonus_multiplier == bonus_for_count(self.territories@.len() as int)
    }

    /// Bonus multiplier, in hundredths, for `territory_count` members.
    pub fn calculate_bonus(territory_count: u16) -> (r: u16)
        ensures
            r == bonus_for_count(territory_count as int),
    {
        if 4 <= territory_count && territory_count <= 8 {
            110
        } else if 9 <= territory_count && territory_count <= 15 {
            125
        } else if territory_count >= 16 {
            150
        } else {
            100
        }
    }

    /// Whether some cell occurs twice in `cells`.
    pub fn has_repeats(cells: &[(u8, u8)]) -> (r: bool)
        ensures
            r == !cells@.no_duplicates(),
    {
        let n = cells.len();
        let mut i: usize = 0;
        while i < n
            invariant
                n == cells@.len(),
                i <= n,
                forall|a: int, b: int| 0 <= a < i && a < b < n ==> cells@[a] != cells@[b],
            decreases n - i,
        {
            let mut j: usize = i + 1;
            while j < n
                invariant
                    n == cells@.len(),
                    i < n,
                    i + 1 <= j <= n,
                    forall|a: int, b: int| 0 <= a < i && a < b < n ==> cells@[a] != cells@[b],
                    forall|b: int| i < b < j ==> cells@[i as int] != cells@[b],
                decreases n - j,
            {
                if cells[i].0 == cells[j].0 && cells[i].1 == cells[j].1 {
                    assert(cells@[i as int] == cells@[j as int]);
                    return true;
                }
                j = j + 1;
            }
            i = i + 1;
        }
        false
    }

    /// Whether two cells are rook neighbours.
    pub fn is_adjacent(pos1: (u8, u8), pos2: (u8, u8)) -> (r: bool)
        ensures
            r == adjacent(pos1, pos2),
    {
        let dx: u8 = if pos1.0 >= pos2.0 { pos1.0 - pos2.0 } else { pos2.0 - pos1.0 };
        let dy: u8 = if pos1.1 >= pos2.1 { pos1.1 - pos2.1 } else { pos2.1 - pos1.1 };
        (dx == 1 && dy == 0) || (dx == 0 && dy == 1)
    }

    /// Whether `territories` is non-empty and connected under adjacency,
    /// found by a flood fill from the first cell.
    pub fn is_contiguous(territories: &[(u8, u8)]) -> (r: bool)
        ensures
            r == contiguous(territories@),
    {
        let n = territories.len();
        if n == 0 {
            return false;
        }
        let ghost s = territories@;
        let mut visited: Vec<bool> = Vec::new();
        let mut k: usize = 0;
        while k < n
            invariant
                k <= n,
                n == s.len(),
                visited@.len() == k,
                forall|i: int| 0 <= i < k ==> !visited@[i],
            decreases n - k,
        {
            visited.push(false);
            k = k + 1;
        }
        proof {
            assert(count_true(visited@) == 0) by {
                lemma_count_true_bound(visited@);
                lemma_count_zero(visited@);
            }
            lemma_count_true_set(visited@, 0);
        }
        visited.set(0, true);
        let mut stack: Vec<usize> = Vec::new();
        stack.push(0);
        let mut count: usize = 1;
        proof {
            assert(stack@[0] == 0usize);
            assert(stack@.contains(0usize));
            assert forall|i: int| 0 <= i < n && visited@[i] implies i == 0 by {
                if i != 0 {
                    assert(!visited@[i]);
                }
            }
        }
        while stack.len() > 0
            invariant
                n == s.len(),
                n > 0,
                s == territories@,
                visited@.len() == n,
                visited@[0],
                count == count_true(visited@),
                count <= n,
                forall|k: int| 0 <= k < stack@.len() ==> stack@[k] < n && visited@[stack@[k] as int],
                forall|m: Set<int>|
                    m.contains(0) && #[trigger] closed_under_adjacency(s, m) ==> forall|i: int|
                        0 <= i < n && visited@[i] ==> #[trigger] m.contains(i),
                forall|i: int|
                    0 <= i < n && visited@[i] && !stack@.contains(i as usize) ==> #[trigger] done(
                        s,
                        visited@,
                        i,
                    ),
            decreases 2 * (n - count) + stack@.len(),
        {
            proof {
                lemma_count_true_bound(visited@);
            }
            let ghost measure = 2 * (n - count) + stack@.len();
            let ghost stack_before = stack@;
            let idx = stack.pop().unwrap();
            proof {
                assert(stack_before =~= stack@.push(idx));
                assert forall|i: int|
                    0 <= i < n && visited@[i] && !stack@.contains(i as usize) && i != idx implies #[trigger] done(
                    s,
                    visited@,
                    i,
                ) by {
                    if stack_before.contains(i as usize) {
                        let w = choose|w: int| 0 <= w < stack_before.len() && stack_before[w] == i as usize;
                        if w < stack@.len() {
                            assert(stack@[w] == i as usize);
                        }
                    }
                }
            }
            let pos = territories[idx];
            let mut j: usize = 0;
            while j < n
                invariant
                    n == s.len(),
                    n > 0,
                    s == territories@,
                    idx < n,
                    pos == s[idx as int],
                    j <= n,
                    visited@.len() == n,
                    visited@[0],
                    visited@[idx as int],
                    count == count_true(visited@),
                    count <= n,
                    2 * (n - count) + stack@.len() < measure,
                    forall|k: int| 0 <= k < stack@.len() ==> stack@[k] < n && visited@[stack@[k] as int],
                    forall|m: Set<int>|
                        m.contains(0) && #[trigger] closed_under_adjacency(s, m) ==> forall|i: int|
                            0 <= i < n && visited@[i] ==> #[trigger] m.contains(i),
                    forall|i: int|
                        0 <= i < n && visited@[i] && !stack@.contains(i as usize) && i != idx
                            ==> #[trigger] done(s, visited@, i),
                    forall|t: int| 0 <= t < j && adjacent(pos, s[t]) ==> visited@[t],
                decreases n - j,
            {
                if !visited[j] && Self::is_adjacent(pos, territories[j]) {
                    let ghost before = visited@;
                    let ghost stack_prev = stack@;
                    proof {
                        lemma_count_true_set(visited@, j as int);
                        lemma_count_true_bound(visited@.update(j as int, true));
                    }
                    visited.set(j, true);
                    stack.push(j);
                    count = count + 1;
                    proof {
                        assert(stack@[stack@.len() - 1] == j);
                        assert(stack@.contains(j));
                        assert forall|m: Set<int>|
                            m.contains(0) && #[trigger] closed_under_adjacency(s, m) implies forall|i: int|
                            0 <= i < n && visited@[i] ==> #[trigger] m.contains(i) by {
                            assert(m.contains(idx as int));
                            assert(adjacent(s[idx as int], s[j as int]));
                        }
                        assert forall|i: int|
                            0 <= i < n && visited@[i] && !stack@.contains(i as usize) && i != idx
                            implies #[trigger] done(s, visited@, i) by {
                            assert(i != j);
                            if stack_prev.contains(i as usize) {
                                let w = choose|w: int| 0 <= w < stack_prev.len() && stack_prev[w] == i as usize;
                                assert(stack@[w] == i as usize);
                            }
                            assert(done(s, before, i));
                        }
                    }
                }
                j = j + 1;
            }
            proof {
                assert(done(s, visited@, idx as int));
            }
        }
        proof {
            lemma_count_true_bound(visited@);
            if count == n {
                assert forall|m: Set<int>|
                    m.contains(0) && #[trigger] closed_under_adjacency(s, m) implies forall|i: int|
                    0 <= i < n ==> #[trigger] m.contains(i) by {
                    assert forall|i: int| 0 <= i < n implies #[trigger] m.contains(i) by {
                        assert(visited@[i]);
                    }
                }
            } else {
                let m = Set::new(|i: int| 0 <= i < n && visited@[i]);
                assert(closed_under_adjacency(s, m)) by {
                    assert forall|i: int, j: int|
                        0 <= i < s.len() && 0 <= j < s.len() && m.contains(i) && #[trigger] adjacent(
                            s[i],
                            s[j],
                        ) implies m.contains(j) by {
                        assert(done(s, visited@, i));
                    }
                }
                let u = choose|u: int| 0 <= u < n && !visited@[u];
                assert(!m.contains(u));
                assert(m.contains(0));
            }
        }
        count == n
    }
}

/// Whether every cell adjacent to cell `i` has been reached.
pub open spec fn done(s: Seq<(u8, u8)>, v: Seq<bool>, i: int) -> bool {
    forall|j: int| 0 <= j < s.len() && #[trigger] adjacent(s[i], s[j]) ==> v[j]
}

/// Removing entries keeps a list free of repeats.
pub proof fn lemma_filter_no_duplicates(s: Seq<(u8, u8)>, p: spec_fn((u8, u8)) -> bool)
    requires
        s.no_duplicates(),
    ensures
        s.filter(p).no_duplicates(),
    decreases s.len(),
{
    reveal_with_fuel(Seq::filter, 1);
    if s.len() > 0 {
        let d = s.drop_last();
        assert(d.no_duplicates()) by {
            assert forall|a: int, b: int| 0 <= a < d.len() && 0 <= b < d.len() && a != b implies d[a] != d[b] by {
                assert(d[a] == s[a] && d[b] == s[b]);
            }
        }
        lemma_filter_no_duplicates(d, p);
        if p(s.last()) {
            let f = d.filter(p);
            if f.contains(s.last()) {
                d.lemma_filter_contains_rev(p, s.last());
                let k = choose|k: int| 0 <= k < d.len() && d[k] == s.last();
                assert(s[k] == s[s.len() - 1]);
            }
            let g = f.push(s.last());
            assert forall|a: int, b: int| 0 <= a < g.len() && 0 <= b < g.len() && a != b implies g[a] != g[b] by {
                if a == g.len() - 1 {
                    assert(f[b] == g[b]);
                } else if b == g.len() - 1 {
                    assert(f[a] == g[a]);
                }
            }
        }
    }
}

proof fn lemma_count_zero(v: Seq<bool>)
    requires
        forall|i: int| 0 <= i < v.len() ==> !v[i],
    ensures
        count_true(v) == 0,
    decreases v.len(),
{
    if v.len() > 0 {
        lemma_count_zero(v.drop_last());
    }
}

} // verus!
