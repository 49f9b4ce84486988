use vstd::prelude::*;
use crate::errors::EmpireBlocksError;
use crate::key::AccountKey;
use crate::battle::{BattleResult, BattleStatus, is_terminal, window_closed};
use crate::empire::{adjacent, bonus_for_count, closed_under_adjacency, contiguous};
use crate::game::{Game, carries, count_claimed};
use crate::grid::{FeeSplit, TREASURY_SHARE_BPS, bps_of, split_matches};

verus! {

/// In every reachable game the grid holds `N * N` cells, and the number of
/// claims, which counts the claimed cells, never exceeds it.
pub proof fn claims_never_exceed_grid(g: Game)
    requires
        g.wf(),
    ensures
        g.grid.total_territories == g.grid.grid_size * g.grid.grid_size,
        g.cells@.len() == g.grid.grid_size * g.grid.grid_size,
        g.grid.territories_minted == count_claimed(g.cells@),
        g.grid.territories_minted <= g.grid.total_territories,
{
}

/// A sale's fee split distributes exactly the fee, which is the price times
/// the fee rate rounded down; the treasury gets at least its own rate of the
/// fee, the rounding remainders included; and the seller's part and the
/// fee add up to the price.
pub proof fn fee_split_conserves_price(s: FeeSplit, price: int, fee_bps: int)
    requires
        0 <= price,
        0 <= fee_bps <= 10000,
        split_matches(s, price, fee_bps),
    ensures
        s.total_fee == price * fee_bps / 10000,
        s.owner_share + s.empire_share + s.treasury_share == s.total_fee,
        s.treasury_share >= bps_of(s.total_fee as int, TREASURY_SHARE_BPS as int),
        s.seller_receives + s.total_fee == price,
{
    let fee = s.total_fee as int;
    assert(fee - fee * 6000 / 10000 - fee * 2500 / 10000 >= fee * 1500 / 10000) by (nonlinear_arith)
        requires
            fee >= 0,
    ;
}

/// The empire bonus never falls as the number of members grows.
pub proof fn bonus_is_monotone(a: int, b: int)
    requires
        a <= b,
    ensures
        bonus_for_count(a) <= bonus_for_count(b),
{
}

/// A cell with no neighbour among the others keeps a group of two or more
/// cells from being contiguous.
pub proof fn isolated_cell_breaks_contiguity(cells: Seq<(u8, u8)>, i: int)
    requires
        cells.len() >= 2,
        0 <= i < cells.len(),
        forall|j: int| 0 <= j < cells.len() ==> !#[trigger] adjacent(cells[i], cells[j]),
    ensures
        !contiguous(cells),
{
    let m = if i == 0 {
        Set::new(|k: int| k == 0)
    } else {
        Set::new(|k: int| 0 <= k < cells.len() && k != i)
    };
    assert(closed_under_adjacency(cells, m)) by {
        assert forall|a: int, b: int|
            0 <= a < cells.len() && 0 <= b < cells.len() && m.contains(a) && #[trigger] adjacent(
                cells[a],
                cells[b],
            ) implies m.contains(b) by {
            if i == 0 {
                assert(!adjacent(cells[0], cells[b]));
            } else if b == i {
                assert(!adjacent(cells[i], cells[a]));
            }
        }
    }
    assert(m.contains(0));
    if i == 0 {
        assert(!m.contains(1));
    } else {
        assert(!m.contains(i));
    }
}

/// For a pending battle, at any time exactly one of answering and
/// cancelling is open: once the response window has closed the defender
/// can no longer answer, and cancellation succeeds exactly then.
pub proof fn response_and_expiry_exclude(g: Game, battle_id: u32, defender: AccountKey, stake: u64, now: i64)
    requires
        g.wf(),
        battle_id < g.battles@.len(),
        g.battles@[battle_id as int].status == BattleStatus::Pending,
    ensures
        g.expire_error(battle_id, now) is None <==> window_closed(
            g.battles@[battle_id as int].initiated_at,
            now,
        ),
        window_closed(g.battles@[battle_id as int].initiated_at, now) ==> g.defend_error(
            defender,
            battle_id,
            stake,
            now,
        ) is Some,
{
}

/// A battle that was resolved, cancelled or forfeited is final: answering,
/// cancelling, resolving and forfeiting it are all refused, whoever asks.
pub proof fn settled_battles_are_final(
    g: Game,
    battle_id: u32,
    caller: AccountKey,
    stake: u64,
    result: BattleResult,
    now: i64,
)
    requires
        g.wf(),
        battle_id < g.battles@.len(),
        is_terminal(g.battles@[battle_id as int].status),
    ensures
        g.defend_error(caller, battle_id, stake, now) is Some,
        g.expire_error(battle_id, now) is Some,
        g.resolve_error(caller, battle_id, result) is Some,
        g.forfeit_error(caller, battle_id) is Some,
{
}

/// An attack from a cell the attacker owns on a cell the attacker does not
/// own is refused with `NotAdjacent` whenever the two cells are not rook
/// neighbours, whether the target is claimed or not.
pub proof fn distant_attack_is_refused(g: Game, attacker: AccountKey, from: (u8, u8), target: (u8, u8), stake: u64)
    requires
        g.wf(),
        g.in_bounds(target.0 as int, target.1 as int),
        g.owns(attacker, from.0 as int, from.1 as int),
        !g.owns(attacker, target.0 as int, target.1 as int),
        !adjacent(from, target),
    ensures
        g.initiate_error(attacker, from, target, stake) == Some(EmpireBlocksError::NotAdjacent),
{
}

/// No cell is a member of two empires, so no cell counts toward two bonuses.
pub proof fn cell_in_one_empire_at_most(g: Game, i: int, j: int, k: int, l: int)
    requires
        g.wf(),
        0 <= i < g.empires@.len(),
        0 <= j < g.empires@.len(),
        0 <= k < g.empires@[i].territories@.len(),
        0 <= l < g.empires@[j].territories@.len(),
        g.empires@[i].territories@[k] == g.empires@[j].territories@[l],
    ensures
        i == j,
{
    assert(carries(g.n(), g.cells@, g.empires@[i].territories@[k], i));
    assert(carries(g.n(), g.cells@, g.empires@[j].territories@[l], j));
}

} // verus!
