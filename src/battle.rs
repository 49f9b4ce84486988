use vstd::prelude::*;
use crate::key::AccountKey;
use crate::territory::BlockType;

verus! {

/// Seconds a defender has to answer a battle: 24 hours.
pub const RESPONSE_WINDOW: i64 = 86400;

/// Where a battle stands. `Resolved`, `Cancelled` and `Forfeited` are final.
#[derive(Clone, Copy, Debug, PartialEq, Eq, Structural)]
pub enum BattleStatus {
    /// Waiting for the defender's stake.
    Pending,
    /// Both stakes are in; waiting for the outcome.
    Active,
    /// The outcome was recorded.
    Resolved,
    /// The defender did not answer in time; the attacker was refunded.
    Cancelled,
    /// The attacker withdrew; the defender keeps both stakes.
    Forfeited,
}

/// Outcome of a battle, as reported by the grid's authority.
#[derive(Clone, Copy, Debug, PartialEq, Eq, Structural)]
pub enum BattleResult {
    AttackerWon,
    DefenderWon,
}

/// An amount of escrowed tokens to release to `recipient`.
#[derive(Clone, Copy, Debug, PartialEq, Eq, Structural)]
pub struct Payout {
    pub recipient: AccountKey,
    pub amount: u64,
}

/// A staked contest over `target_territory` between `attacker`, who holds the
/// neighbouring `attacker_territory`, and `defender`, the target's owner.
#[derive(Clone, Copy, Debug)]
pub struct Battle {
    pub attacker: AccountKey,
    pub defender: AccountKey,
    pub attacker_territory: (u8, u8),
    pub target_territory: (u8, u8),
    pub attacker_stake: u64,
    pub defender_stake: u64,
    pub winner: Option<AccountKey>,
    pub status: BattleStatus,
    pub initiated_at: i64,
    pub responded_at: Option<i64>,
    pub resolved_at: Option<i64>,
    pub battle_result: Option<BattleResult>,
}

/// Whether no further change may happen to a battle in this status.
pub open spec fn is_terminal(s: BattleStatus) -> bool {
    s == BattleStatus::Resolved || s == BattleStatus::Cancelled || s == BattleStatus::Forfeited
}

/// Whether the response window of a battle started at `initiated_at` has
/// closed at time `now`.
pub open spec fn window_closed(initiated_at: i64, now: i64) -> bool {
    now as int - initiated_at as int > RESPONSE_WINDOW as int
}

impl Battle {
    /// The two stakes together fit in 64 bits, and no defender stake is
    /// recorded before the defender answers.
    pub open spec fn wf(&self) -> bool {
        &&& self.attacker_stake + self.defender_stake <= u64::MAX
        &&& self.status == BattleStatus::Pending ==> self.defender_stake == 0
    }

    /// Whether the battle can still change.
    pub fn is_open(&self) -> (r: bool)
        ensures
            r == !is_terminal(self.status),
    {
        match self.status {
            BattleStatus::Pending | BattleStatus::Active => true,
            _ => false,
        }
    }

    /// Whether the response window has closed at time `now`.
    pub fn response_window_closed(&self, now: i64) -> (r: bool)
        ensures
            r == window_closed(self.initiated_at, now),
    {
        (now as i128) - (self.initiated_at as i128) > RESPONSE_WINDOW as i128
    }

    /// The defender's stake weighted by the defence bonus of the target's
    /// classification (border cells count it 20% higher).
    pub fn effective_defender_stake(&self, target_type: BlockType) -> (r: u128)
        ensures
            r == self.defender_stake as int * target_type.defense_bonus_spec() as int / 100,
    {
        let bonus = target_type.defense_bonus();
        assert(self.defender_stake as int * bonus as int <= u64::MAX as int * 120) by (nonlinear_arith)
            requires
                bonus <= 120,
                self.defender_stake <= u64::MAX,
        ;
        (self.defender_stake as u128) * (bonus as u128) / 100
    }
}

} // verus!
