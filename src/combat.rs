use vstd::prelude::*;
use crate::battle::{Battle, BattleResult, BattleStatus, Payout, is_terminal, window_closed};
use crate::empire::{Empire, adjacent};
use crate::errors::EmpireBlocksError;
use crate::game::{
    Game, battles_wf, carries, cell_index, lemma_count_claimed_update, lemma_index_in_grid,
    lemma_index_unique,
};
use crate::grid::{GridState, bps_of, share_of};
use crate::key::AccountKey;
use crate::territory::{Territory, block_type_of};

verus! {

/// The treasury's part of the two stakes of `b` at a skim of `skim_bps`.
pub open spec fn battle_skim(b: Battle, skim_bps: u16) -> int {
    bps_of(b.attacker_stake + b.defender_stake, skim_bps as int)
}

/// Whether an open battle contests `target`.
pub open spec fn has_open_battle(bs: Seq<Battle>, target: (u8, u8)) -> bool {
    exists|i: int| 0 <= i < bs.len() && !is_terminal(#[trigger] bs[i].status) && bs[i].target_territory == target
}

proof fn lemma_battle_replaced(bs: Seq<Battle>, id: int, nb: Battle)
    requires
        battles_wf(bs),
        0 <= id < bs.len(),
        nb.wf(),
        nb.target_territory == bs[id].target_territory,
        !is_terminal(nb.status) ==> !is_terminal(bs[id].status),
    ensures
        battles_wf(bs.update(id, nb)),
{
    let nbs = bs.update(id, nb);
    assert forall|i: int| 0 <= i < nbs.len() implies #[trigger] nbs[i].wf() by {
        if i != id {
            assert(nbs[i] == bs[i]);
        }
    }
    assert forall|i: int, j: int|
        0 <= i < nbs.len() && 0 <= j < nbs.len() && i != j && !is_terminal(#[trigger] nbs[i].status)
            && !is_terminal(#[trigger] nbs[j].status) implies nbs[i].target_territory
        != nbs[j].target_territory by {
        assert(!is_terminal(bs[i].status) && !is_terminal(bs[j].status));
        assert(bs[i].target_territory == nbs[i].target_territory);
        assert(bs[j].target_territory == nbs[j].target_territory);
    }
}

impl Game {
    /// Whether an open battle contests `target`.
    fn open_battle_at(&self, target: (u8, u8)) -> (r: bool)
        ensures
            r == has_open_battle(self.battles@, target),
    {
        let mut i: usize = 0;
        while i < self.battles.len()
            invariant
                i <= self.battles@.len(),
                forall|j: int| 0 <= j < i ==> !(!is_terminal(#[trigger] self.battles@[j].status)
                    && self.battles@[j].target_territory == target),
            decreases self.battles@.len() - i,
        {
            let b = &self.battles[i];
            if b.is_open() && b.target_territory.0 == target.0 && b.target_territory.1 == target.1 {
                return true;
            }
            i = i + 1;
        }
        false
    }

    /// The error with which `initiate_battle(attacker, from, target, stake, _)`
    /// is refused, if any, in order of precedence.
    pub open spec fn initiate_error(&self, attacker: AccountKey, from: (u8, u8), target: (u8, u8), stake: u64) -> Option<
        EmpireBlocksError,
    > {
        if !self.in_bounds(from.0 as int, from.1 as int) || !self.in_bounds(target.0 as int, target.1 as int) {
            Some(EmpireBlocksError::OutOfBounds)
        } else if !self.owns(attacker, from.0 as int, from.1 as int) {
            Some(EmpireBlocksError::NotOwner)
        } else if self.owns(attacker, target.0 as int, target.1 as int) {
            Some(EmpireBlocksError::CannotAttackOwnTerritory)
        } else if !adjacent(from, target) {
            Some(EmpireBlocksError::NotAdjacent)
        } else if self.cell(target.0 as int, target.1 as int) is None {
            Some(EmpireBlocksError::Unclaimed)
        } else if stake < self.grid.min_battle_stake {
            Some(EmpireBlocksError::InsufficientStake)
        } else if has_open_battle(self.battles@, target) {
            Some(EmpireBlocksError::InvalidBattleStatus)
        } else if self.battles@.len() >= u32::MAX {
            Some(EmpireBlocksError::ArithmeticOverflow)
        } else {
            None
        }
    }

    /// `attacker`, owner of cell `from`, attacks the neighbouring cell
    /// `target` with `stake` at time `now`. The caller escrows the stake.
    /// The new battle is pending, against the target's owner; its id is
    /// returned.
    pub fn initiate_battle(&mut self, attacker: AccountKey, from: (u8, u8), target: (u8, u8), stake: u64, now: i64) -> (r:
        Result<u32, EmpireBlocksError>)
        requires
            old(self).wf(),
        ensures
            final(self).wf(),
            r is Err <==> old(self).initiate_error(attacker, from, target, stake) is Some,
            r matches Err(e) ==> old(self).initiate_error(attacker, from, target, stake) == Some(e),
            r is Err ==> *final(self) == *old(self),
            r matches Ok(id) ==> {
                &&& id == old(self).battles@.len()
                &&& final(self).battles@ == old(self).battles@.push(
                    Battle {
                        attacker,
                        defender: old(self).cell(target.0 as int, target.1 as int)->0.owner,
                        attacker_territory: from,
                        target_territory: target,
                        attacker_stake: stake,
                        defender_stake: 0,
                        winner: None,
                        status: BattleStatus::Pending,
                        initiated_at: now,
                        responded_at: None,
                        resolved_at: None,
                        battle_result: None,
                    },
                )
                &&& final(self).grid == old(self).grid
                &&& final(self).cells == old(self).cells
                &&& final(self).empires == old(self).empires
            },
    {
        let n = self.grid.grid_size;
        if from.0 >= n || from.1 >= n || target.0 >= n || target.1 >= n {
            return Err(EmpireBlocksError::OutOfBounds);
        }
        if !self.owns_cell(attacker, from) {
            return Err(EmpireBlocksError::NotOwner);
        }
        if self.owns_cell(attacker, target) {
            return Err(EmpireBlocksError::CannotAttackOwnTerritory);
        }
        if !Empire::is_adjacent(from, target) {
            return Err(EmpireBlocksError::NotAdjacent);
        }
        let idx = self.index_of(target.0, target.1);
        let defender = match self.cells[idx] {
            Some(t) => t.owner,
            None => return Err(EmpireBlocksError::Unclaimed),
        };
        if stake < self.grid.min_battle_stake {
            return Err(EmpireBlocksError::InsufficientStake);
        }
        if self.open_battle_at(target) {
            return Err(EmpireBlocksError::InvalidBattleStatus);
        }
        if self.battles.len() >= u32::MAX as usize {
            return Err(EmpireBlocksError::ArithmeticOverflow);
        }
        let id = self.battles.len() as u32;
        let ghost prev = self.battles@;
        self.battles.push(
            Battle {
                attacker,
                defender,
                attacker_territory: from,
                target_territory: target,
                attacker_stake: stake,
                defender_stake: 0,
                winner: None,
                status: BattleStatus::Pending,
                initiated_at: now,
                responded_at: None,
                resolved_at: None,
                battle_result: None,
            },
        );
        proof {
            let bs = self.battles@;
            assert forall|i: int| 0 <= i < bs.len() implies #[trigger] bs[i].wf() by {
                if i < prev.len() {
                    assert(bs[i] == prev[i]);
                }
            }
            assert forall|i: int, j: int|
                0 <= i < bs.len() && 0 <= j < bs.len() && i != j && !is_terminal(#[trigger] bs[i].status)
                    && !is_terminal(#[trigger] bs[j].status) implies bs[i].target_territory
                != bs[j].target_territory by {
                if i < prev.len() && j < prev.len() {
                    assert(bs[i] == prev[i] && bs[j] == prev[j]);
                } else if i < prev.len() {
                    assert(bs[i] == prev[i]);
                } else {
                    assert(bs[j] == prev[j]);
                }
            }
        }
        Ok(id)
    }

    /// The error with which `defend_territory(defender, battle_id, stake, now)`
    /// is refused, if any, in order of precedence.
    pub open spec fn defend_error(&self, defender: AccountKey, battle_id: u32, stake: u64, now: i64) -> Option<
        EmpireBlocksError,
    > {
        if battle_id >= self.battles@.len() {
            Some(EmpireBlocksError::BattleNotFound)
        } else {
            let b = self.battles@[battle_id as int];
            if !self.owns(defender, b.target_territory.0 as int, b.target_territory.1 as int) {
                Some(EmpireBlocksError::NotAuthorized)
            } else if b.status != BattleStatus::Pending {
                Some(EmpireBlocksError::InvalidBattleStatus)
            } else if window_closed(b.initiated_at, now) {
                Some(EmpireBlocksError::ResponseWindowExpired)
            } else if b.attacker_stake + stake > u64::MAX {
                Some(EmpireBlocksError::ArithmeticOverflow)
            } else {
                None
            }
        }
    }

    /// `defender`, owner of the contested cell, answers battle `battle_id`
    /// with `stake` at time `now`, within the response window. The caller
    /// escrows the stake. The battle becomes active.
    pub fn defend_territory(&mut self, defender: AccountKey, battle_id: u32, stake: u64, now: i64) -> (r: Result<
        (),
        EmpireBlocksError,
    >)
        requires
            old(self).wf(),
        ensures
            final(self).wf(),
            r is Err <==> old(self).defend_error(defender, battle_id, stake, now) is Some,
            r matches Err(e) ==> old(self).defend_error(defender, battle_id, stake, now) == Some(e),
            r is Err ==> *final(self) == *old(self),
            r is Ok ==> {
                let b = old(self).battles@[battle_id as int];
                &&& final(self).battles@ == old(self).battles@.update(
                    battle_id as int,
                    Battle {
                        defender,
                        defender_stake: stake,
                        status: BattleStatus::Active,
                        responded_at: Some(now),
                        ..b
                    },
                )
                &&& final(self).grid == old(self).grid
                &&& final(self).cells == old(self).cells
                &&& final(self).empires == old(self).empires
            },
    {
        if battle_id as usize >= self.battles.len() {
            return Err(EmpireBlocksError::BattleNotFound);
        }
        let b = self.battles[battle_id as usize];
        if !self.owns_cell(defender, b.target_territory) {
            return Err(EmpireBlocksError::NotAuthorized);
        }
        if b.status != BattleStatus::Pending {
            return Err(EmpireBlocksError::InvalidBattleStatus);
        }
        if b.response_window_closed(now) {
            return Err(EmpireBlocksError::ResponseWindowExpired);
        }
        if stake > u64::MAX - b.attacker_stake {
            return Err(EmpireBlocksError::ArithmeticOverflow);
        }
        assert(self.battles@[battle_id as int].wf());
        let nb = Battle {
            defender,
            defender_stake: stake,
            status: BattleStatus::Active,
            responded_at: Some(now),
            ..b
        };
        proof {
            lemma_battle_replaced(self.battles@, battle_id as int, nb);
        }
        self.battles.set(battle_id as usize, nb);
        Ok(())
    }

    /// The error with which `expire_unanswered(battle_id, now)` is refused,
    /// if any, in order of precedence.
    pub open spec fn expire_error(&self, battle_id: u32, now: i64) -> Option<EmpireBlocksError> {
        if battle_id >= self.battles@.len() {
            Some(EmpireBlocksError::BattleNotFound)
        } else if self.battles@[battle_id as int].status != BattleStatus::Pending {
            Some(EmpireBlocksError::InvalidBattleStatus)
        } else if !window_closed(self.battles@[battle_id as int].initiated_at, now) {
            Some(EmpireBlocksError::ResponseWindowOpen)
        } else {
            None
        }
    }

    /// Cancels pending battle `battle_id` once its response window has
    /// closed at time `now`; anyone may call it. Returns the refund of the
    /// attacker's whole stake.
    pub fn expire_unanswered(&mut self, battle_id: u32, now: i64) -> (r: Result<Payout, EmpireBlocksError>)
        requires
            old(self).wf(),
        ensures
            final(self).wf(),
            r is Err <==> old(self).expire_error(battle_id, now) is Some,
            r matches Err(e) ==> old(self).expire_error(battle_id, now) == Some(e),
            r is Err ==> *final(self) == *old(self),
            r matches Ok(p) ==> {
                let b = old(self).battles@[battle_id as int];
                &&& p == Payout { recipient: b.attacker, amount: b.attacker_stake }
                &&& final(self).battles@ == old(self).battles@.update(
                    battle_id as int,
                    Battle { status: BattleStatus::Cancelled, resolved_at: Some(now), ..b },
                )
                &&& final(self).grid == old(self).grid
                &&& final(self).cells == old(self).cells
                &&& final(self).empires == old(self).empires
            },
    {
        if battle_id as usize >= self.battles.len() {
            return Err(EmpireBlocksError::BattleNotFound);
        }
        let b = self.battles[battle_id as usize];
        if b.status != BattleStatus::Pending {
            return Err(EmpireBlocksError::InvalidBattleStatus);
        }
        if !b.response_window_closed(now) {
            return Err(EmpireBlocksError::ResponseWindowOpen);
        }
        assert(self.battles@[battle_id as int].wf());
        let nb = Battle { status: BattleStatus::Cancelled, resolved_at: Some(now), ..b };
        proof {
            lemma_battle_replaced(self.battles@, battle_id as int, nb);
        }
        self.battles.set(battle_id as usize, nb);
        Ok(Payout { recipient: b.attacker, amount: b.attacker_stake })
    }

    /// The error with which `forfeit_battle(attacker, battle_id, _)` is
    /// refused, if any, in order of precedence.
    pub open spec fn forfeit_error(&self, attacker: AccountKey, battle_id: u32) -> Option<EmpireBlocksError> {
        if battle_id >= self.battles@.len() {
            Some(EmpireBlocksError::BattleNotFound)
        } else if self.battles@[battle_id as int].attacker != attacker {
            Some(EmpireBlocksError::NotAuthorized)
        } else if self.battles@[battle_id as int].status != BattleStatus::Active {
            Some(EmpireBlocksError::InvalidBattleStatus)
        } else {
            None
        }
    }

    /// The attacker withdraws from active battle `battle_id` at time `now`.
    /// The defender keeps both stakes, which the returned payout releases;
    /// the cell keeps its owner.
    pub fn forfeit_battle(&mut self, attacker: AccountKey, battle_id: u32, now: i64) -> (r: Result<Payout, EmpireBlocksError>)
        requires
            old(self).wf(),
        ensures
            final(self).wf(),
            r is Err <==> old(self).forfeit_error(attacker, battle_id) is Some,
            r matches Err(e) ==> old(self).forfeit_error(attacker, battle_id) == Some(e),
            r is Err ==> *final(self) == *old(self),
            r matches Ok(p) ==> {
                let b = old(self).battles@[battle_id as int];
                &&& p == Payout { recipient: b.defender, amount: (b.attacker_stake + b.defender_stake) as u64 }
                &&& final(self).battles@ == old(self).battles@.update(
                    battle_id as int,
                    Battle {
                        status: BattleStatus::Forfeited,
                        winner: Some(b.defender),
                        resolved_at: Some(now),
                        ..b
                    },
                )
                &&& final(self).grid == old(self).grid
                &&& final(self).cells == old(self).cells
                &&& final(self).empires == old(self).empires
            },
    {
        if battle_id as usize >= self.battles.len() {
            return Err(EmpireBlocksError::BattleNotFound);
        }
        let b = self.battles[battle_id as usize];
        if b.attacker != attacker {
            return Err(EmpireBlocksError::NotAuthorized);
        }
        if b.status != BattleStatus::Active {
            return Err(EmpireBlocksError::InvalidBattleStatus);
        }
        assert(self.battles@[battle_id as int].wf());
        let nb = Battle {
            status: BattleStatus::Forfeited,
            winner: Some(b.defender),
            resolved_at: Some(now),
            ..b
        };
        proof {
            lemma_battle_replaced(self.battles@, battle_id as int, nb);
        }
        self.battles.set(battle_id as usize, nb);
        Ok(Payout { recipient: b.defender, amount: b.attacker_stake + b.defender_stake })
    }

    /// The error with which `resolve_battle(resolver, battle_id, result, _)`
    /// is refused, if any, in order of precedence.
    pub open spec fn resolve_error(&self, resolver: AccountKey, battle_id: u32, result: BattleResult) -> Option<
        EmpireBlocksError,
    > {
        if battle_id >= self.battles@.len() {
            Some(EmpireBlocksError::BattleNotFound)
        } else {
            let b = self.battles@[battle_id as int];
            let (tx, ty) = (b.target_territory.0 as int, b.target_territory.1 as int);
            if b.status != BattleStatus::Active {
                Some(EmpireBlocksError::InvalidBattleStatus)
            } else if resolver != self.grid.authority {
                Some(EmpireBlocksError::NotAuthorized)
            } else if result == BattleResult::AttackerWon && (!self.in_bounds(tx, ty) || self.cell(tx, ty) is None) {
                Some(EmpireBlocksError::Unclaimed)
            } else if self.grid.treasury_balance + battle_skim(b, self.grid.battle_skim_bps) > u64::MAX {
                Some(EmpireBlocksError::ArithmeticOverflow)
            } else {
                None
            }
        }
    }

    /// The grid's authority records the outcome of active battle
    /// `battle_id` at time `now`. The treasury keeps the skim from the two
    /// stakes and the winner receives the rest, which the returned payout
    /// releases. When the attacker wins, the contested cell passes to the
    /// attacker without any fee and leaves its empire.
    pub fn resolve_battle(&mut self, resolver: AccountKey, battle_id: u32, result: BattleResult, now: i64) -> (r: Result<
        Payout,
        EmpireBlocksError,
    >)
        requires
            old(self).wf(),
        ensures
            final(self).wf(),
            r is Err <==> old(self).resolve_error(resolver, battle_id, result) is Some,
            r matches Err(e) ==> old(self).resolve_error(resolver, battle_id, result) == Some(e),
            r is Err ==> *final(self) == *old(self),
            r matches Ok(p) ==> {
                let b = old(self).battles@[battle_id as int];
                let skim = battle_skim(b, old(self).grid.battle_skim_bps);
                let winner = if result == BattleResult::AttackerWon {
                    b.attacker
                } else {
                    b.defender
                };
                let (tx, ty) = (b.target_territory.0 as int, b.target_territory.1 as int);
                &&& p == Payout { recipient: winner, amount: (b.attacker_stake + b.defender_stake - skim) as u64 }
                &&& final(self).battles@ == old(self).battles@.update(
                    battle_id as int,
                    Battle {
                        winner: Some(winner),
                        status: BattleStatus::Resolved,
                        resolved_at: Some(now),
                        battle_result: Some(result),
                        ..b
                    },
                )
                &&& final(self).grid == (GridState {
                    treasury_balance: (old(self).grid.treasury_balance + skim) as u64,
                    ..old(self).grid
                })
                &&& result == BattleResult::DefenderWon ==> final(self).cells == old(self).cells
                &&& result == BattleResult::DefenderWon ==> final(self).empires == old(self).empires
                &&& result == BattleResult::AttackerWon ==> exists|mid: Game|
                    #[trigger] old(self).left_empire(mid, b.target_territory.0, b.target_territory.1, now)
                        && final(self).empires == mid.empires && final(self).cells@ == mid.cells@.update(
                        cell_index(old(self).n(), tx, ty),
                        Some(
                            Territory {
                                owner: b.attacker,
                                empire_id: None,
                                purchase_timestamp: now,
                                ..old(self).cell(tx, ty)->0
                            },
                        ),
                    )
            },
    {
        if battle_id as usize >= self.battles.len() {
            return Err(EmpireBlocksError::BattleNotFound);
        }
        let b = self.battles[battle_id as usize];
        assert(self.battles@[battle_id as int].wf());
        if b.status != BattleStatus::Active {
            return Err(EmpireBlocksError::InvalidBattleStatus);
        }
        if resolver != self.grid.authority {
            return Err(EmpireBlocksError::NotAuthorized);
        }
        let (tx, ty) = b.target_territory;
        let attacker_won = match result {
            BattleResult::AttackerWon => true,
            BattleResult::DefenderWon => false,
        };
        let mut target: Option<(usize, Territory)> = None;
        if attacker_won {
            if tx >= self.grid.grid_size || ty >= self.grid.grid_size {
                return Err(EmpireBlocksError::Unclaimed);
            }
            let idx = self.index_of(tx, ty);
            match self.cells[idx] {
                Some(t) => {
                    target = Some((idx, t));
                },
                None => return Err(EmpireBlocksError::Unclaimed),
            }
        }
        let pot = b.attacker_stake + b.defender_stake;
        let skim = share_of(pot, self.grid.battle_skim_bps);
        if skim > u64::MAX - self.grid.treasury_balance {
            return Err(EmpireBlocksError::ArithmeticOverflow);
        }
        let winner = if attacker_won {
            b.attacker
        } else {
            b.defender
        };
        let ghost before = *self;
        match target {
            Some((_, _)) => {
                self.leave_empire(tx, ty, now);
            },
            None => {},
        }
        let ghost prev = *self;
        self.grid.treasury_balance = self.grid.treasury_balance + skim;
        let nb = Battle {
            winner: Some(winner),
            status: BattleStatus::Resolved,
            resolved_at: Some(now),
            battle_result: Some(result),
            ..b
        };
        proof {
            lemma_battle_replaced(self.battles@, battle_id as int, nb);
        }
        self.battles.set(battle_id as usize, nb);
        match target {
            Some((idx, t)) => {
                let nt = Territory { owner: b.attacker, empire_id: None, purchase_timestamp: now, ..t };
                proof {
                    lemma_count_claimed_update(self.cells@, idx as int, Some(nt));
                }
                self.cells.set(idx, Some(nt));
                proof {
                    assert(before.left_empire(prev, tx, ty, now));
                    assert forall|a: int, c: int|
                        #![trigger self.cells@[cell_index(self.n(), a, c)]]
                        0 <= a < self.n() && 0 <= c < self.n() implies (self.cells@[cell_index(self.n(), a, c)] matches Some(u) ==> {
                            &&& u.x == a && u.y == c
                            &&& u.block_type == block_type_of(a, c, self.n())
                            &&& u.revenue_multiplier == u.block_type.base_multiplier_spec()
                        }) by {
                        lemma_index_in_grid(self.n(), a, c);
                        if cell_index(self.n(), a, c) != idx {
                            assert(self.cells@[cell_index(self.n(), a, c)] == prev.cells@[cell_index(prev.n(), a, c)]);
                        } else {
                            lemma_index_unique(self.n(), a, c, tx as int, ty as int);
                        }
                    }
                    assert forall|a: int, k: int|
                        0 <= a < self.empires@.len() && 0 <= k < self.empires@[a].territories@.len() implies #[trigger] carries(
                        self.n(),
                        self.cells@,
                        self.empires@[a].territories@[k],
                        a,
                    ) by {
                        let c = self.empires@[a].territories@[k];
                        assert(carries(prev.n(), prev.cells@, c, a));
                        assert(c != (tx, ty));
                        lemma_index_in_grid(self.n(), c.0 as int, c.1 as int);
                        if cell_index(self.n(), c.0 as int, c.1 as int) == idx {
                            lemma_index_unique(self.n(), c.0 as int, c.1 as int, tx as int, ty as int);
                        }
                    }
                }
            },
            None => {},
        }
        Ok(Payout { recipient: winner, amount: pot - skim })
    }
}

} // verus!
