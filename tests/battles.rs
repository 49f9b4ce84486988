use empire_blocks::{AccountKey, BattleResult, BattleStatus, BlockType, EmpireBlocksError, Game, Payout};

const AUTHORITY: AccountKey = AccountKey { hi: 0, lo: 1 };
const ALICE: AccountKey = AccountKey { hi: 0, lo: 10 };
const BOB: AccountKey = AccountKey { hi: 0, lo: 20 };
const T0: i64 = 1000;

fn arena() -> Game {
    let mut g = Game::initialize_grid(AUTHORITY, 8, 0).unwrap();
    g.mint_territory(1, 1, ALICE, 0).unwrap();
    g.mint_territory(1, 2, BOB, 0).unwrap();
    g.mint_territory(5, 5, ALICE, 0).unwrap();
    g.mint_territory(0, 2, BOB, 0).unwrap();
    g
}

#[test]
fn initiate_creates_pending_battle() {
    let mut g = arena();
    let id = g.initiate_battle(ALICE, (1, 1), (1, 2), 100, T0).unwrap();
    assert_eq!(id, 0);
    let b = g.battles[0];
    assert_eq!(b.attacker, ALICE);
    assert_eq!(b.defender, BOB);
    assert_eq!(b.attacker_stake, 100);
    assert_eq!(b.defender_stake, 0);
    assert_eq!(b.status, BattleStatus::Pending);
    assert_eq!(b.initiated_at, T0);
}

#[test]
fn initiate_non_adjacent_fails() {
    let mut g = arena();
    assert_eq!(g.initiate_battle(ALICE, (5, 5), (1, 2), 100, T0), Err(EmpireBlocksError::NotAdjacent));
    assert!(g.battles.is_empty());
}

#[test]
fn initiate_non_adjacent_unclaimed_target_fails() {
    let mut g = arena();
    assert_eq!(g.initiate_battle(ALICE, (1, 1), (3, 3), 100, T0), Err(EmpireBlocksError::NotAdjacent));
    assert!(g.battles.is_empty());
}

#[test]
fn initiate_errors() {
    let mut g = arena();
    assert_eq!(g.initiate_battle(ALICE, (1, 1), (1, 8), 100, T0), Err(EmpireBlocksError::OutOfBounds));
    assert_eq!(g.initiate_battle(ALICE, (1, 2), (1, 1), 100, T0), Err(EmpireBlocksError::NotOwner));
    assert_eq!(g.initiate_battle(ALICE, (1, 1), (2, 1), 100, T0), Err(EmpireBlocksError::Unclaimed));
    g.mint_territory(2, 1, ALICE, 0).unwrap();
    assert_eq!(
        g.initiate_battle(ALICE, (1, 1), (2, 1), 100, T0),
        Err(EmpireBlocksError::CannotAttackOwnTerritory)
    );
    assert_eq!(g.initiate_battle(ALICE, (1, 1), (1, 2), 0, T0), Err(EmpireBlocksError::InsufficientStake));
    g.initiate_battle(ALICE, (1, 1), (1, 2), 100, T0).unwrap();
    assert_eq!(
        g.initiate_battle(ALICE, (1, 1), (1, 2), 100, T0),
        Err(EmpireBlocksError::InvalidBattleStatus)
    );
    assert_eq!(g.battles.len(), 1);
}

#[test]
fn respond_within_window_activates() {
    let mut g = arena();
    let id = g.initiate_battle(ALICE, (1, 1), (1, 2), 100, T0).unwrap();
    assert_eq!(g.defend_territory(BOB, id, 200, T0 + 86400), Ok(()));
    let b = g.battles[id as usize];
    assert_eq!(b.status, BattleStatus::Active);
    assert_eq!(b.defender_stake, 200);
    assert_eq!(b.responded_at, Some(T0 + 86400));
}

#[test]
fn respond_after_window_fails() {
    let mut g = arena();
    let id = g.initiate_battle(ALICE, (1, 1), (1, 2), 100, T0).unwrap();
    assert_eq!(g.defend_territory(BOB, id, 200, T0 + 86401), Err(EmpireBlocksError::ResponseWindowExpired));
    assert_eq!(g.battles[0].status, BattleStatus::Pending);
}

#[test]
fn respond_errors() {
    let mut g = arena();
    assert_eq!(g.defend_territory(BOB, 0, 200, T0), Err(EmpireBlocksError::BattleNotFound));
    let id = g.initiate_battle(ALICE, (1, 1), (1, 2), 100, T0).unwrap();
    assert_eq!(g.defend_territory(ALICE, id, 200, T0), Err(EmpireBlocksError::NotAuthorized));
    assert_eq!(g.defend_territory(BOB, id, u64::MAX, T0), Err(EmpireBlocksError::ArithmeticOverflow));
    g.defend_territory(BOB, id, 200, T0).unwrap();
    assert_eq!(g.defend_territory(BOB, id, 200, T0), Err(EmpireBlocksError::InvalidBattleStatus));
}

#[test]
fn resolve_pending_fails() {
    let mut g = arena();
    let id = g.initiate_battle(ALICE, (1, 1), (1, 2), 100, T0).unwrap();
    assert_eq!(
        g.resolve_battle(AUTHORITY, id, BattleResult::AttackerWon, T0 + 10),
        Err(EmpireBlocksError::InvalidBattleStatus)
    );
    assert_eq!(g.battles[0].status, BattleStatus::Pending);
}

#[test]
fn expire_only_after_window() {
    let mut g = arena();
    let id = g.initiate_battle(ALICE, (1, 1), (1, 2), 100, T0).unwrap();
    assert_eq!(g.expire_unanswered(id, T0), Err(EmpireBlocksError::ResponseWindowOpen));
    assert_eq!(g.expire_unanswered(id, T0 + 86400), Err(EmpireBlocksError::ResponseWindowOpen));
    assert_eq!(g.battles[0].status, BattleStatus::Pending);
    let p = g.expire_unanswered(id, T0 + 86401).unwrap();
    assert_eq!(p, Payout { recipient: ALICE, amount: 100 });
    assert_eq!(g.battles[0].status, BattleStatus::Cancelled);
    assert_eq!(g.expire_unanswered(id, T0 + 90000), Err(EmpireBlocksError::InvalidBattleStatus));
    assert_eq!(g.expire_unanswered(7, T0 + 90000), Err(EmpireBlocksError::BattleNotFound));
    // the cell can be contested again
    assert_eq!(g.initiate_battle(ALICE, (1, 1), (1, 2), 100, T0 + 90000), Ok(1));
}

#[test]
fn expire_refuses_active_battle() {
    let mut g = arena();
    let id = g.initiate_battle(ALICE, (1, 1), (1, 2), 100, T0).unwrap();
    g.defend_territory(BOB, id, 50, T0 + 5).unwrap();
    assert_eq!(g.expire_unanswered(id, T0 + 100000), Err(EmpireBlocksError::InvalidBattleStatus));
}

#[test]
fn resolve_attacker_wins_takes_cell() {
    let mut g = arena();
    let id = g.initiate_battle(ALICE, (1, 1), (1, 2), 100, T0).unwrap();
    g.defend_territory(BOB, id, 200, T0 + 5).unwrap();
    assert_eq!(
        g.resolve_battle(ALICE, id, BattleResult::AttackerWon, T0 + 9),
        Err(EmpireBlocksError::NotAuthorized)
    );
    let p = g.resolve_battle(AUTHORITY, id, BattleResult::AttackerWon, T0 + 10).unwrap();
    assert_eq!(p, Payout { recipient: ALICE, amount: 285 });
    assert_eq!(g.grid.treasury_balance, 15);
    let t = g.territory(1, 2).unwrap();
    assert_eq!(t.owner, ALICE);
    assert_eq!(t.empire_id, None);
    assert_eq!(t.last_sale_price, 0);
    let b = g.battles[0];
    assert_eq!(b.status, BattleStatus::Resolved);
    assert_eq!(b.winner, Some(ALICE));
    assert_eq!(b.battle_result, Some(BattleResult::AttackerWon));
    assert_eq!(b.resolved_at, Some(T0 + 10));
    assert_eq!(
        g.resolve_battle(AUTHORITY, id, BattleResult::DefenderWon, T0 + 11),
        Err(EmpireBlocksError::InvalidBattleStatus)
    );
}

#[test]
fn resolve_attacker_win_clears_empire_mark() {
    let mut g = arena();
    g.update_empire(BOB, None, vec![(0, 2), (1, 2)], T0).unwrap();
    assert_eq!(g.territory(1, 2).unwrap().empire_id, Some(0));
    let id = g.initiate_battle(ALICE, (1, 1), (1, 2), 100, T0).unwrap();
    g.defend_territory(BOB, id, 100, T0 + 1).unwrap();
    g.resolve_battle(AUTHORITY, id, BattleResult::AttackerWon, T0 + 2).unwrap();
    assert_eq!(g.territory(1, 2).unwrap().empire_id, None);
    assert_eq!(g.territory(0, 2).unwrap().empire_id, Some(0));
    assert_eq!(g.empires[0].territories, vec![(0, 2)]);
    assert_eq!(g.empires[0].territory_count, 1);
    assert_eq!(g.empires[0].bonus_multiplier, 100);
}

#[test]
fn resolve_defender_wins_keeps_cell() {
    let mut g = arena();
    let id = g.initiate_battle(ALICE, (1, 1), (1, 2), 100, T0).unwrap();
    g.defend_territory(BOB, id, 300, T0 + 5).unwrap();
    let p = g.resolve_battle(AUTHORITY, id, BattleResult::DefenderWon, T0 + 10).unwrap();
    assert_eq!(p, Payout { recipient: BOB, amount: 380 });
    assert_eq!(g.grid.treasury_balance, 20);
    assert_eq!(g.territory(1, 2).unwrap().owner, BOB);
    assert_eq!(g.battles[0].winner, Some(BOB));
}

#[test]
fn forfeit_hands_both_stakes_to_defender() {
    let mut g = arena();
    let id = g.initiate_battle(ALICE, (1, 1), (1, 2), 100, T0).unwrap();
    assert_eq!(g.forfeit_battle(ALICE, id, T0 + 1), Err(EmpireBlocksError::InvalidBattleStatus));
    g.defend_territory(BOB, id, 250, T0 + 5).unwrap();
    assert_eq!(g.forfeit_battle(BOB, id, T0 + 6), Err(EmpireBlocksError::NotAuthorized));
    assert_eq!(g.forfeit_battle(BOB, 9, T0 + 6), Err(EmpireBlocksError::BattleNotFound));
    let p = g.forfeit_battle(ALICE, id, T0 + 7).unwrap();
    assert_eq!(p, Payout { recipient: BOB, amount: 350 });
    assert_eq!(g.battles[0].status, BattleStatus::Forfeited);
    assert_eq!(g.territory(1, 2).unwrap().owner, BOB);
    assert_eq!(g.forfeit_battle(ALICE, id, T0 + 8), Err(EmpireBlocksError::InvalidBattleStatus));
}

#[test]
fn border_defense_weight() {
    let mut g = arena();
    let id = g.initiate_battle(ALICE, (1, 1), (1, 2), 100, T0).unwrap();
    g.defend_territory(BOB, id, 250, T0 + 5).unwrap();
    let b = g.battles[0];
    assert_eq!(b.effective_defender_stake(BlockType::Border), 300);
    assert_eq!(b.effective_defender_stake(BlockType::Capital), 250);
}

#[test]
fn configure_battles_changes_rules() {
    let mut g = arena();
    assert_eq!(g.configure_battles(ALICE, 500, 1000), Err(EmpireBlocksError::NotAuthorized));
    assert_eq!(g.configure_battles(AUTHORITY, 500, 10001), Err(EmpireBlocksError::InvalidConfiguration));
    assert_eq!(g.configure_battles(AUTHORITY, 500, 1000), Ok(()));
    assert_eq!(g.initiate_battle(ALICE, (1, 1), (1, 2), 499, T0), Err(EmpireBlocksError::InsufficientStake));
    let id = g.initiate_battle(ALICE, (1, 1), (1, 2), 500, T0).unwrap();
    g.defend_territory(BOB, id, 500, T0 + 1).unwrap();
    let p = g.resolve_battle(AUTHORITY, id, BattleResult::DefenderWon, T0 + 2).unwrap();
    assert_eq!(p, Payout { recipient: BOB, amount: 900 });
    assert_eq!(g.grid.treasury_balance, 100);
}

#[test]
fn keys_differing_in_high_half_are_different_owners() {
    let mut g = arena();
    let twin = AccountKey { hi: 1, lo: 10 };
    g.mint_territory(2, 1, twin, 0).unwrap();
    assert_eq!(g.initiate_battle(ALICE, (1, 1), (2, 1), 100, T0), Ok(0));
    assert_eq!(g.battles[0].defender, twin);
    assert_eq!(g.defend_territory(ALICE, 0, 100, T0 + 1), Err(EmpireBlocksError::NotAuthorized));
}
