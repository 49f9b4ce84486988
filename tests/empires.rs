use empire_blocks::{AccountKey, EmpireBlocksError, Empire, Game};

fn key(n: u128) -> AccountKey {
    AccountKey::new(0, n)
}

#[test]
fn bonus_tiers() {
    assert_eq!(Empire::calculate_bonus(0), 100);
    assert_eq!(Empire::calculate_bonus(3), 100);
    assert_eq!(Empire::calculate_bonus(4), 110);
    assert_eq!(Empire::calculate_bonus(8), 110);
    assert_eq!(Empire::calculate_bonus(9), 125);
    assert_eq!(Empire::calculate_bonus(15), 125);
    assert_eq!(Empire::calculate_bonus(16), 150);
    assert_eq!(Empire::calculate_bonus(100), 150);
}

#[test]
fn bonus_never_decreases() {
    for n in 0..200u16 {
        assert!(Empire::calculate_bonus(n) <= Empire::calculate_bonus(n + 1));
    }
}

#[test]
fn adjacency_is_rook_only() {
    assert!(Empire::is_adjacent((2, 2), (2, 3)));
    assert!(Empire::is_adjacent((2, 2), (1, 2)));
    assert!(!Empire::is_adjacent((2, 2), (3, 3)));
    assert!(!Empire::is_adjacent((2, 2), (2, 2)));
    assert!(!Empire::is_adjacent((2, 2), (2, 4)));
    assert!(!Empire::is_adjacent((0, 0), (255, 0)));
}

#[test]
fn contiguity_rejects_empty() {
    assert!(!Empire::is_contiguous(&[]));
}

#[test]
fn contiguity_accepts_single_cell() {
    assert!(Empire::is_contiguous(&[(4, 4)]));
}

#[test]
fn contiguity_rejects_disconnected_member() {
    assert!(!Empire::is_contiguous(&[(0, 0), (0, 1), (0, 2), (5, 5)]));
    assert!(!Empire::is_contiguous(&[(5, 5), (0, 0), (0, 1)]));
}

#[test]
fn contiguity_accepts_line_of_five() {
    assert!(Empire::is_contiguous(&[(1, 3), (2, 3), (3, 3), (4, 3), (5, 3)]));
    assert!(Empire::is_contiguous(&[(3, 3), (1, 3), (5, 3), (2, 3), (4, 3)]));
}

#[test]
fn contiguity_accepts_l_shape() {
    assert!(Empire::is_contiguous(&[(0, 0), (0, 1), (0, 2), (1, 2), (2, 2)]));
}

#[test]
fn contiguity_rejects_diagonal_pair() {
    assert!(!Empire::is_contiguous(&[(1, 1), (2, 2)]));
}

#[test]
fn contiguity_needs_chain_through_later_cells() {
    assert!(Empire::is_contiguous(&[(0, 0), (2, 0), (1, 0)]));
    assert!(!Empire::is_contiguous(&[(0, 0), (2, 0), (1, 1)]));
}

fn owner_grid() -> Game {
    let mut g = Game::initialize_grid(key(1), 8, 0).unwrap();
    for x in 0..6u8 {
        g.mint_territory(x, 2, key(10), 0).unwrap();
    }
    g.mint_territory(0, 0, key(20), 0).unwrap();
    g
}

#[test]
fn empire_forms_and_stamps_members() {
    let mut g = owner_grid();
    let id = g.update_empire(key(10), None, vec![(0, 2), (1, 2), (2, 2), (3, 2)], 77).unwrap();
    assert_eq!(id, 0);
    let e = &g.empires[0];
    assert_eq!(e.owner, key(10));
    assert_eq!(e.territory_count, 4);
    assert_eq!(e.bonus_multiplier, 110);
    assert_eq!(e.formation_timestamp, 77);
    for x in 0..4u8 {
        assert_eq!(g.territory(x, 2).unwrap().empire_id, Some(0));
    }
    assert_eq!(g.territory(4, 2).unwrap().empire_id, None);
}

#[test]
fn empire_update_restamps_members() {
    let mut g = owner_grid();
    let id = g.update_empire(key(10), None, vec![(0, 2), (1, 2), (2, 2), (3, 2)], 1).unwrap();
    let id2 = g.update_empire(key(10), Some(id), vec![(2, 2), (3, 2), (4, 2)], 2).unwrap();
    assert_eq!(id2, id);
    assert_eq!(g.empires.len(), 1);
    assert_eq!(g.empires[0].bonus_multiplier, 100);
    assert_eq!(g.empires[0].territory_count, 3);
    assert_eq!(g.empires[0].formation_timestamp, 1);
    assert_eq!(g.empires[0].last_updated, 2);
    assert_eq!(g.territory(0, 2).unwrap().empire_id, None);
    assert_eq!(g.territory(1, 2).unwrap().empire_id, None);
    assert_eq!(g.territory(4, 2).unwrap().empire_id, Some(0));
}

#[test]
fn empire_errors() {
    let mut g = owner_grid();
    assert_eq!(g.update_empire(key(10), None, vec![], 0), Err(EmpireBlocksError::NotContiguous));
    assert_eq!(g.update_empire(key(10), None, vec![(0, 2), (2, 2)], 0), Err(EmpireBlocksError::NotContiguous));
    assert_eq!(g.update_empire(key(10), None, vec![(0, 2), (0, 0)], 0), Err(EmpireBlocksError::NotOwner));
    assert_eq!(g.update_empire(key(10), None, vec![(0, 2), (0, 1)], 0), Err(EmpireBlocksError::NotOwner));
    assert_eq!(g.update_empire(key(10), None, vec![(9, 9)], 0), Err(EmpireBlocksError::NotOwner));
    assert_eq!(g.update_empire(key(10), None, vec![(0, 2); 101], 0), Err(EmpireBlocksError::EmpireTooBig));
    assert_eq!(g.update_empire(key(10), Some(0), vec![(0, 2)], 0), Err(EmpireBlocksError::EmpireNotFound));
    g.update_empire(key(10), None, vec![(0, 2)], 0).unwrap();
    assert_eq!(g.update_empire(key(20), Some(0), vec![(0, 0)], 0), Err(EmpireBlocksError::NotAuthorized));
    assert_eq!(g.empires.len(), 1);
}

#[test]
fn repeated_cells_are_refused() {
    let mut g = owner_grid();
    assert_eq!(
        g.update_empire(key(10), None, vec![(2, 2), (3, 2), (2, 2), (3, 2)], 0),
        Err(EmpireBlocksError::DuplicateTerritory)
    );
    assert!(g.empires.is_empty());
    assert!(Empire::has_repeats(&[(1, 1), (2, 2), (1, 1)]));
    assert!(!Empire::has_repeats(&[(1, 1), (2, 2), (1, 2)]));
    assert!(!Empire::has_repeats(&[]));
}

#[test]
fn cell_of_another_empire_is_refused() {
    let mut g = owner_grid();
    g.update_empire(key(10), None, vec![(0, 2), (1, 2)], 0).unwrap();
    assert_eq!(
        g.update_empire(key(10), None, vec![(1, 2), (2, 2)], 0),
        Err(EmpireBlocksError::InAnotherEmpire)
    );
    assert_eq!(g.empires.len(), 1);
    assert_eq!(g.territory(1, 2).unwrap().empire_id, Some(0));
}

#[test]
fn sold_cell_leaves_empire_and_bonus_is_recomputed() {
    let mut g = owner_grid();
    g.update_empire(key(10), None, vec![(0, 2), (1, 2), (2, 2), (3, 2)], 1).unwrap();
    assert_eq!(g.empires[0].bonus_multiplier, 110);
    g.transfer_territory(3, 2, key(10), key(30), 100, 5).unwrap();
    let e = &g.empires[0];
    assert_eq!(e.territories, vec![(0, 2), (1, 2), (2, 2)]);
    assert_eq!(e.territory_count, 3);
    assert_eq!(e.bonus_multiplier, 100);
    assert_eq!(e.last_updated, 5);
    let t = g.territory(3, 2).unwrap();
    assert_eq!(t.owner, key(30));
    assert_eq!(t.empire_id, None);
    assert_eq!(g.territory(2, 2).unwrap().empire_id, Some(0));
}

#[test]
fn sale_that_splits_empire_dissolves_it() {
    let mut g = owner_grid();
    g.update_empire(key(10), None, vec![(0, 2), (1, 2), (2, 2), (3, 2)], 1).unwrap();
    g.transfer_territory(1, 2, key(10), key(30), 100, 5).unwrap();
    let e = &g.empires[0];
    assert!(e.territories.is_empty());
    assert_eq!(e.territory_count, 0);
    assert_eq!(e.bonus_multiplier, 100);
    for x in 0..4u8 {
        assert_eq!(g.territory(x, 2).unwrap().empire_id, None);
    }
    // the owner can form it again from what is left
    assert_eq!(g.update_empire(key(10), Some(0), vec![(2, 2), (3, 2)], 6), Ok(0));
    assert_eq!(g.territory(3, 2).unwrap().empire_id, Some(0));
}
