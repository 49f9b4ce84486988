use empire_blocks::{AccountKey, BlockType, Game};

fn key(n: u128) -> AccountKey {
    AccountKey::new(0, n)
}

#[test]
fn claim_pair_form_empire_then_sell_corner() {
    let mut g = Game::initialize_grid(key(1), 8, 0).unwrap();
    g.mint_territory(2, 2, key(10), 1).unwrap();
    g.mint_territory(2, 3, key(10), 2).unwrap();
    let id = g.update_empire(key(10), None, vec![(2, 2), (2, 3)], 3).unwrap();
    assert_eq!(g.empires[id as usize].territory_count, 2);
    assert_eq!(g.empires[id as usize].bonus_multiplier, 100);

    g.mint_territory(7, 7, key(30), 4).unwrap();
    assert_eq!(g.territory(7, 7).unwrap().block_type, BlockType::Corner);
    let s = g.transfer_territory(7, 7, key(30), key(40), 1000, 5).unwrap();
    assert_eq!(s.total_fee, 50);
    assert_eq!(s.seller_receives, 950);
    assert_eq!(g.grid.revenue_pool, 30);
    assert_eq!(g.grid.empire_bonus_pool, 12);
    assert_eq!(g.grid.treasury_balance, 8);
    assert_eq!(g.territory(7, 7).unwrap().owner, key(40));
    assert_eq!(g.grid.territories_minted, 3);
}
