use empire_blocks::{AccountKey, EmpireBlocksError, Game, GridState, PROTOCOL_FEE_BPS};

fn key(n: u128) -> AccountKey {
    AccountKey::new(0, n)
}

#[test]
fn initialize_sets_total_cells_to_square() {
    for n in [1u8, 2, 8, 100, 255] {
        let g = Game::initialize_grid(key(7), n, 0).unwrap();
        assert_eq!(g.grid.total_territories as u32, (n as u32) * (n as u32));
        assert_eq!(g.cells.len(), (n as usize) * (n as usize));
        assert_eq!(g.grid.territories_minted, 0);
    }
}

#[test]
fn initialize_rejects_zero_size() {
    assert_eq!(Game::initialize_grid(key(7), 0, 0).err(), Some(EmpireBlocksError::InvalidConfiguration));
    assert_eq!(GridState::new(key(7), 0, 0).err(), Some(EmpireBlocksError::InvalidConfiguration));
}

#[test]
fn initialize_uses_default_rates_and_empty_pools() {
    let g = GridState::new(key(7), 8, 123).unwrap();
    assert_eq!(g.authority, key(7));
    assert_eq!(g.protocol_fee_bps, PROTOCOL_FEE_BPS);
    assert_eq!(g.protocol_fee_bps, 500);
    assert_eq!(g.total_volume, 0);
    assert_eq!(g.total_fees_collected, 0);
    assert_eq!(g.revenue_pool, 0);
    assert_eq!(g.empire_bonus_pool, 0);
    assert_eq!(g.treasury_balance, 0);
    assert_eq!(g.last_distribution, 123);
}

#[test]
fn fee_split_of_thousand() {
    let g = GridState::new(key(7), 8, 0).unwrap();
    let s = g.fee_split(1000).unwrap();
    assert_eq!(s.total_fee, 50);
    assert_eq!(s.owner_share, 30);
    assert_eq!(s.empire_share, 12);
    assert_eq!(s.treasury_share, 8);
    assert_eq!(s.seller_receives, 950);
}

#[test]
fn fee_split_always_conserves() {
    let g = GridState::new(key(7), 8, 0).unwrap();
    for p in [0u64, 1, 19, 20, 399, 1000, 12345, 999_999_999, u64::MAX / 500] {
        let s = g.fee_split(p).unwrap();
        assert_eq!(s.total_fee, p * 500 / 10000);
        assert_eq!(s.owner_share + s.empire_share + s.treasury_share, s.total_fee);
        assert!(s.treasury_share >= s.total_fee * 1500 / 10000);
        assert_eq!(s.seller_receives + s.total_fee, p);
    }
}

#[test]
fn fee_split_overflow_is_reported() {
    let g = GridState::new(key(7), 8, 0).unwrap();
    assert_eq!(g.fee_split(u64::MAX).err(), Some(EmpireBlocksError::ArithmeticOverflow));
    assert_eq!(g.fee_split(u64::MAX / 500 + 1).err(), Some(EmpireBlocksError::ArithmeticOverflow));
}

#[test]
fn record_sale_updates_totals() {
    let mut g = GridState::new(key(7), 8, 0).unwrap();
    assert_eq!(g.record_sale(1000), Ok(950));
    assert_eq!(g.record_sale(1000), Ok(950));
    assert_eq!(g.total_volume, 2000);
    assert_eq!(g.total_fees_collected, 100);
    assert_eq!(g.revenue_pool, 60);
    assert_eq!(g.empire_bonus_pool, 24);
    assert_eq!(g.treasury_balance, 16);
}

#[test]
fn record_sale_overflow_changes_nothing() {
    let mut g = GridState::new(key(7), 8, 0).unwrap();
    g.total_volume = u64::MAX - 5;
    assert_eq!(g.record_sale(10), Err(EmpireBlocksError::ArithmeticOverflow));
    assert_eq!(g.total_volume, u64::MAX - 5);
    assert_eq!(g.total_fees_collected, 0);
    assert_eq!(g.treasury_balance, 0);
}
