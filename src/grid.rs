use vstd::prelude::*;
use crate::key::AccountKey;
use crate::errors::EmpireBlocksError;

verus! {

/// Denominator of every rate written in basis points.
pub const BPS_DENOMINATOR: u64 = 10000;
/// Protocol fee taken from each sale: 5%.
pub const PROTOCOL_FEE_BPS: u16 = 500;
/// Share of the fee that goes to the owners' revenue pool: 60%.
pub const OWNER_SHARE_BPS: u16 = 6000;
/// Share of the fee that goes to the empire bonus pool: 25%.
pub const EMPIRE_BONUS_BPS: u16 = 2500;
/// Share of the fee that goes to the treasury: 15%, plus rounding.
pub const TREASURY_SHARE_BPS: u16 = 1500;
/// Smallest stake with which a battle can be started, by default.
pub const DEFAULT_MIN_BATTLE_STAKE: u64 = 1;
/// Part of a battle's pot kept by the treasury, by default: 5%.
pub const DEFAULT_BATTLE_SKIM_BPS: u16 = 500;

/// `amount * bps / 10000`, rounded down.
pub open spec fn bps_of(amount: int, bps: int) -> int {
    amount * bps / 10000
}

/// How the protocol fee on a sale is split.
#[derive(Clone, Copy, Debug, PartialEq, Eq, Structural)]
pub struct FeeSplit {
    pub total_fee: u64,
    pub owner_share: u64,
    pub empire_share: u64,
    pub treasury_share: u64,
    pub seller_receives: u64,
}

/// The split of a sale at `price` under a protocol fee of `fee_bps`: the fee
/// is rounded down, owner and empire shares are rounded down, and the
/// treasury takes what is left of the fee.
pub open spec fn split_matches(s: FeeSplit, price: int, fee_bps: int) -> bool {
    let fee = bps_of(price, fee_bps);
    &&& s.total_fee == fee
    &&& s.owner_share == bps_of(fee, OWNER_SHARE_BPS as int)
    &&& s.empire_share == bps_of(fee, EMPIRE_BONUS_BPS as int)
    &&& s.treasury_share == fee - bps_of(fee, OWNER_SHARE_BPS as int) - bps_of(
        fee,
        EMPIRE_BONUS_BPS as int,
    )
    &&& s.seller_receives == price - fee
}

/// Whether the fee on a sale at `price` can be computed in 64 bits.
pub open spec fn fee_fits(price: int, fee_bps: int) -> bool {
    price * fee_bps <= u64::MAX
}

/// Configuration and running totals of the grid.
#[derive(Clone, Copy, Debug)]
pub struct GridState {
    pub authority: AccountKey,
    pub grid_size: u8,
    pub total_territories: u16,
    pub territories_minted: u16,
    pub protocol_fee_bps: u16,
    pub min_battle_stake: u64,
    pub battle_skim_bps: u16,
    pub total_volume: u64,
    pub total_fees_collected: u64,
    pub revenue_pool: u64,
    pub empire_bonus_pool: u64,
    pub treasury_balance: u64,
    pub last_distribution: i64,
}

/// `total_fee * bps / 10000` for one of the fixed share rates.
pub(crate) fn share_of(total_fee: u64, bps: u16) -> (r: u64)
    requires
        bps <= 10000,
    ensures
        r == bps_of(total_fee as int, bps as int),
        r <= total_fee,
{
    assert(total_fee as int * bps as int <= total_fee as int * 10000) by (nonlinear_arith)
        requires
            bps <= 10000,
    ;
    let wide = (total_fee as u128) * (bps as u128) / (BPS_DENOMINATOR as u128);
    assert(wide <= total_fee);
    wide as u64
}

impl GridState {
    /// The fee-split rates, the fee rate and the skim rate are coherent, and
    /// the grid has between 1 and 255 cells a side.
    pub open spec fn wf(&self) -> bool {
        &&& self.grid_size >= 1
        &&& self.total_territories == self.grid_size * self.grid_size
        &&& self.territories_minted <= self.total_territories
        &&& self.protocol_fee_bps <= 10000
        &&& self.battle_skim_bps <= 10000
    }

    /// Counts one more claimed cell. Fails with `AlreadyClaimed`, changing
    /// nothing, when every cell is claimed.
    pub fn record_claim(&mut self) -> (r: Result<(), EmpireBlocksError>)
        requires
            old(self).wf(),
        ensures
            final(self).wf(),
            r is Ok <==> old(self).territories_minted < old(self).total_territories,
            r is Err ==> r == Err::<(), _>(EmpireBlocksError::AlreadyClaimed) && *final(self) == *old(self),
            r is Ok ==> *final(self) == (GridState {
                territories_minted: (old(self).territories_minted + 1) as u16,
                ..*old(self)
            }),
    {
        if self.territories_minted >= self.total_territories {
            return Err(EmpireBlocksError::AlreadyClaimed);
        }
        self.territories_minted = self.territories_minted + 1;
        Ok(())
    }

    /// Whether the grid satisfies `wf`, which every method of it requires.
    pub fn is_valid(&self) -> (r: bool)
        ensures
            r == self.wf(),
    {
        let n = self.grid_size as u32;
        assert(n * n <= 255 * 255) by (nonlinear_arith)
            requires
                n <= 255,
        ;
        n >= 1 && self.total_territories as u32 == n * n && self.territories_minted
            <= self.total_territories && self.protocol_fee_bps <= 10000 && self.battle_skim_bps
            <= 10000
    }

    /// A fresh grid of side `grid_size`, with default rates and empty pools.
    pub fn new(authority: AccountKey, grid_size: u8, now: i64) -> (r: Result<GridState, EmpireBlocksError>)
        ensures
            grid_size == 0 ==> r == Err::<GridState, _>(EmpireBlocksError::InvalidConfiguration),
            grid_size > 0 ==> r == Ok::<_, EmpireBlocksError>(fresh_grid(authority, grid_size, now)),
            r matches Ok(g) ==> g.wf(),
    {
        if grid_size == 0 {
            return Err(EmpireBlocksError::InvalidConfiguration);
        }
        assert(grid_size * grid_size <= 255 * 255) by (nonlinear_arith)
            requires
                grid_size <= 255,
        ;
        Ok(GridState {
            authority,
            grid_size,
            total_territories: (grid_size as u16) * (grid_size as u16),
            territories_minted: 0,
            protocol_fee_bps: PROTOCOL_FEE_BPS,
            min_battle_stake: DEFAULT_MIN_BATTLE_STAKE,
            battle_skim_bps: DEFAULT_BATTLE_SKIM_BPS,
            total_volume: 0,
            total_fees_collected: 0,
            revenue_pool: 0,
            empire_bonus_pool: 0,
            treasury_balance: 0,
            last_distribution: now,
        })
    }

    /// The fee split of a sale at `sale_price`, or `ArithmeticOverflow`
    /// where the fee cannot be computed in 64 bits.
    pub fn fee_split(&self, sale_price: u64) -> (r: Result<FeeSplit, EmpireBlocksError>)
        requires
            self.wf(),
        ensures
            fee_fits(sale_price as int, self.protocol_fee_bps as int) <==> r is Ok,
            !fee_fits(sale_price as int, self.protocol_fee_bps as int) ==> r == Err::<
                FeeSplit,
                _,
            >(EmpireBlocksError::ArithmeticOverflow),
            r matches Ok(s) ==> split_matches(s, sale_price as int, self.protocol_fee_bps as int),
    {
        let scaled = match sale_price.checked_mul(self.protocol_fee_bps as u64) {
            Some(v) => v,
            None => return Err(EmpireBlocksError::ArithmeticOverflow),
        };
        let total_fee = scaled / BPS_DENOMINATOR;
        assert(total_fee <= sale_price) by (nonlinear_arith)
            requires
                total_fee == sale_price * self.protocol_fee_bps / 10000,
                self.protocol_fee_bps <= 10000,
        ;
        let owner_share = share_of(total_fee, OWNER_SHARE_BPS);
        let empire_share = share_of(total_fee, EMPIRE_BONUS_BPS);
        assert(owner_share + empire_share <= total_fee) by (nonlinear_arith)
            requires
                owner_share == total_fee * 6000 / 10000,
                empire_share == total_fee * 2500 / 10000,
                total_fee >= 0,
        ;
        let treasury_share = total_fee - owner_share - empire_share;
        Ok(FeeSplit {
            total_fee,
            owner_share,
            empire_share,
            treasury_share,
            seller_receives: sale_price - total_fee,
        })
    }

    /// Adds a completed sale at `sale_price` to the running totals and returns
    /// what the seller is owed. Fails with `ArithmeticOverflow`, changing
    /// nothing, where the fee or any total leaves 64 bits.
    pub fn record_sale(&mut self, sale_price: u64) -> (r: Result<u64, EmpireBlocksError>)
        requires
            old(self).wf(),
        ensures
            final(self).wf(),
            r is Ok <==> sale_fits(*old(self), sale_price as int),
            r is Err ==> r == Err::<u64, _>(EmpireBlocksError::ArithmeticOverflow),
            r is Err ==> *final(self) == *old(self),
            r matches Ok(net) ==> {
                let fee = bps_of(sale_price as int, old(self).protocol_fee_bps as int);
                &&& net == sale_price - fee
                &&& *final(self) == after_sale(*old(self), sale_price as int)
            },
    {
        let split = match self.fee_split(sale_price) {
            Ok(s) => s,
            Err(e) => return Err(e),
        };
        let total_volume = match self.total_volume.checked_add(sale_price) {
            Some(v) => v,
            None => return Err(EmpireBlocksError::ArithmeticOverflow),
        };
        let total_fees = match self.total_fees_collected.checked_add(split.total_fee) {
            Some(v) => v,
            None => return Err(EmpireBlocksError::ArithmeticOverflow),
        };
        let revenue_pool = match self.revenue_pool.checked_add(split.owner_share) {
            Some(v) => v,
            None => return Err(EmpireBlocksError::ArithmeticOverflow),
        };
        let empire_pool = match self.empire_bonus_pool.checked_add(split.empire_share) {
            Some(v) => v,
            None => return Err(EmpireBlocksError::ArithmeticOverflow),
        };
        let treasury = match self.treasury_balance.checked_add(split.treasury_share) {
            Some(v) => v,
            None => return Err(EmpireBlocksError::ArithmeticOverflow),
        };
        self.total_volume = total_volume;
        self.total_fees_collected = total_fees;
        self.revenue_pool = revenue_pool;
        self.empire_bonus_pool = empire_pool;
        self.treasury_balance = treasury;
        Ok(split.seller_receives)
    }
}

/// The grid of side `n` set up by `authority` at `now`: `n * n` cells, none
/// claimed, default rates, every total zero.
pub open spec fn fresh_grid(authority: AccountKey, n: u8, now: i64) -> GridState {
    GridState {
        authority,
        grid_size: n,
        total_territories: (n * n) as u16,
        territories_minted: 0,
        protocol_fee_bps: PROTOCOL_FEE_BPS,
        min_battle_stake: DEFAULT_MIN_BATTLE_STAKE,
        battle_skim_bps: DEFAULT_BATTLE_SKIM_BPS,
        total_volume: 0,
        total_fees_collected: 0,
        revenue_pool: 0,
        empire_bonus_pool: 0,
        treasury_balance: 0,
        last_distribution: now,
    }
}

/// Whether a sale at `price` keeps the fee and every running total within 64 bits.
pub open spec fn sale_fits(g: GridState, price: int) -> bool {
    let fee = bps_of(price, g.protocol_fee_bps as int);
    let owner = bps_of(fee, OWNER_SHARE_BPS as int);
    let empire = bps_of(fee, EMPIRE_BONUS_BPS as int);
    &&& fee_fits(price, g.protocol_fee_bps as int)
    &&& g.total_volume + price <= u64::MAX
    &&& g.total_fees_collected + fee <= u64::MAX
    &&& g.revenue_pool + owner <= u64::MAX
    &&& g.empire_bonus_pool + empire <= u64::MAX
    &&& g.treasury_balance + (fee - owner - empire) <= u64::MAX
}

/// The grid after a sale at `price`: the volume grows by the price, the
/// fees collected by the fee, and each pool by its share.
pub open spec fn after_sale(g: GridState, price: int) -> GridState {
    let fee = bps_of(price, g.protocol_fee_bps as int);
    let owner = bps_of(fee, OWNER_SHARE_BPS as int);
    let empire = bps_of(fee, EMPIRE_BONUS_BPS as int);
    GridState {
        total_volume: (g.total_volume + price) as u64,
        total_fees_collected: (g.total_fees_collected + fee) as u64,
        revenue_pool: (g.revenue_pool + owner) as u64,
        empire_bonus_pool: (g.empire_bonus_pool + empire) as u64,
        treasury_balance: (g.treasury_balance + (fee - owner - empire)) as u64,
        ..g
    }
}

} // verus!
