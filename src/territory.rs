use vstd::prelude::*;
use crate::key::AccountKey;

verus! {

/// Classification of a cell, fixed when the cell is claimed.
#[derive(Clone, Copy, Debug, PartialEq, Eq, Structural)]
pub enum BlockType {
    Standard,
    Capital,
    Corner,
    Border,
}

/// Greatest Manhattan distance from the centre at which a cell is a capital.
pub const CAPITAL_RADIUS: u8 = 5;

/// Manhattan distance between two cells.
pub open spec fn manhattan(x1: int, y1: int, x2: int, y2: int) -> int {
    (if x1 >= x2 { x1 - x2 } else { x2 - x1 }) + (if y1 >= y2 { y1 - y2 } else { y2 - y1 })
}

/// Classification of cell `(x, y)` on an `n` by `n` grid: a cell with both
/// coordinates on an edge is a corner, one with a single coordinate on an
/// edge is a border cell, one near the centre is a capital.
pub open spec fn block_type_of(x: int, y: int, n: int) -> BlockType {
    let ex = x == 0 || x == n - 1;
    let ey = y == 0 || y == n - 1;
    if ex && ey {
        BlockType::Corner
    } else if ex || ey {
        BlockType::Border
    } else if manhattan(x, y, n / 2, n / 2) <= CAPITAL_RADIUS {
        BlockType::Capital
    } else {
        BlockType::Standard
    }
}

impl BlockType {
    /// Revenue multiplier of the classification, in hundredths.
    pub open spec fn base_multiplier_spec(self) -> u16 {
        match self {
            BlockType::Standard => 100,
            BlockType::Border => 100,
            BlockType::Capital => 200,
            BlockType::Corner => 300,
        }
    }

    /// Weight given to a defender's stake on this classification, in hundredths.
    pub open spec fn defense_bonus_spec(self) -> u16 {
        match self {
            BlockType::Border => 120,
            _ => 100,
        }
    }

    pub fn base_multiplier(&self) -> (r: u16)
        ensures
            r == self.base_multiplier_spec(),
    {
        match self {
            BlockType::Standard => 100,
            BlockType::Border => 100,
            BlockType::Capital => 200,
            BlockType::Corner => 300,
        }
    }

    pub fn defense_bonus(&self) -> (r: u16)
        ensures
            r == self.defense_bonus_spec(),
    {
        match self {
            BlockType::Border => 120,
            _ => 100,
        }
    }
}

/// Whether `(x, y)` lies within `CAPITAL_RADIUS` of the grid's centre.
pub fn is_capital_position(x: u8, y: u8, grid_size: u8) -> (r: bool)
    ensures
        r == (manhattan(x as int, y as int, grid_size as int / 2, grid_size as int / 2)
            <= CAPITAL_RADIUS),
{
    let center = grid_size / 2;
    let dx: u8 = if x >= center { x - center } else { center - x };
    let dy: u8 = if y >= center { y - center } else { center - y };
    (dx as u16) + (dy as u16) <= CAPITAL_RADIUS as u16
}

/// Classification of `(x, y)` on a grid of side `grid_size`.
pub fn determine_block_type(x: u8, y: u8, grid_size: u8) -> (r: BlockType)
    requires
        grid_size >= 1,
    ensures
        r == block_type_of(x as int, y as int, grid_size as int),
{
    let max = grid_size - 1;
    let ex = x == 0 || x == max;
    let ey = y == 0 || y == max;
    if ex && ey {
        BlockType::Corner
    } else if ex || ey {
        BlockType::Border
    } else if is_capital_position(x, y, grid_size) {
        BlockType::Capital
    } else {
        BlockType::Standard
    }
}

/// Cosmetic settings of a territory. They take no part in the game's rules.
#[derive(Clone, Copy, Debug)]
pub struct VisualConfig {
    pub color_r: u8,
    pub color_g: u8,
    pub color_b: u8,
    pub pattern: u8,
    pub logo_index: u16,
    pub reserved: [u8; 10],
}

impl Default for VisualConfig {
    /// Mid grey, no pattern, no logo.
    fn default() -> (r: Self)
        ensures
            r.color_r == 100 && r.color_g == 100 && r.color_b == 100,
            r.pattern == 0 && r.logo_index == 0,
            forall|i: int| 0 <= i < 10 ==> r.reserved[i] == 0,
    {
        VisualConfig {
            color_r: 100,
            color_g: 100,
            color_b: 100,
            pattern: 0,
            logo_index: 0,
            reserved: [0u8; 10],
        }
    }
}

/// The record of one claimed cell.
#[derive(Clone, Copy, Debug)]
pub struct Territory {
    pub x: u8,
    pub y: u8,
    pub owner: AccountKey,
    pub block_type: BlockType,
    pub empire_id: Option<u32>,
    pub revenue_multiplier: u16,
    pub last_sale_price: u64,
    pub total_revenue_earned: u64,
    pub purchase_timestamp: i64,
    pub visual_config: VisualConfig,
}

} // verus!
