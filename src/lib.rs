//! Territory ownership, empire contiguity and staked battles on a square grid.
//!
//! All state lives in a [`Game`]: the grid configuration with its fee
//! accumulators, one slot per cell, the empires and the battles. Every
//! operation either applies completely or returns an error and leaves the
//! state unchanged. Moving tokens is the caller's business: a sale returns
//! the [`FeeSplit`] to pay, and settling a battle returns the [`Payout`] to
//! release from escrow.

pub mod battle;
pub mod combat;
pub mod empire;
pub mod errors;
pub mod game;
pub mod key;
pub mod grid;
pub mod laws;
pub mod territory;

pub use battle::{Battle, BattleResult, BattleStatus, Payout, RESPONSE_WINDOW};
pub use empire::{Empire, MAX_TERRITORIES};
pub use errors::EmpireBlocksError;
pub use game::Game;
pub use key::AccountKey;
pub use grid::{
    EMPIRE_BONUS_BPS, FeeSplit, GridState, OWNER_SHARE_BPS, PROTOCOL_FEE_BPS, TREASURY_SHARE_BPS,
};
pub use territory::{BlockType, Territory, VisualConfig, determine_block_type, is_capital_position};
