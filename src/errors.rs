use vstd::prelude::*;

verus! {

/// Every way an operation can be refused. A refused operation changes nothing.
#[derive(Clone, Copy, Debug, PartialEq, Eq, Structural)]
pub enum EmpireBlocksError {
    /// A coordinate lies outside the grid.
    OutOfBounds,
    /// The cell already has an owner.
    AlreadyClaimed,
    /// The cell has not been claimed yet.
    Unclaimed,
    /// The caller does not own the territory.
    NotOwner,
    /// The caller may not act on this battle or empire.
    NotAuthorized,
    /// The two territories are not rook neighbours.
    NotAdjacent,
    /// The cells of an empire do not form one connected group.
    NotContiguous,
    /// Attacker and target have the same owner.
    CannotAttackOwnTerritory,
    /// The battle is not in the status the operation needs.
    InvalidBattleStatus,
    /// The defender answered after the response window closed.
    ResponseWindowExpired,
    /// The battle cannot be cancelled while the response window is open.
    ResponseWindowOpen,
    /// The stake is below the configured minimum.
    InsufficientStake,
    /// A cell occurs twice in a list of empire members.
    DuplicateTerritory,
    /// A cell already belongs to another empire.
    InAnotherEmpire,
    /// An empire may hold at most `MAX_TERRITORIES` cells.
    EmpireTooBig,
    /// No empire has this id.
    EmpireNotFound,
    /// No battle has this id.
    BattleNotFound,
    /// A computation left the range of its integer type.
    ArithmeticOverflow,
    /// The requested configuration is not valid.
    InvalidConfiguration,
}

} // verus!
