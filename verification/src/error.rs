//! Every failure mode the program can hit, each with a distinct code.
//!
//! A bidder or a keeper that gets a bare code back from a simulation learns nothing, so every
//! check has its own variant, and `code` gives each the number a client maps to a sentence.

use vstd::prelude::*;

verus! {

#[derive(Clone, Copy, Debug, PartialEq, Eq, Structural)]
pub enum FlockError {
    /// The account is not owned by this program, or holds the wrong discriminator.
    InvalidAccountOwner,
    /// A PDA argument did not match the address derived from its seeds.
    SeedsMismatch,
    /// A required signature was missing.
    MissingSignature,
    /// The signer is not the governor.
    NotGovernor,
    /// The signer is not the manager.
    NotManager,
    /// The index has already been sealed and cannot take new components.
    AlreadySealed,
    /// The action requires a sealed (live) index.
    NotSealed,
    /// Issuance and rebalancing are paused. Redemption never is.
    Paused,
    /// The component list is full.
    TooManyComponents,
    /// The mint is already a component of this index.
    DuplicateComponent,
    /// Component index out of range.
    UnknownComponent,
    /// A token account's mint or owner is not the one this instruction requires.
    InvalidTokenAccount,
    /// The index mint must have 9 decimals, no freeze authority, and the index PDA as mint authority.
    InvalidIndexMint,
    /// A fee parameter exceeds the hard cap this program enforces.
    FeeTooHigh,
    /// Arithmetic overflowed.
    MathOverflow,
    /// Issuance or redemption of zero tokens.
    ZeroAmount,
    /// The caller's slippage bound was crossed.
    SlippageExceeded,
    /// A rebalance is already running.
    RebalanceActive,
    /// No rebalance is running.
    NoRebalance,
    /// The auction has not opened yet, or has already closed.
    AuctionClosed,
    /// The component the bid wants to buy from the fund is already at or below its target.
    SellLegAtTarget,
    /// The bid would push fund NAV below the floor the proposal committed to.
    NavFloorBreached,
    /// Auction premium bounds are inverted, or exceed the index's cap.
    InvalidPremium,
    /// A supplied array does not have one entry per component.
    ArityMismatch,
    /// A reference price of zero cannot value anything.
    InvalidPrice,
    /// The rebalance timelock has not elapsed, or the requested delay is below the floor.
    TimelockNotMet,
    /// Redeeming this many tokens would leave the fund with a supply too small to price units against.
    SupplyTooSmall,
    /// The index still holds a balance for a component that is being valued at zero.
    StaleProposal,
    /// A bid must move two different components.
    SameComponent,
    /// The bid would sell more than the fund holds above target for that component.
    SellAmountExceedsExcess,
    /// The component the bid pays in is already at the cap the auction may raise it to.
    BuyLegAtCap,
    /// The payment would push the bought component past that cap.
    BuyAmountExceedsCap,
}

/// The number a client sees for each error: the position of the variant in the list above.
pub open spec fn error_code(e: FlockError) -> u32 {
    match e {
        FlockError::InvalidAccountOwner => 0,
        FlockError::SeedsMismatch => 1,
        FlockError::MissingSignature => 2,
        FlockError::NotGovernor => 3,
        FlockError::NotManager => 4,
        FlockError::AlreadySealed => 5,
        FlockError::NotSealed => 6,
        FlockError::Paused => 7,
        FlockError::TooManyComponents => 8,
        FlockError::DuplicateComponent => 9,
        FlockError::UnknownComponent => 10,
        FlockError::InvalidTokenAccount => 11,
        FlockError::InvalidIndexMint => 12,
        FlockError::FeeTooHigh => 13,
        FlockError::MathOverflow => 14,
        FlockError::ZeroAmount => 15,
        FlockError::SlippageExceeded => 16,
        FlockError::RebalanceActive => 17,
        FlockError::NoRebalance => 18,
        FlockError::AuctionClosed => 19,
        FlockError::SellLegAtTarget => 20,
        FlockError::NavFloorBreached => 21,
        FlockError::InvalidPremium => 22,
        FlockError::ArityMismatch => 23,
        FlockError::InvalidPrice => 24,
        FlockError::TimelockNotMet => 25,
        FlockError::SupplyTooSmall => 26,
        FlockError::StaleProposal => 27,
        FlockError::SameComponent => 28,
        FlockError::SellAmountExceedsExcess => 29,
        FlockError::BuyLegAtCap => 30,
        FlockError::BuyAmountExceedsCap => 31,
    }
}

impl FlockError {
    /// The custom error code this variant is reported under.
    pub fn code(&self) -> (c: u32)
        ensures
            c == error_code(*self),
    {
        match self {
            FlockError::InvalidAccountOwner => 0,
            FlockError::SeedsMismatch => 1,
            FlockError::MissingSignature => 2,
            FlockError::NotGovernor => 3,
            FlockError::NotManager => 4,
            FlockError::AlreadySealed => 5,
            FlockError::NotSealed => 6,
            FlockError::Paused => 7,
            FlockError::TooManyComponents => 8,
            FlockError::DuplicateComponent => 9,
            FlockError::UnknownComponent => 10,
            FlockError::InvalidTokenAccount => 11,
            FlockError::InvalidIndexMint => 12,
            FlockError::FeeTooHigh => 13,
            FlockError::MathOverflow => 14,
            FlockError::ZeroAmount => 15,
            FlockError::SlippageExceeded => 16,
            FlockError::RebalanceActive => 17,
            FlockError::NoRebalance => 18,
            FlockError::AuctionClosed => 19,
            FlockError::SellLegAtTarget => 20,
            FlockError::NavFloorBreached => 21,
            FlockError::InvalidPremium => 22,
            FlockError::ArityMismatch => 23,
            FlockError::InvalidPrice => 24,
            FlockError::TimelockNotMet => 25,
            FlockError::SupplyTooSmall => 26,
            FlockError::StaleProposal => 27,
            FlockError::SameComponent => 28,
            FlockError::SellAmountExceedsExcess => 29,
            FlockError::BuyLegAtCap => 30,
            FlockError::BuyAmountExceedsCap => 31,
        }
    }
}

/// Distinct variants are reported under distinct codes.
pub proof fn lemma_error_codes_distinct(a: FlockError, b: FlockError)
    ensures
        error_code(a) == error_code(b) <==> a == b,
{
}

/// Why an instruction was refused: one of this program's own errors, or one of the runtime's
/// generic failures that the handlers raise directly.
#[derive(Clone, Copy, Debug, PartialEq, Eq, Structural)]
pub enum ProgramFault {
    /// A numbered error of this program.
    Flock(FlockError),
    /// The instruction data does not decode, or names an unknown role.
    InvalidInstructionData,
    /// An account holds fewer bytes than the record it must contain.
    AccountDataTooSmall,
    /// The account an initialization would create already holds data.
    AccountAlreadyInitialized,
    /// Fewer accounts were passed than the instruction's account list names.
    NotEnoughAccountKeys,
    /// No bump seed yields a program address for these seeds.
    InvalidSeeds,
}

impl ProgramFault {
    /// Wrap one of this program's numbered errors.
    pub fn flock(e: FlockError) -> (f: ProgramFault)
        ensures
            f == ProgramFault::Flock(e),
    {
        ProgramFault::Flock(e)
    }
}

} // verus!
