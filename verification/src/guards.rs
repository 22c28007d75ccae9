//! Account checks shared by every instruction.
//!
//! An unchecked account is the entire attack surface of the program. Every account a handler
//! reads or writes passes through one of these functions.

use solana_program::program_pack::Pack;
use vstd::prelude::*;

use crate::error::{FlockError, ProgramFault};
use crate::layout::le_u64;
use crate::state::Key;

verus! {

/// What a handler can see of an account: its address, its owner program, whether it signed,
/// and its data.
#[derive(Clone, Debug)]
pub struct AccountView {
    pub key: Key,
    pub owner: Key,
    pub is_signer: bool,
    pub data: Vec<u8>,
}

/// The fields of a token account that the checks read.
#[derive(Clone, Copy, Debug)]
pub struct TokenAccount {
    pub mint: Key,
    pub owner: Key,
    pub amount: u64,
}

/// The fields of a token mint that the checks read.
#[derive(Clone, Copy, Debug)]
pub struct MintInfo {
    pub mint_authority: Option<Key>,
    pub supply: u64,
    pub decimals: u8,
    pub freeze_authority: Option<Key>,
}

/// The token program's address, `TokenkegQfeZyiNwAJbNbGKPFXCWuBvf9Ss623VQ5DA`, as bytes.
pub open spec fn token_program_id() -> Seq<u8> {
    seq![
        6u8, 221u8, 246u8, 225u8, 215u8, 101u8, 161u8, 147u8, 217u8, 203u8, 225u8, 70u8, 206u8,
        235u8, 121u8, 172u8, 28u8, 180u8, 133u8, 237u8, 95u8, 91u8, 55u8, 145u8, 58u8, 140u8,
        245u8, 133u8, 126u8, 255u8, 0u8, 169u8,
    ]
}

/// The system program's address: 32 zero bytes.
pub open spec fn system_program_id() -> Seq<u8> {
    Seq::new(32, |i: int| 0u8)
}

/// Calls `spl_token::id()`. Claimed: it returns the address that `spl_token` declares with
/// `declare_id!("TokenkegQfeZyiNwAJbNbGKPFXCWuBvf9Ss623VQ5DA")`, whose bytes are written out
/// in `token_program_id`.
#[verifier::external_body]
pub fn token_program_key() -> (k: Key)
    ensures
        k@ == token_program_id(),
{
    Key { bytes: spl_token::id().to_bytes() }
}

/// Calls `solana_program::system_program::id()`. Claimed: it returns the all-zero address
/// that the system program is declared under (`11111111111111111111111111111111`).
#[verifier::external_body]
pub fn system_program_key() -> (k: Key)
    ensures
        k@ == system_program_id(),
{
    Key { bytes: solana_program::system_program::id().to_bytes() }
}

/// A four-byte option tag at `at`: `[0, 0, 0, 0]` for none, `[1, 0, 0, 0]` for some.
pub open spec fn option_tag_ok(b: Seq<u8>, at: int) -> bool {
    &&& b[at] == 0 || b[at] == 1
    &&& b[at + 1] == 0 && b[at + 2] == 0 && b[at + 3] == 0
}

/// The optional address at `at`: its tag, then its 32 bytes.
pub open spec fn option_key_at(b: Seq<u8>, at: int) -> Option<Seq<u8>> {
    if b[at] == 1 {
        Some(b.subrange(at + 4, at + 36))
    } else {
        None
    }
}

/// What `spl_token::state::Account::unpack` gives for these bytes: the mint, owner and amount of
/// a token account. The data must be exactly 165 bytes, its state byte initialized (1) or frozen
/// (2), and its three optional fields (delegate, native amount, close authority) well tagged.
pub open spec fn unpacked_token_account(data: Seq<u8>) -> Option<(Seq<u8>, Seq<u8>, u64)> {
    if data.len() == 165 && option_tag_ok(data, 72) && (data[108] == 1 || data[108] == 2)
        && option_tag_ok(data, 109) && option_tag_ok(data, 129) {
        Some((data.subrange(0, 32), data.subrange(32, 64), le_u64(data, 64)))
    } else {
        None
    }
}

/// What `spl_token::state::Mint::unpack` gives for these bytes: the mint authority, supply,
/// decimals and freeze authority of a mint. The data must be exactly 82 bytes, initialized (byte
/// 45 is 1), and its two optional authorities well tagged.
pub open spec fn unpacked_mint(data: Seq<u8>) -> Option<(Option<Seq<u8>>, u64, u8, Option<Seq<u8>>)> {
    if data.len() == 82 && option_tag_ok(data, 0) && data[45] == 1 && option_tag_ok(data, 46) {
        Some((option_key_at(data, 0), le_u64(data, 36), data[44], option_key_at(data, 46)))
    } else {
        None
    }
}

/// The key's bytes, or none.
pub open spec fn opt_key_view(k: Option<Key>) -> Option<Seq<u8>> {
    match k {
        Some(k) => Some(k@),
        None => None,
    }
}

/// Calls `spl_token::state::Account::unpack` (from `Pack`), which refuses data that is not
/// exactly the 165-byte layout, holds a bad option tag or state byte, or is not initialized.
/// Claimed: it succeeds exactly when `unpacked_token_account` says so, with that mint, owner and
/// amount; the other fields are not read.
#[verifier::external_body]
fn unpack_token_account(data: &[u8]) -> (r: Option<TokenAccount>)
    ensures
        r matches Some(a) ==> unpacked_token_account(data@) == Some((a.mint@, a.owner@, a.amount)),
        r is None ==> unpacked_token_account(data@) is None,
{
    spl_token::state::Account::unpack(data).ok().map(
        |a| TokenAccount {
            mint: Key { bytes: a.mint.to_bytes() },
            owner: Key { bytes: a.owner.to_bytes() },
            amount: a.amount,
        },
    )
}

/// Calls `spl_token::state::Mint::unpack` (from `Pack`), which refuses data that is not
/// exactly the 82-byte layout, holds a bad option tag or initialized byte, or is not
/// initialized. Claimed: it succeeds exactly when `unpacked_mint` says so, with those
/// authorities, supply and decimals.
#[verifier::external_body]
fn unpack_mint(data: &[u8]) -> (r: Option<MintInfo>)
    ensures
        r matches Some(m) ==> unpacked_mint(data@) == Some(
            (
                opt_key_view(m.mint_authority),
                m.supply,
                m.decimals,
                opt_key_view(m.freeze_authority),
            ),
        ),
        r is None ==> unpacked_mint(data@) is None,
{
    spl_token::state::Mint::unpack(data).ok().map(
        |m| MintInfo {
            mint_authority: Option::from(m.mint_authority).map(|k: solana_program::pubkey::Pubkey| Key { bytes: k.to_bytes() }),
            supply: m.supply,
            decimals: m.decimals,
            freeze_authority: Option::from(m.freeze_authority).map(|k: solana_program::pubkey::Pubkey| Key { bytes: k.to_bytes() }),
        },
    )
}

pub open spec fn flock(e: FlockError) -> ProgramFault {
    ProgramFault::Flock(e)
}

pub fn require_signer(info: &AccountView) -> (r: Result<(), ProgramFault>)
    ensures
        r is Ok <==> info.is_signer,
        r matches Err(e) ==> e == flock(FlockError::MissingSignature),
{
    if !info.is_signer {
        return Err(ProgramFault::Flock(FlockError::MissingSignature));
    }
    Ok(())
}

pub fn require_key(info: &AccountView, expected: &Key) -> (r: Result<(), ProgramFault>)
    ensures
        r is Ok <==> info.key@ == expected@,
        r matches Err(e) ==> e == flock(FlockError::SeedsMismatch),
{
    if !info.key.same(expected) {
        return Err(ProgramFault::Flock(FlockError::SeedsMismatch));
    }
    Ok(())
}

pub fn require_token_program(info: &AccountView) -> (r: Result<(), ProgramFault>)
    ensures
        r is Ok <==> info.key@ == token_program_id(),
        r matches Err(e) ==> e == flock(FlockError::InvalidTokenAccount),
{
    if !info.key.same(&token_program_key()) {
        return Err(ProgramFault::Flock(FlockError::InvalidTokenAccount));
    }
    Ok(())
}

pub fn require_system_program(info: &AccountView) -> (r: Result<(), ProgramFault>)
    ensures
        r is Ok <==> info.key@ == system_program_id(),
        r matches Err(e) ==> e == flock(FlockError::InvalidTokenAccount),
{
    if !info.key.same(&system_program_key()) {
        return Err(ProgramFault::Flock(FlockError::InvalidTokenAccount));
    }
    Ok(())
}

/// The mint an account holds, when the token program owns it and its data unpacks.
pub open spec fn mint_readable(info: AccountView) -> bool {
    info.owner@ == token_program_id() && unpacked_mint(info.data@) is Some
}

/// The token account an account holds, when the token program owns it and its data unpacks.
pub open spec fn token_account_readable(info: AccountView) -> bool {
    info.owner@ == token_program_id() && unpacked_token_account(info.data@) is Some
}

pub fn read_mint(info: &AccountView) -> (r: Result<MintInfo, ProgramFault>)
    ensures
        r is Ok <==> mint_readable(*info),
        r matches Ok(m) ==> unpacked_mint(info.data@) == Some(
            (
                opt_key_view(m.mint_authority),
                m.supply,
                m.decimals,
                opt_key_view(m.freeze_authority),
            ),
        ),
        r matches Err(e) ==> e == flock(FlockError::InvalidTokenAccount),
{
    if !info.owner.same(&token_program_key()) {
        return Err(ProgramFault::Flock(FlockError::InvalidTokenAccount));
    }
    match unpack_mint(info.data.as_slice()) {
        Some(m) => Ok(m),
        None => Err(ProgramFault::Flock(FlockError::InvalidTokenAccount)),
    }
}

pub fn read_token_account(info: &AccountView) -> (r: Result<TokenAccount, ProgramFault>)
    ensures
        r is Ok <==> token_account_readable(*info),
        r matches Ok(a) ==> unpacked_token_account(info.data@) == Some(
            (a.mint@, a.owner@, a.amount),
        ),
        r matches Err(e) ==> e == flock(FlockError::InvalidTokenAccount),
{
    if !info.owner.same(&token_program_key()) {
        return Err(ProgramFault::Flock(FlockError::InvalidTokenAccount));
    }
    match unpack_token_account(info.data.as_slice()) {
        Some(a) => Ok(a),
        None => Err(ProgramFault::Flock(FlockError::InvalidTokenAccount)),
    }
}

/// Whether the account is a token account of `mint` owned by `owner`.
pub open spec fn is_token_account(info: AccountView, mint: Seq<u8>, owner: Seq<u8>) -> bool {
    &&& token_account_readable(info)
    &&& unpacked_token_account(info.data@).unwrap().0 == mint
    &&& unpacked_token_account(info.data@).unwrap().1 == owner
}

/// Whether the account is a token account of `mint`, whoever owns it.
pub open spec fn is_token_account_of_mint(info: AccountView, mint: Seq<u8>) -> bool {
    &&& token_account_readable(info)
    &&& unpacked_token_account(info.data@).unwrap().0 == mint
}

/// A token account that must belong to `owner` and hold `mint`.
pub fn require_token_account(info: &AccountView, mint: &Key, owner: &Key) -> (r: Result<
    TokenAccount,
    ProgramFault,
>)
    ensures
        r is Ok <==> is_token_account(*info, mint@, owner@),
        r matches Ok(a) ==> unpacked_token_account(info.data@) == Some(
            (a.mint@, a.owner@, a.amount),
        ),
        r matches Err(e) ==> e == flock(FlockError::InvalidTokenAccount),
{
    let acct = read_token_account(info)?;
    if !acct.mint.same(mint) || !acct.owner.same(owner) {
        return Err(ProgramFault::Flock(FlockError::InvalidTokenAccount));
    }
    Ok(acct)
}

/// A token account that must hold `mint`, whoever owns it. Used for the accounts a caller
/// nominates for themselves, where the owner is the caller's business and not this program's.
pub fn require_token_account_of_mint(info: &AccountView, mint: &Key) -> (r: Result<
    TokenAccount,
    ProgramFault,
>)
    ensures
        r is Ok <==> is_token_account_of_mint(*info, mint@),
        r matches Ok(a) ==> unpacked_token_account(info.data@) == Some(
            (a.mint@, a.owner@, a.amount),
        ),
        r matches Err(e) ==> e == flock(FlockError::InvalidTokenAccount),
{
    let acct = read_token_account(info)?;
    if !acct.mint.same(mint) {
        return Err(ProgramFault::Flock(FlockError::InvalidTokenAccount));
    }
    Ok(acct)
}

} // verus!
