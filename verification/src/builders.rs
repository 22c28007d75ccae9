//! Instruction builders.
//!
//! These sit beside the handlers so that the account order can never drift between the handler
//! and its callers: both follow the lists written in `instruction`. A builder returns none only
//! when an address it needs cannot be derived.

use vstd::prelude::*;
use vstd::string::StringSliceAdditionalSpecFns;

use crate::guards::{system_program_id, system_program_key, token_program_id, token_program_key};
use crate::instruction::FlockInstruction;
use crate::state::{derived_address, index_pda, index_seeds, vault_pda, vault_seeds, Key};

verus! {

/// One account of an instruction, with the access the instruction asks for.
#[derive(Clone, Copy, Debug, PartialEq, Eq)]
pub struct AccountMeta {
    pub pubkey: Key,
    pub is_signer: bool,
    pub is_writable: bool,
}

/// A program call: the program, its accounts in order, and the instruction.
#[derive(Clone, Debug, PartialEq, Eq)]
pub struct Instruction {
    pub program_id: Key,
    pub accounts: Vec<AccountMeta>,
    pub data: FlockInstruction,
}

/// Arguments of index creation, as a client writes them.
pub struct InitArgs {
    pub name: [u8; 32],
    pub symbol: [u8; 12],
    pub streaming_fee_bps: u16,
    pub issue_fee_bps: u16,
    pub redeem_fee_bps: u16,
    pub max_premium_bps: u16,
    pub rebalance_delay: u32,
}

/// Arguments of a rebalance proposal, as a client writes them.
pub struct AuctionArgs {
    pub duration: u32,
    pub start_premium_bps: i16,
    pub end_premium_bps: i16,
    pub max_nav_loss_bps: u16,
}

/// `text` cut or zero-padded to `n` bytes.
pub open spec fn padded(text: Seq<u8>, n: nat) -> Seq<u8> {
    Seq::new(n, |k: int| if k < text.len() { text[k] } else { 0u8 })
}

/// Pad a display string into the fixed field the account stores: its first `N` bytes, then
/// zeros.
pub fn fixed<const N: usize>(text: &str) -> (out: [u8; N])
    ensures
        out@ == padded(text.spec_bytes(), N as nat),
{
    let mut out = [0u8; N];
    let bytes = text.as_bytes();
    let n: usize = if bytes.len() < N {
        bytes.len()
    } else {
        N
    };
    let mut i: usize = 0;
    while i < n
        invariant
            i <= n,
            n <= N,
            n <= bytes@.len(),
            n == bytes@.len() || n == N,
            bytes@ == text.spec_bytes(),
            out@.len() == N,
            forall|k: int| 0 <= k < i ==> #[trigger] out@[k] == bytes@[k],
            forall|k: int| i <= k < N ==> #[trigger] out@[k] == 0u8,
        decreases n - i,
    {
        out[i] = bytes[i];
        i = i + 1;
    }
    assert(out@ =~= padded(text.spec_bytes(), N as nat));
    out
}

/// `m` names `key` with the given access.
pub open spec fn meta_is(m: AccountMeta, key: Seq<u8>, signer: bool, writable: bool) -> bool {
    m.pubkey@ == key && m.is_signer == signer && m.is_writable == writable
}

/// The address of the index for `index_mint`, where one can be derived.
pub open spec fn index_address_of(program_id: Seq<u8>, index_mint: Seq<u8>) -> Option<(Seq<u8>, u8)> {
    derived_address(index_seeds(index_mint), program_id)
}

/// The address of the vault for `mint`, where one can be derived.
pub open spec fn vault_address_of(program_id: Seq<u8>, index_mint: Seq<u8>, mint: Seq<u8>) -> Option<
    (Seq<u8>, u8),
> {
    derived_address(vault_seeds(index_mint, mint), program_id)
}

/// The index address for `index_mint`, or no bytes where none can be derived.
pub open spec fn index_key(program_id: Seq<u8>, index_mint: Seq<u8>) -> Seq<u8> {
    match index_address_of(program_id, index_mint) {
        Some((k, _)) => k,
        None => Seq::empty(),
    }
}

/// The vault address for `mint`, or no bytes where none can be derived.
pub open spec fn vault_key(program_id: Seq<u8>, index_mint: Seq<u8>, mint: Seq<u8>) -> Seq<u8> {
    match vault_address_of(program_id, index_mint, mint) {
        Some((k, _)) => k,
        None => Seq::empty(),
    }
}

/// Every mint in `mints` has a vault address.
pub open spec fn vaults_derivable(program_id: Seq<u8>, index_mint: Seq<u8>, mints: Seq<Key>) -> bool {
    forall|i: int|
        0 <= i < mints.len() ==> #[trigger] vault_address_of(program_id, index_mint, mints[i]@) is Some
}

/// Every component mint in `pairs` has a vault address.
pub open spec fn pair_vaults_derivable(
    program_id: Seq<u8>,
    index_mint: Seq<u8>,
    pairs: Seq<(Key, Key)>,
) -> bool {
    forall|i: int|
        0 <= i < pairs.len() ==> #[trigger] vault_address_of(program_id, index_mint, pairs[i].0@) is Some
}

/// From `at` on, `accs` holds one unsigned vault per mint of `mints`, in order, and nothing else.
pub open spec fn vault_metas(
    accs: Seq<AccountMeta>,
    at: int,
    program_id: Seq<u8>,
    index_mint: Seq<u8>,
    mints: Seq<Key>,
    writable: bool,
) -> bool {
    &&& accs.len() == at + mints.len()
    &&& forall|i: int|
        0 <= i < mints.len() ==> meta_is(
            #[trigger] accs[at + i],
            vault_key(program_id, index_mint, mints[i]@),
            false,
            writable,
        )
}

/// From `at` on, `accs` holds for each pair the writable vault of its mint and then the writable
/// account of the pair, in order, and nothing else.
pub open spec fn pair_metas(
    accs: Seq<AccountMeta>,
    at: int,
    program_id: Seq<u8>,
    index_mint: Seq<u8>,
    pairs: Seq<(Key, Key)>,
) -> bool {
    &&& accs.len() == at + 2 * pairs.len()
    &&& forall|i: int|
        0 <= i < pairs.len() ==> meta_is(
            #[trigger] accs[at + 2 * i],
            vault_key(program_id, index_mint, pairs[i].0@),
            false,
            true,
        ) && meta_is(accs[at + 2 * i + 1], pairs[i].1@, false, true)
}

fn ro(key: Key) -> (m: AccountMeta)
    ensures
        meta_is(m, key@, false, false),
{
    AccountMeta { pubkey: key, is_signer: false, is_writable: false }
}

fn rw(key: Key) -> (m: AccountMeta)
    ensures
        meta_is(m, key@, false, true),
{
    AccountMeta { pubkey: key, is_signer: false, is_writable: true }
}

fn signer_ro(key: Key) -> (m: AccountMeta)
    ensures
        meta_is(m, key@, true, false),
{
    AccountMeta { pubkey: key, is_signer: true, is_writable: false }
}

fn signer_rw(key: Key) -> (m: AccountMeta)
    ensures
        meta_is(m, key@, true, true),
{
    AccountMeta { pubkey: key, is_signer: true, is_writable: true }
}

/// Appends the vault of each mint; false, with `accounts` left partly filled, where a vault
/// address cannot be derived.
fn push_vaults(
    accounts: &mut Vec<AccountMeta>,
    program_id: &Key,
    index_mint: &Key,
    mints: &[Key],
    writable: bool,
) -> (ok: bool)
    ensures
        ok == vaults_derivable(program_id@, index_mint@, mints@),
        ok ==> final(accounts)@.subrange(0, old(accounts)@.len() as int) == old(accounts)@,
        ok ==> vault_metas(
            final(accounts)@,
            old(accounts)@.len() as int,
            program_id@,
            index_mint@,
            mints@,
            writable,
        ),
{
    let ghost start = accounts@;
    let mut i: usize = 0;
    while i < mints.len()
        invariant
            i <= mints@.len(),
            accounts@.len() == start.len() + i,
            accounts@.subrange(0, start.len() as int) == start,
            forall|k: int|
                0 <= k < i ==> #[trigger] vault_address_of(program_id@, index_mint@, mints@[k]@) is Some,
            forall|k: int|
                0 <= k < i ==> meta_is(
                    #[trigger] accounts@[start.len() + k],
                    vault_key(program_id@, index_mint@, mints@[k]@),
                    false,
                    writable,
                ),
        decreases mints@.len() - i,
    {
        match vault_pda(program_id, index_mint, &mints[i]) {
            None => {
                assert(vault_address_of(program_id@, index_mint@, mints@[i as int]@) is None);
                return false;
            },
            Some((vault, _)) => {
                let m = AccountMeta { pubkey: vault, is_signer: false, is_writable: writable };
                accounts.push(m);
                assert(accounts@.subrange(0, start.len() as int) =~= start);
            },
        }
        i = i + 1;
    }
    true
}

/// Appends the vault of each component mint followed by the caller's account for it; false
/// where a vault address cannot be derived.
fn push_pairs(
    accounts: &mut Vec<AccountMeta>,
    program_id: &Key,
    index_mint: &Key,
    pairs: &[(Key, Key)],
) -> (ok: bool)
    ensures
        ok == pair_vaults_derivable(program_id@, index_mint@, pairs@),
        ok ==> final(accounts)@.subrange(0, old(accounts)@.len() as int) == old(accounts)@,
        ok ==> pair_metas(final(accounts)@, old(accounts)@.len() as int, program_id@, index_mint@, pairs@),
{
    let ghost start = accounts@;
    let mut i: usize = 0;
    while i < pairs.len()
        invariant
            i <= pairs@.len(),
            accounts@.len() == start.len() + 2 * i,
            accounts@.subrange(0, start.len() as int) == start,
            forall|k: int|
                0 <= k < i ==> #[trigger] vault_address_of(program_id@, index_mint@, pairs@[k].0@) is Some,
            forall|k: int|
                0 <= k < i ==> meta_is(
                    #[trigger] accounts@[start.len() + 2 * k],
                    vault_key(program_id@, index_mint@, pairs@[k].0@),
                    false,
                    true,
                ) && meta_is(accounts@[start.len() + 2 * k + 1], pairs@[k].1@, false, true),
        decreases pairs@.len() - i,
    {
        let (mint, user_account) = pairs[i];
        assert(mint@ == pairs@[i as int].0@ && user_account@ == pairs@[i as int].1@);
        match vault_pda(program_id, index_mint, &mint) {
            None => {
                assert(vault_address_of(program_id@, index_mint@, pairs@[i as int].0@) is None);
                return false;
            },
            Some((vault, _)) => {
                let ghost prev = accounts@;
                let a = rw(vault);
                let b = rw(user_account);
                accounts.push(a);
                accounts.push(b);
                assert(accounts@ == prev.push(a).push(b));
                assert(accounts@.subrange(0, start.len() as int) =~= start);
                assert(meta_is(accounts@[start.len() + 2 * i], vault_key(program_id@, index_mint@, pairs@[i as int].0@), false, true));
                assert(meta_is(accounts@[start.len() + 2 * i + 1], pairs@[i as int].1@, false, true));
                assert forall|k: int| 0 <= k <= i implies meta_is(
                    #[trigger] accounts@[start.len() + 2 * k],
                    vault_key(program_id@, index_mint@, pairs@[k].0@),
                    false,
                    true,
                ) && meta_is(accounts@[start.len() + 2 * k + 1], pairs@[k].1@, false, true) by {
                    if k < i {
                        assert(accounts@[start.len() + 2 * k] == prev[start.len() + 2 * k]);
                        assert(accounts@[start.len() + 2 * k + 1] == prev[start.len() + 2 * k + 1]);
                    }
                }
            },
        }
        i = i + 1;
    }
    true
}

/// The index address, read from the derivation.
fn index_address(program_id: &Key, index_mint: &Key) -> (r: Option<Key>)
    ensures
        r is None <==> index_address_of(program_id@, index_mint@) is None,
        r matches Some(k) ==> k@ == index_key(program_id@, index_mint@),
{
    match index_pda(program_id, index_mint) {
        Some((k, _)) => Some(k),
        None => None,
    }
}

/// Builds `InitIndex`: payer, index, index mint, governor, manager, fee recipient, system program.
pub fn init_index(
    program_id: &Key,
    payer: &Key,
    index_mint: &Key,
    governor: &Key,
    manager: &Key,
    fee_recipient: &Key,
    args: InitArgs,
) -> (r: Option<Instruction>)
    ensures
        r is None <==> index_address_of(program_id@, index_mint@) is None,
        r matches Some(ix) ==> {
            &&& ix.program_id@ == program_id@
            &&& ix.accounts@.len() == 7
            &&& meta_is(ix.accounts@[0], payer@, true, true)
            &&& meta_is(ix.accounts@[1], index_key(program_id@, index_mint@), false, true)
            &&& meta_is(ix.accounts@[2], index_mint@, false, false)
            &&& meta_is(ix.accounts@[3], governor@, false, false)
            &&& meta_is(ix.accounts@[4], manager@, false, false)
            &&& meta_is(ix.accounts@[5], fee_recipient@, false, false)
            &&& meta_is(ix.accounts@[6], system_program_id(), false, false)
            &&& ix.data == (FlockInstruction::InitIndex {
                name: args.name,
                symbol: args.symbol,
                streaming_fee_bps: args.streaming_fee_bps,
                issue_fee_bps: args.issue_fee_bps,
                redeem_fee_bps: args.redeem_fee_bps,
                max_premium_bps: args.max_premium_bps,
                rebalance_delay: args.rebalance_delay,
            })
        },
{
    let index = match index_address(program_id, index_mint) {
        Some(k) => k,
        None => {
            return None;
        },
    };
    let mut accounts: Vec<AccountMeta> = Vec::new();
    accounts.push(signer_rw(*payer));
    accounts.push(rw(index));
    accounts.push(ro(*index_mint));
    accounts.push(ro(*governor));
    accounts.push(ro(*manager));
    accounts.push(ro(*fee_recipient));
    accounts.push(ro(system_program_key()));
    Some(
        Instruction {
            program_id: *program_id,
            accounts,
            data: FlockInstruction::InitIndex {
                name: args.name,
                symbol: args.symbol,
                streaming_fee_bps: args.streaming_fee_bps,
                issue_fee_bps: args.issue_fee_bps,
                redeem_fee_bps: args.redeem_fee_bps,
                max_premium_bps: args.max_premium_bps,
                rebalance_delay: args.rebalance_delay,
            },
        },
    )
}

/// Builds `AddComponent`: manager, payer, index, index mint, component mint, vault, system
/// program, token program.
pub fn add_component(
    program_id: &Key,
    manager: &Key,
    payer: &Key,
    index_mint: &Key,
    component_mint: &Key,
    units: u64,
) -> (r: Option<Instruction>)
    ensures
        r is None <==> index_address_of(program_id@, index_mint@) is None || vault_address_of(
            program_id@,
            index_mint@,
            component_mint@,
        ) is None,
        r matches Some(ix) ==> {
            &&& ix.program_id@ == program_id@
            &&& ix.accounts@.len() == 8
            &&& meta_is(ix.accounts@[0], manager@, true, false)
            &&& meta_is(ix.accounts@[1], payer@, true, true)
            &&& meta_is(ix.accounts@[2], index_key(program_id@, index_mint@), false, true)
            &&& meta_is(ix.accounts@[3], index_mint@, false, false)
            &&& meta_is(ix.accounts@[4], component_mint@, false, false)
            &&& meta_is(
                ix.accounts@[5],
                vault_key(program_id@, index_mint@, component_mint@),
                false,
                true,
            )
            &&& meta_is(ix.accounts@[6], system_program_id(), false, false)
            &&& meta_is(ix.accounts@[7], token_program_id(), false, false)
            &&& ix.data == (FlockInstruction::AddComponent { units })
        },
{
    let index = match index_address(program_id, index_mint) {
        Some(k) => k,
        None => {
            return None;
        },
    };
    let vault = match vault_pda(program_id, index_mint, component_mint) {
        Some((k, _)) => k,
        None => {
            return None;
        },
    };
    let mut accounts: Vec<AccountMeta> = Vec::new();
    accounts.push(signer_ro(*manager));
    accounts.push(signer_rw(*payer));
    accounts.push(rw(index));
    accounts.push(ro(*index_mint));
    accounts.push(ro(*component_mint));
    accounts.push(rw(vault));
    accounts.push(ro(system_program_key()));
    accounts.push(ro(token_program_key()));
    Some(
        Instruction {
            program_id: *program_id,
            accounts,
            data: FlockInstruction::AddComponent { units },
        },
    )
}

/// The three accounts that `SealIndex`, `SetAuthority` and `SetPaused` take: the signer, the
/// index, the index mint.
pub open spec fn signed_index_metas(
    accs: Seq<AccountMeta>,
    signer: Seq<u8>,
    program_id: Seq<u8>,
    index_mint: Seq<u8>,
) -> bool {
    &&& accs.len() == 3
    &&& meta_is(accs[0], signer, true, false)
    &&& meta_is(accs[1], index_key(program_id, index_mint), false, true)
    &&& meta_is(accs[2], index_mint, false, false)
}

fn signed_index_accounts(signer: &Key, program_id: &Key, index_mint: &Key) -> (r: Option<
    Vec<AccountMeta>,
>)
    ensures
        r is None <==> index_address_of(program_id@, index_mint@) is None,
        r matches Some(accs) ==> signed_index_metas(accs@, signer@, program_id@, index_mint@),
{
    let index = match index_address(program_id, index_mint) {
        Some(k) => k,
        None => {
            return None;
        },
    };
    let mut accounts: Vec<AccountMeta> = Vec::new();
    accounts.push(signer_ro(*signer));
    accounts.push(rw(index));
    accounts.push(ro(*index_mint));
    Some(accounts)
}

/// Builds `SealIndex`: manager, index, index mint.
pub fn seal_index(program_id: &Key, manager: &Key, index_mint: &Key) -> (r: Option<Instruction>)
    ensures
        r is None <==> index_address_of(program_id@, index_mint@) is None,
        r matches Some(ix) ==> {
            &&& ix.program_id@ == program_id@
            &&& signed_index_metas(ix.accounts@, manager@, program_id@, index_mint@)
            &&& ix.data == FlockInstruction::SealIndex
        },
{
    match signed_index_accounts(manager, program_id, index_mint) {
        Some(accounts) => Some(
            Instruction { program_id: *program_id, accounts, data: FlockInstruction::SealIndex },
        ),
        None => None,
    }
}

/// The first six accounts of `Issue` and `Redeem`: user, index, index mint, the user's index
/// token account, the fee account, the token program.
pub open spec fn flow_head_metas(
    accs: Seq<AccountMeta>,
    user: Seq<u8>,
    program_id: Seq<u8>,
    index_mint: Seq<u8>,
    user_index_ata: Seq<u8>,
    fee_ata: Seq<u8>,
) -> bool {
    &&& accs.len() >= 6
    &&& meta_is(accs[0], user, true, false)
    &&& meta_is(accs[1], index_key(program_id, index_mint), false, true)
    &&& meta_is(accs[2], index_mint, false, true)
    &&& meta_is(accs[3], user_index_ata, false, true)
    &&& meta_is(accs[4], fee_ata, false, true)
    &&& meta_is(accs[5], token_program_id(), false, false)
}

fn flow_accounts(
    program_id: &Key,
    user: &Key,
    index_mint: &Key,
    user_index_ata: &Key,
    fee_ata: &Key,
    components: &[(Key, Key)],
) -> (r: Option<Vec<AccountMeta>>)
    ensures
        r is None <==> index_address_of(program_id@, index_mint@) is None || !pair_vaults_derivable(
            program_id@,
            index_mint@,
            components@,
        ),
        r matches Some(accs) ==> flow_head_metas(
            accs@,
            user@,
            program_id@,
            index_mint@,
            user_index_ata@,
            fee_ata@,
        ) && pair_metas(accs@, 6, program_id@, index_mint@, components@),
{
    let index = match index_address(program_id, index_mint) {
        Some(k) => k,
        None => {
            return None;
        },
    };
    let mut accounts: Vec<AccountMeta> = Vec::new();
    accounts.push(signer_ro(*user));
    accounts.push(rw(index));
    accounts.push(rw(*index_mint));
    accounts.push(rw(*user_index_ata));
    accounts.push(rw(*fee_ata));
    accounts.push(ro(token_program_key()));
    if push_pairs(&mut accounts, program_id, index_mint, components) {
        assert(accounts@[0] == accounts@.subrange(0, 6)[0]);
        assert(accounts@[1] == accounts@.subrange(0, 6)[1]);
        assert(accounts@[2] == accounts@.subrange(0, 6)[2]);
        assert(accounts@[3] == accounts@.subrange(0, 6)[3]);
        assert(accounts@[4] == accounts@.subrange(0, 6)[4]);
        assert(accounts@[5] == accounts@.subrange(0, 6)[5]);
        Some(accounts)
    } else {
        None
    }
}

/// Builds `Issue`. `components` is `(component mint, the caller's token account for it)`, in
/// table order; each adds the vault and then that account.
pub fn issue(
    program_id: &Key,
    user: &Key,
    index_mint: &Key,
    user_index_ata: &Key,
    fee_ata: &Key,
    components: &[(Key, Key)],
    amount: u64,
    max_in: Vec<u64>,
) -> (r: Option<Instruction>)
    ensures
        r is None <==> index_address_of(program_id@, index_mint@) is None || !pair_vaults_derivable(
            program_id@,
            index_mint@,
            components@,
        ),
        r matches Some(ix) ==> {
            &&& ix.program_id@ == program_id@
            &&& flow_head_metas(ix.accounts@, user@, program_id@, index_mint@, user_index_ata@, fee_ata@)
            &&& pair_metas(ix.accounts@, 6, program_id@, index_mint@, components@)
            &&& ix.data == (FlockInstruction::Issue { amount, max_in })
        },
{
    match flow_accounts(program_id, user, index_mint, user_index_ata, fee_ata, components) {
        Some(accounts) => Some(
            Instruction {
                program_id: *program_id,
                accounts,
                data: FlockInstruction::Issue { amount, max_in },
            },
        ),
        None => None,
    }
}

/// Builds `Redeem`, with the same accounts as `Issue`.
pub fn redeem(
    program_id: &Key,
    user: &Key,
    index_mint: &Key,
    user_index_ata: &Key,
    fee_ata: &Key,
    components: &[(Key, Key)],
    amount: u64,
    min_out: Vec<u64>,
) -> (r: Option<Instruction>)
    ensures
        r is None <==> index_address_of(program_id@, index_mint@) is None || !pair_vaults_derivable(
            program_id@,
            index_mint@,
            components@,
        ),
        r matches Some(ix) ==> {
            &&& ix.program_id@ == program_id@
            &&& flow_head_metas(ix.accounts@, user@, program_id@, index_mint@, user_index_ata@, fee_ata@)
            &&& pair_metas(ix.accounts@, 6, program_id@, index_mint@, components@)
            &&& ix.data == (FlockInstruction::Redeem { amount, min_out })
        },
{
    match flow_accounts(program_id, user, index_mint, user_index_ata, fee_ata, components) {
        Some(accounts) => Some(
            Instruction {
                program_id: *program_id,
                accounts,
                data: FlockInstruction::Redeem { amount, min_out },
            },
        ),
        None => None,
    }
}

/// Builds `AccrueFees`: index, index mint, fee account, token program, then each vault,
/// read-only. With no mints the vaults are left out, and the handler scales the units instead
/// of re-deriving them.
pub fn accrue_fees(program_id: &Key, index_mint: &Key, fee_ata: &Key, component_mints: &[Key]) -> (r:
    Option<Instruction>)
    ensures
        r is None <==> index_address_of(program_id@, index_mint@) is None || !vaults_derivable(
            program_id@,
            index_mint@,
            component_mints@,
        ),
        r matches Some(ix) ==> {
            &&& ix.program_id@ == program_id@
            &&& meta_is(ix.accounts@[0], index_key(program_id@, index_mint@), false, true)
            &&& meta_is(ix.accounts@[1], index_mint@, false, true)
            &&& meta_is(ix.accounts@[2], fee_ata@, false, true)
            &&& meta_is(ix.accounts@[3], token_program_id(), false, false)
            &&& vault_metas(ix.accounts@, 4, program_id@, index_mint@, component_mints@, false)
            &&& ix.data == FlockInstruction::AccrueFees
        },
{
    let index = match index_address(program_id, index_mint) {
        Some(k) => k,
        None => {
            return None;
        },
    };
    let mut accounts: Vec<AccountMeta> = Vec::new();
    accounts.push(rw(index));
    accounts.push(rw(*index_mint));
    accounts.push(rw(*fee_ata));
    accounts.push(ro(token_program_key()));
    if push_vaults(&mut accounts, program_id, index_mint, component_mints, false) {
        assert(accounts@[0] == accounts@.subrange(0, 4)[0]);
        assert(accounts@[1] == accounts@.subrange(0, 4)[1]);
        assert(accounts@[2] == accounts@.subrange(0, 4)[2]);
        assert(accounts@[3] == accounts@.subrange(0, 4)[3]);
        Some(
            Instruction { program_id: *program_id, accounts, data: FlockInstruction::AccrueFees },
        )
    } else {
        None
    }
}

/// The accounts of `ProposeRebalance` and `EndRebalance`: the signer, index, index mint, then
/// each vault, read-only.
fn auction_accounts(
    signer: &Key,
    program_id: &Key,
    index_mint: &Key,
    component_mints: &[Key],
) -> (r: Option<Vec<AccountMeta>>)
    ensures
        r is None <==> index_address_of(program_id@, index_mint@) is None || !vaults_derivable(
            program_id@,
            index_mint@,
            component_mints@,
        ),
        r matches Some(accs) ==> {
            &&& meta_is(accs@[0], signer@, true, false)
            &&& meta_is(accs@[1], index_key(program_id@, index_mint@), false, true)
            &&& meta_is(accs@[2], index_mint@, false, false)
            &&& vault_metas(accs@, 3, program_id@, index_mint@, component_mints@, false)
        },
{
    let index = match index_address(program_id, index_mint) {
        Some(k) => k,
        None => {
            return None;
        },
    };
    let mut accounts: Vec<AccountMeta> = Vec::new();
    accounts.push(signer_ro(*signer));
    accounts.push(rw(index));
    accounts.push(ro(*index_mint));
    if push_vaults(&mut accounts, program_id, index_mint, component_mints, false) {
        assert(accounts@[0] == accounts@.subrange(0, 3)[0]);
        assert(accounts@[1] == accounts@.subrange(0, 3)[1]);
        assert(accounts@[2] == accounts@.subrange(0, 3)[2]);
        Some(accounts)
    } else {
        None
    }
}

/// Builds `ProposeRebalance`: manager, index, index mint, then each vault, read-only.
pub fn propose_rebalance(
    program_id: &Key,
    manager: &Key,
    index_mint: &Key,
    component_mints: &[Key],
    target_units: Vec<u64>,
    ref_prices_e9: Vec<u64>,
    args: AuctionArgs,
) -> (r: Option<Instruction>)
    ensures
        r is None <==> index_address_of(program_id@, index_mint@) is None || !vaults_derivable(
            program_id@,
            index_mint@,
            component_mints@,
        ),
        r matches Some(ix) ==> {
            &&& ix.program_id@ == program_id@
            &&& meta_is(ix.accounts@[0], manager@, true, false)
            &&& meta_is(ix.accounts@[1], index_key(program_id@, index_mint@), false, true)
            &&& meta_is(ix.accounts@[2], index_mint@, false, false)
            &&& vault_metas(ix.accounts@, 3, program_id@, index_mint@, component_mints@, false)
            &&& ix.data == (FlockInstruction::ProposeRebalance {
                target_units,
                ref_prices_e9,
                duration: args.duration,
                start_premium_bps: args.start_premium_bps,
                end_premium_bps: args.end_premium_bps,
                max_nav_loss_bps: args.max_nav_loss_bps,
            })
        },
{
    match auction_accounts(manager, program_id, index_mint, component_mints) {
        Some(accounts) => Some(
            Instruction {
                program_id: *program_id,
                accounts,
                data: FlockInstruction::ProposeRebalance {
                    target_units,
                    ref_prices_e9,
                    duration: args.duration,
                    start_premium_bps: args.start_premium_bps,
                    end_premium_bps: args.end_premium_bps,
                    max_nav_loss_bps: args.max_nav_loss_bps,
                },
            },
        ),
        None => None,
    }
}

/// Builds `Bid`: bidder, index, index mint, the bidder's receiving and paying accounts, the
/// token program, then each vault, writable.
pub fn bid(
    program_id: &Key,
    bidder: &Key,
    index_mint: &Key,
    component_mints: &[Key],
    bidder_receive: &Key,
    bidder_pay: &Key,
    sell_component: u8,
    buy_component: u8,
    sell_amount: u64,
    max_buy_amount: u64,
) -> (r: Option<Instruction>)
    ensures
        r is None <==> index_address_of(program_id@, index_mint@) is None || !vaults_derivable(
            program_id@,
            index_mint@,
            component_mints@,
        ),
        r matches Some(ix) ==> {
            &&& ix.program_id@ == program_id@
            &&& meta_is(ix.accounts@[0], bidder@, true, false)
            &&& meta_is(ix.accounts@[1], index_key(program_id@, index_mint@), false, true)
            &&& meta_is(ix.accounts@[2], index_mint@, false, false)
            &&& meta_is(ix.accounts@[3], bidder_receive@, false, true)
            &&& meta_is(ix.accounts@[4], bidder_pay@, false, true)
            &&& meta_is(ix.accounts@[5], token_program_id(), false, false)
            &&& vault_metas(ix.accounts@, 6, program_id@, index_mint@, component_mints@, true)
            &&& ix.data == (FlockInstruction::Bid {
                sell_component,
                buy_component,
                sell_amount,
                max_buy_amount,
            })
        },
{
    let index = match index_address(program_id, index_mint) {
        Some(k) => k,
        None => {
            return None;
        },
    };
    let mut accounts: Vec<AccountMeta> = Vec::new();
    accounts.push(signer_ro(*bidder));
    accounts.push(rw(index));
    accounts.push(ro(*index_mint));
    accounts.push(rw(*bidder_receive));
    accounts.push(rw(*bidder_pay));
    accounts.push(ro(token_program_key()));
    if push_vaults(&mut accounts, program_id, index_mint, component_mints, true) {
        assert(accounts@[0] == accounts@.subrange(0, 6)[0]);
        assert(accounts@[1] == accounts@.subrange(0, 6)[1]);
        assert(accounts@[2] == accounts@.subrange(0, 6)[2]);
        assert(accounts@[3] == accounts@.subrange(0, 6)[3]);
        assert(accounts@[4] == accounts@.subrange(0, 6)[4]);
        assert(accounts@[5] == accounts@.subrange(0, 6)[5]);
        Some(
            Instruction {
                program_id: *program_id,
                accounts,
                data: FlockInstruction::Bid { sell_component, buy_component, sell_amount, max_buy_amount },
            },
        )
    } else {
        None
    }
}

/// Builds `EndRebalance`: caller, index, index mint, then each vault, read-only.
pub fn end_rebalance(program_id: &Key, caller: &Key, index_mint: &Key, component_mints: &[Key]) -> (r:
    Option<Instruction>)
    ensures
        r is None <==> index_address_of(program_id@, index_mint@) is None || !vaults_derivable(
            program_id@,
            index_mint@,
            component_mints@,
        ),
        r matches Some(ix) ==> {
            &&& ix.program_id@ == program_id@
            &&& meta_is(ix.accounts@[0], caller@, true, false)
            &&& meta_is(ix.accounts@[1], index_key(program_id@, index_mint@), false, true)
            &&& meta_is(ix.accounts@[2], index_mint@, false, false)
            &&& vault_metas(ix.accounts@, 3, program_id@, index_mint@, component_mints@, false)
            &&& ix.data == FlockInstruction::EndRebalance
        },
{
    match auction_accounts(caller, program_id, index_mint, component_mints) {
        Some(accounts) => Some(
            Instruction { program_id: *program_id, accounts, data: FlockInstruction::EndRebalance },
        ),
        None => None,
    }
}

/// Builds `SetParams`: governor, index, index mint, the fee recipient's index token account, the
/// token program.
pub fn set_params(
    program_id: &Key,
    governor: &Key,
    index_mint: &Key,
    fee_ata: &Key,
    streaming_fee_bps: u16,
    issue_fee_bps: u16,
    redeem_fee_bps: u16,
    max_premium_bps: u16,
    rebalance_delay: u32,
) -> (r: Option<Instruction>)
    ensures
        r is None <==> index_address_of(program_id@, index_mint@) is None,
        r matches Some(ix) ==> {
            &&& ix.program_id@ == program_id@
            &&& ix.accounts@.len() == 5
            &&& meta_is(ix.accounts@[0], governor@, true, false)
            &&& meta_is(ix.accounts@[1], index_key(program_id@, index_mint@), false, true)
            &&& meta_is(ix.accounts@[2], index_mint@, false, true)
            &&& meta_is(ix.accounts@[3], fee_ata@, false, true)
            &&& meta_is(ix.accounts@[4], token_program_id(), false, false)
            &&& ix.data == (FlockInstruction::SetParams {
                streaming_fee_bps,
                issue_fee_bps,
                redeem_fee_bps,
                max_premium_bps,
                rebalance_delay,
            })
        },
{
    let index = match index_address(program_id, index_mint) {
        Some(k) => k,
        None => {
            return None;
        },
    };
    let mut accounts: Vec<AccountMeta> = Vec::new();
    accounts.push(signer_ro(*governor));
    accounts.push(rw(index));
    accounts.push(rw(*index_mint));
    accounts.push(rw(*fee_ata));
    accounts.push(ro(token_program_key()));
    Some(
        Instruction {
            program_id: *program_id,
            accounts,
            data: FlockInstruction::SetParams {
                streaming_fee_bps,
                issue_fee_bps,
                redeem_fee_bps,
                max_premium_bps,
                rebalance_delay,
            },
        },
    )
}

/// Builds `SetAuthority`: governor, index, index mint.
pub fn set_authority(
    program_id: &Key,
    governor: &Key,
    index_mint: &Key,
    role: u8,
    new_authority: &Key,
) -> (r: Option<Instruction>)
    ensures
        r is None <==> index_address_of(program_id@, index_mint@) is None,
        r matches Some(ix) ==> {
            &&& ix.program_id@ == program_id@
            &&& signed_index_metas(ix.accounts@, governor@, program_id@, index_mint@)
            &&& ix.data == (FlockInstruction::SetAuthority { role, new_authority: *new_authority })
        },
{
    match signed_index_accounts(governor, program_id, index_mint) {
        Some(accounts) => Some(
            Instruction {
                program_id: *program_id,
                accounts,
                data: FlockInstruction::SetAuthority { role, new_authority: *new_authority },
            },
        ),
        None => None,
    }
}

/// Builds `SetPaused`: caller, index, index mint.
pub fn set_paused(program_id: &Key, caller: &Key, index_mint: &Key, paused: bool) -> (r: Option<
    Instruction,
>)
    ensures
        r is None <==> index_address_of(program_id@, index_mint@) is None,
        r matches Some(ix) ==> {
            &&& ix.program_id@ == program_id@
            &&& signed_index_metas(ix.accounts@, caller@, program_id@, index_mint@)
            &&& ix.data == (FlockInstruction::SetPaused { paused })
        },
{
    match signed_index_accounts(caller, program_id, index_mint) {
        Some(accounts) => Some(
            Instruction {
                program_id: *program_id,
                accounts,
                data: FlockInstruction::SetPaused { paused },
            },
        ),
        None => None,
    }
}

} // verus!
