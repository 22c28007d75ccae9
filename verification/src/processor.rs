//! Instruction handling: every decision each instruction makes, from the accounts it is shown.
//!
//! The invariant every handler preserves:
//!
//! ```text
//! for every component i:  vault_balance[i] >= units[i] * index_supply / 1e9
//! ```
//!
//! It is never asserted with an if-statement. It holds because `units` is derived from the vault
//! balance after every state change, and because deliveries round up while payouts round down.
//!
//! A handler that moves tokens runs in steps. Each step is a function here that reads the
//! accounts as they stand, decides, and returns the record to store and the token movements to
//! make; the runtime makes them and shows the accounts again to the next step.

use vstd::prelude::*;

use crate::error::{FlockError, ProgramFault};
use crate::instruction::{ROLE_FEE_RECIPIENT, ROLE_GOVERNOR, ROLE_MANAGER};
use crate::guards::{
    flock, is_token_account, is_token_account_of_mint, mint_readable, read_mint,
    require_key, require_signer, require_system_program, require_token_account,
    require_token_account_of_mint, require_token_program, system_program_id, token_program_id,
    unpacked_mint, unpacked_token_account, AccountView,
};
use crate::math::{
    amount_from_value_ceil, backed, lemma_derived_units_backed, mul_div_ceil, mul_div_floor, pow10,
    premium_at, spec_units_from_balance,
    spec_value_e9, streaming_fee_tokens, to_u64, units_from_balance, units_in, units_out,
    value_e9, BPS, UNIT_SCALE,
};
use crate::layout::push_bytes;
use crate::state::{
    count_fits, decode_index, encode_index, lemma_index_ok_extends, derived_address, index_ok, index_pda, index_seeds, record_of,
    lemma_record_of, tagged, vault_pda, vault_seeds, Component, Index, Key, Rebalance,
    INDEX_LEN, MAX_COMPONENTS, MAX_MINT_REDEEM_FEE_BPS, MAX_PREMIUM_CEILING_BPS,
    MAX_STREAMING_FEE_BPS, MIN_REBALANCE_DELAY, STATE_BOOTSTRAPPING,
};

verus! {

// ---------------------------------------------------------------------------------------------
// shared checks
// ---------------------------------------------------------------------------------------------

/// The index address derived for `index_mint`, when one exists.
pub open spec fn index_address(program_id: Seq<u8>, index_mint: Seq<u8>) -> Option<(Seq<u8>, u8)> {
    derived_address(index_seeds(index_mint), program_id)
}

/// The index account must sit at the address derived from its mint.
pub open spec fn index_pda_failure(
    program_id: Seq<u8>,
    index_info: AccountView,
    index_mint: Seq<u8>,
) -> Option<ProgramFault> {
    match index_address(program_id, index_mint) {
        None => Some(ProgramFault::InvalidSeeds),
        Some((k, _)) => if index_info.key@ != k {
            Some(flock(FlockError::SeedsMismatch))
        } else {
            None
        },
    }
}

fn check_index_pda(program_id: &Key, index_info: &AccountView, index_mint: &Key) -> (r: Result<
    u8,
    ProgramFault,
>)
    ensures
        r is Ok <==> index_pda_failure(program_id@, *index_info, index_mint@) is None,
        r matches Ok(b) ==> index_address(program_id@, index_mint@) == Some((index_info.key@, b)),
        r matches Err(e) ==> index_pda_failure(program_id@, *index_info, index_mint@) == Some(e),
{
    match index_pda(program_id, index_mint) {
        None => Err(ProgramFault::InvalidSeeds),
        Some((expected, bump)) => {
            require_key(index_info, &expected)?;
            Ok(bump)
        },
    }
}

/// Fee parameters inside the hard caps, and a rebalance delay at or above the floor.
pub open spec fn fees_failure(streaming: u16, issue: u16, redeem: u16, premium: u16, delay: u32) -> Option<
    ProgramFault,
> {
    if streaming > MAX_STREAMING_FEE_BPS || issue > MAX_MINT_REDEEM_FEE_BPS || redeem
        > MAX_MINT_REDEEM_FEE_BPS || premium > MAX_PREMIUM_CEILING_BPS {
        Some(flock(FlockError::FeeTooHigh))
    } else if delay < MIN_REBALANCE_DELAY {
        Some(flock(FlockError::TimelockNotMet))
    } else {
        None
    }
}

/// Refuse a fee above its cap (`FeeTooHigh`), then a delay below the floor (`TimelockNotMet`).
pub fn check_fees(streaming: u16, issue: u16, redeem: u16, premium: u16, delay: u32) -> (r: Result<
    (),
    ProgramFault,
>)
    ensures
        r is Ok <==> fees_failure(streaming, issue, redeem, premium, delay) is None,
        r matches Err(e) ==> fees_failure(streaming, issue, redeem, premium, delay) == Some(e),
{
    if streaming > MAX_STREAMING_FEE_BPS || issue > MAX_MINT_REDEEM_FEE_BPS || redeem
        > MAX_MINT_REDEEM_FEE_BPS || premium > MAX_PREMIUM_CEILING_BPS {
        return Err(ProgramFault::Flock(FlockError::FeeTooHigh));
    }
    if delay < MIN_REBALANCE_DELAY {
        return Err(ProgramFault::Flock(FlockError::TimelockNotMet));
    }
    Ok(())
}

/// Why an account cannot be read as this program's index record, if it cannot.
pub open spec fn index_ref_failure(info: AccountView, program_id: Seq<u8>) -> Option<ProgramFault> {
    if info.owner@ != program_id {
        Some(flock(FlockError::InvalidAccountOwner))
    } else if info.data@.len() < INDEX_LEN {
        Some(ProgramFault::AccountDataTooSmall)
    } else if !tagged(info.data@) {
        Some(flock(FlockError::InvalidAccountOwner))
    } else {
        None
    }
}

/// The index record an account holds: owned by this program, long enough, and tagged.
pub fn index_ref(info: &AccountView, program_id: &Key) -> (r: Result<Index, ProgramFault>)
    ensures
        r is Ok <==> index_ref_failure(*info, program_id@) is None,
        r matches Ok(idx) ==> idx == record_of(info.data@) && index_ok(info.data@, idx),
        r matches Err(e) ==> index_ref_failure(*info, program_id@) == Some(e),
{
    if !info.owner.same(program_id) {
        return Err(ProgramFault::Flock(FlockError::InvalidAccountOwner));
    }
    let idx = decode_index(info.data.as_slice())?;
    proof {
        lemma_record_of(info.data@, idx);
    }
    Ok(idx)
}

/// `new` charges what `old` charges: the same fee schedule, premium ceiling and notice period.
pub open spec fn same_schedule(old: Index, new: Index) -> bool {
    &&& new.streaming_fee_bps == old.streaming_fee_bps
    &&& new.issue_fee_bps == old.issue_fee_bps
    &&& new.redeem_fee_bps == old.redeem_fee_bps
    &&& new.max_premium_bps == old.max_premium_bps
    &&& new.rebalance_delay == old.rebalance_delay
}

/// `new` is the account `old` with the record `idx` written over its first `INDEX_LEN` bytes and
/// everything else as it was.
pub open spec fn record_written(old: AccountView, new: AccountView, idx: Index) -> bool {
    &&& new.key == old.key
    &&& new.owner == old.owner
    &&& new.is_signer == old.is_signer
    &&& new.data@.len() == old.data@.len()
    &&& index_ok(new.data@, idx)
    &&& new.data@.subrange(INDEX_LEN as int, new.data@.len() as int) == old.data@.subrange(
        INDEX_LEN as int,
        old.data@.len() as int,
    )
}

/// Write `idx` over the first `INDEX_LEN` bytes of `info`, keeping the rest.
fn write_record(info: &mut AccountView, idx: &Index)
    requires
        old(info).data@.len() >= INDEX_LEN,
    ensures
        record_written(*old(info), *final(info), *idx),
        record_of(final(info).data@) == *idx,
{
    let ghost before = info.data@;
    let mut data = encode_index(idx);
    let ghost image = data@;
    let len = info.data.len();
    let tail = vstd::slice::slice_subrange(info.data.as_slice(), INDEX_LEN, len);
    push_bytes(&mut data, tail);
    proof {
        lemma_index_ok_extends(data@, image, *idx);
        assert forall|k: int| 0 <= k < tail@.len() implies data@.subrange(
            INDEX_LEN as int,
            data@.len() as int,
        )[k] == before.subrange(INDEX_LEN as int, before.len() as int)[k] by {
            assert(data@[INDEX_LEN + k] == tail@[k]);
        }
        assert(data@.subrange(INDEX_LEN as int, data@.len() as int) =~= before.subrange(
            INDEX_LEN as int,
            before.len() as int,
        ));
        lemma_record_of(data@, *idx);
    }
    info.data = data;
}

/// Write the record into the index account, which must be this program's, long enough, and
/// already hold a record; the bytes past the record are kept. A refused account is left as it was.
pub fn index_mut(info: &mut AccountView, program_id: &Key, idx: &Index) -> (r: Result<
    (),
    ProgramFault,
>)
    ensures
        r is Ok <==> index_ref_failure(*old(info), program_id@) is None,
        r matches Err(e) ==> index_ref_failure(*old(info), program_id@) == Some(e) && *final(info)
            == *old(info),
        r is Ok ==> record_written(*old(info), *final(info), *idx) && record_of(final(info).data@)
            == *idx,
{
    index_ref(info, program_id)?;
    write_record(info, idx);
    Ok(())
}

/// Write the first record into a freshly created index account, which must only be long enough;
/// the tag it carries is the record's own. A short account is left as it was.
pub fn index_mut_uninitialized(info: &mut AccountView, idx: &Index) -> (r: Result<(), ProgramFault>)
    ensures
        r is Ok <==> old(info).data@.len() >= INDEX_LEN,
        r matches Err(e) ==> e == ProgramFault::AccountDataTooSmall && *final(info) == *old(info),
        r is Ok ==> record_written(*old(info), *final(info), *idx) && record_of(final(info).data@)
            == *idx,
{
    if info.data.len() < INDEX_LEN {
        return Err(ProgramFault::AccountDataTooSmall);
    }
    write_record(info, idx);
    Ok(())
}

/// What checking vault `i` against its address, mint and owner yields: its balance, or why not.
pub open spec fn vault_check(
    program_id: Seq<u8>,
    idx: Index,
    index_key: Seq<u8>,
    index_mint: Seq<u8>,
    i: int,
    vault: AccountView,
) -> Result<u64, ProgramFault> {
    let mint = idx.components[i].mint@;
    match derived_address(vault_seeds(index_mint, mint), program_id) {
        None => Err(ProgramFault::InvalidSeeds),
        Some((k, _)) => if vault.key@ != k {
            Err(flock(FlockError::SeedsMismatch))
        } else if !is_token_account(vault, mint, index_key) {
            Err(flock(FlockError::InvalidTokenAccount))
        } else {
            Ok(unpacked_token_account(vault.data@).unwrap().2)
        },
    }
}

// ---------------------------------------------------------------------------------------------
// walks: a check applied to items 0..n in order, stopping at the first that fails
// ---------------------------------------------------------------------------------------------

/// Every item passes.
pub open spec fn walk_ok(n: int, check: spec_fn(int) -> Result<u64, ProgramFault>) -> bool {
    forall|i: int| 0 <= i < n ==> (#[trigger] check(i)) is Ok
}

/// `e` is what the first failing item fails with.
pub open spec fn walk_failure_is(
    n: int,
    check: spec_fn(int) -> Result<u64, ProgramFault>,
    e: ProgramFault,
) -> bool {
    exists|i: int|
        0 <= i < n && #[trigger] check(i) == Err::<u64, ProgramFault>(e) && forall|j: int|
            0 <= j < i ==> (#[trigger] check(j)) is Ok
}

/// The values every item yields, in order.
pub open spec fn walk_values(n: int, check: spec_fn(int) -> Result<u64, ProgramFault>) -> Seq<u64> {
    Seq::new(n as nat, |i: int| check(i).unwrap())
}

/// The walk's outcome: every value, or the first failure.
pub open spec fn walk_outcome(n: int, check: spec_fn(int) -> Result<u64, ProgramFault>) -> Result<
    Seq<u64>,
    ProgramFault,
> {
    if walk_ok(n, check) {
        Ok(walk_values(n, check))
    } else {
        Err(choose|e: ProgramFault| walk_failure_is(n, check, e))
    }
}

/// A walk that stopped at item `i` with `e`, every earlier item having passed, has outcome `e`.
proof fn lemma_walk_stops(
    n: int,
    check: spec_fn(int) -> Result<u64, ProgramFault>,
    i: int,
    e: ProgramFault,
)
    requires
        0 <= i < n,
        check(i) == Err::<u64, ProgramFault>(e),
        forall|j: int| 0 <= j < i ==> (#[trigger] check(j)) is Ok,
    ensures
        walk_outcome(n, check) == Err::<Seq<u64>, ProgramFault>(e),
{
    assert(walk_failure_is(n, check, e));
    let e2 = choose|e: ProgramFault| walk_failure_is(n, check, e);
    let i2 = choose|i2: int|
        0 <= i2 < n && #[trigger] check(i2) == Err::<u64, ProgramFault>(e2) && forall|j: int|
            0 <= j < i2 ==> (#[trigger] check(j)) is Ok;
    if i2 < i {
        assert(check(i2) is Ok);
    } else if i < i2 {
        assert(check(i) is Ok);
    }
}

/// A walk in which every item passed has outcome the values it yielded.
proof fn lemma_walk_completes(
    n: int,
    check: spec_fn(int) -> Result<u64, ProgramFault>,
    values: Seq<u64>,
)
    requires
        0 <= n,
        values.len() == n,
        forall|j: int| 0 <= j < n ==> #[trigger] check(j) == Ok::<u64, ProgramFault>(values[j]),
    ensures
        walk_ok(n, check),
        walk_outcome(n, check) == Ok::<Seq<u64>, ProgramFault>(values),
{
    assert forall|j: int| 0 <= j < n implies (#[trigger] check(j)) is Ok by {
        assert(check(j) == Ok::<u64, ProgramFault>(values[j]));
    }
    assert(walk_values(n, check) =~= values);
}

/// The check applied to vault `i`, which sits at `accounts[stride * i]`.
pub open spec fn vault_walk(
    program_id: Seq<u8>,
    idx: Index,
    index_key: Seq<u8>,
    index_mint: Seq<u8>,
    accounts: Seq<AccountView>,
    stride: int,
) -> spec_fn(int) -> Result<u64, ProgramFault> {
    |i: int| vault_check(program_id, idx, index_key, index_mint, i, accounts[stride * i])
}

/// The balances of the vaults, or why they are refused: there must be exactly `stride` accounts
/// per component, and the first vault that fails its check decides the error.
pub open spec fn vaults_outcome(
    program_id: Seq<u8>,
    idx: Index,
    index_key: Seq<u8>,
    index_mint: Seq<u8>,
    accounts: Seq<AccountView>,
    stride: int,
) -> Result<Seq<u64>, ProgramFault> {
    if accounts.len() != stride * idx.component_count {
        Err(flock(FlockError::ArityMismatch))
    } else {
        walk_outcome(
            idx.component_count as int,
            vault_walk(program_id, idx, index_key, index_mint, accounts, stride),
        )
    }
}

/// Check every vault against its program address, its mint and its owner, and return the
/// balances in table order. Vault `i` is `accounts[stride * i]`, and there must be exactly
/// `stride` accounts per component.
pub fn verify_vaults(
    program_id: &Key,
    idx: &Index,
    index_key: &Key,
    index_mint: &Key,
    accounts: &[AccountView],
    stride: usize,
) -> (r: Result<Vec<u64>, ProgramFault>)
    requires
        count_fits(*idx),
        1 <= stride <= 2,
    ensures
        match r {
            Ok(b) => vaults_outcome(
                program_id@,
                *idx,
                index_key@,
                index_mint@,
                accounts@,
                stride as int,
            ) == Ok::<Seq<u64>, ProgramFault>(b@),
            Err(e) => vaults_outcome(
                program_id@,
                *idx,
                index_key@,
                index_mint@,
                accounts@,
                stride as int,
            ) == Err::<Seq<u64>, ProgramFault>(e),
        },
{
    let ghost check = vault_walk(
        program_id@,
        *idx,
        index_key@,
        index_mint@,
        accounts@,
        stride as int,
    );
    let n = idx.component_count as usize;
    assert(stride * n <= 32) by (nonlinear_arith)
        requires
            stride <= 2,
            n <= 16,
    ;
    if accounts.len() != stride * n {
        return Err(ProgramFault::Flock(FlockError::ArityMismatch));
    }
    let mut balances: Vec<u64> = Vec::new();
    let mut i: usize = 0;
    while i < n
        invariant
            i <= n,
            n == idx.component_count,
            n <= MAX_COMPONENTS,
            1 <= stride <= 2,
            accounts@.len() == stride * n,
            balances@.len() == i,
            check == vault_walk(
                program_id@,
                *idx,
                index_key@,
                index_mint@,
                accounts@,
                stride as int,
            ),
            forall|j: int| 0 <= j < i ==> #[trigger] check(j) == Ok::<u64, ProgramFault>(balances@[j]),
        decreases n - i,
    {
        let mint = idx.components[i].mint;
        assert(stride * i < stride * n) by (nonlinear_arith)
            requires
                i < n,
                1 <= stride,
        ;
        let vault = &accounts[stride * i];
        assert(check(i as int) == vault_check(
            program_id@,
            *idx,
            index_key@,
            index_mint@,
            i as int,
            *vault,
        ));
        proof {
            assert forall|j: int| 0 <= j < i implies (#[trigger] check(j)) is Ok by {
                assert(check(j) == Ok::<u64, ProgramFault>(balances@[j]));
            }
        }
        let expected = match vault_pda(program_id, index_mint, &mint) {
            Some((k, _)) => k,
            None => {
                proof {
                    lemma_walk_stops(n as int, check, i as int, ProgramFault::InvalidSeeds);
                }
                return Err(ProgramFault::InvalidSeeds);
            },
        };
        match require_key(vault, &expected) {
            Ok(()) => {},
            Err(e) => {
                proof {
                    lemma_walk_stops(n as int, check, i as int, e);
                }
                return Err(e);
            },
        }
        match require_token_account(vault, &mint, index_key) {
            Ok(acct) => {
                balances.push(acct.amount);
            },
            Err(e) => {
                proof {
                    lemma_walk_stops(n as int, check, i as int, e);
                }
                return Err(e);
            },
        }
        i = i + 1;
    }
    proof {
        lemma_walk_completes(n as int, check, balances@);
    }
    Ok(balances)
}

/// `new` is `old` with nothing changed but the components.
pub open spec fn same_but_components(old: Index, new: Index) -> bool {
    new == Index { components: new.components, ..old }
}

/// `new` is `old` with the units of every component in use re-derived from its balance.
pub open spec fn units_synced(old: Index, new: Index, balances: Seq<u64>, supply: u64) -> bool {
    &&& same_but_components(old, new)
    &&& forall|i: int|
        0 <= i < MAX_COMPONENTS ==> #[trigger] new.components[i] == if i < old.component_count {
            Component {
                units: spec_units_from_balance(balances[i] as int, supply as int) as u64,
                ..old.components[i]
            }
        } else {
            old.components[i]
        }
}

/// Units can be re-derived: every derived value fits.
pub open spec fn units_fit(old: Index, balances: Seq<u64>, supply: u64) -> bool {
    forall|i: int|
        0 <= i < old.component_count ==> spec_units_from_balance(
            #[trigger] balances[i] as int,
            supply as int,
        ) <= u64::MAX
}

/// Refresh the cached units from what the vaults actually hold. With no supply outstanding there
/// is nothing to price against and the record is left as it is.
pub fn sync_units(idx: &Index, balances: &Vec<u64>, supply: u64) -> (r: Result<Index, ProgramFault>)
    requires
        count_fits(*idx),
        balances@.len() == idx.component_count,
    ensures
        r is Ok <==> (supply == 0 || units_fit(*idx, balances@, supply)),
        r matches Ok(new) ==> (if supply == 0 {
            new == *idx
        } else {
            units_synced(*idx, new, balances@, supply)
        }),
        r matches Err(e) ==> e == flock(FlockError::MathOverflow),
{
    if supply == 0 {
        return Ok(*idx);
    }
    let mut new = *idx;
    let n = idx.component_count as usize;
    let mut i: usize = 0;
    while i < n
        invariant
            i <= n,
            n == idx.component_count,
            n <= MAX_COMPONENTS,
            supply != 0,
            balances@.len() == n,
            same_but_components(*idx, new),
            forall|j: int|
                0 <= j < i ==> spec_units_from_balance(
                    #[trigger] balances@[j] as int,
                    supply as int,
                ) <= u64::MAX,
            forall|j: int|
                0 <= j < MAX_COMPONENTS ==> #[trigger] new.components[j] == if j < i {
                    Component {
                        units: spec_units_from_balance(balances@[j] as int, supply as int) as u64,
                        ..idx.components[j]
                    }
                } else {
                    idx.components[j]
                },
        decreases n - i,
    {
        let units = match units_from_balance(balances[i], supply) {
            Ok(u) => u,
            Err(_) => return Err(ProgramFault::Flock(FlockError::MathOverflow)),
        };
        new.components[i].units = units;
        i = i + 1;
    }
    Ok(new)
}

/// The fund's value in USD-e9 at its reference prices, over its first `k` components.
pub open spec fn nav_sum(idx: Index, balances: Seq<u64>, k: int) -> int
    decreases k,
{
    if k <= 0 {
        0
    } else {
        nav_sum(idx, balances, k - 1) + spec_value_e9(
            balances[k - 1] as int,
            idx.components[k - 1].decimals as nat,
            idx.components[k - 1].ref_price_e9 as int,
        )
    }
}

/// Every component's decimals give a scale that fits.
pub open spec fn scales_fit(idx: Index) -> bool {
    forall|i: int|
        0 <= i < idx.component_count ==> pow10(#[trigger] idx.components[i].decimals as nat)
            <= u128::MAX
}

proof fn lemma_nav_sum_monotone(idx: Index, balances: Seq<u64>, j: int, k: int)
    requires
        0 <= j <= k,
    ensures
        nav_sum(idx, balances, j) <= nav_sum(idx, balances, k),
    decreases k,
{
    if k > j {
        lemma_nav_sum_monotone(idx, balances, j, k - 1);
        vstd::arithmetic::mul::lemma_mul_nonnegative(
            balances[k - 1] as int,
            idx.components[k - 1].ref_price_e9 as int,
        );
        crate::math::lemma_pow10_monotone(0, idx.components[k - 1].decimals as nat);
        vstd::arithmetic::div_mod::lemma_div_pos_is_pos(
            balances[k - 1] as int * idx.components[k - 1].ref_price_e9 as int,
            pow10(idx.components[k - 1].decimals as nat),
        );
    }
}

/// Fund NAV in USD micro-dollars: the value of every component at its reference price.
pub fn nav_e6(idx: &Index, balances: &Vec<u64>) -> (r: Result<u64, ProgramFault>)
    requires
        count_fits(*idx),
        balances@.len() == idx.component_count,
    ensures
        r is Ok <==> (scales_fit(*idx) && nav_sum(*idx, balances@, idx.component_count as int)
            <= u128::MAX && nav_sum(*idx, balances@, idx.component_count as int) / 1000
            <= u64::MAX),
        r matches Ok(v) ==> v == nav_sum(*idx, balances@, idx.component_count as int) / 1000,
        r matches Err(e) ==> e == flock(FlockError::MathOverflow),
{
    let n = idx.component_count as usize;
    let mut total: u128 = 0;
    let mut i: usize = 0;
    while i < n
        invariant
            i <= n,
            n == idx.component_count,
            n <= MAX_COMPONENTS,
            balances@.len() == n,
            total == nav_sum(*idx, balances@, i as int),
            forall|j: int|
                0 <= j < i ==> pow10(#[trigger] idx.components[j].decimals as nat) <= u128::MAX,
        decreases n - i,
    {
        let c = idx.components[i];
        let v = match value_e9(balances[i], c.decimals, c.ref_price_e9) {
            Ok(v) => v,
            Err(_) => {
                assert(!scales_fit(*idx));
                return Err(ProgramFault::Flock(FlockError::MathOverflow));
            },
        };
        total = match total.checked_add(v) {
            Some(t) => t,
            None => {
                proof {
                    lemma_nav_sum_monotone(*idx, balances@, i + 1, n as int);
                }
                return Err(ProgramFault::Flock(FlockError::MathOverflow));
            },
        };
        i = i + 1;
    }
    match to_u64(total / 1_000) {
        Ok(v) => Ok(v),
        Err(_) => Err(ProgramFault::Flock(FlockError::MathOverflow)),
    }
}


/// The index account's component count fits the table, when the account is long enough to hold
/// a record at all.
pub open spec fn count_byte_fits(data: Seq<u8>) -> bool {
    data.len() >= INDEX_LEN ==> data[161] as usize <= MAX_COMPONENTS
}

/// Whether an account's component count fits the table, as `count_byte_fits` states it.
pub fn index_count_fits(data: &[u8]) -> (r: bool)
    ensures
        r == count_byte_fits(data@),
{
    data.len() < INDEX_LEN || (data[161] as usize) <= MAX_COMPONENTS
}

proof fn lemma_count_fits(info: AccountView, idx: Index)
    requires
        count_byte_fits(info.data@),
        index_ok(info.data@, idx),
    ensures
        count_fits(idx),
{
}

// ---------------------------------------------------------------------------------------------
// the streaming fee
// ---------------------------------------------------------------------------------------------

/// `a - b`, clamped to the range of `i64`.
pub open spec fn saturating_sub_i64(a: i64, b: i64) -> i64 {
    if a - b > i64::MAX {
        i64::MAX
    } else if a - b < i64::MIN {
        i64::MIN
    } else {
        (a - b) as i64
    }
}

fn saturating_sub(a: i64, b: i64) -> (r: i64)
    ensures
        r == saturating_sub_i64(a, b),
{
    let d = a as i128 - b as i128;
    if d > i64::MAX as i128 {
        i64::MAX
    } else if d < i64::MIN as i128 {
        i64::MIN
    } else {
        d as i64
    }
}

/// The supply an index mint account reports.
pub open spec fn supply_of(mint_info: AccountView) -> u64 {
    unpacked_mint(mint_info.data@).unwrap().1
}

/// The streaming fee can be computed for this supply, rate and elapsed time.
pub open spec fn fee_computable(supply: u64, fee_bps: u16, dt: i64) -> bool {
    crate::math::fee_is_free(supply as int, fee_bps as int, dt as int) || (
    crate::math::fee_numerator(fee_bps as int, dt as int) < crate::math::fee_denominator()
        && crate::math::spec_fee_tokens(supply as int, fee_bps as int, dt as int) <= u64::MAX)
}

/// What an accrual at `now` owes the fee recipient, or why it is refused: the index mint must be
/// readable, the fee computable, and, when anything is owed, the fee account must be the
/// recipient's index token account.
pub open spec fn accrual_outcome(
    idx: Index,
    index_mint_info: AccountView,
    fee_ata: AccountView,
    now: i64,
) -> Result<u64, ProgramFault> {
    if !mint_readable(index_mint_info) {
        Err(flock(FlockError::InvalidTokenAccount))
    } else {
        let supply = supply_of(index_mint_info);
        let dt = saturating_sub_i64(now, idx.last_fee_accrual);
        if !fee_computable(supply, idx.streaming_fee_bps, dt) {
            Err(flock(FlockError::MathOverflow))
        } else {
            let owed = crate::math::spec_fee_tokens(
                supply as int,
                idx.streaming_fee_bps as int,
                dt as int,
            ) as u64;
            if owed == 0 {
                Ok(0)
            } else if !is_token_account(fee_ata, index_mint_info.key@, idx.fee_recipient@) {
                Err(flock(FlockError::InvalidTokenAccount))
            } else {
                Ok(owed)
            }
        }
    }
}

/// The record with its fee clock settled at `now`, and the index tokens to mint to the fee
/// recipient for the time since the last accrual.
pub struct FeeAccrual {
    pub index: Index,
    pub owed: u64,
}

/// Settle the streaming fee owed since the last accrual.
///
/// Run at the top of issue and redeem as well as on its own, so a holder can never enter or exit
/// at a composition that still owes the fee recipient time.
pub fn accrue(idx: &Index, index_mint_info: &AccountView, fee_ata: &AccountView, now: i64) -> (r:
    Result<FeeAccrual, ProgramFault>)
    ensures
        r is Ok <==> accrual_outcome(*idx, *index_mint_info, *fee_ata, now) is Ok,
        r matches Ok(a) ==> a.index == (Index { last_fee_accrual: now, ..*idx }) && accrual_outcome(
            *idx,
            *index_mint_info,
            *fee_ata,
            now,
        ) == Ok::<u64, ProgramFault>(a.owed),
        r matches Err(e) ==> accrual_outcome(*idx, *index_mint_info, *fee_ata, now) == Err::<
            u64,
            ProgramFault,
        >(e),
{
    let supply = read_mint(index_mint_info)?.supply;
    let dt = saturating_sub(now, idx.last_fee_accrual);
    let owed = match streaming_fee_tokens(supply, idx.streaming_fee_bps, dt) {
        Ok(o) => o,
        Err(_) => return Err(ProgramFault::Flock(FlockError::MathOverflow)),
    };
    let index = Index { last_fee_accrual: now, ..*idx };
    if owed == 0 {
        return Ok(FeeAccrual { index, owed: 0 });
    }
    require_token_account(fee_ata, &index_mint_info.key, &idx.fee_recipient)?;
    Ok(FeeAccrual { index, owed })
}

/// The record with units re-derived from `balances` at `supply`; the record itself when no
/// supply is outstanding.
pub open spec fn synced_record(idx: Index, balances: Seq<u64>, supply: u64) -> Index {
    if supply == 0 {
        idx
    } else {
        choose|new: Index| units_synced(idx, new, balances, supply)
    }
}

/// Every component in use is backed by its vault: its units, over the supply, claim no more than
/// the vault's balance.
pub open spec fn all_backed(idx: Index, balances: Seq<u64>, supply: u64) -> bool {
    forall|i: int|
        0 <= i < idx.component_count ==> #[trigger] backed(
            idx.components[i].units as int,
            balances[i] as int,
            supply as int,
        )
}

/// The backing invariant. A record whose units were re-derived from the vault balances at a
/// supply is backed by those balances at that supply, whatever the balances were.
pub proof fn lemma_synced_units_backed(idx: Index, new: Index, balances: Seq<u64>, supply: u64)
    requires
        count_fits(idx),
        balances.len() == idx.component_count,
        supply != 0,
        units_fit(idx, balances, supply),
        units_synced(idx, new, balances, supply),
    ensures
        all_backed(new, balances, supply),
{
    assert forall|i: int| 0 <= i < new.component_count implies #[trigger] backed(
        new.components[i].units as int,
        balances[i] as int,
        supply as int,
    ) by {
        let c = new.components[i];
        assert(spec_units_from_balance(balances[i] as int, supply as int) <= u64::MAX);
        assert(c.units == spec_units_from_balance(
            balances[i] as int,
            supply as int,
        ));
        lemma_derived_units_backed(balances[i] as int, supply as int);
    }
}

/// With nothing outstanding, nothing is claimed, so every record is backed.
proof fn lemma_nothing_claimed(idx: Index, balances: Seq<u64>)
    ensures
        all_backed(idx, balances, 0),
{
    assert forall|i: int| 0 <= i < idx.component_count implies #[trigger] backed(
        idx.components[i].units as int,
        balances[i] as int,
        0,
    ) by {
        assert(idx.components[i].units as int * 0 == 0);
    }
}

/// `new` is `old` with the units of every component in use scaled from a supply of `s0` to a
/// supply of `s1`, rounded down: what the fee tokens minted in between take from each token.
pub open spec fn units_scaled(old: Index, new: Index, s0: u64, s1: u64) -> bool {
    &&& same_but_components(old, new)
    &&& forall|i: int|
        0 <= i < MAX_COMPONENTS ==> #[trigger] new.components[i] == if i < old.component_count {
            Component {
                units: (old.components[i].units * s0 / (s1 as int)) as u64,
                ..old.components[i]
            }
        } else {
            old.components[i]
        }
}

/// Scale the units of every component in use from a supply of `s0` to `s1`, rounded down.
fn scale_units(idx: &Index, s0: u64, s1: u64) -> (new: Index)
    requires
        count_fits(*idx),
        0 < s1,
        s0 <= s1,
    ensures
        units_scaled(*idx, new, s0, s1),
{
    let mut new = *idx;
    let n = idx.component_count as usize;
    let mut i: usize = 0;
    while i < n
        invariant
            i <= n,
            n == idx.component_count,
            n <= MAX_COMPONENTS,
            0 < s1,
            s0 <= s1,
            same_but_components(*idx, new),
            forall|j: int|
                0 <= j < MAX_COMPONENTS ==> #[trigger] new.components[j] == if j < i {
                    Component {
                        units: (idx.components[j].units * s0 / (s1 as int)) as u64,
                        ..idx.components[j]
                    }
                } else {
                    idx.components[j]
                },
        decreases n - i,
    {
        let u = idx.components[i].units;
        proof {
            vstd::arithmetic::mul::lemma_mul_upper_bound(u as int, u64::MAX as int, s0 as int, u64::MAX as int);
            assert(u as int * s0 as int <= u as int * s1 as int) by (nonlinear_arith)
                requires
                    s0 <= s1,
            ;
            vstd::arithmetic::div_mod::lemma_div_is_ordered(u as int * s0 as int, u as int * s1 as int, s1 as int);
            vstd::arithmetic::div_mod::lemma_div_multiples_vanish(u as int, s1 as int);
            vstd::arithmetic::mul::lemma_mul_is_commutative(u as int, s1 as int);
            vstd::arithmetic::mul::lemma_mul_is_commutative(u as int, s0 as int);
        }
        let scaled = (u as u128 * s0 as u128) / (s1 as u128);
        new.components[i].units = scaled as u64;
        i = i + 1;
    }
    new
}

/// Scaling keeps the backing. A record backed by `balances` at a supply of `s0` is still backed
/// by the same balances once its units are scaled to the larger supply `s1`.
pub proof fn lemma_scaled_units_stay_backed(
    idx: Index,
    new: Index,
    balances: Seq<u64>,
    s0: u64,
    s1: u64,
)
    requires
        count_fits(idx),
        balances.len() == idx.component_count,
        0 < s1,
        s0 <= s1,
        all_backed(idx, balances, s0),
        units_scaled(idx, new, s0, s1),
    ensures
        all_backed(new, balances, s1),
{
    assert forall|i: int| 0 <= i < new.component_count implies #[trigger] backed(
        new.components[i].units as int,
        balances[i] as int,
        s1 as int,
    ) by {
        let u = idx.components[i].units as int;
        assert(backed(u, balances[i] as int, s0 as int));
        let q = u * s0 / (s1 as int);
        vstd::arithmetic::div_mod::lemma_fundamental_div_mod(u * s0, s1 as int);
        vstd::arithmetic::mul::lemma_mul_nonnegative(u, s0 as int);
        vstd::arithmetic::div_mod::lemma_div_pos_is_pos(u * s0, s1 as int);
        assert(u * s0 <= u * s1) by (nonlinear_arith)
            requires
                s0 <= s1,
                u >= 0,
        ;
        vstd::arithmetic::div_mod::lemma_div_is_ordered(u * s0, u * s1, s1 as int);
        vstd::arithmetic::div_mod::lemma_div_multiples_vanish(u, s1 as int);
        vstd::arithmetic::mul::lemma_mul_is_commutative(u, s1 as int);
        assert(q <= u);
        assert(new.components[i].units == q as u64);
        assert(q * s1 <= u * s0) by (nonlinear_arith)
            requires
                u * s0 == s1 * q + (u * s0) % (s1 as int),
                0 <= (u * s0) % (s1 as int),
        ;
    }
}

/// The outcome of an accrual that also scales the units to the grown supply: as `accrual_outcome`,
/// and refused when the grown supply would not fit.
pub open spec fn scaled_accrual_outcome(
    idx: Index,
    index_mint_info: AccountView,
    fee_ata: AccountView,
    now: i64,
) -> Result<u64, ProgramFault> {
    match accrual_outcome(idx, index_mint_info, fee_ata, now) {
        Ok(owed) => if owed > 0 && supply_of(index_mint_info) + owed > u64::MAX {
            Err(flock(FlockError::MathOverflow))
        } else {
            Ok(owed)
        },
        Err(e) => Err(e),
    }
}

/// `new` is `idx` with its fee clock at `now` and, when `owed` fee tokens are minted, its units
/// scaled from `supply` to `supply + owed`.
pub open spec fn accrued_and_scaled(idx: Index, new: Index, now: i64, supply: u64, owed: u64) -> bool {
    if owed == 0 {
        new == Index { last_fee_accrual: now, ..idx }
    } else {
        units_scaled(Index { last_fee_accrual: now, ..idx }, new, supply, (supply + owed) as u64)
    }
}

/// Settle the streaming fee owed since the last accrual, and scale every component's units to the
/// supply the minted fee grows to, so the record stays backed by the vaults it was backed by.
fn accrue_scaled(idx: &Index, index_mint_info: &AccountView, fee_ata: &AccountView, now: i64) -> (r:
    Result<FeeAccrual, ProgramFault>)
    requires
        count_fits(*idx),
    ensures
        r is Ok <==> scaled_accrual_outcome(*idx, *index_mint_info, *fee_ata, now) is Ok,
        r matches Ok(a) ==> scaled_accrual_outcome(*idx, *index_mint_info, *fee_ata, now) == Ok::<
            u64,
            ProgramFault,
        >(a.owed) && accrued_and_scaled(*idx, a.index, now, supply_of(*index_mint_info), a.owed),
        r matches Err(e) ==> scaled_accrual_outcome(*idx, *index_mint_info, *fee_ata, now) == Err::<
            u64,
            ProgramFault,
        >(e),
{
    let a = accrue(idx, index_mint_info, fee_ata, now)?;
    if a.owed == 0 {
        return Ok(a);
    }
    let supply = read_mint(index_mint_info)?.supply;
    let grown = match supply.checked_add(a.owed) {
        Some(g) => g,
        None => return Err(ProgramFault::Flock(FlockError::MathOverflow)),
    };
    let index = scale_units(&a.index, supply, grown);
    Ok(FeeAccrual { index, owed: a.owed })
}

/// The component table of `idx` with the units of its first `k` components re-derived.
spec fn synced_prefix(idx: Index, balances: Seq<u64>, supply: u64, k: nat) -> [Component; 16]
    decreases k,
{
    if k == 0 {
        idx.components
    } else {
        let i = k - 1;
        vstd::array::spec_array_update(
            synced_prefix(idx, balances, supply, (k - 1) as nat),
            i,
            Component {
                units: spec_units_from_balance(balances[i] as int, supply as int) as u64,
                ..idx.components[i]
            },
        )
    }
}

proof fn lemma_synced_prefix(idx: Index, balances: Seq<u64>, supply: u64, k: nat)
    requires
        k <= MAX_COMPONENTS,
    ensures
        forall|j: int|
            0 <= j < MAX_COMPONENTS ==> #[trigger] synced_prefix(idx, balances, supply, k)[j] == if j
                < k {
                Component {
                    units: spec_units_from_balance(balances[j] as int, supply as int) as u64,
                    ..idx.components[j]
                }
            } else {
                idx.components[j]
            },
    decreases k,
{
    broadcast use vstd::array::group_array_axioms;

    if k > 0 {
        lemma_synced_prefix(idx, balances, supply, (k - 1) as nat);
        let prev = synced_prefix(idx, balances, supply, (k - 1) as nat);
        let i = k - 1;
        let c = Component {
            units: spec_units_from_balance(balances[i] as int, supply as int) as u64,
            ..idx.components[i]
        };
        assert(synced_prefix(idx, balances, supply, k)@ == prev@.update(i, c));
    }
}

/// Units can always be re-derived: some record is `idx` with its units re-derived, so the record
/// `synced_record` picks is one.
proof fn lemma_synced_record_is_synced(idx: Index, balances: Seq<u64>, supply: u64)
    requires
        count_fits(idx),
        supply != 0,
    ensures
        units_synced(idx, synced_record(idx, balances, supply), balances, supply),
{
    lemma_synced_prefix(idx, balances, supply, idx.component_count as nat);
    let witness = Index {
        components: synced_prefix(idx, balances, supply, idx.component_count as nat),
        ..idx
    };
    assert(units_synced(idx, witness, balances, supply));
}

/// Re-deriving units has exactly one result.
proof fn lemma_synced_record(idx: Index, new: Index, balances: Seq<u64>, supply: u64)
    requires
        supply != 0,
        units_synced(idx, new, balances, supply),
    ensures
        synced_record(idx, balances, supply) == new,
{
    let other = synced_record(idx, balances, supply);
    assert(units_synced(idx, other, balances, supply));
    assert forall|i: int| 0 <= i < MAX_COMPONENTS implies other.components[i]
        == new.components[i] by {
        assert(other.components[i] == new.components[i]);
    }
    assert(other.components =~= new.components);
}

/// The outcome of re-deriving units in one step: the record as stored must be readable and
/// `count` components long, the vaults must check out, the index mint must be readable, and
/// every unit value must fit.
pub open spec fn sync_outcome(
    program_id: Seq<u8>,
    idx: Index,
    index_key: Seq<u8>,
    index_mint_info: AccountView,
    accounts: Seq<AccountView>,
    stride: int,
) -> Result<Index, ProgramFault> {
    match vaults_outcome(program_id, idx, index_key, index_mint_info.key@, accounts, stride) {
        Err(e) => Err(e),
        Ok(b) => if !mint_readable(index_mint_info) {
            Err(flock(FlockError::InvalidTokenAccount))
        } else if supply_of(index_mint_info) != 0 && !units_fit(
            idx,
            b,
            supply_of(index_mint_info),
        ) {
            Err(flock(FlockError::MathOverflow))
        } else {
            Ok(synced_record(idx, b, supply_of(index_mint_info)))
        },
    }
}

/// Check the vaults of `idx`, read the supply, and re-derive units.
fn sync_from_accounts(
    program_id: &Key,
    idx: &Index,
    index_key: &Key,
    index_mint_info: &AccountView,
    accounts: &[AccountView],
    stride: usize,
) -> (r: Result<Index, ProgramFault>)
    requires
        count_fits(*idx),
        1 <= stride <= 2,
    ensures
        r == sync_outcome(program_id@, *idx, index_key@, *index_mint_info, accounts@, stride as int),
        r matches Ok(new) ==> same_but_components(*idx, new) && new.components@.len()
            == MAX_COMPONENTS && forall|i: int|
            0 <= i < MAX_COMPONENTS ==> (#[trigger] new.components[i]).mint
                == idx.components[i].mint,
        r matches Ok(new) ==> vaults_outcome(
            program_id@,
            *idx,
            index_key@,
            index_mint_info.key@,
            accounts@,
            stride as int,
        ) matches Ok(b) && all_backed(new, b, supply_of(*index_mint_info)),
{
    let balances = verify_vaults(program_id, idx, index_key, &index_mint_info.key, accounts, stride)?;
    let supply = read_mint(index_mint_info)?.supply;
    let r = sync_units(idx, &balances, supply);
    proof {
        if let Ok(new) = r {
            if supply != 0 {
                lemma_synced_record(*idx, new, balances@, supply);
                lemma_synced_units_backed(*idx, new, balances@, supply);
            } else {
                lemma_nothing_claimed(new, balances@);
            }
        }
    }
    r
}

/// The outcome of reading the record and re-deriving its units from the vaults.
pub open spec fn resync_outcome(
    program_id: Seq<u8>,
    index_info: AccountView,
    index_mint_info: AccountView,
    accounts: Seq<AccountView>,
    stride: int,
) -> Result<Index, ProgramFault> {
    match index_ref_failure(index_info, program_id) {
        Some(f) => Err(f),
        None => sync_outcome(
            program_id,
            record_of(index_info.data@),
            index_info.key@,
            index_mint_info,
            accounts,
            stride,
        ),
    }
}

/// Read the record, check the vaults, and re-derive every component's units from the balances
/// at the mint's current supply. The only place unit values are written outside bootstrapping.
pub fn resync(
    program_id: &Key,
    index_info: &AccountView,
    index_mint_info: &AccountView,
    accounts: &[AccountView],
    stride: usize,
) -> (r: Result<Index, ProgramFault>)
    requires
        count_byte_fits(index_info.data@),
        1 <= stride <= 2,
    ensures
        r matches Ok(a) ==> same_schedule(record_of(index_info.data@), a),
        r == resync_outcome(program_id@, *index_info, *index_mint_info, accounts@, stride as int),
        r matches Ok(new) ==> vaults_outcome(
            program_id@,
            record_of(index_info.data@),
            index_info.key@,
            index_mint_info.key@,
            accounts@,
            stride as int,
        ) matches Ok(b) && all_backed(new, b, supply_of(*index_mint_info)),
{
    let idx = index_ref(index_info, program_id)?;
    proof {
        lemma_count_fits(*index_info, idx);
    }
    sync_from_accounts(program_id, &idx, &index_info.key, index_mint_info, accounts, stride)
}

// ---------------------------------------------------------------------------------------------
// issue
// ---------------------------------------------------------------------------------------------

/// The checks every token-moving handler opens with: the signer, the token program, the index
/// address, and a nonzero amount.
pub open spec fn opening_failure(
    program_id: Seq<u8>,
    signer: AccountView,
    index_info: AccountView,
    index_mint_info: AccountView,
    token_program: AccountView,
    amount: u64,
) -> Option<ProgramFault> {
    if !signer.is_signer {
        Some(flock(FlockError::MissingSignature))
    } else if token_program.key@ != token_program_id() {
        Some(flock(FlockError::InvalidTokenAccount))
    } else if index_pda_failure(program_id, index_info, index_mint_info.key@) is Some {
        index_pda_failure(program_id, index_info, index_mint_info.key@)
    } else if amount == 0 {
        Some(flock(FlockError::ZeroAmount))
    } else {
        None
    }
}

fn check_opening(
    program_id: &Key,
    signer: &AccountView,
    index_info: &AccountView,
    index_mint_info: &AccountView,
    token_program: &AccountView,
    amount: u64,
) -> (r: Result<u8, ProgramFault>)
    ensures
        r is Ok <==> opening_failure(
            program_id@,
            *signer,
            *index_info,
            *index_mint_info,
            *token_program,
            amount,
        ) is None,
        r matches Ok(b) ==> index_address(program_id@, index_mint_info.key@) == Some(
            (index_info.key@, b),
        ),
        r matches Err(e) ==> opening_failure(
            program_id@,
            *signer,
            *index_info,
            *index_mint_info,
            *token_program,
            amount,
        ) == Some(e),
{
    require_signer(signer)?;
    require_token_program(token_program)?;
    let bump = check_index_pda(program_id, index_info, &index_mint_info.key)?;
    if amount == 0 {
        return Err(ProgramFault::Flock(FlockError::ZeroAmount));
    }
    Ok(bump)
}

/// The outcome of the first step of an issue: what the fee accrual owes, or why the issue is
/// refused before any token moves. The index must be live, `max_in` and the remaining accounts
/// must have one entry and two accounts per component, and the caller's index token account must
/// hold the index mint.
pub open spec fn issue_begin_outcome(
    program_id: Seq<u8>,
    user: AccountView,
    index_info: AccountView,
    index_mint_info: AccountView,
    user_index_ata: AccountView,
    fee_ata: AccountView,
    token_program: AccountView,
    rest_len: int,
    amount: u64,
    max_in_len: int,
    now: i64,
) -> Result<u64, ProgramFault> {
    match opening_failure(program_id, user, index_info, index_mint_info, token_program, amount) {
        Some(f) => Err(f),
        None => match index_ref_failure(index_info, program_id) {
            Some(f) => Err(f),
            None => {
                let idx = record_of(index_info.data@);
                if idx.state != crate::state::STATE_LIVE {
                    Err(
                        if idx.state == crate::state::STATE_PAUSED {
                            flock(FlockError::Paused)
                        } else {
                            flock(FlockError::NotSealed)
                        },
                    )
                } else if max_in_len != idx.component_count || rest_len != 2
                    * idx.component_count {
                    Err(flock(FlockError::ArityMismatch))
                } else if !is_token_account_of_mint(user_index_ata, index_mint_info.key@) {
                    Err(flock(FlockError::InvalidTokenAccount))
                } else {
                    accrual_outcome(idx, index_mint_info, fee_ata, now)
                }
            },
        },
    }
}

/// First step of an issue: every check up to the fee accrual, then the accrual itself.
pub fn issue_begin(
    program_id: &Key,
    user: &AccountView,
    index_info: &AccountView,
    index_mint_info: &AccountView,
    user_index_ata: &AccountView,
    fee_ata: &AccountView,
    token_program: &AccountView,
    rest_len: usize,
    amount: u64,
    max_in: &Vec<u64>,
    now: i64,
) -> (r: Result<FeeAccrual, ProgramFault>)
    ensures
        r matches Ok(a) ==> same_schedule(record_of(index_info.data@), a.index),
        match r {
            Ok(a) => {
                &&& issue_begin_outcome(
                    program_id@,
                    *user,
                    *index_info,
                    *index_mint_info,
                    *user_index_ata,
                    *fee_ata,
                    *token_program,
                    rest_len as int,
                    amount,
                    max_in@.len() as int,
                    now,
                ) == Ok::<u64, ProgramFault>(a.owed)
                &&& a.index == (Index { last_fee_accrual: now, ..record_of(index_info.data@) })
            },
            Err(e) => issue_begin_outcome(
                program_id@,
                *user,
                *index_info,
                *index_mint_info,
                *user_index_ata,
                *fee_ata,
                *token_program,
                rest_len as int,
                amount,
                max_in@.len() as int,
                now,
            ) == Err::<u64, ProgramFault>(e),
        },
{
    check_opening(program_id, user, index_info, index_mint_info, token_program, amount)?;
    let idx = index_ref(index_info, program_id)?;
    idx.is_live()?;
    let n = idx.component_count as usize;
    if max_in.len() != n || rest_len != 2 * n {
        return Err(ProgramFault::Flock(FlockError::ArityMismatch));
    }
    require_token_account_of_mint(user_index_ata, &index_mint_info.key)?;
    accrue(&idx, index_mint_info, fee_ata, now)
}

/// What issuing takes from component `i`'s source account: the recipe for `gross` index base
/// units rounded up, within the caller's `max_in`, from an account holding the component's mint.
pub open spec fn delivery_check(
    idx: Index,
    gross: int,
    max_in: u64,
    source: AccountView,
    i: int,
) -> Result<u64, ProgramFault> {
    let required = crate::math::spec_units_in(idx.components[i].units as int, gross);
    if required > u64::MAX {
        Err(flock(FlockError::MathOverflow))
    } else if required > max_in {
        Err(flock(FlockError::SlippageExceeded))
    } else if !is_token_account_of_mint(source, idx.components[i].mint@) {
        Err(flock(FlockError::InvalidTokenAccount))
    } else {
        Ok(required as u64)
    }
}

pub open spec fn delivery_walk(
    idx: Index,
    gross: int,
    max_in: Seq<u64>,
    rest: Seq<AccountView>,
) -> spec_fn(int) -> Result<u64, ProgramFault> {
    |i: int| delivery_check(idx, gross, max_in[i], rest[2 * i + 1], i)
}

/// An issue or redeem fee of `fee_bps` on `amount`, rounded up.
pub open spec fn fee_on(amount: u64, fee_bps: u16) -> int {
    crate::math::ceil_div(amount * fee_bps, BPS as int)
}

/// The outcome of the second step of an issue: the record with units re-derived from the vaults,
/// what each component's source account delivers, and the fee tokens minted beside the
/// caller's, or why the issue is refused.
pub open spec fn issue_settle_outcome(
    program_id: Seq<u8>,
    index_info: AccountView,
    index_mint_info: AccountView,
    fee_ata: AccountView,
    rest: Seq<AccountView>,
    amount: u64,
    max_in: Seq<u64>,
) -> Result<(Index, Seq<u64>, u64), ProgramFault> {
    match index_ref_failure(index_info, program_id) {
        Some(f) => Err(f),
        None => {
            let idx = record_of(index_info.data@);
            let n = idx.component_count as int;
            if max_in.len() != n || rest.len() != 2 * n {
                Err(flock(FlockError::ArityMismatch))
            } else {
                match sync_outcome(program_id, idx, index_info.key@, index_mint_info, rest, 2) {
                    Err(e) => Err(e),
                    Ok(synced) => {
                        let fee = fee_on(amount, synced.issue_fee_bps);
                        if fee > u64::MAX || amount + fee > u64::MAX {
                            Err(flock(FlockError::MathOverflow))
                        } else {
                            match walk_outcome(n, delivery_walk(synced, amount + fee, max_in, rest)) {
                                Err(e) => Err(e),
                                Ok(deliveries) => if fee > 0 && !is_token_account(
                                    fee_ata,
                                    index_mint_info.key@,
                                    synced.fee_recipient@,
                                ) {
                                    Err(flock(FlockError::InvalidTokenAccount))
                                } else {
                                    Ok((synced, deliveries, fee as u64))
                                },
                            }
                        }
                    },
                }
            }
        },
    }
}

/// What an issue moves: each component's delivery into its vault, the index tokens minted to
/// the caller, and the fee tokens minted to the fee recipient; with the record to store first.
pub struct Issuance {
    pub index: Index,
    pub deliveries: Vec<u64>,
    pub minted: u64,
    pub fee_tokens: u64,
}

/// The fee and the gross amount it adds to, refused on overflow.
fn gross_of(amount: u64, fee_bps: u16) -> (r: Result<(u64, u64), ProgramFault>)
    ensures
        r is Ok <==> (fee_on(amount, fee_bps) <= u64::MAX && amount + fee_on(amount, fee_bps)
            <= u64::MAX),
        r matches Ok((fee, gross)) ==> fee == fee_on(amount, fee_bps) && gross == amount + fee,
        r matches Err(e) ==> e == flock(FlockError::MathOverflow),
{
    proof {
        vstd::arithmetic::mul::lemma_mul_upper_bound(
            amount as int,
            u64::MAX as int,
            fee_bps as int,
            u16::MAX as int,
        );
    }
    let fee_u128 = match mul_div_ceil(amount as u128, fee_bps as u128, BPS) {
        Ok(f) => f,
        Err(_) => return Err(ProgramFault::Flock(FlockError::MathOverflow)),
    };
    let fee = match to_u64(fee_u128) {
        Ok(f) => f,
        Err(_) => return Err(ProgramFault::Flock(FlockError::MathOverflow)),
    };
    match amount.checked_add(fee) {
        Some(g) => Ok((fee, g)),
        None => Err(ProgramFault::Flock(FlockError::MathOverflow)),
    }
}

/// Second step of an issue, after the fee accrual has been minted and stored: re-derive the
/// units from the vaults, then work out what every component must deliver for the amount plus
/// its issue fee.
///
/// The fee is minted alongside the caller's tokens and is backed by components the caller
/// delivers, so charging it never dilutes anybody already holding.
#[verifier::loop_isolation(false)]
pub fn issue_settle(
    program_id: &Key,
    index_info: &AccountView,
    index_mint_info: &AccountView,
    fee_ata: &AccountView,
    rest: &[AccountView],
    amount: u64,
    max_in: &Vec<u64>,
) -> (r: Result<Issuance, ProgramFault>)
    requires
        count_byte_fits(index_info.data@),
    ensures
        r matches Ok(a) ==> vaults_outcome(
            program_id@,
            record_of(index_info.data@),
            index_info.key@,
            index_mint_info.key@,
            rest@,
            2,
        ) matches Ok(b) && all_backed(a.index, b, supply_of(*index_mint_info)),
        r matches Ok(a) ==> same_schedule(record_of(index_info.data@), a.index),
        match r {
            Ok(p) => {
                &&& issue_settle_outcome(
                    program_id@,
                    *index_info,
                    *index_mint_info,
                    *fee_ata,
                    rest@,
                    amount,
                    max_in@,
                ) == Ok::<(Index, Seq<u64>, u64), ProgramFault>(
                    (p.index, p.deliveries@, p.fee_tokens),
                )
                &&& p.minted == amount
            },
            Err(e) => issue_settle_outcome(
                program_id@,
                *index_info,
                *index_mint_info,
                *fee_ata,
                rest@,
                amount,
                max_in@,
            ) == Err::<(Index, Seq<u64>, u64), ProgramFault>(e),
        },
{
    let idx = index_ref(index_info, program_id)?;
    proof {
        lemma_count_fits(*index_info, idx);
    }
    let n = idx.component_count as usize;
    if max_in.len() != n || rest.len() != 2 * n {
        return Err(ProgramFault::Flock(FlockError::ArityMismatch));
    }
    let synced = sync_from_accounts(program_id, &idx, &index_info.key, index_mint_info, rest, 2)?;
    let (fee_tokens, gross) = gross_of(amount, synced.issue_fee_bps)?;
    let ghost check = delivery_walk(synced, gross as int, max_in@, rest@);
    let mut deliveries: Vec<u64> = Vec::new();
    let mut i: usize = 0;
    while i < n
        invariant
            i <= n,
            n == synced.component_count,
            n <= MAX_COMPONENTS,
            max_in@.len() == n,
            rest@.len() == 2 * n,
            deliveries@.len() == i,
            check == delivery_walk(synced, gross as int, max_in@, rest@),
            forall|j: int| 0 <= j < i ==> #[trigger] check(j) == Ok::<u64, ProgramFault>(
                deliveries@[j],
            ),
        decreases n - i,
    {
        proof {
            assert forall|j: int| 0 <= j < i implies (#[trigger] check(j)) is Ok by {
                assert(check(j) == Ok::<u64, ProgramFault>(deliveries@[j]));
            }
        }
        let component = synced.components[i];
        let required = match units_in(component.units, gross) {
            Ok(q) => q,
            Err(_) => {
                proof {
                    lemma_walk_stops(
                        n as int,
                        check,
                        i as int,
                        ProgramFault::Flock(FlockError::MathOverflow),
                    );
                }
                return Err(ProgramFault::Flock(FlockError::MathOverflow));
            },
        };
        if required > max_in[i] {
            proof {
                lemma_walk_stops(
                    n as int,
                    check,
                    i as int,
                    ProgramFault::Flock(FlockError::SlippageExceeded),
                );
            }
            return Err(ProgramFault::Flock(FlockError::SlippageExceeded));
        }
        match require_token_account_of_mint(&rest[2 * i + 1], &component.mint) {
            Ok(_) => {},
            Err(e) => {
                proof {
                    lemma_walk_stops(n as int, check, i as int, e);
                }
                return Err(e);
            },
        }
        deliveries.push(required);
        i = i + 1;
    }
    proof {
        lemma_walk_completes(n as int, check, deliveries@);
    }
    if fee_tokens > 0 {
        require_token_account(fee_ata, &index_mint_info.key, &synced.fee_recipient)?;
    }
    Ok(Issuance { index: synced, deliveries, minted: amount, fee_tokens })
}

// ---------------------------------------------------------------------------------------------
// redeem
// ---------------------------------------------------------------------------------------------

/// The outcome of the first step of a redeem: what the fee accrual owes, or why the redeem is
/// refused before any token moves. Redemption is open while paused; only an index that is still
/// bootstrapping refuses it.
pub open spec fn redeem_begin_outcome(
    program_id: Seq<u8>,
    user: AccountView,
    index_info: AccountView,
    index_mint_info: AccountView,
    user_index_ata: AccountView,
    fee_ata: AccountView,
    token_program: AccountView,
    rest_len: int,
    amount: u64,
    min_out_len: int,
    now: i64,
) -> Result<u64, ProgramFault> {
    match opening_failure(program_id, user, index_info, index_mint_info, token_program, amount) {
        Some(f) => Err(f),
        None => match index_ref_failure(index_info, program_id) {
            Some(f) => Err(f),
            None => {
                let idx = record_of(index_info.data@);
                if idx.state == STATE_BOOTSTRAPPING {
                    Err(flock(FlockError::NotSealed))
                } else if min_out_len != idx.component_count || rest_len != 2
                    * idx.component_count {
                    Err(flock(FlockError::ArityMismatch))
                } else if !is_token_account_of_mint(user_index_ata, index_mint_info.key@) {
                    Err(flock(FlockError::InvalidTokenAccount))
                } else {
                    accrual_outcome(idx, index_mint_info, fee_ata, now)
                }
            },
        },
    }
}

/// First step of a redeem: every check up to the fee accrual, then the accrual itself.
///
/// Redemption is deliberately available while paused. A pause protects the fund from a broken
/// component or a bad proposal; it must never trap a holder inside one.
pub fn redeem_begin(
    program_id: &Key,
    user: &AccountView,
    index_info: &AccountView,
    index_mint_info: &AccountView,
    user_index_ata: &AccountView,
    fee_ata: &AccountView,
    token_program: &AccountView,
    rest_len: usize,
    amount: u64,
    min_out: &Vec<u64>,
    now: i64,
) -> (r: Result<FeeAccrual, ProgramFault>)
    ensures
        r matches Ok(a) ==> same_schedule(record_of(index_info.data@), a.index),
        match r {
            Ok(a) => {
                &&& redeem_begin_outcome(
                    program_id@,
                    *user,
                    *index_info,
                    *index_mint_info,
                    *user_index_ata,
                    *fee_ata,
                    *token_program,
                    rest_len as int,
                    amount,
                    min_out@.len() as int,
                    now,
                ) == Ok::<u64, ProgramFault>(a.owed)
                &&& a.index == (Index { last_fee_accrual: now, ..record_of(index_info.data@) })
            },
            Err(e) => redeem_begin_outcome(
                program_id@,
                *user,
                *index_info,
                *index_mint_info,
                *user_index_ata,
                *fee_ata,
                *token_program,
                rest_len as int,
                amount,
                min_out@.len() as int,
                now,
            ) == Err::<u64, ProgramFault>(e),
        },
{
    check_opening(program_id, user, index_info, index_mint_info, token_program, amount)?;
    let idx = index_ref(index_info, program_id)?;
    if idx.state == STATE_BOOTSTRAPPING {
        return Err(ProgramFault::Flock(FlockError::NotSealed));
    }
    let n = idx.component_count as usize;
    if min_out.len() != n || rest_len != 2 * n {
        return Err(ProgramFault::Flock(FlockError::ArityMismatch));
    }
    require_token_account_of_mint(user_index_ata, &index_mint_info.key)?;
    accrue(&idx, index_mint_info, fee_ata, now)
}

/// What redeeming pays out of component `i`'s vault: the recipe for `net` index base units
/// rounded down, at least the caller's `min_out`, into an account holding the component's mint.
pub open spec fn payout_check(
    idx: Index,
    net: int,
    min_out: u64,
    dest: AccountView,
    i: int,
) -> Result<u64, ProgramFault> {
    let payout = crate::math::spec_units_out(idx.components[i].units as int, net);
    if payout > u64::MAX {
        Err(flock(FlockError::MathOverflow))
    } else if payout < min_out {
        Err(flock(FlockError::SlippageExceeded))
    } else if !is_token_account_of_mint(dest, idx.components[i].mint@) {
        Err(flock(FlockError::InvalidTokenAccount))
    } else {
        Ok(payout as u64)
    }
}

pub open spec fn payout_walk(
    idx: Index,
    net: int,
    min_out: Seq<u64>,
    rest: Seq<AccountView>,
) -> spec_fn(int) -> Result<u64, ProgramFault> {
    |i: int| payout_check(idx, net, min_out[i], rest[2 * i + 1], i)
}

/// The outcome of the second step of a redeem: the record with units re-derived from the vaults,
/// the fee tokens re-minted to the fee recipient out of the burned amount, and what each
/// component's vault pays out, or why the redeem is refused. The supply must cover the amount.
pub open spec fn redeem_settle_outcome(
    program_id: Seq<u8>,
    index_info: AccountView,
    index_mint_info: AccountView,
    fee_ata: AccountView,
    rest: Seq<AccountView>,
    amount: u64,
    min_out: Seq<u64>,
) -> Result<(Index, u64, Seq<u64>), ProgramFault> {
    match index_ref_failure(index_info, program_id) {
        Some(f) => Err(f),
        None => {
            let idx = record_of(index_info.data@);
            let n = idx.component_count as int;
            if min_out.len() != n || rest.len() != 2 * n {
                Err(flock(FlockError::ArityMismatch))
            } else {
                match vaults_outcome(
                    program_id,
                    idx,
                    index_info.key@,
                    index_mint_info.key@,
                    rest,
                    2,
                ) {
                    Err(e) => Err(e),
                    Ok(b) => if !mint_readable(index_mint_info) {
                        Err(flock(FlockError::InvalidTokenAccount))
                    } else if supply_of(index_mint_info) < amount {
                        Err(flock(FlockError::SupplyTooSmall))
                    } else if supply_of(index_mint_info) != 0 && !units_fit(
                        idx,
                        b,
                        supply_of(index_mint_info),
                    ) {
                        Err(flock(FlockError::MathOverflow))
                    } else {
                        let synced = synced_record(idx, b, supply_of(index_mint_info));
                        let fee = fee_on(amount, synced.redeem_fee_bps);
                        if fee > u64::MAX || amount - fee < 0 {
                            Err(flock(FlockError::MathOverflow))
                        } else if fee > 0 && !is_token_account(
                            fee_ata,
                            index_mint_info.key@,
                            synced.fee_recipient@,
                        ) {
                            Err(flock(FlockError::InvalidTokenAccount))
                        } else {
                            match walk_outcome(n, payout_walk(synced, amount - fee, min_out, rest)) {
                                Err(e) => Err(e),
                                Ok(payouts) => Ok((synced, fee as u64, payouts)),
                            }
                        }
                    },
                }
            }
        },
    }
}

/// What a redeem moves: the caller's index tokens burned, the fee tokens minted to the fee
/// recipient, and each component's payout out of its vault; with the record to store first.
pub struct Redemption {
    pub index: Index,
    pub burned: u64,
    pub fee_tokens: u64,
    pub payouts: Vec<u64>,
}

/// Second step of a redeem, after the fee accrual has been minted and stored: re-derive the
/// units from the vaults, then work out what every vault pays out for the amount net of its
/// redeem fee.
#[verifier::loop_isolation(false)]
pub fn redeem_settle(
    program_id: &Key,
    index_info: &AccountView,
    index_mint_info: &AccountView,
    fee_ata: &AccountView,
    rest: &[AccountView],
    amount: u64,
    min_out: &Vec<u64>,
) -> (r: Result<Redemption, ProgramFault>)
    requires
        count_byte_fits(index_info.data@),
    ensures
        r matches Ok(a) ==> vaults_outcome(
            program_id@,
            record_of(index_info.data@),
            index_info.key@,
            index_mint_info.key@,
            rest@,
            2,
        ) matches Ok(b) && all_backed(a.index, b, supply_of(*index_mint_info)),
        r matches Ok(a) ==> same_schedule(record_of(index_info.data@), a.index),
        match r {
            Ok(p) => {
                &&& redeem_settle_outcome(
                    program_id@,
                    *index_info,
                    *index_mint_info,
                    *fee_ata,
                    rest@,
                    amount,
                    min_out@,
                ) == Ok::<(Index, u64, Seq<u64>), ProgramFault>(
                    (p.index, p.fee_tokens, p.payouts@),
                )
                &&& p.burned == amount
            },
            Err(e) => redeem_settle_outcome(
                program_id@,
                *index_info,
                *index_mint_info,
                *fee_ata,
                rest@,
                amount,
                min_out@,
            ) == Err::<(Index, u64, Seq<u64>), ProgramFault>(e),
        },
{
    let idx = index_ref(index_info, program_id)?;
    proof {
        lemma_count_fits(*index_info, idx);
    }
    let n = idx.component_count as usize;
    if min_out.len() != n || rest.len() != 2 * n {
        return Err(ProgramFault::Flock(FlockError::ArityMismatch));
    }
    let balances = verify_vaults(program_id, &idx, &index_info.key, &index_mint_info.key, rest, 2)?;
    let supply = read_mint(index_mint_info)?.supply;
    if supply < amount {
        return Err(ProgramFault::Flock(FlockError::SupplyTooSmall));
    }
    let synced = sync_units(&idx, &balances, supply)?;
    proof {
        if supply != 0 {
            lemma_synced_record(idx, synced, balances@, supply);
            lemma_synced_units_backed(idx, synced, balances@, supply);
        } else {
            lemma_nothing_claimed(synced, balances@);
        }
        vstd::arithmetic::mul::lemma_mul_upper_bound(
            amount as int,
            u64::MAX as int,
            synced.redeem_fee_bps as int,
            u16::MAX as int,
        );
    }
    let fee_u128 = match mul_div_ceil(amount as u128, synced.redeem_fee_bps as u128, BPS) {
        Ok(f) => f,
        Err(_) => return Err(ProgramFault::Flock(FlockError::MathOverflow)),
    };
    let fee_tokens = match to_u64(fee_u128) {
        Ok(f) => f,
        Err(_) => return Err(ProgramFault::Flock(FlockError::MathOverflow)),
    };
    let net = match amount.checked_sub(fee_tokens) {
        Some(v) => v,
        None => return Err(ProgramFault::Flock(FlockError::MathOverflow)),
    };
    if fee_tokens > 0 {
        require_token_account(fee_ata, &index_mint_info.key, &synced.fee_recipient)?;
    }
    let ghost check = payout_walk(synced, net as int, min_out@, rest@);
    let mut payouts: Vec<u64> = Vec::new();
    let mut i: usize = 0;
    while i < n
        invariant
            i <= n,
            n == synced.component_count,
            n <= MAX_COMPONENTS,
            min_out@.len() == n,
            rest@.len() == 2 * n,
            payouts@.len() == i,
            check == payout_walk(synced, net as int, min_out@, rest@),
            forall|j: int| 0 <= j < i ==> #[trigger] check(j) == Ok::<u64, ProgramFault>(
                payouts@[j],
            ),
        decreases n - i,
    {
        proof {
            assert forall|j: int| 0 <= j < i implies (#[trigger] check(j)) is Ok by {
                assert(check(j) == Ok::<u64, ProgramFault>(payouts@[j]));
            }
        }
        let component = synced.components[i];
        let payout = match units_out(component.units, net) {
            Ok(q) => q,
            Err(_) => {
                proof {
                    lemma_walk_stops(
                        n as int,
                        check,
                        i as int,
                        ProgramFault::Flock(FlockError::MathOverflow),
                    );
                }
                return Err(ProgramFault::Flock(FlockError::MathOverflow));
            },
        };
        if payout < min_out[i] {
            proof {
                lemma_walk_stops(
                    n as int,
                    check,
                    i as int,
                    ProgramFault::Flock(FlockError::SlippageExceeded),
                );
            }
            return Err(ProgramFault::Flock(FlockError::SlippageExceeded));
        }
        match require_token_account_of_mint(&rest[2 * i + 1], &component.mint) {
            Ok(_) => {},
            Err(e) => {
                proof {
                    lemma_walk_stops(n as int, check, i as int, e);
                }
                return Err(e);
            },
        }
        payouts.push(payout);
        i = i + 1;
    }
    proof {
        lemma_walk_completes(n as int, check, payouts@);
    }
    Ok(Redemption { index: synced, burned: amount, fee_tokens, payouts })
}

// ---------------------------------------------------------------------------------------------
// accrue fees
// ---------------------------------------------------------------------------------------------

/// The outcome of a standalone fee accrual's first step.
pub open spec fn accrue_fees_outcome(
    program_id: Seq<u8>,
    index_info: AccountView,
    index_mint_info: AccountView,
    fee_ata: AccountView,
    token_program: AccountView,
    now: i64,
) -> Result<u64, ProgramFault> {
    if token_program.key@ != token_program_id() {
        Err(flock(FlockError::InvalidTokenAccount))
    } else if index_pda_failure(program_id, index_info, index_mint_info.key@) is Some {
        Err(index_pda_failure(program_id, index_info, index_mint_info.key@).unwrap())
    } else {
        match index_ref_failure(index_info, program_id) {
            Some(f) => Err(f),
            None => {
                let idx = record_of(index_info.data@);
                if idx.state == STATE_BOOTSTRAPPING {
                    Err(flock(FlockError::NotSealed))
                } else {
                    scaled_accrual_outcome(idx, index_mint_info, fee_ata, now)
                }
            },
        }
    }
}

/// First step of the standalone accrual: settle the streaming fee accrued since the last call,
/// and scale the units to the supply the minted fee grows to, so the record stays backed with no
/// vault passed. Where the vaults are passed, a second step, `resync` over them, one account per
/// component, re-derives the units from what they hold.
pub fn accrue_fees_begin(
    program_id: &Key,
    index_info: &AccountView,
    index_mint_info: &AccountView,
    fee_ata: &AccountView,
    token_program: &AccountView,
    now: i64,
) -> (r: Result<FeeAccrual, ProgramFault>)
    requires
        count_byte_fits(index_info.data@),
    ensures
        r matches Ok(a) ==> same_schedule(record_of(index_info.data@), a.index),
        match r {
            Ok(a) => {
                &&& accrue_fees_outcome(
                    program_id@,
                    *index_info,
                    *index_mint_info,
                    *fee_ata,
                    *token_program,
                    now,
                ) == Ok::<u64, ProgramFault>(a.owed)
                &&& accrued_and_scaled(
                    record_of(index_info.data@),
                    a.index,
                    now,
                    supply_of(*index_mint_info),
                    a.owed,
                )
            },
            Err(e) => accrue_fees_outcome(
                program_id@,
                *index_info,
                *index_mint_info,
                *fee_ata,
                *token_program,
                now,
            ) == Err::<u64, ProgramFault>(e),
        },
{
    require_token_program(token_program)?;
    check_index_pda(program_id, index_info, &index_mint_info.key)?;
    let idx = index_ref(index_info, program_id)?;
    proof {
        lemma_count_fits(*index_info, idx);
    }
    if idx.state == STATE_BOOTSTRAPPING {
        return Err(ProgramFault::Flock(FlockError::NotSealed));
    }
    accrue_scaled(&idx, index_mint_info, fee_ata, now)
}

// ---------------------------------------------------------------------------------------------
// governance
// ---------------------------------------------------------------------------------------------

/// The checks every governance handler opens with: the signer, then the index address.
pub open spec fn signed_index_failure(
    program_id: Seq<u8>,
    signer: AccountView,
    index_info: AccountView,
    index_mint_info: AccountView,
) -> Option<ProgramFault> {
    if !signer.is_signer {
        Some(flock(FlockError::MissingSignature))
    } else {
        index_pda_failure(program_id, index_info, index_mint_info.key@)
    }
}

fn check_signed_index(
    program_id: &Key,
    signer: &AccountView,
    index_info: &AccountView,
    index_mint_info: &AccountView,
) -> (r: Result<u8, ProgramFault>)
    ensures
        r is Ok <==> signed_index_failure(program_id@, *signer, *index_info, *index_mint_info) is None,
        r matches Err(e) ==> signed_index_failure(
            program_id@,
            *signer,
            *index_info,
            *index_mint_info,
        ) == Some(e),
{
    require_signer(signer)?;
    check_index_pda(program_id, index_info, &index_mint_info.key)
}

/// The outcome of a parameter update: the streaming fee owed at the old rate, or why the update
/// is refused. Once the index is sealed the fee clock is settled at `now` first, so the old rate
/// applies to exactly the time it was in force and the new rate bills nothing before it; the
/// token program account is checked only where such a fee is owed and must be minted.
pub open spec fn set_params_outcome(
    program_id: Seq<u8>,
    governor: AccountView,
    index_info: AccountView,
    index_mint_info: AccountView,
    fee_ata: AccountView,
    token_program: AccountView,
    streaming_fee_bps: u16,
    issue_fee_bps: u16,
    redeem_fee_bps: u16,
    max_premium_bps: u16,
    rebalance_delay: u32,
    now: i64,
) -> Result<u64, ProgramFault> {
    if signed_index_failure(program_id, governor, index_info, index_mint_info) is Some {
        Err(signed_index_failure(program_id, governor, index_info, index_mint_info).unwrap())
    } else if fees_failure(
        streaming_fee_bps,
        issue_fee_bps,
        redeem_fee_bps,
        max_premium_bps,
        rebalance_delay,
    ) is Some {
        Err(
            fees_failure(
                streaming_fee_bps,
                issue_fee_bps,
                redeem_fee_bps,
                max_premium_bps,
                rebalance_delay,
            ).unwrap(),
        )
    } else {
        match index_ref_failure(index_info, program_id) {
            Some(f) => Err(f),
            None => {
                let idx = record_of(index_info.data@);
                if idx.governor@ != governor.key@ {
                    Err(flock(FlockError::NotGovernor))
                } else if idx.state == STATE_BOOTSTRAPPING {
                    Ok(0)
                } else {
                    match scaled_accrual_outcome(idx, index_mint_info, fee_ata, now) {
                        Ok(owed) => if owed > 0 && token_program.key@ != token_program_id() {
                            Err(flock(FlockError::InvalidTokenAccount))
                        } else {
                            Ok(owed)
                        },
                        Err(e) => Err(e),
                    }
                }
            },
        }
    }
}

/// `idx` with the new fee schedule and auction bounds.
pub open spec fn rescheduled(
    idx: Index,
    streaming_fee_bps: u16,
    issue_fee_bps: u16,
    redeem_fee_bps: u16,
    max_premium_bps: u16,
    rebalance_delay: u32,
) -> Index {
    Index { streaming_fee_bps, issue_fee_bps, redeem_fee_bps, max_premium_bps, rebalance_delay, ..idx }
}

/// What a parameter update leaves: the record to store, and the streaming fee owed at the old
/// rate, to mint to the fee recipient.
pub struct FeeChange {
    pub index: Index,
    pub owed: u64,
}

/// Governor: update the fee schedule and auction bounds, inside the hard caps. On a sealed index
/// the fee owed at the old rate is settled first, with the units scaled to the supply it grows to.
pub fn set_params(
    program_id: &Key,
    governor: &AccountView,
    index_info: &AccountView,
    index_mint_info: &AccountView,
    fee_ata: &AccountView,
    token_program: &AccountView,
    streaming_fee_bps: u16,
    issue_fee_bps: u16,
    redeem_fee_bps: u16,
    max_premium_bps: u16,
    rebalance_delay: u32,
    now: i64,
) -> (r: Result<FeeChange, ProgramFault>)
    requires
        count_byte_fits(index_info.data@),
    ensures
        ({
            let outcome = set_params_outcome(
                program_id@,
                *governor,
                *index_info,
                *index_mint_info,
                *fee_ata,
                *token_program,
                streaming_fee_bps,
                issue_fee_bps,
                redeem_fee_bps,
                max_premium_bps,
                rebalance_delay,
                now,
            );
            let idx = record_of(index_info.data@);
            let base = rescheduled(
                idx,
                streaming_fee_bps,
                issue_fee_bps,
                redeem_fee_bps,
                max_premium_bps,
                rebalance_delay,
            );
            match r {
                Ok(c) => {
                    &&& outcome == Ok::<u64, ProgramFault>(c.owed)
                    &&& if idx.state == STATE_BOOTSTRAPPING {
                        c.index == base
                    } else {
                        accrued_and_scaled(base, c.index, now, supply_of(*index_mint_info), c.owed)
                    }
                },
                Err(e) => outcome == Err::<u64, ProgramFault>(e),
            }
        }),
{
    check_signed_index(program_id, governor, index_info, index_mint_info)?;
    check_fees(streaming_fee_bps, issue_fee_bps, redeem_fee_bps, max_premium_bps, rebalance_delay)?;
    let idx = index_ref(index_info, program_id)?;
    proof {
        lemma_count_fits(*index_info, idx);
    }
    if !idx.governor.same(&governor.key) {
        return Err(ProgramFault::Flock(FlockError::NotGovernor));
    }
    let (mut new, owed) = if idx.state == STATE_BOOTSTRAPPING {
        (idx, 0u64)
    } else {
        let a = accrue_scaled(&idx, index_mint_info, fee_ata, now)?;
        if a.owed > 0 {
            require_token_program(token_program)?;
        }
        (a.index, a.owed)
    };
    new.streaming_fee_bps = streaming_fee_bps;
    new.issue_fee_bps = issue_fee_bps;
    new.redeem_fee_bps = redeem_fee_bps;
    new.max_premium_bps = max_premium_bps;
    new.rebalance_delay = rebalance_delay;
    Ok(FeeChange { index: new, owed })
}

/// The outcome of handing a role to a new key: role 0 is the governor, 1 the manager, 2 the fee
/// recipient; any other role is refused as invalid instruction data.
pub open spec fn set_authority_outcome(
    program_id: Seq<u8>,
    governor: AccountView,
    index_info: AccountView,
    index_mint_info: AccountView,
    role: u8,
    new_authority: Key,
) -> Result<Index, ProgramFault> {
    if signed_index_failure(program_id, governor, index_info, index_mint_info) is Some {
        Err(signed_index_failure(program_id, governor, index_info, index_mint_info).unwrap())
    } else {
        match index_ref_failure(index_info, program_id) {
            Some(f) => Err(f),
            None => {
                let idx = record_of(index_info.data@);
                if idx.governor@ != governor.key@ {
                    Err(flock(FlockError::NotGovernor))
                } else if role == ROLE_GOVERNOR {
                    Ok(Index { governor: new_authority, ..idx })
                } else if role == ROLE_MANAGER {
                    Ok(Index { manager: new_authority, ..idx })
                } else if role == ROLE_FEE_RECIPIENT {
                    Ok(Index { fee_recipient: new_authority, ..idx })
                } else {
                    Err(ProgramFault::InvalidInstructionData)
                }
            },
        }
    }
}

/// Governor: hand a role to a new key.
pub fn set_authority(
    program_id: &Key,
    governor: &AccountView,
    index_info: &AccountView,
    index_mint_info: &AccountView,
    role: u8,
    new_authority: Key,
) -> (r: Result<Index, ProgramFault>)
    ensures
        r matches Ok(a) ==> same_schedule(record_of(index_info.data@), a),
        r == set_authority_outcome(
            program_id@,
            *governor,
            *index_info,
            *index_mint_info,
            role,
            new_authority,
        ),
{
    check_signed_index(program_id, governor, index_info, index_mint_info)?;
    let mut idx = index_ref(index_info, program_id)?;
    if !idx.governor.same(&governor.key) {
        return Err(ProgramFault::Flock(FlockError::NotGovernor));
    }
    if role == ROLE_GOVERNOR {
        idx.governor = new_authority;
    } else if role == ROLE_MANAGER {
        idx.manager = new_authority;
    } else if role == ROLE_FEE_RECIPIENT {
        idx.fee_recipient = new_authority;
    } else {
        return Err(ProgramFault::InvalidInstructionData);
    }
    Ok(idx)
}

/// The outcome of a pause or resume. Either authority can stop the fund; only the governor can
/// restart it. An index still bootstrapping cannot be paused or resumed.
pub open spec fn set_paused_outcome(
    program_id: Seq<u8>,
    caller: AccountView,
    index_info: AccountView,
    index_mint_info: AccountView,
    paused: bool,
) -> Result<Index, ProgramFault> {
    if signed_index_failure(program_id, caller, index_info, index_mint_info) is Some {
        Err(signed_index_failure(program_id, caller, index_info, index_mint_info).unwrap())
    } else {
        match index_ref_failure(index_info, program_id) {
            Some(f) => Err(f),
            None => {
                let idx = record_of(index_info.data@);
                if paused && idx.governor@ != caller.key@ && idx.manager@ != caller.key@ {
                    Err(flock(FlockError::NotManager))
                } else if !paused && idx.governor@ != caller.key@ {
                    Err(flock(FlockError::NotGovernor))
                } else if idx.state == STATE_BOOTSTRAPPING {
                    Err(flock(FlockError::NotSealed))
                } else {
                    Ok(
                        Index {
                            state: if paused {
                                crate::state::STATE_PAUSED
                            } else {
                                crate::state::STATE_LIVE
                            },
                            ..idx
                        },
                    )
                }
            },
        }
    }
}

/// Governor or manager: stop issuance and bidding. Redemption stays open, always.
pub fn set_paused(
    program_id: &Key,
    caller: &AccountView,
    index_info: &AccountView,
    index_mint_info: &AccountView,
    paused: bool,
) -> (r: Result<Index, ProgramFault>)
    ensures
        r matches Ok(a) ==> same_schedule(record_of(index_info.data@), a),
        r == set_paused_outcome(program_id@, *caller, *index_info, *index_mint_info, paused),
{
    check_signed_index(program_id, caller, index_info, index_mint_info)?;
    let mut idx = index_ref(index_info, program_id)?;
    if paused {
        if !idx.governor.same(&caller.key) && !idx.manager.same(&caller.key) {
            return Err(ProgramFault::Flock(FlockError::NotManager));
        }
    } else if !idx.governor.same(&caller.key) {
        return Err(ProgramFault::Flock(FlockError::NotGovernor));
    }
    if idx.state == STATE_BOOTSTRAPPING {
        return Err(ProgramFault::Flock(FlockError::NotSealed));
    }
    idx.state = if paused {
        crate::state::STATE_PAUSED
    } else {
        crate::state::STATE_LIVE
    };
    Ok(idx)
}

/// The outcome of sealing: the manager closes the component list of a bootstrapping index that
/// has at least one component, and the index goes live with its fee clock starting at `now`.
pub open spec fn seal_outcome(
    program_id: Seq<u8>,
    manager: AccountView,
    index_info: AccountView,
    index_mint_info: AccountView,
    now: i64,
) -> Result<Index, ProgramFault> {
    if signed_index_failure(program_id, manager, index_info, index_mint_info) is Some {
        Err(signed_index_failure(program_id, manager, index_info, index_mint_info).unwrap())
    } else {
        match index_ref_failure(index_info, program_id) {
            Some(f) => Err(f),
            None => {
                let idx = record_of(index_info.data@);
                if idx.manager@ != manager.key@ {
                    Err(flock(FlockError::NotManager))
                } else if idx.state != STATE_BOOTSTRAPPING {
                    Err(flock(FlockError::AlreadySealed))
                } else if idx.component_count == 0 {
                    Err(flock(FlockError::UnknownComponent))
                } else {
                    Ok(
                        Index {
                            state: crate::state::STATE_LIVE,
                            last_fee_accrual: now,
                            ..idx
                        },
                    )
                }
            },
        }
    }
}

/// Manager: close the component list and open the index for issuance.
pub fn seal_index(
    program_id: &Key,
    manager: &AccountView,
    index_info: &AccountView,
    index_mint_info: &AccountView,
    now: i64,
) -> (r: Result<Index, ProgramFault>)
    ensures
        r matches Ok(a) ==> same_schedule(record_of(index_info.data@), a),
        r == seal_outcome(program_id@, *manager, *index_info, *index_mint_info, now),
{
    check_signed_index(program_id, manager, index_info, index_mint_info)?;
    let mut idx = index_ref(index_info, program_id)?;
    if !idx.manager.same(&manager.key) {
        return Err(ProgramFault::Flock(FlockError::NotManager));
    }
    if idx.state != STATE_BOOTSTRAPPING {
        return Err(ProgramFault::Flock(FlockError::AlreadySealed));
    }
    if idx.component_count == 0 {
        return Err(ProgramFault::Flock(FlockError::UnknownComponent));
    }
    idx.state = crate::state::STATE_LIVE;
    idx.last_fee_accrual = now;
    Ok(idx)
}

// ---------------------------------------------------------------------------------------------
// auctions
// ---------------------------------------------------------------------------------------------

/// `new` is `synced` with its auction closed: every component's target set to its units, and
/// the rebalance entry cleared except for who proposed it and when.
pub open spec fn rebalance_closed(synced: Index, new: Index) -> bool {
    &&& new == Index { components: new.components, rebalance: new.rebalance, ..synced }
    &&& forall|i: int|
        0 <= i < MAX_COMPONENTS ==> #[trigger] new.components[i] == if i
            < synced.component_count {
            Component { target_units: synced.components[i].units, ..synced.components[i] }
        } else {
            synced.components[i]
        }
    &&& new.rebalance.proposer == synced.rebalance.proposer
    &&& new.rebalance.proposed_at == synced.rebalance.proposed_at
    &&& new.rebalance.start_ts == 0
    &&& new.rebalance.end_ts == 0
    &&& new.rebalance.nav_floor_e6 == 0
    &&& new.rebalance.start_premium_bps == 0
    &&& new.rebalance.end_premium_bps == 0
    &&& new.rebalance.max_nav_loss_bps == 0
    &&& new.rebalance.active == 0
    &&& new.rebalance._pad@ == seq![0u8]
}

/// The outcome of closing an auction, up to the re-derived record it closes: there must be a
/// running auction, and before it expires only the manager may close it; anyone may close an
/// expired one.
pub open spec fn end_rebalance_outcome(
    program_id: Seq<u8>,
    caller: AccountView,
    index_info: AccountView,
    index_mint_info: AccountView,
    vaults: Seq<AccountView>,
    now: i64,
) -> Result<Index, ProgramFault> {
    if signed_index_failure(program_id, caller, index_info, index_mint_info) is Some {
        Err(signed_index_failure(program_id, caller, index_info, index_mint_info).unwrap())
    } else {
        match index_ref_failure(index_info, program_id) {
            Some(f) => Err(f),
            None => {
                let idx = record_of(index_info.data@);
                if idx.rebalance.active == 0 {
                    Err(flock(FlockError::NoRebalance))
                } else if now <= idx.rebalance.end_ts && idx.manager@ != caller.key@ {
                    Err(flock(FlockError::NotManager))
                } else {
                    sync_outcome(program_id, idx, index_info.key@, index_mint_info, vaults, 1)
                }
            },
        }
    }
}

/// Close the auction. Permissionless once it has expired; the manager may close it early.
/// Units are re-derived from the vaults and become the new targets.
pub fn end_rebalance(
    program_id: &Key,
    caller: &AccountView,
    index_info: &AccountView,
    index_mint_info: &AccountView,
    vaults: &[AccountView],
    now: i64,
) -> (r: Result<Index, ProgramFault>)
    requires
        count_byte_fits(index_info.data@),
    ensures
        r matches Ok(a) ==> same_schedule(record_of(index_info.data@), a),
        r is Ok <==> end_rebalance_outcome(
            program_id@,
            *caller,
            *index_info,
            *index_mint_info,
            vaults@,
            now,
        ) is Ok,
        r matches Ok(new) ==> end_rebalance_outcome(
            program_id@,
            *caller,
            *index_info,
            *index_mint_info,
            vaults@,
            now,
        ) matches Ok(synced) && rebalance_closed(synced, new),
        r matches Ok(new) ==> vaults_outcome(
            program_id@,
            record_of(index_info.data@),
            index_info.key@,
            index_mint_info.key@,
            vaults@,
            1,
        ) matches Ok(b) && all_backed(new, b, supply_of(*index_mint_info)),
        r matches Err(e) ==> end_rebalance_outcome(
            program_id@,
            *caller,
            *index_info,
            *index_mint_info,
            vaults@,
            now,
        ) == Err::<Index, ProgramFault>(e),
{
    check_signed_index(program_id, caller, index_info, index_mint_info)?;
    let idx = index_ref(index_info, program_id)?;
    proof {
        lemma_count_fits(*index_info, idx);
    }
    if idx.rebalance.active == 0 {
        return Err(ProgramFault::Flock(FlockError::NoRebalance));
    }
    if now <= idx.rebalance.end_ts && !idx.manager.same(&caller.key) {
        return Err(ProgramFault::Flock(FlockError::NotManager));
    }
    let synced = sync_from_accounts(program_id, &idx, &index_info.key, index_mint_info, vaults, 1)?;
    let mut new = synced;
    let n = synced.component_count as usize;
    let mut i: usize = 0;
    while i < n
        invariant
            i <= n,
            n == synced.component_count,
            n <= MAX_COMPONENTS,
            new == (Index { components: new.components, ..synced }),
            forall|j: int|
                0 <= j < MAX_COMPONENTS ==> #[trigger] new.components[j] == if j < i {
                    Component { target_units: synced.components[j].units, ..synced.components[j] }
                } else {
                    synced.components[j]
                },
        decreases n - i,
    {
        new.components[i].target_units = new.components[i].units;
        i = i + 1;
    }
    new.rebalance = Rebalance {
        proposer: synced.rebalance.proposer,
        proposed_at: synced.rebalance.proposed_at,
        start_ts: 0,
        end_ts: 0,
        nav_floor_e6: 0,
        start_premium_bps: 0,
        end_premium_bps: 0,
        max_nav_loss_bps: 0,
        active: 0,
        _pad: [0u8; 1],
    };
    assert(new.rebalance._pad@ =~= seq![0u8]);
    proof {
        let b = vaults_outcome(
            program_id@,
            idx,
            index_info.key@,
            index_mint_info.key@,
            vaults@,
            1,
        )->Ok_0;
        assert forall|j: int| 0 <= j < new.component_count implies #[trigger] backed(
            new.components[j].units as int,
            b[j] as int,
            supply_of(*index_mint_info) as int,
        ) by {
            assert(new.components[j].units == synced.components[j].units);
            assert(backed(
                synced.components[j].units as int,
                b[j] as int,
                supply_of(*index_mint_info) as int,
            ));
        }
    }
    Ok(new)
}

/// Arguments of a rebalance proposal.
pub struct AuctionParams {
    pub duration: u32,
    pub start_premium_bps: i16,
    pub end_premium_bps: i16,
    pub max_nav_loss_bps: u16,
}

/// `-x` as the runtime computes it for an `i16`: wrapping at the bottom of the range.
pub open spec fn neg_wrap_i16(x: i16) -> i16 {
    if x == i16::MIN {
        x
    } else {
        (-x) as i16
    }
}

/// The auction must open in the fund's favour and decay toward the bidder, never the reverse,
/// and it can never hand away more than the index's governed ceiling.
pub open spec fn premiums_refused(p: AuctionParams, max_premium_bps: u16) -> bool {
    p.start_premium_bps > p.end_premium_bps || p.end_premium_bps > (max_premium_bps as i16)
        || p.start_premium_bps < neg_wrap_i16(max_premium_bps as i16) || p.max_nav_loss_bps
        > max_premium_bps
}

/// `new` is `idx` with components `0..n` carrying the proposal's targets and reference prices.
pub open spec fn priced(idx: Index, new: Index, targets: Seq<u64>, prices: Seq<u64>) -> bool {
    &&& same_but_components(idx, new)
    &&& forall|i: int|
        0 <= i < MAX_COMPONENTS ==> #[trigger] new.components[i] == if i
            < idx.component_count {
            Component { target_units: targets[i], ref_price_e9: prices[i], ..idx.components[i] }
        } else {
            idx.components[i]
        }
}

pub open spec fn priced_record(idx: Index, targets: Seq<u64>, prices: Seq<u64>) -> Index {
    choose|new: Index| priced(idx, new, targets, prices)
}

/// Everything a proposal checks before it values the fund, in order.
pub open spec fn propose_failure(
    program_id: Seq<u8>,
    manager: AccountView,
    index_info: AccountView,
    index_mint_info: AccountView,
    vaults: Seq<AccountView>,
    targets: Seq<u64>,
    prices: Seq<u64>,
    p: AuctionParams,
) -> Option<ProgramFault> {
    if signed_index_failure(program_id, manager, index_info, index_mint_info) is Some {
        signed_index_failure(program_id, manager, index_info, index_mint_info)
    } else if index_ref_failure(index_info, program_id) is Some {
        index_ref_failure(index_info, program_id)
    } else {
        let idx = record_of(index_info.data@);
        if idx.manager@ != manager.key@ {
            Some(flock(FlockError::NotManager))
        } else if idx.state != crate::state::STATE_LIVE {
            Some(
                if idx.state == crate::state::STATE_PAUSED {
                    flock(FlockError::Paused)
                } else {
                    flock(FlockError::NotSealed)
                },
            )
        } else if idx.rebalance.active != 0 {
            Some(flock(FlockError::RebalanceActive))
        } else if targets.len() != idx.component_count || prices.len() != idx.component_count {
            Some(flock(FlockError::ArityMismatch))
        } else if p.duration == 0 || p.duration > crate::state::MAX_AUCTION_DURATION {
            Some(flock(FlockError::InvalidPremium))
        } else if premiums_refused(p, idx.max_premium_bps) {
            Some(flock(FlockError::InvalidPremium))
        } else if exists|i: int| 0 <= i < prices.len() && #[trigger] prices[i] == 0 {
            Some(flock(FlockError::InvalidPrice))
        } else {
            match vaults_outcome(
                program_id,
                idx,
                index_info.key@,
                index_mint_info.key@,
                vaults,
                1,
            ) {
                Err(e) => Some(e),
                Ok(_) => None,
            }
        }
    }
}

/// A new auction: opening `delay` after `now` and running `duration`, with the NAV floor at
/// `max_nav_loss_bps` below `nav`, proposed by `proposer`.
pub open spec fn auction_opened(
    r: Rebalance,
    p: AuctionParams,
    proposer: Seq<u8>,
    now: i64,
    delay: u32,
    nav: u64,
) -> bool {
    &&& r.active == 1
    &&& r.proposed_at == now
    &&& r.start_ts == now + delay
    &&& r.end_ts == now + delay + p.duration
    &&& r.start_premium_bps == p.start_premium_bps
    &&& r.end_premium_bps == p.end_premium_bps
    &&& r.max_nav_loss_bps == p.max_nav_loss_bps
    &&& r.nav_floor_e6 == (nav * (BPS - p.max_nav_loss_bps)) / (BPS as int)
    &&& r.proposer@ == proposer
    &&& r._pad@ == seq![0u8]
}

/// What a proposal computes once every check has passed: the NAV of the fund at the new
/// reference prices, the opening and closing times, and the floor, each refused on overflow.
pub open spec fn propose_computable(
    priced: Index,
    balances: Seq<u64>,
    now: i64,
    delay: u32,
    p: AuctionParams,
) -> bool {
    let nav = nav_sum(priced, balances, priced.component_count as int);
    &&& scales_fit(priced)
    &&& nav <= u128::MAX
    &&& nav / 1000 <= u64::MAX
    &&& now + delay <= i64::MAX
    &&& now + delay + p.duration <= i64::MAX
    &&& p.max_nav_loss_bps <= BPS
}

/// Manager: open a Dutch auction that moves the fund from its current units to `target_units`,
/// priced at `ref_prices_e9`, opening after the index's rebalance delay.
#[verifier::loop_isolation(false)]
pub fn propose_rebalance(
    program_id: &Key,
    manager: &AccountView,
    index_info: &AccountView,
    index_mint_info: &AccountView,
    vaults: &[AccountView],
    target_units: &Vec<u64>,
    ref_prices_e9: &Vec<u64>,
    p: AuctionParams,
    now: i64,
) -> (r: Result<Index, ProgramFault>)
    requires
        count_byte_fits(index_info.data@),
    ensures
        r matches Ok(a) ==> same_schedule(record_of(index_info.data@), a),
        ({
            let failure = propose_failure(
                program_id@,
                *manager,
                *index_info,
                *index_mint_info,
                vaults@,
                target_units@,
                ref_prices_e9@,
                p,
            );
            let idx = record_of(index_info.data@);
            let pr = priced_record(idx, target_units@, ref_prices_e9@);
            let balances = vaults_outcome(
                program_id@,
                idx,
                index_info.key@,
                index_mint_info.key@,
                vaults@,
                1,
            )->Ok_0;
            match r {
                Ok(new) => {
                    &&& failure is None
                    &&& propose_computable(pr, balances, now, idx.rebalance_delay, p)
                    &&& new == Index { rebalance: new.rebalance, ..pr }
                    &&& auction_opened(
                        new.rebalance,
                        p,
                        manager.key@,
                        now,
                        idx.rebalance_delay,
                        (nav_sum(pr, balances, idx.component_count as int) / 1000) as u64,
                    )
                },
                Err(e) => match failure {
                    Some(f) => e == f,
                    None => !propose_computable(pr, balances, now, idx.rebalance_delay, p) && e
                        == flock(FlockError::MathOverflow),
                },
            }
        }),
{
    check_signed_index(program_id, manager, index_info, index_mint_info)?;
    let idx = index_ref(index_info, program_id)?;
    proof {
        lemma_count_fits(*index_info, idx);
    }
    if !idx.manager.same(&manager.key) {
        return Err(ProgramFault::Flock(FlockError::NotManager));
    }
    idx.is_live()?;
    if idx.rebalance.active != 0 {
        return Err(ProgramFault::Flock(FlockError::RebalanceActive));
    }
    let n = idx.component_count as usize;
    if target_units.len() != n || ref_prices_e9.len() != n {
        return Err(ProgramFault::Flock(FlockError::ArityMismatch));
    }
    if p.duration == 0 || p.duration > crate::state::MAX_AUCTION_DURATION {
        return Err(ProgramFault::Flock(FlockError::InvalidPremium));
    }
    let ceiling = idx.max_premium_bps as i16;
    let floor = if ceiling == i16::MIN {
        ceiling
    } else {
        -ceiling
    };
    if p.start_premium_bps > p.end_premium_bps || p.end_premium_bps > ceiling
        || p.start_premium_bps < floor || p.max_nav_loss_bps > idx.max_premium_bps {
        return Err(ProgramFault::Flock(FlockError::InvalidPremium));
    }
    let mut k: usize = 0;
    while k < n
        invariant
            k <= n,
            n == ref_prices_e9@.len(),
            forall|j: int| 0 <= j < k ==> #[trigger] ref_prices_e9@[j] != 0,
        decreases n - k,
    {
        if ref_prices_e9[k] == 0 {
            return Err(ProgramFault::Flock(FlockError::InvalidPrice));
        }
        k = k + 1;
    }
    let balances = verify_vaults(program_id, &idx, &index_info.key, &index_mint_info.key, vaults, 1)?;
    let mut priced_idx = idx;
    let mut i: usize = 0;
    while i < n
        invariant
            i <= n,
            n == idx.component_count,
            n <= MAX_COMPONENTS,
            target_units@.len() == n,
            ref_prices_e9@.len() == n,
            same_but_components(idx, priced_idx),
            forall|j: int|
                0 <= j < MAX_COMPONENTS ==> #[trigger] priced_idx.components[j] == if j < i {
                    Component {
                        target_units: target_units@[j],
                        ref_price_e9: ref_prices_e9@[j],
                        ..idx.components[j]
                    }
                } else {
                    idx.components[j]
                },
        decreases n - i,
    {
        priced_idx.components[i].ref_price_e9 = ref_prices_e9[i];
        priced_idx.components[i].target_units = target_units[i];
        i = i + 1;
    }
    proof {
        assert(priced(idx, priced_idx, target_units@, ref_prices_e9@));
        let other = priced_record(idx, target_units@, ref_prices_e9@);
        assert(priced(idx, other, target_units@, ref_prices_e9@));
        assert forall|j: int| 0 <= j < MAX_COMPONENTS implies other.components[j]
            == priced_idx.components[j] by {
            assert(other.components[j] == priced_idx.components[j]);
        }
        assert(other.components =~= priced_idx.components);
    }
    let nav = nav_e6(&priced_idx, &balances)?;
    let start_ts = match now.checked_add(idx.rebalance_delay as i64) {
        Some(t) => t,
        None => return Err(ProgramFault::Flock(FlockError::MathOverflow)),
    };
    let end_ts = match start_ts.checked_add(p.duration as i64) {
        Some(t) => t,
        None => return Err(ProgramFault::Flock(FlockError::MathOverflow)),
    };
    let keep = match BPS.checked_sub(p.max_nav_loss_bps as u128) {
        Some(k) => k,
        None => return Err(ProgramFault::Flock(FlockError::MathOverflow)),
    };
    proof {
        vstd::arithmetic::mul::lemma_mul_upper_bound(
            nav as int,
            u64::MAX as int,
            keep as int,
            BPS as int,
        );
        vstd::arithmetic::mul::lemma_mul_nonnegative(nav as int, keep as int);
        vstd::arithmetic::mul::lemma_mul_inequality(keep as int, BPS as int, nav as int);
        vstd::arithmetic::mul::lemma_mul_is_commutative(nav as int, keep as int);
        vstd::arithmetic::div_mod::lemma_div_is_ordered(
            nav as int * keep as int,
            nav as int * BPS as int,
            BPS as int,
        );
        vstd::arithmetic::div_mod::lemma_div_multiples_vanish(nav as int, BPS as int);
        vstd::arithmetic::mul::lemma_mul_is_commutative(nav as int, BPS as int);
    }
    let nav_floor = match mul_div_floor(nav as u128, keep, BPS) {
        Ok(f) => f as u64,
        Err(_) => return Err(ProgramFault::Flock(FlockError::MathOverflow)),
    };
    let mut new = priced_idx;
    new.rebalance = Rebalance {
        proposer: manager.key,
        proposed_at: now,
        start_ts,
        end_ts,
        nav_floor_e6: nav_floor,
        start_premium_bps: p.start_premium_bps,
        end_premium_bps: p.end_premium_bps,
        max_nav_loss_bps: p.max_nav_loss_bps,
        active: 1,
        _pad: [0u8; 1],
    };
    assert(new.rebalance._pad@ =~= seq![0u8]);
    Ok(new)
}

/// The checks a bid opens with: the signer, the token program, the index address, two different
/// components, and a nonzero amount.
pub open spec fn bid_opening_failure(
    program_id: Seq<u8>,
    bidder: AccountView,
    index_info: AccountView,
    index_mint_info: AccountView,
    token_program: AccountView,
    sell_component: u8,
    buy_component: u8,
    sell_amount: u64,
) -> Option<ProgramFault> {
    if !bidder.is_signer {
        Some(flock(FlockError::MissingSignature))
    } else if token_program.key@ != token_program_id() {
        Some(flock(FlockError::InvalidTokenAccount))
    } else if index_pda_failure(program_id, index_info, index_mint_info.key@) is Some {
        index_pda_failure(program_id, index_info, index_mint_info.key@)
    } else if sell_component == buy_component {
        Some(flock(FlockError::SameComponent))
    } else if sell_amount == 0 {
        Some(flock(FlockError::ZeroAmount))
    } else {
        None
    }
}

/// How much of a component's holding at `supply` its target `units` claim, rounded down.
pub open spec fn target_holding(units: u64, supply: u64) -> int {
    (units * supply) / (UNIT_SCALE as int)
}

/// The most the auction may raise the bought component to: its target holding plus the index's
/// premium ceiling on top.
pub open spec fn buy_cap_of(buy_target: int, max_premium_bps: u16) -> int {
    buy_target + (buy_target * max_premium_bps) / (BPS as int)
}

/// What the bidder pays for `sell_amount` of the sold component at `premium`: its value at the
/// reference price, marked by the premium and rounded up, in base units of the bought component
/// rounded up.
pub open spec fn bid_price(sell: Component, buy: Component, sell_amount: u64, premium: int) -> int {
    let value_out = spec_value_e9(sell_amount as int, sell.decimals as nat, sell.ref_price_e9 as int);
    let value_in = crate::math::ceil_div(value_out * (BPS - premium), BPS as int);
    crate::math::spec_amount_from_value(value_in, buy.decimals as nat, buy.ref_price_e9 as int)
}

/// The outcome of a bid, up to its token movements: the premium in force, the fund's supply,
/// and what the bidder pays, or why the bid is refused.
pub open spec fn bid_outcome(
    program_id: Seq<u8>,
    bidder: AccountView,
    index_info: AccountView,
    index_mint_info: AccountView,
    bidder_receive: AccountView,
    bidder_pay: AccountView,
    token_program: AccountView,
    vaults: Seq<AccountView>,
    sell_component: u8,
    buy_component: u8,
    sell_amount: u64,
    max_buy_amount: u64,
    now: i64,
) -> Result<(int, u64, int), ProgramFault> {
    if bid_opening_failure(
        program_id,
        bidder,
        index_info,
        index_mint_info,
        token_program,
        sell_component,
        buy_component,
        sell_amount,
    ) is Some {
        Err(
            bid_opening_failure(
                program_id,
                bidder,
                index_info,
                index_mint_info,
                token_program,
                sell_component,
                buy_component,
                sell_amount,
            ).unwrap(),
        )
    } else if index_ref_failure(index_info, program_id) is Some {
        Err(index_ref_failure(index_info, program_id).unwrap())
    } else {
        let idx = record_of(index_info.data@);
        let rb = idx.rebalance;
        let s = sell_component as int;
        let b = buy_component as int;
        if idx.state != crate::state::STATE_LIVE {
            Err(
                if idx.state == crate::state::STATE_PAUSED {
                    flock(FlockError::Paused)
                } else {
                    flock(FlockError::NotSealed)
                },
            )
        } else if rb.active == 0 {
            Err(flock(FlockError::NoRebalance))
        } else if now < rb.start_ts || now > rb.end_ts {
            Err(flock(FlockError::AuctionClosed))
        } else if rb.end_ts <= rb.start_ts {
            Err(flock(FlockError::InvalidPremium))
        } else {
            let premium = crate::math::spec_premium(
                rb.start_premium_bps as int,
                rb.end_premium_bps as int,
                rb.start_ts as int,
                rb.end_ts as int,
                now as int,
            );
            if premium > idx.max_premium_bps {
                Err(flock(FlockError::InvalidPremium))
            } else if s >= idx.component_count || b >= idx.component_count {
                Err(flock(FlockError::UnknownComponent))
            } else {
                let sell = idx.components[s];
                let buy = idx.components[b];
                match vaults_outcome(
                    program_id,
                    idx,
                    index_info.key@,
                    index_mint_info.key@,
                    vaults,
                    1,
                ) {
                    Err(e) => Err(e),
                    Ok(balances) => if !mint_readable(index_mint_info) {
                        Err(flock(FlockError::InvalidTokenAccount))
                    } else if supply_of(index_mint_info) == 0 {
                        Err(flock(FlockError::SupplyTooSmall))
                    } else if !is_token_account_of_mint(bidder_receive, sell.mint@)
                        || !is_token_account_of_mint(bidder_pay, buy.mint@) {
                        Err(flock(FlockError::InvalidTokenAccount))
                    } else {
                        let supply = supply_of(index_mint_info);
                        let sell_target = target_holding(sell.target_units, supply);
                        let buy_target = target_holding(buy.target_units, supply);
                        let cap = buy_cap_of(buy_target, idx.max_premium_bps);
                        if sell_target > u64::MAX || buy_target > u64::MAX || cap > u64::MAX {
                            Err(flock(FlockError::MathOverflow))
                        } else if balances[s] <= sell_target {
                            Err(flock(FlockError::SellLegAtTarget))
                        } else if sell_amount > balances[s] - sell_target {
                            Err(flock(FlockError::SellAmountExceedsExcess))
                        } else if balances[b] >= cap {
                            Err(flock(FlockError::BuyLegAtCap))
                        } else if pow10(sell.decimals as nat) > u128::MAX {
                            Err(flock(FlockError::MathOverflow))
                        } else {
                            let value_out = spec_value_e9(
                                sell_amount as int,
                                sell.decimals as nat,
                                sell.ref_price_e9 as int,
                            );
                            let value_in = crate::math::ceil_div(
                                value_out * (BPS - premium),
                                BPS as int,
                            );
                            if BPS - premium < 0 || value_out * (BPS - premium) > u128::MAX {
                                Err(flock(FlockError::MathOverflow))
                            } else if buy.ref_price_e9 == 0 {
                                Err(flock(FlockError::InvalidPrice))
                            } else if pow10(buy.decimals as nat) > u128::MAX || value_in * pow10(
                                buy.decimals as nat,
                            ) > u128::MAX || bid_price(sell, buy, sell_amount, premium)
                                > u64::MAX {
                                Err(flock(FlockError::MathOverflow))
                            } else if bid_price(sell, buy, sell_amount, premium)
                                > max_buy_amount {
                                Err(flock(FlockError::SlippageExceeded))
                            } else if bid_price(sell, buy, sell_amount, premium) > cap
                                - balances[b] {
                                Err(flock(FlockError::BuyAmountExceedsCap))
                            } else {
                                Ok((premium, supply, bid_price(sell, buy, sell_amount, premium)))
                            }
                        }
                    },
                }
            }
        }
    }
}

/// What a bid moves: `buy_amount` of the bought component from the bidder into its vault, and
/// `sell_amount` of the sold component out of its vault to the bidder.
pub struct BidFill {
    pub sell_component: usize,
    pub buy_component: usize,
    pub sell_amount: u64,
    pub buy_amount: u64,
    pub supply: u64,
    pub premium: i32,
}

/// First step of a bid: buy `sell_amount` of one component out of the fund, paying in another,
/// at the auction's current price. Permissionless.
///
/// The fund may only sell what it holds above target, which is what makes the auction
/// convergent. The bought side is capped a little above target, by the index's premium ceiling,
/// so that the early bids that pay the fund more than reference value are not refused.
pub fn bid_begin(
    program_id: &Key,
    bidder: &AccountView,
    index_info: &AccountView,
    index_mint_info: &AccountView,
    bidder_receive: &AccountView,
    bidder_pay: &AccountView,
    token_program: &AccountView,
    vaults: &[AccountView],
    sell_component: u8,
    buy_component: u8,
    sell_amount: u64,
    max_buy_amount: u64,
    now: i64,
) -> (r: Result<BidFill, ProgramFault>)
    requires
        count_byte_fits(index_info.data@),
    ensures
        ({
            let outcome = bid_outcome(
                program_id@,
                *bidder,
                *index_info,
                *index_mint_info,
                *bidder_receive,
                *bidder_pay,
                *token_program,
                vaults@,
                sell_component,
                buy_component,
                sell_amount,
                max_buy_amount,
                now,
            );
            match r {
                Ok(f) => {
                    &&& outcome == Ok::<(int, u64, int), ProgramFault>(
                        (f.premium as int, f.supply, f.buy_amount as int),
                    )
                    &&& f.sell_component == sell_component
                    &&& f.buy_component == buy_component
                    &&& f.sell_amount == sell_amount
                },
                Err(e) => outcome == Err::<(int, u64, int), ProgramFault>(e),
            }
        }),
{
    require_signer(bidder)?;
    require_token_program(token_program)?;
    check_index_pda(program_id, index_info, &index_mint_info.key)?;
    if sell_component == buy_component {
        return Err(ProgramFault::Flock(FlockError::SameComponent));
    }
    if sell_amount == 0 {
        return Err(ProgramFault::Flock(FlockError::ZeroAmount));
    }
    let s = sell_component as usize;
    let b = buy_component as usize;
    let idx = index_ref(index_info, program_id)?;
    proof {
        lemma_count_fits(*index_info, idx);
    }
    idx.is_live()?;
    if idx.rebalance.active == 0 {
        return Err(ProgramFault::Flock(FlockError::NoRebalance));
    }
    let premium = match premium_at(
        idx.rebalance.start_premium_bps,
        idx.rebalance.end_premium_bps,
        idx.rebalance.start_ts,
        idx.rebalance.end_ts,
        now,
    ) {
        Ok(p) => p,
        Err(e) => return Err(ProgramFault::Flock(e)),
    };
    if premium > idx.max_premium_bps as i32 {
        return Err(ProgramFault::Flock(FlockError::InvalidPremium));
    }
    let sell = idx.component(s)?;
    let buy = idx.component(b)?;
    let balances = verify_vaults(program_id, &idx, &index_info.key, &index_mint_info.key, vaults, 1)?;
    let supply = read_mint(index_mint_info)?.supply;
    if supply == 0 {
        return Err(ProgramFault::Flock(FlockError::SupplyTooSmall));
    }
    require_token_account_of_mint(bidder_receive, &sell.mint)?;
    require_token_account_of_mint(bidder_pay, &buy.mint)?;
    proof {
        vstd::arithmetic::mul::lemma_mul_upper_bound(
            sell.target_units as int,
            u64::MAX as int,
            supply as int,
            u64::MAX as int,
        );
        vstd::arithmetic::mul::lemma_mul_upper_bound(
            buy.target_units as int,
            u64::MAX as int,
            supply as int,
            u64::MAX as int,
        );
    }
    let sell_target = match mul_div_floor(sell.target_units as u128, supply as u128, UNIT_SCALE) {
        Ok(v) => match to_u64(v) {
            Ok(v) => v,
            Err(_) => return Err(ProgramFault::Flock(FlockError::MathOverflow)),
        },
        Err(_) => return Err(ProgramFault::Flock(FlockError::MathOverflow)),
    };
    let buy_target = match mul_div_floor(buy.target_units as u128, supply as u128, UNIT_SCALE) {
        Ok(v) => match to_u64(v) {
            Ok(v) => v,
            Err(_) => return Err(ProgramFault::Flock(FlockError::MathOverflow)),
        },
        Err(_) => return Err(ProgramFault::Flock(FlockError::MathOverflow)),
    };
    proof {
        vstd::arithmetic::mul::lemma_mul_upper_bound(
            buy_target as int,
            u64::MAX as int,
            idx.max_premium_bps as int,
            u16::MAX as int,
        );
    }
    let headroom = match mul_div_floor(buy_target as u128, idx.max_premium_bps as u128, BPS) {
        Ok(v) => match to_u64(v) {
            Ok(v) => v,
            Err(_) => return Err(ProgramFault::Flock(FlockError::MathOverflow)),
        },
        Err(_) => return Err(ProgramFault::Flock(FlockError::MathOverflow)),
    };
    let buy_cap = match buy_target.checked_add(headroom) {
        Some(c) => c,
        None => return Err(ProgramFault::Flock(FlockError::MathOverflow)),
    };
    if balances[s] <= sell_target {
        return Err(ProgramFault::Flock(FlockError::SellLegAtTarget));
    }
    if sell_amount > balances[s] - sell_target {
        return Err(ProgramFault::Flock(FlockError::SellAmountExceedsExcess));
    }
    if balances[b] >= buy_cap {
        return Err(ProgramFault::Flock(FlockError::BuyLegAtCap));
    }
    let value_out = match value_e9(sell_amount, sell.decimals, sell.ref_price_e9) {
        Ok(v) => v,
        Err(_) => return Err(ProgramFault::Flock(FlockError::MathOverflow)),
    };
    let marked_signed = BPS as i128 - premium as i128;
    if marked_signed < 0 {
        return Err(ProgramFault::Flock(FlockError::MathOverflow));
    }
    let marked = marked_signed as u128;
    let value_in = match mul_div_ceil(value_out, marked, BPS) {
        Ok(v) => v,
        Err(_) => return Err(ProgramFault::Flock(FlockError::MathOverflow)),
    };
    let buy_amount = match amount_from_value_ceil(value_in, buy.decimals, buy.ref_price_e9) {
        Ok(v) => v,
        Err(e) => return Err(ProgramFault::Flock(e)),
    };
    if buy_amount > max_buy_amount {
        return Err(ProgramFault::Flock(FlockError::SlippageExceeded));
    }
    if buy_amount > buy_cap - balances[b] {
        return Err(ProgramFault::Flock(FlockError::BuyAmountExceedsCap));
    }
    Ok(BidFill {
        sell_component: s,
        buy_component: b,
        sell_amount,
        buy_amount,
        supply,
        premium,
    })
}

/// The outcome of a bid's second step, after its transfers: the fund's NAV at the reference
/// prices must still be at or above the floor the proposal committed to, and the units are
/// re-derived at the supply the bid was priced at.
pub open spec fn bid_finish_outcome(
    program_id: Seq<u8>,
    index_info: AccountView,
    index_mint_info: AccountView,
    vaults: Seq<AccountView>,
    supply: u64,
) -> Result<Index, ProgramFault> {
    match index_ref_failure(index_info, program_id) {
        Some(f) => Err(f),
        None => {
            let idx = record_of(index_info.data@);
            match vaults_outcome(program_id, idx, index_info.key@, index_mint_info.key@, vaults, 1) {
                Err(e) => Err(e),
                Ok(balances) => {
                    let nav = nav_sum(idx, balances, idx.component_count as int);
                    if !scales_fit(idx) || nav > u128::MAX || nav / 1000 > u64::MAX {
                        Err(flock(FlockError::MathOverflow))
                    } else if nav / 1000 < idx.rebalance.nav_floor_e6 {
                        Err(flock(FlockError::NavFloorBreached))
                    } else if supply != 0 && !units_fit(idx, balances, supply) {
                        Err(flock(FlockError::MathOverflow))
                    } else {
                        Ok(synced_record(idx, balances, supply))
                    }
                },
            }
        },
    }
}

/// Second step of a bid: refuse it if it took the fund below its NAV floor, and re-derive units.
pub fn bid_finish(
    program_id: &Key,
    index_info: &AccountView,
    index_mint_info: &AccountView,
    vaults: &[AccountView],
    supply: u64,
) -> (r: Result<Index, ProgramFault>)
    requires
        count_byte_fits(index_info.data@),
    ensures
        r matches Ok(a) ==> same_schedule(record_of(index_info.data@), a),
        r == bid_finish_outcome(program_id@, *index_info, *index_mint_info, vaults@, supply),
        r matches Ok(new) ==> vaults_outcome(
            program_id@,
            record_of(index_info.data@),
            index_info.key@,
            index_mint_info.key@,
            vaults@,
            1,
        ) matches Ok(b) && all_backed(new, b, supply),
{
    let idx = index_ref(index_info, program_id)?;
    proof {
        lemma_count_fits(*index_info, idx);
    }
    let balances = verify_vaults(program_id, &idx, &index_info.key, &index_mint_info.key, vaults, 1)?;
    let nav = nav_e6(&idx, &balances)?;
    if nav < idx.rebalance.nav_floor_e6 {
        return Err(ProgramFault::Flock(FlockError::NavFloorBreached));
    }
    let r = sync_units(&idx, &balances, supply);
    proof {
        if let Ok(new) = r {
            if supply != 0 {
                lemma_synced_record(idx, new, balances@, supply);
                lemma_synced_units_backed(idx, new, balances@, supply);
            } else {
                lemma_nothing_claimed(new, balances@);
            }
        }
    }
    r
}

// ---------------------------------------------------------------------------------------------
// bootstrapping
// ---------------------------------------------------------------------------------------------

/// Arguments of index creation.
pub struct InitParams {
    pub name: [u8; 32],
    pub symbol: [u8; 12],
    pub streaming_fee_bps: u16,
    pub issue_fee_bps: u16,
    pub redeem_fee_bps: u16,
    pub max_premium_bps: u16,
    pub rebalance_delay: u32,
}

/// The outcome of the checks before an index account is created: the payer signs, the system
/// program is the real one, the fees are inside their caps, the index account is the empty
/// account at the address derived from the mint, and the mint is already under that address's
/// sole control with 9 decimals, nothing minted, and no freeze authority.
pub open spec fn init_outcome(
    program_id: Seq<u8>,
    payer: AccountView,
    index_info: AccountView,
    index_mint_info: AccountView,
    system_program: AccountView,
    p: InitParams,
) -> Result<u8, ProgramFault> {
    if !payer.is_signer {
        Err(flock(FlockError::MissingSignature))
    } else if system_program.key@ != system_program_id() {
        Err(flock(FlockError::InvalidTokenAccount))
    } else if fees_failure(
        p.streaming_fee_bps,
        p.issue_fee_bps,
        p.redeem_fee_bps,
        p.max_premium_bps,
        p.rebalance_delay,
    ) is Some {
        Err(
            fees_failure(
                p.streaming_fee_bps,
                p.issue_fee_bps,
                p.redeem_fee_bps,
                p.max_premium_bps,
                p.rebalance_delay,
            ).unwrap(),
        )
    } else {
        match index_address(program_id, index_mint_info.key@) {
            None => Err(ProgramFault::InvalidSeeds),
            Some((index_key, bump)) => if index_info.key@ != index_key {
                Err(flock(FlockError::SeedsMismatch))
            } else if index_info.data@.len() != 0 {
                Err(ProgramFault::AccountAlreadyInitialized)
            } else if !mint_readable(index_mint_info) {
                Err(flock(FlockError::InvalidTokenAccount))
            } else {
                let m = unpacked_mint(index_mint_info.data@).unwrap();
                if m.2 != crate::state::INDEX_DECIMALS || m.1 != 0 || m.3 is Some || m.0 != Some(
                    index_key,
                ) {
                    Err(flock(FlockError::InvalidIndexMint))
                } else {
                    Ok(bump)
                }
            },
        }
    }
}

/// The index account to create, once every check has passed: its address and bump seed.
pub struct IndexCreation {
    pub index_key: Key,
    pub bump: u8,
}

/// Create an index around an existing mint whose authority is already the index address.
///
/// A freeze authority held by anyone would let that party stop redemptions, which is the one
/// exposure a holder of an index must never have, so a mint with one is refused.
pub fn init_index(
    program_id: &Key,
    payer: &AccountView,
    index_info: &AccountView,
    index_mint_info: &AccountView,
    system_program: &AccountView,
    p: &InitParams,
) -> (r: Result<IndexCreation, ProgramFault>)
    ensures
        match r {
            Ok(c) => init_outcome(
                program_id@,
                *payer,
                *index_info,
                *index_mint_info,
                *system_program,
                *p,
            ) == Ok::<u8, ProgramFault>(c.bump) && c.index_key@ == index_info.key@,
            Err(e) => init_outcome(
                program_id@,
                *payer,
                *index_info,
                *index_mint_info,
                *system_program,
                *p,
            ) == Err::<u8, ProgramFault>(e),
        },
{
    require_signer(payer)?;
    require_system_program(system_program)?;
    check_fees(
        p.streaming_fee_bps,
        p.issue_fee_bps,
        p.redeem_fee_bps,
        p.max_premium_bps,
        p.rebalance_delay,
    )?;
    let (index_key, bump) = match index_pda(program_id, &index_mint_info.key) {
        Some(pair) => pair,
        None => return Err(ProgramFault::InvalidSeeds),
    };
    require_key(index_info, &index_key)?;
    if index_info.data.len() != 0 {
        return Err(ProgramFault::AccountAlreadyInitialized);
    }
    let mint = read_mint(index_mint_info)?;
    let authority_ok = match mint.mint_authority {
        Some(k) => k.same(&index_key),
        None => false,
    };
    if mint.decimals != crate::state::INDEX_DECIMALS || mint.supply != 0
        || mint.freeze_authority.is_some() || !authority_ok {
        return Err(ProgramFault::Flock(FlockError::InvalidIndexMint));
    }
    Ok(IndexCreation { index_key, bump })
}

/// The record of a freshly created index account, which the runtime hands over zero-filled.
pub open spec fn zero_record() -> Index {
    record_of(Seq::new(INDEX_LEN as nat, |i: int| 0u8))
}

/// The first record of a new index: bootstrapping, with its roles, fees, names and clocks set
/// and every other field zero.
pub fn new_index_record(
    index_mint: &Key,
    governor: &Key,
    manager: &Key,
    fee_recipient: &Key,
    bump: u8,
    p: &InitParams,
    now: i64,
) -> (idx: Index)
    ensures
        idx == (Index {
            tag: crate::state::ACCOUNT_TAG_INDEX,
            version: crate::state::STATE_VERSION,
            bump,
            state: STATE_BOOTSTRAPPING,
            decimals: crate::state::INDEX_DECIMALS,
            index_mint: *index_mint,
            governor: *governor,
            manager: *manager,
            fee_recipient: *fee_recipient,
            streaming_fee_bps: p.streaming_fee_bps,
            issue_fee_bps: p.issue_fee_bps,
            redeem_fee_bps: p.redeem_fee_bps,
            max_premium_bps: p.max_premium_bps,
            rebalance_delay: p.rebalance_delay,
            last_fee_accrual: now,
            created_at: now,
            name: p.name,
            symbol: p.symbol,
            ..zero_record()
        }),
{
    let mut idx = Index::zeroed();
    proof {
        lemma_record_of(Seq::new(INDEX_LEN as nat, |i: int| 0u8), idx);
    }
    idx.tag = crate::state::ACCOUNT_TAG_INDEX;
    idx.version = crate::state::STATE_VERSION;
    idx.bump = bump;
    idx.state = STATE_BOOTSTRAPPING;
    idx.decimals = crate::state::INDEX_DECIMALS;
    idx.index_mint = *index_mint;
    idx.governor = *governor;
    idx.manager = *manager;
    idx.fee_recipient = *fee_recipient;
    idx.streaming_fee_bps = p.streaming_fee_bps;
    idx.issue_fee_bps = p.issue_fee_bps;
    idx.redeem_fee_bps = p.redeem_fee_bps;
    idx.max_premium_bps = p.max_premium_bps;
    idx.rebalance_delay = p.rebalance_delay;
    idx.last_fee_accrual = now;
    idx.created_at = now;
    idx.name = p.name;
    idx.symbol = p.symbol;
    idx
}

/// The outcome of adding a component: the manager of a bootstrapping index with room left adds
/// a mint it does not hold yet, at a nonzero recipe, with its vault at the address derived for
/// it. The vault address and bump come back.
pub open spec fn add_component_outcome(
    program_id: Seq<u8>,
    manager: AccountView,
    payer: AccountView,
    index_info: AccountView,
    index_mint_info: AccountView,
    component_mint_info: AccountView,
    vault_info: AccountView,
    system_program: AccountView,
    token_program: AccountView,
    units: u64,
) -> Result<u8, ProgramFault> {
    if !manager.is_signer || !payer.is_signer {
        Err(flock(FlockError::MissingSignature))
    } else if system_program.key@ != system_program_id() {
        Err(flock(FlockError::InvalidTokenAccount))
    } else if token_program.key@ != token_program_id() {
        Err(flock(FlockError::InvalidTokenAccount))
    } else if index_pda_failure(program_id, index_info, index_mint_info.key@) is Some {
        Err(index_pda_failure(program_id, index_info, index_mint_info.key@).unwrap())
    } else if units == 0 {
        Err(flock(FlockError::ZeroAmount))
    } else if index_ref_failure(index_info, program_id) is Some {
        Err(index_ref_failure(index_info, program_id).unwrap())
    } else {
        let idx = record_of(index_info.data@);
        if idx.manager@ != manager.key@ {
            Err(flock(FlockError::NotManager))
        } else if idx.state != STATE_BOOTSTRAPPING {
            Err(flock(FlockError::AlreadySealed))
        } else if idx.component_count as usize >= MAX_COMPONENTS {
            Err(flock(FlockError::TooManyComponents))
        } else if crate::state::has_component(idx, component_mint_info.key@) {
            Err(flock(FlockError::DuplicateComponent))
        } else if !mint_readable(component_mint_info) {
            Err(flock(FlockError::InvalidTokenAccount))
        } else {
            match derived_address(
                vault_seeds(index_mint_info.key@, component_mint_info.key@),
                program_id,
            ) {
                None => Err(ProgramFault::InvalidSeeds),
                Some((vault_key, vault_bump)) => if vault_info.key@ != vault_key {
                    Err(flock(FlockError::SeedsMismatch))
                } else {
                    Ok(vault_bump)
                },
            }
        }
    }
}

/// `new` is `idx` with one more component: `mint` at a recipe of `units` per token, its target
/// equal to its recipe, no reference price yet, and its decimals and vault bump recorded.
pub open spec fn component_added(
    idx: Index,
    new: Index,
    mint: Key,
    units: u64,
    decimals: u8,
    vault_bump: u8,
) -> bool {
    let slot = idx.component_count as int;
    &&& new == (Index {
        components: new.components,
        component_count: (idx.component_count + 1) as u8,
        ..idx
    })
    &&& forall|i: int| 0 <= i < MAX_COMPONENTS && i != slot ==> #[trigger] new.components[i]
        == idx.components[i]
    &&& new.components[slot].mint == mint
    &&& new.components[slot].units == units
    &&& new.components[slot].target_units == units
    &&& new.components[slot].ref_price_e9 == 0
    &&& new.components[slot].decimals == decimals
    &&& new.components[slot].vault_bump == vault_bump
    &&& new.components[slot]._pad@ == Seq::new(6, |i: int| 0u8)
}

/// The component being added: the record to store once its vault exists, and the vault to
/// create and initialize.
pub struct ComponentAddition {
    pub index: Index,
    pub vault_key: Key,
    pub vault_bump: u8,
}

/// Manager: add a component while bootstrapping, with its vault at the address derived from
/// the index mint and the component mint.
pub fn add_component(
    program_id: &Key,
    manager: &AccountView,
    payer: &AccountView,
    index_info: &AccountView,
    index_mint_info: &AccountView,
    component_mint_info: &AccountView,
    vault_info: &AccountView,
    system_program: &AccountView,
    token_program: &AccountView,
    units: u64,
) -> (r: Result<ComponentAddition, ProgramFault>)
    ensures
        r matches Ok(a) ==> same_schedule(record_of(index_info.data@), a.index),
        ({
            let outcome = add_component_outcome(
                program_id@,
                *manager,
                *payer,
                *index_info,
                *index_mint_info,
                *component_mint_info,
                *vault_info,
                *system_program,
                *token_program,
                units,
            );
            match r {
                Ok(a) => {
                    &&& outcome == Ok::<u8, ProgramFault>(a.vault_bump)
                    &&& a.vault_key@ == vault_info.key@
                    &&& component_added(
                        record_of(index_info.data@),
                        a.index,
                        component_mint_info.key,
                        units,
                        unpacked_mint(component_mint_info.data@).unwrap().2,
                        a.vault_bump,
                    )
                },
                Err(e) => outcome == Err::<u8, ProgramFault>(e),
            }
        }),
{
    require_signer(manager)?;
    require_signer(payer)?;
    require_system_program(system_program)?;
    require_token_program(token_program)?;
    check_index_pda(program_id, index_info, &index_mint_info.key)?;
    if units == 0 {
        return Err(ProgramFault::Flock(FlockError::ZeroAmount));
    }
    let idx = index_ref(index_info, program_id)?;
    if !idx.manager.same(&manager.key) {
        return Err(ProgramFault::Flock(FlockError::NotManager));
    }
    if idx.state != STATE_BOOTSTRAPPING {
        return Err(ProgramFault::Flock(FlockError::AlreadySealed));
    }
    if idx.component_count as usize >= MAX_COMPONENTS {
        return Err(ProgramFault::Flock(FlockError::TooManyComponents));
    }
    if idx.find_component(&component_mint_info.key).is_some() {
        return Err(ProgramFault::Flock(FlockError::DuplicateComponent));
    }
    let decimals = read_mint(component_mint_info)?.decimals;
    let (vault_key, vault_bump) = match vault_pda(
        program_id,
        &index_mint_info.key,
        &component_mint_info.key,
    ) {
        Some(pair) => pair,
        None => return Err(ProgramFault::InvalidSeeds),
    };
    require_key(vault_info, &vault_key)?;
    let mut new = idx;
    let slot = idx.component_count as usize;
    new.components[slot] = Component {
        mint: component_mint_info.key,
        units,
        target_units: units,
        ref_price_e9: 0,
        decimals,
        vault_bump,
        _pad: [0u8; 6],
    };
    new.component_count = idx.component_count + 1;
    assert(new.components[slot as int]._pad@ =~= Seq::new(6, |i: int| 0u8));
    Ok(ComponentAddition { index: new, vault_key, vault_bump })
}

// ---------------------------------------------------------------------------------------------
// laws
// ---------------------------------------------------------------------------------------------

/// A walk that does not pass everywhere has a first failing item.
proof fn lemma_walk_has_first_failure(n: int, check: spec_fn(int) -> Result<u64, ProgramFault>)
    requires
        0 <= n,
        !walk_ok(n, check),
    ensures
        exists|e: ProgramFault| #[trigger] walk_failure_is(n, check, e),
    decreases n,
{
    if walk_ok(n - 1, check) {
        let e = check(n - 1)->Err_0;
        assert(walk_failure_is(n, check, e));
    } else {
        lemma_walk_has_first_failure(n - 1, check);
        let e = choose|e: ProgramFault| #[trigger] walk_failure_is(n - 1, check, e);
        let i = choose|i: int|
            0 <= i < n - 1 && #[trigger] check(i) == Err::<u64, ProgramFault>(e) && forall|j: int|
                0 <= j < i ==> (#[trigger] check(j)) is Ok;
        assert(walk_failure_is(n, check, e));
    }
}

/// A walk fails only with what one of its items fails with.
proof fn lemma_walk_error_is_an_item_error(
    n: int,
    check: spec_fn(int) -> Result<u64, ProgramFault>,
    e: ProgramFault,
)
    requires
        0 <= n,
        walk_outcome(n, check) == Err::<Seq<u64>, ProgramFault>(e),
    ensures
        exists|i: int| 0 <= i < n && #[trigger] check(i) == Err::<u64, ProgramFault>(e),
{
    lemma_walk_has_first_failure(n, check);
    let i = choose|i: int|
        0 <= i < n && #[trigger] check(i) == Err::<u64, ProgramFault>(e) && forall|j: int|
            0 <= j < i ==> (#[trigger] check(j)) is Ok;
}

/// A pause never stops redemption: neither step of a redeem is ever refused because the index
/// is paused, whatever the accounts and amounts.
pub proof fn lemma_pause_never_stops_redemption(
    program_id: Seq<u8>,
    user: AccountView,
    index_info: AccountView,
    index_mint_info: AccountView,
    user_index_ata: AccountView,
    fee_ata: AccountView,
    token_program: AccountView,
    rest: Seq<AccountView>,
    amount: u64,
    min_out: Seq<u64>,
    now: i64,
)
    ensures
        redeem_begin_outcome(
            program_id,
            user,
            index_info,
            index_mint_info,
            user_index_ata,
            fee_ata,
            token_program,
            rest.len() as int,
            amount,
            min_out.len() as int,
            now,
        ) != Err::<u64, ProgramFault>(flock(FlockError::Paused)),
        redeem_settle_outcome(program_id, index_info, index_mint_info, fee_ata, rest, amount, min_out)
            != Err::<(Index, u64, Seq<u64>), ProgramFault>(flock(FlockError::Paused)),
{
    let paused = flock(FlockError::Paused);
    if index_ref_failure(index_info, program_id) is None {
        let idx = record_of(index_info.data@);
        let n = idx.component_count as int;
        if min_out.len() == n && rest.len() == 2 * n {
            let vaults = vault_walk(program_id, idx, index_info.key@, index_mint_info.key@, rest, 2);
            if vaults_outcome(program_id, idx, index_info.key@, index_mint_info.key@, rest, 2)
                == Err::<Seq<u64>, ProgramFault>(paused) {
                lemma_walk_error_is_an_item_error(n, vaults, paused);
                let i = choose|i: int|
                    0 <= i < n && #[trigger] vaults(i) == Err::<u64, ProgramFault>(paused);
                assert(vaults(i) != Err::<u64, ProgramFault>(paused));
            }
            match vaults_outcome(program_id, idx, index_info.key@, index_mint_info.key@, rest, 2) {
                Ok(b) => {
                    let supply = supply_of(index_mint_info);
                    let synced = synced_record(idx, b, supply);
                    let fee = fee_on(amount, synced.redeem_fee_bps);
                    let payouts = payout_walk(synced, amount - fee, min_out, rest);
                    if walk_outcome(n, payouts) == Err::<Seq<u64>, ProgramFault>(paused) {
                        lemma_walk_error_is_an_item_error(n, payouts, paused);
                        let i = choose|i: int|
                            0 <= i < n && #[trigger] payouts(i) == Err::<u64, ProgramFault>(paused);
                        assert(payouts(i) != Err::<u64, ProgramFault>(paused));
                    }
                },
                Err(_) => {},
            }
        }
    }
}

/// A pause stops issuance: once the opening checks pass and the record reads, a paused index
/// refuses an issue as paused.
pub proof fn lemma_pause_stops_issuance(
    program_id: Seq<u8>,
    user: AccountView,
    index_info: AccountView,
    index_mint_info: AccountView,
    user_index_ata: AccountView,
    fee_ata: AccountView,
    token_program: AccountView,
    rest_len: int,
    amount: u64,
    max_in_len: int,
    now: i64,
)
    requires
        opening_failure(program_id, user, index_info, index_mint_info, token_program, amount) is None,
        index_ref_failure(index_info, program_id) is None,
        record_of(index_info.data@).state == crate::state::STATE_PAUSED,
    ensures
        issue_begin_outcome(
            program_id,
            user,
            index_info,
            index_mint_info,
            user_index_ata,
            fee_ata,
            token_program,
            rest_len,
            amount,
            max_in_len,
            now,
        ) == Err::<u64, ProgramFault>(flock(FlockError::Paused)),
{
}

/// Either authority can pause; only the governor can resume. A pause or resume that goes through
/// was signed by the governor, or, for a pause, by the manager.
pub proof fn lemma_only_the_governor_resumes(
    program_id: Seq<u8>,
    caller: AccountView,
    index_info: AccountView,
    index_mint_info: AccountView,
    paused: bool,
)
    requires
        set_paused_outcome(program_id, caller, index_info, index_mint_info, paused) is Ok,
    ensures
        caller.is_signer,
        !paused ==> record_of(index_info.data@).governor@ == caller.key@,
        paused ==> record_of(index_info.data@).governor@ == caller.key@ || record_of(
            index_info.data@,
        ).manager@ == caller.key@,
{
}

/// The hard caps: the fee schedule, the premium ceiling and the notice period of a record.
pub open spec fn within_caps(idx: Index) -> bool {
    &&& idx.streaming_fee_bps <= MAX_STREAMING_FEE_BPS
    &&& idx.issue_fee_bps <= MAX_MINT_REDEEM_FEE_BPS
    &&& idx.redeem_fee_bps <= MAX_MINT_REDEEM_FEE_BPS
    &&& idx.max_premium_bps <= MAX_PREMIUM_CEILING_BPS
    &&& idx.rebalance_delay >= MIN_REBALANCE_DELAY
}

/// The hard caps hold in every state: a record inside them stays inside them through every
/// handler but the governor's fee change, since each of those returns a record that charges what
/// the record it read charged (their `same_schedule` clauses), and the fee change itself only
/// sets values inside them.
pub proof fn lemma_caps_hold_in_every_state(old: Index, new: Index)
    requires
        within_caps(old),
        same_schedule(old, new),
    ensures
        within_caps(new),
{
}

/// Only the governor, signing, changes the fee schedule, and whatever it sets is inside the hard
/// caps. The manager, or anyone else, is refused.
pub proof fn lemma_only_the_governor_sets_fees_inside_the_caps(
    program_id: Seq<u8>,
    governor: AccountView,
    index_info: AccountView,
    index_mint_info: AccountView,
    fee_ata: AccountView,
    token_program: AccountView,
    streaming_fee_bps: u16,
    issue_fee_bps: u16,
    redeem_fee_bps: u16,
    max_premium_bps: u16,
    rebalance_delay: u32,
    now: i64,
)
    requires
        set_params_outcome(
            program_id,
            governor,
            index_info,
            index_mint_info,
            fee_ata,
            token_program,
            streaming_fee_bps,
            issue_fee_bps,
            redeem_fee_bps,
            max_premium_bps,
            rebalance_delay,
            now,
        ) is Ok,
    ensures
        governor.is_signer,
        record_of(index_info.data@).governor@ == governor.key@,
        within_caps(
            rescheduled(
                record_of(index_info.data@),
                streaming_fee_bps,
                issue_fee_bps,
                redeem_fee_bps,
                max_premium_bps,
                rebalance_delay,
            ),
        ),
{
}

/// Only the governor, signing, hands a role to a new key.
pub proof fn lemma_only_the_governor_moves_roles(
    program_id: Seq<u8>,
    governor: AccountView,
    index_info: AccountView,
    index_mint_info: AccountView,
    role: u8,
    new_authority: Key,
)
    requires
        set_authority_outcome(program_id, governor, index_info, index_mint_info, role, new_authority)
            is Ok,
    ensures
        governor.is_signer,
        record_of(index_info.data@).governor@ == governor.key@,
{
}

/// An index is created inside the hard caps.
pub proof fn lemma_new_index_inside_the_caps(
    program_id: Seq<u8>,
    payer: AccountView,
    index_info: AccountView,
    index_mint_info: AccountView,
    system_program: AccountView,
    p: InitParams,
    idx: Index,
)
    requires
        init_outcome(program_id, payer, index_info, index_mint_info, system_program, p) is Ok,
        idx.streaming_fee_bps == p.streaming_fee_bps,
        idx.issue_fee_bps == p.issue_fee_bps,
        idx.redeem_fee_bps == p.redeem_fee_bps,
        idx.max_premium_bps == p.max_premium_bps,
        idx.rebalance_delay == p.rebalance_delay,
    ensures
        within_caps(idx),
{
}

/// The guards on a fill. A bid that goes through sells no more than the fund holds above the
/// sold leg's target, pays no more than the bidder's bound, and leaves the bought leg at or below
/// its cap, all against the vault balances as checked.
pub proof fn lemma_a_fill_respects_the_targets(
    program_id: Seq<u8>,
    bidder: AccountView,
    index_info: AccountView,
    index_mint_info: AccountView,
    bidder_receive: AccountView,
    bidder_pay: AccountView,
    token_program: AccountView,
    vaults: Seq<AccountView>,
    sell_component: u8,
    buy_component: u8,
    sell_amount: u64,
    max_buy_amount: u64,
    now: i64,
)
    requires
        bid_outcome(
            program_id,
            bidder,
            index_info,
            index_mint_info,
            bidder_receive,
            bidder_pay,
            token_program,
            vaults,
            sell_component,
            buy_component,
            sell_amount,
            max_buy_amount,
            now,
        ) is Ok,
    ensures
        ({
            let idx = record_of(index_info.data@);
            let (premium, supply, buy_amount) = bid_outcome(
                program_id,
                bidder,
                index_info,
                index_mint_info,
                bidder_receive,
                bidder_pay,
                token_program,
                vaults,
                sell_component,
                buy_component,
                sell_amount,
                max_buy_amount,
                now,
            )->Ok_0;
            let b = vaults_outcome(
                program_id,
                idx,
                index_info.key@,
                index_mint_info.key@,
                vaults,
                1,
            )->Ok_0;
            let s = sell_component as int;
            let t = buy_component as int;
            &&& s != t
            &&& idx.rebalance.active != 0
            &&& idx.rebalance.start_ts <= now <= idx.rebalance.end_ts
            &&& premium <= idx.max_premium_bps
            &&& sell_amount <= b[s] - target_holding(idx.components[s].target_units, supply)
            &&& buy_amount <= max_buy_amount
            &&& b[t] + buy_amount <= buy_cap_of(
                target_holding(idx.components[t].target_units, supply),
                idx.max_premium_bps,
            )
        }),
{
}

/// A change of fee schedule settles the fee clock first. On a sealed index the update owes the
/// fee recipient exactly the streaming fee at the old rate for the time since the last accrual;
/// `set_params` then stores the clock at `now`, so the new rate bills nothing before the change.
pub proof fn lemma_a_fee_change_settles_the_clock(
    program_id: Seq<u8>,
    governor: AccountView,
    index_info: AccountView,
    index_mint_info: AccountView,
    fee_ata: AccountView,
    token_program: AccountView,
    streaming_fee_bps: u16,
    issue_fee_bps: u16,
    redeem_fee_bps: u16,
    max_premium_bps: u16,
    rebalance_delay: u32,
    now: i64,
)
    requires
        set_params_outcome(
            program_id,
            governor,
            index_info,
            index_mint_info,
            fee_ata,
            token_program,
            streaming_fee_bps,
            issue_fee_bps,
            redeem_fee_bps,
            max_premium_bps,
            rebalance_delay,
            now,
        ) is Ok,
        record_of(index_info.data@).state != STATE_BOOTSTRAPPING,
    ensures
        ({
            let idx = record_of(index_info.data@);
            set_params_outcome(
                program_id,
                governor,
                index_info,
                index_mint_info,
                fee_ata,
                token_program,
                streaming_fee_bps,
                issue_fee_bps,
                redeem_fee_bps,
                max_premium_bps,
                rebalance_delay,
                now,
            ) == Ok::<u64, ProgramFault>(
                crate::math::spec_fee_tokens(
                    supply_of(index_mint_info) as int,
                    idx.streaming_fee_bps as int,
                    saturating_sub_i64(now, idx.last_fee_accrual) as int,
                ) as u64,
            )
        }),
{
}

/// Anyone may close an expired auction; only the manager may close one that is still running.
pub proof fn lemma_only_the_manager_closes_a_running_auction(
    program_id: Seq<u8>,
    caller: AccountView,
    index_info: AccountView,
    index_mint_info: AccountView,
    vaults: Seq<AccountView>,
    now: i64,
)
    requires
        end_rebalance_outcome(program_id, caller, index_info, index_mint_info, vaults, now) is Ok,
    ensures
        caller.is_signer,
        record_of(index_info.data@).rebalance.active != 0,
        now <= record_of(index_info.data@).rebalance.end_ts ==> record_of(index_info.data@).manager@
            == caller.key@,
{
}

/// A proposal that passes its checks comes from the manager of a live index with no auction
/// running, and its premium band opens in the fund's favour, decays toward the bidder, and stays
/// inside the index's ceiling, as does the NAV loss it allows.
pub proof fn lemma_a_proposal_stays_inside_the_ceiling(
    program_id: Seq<u8>,
    manager: AccountView,
    index_info: AccountView,
    index_mint_info: AccountView,
    vaults: Seq<AccountView>,
    targets: Seq<u64>,
    prices: Seq<u64>,
    p: AuctionParams,
)
    requires
        propose_failure(program_id, manager, index_info, index_mint_info, vaults, targets, prices, p)
            is None,
    ensures
        ({
            let idx = record_of(index_info.data@);
            &&& manager.is_signer
            &&& idx.manager@ == manager.key@
            &&& idx.state == crate::state::STATE_LIVE
            &&& idx.rebalance.active == 0
            &&& 0 < p.duration <= crate::state::MAX_AUCTION_DURATION
            &&& p.start_premium_bps <= p.end_premium_bps
            &&& p.end_premium_bps <= idx.max_premium_bps as i16
            &&& p.start_premium_bps >= neg_wrap_i16(idx.max_premium_bps as i16)
            &&& p.max_nav_loss_bps <= idx.max_premium_bps
            &&& forall|i: int| 0 <= i < prices.len() ==> #[trigger] prices[i] != 0
        }),
{
}

/// Two records that differ only in whether the index is paused.
pub open spec fn differs_only_in_state(a: Index, b: Index) -> bool {
    a == Index { state: a.state, ..b }
}

/// Re-deriving the units of two records that differ only in their state gives two records that
/// differ only in their state.
proof fn lemma_sync_ignores_state(a: Index, b: Index, balances: Seq<u64>, supply: u64)
    requires
        count_fits(b),
        differs_only_in_state(a, b),
    ensures
        synced_record(a, balances, supply) == (Index {
            state: a.state,
            ..synced_record(b, balances, supply)
        }),
{
    if supply != 0 {
        lemma_synced_record_is_synced(b, balances, supply);
        let sb = synced_record(b, balances, supply);
        let cand = Index { state: a.state, ..sb };
        assert(units_synced(a, cand, balances, supply));
        lemma_synced_record(a, cand, balances, supply);
    }
}

/// A pause never stops redemption, and never changes it. An index account that differs from a
/// live one only in being paused gets the same answer from each step of a redeem: the same
/// refusal, or the same fee accrual, fee tokens and payouts, with records that differ only in the
/// pause.
pub proof fn lemma_a_paused_redeem_is_a_live_redeem(
    program_id: Seq<u8>,
    user: AccountView,
    live_info: AccountView,
    paused_info: AccountView,
    index_mint_info: AccountView,
    user_index_ata: AccountView,
    fee_ata: AccountView,
    token_program: AccountView,
    rest: Seq<AccountView>,
    amount: u64,
    min_out: Seq<u64>,
    now: i64,
)
    requires
        paused_info.key@ == live_info.key@,
        index_ref_failure(live_info, program_id) is None,
        index_ref_failure(paused_info, program_id) is None,
        count_fits(record_of(live_info.data@)),
        record_of(live_info.data@).state == crate::state::STATE_LIVE,
        record_of(paused_info.data@) == (Index {
            state: crate::state::STATE_PAUSED,
            ..record_of(live_info.data@)
        }),
    ensures
        redeem_begin_outcome(
            program_id,
            user,
            paused_info,
            index_mint_info,
            user_index_ata,
            fee_ata,
            token_program,
            rest.len() as int,
            amount,
            min_out.len() as int,
            now,
        ) == redeem_begin_outcome(
            program_id,
            user,
            live_info,
            index_mint_info,
            user_index_ata,
            fee_ata,
            token_program,
            rest.len() as int,
            amount,
            min_out.len() as int,
            now,
        ),
        match redeem_settle_outcome(
            program_id,
            live_info,
            index_mint_info,
            fee_ata,
            rest,
            amount,
            min_out,
        ) {
            Ok((synced, fee, payouts)) => redeem_settle_outcome(
                program_id,
                paused_info,
                index_mint_info,
                fee_ata,
                rest,
                amount,
                min_out,
            ) == Ok::<(Index, u64, Seq<u64>), ProgramFault>(
                (Index { state: crate::state::STATE_PAUSED, ..synced }, fee, payouts),
            ),
            Err(e) => redeem_settle_outcome(
                program_id,
                paused_info,
                index_mint_info,
                fee_ata,
                rest,
                amount,
                min_out,
            ) == Err::<(Index, u64, Seq<u64>), ProgramFault>(e),
        },
{
    let il = record_of(live_info.data@);
    let ip = record_of(paused_info.data@);
    let n = il.component_count as int;
    let key = live_info.key@;
    let mkey = index_mint_info.key@;
    assert(vault_walk(program_id, ip, key, mkey, rest, 2) =~= vault_walk(
        program_id,
        il,
        key,
        mkey,
        rest,
        2,
    ));
    assert(vaults_outcome(program_id, ip, key, mkey, rest, 2) == vaults_outcome(
        program_id,
        il,
        key,
        mkey,
        rest,
        2,
    ));
    match vaults_outcome(program_id, il, key, mkey, rest, 2) {
        Ok(b) => {
            let supply = supply_of(index_mint_info);
            lemma_sync_ignores_state(ip, il, b, supply);
            let sl = synced_record(il, b, supply);
            let sp = synced_record(ip, b, supply);
            let fee = fee_on(amount, sl.redeem_fee_bps);
            assert(payout_walk(sp, amount - fee, min_out, rest) =~= payout_walk(
                sl,
                amount - fee,
                min_out,
                rest,
            ));
        },
        Err(_) => {},
    }
}

/// A walk that passed yields, at each item, what that item's check yielded.
proof fn lemma_walk_values(n: int, check: spec_fn(int) -> Result<u64, ProgramFault>, v: Seq<u64>)
    requires
        0 <= n,
        walk_outcome(n, check) == Ok::<Seq<u64>, ProgramFault>(v),
    ensures
        v.len() == n,
        forall|i: int| 0 <= i < n ==> #[trigger] check(i) == Ok::<u64, ProgramFault>(v[i]),
{
    assert forall|i: int| 0 <= i < n implies #[trigger] check(i) == Ok::<u64, ProgramFault>(v[i]) by {
        assert(check(i) is Ok);
    }
}

/// The record a step priced against is backed by the balances it read, and, where the record
/// it read was backed by them, carries at least its units.
proof fn lemma_priced_against_backed_record(idx: Index, balances: Seq<u64>, supply: u64)
    requires
        count_fits(idx),
        balances.len() == idx.component_count,
        supply == 0 || units_fit(idx, balances, supply),
    ensures
        ({
            let synced = synced_record(idx, balances, supply);
            &&& count_fits(synced)
            &&& synced.component_count == idx.component_count
            &&& all_backed(synced, balances, supply)
            &&& all_backed(idx, balances, supply) ==> forall|i: int|
                0 <= i < idx.component_count ==> #[trigger] synced.components[i].units
                    >= idx.components[i].units
        }),
{
    let synced = synced_record(idx, balances, supply);
    if supply == 0 {
        lemma_nothing_claimed(idx, balances);
    } else {
        lemma_synced_record_is_synced(idx, balances, supply);
        lemma_synced_units_backed(idx, synced, balances, supply);
        if all_backed(idx, balances, supply) {
            assert forall|i: int| 0 <= i < idx.component_count implies #[trigger] synced.components[i].units
                >= idx.components[i].units by {
                assert(backed(idx.components[i].units as int, balances[i] as int, supply as int));
                assert(spec_units_from_balance(balances[i] as int, supply as int) <= u64::MAX);
                crate::math::lemma_backed_units_at_most_derived(
                    idx.components[i].units as int,
                    balances[i] as int,
                    supply as int,
                );
            }
        }
    }
}

/// An issue never dilutes. Once the deliveries the second step asks for have landed in the vaults
/// and the amount and its fee are minted, the record the last step re-derives is backed by the
/// vaults at the grown supply, and every component carries at least the units the issue was priced
/// against; where the record was backed before the issue, those are at least its units before.
pub proof fn lemma_an_issue_never_dilutes(
    program_id: Seq<u8>,
    index_info: AccountView,
    index_mint_info: AccountView,
    fee_ata: AccountView,
    rest: Seq<AccountView>,
    amount: u64,
    max_in: Seq<u64>,
    after_balances: Seq<u64>,
)
    requires
        count_fits(record_of(index_info.data@)),
        amount > 0,
        issue_settle_outcome(program_id, index_info, index_mint_info, fee_ata, rest, amount, max_in)
            is Ok,
        ({
            let (synced, deliveries, fee) = issue_settle_outcome(
                program_id,
                index_info,
                index_mint_info,
                fee_ata,
                rest,
                amount,
                max_in,
            )->Ok_0;
            let b = vaults_outcome(
                program_id,
                record_of(index_info.data@),
                index_info.key@,
                index_mint_info.key@,
                rest,
                2,
            )->Ok_0;
            let grown = supply_of(index_mint_info) + amount + fee;
            &&& after_balances.len() == synced.component_count
            &&& forall|i: int|
                0 <= i < synced.component_count ==> #[trigger] after_balances[i] == b[i]
                    + deliveries[i]
            &&& grown <= u64::MAX
            &&& units_fit(synced, after_balances, grown as u64)
        }),
    ensures
        ({
            let idx = record_of(index_info.data@);
            let (synced, deliveries, fee) = issue_settle_outcome(
                program_id,
                index_info,
                index_mint_info,
                fee_ata,
                rest,
                amount,
                max_in,
            )->Ok_0;
            let b = vaults_outcome(
                program_id,
                idx,
                index_info.key@,
                index_mint_info.key@,
                rest,
                2,
            )->Ok_0;
            let supply = supply_of(index_mint_info);
            let grown = (supply + amount + fee) as u64;
            let after = synced_record(synced, after_balances, grown);
            &&& all_backed(after, after_balances, grown)
            &&& forall|i: int|
                0 <= i < idx.component_count ==> #[trigger] after.components[i].units
                    >= synced.components[i].units
            &&& all_backed(idx, b, supply) ==> forall|i: int|
                0 <= i < idx.component_count ==> #[trigger] synced.components[i].units
                    >= idx.components[i].units
        }),
{
    let idx = record_of(index_info.data@);
    let n = idx.component_count as int;
    let key = index_info.key@;
    let mkey = index_mint_info.key@;
    let b = vaults_outcome(program_id, idx, key, mkey, rest, 2)->Ok_0;
    let supply = supply_of(index_mint_info);
    lemma_walk_values(n, vault_walk(program_id, idx, key, mkey, rest, 2), b);
    lemma_priced_against_backed_record(idx, b, supply);
    let synced = synced_record(idx, b, supply);
    let fee = fee_on(amount, synced.issue_fee_bps);
    let gross = amount + fee;
    let deliveries = walk_outcome(n, delivery_walk(synced, gross, max_in, rest))->Ok_0;
    lemma_walk_values(n, delivery_walk(synced, gross, max_in, rest), deliveries);
    let grown = (supply + gross) as u64;
    lemma_synced_record_is_synced(synced, after_balances, grown);
    let after = synced_record(synced, after_balances, grown);
    lemma_synced_units_backed(synced, after, after_balances, grown);
    assert forall|i: int| 0 <= i < n implies #[trigger] after.components[i].units
        >= synced.components[i].units by {
        let u = synced.components[i].units as int;
        assert(delivery_walk(synced, gross, max_in, rest)(i) == Ok::<u64, ProgramFault>(
            deliveries[i],
        ));
        assert(deliveries[i] == crate::math::spec_units_in(u, gross));
        assert(backed(u, b[i] as int, supply as int));
        crate::math::lemma_issue_never_dilutes(u, b[i] as int, supply as int, gross);
        assert(spec_units_from_balance(after_balances[i] as int, grown as int) <= u64::MAX);
    }
}

/// A redemption never dilutes. Once the caller's amount is burned, the fee tokens are minted and
/// the payouts the second step asks for have left the vaults, the record the last step re-derives
/// is backed by the vaults at the shrunk supply, and every component carries at least the units
/// the redemption was priced against; where the record was backed before, those are at least its
/// units before.
pub proof fn lemma_a_redemption_never_dilutes(
    program_id: Seq<u8>,
    index_info: AccountView,
    index_mint_info: AccountView,
    fee_ata: AccountView,
    rest: Seq<AccountView>,
    amount: u64,
    min_out: Seq<u64>,
    after_balances: Seq<u64>,
)
    requires
        count_fits(record_of(index_info.data@)),
        redeem_settle_outcome(program_id, index_info, index_mint_info, fee_ata, rest, amount, min_out)
            is Ok,
        ({
            let (synced, fee, payouts) = redeem_settle_outcome(
                program_id,
                index_info,
                index_mint_info,
                fee_ata,
                rest,
                amount,
                min_out,
            )->Ok_0;
            let b = vaults_outcome(
                program_id,
                record_of(index_info.data@),
                index_info.key@,
                index_mint_info.key@,
                rest,
                2,
            )->Ok_0;
            let shrunk = supply_of(index_mint_info) - amount + fee;
            &&& after_balances.len() == synced.component_count
            &&& forall|i: int|
                0 <= i < synced.component_count ==> #[trigger] after_balances[i] == b[i]
                    - payouts[i]
            &&& shrunk == 0 || units_fit(synced, after_balances, shrunk as u64)
        }),
    ensures
        ({
            let idx = record_of(index_info.data@);
            let (synced, fee, payouts) = redeem_settle_outcome(
                program_id,
                index_info,
                index_mint_info,
                fee_ata,
                rest,
                amount,
                min_out,
            )->Ok_0;
            let b = vaults_outcome(
                program_id,
                idx,
                index_info.key@,
                index_mint_info.key@,
                rest,
                2,
            )->Ok_0;
            let supply = supply_of(index_mint_info);
            let shrunk = (supply - amount + fee) as u64;
            let after = synced_record(synced, after_balances, shrunk);
            &&& 0 <= supply - amount + fee <= supply
            &&& forall|i: int| 0 <= i < idx.component_count ==> #[trigger] payouts[i] <= b[i]
            &&& all_backed(after, after_balances, shrunk)
            &&& forall|i: int|
                0 <= i < idx.component_count ==> #[trigger] after.components[i].units
                    >= synced.components[i].units
            &&& all_backed(idx, b, supply) ==> forall|i: int|
                0 <= i < idx.component_count ==> #[trigger] synced.components[i].units
                    >= idx.components[i].units
        }),
{
    let idx = record_of(index_info.data@);
    let n = idx.component_count as int;
    let key = index_info.key@;
    let mkey = index_mint_info.key@;
    let b = vaults_outcome(program_id, idx, key, mkey, rest, 2)->Ok_0;
    let supply = supply_of(index_mint_info);
    lemma_walk_values(n, vault_walk(program_id, idx, key, mkey, rest, 2), b);
    lemma_priced_against_backed_record(idx, b, supply);
    let synced = synced_record(idx, b, supply);
    let fee = fee_on(amount, synced.redeem_fee_bps);
    let net = amount - fee;
    let payouts = walk_outcome(n, payout_walk(synced, net, min_out, rest))->Ok_0;
    lemma_walk_values(n, payout_walk(synced, net, min_out, rest), payouts);
    let shrunk = (supply - net) as u64;
    assert forall|i: int| 0 <= i < n implies #[trigger] payouts[i] <= b[i] by {
        let u = synced.components[i].units as int;
        assert(payout_walk(synced, net, min_out, rest)(i) == Ok::<u64, ProgramFault>(payouts[i]));
        assert(backed(u, b[i] as int, supply as int));
        crate::math::lemma_redeem_never_dilutes(u, b[i] as int, supply as int, net);
    }
    let after = synced_record(synced, after_balances, shrunk);
    if shrunk == 0 {
        lemma_nothing_claimed(after, after_balances);
    } else {
        lemma_synced_record_is_synced(synced, after_balances, shrunk);
        lemma_synced_units_backed(synced, after, after_balances, shrunk);
        assert forall|i: int| 0 <= i < n implies #[trigger] after.components[i].units
            >= synced.components[i].units by {
            let u = synced.components[i].units as int;
            assert(payout_walk(synced, net, min_out, rest)(i) == Ok::<u64, ProgramFault>(
                payouts[i],
            ));
            assert(payouts[i] == crate::math::spec_units_out(u, net));
            assert(backed(u, b[i] as int, supply as int));
            crate::math::lemma_redeem_never_dilutes(u, b[i] as int, supply as int, net);
            assert(spec_units_from_balance(after_balances[i] as int, shrunk as int) <= u64::MAX);
        }
    }
}

/// The record a step prices against: the record read, with each component's units re-derived as
/// `balance * 1e9 / supply`, rounded down, and nothing else changed; the record read itself when
/// nothing is outstanding.
proof fn lemma_synced_units_are_derived(idx: Index, balances: Seq<u64>, supply: u64)
    requires
        count_fits(idx),
        balances.len() == idx.component_count,
        supply == 0 || units_fit(idx, balances, supply),
    ensures
        ({
            let synced = synced_record(idx, balances, supply);
            &&& synced == (Index { components: synced.components, ..idx })
            &&& forall|i: int|
                0 <= i < idx.component_count ==> (#[trigger] synced.components[i]).units == if supply
                    == 0 {
                    idx.components[i].units as int
                } else {
                    (balances[i] * 1_000_000_000) / (supply as int)
                }
            &&& forall|i: int|
                0 <= i < idx.component_count ==> (#[trigger] synced.components[i]).mint
                    == idx.components[i].mint
        }),
{
    if supply != 0 {
        lemma_synced_record_is_synced(idx, balances, supply);
        let synced = synced_record(idx, balances, supply);
        assert forall|i: int| 0 <= i < idx.component_count implies (#[trigger] synced.components[i]).units
            == (balances[i] * 1_000_000_000) / (supply as int) by {
            assert(spec_units_from_balance(balances[i] as int, supply as int) <= u64::MAX);
        }
    }
}

/// What an issue charges and takes. The fee tokens it mints are `amount * issue_fee_bps / 10_000`
/// of the record read, rounded up; and each component delivers its units per token, re-derived
/// from its vault, times `amount` plus that fee, over 1e9, rounded up.
pub proof fn lemma_an_issue_charges_the_issue_rate(
    program_id: Seq<u8>,
    index_info: AccountView,
    index_mint_info: AccountView,
    fee_ata: AccountView,
    rest: Seq<AccountView>,
    amount: u64,
    max_in: Seq<u64>,
)
    requires
        count_fits(record_of(index_info.data@)),
        issue_settle_outcome(program_id, index_info, index_mint_info, fee_ata, rest, amount, max_in)
            is Ok,
    ensures
        ({
            let idx = record_of(index_info.data@);
            let (synced, deliveries, fee) = issue_settle_outcome(
                program_id,
                index_info,
                index_mint_info,
                fee_ata,
                rest,
                amount,
                max_in,
            )->Ok_0;
            let b = vaults_outcome(
                program_id,
                idx,
                index_info.key@,
                index_mint_info.key@,
                rest,
                2,
            )->Ok_0;
            let supply = supply_of(index_mint_info);
            &&& fee * 10_000 >= amount * idx.issue_fee_bps
            &&& fee * 10_000 < amount * idx.issue_fee_bps + 10_000
            &&& deliveries.len() == idx.component_count
            &&& forall|i: int|
                0 <= i < idx.component_count ==> (#[trigger] synced.components[i]).units == if supply
                    == 0 {
                    idx.components[i].units as int
                } else {
                    (b[i] * 1_000_000_000) / (supply as int)
                }
            &&& forall|i: int|
                0 <= i < idx.component_count ==> #[trigger] deliveries[i] * 1_000_000_000
                    >= synced.components[i].units * (amount + fee)
            &&& forall|i: int|
                0 <= i < idx.component_count ==> #[trigger] deliveries[i] * 1_000_000_000
                    < synced.components[i].units * (amount + fee) + 1_000_000_000
        }),
{
    let idx = record_of(index_info.data@);
    let n = idx.component_count as int;
    let key = index_info.key@;
    let mkey = index_mint_info.key@;
    let b = vaults_outcome(program_id, idx, key, mkey, rest, 2)->Ok_0;
    let supply = supply_of(index_mint_info);
    lemma_walk_values(n, vault_walk(program_id, idx, key, mkey, rest, 2), b);
    lemma_synced_units_are_derived(idx, b, supply);
    let synced = synced_record(idx, b, supply);
    let fee = fee_on(amount, synced.issue_fee_bps);
    crate::math::lemma_ceil_div_bounds(amount * synced.issue_fee_bps, 10_000);
    let gross = amount + fee;
    let deliveries = walk_outcome(n, delivery_walk(synced, gross, max_in, rest))->Ok_0;
    lemma_walk_values(n, delivery_walk(synced, gross, max_in, rest), deliveries);
    assert forall|i: int| 0 <= i < n implies #[trigger] deliveries[i] * 1_000_000_000
        >= synced.components[i].units * (amount + fee) && deliveries[i] * 1_000_000_000
        < synced.components[i].units * (amount + fee) + 1_000_000_000 by {
        assert(delivery_walk(synced, gross, max_in, rest)(i) == Ok::<u64, ProgramFault>(
            deliveries[i],
        ));
        crate::math::lemma_ceil_div_bounds(
            synced.components[i].units * gross,
            1_000_000_000,
        );
    }
}

/// What a redemption charges and pays. The fee tokens it mints are
/// `amount * redeem_fee_bps / 10_000` of the record read, rounded up; and each component pays out
/// its units per token, re-derived from its vault, times `amount` less that fee, over 1e9,
/// rounded down.
pub proof fn lemma_a_redemption_charges_the_redeem_rate(
    program_id: Seq<u8>,
    index_info: AccountView,
    index_mint_info: AccountView,
    fee_ata: AccountView,
    rest: Seq<AccountView>,
    amount: u64,
    min_out: Seq<u64>,
)
    requires
        count_fits(record_of(index_info.data@)),
        redeem_settle_outcome(program_id, index_info, index_mint_info, fee_ata, rest, amount, min_out)
            is Ok,
    ensures
        ({
            let idx = record_of(index_info.data@);
            let (synced, fee, payouts) = redeem_settle_outcome(
                program_id,
                index_info,
                index_mint_info,
                fee_ata,
                rest,
                amount,
                min_out,
            )->Ok_0;
            let b = vaults_outcome(
                program_id,
                idx,
                index_info.key@,
                index_mint_info.key@,
                rest,
                2,
            )->Ok_0;
            let supply = supply_of(index_mint_info);
            &&& fee * 10_000 >= amount * idx.redeem_fee_bps
            &&& fee * 10_000 < amount * idx.redeem_fee_bps + 10_000
            &&& fee <= amount
            &&& payouts.len() == idx.component_count
            &&& forall|i: int|
                0 <= i < idx.component_count ==> (#[trigger] synced.components[i]).units == if supply
                    == 0 {
                    idx.components[i].units as int
                } else {
                    (b[i] * 1_000_000_000) / (supply as int)
                }
            &&& forall|i: int|
                0 <= i < idx.component_count ==> #[trigger] payouts[i] * 1_000_000_000
                    <= synced.components[i].units * (amount - fee)
            &&& forall|i: int|
                0 <= i < idx.component_count ==> #[trigger] payouts[i] * 1_000_000_000
                    + 1_000_000_000 > synced.components[i].units * (amount - fee)
        }),
{
    let idx = record_of(index_info.data@);
    let n = idx.component_count as int;
    let key = index_info.key@;
    let mkey = index_mint_info.key@;
    let b = vaults_outcome(program_id, idx, key, mkey, rest, 2)->Ok_0;
    let supply = supply_of(index_mint_info);
    lemma_walk_values(n, vault_walk(program_id, idx, key, mkey, rest, 2), b);
    lemma_synced_units_are_derived(idx, b, supply);
    let synced = synced_record(idx, b, supply);
    let fee = fee_on(amount, synced.redeem_fee_bps);
    crate::math::lemma_ceil_div_bounds(amount * synced.redeem_fee_bps, 10_000);
    let net = amount - fee;
    let payouts = walk_outcome(n, payout_walk(synced, net, min_out, rest))->Ok_0;
    lemma_walk_values(n, payout_walk(synced, net, min_out, rest), payouts);
    assert forall|i: int| 0 <= i < n implies #[trigger] payouts[i] * 1_000_000_000
        <= synced.components[i].units * (amount - fee) && payouts[i] * 1_000_000_000
        + 1_000_000_000 > synced.components[i].units * (amount - fee) by {
        assert(payout_walk(synced, net, min_out, rest)(i) == Ok::<u64, ProgramFault>(payouts[i]));
        vstd::arithmetic::mul::lemma_mul_nonnegative(synced.components[i].units as int, net);
        crate::math::lemma_floor_div_bounds(synced.components[i].units * net, 1_000_000_000);
    }
}

/// A fill stays under the premium ceiling. After any accepted bid the bought component holds at
/// most its target holding `T = target_units * supply / 1e9` (rounded down) plus
/// `T * max_premium_bps / 10_000` (rounded down); the sold component keeps at least its target
/// holding; and the bidder pays no more than its bound.
pub proof fn lemma_a_fill_stays_under_the_premium_ceiling(
    program_id: Seq<u8>,
    bidder: AccountView,
    index_info: AccountView,
    index_mint_info: AccountView,
    bidder_receive: AccountView,
    bidder_pay: AccountView,
    token_program: AccountView,
    vaults: Seq<AccountView>,
    sell_component: u8,
    buy_component: u8,
    sell_amount: u64,
    max_buy_amount: u64,
    now: i64,
)
    requires
        bid_outcome(
            program_id,
            bidder,
            index_info,
            index_mint_info,
            bidder_receive,
            bidder_pay,
            token_program,
            vaults,
            sell_component,
            buy_component,
            sell_amount,
            max_buy_amount,
            now,
        ) is Ok,
    ensures
        ({
            let idx = record_of(index_info.data@);
            let (premium, supply, buy_amount) = bid_outcome(
                program_id,
                bidder,
                index_info,
                index_mint_info,
                bidder_receive,
                bidder_pay,
                token_program,
                vaults,
                sell_component,
                buy_component,
                sell_amount,
                max_buy_amount,
                now,
            )->Ok_0;
            let b = vaults_outcome(
                program_id,
                idx,
                index_info.key@,
                index_mint_info.key@,
                vaults,
                1,
            )->Ok_0;
            let s = sell_component as int;
            let t = buy_component as int;
            let buy_target = (idx.components[t].target_units * supply) / 1_000_000_000;
            let sell_target = (idx.components[s].target_units * supply) / 1_000_000_000;
            &&& supply == supply_of(index_mint_info)
            &&& b[t] + buy_amount <= buy_target + (buy_target * idx.max_premium_bps) / 10_000
            &&& b[s] - sell_amount >= sell_target
            &&& buy_amount <= max_buy_amount
        }),
{
}

/// The NAV floor of an opened auction is the proposal's NAV less the NAV loss it allows: the
/// largest whole number of micro-dollars at most `nav * (10_000 - max_nav_loss_bps) / 10_000`.
pub proof fn lemma_the_floor_keeps_what_the_proposal_promised(
    r: Rebalance,
    p: AuctionParams,
    proposer: Seq<u8>,
    now: i64,
    delay: u32,
    nav: u64,
)
    requires
        auction_opened(r, p, proposer, now, delay, nav),
        p.max_nav_loss_bps <= 10_000,
    ensures
        r.nav_floor_e6 * 10_000 <= nav * (10_000 - p.max_nav_loss_bps),
        nav * (10_000 - p.max_nav_loss_bps) < r.nav_floor_e6 * 10_000 + 10_000,
        r.active == 1,
        r.start_ts == now + delay,
{
    crate::math::lemma_floor_div_bounds(nav * (10_000 - p.max_nav_loss_bps), 10_000);
}

/// Closing an auction sets every target back to the composition the fund actually has: each
/// component in use ends with its target equal to its units, and those units are its vault
/// balance times 1e9 over the supply, rounded down (the record read, with nothing outstanding);
/// no auction is left running.
pub proof fn lemma_closing_sets_targets_to_the_holdings(
    program_id: Seq<u8>,
    caller: AccountView,
    index_info: AccountView,
    index_mint_info: AccountView,
    vaults: Seq<AccountView>,
    now: i64,
    new: Index,
)
    requires
        count_fits(record_of(index_info.data@)),
        end_rebalance_outcome(program_id, caller, index_info, index_mint_info, vaults, now) is Ok,
        rebalance_closed(
            end_rebalance_outcome(program_id, caller, index_info, index_mint_info, vaults, now)->Ok_0,
            new,
        ),
    ensures
        ({
            let idx = record_of(index_info.data@);
            let b = vaults_outcome(
                program_id,
                idx,
                index_info.key@,
                index_mint_info.key@,
                vaults,
                1,
            )->Ok_0;
            let supply = supply_of(index_mint_info);
            &&& new.component_count == idx.component_count
            &&& new.rebalance.active == 0
            &&& forall|i: int|
                0 <= i < idx.component_count ==> (#[trigger] new.components[i]).target_units
                    == new.components[i].units
            &&& forall|i: int|
                0 <= i < idx.component_count ==> (#[trigger] new.components[i]).units == if supply
                    == 0 {
                    idx.components[i].units as int
                } else {
                    (b[i] * 1_000_000_000) / (supply as int)
                }
        }),
{
    let idx = record_of(index_info.data@);
    let n = idx.component_count as int;
    let b = vaults_outcome(program_id, idx, index_info.key@, index_mint_info.key@, vaults, 1)->Ok_0;
    let supply = supply_of(index_mint_info);
    lemma_walk_values(n, vault_walk(program_id, idx, index_info.key@, index_mint_info.key@, vaults, 1), b);
    lemma_synced_units_are_derived(idx, b, supply);
    let synced = synced_record(idx, b, supply);
    assert forall|i: int| 0 <= i < n implies (#[trigger] new.components[i]).target_units
        == new.components[i].units by {
        assert(new.components[i] == Component {
            target_units: synced.components[i].units,
            ..synced.components[i]
        });
    }
    assert forall|i: int| 0 <= i < n implies (#[trigger] new.components[i]).units == if supply
        == 0 {
        idx.components[i].units as int
    } else {
        (b[i] * 1_000_000_000) / (supply as int)
    } by {
        assert(new.components[i].units == synced.components[i].units);
    }
}

} // verus!
