//! Fixed-point helpers. Every one of them is checked, and every one of them rounds in the
//! direction that favours the fund rather than the caller.
//!
//! What a caller must deliver rounds up, what a caller receives rounds down. Applied
//! consistently, the vault balances can only drift upward relative to what the outstanding
//! supply is entitled to, which is what keeps the backing invariant true.

use vstd::arithmetic::div_mod::*;
use vstd::arithmetic::mul::*;
use vstd::prelude::*;

use crate::error::FlockError;

verus! {

/// Component units are quoted per whole index token, and the index mint has 9 decimals.
pub const UNIT_SCALE: u128 = 1_000_000_000;

pub const BPS: u128 = 10_000;

pub const SECONDS_PER_YEAR: u128 = 31_536_000;

// ---------------------------------------------------------------------------------------------
// the mathematical model
// ---------------------------------------------------------------------------------------------

/// `n / d` rounded up, for a positive divisor.
pub open spec fn ceil_div(n: int, d: int) -> int {
    (n + d - 1) / d
}

/// Ten to the power `e`.
pub open spec fn pow10(e: nat) -> int
    decreases e,
{
    if e == 0 {
        1
    } else {
        10 * pow10((e - 1) as nat)
    }
}

/// Rust's integer division of `n` by a positive `d`: the quotient rounded toward zero.
pub open spec fn trunc_div(n: int, d: int) -> int {
    if n >= 0 {
        n / d
    } else {
        -((-n) / d)
    }
}

/// Component base units a caller delivers for `amount` index base units.
pub open spec fn spec_units_in(units: int, amount: int) -> int {
    ceil_div(units * amount, UNIT_SCALE as int)
}

/// Component base units a caller receives for `amount` index base units.
pub open spec fn spec_units_out(units: int, amount: int) -> int {
    (units * amount) / (UNIT_SCALE as int)
}

/// The units per whole index token that a vault balance backs at a given supply.
pub open spec fn spec_units_from_balance(balance: int, supply: int) -> int {
    (balance * UNIT_SCALE as int) / supply
}

/// USD-e9 value of `balance` base units of a token with `decimals` decimals at `price_e9`.
pub open spec fn spec_value_e9(balance: int, decimals: nat, price_e9: int) -> int {
    (balance * price_e9) / pow10(decimals)
}

/// Base units of a token worth `value` USD-e9, rounded up.
pub open spec fn spec_amount_from_value(value: int, decimals: nat, price_e9: int) -> int {
    ceil_div(value * pow10(decimals), price_e9)
}

/// `fee_bps * dt`, the numerator of the fraction of a year's fee owed.
pub open spec fn fee_numerator(fee_bps: int, dt: int) -> int {
    fee_bps * dt
}

/// `BPS * SECONDS_PER_YEAR`, the denominator of that fraction.
pub open spec fn fee_denominator() -> int {
    BPS as int * SECONDS_PER_YEAR as int
}

/// Whether a streaming fee accrual is free: nothing outstanding, no rate, or no time elapsed.
pub open spec fn fee_is_free(supply: int, fee_bps: int, dt: int) -> bool {
    supply == 0 || fee_bps == 0 || dt <= 0
}

/// Index tokens minted to the fee recipient so that it ends up holding `f * dt / year` of the
/// grown supply: the old supply times `num / (den - num)`, rounded down.
pub open spec fn spec_fee_tokens(supply: int, fee_bps: int, dt: int) -> int {
    if fee_is_free(supply, fee_bps, dt) {
        0
    } else {
        (supply * fee_numerator(fee_bps, dt)) / (fee_denominator() - fee_numerator(fee_bps, dt))
    }
}

/// The auction discount in force at `now`, moving linearly from `start_bps` at `start_ts` to
/// `end_bps` at `end_ts`, rounded toward zero.
pub open spec fn spec_premium(start_bps: int, end_bps: int, start_ts: int, end_ts: int, now: int) -> int {
    start_bps + trunc_div((end_bps - start_bps) * (now - start_ts), end_ts - start_ts)
}

// ---------------------------------------------------------------------------------------------
// arithmetic lemmas
// ---------------------------------------------------------------------------------------------

/// `q` is the floor of `n / d` exactly when `q * d <= n < q * d + d`.
pub proof fn lemma_floor_div_unique(n: int, d: int, q: int)
    requires
        d > 0,
        q * d <= n,
        n < q * d + d,
    ensures
        q == n / d,
{
    lemma_fundamental_div_mod_converse(n, d, q, n - q * d);
}

/// The floor of `n / d` for nonnegative `n`, bracketed.
pub proof fn lemma_floor_div_bounds(n: int, d: int)
    requires
        d > 0,
    ensures
        (n / d) * d <= n,
        n < (n / d) * d + d,
{
    lemma_fundamental_div_mod(n, d);
    lemma_mul_is_commutative(n / d, d);
}

/// The ceiling of `n / d`, bracketed: the least `q` with `q * d >= n`.
pub proof fn lemma_ceil_div_bounds(n: int, d: int)
    requires
        d > 0,
    ensures
        ceil_div(n, d) * d >= n,
        (ceil_div(n, d) - 1) * d < n,
{
    lemma_floor_div_bounds(n + d - 1, d);
    lemma_mul_is_distributive_sub_other_way(d, ceil_div(n, d), 1);
}

/// The ceiling of a nonnegative quotient is the floor, plus one when there is a remainder.
pub proof fn lemma_ceil_div_from_floor(n: int, d: int)
    requires
        d > 0,
        n >= 0,
    ensures
        ceil_div(n, d) == if n % d == 0 { n / d } else { n / d + 1 },
        n / d <= ceil_div(n, d),
{
    lemma_fundamental_div_mod(n, d);
    let q = n / d;
    let r = n % d;
    lemma_mul_is_commutative(d, q);
    if r == 0 {
        lemma_floor_div_unique(n + d - 1, d, q);
    } else {
        lemma_mul_is_distributive_add_other_way(d, q, 1);
        lemma_floor_div_unique(n + d - 1, d, q + 1);
    }
}

/// Powers of ten grow with the exponent.
pub proof fn lemma_pow10_monotone(a: nat, b: nat)
    requires
        a <= b,
    ensures
        1 <= pow10(a) <= pow10(b),
    decreases b,
{
    if b > a {
        lemma_pow10_monotone(a, (b - 1) as nat);
    } else if a > 0 {
        lemma_pow10_monotone((a - 1) as nat, (a - 1) as nat);
    }
}

/// Division of a nonnegative numerator by a positive divisor is monotone in the numerator.
proof fn lemma_div_monotone(x: int, y: int, d: int)
    requires
        d > 0,
        x <= y,
    ensures
        x / d <= y / d,
{
    lemma_div_is_ordered(x, y, d);
}

// ---------------------------------------------------------------------------------------------
// the functions
// ---------------------------------------------------------------------------------------------

/// `a * b / d` rounded down, refused when the product overflows or `d` is zero.
pub fn mul_div_floor(a: u128, b: u128, d: u128) -> (r: Result<u128, FlockError>)
    ensures
        r is Ok <==> (d != 0 && a * b <= u128::MAX),
        r matches Ok(q) ==> q == (a * b) / (d as int),
        r matches Err(e) ==> e == FlockError::MathOverflow,
{
    if d == 0 {
        return Err(FlockError::MathOverflow);
    }
    match a.checked_mul(b) {
        Some(x) => Ok(x / d),
        None => Err(FlockError::MathOverflow),
    }
}

/// `a * b / d` rounded up, refused when the product overflows or `d` is zero.
pub fn mul_div_ceil(a: u128, b: u128, d: u128) -> (r: Result<u128, FlockError>)
    ensures
        r is Ok <==> (d != 0 && a * b <= u128::MAX),
        r matches Ok(q) ==> q == ceil_div(a * b, d as int),
        r matches Err(e) ==> e == FlockError::MathOverflow,
{
    if d == 0 {
        return Err(FlockError::MathOverflow);
    }
    let n = match a.checked_mul(b) {
        Some(x) => x,
        None => return Err(FlockError::MathOverflow),
    };
    proof {
        lemma_ceil_div_from_floor(n as int, d as int);
    }
    let q = n / d;
    if n % d == 0 {
        Ok(q)
    } else {
        proof {
            // with a remainder the divisor is at least 2, so the quotient has room for one more
            lemma_floor_div_bounds(n as int, d as int);
            assert(q * d >= q * 2) by (nonlinear_arith)
                requires
                    d >= 2,
                    q >= 0,
            ;
        }
        Ok(q + 1)
    }
}

/// Narrow to `u64`, refused when the value does not fit.
pub fn to_u64(x: u128) -> (r: Result<u64, FlockError>)
    ensures
        r is Ok <==> x <= u64::MAX,
        r matches Ok(v) ==> v == x,
        r matches Err(e) ==> e == FlockError::MathOverflow,
{
    if x <= u64::MAX as u128 {
        Ok(x as u64)
    } else {
        Err(FlockError::MathOverflow)
    }
}

/// Component base units a caller must deliver to mint `amount` index base units: rounded up.
pub fn units_in(units: u64, amount: u64) -> (r: Result<u64, FlockError>)
    ensures
        r is Ok <==> spec_units_in(units as int, amount as int) <= u64::MAX,
        r matches Ok(v) ==> v == spec_units_in(units as int, amount as int),
        r matches Err(e) ==> e == FlockError::MathOverflow,
{
    proof {
        lemma_mul_upper_bound(units as int, u64::MAX as int, amount as int, u64::MAX as int);
    }
    let q = mul_div_ceil(units as u128, amount as u128, UNIT_SCALE);
    match q {
        Ok(q) => to_u64(q),
        Err(e) => Err(e),
    }
}

/// Component base units a caller receives for burning `amount` index base units: rounded down.
pub fn units_out(units: u64, amount: u64) -> (r: Result<u64, FlockError>)
    ensures
        r is Ok <==> spec_units_out(units as int, amount as int) <= u64::MAX,
        r matches Ok(v) ==> v == spec_units_out(units as int, amount as int),
        r matches Err(e) ==> e == FlockError::MathOverflow,
{
    proof {
        lemma_mul_upper_bound(units as int, u64::MAX as int, amount as int, u64::MAX as int);
    }
    let q = mul_div_floor(units as u128, amount as u128, UNIT_SCALE);
    match q {
        Ok(q) => to_u64(q),
        Err(e) => Err(e),
    }
}

/// The units a component is worth given what the vault actually holds, rounded down.
pub fn units_from_balance(balance: u64, supply: u64) -> (r: Result<u64, FlockError>)
    ensures
        r is Ok <==> (supply != 0 && spec_units_from_balance(balance as int, supply as int)
            <= u64::MAX),
        r matches Ok(v) ==> v == spec_units_from_balance(balance as int, supply as int),
        r matches Err(e) ==> (if supply == 0 {
            e == FlockError::SupplyTooSmall
        } else {
            e == FlockError::MathOverflow
        }),
{
    if supply == 0 {
        return Err(FlockError::SupplyTooSmall);
    }
    proof {
        lemma_mul_upper_bound(balance as int, u64::MAX as int, UNIT_SCALE as int, u64::MAX as int);
    }
    let q = mul_div_floor(balance as u128, UNIT_SCALE, supply as u128);
    match q {
        Ok(q) => to_u64(q),
        Err(e) => Err(e),
    }
}

/// `10^decimals` as a `u128`, refused when it does not fit.
fn scale_of(decimals: u8) -> (r: Result<u128, FlockError>)
    ensures
        r is Ok <==> pow10(decimals as nat) <= u128::MAX,
        r matches Ok(s) ==> s == pow10(decimals as nat),
        r matches Err(e) ==> e == FlockError::MathOverflow,
{
    let mut acc: u128 = 1;
    let mut i: u8 = 0;
    while i < decimals
        invariant
            i <= decimals,
            acc == pow10(i as nat),
        decreases decimals - i,
    {
        match acc.checked_mul(10) {
            Some(next) => {
                acc = next;
                i = i + 1;
            },
            None => {
                proof {
                    lemma_pow10_monotone((i + 1) as nat, decimals as nat);
                }
                return Err(FlockError::MathOverflow);
            },
        }
    }
    Ok(acc)
}

/// USD value in 1e9 of `balance` base units of a token with `decimals` decimals, priced at
/// `price_e9` USD per whole token, rounded down.
pub fn value_e9(balance: u64, decimals: u8, price_e9: u64) -> (r: Result<u128, FlockError>)
    ensures
        r is Ok <==> pow10(decimals as nat) <= u128::MAX,
        r matches Ok(v) ==> v == spec_value_e9(balance as int, decimals as nat, price_e9 as int),
        r matches Err(e) ==> e == FlockError::MathOverflow,
{
    let scale = match scale_of(decimals) {
        Ok(s) => s,
        Err(e) => return Err(e),
    };
    proof {
        lemma_pow10_monotone(0, decimals as nat);
        lemma_mul_upper_bound(balance as int, u64::MAX as int, price_e9 as int, u64::MAX as int);
    }
    mul_div_floor(balance as u128, price_e9 as u128, scale)
}

/// Base units of a token worth `value` USD-e9, rounded up.
pub fn amount_from_value_ceil(value: u128, decimals: u8, price_e9: u64) -> (r: Result<
    u64,
    FlockError,
>)
    ensures
        r is Ok <==> (price_e9 != 0 && pow10(decimals as nat) <= u128::MAX && value * pow10(
            decimals as nat,
        ) <= u128::MAX && spec_amount_from_value(value as int, decimals as nat, price_e9 as int)
            <= u64::MAX),
        r matches Ok(v) ==> v == spec_amount_from_value(
            value as int,
            decimals as nat,
            price_e9 as int,
        ),
        r matches Err(e) ==> (if price_e9 == 0 {
            e == FlockError::InvalidPrice
        } else {
            e == FlockError::MathOverflow
        }),
{
    if price_e9 == 0 {
        return Err(FlockError::InvalidPrice);
    }
    let scale = match scale_of(decimals) {
        Ok(s) => s,
        Err(e) => return Err(e),
    };
    match mul_div_ceil(value, scale, price_e9 as u128) {
        Ok(q) => to_u64(q),
        Err(e) => Err(e),
    }
}

/// Streaming fee, charged as dilution: the index tokens to mint to the fee recipient for `dt`
/// seconds at `fee_bps` a year on a supply of `supply`.
///
/// Minting exactly `f * dt / year` of the old supply would undercharge, because the mint itself
/// grows the denominator, so the amount is grossed up by the same fraction.
pub fn streaming_fee_tokens(supply: u64, fee_bps: u16, dt: i64) -> (r: Result<u64, FlockError>)
    ensures
        r is Ok <==> (fee_is_free(supply as int, fee_bps as int, dt as int) || (fee_numerator(
            fee_bps as int,
            dt as int,
        ) < fee_denominator() && spec_fee_tokens(supply as int, fee_bps as int, dt as int)
            <= u64::MAX)),
        r matches Ok(v) ==> v == spec_fee_tokens(supply as int, fee_bps as int, dt as int),
        r matches Err(e) ==> e == FlockError::MathOverflow,
{
    if supply == 0 || fee_bps == 0 || dt <= 0 {
        return Ok(0);
    }
    proof {
        lemma_mul_upper_bound(fee_bps as int, u16::MAX as int, dt as int, i64::MAX as int);
    }
    let num = match (fee_bps as u128).checked_mul(dt as u128) {
        Some(n) => n,
        None => return Err(FlockError::MathOverflow),
    };
    let den = match BPS.checked_mul(SECONDS_PER_YEAR) {
        Some(d) => d,
        None => return Err(FlockError::MathOverflow),
    };
    if num >= den {
        return Err(FlockError::MathOverflow);
    }
    proof {
        lemma_mul_upper_bound(supply as int, u64::MAX as int, num as int, den as int);
    }
    match mul_div_floor(supply as u128, num, den - num) {
        Ok(q) => to_u64(q),
        Err(e) => Err(e),
    }
}

/// The auction discount in force at `now`, decaying linearly from `start_bps` to `end_bps`.
///
/// Negative means the bidder overpays the fund, positive means the bidder is paid to take the
/// trade. Closed outside `[start_ts, end_ts]`.
pub fn premium_at(start_bps: i16, end_bps: i16, start_ts: i64, end_ts: i64, now: i64) -> (r:
    Result<i32, FlockError>)
    ensures
        r is Ok <==> (start_ts <= now <= end_ts && start_ts < end_ts),
        r matches Ok(p) ==> p == spec_premium(
            start_bps as int,
            end_bps as int,
            start_ts as int,
            end_ts as int,
            now as int,
        ),
        r matches Err(e) ==> (if now < start_ts || now > end_ts {
            e == FlockError::AuctionClosed
        } else {
            e == FlockError::InvalidPremium
        }),
{
    if now < start_ts || now > end_ts {
        return Err(FlockError::AuctionClosed);
    }
    if end_ts <= start_ts {
        return Err(FlockError::InvalidPremium);
    }
    let span = end_ts as i128 - start_ts as i128;
    let elapsed = now as i128 - start_ts as i128;
    let diff = end_bps as i128 - start_bps as i128;
    proof {
        lemma_premium_between(
            start_bps as int,
            end_bps as int,
            start_ts as int,
            end_ts as int,
            now as int,
        );
        assert(-(65535 * (span as int)) <= diff * elapsed <= 65535 * (span as int))
            by (nonlinear_arith)
            requires
                -65535 <= diff <= 65535,
                0 <= elapsed <= span,
        ;
    }
    let prod = diff * elapsed;
    let delta = if prod >= 0 {
        prod / span
    } else {
        -((-prod) / span)
    };
    let p = start_bps as i128 + delta;
    Ok(p as i32)
}

// ---------------------------------------------------------------------------------------------
// laws
// ---------------------------------------------------------------------------------------------

/// The premium always lies between the opening and closing premiums, inclusive.
pub proof fn lemma_premium_between(
    start_bps: int,
    end_bps: int,
    start_ts: int,
    end_ts: int,
    now: int,
)
    requires
        start_ts <= now <= end_ts,
        start_ts < end_ts,
    ensures
        start_bps <= end_bps ==> start_bps <= spec_premium(
            start_bps,
            end_bps,
            start_ts,
            end_ts,
            now,
        ) <= end_bps,
        end_bps <= start_bps ==> end_bps <= spec_premium(
            start_bps,
            end_bps,
            start_ts,
            end_ts,
            now,
        ) <= start_bps,
{
    let span = end_ts - start_ts;
    let elapsed = now - start_ts;
    let diff = end_bps - start_bps;
    if diff >= 0 {
        lemma_mul_inequality(elapsed, span, diff);
        lemma_mul_is_commutative(elapsed, diff);
        lemma_mul_is_commutative(span, diff);
        lemma_mul_nonnegative(diff, elapsed);
        lemma_div_monotone(diff * elapsed, diff * span, span);
        lemma_div_multiples_vanish(diff, span);
        lemma_mul_is_commutative(diff, span);
        lemma_div_pos_is_pos(diff * elapsed, span);
    } else {
        lemma_mul_inequality(elapsed, span, -diff);
        lemma_mul_is_commutative(elapsed, -diff);
        lemma_mul_is_commutative(span, -diff);
        lemma_mul_nonnegative(-diff, elapsed);
        lemma_mul_unary_negation(diff, elapsed);
        lemma_div_monotone(-diff * elapsed, -diff * span, span);
        lemma_div_multiples_vanish(-diff, span);
        lemma_mul_is_commutative(-diff, span);
        lemma_div_pos_is_pos(-diff * elapsed, span);
    }
}

/// The auction opens at its opening premium and closes at its closing premium.
pub proof fn lemma_premium_endpoints(start_bps: int, end_bps: int, start_ts: int, end_ts: int)
    requires
        start_ts < end_ts,
    ensures
        spec_premium(start_bps, end_bps, start_ts, end_ts, start_ts) == start_bps,
        spec_premium(start_bps, end_bps, start_ts, end_ts, end_ts) == end_bps,
{
    let span = end_ts - start_ts;
    let diff = end_bps - start_bps;
    assert(diff * 0 == 0);
    lemma_div_multiples_vanish(diff, span);
    lemma_mul_is_commutative(diff, span);
    lemma_div_multiples_vanish(-diff, span);
    lemma_mul_is_commutative(-diff, span);
    lemma_mul_unary_negation(diff, span);
}

/// The premium moves monotonically, in the direction from the opening premium to the closing one.
pub proof fn lemma_premium_monotone(
    start_bps: int,
    end_bps: int,
    start_ts: int,
    end_ts: int,
    t1: int,
    t2: int,
)
    requires
        start_ts <= t1 <= t2 <= end_ts,
        start_ts < end_ts,
    ensures
        start_bps <= end_bps ==> spec_premium(start_bps, end_bps, start_ts, end_ts, t1)
            <= spec_premium(start_bps, end_bps, start_ts, end_ts, t2),
        end_bps <= start_bps ==> spec_premium(start_bps, end_bps, start_ts, end_ts, t2)
            <= spec_premium(start_bps, end_bps, start_ts, end_ts, t1),
{
    let span = end_ts - start_ts;
    let diff = end_bps - start_bps;
    if diff >= 0 {
        lemma_mul_inequality(t1 - start_ts, t2 - start_ts, diff);
        lemma_mul_is_commutative(t1 - start_ts, diff);
        lemma_mul_is_commutative(t2 - start_ts, diff);
        lemma_mul_nonnegative(diff, t1 - start_ts);
        lemma_div_monotone(diff * (t1 - start_ts), diff * (t2 - start_ts), span);
        if diff == 0 {
            lemma_mul_basics(t1 - start_ts);
            lemma_mul_basics(t2 - start_ts);
        }
    } else {
        lemma_mul_inequality(t1 - start_ts, t2 - start_ts, -diff);
        lemma_mul_is_commutative(t1 - start_ts, -diff);
        lemma_mul_is_commutative(t2 - start_ts, -diff);
        lemma_mul_nonnegative(-diff, t1 - start_ts);
        lemma_mul_unary_negation(diff, t1 - start_ts);
        lemma_mul_unary_negation(diff, t2 - start_ts);
        let a1 = (-diff) * (t1 - start_ts);
        let a2 = (-diff) * (t2 - start_ts);
        lemma_div_monotone(a1, a2, span);
        lemma_mul_nonnegative(-diff, t2 - start_ts);
        lemma_div_pos_is_pos(a1, span);
        assert(trunc_div(diff * (t1 - start_ts), span) == -(a1 / span));
        assert(trunc_div(diff * (t2 - start_ts), span) == -(a2 / span));
    }
}

/// What a caller delivers for `amount` index tokens is never less than what a caller receives
/// for the same amount, so an issue followed by a redeem can never extract value.
pub proof fn lemma_deliveries_cover_payouts(units: int, amount: int)
    requires
        units >= 0,
        amount >= 0,
    ensures
        spec_units_out(units, amount) <= spec_units_in(units, amount),
        spec_units_in(units, amount) * UNIT_SCALE as int >= units * amount,
        spec_units_out(units, amount) * UNIT_SCALE as int <= units * amount,
{
    lemma_mul_nonnegative(units, amount);
    lemma_ceil_div_from_floor(units * amount, UNIT_SCALE as int);
    lemma_ceil_div_bounds(units * amount, UNIT_SCALE as int);
    lemma_floor_div_bounds(units * amount, UNIT_SCALE as int);
}

/// Units derived from a vault balance never claim more than the vault holds: the supply's claim
/// on the component, `units * supply / 1e9`, is at most the balance.
pub proof fn lemma_units_never_overstate(balance: int, supply: int)
    requires
        balance >= 0,
        supply > 0,
    ensures
        spec_units_from_balance(balance, supply) * supply <= balance * UNIT_SCALE as int,
        (spec_units_from_balance(balance, supply) * supply) / (UNIT_SCALE as int) <= balance,
{
    let u = spec_units_from_balance(balance, supply);
    lemma_floor_div_bounds(balance * UNIT_SCALE as int, supply);
    lemma_mul_is_commutative(u, supply);
    lemma_div_monotone(u * supply, balance * UNIT_SCALE as int, UNIT_SCALE as int);
    lemma_div_multiples_vanish(balance, UNIT_SCALE as int);
    lemma_mul_is_commutative(balance, UNIT_SCALE as int);
}

/// The streaming fee never overcharges and undercharges by less than one base unit: with
/// `share = num / den` the fraction of a year's fee owed, the recipient's `minted` tokens are at
/// most `share` of the grown supply `supply + minted`, and one more token would exceed it.
pub proof fn lemma_streaming_fee_share(supply: int, fee_bps: int, dt: int)
    requires
        supply >= 0,
        fee_bps >= 0,
        !fee_is_free(supply, fee_bps, dt),
        fee_numerator(fee_bps, dt) < fee_denominator(),
    ensures
        spec_fee_tokens(supply, fee_bps, dt) * fee_denominator() <= fee_numerator(fee_bps, dt) * (
        supply + spec_fee_tokens(supply, fee_bps, dt)),
        (spec_fee_tokens(supply, fee_bps, dt) + 1) * fee_denominator() > fee_numerator(
            fee_bps,
            dt,
        ) * (supply + spec_fee_tokens(supply, fee_bps, dt) + 1),
{
    let num = fee_numerator(fee_bps, dt);
    let den = fee_denominator();
    let m = spec_fee_tokens(supply, fee_bps, dt);
    lemma_floor_div_bounds(supply * num, den - num);
    // m * (den - num) <= supply * num < (m + 1) * (den - num)
    assert(m * den <= num * (supply + m)) by (nonlinear_arith)
        requires
            m * (den - num) <= supply * num,
    ;
    assert((m + 1) * den > num * (supply + m + 1)) by (nonlinear_arith)
        requires
            supply * num < m * (den - num) + (den - num),
    ;
}

/// An accrual with no rate, no supply or no elapsed time mints nothing.
pub proof fn lemma_free_accrual_mints_nothing(supply: int, fee_bps: int, dt: int)
    requires
        fee_is_free(supply, fee_bps, dt),
    ensures
        spec_fee_tokens(supply, fee_bps, dt) == 0,
{
}

/// A component's claim is covered: `units` per whole index token, over `supply` index base
/// units, is no more than the vault's `balance`.
pub open spec fn backed(units: int, balance: int, supply: int) -> bool {
    units * supply <= balance * UNIT_SCALE as int
}

/// If `u * d <= x` then `u` is at most the floor of `x / d`.
proof fn lemma_floor_at_least(u: int, x: int, d: int)
    requires
        d > 0,
        u * d <= x,
    ensures
        u <= x / d,
{
    lemma_div_monotone(u * d, x, d);
    lemma_div_multiples_vanish(u, d);
    lemma_mul_is_commutative(u, d);
}

/// Units derived from a vault balance are backed by it.
pub proof fn lemma_derived_units_backed(balance: int, supply: int)
    requires
        balance >= 0,
        supply > 0,
    ensures
        backed(spec_units_from_balance(balance, supply), balance, supply),
{
    lemma_units_never_overstate(balance, supply);
}

/// Issuing never dilutes. When the vault backs `units` per token before an issue of `gross`
/// index base units, the delivery the issue takes, rounded up, keeps it backed at the grown
/// supply, so the units re-derived afterwards are at least what they were.
pub proof fn lemma_issue_never_dilutes(units: int, balance: int, supply: int, gross: int)
    requires
        units >= 0,
        balance >= 0,
        supply >= 0,
        gross >= 0,
        backed(units, balance, supply),
    ensures
        backed(units, balance + spec_units_in(units, gross), supply + gross),
        supply + gross > 0 ==> spec_units_from_balance(
            balance + spec_units_in(units, gross),
            supply + gross,
        ) >= units,
{
    lemma_deliveries_cover_payouts(units, gross);
    let d = spec_units_in(units, gross);
    assert(units * (supply + gross) <= (balance + d) * UNIT_SCALE as int) by (nonlinear_arith)
        requires
            units * supply <= balance * UNIT_SCALE as int,
            d * UNIT_SCALE as int >= units * gross,
    ;
    if supply + gross > 0 {
        lemma_floor_at_least(units, (balance + d) * UNIT_SCALE as int, supply + gross);
    }
}

/// Redeeming never dilutes and never overdraws. When the vault backs `units` per token, the
/// payout for `net` index base units, rounded down, is covered by the balance, and what stays
/// behind still backs `units` at the shrunk supply.
pub proof fn lemma_redeem_never_dilutes(units: int, balance: int, supply: int, net: int)
    requires
        units >= 0,
        balance >= 0,
        0 <= net <= supply,
        backed(units, balance, supply),
    ensures
        spec_units_out(units, net) <= balance,
        backed(units, balance - spec_units_out(units, net), supply - net),
        supply - net > 0 ==> spec_units_from_balance(
            balance - spec_units_out(units, net),
            supply - net,
        ) >= units,
{
    lemma_deliveries_cover_payouts(units, net);
    let p = spec_units_out(units, net);
    assert(p * UNIT_SCALE as int <= balance * UNIT_SCALE as int) by (nonlinear_arith)
        requires
            p * UNIT_SCALE as int <= units * net,
            units * supply <= balance * UNIT_SCALE as int,
            0 <= net <= supply,
            units >= 0,
    ;
    assert(units * (supply - net) <= (balance - p) * UNIT_SCALE as int) by (nonlinear_arith)
        requires
            units * supply <= balance * UNIT_SCALE as int,
            p * UNIT_SCALE as int <= units * net,
    ;
    if supply - net > 0 {
        lemma_floor_at_least(units, (balance - p) * UNIT_SCALE as int, supply - net);
    }
}

/// Units that a vault backs are at most the units re-derived from it: re-deriving never lowers
/// a backed record.
pub proof fn lemma_backed_units_at_most_derived(units: int, balance: int, supply: int)
    requires
        supply > 0,
        backed(units, balance, supply),
    ensures
        units <= spec_units_from_balance(balance, supply),
{
    lemma_floor_at_least(units, balance * UNIT_SCALE as int, supply);
}

/// The round trip. Into an empty fund with no fees, the first issue of `gross` index base units
/// delivers `units_in(units, gross)` of a component; the units re-derived from that delivery
/// are at least the recipe; and redeeming all `gross` again pays out no more than was
/// delivered, and exactly what was delivered whenever the delivery divides evenly across the
/// tokens issued, leaving the vault empty.
pub proof fn lemma_issue_then_redeem_returns_the_delivery(units: int, gross: int)
    requires
        units >= 0,
        gross > 0,
    ensures
        ({
            let delivered = spec_units_in(units, gross);
            let derived = spec_units_from_balance(delivered, gross);
            let paid = spec_units_out(derived, gross);
            &&& derived >= units
            &&& 0 <= paid <= delivered
            &&& (delivered * UNIT_SCALE as int) % gross == 0 ==> paid == delivered
        }),
{
    let s = UNIT_SCALE as int;
    let delivered = spec_units_in(units, gross);
    lemma_issue_never_dilutes(units, 0, 0, gross);
    assert(delivered >= 0) by {
        lemma_deliveries_cover_payouts(units, gross);
        lemma_mul_nonnegative(units, gross);
    }
    let derived = spec_units_from_balance(delivered, gross);
    lemma_mul_nonnegative(delivered, s);
    lemma_fundamental_div_mod(delivered * s, gross);
    lemma_div_pos_is_pos(delivered * s, gross);
    let r = (delivered * s) % gross;
    lemma_mod_bound(delivered * s, gross);
    assert(derived * gross <= delivered * s) by (nonlinear_arith)
        requires
            delivered * s == gross * derived + r,
            0 <= r,
    ;
    lemma_mul_nonnegative(derived, gross);
    lemma_div_is_ordered(derived * gross, delivered * s, s);
    lemma_div_multiples_vanish(delivered, s);
    lemma_mul_is_commutative(delivered, s);
    lemma_mul_is_commutative(derived, gross);
    lemma_div_pos_is_pos(derived * gross, s);
    if r == 0 {
        assert(derived * gross == delivered * s) by (nonlinear_arith)
            requires
                delivered * s == gross * derived + r,
                r == 0,
        ;
    }
}

} // verus!
