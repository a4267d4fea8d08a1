//! The final statement of an account: its balances rounded for display.
use crate::amount::{pow10, spec_add, Amount, MAX_SCALE};
use crate::models::AccountData;
use vstd::prelude::*;

verus! {

/// The number of fractional digits that a statement shows.
pub const STATEMENT_DP: u32 = 4;

/// The largest mantissa magnitude that a `rust_decimal::Decimal` holds: 96 bits.
pub const MAX_DECIMAL_MANTISSA: i128 = 0xFFFF_FFFF_FFFF_FFFF_FFFF_FFFF;

pub open spec fn abs(x: int) -> int {
    if x < 0 {
        -x
    } else {
        x
    }
}

/// `a` rounded to `dp` fractional digits; a remainder of exactly one half
/// goes to the even neighbour. The sign does not take part in the rounding.
pub open spec fn spec_round_dp(a: Amount, dp: u32) -> Amount {
    if a.scale <= dp {
        a
    } else {
        let k = (a.scale - dp) as nat;
        let p = pow10(k);
        let mag = abs(a.mantissa as int);
        let q = mag / p;
        let rem = mag % p;
        let half = 5 * pow10((k - 1) as nat);
        let q2 = if rem > half || (rem == half && q % 2 == 1) {
            q + 1
        } else {
            q
        };
        Amount { mantissa: (if a.mantissa < 0 { -q2 } else { q2 }) as i128, scale: dp }
    }
}

/// True when `a` can be held by a `rust_decimal::Decimal`.
pub open spec fn decimal_range(a: Amount) -> bool {
    a.wf() && -MAX_DECIMAL_MANTISSA <= a.mantissa <= MAX_DECIMAL_MANTISSA
}

/// Relies on rust_decimal::Decimal::round_dp (midpoint to even), with
/// from_i128_with_scale, mantissa and scale to convert.
#[verifier::external_body]
fn round_dp(a: &Amount, dp: u32) -> (r: Amount)
    requires
        decimal_range(*a),
        dp <= MAX_SCALE,
    ensures
        r == spec_round_dp(*a, dp),
{
    let d = rust_decimal::Decimal::from_i128_with_scale(a.mantissa, a.scale).round_dp(dp);
    Amount { mantissa: d.mantissa(), scale: d.scale() }
}

/// One line of the final report.
#[derive(Clone, Copy, Debug, PartialEq, Eq, Structural)]
pub struct AccountSummary {
    pub client: u16,
    pub total: Amount,
    pub available: Amount,
    pub held: Amount,
    pub locked: bool,
}

/// The report line of an account: `total` is `available + held` at full
/// precision, and all three are rounded to `STATEMENT_DP` digits. `None`
/// where the total overflows or a balance leaves the range of a decimal.
pub fn summarize(client: u16, data: &AccountData, locked: bool) -> (r: Option<AccountSummary>)
    requires
        data.wf(),
    ensures
        r is Some <==> (spec_add(data.available, data.held) matches Some(t) && decimal_range(t)
            && decimal_range(data.available) && decimal_range(data.held)),
        r matches Some(s) ==> s == (AccountSummary {
            client,
            total: spec_round_dp(spec_add(data.available, data.held)->Some_0, STATEMENT_DP),
            available: spec_round_dp(data.available, STATEMENT_DP),
            held: spec_round_dp(data.held, STATEMENT_DP),
            locked,
        }),
{
    let total = match data.available.checked_add(&data.held) {
        Some(t) => t,
        None => {
            return None;
        },
    };
    if !in_decimal_range(&total) || !in_decimal_range(&data.available) || !in_decimal_range(
        &data.held,
    ) {
        return None;
    }
    Some(
        AccountSummary {
            client,
            total: round_dp(&total, STATEMENT_DP),
            available: round_dp(&data.available, STATEMENT_DP),
            held: round_dp(&data.held, STATEMENT_DP),
            locked,
        },
    )
}

fn in_decimal_range(a: &Amount) -> (r: bool)
    requires
        a.wf(),
    ensures
        r == decimal_range(*a),
{
    -MAX_DECIMAL_MANTISSA <= a.mantissa && a.mantissa <= MAX_DECIMAL_MANTISSA
}

} // verus!
