//! Exact decimal rendering of the values the report tables display: money
//! amounts, percent changes, and the cells of an asset row.

use vstd::prelude::*;

use crate::asset::{Asset, AssetModel};
use crate::digits::{digit_char, push_dec, push_digit, spec_dec};
use crate::portfolio::Summary;

verus! {

/// The decimal rendering of `n` hundredths with exactly two fractional
/// digits: `12345` renders as `123.45`.
pub open spec fn spec_fixed2(n: nat) -> Seq<char> {
    spec_dec(n / 100) + seq!['.', digit_char(((n % 100) / 10) as int), digit_char((n % 10) as int)]
}

/// The rendering of a non-negative amount of cents as dollars: `$123.45`.
pub open spec fn spec_money(cents: nat) -> Seq<char> {
    seq!['$'] + spec_fixed2(cents)
}

/// The rendering of a signed amount of cents: a leading `-` when negative.
pub open spec fn spec_money_signed(cents: int) -> Seq<char> {
    if cents < 0 {
        seq!['-'] + spec_money((-cents) as nat)
    } else {
        spec_money(cents as nat)
    }
}

/// `a / b` rounded to the nearest integer, ties away from zero.
pub open spec fn round_div(a: int, b: int) -> int
    recommends
        b >= 1,
{
    if a >= 0 {
        (a + b / 2) / b
    } else {
        -(((-a) + b / 2) / b)
    }
}

/// The percent change from `old_cents` to `new_cents`, in hundredths of a
/// percent, rounded to the nearest hundredth.
pub open spec fn spec_percent_hundredths(old_cents: int, new_cents: int) -> int
    recommends
        old_cents >= 1,
{
    round_div((new_cents - old_cents) * 10000, old_cents)
}

/// The rendering of a percent change given in hundredths of a percent:
/// `-525` renders as `-5.25%`.
pub open spec fn spec_percent_str(v: int) -> Seq<char> {
    if v < 0 {
        seq!['-'] + spec_fixed2((-v) as nat) + seq!['%']
    } else {
        spec_fixed2(v as nat) + seq!['%']
    }
}

/// Appends the two-fractional-digit rendering of `n` hundredths to `out`.
fn push_fixed2(out: &mut String, n: u64)
    ensures
        final(out)@ == old(out)@ + spec_fixed2(n as nat),
{
    push_dec(out, n / 100);
    proof {
        reveal_strlit(".");
    }
    out.append(".");
    push_digit(out, ((n % 100) / 10) as u32);
    push_digit(out, (n % 10) as u32);
    proof {
        assert(out@ =~= old(out)@ + spec_fixed2(n as nat));
    }
}

/// Renders a non-negative amount of cents as dollars with two fractional
/// digits: `format_money(12345)` is `"$123.45"`.
pub fn format_money(cents: u32) -> (r: String)
    ensures
        r@ == spec_money(cents as nat),
{
    let mut out = String::new();
    proof {
        reveal_strlit("$");
    }
    out.append("$");
    push_fixed2(&mut out, cents as u64);
    proof {
        assert(out@ =~= spec_money(cents as nat));
    }
    out
}

/// Renders a signed amount of cents as dollars, with a leading `-` when the
/// amount is negative.
pub fn format_money_signed(cents: i64) -> (r: String)
    ensures
        r@ == spec_money_signed(cents as int),
{
    let mut out = String::new();
    if cents < 0 {
        proof {
            reveal_strlit("-$");
            reveal_strlit("-");
            reveal_strlit("$");
        }
        out.append("-$");
        let mag: u64 = (-(cents as i128)) as u64;
        push_fixed2(&mut out, mag);
        proof {
            assert(out@ =~= spec_money_signed(cents as int));
        }
    } else {
        proof {
            reveal_strlit("$");
        }
        out.append("$");
        push_fixed2(&mut out, cents as u64);
        proof {
            assert(out@ =~= spec_money_signed(cents as int));
        }
    }
    out
}

/// The percent change from `old_cents` to `new_cents` in hundredths of a
/// percent; `None` exactly when `old_cents` is zero and the change is
/// undefined.
pub fn percent_change_hundredths(old_cents: u32, new_cents: u32) -> (r: Option<i64>)
    ensures
        (r is Some) == (old_cents > 0),
        r matches Some(v) ==> v == spec_percent_hundredths(old_cents as int, new_cents as int),
{
    if old_cents == 0 {
        return None;
    }
    let diff: i64 = new_cents as i64 - old_cents as i64;
    let b: u64 = old_cents as u64;
    if diff >= 0 {
        let mag: u64 = (diff as u64) * 10000;
        let q: u64 = (mag + b / 2) / b;
        Some(q as i64)
    } else {
        let mag: u64 = ((-diff) as u64) * 10000;
        let q: u64 = (mag + b / 2) / b;
        Some(-(q as i64))
    }
}

/// Renders a percent change given in hundredths of a percent, with two
/// fractional digits and a trailing percent sign.
pub fn format_percent(v: i64) -> (r: String)
    ensures
        r@ == spec_percent_str(v as int),
{
    let mut out = String::new();
    if v < 0 {
        proof {
            reveal_strlit("-");
        }
        out.append("-");
        let mag: u64 = (-(v as i128)) as u64;
        push_fixed2(&mut out, mag);
    } else {
        push_fixed2(&mut out, v as u64);
    }
    proof {
        reveal_strlit("%");
    }
    out.append("%");
    proof {
        assert(out@ =~= spec_percent_str(v as int));
    }
    out
}

/// The percent-change cell of an asset row: measured from the buy price to
/// the effective price, `N/A` when the buy price is zero and the change is
/// undefined.
pub open spec fn spec_percent_cell(m: AssetModel) -> Seq<char> {
    if m.buy_price_cents == 0 {
        "N/A"@
    } else {
        spec_percent_str(
            spec_percent_hundredths(m.buy_price_cents as int, m.effective_price() as int),
        )
    }
}

/// The six cells of an asset's report row: ticker, buy price, current price
/// (sold assets show a placeholder), percent change, sell price (held assets
/// show a placeholder), and quantity.
pub open spec fn spec_asset_cells(m: AssetModel) -> Seq<Seq<char>> {
    seq![
        m.ticker,
        spec_money(m.buy_price_cents as nat),
        if m.is_held() {
            spec_money(m.current_price_cents as nat)
        } else {
            "N/A (sold)"@
        },
        spec_percent_cell(m),
        match m.sell_price_cents {
            Some(sell) => spec_money(sell as nat),
            None => "N/A (currently held)"@,
        },
        spec_dec(m.quantity as nat),
    ]
}

/// Builds the six report cells for one asset.
pub fn asset_row(a: &Asset) -> (r: Vec<String>)
    ensures
        r@.map_values(|s: String| s@) == spec_asset_cells(a@),
{
    let mut row: Vec<String> = Vec::new();
    row.push(a.ticker.clone());
    row.push(format_money(a.buy_price_cents));
    if a.is_held() {
        row.push(format_money(a.current_price_cents));
    } else {
        row.push(String::from_str("N/A (sold)"));
    }
    match percent_change_hundredths(a.buy_price_cents, a.effective_price()) {
        Some(v) => row.push(format_percent(v)),
        None => row.push(String::from_str("N/A")),
    }
    match a.sell_price_cents {
        Some(sell) => row.push(format_money(sell)),
        None => row.push(String::from_str("N/A (currently held)")),
    }
    let mut qty = String::new();
    push_dec(&mut qty, a.quantity as u64);
    row.push(qty);
    proof {
        assert(row@.map_values(|s: String| s@) =~= spec_asset_cells(a@));
    }
    row
}

/// The three cells of the summary row: net buy price, market value, and
/// the unrealized gain or loss, each rendered as signed dollars.
pub open spec fn spec_summary_cells(net: int, market: int, unrealized: int) -> Seq<Seq<char>> {
    seq![spec_money_signed(net), spec_money_signed(market), spec_money_signed(unrealized)]
}

/// Builds the three report cells for a summary.
pub fn summary_row(s: &Summary) -> (r: Vec<String>)
    ensures
        r@.map_values(|x: String| x@) == spec_summary_cells(
            s.net_buy_cents as int,
            s.market_value_cents as int,
            s.unrealized_gain_loss_cents as int,
        ),
{
    let mut row: Vec<String> = Vec::new();
    row.push(format_money_signed(s.net_buy_cents));
    row.push(format_money_signed(s.market_value_cents));
    row.push(format_money_signed(s.unrealized_gain_loss_cents));
    proof {
        assert(row@.map_values(|x: String| x@) =~= spec_summary_cells(
            s.net_buy_cents as int,
            s.market_value_cents as int,
            s.unrealized_gain_loss_cents as int,
        ));
    }
    row
}

} // verus!
