//! The portfolio: an ordered sequence of assets, its summary arithmetic
//! over the held positions, and the in-place price refresh.

use vstd::prelude::*;

use crate::asset::{Asset, AssetModel};

verus! {

impl Clone for Asset {
    /// Clones an asset field for field.
    fn clone(&self) -> (r: Asset)
        ensures
            r@ == self@,
    {
        Asset {
            ticker: self.ticker.clone(),
            buy_price_cents: self.buy_price_cents,
            current_price_cents: self.current_price_cents,
            sell_price_cents: self.sell_price_cents,
            quantity: self.quantity,
        }
    }
}

/// The portfolio: the assets in insertion order.
pub struct Portfolio {
    pub assets: Vec<Asset>,
}

impl View for Portfolio {
    type V = Seq<AssetModel>;

    open spec fn view(&self) -> Seq<AssetModel> {
        self.assets@.map_values(|a: Asset| a@)
    }
}

/// Well-formedness of a whole portfolio: every asset is well-formed.
pub open spec fn wf_portfolio(s: Seq<AssetModel>) -> bool {
    forall|i: int| 0 <= i < s.len() ==> (#[trigger] s[i]).wf()
}

/// What one asset adds to the net buy price: its total cost basis times its
/// quantity while held, nothing once sold.
pub open spec fn buy_term(m: AssetModel) -> int {
    if m.is_held() {
        m.buy_price_cents * m.quantity
    } else {
        0
    }
}

/// What one asset adds to the market value: its current price times its
/// quantity while held, nothing once sold.
pub open spec fn market_term(m: AssetModel) -> int {
    if m.is_held() {
        m.current_price_cents * m.quantity
    } else {
        0
    }
}

/// The net buy price of a portfolio: the sum of `buy_term` over its assets.
pub open spec fn spec_net_buy(s: Seq<AssetModel>) -> int
    decreases s.len(),
{
    if s.len() == 0 {
        0
    } else {
        spec_net_buy(s.drop_last()) + buy_term(s.last())
    }
}

/// The market value of a portfolio: the sum of `market_term` over its assets.
pub open spec fn spec_market_value(s: Seq<AssetModel>) -> int
    decreases s.len(),
{
    if s.len() == 0 {
        0
    } else {
        spec_market_value(s.drop_last()) + market_term(s.last())
    }
}

/// The largest value `buy_term` or `market_term` can take: both factors are
/// at most `u32::MAX`.
pub proof fn lemma_term_bounds(m: AssetModel)
    ensures
        0 <= buy_term(m) <= 0xfffffffe00000001,
        0 <= market_term(m) <= 0xfffffffe00000001,
{
    assert(m.buy_price_cents * m.quantity <= 0xfffffffe00000001 && m.buy_price_cents * m.quantity
        >= 0 && m.current_price_cents * m.quantity <= 0xfffffffe00000001
        && m.current_price_cents * m.quantity >= 0) by (nonlinear_arith)
        requires
            m.buy_price_cents <= 0xffffffffu32,
            m.current_price_cents <= 0xffffffffu32,
            m.quantity <= 0xffffffffu32,
    ;
}

/// Both summary sums are non-negative and grow by at most one maximal term
/// per asset.
pub proof fn lemma_sum_bounds(s: Seq<AssetModel>)
    ensures
        0 <= spec_net_buy(s) <= s.len() * 0xfffffffe00000001,
        0 <= spec_market_value(s) <= s.len() * 0xfffffffe00000001,
    decreases s.len(),
{
    if s.len() == 0 {
    } else {
        lemma_sum_bounds(s.drop_last());
        lemma_term_bounds(s.last());
        assert((s.len() - 1) * 0xfffffffe00000001 + 0xfffffffe00000001 == s.len()
            * 0xfffffffe00000001) by (nonlinear_arith);
    }
}

/// The summary of the held positions, in integer cents.
///
/// `unrealized_gain_loss_cents` is the net buy price minus the market value,
/// kept signed so that a gain shows as a negative amount instead of
/// wrapping around.
pub struct Summary {
    pub net_buy_cents: i64,
    pub market_value_cents: i64,
    pub unrealized_gain_loss_cents: i64,
}

/// The summary sums of a portfolio do not fit the summary's signed fields.
#[derive(PartialEq, Eq, Structural, Clone, Copy, Debug)]
pub struct SummaryOverflow;

impl Portfolio {
    /// An empty portfolio, as the process starts with.
    pub fn new() -> (r: Portfolio)
        ensures
            r@ == Seq::<AssetModel>::empty(),
    {
        let r = Portfolio { assets: Vec::new() };
        proof {
            assert(r@ =~= Seq::<AssetModel>::empty());
        }
        r
    }

    /// The number of assets.
    pub fn len(&self) -> (r: usize)
        ensures
            r == self@.len(),
    {
        self.assets.len()
    }

    /// Appends a new asset, keeping the insertion order.
    pub fn push_asset(&mut self, a: Asset)
        ensures
            final(self)@ == old(self)@.push(a@),
    {
        self.assets.push(a);
        proof {
            assert(self@ =~= old(self)@.push(a@));
        }
    }

    /// Computes the summary over the held assets: the net buy price, the
    /// market value, and the unrealized gain or loss as their signed
    /// difference. Fails exactly when one of the two sums exceeds what the
    /// summary's signed fields can hold.
    pub fn summary(&self) -> (r: Result<Summary, SummaryOverflow>)
        ensures
            (r is Ok) == (spec_net_buy(self@) <= i64::MAX && spec_market_value(self@)
                <= i64::MAX),
            r matches Ok(s) ==> {
                &&& s.net_buy_cents == spec_net_buy(self@)
                &&& s.market_value_cents == spec_market_value(self@)
                &&& s.unrealized_gain_loss_cents == spec_net_buy(self@) - spec_market_value(
                    self@,
                )
            },
    {
        let ghost m = self@;
        let mut net: u128 = 0;
        let mut market: u128 = 0;
        let n = self.assets.len();
        let mut i: usize = 0;
        while i < n
            invariant
                0 <= i <= n,
                n == m.len(),
                m == self@,
                net == spec_net_buy(m.subrange(0, i as int)),
                market == spec_market_value(m.subrange(0, i as int)),
            decreases n - i,
        {
            proof {
                lemma_sum_bounds(m.subrange(0, i + 1));
                lemma_term_bounds(m[i as int]);
                assert(m.subrange(0, i + 1).drop_last() =~= m.subrange(0, i as int));
                assert(m.subrange(0, i + 1).last() == m[i as int]);
                assert((i + 1) * 0xfffffffe00000001 <= m.len() * 0xfffffffe00000001) by (
                nonlinear_arith)
                    requires
                        i + 1 <= m.len(),
                ;
                assert(m.len() * 0xfffffffe00000001 < u128::MAX) by (nonlinear_arith)
                    requires
                        m.len() <= usize::MAX <= 0xffffffffffffffffu64,
                ;
            }
            let a = &self.assets[i];
            if a.sell_price_cents.is_none() {
                let bt: u64 = (a.buy_price_cents as u64) * (a.quantity as u64);
                let mt: u64 = (a.current_price_cents as u64) * (a.quantity as u64);
                net = net + bt as u128;
                market = market + mt as u128;
            }
            i = i + 1;
        }
        proof {
            assert(m.subrange(0, n as int) =~= m);
        }
        if net > i64::MAX as u128 || market > i64::MAX as u128 {
            Err(SummaryOverflow)
        } else {
            let net_i = net as i64;
            let market_i = market as i64;
            Ok(
                Summary {
                    net_buy_cents: net_i,
                    market_value_cents: market_i,
                    unrealized_gain_loss_cents: net_i - market_i,
                },
            )
        }
    }

    /// Overwrites each asset's current price with the freshly looked-up one
    /// where the lookup succeeded, leaves the asset untouched where it
    /// failed, and returns the tickers of the failed lookups in order.
    pub fn apply_refresh(&mut self, prices: &Vec<Option<u32>>) -> (failed: Vec<String>)
        requires
            prices@.len() == old(self)@.len(),
        ensures
            final(self)@.len() == old(self)@.len(),
            forall|i: int|
                0 <= i < old(self)@.len() ==> final(self)@[i] == (match prices@[i] {
                    Some(p) => with_current(old(self)@[i], p),
                    None => old(self)@[i],
                }),
            failed@.map_values(|t: String| t@) == spec_failed_tickers(old(self)@, prices@),
    {
        let ghost m0 = old(self)@;
        let mut failed: Vec<String> = Vec::new();
        let n = self.assets.len();
        let mut i: usize = 0;
        while i < n
            invariant
                0 <= i <= n,
                n == m0.len(),
                prices@.len() == m0.len(),
                self@.len() == m0.len(),
                forall|j: int|
                    0 <= j < i ==> self@[j] == (match prices@[j] {
                        Some(p) => with_current(m0[j], p),
                        None => m0[j],
                    }),
                forall|j: int| i <= j < m0.len() ==> self@[j] == m0[j],
                failed@.map_values(|t: String| t@) == spec_failed_tickers(
                    m0.subrange(0, i as int),
                    prices@.subrange(0, i as int),
                ),
            decreases n - i,
        {
            proof {
                assert(m0.subrange(0, i + 1).drop_last() =~= m0.subrange(0, i as int));
                assert(prices@.subrange(0, i + 1).drop_last() =~= prices@.subrange(0, i as int));
            }
            let ghost pre = self@;
            match prices[i] {
                Some(p) => {
                    self.assets[i].current_price_cents = p;
                    proof {
                        assert(self@ =~= pre.update(i as int, with_current(pre[i as int], p)));
                    }
                },
                None => {
                    let t = self.assets[i].ticker.clone();
                    failed.push(t);
                },
            }
            i = i + 1;
            proof {
                assert(failed@.map_values(|t: String| t@) =~= spec_failed_tickers(
                    m0.subrange(0, i as int),
                    prices@.subrange(0, i as int),
                ));
            }
        }
        proof {
            assert(m0.subrange(0, n as int) =~= m0);
            assert(prices@.subrange(0, n as int) =~= prices@);
        }
        failed
    }
}

/// `m` with its current price replaced.
pub open spec fn with_current(m: AssetModel, p: u32) -> AssetModel {
    AssetModel { current_price_cents: p, ..m }
}

/// `m` marked sold at `p`.
pub open spec fn mark_sold(m: AssetModel, p: u32) -> AssetModel {
    AssetModel { sell_price_cents: Some(p), ..m }
}

/// The tickers of the assets whose price lookup failed, in portfolio order.
pub open spec fn spec_failed_tickers(s: Seq<AssetModel>, prices: Seq<Option<u32>>) -> Seq<
    Seq<char>,
>
    recommends
        prices.len() == s.len(),
    decreases s.len(),
{
    if s.len() == 0 || prices.len() == 0 {
        Seq::empty()
    } else {
        spec_failed_tickers(s.drop_last(), prices.drop_last()) + (match prices.last() {
            Some(_) => Seq::<Seq<char>>::empty(),
            None => seq![s.last().ticker],
        })
    }
}

/// Once an asset is sold, its current price has no effect on the summary:
/// overwriting the current price of a sold asset changes neither the net
/// buy price nor the market value.
pub proof fn lemma_sold_price_irrelevant(s: Seq<AssetModel>, i: int, p: u32)
    requires
        0 <= i < s.len(),
        s[i].is_sold(),
    ensures
        spec_net_buy(s.update(i, with_current(s[i], p))) == spec_net_buy(s),
        spec_market_value(s.update(i, with_current(s[i], p))) == spec_market_value(s),
    decreases s.len(),
{
    let t = s.update(i, with_current(s[i], p));
    if i == s.len() - 1 {
        assert(t.drop_last() =~= s.drop_last());
    } else {
        assert(t.drop_last() =~= s.drop_last().update(i, with_current(s[i], p)));
        lemma_sold_price_irrelevant(s.drop_last(), i, p);
    }
}

/// Marking a held asset as sold removes exactly its contribution from both
/// summary sums: the net buy price drops by its buy term and the market
/// value by its market term.
pub proof fn lemma_mark_sold_excludes(s: Seq<AssetModel>, i: int, p: u32)
    requires
        0 <= i < s.len(),
        s[i].is_held(),
    ensures
        spec_net_buy(s.update(i, mark_sold(s[i], p))) == spec_net_buy(s) - s[i].buy_price_cents
            * s[i].quantity,
        spec_market_value(s.update(i, mark_sold(s[i], p))) == spec_market_value(s)
            - s[i].current_price_cents * s[i].quantity,
    decreases s.len(),
{
    let t = s.update(i, mark_sold(s[i], p));
    if i == s.len() - 1 {
        assert(t.drop_last() =~= s.drop_last());
    } else {
        assert(t.drop_last() =~= s.drop_last().update(i, mark_sold(s[i], p)));
        lemma_mark_sold_excludes(s.drop_last(), i, p);
    }
}

} // verus!
