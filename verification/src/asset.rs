//! The asset model: one purchased position, either still held or already
//! sold, with its prices kept as integer cents.

use vstd::prelude::*;

verus! {

/// Mathematical model of an [`Asset`]: the ticker as a character sequence,
/// the prices and the quantity as they stand in the fields.
pub struct AssetModel {
    pub ticker: Seq<char>,
    pub buy_price_cents: u32,
    pub current_price_cents: u32,
    pub sell_price_cents: Option<u32>,
    pub quantity: u32,
}

impl AssetModel {
    /// An asset is sold exactly when a sell price has been recorded.
    pub open spec fn is_sold(self) -> bool {
        self.sell_price_cents is Some
    }

    /// An asset is held exactly when it is not sold.
    pub open spec fn is_held(self) -> bool {
        !self.is_sold()
    }

    /// Well-formedness: the ticker is a non-empty symbol and the quantity is
    /// a positive number of units.
    pub open spec fn wf(self) -> bool {
        &&& self.ticker.len() > 0
        &&& self.quantity >= 1
    }

    /// The price a percent change is measured against: the latest market
    /// price while held, the recorded sell price once sold.
    pub open spec fn effective_price(self) -> u32 {
        match self.sell_price_cents {
            Some(sell) => sell,
            None => self.current_price_cents,
        }
    }
}

/// One purchased position.
///
/// `buy_price_cents` is the total cost basis paid; `current_price_cents` is
/// the latest known market price, meaningless once the asset is sold but
/// retained; a present `sell_price_cents` marks the asset as sold.
pub struct Asset {
    pub ticker: String,
    pub buy_price_cents: u32,
    pub current_price_cents: u32,
    pub sell_price_cents: Option<u32>,
    pub quantity: u32,
}

impl View for Asset {
    type V = AssetModel;

    open spec fn view(&self) -> AssetModel {
        AssetModel {
            ticker: self.ticker@,
            buy_price_cents: self.buy_price_cents,
            current_price_cents: self.current_price_cents,
            sell_price_cents: self.sell_price_cents,
            quantity: self.quantity,
        }
    }
}

impl Asset {
    /// Whether a sell price has been recorded for this asset.
    pub fn is_sold(&self) -> (r: bool)
        ensures
            r == self@.is_sold(),
    {
        self.sell_price_cents.is_some()
    }

    /// Whether this asset is still held.
    pub fn is_held(&self) -> (r: bool)
        ensures
            r == self@.is_held(),
    {
        !self.is_sold()
    }

    /// The price a percent change is measured against: the current price
    /// while held, the sell price once sold.
    pub fn effective_price(&self) -> (r: u32)
        ensures
            r == self@.effective_price(),
    {
        match self.sell_price_cents {
            Some(sell) => sell,
            None => self.current_price_cents,
        }
    }
}

} // verus!
