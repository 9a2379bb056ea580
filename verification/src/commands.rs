//! The command surface of the interactive loop: recognizing a command line,
//! parsing the inputs of the `new` command, and the help text.

use vstd::prelude::*;

use crate::asset::{Asset, AssetModel};
use crate::codec::{parse_portfolio, sp_portfolio};
use crate::digits::spec_parse_u32_all;
use crate::digits::parse_u32_token;
use crate::portfolio::{wf_portfolio, Portfolio};

verus! {

/// One command of the interactive loop, or `Blank` for an empty line, or
/// `Unknown` for anything else.
#[derive(PartialEq, Eq, Structural, Clone, Copy, Debug)]
pub enum Command {
    Assets,
    Summary,
    New,
    Help,
    Load,
    Dump,
    Refresh,
    Exit,
    Blank,
    Unknown,
}

/// Which command a line of input names: the eight known command words map
/// to themselves, the empty line to `Blank`, anything else to `Unknown`.
pub open spec fn spec_parse_command(s: Seq<char>) -> Command {
    if s == "assets"@ {
        Command::Assets
    } else if s == "summary"@ {
        Command::Summary
    } else if s == "new"@ {
        Command::New
    } else if s == "help"@ {
        Command::Help
    } else if s == "load"@ {
        Command::Load
    } else if s == "dump"@ {
        Command::Dump
    } else if s == "refresh"@ {
        Command::Refresh
    } else if s == "exit"@ {
        Command::Exit
    } else if s == ""@ {
        Command::Blank
    } else {
        Command::Unknown
    }
}

/// Character-for-character string equality.
pub fn str_eq(a: &str, b: &str) -> (r: bool)
    ensures
        r == (a@ == b@),
{
    let la = a.unicode_len();
    let lb = b.unicode_len();
    if la != lb {
        return false;
    }
    let mut i: usize = 0;
    while i < la
        invariant
            0 <= i <= la,
            la == a@.len(),
            la == b@.len(),
            forall|j: int| 0 <= j < i ==> a@[j] == b@[j],
        decreases la - i,
    {
        if a.get_char(i) != b.get_char(i) {
            return false;
        }
        i = i + 1;
    }
    proof {
        assert(a@ =~= b@);
    }
    true
}

/// Recognizes one line of input as a command.
pub fn parse_command(line: &str) -> (c: Command)
    ensures
        c == spec_parse_command(line@),
{
    if str_eq(line, "assets") {
        Command::Assets
    } else if str_eq(line, "summary") {
        Command::Summary
    } else if str_eq(line, "new") {
        Command::New
    } else if str_eq(line, "help") {
        Command::Help
    } else if str_eq(line, "load") {
        Command::Load
    } else if str_eq(line, "dump") {
        Command::Dump
    } else if str_eq(line, "refresh") {
        Command::Refresh
    } else if str_eq(line, "exit") {
        Command::Exit
    } else if str_eq(line, "") {
        Command::Blank
    } else {
        Command::Unknown
    }
}

/// Which input of the `new` command was malformed.
#[derive(PartialEq, Eq, Structural, Clone, Copy, Debug)]
pub enum InputParseError {
    /// The ticker was empty.
    EmptyTicker,
    /// The buy price was not an unsigned decimal number in range.
    InvalidBuyPrice,
    /// The sell price was neither `held` nor such a number.
    InvalidSellPrice,
    /// The quantity was not such a number, or was zero.
    InvalidQuantity,
}

/// What a sell-price token denotes: the exact word `held` marks the asset
/// as not sold; otherwise the token must be an unsigned decimal number.
pub open spec fn spec_parse_sell(s: Seq<char>) -> Option<Option<u32>> {
    if s == "held"@ {
        Some(None)
    } else {
        match spec_parse_u32_all(s) {
            Some(v) => Some(Some(v)),
            None => None,
        }
    }
}

/// Parses the sell-price input of the `new` command: `held` means the asset
/// is not sold; any other input must be a price in cents.
pub fn parse_sell_price(tok: &str) -> (r: Result<Option<u32>, InputParseError>)
    ensures
        (r is Ok) == (spec_parse_sell(tok@) is Some),
        r matches Ok(v) ==> Some(v) == spec_parse_sell(tok@),
        r matches Err(e) ==> e == InputParseError::InvalidSellPrice,
{
    if str_eq(tok, "held") {
        Ok(None)
    } else {
        match parse_u32_token(tok) {
            Some(v) => Ok(Some(v)),
            None => Err(InputParseError::InvalidSellPrice),
        }
    }
}

/// The validated inputs of the `new` command, before the price lookup.
pub struct NewAssetInput {
    pub ticker: String,
    pub buy_price_cents: u32,
    pub sell_price_cents: Option<u32>,
    pub quantity: u32,
}

impl NewAssetInput {
    /// Validity: the ticker is non-empty and the quantity positive.
    pub open spec fn wf(&self) -> bool {
        &&& self.ticker@.len() > 0
        &&& self.quantity >= 1
    }

    /// Builds the asset the `new` command appends, once the price lookup
    /// has supplied the current price.
    pub fn into_asset(self, current_price_cents: u32) -> (a: Asset)
        ensures
            a@ == (AssetModel {
                ticker: self.ticker@,
                buy_price_cents: self.buy_price_cents,
                current_price_cents: current_price_cents,
                sell_price_cents: self.sell_price_cents,
                quantity: self.quantity,
            }),
            self.wf() ==> a@.wf(),
    {
        Asset {
            ticker: self.ticker,
            buy_price_cents: self.buy_price_cents,
            current_price_cents: current_price_cents,
            sell_price_cents: self.sell_price_cents,
            quantity: self.quantity,
        }
    }
}

/// Validates the four raw inputs of the `new` command. Succeeds exactly
/// when the ticker is non-empty, the buy price and the quantity are
/// unsigned decimal numbers, the quantity is positive, and the sell price
/// is `held` or such a number; the error names the first input that fails,
/// checked in that order, and nothing is appended anywhere.
pub fn parse_new_asset_input(ticker: &str, buy_raw: &str, sell_raw: &str, qty_raw: &str) -> (r:
    Result<NewAssetInput, InputParseError>)
    ensures
        (r is Ok) == ({
            &&& ticker@.len() > 0
            &&& spec_parse_u32_all(buy_raw@) is Some
            &&& spec_parse_sell(sell_raw@) is Some
            &&& spec_parse_u32_all(qty_raw@) is Some
            &&& spec_parse_u32_all(qty_raw@)->0 >= 1
        }),
        r matches Ok(inp) ==> {
            &&& inp.ticker@ == ticker@
            &&& Some(inp.buy_price_cents) == spec_parse_u32_all(buy_raw@)
            &&& Some(inp.sell_price_cents) == spec_parse_sell(sell_raw@)
            &&& Some(inp.quantity) == spec_parse_u32_all(qty_raw@)
            &&& inp.wf()
        },
        r matches Err(e) ==> e == ({
            if ticker@.len() == 0 {
                InputParseError::EmptyTicker
            } else if spec_parse_u32_all(buy_raw@) is None {
                InputParseError::InvalidBuyPrice
            } else if spec_parse_sell(sell_raw@) is None {
                InputParseError::InvalidSellPrice
            } else {
                InputParseError::InvalidQuantity
            }
        }),
{
    if ticker.unicode_len() == 0 {
        return Err(InputParseError::EmptyTicker);
    }
    let buy_price_cents = match parse_u32_token(buy_raw) {
        Some(v) => v,
        None => {
            return Err(InputParseError::InvalidBuyPrice);
        },
    };
    let sell_price_cents = match parse_sell_price(sell_raw) {
        Ok(v) => v,
        Err(e) => {
            return Err(e);
        },
    };
    let quantity = match parse_u32_token(qty_raw) {
        Some(v) => v,
        None => {
            return Err(InputParseError::InvalidQuantity);
        },
    };
    if quantity == 0 {
        return Err(InputParseError::InvalidQuantity);
    }
    Ok(
        NewAssetInput {
            ticker: ticker.to_owned(),
            buy_price_cents,
            sell_price_cents,
            quantity,
        },
    )
}

/// Why a `load` command failed.
#[derive(PartialEq, Eq, Structural, Clone, Copy, Debug)]
pub enum LoadError {
    /// The file could not be read at all.
    Unreadable,
    /// The file's contents are not a well-formed portfolio document.
    Malformed,
}

/// The `load` command's decision: given the file's contents (`None` when
/// the file could not be read), replaces the whole portfolio on a
/// successful parse and leaves it exactly as it was on any failure.
pub fn apply_load(p: &mut Portfolio, contents: Option<&str>) -> (r: Result<(), LoadError>)
    ensures
        (r is Ok) == (contents matches Some(s) && sp_portfolio(s@) is Some),
        r is Ok ==> Some(final(p)@) == sp_portfolio(contents->0@) && wf_portfolio(final(p)@),
        r matches Err(e) ==> *final(p) == *old(p) && ((e == LoadError::Unreadable) == (
        contents is None)),
{
    match contents {
        None => Err(LoadError::Unreadable),
        Some(s) => match parse_portfolio(s) {
            Some(loaded) => {
                *p = loaded;
                Ok(())
            },
            None => Err(LoadError::Malformed),
        },
    }
}

/// The help text the `help` command prints: one line per command.
pub fn help_text() -> (r: String)
    ensures
        r@
            == "assets - prints all assets, both held and sold\nsummary - prints a summary of the loaded portfolio\nnew - adds a new asset\nhelp - prints this help text\nload - loads assets from a file\ndump - saves assets to a file\nrefresh - updates the current price of all assets\nexit - exits the program"@,
{
    String::from_str(
        "assets - prints all assets, both held and sold\nsummary - prints a summary of the loaded portfolio\nnew - adds a new asset\nhelp - prints this help text\nload - loads assets from a file\ndump - saves assets to a file\nrefresh - updates the current price of all assets\nexit - exits the program",
    )
}

} // verus!
