//! The persistence codec: the portfolio's file format, a JSON object with
//! one field `assets`, rendered and parsed by verified code. Dumping then
//! parsing returns the portfolio unchanged; parsing validates the structure
//! and every field.

use vstd::prelude::*;

use crate::asset::{Asset, AssetModel};
use crate::digits::{
    all_digits, digits_val, is_digit_char, lemma_digits_val_prefix_le, lemma_digits_val_spec_dec,
    lemma_spec_dec_digits, push_dec, spec_dec,
};
use crate::portfolio::{wf_portfolio, Portfolio};

verus! {

// ---------------------------------------------------------------------------
// Serialization: the document a portfolio is persisted as.
// ---------------------------------------------------------------------------
/// How one character is written inside a JSON string: quote and backslash
/// get a backslash escape, every other character stands as itself.
pub open spec fn escape_char(c: char) -> Seq<char> {
    if c == '"' {
        seq!['\\', '"']
    } else if c == '\\' {
        seq!['\\', '\\']
    } else {
        seq![c]
    }
}

/// How a whole string is written inside a JSON string literal.
pub open spec fn escape(s: Seq<char>) -> Seq<char>
    decreases s.len(),
{
    if s.len() == 0 {
        Seq::empty()
    } else {
        escape_char(s[0]) + escape(s.skip(1))
    }
}

/// Escaping a single character gives exactly its escaped form.
pub proof fn lemma_escape_single(c: char)
    ensures
        escape(seq![c]) == escape_char(c),
{
    let s = seq![c];
    assert(s.skip(1) =~= Seq::<char>::empty());
    assert(escape(Seq::<char>::empty()) =~= Seq::<char>::empty());
    assert(s[0] == c);
    assert(escape(s) == escape_char(c) + escape(s.skip(1)));
    assert(escape(s) =~= escape_char(c));
}

/// Escaping distributes over concatenation.
pub proof fn lemma_escape_append(a: Seq<char>, b: Seq<char>)
    ensures
        escape(a + b) == escape(a) + escape(b),
    decreases a.len(),
{
    if a.len() == 0 {
        assert(a + b =~= b);
        assert(escape(a) + escape(b) =~= escape(b));
    } else {
        assert((a + b).skip(1) =~= a.skip(1) + b);
        lemma_escape_append(a.skip(1), b);
        assert(escape(a + b) =~= escape(a) + escape(b));
    }
}

/// The sell-price field's value: the number, or `null` while held.
pub open spec fn json_of_sell(o: Option<u32>) -> Seq<char> {
    match o {
        Some(v) => spec_dec(v as nat),
        None => "null"@,
    }
}

/// The last two fields of an asset's document, and its closing brace.
pub open spec fn json_of_asset_tail(sell: Option<u32>, qty: u32) -> Seq<char> {
    ",\"sell_price_cents\":"@ + (json_of_sell(sell) + (",\"quantity\":"@ + (spec_dec(qty as nat)
        + "}"@)))
}

/// The document one asset is written as: an object with the five fields in
/// a fixed order.
pub open spec fn json_of_asset(m: AssetModel) -> Seq<char> {
    "{\"ticker\":\""@ + (escape(m.ticker) + ("\",\"buy_price_cents\":"@ + (spec_dec(
        m.buy_price_cents as nat,
    ) + (",\"current_price_cents\":"@ + (spec_dec(m.current_price_cents as nat)
        + json_of_asset_tail(m.sell_price_cents, m.quantity))))))
}

/// The comma-separated list of asset documents, in portfolio order.
pub open spec fn json_of_assets(s: Seq<AssetModel>) -> Seq<char>
    decreases s.len(),
{
    if s.len() == 0 {
        Seq::empty()
    } else if s.len() == 1 {
        json_of_asset(s[0])
    } else {
        json_of_assets(s.drop_last()) + ","@ + json_of_asset(s.last())
    }
}

/// The document a whole portfolio is persisted as.
pub open spec fn json_of_portfolio(s: Seq<AssetModel>) -> Seq<char> {
    "{\"assets\":["@ + (json_of_assets(s) + "]}"@)
}

/// Appends `t` to `out` in its escaped form.
fn push_escaped(out: &mut String, t: &str)
    ensures
        final(out)@ == old(out)@ + escape(t@),
{
    let len = t.unicode_len();
    let mut i: usize = 0;
    while i < len
        invariant
            0 <= i <= len,
            len == t@.len(),
            out@ == old(out)@ + escape(t@.subrange(0, i as int)),
        decreases len - i,
    {
        let ghost pre = t@.subrange(0, i as int);
        let c = t.get_char(i);
        if c == '"' {
            proof {
                reveal_strlit("\\\"");
            }
            out.append("\\\"");
        } else if c == '\\' {
            proof {
                reveal_strlit("\\\\");
            }
            out.append("\\\\");
        } else {
            let piece = t.substring_char(i, i + 1);
            proof {
                assert(piece@ =~= seq![t@[i as int]]);
            }
            out.append(piece);
        }
        proof {
            assert(t@.subrange(0, i + 1) =~= pre + seq![t@[i as int]]);
            lemma_escape_append(pre, seq![t@[i as int]]);
            lemma_escape_single(t@[i as int]);
            assert(out@ =~= old(out)@ + escape(t@.subrange(0, i + 1)));
        }
        i = i + 1;
    }
    proof {
        assert(t@.subrange(0, len as int) =~= t@);
    }
}

/// Appends the document of one asset to `out`.
#[verifier::rlimit(100)]
fn push_asset_json(out: &mut String, a: &Asset)
    ensures
        final(out)@ == old(out)@ + json_of_asset(a@),
{
    out.append("{\"ticker\":\"");
    push_escaped(out, a.ticker.as_str());
    out.append("\",\"buy_price_cents\":");
    push_dec(out, a.buy_price_cents as u64);
    out.append(",\"current_price_cents\":");
    push_dec(out, a.current_price_cents as u64);
    out.append(",\"sell_price_cents\":");
    match a.sell_price_cents {
        Some(v) => push_dec(out, v as u64),
        None => out.append("null"),
    }
    out.append(",\"quantity\":");
    push_dec(out, a.quantity as u64);
    out.append("}");
    proof {
        assert(out@ =~= old(out)@ + json_of_asset(a@));
    }
}

/// Renders the document the portfolio is persisted as.
pub fn dump_portfolio(p: &Portfolio) -> (r: String)
    ensures
        r@ == json_of_portfolio(p@),
{
    let ghost m = p@;
    let mut out = String::new();
    out.append("{\"assets\":[");
    let n = p.assets.len();
    let mut i: usize = 0;
    while i < n
        invariant
            0 <= i <= n,
            n == m.len(),
            m == p@,
            out@ == "{\"assets\":["@ + json_of_assets(m.subrange(0, i as int)),
        decreases n - i,
    {
        if i > 0 {
            out.append(",");
        }
        push_asset_json(&mut out, &p.assets[i]);
        proof {
            let sub = m.subrange(0, i + 1);
            assert(sub.drop_last() =~= m.subrange(0, i as int));
            assert(sub.last() == m[i as int]);
            if i == 0 {
                assert(json_of_assets(sub) == json_of_asset(m[0]));
                assert(out@ =~= "{\"assets\":["@ + json_of_assets(sub));
            } else {
                assert(json_of_assets(sub) == json_of_assets(m.subrange(0, i as int)) + ","@
                    + json_of_asset(m[i as int]));
                assert(out@ =~= "{\"assets\":["@ + json_of_assets(sub));
            }
        }
        i = i + 1;
    }
    out.append("]}");
    proof {
        assert(m.subrange(0, n as int) =~= m);
        assert(out@ =~= json_of_portfolio(m));
    }
    out
}

// ---------------------------------------------------------------------------
// Parsing: the deterministic reading of such a document.
// ---------------------------------------------------------------------------
/// JSON whitespace.
pub open spec fn is_ws(c: char) -> bool {
    c == ' ' || c == '\n' || c == '\t' || c == '\r'
}

/// The first position at or after `i` that does not hold whitespace.
pub open spec fn sp_ws(s: Seq<char>, i: int) -> int
    decreases s.len() - i,
{
    if 0 <= i < s.len() && is_ws(s[i]) {
        sp_ws(s, i + 1)
    } else {
        i
    }
}

/// Whether the literal `l` stands at `i`; on a match, the position after it.
pub open spec fn sp_lit(s: Seq<char>, i: int, l: Seq<char>) -> Option<int> {
    if 0 <= i && i + l.len() <= s.len() && s.subrange(i, i + l.len()) == l {
        Some(i + l.len())
    } else {
        None
    }
}

/// The longest run of digit characters from `i`, and the position after it.
pub open spec fn sp_digits(s: Seq<char>, i: int) -> (Seq<char>, int)
    decreases s.len() - i,
{
    if 0 <= i < s.len() && is_digit_char(s[i]) {
        let (ds, j) = sp_digits(s, i + 1);
        (seq![s[i]] + ds, j)
    } else {
        (Seq::empty(), i)
    }
}

/// A number at `i`: a non-empty digit run whose value fits in a `u32`.
pub open spec fn sp_u32(s: Seq<char>, i: int) -> Option<(u32, int)> {
    let (ds, j) = sp_digits(s, i);
    if ds.len() == 0 || digits_val(ds) > u32::MAX {
        None
    } else {
        Some((digits_val(ds) as u32, j))
    }
}

/// The body of a string literal from `i` (after the opening quote): the
/// characters up to the closing quote, with backslash escapes for quote and
/// backslash undone; any other escape, or a missing closing quote, fails.
pub open spec fn sp_str_body(s: Seq<char>, i: int) -> Option<(Seq<char>, int)>
    decreases s.len() - i,
{
    if !(0 <= i < s.len()) {
        None
    } else if s[i] == '"' {
        Some((Seq::empty(), i + 1))
    } else if s[i] == '\\' {
        if i + 1 < s.len() && (s[i + 1] == '"' || s[i + 1] == '\\') {
            match sp_str_body(s, i + 2) {
                Some((t, j)) => Some((seq![s[i + 1]] + t, j)),
                None => None,
            }
        } else {
            None
        }
    } else {
        match sp_str_body(s, i + 1) {
            Some((t, j)) => Some((seq![s[i]] + t, j)),
            None => None,
        }
    }
}

/// A string literal at `i`: an opening quote followed by a body.
pub open spec fn sp_string(s: Seq<char>, i: int) -> Option<(Seq<char>, int)> {
    if 0 <= i < s.len() && s[i] == '"' {
        sp_str_body(s, i + 1)
    } else {
        None
    }
}

/// A sell-price value at `i`: `null` while held, else a number.
pub open spec fn sp_sell(s: Seq<char>, i: int) -> Option<(Option<u32>, int)> {
    match sp_lit(s, i, "null"@) {
        Some(j) => Some((None, j)),
        None => match sp_u32(s, i) {
            Some((v, j)) => Some((Some(v), j)),
            None => None,
        },
    }
}

/// A field key at `i`: optional whitespace, the quoted key name, optional
/// whitespace, and a colon; on a match, the position after the colon.
pub open spec fn sp_key(s: Seq<char>, i: int, name: Seq<char>) -> Option<int> {
    let j = sp_ws(s, i);
    match sp_lit(s, j, name) {
        Some(k) => {
            let k2 = sp_ws(s, k);
            if 0 <= k2 < s.len() && s[k2] == ':' {
                Some(k2 + 1)
            } else {
                None
            }
        },
        None => None,
    }
}

/// A comma at `i`, after optional whitespace.
pub open spec fn sp_comma(s: Seq<char>, i: int) -> Option<int> {
    let j = sp_ws(s, i);
    if 0 <= j < s.len() && s[j] == ',' {
        Some(j + 1)
    } else {
        None
    }
}

/// A colon at `i`, after optional whitespace.
pub open spec fn sp_after_colon(s: Seq<char>, i: int) -> Option<int> {
    let k = sp_ws(s, i);
    if 0 <= k < s.len() && s[k] == ':' {
        Some(k + 1)
    } else {
        None
    }
}

/// The rest of an asset object after a `"quantity"` key: colon, number,
/// and the closing brace; on a match, the quantity and the position after
/// the brace.
pub open spec fn sp_qty_tail(s: Seq<char>, i: int) -> Option<(u32, int)> {
    match sp_after_colon(s, i) {
        Some(k) => {
            let k2 = sp_ws(s, k);
            match sp_u32(s, k2) {
                Some((q, k3)) => {
                    let k4 = sp_ws(s, k3);
                    if 0 <= k4 < s.len() && s[k4] == '}' {
                        Some((q, k4 + 1))
                    } else {
                        None
                    }
                },
                None => None,
            }
        },
        None => None,
    }
}

/// The rest of an asset object after the current-price value: either the
/// closing brace at once (no sell price recorded, quantity one), or a sell
/// price and then optionally a quantity. Returns the sell price, the
/// quantity, and the position after the closing brace.
pub open spec fn sp_asset_tail(s: Seq<char>, i: int) -> Option<(Option<u32>, u32, int)> {
    let k = sp_ws(s, i);
    if 0 <= k < s.len() && s[k] == '}' {
        Some((None, 1u32, k + 1))
    } else if 0 <= k < s.len() && s[k] == ',' {
        let k1 = sp_ws(s, k + 1);
        match sp_lit(s, k1, "\"sell_price_cents\""@) {
            Some(k2) => match sp_after_colon(s, k2) {
                Some(k3) => {
                    let k4 = sp_ws(s, k3);
                    match sp_sell(s, k4) {
                        Some((sell, k5)) => {
                            let k6 = sp_ws(s, k5);
                            if 0 <= k6 < s.len() && s[k6] == '}' {
                                Some((sell, 1u32, k6 + 1))
                            } else if 0 <= k6 < s.len() && s[k6] == ',' {
                                let k7 = sp_ws(s, k6 + 1);
                                match sp_lit(s, k7, "\"quantity\""@) {
                                    Some(k8) => match sp_qty_tail(s, k8) {
                                        Some((q, e)) => Some((sell, q, e)),
                                        None => None,
                                    },
                                    None => None,
                                }
                            } else {
                                None
                            }
                        },
                        None => None,
                    }
                },
                None => None,
            },
            None => match sp_lit(s, k1, "\"quantity\""@) {
                Some(k8) => match sp_qty_tail(s, k8) {
                    Some((q, e)) => Some((None, q, e)),
                    None => None,
                },
                None => None,
            },
        }
    } else {
        None
    }
}

/// One asset object at `i`: the braces, the ticker, the two prices, and
/// optionally a sell price and a quantity, in that key order; the ticker
/// must be non-empty and the quantity positive. On a match, the asset and
/// the position after its closing brace.
pub open spec fn sp_asset(s: Seq<char>, i: int) -> Option<(AssetModel, int)> {
    let j0 = sp_ws(s, i);
    if !(0 <= j0 < s.len() && s[j0] == '{') {
        None
    } else {
        match sp_key(s, j0 + 1, "\"ticker\""@) {
            Some(j1) => {
                let j2 = sp_ws(s, j1);
                match sp_string(s, j2) {
                    Some((t, j3)) => if t.len() == 0 {
                        None
                    } else {
                        match sp_comma(s, j3) {
                            Some(j4) => match sp_key(s, j4, "\"buy_price_cents\""@) {
                                Some(j5) => {
                                    let j6 = sp_ws(s, j5);
                                    match sp_u32(s, j6) {
                                        Some((buy, j7)) => match sp_comma(s, j7) {
                                            Some(j8) => match sp_key(
                                                s,
                                                j8,
                                                "\"current_price_cents\""@,
                                            ) {
                                                Some(j9) => {
                                                    let j10 = sp_ws(s, j9);
                                                    match sp_u32(s, j10) {
                                                        Some((cur, j11)) => match sp_asset_tail(
                                                            s,
                                                            j11,
                                                        ) {
                                                            Some((sell, qty, e)) => if qty >= 1 {
                                                                Some(
                                                                    (
                                                                        AssetModel {
                                                                            ticker: t,
                                                                            buy_price_cents: buy,
                                                                            current_price_cents:
                                                                                cur,
                                                                            sell_price_cents: sell,
                                                                            quantity: qty,
                                                                        },
                                                                        e,
                                                                    ),
                                                                )
                                                            } else {
                                                                None
                                                            },
                                                            None => None,
                                                        },
                                                        None => None,
                                                    }
                                                },
                                                None => None,
                                            },
                                            None => None,
                                        },
                                        None => None,
                                    }
                                },
                                None => None,
                            },
                            None => None,
                        }
                    },
                    None => None,
                }
            },
            None => None,
        }
    }
}

/// A non-empty, comma-separated list of asset objects from `i`, consumed
/// through the closing bracket. `fuel` bounds the number of commas and
/// shrinks by one per element; the callers pass the document length, which
/// is always enough.
pub open spec fn sp_asset_list(s: Seq<char>, i: int, fuel: nat) -> Option<(Seq<AssetModel>, int)>
    decreases fuel,
{
    match sp_asset(s, i) {
        Some((a, j)) => {
            let k = sp_ws(s, j);
            if 0 <= k < s.len() && s[k] == ',' {
                if fuel == 0 {
                    None
                } else {
                    match sp_asset_list(s, k + 1, (fuel - 1) as nat) {
                        Some((rest, e)) => Some((seq![a] + rest, e)),
                        None => None,
                    }
                }
            } else if 0 <= k < s.len() && s[k] == ']' {
                Some((seq![a], k + 1))
            } else {
                None
            }
        },
        None => None,
    }
}

/// The end of the document after the asset list: the closing brace and
/// then only whitespace to the very end.
pub open spec fn sp_doc_end(s: Seq<char>, i: int) -> bool {
    let e = sp_ws(s, i);
    &&& 0 <= e < s.len()
    &&& s[e] == '}'
    &&& sp_ws(s, e + 1) == s.len()
}

/// A whole portfolio document: an object with the single key `assets`,
/// holding the list of asset objects, and nothing but whitespace after it.
pub open spec fn sp_portfolio(s: Seq<char>) -> Option<Seq<AssetModel>> {
    let i0 = sp_ws(s, 0);
    if !(0 <= i0 < s.len() && s[i0] == '{') {
        None
    } else {
        match sp_key(s, i0 + 1, "\"assets\""@) {
            Some(j) => {
                let j2 = sp_ws(s, j);
                if !(0 <= j2 < s.len() && s[j2] == '[') {
                    None
                } else {
                    let j3 = sp_ws(s, j2 + 1);
                    if 0 <= j3 < s.len() && s[j3] == ']' {
                        if sp_doc_end(s, j3 + 1) {
                            Some(Seq::empty())
                        } else {
                            None
                        }
                    } else {
                        match sp_asset_list(s, j2 + 1, s.len() as nat) {
                            Some((models, k)) => if sp_doc_end(s, k) {
                                Some(models)
                            } else {
                                None
                            },
                            None => None,
                        }
                    }
                }
            },
            None => None,
        }
    }
}

// ---------------------------------------------------------------------------
// The executable parser, step for step the spec parser.
// ---------------------------------------------------------------------------
/// `o` with `prefix` prepended to a successfully parsed string body.
pub open spec fn opt_prepend(prefix: Seq<char>, o: Option<(Seq<char>, int)>) -> Option<
    (Seq<char>, int),
> {
    match o {
        Some((t, j)) => Some((prefix + t, j)),
        None => None,
    }
}

/// Skips whitespace.
fn skip_ws(s: &str, i: usize) -> (j: usize)
    requires
        i <= s@.len(),
    ensures
        j as int == sp_ws(s@, i as int),
        i <= j <= s@.len(),
{
    let len = s.unicode_len();
    let mut k = i;
    while k < len
        invariant
            i <= k <= len,
            len == s@.len(),
            sp_ws(s@, i as int) == sp_ws(s@, k as int),
        decreases len - k,
    {
        let c = s.get_char(k);
        if !(c == ' ' || c == '\n' || c == '\t' || c == '\r') {
            return k;
        }
        k = k + 1;
    }
    k
}

/// Whether the literal `l` stands at `i`.
fn expect_lit(s: &str, i: usize, l: &str) -> (r: Option<usize>)
    requires
        i <= s@.len(),
    ensures
        (r is Some) == (sp_lit(s@, i as int, l@) is Some),
        r matches Some(j) ==> Some(j as int) == sp_lit(s@, i as int, l@) && i <= j <= s@.len(),
{
    let sl = s.unicode_len();
    let ll = l.unicode_len();
    if ll > sl - i {
        return None;
    }
    let mut k: usize = 0;
    while k < ll
        invariant
            0 <= k <= ll,
            ll == l@.len(),
            sl == s@.len(),
            i + ll <= sl,
            forall|m: int| 0 <= m < k ==> s@[i + m] == l@[m],
        decreases ll - k,
    {
        if s.get_char(i + k) != l.get_char(k) {
            proof {
                assert(s@.subrange(i as int, i + ll)[k as int] == s@[i + k]);
                assert(s@.subrange(i as int, i + ll) != l@);
            }
            return None;
        }
        k = k + 1;
    }
    proof {
        assert(s@.subrange(i as int, i + ll) =~= l@);
    }
    Some(i + ll)
}

/// The spec digit run is exactly the maximal run of digits.
proof fn lemma_sp_digits_run(s: Seq<char>, i: int, j: int)
    requires
        0 <= i <= j <= s.len(),
        forall|k: int| i <= k < j ==> is_digit_char(#[trigger] s[k]),
        j == s.len() || !is_digit_char(s[j]),
    ensures
        sp_digits(s, i) == (s.subrange(i, j), j),
    decreases j - i,
{
    if i == j {
        assert(s.subrange(i, j) =~= Seq::<char>::empty());
    } else {
        lemma_sp_digits_run(s, i + 1, j);
        assert(seq![s[i]] + s.subrange(i + 1, j) =~= s.subrange(i, j));
    }
}

/// The position after the run of digit characters starting at `i`.
fn scan_digits(s: &str, i: usize) -> (j: usize)
    requires
        i <= s@.len(),
    ensures
        i <= j <= s@.len(),
        forall|k: int| i <= k < j ==> is_digit_char(#[trigger] s@[k]),
        j == s@.len() || !is_digit_char(s@[j as int]),
{
    let len = s.unicode_len();
    let mut k = i;
    while k < len
        invariant
            i <= k <= len,
            len == s@.len(),
            forall|m: int| i <= m < k ==> is_digit_char(#[trigger] s@[m]),
        decreases len - k,
    {
        let c = s.get_char(k);
        let v = c as u32;
        if v < 48 || v > 57 {
            return k;
        }
        k = k + 1;
    }
    k
}

/// Parses a number at `i`.
#[verifier::loop_isolation(false)]
fn parse_u32_at(s: &str, i: usize) -> (r: Option<(u32, usize)>)
    requires
        i <= s@.len(),
    ensures
        (r is None) == (sp_u32(s@, i as int) is None),
        r matches Some(p) ==> (match sp_u32(s@, i as int) {
            Some((v, j)) => p.0 == v && p.1 as int == j && i <= p.1 <= s@.len(),
            None => false,
        }),
{
    let j = scan_digits(s, i);
    proof {
        lemma_sp_digits_run(s@, i as int, j as int);
    }
    if j == i {
        return None;
    }
    let ghost ds = s@.subrange(i as int, j as int);
    proof {
        lemma_digits_val_prefix_le(ds, ds.len() as int);
    }
    let mut acc: u32 = 0;
    let mut k = i;
    while k < j
        invariant
            i <= k <= j <= s@.len(),
            forall|m: int| i <= m < j ==> is_digit_char(#[trigger] s@[m]),
            ds == s@.subrange(i as int, j as int),
            all_digits(ds),
            acc == digits_val(s@.subrange(i as int, k as int)),
        decreases j - k,
    {
        let c = s.get_char(k);
        let v = c as u32;
        let d = v - 48;
        proof {
            assert(s@.subrange(i as int, k + 1).drop_last() =~= s@.subrange(i as int, k as int));
            assert(s@.subrange(i as int, k + 1).last() == s@[k as int]);
            assert(ds.subrange(0, k + 1 - i) =~= s@.subrange(i as int, k + 1));
        }
        if acc > (u32::MAX - d) / 10 {
            proof {
                assert(digits_val(s@.subrange(i as int, k + 1)) == acc * 10 + d > u32::MAX);
                lemma_digits_val_prefix_le(ds, k + 1 - i);
                assert(digits_val(ds) > u32::MAX);
            }
            return None;
        }
        acc = acc * 10 + d;
        k = k + 1;
    }
    proof {
        assert(s@.subrange(i as int, j as int) == ds);
    }
    Some((acc, j))
}

/// Parses a string literal at `i`, undoing the two escapes.
#[verifier::loop_isolation(false)]
fn parse_string_at(s: &str, i: usize) -> (r: Option<(String, usize)>)
    requires
        i <= s@.len(),
    ensures
        (r is None) == (sp_string(s@, i as int) is None),
        r matches Some(p) ==> (match sp_string(s@, i as int) {
            Some((t, j)) => p.0@ == t && p.1 as int == j && i <= p.1 <= s@.len(),
            None => false,
        }),
{
    let len = s.unicode_len();
    if i >= len {
        return None;
    }
    if s.get_char(i) != '"' {
        return None;
    }
    let mut out = String::new();
    let mut k = i + 1;
    proof {
        if sp_str_body(s@, i + 1) is Some {
            let tp = sp_str_body(s@, i + 1)->0;
            assert(out@ + tp.0 =~= tp.0);
        }
    }
    while k < len
        invariant
            i + 1 <= k <= len,
            len == s@.len(),
            sp_str_body(s@, i + 1) == opt_prepend(out@, sp_str_body(s@, k as int)),
        decreases len - k,
    {
        let ghost pre = out@;
        let c = s.get_char(k);
        if c == '"' {
            proof {
                assert(sp_str_body(s@, k as int) == Some((Seq::<char>::empty(), k + 1)));
                assert(pre + Seq::<char>::empty() =~= pre);
            }
            return Some((out, k + 1));
        } else if c == '\\' {
            if k + 1 < len {
                let c2 = s.get_char(k + 1);
                if c2 == '"' || c2 == '\\' {
                    let piece = s.substring_char(k + 1, k + 2);
                    proof {
                        assert(piece@ =~= seq![s@[k + 1]]);
                    }
                    out.append(piece);
                    proof {
                        if sp_str_body(s@, k + 2) is Some {
                            let tp = sp_str_body(s@, k + 2)->0;
                            let t = tp.0;
                            assert((pre + (seq![s@[k + 1]] + t)) =~= ((pre + seq![s@[k + 1]])
                                + t));
                        }
                    }
                    k = k + 2;
                } else {
                    return None;
                }
            } else {
                return None;
            }
        } else {
            let piece = s.substring_char(k, k + 1);
            proof {
                assert(piece@ =~= seq![s@[k as int]]);
            }
            out.append(piece);
            proof {
                if sp_str_body(s@, k + 1) is Some {
                    let tp = sp_str_body(s@, k + 1)->0;
                    let t = tp.0;
                    assert((pre + (seq![s@[k as int]] + t)) =~= ((pre + seq![s@[k as int]]) + t));
                }
            }
            k = k + 1;
        }
    }
    None
}

/// Parses a sell-price value at `i`.
fn parse_sell_at(s: &str, i: usize) -> (r: Option<(Option<u32>, usize)>)
    requires
        i <= s@.len(),
    ensures
        (r is None) == (sp_sell(s@, i as int) is None),
        r matches Some(p) ==> (match sp_sell(s@, i as int) {
            Some((v, j)) => p.0 == v && p.1 as int == j && i <= p.1 <= s@.len(),
            None => false,
        }),
{
    match expect_lit(s, i, "null") {
        Some(j) => Some((None, j)),
        None => match parse_u32_at(s, i) {
            Some((v, j)) => Some((Some(v), j)),
            None => None,
        },
    }
}

/// Parses a field key at `i`: whitespace, the quoted name, whitespace, a
/// colon.
fn parse_key(s: &str, i: usize, name: &str) -> (r: Option<usize>)
    requires
        i <= s@.len(),
    ensures
        (r is Some) == (sp_key(s@, i as int, name@) is Some),
        r matches Some(j) ==> Some(j as int) == sp_key(s@, i as int, name@) && i <= j
            <= s@.len(),
{
    let j = skip_ws(s, i);
    match expect_lit(s, j, name) {
        Some(k) => {
            let k2 = skip_ws(s, k);
            if k2 < s.unicode_len() && s.get_char(k2) == ':' {
                Some(k2 + 1)
            } else {
                None
            }
        },
        None => None,
    }
}

/// Parses a comma at `i`, after whitespace.
fn parse_comma(s: &str, i: usize) -> (r: Option<usize>)
    requires
        i <= s@.len(),
    ensures
        (r is Some) == (sp_comma(s@, i as int) is Some),
        r matches Some(j) ==> Some(j as int) == sp_comma(s@, i as int) && i <= j <= s@.len(),
{
    let j = skip_ws(s, i);
    if j < s.unicode_len() && s.get_char(j) == ',' {
        Some(j + 1)
    } else {
        None
    }
}

/// Parses a colon at `i`, after whitespace.
fn parse_after_colon(s: &str, i: usize) -> (r: Option<usize>)
    requires
        i <= s@.len(),
    ensures
        (r is Some) == (sp_after_colon(s@, i as int) is Some),
        r matches Some(j) ==> Some(j as int) == sp_after_colon(s@, i as int) && i <= j
            <= s@.len(),
{
    let j = skip_ws(s, i);
    if j < s.unicode_len() && s.get_char(j) == ':' {
        Some(j + 1)
    } else {
        None
    }
}

/// Parses the rest of an asset object after a `"quantity"` key.
fn parse_qty_tail(s: &str, i: usize) -> (r: Option<(u32, usize)>)
    requires
        i <= s@.len(),
    ensures
        (r is None) == (sp_qty_tail(s@, i as int) is None),
        r matches Some(p) ==> (match sp_qty_tail(s@, i as int) {
            Some((q, e)) => p.0 == q && p.1 as int == e && i <= p.1 <= s@.len(),
            None => false,
        }),
{
    let k = match parse_after_colon(s, i) {
        Some(k) => k,
        None => {
            return None;
        },
    };
    let k2 = skip_ws(s, k);
    let (q, k3) = match parse_u32_at(s, k2) {
        Some(p) => p,
        None => {
            return None;
        },
    };
    let k4 = skip_ws(s, k3);
    if k4 < s.unicode_len() && s.get_char(k4) == '}' {
        Some((q, k4 + 1))
    } else {
        None
    }
}

/// Parses the rest of an asset object after the current-price value.
fn parse_asset_tail(s: &str, i: usize) -> (r: Option<(Option<u32>, u32, usize)>)
    requires
        i <= s@.len(),
    ensures
        (r is None) == (sp_asset_tail(s@, i as int) is None),
        r matches Some(p) ==> (match sp_asset_tail(s@, i as int) {
            Some((sell, q, e)) => p.0 == sell && p.1 == q && p.2 as int == e && i <= p.2
                <= s@.len(),
            None => false,
        }),
{
    let len = s.unicode_len();
    let k = skip_ws(s, i);
    if k < len && s.get_char(k) == '}' {
        return Some((None, 1u32, k + 1));
    }
    if !(k < len && s.get_char(k) == ',') {
        return None;
    }
    let k1 = skip_ws(s, k + 1);
    match expect_lit(s, k1, "\"sell_price_cents\"") {
        Some(k2) => {
            let k3 = match parse_after_colon(s, k2) {
                Some(k3) => k3,
                None => {
                    return None;
                },
            };
            let k4 = skip_ws(s, k3);
            let (sell, k5) = match parse_sell_at(s, k4) {
                Some(p) => p,
                None => {
                    return None;
                },
            };
            let k6 = skip_ws(s, k5);
            if k6 < len && s.get_char(k6) == '}' {
                Some((sell, 1u32, k6 + 1))
            } else if k6 < len && s.get_char(k6) == ',' {
                let k7 = skip_ws(s, k6 + 1);
                match expect_lit(s, k7, "\"quantity\"") {
                    Some(k8) => match parse_qty_tail(s, k8) {
                        Some((q, e)) => Some((sell, q, e)),
                        None => None,
                    },
                    None => None,
                }
            } else {
                None
            }
        },
        None => match expect_lit(s, k1, "\"quantity\"") {
            Some(k8) => match parse_qty_tail(s, k8) {
                Some((q, e)) => Some((None, q, e)),
                None => None,
            },
            None => None,
        },
    }
}

/// Parses one asset object at `i`.
#[verifier::rlimit(100)]
fn parse_asset_at(s: &str, i: usize) -> (r: Option<(Asset, usize)>)
    requires
        i <= s@.len(),
    ensures
        (r is None) == (sp_asset(s@, i as int) is None),
        r matches Some(p) ==> (match sp_asset(s@, i as int) {
            Some((m, j)) => p.0@ == m && p.1 as int == j && i <= p.1 <= s@.len(),
            None => false,
        }),
{
    let len = s.unicode_len();
    let j0 = skip_ws(s, i);
    if !(j0 < len && s.get_char(j0) == '{') {
        return None;
    }
    let j1 = match parse_key(s, j0 + 1, "\"ticker\"") {
        Some(j1) => j1,
        None => {
            return None;
        },
    };
    let j2 = skip_ws(s, j1);
    let (ticker, j3) = match parse_string_at(s, j2) {
        Some(p) => p,
        None => {
            return None;
        },
    };
    if ticker.unicode_len() == 0 {
        return None;
    }
    let j4 = match parse_comma(s, j3) {
        Some(j4) => j4,
        None => {
            return None;
        },
    };
    let j5 = match parse_key(s, j4, "\"buy_price_cents\"") {
        Some(j5) => j5,
        None => {
            return None;
        },
    };
    let j6 = skip_ws(s, j5);
    let (buy, j7) = match parse_u32_at(s, j6) {
        Some(p) => p,
        None => {
            return None;
        },
    };
    let j8 = match parse_comma(s, j7) {
        Some(j8) => j8,
        None => {
            return None;
        },
    };
    let j9 = match parse_key(s, j8, "\"current_price_cents\"") {
        Some(j9) => j9,
        None => {
            return None;
        },
    };
    let j10 = skip_ws(s, j9);
    let (cur, j11) = match parse_u32_at(s, j10) {
        Some(p) => p,
        None => {
            return None;
        },
    };
    let (sell, qty, e) = match parse_asset_tail(s, j11) {
        Some(p) => p,
        None => {
            return None;
        },
    };
    if qty == 0 {
        return None;
    }
    Some(
        (
            Asset {
                ticker,
                buy_price_cents: buy,
                current_price_cents: cur,
                sell_price_cents: sell,
                quantity: qty,
            },
            e,
        ),
    )
}

/// Parses a non-empty asset list at `i`, through the closing bracket.
fn parse_asset_list_at(s: &str, i: usize, fuel: usize) -> (r: Option<(Vec<Asset>, usize)>)
    requires
        i <= s@.len(),
    ensures
        (r is None) == (sp_asset_list(s@, i as int, fuel as nat) is None),
        r matches Some(p) ==> (match sp_asset_list(s@, i as int, fuel as nat) {
            Some((ms, e)) => p.0@.map_values(|a: Asset| a@) == ms && p.1 as int == e && i <= p.1
                <= s@.len(),
            None => false,
        }),
    decreases fuel,
{
    let len = s.unicode_len();
    let (a, j) = match parse_asset_at(s, i) {
        Some(p) => p,
        None => {
            return None;
        },
    };
    let k = skip_ws(s, j);
    if k < len && s.get_char(k) == ',' {
        if fuel == 0 {
            return None;
        }
        match parse_asset_list_at(s, k + 1, fuel - 1) {
            Some((mut rest, e)) => {
                rest.insert(0, a);
                proof {
                    let ghost sppair = sp_asset_list(s@, k + 1, (fuel - 1) as nat)->0;
                    let ghost spr = sppair.0;
                    assert(rest@.map_values(|x: Asset| x@) =~= seq![a@] + spr);
                }
                Some((rest, e))
            },
            None => None,
        }
    } else if k < len && s.get_char(k) == ']' {
        let mut v: Vec<Asset> = Vec::new();
        v.push(a);
        proof {
            assert(v@.map_values(|x: Asset| x@) =~= seq![a@]);
        }
        Some((v, k + 1))
    } else {
        None
    }
}

/// Parses a whole portfolio document. Succeeds exactly when the document
/// is well-formed; the portfolio then holds the listed assets in order.
pub fn parse_portfolio(s: &str) -> (r: Option<Portfolio>)
    ensures
        (r is None) == (sp_portfolio(s@) is None),
        r matches Some(p) ==> Some(p@) == sp_portfolio(s@) && wf_portfolio(p@),
{
    let len = s.unicode_len();
    let i0 = skip_ws(s, 0);
    if !(i0 < len && s.get_char(i0) == '{') {
        return None;
    }
    let j = match parse_key(s, i0 + 1, "\"assets\"") {
        Some(j) => j,
        None => {
            return None;
        },
    };
    let j2 = skip_ws(s, j);
    if !(j2 < len && s.get_char(j2) == '[') {
        return None;
    }
    let j3 = skip_ws(s, j2 + 1);
    if j3 < len && s.get_char(j3) == ']' {
        if parse_doc_end(s, j3 + 1) {
            let p = Portfolio { assets: Vec::new() };
            proof {
                assert(p@ =~= Seq::<AssetModel>::empty());
            }
            return Some(p);
        } else {
            return None;
        }
    }
    match parse_asset_list_at(s, j2 + 1, len) {
        Some((assets, k)) => {
            if parse_doc_end(s, k) {
                let p = Portfolio { assets };
                proof {
                    lemma_sp_asset_list_wf(s@, j2 + 1, s@.len() as nat);
                }
                Some(p)
            } else {
                None
            }
        },
        None => None,
    }
}

/// Checks the end of the document: the closing brace, then only whitespace.
fn parse_doc_end(s: &str, i: usize) -> (r: bool)
    requires
        i <= s@.len(),
    ensures
        r == sp_doc_end(s@, i as int),
{
    let len = s.unicode_len();
    let e = skip_ws(s, i);
    if e < len && s.get_char(e) == '}' {
        let e2 = skip_ws(s, e + 1);
        e2 == len
    } else {
        false
    }
}

// ---------------------------------------------------------------------------
// The round trip: parsing a dumped document returns the same portfolio.
// ---------------------------------------------------------------------------
/// Whether the piece `p` stands at `i` in `s`.
pub open spec fn piece_at(s: Seq<char>, i: int, p: Seq<char>) -> bool {
    &&& 0 <= i
    &&& i + p.len() <= s.len()
    &&& s.subrange(i, i + p.len()) == p
}

/// A concatenation standing at `i` splits into its two parts.
proof fn lemma_split_at(s: Seq<char>, i: int, x: Seq<char>, y: Seq<char>)
    requires
        piece_at(s, i, x + y),
    ensures
        piece_at(s, i, x),
        piece_at(s, i + x.len(), y),
{
    let big = s.subrange(i, i + (x + y).len());
    assert forall|k: int| 0 <= k < x.len() implies s.subrange(i, i + x.len())[k] == x[k] by {
        assert((x + y)[k] == x[k]);
        assert(big[k] == s[i + k]);
    }
    assert(s.subrange(i, i + x.len()) =~= x);
    assert forall|k: int|
        0 <= k < y.len() implies s.subrange(i + x.len(), i + x.len() + y.len())[k] == y[k] by {
        assert((x + y)[x.len() + k] == y[k]);
        assert(big[x.len() + k] == s[i + x.len() + k]);
    }
    assert(s.subrange(i + x.len(), i + x.len() + y.len()) =~= y);
}

/// A number's rendering standing at `i`, followed by a non-digit, parses
/// back to the number.
proof fn lemma_sp_u32_of_dec(s: Seq<char>, i: int, n: u32)
    requires
        piece_at(s, i, spec_dec(n as nat)),
        i + spec_dec(n as nat).len() == s.len() || !is_digit_char(
            s[i + spec_dec(n as nat).len()],
        ),
    ensures
        sp_u32(s, i) == Some((n, i + spec_dec(n as nat).len())),
{
    let ds = spec_dec(n as nat);
    let j = i + ds.len();
    lemma_spec_dec_digits(n as nat);
    assert forall|k: int| i <= k < j implies is_digit_char(#[trigger] s[k]) by {
        assert(s[k] == ds[k - i]);
    }
    lemma_sp_digits_run(s, i, j);
    assert(s.subrange(i, j) == ds);
    lemma_digits_val_spec_dec(n as nat);
}

/// An escaped string standing at `i`, followed by a closing quote, parses
/// back to the string.
proof fn lemma_sp_body_of_escape(s: Seq<char>, i: int, t: Seq<char>)
    requires
        piece_at(s, i, escape(t)),
        i + escape(t).len() < s.len(),
        s[i + escape(t).len()] == '"',
    ensures
        sp_str_body(s, i) == Some((t, i + escape(t).len() + 1)),
    decreases t.len(),
{
    let e = escape(t);
    if t.len() == 0 {
        assert(s[i] == '"');
    } else {
        let ec = escape_char(t[0]);
        let rest = escape(t.skip(1));
        assert(e == ec + rest);
        lemma_split_at(s, i, ec, rest);
        assert(t =~= seq![t[0]] + t.skip(1));
        if t[0] == '"' {
            assert(s[i] == ec[0] == '\\');
            assert(s[i + 1] == ec[1] == '"');
            lemma_sp_body_of_escape(s, i + 2, t.skip(1));
            assert(sp_str_body(s, i) == Some((seq![s[i + 1]] + t.skip(1), i + e.len() + 1)));
            assert(seq![s[i + 1]] + t.skip(1) =~= t);
        } else if t[0] == '\\' {
            assert(s[i] == ec[0] == '\\');
            assert(s[i + 1] == ec[1] == '\\');
            lemma_sp_body_of_escape(s, i + 2, t.skip(1));
            assert(sp_str_body(s, i) == Some((seq![s[i + 1]] + t.skip(1), i + e.len() + 1)));
            assert(seq![s[i + 1]] + t.skip(1) =~= t);
        } else {
            assert(s[i] == ec[0] == t[0]);
            lemma_sp_body_of_escape(s, i + 1, t.skip(1));
            assert(sp_str_body(s, i) == Some((seq![s[i]] + t.skip(1), i + e.len() + 1)));
            assert(seq![s[i]] + t.skip(1) =~= t);
        }
    }
}

/// One character of a piece standing at `i`.
proof fn lemma_piece_index(s: Seq<char>, i: int, p: Seq<char>, k: int)
    requires
        piece_at(s, i, p),
        0 <= k < p.len(),
    ensures
        s[i + k] == p[k],
{
    assert(s.subrange(i, i + p.len())[k] == s[i + k]);
}

/// A stretch of a piece standing at `i` stands at the shifted position.
proof fn lemma_piece_sub(s: Seq<char>, i: int, p: Seq<char>, a: int, b: int)
    requires
        piece_at(s, i, p),
        0 <= a <= b <= p.len(),
    ensures
        s.subrange(i + a, i + b) == p.subrange(a, b),
{
    assert forall|k: int| 0 <= k < b - a implies s.subrange(i + a, i + b)[k] == p.subrange(
        a,
        b,
    )[k] by {
        assert(s.subrange(i, i + p.len())[a + k] == s[i + a + k]);
    }
    assert(s.subrange(i + a, i + b) =~= p.subrange(a, b));
}

/// An asset document's tail standing at `i` parses back to its sell price
/// and quantity.
#[verifier::rlimit(100)]
proof fn lemma_sp_asset_tail_of_json(s: Seq<char>, i: int, sell: Option<u32>, qty: u32)
    requires
        piece_at(s, i, json_of_asset_tail(sell, qty)),
    ensures
        sp_asset_tail(s, i) == Some((sell, qty, i + json_of_asset_tail(sell, qty).len())),
{
    reveal_strlit(",\"sell_price_cents\":");
    reveal_strlit("\"sell_price_cents\"");
    reveal_strlit("null");
    reveal_strlit(",\"quantity\":");
    reveal_strlit("\"quantity\"");
    reveal_strlit("}");
    let l7 = ",\"sell_price_cents\":"@;
    let p8 = json_of_sell(sell);
    let l9 = ",\"quantity\":"@;
    let p10 = spec_dec(qty as nat);
    let l11 = "}"@;
    let tail = json_of_asset_tail(sell, qty);
    assert(l7.len() == 20);
    assert(l9.len() == 12);
    assert(l11.len() == 1);
    lemma_split_at(s, i, l7, p8 + (l9 + (p10 + l11)));
    lemma_split_at(s, i + 20, p8, l9 + (p10 + l11));
    let c5 = i + 20 + p8.len();
    lemma_split_at(s, c5, l9, p10 + l11);
    let c6 = c5 + 12;
    lemma_split_at(s, c6, p10, l11);
    let c7 = c6 + p10.len();
    lemma_piece_index(s, c7, l11, 0);
    assert(s[c7] == '}');
    // the leading comma and the sell key
    lemma_piece_index(s, i, l7, 0);
    lemma_piece_index(s, i, l7, 1);
    lemma_piece_index(s, i, l7, 19);
    assert(s[i] == ',');
    assert(sp_ws(s, i) == i);
    assert(sp_ws(s, i + 1) == i + 1);
    lemma_piece_sub(s, i, l7, 1, 19);
    assert("\"sell_price_cents\""@ =~= l7.subrange(1, 19));
    assert(sp_lit(s, i + 1, "\"sell_price_cents\""@) == Some(i + 19));
    assert(s[i + 19] == ':');
    assert(sp_ws(s, i + 19) == i + 19);
    assert(sp_after_colon(s, i + 19) == Some(i + 20));
    // the sell value
    lemma_spec_dec_digits(qty as nat);
    match sell {
        None => {
            assert(p8 == "null"@);
            assert(p8.len() == 4);
            lemma_piece_index(s, i + 20, p8, 0);
            assert(s[i + 20] == 'n');
            assert(sp_ws(s, i + 20) == i + 20);
            assert(sp_lit(s, i + 20, "null"@) == Some(i + 24));
            assert(sp_sell(s, i + 20) == Some((sell, c5)));
        },
        Some(v) => {
            assert(p8 == spec_dec(v as nat));
            lemma_spec_dec_digits(v as nat);
            lemma_piece_index(s, i + 20, p8, 0);
            assert(is_digit_char(s[i + 20]));
            assert(sp_ws(s, i + 20) == i + 20);
            if i + 24 <= s.len() {
                assert(s.subrange(i + 20, i + 24)[0] == s[i + 20]);
                assert(s[i + 20] != 'n');
                assert(s.subrange(i + 20, i + 24) != "null"@);
            }
            assert(sp_lit(s, i + 20, "null"@) is None);
            lemma_piece_index(s, c5, l9, 0);
            assert(!is_digit_char(s[c5]));
            lemma_sp_u32_of_dec(s, i + 20, v);
            assert(sp_sell(s, i + 20) == Some((sell, c5)));
        },
    }
    // the comma and the quantity key
    lemma_piece_index(s, c5, l9, 0);
    lemma_piece_index(s, c5, l9, 1);
    lemma_piece_index(s, c5, l9, 11);
    assert(s[c5] == ',');
    assert(sp_ws(s, c5) == c5);
    assert(sp_ws(s, c5 + 1) == c5 + 1);
    lemma_piece_sub(s, c5, l9, 1, 11);
    assert("\"quantity\""@ =~= l9.subrange(1, 11));
    assert(sp_lit(s, c5 + 1, "\"quantity\""@) == Some(c5 + 11));
    assert(s[c5 + 11] == ':');
    assert(sp_ws(s, c5 + 11) == c5 + 11);
    assert(sp_after_colon(s, c5 + 11) == Some(c6));
    // the quantity value and the closing brace
    lemma_piece_index(s, c6, p10, 0);
    assert(is_digit_char(s[c6]));
    assert(sp_ws(s, c6) == c6);
    assert(!is_digit_char(s[c7]));
    lemma_sp_u32_of_dec(s, c6, qty);
    assert(sp_ws(s, c7) == c7);
    assert(sp_qty_tail(s, c5 + 11) == Some((qty, c7 + 1)));
    assert(c7 + 1 == i + tail.len());
    assert(sp_asset_tail(s, i) == Some((sell, qty, i + tail.len())));
}

/// An asset's document standing at `i` parses back to the asset.
#[verifier::rlimit(100)]
proof fn lemma_sp_asset_of_json(s: Seq<char>, i: int, m: AssetModel)
    requires
        m.wf(),
        piece_at(s, i, json_of_asset(m)),
    ensures
        sp_asset(s, i) == Some((m, i + json_of_asset(m).len())),
{
    reveal_strlit("{\"ticker\":\"");
    reveal_strlit("\"ticker\"");
    reveal_strlit("\",\"buy_price_cents\":");
    reveal_strlit("\"buy_price_cents\"");
    reveal_strlit(",\"current_price_cents\":");
    reveal_strlit("\"current_price_cents\"");
    let l1 = "{\"ticker\":\""@;
    let esc = escape(m.ticker);
    let l3 = "\",\"buy_price_cents\":"@;
    let p4 = spec_dec(m.buy_price_cents as nat);
    let l5 = ",\"current_price_cents\":"@;
    let p6 = spec_dec(m.current_price_cents as nat);
    let tail = json_of_asset_tail(m.sell_price_cents, m.quantity);
    assert(l1.len() == 11);
    assert(l3.len() == 20);
    assert(l5.len() == 23);
    lemma_split_at(s, i, l1, esc + (l3 + (p4 + (l5 + (p6 + tail)))));
    let b0 = i + 11 + esc.len();
    lemma_split_at(s, i + 11, esc, l3 + (p4 + (l5 + (p6 + tail))));
    lemma_split_at(s, b0, l3, p4 + (l5 + (p6 + tail)));
    let c0 = b0 + 20 + p4.len();
    lemma_split_at(s, b0 + 20, p4, l5 + (p6 + tail));
    lemma_split_at(s, c0, l5, p6 + tail);
    let t0 = c0 + 23 + p6.len();
    lemma_split_at(s, c0 + 23, p6, tail);
    // the opening brace and the ticker key
    lemma_piece_index(s, i, l1, 0);
    lemma_piece_index(s, i, l1, 1);
    lemma_piece_index(s, i, l1, 9);
    lemma_piece_index(s, i, l1, 10);
    assert(s[i] == '{');
    assert(sp_ws(s, i) == i);
    assert(sp_ws(s, i + 1) == i + 1);
    lemma_piece_sub(s, i, l1, 1, 9);
    assert("\"ticker\""@ =~= l1.subrange(1, 9));
    assert(sp_lit(s, i + 1, "\"ticker\""@) == Some(i + 9));
    assert(s[i + 9] == ':');
    assert(sp_ws(s, i + 9) == i + 9);
    assert(sp_key(s, i + 1, "\"ticker\""@) == Some(i + 10));
    // the ticker string
    assert(s[i + 10] == '"');
    assert(sp_ws(s, i + 10) == i + 10);
    lemma_piece_index(s, b0, l3, 0);
    assert(s[b0] == '"');
    lemma_sp_body_of_escape(s, i + 11, m.ticker);
    assert(sp_string(s, i + 10) == Some((m.ticker, b0 + 1)));
    // the buy-price key and value
    lemma_piece_index(s, b0, l3, 1);
    lemma_piece_index(s, b0, l3, 2);
    lemma_piece_index(s, b0, l3, 19);
    assert(s[b0 + 1] == ',');
    assert(sp_ws(s, b0 + 1) == b0 + 1);
    assert(sp_comma(s, b0 + 1) == Some(b0 + 2));
    assert(sp_ws(s, b0 + 2) == b0 + 2);
    lemma_piece_sub(s, b0, l3, 2, 19);
    assert("\"buy_price_cents\""@ =~= l3.subrange(2, 19));
    assert(sp_lit(s, b0 + 2, "\"buy_price_cents\""@) == Some(b0 + 19));
    assert(s[b0 + 19] == ':');
    assert(sp_ws(s, b0 + 19) == b0 + 19);
    assert(sp_key(s, b0 + 2, "\"buy_price_cents\""@) == Some(b0 + 20));
    lemma_spec_dec_digits(m.buy_price_cents as nat);
    lemma_piece_index(s, b0 + 20, p4, 0);
    assert(sp_ws(s, b0 + 20) == b0 + 20);
    lemma_piece_index(s, c0, l5, 0);
    assert(s[c0] == ',');
    lemma_sp_u32_of_dec(s, b0 + 20, m.buy_price_cents);
    // the current-price key and value
    assert(sp_ws(s, c0) == c0);
    assert(sp_comma(s, c0) == Some(c0 + 1));
    lemma_piece_index(s, c0, l5, 1);
    lemma_piece_index(s, c0, l5, 22);
    assert(sp_ws(s, c0 + 1) == c0 + 1);
    lemma_piece_sub(s, c0, l5, 1, 22);
    assert("\"current_price_cents\""@ =~= l5.subrange(1, 22));
    assert(sp_lit(s, c0 + 1, "\"current_price_cents\""@) == Some(c0 + 22));
    assert(s[c0 + 22] == ':');
    assert(sp_ws(s, c0 + 22) == c0 + 22);
    assert(sp_key(s, c0 + 1, "\"current_price_cents\""@) == Some(c0 + 23));
    lemma_spec_dec_digits(m.current_price_cents as nat);
    lemma_piece_index(s, c0 + 23, p6, 0);
    assert(sp_ws(s, c0 + 23) == c0 + 23);
    reveal_strlit(",\"sell_price_cents\":");
    lemma_piece_index(s, t0, tail, 0);
    assert(s[t0] == ',');
    lemma_sp_u32_of_dec(s, c0 + 23, m.current_price_cents);
    // the tail, and the assembled asset
    lemma_sp_asset_tail_of_json(s, t0, m.sell_price_cents, m.quantity);
    assert(t0 + tail.len() == i + json_of_asset(m).len());
    assert(sp_asset(s, i) == Some((m, i + json_of_asset(m).len())));
}

/// An asset's document is never empty.
proof fn lemma_json_asset_len(m: AssetModel)
    ensures
        json_of_asset(m).len() >= 1,
{
    reveal_strlit("{\"ticker\":\"");
    assert("{\"ticker\":\""@.len() == 11);
}

/// An asset list's document has at least one character per asset.
proof fn lemma_json_assets_len(models: Seq<AssetModel>)
    ensures
        json_of_assets(models).len() >= models.len(),
    decreases models.len(),
{
    if models.len() == 0 {
    } else if models.len() == 1 {
        lemma_json_asset_len(models[0]);
    } else {
        lemma_json_assets_len(models.drop_last());
        lemma_json_asset_len(models.last());
    }
}

/// The list document read from the front: the first asset, a comma, the
/// rest.
proof fn lemma_json_assets_front(models: Seq<AssetModel>)
    requires
        models.len() >= 2,
    ensures
        json_of_assets(models) == json_of_asset(models[0]) + (","@ + json_of_assets(
            models.skip(1),
        )),
    decreases models.len(),
{
    let last = models.last();
    let d = models.drop_last();
    let sk = models.skip(1);
    assert(sk.last() == last);
    assert(sk.drop_last() =~= d.skip(1));
    if models.len() == 2 {
        assert(d.len() == 1 && sk.len() == 1);
        assert(d[0] == models[0]);
        assert(json_of_assets(models) == json_of_asset(models[0]) + ","@ + json_of_asset(last));
        assert(json_of_assets(sk) == json_of_asset(sk[0]));
        assert(sk[0] == last);
        assert(json_of_asset(models[0]) + ","@ + json_of_asset(last) =~= json_of_asset(models[0])
            + (","@ + json_of_assets(sk)));
    } else {
        lemma_json_assets_front(d);
        assert(json_of_assets(models) == json_of_assets(d) + ","@ + json_of_asset(last));
        assert(json_of_assets(d) == json_of_asset(d[0]) + (","@ + json_of_assets(d.skip(1))));
        assert(d[0] == models[0]);
        assert(sk.len() >= 2);
        assert(json_of_assets(sk) == json_of_assets(sk.drop_last()) + ","@ + json_of_asset(
            sk.last(),
        ));
        assert(json_of_assets(sk) == json_of_assets(d.skip(1)) + ","@ + json_of_asset(last));
        assert((json_of_asset(models[0]) + (","@ + json_of_assets(d.skip(1)))) + ","@
            + json_of_asset(last) =~= json_of_asset(models[0]) + (","@ + (json_of_assets(
            d.skip(1),
        ) + ","@ + json_of_asset(last))));
    }
}

/// A list document standing at `i`, followed by the closing bracket,
/// parses back to its assets, given fuel for each comma.
proof fn lemma_sp_asset_list_of_json(s: Seq<char>, i: int, models: Seq<AssetModel>, fuel: nat)
    requires
        models.len() >= 1,
        wf_portfolio(models),
        piece_at(s, i, json_of_assets(models)),
        i + json_of_assets(models).len() < s.len(),
        s[i + json_of_assets(models).len()] == ']',
        fuel >= models.len() - 1,
    ensures
        sp_asset_list(s, i, fuel) == Some((models, i + json_of_assets(models).len() + 1)),
    decreases models.len(),
{
    reveal_strlit(",");
    let aj = json_of_assets(models);
    if models.len() == 1 {
        assert(aj == json_of_asset(models[0]));
        assert(models[0].wf());
        lemma_sp_asset_of_json(s, i, models[0]);
        let j = i + aj.len();
        assert(s[j] == ']');
        assert(sp_ws(s, j) == j);
        assert(seq![models[0]] =~= models);
    } else {
        lemma_json_assets_front(models);
        let a0 = json_of_asset(models[0]);
        let rest = json_of_assets(models.skip(1));
        lemma_split_at(s, i, a0, ","@ + rest);
        lemma_split_at(s, i + a0.len(), ","@, rest);
        lemma_piece_index(s, i + a0.len(), ","@, 0);
        assert(s[i + a0.len()] == ',');
        assert(models[0].wf());
        lemma_sp_asset_of_json(s, i, models[0]);
        assert(sp_ws(s, i + a0.len()) == i + a0.len());
        assert forall|k: int| 0 <= k < models.skip(1).len() implies (#[trigger] models.skip(
            1,
        )[k]).wf() by {
            assert(models.skip(1)[k] == models[k + 1]);
        }
        assert(aj.len() == a0.len() + 1 + rest.len());
        lemma_sp_asset_list_of_json(s, i + a0.len() + 1, models.skip(1), (fuel - 1) as nat);
        assert(seq![models[0]] + models.skip(1) =~= models);
    }
}

/// The first character of a non-empty list document is an opening brace.
proof fn lemma_json_assets_first_char(models: Seq<AssetModel>)
    requires
        models.len() >= 1,
    ensures
        json_of_assets(models).len() >= 1,
        json_of_assets(models)[0] == '{',
{
    reveal_strlit("{\"ticker\":\"");
    lemma_json_assets_len(models);
    if models.len() == 1 {
        assert(json_of_assets(models) == json_of_asset(models[0]));
        assert(json_of_asset(models[0])[0] == "{\"ticker\":\""@[0]);
    } else {
        lemma_json_assets_front(models);
        lemma_json_asset_len(models[0]);
        assert(json_of_assets(models)[0] == json_of_asset(models[0])[0]);
        assert(json_of_asset(models[0])[0] == "{\"ticker\":\""@[0]);
    }
}

/// The fixed frame of a portfolio document: its opening object, the
/// `assets` key, the bracketed list, and the closing characters.
proof fn lemma_portfolio_frame(models: Seq<AssetModel>)
    ensures
        ({
            let s = json_of_portfolio(models);
            let n: int = 11 + json_of_assets(models).len() as int;
            &&& s.len() == n + 2
            &&& piece_at(s, 11, json_of_assets(models))
            &&& s[n] == ']'
            &&& s[n + 1] == '}'
            &&& s[0] == '{'
            &&& sp_ws(s, 0) == 0
            &&& sp_key(s, 1, "\"assets\""@) == Some(10int)
            &&& s[10] == '['
            &&& sp_ws(s, 10) == 10
        }),
{
    reveal_strlit("{\"assets\":[");
    reveal_strlit("\"assets\"");
    reveal_strlit("]}");
    let l = "{\"assets\":["@;
    let aj = json_of_assets(models);
    let e = "]}"@;
    let s = json_of_portfolio(models);
    assert(l.len() == 11);
    assert(e.len() == 2);
    assert(s.subrange(0, s.len() as int) =~= s);
    assert(piece_at(s, 0, l + (aj + e)));
    lemma_split_at(s, 0, l, aj + e);
    lemma_split_at(s, 11, aj, e);
    let n: int = 11 + aj.len() as int;
    lemma_piece_index(s, n, e, 0);
    lemma_piece_index(s, n, e, 1);
    lemma_piece_index(s, 0, l, 0);
    lemma_piece_index(s, 0, l, 1);
    lemma_piece_index(s, 0, l, 9);
    lemma_piece_index(s, 0, l, 10);
    assert(sp_ws(s, 0) == 0);
    assert(sp_ws(s, 1) == 1);
    lemma_piece_sub(s, 0, l, 1, 9);
    assert("\"assets\""@ =~= l.subrange(1, 9));
    assert(sp_lit(s, 1, "\"assets\""@) == Some(9int));
    assert(s[9] == ':');
    assert(sp_ws(s, 9) == 9);
    assert(sp_key(s, 1, "\"assets\""@) == Some(10int));
    assert(sp_ws(s, 10) == 10);
}

/// The round trip of persistence: the dumped document of any well-formed
/// portfolio parses back to exactly the same assets, field for field and
/// in the same order.
#[verifier::rlimit(100)]
pub proof fn lemma_dump_parse_round_trip(models: Seq<AssetModel>)
    requires
        wf_portfolio(models),
    ensures
        sp_portfolio(json_of_portfolio(models)) == Some(models),
{
    let s = json_of_portfolio(models);
    let aj = json_of_assets(models);
    let n: int = 11 + aj.len() as int;
    lemma_portfolio_frame(models);
    if models.len() == 0 {
        assert(aj.len() == 0);
        assert(s[11] == ']');
        assert(sp_ws(s, 11) == 11);
        assert(sp_ws(s, 12) == 12);
        assert(s[12] == '}');
        assert(sp_ws(s, 13) == s.len());
        assert(sp_doc_end(s, 12));
        assert(sp_portfolio(s) == Some(Seq::<AssetModel>::empty()));
        assert(models =~= Seq::<AssetModel>::empty());
    } else {
        lemma_json_assets_first_char(models);
        lemma_piece_index(s, 11, aj, 0);
        assert(s[11] == '{');
        assert(sp_ws(s, 11) == 11);
        lemma_json_assets_len(models);
        assert(s.len() >= models.len());
        lemma_sp_asset_list_of_json(s, 11, models, s.len() as nat);
        assert(sp_ws(s, n + 1) == n + 1);
        assert(sp_ws(s, n + 2) == s.len());
        assert(sp_doc_end(s, n + 1));
        assert(sp_portfolio(s) == Some(models));
    }
}

/// Every asset a successful list parse yields is well-formed.
proof fn lemma_sp_asset_list_wf(s: Seq<char>, i: int, fuel: nat)
    requires
        sp_asset_list(s, i, fuel) is Some,
    ensures
        (match sp_asset_list(s, i, fuel) {
            Some(p) => wf_portfolio(p.0),
            None => true,
        }),
    decreases fuel,
{
    let (a, j) = sp_asset(s, i)->0;
    let k = sp_ws(s, j);
    if 0 <= k < s.len() && s[k] == ',' {
        lemma_sp_asset_list_wf(s, k + 1, (fuel - 1) as nat);
        let restp = sp_asset_list(s, k + 1, (fuel - 1) as nat)->0;
        let rest = restp.0;
        let whole = seq![a] + rest;
        assert forall|m: int| 0 <= m < whole.len() implies (#[trigger] whole[m]).wf() by {
            if m == 0 {
                assert(whole[0] == a);
            } else {
                assert(whole[m] == rest[m - 1]);
            }
        }
    } else {
        let whole = seq![a];
        assert(whole[0] == a);
    }
}

} // verus!
