use vstd::prelude::*;

use crate::amount::{percent, percent_of, Amount};
use crate::book::{best, best_of, prices_of};
use crate::commands::quote::apply::{one_cent, one_cent_amount};
use crate::commands::quote::Side;
use crate::failure::{verdict, Failure, FailureView};
use crate::json::{find_text, first_with_text, owned, the_first_match_is_found, Json};
use crate::micros::{multiples_divide_exactly, rounding_is_monotone, Micros};
use crate::text::{
    chars_of, decimal, decimal_text, optional_pair, owned_chars, query_views, same,
};

verus! {

/// Everything known about what a token is currently worth, from both price sources
/// because they disagree.
#[derive(Debug)]
pub struct MarketView<N> {
    pub book_bid: Option<N>,
    pub book_ask: Option<N>,
    pub feed_bid: Option<N>,
    pub feed_ask: Option<N>,
    pub last_trade: Option<N>,
    /// Trades seen at all.
    pub trade_count: usize,
}

/// A trade that names its price: the price and when it was made.
pub open spec fn print_of<N>(trade: Json<N>) -> Option<(N, u64)> {
    match trade.number_at("price"@) {
        Some(p) => Some(
            (
                p,
                match trade.whole_at("createdAt"@) {
                    Some(t) => t,
                    None => 0,
                },
            ),
        ),
        None => None,
    }
}

pub open spec fn prints_of<N>(trades: Json<N>) -> Seq<(N, u64)> {
    trades.items_at("recentTrades"@).filter_map(|t: Json<N>| print_of(t))
}

/// The most recent of some trades; of several made at once, the last one listed.
pub open spec fn latest<N>(prints: Seq<(N, u64)>) -> Option<(N, u64)>
    decreases prints.len(),
{
    if prints.len() == 0 {
        None
    } else {
        match latest(prints.drop_last()) {
            Some(p) => if prints.last().1 >= p.1 {
                Some(prints.last())
            } else {
                Some(p)
            },
            None => Some(prints.last()),
        }
    }
}

pub open spec fn book_best<N: Amount>(
    book: Option<Json<N>>,
    new_key: Seq<char>,
    old_key: Seq<char>,
    want_max: bool,
) -> Option<N> {
    match book {
        Some(b) => best(prices_of(b, new_key, old_key), want_max),
        None => None,
    }
}

/// The market as two payloads show it; either may be missing.
pub open spec fn view_of<N: Amount>(book: Option<Json<N>>, trades: Option<Json<N>>) -> MarketView<
    N,
> {
    let prints = match trades {
        Some(t) => prints_of(t),
        None => Seq::empty(),
    };
    MarketView {
        book_bid: book_best(book, "bids"@, "buyOrders"@, true),
        book_ask: book_best(book, "asks"@, "sellOrders"@, false),
        feed_bid: match trades {
            Some(t) => t.number_at("bestBid"@),
            None => None,
        },
        feed_ask: match trades {
            Some(t) => t.number_at("bestAsk"@),
            None => None,
        },
        last_trade: match latest(prints) {
            Some(p) => Some(p.0),
            None => None,
        },
        trade_count: prints.len() as usize,
    }
}

fn recent_prints<N: Amount>(trades: Option<&Json<N>>) -> (r: Vec<(N, u64)>)
    ensures
        r@ == match owned(trades) {
            Some(t) => prints_of(t),
            None => Seq::empty(),
        },
{
    let mut out: Vec<(N, u64)> = Vec::new();
    let payload = match trades {
        Some(t) => t,
        None => {
            return out;
        },
    };
    let items = payload.items_in("recentTrades");
    let ghost f = |t: Json<N>| print_of(t);
    let mut i: usize = 0;
    assert(items@.unref().take(0).filter_map(f) =~= Seq::<(N, u64)>::empty()) by {
        reveal(Seq::filter_map);
    }
    while i < items.len()
        invariant
            i <= items.len(),
            f == (|t: Json<N>| print_of(t)),
            out@ == items@.unref().take(i as int).filter_map(f),
        decreases items.len() - i,
    {
        proof {
            items@.unref().lemma_filter_map_take_succ(f, i as int);
        }
        if let Some(p) = items[i].number_in("price") {
            let at: u64 = match items[i].whole_in("createdAt") {
                Some(t) => t,
                None => 0,
            };
            out.push((p, at));
        }
        i = i + 1;
    }
    assert(items@.unref().take(items.len() as int) =~= items@.unref());
    out
}

fn latest_price<N: Amount>(prints: &Vec<(N, u64)>) -> (r: Option<N>)
    ensures
        r == match latest(prints@) {
            Some(p) => Some(p.0),
            None => None,
        },
{
    let mut found: Option<(N, u64)> = None;
    let mut i: usize = 0;
    while i < prints.len()
        invariant
            i <= prints.len(),
            found == latest(prints@.take(i as int)),
        decreases prints.len() - i,
    {
        assert(prints@.take(i as int + 1).drop_last() =~= prints@.take(i as int));
        let p = prints[i];
        found = match found {
            Some(q) => if p.1 >= q.1 {
                Some(p)
            } else {
                Some(q)
            },
            None => Some(p),
        };
        i = i + 1;
    }
    assert(prints@.take(prints.len() as int) =~= prints@);
    match found {
        Some(p) => Some(p.0),
        None => None,
    }
}

fn best_in<N: Amount>(book: Option<&Json<N>>, new_key: &str, old_key: &str, want_max: bool) -> (r:
    Option<N>)
    ensures
        r == book_best(owned(book), new_key@, old_key@, want_max),
{
    match book {
        Some(b) => best_of(b, new_key, old_key, want_max),
        None => None,
    }
}

fn number_of<N: Amount>(payload: Option<&Json<N>>, key: &str) -> (r: Option<N>)
    ensures
        r == match owned(payload) {
            Some(t) => t.number_at(key@),
            None => None,
        },
{
    match payload {
        Some(t) => t.number_in(key),
        None => None,
    }
}

/// The market as two payloads show it.
pub fn market_view<N: Amount>(book: Option<&Json<N>>, trades: Option<&Json<N>>) -> (r: MarketView<N>)
    ensures
        r == view_of(owned(book), owned(trades)),
{
    let recent = recent_prints(trades);
    MarketView {
        book_bid: best_in(book, "bids", "buyOrders", true),
        book_ask: best_in(book, "asks", "sellOrders", false),
        feed_bid: number_of(trades, "bestBid"),
        feed_ask: number_of(trades, "bestAsk"),
        last_trade: latest_price(&recent),
        trade_count: recent.len(),
    }
}

/// The greater of two prices, of those that are known.
pub open spec fn highest<N: Amount>(a: Option<N>, b: Option<N>) -> Option<N> {
    match (a, b) {
        (Some(x), Some(y)) => Some(x.greater(y)),
        (Some(x), None) => Some(x),
        (None, y) => y,
    }
}

/// The lesser of two prices, of those that are known.
pub open spec fn lowest<N: Amount>(a: Option<N>, b: Option<N>) -> Option<N> {
    match (a, b) {
        (Some(x), Some(y)) => Some(x.lesser(y)),
        (Some(x), None) => Some(x),
        (None, y) => y,
    }
}

fn higher<N: Amount>(a: Option<N>, b: Option<N>) -> (r: Option<N>)
    ensures
        r == highest(a, b),
{
    match (a, b) {
        (Some(x), Some(y)) => Some(x.larger_of(y)),
        (Some(x), None) => Some(x),
        (None, y) => y,
    }
}

fn lower<N: Amount>(a: Option<N>, b: Option<N>) -> (r: Option<N>)
    ensures
        r == lowest(a, b),
{
    match (a, b) {
        (Some(x), Some(y)) => Some(x.smaller_of(y)),
        (Some(x), None) => Some(x),
        (None, y) => y,
    }
}

/// How far from the market a price may lie, in percent.
pub open spec fn tolerance<N: Amount>() -> N {
    percent(N::whole(5))
}

fn tolerance_amount<N: Amount>() -> (r: N)
    ensures
        r == tolerance::<N>(),
{
    percent_of(N::of(5))
}

pub open spec fn no_history_text<N: Amount>(direction: Seq<char>, price: N) -> Seq<char> {
    "this property has NO trade history to price against — a "@ + direction + " at $"@
        + price.fixed_text(2)
        + " cannot be checked, and thin books fill instantly at whatever is resting"@
}

pub open spec fn price_or_dash<N: Amount>(price: Option<N>) -> Seq<char> {
    match price {
        Some(p) => "$"@ + p.fixed_text(2),
        None => "—"@,
    }
}

fn shown_price<N: Amount>(price: Option<N>) -> (r: String)
    ensures
        r@ == price_or_dash(price),
{
    match price {
        Some(p) => "$".to_owned().concat(&p.fixed(2)),
        None => "—".to_owned(),
    }
}

impl<N: Amount> MarketView<N> {
    /// The best evidence of what a sell could fetch: the highest bid either source
    /// reports, and the last print.
    pub open spec fn sell_ref(self) -> Option<N> {
        highest(highest(self.book_bid, self.feed_bid), self.last_trade)
    }

    /// The cheapest a buy could have paid: the lowest ask or print.
    pub open spec fn buy_ref(self) -> Option<N> {
        lowest(lowest(self.book_ask, self.feed_ask), self.last_trade)
    }

    /// Why a sell should not be sent as priced, if there is a reason: it crosses
    /// the best bid, or it lies too far below the market.
    pub open spec fn sell_objection(self, price: N) -> Option<Seq<char>> {
        match self.sell_ref() {
            None => None,
            Some(r) => {
                let bid = highest(self.book_bid, self.feed_bid);
                if bid is Some && price.at_most(bid->0) {
                    Some(
                        "sell at $"@ + price.fixed_text(2) + " is AT OR BELOW the best bid $"@
                            + bid->0.fixed_text(2)
                            + " — it will fill immediately as a taker, not rest on the book"@,
                    )
                } else if price.less(r.product(N::whole(1).difference(tolerance()))) {
                    Some(
                        "sell at $"@ + price.fixed_text(2) + " is "@ + N::whole(1).difference(
                            price.quotient(r),
                        ).product(N::whole(100)).fixed_text(1) + "% below the market reference $"@
                            + r.fixed_text(2),
                    )
                } else {
                    None
                }
            },
        }
    }

    /// Why a buy should not be sent as priced, if there is a reason.
    pub open spec fn buy_objection(self, price: N) -> Option<Seq<char>> {
        match self.buy_ref() {
            None => None,
            Some(r) => {
                let ask = lowest(self.book_ask, self.feed_ask);
                if ask is Some && ask->0.at_most(price) {
                    Some(
                        "buy at $"@ + price.fixed_text(2) + " is AT OR ABOVE the best ask $"@
                            + ask->0.fixed_text(2) + " — it will fill immediately as a taker"@,
                    )
                } else if r.product(N::whole(1).sum(tolerance())).less(price) {
                    Some(
                        "buy at $"@ + price.fixed_text(2) + " is "@ + price.quotient(r).difference(
                            N::whole(1),
                        ).product(N::whole(100)).fixed_text(1) + "% above the market reference $"@
                            + r.fixed_text(2),
                    )
                } else {
                    None
                }
            },
        }
    }

    /// Why an order should not be sent as priced. Without any trade the price
    /// cannot be checked at all, which is itself a reason.
    pub open spec fn objection_to(self, direction: Seq<char>, price: N) -> Option<Seq<char>> {
        if self.trade_count == 0 {
            Some(no_history_text(direction, price))
        } else if direction == Side::Sell.word() {
            self.sell_objection(price)
        } else {
            self.buy_objection(price)
        }
    }

    /// Every source, including where they disagree.
    pub open spec fn description(self) -> Seq<char> {
        "  orderbook   bid "@ + price_or_dash(self.book_bid) + "  ask "@ + price_or_dash(
            self.book_ask,
        ) + "\n  trades feed bid "@ + price_or_dash(self.feed_bid) + "  ask "@ + price_or_dash(
            self.feed_ask,
        ) + "\n  last trade  "@ + price_or_dash(self.last_trade) + "   ("@ + decimal_text(
            self.trade_count as nat,
        ) + " recent print(s))"@
    }

    pub open spec fn suffix(self) -> Seq<char> {
        match (self.sell_ref(), self.last_trade) {
            (Some(r), Some(l)) => " — market ref $"@ + r.fixed_text(2) + ", last trade $"@
                + l.fixed_text(2),
            (Some(r), None) => " — market ref $"@ + r.fixed_text(2),
            _ => " — NO market reference available"@,
        }
    }

    pub fn sell_reference(&self) -> (r: Option<N>)
        ensures
            r == self.sell_ref(),
    {
        higher(higher(self.book_bid, self.feed_bid), self.last_trade)
    }

    pub fn buy_reference(&self) -> (r: Option<N>)
        ensures
            r == self.buy_ref(),
    {
        lower(lower(self.book_ask, self.feed_ask), self.last_trade)
    }

    fn object_to_sell(&self, price: N) -> (r: Option<String>)
        ensures
            owned_chars(r) == self.sell_objection(price),
    {
        let r = match self.sell_reference() {
            Some(r) => r,
            None => {
                return None;
            },
        };
        if let Some(bid) = higher(self.book_bid, self.feed_bid) {
            if price.is_at_most(bid) {
                return Some(
                    "sell at $".to_owned().concat(&price.fixed(2)).concat(
                        " is AT OR BELOW the best bid $",
                    ).concat(&bid.fixed(2)).concat(
                        " — it will fill immediately as a taker, not rest on the book",
                    ),
                );
            }
        }
        if price.is_below(r.times(N::of(1).minus(tolerance_amount()))) {
            return Some(
                "sell at $".to_owned().concat(&price.fixed(2)).concat(" is ").concat(
                    &N::of(1).minus(price.over(r)).times(N::of(100)).fixed(1),
                ).concat("% below the market reference $").concat(&r.fixed(2)),
            );
        }
        None
    }

    fn object_to_buy(&self, price: N) -> (r: Option<String>)
        ensures
            owned_chars(r) == self.buy_objection(price),
    {
        let r = match self.buy_reference() {
            Some(r) => r,
            None => {
                return None;
            },
        };
        if let Some(ask) = lower(self.book_ask, self.feed_ask) {
            if ask.is_at_most(price) {
                return Some(
                    "buy at $".to_owned().concat(&price.fixed(2)).concat(
                        " is AT OR ABOVE the best ask $",
                    ).concat(&ask.fixed(2)).concat(" — it will fill immediately as a taker"),
                );
            }
        }
        if r.times(N::of(1).plus(tolerance_amount())).is_below(price) {
            return Some(
                "buy at $".to_owned().concat(&price.fixed(2)).concat(" is ").concat(
                    &price.over(r).minus(N::of(1)).times(N::of(100)).fixed(1),
                ).concat("% above the market reference $").concat(&r.fixed(2)),
            );
        }
        None
    }

    /// Why this order should not be sent as priced, if there is a reason.
    pub fn objection(&self, direction: &str, price: N) -> (r: Option<String>)
        ensures
            owned_chars(r) == self.objection_to(direction@, price),
    {
        if self.trade_count == 0 {
            return Some(
                "this property has NO trade history to price against — a ".to_owned().concat(
                    direction,
                ).concat(" at $").concat(&price.fixed(2)).concat(
                    " cannot be checked, and thin books fill instantly at whatever is resting",
                ),
            );
        }
        if same(direction, Side::Sell.as_str()) {
            self.object_to_sell(price)
        } else {
            self.object_to_buy(price)
        }
    }

    pub fn describe(&self) -> (r: String)
        ensures
            r@ == self.description(),
    {
        "  orderbook   bid ".to_owned().concat(&shown_price(self.book_bid)).concat("  ask ").concat(
            &shown_price(self.book_ask),
        ).concat("\n  trades feed bid ").concat(&shown_price(self.feed_bid)).concat(
            "  ask ",
        ).concat(&shown_price(self.feed_ask)).concat("\n  last trade  ").concat(
            &shown_price(self.last_trade),
        ).concat("   (").concat(&decimal(self.trade_count as u128)).concat(" recent print(s))")
    }

    pub fn summary_suffix(&self) -> (r: String)
        ensures
            r@ == self.suffix(),
    {
        match (self.sell_reference(), self.last_trade) {
            (Some(r), Some(l)) => " — market ref $".to_owned().concat(&r.fixed(2)).concat(
                ", last trade $",
            ).concat(&l.fixed(2)),
            (Some(r), None) => " — market ref $".to_owned().concat(&r.fixed(2)),
            _ => " — NO market reference available".to_owned(),
        }
    }
}

pub open spec fn below_market_text(problem: Seq<char>, market: Seq<char>) -> Seq<char> {
    problem + "\n"@ + market
        + "\n\nIf you understand and accept that this may lose money against the listed price, re-run with --accept-below-market."@
}

/// Hold an order against the market. A reason not to send it is an error unless
/// the caller accepts it; then it is what the operator is shown.
pub fn check_price<N: Amount>(market: &MarketView<N>, direction: &str, price: N, accept: bool) -> (r:
    Result<Option<String>, Failure>)
    ensures
        match market.objection_to(direction@, price) {
            None => r matches Ok(None),
            Some(problem) => if accept {
                r matches Ok(Some(text)) && text@ == problem
            } else {
                r matches Err(e) && e@ == FailureView::Usage(
                    below_market_text(problem, market.description()),
                )
            },
        },
{
    match market.objection(direction, price) {
        None => Ok(None),
        Some(problem) => if accept {
            Ok(Some(problem))
        } else {
            Err(
                Failure::Usage(
                    problem.concat("\n").concat(&market.describe()).concat(
                        "\n\nIf you understand and accept that this may lose money against the listed price, re-run with --accept-below-market.",
                    ),
                ),
            )
        },
    }
}

/// The least size that scores on a property, if it runs a reward program.
pub open spec fn program_minimum<N>(programs: Json<N>, property_id: Seq<char>) -> Option<N> {
    match first_with_text(programs.items_at("programs"@), "propertyId"@, property_id) {
        Some(p) => p.number_at("minContracts"@),
        None => None,
    }
}

pub open spec fn min_contracts_text<N: Amount>(quantity: u32, min: N) -> Seq<char> {
    decimal_text(quantity as nat) + " token(s) is below this property's minContracts ("@
        + min.fixed_text(0)
        + "). The order will QUALIFY its side for two-sided eligibility but score NOTHING toward LP rewards. Use at least "@
        + min.fixed_text(0) + " to earn on it."@
}

/// A note when an order is smaller than its program's `minContracts`. Such an
/// order is legal and sometimes right, so this is no error.
pub fn min_contracts_note_from<N: Amount>(
    programs: &Json<N>,
    property_id: &str,
    quantity: u32,
) -> (r: Option<String>)
    ensures
        owned_chars(r) == match program_minimum(*programs, property_id@) {
            Some(min) => if N::whole(quantity as u64).less(min) {
                Some(min_contracts_text(quantity, min))
            } else {
                None
            },
            None => None,
        },
{
    match find_text(&programs.items_in("programs"), "propertyId", property_id) {
        Some(p) => match p.number_in("minContracts") {
            Some(min) => if N::of(quantity as u64).is_below(min) {
                Some(
                    decimal(quantity as u128).concat(
                        " token(s) is below this property's minContracts (",
                    ).concat(&min.fixed(0)).concat(
                        "). The order will QUALIFY its side for two-sided eligibility but score NOTHING toward LP rewards. Use at least ",
                    ).concat(&min.fixed(0)).concat(" to earn on it."),
                )
            } else {
                None
            },
            None => None,
        },
        None => None,
    }
}

pub open spec fn is_direction(word: Seq<char>) -> bool {
    word == Side::Buy.word() || word == Side::Sell.word()
}

/// What is wrong with a new order, in the order it is looked at.
pub open spec fn order_refusal<N: Amount>(
    direction: Seq<char>,
    price: N,
    quantity: u32,
) -> Option<FailureView> {
    if !is_direction(direction) {
        Some(FailureView::Usage("--direction must be `buy` or `sell`"@))
    } else if price.less(one_cent()) {
        Some(FailureView::Usage("--price must be at least $0.01"@))
    } else if quantity < 1 {
        Some(FailureView::Usage("--quantity must be at least 1"@))
    } else {
        None
    }
}

/// Reject a new order before anything is looked up.
pub fn check_order<N: Amount>(direction: &str, price: N, quantity: u32) -> (r: Result<(), Failure>)
    ensures
        verdict(r) == match order_refusal(direction@, price, quantity) {
            Some(e) => Err(e),
            None => Ok(()),
        },
{
    if !same(direction, Side::Buy.as_str()) && !same(direction, Side::Sell.as_str()) {
        return Err(Failure::Usage("--direction must be `buy` or `sell`".to_owned()));
    }
    if price.is_below(one_cent_amount()) {
        return Err(Failure::Usage("--price must be at least $0.01".to_owned()));
    }
    if quantity < 1 {
        return Err(Failure::Usage("--quantity must be at least 1".to_owned()));
    }
    Ok(())
}

pub open spec fn order_text<N: Amount>(
    direction: Seq<char>,
    quantity: u32,
    price: N,
    property_id: Seq<char>,
) -> Seq<char> {
    "place limit "@ + direction + " of "@ + decimal_text(quantity as nat) + " token(s) @ $"@
        + price.fixed_text(2) + " on "@ + property_id
}

/// An order in words.
pub fn describe_order<N: Amount>(
    direction: &str,
    quantity: u32,
    price: N,
    property_id: &str,
) -> (r: String)
    ensures
        r@ == order_text(direction@, quantity, price, property_id@),
{
    "place limit ".to_owned().concat(direction).concat(" of ").concat(
        &decimal(quantity as u128),
    ).concat(" token(s) @ $").concat(&price.fixed(2)).concat(" on ").concat(property_id)
}

/// An unconfirmed order must never touch the keychain or the network: one that
/// cannot be confirmed is refused at once.
pub fn check_confirmable<N: Amount>(
    force: bool,
    interactive: bool,
    direction: &str,
    quantity: u32,
    price: N,
    property_id: &str,
) -> (r: Result<(), Failure>)
    ensures
        verdict(r) == if !force && !interactive {
            Err(
                FailureView::ConfirmationRequired(
                    order_text(direction@, quantity, price, property_id@)
                        + " — pass --force to proceed non-interactively"@,
                ),
            )
        } else {
            Ok(())
        },
{
    if !force && !interactive {
        return Err(
            Failure::ConfirmationRequired(
                describe_order(direction, quantity, price, property_id).concat(
                    " — pass --force to proceed non-interactively",
                ),
            ),
        );
    }
    Ok(())
}

pub open spec fn order_summary_text<N: Amount>(
    direction: Seq<char>,
    quantity: u32,
    price: N,
    property_id: Seq<char>,
    market: MarketView<N>,
    note: Option<Seq<char>>,
) -> Seq<char> {
    order_text(direction, quantity, price, property_id) + " (total $"@ + price.product(
        N::whole(quantity as u64),
    ).fixed_text(2) + ")"@ + market.suffix() + (match note {
        Some(n) => "\n⚠ "@ + n,
        None => Seq::empty(),
    })
}

/// What the operator is asked to confirm.
pub fn order_summary<N: Amount>(
    direction: &str,
    quantity: u32,
    price: N,
    property_id: &str,
    market: &MarketView<N>,
    note: Option<&str>,
) -> (r: String)
    ensures
        r@ == order_summary_text(
            direction@,
            quantity,
            price,
            property_id@,
            *market,
            chars_of(note),
        ),
{
    let text = describe_order(direction, quantity, price, property_id).concat(" (total $").concat(
        &price.times(N::of(quantity as u64)).fixed(2),
    ).concat(")").concat(&market.summary_suffix());
    match note {
        Some(n) => {
            let tail = "\n⚠ ".to_owned().concat(n);
            text.concat(&tail)
        },
        None => {
            assert(text@ + Seq::<char>::empty() =~= text@);
            text
        },
    }
}

/// The query for our orders: one property's, or all of them.
pub fn list_query(property_id: Option<&str>, status: Option<&str>) -> (r: Vec<
    (&'static str, String),
>)
    ensures
        query_views(r@) == (match chars_of(property_id) {
            Some(id) => seq![("propertyId"@, id)],
            None => seq![("all"@, "true"@)],
        }) + optional_pair("status"@, chars_of(status)),
{
    let mut q: Vec<(&'static str, String)> = Vec::new();
    match property_id {
        Some(id) => q.push(("propertyId", id.to_owned())),
        None => q.push(("all", "true".to_owned())),
    }
    if let Some(s) = status {
        q.push(("status", s.to_owned()));
    }
    assert(query_views(q@) =~= (match chars_of(property_id) {
        Some(id) => seq![("propertyId"@, id)],
        None => seq![("all"@, "true"@)],
    }) + optional_pair("status"@, chars_of(status)));
    q
}

/// What the operator is asked before an order is cancelled.
pub fn cancel_summary(order_id: &str) -> (r: String)
    ensures
        r@ == "cancel order "@ + order_id@,
{
    "cancel order ".to_owned().concat(order_id)
}

/// Of two disagreeing sources the one that is stricter on us wins: a sell is held
/// against no less, and a buy against no more, than any source reports.
pub proof fn references_are_strict_on_us(m: MarketView<Micros>)
    ensures
        m.book_bid is Some ==> m.sell_ref() is Some && m.book_bid->0.at_most(m.sell_ref()->0),
        m.feed_bid is Some ==> m.sell_ref() is Some && m.feed_bid->0.at_most(m.sell_ref()->0),
        m.last_trade is Some ==> m.sell_ref() is Some && m.last_trade->0.at_most(m.sell_ref()->0),
        m.book_ask is Some ==> m.buy_ref() is Some && m.buy_ref()->0.at_most(m.book_ask->0),
        m.feed_ask is Some ==> m.buy_ref() is Some && m.buy_ref()->0.at_most(m.feed_ask->0),
        m.last_trade is Some ==> m.buy_ref() is Some && m.buy_ref()->0.at_most(m.last_trade->0),
{
}

/// A sell at or below a bid, or a buy at or above an ask, that either source
/// reports is always objected to.
pub proof fn a_crossing_order_is_objected_to(m: MarketView<Micros>, price: Micros)
    ensures
        (m.book_bid is Some && price.at_most(m.book_bid->0)) || (m.feed_bid is Some
            && price.at_most(m.feed_bid->0)) ==> m.objection_to(Side::Sell.word(), price) is Some,
        (m.book_ask is Some && m.book_ask->0.at_most(price)) || (m.feed_ask is Some
            && m.feed_ask->0.at_most(price)) ==> m.objection_to(Side::Buy.word(), price) is Some,
{
    reveal_strlit("buy");
    reveal_strlit("sell");
    assert("buy"@.len() != "sell"@.len());
}

/// Without any trade to price against, every order is objected to.
pub proof fn no_history_is_a_reason_to_stop<N: Amount>(
    m: MarketView<N>,
    direction: Seq<char>,
    price: N,
)
    requires
        m.trade_count == 0,
    ensures
        m.objection_to(direction, price) is Some,
{
}

/// A reference is one of the prices known, and there is none exactly when none is
/// known: of a sell the bids and the last trade count, of a buy the asks and the last
/// trade.
pub proof fn a_reference_is_a_price_that_is_known(m: MarketView<Micros>)
    ensures
        m.sell_ref() is None <==> m.book_bid is None && m.feed_bid is None && m.last_trade is None,
        m.sell_ref() is Some ==> m.sell_ref() == m.book_bid || m.sell_ref() == m.feed_bid
            || m.sell_ref() == m.last_trade,
        m.buy_ref() is None <==> m.book_ask is None && m.feed_ask is None && m.last_trade is None,
        m.buy_ref() is Some ==> m.buy_ref() == m.book_ask || m.buy_ref() == m.feed_ask
            || m.buy_ref() == m.last_trade,
{
}

/// A sell with a trade history is objected to exactly when it lies at or below a bid
/// that either source reports, or under 95 percent of such a bid or of the last trade.
pub proof fn a_sell_is_objected_to_when_it_is_cheap(m: MarketView<Micros>, price: Micros)
    requires
        m.trade_count > 0,
    ensures
        ({
            let met = |bid: Option<Micros>| bid is Some && price.units <= bid->0.units;
            let far = |known: Option<Micros>|
                known is Some && price.units < known->0.product(Micros { units: 950_000 }).units;
            m.objection_to("sell"@, price) is Some <==> met(m.book_bid) || met(m.feed_bid) || far(
                m.book_bid,
            ) || far(m.feed_bid) || far(m.last_trade)
        }),
{
    lemma_tolerance();
    assert(Micros::whole(1).difference(tolerance()).units == 950_000);
    if let Some(r) = m.sell_ref() {
        let x = r.units as int;
        if let Some(k) = m.book_bid {
            rounding_is_monotone(k.units * 950_000, x * 950_000, 1_000_000);
        }
        if let Some(k) = m.feed_bid {
            rounding_is_monotone(k.units * 950_000, x * 950_000, 1_000_000);
        }
        if let Some(k) = m.last_trade {
            rounding_is_monotone(k.units * 950_000, x * 950_000, 1_000_000);
        }
    }
}

/// A buy with a trade history is objected to exactly when it lies at or above an ask
/// that either source reports, or over 105 percent of such an ask or of the last
/// trade.
pub proof fn a_buy_is_objected_to_when_it_is_dear(m: MarketView<Micros>, price: Micros)
    requires
        m.trade_count > 0,
    ensures
        ({
            let met = |ask: Option<Micros>| ask is Some && ask->0.units <= price.units;
            let far = |known: Option<Micros>|
                known is Some && known->0.product(Micros { units: 1_050_000 }).units < price.units;
            m.objection_to("buy"@, price) is Some <==> met(m.book_ask) || met(m.feed_ask) || far(
                m.book_ask,
            ) || far(m.feed_ask) || far(m.last_trade)
        }),
{
    reveal_strlit("buy");
    reveal_strlit("sell");
    assert("buy"@.len() != "sell"@.len());
    lemma_tolerance();
    assert(Micros::whole(1).sum(tolerance()).units == 1_050_000);
    if let Some(r) = m.buy_ref() {
        let x = r.units as int;
        if let Some(k) = m.book_ask {
            rounding_is_monotone(x * 1_050_000, k.units * 1_050_000, 1_000_000);
        }
        if let Some(k) = m.feed_ask {
            rounding_is_monotone(x * 1_050_000, k.units * 1_050_000, 1_000_000);
        }
        if let Some(k) = m.last_trade {
            rounding_is_monotone(x * 1_050_000, k.units * 1_050_000, 1_000_000);
        }
    }
}

proof fn lemma_tolerance()
    ensures
        tolerance::<Micros>().units == 50_000,
{
    multiples_divide_exactly(50_000, 100_000_000);
    assert(5_000_000int * 1_000_000 == 50_000int * 100_000_000);
}

/// What the two payloads show: the best prices of the book, those of the feed, and how
/// many trades carry a price. A payload that is missing shows nothing.
pub proof fn the_market_is_what_the_payloads_show<N: Amount>(
    book: Option<Json<N>>,
    trades: Option<Json<N>>,
)
    ensures
        ({
            let m = view_of(book, trades);
            &&& book is None ==> m.book_bid is None && m.book_ask is None
            &&& book matches Some(b) ==> m.book_bid == best(
                prices_of(b, "bids"@, "buyOrders"@),
                true,
            ) && m.book_ask == best(prices_of(b, "asks"@, "sellOrders"@), false)
            &&& trades is None ==> m.feed_bid is None && m.feed_ask is None && m.last_trade is None
                && m.trade_count == 0
            &&& trades matches Some(t) ==> m.feed_bid == t.number_at("bestBid"@) && m.feed_ask
                == t.number_at("bestAsk"@) && m.trade_count == t.items_at("recentTrades"@).filter(
                |x: Json<N>| x.number_at("price"@) is Some,
            ).len() as usize
        }),
{
    if let Some(t) = trades {
        lemma_prints_are_counted(t.items_at("recentTrades"@));
    }
}

proof fn lemma_prints_are_counted<N>(items: Seq<Json<N>>)
    ensures
        items.filter_map(|t: Json<N>| print_of(t)).len() == items.filter(
            |x: Json<N>| x.number_at("price"@) is Some,
        ).len(),
    decreases items.len(),
{
    reveal(Seq::filter);
    if items.len() > 0 {
        lemma_prints_are_counted(items.drop_last());
    }
}

/// The last trade is the latest that carries a price: no priced trade was made after
/// it, and none that is listed after it was made at the same time.
pub proof fn the_last_trade_is_the_latest<N: Amount>(
    book: Option<Json<N>>,
    trades: Json<N>,
    k: int,
)
    requires
        ({
            let items = trades.items_at("recentTrades"@);
            &&& 0 <= k < items.len()
            &&& items[k].number_at("price"@) is Some
            &&& forall|j: int|
                0 <= j < items.len() && (#[trigger] items[j]).number_at("price"@) is Some
                    ==> printed_at(items[j]) <= printed_at(items[k])
            &&& forall|j: int|
                k < j < items.len() && (#[trigger] items[j]).number_at("price"@) is Some ==> printed_at(
                    items[j],
                ) < printed_at(items[k])
        }),
    ensures
        view_of(book, Some(trades)).last_trade == trades.items_at("recentTrades"@)[k].number_at(
            "price"@,
        ),
{
    lemma_latest_print(trades.items_at("recentTrades"@), k);
}

/// When a trade was made, or zero.
pub open spec fn printed_at<N>(trade: Json<N>) -> u64 {
    match trade.whole_at("createdAt"@) {
        Some(at) => at,
        None => 0,
    }
}

proof fn lemma_latest_print<N>(items: Seq<Json<N>>, k: int)
    requires
        0 <= k < items.len(),
        items[k].number_at("price"@) is Some,
        forall|j: int|
            0 <= j < items.len() && (#[trigger] items[j]).number_at("price"@) is Some ==> printed_at(items[j]) <= printed_at(items[k]),
        forall|j: int|
            k < j < items.len() && (#[trigger] items[j]).number_at("price"@) is Some ==> printed_at(items[j]) < printed_at(items[k]),
    ensures
        latest(items.filter_map(|t: Json<N>| print_of(t))) == print_of(items[k]),
    decreases items.len(),
{
    let f = |t: Json<N>| print_of(t);
    let head = items.drop_last();
    let older = head.filter_map(f);
    assert((older + seq![print_of(items.last())->0]).drop_last() =~= older);
    if k < items.len() - 1 {
        assert forall|j: int|
            0 <= j < head.len() && (#[trigger] head[j]).number_at("price"@) is Some implies printed_at(head[j]) <= printed_at(head[k]) by {
            assert(head[j] == items[j]);
        }
        assert forall|j: int|
            k < j < head.len() && (#[trigger] head[j]).number_at("price"@) is Some implies printed_at(head[j]) < printed_at(head[k]) by {
            assert(head[j] == items[j]);
        }
        lemma_latest_print(head, k);
        if items.last().number_at("price"@) is Some {
            assert(printed_at(items[items.len() - 1]) < printed_at(items[k]));
        }
    } else {
        assert forall|j: int|
            0 <= j < head.len() && (#[trigger] head[j]).number_at("price"@) is Some implies printed_at(head[j]) <= printed_at(items[k]) by {
            assert(head[j] == items[j]);
        }
        lemma_latest_is_no_later(head, printed_at(items[k]));
    }
}

proof fn lemma_latest_is_no_later<N>(items: Seq<Json<N>>, bound: u64)
    requires
        forall|j: int|
            0 <= j < items.len() && (#[trigger] items[j]).number_at("price"@) is Some ==> printed_at(items[j]) <= bound,
    ensures
        latest(items.filter_map(|t: Json<N>| print_of(t))) matches Some(p) ==> p.1 <= bound,
    decreases items.len(),
{
    let f = |t: Json<N>| print_of(t);
    if items.len() > 0 {
        let head = items.drop_last();
        let older = head.filter_map(f);
        assert forall|j: int|
            0 <= j < head.len() && (#[trigger] head[j]).number_at("price"@) is Some implies printed_at(head[j]) <= bound by {
            assert(head[j] == items[j]);
        }
        lemma_latest_is_no_later(head, bound);
        assert((older + seq![print_of(items.last())->0]).drop_last() =~= older);
        if items.last().number_at("price"@) is Some {
            assert(printed_at(items[items.len() - 1]) <= bound);
        }
    }
}

/// An order is accepted exactly when it buys or sells at least one token at a cent or
/// more; of several faults the first is told.
pub proof fn an_order_needs_a_side_a_price_and_a_size<N: Amount>(
    direction: Seq<char>,
    price: N,
    quantity: u32,
)
    ensures
        ({
            let sided = direction == "buy"@ || direction == "sell"@;
            let cheap = price.less(N::whole(1).quotient(N::whole(100)));
            order_refusal(direction, price, quantity) == if !sided {
                Some(FailureView::Usage("--direction must be `buy` or `sell`"@))
            } else if cheap {
                Some(FailureView::Usage("--price must be at least $0.01"@))
            } else if quantity == 0 {
                Some(FailureView::Usage("--quantity must be at least 1"@))
            } else {
                None
            }
        }),
{
}

/// The operator confirms the order as it is: its words, what it comes to in all, the
/// market it is held against, and what else there is to know.
pub proof fn a_summary_shows_what_the_order_comes_to<N: Amount>(
    direction: Seq<char>,
    quantity: u32,
    price: N,
    property_id: Seq<char>,
    market: MarketView<N>,
    note: Option<Seq<char>>,
)
    ensures
        order_summary_text(direction, quantity, price, property_id, market, note)
            == "place limit "@ + direction + " of "@ + decimal_text(quantity as nat)
            + " token(s) @ $"@ + price.fixed_text(2) + " on "@ + property_id + " (total $"@
            + price.product(N::whole(quantity as u64)).fixed_text(2) + ")"@ + (match (
            market.sell_ref(),
            market.last_trade,
        ) {
            (Some(r), Some(l)) => " — market ref $"@ + r.fixed_text(2) + ", last trade $"@
                + l.fixed_text(2),
            (Some(r), None) => " — market ref $"@ + r.fixed_text(2),
            _ => " — NO market reference available"@,
        }) + (if note is Some {
            "\n⚠ "@ + note->0
        } else {
            Seq::empty()
        }),
{
}

/// The size that scores on a property is that of its first program; a property without
/// one asks for none.
pub proof fn the_first_program_sets_the_size<N: Amount>(
    programs: Json<N>,
    property_id: Seq<char>,
    k: int,
)
    requires
        ({
            let items = programs.items_at("programs"@);
            &&& 0 <= k <= items.len()
            &&& forall|j: int|
                0 <= j < k ==> (#[trigger] items[j]).text_at("propertyId"@) != Some(property_id)
            &&& k < items.len() ==> items[k].text_at("propertyId"@) == Some(property_id)
        }),
    ensures
        k < programs.items_at("programs"@).len() ==> program_minimum(programs, property_id)
            == programs.items_at("programs"@)[k].number_at("minContracts"@),
        k == programs.items_at("programs"@).len() ==> program_minimum(programs, property_id)
            is None,
{
    the_first_match_is_found(programs.items_at("programs"@), "propertyId"@, property_id, k);
}

/// What an objection says: a price that crosses is named with the best price on the
/// other side, and one that is too far off with how far, in percent of the reference,
/// to a tenth.
pub proof fn an_objection_says_how_far_off_a_price_is<N: Amount>(m: MarketView<N>, price: N)
    requires
        m.trade_count > 0,
    ensures
        ({
            let bid = highest(m.book_bid, m.feed_bid);
            let ask = lowest(m.book_ask, m.feed_ask);
            let below = N::whole(1).difference(N::whole(5).quotient(N::whole(100)));
            let above = N::whole(1).sum(N::whole(5).quotient(N::whole(100)));
            &&& bid is Some && price.at_most(bid->0) ==> m.objection_to("sell"@, price) == Some(
                "sell at $"@ + price.fixed_text(2) + " is AT OR BELOW the best bid $"@
                    + bid->0.fixed_text(2)
                    + " — it will fill immediately as a taker, not rest on the book"@,
            )
            &&& !(bid is Some && price.at_most(bid->0)) && m.sell_ref() is Some && price.less(
                m.sell_ref()->0.product(below),
            ) ==> m.objection_to("sell"@, price) == Some(
                "sell at $"@ + price.fixed_text(2) + " is "@ + N::whole(1).difference(
                    price.quotient(m.sell_ref()->0),
                ).product(N::whole(100)).fixed_text(1) + "% below the market reference $"@
                    + m.sell_ref()->0.fixed_text(2),
            )
            &&& ask is Some && ask->0.at_most(price) ==> m.objection_to("buy"@, price) == Some(
                "buy at $"@ + price.fixed_text(2) + " is AT OR ABOVE the best ask $"@
                    + ask->0.fixed_text(2) + " — it will fill immediately as a taker"@,
            )
            &&& !(ask is Some && ask->0.at_most(price)) && m.buy_ref() is Some && m.buy_ref()->0.product(
                above,
            ).less(price) ==> m.objection_to("buy"@, price) == Some(
                "buy at $"@ + price.fixed_text(2) + " is "@ + price.quotient(
                    m.buy_ref()->0,
                ).difference(N::whole(1)).product(N::whole(100)).fixed_text(1)
                    + "% above the market reference $"@ + m.buy_ref()->0.fixed_text(2),
            )
        }),
{
    reveal_strlit("buy");
    reveal_strlit("sell");
    assert("buy"@.len() != "sell"@.len());
}

/// Whatever is not called a sell is held against the market as a buy.
pub proof fn what_is_no_sell_is_priced_as_a_buy<N: Amount>(
    m: MarketView<N>,
    direction: Seq<char>,
    price: N,
)
    requires
        m.trade_count > 0,
        direction != "sell"@,
    ensures
        m.objection_to(direction, price) == m.objection_to("buy"@, price),
{
    reveal_strlit("buy");
    reveal_strlit("sell");
    assert("buy"@.len() != "sell"@.len());
}

/// Of two known prices the higher is the greater of them, and the lower the lesser;
/// one that is known alone is both.
pub proof fn the_higher_and_the_lower_price(a: Option<Micros>, b: Option<Micros>)
    ensures
        highest(a, b) is None <==> a is None && b is None,
        lowest(a, b) is None <==> a is None && b is None,
        highest(a, b) matches Some(x) ==> (highest(a, b) == a || highest(a, b) == b) && (a is Some
            ==> a->0.units <= x.units) && (b is Some ==> b->0.units <= x.units),
        lowest(a, b) matches Some(x) ==> (lowest(a, b) == a || lowest(a, b) == b) && (a is Some
            ==> x.units <= a->0.units) && (b is Some ==> x.units <= b->0.units),
{
}

/// The market is shown with every source: the prices of the book, those of the feed,
/// and the last trade with how many there were, a dash where one is missing.
pub proof fn every_source_is_shown<N: Amount>(m: MarketView<N>)
    ensures
        ({
            let shown = |p: Option<N>|
                if p is Some {
                    "$"@ + p->0.fixed_text(2)
                } else {
                    "—"@
                };
            m.description() == "  orderbook   bid "@ + shown(m.book_bid) + "  ask "@ + shown(
                m.book_ask,
            ) + "\n  trades feed bid "@ + shown(m.feed_bid) + "  ask "@ + shown(m.feed_ask)
                + "\n  last trade  "@ + shown(m.last_trade) + "   ("@ + decimal_text(
                m.trade_count as nat,
            ) + " recent print(s))"@
        }),
{
}

/// Without any trade the operator is told that this very order cannot be checked.
pub proof fn an_order_without_history_is_told_as_it_is<N: Amount>(
    m: MarketView<N>,
    direction: Seq<char>,
    price: N,
)
    requires
        m.trade_count == 0,
    ensures
        m.objection_to(direction, price) == Some(
            "this property has NO trade history to price against — a "@ + direction + " at $"@
                + price.fixed_text(2)
                + " cannot be checked, and thin books fill instantly at whatever is resting"@,
        ),
{
}

/// A small order is told with its own size and, twice, with the size that earns.
pub proof fn a_small_order_is_told_with_the_size_that_earns<N: Amount>(quantity: u32, min: N)
    ensures
        min_contracts_text(quantity, min) == decimal_text(quantity as nat)
            + " token(s) is below this property's minContracts ("@ + min.fixed_text(0)
            + "). The order will QUALIFY its side for two-sided eligibility but score NOTHING toward LP rewards. Use at least "@
            + min.fixed_text(0) + " to earn on it."@,
{
}

} // verus!
