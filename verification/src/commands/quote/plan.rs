use vstd::prelude::*;

use crate::amount::Amount;
use crate::commands::quote::{
    advisory, broken_rail, check_placement, describe_uncovered, market_from, market_of, no_mid_text,
    refusal_text, uncovered_text, Cover, Market, Rails, Side,
};
use crate::failure::{outcome, Failure, FailureView};
use crate::json::{lemma_filter_step, owned, select_text, with_text, Json};
use crate::text::{chars_of, joined, joined_text, same, texts};

verus! {

#[derive(Clone, Copy, Debug, PartialEq, Eq, Structural)]
pub enum Op {
    Cancel,
    Create,
}

impl Op {
    pub open spec fn word(self) -> Seq<char> {
        match self {
            Op::Cancel => "cancel"@,
            Op::Create => "create"@,
        }
    }

    pub fn as_str(self) -> (r: &'static str)
        ensures
            r@ == self.word(),
    {
        match self {
            Op::Cancel => "cancel",
            Op::Create => "create",
        }
    }
}

/// One order operation of a plan. A cancellation names the order it takes off the
/// book; a creation says how far from the mid it rests.
#[derive(Debug)]
pub struct Step<'a, N> {
    pub op: Op,
    pub direction: &'a str,
    pub order_id: Option<&'a Json<N>>,
    pub price: N,
    pub quantity: N,
    pub dist_from_mid: Option<N>,
}

pub struct StepView<N> {
    pub op: Op,
    pub direction: Seq<char>,
    pub order_id: Option<Json<N>>,
    pub price: N,
    pub quantity: N,
    pub dist_from_mid: Option<N>,
}

impl<'a, N> View for Step<'a, N> {
    type V = StepView<N>;

    open spec fn view(&self) -> StepView<N> {
        StepView {
            op: self.op,
            direction: self.direction@,
            order_id: owned(self.order_id),
            price: self.price,
            quantity: self.quantity,
            dist_from_mid: self.dist_from_mid,
        }
    }
}

/// An order a plan leaves resting.
#[derive(Debug)]
pub struct Kept<'a, N> {
    pub direction: &'a str,
    pub price: N,
    pub quantity: N,
    pub reason: Option<&'static str>,
}

pub struct KeptView<N> {
    pub direction: Seq<char>,
    pub price: N,
    pub quantity: N,
    pub reason: Option<Seq<char>>,
}

impl<'a, N> View for Kept<'a, N> {
    type V = KeptView<N>;

    open spec fn view(&self) -> KeptView<N> {
        KeptView {
            direction: self.direction@,
            price: self.price,
            quantity: self.quantity,
            reason: chars_of(self.reason),
        }
    }
}

/// The mid and the reward band of a plan that places an order.
#[derive(Debug)]
pub struct Band<N> {
    pub mid: N,
    pub low: N,
    pub high: N,
}

/// What a primitive would do: the operations in the order they are sent, the
/// orders left alone, and what the operator should know. A plan that places
/// nothing measures against no market and carries no band.
#[derive(Debug)]
pub struct Plan<'a, N> {
    pub property_id: Option<&'a Json<N>>,
    pub band: Option<Band<N>>,
    pub steps: Vec<Step<'a, N>>,
    pub untouched: Vec<Kept<'a, N>>,
    pub notes: Vec<String>,
}

pub struct PlanView<N> {
    pub property_id: Option<Json<N>>,
    pub band: Option<Band<N>>,
    pub steps: Seq<StepView<N>>,
    pub untouched: Seq<KeptView<N>>,
    pub notes: Seq<Seq<char>>,
}

pub open spec fn step_views<'a, N>(steps: Seq<Step<'a, N>>) -> Seq<StepView<N>> {
    steps.map_values(|s: Step<'a, N>| s@)
}

pub open spec fn kept_views<'a, N>(kept: Seq<Kept<'a, N>>) -> Seq<KeptView<N>> {
    kept.map_values(|k: Kept<'a, N>| k@)
}

impl<'a, N> View for Plan<'a, N> {
    type V = PlanView<N>;

    open spec fn view(&self) -> PlanView<N> {
        PlanView {
            property_id: owned(self.property_id),
            band: self.band,
            steps: step_views(self.steps@),
            untouched: kept_views(self.untouched@),
            notes: texts(self.notes@),
        }
    }
}

pub open spec fn band_of<N: Amount>(m: Market<N>) -> Band<N> {
    Band { mid: m.mid, low: m.mid.difference(m.spread), high: m.mid.sum(m.spread) }
}

fn band<N: Amount>(m: &Market<N>) -> (r: Band<N>)
    ensures
        r == band_of(*m),
{
    Band { mid: m.mid, low: m.mid.minus(m.spread), high: m.mid.plus(m.spread) }
}

/// Where a recenter moves a quote. A side without a price is left alone.
#[derive(Debug)]
pub struct Targets<N> {
    pub bid: Option<N>,
    pub ask: Option<N>,
    pub bid_qty: Option<u32>,
    pub ask_qty: Option<u32>,
    pub min_ask: Option<N>,
    pub allow_out_of_band: bool,
}

/// Our orders on one side.
pub open spec fn orders_on<N>(mine: Seq<Json<N>>, side: Side) -> Seq<Json<N>> {
    with_text(mine, "direction"@, side.word())
}

/// The tokens of some orders.
pub open spec fn total_quantity<N: Amount>(orders: Seq<Json<N>>) -> N
    decreases orders.len(),
{
    if orders.len() == 0 {
        N::whole(0)
    } else {
        total_quantity(orders.drop_last()).sum(orders.last().amount_at("quantity"@))
    }
}

/// The cost of some orders at their prices.
pub open spec fn total_cost<N: Amount>(orders: Seq<Json<N>>) -> N
    decreases orders.len(),
{
    if orders.len() == 0 {
        N::whole(0)
    } else {
        total_cost(orders.drop_last()).sum(
            orders.last().amount_at("price"@).product(orders.last().amount_at("quantity"@)),
        )
    }
}

pub fn quantity_total<N: Amount>(orders: &Vec<&Json<N>>) -> (r: N)
    ensures
        r == total_quantity(orders@.unref()),
{
    let mut total = N::of(0);
    let mut i: usize = 0;
    let ghost all = orders@.unref();
    while i < orders.len()
        invariant
            i <= orders.len(),
            all == orders@.unref(),
            total == total_quantity(all.take(i as int)),
        decreases orders.len() - i,
    {
        assert(all.take(i as int + 1).drop_last() =~= all.take(i as int));
        total = total.plus(orders[i].amount_in("quantity"));
        i = i + 1;
    }
    assert(all.take(orders.len() as int) =~= all);
    total
}

pub fn cost_total<N: Amount>(orders: &Vec<&Json<N>>) -> (r: N)
    ensures
        r == total_cost(orders@.unref()),
{
    let mut total = N::of(0);
    let mut i: usize = 0;
    let ghost all = orders@.unref();
    while i < orders.len()
        invariant
            i <= orders.len(),
            all == orders@.unref(),
            total == total_cost(all.take(i as int)),
        decreases orders.len() - i,
    {
        assert(all.take(i as int + 1).drop_last() =~= all.take(i as int));
        total = total.plus(orders[i].amount_in("price").times(orders[i].amount_in("quantity")));
        i = i + 1;
    }
    assert(all.take(orders.len() as int) =~= all);
    total
}

/// Taking one of our orders off the book.
pub open spec fn cancellation<N: Amount>(o: Json<N>, direction: Seq<char>) -> StepView<N> {
    StepView {
        op: Op::Cancel,
        direction,
        order_id: o.member("orderId"@),
        price: o.amount_at("price"@),
        quantity: o.amount_at("quantity"@),
        dist_from_mid: None,
    }
}

/// Taking every one of some orders off the book.
pub open spec fn cancellations<N: Amount>(orders: Seq<Json<N>>, side: Side) -> Seq<StepView<N>> {
    orders.map_values(|o: Json<N>| cancellation(o, side.word()))
}

/// Posting an order.
pub open spec fn creation<N: Amount>(side: Side, price: N, quantity: N, mid: N) -> StepView<N> {
    StepView {
        op: Op::Create,
        direction: side.word(),
        order_id: None,
        price,
        quantity,
        dist_from_mid: Some(price.difference(mid).magnitude()),
    }
}

/// An order left resting without a stated reason.
pub open spec fn left_alone<N: Amount>(o: Json<N>, side: Side) -> KeptView<N> {
    KeptView {
        direction: side.word(),
        price: o.amount_at("price"@),
        quantity: o.amount_at("quantity"@),
        reason: None,
    }
}

/// The orders of a side that keeps its price.
pub open spec fn untouched_side<N: Amount>(
    mine: Seq<Json<N>>,
    side: Side,
    target: Option<N>,
) -> Seq<KeptView<N>> {
    match target {
        Some(_) => Seq::empty(),
        None => orders_on(mine, side).map_values(|o: Json<N>| left_alone(o, side)),
    }
}

/// The size a moved side is posted with: the one asked for, else the one resting.
pub open spec fn moved_quantity<N: Amount>(existing: Seq<Json<N>>, asked: Option<u32>) -> N {
    match asked {
        Some(n) => N::whole(n as u64),
        None => total_quantity(existing),
    }
}

/// What backs a side that is posted anew. What rested there is cancelled first, so
/// it commits nothing any more.
pub open spec fn moved_cover<N: Amount>(side: Side, price: N, qty: N, have: N) -> Cover<N> {
    Cover {
        need: match side {
            Side::Buy => price.product(qty),
            Side::Sell => qty,
        },
        have,
    }
}

/// What backs the orders of a side that is left in place: bids by the USDC they
/// cost, asks by the tokens they sell.
pub open spec fn resting_cover<N: Amount>(side: Side, orders: Seq<Json<N>>, have: N) -> Cover<N> {
    Cover {
        need: match side {
            Side::Buy => total_cost(orders),
            Side::Sell => total_quantity(orders),
        },
        have,
    }
}

pub open spec fn no_size_text(side: Side) -> Seq<char> {
    "no resting "@ + side.word() + " to take a size from — pass --"@ + (match side {
        Side::Buy => "bid"@,
        Side::Sell => "ask"@,
    }) + "-qty"@
}

/// What a move does to one side: cancel what rests there, then post the new order.
/// It is refused when there is no size to post or a rail is broken. A side that is
/// left in place must be covered too.
pub open spec fn leg<N: Amount>(
    m: Market<N>,
    side: Side,
    target: Option<N>,
    asked: Option<u32>,
    existing: Seq<Json<N>>,
    have: N,
    rails: Rails<N>,
) -> Result<(Seq<StepView<N>>, Seq<Seq<char>>), FailureView> {
    match target {
        None => {
            let cover = resting_cover(side, existing, have);
            if cover.have.less(cover.need) {
                Err(FailureView::Usage(uncovered_text(side, cover)))
            } else {
                Ok((Seq::empty(), Seq::empty()))
            }
        },
        Some(price) => {
            let qty = moved_quantity(existing, asked);
            let cover = moved_cover(side, price, qty, have);
            if qty.at_most(N::whole(0)) {
                Err(FailureView::Usage(no_size_text(side)))
            } else {
                match broken_rail(m, side, price, qty, cover, rails) {
                    Some(rail) => Err(
                        FailureView::Usage(
                            refusal_text(rail, m, side, price, qty, cover, rails),
                        ),
                    ),
                    None => Ok(
                        (
                            cancellations(existing, side).push(creation(side, price, qty, m.mid)),
                            match advisory(m, side, price) {
                                Some(note) => seq![note],
                                None => Seq::empty(),
                            },
                        ),
                    ),
                }
            }
        },
    }
}

/// The plan that moves a quote: the bid side first, then the ask side, each
/// cancelled before it is posted again. Sides without a target keep resting, and
/// the balances must cover what they commit.
pub open spec fn recenter_plan<N: Amount>(
    program: Json<N>,
    mine: Seq<Json<N>>,
    book: Json<N>,
    usdc: N,
    held: N,
    t: Targets<N>,
) -> Result<PlanView<N>, FailureView> {
    let rails = Rails { min_ask: t.min_ask, allow_out_of_band: t.allow_out_of_band };
    match market_of(program, mine, book) {
        None => Err(FailureView::Other(no_mid_text())),
        Some(m) => match leg(
            m,
            Side::Buy,
            t.bid,
            t.bid_qty,
            orders_on(mine, Side::Buy),
            usdc,
            rails,
        ) {
            Err(e) => Err(e),
            Ok(bid) => match leg(
                m,
                Side::Sell,
                t.ask,
                t.ask_qty,
                orders_on(mine, Side::Sell),
                held,
                rails,
            ) {
                Err(e) => Err(e),
                Ok(ask) => Ok(
                    PlanView {
                        property_id: program.member("propertyId"@),
                        band: Some(band_of(m)),
                        steps: bid.0 + ask.0,
                        untouched: untouched_side(mine, Side::Buy, t.bid) + untouched_side(
                            mine,
                            Side::Sell,
                            t.ask,
                        ),
                        notes: bid.1 + ask.1,
                    },
                ),
            },
        },
    }
}

struct Leg<'a, N> {
    steps: Vec<Step<'a, N>>,
    notes: Vec<String>,
}

fn plan_leg<'a, N: Amount>(
    m: &Market<N>,
    side: Side,
    target: Option<N>,
    asked: Option<u32>,
    existing: &Vec<&'a Json<N>>,
    have: N,
    rails: &Rails<N>,
) -> (r: Result<Leg<'a, N>, Failure>)
    ensures
        match r {
            Ok(l) => leg(*m, side, target, asked, existing@.unref(), have, *rails) == Ok::<
                (Seq<StepView<N>>, Seq<Seq<char>>),
                FailureView,
            >((step_views(l.steps@), texts(l.notes@))),
            Err(e) => leg(*m, side, target, asked, existing@.unref(), have, *rails) == Err::<(Seq<StepView<N>>, Seq<Seq<char>>), FailureView>(e@),
        },
{
    let mut steps: Vec<Step<'a, N>> = Vec::new();
    let mut notes: Vec<String> = Vec::new();
    let price = match target {
        Some(p) => p,
        None => {
            let cover = Cover {
                need: match side {
                    Side::Buy => cost_total(existing),
                    Side::Sell => quantity_total(existing),
                },
                have,
            };
            if cover.have.is_below(cover.need) {
                return Err(Failure::Usage(describe_uncovered(side, &cover)));
            }
            assert(step_views(steps@) =~= Seq::empty());
            assert(texts(notes@) =~= Seq::empty());
            return Ok(Leg { steps, notes });
        },
    };
    let qty = match asked {
        Some(n) => N::of(n as u64),
        None => quantity_total(existing),
    };
    if qty.is_at_most(N::of(0)) {
        return Err(
            Failure::Usage(
                "no resting ".to_owned().concat(side.as_str()).concat(
                    " to take a size from — pass --",
                ).concat(
                    match side {
                        Side::Buy => "bid",
                        Side::Sell => "ask",
                    },
                ).concat("-qty"),
            ),
        );
    }
    let cover = Cover {
        need: match side {
            Side::Buy => price.times(qty),
            Side::Sell => qty,
        },
        have,
    };
    let note = check_placement(m, side, price, qty, cover, rails)?;
    if let Some(n) = note {
        notes.push(n);
    }
    assert(texts(notes@) =~= match advisory(*m, side, price) {
        Some(n) => seq![n],
        None => Seq::empty(),
    });
    let ghost all = existing@.unref();
    let mut i: usize = 0;
    while i < existing.len()
        invariant
            i <= existing.len(),
            all == existing@.unref(),
            step_views(steps@) == cancellations(all.take(i as int), side),
        decreases existing.len() - i,
    {
        let o = existing[i];
        let ghost before = steps@;
        steps.push(
            Step {
                op: Op::Cancel,
                direction: side.as_str(),
                order_id: o.get("orderId"),
                price: o.amount_in("price"),
                quantity: o.amount_in("quantity"),
                dist_from_mid: None,
            },
        );
        assert(step_views(steps@) =~= step_views(before).push(cancellation(*o, side.word())));
        i = i + 1;
        assert(step_views(steps@) =~= cancellations(all.take(i as int), side));
    }
    assert(all.take(existing.len() as int) =~= all);
    let ghost before = steps@;
    steps.push(create_step(side, price, qty, m.mid));
    assert(step_views(steps@) =~= step_views(before).push(creation(side, price, qty, m.mid)));
    Ok(Leg { steps, notes })
}

fn keep_side<'a, N: Amount>(mine: &Vec<&'a Json<N>>, side: Side, target: Option<N>) -> (r: Vec<
    Kept<'a, N>,
>)
    ensures
        kept_views(r@) == untouched_side(mine@.unref(), side, target),
{
    let mut kept: Vec<Kept<'a, N>> = Vec::new();
    if target.is_some() {
        assert(kept_views(kept@) =~= Seq::empty());
        return kept;
    }
    let orders = select_text(mine, "direction", side.as_str());
    let ghost all = orders@.unref();
    let ghost f = |o: Json<N>| left_alone(o, side);
    let mut i: usize = 0;
    while i < orders.len()
        invariant
            i <= orders.len(),
            all == orders@.unref(),
            f == (|o: Json<N>| left_alone(o, side)),
            kept_views(kept@) == all.take(i as int).map_values(f),
        decreases orders.len() - i,
    {
        let o = orders[i];
        let ghost before = kept@;
        kept.push(
            Kept {
                direction: side.as_str(),
                price: o.amount_in("price"),
                quantity: o.amount_in("quantity"),
                reason: None,
            },
        );
        assert(kept_views(kept@) =~= kept_views(before).push(left_alone(*o, side)));
        i = i + 1;
        assert(kept_views(kept@) =~= all.take(i as int).map_values(f));
    }
    assert(all.take(orders.len() as int) =~= all);
    kept
}

/// Build the plan that moves a resting quote, and enforce every safety rail.
pub fn plan_recenter<'a, N: Amount>(
    program: &'a Json<N>,
    mine: &Vec<&'a Json<N>>,
    book: &Json<N>,
    usdc: N,
    held: N,
    t: Targets<N>,
) -> (r: Result<Plan<'a, N>, Failure>)
    ensures
        outcome(r) == recenter_plan(*program, mine@.unref(), *book, usdc, held, t),
{
    let my_bids = select_text(mine, "direction", Side::Buy.as_str());
    let my_asks = select_text(mine, "direction", Side::Sell.as_str());
    let market = market_from(program, mine, book)?;
    let rails = Rails { min_ask: t.min_ask, allow_out_of_band: t.allow_out_of_band };
    let mut bid = plan_leg(&market, Side::Buy, t.bid, t.bid_qty, &my_bids, usdc, &rails)?;
    let mut ask = plan_leg(&market, Side::Sell, t.ask, t.ask_qty, &my_asks, held, &rails)?;
    let ghost (b, a) = (bid, ask);
    let mut steps = bid.steps;
    let mut notes = bid.notes;
    steps.append(&mut ask.steps);
    notes.append(&mut ask.notes);
    assert(step_views(steps@) =~= step_views(b.steps@) + step_views(a.steps@));
    assert(texts(notes@) =~= texts(b.notes@) + texts(a.notes@));
    let mut untouched = keep_side(mine, Side::Buy, t.bid);
    let mut more = keep_side(mine, Side::Sell, t.ask);
    let ghost (u, v) = (untouched@, more@);
    untouched.append(&mut more);
    assert(kept_views(untouched@) =~= kept_views(u) + kept_views(v));
    Ok(
        Plan {
            property_id: program.get("propertyId"),
            band: Some(band(&market)),
            steps,
            untouched,
            notes,
        },
    )
}

/// Everything a quote primitive needs about one property.
#[derive(Debug)]
pub struct State<'a, N> {
    pub program: &'a Json<N>,
    pub mine: Vec<&'a Json<N>>,
    pub book: &'a Json<N>,
    pub usdc: N,
    pub held: N,
}

/// Whether some order rests on a side.
pub open spec fn quoting<N>(mine: Seq<Json<N>>, side: Side) -> bool {
    exists|i: int|
        0 <= i < mine.len() && (#[trigger] mine[i]).text_at("direction"@) == Some(side.word())
}

pub fn is_quoting<N>(mine: &Vec<&Json<N>>, side: Side) -> (r: bool)
    ensures
        r == quoting(mine@.unref(), side),
{
    let ghost all = mine@.unref();
    let mut i: usize = 0;
    while i < mine.len()
        invariant
            i <= mine.len(),
            all == mine@.unref(),
            forall|k: int|
                0 <= k < i ==> (#[trigger] all[k]).text_at("direction"@) != Some(side.word()),
        decreases mine.len() - i,
    {
        assert(all[i as int] == *mine[i as int]);
        if mine[i].text_is("direction", side.as_str()) {
            return true;
        }
        i = i + 1;
    }
    false
}

/// The sides we already quote, as words.
pub open spec fn quoted_sides<N>(mine: Seq<Json<N>>) -> Seq<Seq<char>> {
    (if quoting(mine, Side::Buy) {
        seq![Side::Buy.word()]
    } else {
        Seq::empty()
    }) + (if quoting(mine, Side::Sell) {
        seq![Side::Sell.word()]
    } else {
        Seq::empty()
    })
}

pub open spec fn already_quoting_text(sides: Seq<Seq<char>>) -> Seq<char> {
    "already quoting "@ + joined_text(sides, " and "@)
        + " on this property — use `quote recenter` to move it, or `quote pull` to stand down first"@
}

/// What backs one leg of a fresh quote.
pub open spec fn fresh_cover<N: Amount>(
    side: Side,
    price: N,
    qty: N,
    usdc: N,
    held: N,
) -> Cover<N> {
    match side {
        Side::Buy => Cover { need: price.product(qty), have: usdc },
        Side::Sell => Cover { need: qty, have: held },
    }
}

/// The size of a fresh quote: the one asked for, else the program's minimum.
pub open spec fn fresh_quantity<N: Amount>(m: Market<N>, asked: Option<u32>) -> N {
    match asked {
        Some(n) => N::whole(n as u64),
        None => m.min_contracts,
    }
}

/// The plan that posts a fresh two-sided quote: both legs or nothing. A leg that
/// breaks a rail refuses the whole quote, and so does a side already quoted.
pub open spec fn provision_plan<N: Amount>(
    program: Json<N>,
    mine: Seq<Json<N>>,
    book: Json<N>,
    usdc: N,
    held: N,
    bid: N,
    ask: N,
    asked: Option<u32>,
    min_ask: Option<N>,
) -> Result<PlanView<N>, FailureView> {
    let rails = Rails { min_ask, allow_out_of_band: false };
    match market_of(program, mine, book) {
        None => Err(FailureView::Other(no_mid_text())),
        Some(m) => {
            let qty = fresh_quantity(m, asked);
            let bid_cover = fresh_cover(Side::Buy, bid, qty, usdc, held);
            let ask_cover = fresh_cover(Side::Sell, ask, qty, usdc, held);
            if quoting(mine, Side::Buy) || quoting(mine, Side::Sell) {
                Err(FailureView::Usage(already_quoting_text(quoted_sides(mine))))
            } else {
                match (
                    broken_rail(m, Side::Buy, bid, qty, bid_cover, rails),
                    broken_rail(m, Side::Sell, ask, qty, ask_cover, rails),
                ) {
                    (Some(rail), _) => Err(
                        FailureView::Usage(
                            refusal_text(rail, m, Side::Buy, bid, qty, bid_cover, rails),
                        ),
                    ),
                    (None, Some(rail)) => Err(
                        FailureView::Usage(
                            refusal_text(rail, m, Side::Sell, ask, qty, ask_cover, rails),
                        ),
                    ),
                    (None, None) => Ok(
                        PlanView {
                            property_id: program.member("propertyId"@),
                            band: Some(band_of(m)),
                            steps: seq![
                                creation(Side::Buy, bid, qty, m.mid),
                                creation(Side::Sell, ask, qty, m.mid),
                            ],
                            untouched: Seq::empty(),
                            notes: Seq::empty(),
                        },
                    ),
                }
            }
        },
    }
}

fn create_step<'a, N: Amount>(side: Side, price: N, quantity: N, mid: N) -> (r: Step<'a, N>)
    ensures
        r@ == creation(side, price, quantity, mid),
{
    Step {
        op: Op::Create,
        direction: side.as_str(),
        order_id: None,
        price,
        quantity,
        dist_from_mid: Some(price.minus(mid).absolute()),
    }
}

/// Plan a fresh two-sided quote.
///
/// Both legs are checked before either is planned: one-sided liquidity earns
/// nothing, so a failure on one side plans nothing at all. It never buys
/// inventory.
pub fn plan_provision<'a, N: Amount>(
    st: &State<'a, N>,
    bid: N,
    ask: N,
    qty: Option<u32>,
    min_ask: Option<N>,
) -> (r: Result<Plan<'a, N>, Failure>)
    ensures
        outcome(r) == provision_plan(
            *st.program,
            st.mine@.unref(),
            *st.book,
            st.usdc,
            st.held,
            bid,
            ask,
            qty,
            min_ask,
        ),
{
    let m = market_from(st.program, &st.mine, st.book)?;
    let qty = match qty {
        Some(n) => N::of(n as u64),
        None => m.min_contracts,
    };
    let mut existing: Vec<String> = Vec::new();
    if is_quoting(&st.mine, Side::Buy) {
        existing.push(Side::Buy.as_str().to_owned());
    }
    if is_quoting(&st.mine, Side::Sell) {
        existing.push(Side::Sell.as_str().to_owned());
    }
    if existing.len() > 0 {
        assert(texts(existing@) =~= quoted_sides(st.mine@.unref()));
        return Err(
            Failure::Usage(
                "already quoting ".to_owned().concat(&joined(&existing, " and ")).concat(
                    " on this property — use `quote recenter` to move it, or `quote pull` to stand down first",
                ),
            ),
        );
    }
    let rails = Rails { min_ask, allow_out_of_band: false };
    let bid_note = check_placement(
        &m,
        Side::Buy,
        bid,
        qty,
        Cover { need: bid.times(qty), have: st.usdc },
        &rails,
    )?;
    let ask_note = check_placement(
        &m,
        Side::Sell,
        ask,
        qty,
        Cover { need: qty, have: st.held },
        &rails,
    )?;
    let mut notes: Vec<String> = Vec::new();
    if let Some(n) = bid_note {
        notes.push(n);
    }
    if let Some(n) = ask_note {
        notes.push(n);
    }
    assert(texts(notes@) =~= Seq::empty());
    let mut steps: Vec<Step<'a, N>> = Vec::new();
    steps.push(create_step(Side::Buy, bid, qty, m.mid));
    steps.push(create_step(Side::Sell, ask, qty, m.mid));
    assert(step_views(steps@) =~= seq![
        creation(Side::Buy, bid, qty, m.mid),
        creation(Side::Sell, ask, qty, m.mid),
    ]);
    let untouched: Vec<Kept<'a, N>> = Vec::new();
    assert(kept_views(untouched@) =~= Seq::empty());
    Ok(
        Plan {
            property_id: st.program.get("propertyId"),
            band: Some(band(&m)),
            steps,
            untouched,
            notes,
        },
    )
}

/// Whether a stand-down must leave a sell resting: it is priced at or above the
/// floor the caller protects.
pub open spec fn held_back<N: Amount>(o: Json<N>, keep_above: Option<N>) -> bool {
    o.name_at("direction"@) == Side::Sell.word() && keep_above is Some && keep_above->0.at_most(
        o.amount_at("price"@),
    )
}

/// Whether a stand-down limited to one side leaves an order of another side.
pub open spec fn wrong_side<N>(o: Json<N>, side: Option<Side>) -> bool {
    side is Some && side->0.word() != o.name_at("direction"@)
}

/// Whether a stand-down leaves an order resting.
pub open spec fn spared<N: Amount>(o: Json<N>, keep_above: Option<N>, side: Option<Side>) -> bool {
    wrong_side(o, side) || held_back(o, keep_above)
}

pub open spec fn spared_order<N: Amount>(o: Json<N>, keep_above: Option<N>) -> KeptView<N> {
    KeptView {
        direction: o.name_at("direction"@),
        price: o.amount_at("price"@),
        quantity: o.amount_at("quantity"@),
        reason: Some(
            if held_back(o, keep_above) {
                "at or above --keep-above"@
            } else {
                "other side"@
            },
        ),
    }
}

pub open spec fn pulled<N: Amount>(
    mine: Seq<Json<N>>,
    keep_above: Option<N>,
    side: Option<Side>,
) -> Seq<StepView<N>> {
    mine.filter(|o: Json<N>| !spared(o, keep_above, side)).map_values(
        |o: Json<N>| cancellation(o, o.name_at("direction"@)),
    )
}

pub open spec fn left_resting<N: Amount>(
    mine: Seq<Json<N>>,
    keep_above: Option<N>,
    side: Option<Side>,
) -> Seq<KeptView<N>> {
    mine.filter(|o: Json<N>| spared(o, keep_above, side)).map_values(
        |o: Json<N>| spared_order(o, keep_above),
    )
}

/// Whether some kept order rests on a side.
pub open spec fn keeps<N>(kept: Seq<KeptView<N>>, side: Side) -> bool {
    exists|i: int| 0 <= i < kept.len() && (#[trigger] kept[i]).direction == side.word()
}

pub open spec fn one_sided_text(side: Side) -> Seq<char> {
    "leaves a "@ + side.word()
        + "-only position — one-sided liquidity earns nothing, so the remainder rests for recovery, not rewards"@
}

/// The plan that stands down: cancel every order of ours but those spared. When
/// what is left rests on one side only, the caller is told that it earns nothing.
pub open spec fn pull_plan<N: Amount>(
    program: Json<N>,
    mine: Seq<Json<N>>,
    keep_above: Option<N>,
    side: Option<Side>,
) -> PlanView<N> {
    let steps = pulled(mine, keep_above, side);
    let kept = left_resting(mine, keep_above, side);
    PlanView {
        property_id: program.member("propertyId"@),
        band: None,
        steps,
        untouched: kept,
        notes: if steps.len() > 0 && keeps(kept, Side::Buy) && !keeps(kept, Side::Sell) {
            seq![one_sided_text(Side::Buy)]
        } else if steps.len() > 0 && keeps(kept, Side::Sell) && !keeps(kept, Side::Buy) {
            seq![one_sided_text(Side::Sell)]
        } else {
            Seq::empty()
        },
    }
}

fn is_keeping<'a, N>(kept: &Vec<Kept<'a, N>>, side: Side) -> (r: bool)
    ensures
        r == keeps(kept_views(kept@), side),
{
    let mut i: usize = 0;
    while i < kept.len()
        invariant
            i <= kept.len(),
            forall|k: int|
                0 <= k < i ==> (#[trigger] kept_views(kept@)[k]).direction != side.word(),
        decreases kept.len() - i,
    {
        assert(kept_views(kept@)[i as int].direction == kept@[i as int].direction@);
        if same(kept[i].direction, side.as_str()) {
            return true;
        }
        i = i + 1;
    }
    false
}

/// Plan a stand-down.
///
/// Cancels resting orders, except any sell at or above `keep_above`: a deliberate
/// hold that standing down must never sweep away.
pub fn plan_pull<'a, N: Amount>(
    st: &State<'a, N>,
    keep_above: Option<N>,
    side: Option<Side>,
) -> (r: Plan<'a, N>)
    ensures
        r@ == pull_plan(*st.program, st.mine@.unref(), keep_above, side),
{
    let ghost all = st.mine@.unref();
    let ghost stay = |o: Json<N>| spared(o, keep_above, side);
    let ghost go = |o: Json<N>| !spared(o, keep_above, side);
    let ghost step = |o: Json<N>| cancellation(o, o.name_at("direction"@));
    let ghost keep = |o: Json<N>| spared_order(o, keep_above);
    let mut steps: Vec<Step<'a, N>> = Vec::new();
    let mut kept: Vec<Kept<'a, N>> = Vec::new();
    let mut i: usize = 0;
    while i < st.mine.len()
        invariant
            i <= st.mine.len(),
            all == st.mine@.unref(),
            stay == (|o: Json<N>| spared(o, keep_above, side)),
            go == (|o: Json<N>| !spared(o, keep_above, side)),
            step == (|o: Json<N>| cancellation(o, o.name_at("direction"@))),
            keep == (|o: Json<N>| spared_order(o, keep_above)),
            step_views(steps@) == all.take(i as int).filter(go).map_values(step),
            kept_views(kept@) == all.take(i as int).filter(stay).map_values(keep),
        decreases st.mine.len() - i,
    {
        let o = st.mine[i];
        proof {
            lemma_filter_step(all, i as int, go);
            lemma_filter_step(all, i as int, stay);
        }
        assert(all[i as int] == *o);
        let dir: &'a str = o.name_in("direction");
        let price = o.amount_in("price");
        let quantity = o.amount_in("quantity");
        let wrong: bool = match side {
            Some(s) => !same(s.as_str(), dir),
            None => false,
        };
        let held: bool = same(dir, Side::Sell.as_str()) && match keep_above {
            Some(k) => k.is_at_most(price),
            None => false,
        };
        if wrong || held {
            let ghost before = kept@;
            kept.push(
                Kept {
                    direction: dir,
                    price,
                    quantity,
                    reason: Some(
                        if held {
                            "at or above --keep-above"
                        } else {
                            "other side"
                        },
                    ),
                },
            );
            assert(kept_views(kept@) =~= kept_views(before).push(spared_order(*o, keep_above)));
            assert(all.take(i as int + 1).filter(stay).map_values(keep) =~= all.take(
                i as int,
            ).filter(stay).map_values(keep).push(keep(*o)));
        } else {
            let ghost before = steps@;
            steps.push(
                Step {
                    op: Op::Cancel,
                    direction: dir,
                    order_id: o.get("orderId"),
                    price,
                    quantity,
                    dist_from_mid: None,
                },
            );
            assert(step_views(steps@) =~= step_views(before).push(
                cancellation(*o, o.name_at("direction"@)),
            ));
            assert(all.take(i as int + 1).filter(go).map_values(step) =~= all.take(i as int).filter(
                go,
            ).map_values(step).push(step(*o)));
        }
        i = i + 1;
    }
    assert(all.take(st.mine.len() as int) =~= all);
    let buys: bool = is_keeping(&kept, Side::Buy);
    let sells: bool = is_keeping(&kept, Side::Sell);
    let mut notes: Vec<String> = Vec::new();
    if buys != sells && steps.len() > 0 {
        notes.push(
            "leaves a ".to_owned().concat(
                if buys {
                    Side::Buy.as_str()
                } else {
                    Side::Sell.as_str()
                },
            ).concat(
                "-only position — one-sided liquidity earns nothing, so the remainder rests for recovery, not rewards",
            ),
        );
    }
    assert(step_views(steps@).len() == steps@.len());
    assert(texts(notes@) =~= pull_plan(*st.program, all, keep_above, side).notes);
    Plan { property_id: st.program.get("propertyId"), band: None, steps, untouched: kept, notes }
}

} // verus!
