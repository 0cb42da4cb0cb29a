use vstd::prelude::*;

use crate::amount::{percent, percent_of, Amount};
use crate::commands::quote::Side;
use crate::failure::{verdict, Failure, FailureView};
use crate::json::Json;
use crate::micros::{
    divided, multiples_divide_exactly, rounding_is_monotone, rounding_is_within_half, Micros,
};
use crate::text::{chars_of, decimal, decimal_text, optional_pair, query_views, same};

verus! {

/// Refuse a bound further than this from the live quote unless said explicitly: a
/// tolerance wider than the whole fee schedule is far more likely a typo.
pub open spec fn absurd_slippage<N: Amount>() -> N {
    N::whole(5)
}

pub fn absurd_slippage_pct<N: Amount>() -> (r: N)
    ensures
        r == absurd_slippage::<N>(),
{
    N::of(5)
}

pub open spec fn is_side(side: Seq<char>) -> bool {
    side == Side::Buy.word() || side == Side::Sell.word()
}

pub open spec fn bad_side_text() -> Seq<char> {
    "--side must be `buy` or `sell`"@
}

pub fn validate_side(side: &str) -> (r: Result<(), Failure>)
    ensures
        verdict(r) == if is_side(side@) {
            Ok(())
        } else {
            Err(FailureView::Usage(bad_side_text()))
        },
{
    if same(side, Side::Buy.as_str()) || same(side, Side::Sell.as_str()) {
        Ok(())
    } else {
        Err(Failure::Usage("--side must be `buy` or `sell`".to_owned()))
    }
}

/// How much worse than the live quote a bound permits, in percent: a buy is
/// bounded above, a sell below. A bound better than the quote is zero.
pub open spec fn implied_slippage<N: Amount>(bound: N, reference: N, buying: bool) -> N {
    if reference.at_most(N::whole(0)) {
        N::whole(0)
    } else {
        (if buying {
            bound.quotient(reference).difference(N::whole(1))
        } else {
            N::whole(1).difference(bound.quotient(reference))
        }).product(N::whole(100)).greater(N::whole(0))
    }
}

pub fn implied_slippage_pct<N: Amount>(bound: N, reference: N, buying: bool) -> (r: N)
    ensures
        r == implied_slippage(bound, reference, buying),
{
    if reference.is_at_most(N::of(0)) {
        return N::of(0);
    }
    let pct = if buying {
        bound.over(reference).minus(N::of(1)).times(N::of(100))
    } else {
        N::of(1).minus(bound.over(reference)).times(N::of(100))
    };
    pct.larger_of(N::of(0))
}

/// An amount to the cent.
pub open spec fn to_the_cent<N: Amount>(n: N) -> N {
    n.product(N::whole(100)).nearest_whole().quotient(N::whole(100))
}

pub fn round2<N: Amount>(n: N) -> (r: N)
    ensures
        r == to_the_cent(n),
{
    n.times(N::of(100)).rounded().over(N::of(100))
}

pub open spec fn one_amount_text() -> Seq<char> {
    "pass exactly one of --tokens or --usdc"@
}

/// Reject the arguments of a quote.
pub fn check_quote<N: Amount>(side: &str, tokens: Option<N>, usdc: Option<N>) -> (r: Result<
    (),
    Failure,
>)
    ensures
        verdict(r) == if !is_side(side@) {
            Err(FailureView::Usage(bad_side_text()))
        } else if (tokens is Some) == (usdc is Some) {
            Err(FailureView::Usage(one_amount_text()))
        } else {
            Ok(())
        },
{
    validate_side(side)?;
    if tokens.is_some() == usdc.is_some() {
        return Err(Failure::Usage("pass exactly one of --tokens or --usdc".to_owned()));
    }
    Ok(())
}

pub open spec fn optional_plain<N: Amount>(n: Option<N>) -> Option<Seq<char>> {
    match n {
        Some(v) => Some(v.plain_text()),
        None => None,
    }
}

/// The query for an exact quote.
pub fn quote_query<N: Amount>(pool_id: u64, side: &str, tokens: Option<N>, usdc: Option<N>) -> (r:
    Vec<(&'static str, String)>)
    ensures
        query_views(r@) == seq![("poolId"@, decimal_text(pool_id as nat)), ("side"@, side@)]
            + optional_pair("tokenAmount"@, optional_plain(tokens)) + optional_pair(
            "usdcAmount"@,
            optional_plain(usdc),
        ),
{
    let mut q: Vec<(&'static str, String)> = Vec::new();
    q.push(("poolId", decimal(pool_id as u128)));
    q.push(("side", side.to_owned()));
    if let Some(t) = tokens {
        q.push(("tokenAmount", t.plain()));
    }
    if let Some(u) = usdc {
        q.push(("usdcAmount", u.plain()));
    }
    assert(query_views(q@) =~= seq![("poolId"@, decimal_text(pool_id as nat)), ("side"@, side@)]
        + optional_pair("tokenAmount"@, optional_plain(tokens)) + optional_pair(
        "usdcAmount"@,
        optional_plain(usdc),
    ));
    q
}

/// The query for the pools: one property's, or all of them.
pub fn pools_query(property_id: Option<&str>) -> (r: Vec<(&'static str, String)>)
    ensures
        query_views(r@) == optional_pair("propertyId"@, chars_of(property_id)),
{
    let mut q: Vec<(&'static str, String)> = Vec::new();
    if let Some(id) = property_id {
        q.push(("propertyId", id.to_owned()));
    }
    assert(query_views(q@) =~= optional_pair("propertyId"@, chars_of(property_id)));
    q
}

/// The bounds a caller puts on a swap.
#[derive(Debug)]
pub struct Bounds<N> {
    pub max_usdc: Option<N>,
    pub min_usdc: Option<N>,
    pub max_slippage_pct: Option<N>,
}

/// What is wrong with the arguments of a swap, in the order they are looked at.
pub open spec fn swap_refusal<N: Amount>(side: Seq<char>, b: Bounds<N>) -> Option<FailureView> {
    if !is_side(side) {
        Some(FailureView::Usage(bad_side_text()))
    } else if b.max_usdc is Some && b.min_usdc is Some {
        Some(
            FailureView::Usage(
                "pass only the bound for your side: --max-usdc on buys, --min-usdc on sells"@,
            ),
        )
    } else if b.max_slippage_pct is Some && (!b.max_slippage_pct->0.finite()
        || b.max_slippage_pct->0.less(N::whole(0))) {
        Some(FailureView::Usage("--max-slippage-pct must be a non-negative percent"@))
    } else if b.max_slippage_pct is None && side == Side::Buy.word() && b.max_usdc is None {
        Some(
            FailureView::Usage(
                "buys need a slippage bound: --max-usdc <USD> or --max-slippage-pct <PCT>"@,
            ),
        )
    } else if b.max_slippage_pct is None && side != Side::Buy.word() && b.min_usdc is None {
        Some(
            FailureView::Usage(
                "sells need a slippage bound: --min-usdc <USD> or --max-slippage-pct <PCT>"@,
            ),
        )
    } else {
        None
    }
}

/// Reject the arguments of a swap before anything is looked up.
pub fn check_swap<N: Amount>(side: &str, b: &Bounds<N>) -> (r: Result<(), Failure>)
    ensures
        verdict(r) == match swap_refusal(side@, *b) {
            Some(e) => Err(e),
            None => Ok(()),
        },
{
    validate_side(side)?;
    if b.max_usdc.is_some() && b.min_usdc.is_some() {
        return Err(
            Failure::Usage(
                "pass only the bound for your side: --max-usdc on buys, --min-usdc on sells".to_owned(),
            ),
        );
    }
    if let Some(p) = b.max_slippage_pct {
        if !p.is_finite() || p.is_below(N::of(0)) {
            return Err(
                Failure::Usage("--max-slippage-pct must be a non-negative percent".to_owned()),
            );
        }
        return Ok(());
    }
    let buying: bool = same(side, Side::Buy.as_str());
    if buying && b.max_usdc.is_none() {
        return Err(
            Failure::Usage(
                "buys need a slippage bound: --max-usdc <USD> or --max-slippage-pct <PCT>".to_owned(),
            ),
        );
    }
    if !buying && b.min_usdc.is_none() {
        return Err(
            Failure::Usage(
                "sells need a slippage bound: --min-usdc <USD> or --max-slippage-pct <PCT>".to_owned(),
            ),
        );
    }
    Ok(())
}

/// The bound in force: derived from the live quote when a tolerance is given, else
/// the one the caller named for this side.
pub open spec fn bound_in_force<N: Amount>(b: Bounds<N>, reference: N, buying: bool) -> N {
    match b.max_slippage_pct {
        Some(pct) => reference.product(
            if buying {
                N::whole(1).sum(percent(pct))
            } else {
                N::whole(1).difference(percent(pct))
            },
        ),
        None => if buying {
            b.max_usdc->0
        } else {
            b.min_usdc->0
        },
    }
}

pub open spec fn absurd_text<N: Amount>(bound: N, implied: N, reference: N) -> Seq<char> {
    "bound $"@ + bound.fixed_text(2) + " is "@ + implied.fixed_text(1)
        + "% from the live quote $"@ + reference.fixed_text(2)
        + " — that authorises far more slippage than you likely intend. Use --max-slippage-pct for an exact bound, or --allow-high-slippage to proceed."@
}

pub open spec fn swap_detail<N: Amount>(
    quote: Json<N>,
    reference: N,
    bound: N,
    implied: N,
    buying: bool,
) -> Seq<char> {
    let debit = quote.number_at("totalDebit"@);
    let fees = match quote.inner("fees"@, "total"@) {
        Some(v) => v.as_number(),
        None => None,
    };
    let tail = " ("@ + implied.fixed_text(1) + "% slippage allowed)"@;
    if buying {
        match (debit, fees) {
            (Some(td), Some(f)) => "quote $"@ + reference.fixed_text(2) + " + $"@ + f.fixed_text(2)
                + " fees = $"@ + td.fixed_text(2) + " expected; bound $"@ + bound.fixed_text(2)
                + tail,
            _ => "quote $"@ + reference.fixed_text(2) + "; bound $"@ + bound.fixed_text(2) + tail,
        }
    } else {
        "quote $"@ + reference.fixed_text(2) + " proceeds; floor $"@ + bound.fixed_text(2) + tail
    }
}

/// A swap that may be sent once it is confirmed.
#[derive(Debug)]
pub struct SwapTerms<N> {
    /// The bound as it is sent, to the cent.
    pub bound: N,
    /// What the operator is asked to confirm.
    pub summary: String,
}

pub struct SwapTermsView<N> {
    pub bound: N,
    pub summary: Seq<char>,
}

impl<N> View for SwapTerms<N> {
    type V = SwapTermsView<N>;

    open spec fn view(&self) -> SwapTermsView<N> {
        SwapTermsView { bound: self.bound, summary: self.summary@ }
    }
}

/// Hold a swap against the live quote: a quote without a price, or a bound too far
/// from it, stops the swap.
pub open spec fn swap_terms_of<N: Amount>(
    quote: Json<N>,
    pool_id: u64,
    side: Seq<char>,
    tokens: N,
    b: Bounds<N>,
    allow_high_slippage: bool,
) -> Result<SwapTermsView<N>, FailureView> {
    let buying = side == Side::Buy.word();
    match quote.number_at("usdcAmount"@) {
        None => Err(FailureView::Other("quote returned no usdcAmount"@)),
        Some(reference) => {
            let bound = bound_in_force(b, reference, buying);
            let implied = implied_slippage(bound, reference, buying);
            if absurd_slippage::<N>().less(implied) && !allow_high_slippage {
                Err(FailureView::Usage(absurd_text(bound, implied, reference)))
            } else {
                Ok(
                    SwapTermsView {
                        bound: to_the_cent(bound),
                        summary: "swap ("@ + side + ") "@ + tokens.plain_text()
                            + " token(s) on pool "@ + decimal_text(pool_id as nat) + " — "@
                            + swap_detail(quote, reference, bound, implied, buying),
                    },
                )
            }
        },
    }
}

fn describe_swap<N: Amount>(quote: &Json<N>, reference: N, bound: N, implied: N, buying: bool) -> (r:
    String)
    ensures
        r@ == swap_detail(*quote, reference, bound, implied, buying),
{
    let debit = quote.number_in("totalDebit");
    let fees = match quote.get_inner("fees", "total") {
        Some(v) => v.number(),
        None => None,
    };
    let tail = " (".to_owned().concat(&implied.fixed(1)).concat("% slippage allowed)");
    if buying {
        match (debit, fees) {
            (Some(td), Some(f)) => "quote $".to_owned().concat(&reference.fixed(2)).concat(
                " + $",
            ).concat(&f.fixed(2)).concat(" fees = $").concat(&td.fixed(2)).concat(
                " expected; bound $",
            ).concat(&bound.fixed(2)).concat(&tail),
            _ => "quote $".to_owned().concat(&reference.fixed(2)).concat("; bound $").concat(
                &bound.fixed(2),
            ).concat(&tail),
        }
    } else {
        "quote $".to_owned().concat(&reference.fixed(2)).concat(" proceeds; floor $").concat(
            &bound.fixed(2),
        ).concat(&tail)
    }
}

/// Price a swap against a fresh quote and decide whether it may be sent.
pub fn swap_terms<N: Amount>(
    quote: &Json<N>,
    pool_id: u64,
    side: &str,
    tokens: N,
    b: &Bounds<N>,
    allow_high_slippage: bool,
) -> (r: Result<SwapTerms<N>, Failure>)
    requires
        swap_refusal(side@, *b) is None,
    ensures
        crate::failure::outcome(r) == swap_terms_of(
            *quote,
            pool_id,
            side@,
            tokens,
            *b,
            allow_high_slippage,
        ),
{
    let buying: bool = same(side, Side::Buy.as_str());
    let reference = match quote.number_in("usdcAmount") {
        Some(n) => n,
        None => {
            return Err(Failure::Other("quote returned no usdcAmount".to_owned()));
        },
    };
    let bound = match b.max_slippage_pct {
        Some(pct) => reference.times(
            if buying {
                N::of(1).plus(percent_of(pct))
            } else {
                N::of(1).minus(percent_of(pct))
            },
        ),
        None => if buying {
            b.max_usdc.unwrap()
        } else {
            b.min_usdc.unwrap()
        },
    };
    let implied = implied_slippage_pct(bound, reference, buying);
    if absurd_slippage_pct::<N>().is_below(implied) && !allow_high_slippage {
        return Err(
            Failure::Usage(
                "bound $".to_owned().concat(&bound.fixed(2)).concat(" is ").concat(
                    &implied.fixed(1),
                ).concat("% from the live quote $").concat(&reference.fixed(2)).concat(
                    " — that authorises far more slippage than you likely intend. Use --max-slippage-pct for an exact bound, or --allow-high-slippage to proceed.",
                ),
            ),
        );
    }
    Ok(
        SwapTerms {
            bound: round2(bound),
            summary: "swap (".to_owned().concat(side).concat(") ").concat(&tokens.plain()).concat(
                " token(s) on pool ",
            ).concat(&decimal(pool_id as u128)).concat(" — ").concat(
                &describe_swap(quote, reference, bound, implied, buying),
            ),
        },
    )
}

/// The field that carries the bound of a swap.
pub fn bound_field(side: &str) -> (r: &'static str)
    ensures
        r@ == if side@ == Side::Buy.word() {
            "maxUsdcAmount"@
        } else {
            "minUsdcAmount"@
        },
{
    if same(side, Side::Buy.as_str()) {
        "maxUsdcAmount"
    } else {
        "minUsdcAmount"
    }
}

/// A quote that is not positive leaves nothing to slip from.
pub proof fn no_quote_permits_no_slippage<N: Amount>(bound: N, reference: N, buying: bool)
    requires
        reference.at_most(N::whole(0)),
    ensures
        implied_slippage(bound, reference, buying) == N::whole(0),
{
}

/// Slippage is never negative: a bound at the quote or better permits none.
pub proof fn a_favourable_bound_permits_no_slippage(bound: Micros, reference: Micros, buying: bool)
    ensures
        Micros::whole(0).at_most(implied_slippage(bound, reference, buying)),
        (if buying {
            bound.at_most(reference)
        } else {
            reference.at_most(bound)
        }) ==> implied_slippage(bound, reference, buying) == Micros::whole(0),
{
    let r = reference.units as int;
    if 0 < r {
        let b = bound.units as int;
        multiples_divide_exactly(1_000_000, r);
        if b <= r {
            rounding_is_monotone(b * 1_000_000, r * 1_000_000, r);
        }
        if r <= b {
            rounding_is_monotone(r * 1_000_000, b * 1_000_000, r);
        }
        let past = if buying {
            bound.quotient(reference).difference(Micros::whole(1))
        } else {
            Micros::whole(1).difference(bound.quotient(reference))
        };
        if past.units <= 0 {
            rounding_is_monotone(past.units * 100_000_000, 0, 1_000_000);
            multiples_divide_exactly(0, 1_000_000);
        }
    }
}

/// A bound derived from a percentage reads back as that percentage, up to rounding:
/// it is off by at most 100 millionths of a percent, and 50 more divided by the quote
/// in dollars.
pub proof fn a_derived_bound_reads_back(b: Bounds<Micros>, reference: Micros, buying: bool)
    requires
        Micros::whole(0).less(reference),
        b.max_slippage_pct is Some,
        Micros::whole(0).at_most(b.max_slippage_pct->0),
        bound_in_force(b, reference, buying).finite(),
    ensures
        ({
            let asked = b.max_slippage_pct->0.units;
            let read = implied_slippage(
                bound_in_force(b, reference, buying),
                reference,
                buying,
            ).units;
            &&& -100 * reference.units - 50_000_000 <= (read - asked) * reference.units <= 100
                * reference.units + 50_000_000
            &&& Micros::whole(1).at_most(reference) ==> -150 <= read - asked <= 150
        }),
{
    let r = reference.units as int;
    let x = b.max_slippage_pct->0.units as int;
    let bound = bound_in_force(b, reference, buying);
    let p = divided(x * 1_000_000, 100_000_000);
    rounding_is_within_half(x * 1_000_000, 100_000_000);
    rounding_is_monotone(0, x * 1_000_000, 100_000_000);
    assert(-50 <= 100 * p - x <= 50);
    let f = if buying {
        1_000_000 + p
    } else {
        1_000_000 - p
    };
    let c = bound.units as int;
    assert(c == divided(r * f, 1_000_000));
    rounding_is_within_half(r * f, 1_000_000);
    let q = divided(c * 1_000_000, r);
    rounding_is_within_half(c * 1_000_000, r);
    assert(f * r == r * f) by (nonlinear_arith);
    assert((q - f) * r == q * r - f * r) by (nonlinear_arith);
    let e = q - f;
    assert(-r - 1_000_000 <= 2 * (e * r) <= r + 1_000_000);
    assert(-500_001 <= e <= 500_001) by (nonlinear_arith)
        requires
            r >= 1,
            -r - 1_000_000 <= 2 * (e * r) <= r + 1_000_000,
    ;
    assert(bound.quotient(reference).units == q);
    let past = if buying {
        q - 1_000_000
    } else {
        1_000_000 - q
    };
    multiples_divide_exactly(past * 100, 1_000_000);
    let read = implied_slippage(bound, reference, buying).units as int;
    let d = read - x;
    let raw = past * 100 - x;
    assert(if raw >= 0 {
        0 <= d <= raw
    } else {
        raw <= d <= 0
    });
    let w = if buying {
        e
    } else {
        -e
    };
    assert(-100 <= 2 * (raw - 100 * w) <= 100);
    assert(-100 * r - 50_000_000 <= raw * r <= 100 * r + 50_000_000) by (nonlinear_arith)
        requires
            r >= 1,
            -100 <= 2 * (raw - 100 * w) <= 100,
            w == e || w == -e,
            -r - 1_000_000 <= 2 * (e * r) <= r + 1_000_000,
    ;
    assert(-100 * r - 50_000_000 <= d * r <= 100 * r + 50_000_000) by (nonlinear_arith)
        requires
            r >= 1,
            (0 <= d <= raw) || (raw <= d <= 0),
            -100 * r - 50_000_000 <= raw * r <= 100 * r + 50_000_000,
    ;
    if r >= 1_000_000 {
        assert(-1 <= e <= 1) by (nonlinear_arith)
            requires
                r >= 1_000_000,
                -r - 1_000_000 <= 2 * (e * r) <= r + 1_000_000,
        ;
    }
}

/// A swap whose bound permits more than the backstop is never sent unless the
/// caller says so.
pub proof fn an_absurd_bound_is_refused<N: Amount>(
    quote: Json<N>,
    pool_id: u64,
    side: Seq<char>,
    tokens: N,
    b: Bounds<N>,
    reference: N,
)
    requires
        quote.number_at("usdcAmount"@) == Some(reference),
        absurd_slippage::<N>().less(
            implied_slippage(
                bound_in_force(b, reference, side == Side::Buy.word()),
                reference,
                side == Side::Buy.word(),
            ),
        ),
    ensures
        swap_terms_of(quote, pool_id, side, tokens, b, false) is Err,
{
}

/// A swap needs a side, one bound at most in dollars, and a tolerance that is no
/// negative number, or without a tolerance the bound of its own side: the most a buy
/// pays, the least a sell brings.
pub proof fn a_swap_needs_the_bound_of_its_side<N: Amount>(side: Seq<char>, b: Bounds<N>)
    ensures
        swap_refusal(side, b) is None <==> {
            &&& side == "buy"@ || side == "sell"@
            &&& b.max_usdc is None || b.min_usdc is None
            &&& b.max_slippage_pct matches Some(pct) ==> pct.finite() && !pct.less(N::whole(0))
            &&& b.max_slippage_pct is None && side == "buy"@ ==> b.max_usdc is Some
            &&& b.max_slippage_pct is None && side == "sell"@ ==> b.min_usdc is Some
        },
        swap_refusal(side, b) matches Some(e) ==> e is Usage,
{
    reveal_strlit("buy");
    reveal_strlit("sell");
    assert("buy"@.len() != "sell"@.len());
}

/// A swap is sent with the bound the caller meant, to the cent: with a tolerance the
/// quote and that percent of it more for a buy, less for a sell, and without one the
/// caller's own bound for the side. A quote without a price stops it, and so does a
/// bound that permits more than five percent unless the caller allows that.
pub proof fn a_swap_is_sent_with_the_callers_bound<N: Amount>(
    quote: Json<N>,
    pool_id: u64,
    side: Seq<char>,
    tokens: N,
    b: Bounds<N>,
    allow: bool,
)
    ensures
        ({
            let terms = swap_terms_of(quote, pool_id, side, tokens, b, allow);
            let buying = side == "buy"@;
            match quote.number_at("usdcAmount"@) {
                None => terms matches Err(e) && e is Other,
                Some(reference) => {
                    let bound = match (b.max_slippage_pct, buying) {
                        (Some(pct), true) => reference.product(
                            N::whole(1).sum(pct.quotient(N::whole(100))),
                        ),
                        (Some(pct), false) => reference.product(
                            N::whole(1).difference(pct.quotient(N::whole(100))),
                        ),
                        (None, true) => b.max_usdc->0,
                        (None, false) => b.min_usdc->0,
                    };
                    &&& terms is Ok <==> allow || !N::whole(5).less(
                        implied_slippage(bound, reference, buying),
                    )
                    &&& terms matches Ok(t) ==> t.bound == bound.product(
                        N::whole(100),
                    ).nearest_whole().quotient(N::whole(100))
                    &&& terms matches Err(e) ==> e is Usage
                },
            }
        }),
{
}

/// An amount to the cent is a whole number of cents, at most half a cent from it.
pub proof fn to_the_cent_is_within_half_a_cent(n: Micros)
    requires
        -90_000_000_000_000_000 <= n.units <= 90_000_000_000_000_000,
    ensures
        to_the_cent(n).units as int % 10_000 == 0,
        -5_000 <= to_the_cent(n).units - n.units <= 5_000,
{
    let u = n.units as int;
    multiples_divide_exactly(u * 100, 1_000_000);
    assert(u * 100_000_000 == (u * 100) * 1_000_000);
    let k = divided(u * 100, 1_000_000);
    rounding_is_within_half(u * 100, 1_000_000);
    assert(k * 1_000_000 * 1_000_000 == (k * 10_000) * 100_000_000);
    multiples_divide_exactly(k * 10_000, 100_000_000);
    assert(to_the_cent(n).units == k * 10_000);
}

/// The slippage a bound permits is how much worse than the quote it is, in percent of
/// the quote, to within fifty millionths of a percent: a buy is worse above the quote,
/// a sell below it.
pub proof fn a_bound_permits_what_it_is_worse_by(bound: Micros, reference: Micros, buying: bool)
    requires
        0 < reference.units,
        bound.quotient(reference).finite(),
        implied_slippage(bound, reference, buying).finite(),
        if buying {
            reference.units <= bound.units
        } else {
            0 <= bound.units <= reference.units
        },
    ensures
        ({
            let worse = if buying {
                bound.units - reference.units
            } else {
                reference.units - bound.units
            };
            let off = implied_slippage(bound, reference, buying).units * reference.units
                - 100_000_000 * worse;
            -50 * reference.units <= off <= 50 * reference.units
        }),
{
    let r = reference.units as int;
    let b = bound.units as int;
    let q = divided(b * 1_000_000, r);
    rounding_is_within_half(b * 1_000_000, r);
    multiples_divide_exactly(1_000_000, r);
    let past = if buying {
        rounding_is_monotone(r * 1_000_000, b * 1_000_000, r);
        q - 1_000_000
    } else {
        rounding_is_monotone(b * 1_000_000, r * 1_000_000, r);
        1_000_000 - q
    };
    assert(r * 1_000_000 == 1_000_000 * r);
    assert(past >= 0);
    multiples_divide_exactly(past * 100, 1_000_000);
    assert(past * 100_000_000 == (past * 100) * 1_000_000);
    let read = implied_slippage(bound, reference, buying).units as int;
    assert(read == past * 100);
    assert((q - 1_000_000) * r == q * r - 1_000_000 * r) by (nonlinear_arith);
    assert((1_000_000 - q) * r == 1_000_000 * r - q * r) by (nonlinear_arith);
    assert((past * 100) * r == 100 * (past * r)) by (nonlinear_arith);
}

/// What the operator is asked to confirm about a swap: the tokens and the pool, the
/// live quote, with its fees and its total for a buy that names them, the bound before
/// it is rounded, and the slippage that it permits.
pub proof fn a_swap_is_confirmed_with_its_figures<N: Amount>(
    quote: Json<N>,
    pool_id: u64,
    side: Seq<char>,
    tokens: N,
    b: Bounds<N>,
    allow: bool,
    reference: N,
)
    requires
        quote.number_at("usdcAmount"@) == Some(reference),
    ensures
        ({
            let buying = side == "buy"@;
            let bound = bound_in_force(b, reference, buying);
            let implied = implied_slippage(bound, reference, buying);
            let head = "swap ("@ + side + ") "@ + tokens.plain_text() + " token(s) on pool "@
                + decimal_text(pool_id as nat) + " — "@;
            let tail = " ("@ + implied.fixed_text(1) + "% slippage allowed)"@;
            let fees = if quote.inner("fees"@, "total"@) is Some {
                quote.inner("fees"@, "total"@)->0.as_number()
            } else {
                None
            };
            let debit = quote.number_at("totalDebit"@);
            swap_terms_of(quote, pool_id, side, tokens, b, allow) matches Ok(t) ==> {
                &&& !buying ==> t.summary == head + ("quote $"@ + reference.fixed_text(2)
                    + " proceeds; floor $"@ + bound.fixed_text(2) + tail)
                &&& buying && debit is Some && fees is Some ==> t.summary == head + ("quote $"@
                    + reference.fixed_text(2) + " + $"@ + fees->0.fixed_text(2) + " fees = $"@
                    + debit->0.fixed_text(2) + " expected; bound $"@ + bound.fixed_text(2) + tail)
                &&& buying && (debit is None || fees is None) ==> t.summary == head + ("quote $"@
                    + reference.fixed_text(2) + "; bound $"@ + bound.fixed_text(2) + tail)
            }
        }),
{
}

/// A bound that is refused is told with its distance from the quote.
pub proof fn an_absurd_bound_is_told_with_its_distance<N: Amount>(
    quote: Json<N>,
    pool_id: u64,
    side: Seq<char>,
    tokens: N,
    b: Bounds<N>,
    reference: N,
)
    requires
        quote.number_at("usdcAmount"@) == Some(reference),
    ensures
        ({
            let bound = bound_in_force(b, reference, side == "buy"@);
            let implied = implied_slippage(bound, reference, side == "buy"@);
            swap_terms_of(quote, pool_id, side, tokens, b, false) matches Err(e) ==> e
                == FailureView::Usage(
                "bound $"@ + bound.fixed_text(2) + " is "@ + implied.fixed_text(1)
                    + "% from the live quote $"@ + reference.fixed_text(2)
                    + " — that authorises far more slippage than you likely intend. Use --max-slippage-pct for an exact bound, or --allow-high-slippage to proceed."@,
            )
        }),
{
}

} // verus!
