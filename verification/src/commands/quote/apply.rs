use vstd::prelude::*;

use crate::amount::Amount;
use crate::commands::quote::plan::{
    kept_views, step_views, Band, Kept, KeptView, Op, Plan, State, Step, StepView,
};

use crate::failure::{verdict, Failure, FailureView};
use crate::json::{find_text, first_with_text, select_text, with_text, Json};
use crate::report::{line_views, say, say_all, Line, LineView};
use crate::text::{decimal, decimal_text, joined, joined_text, texts};

verus! {

/// The least price an order can carry: one cent.
pub open spec fn one_cent<N: Amount>() -> N {
    N::whole(1).quotient(N::whole(100))
}

pub fn one_cent_amount<N: Amount>() -> (r: N)
    ensures
        r == one_cent::<N>(),
{
    N::of(1).over(N::of(100))
}

/// Whether a price argument is unusable.
pub open spec fn unusable_price<N: Amount>(price: Option<N>) -> bool {
    price is Some && (!price->0.finite() || price->0.less(one_cent()))
}

pub open spec fn price_floor_text(name: Seq<char>) -> Seq<char> {
    name + " must be at least $0.01"@
}

fn check_price<N: Amount>(name: &str, price: Option<N>) -> (r: Result<(), Failure>)
    ensures
        verdict(r) == if unusable_price(price) {
            Err(FailureView::Usage(price_floor_text(name@)))
        } else {
            Ok(())
        },
{
    match price {
        Some(p) => if !p.is_finite() || p.is_below(one_cent_amount()) {
            Err(Failure::Usage(name.to_owned().concat(" must be at least $0.01")))
        } else {
            Ok(())
        },
        None => Ok(()),
    }
}

/// What is wrong with the prices of a quote, in the order they are looked at.
pub open spec fn price_refusal<N: Amount>(
    bid: Option<N>,
    ask: Option<N>,
    min_ask: Option<N>,
) -> Option<FailureView> {
    if unusable_price(bid) {
        Some(FailureView::Usage(price_floor_text("--bid"@)))
    } else if unusable_price(ask) {
        Some(FailureView::Usage(price_floor_text("--ask"@)))
    } else if unusable_price(min_ask) {
        Some(FailureView::Usage(price_floor_text("--min-ask"@)))
    } else {
        None
    }
}

fn check_prices<N: Amount>(bid: Option<N>, ask: Option<N>, min_ask: Option<N>) -> (r: Result<
    (),
    Failure,
>)
    ensures
        verdict(r) == match price_refusal(bid, ask, min_ask) {
            Some(e) => Err(e),
            None => Ok(()),
        },
{
    check_price("--bid", bid)?;
    check_price("--ask", ask)?;
    check_price("--min-ask", min_ask)
}

pub open spec fn no_side_text() -> Seq<char> {
    "give --bid and/or --ask: a recenter with neither side would do nothing"@
}

/// Reject the arguments of a recenter before anything is looked up.
pub fn check_recenter<N: Amount>(bid: Option<N>, ask: Option<N>, min_ask: Option<N>) -> (r: Result<
    (),
    Failure,
>)
    ensures
        verdict(r) == if bid is None && ask is None {
            Err(FailureView::Usage(no_side_text()))
        } else {
            match price_refusal(bid, ask, min_ask) {
                Some(e) => Err(e),
                None => Ok(()),
            }
        },
{
    if bid.is_none() && ask.is_none() {
        return Err(
            Failure::Usage(
                "give --bid and/or --ask: a recenter with neither side would do nothing".to_owned(),
            ),
        );
    }
    check_prices(bid, ask, min_ask)
}

pub open spec fn inverted_text<N: Amount>(bid: N, ask: N) -> Seq<char> {
    "--bid $"@ + bid.fixed_text(2) + " must be below --ask $"@ + ask.fixed_text(2)
}

/// Reject the arguments of a fresh quote before anything is looked up.
pub fn check_provision<N: Amount>(bid: N, ask: N, min_ask: Option<N>) -> (r: Result<(), Failure>)
    ensures
        verdict(r) == match price_refusal(Some(bid), Some(ask), min_ask) {
            Some(e) => Err(e),
            None => if ask.at_most(bid) {
                Err(FailureView::Usage(inverted_text(bid, ask)))
            } else {
                Ok(())
            },
        },
{
    check_prices(Some(bid), Some(ask), min_ask)?;
    if ask.is_at_most(bid) {
        return Err(
            Failure::Usage(
                "--bid $".to_owned().concat(&bid.fixed(2)).concat(" must be below --ask $").concat(
                    &ask.fixed(2),
                ),
            ),
        );
    }
    Ok(())
}

pub open spec fn bad_keep_above_text() -> Seq<char> {
    "--keep-above must be a non-negative price"@
}

/// Reject the arguments of a stand-down before anything is looked up.
pub fn check_pull<N: Amount>(keep_above: Option<N>) -> (r: Result<(), Failure>)
    ensures
        verdict(r) == if keep_above is Some && (!keep_above->0.finite() || keep_above->0.less(
            N::whole(0),
        )) {
            Err(FailureView::Usage(bad_keep_above_text()))
        } else {
            Ok(())
        },
{
    if let Some(p) = keep_above {
        if !p.is_finite() || p.is_below(N::of(0)) {
            return Err(Failure::Usage("--keep-above must be a non-negative price".to_owned()));
        }
    }
    Ok(())
}

pub open spec fn no_program_text(property_id: Seq<char>) -> Seq<char> {
    "no active LP program for "@ + property_id
}

/// The reward program of a property.
pub fn program_for<'a, N>(programs: &'a Json<N>, property_id: &str) -> (r: Result<
    &'a Json<N>,
    Failure,
>)
    ensures
        match first_with_text(programs.items_at("programs"@), "propertyId"@, property_id@) {
            Some(p) => r matches Ok(q) && *q == p,
            None => r matches Err(e) && e@ == FailureView::NotFound(no_program_text(property_id@)),
        },
{
    match find_text(&programs.items_in("programs"), "propertyId", property_id) {
        Some(p) => Ok(p),
        None => Err(
            Failure::NotFound("no active LP program for ".to_owned().concat(property_id)),
        ),
    }
}

/// The tokens held of a property, or zero.
pub open spec fn tokens_held<N: Amount>(positions: Json<N>, property_id: Seq<char>) -> N {
    match first_with_text(positions.items_at("positions"@), "propertyId"@, property_id) {
        Some(p) => p.amount_at("currentTokens"@),
        None => N::whole(0),
    }
}

/// The tokens held of a property, or zero.
pub fn held_of<N: Amount>(positions: &Json<N>, property_id: &str) -> (r: N)
    ensures
        r == tokens_held(*positions, property_id@),
{
    match find_text(&positions.items_in("positions"), "propertyId", property_id) {
        Some(p) => p.amount_in("currentTokens"),
        None => N::of(0),
    }
}

/// Gather what a quote primitive needs from the payloads of the account: our
/// active orders, the book, the wallet's USDC and the tokens held.
pub fn state_from<'a, N: Amount>(
    program: &'a Json<N>,
    orders: &'a Json<N>,
    book: &'a Json<N>,
    balance: &Json<N>,
    positions: &Json<N>,
    property_id: &str,
) -> (r: State<'a, N>)
    ensures
        *r.program == *program,
        r.mine@.unref() == with_text(orders.items_at("orders"@), "status"@, "active"@),
        *r.book == *book,
        r.usdc == balance.amount_at("usdc"@),
        r.held == tokens_held(*positions, property_id@),
{
    State {
        program,
        mine: select_text(&orders.items_in("orders"), "status", "active"),
        book,
        usdc: balance.amount_in("usdc"),
        held: held_of(positions, property_id),
    }
}

/// What a render is reporting. A plan that was to be executed and held nothing to
/// do is not a dry run: the caller's flag was honoured.
#[derive(Clone, Copy, Debug, PartialEq, Eq, Structural)]
pub enum Render {
    DryRun,
    NoOp,
    Applied,
}

/// What happens to a plan: it is shown, or it is executed once confirmed.
#[derive(Debug)]
pub enum Disposition {
    Show { schema: &'static str, mode: Render },
    Confirm(String),
}

pub enum DispositionView {
    Show { schema: Seq<char>, mode: Render },
    Confirm(Seq<char>),
}

impl View for Disposition {
    type V = DispositionView;

    open spec fn view(&self) -> DispositionView {
        match self {
            Disposition::Show { schema, mode } => DispositionView::Show {
                schema: schema@,
                mode: *mode,
            },
            Disposition::Confirm(s) => DispositionView::Confirm(s@),
        }
    }
}

pub open spec fn confirmation_text(
    what: Seq<char>,
    property_id: Seq<char>,
    count: nat,
) -> Seq<char> {
    what + " "@ + property_id + ": "@ + decimal_text(count)
        + " order operation(s) on real money"@
}

/// Nothing is sent unless the caller asked for it and there is something to send;
/// then the operation is confirmed first.
pub open spec fn disposition_of(
    execute: bool,
    what: Seq<char>,
    property_id: Seq<char>,
    count: nat,
) -> DispositionView {
    if !execute {
        DispositionView::Show { schema: "quote-plan"@, mode: Render::DryRun }
    } else if count == 0 {
        DispositionView::Show { schema: "quote-noop"@, mode: Render::NoOp }
    } else {
        DispositionView::Confirm(confirmation_text(what, property_id, count))
    }
}

/// Show the plan or ask to apply it.
pub fn disposition<'a, N>(plan: &Plan<'a, N>, execute: bool, what: &str, property_id: &str) -> (r:
    Disposition)
    ensures
        r@ == disposition_of(execute, what@, property_id@, plan@.steps.len()),
{
    if !execute {
        return Disposition::Show { schema: "quote-plan", mode: Render::DryRun };
    }
    if plan.steps.len() == 0 {
        return Disposition::Show { schema: "quote-noop", mode: Render::NoOp };
    }
    Disposition::Confirm(
        what.to_owned().concat(" ").concat(property_id).concat(": ").concat(
            &decimal(plan.steps.len() as u128),
        ).concat(" order operation(s) on real money"),
    )
}

/// A request that carries out one step.
#[derive(Debug)]
pub enum Request<'a, N> {
    Delete { path: String },
    Post { property_id: &'a str, direction: &'a str, price: N, quantity: N },
}

pub enum RequestView<N> {
    Delete { path: Seq<char> },
    Post { property_id: Seq<char>, direction: Seq<char>, price: N, quantity: N },
}

impl<'a, N> View for Request<'a, N> {
    type V = RequestView<N>;

    open spec fn view(&self) -> RequestView<N> {
        match *self {
            Request::Delete { path } => RequestView::Delete { path: path@ },
            Request::Post { property_id, direction, price, quantity } => RequestView::Post {
                property_id: property_id@,
                direction: direction@,
                price,
                quantity,
            },
        }
    }
}

/// The text of an order id, or the empty text.
pub open spec fn id_text<N>(id: Option<Json<N>>) -> Seq<char> {
    match id {
        Some(v) => match v.as_text() {
            Some(s) => s,
            None => Seq::empty(),
        },
        None => Seq::empty(),
    }
}

/// The request that carries out a step: a cancellation deletes the order by its
/// id, a creation posts exactly what was planned.
pub open spec fn request_of<N>(step: StepView<N>, property_id: Seq<char>) -> RequestView<N> {
    match step.op {
        Op::Cancel => RequestView::Delete {
            path: "/public/v1/orders/"@ + id_text(step.order_id),
        },
        Op::Create => RequestView::Post {
            property_id,
            direction: step.direction,
            price: step.price,
            quantity: step.quantity,
        },
    }
}

pub fn request_for<'a, N: Amount>(step: &Step<'a, N>, property_id: &'a str) -> (r: Request<'a, N>)
    ensures
        r@ == request_of(step@, property_id@),
{
    match step.op {
        Op::Cancel => {
            let id = match step.order_id {
                Some(v) => v.text(),
                None => None,
            };
            let path = match id {
                Some(s) => "/public/v1/orders/".to_owned().concat(s),
                None => "/public/v1/orders/".to_owned(),
            };
            assert("/public/v1/orders/"@ + Seq::<char>::empty() =~= "/public/v1/orders/"@);
            Request::Delete { path }
        },
        Op::Create => Request::Post {
            property_id,
            direction: step.direction,
            price: step.price,
            quantity: step.quantity,
        },
    }
}

/// One planned step in a line.
pub open spec fn step_text<N: Amount>(step: StepView<N>) -> Seq<char> {
    step.op.word() + " "@ + step.direction + " $"@ + step.price.fixed_text(2) + " x"@
        + step.quantity.plain_text()
}

pub fn describe_step<'a, N: Amount>(step: &Step<'a, N>) -> (r: String)
    ensures
        r@ == step_text(step@),
{
    step.op.as_str().to_owned().concat(" ").concat(step.direction).concat(" $").concat(
        &step.price.fixed(2),
    ).concat(" x").concat(&step.quantity.plain())
}

/// The steps of a run that failed partway, and what stopped it.
pub open spec fn partway_text<N: Amount>(
    applied: Seq<StepView<N>>,
    failed: StepView<N>,
    err: Seq<char>,
) -> Seq<char> {
    "recenter failed partway on `"@ + step_text(failed) + "`: "@ + err + ". Already applied: "@
        + (if applied.len() == 0 {
        "nothing"@
    } else {
        joined_text(applied.map_values(|s: StepView<N>| step_text(s)), "; "@)
    })
        + ". A side may now be unquoted and earning $0 — check `lofty rewards eligibility` and re-post it"@
}

/// Error text for a partway failure. It names what already landed and what did
/// not, so the message alone shows whether a side is now unquoted.
pub fn partial_failure_message<'a, N: Amount>(
    applied: &[Step<'a, N>],
    failed: &Step<'a, N>,
    err: &str,
) -> (r: String)
    ensures
        r@ == partway_text(step_views(applied@), failed@, err@),
{
    let mut done: Vec<String> = Vec::new();
    let ghost f = |s: StepView<N>| step_text(s);
    let mut i: usize = 0;
    while i < applied.len()
        invariant
            i <= applied@.len(),
            f == (|s: StepView<N>| step_text(s)),
            texts(done@) == step_views(applied@).take(i as int).map_values(f),
        decreases applied@.len() - i,
    {
        let ghost before = done@;
        done.push(describe_step(&applied[i]));
        assert(texts(done@) =~= texts(before).push(step_text(applied@[i as int]@)));
        i = i + 1;
        assert(texts(done@) =~= step_views(applied@).take(i as int).map_values(f));
    }
    assert(step_views(applied@).take(applied@.len() as int) =~= step_views(applied@));
    let listed = if done.len() == 0 {
        "nothing".to_owned()
    } else {
        joined(&done, "; ")
    };
    "recenter failed partway on `".to_owned().concat(&describe_step(failed)).concat("`: ").concat(
        err,
    ).concat(". Already applied: ").concat(&listed).concat(
        ". A side may now be unquoted and earning $0 — check `lofty rewards eligibility` and re-post it",
    )
}

pub open spec fn partway_lines<N: Amount>(
    applied: Seq<StepView<N>>,
    failed: StepView<N>,
) -> Seq<Seq<char>> {
    seq!["⚠ recenter FAILED partway — a side may now be unquoted and earning $0"@]
        + applied.map_values(|s: StepView<N>| "    applied: "@ + step_text(s)) + seq![
        "    FAILED:  "@ + step_text(failed),
        "    verify with `lofty rewards eligibility`, then re-post the missing side"@,
    ]
}

/// Human-readable diagnostic for the same failure.
pub fn partial_failure_lines<'a, N: Amount>(applied: &[Step<'a, N>], failed: &Step<'a, N>) -> (r:
    Vec<String>)
    ensures
        texts(r@) == partway_lines(step_views(applied@), failed@),
{
    let mut out: Vec<String> = Vec::new();
    out.push("⚠ recenter FAILED partway — a side may now be unquoted and earning $0".to_owned());
    let ghost f = |s: StepView<N>| "    applied: "@ + step_text(s);
    let ghost head = texts(out@);
    let mut i: usize = 0;
    assert(texts(out@) =~= head + step_views(applied@).take(0).map_values(f));
    while i < applied.len()
        invariant
            i <= applied@.len(),
            f == (|s: StepView<N>| "    applied: "@ + step_text(s)),
            texts(out@) == head + step_views(applied@).take(i as int).map_values(f),
        decreases applied@.len() - i,
    {
        let ghost before = out@;
        out.push("    applied: ".to_owned().concat(&describe_step(&applied[i])));
        assert(texts(out@) =~= texts(before).push(f(applied@[i as int]@)));
        i = i + 1;
        assert(texts(out@) =~= head + step_views(applied@).take(i as int).map_values(f));
    }
    assert(step_views(applied@).take(applied@.len() as int) =~= step_views(applied@));
    let ghost landed = texts(out@);
    out.push("    FAILED:  ".to_owned().concat(&describe_step(failed)));
    out.push(
        "    verify with `lofty rewards eligibility`, then re-post the missing side".to_owned(),
    );
    assert(texts(out@) =~= landed.push("    FAILED:  "@ + step_text(failed@)).push(
        "    verify with `lofty rewards eligibility`, then re-post the missing side"@,
    ));
    assert(head =~= seq![
        "⚠ recenter FAILED partway — a side may now be unquoted and earning $0"@,
    ]);
    assert(texts(out@) =~= partway_lines(step_views(applied@), failed@));
    out
}

/// Where a run stands after a request.
#[derive(Debug)]
pub enum Progress {
    /// Send the request of the step with this index next.
    Continue(usize),
    /// Every step landed.
    Finished,
    /// A step failed: the lines go to the operator and nothing more is sent.
    Stopped { lines: Vec<String>, failure: Failure },
}

pub enum ProgressView {
    Continue(nat),
    Finished,
    Stopped { lines: Seq<Seq<char>>, failure: FailureView },
}

impl View for Progress {
    type V = ProgressView;

    open spec fn view(&self) -> ProgressView {
        match self {
            Progress::Continue(i) => ProgressView::Continue(*i as nat),
            Progress::Finished => ProgressView::Finished,
            Progress::Stopped { lines, failure } => ProgressView::Stopped {
                lines: texts(lines@),
                failure: failure@,
            },
        }
    }
}

/// Where a run stands once the step after the first `done` has answered: a failure
/// stops it and reports exactly the steps that landed, a success moves on.
pub open spec fn progress_of<N: Amount>(
    steps: Seq<StepView<N>>,
    done: nat,
    error: Option<Seq<char>>,
) -> ProgressView {
    match error {
        Some(err) => ProgressView::Stopped {
            lines: partway_lines(steps.take(done as int), steps[done as int]),
            failure: FailureView::Other(
                partway_text(steps.take(done as int), steps[done as int], err),
            ),
        },
        None => if done + 1 < steps.len() {
            ProgressView::Continue(done + 1)
        } else {
            ProgressView::Finished
        },
    }
}

/// Take the answer to the step after the first `done`.
pub fn advance<'a, N: Amount>(steps: &Vec<Step<'a, N>>, done: usize, error: Option<String>) -> (r:
    Progress)
    requires
        done < steps.len(),
    ensures
        r@ == progress_of(step_views(steps@), done as nat, crate::text::owned_chars(error)),
{
    match error {
        Some(err) => {
            let applied = vstd::slice::slice_subrange(steps.as_slice(), 0, done);
            assert(step_views(applied@) =~= step_views(steps@).take(done as int));
            Progress::Stopped {
                lines: partial_failure_lines(applied, &steps[done]),
                failure: Failure::Other(partial_failure_message(applied, &steps[done], &err)),
            }
        },
        None => if done + 1 < steps.len() {
            Progress::Continue(done + 1)
        } else {
            Progress::Finished
        },
    }
}

/// The headline of a report on a plan.
pub open spec fn headline_text(mode: Render) -> Seq<char> {
    match mode {
        Render::DryRun => "DRY RUN — nothing sent"@,
        Render::NoOp => "nothing to do — no matching orders"@,
        Render::Applied => "applied"@,
    }
}

pub fn headline(mode: Render) -> (r: &'static str)
    ensures
        r@ == headline_text(mode),
{
    match mode {
        Render::DryRun => "DRY RUN — nothing sent",
        Render::NoOp => "nothing to do — no matching orders",
        Render::Applied => "applied",
    }
}

/// The first line of a report on a plan: only a plan that places an order has a
/// market to show.
pub open spec fn opening_text<N: Amount>(band: Option<Band<N>>, mode: Render) -> Seq<char> {
    match band {
        Some(b) => headline_text(mode) + ". mid $"@ + b.mid.fixed_text(2) + ", reward band [$"@
            + b.low.fixed_text(2) + ", $"@ + b.high.fixed_text(2) + "]"@,
        None => headline_text(mode) + "."@,
    }
}

pub open spec fn planned_line<N: Amount>(step: StepView<N>) -> LineView<N> {
    LineView::Out(
        "  "@ + step_text(step) + (match step.dist_from_mid {
            Some(d) => "  ("@ + d.fixed_text(2) + " from mid)"@,
            None => Seq::empty(),
        }),
    )
}

pub open spec fn kept_line<N: Amount>(kept: KeptView<N>) -> LineView<N> {
    LineView::Out(
        "  keep   "@ + kept.direction + " $"@ + kept.price.fixed_text(2) + " x"@
            + kept.quantity.plain_text() + " (untouched)"@,
    )
}

pub open spec fn note_line<N>(note: Seq<char>) -> LineView<N> {
    LineView::Note("  ⚠ "@ + note)
}

/// The report on a plan that was not applied.
pub open spec fn plan_lines<N: Amount>(
    band: Option<Band<N>>,
    steps: Seq<StepView<N>>,
    untouched: Seq<KeptView<N>>,
    notes: Seq<Seq<char>>,
    mode: Render,
) -> Seq<LineView<N>> {
    seq![LineView::Out(opening_text(band, mode))] + steps.map_values(
        |s: StepView<N>| planned_line(s),
    ) + untouched.map_values(|k: KeptView<N>| kept_line(k)) + notes.map_values(
        |n: Seq<char>| note_line::<N>(n),
    ) + (if mode is DryRun {
        seq![LineView::Note("re-run with --execute to apply"@)]
    } else {
        Seq::empty()
    })
}

fn planned_lines<'a, N: Amount>(steps: &Vec<Step<'a, N>>) -> (r: Vec<Line<N>>)
    ensures
        line_views(r@) == step_views(steps@).map_values(|s: StepView<N>| planned_line(s)),
{
    let ghost f = |s: StepView<N>| planned_line(s);
    let mut out: Vec<Line<N>> = Vec::new();
    let mut i: usize = 0;
    assert(line_views(out@) =~= step_views(steps@).take(0).map_values(f));
    while i < steps.len()
        invariant
            i <= steps.len(),
            f == (|s: StepView<N>| planned_line(s)),
            line_views(out@) == step_views(steps@).take(i as int).map_values(f),
        decreases steps.len() - i,
    {
        let body = "  ".to_owned().concat(&describe_step(&steps[i]));
        let text = match steps[i].dist_from_mid {
            Some(d) => {
                let tail = "  (".to_owned().concat(&d.fixed(2)).concat(" from mid)");
                body.concat(&tail)
            },
            None => {
                assert(body@ + Seq::<char>::empty() =~= body@);
                body
            },
        };
        say(&mut out, Line::Out(text));
        i = i + 1;
        assert(line_views(out@) =~= step_views(steps@).take(i as int).map_values(f));
    }
    assert(step_views(steps@).take(steps.len() as int) =~= step_views(steps@));
    out
}

fn kept_lines<'a, N: Amount>(kept: &Vec<Kept<'a, N>>) -> (r: Vec<Line<N>>)
    ensures
        line_views(r@) == kept_views(kept@).map_values(|k: KeptView<N>| kept_line(k)),
{
    let ghost f = |k: KeptView<N>| kept_line(k);
    let mut out: Vec<Line<N>> = Vec::new();
    let mut i: usize = 0;
    assert(line_views(out@) =~= kept_views(kept@).take(0).map_values(f));
    while i < kept.len()
        invariant
            i <= kept.len(),
            f == (|k: KeptView<N>| kept_line(k)),
            line_views(out@) == kept_views(kept@).take(i as int).map_values(f),
        decreases kept.len() - i,
    {
        let k = &kept[i];
        say(
            &mut out,
            Line::Out(
                "  keep   ".to_owned().concat(k.direction).concat(" $").concat(
                    &k.price.fixed(2),
                ).concat(" x").concat(&k.quantity.plain()).concat(" (untouched)"),
            ),
        );
        i = i + 1;
        assert(line_views(out@) =~= kept_views(kept@).take(i as int).map_values(f));
    }
    assert(kept_views(kept@).take(kept.len() as int) =~= kept_views(kept@));
    out
}

fn note_lines<N>(notes: &Vec<String>) -> (r: Vec<Line<N>>)
    ensures
        line_views(r@) == texts(notes@).map_values(|n: Seq<char>| note_line::<N>(n)),
{
    let ghost f = |n: Seq<char>| note_line::<N>(n);
    let mut out: Vec<Line<N>> = Vec::new();
    let mut i: usize = 0;
    assert(line_views(out@) =~= texts(notes@).take(0).map_values(f));
    while i < notes.len()
        invariant
            i <= notes.len(),
            f == (|n: Seq<char>| note_line::<N>(n)),
            line_views(out@) == texts(notes@).take(i as int).map_values(f),
        decreases notes.len() - i,
    {
        say(&mut out, Line::Note("  ⚠ ".to_owned().concat(notes[i].as_str())));
        i = i + 1;
        assert(line_views(out@) =~= texts(notes@).take(i as int).map_values(f));
    }
    assert(texts(notes@).take(notes.len() as int) =~= texts(notes@));
    out
}

/// Report on a plan that was not applied.
pub fn render_plan<'a, N: Amount>(plan: &Plan<'a, N>, mode: Render) -> (r: Vec<Line<N>>)
    ensures
        line_views(r@) == plan_lines(
            plan@.band,
            plan@.steps,
            plan@.untouched,
            plan@.notes,
            mode,
        ),
{
    let mut out: Vec<Line<N>> = Vec::new();
    let opening = match &plan.band {
        Some(b) => headline(mode).to_owned().concat(". mid $").concat(&b.mid.fixed(2)).concat(
            ", reward band [$",
        ).concat(&b.low.fixed(2)).concat(", $").concat(&b.high.fixed(2)).concat("]"),
        None => headline(mode).to_owned().concat("."),
    };
    say(&mut out, Line::Out(opening));
    say_all(&mut out, planned_lines(&plan.steps));
    say_all(&mut out, kept_lines(&plan.untouched));
    say_all(&mut out, note_lines(&plan.notes));
    if matches!(mode, Render::DryRun) {
        say(&mut out, Line::Note("re-run with --execute to apply".to_owned()));
    }
    assert(line_views(out@) =~= plan_lines(
        plan@.band,
        plan@.steps,
        plan@.untouched,
        plan@.notes,
        mode,
    ));
    out
}

/// Report on a plan whose every step landed.
pub fn render_applied<'a, N: Amount>(steps: &Vec<Step<'a, N>>) -> (r: Vec<Line<N>>)
    ensures
        line_views(r@) == step_views(steps@).map_values(
            |s: StepView<N>| LineView::<N>::Out("  done: "@ + step_text(s)),
        ),
{
    let ghost f = |s: StepView<N>| LineView::<N>::Out("  done: "@ + step_text(s));
    let mut out: Vec<Line<N>> = Vec::new();
    let mut i: usize = 0;
    assert(line_views(out@) =~= step_views(steps@).take(0).map_values(f));
    while i < steps.len()
        invariant
            i <= steps.len(),
            f == (|s: StepView<N>| LineView::<N>::Out("  done: "@ + step_text(s))),
            line_views(out@) == step_views(steps@).take(i as int).map_values(f),
        decreases steps.len() - i,
    {
        say(&mut out, Line::Out("  done: ".to_owned().concat(&describe_step(&steps[i]))));
        i = i + 1;
        assert(line_views(out@) =~= step_views(steps@).take(i as int).map_values(f));
    }
    assert(step_views(steps@).take(steps.len() as int) =~= step_views(steps@));
    out
}

} // verus!
