use vstd::prelude::*;

use crate::amount::Amount;
use crate::commands::quote::apply::one_cent;
use crate::commands::rewards::eligibility::display_name;
use crate::commands::rewards::ledger::{
    lemma_period_tally, lemma_timeline_is_what_was_paid, paid_for,
};
use crate::commands::rewards::reconcile::{
    by_period, lemma_by_period_keeps_length, mismatched, pay_of, payouts_of, start_of, sum_at,
    timeline, timeline_is_increasing_and_complete, total_earned, total_gaps, total_payouts,
    PayoutsView,
};
use crate::commands::rewards::{history_query_of, leaves_off_at, read_on, rewards_in};
use crate::groups::{a_name_nobody_carries_has_no_item, named, the_last_of_a_name_counts};
use crate::json::Json;
use crate::micros::{rounding_is_within_half, Micros};
use crate::sort::{sorting_is_ordered_and_stable, sorting_keeps_the_members, stable_sorted};
use crate::tally::{added_up, lemma_tally_counts, tally};
use crate::text::decimal_text;

verus! {

proof fn lemma_a_cent_is_ten_thousand_millionths()
    ensures
        one_cent::<Micros>().units == 10_000,
{
    rounding_is_within_half(1_000_000int * 1_000_000, 100_000_000);
}

/// A payout with a positive share of the pool is off exactly when the pool it implies,
/// its amount over that share, lies more than a cent above the pool or more than a
/// cent below it: too little paid is found just as too much is.
pub proof fn a_payout_is_off_in_either_direction(r: Json<Micros>, pool: Micros)
    requires
        0 < r.amount_at("percentOfPool"@).units,
    ensures
        ({
            let implied = r.amount_at("amount"@).quotient(
                r.amount_at("percentOfPool"@).quotient(Micros::whole(100)),
            );
            mismatched(r, pool) <==> implied.units - pool.units > 10_000 || pool.units
                - implied.units > 10_000
        }),
{
    lemma_a_cent_is_ten_thousand_millionths();
}

/// A payout without a positive share of the pool is off exactly when its amount lies
/// more than a cent above that share of the pool or more than a cent below it.
pub proof fn a_payout_without_a_share_is_off_in_either_direction(r: Json<Micros>, pool: Micros)
    requires
        r.amount_at("percentOfPool"@).units <= 0,
    ensures
        ({
            let amount = r.amount_at("amount"@);
            let owed = r.amount_at("percentOfPool"@).quotient(Micros::whole(100)).product(pool);
            mismatched(r, pool) <==> amount.units - owed.units > 10_000 || owed.units
                - amount.units > 10_000
        }),
{
    lemma_a_cent_is_ten_thousand_millionths();
}

/// Whether a payout is more than a cent from what its share of the pool says.
pub open spec fn off_its_share(r: Json<Micros>, pool: Micros) -> bool {
    let amount = r.amount_at("amount"@);
    let share = r.amount_at("percentOfPool"@).quotient(Micros::whole(100));
    let (found, owed) = if 0 < r.amount_at("percentOfPool"@).units {
        (amount.quotient(share), pool)
    } else {
        (amount, share.product(pool))
    };
    found.units - owed.units > 10_000 || owed.units - found.units > 10_000
}

/// The inconsistent payouts of a property are those of its own that are off their
/// share of its pool, each counted once.
pub proof fn every_payout_that_is_off_is_counted(
    rewards: Seq<Json<Micros>>,
    programs: Seq<Json<Micros>>,
    pid: Seq<char>,
)
    ensures
        payouts_of(rewards, programs, pid).inconsistent_payouts == rewards.filter(
            |r: Json<Micros>| r.name_at("propertyId"@) == pid,
        ).filter(|r: Json<Micros>| off_its_share(r, pay_of(programs, pid).pool)).len(),
{
    let pool = pay_of(programs, pid).pool;
    let ours = rewards.filter(|r: Json<Micros>| r.name_at("propertyId"@) == pid);
    assert(ours == named(rewards, "propertyId"@, pid));
    let off = |r: Json<Micros>| off_its_share(r, pool);
    let wrong = |r: Json<Micros>| mismatched(r, pool);
    assert forall|r: Json<Micros>| #[trigger] off(r) == wrong(r) by {
        if 0 < r.amount_at("percentOfPool"@).units {
            a_payout_is_off_in_either_direction(r, pool);
        } else {
            a_payout_without_a_share_is_off_in_either_direction(r, pool);
        }
    }
    assert(off =~= wrong);
    let count = |r: Json<Micros>|
        if wrong(r) {
            1int
        } else {
            0int
        };
    lemma_period_tally(rewards, pid, count);
    lemma_tally_counts(by_period(ours), wrong);
    lemma_tally_counts(ours, wrong);
}

/// Where a property's terms come from: its last program. The pool of a block is the
/// daily reward over the blocks of a day, or all of it where there are none; a period
/// lasts as long as a block. What a program leaves out is ten dollars a day, 24 blocks
/// and an hour.
pub proof fn the_last_program_sets_the_terms<N: Amount>(
    programs: Seq<Json<N>>,
    pid: Seq<char>,
    k: int,
)
    requires
        0 <= k < programs.len(),
        programs[k].name_at("propertyId"@) == pid,
        forall|j: int| k < j < programs.len() ==> (#[trigger] programs[j]).name_at("propertyId"@)
            != pid,
    ensures
        ({
            let p = programs[k];
            let daily = match p.number_at("dailyRewards"@) {
                Some(n) => n,
                None => N::whole(10),
            };
            let blocks = match p.number_at("blocksPerDay"@) {
                Some(n) => n,
                None => N::whole(24),
            };
            let pay = pay_of(programs, pid);
            &&& N::whole(0).less(blocks) ==> pay.pool == daily.quotient(blocks)
            &&& !N::whole(0).less(blocks) ==> pay.pool == daily
            &&& p.whole_at("blockDurationMs"@) matches Some(ms) ==> pay.period == ms
            &&& p.whole_at("blockDurationMs"@) is None ==> pay.period == 3_600_000
            &&& pay.name == display_name(p)
        }),
{
    the_last_of_a_name_counts(programs, "propertyId"@, pid, k);
}

/// A property without a program has the usual terms and goes by its id.
pub proof fn without_a_program_the_usual_terms_hold<N: Amount>(
    programs: Seq<Json<N>>,
    pid: Seq<char>,
)
    requires
        forall|j: int| 0 <= j < programs.len() ==> (#[trigger] programs[j]).name_at("propertyId"@)
            != pid,
    ensures
        pay_of(programs, pid).pool == N::whole(10).quotient(N::whole(24)),
        pay_of(programs, pid).period == 3_600_000,
        pay_of(programs, pid).name == pid,
{
    a_name_nobody_carries_has_no_item(programs, "propertyId"@, pid);
}

proof fn lemma_sums_are_added_up<N: Amount>(rows: Seq<Json<N>>, key: Seq<char>)
    ensures
        sum_at(rows, key) == added_up(
            rows.filter(|r: Json<N>| r.number_at(key) is Some),
            |r: Json<N>| r.number_at(key)->0,
        ),
    decreases rows.len(),
{
    reveal(Seq::filter);
    if rows.len() > 0 {
        let keep = |r: Json<N>| r.number_at(key) is Some;
        lemma_sums_are_added_up(rows.drop_last(), key);
        let head = rows.drop_last().filter(keep);
        assert(head.push(rows.last()).drop_last() =~= head);
    }
}

/// What a property earned is its payouts added up in the order of their periods, and
/// its average share is the sum of their shares over their number.
pub proof fn a_row_adds_up_its_payouts<N: Amount>(
    rewards: Seq<Json<N>>,
    programs: Seq<Json<N>>,
    pid: Seq<char>,
)
    ensures
        ({
            let ours = rewards.filter(|r: Json<N>| r.name_at("propertyId"@) == pid);
            let row = payouts_of(rewards, programs, pid);
            &&& row.property_id == pid
            &&& row.name == pay_of(programs, pid).name
            &&& row.payouts == ours.len()
            &&& row.earned == added_up(
                by_period(ours).filter(|r: Json<N>| r.number_at("amount"@) is Some),
                |r: Json<N>| r.number_at("amount"@)->0,
            )
            &&& ours.len() > 0 ==> row.avg_percent_of_pool == added_up(
                by_period(ours).filter(|r: Json<N>| r.number_at("percentOfPool"@) is Some),
                |r: Json<N>| r.number_at("percentOfPool"@)->0,
            ).quotient(N::whole(ours.len() as u64))
            &&& ours.len() == 0 ==> row.avg_percent_of_pool == N::whole(0)
        }),
{
    let ours = rewards.filter(|r: Json<N>| r.name_at("propertyId"@) == pid);
    assert(ours == named(rewards, "propertyId"@, pid));
    lemma_by_period_keeps_length(ours);
    lemma_sums_are_added_up(by_period(ours), "amount"@);
    lemma_sums_are_added_up(by_period(ours), "percentOfPool"@);
}

/// The first and the last period of a property are ones it was paid for, and it was
/// paid for none before the first or after the last.
pub proof fn a_row_spans_its_payouts<N: Amount>(
    rewards: Seq<Json<N>>,
    programs: Seq<Json<N>>,
    pid: Seq<char>,
    t: u64,
)
    requires
        paid_for(rewards, pid, t),
    ensures
        ({
            let row = payouts_of(rewards, programs, pid);
            &&& row.first_period <= t <= row.last_period
            &&& paid_for(rewards, pid, row.first_period)
            &&& paid_for(rewards, pid, row.last_period)
        }),
{
    let rows = by_period(named(rewards, "propertyId"@, pid));
    let times = timeline(rows);
    let row = payouts_of(rewards, programs, pid);
    timeline_is_increasing_and_complete(rows);
    lemma_timeline_is_what_was_paid(rewards, pid, t);
    let k = choose|k: int| 0 <= k < times.len() && times[k] == t;
    assert(times.contains(times[0]) && times.contains(times[times.len() - 1]));
    lemma_timeline_is_what_was_paid(rewards, pid, times[0]);
    lemma_timeline_is_what_was_paid(rewards, pid, times[times.len() - 1]);
    if k > 0 {
        assert(times[0] < times[k]);
    }
    if k < times.len() - 1 {
        assert(times[k] < times[times.len() - 1]);
    }
}

/// The totals of a reconciliation are the figures of its rows added up.
pub proof fn totals_are_added_up<N: Amount>(rows: Seq<PayoutsView<N>>)
    ensures
        total_earned(rows) == added_up(rows, |r: PayoutsView<N>| r.earned),
        total_payouts(rows) == tally(rows, |r: PayoutsView<N>| r.payouts as int),
        total_gaps(rows) == tally(rows, |r: PayoutsView<N>| r.gaps.len() as int),
    decreases rows.len(),
{
    if rows.len() > 0 {
        totals_are_added_up(rows.drop_last());
    }
}

/// Another page is read exactly when fewer than fifty are there and the last one names
/// a cursor other than the one it was fetched at; reading goes on at that cursor.
pub proof fn reading_goes_on_at_a_new_cursor<N>(
    page: Json<N>,
    cursor: Option<Seq<char>>,
    read: nat,
    next: Seq<char>,
)
    ensures
        read_on(page, cursor, read) == Some(next) <==> read < 50 && page.text_at("nextCursor"@)
            == Some(next) && cursor != Some(next),
{
}

/// The payouts of some pages are those of each page, one page after the other.
pub proof fn pages_are_read_in_order<N>(pages: Seq<Json<N>>, page: Json<N>)
    ensures
        rewards_in(Seq::<Json<N>>::empty()) == Seq::<Json<N>>::empty(),
        rewards_in(pages.push(page)) == rewards_in(pages) + page.items_at("rewards"@),
{
    assert(pages.push(page).drop_last() =~= pages);
}

/// A page shows its cursor unless that is missing or null.
pub proof fn a_page_shows_its_cursor<N>(page: Json<N>, v: Json<N>)
    ensures
        leaves_off_at(page) == Some(v) <==> page.member("nextCursor"@) == Some(v) && !(v is Null),
{
}

/// The history is asked for what is given and nothing else: each filter is sent under
/// its name, in decimal where it is a number.
pub proof fn the_history_is_asked_for_what_is_given(
    since: Option<u64>,
    limit: Option<u32>,
    cursor: Option<Seq<char>>,
    name: Seq<char>,
    value: Seq<char>,
)
    ensures
        history_query_of(since, limit, cursor).contains((name, value)) <==> {
            ||| name == "since"@ && since is Some && value == decimal_text(since->0 as nat)
            ||| name == "limit"@ && limit is Some && value == decimal_text(limit->0 as nat)
            ||| name == "cursor"@ && cursor == Some(value)
        },
{
    let q = history_query_of(since, limit, cursor);
    let a = if since is Some {
        1int
    } else {
        0
    };
    let b = if limit is Some {
        a + 1
    } else {
        a
    };
    if since is Some {
        assert(q[0] == ("since"@, decimal_text(since->0 as nat)));
    }
    if limit is Some {
        assert(q[a] == ("limit"@, decimal_text(limit->0 as nat)));
    }
    if cursor is Some {
        assert(q[b] == ("cursor"@, cursor->0));
    }
}

/// The payouts of a property are looked at from the earliest period to the latest, and
/// those that name no period come first.
pub proof fn payouts_are_looked_at_in_order<N>(rows: Seq<Json<N>>, i: int, j: int)
    requires
        0 <= i < j < by_period(rows).len(),
    ensures
        ({
            let (a, b) = (by_period(rows)[i], by_period(rows)[j]);
            a.whole_at("periodStart"@) matches Some(s) ==> s == 0 || b.whole_at("periodStart"@)
                is Some && s <= b.whole_at("periodStart"@)->0
        }),
{
    let tagged = rows.map_values(|r: Json<N>| (start_of(r) as i128, r));
    let sorted = stable_sorted(tagged);
    sorting_is_ordered_and_stable(tagged);
    sorting_keeps_the_members(tagged);
    assert(sorted.contains(sorted[i]) && sorted.contains(sorted[j]));
    assert(tagged.contains(sorted[i]) && tagged.contains(sorted[j]));
    let x = choose|x: int| 0 <= x < tagged.len() && tagged[x] == sorted[i];
    let y = choose|y: int| 0 <= y < tagged.len() && tagged[y] == sorted[j];
    assert(sorted[i].0 <= sorted[j].0);
}

} // verus!
