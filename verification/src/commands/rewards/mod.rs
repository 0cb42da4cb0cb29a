pub mod calendar;
pub mod eligibility;
pub mod laws;
pub mod ledger;
pub mod reconcile;
pub mod shares;
pub mod standing;

use vstd::prelude::*;

use crate::json::{owned, Json};
use crate::text::{chars_of, decimal, decimal_text, optional_pair, query_views, same};

verus! {

/// A number as the text of a query value, if there is one.
pub open spec fn optional_decimal(n: Option<u64>) -> Option<Seq<char>> {
    match n {
        Some(v) => Some(decimal_text(v as nat)),
        None => None,
    }
}

pub open spec fn history_query_of(
    since: Option<u64>,
    limit: Option<u32>,
    cursor: Option<Seq<char>>,
) -> Seq<(Seq<char>, Seq<char>)> {
    optional_pair("since"@, optional_decimal(since)) + optional_pair(
        "limit"@,
        match limit {
            Some(n) => Some(decimal_text(n as nat)),
            None => None,
        },
    ) + optional_pair("cursor"@, cursor)
}

/// The query for a page of the payout history: only what is given is sent.
pub fn history_query(since: Option<u64>, limit: Option<u32>, cursor: Option<&str>) -> (r: Vec<
    (&'static str, String),
>)
    ensures
        query_views(r@) == history_query_of(since, limit, chars_of(cursor)),
{
    let mut q: Vec<(&'static str, String)> = Vec::new();
    if let Some(s) = since {
        q.push(("since", decimal(s as u128)));
    }
    if let Some(n) = limit {
        q.push(("limit", decimal(n as u128)));
    }
    if let Some(c) = cursor {
        q.push(("cursor", c.to_owned()));
    }
    assert(query_views(q@) =~= history_query_of(since, limit, chars_of(cursor)));
    q
}

/// The most pages a reconciliation reads.
pub const PAGE_CAP: usize = 50;

/// The query for the next page of the whole payout history.
pub fn page_query(since: Option<u64>, cursor: Option<&str>) -> (r: Vec<(&'static str, String)>)
    ensures
        query_views(r@) == seq![("limit"@, "200"@)] + optional_pair(
            "since"@,
            optional_decimal(since),
        ) + optional_pair("cursor"@, chars_of(cursor)),
{
    let mut q: Vec<(&'static str, String)> = Vec::new();
    q.push(("limit", "200".to_owned()));
    if let Some(s) = since {
        q.push(("since", decimal(s as u128)));
    }
    if let Some(c) = cursor {
        q.push(("cursor", c.to_owned()));
    }
    assert(query_views(q@) =~= seq![("limit"@, "200"@)] + optional_pair(
        "since"@,
        optional_decimal(since),
    ) + optional_pair("cursor"@, chars_of(cursor)));
    q
}

/// Where to read on after a page: at a cursor that differs from the last one,
/// until the cap is reached.
pub open spec fn read_on<N>(page: Json<N>, cursor: Option<Seq<char>>, read: nat) -> Option<
    Seq<char>,
> {
    if read < PAGE_CAP && page.text_at("nextCursor"@) is Some && page.text_at("nextCursor"@)
        != cursor {
        page.text_at("nextCursor"@)
    } else {
        None
    }
}

/// Decide whether to read another page once `read` of them are there, the last one
/// fetched at `cursor`.
pub fn next_cursor<'a, N>(page: &'a Json<N>, cursor: Option<&str>, read: usize) -> (r: Option<
    &'a str,
>)
    ensures
        chars_of(r) == read_on(*page, chars_of(cursor), read as nat),
{
    if read >= PAGE_CAP {
        return None;
    }
    match page.text_in("nextCursor") {
        Some(c) => match cursor {
            Some(last) => if same(c, last) {
                None
            } else {
                Some(c)
            },
            None => Some(c),
        },
        None => None,
    }
}

/// The payouts of some pages, in order.
pub open spec fn rewards_in<N>(pages: Seq<Json<N>>) -> Seq<Json<N>>
    decreases pages.len(),
{
    if pages.len() == 0 {
        Seq::empty()
    } else {
        rewards_in(pages.drop_last()) + pages.last().items_at("rewards"@)
    }
}

pub fn collect_rewards<'a, N>(pages: &'a Vec<Json<N>>) -> (r: Vec<&'a Json<N>>)
    ensures
        r@.unref() == rewards_in(pages@),
{
    let mut out: Vec<&'a Json<N>> = Vec::new();
    let mut i: usize = 0;
    assert(out@.unref() =~= rewards_in(pages@.take(0)));
    while i < pages.len()
        invariant
            i <= pages.len(),
            out@.unref() == rewards_in(pages@.take(i as int)),
        decreases pages.len() - i,
    {
        assert(pages@.take(i as int + 1).drop_last() =~= pages@.take(i as int));
        let mut more = pages[i].items_in("rewards");
        let ghost (a, b) = (out@, more@);
        out.append(&mut more);
        assert(out@.unref() =~= a.unref() + b.unref());
        i = i + 1;
    }
    assert(pages@.take(pages.len() as int) =~= pages@);
    out
}

/// The cursor a history page leaves off at, unless it is the last one.
pub open spec fn leaves_off_at<N>(page: Json<N>) -> Option<Json<N>> {
    match page.member("nextCursor"@) {
        Some(Json::Null) => None,
        other => other,
    }
}

pub fn cursor_to_show<'a, N>(page: &'a Json<N>) -> (r: Option<&'a Json<N>>)
    ensures
        owned(r) == leaves_off_at(*page),
{
    match page.get("nextCursor") {
        Some(v) => match v {
            Json::Null => None,
            _ => Some(v),
        },
        None => None,
    }
}

} // verus!
