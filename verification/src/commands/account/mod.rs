pub mod breakeven;
pub mod coverage;
pub mod figures;
pub mod laws;
pub mod pricing;
pub mod rebates;

use vstd::prelude::*;

use crate::text::{chars_of, decimal, decimal_text, optional_pair, query_views};

verus! {

/// The query for executed trades: only the filters that are given are sent.
pub open spec fn trades_query_of(
    property_id: Option<Seq<char>>,
    direction: Option<Seq<char>>,
    limit: Option<u32>,
) -> Seq<(Seq<char>, Seq<char>)> {
    optional_pair("propertyId"@, property_id) + optional_pair("direction"@, direction)
        + optional_pair(
        "limit"@,
        match limit {
            Some(n) => Some(decimal_text(n as nat)),
            None => None,
        },
    )
}

pub fn trades_query(property_id: Option<&str>, direction: Option<&str>, limit: Option<u32>) -> (r:
    Vec<(&'static str, String)>)
    ensures
        query_views(r@) == trades_query_of(chars_of(property_id), chars_of(direction), limit),
{
    let mut q: Vec<(&'static str, String)> = Vec::new();
    if let Some(id) = property_id {
        q.push(("propertyId", id.to_owned()));
    }
    if let Some(d) = direction {
        q.push(("direction", d.to_owned()));
    }
    if let Some(n) = limit {
        q.push(("limit", decimal(n as u128)));
    }
    assert(query_views(q@) =~= trades_query_of(
        chars_of(property_id),
        chars_of(direction),
        limit,
    ));
    q
}

/// The query for the trades that rebates are derived from.
pub fn rebate_trades_query(property_id: Option<&str>) -> (r: Vec<(&'static str, String)>)
    ensures
        query_views(r@) == seq![("limit"@, "200"@)] + optional_pair(
            "propertyId"@,
            chars_of(property_id),
        ),
{
    let mut q: Vec<(&'static str, String)> = Vec::new();
    q.push(("limit", "200".to_owned()));
    if let Some(id) = property_id {
        q.push(("propertyId", id.to_owned()));
    }
    assert(query_views(q@) =~= seq![("limit"@, "200"@)] + optional_pair(
        "propertyId"@,
        chars_of(property_id),
    ));
    q
}

} // verus!
