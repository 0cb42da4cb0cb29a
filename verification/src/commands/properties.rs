use vstd::prelude::*;

use crate::text::{chars_of, decimal, decimal_text, optional_pair, query_views};

verus! {

/// The query for the marketplace listing. `propertyType` and `location` are left
/// off entirely when no filter is given, which upstream reads as "all"; a given
/// value is passed through verbatim.
pub open spec fn list_query_of(
    page: u32,
    page_size: u32,
    property_type: Option<Seq<char>>,
    location: Option<Seq<char>>,
) -> Seq<(Seq<char>, Seq<char>)> {
    seq![("page"@, decimal_text(page as nat)), ("pageSize"@, decimal_text(page_size as nat))]
        + optional_pair("propertyType"@, property_type) + optional_pair("location"@, location)
}

pub fn list_query(
    page: u32,
    page_size: u32,
    property_type: Option<&str>,
    location: Option<&str>,
) -> (r: Vec<(&'static str, String)>)
    ensures
        query_views(r@) == list_query_of(
            page,
            page_size,
            chars_of(property_type),
            chars_of(location),
        ),
{
    let mut q: Vec<(&'static str, String)> = Vec::new();
    q.push(("page", decimal(page as u128)));
    q.push(("pageSize", decimal(page_size as u128)));
    if let Some(pt) = property_type {
        q.push(("propertyType", pt.to_owned()));
    }
    if let Some(loc) = location {
        q.push(("location", loc.to_owned()));
    }
    assert(query_views(q@) =~= list_query_of(
            page,
            page_size,
            chars_of(property_type),
            chars_of(location),
        ));
    q
}

/// The listing is asked for a page, its size and the filters given, each under its name
/// and as it was given.
pub proof fn the_listing_is_asked_for_what_is_given(
    page: u32,
    page_size: u32,
    property_type: Option<Seq<char>>,
    location: Option<Seq<char>>,
    name: Seq<char>,
    value: Seq<char>,
)
    ensures
        list_query_of(page, page_size, property_type, location).contains((name, value)) <==> {
            ||| name == "page"@ && value == decimal_text(page as nat)
            ||| name == "pageSize"@ && value == decimal_text(page_size as nat)
            ||| name == "propertyType"@ && property_type == Some(value)
            ||| name == "location"@ && location == Some(value)
        },
{
    let q = list_query_of(page, page_size, property_type, location);
    assert(q[0] == ("page"@, decimal_text(page as nat)));
    assert(q[1] == ("pageSize"@, decimal_text(page_size as nat)));
    let a = if property_type is Some {
        3int
    } else {
        2
    };
    if property_type is Some {
        assert(q[2] == ("propertyType"@, property_type->0));
    }
    if location is Some {
        assert(q[a] == ("location"@, location->0));
    }
}

} // verus!
