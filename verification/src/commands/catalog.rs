use vstd::prelude::*;

use crate::json::lemma_filter_step;
use crate::text::{chars_of, same};

verus! {

/// What an endpoint of the platform API does.
#[derive(Clone, Copy, Debug, PartialEq, Eq, Structural)]
pub enum Kind {
    Read,
    Write,
    Admin,
}

impl Kind {
    pub open spec fn word(self) -> Seq<char> {
        match self {
            Kind::Read => "read"@,
            Kind::Write => "write"@,
            Kind::Admin => "admin"@,
        }
    }

    pub fn as_str(self) -> (r: &'static str)
        ensures
            r@ == self.word(),
    {
        match self {
            Kind::Read => "read",
            Kind::Write => "write",
            Kind::Admin => "admin",
        }
    }
}

/// An observed endpoint of the internal platform API.
#[derive(Debug)]
pub struct Endpoint {
    pub path: String,
    pub name: String,
    pub group: String,
    pub kind: Kind,
}

/// Whether an endpoint passes the filters that are given.
pub open spec fn listed(e: Endpoint, group: Option<Seq<char>>, kind: Option<Seq<char>>) -> bool {
    (group is Some ==> e.group@ == group->0) && (kind is Some ==> e.kind.word() == kind->0)
}

/// The endpoints of a group and of a kind, in the order of the inventory.
pub fn select_endpoints<'a>(
    inventory: &'a Vec<Endpoint>,
    group: Option<&str>,
    kind: Option<&str>,
) -> (r: Vec<&'a Endpoint>)
    ensures
        r@.unref() == inventory@.filter(
            |e: Endpoint| listed(e, chars_of(group), chars_of(kind)),
        ),
{
    let ghost keep = |e: Endpoint| listed(e, chars_of(group), chars_of(kind));
    let mut out: Vec<&'a Endpoint> = Vec::new();
    let mut i: usize = 0;
    assert(out@.unref() =~= inventory@.take(0).filter(keep)) by {
        reveal(Seq::filter);
    }
    while i < inventory.len()
        invariant
            i <= inventory.len(),
            keep == (|e: Endpoint| listed(e, chars_of(group), chars_of(kind))),
            out@.unref() == inventory@.take(i as int).filter(keep),
        decreases inventory.len() - i,
    {
        let e: &'a Endpoint = &inventory[i];
        proof {
            lemma_filter_step(inventory@, i as int, keep);
        }
        let in_group: bool = match group {
            Some(g) => same(e.group.as_str(), g),
            None => true,
        };
        let of_kind: bool = match kind {
            Some(k) => same(e.kind.as_str(), k),
            None => true,
        };
        if in_group && of_kind {
            let ghost before = out@;
            out.push(e);
            assert(out@.unref() =~= before.unref().push(*e));
        }
        i = i + 1;
    }
    assert(inventory@.take(inventory.len() as int) =~= inventory@);
    out
}

/// An endpoint is listed exactly when it is of the group asked for and of the kind
/// asked for, as far as either is.
pub proof fn an_endpoint_is_listed_by_group_and_kind(
    e: Endpoint,
    group: Option<Seq<char>>,
    kind: Option<Seq<char>>,
)
    ensures
        listed(e, group, kind) <==> {
            &&& group is None || group == Some(e.group@)
            &&& kind is None || kind == Some(
                match e.kind {
                    Kind::Read => "read"@,
                    Kind::Write => "write"@,
                    Kind::Admin => "admin"@,
                },
            )
        },
{
}

} // verus!
