use vstd::prelude::*;

use crate::amount::Amount;
use crate::json::{owned, Json};
use crate::micros::Micros;

verus! {

/// One side of an order book payload: `orderbook.{bids,asks}`, or the older
/// `orderbook.orderBook.{buyOrders,sellOrders}` when the former is absent.
pub open spec fn side_node<N>(
    book: Json<N>,
    new_key: Seq<char>,
    old_key: Seq<char>,
) -> Option<Json<N>> {
    match book.inner("orderbook"@, new_key) {
        Some(v) => Some(v),
        None => match book.inner("orderbook"@, "orderBook"@) {
            Some(v) => v.member(old_key),
            None => None,
        },
    }
}

/// The entries of one side of an order book payload.
pub open spec fn side_items<N>(
    book: Json<N>,
    new_key: Seq<char>,
    old_key: Seq<char>,
) -> Seq<Json<N>> {
    match side_node(book, new_key, old_key) {
        Some(v) => match v.as_items() {
            Some(items) => items,
            None => Seq::empty(),
        },
        None => Seq::empty(),
    }
}

/// Price and quantity of a book entry that has both.
pub open spec fn level_of<N>(entry: Json<N>) -> Option<(N, N)> {
    match (entry.number_at("price"@), entry.number_at("quantity"@)) {
        (Some(p), Some(q)) => Some((p, q)),
        _ => None,
    }
}

/// The priced and sized levels of one side of a book.
pub open spec fn levels_of<N>(book: Json<N>, new_key: Seq<char>, old_key: Seq<char>) -> Seq<(N, N)> {
    side_items(book, new_key, old_key).filter_map(|l: Json<N>| level_of(l))
}

/// The priced entries of one side of a book.
pub open spec fn prices_of<N>(book: Json<N>, new_key: Seq<char>, old_key: Seq<char>) -> Seq<N> {
    side_items(book, new_key, old_key).filter_map(|l: Json<N>| l.number_at("price"@))
}

/// The best of some prices: the greatest when `want_max`, else the least.
pub open spec fn best<N: Amount>(prices: Seq<N>, want_max: bool) -> Option<N>
    decreases prices.len(),
{
    if prices.len() == 0 {
        None
    } else {
        match best(prices.drop_last(), want_max) {
            None => Some(prices.last()),
            Some(a) => Some(
                if want_max {
                    a.greater(prices.last())
                } else {
                    a.lesser(prices.last())
                },
            ),
        }
    }
}

/// The prices of some levels.
pub open spec fn level_prices<N>(levels: Seq<(N, N)>) -> Seq<N> {
    levels.map_values(|l: (N, N)| l.0)
}

pub fn book_side<'a, N>(book: &'a Json<N>, new_key: &str, old_key: &str) -> (r: Option<&'a Json<N>>)
    ensures
        owned(r) == side_node(*book, new_key@, old_key@),
{
    match book.get_inner("orderbook", new_key) {
        Some(v) => Some(v),
        None => match book.get_inner("orderbook", "orderBook") {
            Some(v) => v.get(old_key),
            None => None,
        },
    }
}

pub fn book_items<'a, N>(book: &'a Json<N>, new_key: &str, old_key: &str) -> (r: Vec<&'a Json<N>>)
    ensures
        r@.unref() == side_items(*book, new_key@, old_key@),
{
    match book_side(book, new_key, old_key) {
        Some(v) => match v.items() {
            Some(items) => items,
            None => {
                let none: Vec<&'a Json<N>> = Vec::new();
                assert(none@.unref() =~= Seq::<Json<N>>::empty());
                none
            },
        },
        None => {
            let none: Vec<&'a Json<N>> = Vec::new();
            assert(none@.unref() =~= Seq::<Json<N>>::empty());
            none
        },
    }
}

/// The priced and sized levels of one side of a book, in payload order.
pub fn levels<N: Amount>(book: &Json<N>, new_key: &str, old_key: &str) -> (r: Vec<(N, N)>)
    ensures
        r@ == levels_of(*book, new_key@, old_key@),
{
    let items = book_items(book, new_key, old_key);
    let ghost f = |l: Json<N>| level_of(l);
    let mut out: Vec<(N, N)> = Vec::new();
    let mut i: usize = 0;
    assert(items@.unref().take(0).filter_map(f) =~= Seq::<(N, N)>::empty()) by {
        reveal(Seq::filter_map);
    }
    while i < items.len()
        invariant
            i <= items.len(),
            f == (|l: Json<N>| level_of(l)),
            out@ == items@.unref().take(i as int).filter_map(f),
        decreases items.len() - i,
    {
        proof {
            items@.unref().lemma_filter_map_take_succ(f, i as int);
        }
        match (items[i].number_in("price"), items[i].number_in("quantity")) {
            (Some(p), Some(q)) => {
                out.push((p, q));
            },
            _ => {},
        }
        i = i + 1;
    }
    assert(items@.unref().take(items.len() as int) =~= items@.unref());
    out
}

/// The prices of one side of a book, in payload order.
pub fn prices<N: Amount>(book: &Json<N>, new_key: &str, old_key: &str) -> (r: Vec<N>)
    ensures
        r@ == prices_of(*book, new_key@, old_key@),
{
    let items = book_items(book, new_key, old_key);
    let ghost f = |l: Json<N>| l.number_at("price"@);
    let mut out: Vec<N> = Vec::new();
    let mut i: usize = 0;
    assert(items@.unref().take(0).filter_map(f) =~= Seq::<N>::empty()) by {
        reveal(Seq::filter_map);
    }
    while i < items.len()
        invariant
            i <= items.len(),
            f == (|l: Json<N>| l.number_at("price"@)),
            out@ == items@.unref().take(i as int).filter_map(f),
        decreases items.len() - i,
    {
        proof {
            items@.unref().lemma_filter_map_take_succ(f, i as int);
        }
        match items[i].number_in("price") {
            Some(p) => {
                out.push(p);
            },
            None => {},
        }
        i = i + 1;
    }
    assert(items@.unref().take(items.len() as int) =~= items@.unref());
    out
}

/// The best of some prices: the greatest when `want_max`, else the least.
pub fn best_price<N: Amount>(prices: &Vec<N>, want_max: bool) -> (r: Option<N>)
    ensures
        r == best(prices@, want_max),
{
    let mut acc: Option<N> = None;
    let mut i: usize = 0;
    while i < prices.len()
        invariant
            i <= prices.len(),
            acc == best(prices@.take(i as int), want_max),
        decreases prices.len() - i,
    {
        let p = prices[i];
        assert(prices@.take(i as int + 1).drop_last() =~= prices@.take(i as int));
        acc = Some(
            match acc {
                None => p,
                Some(a) => if want_max {
                    a.larger_of(p)
                } else {
                    a.smaller_of(p)
                },
            },
        );
        i = i + 1;
    }
    assert(prices@.take(prices.len() as int) =~= prices@);
    acc
}

/// The best of the prices of some levels.
pub fn best_level<N: Amount>(levels: &Vec<(N, N)>, want_max: bool) -> (r: Option<N>)
    ensures
        r == best(level_prices(levels@), want_max),
{
    let mut prices: Vec<N> = Vec::new();
    let mut i: usize = 0;
    while i < levels.len()
        invariant
            i <= levels.len(),
            prices@ == level_prices(levels@.take(i as int)),
        decreases levels.len() - i,
    {
        prices.push(levels[i].0);
        i = i + 1;
        assert(prices@ =~= level_prices(levels@.take(i as int)));
    }
    assert(levels@.take(levels.len() as int) =~= levels@);
    best_price(&prices, want_max)
}

/// The best price of one side of a book, in either of its two shapes; nothing
/// when that side holds no priced entry.
pub fn best_of<N: Amount>(book: &Json<N>, new_key: &str, old_key: &str, want_max: bool) -> (r: Option<N>)
    ensures
        r == best(prices_of(*book, new_key@, old_key@), want_max),
{
    best_price(&prices(book, new_key, old_key), want_max)
}

/// A side of a book is read from either of its two shapes: the list of the newer one
/// where there is such a member, else that of the older one. Its levels are the
/// entries with a price and a quantity, its prices those of every priced entry, in the
/// order of the list.
pub proof fn a_book_is_read_in_either_shape<N>(
    book: Json<N>,
    new_key: Seq<char>,
    old_key: Seq<char>,
    listed: Seq<Json<N>>,
)
    requires
        book.inner("orderbook"@, new_key) matches Some(v) ==> v.as_items() == Some(listed),
        book.inner("orderbook"@, new_key) is None ==> {
            let older = book.inner("orderbook"@, "orderBook"@);
            &&& older is Some
            &&& older->0.member(old_key) is Some
            &&& older->0.member(old_key)->0.as_items() == Some(listed)
        },
    ensures
        levels_of(book, new_key, old_key) == listed.filter_map(
            |l: Json<N>|
                if l.number_at("price"@) is Some && l.number_at("quantity"@) is Some {
                    Some((l.number_at("price"@)->0, l.number_at("quantity"@)->0))
                } else {
                    None
                },
        ),
        prices_of(book, new_key, old_key) == listed.filter_map(
            |l: Json<N>| l.number_at("price"@),
        ),
{
    let f = |l: Json<N>| level_of(l);
    let g = |l: Json<N>|
        if l.number_at("price"@) is Some && l.number_at("quantity"@) is Some {
            Some((l.number_at("price"@)->0, l.number_at("quantity"@)->0))
        } else {
            None
        };
    assert(f =~= g);
}

/// A side that neither shape lists holds nothing.
pub proof fn a_side_that_is_not_listed_is_empty<N>(
    book: Json<N>,
    new_key: Seq<char>,
    old_key: Seq<char>,
)
    requires
        book.inner("orderbook"@, new_key) matches Some(v) ==> v.as_items() is None,
        book.inner("orderbook"@, new_key) is None && book.inner(
            "orderbook"@,
            "orderBook"@,
        ) is Some && book.inner("orderbook"@, "orderBook"@)->0.member(old_key) is Some
            ==> book.inner("orderbook"@, "orderBook"@)->0.member(old_key)->0.as_items() is None,
    ensures
        levels_of(book, new_key, old_key).len() == 0,
        prices_of(book, new_key, old_key).len() == 0,
{
}

/// The best of some prices is one of them, and no other of them is better.
pub proof fn best_is_the_extreme(prices: Seq<Micros>, want_max: bool)
    ensures
        best(prices, want_max) is None <==> prices.len() == 0,
        best(prices, want_max) matches Some(b) ==> prices.contains(b) && forall|i: int|
            0 <= i < prices.len() ==> if want_max {
                (#[trigger] prices[i]).units <= b.units
            } else {
                b.units <= (#[trigger] prices[i]).units
            },
    decreases prices.len(),
{
    if prices.len() > 0 {
        let head = prices.drop_last();
        best_is_the_extreme(head, want_max);
        let b = best(prices, want_max)->0;
        if b == prices.last() {
            assert(prices[prices.len() - 1] == b);
        } else {
            let k = choose|k: int| 0 <= k < head.len() && head[k] == b;
            assert(prices[k] == b);
        }
        assert forall|i: int| 0 <= i < prices.len() implies if want_max {
            (#[trigger] prices[i]).units <= b.units
        } else {
            b.units <= (#[trigger] prices[i]).units
        } by {
            if i < head.len() {
                assert(head[i] == prices[i]);
            }
        }
    }
}

} // verus!
