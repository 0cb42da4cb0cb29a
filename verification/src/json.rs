use vstd::prelude::*;

use crate::amount::Amount;
use crate::text::{chars_of, same};

verus! {

/// A payload of the marketplace API.
///
/// A number carries its value and, when it is written as a non-negative integer,
/// that integer. The keys of a record are distinct; the first entry wins.
#[derive(Debug)]
pub enum Json<N> {
    Null,
    Bool(bool),
    Number { value: N, whole: Option<u64> },
    Text(String),
    List(Vec<Json<N>>),
    Record(Vec<(String, Json<N>)>),
}

/// The value filed under `key`.
pub open spec fn entry<V>(entries: Seq<(String, V)>, key: Seq<char>) -> Option<V>
    decreases entries.len(),
{
    if entries.len() == 0 {
        None
    } else if entries[0].0@ == key {
        Some(entries[0].1)
    } else {
        entry(entries.skip(1), key)
    }
}

/// An optional reference as an optional value.
pub open spec fn owned<T>(r: Option<&T>) -> Option<T> {
    match r {
        Some(v) => Some(*v),
        None => None,
    }
}

/// The value filed under `key`.
pub fn find_entry<'a, V>(entries: &'a Vec<(String, V)>, key: &str) -> (r: Option<&'a V>)
    ensures
        owned(r) == entry(entries@, key@),
{
    let mut i: usize = 0;
    assert(entries@.skip(0) == entries@);
    while i < entries.len()
        invariant
            i <= entries.len(),
            entry(entries@, key@) == entry(entries@.skip(i as int), key@),
        decreases entries.len() - i,
    {
        if same(entries[i].0.as_str(), key) {
            return Some(&entries[i].1);
        }
        assert(entries@.skip(i as int).skip(1) == entries@.skip(i as int + 1));
        i = i + 1;
    }
    None
}

impl<N> Json<N> {
    /// The member of a record; nothing for a payload of another shape.
    pub open spec fn member(self, key: Seq<char>) -> Option<Json<N>> {
        match self {
            Json::Record(entries) => entry(entries@, key),
            _ => None,
        }
    }

    pub open spec fn as_number(self) -> Option<N> {
        match self {
            Json::Number { value, whole } => Some(value),
            _ => None,
        }
    }

    pub open spec fn as_whole(self) -> Option<u64> {
        match self {
            Json::Number { value, whole } => whole,
            _ => None,
        }
    }

    pub open spec fn as_text(self) -> Option<Seq<char>> {
        match self {
            Json::Text(s) => Some(s@),
            _ => None,
        }
    }

    pub open spec fn as_items(self) -> Option<Seq<Json<N>>> {
        match self {
            Json::List(items) => Some(items@),
            _ => None,
        }
    }

    pub open spec fn number_at(self, key: Seq<char>) -> Option<N> {
        match self.member(key) {
            Some(v) => v.as_number(),
            None => None,
        }
    }

    pub open spec fn whole_at(self, key: Seq<char>) -> Option<u64> {
        match self.member(key) {
            Some(v) => v.as_whole(),
            None => None,
        }
    }

    pub open spec fn text_at(self, key: Seq<char>) -> Option<Seq<char>> {
        match self.member(key) {
            Some(v) => v.as_text(),
            None => None,
        }
    }

    /// The text filed under `key`, or the empty text.
    pub open spec fn name_at(self, key: Seq<char>) -> Seq<char> {
        match self.text_at(key) {
            Some(s) => s,
            None => Seq::empty(),
        }
    }

    /// The list filed under `key`, or the empty list.
    pub open spec fn items_at(self, key: Seq<char>) -> Seq<Json<N>> {
        match self.member(key) {
            Some(v) => match v.as_items() {
                Some(items) => items,
                None => Seq::empty(),
            },
            None => Seq::empty(),
        }
    }

    /// The member two records deep.
    pub open spec fn inner(self, first: Seq<char>, second: Seq<char>) -> Option<Json<N>> {
        match self.member(first) {
            Some(v) => v.member(second),
            None => None,
        }
    }

    pub fn get(&self, key: &str) -> (r: Option<&Json<N>>)
        ensures
            owned(r) == self.member(key@),
    {
        match self {
            Json::Record(entries) => find_entry(entries, key),
            _ => None,
        }
    }

    pub fn get_inner(&self, first: &str, second: &str) -> (r: Option<&Json<N>>)
        ensures
            owned(r) == self.inner(first@, second@),
    {
        match self.get(first) {
            Some(v) => v.get(second),
            None => None,
        }
    }

    pub fn text(&self) -> (r: Option<&str>)
        ensures
            chars_of(r) == self.as_text(),
    {
        match self {
            Json::Text(s) => Some(s.as_str()),
            _ => None,
        }
    }

    pub fn whole(&self) -> (r: Option<u64>)
        ensures
            r == self.as_whole(),
    {
        match self {
            Json::Number { value: _, whole } => *whole,
            _ => None,
        }
    }

    pub fn items(&self) -> (r: Option<Vec<&Json<N>>>)
        ensures
            r is Some == self.as_items() is Some,
            r matches Some(v) ==> Some(v@.unref()) == self.as_items(),
    {
        match self {
            Json::List(items) => {
                let mut out: Vec<&Json<N>> = Vec::new();
                let mut i: usize = 0;
                while i < items.len()
                    invariant
                        i <= items.len(),
                        out@.unref() == items@.take(i as int),
                    decreases items.len() - i,
                {
                    let ghost before = out@;
                    out.push(&items[i]);
                    assert(out@.unref() =~= before.unref().push(items@[i as int]));
                    i = i + 1;
                    assert(out@.unref() =~= items@.take(i as int));
                }
                assert(out@.unref() =~= items@);
                Some(out)
            },
            _ => None,
        }
    }

    pub fn whole_in(&self, key: &str) -> (r: Option<u64>)
        ensures
            r == self.whole_at(key@),
    {
        match self.get(key) {
            Some(v) => v.whole(),
            None => None,
        }
    }

    pub fn text_in(&self, key: &str) -> (r: Option<&str>)
        ensures
            chars_of(r) == self.text_at(key@),
    {
        match self.get(key) {
            Some(v) => v.text(),
            None => None,
        }
    }

    pub fn name_in(&self, key: &str) -> (r: &str)
        ensures
            r@ == self.name_at(key@),
    {
        match self.text_in(key) {
            Some(s) => s,
            None => {
                proof {
                    reveal_strlit("");
                }
                assert(""@ =~= Seq::<char>::empty());
                ""
            },
        }
    }

    /// Whether the text filed under `key` is `want`.
    pub fn text_is(&self, key: &str, want: &str) -> (r: bool)
        ensures
            r == (self.text_at(key@) == Some(want@)),
    {
        match self.text_in(key) {
            Some(s) => same(s, want),
            None => false,
        }
    }

    pub fn items_in(&self, key: &str) -> (r: Vec<&Json<N>>)
        ensures
            r@.unref() == self.items_at(key@),
    {
        match self.get(key) {
            Some(v) => match v.items() {
                Some(items) => items,
                None => Vec::new(),
            },
            None => Vec::new(),
        }
    }
}

impl<N: Amount> Json<N> {
    /// The number filed under `key`, or `default`.
    pub open spec fn number_or(self, key: Seq<char>, default: N) -> N {
        match self.number_at(key) {
            Some(v) => v,
            None => default,
        }
    }

    /// The number filed under `key`, or zero.
    pub open spec fn amount_at(self, key: Seq<char>) -> N {
        self.number_or(key, N::whole(0))
    }

    pub fn number(&self) -> (r: Option<N>)
        ensures
            r == self.as_number(),
    {
        match self {
            Json::Number { value, whole: _ } => Some(*value),
            _ => None,
        }
    }

    pub fn number_in(&self, key: &str) -> (r: Option<N>)
        ensures
            r == self.number_at(key@),
    {
        match self.get(key) {
            Some(v) => v.number(),
            None => None,
        }
    }

    pub fn number_in_or(&self, key: &str, default: N) -> (r: N)
        ensures
            r == self.number_or(key@, default),
    {
        match self.number_in(key) {
            Some(v) => v,
            None => default,
        }
    }

    pub fn amount_in(&self, key: &str) -> (r: N)
        ensures
            r == self.amount_at(key@),
    {
        self.number_in_or(key, N::of(0))
    }
}

/// The items that pass a test on the text filed under `key`.
pub open spec fn with_text<N>(
    items: Seq<Json<N>>,
    key: Seq<char>,
    want: Seq<char>,
) -> Seq<Json<N>> {
    items.filter(|o: Json<N>| o.text_at(key) == Some(want))
}

/// The items whose text under `key` is `want`, in order.
pub fn select_text<'a, N>(items: &Vec<&'a Json<N>>, key: &str, want: &str) -> (r: Vec<&'a Json<N>>)
    ensures
        r@.unref() == with_text(items@.unref(), key@, want@),
{
    let ghost keep = |o: Json<N>| o.text_at(key@) == Some(want@);
    let mut out: Vec<&'a Json<N>> = Vec::new();
    let mut i: usize = 0;
    while i < items.len()
        invariant
            i <= items.len(),
            keep == (|o: Json<N>| o.text_at(key@) == Some(want@)),
            out@.unref() == items@.unref().take(i as int).filter(keep),
        decreases items.len() - i,
    {
        let o = items[i];
        proof {
            lemma_filter_step(items@.unref(), i as int, keep);
        }
        if o.text_is(key, want) {
            let ghost before = out@;
            out.push(o);
            assert(out@.unref() =~= before.unref().push(*o));
        }
        i = i + 1;
    }
    assert(items@.unref().take(items.len() as int) =~= items@.unref());
    out
}

/// Filtering one item more.
pub proof fn lemma_filter_step<T>(s: Seq<T>, i: int, keep: spec_fn(T) -> bool)
    requires
        0 <= i < s.len(),
    ensures
        s.take(i + 1).filter(keep) == if keep(s[i]) {
            s.take(i).filter(keep).push(s[i])
        } else {
            s.take(i).filter(keep)
        },
{
    reveal(Seq::filter);
    assert(s.take(i + 1).drop_last() == s.take(i));
}

/// The two halves of a split hold as many items as the whole.
pub proof fn lemma_filter_splits<T>(s: Seq<T>, p: spec_fn(T) -> bool, q: spec_fn(T) -> bool)
    requires
        forall|x: T| #[trigger] p(x) == !q(x),
    ensures
        s.filter(p).len() + s.filter(q).len() == s.len(),
    decreases s.len(),
{
    reveal(Seq::filter);
    if s.len() > 0 {
        lemma_filter_splits(s.drop_last(), p, q);
        assert(p(s.last()) == !q(s.last()));
    }
}

/// The first item whose text under `key` is `want`.
pub open spec fn first_with_text<N>(
    items: Seq<Json<N>>,
    key: Seq<char>,
    want: Seq<char>,
) -> Option<Json<N>>
    decreases items.len(),
{
    if items.len() == 0 {
        None
    } else if items[0].text_at(key) == Some(want) {
        Some(items[0])
    } else {
        first_with_text(items.skip(1), key, want)
    }
}

/// The first item whose text under `key` is `want`.
pub fn find_text<'a, N>(items: &Vec<&'a Json<N>>, key: &str, want: &str) -> (r: Option<&'a Json<N>>)
    ensures
        owned(r) == first_with_text(items@.unref(), key@, want@),
{
    let mut i: usize = 0;
    assert(items@.unref().skip(0) =~= items@.unref());
    while i < items.len()
        invariant
            i <= items.len(),
            first_with_text(items@.unref(), key@, want@) == first_with_text(
                items@.unref().skip(i as int),
                key@,
                want@,
            ),
        decreases items.len() - i,
    {
        if items[i].text_is(key, want) {
            return Some(items[i]);
        }
        assert(items@.unref().skip(i as int).skip(1) =~= items@.unref().skip(i as int + 1));
        i = i + 1;
    }
    None
}

/// The first match is the item that matches while none before it does; without a match
/// nothing is found.
pub proof fn the_first_match_is_found<N>(
    items: Seq<Json<N>>,
    key: Seq<char>,
    want: Seq<char>,
    k: int,
)
    requires
        0 <= k <= items.len(),
        forall|j: int| 0 <= j < k ==> (#[trigger] items[j]).text_at(key) != Some(want),
        k < items.len() ==> items[k].text_at(key) == Some(want),
    ensures
        first_with_text(items, key, want) == if k < items.len() {
            Some(items[k])
        } else {
            None
        },
    decreases items.len(),
{
    if k > 0 {
        let tail = items.skip(1);
        assert(items[0].text_at(key) != Some(want));
        assert forall|j: int| 0 <= j < k - 1 implies (#[trigger] tail[j]).text_at(key) != Some(
            want,
        ) by {
            assert(tail[j] == items[j + 1]);
        }
        the_first_match_is_found(tail, key, want, k - 1);
    }
}

/// The value filed under a key is that of the first entry that carries the key; a key
/// that no entry carries has none.
pub proof fn the_first_entry_wins<V>(entries: Seq<(String, V)>, key: Seq<char>, k: int)
    requires
        0 <= k <= entries.len(),
        forall|j: int| 0 <= j < k ==> (#[trigger] entries[j]).0@ != key,
        k < entries.len() ==> entries[k].0@ == key,
    ensures
        entry(entries, key) == if k < entries.len() {
            Some(entries[k].1)
        } else {
            None
        },
    decreases entries.len(),
{
    if k > 0 {
        let tail = entries.skip(1);
        assert(entries[0].0@ != key);
        assert forall|j: int| 0 <= j < k - 1 implies (#[trigger] tail[j]).0@ != key by {
            assert(tail[j] == entries[j + 1]);
        }
        the_first_entry_wins(tail, key, k - 1);
    }
}

} // verus!
