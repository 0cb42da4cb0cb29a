pub mod account;
pub mod amm;
pub mod api;
pub mod catalog;
pub mod orders;
pub mod properties;
pub mod quote;
pub mod readouts;
pub mod rewards;

use vstd::prelude::*;

use crate::failure::{verdict, Failure, FailureView};
use crate::json::{entry, find_entry, lemma_filter_step};
use crate::text::{letters, same, str_texts};

verus! {

/// A payload about to be shown: a record with its entries, or anything else.
#[derive(Debug)]
pub enum Payload<T> {
    Record(Vec<(String, T)>),
    Other(T),
}

/// A payload under its schema.
#[derive(Debug)]
pub struct Tagged<T> {
    pub tag: String,
    pub entries: Vec<(String, T)>,
}

pub open spec fn schema_text(schema: Seq<char>) -> Seq<char> {
    schema + "/v1"@
}

/// The entries of a record that stand beside its tag: a `schema` of the record's own
/// gives way.
pub open spec fn beside_tag<T>(entries: Seq<(String, T)>) -> Seq<(String, T)> {
    entries.filter(|e: (String, T)| e.0@ != "schema"@)
}

fn drop_own_schema<T>(entries: Vec<(String, T)>) -> (r: Vec<(String, T)>)
    ensures
        r@ == beside_tag(entries@),
{
    let ghost all = entries@;
    let ghost keep = |e: (String, T)| e.0@ != "schema"@;
    let ghost mut seen: int = 0;
    let mut entries = entries;
    let mut i: usize = 0;
    assert(all.take(0).filter(keep) =~= Seq::<(String, T)>::empty()) by {
        reveal(Seq::filter);
    }
    assert(entries@ =~= all.take(0).filter(keep) + all.skip(0));
    while i < entries.len()
        invariant
            0 <= seen <= all.len(),
            keep == (|e: (String, T)| e.0@ != "schema"@),
            i == all.take(seen).filter(keep).len(),
            entries@ == all.take(seen).filter(keep) + all.skip(seen),
        decreases entries.len() - i,
    {
        let ghost kept = all.take(seen).filter(keep);
        assert(entries@[i as int] == all[seen]);
        proof {
            lemma_filter_step(all, seen, keep);
        }
        if same(entries[i].0.as_str(), "schema") {
            entries.remove(i);
            assert(entries@ =~= kept + all.skip(seen + 1));
        } else {
            i = i + 1;
            assert(entries@ =~= kept.push(all[seen]) + all.skip(seen + 1));
        }
        proof {
            seen = seen + 1;
        }
    }
    assert(all.take(seen) =~= all);
    assert(entries@ =~= all.filter(keep));
    entries
}

/// Put a payload under its schema: the entries of a record stand beside the tag,
/// anything else stands under `data`.
pub fn tagged<T>(schema: &str, payload: Payload<T>) -> (r: Tagged<T>)
    ensures
        r.tag@ == schema_text(schema@),
        match payload {
            Payload::Record(entries) => r.entries@ == beside_tag(entries@),
            Payload::Other(v) => r.entries@.len() == 1 && r.entries@[0].0@ == "data"@
                && r.entries@[0].1 == v,
        },
{
    let tag = schema.to_owned().concat("/v1");
    match payload {
        Payload::Record(entries) => Tagged { tag, entries: drop_own_schema(entries) },
        Payload::Other(v) => {
            let mut entries: Vec<(String, T)> = Vec::new();
            entries.push(("data".to_owned(), v));
            Tagged { tag, entries }
        },
    }
}

/// What stands between an operation and its execution.
#[derive(Debug)]
pub enum Gate {
    Open,
    Ask(String),
    Closed(Failure),
}

pub enum GateView {
    Open,
    Ask(Seq<char>),
    Closed(FailureView),
}

impl View for Gate {
    type V = GateView;

    open spec fn view(&self) -> GateView {
        match self {
            Gate::Open => GateView::Open,
            Gate::Ask(s) => GateView::Ask(s@),
            Gate::Closed(e) => GateView::Closed(e@),
        }
    }
}

/// A change goes through when it is forced. Otherwise an operator at a terminal is
/// asked, and where there is none it does not go through.
pub open spec fn gate_of(force: bool, interactive: bool, summary: Seq<char>) -> GateView {
    if force {
        GateView::Open
    } else if !interactive {
        GateView::Closed(
            FailureView::ConfirmationRequired(
                summary + " — pass --force to proceed non-interactively"@,
            ),
        )
    } else {
        GateView::Ask(summary + " — proceed? [y/N] "@)
    }
}

pub fn gate(force: bool, interactive: bool, summary: &str) -> (r: Gate)
    ensures
        r@ == gate_of(force, interactive, summary@),
{
    if force {
        return Gate::Open;
    }
    if !interactive {
        return Gate::Closed(
            Failure::ConfirmationRequired(
                summary.to_owned().concat(" — pass --force to proceed non-interactively"),
            ),
        );
    }
    Gate::Ask(summary.to_owned().concat(" — proceed? [y/N] "))
}

/// White space as Unicode has it.
pub open spec fn blank(c: char) -> bool {
    let n = c as u32;
    (9 <= n && n <= 13) || n == 0x20 || n == 0x85 || n == 0xa0 || n == 0x1680 || (0x2000 <= n && n
        <= 0x200a) || n == 0x2028 || n == 0x2029 || n == 0x202f || n == 0x205f || n == 0x3000
}

fn is_blank(c: char) -> (r: bool)
    ensures
        r == blank(c),
{
    let n: u32 = c as u32;
    (9 <= n && n <= 13) || n == 0x20 || n == 0x85 || n == 0xa0 || n == 0x1680 || (0x2000 <= n && n
        <= 0x200a) || n == 0x2028 || n == 0x2029 || n == 0x202f || n == 0x205f || n == 0x3000
}

/// Whether two characters are the same but for the case of an ASCII letter; the
/// first of them is in lower case.
pub open spec fn same_letter(lower: char, c: char) -> bool {
    c == lower || (lower == 'y' && c == 'Y') || (lower == 'e' && c == 'E') || (lower == 's' && c
        == 'S')
}

/// Whether a text is `y` or `yes`, in any case.
pub open spec fn is_yes(s: Seq<char>) -> bool {
    (s.len() == 1 && same_letter('y', s[0])) || (s.len() == 3 && same_letter('y', s[0])
        && same_letter('e', s[1]) && same_letter('s', s[2]))
}

/// A reply says yes when nothing but white space stands around `y` or `yes`.
pub open spec fn says_yes(reply: Seq<char>) -> bool {
    exists|i: int, j: int| #[trigger] stands_alone(reply, i, j) && is_yes(reply.subrange(i, j))
}

/// Whether the part from `i` to `j` has nothing but white space around it.
pub open spec fn stands_alone(s: Seq<char>, i: int, j: int) -> bool {
    &&& 0 <= i <= j <= s.len()
    &&& forall|k: int| 0 <= k < i ==> blank(#[trigger] s[k])
    &&& forall|k: int| j <= k < s.len() ==> blank(#[trigger] s[k])
}

proof fn lemma_one_core(s: Seq<char>, a: int, b: int, i: int, j: int)
    requires
        stands_alone(s, a, b),
        a == b || (!blank(s[a]) && !blank(s[b - 1])),
        stands_alone(s, i, j),
        is_yes(s.subrange(i, j)),
    ensures
        a == i,
        b == j,
{
    let core = s.subrange(i, j);
    assert(!blank(core[0]) && !blank(core[core.len() - 1]));
    assert(core[0] == s[i] && core[core.len() - 1] == s[j - 1]);
    if a == b {
        assert(blank(s[i]));
    }
}

/// Whether the operator agreed.
pub fn affirmative(reply: &str) -> (r: bool)
    ensures
        r == says_yes(reply@),
{
    let s = letters(reply);
    let mut a: usize = 0;
    while a < s.len() && is_blank(s[a])
        invariant
            a <= s.len(),
            forall|k: int| 0 <= k < a ==> blank(#[trigger] s@[k]),
        decreases s.len() - a,
    {
        a = a + 1;
    }
    let mut b: usize = s.len();
    while b > a && is_blank(s[b - 1])
        invariant
            a <= b <= s.len(),
            forall|k: int| b <= k < s.len() ==> blank(#[trigger] s@[k]),
        decreases b,
    {
        b = b - 1;
    }
    let ghost core = s@.subrange(a as int, b as int);
    assert(stands_alone(s@, a as int, b as int));
    let n: usize = b - a;
    let yes: bool = (n == 1 && (s[a] == 'y' || s[a] == 'Y')) || (n == 3 && (s[a] == 'y' || s[a]
        == 'Y') && (s[a + 1] == 'e' || s[a + 1] == 'E') && (s[a + 2] == 's' || s[a + 2] == 'S'));
    assert(yes == is_yes(core));
    proof {
        if says_yes(s@) && !yes {
            let (i, j) = choose|i: int, j: int| #[trigger]
                stands_alone(s@, i, j) && is_yes(s@.subrange(i, j));
            lemma_one_core(s@, a as int, b as int, i, j);
            assert(false);
        }
    }
    yes
}

pub open spec fn aborted_text() -> Seq<char> {
    "aborted by user"@
}

/// Take the operator's reply.
pub fn take_reply(reply: &str) -> (r: Result<(), Failure>)
    ensures
        verdict(r) == if says_yes(reply@) {
            Ok(())
        } else {
            Err(FailureView::ConfirmationRequired(aborted_text()))
        },
{
    if affirmative(reply) {
        Ok(())
    } else {
        Err(Failure::ConfirmationRequired("aborted by user".to_owned()))
    }
}

/// The columns an item has, of those asked for and in that order.
pub open spec fn columns_of<V>(item: Seq<(String, V)>, columns: Seq<Seq<char>>) -> Seq<
    (Seq<char>, V),
>
    decreases columns.len(),
{
    if columns.len() == 0 {
        Seq::empty()
    } else {
        let rest = columns_of(item, columns.drop_last());
        match entry(item, columns.last()) {
            Some(v) => rest.push((columns.last(), v)),
            None => rest,
        }
    }
}

/// A row of borrowed fields.
pub open spec fn field_views<'a, V>(row: Seq<(&'a str, &'a V)>) -> Seq<(Seq<char>, V)> {
    row.map_values(|f: (&'a str, &'a V)| (f.0@, *f.1))
}

fn pick<'a, V>(item: &'a Vec<(String, V)>, columns: &Vec<&'a str>) -> (r: Vec<(&'a str, &'a V)>)
    ensures
        field_views(r@) == columns_of(item@, str_texts(columns@)),
{
    let ghost all = str_texts(columns@);
    let mut row: Vec<(&'a str, &'a V)> = Vec::new();
    let mut i: usize = 0;
    assert(field_views(row@) =~= columns_of(item@, all.take(0)));
    while i < columns.len()
        invariant
            i <= columns.len(),
            all == str_texts(columns@),
            field_views(row@) == columns_of(item@, all.take(i as int)),
        decreases columns.len() - i,
    {
        let column: &'a str = columns[i];
        assert(all.take(i as int + 1).drop_last() =~= all.take(i as int));
        assert(all.take(i as int + 1).last() == column@);
        if let Some(v) = find_entry(item, column) {
            let ghost before = row@;
            row.push((column, v));
            assert(field_views(row@) =~= field_views(before).push((column@, *v)));
        }
        i = i + 1;
    }
    assert(all.take(columns.len() as int) =~= all);
    row
}

/// Pull selected columns out of some records for a table.
pub fn table_view<'a, V>(items: &'a Vec<Vec<(String, V)>>, columns: &Vec<&'a str>) -> (r: Vec<
    Vec<(&'a str, &'a V)>,
>)
    ensures
        r@.map_values(|row: Vec<(&'a str, &'a V)>| field_views(row@)) == items@.map_values(
            |item: Vec<(String, V)>| columns_of(item@, str_texts(columns@)),
        ),
{
    let ghost show = |row: Vec<(&'a str, &'a V)>| field_views(row@);
    let ghost f = |item: Vec<(String, V)>| columns_of(item@, str_texts(columns@));
    let mut out: Vec<Vec<(&'a str, &'a V)>> = Vec::new();
    let mut i: usize = 0;
    assert(out@.map_values(show) =~= items@.take(0).map_values(f));
    while i < items.len()
        invariant
            i <= items.len(),
            show == (|row: Vec<(&'a str, &'a V)>| field_views(row@)),
            f == (|item: Vec<(String, V)>| columns_of(item@, str_texts(columns@))),
            out@.map_values(show) == items@.take(i as int).map_values(f),
        decreases items.len() - i,
    {
        let ghost before = out@;
        out.push(pick(&items[i], columns));
        assert(out@.map_values(show) =~= before.map_values(show).push(f(items@[i as int])));
        i = i + 1;
        assert(out@.map_values(show) =~= items@.take(i as int).map_values(f));
    }
    assert(items@.take(items.len() as int) =~= items@);
    out
}

/// An unforced change without an operator at a terminal never goes through.
pub proof fn unattended_changes_are_refused(summary: Seq<char>)
    ensures
        gate_of(false, false, summary) is Closed,
{
}

/// A forced change goes through, whoever is there. One that is not forced is put to an
/// operator at a terminal, in the words it was summed up in, and refused where there is
/// none.
pub proof fn a_change_is_forced_or_asked_about(force: bool, interactive: bool, summary: Seq<char>)
    ensures
        gate_of(force, interactive, summary) is Open <==> force,
        !force && interactive ==> gate_of(force, interactive, summary) == GateView::Ask(
            summary + " — proceed? [y/N] "@,
        ),
        !force && !interactive ==> gate_of(force, interactive, summary) == GateView::Closed(
            FailureView::ConfirmationRequired(
                summary + " — pass --force to proceed non-interactively"@,
            ),
        ),
{
}

/// Whether a text is the letter y or the word yes, each letter in either case.
pub open spec fn agrees(word: Seq<char>) -> bool {
    let y = word.len() > 0 && (word[0] == 'y' || word[0] == 'Y');
    let es = word.len() == 3 && (word[1] == 'e' || word[1] == 'E') && (word[2] == 's' || word[2]
        == 'S');
    y && (word.len() == 1 || es)
}

/// A reply agrees exactly when it is such a word with white space around it.
pub proof fn only_yes_agrees(before: Seq<char>, word: Seq<char>, after: Seq<char>)
    requires
        forall|i: int| 0 <= i < before.len() ==> blank(#[trigger] before[i]),
        forall|i: int| 0 <= i < after.len() ==> blank(#[trigger] after[i]),
        word.len() > 0 ==> !blank(word[0]) && !blank(word.last()),
    ensures
        says_yes(before + word + after) <==> agrees(word),
{
    let reply = before + word + after;
    let a = before.len() as int;
    let b = a + word.len();
    assert(stands_alone(reply, a, b)) by {
        assert forall|k: int| 0 <= k < a implies blank(#[trigger] reply[k]) by {
            assert(reply[k] == before[k]);
        }
        assert forall|k: int| b <= k < reply.len() implies blank(#[trigger] reply[k]) by {
            assert(reply[k] == after[k - b]);
        }
    }
    assert(reply.subrange(a, b) =~= word);
    assert(agrees(word) == is_yes(word));
    if says_yes(reply) {
        let (i, j) = choose|i: int, j: int| #[trigger]
            stands_alone(reply, i, j) && is_yes(reply.subrange(i, j));
        if word.len() > 0 {
            assert(reply[a] == word[0] && reply[b - 1] == word.last());
        }
        lemma_one_core(reply, a, b, i, j);
    }
}

/// Nothing that can be seen counts as white space: a letter, a digit or any other
/// printing character of ASCII is not blank, while a space, a tab and a line end are.
pub proof fn what_can_be_seen_is_not_blank(c: char)
    ensures
        '!' <= c && c <= '~' ==> !blank(c),
        c == ' ' || c == '\t' || c == '\n' || c == '\r' ==> blank(c),
{
}

/// Exactly these code points are white space: five controls and the space, the next
/// line and the no-break space, and the spaces and separators beyond Latin.
pub proof fn white_space_is_a_short_list(c: char)
    ensures
        blank(c) <==> {
            let n = c as u32;
            let latin = seq![0x20u32, 0x85, 0xa0];
            let beyond = seq![0x1680u32, 0x2028, 0x2029, 0x202f, 0x205f, 0x3000];
            latin.contains(n) || beyond.contains(n) || 0x9 <= n <= 0xd || 0x2000 <= n <= 0x200a
        },
{
    let n = c as u32;
    let latin = seq![0x20u32, 0x85, 0xa0];
    let beyond = seq![0x1680u32, 0x2028, 0x2029, 0x202f, 0x205f, 0x3000];
    assert(latin[0] == 0x20 && latin[1] == 0x85 && latin[2] == 0xa0);
    assert(beyond[0] == 0x1680 && beyond[1] == 0x2028 && beyond[2] == 0x2029);
    assert(beyond[3] == 0x202f && beyond[4] == 0x205f && beyond[5] == 0x3000);
}

/// A row of a table holds the columns asked for that the item has, each with the value
/// the item files under it, in the order they were asked for.
pub proof fn a_row_holds_the_columns_an_item_has<V>(
    item: Seq<(String, V)>,
    columns: Seq<Seq<char>>,
    column: Seq<char>,
)
    ensures
        columns_of(item, Seq::<Seq<char>>::empty()) == Seq::<(Seq<char>, V)>::empty(),
        columns_of(item, columns.push(column)) == if entry(item, column) is Some {
            columns_of(item, columns).push((column, entry(item, column)->0))
        } else {
            columns_of(item, columns)
        },
{
    assert(columns.push(column).drop_last() =~= columns);
}

/// Everything a record holds stands beside its tag but a `schema` of its own.
pub proof fn only_an_own_schema_gives_way<T>(entries: Seq<(String, T)>, e: (String, T))
    ensures
        beside_tag(entries).contains(e) <==> entries.contains(e) && e.0@ != "schema"@,
{
    let keep = |e: (String, T)| e.0@ != "schema"@;
    let kept = entries.filter(keep);
    if kept.contains(e) {
        let k = choose|k: int| 0 <= k < kept.len() && kept[k] == e;
        entries.lemma_filter_pred(keep, k);
        entries.lemma_filter_contains_rev(keep, e);
    }
    if entries.contains(e) && keep(e) {
        let k = choose|k: int| 0 <= k < entries.len() && entries[k] == e;
        entries.lemma_filter_contains(keep, k);
    }
}

} // verus!
