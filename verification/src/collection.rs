//! A collection: the entries of its content files, listed newest first.

use vstd::prelude::*;
use crate::entry::SourceEntry;
use crate::ordering::{listed_before, sort_newest_first, PeriodKeys};

verus! {

/// `p` lists every position of `keys` once, newest end first, then newest
/// start first, then in the order given.
pub open spec fn is_listing(p: Seq<usize>, keys: Seq<PeriodKeys>) -> bool {
    &&& p.len() == keys.len()
    &&& forall|a: int| 0 <= a < p.len() ==> p[a] < keys.len()
    &&& forall|a: int, b: int|
        0 <= a < b < p.len() ==> listed_before(keys, p[a] as int, p[b] as int)
}

/// The ordering keys of entries.
pub open spec fn keys_of(es: Seq<SourceEntry>) -> Seq<PeriodKeys> {
    Seq::new(es.len(), |i: int| es[i].keys)
}

/// `items` taken in the order of `order`: `r[k] == items[order[k]]`.
pub fn arrange<T>(items: Vec<T>, order: &[usize]) -> (r: Vec<T>)
    requires
        order@.len() == items@.len(),
        forall|k: int| 0 <= k < order@.len() ==> order@[k] < items@.len(),
        forall|a: int, b: int| 0 <= a < b < order@.len() ==> order@[a] != order@[b],
    ensures
        r@.len() == order@.len(),
        forall|k: int| 0 <= k < r@.len() ==> r@[k] == items@[order@[k] as int],
{
    let n = items.len();
    let ghost orig = items@;
    let mut rest = items;
    let mut slots: Vec<Option<T>> = Vec::new();
    while rest.len() > 0
        invariant
            n == orig.len(),
            slots@.len() + rest@.len() == n,
            rest@ == orig.subrange(slots@.len() as int, n as int),
            forall|j: int| 0 <= j < slots@.len() ==> slots@[j] == Some(orig[j]),
        decreases rest@.len(),
    {
        let x = rest.remove(0);
        slots.push(Some(x));
        assert(rest@ =~= orig.subrange(slots@.len() as int, n as int));
    }
    let mut out: Vec<T> = Vec::new();
    let mut k: usize = 0;
    while k < n
        invariant
            n == orig.len(),
            order@.len() == n,
            k <= n,
            slots@.len() == n,
            out@.len() == k,
            forall|q: int| 0 <= q < n ==> order@[q] < n,
            forall|a: int, b: int| 0 <= a < b < n ==> order@[a] != order@[b],
            forall|q: int| 0 <= q < k ==> out@[q] == orig[order@[q] as int],
            forall|q: int| k <= q < n ==> slots@[order@[q] as int] is Some,
            forall|j: int| 0 <= j < n && slots@[j] is Some ==> slots@[j] == Some(orig[j]),
        decreases n - k,
    {
        let j = order[k];
        let x = slots[j].take();
        proof {
            assert forall|q: int| k + 1 <= q < n implies slots@[order@[q] as int] is Some by {
                assert(order@[q] != order@[k as int]);
            }
        }
        match x {
            Some(v) => {
                out.push(v);
            },
            None => {
                assert(false);
            },
        }
        k = k + 1;
    }
    out
}

/// List entries newest first: by the end of their period, latest first (an
/// ongoing period before any other), then by its start, latest first, then
/// in the order given.
pub fn sort_entries(es: Vec<SourceEntry>) -> (r: Vec<SourceEntry>)
    ensures
        exists|p: Seq<usize>|
            #[trigger] is_listing(p, keys_of(es@)) && r@ == p.map_values(|i: usize| es@[i as int]),
{
    let mut keys: Vec<PeriodKeys> = Vec::new();
    let mut i: usize = 0;
    while i < es.len()
        invariant
            i <= es@.len(),
            keys@ == keys_of(es@).subrange(0, i as int),
        decreases es@.len() - i,
    {
        keys.push(PeriodKeys { end: es[i].keys.end, start: es[i].keys.start });
        i = i + 1;
        assert(keys@ =~= keys_of(es@).subrange(0, i as int));
    }
    assert(keys@ =~= keys_of(es@));
    let order = sort_newest_first(keys.as_slice());
    let ghost orig = es@;
    let ghost p = order@;
    proof {
        assert forall|a: int, b: int| 0 <= a < b < order@.len() implies order@[a] != order@[b] by {
            assert(listed_before(keys@, order@[a] as int, order@[b] as int));
        }
    }
    let r = arrange(es, order.as_slice());
    proof {
        assert(r@ =~= p.map_values(|i: usize| orig[i as int]));
        assert(is_listing(p, keys_of(orig)));
    }
    r
}

/// Section `i` comes before section `j`: it has a lower `order`, or the
/// same and came first.
pub open spec fn ordered_before(orders: Seq<i64>, i: int, j: int) -> bool {
    orders[i] < orders[j] || (orders[i] == orders[j] && i < j)
}

/// `p` lists every position of `orders` once, by ascending order, then in
/// the order given.
pub open spec fn is_section_listing(p: Seq<usize>, orders: Seq<i64>) -> bool {
    &&& p.len() == orders.len()
    &&& forall|a: int| 0 <= a < p.len() ==> p[a] < orders.len()
    &&& forall|a: int, b: int|
        0 <= a < b < p.len() ==> ordered_before(orders, p[a] as int, p[b] as int)
}

/// The `order` fields of entries.
pub open spec fn orders_of(es: Seq<SourceEntry>) -> Seq<i64> {
    Seq::new(es.len(), |i: int| es[i].order)
}

/// The order in which to list sections whose `order` fields are `orders`.
pub fn sort_by_order(orders: &[i64]) -> (r: Vec<usize>)
    ensures
        is_section_listing(r@, orders@),
{
    let n = orders.len();
    let mut r: Vec<usize> = Vec::new();
    let mut i: usize = 0;
    while i < n
        invariant
            n == orders@.len(),
            i <= n,
            r@.len() == i,
            forall|a: int| 0 <= a < r@.len() ==> r@[a] < i,
            forall|a: int, b: int|
                0 <= a < b < r@.len() ==> ordered_before(orders@, r@[a] as int, r@[b] as int),
        decreases n - i,
    {
        let mut p: usize = 0;
        while p < r.len() && orders[r[p]] <= orders[i]
            invariant
                n == orders@.len(),
                i < n,
                p <= r@.len(),
                forall|a: int| 0 <= a < r@.len() ==> r@[a] < i,
                forall|a: int| 0 <= a < p ==> ordered_before(orders@, r@[a] as int, i as int),
            decreases r@.len() - p,
        {
            p = p + 1;
        }
        let ghost old_r = r@;
        r.insert(p, i);
        proof {
            assert(r@ =~= old_r.subrange(0, p as int).push(i).add(
                old_r.subrange(p as int, old_r.len() as int),
            ));
            assert forall|a: int, b: int| 0 <= a < b < r@.len() implies ordered_before(
                orders@,
                r@[a] as int,
                r@[b] as int,
            ) by {
                if a == p && b > p + 1 {
                    assert(ordered_before(orders@, old_r[p as int] as int, old_r[b - 1] as int));
                }
            }
        }
        i = i + 1;
    }
    r
}

/// List sections by ascending `order`, then in the order given.
pub fn sort_sections(es: Vec<SourceEntry>) -> (r: Vec<SourceEntry>)
    ensures
        exists|p: Seq<usize>|
            #[trigger] is_section_listing(p, orders_of(es@)) && r@ == p.map_values(
                |i: usize| es@[i as int],
            ),
{
    let mut orders: Vec<i64> = Vec::new();
    let mut i: usize = 0;
    while i < es.len()
        invariant
            i <= es@.len(),
            orders@ == orders_of(es@).subrange(0, i as int),
        decreases es@.len() - i,
    {
        orders.push(es[i].order);
        i = i + 1;
        assert(orders@ =~= orders_of(es@).subrange(0, i as int));
    }
    assert(orders@ =~= orders_of(es@));
    let order = sort_by_order(orders.as_slice());
    let ghost orig = es@;
    let ghost p = order@;
    proof {
        assert forall|a: int, b: int| 0 <= a < b < order@.len() implies order@[a] != order@[b] by {
            assert(ordered_before(orders@, order@[a] as int, order@[b] as int));
        }
    }
    let r = arrange(es, order.as_slice());
    proof {
        assert(r@ =~= p.map_values(|i: usize| orig[i as int]));
        assert(is_section_listing(p, orders_of(orig)));
    }
    r
}

/// Newest first: in a listing, an entry is never followed by one whose
/// period ends later in the calendar (a later year, or the same year and a
/// later month); among entries that end together, never by one that starts
/// later; and entries with the same keys keep the order given.
pub proof fn lemma_listing_newest_end_first(p: Seq<usize>, keys: Seq<PeriodKeys>, a: int, b: int)
    requires
        is_listing(p, keys),
        0 <= a < b < p.len(),
    ensures
        ({
            let x = keys[p[a] as int];
            let y = keys[p[b] as int];
            &&& !(y.end.0 > x.end.0 || (y.end.0 == x.end.0 && y.end.1 > x.end.1))
            &&& x.end == y.end ==> !(y.start.0 > x.start.0 || (y.start.0 == x.start.0 && y.start.1
                > x.start.1))
            &&& x.end == y.end && x.start == y.start ==> p[a] < p[b]
        }),
{
    assert(listed_before(keys, p[a] as int, p[b] as int));
}

/// Sections are listed by ascending `order`.
pub proof fn lemma_sections_ascending(p: Seq<usize>, orders: Seq<i64>, a: int, b: int)
    requires
        is_section_listing(p, orders),
        0 <= a < b < p.len(),
    ensures
        orders[p[a] as int] <= orders[p[b] as int],
{
    assert(ordered_before(orders, p[a] as int, p[b] as int));
}

} // verus!
