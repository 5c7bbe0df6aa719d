//! Merging the publications of several queries.

use crate::openalex::{Work, WorksResponse};
use crate::text::{
    comes_before, lemma_push_contains, precedes, precedes_is_irreflexive, precedes_is_total,
    precedes_is_transitive,
};
use vstd::hash_set::StringHashSet;
use vstd::prelude::*;

verus! {

/// The text by which a work is dated; empty where it has no date.
pub open spec fn date_of(work: Work) -> Seq<char> {
    match work.publication_date {
        Some(date) => date@,
        None => Seq::empty(),
    }
}

/// Whether two works carry the same id.
pub open spec fn same_id(a: Work, b: Work) -> bool {
    match (a.id, b.id) {
        (Some(x), Some(y)) => x@ == y@,
        _ => false,
    }
}

/// Whether a work of `works` carries the id of `work`.
pub open spec fn id_occurs(works: Seq<Work>, work: Work) -> bool {
    exists|i: int| 0 <= i < works.len() && same_id(#[trigger] works[i], work)
}

/// The works whose id did not occur before them, and all those without an id.
pub open spec fn first_of_each(works: Seq<Work>) -> Seq<Work>
    decreases works.len(),
{
    if works.len() == 0 {
        works
    } else {
        let earlier = first_of_each(works.drop_last());
        if id_occurs(works.drop_last(), works.last()) {
            earlier
        } else {
            earlier.push(works.last())
        }
    }
}

/// Whether no work is dated later than one before it.
pub open spec fn newest_first(works: Seq<Work>) -> bool {
    forall|i: int, j: int|
        0 <= i < j < works.len() ==> !precedes(
            date_of(#[trigger] works[i]),
            date_of(#[trigger] works[j]),
        )
}

/// The works of `works` that are dated `date`.
pub open spec fn dated(works: Seq<Work>, date: Seq<char>) -> Seq<Work> {
    works.filter(|w: Work| date_of(w) == date)
}

/// Whether `sorted` holds the works of `works` newest first, those of one date in the order
/// that they had.
pub open spec fn sorted_by_date(sorted: Seq<Work>, works: Seq<Work>) -> bool {
    &&& newest_first(sorted)
    &&& sorted.to_multiset() == works.to_multiset()
    &&& forall|date: Seq<char>| #[trigger] dated(sorted, date) == dated(works, date)
}

/// Every id of `works` occurs among those that are kept, and no other does.
proof fn lemma_kept_ids(works: Seq<Work>, work: Work)
    ensures
        id_occurs(first_of_each(works), work) == id_occurs(works, work),
    decreases works.len(),
{
    if works.len() > 0 {
        let earlier = works.drop_last();
        let last = works.last();
        lemma_kept_ids(earlier, work);
        assert(id_occurs(works, work) == (id_occurs(earlier, work) || same_id(last, work))) by {
            if id_occurs(works, work) {
                let i = choose|i: int| 0 <= i < works.len() && same_id(#[trigger] works[i], work);
                if i < earlier.len() {
                    assert(earlier[i] == works[i]);
                }
            }
            if id_occurs(earlier, work) {
                let i = choose|i: int|
                    0 <= i < earlier.len() && same_id(#[trigger] earlier[i], work);
                assert(works[i] == earlier[i]);
            }
            if same_id(last, work) {
                assert(works[works.len() - 1] == last);
            }
        }
        if id_occurs(earlier, last) {
            if same_id(last, work) {
                let i = choose|i: int|
                    0 <= i < earlier.len() && same_id(#[trigger] earlier[i], last);
                assert(same_id(earlier[i], work));
            }
        } else {
            let kept = first_of_each(earlier);
            let all = kept.push(last);
            assert(id_occurs(all, work) == (id_occurs(kept, work) || same_id(last, work))) by {
                if id_occurs(all, work) {
                    let i = choose|i: int| 0 <= i < all.len() && same_id(#[trigger] all[i], work);
                    if i < kept.len() {
                        assert(kept[i] == all[i]);
                    }
                }
                if id_occurs(kept, work) {
                    let i = choose|i: int|
                        0 <= i < kept.len() && same_id(#[trigger] kept[i], work);
                    assert(all[i] == kept[i]);
                }
                if same_id(last, work) {
                    assert(all[kept.len() as int] == last);
                }
            }
        }
    }
}

/// Whether `id` is the id of a work of `works`.
spec fn carries(works: Seq<Work>, id: Seq<char>) -> bool {
    exists|i: int| 0 <= i < works.len() && has_id(#[trigger] works[i], id)
}

/// Whether `id` is the id of `work`.
spec fn has_id(work: Work, id: Seq<char>) -> bool {
    work.id matches Some(text) && text@ == id
}

/// Whether `ids` are the ids of `works`.
spec fn are_ids_of(ids: Set<Seq<char>>, works: Seq<Work>) -> bool {
    forall|id: Seq<char>| #[trigger] ids.contains(id) <==> carries(works, id)
}

/// The ids of works, once another stands at their end.
proof fn lemma_push_carries(works: Seq<Work>, work: Work, id: Seq<char>)
    ensures
        carries(works.push(work), id) <==> carries(works, id) || has_id(work, id),
{
    let all = works.push(work);
    if carries(works, id) {
        let i = choose|i: int| 0 <= i < works.len() && has_id(#[trigger] works[i], id);
        assert(has_id(all[i], id));
    }
    assert(all[works.len() as int] == work);
    if carries(all, id) {
        let i = choose|i: int| 0 <= i < all.len() && has_id(#[trigger] all[i], id);
        if i < works.len() {
            assert(has_id(works[i], id));
        }
    }
}

/// The id of a work occurs where it is carried.
proof fn lemma_occurs_where_carried(works: Seq<Work>, work: Work, id: Seq<char>)
    requires
        has_id(work, id),
    ensures
        id_occurs(works, work) == carries(works, id),
{
    if id_occurs(works, work) {
        let i = choose|i: int| 0 <= i < works.len() && same_id(#[trigger] works[i], work);
        assert(has_id(works[i], id));
    }
    if carries(works, id) {
        let i = choose|i: int| 0 <= i < works.len() && has_id(#[trigger] works[i], id);
        assert(same_id(works[i], work));
    }
}

/// Appends to `kept` those of `works` whose id has not been `seen`, and notes their ids.
fn keep_new(
    kept: Vec<Work>,
    seen: &mut StringHashSet,
    works: Vec<Work>,
    Ghost(earlier): Ghost<Seq<Work>>,
) -> (res: Vec<Work>)
    requires
        kept@ == first_of_each(earlier),
        are_ids_of(old(seen)@, earlier),
    ensures
        res@ == first_of_each(earlier + works@),
        are_ids_of(final(seen)@, earlier + works@),
{
    let mut res: Vec<Work> = kept;
    assert(earlier + works@.take(0) =~= earlier);
    for work in it: works
        invariant
            it.seq() == works@,
            res@ == first_of_each(earlier + works@.take(it.index())),
            are_ids_of(seen@, earlier + works@.take(it.index())),
    {
        let ghost before = earlier + works@.take(it.index());
        let ghost after = before.push(work);
        proof {
            assert(earlier + works@.take(it.index() + 1) =~= after);
            assert(after.drop_last() =~= before);
            assert forall|id: Seq<char>| #[trigger]
                carries(after, id) <==> carries(before, id) || has_id(work, id) by {
                lemma_push_carries(before, work, id);
            }
        }
        let new: bool = match &work.id {
            Some(id) => {
                proof {
                    lemma_occurs_where_carried(before, work, id@);
                }
                seen.insert(id.clone())
            },
            None => true,
        };
        if new {
            res.push(work);
        }
    }
    assert(works@.take(works@.len() as int) =~= works@);
    res
}

/// Whether `work` may stand at `at` in `sorted`: behind what is dated no earlier, before what
/// is.
spec fn fits_at(sorted: Seq<Work>, at: int, work: Work) -> bool {
    &&& newest_first(sorted)
    &&& 0 <= at <= sorted.len()
    &&& forall|i: int| 0 <= i < at ==> !precedes(date_of(#[trigger] sorted[i]), date_of(work))
    &&& at < sorted.len() ==> precedes(date_of(sorted[at]), date_of(work))
}

/// All that stands behind the place of `work` is dated earlier.
proof fn lemma_rest_is_earlier(sorted: Seq<Work>, at: int, work: Work, k: int)
    requires
        fits_at(sorted, at, work),
        at <= k < sorted.len(),
    ensures
        precedes(date_of(sorted[k]), date_of(work)),
{
    if k > at {
        assert(!precedes(date_of(sorted[at]), date_of(sorted[k])));
        precedes_is_total(date_of(sorted[at]), date_of(sorted[k]));
        if date_of(sorted[at]) != date_of(sorted[k]) {
            precedes_is_transitive(date_of(sorted[k]), date_of(sorted[at]), date_of(work));
        }
    }
}

/// Putting a work in its place leaves the newest first.
proof fn lemma_insert_keeps_order(sorted: Seq<Work>, at: int, work: Work)
    requires
        fits_at(sorted, at, work),
    ensures
        newest_first(sorted.insert(at, work)),
{
    let after = sorted.insert(at, work);
    assert forall|i: int, j: int| 0 <= i < j < after.len() implies !precedes(
        date_of(#[trigger] after[i]),
        date_of(#[trigger] after[j]),
    ) by {
        if j == at {
            assert(after[i] == sorted[i]);
        } else if i == at {
            assert(after[j] == sorted[j - 1]);
            lemma_rest_is_earlier(sorted, at, work, j - 1);
            if precedes(date_of(work), date_of(sorted[j - 1])) {
                precedes_is_transitive(date_of(work), date_of(sorted[j - 1]), date_of(work));
                precedes_is_irreflexive(date_of(work));
            }
        } else {
            let i0 = if i < at { i } else { i - 1 };
            let j0 = if j < at { j } else { j - 1 };
            assert(after[i] == sorted[i0] && after[j] == sorted[j0]);
        }
    }
}

/// The works of one date, once another stands at the end.
proof fn lemma_push_dated(works: Seq<Work>, work: Work, date: Seq<char>)
    ensures
        dated(works.push(work), date) == if date_of(work) == date {
            dated(works, date).push(work)
        } else {
            dated(works, date)
        },
{
    works.lemma_filter_push(work, |w: Work| date_of(w) == date);
}

/// The works of one date, once another stands in its place.
proof fn lemma_insert_dated(sorted: Seq<Work>, at: int, work: Work, date: Seq<char>)
    requires
        fits_at(sorted, at, work),
    ensures
        dated(sorted.insert(at, work), date) == dated(sorted.push(work), date),
{
    let pred = |w: Work| date_of(w) == date;
    let front = sorted.take(at);
    let back = sorted.skip(at);
    assert(sorted =~= front + back);
    assert(sorted.insert(at, work) =~= front.push(work) + back);
    Seq::filter_distributes_over_add(front, back, pred);
    Seq::filter_distributes_over_add(front.push(work), back, pred);
    lemma_push_dated(front, work, date);
    lemma_push_dated(sorted, work, date);
    if date_of(work) == date {
        assert forall|k: int| 0 <= k < back.len() implies !pred(#[trigger] back[k]) by {
            lemma_rest_is_earlier(sorted, at, work, at + k);
            precedes_is_irreflexive(date);
        }
        assert(back.filter(pred) =~= Seq::empty()) by {
            if back.filter(pred).len() > 0 {
                let first = back.filter(pred)[0];
                back.lemma_filter_pred(pred, 0);
                back.lemma_filter_contains_rev(pred, first);
            }
        }
        assert(front.filter(pred) + back.filter(pred) =~= front.filter(pred));
    }
}

/// Puts `work` among `sorted`, behind all those dated no earlier.
fn insert_by_date(sorted: &mut Vec<Work>, work: Work, Ghost(works): Ghost<Seq<Work>>)
    requires
        sorted_by_date(old(sorted)@, works),
    ensures
        sorted_by_date(final(sorted)@, works.push(work)),
{
    let ghost before = sorted@;
    let mut at: usize = 0;
    while at < sorted.len() && !is_earlier(&sorted[at], &work)
        invariant
            at <= sorted@.len(),
            before == sorted@,
            forall|i: int| 0 <= i < at ==> !precedes(date_of(#[trigger] before[i]), date_of(work)),
        decreases sorted@.len() - at,
    {
        at = at + 1;
    }
    proof {
        assert(fits_at(before, at as int, work));
        lemma_insert_keeps_order(before, at as int, work);
        assert forall|date: Seq<char>| #[trigger]
            dated(before.insert(at as int, work), date) == dated(works.push(work), date) by {
            lemma_insert_dated(before, at as int, work, date);
            lemma_push_dated(works, work, date);
            lemma_push_dated(before, work, date);
            assert(dated(before, date) == dated(works, date));
        }
        broadcast use vstd::seq_lib::group_to_multiset_ensures;
        assert(before.insert(at as int, work).to_multiset() =~= works.push(work).to_multiset());
    }
    sorted.insert(at, work);
}

/// Whether `a` is dated earlier than `b`.
fn is_earlier(a: &Work, b: &Work) -> (res: bool)
    ensures
        res == precedes(date_of(*a), date_of(*b)),
{
    match (&a.publication_date, &b.publication_date) {
        (_, None) => false,
        (None, Some(date)) => !date.as_str().is_empty(),
        (Some(x), Some(y)) => comes_before(x.as_str(), y.as_str()),
    }
}

/// Merge two result sets into one, deduplicating by work id (items without an id are all
/// kept) and sorting newest-first (works missing a publication date sort last).
pub fn merge_works(primary: Vec<Work>, secondary: Vec<Work>) -> (res: Vec<Work>)
    ensures
        sorted_by_date(res@, first_of_each(primary@ + secondary@)),
{
    let none: Vec<Work> = Vec::new();
    let mut seen: StringHashSet = StringHashSet::new();
    let ghost nothing = Seq::<Work>::empty();
    let kept: Vec<Work> = keep_new(none, &mut seen, primary, Ghost(nothing));
    assert(nothing + primary@ =~= primary@);
    let kept: Vec<Work> = keep_new(kept, &mut seen, secondary, Ghost(primary@));
    let mut sorted: Vec<Work> = Vec::new();
    assert(kept@.take(0) =~= nothing);
    for work in it: kept
        invariant
            it.seq() == kept@,
            sorted_by_date(sorted@, kept@.take(it.index())),
    {
        let ghost before = kept@.take(it.index());
        assert(kept@.take(it.index() + 1) =~= before.push(work));
        insert_by_date(&mut sorted, work, Ghost(before));
    }
    assert(kept@.take(kept@.len() as int) =~= kept@);
    sorted
}

/// The works of an answer; none where there was no answer.
pub open spec fn works_of(reply: Option<WorksResponse>) -> Seq<Work> {
    match reply {
        Some(found) => found.results@,
        None => Seq::empty(),
    }
}

/// The works of an answer; none where there was no answer.
fn results_of(reply: Option<WorksResponse>) -> (res: Vec<Work>)
    ensures
        res@ == works_of(reply),
{
    match reply {
        Some(found) => found.results,
        None => Vec::new(),
    }
}

/// The works of the feed as the UNION of the answers to an author query and a journal query,
/// merged, deduplicated by work id, and sorted newest-first. A query that was not put, or not
/// answered, adds nothing.
pub fn fetch_works(author_reply: Option<WorksResponse>, journal_reply: Option<WorksResponse>) -> (res:
    Vec<Work>)
    ensures
        sorted_by_date(res@, first_of_each(works_of(author_reply) + works_of(journal_reply))),
{
    merge_works(results_of(author_reply), results_of(journal_reply))
}

/// No two of the kept works share an id.
proof fn lemma_kept_once(works: Seq<Work>, i: int, j: int)
    requires
        0 <= i < j < first_of_each(works).len(),
    ensures
        !same_id(first_of_each(works)[i], first_of_each(works)[j]),
    decreases works.len(),
{
    let earlier = works.drop_last();
    let last = works.last();
    let kept = first_of_each(earlier);
    if id_occurs(earlier, last) {
        lemma_kept_once(earlier, i, j);
    } else if j < kept.len() {
        lemma_kept_once(earlier, i, j);
    } else {
        lemma_kept_ids(earlier, last);
        assert(first_of_each(works)[i] == kept[i]);
    }
}

/// The kept works are works that were there.
proof fn lemma_kept_are_there(works: Seq<Work>, work: Work)
    requires
        first_of_each(works).contains(work),
    ensures
        works.contains(work),
    decreases works.len(),
{
    if works.len() > 0 {
        let earlier = works.drop_last();
        let kept = first_of_each(earlier);
        assert(works =~= earlier.push(works.last()));
        lemma_push_contains(earlier, works.last(), work);
        lemma_push_contains(kept, works.last(), work);
        if kept.contains(work) {
            lemma_kept_are_there(earlier, work);
        }
    }
}

/// A work without an id is kept as often as it is there.
proof fn lemma_kept_without_id(works: Seq<Work>, work: Work)
    requires
        work.id is None,
    ensures
        first_of_each(works).to_multiset().count(work) == works.to_multiset().count(work),
    decreases works.len(),
{
    broadcast use vstd::seq_lib::group_to_multiset_ensures;

    if works.len() > 0 {
        let earlier = works.drop_last();
        lemma_kept_without_id(earlier, work);
        assert(works =~= earlier.push(works.last()));
    }
}

/// What a sequence holds twice stands at two places.
proof fn lemma_two_places(works: Seq<Work>, work: Work) -> (places: (int, int))
    requires
        works.to_multiset().count(work) >= 2,
    ensures
        0 <= places.0 < places.1 < works.len(),
        works[places.0] == work,
        works[places.1] == work,
    decreases works.len(),
{
    broadcast use vstd::seq_lib::group_to_multiset_ensures;

    if works.len() == 0 {
        (0, 0)
    } else {
        let earlier = works.drop_last();
        assert(works =~= earlier.push(works.last()));
        if works.last() == work {
            assert(earlier.to_multiset().count(work) >= 1);
            assert(earlier.contains(work));
            (earlier.index_of(work), works.len() - 1)
        } else {
            lemma_two_places(earlier, work)
        }
    }
}

/// What stands at two places is held twice.
proof fn lemma_held_twice(works: Seq<Work>, i: int, j: int)
    requires
        0 <= i < j < works.len(),
        works[i] == works[j],
    ensures
        works.to_multiset().count(works[i]) >= 2,
{
    broadcast use vstd::seq_lib::group_to_multiset_ensures;

    let rest = works.remove(j);
    assert(rest[i] == works[i]);
    assert(rest.contains(works[i]));
    assert(rest.to_multiset() =~= works.to_multiset().remove(works[j]));
    assert(rest.to_multiset().count(works[i]) > 0);
}

/// Merging two result sets gives their union: each id that occurs in either of them occurs in
/// the merged set and occurs there once, each work without an id stays as often as it was
/// there, and nothing else is there.
pub proof fn merged_works_are_the_union(primary: Seq<Work>, secondary: Seq<Work>, merged: Seq<Work>)
    requires
        sorted_by_date(merged, first_of_each(primary + secondary)),
    ensures
        forall|w: Work| #[trigger]
            id_occurs(merged, w) <==> id_occurs(primary, w) || id_occurs(secondary, w),
        forall|i: int, j: int|
            0 <= i < j < merged.len() ==> !same_id(#[trigger] merged[i], #[trigger] merged[j]),
        forall|w: Work|
            w.id is None ==> #[trigger] merged.to_multiset().count(w)
                == primary.to_multiset().count(w) + secondary.to_multiset().count(w),
        forall|w: Work| #[trigger]
            merged.contains(w) ==> primary.contains(w) || secondary.contains(w),
{
    broadcast use vstd::seq_lib::group_to_multiset_ensures;

    let all = primary + secondary;
    let kept = first_of_each(all);
    assert forall|w: Work| #[trigger]
        id_occurs(merged, w) <==> id_occurs(primary, w) || id_occurs(secondary, w) by {
        lemma_kept_ids(all, w);
        if id_occurs(merged, w) {
            let i = choose|i: int| 0 <= i < merged.len() && same_id(#[trigger] merged[i], w);
            assert(merged.contains(merged[i]));
            assert(kept.to_multiset().count(merged[i]) > 0);
            let k = kept.index_of(merged[i]);
            assert(same_id(kept[k], w));
            let a = choose|a: int| 0 <= a < all.len() && same_id(#[trigger] all[a], w);
            if a < primary.len() {
                assert(primary[a] == all[a]);
            } else {
                assert(secondary[a - primary.len()] == all[a]);
            }
        }
        if id_occurs(primary, w) {
            let a = choose|a: int| 0 <= a < primary.len() && same_id(#[trigger] primary[a], w);
            assert(all[a] == primary[a]);
        }
        if id_occurs(secondary, w) {
            let a = choose|a: int|
                0 <= a < secondary.len() && same_id(#[trigger] secondary[a], w);
            assert(all[a + primary.len()] == secondary[a]);
        }
        if id_occurs(all, w) {
            let k = choose|k: int| 0 <= k < kept.len() && same_id(#[trigger] kept[k], w);
            assert(kept.contains(kept[k]));
            assert(merged.to_multiset().count(kept[k]) > 0);
            let i = merged.index_of(kept[k]);
            assert(same_id(merged[i], w));
        }
    }
    assert forall|i: int, j: int| 0 <= i < j < merged.len() implies !same_id(
        #[trigger] merged[i],
        #[trigger] merged[j],
    ) by {
        if same_id(merged[i], merged[j]) {
            if merged[i] == merged[j] {
                lemma_held_twice(merged, i, j);
                let (a, b) = lemma_two_places(kept, merged[i]);
                lemma_kept_once(all, a, b);
            } else {
                assert(merged.contains(merged[i]) && merged.contains(merged[j]));
                assert(kept.to_multiset().count(merged[i]) > 0);
                assert(kept.to_multiset().count(merged[j]) > 0);
                let a = kept.index_of(merged[i]);
                let b = kept.index_of(merged[j]);
                if a < b {
                    lemma_kept_once(all, a, b);
                } else {
                    lemma_kept_once(all, b, a);
                }
            }
        }
    }
    assert forall|w: Work| w.id is None implies #[trigger] merged.to_multiset().count(w)
        == primary.to_multiset().count(w) + secondary.to_multiset().count(w) by {
        lemma_kept_without_id(all, w);
        vstd::seq_lib::lemma_multiset_commutative(primary, secondary);
    }
    assert forall|w: Work| #[trigger] merged.contains(w) implies primary.contains(w)
        || secondary.contains(w) by {
        assert(kept.to_multiset().count(w) > 0);
        lemma_kept_are_there(all, w);
        let a = all.index_of(w);
        if a < primary.len() {
            assert(primary[a] == w);
        } else {
            assert(secondary[a - primary.len()] == w);
        }
    }
}

/// Works without a publication date come last: only works that have none either, or an empty one,
/// follow them.
pub proof fn undated_works_come_last(works: Seq<Work>, i: int, j: int)
    requires
        newest_first(works),
        0 <= i < j < works.len(),
        works[i].publication_date is None,
    ensures
        date_of(works[j]).len() == 0,
{
    assert(!precedes(date_of(works[i]), date_of(works[j])));
}

/// A date that a work bears is the date of some work wherever the works of that date are the
/// same.
proof fn lemma_date_is_shared(a: Seq<Work>, b: Seq<Work>, i: int) -> (k: int)
    requires
        0 <= i < a.len(),
        dated(a, date_of(a[i])) == dated(b, date_of(a[i])),
    ensures
        0 <= k < b.len(),
        date_of(b[k]) == date_of(a[i]),
{
    let date = date_of(a[i]);
    let pred = |w: Work| date_of(w) == date;
    a.lemma_filter_contains(pred, i);
    assert(b.filter(pred).contains(a[i]));
    b.lemma_filter_contains_rev(pred, a[i]);
    b.index_of(a[i])
}

/// The order is determined: two sequences that hold the newest first, and the same works of
/// each date in the same order, are equal.
pub proof fn sorted_works_are_determined(a: Seq<Work>, b: Seq<Work>)
    requires
        newest_first(a),
        newest_first(b),
        forall|date: Seq<char>| #[trigger] dated(a, date) == dated(b, date),
    ensures
        a == b,
    decreases a.len(),
{
    if a.len() == 0 && b.len() == 0 {
        assert(a =~= b);
    } else if a.len() == 0 {
        assert(dated(a, date_of(b[0])) == dated(b, date_of(b[0])));
        let k = lemma_date_is_shared(b, a, 0);
    } else if b.len() == 0 {
        assert(dated(a, date_of(a[0])) == dated(b, date_of(a[0])));
        let k = lemma_date_is_shared(a, b, 0);
    } else {
        let x = a.last();
        let y = b.last();
        let a0 = a.drop_last();
        let b0 = b.drop_last();
        assert(a =~= a0.push(x));
        assert(b =~= b0.push(y));
        assert(dated(a, date_of(x)) == dated(b, date_of(x)));
        assert(dated(a, date_of(y)) == dated(b, date_of(y)));
        let k = lemma_date_is_shared(a, b, a.len() - 1);
        let m = lemma_date_is_shared(b, a, b.len() - 1);
        precedes_is_irreflexive(date_of(x));
        precedes_is_irreflexive(date_of(y));
        assert(!precedes(date_of(b[k]), date_of(b[b.len() - 1])));
        assert(!precedes(date_of(a[m]), date_of(a[a.len() - 1])));
        precedes_is_total(date_of(x), date_of(y));
        assert(date_of(x) == date_of(y));
        lemma_push_dated(a0, x, date_of(x));
        lemma_push_dated(b0, y, date_of(x));
        assert(dated(a0, date_of(x)).push(x).last() == x);
        assert(dated(b0, date_of(x)).push(y).last() == y);
        assert(x == y);
        assert forall|date: Seq<char>| #[trigger] dated(a0, date) == dated(b0, date) by {
            lemma_push_dated(a0, x, date);
            lemma_push_dated(b0, x, date);
            assert(dated(a, date) == dated(b, date));
            if date_of(x) == date {
                assert(dated(a0, date).push(x).drop_last() =~= dated(a0, date));
                assert(dated(b0, date).push(x).drop_last() =~= dated(b0, date));
            }
        }
        assert forall|i: int, j: int| 0 <= i < j < a0.len() implies !precedes(
            date_of(#[trigger] a0[i]),
            date_of(#[trigger] a0[j]),
        ) by {
            assert(a0[i] == a[i] && a0[j] == a[j]);
        }
        assert forall|i: int, j: int| 0 <= i < j < b0.len() implies !precedes(
            date_of(#[trigger] b0[i]),
            date_of(#[trigger] b0[j]),
        ) by {
            assert(b0[i] == b[i] && b0[j] == b[j]);
        }
        sorted_works_are_determined(a0, b0);
    }
}

/// What passes a filter comes in the order that it had.
proof fn lemma_filter_keeps_order(works: Seq<Work>, pred: spec_fn(Work) -> bool, i: int, j: int) -> (
    places: (int, int))
    requires
        0 <= i < j < works.len(),
        pred(works[i]),
        pred(works[j]),
    ensures
        0 <= places.0 < places.1 < works.filter(pred).len(),
        works.filter(pred)[places.0] == works[i],
        works.filter(pred)[places.1] == works[j],
    decreases works.len(),
{
    let earlier = works.drop_last();
    assert(works =~= earlier.push(works.last()));
    earlier.lemma_filter_push(works.last(), pred);
    if j < earlier.len() {
        lemma_filter_keeps_order(earlier, pred, i, j)
    } else {
        earlier.lemma_filter_contains(pred, i);
        let a = earlier.filter(pred).index_of(works[i]);
        (a, earlier.filter(pred).len() as int)
    }
}

/// What has passed a filter in an order stood in that order.
proof fn lemma_filter_kept_order(works: Seq<Work>, pred: spec_fn(Work) -> bool, a: int, b: int) -> (
    places: (int, int))
    requires
        0 <= a < b < works.filter(pred).len(),
    ensures
        0 <= places.0 < places.1 < works.len(),
        works.filter(pred)[a] == works[places.0],
        works.filter(pred)[b] == works[places.1],
    decreases works.len(),
{
    if works.len() == 0 {
        assert(works.filter(pred).len() == 0) by {
            reveal(Seq::filter);
        }
        (0, 0)
    } else {
        let earlier = works.drop_last();
        let kept = earlier.filter(pred);
        assert(works =~= earlier.push(works.last()));
        earlier.lemma_filter_push(works.last(), pred);
        if b < kept.len() {
            lemma_filter_kept_order(earlier, pred, a, b)
        } else {
            assert(kept.contains(kept[a]));
            earlier.lemma_filter_contains_rev(pred, kept[a]);
            let i = earlier.index_of(kept[a]);
            assert(works[i] == kept[a]);
            (i, works.len() - 1)
        }
    }
}

/// The kept works stand in the order that they had.
proof fn lemma_kept_in_order(works: Seq<Work>, a: int, b: int) -> (places: (int, int))
    requires
        0 <= a < b < first_of_each(works).len(),
    ensures
        0 <= places.0 < places.1 < works.len(),
        first_of_each(works)[a] == works[places.0],
        first_of_each(works)[b] == works[places.1],
    decreases works.len(),
{
    let earlier = works.drop_last();
    let kept = first_of_each(earlier);
    if id_occurs(earlier, works.last()) || b < kept.len() {
        lemma_kept_in_order(earlier, a, b)
    } else {
        assert(kept.contains(kept[a]));
        lemma_kept_are_there(earlier, kept[a]);
        let i = earlier.index_of(kept[a]);
        assert(works[i] == kept[a]);
        (i, works.len() - 1)
    }
}

/// A work that is kept is the first of its id.
proof fn lemma_kept_is_first(works: Seq<Work>, a: int) -> (i: int)
    requires
        0 <= a < first_of_each(works).len(),
    ensures
        0 <= i < works.len(),
        first_of_each(works)[a] == works[i],
        forall|j: int| 0 <= j < i ==> !same_id(#[trigger] works[j], works[i]),
    decreases works.len(),
{
    let earlier = works.drop_last();
    let kept = first_of_each(earlier);
    if id_occurs(earlier, works.last()) || a < kept.len() {
        let i = lemma_kept_is_first(earlier, a);
        assert forall|j: int| 0 <= j < i implies !same_id(#[trigger] works[j], works[i]) by {
            assert(works[j] == earlier[j]);
        }
        i
    } else {
        assert forall|j: int| 0 <= j < works.len() - 1 implies !same_id(
            #[trigger] works[j],
            works.last(),
        ) by {
            assert(works[j] == earlier[j]);
        }
        works.len() - 1
    }
}

/// Whether `work` stands at `i`, and no work before it bears its id.
pub open spec fn is_first_with_its_id(works: Seq<Work>, i: int, work: Work) -> bool {
    &&& 0 <= i < works.len()
    &&& works[i] == work
    &&& work.id is Some ==> forall|j: int|
        0 <= j < i && (#[trigger] works[j]).id is Some ==> works[j].id->0@ != work.id->0@
}

/// Whether `work` is one of `works`, and no work before it bears its id.
pub open spec fn comes_first(works: Seq<Work>, work: Work) -> bool {
    exists|i: int| is_first_with_its_id(works, i, work)
}

/// The feed is made of the whole answers to the two queries, where a missing answer counts as
/// empty: each id of either answer is in it exactly once, by the first work that bears it; each
/// work without an id is in it as often as in both answers together; and nothing else is.
pub proof fn a_feed_holds_both_answers_whole(
    author_reply: Option<WorksResponse>,
    journal_reply: Option<WorksResponse>,
    by_authors: Seq<Work>,
    in_journals: Seq<Work>,
    works: Seq<Work>,
)
    requires
        sorted_by_date(works, first_of_each(works_of(author_reply) + works_of(journal_reply))),
        author_reply matches Some(reply) ==> by_authors == reply.results@,
        author_reply is None ==> by_authors.len() == 0,
        journal_reply matches Some(reply) ==> in_journals == reply.results@,
        journal_reply is None ==> in_journals.len() == 0,
    ensures
        forall|i: int|
            0 <= i < by_authors.len() && (#[trigger] by_authors[i]).id is Some ==> exists|k: int|
                0 <= k < works.len() && ((#[trigger] works[k]).id matches Some(id) && id@
                    == by_authors[i].id->0@),
        forall|i: int|
            0 <= i < in_journals.len() && (#[trigger] in_journals[i]).id is Some ==> exists|k: int|
                0 <= k < works.len() && ((#[trigger] works[k]).id matches Some(id) && id@
                    == in_journals[i].id->0@),
        forall|k: int, l: int|
            0 <= k < l < works.len() && (#[trigger] works[k]).id is Some && (
            #[trigger] works[l]).id is Some ==> works[k].id->0@ != works[l].id->0@,
        forall|w: Work|
            w.id is None ==> #[trigger] works.to_multiset().count(w)
                == by_authors.to_multiset().count(w) + in_journals.to_multiset().count(w),
        forall|k: int|
            0 <= k < works.len() ==> comes_first(by_authors + in_journals, #[trigger] works[k]),
{
    broadcast use vstd::seq_lib::group_to_multiset_ensures;

    assert(works_of(author_reply) =~= by_authors);
    assert(works_of(journal_reply) =~= in_journals);
    let all = by_authors + in_journals;
    let kept = first_of_each(all);
    merged_works_are_the_union(by_authors, in_journals, works);
    assert forall|i: int|
        0 <= i < by_authors.len() && (#[trigger] by_authors[i]).id is Some implies exists|k: int|
        0 <= k < works.len() && ((#[trigger] works[k]).id matches Some(id) && id@
            == by_authors[i].id->0@) by {
        let w = by_authors[i];
        assert(same_id(by_authors[i], w));
        assert(id_occurs(by_authors, w));
        assert(id_occurs(works, w));
        let k = choose|k: int| 0 <= k < works.len() && same_id(#[trigger] works[k], w);
        assert(works[k].id matches Some(id) && id@ == w.id->0@);
    }
    assert forall|i: int|
        0 <= i < in_journals.len() && (#[trigger] in_journals[i]).id is Some implies exists|k: int|
        0 <= k < works.len() && ((#[trigger] works[k]).id matches Some(id) && id@
            == in_journals[i].id->0@) by {
        let w = in_journals[i];
        assert(same_id(in_journals[i], w));
        assert(id_occurs(in_journals, w));
        assert(id_occurs(works, w));
        let k = choose|k: int| 0 <= k < works.len() && same_id(#[trigger] works[k], w);
        assert(works[k].id matches Some(id) && id@ == w.id->0@);
    }
    assert forall|k: int, l: int|
        0 <= k < l < works.len() && (#[trigger] works[k]).id is Some && (#[trigger] works[l]).id
            is Some implies works[k].id->0@ != works[l].id->0@ by {
        assert(!same_id(works[k], works[l]));
    }
    assert forall|k: int| 0 <= k < works.len() implies comes_first(
        by_authors + in_journals,
        #[trigger] works[k],
    ) by {
        assert(works.contains(works[k]));
        assert(kept.to_multiset().count(works[k]) > 0);
        let a = kept.index_of(works[k]);
        let i = lemma_kept_is_first(all, a);
        assert(all[i] == works[k]);
        if works[k].id is Some {
            assert forall|j: int| 0 <= j < i && (#[trigger] all[j]).id is Some implies all[j].id->0@
                != works[k].id->0@ by {
                assert(!same_id(all[j], all[i]));
            }
        }
        assert(is_first_with_its_id(all, i, works[k]));
    }
}

/// The text by which a work is put in order: its publication date, or nothing.
pub open spec fn ordered_by(work: Work, date: Seq<char>) -> bool {
    match work.publication_date {
        Some(text) => date == text@,
        None => date.len() == 0,
    }
}

/// The feed is sorted: of two of its works the earlier one is dated no earlier than the other, and
/// where both have one date they come as they came in the answers.
pub proof fn a_feed_is_sorted_newest_first(
    author_reply: Option<WorksResponse>,
    journal_reply: Option<WorksResponse>,
    by_authors: Seq<Work>,
    in_journals: Seq<Work>,
    works: Seq<Work>,
    k: int,
    l: int,
    date_k: Seq<char>,
    date_l: Seq<char>,
)
    requires
        sorted_by_date(works, first_of_each(works_of(author_reply) + works_of(journal_reply))),
        author_reply matches Some(reply) ==> by_authors == reply.results@,
        author_reply is None ==> by_authors.len() == 0,
        journal_reply matches Some(reply) ==> in_journals == reply.results@,
        journal_reply is None ==> in_journals.len() == 0,
        0 <= k < l < works.len(),
        ordered_by(works[k], date_k),
        ordered_by(works[l], date_l),
    ensures
        date_k == date_l || precedes(date_l, date_k),
        date_k == date_l ==> exists|i: int, j: int|
            0 <= i < j < (by_authors + in_journals).len() && #[trigger] (by_authors
                + in_journals)[i] == works[k] && #[trigger] (by_authors + in_journals)[j]
                == works[l],
{
    assert(works_of(author_reply) =~= by_authors);
    assert(works_of(journal_reply) =~= in_journals);
    let all = by_authors + in_journals;
    assert(date_of(works[k]) =~= date_k);
    assert(date_of(works[l]) =~= date_l);
    assert(!precedes(date_of(works[k]), date_of(works[l])));
    precedes_is_total(date_k, date_l);
    if date_k == date_l {
        let pred = |w: Work| date_of(w) == date_k;
        let (a, b) = lemma_filter_keeps_order(works, pred, k, l);
        assert(dated(works, date_k) == dated(first_of_each(all), date_k));
        let (p, q) = lemma_filter_kept_order(first_of_each(all), pred, a, b);
        let (i, j) = lemma_kept_in_order(all, p, q);
        assert(all[i] == works[k] && all[j] == works[l]);
    }
}

} // verus!
