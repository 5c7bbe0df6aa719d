//! Abstracts, which OpenAlex gives as an index: each word with the places at which it stands.

use crate::text::{
    comes_before, join, joined, precedes, precedes_is_irreflexive, precedes_is_total,
    precedes_is_transitive,
};
use vstd::prelude::*;
use vstd::relations::{sorted_by, total_ordering};

verus! {

/// The words of an index with their places, in the order of the index.
pub open spec fn placed_words(index: Seq<(Seq<char>, Seq<u64>)>) -> Seq<(u64, Seq<char>)>
    decreases index.len(),
{
    if index.len() == 0 {
        Seq::empty()
    } else {
        placed_words(index.drop_last()) + at_places(index.last().0, index.last().1)
    }
}

/// A word at each of its places.
pub open spec fn at_places(word: Seq<char>, places: Seq<u64>) -> Seq<(u64, Seq<char>)> {
    places.map_values(|place: u64| (place, word))
}

/// The order in which placed words are read: by their places, words at one place in the order of
/// texts.
pub open spec fn reading_order() -> spec_fn((u64, Seq<char>), (u64, Seq<char>)) -> bool {
    |a: (u64, Seq<char>), b: (u64, Seq<char>)|
        a.0 < b.0 || a.0 == b.0 && !precedes(b.1, a.1)
}

/// The abstract of an index: its words as they are read, with spaces between them; none where the
/// index places no word.
pub open spec fn abstract_of(index: Seq<(Seq<char>, Seq<u64>)>) -> Option<Seq<char>> {
    let read = placed_words(index).sort_by(reading_order());
    if read.len() == 0 {
        None
    } else {
        Some(joined(read.map_values(|placed: (u64, Seq<char>)| placed.1), " "@))
    }
}

/// Placed words are totally ordered.
proof fn lemma_reading_order_is_total()
    ensures
        total_ordering(reading_order()),
{
    let leq = reading_order();
    assert forall|x: (u64, Seq<char>)| #[trigger] leq(x, x) by {
        precedes_is_irreflexive(x.1);
    }
    assert forall|x: (u64, Seq<char>), y: (u64, Seq<char>)| #[trigger] leq(x, y) && #[trigger] leq(
        y,
        x,
    ) implies x == y by {
        precedes_is_total(x.1, y.1);
    }
    assert forall|x: (u64, Seq<char>), y: (u64, Seq<char>), z: (u64, Seq<char>)| #[trigger]
        leq(x, y) && #[trigger] leq(y, z) implies leq(x, z) by {
        if x.0 == z.0 && precedes(z.1, x.1) {
            precedes_is_total(y.1, z.1);
            precedes_is_total(x.1, y.1);
            if y.1 != z.1 && x.1 != y.1 {
                precedes_is_transitive(y.1, z.1, x.1);
            }
        }
    }
    assert forall|x: (u64, Seq<char>), y: (u64, Seq<char>)| #[trigger] leq(x, y) || #[trigger] leq(
        y,
        x,
    ) by {
        if precedes(x.1, y.1) && precedes(y.1, x.1) {
            precedes_is_transitive(x.1, y.1, x.1);
            precedes_is_irreflexive(x.1);
        }
    }
}

/// The abstract depends on which word stands at which place, not on the order of the index.
pub proof fn abstract_is_independent_of_the_index_order(
    a: Seq<(Seq<char>, Seq<u64>)>,
    b: Seq<(Seq<char>, Seq<u64>)>,
)
    requires
        placed_words(a).to_multiset() == placed_words(b).to_multiset(),
    ensures
        abstract_of(a) == abstract_of(b),
{
    let leq = reading_order();
    lemma_reading_order_is_total();
    placed_words(a).lemma_sort_by_ensures(leq);
    placed_words(b).lemma_sort_by_ensures(leq);
    vstd::seq_lib::lemma_sorted_unique(
        placed_words(a).sort_by(leq),
        placed_words(b).sort_by(leq),
        leq,
    );
}

/// Whether `a` is read before `b`, and not only with it.
fn read_before(a: &(u64, String), b: &(u64, String)) -> (res: bool)
    ensures
        res == !reading_order()(b.deep_view(), a.deep_view()),
{
    a.0 < b.0 || a.0 == b.0 && comes_before(a.1.as_str(), b.1.as_str())
}

/// Puts a placed word where it is read.
fn put_in_reading_order(list: &mut Vec<(u64, String)>, word: (u64, String))
    requires
        sorted_by(old(list).deep_view(), reading_order()),
    ensures
        sorted_by(final(list).deep_view(), reading_order()),
        final(list).deep_view().to_multiset() == old(list).deep_view().to_multiset().insert(
            word.deep_view(),
        ),
{
    let ghost leq = reading_order();
    let ghost before = list.deep_view();
    let ghost put = word.deep_view();
    let mut at: usize = 0;
    while at < list.len() && !read_before(&word, &list[at])
        invariant
            at <= list@.len(),
            before == list.deep_view(),
            put == word.deep_view(),
            leq == reading_order(),
            forall|i: int| 0 <= i < at ==> leq(#[trigger] before[i], put),
        decreases list@.len() - at,
    {
        at = at + 1;
    }
    list.insert(at, word);
    proof {
        let after = list.deep_view();
        assert(after =~= before.insert(at as int, put));
        lemma_reading_order_is_total();
        assert forall|i: int, j: int| 0 <= i < j < after.len() implies #[trigger] leq(
            after[i],
            after[j],
        ) by {
            if j == at {
                assert(after[i] == before[i]);
            } else if i == at {
                assert(after[j] == before[j - 1]);
                assert(!leq(before[at as int], put));
                assert(leq(put, before[at as int]) || leq(before[at as int], put));
                if j - 1 > at {
                    assert(leq(before[at as int], before[j - 1]));
                }
            } else {
                let i0 = if i < at { i } else { i - 1 };
                let j0 = if j < at { j } else { j - 1 };
                assert(leq(before[i0], before[j0]));
            }
        }
        broadcast use vstd::seq_lib::group_to_multiset_ensures;
    }
}

/// Puts a word at each of its places where it is read.
fn put_at_places(list: &mut Vec<(u64, String)>, word: &String, places: &Vec<u64>)
    requires
        sorted_by(old(list).deep_view(), reading_order()),
    ensures
        sorted_by(final(list).deep_view(), reading_order()),
        final(list).deep_view().to_multiset() == old(list).deep_view().to_multiset().add(
            at_places(word@, places@).to_multiset(),
        ),
{
    broadcast use vstd::seq_lib::group_to_multiset_ensures;

    let ghost before = list.deep_view().to_multiset();
    let mut i: usize = 0;
    assert(at_places(word@, places@.take(0)) =~= Seq::empty());
    assert(list.deep_view().to_multiset() =~= before.add(
        at_places(word@, places@.take(0)).to_multiset(),
    ));
    while i < places.len()
        invariant
            i <= places@.len(),
            sorted_by(list.deep_view(), reading_order()),
            list.deep_view().to_multiset() == before.add(
                at_places(word@, places@.take(i as int)).to_multiset(),
            ),
        decreases places@.len() - i,
    {
        broadcast use vstd::seq_lib::group_to_multiset_ensures;

        let ghost done = at_places(word@, places@.take(i as int));
        put_in_reading_order(list, (places[i], word.clone()));
        assert(at_places(word@, places@.take(i + 1)) =~= done.push((places@[i as int], word@)));
        assert(list.deep_view().to_multiset() =~= before.add(
            at_places(word@, places@.take(i + 1)).to_multiset(),
        ));
        i = i + 1;
    }
    assert(places@.take(i as int) =~= places@);
}

/// The abstract of an index: its words as they are read, with spaces between them; none where the
/// index places no word.
pub fn abstract_text(index: &Vec<(String, Vec<u64>)>) -> (res: Option<String>)
    ensures
        res.deep_view() == abstract_of(index.deep_view()),
{
    let ghost leq = reading_order();
    let ghost entries = index.deep_view();
    let mut list: Vec<(u64, String)> = Vec::new();
    let mut i: usize = 0;
    assert(entries.take(0) =~= Seq::empty());
    assert(list.deep_view() =~= placed_words(entries.take(0)));
    while i < index.len()
        invariant
            i <= index@.len(),
            entries == index.deep_view(),
            sorted_by(list.deep_view(), reading_order()),
            list.deep_view().to_multiset() == placed_words(entries.take(i as int)).to_multiset(),
        decreases index@.len() - i,
    {
        let ghost done = placed_words(entries.take(i as int));
        put_at_places(&mut list, &index[i].0, &index[i].1);
        proof {
            let here = at_places(entries[i as int].0, entries[i as int].1);
            assert(index@[i as int].1.deep_view() =~= index@[i as int].1@);
            assert(entries.take(i + 1).drop_last() =~= entries.take(i as int));
            vstd::seq_lib::lemma_multiset_commutative(done, here);
            assert(placed_words(entries.take(i + 1)) == done + here);
        }
        i = i + 1;
    }
    proof {
        assert(entries.take(i as int) =~= entries);
        lemma_reading_order_is_total();
        placed_words(entries).lemma_sort_by_ensures(leq);
        vstd::seq_lib::lemma_sorted_unique(
            list.deep_view(),
            placed_words(entries).sort_by(leq),
            leq,
        );
        assert(list.deep_view().len() == list@.len());
    }
    if list.len() == 0 {
        return None;
    }
    Some(join(words_of(&list).as_slice(), " "))
}

/// The words of placed words.
fn words_of(list: &Vec<(u64, String)>) -> (res: Vec<String>)
    ensures
        res.deep_view() == list.deep_view().map_values(|placed: (u64, Seq<char>)| placed.1),
{
    let ghost placed = list.deep_view();
    let mut res: Vec<String> = Vec::new();
    let mut i: usize = 0;
    while i < list.len()
        invariant
            i <= list@.len(),
            placed == list.deep_view(),
            res.deep_view() == placed.take(i as int).map_values(
                |placed: (u64, Seq<char>)| placed.1,
            ),
        decreases list@.len() - i,
    {
        let ghost before = res.deep_view();
        res.push(list[i].1.clone());
        assert(res.deep_view() =~= before.push(placed[i as int].1));
        assert(res.deep_view() =~= placed.take(i + 1).map_values(
            |placed: (u64, Seq<char>)| placed.1,
        ));
        i = i + 1;
    }
    assert(placed.take(i as int) =~= placed);
    res
}

/// An index places a word at each of its places, as often as it says so, and no other words.
pub proof fn words_are_placed_as_the_index_says(
    index: Seq<(Seq<char>, Seq<u64>)>,
    word: Seq<char>,
    places: Seq<u64>,
    i: int,
)
    requires
        0 <= i < places.len(),
    ensures
        placed_words(Seq::empty()).len() == 0,
        placed_words(index.push((word, places))).len() == placed_words(index).len()
            + places.len(),
        placed_words(index.push((word, places))).take(placed_words(index).len() as int)
            == placed_words(index),
        placed_words(index.push((word, places)))[placed_words(index).len() + i] == (
            places[i],
            word,
        ),
{
    let more = index.push((word, places));
    assert(more.drop_last() =~= index);
    assert(placed_words(more).take(placed_words(index).len() as int) =~= placed_words(index));
}

/// An abstract is read by the places of its words: it is made of all placed words and no others,
/// each placed no earlier than the one before it, with spaces between them; there is none exactly
/// where no word is placed.
pub proof fn abstracts_are_read_by_the_places_of_words(index: Seq<(Seq<char>, Seq<u64>)>) -> (read:
    Seq<(u64, Seq<char>)>)
    ensures
        read.to_multiset() == placed_words(index).to_multiset(),
        forall|i: int, j: int|
            0 <= i < j < read.len() ==> (#[trigger] read[i]).0 <= (#[trigger] read[j]).0,
        forall|i: int, j: int|
            0 <= i < j < read.len() && (#[trigger] read[i]).0 == (#[trigger] read[j]).0
                ==> !precedes(read[j].1, read[i].1),
        abstract_of(index) is None <==> placed_words(index).len() == 0,
        abstract_of(index) matches Some(text) ==> text == joined(
            Seq::new(read.len(), |i: int| read[i].1),
            " "@,
        ),
{
    broadcast use vstd::seq_lib::group_to_multiset_ensures;

    let leq = reading_order();
    let read = placed_words(index).sort_by(leq);
    lemma_reading_order_is_total();
    placed_words(index).lemma_sort_by_ensures(leq);
    assert forall|i: int, j: int| 0 <= i < j < read.len() implies (#[trigger] read[i]).0 <= (
    #[trigger] read[j]).0 by {
        assert(leq(read[i], read[j]));
    }
    assert forall|i: int, j: int|
        0 <= i < j < read.len() && (#[trigger] read[i]).0 == (#[trigger] read[j]).0 implies !precedes(
        read[j].1, read[i].1) by {
        assert(leq(read[i], read[j]));
    }
    assert(read.len() == placed_words(index).len()) by {
        assert(read.to_multiset().len() == read.len());
        assert(placed_words(index).to_multiset().len() == placed_words(index).len());
    }
    assert(read.map_values(|placed: (u64, Seq<char>)| placed.1) =~= Seq::new(
        read.len(),
        |i: int| read[i].1,
    ));
    read
}

} // verus!
