//! Stable sorting of records by a text.

use crate::text::{lemma_text_lt_total, lemma_text_lt_transitive, text_less, text_lt};
use vstd::prelude::*;

verus! {

/// A record that is sorted by a text of its own: a name or a title.
pub trait Keyed {
    /// The text by which the record is sorted.
    spec fn key_of(&self) -> Seq<char>;

    /// The text by which the record is sorted.
    fn key(&self) -> (k: &str)
        ensures
            k@ == self.key_of(),
    ;
}

/// The keys of the records, in order.
pub open spec fn keys_of<T: Keyed>(items: Seq<T>) -> Seq<Seq<char>> {
    items.map_values(|x: T| x.key_of())
}

/// Whether the record at `i` stands before the record at `j` once the
/// records are sorted: its key comes first, or the keys are equal and it
/// stood first.
pub open spec fn comes_before(keys: Seq<Seq<char>>, i: int, j: int) -> bool {
    text_lt(keys[i], keys[j]) || (keys[i] == keys[j] && i < j)
}

/// Whether `order` lists the positions of `keys` as a stable sort leaves
/// them: each position of `keys`, and each before those that it comes
/// before.
pub open spec fn is_stable_order(order: Seq<int>, keys: Seq<Seq<char>>) -> bool {
    &&& order.len() == keys.len()
    &&& forall|a: int| 0 <= a < order.len() ==> 0 <= #[trigger] order[a] < keys.len()
    &&& forall|a: int, b: int|
        0 <= a < b < order.len() ==> comes_before(keys, #[trigger] order[a], #[trigger] order[b])
}

/// The records that stand at the positions `order`, in that order.
pub open spec fn reordered<T>(items: Seq<T>, order: Seq<int>) -> Seq<T> {
    Seq::new(order.len(), |a: int| items[order[a]])
}

/// Whether `sorted` holds the records `items` sorted by `keys`: in the order
/// of their keys, records with equal keys in the order in which they stood.
pub open spec fn stably_sorted<T>(sorted: Seq<T>, items: Seq<T>, keys: Seq<Seq<char>>) -> bool {
    exists|order: Seq<int>| is_stable_order(order, keys) && sorted == reordered(items, order)
}

/// Sorts the records by their keys, see [`stably_sorted`].
pub fn sort_by_key<T: Keyed>(items: Vec<T>) -> (sorted: Vec<T>)
    ensures
        stably_sorted(sorted@, items@, keys_of(items@)),
{
    let ghost given = items@;
    let ghost keys = keys_of(items@);
    let ghost mut order: Seq<int> = Seq::empty();
    let total: usize = items.len();
    let mut items = items;
    let mut out: Vec<T> = Vec::new();
    let mut done: usize = 0;
    proof {
        assert(given.len() == total);
        assert(given.skip(0) =~= given);
        assert(out@ =~= reordered(given, order));
    }
    while items.len() > 0
        invariant
            keys == keys_of(given),
            given.len() <= usize::MAX,
            done + items.len() == given.len(),
            items@ == given.skip(done as int),
            order.len() == done,
            out@ == reordered(given, order),
            forall|a: int| 0 <= a < order.len() ==> 0 <= #[trigger] order[a] < done,
            forall|a: int, b: int|
                0 <= a < b < order.len() ==> comes_before(
                    keys,
                    #[trigger] order[a],
                    #[trigger] order[b],
                ),
        decreases items.len(),
    {
        let ghost rest = items@;
        let x = items.remove(0);
        proof {
            assert(x == given[done as int]);
            assert(items@ =~= given.skip(done + 1));
            assert(keys[done as int] == x.key_of());
        }
        let mut pos: usize = 0;
        let mut found = false;
        while pos < out.len() && !found
            invariant
                pos <= out.len(),
                out.len() == order.len(),
                order.len() == done,
                done < given.len(),
                keys == keys_of(given),
                out@ == reordered(given, order),
                x == given[done as int],
                forall|a: int| 0 <= a < order.len() ==> 0 <= #[trigger] order[a] < done,
                forall|a: int|
                    0 <= a < pos ==> !text_lt(keys[done as int], keys[#[trigger] order[a]]),
                found ==> pos < out.len() && text_lt(keys[done as int], keys[order[pos as int]]),
            decreases out.len() - pos + (if found { 0int } else { 1int }),
        {
            proof {
                assert(out@[pos as int] == given[order[pos as int]]);
                assert(keys[order[pos as int]] == given[order[pos as int]].key_of());
            }
            if text_less(x.key(), out[pos].key()) {
                found = true;
            } else {
                pos += 1;
            }
        }
        let ghost old_order = order;
        proof {
            order = old_order.insert(pos as int, done as int);
            assert forall|a: int, b: int| 0 <= a < b < order.len() implies comes_before(
                keys,
                #[trigger] order[a],
                #[trigger] order[b],
            ) by {
                let me = keys[done as int];
                if b == pos {
                    // order[a] stood before and its key does not come after
                    assert(order[a] == old_order[a]);
                    lemma_text_lt_total(me, keys[old_order[a]]);
                } else if a == pos {
                    assert(order[b] == old_order[b - 1]);
                    assert(found);
                    if b - 1 > pos {
                        assert(comes_before(keys, old_order[pos as int], old_order[b - 1]));
                        if text_lt(keys[old_order[pos as int]], keys[old_order[b - 1]]) {
                            lemma_text_lt_transitive(
                                me,
                                keys[old_order[pos as int]],
                                keys[old_order[b - 1]],
                            );
                        }
                    }
                } else {
                    let a0 = if a < pos { a } else { a - 1 };
                    let b0 = if b < pos { b } else { b - 1 };
                    assert(order[a] == old_order[a0]);
                    assert(order[b] == old_order[b0]);
                    assert(comes_before(keys, old_order[a0], old_order[b0]));
                }
            }
            assert forall|a: int| 0 <= a < order.len() implies 0 <= #[trigger] order[a] < done
                + 1 by {
                if a < pos {
                    assert(order[a] == old_order[a]);
                } else if a > pos {
                    assert(order[a] == old_order[a - 1]);
                }
            }
        }
        out.insert(pos, x);
        proof {
            assert(out@ =~= reordered(given, order)) by {
                assert forall|a: int| 0 <= a < order.len() implies out@[a] == given[order[a]] by {
                    if a < pos {
                        assert(order[a] == old_order[a]);
                    } else if a > pos {
                        assert(order[a] == old_order[a - 1]);
                    }
                }
            }
        }
        done += 1;
    }
    proof {
        assert(is_stable_order(order, keys));
    }
    out
}

/// A list has one stable order only: two lists of positions that both are
/// stable orders of `keys` are equal.
pub proof fn lemma_stable_order_unique(keys: Seq<Seq<char>>, first: Seq<int>, second: Seq<int>)
    requires
        is_stable_order(first, keys),
        is_stable_order(second, keys),
    ensures
        first == second,
{
    lemma_order_agrees(keys, first, second, keys.len() as int);
    assert(first =~= second);
}

/// Two stable orders of `keys` agree on their first `upto` positions.
proof fn lemma_order_agrees(keys: Seq<Seq<char>>, first: Seq<int>, second: Seq<int>, upto: int)
    requires
        is_stable_order(first, keys),
        is_stable_order(second, keys),
        0 <= upto <= keys.len(),
    ensures
        forall|a: int| 0 <= a < upto ==> first[a] == second[a],
    decreases upto,
{
    if upto > 0 {
        lemma_order_agrees(keys, first, second, upto - 1);
        let a = upto - 1;
        let x = first[a];
        let y = second[a];
        if x != y {
            // x stands somewhere in `second`, and y somewhere in `first`
            let bx = lemma_position(keys, second, x);
            let by = lemma_position(keys, first, y);
            assert(bx >= a) by {
                if bx < a {
                    assert(first[bx] == second[bx]);
                    lemma_distinct(keys, first, bx, a);
                }
            }
            assert(by >= a) by {
                if by < a {
                    assert(first[by] == second[by]);
                    lemma_distinct(keys, second, by, a);
                }
            }
            assert(bx > a);
            assert(by > a);
            // in `second`, y stands before x; in `first`, x stands before y
            assert(comes_before(keys, second[a], second[bx]));
            assert(comes_before(keys, first[a], first[by]));
            lemma_text_lt_total(keys[x], keys[y]);
        }
    }
}

/// No position stands twice in a stable order.
proof fn lemma_distinct(keys: Seq<Seq<char>>, order: Seq<int>, a: int, b: int)
    requires
        is_stable_order(order, keys),
        0 <= a < b < order.len(),
    ensures
        order[a] != order[b],
{
    assert(comes_before(keys, order[a], order[b]));
    crate::text::lemma_text_lt_irreflexive(keys[order[a]]);
}

/// Every position of `keys` stands in a stable order of them.
proof fn lemma_position(keys: Seq<Seq<char>>, order: Seq<int>, x: int) -> (at: int)
    requires
        is_stable_order(order, keys),
        0 <= x < keys.len(),
    ensures
        0 <= at < order.len(),
        order[at] == x,
{
    assert forall|a: int, b: int|
        0 <= a < order.len() && 0 <= b < order.len() && a != b implies order[a] != order[b] by {
        if a < b {
            lemma_distinct(keys, order, a, b);
        } else {
            lemma_distinct(keys, order, b, a);
        }
    }
    assert(order.no_duplicates());
    let values = order.to_set();
    order.unique_seq_to_set();
    let all = Set::new(|v: int| 0 <= v < keys.len());
    vstd::set_lib::lemma_int_range(0, keys.len() as int);
    assert(all =~= vstd::set_lib::set_int_range(0, keys.len() as int));
    assert(values.subset_of(all)) by {
        assert forall|v: int| values.contains(v) implies all.contains(v) by {
            let a = choose|a: int| 0 <= a < order.len() && order[a] == v;
            assert(0 <= order[a] < keys.len());
        }
    }
    vstd::set_lib::lemma_subset_equality(values, all);
    assert(values.contains(x));
    choose|a: int| 0 <= a < order.len() && order[a] == x
}

/// Sorted records stand in the order of their keys, and they are the
/// records that were given: as many, each of them, and nothing else.
pub proof fn lemma_sorted_is_ordered<T>(sorted: Seq<T>, items: Seq<T>, keys: Seq<Seq<char>>)
    requires
        items.len() == keys.len(),
        stably_sorted(sorted, items, keys),
    ensures
        sorted.len() == items.len(),
        forall|i: int| 0 <= i < items.len() ==> sorted.contains(#[trigger] items[i]),
        forall|a: int| 0 <= a < sorted.len() ==> items.contains(#[trigger] sorted[a]),
        exists|order: Seq<int>|
            is_stable_order(order, keys) && sorted == reordered(items, order) && forall|
                a: int,
                b: int,
            |
                0 <= a < b < order.len() ==> !text_lt(
                    keys[#[trigger] order[b]],
                    keys[#[trigger] order[a]],
                ),
{
    let order = choose|order: Seq<int>|
        is_stable_order(order, keys) && sorted == reordered(items, order);
    assert forall|i: int| 0 <= i < items.len() implies sorted.contains(#[trigger] items[i]) by {
        let at = lemma_position(keys, order, i);
        assert(sorted[at] == items[i]);
    }
    assert forall|a: int| 0 <= a < sorted.len() implies items.contains(#[trigger] sorted[a]) by {
        assert(0 <= order[a] < keys.len());
        assert(sorted[a] == items[order[a]]);
    }
    assert forall|a: int, b: int| 0 <= a < b < order.len() implies !text_lt(
        keys[#[trigger] order[b]],
        keys[#[trigger] order[a]],
    ) by {
        assert(comes_before(keys, order[a], order[b]));
        lemma_text_lt_total(keys[order[a]], keys[order[b]]);
        crate::text::lemma_text_lt_irreflexive(keys[order[a]]);
    }
}

/// Sorting records that stand in the order of their keys leaves them as
/// they stand.
pub proof fn lemma_sorted_stays<T>(sorted: Seq<T>, items: Seq<T>, keys: Seq<Seq<char>>)
    requires
        items.len() == keys.len(),
        stably_sorted(sorted, items, keys),
        forall|i: int, j: int|
            0 <= i < j < keys.len() ==> !text_lt(#[trigger] keys[j], #[trigger] keys[i]),
    ensures
        sorted == items,
{
    let order = choose|order: Seq<int>|
        is_stable_order(order, keys) && sorted == reordered(items, order);
    let same = Seq::new(keys.len(), |i: int| i);
    assert forall|a: int, b: int| 0 <= a < b < same.len() implies comes_before(
        keys,
        #[trigger] same[a],
        #[trigger] same[b],
    ) by {
        lemma_text_lt_total(keys[a], keys[b]);
    }
    lemma_stable_order_unique(keys, order, same);
    assert(sorted =~= items);
}

} // verus!
