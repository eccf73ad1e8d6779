//! Facts about a sequence of rows and its flattening.

use vstd::prelude::*;
use vstd::seq_lib::{lemma_flatten_concat, lemma_multiset_commutative};

verus! {

/// A sequence of rows splits around any one of them.
pub proof fn lemma_flatten_split<T>(rows: Seq<Seq<T>>, c: int)
    requires
        0 <= c < rows.len(),
    ensures
        rows.flatten() == rows.take(c).flatten() + rows[c] + rows.skip(c + 1).flatten(),
{
    let middle = seq![rows[c]];
    assert(rows =~= rows.take(c) + middle + rows.skip(c + 1));
    lemma_flatten_concat(rows.take(c) + middle, rows.skip(c + 1));
    lemma_flatten_concat(rows.take(c), middle);
    middle.lemma_flatten_one_element();
    assert(middle.first() == rows[c]);
}

/// The elements of a flattening are those of the part before a row, of the
/// row, and of the part after it.
pub proof fn lemma_bag_split<T>(rows: Seq<Seq<T>>, c: int)
    requires
        0 <= c < rows.len(),
    ensures
        rows.flatten().to_multiset() == rows.take(c).flatten().to_multiset().add(
            rows[c].to_multiset(),
        ).add(rows.skip(c + 1).flatten().to_multiset()),
{
    lemma_flatten_split(rows, c);
    lemma_multiset_commutative(rows.take(c).flatten() + rows[c], rows.skip(c + 1).flatten());
    lemma_multiset_commutative(rows.take(c).flatten(), rows[c]);
}

/// Appending an element to one row adds it once to the flattening.
pub proof fn lemma_bag_push<T>(rows: Seq<Seq<T>>, c: int, x: T)
    requires
        0 <= c < rows.len(),
    ensures
        rows.update(c, rows[c].push(x)).flatten().to_multiset() == rows.flatten().to_multiset().insert(
            x,
        ),
{
    broadcast use vstd::seq_lib::group_to_multiset_ensures;

    let updated = rows.update(c, rows[c].push(x));
    lemma_bag_split(rows, c);
    lemma_bag_split(updated, c);
    assert(updated.take(c) =~= rows.take(c));
    assert(updated.skip(c + 1) =~= rows.skip(c + 1));
    assert(updated.flatten().to_multiset() =~= rows.flatten().to_multiset().insert(x));
}

/// Removing an element from one row takes it once out of the flattening.
pub proof fn lemma_bag_remove<T>(rows: Seq<Seq<T>>, c: int, i: int)
    requires
        0 <= c < rows.len(),
        0 <= i < rows[c].len(),
    ensures
        rows.update(c, rows[c].remove(i)).flatten().to_multiset() == rows.flatten().to_multiset().remove(
            rows[c][i],
        ),
        rows.flatten().to_multiset().count(rows[c][i]) > 0,
{
    broadcast use vstd::seq_lib::group_to_multiset_ensures;

    let updated = rows.update(c, rows[c].remove(i));
    lemma_bag_split(rows, c);
    lemma_bag_split(updated, c);
    assert(updated.take(c) =~= rows.take(c));
    assert(updated.skip(c + 1) =~= rows.skip(c + 1));
    assert(rows[c].to_multiset().count(rows[c][i]) > 0);
    assert(updated.flatten().to_multiset() =~= rows.flatten().to_multiset().remove(rows[c][i]));
}

/// An element occurs in the flattening exactly when it occurs in some row.
pub proof fn lemma_flatten_contains<T>(rows: Seq<Seq<T>>, x: T)
    ensures
        rows.flatten().contains(x) <==> exists|c: int|
            0 <= c < rows.len() && (#[trigger] rows[c]).contains(x),
        rows.flatten().to_multiset().count(x) > 0 <==> rows.flatten().contains(x),
    decreases rows.len(),
{
    broadcast use vstd::seq_lib::group_to_multiset_ensures;

    if rows.len() > 0 {
        let rest = rows.drop_first();
        lemma_flatten_contains(rest, x);
        vstd::seq_lib::lemma_seq_concat_contains_all_elements(rows.first(), rest.flatten(), x);
        if rows.flatten().contains(x) {
            if rows.first().contains(x) {
                assert(rows[0].contains(x));
            } else {
                let c = choose|c: int| 0 <= c < rest.len() && (#[trigger] rest[c]).contains(x);
                assert(rows[c + 1] == rest[c]);
            }
        }
        if exists|c: int| 0 <= c < rows.len() && (#[trigger] rows[c]).contains(x) {
            let c = choose|c: int| 0 <= c < rows.len() && (#[trigger] rows[c]).contains(x);
            if c > 0 {
                assert(rest[c - 1] == rows[c]);
            }
        }
    }
}

} // verus!
