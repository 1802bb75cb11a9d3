//! What a query over the rows of a table gives: the first row that matches, the rows that
//! match, and rows in ascending order of a key.

use vstd::prelude::*;

verus! {

/// The position of the first item that matches.
pub open spec fn first_index<A>(items: Seq<A>, matches: spec_fn(A) -> bool) -> Option<int>
    decreases items.len(),
{
    if items.len() == 0 {
        None
    } else {
        match first_index(items.drop_last(), matches) {
            Some(index) => Some(index),
            None => if matches(items.last()) {
                Some(items.len() - 1)
            } else {
                None
            },
        }
    }
}

/// The first item that matches.
pub open spec fn first<A>(items: Seq<A>, matches: spec_fn(A) -> bool) -> Option<A> {
    match first_index(items, matches) {
        Some(index) => Some(items[index]),
        None => None,
    }
}

/// The first match is one, and nothing before it is.
pub proof fn lemma_first_index<A>(items: Seq<A>, matches: spec_fn(A) -> bool)
    ensures
        match first_index(items, matches) {
            Some(index) => {
                &&& 0 <= index < items.len()
                &&& matches(items[index])
                &&& forall|k: int| 0 <= k < index ==> !matches(#[trigger] items[k])
            },
            None => forall|k: int| 0 <= k < items.len() ==> !matches(#[trigger] items[k]),
        },
    decreases items.len(),
{
    if items.len() > 0 {
        let rest = items.drop_last();
        lemma_first_index(rest, matches);
        assert forall|k: int| 0 <= k < rest.len() implies rest[k] == #[trigger] items[k] by {}
    }
}

/// An item that matches, with none before it, is the first match.
pub proof fn lemma_is_first_index<A>(items: Seq<A>, matches: spec_fn(A) -> bool, index: int)
    requires
        0 <= index < items.len(),
        matches(items[index]),
        forall|k: int| 0 <= k < index ==> !matches(#[trigger] items[k]),
    ensures
        first_index(items, matches) == Some(index),
{
    lemma_first_index(items, matches);
}

/// Where no item matches there is no first match.
pub proof fn lemma_no_first_index<A>(items: Seq<A>, matches: spec_fn(A) -> bool)
    requires
        forall|k: int| 0 <= k < items.len() ==> !matches(#[trigger] items[k]),
    ensures
        first_index(items, matches) == None::<int>,
{
    lemma_first_index(items, matches);
}

/// Changing items without changing what matches leaves the first match where it is.
pub proof fn lemma_first_index_same<A>(left: Seq<A>, right: Seq<A>, matches: spec_fn(A) -> bool)
    requires
        left.len() == right.len(),
        forall|k: int|
            #![trigger left[k]]
            #![trigger right[k]]
            0 <= k < left.len() ==> matches(left[k]) == matches(right[k]),
    ensures
        first_index(left, matches) == first_index(right, matches),
{
    lemma_first_index(left, matches);
    lemma_first_index(right, matches);
}

/// One more item is the first match only where there was none before it.
pub proof fn lemma_first_push<A>(items: Seq<A>, item: A, matches: spec_fn(A) -> bool)
    ensures
        first_index(items.push(item), matches) == (match first_index(items, matches) {
            Some(index) => Some(index),
            None => if matches(item) {
                Some(items.len() as int)
            } else {
                None
            },
        }),
        first(items.push(item), matches) == (match first(items, matches) {
            Some(found) => Some(found),
            None => if matches(item) {
                Some(item)
            } else {
                None
            },
        }),
{
    assert(items.push(item).drop_last() =~= items);
    lemma_first_index(items, matches);
}

/// An item in another's place is found where the other was found, if it matches as the other
/// did.
pub proof fn lemma_first_update<A>(
    items: Seq<A>,
    at: int,
    item: A,
    matches: spec_fn(A) -> bool,
)
    requires
        0 <= at < items.len(),
        matches(item) == matches(items[at]),
    ensures
        first_index(items.update(at, item), matches) == first_index(items, matches),
        first(items.update(at, item), matches) == (if first_index(items, matches) == Some(at) {
            Some(item)
        } else {
            first(items, matches)
        }),
{
    lemma_first_index_same(items.update(at, item), items, matches);
    lemma_first_index(items, matches);
}

/// How many items match.
pub open spec fn count<A>(items: Seq<A>, matches: spec_fn(A) -> bool) -> nat
    decreases items.len(),
{
    if items.len() == 0 {
        0
    } else if matches(items.last()) {
        count(items.drop_last(), matches) + 1
    } else {
        count(items.drop_last(), matches)
    }
}

/// Items match as often as there are matches, and not at all only where there is no first.
pub proof fn lemma_count<A>(items: Seq<A>, matches: spec_fn(A) -> bool)
    ensures
        count(items, matches) <= items.len(),
        count(items, matches) == 0 <==> first_index(items, matches) is None,
    decreases items.len(),
{
    if items.len() > 0 {
        lemma_count(items.drop_last(), matches);
    }
}

/// One more item counts where it matches.
pub proof fn lemma_count_push<A>(items: Seq<A>, item: A, matches: spec_fn(A) -> bool)
    ensures
        count(items.push(item), matches) == count(items, matches) + (if matches(item) {
            1nat
        } else {
            0nat
        }),
{
    assert(items.push(item).drop_last() =~= items);
}

/// Rows in ascending order of their key with one more row put in, behind those with its key.
pub open spec fn placed<A>(rows: Seq<A>, row: A, key: spec_fn(A) -> int) -> Seq<A>
    decreases rows.len(),
{
    if rows.len() == 0 || key(rows.last()) <= key(row) {
        rows.push(row)
    } else {
        placed(rows.drop_last(), row, key).push(rows.last())
    }
}

/// The rows that match, in ascending order of their key.
pub open spec fn ordered<A>(
    rows: Seq<A>,
    matches: spec_fn(A) -> bool,
    key: spec_fn(A) -> int,
) -> Seq<A>
    decreases rows.len(),
{
    if rows.len() == 0 {
        Seq::empty()
    } else if matches(rows.last()) {
        placed(ordered(rows.drop_last(), matches, key), rows.last(), key)
    } else {
        ordered(rows.drop_last(), matches, key)
    }
}

/// Where a row is put in.
pub proof fn lemma_placed_at<A>(rows: Seq<A>, row: A, key: spec_fn(A) -> int, at: int)
    requires
        0 <= at <= rows.len(),
        forall|k: int| at <= k < rows.len() ==> key(#[trigger] rows[k]) > key(row),
        at == 0 || key(rows[at - 1]) <= key(row),
    ensures
        placed(rows, row, key) == rows.insert(at, row),
    decreases rows.len(),
{
    if at < rows.len() {
        lemma_placed_at(rows.drop_last(), row, key, at);
        assert(rows.drop_last().insert(at, row).push(rows.last()) =~= rows.insert(at, row));
    } else {
        assert(rows.push(row) =~= rows.insert(at, row));
    }
}

/// Rows are in ascending order of their key.
pub open spec fn ascending<A>(rows: Seq<A>, key: spec_fn(A) -> int) -> bool {
    forall|i: int, j: int|
        0 <= i <= j < rows.len() ==> key(#[trigger] rows[i]) <= key(#[trigger] rows[j])
}

proof fn lemma_placed<A>(rows: Seq<A>, row: A, key: spec_fn(A) -> int)
    requires
        ascending(rows, key),
    ensures
        ascending(placed(rows, row, key), key),
        placed(rows, row, key).to_multiset() == rows.to_multiset().insert(row),
        placed(rows, row, key).len() == rows.len() + 1,
    decreases rows.len(),
{
    broadcast use vstd::seq_lib::group_to_multiset_ensures;

    if rows.len() == 0 || key(rows.last()) <= key(row) {
        assert(ascending(rows.push(row), key));
    } else {
        let front = rows.drop_last();
        lemma_placed(front, row, key);
        let put = placed(front, row, key);
        assert(front.push(rows.last()) =~= rows);
        assert(put.push(rows.last()).to_multiset() =~= rows.to_multiset().insert(row));
        assert forall|i: int| 0 <= i < put.len() implies key(#[trigger] put[i]) <= key(
            rows.last(),
        ) by {
            assert(put.to_multiset().contains(put[i]));
            if put[i] != row {
                assert(front.to_multiset().contains(put[i]));
                assert(front.contains(put[i]));
                let k = choose|k: int| 0 <= k < front.len() && front[k] == put[i];
                assert(rows[k] == put[i]);
            }
        }
        assert(ascending(put.push(rows.last()), key));
    }
}

/// An ordered selection holds exactly the rows that match, each as often as it is there, in
/// ascending order of their key.
pub proof fn lemma_ordered<A>(rows: Seq<A>, matches: spec_fn(A) -> bool, key: spec_fn(A) -> int)
    ensures
        ascending(ordered(rows, matches, key), key),
        ordered(rows, matches, key).to_multiset() == rows.filter(matches).to_multiset(),
    decreases rows.len(),
{
    broadcast use vstd::seq_lib::group_to_multiset_ensures;

    reveal(Seq::filter);
    if rows.len() > 0 {
        lemma_ordered(rows.drop_last(), matches, key);
        if matches(rows.last()) {
            lemma_placed(ordered(rows.drop_last(), matches, key), rows.last(), key);
        }
    }
}

/// Every row of an ordered selection matches and is one of the rows.
pub proof fn lemma_ordered_members<A>(
    rows: Seq<A>,
    matches: spec_fn(A) -> bool,
    key: spec_fn(A) -> int,
)
    ensures
        forall|i: int|
            0 <= i < ordered(rows, matches, key).len() ==> matches(
                #[trigger] ordered(rows, matches, key)[i],
            ) && rows.contains(ordered(rows, matches, key)[i]),
        forall|i: int|
            0 <= i < rows.len() && matches(#[trigger] rows[i]) ==> ordered(
                rows,
                matches,
                key,
            ).contains(rows[i]),
{
    broadcast use vstd::seq_lib::group_to_multiset_ensures;

    lemma_ordered(rows, matches, key);
    let selection = ordered(rows, matches, key);
    let kept = rows.filter(matches);
    assert forall|i: int| 0 <= i < selection.len() implies matches(#[trigger] selection[i])
        && rows.contains(selection[i]) by {
        assert(selection.to_multiset().count(selection[i]) > 0);
        assert(kept.contains(selection[i]));
        rows.lemma_filter_contains_rev(matches, selection[i]);
        let k = choose|k: int| 0 <= k < kept.len() && kept[k] == selection[i];
        rows.lemma_filter_pred(matches, k);
    }
    assert forall|i: int|
        0 <= i < rows.len() && matches(#[trigger] rows[i]) implies selection.contains(rows[i]) by {
        rows.lemma_filter_contains(matches, i);
        assert(kept.to_multiset().count(rows[i]) > 0);
    }
}

/// Where no row matches, nothing is selected.
pub proof fn lemma_ordered_none<A>(
    rows: Seq<A>,
    matches: spec_fn(A) -> bool,
    key: spec_fn(A) -> int,
)
    requires
        forall|i: int| 0 <= i < rows.len() ==> !matches(#[trigger] rows[i]),
    ensures
        ordered(rows, matches, key).len() == 0,
{
    lemma_ordered_members(rows, matches, key);
    let selection = ordered(rows, matches, key);
    if selection.len() > 0 {
        assert(rows.contains(selection[0]));
    }
}

/// A row that does not match leaves a selection as it is.
pub proof fn lemma_ordered_push_other<A>(
    rows: Seq<A>,
    row: A,
    matches: spec_fn(A) -> bool,
    key: spec_fn(A) -> int,
)
    requires
        !matches(row),
    ensures
        ordered(rows.push(row), matches, key) == ordered(rows, matches, key),
{
    assert(rows.push(row).drop_last() =~= rows);
}

/// A row that matches and whose key is above those selected goes to the end of a selection.
pub proof fn lemma_ordered_push_last<A>(
    rows: Seq<A>,
    row: A,
    matches: spec_fn(A) -> bool,
    key: spec_fn(A) -> int,
)
    requires
        matches(row),
        forall|i: int|
            0 <= i < ordered(rows, matches, key).len() ==> key(
                #[trigger] ordered(rows, matches, key)[i],
            ) <= key(row),
    ensures
        ordered(rows.push(row), matches, key) == ordered(rows, matches, key).push(row),
{
    assert(rows.push(row).drop_last() =~= rows);
}

} // verus!
