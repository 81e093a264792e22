//! Rows that are told apart by a key: how a list of such rows is read as a
//! map from keys to rows, and what appending, replacing and removing a row
//! does to that map.

use vstd::prelude::*;

verus! {

/// A row with a key.
pub trait Keyed {
    type Key;

    /// The key by which the row is found.
    spec fn key(self) -> Self::Key;
}

/// No two rows with the same key.
pub open spec fn keys_distinct<R: Keyed>(rows: Seq<R>) -> bool {
    forall|i: int, j: int|
        0 <= i < j < rows.len() ==> (#[trigger] rows[i]).key() != (#[trigger] rows[j]).key()
}

/// Whether the row at `i` has `key`.
pub open spec fn is_at<R: Keyed>(rows: Seq<R>, key: R::Key, i: int) -> bool {
    0 <= i < rows.len() && rows[i].key() == key
}

/// Whether some row has `key`.
pub open spec fn has_key<R: Keyed>(rows: Seq<R>, key: R::Key) -> bool {
    exists|i: int| is_at(rows, key, i)
}

/// Where a row with `key` stands, if there is one.
pub open spec fn position_of<R: Keyed>(rows: Seq<R>, key: R::Key) -> int {
    choose|i: int| is_at(rows, key, i)
}

/// The rows as a map from their keys.
pub open spec fn as_map<R: Keyed>(rows: Seq<R>) -> Map<R::Key, R> {
    Map::new(|key: R::Key| has_key(rows, key), |key: R::Key| rows[position_of(rows, key)])
}

/// With distinct keys, the row at `i` is the one that its key is mapped to.
pub proof fn lemma_found<R: Keyed>(rows: Seq<R>, i: int)
    requires
        keys_distinct(rows),
        0 <= i < rows.len(),
    ensures
        has_key(rows, rows[i].key()),
        position_of(rows, rows[i].key()) == i,
        as_map(rows).dom().contains(rows[i].key()),
        as_map(rows)[rows[i].key()] == rows[i],
{
    let key = rows[i].key();
    assert(is_at(rows, key, i));
    let j = position_of(rows, key);
    assert(is_at(rows, key, j));
    if i < j {
        assert(rows[i].key() != rows[j].key());
    } else if j < i {
        assert(rows[j].key() != rows[i].key());
    }
}

/// A key that no row has is not in the map.
pub proof fn lemma_absent<R: Keyed>(rows: Seq<R>, key: R::Key)
    requires
        forall|i: int| 0 <= i < rows.len() ==> (#[trigger] rows[i]).key() != key,
    ensures
        !has_key(rows, key),
        !as_map(rows).dom().contains(key),
{
    if has_key(rows, key) {
        let i = position_of(rows, key);
        assert(is_at(rows, key, i));
        assert(rows[i].key() != key);
    }
}

/// A key that the map does not hold is the key of no row.
pub proof fn lemma_absent_from_map<R: Keyed>(rows: Seq<R>, key: R::Key)
    requires
        !has_key(rows, key),
    ensures
        !as_map(rows).dom().contains(key),
        forall|i: int| 0 <= i < rows.len() ==> (#[trigger] rows[i]).key() != key,
{
    assert forall|i: int| 0 <= i < rows.len() implies (#[trigger] rows[i]).key() != key by {
        assert(is_at(rows, key, i) ==> has_key(rows, key));
    }
}

/// Appending a row with a new key inserts it into the map.
pub proof fn lemma_push<R: Keyed>(rows: Seq<R>, row: R)
    requires
        keys_distinct(rows),
        !as_map(rows).dom().contains(row.key()),
    ensures
        keys_distinct(rows.push(row)),
        as_map(rows.push(row)) == as_map(rows).insert(row.key(), row),
{
    let after = rows.push(row);
    assert forall|i: int, j: int| 0 <= i < j < after.len() implies (#[trigger] after[i]).key() != (
    #[trigger] after[j]).key() by {
        if j == rows.len() {
            assert(is_at(rows, row.key(), i) ==> has_key(rows, row.key()));
        } else {
            assert(rows[i].key() != rows[j].key());
        }
    }
    assert forall|key: R::Key|
        as_map(after).dom().contains(key) == as_map(rows).insert(row.key(), row).dom().contains(
            key,
        ) by {
        if has_key(after, key) {
            let i = position_of(after, key);
            assert(is_at(after, key, i));
            if i < rows.len() {
                assert(is_at(rows, key, i));
            }
        }
        if has_key(rows, key) {
            let i = position_of(rows, key);
            assert(is_at(after, key, i));
        }
        if key == row.key() {
            assert(is_at(after, key, rows.len() as int));
        }
    }
    assert forall|key: R::Key| #[trigger]
        as_map(after).dom().contains(key) implies as_map(after)[key] == as_map(rows).insert(
        row.key(),
        row,
    )[key] by {
        let i = position_of(after, key);
        assert(is_at(after, key, i));
        lemma_found(after, i);
        if i < rows.len() {
            lemma_found(rows, i);
        }
    }
    assert(as_map(after) =~= as_map(rows).insert(row.key(), row));
}

/// Replacing a row by one with the same key replaces its entry in the map.
pub proof fn lemma_update<R: Keyed>(rows: Seq<R>, i: int, row: R)
    requires
        keys_distinct(rows),
        0 <= i < rows.len(),
        row.key() == rows[i].key(),
    ensures
        keys_distinct(rows.update(i, row)),
        as_map(rows.update(i, row)) == as_map(rows).insert(row.key(), row),
{
    let after = rows.update(i, row);
    assert forall|a: int, b: int| 0 <= a < b < after.len() implies (#[trigger] after[a]).key() != (
    #[trigger] after[b]).key() by {
        assert(rows[a].key() != rows[b].key());
    }
    assert forall|key: R::Key|
        as_map(after).dom().contains(key) == as_map(rows).insert(row.key(), row).dom().contains(
            key,
        ) by {
        if has_key(after, key) {
            let a = position_of(after, key);
            assert(is_at(after, key, a));
            assert(is_at(rows, key, a));
        }
        if has_key(rows, key) {
            let a = position_of(rows, key);
            assert(is_at(rows, key, a));
            assert(is_at(after, key, a));
        }
        if key == row.key() {
            assert(is_at(after, key, i));
        }
    }
    assert forall|key: R::Key| #[trigger]
        as_map(after).dom().contains(key) implies as_map(after)[key] == as_map(rows).insert(
        row.key(),
        row,
    )[key] by {
        let a = position_of(after, key);
        assert(is_at(after, key, a));
        lemma_found(after, a);
        lemma_found(rows, a);
    }
    assert(as_map(after) =~= as_map(rows).insert(row.key(), row));
}

/// Removing a row removes its entry from the map.
pub proof fn lemma_remove<R: Keyed>(rows: Seq<R>, i: int)
    requires
        keys_distinct(rows),
        0 <= i < rows.len(),
    ensures
        keys_distinct(rows.remove(i)),
        as_map(rows.remove(i)) == as_map(rows).remove(rows[i].key()),
{
    let after = rows.remove(i);
    let gone = rows[i].key();
    assert forall|a: int| 0 <= a < after.len() implies #[trigger] after[a] == rows[if a < i {
        a
    } else {
        a + 1
    }] by {}
    assert forall|a: int, b: int| 0 <= a < b < after.len() implies (#[trigger] after[a]).key() != (
    #[trigger] after[b]).key() by {
        let a0 = if a < i { a } else { a + 1 };
        let b0 = if b < i { b } else { b + 1 };
        assert(rows[a0].key() != rows[b0].key());
    }
    assert forall|key: R::Key|
        as_map(after).dom().contains(key) == as_map(rows).remove(gone).dom().contains(key) by {
        if has_key(after, key) {
            let a = position_of(after, key);
            assert(is_at(after, key, a));
            let a0 = if a < i { a } else { a + 1 };
            assert(is_at(rows, key, a0));
            if a0 < i {
                assert(rows[a0].key() != rows[i].key());
            } else {
                assert(rows[i].key() != rows[a0].key());
            }
        }
        if has_key(rows, key) && key != gone {
            let a = position_of(rows, key);
            assert(is_at(rows, key, a));
            let a1 = if a < i { a } else { a - 1 };
            assert(is_at(after, key, a1));
        }
    }
    assert forall|key: R::Key| #[trigger]
        as_map(after).dom().contains(key) implies as_map(after)[key] == as_map(rows).remove(
        gone,
    )[key] by {
        let a = position_of(after, key);
        assert(is_at(after, key, a));
        lemma_found(after, a);
        let a0 = if a < i { a } else { a + 1 };
        lemma_found(rows, a0);
    }
    assert(as_map(after) =~= as_map(rows).remove(gone));
}

/// Two lists with distinct keys, no key of the one in the other, make a
/// list with distinct keys when the second is put behind the first.
pub proof fn lemma_concat_distinct<R: Keyed>(first: Seq<R>, second: Seq<R>)
    requires
        keys_distinct(first),
        keys_distinct(second),
        forall|i: int, j: int|
            0 <= i < first.len() && 0 <= j < second.len() ==> (#[trigger] first[i]).key() != (
            #[trigger] second[j]).key(),
    ensures
        keys_distinct(first + second),
{
    let all = first + second;
    assert forall|i: int, j: int| 0 <= i < j < all.len() implies (#[trigger] all[i]).key() != (
    #[trigger] all[j]).key() by {
        if j < first.len() {
            assert(first[i].key() != first[j].key());
        } else if i < first.len() {
            assert(first[i].key() != second[j - first.len()].key());
        } else {
            assert(second[i - first.len()].key() != second[j - first.len()].key());
        }
    }
}

/// A list with distinct keys that is made of two parts maps every key as
/// the part does that holds it.
pub proof fn lemma_concat<R: Keyed>(first: Seq<R>, second: Seq<R>)
    requires
        keys_distinct(first + second),
    ensures
        keys_distinct(first),
        keys_distinct(second),
        as_map(first + second) == as_map(first).union_prefer_right(as_map(second)),
        forall|key: R::Key| !(as_map(first).contains_key(key) && as_map(second).contains_key(key)),
{
    let all = first + second;
    assert forall|i: int, j: int| 0 <= i < j < first.len() implies (#[trigger] first[i]).key() != (
    #[trigger] first[j]).key() by {
        assert(all[i].key() != all[j].key());
    }
    assert forall|i: int, j: int| 0 <= i < j < second.len() implies (#[trigger] second[i]).key()
        != (#[trigger] second[j]).key() by {
        assert(all[i + first.len()].key() != all[j + first.len()].key());
    }
    assert forall|key: R::Key|
        !(as_map(first).contains_key(key) && as_map(second).contains_key(key)) by {
        if as_map(first).contains_key(key) && as_map(second).contains_key(key) {
            let i = position_of(first, key);
            let j = position_of(second, key);
            assert(is_at(first, key, i));
            assert(is_at(second, key, j));
            assert(all[i].key() != all[j + first.len()].key());
        }
    }
    let joined = as_map(first).union_prefer_right(as_map(second));
    assert forall|key: R::Key| as_map(all).contains_key(key) == joined.contains_key(key) by {
        if has_key(all, key) {
            let i = position_of(all, key);
            assert(is_at(all, key, i));
            if i < first.len() {
                assert(is_at(first, key, i));
            } else {
                assert(is_at(second, key, i - first.len()));
            }
        }
        if has_key(first, key) {
            let i = position_of(first, key);
            assert(is_at(first, key, i));
            assert(is_at(all, key, i));
        }
        if has_key(second, key) {
            let j = position_of(second, key);
            assert(is_at(second, key, j));
            assert(is_at(all, key, j + first.len()));
        }
    }
    assert forall|key: R::Key| #[trigger] as_map(all).contains_key(key) implies as_map(all)[key]
        == joined[key] by {
        let i = position_of(all, key);
        assert(is_at(all, key, i));
        lemma_found(all, i);
        if i < first.len() {
            lemma_found(first, i);
        } else {
            lemma_found(second, i - first.len());
        }
    }
    assert(as_map(all) =~= joined);
}

/// Rows with distinct keys are as many as the entries of their map.
pub proof fn lemma_count<R: Keyed>(rows: Seq<R>)
    requires
        keys_distinct(rows),
    ensures
        as_map(rows).dom().finite(),
        as_map(rows).dom().len() == rows.len(),
    decreases rows.len(),
{
    if rows.len() == 0 {
        assert forall|key: R::Key| !as_map(rows).contains_key(key) by {
            lemma_absent(rows, key);
        }
        assert(as_map(rows).dom() =~= Set::<R::Key>::empty());
    } else {
        let last = rows.last();
        let rest = rows.drop_last();
        assert forall|i: int, j: int| 0 <= i < j < rest.len() implies (#[trigger] rest[i]).key() != (
        #[trigger] rest[j]).key() by {
            assert(rows[i].key() != rows[j].key());
        }
        lemma_count(rest);
        assert forall|i: int| 0 <= i < rest.len() implies (#[trigger] rest[i]).key()
            != last.key() by {
            assert(rows[i].key() != rows[rows.len() - 1].key());
        }
        lemma_absent(rest, last.key());
        lemma_push(rest, last);
        assert(rest.push(last) =~= rows);
        assert(as_map(rows).dom() =~= as_map(rest).dom().insert(last.key()));
    }
}

} // verus!
