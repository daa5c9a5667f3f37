//! Keyed tables: rows in the order of their keys, no key twice.

use crate::order::{
    lemma_text_le_antisymmetric, lemma_text_le_total, lemma_text_le_transitive, str_le, text_le,
    text_lt,
};
use crate::text::str_eq;
use vstd::prelude::*;

verus! {

/// A kind of value that has a key.
pub trait Keyed: Sized {
    /// The key of `self`.
    spec fn key(&self) -> Seq<char>;
}

/// A kind of data that can be a row of a table: it has a model with a key,
/// and can hand out the key at run time.
pub trait Row: Sized {
    /// What a row is, as far as the table goes.
    type Model: Keyed;

    /// The model of `self`.
    spec fn model(&self) -> Self::Model;

    /// The key of `self`.
    fn key_text(&self) -> (k: &str)
        ensures
            k@ == self.model().key(),
    ;
}

/// The models of a list of rows.
pub open spec fn row_models<R: Row>(rows: Seq<R>) -> Seq<R::Model> {
    rows.map_values(|r: R| r.model())
}

/// The keys of `rows` go strictly up: the rows stand in the order of their
/// keys and no key occurs twice.
pub open spec fn ascending<T: Keyed>(rows: Seq<T>) -> bool {
    forall|i: int, j: int|
        #![trigger rows[i], rows[j]]
        0 <= i < j < rows.len() ==> text_lt(rows[i].key(), rows[j].key())
}

/// The number of leading rows whose keys come strictly before `key`.
pub open spec fn slot<T: Keyed>(rows: Seq<T>, key: Seq<char>) -> nat
    decreases rows.len(),
{
    if rows.len() == 0 || text_le(key, rows[0].key()) {
        0
    } else {
        1 + slot(rows.skip(1), key)
    }
}

/// Whether a row of `rows` has the key `key`.
pub open spec fn has_key<T: Keyed>(rows: Seq<T>, key: Seq<char>) -> bool {
    slot(rows, key) < rows.len() && rows[slot(rows, key) as int].key() == key
}

/// The row of `rows` with the key `key`.
pub open spec fn get<T: Keyed>(rows: Seq<T>, key: Seq<char>) -> Option<T> {
    if has_key(rows, key) {
        Some(rows[slot(rows, key) as int])
    } else {
        None
    }
}

/// `rows` with `row` in place of the row with its key, or at its place in
/// the order where no row has its key.
pub open spec fn put<T: Keyed>(rows: Seq<T>, row: T) -> Seq<T> {
    if has_key(rows, row.key()) {
        rows.update(slot(rows, row.key()) as int, row)
    } else {
        rows.insert(slot(rows, row.key()) as int, row)
    }
}

/// `rows` without the row with the key `key`.
pub open spec fn without<T: Keyed>(rows: Seq<T>, key: Seq<char>) -> Seq<T> {
    if has_key(rows, key) {
        rows.remove(slot(rows, key) as int)
    } else {
        rows
    }
}

/// `rows` with each row of `more` put in, in the order of `more`.
pub open spec fn put_all<T: Keyed>(rows: Seq<T>, more: Seq<T>) -> Seq<T>
    decreases more.len(),
{
    if more.len() == 0 {
        rows
    } else {
        put_all(put(rows, more[0]), more.skip(1))
    }
}

/// The rows ahead of a slot have keys strictly before `key`, and the row at
/// the slot has not.
pub proof fn lemma_slot<T: Keyed>(rows: Seq<T>, key: Seq<char>)
    ensures
        slot(rows, key) <= rows.len(),
        forall|i: int|
            #![trigger rows[i]]
            0 <= i < slot(rows, key) ==> text_lt(rows[i].key(), key),
        slot(rows, key) < rows.len() ==> text_le(key, rows[slot(rows, key) as int].key()),
    decreases rows.len(),
{
    if rows.len() == 0 || text_le(key, rows[0].key()) {
    } else {
        let rest = rows.skip(1);
        lemma_slot(rest, key);
        lemma_text_le_total(key, rows[0].key());
        assert forall|i: int| #![trigger rows[i]] 0 <= i < slot(rows, key) implies text_lt(
            rows[i].key(),
            key,
        ) by {
            if i > 0 {
                assert(rows[i] == rest[i - 1]);
            }
        }
    }
}

/// In a table, the row with a key is the only row with that key, and where
/// `get` finds none, no row has it.
pub proof fn lemma_get<T: Keyed>(rows: Seq<T>, key: Seq<char>)
    requires
        ascending(rows),
    ensures
        forall|i: int|
            #![trigger rows[i]]
            0 <= i < rows.len() && rows[i].key() == key ==> get(rows, key) == Some(rows[i]),
        get(rows, key) matches Some(r) ==> r.key() == key && rows.contains(r),
{
    lemma_slot(rows, key);
    let p = slot(rows, key) as int;
    assert forall|i: int| #![trigger rows[i]] 0 <= i < rows.len() && rows[i].key()
        == key implies get(rows, key) == Some(rows[i]) by {
        if i < p {
            // rows[i].key() is strictly before key
        } else if i > p {
            assert(text_lt(rows[p].key(), rows[i].key()));
            lemma_text_le_antisymmetric(rows[p].key(), key);
        }
    }
}

/// A table stays a table when a row is put in; it then holds that row under
/// its key, and every other key holds what it held.
pub proof fn lemma_put<T: Keyed>(rows: Seq<T>, row: T)
    requires
        ascending(rows),
    ensures
        ascending(put(rows, row)),
        get(put(rows, row), row.key()) == Some(row),
        forall|k: Seq<char>| k != row.key() ==> get(put(rows, row), k) == #[trigger] get(rows, k),
        put(rows, row).len() == if has_key(rows, row.key()) {
            rows.len()
        } else {
            rows.len() + 1
        },
{
    let key = row.key();
    let p = slot(rows, key) as int;
    let out = put(rows, row);
    lemma_slot(rows, key);
    if !has_key(rows, key) {
        rows.insert_ensures(p, row);
    }
    assert forall|i: int, j: int| #![trigger out[i], out[j]] 0 <= i < j < out.len() implies text_lt(
        out[i].key(),
        out[j].key(),
    ) by {
        lemma_put_order(rows, row, i, j);
    }
    assert(out[p] == row);
    lemma_get(out, key);
    assert forall|k: Seq<char>| k != key implies get(out, k) == #[trigger] get(rows, k) by {
        lemma_get(rows, k);
        lemma_get(out, k);
        match get(rows, k) {
            Some(r) => {
                let m = choose|m: int| 0 <= m < rows.len() && rows[m] == r;
                let n = if has_key(rows, key) || m < p {
                    m
                } else {
                    m + 1
                };
                assert(out[n] == r);
            },
            None => {
                match get(out, k) {
                    Some(r) => {
                        let n = choose|n: int| 0 <= n < out.len() && out[n] == r;
                        let m = if has_key(rows, key) || n < p {
                            n
                        } else {
                            n - 1
                        };
                        assert(rows[m] == r);
                    },
                    None => {},
                }
            },
        }
    }
}

/// Two rows of `put(rows, row)` stand in the order of their keys.
proof fn lemma_put_order<T: Keyed>(rows: Seq<T>, row: T, i: int, j: int)
    requires
        ascending(rows),
        0 <= i < j < put(rows, row).len(),
    ensures
        text_lt(put(rows, row)[i].key(), put(rows, row)[j].key()),
{
    let key = row.key();
    let p = slot(rows, key) as int;
    let out = put(rows, row);
    lemma_slot(rows, key);
    if has_key(rows, key) {
        if i != p && j != p {
            assert(out[i] == rows[i] && out[j] == rows[j]);
        } else if i == p {
            assert(out[j] == rows[j]);
            assert(text_lt(rows[p].key(), rows[j].key()));
        } else {
            assert(out[i] == rows[i]);
        }
    } else {
        rows.insert_ensures(p, row);
        if j < p {
            assert(out[i] == rows[i] && out[j] == rows[j]);
        } else if j == p {
            assert(out[i] == rows[i]);
        } else if i < p {
            assert(out[i] == rows[i] && out[j] == rows[j - 1]);
            if i < j - 1 {
            } else {
                assert(text_lt(rows[i].key(), key));
                assert(text_le(key, rows[p].key()));
                lemma_text_le_transitive(rows[i].key(), key, rows[p].key());
                if rows[i].key() == rows[p].key() {
                    lemma_text_le_antisymmetric(rows[i].key(), key);
                }
            }
        } else if i == p {
            assert(out[j] == rows[j - 1]);
            if j - 1 == p {
            } else {
                assert(text_lt(rows[p].key(), rows[j - 1].key()));
                lemma_text_le_transitive(key, rows[p].key(), rows[j - 1].key());
                if key == rows[j - 1].key() {
                    lemma_text_le_antisymmetric(rows[p].key(), key);
                }
            }
        } else {
            assert(out[i] == rows[i - 1] && out[j] == rows[j - 1]);
        }
    }
}

/// A table stays a table when a key is taken out; it then holds nothing
/// under that key, and every other key holds what it held.
pub proof fn lemma_without<T: Keyed>(rows: Seq<T>, key: Seq<char>)
    requires
        ascending(rows),
    ensures
        ascending(without(rows, key)),
        get(without(rows, key), key) is None,
        forall|k: Seq<char>| k != key ==> get(without(rows, key), k) == #[trigger] get(rows, k),
{
    let p = slot(rows, key) as int;
    let out = without(rows, key);
    lemma_slot(rows, key);
    if has_key(rows, key) {
        rows.remove_ensures(p);
        assert forall|i: int, j: int| #![trigger out[i], out[j]] 0 <= i < j
            < out.len() implies text_lt(out[i].key(), out[j].key()) by {
            let a = if i < p {
                i
            } else {
                i + 1
            };
            let b = if j < p {
                j
            } else {
                j + 1
            };
            assert(out[i] == rows[a] && out[j] == rows[b]);
        }
        lemma_get(out, key);
        lemma_get(rows, key);
        if get(out, key) is Some {
            let r = get(out, key).unwrap();
            let n = choose|n: int| 0 <= n < out.len() && out[n] == r;
            let m = if n < p {
                n
            } else {
                n + 1
            };
            assert(rows[m] == r);
            assert(get(rows, key) == Some(rows[m]));
            assert(rows[m] == rows[p]);
            assert(text_lt(rows[m].key(), rows[p].key()) || text_lt(rows[p].key(), rows[m].key()));
        }
        assert forall|k: Seq<char>| k != key implies get(out, k) == #[trigger] get(rows, k) by {
            lemma_get(rows, k);
            lemma_get(out, k);
            match get(rows, k) {
                Some(r) => {
                    let m = choose|m: int| 0 <= m < rows.len() && rows[m] == r;
                    let n = if m < p {
                        m
                    } else {
                        m - 1
                    };
                    assert(out[n] == r);
                },
                None => {
                    match get(out, k) {
                        Some(r) => {
                            let n = choose|n: int| 0 <= n < out.len() && out[n] == r;
                            let m = if n < p {
                                n
                            } else {
                                n + 1
                            };
                            assert(rows[m] == r);
                        },
                        None => {},
                    }
                },
            }
        }
    } else {
        lemma_get(rows, key);
    }
}

/// A table stays a table when rows are put in one after the other.
pub proof fn lemma_put_all<T: Keyed>(rows: Seq<T>, more: Seq<T>)
    requires
        ascending(rows),
    ensures
        ascending(put_all(rows, more)),
    decreases more.len(),
{
    if more.len() > 0 {
        lemma_put(rows, more[0]);
        lemma_put_all(put(rows, more[0]), more.skip(1));
    }
}

/// The last row of `rows` with the key `key`.
pub open spec fn last_with_key<T: Keyed>(rows: Seq<T>, key: Seq<char>) -> Option<T>
    decreases rows.len(),
{
    if rows.len() == 0 {
        None
    } else if rows.last().key() == key {
        Some(rows.last())
    } else {
        last_with_key(rows.drop_last(), key)
    }
}

/// The last row with a key among `rows` is the last one among all but the
/// first, or the first where none of the others has the key.
pub proof fn lemma_last_with_key_front<T: Keyed>(rows: Seq<T>, key: Seq<char>)
    requires
        rows.len() > 0,
    ensures
        last_with_key(rows, key) == match last_with_key(rows.skip(1), key) {
            Some(x) => Some(x),
            None => if rows[0].key() == key {
                Some(rows[0])
            } else {
                None
            },
        },
    decreases rows.len(),
{
    if rows.len() == 1 {
        assert(rows.drop_last() =~= Seq::<T>::empty());
        assert(rows.skip(1) =~= Seq::<T>::empty());
    } else {
        assert(rows.skip(1).last() == rows.last());
        assert(rows.skip(1).drop_last() =~= rows.drop_last().skip(1));
        assert(rows.drop_last()[0] == rows[0]);
        if rows.last().key() != key {
            lemma_last_with_key_front(rows.drop_last(), key);
        }
    }
}

/// Where every row keeps its key under `f`, the last row with a key among the
/// images is the image of the last row with that key.
pub proof fn lemma_last_with_key_map<T: Keyed>(rows: Seq<T>, f: spec_fn(T) -> T, key: Seq<char>)
    requires
        forall|x: T| (#[trigger] f(x)).key() == x.key(),
    ensures
        last_with_key(rows.map_values(f), key) == match last_with_key(rows, key) {
            Some(x) => Some(f(x)),
            None => None,
        },
    decreases rows.len(),
{
    if rows.len() > 0 {
        assert(rows.map_values(f).drop_last() =~= rows.drop_last().map_values(f));
        assert(rows.map_values(f).last() == f(rows.last()));
        lemma_last_with_key_map(rows.drop_last(), f, key);
    }
}

/// After rows were put in one after the other, a key holds the last of them
/// that has it, or what it held where none of them has it.
pub proof fn lemma_get_put_all<T: Keyed>(rows: Seq<T>, more: Seq<T>, key: Seq<char>)
    requires
        ascending(rows),
    ensures
        get(put_all(rows, more), key) == match last_with_key(more, key) {
            Some(x) => Some(x),
            None => get(rows, key),
        },
    decreases more.len(),
{
    if more.len() > 0 {
        lemma_put(rows, more[0]);
        lemma_get_put_all(put(rows, more[0]), more.skip(1), key);
        lemma_last_with_key_front(more, key);
    }
}

/// Where a row of `rows` has a key, the last row with that key is a row of
/// `rows` with that key.
pub proof fn lemma_last_with_key_found<T: Keyed>(rows: Seq<T>, row: T)
    requires
        rows.contains(row),
    ensures
        last_with_key(rows, row.key()) matches Some(last) && last.key() == row.key()
            && rows.contains(last),
    decreases rows.len(),
{
    let at = choose|i: int| 0 <= i < rows.len() && rows[i] == row;
    if rows.last().key() == row.key() {
        assert(rows[rows.len() - 1] == rows.last());
    } else {
        let head = rows.drop_last();
        assert(head[at] == row);
        lemma_last_with_key_found(head, row);
        let last = last_with_key(head, row.key())->0;
        let m = choose|m: int| 0 <= m < head.len() && head[m] == last;
        assert(rows[m] == last);
    }
}

/// The slot of `key` among `rows`.
pub fn find_slot<R: Row>(rows: &Vec<R>, key: &str) -> (p: usize)
    ensures
        p == slot(row_models(rows@), key@),
        p <= rows.len(),
{
    let ghost all = row_models(rows@);
    let mut p: usize = 0;
    assert(all.skip(0) =~= all);
    while p < rows.len() && !str_le(key, rows[p].key_text())
        invariant
            p <= rows.len(),
            all == row_models(rows@),
            slot(all, key@) == p + slot(all.skip(p as int), key@),
        decreases rows.len() - p,
    {
        assert(all.skip(p as int)[0] == rows@[p as int].model());
        assert(all.skip(p as int).skip(1) =~= all.skip(p + 1));
        p += 1;
    }
    proof {
        if p < rows.len() {
            assert(all.skip(p as int)[0] == rows@[p as int].model());
        }
    }
    p
}

/// The row with the key `key`.
pub fn get_row<'a, R: Row>(rows: &'a Vec<R>, key: &str) -> (r: Option<&'a R>)
    ensures
        match r {
            Some(row) => get(row_models(rows@), key@) == Some(row.model()),
            None => get(row_models(rows@), key@) is None,
        },
{
    let p = find_slot(rows, key);
    if p < rows.len() && str_eq(rows[p].key_text(), key) {
        Some(&rows[p])
    } else {
        None
    }
}

/// Puts `row` into the table.
pub fn put_row<R: Row>(rows: &mut Vec<R>, row: R)
    ensures
        row_models(final(rows)@) == put(row_models(old(rows)@), row.model()),
{
    let ghost before = row_models(rows@);
    let p = find_slot(rows, row.key_text());
    if p < rows.len() && str_eq(rows[p].key_text(), row.key_text()) {
        rows[p] = row;
        assert(row_models(rows@) =~= before.update(p as int, row.model()));
    } else {
        rows.insert(p, row);
        assert(row_models(rows@) =~= before.insert(p as int, row.model()));
    }
}

/// Takes the row with the key `key` out of the table, and says whether there
/// was one.
pub fn remove_row<R: Row>(rows: &mut Vec<R>, key: &str) -> (found: bool)
    ensures
        row_models(final(rows)@) == without(row_models(old(rows)@), key@),
        found == has_key(row_models(old(rows)@), key@),
{
    let ghost before = row_models(rows@);
    let p = find_slot(rows, key);
    if p < rows.len() && str_eq(rows[p].key_text(), key) {
        rows.remove(p);
        assert(row_models(rows@) =~= before.remove(p as int));
        true
    } else {
        false
    }
}

} // verus!
