//! A table of rows with a unique string key: the shape of every relation
//! in the mirror.
//!
//! The view of a table is the sequence of its rows' views, in the order in
//! which their keys first entered the table.

use vstd::prelude::*;

verus! {

/// A row that is identified by a string key.
pub trait Keyed: View + Sized {
    /// The key of a row, read from its view.
    spec fn key_of(row: Self::V) -> Seq<char>;

    /// The key of this row.
    fn key(&self) -> (k: &String)
        ensures
            k@ == Self::key_of(self@),
    ;
}

/// No two rows share a key.
pub open spec fn distinct_keys<T: Keyed>(rows: Seq<T::V>) -> bool {
    forall|i: int, j: int|
        0 <= i < j < rows.len() ==> T::key_of(#[trigger] rows[i]) != T::key_of(#[trigger] rows[j])
}

/// Some row has key `key`.
pub open spec fn has_key<T: Keyed>(rows: Seq<T::V>, key: Seq<char>) -> bool {
    exists|i: int| 0 <= i < rows.len() && T::key_of(#[trigger] rows[i]) == key
}

/// An index at which `key` is found; meaningful where `has_key` holds, and
/// the only such index where the keys are distinct.
pub open spec fn position<T: Keyed>(rows: Seq<T::V>, key: Seq<char>) -> int {
    choose|i: int| 0 <= i < rows.len() && T::key_of(#[trigger] rows[i]) == key
}

/// Insert-or-replace: the row with the key of `row` is replaced in place, or
/// `row` is appended where the key is new.
pub open spec fn upsert<T: Keyed>(rows: Seq<T::V>, row: T::V) -> Seq<T::V> {
    if has_key::<T>(rows, T::key_of(row)) {
        rows.update(position::<T>(rows, T::key_of(row)), row)
    } else {
        rows.push(row)
    }
}

/// Where keys are distinct, a key is found at one index only.
pub proof fn lemma_position_unique<T: Keyed>(rows: Seq<T::V>, key: Seq<char>, i: int)
    requires
        distinct_keys::<T>(rows),
        0 <= i < rows.len(),
        T::key_of(rows[i]) == key,
    ensures
        has_key::<T>(rows, key),
        position::<T>(rows, key) == i,
{
    let p = position::<T>(rows, key);
    assert(0 <= p < rows.len() && T::key_of(rows[p]) == key);
    if p < i {
        assert(T::key_of(rows[p]) != T::key_of(rows[i]));
    } else if i < p {
        assert(T::key_of(rows[i]) != T::key_of(rows[p]));
    }
}

/// An upsert keeps keys distinct, leaves every row with another key where it
/// was, and makes `row` the row of its key.
pub proof fn lemma_upsert<T: Keyed>(rows: Seq<T::V>, row: T::V)
    requires
        distinct_keys::<T>(rows),
    ensures
        distinct_keys::<T>(upsert::<T>(rows, row)),
        has_key::<T>(upsert::<T>(rows, row), T::key_of(row)),
        upsert::<T>(rows, row)[position::<T>(upsert::<T>(rows, row), T::key_of(row))] == row,
        upsert::<T>(rows, row).len() >= rows.len(),
        forall|i: int|
            0 <= i < rows.len() && T::key_of(#[trigger] rows[i]) != T::key_of(row)
                ==> upsert::<T>(rows, row)[i] == rows[i],
        forall|i: int|
            0 <= i < rows.len() ==> T::key_of(#[trigger] upsert::<T>(rows, row)[i]) == T::key_of(
                rows[i],
            ),
        forall|k: Seq<char>|
            has_key::<T>(upsert::<T>(rows, row), k) <==> (has_key::<T>(rows, k) || k == T::key_of(
                row,
            )),
{
    let key = T::key_of(row);
    let out = upsert::<T>(rows, row);
    if has_key::<T>(rows, key) {
        let p = position::<T>(rows, key);
        assert(out.len() == rows.len());
        assert forall|i: int| 0 <= i < rows.len() implies T::key_of(#[trigger] out[i])
            == T::key_of(rows[i]) by {}
        assert forall|i: int, j: int| 0 <= i < j < out.len() implies T::key_of(#[trigger] out[i])
            != T::key_of(#[trigger] out[j]) by {
            assert(T::key_of(rows[i]) != T::key_of(rows[j]));
        }
        lemma_position_unique::<T>(out, key, p);
        assert forall|k: Seq<char>|
            has_key::<T>(out, k) <==> (has_key::<T>(rows, k) || k == key) by {
            if has_key::<T>(out, k) {
                let i = position::<T>(out, k);
                assert(T::key_of(rows[i]) == k);
            }
            if has_key::<T>(rows, k) {
                let i = position::<T>(rows, k);
                assert(T::key_of(out[i]) == k);
            }
            if k == key {
                assert(T::key_of(out[p]) == k);
            }
        }
    } else {
        assert forall|i: int| 0 <= i < rows.len() implies T::key_of(#[trigger] rows[i]) != key by {}
        assert forall|i: int, j: int| 0 <= i < j < out.len() implies T::key_of(#[trigger] out[i])
            != T::key_of(#[trigger] out[j]) by {
            if j < rows.len() {
                assert(T::key_of(rows[i]) != T::key_of(rows[j]));
            } else {
                assert(T::key_of(rows[i]) != key);
            }
        }
        lemma_position_unique::<T>(out, key, rows.len() as int);
        assert forall|k: Seq<char>|
            has_key::<T>(out, k) <==> (has_key::<T>(rows, k) || k == key) by {
            if has_key::<T>(out, k) {
                let i = position::<T>(out, k);
                if i < rows.len() {
                    assert(T::key_of(rows[i]) == k);
                }
            }
            if has_key::<T>(rows, k) {
                let i = position::<T>(rows, k);
                assert(T::key_of(out[i]) == k);
            }
            if k == key {
                assert(T::key_of(out[rows.len() as int]) == k);
            }
        }
    }
}

/// Rows under distinct keys.
pub struct Table<T> {
    rows: Vec<T>,
}

impl<T: Keyed> View for Table<T> {
    type V = Seq<T::V>;

    closed spec fn view(&self) -> Seq<T::V> {
        self.rows@.map_values(|r: T| r@)
    }
}

impl<T: Keyed> Table<T> {
    /// The table's invariant: keys are distinct.
    pub open spec fn wf(&self) -> bool {
        distinct_keys::<T>(self@)
    }

    /// The empty table.
    pub fn new() -> (t: Self)
        ensures
            t@ == Seq::<T::V>::empty(),
            t.wf(),
    {
        let t = Table { rows: Vec::new() };
        assert(t@ =~= Seq::<T::V>::empty());
        t
    }

    /// The number of rows.
    pub fn len(&self) -> (n: usize)
        ensures
            n == self@.len(),
    {
        self.rows.len()
    }

    /// The row at index `i`, if there is one.
    pub fn get(&self, i: usize) -> (r: Option<&T>)
        ensures
            i < self@.len() ==> r.is_some() && r.unwrap()@ == self@[i as int],
            i >= self@.len() ==> r.is_none(),
    {
        if i < self.rows.len() {
            Some(&self.rows[i])
        } else {
            None
        }
    }

    /// The row at index `i`.
    pub(crate) fn row(&self, i: usize) -> (r: &T)
        requires
            i < self@.len(),
        ensures
            r@ == self@[i as int],
    {
        &self.rows[i]
    }

    /// The index of the row with key `key`, if there is one.
    pub fn find(&self, key: &String) -> (r: Option<usize>)
        requires
            self.wf(),
        ensures
            r.is_some() <==> has_key::<T>(self@, key@),
            r.is_some() ==> r.unwrap() as int == position::<T>(self@, key@),
    {
        let mut i: usize = 0;
        while i < self.rows.len()
            invariant
                i <= self.rows.len(),
                self.wf(),
                forall|j: int| 0 <= j < i ==> T::key_of(#[trigger] self@[j]) != key@,
            decreases self.rows.len() - i,
        {
            if *self.rows[i].key() == *key {
                proof {
                    lemma_position_unique::<T>(self@, key@, i as int);
                }
                return Some(i);
            }
            i += 1;
        }
        None
    }

    /// Inserts `row`, or replaces the row that has its key.
    pub fn upsert(&mut self, row: T)
        requires
            old(self).wf(),
        ensures
            final(self).wf(),
            final(self)@ == upsert::<T>(old(self)@, row@),
    {
        proof {
            lemma_upsert::<T>(self@, row@);
        }
        match self.find(row.key()) {
            Some(i) => {
                self.rows.set(i, row);
                assert(self@ =~= upsert::<T>(old(self)@, row@));
            },
            None => {
                self.rows.push(row);
                assert(self@ =~= upsert::<T>(old(self)@, row@));
            },
        }
    }
}

} // verus!
