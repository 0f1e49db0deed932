//! What each node has said about each app: one value for every pair of app and
//! node.
use vstd::prelude::*;
use crate::text::same;

verus! {

/// A value that one node gave for one app.
pub struct Row<V> {
    pub app: String,
    pub by: String,
    pub value: V,
}

/// The pair that a row is found by.
pub open spec fn row_key<V>(r: Row<V>) -> (Seq<char>, Seq<char>) {
    (r.app@, r.by@)
}

/// What a list of rows says: for each pair the last value given.
pub open spec fn rows_map<V: View>(rows: Seq<Row<V>>) -> Map<(Seq<char>, Seq<char>), V::V>
    decreases rows.len(),
{
    if rows.len() == 0 {
        Map::empty()
    } else {
        rows_map(rows.drop_last()).insert(row_key(rows.last()), rows.last().value@)
    }
}

/// Whether no pair occurs twice.
pub open spec fn keys_distinct<V>(rows: Seq<Row<V>>) -> bool {
    forall|i: int, j: int|
        0 <= i < j < rows.len() ==> row_key(#[trigger] rows[i]) != row_key(#[trigger] rows[j])
}

/// A list of rows, in which no pair occurs twice, says what each row says.
pub proof fn lemma_rows_map<V: View>(rows: Seq<Row<V>>)
    requires
        keys_distinct(rows),
    ensures
        forall|i: int|
            0 <= i < rows.len() ==> rows_map(rows).contains_key(row_key(#[trigger] rows[i]))
                && rows_map(rows)[row_key(rows[i])] == rows[i].value@,
        forall|k: (Seq<char>, Seq<char>)| #[trigger]
            rows_map(rows).contains_key(k) ==> exists|i: int|
                0 <= i < rows.len() && row_key(#[trigger] rows[i]) == k,
    decreases rows.len(),
{
    if rows.len() > 0 {
        let d = rows.drop_last();
        assert forall|i: int, j: int| 0 <= i < j < d.len() implies row_key(#[trigger] d[i])
            != row_key(#[trigger] d[j]) by {
            assert(d[i] == rows[i] && d[j] == rows[j]);
        }
        lemma_rows_map(d);
        let m = rows_map(rows);
        assert forall|i: int| 0 <= i < rows.len() implies m.contains_key(
            row_key(#[trigger] rows[i]),
        ) && m[row_key(rows[i])] == rows[i].value@ by {
            if i < d.len() {
                assert(d[i] == rows[i]);
                assert(row_key(rows[i]) != row_key(rows[rows.len() - 1]));
            }
        }
        assert forall|k: (Seq<char>, Seq<char>)| #[trigger] m.contains_key(k) implies exists|i: int|
            0 <= i < rows.len() && row_key(#[trigger] rows[i]) == k by {
            if k == row_key(rows.last()) {
                assert(row_key(rows[rows.len() - 1]) == k);
            } else {
                assert(rows_map(d).contains_key(k));
                let i = choose|i: int| 0 <= i < d.len() && row_key(#[trigger] d[i]) == k;
                assert(row_key(rows[i]) == k);
            }
        }
    }
}

/// One value for every pair of app and node.
pub struct Ledger<V> {
    pub rows: Vec<Row<V>>,
}

impl<V: View> View for Ledger<V> {
    type V = Map<(Seq<char>, Seq<char>), V::V>;

    open spec fn view(&self) -> Map<(Seq<char>, Seq<char>), V::V> {
        rows_map(self.rows@)
    }
}

impl<V: View> Ledger<V> {
    /// Whether no pair occurs twice.
    pub open spec fn wf(self) -> bool {
        keys_distinct(self.rows@)
    }

    /// A ledger that says nothing.
    pub fn new() -> (r: Ledger<V>)
        ensures
            r.wf(),
            r@ == Map::<(Seq<char>, Seq<char>), V::V>::empty(),
            r.rows@.len() == 0,
    {
        Ledger { rows: Vec::new() }
    }

    /// The position of the row for a pair.
    pub fn find(&self, app: &str, by: &str) -> (r: Option<usize>)
        requires
            self.wf(),
        ensures
            match r {
                Some(i) => i < self.rows@.len() && row_key(self.rows@[i as int]) == (app@, by@)
                    && self@.contains_key((app@, by@)) && self@[(app@, by@)]
                    == self.rows@[i as int].value@,
                None => !self@.contains_key((app@, by@)),
            },
    {
        proof {
            lemma_rows_map(self.rows@);
        }
        let mut i: usize = 0;
        while i < self.rows.len()
            invariant
                i <= self.rows@.len(),
                forall|j: int| 0 <= j < i ==> row_key(#[trigger] self.rows@[j]) != (app@, by@),
                forall|k: int|
                    0 <= k < self.rows@.len() ==> self@.contains_key(
                        row_key(#[trigger] self.rows@[k]),
                    ) && self@[row_key(self.rows@[k])] == self.rows@[k].value@,
            decreases self.rows.len() - i,
        {
            if same(self.rows[i].app.as_str(), app) && same(self.rows[i].by.as_str(), by) {
                return Some(i);
            }
            i += 1;
        }
        None
    }

    /// Gives a pair its value, in place of the one it had.
    pub fn set(&mut self, app: String, by: String, value: V)
        requires
            old(self).wf(),
        ensures
            final(self).wf(),
            final(self)@ == old(self)@.insert((app@, by@), value@),
    {
        let ghost before = self.rows@;
        let ghost k = (app@, by@);
        match self.find(app.as_str(), by.as_str()) {
            Some(i) => {
                self.rows.set(i, Row { app, by, value });
                proof {
                    let now = self.rows@;
                    assert forall|a: int, b: int| 0 <= a < b < now.len() implies row_key(
                        #[trigger] now[a],
                    ) != row_key(#[trigger] now[b]) by {
                        assert(row_key(now[a]) == row_key(before[a]));
                        assert(row_key(now[b]) == row_key(before[b]));
                    }
                    lemma_rows_map(before);
                    lemma_rows_map(now);
                    let m = rows_map(before).insert(k, value@);
                    assert forall|x: (Seq<char>, Seq<char>)| rows_map(now).contains_key(x)
                        == m.contains_key(x) by {
                        if rows_map(now).contains_key(x) {
                            let j = choose|j: int|
                                0 <= j < now.len() && row_key(#[trigger] now[j]) == x;
                            assert(row_key(before[j]) == x);
                        }
                        if m.contains_key(x) && x != k {
                            let j = choose|j: int|
                                0 <= j < before.len() && row_key(#[trigger] before[j]) == x;
                            assert(row_key(now[j]) == x);
                        }
                        if x == k {
                            assert(row_key(now[i as int]) == k);
                        }
                    }
                    assert forall|x: (Seq<char>, Seq<char>)| m.contains_key(x) implies rows_map(
                        now,
                    )[x] == m[x] by {
                        if x == k {
                            assert(row_key(now[i as int]) == k);
                        } else {
                            let j = choose|j: int|
                                0 <= j < before.len() && row_key(#[trigger] before[j]) == x;
                            assert(now[j] == before[j]);
                        }
                    }
                    assert(rows_map(now) =~= m);
                }
            },
            None => {
                proof {
                    lemma_rows_map(before);
                }
                self.rows.push(Row { app, by, value });
                proof {
                    let now = self.rows@;
                    assert(now.drop_last() =~= before);
                    assert forall|a: int, b: int| 0 <= a < b < now.len() implies row_key(
                        #[trigger] now[a],
                    ) != row_key(#[trigger] now[b]) by {
                        assert(now[a] == before[a]);
                        if b < before.len() {
                            assert(now[b] == before[b]);
                        }
                    }
                }
            },
        }
    }
}

} // verus!
