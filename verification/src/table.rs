//! Values found by a name.
use vstd::prelude::*;
use crate::text::same;

verus! {

/// One entry of a [`Table`].
pub struct Named<V> {
    pub key: String,
    pub value: V,
}

/// What a list of entries says: for each key the last value given.
pub open spec fn table_map<V: View>(s: Seq<Named<V>>) -> Map<Seq<char>, V::V>
    decreases s.len(),
{
    if s.len() == 0 {
        Map::empty()
    } else {
        table_map(s.drop_last()).insert(s.last().key@, s.last().value@)
    }
}

/// Whether no key occurs twice.
pub open spec fn table_distinct<V>(s: Seq<Named<V>>) -> bool {
    forall|i: int, j: int|
        0 <= i < j < s.len() ==> (#[trigger] s[i]).key@ != (#[trigger] s[j]).key@
}

proof fn lemma_table_map<V: View>(s: Seq<Named<V>>)
    requires
        table_distinct(s),
    ensures
        forall|i: int|
            0 <= i < s.len() ==> table_map(s).contains_key((#[trigger] s[i]).key@) && table_map(
                s,
            )[s[i].key@] == s[i].value@,
        forall|k: Seq<char>| #[trigger]
            table_map(s).contains_key(k) ==> exists|i: int|
                0 <= i < s.len() && (#[trigger] s[i]).key@ == k,
    decreases s.len(),
{
    if s.len() > 0 {
        let d = s.drop_last();
        assert forall|i: int, j: int| 0 <= i < j < d.len() implies (#[trigger] d[i]).key@ != (
        #[trigger] d[j]).key@ by {
            assert(d[i] == s[i] && d[j] == s[j]);
        }
        lemma_table_map(d);
        let m = table_map(s);
        assert forall|i: int| 0 <= i < s.len() implies m.contains_key((#[trigger] s[i]).key@)
            && m[s[i].key@] == s[i].value@ by {
            if i < d.len() {
                assert(d[i] == s[i]);
                assert(s[i].key@ != s[s.len() - 1].key@);
            }
        }
        assert forall|k: Seq<char>| #[trigger] m.contains_key(k) implies exists|i: int|
            0 <= i < s.len() && (#[trigger] s[i]).key@ == k by {
            if k == s.last().key@ {
                assert(s[s.len() - 1].key@ == k);
            } else {
                assert(table_map(d).contains_key(k));
                let i = choose|i: int| 0 <= i < d.len() && (#[trigger] d[i]).key@ == k;
                assert(s[i].key@ == k);
            }
        }
    }
}

/// Two lists without repeated keys that hold the same pairs say the same.
proof fn lemma_table_map_is<V: View>(s: Seq<Named<V>>, m: Map<Seq<char>, V::V>)
    requires
        table_distinct(s),
        forall|k: Seq<char>| #[trigger]
            m.contains_key(k) ==> exists|i: int|
                0 <= i < s.len() && (#[trigger] s[i]).key@ == k && s[i].value@ == m[k],
        forall|i: int| 0 <= i < s.len() ==> m.contains_key((#[trigger] s[i]).key@),
    ensures
        table_map(s) == m,
{
    lemma_table_map(s);
    assert forall|k: Seq<char>|
        #![trigger table_map(s).dom().contains(k)]
        #![trigger m.dom().contains(k)]
        #![trigger m[k]]
        table_map(s).dom().contains(k) == m.dom().contains(k) && (m.dom().contains(k) ==> table_map(s)[k]
            == m[k]) by {
        if m.contains_key(k) {
            let i = choose|i: int|
                0 <= i < s.len() && (#[trigger] s[i]).key@ == k && s[i].value@ == m[k];
        }
        if table_map(s).contains_key(k) {
            let i = choose|i: int| 0 <= i < s.len() && (#[trigger] s[i]).key@ == k;
        }
    }
    assert(table_map(s) =~= m);
}

/// Values found by a name.
pub struct Table<V> {
    pub entries: Vec<Named<V>>,
}

impl<V: View> View for Table<V> {
    type V = Map<Seq<char>, V::V>;

    open spec fn view(&self) -> Map<Seq<char>, V::V> {
        table_map(self.entries@)
    }
}

impl<V: View> Table<V> {
    /// Whether no key occurs twice.
    pub open spec fn wf(self) -> bool {
        table_distinct(self.entries@)
    }

    /// Without any entry.
    pub fn new() -> (r: Table<V>)
        ensures
            r.wf(),
            r@ == Map::<Seq<char>, V::V>::empty(),
    {
        Table { entries: Vec::new() }
    }

    fn find(&self, key: &str) -> (r: Option<usize>)
        requires
            self.wf(),
        ensures
            match r {
                Some(i) => i < self.entries@.len() && self.entries@[i as int].key@ == key@
                    && self@.contains_key(key@) && self@[key@] == self.entries@[i as int].value@,
                None => !self@.contains_key(key@),
            },
    {
        proof {
            lemma_table_map(self.entries@);
        }
        let mut i: usize = 0;
        while i < self.entries.len()
            invariant
                i <= self.entries@.len(),
                self.wf(),
                forall|j: int| 0 <= j < i ==> (#[trigger] self.entries@[j]).key@ != key@,
            decreases self.entries.len() - i,
        {
            if same(self.entries[i].key.as_str(), key) {
                proof {
                    lemma_table_map(self.entries@);
                }
                return Some(i);
            }
            i += 1;
        }
        None
    }

    /// The value for a key.
    pub fn get(&self, key: &str) -> (r: Option<&V>)
        requires
            self.wf(),
        ensures
            match r {
                Some(v) => self@.contains_key(key@) && self@[key@] == v@,
                None => !self@.contains_key(key@),
            },
    {
        match self.find(key) {
            Some(i) => Some(&self.entries[i].value),
            None => None,
        }
    }

    /// Whether there is a value for a key.
    pub fn has(&self, key: &str) -> (r: bool)
        requires
            self.wf(),
        ensures
            r == self@.contains_key(key@),
    {
        self.find(key).is_some()
    }

    /// Gives a key its value, in place of the one it had.
    pub fn set(&mut self, key: String, value: V)
        requires
            old(self).wf(),
        ensures
            final(self).wf(),
            final(self)@ == old(self)@.insert(key@, value@),
    {
        let ghost before = self.entries@;
        let ghost m = self@.insert(key@, value@);
        match self.find(key.as_str()) {
            Some(i) => {
                self.entries.set(i, Named { key, value });
                proof {
                    let now = self.entries@;
                    lemma_table_map(before);
                    assert forall|a: int, b: int| 0 <= a < b < now.len() implies (
                    #[trigger] now[a]).key@ != (#[trigger] now[b]).key@ by {
                        assert(now[a].key@ == before[a].key@);
                        assert(now[b].key@ == before[b].key@);
                    }
                    assert forall|k: Seq<char>| #[trigger] m.contains_key(k) implies exists|j: int|
                        0 <= j < now.len() && (#[trigger] now[j]).key@ == k && now[j].value@
                            == m[k] by {
                        if k == key@ {
                            assert(now[i as int].key@ == k);
                        } else {
                            let j = choose|j: int|
                                0 <= j < before.len() && (#[trigger] before[j]).key@ == k;
                            assert(now[j] == before[j]);
                        }
                    }
                    assert forall|j: int| 0 <= j < now.len() implies m.contains_key(
                        (#[trigger] now[j]).key@,
                    ) by {
                        assert(now[j].key@ == before[j].key@);
                    }
                    lemma_table_map_is(now, m);
                }
            },
            None => {
                self.entries.push(Named { key, value });
                proof {
                    let now = self.entries@;
                    lemma_table_map(before);
                    assert(now.drop_last() =~= before);
                    assert forall|a: int, b: int| 0 <= a < b < now.len() implies (
                    #[trigger] now[a]).key@ != (#[trigger] now[b]).key@ by {
                        assert(now[a] == before[a]);
                        if b < before.len() {
                            assert(now[b] == before[b]);
                        }
                    }
                }
            },
        }
    }

    /// Takes the value of a key out.
    pub fn take(&mut self, key: &str) -> (r: Option<V>)
        requires
            old(self).wf(),
        ensures
            final(self).wf(),
            final(self)@ == old(self)@.remove(key@),
            match r {
                Some(v) => old(self)@.contains_key(key@) && old(self)@[key@] == v@,
                None => !old(self)@.contains_key(key@),
            },
    {
        let ghost before = self.entries@;
        let ghost m = self@.remove(key@);
        match self.find(key) {
            Some(i) => {
                let e = self.entries.remove(i);
                proof {
                    let now = self.entries@;
                    lemma_table_map(before);
                    assert forall|j: int| 0 <= j < now.len() implies #[trigger] now[j] == if j < i {
                        before[j]
                    } else {
                        before[j + 1]
                    } by {}
                    assert forall|a: int, b: int| 0 <= a < b < now.len() implies (
                    #[trigger] now[a]).key@ != (#[trigger] now[b]).key@ by {
                        let x = if a < i { a } else { a + 1 };
                        let y = if b < i { b } else { b + 1 };
                        assert(now[a] == before[x] && now[b] == before[y]);
                    }
                    assert forall|k: Seq<char>| #[trigger] m.contains_key(k) implies exists|j: int|
                        0 <= j < now.len() && (#[trigger] now[j]).key@ == k && now[j].value@
                            == m[k] by {
                        let j = choose|j: int|
                            0 <= j < before.len() && (#[trigger] before[j]).key@ == k;
                        assert(j != i);
                        if j < i {
                            assert(now[j] == before[j]);
                        } else {
                            assert(now[j - 1] == before[j]);
                        }
                    }
                    assert forall|j: int| 0 <= j < now.len() implies m.contains_key(
                        (#[trigger] now[j]).key@,
                    ) by {
                        let x = if j < i { j } else { j + 1 };
                        assert(now[j] == before[x]);
                        assert(before[x].key@ != before[i as int].key@);
                    }
                    lemma_table_map_is(now, m);
                }
                Some(e.value)
            },
            None => {
                assert(self@.remove(key@) =~= self@);
                None
            },
        }
    }
}

} // verus!
