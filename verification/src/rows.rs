//! A table of rows, at most one per key.
use vstd::prelude::*;

verus! {

/// What a row is found by.
pub trait RowKey: Sized {
    /// What two keys are compared by.
    type Model;

    spec fn model(&self) -> Self::Model;

    fn same(&self, other: &Self) -> (r: bool)
        ensures
            r == (self.model() == other.model()),
    ;
}

/// A row that stops mattering at a known time.
pub trait Dated: Sized {
    spec fn due(&self) -> u64;

    fn deadline(&self) -> (r: u64)
        ensures
            r == self.due(),
    ;
}

/// Rows, no two of them under the same key.
pub struct Rows<K: RowKey, V> {
    rows: Vec<(K, V)>,
}

/// The rows of a sequence as a map.
pub open spec fn rows_map<K: RowKey, V>(s: Seq<(K, V)>) -> Map<K::Model, V>
    decreases s.len(),
{
    if s.len() == 0 {
        Map::empty()
    } else {
        rows_map(s.drop_last()).insert(s.last().0.model(), s.last().1)
    }
}

/// Whether no key occurs twice.
pub open spec fn rows_distinct<K: RowKey, V>(s: Seq<(K, V)>) -> bool {
    forall|i: int, j: int|
        0 <= i < j < s.len() ==> (#[trigger] s[i]).0.model() != (#[trigger] s[j]).0.model()
}

impl<K: RowKey, V> View for Rows<K, V> {
    type V = Map<K::Model, V>;

    closed spec fn view(&self) -> Map<K::Model, V> {
        rows_map(self.rows@)
    }
}

/// What a sequence of distinct rows has in its map.
pub proof fn lemma_rows<K: RowKey, V>(s: Seq<(K, V)>)
    requires
        rows_distinct(s),
    ensures
        forall|i: int|
            #![trigger s[i]]
            0 <= i < s.len() ==> rows_map(s).contains_key(s[i].0.model()) && rows_map(
                s,
            )[s[i].0.model()] == s[i].1,
        forall|m: K::Model|
            #[trigger] rows_map(s).contains_key(m) ==> exists|i: int|
                0 <= i < s.len() && (#[trigger] s[i]).0.model() == m,
        rows_map(s).dom().finite(),
        rows_map(s).dom().len() == s.len(),
    decreases s.len(),
{
    if s.len() > 0 {
        let p = s.drop_last();
        assert forall|i: int, j: int| 0 <= i < j < p.len() implies (#[trigger] p[i]).0.model() != (
        #[trigger] p[j]).0.model() by {
            assert(p[i] == s[i] && p[j] == s[j]);
        }
        lemma_rows(p);
        let last = s.len() - 1;
        assert(!rows_map(p).contains_key(s.last().0.model())) by {
            if rows_map(p).contains_key(s.last().0.model()) {
                let i = choose|i: int|
                    0 <= i < p.len() && (#[trigger] p[i]).0.model() == s.last().0.model();
                assert(s[i] == p[i]);
                assert(s[i].0.model() != s[last].0.model());
            }
        }
        assert forall|i: int| #![trigger s[i]] 0 <= i < s.len() implies rows_map(s).contains_key(
            s[i].0.model(),
        ) && rows_map(s)[s[i].0.model()] == s[i].1 by {
            if i < last {
                assert(p[i] == s[i]);
                assert(s[i].0.model() != s[last].0.model());
            }
        }
        assert forall|m: K::Model| #[trigger] rows_map(s).contains_key(m) implies exists|i: int|
            0 <= i < s.len() && (#[trigger] s[i]).0.model() == m by {
            if m == s.last().0.model() {
                assert(s[last].0.model() == m);
            } else {
                assert(rows_map(p).contains_key(m));
                let i = choose|i: int| 0 <= i < p.len() && (#[trigger] p[i]).0.model() == m;
                assert(s[i] == p[i]);
                assert(s[i].0.model() == m);
            }
        }
        assert(rows_map(s).dom() =~= rows_map(p).dom().insert(s.last().0.model()));
    } else {
        assert(rows_map(s).dom() =~= Set::empty());
    }
}

/// A distinct sequence with exactly the entries of `m` maps to `m`.
proof fn lemma_rows_is<K: RowKey, V>(s: Seq<(K, V)>, m: Map<K::Model, V>)
    requires
        rows_distinct(s),
        forall|i: int|
            #![trigger s[i]]
            0 <= i < s.len() ==> m.contains_key(s[i].0.model()) && m[s[i].0.model()] == s[i].1,
        forall|k: K::Model|
            #[trigger] m.contains_key(k) ==> exists|i: int|
                0 <= i < s.len() && (#[trigger] s[i]).0.model() == k,
    ensures
        rows_map(s) == m,
{
    lemma_rows(s);
    assert forall|k: K::Model| rows_map(s).contains_key(k) == m.contains_key(k) by {
        if rows_map(s).contains_key(k) {
            let i = choose|i: int| 0 <= i < s.len() && (#[trigger] s[i]).0.model() == k;
            assert(m.contains_key(s[i].0.model()));
        }
        if m.contains_key(k) {
            let i = choose|i: int| 0 <= i < s.len() && (#[trigger] s[i]).0.model() == k;
            assert(rows_map(s).contains_key(s[i].0.model()));
        }
    }
    assert forall|k: K::Model| rows_map(s).contains_key(k) implies rows_map(s)[k] == m[k] by {
        let i = choose|i: int| 0 <= i < s.len() && (#[trigger] s[i]).0.model() == k;
        assert(s[i].0.model() == k);
    }
    assert(rows_map(s) =~= m);
}

proof fn lemma_rows_pop<K: RowKey, V>(s: Seq<(K, V)>)
    requires
        rows_distinct(s),
        s.len() > 0,
    ensures
        rows_distinct(s.drop_last()),
        rows_map(s.drop_last()) == rows_map(s).remove(s.last().0.model()),
        rows_map(s).contains_key(s.last().0.model()),
        rows_map(s)[s.last().0.model()] == s.last().1,
{
    let p = s.drop_last();
    assert forall|i: int, j: int| 0 <= i < j < p.len() implies (#[trigger] p[i]).0.model() != (
    #[trigger] p[j]).0.model() by {
        assert(p[i] == s[i] && p[j] == s[j]);
    }
    lemma_rows(s);
    lemma_rows(p);
    assert(!rows_map(p).contains_key(s.last().0.model())) by {
        if rows_map(p).contains_key(s.last().0.model()) {
            let i = choose|i: int| 0 <= i < p.len() && (#[trigger] p[i]).0.model() == s.last().0.model();
            assert(s[i] == p[i]);
            assert(s[i].0.model() != s[s.len() - 1].0.model());
        }
    }
    assert(rows_map(p) =~= rows_map(s).remove(s.last().0.model()));
}

proof fn lemma_rows_push<K: RowKey, V>(s: Seq<(K, V)>, row: (K, V))
    requires
        rows_distinct(s),
        !rows_map(s).contains_key(row.0.model()),
    ensures
        rows_distinct(s.push(row)),
        rows_map(s.push(row)) == rows_map(s).insert(row.0.model(), row.1),
{
    let t = s.push(row);
    lemma_rows(s);
    assert(t.drop_last() =~= s);
    assert forall|i: int, j: int| 0 <= i < j < t.len() implies (#[trigger] t[i]).0.model() != (
    #[trigger] t[j]).0.model() by {
        assert(t[i] == s[i]);
        assert(rows_map(s).contains_key(s[i].0.model()));
        if j < s.len() {
            assert(t[j] == s[j]);
        }
    }
}

/// `m` in three disjoint parts: what is still to be looked at, what is not due and what is.
spec fn split_by<M, V: Dated>(
    m: Map<M, V>,
    rest: Map<M, V>,
    kept: Map<M, V>,
    gone: Map<M, V>,
    now: u64,
) -> bool {
    forall|k: M|
        #![trigger m.contains_key(k)]
        #![trigger rest.contains_key(k)]
        #![trigger kept.contains_key(k)]
        #![trigger gone.contains_key(k)]
        {
            &&& m.contains_key(k) == (rest.contains_key(k) || kept.contains_key(k) || gone.contains_key(k))
            &&& rest.contains_key(k) ==> !kept.contains_key(k) && !gone.contains_key(k) && rest[k] == m[k]
            &&& kept.contains_key(k) ==> !gone.contains_key(k) && kept[k] == m[k] && m[k].due() > now
            &&& gone.contains_key(k) ==> gone[k] == m[k] && m[k].due() <= now
        }
}

impl<K: RowKey, V> Rows<K, V> {
    /// No key occurs twice.
    pub closed spec fn wf(&self) -> bool {
        rows_distinct(self.rows@)
    }

    /// The rows in the order they are walked.
    pub closed spec fn entries(&self) -> Seq<(K, V)> {
        self.rows@
    }

    /// An empty table.
    pub fn new() -> (r: Self)
        ensures
            r.wf(),
            r@ == Map::<K::Model, V>::empty(),
    {
        Rows { rows: Vec::new() }
    }

    /// How many rows there are.
    pub fn len(&self) -> (r: usize)
        requires
            self.wf(),
        ensures
            r == self@.dom().len(),
            self@.dom().finite(),
            r == self.entries().len(),
    {
        proof {
            lemma_rows(self.rows@);
        }
        self.rows.len()
    }

    fn find(&self, key: &K) -> (r: Option<usize>)
        requires
            self.wf(),
        ensures
            match r {
                Some(i) => i < self.rows@.len() && self.rows@[i as int].0.model() == key.model()
                    && self@.contains_key(key.model()) && self@[key.model()]
                    == self.rows@[i as int].1,
                None => !self@.contains_key(key.model()),
            },
    {
        proof {
            lemma_rows(self.rows@);
        }
        let mut i: usize = 0;
        while i < self.rows.len()
            invariant
                i <= self.rows@.len(),
                rows_distinct(self.rows@),
                forall|j: int|
                    #![trigger self.rows@[j]]
                    0 <= j < self.rows@.len() ==> self@.contains_key(self.rows@[j].0.model())
                        && self@[self.rows@[j].0.model()] == self.rows@[j].1,
                forall|j: int| 0 <= j < i ==> (#[trigger] self.rows@[j]).0.model() != key.model(),
            decreases self.rows@.len() - i,
        {
            if self.rows[i].0.same(key) {
                return Some(i);
            }
            i += 1;
        }
        proof {
            lemma_rows(self.rows@);
        }
        None
    }

    /// Whether there is a row under a key.
    pub fn contains(&self, key: &K) -> (r: bool)
        requires
            self.wf(),
        ensures
            r == self@.contains_key(key.model()),
    {
        self.find(key).is_some()
    }

    /// The row under a key.
    pub fn get(&self, key: &K) -> (r: Option<&V>)
        requires
            self.wf(),
        ensures
            match r {
                Some(v) => self@.contains_key(key.model()) && *v == self@[key.model()],
                None => !self@.contains_key(key.model()),
            },
    {
        match self.find(key) {
            Some(i) => Some(&self.rows[i].1),
            None => None,
        }
    }

    /// Takes the row under a key out.
    pub fn remove(&mut self, key: &K) -> (r: Option<V>)
        requires
            old(self).wf(),
        ensures
            final(self).wf(),
            final(self)@ == old(self)@.remove(key.model()),
            match r {
                Some(v) => old(self)@.contains_key(key.model()) && v == old(self)@[key.model()],
                None => !old(self)@.contains_key(key.model()),
            },
    {
        match self.find(key) {
            Some(i) => {
                let ghost before = self.rows@;
                let (_, v) = self.rows.remove(i);
                proof {
                    let after = self.rows@;
                    lemma_rows(before);
                    assert forall|a: int, b: int| 0 <= a < b < after.len() implies (
                    #[trigger] after[a]).0.model() != (#[trigger] after[b]).0.model() by {
                        let x = if a < i { a } else { a + 1 };
                        assert(after[a] == before[x]);
                        let y = if b < i { b } else { b + 1 };
                        assert(after[b] == before[y]);
                        assert(before[x].0.model() != before[y].0.model());
                    }
                    let m = old(self)@.remove(key.model());
                    assert forall|a: int| #![trigger after[a]] 0 <= a < after.len() implies m.contains_key(
                        after[a].0.model(),
                    ) && m[after[a].0.model()] == after[a].1 by {
                        let x = if a < i { a } else { a + 1 };
                        assert(after[a] == before[x]);
                        if x < i {
                            assert(before[x].0.model() != before[i as int].0.model());
                        } else {
                            assert(before[i as int].0.model() != before[x].0.model());
                        }
                    }
                    assert forall|k: K::Model| #[trigger] m.contains_key(k) implies exists|a: int|
                        0 <= a < after.len() && (#[trigger] after[a]).0.model() == k by {
                        assert(rows_map(before).contains_key(k));
                        let x = choose|x: int|
                            0 <= x < before.len() && (#[trigger] before[x]).0.model() == k;
                        let a = if x < i { x } else { x - 1 };
                        assert(x != i);
                        assert(after[a] == before[x]);
                    }
                    lemma_rows_is(after, m);
                }
                Some(v)
            },
            None => {
                assert(self@.remove(key.model()) =~= self@);
                None
            },
        }
    }

    /// Puts a row under a key, in place of one that was there.
    pub fn insert(&mut self, key: K, value: V)
        requires
            old(self).wf(),
        ensures
            final(self).wf(),
            final(self)@ == old(self)@.insert(key.model(), value),
    {
        self.remove(&key);
        let ghost before = self.rows@;
        self.rows.push((key, value));
        proof {
            lemma_rows(before);
            let after = self.rows@;
            assert(after.drop_last() =~= before);
            assert forall|a: int, b: int| 0 <= a < b < after.len() implies (
            #[trigger] after[a]).0.model() != (#[trigger] after[b]).0.model() by {
                assert(after[a] == before[a]);
                if b < before.len() {
                    assert(after[b] == before[b]);
                } else {
                    assert(rows_map(before).contains_key(before[a].0.model()));
                }
            }
            assert(rows_map(after) =~= old(self)@.insert(key.model(), value));
        }
    }

    /// Takes a row out, whichever.
    pub fn pop(&mut self) -> (r: Option<(K, V)>)
        requires
            old(self).wf(),
        ensures
            final(self).wf(),
            match r {
                Some((k, v)) => {
                    &&& old(self)@.contains_key(k.model())
                    &&& old(self)@[k.model()] == v
                    &&& final(self)@ == old(self)@.remove(k.model())
                    &&& final(self).entries().len() + 1 == old(self).entries().len()
                },
                None => {
                    &&& old(self)@ == Map::<K::Model, V>::empty()
                    &&& old(self).entries().len() == 0
                    &&& final(self)@ == old(self)@
                },
            },
    {
        let ghost before = self.rows@;
        match self.rows.pop() {
            Some(row) => {
                proof {
                    lemma_rows_pop(before);
                    assert(self.rows@ =~= before.drop_last());
                }
                Some(row)
            },
            None => {
                proof {
                    lemma_rows(before);
                    assert(rows_map(before) =~= Map::<K::Model, V>::empty());
                }
                None
            },
        }
    }

    /// The key of one row, by its place.
    pub fn key_at(&self, i: usize) -> (r: &K)
        requires
            self.wf(),
            i < self.entries().len(),
        ensures
            *r == self.entries()[i as int].0,
            self@.contains_key(r.model()),
            self@[r.model()] == self.entries()[i as int].1,
    {
        proof {
            lemma_rows(self.rows@);
        }
        &self.rows[i].0
    }

    /// One row, by its place.
    pub fn value_at(&self, i: usize) -> (r: &V)
        requires
            self.wf(),
            i < self.entries().len(),
        ensures
            *r == self.entries()[i as int].1,
            self@.contains_key(self.entries()[i as int].0.model()),
            self@[self.entries()[i as int].0.model()] == *r,
    {
        proof {
            lemma_rows(self.rows@);
        }
        &self.rows[i].1
    }

    /// The walked rows are the table's rows.
    pub proof fn lemma_entries(&self)
        requires
            self.wf(),
        ensures
            rows_distinct(self.entries()),
            forall|i: int|
                #![trigger self.entries()[i]]
                0 <= i < self.entries().len() ==> self@.contains_key(self.entries()[i].0.model())
                    && self@[self.entries()[i].0.model()] == self.entries()[i].1,
            forall|m: K::Model|
                #[trigger] self@.contains_key(m) ==> exists|i: int|
                    0 <= i < self.entries().len() && (#[trigger] self.entries()[i]).0.model() == m,
            self@.dom().finite(),
            self@.dom().len() == self.entries().len(),
    {
        lemma_rows(self.rows@);
    }
}

/// The rows that are not due at `now`.
pub open spec fn undue<M, V: Dated>(m: Map<M, V>, now: u64) -> Map<M, V> {
    m.restrict(Set::new(|k: M| m.contains_key(k) && m[k].due() > now))
}

impl<K: RowKey, V: Dated> Rows<K, V> {
    /// Takes out every row that is due, in the order they are walked.
    pub fn expire(&mut self, now: u64) -> (r: Vec<(K, V)>)
        requires
            old(self).wf(),
        ensures
            final(self).wf(),
            final(self)@ == undue(old(self)@, now),
            rows_distinct(r@),
            rows_map(r@) == old(self)@.remove_keys(undue(old(self)@, now).dom()),
            r@.len() == old(self)@.dom().len() - final(self)@.dom().len(),
    {
        let mut kept: Vec<(K, V)> = Vec::new();
        let mut gone: Vec<(K, V)> = Vec::new();
        let ghost m = self@;
        proof {
            lemma_rows(self.rows@);
        }
        while self.rows.len() > 0
            invariant
                rows_distinct(self.rows@),
                rows_distinct(kept@),
                rows_distinct(gone@),
                split_by(m, rows_map(self.rows@), rows_map(kept@), rows_map(gone@), now),
            decreases self.rows@.len(),
        {
            proof {
                lemma_rows_pop(self.rows@);
            }
            let row = self.rows.pop().unwrap();
            if row.1.deadline() > now {
                proof {
                    lemma_rows_push(kept@, row);
                }
                kept.push(row);
            } else {
                proof {
                    lemma_rows_push(gone@, row);
                }
                gone.push(row);
            }
        }
        proof {
            assert(rows_map(self.rows@) =~= Map::empty());
        }
        self.rows.append(&mut kept);
        proof {
            assert(rows_map(self.rows@) =~= undue(m, now));
            assert(rows_map(gone@) =~= m.remove_keys(undue(m, now).dom()));
            lemma_rows(self.rows@);
            lemma_rows(gone@);
            assert(m.dom() =~= rows_map(self.rows@).dom() + rows_map(gone@).dom());
            vstd::set_lib::lemma_set_disjoint_lens(rows_map(self.rows@).dom(), rows_map(gone@).dom());
        }
        gone
    }

    /// The earliest deadline of any row.
    pub fn next_deadline(&self) -> (r: Option<u64>)
        requires
            self.wf(),
        ensures
            match r {
                Some(t) => {
                    &&& exists|k: K::Model| #[trigger] self@.contains_key(k) && self@[k].due() == t
                    &&& forall|k: K::Model| #[trigger] self@.contains_key(k) ==> t <= self@[k].due()
                },
                None => self@.dom() == Set::<K::Model>::empty(),
            },
    {
        proof {
            lemma_rows(self.rows@);
        }
        let mut earliest: Option<u64> = None;
        let mut i: usize = 0;
        while i < self.rows.len()
            invariant
                i <= self.rows@.len(),
                i == 0 ==> earliest is None,
                i > 0 ==> earliest is Some,
                forall|j: int| #![trigger self.rows@[j]] 0 <= j < i ==> earliest->0 <= self.rows@[j].1.due(),
                earliest is Some ==> exists|j: int|
                    0 <= j < i && (#[trigger] self.rows@[j]).1.due() == earliest->0,
            decreases self.rows@.len() - i,
        {
            let due: u64 = self.rows[i].1.deadline();
            match earliest {
                Some(t) if t <= due => {},
                _ => {
                    earliest = Some(due);
                    assert(self.rows@[i as int].1.due() == earliest->0);
                },
            }
            i += 1;
        }
        proof {
            lemma_rows(self.rows@);
            if earliest is None {
                assert(self@.dom() =~= Set::<K::Model>::empty());
            } else {
                let j = choose|j: int|
                    0 <= j < self.rows@.len() && (#[trigger] self.rows@[j]).1.due() == earliest->0;
                assert(self@.contains_key(self.rows@[j].0.model()));
                assert forall|k: K::Model| #[trigger] self@.contains_key(k) implies earliest->0
                    <= self@[k].due() by {
                    let x = choose|x: int|
                        0 <= x < self.rows@.len() && (#[trigger] self.rows@[x]).0.model() == k;
                    assert(self@[self.rows@[x].0.model()] == self.rows@[x].1);
                }
            }
        }
        earliest
    }
}

/// Of the rows that are kept at a time none is due, and each is as it was. A row that is left out was due.
pub proof fn law_only_rows_that_are_due_go<M, V: Dated>(m: Map<M, V>, now: u64, k: M)
    ensures
        undue(m, now).contains_key(k) == (m.contains_key(k) && now < m[k].due()),
        undue(m, now).contains_key(k) ==> undue(m, now)[k] == m[k],
{
}

} // verus!
