use vstd::prelude::*;

use crate::order::{lemma_lex_trans, lemma_lex_trichotomy, lex_lt, str_eq, str_lt};

verus! {

/// One key/value row of a `ListMap`.
pub struct Row<V> {
    pub key: String,
    pub val: V,
}

/// A map from relative paths to values, kept as a vector of rows in strictly
/// increasing key order. The order makes the serialized form of a map a
/// function of its contents alone, and the strictness makes keys unique.
pub struct ListMap<V> {
    pub rows: Vec<Row<V>>,
}

/// The mathematical contents of a row sequence, later rows winning (rows of
/// a well-formed map all have distinct keys, so no row shadows another).
pub open spec fn rows_map<V: View>(rows: Seq<Row<V>>) -> Map<Seq<char>, V::V>
    decreases rows.len(),
{
    if rows.len() == 0 {
        Map::empty()
    } else {
        rows_map(rows.drop_last()).insert(rows.last().key@, rows.last().val@)
    }
}

/// Keys strictly increase along the row sequence.
pub open spec fn sorted<V: View>(rows: Seq<Row<V>>) -> bool {
    forall|i: int, j: int|
        0 <= i < j < rows.len() ==> lex_lt(#[trigger] rows[i].key@, #[trigger] rows[j].key@)
}

/// No two rows share a key.
pub open spec fn unique_keys<V: View>(rows: Seq<Row<V>>) -> bool {
    forall|i: int, j: int|
        0 <= i < j < rows.len() ==> (#[trigger] rows[i].key@) != (#[trigger] rows[j].key@)
}

pub proof fn lemma_sorted_unique<V: View>(rows: Seq<Row<V>>)
    requires
        sorted(rows),
    ensures
        unique_keys(rows),
{
    assert forall|i: int, j: int|
        0 <= i < j < rows.len() implies (#[trigger] rows[i].key@) != (#[trigger] rows[j].key@) by {
        lemma_lex_trichotomy(rows[i].key@, rows[j].key@);
    }
}

/// A key occurs in the contents exactly when some row holds it.
pub proof fn lemma_rows_map_domain<V: View>(rows: Seq<Row<V>>, k: Seq<char>)
    ensures
        rows_map(rows).contains_key(k) <==> (exists|i: int|
            0 <= i < rows.len() && (#[trigger] rows[i].key@) == k),
    decreases rows.len(),
{
    if rows.len() > 0 {
        lemma_rows_map_domain(rows.drop_last(), k);
        if rows.last().key@ == k {
            assert(rows[rows.len() - 1].key@ == k);
        } else if rows_map(rows).contains_key(k) {
            let i = choose|i: int| 0 <= i < rows.drop_last().len() && (#[trigger] rows.drop_last()[i].key@) == k;
            assert(rows[i].key@ == k);
        } else {
            assert forall|i: int| 0 <= i < rows.len() implies (#[trigger] rows[i].key@) != k by {
                if i < rows.len() - 1 {
                    assert(rows.drop_last()[i].key@ == rows[i].key@);
                }
            }
        }
    }
}

/// With unique keys, the contents at a row's key are that row's value.
pub proof fn lemma_rows_map_at<V: View>(rows: Seq<Row<V>>, i: int)
    requires
        unique_keys(rows),
        0 <= i < rows.len(),
    ensures
        rows_map(rows).contains_key(rows[i].key@),
        rows_map(rows)[rows[i].key@] == rows[i].val@,
    decreases rows.len(),
{
    if i == rows.len() - 1 {
    } else {
        assert(rows.drop_last()[i] == rows[i]);
        lemma_rows_map_at(rows.drop_last(), i);
        assert(rows[i].key@ != rows.last().key@);
    }
}

/// With unique keys, the contents have exactly one entry per row.
pub proof fn lemma_rows_map_len<V: View>(rows: Seq<Row<V>>)
    requires
        unique_keys(rows),
    ensures
        rows_map(rows).dom().finite(),
        rows_map(rows).len() == rows.len(),
    decreases rows.len(),
{
    if rows.len() > 0 {
        lemma_rows_map_len(rows.drop_last());
        lemma_rows_map_domain(rows.drop_last(), rows.last().key@);
        assert forall|i: int|
            0 <= i < rows.drop_last().len() implies (#[trigger] rows.drop_last()[i].key@)
            != rows.last().key@ by {
            assert(rows.drop_last()[i] == rows[i]);
        }
        assert(!rows_map(rows.drop_last()).contains_key(rows.last().key@));
    }
}

/// Two map inserts at distinct keys commute.
pub proof fn lemma_insert_comm<V>(m: Map<Seq<char>, V>, k1: Seq<char>, v1: V, k2: Seq<char>, v2: V)
    requires
        k1 != k2,
    ensures
        m.insert(k1, v1).insert(k2, v2) == m.insert(k2, v2).insert(k1, v1),
{
    assert(m.insert(k1, v1).insert(k2, v2) =~= m.insert(k2, v2).insert(k1, v1));
}

/// Updating the row that holds `k` updates the contents at `k`.
pub proof fn lemma_rows_map_update<V: View>(rows: Seq<Row<V>>, i: int, row: Row<V>)
    requires
        unique_keys(rows),
        0 <= i < rows.len(),
        row.key@ == rows[i].key@,
    ensures
        rows_map(rows.update(i, row)) == rows_map(rows).insert(row.key@, row.val@),
    decreases rows.len(),
{
    let updated = rows.update(i, row);
    if i == rows.len() - 1 {
        assert(updated.drop_last() =~= rows.drop_last());
        assert(updated.last() == row);
    } else {
        assert(updated.drop_last() =~= rows.drop_last().update(i, row));
        assert(updated.last() == rows.last());
        assert(rows.drop_last()[i] == rows[i]);
        lemma_rows_map_update(rows.drop_last(), i, row);
        lemma_insert_comm::<V::V>(
            rows_map(rows.drop_last()),
            row.key@,
            row.val@,
            rows.last().key@,
            rows.last().val@,
        );
        assert(row.key@ != rows.last().key@);
    }
}

/// Inserting a row with a fresh key inserts its pair into the contents.
pub proof fn lemma_rows_map_insert<V: View>(rows: Seq<Row<V>>, i: int, row: Row<V>)
    requires
        0 <= i <= rows.len(),
        forall|j: int| 0 <= j < rows.len() ==> (#[trigger] rows[j].key@) != row.key@,
    ensures
        rows_map(rows.insert(i, row)) == rows_map(rows).insert(row.key@, row.val@),
    decreases rows.len(),
{
    let grown = rows.insert(i, row);
    if i == rows.len() {
        assert(grown.drop_last() =~= rows);
        assert(grown.last() == row);
    } else {
        assert(grown.drop_last() =~= rows.drop_last().insert(i, row));
        assert(grown.last() == rows.last());
        assert forall|j: int|
            0 <= j < rows.drop_last().len() implies (#[trigger] rows.drop_last()[j].key@)
            != row.key@ by {
            assert(rows.drop_last()[j] == rows[j]);
        }
        lemma_rows_map_insert(rows.drop_last(), i, row);
        lemma_insert_comm::<V::V>(
            rows_map(rows.drop_last()),
            row.key@,
            row.val@,
            rows.last().key@,
            rows.last().val@,
        );
        assert(row.key@ != rows[rows.len() - 1].key@);
    }
}

/// Removing the row that holds `k` removes `k` from the contents.
pub proof fn lemma_rows_map_remove<V: View>(rows: Seq<Row<V>>, i: int)
    requires
        unique_keys(rows),
        0 <= i < rows.len(),
    ensures
        rows_map(rows.remove(i)) == rows_map(rows).remove(rows[i].key@),
    decreases rows.len(),
{
    let k = rows[i].key@;
    let shrunk = rows.remove(i);
    if i == rows.len() - 1 {
        assert(shrunk =~= rows.drop_last());
        lemma_rows_map_domain(rows.drop_last(), k);
        assert forall|j: int|
            0 <= j < rows.drop_last().len() implies (#[trigger] rows.drop_last()[j].key@) != k by {
            assert(rows.drop_last()[j] == rows[j]);
        }
        assert(!rows_map(rows.drop_last()).contains_key(k));
        assert(rows_map(rows.drop_last()) =~= rows_map(rows).remove(k));
    } else {
        assert(shrunk.drop_last() =~= rows.drop_last().remove(i));
        assert(shrunk.last() == rows.last());
        assert(rows.drop_last()[i] == rows[i]);
        lemma_rows_map_remove(rows.drop_last(), i);
        assert(rows_map(shrunk) == rows_map(rows.drop_last()).remove(k).insert(
            rows.last().key@,
            rows.last().val@,
        ));
        assert(k != rows.last().key@);
        assert(rows_map(rows.drop_last()).remove(k).insert(rows.last().key@, rows.last().val@)
            =~= rows_map(rows.drop_last()).insert(rows.last().key@, rows.last().val@).remove(k));
    }
}

/// The rows as mathematical key/value pairs, in row order.
pub open spec fn row_models<V: View>(rows: Seq<Row<V>>) -> Seq<(Seq<char>, V::V)> {
    rows.map(|i: int, r: Row<V>| (r.key@, r.val@))
}

/// Canonical form: two sorted row sequences with the same contents list the
/// same pairs in the same order. Anything computed from the pairs alone —
/// the serialized index above all — is therefore a function of the contents.
pub proof fn lemma_sorted_canonical<V: View>(r1: Seq<Row<V>>, r2: Seq<Row<V>>)
    requires
        sorted(r1),
        sorted(r2),
        rows_map(r1) == rows_map(r2),
    ensures
        row_models(r1) == row_models(r2),
    decreases r1.len(),
{
    lemma_sorted_unique(r1);
    lemma_sorted_unique(r2);
    if r1.len() == 0 {
        if r2.len() > 0 {
            lemma_rows_map_at(r2, r2.len() - 1);
            assert(rows_map(r1).contains_key(r2.last().key@));
            assert(false);
        }
        assert(row_models(r1) =~= row_models(r2));
    } else if r2.len() == 0 {
        lemma_rows_map_at(r1, r1.len() - 1);
        assert(rows_map(r2).contains_key(r1.last().key@));
        assert(false);
    } else {
        let k1 = r1.last().key@;
        let k2 = r2.last().key@;
        lemma_rows_map_at(r1, r1.len() - 1);
        lemma_rows_map_at(r2, r2.len() - 1);
        lemma_rows_map_domain(r1, k2);
        lemma_rows_map_domain(r2, k1);
        let i1 = choose|i: int| 0 <= i < r1.len() && (#[trigger] r1[i].key@) == k2;
        let i2 = choose|i: int| 0 <= i < r2.len() && (#[trigger] r2[i].key@) == k1;
        if i1 < r1.len() - 1 && i2 < r2.len() - 1 {
            assert(lex_lt(k2, k1));
            assert(lex_lt(k1, k2));
            lemma_lex_trichotomy(k1, k2);
            assert(false);
        }
        assert(k1 == k2);
        assert(rows_map(r1)[k1] == r1.last().val@);
        assert(rows_map(r2)[k1] == r2.last().val@);
        lemma_rows_map_remove(r1, r1.len() - 1);
        lemma_rows_map_remove(r2, r2.len() - 1);
        assert(r1.remove(r1.len() - 1) =~= r1.drop_last());
        assert(r2.remove(r2.len() - 1) =~= r2.drop_last());
        assert(rows_map(r1.drop_last()) == rows_map(r2.drop_last()));
        lemma_sorted_canonical(r1.drop_last(), r2.drop_last());
        let m1 = row_models(r1);
        let m2 = row_models(r2);
        assert(row_models(r1.drop_last()) =~= m1.drop_last());
        assert(row_models(r2.drop_last()) =~= m2.drop_last());
        assert(m1.len() == m2.len());
        assert forall|i: int| 0 <= i < m1.len() implies m1[i] == m2[i] by {
            if i < m1.len() - 1 {
                assert(m1[i] == m1.drop_last()[i]);
                assert(m2[i] == m2.drop_last()[i]);
            } else {
                assert(m1[i] == (r1.last().key@, r1.last().val@));
                assert(m2[i] == (r2.last().key@, r2.last().val@));
                assert(r1.last().val@ == rows_map(r1)[k1]);
                assert(r2.last().val@ == rows_map(r2)[k1]);
            }
        }
        assert(m1 =~= m2);
    }
}

impl<V: View> View for ListMap<V> {
    type V = Map<Seq<char>, <V as View>::V>;

    open spec fn view(&self) -> Map<Seq<char>, <V as View>::V> {
        rows_map(self.rows@)
    }
}

impl<V: View> ListMap<V> {
    /// Rows are in strictly increasing key order.
    pub open spec fn wf(&self) -> bool {
        sorted(self.rows@)
    }

    pub fn new() -> (r: ListMap<V>)
        ensures
            r.wf(),
            r@ == Map::<Seq<char>, <V as View>::V>::empty(),
            r.rows@.len() == 0,
    {
        ListMap { rows: Vec::new() }
    }

    pub fn len(&self) -> (r: usize)
        requires
            self.wf(),
        ensures
            r == self.rows@.len(),
            r == self@.len(),
    {
        proof {
            lemma_sorted_unique(self.rows@);
            lemma_rows_map_len(self.rows@);
        }
        self.rows.len()
    }

    /// The key of the `i`th row; rows are in strictly increasing key order.
    pub fn key_at(&self, i: usize) -> (r: &String)
        requires
            self.wf(),
            i < self.rows@.len(),
        ensures
            r@ == self.rows@[i as int].key@,
            self@.contains_key(r@),
            self@[r@] == self.rows@[i as int].val@,
    {
        proof {
            lemma_sorted_unique(self.rows@);
            lemma_rows_map_at(self.rows@, i as int);
        }
        &self.rows[i].key
    }

    /// The value of the `i`th row.
    pub fn val_at(&self, i: usize) -> (r: &V)
        requires
            self.wf(),
            i < self.rows@.len(),
        ensures
            r == &self.rows@[i as int].val,
            self@.contains_key(self.rows@[i as int].key@),
            self@[self.rows@[i as int].key@] == r@,
    {
        proof {
            lemma_sorted_unique(self.rows@);
            lemma_rows_map_at(self.rows@, i as int);
        }
        &self.rows[i].val
    }

    pub fn get(&self, key: &str) -> (r: Option<&V>)
        requires
            self.wf(),
        ensures
            match r {
                Some(v) => self@.contains_key(key@) && v@ == self@[key@],
                None => !self@.contains_key(key@),
            },
    {
        proof {
            lemma_sorted_unique(self.rows@);
        }
        let n = self.rows.len();
        let mut i: usize = 0;
        while i < n
            invariant
                n == self.rows@.len(),
                i <= n,
                self.wf(),
                forall|j: int| 0 <= j < i ==> (#[trigger] self.rows@[j].key@) != key@,
            decreases n - i,
        {
            if str_eq(self.rows[i].key.as_str(), key) {
                proof {
                    lemma_sorted_unique(self.rows@);
                    lemma_rows_map_at(self.rows@, i as int);
                }
                return Some(&self.rows[i].val);
            }
            i = i + 1;
        }
        proof {
            lemma_rows_map_domain(self.rows@, key@);
        }
        None
    }

    pub fn contains(&self, key: &str) -> (r: bool)
        requires
            self.wf(),
        ensures
            r == self@.contains_key(key@),
    {
        match self.get(key) {
            Some(_) => true,
            None => false,
        }
    }

    /// Insert a pair, replacing any row that already holds the key.
    pub fn insert(&mut self, key: String, val: V)
        requires
            old(self).wf(),
        ensures
            final(self).wf(),
            final(self)@ == old(self)@.insert(key@, val@),
            final(self).rows@.len() <= old(self).rows@.len() + 1,
    {
        proof {
            lemma_sorted_unique(self.rows@);
        }
        let n = self.rows.len();
        let mut i: usize = 0;
        while i < n && str_lt(self.rows[i].key.as_str(), key.as_str())
            invariant
                n == self.rows@.len(),
                i <= n,
                self.wf(),
                forall|j: int| 0 <= j < i ==> lex_lt(#[trigger] self.rows@[j].key@, key@),
            decreases n - i,
        {
            i = i + 1;
        }
        if i < n && str_eq(self.rows[i].key.as_str(), key.as_str()) {
            proof {
                lemma_sorted_unique(self.rows@);
                lemma_rows_map_update(self.rows@, i as int, Row { key, val });
            }
            let row = Row { key, val };
            let ghost old_rows = self.rows@;
            self.rows[i] = row;
            proof {
                assert(self.rows@ =~= old_rows.update(i as int, self.rows@[i as int]));
                assert forall|p: int, q: int|
                    0 <= p < q < self.rows@.len() implies lex_lt(
                    #[trigger] self.rows@[p].key@,
                    #[trigger] self.rows@[q].key@,
                ) by {
                    assert(old_rows[p].key@ == self.rows@[p].key@);
                    assert(old_rows[q].key@ == self.rows@[q].key@);
                }
            }
        } else {
            proof {
                lemma_sorted_unique(self.rows@);
                if i < n {
                    lemma_lex_trichotomy(self.rows@[i as int].key@, key@);
                }
                assert forall|j: int|
                    0 <= j < self.rows@.len() implies (#[trigger] self.rows@[j].key@) != key@ by {
                    if j < i {
                        lemma_lex_trichotomy(self.rows@[j].key@, key@);
                    } else {
                        if i < n && i < j {
                            lemma_lex_trans(key@, self.rows@[i as int].key@, self.rows@[j].key@);
                        }
                        lemma_lex_trichotomy(self.rows@[j].key@, key@);
                    }
                }
                lemma_rows_map_insert(self.rows@, i as int, Row { key, val });
            }
            let ghost old_rows = self.rows@;
            let row = Row { key, val };
            self.rows.insert(i, row);
            proof {
                assert forall|p: int, q: int|
                    0 <= p < q < self.rows@.len() implies lex_lt(
                    #[trigger] self.rows@[p].key@,
                    #[trigger] self.rows@[q].key@,
                ) by {
                    if q < i {
                        assert(self.rows@[p] == old_rows[p]);
                        assert(self.rows@[q] == old_rows[q]);
                    } else if q == i {
                        assert(self.rows@[p] == old_rows[p]);
                    } else if p == i {
                        assert(self.rows@[q] == old_rows[q - 1]);
                        if i < old_rows.len() {
                            if i < q - 1 {
                                lemma_lex_trans(
                                    self.rows@[p].key@,
                                    old_rows[i as int].key@,
                                    old_rows[q - 1].key@,
                                );
                            }
                        }
                    } else if p < i {
                        assert(self.rows@[p] == old_rows[p]);
                        assert(self.rows@[q] == old_rows[q - 1]);
                        if p < q - 1 {
                        } else {
                            assert(p == q - 1 && p == i - 1);
                            assert(i < old_rows.len() ==> lex_lt(
                                old_rows[p].key@,
                                self.rows@[q].key@,
                            ));
                        }
                    } else {
                        assert(self.rows@[p] == old_rows[p - 1]);
                        assert(self.rows@[q] == old_rows[q - 1]);
                    }
                }
            }
        }
    }

    /// Remove a key's row, if one is there.
    pub fn remove(&mut self, key: &str)
        requires
            old(self).wf(),
        ensures
            final(self).wf(),
            final(self)@ == old(self)@.remove(key@),
    {
        proof {
            lemma_sorted_unique(self.rows@);
        }
        let n = self.rows.len();
        let mut i: usize = 0;
        while i < n
            invariant
                n == self.rows@.len(),
                i <= n,
                *self == *old(self),
                self.wf(),
                forall|j: int| 0 <= j < i ==> (#[trigger] self.rows@[j].key@) != key@,
            decreases n - i,
        {
            if str_eq(self.rows[i].key.as_str(), key) {
                proof {
                    lemma_sorted_unique(self.rows@);
                    lemma_rows_map_remove(self.rows@, i as int);
                }
                let ghost old_rows = self.rows@;
                self.rows.remove(i);
                proof {
                    assert forall|p: int, q: int|
                        0 <= p < q < self.rows@.len() implies lex_lt(
                        #[trigger] self.rows@[p].key@,
                        #[trigger] self.rows@[q].key@,
                    ) by {
                        if p < i {
                            assert(self.rows@[p] == old_rows[p]);
                        } else {
                            assert(self.rows@[p] == old_rows[p + 1]);
                        }
                        if q < i {
                            assert(self.rows@[q] == old_rows[q]);
                        } else {
                            assert(self.rows@[q] == old_rows[q + 1]);
                        }
                    }
                }
                return ;
            }
            i = i + 1;
        }
        proof {
            lemma_rows_map_domain(self.rows@, key@);
            assert(self@ =~= self@.remove(key@));
        }
    }
}

} // verus!
