//! The sharded, replicated key-value store that coordinates distributed
//! graph computations. Keys and values are opaque byte strings grouped
//! into named tables. One replicated state machine serves each shard; the
//! consensus transport around it is an outside collaborator, so the state
//! machine, the deterministic upsert registry, the key routing and the
//! linearized-read law live here as verified logic.

use vstd::prelude::*;

use vstd::string::StringSliceAdditionalSpecFns;

verus! {

/// One node of a shard's replication group.
#[derive(Debug, Clone, PartialEq, Eq)]
pub struct BasicNode {
    pub addr: String,
}

impl BasicNode {
    /// Creates a [`BasicNode`].
    pub fn new(addr: &str) -> (r: Self)
        ensures
            r.addr@ == addr@,
    {
        BasicNode { addr: addr.to_owned() }
    }
}

/// A deterministic merge function from the closed registry, identified so
/// that it applies the same way on every replica.
#[derive(Debug, Clone, Copy, PartialEq, Eq, Structural)]
pub enum UpsertFunc {
    /// The new value replaces the old one.
    Overwrite,
    /// The new value is appended to the old one.
    AppendBytes,
}

/// What an upsert function makes of the stored value and the incoming one.
pub open spec fn apply_upsert_spec(f: UpsertFunc, stored: Option<Seq<u8>>, incoming: Seq<u8>) -> Seq<
    u8,
> {
    match f {
        UpsertFunc::Overwrite => incoming,
        UpsertFunc::AppendBytes => match stored {
            Some(s) => s + incoming,
            None => incoming,
        },
    }
}

/// Applies an upsert function.
pub fn apply_upsert(f: UpsertFunc, stored: Option<&Vec<u8>>, incoming: &Vec<u8>) -> (r: Vec<u8>)
    ensures
        r@ == apply_upsert_spec(
            f,
            match stored {
                Some(s) => Some(s@),
                None => None,
            },
            incoming@,
        ),
{
    match f {
        UpsertFunc::Overwrite => crate::inverted_index::copy_bytes(incoming),
        UpsertFunc::AppendBytes => match stored {
            Some(s) => {
                let mut r = crate::inverted_index::copy_bytes(s);
                let mut i: usize = 0;
                while i < incoming.len()
                    invariant
                        i <= incoming@.len(),
                        r@ =~= s@ + incoming@.take(i as int),
                    decreases incoming@.len() - i,
                {
                    r.push(incoming[i]);
                    proof {
                        assert(r@ =~= s@ + incoming@.take(i + 1));
                    }
                    i = i + 1;
                }
                proof {
                    assert(incoming@.take(incoming@.len() as int) =~= incoming@);
                }
                r
            },
            None => crate::inverted_index::copy_bytes(incoming),
        },
    }
}

/// One stored row: a key and its value inside a named table.
#[derive(Debug, Clone)]
pub struct Row {
    pub table: String,
    pub key: Vec<u8>,
    pub value: Vec<u8>,
}

/// What one row holds, as mathematical sequences.
pub struct RowView {
    pub table: Seq<char>,
    pub key: Seq<u8>,
    pub value: Seq<u8>,
}

impl View for Row {
    type V = RowView;

    open spec fn view(&self) -> RowView {
        RowView { table: self.table@, key: self.key@, value: self.value@ }
    }
}

impl DeepView for Row {
    type V = RowView;

    open spec fn deep_view(&self) -> RowView {
        self.view()
    }
}

/// Whether the row binds key `k` of table `t`.
pub open spec fn row_match(r: RowView, t: Seq<char>, k: Seq<u8>) -> bool {
    r.table == t && r.key == k
}

/// The value bound to key `k` of table `t` among `rows`, if any.
pub open spec fn find_row(rows: Seq<RowView>, t: Seq<char>, k: Seq<u8>) -> Option<Seq<u8>>
    decreases rows.len(),
{
    if rows.len() == 0 {
        None
    } else if row_match(rows.last(), t, k) {
        Some(rows.last().value)
    } else {
        find_row(rows.drop_last(), t, k)
    }
}

fn copy_row(r: &Row) -> (c: Row)
    ensures
        c.table@ == r.table@,
        c.key@ == r.key@,
        c.value@ == r.value@,
{
    Row {
        table: r.table.clone(),
        key: crate::inverted_index::copy_bytes(&r.key),
        value: crate::inverted_index::copy_bytes(&r.value),
    }
}

/// `rows` with every row of table `t` removed.
pub open spec fn rows_without(rows: Seq<RowView>, t: Seq<char>) -> Seq<RowView>
    decreases rows.len(),
{
    if rows.len() == 0 {
        Seq::empty()
    } else {
        rows_without(rows.drop_last(), t) + (if rows.last().table == t {
            Seq::empty()
        } else {
            seq![rows.last()]
        })
    }
}

/// The rows of table `t`, in order.
pub open spec fn rows_only_spec(rows: Seq<RowView>, t: Seq<char>) -> Seq<RowView>
    decreases rows.len(),
{
    if rows.len() == 0 {
        Seq::empty()
    } else {
        rows_only_spec(rows.drop_last(), t) + (if rows.last().table == t {
            seq![rows.last()]
        } else {
            Seq::empty()
        })
    }
}

/// The key and value of each row.
pub open spec fn row_pairs(rows: Seq<RowView>) -> Seq<(Seq<u8>, Seq<u8>)> {
    rows.map_values(|r: RowView| (r.key, r.value))
}

/// The pairs a scan returns, as sequences.
pub open spec fn pairs_view(pairs: Seq<(Vec<u8>, Vec<u8>)>) -> Seq<(Seq<u8>, Seq<u8>)> {
    pairs.map_values(|p: (Vec<u8>, Vec<u8>)| (p.0@, p.1@))
}

/// The value of the last pair carrying key `k`, if any.
pub open spec fn find_pair(pairs: Seq<(Seq<u8>, Seq<u8>)>, k: Seq<u8>) -> Option<Seq<u8>>
    decreases pairs.len(),
{
    if pairs.len() == 0 {
        None
    } else if pairs.last().0 == k {
        Some(pairs.last().1)
    } else {
        find_pair(pairs.drop_last(), k)
    }
}

/// Dropping a table's rows leaves every other binding where it was.
proof fn lemma_find_without(rows: Seq<RowView>, t: Seq<char>, t2: Seq<char>, k2: Seq<u8>)
    ensures
        find_row(rows_without(rows, t), t2, k2) == (if t2 == t {
            None
        } else {
            find_row(rows, t2, k2)
        }),
    decreases rows.len(),
{
    if rows.len() > 0 {
        lemma_find_without(rows.drop_last(), t, t2, k2);
        if rows.last().table == t {
        } else {
            assert(rows_without(rows, t) =~= rows_without(rows.drop_last(), t).push(rows.last()));
            assert(rows_without(rows, t).drop_last() =~= rows_without(rows.drop_last(), t));
        }
    }
}

/// The last binding of `k` among the rows of table `t` is the table's
/// binding of `k`.
proof fn lemma_find_pair_only(rows: Seq<RowView>, t: Seq<char>, k: Seq<u8>)
    ensures
        find_pair(row_pairs(rows_only_spec(rows, t)), k) == find_row(rows, t, k),
    decreases rows.len(),
{
    if rows.len() > 0 {
        lemma_find_pair_only(rows.drop_last(), t, k);
        if rows.last().table == t {
            assert(rows_only_spec(rows, t) =~= rows_only_spec(rows.drop_last(), t).push(
                rows.last(),
            ));
            assert(row_pairs(rows_only_spec(rows, t)) =~= row_pairs(
                rows_only_spec(rows.drop_last(), t),
            ).push((rows.last().key, rows.last().value)));
            assert(row_pairs(rows_only_spec(rows, t)).drop_last() =~= row_pairs(
                rows_only_spec(rows.drop_last(), t),
            ));
        } else {
            assert(rows_only_spec(rows, t) =~= rows_only_spec(rows.drop_last(), t));
        }
    }
}

/// The state machine of one shard: the set of known tables and the rows
/// they hold, applied under a single lock by every replica in log order.
#[derive(Debug)]
pub struct Db {
    names: Vec<String>,
    rows: Vec<Row>,
}

impl Db {
    /// Whether the table `t` exists.
    pub closed spec fn spec_has_table(&self, t: Seq<char>) -> bool {
        exists|i: int| 0 <= i < self.names@.len() && (#[trigger] self.names@[i])@ == t
    }

    /// The value bound to key `k` of table `t`.
    pub closed spec fn spec_get(&self, t: Seq<char>, k: Seq<u8>) -> Option<Seq<u8>> {
        find_row(self.rows.deep_view(), t, k)
    }

    /// The names of the known tables.
    pub closed spec fn spec_tables(&self) -> Seq<Seq<char>> {
        Seq::new(self.names@.len(), |i: int| self.names@[i]@)
    }

    /// An empty shard: no tables, no rows.
    pub fn new() -> (r: Db)
        ensures
            forall|t: Seq<char>| !r.spec_has_table(t),
            forall|t: Seq<char>, k: Seq<u8>| r.spec_get(t, k).is_none(),
            r.spec_tables().len() == 0,
    {
        Db { names: Vec::new(), rows: Vec::new() }
    }

    fn has_table_x(&self, t: &str) -> (r: bool)
        ensures
            r == self.spec_has_table(t@),
    {
        let ts = t.to_owned();
        let mut i: usize = 0;
        while i < self.names.len()
            invariant
                ts@ == t@,
                i <= self.names@.len(),
                forall|q: int| 0 <= q < i ==> (#[trigger] self.names@[q])@ != t@,
            decreases self.names@.len() - i,
        {
            if self.names[i].eq(&ts) {
                return true;
            }
            i = i + 1;
        }
        false
    }

    /// Creates a table; creating it again changes nothing.
    pub fn create_table(&mut self, t: &str)
        ensures
            final(self).spec_has_table(t@),
            forall|t2: Seq<char>|
                t2 != t@ ==> final(self).spec_has_table(t2) == old(self).spec_has_table(t2),
            forall|t2: Seq<char>, k: Seq<u8>|
                final(self).spec_get(t2, k) == old(self).spec_get(t2, k),
    {
        if !self.has_table_x(t) {
            self.names.push(t.to_owned());
            proof {
                assert((final(self).names@.last())@ == t@);
                assert forall|t2: Seq<char>|
                    t2 != t@ implies final(self).spec_has_table(t2) == old(self).spec_has_table(
                    t2,
                ) by {
                    if old(self).spec_has_table(t2) {
                        let i = choose|i: int|
                            0 <= i < old(self).names@.len() && (#[trigger] old(self).names@[i])@
                                == t2;
                        assert((final(self).names@[i])@ == t2);
                    }
                    if final(self).spec_has_table(t2) {
                        let names2 = final(self).names@;
                        let i = choose|i: int| 0 <= i < names2.len() && (#[trigger] names2[i])@ == t2;
                        assert(i < old(self).names@.len());
                        assert((old(self).names@[i])@ == t2);
                    }
                }
            }
        }
    }

    /// The known tables.
    pub fn all_tables(&self) -> (r: Vec<String>)
        ensures
            r@.len() == self.spec_tables().len(),
            forall|i: int|
                0 <= i < r@.len() ==> (#[trigger] r@[i])@ == self.spec_tables()[i],
    {
        let mut r: Vec<String> = Vec::new();
        let mut i: usize = 0;
        while i < self.names.len()
            invariant
                i <= self.names@.len(),
                r@.len() == i,
                forall|q: int| 0 <= q < i ==> (#[trigger] r@[q])@ == self.names@[q]@,
            decreases self.names@.len() - i,
        {
            r.push(self.names[i].clone());
            i = i + 1;
        }
        r
    }

    /// Binds key `k` of table `t` to `v`, creating the table if it is
    /// missing. Every other binding stays as it was.
    pub fn set(&mut self, t: &str, k: Vec<u8>, v: Vec<u8>)
        ensures
            final(self).spec_has_table(t@),
            final(self).spec_get(t@, k@) == Some(v@),
            forall|t2: Seq<char>, k2: Seq<u8>|
                !(t2 == t@ && k2 == k@) ==> final(self).spec_get(t2, k2) == old(self).spec_get(
                    t2,
                    k2,
                ),
            forall|t2: Seq<char>|
                t2 != t@ ==> final(self).spec_has_table(t2) == old(self).spec_has_table(t2),
    {
        self.create_table(t);
        let ghost mid = *self;
        let row = Row { table: t.to_owned(), key: k, value: v };
        let ghost rv = row@;
        self.rows.push(row);
        proof {
            assert(self.names@ == mid.names@);
            assert(self.spec_has_table(t@) == mid.spec_has_table(t@));
            assert(self.rows.deep_view() =~= mid.rows.deep_view().push(rv));
            assert(self.rows.deep_view().drop_last() =~= mid.rows.deep_view());
            assert(row_match(self.rows.deep_view().last(), t@, k@));
            assert forall|t2: Seq<char>, k2: Seq<u8>|
                !(t2 == t@ && k2 == k@) implies self.spec_get(t2, k2) == mid.spec_get(t2, k2) by {
                assert(!row_match(self.rows.deep_view().last(), t2, k2));
            }
        }
    }

    /// Reads key `k` of table `t`.
    pub fn get(&self, t: &str, k: &Vec<u8>) -> (r: Option<Vec<u8>>)
        ensures
            r.is_some() <==> self.spec_get(t@, k@).is_some(),
            r.is_some() ==> r.unwrap()@ == self.spec_get(t@, k@).unwrap(),
    {
        let ts = t.to_owned();
        let n = self.rows.len();
        let ghost rv = self.rows.deep_view();
        proof {
            assert(rv.take(n as int) =~= rv);
        }
        let mut i: usize = n;
        while i > 0
            invariant
                ts@ == t@,
                i <= n,
                n == self.rows@.len(),
                rv == self.rows.deep_view(),
                rv.len() == n,
                find_row(rv, t@, k@) == find_row(rv.take(i as int), t@, k@),
            decreases i,
        {
            let row = &self.rows[i - 1];
            proof {
                assert(rv[i - 1] == self.rows@[i - 1]@);
                assert(rv.take(i as int).last() == rv[i - 1]);
                assert(rv.take(i as int).drop_last() =~= rv.take(i - 1));
            }
            let tm = row.table.eq(&ts);
            let km = if tm {
                crate::inverted_index::bytes_eq(&row.key, k)
            } else {
                false
            };
            if tm && km {
                return Some(crate::inverted_index::copy_bytes(&row.value));
            }
            i = i - 1;
        }
        proof {
            assert(rv.take(0) =~= Seq::<RowView>::empty());
        }
        None
    }

    /// Reads key `k` of table `t` after applying the merge function: the
    /// stored value and the incoming one are combined deterministically,
    /// the result is bound and returned.
    pub fn upsert(&mut self, t: &str, k: Vec<u8>, v: Vec<u8>, f: UpsertFunc) -> (r: Vec<u8>)
        ensures
            r@ == apply_upsert_spec(f, old(self).spec_get(t@, k@), v@),
            final(self).spec_has_table(t@),
            final(self).spec_get(t@, k@) == Some(r@),
            forall|t2: Seq<char>, k2: Seq<u8>|
                !(t2 == t@ && k2 == k@) ==> final(self).spec_get(t2, k2) == old(self).spec_get(
                    t2,
                    k2,
                ),
            forall|t2: Seq<char>|
                t2 != t@ ==> final(self).spec_has_table(t2) == old(self).spec_has_table(t2),
    {
        let stored = self.get(t, &k);
        let merged = apply_upsert(
            f,
            match &stored {
                Some(s) => Some(s),
                None => None,
            },
            &v,
        );
        let out = crate::inverted_index::copy_bytes(&merged);
        self.set(t, k, merged);
        out
    }

    /// Drops table `t` and everything it holds; dropping a missing table
    /// changes nothing.
    pub fn drop_table(&mut self, t: &str)
        ensures
            !final(self).spec_has_table(t@),
            forall|t2: Seq<char>|
                t2 != t@ ==> final(self).spec_has_table(t2) == old(self).spec_has_table(t2),
            forall|k: Seq<u8>| final(self).spec_get(t@, k).is_none(),
            forall|t2: Seq<char>, k2: Seq<u8>|
                t2 != t@ ==> final(self).spec_get(t2, k2) == old(self).spec_get(t2, k2),
    {
        let ts = t.to_owned();
        let ghost orig = *self;

        let mut kept_names: Vec<String> = Vec::new();
        let mut i: usize = 0;
        while i < self.names.len()
            invariant
                ts@ == t@,
                i <= self.names@.len(),
                forall|q: int| 0 <= q < kept_names@.len() ==> (#[trigger] kept_names@[q])@ != t@,
                forall|q: int|
                    0 <= q < kept_names@.len() ==> exists|p: int|
                        0 <= p < self.names@.len() && (#[trigger] kept_names@[q])@
                            == self.names@[p]@,
                forall|p: int|
                    0 <= p < i && (#[trigger] self.names@[p])@ != t@ ==> exists|q: int|
                        0 <= q < kept_names@.len() && (#[trigger] kept_names@[q])@
                            == self.names@[p]@,
            decreases self.names@.len() - i,
        {
            let ghost prev_names = kept_names@;
            if !self.names[i].eq(&ts) {
                kept_names.push(self.names[i].clone());
                proof {
                    assert((kept_names@[prev_names.len() as int])@ == self.names@[i as int]@);
                }
            }
            proof {
                assert forall|p: int|
                    0 <= p < i + 1 && (#[trigger] self.names@[p])@ != t@ implies exists|q: int|
                    0 <= q < kept_names@.len() && (#[trigger] kept_names@[q])@
                        == self.names@[p]@ by {
                    if p < i {
                        let q = choose|q: int|
                            0 <= q < prev_names.len() && (#[trigger] prev_names[q])@
                                == self.names@[p]@;
                        assert((kept_names@[q])@ == self.names@[p]@);
                    } else {
                        assert((kept_names@[kept_names@.len() - 1])@ == self.names@[p]@);
                    }
                }
            }
            i = i + 1;
        }

        let mut kept_rows: Vec<Row> = Vec::new();
        let ghost rvs = self.rows.deep_view();
        let mut j: usize = 0;
        while j < self.rows.len()
            invariant
                ts@ == t@,
                j <= self.rows@.len(),
                rvs == self.rows.deep_view(),
                rvs.len() == self.rows@.len(),
                kept_rows.deep_view() =~= rows_without(rvs.take(j as int), t@),
            decreases self.rows@.len() - j,
        {
            proof {
                assert(rvs[j as int] == self.rows@[j as int]@);
                assert(rvs.take(j + 1).drop_last() =~= rvs.take(j as int));
                assert(rvs.take(j + 1).last() == rvs[j as int]);
            }
            if !self.rows[j].table.eq(&ts) {
                let ghost prev = kept_rows.deep_view();
                let c = copy_row(&self.rows[j]);
                let ghost cv = c@;
                kept_rows.push(c);
                proof {
                    assert(cv == rvs[j as int]);
                    assert(kept_rows.deep_view() =~~= prev.push(cv));
                }
            }
            j = j + 1;
        }
        proof {
            assert(rvs.take(rvs.len() as int) =~= rvs);
        }
        let ghost kept_names_v = kept_names@;
        self.names = kept_names;
        self.rows = kept_rows;
        proof {
            assert forall|t2: Seq<char>, k2: Seq<u8>| true implies #[trigger] self.spec_get(t2, k2)
                == (if t2 == t@ {
                None
            } else {
                orig.spec_get(t2, k2)
            }) by {
                lemma_find_without(orig.rows.deep_view(), t@, t2, k2);
            }
            assert forall|t2: Seq<char>| t2 != t@ implies self.spec_has_table(t2)
                == orig.spec_has_table(t2) by {
                if orig.spec_has_table(t2) {
                    let p = choose|p: int|
                        0 <= p < orig.names@.len() && (#[trigger] orig.names@[p])@ == t2;
                    assert((orig.names@[p])@ != t@);
                    let q = choose|q: int|
                        0 <= q < kept_names_v.len() && (#[trigger] kept_names_v[q])@
                            == orig.names@[p]@;
                    assert((self.names@[q])@ == t2);
                }
                if self.spec_has_table(t2) {
                    let q = choose|q: int|
                        0 <= q < self.names@.len() && (#[trigger] self.names@[q])@ == t2;
                    let p = choose|p: int|
                        0 <= p < orig.names@.len() && (#[trigger] kept_names_v[q])@
                            == orig.names@[p]@;
                    assert((orig.names@[p])@ == t2);
                }
            }
            assert(!self.spec_has_table(t@)) by {
                if self.spec_has_table(t@) {
                    let q = choose|q: int|
                        0 <= q < self.names@.len() && (#[trigger] self.names@[q])@ == t@;
                    assert((kept_names_v[q])@ != t@);
                }
            }
        }
    }

    /// The keys and values of table `t`, in storage order: what a full
    /// table scan streams.
    pub fn stream_table(&self, t: &str) -> (r: Vec<(Vec<u8>, Vec<u8>)>)
        ensures
            pairs_view(r@) =~= row_pairs(rows_only_spec(self.rows_view(), t@)),
    {
        let ts = t.to_owned();
        let mut r: Vec<(Vec<u8>, Vec<u8>)> = Vec::new();
        let ghost rvs = self.rows.deep_view();
        let mut j: usize = 0;
        while j < self.rows.len()
            invariant
                ts@ == t@,
                j <= self.rows@.len(),
                rvs == self.rows.deep_view(),
                rvs.len() == self.rows@.len(),
                pairs_view(r@) =~= row_pairs(rows_only_spec(rvs.take(j as int), t@)),
            decreases self.rows@.len() - j,
        {
            proof {
                assert(rvs[j as int] == self.rows@[j as int]@);
                assert(rvs.take(j + 1).drop_last() =~= rvs.take(j as int));
                assert(rvs.take(j + 1).last() == rvs[j as int]);
            }
            if self.rows[j].table.eq(&ts) {
                let ghost prev = pairs_view(r@);
                r.push(
                    (
                        crate::inverted_index::copy_bytes(&self.rows[j].key),
                        crate::inverted_index::copy_bytes(&self.rows[j].value),
                    ),
                );
                proof {
                    assert(pairs_view(r@) =~= prev.push((rvs[j as int].key, rvs[j as int].value)));
                    assert(row_pairs(rows_only_spec(rvs.take(j + 1), t@)) =~= row_pairs(
                        rows_only_spec(rvs.take(j as int), t@),
                    ).push((rvs[j as int].key, rvs[j as int].value)));
                }
            }
            j = j + 1;
        }
        proof {
            assert(rvs.take(rvs.len() as int) =~= rvs);
        }
        r
    }

    /// The rows of this shard (for specifications).
    pub closed spec fn rows_view(&self) -> Seq<RowView> {
        self.rows.deep_view()
    }

    /// Copies table `from` over table `to` in one atomic step: afterwards
    /// `to` holds exactly what `from` held, and every other table is
    /// untouched. Cloning a table onto itself changes nothing.
    pub fn clone_table(&mut self, from: &str, to: &str)
        ensures
            final(self).spec_has_table(to@),
            forall|k: Seq<u8>|
                final(self).spec_get(to@, k) == old(self).spec_get(from@, k) || (from@ == to@
                    && final(self).spec_get(to@, k) == old(self).spec_get(to@, k)),
            forall|t2: Seq<char>, k2: Seq<u8>|
                t2 != to@ ==> final(self).spec_get(t2, k2) == old(self).spec_get(t2, k2),
            forall|t2: Seq<char>|
                t2 != to@ ==> final(self).spec_has_table(t2) == old(self).spec_has_table(t2),
    {
        let same = from.to_owned().eq(&to.to_owned());
        if same {
            self.create_table(to);
            return ;
        }
        let ghost orig = *self;
        let snapshot = self.stream_table(from);
        self.drop_table(to);
        self.create_table(to);
        let ghost base = *self;
        let n = snapshot.len();
        let mut i: usize = 0;
        while i < n
            invariant
                i <= n,
                n == snapshot@.len(),
                self.spec_has_table(to@),
                pairs_view(snapshot@) =~= row_pairs(rows_only_spec(orig.rows_view(), from@)),
                forall|k: Seq<u8>|
                    self.spec_get(to@, k) == find_pair(pairs_view(snapshot@).take(i as int), k),
                forall|t2: Seq<char>, k2: Seq<u8>|
                    t2 != to@ ==> self.spec_get(t2, k2) == base.spec_get(t2, k2),
                forall|t2: Seq<char>|
                    t2 != to@ ==> self.spec_has_table(t2) == base.spec_has_table(t2),
            decreases n - i,
        {
            let kc = crate::inverted_index::copy_bytes(&snapshot[i].0);
            let vc = crate::inverted_index::copy_bytes(&snapshot[i].1);
            self.set(to, kc, vc);
            proof {
                assert(pairs_view(snapshot@).take(i + 1).drop_last() =~= pairs_view(
                    snapshot@,
                ).take(i as int));
                assert(pairs_view(snapshot@).take(i + 1).last() == pairs_view(snapshot@)[i as int]);
            }
            i = i + 1;
        }
        proof {
            assert(pairs_view(snapshot@).take(n as int) =~= pairs_view(snapshot@));
            assert forall|k: Seq<u8>| #[trigger] self.spec_get(to@, k) == orig.spec_get(
                from@,
                k,
            ) by {
                lemma_find_pair_only(orig.rows_view(), from@, k);
            }
        }
    }

    /// Binds several keys of table `t` in one application, as one
    /// replicated log entry does.
    pub fn batch_set(&mut self, t: &str, pairs: Vec<(Vec<u8>, Vec<u8>)>)
        ensures
            final(self).spec_has_table(t@) || pairs@.len() == 0,
            forall|j: int|
                0 <= j < pairs@.len() && (forall|j2: int|
                    j < j2 < pairs@.len() ==> (#[trigger] pairs@[j2]).0@ != pairs@[j].0@)
                    ==> final(self).spec_get(t@, (#[trigger] pairs@[j]).0@) == Some(pairs@[j].1@),
            forall|t2: Seq<char>, k2: Seq<u8>|
                (t2 != t@ || (forall|j: int|
                    0 <= j < pairs@.len() ==> (#[trigger] pairs@[j]).0@ != k2))
                    ==> final(self).spec_get(t2, k2) == old(self).spec_get(t2, k2),
    {
        let mut i: usize = 0;
        let n = pairs.len();
        while i < n
            invariant
                i <= n,
                n == pairs@.len(),
                i > 0 ==> self.spec_has_table(t@),
                forall|t2: Seq<char>|
                    t2 != t@ ==> self.spec_has_table(t2) == old(self).spec_has_table(t2),
                forall|j: int|
                    0 <= j < i && (forall|j2: int|
                        j < j2 < i ==> (#[trigger] pairs@[j2]).0@ != pairs@[j].0@)
                        ==> self.spec_get(t@, (#[trigger] pairs@[j]).0@) == Some(pairs@[j].1@),
                forall|t2: Seq<char>, k2: Seq<u8>|
                    (t2 != t@ || (forall|j: int|
                        0 <= j < i ==> (#[trigger] pairs@[j]).0@ != k2)) ==> self.spec_get(t2, k2)
                        == old(self).spec_get(t2, k2),
            decreases n - i,
        {
            let kc = crate::inverted_index::copy_bytes(&pairs[i].0);
            let vc = crate::inverted_index::copy_bytes(&pairs[i].1);
            self.set(t, kc, vc);
            i = i + 1;
        }
    }
}

/// One replicated mutation, as a shard's log carries it.
#[derive(Debug, Clone)]
pub enum Request {
    SetKey { table: String, key: Vec<u8>, value: Vec<u8> },
    BatchSet { table: String, pairs: Vec<(Vec<u8>, Vec<u8>)> },
    Upsert { table: String, key: Vec<u8>, value: Vec<u8>, func: UpsertFunc },
    CreateTable { table: String },
    DropTable { table: String },
    CloneTable { from: String, to: String },
    AllTables,
}

/// What one request holds, as mathematical sequences.
pub enum RequestView {
    SetKey { table: Seq<char>, key: Seq<u8>, value: Seq<u8> },
    BatchSet { table: Seq<char>, pairs: Seq<(Seq<u8>, Seq<u8>)> },
    Upsert { table: Seq<char>, key: Seq<u8>, value: Seq<u8>, func: UpsertFunc },
    CreateTable { table: Seq<char> },
    DropTable { table: Seq<char> },
    CloneTable { from: Seq<char>, to: Seq<char> },
    AllTables,
}

impl View for Request {
    type V = RequestView;

    open spec fn view(&self) -> RequestView {
        match self {
            Request::SetKey { table, key, value } => RequestView::SetKey {
                table: table@,
                key: key@,
                value: value@,
            },
            Request::BatchSet { table, pairs } => RequestView::BatchSet {
                table: table@,
                pairs: pairs_view(pairs@),
            },
            Request::Upsert { table, key, value, func } => RequestView::Upsert {
                table: table@,
                key: key@,
                value: value@,
                func: *func,
            },
            Request::CreateTable { table } => RequestView::CreateTable { table: table@ },
            Request::DropTable { table } => RequestView::DropTable { table: table@ },
            Request::CloneTable { from, to } => RequestView::CloneTable { from: from@, to: to@ },
            Request::AllTables => RequestView::AllTables,
        }
    }
}

/// What the state machine answers.
#[derive(Debug, Clone)]
pub enum Response {
    Empty,
    NewValue(Vec<u8>),
    Tables(Vec<String>),
}

/// The abstract state of one shard: its tables and the binding of every
/// key.
pub struct ShardState {
    pub tables: Set<Seq<char>>,
    pub data: Map<(Seq<char>, Seq<u8>), Seq<u8>>,
}

/// The binding of key `k` of table `t` after one batch of pairs, applied
/// left to right.
pub open spec fn batch_value(
    data_at: Option<Seq<u8>>,
    pairs: Seq<(Seq<u8>, Seq<u8>)>,
    k: Seq<u8>,
) -> Option<Seq<u8>>
    decreases pairs.len(),
{
    if pairs.len() == 0 {
        data_at
    } else if pairs.last().0 == k {
        Some(pairs.last().1)
    } else {
        batch_value(data_at, pairs.drop_last(), k)
    }
}

/// How one request steps the abstract shard state. Reads leave the state
/// unchanged.
pub open spec fn step(s: ShardState, r: RequestView) -> ShardState {
    match r {
        RequestView::SetKey { table, key, value } => ShardState {
            tables: s.tables.insert(table),
            data: s.data.insert((table, key), value),
        },
        RequestView::BatchSet { table, pairs } => ShardState {
            tables: if pairs.len() == 0 {
                s.tables
            } else {
                s.tables.insert(table)
            },
            data: Map::new(
                |p: (Seq<char>, Seq<u8>)|
                    if p.0 == table {
                        batch_value(
                            if s.data.contains_key(p) {
                                Some(s.data[p])
                            } else {
                                None
                            },
                            pairs,
                            p.1,
                        ).is_some()
                    } else {
                        s.data.contains_key(p)
                    },
                |p: (Seq<char>, Seq<u8>)|
                    if p.0 == table {
                        batch_value(
                            if s.data.contains_key(p) {
                                Some(s.data[p])
                            } else {
                                None
                            },
                            pairs,
                            p.1,
                        ).unwrap()
                    } else {
                        s.data[p]
                    },
            ),
        },
        RequestView::Upsert { table, key, value, func } => ShardState {
            tables: s.tables.insert(table),
            data: s.data.insert(
                (table, key),
                apply_upsert_spec(
                    func,
                    if s.data.contains_key((table, key)) {
                        Some(s.data[(table, key)])
                    } else {
                        None
                    },
                    value,
                ),
            ),
        },
        RequestView::CreateTable { table } => ShardState {
            tables: s.tables.insert(table),
            data: s.data,
        },
        RequestView::DropTable { table } => ShardState {
            tables: s.tables.remove(table),
            data: Map::new(
                |p: (Seq<char>, Seq<u8>)| p.0 != table && s.data.contains_key(p),
                |p: (Seq<char>, Seq<u8>)| s.data[p],
            ),
        },
        RequestView::CloneTable { from, to } => ShardState {
            tables: s.tables.insert(to),
            data: Map::new(
                |p: (Seq<char>, Seq<u8>)|
                    if p.0 == to {
                        s.data.contains_key((from, p.1))
                    } else {
                        s.data.contains_key(p)
                    },
                |p: (Seq<char>, Seq<u8>)|
                    if p.0 == to {
                        s.data[(from, p.1)]
                    } else {
                        s.data[p]
                    },
            ),
        },
        RequestView::AllTables => s,
    }
}

/// The state a replica holds after applying a log, in order, from `init`.
pub open spec fn state_after(init: ShardState, log: Seq<RequestView>) -> ShardState
    decreases log.len(),
{
    if log.len() == 0 {
        init
    } else {
        step(state_after(init, log.drop_last()), log.last())
    }
}

/// Whether applying `r` can change the binding of key `k` of table `t`.
pub open spec fn writes_key(r: RequestView, t: Seq<char>, k: Seq<u8>) -> bool {
    match r {
        RequestView::SetKey { table, key, .. } => table == t && key == k,
        RequestView::BatchSet { table, pairs } => table == t && (exists|j: int|
            0 <= j < pairs.len() && (#[trigger] pairs[j]).0 == k),
        RequestView::Upsert { table, key, .. } => table == t && key == k,
        RequestView::CreateTable { .. } => false,
        RequestView::DropTable { table } => table == t,
        RequestView::CloneTable { to, .. } => to == t,
        RequestView::AllTables => false,
    }
}

proof fn lemma_batch_value_no_key(
    data_at: Option<Seq<u8>>,
    pairs: Seq<(Seq<u8>, Seq<u8>)>,
    k: Seq<u8>,
)
    requires
        forall|j: int| 0 <= j < pairs.len() ==> (#[trigger] pairs[j]).0 != k,
    ensures
        batch_value(data_at, pairs, k) == data_at,
    decreases pairs.len(),
{
    if pairs.len() > 0 {
        assert(pairs[pairs.len() - 1].0 != k);
        lemma_batch_value_no_key(data_at, pairs.drop_last(), k);
    }
}

/// A step that does not write key `k` of table `t` leaves its binding
/// untouched.
proof fn lemma_step_preserves(s: ShardState, r: RequestView, t: Seq<char>, k: Seq<u8>)
    requires
        !writes_key(r, t, k),
    ensures
        step(s, r).data.contains_key((t, k)) == s.data.contains_key((t, k)),
        s.data.contains_key((t, k)) ==> step(s, r).data[(t, k)] == s.data[(t, k)],
{
    match r {
        RequestView::BatchSet { table, pairs } => {
            if table == t {
                lemma_batch_value_no_key(
                    if s.data.contains_key((t, k)) {
                        Some(s.data[(t, k)])
                    } else {
                        None
                    },
                    pairs,
                    k,
                );
            }
        },
        _ => {},
    }
}

/// Linearized reads: once a replica has applied the log up to `m`, a read
/// of key `k` of table `t` returns the value of the write at `i` whenever
/// no later entry before `m` writes that key. A read preceded by the
/// linearization write is served from such a state, so it observes the
/// write or a later one.
pub proof fn lemma_linearized_read(
    init: ShardState,
    log: Seq<RequestView>,
    i: int,
    m: int,
    t: Seq<char>,
    k: Seq<u8>,
    v: Seq<u8>,
)
    requires
        0 <= i < m <= log.len(),
        log[i] == (RequestView::SetKey { table: t, key: k, value: v }),
        forall|j: int| i < j < m ==> !writes_key(#[trigger] log[j], t, k),
    ensures
        state_after(init, log.take(m)).data.contains_key((t, k)),
        state_after(init, log.take(m)).data[(t, k)] == v,
    decreases m,
{
    if m == i + 1 {
        assert(log.take(m).drop_last() =~= log.take(i));
        assert(log.take(m).last() == log[i]);
    } else {
        lemma_linearized_read(init, log, i, m - 1, t, k, v);
        assert(log.take(m).drop_last() =~= log.take(m - 1));
        assert(log.take(m).last() == log[m - 1]);
        lemma_step_preserves(state_after(init, log.take(m - 1)), log[m - 1], t, k);
    }
}

/// The abstract state a shard's store holds.
pub open spec fn state_of(db: &Db) -> ShardState {
    ShardState {
        tables: Set::new(|t: Seq<char>| db.spec_has_table(t)),
        data: Map::new(
            |p: (Seq<char>, Seq<u8>)| db.spec_get(p.0, p.1).is_some(),
            |p: (Seq<char>, Seq<u8>)| db.spec_get(p.0, p.1).unwrap(),
        ),
    }
}

impl Db {
    /// Applies one replicated request, exactly as the abstract state
    /// machine steps: this is what every replica runs, in log order, for
    /// each committed entry.
    pub fn apply(&mut self, req: &Request) -> (r: Response)
        ensures
            state_of(final(self)) == step(state_of(old(self)), req@),
    {
        let resp = match req {
            Request::SetKey { table, key, value } => {
                self.set(
                    table.as_str(),
                    crate::inverted_index::copy_bytes(key),
                    crate::inverted_index::copy_bytes(value),
                );
                Response::Empty
            },
            Request::BatchSet { table, pairs } => {
                let mut copied: Vec<(Vec<u8>, Vec<u8>)> = Vec::new();
                let mut i: usize = 0;
                while i < pairs.len()
                    invariant
                        i <= pairs@.len(),
                        pairs_view(copied@) =~= pairs_view(pairs@).take(i as int),
                    decreases pairs@.len() - i,
                {
                    let ghost prev = pairs_view(copied@);
                    copied.push(
                        (
                            crate::inverted_index::copy_bytes(&pairs[i].0),
                            crate::inverted_index::copy_bytes(&pairs[i].1),
                        ),
                    );
                    proof {
                        assert(pairs_view(copied@) =~= prev.push(pairs_view(pairs@)[i as int]));
                        assert(pairs_view(pairs@).take(i + 1) =~= pairs_view(pairs@).take(
                            i as int,
                        ).push(pairs_view(pairs@)[i as int]));
                    }
                    i = i + 1;
                }
                proof {
                    assert(pairs_view(pairs@).take(pairs_view(pairs@).len() as int) =~= pairs_view(
                        pairs@,
                    ));
                }
                self.batch_set_stepwise(table.as_str(), copied);
                Response::Empty
            },
            Request::Upsert { table, key, value, func } => {
                let merged = self.upsert(
                    table.as_str(),
                    crate::inverted_index::copy_bytes(key),
                    crate::inverted_index::copy_bytes(value),
                    *func,
                );
                Response::NewValue(merged)
            },
            Request::CreateTable { table } => {
                self.create_table(table.as_str());
                Response::Empty
            },
            Request::DropTable { table } => {
                self.drop_table(table.as_str());
                Response::Empty
            },
            Request::CloneTable { from, to } => {
                self.clone_table(from.as_str(), to.as_str());
                Response::Empty
            },
            Request::AllTables => { Response::Tables(self.all_tables()) },
        };
        proof {
            let s0 = state_of(old(self));
            let s1 = state_of(self);
            let sp = step(s0, req@);
            assert(s1.tables =~= sp.tables);
            assert(s1.data =~= sp.data);
            assert(s1 == sp);
        }
        resp
    }

    /// Binds the pairs of one batch in order, stepping the abstract state
    /// as one `BatchSet` entry does.
    fn batch_set_stepwise(&mut self, t: &str, pairs: Vec<(Vec<u8>, Vec<u8>)>)
        ensures
            pairs@.len() > 0 ==> final(self).spec_has_table(t@),
            pairs@.len() == 0 ==> *final(self) == *old(self),
            forall|k: Seq<u8>|
                final(self).spec_get(t@, k) == batch_value(
                    old(self).spec_get(t@, k),
                    pairs_view(pairs@),
                    k,
                ),
            forall|t2: Seq<char>, k2: Seq<u8>|
                t2 != t@ ==> final(self).spec_get(t2, k2) == old(self).spec_get(t2, k2),
            forall|t2: Seq<char>|
                (t2 != t@ || pairs@.len() == 0) ==> final(self).spec_has_table(t2) == old(
                    self,
                ).spec_has_table(t2),
    {
        let n = pairs.len();
        let mut i: usize = 0;
        while i < n
            invariant
                i <= n,
                n == pairs@.len(),
                i > 0 ==> self.spec_has_table(t@),
                i == 0 ==> *self == *old(self),
                forall|k: Seq<u8>|
                    self.spec_get(t@, k) == batch_value(
                        old(self).spec_get(t@, k),
                        pairs_view(pairs@).take(i as int),
                        k,
                    ),
                forall|t2: Seq<char>, k2: Seq<u8>|
                    t2 != t@ ==> self.spec_get(t2, k2) == old(self).spec_get(t2, k2),
                forall|t2: Seq<char>|
                    t2 != t@ ==> self.spec_has_table(t2) == old(self).spec_has_table(t2),
            decreases n - i,
        {
            let kc = crate::inverted_index::copy_bytes(&pairs[i].0);
            let vc = crate::inverted_index::copy_bytes(&pairs[i].1);
            self.set(t, kc, vc);
            proof {
                assert forall|k: Seq<u8>| #[trigger] self.spec_get(t@, k) == batch_value(
                    old(self).spec_get(t@, k),
                    pairs_view(pairs@).take(i + 1),
                    k,
                ) by {
                    assert(pairs_view(pairs@).take(i + 1).drop_last() =~= pairs_view(
                        pairs@,
                    ).take(i as int));
                    assert(pairs_view(pairs@).take(i + 1).last() == pairs_view(pairs@)[i as int]);
                }
            }
            i = i + 1;
        }
        proof {
            assert(pairs_view(pairs@).take(n as int) =~= pairs_view(pairs@));
        }
    }

    /// Reads several keys of table `t` at once; each slot answers the key
    /// at the same position, `None` where the key is unbound.
    pub fn batch_get(&self, t: &str, keys: &Vec<Vec<u8>>) -> (r: Vec<Option<Vec<u8>>>)
        ensures
            r@.len() == keys@.len(),
            forall|i: int|
                0 <= i < r@.len() ==> ((#[trigger] r@[i]).is_some() <==> self.spec_get(
                    t@,
                    keys@[i]@,
                ).is_some()),
            forall|i: int|
                0 <= i < r@.len() ==> ((#[trigger] r@[i]).is_some() ==> r@[i].unwrap()@
                    == self.spec_get(t@, keys@[i]@).unwrap()),
    {
        let mut r: Vec<Option<Vec<u8>>> = Vec::new();
        let mut i: usize = 0;
        while i < keys.len()
            invariant
                i <= keys@.len(),
                r@.len() == i,
                forall|q: int|
                    0 <= q < i ==> ((#[trigger] r@[q]).is_some() <==> self.spec_get(
                        t@,
                        keys@[q]@,
                    ).is_some()),
                forall|q: int|
                    0 <= q < i ==> ((#[trigger] r@[q]).is_some() ==> r@[q].unwrap()@
                        == self.spec_get(t@, keys@[q]@).unwrap()),
            decreases keys@.len() - i,
        {
            r.push(self.get(t, &keys[i]));
            i = i + 1;
        }
        r
    }
}

/// The FNV-1a hash of a byte string, as the client routes keys to shards.
pub open spec fn fnv1a_spec(s: Seq<u8>) -> u64
    decreases s.len(),
{
    if s.len() == 0 {
        0xcbf29ce484222325u64
    } else {
        ((((fnv1a_spec(s.drop_last()) ^ (s.last() as u64)) as int) * 0x100000001b3)
            % 0x1_0000_0000_0000_0000) as u64
    }
}

/// The shard a key is routed to: its hash modulo the number of shards.
/// Shards are not rebalanced when the count changes, so a resized cluster
/// routes keys differently.
pub fn shard_for_key(key: &Vec<u8>, num_shards: u64) -> (r: u64)
    requires
        num_shards > 0,
    ensures
        r == fnv1a_spec(key@) % num_shards,
        r < num_shards,
{
    let mut h: u64 = 0xcbf29ce484222325u64;
    let mut i: usize = 0;
    while i < key.len()
        invariant
            i <= key@.len(),
            h == fnv1a_spec(key@.take(i as int)),
        decreases key@.len() - i,
    {
        let x = h ^ (key[i] as u64);
        let wide: u128 = (x as u128) * 0x100000001b3u128;
        let m: u128 = wide % 0x1_0000_0000_0000_0000u128;
        proof {
            assert(key@.take(i + 1).drop_last() =~= key@.take(i as int));
            assert(key@.take(i + 1).last() == key@[i as int]);
            assert(m < 0x1_0000_0000_0000_0000u128) by {
                vstd::arithmetic::div_mod::lemma_mod_bound(
                    wide as int,
                    0x1_0000_0000_0000_0000u128 as int,
                );
            }
        }
        h = m as u64;
        i = i + 1;
    }
    proof {
        assert(key@.take(key@.len() as int) =~= key@);
    }
    h % num_shards
}

} // verus!
