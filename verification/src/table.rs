//! A map from keys to records, kept in lists in which no key occurs twice. A key says which list
//! it belongs to.
use vstd::prelude::*;

verus! {

/// What a table is keyed by.
pub trait TableKey: Sized {
    /// The value that two keys are told apart by.
    type Id;

    spec fn id(&self) -> Self::Id;

    /// A number that helps to find a key.
    spec fn slot_of(id: Self::Id) -> nat;

    /// A number that helps to find the key.
    fn slot(&self) -> (r: u64)
        ensures
            r as nat == Self::slot_of(self.id()),
    ;

    /// Whether two keys are the same.
    fn same(&self, other: &Self) -> (r: bool)
        ensures
            r == (self.id() == other.id()),
    ;
}

impl TableKey for u64 {
    type Id = u64;

    open spec fn id(&self) -> u64 {
        *self
    }

    open spec fn slot_of(id: u64) -> nat {
        id as nat
    }

    fn slot(&self) -> (r: u64) {
        *self
    }

    fn same(&self, other: &Self) -> (r: bool) {
        *self == *other
    }
}

/// A condition on the records of a table.
pub trait Condition<V: View>: Sized {
    spec fn holds(&self, v: V::V) -> bool;

    /// Whether `v` meets the condition.
    fn check(&self, v: &V) -> (r: bool)
        ensures
            r == self.holds(v@),
    ;
}

/// The entries of `m` whose value meets `p`.
pub open spec fn kept<I, W>(m: Map<I, W>, p: spec_fn(W) -> bool) -> Map<I, W> {
    m.restrict(Set::new(|id: I| m.contains_key(id) && p(m[id])))
}

/// Keeping some of the entries keeps a map finite, and adds none.
pub proof fn lemma_kept<I, W>(m: Map<I, W>, p: spec_fn(W) -> bool)
    requires
        m.dom().finite(),
    ensures
        kept(m, p).dom().finite(),
        kept(m, p).len() <= m.len(),
        forall|id: I| #[trigger]
            kept(m, p).contains_key(id) <==> m.contains_key(id) && p(m[id]),
        forall|id: I| #[trigger] kept(m, p).contains_key(id) ==> kept(m, p)[id] == m[id],
{
    assert(kept(m, p).dom().subset_of(m.dom()));
    vstd::set_lib::lemma_len_subset(kept(m, p).dom(), m.dom());
}

/// How many lists a table has, once there is something in it.
const BUCKETS: usize = 4096;

/// A map from keys to records.
#[derive(Debug)]
pub struct Table<K: TableKey, V: View> {
    buckets: Vec<Vec<(K, V)>>,
    count: u128,
}

/// No two entries have the same key.
spec fn distinct<K: TableKey, V: View>(s: Seq<(K, V)>) -> bool {
    forall|i: int, j: int|
        0 <= i < s.len() && 0 <= j < s.len() && i != j ==> (#[trigger] s[i]).0.id() != (
        #[trigger] s[j]).0.id()
}

/// The map that a list of entries stands for.
spec fn contents<K: TableKey, V: View>(s: Seq<(K, V)>) -> Map<K::Id, V::V>
    decreases s.len(),
{
    if s.len() == 0 {
        Map::empty()
    } else {
        contents(s.drop_last()).insert(s.last().0.id(), s.last().1@)
    }
}

/// The map holds exactly the entries of the list.
proof fn lemma_contents<K: TableKey, V: View>(s: Seq<(K, V)>)
    requires
        distinct(s),
    ensures
        contents(s).dom().finite(),
        contents(s).len() == s.len(),
        forall|i: int|
            0 <= i < s.len() ==> {
                &&& contents(s).contains_key((#[trigger] s[i]).0.id())
                &&& contents(s)[s[i].0.id()] == s[i].1@
            },
        forall|id: K::Id| #[trigger]
            contents(s).contains_key(id) ==> exists|i: int|
                0 <= i < s.len() && (#[trigger] s[i]).0.id() == id,
    decreases s.len(),
{
    if s.len() > 0 {
        let t = s.drop_last();
        assert(distinct(t)) by {
            assert forall|i: int, j: int|
                0 <= i < t.len() && 0 <= j < t.len() && i != j implies (#[trigger] t[i]).0.id() != (
            #[trigger] t[j]).0.id() by {
                assert(t[i] == s[i] && t[j] == s[j]);
            }
        }
        lemma_contents(t);
        assert(!contents(t).contains_key(s.last().0.id())) by {
            if contents(t).contains_key(s.last().0.id()) {
                let i = choose|i: int|
                    0 <= i < t.len() && (#[trigger] t[i]).0.id() == s.last().0.id();
                assert(s[i].0.id() == s[s.len() - 1].0.id());
            }
        }
        assert forall|i: int| 0 <= i < s.len() implies {
            &&& contents(s).contains_key((#[trigger] s[i]).0.id())
            &&& contents(s)[s[i].0.id()] == s[i].1@
        } by {
            if i < s.len() - 1 {
                assert(t[i] == s[i]);
                assert(s[i].0.id() != s[s.len() - 1].0.id());
            }
        }
        assert forall|id: K::Id| #[trigger] contents(s).contains_key(id) implies exists|i: int|
            0 <= i < s.len() && (#[trigger] s[i]).0.id() == id by {
            if contents(t).contains_key(id) {
                let i = choose|i: int| 0 <= i < t.len() && (#[trigger] t[i]).0.id() == id;
                assert(s[i].0.id() == id);
            } else {
                assert(s[s.len() - 1].0.id() == id);
            }
        }
    }
}

/// Taking an entry out of a list takes it out of the map.
proof fn lemma_remove_entry<K: TableKey, V: View>(s: Seq<(K, V)>, i: int)
    requires
        distinct(s),
        0 <= i < s.len(),
    ensures
        distinct(s.remove(i)),
        contents(s.remove(i)) == contents(s).remove(s[i].0.id()),
{
    let t = s.remove(i);
    let gone = s[i].0.id();
    lemma_contents(s);
    assert forall|a: int, b: int| 0 <= a < t.len() && 0 <= b < t.len() && a != b implies (
    #[trigger] t[a]).0.id() != (#[trigger] t[b]).0.id() by {
        let x = if a < i {
            a
        } else {
            a + 1
        };
        let y = if b < i {
            b
        } else {
            b + 1
        };
        assert(t[a] == s[x] && t[b] == s[y]);
    }
    lemma_contents(t);
    assert forall|id: K::Id| #[trigger]
        contents(t).contains_key(id) <==> contents(s).remove(gone).contains_key(id) by {
        if contents(t).contains_key(id) {
            let a = choose|a: int| 0 <= a < t.len() && (#[trigger] t[a]).0.id() == id;
            let x = if a < i {
                a
            } else {
                a + 1
            };
            assert(t[a] == s[x]);
            assert(s[x].0.id() != s[i].0.id());
        }
        if contents(s).contains_key(id) && id != gone {
            let x = choose|x: int| 0 <= x < s.len() && (#[trigger] s[x]).0.id() == id;
            let a = if x < i {
                x
            } else {
                x - 1
            };
            assert(t[a] == s[x]);
        }
    }
    assert forall|id: K::Id| #[trigger] contents(t).contains_key(id) implies contents(t)[id]
        == contents(s)[id] by {
        let a = choose|a: int| 0 <= a < t.len() && (#[trigger] t[a]).0.id() == id;
        let x = if a < i {
            a
        } else {
            a + 1
        };
        assert(t[a] == s[x]);
    }
    assert(contents(t) =~= contents(s).remove(gone));
}

/// Adding an entry with a new key to a list adds it to the map.
proof fn lemma_push_entry<K: TableKey, V: View>(s: Seq<(K, V)>, e: (K, V))
    requires
        distinct(s),
        !contents(s).contains_key(e.0.id()),
    ensures
        distinct(s.push(e)),
        contents(s.push(e)) == contents(s).insert(e.0.id(), e.1@),
{
    let t = s.push(e);
    lemma_contents(s);
    assert forall|a: int, b: int| 0 <= a < t.len() && 0 <= b < t.len() && a != b implies (
    #[trigger] t[a]).0.id() != (#[trigger] t[b]).0.id() by {
        if a < s.len() {
            assert(contents(s).contains_key(s[a].0.id()));
        }
        if b < s.len() {
            assert(contents(s).contains_key(s[b].0.id()));
        }
    }
    assert(t.drop_last() =~= s);
}

/// Which of `n` lists a key belongs to.
spec fn home<K: TableKey>(id: K::Id, n: nat) -> int {
    (K::slot_of(id) % n) as int
}

/// The map that lists of entries stand for.
spec fn joined<K: TableKey, V: View>(buckets: Seq<Vec<(K, V)>>) -> Map<K::Id, V::V> {
    Map::new(
        |id: K::Id|
            buckets.len() > 0 && contents(buckets[home::<K>(id, buckets.len())]@).contains_key(id),
        |id: K::Id| contents(buckets[home::<K>(id, buckets.len())]@)[id],
    )
}

/// No key occurs twice in a list, and each is in the list that it belongs to.
spec fn placed<K: TableKey, V: View>(buckets: Seq<Vec<(K, V)>>) -> bool {
    &&& forall|b: int| 0 <= b < buckets.len() ==> distinct((#[trigger] buckets[b])@)
    &&& forall|b: int, i: int|
        0 <= b < buckets.len() && 0 <= i < buckets[b]@.len() ==> home::<K>(
            (#[trigger] buckets[b]@[i]).0.id(),
            buckets.len(),
        ) == b
}

/// The entries of the first `n` lists.
spec fn joined_below<K: TableKey, V: View>(buckets: Seq<Vec<(K, V)>>, n: int) -> Map<
    K::Id,
    V::V,
> {
    joined(buckets).restrict(
        Set::new(
            |id: K::Id|
                joined(buckets).contains_key(id) && home::<K>(id, buckets.len()) < n,
        ),
    )
}

/// Lists hold finitely many entries, as many as they are long at most.
proof fn lemma_joined_below<K: TableKey, V: View>(buckets: Seq<Vec<(K, V)>>, n: int)
    requires
        placed(buckets),
        0 <= n <= buckets.len(),
    ensures
        joined_below(buckets, n).dom().finite(),
        joined_below(buckets, n).len() <= n * usize::MAX,
    decreases n,
{
    if n == 0 {
        assert(joined_below(buckets, n).dom() =~= Set::empty());
    } else {
        lemma_joined_below(buckets, n - 1);
        let list = buckets[n - 1]@;
        lemma_contents(list);
        let below = joined_below(buckets, n - 1).dom();
        let here = contents(list).dom();
        assert(joined_below(buckets, n).dom().subset_of(below.union(here)));
        vstd::set_lib::lemma_len_union(below, here);
        vstd::set_lib::lemma_len_subset(joined_below(buckets, n).dom(), below.union(here));
        assert(list.len() <= usize::MAX) by {
            assert(buckets[n - 1].len() <= usize::MAX);
        }
        assert((n - 1) * usize::MAX + usize::MAX == n * usize::MAX) by (nonlinear_arith);
    }
}

/// A table holds finitely many entries.
proof fn lemma_joined<K: TableKey, V: View>(buckets: Seq<Vec<(K, V)>>)
    requires
        placed(buckets),
    ensures
        joined(buckets).dom().finite(),
        joined(buckets).len() <= buckets.len() * usize::MAX,
{
    lemma_joined_below(buckets, buckets.len() as int);
    assert(joined_below(buckets, buckets.len() as int) =~= joined(buckets));
}

impl<K: TableKey, V: View> View for Table<K, V> {
    type V = Map<K::Id, V::V>;

    closed spec fn view(&self) -> Map<K::Id, V::V> {
        joined(self.buckets@)
    }
}

/// Where the entry for `k` stands in a list.
fn position<K: TableKey, V: View>(entries: &Vec<(K, V)>, k: &K) -> (r: Option<usize>)
    requires
        distinct(entries@),
    ensures
        match r {
            Some(i) => i < entries@.len() && entries@[i as int].0.id() == k.id() && contents(
                entries@,
            ).contains_key(k.id()) && contents(entries@)[k.id()] == entries@[i as int].1@,
            None => !contents(entries@).contains_key(k.id()),
        },
{
    let mut i: usize = 0;
    while i < entries.len()
        invariant
            i <= entries@.len(),
            distinct(entries@),
            forall|j: int| 0 <= j < i ==> (#[trigger] entries@[j]).0.id() != k.id(),
        decreases entries.len() - i,
    {
        if entries[i].0.same(k) {
            proof {
                lemma_contents(entries@);
            }
            return Some(i);
        }
        i += 1;
    }
    proof {
        lemma_contents(entries@);
    }
    None
}

impl<K: TableKey, V: View> Table<K, V> {
    #[verifier::type_invariant]
    spec fn wf(self) -> bool {
        &&& placed(self.buckets@)
        &&& self.buckets@.len() == 0 || self.buckets@.len() == BUCKETS
        &&& joined(self.buckets@).len() == self.count
    }

    /// An empty table.
    pub fn new() -> (r: Self)
        ensures
            r@ == Map::<K::Id, V::V>::empty(),
    {
        let buckets: Vec<Vec<(K, V)>> = Vec::new();
        assert(joined(buckets@) =~= Map::<K::Id, V::V>::empty());
        Table { buckets, count: 0 }
    }

    /// The number of entries.
    pub fn len(&self) -> (r: u128)
        ensures
            r == self@.len(),
            self@.dom().finite(),
    {
        proof {
            use_type_invariant(self);
            lemma_joined(self.buckets@);
        }
        self.count
    }

    /// The record of `k`.
    pub fn get(&self, k: &K) -> (r: Option<&V>)
        ensures
            match r {
                Some(v) => self@.contains_key(k.id()) && self@[k.id()] == v@,
                None => !self@.contains_key(k.id()),
            },
    {
        proof {
            use_type_invariant(self);
        }
        if self.buckets.len() == 0 {
            return None;
        }
        let b: usize = (k.slot() % self.buckets.len() as u64) as usize;
        assert(b == home::<K>(k.id(), self.buckets@.len()));
        match position(&self.buckets[b], k) {
            Some(i) => Some(&self.buckets[b][i].1),
            None => None,
        }
    }

    /// Whether there is a record of `k`.
    pub fn contains_key(&self, k: &K) -> (r: bool)
        ensures
            r == self@.contains_key(k.id()),
    {
        self.get(k).is_some()
    }

    /// Takes the record of `k` out of the table.
    pub fn remove(&mut self, k: &K) -> (r: Option<V>)
        ensures
            final(self)@ == old(self)@.remove(k.id()),
            match r {
                Some(v) => old(self)@.contains_key(k.id()) && old(self)@[k.id()] == v@,
                None => !old(self)@.contains_key(k.id()),
            },
    {
        proof {
            use_type_invariant(&*self);
        }
        let ghost before = self@;
        if self.buckets.len() == 0 {
            assert(before.remove(k.id()) =~= before);
            return None;
        }
        let b: usize = (k.slot() % self.buckets.len() as u64) as usize;
        assert(b == home::<K>(k.id(), self.buckets@.len()));
        let i: usize = match position(&self.buckets[b], k) {
            Some(i) => i,
            None => {
                assert(before.remove(k.id()) =~= before);
                return None;
            },
        };
        let mut taken: Table<K, V> = Table::new();
        std::mem::swap(&mut taken, self);
        let Table { mut buckets, count } = taken;
        let ghost old_buckets = buckets@;
        let mut bucket: Vec<(K, V)> = Vec::new();
        std::mem::swap(&mut bucket, &mut buckets[b]);
        proof {
            lemma_remove_entry(bucket@, i as int);
        }
        let ghost entries = bucket@;
        let (_, v) = bucket.remove(i);
        buckets[b] = bucket;
        proof {
            let now = buckets@;
            assert(now =~= old_buckets.update(b as int, bucket));
            lemma_joined(old_buckets);
            assert(joined(now) =~= before.remove(k.id()));
            assert forall|c: int, j: int|
                0 <= c < now.len() && 0 <= j < now[c]@.len() implies home::<K>(
                (#[trigger] now[c]@[j]).0.id(),
                now.len(),
            ) == c by {
                if c == b {
                    let x = if j < i {
                        j
                    } else {
                        j + 1
                    };
                    assert(now[c]@[j] == entries[x]);
                    assert(old_buckets[c]@[x] == entries[x]);
                } else {
                    assert(now[c]@[j] == old_buckets[c]@[j]);
                }
            }
        }
        *self = Table { buckets, count: count - 1 };
        Some(v)
    }

    /// Records `v` for `k`, in place of what was recorded for it.
    pub fn insert(&mut self, k: K, v: V)
        ensures
            final(self)@ == old(self)@.insert(k.id(), v@),
    {
        let ghost before = self@;
        self.remove(&k);
        let ghost without = self@;
        proof {
            use_type_invariant(&*self);
        }
        let mut taken: Table<K, V> = Table::new();
        std::mem::swap(&mut taken, self);
        let Table { mut buckets, count } = taken;
        assert(joined(buckets@) == without);
        if buckets.len() == 0 {
            let mut n: usize = 0;
            while n < BUCKETS
                invariant
                    n <= BUCKETS,
                    buckets@.len() == n,
                    forall|c: int| 0 <= c < n ==> (#[trigger] buckets@[c])@.len() == 0,
                decreases BUCKETS - n,
            {
                buckets.push(Vec::new());
                n += 1;
            }
            assert(joined(buckets@) =~= without);
        }
        let b: usize = (k.slot() % buckets.len() as u64) as usize;
        assert(b == home::<K>(k.id(), buckets@.len()));
        let ghost old_buckets = buckets@;
        let mut bucket: Vec<(K, V)> = Vec::new();
        std::mem::swap(&mut bucket, &mut buckets[b]);
        let ghost entries = bucket@;
        proof {
            assert(entries == old_buckets[b as int]@);
            assert(joined(old_buckets) == without);
            assert(joined(old_buckets).contains_key(k.id()) == contents(entries).contains_key(
                k.id(),
            ));
            lemma_push_entry(entries, (k, v));
        }
        bucket.push((k, v));
        buckets[b] = bucket;
        proof {
            let now = buckets@;
            assert(now =~= old_buckets.update(b as int, bucket));
            assert(joined(now) =~= without.insert(k.id(), v@));
            assert(without.insert(k.id(), v@) =~= before.insert(k.id(), v@));
            assert forall|c: int, j: int|
                0 <= c < now.len() && 0 <= j < now[c]@.len() implies home::<K>(
                (#[trigger] now[c]@[j]).0.id(),
                now.len(),
            ) == c by {
                if c == b {
                    if j < entries.len() {
                        assert(now[c]@[j] == entries[j]);
                        assert(old_buckets[c]@[j] == entries[j]);
                    }
                } else {
                    assert(now[c]@[j] == old_buckets[c]@[j]);
                }
            }
            lemma_joined(old_buckets);
            lemma_joined(now);
            assert(4096 * usize::MAX < u128::MAX);
        }
        *self = Table { buckets, count: count + 1 };
    }

    /// Drops the records that do not meet `p`.
    pub fn retain<P: Condition<V>>(&mut self, p: P)
        ensures
            final(self)@ == kept(old(self)@, |v: V::V| p.holds(v)),
    {
        proof {
            use_type_invariant(&*self);
        }
        let ghost all = self@;
        let ghost pred = |v: V::V| p.holds(v);
        let mut taken: Table<K, V> = Table::new();
        std::mem::swap(&mut taken, self);
        let Table { buckets, count: _ } = taken;
        let ghost lists = buckets@;
        let mut out: Table<K, V> = Table::new();
        let ghost mut done: Map<K::Id, V::V> = Map::empty();
        proof {
            assert(kept(done, pred) =~= Map::<K::Id, V::V>::empty());
        }
        for bucket in outer: buckets
            invariant
                outer.seq() == lists,
                placed(lists),
                all == joined(lists),
                pred == (|v: V::V| p.holds(v)),
                out@ == kept(done, pred),
                forall|id: K::Id| #[trigger]
                    done.contains_key(id) <==> all.contains_key(id) && home::<K>(id, lists.len())
                        < outer.index(),
                forall|id: K::Id| #[trigger] done.contains_key(id) ==> done[id] == all[id],
        {
            let ghost b = outer.index() as int;
            let ghost entries = bucket@;
            assert(entries == lists[b]@);
            proof {
                lemma_contents(entries);
            }
            for entry in inner: bucket
                invariant
                    inner.seq() == entries,
                    0 <= b < lists.len(),
                    entries == lists[b]@,
                    placed(lists),
                    all == joined(lists),
                    pred == (|v: V::V| p.holds(v)),
                    out@ == kept(done, pred),
                    forall|id: K::Id| #[trigger]
                        done.contains_key(id) <==> (all.contains_key(id) && home::<K>(
                            id,
                            lists.len(),
                        ) < b) || (exists|j: int|
                            0 <= j < inner.index() && (#[trigger] entries[j]).0.id() == id),
                    forall|id: K::Id| #[trigger] done.contains_key(id) ==> done[id] == all[id],
            {
                let ghost n = inner.index() as int;
                let ghost e = entries[n];
                let ghost was = done;
                proof {
                    lemma_contents(entries);
                    assert(home::<K>(lists[b]@[n].0.id(), lists.len()) == b);
                    assert(all.contains_key(e.0.id()) && all[e.0.id()] == e.1@);
                    assert(!was.contains_key(e.0.id())) by {
                        if was.contains_key(e.0.id()) {
                            let j = choose|j: int|
                                0 <= j < n && (#[trigger] entries[j]).0.id() == e.0.id();
                            assert(entries[j].0.id() != entries[n].0.id());
                        }
                    }
                    done = was.insert(e.0.id(), e.1@);
                    assert(kept(done, pred) =~= if pred(e.1@) {
                        kept(was, pred).insert(e.0.id(), e.1@)
                    } else {
                        kept(was, pred)
                    });
                    assert forall|id: K::Id| #[trigger] done.contains_key(id) <==> (
                    all.contains_key(id) && home::<K>(id, lists.len()) < b) || (exists|j: int|
                        0 <= j < n + 1 && (#[trigger] entries[j]).0.id() == id) by {
                        if done.contains_key(id) && id == e.0.id() {
                            assert(entries[n].0.id() == id);
                        }
                        if exists|j: int| 0 <= j < n + 1 && (#[trigger] entries[j]).0.id() == id {
                            let j = choose|j: int|
                                0 <= j < n + 1 && (#[trigger] entries[j]).0.id() == id;
                            if j < n {
                                assert(was.contains_key(id));
                            }
                        }
                    }
                }
                if p.check(&entry.1) {
                    out.insert(entry.0, entry.1);
                }
            }
            proof {
                assert forall|id: K::Id| #[trigger] done.contains_key(id) <==> all.contains_key(id)
                    && home::<K>(id, lists.len()) < b + 1 by {
                    if exists|j: int|
                        0 <= j < entries.len() && (#[trigger] entries[j]).0.id() == id {
                        let j = choose|j: int|
                            0 <= j < entries.len() && (#[trigger] entries[j]).0.id() == id;
                        assert(home::<K>(lists[b]@[j].0.id(), lists.len()) == b);
                    }
                    if all.contains_key(id) && home::<K>(id, lists.len()) == b {
                        assert(contents(entries).contains_key(id));
                    }
                }
            }
        }
        proof {
            assert(done =~= all);
        }
        *self = out;
    }
}

} // verus!
