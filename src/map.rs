//! A map whose keys carry their own hash: lookups and insertions are routed
//! by that stored hash, and the map never hashes a key itself.
use crate::PreHash;
use hashbrown::hash_map::RawEntryMut;
use vstd::laws_eq::obeys_concrete_eq;
use vstd::prelude::*;
use vstd::std_specs::cmp::PartialEqSpec;

verus! {

/// Stands where the table would keep its hasher. It implements no hashing
/// trait, so the table can only be reached through hashes given to it.
pub struct NotAHasher;

/// Lists of entry positions, filed under the hash of the entries' keys.
///
/// Each list is stored in the table under its own hash as key, so looking
/// one up by hash finds exactly that list. The table is private to this
/// struct, and only the three functions below reach it.
#[verifier::external_body]
pub struct HashIndex {
    table: hashbrown::HashMap<u64, Vec<usize>, NotAHasher>,
}

/// The lists that a `HashIndex` holds, by hash.
pub uninterp spec fn index_contents(t: HashIndex) -> Map<u64, Seq<usize>>;

/// Whether a stored table key is the hash `h`.
fn is_key(k: &u64, h: u64) -> (r: bool)
    ensures
        r == (*k == h),
{
    *k == h
}

/// The hash under which a table key is stored: the key itself.
fn key_hash(k: &u64) -> (r: u64)
    ensures
        r == *k,
{
    *k
}

/// Relies on hashbrown's `HashMap::with_hasher`: the new table is empty.
#[verifier::external_body]
fn new_index() -> (r: HashIndex)
    ensures
        forall|h: u64| !#[trigger] index_contents(r).contains_key(h),
{
    HashIndex { table: hashbrown::HashMap::with_hasher(NotAHasher) }
}

/// Relies on hashbrown's `RawEntryBuilder::from_hash`: among the entries
/// stored under hash `h`, it returns the one whose key the predicate accepts.
#[verifier::external_body]
fn index_bucket(t: &HashIndex, h: u64) -> (r: Option<&Vec<usize>>)
    ensures
        r is Some <==> index_contents(*t).contains_key(h),
        r matches Some(b) ==> b@ == index_contents(*t)[h],
{
    t.table.raw_entry().from_hash(h, |k| is_key(k, h)).map(|(_k, b)| b)
}

/// Relies on hashbrown's `RawEntryBuilderMut::from_hash` to find the entry
/// stored under hash `h` whose key the predicate accepts; on
/// `RawOccupiedEntryMut::insert`, which replaces that entry's list and keeps
/// its key; and on `RawVacantEntryMut::insert_with_hasher`, which files a new
/// entry under hash `h` with `h` as its key (the table rehashes its entries
/// with `key_hash` when it grows, so every entry stays under its own key).
#[verifier::external_body]
fn index_set(t: &mut HashIndex, h: u64, bucket: Vec<usize>)
    ensures
        index_contents(*final(t)) == index_contents(*old(t)).insert(h, bucket@),
{
    match t.table.raw_entry_mut().from_hash(h, |k| is_key(k, h)) {
        RawEntryMut::Occupied(mut e) => {
            e.insert(bucket);
        },
        RawEntryMut::Vacant(e) => {
            e.insert_with_hasher(h, h, bucket, key_hash);
        },
    }
}

/// What identifies a key in the map: its stored hash and the value that the
/// hash was computed over.
pub open spec fn key_of<Q: PreHash>(q: &Q) -> (u64, Q::Hashed) {
    (Q::stored_hash(q), Q::hashed_view(q))
}

/// A map from keys that carry a precomputed hash to values.
///
/// Two keys are the same key when they hold the same hash and equal hashed
/// values; the table is driven by the stored hashes alone.
pub struct PreHashMap<K: PreHash, V> {
    keys: Vec<K>,
    values: Vec<V>,
    index: HashIndex,
    model: Ghost<Map<(u64, K::Hashed), V>>,
}

impl<K: PreHash, V> View for PreHashMap<K, V> {
    type V = Map<(u64, K::Hashed), V>;

    closed spec fn view(&self) -> Map<(u64, K::Hashed), V> {
        self.model@
    }
}

impl<K: PreHash, V> PreHashMap<K, V> where K::Hashed: Eq {
    /// The entries line up with the model, no key is stored twice, and the
    /// index files each entry's position under its key's hash, and nothing
    /// else.
    pub closed spec fn wf(&self) -> bool {
        let n = self.keys@.len();
        let idx = index_contents(self.index);
        &&& self.values@.len() == n
        &&& n <= usize::MAX + 1
        &&& forall|i: int| 0 <= i < n ==> #[trigger] self.model@.contains_key(key_of(&self.keys@[i]))
        &&& forall|i: int| 0 <= i < n ==> self.model@[key_of(&self.keys@[i])] == #[trigger] self.values@[i]
        &&& forall|kk: (u64, K::Hashed)| #[trigger]
            self.model@.contains_key(kk) ==> exists|i: int| 0 <= i < n && key_of(&self.keys@[i]) == kk
        &&& forall|i: int, j: int|
            0 <= i < n && 0 <= j < n && key_of(&self.keys@[i]) == key_of(&self.keys@[j]) ==> i == j
        &&& forall|i: int|
            0 <= i < n ==> idx.contains_key(K::stored_hash(&#[trigger] self.keys@[i])) && idx[K::stored_hash(
                &self.keys@[i],
            )].contains(i as usize)
        &&& forall|h: u64, j: int|
            idx.contains_key(h) && 0 <= j < idx[h].len() ==> #[trigger] idx[h][j] < n
                && K::stored_hash(&self.keys@[idx[h][j] as int]) == h
    }

    /// An empty map.
    pub fn new() -> (r: PreHashMap<K, V>)
        ensures
            r.wf(),
            r@ == Map::<(u64, K::Hashed), V>::empty(),
    {
        PreHashMap {
            keys: Vec::new(),
            values: Vec::new(),
            index: new_index(),
            model: Ghost(Map::empty()),
        }
    }

    /// The position of the entry whose key is the same as `key`, if any.
    fn find<Q: PreHash<Hashed = K::Hashed>>(&self, key: &Q) -> (r: Option<usize>)
        requires
            self.wf(),
            obeys_concrete_eq::<K::Hashed>(),
        ensures
            r matches Some(i) ==> i < self.keys@.len() && key_of(&self.keys@[i as int]) == key_of(key),
            r is None ==> !self@.contains_key(key_of(key)),
    {
        proof {
            reveal(obeys_concrete_eq);
        }
        let h = Q::precomputed_hash(key);
        let bucket = match index_bucket(&self.index, h) {
            Some(b) => b,
            None => {
                proof {
                    if self@.contains_key(key_of(key)) {
                        let i = choose|i: int|
                            0 <= i < self.keys@.len() && key_of(&self.keys@[i]) == key_of(key);
                        assert(index_contents(self.index).contains_key(K::stored_hash(&self.keys@[i])));
                    }
                }
                return None;
            },
        };
        let mut j: usize = 0;
        while j < bucket.len()
            invariant
                self.wf(),
                <K::Hashed as PartialEqSpec>::obeys_eq_spec(),
                forall|x: K::Hashed, y: K::Hashed| x.eq_spec(&y) <==> x == y,
                h == Q::stored_hash(key),
                index_contents(self.index).contains_key(h),
                bucket@ == index_contents(self.index)[h],
                j <= bucket@.len(),
                forall|jj: int|
                    0 <= jj < j ==> key_of(&self.keys@[#[trigger] bucket@[jj] as int]) != key_of(key),
            decreases bucket@.len() - j,
        {
            let i = bucket[j];
            assert(i < self.keys@.len() && K::stored_hash(&self.keys@[i as int]) == h);
            let same = Q::hashed_value(key).eq(K::hashed_value(&self.keys[i]));
            if same {
                return Some(i);
            }
            j = j + 1;
        }
        proof {
            if self@.contains_key(key_of(key)) {
                let i = choose|i: int|
                    0 <= i < self.keys@.len() && key_of(&self.keys@[i]) == key_of(key);
                assert(K::stored_hash(&self.keys@[i]) == h);
                assert(bucket@.contains(i as usize));
                let jj = choose|jj: int| 0 <= jj < bucket@.len() && bucket@[jj] == i as usize;
                assert(bucket@[jj] as int == i);
                assert(key_of(&self.keys@[bucket@[jj] as int]) != key_of(key));
            }
        }
        None
    }

    /// The value stored for the key that is the same as `key`, if any.
    pub fn get<Q: PreHash<Hashed = K::Hashed>>(&self, key: &Q) -> (r: Option<&V>)
        requires
            self.wf(),
            obeys_concrete_eq::<K::Hashed>(),
        ensures
            r is Some <==> self@.contains_key(key_of(key)),
            r matches Some(v) ==> *v == self@[key_of(key)],
    {
        match self.find(key) {
            Some(i) => Some(&self.values[i]),
            None => None,
        }
    }

    /// Stores `value` under `key`. Where the same key is already stored, its
    /// value is replaced and the old value returned; otherwise a new entry is
    /// added and `None` returned.
    pub fn insert(&mut self, key: K, value: V) -> (r: Option<V>)
        requires
            old(self).wf(),
            obeys_concrete_eq::<K::Hashed>(),
        ensures
            final(self).wf(),
            final(self)@ == old(self)@.insert(key_of(&key), value),
            r == (if old(self)@.contains_key(key_of(&key)) {
                Some(old(self)@[key_of(&key)])
            } else {
                None
            }),
    {
        let ghost kk = key_of(&key);
        let ghost gv = value;
        match self.find(&key) {
            Some(i) => {
                self.values.push(value);
                let old_value = self.values.swap_remove(i);
                self.model = Ghost(self.model@.insert(kk, gv));
                proof {
                    let n = self.keys@.len();
                    assert(self.values@ == old(self).values@.update(i as int, gv));
                    assert forall|kx: (u64, K::Hashed)| #[trigger]
                        self.model@.contains_key(kx) implies exists|j: int|
                        0 <= j < n && key_of(&self.keys@[j]) == kx by {
                        if kx != kk {
                            assert(old(self).model@.contains_key(kx));
                        }
                    }
                }
                Some(old_value)
            },
            None => {
                let h = K::precomputed_hash(&key);
                let n = self.keys.len();
                let mut bucket: Vec<usize> = Vec::new();
                match index_bucket(&self.index, h) {
                    Some(b) => {
                        let mut j: usize = 0;
                        while j < b.len()
                            invariant
                                j <= b@.len(),
                                bucket@ == b@.subrange(0, j as int),
                            decreases b@.len() - j,
                        {
                            bucket.push(b[j]);
                            j = j + 1;
                            assert(bucket@ =~= b@.subrange(0, j as int));
                        }
                        assert(bucket@ =~= b@);
                    },
                    None => {},
                }
                let ghost old_bucket = bucket@;
                bucket.push(n);
                index_set(&mut self.index, h, bucket);
                self.keys.push(key);
                self.values.push(value);
                self.model = Ghost(self.model@.insert(kk, gv));
                proof {
                    let idx = index_contents(self.index);
                    let oidx = index_contents(old(self).index);
                    assert(self.keys@ == old(self).keys@.push(self.keys@[n as int]));
                    assert(key_of(&self.keys@[n as int]) == kk);
                    assert forall|kx: (u64, K::Hashed)| #[trigger]
                        self.model@.contains_key(kx) implies exists|j: int|
                        0 <= j < n + 1 && key_of(&self.keys@[j]) == kx by {
                        if kx != kk {
                            assert(old(self).model@.contains_key(kx));
                            let j = choose|j: int| 0 <= j < n && key_of(&old(self).keys@[j]) == kx;
                            assert(key_of(&self.keys@[j]) == kx);
                        }
                    }
                    assert forall|a: int, b: int|
                        0 <= a < n + 1 && 0 <= b < n + 1 && key_of(&self.keys@[a]) == key_of(
                            &self.keys@[b],
                        ) implies a == b by {
                        if a < n && b == n {
                            assert(old(self).model@.contains_key(key_of(&old(self).keys@[a])));
                        }
                        if b < n && a == n {
                            assert(old(self).model@.contains_key(key_of(&old(self).keys@[b])));
                        }
                    }
                    assert forall|a: int| 0 <= a < n + 1 implies idx.contains_key(
                        K::stored_hash(&#[trigger] self.keys@[a]),
                    ) && idx[K::stored_hash(&self.keys@[a])].contains(a as usize) by {
                        if a < n {
                            let ha = K::stored_hash(&self.keys@[a]);
                            assert(oidx[ha].contains(a as usize));
                            if ha == h {
                                let w = choose|w: int| 0 <= w < oidx[ha].len() && oidx[ha][w] == a as usize;
                                assert(idx[ha][w] == a as usize);
                            }
                        } else {
                            assert(idx[h][old_bucket.len() as int] == n);
                        }
                    }
                    assert forall|hx: u64, w: int|
                        idx.contains_key(hx) && 0 <= w < idx[hx].len() implies #[trigger] idx[hx][w] < n
                        + 1 && K::stored_hash(&self.keys@[idx[hx][w] as int]) == hx by {
                        if hx == h && w < old_bucket.len() {
                            assert(oidx[hx][w] == idx[hx][w]);
                        }
                        if hx != h {
                            assert(oidx[hx][w] == idx[hx][w]);
                        }
                    }
                }
                None
            },
        }
    }
}

/// The model that inserting `keys[i]` with `values[i]`, one after another from
/// the first, makes out of `m`.
pub open spec fn insert_all<K: PreHash, V>(
    m: Map<(u64, K::Hashed), V>,
    keys: Seq<K>,
    values: Seq<V>,
) -> Map<(u64, K::Hashed), V>
    decreases keys.len(),
{
    if keys.len() == 0 || values.len() == 0 {
        m
    } else {
        insert_all(m, keys.drop_last(), values.drop_last()).insert(
            key_of(&keys.last()),
            values.last(),
        )
    }
}

/// After distinct keys are inserted one after another into an empty map,
/// looking up any key that is the same as one of them gives the value
/// inserted with it, and looking up a key that was never inserted gives
/// nothing.
pub proof fn lemma_distinct_inserts_are_found<K: PreHash, V>(keys: Seq<K>, values: Seq<V>)
    requires
        keys.len() == values.len(),
        forall|i: int, j: int|
            0 <= i < keys.len() && 0 <= j < keys.len() && key_of(&keys[i]) == key_of(&keys[j])
                ==> i == j,
    ensures
        forall|i: int|
            0 <= i < keys.len() ==> #[trigger] insert_all(Map::empty(), keys, values).contains_key(
                key_of(&keys[i]),
            ) && insert_all(Map::empty(), keys, values)[key_of(&keys[i])] == values[i],
        forall|kk: (u64, K::Hashed)|
            (forall|i: int| 0 <= i < keys.len() ==> key_of(&keys[i]) != kk) ==> !(#[trigger] insert_all(
                Map::empty(),
                keys,
                values,
            ).contains_key(kk)),
    decreases keys.len(),
{
    if keys.len() > 0 {
        let ks = keys.drop_last();
        let vs = values.drop_last();
        lemma_distinct_inserts_are_found(ks, vs);
        assert forall|i: int| 0 <= i < keys.len() implies #[trigger] insert_all(
            Map::empty(),
            keys,
            values,
        ).contains_key(key_of(&keys[i])) && insert_all(Map::empty(), keys, values)[key_of(&keys[i])]
            == values[i] by {
            if i < keys.len() - 1 {
                assert(ks[i] == keys[i]);
                assert(insert_all(Map::<(u64, K::Hashed), V>::empty(), ks, vs).contains_key(
                    key_of(&ks[i]),
                ));
            }
        }
        assert forall|kk: (u64, K::Hashed)|
            (forall|i: int| 0 <= i < keys.len() ==> key_of(&keys[i]) != kk) implies !(#[trigger] insert_all(
            Map::empty(),
            keys,
            values,
        ).contains_key(kk)) by {
            if forall|i: int| 0 <= i < keys.len() ==> key_of(&keys[i]) != kk {
                assert forall|i: int| 0 <= i < ks.len() implies key_of(&ks[i]) != kk by {
                    assert(ks[i] == keys[i]);
                }
                assert(key_of(&keys[keys.len() - 1]) != kk);
                assert(!insert_all(Map::<(u64, K::Hashed), V>::empty(), ks, vs).contains_key(kk));
                assert(insert_all(Map::<(u64, K::Hashed), V>::empty(), keys, values) == insert_all(
                    Map::<(u64, K::Hashed), V>::empty(),
                    ks,
                    vs,
                ).insert(key_of(&keys.last()), values.last()));
            }
        }
    }
}

/// Inserting under a key that the map already holds keeps the same keys,
/// and that key then maps to the new value.
pub proof fn lemma_insert_existing_replaces<Kk, V>(m: Map<Kk, V>, k: Kk, v: V)
    requires
        m.contains_key(k),
    ensures
        m.insert(k, v).dom() == m.dom(),
        m.insert(k, v)[k] == v,
{
    assert(m.insert(k, v).dom() =~= m.dom());
}

} // verus!
