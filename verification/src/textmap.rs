//! A small map from texts to values that keeps the order in which keys came in.
use crate::text::{same_text, strings};
use vstd::prelude::*;

verus! {

/// The map that the first `n` pairs of keys and values stand for.
spec fn pairs_map<V>(keys: Seq<String>, values: Seq<V>, n: int) -> Map<Seq<char>, V>
    decreases n,
{
    if n <= 0 {
        Map::empty()
    } else {
        pairs_map(keys, values, n - 1).insert(keys[n - 1]@, values[n - 1])
    }
}

/// Whether no two of the keys hold the same text.
spec fn distinct_keys(keys: Seq<String>) -> bool {
    forall|i: int, j: int| 0 <= i < j < keys.len() ==> keys[i]@ != keys[j]@
}

/// Among distinct keys, `pairs_map` maps each of the first `n` keys to its value.
proof fn lemma_pairs_map<V>(keys: Seq<String>, values: Seq<V>, n: int)
    requires
        0 <= n <= keys.len(),
        keys.len() == values.len(),
        distinct_keys(keys),
    ensures
        forall|k: Seq<char>|
            pairs_map(keys, values, n).contains_key(k) <==> exists|i: int|
                0 <= i < n && #[trigger] keys[i]@ == k,
        forall|i: int|
            0 <= i < n ==> pairs_map(keys, values, n)[#[trigger] keys[i]@] == values[i],
    decreases n,
{
    lemma_pairs_domain(keys, values, n);
    if n > 0 {
        lemma_pairs_map(keys, values, n - 1);
        let m = pairs_map(keys, values, n);
        assert forall|i: int| 0 <= i < n implies m[#[trigger] keys[i]@] == values[i] by {
            if i < n - 1 {
                assert(keys[i]@ != keys[n - 1]@);
            }
        }
    }
}

/// The domain of `pairs_map` is the set of the first `n` keys.
proof fn lemma_pairs_domain<V>(keys: Seq<String>, values: Seq<V>, n: int)
    requires
        0 <= n <= keys.len(),
    ensures
        forall|k: Seq<char>|
            pairs_map(keys, values, n).contains_key(k) <==> exists|i: int|
                0 <= i < n && #[trigger] keys[i]@ == k,
    decreases n,
{
    if n > 0 {
        lemma_pairs_domain(keys, values, n - 1);
        let m = pairs_map(keys, values, n);
        let m0 = pairs_map(keys, values, n - 1);
        assert forall|k: Seq<char>| m.contains_key(k) <==> exists|i: int|
            0 <= i < n && #[trigger] keys[i]@ == k by {
            if m.contains_key(k) {
                if k == keys[n - 1]@ {
                    assert(keys[n - 1]@ == k);
                } else {
                    assert(m0.contains_key(k));
                    let i = choose|i: int| 0 <= i < n - 1 && #[trigger] keys[i]@ == k;
                    assert(0 <= i < n && keys[i]@ == k);
                }
            }
            if exists|i: int| 0 <= i < n && #[trigger] keys[i]@ == k {
                let i = choose|i: int| 0 <= i < n && #[trigger] keys[i]@ == k;
                if i < n - 1 {
                    assert(m0.contains_key(k));
                }
            }
        }
    }
}

/// The keys with `key` added at the end, unless it is among them already.
pub open spec fn push_new(keys: Seq<Seq<char>>, key: Seq<char>) -> Seq<Seq<char>> {
    if keys.contains(key) {
        keys
    } else {
        keys.push(key)
    }
}

/// A map from texts to values, held as a list of pairs with no key twice.
pub struct TextMap<V> {
    keys: Vec<String>,
    values: Vec<V>,
}

impl<V> View for TextMap<V> {
    type V = Map<Seq<char>, V>;

    closed spec fn view(&self) -> Map<Seq<char>, V> {
        pairs_map(self.keys@, self.values@, self.keys.len() as int)
    }
}

impl<V> TextMap<V> {
    #[verifier::type_invariant]
    spec fn well_formed(self) -> bool {
        &&& self.keys.len() == self.values.len()
        &&& distinct_keys(self.keys@)
    }

    /// The keys, in the order in which they came in.
    pub closed spec fn keys(&self) -> Seq<Seq<char>> {
        strings(self.keys@)
    }

    /// The number of keys.
    pub open spec fn size(&self) -> nat {
        self.keys().len()
    }

    /// The key in place `i`.
    pub open spec fn key(&self, i: int) -> Seq<char> {
        self.keys()[i]
    }

    /// The keys of the map are the keys in the list.
    pub proof fn lemma_keys(&self)
        ensures
            forall|k: Seq<char>| self@.contains_key(k) <==> self.keys().contains(k),
    {
        lemma_pairs_domain(self.keys@, self.values@, self.keys.len() as int);
        assert forall|k: Seq<char>| self@.contains_key(k) <==> self.keys().contains(k) by {
            if self@.contains_key(k) {
                let i = choose|i: int| 0 <= i < self.keys.len() && #[trigger] self.keys@[i]@ == k;
                assert(self.keys()[i] == k);
            }
            if self.keys().contains(k) {
                let i = choose|i: int| 0 <= i < self.keys().len() && self.keys()[i] == k;
                assert(self.keys@[i]@ == k);
            }
        }
    }

    /// The map without any key.
    pub fn new() -> (m: Self)
        ensures
            m@ == Map::<Seq<char>, V>::empty(),
            m.keys() == Seq::<Seq<char>>::empty(),
    {
        TextMap { keys: Vec::new(), values: Vec::new() }
    }

    fn position(&self, key: &str) -> (r: Option<usize>)
        ensures
            match r {
                Some(i) => i < self.keys.len() && self.keys[i as int]@ == key@,
                None => forall|j: int| 0 <= j < self.keys.len() ==> self.keys[j]@ != key@,
            },
    {
        let mut i: usize = 0;
        while i < self.keys.len()
            invariant
                i <= self.keys.len(),
                forall|j: int| 0 <= j < i ==> self.keys[j]@ != key@,
            decreases self.keys.len() - i,
        {
            if same_text(self.keys[i].as_str(), key) {
                return Some(i);
            }
            i += 1;
        }
        None
    }

    /// Whether `key` is in the map.
    pub fn contains_key(&self, key: &str) -> (b: bool)
        ensures
            b == self@.contains_key(key@),
    {
        proof {
            use_type_invariant(self);
            lemma_pairs_map(self.keys@, self.values@, self.keys.len() as int);
        }
        self.position(key).is_some()
    }

    /// The value of `key`, where the map holds one.
    pub fn get(&self, key: &str) -> (r: Option<&V>)
        ensures
            match r {
                Some(v) => self@.contains_key(key@) && *v == self@[key@],
                None => !self@.contains_key(key@),
            },
    {
        proof {
            use_type_invariant(self);
            lemma_pairs_map(self.keys@, self.values@, self.keys.len() as int);
        }
        match self.position(key) {
            Some(i) => Some(&self.values[i]),
            None => None,
        }
    }

    /// Maps `key` to `value`. A value that the key had before is replaced, and the
    /// key keeps its place; a new key comes last.
    pub fn insert(&mut self, key: String, value: V)
        ensures
            final(self)@ == old(self)@.insert(key@, value),
            final(self).keys() == push_new(old(self).keys(), key@),
    {
        proof {
            use_type_invariant(&*self);
            lemma_pairs_map(self.keys@, self.values@, self.keys.len() as int);
        }
        let ghost before = self@;
        let ghost keys_before = self.keys();
        let found = self.position(key.as_str());
        let mut taken = TextMap { keys: Vec::new(), values: Vec::new() };
        core::mem::swap(self, &mut taken);
        let TextMap { keys: mut keys, values: mut values } = taken;
        match found {
            Some(i) => {
                values.set(i, value);
                proof {
                    lemma_pairs_map(keys@, values@, keys.len() as int);
                    let after = pairs_map(keys@, values@, keys.len() as int);
                    let want = before.insert(key@, value);
                    assert forall|k: Seq<char>| after.contains_key(k) <==> want.contains_key(
                        k,
                    ) by {
                        if k == key@ {
                            assert(keys@[i as int]@ == k);
                        }
                    }
                    assert forall|k: Seq<char>| after.contains_key(k) implies after[k] == want[k] by {
                        let j = choose|j: int| 0 <= j < keys.len() && #[trigger] keys@[j]@ == k;
                        assert(after[keys@[j]@] == values@[j]);
                        if j != i as int {
                            assert(before[keys@[j]@] == old(self).values@[j]);
                            if j < i {
                                assert(keys@[j]@ != keys@[i as int]@);
                            } else {
                                assert(keys@[i as int]@ != keys@[j]@);
                            }
                        }
                    }
                    assert(after =~= want);
                    assert(keys_before[i as int] == key@);
                }
            },
            None => {
                let ghost n = keys.len() as int;
                keys.push(key);
                values.push(value);
                proof {
                    lemma_pairs_map_prefix(old(self).keys@, old(self).values@, keys@, values@, n);
                    assert(!keys_before.contains(key@)) by {
                        if keys_before.contains(key@) {
                            let j = choose|j: int|
                                0 <= j < keys_before.len() && keys_before[j] == key@;
                            assert(old(self).keys@[j]@ == key@);
                        }
                    }
                    assert(strings(keys@) == keys_before.push(key@));
                }
            },
        }
        *self = TextMap { keys, values };
    }

    /// The number of keys.
    pub fn len(&self) -> (n: usize)
        ensures
            n == self.size(),
    {
        self.keys.len()
    }

    /// The key and the value in place `i`.
    pub fn entry(&self, i: usize) -> (r: (&String, &V))
        requires
            i < self.size(),
        ensures
            r.0@ == self.keys()[i as int],
            self@.contains_key(r.0@),
            *r.1 == self@[r.0@],
    {
        proof {
            use_type_invariant(self);
            lemma_pairs_map(self.keys@, self.values@, self.keys.len() as int);
        }
        (&self.keys[i], &self.values[i])
    }
}

/// `pairs_map` reads no more than the first `n` pairs.
proof fn lemma_pairs_map_prefix<V>(
    keys: Seq<String>,
    values: Seq<V>,
    keys2: Seq<String>,
    values2: Seq<V>,
    n: int,
)
    requires
        0 <= n <= keys.len(),
        n <= keys2.len(),
        n <= values.len(),
        n <= values2.len(),
        forall|i: int| 0 <= i < n ==> keys[i] == keys2[i] && values[i] == values2[i],
    ensures
        pairs_map(keys, values, n) == pairs_map(keys2, values2, n),
    decreases n,
{
    if n > 0 {
        lemma_pairs_map_prefix(keys, values, keys2, values2, n - 1);
    }
}

} // verus!
