//! Interning of identifiers: one pool index per distinct name.
use std::collections::BTreeMap;
use vstd::prelude::*;
use vstd::string::*;
use vstd::utf8::encode_utf8;

verus! {

/// The position of a name in the identifier pool.
pub type IdentifierIndex = usize;

/// The modulus of the name hash, the prime 2^61 - 1.
pub const HASH_MODULUS: u64 = 2305843009213693951;

/// A polynomial hash of a byte string, base 257, modulo `HASH_MODULUS`.
pub open spec fn bytes_hash(b: Seq<u8>) -> nat
    decreases b.len(),
{
    if b.len() == 0 {
        0
    } else {
        ((bytes_hash(b.drop_last()) * 257 + b.last()) % (HASH_MODULUS as int)) as nat
    }
}

/// The hash of a name: that of its UTF-8 encoding.
pub open spec fn name_hash(s: Seq<char>) -> u64 {
    bytes_hash(encode_utf8(s)) as u64
}

/// Whether no name occurs twice in the pool.
pub open spec fn distinct(pool: Seq<Seq<char>>) -> bool {
    forall|i: int, j: int| 0 <= i < pool.len() && 0 <= j < pool.len() && i != j ==> pool[i] != pool[j]
}

/// The position of `s` in a pool that holds it.
pub open spec fn index_in(pool: Seq<Seq<char>>, s: Seq<char>) -> int {
    choose|i: int| 0 <= i < pool.len() && pool[i] == s
}

/// The pool after interning `s`, and the index that interning returns.
pub open spec fn interned(pool: Seq<Seq<char>>, s: Seq<char>) -> (Seq<Seq<char>>, int) {
    if pool.contains(s) {
        (pool, index_in(pool, s))
    } else {
        (pool.push(s), pool.len() as int)
    }
}

fn hash_name(s: &String) -> (h: u64)
    ensures
        h == name_hash(s@),
        h < HASH_MODULUS,
{
    let bytes = s.as_str().as_bytes_vec();
    let mut h: u64 = 0;
    let mut i: usize = 0;
    while i < bytes.len()
        invariant
            i <= bytes@.len(),
            bytes@ == encode_utf8(s@),
            h as nat == bytes_hash(bytes@.subrange(0, i as int)),
            h < HASH_MODULUS,
        decreases bytes@.len() - i,
    {
        assert(bytes@.subrange(0, i + 1).drop_last() =~= bytes@.subrange(0, i as int));
        h = ((h as u128 * 257 + bytes[i] as u128) % (HASH_MODULUS as u128)) as u64;
        i += 1;
    }
    assert(bytes@.subrange(0, i as int) =~= bytes@);
    h
}

/// The intern table: a pool of distinct names, and buckets of pool indices
/// keyed by name hash for lookup.
#[derive(Debug)]
pub struct IdentifierMap {
    identifiers: Vec<String>,
    buckets: BTreeMap<u64, Vec<usize>>,
}

impl View for IdentifierMap {
    type V = Seq<Seq<char>>;

    closed spec fn view(&self) -> Seq<Seq<char>> {
        self.identifiers@.map_values(|s: String| s@)
    }
}

impl IdentifierMap {
    /// Every name of the pool is listed in the bucket of its hash.
    #[verifier::opaque]
    closed spec fn pool_indexed(&self) -> bool {
        forall|i: int|
            0 <= i < self.identifiers@.len() ==> {
                let h = name_hash(#[trigger] self.identifiers@[i]@);
                self.buckets@.contains_key(h) && self.buckets@[h]@.contains(i as usize)
            }
    }

    /// Every bucket lists only indices of names with its hash.
    #[verifier::opaque]
    closed spec fn buckets_sound(&self) -> bool {
        forall|h: u64, j: int|
            #![trigger self.buckets@[h]@[j]]
            self.buckets@.contains_key(h) && 0 <= j < self.buckets@[h]@.len() ==> {
                let k = self.buckets@[h]@[j] as int;
                0 <= k < self.identifiers@.len() && name_hash(self.identifiers@[k]@) == h
            }
    }

    /// The pool holds distinct names and every bucket lists exactly the
    /// indices of the names with its hash.
    pub closed spec fn wf(&self) -> bool {
        &&& distinct(self@)
        &&& self.pool_indexed()
        &&& self.buckets_sound()
    }

    /// An empty table.
    pub fn new() -> (r: Self)
        ensures
            r.wf(),
            r@ == Seq::<Seq<char>>::empty(),
    {
        let r = IdentifierMap { identifiers: Vec::new(), buckets: BTreeMap::new() };
        assert(r@ =~= Seq::<Seq<char>>::empty());
        proof {
            reveal(IdentifierMap::pool_indexed);
            reveal(IdentifierMap::buckets_sound);
        }
        r
    }

    /// The number of names in the pool.
    pub fn len(&self) -> (r: usize)
        ensures
            r == self@.len(),
    {
        self.identifiers.len()
    }

    proof fn lemma_wf_distinct(&self)
        requires
            self.wf(),
        ensures
            distinct(self@),
            self@.len() == self.identifiers@.len(),
            forall|i: int| 0 <= i < self@.len() ==> #[trigger] self@[i] == self.identifiers@[i]@,
    {
    }

    /// A well-formed table holds distinct names, no more than a `usize` counts.
    pub proof fn lemma_distinct(&self)
        requires
            self.wf(),
        ensures
            distinct(self@),
            self@.len() <= usize::MAX,
    {
        assert(self@.len() == self.identifiers@.len());
        assert(self.identifiers@.len() == self.identifiers.len());
    }

    /// Looks `ident` up without changing the table.
    pub fn lookup(&self, ident: &String) -> (r: Option<IdentifierIndex>)
        requires
            self.wf(),
        ensures
            match r {
                Some(i) => i < self@.len() && self@[i as int] == ident@,
                None => !self@.contains(ident@),
            },
    {
        proof {
            self.lemma_wf_distinct();
        }
        let h = hash_name(ident);
        match self.buckets.get(&h) {
            None => {
                proof {
                    if self@.contains(ident@) {
                        let i = choose|i: int| 0 <= i < self@.len() && self@[i] == ident@;
                        assert(self.identifiers@[i]@ == ident@);
                        reveal(IdentifierMap::pool_indexed);
                    }
                }
                None
            },
            Some(bucket) => {
                let mut k: usize = 0;
                while k < bucket.len()
                    invariant
                        self.wf(),
                        self.buckets@.contains_key(h),
                        *bucket == self.buckets@[h],
                        h == name_hash(ident@),
                        k <= bucket@.len(),
                        forall|j: int|
                            0 <= j < k ==> self.identifiers@[#[trigger] bucket@[j] as int]@
                                != ident@,
                    decreases bucket@.len() - k,
                {
                    let i = bucket[k];
                    proof {
                        reveal(IdentifierMap::buckets_sound);
                        assert(self.buckets@[h]@[k as int] == i);
                    }
                    if self.identifiers[i] == *ident {
                        proof {
                            self.lemma_wf_distinct();
                            assert((i as int) < self.identifiers@.len());
                            assert(self.identifiers@[i as int]@ == ident@);
                            assert(self@[i as int] == ident@);
                        }
                        return Some(i);
                    }
                    k += 1;
                }
                proof {
                    self.lemma_wf_distinct();
                    if self@.contains(ident@) {
                        let i = choose|i: int| 0 <= i < self@.len() && self@[i] == ident@;
                        assert(self.identifiers@[i]@ == ident@);
                        reveal(IdentifierMap::pool_indexed);
                        assert(self.buckets@[h]@.contains(i as usize));
                        assert(bucket@ == self.buckets@[h]@);
                        assert(bucket@.contains(i as usize));
                        let j = choose|j: int| 0 <= j < bucket@.len() && bucket@[j] == i as usize;
                        assert(0 <= i < self.identifiers@.len());
                        assert(self.identifiers@.len() == self.identifiers.len());
                        assert((i as usize) as int == i);
                        assert(bucket@[j] as int == i);
                        assert(self.identifiers@[bucket@[j] as int]@ != ident@);
                    }
                }
                None
            },
        }
    }

    /// Interns `ident`: returns its index if the pool holds it, otherwise
    /// appends it and returns the new index.
    pub fn get_identifier_idx(&mut self, ident: &String) -> (idx: IdentifierIndex)
        requires
            old(self).wf(),
        ensures
            final(self).wf(),
            (final(self)@, idx as int) == interned(old(self)@, ident@),
            final(self)@[idx as int] == ident@,
            old(self)@.len() <= final(self)@.len(),
            forall|i: int| 0 <= i < old(self)@.len() ==> #[trigger] final(self)@[i] == old(self)@[i],
    {
        proof {
            self.lemma_wf_distinct();
        }
        match self.lookup(ident) {
            Some(i) => {
                proof {
                    let j = index_in(self@, ident@);
                    assert(self@.contains(ident@)) by {
                        assert(self@[i as int] == ident@);
                    }
                    assert(self@[j] == ident@);
                }
                i
            },
            None => {
                let h = hash_name(ident);
                let idx = self.identifiers.len();
                let ghost old_ids = self.identifiers@;
                let ghost old_buckets = self.buckets@;
                let mut bucket = match self.buckets.remove(&h) {
                    Some(b) => b,
                    None => Vec::new(),
                };
                assert(old_buckets.contains_key(h) ==> bucket == old_buckets[h]);
                let ghost old_bucket = bucket@;
                bucket.push(idx);
                self.identifiers.push(ident.clone());
                self.buckets.insert(h, bucket);
                proof {
                    reveal(IdentifierMap::pool_indexed);
                    reveal(IdentifierMap::buckets_sound);
                    assert(self.buckets@ == old_buckets.insert(h, bucket));
                    assert(self.identifiers@ == old_ids.push(*ident));
                    assert(self@ =~= old(self)@.push(ident@));
                    assert forall|i: int| 0 <= i < self.identifiers@.len() implies {
                        let hh = name_hash(#[trigger] self.identifiers@[i]@);
                        self.buckets@.contains_key(hh) && self.buckets@[hh]@.contains(i as usize)
                    } by {
                        let hh = name_hash(self.identifiers@[i]@);
                        if i == idx {
                            assert(bucket@[bucket@.len() - 1] == idx);
                        } else {
                            assert(old_ids[i] == self.identifiers@[i]);
                            if hh == h {
                                let j = choose|j: int|
                                    0 <= j < old_bucket.len() && old_bucket[j] == i as usize;
                                assert(bucket@[j] == i as usize);
                            }
                        }
                    }
                    assert forall|hh: u64, j: int|
                        #![trigger self.buckets@[hh]@[j]]
                        self.buckets@.contains_key(hh) && 0 <= j < self.buckets@[hh]@.len() implies {
                        let k = self.buckets@[hh]@[j] as int;
                        0 <= k < self.identifiers@.len() && name_hash(self.identifiers@[k]@) == hh
                    } by {
                        if hh == h {
                            if j < old_bucket.len() {
                                assert(bucket@[j] == old_buckets[h]@[j]);
                            }
                        } else {
                            assert(self.buckets@[hh] == old_buckets[hh]);
                        }
                    }
                }
                idx
            },
        }
    }

    /// The name at `idx`.
    pub fn get_identifier(&self, idx: IdentifierIndex) -> (r: &str)
        requires
            self.wf(),
            idx < self@.len(),
        ensures
            r@ == self@[idx as int],
    {
        self.identifiers[idx].as_str()
    }

    /// The name at `idx`, as an owned string.
    pub fn identifier_string(&self, idx: IdentifierIndex) -> (r: String)
        requires
            self.wf(),
            idx < self@.len(),
        ensures
            r@ == self@[idx as int],
    {
        self.identifiers[idx].clone()
    }
}

} // verus!

verus! {

/// In a pool of distinct names, `index_in` finds the one position of a name.
pub proof fn lemma_index_in_unique(pool: Seq<Seq<char>>, s: Seq<char>, i: int)
    requires
        distinct(pool),
        0 <= i < pool.len(),
        pool[i] == s,
    ensures
        index_in(pool, s) == i,
        pool.contains(s),
{
    assert(pool.contains(s));
    let j = index_in(pool, s);
    assert(pool[j] == s);
}

} // verus!
