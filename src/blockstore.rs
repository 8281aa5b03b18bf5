use vstd::prelude::*;
use core::cmp::Ordering;
use vstd::std_specs::cmp::PartialEqSpec;
use vstd::std_specs::iter::IteratorSpec;

verus! {

/// A key type that a blockfile can be addressed by: comparable for equality
/// (which agrees with equality of views) and ordered.
pub trait BlockfileKeyType: View + Sized {
    /// The order of keys, as a three-way comparison of their views.
    spec fn spec_compare(a: Self::V, b: Self::V) -> Option<Ordering>;

    fn key_eq(&self, other: &Self) -> (r: bool)
        ensures
            r == (self@ == other@),
    ;

    fn key_compare(&self, other: &Self) -> (r: Option<Ordering>)
        ensures
            r == Self::spec_compare(self@, other@),
    ;
}

impl BlockfileKeyType for String {
    open spec fn spec_compare(a: Seq<char>, b: Seq<char>) -> Option<Ordering> {
        Some(compare_chars(a, b))
    }

    fn key_eq(&self, other: &Self) -> (r: bool) {
        <String as PartialEq>::eq(self, other)
    }

    fn key_compare(&self, other: &Self) -> (r: Option<Ordering>) {
        broadcast use vstd::string::axiom_spec_iter, vstd::string::next_postcondition;

        let mut a = self.as_str().chars();
        let mut b = other.as_str().chars();
        loop
            invariant
                compare_chars(a.remaining(), b.remaining()) == compare_chars(self@, other@),
                a.decrease() is Some,
            decreases a.decrease()->0,
        {
            let x = a.next();
            let y = b.next();
            match x {
                None => {
                    return match y {
                        None => Some(Ordering::Equal),
                        Some(_) => Some(Ordering::Less),
                    };
                },
                Some(c) => match y {
                    None => {
                        return Some(Ordering::Greater);
                    },
                    Some(d) => {
                        if c < d {
                            return Some(Ordering::Less);
                        } else if c > d {
                            return Some(Ordering::Greater);
                        }
                    },
                },
            }
        }
    }
}

impl BlockfileKeyType for u32 {
    open spec fn spec_compare(a: u32, b: u32) -> Option<Ordering> {
        Some(compare_ints(a as int, b as int))
    }

    fn key_eq(&self, other: &Self) -> (r: bool) {
        *self == *other
    }

    fn key_compare(&self, other: &Self) -> (r: Option<Ordering>) {
        if *self < *other {
            Some(Ordering::Less)
        } else if *self == *other {
            Some(Ordering::Equal)
        } else {
            Some(Ordering::Greater)
        }
    }
}

impl BlockfileKeyType for u64 {
    open spec fn spec_compare(a: u64, b: u64) -> Option<Ordering> {
        Some(compare_ints(a as int, b as int))
    }

    fn key_eq(&self, other: &Self) -> (r: bool) {
        *self == *other
    }

    fn key_compare(&self, other: &Self) -> (r: Option<Ordering>) {
        if *self < *other {
            Some(Ordering::Less)
        } else if *self == *other {
            Some(Ordering::Equal)
        } else {
            Some(Ordering::Greater)
        }
    }
}

/// The order of integers as a three-way comparison.
pub open spec fn compare_ints(a: int, b: int) -> Ordering {
    if a < b {
        Ordering::Less
    } else if a == b {
        Ordering::Equal
    } else {
        Ordering::Greater
    }
}

/// Lexicographic order of character sequences, by code point.
pub open spec fn compare_chars(a: Seq<char>, b: Seq<char>) -> Ordering
    decreases a.len(),
{
    if a.len() == 0 {
        if b.len() == 0 {
            Ordering::Equal
        } else {
            Ordering::Less
        }
    } else if b.len() == 0 {
        Ordering::Greater
    } else if a[0] != b[0] {
        compare_ints(a[0] as int, b[0] as int)
    } else {
        compare_chars(a.drop_first(), b.drop_first())
    }
}

/// A composite blockfile key: a string prefix that groups related keys, and a
/// key of a comparable type.
#[derive(Clone)]
pub struct BlockfileKey<K: BlockfileKeyType> {
    pub prefix: String,
    pub key: K,
}

impl<K: BlockfileKeyType> View for BlockfileKey<K> {
    type V = (Seq<char>, K::V);

    open spec fn view(&self) -> (Seq<char>, K::V) {
        (self.prefix@, self.key@)
    }
}

impl<K: BlockfileKeyType> BlockfileKey<K> {
    pub fn new(prefix: String, key: K) -> (r: Self)
        ensures
            r.prefix == prefix,
            r.key == key,
    {
        BlockfileKey { prefix, key }
    }
}

/// Two keys are equal exactly when their prefixes are equal and their keys are
/// equal. The prefix is compared first: it plays the part of a hash, and the
/// key disambiguates among the keys that share it.
impl<K: BlockfileKeyType> PartialEq for BlockfileKey<K> {
    fn eq(&self, other: &Self) -> (r: bool) {
        <String as PartialEq>::eq(&self.prefix, &other.prefix) && self.key.key_eq(&other.key)
    }
}

impl<K: BlockfileKeyType> vstd::std_specs::cmp::PartialEqSpecImpl for BlockfileKey<K> {
    open spec fn obeys_eq_spec() -> bool {
        true
    }

    open spec fn eq_spec(&self, other: &Self) -> bool {
        self.prefix@ == other.prefix@ && self.key@ == other.key@
    }
}

impl<K: BlockfileKeyType> Eq for BlockfileKey<K> {}

/// The order of keys: by prefix first, lexicographically, then by the keys'
/// own order.
pub open spec fn compare_keys<K: BlockfileKeyType>(
    a: (Seq<char>, K::V),
    b: (Seq<char>, K::V),
) -> Option<Ordering> {
    match compare_chars(a.0, b.0) {
        Ordering::Equal => K::spec_compare(a.1, b.1),
        o => Some(o),
    }
}

impl<K: BlockfileKeyType> PartialOrd for BlockfileKey<K> {
    fn partial_cmp(&self, other: &Self) -> (r: Option<Ordering>) {
        match self.prefix.key_compare(&other.prefix) {
            Some(Ordering::Equal) => self.key.key_compare(&other.key),
            o => o,
        }
    }
}

impl<K: BlockfileKeyType> vstd::std_specs::cmp::PartialOrdSpecImpl for BlockfileKey<K> {
    open spec fn obeys_partial_cmp_spec() -> bool {
        true
    }

    open spec fn partial_cmp_spec(&self, other: &Self) -> Option<Ordering> {
        compare_keys::<K>(self@, other@)
    }
}

/// Key equality is exact: two keys are equal if and only if both their
/// prefixes and their keys are equal.
pub proof fn lemma_key_equality<K: BlockfileKeyType>(a: BlockfileKey<K>, b: BlockfileKey<K>)
    ensures
        a.eq_spec(&b) <==> (a.prefix@ == b.prefix@ && a.key@ == b.key@),
        a.eq_spec(&b) <==> a@ == b@,
{
}

/// The ways a blockfile operation can fail.
#[derive(Clone, Copy, Debug, PartialEq, Eq, Structural)]
pub enum BlockfileError {
    /// A lookup found no value at the key.
    KeyNotFound,
    /// The backend could not acquire or create its storage.
    OpenFailure,
    /// A write failed for lack of capacity or on I/O.
    CapacityOrIOFailure,
}

/// The capability of being stored as a blockfile value.
pub trait BlockfileValue {}

impl BlockfileValue for String {}

/// The abstract contents of a blockfile: the value stored at each key, keys
/// compared by their views.
pub type BlockfileContents<K, V> = Map<(Seq<char>, <K as View>::V), V>;

/// A key-value store addressed by composite (prefix, key) pairs.
pub trait Blockfile<K: BlockfileKeyType, V: BlockfileValue>: Sized {
    /// The value stored at each key.
    spec fn contents(&self) -> BlockfileContents<K, V>;

    /// The backend's internal consistency.
    spec fn wf(&self) -> bool;

    /// Acquires or creates the store at `path`; what an existing store holds
    /// when opened is up to the backend.
    fn open(path: &str) -> (r: Result<Self, BlockfileError>)
        ensures
            r matches Ok(b) ==> b.wf(),
            r matches Err(e) ==> e == BlockfileError::OpenFailure,
    ;

    /// The value at `key`, or `KeyNotFound` when no value is stored there.
    fn get(&self, key: BlockfileKey<K>) -> (r: Result<&V, BlockfileError>)
        requires
            self.wf(),
        ensures
            self.contents().contains_key(key@) ==> r == Ok::<&V, BlockfileError>(&self.contents()[key@]),
            !self.contents().contains_key(key@) ==> r == Err::<&V, BlockfileError>(BlockfileError::KeyNotFound),
    ;

    /// Stores `value` at `key`, discarding any value stored there before. On
    /// failure the store is left as it was.
    fn set(&mut self, key: BlockfileKey<K>, value: V) -> (r: Result<(), BlockfileError>)
        requires
            old(self).wf(),
        ensures
            final(self).wf(),
            r is Ok ==> final(self).contents() == old(self).contents().insert(key@, value),
            r matches Err(e) ==> e == BlockfileError::CapacityOrIOFailure
                && final(self).contents() == old(self).contents(),
    ;
}

/// Marks a blockfile backend that can be divided into independently
/// addressable sub-ranges, so that generic code can require that capability
/// by a bound.
pub trait SplittableBlockFile<K: BlockfileKeyType, V: BlockfileValue>: Blockfile<K, V> {}

/// The in-memory reference blockfile. Entries are kept with unique keys; a
/// lookup compares the prefix first and the key only among entries whose
/// prefix matches.
pub struct HashMapBlockfile<K: BlockfileKeyType, V> {
    entries: Vec<(BlockfileKey<K>, V)>,
    map: Ghost<BlockfileContents<K, V>>,
}

impl<K: BlockfileKeyType, V> HashMapBlockfile<K, V> {
    pub closed spec fn entries_agree(entries: Seq<(BlockfileKey<K>, V)>, map: BlockfileContents<K, V>) -> bool {
        &&& forall|i: int| 0 <= i < entries.len() ==>
            #[trigger] map.contains_key(entries[i].0@) && map[entries[i].0@] == entries[i].1
        &&& forall|k| #[trigger] map.contains_key(k) ==> exists|i: int| 0 <= i < entries.len() && entries[i].0@ == k
        &&& forall|i: int, j: int| 0 <= i < entries.len() && 0 <= j < entries.len() && i != j
            ==> entries[i].0@ != entries[j].0@
    }

}

impl<K: BlockfileKeyType, V: BlockfileValue> Blockfile<K, V> for HashMapBlockfile<K, V> {
    closed spec fn contents(&self) -> BlockfileContents<K, V> {
        self.map@
    }

    closed spec fn wf(&self) -> bool {
        Self::entries_agree(self.entries@, self.map@)
    }

    /// Always opens a fresh, empty in-memory store: the path names no storage
    /// and is not read.
    fn open(path: &str) -> (r: Result<Self, BlockfileError>)
        ensures
            r matches Ok(b) && b.contents() == Map::<(Seq<char>, K::V), V>::empty(),
    {
        Ok(HashMapBlockfile { entries: Vec::new(), map: Ghost(Map::empty()) })
    }

    fn get(&self, key: BlockfileKey<K>) -> (r: Result<&V, BlockfileError>) {
        match self.position(&key) {
            Some(i) => Ok(&self.entries[i].1),
            None => Err(BlockfileError::KeyNotFound),
        }
    }

    fn set(&mut self, key: BlockfileKey<K>, value: V) -> (r: Result<(), BlockfileError>)
        ensures
            r is Ok,
    {
        let ghost k = key@;
        let ghost v = value;
        let ghost old_entries = self.entries@;
        match self.position(&key) {
            Some(i) => {
                self.entries[i] = (key, value);
                proof {
                    let m = self.map@.insert(k, v);
                    assert forall|j: int| 0 <= j < self.entries@.len() implies
                        #[trigger] self.entries@[j].0@ == old_entries[j].0@ by {}
                    assert forall|j: int| 0 <= j < self.entries@.len() implies
                        m.contains_key(#[trigger] self.entries@[j].0@) && m[self.entries@[j].0@] == self.entries@[j].1 by {
                        if j != i {
                            assert(old_entries[j].0@ != old_entries[i as int].0@);
                        }
                    }
                    assert forall|kk| #[trigger] m.contains_key(kk) implies
                        exists|j: int| 0 <= j < self.entries@.len() && self.entries@[j].0@ == kk by {
                        if kk == k {
                            assert(self.entries@[i as int].0@ == kk);
                        } else {
                            let j = choose|j: int| 0 <= j < old_entries.len() && old_entries[j].0@ == kk;
                            assert(self.entries@[j].0@ == kk);
                        }
                    }
                }
            },
            None => {
                self.entries.push((key, value));
                proof {
                    let m = self.map@.insert(k, v);
                    let n = old_entries.len() as int;
                    assert(self.entries@[n].0@ == k);
                    assert forall|j: int| 0 <= j < n implies #[trigger] self.entries@[j] == old_entries[j] by {}
                    assert forall|j: int| 0 <= j < self.entries@.len() implies
                        m.contains_key(#[trigger] self.entries@[j].0@) && m[self.entries@[j].0@] == self.entries@[j].1 by {
                        if j < n {
                            assert(self.entries@[j] == old_entries[j]);
                        }
                    }
                    assert forall|kk| #[trigger] m.contains_key(kk) implies
                        exists|j: int| 0 <= j < self.entries@.len() && self.entries@[j].0@ == kk by {
                        if kk == k {
                            assert(self.entries@[n].0@ == kk);
                        } else {
                            let j = choose|j: int| 0 <= j < old_entries.len() && old_entries[j].0@ == kk;
                            assert(self.entries@[j] == old_entries[j]);
                        }
                    }
                    assert forall|a: int, b: int| 0 <= a < self.entries@.len() && 0 <= b < self.entries@.len() && a != b
                        implies self.entries@[a].0@ != self.entries@[b].0@ by {
                        if a < n && b < n {
                            assert(self.entries@[a] == old_entries[a]);
                            assert(self.entries@[b] == old_entries[b]);
                        } else if a < n {
                            assert(self.entries@[a] == old_entries[a]);
                        } else if b < n {
                            assert(self.entries@[b] == old_entries[b]);
                        }
                    }
                }
            },
        }
        self.map = Ghost(self.map@.insert(k, v));
        Ok(())
    }
}

impl<K: BlockfileKeyType, V> HashMapBlockfile<K, V> {
    /// The index of the entry stored at `key`, if there is one.
    fn position(&self, key: &BlockfileKey<K>) -> (r: Option<usize>)
        ensures
            r matches Some(i) ==> i < self.entries@.len() && self.entries@[i as int].0@ == key@,
            r is None ==> forall|j: int| 0 <= j < self.entries@.len() ==> self.entries@[j].0@ != key@,
    {
        let mut i: usize = 0;
        while i < self.entries.len()
            invariant
                i <= self.entries@.len(),
                forall|j: int| 0 <= j < i ==> self.entries@[j].0@ != key@,
            decreases self.entries@.len() - i,
        {
            if self.entries[i].0.eq(key) {
                return Some(i);
            }
            i += 1;
        }
        None
    }
}

/// What a run of successful `set` calls leaves of `contents`: the value at
/// `keys[i]` set to `values[i]`, in order.
pub open spec fn apply_sets<KV, V>(contents: Map<KV, V>, keys: Seq<KV>, values: Seq<V>) -> Map<KV, V>
    decreases keys.len(),
{
    if keys.len() == 0 || values.len() == 0 {
        contents
    } else {
        apply_sets(contents.insert(keys[0], values[0]), keys.drop_first(), values.drop_first())
    }
}

/// A `get` after a successful `set` of the same key finds the value set.
pub proof fn lemma_set_then_get<K: BlockfileKeyType, V: BlockfileValue, B: Blockfile<K, V>>(
    before: B,
    after: B,
    key: BlockfileKey<K>,
    value: V,
)
    requires
        after.contents() == before.contents().insert(key@, value),
    ensures
        after.contents().contains_key(key@),
        after.contents()[key@] == value,
{
}

/// Setting a key twice leaves the second value there: a `get` finds it, and
/// never the first one when the two differ.
pub proof fn lemma_overwrite<K: BlockfileKeyType, V: BlockfileValue, B: Blockfile<K, V>>(
    before: B,
    middle: B,
    after: B,
    key: BlockfileKey<K>,
    first: V,
    second: V,
)
    requires
        middle.contents() == before.contents().insert(key@, first),
        after.contents() == middle.contents().insert(key@, second),
    ensures
        after.contents().contains_key(key@),
        after.contents()[key@] == second,
        first != second ==> after.contents()[key@] != first,
        after.contents() == before.contents().insert(key@, second),
{
    assert(after.contents() =~= before.contents().insert(key@, second));
}

/// A key that no `set` named holds no value: on a store opened empty, after
/// any run of successful `set` calls of other keys, a `get` of it fails with
/// `KeyNotFound`.
pub proof fn lemma_missing_key<K: BlockfileKeyType, V: BlockfileValue, B: Blockfile<K, V>>(
    fresh: B,
    after: B,
    keys: Seq<(Seq<char>, K::V)>,
    values: Seq<V>,
    key: BlockfileKey<K>,
)
    requires
        fresh.contents() == Map::<(Seq<char>, K::V), V>::empty(),
        after.contents() == apply_sets(fresh.contents(), keys, values),
        !keys.contains(key@),
    ensures
        !after.contents().contains_key(key@),
{
    lemma_sets_keep_other_keys(fresh.contents(), keys, values, key@);
}

/// Sets of other keys leave a key as it was.
pub proof fn lemma_sets_keep_other_keys<KV, V>(contents: Map<KV, V>, keys: Seq<KV>, values: Seq<V>, key: KV)
    requires
        !keys.contains(key),
    ensures
        apply_sets(contents, keys, values).contains_key(key) == contents.contains_key(key),
        contents.contains_key(key) ==> apply_sets(contents, keys, values)[key] == contents[key],
    decreases keys.len(),
{
    if keys.len() > 0 && values.len() > 0 {
        assert(keys[0] != key);
        assert(!keys.drop_first().contains(key)) by {
            if keys.drop_first().contains(key) {
                let i = choose|i: int| 0 <= i < keys.drop_first().len() && keys.drop_first()[i] == key;
                assert(keys[i + 1] == key);
            }
        }
        lemma_sets_keep_other_keys(contents.insert(keys[0], values[0]), keys.drop_first(), values.drop_first(), key);
    }
}

} // verus!
