use crate::settings::Settings;
use crate::spanned::Spanned;
use vstd::prelude::*;
use vstd::string::StringSliceAdditionalSpecFns;
use vstd::utf8::encode_utf8;

verus! {

/// A key of a [`ObjectMap`]: a string, compared by its UTF-8 bytes.
pub trait MapKey {
    /// The key's UTF-8 bytes.
    spec fn key(&self) -> Seq<u8>;

    /// The key's UTF-8 bytes.
    fn key_bytes(&self) -> (r: &[u8])
        ensures
            r@ == self.key(),
    ;
}

impl MapKey for String {
    open spec fn key(&self) -> Seq<u8> {
        encode_utf8(self@)
    }

    fn key_bytes(&self) -> (r: &[u8]) {
        self.as_str().as_bytes()
    }
}

impl MapKey for Spanned<String> {
    open spec fn key(&self) -> Seq<u8> {
        encode_utf8(self.spec_value()@)
    }

    fn key_bytes(&self) -> (r: &[u8]) {
        self.get_ref().as_str().as_bytes()
    }
}

/// Whether two byte strings are equal.
pub fn bytes_eq(a: &[u8], b: &[u8]) -> (r: bool)
    ensures
        r == (a@ == b@),
{
    if a.len() != b.len() {
        return false;
    }
    let mut i: usize = 0;
    while i < a.len()
        invariant
            a@.len() == b@.len(),
            i <= a@.len(),
            forall|j: int| 0 <= j < i ==> a@[j] == b@[j],
        decreases a@.len() - i,
    {
        if a[i] != b[i] {
            return false;
        }
        i = i + 1;
    }
    assert(a@ =~= b@);
    true
}

/// Index of the first entry at or after `i` whose key is `k`, or `-1`.
pub open spec fn index_from<K: MapKey, V>(e: Seq<(K, V)>, k: Seq<u8>, i: int) -> int
    decreases e.len() - i,
{
    if i < 0 || i >= e.len() {
        -1
    } else if e[i].0.key() == k {
        i
    } else {
        index_from(e, k, i + 1)
    }
}

/// Index of the entry whose key is `k`, or `-1`.
pub open spec fn index_of<K: MapKey, V>(e: Seq<(K, V)>, k: Seq<u8>) -> int {
    index_from(e, k, 0)
}

/// No two entries share a key.
pub open spec fn keys_unique<K: MapKey, V>(e: Seq<(K, V)>) -> bool {
    forall|i: int, j: int|
        0 <= i < e.len() && 0 <= j < e.len() && i != j ==> #[trigger] e[i].0.key() != #[trigger] e[j].0.key()
}

/// The entries after inserting `(k, v)`: a present key keeps its entry's
/// key and position and takes the new value; a new key is appended.
pub open spec fn inserted<K: MapKey, V>(e: Seq<(K, V)>, k: K, v: V) -> Seq<(K, V)> {
    let i = index_of(e, k.key());
    if i >= 0 {
        e.update(i, (e[i].0, v))
    } else {
        e.push((k, v))
    }
}

proof fn lemma_index_from<K: MapKey, V>(e: Seq<(K, V)>, k: Seq<u8>, i: int)
    requires
        0 <= i,
    ensures
        -1 <= index_from(e, k, i) < e.len(),
        index_from(e, k, i) >= 0 ==> i <= index_from(e, k, i) && e[index_from(e, k, i)].0.key() == k,
        index_from(e, k, i) >= 0 ==> forall|j: int| i <= j < index_from(e, k, i) ==> #[trigger] e[j].0.key() != k,
        index_from(e, k, i) < 0 ==> forall|j: int| i <= j < e.len() ==> #[trigger] e[j].0.key() != k,
    decreases e.len() - i,
{
    if i < e.len() && e[i].0.key() != k {
        lemma_index_from(e, k, i + 1);
    }
}

/// An object: entries in the order their keys were first inserted, with no
/// two entries under the same key.
#[derive(Clone, Debug)]
pub struct ObjectMap<K: MapKey, V> {
    entries: Vec<(K, V)>,
}

impl<K: MapKey, V> ObjectMap<K, V> {
    /// The entries, in insertion order.
    pub closed spec fn entries(&self) -> Seq<(K, V)> {
        self.entries@
    }

    /// Well-formed: no two entries share a key. Every map that starts empty
    /// and changes only through these methods stays well-formed.
    pub open spec fn wf(&self) -> bool {
        keys_unique(self.entries())
    }

    /// The entry index of key `k`, or `-1`.
    pub open spec fn index(&self, k: Seq<u8>) -> int {
        index_of(self.entries(), k)
    }

    /// The value stored under key `k`, if any.
    pub open spec fn spec_get(&self, k: Seq<u8>) -> Option<V> {
        if self.index(k) >= 0 {
            Some(self.entries()[self.index(k)].1)
        } else {
            None
        }
    }

    /// Makes a new empty map.
    pub fn new() -> (r: Self)
        ensures
            r.entries() == Seq::<(K, V)>::empty(),
            r.wf(),
    {
        ObjectMap { entries: Vec::new() }
    }

    /// The number of entries.
    pub fn len(&self) -> (r: usize)
        ensures
            r == self.entries().len(),
    {
        self.entries.len()
    }

    /// Whether the map has no entries.
    pub fn is_empty(&self) -> (r: bool)
        ensures
            r == (self.entries().len() == 0),
    {
        self.entries.len() == 0
    }

    /// Removes every entry.
    pub fn clear(&mut self)
        ensures
            final(self).entries() == Seq::<(K, V)>::empty(),
            final(self).wf(),
    {
        self.entries.clear();
    }

    /// The entry index of `key`, if present.
    fn find(&self, key: &[u8]) -> (r: Option<usize>)
        ensures
            -1 <= self.index(key@) < self.entries().len(),
            r is None <==> self.index(key@) < 0,
            r is Some ==> r->Some_0 as int == self.index(key@),
    {
        proof {
            lemma_index_from(self.entries@, key@, 0);
        }
        let mut i: usize = 0;
        while i < self.entries.len()
            invariant
                i <= self.entries@.len(),
                index_from(self.entries@, key@, i as int) == self.index(key@),
            decreases self.entries@.len() - i,
        {
            if bytes_eq(self.entries[i].0.key_bytes(), key) {
                return Some(i);
            }
            i = i + 1;
        }
        None
    }

    /// Inserts a key-value pair. Where the key is present already, its value
    /// is replaced and returned, and the entry keeps its key and position;
    /// otherwise the pair is appended.
    pub fn insert(&mut self, k: K, v: V) -> (r: Option<V>)
        ensures
            final(self).entries() == inserted(old(self).entries(), k, v),
            r == (if old(self).index(k.key()) >= 0 {
                Some(old(self).entries()[old(self).index(k.key())].1)
            } else {
                None
            }),
            old(self).wf() ==> final(self).wf(),
    {
        proof {
            if self.wf() {
                lemma_insert_keeps_keys_unique(self.entries(), k, v);
            }
        }
        match self.find(k.key_bytes()) {
            Some(i) => {
                let mut val = v;
                std::mem::swap(&mut self.entries[i].1, &mut val);
                Some(val)
            },
            None => {
                self.entries.push((k, v));
                None
            },
        }
    }

    /// Inserts an entry read from the input, under the duplicate-key policy
    /// of `settings`: a key that is present already is refused, and handed
    /// back, unless the settings allow duplicate keys (no settings refuse
    /// them); an allowed duplicate replaces the value in place, keeping the
    /// first key and its position.
    pub fn insert_checked(&mut self, k: K, v: V, settings: Option<Settings>) -> (r: Result<
        Option<V>,
        K,
    >)
        ensures
            ({
                let allow = match settings {
                    Some(s) => s.allow_duplicate_keys,
                    None => false,
                };
                let i = old(self).index(k.key());
                &&& (i >= 0 && !allow) <==> r is Err
                &&& r is Err ==> r->Err_0 == k && final(self).entries() == old(self).entries()
                &&& r is Ok ==> final(self).entries() == inserted(old(self).entries(), k, v)
                &&& (i >= 0 && allow) ==> r == Ok::<Option<V>, K>(Some(old(self).entries()[i].1))
                &&& i < 0 ==> r == Ok::<Option<V>, K>(None)
                &&& old(self).wf() ==> final(self).wf()
            }),
    {
        let allow = match settings {
            Some(s) => s.allow_duplicate_keys,
            None => false,
        };
        if !allow && self.find(k.key_bytes()).is_some() {
            return Err(k);
        }
        Ok(self.insert(k, v))
    }

    /// Whether an entry has key `key`.
    pub fn contains_key(&self, key: &str) -> (r: bool)
        ensures
            r == (self.index(key.spec_bytes()) >= 0),
    {
        self.find(key.as_bytes()).is_some()
    }

    /// The value stored under `key`, if any.
    pub fn get(&self, key: &str) -> (r: Option<&V>)
        ensures
            match r {
                Some(x) => self.spec_get(key.spec_bytes()) == Some(*x),
                None => self.spec_get(key.spec_bytes()) is None,
            },
    {
        match self.find(key.as_bytes()) {
            Some(i) => Some(&self.entries[i].1),
            None => None,
        }
    }

    /// The value stored under the key with bytes `key`, if any.
    pub fn get_by_bytes(&self, key: &[u8]) -> (r: Option<&V>)
        ensures
            match r {
                Some(x) => self.spec_get(key@) == Some(*x),
                None => self.spec_get(key@) is None,
            },
    {
        match self.find(key) {
            Some(i) => Some(&self.entries[i].1),
            None => None,
        }
    }

    /// The value stored under `key`, for update, if any.
    pub fn get_mut(&mut self, key: &str) -> (r: Option<&mut V>)
        ensures
            match r {
                Some(x) => {
                    let i = old(self).index(key.spec_bytes());
                    &&& old(self).spec_get(key.spec_bytes()) == Some(*x)
                    &&& final(self).entries() == old(self).entries().update(
                        i,
                        (old(self).entries()[i].0, *final(x)),
                    )
                    &&& old(self).wf() ==> final(self).wf()
                },
                None => old(self).spec_get(key.spec_bytes()) is None && final(self).entries() == old(
                    self,
                ).entries(),
            },
    {
        self.get_mut_by_bytes(key.as_bytes())
    }

    /// The value stored under the key with bytes `key`, for update, if any.
    pub fn get_mut_by_bytes(&mut self, key: &[u8]) -> (r: Option<&mut V>)
        ensures
            match r {
                Some(x) => {
                    let i = old(self).index(key@);
                    &&& 0 <= i < old(self).entries().len()
                    &&& old(self).spec_get(key@) == Some(*x)
                    &&& final(self).entries() == old(self).entries().update(
                        i,
                        (old(self).entries()[i].0, *final(x)),
                    )
                    &&& old(self).wf() ==> final(self).wf()
                },
                None => old(self).spec_get(key@) is None && *final(self) == *old(self),
            },
    {
        match self.find(key) {
            Some(i) => Some(&mut self.entries[i].1),
            None => None,
        }
    }

    /// The entry under `key`, if any.
    pub fn get_key_value(&self, key: &str) -> (r: Option<(&K, &V)>)
        ensures
            match r {
                Some(x) => {
                    let i = self.index(key.spec_bytes());
                    i >= 0 && *x.0 == self.entries()[i].0 && *x.1 == self.entries()[i].1
                },
                None => self.index(key.spec_bytes()) < 0,
            },
    {
        match self.find(key.as_bytes()) {
            Some(i) => Some((&self.entries[i].0, &self.entries[i].1)),
            None => None,
        }
    }

    /// Removes the entry under `key` and returns its value, if any; the other
    /// entries keep their order.
    pub fn remove(&mut self, key: &str) -> (r: Option<V>)
        ensures
            ({
                let i = old(self).index(key.spec_bytes());
                &&& i >= 0 ==> r == Some(old(self).entries()[i].1) && final(self).entries() == old(
                    self,
                ).entries().remove(i)
                &&& i < 0 ==> r is None && final(self).entries() == old(self).entries()
                &&& old(self).wf() ==> final(self).wf()
            }),
    {
        match self.remove_entry(key) {
            Some((_k, v)) => Some(v),
            None => None,
        }
    }

    /// Removes the entry under `key` and returns it, if any; the other
    /// entries keep their order.
    pub fn remove_entry(&mut self, key: &str) -> (r: Option<(K, V)>)
        ensures
            ({
                let i = old(self).index(key.spec_bytes());
                &&& i >= 0 ==> r == Some(old(self).entries()[i]) && final(self).entries() == old(
                    self,
                ).entries().remove(i)
                &&& i < 0 ==> r is None && final(self).entries() == old(self).entries()
                &&& old(self).wf() ==> final(self).wf()
            }),
    {
        proof {
            lemma_index_from(self.entries(), key.spec_bytes(), 0);
        }
        match self.find(key.as_bytes()) {
            Some(i) => Some(self.entries.remove(i)),
            None => None,
        }
    }

    /// The entry at position `i`, in insertion order.
    pub fn entry_at(&self, i: usize) -> (r: (&K, &V))
        requires
            i < self.entries().len(),
        ensures
            *r.0 == self.entries()[i as int].0,
            *r.1 == self.entries()[i as int].1,
    {
        (&self.entries[i].0, &self.entries[i].1)
    }

    /// The value of the entry at position `i`, for update; the key and the
    /// other entries stay as they are.
    pub fn value_at_mut(&mut self, i: usize) -> (r: &mut V)
        requires
            i < old(self).entries().len(),
        ensures
            *r == old(self).entries()[i as int].1,
            final(self).entries() == old(self).entries().update(
                i as int,
                (old(self).entries()[i as int].0, *final(r)),
            ),
            old(self).wf() ==> final(self).wf(),
    {
        &mut self.entries[i].1
    }

    /// The keys, in insertion order.
    pub fn keys(&self) -> (r: Vec<&K>)
        ensures
            r@.len() == self.entries().len(),
            forall|i: int| 0 <= i < r@.len() ==> *#[trigger] r@[i] == self.entries()[i].0,
    {
        let mut out: Vec<&K> = Vec::new();
        let mut i: usize = 0;
        while i < self.entries.len()
            invariant
                i <= self.entries@.len(),
                out@.len() == i,
                forall|j: int| 0 <= j < i ==> *#[trigger] out@[j] == self.entries@[j].0,
            decreases self.entries@.len() - i,
        {
            out.push(&self.entries[i].0);
            i = i + 1;
        }
        out
    }

    /// The values, in insertion order.
    pub fn values(&self) -> (r: Vec<&V>)
        ensures
            r@.len() == self.entries().len(),
            forall|i: int| 0 <= i < r@.len() ==> *#[trigger] r@[i] == self.entries()[i].1,
    {
        let mut out: Vec<&V> = Vec::new();
        let mut i: usize = 0;
        while i < self.entries.len()
            invariant
                i <= self.entries@.len(),
                out@.len() == i,
                forall|j: int| 0 <= j < i ==> *#[trigger] out@[j] == self.entries@[j].1,
            decreases self.entries@.len() - i,
        {
            out.push(&self.entries[i].1);
            i = i + 1;
        }
        out
    }

    /// The entries, in insertion order.
    pub fn iter(&self) -> (r: Vec<(&K, &V)>)
        ensures
            r@.len() == self.entries().len(),
            forall|i: int|
                0 <= i < r@.len() ==> *(#[trigger] r@[i]).0 == self.entries()[i].0 && *r@[i].1
                    == self.entries()[i].1,
    {
        let mut out: Vec<(&K, &V)> = Vec::new();
        let mut i: usize = 0;
        while i < self.entries.len()
            invariant
                i <= self.entries@.len(),
                out@.len() == i,
                forall|j: int|
                    0 <= j < i ==> *(#[trigger] out@[j]).0 == self.entries@[j].0 && *out@[j].1
                        == self.entries@[j].1,
            decreases self.entries@.len() - i,
        {
            out.push((&self.entries[i].0, &self.entries[i].1));
            i = i + 1;
        }
        out
    }

    /// The entries, in order, as a vector of pairs.
    pub fn into_entries(self) -> (r: Vec<(K, V)>)
        ensures
            r@ == self.entries(),
    {
        self.entries
    }
}

/// The same key read twice, as in `{"a": 1, "a": 2}`: where duplicates are
/// allowed the map ends with one entry for the key, at the position and with
/// the key of the first, holding the second value; no other entry changes.
pub proof fn lemma_duplicate_key_keeps_one_entry<K: MapKey, V>(
    e: Seq<(K, V)>,
    k1: K,
    v1: V,
    k2: K,
    v2: V,
)
    requires
        keys_unique(e),
        index_of(e, k1.key()) < 0,
        k2.key() == k1.key(),
    ensures
        ({
            let once = inserted(e, k1, v1);
            let twice = inserted(once, k2, v2);
            &&& index_of(once, k2.key()) == e.len()
            &&& twice == e.push((k1, v2))
            &&& keys_unique(twice)
            &&& forall|j: int|
                0 <= j < twice.len() && #[trigger] twice[j].0.key() == k1.key() ==> j == e.len()
        }),
{
    let once = inserted(e, k1, v1);
    lemma_index_from(e, k1.key(), 0);
    assert(once == e.push((k1, v1)));
    lemma_insert_keeps_keys_unique(e, k1, v1);
    lemma_index_from(once, k2.key(), 0);
    assert(index_of(once, k2.key()) == e.len()) by {
        let n = index_of(once, k2.key());
        if n < 0 {
            assert(once[e.len() as int].0.key() == k2.key());
        } else if n < e.len() {
            assert(once[n] == e[n]);
            assert(e[n].0.key() == k1.key());
        }
    }
    let twice = inserted(once, k2, v2);
    assert(twice =~= e.push((k1, v2)));
    lemma_insert_keeps_keys_unique(once, k2, v2);
    assert forall|j: int|
        0 <= j < twice.len() && #[trigger] twice[j].0.key() == k1.key() implies j == e.len() by {
        if j < e.len() {
            assert(twice[j] == e[j]);
        }
    }
}

/// A map is larger than its entries and each of them.
pub proof fn lemma_entries_decrease<K: MapKey, V>(m: ObjectMap<K, V>)
    ensures
        decreases_to!(m => m.entries()),
        forall|i: int| 0 <= i < m.entries().len() ==> decreases_to!(m => #[trigger] m.entries()[i]),
{
    assert(decreases_to!(m => m.entries));
    assert(decreases_to!(m.entries => m.entries@));
    assert forall|i: int| 0 <= i < m.entries().len() implies decreases_to!(m => #[trigger] m.entries()[i]) by {
        assert(decreases_to!(m => m.entries));
        assert(decreases_to!(m.entries => m.entries@));
        assert(decreases_to!(m.entries@ => m.entries@[i]));
    }
}

/// Inserting keeps the keys of a map unique.
pub proof fn lemma_insert_keeps_keys_unique<K: MapKey, V>(e: Seq<(K, V)>, k: K, v: V)
    requires
        keys_unique(e),
    ensures
        index_of(e, k.key()) >= 0 ==> keys_unique(
            e.update(index_of(e, k.key()), (e[index_of(e, k.key())].0, v)),
        ),
        index_of(e, k.key()) < 0 ==> keys_unique(e.push((k, v))),
{
    lemma_index_from(e, k.key(), 0);
    if index_of(e, k.key()) < 0 {
        let e2 = e.push((k, v));
        assert forall|i: int, j: int|
            0 <= i < e2.len() && 0 <= j < e2.len() && i != j implies #[trigger] e2[i].0.key()
            != #[trigger] e2[j].0.key() by {
            if i < e.len() && j < e.len() {
                assert(e2[i] == e[i] && e2[j] == e[j]);
            }
        }
    } else {
        let n = index_of(e, k.key());
        let e2 = e.update(n, (e[n].0, v));
        assert forall|i: int, j: int|
            0 <= i < e2.len() && 0 <= j < e2.len() && i != j implies #[trigger] e2[i].0.key()
            != #[trigger] e2[j].0.key() by {
            assert(e2[i].0 == e[i].0 && e2[j].0 == e[j].0);
        }
    }
}

} // verus!
