//! A map from string keys to values that keeps its keys in ascending order.
//!
//! The keys are ordered as `str` orders them: by their UTF-8 bytes. The
//! entries lie in a vector, sorted by key with no key twice; the view is the
//! `Map` from each key to its value.

use vstd::prelude::*;
use vstd::utf8::{encode_utf8, encode_utf8_decode_utf8};

verus! {

/// `a` and `b` agree on their first `i` bytes, and at `i` either `a` ends
/// while `b` goes on, or `a` holds the smaller byte.
pub open spec fn bytes_before_at(a: Seq<u8>, b: Seq<u8>, i: int) -> bool {
    &&& 0 <= i <= a.len()
    &&& i < b.len()
    &&& forall|j: int| 0 <= j < i ==> a[j] == b[j]
    &&& (i == a.len() || a[i] < b[i])
}

/// `a` is lexicographically smaller than `b`.
pub open spec fn bytes_before(a: Seq<u8>, b: Seq<u8>) -> bool {
    exists|i: int| bytes_before_at(a, b, i)
}

/// The order of keys: `a` sorts strictly before `b`.
pub open spec fn key_before(a: Seq<char>, b: Seq<char>) -> bool {
    bytes_before(encode_utf8(a), encode_utf8(b))
}

/// No byte string is both before and after another, nor before itself.
pub proof fn lemma_bytes_before_asymmetric(a: Seq<u8>, b: Seq<u8>)
    requires
        bytes_before(a, b),
    ensures
        a != b,
        !bytes_before(b, a),
{
    let i = choose|i: int| bytes_before_at(a, b, i);
    if bytes_before(b, a) {
        let j = choose|j: int| bytes_before_at(b, a, j);
        if i < j {
            assert(b[i] == a[i]);
        } else if j < i {
            assert(a[j] == b[j]);
        }
    }
}

/// The order of byte strings is transitive.
pub proof fn lemma_bytes_before_transitive(a: Seq<u8>, b: Seq<u8>, c: Seq<u8>)
    requires
        bytes_before(a, b),
        bytes_before(b, c),
    ensures
        bytes_before(a, c),
{
    let i = choose|i: int| bytes_before_at(a, b, i);
    let j = choose|j: int| bytes_before_at(b, c, j);
    let k = if i <= j { i } else { j };
    assert(bytes_before_at(a, c, k));
}

/// Keys with the same bytes are the same key.
pub proof fn lemma_same_bytes_same_key(a: Seq<char>, b: Seq<char>)
    requires
        encode_utf8(a) == encode_utf8(b),
    ensures
        a == b,
{
    encode_utf8_decode_utf8(a);
    encode_utf8_decode_utf8(b);
}

/// The order of keys is strict: a key before another differs from it and
/// is not after it.
pub proof fn lemma_key_before_asymmetric(a: Seq<char>, b: Seq<char>)
    requires
        key_before(a, b),
    ensures
        a != b,
        !key_before(b, a),
{
    lemma_bytes_before_asymmetric(encode_utf8(a), encode_utf8(b));
}

/// The order of keys is transitive.
pub proof fn lemma_key_before_transitive(a: Seq<char>, b: Seq<char>, c: Seq<char>)
    requires
        key_before(a, b),
        key_before(b, c),
    ensures
        key_before(a, c),
{
    lemma_bytes_before_transitive(encode_utf8(a), encode_utf8(b), encode_utf8(c));
}

/// How one key stands to another.
#[derive(Debug, Clone, Copy, PartialEq, Eq)]
pub enum KeyOrder {
    Before,
    Same,
    After,
}

/// Compares two keys by their bytes.
pub fn key_order(a: &str, b: &str) -> (r: KeyOrder)
    ensures
        r is Before <==> key_before(a@, b@),
        r is Same <==> a@ == b@,
        r is After <==> key_before(b@, a@),
{
    let x = a.as_bytes();
    let y = b.as_bytes();
    let mut i: usize = 0;
    while i < x.len() && i < y.len() && x[i] == y[i]
        invariant
            i <= x@.len(),
            i <= y@.len(),
            forall|j: int| 0 <= j < i ==> x@[j] == y@[j],
        decreases x@.len() - i,
    {
        i += 1;
    }
    if i == x.len() && i == y.len() {
        proof {
            assert(x@ =~= y@);
            lemma_same_bytes_same_key(a@, b@);
            if bytes_before(x@, y@) {
                lemma_bytes_before_asymmetric(x@, y@);
            }
        }
        KeyOrder::Same
    } else if i == x.len() || (i < y.len() && x[i] < y[i]) {
        proof {
            assert(bytes_before_at(x@, y@, i as int));
            lemma_bytes_before_asymmetric(x@, y@);
        }
        KeyOrder::Before
    } else {
        proof {
            assert(bytes_before_at(y@, x@, i as int));
            lemma_bytes_before_asymmetric(y@, x@);
        }
        KeyOrder::After
    }
}

/// Whether two strings hold the same text.
pub fn same_text(a: &str, b: &str) -> (r: bool)
    ensures
        r == (a@ == b@),
{
    match key_order(a, b) {
        KeyOrder::Same => true,
        _ => false,
    }
}

/// The key of the entry at `i`.
pub open spec fn key_at<V>(s: Seq<(String, V)>, i: int) -> Seq<char> {
    s[i].0@
}

/// The keys of `s` ascend strictly.
pub open spec fn ascending<V>(s: Seq<(String, V)>) -> bool {
    forall|i: int, j: int|
        0 <= i < j < s.len() ==> key_before(#[trigger] key_at(s, i), #[trigger] key_at(s, j))
}

/// Some entry of `s` has the key `k`.
pub open spec fn has_key<V>(s: Seq<(String, V)>, k: Seq<char>) -> bool {
    exists|i: int| 0 <= i < s.len() && #[trigger] key_at(s, i) == k
}

/// The place of an entry of `s` with the key `k`.
pub open spec fn place_of<V>(s: Seq<(String, V)>, k: Seq<char>) -> int {
    choose|i: int| 0 <= i < s.len() && #[trigger] key_at(s, i) == k
}

/// The map that the entries `s` stand for.
pub open spec fn entries_map<V>(s: Seq<(String, V)>) -> Map<Seq<char>, V> {
    Map::new(|k: Seq<char>| has_key(s, k), |k: Seq<char>| s[place_of(s, k)].1)
}

/// In ascending entries each key stands at one place only, and the map
/// takes it to the value there.
pub proof fn lemma_entry_in_map<V>(s: Seq<(String, V)>, i: int)
    requires
        ascending(s),
        0 <= i < s.len(),
    ensures
        has_key(s, key_at(s, i)),
        place_of(s, key_at(s, i)) == i,
        entries_map(s).contains_key(key_at(s, i)),
        entries_map(s)[key_at(s, i)] == s[i].1,
{
    let k = key_at(s, i);
    let p = place_of(s, k);
    if p < i {
        lemma_key_before_asymmetric(key_at(s, p), key_at(s, i));
    } else if i < p {
        lemma_key_before_asymmetric(key_at(s, i), key_at(s, p));
    }
}

/// A key that belongs at `p` in ascending entries, and is not there, is
/// nowhere in them.
proof fn lemma_absent<V>(s: Seq<(String, V)>, k: Seq<char>, p: int)
    requires
        ascending(s),
        0 <= p <= s.len(),
        forall|j: int| 0 <= j < p ==> key_before(#[trigger] key_at(s, j), k),
        p == s.len() || key_before(k, key_at(s, p)),
    ensures
        !has_key(s, k),
        forall|j: int| p <= j < s.len() ==> key_before(k, #[trigger] key_at(s, j)),
{
    assert forall|j: int| p <= j < s.len() implies key_before(k, #[trigger] key_at(s, j)) by {
        if p < j {
            lemma_key_before_transitive(k, key_at(s, p), key_at(s, j));
        }
    }
    if has_key(s, k) {
        let i = place_of(s, k);
        if i < p {
            lemma_key_before_asymmetric(key_at(s, i), k);
        } else {
            lemma_key_before_asymmetric(k, key_at(s, i));
        }
    }
}

/// Putting a new key at its place keeps the entries ascending and adds the
/// key to the map.
proof fn lemma_insert_new<V>(s: Seq<(String, V)>, p: int, key: String, value: V)
    requires
        ascending(s),
        0 <= p <= s.len(),
        forall|j: int| 0 <= j < p ==> key_before(#[trigger] key_at(s, j), key@),
        p == s.len() || key_before(key@, key_at(s, p)),
    ensures
        ascending(s.insert(p, (key, value))),
        entries_map(s.insert(p, (key, value))) == entries_map(s).insert(key@, value),
{
    let t = s.insert(p, (key, value));
    lemma_absent(s, key@, p);
    assert forall|i: int, j: int| 0 <= i < j < t.len() implies key_before(
        #[trigger] key_at(t, i),
        #[trigger] key_at(t, j),
    ) by {
        let si = if i < p { i } else { i - 1 };
        let sj = if j < p { j } else { j - 1 };
        if i == p {
            assert(key_at(t, j) == key_at(s, sj));
        } else if j == p {
            assert(key_at(t, i) == key_at(s, si));
        } else {
            assert(key_at(t, i) == key_at(s, si));
            assert(key_at(t, j) == key_at(s, sj));
        }
    }
    assert forall|k: Seq<char>| has_key(t, k) <==> (k == key@ || has_key(s, k)) by {
        if has_key(t, k) {
            let i = place_of(t, k);
            if i != p {
                let si = if i < p { i } else { i - 1 };
                assert(key_at(s, si) == k);
            }
        }
        if k == key@ {
            assert(key_at(t, p) == k);
        }
        if has_key(s, k) {
            let i = place_of(s, k);
            let ti = if i < p { i } else { i + 1 };
            assert(key_at(t, ti) == k);
        }
    }
    assert forall|k: Seq<char>| has_key(t, k) implies #[trigger] entries_map(t)[k] == entries_map(
        s,
    ).insert(key@, value)[k] by {
        let i = place_of(t, k);
        lemma_entry_in_map(t, i);
        if i != p {
            let si = if i < p { i } else { i - 1 };
            assert(key_at(s, si) == k);
            lemma_entry_in_map(s, si);
        }
    }
    assert(entries_map(t) =~= entries_map(s).insert(key@, value));
}

/// Putting another value under a key that is there keeps the entries
/// ascending and changes the map at that key only.
proof fn lemma_replace<V>(s: Seq<(String, V)>, p: int, key: String, value: V)
    requires
        ascending(s),
        0 <= p < s.len(),
        key_at(s, p) == key@,
    ensures
        s.remove(p).insert(p, (key, value)) == s.update(p, (key, value)),
        ascending(s.update(p, (key, value))),
        entries_map(s.update(p, (key, value))) == entries_map(s).insert(key@, value),
{
    let t = s.update(p, (key, value));
    assert(s.remove(p).insert(p, (key, value)) =~= t);
    assert forall|i: int| 0 <= i < s.len() implies #[trigger] key_at(t, i) == key_at(s, i) by {}
    assert forall|i: int, j: int| 0 <= i < j < t.len() implies key_before(
        #[trigger] key_at(t, i),
        #[trigger] key_at(t, j),
    ) by {
        assert(key_before(key_at(s, i), key_at(s, j)));
    }
    assert forall|k: Seq<char>| has_key(t, k) <==> has_key(s, k) by {
        if has_key(t, k) {
            assert(key_at(s, place_of(t, k)) == k);
        }
        if has_key(s, k) {
            assert(key_at(t, place_of(s, k)) == k);
        }
    }
    lemma_entry_in_map(s, p);
    assert forall|k: Seq<char>| has_key(t, k) implies #[trigger] entries_map(t)[k] == entries_map(
        s,
    ).insert(key@, value)[k] by {
        let i = place_of(t, k);
        lemma_entry_in_map(t, i);
        lemma_entry_in_map(s, i);
    }
    assert(entries_map(t) =~= entries_map(s).insert(key@, value));
}

/// Taking an entry out keeps the rest ascending and removes its key from the
/// map.
proof fn lemma_remove<V>(s: Seq<(String, V)>, p: int)
    requires
        ascending(s),
        0 <= p < s.len(),
    ensures
        ascending(s.remove(p)),
        entries_map(s.remove(p)) == entries_map(s).remove(key_at(s, p)),
{
    let t = s.remove(p);
    assert forall|i: int| 0 <= i < t.len() implies #[trigger] key_at(t, i) == key_at(
        s,
        if i < p { i } else { i + 1 },
    ) by {}
    assert forall|i: int, j: int| 0 <= i < j < t.len() implies key_before(
        #[trigger] key_at(t, i),
        #[trigger] key_at(t, j),
    ) by {
        let si = if i < p { i } else { i + 1 };
        let sj = if j < p { j } else { j + 1 };
        assert(key_before(key_at(s, si), key_at(s, sj)));
    }
    assert forall|k: Seq<char>| has_key(t, k) <==> (has_key(s, k) && k != key_at(s, p)) by {
        if has_key(t, k) {
            let i = place_of(t, k);
            let si = if i < p { i } else { i + 1 };
            assert(key_at(s, si) == k);
            lemma_entry_in_map(s, si);
            lemma_entry_in_map(s, p);
        }
        if has_key(s, k) && k != key_at(s, p) {
            let i = place_of(s, k);
            let ti = if i < p { i } else { i - 1 };
            assert(key_at(t, ti) == k);
        }
    }
    assert forall|k: Seq<char>| has_key(t, k) implies #[trigger] entries_map(t)[k] == entries_map(
        s,
    )[k] by {
        let i = place_of(t, k);
        let si = if i < p { i } else { i + 1 };
        lemma_entry_in_map(t, i);
        assert(key_at(s, si) == k);
        lemma_entry_in_map(s, si);
    }
    assert(entries_map(t) =~= entries_map(s).remove(key_at(s, p)));
}

/// A map from string keys to values of `V`, kept in ascending key order.
#[derive(Debug, PartialEq, Eq)]
pub struct StringMap<V> {
    entries: Vec<(String, V)>,
}

impl<V> View for StringMap<V> {
    type V = Map<Seq<char>, V>;

    closed spec fn view(&self) -> Map<Seq<char>, V> {
        entries_map(self.entries@)
    }
}

impl<V: Clone> Clone for StringMap<V> {
    /// A map with the same keys, and under each key a clone of the value.
    fn clone(&self) -> (r: Self)
        ensures
            r.keys() == self.keys(),
            r@.dom() == self@.dom(),
            forall|k: Seq<char>| #[trigger] self@.contains_key(k) ==> cloned(self@[k], r@[k]),
    {
        proof {
            use_type_invariant(self);
        }
        let mut entries: Vec<(String, V)> = Vec::new();
        let mut i: usize = 0;
        while i < self.entries.len()
            invariant
                i <= self.entries@.len(),
                entries@.len() == i,
                forall|j: int| 0 <= j < i ==> #[trigger] key_at(entries@, j) == key_at(self.entries@, j),
                forall|j: int| 0 <= j < i ==> cloned(self.entries@[j].1, (#[trigger] entries@[j]).1),
            decreases self.entries@.len() - i,
        {
            let ghost before = entries@;
            entries.push((self.entries[i].0.clone(), self.entries[i].1.clone()));
            assert forall|j: int| 0 <= j < i + 1 implies #[trigger] key_at(entries@, j) == key_at(
                self.entries@,
                j,
            ) by {
                if j < i {
                    assert(key_at(before, j) == key_at(self.entries@, j));
                }
            }
            assert forall|j: int| 0 <= j < i + 1 implies cloned(
                self.entries@[j].1,
                (#[trigger] entries@[j]).1,
            ) by {
                if j < i {
                    assert(cloned(self.entries@[j].1, before[j].1));
                }
            }
            i += 1;
        }
        assert forall|a: int, b: int| 0 <= a < b < entries@.len() implies key_before(
            #[trigger] key_at(entries@, a),
            #[trigger] key_at(entries@, b),
        ) by {
            assert(key_before(key_at(self.entries@, a), key_at(self.entries@, b)));
        }
        let r = StringMap { entries };
        assert(r.keys() =~= self.keys());
        assert forall|k: Seq<char>| has_key(r.entries@, k) <==> has_key(self.entries@, k) by {
            if has_key(r.entries@, k) {
                assert(key_at(self.entries@, place_of(r.entries@, k)) == k);
            }
            if has_key(self.entries@, k) {
                assert(key_at(r.entries@, place_of(self.entries@, k)) == k);
            }
        }
        assert(r@.dom() =~= self@.dom());
        assert forall|k: Seq<char>| #[trigger] self@.contains_key(k) implies cloned(
            self@[k],
            r@[k],
        ) by {
            let p = place_of(self.entries@, k);
            lemma_entry_in_map(self.entries@, p);
            assert(key_at(r.entries@, p) == k);
            lemma_entry_in_map(r.entries@, p);
            assert(cloned(self.entries@[p].1, r.entries@[p].1));
        }
        r
    }
}

impl<V> Default for StringMap<V> {
    /// A map that holds nothing.
    fn default() -> (r: Self)
        ensures
            r@ =~= Map::empty(),
            r.keys().len() == 0,
    {
        StringMap::new()
    }
}

impl<V> StringMap<V> {
    /// The keys, in the order in which the map holds its entries.
    pub closed spec fn keys(&self) -> Seq<Seq<char>> {
        Seq::new(self.entries@.len(), |i: int| key_at(self.entries@, i))
    }

    /// The keys ascend strictly.
    #[verifier::type_invariant]
    pub closed spec fn wf(&self) -> bool {
        ascending(self.entries@)
    }

    /// How the keys stand to the view: they ascend, and they are the keys
    /// of the view, each once.
    pub proof fn lemma_keys(&self)
        requires
            self.wf(),
        ensures
            forall|i: int, j: int|
                0 <= i < j < self.keys().len() ==> key_before(
                    #[trigger] self.keys()[i],
                    #[trigger] self.keys()[j],
                ),
            forall|i: int| 0 <= i < self.keys().len() ==> self@.contains_key(#[trigger] self.keys()[i]),
            forall|k: Seq<char>| self@.contains_key(k) ==> self.keys().contains(k),
            self.keys().no_duplicates(),
            self@.dom() == self.keys().to_set(),
            self@.dom().finite(),
            self@.len() == self.keys().len(),
    {
        let s = self.entries@;
        let keys = self.keys();
        assert forall|i: int, j: int| 0 <= i < j < keys.len() implies key_before(
            #[trigger] keys[i],
            #[trigger] keys[j],
        ) by {
            assert(key_before(key_at(s, i), key_at(s, j)));
        }
        assert forall|i: int| 0 <= i < keys.len() implies self@.contains_key(#[trigger] keys[i]) by {
            lemma_entry_in_map(s, i);
        }
        assert forall|k: Seq<char>| self@.contains_key(k) implies keys.contains(k) by {
            let i = place_of(s, k);
            assert(keys[i] == k);
        }
        assert forall|i: int, j: int| 0 <= i < keys.len() && 0 <= j < keys.len() && i != j implies keys[i]
            != keys[j] by {
            if i < j {
                lemma_key_before_asymmetric(keys[i], keys[j]);
            } else {
                lemma_key_before_asymmetric(keys[j], keys[i]);
            }
        }
        assert(self@.dom() =~= keys.to_set());
        keys.unique_seq_to_set();
    }

    /// A map that holds nothing.
    pub fn new() -> (r: Self)
        ensures
            r@ =~= Map::empty(),
            r.keys().len() == 0,
    {
        let r = StringMap { entries: Vec::new() };
        assert(r@ =~= Map::<Seq<char>, V>::empty());
        r
    }

    /// The number of entries.
    pub fn len(&self) -> (n: usize)
        ensures
            n == self.keys().len(),
            n == self@.len(),
    {
        proof {
            use_type_invariant(self);
            self.lemma_keys();
        }
        self.entries.len()
    }

    /// The entry at place `i` in ascending key order, if there are that many.
    pub fn entry(&self, i: usize) -> (r: Option<(&String, &V)>)
        ensures
            match r {
                Some((k, v)) => i < self.keys().len() && k@ == self.keys()[i as int]
                    && self@.contains_key(k@) && *v == self@[k@],
                None => i >= self.keys().len(),
            },
    {
        if i < self.entries.len() {
            proof {
                use_type_invariant(self);
                lemma_entry_in_map(self.entries@, i as int);
            }
            let e = &self.entries[i];
            Some((&e.0, &e.1))
        } else {
            None
        }
    }

    /// Where `key` stands, or where it would have to stand, and whether it
    /// is there.
    fn find(&self, key: &str) -> (r: (usize, bool))
        ensures
            r.0 <= self.entries@.len(),
            forall|j: int| 0 <= j < r.0 ==> key_before(#[trigger] key_at(self.entries@, j), key@),
            r.1 ==> r.0 < self.entries@.len() && key_at(self.entries@, r.0 as int) == key@,
            !r.1 ==> r.0 == self.entries@.len() || key_before(key@, key_at(self.entries@, r.0 as int)),
            r.1 == self@.contains_key(key@),
    {
        proof {
            use_type_invariant(self);
        }
        let mut i: usize = 0;
        while i < self.entries.len()
            invariant
                i <= self.entries@.len(),
                ascending(self.entries@),
                forall|j: int| 0 <= j < i ==> key_before(#[trigger] key_at(self.entries@, j), key@),
            decreases self.entries@.len() - i,
        {
            match key_order(self.entries[i].0.as_str(), key) {
                KeyOrder::Before => {
                    i += 1;
                },
                KeyOrder::Same => {
                    proof {
                        lemma_entry_in_map(self.entries@, i as int);
                    }
                    return (i, true);
                },
                KeyOrder::After => {
                    proof {
                        lemma_absent(self.entries@, key@, i as int);
                    }
                    return (i, false);
                },
            }
        }
        proof {
            lemma_absent(self.entries@, key@, i as int);
        }
        (i, false)
    }

    /// Hands out the entries and leaves the map empty.
    fn take_entries(&mut self) -> (r: Vec<(String, V)>)
        ensures
            r@ == old(self).entries@,
            final(self).entries@.len() == 0,
    {
        let mut entries: Vec<(String, V)> = Vec::new();
        core::mem::swap(&mut self.entries, &mut entries);
        entries
    }

    /// Whether the map holds `key`.
    pub fn contains_key(&self, key: &str) -> (r: bool)
        ensures
            r == self@.contains_key(key@),
    {
        self.find(key).1
    }

    /// The value stored under `key`, if there is one.
    pub fn get(&self, key: &str) -> (r: Option<&V>)
        ensures
            match r {
                Some(v) => self@.contains_key(key@) && *v == self@[key@],
                None => !self@.contains_key(key@),
            },
    {
        let (p, found) = self.find(key);
        if found {
            proof {
                use_type_invariant(self);
                lemma_entry_in_map(self.entries@, p as int);
            }
            Some(&self.entries[p].1)
        } else {
            None
        }
    }

    /// Stores `value` under `key`, in place of what was stored there, and
    /// returns what was replaced.
    pub fn insert(&mut self, key: String, value: V) -> (r: Option<V>)
        ensures
            final(self)@ == old(self)@.insert(key@, value),
            r == (if old(self)@.contains_key(key@) {
                Some(old(self)@[key@])
            } else {
                None
            }),
    {
        let (p, found) = self.find(key.as_str());
        proof {
            use_type_invariant(&*self);
        }
        if found {
            proof {
                lemma_entry_in_map(self.entries@, p as int);
                lemma_remove(self.entries@, p as int);
                lemma_replace(self.entries@, p as int, key, value);
            }
            let mut entries = self.take_entries();
            let replaced = entries.remove(p);
            entries.insert(p, (key, value));
            self.entries = entries;
            Some(replaced.1)
        } else {
            proof {
                lemma_insert_new(self.entries@, p as int, key, value);
            }
            let mut entries = self.take_entries();
            entries.insert(p, (key, value));
            self.entries = entries;
            None
        }
    }

    /// Stores `value` under `key` unless the map holds the key already, and
    /// says whether it stored it.
    pub fn insert_if_absent(&mut self, key: String, value: V) -> (r: bool)
        ensures
            r == !old(self)@.contains_key(key@),
            final(self)@ == (if r {
                old(self)@.insert(key@, value)
            } else {
                old(self)@
            }),
    {
        let (p, found) = self.find(key.as_str());
        proof {
            use_type_invariant(&*self);
        }
        if found {
            false
        } else {
            proof {
                lemma_insert_new(self.entries@, p as int, key, value);
            }
            let mut entries = self.take_entries();
            entries.insert(p, (key, value));
            self.entries = entries;
            true
        }
    }

    /// Takes `key` out of the map and returns what was stored under it.
    pub fn remove(&mut self, key: &str) -> (r: Option<V>)
        ensures
            final(self)@ == old(self)@.remove(key@),
            r == (if old(self)@.contains_key(key@) {
                Some(old(self)@[key@])
            } else {
                None
            }),
    {
        let (p, found) = self.find(key);
        proof {
            use_type_invariant(&*self);
        }
        if found {
            proof {
                lemma_entry_in_map(self.entries@, p as int);
                lemma_remove(self.entries@, p as int);
            }
            let mut entries = self.take_entries();
            let removed = entries.remove(p);
            self.entries = entries;
            Some(removed.1)
        } else {
            assert(self@.remove(key@) =~= self@);
            None
        }
    }
}

} // verus!
