//! Copying and joining of YAML values, sequences and mappings.

use crate::string_map::{
    ascending, entries_map, key_at, key_before, lemma_entry_in_map, place_of, StringMap,
};
use crate::yaml::{mapping_pairs, mapping_view, pairs_map};
use serde_yaml::{Mapping, Value};
use vstd::prelude::*;

verus! {

/// Storing the first `i + 1` pairs is storing the first `i` and then the
/// pair at `i`.
proof fn lemma_pairs_map_step(s: Seq<(Value, Value)>, i: int)
    requires
        0 <= i < s.len(),
    ensures
        pairs_map(s.take(i + 1)) == pairs_map(s.take(i)).insert(s[i].0, s[i].1),
{
    assert(s.take(i + 1).drop_last() =~= s.take(i));
}

/// A copy of a sequence of values.
pub fn clone_values(items: &Vec<Value>) -> (r: Vec<Value>)
    ensures
        r@ == items@,
{
    let mut r: Vec<Value> = Vec::new();
    let mut i: usize = 0;
    while i < items.len()
        invariant
            i <= items@.len(),
            r@ == items@.take(i as int),
        decreases items@.len() - i,
    {
        r.push(items[i].clone());
        i += 1;
    }
    r
}

/// Appends copies of `items` to `target`, in their order.
pub fn append_values(target: &mut Vec<Value>, items: &Vec<Value>)
    ensures
        final(target)@ == old(target)@ + items@,
{
    let mut i: usize = 0;
    while i < items.len()
        invariant
            i <= items@.len(),
            target@ == old(target)@ + items@.take(i as int),
        decreases items@.len() - i,
    {
        target.push(items[i].clone());
        i += 1;
    }
}

/// Stores every entry of `source` in `target`. Where both hold a key, the
/// value of `source` replaces that of `target`.
pub fn extend_mapping(target: &mut Mapping, source: &Mapping)
    ensures
        mapping_view(*final(target)) == mapping_view(*old(target)).union_prefer_right(
            mapping_view(*source),
        ),
{
    let pairs = mapping_pairs(source);
    let mut i: usize = 0;
    assert(mapping_view(*target) =~= mapping_view(*old(target)).union_prefer_right(
        pairs_map(pairs@.take(0)),
    ));
    while i < pairs.len()
        invariant
            i <= pairs@.len(),
            mapping_view(*target) == mapping_view(*old(target)).union_prefer_right(
                pairs_map(pairs@.take(i as int)),
            ),
        decreases pairs@.len() - i,
    {
        let key = pairs[i].0.clone();
        let value = pairs[i].1.clone();
        let ghost before = mapping_view(*target);
        target.insert(key, value);
        proof {
            lemma_pairs_map_step(pairs@, i as int);
            assert(before.insert(key, value) =~= mapping_view(*old(target)).union_prefer_right(
                pairs_map(pairs@.take(i as int)).insert(key, value),
            ));
        }
        i += 1;
    }
    assert(pairs@.take(pairs@.len() as int) =~= pairs@);
}

/// A copy of a mapping.
pub fn clone_mapping(m: &Mapping) -> (r: Mapping)
    ensures
        mapping_view(r) == mapping_view(*m),
{
    let mut r = Mapping::new();
    extend_mapping(&mut r, m);
    r
}

/// The entries of `source` whose keys stand at the first `n` places.
spec fn leading_entries(source: StringMap<Value>, n: int) -> Map<Seq<char>, Value> {
    Map::new(
        |k: Seq<char>| exists|j: int| 0 <= j < n && j < source.keys().len() && #[trigger] source.keys()[j] == k,
        |k: Seq<char>| source@[k],
    )
}

/// Stores in `target` every entry of `source` whose key `target` does not
/// hold yet. Where both hold a key, the value of `target` stays.
pub fn add_missing_entries(target: &mut StringMap<Value>, source: &StringMap<Value>)
    ensures
        final(target)@ == source@.union_prefer_right(old(target)@),
{
    let n = source.len();
    let mut i: usize = 0;
    while i < n
        invariant
            i <= n,
            n == source.keys().len(),
            target@ == leading_entries(*source, i as int).union_prefer_right(old(target)@),
        decreases n - i,
    {
        match source.entry(i) {
            Some((key, value)) => {
                target.insert_if_absent(key.clone(), value.clone());
                assert(target@ =~= leading_entries(*source, i + 1).union_prefer_right(old(target)@))
                    by {
                    assert forall|k: Seq<char>| leading_entries(*source, i + 1).contains_key(k)
                        <==> (leading_entries(*source, i as int).contains_key(k) || k == key@) by {
                        if leading_entries(*source, i + 1).contains_key(k) {
                            let j = choose|j: int|
                                0 <= j < i + 1 && j < source.keys().len() && #[trigger] source.keys()[j]
                                    == k;
                            if j < i {
                                assert(leading_entries(*source, i as int).contains_key(k));
                            }
                        }
                    }
                }
            },
            None => {},
        }
        i += 1;
    }
    proof {
        use_type_invariant(source);
        source.lemma_keys();
        assert(leading_entries(*source, n as int) =~= source@) by {
            assert forall|k: Seq<char>| source@.contains_key(k) implies leading_entries(
                *source,
                n as int,
            ).contains_key(k) by {
                let j = source.keys().index_of(k);
                assert(source.keys()[j] == k);
            }
        }
    }
}

/// A copy of a map from strings to values.
pub fn clone_entries(m: &StringMap<Value>) -> (r: StringMap<Value>)
    ensures
        r@ == m@,
{
    let mut r: StringMap<Value> = StringMap::new();
    add_missing_entries(&mut r, m);
    r
}

/// The entries of a map as pairs, in ascending key order.
pub fn entry_list(m: &StringMap<Value>) -> (r: Vec<(String, Value)>)
    ensures
        ascending(r@),
        entries_map(r@) == m@,
{
    let n = m.len();
    let mut r: Vec<(String, Value)> = Vec::new();
    let mut i: usize = 0;
    while i < n
        invariant
            i <= n,
            n == m.keys().len(),
            r@.len() == i,
            forall|j: int| 0 <= j < i ==> #[trigger] key_at(r@, j) == m.keys()[j],
            forall|j: int| 0 <= j < i ==> (#[trigger] r@[j]).1 == m@[m.keys()[j]],
        decreases n - i,
    {
        match m.entry(i) {
            Some((key, value)) => {
                let ghost before = r@;
                r.push((key.clone(), value.clone()));
                assert forall|j: int| 0 <= j < i + 1 implies #[trigger] key_at(r@, j)
                    == m.keys()[j] by {
                    if j < i {
                        assert(key_at(before, j) == m.keys()[j]);
                    }
                }
                assert forall|j: int| 0 <= j < i + 1 implies (#[trigger] r@[j]).1
                    == m@[m.keys()[j]] by {
                    if j < i {
                        assert(before[j].1 == m@[m.keys()[j]]);
                    }
                }
            },
            None => {},
        }
        i += 1;
    }
    proof {
        use_type_invariant(m);
        m.lemma_keys();
        assert forall|a: int, b: int| 0 <= a < b < r@.len() implies key_before(
            #[trigger] key_at(r@, a),
            #[trigger] key_at(r@, b),
        ) by {
            assert(key_before(m.keys()[a], m.keys()[b]));
        }
        assert forall|k: Seq<char>| entries_map(r@).contains_key(k) <==> m@.contains_key(k) by {
            if entries_map(r@).contains_key(k) {
                let j = place_of(r@, k);
                assert(m.keys()[j] == k);
            }
            if m@.contains_key(k) {
                let j = m.keys().index_of(k);
                assert(key_at(r@, j) == k);
            }
        }
        assert forall|k: Seq<char>| entries_map(r@).contains_key(k) implies #[trigger] entries_map(
            r@,
        )[k] == m@[k] by {
            let j = place_of(r@, k);
            lemma_entry_in_map(r@, j);
        }
    }
    r
}

} // verus!
