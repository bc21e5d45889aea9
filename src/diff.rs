use vstd::prelude::*;
use vstd::hash_set::StringHashSet;
use crate::snapshot::snapshot_keys;
use crate::keys::{key_views, lemma_views_push, lemma_prefix_step};

verus! {

/// Keys present now but absent before.
pub open spec fn added_set(current: Seq<Seq<char>>, previous: Seq<Seq<char>>) -> Set<Seq<char>> {
    current.to_set().difference(previous.to_set())
}

/// Keys present before but absent now.
pub open spec fn removed_set(current: Seq<Seq<char>>, previous: Seq<Seq<char>>) -> Set<Seq<char>> {
    previous.to_set().difference(current.to_set())
}

/// Nothing is both added and removed, and comparing a key set with itself
/// finds nothing added and nothing removed.
pub proof fn lemma_diff_sound(current: Seq<Seq<char>>, previous: Seq<Seq<char>>)
    ensures
        added_set(current, previous).disjoint(removed_set(current, previous)),
        current.to_set() == previous.to_set() ==> added_set(current, previous).is_empty()
            && removed_set(current, previous).is_empty(),
{
    if current.to_set() == previous.to_set() {
        assert(added_set(current, previous) =~= Set::empty());
        assert(removed_set(current, previous) =~= Set::empty());
    }
}

/// Against a snapshot that does not exist, every current key is added and
/// none is removed.
pub proof fn lemma_diff_against_missing(current: Seq<Seq<char>>)
    ensures
        added_set(current, snapshot_keys(None)) == current.to_set(),
        removed_set(current, snapshot_keys(None)).is_empty(),
{
    assert(snapshot_keys(None).to_set() =~= Set::empty());
    assert(added_set(current, snapshot_keys(None)) =~= current.to_set());
    assert(removed_set(current, snapshot_keys(None)) =~= Set::empty());
}

/// The result of comparing the current keys with an earlier snapshot.
pub struct KeyDiff {
    pub added: Vec<String>,
    pub removed: Vec<String>,
}

/// Builds a set holding every key of `keys`.
fn set_of(keys: &Vec<String>) -> (r: StringHashSet)
    ensures
        r@ == key_views(keys@).to_set(),
{
    let mut r = StringHashSet::new();
    let mut i: usize = 0;
    while i < keys.len()
        invariant
            i <= keys.len(),
            r@ == key_views(keys@.subrange(0, i as int)).to_set(),
        decreases keys.len() - i,
    {
        proof {
            lemma_prefix_step(keys@, i as int);
            lemma_views_push(keys@.subrange(0, i as int), keys@[i as int]);
        }
        r.insert(keys[i].clone());
        i = i + 1;
    }
    assert(keys@.subrange(0, i as int) == keys@);
    r
}

/// The keys of `keys` that `exclude` does not hold, each once, in the order
/// of their first occurrence.
fn distinct_outside(keys: &Vec<String>, exclude: &StringHashSet) -> (r: Vec<String>)
    ensures
        key_views(r@).to_set() == key_views(keys@).to_set().difference(exclude@),
        key_views(r@).no_duplicates(),
{
    let mut r: Vec<String> = Vec::new();
    let mut seen = StringHashSet::new();
    let mut i: usize = 0;
    while i < keys.len()
        invariant
            i <= keys.len(),
            seen@ == key_views(r@).to_set(),
            key_views(r@).to_set() == key_views(keys@.subrange(0, i as int)).to_set().difference(
                exclude@,
            ),
            key_views(r@).no_duplicates(),
        decreases keys.len() - i,
    {
        let k = &keys[i];
        proof {
            lemma_prefix_step(keys@, i as int);
            lemma_views_push(keys@.subrange(0, i as int), *k);
        }
        let ghost before = r@;
        if !exclude.contains(k.as_str()) && !seen.contains(k.as_str()) {
            r.push(k.clone());
            seen.insert(k.clone());
            proof {
                lemma_views_push(before, *k);
                assert(r@ == before.push(*k));
            }
        }
        i = i + 1;
        assert(key_views(r@).to_set() =~= key_views(keys@.subrange(0, i as int)).to_set().difference(
            exclude@,
        ));
    }
    assert(keys@.subrange(0, i as int) == keys@);
    r
}

/// Compares the keys found now with those of an earlier snapshot. Duplicates
/// within either input count once.
pub fn diff_keys(current: &Vec<String>, previous: &Vec<String>) -> (r: KeyDiff)
    ensures
        key_views(r.added@).to_set() == added_set(key_views(current@), key_views(previous@)),
        key_views(r.removed@).to_set() == removed_set(key_views(current@), key_views(previous@)),
        key_views(r.added@).no_duplicates(),
        key_views(r.removed@).no_duplicates(),
{
    let current_set = set_of(current);
    let previous_set = set_of(previous);
    let added = distinct_outside(current, &previous_set);
    let removed = distinct_outside(previous, &current_set);
    KeyDiff { added, removed }
}

} // verus!
