use vstd::prelude::*;

verus! {

/// The characters of each key, in order.
pub open spec fn key_views(v: Seq<String>) -> Seq<Seq<char>> {
    v.map_values(|k: String| k@)
}

/// Adding a key at the end adds its characters at the end, and to the set.
pub(crate) proof fn lemma_views_push(s: Seq<String>, k: String)
    ensures
        key_views(s.push(k)) == key_views(s).push(k@),
        key_views(s.push(k)).to_set() == key_views(s).to_set().insert(k@),
{
    let v = key_views(s);
    assert(key_views(s.push(k)) =~= v.push(k@));
    assert forall|x: Seq<char>| v.push(k@).contains(x) <==> v.to_set().insert(k@).contains(x) by {
        if v.push(k@).contains(x) {
            let j = choose|j: int| 0 <= j < v.push(k@).len() && v.push(k@)[j] == x;
            if j < v.len() {
                assert(v[j] == x);
            }
        }
        if v.contains(x) {
            let j = choose|j: int| 0 <= j < v.len() && v[j] == x;
            assert(v.push(k@)[j] == x);
        }
        if x == k@ {
            assert(v.push(k@)[v.len() as int] == x);
        }
    }
    assert(v.push(k@).to_set() =~= v.to_set().insert(k@));
}

/// The first `i + 1` keys are the first `i` and the key at `i`.
pub(crate) proof fn lemma_prefix_step(s: Seq<String>, i: int)
    requires
        0 <= i < s.len(),
    ensures
        s.subrange(0, i + 1) == s.subrange(0, i).push(s[i]),
{
    assert(s.subrange(0, i + 1) =~= s.subrange(0, i).push(s[i]));
}

} // verus!
