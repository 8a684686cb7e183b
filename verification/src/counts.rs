use vstd::prelude::*;
use crate::text::str_eq;

verus! {

/// The keys and values of a list of key/value pairs.
pub open spec fn pair_views(s: Seq<(String, usize)>) -> Seq<(Seq<char>, usize)> {
    s.map_values(|p: (String, usize)| (p.0@, p.1))
}

/// The map that inserting the pairs one after another, in order, builds.
pub open spec fn pairs_map(s: Seq<(Seq<char>, usize)>) -> Map<Seq<char>, usize>
    decreases s.len(),
{
    if s.len() == 0 {
        Map::empty()
    } else {
        pairs_map(s.drop_last()).insert(s.last().0, s.last().1)
    }
}

/// No key occurs twice.
pub open spec fn distinct_keys(s: Seq<(Seq<char>, usize)>) -> bool {
    forall|i: int, j: int| 0 <= i < j < s.len() ==> (#[trigger] s[i]).0 != (#[trigger] s[j]).0
}

/// With distinct keys the map holds each pair as it is listed, and nothing else.
pub proof fn lemma_pairs_map_distinct(s: Seq<(Seq<char>, usize)>)
    requires
        distinct_keys(s),
    ensures
        forall|i: int| 0 <= i < s.len() ==> pairs_map(s).contains_key(#[trigger] s[i].0) && pairs_map(s)[s[i].0] == s[i].1,
        forall|k: Seq<char>| pairs_map(s).contains_key(k) ==> exists|i: int| 0 <= i < s.len() && (#[trigger] s[i]).0 == k,
    decreases s.len(),
{
    if s.len() > 0 {
        let t = s.drop_last();
        assert(distinct_keys(t)) by {
            assert forall|i: int, j: int| 0 <= i < j < t.len() implies (#[trigger] t[i]).0 != (#[trigger] t[j]).0 by {
                assert(t[i] == s[i] && t[j] == s[j]);
            }
        }
        lemma_pairs_map_distinct(t);
        assert forall|i: int| 0 <= i < s.len() implies pairs_map(s).contains_key(#[trigger] s[i].0) && pairs_map(s)[s[i].0] == s[i].1 by {
            if i < s.len() - 1 {
                assert(t[i] == s[i]);
                assert(s[i].0 != s[s.len() - 1].0);
            }
        }
        assert forall|k: Seq<char>| pairs_map(s).contains_key(k) implies exists|i: int| 0 <= i < s.len() && (#[trigger] s[i]).0 == k by {
            if k != s.last().0 {
                assert(pairs_map(t).contains_key(k));
                let i = choose|i: int| 0 <= i < t.len() && (#[trigger] t[i]).0 == k;
                assert(s[i] == t[i]);
                assert(0 <= i < s.len() && s[i].0 == k);
            } else {
                assert(s[s.len() - 1].0 == k);
            }
        }
    }
}

/// Sets the value of `key`, replacing the pair with that key or appending a new one.
pub fn upsert(v: &mut Vec<(String, usize)>, key: String, value: usize)
    requires
        distinct_keys(pair_views(old(v)@)),
    ensures
        distinct_keys(pair_views(final(v)@)),
        pairs_map(pair_views(final(v)@)) == pairs_map(pair_views(old(v)@)).insert(key@, value),
{
    let ghost s = pair_views(v@);
    proof {
        lemma_pairs_map_distinct(s);
    }
    let mut i: usize = 0;
    while i < v.len()
        invariant
            0 <= i <= v@.len(),
            s == pair_views(v@),
            s == pair_views(old(v)@),
            distinct_keys(s),
            forall|j: int| 0 <= j < i ==> (#[trigger] s[j]).0 != key@,
        decreases v@.len() - i,
    {
        if str_eq(v[i].0.as_str(), key.as_str()) {
            assert(s[i as int].0 == key@);
            v.set(i, (key, value));
            let ghost t = pair_views(v@);
            assert(t =~= s.update(i as int, (key@, value)));
            assert(distinct_keys(t)) by {
                assert forall|a: int, b: int| 0 <= a < b < t.len() implies (#[trigger] t[a]).0 != (#[trigger] t[b]).0 by {
                    assert(t[a].0 == s[a].0 && t[b].0 == s[b].0);
                }
            }
            proof {
                lemma_pairs_map_distinct(s);
                lemma_pairs_map_distinct(t);
                assert(pairs_map(t) =~= pairs_map(s).insert(key@, value)) by {
                    assert forall|k: Seq<char>| #[trigger] pairs_map(t).contains_key(k) <==> pairs_map(s).insert(key@, value).contains_key(k) by {
                        if pairs_map(t).contains_key(k) {
                            let j = choose|j: int| 0 <= j < t.len() && (#[trigger] t[j]).0 == k;
                            assert(s[j].0 == k);
                        }
                        if pairs_map(s).contains_key(k) {
                            let j = choose|j: int| 0 <= j < s.len() && (#[trigger] s[j]).0 == k;
                            assert(t[j].0 == k);
                        }
                        if k == key@ {
                            assert(t[i as int].0 == k);
                        }
                    }
                    assert forall|k: Seq<char>| #[trigger] pairs_map(t).contains_key(k) implies pairs_map(t)[k] == pairs_map(s).insert(key@, value)[k] by {
                        let j = choose|j: int| 0 <= j < t.len() && (#[trigger] t[j]).0 == k;
                        assert(s[j].0 == k);
                    }
                }
            }
            return;
        }
        i = i + 1;
    }
    let ghost kv = key@;
    v.push((key, value));
    let ghost t = pair_views(v@);
    assert(t =~= s.push((kv, value)));
    assert(t.drop_last() =~= s);
    assert(t.last() == (kv, value));
    assert(pairs_map(t) == pairs_map(s).insert(kv, value));
    assert(distinct_keys(t)) by {
        assert forall|a: int, b: int| 0 <= a < b < t.len() implies (#[trigger] t[a]).0 != (#[trigger] t[b]).0 by {
            if b == t.len() - 1 {
                assert(t[a] == s[a]);
            } else {
                assert(t[a] == s[a] && t[b] == s[b]);
            }
        }
    }
}

} // verus!
