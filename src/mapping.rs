use vstd::prelude::*;

verus! {

/// The byte-string view of a list of byte-string pairs.
pub open spec fn bytes_pairs(v: Seq<(Vec<u8>, Vec<u8>)>) -> Seq<(Seq<u8>, Seq<u8>)> {
    v.map_values(|p: (Vec<u8>, Vec<u8>)| (p.0@, p.1@))
}

/// The mapping that a list of pairs builds when inserted in order: a later
/// pair overrides an earlier one with the same key.
pub open spec fn pairs_map(s: Seq<(Seq<u8>, Seq<u8>)>) -> Map<Seq<u8>, Seq<u8>>
    decreases s.len(),
{
    if s.len() == 0 {
        Map::empty()
    } else {
        pairs_map(s.drop_last()).insert(s.last().0, s.last().1)
    }
}

/// No key occurs twice.
pub open spec fn keys_unique(s: Seq<(Seq<u8>, Seq<u8>)>) -> bool {
    forall|i: int, j: int| 0 <= i < j < s.len() ==> s[i].0 != s[j].0
}

/// Replacing the value of a key that occurs once inserts the new value.
proof fn lemma_update_existing(s: Seq<(Seq<u8>, Seq<u8>)>, i: int, v: Seq<u8>)
    requires
        keys_unique(s),
        0 <= i < s.len(),
    ensures
        pairs_map(s.update(i, (s[i].0, v))) == pairs_map(s).insert(s[i].0, v),
    decreases s.len(),
{
    let k = s[i].0;
    let t = s.update(i, (k, v));
    if i == s.len() - 1 {
        assert(t.drop_last() =~= s.drop_last());
        assert(pairs_map(t) =~= pairs_map(s).insert(k, v));
    } else {
        let s2 = s.drop_last();
        assert(t.drop_last() =~= s2.update(i, (k, v)));
        lemma_update_existing(s2, i, v);
        assert(s.last().0 != k);
        assert(pairs_map(t) =~= pairs_map(s).insert(k, v));
    }
}

/// The keys of `pairs_map(s)` are the keys that occur in `s`.
pub proof fn lemma_pairs_map_keys(s: Seq<(Seq<u8>, Seq<u8>)>, k: Seq<u8>)
    ensures
        pairs_map(s).contains_key(k) <==> exists|i: int| 0 <= i < s.len() && s[i].0 == k,
    decreases s.len(),
{
    if s.len() > 0 {
        let t = s.drop_last();
        lemma_pairs_map_keys(t, k);
        if pairs_map(s).contains_key(k) {
            if k == s.last().0 {
                assert(s[s.len() - 1].0 == k);
            } else {
                let i = choose|i: int| 0 <= i < t.len() && t[i].0 == k;
                assert(s[i].0 == k);
            }
        }
        if exists|i: int| 0 <= i < s.len() && s[i].0 == k {
            let i = choose|i: int| 0 <= i < s.len() && s[i].0 == k;
            if i < s.len() - 1 {
                assert(t[i].0 == k);
            }
        }
    }
}

/// A key maps to the value of the last pair that holds it.
pub proof fn lemma_pairs_map_last(s: Seq<(Seq<u8>, Seq<u8>)>, j: int)
    requires
        0 <= j < s.len(),
        forall|l: int| j < l < s.len() ==> s[l].0 != s[j].0,
    ensures
        pairs_map(s).contains_key(s[j].0),
        pairs_map(s)[s[j].0] == s[j].1,
    decreases s.len(),
{
    if j < s.len() - 1 {
        let t = s.drop_last();
        assert(t[j] == s[j]);
        lemma_pairs_map_last(t, j);
    }
}

/// Whether two byte strings are equal.
pub fn bytes_eq(a: &Vec<u8>, b: &Vec<u8>) -> (r: bool)
    ensures
        r == (a@ == b@),
{
    if a.len() != b.len() {
        return false;
    }
    let mut i: usize = 0;
    while i < a.len()
        invariant
            i <= a.len(),
            a.len() == b.len(),
            forall|j: int| 0 <= j < i ==> a@[j] == b@[j],
        decreases a.len() - i,
    {
        if a[i] != b[i] {
            return false;
        }
        i = i + 1;
    }
    assert(a@ =~= b@);
    true
}

/// Sets `key` to `value` in a list of pairs with unique keys: replaces the
/// pair with that key, or appends a new one.
pub fn insert_last_wins(v: &mut Vec<(Vec<u8>, Vec<u8>)>, key: Vec<u8>, value: Vec<u8>)
    requires
        keys_unique(bytes_pairs(old(v)@)),
    ensures
        keys_unique(bytes_pairs(final(v)@)),
        pairs_map(bytes_pairs(final(v)@)) == pairs_map(bytes_pairs(old(v)@)).insert(key@, value@),
{
    let ghost s = bytes_pairs(v@);
    let mut i: usize = 0;
    while i < v.len()
        invariant
            i <= v.len(),
            s == bytes_pairs(v@),
            v@ == old(v)@,
            keys_unique(s),
            forall|j: int| 0 <= j < i ==> s[j].0 != key@,
        decreases v.len() - i,
    {
        if bytes_eq(&v[i].0, &key) {
            proof {
                lemma_update_existing(s, i as int, value@);
            }
            v[i] = (key, value);
            proof {
                assert(bytes_pairs(v@) =~= s.update(i as int, (s[i as int].0, value@)));
                assert(keys_unique(bytes_pairs(v@)));
            }
            return;
        }
        i = i + 1;
    }
    v.push((key, value));
    proof {
        let t = bytes_pairs(v@);
        assert(t =~= s.push((key@, value@)));
        assert(t.drop_last() =~= s);
    }
}

} // verus!
