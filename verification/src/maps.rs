//! Maps from names to values, kept as vectors of pairs.
use vstd::prelude::*;
use vstd::string::*;
use crate::text::str_eq;

verus! {

/// A map from names to text, as pairs; a later pair for a name overrides an
/// earlier one, as successive inserts into a map do.
pub type StringMap = Vec<(String, String)>;

/// Plain view of string pairs.
pub open spec fn pairs_view(s: Seq<(String, String)>) -> Seq<(Seq<char>, Seq<char>)> {
    s.map_values(|p: (String, String)| (p.0@, p.1@))
}

/// The map that inserting the pairs in order builds.
pub open spec fn pairs_map<V>(s: Seq<(Seq<char>, V)>) -> Map<Seq<char>, V>
    decreases s.len(),
{
    if s.len() == 0 {
        Map::empty()
    } else {
        pairs_map(s.drop_last()).insert(s.last().0, s.last().1)
    }
}

/// No name occurs twice.
pub open spec fn keys_unique<V>(s: Seq<(Seq<char>, V)>) -> bool {
    forall|i: int, j: int| 0 <= i < j < s.len() ==> s[i].0 != s[j].0
}

/// The value of the first pair with the given name.
pub open spec fn lookup_first<V>(s: Seq<(Seq<char>, V)>, k: Seq<char>) -> Option<V>
    decreases s.len(),
{
    if s.len() == 0 {
        None
    } else if s[0].0 == k {
        Some(s[0].1)
    } else {
        lookup_first(s.drop_first(), k)
    }
}

/// Inserting pairs after others is a union that prefers the later pairs.
pub proof fn lemma_pairs_map_concat<V>(s: Seq<(Seq<char>, V)>, t: Seq<(Seq<char>, V)>)
    ensures
        pairs_map(s + t) == pairs_map(s).union_prefer_right(pairs_map(t)),
    decreases t.len(),
{
    if t.len() == 0 {
        assert(s + t =~= s);
        assert(pairs_map(s).union_prefer_right(Map::empty()) =~= pairs_map(s));
    } else {
        lemma_pairs_map_concat(s, t.drop_last());
        assert((s + t).drop_last() =~= s + t.drop_last());
        assert((s + t).last() == t.last());
        assert(pairs_map(s + t) =~= pairs_map(s).union_prefer_right(pairs_map(t)));
    }
}

/// The names a pair map holds are the names of its pairs.
pub proof fn lemma_keys_of_pairs_map<V>(s: Seq<(Seq<char>, V)>, k: Seq<char>)
    ensures
        pairs_map(s).contains_key(k) <==> exists|j: int| 0 <= j < s.len() && s[j].0 == k,
    decreases s.len(),
{
    if s.len() > 0 {
        let t = s.drop_last();
        lemma_keys_of_pairs_map(t, k);
        if pairs_map(s).contains_key(k) {
            if k == s.last().0 {
                assert(s[s.len() - 1].0 == k);
            } else {
                assert(pairs_map(t).contains_key(k));
                let j = choose|j: int| 0 <= j < t.len() && t[j].0 == k;
                assert(s[j].0 == k);
            }
        }
        if exists|j: int| 0 <= j < s.len() && s[j].0 == k {
            let j = choose|j: int| 0 <= j < s.len() && s[j].0 == k;
            if j < s.len() - 1 {
                assert(t[j].0 == k);
            }
        }
    }
}

/// With unique names, the map holds for each name the value of its pair.
pub proof fn lemma_pairs_map_unique<V>(s: Seq<(Seq<char>, V)>, i: int)
    requires
        keys_unique(s),
        0 <= i < s.len(),
    ensures
        pairs_map(s).contains_key(s[i].0),
        pairs_map(s)[s[i].0] == s[i].1,
    decreases s.len(),
{
    if i < s.len() - 1 {
        let t = s.drop_last();
        assert(keys_unique(t)) by {
            assert forall|a: int, b: int| 0 <= a < b < t.len() implies t[a].0 != t[b].0 by {
                assert(t[a] == s[a] && t[b] == s[b]);
            }
        }
        assert(t[i] == s[i]);
        lemma_pairs_map_unique(t, i);
        assert(s[i].0 != s[s.len() - 1].0);
    }
}

/// Position of the first pair named `key`, if any.
pub fn find_key<V>(pairs: &Vec<(String, V)>, key: &str) -> (res: Option<usize>)
    ensures
        match res {
            Some(i) => i < pairs@.len() && pairs@[i as int].0@ == key@ && forall|j: int|
                0 <= j < i ==> pairs@[j].0@ != key@,
            None => forall|j: int| 0 <= j < pairs@.len() ==> pairs@[j].0@ != key@,
        },
{
    let n = pairs.len();
    let mut i: usize = 0;
    while i < n
        invariant
            n == pairs@.len(),
            i <= n,
            forall|j: int| 0 <= j < i ==> pairs@[j].0@ != key@,
        decreases n - i,
    {
        if str_eq(pairs[i].0.as_str(), key) {
            return Some(i);
        }
        i += 1;
    }
    None
}

/// Insert into a map of names to text: replace the value of the name if it is
/// there, add the pair otherwise.
pub fn insert_string(map: &mut StringMap, key: String, value: String)
    requires
        keys_unique(pairs_view(old(map)@)),
    ensures
        pairs_map(pairs_view(final(map)@)) == pairs_map(pairs_view(old(map)@)).insert(key@, value@),
        keys_unique(pairs_view(final(map)@)),
        pairs_view(final(map)@) == insert_pair(pairs_view(old(map)@), (key@, value@)),
{
    let ghost before = pairs_view(map@);
    proof {
        lemma_key_index(before, key@);
    }
    match find_key(map, key.as_str()) {
        Some(i) => {
            map.set(i, (key, value));
            proof {
                let after = pairs_view(map@);
                assert(after =~= before.update(i as int, (key@, value@)));
                let m = key_index(before, key@);
                if m != i {
                    if m < 0 {
                        assert(before[i as int].0 == key@);
                    } else if m < i {
                        assert(before[m].0 == key@);
                    } else {
                        assert(before[i as int].0 == key@);
                    }
                }
                assert(before[i as int].0 == key@);
                assert forall|j: int| 0 <= j < before.len() && j != i implies before[j].0 != key@ by {
                    if j < i {
                        assert(before[j].0 != before[i as int].0);
                    } else {
                        assert(before[i as int].0 != before[j].0);
                    }
                }
                lemma_pairs_map_update(before, i as int, key@, value@);
            }
        },
        None => {
            map.push((key, value));
            proof {
                let after = pairs_view(map@);
                assert(after =~= before.push((key@, value@)));
                if key_index(before, key@) >= 0 {
                    assert(before[key_index(before, key@)].0 == key@);
                }
                assert(after.drop_last() =~= before);
                assert(pairs_map(after) == pairs_map(before).insert(key@, value@));
                assert forall|j: int| 0 <= j < before.len() implies before[j].0 != key@ by {
                    assert(before[j].0 == map@[j].0@);
                }
            }
        },
    }
}

/// Overwriting the value of a name's first pair is inserting it, when no
/// earlier pair has that name... and later pairs of the same name do not occur.
proof fn lemma_pairs_map_update<V>(s: Seq<(Seq<char>, V)>, i: int, k: Seq<char>, v: V)
    requires
        0 <= i < s.len(),
        s[i].0 == k,
        forall|j: int| 0 <= j < s.len() && j != i ==> s[j].0 != k,
    ensures
        pairs_map(s.update(i, (k, v))) == pairs_map(s).insert(k, v),
    decreases s.len(),
{
    let u = s.update(i, (k, v));
    if i == s.len() - 1 {
        assert(u.drop_last() =~= s.drop_last());
        assert(pairs_map(u) =~= pairs_map(s).insert(k, v));
    } else {
        lemma_pairs_map_update(s.drop_last(), i, k, v);
        assert(u.drop_last() =~= s.drop_last().update(i, (k, v)));
        assert(u.last() == s.last());
        assert(s.last().0 != k);
        assert(pairs_map(u) =~= pairs_map(s).insert(k, v));
    }
}

/// The value a map holds for a name, if any.
pub open spec fn map_lookup(m: Map<Seq<char>, Seq<char>>, k: Seq<char>) -> Option<Seq<char>> {
    if m.contains_key(k) {
        Some(m[k])
    } else {
        None
    }
}

/// The value of the last pair named `key` (what a map built by inserting the
/// pairs in order holds for it).
pub fn lookup<'a>(pairs: &'a StringMap, key: &str) -> (res: Option<&'a String>)
    ensures
        match res {
            Some(v) => map_lookup(pairs_map(pairs_view(pairs@)), key@) == Some(v@),
            None => map_lookup(pairs_map(pairs_view(pairs@)), key@) is None,
        },
{
    let ghost pv = pairs_view(pairs@);
    let mut found: Option<&'a String> = None;
    let n = pairs.len();
    let mut i: usize = 0;
    while i < n
        invariant
            n == pairs@.len(),
            pv == pairs_view(pairs@),
            i <= n,
            match found {
                Some(v) => map_lookup(pairs_map(pv.take(i as int)), key@) == Some(v@),
                None => map_lookup(pairs_map(pv.take(i as int)), key@) is None,
            },
        decreases n - i,
    {
        proof {
            assert(pv.take(i + 1).drop_last() =~= pv.take(i as int));
        }
        if str_eq(pairs[i].0.as_str(), key) {
            found = Some(&pairs[i].1);
        }
        i += 1;
    }
    assert(pv.take(n as int) =~= pv);
    found
}

/// Position of the first pair named `k`, or -1 when there is none.
pub open spec fn key_index<V>(s: Seq<(Seq<char>, V)>, k: Seq<char>) -> int
    decreases s.len(),
{
    if s.len() == 0 {
        -1
    } else if key_index(s.drop_last(), k) >= 0 {
        key_index(s.drop_last(), k)
    } else if s.last().0 == k {
        s.len() - 1
    } else {
        -1
    }
}

/// The pairs after inserting `p`: the first pair with its name takes its
/// value, or `p` comes last when no pair has its name.
pub open spec fn insert_pair<V>(s: Seq<(Seq<char>, V)>, p: (Seq<char>, V)) -> Seq<(Seq<char>, V)> {
    if key_index(s, p.0) >= 0 {
        s.update(key_index(s, p.0), p)
    } else {
        s.push(p)
    }
}

/// The pairs that inserting each pair of `s`, in order, gives: each name
/// once, at the place where it first occurs, with its last value.
pub open spec fn inserted_pairs<V>(s: Seq<(Seq<char>, V)>) -> Seq<(Seq<char>, V)>
    decreases s.len(),
{
    if s.len() == 0 {
        Seq::empty()
    } else {
        insert_pair(inserted_pairs(s.drop_last()), s.last())
    }
}

proof fn lemma_key_index<V>(s: Seq<(Seq<char>, V)>, k: Seq<char>)
    ensures
        -1 <= key_index(s, k) < s.len(),
        key_index(s, k) >= 0 ==> s[key_index(s, k)].0 == k,
        forall|j: int| 0 <= j < s.len() && (key_index(s, k) == -1 || j < key_index(s, k)) ==> s[j].0 != k,
    decreases s.len(),
{
    if s.len() > 0 {
        let t = s.drop_last();
        lemma_key_index(t, k);
        assert forall|j: int| 0 <= j < s.len() && (key_index(s, k) == -1 || j < key_index(s, k)) implies s[j].0 != k by {
            if j < t.len() {
                assert(s[j] == t[j]);
            }
        }
        if key_index(t, k) >= 0 {
            assert(s[key_index(t, k)] == t[key_index(t, k)]);
        }
    }
}

/// The pairs of a map with each name once: the pairs inserted in order.
pub fn inserted_pairs_of(pairs: &StringMap) -> (res: StringMap)
    ensures
        pairs_view(res@) == inserted_pairs(pairs_view(pairs@)),
        keys_unique(pairs_view(res@)),
        pairs_map(pairs_view(res@)) == pairs_map(pairs_view(pairs@)),
{
    let ghost pv = pairs_view(pairs@);
    let mut out: StringMap = Vec::new();
    let n = pairs.len();
    let mut i: usize = 0;
    proof {
        assert(pairs_view(out@) =~= Seq::<(Seq<char>, Seq<char>)>::empty());
        assert(pv.take(0) =~= Seq::<(Seq<char>, Seq<char>)>::empty());
    }
    while i < n
        invariant
            n == pairs@.len(),
            pv == pairs_view(pairs@),
            i <= n,
            keys_unique(pairs_view(out@)),
            pairs_view(out@) == inserted_pairs(pv.take(i as int)),
            pairs_map(pairs_view(out@)) == pairs_map(pv.take(i as int)),
        decreases n - i,
    {
        proof {
            assert(pv.take(i + 1).drop_last() =~= pv.take(i as int));
            assert(pv.take(i + 1).last() == pv[i as int]);
        }
        insert_string(&mut out, pairs[i].0.clone(), pairs[i].1.clone());
        i += 1;
    }
    assert(pv.take(n as int) =~= pv);
    out
}

} // verus!
