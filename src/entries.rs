use vstd::prelude::*;

verus! {

/// The map that a list of entries keyed by account or token name stands for;
/// a later entry for a key overrides an earlier one.
pub open spec fn entries_map<V>(s: Seq<(String, V)>) -> Map<Seq<char>, V>
    decreases s.len(),
{
    if s.len() == 0 {
        Map::empty()
    } else {
        entries_map(s.drop_last()).insert(s.last().0@, s.last().1)
    }
}

/// No key occurs twice in the list.
pub open spec fn keys_distinct<V>(s: Seq<(String, V)>) -> bool {
    forall|i: int, j: int| 0 <= i < j < s.len() ==> s[i].0@ != s[j].0@
}

pub proof fn lemma_entries_contains<V>(s: Seq<(String, V)>, k: Seq<char>)
    ensures
        entries_map(s).contains_key(k) <==> exists|i: int| 0 <= i < s.len() && s[i].0@ == k,
    decreases s.len(),
{
    if s.len() > 0 {
        let t = s.drop_last();
        lemma_entries_contains(t, k);
        if t.len() > 0 && entries_map(t).contains_key(k) {
            let i = choose|i: int| 0 <= i < t.len() && t[i].0@ == k;
            assert(s[i].0@ == k);
        }
        if exists|i: int| 0 <= i < s.len() && s[i].0@ == k {
            let i = choose|i: int| 0 <= i < s.len() && s[i].0@ == k;
            if i < s.len() - 1 {
                assert(t[i].0@ == k);
            }
        }
    }
}

pub proof fn lemma_entries_index<V>(s: Seq<(String, V)>, i: int)
    requires
        keys_distinct(s),
        0 <= i < s.len(),
    ensures
        entries_map(s).contains_key(s[i].0@),
        entries_map(s)[s[i].0@] == s[i].1,
    decreases s.len(),
{
    if i < s.len() - 1 {
        let t = s.drop_last();
        assert(keys_distinct(t));
        lemma_entries_index(t, i);
        assert(t[i] == s[i]);
    }
}

/// Removing the entry at `i` removes its key from the map.
pub proof fn lemma_entries_remove<V>(s: Seq<(String, V)>, i: int)
    requires
        keys_distinct(s),
        0 <= i < s.len(),
    ensures
        keys_distinct(s.remove(i)),
        entries_map(s.remove(i)) == entries_map(s).remove(s[i].0@),
    decreases s.len(),
{
    let t = s.drop_last();
    assert(keys_distinct(t));
    let k = s[i].0@;
    if i == s.len() - 1 {
        assert(s.remove(i) =~= t);
        lemma_entries_contains(t, k);
        assert(!entries_map(t).contains_key(k));
        assert(entries_map(s).remove(k) =~= entries_map(t));
    } else {
        lemma_entries_remove(t, i);
        assert(s.remove(i).drop_last() =~= t.remove(i));
        assert(s.remove(i).last() == s.last());
        assert(s.last().0@ != k);
        assert(entries_map(s.remove(i)) =~= entries_map(s).remove(k));
    }
}

/// The index of the entry for `k`, if there is one.
pub fn find_entry<V>(v: &Vec<(String, V)>, k: &String) -> (r: Option<usize>)
    ensures
        match r {
            Some(i) => i < v@.len() && v@[i as int].0@ == k@,
            None => !entries_map(v@).contains_key(k@),
        },
{
    let mut i: usize = 0;
    while i < v.len()
        invariant
            i <= v@.len(),
            forall|j: int| 0 <= j < i ==> v@[j].0@ != k@,
        decreases v@.len() - i,
    {
        if v[i].0 == *k {
            return Some(i);
        }
        i = i + 1;
    }
    proof {
        lemma_entries_contains(v@, k@);
    }
    None
}

/// Whether no key occurs twice in `v`.
pub fn entries_distinct<V>(v: &Vec<(String, V)>) -> (r: bool)
    ensures
        r == keys_distinct(v@),
{
    let mut i: usize = 0;
    while i < v.len()
        invariant
            i <= v@.len(),
            forall|a: int, b: int| 0 <= a < b < v@.len() && a < i ==> v@[a].0@ != v@[b].0@,
        decreases v@.len() - i,
    {
        let mut j: usize = i + 1;
        while j < v.len()
            invariant
                i < v@.len(),
                i + 1 <= j <= v@.len(),
                forall|a: int, b: int| 0 <= a < b < v@.len() && a < i ==> v@[a].0@ != v@[b].0@,
                forall|b: int| i < b < j ==> v@[i as int].0@ != v@[b].0@,
            decreases v@.len() - j,
        {
            if v[i].0 == v[j].0 {
                return false;
            }
            j = j + 1;
        }
        i = i + 1;
    }
    true
}

/// Under distinct keys, every value of the map is the value of some entry, and
/// back.
pub proof fn lemma_entries_values<V>(s: Seq<(String, V)>, p: spec_fn(V) -> bool)
    requires
        keys_distinct(s),
    ensures
        (forall|k: Seq<char>| #[trigger] entries_map(s).contains_key(k) ==> p(entries_map(s)[k]))
            <==> (forall|i: int| 0 <= i < s.len() ==> p(#[trigger] s[i].1)),
{
    if forall|k: Seq<char>| #[trigger] entries_map(s).contains_key(k) ==> p(entries_map(s)[k]) {
        assert forall|i: int| 0 <= i < s.len() implies p(#[trigger] s[i].1) by {
            lemma_entries_index(s, i);
        }
    }
    if forall|i: int| 0 <= i < s.len() ==> p(#[trigger] s[i].1) {
        assert forall|k: Seq<char>| #[trigger] entries_map(s).contains_key(k) implies p(
            entries_map(s)[k],
        ) by {
            lemma_entries_contains(s, k);
            let i = choose|i: int| 0 <= i < s.len() && s[i].0@ == k;
            lemma_entries_index(s, i);
        }
    }
}

/// A copy of a list of entries.
pub fn clone_entries<V: Copy>(v: &Vec<(String, V)>) -> (r: Vec<(String, V)>)
    ensures
        r@ == v@,
{
    let mut r: Vec<(String, V)> = Vec::new();
    let mut i: usize = 0;
    while i < v.len()
        invariant
            i <= v@.len(),
            r@ == v@.take(i as int),
        decreases v@.len() - i,
    {
        r.push((v[i].0.clone(), v[i].1));
        assert(r@ =~= v@.take(i + 1));
        i = i + 1;
    }
    assert(v@.take(i as int) =~= v@);
    r
}

/// The value of the entry for `k`, if there is one.
pub fn get_entry<'a, V>(v: &'a Vec<(String, V)>, k: &String) -> (r: Option<&'a V>)
    requires
        keys_distinct(v@),
    ensures
        match r {
            Some(x) => entries_map(v@).contains_key(k@) && *x == entries_map(v@)[k@],
            None => !entries_map(v@).contains_key(k@),
        },
{
    match find_entry(v, k) {
        Some(i) => {
            proof {
                lemma_entries_index(v@, i as int);
            }
            Some(&v[i].1)
        },
        None => None,
    }
}

/// Sets the entry for `k` to `val`, keeping keys distinct.
pub fn put_entry<V>(v: &mut Vec<(String, V)>, k: String, val: V)
    requires
        keys_distinct(old(v)@),
    ensures
        keys_distinct(final(v)@),
        entries_map(final(v)@) == entries_map(old(v)@).insert(k@, val),
{
    match find_entry(v, &k) {
        Some(i) => {
            proof {
                lemma_entries_remove(v@, i as int);
            }
            v.remove(i);
        },
        None => {},
    }
    let ghost mid = v@;
    let ghost before = entries_map(old(v)@);
    assert(entries_map(mid) == before.remove(k@));
    proof {
        lemma_entries_contains(mid, k@);
    }
    v.push((k, val));
    assert(v@.drop_last() == mid);
    assert(entries_map(v@) =~= before.insert(k@, val));
}

/// Takes out the entry for `k` and returns its value, if there is one.
pub fn remove_entry<V>(v: &mut Vec<(String, V)>, k: &String) -> (r: Option<V>)
    requires
        keys_distinct(old(v)@),
    ensures
        keys_distinct(final(v)@),
        entries_map(final(v)@) == entries_map(old(v)@).remove(k@),
        r == entries_map(old(v)@).get(k@),
{
    match find_entry(v, k) {
        Some(i) => {
            proof {
                lemma_entries_remove(v@, i as int);
                lemma_entries_index(v@, i as int);
            }
            let (_, val) = v.remove(i);
            Some(val)
        },
        None => {
            assert(entries_map(v@).remove(k@) =~= entries_map(v@));
            None
        },
    }
}

} // verus!
