use vstd::prelude::*;

verus! {

// Bindings from names to values, kept as a sequence of pairs in which each
// name occurs at most once; binding a name again replaces its value in place.

/// Position of the binding of `k` in `s` (the last one), or -1.
pub open spec fn env_index<V>(s: Seq<(Seq<char>, V)>, k: Seq<char>) -> int
    decreases s.len(),
{
    if s.len() == 0 {
        -1
    } else if s.last().0 == k {
        s.len() - 1
    } else {
        env_index(s.drop_last(), k)
    }
}

pub open spec fn env_lookup<V>(s: Seq<(Seq<char>, V)>, k: Seq<char>) -> Option<V> {
    let i = env_index(s, k);
    if i < 0 {
        None
    } else {
        Some(s[i].1)
    }
}

/// Binding `k` to `v`: an existing binding of `k` is replaced in place,
/// otherwise the binding is appended.
pub open spec fn env_insert<V>(s: Seq<(Seq<char>, V)>, k: Seq<char>, v: V) -> Seq<(Seq<char>, V)> {
    let i = env_index(s, k);
    if i < 0 {
        s.push((k, v))
    } else {
        s.update(i, (k, v))
    }
}

/// Names are bound at most once.
pub open spec fn keys_unique<V>(s: Seq<(Seq<char>, V)>) -> bool {
    forall|a: int, b: int| 0 <= a < b < s.len() ==> s[a].0 != s[b].0
}

pub proof fn lemma_env_index<V>(s: Seq<(Seq<char>, V)>, k: Seq<char>)
    ensures
        -1 <= env_index(s, k) < s.len(),
        env_index(s, k) >= 0 ==> s[env_index(s, k)].0 == k,
        env_index(s, k) < 0 ==> forall|j: int| 0 <= j < s.len() ==> s[j].0 != k,
        forall|j: int| env_index(s, k) < j < s.len() ==> s[j].0 != k,
    decreases s.len(),
{
    if s.len() > 0 {
        let t = s.drop_last();
        lemma_env_index(t, k);
        assert forall|j: int| 0 <= j < t.len() implies #[trigger] s[j] == t[j] by {}
    }
}

/// A lookup after a binding of the same name gives the bound value.
pub proof fn lemma_lookup_insert_same<V>(s: Seq<(Seq<char>, V)>, k: Seq<char>, v: V)
    ensures
        env_lookup(env_insert(s, k, v), k) == Some(v),
{
    lemma_env_index(s, k);
    let t = env_insert(s, k, v);
    lemma_env_index(t, k);
    let i = env_index(s, k);
    if i >= 0 {
        let j = env_index(t, k);
        assert(t[i].0 == k);
        if j > i {
            assert(t[j] == s[j]);
        }
        assert(j == i);
    }
}

/// A binding leaves the lookup of every other name unchanged.
pub proof fn lemma_lookup_insert_other<V>(s: Seq<(Seq<char>, V)>, k: Seq<char>, v: V, k2: Seq<char>)
    requires
        k2 != k,
    ensures
        env_lookup(env_insert(s, k, v), k2) == env_lookup(s, k2),
{
    lemma_env_index(s, k);
    lemma_env_index(s, k2);
    let t = env_insert(s, k, v);
    lemma_env_index(t, k2);
    let i = env_index(s, k2);
    let i2 = env_index(t, k2);
    if i >= 0 {
        assert(t[i].0 == k2);
        assert(i2 == i);
    } else {
        assert(i2 < 0);
    }
}

/// Binding keeps names unique.
pub proof fn lemma_insert_keeps_unique<V>(s: Seq<(Seq<char>, V)>, k: Seq<char>, v: V)
    requires
        keys_unique(s),
    ensures
        keys_unique(env_insert(s, k, v)),
{
    lemma_env_index(s, k);
}

/// The model of a list of named values.
pub open spec fn pairs_view<T: View>(s: Seq<(String, T)>) -> Seq<(Seq<char>, T::V)> {
    s.map_values(|p: (String, T)| (p.0@, p.1@))
}

/// Position of the binding of `name` in `entries`, if any.
pub fn position_of<T: View>(entries: &Vec<(String, T)>, name: &String) -> (res: Option<usize>)
    ensures
        match res {
            Some(i) => i == env_index(pairs_view(entries@), name@) && i < entries@.len(),
            None => env_index(pairs_view(entries@), name@) < 0,
        },
{
    let ghost pv = pairs_view(entries@);
    let mut i: usize = entries.len();
    assert(pv.subrange(0, i as int) =~= pv);
    while i > 0
        invariant
            i <= entries@.len(),
            pv == pairs_view(entries@),
            env_index(pv, name@) == env_index(pv.subrange(0, i as int), name@),
        decreases i,
    {
        let ghost pre = pv.subrange(0, i as int);
        if entries[i - 1].0 == *name {
            assert(pre.last().0 == name@);
            return Some(i - 1);
        }
        assert(pre.drop_last() =~= pv.subrange(0, i - 1));
        i = i - 1;
    }
    None
}

/// Binds `name` to `value` in `entries`, replacing an earlier binding.
pub fn insert_pair<T: View>(entries: &mut Vec<(String, T)>, name: String, value: T)
    ensures
        pairs_view(final(entries)@) == env_insert(pairs_view(old(entries)@), name@, value@),
{
    let ghost k = name@;
    let ghost v = value@;
    match position_of(entries, &name) {
        Some(i) => {
            entries.set(i, (name, value));
            assert(pairs_view(entries@) =~= pairs_view(old(entries)@).update(i as int, (k, v)));
        },
        None => {
            entries.push((name, value));
            assert(pairs_view(entries@) =~= pairs_view(old(entries)@).push((k, v)));
        },
    }
}

} // verus!
