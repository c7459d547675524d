//! Finite sets and maps kept in vectors.
//!
//! A set of paths is a `Vec<String>` whose views are pairwise distinct; a map
//! is a vector of `(key, value)` pairs whose keys are pairwise distinct. The
//! spec functions here give the mathematical set or map such a vector stands
//! for, and the lemmas relate the vector operations to the set and map ones.

use vstd::prelude::*;

verus! {

/// The views of a sequence of strings.
pub open spec fn str_views(s: Seq<String>) -> Seq<Seq<char>> {
    s.map_values(|p: String| p@)
}

/// No two entries of `s` have the same key.
pub open spec fn keys_distinct<K, V>(s: Seq<(K, V)>) -> bool {
    forall|i: int, j: int|
        0 <= i < s.len() && 0 <= j < s.len() && i != j ==> #[trigger] s[i].0 != #[trigger] s[j].0
}

/// The map that an association list stands for.
pub open spec fn assoc_map<K, V>(s: Seq<(K, V)>) -> Map<K, V> {
    Map::new(
        |k: K| exists|i: int| 0 <= i < s.len() && #[trigger] s[i].0 == k,
        |k: K| s[choose|i: int| 0 <= i < s.len() && #[trigger] s[i].0 == k].1,
    )
}

pub proof fn lemma_assoc_index<K, V>(s: Seq<(K, V)>, i: int)
    requires
        keys_distinct(s),
        0 <= i < s.len(),
    ensures
        assoc_map(s).contains_key(s[i].0),
        assoc_map(s)[s[i].0] == s[i].1,
{
    let k = s[i].0;
    assert(exists|j: int| 0 <= j < s.len() && #[trigger] s[j].0 == k);
    let j = choose|j: int| 0 <= j < s.len() && #[trigger] s[j].0 == k;
    assert(j == i);
}

pub proof fn lemma_assoc_push<K, V>(s: Seq<(K, V)>, k: K, v: V)
    requires
        keys_distinct(s),
        !assoc_map(s).contains_key(k),
    ensures
        keys_distinct(s.push((k, v))),
        assoc_map(s.push((k, v))) == assoc_map(s).insert(k, v),
{
    let t = s.push((k, v));
    assert forall|i: int| 0 <= i < s.len() implies #[trigger] s[i].0 != k by {
        if s[i].0 == k {
            assert(assoc_map(s).contains_key(k));
        }
    }
    assert(keys_distinct(t)) by {
        assert forall|i: int, j: int|
            0 <= i < t.len() && 0 <= j < t.len() && i != j implies #[trigger] t[i].0
            != #[trigger] t[j].0 by {
            if i < s.len() && j < s.len() {
                assert(t[i] == s[i] && t[j] == s[j]);
            } else if i < s.len() {
                assert(t[i] == s[i]);
            } else {
                assert(t[j] == s[j]);
            }
        }
    }
    let m = assoc_map(s).insert(k, v);
    assert forall|q: K| assoc_map(t).contains_key(q) <==> m.contains_key(q) by {
        if m.contains_key(q) {
            if q == k {
                assert(t[s.len() as int].0 == k);
            } else {
                let i = choose|i: int| 0 <= i < s.len() && #[trigger] s[i].0 == q;
                assert(t[i].0 == q);
            }
        }
        if assoc_map(t).contains_key(q) {
            let i = choose|i: int| 0 <= i < t.len() && #[trigger] t[i].0 == q;
            if i < s.len() {
                assert(s[i].0 == q);
            }
        }
    }
    assert forall|q: K| #[trigger] m.contains_key(q) implies assoc_map(t)[q] == m[q] by {
        if q == k {
            lemma_assoc_index(t, s.len() as int);
        } else {
            let i = choose|i: int| 0 <= i < s.len() && #[trigger] s[i].0 == q;
            lemma_assoc_index(s, i);
            assert(t[i] == s[i]);
            lemma_assoc_index(t, i);
        }
    }
    assert(assoc_map(t) =~= m);
}

pub proof fn lemma_assoc_remove<K, V>(s: Seq<(K, V)>, i: int)
    requires
        keys_distinct(s),
        0 <= i < s.len(),
    ensures
        keys_distinct(s.remove(i)),
        assoc_map(s.remove(i)) == assoc_map(s).remove(s[i].0),
{
    let t = s.remove(i);
    let k = s[i].0;
    assert forall|j: int| 0 <= j < t.len() implies #[trigger] t[j] == (if j < i {
        s[j]
    } else {
        s[j + 1]
    }) by {}
    assert(keys_distinct(t)) by {
        assert forall|a: int, b: int|
            0 <= a < t.len() && 0 <= b < t.len() && a != b implies #[trigger] t[a].0
            != #[trigger] t[b].0 by {
            let a2 = if a < i { a } else { a + 1 };
            let b2 = if b < i { b } else { b + 1 };
            assert(t[a] == s[a2] && t[b] == s[b2]);
        }
    }
    let m = assoc_map(s).remove(k);
    assert forall|q: K| assoc_map(t).contains_key(q) <==> m.contains_key(q) by {
        if m.contains_key(q) {
            let j = choose|j: int| 0 <= j < s.len() && #[trigger] s[j].0 == q;
            assert(j != i);
            let j2 = if j < i { j } else { j - 1 };
            assert(t[j2] == s[j]);
        }
        if assoc_map(t).contains_key(q) {
            let j = choose|j: int| 0 <= j < t.len() && #[trigger] t[j].0 == q;
            let j2 = if j < i { j } else { j + 1 };
            assert(t[j] == s[j2]);
            assert(s[j2].0 == q);
            assert(j2 != i);
        }
    }
    assert forall|q: K| #[trigger] m.contains_key(q) implies assoc_map(t)[q] == m[q] by {
        let j = choose|j: int| 0 <= j < s.len() && #[trigger] s[j].0 == q;
        assert(j != i);
        let j2 = if j < i { j } else { j - 1 };
        assert(t[j2] == s[j]);
        lemma_assoc_index(s, j);
        lemma_assoc_index(t, j2);
    }
    assert(assoc_map(t) =~= m);
}

pub proof fn lemma_assoc_update<K, V>(s: Seq<(K, V)>, i: int, v: V)
    requires
        keys_distinct(s),
        0 <= i < s.len(),
    ensures
        keys_distinct(s.update(i, (s[i].0, v))),
        assoc_map(s.update(i, (s[i].0, v))) == assoc_map(s).insert(s[i].0, v),
{
    let t = s.update(i, (s[i].0, v));
    let k = s[i].0;
    assert forall|j: int| 0 <= j < t.len() implies #[trigger] t[j].0 == s[j].0 by {}
    assert(keys_distinct(t)) by {
        assert forall|a: int, b: int|
            0 <= a < t.len() && 0 <= b < t.len() && a != b implies #[trigger] t[a].0
            != #[trigger] t[b].0 by {
            assert(t[a].0 == s[a].0 && t[b].0 == s[b].0);
        }
    }
    let m = assoc_map(s).insert(k, v);
    assert forall|q: K| assoc_map(t).contains_key(q) <==> m.contains_key(q) by {
        if m.contains_key(q) {
            if q == k {
                assert(t[i].0 == q);
            } else {
                let j = choose|j: int| 0 <= j < s.len() && #[trigger] s[j].0 == q;
                assert(t[j].0 == q);
            }
        }
        if assoc_map(t).contains_key(q) {
            let j = choose|j: int| 0 <= j < t.len() && #[trigger] t[j].0 == q;
            assert(s[j].0 == q);
        }
    }
    assert forall|q: K| #[trigger] m.contains_key(q) implies assoc_map(t)[q] == m[q] by {
        if q == k {
            lemma_assoc_index(t, i);
        } else {
            let j = choose|j: int| 0 <= j < s.len() && #[trigger] s[j].0 == q;
            assert(j != i);
            lemma_assoc_index(s, j);
            assert(t[j] == s[j]);
            lemma_assoc_index(t, j);
        }
    }
    assert(assoc_map(t) =~= m);
}


pub proof fn lemma_set_push<A>(s: Seq<A>, a: A)
    requires
        s.no_duplicates(),
        !s.contains(a),
    ensures
        s.push(a).no_duplicates(),
        s.push(a).to_set() == s.to_set().insert(a),
{
    let t = s.push(a);
    assert forall|i: int, j: int|
        0 <= i < t.len() && 0 <= j < t.len() && i != j implies t[i] != t[j] by {
        if i < s.len() && j < s.len() {
            assert(t[i] == s[i] && t[j] == s[j]);
        } else if i < s.len() {
            assert(t[i] == s[i]);
        } else {
            assert(t[j] == s[j]);
        }
    }
    assert forall|x: A| t.contains(x) <==> s.to_set().insert(a).contains(x) by {
        if t.contains(x) {
            let i = choose|i: int| 0 <= i < t.len() && t[i] == x;
            if i < s.len() {
                assert(s[i] == x);
            }
        }
        if s.contains(x) {
            let i = choose|i: int| 0 <= i < s.len() && s[i] == x;
            assert(t[i] == x);
        }
        if x == a {
            assert(t[s.len() as int] == a);
        }
    }
    assert(t.to_set() =~= s.to_set().insert(a));
}

pub proof fn lemma_set_remove<A>(s: Seq<A>, i: int)
    requires
        s.no_duplicates(),
        0 <= i < s.len(),
    ensures
        s.remove(i).no_duplicates(),
        s.remove(i).to_set() == s.to_set().remove(s[i]),
{
    let t = s.remove(i);
    assert forall|j: int| 0 <= j < t.len() implies #[trigger] t[j] == (if j < i {
        s[j]
    } else {
        s[j + 1]
    }) by {}
    assert forall|a: int, b: int|
        0 <= a < t.len() && 0 <= b < t.len() && a != b implies t[a] != t[b] by {
        let a2 = if a < i { a } else { a + 1 };
        let b2 = if b < i { b } else { b + 1 };
        assert(t[a] == s[a2] && t[b] == s[b2]);
    }
    assert forall|x: A| t.contains(x) <==> s.to_set().remove(s[i]).contains(x) by {
        if t.contains(x) {
            let j = choose|j: int| 0 <= j < t.len() && t[j] == x;
            let j2 = if j < i { j } else { j + 1 };
            assert(s[j2] == x);
            assert(j2 != i);
        }
        if s.contains(x) && x != s[i] {
            let j = choose|j: int| 0 <= j < s.len() && s[j] == x;
            assert(j != i);
            let j2 = if j < i { j } else { j - 1 };
            assert(t[j2] == x);
        }
    }
    assert(t.to_set() =~= s.to_set().remove(s[i]));
}

/// Taking one more path of `v` adds that path to the set of paths taken.
pub proof fn lemma_take_one_more_path(v: Seq<String>, i: int)
    requires
        0 <= i < v.len(),
    ensures
        str_views(v.take(i + 1)).to_set() == str_views(v.take(i)).to_set().insert(v[i]@),
{
    let a = str_views(v.take(i));
    let b = str_views(v.take(i + 1));
    assert(b =~= a.push(v[i]@));
    assert forall|x: Seq<char>| b.contains(x) <==> a.to_set().insert(v[i]@).contains(x) by {
        if b.contains(x) {
            let j = choose|j: int| 0 <= j < b.len() && b[j] == x;
            if j < a.len() {
                assert(a[j] == x);
            }
        }
        if a.contains(x) {
            let j = choose|j: int| 0 <= j < a.len() && a[j] == x;
            assert(b[j] == x);
        }
        if x == v[i]@ {
            assert(b[i] == x);
        }
    }
    assert(b.to_set() =~= a.to_set().insert(v[i]@));
}

/// The position of `p` in the path list `v`, if it occurs there.
pub fn find_path(v: &Vec<String>, p: &String) -> (r: Option<usize>)
    ensures
        match r {
            Some(i) => i < v.len() && str_views(v@)[i as int] == p@,
            None => !str_views(v@).contains(p@),
        },
{
    let mut i: usize = 0;
    while i < v.len()
        invariant
            i <= v.len(),
            forall|j: int| 0 <= j < i ==> str_views(v@)[j] != p@,
        decreases v.len() - i,
    {
        if v[i] == *p {
            return Some(i);
        }
        i += 1;
    }
    None
}

/// Adds `p` to the path set `v`; returns whether it was not there before.
pub fn insert_path(v: &mut Vec<String>, p: String) -> (added: bool)
    requires
        str_views(old(v)@).no_duplicates(),
    ensures
        str_views(final(v)@).no_duplicates(),
        str_views(final(v)@).to_set() == str_views(old(v)@).to_set().insert(p@),
        added == !str_views(old(v)@).to_set().contains(p@),
{
    match find_path(v, &p) {
        Some(i) => {
            proof {
                assert(str_views(v@).contains(p@));
                assert(str_views(v@).to_set().insert(p@) =~= str_views(v@).to_set());
            }
            false
        },
        None => {
            let ghost old_v = v@;
            v.push(p);
            proof {
                assert(str_views(v@) =~= str_views(old_v).push(p@));
                lemma_set_push(str_views(old_v), p@);
            }
            true
        },
    }
}

/// Removes `p` from the path set `v`; returns whether it was there.
pub fn remove_path(v: &mut Vec<String>, p: &String) -> (removed: bool)
    requires
        str_views(old(v)@).no_duplicates(),
    ensures
        str_views(final(v)@).no_duplicates(),
        str_views(final(v)@).to_set() == str_views(old(v)@).to_set().remove(p@),
        removed == str_views(old(v)@).to_set().contains(p@),
{
    match find_path(v, p) {
        Some(i) => {
            let ghost old_v = v@;
            v.remove(i);
            proof {
                assert(str_views(v@) =~= str_views(old_v).remove(i as int));
                lemma_set_remove(str_views(old_v), i as int);
                assert(str_views(old_v).contains(p@));
            }
            true
        },
        None => {
            proof {
                assert(str_views(v@).to_set().remove(p@) =~= str_views(v@).to_set());
            }
            false
        },
    }
}

/// Adds every path of `ps` to the path set `v`.
pub fn extend_paths(v: &mut Vec<String>, ps: &Vec<String>)
    requires
        str_views(old(v)@).no_duplicates(),
    ensures
        str_views(final(v)@).no_duplicates(),
        str_views(final(v)@).to_set() == str_views(old(v)@).to_set().union(str_views(ps@).to_set()),
{
    let ghost start = str_views(v@).to_set();
    let mut i: usize = 0;
    while i < ps.len()
        invariant
            i <= ps.len(),
            str_views(v@).no_duplicates(),
            str_views(v@).to_set() == start.union(str_views(ps@.take(i as int)).to_set()),
        decreases ps.len() - i,
    {
        let ghost before = str_views(v@).to_set();
        insert_path(v, ps[i].clone());
        proof {
            let b = str_views(ps@.take(i + 1));
            lemma_take_one_more_path(ps@, i as int);
            assert(str_views(v@).to_set() =~= start.union(b.to_set()));
        }
        i += 1;
    }
    proof {
        assert(ps@.take(ps.len() as int) =~= ps@);
    }
}


/// The views of a list of string pairs.
pub open spec fn str_pairs(s: Seq<(String, String)>) -> Seq<(Seq<char>, Seq<char>)> {
    s.map_values(|e: (String, String)| (e.0@, e.1@))
}

/// The position of the entry with key `k` in the pair list `v`, if any.
pub fn find_key(v: &Vec<(String, String)>, k: &String) -> (r: Option<usize>)
    ensures
        match r {
            Some(i) => i < v.len() && str_pairs(v@)[i as int].0 == k@,
            None => !assoc_map(str_pairs(v@)).contains_key(k@),
        },
{
    let mut i: usize = 0;
    while i < v.len()
        invariant
            i <= v.len(),
            forall|j: int| 0 <= j < i ==> str_pairs(v@)[j].0 != k@,
        decreases v.len() - i,
    {
        if v[i].0 == *k {
            return Some(i);
        }
        i += 1;
    }
    proof {
        if assoc_map(str_pairs(v@)).contains_key(k@) {
            let j = choose|j: int| 0 <= j < str_pairs(v@).len() && #[trigger] str_pairs(v@)[j].0 == k@;
            assert(str_pairs(v@)[j].0 != k@);
        }
    }
    None
}

/// Removes the entry with key `k` from the pair list `v` and returns its value.
pub fn take_key(v: &mut Vec<(String, String)>, k: &String) -> (r: Option<String>)
    requires
        keys_distinct(str_pairs(old(v)@)),
    ensures
        keys_distinct(str_pairs(final(v)@)),
        assoc_map(str_pairs(final(v)@)) == assoc_map(str_pairs(old(v)@)).remove(k@),
        match r {
            Some(x) => assoc_map(str_pairs(old(v)@)).contains_key(k@) && x@ == assoc_map(
                str_pairs(old(v)@),
            )[k@],
            None => !assoc_map(str_pairs(old(v)@)).contains_key(k@),
        },
{
    match find_key(v, k) {
        Some(i) => {
            let ghost old_v = v@;
            let (_, x) = v.remove(i);
            proof {
                assert(str_pairs(v@) =~= str_pairs(old_v).remove(i as int));
                lemma_assoc_remove(str_pairs(old_v), i as int);
                lemma_assoc_index(str_pairs(old_v), i as int);
            }
            Some(x)
        },
        None => {
            proof {
                assert(assoc_map(str_pairs(v@)).remove(k@) =~= assoc_map(str_pairs(v@)));
            }
            None
        },
    }
}

/// Sets the value of key `k` in the pair list `v` to `x`.
pub fn put_key(v: &mut Vec<(String, String)>, k: String, x: String)
    requires
        keys_distinct(str_pairs(old(v)@)),
    ensures
        keys_distinct(str_pairs(final(v)@)),
        assoc_map(str_pairs(final(v)@)) == assoc_map(str_pairs(old(v)@)).insert(k@, x@),
{
    let _ = take_key(v, &k);
    let ghost mid = v@;
    v.push((k, x));
    proof {
        assert(str_pairs(v@) =~= str_pairs(mid).push((k@, x@)));
        lemma_assoc_push(str_pairs(mid), k@, x@);
        assert(assoc_map(str_pairs(mid)).insert(k@, x@) =~= assoc_map(str_pairs(old(v)@)).insert(k@, x@));
    }
}

} // verus!
