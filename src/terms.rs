//! Named values: sequences of `(name, value)` pairs read as finite maps.
use vstd::prelude::*;

verus! {

/// No name occurs twice in `s`.
pub open spec fn names_distinct<T>(s: Seq<(Seq<char>, T)>) -> bool {
    forall|i: int, j: int| 0 <= i < j < s.len() ==> s[i].0 != s[j].0
}

/// Some pair of `s` carries the name `n`.
pub open spec fn has_name<T>(s: Seq<(Seq<char>, T)>, n: Seq<char>) -> bool {
    exists|i: int| 0 <= i < s.len() && s[i].0 == n
}

/// The value paired with `n` in `s` (meaningful when `has_name(s, n)`).
pub open spec fn named_value<T>(s: Seq<(Seq<char>, T)>, n: Seq<char>) -> T {
    s[choose|i: int| 0 <= i < s.len() && s[i].0 == n].1
}

/// The finite map from each name of `s` to its value.
pub open spec fn to_map<T>(s: Seq<(Seq<char>, T)>) -> Map<Seq<char>, T> {
    Map::new(|n: Seq<char>| has_name(s, n), |n: Seq<char>| named_value(s, n))
}

/// The names of `s`, in order.
pub open spec fn names_of<T>(s: Seq<(Seq<char>, T)>) -> Seq<Seq<char>> {
    s.map_values(|p: (Seq<char>, T)| p.0)
}

/// Pairs whose names are executable strings, seen through their characters.
pub open spec fn string_terms<T>(v: Seq<(String, T)>) -> Seq<(Seq<char>, T)> {
    v.map_values(|p: (String, T)| (p.0@, p.1))
}

/// The value at position `i` is the one the map gives for its name.
pub proof fn lemma_value_at<T>(s: Seq<(Seq<char>, T)>, i: int)
    requires
        names_distinct(s),
        0 <= i < s.len(),
    ensures
        has_name(s, s[i].0),
        named_value(s, s[i].0) == s[i].1,
        to_map(s).contains_key(s[i].0),
        to_map(s)[s[i].0] == s[i].1,
{
    assert(0 <= i < s.len() && s[i].0 == s[i].0);
    let k = choose|k: int| 0 <= k < s.len() && s[k].0 == s[i].0;
    assert(k == i);
}

/// Appending a new name adds exactly that entry to the map.
pub proof fn lemma_to_map_push<T>(s: Seq<(Seq<char>, T)>, n: Seq<char>, v: T)
    requires
        names_distinct(s),
        !has_name(s, n),
    ensures
        names_distinct(s.push((n, v))),
        to_map(s.push((n, v))) == to_map(s).insert(n, v),
{
    let t = s.push((n, v));
    assert(names_distinct(t));
    assert forall|m: Seq<char>| #[trigger] has_name(t, m) == (has_name(s, m) || m == n) by {
        if has_name(s, m) {
            let i = choose|i: int| 0 <= i < s.len() && s[i].0 == m;
            assert(t[i].0 == m);
        }
        if m == n {
            assert(t[s.len() as int].0 == n);
        }
    }
    assert forall|m: Seq<char>| has_name(t, m) implies #[trigger] named_value(t, m) == to_map(
        s,
    ).insert(n, v)[m] by {
        let i = choose|i: int| 0 <= i < t.len() && t[i].0 == m;
        lemma_value_at(t, i);
        if m != n {
            assert(i < s.len());
            lemma_value_at(s, i);
        }
    }
    assert(to_map(t) =~= to_map(s).insert(n, v));
}

/// Replacing the value at position `i` changes only that entry of the map.
pub proof fn lemma_to_map_update<T>(s: Seq<(Seq<char>, T)>, i: int, v: T)
    requires
        names_distinct(s),
        0 <= i < s.len(),
    ensures
        names_distinct(s.update(i, (s[i].0, v))),
        to_map(s.update(i, (s[i].0, v))) == to_map(s).insert(s[i].0, v),
{
    let t = s.update(i, (s[i].0, v));
    assert(names_distinct(t));
    assert forall|m: Seq<char>| #[trigger] has_name(t, m) == has_name(s, m) by {
        if has_name(s, m) {
            let k = choose|k: int| 0 <= k < s.len() && s[k].0 == m;
            assert(t[k].0 == m);
        }
        if has_name(t, m) {
            let k = choose|k: int| 0 <= k < t.len() && t[k].0 == m;
            assert(s[k].0 == m);
        }
    }
    assert forall|m: Seq<char>| has_name(t, m) implies #[trigger] named_value(t, m) == to_map(
        s,
    ).insert(s[i].0, v)[m] by {
        let k = choose|k: int| 0 <= k < t.len() && t[k].0 == m;
        lemma_value_at(t, k);
        if k != i {
            lemma_value_at(s, k);
        }
    }
    assert(to_map(t) =~= to_map(s).insert(s[i].0, v));
}

/// The coefficient that the map `m` gives `n`, or `zero` where it gives none.
pub open spec fn value_or<T>(m: Map<Seq<char>, T>, n: Seq<char>, zero: T) -> T {
    if m.contains_key(n) {
        m[n]
    } else {
        zero
    }
}

/// Sets the value of `name` in `v`: replaces it where the name is present,
/// appends the pair otherwise.
pub fn insert_named<T: Copy>(v: &mut Vec<(String, T)>, name: String, value: T)
    requires
        names_distinct(string_terms(old(v)@)),
    ensures
        names_distinct(string_terms(final(v)@)),
        to_map(string_terms(final(v)@)) == to_map(string_terms(old(v)@)).insert(name@, value),
        names_of(string_terms(final(v)@)) == if has_name(string_terms(old(v)@), name@) {
            names_of(string_terms(old(v)@))
        } else {
            names_of(string_terms(old(v)@)).push(name@)
        },
{
    let ghost s = string_terms(v@);
    match find_name(v, &name) {
        Some(k) => {
            v[k].1 = value;
            proof {
                assert(string_terms(v@) =~= s.update(k as int, (s[k as int].0, value)));
                lemma_to_map_update(s, k as int, value);
                assert(has_name(s, name@)) by {
                    assert(s[k as int].0 == name@);
                }
                assert(names_of(string_terms(v@)) =~= names_of(s));
            }
        },
        None => {
            let ghost n = name@;
            v.push((name, value));
            proof {
                assert(string_terms(v@) =~= s.push((n, value)));
                lemma_to_map_push(s, n, value);
                assert(names_of(string_terms(v@)) =~= names_of(s).push(n));
            }
        },
    }
}

/// Finds the position of the pair named `name`, if any.
pub fn find_name<T>(v: &Vec<(String, T)>, name: &String) -> (r: Option<usize>)
    ensures
        match r {
            Some(k) => k < v.len() && v@[k as int].0@ == name@,
            None => !has_name(string_terms(v@), name@),
        },
{
    let mut k: usize = 0;
    while k < v.len()
        invariant
            k <= v.len(),
            forall|j: int| 0 <= j < k ==> v@[j].0@ != name@,
        decreases v.len() - k,
    {
        if v[k].0 == *name {
            return Some(k);
        }
        k = k + 1;
    }
    proof {
        let s = string_terms(v@);
        if has_name(s, name@) {
            let j = choose|j: int| 0 <= j < s.len() && s[j].0 == name@;
            assert(v@[j].0@ == name@);
        }
    }
    None
}

} // verus!
