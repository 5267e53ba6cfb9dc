//! Solution maps: the solved value of each named variable.
use crate::terms::{
    find_name, has_name, insert_named, lemma_to_map_push, lemma_value_at, names_distinct,
    string_terms, to_map,
};
use vstd::prelude::*;

verus! {

/// The solved value of each variable, one entry per name.
pub struct Solution<T> {
    pub entries: Vec<(String, T)>,
}

impl<T> View for Solution<T> {
    type V = Map<Seq<char>, T>;

    open spec fn view(&self) -> Map<Seq<char>, T> {
        to_map(string_terms(self.entries@))
    }
}

impl<T: Copy> Solution<T> {
    /// No variable has two entries.
    pub open spec fn wf(&self) -> bool {
        names_distinct(string_terms(self.entries@))
    }

    /// The solution that assigns no variable.
    pub fn new() -> (r: Self)
        ensures
            r.wf(),
            r@ == Map::<Seq<char>, T>::empty(),
    {
        let r = Solution { entries: Vec::new() };
        assert(r@ =~= Map::<Seq<char>, T>::empty());
        r
    }

    /// Whether no variable is assigned.
    pub fn is_empty(&self) -> (r: bool)
        ensures
            r == (self@ == Map::<Seq<char>, T>::empty()),
    {
        proof {
            if self.entries.len() > 0 {
                let s = string_terms(self.entries@);
                assert(has_name(s, s[0].0));
                assert(self@.contains_key(s[0].0));
            } else {
                assert(self@ =~= Map::<Seq<char>, T>::empty());
            }
        }
        self.entries.len() == 0
    }

    /// The value of `name`, if it is assigned.
    pub fn get(&self, name: &String) -> (r: Option<T>)
        requires
            self.wf(),
        ensures
            r == if self@.contains_key(name@) {
                Some(self@[name@])
            } else {
                None
            },
    {
        match find_name(&self.entries, name) {
            Some(k) => {
                proof {
                    lemma_value_at(string_terms(self.entries@), k as int);
                }
                Some(self.entries[k].1)
            },
            None => None,
        }
    }

    /// Assigns `value` to `name`, replacing an earlier value.
    pub fn insert(&mut self, name: String, value: T)
        requires
            old(self).wf(),
        ensures
            final(self).wf(),
            final(self)@ == old(self)@.insert(name@, value),
    {
        insert_named(&mut self.entries, name, value);
    }

    /// Merges `other` into this solution; where both assign a variable,
    /// the value of `other` is kept.
    pub fn extend(&mut self, other: &Solution<T>)
        requires
            old(self).wf(),
            other.wf(),
        ensures
            final(self).wf(),
            final(self)@ == old(self)@.union_prefer_right(other@),
    {
        let ghost start = self@;
        let ghost s = string_terms(other.entries@);
        let mut i: usize = 0;
        while i < other.entries.len()
            invariant
                i <= other.entries.len(),
                s == string_terms(other.entries@),
                names_distinct(s),
                self.wf(),
                self@ == start.union_prefer_right(to_map(s.take(i as int))),
            decreases other.entries.len() - i,
        {
            let name = other.entries[i].0.clone();
            let value = other.entries[i].1;
            self.insert(name, value);
            proof {
                let p = s.take(i as int);
                assert(s.take(i as int + 1) =~= p.push(s[i as int]));
                assert(names_distinct(p));
                assert(!has_name(p, s[i as int].0)) by {
                    if has_name(p, s[i as int].0) {
                        let j = choose|j: int| 0 <= j < p.len() && p[j].0 == s[i as int].0;
                        assert(s[j].0 == s[i as int].0);
                    }
                }
                lemma_to_map_push(p, s[i as int].0, s[i as int].1);
                assert(self@ =~= start.union_prefer_right(to_map(s.take(i as int + 1))));
            }
            i = i + 1;
        }
        assert(s.take(i as int) =~= s);
    }
}

} // verus!
