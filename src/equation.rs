//! Symbolic linear equations over named variables.
use crate::terms::{
    has_name, insert_named, find_name, lemma_value_at, names_distinct, names_of, string_terms,
    to_map, value_or,
};
use vstd::prelude::*;

verus! {

/// One linear equation: the sum over `variables` of coefficient times
/// variable equals `constant`. A variable that is not listed has
/// coefficient zero.
pub struct LinearEquation<T> {
    pub variables: Vec<(String, T)>,
    pub constant: T,
}

impl<T: Copy> LinearEquation<T> {
    /// The listed `(name, coefficient)` pairs, in order.
    pub open spec fn terms(&self) -> Seq<(Seq<char>, T)> {
        string_terms(self.variables@)
    }

    /// Each variable is listed at most once.
    pub open spec fn wf(&self) -> bool {
        names_distinct(self.terms())
    }

    /// The coefficient of each listed variable.
    pub open spec fn coefficients(&self) -> Map<Seq<char>, T> {
        to_map(self.terms())
    }

    /// An equation with no variable and the given constant.
    pub fn new(constant: T) -> (r: Self)
        ensures
            r.wf(),
            r.terms() == Seq::<(Seq<char>, T)>::empty(),
            r.constant == constant,
    {
        let r = LinearEquation { variables: Vec::new(), constant };
        assert(r.terms() =~= Seq::<(Seq<char>, T)>::empty());
        r
    }

    /// Sets the coefficient of `name`; a variable not listed yet is appended.
    pub fn set_coefficient(&mut self, name: String, value: T)
        requires
            old(self).wf(),
        ensures
            final(self).wf(),
            final(self).coefficients() == old(self).coefficients().insert(name@, value),
            final(self).constant == old(self).constant,
            names_of(final(self).terms()) == if has_name(old(self).terms(), name@) {
                names_of(old(self).terms())
            } else {
                names_of(old(self).terms()).push(name@)
            },
    {
        insert_named(&mut self.variables, name, value);
    }

    /// The coefficient of `name` in this equation, `zero` where it is not listed.
    pub fn coefficient(&self, name: &String, zero: T) -> (r: T)
        requires
            self.wf(),
        ensures
            r == value_or(self.coefficients(), name@, zero),
    {
        match find_name(&self.variables, name) {
            Some(k) => {
                proof {
                    lemma_value_at(self.terms(), k as int);
                }
                self.variables[k].1
            },
            None => zero,
        }
    }
}

} // verus!
