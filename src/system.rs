//! From symbolic equations to a dense matrix problem and back.
use crate::equation::LinearEquation;
use crate::solution::Solution;
use crate::terms::{has_name, names_of, string_terms, to_map, value_or};
use vstd::prelude::*;

verus! {

/// The characters of each string of `v`.
pub open spec fn string_views(v: Seq<String>) -> Seq<Seq<char>> {
    v.map_values(|s: String| s@)
}

/// `index` followed by each name of `names` that is not already there,
/// in the order of first appearance.
pub open spec fn add_names(index: Seq<Seq<char>>, names: Seq<Seq<char>>) -> Seq<Seq<char>>
    decreases names.len(),
{
    if names.len() == 0 {
        index
    } else {
        let prev = add_names(index, names.drop_last());
        if prev.contains(names.last()) {
            prev
        } else {
            prev.push(names.last())
        }
    }
}

/// Every variable of `eqs`, once each, in the order of first appearance
/// when the equations and then their listed variables are read in order.
pub open spec fn variable_index<T: Copy>(eqs: Seq<LinearEquation<T>>) -> Seq<Seq<char>>
    decreases eqs.len(),
{
    if eqs.len() == 0 {
        Seq::empty()
    } else {
        add_names(variable_index(eqs.drop_last()), names_of(eqs.last().terms()))
    }
}

/// Some equation of `eqs` lists the variable `n`.
pub open spec fn mentions<T: Copy>(eqs: Seq<LinearEquation<T>>, n: Seq<char>) -> bool {
    exists|i: int| 0 <= i < eqs.len() && has_name(eqs[i].terms(), n)
}

/// `a` is square, `b` has as many rows as `a`, and all rows of `b` have one length.
pub open spec fn solvable_shape<T>(a: Seq<Vec<T>>, b: Seq<Vec<T>>) -> bool {
    &&& b.len() == a.len()
    &&& forall|i: int| 0 <= i < a.len() ==> (#[trigger] a[i])@.len() == a.len()
    &&& forall|i: int| 0 <= i < b.len() ==> (#[trigger] b[i])@.len() == b[0]@.len()
}

/// The pairs of each variable of `index` with the first entry of its row of `x`.
pub open spec fn column_terms<T>(index: Seq<Seq<char>>, x: Seq<Vec<T>>) -> Seq<(Seq<char>, T)> {
    Seq::new(index.len(), |i: int| (index[i], x[i]@[0]))
}

/// `x` has one row per variable, each with at least one entry.
pub open spec fn column_shape<T>(n: nat, x: Seq<Vec<T>>) -> bool {
    x.len() == n && forall|i: int| 0 <= i < x.len() ==> (#[trigger] x[i])@.len() >= 1
}

proof fn lemma_add_names<T>(index: Seq<Seq<char>>, names: Seq<Seq<char>>)
    requires
        index.no_duplicates(),
    ensures
        add_names(index, names).no_duplicates(),
        forall|n: Seq<char>|
            #[trigger] add_names(index, names).contains(n) == (index.contains(n) || names.contains(
                n,
            )),
    decreases names.len(),
{
    if names.len() > 0 {
        lemma_add_names::<T>(index, names.drop_last());
        let prev = add_names(index, names.drop_last());
        assert forall|n: Seq<char>| #[trigger] names.contains(n) == (names.drop_last().contains(n)
            || n == names.last()) by {
            if names.contains(n) {
                let k = choose|k: int| 0 <= k < names.len() && names[k] == n;
                if k < names.len() - 1 {
                    assert(names.drop_last()[k] == n);
                }
            }
            if names.drop_last().contains(n) {
                let k = choose|k: int| 0 <= k < names.len() - 1 && names.drop_last()[k] == n;
                assert(names[k] == n);
            }
            assert(names[names.len() - 1] == names.last());
        }
        if !prev.contains(names.last()) {
            assert forall|n: Seq<char>| #[trigger] prev.push(names.last()).contains(n) == (
            prev.contains(n) || n == names.last()) by {
                if prev.push(names.last()).contains(n) {
                    let k = choose|k: int|
                        0 <= k < prev.len() + 1 && prev.push(names.last())[k] == n;
                    if k < prev.len() {
                        assert(prev[k] == n);
                    }
                }
                if prev.contains(n) {
                    let k = choose|k: int| 0 <= k < prev.len() && prev[k] == n;
                    assert(prev.push(names.last())[k] == n);
                }
                assert(prev.push(names.last())[prev.len() as int] == names.last());
            }
        }
    }
}

/// The variable index lists each variable of the equations exactly once.
pub proof fn lemma_variable_index<T: Copy>(eqs: Seq<LinearEquation<T>>)
    ensures
        variable_index(eqs).no_duplicates(),
        forall|n: Seq<char>| #[trigger] variable_index(eqs).contains(n) == mentions(eqs, n),
    decreases eqs.len(),
{
    if eqs.len() > 0 {
        let init = eqs.drop_last();
        let names = names_of(eqs.last().terms());
        lemma_variable_index(init);
        lemma_add_names::<T>(variable_index(init), names);
        assert forall|n: Seq<char>| #[trigger] variable_index(eqs).contains(n) == mentions(eqs, n) by {
            if mentions(eqs, n) {
                let i = choose|i: int| 0 <= i < eqs.len() && has_name(eqs[i].terms(), n);
                if i < eqs.len() - 1 {
                    assert(init[i] == eqs[i]);
                    assert(mentions(init, n));
                } else {
                    let k = choose|k: int|
                        0 <= k < eqs[i].terms().len() && eqs[i].terms()[k].0 == n;
                    assert(names[k] == n);
                }
            }
            if mentions(init, n) {
                let i = choose|i: int| 0 <= i < init.len() && has_name(init[i].terms(), n);
                assert(eqs[i] == init[i]);
            }
            if names.contains(n) {
                let k = choose|k: int| 0 <= k < names.len() && names[k] == n;
                assert(eqs.last().terms()[k].0 == n);
                assert(eqs[eqs.len() - 1] == eqs.last());
            }
        }
    }
}

/// Whether `name` is one of `index`.
fn contains_name(index: &Vec<String>, name: &String) -> (r: bool)
    ensures
        r == string_views(index@).contains(name@),
{
    let mut k: usize = 0;
    while k < index.len()
        invariant
            k <= index.len(),
            forall|j: int| 0 <= j < k ==> index@[j]@ != name@,
        decreases index.len() - k,
    {
        if index[k] == *name {
            assert(string_views(index@)[k as int] == name@);
            return true;
        }
        k = k + 1;
    }
    proof {
        if string_views(index@).contains(name@) {
            let j = choose|j: int|
                0 <= j < string_views(index@).len() && string_views(index@)[j] == name@;
            assert(index@[j]@ == name@);
        }
    }
    false
}

/// Lists the variables of `equations` in the order of first appearance.
pub fn index_variables<T: Copy>(equations: &Vec<LinearEquation<T>>) -> (r: Vec<String>)
    ensures
        string_views(r@) == variable_index(equations@),
        string_views(r@).no_duplicates(),
        forall|n: Seq<char>| #[trigger] string_views(r@).contains(n) == mentions(equations@, n),
{
    let mut index: Vec<String> = Vec::new();
    let mut i: usize = 0;
    assert(string_views(index@) =~= variable_index(equations@.take(0)));
    while i < equations.len()
        invariant
            i <= equations.len(),
            string_views(index@) == variable_index(equations@.take(i as int)),
        decreases equations.len() - i,
    {
        let eq = &equations[i];
        let ghost names = names_of(eq.terms());
        let ghost before = variable_index(equations@.take(i as int));
        let mut j: usize = 0;
        assert(names.take(0) =~= Seq::<Seq<char>>::empty());
        while j < eq.variables.len()
            invariant
                j <= eq.variables.len(),
                names == names_of(eq.terms()),
                names.len() == eq.variables.len(),
                string_views(index@) == add_names(before, names.take(j as int)),
            decreases eq.variables.len() - j,
        {
            let name = &eq.variables[j].0;
            assert(names.take(j as int + 1).drop_last() =~= names.take(j as int));
            assert(names[j as int] == name@);
            if !contains_name(&index, name) {
                index.push(name.clone());
                assert(string_views(index@) =~= add_names(before, names.take(j as int)).push(
                    name@,
                ));
            }
            j = j + 1;
        }
        proof {
            assert(names.take(j as int) =~= names);
            let upto = equations@.take(i as int + 1);
            assert(upto.drop_last() =~= equations@.take(i as int));
            assert(upto.last() == equations@[i as int]);
        }
        i = i + 1;
    }
    assert(equations@.take(i as int) =~= equations@);
    proof {
        lemma_variable_index(equations@);
    }
    index
}

/// A dense matrix problem `coefficients * x = constants` built from
/// equations: column `j` belongs to `variables[j]`, row `i` to equation `i`.
pub struct LinearSystem<T> {
    pub variables: Vec<String>,
    pub coefficients: Vec<Vec<T>>,
    pub constants: Vec<Vec<T>>,
}

impl<T: Copy> LinearSystem<T> {
    /// The names of the columns.
    pub open spec fn index(&self) -> Seq<Seq<char>> {
        string_views(self.variables@)
    }

    /// No variable names two columns.
    pub open spec fn wf(&self) -> bool {
        self.index().no_duplicates()
    }

    /// Whether the matrix problem is square and conformant.
    pub open spec fn square(&self) -> bool {
        solvable_shape(self.coefficients@, self.constants@)
    }

    /// This is the matrix problem of `eqs`: the columns follow their variable
    /// index, each row holds an equation's coefficients (`zero` for a variable
    /// it does not list), and each constant row holds its constant alone.
    pub open spec fn describes(&self, eqs: Seq<LinearEquation<T>>, zero: T) -> bool {
        &&& self.index() == variable_index(eqs)
        &&& self.coefficients.len() == eqs.len()
        &&& self.constants.len() == eqs.len()
        &&& forall|i: int|
            0 <= i < eqs.len() ==> {
                &&& (#[trigger] self.coefficients@[i])@.len() == self.index().len()
                &&& forall|j: int|
                    0 <= j < self.index().len() ==> #[trigger] self.coefficients@[i]@[j]
                        == value_or(eqs[i].coefficients(), self.index()[j], zero)
            }
        &&& forall|i: int|
            0 <= i < eqs.len() ==> (#[trigger] self.constants@[i])@ == seq![eqs[i].constant]
    }

    /// Whether the matrix problem is square and conformant.
    pub fn is_square(&self) -> (r: bool)
        ensures
            r == self.square(),
    {
        is_solvable_shape(&self.coefficients, &self.constants)
    }

    /// Whether solving needs a decomposition: the problem is square and has
    /// at least one variable.
    pub fn needs_decomposition(&self) -> (r: bool)
        ensures
            r == (self.square() && self.variables.len() > 0),
    {
        self.is_square() && self.variables.len() > 0
    }

    /// The named solution, given the decomposition's result `x` for
    /// `coefficients * x = constants`: nothing for a problem that is not
    /// square, the empty solution for one without variables, and otherwise
    /// the first column of `x` read against the variables, where `x` is there
    /// and has one row per variable.
    pub fn read_solution(&self, x: Option<Vec<Vec<T>>>) -> (r: Option<Solution<T>>)
        requires
            self.wf(),
        ensures
            !self.square() ==> r is None,
            self.square() && self.variables.len() == 0 ==> (r matches Some(s) && s.wf() && s@
                == Map::<Seq<char>, T>::empty()),
            self.square() && self.variables.len() > 0 ==> match x {
                None => r is None,
                Some(m) => if column_shape(self.variables.len() as nat, m@) {
                    r matches Some(s) && s.wf() && s@ == to_map(column_terms(self.index(), m@))
                } else {
                    r is None
                },
            },
    {
        if !self.is_square() {
            return None;
        }
        if self.variables.len() == 0 {
            return Some(Solution::new());
        }
        match x {
            None => None,
            Some(m) => solution_from_column(&self.variables, &m),
        }
    }
}

/// Whether `a` is square, `b` has as many rows as `a`, and the rows of `b`
/// share one length.
pub fn is_solvable_shape<T>(a: &Vec<Vec<T>>, b: &Vec<Vec<T>>) -> (r: bool)
    ensures
        r == solvable_shape(a@, b@),
{
    if b.len() != a.len() {
        return false;
    }
    let n: usize = a.len();
    let mut i: usize = 0;
    while i < n
        invariant
            i <= n,
            n == a.len(),
            forall|k: int| 0 <= k < i ==> (#[trigger] a@[k])@.len() == n,
        decreases n - i,
    {
        if a[i].len() != n {
            return false;
        }
        i = i + 1;
    }
    if b.len() == 0 {
        return true;
    }
    let width: usize = b[0].len();
    let mut i: usize = 0;
    while i < b.len()
        invariant
            i <= b.len(),
            b.len() > 0,
            width == b@[0]@.len(),
            forall|k: int| 0 <= k < i ==> (#[trigger] b@[k])@.len() == width,
        decreases b.len() - i,
    {
        if b[i].len() != width {
            return false;
        }
        i = i + 1;
    }
    true
}

/// Pairs each variable with the first entry of its row of `x`, where `x`
/// has one row per variable and no row is empty.
pub fn solution_from_column<T: Copy>(variables: &Vec<String>, x: &Vec<Vec<T>>) -> (r: Option<
    Solution<T>,
>)
    requires
        string_views(variables@).no_duplicates(),
    ensures
        column_shape(variables.len() as nat, x@) ==> (r matches Some(s) && s.wf() && s@
            == to_map(column_terms(string_views(variables@), x@))),
        !column_shape(variables.len() as nat, x@) ==> r is None,
{
    if x.len() != variables.len() {
        return None;
    }
    let ghost target = column_terms(string_views(variables@), x@);
    let mut entries: Vec<(String, T)> = Vec::new();
    let mut i: usize = 0;
    while i < x.len()
        invariant
            i <= x.len(),
            x.len() == variables.len(),
            forall|k: int| 0 <= k < i ==> (#[trigger] x@[k])@.len() >= 1,
            target == column_terms(string_views(variables@), x@),
            string_terms(entries@) == target.take(i as int),
        decreases x.len() - i,
    {
        if x[i].len() == 0 {
            return None;
        }
        let ghost prev = entries@;
        let name = variables[i].clone();
        let value = x[i][0];
        entries.push((name, value));
        proof {
            let v = string_views(variables@);
            assert(v.len() == variables.len());
            assert(v[i as int] == variables@[i as int]@);
            assert(target.len() == x.len());
            assert(target[i as int] == (v[i as int], x@[i as int]@[0]));
            assert(entries@ == prev.push((name, value)));
            assert(string_terms(entries@) =~= string_terms(prev).push((name@, value)));
        }
        assert(string_terms(entries@) =~= target.take(i as int + 1));
        i = i + 1;
    }
    assert(target.take(i as int) =~= target);
    let s = Solution { entries };
    assert(s.wf()) by {
        let v = string_views(variables@);
        assert forall|a: int, b: int| 0 <= a < b < target.len() implies target[a].0
            != target[b].0 by {
            assert(v[a] != v[b]);
        }
    }
    Some(s)
}

/// Builds the matrix problem of `equations`, with `zero` as the coefficient
/// of a variable that an equation does not list.
pub fn build_linear_system<T: Copy>(equations: &Vec<LinearEquation<T>>, zero: T) -> (r:
    LinearSystem<T>)
    requires
        forall|i: int| 0 <= i < equations.len() ==> (#[trigger] equations@[i]).wf(),
    ensures
        r.wf(),
        r.describes(equations@, zero),
        r.square() == (equations.len() == r.variables.len()),
{
    let variables = index_variables(equations);
    let ghost index = string_views(variables@);
    let n: usize = variables.len();
    let mut coefficients: Vec<Vec<T>> = Vec::new();
    let mut constants: Vec<Vec<T>> = Vec::new();
    let mut i: usize = 0;
    while i < equations.len()
        invariant
            i <= equations.len(),
            n == variables.len(),
            index == string_views(variables@),
            forall|k: int| 0 <= k < equations.len() ==> (#[trigger] equations@[k]).wf(),
            coefficients.len() == i,
            constants.len() == i,
            forall|k: int|
                0 <= k < i ==> {
                    &&& (#[trigger] coefficients@[k])@.len() == n
                    &&& forall|j: int|
                        0 <= j < n ==> #[trigger] coefficients@[k]@[j] == value_or(
                            equations@[k].coefficients(),
                            index[j],
                            zero,
                        )
                },
            forall|k: int|
                0 <= k < i ==> (#[trigger] constants@[k])@ == seq![equations@[k].constant],
        decreases equations.len() - i,
    {
        let eq = &equations[i];
        let mut row: Vec<T> = Vec::new();
        let mut j: usize = 0;
        while j < n
            invariant
                j <= n,
                n == variables.len(),
                index == string_views(variables@),
                eq.wf(),
                row.len() == j,
                forall|m: int|
                    0 <= m < j ==> #[trigger] row@[m] == value_or(eq.coefficients(), index[m], zero),
            decreases n - j,
        {
            let c = eq.coefficient(&variables[j], zero);
            row.push(c);
            j = j + 1;
        }
        coefficients.push(row);
        let mut constant_row: Vec<T> = Vec::new();
        constant_row.push(eq.constant);
        assert(constant_row@ =~= seq![eq.constant]);
        constants.push(constant_row);
        i = i + 1;
    }
    let r = LinearSystem { variables, coefficients, constants };
    assert(r.square() == (equations.len() == n)) by {
        if equations.len() == n {
            assert forall|k: int| 0 <= k < r.coefficients.len() implies (
            #[trigger] r.coefficients@[k])@.len() == r.coefficients.len() by {}
            assert forall|k: int| 0 <= k < r.constants.len() implies (#[trigger] r.constants@[k])@.len()
                == r.constants@[0]@.len() by {
                assert(r.constants@[k]@.len() == 1);
                assert(r.constants@[0]@.len() == 1);
            }
        }
        if equations.len() > 0 && r.square() {
            assert(r.coefficients@[0]@.len() == n);
        }
        if equations.len() == 0 {
            assert(variable_index(equations@) == Seq::<Seq<char>>::empty());
            assert(index.len() == n);
        }
        if equations.len() == n {
            assert(r.square());
        }
        if r.square() {
            assert(equations.len() == n);
        }
    }
    r
}

/// Two or more equations that all speak of one and the same variable never
/// make a square problem, so such a system is reported unsolvable whatever
/// its constants (`a = 0` beside `a = 0.1`, for one).
pub proof fn lemma_single_variable_overdetermined<T: Copy>(
    eqs: Seq<LinearEquation<T>>,
    v: Seq<char>,
    system: LinearSystem<T>,
    zero: T,
)
    requires
        eqs.len() >= 2,
        forall|i: int, n: Seq<char>|
            0 <= i < eqs.len() && #[trigger] has_name(eqs[i].terms(), n) ==> n == v,
        system.describes(eqs, zero),
    ensures
        variable_index(eqs).len() <= 1,
        !system.square(),
{
    lemma_variable_index(eqs);
    let index = variable_index(eqs);
    if index.len() >= 2 {
        assert(index.contains(index[0]) && index.contains(index[1]));
        assert(mentions(eqs, index[0]) && mentions(eqs, index[1]));
        assert(index[0] == v && index[1] == v);
    }
    assert(system.coefficients@[0]@.len() == index.len());
}

/// With no equations the problem is square and has no variable, so it is
/// solved, by the empty solution, without any decomposition.
pub proof fn lemma_no_equations<T: Copy>(system: LinearSystem<T>, zero: T)
    requires
        system.describes(Seq::<LinearEquation<T>>::empty(), zero),
    ensures
        system.square(),
        system.variables.len() == 0,
{
    assert(variable_index(Seq::<LinearEquation<T>>::empty()) == Seq::<Seq<char>>::empty());
    assert(system.index().len() == system.variables.len());
}

/// The matrix problem is determined by the equations: two problems built
/// from the same equations have the same variables, rows and constants.
pub proof fn lemma_system_determined<T: Copy>(
    eqs: Seq<LinearEquation<T>>,
    zero: T,
    first: LinearSystem<T>,
    second: LinearSystem<T>,
)
    requires
        first.describes(eqs, zero),
        second.describes(eqs, zero),
    ensures
        first.index() == second.index(),
        first.coefficients.len() == second.coefficients.len(),
        first.constants.len() == second.constants.len(),
        forall|i: int|
            0 <= i < eqs.len() ==> (#[trigger] first.coefficients@[i])@
                == second.coefficients@[i]@,
        forall|i: int|
            0 <= i < eqs.len() ==> (#[trigger] first.constants@[i])@ == second.constants@[i]@,
{
    assert forall|i: int| 0 <= i < eqs.len() implies (#[trigger] first.coefficients@[i])@
        == second.coefficients@[i]@ by {
        assert(first.coefficients@[i]@ =~= second.coefficients@[i]@);
    }
}

} // verus!
