use vstd::prelude::*;
use crate::field::Field;
use crate::lin_comb::{LinComb, canonical_terms, lists, terms_text};
use crate::text::{push_all, string_of};
use crate::variable::Variable;

verus! {

/// The product `left * right` of two linear combinations, kept as a pair:
/// nothing is multiplied out.
#[derive(Debug, Clone, PartialEq, Eq)]
pub struct QuadComb<T> {
    pub left: LinComb<T>,
    pub right: LinComb<T>,
}

impl<T: Field> QuadComb<T> {
    /// Both factors are canonical.
    pub open spec fn wf(&self) -> bool {
        self.left.wf() && self.right.wf()
    }

    /// The product `left * right`.
    pub fn from_linear_combinations(left: LinComb<T>, right: LinComb<T>) -> (r: QuadComb<T>)
        ensures
            r.left == left,
            r.right == right,
    {
        QuadComb { left, right }
    }

    /// The linear combination `lc` as the product `1 * lc`.
    pub fn from_linear(lc: LinComb<T>) -> (r: QuadComb<T>)
        ensures
            r.left.is_one(),
            r.right == lc,
    {
        QuadComb::from_linear_combinations(LinComb::one(), lc)
    }

    /// The variable `var` as the product `1 * (1 * var)`.
    pub fn from_variable(var: Variable) -> (r: QuadComb<T>)
        ensures
            r.left.is_one(),
            r.right.is_term(1, var),
    {
        QuadComb::from_linear(LinComb::from_variable(var))
    }
}

impl<T: Field> QuadComb<T> {
    /// The interchange form: the terms of `left` and of `right`.
    pub fn to_terms(&self) -> (r: (Vec<(Variable, T)>, Vec<(Variable, T)>))
        requires
            self.wf(),
        ensures
            lists(r.0@, self.left@),
            lists(r.1@, self.right@),
    {
        (self.left.to_terms(), self.right.to_terms())
    }

    /// The product whose factors `left` and `right` list, or `None` where
    /// either list cannot stand for a combination.
    pub fn from_terms(left: Vec<(Variable, T)>, right: Vec<(Variable, T)>) -> (r: Option<QuadComb<T>>)
        requires
            forall|i: int| 0 <= i < left@.len() ==> (#[trigger] left@[i]).1.inv(),
            forall|i: int| 0 <= i < right@.len() ==> (#[trigger] right@[i]).1.inv(),
        ensures
            r is Some <==> canonical_terms(left@) && canonical_terms(right@),
            r matches Some(q) ==> q.wf() && lists(left@, q.left@) && lists(right@, q.right@),
    {
        match LinComb::from_terms(left) {
            None => None,
            Some(l) => match LinComb::from_terms(right) {
                None => None,
                Some(r) => Some(QuadComb { left: l, right: r }),
            },
        }
    }
}

/// How the product of the factors listed by `l` and `r` is written:
/// `(<left>) * (<right>)`.
pub open spec fn product_text<T: Field>(l: Seq<(Variable, T)>, r: Seq<(Variable, T)>) -> Seq<char> {
    seq!['('] + terms_text(l) + seq![')', ' ', '*', ' ', '('] + terms_text(r) + seq![')']
}

impl<T: Field> QuadComb<T> {
    /// The product written as `(<left>) * (<right>)`, each factor as
    /// `LinComb::render` writes it.
    pub fn to_text(&self) -> (r: String)
        requires
            self.wf(),
        ensures
            exists|l: Seq<(Variable, T)>, rt: Seq<(Variable, T)>|
                lists(l, self.left@) && lists(rt, self.right@) && r@ == product_text(l, rt),
    {
        let mut out: Vec<char> = Vec::new();
        out.push('(');
        let left = self.left.render();
        push_all(&mut out, &left);
        out.push(')');
        out.push(' ');
        out.push('*');
        out.push(' ');
        out.push('(');
        let right = self.right.render();
        push_all(&mut out, &right);
        out.push(')');
        proof {
            let l = choose|l: Seq<(Variable, T)>| lists(l, self.left@) && left@ == terms_text(l);
            let rt = choose|rt: Seq<(Variable, T)>| lists(rt, self.right@) && right@ == terms_text(rt);
            assert(out@ =~= product_text(l, rt));
        }
        string_of(&out)
    }
}

impl<T: Field> From<LinComb<T>> for QuadComb<T> {
    fn from(lc: LinComb<T>) -> QuadComb<T> {
        QuadComb::from_linear(lc)
    }
}

impl<T: Field> vstd::std_specs::convert::FromSpecImpl<LinComb<T>> for QuadComb<T> {
    open spec fn obeys_from_spec() -> bool {
        false
    }

    open spec fn from_spec(lc: LinComb<T>) -> QuadComb<T> {
        arbitrary()
    }
}

impl<T: Field> From<Variable> for QuadComb<T> {
    fn from(var: Variable) -> QuadComb<T> {
        QuadComb::from_variable(var)
    }
}

impl<T: Field> vstd::std_specs::convert::FromSpecImpl<Variable> for QuadComb<T> {
    open spec fn obeys_from_spec() -> bool {
        false
    }

    open spec fn from_spec(var: Variable) -> QuadComb<T> {
        arbitrary()
    }
}

} // verus!
