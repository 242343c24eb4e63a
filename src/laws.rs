use vstd::prelude::*;
use crate::field::Field;
use crate::lin_comb::{LinComb, canonical_terms, lists, lemma_coeff_bound, lemma_coeff_ext};
use crate::quad_comb::QuadComb;
use crate::variable::{Variable, id_of};

verus! {

/// `a - a` is the empty combination, whatever `a` holds.
pub proof fn lemma_sub_self_is_zero<T: Field>(a: LinComb<T>, r: LinComb<T>)
    requires
        a.wf(),
        r.is_difference(a, a),
    ensures
        r@ == Map::<u128, T>::empty(),
{
    assert forall|k: u128| !r@.contains_key(k) by {
        T::lemma_modulus();
        assert(r.coeff(k) == (a.coeff(k) - a.coeff(k)) % (T::modulus() as int));
        vstd::arithmetic::div_mod::lemma_small_mod(0, T::modulus());
        assert(r.coeff(k) == 0);
        if r@.contains_key(k) {
            assert(r@[k].val() != 0);
        }
    }
    assert(r@ =~= Map::<u128, T>::empty());
}

/// The empty combination is an identity of addition on either side.
pub proof fn lemma_zero_is_identity<T: Field>(a: LinComb<T>, z: LinComb<T>, r: LinComb<T>, s: LinComb<T>)
    requires
        a.wf(),
        z@ == Map::<u128, T>::empty(),
        r.is_sum(z, a),
        s.is_sum(a, z),
    ensures
        r@ == a@,
        s@ == a@,
{
    assert forall|k: u128| #[trigger] r.coeff(k) == a.coeff(k) by {
        assert(z.coeff(k) == 0);
        lemma_coeff_bound(a@, k);
        vstd::arithmetic::div_mod::lemma_small_mod(a.coeff(k), T::modulus());
    }
    assert forall|k: u128| #[trigger] s.coeff(k) == a.coeff(k) by {
        assert(z.coeff(k) == 0);
        assert(s.coeff(k) == (a.coeff(k) + z.coeff(k)) % T::modulus());
        lemma_coeff_bound(a@, k);
        vstd::arithmetic::div_mod::lemma_small_mod(a.coeff(k), T::modulus());
    }
    lemma_coeff_ext(r, a);
    lemma_coeff_ext(s, a);
}

/// Addition is commutative.
pub proof fn lemma_add_commutes<T: Field>(a: LinComb<T>, b: LinComb<T>, r: LinComb<T>, s: LinComb<T>)
    requires
        a.wf(),
        b.wf(),
        r.is_sum(a, b),
        s.is_sum(b, a),
    ensures
        r@ == s@,
{
    assert forall|k: u128| #[trigger] r.coeff(k) == s.coeff(k) by {
        assert(r.coeff(k) == (a.coeff(k) + b.coeff(k)) % T::modulus());
        assert(s.coeff(k) == (b.coeff(k) + a.coeff(k)) % T::modulus());
    }
    lemma_coeff_ext(r, s);
}

/// A variable lifted to a linear combination is the term of that variable
/// with coefficient one.
pub proof fn lemma_variable_lift<T: Field>(var: Variable, one: T, a: LinComb<T>, b: LinComb<T>)
    requires
        one.inv(),
        one.val() == 1,
        a.is_term(1, var),
        b.is_term(one.val(), var),
    ensures
        a@ == b@,
{
    assert forall|k: u128| #[trigger] a.coeff(k) == b.coeff(k) by {
    }
    lemma_coeff_ext(a, b);
}

/// A linear combination `lc` lifted to a quadratic one is `one() * lc`.
pub proof fn lemma_linear_lift<T: Field>(lc: LinComb<T>, q: QuadComb<T>, one: LinComb<T>)
    requires
        q.left.is_one(),
        q.right == lc,
        one.is_one(),
    ensures
        q.left@ == one@,
        q.right == lc,
{
    assert forall|k: u128| #[trigger] q.left.coeff(k) == one.coeff(k) by {
    }
    lemma_coeff_ext(q.left, one);
}

/// Two maps that one list of terms lists are the same map.
pub proof fn lemma_lists_unique<T>(ts: Seq<(Variable, T)>, m: Map<u128, T>, n: Map<u128, T>)
    requires
        lists(ts, m),
        lists(ts, n),
    ensures
        m == n,
{
    assert forall|k: u128| #[trigger] m.contains_key(k) == n.contains_key(k) by {
        if m.contains_key(k) {
            let i = choose|i: int| 0 <= i < ts.len() && id_of((#[trigger] ts[i]).0) == k;
        }
        if n.contains_key(k) {
            let i = choose|i: int| 0 <= i < ts.len() && id_of((#[trigger] ts[i]).0) == k;
        }
    }
    assert forall|k: u128| m.contains_key(k) implies m[k] == n[k] by {
        let i = choose|i: int| 0 <= i < ts.len() && id_of((#[trigger] ts[i]).0) == k;
    }
    assert(m =~= n);
}

/// The terms that list a canonical combination can stand for one.
pub proof fn lemma_listed_terms_canonical<T: Field>(a: LinComb<T>, ts: Seq<(Variable, T)>)
    requires
        a.wf(),
        lists(ts, a@),
    ensures
        canonical_terms(ts),
{
    assert forall|i: int| #![trigger ts[i]] 0 <= i < ts.len() implies ts[i].1.inv() && ts[i].1.val() != 0 by {
        assert(a@.contains_key(id_of(ts[i].0)));
    }
}

/// Writing a combination out as its terms and reading them back gives the
/// same combination.
pub proof fn lemma_terms_round_trip<T: Field>(a: LinComb<T>, ts: Seq<(Variable, T)>, r: Option<LinComb<T>>)
    requires
        a.wf(),
        lists(ts, a@),
        r is Some <==> canonical_terms(ts),
        r matches Some(c) ==> c.wf() && lists(ts, c@),
    ensures
        r matches Some(c) && c@ == a@,
{
    lemma_listed_terms_canonical(a, ts);
    lemma_lists_unique(ts, r->0@, a@);
}

/// Writing a product out as the terms of its factors and reading them back
/// gives the same product.
pub proof fn lemma_quad_terms_round_trip<T: Field>(
    q: QuadComb<T>,
    left: Seq<(Variable, T)>,
    right: Seq<(Variable, T)>,
    r: Option<QuadComb<T>>,
)
    requires
        q.wf(),
        lists(left, q.left@),
        lists(right, q.right@),
        r is Some <==> canonical_terms(left) && canonical_terms(right),
        r matches Some(p) ==> p.wf() && lists(left, p.left@) && lists(right, p.right@),
    ensures
        r matches Some(p) && p.left@ == q.left@ && p.right@ == q.right@,
{
    lemma_listed_terms_canonical(q.left, left);
    lemma_listed_terms_canonical(q.right, right);
    lemma_lists_unique(left, r->0.left@, q.left@);
    lemma_lists_unique(right, r->0.right@, q.right@);
}

} // verus!
