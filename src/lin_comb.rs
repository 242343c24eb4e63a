use std::collections::HashMap;
use vstd::prelude::*;
use crate::field::Field;
use crate::text::{push_all, string_of};
use crate::variable::{var_text, Variable, id_of, is_id, var_of, lemma_id_of_injective, lemma_id_round_trip};

verus! {

broadcast use vstd::std_specs::hash::group_hash_axioms;

/// The residue of the coefficient at key `k` of `m`, zero where `m` has no
/// entry for `k`.
pub open spec fn coeff_in<T: Field>(m: Map<u128, T>, k: u128) -> nat {
    if m.contains_key(k) {
        m[k].val()
    } else {
        0
    }
}

/// Every key of `m` is the key of a variable, and every coefficient is well
/// formed and not zero.
pub open spec fn canonical<T: Field>(m: Map<u128, T>) -> bool {
    forall|k: u128| m.contains_key(k) ==> is_id(k) && (#[trigger] m[k]).inv() && m[k].val() != 0
}

/// A sum of variables scaled by coefficients, each variable appearing at most
/// once, kept by the key of the variable (see `id_of`).
#[derive(Debug, Clone, PartialEq, Eq)]
pub struct LinComb<T> {
    terms: HashMap<u128, T>,
}

impl<T> View for LinComb<T> {
    type V = Map<u128, T>;

    closed spec fn view(&self) -> Map<u128, T> {
        self.terms@
    }
}

impl<T: Field> LinComb<T> {
    /// No coefficient is zero, so that equal sums have equal maps.
    pub open spec fn wf(&self) -> bool {
        canonical(self@)
    }

    /// The residue of the coefficient of the variable of key `k`.
    pub open spec fn coeff(&self, k: u128) -> nat {
        coeff_in(self@, k)
    }

    /// `self` is canonical and is `a + b`.
    pub open spec fn is_sum(&self, a: LinComb<T>, b: LinComb<T>) -> bool {
        &&& self.wf()
        &&& forall|k: u128| #[trigger] self.coeff(k) == (a.coeff(k) + b.coeff(k)) % T::modulus()
    }

    /// `self` is canonical and is `a - b`.
    pub open spec fn is_difference(&self, a: LinComb<T>, b: LinComb<T>) -> bool {
        &&& self.wf()
        &&& forall|k: u128| #[trigger] self.coeff(k) == (a.coeff(k) - b.coeff(k)) % (T::modulus() as int)
    }

    /// `self` is canonical and is `c * v` for a coefficient of residue `c`.
    pub open spec fn is_term(&self, c: nat, v: Variable) -> bool {
        &&& self.wf()
        &&& forall|k: u128| #[trigger] self.coeff(k) == if k == id_of(v) { c } else { 0 }
    }

    /// `self` is the canonical one: `1 * Variable::One`.
    pub open spec fn is_one(&self) -> bool {
        self.is_term(1, Variable::One)
    }
}

/// Two canonical combinations with the same coefficient residues are the
/// same map.
pub proof fn lemma_coeff_ext<T: Field>(a: LinComb<T>, b: LinComb<T>)
    requires
        a.wf(),
        b.wf(),
        forall|k: u128| #[trigger] a.coeff(k) == b.coeff(k),
    ensures
        a@ == b@,
{
    assert forall|k: u128| #[trigger] a@.contains_key(k) == b@.contains_key(k) by {
        assert(a.coeff(k) == b.coeff(k));
        if a@.contains_key(k) {
            assert(a@[k].val() != 0);
        }
        if b@.contains_key(k) {
            assert(b@[k].val() != 0);
        }
    }
    assert forall|k: u128| a@.contains_key(k) implies a@[k] == b@[k] by {
        assert(a.coeff(k) == b.coeff(k));
        assert(a@[k].inv() && b@[k].inv());
        T::lemma_residue_injective(&a@[k], &b@[k]);
    }
    assert(a@.dom() =~= b@.dom());
    assert(a@ =~= b@);
}

/// Records `value` as the coefficient of `k` in `terms`, or drops the entry
/// for `k` where `value` is zero: the one place where zero coefficients are
/// pruned.
fn settle<T: Field>(terms: &mut HashMap<u128, T>, k: u128, value: T)
    requires
        value.inv(),
    ensures
        value.val() == 0 ==> final(terms)@ == old(terms)@.remove(k),
        value.val() != 0 ==> final(terms)@ == old(terms)@.insert(k, value),
{
    if value.is_zero() {
        terms.remove(&k);
    } else {
        terms.insert(k, value);
    }
}

/// Each coefficient of a canonical map is a residue below the modulus.
pub proof fn lemma_coeff_bound<T: Field>(m: Map<u128, T>, k: u128)
    requires
        canonical(m),
    ensures
        coeff_in(m, k) < T::modulus(),
{
    T::lemma_modulus();
    if m.contains_key(k) {
        T::lemma_residue(&m[k]);
    }
}

/// Some entry among the first `n` of `s` has key `k`.
pub open spec fn seen<T>(s: Seq<(&u128, &T)>, n: int, k: u128) -> bool {
    exists|j: int| 0 <= j < n && *(#[trigger] s[j]).0 == k
}

/// The coefficient that `other` contributes at `k`: its own, or its negation
/// where it is subtracted.
pub open spec fn contribution<T: Field>(other: Map<u128, T>, k: u128, subtract: bool) -> int {
    if subtract {
        -(coeff_in(other, k) as int)
    } else {
        coeff_in(other, k) as int
    }
}

/// Adds (or, where `subtract` holds, subtracts) the terms of `other` to those
/// of `terms`, key by key.
fn merge<T: Field>(terms: HashMap<u128, T>, other: &HashMap<u128, T>, subtract: bool) -> (r: HashMap<u128, T>)
    requires
        canonical(terms@),
        canonical(other@),
    ensures
        canonical(r@),
        forall|k: u128| #[trigger] coeff_in(r@, k) == (coeff_in(terms@, k) + contribution(other@, k, subtract)) % (T::modulus() as int),
{
    let mut res = terms;
    let zero = T::zero();
    proof {
        assert forall|k: u128| #[trigger] coeff_in(res@, k) == (coeff_in(terms@, k) as int) % (T::modulus() as int) by {
            lemma_coeff_bound(terms@, k);
            vstd::arithmetic::div_mod::lemma_small_mod(coeff_in(terms@, k), T::modulus());
        }
    }
    for kv in it: other.iter()
        invariant
            zero.val() == 0,
            zero.inv(),
            canonical(res@),
            canonical(other@),
            canonical(terms@),
            it.seq().no_duplicates(),
            forall|i: int| #![trigger it.seq()[i]] 0 <= i < it.seq().len() ==> other@.contains_key(*it.seq()[i].0) && other@[*it.seq()[i].0] == *it.seq()[i].1,
            forall|k: u128| #[trigger] other@.contains_key(k) ==> seen(it.seq(), it.seq().len() as int, k),
            forall|k: u128| #[trigger] coeff_in(res@, k) == (coeff_in(terms@, k) + if seen(it.seq(), it.index() as int, k) { contribution(other@, k, subtract) } else { 0 }) % (T::modulus() as int),
    {
        let (k, v) = kv;
        let current = match res.get(k) {
            Some(c) => c,
            None => &zero,
        };
        let new_val = if subtract {
            zero.sub(v).add(current)
        } else {
            v.add(current)
        };
        let ghost old_res = res@;
        settle(&mut res, *k, new_val);
        proof {
            assert(other@[*k] == *v);
            assert forall|q: u128| #![trigger res@.contains_key(q)] #![trigger res@[q]] res@.contains_key(q) implies is_id(q) && res@[q].inv() && res@[q].val() != 0 by {
                if q != *k {
                    assert(old_res.contains_key(q) && old_res[q] == res@[q]);
                }
            }
            assert(canonical(res@));
            let s = it.seq();
            let n = it.index() as int;
            let m = T::modulus() as int;
            let c = coeff_in(old_res, *k) as int;
            let t = coeff_in(terms@, *k) as int;
            assert(*s[n].0 == *k);
            T::lemma_residue(v);
            T::lemma_residue(current);
            assert(!seen(s, n, *k)) by {
                if seen(s, n, *k) {
                    let j = choose|j: int| 0 <= j < n && *(#[trigger] s[j]).0 == *k;
                    assert(s[j] == s[n]);
                }
            }
            assert(c == t % m);
            if subtract {
                vstd::arithmetic::div_mod::lemma_add_mod_noop(0 - v.val(), c, m);
                vstd::arithmetic::div_mod::lemma_add_mod_noop(0 - v.val(), t, m);
                vstd::arithmetic::div_mod::lemma_mod_twice(t, m);
                vstd::arithmetic::div_mod::lemma_mod_twice(0 - v.val(), m);
                assert(new_val.val() == (t + contribution(other@, *k, subtract)) % m);
            } else {
                vstd::arithmetic::div_mod::lemma_add_mod_noop(v.val() as int, t, m);
                vstd::arithmetic::div_mod::lemma_small_mod(v.val(), m as nat);
                vstd::arithmetic::div_mod::lemma_mod_twice(t, m);
                assert(new_val.val() == (t + contribution(other@, *k, subtract)) % m);
            }
            assert forall|q: u128| #[trigger] coeff_in(res@, q) == (coeff_in(terms@, q) + if seen(s, n + 1, q) { contribution(other@, q, subtract) } else { 0 }) % m by {
                if q == *k {
                    assert(seen(s, n + 1, q));
                    assert(coeff_in(res@, q) == new_val.val());
                } else {
                    assert(coeff_in(res@, q) == coeff_in(old_res, q));
                    assert(seen(s, n + 1, q) == seen(s, n, q)) by {
                        if seen(s, n + 1, q) {
                            let j = choose|j: int| 0 <= j < n + 1 && *(#[trigger] s[j]).0 == q;
                            assert(j < n);
                        }
                    }
                }
            }
        }
    }
    res
}

impl<T: Field> LinComb<T> {
    /// The combination `mult * var`. A zero `mult` gives the empty
    /// combination, so that every combination built here is canonical.
    pub fn summand(mult: T, var: Variable) -> (r: LinComb<T>)
        requires
            mult.inv(),
        ensures
            r.is_term(mult.val(), var),
            mult.val() == 0 ==> r@ == Map::<u128, T>::empty(),
            mult.val() != 0 ==> r@ == map![id_of(var) => mult],
    {
        let mut terms = HashMap::new();
        proof {
            lemma_id_of_injective(var, var);
        }
        settle(&mut terms, var.id(), mult);
        let r = LinComb { terms };
        proof {
            assert(r@ =~= if mult.val() == 0 { Map::<u128, T>::empty() } else { map![id_of(var) => mult] });
        }
        r
    }

    /// The canonical one: `1 * Variable::One`.
    pub fn one() -> (r: LinComb<T>)
        ensures
            r.is_one(),
    {
        Self::summand(T::one(), Variable::One)
    }

    /// The empty combination, the only canonical zero.
    pub fn zero() -> (r: LinComb<T>)
        ensures
            r.wf(),
            r@ == Map::<u128, T>::empty(),
    {
        LinComb { terms: HashMap::new() }
    }

    /// Whether no variable has a coefficient.
    pub fn is_zero(&self) -> (r: bool)
        ensures
            r == (self@ == Map::<u128, T>::empty()),
    {
        let r = self.terms.is_empty();
        proof {
            if r {
                assert(self@ =~= Map::<u128, T>::empty());
            } else {
                assert(self@.dom().len() != 0);
            }
        }
        r
    }

    /// Whether `var` has a coefficient here.
    pub fn has_term(&self, var: &Variable) -> (r: bool)
        ensures
            r == self@.contains_key(id_of(*var)),
    {
        self.terms.contains_key(&var.id())
    }

    /// The combination `1 * var`.
    pub fn from_variable(var: Variable) -> (r: LinComb<T>)
        ensures
            r.is_term(1, var),
    {
        Self::summand(T::one(), var)
    }

    /// `self + other`: the coefficients of each variable add up, and a
    /// variable whose sum is zero is left out.
    pub fn add(self, other: LinComb<T>) -> (r: LinComb<T>)
        requires
            self.wf(),
            other.wf(),
        ensures
            r.is_sum(self, other),
    {
        LinComb { terms: merge(self.terms, &other.terms, false) }
    }

    /// `self - other`: the coefficient of each variable in `other` is taken
    /// from that in `self`, and a variable whose difference is zero is left
    /// out.
    pub fn sub(self, other: LinComb<T>) -> (r: LinComb<T>)
        requires
            self.wf(),
            other.wf(),
        ensures
            r.is_difference(self, other),
    {
        LinComb { terms: merge(self.terms, &other.terms, true) }
    }
}

/// `ts` lists the map `m`: each pair is a variable and its coefficient in
/// `m`, each variable of `m` appears, and none appears twice.
pub open spec fn lists<T>(ts: Seq<(Variable, T)>, m: Map<u128, T>) -> bool {
    &&& forall|i: int| #![trigger ts[i]] 0 <= i < ts.len() ==> m.contains_key(id_of(ts[i].0)) && m[id_of(ts[i].0)] == ts[i].1
    &&& forall|k: u128| #[trigger] m.contains_key(k) ==> exists|i: int| 0 <= i < ts.len() && id_of((#[trigger] ts[i]).0) == k
    &&& forall|i: int, j: int| 0 <= i < j < ts.len() ==> (#[trigger] ts[i]).0 != (#[trigger] ts[j]).0
}

/// `ts` can stand for a combination: every coefficient is well formed and
/// not zero, and no variable appears twice.
pub open spec fn canonical_terms<T: Field>(ts: Seq<(Variable, T)>) -> bool {
    &&& forall|i: int| #![trigger ts[i]] 0 <= i < ts.len() ==> ts[i].1.inv() && ts[i].1.val() != 0
    &&& forall|i: int, j: int| 0 <= i < j < ts.len() ==> (#[trigger] ts[i]).0 != (#[trigger] ts[j]).0
}

impl<T: Field> LinComb<T> {
    /// The terms as (variable, coefficient) pairs, in no particular order:
    /// the interchange form of a combination.
    pub fn to_terms(&self) -> (r: Vec<(Variable, T)>)
        requires
            self.wf(),
        ensures
            lists(r@, self@),
    {
        let mut out: Vec<(Variable, T)> = Vec::new();
        for kv in it: self.terms.iter()
            invariant
                canonical(self@),
                it.seq().no_duplicates(),
                forall|i: int| #![trigger it.seq()[i]] 0 <= i < it.seq().len() ==> self@.contains_key(*it.seq()[i].0) && self@[*it.seq()[i].0] == *it.seq()[i].1,
                out@.len() == it.index(),
                forall|i: int| #![trigger out@[i]] 0 <= i < out@.len() ==> id_of(out@[i].0) == *it.seq()[i].0 && out@[i].1 == *it.seq()[i].1,
                forall|i: int| #![trigger out@[i]] 0 <= i < out@.len() ==> self@.contains_key(id_of(out@[i].0)) && self@[id_of(out@[i].0)] == out@[i].1,
                forall|i: int, j: int| 0 <= i < j < out@.len() ==> (#[trigger] out@[i]).0 != (#[trigger] out@[j]).0,
                forall|k: u128| #[trigger] self@.contains_key(k) ==> (exists|i: int| 0 <= i < out@.len() && id_of((#[trigger] out@[i]).0) == k) || (exists|j: int| it.index() <= j < it.seq().len() && *(#[trigger] it.seq()[j]).0 == k),
        {
            let (k, v) = kv;
            proof {
                assert(self@[*k] == *v);
            }
            let ghost old_out = out@;
            out.push((Variable::from_id(*k), v.duplicate()));
            proof {
                let s = it.seq();
                let n = it.index() as int;
                assert(*s[n].0 == *k);
                assert(out@[n].0 == var_of(*k));
                lemma_id_round_trip(*k);
                assert(id_of(out@[n].0) == *k);
                assert forall|i: int| #![trigger out@[i]] 0 <= i < out@.len() implies id_of(out@[i].0) == *s[i].0 && out@[i].1 == *s[i].1 by {
                    if i < n {
                        assert(out@[i] == old_out[i]);
                    }
                }
                assert forall|i: int, j: int| 0 <= i < j < out@.len() implies (#[trigger] out@[i]).0 != (#[trigger] out@[j]).0 by {
                    assert(out@[i] == old_out[i]);
                    if j == n && out@[i].0 == out@[j].0 {
                        assert(*s[i].0 == *s[j].0);
                        assert(s[i] == s[j]);
                    }
                }
                assert forall|q: u128| #[trigger] self@.contains_key(q) implies (exists|i: int| 0 <= i < out@.len() && id_of((#[trigger] out@[i]).0) == q) || (exists|j: int| n + 1 <= j < s.len() && *(#[trigger] s[j]).0 == q) by {
                    if exists|i: int| 0 <= i < old_out.len() && id_of((#[trigger] old_out[i]).0) == q {
                        let i = choose|i: int| 0 <= i < old_out.len() && id_of((#[trigger] old_out[i]).0) == q;
                        assert(out@[i] == old_out[i]);
                    } else {
                        let j = choose|j: int| n <= j < s.len() && *(#[trigger] s[j]).0 == q;
                        if j == n {
                            assert(id_of(out@[n].0) == q);
                        }
                    }
                }
            }
        }
        out
    }

    /// The combination that `ts` lists, or `None` where a coefficient is zero
    /// or a variable appears twice.
    pub fn from_terms(ts: Vec<(Variable, T)>) -> (r: Option<LinComb<T>>)
        requires
            forall|i: int| 0 <= i < ts@.len() ==> (#[trigger] ts@[i]).1.inv(),
        ensures
            r is Some <==> canonical_terms(ts@),
            r matches Some(c) ==> c.wf() && lists(ts@, c@),
    {
        let mut terms: HashMap<u128, T> = HashMap::new();
        let mut i: usize = 0;
        while i < ts.len()
            invariant
                i <= ts@.len(),
                forall|j: int| 0 <= j < ts@.len() ==> (#[trigger] ts@[j]).1.inv(),
                canonical(terms@),
                forall|j: int| #![trigger ts@[j]] 0 <= j < i ==> ts@[j].1.val() != 0,
                forall|j1: int, j2: int| 0 <= j1 < j2 < i ==> (#[trigger] ts@[j1]).0 != (#[trigger] ts@[j2]).0,
                forall|j: int| #![trigger ts@[j]] 0 <= j < i ==> terms@.contains_key(id_of(ts@[j].0)) && terms@[id_of(ts@[j].0)] == ts@[j].1,
                forall|k: u128| #[trigger] terms@.contains_key(k) ==> exists|j: int| 0 <= j < i && id_of((#[trigger] ts@[j]).0) == k,
            decreases ts@.len() - i,
        {
            let var = ts[i].0;
            let c = &ts[i].1;
            if c.is_zero() {
                return None;
            }
            let k = var.id();
            if terms.contains_key(&k) {
                proof {
                    let j = choose|j: int| 0 <= j < i && id_of((#[trigger] ts@[j]).0) == k;
                    lemma_id_of_injective(ts@[j].0, var);
                    assert(!canonical_terms(ts@));
                }
                return None;
            }
            let ghost old_terms = terms@;
            proof {
                lemma_id_of_injective(var, var);
            }
            terms.insert(k, c.duplicate());
            proof {
                assert forall|q: u128| #![trigger terms@.contains_key(q)] #![trigger terms@[q]] terms@.contains_key(q) implies is_id(q) && terms@[q].inv() && terms@[q].val() != 0 by {
                    if q != k {
                        assert(old_terms.contains_key(q));
                    }
                }
                assert forall|j1: int, j2: int| 0 <= j1 < j2 < i + 1 implies (#[trigger] ts@[j1]).0 != (#[trigger] ts@[j2]).0 by {
                    if j2 == i {
                        assert(old_terms.contains_key(id_of(ts@[j1].0)));
                    }
                }
                assert forall|q: u128| #[trigger] terms@.contains_key(q) implies exists|j: int| 0 <= j < i + 1 && id_of((#[trigger] ts@[j]).0) == q by {
                    if q == k {
                        assert(id_of(ts@[i as int].0) == q);
                    } else {
                        assert(old_terms.contains_key(q));
                    }
                }
            }
            i = i + 1;
        }
        Some(LinComb { terms })
    }
}

/// How the term `c * v` is written: `<c> * <v>`.
pub open spec fn term_text<T: Field>(t: (Variable, T)) -> Seq<char> {
    t.1.text() + seq![' ', '*', ' '] + var_text(t.0)
}

/// The terms `ts` written one after the other, separated by ` + `.
pub open spec fn terms_text<T: Field>(ts: Seq<(Variable, T)>) -> Seq<char>
    decreases ts.len(),
{
    if ts.len() == 0 {
        Seq::empty()
    } else if ts.len() == 1 {
        term_text(ts[0])
    } else {
        terms_text(ts.drop_last()) + seq![' ', '+', ' '] + term_text(ts.last())
    }
}

impl<T: Field> LinComb<T> {
    /// The terms written as `<coefficient> * <variable>`, separated by
    /// ` + `, in no particular order; the empty combination is the empty
    /// text.
    pub fn render(&self) -> (r: Vec<char>)
        requires
            self.wf(),
        ensures
            exists|ts: Seq<(Variable, T)>| lists(ts, self@) && r@ == terms_text(ts),
    {
        let ts = self.to_terms();
        let mut out: Vec<char> = Vec::new();
        let mut i: usize = 0;
        while i < ts.len()
            invariant
                i <= ts@.len(),
                lists(ts@, self@),
                canonical(self@),
                out@ == terms_text(ts@.take(i as int)),
            decreases ts@.len() - i,
        {
            proof {
                assert(self@.contains_key(id_of(ts@[i as int].0)));
            }
            if i > 0 {
                out.push(' ');
                out.push('+');
                out.push(' ');
            }
            let c = ts[i].1.render();
            push_all(&mut out, &c);
            out.push(' ');
            out.push('*');
            out.push(' ');
            ts[i].0.render_into(&mut out);
            proof {
                let pre = ts@.take(i as int);
                let next = ts@.take(i + 1);
                assert(next.drop_last() =~= pre);
                assert(next.last() == ts@[i as int]);
                if i == 0 {
                    assert(out@ =~= terms_text(next));
                } else {
                    assert(out@ =~= terms_text(next));
                }
            }
            i = i + 1;
        }
        proof {
            assert(ts@.take(i as int) =~= ts@);
        }
        out
    }

    /// `render` as a string.
    pub fn to_text(&self) -> (r: String)
        requires
            self.wf(),
        ensures
            exists|ts: Seq<(Variable, T)>| lists(ts, self@) && r@ == terms_text(ts),
    {
        string_of(&self.render())
    }
}

impl<T: Field> std::ops::Add for LinComb<T> {
    type Output = LinComb<T>;

    fn add(self, other: LinComb<T>) -> LinComb<T> {
        LinComb::add(self, other)
    }
}

impl<T: Field> vstd::std_specs::ops::AddSpecImpl for LinComb<T> {
    open spec fn obeys_add_spec() -> bool {
        false
    }

    open spec fn add_req(self, other: LinComb<T>) -> bool {
        self.wf() && other.wf()
    }

    open spec fn add_spec(self, other: LinComb<T>) -> LinComb<T> {
        arbitrary()
    }
}

impl<T: Field> std::ops::Sub for LinComb<T> {
    type Output = LinComb<T>;

    fn sub(self, other: LinComb<T>) -> LinComb<T> {
        LinComb::sub(self, other)
    }
}

impl<T: Field> vstd::std_specs::ops::SubSpecImpl for LinComb<T> {
    open spec fn obeys_sub_spec() -> bool {
        false
    }

    open spec fn sub_req(self, other: LinComb<T>) -> bool {
        self.wf() && other.wf()
    }

    open spec fn sub_spec(self, other: LinComb<T>) -> LinComb<T> {
        arbitrary()
    }
}

impl<T: Field> From<Variable> for LinComb<T> {
    fn from(var: Variable) -> LinComb<T> {
        LinComb::from_variable(var)
    }
}

impl<T: Field> vstd::std_specs::convert::FromSpecImpl<Variable> for LinComb<T> {
    open spec fn obeys_from_spec() -> bool {
        false
    }

    open spec fn from_spec(var: Variable) -> LinComb<T> {
        arbitrary()
    }
}

} // verus!
