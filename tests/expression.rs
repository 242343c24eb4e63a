use zokrates_core::field::{Field, FieldPrime, PRIME};
use zokrates_core::lin_comb::LinComb;
use zokrates_core::quad_comb::QuadComb;
use zokrates_core::variable::Variable;

fn fp(n: u64) -> FieldPrime {
    FieldPrime::from(n)
}

#[test]
fn add_zero() {
    let a: LinComb<FieldPrime> = LinComb::zero();
    let b: LinComb<FieldPrime> = Variable::Private(42).into();
    let c = a + b.clone();
    assert_eq!(c, b);
}

#[test]
fn add() {
    let a: LinComb<FieldPrime> = Variable::Private(42).into();
    let b: LinComb<FieldPrime> = Variable::Private(42).into();
    let c = a + b.clone();
    let expected = LinComb::summand(FieldPrime::from(2), Variable::Private(42));
    assert_eq!(c, expected);
}

#[test]
fn sub() {
    let a: LinComb<FieldPrime> = Variable::Private(42).into();
    let b: LinComb<FieldPrime> = Variable::Private(42).into();
    let c = a - b.clone();
    assert_eq!(c, LinComb::zero());
}

#[test]
fn from_linear() {
    let a: LinComb<FieldPrime> = LinComb::summand(fp(3), Variable::Private(42))
        + LinComb::summand(fp(4), Variable::Private(33));
    let expected = QuadComb {
        left: LinComb::one(),
        right: a.clone(),
    };
    assert_eq!(QuadComb::from(a), expected);
}

#[test]
fn zero() {
    let a: LinComb<FieldPrime> = LinComb::zero();
    let expected: QuadComb<FieldPrime> = QuadComb {
        left: LinComb::one(),
        right: LinComb::zero(),
    };
    assert_eq!(QuadComb::from(a), expected);
}

#[test]
fn sub_self_is_empty() {
    let a: LinComb<FieldPrime> = LinComb::summand(fp(3), Variable::Private(1))
        .add(LinComb::summand(fp(7), Variable::Public(2)))
        .add(LinComb::one());
    let c = a.clone().sub(a);
    assert!(c.is_zero());
    assert_eq!(c, LinComb::zero());
}

#[test]
fn zero_is_identity_on_both_sides() {
    let a: LinComb<FieldPrime> = LinComb::summand(fp(5), Variable::Private(9))
        .add(LinComb::summand(fp(6), Variable::One));
    assert_eq!(LinComb::zero().add(a.clone()), a);
    assert_eq!(a.clone().add(LinComb::zero()), a);
}

#[test]
fn add_is_commutative() {
    let a: LinComb<FieldPrime> = LinComb::summand(fp(5), Variable::Private(9))
        .add(LinComb::summand(fp(6), Variable::Public(0)));
    let b: LinComb<FieldPrime> = LinComb::summand(fp(PRIME - 5), Variable::Private(9))
        .add(LinComb::summand(fp(8), Variable::Private(3)));
    let ab = a.clone().add(b.clone());
    let ba = b.add(a);
    assert_eq!(ab, ba);
    assert!(!ab.has_term(&Variable::Private(9)));
    assert!(ab.has_term(&Variable::Public(0)));
    assert!(ab.has_term(&Variable::Private(3)));
}

#[test]
fn cancellation_removes_key() {
    let v = Variable::Private(42);
    let a: LinComb<FieldPrime> = LinComb::summand(fp(3), v);
    let b: LinComb<FieldPrime> = LinComb::summand(fp(3), v);
    let c = a.sub(b);
    assert!(!c.has_term(&v));
    assert!(c.is_zero());
}

#[test]
fn accumulation() {
    let v = Variable::Public(7);
    let a: LinComb<FieldPrime> = LinComb::summand(fp(1), v);
    assert_eq!(a.clone().add(a), LinComb::summand(fp(2), v));
}

#[test]
fn variable_lift() {
    let v = Variable::Public(3);
    let a: LinComb<FieldPrime> = LinComb::from(v);
    assert_eq!(a, LinComb::summand(FieldPrime::one(), v));
    let q: QuadComb<FieldPrime> = QuadComb::from(v);
    assert_eq!(q, QuadComb::from_linear_combinations(LinComb::one(), a));
}

#[test]
fn one_is_unit_on_constant_variable() {
    let one: LinComb<FieldPrime> = LinComb::one();
    assert_eq!(one, LinComb::summand(fp(1), Variable::One));
    assert!(one.has_term(&Variable::One));
    assert!(!one.has_term(&Variable::Private(0)));
}

#[test]
fn zero_summand_is_normalized() {
    let a: LinComb<FieldPrime> = LinComb::summand(fp(0), Variable::Private(5));
    assert!(a.is_zero());
    assert_eq!(a, LinComb::zero());
    let b: LinComb<FieldPrime> = LinComb::summand(fp(PRIME), Variable::Private(5));
    assert!(b.is_zero());
}

#[test]
fn sub_wraps_below_zero() {
    let v = Variable::Private(1);
    let a: LinComb<FieldPrime> = LinComb::summand(fp(3), v);
    let b: LinComb<FieldPrime> = LinComb::summand(fp(5), v);
    assert_eq!(a.sub(b), LinComb::summand(fp(PRIME - 2), v));
    let c: LinComb<FieldPrime> = LinComb::zero().sub(LinComb::summand(fp(1), v));
    assert_eq!(c, LinComb::summand(fp(PRIME - 1), v));
}

#[test]
fn add_wraps_at_modulus() {
    let v = Variable::One;
    let a: LinComb<FieldPrime> = LinComb::summand(fp(PRIME - 1), v);
    let b: LinComb<FieldPrime> = LinComb::summand(fp(3), v);
    assert_eq!(a.add(b), LinComb::summand(fp(2), v));
}

#[test]
fn from_linear_combinations_keeps_factors() {
    let l: LinComb<FieldPrime> = LinComb::summand(fp(2), Variable::Private(1));
    let r: LinComb<FieldPrime> = LinComb::summand(fp(3), Variable::Public(1));
    let q = QuadComb::from_linear_combinations(l.clone(), r.clone());
    assert_eq!(q.left, l);
    assert_eq!(q.right, r);
}

#[test]
fn field_prime_arithmetic() {
    assert_eq!(fp(PRIME - 1).add(&fp(1)), fp(0));
    assert_eq!(fp(0).sub(&fp(1)).value(), PRIME - 1);
    assert_eq!(fp(10).sub(&fp(4)).value(), 6);
    assert_eq!(fp(PRIME + 5).value(), 5);
    assert!(FieldPrime::zero().is_zero());
    assert!(!FieldPrime::one().is_zero());
    assert_eq!(FieldPrime::one().duplicate(), fp(1));
}

#[test]
fn variable_ids_are_distinct() {
    assert_eq!(Variable::One.id(), 0);
    assert_eq!(Variable::Public(4).id(), 9);
    assert_eq!(Variable::Private(4).id(), 10);
}

#[test]
fn terms_round_trip() {
    let a: LinComb<FieldPrime> = LinComb::summand(fp(3), Variable::Private(42))
        + LinComb::summand(fp(4), Variable::Private(33))
        + LinComb::one();
    let ts = a.to_terms();
    assert_eq!(ts.len(), 3);
    assert!(ts.contains(&(Variable::Private(42), fp(3))));
    assert!(ts.contains(&(Variable::Private(33), fp(4))));
    assert!(ts.contains(&(Variable::One, fp(1))));
    assert_eq!(LinComb::from_terms(ts), Some(a));
    let z: LinComb<FieldPrime> = LinComb::zero();
    assert_eq!(z.to_terms(), vec![]);
    assert_eq!(LinComb::from_terms(vec![]), Some(z));
}

#[test]
fn from_terms_rejects_zero_and_repeats() {
    let zero_coeff: Vec<(Variable, FieldPrime)> = vec![(Variable::Private(1), fp(0))];
    assert_eq!(LinComb::from_terms(zero_coeff), None);
    let repeated = vec![(Variable::Public(1), fp(2)), (Variable::Public(1), fp(3))];
    assert_eq!(LinComb::from_terms(repeated), None);
    let fine = vec![(Variable::Public(1), fp(2)), (Variable::Private(1), fp(3))];
    let c = LinComb::from_terms(fine).unwrap();
    assert_eq!(c, LinComb::summand(fp(2), Variable::Public(1)) + LinComb::summand(fp(3), Variable::Private(1)));
}

#[test]
fn quad_terms_round_trip() {
    let q: QuadComb<FieldPrime> = QuadComb::from_linear_combinations(
        LinComb::summand(fp(2), Variable::Private(7)) + LinComb::one(),
        LinComb::summand(fp(5), Variable::Public(0)),
    );
    let (l, r) = q.to_terms();
    assert_eq!(l.len(), 2);
    assert_eq!(r, vec![(Variable::Public(0), fp(5))]);
    assert_eq!(QuadComb::from_terms(l, r), Some(q));
    let bad = vec![(Variable::One, fp(0))];
    assert_eq!(QuadComb::<FieldPrime>::from_terms(vec![], bad), None);
}

#[test]
fn text_of_single_term() {
    let a: LinComb<FieldPrime> = LinComb::summand(fp(3), Variable::Private(42));
    assert_eq!(a.to_text(), "3 * _42");
    let one: LinComb<FieldPrime> = LinComb::one();
    assert_eq!(one.to_text(), "1 * ~one");
    let p: LinComb<FieldPrime> = LinComb::summand(fp(1234567), Variable::Public(10));
    assert_eq!(p.to_text(), "1234567 * ~out_10");
    let z: LinComb<FieldPrime> = LinComb::zero();
    assert_eq!(z.to_text(), "");
}

#[test]
fn text_of_two_terms() {
    let a: LinComb<FieldPrime> = LinComb::summand(fp(3), Variable::Private(42))
        + LinComb::summand(fp(4), Variable::Private(33));
    let t = a.to_text();
    assert!(t == "3 * _42 + 4 * _33" || t == "4 * _33 + 3 * _42");
}

#[test]
fn text_of_product() {
    let q: QuadComb<FieldPrime> = QuadComb::from(LinComb::summand(fp(3), Variable::Private(42)));
    assert_eq!(q.to_text(), "(1 * ~one) * (3 * _42)");
    let z: QuadComb<FieldPrime> = QuadComb::from_linear_combinations(LinComb::zero(), LinComb::zero());
    assert_eq!(z.to_text(), "() * ()");
}

#[test]
fn text_of_large_coefficient() {
    let a: LinComb<FieldPrime> = LinComb::summand(fp(0).sub(&fp(1)), Variable::Private(0));
    assert_eq!(a.to_text(), format!("{} * _0", PRIME - 1));
}
