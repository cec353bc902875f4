use coplt_inherit::lambda::bool_private;
use coplt_inherit::lambda::inc_private;
use coplt_inherit::lambda::{
    CalcCount, Lambda, K,
    and, count, dec, if_then_else, inc, is_eq, is_zero, minus, not, numeral, or, plus, ss, times,
    Cap0, Counter, CountZero, Fix, Id, Tally, Term, Tick, Type, I, S, SS, SSS, True, Z,
};

const FUEL: u64 = 1000;

fn value_of(t: &Term) -> usize {
    t.value()
}

fn count_value(t: &Term) -> usize {
    value_of(&count(t, FUEL).unwrap())
}

#[test]
fn lambda_foo() {
    let a = count(&minus(&numeral(5), &numeral(2), FUEL).unwrap(), FUEL).unwrap();
    println!("{}", a.value());
    assert_eq!(a.value(), 3);

    let b = is_eq(&numeral(5), &numeral(5), FUEL).unwrap();
    assert!(matches!(b, Term::True(True)));

    let c = count(&times(numeral(3), numeral(3)), FUEL).unwrap();
    println!("{}", c.value());
}

#[test]
fn count_of_dec_of_sum() {
    let a = count(&dec(plus(numeral(2), numeral(2))), FUEL).unwrap();
    assert_eq!(a.value(), 3);
}

#[test]
fn count_of_product() {
    assert_eq!(count_value(&times(numeral(3), numeral(3))), 9);
    assert_eq!(count_value(&times(numeral(0), numeral(7))), 0);
    assert_eq!(count_value(&times(numeral(4), numeral(1))), 4);
}

#[test]
fn count_of_numerals() {
    for n in 0..12u64 {
        assert_eq!(count_value(&numeral(n)), n as usize);
    }
    assert_eq!(count(&numeral(0), FUEL).unwrap(), Term::CountZero(CountZero));
}

#[test]
fn inc_and_sum() {
    assert_eq!(count_value(&inc(numeral(6))), 7);
    assert_eq!(count_value(&plus(numeral(4), numeral(5))), 9);
    assert_eq!(count_value(&plus(numeral(0), numeral(0))), 0);
}

#[test]
fn dec_stops_at_zero() {
    assert_eq!(count_value(&dec(numeral(0))), 0);
    assert_eq!(count_value(&dec(numeral(1))), 0);
    assert_eq!(count_value(&dec(numeral(8))), 7);
}

#[test]
fn minus_stops_at_zero() {
    let d = minus(&numeral(2), &numeral(5), FUEL).unwrap();
    assert_eq!(count_value(&d), 0);
    let d = minus(&numeral(7), &numeral(0), FUEL).unwrap();
    assert_eq!(count_value(&d), 7);
    let d = minus(&numeral(6), &numeral(6), FUEL).unwrap();
    assert_eq!(count_value(&d), 0);
}

#[test]
fn minus_is_dec_applied() {
    let d = minus(&numeral(3), &numeral(2), FUEL).unwrap();
    assert_eq!(d, dec(dec(numeral(3))));
}

#[test]
fn is_zero_tests() {
    assert_eq!(is_zero(&numeral(0), FUEL).unwrap(), Term::True(True));
    assert_eq!(is_zero(&numeral(3), FUEL).unwrap(), Term::Z(Z));
    assert_eq!(is_zero(&minus(&numeral(3), &numeral(3), FUEL).unwrap(), FUEL).unwrap(), Term::True(True));
}

#[test]
fn is_eq_tests() {
    assert_eq!(is_eq(&numeral(4), &numeral(5), FUEL).unwrap(), Term::Z(Z));
    assert_eq!(is_eq(&numeral(5), &numeral(4), FUEL).unwrap(), Term::Z(Z));
    assert_eq!(is_eq(&numeral(0), &numeral(0), FUEL).unwrap(), Term::True(True));
    assert_eq!(is_eq(&numeral(6), &times(numeral(2), numeral(3)), FUEL).unwrap(), Term::True(True));
    assert_eq!(is_eq(&numeral(10), &times(numeral(2), numeral(3)), FUEL).unwrap(), Term::Z(Z));
}

#[test]
fn booleans() {
    let t = Term::True(True);
    let f = Term::Z(Z);
    let a = numeral(1);
    let b = numeral(2);
    assert_eq!(if_then_else(&t, &a, &b, FUEL).unwrap(), numeral(1));
    assert_eq!(if_then_else(&f, &a, &b, FUEL).unwrap(), numeral(2));
    assert_eq!(not(&t, FUEL).unwrap(), Term::Z(Z));
    assert_eq!(not(&f, FUEL).unwrap(), Term::True(True));
    assert_eq!(and(&t, &t, FUEL).unwrap(), Term::True(True));
    assert_eq!(and(&t, &f, FUEL).unwrap(), Term::Z(Z));
    assert_eq!(and(&f, &t, FUEL).unwrap(), Term::Z(Z));
    assert_eq!(or(&f, &f, FUEL).unwrap(), Term::Z(Z));
    assert_eq!(or(&f, &t, FUEL).unwrap(), Term::True(True));
    assert_eq!(or(&t, &f, FUEL).unwrap(), Term::True(True));
}

#[test]
fn combinators() {
    let x = numeral(3);
    assert_eq!(Term::Id(Id).apply(&x, 1).unwrap(), numeral(3));
    let k = Term::True(True).apply(&numeral(1), 1).unwrap();
    assert_eq!(k.apply(&numeral(2), 1).unwrap(), numeral(1));
    let c = Term::Cap0(Cap0(Box::new(numeral(4))));
    assert_eq!(c.apply(&numeral(9), 1).unwrap(), numeral(4));
    let ty = Term::Type(Type(17));
    assert_eq!(ty.apply(&numeral(1), 1).unwrap(), Term::Type(Type(17)));
    let skk = ss(&Term::True(True), &Term::True(True), &numeral(5), FUEL).unwrap();
    assert_eq!(skk, numeral(5));
    let partial = Term::S(S).apply(&Term::Id(Id), 1).unwrap();
    assert_eq!(partial, Term::SS(SS(Box::new(Term::Id(Id)))));
    let both = partial.apply(&Term::Id(Id), 1).unwrap();
    assert_eq!(both, Term::SSS(SSS(Box::new(Term::Id(Id)), Box::new(Term::Id(Id)))));
}

#[test]
fn fix_unfolds() {
    // Fix K = K (λ v. Fix K v): the constant function returning the
    // self-application.
    let fk = Term::Fix(Fix).apply(&Term::True(True), FUEL).unwrap();
    let r = fk.apply(&numeral(2), FUEL).unwrap();
    let again = r.apply(&numeral(7), FUEL).unwrap();
    assert_eq!(again, r);
    assert!(matches!(fk, Term::BoolTrue(_)));
}

#[test]
fn fuel_runs_out() {
    // S I I (S I I) never settles.
    let sii = ss(&Term::Id(Id), &Term::Id(Id), &Term::Id(Id), 3).unwrap();
    assert_eq!(sii, Term::Id(Id));
    let omega_half = Term::SSS(SSS(Box::new(Term::Id(Id)), Box::new(Term::Id(Id))));
    assert_eq!(omega_half.apply(&omega_half.copied(), 200), None);
    assert_eq!(count(&numeral(5), 2), None);
    assert_eq!(Term::Id(Id).apply(&numeral(1), 0), None);
}

#[test]
fn counters() {
    let z = CountZero;
    assert_eq!(z.value(), 0);
    let c = Counter(Tally::Tick(Tick::One));
    assert_eq!(c.value(), 1);
    let grown = Term::Counter(Counter(Tally::Tick(Tick::One))).apply(&Term::CountZero(CountZero), 1).unwrap();
    assert_eq!(grown.value(), 1);
    let twice = Term::Counter(Counter(Tally::Tick(Tick::One))).apply(&grown, 1).unwrap();
    assert_eq!(twice.value(), 2);
    assert_eq!(twice.size(), 2);
    assert_eq!(Term::CountZero(CountZero).apply(&numeral(3), 1).unwrap(), Term::CountZero(CountZero));
}

#[test]
fn numerals_and_copies() {
    assert_eq!(numeral(0), Term::Z(Z));
    assert_eq!(numeral(2), Term::Inc(inc_private::I(Box::new(Term::Inc(inc_private::I(Box::new(Term::Z(Z))))))));
    let t = times(numeral(2), plus(numeral(1), numeral(3)));
    assert_eq!(t.copied(), t);
    assert_eq!(Term::Type(Type(5)).stored_type(), Some(5));
    assert_eq!(numeral(1).stored_type(), None);
}

#[test]
fn substitution() {
    // S K I z = K z (I z) = z
    assert_eq!(ss(&Term::True(True), &Term::Id(Id), &numeral(4), FUEL).unwrap(), numeral(4));
    // S (K K) I z = K K z (I z) = K z
    let kk = Term::True(True).apply(&Term::True(True), 1).unwrap();
    let r = ss(&kk, &Term::Id(Id), &numeral(1), FUEL).unwrap();
    assert_eq!(r, Term::BoolTrue(bool_private::True(Box::new(numeral(1)))));
}

#[test]
fn lambda_trait() {
    assert_eq!(Id.apply_to(&numeral(2), 1), Some(numeral(2)));
    assert_eq!(Type(9).stored_type_of(), Some(9));
    assert_eq!(True.stored_type_of(), None);
    assert_eq!(Z.to_term(), numeral(0));
    let c = CalcCount.apply_to(&numeral(4), FUEL).unwrap();
    assert_eq!(c.value(), 4);
    assert_eq!(numeral(3).apply_to(&Term::Id(Id), FUEL).unwrap(), Term::IncF(inc_private::II(Box::new(numeral(2)), Box::new(Term::Id(Id)))));
}

#[test]
fn identity_and_constant_aliases() {
    assert_eq!(I.apply_to(&numeral(3), 1), Some(numeral(3)));
    let k = K.apply_to(&numeral(1), 1).unwrap();
    assert_eq!(k.apply(&numeral(2), 1), Some(numeral(1)));
}

#[test]
fn stated_fuel_bounds_suffice() {
    // Count<n> from fuel n + 3 on.
    assert_eq!(count(&numeral(5), 8).unwrap().value(), 5);
    // Count<Inc<n>> from n + 4.
    assert_eq!(count(&inc(numeral(4)), 8).unwrap().value(), 5);
    // Count<Add<m, n>> and Count<Mul<m, n>> from m + n + 5.
    assert_eq!(count(&plus(numeral(2), numeral(3)), 10).unwrap().value(), 5);
    assert_eq!(count(&times(numeral(3), numeral(3)), 11).unwrap().value(), 9);
    // Count<Dec<n>> from 2 * n + 5.
    assert_eq!(count(&dec(numeral(4)), 13).unwrap().value(), 3);
    // Sub<m, n> and its Count from m + 3 + n * (m + 2).
    let d = minus(&numeral(5), &numeral(2), 22).unwrap();
    assert_eq!(count(&d, 22).unwrap().value(), 3);
    // IsEq<m, n> from m + n + 4 + n * (m + 2) + m * (n + 2).
    assert_eq!(is_eq(&numeral(5), &numeral(5), 84).unwrap(), Term::True(True));
    assert_eq!(is_eq(&numeral(5), &numeral(4), 77).unwrap(), Term::Z(Z));
}
