use coplt_inherit::lambda::{is_eq, numeral, times, Cap0, Term, True, Z};
use coplt_inherit::meta::select;

const FUEL: u64 = 1000;
const U8: u64 = 8;
const U16: u64 = 16;

#[test]
fn meta_foo() {
    let a = select(&is_eq(&numeral(10), &times(numeral(2), numeral(3)), FUEL).unwrap(), U8, U16, FUEL);
    println!("{:?}", a);
    assert_eq!(a, Some(Some(U16)));

    let a = select(&is_eq(&numeral(6), &times(numeral(2), numeral(3)), FUEL).unwrap(), U8, U16, FUEL);
    println!("{:?}", a);
    assert_eq!(a, Some(Some(U8)));
}

#[test]
fn select_on_booleans() {
    assert_eq!(select(&Term::True(True), 1, 2, 1), Some(Some(1)));
    assert_eq!(select(&Term::Z(Z), 1, 2, 1), Some(Some(2)));
    assert_eq!(select(&Term::Z(Z), 1, 2, 0), None);
    // A condition that is no boolean may pick no stored type.
    let c = Term::Cap0(Cap0(Box::new(Term::Z(Z))));
    assert_eq!(select(&c, 1, 2, FUEL), Some(None));
}
