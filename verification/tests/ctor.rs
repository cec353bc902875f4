#![allow(non_camel_case_types)]

use coplt_inherit::lambda::{numeral, Term};
use coplt_inherit::{CtorChain, CtorTarget, CtorThis, Current, Field, FieldChain, PartialThis, TakeChain};

const FUEL: u64 = 1000;

#[derive(Debug)]
pub struct Sample {
    pub foo: i32,
    pub bar: f32,
}

#[derive(Debug, Clone, Copy, Default)]
pub struct field_foo;
#[derive(Debug, Clone, Copy, Default)]
pub struct field_bar;

impl Field for field_foo {
    type Type = i32;
    fn spec_id() -> Term {
        numeral(1)
    }
    fn id() -> Term {
        numeral(1)
    }
}

impl Field for field_bar {
    type Type = f32;
    fn spec_id() -> Term {
        numeral(2)
    }
    fn id() -> Term {
        numeral(2)
    }
}

pub trait set_field_foo {
    type Output;
    fn foo(self, val: i32) -> Self::Output;
}

pub trait set_field_bar {
    type Output;
    fn bar(self, val: f32) -> Self::Output;
}

impl<C> set_field_foo for PartialThis<C>
where
    C: CtorChain<Target = Sample>,
{
    type Output = PartialThis<C>;

    fn foo(self, val: i32) -> Self::Output {
        let mut c = self.take_chain();
        match c.done(&field_foo::id(), FUEL) {
            Current::Field(_) => {}
            other => panic!("field foo cannot be written: {:?}", other),
        }
        c.this_mut().foo = val;
        PartialThis::new(c)
    }
}

impl<C> set_field_bar for PartialThis<C>
where
    C: CtorChain<Target = Sample>,
{
    type Output = PartialThis<C>;

    fn bar(self, val: f32) -> Self::Output {
        let mut c = self.take_chain();
        match c.done(&field_bar::id(), FUEL) {
            Current::Field(_) => {}
            other => panic!("field bar cannot be written: {:?}", other),
        }
        c.this_mut().bar = val;
        PartialThis::new(c)
    }
}

type Chain = FieldChain<FieldChain<CtorThis<Sample>, field_foo>, field_bar>;

fn start() -> PartialThis<Chain> {
    let some = Sample { foo: 0, bar: 0.0 };
    PartialThis::new(FieldChain::new(FieldChain::new(CtorThis::new(some))))
}

#[test]
fn test1() {
    let c: PartialThis<Chain> = start();
    let a = c.foo(1);
    let b = a.bar(1.0);
    println!("{:?}", b);
    let chain = b.take_chain();
    let some = chain.this();
    println!("{:?}", some);
    assert_eq!(some.foo, 1);
    assert_eq!(some.bar, 1.0);

    let c: PartialThis<Chain> = start();
    let a = c.bar(1.0);
    let b = a.foo(1);
    println!("{:?}", b);
    let chain = b.take_chain();
    let some = chain.this();
    println!("{:?}", some);
    assert_eq!(some.foo, 1);
    assert_eq!(some.bar, 1.0);
}

#[test]
fn field_written_once() {
    let mut chain: Chain = start().take_chain();
    assert_eq!(chain.done(&numeral(1), FUEL), Current::Field(numeral(1)));
    assert_eq!(chain.done(&numeral(1), FUEL), Current::Nothing);
    assert_eq!(chain.done(&numeral(2), FUEL), Current::Field(numeral(2)));
    assert_eq!(chain.done(&numeral(2), FUEL), Current::Nothing);
}

#[test]
fn unknown_field_is_nothing() {
    let mut chain: Chain = start().take_chain();
    assert_eq!(chain.done(&numeral(3), FUEL), Current::Nothing);
    assert_eq!(chain.id(), numeral(2));
}

#[test]
fn undecided_without_fuel() {
    let mut chain: Chain = start().take_chain();
    assert_eq!(chain.done(&numeral(2), 1), Current::Undecided);
    assert_eq!(chain.done(&numeral(2), FUEL), Current::Field(numeral(2)));
}

#[test]
fn base_of_chain() {
    let mut base = CtorThis::new(5u8);
    assert_eq!(base.id(), numeral(0));
    assert_eq!(base.done(&numeral(0), FUEL), Current::Nothing);
    *base.this_mut() = 6;
    assert_eq!(*base.this(), 6);
    assert_eq!(base.into_this(), 6);
}

#[test]
fn head_follows_pending_fields() {
    let mut chain: Chain = start().take_chain();
    assert_eq!(chain.id(), numeral(2));
    assert_eq!(chain.done(&numeral(2), FUEL), Current::Field(numeral(2)));
    assert_eq!(chain.id(), numeral(1));
    assert_eq!(chain.done(&numeral(1), FUEL), Current::Field(numeral(1)));
    assert_eq!(chain.id(), numeral(0));
}

#[test]
fn both_orders_with_stated_fuel() {
    // Identifiers 1 and 2 have overhead at most 3; the search is decided from
    // fuel 2 * 3 + 2 * (2 * 4) + 2 = 24 on.
    let mut chain: Chain = start().take_chain();
    assert_eq!(chain.done(&numeral(1), 24), Current::Field(numeral(1)));
    assert_eq!(chain.done(&numeral(1), 24), Current::Nothing);
    assert_eq!(chain.done(&numeral(2), 24), Current::Field(numeral(2)));
    assert_eq!(chain.id(), numeral(0));

    let mut chain: Chain = start().take_chain();
    assert_eq!(chain.done(&numeral(2), 24), Current::Field(numeral(2)));
    assert_eq!(chain.done(&numeral(2), 24), Current::Nothing);
    assert_eq!(chain.done(&numeral(1), 24), Current::Field(numeral(1)));
    assert_eq!(chain.id(), numeral(0));
}
