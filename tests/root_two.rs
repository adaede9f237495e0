use roottwo::{Adj2, Dyadic, RootTwo};

#[test]
fn basic_add_zroottwo() {
    let first = RootTwo(1, 2);
    let second = RootTwo(3, 4);
    assert_eq!(first + second, RootTwo(4, 6));
    assert_eq!(first - second, RootTwo(-2, -2));
}

#[test]
fn basic_add_droottwo() {
    let first = RootTwo(Dyadic(3, 2), Dyadic(3, 7));
    let second = RootTwo(Dyadic(4, 2), Dyadic(3, 8));
    assert_eq!(first + second, RootTwo(Dyadic(7, 2), Dyadic(9, 8)));
    assert_eq!(first - second, RootTwo(Dyadic(-1, 2), Dyadic(3, 8)));
}

#[test]
fn mul_two_root_twos() {
    let first = RootTwo(3, 4);
    let second = RootTwo(5, 6);
    let expected = RootTwo(63, 38);
    assert_eq!(first * second, expected);
    assert_eq!(second * first, expected);
}

#[test]
fn neg_root_two() {
    assert_eq!(-RootTwo(1, -2), RootTwo(-1, 2));
    assert_eq!(-RootTwo(Dyadic(3, 2), Dyadic(0, 0)), RootTwo(Dyadic(-3, 2), Dyadic(0, 0)));
}

#[test]
fn mul_dyadic_root_twos() {
    // (1/2 + √2/2)(1/2 + √2/2) = 1/4 + 2/4 + (1/4 + 1/4)√2 = 3/4 + √2/2
    let x = RootTwo(Dyadic(1, 1), Dyadic(1, 1));
    assert_eq!(x * x, RootTwo(Dyadic(3, 2), Dyadic(1, 1)));
}

#[test]
fn pow_zero_is_additive_identity() {
    assert_eq!(RootTwo(1, 1).pow(0), RootTwo(0, 0));
    assert_eq!(RootTwo(7, -3).pow(0), RootTwo(0, 0));
}

#[test]
fn pow_repeats_multiplication() {
    let x = RootTwo(1, 1);
    assert_eq!(x.pow(1), x);
    assert_eq!(x.pow(2), RootTwo(3, 2));
    assert_eq!(x.pow(3), RootTwo(7, 5));
    assert_eq!(RootTwo(0, 1).pow(4), RootTwo(4, 0));
}

#[test]
fn adj2_negates_root_two_part() {
    assert_eq!(RootTwo(1, 2).adj2(), RootTwo(1, -2));
    assert_eq!(RootTwo(Dyadic(3, 2), Dyadic(-5, 1)).adj2(), RootTwo(Dyadic(3, 2), Dyadic(5, 1)));
}

#[test]
fn adj2_is_involution() {
    let x = RootTwo(4, -9);
    assert_eq!(x.adj2().adj2(), x);
    let y = RootTwo(Dyadic(3, 2), Dyadic(7, 5));
    assert_eq!(y.adj2().adj2(), y);
}

#[test]
fn adj2_respects_add_and_mul() {
    let x = RootTwo(3, 4);
    let y = RootTwo(5, -6);
    assert_eq!((x + y).adj2(), x.adj2() + y.adj2());
    assert_eq!((x * y).adj2(), x.adj2() * y.adj2());
}

#[test]
fn integer_ring_laws() {
    let x = RootTwo(2, -3);
    let y = RootTwo(5, 7);
    let z = RootTwo(-11, 13);
    assert_eq!((x + y) + z, x + (y + z));
    assert_eq!(x * (y + z), x * y + x * z);
    assert_eq!(x * (y + z), RootTwo(-132, 58));
}
