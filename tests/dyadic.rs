use roottwo::Dyadic;

#[test]
fn basic_add_dyadic() {
    let first = Dyadic(3, 2);
    let second = Dyadic(1, 2);
    assert_eq!(first + second, Dyadic(1, 0));
    assert_eq!(-Dyadic(3, 2), Dyadic(-3, 2));
}

#[test]
fn powers_of_two() {
    for i in 0..20 {
        assert_eq!(1 << i, i64::pow(2, i))
    }
}

#[test]
fn simplify_reduces_powers_of_two() {
    assert_eq!(Dyadic::simplify(8, 5), Dyadic(1, 2));
    assert_eq!(Dyadic::simplify(16, 2), Dyadic(4, 0));
    assert_eq!(Dyadic::simplify(4, 2), Dyadic(1, 0));
}

#[test]
fn simplify_keeps_other_pairs() {
    assert_eq!(Dyadic::simplify(6, 1), Dyadic(6, 1));
    assert_eq!(Dyadic::simplify(-2, 1), Dyadic(-2, 1));
    assert_eq!(Dyadic::simplify(0, 4), Dyadic(0, 4));
    assert_eq!(Dyadic::simplify(1, 3), Dyadic(1, 3));
    assert_eq!(Dyadic::simplify(5, 0), Dyadic(5, 0));
}

#[test]
fn simplify_twice_is_simplify_once() {
    for (x, k) in [(8i64, 5u32), (6, 1), (-4, 2), (1, 9), (64, 3), (0, 2)] {
        let once = Dyadic::simplify(x, k);
        assert_eq!(Dyadic::simplify(once.0, once.1), once);
    }
}

#[test]
fn add_with_different_exponents() {
    assert_eq!(Dyadic(1, 1) + Dyadic(1, 0), Dyadic(3, 1));
    assert_eq!(Dyadic(1, 0) + Dyadic(1, 1), Dyadic(3, 1));
    assert_eq!(Dyadic(3, 7) + Dyadic(3, 8), Dyadic(9, 8));
    assert_eq!(Dyadic(1, 3) + Dyadic(3, 3), Dyadic(1, 1));
}

#[test]
fn add_is_commutative() {
    let x = Dyadic(5, 3);
    let y = Dyadic(-7, 1);
    assert_eq!(x + y, y + x);
    assert_eq!(x + y, Dyadic(-23, 3));
}

#[test]
fn add_is_associative_on_values_only() {
    let x = Dyadic(1, 2);
    let y = Dyadic(1, 2);
    let z = Dyadic(1, 0);
    // both are 3/2, written differently
    assert_eq!((x + y) + z, Dyadic(3, 1));
    assert_eq!(x + (y + z), Dyadic(6, 2));
}

#[test]
fn sub_self_is_zero() {
    assert_eq!(Dyadic(5, 0) - Dyadic(5, 0), Dyadic(0, 0));
    assert_eq!(Dyadic(3, 2) - Dyadic(3, 2), Dyadic(0, 2));
}

#[test]
fn sub_adds_negation() {
    assert_eq!(Dyadic(3, 7) - Dyadic(3, 8), Dyadic(3, 8));
    assert_eq!(Dyadic(1, 0) - Dyadic(1, 1), Dyadic(1, 1));
}

#[test]
fn negation_is_never_simplified() {
    assert_eq!(-Dyadic(2, 1), Dyadic(-2, 1));
    assert_eq!(-Dyadic(-4, 2), Dyadic(4, 2));
}

#[test]
fn mul_dyadics() {
    assert_eq!(Dyadic(3, 2) * Dyadic(1, 2), Dyadic(3, 4));
    assert_eq!(Dyadic(2, 1) * Dyadic(2, 1), Dyadic(1, 0));
    assert_eq!(Dyadic(-2, 1) * Dyadic(2, 1), Dyadic(-4, 2));
}

#[test]
fn mul_by_integer_both_sides() {
    assert_eq!(Dyadic(3, 2) * 2, Dyadic(6, 2));
    assert_eq!(2 * Dyadic(1, 3), Dyadic(1, 2));
    assert_eq!(Dyadic(1, 3) * 2, 2 * Dyadic(1, 3));
    assert_eq!(Dyadic(5, 1) * -3, Dyadic(-15, 1));
}
