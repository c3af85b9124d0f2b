use emars::arith::{
    decrement_mod, increment_mod, minus_mod, negative_mod, plus_mod, quotient_mod, remainder_mod,
    times_mod,
};

#[test]
fn negative_mod_wraps_negative_offsets() {
    assert_eq!(negative_mod(-1, 8000), 7999);
    assert_eq!(negative_mod(-2, 8000), 7998);
    assert_eq!(negative_mod(-8000, 8000), 0);
    assert_eq!(negative_mod(-8001, 8000), 7999);
    assert_eq!(negative_mod(-16001, 8000), 7999);
}

#[test]
fn negative_mod_keeps_values_on_the_ring() {
    assert_eq!(negative_mod(0, 8000), 0);
    assert_eq!(negative_mod(5, 8000), 5);
    assert_eq!(negative_mod(7999, 8000), 7999);
    assert_eq!(negative_mod(8000, 8000), 0);
    assert_eq!(negative_mod(16003, 8000), 3);
    assert_eq!(negative_mod(-7, 1), 0);
}

#[test]
fn negative_mod_at_the_ends_of_isize() {
    let m: usize = 8000;
    assert_eq!(negative_mod(isize::MAX, m), (isize::MAX as usize) % m);
    let expected = (m - ((isize::MAX as usize) + 1) % m) % m;
    assert_eq!(negative_mod(isize::MIN, m), expected);
    assert_eq!(negative_mod(isize::MIN, usize::MAX), (usize::MAX - 1) / 2);
}

#[test]
fn negative_mod_is_idempotent() {
    for x in [-16001isize, -8000, -1, 0, 1, 4000, 7999, 8000, 123456] {
        let once = negative_mod(x, 8000);
        assert_eq!(negative_mod(once as isize, 8000), once);
    }
}

#[test]
fn minus_mod_never_underflows() {
    assert_eq!(minus_mod(5, 3, 8000), 2);
    assert_eq!(minus_mod(3, 5, 8000), 7998);
    assert_eq!(minus_mod(0, 7999, 8000), 1);
    assert_eq!(minus_mod(0, 0, 8000), 0);
    assert_eq!(minus_mod(7999, 7999, 8000), 0);
    assert_eq!(minus_mod(usize::MAX - 2, usize::MAX - 1, usize::MAX), usize::MAX - 1);
}

#[test]
fn plus_mod_wraps_without_overflow() {
    assert_eq!(plus_mod(5, 3, 8000), 8);
    assert_eq!(plus_mod(7999, 1, 8000), 0);
    assert_eq!(plus_mod(7999, 7999, 8000), 7998);
    assert_eq!(plus_mod(usize::MAX - 1, usize::MAX - 1, usize::MAX), usize::MAX - 2);
}

#[test]
fn subtracting_what_was_added_gives_the_start() {
    let m = 97;
    for a in 0..m {
        for b in 0..m {
            assert_eq!(minus_mod(plus_mod(a, b, m), b, m), a);
            assert_eq!(plus_mod(minus_mod(a, b, m), b, m), a);
        }
    }
}

#[test]
fn times_mod_multiplies_on_the_ring() {
    assert_eq!(times_mod(3, 4, 8000), 12);
    assert_eq!(times_mod(4000, 2, 8000), 0);
    assert_eq!(times_mod(7999, 7999, 8000), 1);
    assert_eq!(times_mod(0, 7999, 8000), 0);
    assert_eq!(times_mod(usize::MAX - 1, usize::MAX - 1, usize::MAX), 1);
}

#[test]
fn quotient_and_remainder_report_division_by_zero() {
    assert_eq!(quotient_mod(7, 0, 8000), None);
    assert_eq!(remainder_mod(7, 0, 8000), None);
    assert_eq!(quotient_mod(0, 0, 8000), None);
    assert_eq!(quotient_mod(7, 2, 8000), Some(3));
    assert_eq!(remainder_mod(7, 2, 8000), Some(1));
    assert_eq!(quotient_mod(7999, 1, 8000), Some(7999));
    assert_eq!(remainder_mod(5, 7, 8000), Some(5));
}

#[test]
fn decrement_of_zero_is_coresize_minus_one() {
    let mut n = 0;
    decrement_mod(&mut n, 8000);
    assert_eq!(n, 7999);
    decrement_mod(&mut n, 8000);
    assert_eq!(n, 7998);
    let mut one = 0;
    decrement_mod(&mut one, 1);
    assert_eq!(one, 0);
}

#[test]
fn increment_of_coresize_minus_one_is_zero() {
    let mut n = 7999;
    increment_mod(&mut n, 8000);
    assert_eq!(n, 0);
    increment_mod(&mut n, 8000);
    assert_eq!(n, 1);
    let mut one = 0;
    increment_mod(&mut one, 1);
    assert_eq!(one, 0);
}
