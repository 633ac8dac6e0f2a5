use signed_number::SignedNumber;

#[test]
fn initialize_negative() {
    let negative_number = SignedNumber::new(3, 2, 1);
    assert_eq!(negative_number.mantissa, -1 as i32);
}

#[test]
fn initialize_postivie() {
    let positive_number = SignedNumber::new(3, 3, 1);
    assert_eq!(positive_number.mantissa, 3);
}

#[test]
fn test_mul() {
    // 1.1 times 1.11 is 10.101: mantissa 21 at 3 fractional bits.
    let a = SignedNumber::new(3, 3, 1);
    let b = SignedNumber::new(7, 4, 2);
    let result = a.mul(b);
    assert_eq!(result, SignedNumber::new(21, 7, 3));
}

#[test]
fn test_add() {
    // 11.1 plus 1.11 is 101.01: mantissa 21 at 2 fractional bits.
    let a = SignedNumber::new(7, 4, 1);
    let b = SignedNumber::new(7, 4, 2);
    let result = a.add(b);
    assert_eq!(result, SignedNumber::new(21, 6, 2));
}

#[test]
fn equality_ignores_total_bitcount() {
    // 5 fits width 4 and width 9 alike; only mantissa and fraction width count.
    assert_eq!(SignedNumber::new(5, 4, 2), SignedNumber::new(5, 9, 2));
    assert_ne!(SignedNumber::new(5, 4, 2), SignedNumber::new(5, 4, 1));
    assert_ne!(SignedNumber::new(5, 4, 2), SignedNumber::new(6, 4, 2));
}

#[test]
fn addition_aligns_fractions() {
    // 1.1 (one fractional bit) plus 0.011 (three): the coarser mantissa is
    // shifted left by the difference of 2 before summing; the result carries
    // fraction width max(1, 3) = 3 and integer width max(2, 2) + 1 = 3.
    let a = SignedNumber::new(3, 3, 1);
    let b = SignedNumber::new(3, 5, 3);
    let result = a.add(b);
    assert_eq!(result.fraction_bitcount, 3);
    assert_eq!(result.total_bitcount, 6);
    assert_eq!(result.mantissa, 15);
    assert_eq!(result, SignedNumber::new(15, 6, 3));
}

#[test]
fn reconstruction_reproduces_value() {
    let original = SignedNumber::new(3, 2, 1);
    let copy = SignedNumber::new(
        original.mantissa,
        original.total_bitcount,
        original.fraction_bitcount,
    );
    assert_eq!(copy, original);
    let positive = SignedNumber::new(3, 3, 1);
    let again = SignedNumber::new(
        positive.mantissa,
        positive.total_bitcount,
        positive.fraction_bitcount,
    );
    assert_eq!(again, positive);
}

#[test]
fn full_width_values() {
    // Width 32 occupies the whole word: nothing above it to extend.
    let most_negative = SignedNumber::new(i32::MIN, 32, 0);
    assert_eq!(most_negative.mantissa, i32::MIN);
    let minus_one = SignedNumber::new(-1, 32, 4);
    assert_eq!(minus_one.mantissa, -1);
}

#[test]
fn negative_multiplication() {
    // -0.5 times 1.5 is -0.75: mantissa -3 at 2 fractional bits.
    let a = SignedNumber::new(3, 2, 1);
    let b = SignedNumber::new(3, 3, 1);
    let result = a.mul(b);
    assert_eq!(result.mantissa, -3);
    assert_eq!(result.total_bitcount, 5);
    // The same value written as its raw 5-bit encoding 11101.
    assert_eq!(result, SignedNumber::new(29, 5, 2));
}

#[test]
fn negative_addition() {
    // -0.5 plus 1.5 is 1.0: mantissa 2 at fraction width 1.
    let a = SignedNumber::new(3, 2, 1);
    let b = SignedNumber::new(3, 3, 1);
    let result = a.add(b);
    assert_eq!(result, SignedNumber::new(2, 4, 1));
}

#[test]
fn sign_clear_leaves_mantissa_untouched() {
    // With the sign bit at the declared width clear, construction stores the
    // mantissa exactly as given.
    assert_eq!(SignedNumber::new(4, 2, 1).mantissa, 4);
    assert_eq!(SignedNumber::new(0, 5, 2).mantissa, 0);
}
