use num_bigint::BigInt;
use qp::ops::q3_op;
use qp::ops::QpOp;
use qp::value::QpError;

fn big(n: i64) -> BigInt {
    BigInt::from(n)
}

#[test]
fn unit_normalizes_nine() {
    let op = q3_op();
    let x = op.unit(9);
    assert_eq!(x.numerator, big(1));
    assert_eq!(x.valuation, 2);
}

#[test]
fn unit_keeps_four() {
    let op = q3_op();
    let x = op.unit(4);
    assert_eq!(x.numerator, big(4));
    assert_eq!(x.valuation, 0);
}

#[test]
fn add_aligns_valuations() {
    let op = q3_op();
    let z = op.add(&op.unit(9), &op.unit(4));
    assert_eq!(z.numerator, big(13));
    assert_eq!(z.valuation, 0);
}

#[test]
fn add_equal_valuations_renormalizes() {
    let op = q3_op();
    // 1 + 2 = 3 at valuation 0: the sum carries a factor of 3.
    let z = op.add(&op.unit(1), &op.unit(2));
    assert_eq!(z.numerator, big(1));
    assert_eq!(z.valuation, 1);
}

#[test]
fn simplify_is_idempotent() {
    let op = q3_op();
    let mut x = op.construct(18, 0);
    op.simplify(&mut x);
    assert_eq!(x.numerator, big(2));
    assert_eq!(x.valuation, 2);
    let once = x.clone();
    op.simplify(&mut x);
    assert_eq!(x, once);
}

#[test]
fn simplify_zero_resets_valuation() {
    let op = q3_op();
    let mut x = op.construct(0, 7);
    op.simplify(&mut x);
    assert_eq!(x.numerator, big(0));
    assert_eq!(x.valuation, 0);
    let mut y = op.construct(0, -3);
    op.simplify(&mut y);
    assert_eq!(y.valuation, 0);
}

#[test]
fn add_zero_is_identity_up_to_normalization() {
    let op = q3_op();
    let x = op.unit(4);
    let z = op.add(&x, &op.zero());
    assert_eq!(z, x);
    // At positive valuation the sum needs one normalization to compare.
    let y = op.unit(9);
    let mut w = op.add(&y, &op.zero());
    op.simplify(&mut w);
    assert_eq!(w, y);
}

#[test]
fn add_opposite_is_zero() {
    let op = q3_op();
    for n in [1, 4, 9, -300, 12345] {
        let x = op.unit(n);
        let s = op.add(&x, &op.minus(&x));
        assert!(op.is_zero(&s));
        assert_eq!(s.valuation, 0);
    }
}

#[test]
fn multiply_keeps_canonical_form() {
    let op = q3_op();
    let z = op.multiply(&op.unit(4), &op.unit(5));
    assert_eq!(z.numerator, big(20));
    assert_eq!(z.valuation, 0);
    assert!(z.numerator.clone() % big(3) != big(0));
    let w = op.multiply(&op.unit(9), &op.unit(12));
    // 9 = 1*3^2, 12 = 4*3^1: product 4*3^3.
    assert_eq!(w.numerator, big(4));
    assert_eq!(w.valuation, 3);
    assert!(w.numerator.clone() % big(3) != big(0));
}

#[test]
fn powers_of_three() {
    let op = q3_op();
    assert_eq!(op.power_p(0), big(1));
    assert_eq!(op.power_p(4), big(81));
    assert_eq!(op.power_p_int(0), 1);
    assert_eq!(op.power_p_int(4), 81);
    let op5 = QpOp::new(5);
    assert_eq!(op5.prime(), 5);
    assert_eq!(op5.power_p_int(3), 125);
}

#[test]
fn numerator_codec_negative_multi_byte() {
    let op = q3_op();
    let bytes = op.save_to_vec(&big(-300));
    assert_eq!(bytes, vec![0x02, 0x2C, 0x01]);
    assert_eq!(op.load_from_vec(&bytes), big(-300));
}

#[test]
fn numerator_codec_zero_and_positive() {
    let op = q3_op();
    assert_eq!(op.save_to_vec(&big(0)), vec![0x00]);
    assert_eq!(op.load_from_vec(&[0x00]), big(0));
    assert_eq!(op.load_from_vec(&[]), big(0));
    let bytes = op.save_to_vec(&big(65536));
    assert_eq!(bytes, vec![0x01, 0x00, 0x00, 0x01]);
    assert_eq!(op.load_from_vec(&bytes), big(65536));
}

#[test]
fn record_roundtrip() {
    let op = q3_op();
    let samples = [
        op.zero(),
        op.unit(13),
        op.unit(-300),
        op.construct(300, -5),
        op.construct(-1, 17),
        op.multiply(&op.unit(1000000), &op.unit(1000000)),
    ];
    for x in samples {
        let bytes = op.save(&x).unwrap();
        let back = op.load(&bytes).unwrap();
        assert_eq!(back, x);
    }
}

#[test]
fn record_layout() {
    let op = q3_op();
    let bytes = op.save(&op.construct(1, 1)).unwrap();
    assert_eq!(bytes, vec![0x01, 0x00, 0x02, 0x00, 0x01, 0x01]);
    let neg = op.save(&op.construct(1, -1)).unwrap();
    assert_eq!(neg, vec![0xFF, 0xFF, 0x02, 0x00, 0x01, 0x01]);
}

#[test]
fn load_rejects_malformed_streams() {
    let op = q3_op();
    assert_eq!(op.load(&[1, 2, 3]), Err(QpError::Truncated));
    // A declared length of -1.
    assert_eq!(op.load(&[0, 0, 0xFF, 0xFF]), Err(QpError::InvalidLength));
    // Fewer bytes than the declared length.
    assert_eq!(op.load(&[0, 0, 5, 0, 1, 1]), Err(QpError::Truncated));
}

#[test]
fn int_part_of_integers() {
    let op = q3_op();
    assert_eq!(op.int_part(&op.unit(13)), Ok(13));
    // 5 * 3^1 at valuation 1.
    assert_eq!(op.int_part(&op.construct(5, 1)), Ok(15));
    // -1 folds to 3^40 - 1.
    assert_eq!(op.int_part(&op.unit(-1)), Ok(12157665459056928800));
}

#[test]
fn int_part_rejects_negative_valuation() {
    let op = q3_op();
    let x = op.construct(1, -1);
    assert_eq!(op.int_part(&x), Err(QpError::NotIntegral));
    assert_eq!(op.output_integer(&x), Err(QpError::NotIntegral));
    assert_eq!(op.save_as_integer(&x), Err(QpError::NotIntegral));
}

#[test]
fn inverse_is_unsupported() {
    let op = q3_op();
    assert!(op.invertible(&op.unit(2)));
    assert!(!op.invertible(&op.zero()));
    assert_eq!(op.inverse(&op.unit(2)), Err(QpError::NotImplemented));
}

#[test]
fn output_renders_exactly() {
    let op = q3_op();
    assert_eq!(op.output(&op.unit(13)), "13(0)");
    assert_eq!(op.output(&op.unit(9)), "1(2)");
    assert_eq!(op.output(&op.minus(&op.unit(4))), "-4(0)");
    assert_eq!(op.output(&op.construct(0, 0)), "0(0)");
    assert_eq!(op.output(&op.construct(7, -2)), "7(-2)");
    assert_eq!(op.output_integer(&op.construct(5, 1)), Ok(String::from("15")));
}

#[test]
fn save_as_integer_little_endian() {
    let op = q3_op();
    let bytes = op.save_as_integer(&op.unit(13)).unwrap();
    assert_eq!(bytes, vec![13, 0, 0, 0, 0, 0, 0, 0]);
    let folded = op.save_as_integer(&op.unit(-1)).unwrap();
    assert_eq!(folded, 12157665459056928800u64.to_le_bytes().to_vec());
}

#[test]
fn construct_bypasses_normalization() {
    let op = q3_op();
    let x = op.construct(9, 1);
    assert_eq!(x.numerator, big(9));
    assert_eq!(x.valuation, 1);
}

#[test]
fn load_ignores_trailing_bytes() {
    let op = q3_op();
    let mut bytes = op.save(&op.unit(13)).unwrap();
    bytes.push(0x99);
    let back = op.load(&bytes).unwrap();
    assert_eq!(back, op.unit(13));
}

#[test]
fn works_for_other_primes() {
    let op = QpOp::new(2);
    let x = op.unit(8);
    assert_eq!(x.numerator, big(1));
    assert_eq!(x.valuation, 3);
    let y = op.unit(-12);
    assert_eq!(y.numerator, big(-3));
    assert_eq!(y.valuation, 2);
}
