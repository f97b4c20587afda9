use genetic_orbits::score::{persisted_score_bits, score_bits_of_key, score_key, NEG_INFINITY_BITS};

#[test]
fn persisted_score_replaces_nan_only() {
    assert_eq!(persisted_score_bits(f64::NAN.to_bits()), NEG_INFINITY_BITS);
    assert_eq!(persisted_score_bits((-f64::NAN).to_bits()), NEG_INFINITY_BITS);
    assert_eq!(persisted_score_bits(1.5f64.to_bits()), 1.5f64.to_bits());
    assert_eq!(persisted_score_bits(f64::INFINITY.to_bits()), f64::INFINITY.to_bits());
    assert_eq!(f64::from_bits(NEG_INFINITY_BITS), f64::NEG_INFINITY);
}

#[test]
fn score_key_orders_as_numbers() {
    let values = [f64::NEG_INFINITY, -1.0e10, -2.5, 0.0, 1.0e-300, 3.0, 54.0, f64::INFINITY];
    for pair in values.windows(2) {
        assert!(score_key(pair[0].to_bits()) < score_key(pair[1].to_bits()));
    }
    assert_eq!(score_key(0.0f64.to_bits()), 0x8000_0000_0000_0000);
    assert_eq!(score_key((-0.0f64).to_bits()), score_key(0.0f64.to_bits()));
    assert!(score_key((-1.0e-300f64).to_bits()) < score_key((-0.0f64).to_bits()));
    assert_eq!(score_bits_of_key(score_key((-0.0f64).to_bits())), 0.0f64.to_bits());
}
