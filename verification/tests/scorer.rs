use batter_rank::record::RawRecord;
use batter_rank::scorer::{scored, z_contribution};

#[test]
fn constant_metric_contributes_exactly_zero() {
    let stddev = 0.0f64;
    for value in [0.0f64, 7.0, 20.0] {
        let quotient = (value - 7.0) / stddev;
        assert!(!quotient.is_finite());
        let z = f64::from_bits(z_contribution(stddev.to_bits(), quotient.to_bits()));
        assert_eq!(z, 0.0);
        assert_eq!(z.to_bits(), 0);
    }
}

#[test]
fn negative_zero_deviation_is_degenerate_too() {
    let z = z_contribution((-0.0f64).to_bits(), f64::INFINITY.to_bits());
    assert_eq!(z, 0);
}

#[test]
fn varying_metric_contributes_its_quotient() {
    let stddev = 8.0f64;
    let quotient = (30.0f64 - 20.0) / stddev;
    assert_eq!(z_contribution(stddev.to_bits(), quotient.to_bits()), 1.25f64.to_bits());
    assert_eq!(z_contribution(stddev.to_bits(), (-1.25f64).to_bits()), (-1.25f64).to_bits());
}

#[test]
fn tiny_deviation_is_not_degenerate() {
    let stddev = 5.0e-324f64;
    let quotient = 3.0f64;
    assert_eq!(z_contribution(stddev.to_bits(), quotient.to_bits()), quotient.to_bits());
}

#[test]
fn undefined_deviation_passes_the_quotient_on() {
    let quotient = f64::NAN.to_bits();
    assert_eq!(z_contribution(f64::NAN.to_bits(), quotient), quotient);
}

#[test]
fn scored_keeps_the_identity() {
    let raw = RawRecord {
        name: "Mike Trout".to_string(),
        id: "10155".to_string(),
        hr: 45,
        r: 110,
        rbi: 104,
        sb: 11,
        avg: 0.291f64.to_bits(),
    };
    let record = scored(&raw, 4.75f64.to_bits());
    assert_eq!(record.name, "Mike Trout");
    assert_eq!(record.id, "10155");
    assert_eq!(f64::from_bits(record.score), 4.75);
}
