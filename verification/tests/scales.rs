use scales::linear::{IdentityRasterizer, LinearScale};
use scales::logarithmic::{span_sign_decidable, LogarithmicScale};
use scales::mag::Mag;
use scales::num::Num;

#[test]
fn test_log() {
    let scale = LogarithmicScale::with_min_max(Mag::from_int(10), Mag::from_int(10240));
    assert!(scale.to_absolute(Num::rational(0, 10)).same_value(&Mag::from_int(10)));
    assert!(scale.to_absolute(Num::rational(1, 10)).same_value(&Mag::from_int(20)));
    assert!(scale.to_absolute(Num::rational(2, 10)).same_value(&Mag::from_int(40)));
    assert!(scale.to_absolute(Num::rational(3, 10)).same_value(&Mag::from_int(80)));
    assert!(scale.to_absolute(Num::rational(4, 10)).same_value(&Mag::from_int(160)));
    assert!(scale.to_absolute(Num::rational(5, 10)).same_value(&Mag::from_int(320)));
    assert!(scale.to_absolute(Num::rational(6, 10)).same_value(&Mag::from_int(640)));
    assert!(scale.to_absolute(Num::rational(7, 10)).same_value(&Mag::from_int(1280)));
    assert!(scale.to_absolute(Num::rational(8, 10)).same_value(&Mag::from_int(2560)));
    assert!(scale.to_absolute(Num::rational(9, 10)).same_value(&Mag::from_int(5120)));
    assert!(scale.to_absolute(Num::rational(10, 10)).same_value(&Mag::from_int(10240)));

    assert!(scale.to_relative(Mag::from_int(10)).same_value(&Num::rational(0, 10)));
    assert!(scale.to_relative(Mag::from_int(20)).same_value(&Num::rational(1, 10)));
    assert!(scale.to_relative(Mag::from_int(40)).same_value(&Num::rational(2, 10)));
    assert!(scale.to_relative(Mag::from_int(80)).same_value(&Num::rational(3, 10)));
    assert!(scale.to_relative(Mag::from_int(160)).same_value(&Num::rational(4, 10)));
    assert!(scale.to_relative(Mag::from_int(320)).same_value(&Num::rational(5, 10)));
    assert!(scale.to_relative(Mag::from_int(640)).same_value(&Num::rational(6, 10)));
    assert!(scale.to_relative(Mag::from_int(1280)).same_value(&Num::rational(7, 10)));
    assert!(scale.to_relative(Mag::from_int(2560)).same_value(&Num::rational(8, 10)));
    assert!(scale.to_relative(Mag::from_int(5120)).same_value(&Num::rational(9, 10)));
    assert!(scale.to_relative(Mag::from_int(10240)).same_value(&Num::rational(10, 10)));
}

#[test]
fn test_log_out_of_bounds() {
    let scale = LogarithmicScale::with_min_max(Mag::from_int(10), Mag::from_int(10240));
    assert!(scale.to_absolute(Num::rational(-1, 10)).same_value(&Mag::from_int(5)));
    // 10 * 2^-10 = 0.009765625
    assert!(scale.to_absolute(Num::rational(-1, 1)).same_value(&Mag::ratio(10, 1024)));
    // 10 * 2^-20, about 0.0000095
    assert!(scale.to_absolute(Num::rational(-2, 1)).same_value(&Mag::ratio(10, 1048576)));
    assert!(scale.to_absolute(Num::rational(11, 10)).same_value(&Mag::from_int(20480)));

    // log10(1/10) / log10(1024) = -1 / (10 * log10(2)), about -0.3321928
    assert!(scale.to_relative(Mag::from_int(1)).same_value(&Num::moebius(-1, 0, 0, 10)));
    assert!(scale.to_relative(Mag::from_int(-1)).is_nan());

    let neg_inf = scale.to_relative(Mag::Zero);
    assert!(neg_inf.is_neg_inf());

    assert!(scale.to_clamped_absolute(Num::rational(0, 1)).same_value(&Mag::from_int(10)));
    assert!(scale.to_clamped_absolute(Num::rational(-1, 1)).same_value(&Mag::from_int(10)));
    assert!(scale.to_clamped_absolute(Num::rational(11, 10)).same_value(&Mag::from_int(10240)));

    assert!(scale.to_clamped_relative(Mag::from_int(1)).same_value(&Num::zero()));
    assert!(scale.to_clamped_relative(Mag::Zero).same_value(&Num::zero()));
    assert!(scale.to_clamped_relative(Mag::from_int(-1)).same_value(&Num::zero()));
    assert!(scale.to_clamped_relative(Mag::from_int(20480)).same_value(&Num::one()));
}

#[test]
fn log_equal_relative_steps_double_the_value() {
    let scale = LogarithmicScale::with_min_max(Mag::from_int(10), Mag::from_int(10240));
    let a1 = scale.to_absolute(Num::rational(3, 10));
    let a2 = scale.to_absolute(Num::rational(4, 10));
    assert!(a2.div(a1).same_value(&Mag::from_int(2)));
    let b1 = scale.to_absolute(Num::rational(7, 10));
    let b2 = scale.to_absolute(Num::rational(8, 10));
    assert!(b2.div(b1).same_value(&Mag::from_int(2)));
}

#[test]
fn log_round_trip_is_exact() {
    let scale = LogarithmicScale::with_min_max(Mag::from_int(10), Mag::from_int(10240));
    let r = Num::rational(7, 10);
    assert!(scale.to_relative(scale.to_absolute(r)).same_value(&r));
    let a = Mag::from_int(2560);
    assert!(scale.to_absolute(scale.to_relative(a)).same_value(&a));
}

#[test]
fn log_reports_original_bounds() {
    let scale = LogarithmicScale::with_min_max(Mag::from_int(10), Mag::from_int(10240));
    assert!(scale.get_min().same_value(&Mag::from_int(10)));
    assert!(scale.get_max().same_value(&Mag::from_int(10240)));
}

#[test]
fn log_rasterized_construction_keeps_behaviour() {
    let scale = LogarithmicScale::with_min_max_and_rasterizer(
        Mag::from_int(10),
        Mag::from_int(1000),
        IdentityRasterizer {},
    );
    assert!(scale.get_min().same_value(&Mag::from_int(10)));
    assert!(scale.get_max().same_value(&Mag::from_int(1000)));
    assert!(scale.to_absolute(Num::rational(1, 2)).same_value(&Mag::from_int(100)));
    assert!(scale.to_relative(Mag::from_int(100)).same_value(&Num::rational(1, 2)));
}

#[test]
fn linear_maps_and_extrapolates() {
    let scale = LinearScale::with_min_max(Num::from_int(0), Num::from_int(100));
    assert!(scale.to_relative(Num::from_int(50)).same_value(&Num::rational(1, 2)));
    assert!(scale.to_absolute(Num::rational(1, 4)).same_value(&Num::from_int(25)));
    assert!(scale.to_relative(Num::from_int(200)).same_value(&Num::from_int(2)));
    assert!(scale.to_absolute(Num::from_int(-1)).same_value(&Num::from_int(-100)));
    assert!(scale.to_clamped_relative(Num::from_int(200)).same_value(&Num::one()));
    assert!(scale.to_clamped_absolute(Num::from_int(-1)).same_value(&Num::from_int(0)));
}

#[test]
fn linear_round_trip_is_exact() {
    let scale = LinearScale::with_min_max(Num::from_int(3), Num::from_int(11));
    let r = Num::rational(3, 8);
    assert!(scale.to_relative(scale.to_absolute(r)).same_value(&r));
    let a = Num::from_int(7);
    assert!(scale.to_absolute(scale.to_relative(a)).same_value(&a));
}

#[test]
fn linear_boundary_is_exact() {
    let scale = LinearScale::with_min_max(Num::from_int(3), Num::from_int(11));
    assert!(scale.to_relative(Num::from_int(3)).same_value(&Num::zero()));
    assert!(scale.to_relative(Num::from_int(11)).same_value(&Num::one()));
    assert!(scale.to_absolute(Num::zero()).same_value(&Num::from_int(3)));
    assert!(scale.to_absolute(Num::one()).same_value(&Num::from_int(11)));
}

#[test]
fn linear_rasterizer_receives_computed_value() {
    let scale = LinearScale::with_min_max_and_rasterizer(
        Num::from_int(0),
        Num::from_int(8),
        IdentityRasterizer {},
    );
    assert!(scale.to_absolute(Num::rational(1, 2)).same_value(&Num::from_int(4)));
    assert!(scale.to_clamped_absolute(Num::from_int(9)).same_value(&Num::from_int(8)));
}

#[test]
fn zero_width_domain_propagates_specials() {
    let scale = LinearScale::with_min_max(Num::from_int(5), Num::from_int(5));
    assert!(scale.to_relative(Num::from_int(7)).is_pos_inf());
    assert!(scale.to_relative(Num::from_int(3)).is_neg_inf());
    assert!(scale.to_relative(Num::from_int(5)).is_nan());
}

#[test]
fn special_values_follow_float_tables() {
    let inf = Num::from_int(1).div(Num::zero());
    assert!(inf.is_pos_inf());
    assert!(Num::from_int(-1).div(Num::zero()).is_neg_inf());
    assert!(Num::zero().div(Num::zero()).is_nan());
    assert!(inf.add(inf.neg()).is_nan());
    assert!(inf.mul(Num::zero()).is_nan());
    assert!(Num::from_int(3).div(inf).same_value(&Num::zero()));
}

#[test]
fn clamp_stays_in_unit_interval() {
    assert!(Num::from_int(2).clamp01().same_value(&Num::one()));
    assert!(Num::from_int(-2).clamp01().same_value(&Num::zero()));
    assert!(Num::rational(1, 3).clamp01().same_value(&Num::rational(1, 3)));
    assert!(Num::Nan.clamp01().same_value(&Num::zero()));
    let pos_inf = Num::from_int(1).div(Num::zero());
    assert!(pos_inf.clamp01().same_value(&Num::one()));
    // -3001 + 10000 * log10(2) is about 9.3: the coefficient ratio is close
    // to log10(2), but the comparison with one still decides, so the clamp
    // lands on the correct end
    assert!(Num::moebius(-3001, 10000, 1, 0).clamp01().same_value(&Num::one()));
}

#[test]
fn span_decidability_is_testable() {
    assert!(span_sign_decidable(&Mag::from_int(10), &Mag::from_int(10240)));
    assert!(span_sign_decidable(&Mag::from_int(5), &Mag::from_int(5)));
    // an exponent engineered into the undecided window of log10(2)
    let tight = Mag::pow10(Num::moebius(-30103, 100000, 1, 0));
    assert!(!span_sign_decidable(&Mag::from_int(1), &tight));
}

#[test]
fn magnitudes_factor_over_two_and_five() {
    assert!(Mag::from_int(40).same_value(&Mag::ratio(80, 2)));
    assert!(Mag::from_int(0).is_zero());
    // 3 has a prime factor outside {2, 5} and is not representable
    assert!(Mag::from_int(3).is_nan());
    assert!(!Mag::from_int(10).same_value(&Mag::from_int(20)));
}
