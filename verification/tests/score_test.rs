use impactvault::domain::score::Score;

fn s(x: f64) -> Score {
    Score::from_bits(x.to_bits())
}

#[test]
fn test_scores_compare_as_numbers() {
    let values = [-1.5, -0.0, 0.0, 0.1, 0.2, 0.5, 0.95, 1.0, 2.0, f64::INFINITY, f64::NEG_INFINITY];
    for &a in &values {
        for &b in &values {
            assert_eq!(s(a).is_below(&s(b)), a < b, "{a} < {b}");
            assert_eq!(s(a).is_at_least(&s(b)), a >= b, "{a} >= {b}");
        }
    }
}

#[test]
fn test_nan_compares_with_nothing() {
    let nan = s(f64::NAN);
    for x in [0.0, 0.5, 1.0, f64::INFINITY] {
        assert!(!nan.is_below(&s(x)));
        assert!(!s(x).is_below(&nan));
        assert!(!nan.is_at_least(&s(x)));
        assert!(!s(x).is_at_least(&nan));
    }
}
