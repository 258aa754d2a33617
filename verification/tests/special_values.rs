use approx_int::SmallValue;

fn error_rate_u32(original: u32, approximate: u32) -> f64 {
    ((original - approximate) as f64 / original as f64) * 100.0
}

fn error_rate_u64(original: u64, approximate: u64) -> f64 {
    ((original - approximate) as f64 / original as f64) * 100.0
}

fn error_rate_u128(original: u128, approximate: u128) -> f64 {
    ((original - approximate) as f64 / original as f64) * 100.0
}

fn error_rate_i32(original: i32, approximate: i32) -> f64 {
    ((original - approximate) as f64 / original as f64) * 100.0
}

fn error_rate_i64(original: i64, approximate: i64) -> f64 {
    ((original - approximate) as f64 / original as f64) * 100.0
}

fn error_rate_i128(original: i128, approximate: i128) -> f64 {
    ((original - approximate) as f64 / original as f64) * 100.0
}

#[test]
fn special_value_t_0() {
    let original = 314265047194861710702393853117681977664u128;
    let approx = SmallValue::new(original).approximate();
    let error_rate = error_rate_u128(original, approx);
    assert!(error_rate < 0.9);
}

#[test]
fn special_value_t_1() {
    let original = 283133942661148271300918452068693765763u128;
    let approx = SmallValue::new(original).approximate();
    let error_rate = error_rate_u128(original, approx);
    assert!(error_rate < 0.9);
}

#[test]
fn special_value_t_2() {
    let original = 188221493376348417689459869480508947014u128;
    let approx = SmallValue::new(original).approximate();
    let error_rate = error_rate_u128(original, approx);
    assert!(error_rate < 0.9);
}

#[test]
fn special_value_t_3() {
    let original = -324324923040329432943249324903294i128;
    let approx = SmallValue::new(original).approximate();
    let error_rate = error_rate_i128(original, approx);
    assert!(error_rate < 1.0);
}

#[test]
fn special_value_t_4() {
    let original = -14403;
    let approx = SmallValue::new(original).approximate();
    let error_rate = error_rate_i32(original, approx);
    assert!(error_rate < 1.0);
}

#[test]
fn special_value_t_5() {
    for i in -1000..-5 {
        let original = i;
        let approx = SmallValue::new(original).approximate();
        let error_rate = error_rate_i32(original, approx);
        assert!(error_rate < 10.0);
    }
}

#[test]
fn special_value_t_6() {
    let original = i32::MIN;
    assert!(error_rate_i32(original, SmallValue::new(original).approximate()) < 2.0);
}

#[test]
fn special_value_t_7() {
    let original = i32::MAX;
    assert!(error_rate_i32(original, SmallValue::new(original).approximate()) < 2.0);
}

#[test]
fn special_value_t_8() {
    let original = i64::MIN;
    assert!(error_rate_i64(original, SmallValue::new(original).approximate()) < 2.0);
}

#[test]
fn special_value_t_9() {
    let original = i64::MAX;
    assert!(error_rate_i64(original, SmallValue::new(original).approximate()) < 2.0);
}

#[test]
fn special_value_t_10() {
    let original = i128::MIN;
    assert!(error_rate_i128(original, SmallValue::new(original).approximate()) < 2.0);
}

#[test]
fn special_value_t_11() {
    let original = i128::MAX;
    assert!(error_rate_i128(original, SmallValue::new(original).approximate()) < 2.0);
}

#[test]
fn special_value_t_12() {
    let original = u32::MAX;
    assert!(error_rate_u32(original, SmallValue::new(original).approximate()) < 2.0);
}

#[test]
fn special_value_t_13() {
    let original = u64::MAX;
    assert!(error_rate_u64(original, SmallValue::new(original).approximate()) < 2.0);
}

#[test]
fn special_value_t_14() {
    let original = u128::MAX;
    assert!(error_rate_u128(original, SmallValue::new(original).approximate()) < 2.0);
}
