use tapssp::filter::{parse, Expr, Op, Pred};
use tapssp::number::Number;

fn number(x: f64) -> Number {
    Number { bits: x.to_bits() }
}

fn reading(s: &str) -> Option<Number> {
    s.parse::<f64>().ok().map(number)
}

fn fields(texts: &[&str]) -> Vec<String> {
    texts.iter().map(|s| s.to_string()).collect()
}

fn pred_holds(pred: &Pred, texts: &[&str]) -> bool {
    let rec = fields(texts);
    let numbers: Vec<Option<Number>> = rec.iter().map(|s| reading(s)).collect();
    pred.eval(&rec, &numbers, reading(pred.val()))
}

fn filter_holds(text: &str, headers: &[&str], texts: &[&str]) -> bool {
    let expr = parse(text, &fields(headers)).unwrap();
    let rec = fields(texts);
    let numbers: Vec<Option<Number>> = rec.iter().map(|s| reading(s)).collect();
    let literals: Vec<Option<Number>> = expr.literals().iter().map(|s| reading(s)).collect();
    expr.eval(&rec, &numbers, &literals)
}

const OPS: [Op; 6] = [Op::Eq, Op::Ne, Op::Lt, Op::Le, Op::Gt, Op::Ge];

fn native(op: Op, a: f64, b: f64) -> bool {
    match op {
        Op::Eq => a == b,
        Op::Ne => a != b,
        Op::Lt => a < b,
        Op::Le => a <= b,
        Op::Gt => a > b,
        Op::Ge => a >= b,
    }
}

fn samples() -> Vec<f64> {
    let mut out = vec![
        0.0,
        -0.0,
        1.0,
        -1.0,
        1.5,
        -1.5,
        0.1,
        0.3,
        0.1 + 0.2,
        2.0,
        1e10,
        -1e10,
        1e-10,
        -1e-10,
        1e300,
        -1e300,
        5e-324,
        -5e-324,
        f64::MIN_POSITIVE,
        -f64::MIN_POSITIVE,
        f64::MAX,
        f64::MIN,
        f64::EPSILON,
        f64::INFINITY,
        f64::NEG_INFINITY,
        f64::NAN,
        -f64::NAN,
        f64::from_bits(0x7FF0_0000_0000_0001),
        f64::from_bits(0xFFFF_FFFF_FFFF_FFFF),
        f64::from_bits(0x7FEF_FFFF_FFFF_FFFF),
        f64::from_bits(0x000F_FFFF_FFFF_FFFF),
    ];
    let mut seed: u64 = 0x9E37_79B9_7F4A_7C15;
    for _ in 0..200 {
        seed ^= seed << 13;
        seed ^= seed >> 7;
        seed ^= seed << 17;
        out.push(f64::from_bits(seed));
    }
    out
}

#[test]
fn numbers_compare_as_the_machine_compares_them() {
    let values = samples();
    for &a in values.iter() {
        for &b in values.iter() {
            for op in OPS {
                assert_eq!(
                    op.test_numbers(number(a), number(b)),
                    native(op, a, b),
                    "{:?} {:?} {:?}",
                    a,
                    op,
                    b
                );
            }
            assert_eq!(number(a).is_equal(number(b)), a == b);
            assert_eq!(number(a).is_below(number(b)), a < b);
        }
    }
}

#[test]
fn the_two_zeros_are_equal_and_a_nan_equals_nothing() {
    assert!(Op::Eq.test_numbers(number(0.0), number(-0.0)));
    assert!(!Op::Lt.test_numbers(number(-0.0), number(0.0)));
    assert!(Op::Ge.test_numbers(number(-0.0), number(0.0)));
    assert!(!Op::Eq.test_numbers(number(f64::NAN), number(f64::NAN)));
    assert!(Op::Ne.test_numbers(number(f64::NAN), number(f64::NAN)));
    assert!(!Op::Le.test_numbers(number(f64::NAN), number(1.0)));
    assert!(!Op::Ge.test_numbers(number(1.0), number(f64::NAN)));
    assert!(Op::Lt.test_numbers(number(-1.0), number(5e-324)));
    assert!(Op::Gt.test_numbers(number(f64::INFINITY), number(f64::MAX)));
}

#[test]
fn text_that_is_no_number_has_no_order() {
    let gt = Pred::new(0, Op::Gt, "1".to_string());
    assert!(!pred_holds(&gt, &["abc"]));
    for op in [Op::Lt, Op::Le, Op::Gt, Op::Ge] {
        assert!(!pred_holds(&Pred::new(0, op, "1".to_string()), &["abc"]));
        assert!(!pred_holds(&Pred::new(0, op, "abc".to_string()), &["1"]));
        assert!(!pred_holds(&Pred::new(0, op, "abd".to_string()), &["abc"]));
        assert!(!pred_holds(&Pred::new(0, op, "abc".to_string()), &["abc"]));
        assert!(!pred_holds(&Pred::new(0, op, "".to_string()), &[""]));
    }
    assert!(!filter_holds("x > 1", &["x"], &["abc"]));
    assert!(!filter_holds("x < 1", &["x"], &["abc"]));
}

#[test]
fn text_that_is_no_number_is_compared_by_equality() {
    assert!(pred_holds(&Pred::new(0, Op::Eq, "abc".to_string()), &["abc"]));
    assert!(!pred_holds(&Pred::new(0, Op::Ne, "abc".to_string()), &["abc"]));
    assert!(!pred_holds(&Pred::new(0, Op::Eq, "abc".to_string()), &["abd"]));
    assert!(pred_holds(&Pred::new(0, Op::Ne, "abc".to_string()), &["abd"]));
    assert!(!pred_holds(&Pred::new(0, Op::Eq, "abc".to_string()), &["ABC"]));
    assert!(!pred_holds(&Pred::new(0, Op::Eq, "1".to_string()), &["abc"]));
    assert!(pred_holds(&Pred::new(0, Op::Ne, "1".to_string()), &["abc"]));
    assert!(filter_holds("x == abc", &["x"], &["abc"]));
    assert!(filter_holds("x == \"abc\"", &["x"], &["abc"]));
}

#[test]
fn numbers_are_compared_by_value_not_by_text() {
    assert!(filter_holds("x == 1", &["x"], &["1.0"]));
    assert!(filter_holds("x == 1", &["x"], &["01"]));
    assert!(filter_holds("x == 1e3", &["x"], &["1000"]));
    assert!(!filter_holds("x != 1", &["x"], &["1.0"]));
    assert!(filter_holds("x < 10", &["x"], &["9"]));
    assert!(filter_holds("x > -10", &["x"], &["-9.5"]));
    assert!(filter_holds("x >= 0", &["x"], &["-0"]));
    assert!(filter_holds("x <= 2", &["x"], &["2"]));
    assert!(!filter_holds("x < 2", &["x"], &["2"]));
    assert!(filter_holds("x > 9", &["x"], &["10"]));
    assert!(filter_holds("x < inf", &["x"], &["1e308"]));
    assert!(!filter_holds("x == nan", &["x"], &["nan"]));
    assert!(filter_holds("x != nan", &["x"], &["nan"]));
    assert!(!filter_holds("x <= nan", &["x"], &["1"]));
}

#[test]
fn a_number_against_a_text_is_compared_as_text() {
    assert!(!filter_holds("x == 1", &["x"], &["one"]));
    assert!(filter_holds("x != 1", &["x"], &["one"]));
    assert!(!filter_holds("x == one", &["x"], &["1"]));
    assert!(!filter_holds("x >= one", &["x"], &["1"]));
    assert!(!filter_holds("x == 1", &["x"], &[" 1"]));
}

#[test]
fn a_row_too_short_has_empty_fields() {
    let eq_empty = Pred::new(2, Op::Eq, String::new());
    assert!(pred_holds(&eq_empty, &["a", "b"]));
    assert!(pred_holds(&eq_empty, &[]));
    assert!(!pred_holds(&Pred::new(2, Op::Ne, String::new()), &["a"]));
    assert!(!pred_holds(&Pred::new(2, Op::Eq, "x".to_string()), &["a", "b"]));
    assert!(pred_holds(&Pred::new(2, Op::Ne, "0".to_string()), &["a", "b"]));
    assert!(!pred_holds(&Pred::new(2, Op::Lt, "1".to_string()), &["0", "0"]));
    assert!(!pred_holds(&Pred::new(2, Op::Ge, "".to_string()), &["0", "0"]));
    assert!(filter_holds("c == ", &["a", "b", "c"], &["1", "2"]));
    assert!(!filter_holds("c == 3", &["a", "b", "c"], &["1", "2"]));
    assert!(filter_holds("c == 3", &["a", "b", "c"], &["1", "2", "3"]));
}

#[test]
fn a_reading_for_a_field_that_the_row_lacks_is_not_used() {
    let pred = Pred::new(1, Op::Lt, "5".to_string());
    let rec = fields(&["0"]);
    let numbers = vec![Some(number(0.0)), Some(number(1.0))];
    assert!(!pred.eval(&rec, &numbers, Some(number(5.0))));
    let rec = fields(&["0", "1"]);
    assert!(pred.eval(&rec, &numbers, Some(number(5.0))));
    // A field without a reading is compared as text.
    assert!(!pred.eval(&rec, &numbers[..1], Some(number(5.0))));
    assert!(!pred.eval(&rec, &numbers, None));
}

#[test]
fn readings_of_the_literals_are_taken_from_left_to_right() {
    let headers = fields(&["a", "b", "c"]);
    let expr = parse("(a < 1 OR b < 2) AND c < 3", &headers).unwrap();
    assert_eq!(expr.literals(), vec!["1".to_string(), "2".to_string(), "3".to_string()]);
    let rec = fields(&["5", "5", "5"]);
    let numbers: Vec<Option<Number>> = rec.iter().map(|s| reading(s)).collect();
    let lit = |a: f64, b: f64, c: f64| vec![Some(number(a)), Some(number(b)), Some(number(c))];
    assert!(!expr.eval(&rec, &numbers, &lit(1.0, 2.0, 3.0)));
    assert!(expr.eval(&rec, &numbers, &lit(9.0, 2.0, 9.0)));
    assert!(expr.eval(&rec, &numbers, &lit(1.0, 9.0, 9.0)));
    assert!(!expr.eval(&rec, &numbers, &lit(9.0, 9.0, 3.0)));
    // A literal without a reading is compared as text, and text has no order.
    assert!(!expr.eval(&rec, &numbers, &lit(9.0, 9.0, 9.0)[..2]));
    assert!(!expr.eval(&rec, &numbers, &[]));
}

#[test]
fn and_needs_both_and_or_needs_one() {
    let t = || Expr::Single(Pred::new(0, Op::Eq, "x".to_string()));
    let f = || Expr::Single(Pred::new(0, Op::Ne, "x".to_string()));
    let rec = fields(&["x"]);
    let run = |e: Expr| e.eval(&rec, &[None], &[None, None]);
    assert!(run(Expr::And(Box::new(t()), Box::new(t()))));
    assert!(!run(Expr::And(Box::new(t()), Box::new(f()))));
    assert!(!run(Expr::And(Box::new(f()), Box::new(t()))));
    assert!(!run(Expr::And(Box::new(f()), Box::new(f()))));
    assert!(run(Expr::Or(Box::new(t()), Box::new(t()))));
    assert!(run(Expr::Or(Box::new(t()), Box::new(f()))));
    assert!(run(Expr::Or(Box::new(f()), Box::new(t()))));
    assert!(!run(Expr::Or(Box::new(f()), Box::new(f()))));
}
