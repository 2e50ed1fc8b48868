use arith_drill::answer::{
    check_answer, check_answer_exact, parse_answer, solution_text, Answer, AnswerError,
};
use arith_drill::exercise::{
    create_addition_exercise, create_division_exercise, create_exponentiation_exercise,
    create_multiplication_exercise, create_subtraction_exercise, Fraction,
};

fn answer(text: &str) -> Answer {
    parse_answer(text).expect("a number")
}

fn frac(num: i64, den: i32) -> Fraction {
    Fraction { num, den }
}

fn reads_back(res: Fraction) {
    let text = solution_text(res);
    let parsed = parse_answer(&text).expect("the solution text is a number");
    assert!(check_answer(&parsed, res), "{} is not accepted", text);
    if res.den == 1 {
        assert!(check_answer_exact(&parsed, res));
    }
}

#[test]
fn user_interaction_addition() {
    for _ in 1..1000 {
        let (_, _, res) = create_addition_exercise(-1000, 1000);
        reads_back(res);
    }
}

#[test]
fn user_interaction_subtraction() {
    for _ in 1..1000 {
        let (_, _, res) = create_subtraction_exercise(-1000, 1000);
        reads_back(res);
    }
}

#[test]
fn user_interaction_multiplication() {
    for _ in 1..1000 {
        let (_, _, res) = create_multiplication_exercise(-1000, 1000);
        reads_back(res);
    }
}

#[test]
fn user_interaction_exponentiation() {
    for _ in 1..1000 {
        let (_, _, res) = create_exponentiation_exercise(0, 10);
        reads_back(res);
    }
}

#[test]
fn user_interaction_division() {
    for _ in 1..1000 {
        let (_, _, res) = create_division_exercise(-100, 100);
        reads_back(res);
    }
}

#[test]
fn answer_f34_precision() {
    assert!(check_answer(&answer("0.66"), frac(2, 3)), "0.66 did not equal to 2/3");
    assert!(check_answer(&answer("-0.33"), frac(-1, 3)), "-0.33 did not equal to -1/3");
    assert!(check_answer(&answer("-0.66"), frac(2, -3)), "-0.66 did not equal to 2/-3");
    assert!(!check_answer(&answer("0.65"), frac(2, 3)), "0.65 equaled 2/3");
    assert!(check_answer(&answer("1.25"), frac(10, 8)), "1.25 did not equal 10/8");
}

#[test]
fn tolerance_is_strict() {
    // 0.51 is exactly one hundredth away from 1/2
    assert!(!check_answer(&answer("0.51"), frac(1, 2)));
    assert!(!check_answer(&answer("0.49"), frac(1, 2)));
    assert!(check_answer(&answer("0.5099"), frac(1, 2)));
    assert!(check_answer(&answer("-5"), Fraction::whole(-5)));
    assert!(!check_answer(&answer("5"), Fraction::whole(-5)));
    assert!(!check_answer(&answer("999999999999999999"), Fraction::whole(i64::MIN)));
}

#[test]
fn exact_check() {
    assert!(check_answer_exact(&answer("1.25"), frac(10, 8)));
    assert!(check_answer_exact(&answer("-4"), frac(8, -2)));
    assert!(!check_answer_exact(&answer("0.66"), frac(2, 3)));
}

fn ans(negative: bool, digits: &[u8], scale: usize) -> Answer {
    Answer { negative, digits: digits.to_vec(), scale }
}

#[test]
fn parse_forms() {
    assert_eq!(parse_answer("42"), Ok(ans(false, &[4, 2], 0)));
    assert_eq!(parse_answer("  -1.5\n"), Ok(ans(true, &[1, 5], 1)));
    assert_eq!(parse_answer("+.5"), Ok(ans(false, &[5], 1)));
    assert_eq!(parse_answer("5."), Ok(ans(false, &[5], 0)));
    assert_eq!(parse_answer("\t0.050 \r\n"), Ok(ans(false, &[0, 0, 5, 0], 3)));
    assert_eq!(parse_answer("-0"), Ok(ans(true, &[0], 0)));
}

#[test]
fn parse_errors() {
    assert_eq!(parse_answer(""), Err(AnswerError::NotANumber));
    assert_eq!(parse_answer("   \n"), Err(AnswerError::NotANumber));
    assert_eq!(parse_answer("abc"), Err(AnswerError::NotANumber));
    assert_eq!(parse_answer("1.2.3"), Err(AnswerError::NotANumber));
    assert_eq!(parse_answer("."), Err(AnswerError::NotANumber));
    assert_eq!(parse_answer("-"), Err(AnswerError::NotANumber));
    assert_eq!(parse_answer("1 2"), Err(AnswerError::NotANumber));
    assert_eq!(parse_answer("--1"), Err(AnswerError::NotANumber));
    assert_eq!(parse_answer("1000000000000000000x"), Err(AnswerError::NotANumber));
}

#[test]
fn long_numbers_are_answers() {
    assert_eq!(
        parse_answer("1000000000000000000"),
        Ok(ans(false, &[1, 0, 0, 0, 0, 0, 0, 0, 0, 0, 0, 0, 0, 0, 0, 0, 0, 0, 0], 0))
    );
    let tiny = parse_answer("0.0000000000000000001").unwrap();
    assert_eq!(tiny.scale, 19);
    assert!(check_answer(&tiny, Fraction::whole(0)));
    assert!(check_answer(&answer("0.6600000000000000000000"), frac(2, 3)));
    assert!(!check_answer(&answer("1000000000000000000"), Fraction::whole(5)));
    assert!(!check_answer(
        &answer("-123456789012345678901234567890.5"),
        Fraction::whole(i64::MIN)
    ));
    assert!(check_answer_exact(&answer("0000000000000000000000000005"), Fraction::whole(5)));
    assert!(check_answer(&answer("5.0000000000000000000000000000001"), Fraction::whole(5)));
    assert!(!check_answer_exact(&answer("5.0000000000000000000000000000001"), Fraction::whole(5)));
    assert!(check_answer_exact(
        &answer("-9223372036854775808.000000000000000"),
        Fraction::whole(i64::MIN)
    ));
}

#[test]
fn tolerance_decided_past_many_digits() {
    // 2/3 - 1/100 = 0.65666..., so only the last digit tells these apart
    assert!(check_answer(&answer("0.6566666666666666666667"), frac(2, 3)));
    assert!(!check_answer(&answer("0.6566666666666666666665"), frac(2, 3)));
    assert!(check_answer(&answer("-0.6566666666666666666667"), frac(-2, 3)));
    assert!(!check_answer(&answer("-0.6566666666666666666665"), frac(2, -3)));
}

#[test]
fn solution_texts() {
    assert_eq!("0.67", solution_text(frac(2, 3)));
    assert_eq!("-0.33", solution_text(frac(-1, 3)));
    assert_eq!("-0.67", solution_text(frac(2, -3)));
    assert_eq!("1.25", solution_text(frac(10, 8)));
    assert_eq!("-0.13", solution_text(frac(1, -8)));
    assert_eq!("-2", solution_text(frac(-6, 3)));
    assert_eq!("2", solution_text(frac(-6, -3)));
    assert_eq!("0", solution_text(frac(0, -3)));
    assert_eq!("0.00", solution_text(frac(-1, 1000)));
    assert_eq!("-9223372036854775808", solution_text(Fraction::whole(i64::MIN)));
    assert_eq!("9223372036854775808", solution_text(frac(i64::MIN, -1)));
}
