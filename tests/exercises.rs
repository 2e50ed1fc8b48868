use arith_drill::exercise::{
    create_addition_exercise, create_division_exercise, create_exponentiation_exercise,
    create_multiplication_exercise, create_subtraction_exercise, power, Fraction,
};
use arith_drill::random::generate_random;
use arith_drill::session::{create_exercise, Difficulty, Operation};

#[test]
fn random_generator() {
    for _ in 0..1000 {
        let random = generate_random(-3, 3);
        assert!(random < 3 && random > -4);
    }
}

#[test]
fn random_generator_reaches_every_value() {
    let mut seen = [false; 5];
    for _ in 0..1000 {
        let random = generate_random(0, 5);
        assert!((0..5).contains(&random));
        seen[random as usize] = true;
    }
    assert!(seen.iter().all(|s| *s));
}

#[test]
fn random_generator_single_value() {
    for _ in 0..100 {
        assert_eq!(generate_random(7, 8), 7);
    }
}

#[test]
fn addition() {
    for _ in 0..1000 {
        let (a, b, res) = create_addition_exercise(-1000, 1001);
        assert_eq!(Fraction::whole((a + b) as i64), res);
    }
}

#[test]
fn subtraction() {
    for _ in 0..1000 {
        let (a, b, res) = create_subtraction_exercise(-1000, 1001);
        assert_eq!(Fraction::whole((a - b) as i64), res);
    }
}

#[test]
fn multiplication() {
    for _ in 0..1000 {
        let (a, b, res) = create_multiplication_exercise(-1000, 1001);
        assert_eq!(Fraction::whole((a * b) as i64), res);
    }
}

#[test]
fn exponentiation() {
    for _ in 0..1000 {
        let (a, e, res) = create_exponentiation_exercise(0, 10);
        assert_eq!(Fraction::whole(a.pow(e as u32) as i64), res);
    }
}

#[test]
fn exponentiation_takes_magnitude_of_negative_draw() {
    for _ in 0..200 {
        let (a, e, res) = create_exponentiation_exercise(-3, -1);
        assert!(e == 2 || e == 3);
        assert!((0..11).contains(&a));
        assert_eq!(Fraction::whole((a as i64).pow(e as u32)), res);
    }
}

#[test]
fn division_never_draws_zero_divisor() {
    for _ in 0..1000 {
        let (a, b, res) = create_division_exercise(-2, 2);
        assert_ne!(b, 0);
        assert!((-2..2).contains(&a) && (-2..2).contains(&b));
        assert_eq!(res, Fraction { num: a as i64, den: b });
    }
}

#[test]
fn division_with_only_one_nonzero_value() {
    for _ in 0..100 {
        let (_, b, _) = create_division_exercise(0, 2);
        assert_eq!(b, 1);
        let (_, b, _) = create_division_exercise(-1, 1);
        assert_eq!(b, -1);
    }
}

#[test]
fn power_values() {
    assert_eq!(power(0, 0), 1);
    assert_eq!(power(2, 9), 512);
    assert_eq!(power(10, 9), 1_000_000_000);
    assert_eq!(power(7, 1), 7);
    assert_eq!(power(0, 3), 0);
}

#[test]
fn exercises_follow_the_tier_ranges() {
    let tiers = [
        (Difficulty::Easy, (-10, 11), (-10, 11), (0, 3)),
        (Difficulty::Medium, (-50, 51), (-25, 26), (3, 6)),
        (Difficulty::Hard, (-400, 401), (-125, 126), (6, 8)),
    ];
    for (d, add, mul, exp) in tiers {
        for _ in 0..300 {
            let (a, b, s) = create_exercise(Operation::Addition, d);
            assert!(a >= add.0 && a < add.1 && b >= add.0 && b < add.1);
            assert_eq!(s, Fraction::whole((a + b) as i64));
            let (a, b, s) = create_exercise(Operation::Subtraction, d);
            assert!(a >= add.0 && a < add.1 && b >= add.0 && b < add.1);
            assert_eq!(s, Fraction::whole((a - b) as i64));
            let (a, b, s) = create_exercise(Operation::Multiplication, d);
            assert!(a >= mul.0 && a < mul.1 && b >= mul.0 && b < mul.1);
            assert_eq!(s, Fraction::whole((a * b) as i64));
            let (a, b, s) = create_exercise(Operation::Division, d);
            assert!(a >= mul.0 && a < mul.1 && b >= mul.0 && b < mul.1 && b != 0);
            assert_eq!(s, Fraction { num: a as i64, den: b });
            let (a, e, s) = create_exercise(Operation::Exponentiation, d);
            assert!((0..11).contains(&a) && e >= exp.0 && e < exp.1);
            assert_eq!(s, Fraction::whole((a as i64).pow(e as u32)));
        }
    }
}
