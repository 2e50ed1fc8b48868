use arith_drill::answer::AnswerError;
use arith_drill::exercise::Fraction;
use arith_drill::session::{
    operation_for_draw, Difficulty, Operation, Praise, SessionState, NUM_OF_PRAISES,
};

#[test]
fn fresh_session() {
    let s = SessionState::new();
    assert_eq!(s.streak, 0);
    assert_eq!(s.praise_index, 0);
    assert_eq!(s.difficulty, Difficulty::Easy);
    assert_eq!(s.operation, Operation::Addition);
}

#[test]
fn ten_right_answers_from_fresh() {
    let mut s = SessionState::new();
    let mut praises = Vec::new();
    let mut changes = Vec::new();
    for i in 1..=10u64 {
        let f = s.record_answer(true);
        assert!(f.correct);
        if let Some(p) = f.praise {
            praises.push((i, p));
        }
        if let Some(d) = f.new_difficulty {
            changes.push((i, d));
        }
    }
    assert_eq!(
        praises,
        vec![
            (5, Praise { streak: 5, index: 0, emphatic: false }),
            (10, Praise { streak: 10, index: 1, emphatic: false }),
        ]
    );
    assert_eq!(changes, vec![(10, Difficulty::Medium)]);
    assert_eq!(s.difficulty, Difficulty::Medium);
    assert_eq!(s.streak, 10);
    assert_eq!(s.praise_index, 2);
}

#[test]
fn tiers_rise_at_ten_and_twenty() {
    let mut s = SessionState::new();
    for i in 1..=40u64 {
        let f = s.record_answer(true);
        match i {
            10 => assert_eq!(f.new_difficulty, Some(Difficulty::Medium)),
            20 => assert_eq!(f.new_difficulty, Some(Difficulty::Hard)),
            _ => assert_eq!(f.new_difficulty, None),
        }
    }
    assert_eq!(s.difficulty, Difficulty::Hard);
}

#[test]
fn wrong_answer_resets_everything() {
    let mut s = SessionState::new();
    for _ in 0..23 {
        s.record_answer(true);
    }
    assert_eq!(s.difficulty, Difficulty::Hard);
    let f = s.record_answer(false);
    assert!(!f.correct);
    assert_eq!(f.praise, None);
    assert_eq!(f.new_difficulty, Some(Difficulty::Easy));
    assert_eq!(s.streak, 0);
    assert_eq!(s.praise_index, 0);
    assert_eq!(s.difficulty, Difficulty::Easy);

    let f = s.record_answer(false);
    assert_eq!(f.new_difficulty, Some(Difficulty::Easy));
    assert_eq!(s.streak, 0);
}

#[test]
fn praise_turns_emphatic_and_stays_on_last_phrase() {
    let mut s = SessionState::new();
    let mut last = None;
    for i in 1..=150u64 {
        let f = s.record_answer(true);
        if i == 40 {
            assert!(!f.praise.unwrap().emphatic);
        }
        if i == 45 {
            assert!(f.praise.unwrap().emphatic);
        }
        if let Some(p) = f.praise {
            last = Some(p);
        }
    }
    assert_eq!(last, Some(Praise { streak: 150, index: NUM_OF_PRAISES - 1, emphatic: true }));
    assert_eq!(s.praise_index, NUM_OF_PRAISES - 1);
}

#[test]
fn respond_grades_lines() {
    let mut s = SessionState::new();
    let before = s;
    assert_eq!(s.respond("what?", Fraction::whole(4)), Err(AnswerError::NotANumber));
    assert_eq!(s, before);

    let f = s.respond(" 4 \n", Fraction::whole(4)).unwrap();
    assert!(f.correct);
    assert_eq!(s.streak, 1);

    let f = s.respond("0.67", Fraction { num: 2, den: 3 }).unwrap();
    assert!(f.correct);
    assert_eq!(s.streak, 2);

    let f = s.respond("3", Fraction::whole(4)).unwrap();
    assert!(!f.correct);
    assert_eq!(s.streak, 0);
    assert_eq!(s.operation, Operation::Addition);
}

#[test]
fn operations_for_draws() {
    assert_eq!(operation_for_draw(0), Operation::Addition);
    assert_eq!(operation_for_draw(1), Operation::Multiplication);
    assert_eq!(operation_for_draw(2), Operation::Exponentiation);
    assert_eq!(operation_for_draw(3), Operation::Division);
    assert_eq!(operation_for_draw(4), Operation::Subtraction);
}

#[test]
fn advance_keeps_the_streak() {
    let mut s = SessionState::new();
    for _ in 0..12 {
        s.record_answer(true);
    }
    let mut seen = Vec::new();
    for _ in 0..500 {
        s.advance_operation();
        assert_eq!(s.streak, 12);
        assert_eq!(s.difficulty, Difficulty::Medium);
        if !seen.contains(&s.operation) {
            seen.push(s.operation);
        }
    }
    assert_eq!(seen.len(), 5);
}
