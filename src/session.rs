use vstd::prelude::*;
use vstd::string::StringExecFns;

use crate::answer::{answer_of, check_answer, parse_answer, within_tolerance, AnswerError};
use crate::exercise::{
    create_addition_exercise, create_division_exercise, create_exponentiation_exercise,
    create_multiplication_exercise, create_subtraction_exercise, Fraction,
};
use crate::random::generate_random;
use crate::text::{append_nat, format_question, nat_text, question_text};

verus! {

/// A streak earns praise at each multiple of this; the difficulty rises at
/// each multiple of twice this.
pub const STREAK_UNIT: u64 = 5;

/// From this streak on, praise is shown more emphatically.
pub const SUPER_PRAISE_THRESHOLD: u64 = 45;

/// How many praise phrases there are.
pub const NUM_OF_PRAISES: usize = 24;

/// The kinds of exercise.
#[derive(Clone, Copy, Debug, PartialEq, Eq, Structural)]
pub enum Operation {
    Addition,
    Subtraction,
    Multiplication,
    Division,
    Exponentiation,
}

/// The difficulty tiers, from the easiest.
#[derive(Clone, Copy, Debug, PartialEq, Eq, Structural)]
pub enum Difficulty {
    Easy,
    Medium,
    Hard,
}

/// The tier above `d`; `Hard` has none above it and stays.
pub open spec fn next_tier(d: Difficulty) -> Difficulty {
    match d {
        Difficulty::Easy => Difficulty::Medium,
        Difficulty::Medium => Difficulty::Hard,
        Difficulty::Hard => Difficulty::Hard,
    }
}

/// The operand range `[min, max)` of additions and subtractions.
pub open spec fn add_sub_range(d: Difficulty) -> (int, int) {
    match d {
        Difficulty::Easy => (-10, 11),
        Difficulty::Medium => (-50, 51),
        Difficulty::Hard => (-400, 401),
    }
}

/// The operand range `[min, max)` of multiplications and divisions.
pub open spec fn mul_div_range(d: Difficulty) -> (int, int) {
    match d {
        Difficulty::Easy => (-10, 11),
        Difficulty::Medium => (-25, 26),
        Difficulty::Hard => (-125, 126),
    }
}

/// The range `[min, max)` that exponents are drawn from.
pub open spec fn exponent_range(d: Difficulty) -> (int, int) {
    match d {
        Difficulty::Easy => (0, 3),
        Difficulty::Medium => (3, 6),
        Difficulty::Hard => (6, 8),
    }
}

pub open spec fn in_range(x: int, r: (int, int)) -> bool {
    r.0 <= x < r.1
}

/// Whether `(a, b, s)` is an exercise of kind `op` at difficulty `d`.
pub open spec fn is_exercise(op: Operation, d: Difficulty, a: int, b: int, s: Fraction) -> bool {
    match op {
        Operation::Addition => in_range(a, add_sub_range(d)) && in_range(b, add_sub_range(d))
            && s.num == a + b && s.den == 1,
        Operation::Subtraction => in_range(a, add_sub_range(d)) && in_range(b, add_sub_range(d))
            && s.num == a - b && s.den == 1,
        Operation::Multiplication => in_range(a, mul_div_range(d)) && in_range(b, mul_div_range(d))
            && s.num == a * b && s.den == 1,
        Operation::Division => in_range(a, mul_div_range(d)) && in_range(b, mul_div_range(d)) && b
            != 0 && s.num == a && s.den == b,
        Operation::Exponentiation => 0 <= a < 11 && 0 <= b && (in_range(b, exponent_range(d))
            || in_range(-b, exponent_range(d))) && s.num == vstd::arithmetic::power::pow(
            a,
            b as nat,
        ) && s.den == 1,
    }
}

fn add_sub_bounds(d: Difficulty) -> (r: (i32, i32))
    ensures
        r.0 == add_sub_range(d).0,
        r.1 == add_sub_range(d).1,
{
    match d {
        Difficulty::Easy => (-10, 11),
        Difficulty::Medium => (-50, 51),
        Difficulty::Hard => (-400, 401),
    }
}

fn mul_div_bounds(d: Difficulty) -> (r: (i32, i32))
    ensures
        r.0 == mul_div_range(d).0,
        r.1 == mul_div_range(d).1,
{
    match d {
        Difficulty::Easy => (-10, 11),
        Difficulty::Medium => (-25, 26),
        Difficulty::Hard => (-125, 126),
    }
}

fn exponent_bounds(d: Difficulty) -> (r: (i32, i32))
    ensures
        r.0 == exponent_range(d).0,
        r.1 == exponent_range(d).1,
{
    match d {
        Difficulty::Easy => (0, 3),
        Difficulty::Medium => (3, 6),
        Difficulty::Hard => (6, 8),
    }
}

/// A fresh exercise of kind `op` at difficulty `d`: its two operands and its
/// solution.
pub fn create_exercise(op: Operation, d: Difficulty) -> (r: (i32, i32, Fraction))
    ensures
        is_exercise(op, d, r.0 as int, r.1 as int, r.2),
        r.2.wf(),
        op == Operation::Exponentiation ==> 0 <= r.1 <= 9,
{
    match op {
        Operation::Addition => {
            let (lo, hi) = add_sub_bounds(d);
            create_addition_exercise(lo, hi)
        },
        Operation::Subtraction => {
            let (lo, hi) = add_sub_bounds(d);
            create_subtraction_exercise(lo, hi)
        },
        Operation::Multiplication => {
            let (lo, hi) = mul_div_bounds(d);
            create_multiplication_exercise(lo, hi)
        },
        Operation::Division => {
            let (lo, hi) = mul_div_bounds(d);
            create_division_exercise(lo, hi)
        },
        Operation::Exponentiation => {
            let (lo, hi) = exponent_bounds(d);
            create_exponentiation_exercise(lo, hi)
        },
    }
}

/// The symbol of `op` in a question.
pub open spec fn symbol_of(op: Operation) -> Seq<char> {
    match op {
        Operation::Addition => seq!['+'],
        Operation::Subtraction => seq!['-'],
        Operation::Multiplication => seq!['*'],
        Operation::Division => seq!['/'],
        Operation::Exponentiation => seq!['^'],
    }
}

/// The symbol of `op` in a question.
pub fn operation_symbol(op: Operation) -> (r: &'static str)
    ensures
        r@ == symbol_of(op),
{
    proof {
        reveal_strlit("+");
        reveal_strlit("-");
        reveal_strlit("*");
        reveal_strlit("/");
        reveal_strlit("^");
    }
    match op {
        Operation::Addition => "+",
        Operation::Subtraction => "-",
        Operation::Multiplication => "*",
        Operation::Division => "/",
        Operation::Exponentiation => "^",
    }
}

/// The prompt for the exercise `a op b`.
pub fn question_for(op: Operation, a: i32, b: i32) -> (r: String)
    requires
        op == Operation::Exponentiation ==> 0 <= b <= 9,
    ensures
        r@ == question_text(symbol_of(op), a as int, b as int),
{
    let symbol = operation_symbol(op);
    assert(symbol@ == seq!['^'] ==> op == Operation::Exponentiation) by {
        if op != Operation::Exponentiation {
            assert(symbol@[0] != '^');
        }
    }
    format_question(symbol, a, b)
}

/// The kind of the next exercise for a draw `k` from `[0, 5)`.
pub open spec fn operation_of_draw(k: int) -> Operation {
    if k == 0 {
        Operation::Addition
    } else if k == 1 {
        Operation::Multiplication
    } else if k == 2 {
        Operation::Exponentiation
    } else if k == 3 {
        Operation::Division
    } else {
        Operation::Subtraction
    }
}

/// The kind of the next exercise for a draw `k` from `[0, 5)`.
pub fn operation_for_draw(k: i32) -> (r: Operation)
    ensures
        r == operation_of_draw(k as int),
{
    if k == 0 {
        Operation::Addition
    } else if k == 1 {
        Operation::Multiplication
    } else if k == 2 {
        Operation::Exponentiation
    } else if k == 3 {
        Operation::Division
    } else {
        Operation::Subtraction
    }
}

/// The praise phrases, from the most polite to the most absurd.
pub open spec fn praise_phrases() -> Seq<Seq<char>> {
    seq![
        "not bad!"@,
        "not too shabby..."@,
        "I'm starting to get impressed"@,
        "I'm impressed!"@,
        "Well done there!"@,
        "Wow!"@,
        "You're on fire!"@,
        "did you consider engineering?"@,
        "gotta love this accuracy!"@,
        "you're unstopable!!"@,
        "HAVE MERCY!"@,
        "is this even POSSIBLE?"@,
        "wtf! another hit?"@,
        "that's some math snipping"@,
        "you're possesed by deamons!"@,
        "I officially quit"@,
        "You make me look bad, and I'm a COMPUTER"@,
        "I'm your biggest fan"@,
        "MARRY ME!"@,
        "can you be more robust?!"@,
        "Is there a nobel prize for arithmetic?"@,
        "to say you're a bigshot would be such an understatement..."@,
        "Godlike skills !@!"@,
        "any futher praise would be an insult to your immanence"@,
    ]
}

/// The praise phrase at `index`.
pub fn praise_phrase(index: usize) -> (r: &'static str)
    requires
        index < NUM_OF_PRAISES,
    ensures
        r@ == praise_phrases()[index as int],
{
    if index == 0 {
        "not bad!"
    } else if index == 1 {
        "not too shabby..."
    } else if index == 2 {
        "I'm starting to get impressed"
    } else if index == 3 {
        "I'm impressed!"
    } else if index == 4 {
        "Well done there!"
    } else if index == 5 {
        "Wow!"
    } else if index == 6 {
        "You're on fire!"
    } else if index == 7 {
        "did you consider engineering?"
    } else if index == 8 {
        "gotta love this accuracy!"
    } else if index == 9 {
        "you're unstopable!!"
    } else if index == 10 {
        "HAVE MERCY!"
    } else if index == 11 {
        "is this even POSSIBLE?"
    } else if index == 12 {
        "wtf! another hit?"
    } else if index == 13 {
        "that's some math snipping"
    } else if index == 14 {
        "you're possesed by deamons!"
    } else if index == 15 {
        "I officially quit"
    } else if index == 16 {
        "You make me look bad, and I'm a COMPUTER"
    } else if index == 17 {
        "I'm your biggest fan"
    } else if index == 18 {
        "MARRY ME!"
    } else if index == 19 {
        "can you be more robust?!"
    } else if index == 20 {
        "Is there a nobel prize for arithmetic?"
    } else if index == 21 {
        "to say you're a bigshot would be such an understatement..."
    } else if index == 22 {
        "Godlike skills !@!"
    } else {
        "any futher praise would be an insult to your immanence"
    }
}

/// A praise notice: the streak that earned it, the index of its phrase, and
/// whether it is shown emphatically.
#[derive(Clone, Copy, Debug, PartialEq, Eq, Structural)]
pub struct Praise {
    pub streak: u64,
    pub index: usize,
    pub emphatic: bool,
}

/// What a graded answer brings: whether it was right, a praise notice on a
/// streak milestone, and the new difficulty when the tier changed.
#[derive(Clone, Copy, Debug, PartialEq, Eq, Structural)]
pub struct Feedback {
    pub correct: bool,
    pub praise: Option<Praise>,
    pub new_difficulty: Option<Difficulty>,
}

/// The state of a drill session.
#[derive(Clone, Copy, Debug, PartialEq, Eq, Structural)]
pub struct SessionState {
    /// The number of consecutive right answers.
    pub streak: u64,
    /// The index of the next praise phrase.
    pub praise_index: usize,
    pub difficulty: Difficulty,
    /// The kind of the next exercise.
    pub operation: Operation,
}

/// The tier that a session has reached with `streak` right answers in a row.
pub open spec fn tier_for_streak(streak: int) -> Difficulty {
    if streak < 2 * STREAK_UNIT {
        Difficulty::Easy
    } else if streak < 4 * STREAK_UNIT {
        Difficulty::Medium
    } else {
        Difficulty::Hard
    }
}

/// The praise index that a session has reached with `streak` right answers in
/// a row: one step per praise given, pinned at the last phrase.
pub open spec fn praise_index_for_streak(streak: int) -> int {
    let given = streak / STREAK_UNIT as int;
    if given < NUM_OF_PRAISES {
        given
    } else {
        NUM_OF_PRAISES - 1
    }
}

impl SessionState {
    /// A session state is what its streak has led to.
    pub open spec fn wf(&self) -> bool {
        &&& self.difficulty == tier_for_streak(self.streak as int)
        &&& self.praise_index == praise_index_for_streak(self.streak as int)
    }

    /// A fresh session: no streak, the first praise next, easy additions.
    pub fn new() -> (r: SessionState)
        ensures
            r.wf(),
            r.streak == 0,
            r.praise_index == 0,
            r.difficulty == Difficulty::Easy,
            r.operation == Operation::Addition,
    {
        SessionState {
            streak: 0,
            praise_index: 0,
            difficulty: Difficulty::Easy,
            operation: Operation::Addition,
        }
    }
}

/// The state and feedback after an answer that was right or wrong.
pub open spec fn after_answer(s: SessionState, correct: bool) -> (SessionState, Feedback) {
    if correct {
        let streak = s.streak + 1;
        let praised = streak % STREAK_UNIT as int == 0;
        let index = if praised && s.praise_index < NUM_OF_PRAISES - 1 {
            s.praise_index + 1
        } else {
            s.praise_index as int
        };
        let escalates = streak % (2 * STREAK_UNIT) as int == 0 && s.difficulty != Difficulty::Hard;
        let tier = if escalates {
            next_tier(s.difficulty)
        } else {
            s.difficulty
        };
        (
            SessionState {
                streak: streak as u64,
                praise_index: index as usize,
                difficulty: tier,
                operation: s.operation,
            },
            Feedback {
                correct: true,
                praise: if praised {
                    Some(
                        Praise {
                            streak: streak as u64,
                            index: s.praise_index,
                            emphatic: streak >= SUPER_PRAISE_THRESHOLD,
                        },
                    )
                } else {
                    None
                },
                new_difficulty: if escalates {
                    Some(tier)
                } else {
                    None
                },
            },
        )
    } else {
        (
            SessionState {
                streak: 0,
                praise_index: 0,
                difficulty: Difficulty::Easy,
                operation: s.operation,
            },
            Feedback { correct: false, praise: None, new_difficulty: Some(Difficulty::Easy) },
        )
    }
}

impl SessionState {
    /// Counts an answer that was right or wrong: a right one extends the
    /// streak, may earn praise and may raise the difficulty one tier; a wrong
    /// one resets the streak, the praise and the difficulty.
    pub fn record_answer(&mut self, correct: bool) -> (r: Feedback)
        requires
            old(self).wf(),
            correct ==> old(self).streak < u64::MAX,
        ensures
            final(self).wf(),
            (*final(self), r) == after_answer(*old(self), correct),
    {
        if correct {
            self.streak = self.streak + 1;
            let mut praise: Option<Praise> = None;
            if self.streak % STREAK_UNIT == 0 {
                praise = Some(
                    Praise {
                        streak: self.streak,
                        index: self.praise_index,
                        emphatic: self.streak >= SUPER_PRAISE_THRESHOLD,
                    },
                );
                if self.praise_index < NUM_OF_PRAISES - 1 {
                    self.praise_index = self.praise_index + 1;
                }
            }
            let mut new_difficulty: Option<Difficulty> = None;
            if self.streak % (2 * STREAK_UNIT) == 0 {
                match self.difficulty {
                    Difficulty::Easy => {
                        self.difficulty = Difficulty::Medium;
                        new_difficulty = Some(Difficulty::Medium);
                    },
                    Difficulty::Medium => {
                        self.difficulty = Difficulty::Hard;
                        new_difficulty = Some(Difficulty::Hard);
                    },
                    Difficulty::Hard => {},
                }
            }
            Feedback { correct: true, praise, new_difficulty }
        } else {
            self.streak = 0;
            self.praise_index = 0;
            self.difficulty = Difficulty::Easy;
            Feedback { correct: false, praise: None, new_difficulty: Some(Difficulty::Easy) }
        }
    }
}

/// The tier changes of a session follow its streak: a right answer raises
/// `Easy` to `Medium` exactly when it brings the streak to ten, and `Medium`
/// to `Hard` exactly when it brings the streak to twenty; a wrong answer, at
/// any streak, resets the tier to `Easy` and the streak to zero. A tier never
/// skips a step, `Hard` stays `Hard` on a right answer, and every change of
/// tier, as well as every reset, comes with a notice of the new tier.
pub proof fn lemma_tier_follows_streak(s: SessionState, correct: bool)
    requires
        s.wf(),
        correct ==> s.streak < u64::MAX,
    ensures
        after_answer(s, correct).0.wf(),
        (s.difficulty == Difficulty::Easy && after_answer(s, correct).0.difficulty
            == Difficulty::Medium) <==> (correct && after_answer(s, correct).0.streak == 10),
        (s.difficulty == Difficulty::Medium && after_answer(s, correct).0.difficulty
            == Difficulty::Hard) <==> (correct && after_answer(s, correct).0.streak == 20),
        !correct ==> after_answer(s, correct).0.difficulty == Difficulty::Easy
            && after_answer(s, correct).0.streak == 0,
        correct ==> after_answer(s, correct).0.difficulty == s.difficulty
            || after_answer(s, correct).0.difficulty == next_tier(s.difficulty),
        correct && s.difficulty == Difficulty::Hard ==> after_answer(s, correct).0.difficulty
            == Difficulty::Hard,
        after_answer(s, correct).1.new_difficulty == (if after_answer(s, correct).0.difficulty
            != s.difficulty || !correct {
            Some(after_answer(s, correct).0.difficulty)
        } else {
            None::<Difficulty>
        }),
{
}

impl SessionState {
    /// Grades the line `line` typed in answer to an exercise whose solution
    /// is `solution`. A line that is not an answer leaves the state as it
    /// was; an answer counts as right when it is within one hundredth of the
    /// solution.
    pub fn respond(&mut self, line: &str, solution: Fraction) -> (r: Result<Feedback, AnswerError>)
        requires
            old(self).wf(),
            solution.wf(),
            old(self).streak < u64::MAX,
        ensures
            final(self).wf(),
            match answer_of(line@) {
                Err(e) => r == Err::<Feedback, AnswerError>(e) && *final(self) == *old(self),
                Ok(a) => r is Ok && (*final(self), r->Ok_0) == after_answer(
                    *old(self),
                    within_tolerance(a, solution),
                ),
            },
    {
        match parse_answer(line) {
            Err(e) => Err(e),
            Ok(a) => {
                let correct = check_answer(&a, solution);
                Ok(self.record_answer(correct))
            },
        }
    }

    /// Picks the kind of the next exercise at random, among all five, and
    /// returns the draw that chose it.
    pub fn advance_operation(&mut self) -> (k: i32)
        requires
            old(self).wf(),
        ensures
            final(self).wf(),
            final(self).streak == old(self).streak,
            final(self).praise_index == old(self).praise_index,
            final(self).difficulty == old(self).difficulty,
            0 <= k < 5,
            final(self).operation == operation_of_draw(k as int),
    {
        let k = generate_random(0, 5);
        self.operation = operation_for_draw(k);
        k
    }
}

/// The name of a difficulty tier.
pub open spec fn difficulty_name_of(d: Difficulty) -> Seq<char> {
    match d {
        Difficulty::Easy => "Easy"@,
        Difficulty::Medium => "Medium"@,
        Difficulty::Hard => "Hard"@,
    }
}

/// The name of a difficulty tier.
pub fn difficulty_name(d: Difficulty) -> (r: &'static str)
    ensures
        r@ == difficulty_name_of(d),
{
    match d {
        Difficulty::Easy => "Easy",
        Difficulty::Medium => "Medium",
        Difficulty::Hard => "Hard",
    }
}

/// The notice that the difficulty is now `d`.
pub fn difficulty_notice(d: Difficulty) -> (r: String)
    ensures
        r@ == "updating difficulty to: "@ + difficulty_name_of(d),
{
    let mut s = String::from_str("updating difficulty to: ");
    s.append(difficulty_name(d));
    s
}

/// The line of a praise notice, as in `10 in a row! not too shabby...`.
pub fn praise_line(praise: Praise) -> (r: String)
    requires
        praise.index < NUM_OF_PRAISES,
    ensures
        r@ == nat_text(praise.streak as nat) + " in a row! "@ + praise_phrases()[praise.index as int],
{
    let mut s = String::new();
    append_nat(&mut s, praise.streak);
    s.append(" in a row! ");
    s.append(praise_phrase(praise.index));
    s
}

} // verus!
