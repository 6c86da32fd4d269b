//! Checks on a loaded quiz, and the number of questions offered at first.
use vstd::prelude::*;
use vstd::string::*;
use crate::model::{QuestionView, QuizFile, QuizQuestion};

verus! {

/// The views of a list of questions.
pub open spec fn question_views(qs: Seq<QuizQuestion>) -> Seq<QuestionView> {
    qs.map_values(|q: QuizQuestion| q@)
}

/// The message for a question that has no answers at all.
pub open spec fn no_answers_message(q: QuestionView) -> Seq<char> {
    "Question \""@ + q.question + "\" (id: "@ + q.id + ") has no answers"@
}

/// The message for a question that has answers but no correct one.
pub open spec fn no_correct_answers_message(q: QuestionView) -> Seq<char> {
    "Question \""@ + q.question + "\" (id: "@ + q.id + ") has no correct answers"@
}

/// What is wrong with one question, if anything.
pub open spec fn question_problem(q: QuestionView) -> Option<Seq<char>> {
    if q.correct_answers.len() + q.incorrect_answers.len() == 0 {
        Some(no_answers_message(q))
    } else if q.correct_answers.len() == 0 {
        Some(no_correct_answers_message(q))
    } else {
        None
    }
}

/// The first problem found among the questions, in order.
pub open spec fn first_problem(qs: Seq<QuestionView>) -> Option<Seq<char>>
    decreases qs.len(),
{
    if qs.len() == 0 {
        None
    } else {
        match question_problem(qs[0]) {
            Some(m) => Some(m),
            None => first_problem(qs.drop_first()),
        }
    }
}

/// The outcome of validating a quiz's questions: refused when there are none,
/// or with the first problem found, else accepted.
pub open spec fn spec_validate(qs: Seq<QuestionView>) -> Result<(), Seq<char>> {
    if qs.len() == 0 {
        Err("Quiz file contains no questions"@)
    } else {
        match first_problem(qs) {
            Some(m) => Err(m),
            None => Ok(()),
        }
    }
}

/// There is no problem exactly when no question has one.
pub proof fn lemma_first_problem_none(qs: Seq<QuestionView>)
    ensures
        first_problem(qs) is None <==> forall|i: int|
            0 <= i < qs.len() ==> question_problem(#[trigger] qs[i]) is None,
    decreases qs.len(),
{
    if qs.len() > 0 {
        lemma_first_problem_none(qs.drop_first());
        if first_problem(qs) is None {
            assert forall|i: int| 0 <= i < qs.len() implies question_problem(
                #[trigger] qs[i],
            ) is None by {
                if i > 0 {
                    assert(qs[i] == qs.drop_first()[i - 1]);
                }
            }
        }
        if forall|i: int| 0 <= i < qs.len() ==> question_problem(#[trigger] qs[i]) is None {
            assert(question_problem(qs[0]) is None);
            assert forall|i: int| 0 <= i < qs.drop_first().len() implies question_problem(
                #[trigger] qs.drop_first()[i],
            ) is None by {
                assert(qs.drop_first()[i] == qs[i + 1]);
            }
        }
    }
}

fn question_message(q: &QuizQuestion, ending: &str) -> (m: String)
    ensures
        m@ == "Question \""@ + q.question@ + "\" (id: "@ + q.id@ + ending@,
{
    let mut m = String::from_str("Question \"");
    m.append(q.question.as_str());
    m.append("\" (id: ");
    m.append(q.id.as_str());
    m.append(ending);
    m
}

/// The outcome of validating a quiz: refused when the mark per question is not
/// above zero, else as its questions decide.
pub open spec fn spec_validate_quiz(marks_positive: bool, qs: Seq<QuestionView>) -> Result<(), Seq<char>> {
    if !marks_positive {
        Err("marks_per_question must be greater than 0"@)
    } else {
        spec_validate(qs)
    }
}

/// Checks a quiz: the mark per question in force must be above zero
/// (`marks_positive`, the caller's comparison of that number with zero), the quiz
/// must have questions, and each question must have answers, at least one of them
/// correct. Gives the message of the first problem found.
pub fn validate_quiz<M>(quiz: &QuizFile<M>, marks_positive: bool) -> (r: Result<(), String>)
    ensures
        match (r, spec_validate_quiz(marks_positive, question_views(quiz.questions@))) {
            (Ok(()), Ok(())) => true,
            (Err(m), Err(n)) => m@ == n,
            _ => false,
        },
{
    let ghost qs = question_views(quiz.questions@);
    if !marks_positive {
        return Err(String::from_str("marks_per_question must be greater than 0"));
    }
    if quiz.questions.len() == 0 {
        return Err(String::from_str("Quiz file contains no questions"));
    }
    let mut i: usize = 0;
    assert(qs.skip(0) =~= qs);
    while i < quiz.questions.len()
        invariant
            marks_positive,
            qs == question_views(quiz.questions@),
            qs.len() == quiz.questions@.len(),
            i <= qs.len(),
            first_problem(qs) == first_problem(qs.skip(i as int)),
        decreases qs.len() - i,
    {
        let q = &quiz.questions[i];
        assert(qs.skip(i as int)[0] == q@);
        assert(qs.skip(i as int).drop_first() =~= qs.skip(i + 1));
        let total = q.correct_answers.len() as u128 + q.incorrect_answers.len() as u128;
        if total == 0 {
            return Err(question_message(q, ") has no answers"));
        }
        if q.correct_answers.len() == 0 {
            return Err(question_message(q, ") has no correct answers"));
        }
        i = i + 1;
    }
    assert(qs.skip(qs.len() as int) =~= Seq::<QuestionView>::empty());
    Ok(())
}

/// The number of questions offered at first: the configured default, or all
/// questions when none is configured, kept between one and the number of questions.
pub open spec fn spec_initial_question_count(default_count: Option<usize>, n: nat) -> nat {
    let v: nat = match default_count {
        Some(v) => v as nat,
        None => n,
    };
    if v < 1 {
        1
    } else if v > n {
        n
    } else {
        v
    }
}

/// The number of questions offered at first. A quiz without questions has no
/// such number: it is refused by [`validate_quiz`].
pub fn initial_question_count<M: Copy>(quiz: &QuizFile<M>) -> (n: usize)
    requires
        quiz.questions@.len() >= 1,
    ensures
        n == spec_initial_question_count(
            quiz.config.default_question_count,
            quiz.questions@.len(),
        ),
        1 <= n <= quiz.questions@.len(),
{
    let max = quiz.questions.len();
    let requested = match quiz.effective_config().default_question_count {
        Some(v) => v,
        None => max,
    };
    if requested < 1 {
        1
    } else if requested > max {
        max
    } else {
        requested
    }
}

/// A quiz that passes validation has at least one question, each with a correct answer.
pub proof fn law_valid_quiz_has_answerable_questions<M>(quiz: QuizFile<M>, marks_positive: bool)
    requires
        spec_validate_quiz(marks_positive, question_views(quiz.questions@)) is Ok,
    ensures
        quiz.questions@.len() >= 1,
        forall|i: int|
            0 <= i < quiz.questions@.len() ==> (#[trigger] quiz.questions@[i])@.correct_answers.len()
                >= 1,
{
    let qs = question_views(quiz.questions@);
    lemma_first_problem_none(qs);
    assert forall|i: int| 0 <= i < quiz.questions@.len() implies (
    #[trigger] quiz.questions@[i])@.correct_answers.len() >= 1 by {
        assert(qs[i] == quiz.questions@[i]@);
        assert(question_problem(qs[i]) is None);
    }
}

} // verus!
