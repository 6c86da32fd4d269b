use practice_quiz::model::{QuestionMetadata, QuizConfig, QuizFile, QuizQuestion};
use practice_quiz::results::{build_results, QuestionResult};
use practice_quiz::scoring::{score_question, QuestionStatus, ScoreFraction};
use practice_quiz::selections::Selections;
use practice_quiz::session::build_session;
use practice_quiz::theme::resolve_light_mode;
use practice_quiz::validate::{initial_question_count, validate_quiz};
use rand::rngs::SmallRng;
use rand::SeedableRng;

fn sample_quiz() -> QuizFile<f64> {
    QuizFile {
        title: "Test Quiz".into(),
        config: QuizConfig {
            marks_per_question: 2.0,
            allow_negative_mark: false,
            title: None,
            description: None,
            default_question_count: None,
        },
        marks_per_question: None,
        negative_marks: None,
        questions: vec![
            QuizQuestion {
                id: "q1".into(),
                question: "What is 2+2?".into(),
                correct_answers: vec!["4".into()],
                incorrect_answers: vec!["3".into(), "5".into()],
                explanation: None,
                metadata: QuestionMetadata {
                    study_location: Some("Chapter 1".into()),
                    topic: Some("Arithmetic".into()),
                    notes: None,
                    timestamp: None,
                    answer: None,
                    explanation: None,
                },
            },
            QuizQuestion {
                id: "q2".into(),
                question: "Select all even numbers".into(),
                correct_answers: vec!["2".into(), "4".into()],
                incorrect_answers: vec!["3".into()],
                explanation: Some("Even numbers are divisible by 2.".into()),
                metadata: QuestionMetadata {
                    topic: Some("Number Theory".into()),
                    study_location: Some("Chapter 2".into()),
                    notes: Some("Watch out for trick questions with zero".into()),
                    timestamp: None,
                    answer: None,
                    explanation: None,
                },
            },
            QuizQuestion {
                id: "q3".into(),
                question: "Capital of France?".into(),
                correct_answers: vec!["Paris".into()],
                incorrect_answers: vec!["London".into(), "Berlin".into(), "Madrid".into()],
                explanation: None,
                metadata: QuestionMetadata {
                    topic: Some("Geography".into()),
                    study_location: Some("Week 3, slide 7".into()),
                    timestamp: Some("Week 3, slide 7".into()),
                    answer: Some("Paris".into()),
                    notes: None,
                    explanation: None,
                },
            },
        ],
    }
}

/// The score of a question: the earned share of its marks, times the marks.
fn score_value(f: &ScoreFraction, marks: f64) -> f64 {
    let positive = f.reward as f64 / f.reward_of as f64;
    let penalty = f.penalty as f64 / f.penalty_of as f64;
    (positive - penalty) * marks
}

/// The total score and the total of the maximum scores of a list of results,
/// with the total floored at zero when negative marking is off.
fn totals(results: &[QuestionResult<f64>], allow_negative_mark: bool) -> (f64, f64) {
    let mut total_score = 0.0_f64;
    let mut total_max = 0.0_f64;
    for r in results {
        total_score += score_value(&r.score, r.max_score);
        total_max += r.max_score;
    }
    if !allow_negative_mark {
        total_score = total_score.max(0.0);
    }
    (total_score, total_max)
}

/// Whether the mark per question in force is above zero.
fn marks_positive(quiz: &QuizFile<f64>) -> bool {
    !(quiz.effective_config().marks_per_question <= 0.0)
}

fn ids(list: &[&str]) -> Vec<String> {
    list.iter().map(|s| s.to_string()).collect()
}

#[test]
fn theme_defaults_to_system_without_saved_preference() {
    assert!(resolve_light_mode(None, true));
    assert!(!resolve_light_mode(None, false));
}

#[test]
fn saved_theme_overrides_system_default() {
    assert!(resolve_light_mode(Some("light"), false));
    assert!(!resolve_light_mode(Some("dark"), true));
}

#[test]
fn invalid_saved_theme_falls_back_to_system() {
    assert!(resolve_light_mode(Some("system"), true));
    assert!(!resolve_light_mode(Some("unexpected"), false));
}

#[test]
fn default_config_allows_no_negative() {
    assert!(!QuizConfig::default_with_marks(1.0).allow_negative_mark);
    assert_eq!(QuizConfig::default_with_marks(1.0).marks_per_question, 1.0);
}

#[test]
fn validate_quiz_accepts_more_than_5_answers() {
    let mut quiz = sample_quiz();
    quiz.questions[0].correct_answers = vec!["a".into(), "b".into(), "c".into()];
    quiz.questions[0].incorrect_answers = vec!["d".into(), "e".into(), "f".into()];
    assert!(validate_quiz(&quiz, marks_positive(&quiz)).is_ok());
}

#[test]
fn validate_quiz_rejects_no_correct_answers() {
    let mut quiz = sample_quiz();
    quiz.questions[0].correct_answers = vec![];
    let result = validate_quiz(&quiz, marks_positive(&quiz));
    assert!(result.is_err());
    assert!(result.unwrap_err().contains("no correct answers"));
}

#[test]
fn validate_quiz_accepts_valid() {
    assert!(validate_quiz(&sample_quiz(), marks_positive(&sample_quiz())).is_ok());
}

#[test]
fn initial_count_uses_config_default_and_clamps() {
    let mut quiz = sample_quiz();
    quiz.config.default_question_count = Some(2);
    assert_eq!(initial_question_count(&quiz), 2);
    quiz.config.default_question_count = Some(100);
    assert_eq!(initial_question_count(&quiz), 3);
}

#[test]
fn build_session_respects_count() {
    let mut rng = SmallRng::from_seed([0u8; 32]);
    assert_eq!(build_session(&sample_quiz().questions, 2, &mut rng).len(), 2);
}

#[test]
fn build_session_clamps_count() {
    let mut rng = SmallRng::from_seed([0u8; 32]);
    assert_eq!(build_session(&sample_quiz().questions, 100, &mut rng).len(), 3);
}

#[test]
fn build_session_labels_a_through_e() {
    let mut rng = SmallRng::from_seed([1u8; 32]);
    let sq = &build_session(&sample_quiz().questions, 1, &mut rng)[0];
    for (_, label, _) in &sq.options {
        assert!(["A", "B", "C", "D", "E"].contains(&label.as_str()));
    }
}

#[test]
fn score_correct_single() {
    let c = ids(&["opt_0"]);
    let s = ids(&["opt_0"]);
    let (score, max, status) = score_question(&c, &s, 2, 2.0, false);
    assert_eq!(score_value(&score, max), 2.0);
    assert_eq!(max, 2.0);
    assert_eq!(status, QuestionStatus::Correct);
}

#[test]
fn score_partial_correct() {
    let c = ids(&["opt_0", "opt_1"]);
    let s = ids(&["opt_0"]);
    let (score, max, status) = score_question(&c, &s, 3, 2.0, false);
    assert!((score_value(&score, max) - 1.0).abs() < 0.001);
    assert_eq!(status, QuestionStatus::PartiallyCorrect);
}

#[test]
fn score_unanswered() {
    let c = ids(&["opt_0"]);
    let s: Vec<String> = Vec::new();
    let (score, max, status) = score_question(&c, &s, 3, 2.0, false);
    assert_eq!(score_value(&score, max), 0.0);
    assert_eq!(status, QuestionStatus::Unanswered);
}

#[test]
fn score_wrong_clamped_zero() {
    let c = ids(&["opt_0"]);
    let s = ids(&["opt_1"]);
    let (score, max, status) = score_question(&c, &s, 2, 2.0, false);
    assert_eq!(score_value(&score, max), 0.0);
    assert_eq!(status, QuestionStatus::Incorrect);
}

#[test]
fn score_negative_allowed() {
    let c = ids(&["opt_0", "opt_1"]);
    let s = ids(&["opt_2"]);
    let (score, max, _) = score_question(&c, &s, 3, 2.0, true);
    assert!(score_value(&score, max) < 0.0);
}

#[test]
fn score_negative_disabled_clamps() {
    let c = ids(&["opt_0", "opt_1"]);
    let s = ids(&["opt_2"]);
    let (score, max, _) = score_question(&c, &s, 3, 2.0, false);
    assert_eq!(score_value(&score, max), 0.0);
}

#[test]
fn score_partial_with_wrong_penalty() {
    let c = ids(&["opt_0", "opt_1"]);
    let s = ids(&["opt_0", "opt_2"]);
    let (score, max, status) = score_question(&c, &s, 3, 2.0, true);
    assert!((score_value(&score, max) + 1.0).abs() < 0.001);
    assert_eq!(status, QuestionStatus::PartiallyCorrect);
}

#[test]
fn results_clamped_without_negative() {
    let mut rng = SmallRng::from_seed([42u8; 32]);
    let quiz = sample_quiz();
    let session = build_session(&quiz.questions, 3, &mut rng);
    let config = quiz.effective_config();
    let results = build_results(&session, &Selections::new(), &config);
    let (total, max) = totals(&results, config.allow_negative_mark);
    assert_eq!(results.len(), 3);
    assert!(total >= 0.0);
    assert_eq!(max, 6.0);
}

#[test]
fn results_negative_allowed() {
    let mut rng = SmallRng::from_seed([42u8; 32]);
    let mut quiz = sample_quiz();
    quiz.config.allow_negative_mark = true;
    let session = build_session(&quiz.questions, 3, &mut rng);
    let mut selections = Selections::new();
    for sq in &session {
        let wrong: Vec<String> = sq
            .options
            .iter()
            .filter(|(id, _, _)| !sq.correct_ids.contains(id))
            .map(|(id, _, _)| id.clone())
            .collect();
        if !wrong.is_empty() {
            selections.set_selection(&sq.id, wrong);
        }
    }
    let config = quiz.effective_config();
    let results = build_results(&session, &selections, &config);
    let (total, _) = totals(&results, config.allow_negative_mark);
    assert!(total < 0.0);
}
