use practice_quiz::filter::{
    chip_class, effective_question_count, filter_questions, matched_values, parse_filter_pattern,
    parse_usize, requested_question_count, ValueFilter,
};
use practice_quiz::labels::{option_id, option_label};
use practice_quiz::model::{
    has_metadata_value, metadata_value, QuestionMetadata, QuizConfig, QuizFile, QuizQuestion,
    EXAMPLE_QUIZ_JSON,
};
use practice_quiz::results::{
    build_results, grade_class, needs_review, question_result, status_class, status_text,
};
use practice_quiz::schema::{fields_from_props, prop_type_label, schema_url, SchemaProperty};
use practice_quiz::scoring::{score_question, QuestionStatus};
use practice_quiz::selections::Selections;
use practice_quiz::session::{build_session, session_question_from};
use practice_quiz::text::{is_blank_str, str_eq_ignore_ascii_case, str_less};
use practice_quiz::theme::{resolve_light_mode, theme_storage_value};
use practice_quiz::topics::{available_locations, available_topics};
use practice_quiz::validate::{initial_question_count, validate_quiz};
use rand::rngs::SmallRng;
use rand::SeedableRng;

fn question(id: &str, correct: &[&str], incorrect: &[&str]) -> QuizQuestion {
    QuizQuestion {
        id: id.to_string(),
        question: format!("Question {id}?"),
        correct_answers: correct.iter().map(|s| s.to_string()).collect(),
        incorrect_answers: incorrect.iter().map(|s| s.to_string()).collect(),
        explanation: None,
        metadata: QuestionMetadata::default(),
    }
}

fn with_meta(mut q: QuizQuestion, topic: Option<&str>, location: Option<&str>) -> QuizQuestion {
    q.metadata.topic = topic.map(|s| s.to_string());
    q.metadata.study_location = location.map(|s| s.to_string());
    q
}

fn quiz(questions: Vec<QuizQuestion>) -> QuizFile<f64> {
    QuizFile {
        title: "Quiz".into(),
        config: QuizConfig::default_with_marks(1.0),
        marks_per_question: None,
        negative_marks: None,
        questions,
    }
}

fn strings(list: &[&str]) -> Vec<String> {
    list.iter().map(|s| s.to_string()).collect()
}

#[test]
fn saved_theme_round_trips() {
    for light in [true, false] {
        for system in [true, false] {
            assert_eq!(resolve_light_mode(Some(theme_storage_value(light)), system), light);
        }
    }
    assert_eq!(theme_storage_value(true), "light");
    assert_eq!(theme_storage_value(false), "dark");
}

#[test]
fn blank_text_is_only_white_space() {
    assert!(is_blank_str(""));
    assert!(is_blank_str(" \t\n\u{3000}\u{a0}"));
    assert!(!is_blank_str("  x "));
    assert!(!is_blank_str("\u{200b}"));
}

#[test]
fn ascii_case_and_order() {
    assert!(str_eq_ignore_ascii_case("TrUe", "true"));
    assert!(!str_eq_ignore_ascii_case("truth", "true"));
    assert!(!str_eq_ignore_ascii_case("Ä", "ä"));
    assert!(str_less("Apple", "apple"));
    assert!(str_less("abc", "abd"));
    assert!(str_less("ab", "abc"));
    assert!(!str_less("abc", "abc"));
    assert!(!str_less("b", "a"));
}

#[test]
fn display_title_prefers_file_title() {
    let mut q = quiz(vec![question("q1", &["a"], &[])]);
    assert_eq!(q.display_title(), "Quiz");
    q.title = "   ".into();
    assert_eq!(q.display_title(), "Practice Quiz");
    q.config.title = Some("From config".into());
    assert_eq!(q.display_title(), "From config");
}

#[test]
fn effective_config_applies_file_overrides() {
    let mut q = quiz(vec![question("q1", &["a"], &[])]);
    q.config.marks_per_question = 3.0;
    q.config.allow_negative_mark = true;
    let c = q.effective_config();
    assert_eq!(c.marks_per_question, 3.0);
    assert!(c.allow_negative_mark);
    q.marks_per_question = Some(0.5);
    q.negative_marks = Some(false);
    let c = q.effective_config();
    assert_eq!(c.marks_per_question, 0.5);
    assert!(!c.allow_negative_mark);
}

#[test]
fn metadata_content_and_merge() {
    let mut m = QuestionMetadata::default();
    assert!(!m.has_content());
    m.notes = Some("  ".into());
    assert!(!m.has_content());
    assert!(!has_metadata_value(&m.notes));
    assert_eq!(metadata_value(&m.notes), None);
    m.topic = Some("Sets".into());
    assert!(m.has_content());
    assert_eq!(metadata_value(&m.topic), Some("Sets"));

    let mut q = question("q1", &["a"], &[]);
    q.explanation = Some("Because".into());
    assert_eq!(q.merged_metadata().explanation.as_deref(), Some("Because"));
    q.metadata.explanation = Some("Own".into());
    assert_eq!(q.merged_metadata().explanation.as_deref(), Some("Own"));
}

#[test]
fn validation_errors_name_the_question() {
    let mut zero_marks = quiz(vec![question("q1", &["a"], &[])]);
    zero_marks.marks_per_question = Some(0.0);
    let positive = !(zero_marks.effective_config().marks_per_question <= 0.0);
    assert_eq!(
        validate_quiz(&zero_marks, positive).unwrap_err(),
        "marks_per_question must be greater than 0"
    );
    let empty = quiz(vec![]);
    assert_eq!(validate_quiz(&empty, true).unwrap_err(), "Quiz file contains no questions");
    let no_answers = quiz(vec![question("q1", &["a"], &[]), question("q2", &[], &[])]);
    assert_eq!(
        validate_quiz(&no_answers, true).unwrap_err(),
        "Question \"Question q2?\" (id: q2) has no answers"
    );
    let no_correct = quiz(vec![question("q1", &[], &["b"]), question("q2", &[], &[])]);
    assert_eq!(
        validate_quiz(&no_correct, true).unwrap_err(),
        "Question \"Question q1?\" (id: q1) has no correct answers"
    );
}

#[test]
fn initial_count_without_default_is_all() {
    let q = quiz(vec![question("q1", &["a"], &[]), question("q2", &["a"], &[])]);
    assert_eq!(initial_question_count(&q), 2);
    let mut q = q;
    q.config.default_question_count = Some(0);
    assert_eq!(initial_question_count(&q), 1);
}

#[test]
fn topics_and_locations_sorted_and_distinct() {
    let q = quiz(vec![
        with_meta(question("q1", &["a"], &[]), Some("Beta"), Some("Week 2")),
        with_meta(question("q2", &["a"], &[]), Some("Alpha"), None),
        with_meta(question("q3", &["a"], &[]), Some("Beta"), Some("Week 1")),
        with_meta(question("q4", &["a"], &[]), None, Some("Week 2")),
    ]);
    assert_eq!(available_topics(&q), strings(&["Alpha", "Beta"]));
    assert_eq!(available_locations(&q), strings(&["Week 1", "Week 2"]));
}

#[test]
fn option_ids_and_labels() {
    assert_eq!(option_id(0), "opt_0");
    assert_eq!(option_id(12), "opt_12");
    assert_eq!(option_id(1305), "opt_1305");
    assert_eq!(option_label(0), "A");
    assert_eq!(option_label(25), "Z");
}

#[test]
fn session_question_layout_follows_arrangement() {
    let q = question("q1", &["right"], &["wrong"]);
    let arranged = vec![(false, "wrong".to_string()), (true, "right".to_string())];
    let sq = session_question_from(&q, &arranged);
    assert_eq!(
        sq.options,
        vec![
            ("opt_0".to_string(), "A".to_string(), "wrong".to_string()),
            ("opt_1".to_string(), "B".to_string(), "right".to_string()),
        ]
    );
    assert_eq!(sq.correct_ids, strings(&["opt_1"]));
    assert_eq!(sq.id, "q1");
    assert_eq!(sq.text, "Question q1?");
}

#[test]
fn true_false_questions_put_true_first() {
    for seed in 0u8..8 {
        let mut rng = SmallRng::from_seed([seed; 32]);
        let q = question("tf", &["FALSE"], &["True"]);
        let s = build_session(&[q], 1, &mut rng);
        assert_eq!(s[0].options[0].2, "True");
        assert_eq!(s[0].options[1].2, "FALSE");
        assert_eq!(s[0].correct_ids, strings(&["opt_1"]));
    }
}

#[test]
fn session_questions_are_distinct_and_shuffled() {
    let questions: Vec<QuizQuestion> =
        (0..10).map(|i| question(&format!("q{i}"), &["a"], &["b", "c"])).collect();
    let mut saw_reordering = false;
    for seed in 0u8..8 {
        let mut rng = SmallRng::from_seed([seed; 32]);
        let s = build_session(&questions, 10, &mut rng);
        let mut seen: Vec<String> = s.iter().map(|q| q.id.clone()).collect();
        let order = seen.clone();
        seen.sort();
        seen.dedup();
        assert_eq!(seen.len(), 10);
        let identity: Vec<String> = (0..10).map(|i| format!("q{i}")).collect();
        if order != identity {
            saw_reordering = true;
        }
        for sq in &s {
            assert_eq!(sq.options.len(), 3);
            assert_eq!(sq.correct_ids.len(), 1);
            let correct = sq.options.iter().find(|o| o.0 == sq.correct_ids[0]).unwrap();
            assert_eq!(correct.2, "a");
        }
    }
    assert!(saw_reordering);
}

#[test]
fn score_counts_and_penalty_share() {
    let c = strings(&["opt_0", "opt_1"]);
    let s = strings(&["opt_0", "opt_2", "opt_3"]);
    let (f, max, status) = score_question(&c, &s, 5, 4u32, true);
    assert_eq!((f.reward, f.reward_of, f.penalty, f.penalty_of), (1, 2, 2, 3));
    assert_eq!(max, 4);
    assert_eq!(status, QuestionStatus::PartiallyCorrect);
    let (f, _, status) = score_question(&Vec::new(), &s, 5, 4u32, true);
    assert_eq!((f.reward, f.reward_of, f.penalty, f.penalty_of), (0, 1, 0, 1));
    assert_eq!(status, QuestionStatus::Incorrect);
}

#[test]
fn selections_toggle_and_count() {
    let mut s = Selections::new();
    assert_eq!(s.answered_count(), 0);
    s.toggle("q1", "opt_0");
    s.toggle("q1", "opt_2");
    s.toggle("q2", "opt_1");
    assert_eq!(s.answered_count(), 2);
    assert!(s.is_selected("q1", "opt_2"));
    s.toggle("q1", "opt_2");
    assert!(!s.is_selected("q1", "opt_2"));
    assert_eq!(s.selected_for("q1"), strings(&["opt_0"]));
    s.toggle("q2", "opt_1");
    assert_eq!(s.answered_count(), 1);
    assert!(s.selected_for("q3").is_empty());
    s.set_selection("q3", strings(&["opt_4", "opt_5"]));
    assert_eq!(s.answered_count(), 2);
}

#[test]
fn results_list_chosen_missed_and_wrong_answers() {
    let q = question("q1", &["a", "b"], &["c"]);
    let arranged = vec![(true, "a".to_string()), (false, "c".to_string()), (true, "b".to_string())];
    let sq = session_question_from(&q, &arranged);
    let config = QuizConfig::default_with_marks(2.0);
    let r = question_result(&sq, &strings(&["opt_0", "opt_1"]), &config);
    let pair = |l: &str, t: &str| (l.to_string(), t.to_string());
    assert_eq!(r.correct_answers, vec![pair("A", "a"), pair("C", "b")]);
    assert_eq!(r.selected_answers, vec![pair("A", "a"), pair("B", "c")]);
    assert_eq!(r.missed_correct_answers, vec![pair("C", "b")]);
    assert_eq!(r.wrong_selected_answers, vec![pair("B", "c")]);
    assert_eq!(r.status, QuestionStatus::PartiallyCorrect);
    assert_eq!(r.max_score, 2.0);
    assert!(needs_review(&r));

    let exact = question_result(&sq, &strings(&["opt_2", "opt_0"]), &config);
    assert_eq!(exact.status, QuestionStatus::Correct);
    assert!(exact.missed_correct_answers.is_empty());
    assert!(exact.wrong_selected_answers.is_empty());
    assert!(!needs_review(&exact));

    let mut selections = Selections::new();
    selections.set_selection("q1", strings(&["opt_1"]));
    let all = build_results(&[sq.clone()], &selections, &config);
    assert_eq!(all.len(), 1);
    assert_eq!(all[0].status, QuestionStatus::Incorrect);
    assert_eq!(all[0].score.reward, 0);
}

#[test]
fn grade_and_status_words() {
    assert_eq!(grade_class(80), "grade-excellent");
    assert_eq!(grade_class(79), "grade-good");
    assert_eq!(grade_class(40), "grade-fair");
    assert_eq!(grade_class(-5), "grade-poor");
    assert_eq!(status_text(QuestionStatus::PartiallyCorrect), "Partial");
    assert_eq!(status_class(QuestionStatus::Unanswered), "status-unanswered");
}

#[test]
fn regex_filters_and_selection_filters() {
    let (none, ok) = parse_filter_pattern("");
    assert!(none.is_none() && ok);
    let (bad, ok) = parse_filter_pattern("Chapter (");
    assert!(bad.is_none() && !ok);
    let (re, ok) = parse_filter_pattern("Chapter [1-2]");
    assert!(re.is_some() && ok);

    let questions = vec![
        with_meta(question("q1", &["a"], &[]), Some("Chapter 1"), Some("Week 1")),
        with_meta(question("q2", &["a"], &[]), Some("Chapter 3"), Some("Week 2")),
        with_meta(question("q3", &["a"], &[]), None, Some("Week 1")),
    ];
    let topics = strings(&["Chapter 1", "Chapter 3"]);
    let locations = strings(&["Week 1", "Week 2"]);
    let topic = ValueFilter { regex: re, selected: Vec::new(), all_values: topics.clone() };
    let location = ValueFilter { regex: None, selected: locations.clone(), all_values: locations.clone() };
    let kept = filter_questions(&questions, &topic, &location);
    assert_eq!(kept.iter().map(|q| q.id.as_str()).collect::<Vec<_>>(), vec!["q1"]);
    assert_eq!(matched_values(&topics, &topic.regex), strings(&["Chapter 1"]));
    assert!(matched_values(&topics, &None).is_empty());

    let topic = ValueFilter { regex: None, selected: strings(&["Chapter 3"]), all_values: topics };
    let location = ValueFilter { regex: None, selected: strings(&["Week 1"]), all_values: locations };
    let kept = filter_questions(&questions, &topic, &location);
    assert_eq!(kept.iter().map(|q| q.id.as_str()).collect::<Vec<_>>(), vec!["q3"]);
}

#[test]
fn question_counts_from_input() {
    assert_eq!(parse_usize("42"), Some(42));
    assert_eq!(parse_usize("+7"), Some(7));
    assert_eq!(parse_usize("+"), None);
    assert_eq!(parse_usize("-1"), None);
    assert_eq!(parse_usize(""), None);
    assert_eq!(parse_usize("1x"), None);
    assert_eq!(parse_usize("99999999999999999999999"), None);
    assert_eq!(requested_question_count("5", 3), 3);
    assert_eq!(requested_question_count("0", 3), 1);
    assert_eq!(requested_question_count("abc", 3), 3);
    assert_eq!(requested_question_count("2", 0), 1);
    assert_eq!(effective_question_count(7, 0), 0);
    assert_eq!(effective_question_count(0, 4), 1);
    assert_eq!(effective_question_count(9, 4), 4);
    assert_eq!(chip_class(false, true), "filter-chip");
    assert_eq!(chip_class(true, false), "filter-chip regex-no-match");
}

#[test]
fn schema_field_rows() {
    let prop = |name: &str, has_ref: bool, t: Option<&str>, items: Option<&str>, d: Option<&str>| {
        SchemaProperty {
            name: name.to_string(),
            has_ref,
            declared_type: t.map(|s| s.to_string()),
            items_type: items.map(|s| s.to_string()),
            description: d.map(|s| s.to_string()),
        }
    };
    assert_eq!(prop_type_label(&prop("x", true, Some("string"), None, None)), "object");
    assert_eq!(prop_type_label(&prop("x", false, Some("array"), Some("string"), None)), "string[]");
    assert_eq!(prop_type_label(&prop("x", false, Some("array"), None, None)), "object[]");
    assert_eq!(prop_type_label(&prop("x", false, None, None, None)), "");
    let props = vec![
        prop("$schema", false, Some("string"), None, None),
        prop("correctAnswers", false, Some("array"), Some("string"), Some("Alias for correct_answers")),
        prop("id", false, Some("string"), None, Some("Unique id")),
        prop("metadata", true, None, None, None),
    ];
    let rows = fields_from_props(&props, &strings(&["id"]));
    assert_eq!(rows.len(), 2);
    assert_eq!(rows[0].name, "id");
    assert!(rows[0].required);
    assert_eq!(rows[0].description, "Unique id");
    assert_eq!(rows[1].name, "metadata");
    assert_eq!(rows[1].type_label, "object");
    assert!(!rows[1].required);
    assert_eq!(rows[1].description, "");
}

#[test]
fn schema_address() {
    assert_eq!(schema_url(None), "/assets/quiz-schema.json");
    assert_eq!(schema_url(Some("https://x.org/quiz//")), "https://x.org/quiz/assets/quiz-schema.json");
    assert_eq!(schema_url(Some("https://x.org")), "https://x.org/assets/quiz-schema.json");
}

#[test]
fn example_quiz_mentions_schema_placeholder() {
    assert!(EXAMPLE_QUIZ_JSON.contains("\"$schema\": \"SCHEMA_URL\""));
    assert!(EXAMPLE_QUIZ_JSON.contains("\"correct_answers\": [\"Right answer\"]"));
}
