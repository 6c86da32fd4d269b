//! The quiz file, its configuration, questions and study metadata.
//!
//! The mark given for a question is a number chosen by the quiz author; the library
//! never computes with it, so the types that carry it are generic over its type `M`.
use vstd::prelude::*;
use vstd::string::*;
use crate::text::{is_blank, is_blank_str};

verus! {

/// The text of an optional string.
pub open spec fn opt_text(o: Option<String>) -> Option<Seq<char>> {
    match o {
        Some(s) => Some(s@),
        None => None,
    }
}

/// The texts of a list of strings.
pub open spec fn texts(v: Seq<String>) -> Seq<Seq<char>> {
    v.map_values(|s: String| s@)
}

/// Whether an optional metadata value is present and not blank.
pub open spec fn has_value(o: Option<Seq<char>>) -> bool {
    match o {
        Some(s) => !is_blank(s),
        None => false,
    }
}

/// Study information attached to a question.
#[derive(Debug, Clone, PartialEq, Default)]
pub struct QuestionMetadata {
    pub study_location: Option<String>,
    pub timestamp: Option<String>,
    pub topic: Option<String>,
    pub answer: Option<String>,
    pub explanation: Option<String>,
    pub notes: Option<String>,
}

/// The texts held by [`QuestionMetadata`].
pub struct MetadataView {
    pub study_location: Option<Seq<char>>,
    pub timestamp: Option<Seq<char>>,
    pub topic: Option<Seq<char>>,
    pub answer: Option<Seq<char>>,
    pub explanation: Option<Seq<char>>,
    pub notes: Option<Seq<char>>,
}

impl View for QuestionMetadata {
    type V = MetadataView;

    open spec fn view(&self) -> MetadataView {
        MetadataView {
            study_location: opt_text(self.study_location),
            timestamp: opt_text(self.timestamp),
            topic: opt_text(self.topic),
            answer: opt_text(self.answer),
            explanation: opt_text(self.explanation),
            notes: opt_text(self.notes),
        }
    }
}

/// Whether any metadata field holds a non-blank value.
pub open spec fn spec_has_content(m: MetadataView) -> bool {
    ||| has_value(m.study_location)
    ||| has_value(m.timestamp)
    ||| has_value(m.topic)
    ||| has_value(m.answer)
    ||| has_value(m.explanation)
    ||| has_value(m.notes)
}

/// One question of a quiz file.
#[derive(Debug, Clone, PartialEq)]
pub struct QuizQuestion {
    pub id: String,
    pub question: String,
    pub correct_answers: Vec<String>,
    pub incorrect_answers: Vec<String>,
    pub explanation: Option<String>,
    pub metadata: QuestionMetadata,
}

/// The texts held by [`QuizQuestion`].
pub struct QuestionView {
    pub id: Seq<char>,
    pub question: Seq<char>,
    pub correct_answers: Seq<Seq<char>>,
    pub incorrect_answers: Seq<Seq<char>>,
    pub explanation: Option<Seq<char>>,
    pub metadata: MetadataView,
}

impl View for QuizQuestion {
    type V = QuestionView;

    open spec fn view(&self) -> QuestionView {
        QuestionView {
            id: self.id@,
            question: self.question@,
            correct_answers: texts(self.correct_answers@),
            incorrect_answers: texts(self.incorrect_answers@),
            explanation: opt_text(self.explanation),
            metadata: self.metadata@,
        }
    }
}

/// The metadata shown for a question: its own metadata, with the question's
/// explanation filling in when the metadata has none.
pub open spec fn spec_merged_metadata(q: QuestionView) -> MetadataView {
    MetadataView {
        explanation: if q.metadata.explanation is None {
            q.explanation
        } else {
            q.metadata.explanation
        },
        ..q.metadata
    }
}

/// Scoring settings and descriptive fields of a quiz.
#[derive(Debug, Clone, PartialEq)]
pub struct QuizConfig<M> {
    pub marks_per_question: M,
    pub allow_negative_mark: bool,
    pub title: Option<String>,
    pub description: Option<String>,
    pub default_question_count: Option<usize>,
}

/// The values held by [`QuizConfig`].
pub struct ConfigView<M> {
    pub marks_per_question: M,
    pub allow_negative_mark: bool,
    pub title: Option<Seq<char>>,
    pub description: Option<Seq<char>>,
    pub default_question_count: Option<usize>,
}

impl<M> View for QuizConfig<M> {
    type V = ConfigView<M>;

    open spec fn view(&self) -> ConfigView<M> {
        ConfigView {
            marks_per_question: self.marks_per_question,
            allow_negative_mark: self.allow_negative_mark,
            title: opt_text(self.title),
            description: opt_text(self.description),
            default_question_count: self.default_question_count,
        }
    }
}

/// A quiz file: title, configuration, file-level overrides and questions.
#[derive(Debug, Clone, PartialEq)]
pub struct QuizFile<M> {
    pub title: String,
    pub config: QuizConfig<M>,
    pub marks_per_question: Option<M>,
    pub negative_marks: Option<bool>,
    pub questions: Vec<QuizQuestion>,
}

/// The configuration in force: the file-level mark and negative-marking
/// settings, where given, override those of the `config` section.
pub open spec fn spec_effective_config<M>(f: QuizFile<M>) -> ConfigView<M> {
    ConfigView {
        marks_per_question: match f.marks_per_question {
            Some(m) => m,
            None => f.config.marks_per_question,
        },
        allow_negative_mark: match f.negative_marks {
            Some(b) => b,
            None => f.config.allow_negative_mark,
        },
        ..f.config@
    }
}

/// The title shown for a quiz: the file title when it is not blank, else the
/// title of the `config` section, else "Practice Quiz".
pub open spec fn spec_display_title<M>(f: QuizFile<M>) -> Seq<char> {
    if !is_blank(f.title@) {
        f.title@
    } else {
        match f.config.title {
            Some(t) => t@,
            None => "Practice Quiz"@,
        }
    }
}

/// A copy of an optional string.
pub fn copy_opt_string(o: &Option<String>) -> (r: Option<String>)
    ensures
        opt_text(r) == opt_text(*o),
{
    match o {
        Some(s) => Some(s.clone()),
        None => None,
    }
}

/// A copy of a list of strings.
pub fn copy_strings(v: &Vec<String>) -> (r: Vec<String>)
    ensures
        texts(r@) == texts(v@),
        r@.len() == v@.len(),
{
    let mut r: Vec<String> = Vec::new();
    let mut i: usize = 0;
    while i < v.len()
        invariant
            i <= v@.len(),
            r@.len() == i,
            forall|j: int| 0 <= j < i ==> (#[trigger] r@[j])@ == v@[j]@,
        decreases v@.len() - i,
    {
        r.push(v[i].clone());
        i = i + 1;
    }
    assert(texts(r@) =~= texts(v@));
    r
}

impl QuestionMetadata {
    /// A copy of the metadata.
    pub fn copy(&self) -> (r: QuestionMetadata)
        ensures
            r@ == self@,
    {
        QuestionMetadata {
            study_location: copy_opt_string(&self.study_location),
            timestamp: copy_opt_string(&self.timestamp),
            topic: copy_opt_string(&self.topic),
            answer: copy_opt_string(&self.answer),
            explanation: copy_opt_string(&self.explanation),
            notes: copy_opt_string(&self.notes),
        }
    }

    /// Whether any field holds a non-blank value.
    pub fn has_content(&self) -> (b: bool)
        ensures
            b == spec_has_content(self@),
    {
        has_metadata_value(&self.study_location) || has_metadata_value(&self.timestamp)
            || has_metadata_value(&self.topic) || has_metadata_value(&self.answer)
            || has_metadata_value(&self.explanation) || has_metadata_value(&self.notes)
    }
}

/// Whether an optional value is present and not blank.
pub fn has_metadata_value(value: &Option<String>) -> (b: bool)
    ensures
        b == has_value(opt_text(*value)),
{
    match value {
        Some(v) => !is_blank_str(v.as_str()),
        None => false,
    }
}

/// The value itself when it is present and not blank.
pub fn metadata_value(value: &Option<String>) -> (r: Option<&str>)
    ensures
        r is Some <==> has_value(opt_text(*value)),
        r matches Some(s) ==> opt_text(*value) == Some(s@),
{
    match value {
        Some(v) => {
            if is_blank_str(v.as_str()) {
                None
            } else {
                Some(v.as_str())
            }
        },
        None => None,
    }
}

impl QuizQuestion {
    /// A copy of the question.
    pub fn copy(&self) -> (r: QuizQuestion)
        ensures
            r@ == self@,
    {
        QuizQuestion {
            id: self.id.clone(),
            question: self.question.clone(),
            correct_answers: copy_strings(&self.correct_answers),
            incorrect_answers: copy_strings(&self.incorrect_answers),
            explanation: copy_opt_string(&self.explanation),
            metadata: self.metadata.copy(),
        }
    }

    /// The metadata shown for the question: the explanation of the question
    /// fills in when the metadata has none.
    pub fn merged_metadata(&self) -> (m: QuestionMetadata)
        ensures
            m@ == spec_merged_metadata(self@),
    {
        let mut metadata = self.metadata.copy();
        if metadata.explanation.is_none() {
            metadata.explanation = copy_opt_string(&self.explanation);
        }
        metadata
    }
}

impl<M: Copy> QuizConfig<M> {
    /// The default configuration with the given mark per question:
    /// no negative marking, no title, description or default question count.
    pub fn default_with_marks(marks_per_question: M) -> (c: QuizConfig<M>)
        ensures
            c.marks_per_question == marks_per_question,
            !c.allow_negative_mark,
            c.title is None,
            c.description is None,
            c.default_question_count is None,
    {
        QuizConfig {
            marks_per_question,
            allow_negative_mark: false,
            title: None,
            description: None,
            default_question_count: None,
        }
    }

    /// A copy of the configuration.
    pub fn copy(&self) -> (c: QuizConfig<M>)
        ensures
            c@ == self@,
    {
        QuizConfig {
            marks_per_question: self.marks_per_question,
            allow_negative_mark: self.allow_negative_mark,
            title: copy_opt_string(&self.title),
            description: copy_opt_string(&self.description),
            default_question_count: self.default_question_count,
        }
    }
}

impl<M: Copy> QuizFile<M> {
    /// The configuration in force, with the file-level overrides applied.
    pub fn effective_config(&self) -> (c: QuizConfig<M>)
        ensures
            c@ == spec_effective_config(*self),
    {
        let mut config = self.config.copy();
        if let Some(marks) = self.marks_per_question {
            config.marks_per_question = marks;
        }
        if let Some(negative_marks) = self.negative_marks {
            config.allow_negative_mark = negative_marks;
        }
        config
    }

    /// The title to show for the quiz.
    pub fn display_title(&self) -> (t: String)
        ensures
            t@ == spec_display_title(*self),
    {
        if !is_blank_str(self.title.as_str()) {
            self.title.clone()
        } else if let Some(title) = &self.config.title {
            title.clone()
        } else {
            String::from_str("Practice Quiz")
        }
    }
}


/// Canonical example of a quiz file, shown on the upload screen; `SCHEMA_URL`
/// stands for the address of the quiz schema.
pub const EXAMPLE_QUIZ_JSON: &'static str = r#"{
  "$schema": "SCHEMA_URL",
  "title": "My Quiz",
  "config": {
    "marks_per_question": 1.0,
    "allow_negative_mark": false,
    "default_question_count": 20
  },
  "questions": [
    {
      "id": "q1",
      "question": "Question text?",
      "correct_answers": ["Right answer"],
      "incorrect_answers": ["Wrong A", "Wrong B", "Wrong C"],
      "metadata": {
        "topic": "Chapter 1",
        "study_location": "Week 1",
        "timestamp": "slide 4",
        "explanation": "Because..."
      }
    }
  ]
}"#;


/// The screens of the application, in the order they are visited.
#[derive(Debug, Clone, Copy, PartialEq, Eq, Structural)]
pub enum AppPhase {
    Upload,
    Configuring,
    InProgress,
    Submitted,
}


/// In the configuration in force, a mark or a negative-marking setting given at file
/// level wins over the one in the `config` section; where none is given at file level,
/// the `config` section's value stands. The other settings are those of the `config` section.
pub proof fn law_file_settings_override_config<M>(f: QuizFile<M>)
    ensures
        forall|m: M| f.marks_per_question == Some(m) ==> spec_effective_config(f).marks_per_question == m,
        f.marks_per_question is None ==> spec_effective_config(f).marks_per_question
            == f.config.marks_per_question,
        forall|b: bool| f.negative_marks == Some(b) ==> spec_effective_config(f).allow_negative_mark == b,
        f.negative_marks is None ==> spec_effective_config(f).allow_negative_mark
            == f.config.allow_negative_mark,
        spec_effective_config(f).title == f.config@.title,
        spec_effective_config(f).description == f.config@.description,
        spec_effective_config(f).default_question_count == f.config.default_question_count,
{
}

} // verus!
