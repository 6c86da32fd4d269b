//! Results of a submitted session: per question, its status, score and the
//! answers that were chosen, correct, missed or wrongly chosen.
use vstd::prelude::*;
use vstd::string::*;
use crate::idset::contains_text;
use crate::model::{texts, MetadataView, QuestionMetadata, QuizConfig, QuizFile};
use crate::scoring::{
    fraction_den, fraction_num, score_question, spec_fraction, spec_status, FractionView,
    QuestionStatus, ScoreFraction,
};
use crate::selections::{selection, Selections};
use crate::session::{
    is_session_for, law_valid_quiz_sessions_have_correct_options, option_texts, SessionQuestion,
    SessionView,
};
use crate::validate::{question_views, spec_validate_quiz};

verus! {

broadcast use vstd::seq_lib::group_seq_properties;

/// The result for one question of a session.
#[derive(Debug, Clone, PartialEq)]
pub struct QuestionResult<M> {
    pub id: String,
    pub text: String,
    pub status: QuestionStatus,
    /// The share of `max_score` earned.
    pub score: ScoreFraction,
    pub max_score: M,
    /// Label and text of each chosen option.
    pub selected_answers: Vec<(String, String)>,
    /// Label and text of each correct option.
    pub correct_answers: Vec<(String, String)>,
    /// Label and text of each correct option that was not chosen.
    pub missed_correct_answers: Vec<(String, String)>,
    /// Label and text of each chosen option that is not correct.
    pub wrong_selected_answers: Vec<(String, String)>,
    pub metadata: QuestionMetadata,
}

/// The texts of a list of (label, text) pairs.
pub open spec fn pair_texts(v: Seq<(String, String)>) -> Seq<(Seq<char>, Seq<char>)> {
    v.map_values(|p: (String, String)| (p.0@, p.1@))
}

/// The values held by [`QuestionResult`].
pub struct ResultView<M> {
    pub id: Seq<char>,
    pub text: Seq<char>,
    pub status: QuestionStatus,
    pub score: FractionView,
    pub max_score: M,
    pub selected_answers: Seq<(Seq<char>, Seq<char>)>,
    pub correct_answers: Seq<(Seq<char>, Seq<char>)>,
    pub missed_correct_answers: Seq<(Seq<char>, Seq<char>)>,
    pub wrong_selected_answers: Seq<(Seq<char>, Seq<char>)>,
    pub metadata: MetadataView,
}

impl<M> View for QuestionResult<M> {
    type V = ResultView<M>;

    open spec fn view(&self) -> ResultView<M> {
        ResultView {
            id: self.id@,
            text: self.text@,
            status: self.status,
            score: self.score@,
            max_score: self.max_score,
            selected_answers: pair_texts(self.selected_answers@),
            correct_answers: pair_texts(self.correct_answers@),
            missed_correct_answers: pair_texts(self.missed_correct_answers@),
            wrong_selected_answers: pair_texts(self.wrong_selected_answers@),
            metadata: self.metadata@,
        }
    }
}

/// Whether an option is kept by a filter on being correct and being chosen;
/// `None` places no demand.
pub open spec fn kept(
    want_correct: Option<bool>,
    want_selected: Option<bool>,
    is_correct: bool,
    is_selected: bool,
) -> bool {
    &&& (want_correct matches Some(b) ==> is_correct == b)
    &&& (want_selected matches Some(b) ==> is_selected == b)
}

/// Label and text of the options kept by the filter, in the order shown.
pub open spec fn picked(
    options: Seq<(Seq<char>, Seq<char>, Seq<char>)>,
    correct: Set<Seq<char>>,
    selected: Set<Seq<char>>,
    want_correct: Option<bool>,
    want_selected: Option<bool>,
) -> Seq<(Seq<char>, Seq<char>)>
    decreases options.len(),
{
    if options.len() == 0 {
        Seq::empty()
    } else {
        let prev = picked(options.drop_last(), correct, selected, want_correct, want_selected);
        let o = options.last();
        if kept(want_correct, want_selected, correct.contains(o.0), selected.contains(o.0)) {
            prev.push((o.1, o.2))
        } else {
            prev
        }
    }
}

/// The result for a session question with the given chosen option ids.
pub open spec fn spec_result<M>(
    sq: SessionView,
    selected: Set<Seq<char>>,
    marks_per_question: M,
    allow_negative_mark: bool,
) -> ResultView<M> {
    let correct = sq.correct_ids.to_set();
    ResultView {
        id: sq.id,
        text: sq.text,
        status: spec_status(correct, selected),
        score: spec_fraction(correct, selected, sq.options.len(), allow_negative_mark),
        max_score: marks_per_question,
        selected_answers: picked(sq.options, correct, selected, None, Some(true)),
        correct_answers: picked(sq.options, correct, selected, Some(true), None),
        missed_correct_answers: picked(sq.options, correct, selected, Some(true), Some(false)),
        wrong_selected_answers: picked(sq.options, correct, selected, Some(false), Some(true)),
        metadata: sq.metadata,
    }
}

fn pick_options(
    options: &Vec<(String, String, String)>,
    correct: &Vec<String>,
    selected: &Vec<String>,
    want_correct: Option<bool>,
    want_selected: Option<bool>,
) -> (r: Vec<(String, String)>)
    ensures
        pair_texts(r@) == picked(
            options@.map_values(|o: (String, String, String)| option_texts(o)),
            texts(correct@).to_set(),
            texts(selected@).to_set(),
            want_correct,
            want_selected,
        ),
{
    let ghost opts = options@.map_values(|o: (String, String, String)| option_texts(o));
    let ghost cs = texts(correct@).to_set();
    let ghost ss = texts(selected@).to_set();
    let mut r: Vec<(String, String)> = Vec::new();
    let mut i: usize = 0;
    while i < options.len()
        invariant
            i <= options@.len(),
            opts == options@.map_values(|o: (String, String, String)| option_texts(o)),
            cs == texts(correct@).to_set(),
            ss == texts(selected@).to_set(),
            pair_texts(r@) == picked(opts.take(i as int), cs, ss, want_correct, want_selected),
        decreases options@.len() - i,
    {
        let (id, label, text) = &options[i];
        let is_correct = contains_text(correct, id.as_str());
        let is_selected = contains_text(selected, id.as_str());
        assert(opts.take(i + 1).drop_last() =~= opts.take(i as int));
        assert(opts.take(i + 1).last() == option_texts(options@[i as int]));
        let keep = (match want_correct {
            Some(b) => is_correct == b,
            None => true,
        }) && (match want_selected {
            Some(b) => is_selected == b,
            None => true,
        });
        if keep {
            r.push((label.clone(), text.clone()));
            assert(pair_texts(r@) =~= picked(opts.take(i as int), cs, ss, want_correct, want_selected).push(
                (label@, text@),
            ));
        }
        i = i + 1;
    }
    assert(opts.take(options@.len() as int) =~= opts);
    r
}

/// The result for one session question, with `selected` the chosen option ids.
pub fn question_result<M: Copy>(
    sq: &SessionQuestion,
    selected: &Vec<String>,
    config: &QuizConfig<M>,
) -> (r: QuestionResult<M>)
    requires
        texts(sq.correct_ids@).no_duplicates(),
        texts(selected@).no_duplicates(),
    ensures
        r@ == spec_result(
            sq@,
            texts(selected@).to_set(),
            config.marks_per_question,
            config.allow_negative_mark,
        ),
{
    let (score, max, status) = score_question(
        &sq.correct_ids,
        selected,
        sq.options.len(),
        config.marks_per_question,
        config.allow_negative_mark,
    );
    let correct_answers = pick_options(&sq.options, &sq.correct_ids, selected, Some(true), None);
    let selected_answers = pick_options(&sq.options, &sq.correct_ids, selected, None, Some(true));
    let missed_correct_answers = pick_options(
        &sq.options,
        &sq.correct_ids,
        selected,
        Some(true),
        Some(false),
    );
    let wrong_selected_answers = pick_options(
        &sq.options,
        &sq.correct_ids,
        selected,
        Some(false),
        Some(true),
    );
    QuestionResult {
        id: sq.id.clone(),
        text: sq.text.clone(),
        status,
        score,
        max_score: max,
        selected_answers,
        correct_answers,
        missed_correct_answers,
        wrong_selected_answers,
        metadata: sq.metadata.copy(),
    }
}

/// The results of a session, one per question in order, each question scored
/// with the options chosen for its id (none when it has no entry). The totals
/// are sums over these results of `score` times `max_score`, and of `max_score`.
pub fn build_results<M: Copy>(
    session: &[SessionQuestion],
    selections: &Selections,
    config: &QuizConfig<M>,
) -> (results: Vec<QuestionResult<M>>)
    requires
        forall|i: int|
            0 <= i < session@.len() ==> texts((#[trigger] session@[i]).correct_ids@).no_duplicates(),
    ensures
        results@.len() == session@.len(),
        forall|i: int|
            0 <= i < session@.len() ==> (#[trigger] results@[i])@ == spec_result(
                session@[i]@,
                selection(selections@, session@[i]@.id),
                config.marks_per_question,
                config.allow_negative_mark,
            ),
{
    let mut results: Vec<QuestionResult<M>> = Vec::new();
    let mut i: usize = 0;
    while i < session.len()
        invariant
            i <= session@.len(),
            results@.len() == i,
            forall|j: int|
                0 <= j < session@.len() ==> texts(
                    (#[trigger] session@[j]).correct_ids@,
                ).no_duplicates(),
            forall|j: int|
                0 <= j < i ==> (#[trigger] results@[j])@ == spec_result(
                    session@[j]@,
                    selection(selections@, session@[j]@.id),
                    config.marks_per_question,
                    config.allow_negative_mark,
                ),
        decreases session@.len() - i,
    {
        let sq = &session[i];
        let selected = selections.selected_for(sq.id.as_str());
        let r = question_result(sq, &selected, config);
        results.push(r);
        i = i + 1;
    }
    results
}

/// Whether a result belongs in the study review: less than full marks were earned
/// (for a positive mark, a share below one), or a wrong option was chosen.
pub open spec fn spec_needs_review<M>(r: ResultView<M>) -> bool {
    fraction_num(r.score) < fraction_den(r.score) || r.wrong_selected_answers.len() > 0
}

/// Whether a result belongs in the study review.
pub fn needs_review<M>(r: &QuestionResult<M>) -> (b: bool)
    ensures
        b == spec_needs_review(r@),
{
    let a: u128 = r.score.reward as u128;
    let b: u128 = r.score.penalty_of as u128;
    let c: u128 = r.score.penalty as u128;
    let d: u128 = r.score.reward_of as u128;
    assert(a * b < 0x1_0000_0000_0000_0000_0000_0000_0000_0000) by (nonlinear_arith)
        requires
            a <= 0xffff_ffff_ffff_ffff,
            b <= 0xffff_ffff_ffff_ffff,
    ;
    assert(c * d < 0x1_0000_0000_0000_0000_0000_0000_0000_0000) by (nonlinear_arith)
        requires
            c <= 0xffff_ffff_ffff_ffff,
            d <= 0xffff_ffff_ffff_ffff,
    ;
    assert(d * b < 0x1_0000_0000_0000_0000_0000_0000_0000_0000) by (nonlinear_arith)
        requires
            d <= 0xffff_ffff_ffff_ffff,
            b <= 0xffff_ffff_ffff_ffff,
    ;
    let gained = a * b;
    let lost = c * d;
    let whole = d * b;
    let below_full = if gained <= lost {
        whole > 0 || gained < lost
    } else {
        gained - lost < whole
    };
    below_full || r.wrong_selected_answers.len() > 0
}


/// Two filters that keep the same options pick the same answers.
pub proof fn lemma_picked_same(
    options: Seq<(Seq<char>, Seq<char>, Seq<char>)>,
    correct: Set<Seq<char>>,
    selected: Set<Seq<char>>,
    wc1: Option<bool>,
    ws1: Option<bool>,
    wc2: Option<bool>,
    ws2: Option<bool>,
)
    requires
        forall|i: int|
            0 <= i < options.len() ==> kept(
                wc1,
                ws1,
                correct.contains((#[trigger] options[i]).0),
                selected.contains(options[i].0),
            ) == kept(wc2, ws2, correct.contains(options[i].0), selected.contains(options[i].0)),
    ensures
        picked(options, correct, selected, wc1, ws1) == picked(options, correct, selected, wc2, ws2),
    decreases options.len(),
{
    if options.len() > 0 {
        let o = options.drop_last();
        assert forall|i: int| 0 <= i < o.len() implies kept(
            wc1,
            ws1,
            correct.contains((#[trigger] o[i]).0),
            selected.contains(o[i].0),
        ) == kept(wc2, ws2, correct.contains(o[i].0), selected.contains(o[i].0)) by {
            assert(o[i] == options[i]);
        }
        lemma_picked_same(o, correct, selected, wc1, ws1, wc2, ws2);
        assert(options.last() == options[options.len() - 1]);
    }
}

/// A filter that keeps no option picks nothing.
pub proof fn lemma_picked_none(
    options: Seq<(Seq<char>, Seq<char>, Seq<char>)>,
    correct: Set<Seq<char>>,
    selected: Set<Seq<char>>,
    wc: Option<bool>,
    ws: Option<bool>,
)
    requires
        forall|i: int|
            0 <= i < options.len() ==> !kept(
                wc,
                ws,
                correct.contains((#[trigger] options[i]).0),
                selected.contains(options[i].0),
            ),
    ensures
        picked(options, correct, selected, wc, ws) == Seq::<(Seq<char>, Seq<char>)>::empty(),
    decreases options.len(),
{
    if options.len() > 0 {
        let o = options.drop_last();
        assert forall|i: int| 0 <= i < o.len() implies !kept(
            wc,
            ws,
            correct.contains((#[trigger] o[i]).0),
            selected.contains(o[i].0),
        ) by {
            assert(o[i] == options[i]);
        }
        lemma_picked_none(o, correct, selected, wc, ws);
        assert(options.last() == options[options.len() - 1]);
    }
}

/// Choosing exactly the correct options of a question that has some gives the status
/// Correct and full marks, with nothing missed and nothing wrongly chosen; the chosen
/// answers are then the correct answers.
pub proof fn law_exact_choice_is_correct<M>(sq: SessionView, marks: M, allow_negative_mark: bool)
    requires
        sq.correct_ids.len() > 0,
    ensures
        ({
            let r = spec_result(sq, sq.correct_ids.to_set(), marks, allow_negative_mark);
            &&& r.status == QuestionStatus::Correct
            &&& fraction_num(r.score) == fraction_den(r.score)
            &&& r.missed_correct_answers.len() == 0
            &&& r.wrong_selected_answers.len() == 0
            &&& r.selected_answers == r.correct_answers
        }),
{
    broadcast use vstd::seq_lib::seq_to_set_is_finite;

    let c = sq.correct_ids.to_set();
    assert(c.contains(sq.correct_ids[0]));
    assert(c.len() > 0) by {
        if c.len() == 0 {
            assert(c =~= Set::<Seq<char>>::empty());
        }
    }
    assert(c.intersect(c) =~= c);
    assert(c.difference(c) =~= Set::<Seq<char>>::empty());
    crate::scoring::law_full_marks_iff_correct(c, c, sq.options.len(), allow_negative_mark);
    lemma_picked_none(sq.options, c, c, Some(true), Some(false));
    lemma_picked_none(sq.options, c, c, Some(false), Some(true));
    lemma_picked_same(sq.options, c, c, None, Some(true), Some(true), None);
}

/// Choosing nothing leaves a question unanswered: it earns nothing, no answer is
/// chosen or wrong, and every correct answer is missed.
pub proof fn law_no_choice_is_unanswered<M>(sq: SessionView, marks: M, allow_negative_mark: bool)
    ensures
        ({
            let r = spec_result(sq, Set::empty(), marks, allow_negative_mark);
            &&& r.status == QuestionStatus::Unanswered
            &&& r.score == crate::scoring::zero_fraction()
            &&& r.selected_answers.len() == 0
            &&& r.wrong_selected_answers.len() == 0
            &&& r.missed_correct_answers == r.correct_answers
        }),
{
    let c = sq.correct_ids.to_set();
    let e = Set::<Seq<char>>::empty();
    lemma_picked_none(sq.options, c, e, None, Some(true));
    lemma_picked_none(sq.options, c, e, Some(false), Some(true));
    lemma_picked_same(sq.options, c, e, Some(true), Some(false), Some(true), None);
}

/// Without negative marking no result is below zero, so neither is the total.
pub proof fn law_results_not_negative_without_negative_marking<M>(
    sq: SessionView,
    selected: Set<Seq<char>>,
    marks: M,
)
    ensures
        fraction_num(spec_result(sq, selected, marks, false).score) >= 0,
{
}

/// The style class of a final percentage.
pub open spec fn spec_grade_class(pct: int) -> Seq<char> {
    if pct >= 80 {
        "grade-excellent"@
    } else if pct >= 60 {
        "grade-good"@
    } else if pct >= 40 {
        "grade-fair"@
    } else {
        "grade-poor"@
    }
}

/// The style class of a final percentage: excellent from 80, good from 60,
/// fair from 40, poor below.
pub fn grade_class(pct: i32) -> (s: &'static str)
    ensures
        s@ == spec_grade_class(pct as int),
{
    if pct >= 80 {
        "grade-excellent"
    } else if pct >= 60 {
        "grade-good"
    } else if pct >= 40 {
        "grade-fair"
    } else {
        "grade-poor"
    }
}

/// The style class of a status.
pub fn status_class(status: QuestionStatus) -> (s: &'static str)
    ensures
        s@ == match status {
            QuestionStatus::Correct => "status-correct"@,
            QuestionStatus::PartiallyCorrect => "status-partial"@,
            QuestionStatus::Incorrect => "status-incorrect"@,
            QuestionStatus::Unanswered => "status-unanswered"@,
        },
{
    match status {
        QuestionStatus::Correct => "status-correct",
        QuestionStatus::PartiallyCorrect => "status-partial",
        QuestionStatus::Incorrect => "status-incorrect",
        QuestionStatus::Unanswered => "status-unanswered",
    }
}

/// The word shown for a status.
pub fn status_text(status: QuestionStatus) -> (s: &'static str)
    ensures
        s@ == match status {
            QuestionStatus::Correct => "Correct"@,
            QuestionStatus::PartiallyCorrect => "Partial"@,
            QuestionStatus::Incorrect => "Incorrect"@,
            QuestionStatus::Unanswered => "Unanswered"@,
        },
{
    match status {
        QuestionStatus::Correct => "Correct",
        QuestionStatus::PartiallyCorrect => "Partial",
        QuestionStatus::Incorrect => "Incorrect",
        QuestionStatus::Unanswered => "Unanswered",
    }
}


/// In a session built from a quiz that passes validation, answering a question
/// with exactly its correct options earns full marks with the status Correct.
pub proof fn law_correct_answers_earn_full_marks<M>(
    quiz: QuizFile<M>,
    marks_positive: bool,
    s: SessionView,
    i: int,
    allow_negative_mark: bool,
)
    requires
        spec_validate_quiz(marks_positive, question_views(quiz.questions@)) is Ok,
        0 <= i < quiz.questions@.len(),
        is_session_for(s, quiz.questions@[i]@),
    ensures
        ({
            let r = spec_result(
                s,
                s.correct_ids.to_set(),
                quiz.config.marks_per_question,
                allow_negative_mark,
            );
            &&& r.status == QuestionStatus::Correct
            &&& fraction_num(r.score) == fraction_den(r.score)
        }),
{
    law_valid_quiz_sessions_have_correct_options(quiz, marks_positive, s, i);
    law_exact_choice_is_correct(s, quiz.config.marks_per_question, allow_negative_mark);
}


/// A question belongs in the study review exactly when it was not answered correctly:
/// a result with less than full marks (a partial answer among them) is reviewed, and one
/// answered correctly, which earns full marks with no wrong option chosen, is not.
pub proof fn law_review_lists_questions_not_answered_correctly<M>(
    sq: SessionView,
    selected: Set<Seq<char>>,
    marks: M,
    allow_negative_mark: bool,
)
    requires
        selected.finite(),
    ensures
        ({
            let r = spec_result(sq, selected, marks, allow_negative_mark);
            &&& spec_needs_review(r) <==> r.status != QuestionStatus::Correct
            &&& fraction_num(r.score) < fraction_den(r.score) ==> spec_needs_review(r)
            &&& r.status == QuestionStatus::Correct ==> fraction_num(r.score) == fraction_den(r.score)
                && r.wrong_selected_answers.len() == 0
        }),
{
    broadcast use vstd::seq_lib::seq_to_set_is_finite;

    let c = sq.correct_ids.to_set();
    let n = sq.options.len();
    crate::scoring::law_full_marks_iff_correct(c, selected, n, allow_negative_mark);
    crate::scoring::law_score_at_most_full_marks(c, selected, n, allow_negative_mark);
    if spec_status(c, selected) == QuestionStatus::Correct {
        let d = selected.difference(c);
        assert(d.len() == 0);
        d.lemma_len0_is_empty();
        assert forall|i: int| 0 <= i < sq.options.len() implies !kept(
            Some(false),
            Some(true),
            c.contains((#[trigger] sq.options[i]).0),
            selected.contains(sq.options[i].0),
        ) by {
            if !c.contains(sq.options[i].0) && selected.contains(sq.options[i].0) {
                assert(d.contains(sq.options[i].0));
            }
        }
        lemma_picked_none(sq.options, c, selected, Some(false), Some(true));
    }
}

} // verus!
