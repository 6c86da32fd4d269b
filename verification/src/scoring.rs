//! Scoring of one question: which of the correct options were chosen, which
//! wrong ones, the resulting status and the fraction of the marks earned.
use vstd::prelude::*;
use crate::idset::{count_members, lemma_counts_are_set_sizes};
use crate::model::texts;

verus! {

broadcast use vstd::seq_lib::group_seq_properties, vstd::set_lib::group_set_properties;

/// How a question was answered.
#[derive(Debug, Clone, Copy, PartialEq, Eq, Structural)]
pub enum QuestionStatus {
    Correct,
    PartiallyCorrect,
    Incorrect,
    Unanswered,
}

/// The share of a question's marks that was earned:
/// `reward / reward_of - penalty / penalty_of`, both denominators at least one.
/// The score is this fraction times the marks of the question.
#[derive(Debug, Clone, Copy, PartialEq, Eq, Structural)]
pub struct ScoreFraction {
    pub reward: usize,
    pub reward_of: usize,
    pub penalty: usize,
    pub penalty_of: usize,
}

/// The numbers of a [`ScoreFraction`].
pub struct FractionView {
    pub reward: nat,
    pub reward_of: nat,
    pub penalty: nat,
    pub penalty_of: nat,
}

impl View for ScoreFraction {
    type V = FractionView;

    open spec fn view(&self) -> FractionView {
        FractionView {
            reward: self.reward as nat,
            reward_of: self.reward_of as nat,
            penalty: self.penalty as nat,
            penalty_of: self.penalty_of as nat,
        }
    }
}

/// The fraction that earns nothing.
pub open spec fn zero_fraction() -> FractionView {
    FractionView { reward: 0, reward_of: 1, penalty: 0, penalty_of: 1 }
}

/// Numerator of the fraction over the common denominator `reward_of * penalty_of`.
pub open spec fn fraction_num(f: FractionView) -> int {
    f.reward * f.penalty_of - f.penalty * f.reward_of
}

/// The common denominator of the fraction.
pub open spec fn fraction_den(f: FractionView) -> int {
    (f.reward_of * f.penalty_of) as int
}

/// Number of correct options.
pub open spec fn n_correct(correct: Set<Seq<char>>) -> nat {
    correct.len()
}

/// Number of selected options that are correct.
pub open spec fn n_correct_selected(correct: Set<Seq<char>>, selected: Set<Seq<char>>) -> nat {
    selected.intersect(correct).len()
}

/// Number of selected options that are not correct.
pub open spec fn n_wrong_selected(correct: Set<Seq<char>>, selected: Set<Seq<char>>) -> nat {
    selected.difference(correct).len()
}

/// The number of incorrect options that the penalty is shared among: the options
/// that are not correct, and at least one.
pub open spec fn n_incorrect_available(correct: Set<Seq<char>>, total_options: nat) -> nat {
    if total_options > n_correct(correct) {
        (total_options - n_correct(correct)) as nat
    } else {
        1
    }
}

/// The status of a question with the given correct and selected option ids.
pub open spec fn spec_status(correct: Set<Seq<char>>, selected: Set<Seq<char>>) -> QuestionStatus {
    let nc = n_correct(correct);
    let cs = n_correct_selected(correct, selected);
    let ws = n_wrong_selected(correct, selected);
    if selected.len() == 0 {
        QuestionStatus::Unanswered
    } else if nc == 0 {
        QuestionStatus::Incorrect
    } else if cs == nc && ws == 0 {
        QuestionStatus::Correct
    } else if cs > 0 {
        QuestionStatus::PartiallyCorrect
    } else {
        QuestionStatus::Incorrect
    }
}

/// The fraction of the marks earned: the share of correct options chosen, less the
/// share of incorrect options chosen; floored at zero unless negative marking is on.
/// An unanswered question, or one without correct options, earns nothing.
pub open spec fn spec_fraction(
    correct: Set<Seq<char>>,
    selected: Set<Seq<char>>,
    total_options: nat,
    allow_negative_mark: bool,
) -> FractionView {
    let nc = n_correct(correct);
    let cs = n_correct_selected(correct, selected);
    let ws = n_wrong_selected(correct, selected);
    let ia = n_incorrect_available(correct, total_options);
    if selected.len() == 0 || nc == 0 {
        zero_fraction()
    } else if !allow_negative_mark && cs * ia < ws * nc {
        zero_fraction()
    } else {
        FractionView { reward: cs, reward_of: nc, penalty: ws, penalty_of: ia }
    }
}

/// Scores one question. `correct_ids` and `selected_ids` are sets of option ids
/// (lists without repeats); `total_options` is the number of options shown.
/// Returns the fraction of the marks earned, the marks of the question, and the status.
pub fn score_question<M: Copy>(
    correct_ids: &Vec<String>,
    selected_ids: &Vec<String>,
    total_options: usize,
    marks_per_question: M,
    allow_negative_mark: bool,
) -> (r: (ScoreFraction, M, QuestionStatus))
    requires
        texts(correct_ids@).no_duplicates(),
        texts(selected_ids@).no_duplicates(),
    ensures
        r.0@ == spec_fraction(
            texts(correct_ids@).to_set(),
            texts(selected_ids@).to_set(),
            total_options as nat,
            allow_negative_mark,
        ),
        r.1 == marks_per_question,
        r.2 == spec_status(texts(correct_ids@).to_set(), texts(selected_ids@).to_set()),
{
    let ghost correct = texts(correct_ids@);
    let ghost selected = texts(selected_ids@);
    proof {
        correct.unique_seq_to_set();
        selected.unique_seq_to_set();
        lemma_counts_are_set_sizes(selected, correct);
        assert(correct.len() == correct_ids@.len());
        assert(selected.len() == selected_ids@.len());
    }
    let n_correct = correct_ids.len();
    let zero = ScoreFraction { reward: 0, reward_of: 1, penalty: 0, penalty_of: 1 };
    if selected_ids.len() == 0 {
        return (zero, marks_per_question, QuestionStatus::Unanswered);
    }
    if n_correct == 0 {
        return (zero, marks_per_question, QuestionStatus::Incorrect);
    }
    let (correct_selected, wrong_selected) = count_members(selected_ids, correct_ids);
    let incorrect_available: usize = if total_options > n_correct {
        total_options - n_correct
    } else {
        1
    };
    let a: u128 = correct_selected as u128;
    let b: u128 = incorrect_available as u128;
    let c: u128 = wrong_selected as u128;
    let d: u128 = n_correct as u128;
    assert(a * b < 0x1_0000_0000_0000_0000_0000_0000_0000_0000) by (nonlinear_arith)
        requires
            a <= 0xffff_ffff_ffff_ffff,
            b <= 0xffff_ffff_ffff_ffff,
    ;
    assert(c * d < 0x1_0000_0000_0000_0000_0000_0000_0000_0000) by (nonlinear_arith)
        requires
            c <= 0xffff_ffff_ffff_ffff,
            d <= 0xffff_ffff_ffff_ffff,
    ;
    let lhs: u128 = a * b;
    let rhs: u128 = c * d;
    let fraction = if !allow_negative_mark && lhs < rhs {
        zero
    } else {
        ScoreFraction {
            reward: correct_selected,
            reward_of: n_correct,
            penalty: wrong_selected,
            penalty_of: incorrect_available,
        }
    };
    let status = if correct_selected == n_correct && wrong_selected == 0 {
        QuestionStatus::Correct
    } else if correct_selected > 0 {
        QuestionStatus::PartiallyCorrect
    } else {
        QuestionStatus::Incorrect
    };
    (fraction, marks_per_question, status)
}

/// The fraction's denominator is positive.
pub proof fn law_fraction_denominator_positive(
    correct: Set<Seq<char>>,
    selected: Set<Seq<char>>,
    total_options: nat,
    allow_negative_mark: bool,
)
    ensures
        fraction_den(spec_fraction(correct, selected, total_options, allow_negative_mark)) > 0,
{
    let f = spec_fraction(correct, selected, total_options, allow_negative_mark);
    assert(f.reward_of >= 1 && f.penalty_of >= 1);
    assert(f.reward_of * f.penalty_of > 0) by (nonlinear_arith)
        requires
            f.reward_of >= 1,
            f.penalty_of >= 1,
    ;
}

/// Without negative marking no question scores below zero.
pub proof fn law_no_negative_score_without_negative_marking(
    correct: Set<Seq<char>>,
    selected: Set<Seq<char>>,
    total_options: nat,
)
    ensures
        fraction_num(spec_fraction(correct, selected, total_options, false)) >= 0,
{
}

/// No question scores more than its marks.
pub proof fn law_score_at_most_full_marks(
    correct: Set<Seq<char>>,
    selected: Set<Seq<char>>,
    total_options: nat,
    allow_negative_mark: bool,
)
    requires
        correct.finite(),
        selected.finite(),
    ensures
        fraction_num(spec_fraction(correct, selected, total_options, allow_negative_mark))
            <= fraction_den(spec_fraction(correct, selected, total_options, allow_negative_mark)),
{
    let f = spec_fraction(correct, selected, total_options, allow_negative_mark);
    vstd::set_lib::lemma_len_intersect(correct, selected);
    assert(selected.intersect(correct) =~= correct.intersect(selected));
    assert(f.reward <= f.reward_of);
    assert(f.reward * f.penalty_of - f.penalty * f.reward_of <= f.reward_of * f.penalty_of)
        by (nonlinear_arith)
        requires
            f.reward <= f.reward_of,
    ;
}

/// A question earns its full marks exactly when it is answered correctly.
pub proof fn law_full_marks_iff_correct(
    correct: Set<Seq<char>>,
    selected: Set<Seq<char>>,
    total_options: nat,
    allow_negative_mark: bool,
)
    requires
        correct.finite(),
        selected.finite(),
    ensures
        (fraction_num(spec_fraction(correct, selected, total_options, allow_negative_mark))
            == fraction_den(spec_fraction(correct, selected, total_options, allow_negative_mark)))
            <==> spec_status(correct, selected) == QuestionStatus::Correct,
{
    let f = spec_fraction(correct, selected, total_options, allow_negative_mark);
    let nc = n_correct(correct);
    let cs = n_correct_selected(correct, selected);
    let ws = n_wrong_selected(correct, selected);
    let ia = n_incorrect_available(correct, total_options);
    vstd::set_lib::lemma_len_intersect(correct, selected);
    assert(selected.intersect(correct) =~= correct.intersect(selected));
    assert(cs <= nc);
    if selected.len() == 0 || nc == 0 {
        assert(f == zero_fraction());
        assert(fraction_num(f) == 0);
        assert(fraction_den(f) == 1);
    } else if !allow_negative_mark && cs * ia < ws * nc {
        assert(fraction_num(f) == 0);
        assert(fraction_den(f) == 1);
        assert(spec_status(correct, selected) != QuestionStatus::Correct) by {
            if cs == nc && ws == 0 {
                assert(ws * nc == 0) by (nonlinear_arith)
                    requires
                        ws == 0,
                ;
            }
        }
    } else {
        if cs == nc && ws == 0 {
            assert(cs * ia - ws * nc == nc * ia) by (nonlinear_arith)
                requires
                    cs == nc,
                    ws == 0,
            ;
        }
        if cs * ia - ws * nc == nc * ia {
            assert(cs == nc && ws == 0) by (nonlinear_arith)
                requires
                    cs * ia - ws * nc == nc * ia,
                    cs <= nc,
                    ia >= 1,
                    nc >= 1,
                    ws >= 0,
            ;
        }
    }
}

/// An unanswered question earns nothing.
pub proof fn law_unanswered_earns_nothing(
    correct: Set<Seq<char>>,
    total_options: nat,
    allow_negative_mark: bool,
)
    ensures
        spec_fraction(correct, Set::empty(), total_options, allow_negative_mark) == zero_fraction(),
        spec_status(correct, Set::empty()) == QuestionStatus::Unanswered,
{
}


/// Unless the question is unanswered or has no correct options, the fraction earned is
/// the share of the correct options that were chosen less the share of the incorrect
/// options that were chosen, the penalty spread over the options that are not correct
/// (at least one). Without negative marking it is floored to zero exactly when that
/// difference is negative; otherwise it is the difference itself.
pub proof fn law_fraction_is_difference_of_shares(
    correct: Set<Seq<char>>,
    selected: Set<Seq<char>>,
    total_options: nat,
    allow_negative_mark: bool,
)
    requires
        selected.len() > 0,
        correct.len() > 0,
    ensures
        ({
            let nc = correct.len();
            let raw = FractionView {
                reward: selected.intersect(correct).len(),
                reward_of: nc,
                penalty: selected.difference(correct).len(),
                penalty_of: if total_options > nc {
                    (total_options - nc) as nat
                } else {
                    1
                },
            };
            spec_fraction(correct, selected, total_options, allow_negative_mark) == if allow_negative_mark
                || fraction_num(raw) >= 0 {
                raw
            } else {
                zero_fraction()
            }
        }),
{
}

} // verus!
