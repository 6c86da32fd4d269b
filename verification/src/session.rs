//! Building a quiz session: choosing questions in random order and laying out
//! each question's answers as labelled options.
use vstd::prelude::*;
use vstd::string::*;
use rand::rngs::SmallRng;
use rand::seq::SliceRandom;
use crate::labels::{label_text, option_id, option_id_text, option_label, LABEL_COUNT};
use crate::model::{
    spec_merged_metadata, texts, MetadataView, QuestionMetadata, QuestionView, QuizFile,
    QuizQuestion,
};
use crate::validate::{law_valid_quiz_has_answerable_questions, question_views, spec_validate_quiz};
use crate::text::{decimal, digit_char, eq_ignoring_ascii_case, str_eq_ignore_ascii_case};

verus! {

broadcast use vstd::seq_lib::group_seq_properties, vstd::multiset::group_multiset_axioms;

#[verifier::external_type_specification]
#[verifier::external_body]
pub struct ExSmallRng(SmallRng);

/// Puts the list in a random order with `rand`'s `SliceRandom::shuffle`, a
/// Fisher-Yates shuffle made of swaps and driven by `rng`. Claimed: afterwards the list
/// holds the same elements, each as often as before. Which order comes out, and
/// the state the generator is left in, are not stated.
#[verifier::external_body]
fn shuffle_indices(v: &mut Vec<usize>, rng: &mut SmallRng)
    ensures
        final(v)@.to_multiset() == old(v)@.to_multiset(),
{
    v.shuffle(rng);
}

/// The indices `0, 1, ..., n - 1` in order.
pub open spec fn index_range(n: nat) -> Seq<usize> {
    Seq::new(n, |i: int| i as usize)
}

/// `p` lists each index below `n` exactly once.
pub open spec fn is_permutation(p: Seq<usize>, n: nat) -> bool {
    &&& p.len() == n
    &&& p.no_duplicates()
    &&& forall|i: int| 0 <= i < p.len() ==> p[i] < n
}

/// Lists with the same elements, each as often, stay so after mapping.
pub proof fn lemma_multiset_map<A, B>(s1: Seq<A>, s2: Seq<A>, f: spec_fn(A) -> B)
    requires
        s1.to_multiset() == s2.to_multiset(),
    ensures
        s1.map_values(f).to_multiset() == s2.map_values(f).to_multiset(),
    decreases s1.len(),
{
    assert(s1.to_multiset().len() == s1.len());
    assert(s2.to_multiset().len() == s2.len());
    if s1.len() == 0 {
        assert(s2.len() == 0);
        assert(s1.map_values(f) =~= Seq::<B>::empty());
        assert(s2.map_values(f) =~= Seq::<B>::empty());
    } else {
        let x = s1.last();
        let t = s1.drop_last();
        assert(s1 =~= t.push(x));
        assert(s1.to_multiset().count(x) > 0);
        assert(s2.contains(x));
        let k = choose|k: int| 0 <= k < s2.len() && s2[k] == x;
        let u = s2.remove(k);
        assert(u.to_multiset() =~= t.to_multiset());
        lemma_multiset_map(t, u, f);
        assert(s1.map_values(f) =~= t.map_values(f).push(f(x)));
        assert(s2.map_values(f).remove(k) =~= u.map_values(f));
        let m2 = s2.map_values(f).to_multiset();
        assert(m2.count(f(x)) > 0) by {
            assert(s2.map_values(f)[k] == f(x));
        }
        assert(m2 =~= u.map_values(f).to_multiset().insert(f(x)));
    }
}

/// A rearrangement of the indices below `n` lists each of them once.
pub proof fn lemma_rearranged_range_is_permutation(p: Seq<usize>, n: nat)
    requires
        n <= usize::MAX,
        p.to_multiset() == index_range(n).to_multiset(),
    ensures
        is_permutation(p, n),
{
    let r = index_range(n);
    assert(r.no_duplicates()) by {
        assert forall|i: int, j: int| 0 <= i < r.len() && 0 <= j < r.len() && i != j implies r[i]
            != r[j] by {
            assert(r[i] == i && r[j] == j);
        }
    }
    assert(p.to_multiset().len() == p.len());
    assert(r.to_multiset().len() == r.len());
    r.lemma_multiset_has_no_duplicates();
    p.lemma_multiset_has_no_duplicates_conv();
    assert forall|i: int| 0 <= i < p.len() implies p[i] < n by {
        assert(p.to_multiset().count(p[i]) > 0);
        assert(r.contains(p[i]));
        let k = choose|k: int| 0 <= k < r.len() && r[k] == p[i];
        assert(r[k] == k);
    }
}

/// Picking from `all` by a rearrangement of its indices rearranges `all`.
pub proof fn lemma_pick_by_rearranged_range<A>(all: Seq<A>, p: Seq<usize>)
    requires
        all.len() <= usize::MAX,
        p.to_multiset() == index_range(all.len()).to_multiset(),
    ensures
        Seq::new(p.len(), |i: int| all[p[i] as int]).to_multiset() == all.to_multiset(),
{
    let f = |j: usize| all[j as int];
    lemma_multiset_map(p, index_range(all.len()), f);
    assert(p.map_values(f) =~= Seq::new(p.len(), |i: int| all[p[i] as int]));
    assert(index_range(all.len()).map_values(f) =~= all);
}

fn index_list(n: usize) -> (v: Vec<usize>)
    ensures
        v@ == index_range(n as nat),
{
    let mut v: Vec<usize> = Vec::new();
    let mut i: usize = 0;
    while i < n
        invariant
            i <= n,
            v@ =~= index_range(i as nat),
        decreases n - i,
    {
        v.push(i);
        i = i + 1;
    }
    v
}

/// One question as presented in a session: labelled options with ids, and the
/// ids of the correct options.
#[derive(Debug, Clone, PartialEq)]
pub struct SessionQuestion {
    pub id: String,
    pub text: String,
    /// Option id, label and answer text, in the order shown.
    pub options: Vec<(String, String, String)>,
    /// The ids of the correct options, in the order shown, each once.
    pub correct_ids: Vec<String>,
    pub metadata: QuestionMetadata,
}

/// The texts of an option: id, label and answer.
pub open spec fn option_texts(o: (String, String, String)) -> (Seq<char>, Seq<char>, Seq<char>) {
    (o.0@, o.1@, o.2@)
}

/// The texts held by [`SessionQuestion`].
pub struct SessionView {
    pub id: Seq<char>,
    pub text: Seq<char>,
    pub options: Seq<(Seq<char>, Seq<char>, Seq<char>)>,
    pub correct_ids: Seq<Seq<char>>,
    pub metadata: MetadataView,
}

impl View for SessionQuestion {
    type V = SessionView;

    open spec fn view(&self) -> SessionView {
        SessionView {
            id: self.id@,
            text: self.text@,
            options: self.options@.map_values(|o: (String, String, String)| option_texts(o)),
            correct_ids: texts(self.correct_ids@),
            metadata: self.metadata@,
        }
    }
}

/// The texts of a list of answers, each marked correct or not.
pub open spec fn marked_texts(v: Seq<(bool, String)>) -> Seq<(bool, Seq<char>)> {
    v.map_values(|a: (bool, String)| (a.0, a.1@))
}

/// All answers of a question: the correct ones, then the incorrect ones.
pub open spec fn answer_list(q: QuestionView) -> Seq<(bool, Seq<char>)> {
    q.correct_answers.map_values(|a: Seq<char>| (true, a)) + q.incorrect_answers.map_values(
        |a: Seq<char>| (false, a),
    )
}

/// Whether an answer reads "true", ignoring ASCII case.
pub open spec fn is_true_word(t: Seq<char>) -> bool {
    eq_ignoring_ascii_case(t, "true"@)
}

/// Whether an answer reads "false", ignoring ASCII case.
pub open spec fn is_false_word(t: Seq<char>) -> bool {
    eq_ignoring_ascii_case(t, "false"@)
}

/// A true/false question: two answers, one reading "true" and one reading "false".
pub open spec fn is_true_false(l: Seq<(bool, Seq<char>)>) -> bool {
    &&& l.len() == 2
    &&& is_true_word(l[0].1) || is_true_word(l[1].1)
    &&& is_false_word(l[0].1) || is_false_word(l[1].1)
}

/// The two answers of a true/false question with "true" first.
pub open spec fn true_first(l: Seq<(bool, Seq<char>)>) -> Seq<(bool, Seq<char>)> {
    if is_true_word(l[0].1) {
        l
    } else {
        seq![l[1], l[0]]
    }
}

/// The admissible layouts of a question's answers: "true" before "false" for a
/// true/false question, any rearrangement of all answers otherwise.
pub open spec fn is_arrangement(a: Seq<(bool, Seq<char>)>, q: QuestionView) -> bool {
    let l = answer_list(q);
    if is_true_false(l) {
        a == true_first(l)
    } else {
        a.to_multiset() == l.to_multiset()
    }
}

/// The ids of the correct options among the first `n` of the layout `a`.
pub open spec fn correct_ids_upto(a: Seq<(bool, Seq<char>)>, n: nat) -> Seq<Seq<char>>
    decreases n,
{
    if n == 0 {
        Seq::empty()
    } else {
        let prev = correct_ids_upto(a, (n - 1) as nat);
        if a[n - 1].0 {
            prev.push(option_id_text((n - 1) as nat))
        } else {
            prev
        }
    }
}

/// The session question for `q` with its answers laid out as `a`: option `i` has id
/// "opt_i", the `i`-th letter as label and the `i`-th answer's text.
pub open spec fn spec_session_question(q: QuestionView, a: Seq<(bool, Seq<char>)>) -> SessionView {
    SessionView {
        id: q.id,
        text: q.question,
        options: Seq::new(a.len(), |i: int| (option_id_text(i as nat), label_text(i as nat), a[i].1)),
        correct_ids: correct_ids_upto(a, a.len()),
        metadata: spec_merged_metadata(q),
    }
}

/// `s` presents the question `q` with one of its admissible layouts.
pub open spec fn is_session_for(s: SessionView, q: QuestionView) -> bool {
    exists|a: Seq<(bool, Seq<char>)>| #[trigger]
        is_arrangement(a, q) && s == spec_session_question(q, a)
}

/// The number of answers of a question.
pub open spec fn answer_count(q: QuestionView) -> int {
    (q.correct_answers.len() + q.incorrect_answers.len()) as int
}

/// The session question for `q` with its answers laid out as `arranged`.
pub fn session_question_from(q: &QuizQuestion, arranged: &Vec<(bool, String)>) -> (s:
    SessionQuestion)
    requires
        arranged@.len() <= LABEL_COUNT,
    ensures
        s@ == spec_session_question(q@, marked_texts(arranged@)),
{
    let ghost a = marked_texts(arranged@);
    let mut options: Vec<(String, String, String)> = Vec::new();
    let mut correct_ids: Vec<String> = Vec::new();
    let mut i: usize = 0;
    while i < arranged.len()
        invariant
            a == marked_texts(arranged@),
            arranged@.len() <= LABEL_COUNT,
            i <= arranged@.len(),
            options@.len() == i,
            forall|j: int|
                0 <= j < i ==> option_texts(#[trigger] options@[j]) == (
                    option_id_text(j as nat),
                    label_text(j as nat),
                    a[j].1,
                ),
            texts(correct_ids@) == correct_ids_upto(a, i as nat),
        decreases arranged@.len() - i,
    {
        let (is_correct, text) = &arranged[i];
        options.push((option_id(i), option_label(i), text.clone()));
        if *is_correct {
            correct_ids.push(option_id(i));
        }
        assert(texts(correct_ids@) =~= correct_ids_upto(a, (i + 1) as nat));
        i = i + 1;
    }
    let s = SessionQuestion {
        id: q.id.clone(),
        text: q.question.clone(),
        options,
        correct_ids,
        metadata: q.merged_metadata(),
    };
    assert(s@.options =~= spec_session_question(q@, a).options);
    s
}

/// All answers of a question, the correct ones first, each marked.
fn all_answers(q: &QuizQuestion) -> (v: Vec<(bool, String)>)
    ensures
        marked_texts(v@) == answer_list(q@),
{
    let mut v: Vec<(bool, String)> = Vec::new();
    let nc = q.correct_answers.len();
    let mut i: usize = 0;
    while i < nc
        invariant
            nc == q.correct_answers@.len(),
            i <= nc,
            v@.len() == i,
            forall|j: int|
                0 <= j < i ==> (#[trigger] v@[j]).0 && v@[j].1@ == q.correct_answers@[j]@,
        decreases nc - i,
    {
        v.push((true, q.correct_answers[i].clone()));
        i = i + 1;
    }
    let ni = q.incorrect_answers.len();
    let mut j: usize = 0;
    while j < ni
        invariant
            nc == q.correct_answers@.len(),
            ni == q.incorrect_answers@.len(),
            j <= ni,
            v@.len() == nc + j,
            forall|k: int|
                0 <= k < nc ==> (#[trigger] v@[k]).0 && v@[k].1@ == q.correct_answers@[k]@,
            forall|k: int|
                nc <= k < nc + j ==> !(#[trigger] v@[k]).0 && v@[k].1@ == q.incorrect_answers@[k
                    - nc]@,
        decreases ni - j,
    {
        v.push((false, q.incorrect_answers[j].clone()));
        j = j + 1;
    }
    assert(marked_texts(v@) =~= answer_list(q@));
    v
}

fn is_true_text(t: &String) -> (b: bool)
    ensures
        b == is_true_word(t@),
{
    str_eq_ignore_ascii_case(t.as_str(), "true")
}

fn is_false_text(t: &String) -> (b: bool)
    ensures
        b == is_false_word(t@),
{
    str_eq_ignore_ascii_case(t.as_str(), "false")
}

/// Lays out a question's answers: "true" first for a true/false question,
/// otherwise in random order.
fn arrange_answers(all: Vec<(bool, String)>, rng: &mut SmallRng) -> (a: Vec<(bool, String)>)
    ensures
        a@.len() == all@.len(),
        is_true_false(marked_texts(all@)) ==> marked_texts(a@) == true_first(marked_texts(all@)),
        !is_true_false(marked_texts(all@)) ==> marked_texts(a@).to_multiset() == marked_texts(
            all@,
        ).to_multiset(),
{
    let ghost l = marked_texts(all@);
    let n = all.len();
    if n == 2 {
        let t0 = is_true_text(&all[0].1);
        let t1 = is_true_text(&all[1].1);
        let f0 = is_false_text(&all[0].1);
        let f1 = is_false_text(&all[1].1);
        if (t0 || t1) && (f0 || f1) {
            if t0 {
                return all;
            } else {
                let mut all = all;
                let second = all.pop().unwrap();
                let first = all.pop().unwrap();
                let mut swapped: Vec<(bool, String)> = Vec::new();
                swapped.push(second);
                swapped.push(first);
                assert(marked_texts(swapped@) =~= true_first(l));
                return swapped;
            }
        }
    }
    let mut order = index_list(n);
    shuffle_indices(&mut order, rng);
    proof {
        lemma_rearranged_range_is_permutation(order@, n as nat);
    }
    let mut arranged: Vec<(bool, String)> = Vec::new();
    let mut i: usize = 0;
    while i < n
        invariant
            n == all@.len(),
            l == marked_texts(all@),
            is_permutation(order@, n as nat),
            i <= n,
            arranged@.len() == i,
            forall|j: int|
                0 <= j < i ==> ((#[trigger] arranged@[j]).0, arranged@[j].1@) == l[order@[j] as int],
        decreases n - i,
    {
        let k = order[i];
        let (c, t) = &all[k];
        arranged.push((*c, t.clone()));
        i = i + 1;
    }
    proof {
        lemma_pick_by_rearranged_range(l, order@);
        assert(marked_texts(arranged@) =~= Seq::new(order@.len(), |i: int| l[order@[i] as int]));
    }
    arranged
}

/// Presents one question: its answers laid out (see [`is_arrangement`]) as options.
pub fn session_question(q: &QuizQuestion, rng: &mut SmallRng) -> (s: SessionQuestion)
    requires
        answer_count(q@) <= LABEL_COUNT,
    ensures
        is_session_for(s@, q@),
{
    let all = all_answers(q);
    let arranged = arrange_answers(all, rng);
    let s = session_question_from(q, &arranged);
    assert(is_arrangement(marked_texts(arranged@), q@));
    s
}

/// The number of questions in a session: the requested number, at most all.
pub open spec fn session_length(count: nat, available: nat) -> nat {
    if count < available {
        count
    } else {
        available
    }
}

/// Builds a session of `count` questions (or all, when there are fewer), chosen in
/// random order, each question at most once, each presented as [`session_question`]
/// does. A question with more answers than there are labels cannot be shown; unless
/// no question is asked for, every question must fit.
pub fn build_session(questions: &[QuizQuestion], count: usize, rng: &mut SmallRng) -> (session:
    Vec<SessionQuestion>)
    requires
        count == 0 || forall|i: int|
            0 <= i < questions@.len() ==> answer_count((#[trigger] questions@[i])@)
                <= LABEL_COUNT,
    ensures
        session@.len() == session_length(count as nat, questions@.len()),
        exists|order: Seq<usize>|
            #![trigger is_permutation(order, questions@.len())]
            is_permutation(order, questions@.len()) && forall|i: int|
                0 <= i < session@.len() ==> is_session_for(
                    (#[trigger] session@[i])@,
                    questions@[order[i] as int]@,
                ),
{
    let n = questions.len();
    let mut order = index_list(n);
    shuffle_indices(&mut order, rng);
    proof {
        lemma_rearranged_range_is_permutation(order@, n as nat);
    }
    let k = if count < n {
        count
    } else {
        n
    };
    let mut session: Vec<SessionQuestion> = Vec::new();
    let mut i: usize = 0;
    while i < k
        invariant
            n == questions@.len(),
            k == session_length(count as nat, n as nat),
            k == 0 || forall|j: int|
                0 <= j < questions@.len() ==> answer_count((#[trigger] questions@[j])@)
                    <= LABEL_COUNT,
            is_permutation(order@, n as nat),
            i <= k,
            session@.len() == i,
            forall|j: int|
                0 <= j < i ==> is_session_for(
                    (#[trigger] session@[j])@,
                    questions@[order@[j] as int]@,
                ),
        decreases k - i,
    {
        let q = &questions[order[i]];
        assert(answer_count(questions@[order@[i as int] as int]@) <= LABEL_COUNT);
        let s = session_question(q, rng);
        session.push(s);
        i = i + 1;
    }
    assert(is_permutation(order@, questions@.len()));
    session
}


/// The decimal spelling has at least one digit, and two or more from ten on.
pub proof fn lemma_decimal_len(n: nat)
    ensures
        decimal(n).len() >= 1,
        n >= 10 ==> decimal(n).len() >= 2,
    decreases n,
{
    if n >= 10 {
        lemma_decimal_len(n / 10);
    }
}

/// Different numbers are spelled differently.
pub proof fn lemma_decimal_injective(a: nat, b: nat)
    requires
        decimal(a) == decimal(b),
    ensures
        a == b,
    decreases a,
{
    lemma_decimal_len(a);
    lemma_decimal_len(b);
    if a < 10 && b < 10 {
        assert(decimal(a)[0] == digit_char(a));
        assert(decimal(b)[0] == digit_char(b));
    } else if a >= 10 && b >= 10 {
        let da = decimal(a);
        let db = decimal(b);
        assert(da.last() == digit_char(a % 10));
        assert(db.last() == digit_char(b % 10));
        assert(da.drop_last() =~= decimal(a / 10));
        assert(db.drop_last() =~= decimal(b / 10));
        lemma_decimal_injective(a / 10, b / 10);
    } else {
        assert(decimal(a).len() != decimal(b).len());
    }
}

/// Options at different positions have different ids.
pub proof fn lemma_option_ids_distinct(i: nat, j: nat)
    requires
        i != j,
    ensures
        option_id_text(i) != option_id_text(j),
{
    if option_id_text(i) == option_id_text(j) {
        let p = "opt_"@;
        assert(option_id_text(i).skip(p.len() as int) =~= decimal(i));
        assert(option_id_text(j).skip(p.len() as int) =~= decimal(j));
        lemma_decimal_injective(i, j);
    }
}

/// The correct ids among the first `n` options are ids of those options, in order, each once.
pub proof fn lemma_correct_ids_upto(a: Seq<(bool, Seq<char>)>, n: nat)
    requires
        n <= a.len(),
    ensures
        correct_ids_upto(a, n).no_duplicates(),
        forall|x: Seq<char>|
            correct_ids_upto(a, n).contains(x) <==> exists|k: int|
                0 <= k < n && a[k].0 && x == option_id_text(k as nat),
        correct_ids_upto(a, n).len() == count_marked(a.take(n as int)),
    decreases n,
{
    if n > 0 {
        let m = (n - 1) as nat;
        lemma_correct_ids_upto(a, m);
        assert(a.take(n as int).drop_last() =~= a.take(m as int));
        let prev = correct_ids_upto(a, m);
        if a[m as int].0 {
            let id = option_id_text(m);
            assert(!prev.contains(id)) by {
                if prev.contains(id) {
                    let k = choose|k: int| 0 <= k < m && a[k].0 && id == option_id_text(k as nat);
                    lemma_option_ids_distinct(k as nat, m);
                }
            }
            assert forall|x: Seq<char>| prev.push(id).contains(x) <==> (prev.contains(x) || x == id) by {
                if prev.push(id).contains(x) {
                    let k = choose|k: int| 0 <= k < prev.push(id).len() && prev.push(id)[k] == x;
                    if k < prev.len() {
                        assert(prev[k] == x);
                    }
                }
                if prev.contains(x) {
                    let k = choose|k: int| 0 <= k < prev.len() && prev[k] == x;
                    assert(prev.push(id)[k] == x);
                }
                if x == id {
                    assert(prev.push(id)[prev.len() as int] == x);
                }
            }
        }
    }
}

/// The number of answers marked correct.
pub open spec fn count_marked(a: Seq<(bool, Seq<char>)>) -> nat
    decreases a.len(),
{
    if a.len() == 0 {
        0
    } else {
        count_marked(a.drop_last()) + if a.last().0 {
            1nat
        } else {
            0nat
        }
    }
}

/// The marks of a list: how many are correct is the multiplicity of `true`.
pub proof fn lemma_count_marked_multiset(a: Seq<(bool, Seq<char>)>)
    ensures
        count_marked(a) == a.map_values(|x: (bool, Seq<char>)| x.0).to_multiset().count(true),
    decreases a.len(),
{
    let f = |x: (bool, Seq<char>)| x.0;
    if a.len() == 0 {
        assert(a.map_values(f) =~= Seq::<bool>::empty());
    } else {
        lemma_count_marked_multiset(a.drop_last());
        assert(a.map_values(f) =~= a.drop_last().map_values(f).push(a.last().0));
    }
}

/// Counting the correct answers of two parts separately.
pub proof fn lemma_count_marked_concat(a: Seq<(bool, Seq<char>)>, b: Seq<(bool, Seq<char>)>)
    ensures
        count_marked(a + b) == count_marked(a) + count_marked(b),
    decreases b.len(),
{
    if b.len() > 0 {
        lemma_count_marked_concat(a, b.drop_last());
        assert((a + b).drop_last() =~= a + b.drop_last());
    } else {
        assert(a + b =~= a);
    }
}

/// All the entries of a list marked alike.
pub proof fn lemma_count_marked_uniform(s: Seq<Seq<char>>, mark: bool)
    ensures
        count_marked(s.map_values(|t: Seq<char>| (mark, t))) == if mark {
            s.len()
        } else {
            0
        },
    decreases s.len(),
{
    if s.len() > 0 {
        lemma_count_marked_uniform(s.drop_last(), mark);
        assert(s.map_values(|t: Seq<char>| (mark, t)).drop_last() =~= s.drop_last().map_values(
            |t: Seq<char>| (mark, t),
        ));
    }
}

/// A question presented in a session shows each of its answers as one option,
/// labelled "A", "B", ... in order, with distinct ids; its correct ids are ids of
/// its options, each once, exactly as many as the question has correct answers.
pub proof fn law_session_question_shape(s: SessionView, q: QuestionView)
    requires
        is_session_for(s, q),
    ensures
        s.options.len() == answer_count(q),
        forall|i: int| 0 <= i < s.options.len() ==> (#[trigger] s.options[i]).1 == label_text(i as nat),
        forall|i: int, j: int|
            0 <= i < s.options.len() && 0 <= j < s.options.len() && i != j ==> (
            #[trigger] s.options[i]).0 != (#[trigger] s.options[j]).0,
        s.correct_ids.no_duplicates(),
        forall|x: Seq<char>|
            s.correct_ids.contains(x) ==> exists|i: int|
                0 <= i < s.options.len() && (#[trigger] s.options[i]).0 == x,
        s.correct_ids.len() == q.correct_answers.len(),
{
    let a = choose|a: Seq<(bool, Seq<char>)>| #[trigger] is_arrangement(a, q) && s == spec_session_question(q, a);
    let l = answer_list(q);
    assert(a.len() == l.len()) by {
        if is_true_false(l) {
        } else {
            assert(a.to_multiset().len() == a.len());
            assert(l.to_multiset().len() == l.len());
        }
    }
    assert forall|i: int, j: int|
        0 <= i < s.options.len() && 0 <= j < s.options.len() && i != j implies (
        #[trigger] s.options[i]).0 != (#[trigger] s.options[j]).0 by {
        lemma_option_ids_distinct(i as nat, j as nat);
    }
    lemma_correct_ids_upto(a, a.len());
    assert forall|x: Seq<char>| s.correct_ids.contains(x) implies exists|i: int|
        0 <= i < s.options.len() && (#[trigger] s.options[i]).0 == x by {
        let k = choose|k: int| 0 <= k < a.len() && a[k].0 && x == option_id_text(k as nat);
        assert(s.options[k].0 == x);
    }
    assert(a.take(a.len() as int) =~= a);
    lemma_count_marked_concat(
        q.correct_answers.map_values(|t: Seq<char>| (true, t)),
        q.incorrect_answers.map_values(|t: Seq<char>| (false, t)),
    );
    lemma_count_marked_uniform(q.correct_answers, true);
    lemma_count_marked_uniform(q.incorrect_answers, false);
    if is_true_false(l) {
        assert(count_marked(true_first(l)) == count_marked(l)) by {
            reveal_with_fuel(count_marked, 3);
            if !is_true_word(l[0].1) {
                assert(seq![l[1], l[0]].drop_last() =~= seq![l[1]]);
                assert(seq![l[1]].drop_last() =~= Seq::<(bool, Seq<char>)>::empty());
                assert(l.drop_last() =~= seq![l[0]]);
                assert(seq![l[0]].drop_last() =~= Seq::<(bool, Seq<char>)>::empty());
            }
        }
    } else {
        lemma_multiset_map(a, l, |x: (bool, Seq<char>)| x.0);
        lemma_count_marked_multiset(a);
        lemma_count_marked_multiset(l);
    }
}


/// Every question of a session built from a quiz that passes validation has at
/// least one correct option.
pub proof fn law_valid_quiz_sessions_have_correct_options<M>(
    quiz: QuizFile<M>,
    marks_positive: bool,
    s: SessionView,
    i: int,
)
    requires
        spec_validate_quiz(marks_positive, question_views(quiz.questions@)) is Ok,
        0 <= i < quiz.questions@.len(),
        is_session_for(s, quiz.questions@[i]@),
    ensures
        s.correct_ids.len() >= 1,
{
    law_valid_quiz_has_answerable_questions(quiz, marks_positive);
    law_session_question_shape(s, quiz.questions@[i]@);
}


/// A question presented in a session keeps the question's id, text and study
/// metadata; the question's own explanation fills in where its metadata has none.
pub proof fn law_session_question_keeps_question_details(s: SessionView, q: QuestionView)
    requires
        is_session_for(s, q),
    ensures
        s.id == q.id,
        s.text == q.question,
        s.metadata.study_location == q.metadata.study_location,
        s.metadata.timestamp == q.metadata.timestamp,
        s.metadata.topic == q.metadata.topic,
        s.metadata.answer == q.metadata.answer,
        s.metadata.notes == q.metadata.notes,
        q.metadata.explanation is Some ==> s.metadata.explanation == q.metadata.explanation,
        q.metadata.explanation is None ==> s.metadata.explanation == q.explanation,
{
    let a = choose|a: Seq<(bool, Seq<char>)>| #[trigger] is_arrangement(a, q) && s == spec_session_question(q, a);
}

} // verus!
