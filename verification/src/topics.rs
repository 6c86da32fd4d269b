//! The topics and study locations of a quiz, each once, in sorted order.
use vstd::prelude::*;
use crate::model::{opt_text, texts, QuestionView, QuizFile};
use crate::text::{
    lemma_text_lt_irreflexive, lemma_text_lt_total, lemma_text_lt_transitive, str_less, text_lt,
};
use crate::validate::question_views;

verus! {

broadcast use vstd::seq_lib::group_seq_properties;

/// Which metadata field of the questions is listed.
#[derive(Debug, Clone, Copy, PartialEq, Eq, Structural)]
pub enum MetadataField {
    Topic,
    StudyLocation,
}

/// The value of the listed field of a question.
pub open spec fn field_value(q: QuestionView, field: MetadataField) -> Option<Seq<char>> {
    match field {
        MetadataField::Topic => q.metadata.topic,
        MetadataField::StudyLocation => q.metadata.study_location,
    }
}

/// The values of the field that occur among the questions.
pub open spec fn values_present(qs: Seq<QuestionView>, field: MetadataField) -> Set<Seq<char>> {
    Set::new(|t: Seq<char>| exists|i: int| 0 <= i < qs.len() && field_value(qs[i], field) == Some(t))
}

/// The list is in strictly increasing order, so each value occurs once.
pub open spec fn strictly_sorted(s: Seq<Seq<char>>) -> bool {
    forall|i: int, j: int| 0 <= i < j < s.len() ==> text_lt(#[trigger] s[i], #[trigger] s[j])
}

/// Inserts `t` into a strictly sorted list unless it is already there.
fn insert_sorted(v: &mut Vec<String>, t: &String)
    requires
        strictly_sorted(texts(old(v)@)),
    ensures
        strictly_sorted(texts(final(v)@)),
        texts(final(v)@).to_set() == texts(old(v)@).to_set().insert(t@),
{
    let ghost before = texts(v@);
    let mut p: usize = 0;
    while p < v.len() && str_less(v[p].as_str(), t.as_str())
        invariant
            before == texts(v@),
            p <= v@.len(),
            forall|j: int| 0 <= j < p ==> text_lt(#[trigger] before[j], t@),
        decreases v@.len() - p,
    {
        p = p + 1;
    }
    if p < v.len() && crate::text::str_equal(v[p].as_str(), t.as_str()) {
        assert(before.to_set() =~= before.to_set().insert(t@)) by {
            assert(before[p as int] == t@);
        }
        return;
    }
    proof {
        if p < before.len() {
            lemma_text_lt_total(before[p as int], t@);
        }
    }
    v.insert(p, t.clone());
    proof {
        let after = texts(v@);
        assert(after =~= before.insert(p as int, t@));
        assert forall|i: int, j: int| 0 <= i < j < after.len() implies text_lt(
            #[trigger] after[i],
            #[trigger] after[j],
        ) by {
            if j < p {
            } else if j == p {
                assert(text_lt(before[i], t@));
            } else if i < p {
                assert(text_lt(before[i], t@));
                assert(text_lt(t@, before[p as int]));
                if j - 1 > p {
                    lemma_text_lt_transitive(t@, before[p as int], before[j - 1]);
                }
                lemma_text_lt_transitive(before[i], t@, before[j - 1]);
            } else if i == p {
                assert(text_lt(t@, before[p as int]));
                if j - 1 > p {
                    lemma_text_lt_transitive(t@, before[p as int], before[j - 1]);
                }
            } else {
                assert(after[i] == before[i - 1] && after[j] == before[j - 1]);
            }
        }
        assert forall|x: Seq<char>| after.to_set().contains(x) <==> before.to_set().insert(
            t@,
        ).contains(x) by {
            if after.contains(x) {
                let k = choose|k: int| 0 <= k < after.len() && after[k] == x;
                if k < p {
                    assert(before[k] == x);
                } else if k > p {
                    assert(before[k - 1] == x);
                }
            }
            if before.contains(x) {
                let k = choose|k: int| 0 <= k < before.len() && before[k] == x;
                if k < p {
                    assert(after[k] == x);
                } else {
                    assert(after[k + 1] == x);
                }
            }
            if x == t@ {
                assert(after[p as int] == x);
            }
        }
        assert(after.to_set() =~= before.to_set().insert(t@));
    }
}

/// Adding a question adds its value, if it has one.
pub proof fn lemma_values_present_push(qs: Seq<QuestionView>, q: QuestionView, field: MetadataField)
    ensures
        values_present(qs.push(q), field) == match field_value(q, field) {
            Some(t) => values_present(qs, field).insert(t),
            None => values_present(qs, field),
        },
{
    let after = qs.push(q);
    let target = match field_value(q, field) {
        Some(t) => values_present(qs, field).insert(t),
        None => values_present(qs, field),
    };
    assert forall|x: Seq<char>| values_present(after, field).contains(x) <==> target.contains(x) by {
        if values_present(after, field).contains(x) {
            let k = choose|k: int| 0 <= k < after.len() && field_value(after[k], field) == Some(x);
            if k < qs.len() {
                assert(after[k] == qs[k]);
            }
        }
        if values_present(qs, field).contains(x) {
            let k = choose|k: int| 0 <= k < qs.len() && field_value(qs[k], field) == Some(x);
            assert(after[k] == qs[k]);
        }
        if field_value(q, field) == Some(x) {
            assert(after[qs.len() as int] == q);
        }
    }
    assert(values_present(after, field) =~= target);
}

/// The values of the field among the questions, each once, in increasing order.
pub fn available_values<M>(quiz: &QuizFile<M>, field: MetadataField) -> (v: Vec<String>)
    ensures
        strictly_sorted(texts(v@)),
        texts(v@).to_set() == values_present(question_views(quiz.questions@), field),
{
    let ghost qs = question_views(quiz.questions@);
    let mut v: Vec<String> = Vec::new();
    let mut i: usize = 0;
    while i < quiz.questions.len()
        invariant
            qs == question_views(quiz.questions@),
            i <= quiz.questions@.len(),
            strictly_sorted(texts(v@)),
            texts(v@).to_set() == values_present(qs.take(i as int), field),
        decreases quiz.questions@.len() - i,
    {
        let q = &quiz.questions[i];
        let value = match field {
            MetadataField::Topic => &q.metadata.topic,
            MetadataField::StudyLocation => &q.metadata.study_location,
        };
        proof {
            assert(qs.take(i + 1) =~= qs.take(i as int).push(q@));
            lemma_values_present_push(qs.take(i as int), q@, field);
        }
        match value {
            Some(t) => {
                insert_sorted(&mut v, t);
            },
            None => {},
        }
        i = i + 1;
    }
    assert(qs.take(i as int) =~= qs);
    v
}

/// The topics of the quiz's questions, each once, in increasing order.
pub fn available_topics<M>(quiz: &QuizFile<M>) -> (v: Vec<String>)
    ensures
        strictly_sorted(texts(v@)),
        texts(v@).to_set() == values_present(question_views(quiz.questions@), MetadataField::Topic),
{
    available_values(quiz, MetadataField::Topic)
}

/// The study locations of the quiz's questions, each once, in increasing order.
pub fn available_locations<M>(quiz: &QuizFile<M>) -> (v: Vec<String>)
    ensures
        strictly_sorted(texts(v@)),
        texts(v@).to_set() == values_present(
            question_views(quiz.questions@),
            MetadataField::StudyLocation,
        ),
{
    available_values(quiz, MetadataField::StudyLocation)
}

/// A strictly sorted list is determined by its set of values: two such lists
/// with the same values are equal.
pub proof fn law_sorted_values_are_unique(a: Seq<Seq<char>>, b: Seq<Seq<char>>)
    requires
        strictly_sorted(a),
        strictly_sorted(b),
        a.to_set() == b.to_set(),
    ensures
        a == b,
    decreases a.len(),
{
    if a.len() == 0 {
        if b.len() > 0 {
            assert(b.to_set().contains(b[0]));
        }
        assert(a =~= b);
    } else if b.len() == 0 {
        assert(a.to_set().contains(a[0]));
    } else {
        // the first values agree: each is the least of the common set
        assert(b.to_set().contains(a[0]));
        assert(a.to_set().contains(b[0]));
        let ka = choose|k: int| 0 <= k < a.len() && a[k] == b[0];
        let kb = choose|k: int| 0 <= k < b.len() && b[k] == a[0];
        if a[0] != b[0] {
            assert(ka > 0 && kb > 0);
            assert(text_lt(a[0], a[ka]));
            assert(text_lt(b[0], b[kb]));
            lemma_text_lt_total(a[0], b[0]);
        }
        let a1 = a.drop_first();
        let b1 = b.drop_first();
        assert(strictly_sorted(a1)) by {
            assert forall|i: int, j: int| 0 <= i < j < a1.len() implies text_lt(
                #[trigger] a1[i],
                #[trigger] a1[j],
            ) by {
                assert(a1[i] == a[i + 1] && a1[j] == a[j + 1]);
            }
        }
        assert(strictly_sorted(b1)) by {
            assert forall|i: int, j: int| 0 <= i < j < b1.len() implies text_lt(
                #[trigger] b1[i],
                #[trigger] b1[j],
            ) by {
                assert(b1[i] == b[i + 1] && b1[j] == b[j + 1]);
            }
        }
        assert forall|x: Seq<char>| a1.to_set().contains(x) <==> b1.to_set().contains(x) by {
            if a1.contains(x) {
                let i = choose|i: int| 0 <= i < a1.len() && a1[i] == x;
                assert(a[i + 1] == x);
                assert(text_lt(a[0], x));
                lemma_text_lt_irreflexive(x);
                assert(b.to_set().contains(x));
                let j = choose|j: int| 0 <= j < b.len() && b[j] == x;
                assert(j != 0);
                assert(b1[j - 1] == x);
            }
            if b1.contains(x) {
                let i = choose|i: int| 0 <= i < b1.len() && b1[i] == x;
                assert(b[i + 1] == x);
                assert(text_lt(b[0], x));
                lemma_text_lt_irreflexive(x);
                assert(a.to_set().contains(x));
                let j = choose|j: int| 0 <= j < a.len() && a[j] == x;
                assert(j != 0);
                assert(a1[j - 1] == x);
            }
        }
        assert(a1.to_set() =~= b1.to_set());
        law_sorted_values_are_unique(a1, b1);
        assert(a =~= b) by {
            assert(a =~= seq![a[0]] + a1);
            assert(b =~= seq![b[0]] + b1);
        }
    }
}

} // verus!
