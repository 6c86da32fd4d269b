//! The options chosen so far, per question id.
use vstd::prelude::*;
use vstd::string::*;
use crate::idset::{find_text, lemma_push_to_set, toggle_member, toggled};
use crate::model::{copy_strings, texts};
use crate::text::str_equal;

verus! {

broadcast use vstd::seq_lib::group_seq_properties;

/// The question ids of the entries.
pub open spec fn entry_keys(e: Seq<(String, Vec<String>)>) -> Seq<Seq<char>> {
    e.map_values(|x: (String, Vec<String>)| x.0@)
}

/// The options chosen for a question: none when the question has no entry.
pub open spec fn selection(m: Map<Seq<char>, Set<Seq<char>>>, question_id: Seq<char>) -> Set<
    Seq<char>,
> {
    if m.dom().contains(question_id) {
        m[question_id]
    } else {
        Set::empty()
    }
}

/// The questions for which at least one option is chosen.
pub open spec fn answered_questions(m: Map<Seq<char>, Set<Seq<char>>>) -> Set<Seq<char>> {
    m.dom().filter(|k: Seq<char>| m[k].len() > 0)
}

/// For each question id, the set of option ids chosen for it.
pub struct Selections {
    entries: Vec<(String, Vec<String>)>,
}

impl Selections {
    #[verifier::type_invariant]
    spec fn wf(self) -> bool {
        &&& entry_keys(self.entries@).no_duplicates()
        &&& forall|i: int|
            0 <= i < self.entries@.len() ==> texts((#[trigger] self.entries@[i]).1@).no_duplicates()
    }
}

impl View for Selections {
    type V = Map<Seq<char>, Set<Seq<char>>>;

    closed spec fn view(&self) -> Map<Seq<char>, Set<Seq<char>>> {
        Map::new(
            |k: Seq<char>| entry_keys(self.entries@).contains(k),
            |k: Seq<char>|
                texts(self.entries@[entry_keys(self.entries@).index_of(k)].1@).to_set(),
        )
    }
}

impl Selections {
    proof fn lemma_view_entry(self, i: int)
        requires
            self.wf(),
            0 <= i < self.entries@.len(),
        ensures
            self@.dom().contains(self.entries@[i].0@),
            self@[self.entries@[i].0@] == texts(self.entries@[i].1@).to_set(),
    {
        let keys = entry_keys(self.entries@);
        assert(keys[i] == self.entries@[i].0@);
        assert(keys.contains(keys[i]));
        let j = keys.index_of(keys[i]);
        assert(keys[j] == keys[i]);
    }

    /// No option chosen for any question.
    pub fn new() -> (s: Selections)
        ensures
            s@ == Map::<Seq<char>, Set<Seq<char>>>::empty(),
    {
        let s = Selections { entries: Vec::new() };
        assert(s@ =~= Map::<Seq<char>, Set<Seq<char>>>::empty());
        s
    }

    fn find(&self, question_id: &str) -> (r: Option<usize>)
        ensures
            r is None <==> !self@.dom().contains(question_id@),
            r matches Some(k) ==> k < self.entries@.len() && self.entries@[k as int].0@
                == question_id@,
    {
        let mut i: usize = 0;
        while i < self.entries.len()
            invariant
                i <= self.entries@.len(),
                forall|j: int| 0 <= j < i ==> (#[trigger] self.entries@[j]).0@ != question_id@,
            decreases self.entries@.len() - i,
        {
            if str_equal(self.entries[i].0.as_str(), question_id) {
                assert(entry_keys(self.entries@)[i as int] == question_id@);
                return Some(i);
            }
            i = i + 1;
        }
        assert(!entry_keys(self.entries@).contains(question_id@)) by {
            assert forall|j: int| 0 <= j < self.entries@.len() implies entry_keys(
                self.entries@,
            )[j] != question_id@ by {
                assert(self.entries@[j].0@ != question_id@);
            }
        }
        None
    }

    /// The option ids chosen for a question, each once.
    pub fn selected_for(&self, question_id: &str) -> (r: Vec<String>)
        ensures
            texts(r@).no_duplicates(),
            texts(r@).to_set() == selection(self@, question_id@),
    {
        proof {
            use_type_invariant(self);
        }
        match self.find(question_id) {
            Some(k) => {
                let r = copy_strings(&self.entries[k].1);
                proof {
                    self.lemma_view_entry(k as int);
                }
                r
            },
            None => {
                let r: Vec<String> = Vec::new();
                assert(texts(r@).to_set() =~= Set::empty());
                r
            },
        }
    }

    /// Whether the option is chosen for the question.
    pub fn is_selected(&self, question_id: &str, option_id: &str) -> (b: bool)
        ensures
            b == selection(self@, question_id@).contains(option_id@),
    {
        proof {
            use_type_invariant(self);
        }
        match self.find(question_id) {
            Some(k) => {
                proof {
                    self.lemma_view_entry(k as int);
                }
                crate::idset::contains_text(&self.entries[k].1, option_id)
            },
            None => false,
        }
    }

    /// Chooses the option for the question when it was not chosen, and un-chooses it
    /// when it was. Other questions keep their choices.
    pub fn toggle(&mut self, question_id: &str, option_id: &str)
        ensures
            final(self)@ == old(self)@.insert(
                question_id@,
                toggled(selection(old(self)@, question_id@), option_id@),
            ),
    {
        proof {
            use_type_invariant(&*self);
        }
        let ghost before = *self;
        let found = self.find(question_id);
        let mut entries: Vec<(String, Vec<String>)> = Vec::new();
        std::mem::swap(&mut entries, &mut self.entries);
        assert(entries@ == before.entries@);
        match found {
            Some(k) => {
                let mut ids = copy_strings(&entries[k].1);
                proof {
                    before.lemma_view_entry(k as int);
                }
                toggle_member(&mut ids, option_id);
                let key = entries[k].0.clone();
                entries.set(k, (key, ids));
                assert(entry_keys(entries@) =~= entry_keys(before.entries@));
                self.entries = entries;
                proof {
                    assert forall|key: Seq<char>|
                        #![trigger self@.dom().contains(key)]
                        self@.dom().contains(key) <==> before@.insert(
                            question_id@,
                            toggled(selection(before@, question_id@), option_id@),
                        ).dom().contains(key) by {}
                    assert forall|key: Seq<char>| self@.dom().contains(key) implies self@[key]
                        == before@.insert(
                        question_id@,
                        toggled(selection(before@, question_id@), option_id@),
                    )[key] by {
                        let j = entry_keys(self.entries@).index_of(key);
                        assert(entry_keys(self.entries@)[j] == key);
                        self.lemma_view_entry(j);
                        before.lemma_view_entry(k as int);
                        if j != k {
                            before.lemma_view_entry(j);
                            assert(self.entries@[j] == before.entries@[j]);
                            assert(entry_keys(before.entries@)[j] != entry_keys(
                                before.entries@,
                            )[k as int]);
                            assert(key != question_id@);
                        } else {
                            assert(key == question_id@);
                            assert(self.entries@[j].1 == ids);
                        }
                    }
                    assert(self@ =~= before@.insert(
                        question_id@,
                        toggled(selection(before@, question_id@), option_id@),
                    ));
                }
            },
            None => {
                let mut ids: Vec<String> = Vec::new();
                ids.push(String::from_str(option_id));
                proof {
                    lemma_push_to_set(texts(Seq::<String>::empty()), option_id@);
                    assert(texts(ids@) =~= texts(Seq::<String>::empty()).push(option_id@));
                    assert(texts(Seq::<String>::empty()).to_set() =~= Set::empty());
                }
                entries.push((String::from_str(question_id), ids));
                assert(entry_keys(entries@) =~= entry_keys(before.entries@).push(question_id@));
                self.entries = entries;
                proof {
                    let n = before.entries@.len() as int;
                    self.lemma_view_entry(n);
                    assert forall|key: Seq<char>| self@.dom().contains(key) implies self@[key]
                        == before@.insert(
                        question_id@,
                        toggled(selection(before@, question_id@), option_id@),
                    )[key] by {
                        let j = entry_keys(self.entries@).index_of(key);
                        assert(entry_keys(self.entries@)[j] == key);
                        self.lemma_view_entry(j);
                        if j != n {
                            before.lemma_view_entry(j);
                        }
                    }
                    assert(self@ =~= before@.insert(
                        question_id@,
                        toggled(selection(before@, question_id@), option_id@),
                    ));
                }
            },
        }
    }

    /// Makes `option_ids` the options chosen for the question. Other questions keep
    /// their choices.
    pub fn set_selection(&mut self, question_id: &str, option_ids: Vec<String>)
        requires
            texts(option_ids@).no_duplicates(),
        ensures
            final(self)@ == old(self)@.insert(question_id@, texts(option_ids@).to_set()),
    {
        proof {
            use_type_invariant(&*self);
        }
        let ghost before = *self;
        let ghost target = before@.insert(question_id@, texts(option_ids@).to_set());
        let found = self.find(question_id);
        let mut entries: Vec<(String, Vec<String>)> = Vec::new();
        std::mem::swap(&mut entries, &mut self.entries);
        assert(entries@ == before.entries@);
        let ghost n = before.entries@.len() as int;
        let ghost slot: int = match found {
            Some(k) => k as int,
            None => n,
        };
        match found {
            Some(k) => {
                let key = entries[k].0.clone();
                entries.set(k, (key, option_ids));
                assert(entry_keys(entries@) =~= entry_keys(before.entries@));
            },
            None => {
                entries.push((String::from_str(question_id), option_ids));
                assert(entry_keys(entries@) =~= entry_keys(before.entries@).push(question_id@));
            },
        }
        self.entries = entries;
        proof {
            self.lemma_view_entry(slot);
            assert forall|key: Seq<char>| self@.dom().contains(key) implies self@[key]
                == target[key] by {
                let j = entry_keys(self.entries@).index_of(key);
                assert(entry_keys(self.entries@)[j] == key);
                self.lemma_view_entry(j);
                if j != slot {
                    before.lemma_view_entry(j);
                    assert(self.entries@[j] == before.entries@[j]);
                    assert(entry_keys(self.entries@)[j] != entry_keys(self.entries@)[slot]);
                }
            }
            assert forall|key: Seq<char>|
                #![trigger self@.dom().contains(key)]
                self@.dom().contains(key) <==> target.dom().contains(key) by {
                if before@.dom().contains(key) {
                    let j = entry_keys(before.entries@).index_of(key);
                    assert(entry_keys(before.entries@)[j] == key);
                    assert(entry_keys(self.entries@)[j] == key);
                }
            }
            assert(self@ =~= target);
        }
    }

    /// How many questions have at least one option chosen.
    pub fn answered_count(&self) -> (n: usize)
        ensures
            n == answered_questions(self@).len(),
    {
        proof {
            use_type_invariant(self);
        }
        let ghost keys = entry_keys(self.entries@);
        let ghost mut answered: Seq<Seq<char>> = Seq::empty();
        let mut count: usize = 0;
        let mut i: usize = 0;
        while i < self.entries.len()
            invariant
                self.wf(),
                keys == entry_keys(self.entries@),
                i <= self.entries@.len(),
                count == answered.len(),
                count <= i,
                answered.no_duplicates(),
                forall|x: Seq<char>|
                    answered.contains(x) <==> exists|j: int|
                        0 <= j < i && keys[j] == x && (#[trigger] self.entries@[j]).1@.len() > 0,
            decreases self.entries@.len() - i,
        {
            if self.entries[i].1.len() > 0 {
                proof {
                    assert(!answered.contains(keys[i as int])) by {
                        if answered.contains(keys[i as int]) {
                            let j = choose|j: int|
                                0 <= j < i && keys[j] == keys[i as int] && (
                                #[trigger] self.entries@[j]).1@.len() > 0;
                        }
                    }
                    lemma_push_to_set(answered, keys[i as int]);
                    let old_answered = answered;
                    answered = answered.push(keys[i as int]);
                    assert forall|x: Seq<char>|
                        answered.contains(x) <==> exists|j: int|
                            0 <= j < i + 1 && keys[j] == x && (
                            #[trigger] self.entries@[j]).1@.len() > 0 by {
                        if answered.contains(x) && x != keys[i as int] {
                            let k = choose|k: int| 0 <= k < answered.len() && answered[k] == x;
                            assert(old_answered[k] == x);
                        }
                        if exists|j: int|
                            0 <= j < i + 1 && keys[j] == x && (
                            #[trigger] self.entries@[j]).1@.len() > 0 {
                            let j = choose|j: int|
                                0 <= j < i + 1 && keys[j] == x && (
                                #[trigger] self.entries@[j]).1@.len() > 0;
                            if j < i {
                                assert(old_answered.contains(x));
                                let k = choose|k: int|
                                    0 <= k < old_answered.len() && old_answered[k] == x;
                                assert(answered[k] == x);
                            } else {
                                assert(answered[old_answered.len() as int] == x);
                            }
                        }
                    }
                }
                count = count + 1;
            }
            i = i + 1;
        }
        proof {
            answered.unique_seq_to_set();
            assert forall|x: Seq<char>| answered.to_set().contains(x) <==> answered_questions(
                self@,
            ).contains(x) by {
                if answered.contains(x) {
                    let j = choose|j: int|
                        0 <= j < self.entries@.len() && keys[j] == x && (
                        #[trigger] self.entries@[j]).1@.len() > 0;
                    self.lemma_view_entry(j);
                    texts(self.entries@[j].1@).unique_seq_to_set();
                }
                if answered_questions(self@).contains(x) {
                    let j = keys.index_of(x);
                    assert(keys[j] == x);
                    self.lemma_view_entry(j);
                    texts(self.entries@[j].1@).unique_seq_to_set();
                    assert(self.entries@[j].1@.len() > 0);
                }
            }
            assert(answered.to_set() =~= answered_questions(self@));
        }
        count
    }
}


/// Choosing the same option twice for a question restores that question's choices.
pub proof fn law_toggle_twice_restores(
    m: Map<Seq<char>, Set<Seq<char>>>,
    question_id: Seq<char>,
    option_id: Seq<char>,
)
    ensures
        ({
            let m1 = m.insert(question_id, toggled(selection(m, question_id), option_id));
            let m2 = m1.insert(question_id, toggled(selection(m1, question_id), option_id));
            selection(m2, question_id) == selection(m, question_id)
        }),
{
    let s = selection(m, question_id);
    let t = toggled(s, option_id);
    if s.contains(option_id) {
        assert(toggled(t, option_id) =~= s);
    } else {
        assert(toggled(t, option_id) =~= s);
    }
}

/// Choosing an option for one question leaves the choices for every other question as they were.
pub proof fn law_toggle_leaves_other_questions(
    m: Map<Seq<char>, Set<Seq<char>>>,
    question_id: Seq<char>,
    option_id: Seq<char>,
    other: Seq<char>,
)
    requires
        other != question_id,
    ensures
        selection(m.insert(question_id, toggled(selection(m, question_id), option_id)), other)
            == selection(m, other),
{
}

/// After choosing an option that was not chosen, the question counts as answered.
pub proof fn law_choosing_answers(
    m: Map<Seq<char>, Set<Seq<char>>>,
    question_id: Seq<char>,
    option_id: Seq<char>,
)
    requires
        selection(m, question_id).finite(),
        !selection(m, question_id).contains(option_id),
    ensures
        answered_questions(
            m.insert(question_id, toggled(selection(m, question_id), option_id)),
        ).contains(question_id),
{
    let s = selection(m, question_id);
    let m1 = m.insert(question_id, toggled(s, option_id));
    assert(m1[question_id].contains(option_id));
    assert(m1[question_id].len() > 0) by {
        broadcast use vstd::set::group_set_axioms;

    }
}

} // verus!
