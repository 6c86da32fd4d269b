//! Lists of distinct texts used as sets (of option ids, of selected values).
use vstd::prelude::*;
use vstd::string::*;
use crate::model::texts;
use crate::text::str_equal;

verus! {

broadcast use vstd::seq_lib::group_seq_properties, vstd::set_lib::group_set_properties;

/// How many entries of `s` occur in `c`.
pub open spec fn count_in(s: Seq<Seq<char>>, c: Seq<Seq<char>>) -> nat
    decreases s.len(),
{
    if s.len() == 0 {
        0
    } else {
        count_in(s.drop_last(), c) + if c.contains(s.last()) {
            1nat
        } else {
            0nat
        }
    }
}

/// How many entries of `s` do not occur in `c`.
pub open spec fn count_not_in(s: Seq<Seq<char>>, c: Seq<Seq<char>>) -> nat
    decreases s.len(),
{
    if s.len() == 0 {
        0
    } else {
        count_not_in(s.drop_last(), c) + if c.contains(s.last()) {
            0nat
        } else {
            1nat
        }
    }
}

/// For a list without repeats, the counts are the sizes of the intersection and
/// the difference of the two sets.
pub proof fn lemma_counts_are_set_sizes(s: Seq<Seq<char>>, c: Seq<Seq<char>>)
    requires
        s.no_duplicates(),
    ensures
        count_in(s, c) == s.to_set().intersect(c.to_set()).len(),
        count_not_in(s, c) == s.to_set().difference(c.to_set()).len(),
        count_in(s, c) + count_not_in(s, c) == s.len(),
    decreases s.len(),
{
    broadcast use vstd::seq_lib::seq_to_set_is_finite, vstd::set::group_set_axioms;

    if s.len() == 0 {
        assert(s.to_set().intersect(c.to_set()) =~= Set::empty());
        assert(s.to_set().difference(c.to_set()) =~= Set::empty());
    } else {
        let t = s.drop_last();
        let x = s.last();
        assert(t.no_duplicates());
        lemma_counts_are_set_sizes(t, c);
        assert(s =~= t.push(x));
        t.lemma_push_to_set_commute(x);
        assert(!t.contains(x)) by {
            if t.contains(x) {
                let k = choose|k: int| 0 <= k < t.len() && t[k] == x;
                assert(s[k] == s[s.len() - 1]);
            }
        }
        assert(!t.to_set().contains(x));
        if c.contains(x) {
            assert(c.to_set().contains(x));
            assert(s.to_set().intersect(c.to_set()) =~= t.to_set().intersect(c.to_set()).insert(x));
            assert(s.to_set().difference(c.to_set()) =~= t.to_set().difference(c.to_set()));
        } else {
            assert(!c.to_set().contains(x));
            assert(s.to_set().intersect(c.to_set()) =~= t.to_set().intersect(c.to_set()));
            assert(s.to_set().difference(c.to_set()) =~= t.to_set().difference(c.to_set()).insert(
                x,
            ));
        }
    }
}

/// Whether a list of strings holds the given text.
pub fn contains_text(v: &Vec<String>, s: &str) -> (b: bool)
    ensures
        b == texts(v@).contains(s@),
{
    let mut i: usize = 0;
    while i < v.len()
        invariant
            i <= v@.len(),
            forall|j: int| 0 <= j < i ==> (#[trigger] v@[j])@ != s@,
        decreases v@.len() - i,
    {
        if str_equal(v[i].as_str(), s) {
            assert(texts(v@)[i as int] == s@);
            return true;
        }
        i = i + 1;
    }
    assert forall|j: int| 0 <= j < texts(v@).len() implies texts(v@)[j] != s@ by {
        assert(v@[j]@ != s@);
    }
    false
}

/// Counts the entries of `s` that occur in `c` and those that do not.
pub fn count_members(s: &Vec<String>, c: &Vec<String>) -> (r: (usize, usize))
    ensures
        r.0 == count_in(texts(s@), texts(c@)),
        r.1 == count_not_in(texts(s@), texts(c@)),
{
    let ghost ss = texts(s@);
    let ghost cc = texts(c@);
    let mut inside: usize = 0;
    let mut outside: usize = 0;
    let mut i: usize = 0;
    while i < s.len()
        invariant
            i <= s@.len(),
            ss == texts(s@),
            cc == texts(c@),
            inside == count_in(ss.take(i as int), cc),
            outside == count_not_in(ss.take(i as int), cc),
            inside + outside == i,
        decreases s@.len() - i,
    {
        assert(ss.take(i + 1).drop_last() =~= ss.take(i as int));
        assert(ss.take(i + 1).last() == s@[i as int]@);
        if contains_text(c, s[i].as_str()) {
            inside = inside + 1;
        } else {
            outside = outside + 1;
        }
        i = i + 1;
    }
    assert(ss.take(s@.len() as int) =~= ss);
    (inside, outside)
}


/// A set with `x` added when absent and taken out when present.
pub open spec fn toggled(s: Set<Seq<char>>, x: Seq<char>) -> Set<Seq<char>> {
    if s.contains(x) {
        s.remove(x)
    } else {
        s.insert(x)
    }
}

/// The position of the text in a list of strings, if it is there.
pub fn find_text(v: &Vec<String>, s: &str) -> (r: Option<usize>)
    ensures
        r is None <==> !texts(v@).contains(s@),
        r matches Some(k) ==> k < v@.len() && v@[k as int]@ == s@,
{
    let mut i: usize = 0;
    while i < v.len()
        invariant
            i <= v@.len(),
            forall|j: int| 0 <= j < i ==> (#[trigger] v@[j])@ != s@,
        decreases v@.len() - i,
    {
        if str_equal(v[i].as_str(), s) {
            assert(texts(v@)[i as int] == s@);
            return Some(i);
        }
        i = i + 1;
    }
    assert forall|j: int| 0 <= j < texts(v@).len() implies texts(v@)[j] != s@ by {
        assert(v@[j]@ != s@);
    }
    None
}

/// Taking one entry out of a list without repeats takes it out of its set.
pub proof fn lemma_remove_from_set(s: Seq<Seq<char>>, k: int)
    requires
        s.no_duplicates(),
        0 <= k < s.len(),
    ensures
        s.remove(k).no_duplicates(),
        s.remove(k).to_set() == s.to_set().remove(s[k]),
{
    let r = s.remove(k);
    assert forall|i: int, j: int| 0 <= i < r.len() && 0 <= j < r.len() && i != j implies r[i]
        != r[j] by {
        let a = if i < k { i } else { i + 1 };
        let b = if j < k { j } else { j + 1 };
        assert(r[i] == s[a] && r[j] == s[b]);
    }
    assert forall|x: Seq<char>| r.to_set().contains(x) <==> s.to_set().remove(s[k]).contains(x) by {
        if r.contains(x) {
            let i = choose|i: int| 0 <= i < r.len() && r[i] == x;
            let a = if i < k { i } else { i + 1 };
            assert(s[a] == x);
            assert(a != k);
        }
        if s.contains(x) && x != s[k] {
            let a = choose|a: int| 0 <= a < s.len() && s[a] == x;
            let i = if a < k { a } else { a - 1 };
            assert(r[i] == x);
        }
    }
    assert(r.to_set() =~= s.to_set().remove(s[k]));
}

/// Adding an absent entry to a list without repeats adds it to its set.
pub proof fn lemma_push_to_set(s: Seq<Seq<char>>, x: Seq<char>)
    requires
        s.no_duplicates(),
        !s.contains(x),
    ensures
        s.push(x).no_duplicates(),
        s.push(x).to_set() == s.to_set().insert(x),
{
    let r = s.push(x);
    assert forall|i: int, j: int| 0 <= i < r.len() && 0 <= j < r.len() && i != j implies r[i]
        != r[j] by {
        if i < s.len() && j < s.len() {
            assert(r[i] == s[i] && r[j] == s[j]);
        } else if i < s.len() {
            assert(r[i] == s[i]);
        } else if j < s.len() {
            assert(r[j] == s[j]);
        }
    }
    s.lemma_push_to_set_commute(x);
}

/// Adds `value` to the set when absent, takes it out when present.
pub fn toggle_member(set: &mut Vec<String>, value: &str)
    requires
        texts(old(set)@).no_duplicates(),
    ensures
        texts(final(set)@).no_duplicates(),
        texts(final(set)@).to_set() == toggled(texts(old(set)@).to_set(), value@),
{
    let ghost before = texts(set@);
    match find_text(set, value) {
        Some(k) => {
            set.remove(k);
            proof {
                assert(texts(set@) =~= before.remove(k as int));
                lemma_remove_from_set(before, k as int);
                assert(before.to_set().contains(value@)) by {
                    assert(before[k as int] == value@);
                }
            }
        },
        None => {
            set.push(String::from_str(value));
            proof {
                assert(texts(set@) =~= before.push(value@));
                lemma_push_to_set(before, value@);
                assert(!before.to_set().contains(value@));
            }
        },
    }
}

} // verus!
