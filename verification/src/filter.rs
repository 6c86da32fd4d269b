//! Choosing which questions to practise: filters on topic and study location,
//! by a set of chosen values or by a regular expression, and the question count.
use vstd::prelude::*;
use vstd::string::*;
use regex::Regex;
use crate::idset::contains_text;
use crate::model::{texts, QuestionView, QuizQuestion};
use crate::topics::{field_value, MetadataField};
use crate::validate::question_views;

verus! {

broadcast use vstd::seq_lib::group_seq_properties;

#[verifier::external_type_specification]
#[verifier::external_body]
pub struct ExRegex(Regex);

/// Whether `regex::Regex::new` accepts the pattern.
pub uninterp spec fn regex_compiles(pattern: Seq<char>) -> bool;

/// Whether the regex compiled from `pattern` matches somewhere in `haystack`
/// (`regex::Regex::is_match`).
pub uninterp spec fn regex_matches(pattern: Seq<char>, haystack: Seq<char>) -> bool;

/// A regular expression compiled from a pattern, kept with its pattern.
pub struct TextFilter {
    pattern: String,
    regex: Regex,
}

impl View for TextFilter {
    type V = Seq<char>;

    closed spec fn view(&self) -> Seq<char> {
        self.pattern@
    }
}

/// Compiles `pattern` with `regex::Regex::new`, keeping the pattern beside the
/// compiled regex. Claimed: the call succeeds exactly when `regex_compiles` holds of
/// the pattern (the crate refuses invalid patterns and those over its size limit,
/// a function of the pattern alone), and the filter's pattern is `pattern`.
#[verifier::external_body]
fn compile_filter(pattern: &str) -> (r: Option<TextFilter>)
    ensures
        r is Some <==> regex_compiles(pattern@),
        r matches Some(f) ==> f@ == pattern@,
{
    match Regex::new(pattern) {
        Ok(regex) => Some(TextFilter { pattern: pattern.to_string(), regex }),
        Err(_) => None,
    }
}

/// `regex::Regex::is_match` with the filter's compiled regex. Claimed: the answer is
/// `regex_matches` of the filter's pattern and the haystack; the crate documents
/// it as true exactly when the regex matches anywhere in the haystack.
#[verifier::external_body]
fn regex_is_match(filter: &TextFilter, haystack: &str) -> (b: bool)
    ensures
        b == regex_matches(filter@, haystack@),
{
    filter.regex.is_match(haystack)
}

/// Whether the filter's regular expression matches somewhere in `text`.
pub fn filter_matches(filter: &TextFilter, text: &str) -> (b: bool)
    ensures
        b == regex_matches(filter@, text@),
{
    regex_is_match(filter, text)
}

/// What a typed-in filter pattern gives: no regex for an empty input, else the
/// compiled regex when the pattern is valid. The flag says whether the input is
/// acceptable (empty or valid).
pub fn parse_filter_pattern(input: &str) -> (r: (Option<TextFilter>, bool))
    ensures
        r.1 == (input@.len() == 0 || regex_compiles(input@)),
        r.0 is Some <==> (input@.len() > 0 && regex_compiles(input@)),
        r.0 matches Some(f) ==> f@ == input@,
{
    if input.unicode_len() == 0 {
        (None, true)
    } else {
        match compile_filter(input) {
            Some(f) => (Some(f), true),
            None => (None, false),
        }
    }
}

/// A filter on one metadata field: a regex when one is active, else the set of
/// chosen values among all the values of the field.
pub struct ValueFilter {
    pub regex: Option<TextFilter>,
    pub selected: Vec<String>,
    pub all_values: Vec<String>,
}

/// The pattern of an optional regex.
pub open spec fn regex_pattern(r: Option<TextFilter>) -> Option<Seq<char>> {
    match r {
        Some(f) => Some(f@),
        None => None,
    }
}

/// Whether a question's value of the field passes the filter: with a regex, the
/// value must be present and match; otherwise every value passes when all values
/// are chosen, and a question without a value always passes.
pub open spec fn value_passes(value: Option<Seq<char>>, f: ValueFilter) -> bool {
    match regex_pattern(f.regex) {
        Some(p) => value matches Some(t) && regex_matches(p, t),
        None => {
            ||| f.selected@.len() == f.all_values@.len()
            ||| match value {
                Some(t) => texts(f.selected@).contains(t),
                None => true,
            }
        },
    }
}

/// Whether a question passes both the topic and the location filter.
pub open spec fn question_passes(q: QuestionView, topic: ValueFilter, location: ValueFilter) -> bool {
    value_passes(field_value(q, MetadataField::Topic), topic) && value_passes(
        field_value(q, MetadataField::StudyLocation),
        location,
    )
}

/// The questions that pass both filters, in order.
pub open spec fn passing_questions(
    qs: Seq<QuestionView>,
    topic: ValueFilter,
    location: ValueFilter,
) -> Seq<QuestionView>
    decreases qs.len(),
{
    if qs.len() == 0 {
        Seq::empty()
    } else {
        let prev = passing_questions(qs.drop_last(), topic, location);
        if question_passes(qs.last(), topic, location) {
            prev.push(qs.last())
        } else {
            prev
        }
    }
}

fn value_passes_exec(value: &Option<String>, f: &ValueFilter) -> (b: bool)
    ensures
        b == value_passes(
            match value {
                Some(s) => Some(s@),
                None => None,
            },
            *f,
        ),
{
    match &f.regex {
        Some(re) => match value {
            Some(t) => filter_matches(re, t.as_str()),
            None => false,
        },
        None => {
            f.selected.len() == f.all_values.len() || match value {
                Some(t) => contains_text(&f.selected, t.as_str()),
                None => true,
            }
        },
    }
}

/// The questions that pass both the topic filter and the location filter, in order.
pub fn filter_questions(
    questions: &Vec<QuizQuestion>,
    topic: &ValueFilter,
    location: &ValueFilter,
) -> (r: Vec<QuizQuestion>)
    ensures
        question_views(r@) == passing_questions(question_views(questions@), *topic, *location),
{
    let ghost qs = question_views(questions@);
    let mut r: Vec<QuizQuestion> = Vec::new();
    let mut i: usize = 0;
    while i < questions.len()
        invariant
            qs == question_views(questions@),
            i <= questions@.len(),
            question_views(r@) == passing_questions(qs.take(i as int), *topic, *location),
        decreases questions@.len() - i,
    {
        let q = &questions[i];
        assert(qs.take(i + 1).drop_last() =~= qs.take(i as int));
        assert(qs.take(i + 1).last() == q@);
        let topic_ok = value_passes_exec(&q.metadata.topic, topic);
        let location_ok = value_passes_exec(&q.metadata.study_location, location);
        if topic_ok && location_ok {
            r.push(q.copy());
            assert(question_views(r@) =~= passing_questions(qs.take(i as int), *topic, *location).push(
                q@,
            ));
        }
        i = i + 1;
    }
    assert(qs.take(questions@.len() as int) =~= qs);
    r
}

/// The values that a regex matches, in order.
pub open spec fn matching_values(values: Seq<Seq<char>>, pattern: Seq<char>) -> Seq<Seq<char>>
    decreases values.len(),
{
    if values.len() == 0 {
        Seq::empty()
    } else {
        let prev = matching_values(values.drop_last(), pattern);
        if regex_matches(pattern, values.last()) {
            prev.push(values.last())
        } else {
            prev
        }
    }
}

/// The values highlighted as matched: those the active regex matches, none without one.
pub fn matched_values(values: &Vec<String>, regex: &Option<TextFilter>) -> (r: Vec<String>)
    ensures
        texts(r@) == match regex_pattern(*regex) {
            Some(p) => matching_values(texts(values@), p),
            None => Seq::empty(),
        },
{
    let mut r: Vec<String> = Vec::new();
    match regex {
        None => {
            assert(texts(r@) =~= Seq::<Seq<char>>::empty());
            r
        },
        Some(re) => {
            let ghost vs = texts(values@);
            let mut i: usize = 0;
            while i < values.len()
                invariant
                    vs == texts(values@),
                    i <= values@.len(),
                    texts(r@) == matching_values(vs.take(i as int), re@),
                decreases values@.len() - i,
            {
                assert(vs.take(i + 1).drop_last() =~= vs.take(i as int));
                assert(vs.take(i + 1).last() == values@[i as int]@);
                if filter_matches(re, values[i].as_str()) {
                    r.push(values[i].clone());
                    assert(texts(r@) =~= matching_values(vs.take(i as int), re@).push(
                        values@[i as int]@,
                    ));
                }
                i = i + 1;
            }
            assert(vs.take(values@.len() as int) =~= vs);
            r
        },
    }
}

/// A number kept between one and `max` (which is at least one).
pub open spec fn clamp_count(v: nat, max: nat) -> nat {
    if v < 1 {
        1
    } else if v > max {
        max
    } else {
        v
    }
}

/// The number of questions to attempt: nothing when no question passes the filters,
/// else the requested number kept between one and the number available.
pub fn effective_question_count(requested: usize, available: usize) -> (n: usize)
    ensures
        n == if available == 0 {
            0
        } else {
            clamp_count(requested as nat, available as nat)
        },
{
    if available == 0 {
        0
    } else if requested < 1 {
        1
    } else if requested > available {
        available
    } else {
        requested
    }
}

/// The value of a string of decimal digits.
pub open spec fn digits_value(d: Seq<char>) -> nat
    decreases d.len(),
{
    if d.len() == 0 {
        0
    } else {
        digits_value(d.drop_last()) * 10 + ((d.last() as int) - ('0' as int)) as nat
    }
}

/// Whether every character is an ASCII digit.
pub open spec fn all_digits(d: Seq<char>) -> bool {
    forall|i: int| 0 <= i < d.len() ==> '0' <= #[trigger] d[i] <= '9'
}

/// The digits of a number as `usize::from_str` reads it: an optional leading `+`
/// before the digits.
pub open spec fn digit_part(s: Seq<char>) -> Seq<char> {
    if s.len() > 0 && s[0] == '+' {
        s.drop_first()
    } else {
        s
    }
}

/// What `usize::from_str` gives for a text: the number written in decimal, with an
/// optional leading `+`; nothing for an empty text, a stray character, or a value
/// too large for `usize`.
pub open spec fn spec_parse_usize(s: Seq<char>) -> Option<nat> {
    let d = digit_part(s);
    if d.len() > 0 && all_digits(d) && digits_value(d) <= usize::MAX {
        Some(digits_value(d))
    } else {
        None
    }
}

/// A longer run of digits is worth at least as much as its start.
pub proof fn lemma_digits_value_grows(d: Seq<char>, k: int)
    requires
        0 <= k <= d.len(),
        all_digits(d),
    ensures
        digits_value(d.take(k)) <= digits_value(d),
    decreases d.len() - k,
{
    if k < d.len() {
        lemma_digits_value_grows(d, k + 1);
        assert(d.take(k + 1).drop_last() =~= d.take(k));
        assert('0' <= d[k] <= '9');
    }
}

/// Reads a decimal number as `usize::from_str` does.
pub fn parse_usize(s: &str) -> (r: Option<usize>)
    ensures
        r matches Some(v) ==> spec_parse_usize(s@) == Some(v as nat),
        r is None ==> spec_parse_usize(s@) is None,
{
    let n = s.unicode_len();
    let mut start: usize = 0;
    if n > 0 && s.get_char(0) == '+' {
        start = 1;
    }
    let ghost d = digit_part(s@);
    assert(d =~= s@.skip(start as int));
    if start >= n {
        return None;
    }
    let mut value: usize = 0;
    let mut i: usize = start;
    while i < n
        invariant
            n == s@.len(),
            start <= i <= n,
            d == s@.skip(start as int),
            d == digit_part(s@),
            all_digits(d.take(i - start)),
            value == digits_value(d.take(i - start)),
        decreases n - i,
    {
        let c = s.get_char(i);
        let ghost k = (i - start) as int;
        assert(d[k] == c);
        assert(d.take(k + 1).drop_last() =~= d.take(k));
        if c < '0' || c > '9' {
            assert(!all_digits(d));
            return None;
        }
        let digit: usize = ((c as u32) - ('0' as u32)) as usize;
        let next = match value.checked_mul(10) {
            Some(t) => t.checked_add(digit),
            None => None,
        };
        match next {
            Some(v) => {
                value = v;
            },
            None => {
                proof {
                    assert(all_digits(d.take(k + 1)));
                    if all_digits(d) {
                        lemma_digits_value_grows(d, k + 1);
                    }
                }
                return None;
            },
        }
        i = i + 1;
    }
    assert(d.take(n - start) =~= d);
    Some(value)
}

/// The number of questions asked for in a typed-in count: the number read from the
/// text, or all available when it cannot be read, kept between one and the number
/// available (at least one).
pub fn requested_question_count(input: &str, available: usize) -> (n: usize)
    ensures
        n == clamp_count(
            match spec_parse_usize(input@) {
                Some(v) => v,
                None => available as nat,
            },
            if available >= 1 {
                available as nat
            } else {
                1
            },
        ),
{
    let v = match parse_usize(input) {
        Some(v) => v,
        None => available,
    };
    let max = if available >= 1 {
        available
    } else {
        1
    };
    if v < 1 {
        1
    } else if v > max {
        max
    } else {
        v
    }
}

/// The style of a value chip: plain without an active regex, else marked by
/// whether the regex matches the value.
pub fn chip_class(regex_active: bool, matched: bool) -> (s: &'static str)
    ensures
        s@ == if !regex_active {
            "filter-chip"@
        } else if matched {
            "filter-chip regex-match"@
        } else {
            "filter-chip regex-no-match"@
        },
{
    if regex_active {
        if matched {
            "filter-chip regex-match"
        } else {
            "filter-chip regex-no-match"
        }
    } else {
        "filter-chip"
    }
}


/// The questions kept by the filters are questions of the list that pass both filters,
/// and every question of the list that passes both is kept.
pub proof fn lemma_passing_members(qs: Seq<QuestionView>, topic: ValueFilter, location: ValueFilter)
    ensures
        forall|q: QuestionView|
            passing_questions(qs, topic, location).contains(q) <==> (qs.contains(q)
                && question_passes(q, topic, location)),
    decreases qs.len(),
{
    if qs.len() > 0 {
        let init = qs.drop_last();
        lemma_passing_members(init, topic, location);
        assert(qs =~= init.push(qs.last()));
        let prev = passing_questions(init, topic, location);
        let x = qs.last();
        assert forall|q: QuestionView|
            passing_questions(qs, topic, location).contains(q) <==> (qs.contains(q)
                && question_passes(q, topic, location)) by {
            let res = passing_questions(qs, topic, location);
            if res.contains(q) {
                if prev.contains(q) {
                    assert(init.contains(q));
                    let k = choose|k: int| 0 <= k < init.len() && init[k] == q;
                    assert(qs[k] == q);
                } else {
                    assert(question_passes(x, topic, location));
                    assert(res == prev.push(x));
                    let k = choose|k: int| 0 <= k < res.len() && res[k] == q;
                    assert(k == prev.len());
                    assert(qs[qs.len() - 1] == q);
                }
            }
            if qs.contains(q) && question_passes(q, topic, location) {
                let k = choose|k: int| 0 <= k < qs.len() && qs[k] == q;
                if k < init.len() {
                    assert(init[k] == q);
                    assert(init.contains(q));
                    assert(prev.contains(q));
                    let j = choose|j: int| 0 <= j < prev.len() && prev[j] == q;
                    if question_passes(x, topic, location) {
                        assert(res[j] == q);
                    } else {
                        assert(res[j] == q);
                    }
                } else {
                    assert(q == x);
                    assert(res == prev.push(x));
                    assert(res[prev.len() as int] == q);
                }
            }
        }
    } else {
        assert forall|q: QuestionView|
            passing_questions(qs, topic, location).contains(q) <==> (qs.contains(q)
                && question_passes(q, topic, location)) by {}
    }
}

/// While a regex is active for a field, it alone decides that field's filter, whatever
/// values are chosen: a question of the list with a value there that the regex matches
/// is kept when it passes the other filter, and every question kept has such a value.
pub proof fn law_active_regex_decides(qs: Seq<QuestionView>, topic: ValueFilter, location: ValueFilter)
    ensures
        topic.regex is Some ==> forall|q: QuestionView|
            passing_questions(qs, topic, location).contains(q) <==> (qs.contains(q)
                && (q.metadata.topic matches Some(t) && regex_matches(topic.regex->0@, t))
                && value_passes(q.metadata.study_location, location)),
        location.regex is Some ==> forall|q: QuestionView|
            passing_questions(qs, topic, location).contains(q) <==> (qs.contains(q)
                && (q.metadata.study_location matches Some(t) && regex_matches(
                location.regex->0@,
                t,
            )) && value_passes(q.metadata.topic, topic)),
{
    lemma_passing_members(qs, topic, location);
    if topic.regex is Some {
        assert forall|q: QuestionView|
            passing_questions(qs, topic, location).contains(q) <==> (qs.contains(q)
                && (q.metadata.topic matches Some(t) && regex_matches(topic.regex->0@, t))
                && value_passes(q.metadata.study_location, location)) by {
            assert(regex_pattern(topic.regex) == Some(topic.regex->0@));
        }
    }
    if location.regex is Some {
        assert forall|q: QuestionView|
            passing_questions(qs, topic, location).contains(q) <==> (qs.contains(q)
                && (q.metadata.study_location matches Some(t) && regex_matches(
                location.regex->0@,
                t,
            )) && value_passes(q.metadata.topic, topic)) by {
            assert(regex_pattern(location.regex) == Some(location.regex->0@));
        }
    }
}

} // verus!
