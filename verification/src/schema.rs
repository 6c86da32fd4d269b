//! The field reference shown with the quiz file format: one row per property
//! of the JSON schema, with its type, whether it is required and its description.
use vstd::prelude::*;
use vstd::string::*;
use crate::idset::contains_text;
use crate::model::texts;
use crate::text::str_equal;

verus! {

broadcast use vstd::seq_lib::group_seq_properties;

/// What the field reference reads of one schema property.
#[derive(Debug, Clone, PartialEq)]
pub struct SchemaProperty {
    pub name: String,
    /// The property refers to a definition (`$ref`).
    pub has_ref: bool,
    /// The `type` of the property, when it is a string.
    pub declared_type: Option<String>,
    /// The `type` of the property's `items`, when it is a string.
    pub items_type: Option<String>,
    /// The `description` of the property, when it is a string.
    pub description: Option<String>,
}

/// One row of the field reference.
#[derive(Debug, Clone, PartialEq)]
pub struct FieldRow {
    pub name: String,
    pub type_label: String,
    pub required: bool,
    pub description: String,
}

/// The item type of an array property: "object" when not given.
pub open spec fn item_type_text(items: Option<String>) -> Seq<char> {
    match items {
        Some(i) => i@,
        None => "object"@,
    }
}

/// The type shown for a property: "object" for a reference, "T[]" for an array of
/// T (of objects when the item type is not given), the type itself otherwise, and
/// nothing when no type is given.
pub open spec fn spec_type_label(p: SchemaProperty) -> Seq<char> {
    if p.has_ref {
        "object"@
    } else {
        match p.declared_type {
            Some(t) => if t@ == "array"@ {
                item_type_text(p.items_type) + "[]"@
            } else {
                t@
            },
            None => Seq::empty(),
        }
    }
}

/// The type shown for a property.
pub fn prop_type_label(p: &SchemaProperty) -> (s: String)
    ensures
        s@ == spec_type_label(*p),
{
    if p.has_ref {
        return String::from_str("object");
    }
    match &p.declared_type {
        Some(t) => {
            if str_equal(t.as_str(), "array") {
                let mut s = match &p.items_type {
                    Some(i) => i.clone(),
                    None => String::from_str("object"),
                };
                s.append("[]");
                s
            } else {
                t.clone()
            }
        },
        None => String::new(),
    }
}

/// Whether `s` begins with `prefix`.
pub open spec fn starts_with(s: Seq<char>, prefix: Seq<char>) -> bool {
    prefix.len() <= s.len() && s.take(prefix.len() as int) == prefix
}

fn str_starts_with(s: &str, prefix: &str) -> (b: bool)
    ensures
        b == starts_with(s@, prefix@),
{
    let n = s.unicode_len();
    let m = prefix.unicode_len();
    if m > n {
        return false;
    }
    let mut i: usize = 0;
    while i < m
        invariant
            n == s@.len(),
            m == prefix@.len(),
            m <= n,
            i <= m,
            forall|j: int| 0 <= j < i ==> s@[j] == prefix@[j],
        decreases m - i,
    {
        if s.get_char(i) != prefix.get_char(i) {
            assert(s@.take(m as int)[i as int] != prefix@[i as int]);
            return false;
        }
        i = i + 1;
    }
    assert(s@.take(m as int) =~= prefix@);
    true
}

/// Whether a property is listed: not the `$schema` entry, and not an alias of
/// another field (a description beginning "Alias for").
pub open spec fn is_listed(p: SchemaProperty) -> bool {
    &&& p.name@ != "$schema"@
    &&& match p.description {
        Some(d) => !starts_with(d@, "Alias for"@),
        None => true,
    }
}

/// The texts of a field row.
pub struct FieldRowView {
    pub name: Seq<char>,
    pub type_label: Seq<char>,
    pub required: bool,
    pub description: Seq<char>,
}

impl View for FieldRow {
    type V = FieldRowView;

    open spec fn view(&self) -> FieldRowView {
        FieldRowView {
            name: self.name@,
            type_label: self.type_label@,
            required: self.required,
            description: self.description@,
        }
    }
}

/// The row for a listed property: required when its name is among the required names.
pub open spec fn spec_field_row(p: SchemaProperty, required_names: Seq<Seq<char>>) -> FieldRowView {
    FieldRowView {
        name: p.name@,
        type_label: spec_type_label(p),
        required: required_names.contains(p.name@),
        description: match p.description {
            Some(d) => d@,
            None => Seq::empty(),
        },
    }
}

/// The rows of the listed properties, in order.
pub open spec fn spec_field_rows(props: Seq<SchemaProperty>, required_names: Seq<Seq<char>>) -> Seq<
    FieldRowView,
>
    decreases props.len(),
{
    if props.len() == 0 {
        Seq::empty()
    } else {
        let prev = spec_field_rows(props.drop_last(), required_names);
        if is_listed(props.last()) {
            prev.push(spec_field_row(props.last(), required_names))
        } else {
            prev
        }
    }
}

fn is_listed_exec(p: &SchemaProperty) -> (b: bool)
    ensures
        b == is_listed(*p),
{
    if str_equal(p.name.as_str(), "$schema") {
        return false;
    }
    match &p.description {
        Some(d) => !str_starts_with(d.as_str(), "Alias for"),
        None => true,
    }
}

/// The field reference rows for a schema object's properties, in order.
pub fn fields_from_props(props: &Vec<SchemaProperty>, required_names: &Vec<String>) -> (rows: Vec<
    FieldRow,
>)
    ensures
        rows@.map_values(|r: FieldRow| r@) == spec_field_rows(props@, texts(required_names@)),
{
    let mut rows: Vec<FieldRow> = Vec::new();
    let mut i: usize = 0;
    while i < props.len()
        invariant
            i <= props@.len(),
            rows@.map_values(|r: FieldRow| r@) == spec_field_rows(
                props@.take(i as int),
                texts(required_names@),
            ),
        decreases props@.len() - i,
    {
        let p = &props[i];
        assert(props@.take(i + 1).drop_last() =~= props@.take(i as int));
        assert(props@.take(i + 1).last() == *p);
        if is_listed_exec(p) {
            let row = FieldRow {
                name: p.name.clone(),
                type_label: prop_type_label(p),
                required: contains_text(required_names, p.name.as_str()),
                description: match &p.description {
                    Some(d) => d.clone(),
                    None => String::new(),
                },
            };
            rows.push(row);
            assert(rows@.map_values(|r: FieldRow| r@) =~= spec_field_rows(
                props@.take(i as int),
                texts(required_names@),
            ).push(spec_field_row(*p, texts(required_names@))));
        }
        i = i + 1;
    }
    assert(props@.take(props@.len() as int) =~= props@);
    rows
}


/// A text with every `/` at its end taken off.
pub open spec fn trim_end_slashes(s: Seq<char>) -> Seq<char>
    decreases s.len(),
{
    if s.len() > 0 && s.last() == '/' {
        trim_end_slashes(s.drop_last())
    } else {
        s
    }
}

/// Where the quiz schema is served: under the page's address when it is known,
/// else at the site root.
pub open spec fn spec_schema_url(page_href: Option<Seq<char>>) -> Seq<char> {
    match page_href {
        Some(h) => trim_end_slashes(h) + "/assets/quiz-schema.json"@,
        None => "/assets/quiz-schema.json"@,
    }
}

/// The address of the quiz schema for a page address.
pub fn schema_url(page_href: Option<&str>) -> (url: String)
    ensures
        url@ == spec_schema_url(
            match page_href {
                Some(h) => Some(h@),
                None => None,
            },
        ),
{
    match page_href {
        Some(h) => {
            let mut end = h.unicode_len();
            while end > 0 && h.get_char(end - 1) == '/'
                invariant
                    end <= h@.len(),
                    trim_end_slashes(h@) == trim_end_slashes(h@.take(end as int)),
                decreases end,
            {
                assert(h@.take(end as int).drop_last() =~= h@.take(end - 1));
                end = end - 1;
            }
            proof {
                assert(h@.take(h@.len() as int) =~= h@);
            }
            let base = h.substring_char(0, end);
            let mut url = String::from_str(base);
            url.append("/assets/quiz-schema.json");
            assert(base@ == h@.take(end as int));
            url
        },
        None => String::from_str("/assets/quiz-schema.json"),
    }
}

} // verus!
