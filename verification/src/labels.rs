//! The label file of the routing classifier: which category, and which
//! complexity class, each output of the classifier stands for.
//!
//! The file is a JSON object; its `id2label` and `id2complexity` members map
//! decimal indexes to names. `serde_json` reads the JSON and hands each member
//! over as a list of (index text, name) pairs, the name being `None` where the
//! JSON value is not a string; this module builds the names from those lists.

use vstd::prelude::*;
use crate::text::{chars_of, push_char};

verus! {

/// One member of a label object: the index, as written, and the name.
pub type LabelEntry = (String, Option<String>);

/// An entry as plain values: the index text and the name, if any.
pub type EntryView = (Seq<char>, Option<Seq<char>>);

/// The plain values of an entry.
pub open spec fn entry_view(e: LabelEntry) -> EntryView {
    (
        e.0@,
        match e.1 {
            Some(s) => Some(s@),
            None => None,
        },
    )
}

/// The plain values of a list of entries.
pub open spec fn entry_views(es: Seq<LabelEntry>) -> Seq<EntryView> {
    es.map_values(|e: LabelEntry| entry_view(e))
}

/// The plain values of what `object_members` hands back.
pub open spec fn members_view(r: Option<Option<Vec<LabelEntry>>>) -> Option<Option<Seq<EntryView>>> {
    match r {
        None => None,
        Some(None) => Some(None),
        Some(Some(es)) => Some(Some(entry_views(es@))),
    }
}

/// What `serde_json` gives for the member `member` of the JSON text `text`:
/// `None` where the text is not JSON; `Some(None)` where the member is missing
/// or is not an object; else the object's members in the order in which
/// `serde_json`'s map holds them, each with its value where that is a string.
pub uninterp spec fn json_object_members(text: Seq<char>, member: Seq<char>) -> Option<
    Option<Seq<(Seq<char>, Option<Seq<char>>)>>,
>;

/// The entries of the object `member` of the JSON text `text`.
///
/// Trusted: the body parses `text` with `serde_json::from_str` into a
/// `serde_json::Value`, indexes it by `member` (which gives `Null` where the
/// text is not an object or has no such member, and never panics) and, where
/// that is an object, lists its members, keeping each value that is a string.
/// The contract claims only that the result's plain values are
/// `json_object_members(text@, member@)`, a function of the two texts alone;
/// what JSON parsing gives is left unsaid.
#[verifier::external_body]
fn object_members(text: &str, member: &str) -> (r: Option<Option<Vec<LabelEntry>>>)
    ensures
        members_view(r) == json_object_members(text@, member@),
{
    let v: serde_json::Value = match serde_json::from_str(text) {
        Ok(v) => v,
        Err(_) => return None,
    };
    let members = match v[member].as_object() {
        Some(m) => m,
        None => return Some(None),
    };
    let mut es: Vec<LabelEntry> = Vec::new();
    for (k, x) in members {
        let name = if let serde_json::Value::String(s) = x { Some(s.clone()) } else { None };
        es.push((k.clone(), name));
    }
    Some(Some(es))
}

/// Why the labels cannot be read.
pub enum LabelsError {
    /// The file is not JSON.
    NotJson,
    /// The file has no `id2label` object.
    MissingLabels,
    /// A key of `id2label` is not a decimal index.
    InvalidLabelIndex,
}

/// `c` is an ASCII digit.
pub open spec fn is_digit(c: char) -> bool {
    48 <= (c as u32) <= 57
}

/// Every character of `s` is a digit.
pub open spec fn all_digits(s: Seq<char>) -> bool {
    forall|i: int| 0 <= i < s.len() ==> is_digit(#[trigger] s[i])
}

/// The number that the digits `s` write.
pub open spec fn decimal_value(s: Seq<char>) -> nat
    decreases s.len(),
{
    if s.len() == 0 {
        0
    } else {
        decimal_value(s.drop_last()) * 10 + ((s.last() as u32) - 48) as nat
    }
}

/// What `usize::from_str` gives for `s`: an optional `+`, then one digit or
/// more, whose value fits in a `usize`.
pub open spec fn parsed_index(s: Seq<char>) -> Option<usize> {
    let d = if s.len() > 0 && s[0] == '+' {
        s.drop_first()
    } else {
        s
    };
    if d.len() > 0 && all_digits(d) && decimal_value(d) <= usize::MAX {
        Some(decimal_value(d) as usize)
    } else {
        None
    }
}

proof fn lemma_decimal_prefix(s: Seq<char>, i: int)
    requires
        0 <= i <= s.len(),
        forall|j: int| 0 <= j < s.len() ==> is_digit(#[trigger] s[j]),
    ensures
        decimal_value(s.take(i)) <= decimal_value(s),
    decreases s.len(),
{
    if i < s.len() {
        let d = s.drop_last();
        assert forall|j: int| 0 <= j < d.len() implies is_digit(#[trigger] d[j]) by {
            assert(d[j] == s[j]);
        }
        lemma_decimal_prefix(d, i);
        assert(d.take(i) =~= s.take(i));
    } else {
        assert(s.take(i) =~= s);
    }
}

/// Reads a decimal index as `str::parse::<usize>` does.
pub fn parse_index(s: &str) -> (r: Option<usize>)
    ensures
        r == parsed_index(s@),
{
    let cs = chars_of(s);
    let mut start: usize = 0;
    if cs.len() > 0 && cs[0] == '+' {
        start = 1;
    }
    let ghost d = if s@.len() > 0 && s@[0] == '+' {
        s@.drop_first()
    } else {
        s@
    };
    assert(d =~= cs@.subrange(start as int, cs@.len() as int));
    if start == cs.len() {
        return None;
    }
    let mut i = start;
    while i < cs.len()
        invariant
            start <= i <= cs.len(),
            start < cs.len(),
            cs@ == s@,
            d == (if s@.len() > 0 && s@[0] == '+' {
                s@.drop_first()
            } else {
                s@
            }),
            d == cs@.subrange(start as int, cs@.len() as int),
            forall|j: int| start <= j < i ==> is_digit(#[trigger] cs@[j]),
        decreases cs.len() - i,
    {
        let u = cs[i] as u32;
        if u < 48 || u > 57 {
            assert(d[i - start] == cs@[i as int]);
            assert(!is_digit(d[i - start]));
            assert(!all_digits(d));
            return None;
        }
        i += 1;
    }
    assert forall|j: int| 0 <= j < d.len() implies is_digit(#[trigger] d[j]) by {
        assert(d[j] == cs@[start + j]);
    }
    let mut value: usize = 0;
    let mut k = start;
    while k < cs.len()
        invariant
            start <= k <= cs.len(),
            start < cs.len(),
            cs@ == s@,
            d == (if s@.len() > 0 && s@[0] == '+' {
                s@.drop_first()
            } else {
                s@
            }),
            d == cs@.subrange(start as int, cs@.len() as int),
            forall|j: int| 0 <= j < d.len() ==> is_digit(#[trigger] d[j]),
            value == decimal_value(d.take(k - start)),
        decreases cs.len() - k,
    {
        assert(d.take(k + 1 - start).drop_last() =~= d.take(k - start));
        assert(d.take(k + 1 - start).last() == cs@[k as int]);
        assert(d[k - start] == cs@[k as int]);
        assert(is_digit(d[k - start]));
        let digit = (cs[k] as u32 - 48) as usize;
        let next = match value.checked_mul(10) {
            Some(x) => match x.checked_add(digit) {
                Some(y) => y,
                None => {
                    proof {
                        lemma_decimal_prefix(d, k + 1 - start);
                    }
                    return None;
                },
            },
            None => {
                proof {
                    lemma_decimal_prefix(d, k + 1 - start);
                }
                return None;
            },
        };
        value = next;
        k += 1;
    }
    assert(d.take(d.len() as int) =~= d);
    Some(value)
}

/// The views of a list of strings.
pub open spec fn string_views(v: Seq<String>) -> Seq<Seq<char>> {
    v.map_values(|s: String| s@)
}

/// The name that an entry gives: its string, or `unknown` where it has none.
pub open spec fn entry_name(e: EntryView) -> Seq<char> {
    match e.1 {
        Some(s) => s,
        None => seq!['u', 'n', 'k', 'n', 'o', 'w', 'n'],
    }
}

/// The category names that the entries `es` give for `n` labels: an empty name
/// for each label, then each entry in turn naming the label of its index where
/// that index is below `n`; nothing where an entry's index is not a number.
pub open spec fn labels_from(n: nat, es: Seq<EntryView>) -> Option<Seq<Seq<char>>>
    decreases es.len(),
{
    if es.len() == 0 {
        Some(Seq::new(n, |i: int| Seq::<char>::empty()))
    } else {
        match labels_from(n, es.drop_last()) {
            None => None,
            Some(ls) => match parsed_index(es.last().0) {
                None => None,
                Some(idx) => if idx < n {
                    Some(ls.update(idx as int, entry_name(es.last())))
                } else {
                    Some(ls)
                },
            },
        }
    }
}

/// The complexity names that the entries `es` give for `n` classes: as for the
/// labels, but an index that is not a number stands for class 0.
pub open spec fn complexities_from(n: nat, es: Seq<EntryView>) -> Seq<Seq<char>>
    decreases es.len(),
{
    if es.len() == 0 {
        Seq::new(n, |i: int| Seq::<char>::empty())
    } else {
        let ls = complexities_from(n, es.drop_last());
        let idx = match parsed_index(es.last().0) {
            Some(i) => i as nat,
            None => 0,
        };
        if idx < n {
            ls.update(idx as int, entry_name(es.last()))
        } else {
            ls
        }
    }
}

/// The complexity names used where the file names none.
pub open spec fn default_complexities() -> Seq<Seq<char>> {
    seq![
        seq!['l', 'o', 'w'],
        seq!['m', 'e', 'd', 'i', 'u', 'm'],
        seq!['h', 'i', 'g', 'h'],
    ]
}

fn empty_names(n: usize) -> (v: Vec<String>)
    ensures
        v@.len() == n,
        string_views(v@) == Seq::new(n as nat, |i: int| Seq::<char>::empty()),
{
    let mut v: Vec<String> = Vec::new();
    let mut i: usize = 0;
    while i < n
        invariant
            i <= n,
            string_views(v@) == Seq::new(i as nat, |j: int| Seq::<char>::empty()),
        decreases n - i,
    {
        let ghost prev = v@;
        v.push(String::new());
        assert(string_views(v@) =~= string_views(prev).push(Seq::<char>::empty()));
        i += 1;
        assert(string_views(v@) =~= Seq::new(i as nat, |j: int| Seq::<char>::empty()));
    }
    v
}

fn name_of(e: &LabelEntry) -> (s: String)
    ensures
        s@ == entry_name(entry_view(*e)),
{
    match &e.1 {
        Some(s) => s.clone(),
        None => {
            let mut s = String::new();
            push_char(&mut s, 'u');
            push_char(&mut s, 'n');
            push_char(&mut s, 'k');
            push_char(&mut s, 'n');
            push_char(&mut s, 'o');
            push_char(&mut s, 'w');
            push_char(&mut s, 'n');
            assert(s@ =~= seq!['u', 'n', 'k', 'n', 'o', 'w', 'n']);
            s
        },
    }
}

/// The category names of the classifier's `num_labels` outputs.
pub fn build_labels(num_labels: usize, id2label: Option<Vec<LabelEntry>>) -> (r: Result<
    Vec<String>,
    LabelsError,
>)
    ensures
        id2label is None ==> r matches Err(LabelsError::MissingLabels),
        id2label matches Some(es) ==> match labels_from(num_labels as nat, entry_views(es@)) {
            Some(ls) => r matches Ok(v) && string_views(v@) == ls,
            None => r matches Err(LabelsError::InvalidLabelIndex),
        },
{
    let es = match id2label {
        Some(es) => es,
        None => return Err(LabelsError::MissingLabels),
    };
    let ghost ev = entry_views(es@);
    let mut labels = empty_names(num_labels);
    let mut i: usize = 0;
    assert(ev.take(0) =~= Seq::<EntryView>::empty());
    while i < es.len()
        invariant
            i <= es@.len(),
            id2label == Some(es),
            ev == entry_views(es@),
            labels@.len() == num_labels,
            labels_from(num_labels as nat, ev.take(i as int)) == Some(string_views(labels@)),
        decreases es@.len() - i,
    {
        assert(ev.take(i + 1).drop_last() =~= ev.take(i as int));
        assert(ev.take(i + 1).last() == entry_view(es@[i as int]));
        let idx = match parse_index(es[i].0.as_str()) {
            Some(x) => x,
            None => {
                proof {
                    lemma_labels_none_stays(num_labels as nat, ev, i as int + 1);
                }
                return Err(LabelsError::InvalidLabelIndex);
            },
        };
        if idx < labels.len() {
            let name = name_of(&es[i]);
            let ghost prev = labels@;
            labels.set(idx, name);
            assert(string_views(labels@) =~= string_views(prev).update(
                idx as int,
                entry_name(entry_view(es@[i as int])),
            ));
        }
        i += 1;
    }
    assert(ev.take(es@.len() as int) =~= ev);
    Ok(labels)
}

proof fn lemma_labels_none_stays(n: nat, es: Seq<EntryView>, i: int)
    requires
        0 <= i <= es.len(),
        labels_from(n, es.take(i)) is None,
    ensures
        labels_from(n, es) is None,
    decreases es.len() - i,
{
    if i < es.len() {
        assert(es.take(i + 1).drop_last() =~= es.take(i));
        lemma_labels_none_stays(n, es, i + 1);
    } else {
        assert(es.take(i) =~= es);
    }
}

/// The complexity names of the classifier's `num_complexities` outputs: as the
/// file gives them, or `low`, `medium`, `high` where it gives none.
pub fn build_complexities(num_complexities: usize, id2complexity: Option<Vec<LabelEntry>>) -> (r:
    Vec<String>)
    ensures
        id2complexity is None ==> string_views(r@) == default_complexities(),
        id2complexity matches Some(es) ==> string_views(r@) == complexities_from(
            num_complexities as nat,
            entry_views(es@),
        ),
{
    let es = match id2complexity {
        Some(es) => es,
        None => {
            let mut v: Vec<String> = Vec::new();
            let mut low = String::new();
            push_char(&mut low, 'l');
            push_char(&mut low, 'o');
            push_char(&mut low, 'w');
            let mut medium = String::new();
            push_char(&mut medium, 'm');
            push_char(&mut medium, 'e');
            push_char(&mut medium, 'd');
            push_char(&mut medium, 'i');
            push_char(&mut medium, 'u');
            push_char(&mut medium, 'm');
            let mut high = String::new();
            push_char(&mut high, 'h');
            push_char(&mut high, 'i');
            push_char(&mut high, 'g');
            push_char(&mut high, 'h');
            assert(low@ =~= seq!['l', 'o', 'w']);
            assert(medium@ =~= seq!['m', 'e', 'd', 'i', 'u', 'm']);
            assert(high@ =~= seq!['h', 'i', 'g', 'h']);
            v.push(low);
            v.push(medium);
            v.push(high);
            assert(string_views(v@) =~= default_complexities());
            return v;
        },
    };
    let ghost ev = entry_views(es@);
    let mut names = empty_names(num_complexities);
    let mut i: usize = 0;
    assert(ev.take(0) =~= Seq::<EntryView>::empty());
    while i < es.len()
        invariant
            i <= es@.len(),
            id2complexity == Some(es),
            ev == entry_views(es@),
            names@.len() == num_complexities,
            complexities_from(num_complexities as nat, ev.take(i as int)) == string_views(
                names@,
            ),
        decreases es@.len() - i,
    {
        assert(ev.take(i + 1).drop_last() =~= ev.take(i as int));
        assert(ev.take(i + 1).last() == entry_view(es@[i as int]));
        let idx = match parse_index(es[i].0.as_str()) {
            Some(x) => x,
            None => 0,
        };
        if idx < names.len() {
            let name = name_of(&es[i]);
            let ghost prev = names@;
            names.set(idx, name);
            assert(string_views(names@) =~= string_views(prev).update(
                idx as int,
                entry_name(entry_view(es@[i as int])),
            ));
        }
        i += 1;
    }
    assert(ev.take(es@.len() as int) =~= ev);
    names
}

/// The category names and the complexity names of the classifier's outputs, as
/// the labels file `labels_text` gives them: fails where the text is not JSON,
/// where it has no `id2label` object, or where a key of that object is not a
/// decimal index; the complexity names come from `id2complexity`, or are `low`,
/// `medium`, `high` where the file has no such object.
pub fn load_labels(labels_text: &str, num_labels: usize, num_complexities: usize) -> (r: Result<
    (Vec<String>, Vec<String>),
    LabelsError,
>)
    ensures
        match json_object_members(labels_text@, "id2label"@) {
            None => r matches Err(LabelsError::NotJson),
            Some(None) => r matches Err(LabelsError::MissingLabels),
            Some(Some(es)) => match labels_from(num_labels as nat, es) {
                None => r matches Err(LabelsError::InvalidLabelIndex),
                Some(ls) => r matches Ok((l, c)) && string_views(l@) == ls && string_views(c@)
                    == match json_object_members(labels_text@, "id2complexity"@) {
                    Some(Some(cs)) => complexities_from(num_complexities as nat, cs),
                    _ => default_complexities(),
                },
            },
        },
{
    let id2label = match object_members(labels_text, "id2label") {
        Some(m) => m,
        None => return Err(LabelsError::NotJson),
    };
    let labels = match build_labels(num_labels, id2label) {
        Ok(l) => l,
        Err(e) => return Err(e),
    };
    let id2complexity = match object_members(labels_text, "id2complexity") {
        Some(m) => m,
        None => None,
    };
    let complexities = build_complexities(num_complexities, id2complexity);
    Ok((labels, complexities))
}

} // verus!
