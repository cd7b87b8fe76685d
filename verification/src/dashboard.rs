//! The dashboard's view of the router: its query parameters, the providers it
//! lists, and what its tables show of each route event.

use vstd::prelude::*;
use crate::text::{
    chars_of, find_char, find_in_range, push_char, shorten, shortened, str_equal,
    string_from_range,
};

verus! {

/// The query of `GET /api/routes`: how many recent route events to give.
pub struct RouteQuery {
    pub limit: u32,
}

/// The number of route events given when the query names none.
pub fn default_limit() -> (limit: u32)
    ensures
        limit == 50,
{
    50
}

/// A backend as the dashboard lists and adds it.
pub struct Provider {
    pub name: String,
    pub provider: String,
    pub model: String,
    pub base_url: String,
}

/// The form that adds a provider is complete: no field is empty.
pub fn provider_form_complete(name: &str, provider: &str, model: &str, base_url: &str) -> (r:
    bool)
    ensures
        r == (name@.len() > 0 && provider@.len() > 0 && model@.len() > 0 && base_url@.len() > 0),
{
    !(name.is_empty() || provider.is_empty() || model.is_empty() || base_url.is_empty())
}

/// The time of day of an ISO 8601 timestamp: the text after its first `T` (up
/// to a second `T`), or the whole timestamp where it has none, cut before its
/// first `.`.
pub open spec fn time_of_day_of(ts: Seq<char>) -> Seq<char> {
    let i = find_char(ts, 'T');
    let after = if i < ts.len() {
        let rest = ts.skip(i + 1);
        rest.take(find_char(rest, 'T'))
    } else {
        ts
    };
    after.take(find_char(after, '.'))
}

/// The time column of the routes table.
pub fn time_of_day(timestamp: &str) -> (r: String)
    ensures
        r@ == time_of_day_of(timestamp@),
{
    let v = chars_of(timestamp);
    let n = v.len();
    proof {
        crate::text::lemma_find_char(v@, 'T');
    }
    assert(v@.subrange(0, n as int) =~= v@);
    let i = find_in_range(&v, 0, n, 'T');
    let (lo, hi) = if i < n {
        let j = find_in_range(&v, i + 1, n, 'T');
        assert(v@.subrange(i + 1, n as int) =~= v@.skip(i + 1));
        proof {
            crate::text::lemma_find_char(v@.skip(i + 1), 'T');
        }
        (i + 1, i + 1 + j)
    } else {
        (0, n)
    };
    let ghost after = v@.subrange(lo as int, hi as int);
    assert(after == (if i < n {
        v@.skip(i + 1).take(find_char(v@.skip(i + 1), 'T'))
    } else {
        v@
    }));
    let k = find_in_range(&v, lo, hi, '.');
    assert(after.take(k as int) =~= v@.subrange(lo as int, lo + k));
    string_from_range(&v, lo, lo + k)
}

/// The prompt column of the routes table: the prompt, or its first sixty
/// characters and `...` where it is longer than sixty characters.
pub fn route_prompt(prompt: &str) -> (r: String)
    ensures
        r@ == shortened(prompt@, 60, 60),
{
    shorten(prompt, 60, 60)
}

/// The colour of a tag in the routes table.
pub enum TagColor {
    Green,
    Blue,
    Yellow,
    Red,
}

/// The category tag of a route event: a fallback shows its category followed by
/// ` (fb)` in yellow; else `tool_call` is green and every other category blue.
pub fn category_tag(category: &str, is_fallback: bool) -> (r: (String, TagColor))
    ensures
        is_fallback ==> r.0@ == category@ + seq![' ', '(', 'f', 'b', ')'] && r.1
            == TagColor::Yellow,
        !is_fallback ==> r.0@ == category@ && r.1 == (if category@ == "tool_call"@ {
            TagColor::Green
        } else {
            TagColor::Blue
        }),
{
    let mut text = String::from_str(category);
    if is_fallback {
        push_char(&mut text, ' ');
        push_char(&mut text, '(');
        push_char(&mut text, 'f');
        push_char(&mut text, 'b');
        push_char(&mut text, ')');
        assert(text@ =~= category@ + seq![' ', '(', 'f', 'b', ')']);
        (text, TagColor::Yellow)
    } else if str_equal(category, "tool_call") {
        (text, TagColor::Green)
    } else {
        (text, TagColor::Blue)
    }
}

/// The status tag of a route event: `ok` in green, anything else in red.
pub fn status_tag(status: &str) -> (r: TagColor)
    ensures
        r == (if status@ == "ok"@ {
            TagColor::Green
        } else {
            TagColor::Red
        }),
{
    if str_equal(status, "ok") {
        TagColor::Green
    } else {
        TagColor::Red
    }
}

} // verus!
