//! What the command line shows of the route events: the text and the colour of
//! each cell of the `routes` table.

use vstd::prelude::*;
use crate::text::{push_char, shorten_bytes, shortened_bytes, str_equal};

verus! {

/// The number of route events that `routes` shows when none is asked for.
pub fn default_limit() -> (limit: u32)
    ensures
        limit == 50,
{
    50
}

/// The colour of a cell.
pub enum Tint {
    Green,
    Blue,
    Orange,
    Red,
}

/// A cell of the table: its text and colour.
pub struct Cell {
    pub text: String,
    pub tint: Tint,
}

/// The category cell: a fallback shows its category followed by ` (fb)`, in
/// orange; else `tool_call` is blue and every other category green.
pub fn category_cell(category: &str, is_fallback: bool) -> (c: Cell)
    ensures
        is_fallback ==> c.text@ == category@ + seq![' ', '(', 'f', 'b', ')'] && c.tint
            == Tint::Orange,
        !is_fallback ==> c.text@ == category@ && c.tint == (if category@ == "tool_call"@ {
            Tint::Blue
        } else {
            Tint::Green
        }),
{
    let mut text = String::from_str(category);
    if is_fallback {
        push_char(&mut text, ' ');
        push_char(&mut text, '(');
        push_char(&mut text, 'f');
        push_char(&mut text, 'b');
        push_char(&mut text, ')');
        assert(text@ =~= category@ + seq![' ', '(', 'f', 'b', ')']);
        Cell { text, tint: Tint::Orange }
    } else if str_equal(category, "tool_call") {
        Cell { text, tint: Tint::Blue }
    } else {
        Cell { text, tint: Tint::Green }
    }
}

/// The status cell: `ok` in green, any other status in red.
pub fn status_cell(status: &str) -> (c: Cell)
    ensures
        c.text@ == status@,
        c.tint == (if status@ == "ok"@ {
            Tint::Green
        } else {
            Tint::Red
        }),
{
    let text = String::from_str(status);
    if str_equal(status, "ok") {
        Cell { text, tint: Tint::Green }
    } else {
        Cell { text, tint: Tint::Red }
    }
}

/// The prompt cell of the table: the prompt, or, where it takes more than
/// fifty bytes, its longest prefix of at most forty-seven bytes and `...`.
pub fn prompt_cell(prompt: &str) -> (r: String)
    ensures
        r@ == shortened_bytes(prompt@, 50, 47),
{
    shorten_bytes(prompt, 50, 47)
}

/// The most route events that `routes` shows.
pub const MAX_ROUTES_SHOWN: u32 = 100;

/// The number of route events that `routes` shows for the asked `limit`: at
/// most a hundred.
pub fn routes_limit(limit: u32) -> (n: u32)
    ensures
        n == (if limit <= MAX_ROUTES_SHOWN {
            limit
        } else {
            MAX_ROUTES_SHOWN
        }),
{
    if limit <= MAX_ROUTES_SHOWN {
        limit
    } else {
        MAX_ROUTES_SHOWN
    }
}

/// The number of route events that `routes` shows when none is asked for.
pub fn default_routes_limit() -> (n: u32)
    ensures
        n == 10,
{
    10
}

} // verus!
