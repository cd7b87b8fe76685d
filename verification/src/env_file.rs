//! The `.env` file that holds the backends' API keys.
//!
//! The file is a list of `KEY=value` lines. Reading it skips blank lines and
//! lines that start with `#`, splits each other line at its first `=`, trims both
//! halves, and lets a later line override an earlier one with the same key.
//! Writing it puts one `KEY=value` line per key, sorted, each ended by a newline.

use vstd::prelude::*;
use crate::text::{
    chars_of, find_char, find_in_range, is_ws, lemma_find_char, lemma_find_char_concat,
    lemma_trim_fixed, lemma_trim_idempotent, lemma_trim_shape, lemma_trimmed_ends, push_char,
    string_from_range, trim, trim_range,
};

verus! {

/// The keys held in a `.env` file, each with its value.
pub struct EnvKeys {
    entries: Vec<(String, String)>,
}

/// The map that a list of key-value pairs stands for: a later pair overrides an
/// earlier one with the same key.
pub open spec fn entries_map(s: Seq<(String, String)>) -> Map<Seq<char>, Seq<char>>
    decreases s.len(),
{
    if s.len() == 0 {
        Map::empty()
    } else {
        entries_map(s.drop_last()).insert(s.last().0@, s.last().1@)
    }
}

/// No key occurs twice in `s`.
pub open spec fn distinct_keys(s: Seq<(String, String)>) -> bool {
    forall|i: int, j: int| 0 <= i < j < s.len() ==> (#[trigger] s[i]).0@ != (#[trigger] s[j]).0@
}

impl View for EnvKeys {
    type V = Map<Seq<char>, Seq<char>>;

    closed spec fn view(&self) -> Map<Seq<char>, Seq<char>> {
        entries_map(self.entries@)
    }
}

proof fn lemma_entries_map_has(s: Seq<(String, String)>, i: int)
    requires
        distinct_keys(s),
        0 <= i < s.len(),
    ensures
        entries_map(s).contains_key(s[i].0@),
        entries_map(s)[s[i].0@] == s[i].1@,
    decreases s.len(),
{
    if i < s.len() - 1 {
        assert(distinct_keys(s.drop_last()));
        lemma_entries_map_has(s.drop_last(), i);
        assert(s[i].0@ != s[s.len() - 1].0@);
    }
}

proof fn lemma_entries_map_only(s: Seq<(String, String)>, k: Seq<char>)
    requires
        entries_map(s).contains_key(k),
    ensures
        exists|i: int| 0 <= i < s.len() && (#[trigger] s[i]).0@ == k,
    decreases s.len(),
{
    if s.len() > 0 && s.last().0@ != k {
        lemma_entries_map_only(s.drop_last(), k);
        let i = choose|i: int| 0 <= i < s.len() - 1 && (#[trigger] s.drop_last()[i]).0@ == k;
        assert(s[i] == s.drop_last()[i]);
    }
}

proof fn lemma_entries_map_remove(s: Seq<(String, String)>, i: int)
    requires
        distinct_keys(s),
        0 <= i < s.len(),
    ensures
        distinct_keys(s.remove(i)),
        entries_map(s.remove(i)) == entries_map(s).remove(s[i].0@),
{
    let t = s.remove(i);
    let key = s[i].0@;
    assert(distinct_keys(t)) by {
        assert forall|a: int, b: int| 0 <= a < b < t.len() implies (#[trigger] t[a]).0@ != (
        #[trigger] t[b]).0@ by {
            let a0 = if a < i { a } else { a + 1 };
            let b0 = if b < i { b } else { b + 1 };
            assert(t[a] == s[a0]);
            assert(t[b] == s[b0]);
        }
    }
    assert forall|kk: Seq<char>|
        entries_map(t).contains_key(kk) == entries_map(s).remove(key).contains_key(kk) by {
        if entries_map(t).contains_key(kk) {
            lemma_entries_map_only(t, kk);
            let j = choose|j: int| 0 <= j < t.len() && (#[trigger] t[j]).0@ == kk;
            let j0 = if j < i { j } else { j + 1 };
            assert(t[j] == s[j0]);
            lemma_entries_map_has(s, j0);
        }
        if entries_map(s).contains_key(kk) && kk != key {
            lemma_entries_map_only(s, kk);
            let j = choose|j: int| 0 <= j < s.len() && (#[trigger] s[j]).0@ == kk;
            let j1 = if j < i { j } else { j - 1 };
            assert(t[j1] == s[j]);
            lemma_entries_map_has(t, j1);
        }
    }
    assert forall|kk: Seq<char>| #[trigger]
        entries_map(t).contains_key(kk) implies entries_map(t)[kk] == entries_map(s).remove(
        key,
    )[kk] by {
        lemma_entries_map_only(t, kk);
        let j = choose|j: int| 0 <= j < t.len() && (#[trigger] t[j]).0@ == kk;
        let j0 = if j < i { j } else { j + 1 };
        assert(t[j] == s[j0]);
        lemma_entries_map_has(t, j);
        lemma_entries_map_has(s, j0);
    }
    assert(entries_map(t) =~= entries_map(s).remove(key));
}

impl EnvKeys {
    /// The well-formedness of the key list: no key occurs twice.
    pub closed spec fn wf(&self) -> bool {
        distinct_keys(self.entries@)
    }

    /// No keys.
    pub fn new() -> (r: EnvKeys)
        ensures
            r.wf(),
            r@ == Map::<Seq<char>, Seq<char>>::empty(),
    {
        EnvKeys { entries: Vec::new() }
    }

    /// The number of keys.
    pub fn len(&self) -> (n: usize)
        requires
            self.wf(),
        ensures
            n == self@.len(),
    {
        proof {
            self.lemma_dom_len();
        }
        self.entries.len()
    }

    proof fn lemma_dom_len(&self)
        requires
            self.wf(),
        ensures
            self@.dom().finite(),
            self@.len() == self.entries@.len(),
        decreases self.entries@.len(),
    {
        lemma_entries_dom_len(self.entries@);
    }

    /// The index of `key` in the list, if it is there.
    fn position(&self, key: &String) -> (r: Option<usize>)
        requires
            self.wf(),
        ensures
            match r {
                Some(i) => i < self.entries@.len() && self.entries@[i as int].0@ == key@,
                None => forall|i: int|
                    0 <= i < self.entries@.len() ==> (#[trigger] self.entries@[i]).0@ != key@,
            },
    {
        let mut i: usize = 0;
        while i < self.entries.len()
            invariant
                i <= self.entries@.len(),
                forall|j: int| 0 <= j < i ==> (#[trigger] self.entries@[j]).0@ != key@,
            decreases self.entries@.len() - i,
        {
            if self.entries[i].0 == *key {
                return Some(i);
            }
            i += 1;
        }
        None
    }

    /// The value of `key`, if the list holds it.
    pub fn get(&self, key: &String) -> (r: Option<String>)
        requires
            self.wf(),
        ensures
            r matches Some(v) ==> self@.contains_key(key@) && v@ == self@[key@],
            r is None ==> !self@.contains_key(key@),
    {
        match self.position(key) {
            Some(i) => {
                proof {
                    lemma_entries_map_has(self.entries@, i as int);
                }
                Some(self.entries[i].1.clone())
            },
            None => {
                proof {
                    if self@.contains_key(key@) {
                        lemma_entries_map_only(self.entries@, key@);
                    }
                }
                None
            },
        }
    }

    /// Sets `key` to `value`, replacing the value it had.
    pub fn insert(&mut self, key: String, value: String)
        requires
            old(self).wf(),
        ensures
            final(self).wf(),
            final(self)@ == old(self)@.insert(key@, value@),
    {
        let ghost k = key@;
        let ghost v = value@;
        match self.position(&key) {
            Some(i) => {
                let ghost s = self.entries@;
                self.entries.set(i, (key, value));
                proof {
                    let t = self.entries@;
                    assert(t == s.update(i as int, t[i as int]));
                    assert(distinct_keys(t)) by {
                        assert forall|a: int, b: int| 0 <= a < b < t.len() implies (
                        #[trigger] t[a]).0@ != (#[trigger] t[b]).0@ by {
                            assert(s[a].0@ != s[b].0@);
                        }
                    }
                    assert forall|kk: Seq<char>|
                        entries_map(t).contains_key(kk) == entries_map(s).insert(
                            k,
                            v,
                        ).contains_key(kk) by {
                        if entries_map(t).contains_key(kk) {
                            lemma_entries_map_only(t, kk);
                            let j = choose|j: int| 0 <= j < t.len() && (#[trigger] t[j]).0@ == kk;
                            if j != i {
                                lemma_entries_map_has(s, j);
                            }
                        }
                        if entries_map(s).contains_key(kk) {
                            lemma_entries_map_only(s, kk);
                            let j = choose|j: int| 0 <= j < s.len() && (#[trigger] s[j]).0@ == kk;
                            lemma_entries_map_has(t, j);
                        }
                        if kk == k {
                            lemma_entries_map_has(t, i as int);
                        }
                    }
                    assert forall|kk: Seq<char>| #[trigger]
                        entries_map(t).contains_key(kk) implies entries_map(t)[kk]
                        == entries_map(s).insert(k, v)[kk] by {
                        lemma_entries_map_only(t, kk);
                        let j = choose|j: int| 0 <= j < t.len() && (#[trigger] t[j]).0@ == kk;
                        lemma_entries_map_has(t, j);
                        if j != i {
                            lemma_entries_map_has(s, j);
                        }
                    }
                    assert(entries_map(t) =~= entries_map(s).insert(k, v));
                }
            },
            None => {
                self.entries.push((key, value));
                proof {
                    let t = self.entries@;
                    assert(t.drop_last() =~= old(self).entries@);
                    assert(distinct_keys(t)) by {
                        assert forall|a: int, b: int| 0 <= a < b < t.len() implies (
                        #[trigger] t[a]).0@ != (#[trigger] t[b]).0@ by {
                            if b < t.len() - 1 {
                                assert(t[a] == old(self).entries@[a]);
                                assert(t[b] == old(self).entries@[b]);
                            } else {
                                assert(t[a] == old(self).entries@[a]);
                            }
                        }
                    }
                }
            },
        }
    }

    /// Takes `key` out, with its value.
    pub fn remove(&mut self, key: &String)
        requires
            old(self).wf(),
        ensures
            final(self).wf(),
            final(self)@ == old(self)@.remove(key@),
    {
        match self.position(key) {
            Some(i) => {
                let ghost s = self.entries@;
                let _ = self.entries.remove(i);
                proof {
                    lemma_entries_map_remove(s, i as int);
                }
            },
            None => {
                proof {
                    if self@.contains_key(key@) {
                        lemma_entries_map_only(self.entries@, key@);
                    }
                    assert(self@ =~= self@.remove(key@));
                }
            },
        }
    }
}

proof fn lemma_entries_dom_len(s: Seq<(String, String)>)
    requires
        distinct_keys(s),
    ensures
        entries_map(s).dom().finite(),
        entries_map(s).len() == s.len(),
    decreases s.len(),
{
    if s.len() > 0 {
        assert(distinct_keys(s.drop_last()));
        lemma_entries_dom_len(s.drop_last());
        if entries_map(s.drop_last()).contains_key(s.last().0@) {
            lemma_entries_map_only(s.drop_last(), s.last().0@);
            let j = choose|j: int|
                0 <= j < s.len() - 1 && (#[trigger] s.drop_last()[j]).0@ == s.last().0@;
            assert(s[j] == s.drop_last()[j]);
            assert(false);
        }
    }
}


/// The pieces of `s` between its newlines, in order; there is always one more
/// piece than there are newlines, so a text that ends with a newline has an
/// empty last piece.
pub open spec fn pieces(s: Seq<char>) -> Seq<Seq<char>>
    decreases s.len(),
{
    if s.len() == 0 {
        seq![Seq::empty()]
    } else {
        let p = pieces(s.drop_last());
        if s.last() == '\n' {
            p.push(Seq::empty())
        } else {
            p.update(p.len() - 1, p.last().push(s.last()))
        }
    }
}

/// What one line of the file holds: `None` for a blank line, a comment (`#`), or
/// a line without `=`; else the trimmed text before the first `=` and the
/// trimmed text after it.
///
/// A line ending in a carriage return is read as the same line without it, as
/// the trim takes the carriage return away.
pub open spec fn parse_line(l: Seq<char>) -> Option<(Seq<char>, Seq<char>)> {
    let t = trim(l);
    if t.len() == 0 || t[0] == '#' {
        None
    } else {
        let i = find_char(t, '=');
        if i < t.len() {
            Some((trim(t.take(i)), trim(t.skip(i + 1))))
        } else {
            None
        }
    }
}

/// The keys that the lines `ls` set, a later line overriding an earlier one.
pub open spec fn parse_lines(ls: Seq<Seq<char>>) -> Map<Seq<char>, Seq<char>>
    decreases ls.len(),
{
    if ls.len() == 0 {
        Map::empty()
    } else {
        let m = parse_lines(ls.drop_last());
        match parse_line(ls.last()) {
            Some(kv) => m.insert(kv.0, kv.1),
            None => m,
        }
    }
}

/// The keys that the text of a `.env` file sets.
pub open spec fn parse_env(s: Seq<char>) -> Map<Seq<char>, Seq<char>> {
    parse_lines(pieces(s))
}

pub proof fn lemma_pieces_len(s: Seq<char>)
    ensures
        pieces(s).len() >= 1,
    decreases s.len(),
{
    if s.len() > 0 {
        lemma_pieces_len(s.drop_last());
    }
}

/// What the line `v[lo..hi]` holds.
fn parse_line_range(v: &Vec<char>, lo: usize, hi: usize) -> (r: Option<(String, String)>)
    requires
        lo <= hi <= v.len(),
    ensures
        match parse_line(v@.subrange(lo as int, hi as int)) {
            Some(kv) => r matches Some(p) && p.0@ == kv.0 && p.1@ == kv.1,
            None => r is None,
        },
{
    let (a, b) = trim_range(v, lo, hi);
    let ghost t = v@.subrange(a as int, b as int);
    if a == b || v[a] == '#' {
        return None;
    }
    let i = find_in_range(v, a, b, '=');
    if i == b - a {
        return None;
    }
    assert(t.take(i as int) =~= v@.subrange(a as int, a + i));
    assert(t.skip(i + 1) =~= v@.subrange(a + i + 1, b as int));
    let (ka, kb) = trim_range(v, a, a + i);
    let (va, vb) = trim_range(v, a + i + 1, b);
    Some((string_from_range(v, ka, kb), string_from_range(v, va, vb)))
}

/// Reads the text of a `.env` file.
pub fn parse_env_keys(content: &str) -> (keys: EnvKeys)
    ensures
        keys.wf(),
        keys@ == parse_env(content@),
{
    let v = chars_of(content);
    let mut keys = EnvKeys::new();
    let mut start: usize = 0;
    let mut i: usize = 0;
    while i < v.len()
        invariant
            start <= i <= v.len(),
            v@ == content@,
            keys.wf(),
            pieces(v@.take(i as int)).last() == v@.subrange(start as int, i as int),
            keys@ == parse_lines(pieces(v@.take(i as int)).drop_last()),
        decreases v.len() - i,
    {
        let ghost p = pieces(v@.take(i as int));
        proof {
            lemma_pieces_len(v@.take(i as int));
            assert(v@.take(i + 1).drop_last() =~= v@.take(i as int));
        }
        if v[i] == '\n' {
            match parse_line_range(&v, start, i) {
                Some((k, val)) => keys.insert(k, val),
                None => {},
            }
            proof {
                assert(pieces(v@.take(i + 1)) == p.push(Seq::empty()));
                assert(p.push(Seq::empty()).drop_last() =~= p);
                assert(p =~= p.drop_last().push(p.last()));
                assert(v@.subrange(i + 1, i + 1) =~= Seq::<char>::empty());
            }
            start = i + 1;
        } else {
            proof {
                let q = pieces(v@.take(i + 1));
                assert(q == p.update(p.len() - 1, p.last().push(v@[i as int])));
                assert(q.drop_last() =~= p.drop_last());
                assert(q.last() =~= v@.subrange(start as int, i + 1));
            }
        }
        i += 1;
    }
    proof {
        lemma_pieces_len(v@);
        assert(v@.take(v@.len() as int) =~= v@);
    }
    match parse_line_range(&v, start, v.len()) {
        Some((k, val)) => keys.insert(k, val),
        None => {},
    }
    proof {
        let p = pieces(v@);
        assert(p =~= p.drop_last().push(p.last()));
    }
    keys
}


/// The line that writes `key` with `value`.
pub open spec fn env_line(key: Seq<char>, value: Seq<char>) -> Seq<char> {
    key + seq!['='] + value
}

/// Lexicographic order on character sequences by code point, which is the
/// order of `str` (UTF-8 keeps the order of code points).
pub open spec fn lex_le(a: Seq<char>, b: Seq<char>) -> bool
    decreases a.len(),
{
    if a.len() == 0 {
        true
    } else if b.len() == 0 {
        false
    } else if (a[0] as u32) != (b[0] as u32) {
        (a[0] as u32) < (b[0] as u32)
    } else {
        lex_le(a.drop_first(), b.drop_first())
    }
}

/// Each line is at most the next, in lexicographic order.
pub open spec fn sorted_lines(ls: Seq<Seq<char>>) -> bool {
    forall|i: int, j: int| 0 <= i < j < ls.len() ==> lex_le(#[trigger] ls[i], #[trigger] ls[j])
}

/// The lines `ls`, each followed by a newline.
pub open spec fn join_lines(ls: Seq<Seq<char>>) -> Seq<char>
    decreases ls.len(),
{
    if ls.len() == 0 {
        Seq::empty()
    } else {
        join_lines(ls.drop_last()) + ls.last() + seq!['\n']
    }
}

/// The text of a `.env` file made of the lines `ls`: the lines joined by
/// newlines, and a final newline (so no lines give a lone newline).
pub open spec fn env_text(ls: Seq<Seq<char>>) -> Seq<char> {
    if ls.len() == 0 {
        seq!['\n']
    } else {
        join_lines(ls)
    }
}

pub proof fn lemma_lex_total(a: Seq<char>, b: Seq<char>)
    ensures
        lex_le(a, b) || lex_le(b, a),
    decreases a.len(),
{
    if a.len() > 0 && b.len() > 0 && (a[0] as u32) == (b[0] as u32) {
        lemma_lex_total(a.drop_first(), b.drop_first());
    }
}

pub proof fn lemma_lex_trans(a: Seq<char>, b: Seq<char>, c: Seq<char>)
    requires
        lex_le(a, b),
        lex_le(b, c),
    ensures
        lex_le(a, c),
    decreases a.len(),
{
    if a.len() > 0 && b.len() > 0 && c.len() > 0 && (a[0] as u32) == (b[0] as u32) && (b[0]
        as u32) == (c[0] as u32) {
        lemma_lex_trans(a.drop_first(), b.drop_first(), c.drop_first());
    }
}

/// Whether `a` comes no later than `b`.
fn lex_le_exec(a: &Vec<char>, b: &Vec<char>) -> (r: bool)
    ensures
        r == lex_le(a@, b@),
{
    let mut i: usize = 0;
    assert(a@.skip(0) =~= a@);
    assert(b@.skip(0) =~= b@);
    while i < a.len() && i < b.len() && (a[i] as u32) == (b[i] as u32)
        invariant
            i <= a.len(),
            i <= b.len(),
            lex_le(a@, b@) == lex_le(a@.skip(i as int), b@.skip(i as int)),
        decreases a.len() - i,
    {
        assert(a@.skip(i as int).drop_first() =~= a@.skip(i + 1));
        assert(b@.skip(i as int).drop_first() =~= b@.skip(i + 1));
        i += 1;
    }
    if i == a.len() {
        true
    } else if i == b.len() {
        false
    } else {
        (a[i] as u32) < (b[i] as u32)
    }
}

/// The lines that write the pairs `s`, in order.
pub open spec fn entry_lines(s: Seq<(String, String)>) -> Seq<Seq<char>> {
    s.map_values(|e: (String, String)| env_line(e.0@, e.1@))
}

/// The views of a list of character vectors.
pub open spec fn views(s: Seq<Vec<char>>) -> Seq<Seq<char>> {
    s.map_values(|v: Vec<char>| v@)
}

/// Puts `x` into the sorted list `s`, after the lines that come no later than it.
fn insert_sorted(s: &mut Vec<Vec<char>>, x: Vec<char>)
    requires
        sorted_lines(views(old(s)@)),
    ensures
        sorted_lines(views(final(s)@)),
        views(final(s)@).to_multiset() == views(old(s)@).to_multiset().insert(x@),
{
    let ghost xs = x@;
    let mut pos: usize = 0;
    while pos < s.len()
        invariant
            pos <= s.len(),
            s@ == old(s)@,
            xs == x@,
            forall|j: int| 0 <= j < pos ==> lex_le(#[trigger] views(s@)[j], xs),
        ensures
            pos <= s.len(),
            s@ == old(s)@,
            xs == x@,
            forall|j: int| 0 <= j < pos ==> lex_le(#[trigger] views(s@)[j], xs),
            pos < s.len() ==> !lex_le(views(s@)[pos as int], xs),
        decreases s.len() - pos,
    {
        if !lex_le_exec(&s[pos], &x) {
            assert(views(s@)[pos as int] == s@[pos as int]@);
            break;
        }
        assert(views(s@)[pos as int] == s@[pos as int]@);
        pos += 1;
    }
    let ghost before = views(s@);
    s.insert(pos, x);
    proof {
        let after = views(s@);
        assert(after =~= before.insert(pos as int, xs));
        vstd::seq_lib::to_multiset_insert(before, pos as int, xs);
        if pos < before.len() {
            lemma_lex_total(before[pos as int], xs);
        }
        assert forall|i: int, j: int| 0 <= i < j < after.len() implies lex_le(
            #[trigger] after[i],
            #[trigger] after[j],
        ) by {
            if j < pos {
                assert(after[i] == before[i] && after[j] == before[j]);
            } else if j == pos {
                assert(after[i] == before[i]);
            } else if i == pos {
                assert(after[j] == before[j - 1]);
                if j - 1 > pos {
                    lemma_lex_trans(xs, before[pos as int], before[j - 1]);
                }
            } else if i < pos {
                assert(after[i] == before[i] && after[j] == before[j - 1]);
            } else {
                assert(after[i] == before[i - 1] && after[j] == before[j - 1]);
            }
        }
    }
}

impl EnvKeys {
    /// The lines that write the keys, in the order the list holds them.
    pub closed spec fn lines(&self) -> Seq<Seq<char>> {
        entry_lines(self.entries@)
    }

    /// `text` writes the keys: their lines sorted, joined as `env_text` joins them.
    pub open spec fn renders_as(&self, text: Seq<char>) -> bool {
        exists|ls: Seq<Seq<char>>|
            sorted_lines(ls) && ls.to_multiset() == self.lines().to_multiset() && text
                == env_text(ls)
    }
}

/// Appends the characters of `v` to `s`.
fn push_all(s: &mut String, v: &Vec<char>)
    ensures
        final(s)@ == old(s)@ + v@,
{
    let mut i: usize = 0;
    while i < v.len()
        invariant
            i <= v.len(),
            s@ == old(s)@ + v@.take(i as int),
        decreases v.len() - i,
    {
        push_char(s, v[i]);
        i += 1;
        assert(s@ =~= old(s)@ + v@.take(i as int));
    }
    assert(v@.take(v@.len() as int) =~= v@);
}

/// The text of the `.env` file that holds `keys`: one `KEY=value` line per key,
/// sorted, each followed by a newline; a lone newline where there are no keys.
pub fn render_env_keys(keys: &EnvKeys) -> (text: String)
    requires
        keys.wf(),
    ensures
        keys.renders_as(text@),
{
    let mut sorted: Vec<Vec<char>> = Vec::new();
    let mut i: usize = 0;
    assert(views(sorted@) =~= Seq::<Seq<char>>::empty());
    assert(keys.lines().take(0) =~= Seq::<Seq<char>>::empty());
    while i < keys.entries.len()
        invariant
            i <= keys.entries@.len(),
            sorted_lines(views(sorted@)),
            views(sorted@).to_multiset() == keys.lines().take(i as int).to_multiset(),
        decreases keys.entries@.len() - i,
    {
        let mut line = chars_of(keys.entries[i].0.as_str());
        line.push('=');
        let value = chars_of(keys.entries[i].1.as_str());
        let mut j: usize = 0;
        while j < value.len()
            invariant
                i < keys.entries@.len(),
                j <= value.len(),
                line@ == keys.entries@[i as int].0@ + seq!['='] + value@.take(j as int),
            decreases value.len() - j,
        {
            line.push(value[j]);
            j += 1;
            assert(line@ =~= keys.entries@[i as int].0@ + seq!['='] + value@.take(j as int));
        }
        assert(value@.take(value@.len() as int) =~= value@);
        assert(line@ == keys.lines()[i as int]);
        insert_sorted(&mut sorted, line);
        proof {
            assert(keys.lines().take(i + 1) =~= keys.lines().take(i as int).push(
                keys.lines()[i as int],
            ));
            vstd::seq_lib::to_multiset_build(keys.lines().take(i as int), keys.lines()[i as int]);
        }
        i += 1;
    }
    assert(keys.lines().take(keys.entries@.len() as int) =~= keys.lines());
    let ghost ls = views(sorted@);
    let mut text = String::new();
    if sorted.len() == 0 {
        push_char(&mut text, '\n');
        assert(text@ =~= env_text(ls));
        return text;
    }
    let mut k: usize = 0;
    while k < sorted.len()
        invariant
            k <= sorted.len(),
            ls == views(sorted@),
            text@ == join_lines(ls.take(k as int)),
        decreases sorted.len() - k,
    {
        push_all(&mut text, &sorted[k]);
        push_char(&mut text, '\n');
        assert(ls.take(k + 1).drop_last() =~= ls.take(k as int));
        k += 1;
    }
    assert(ls.take(ls.len() as int) =~= ls);
    text
}


/// A key that a `.env` line gives back as it is: trimmed, without `=` or a
/// newline, and not starting with `#`.
pub open spec fn clean_key(k: Seq<char>) -> bool {
    &&& trim(k) == k
    &&& !k.contains('=')
    &&& !k.contains('\n')
    &&& (k.len() > 0 ==> k[0] != '#')
}

/// A value that a `.env` line gives back as it is: trimmed, without a newline.
pub open spec fn clean_value(v: Seq<char>) -> bool {
    trim(v) == v && !v.contains('\n')
}

/// Every key and value of `m` is clean.
pub open spec fn clean_keys(m: Map<Seq<char>, Seq<char>>) -> bool {
    forall|k: Seq<char>| #[trigger] m.contains_key(k) ==> clean_key(k) && clean_value(m[k])
}

/// The line `l` sets the key `k`.
pub open spec fn sets_key(l: Seq<char>, k: Seq<char>) -> bool {
    match parse_line(l) {
        Some(kv) => kv.0 == k,
        None => false,
    }
}

/// The key that the line `l` sets, if it sets one.
pub open spec fn line_key(l: Seq<char>) -> Seq<char> {
    match parse_line(l) {
        Some(kv) => kv.0,
        None => Seq::empty(),
    }
}

/// The value that the line `l` sets, if it sets one.
pub open spec fn line_value(l: Seq<char>) -> Seq<char> {
    match parse_line(l) {
        Some(kv) => kv.1,
        None => Seq::empty(),
    }
}

proof fn lemma_pieces_concat(s: Seq<char>, t: Seq<char>)
    requires
        !t.contains('\n'),
    ensures
        pieces(s + t) == pieces(s).update(pieces(s).len() - 1, pieces(s).last() + t),
    decreases t.len(),
{
    lemma_pieces_len(s);
    let p = pieces(s);
    if t.len() == 0 {
        assert(s + t =~= s);
        assert(p.update(p.len() - 1, p.last() + t) =~= p);
    } else {
        let t2 = t.drop_last();
        assert(!t2.contains('\n')) by {
            if t2.contains('\n') {
                let j = choose|j: int| 0 <= j < t2.len() && t2[j] == '\n';
                assert(t[j] == '\n');
            }
        }
        assert(t[t.len() - 1] != '\n');
        lemma_pieces_concat(s, t2);
        assert((s + t).drop_last() =~= s + t2);
        assert((s + t).last() == t.last());
        let q = pieces(s + t2);
        assert(q.len() == p.len());
        assert(q.last() == p.last() + t2);
        assert((p.last() + t2).push(t.last()) =~= p.last() + t);
        assert(pieces(s + t) =~= p.update(p.len() - 1, p.last() + t));
    }
}

proof fn lemma_pieces_join(ls: Seq<Seq<char>>)
    requires
        forall|i: int| 0 <= i < ls.len() ==> !(#[trigger] ls[i]).contains('\n'),
    ensures
        pieces(join_lines(ls)) == ls.push(Seq::empty()),
    decreases ls.len(),
{
    if ls.len() == 0 {
        assert(ls.push(Seq::empty()) =~= seq![Seq::<char>::empty()]);
    } else {
        let init = ls.drop_last();
        assert forall|i: int| 0 <= i < init.len() implies !(#[trigger] init[i]).contains('\n') by {
            assert(init[i] == ls[i]);
        }
        lemma_pieces_join(init);
        let j0 = join_lines(init);
        lemma_pieces_concat(j0, ls.last());
        assert(init.push(Seq::empty()).update(init.len() as int, Seq::empty() + ls.last()) =~= ls);
        let x = j0 + ls.last();
        assert((x + seq!['\n']).drop_last() =~= x);
        assert(join_lines(ls) == x + seq!['\n']);
    }
}

proof fn lemma_parse_lines_push_empty(ls: Seq<Seq<char>>)
    ensures
        parse_lines(ls.push(Seq::empty())) == parse_lines(ls),
{
    assert(ls.push(Seq::empty()).drop_last() =~= ls);
    assert(trim(Seq::<char>::empty()) == Seq::<char>::empty());
}

/// Lemma: the line that writes a clean key with a clean value reads back as
/// that key and value.
pub proof fn lemma_parse_env_line(k: Seq<char>, v: Seq<char>)
    requires
        clean_key(k),
        clean_value(v),
    ensures
        parse_line(env_line(k, v)) == Some((k, v)),
        !env_line(k, v).contains('\n'),
{
    let l = env_line(k, v);
    let eq = seq!['='];
    assert(!is_ws('='));
    if k.len() > 0 {
        lemma_trimmed_ends(k);
        assert(l[0] == k[0]);
    } else {
        assert(l[0] == '=');
    }
    if v.len() > 0 {
        lemma_trimmed_ends(v);
        assert(l.last() == v.last());
    } else {
        assert(l.last() == '=');
    }
    lemma_trim_fixed(l);
    assert(l =~= k + (eq + v));
    lemma_find_char_concat(k, eq + v, '=');
    assert((eq + v)[0] == '=');
    assert(find_char(eq + v, '=') == 0);
    assert(l.take(k.len() as int) =~= k);
    assert(l.skip(k.len() + 1 as int) =~= v);
    assert(!l.contains('\n')) by {
        if l.contains('\n') {
            let j = choose|j: int| 0 <= j < l.len() && l[j] == '\n';
            if j < k.len() {
                assert(k[j] == '\n');
            } else if j > k.len() {
                assert(v[j - k.len() - 1] == '\n');
            }
        }
    }
}

proof fn lemma_parse_lines_absent(ls: Seq<Seq<char>>, k: Seq<char>)
    requires
        forall|j: int| 0 <= j < ls.len() ==> !sets_key(#[trigger] ls[j], k),
    ensures
        !parse_lines(ls).contains_key(k),
    decreases ls.len(),
{
    if ls.len() > 0 {
        let init = ls.drop_last();
        assert forall|j: int| 0 <= j < init.len() implies !sets_key(#[trigger] init[j], k) by {
            assert(init[j] == ls[j]);
        }
        lemma_parse_lines_absent(init, k);
        assert(!sets_key(ls[ls.len() - 1], k));
    }
}

proof fn lemma_parse_lines_present(ls: Seq<Seq<char>>, k: Seq<char>, v: Seq<char>, j0: int)
    requires
        0 <= j0 < ls.len(),
        sets_key(ls[j0], k),
        forall|j: int|
            0 <= j < ls.len() && sets_key(#[trigger] ls[j], k) ==> line_value(ls[j]) == v,
    ensures
        parse_lines(ls).contains_key(k),
        parse_lines(ls)[k] == v,
    decreases ls.len(),
{
    let last = ls[ls.len() - 1];
    if !sets_key(last, k) {
        let init = ls.drop_last();
        assert(j0 < ls.len() - 1);
        assert(init[j0] == ls[j0]);
        assert forall|j: int|
            0 <= j < init.len() && sets_key(#[trigger] init[j], k) implies line_value(init[j]) == v by {
            assert(init[j] == ls[j]);
        }
        lemma_parse_lines_present(init, k, v, j0);
    }
}

/// Law: reading back the text that `render_env_keys` writes gives the same
/// keys, when every key and value is clean.
pub proof fn lemma_env_round_trip(keys: EnvKeys, text: Seq<char>)
    requires
        keys.wf(),
        clean_keys(keys@),
        keys.renders_as(text),
    ensures
        parse_env(text) == keys@,
{
    let e = keys.entries@;
    let m = keys@;
    let lines = keys.lines();
    let ls = choose|ls: Seq<Seq<char>>|
        sorted_lines(ls) && ls.to_multiset() == lines.to_multiset() && text == env_text(ls);
    assert forall|j: int| 0 <= j < ls.len() implies exists|i: int|
        0 <= i < e.len() && #[trigger] ls[j] == env_line(e[i].0@, e[i].1@) by {
        vstd::seq_lib::to_multiset_contains(ls, ls[j]);
        vstd::seq_lib::to_multiset_contains(lines, ls[j]);
        let i = choose|i: int| 0 <= i < lines.len() && lines[i] == ls[j];
        assert(lines[i] == env_line(e[i].0@, e[i].1@));
    }
    assert forall|j: int| 0 <= j < ls.len() implies exists|kk: Seq<char>|
        m.contains_key(kk) && parse_line(#[trigger] ls[j]) == Some((kk, m[kk])) && !ls[j].contains(
            '\n',
        ) by {
        let i = choose|i: int| 0 <= i < e.len() && #[trigger] ls[j] == env_line(e[i].0@, e[i].1@);
        lemma_entries_map_has(e, i);
        lemma_parse_env_line(e[i].0@, e[i].1@);
    }
    if ls.len() == 0 {
        vstd::seq_lib::to_multiset_len(ls);
        vstd::seq_lib::to_multiset_len(lines);
        assert(e.len() == 0);
        assert(seq!['\n'].drop_last() =~= Seq::<char>::empty());
        assert(pieces(Seq::<char>::empty()) == seq![Seq::<char>::empty()]);
        assert(seq!['\n'].last() == '\n');
        assert(pieces(seq!['\n']) =~= seq![Seq::<char>::empty(), Seq::<char>::empty()]);
        assert(trim(Seq::<char>::empty()) == Seq::<char>::empty());
        assert(seq![Seq::<char>::empty(), Seq::<char>::empty()].drop_last() =~= seq![
            Seq::<char>::empty(),
        ]);
        assert(seq![Seq::<char>::empty()].drop_last() =~= Seq::<Seq<char>>::empty());
        let two = seq![Seq::<char>::empty(), Seq::<char>::empty()];
        let one = seq![Seq::<char>::empty()];
        assert(text == seq!['\n']);
        assert(parse_line(Seq::<char>::empty()) is None);
        assert(parse_lines(Seq::<Seq<char>>::empty()) == Map::<Seq<char>, Seq<char>>::empty());
        assert(parse_lines(one) == parse_lines(one.drop_last()));
        assert(parse_lines(two) == parse_lines(two.drop_last()));
        assert(m == Map::<Seq<char>, Seq<char>>::empty());
        assert(parse_env(text) =~= m);
    } else {
        lemma_pieces_join(ls);
        lemma_parse_lines_push_empty(ls);
        assert(parse_env(text) == parse_lines(ls));
        assert forall|kk: Seq<char>|
            #![trigger parse_lines(ls).contains_key(kk)]
            #![trigger m.contains_key(kk)]
            parse_lines(ls).contains_key(kk) == m.contains_key(kk) && (m.contains_key(kk)
                ==> parse_lines(ls)[kk] == m[kk]) by {
            if m.contains_key(kk) {
                lemma_entries_map_only(e, kk);
                let i = choose|i: int| 0 <= i < e.len() && (#[trigger] e[i]).0@ == kk;
                lemma_entries_map_has(e, i);
                let line = lines[i];
                assert(line == env_line(kk, m[kk]));
                lemma_parse_env_line(kk, m[kk]);
                vstd::seq_lib::to_multiset_contains(lines, line);
                vstd::seq_lib::to_multiset_contains(ls, line);
                let j0 = choose|j0: int| 0 <= j0 < ls.len() && ls[j0] == line;
                assert forall|j: int|
                    0 <= j < ls.len() && sets_key(#[trigger] ls[j], kk) implies line_value(ls[j]) == m[kk] by {
                    let k2 = choose|k2: Seq<char>|
                        m.contains_key(k2) && parse_line(ls[j]) == Some((k2, m[k2]))
                            && !ls[j].contains('\n');
                }
                lemma_parse_lines_present(ls, kk, m[kk], j0);
            } else {
                assert forall|j: int| 0 <= j < ls.len() implies !sets_key(#[trigger] ls[j], kk) by {
                    let k2 = choose|k2: Seq<char>|
                        m.contains_key(k2) && parse_line(ls[j]) == Some((k2, m[k2]))
                            && !ls[j].contains('\n');
                }
                lemma_parse_lines_absent(ls, kk);
            }
        }
        assert(parse_lines(ls).dom() =~= m.dom());
        assert(parse_lines(ls) =~= m);
    }
}


proof fn lemma_pieces_no_newline(s: Seq<char>)
    ensures
        forall|i: int| 0 <= i < pieces(s).len() ==> !(#[trigger] pieces(s)[i]).contains('\n'),
    decreases s.len(),
{
    lemma_pieces_len(s);
    if s.len() > 0 {
        let p = pieces(s.drop_last());
        lemma_pieces_no_newline(s.drop_last());
        lemma_pieces_len(s.drop_last());
        if s.last() != '\n' {
            assert forall|i: int| 0 <= i < pieces(s).len() implies !(
            #[trigger] pieces(s)[i]).contains('\n') by {
                if i == p.len() - 1 {
                    let x = p.last().push(s.last());
                    assert(pieces(s)[i] == x);
                    if x.contains('\n') {
                        let j = choose|j: int| 0 <= j < x.len() && x[j] == '\n';
                        if j < p.last().len() {
                            assert(p.last()[j] == '\n');
                            assert(p.last().contains('\n'));
                        }
                    }
                } else {
                    assert(pieces(s)[i] == p[i]);
                }
            }
        } else {
            assert forall|i: int| 0 <= i < pieces(s).len() implies !(
            #[trigger] pieces(s)[i]).contains('\n') by {
                if i < p.len() {
                    assert(pieces(s)[i] == p[i]);
                } else {
                    assert(pieces(s)[i] == Seq::<char>::empty());
                }
            }
        }
    }
}

proof fn lemma_no_char_in_subrange(s: Seq<char>, a: int, b: int, c: char)
    requires
        0 <= a <= b <= s.len(),
        forall|j: int| a <= j < b ==> s[j] != c,
    ensures
        !s.subrange(a, b).contains(c),
{
    if s.subrange(a, b).contains(c) {
        let j = choose|j: int| 0 <= j < b - a && s.subrange(a, b)[j] == c;
        assert(s[a + j] == c);
    }
}

/// Lemma: a line without a newline gives a clean key and value, if any.
proof fn lemma_parse_line_clean(l: Seq<char>)
    requires
        !l.contains('\n'),
        parse_line(l) is Some,
    ensures
        clean_key(line_key(l)),
        clean_value(line_value(l)),
{
    let (a, b) = lemma_trim_shape(l);
    let t = trim(l);
    assert forall|j: int| 0 <= j < t.len() implies t[j] != '\n' by {
        assert(t[j] == l[a + j]);
    }
    let i = find_char(t, '=');
    lemma_find_char(t, '=');
    let kt = t.take(i);
    let vt = t.skip(i + 1);
    let (ka, kb) = lemma_trim_shape(kt);
    let (va, vb) = lemma_trim_shape(vt);
    lemma_trim_idempotent(kt);
    lemma_trim_idempotent(vt);
    lemma_no_char_in_subrange(kt, ka, kb, '=');
    lemma_no_char_in_subrange(kt, ka, kb, '\n');
    lemma_no_char_in_subrange(vt, va, vb, '\n');
    let k = trim(kt);
    if k.len() > 0 {
        assert(kt[0] == t[0]);
        assert(!is_ws(t[0]));
        assert(ka == 0);
        assert(k[0] == t[0]);
    }
}

/// Law: every key and value that a `.env` text sets is clean, so what is read
/// from a file is written back as it was read.
pub proof fn lemma_parse_env_clean(s: Seq<char>)
    ensures
        clean_keys(parse_env(s)),
{
    lemma_pieces_no_newline(s);
    lemma_parse_lines_clean(pieces(s));
}

proof fn lemma_parse_lines_clean(ls: Seq<Seq<char>>)
    requires
        forall|i: int| 0 <= i < ls.len() ==> !(#[trigger] ls[i]).contains('\n'),
    ensures
        clean_keys(parse_lines(ls)),
    decreases ls.len(),
{
    if ls.len() > 0 {
        let init = ls.drop_last();
        assert forall|i: int| 0 <= i < init.len() implies !(#[trigger] init[i]).contains('\n') by {
            assert(init[i] == ls[i]);
        }
        lemma_parse_lines_clean(init);
        assert(!ls[ls.len() - 1].contains('\n'));
        if parse_line(ls.last()) is Some {
            lemma_parse_line_clean(ls.last());
        }
    }
}


pub proof fn lemma_lex_refl(a: Seq<char>)
    ensures
        lex_le(a, a),
    decreases a.len(),
{
    if a.len() > 0 {
        lemma_lex_refl(a.drop_first());
    }
}

pub proof fn lemma_lex_antisym(a: Seq<char>, b: Seq<char>)
    requires
        lex_le(a, b),
        lex_le(b, a),
    ensures
        a == b,
    decreases a.len(),
{
    if a.len() > 0 && b.len() > 0 {
        vstd::utf8::char_u32_cast(a[0], a[0] as u32);
        vstd::utf8::char_u32_cast(b[0], b[0] as u32);
        lemma_lex_antisym(a.drop_first(), b.drop_first());
        assert(a =~= seq![a[0]] + a.drop_first());
        assert(b =~= seq![b[0]] + b.drop_first());
    } else {
        assert(a =~= b);
    }
}

proof fn lemma_lines_multiset(s1: Seq<(String, String)>, s2: Seq<(String, String)>)
    requires
        distinct_keys(s1),
        distinct_keys(s2),
        entries_map(s1) == entries_map(s2),
    ensures
        entry_lines(s1).to_multiset() == entry_lines(s2).to_multiset(),
    decreases s1.len(),
{
    broadcast use vstd::multiset::group_multiset_axioms;

    lemma_entries_dom_len(s1);
    lemma_entries_dom_len(s2);
    if s1.len() == 0 {
        assert(entry_lines(s1) =~= Seq::<Seq<char>>::empty());
        assert(entry_lines(s2) =~= Seq::<Seq<char>>::empty());
    } else {
        let n = s1.len() - 1;
        let k = s1[n].0@;
        let line = env_line(k, s1[n].1@);
        lemma_entries_map_has(s1, n);
        lemma_entries_map_only(s2, k);
        let j = choose|j: int| 0 <= j < s2.len() && (#[trigger] s2[j]).0@ == k;
        lemma_entries_map_has(s2, j);
        lemma_entries_map_remove(s1, n);
        lemma_entries_map_remove(s2, j);
        let s1p = s1.remove(n);
        let s2p = s2.remove(j);
        assert(s1p =~= s1.drop_last());
        lemma_lines_multiset(s1p, s2p);
        let l1 = entry_lines(s1);
        let l2 = entry_lines(s2);
        assert(l1 =~= entry_lines(s1p).push(line));
        vstd::seq_lib::to_multiset_build(entry_lines(s1p), line);
        assert(entry_lines(s2p) =~= l2.remove(j));
        assert(l2[j] == line);
        vstd::seq_lib::to_multiset_remove(l2, j);
        vstd::seq_lib::to_multiset_contains(l2, line);
        assert(l2.to_multiset().remove(line).insert(line) =~= l2.to_multiset());
    }
}

proof fn lemma_sorted_unique(a: Seq<Seq<char>>, b: Seq<Seq<char>>)
    requires
        sorted_lines(a),
        sorted_lines(b),
        a.to_multiset() == b.to_multiset(),
    ensures
        a == b,
    decreases a.len(),
{
    vstd::seq_lib::to_multiset_len(a);
    vstd::seq_lib::to_multiset_len(b);
    if a.len() == 0 {
        assert(a =~= b);
    } else {
        let n = a.len() - 1;
        let x = a[n];
        let y = b[n];
        vstd::seq_lib::to_multiset_contains(a, x);
        vstd::seq_lib::to_multiset_contains(b, x);
        vstd::seq_lib::to_multiset_contains(a, y);
        vstd::seq_lib::to_multiset_contains(b, y);
        let i = choose|i: int| 0 <= i < b.len() && b[i] == x;
        let i2 = choose|i2: int| 0 <= i2 < a.len() && a[i2] == y;
        if i < n {
            assert(lex_le(b[i], b[n]));
        } else {
            lemma_lex_refl(y);
        }
        if i2 < n {
            assert(lex_le(a[i2], a[n]));
        } else {
            lemma_lex_refl(x);
        }
        lemma_lex_antisym(x, y);
        vstd::seq_lib::to_multiset_remove(a, n);
        vstd::seq_lib::to_multiset_remove(b, n);
        let ap = a.remove(n);
        let bp = b.remove(n);
        assert(sorted_lines(ap)) by {
            assert forall|p: int, q: int| 0 <= p < q < ap.len() implies lex_le(
                #[trigger] ap[p],
                #[trigger] ap[q],
            ) by {
                assert(ap[p] == a[p] && ap[q] == a[q]);
            }
        }
        assert(sorted_lines(bp)) by {
            assert forall|p: int, q: int| 0 <= p < q < bp.len() implies lex_le(
                #[trigger] bp[p],
                #[trigger] bp[q],
            ) by {
                assert(bp[p] == b[p] && bp[q] == b[q]);
            }
        }
        lemma_sorted_unique(ap, bp);
        assert(a =~= ap.push(x));
        assert(b =~= bp.push(y));
    }
}

/// Law: the text written for the keys depends only on which keys hold which
/// values, not on the order in which they were set.
pub proof fn lemma_render_depends_only_on_keys(
    k1: EnvKeys,
    k2: EnvKeys,
    t1: Seq<char>,
    t2: Seq<char>,
)
    requires
        k1.wf(),
        k2.wf(),
        k1@ == k2@,
        k1.renders_as(t1),
        k2.renders_as(t2),
    ensures
        t1 == t2,
{
    lemma_lines_multiset(k1.entries@, k2.entries@);
    let ls1 = choose|ls: Seq<Seq<char>>|
        sorted_lines(ls) && ls.to_multiset() == k1.lines().to_multiset() && t1 == env_text(ls);
    let ls2 = choose|ls: Seq<Seq<char>>|
        sorted_lines(ls) && ls.to_multiset() == k2.lines().to_multiset() && t2 == env_text(ls);
    lemma_sorted_unique(ls1, ls2);
}

} // verus!
