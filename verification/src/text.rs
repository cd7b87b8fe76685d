//! Character-level helpers over `str` and `String`.
//!
//! Whitespace follows the Unicode `White_Space` property, as `char::is_whitespace`
//! and `str::trim` do.

use vstd::prelude::*;
use vstd::string::StringSliceAdditionalSpecFns;
use vstd::utf8::{encode_scalar, encode_utf8};

verus! {

/// The Unicode `White_Space` characters.
pub open spec fn is_ws(c: char) -> bool {
    let u = c as u32;
    ||| 0x09 <= u <= 0x0d
    ||| u == 0x20
    ||| u == 0x85
    ||| u == 0xa0
    ||| u == 0x1680
    ||| 0x2000 <= u <= 0x200a
    ||| u == 0x2028
    ||| u == 0x2029
    ||| u == 0x202f
    ||| u == 0x205f
    ||| u == 0x3000
}

/// `s` without its leading whitespace.
pub open spec fn trim_start(s: Seq<char>) -> Seq<char>
    decreases s.len(),
{
    if s.len() > 0 && is_ws(s[0]) {
        trim_start(s.drop_first())
    } else {
        s
    }
}

/// `s` without its trailing whitespace.
pub open spec fn trim_end(s: Seq<char>) -> Seq<char>
    decreases s.len(),
{
    if s.len() > 0 && is_ws(s.last()) {
        trim_end(s.drop_last())
    } else {
        s
    }
}

/// `s` without leading and trailing whitespace, as `str::trim` returns it.
pub open spec fn trim(s: Seq<char>) -> Seq<char> {
    trim_end(trim_start(s))
}

/// The index of the first `c` in `s`, or `s.len()` where there is none.
pub open spec fn find_char(s: Seq<char>, c: char) -> int
    decreases s.len(),
{
    if s.len() == 0 {
        0
    } else if s[0] == c {
        0
    } else {
        1 + find_char(s.drop_first(), c)
    }
}

/// Whether `c` is whitespace.
pub fn is_whitespace(c: char) -> (b: bool)
    ensures
        b == is_ws(c),
{
    let u = c as u32;
    (0x09 <= u && u <= 0x0d) || u == 0x20 || u == 0x85 || u == 0xa0 || u == 0x1680 || (0x2000
        <= u && u <= 0x200a) || u == 0x2028 || u == 0x2029 || u == 0x202f || u == 0x205f || u
        == 0x3000
}

/// The characters of `s`, in order.
pub fn chars_of(s: &str) -> (r: Vec<char>)
    ensures
        r@ == s@,
{
    let mut r: Vec<char> = Vec::new();
    for c in iter: s.chars()
        invariant
            r@ == iter.seq().take(iter.index() as int),
            iter.seq() == s@,
    {
        r.push(c);
    }
    r
}

/// Appends `c` to `s`.
///
/// Trusted: the body calls `String::push`, which appends a `char` to the end of
/// a string; the contract claims that the characters of `s` afterwards are its
/// former characters followed by `c`.
#[verifier::external_body]
pub(crate) fn push_char(s: &mut String, c: char)
    ensures
        final(s)@ == old(s)@.push(c),
{
    s.push(c);
}

/// Whether two string slices hold the same characters (`==` on `str`).
pub fn str_equal(a: &str, b: &str) -> (r: bool)
    ensures
        r == (a@ == b@),
{
    let x = chars_of(a);
    let y = chars_of(b);
    if x.len() != y.len() {
        return false;
    }
    let mut i: usize = 0;
    while i < x.len()
        invariant
            x@ == a@,
            y@ == b@,
            x@.len() == y@.len(),
            i <= x@.len(),
            forall|j: int| 0 <= j < i ==> x@[j] == y@[j],
        decreases x@.len() - i,
    {
        if x[i] != y[i] {
            assert(a@[i as int] != b@[i as int]);
            return false;
        }
        i += 1;
    }
    assert(x@ =~= y@);
    true
}

/// The string made of `v[lo..hi]`.
pub fn string_from_range(v: &Vec<char>, lo: usize, hi: usize) -> (s: String)
    requires
        lo <= hi <= v.len(),
    ensures
        s@ == v@.subrange(lo as int, hi as int),
{
    let mut s = String::new();
    let mut i = lo;
    while i < hi
        invariant
            lo <= i <= hi <= v.len(),
            s@ == v@.subrange(lo as int, i as int),
        decreases hi - i,
    {
        push_char(&mut s, v[i]);
        i += 1;
        assert(s@ =~= v@.subrange(lo as int, i as int));
    }
    s
}

/// Lemma: dropping leading whitespace never lengthens a sequence, and shortens it
/// when it starts with whitespace.
pub proof fn lemma_trim_start_len(s: Seq<char>)
    ensures
        trim_start(s).len() <= s.len(),
        s.len() > 0 && is_ws(s[0]) ==> trim_start(s).len() < s.len(),
        trim_start(s).len() == s.len() ==> trim_start(s) == s,
    decreases s.len(),
{
    if s.len() > 0 && is_ws(s[0]) {
        lemma_trim_start_len(s.drop_first());
    }
}

/// Lemma: dropping trailing whitespace never lengthens a sequence, and shortens it
/// when it ends with whitespace.
pub proof fn lemma_trim_end_len(s: Seq<char>)
    ensures
        trim_end(s).len() <= s.len(),
        s.len() > 0 && is_ws(s.last()) ==> trim_end(s).len() < s.len(),
        trim_end(s).len() == s.len() ==> trim_end(s) == s,
    decreases s.len(),
{
    if s.len() > 0 && is_ws(s.last()) {
        lemma_trim_end_len(s.drop_last());
    }
}

/// Lemma: a trimmed non-empty sequence neither starts nor ends with whitespace.
pub proof fn lemma_trimmed_ends(s: Seq<char>)
    requires
        trim(s) == s,
        s.len() > 0,
    ensures
        !is_ws(s[0]),
        !is_ws(s.last()),
{
    lemma_trim_start_len(s);
    lemma_trim_end_len(trim_start(s));
    if is_ws(s[0]) {
        assert(false);
    }
    assert(trim_start(s) == s);
    if is_ws(s.last()) {
        assert(false);
    }
}

/// Lemma: a sequence that neither starts nor ends with whitespace is its own trim.
pub proof fn lemma_trim_fixed(s: Seq<char>)
    requires
        s.len() > 0 ==> !is_ws(s[0]) && !is_ws(s.last()),
    ensures
        trim(s) == s,
{
}

/// The bounds of `v[lo..hi]` with its leading and trailing whitespace left out.
pub fn trim_range(v: &Vec<char>, lo: usize, hi: usize) -> (r: (usize, usize))
    requires
        lo <= hi <= v.len(),
    ensures
        lo <= r.0 <= r.1 <= hi,
        v@.subrange(r.0 as int, r.1 as int) == trim(v@.subrange(lo as int, hi as int)),
{
    let mut a = lo;
    while a < hi && is_whitespace(v[a])
        invariant
            lo <= a <= hi <= v.len(),
            trim_start(v@.subrange(lo as int, hi as int)) == trim_start(
                v@.subrange(a as int, hi as int),
            ),
        decreases hi - a,
    {
        assert(v@.subrange(a as int, hi as int).drop_first() =~= v@.subrange(
            a + 1,
            hi as int,
        ));
        a += 1;
    }
    assert(trim_start(v@.subrange(a as int, hi as int)) == v@.subrange(a as int, hi as int));
    let mut b = hi;
    while b > a && is_whitespace(v[b - 1])
        invariant
            lo <= a <= b <= hi <= v.len(),
            trim(v@.subrange(lo as int, hi as int)) == trim_end(v@.subrange(a as int, b as int)),
        decreases b - a,
    {
        assert(v@.subrange(a as int, b as int).drop_last() =~= v@.subrange(
            a as int,
            b - 1,
        ));
        b -= 1;
    }
    (a, b)
}

/// The index of the first `c` in `v[lo..hi]`, counted from `lo`, or `hi - lo`.
pub fn find_in_range(v: &Vec<char>, lo: usize, hi: usize, c: char) -> (r: usize)
    requires
        lo <= hi <= v.len(),
    ensures
        r == find_char(v@.subrange(lo as int, hi as int), c),
        r <= hi - lo,
{
    let mut i = lo;
    while i < hi && v[i] != c
        invariant
            lo <= i <= hi <= v.len(),
            find_char(v@.subrange(lo as int, hi as int), c) == (i - lo) + find_char(
                v@.subrange(i as int, hi as int),
                c,
            ),
        decreases hi - i,
    {
        assert(v@.subrange(i as int, hi as int).drop_first() =~= v@.subrange(
            i + 1,
            hi as int,
        ));
        i += 1;
    }
    i - lo
}


/// Lemma: dropping leading whitespace leaves a suffix that starts with a
/// character that is not whitespace, if it is not empty.
pub proof fn lemma_trim_start_shape(s: Seq<char>) -> (n: int)
    ensures
        0 <= n <= s.len(),
        trim_start(s) == s.subrange(n, s.len() as int),
        n < s.len() ==> !is_ws(s[n]),
        forall|j: int| 0 <= j < n ==> is_ws(#[trigger] s[j]),
    decreases s.len(),
{
    if s.len() > 0 && is_ws(s[0]) {
        let m = lemma_trim_start_shape(s.drop_first());
        assert forall|j: int| 0 <= j < m + 1 implies is_ws(#[trigger] s[j]) by {
            if j > 0 {
                assert(s[j] == s.drop_first()[j - 1]);
            }
        }
        assert(s.drop_first().subrange(m, s.drop_first().len() as int) =~= s.subrange(
            m + 1,
            s.len() as int,
        ));
        m + 1
    } else {
        assert(s.subrange(0, s.len() as int) =~= s);
        0
    }
}

/// Lemma: dropping trailing whitespace leaves a prefix that ends with a
/// character that is not whitespace, if it is not empty.
pub proof fn lemma_trim_end_shape(s: Seq<char>) -> (n: int)
    ensures
        0 <= n <= s.len(),
        trim_end(s) == s.subrange(0, n),
        n > 0 ==> !is_ws(s[n - 1]),
    decreases s.len(),
{
    if s.len() > 0 && is_ws(s.last()) {
        let m = lemma_trim_end_shape(s.drop_last());
        assert(s.drop_last().subrange(0, m) =~= s.subrange(0, m));
        m
    } else {
        assert(s.subrange(0, s.len() as int) =~= s);
        s.len() as int
    }
}

/// Lemma: the trim of `s` is a stretch `s[a..b]` that, where it is not empty,
/// neither starts nor ends with whitespace; and nothing before `a` is kept.
pub proof fn lemma_trim_shape(s: Seq<char>) -> (r: (int, int))
    ensures
        0 <= r.0 <= r.1 <= s.len(),
        trim(s) == s.subrange(r.0, r.1),
        r.0 < r.1 ==> !is_ws(s[r.0]) && !is_ws(s[r.1 - 1]),
        r.0 < s.len() ==> !is_ws(s[r.0]),
        forall|j: int| 0 <= j < r.0 ==> is_ws(#[trigger] s[j]),
{
    let a = lemma_trim_start_shape(s);
    let t = trim_start(s);
    let n = lemma_trim_end_shape(t);
    assert(t.subrange(0, n) =~= s.subrange(a, a + n));
    (a, a + n)
}

/// Lemma: trimming twice is trimming once.
pub proof fn lemma_trim_idempotent(s: Seq<char>)
    ensures
        trim(trim(s)) == trim(s),
{
    let (a, b) = lemma_trim_shape(s);
    lemma_trim_fixed(trim(s));
}

/// Lemma: the first `c` in `a + b`, where `a` holds no `c`, is the first in `b`.
pub proof fn lemma_find_char_concat(a: Seq<char>, b: Seq<char>, c: char)
    requires
        !a.contains(c),
    ensures
        find_char(a + b, c) == a.len() + find_char(b, c),
    decreases a.len(),
{
    if a.len() > 0 {
        assert(!a.drop_first().contains(c)) by {
            if a.drop_first().contains(c) {
                let j = choose|j: int| 0 <= j < a.drop_first().len() && a.drop_first()[j] == c;
                assert(a[j + 1] == c);
            }
        }
        assert((a + b).drop_first() =~= a.drop_first() + b);
        assert((a + b)[0] == a[0]);
        lemma_find_char_concat(a.drop_first(), b, c);
    } else {
        assert(a + b =~= b);
    }
}

/// Lemma: `find_char` gives the first place of `c`, or the length where `c` is
/// not there.
pub proof fn lemma_find_char(s: Seq<char>, c: char)
    ensures
        0 <= find_char(s, c) <= s.len(),
        forall|j: int| 0 <= j < find_char(s, c) ==> s[j] != c,
        find_char(s, c) < s.len() ==> s[find_char(s, c)] == c,
    decreases s.len(),
{
    if s.len() > 0 && s[0] != c {
        lemma_find_char(s.drop_first(), c);
        assert forall|j: int| 0 <= j < find_char(s, c) implies s[j] != c by {
            if j > 0 {
                assert(s[j] == s.drop_first()[j - 1]);
            }
        }
    }
}


/// `s` as a table shows it: where it has more than `limit` characters, its
/// first `keep` characters followed by `...`; else `s` itself.
pub open spec fn shortened(s: Seq<char>, limit: nat, keep: nat) -> Seq<char> {
    if s.len() > limit {
        s.take(keep as int) + seq!['.', '.', '.']
    } else {
        s
    }
}

/// Shortens `s` for display: its first `keep` characters and `...` where it
/// has more than `limit` characters.
pub fn shorten(s: &str, limit: usize, keep: usize) -> (r: String)
    requires
        keep <= limit,
    ensures
        r@ == shortened(s@, limit as nat, keep as nat),
{
    let cs = chars_of(s);
    if cs.len() > limit {
        let mut r = string_from_range(&cs, 0, keep);
        push_char(&mut r, '.');
        push_char(&mut r, '.');
        push_char(&mut r, '.');
        assert(r@ =~= shortened(s@, limit as nat, keep as nat));
        r
    } else {
        String::from_str(s)
    }
}

/// The number of bytes that UTF-8 takes for `c`.
pub open spec fn utf8_width(c: char) -> nat {
    if (c as u32) < 0x80 {
        1
    } else if (c as u32) < 0x800 {
        2
    } else if (c as u32) < 0x10000 {
        3
    } else {
        4
    }
}

/// The number of bytes of `s` in UTF-8.
pub open spec fn utf8_len(s: Seq<char>) -> nat
    decreases s.len(),
{
    if s.len() == 0 {
        0
    } else {
        utf8_len(s.drop_last()) + utf8_width(s.last())
    }
}

/// The UTF-8 encoding of a character is as long as `utf8_width` says.
proof fn lemma_width_is_encoding(c: char)
    ensures
        encode_scalar(c as u32).len() == utf8_width(c),
{
    vstd::utf8::char_is_scalar(c);
}

/// `utf8_len` counted from the front.
proof fn lemma_utf8_len_front(s: Seq<char>)
    requires
        s.len() > 0,
    ensures
        utf8_len(s) == utf8_width(s[0]) + utf8_len(s.drop_first()),
    decreases s.len(),
{
    if s.len() > 1 {
        lemma_utf8_len_front(s.drop_last());
        assert(s.drop_last()[0] == s[0]);
        assert(s.drop_last().drop_first() =~= s.drop_first().drop_last());
        assert(s.drop_first().last() == s.last());
        assert(utf8_len(s) == utf8_len(s.drop_last()) + utf8_width(s.last()));
        assert(utf8_len(s.drop_first()) == utf8_len(s.drop_first().drop_last()) + utf8_width(
            s.drop_first().last(),
        ));
    } else {
        assert(utf8_len(s.drop_last()) == 0);
        assert(utf8_len(s.drop_first()) == 0);
        assert(s.last() == s[0]);
    }
}

/// Law: `utf8_len` is the length of the UTF-8 encoding of the characters.
pub proof fn lemma_utf8_len_is_encoding_len(s: Seq<char>)
    ensures
        utf8_len(s) == encode_utf8(s).len(),
    decreases s.len(),
{
    if s.len() > 0 {
        lemma_utf8_len_front(s);
        lemma_width_is_encoding(s[0]);
        lemma_utf8_len_is_encoding_len(s.drop_first());
    }
}

/// Law: `utf8_len` of a string's characters is the number of its bytes, what
/// `str::len` gives.
pub proof fn lemma_utf8_len_is_byte_len(s: &str)
    ensures
        utf8_len(s@) == s.spec_bytes().len(),
{
    lemma_utf8_len_is_encoding_len(s@);
}

/// The number of characters of the longest prefix of `s` whose UTF-8 encoding
/// takes at most `n` bytes.
pub open spec fn byte_prefix_len(s: Seq<char>, n: nat) -> nat
    decreases s.len(),
{
    if s.len() == 0 || utf8_len(s) <= n {
        s.len()
    } else {
        byte_prefix_len(s.drop_last(), n)
    }
}

/// `s` as a table shows it when it counts bytes: where its UTF-8 encoding takes
/// more than `limit` bytes, its longest prefix of at most `keep` bytes followed
/// by `...`; else `s` itself.
pub open spec fn shortened_bytes(s: Seq<char>, limit: nat, keep: nat) -> Seq<char> {
    if utf8_len(s) > limit {
        s.take(byte_prefix_len(s, keep) as int) + seq!['.', '.', '.']
    } else {
        s
    }
}

/// Once a prefix of `s` fits in `n` bytes and one more character does not, that
/// prefix is the longest that fits, in every longer prefix of `s`, and no longer
/// prefix fits.
proof fn lemma_prefix_stops(s: Seq<char>, n: nat, k: int, j: int)
    requires
        0 <= k < j <= s.len(),
        utf8_len(s.take(k)) <= n,
        utf8_len(s.take(k + 1)) > n,
    ensures
        byte_prefix_len(s.take(j), n) == k,
        utf8_len(s.take(j)) > n,
    decreases j,
{
    assert(s.take(j).drop_last() =~= s.take(j - 1));
    if j == k + 1 {
        assert(byte_prefix_len(s.take(k), n) == k);
    } else {
        lemma_prefix_stops(s, n, k, j - 1);
    }
    assert(utf8_len(s.take(j)) == utf8_len(s.take(j - 1)) + utf8_width(s.take(j).last()));
}

/// The UTF-8 width of `c`.
fn char_width(c: char) -> (w: usize)
    ensures
        w == utf8_width(c),
{
    let code = c as u32;
    if code < 0x80 {
        1
    } else if code < 0x800 {
        2
    } else if code < 0x10000 {
        3
    } else {
        4
    }
}

/// The number of leading characters of `cs` whose UTF-8 encoding fits in `n`
/// bytes, as many as fit.
fn fitting_prefix(cs: &Vec<char>, n: usize) -> (k: usize)
    ensures
        k == byte_prefix_len(cs@, n as nat),
        k <= cs@.len(),
        k == cs@.len() <==> utf8_len(cs@) <= n,
{
    let len = cs.len();
    let mut k: usize = 0;
    let mut bytes: usize = 0;
    let mut full = false;
    while k < len && !full
        invariant
            k <= len,
            len == cs@.len(),
            bytes == utf8_len(cs@.take(k as int)),
            bytes <= n,
            full ==> k < len && utf8_len(cs@.take(k as int + 1)) > n,
        decreases len - k + (if full { 0int } else { 1int }),
    {
        let w = char_width(cs[k]);
        assert(cs@.take(k as int + 1).drop_last() =~= cs@.take(k as int));
        if w > n - bytes {
            full = true;
        } else {
            bytes = bytes + w;
            k = k + 1;
        }
    }
    assert(cs@.take(len as int) =~= cs@);
    proof {
        if full {
            lemma_prefix_stops(cs@, n as nat, k as int, len as int);
        }
    }
    k
}

/// Shortens `s` for display by its UTF-8 length: where it takes more than
/// `limit` bytes, its longest prefix of at most `keep` bytes and `...`.
pub fn shorten_bytes(s: &str, limit: usize, keep: usize) -> (r: String)
    requires
        keep <= limit,
    ensures
        r@ == shortened_bytes(s@, limit as nat, keep as nat),
{
    let cs = chars_of(s);
    let fits = fitting_prefix(&cs, limit);
    if fits < cs.len() {
        let k = fitting_prefix(&cs, keep);
        let mut r = string_from_range(&cs, 0, k);
        push_char(&mut r, '.');
        push_char(&mut r, '.');
        push_char(&mut r, '.');
        assert(r@ =~= shortened_bytes(s@, limit as nat, keep as nat));
        r
    } else {
        String::from_str(s)
    }
}

/// The first `n` characters of `s`, or all of `s` where it has fewer.
pub fn prefix_chars(s: &str, n: usize) -> (r: String)
    ensures
        r@ == (if s@.len() <= n {
            s@
        } else {
            s@.take(n as int)
        }),
{
    let cs = chars_of(s);
    if cs.len() <= n {
        String::from_str(s)
    } else {
        let r = string_from_range(&cs, 0, n);
        assert(r@ =~= s@.take(n as int));
        r
    }
}

} // verus!
