//! The API keys of the backends, kept in the `.env` file beside the
//! configuration rather than in the configuration itself.

use vstd::prelude::*;
use crate::env_file::{
    clean_key, clean_keys, clean_value, lemma_env_round_trip, lemma_parse_env_clean, parse_env,
    EnvKeys,
};
use crate::config::{without_key, Backend};
use crate::text::{chars_of, push_char, str_equal, string_from_range};

verus! {

/// What `str::to_uppercase` gives for `s`: the Unicode uppercase mapping of each
/// character, in order.
pub uninterp spec fn uppercase(s: Seq<char>) -> Seq<char>;

/// The Unicode uppercase of `s`.
///
/// Trusted: the body calls `str::to_uppercase`; the contract claims only that
/// the result's characters are `uppercase(s@)`, a function of the characters of
/// `s` alone (no locale is involved). What that mapping is, character by
/// character, is left unsaid: it is Unicode's table.
#[verifier::external_body]
fn to_uppercase(s: &str) -> (r: String)
    ensures
        r@ == uppercase(s@),
{
    s.to_uppercase()
}

/// `s` with every `-` turned into `_`.
pub open spec fn dashes_to_underscores(s: Seq<char>) -> Seq<char> {
    s.map_values(|c: char| if c == '-' { '_' } else { c })
}

/// The name under which the `.env` file keeps the key of the backend `name`:
/// the name in upper case, `-` turned into `_`, followed by `_KEY`.
pub open spec fn key_name(name: Seq<char>) -> Seq<char> {
    dashes_to_underscores(uppercase(name)) + seq!['_', 'K', 'E', 'Y']
}

/// The name of a `.env` entry made from a backend's name already in upper case:
/// `-` turned into `_`, followed by `_KEY`.
pub fn key_name_from_upper(upper: &str) -> (r: String)
    ensures
        r@ == dashes_to_underscores(upper@) + seq!['_', 'K', 'E', 'Y'],
        r@.len() == upper@.len() + 4,
        forall|i: int|
            0 <= i < upper@.len() ==> r@[i] == (if upper@[i] == '-' {
                '_'
            } else {
                upper@[i]
            }),
        r@.skip(upper@.len() as int) == seq!['_', 'K', 'E', 'Y'],
{
    let cs = chars_of(upper);
    let mut r = String::new();
    let mut i: usize = 0;
    while i < cs.len()
        invariant
            i <= cs.len(),
            cs@ == upper@,
            r@ == dashes_to_underscores(cs@.take(i as int)),
        decreases cs.len() - i,
    {
        let c = cs[i];
        push_char(&mut r, if c == '-' { '_' } else { c });
        i += 1;
        assert(r@ =~= dashes_to_underscores(cs@.take(i as int)));
    }
    assert(cs@.take(cs@.len() as int) =~= cs@);
    push_char(&mut r, '_');
    push_char(&mut r, 'K');
    push_char(&mut r, 'E');
    push_char(&mut r, 'Y');
    assert(r@ =~= dashes_to_underscores(upper@) + seq!['_', 'K', 'E', 'Y']);
    assert(r@.skip(upper@.len() as int) =~= seq!['_', 'K', 'E', 'Y']);
    r
}

/// The name of the `.env` entry that holds the key of `backend_name`.
pub fn env_key_name(backend_name: &str) -> (r: String)
    ensures
        r@ == key_name(backend_name@),
{
    let upper = to_uppercase(backend_name);
    key_name_from_upper(upper.as_str())
}

/// The masked form of `key`: as many `*` as it has characters where it has at
/// most seven, else its first three characters, `...`, and its last four.
pub open spec fn masked(key: Seq<char>) -> Seq<char> {
    if key.len() <= 7 {
        Seq::new(key.len(), |i: int| '*')
    } else {
        key.take(3) + seq!['.', '.', '.'] + key.skip(key.len() - 4)
    }
}

/// The form of a key that may be shown: the first three and the last four
/// characters, or only stars for a short key.
pub fn mask_key(key: &str) -> (r: String)
    ensures
        r@ == masked(key@),
{
    let cs = chars_of(key);
    let n = cs.len();
    if n <= 7 {
        let mut r = String::new();
        let mut i: usize = 0;
        while i < n
            invariant
                i <= n,
                n == key@.len(),
                r@ == Seq::new(i as nat, |j: int| '*'),
            decreases n - i,
        {
            push_char(&mut r, '*');
            i += 1;
            assert(r@ =~= Seq::new(i as nat, |j: int| '*'));
        }
        r
    } else {
        let mut r = string_from_range(&cs, 0, 3);
        push_char(&mut r, '.');
        push_char(&mut r, '.');
        push_char(&mut r, '.');
        let tail = string_from_range(&cs, n - 4, n);
        r.append(tail.as_str());
        assert(r@ =~= masked(key@));
        r
    }
}

/// What the key list of a backend shows: the masked key, or `no key`.
pub fn key_label(key: Option<String>) -> (r: String)
    ensures
        match key {
            Some(k) => r@ == masked(k@),
            None => r@ == seq!['n', 'o', ' ', 'k', 'e', 'y'],
        },
{
    match key {
        Some(k) => mask_key(k.as_str()),
        None => {
            let mut r = String::new();
            push_char(&mut r, 'n');
            push_char(&mut r, 'o');
            push_char(&mut r, ' ');
            push_char(&mut r, 'k');
            push_char(&mut r, 'e');
            push_char(&mut r, 'y');
            assert(r@ =~= seq!['n', 'o', ' ', 'k', 'e', 'y']);
            r
        },
    }
}

/// The API key of `backend_name`, if the `.env` keys hold one.
pub fn load_backend_key(keys: &EnvKeys, backend_name: &str) -> (r: Option<String>)
    requires
        keys.wf(),
    ensures
        r matches Some(v) ==> keys@.contains_key(key_name(backend_name@)) && v@ == keys@[key_name(
            backend_name@,
        )],
        r is None ==> !keys@.contains_key(key_name(backend_name@)),
{
    keys.get(&env_key_name(backend_name))
}

/// Keeps `api_key` as the key of `backend_name`.
pub fn save_backend_key(keys: &mut EnvKeys, backend_name: &str, api_key: &str)
    requires
        old(keys).wf(),
    ensures
        final(keys).wf(),
        final(keys)@ == old(keys)@.insert(key_name(backend_name@), api_key@),
{
    keys.insert(env_key_name(backend_name), String::from_str(api_key));
}

/// Forgets the key of `backend_name`.
pub fn remove_backend_key(keys: &mut EnvKeys, backend_name: &str)
    requires
        old(keys).wf(),
    ensures
        final(keys).wf(),
        final(keys)@ == old(keys)@.remove(key_name(backend_name@)),
{
    keys.remove(&env_key_name(backend_name));
}

/// The key given with a change of a backend's settings, where it is one to keep:
/// a given key that is not empty.
pub open spec fn given_key(api_key: Option<Seq<char>>) -> Option<Seq<char>> {
    match api_key {
        Some(k) => if k.len() > 0 {
            Some(k)
        } else {
            None
        },
        None => None,
    }
}

/// The keys after a backend's settings change from the name `old_name` to
/// `new_name`. Where a new key is given and is not empty, the key kept under the
/// old name is dropped when the name changed, and the new key is kept under the
/// new name. Else the existing key is kept: when the name changed and a key was
/// kept under the old name, it moves to the new name; otherwise the keys stay as
/// they are.
pub open spec fn renamed_keys(
    before: Map<Seq<char>, Seq<char>>,
    old_name: Seq<char>,
    new_name: Seq<char>,
    api_key: Option<Seq<char>>,
) -> Map<Seq<char>, Seq<char>> {
    match given_key(api_key) {
        Some(k) => {
            let dropped = if old_name != new_name {
                before.remove(key_name(old_name))
            } else {
                before
            };
            dropped.insert(key_name(new_name), k)
        },
        None => if old_name != new_name && before.contains_key(key_name(old_name)) {
            before.remove(key_name(old_name)).insert(
                key_name(new_name),
                before[key_name(old_name)],
            )
        } else {
            before
        },
    }
}

/// Updates the keys for a backend whose settings change from `old_name` to
/// `new_name`, given the key that came with the change, if any.
pub fn rename_backend_key(
    keys: &mut EnvKeys,
    old_name: &str,
    new_name: &str,
    api_key: Option<&str>,
)
    requires
        old(keys).wf(),
    ensures
        final(keys).wf(),
        final(keys)@ == renamed_keys(
            old(keys)@,
            old_name@,
            new_name@,
            match api_key {
                Some(k) => Some(k@),
                None => None,
            },
        ),
{
    let given = match api_key {
        Some(k) => if k.is_empty() {
            None
        } else {
            Some(k)
        },
        None => None,
    };
    let renamed = !str_equal(old_name, new_name);
    match given {
        Some(k) => {
            if renamed {
                remove_backend_key(keys, old_name);
            }
            save_backend_key(keys, new_name, k);
        },
        None => {
            if renamed {
                match load_backend_key(keys, old_name) {
                    Some(existing) => {
                        remove_backend_key(keys, old_name);
                        save_backend_key(keys, new_name, existing.as_str());
                    },
                    None => {},
                }
            }
        },
    }
}

/// The key to keep for a backend that is added or changed: the given key where
/// it is not empty.
pub fn key_to_store(api_key: &Option<String>) -> (r: Option<String>)
    ensures
        match api_key {
            Some(k) => if k@.len() > 0 {
                r == Some(*k)
            } else {
                r is None
            },
            None => r is None,
        },
{
    match api_key {
        Some(k) => if k.as_str().is_empty() {
            None
        } else {
            Some(k.clone())
        },
        None => None,
    }
}


/// Law: the key name of a backend is its name in upper case, character for
/// character, with each `-` written as `_` and every other character kept,
/// followed by `_KEY`.
pub proof fn lemma_key_name_chars(name: Seq<char>)
    ensures
        key_name(name).len() == uppercase(name).len() + 4,
        forall|i: int|
            0 <= i < uppercase(name).len() ==> key_name(name)[i] == (if uppercase(name)[i]
                == '-' {
                '_'
            } else {
                uppercase(name)[i]
            }),
        key_name(name).skip(uppercase(name).len() as int) == seq!['_', 'K', 'E', 'Y'],
{
    assert(key_name(name).skip(uppercase(name).len() as int) =~= seq!['_', 'K', 'E', 'Y']);
}

/// Law: a key saved for a backend is the key loaded for it, and saving it leaves
/// the keys of the backends whose key names differ as they were.
pub proof fn lemma_load_after_save(
    before: Map<Seq<char>, Seq<char>>,
    name: Seq<char>,
    other: Seq<char>,
    api_key: Seq<char>,
)
    ensures
        before.insert(key_name(name), api_key).contains_key(key_name(name)),
        before.insert(key_name(name), api_key)[key_name(name)] == api_key,
        key_name(other) != key_name(name) ==> (before.insert(key_name(name), api_key).contains_key(
            key_name(other),
        ) == before.contains_key(key_name(other)) && before.insert(
            key_name(name),
            api_key,
        )[key_name(other)] == before[key_name(other)]),
{
}

/// Law: after its key is removed, loading the key of a backend finds none, and
/// the keys of the backends whose key names differ stay as they were.
pub proof fn lemma_load_after_remove(
    before: Map<Seq<char>, Seq<char>>,
    name: Seq<char>,
    other: Seq<char>,
)
    ensures
        !before.remove(key_name(name)).contains_key(key_name(name)),
        key_name(other) != key_name(name) ==> (before.remove(key_name(name)).contains_key(
            key_name(other),
        ) == before.contains_key(key_name(other)) && before.remove(
            key_name(name),
        )[key_name(other)] == before[key_name(other)]),
{
}

/// Law: when a backend is renamed and no new key comes with the change, the key
/// that it had is found under its new name and no longer under its old one, and
/// the keys of the other backends stay as they were.
pub proof fn lemma_rename_keeps_key(
    before: Map<Seq<char>, Seq<char>>,
    old_name: Seq<char>,
    new_name: Seq<char>,
    api_key: Option<Seq<char>>,
    other: Seq<char>,
)
    requires
        given_key(api_key) is None,
        key_name(old_name) != key_name(new_name),
        before.contains_key(key_name(old_name)),
    ensures
        renamed_keys(before, old_name, new_name, api_key).contains_key(key_name(new_name)),
        renamed_keys(before, old_name, new_name, api_key)[key_name(new_name)] == before[key_name(
            old_name,
        )],
        !renamed_keys(before, old_name, new_name, api_key).contains_key(key_name(old_name)),
        key_name(other) != key_name(old_name) && key_name(other) != key_name(new_name) ==> (
        renamed_keys(before, old_name, new_name, api_key).contains_key(key_name(other))
            == before.contains_key(key_name(other)) && renamed_keys(
            before,
            old_name,
            new_name,
            api_key,
        )[key_name(other)] == before[key_name(other)]),
{
}

/// Law: when a backend's settings change and a new key that is not empty comes
/// with the change, that key is found under the backend's new name, and, where
/// the name changed, none is left under the old one.
pub proof fn lemma_rename_with_new_key(
    before: Map<Seq<char>, Seq<char>>,
    old_name: Seq<char>,
    new_name: Seq<char>,
    api_key: Seq<char>,
)
    requires
        api_key.len() > 0,
    ensures
        renamed_keys(before, old_name, new_name, Some(api_key)).contains_key(key_name(new_name)),
        renamed_keys(before, old_name, new_name, Some(api_key))[key_name(new_name)] == api_key,
        key_name(old_name) != key_name(new_name) ==> !renamed_keys(
            before,
            old_name,
            new_name,
            Some(api_key),
        ).contains_key(key_name(old_name)),
{
}

/// Law: providers added one after the other all stay in the configuration, in
/// the order in which they were added, each without its key; and the key that
/// came with each is kept under that provider's key name, where the two names
/// give two key names.
pub proof fn lemma_added_providers_persist(
    backends: Seq<Backend>,
    first: Backend,
    second: Backend,
    keys: Map<Seq<char>, Seq<char>>,
    first_key: Seq<char>,
    second_key: Seq<char>,
)
    requires
        key_name(first.name@) != key_name(second.name@),
    ensures
        backends.push(without_key(first)).push(without_key(second)) == backends + seq![
            without_key(first),
            without_key(second),
        ],
        keys.insert(key_name(first.name@), first_key).insert(
            key_name(second.name@),
            second_key,
        )[key_name(first.name@)] == first_key,
        keys.insert(key_name(first.name@), first_key).insert(
            key_name(second.name@),
            second_key,
        )[key_name(second.name@)] == second_key,
{
    assert(backends.push(without_key(first)).push(without_key(second)) =~= backends + seq![
        without_key(first),
        without_key(second),
    ]);
}

/// Law: when the `.env` text `before` is read, a backend's key saved into it,
/// and the keys written out as `text`, reading `text` gives the keys of `before`
/// with that key set; so loading the key gives back what was saved. This holds
/// where the key's name and the key are clean.
pub proof fn lemma_saved_key_survives_file(
    before: Seq<char>,
    keys: EnvKeys,
    name: Seq<char>,
    api_key: Seq<char>,
    text: Seq<char>,
)
    requires
        keys.wf(),
        keys@ == parse_env(before).insert(key_name(name), api_key),
        clean_key(key_name(name)),
        clean_value(api_key),
        keys.renders_as(text),
    ensures
        parse_env(text) == parse_env(before).insert(key_name(name), api_key),
        parse_env(text).contains_key(key_name(name)),
        parse_env(text)[key_name(name)] == api_key,
{
    lemma_parse_env_clean(before);
    assert(clean_keys(keys@));
    lemma_env_round_trip(keys, text);
}

/// Law: when the `.env` text `before` is read, a backend's key removed, and the
/// keys written out as `text`, reading `text` gives the keys of `before` without
/// that key; so no key is loaded for the backend.
pub proof fn lemma_removed_key_stays_removed(
    before: Seq<char>,
    keys: EnvKeys,
    name: Seq<char>,
    text: Seq<char>,
)
    requires
        keys.wf(),
        keys@ == parse_env(before).remove(key_name(name)),
        keys.renders_as(text),
    ensures
        parse_env(text) == parse_env(before).remove(key_name(name)),
        !parse_env(text).contains_key(key_name(name)),
{
    lemma_parse_env_clean(before);
    assert(clean_keys(keys@));
    lemma_env_round_trip(keys, text);
}

} // verus!
