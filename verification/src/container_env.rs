//! Clean environments for supervised container processes.
//!
//! When a sandbox runs an OCI container, the guest init packs the container's
//! environment into `OPENSHELL_CONTAINER_ENV_<i>` variables before it runs the
//! supervisor, and sets `OPENSHELL_CONTAINER_MODE=1`. In that mode nothing of
//! the supervisor's own environment leaks to the child process: the child
//! begins with an empty environment and gets the container's environment,
//! minimal shell defaults and the sandbox marker.
//!
//! The supervisor's environment is a map from names to values; a variable
//! whose value is not valid Unicode counts as not set.

use crate::oci::metadata::env_entry;
use crate::string_map::{map_of, StringMap};
use crate::text::{
    chars_of, concat, decimal, decimal_text, lemma_parse_of_decimal, lemma_split_at_first_of_join,
    owned, parse_usize, parsed_number, same_text, split_at_first, split_once, text_pairs,
};
use vstd::prelude::*;

verus! {

/// Variable that turns clean environments on.
pub const CONTAINER_MODE_ENV: &'static str = "OPENSHELL_CONTAINER_MODE";

/// Variable that holds the number of container environment entries.
pub const CONTAINER_ENV_COUNT: &'static str = "OPENSHELL_CONTAINER_ENV_COUNT";

/// Prefix of the variables that hold a container environment entry each.
pub const CONTAINER_ENV_PREFIX: &'static str = "OPENSHELL_CONTAINER_ENV_";

/// Search path of a child whose image sets none.
pub const DEFAULT_CONTAINER_PATH: &'static str =
    "/usr/local/sbin:/usr/local/bin:/usr/sbin:/usr/bin:/sbin:/bin";

/// Whether `OPENSHELL_CONTAINER_MODE=1` is set.
pub open spec fn container_mode(environ: Map<Seq<char>, Seq<char>>) -> bool {
    environ.dom().contains(CONTAINER_MODE_ENV@) && environ[CONTAINER_MODE_ENV@] == "1"@
}

/// Whether `OPENSHELL_CONTAINER_MODE=1` is set.
pub fn is_container_mode(environ: &StringMap) -> (r: bool)
    ensures
        r == container_mode(environ@),
{
    match environ.get(CONTAINER_MODE_ENV) {
        Some(value) => same_text(value.as_str(), "1"),
        None => false,
    }
}

/// Key and value of a `KEY=VALUE` text with a key that is not empty.
pub open spec fn key_value(raw: Seq<char>) -> Option<(Seq<char>, Seq<char>)> {
    match split_at_first(raw, '=') {
        Some((key, value)) => if key.len() > 0 {
            Some((key, value))
        } else {
            None
        },
        None => None,
    }
}

/// Parses a `KEY=VALUE` text; `None` where the `=` or the key is missing.
pub fn parse_kv(raw: &str) -> (r: Option<(String, String)>)
    ensures
        match r {
            Some((key, value)) => key_value(raw@) == Some((key@, value@)),
            None => key_value(raw@) is None,
        },
{
    match split_once(raw, '=') {
        Some((key, value)) => {
            if chars_of(key.as_str()).len() == 0 {
                None
            } else {
                Some((key, value))
            }
        },
        None => None,
    }
}

/// The number of container environment entries: zero where it is not set or
/// is no number that fits.
pub open spec fn entry_count(environ: Map<Seq<char>, Seq<char>>) -> nat {
    if environ.dom().contains(CONTAINER_ENV_COUNT@) {
        match parsed_number(environ[CONTAINER_ENV_COUNT@]) {
            Some(n) => if n <= usize::MAX {
                n
            } else {
                0
            },
            None => 0,
        }
    } else {
        0
    }
}

/// Name of the variable that holds the entry with the given index.
pub open spec fn entry_name(i: nat) -> Seq<char> {
    CONTAINER_ENV_PREFIX@ + decimal(i)
}

/// The entry with the given index, where it is set and well formed.
pub open spec fn entry_at(environ: Map<Seq<char>, Seq<char>>, i: nat) -> Option<
    (Seq<char>, Seq<char>),
> {
    if environ.dom().contains(entry_name(i)) {
        key_value(environ[entry_name(i)])
    } else {
        None
    }
}

/// The well-formed entries among the first `n`, in order.
pub open spec fn entries_below(environ: Map<Seq<char>, Seq<char>>, n: nat) -> Seq<
    (Seq<char>, Seq<char>),
>
    decreases n,
{
    if n == 0 {
        Seq::empty()
    } else {
        let before = entries_below(environ, (n - 1) as nat);
        match entry_at(environ, (n - 1) as nat) {
            Some(pair) => before.push(pair),
            None => before,
        }
    }
}

/// The container environment, in order.
pub open spec fn container_entries(environ: Map<Seq<char>, Seq<char>>) -> Seq<
    (Seq<char>, Seq<char>),
> {
    entries_below(environ, entry_count(environ))
}

/// Reads the container environment entries, in order. Of two entries with one
/// key the later wins where the list is applied, which matches the order in
/// which the host merged them.
///
/// Entries that are missing or malformed are skipped.
pub fn read_container_env(environ: &StringMap) -> (r: Vec<(String, String)>)
    ensures
        text_pairs(r@) == container_entries(environ@),
{
    let count: usize = match environ.get(CONTAINER_ENV_COUNT) {
        Some(value) => match parse_usize(value.as_str()) {
            Some(n) => n,
            None => 0,
        },
        None => 0,
    };
    assert(count == entry_count(environ@));
    let mut out: Vec<(String, String)> = Vec::new();
    let mut i: usize = 0;
    assert(text_pairs(out@) =~= entries_below(environ@, 0));
    while i < count
        invariant
            i <= count,
            text_pairs(out@) == entries_below(environ@, i as nat),
        decreases count - i,
    {
        let ghost before = out@;
        let name: String = concat(CONTAINER_ENV_PREFIX, decimal_text(i as u64).as_str());
        match environ.get(name.as_str()) {
            Some(raw) => match parse_kv(raw.as_str()) {
                Some((key, value)) => {
                    out.push((key, value));
                    assert(text_pairs(out@) =~= text_pairs(before).push((key@, value@)));
                },
                None => {},
            },
            None => {},
        }
        i = i + 1;
    }
    out
}

/// The assignments of a clean environment, in order: the shell defaults, the
/// container environment, the sandbox marker.
pub open spec fn baseline(entries: Seq<(Seq<char>, Seq<char>)>) -> Seq<(Seq<char>, Seq<char>)> {
    seq![("HOME"@, "/sandbox"@), ("PATH"@, DEFAULT_CONTAINER_PATH@), ("TERM"@, "xterm"@)] + entries
        + seq![("OPENSHELL_SANDBOX"@, "1"@)]
}

/// The assignments that make up the environment of a child, which begins
/// empty. Later assignments win:
/// 1. Minimal shell defaults (`HOME=/sandbox`, `PATH=<default>`, `TERM=xterm`).
/// 2. The entries of [`read_container_env`].
/// 3. The marker `OPENSHELL_SANDBOX=1`, also where the image set it.
pub fn apply_clean_container_baseline(environ: &StringMap) -> (r: Vec<(String, String)>)
    ensures
        text_pairs(r@) == baseline(container_entries(environ@)),
{
    let mut out: Vec<(String, String)> = Vec::new();
    out.push((owned("HOME"), owned("/sandbox")));
    out.push((owned("PATH"), owned(DEFAULT_CONTAINER_PATH)));
    out.push((owned("TERM"), owned("xterm")));
    let ghost defaults = out@;
    let mut entries: Vec<(String, String)> = read_container_env(environ);
    let ghost listed = entries@;
    out.append(&mut entries);
    out.push((owned("OPENSHELL_SANDBOX"), owned("1")));
    assert(text_pairs(out@) =~= text_pairs(defaults) + text_pairs(listed) + seq![
        ("OPENSHELL_SANDBOX"@, "1"@),
    ]);
    assert(text_pairs(defaults) =~= seq![
        ("HOME"@, "/sandbox"@),
        ("PATH"@, DEFAULT_CONTAINER_PATH@),
        ("TERM"@, "xterm"@),
    ]);
    out
}

// ---------------------------------------------------------------------
// Laws
// ---------------------------------------------------------------------
/// The marker cannot be turned off: whatever the container environment holds,
/// the child sees `OPENSHELL_SANDBOX=1`.
pub proof fn law_marker_always_set(entries: Seq<(Seq<char>, Seq<char>)>)
    ensures
        map_of(baseline(entries)).dom().contains("OPENSHELL_SANDBOX"@),
        map_of(baseline(entries))["OPENSHELL_SANDBOX"@] == "1"@,
{
    let all = baseline(entries);
    assert(all.last() == ("OPENSHELL_SANDBOX"@, "1"@));
}

proof fn lemma_map_of_keys(list: Seq<(Seq<char>, Seq<char>)>, key: Seq<char>)
    ensures
        map_of(list).dom().contains(key) ==> exists|i: int|
            0 <= i < list.len() && #[trigger] list[i].0 == key,
    decreases list.len(),
{
    if list.len() > 0 && map_of(list).dom().contains(key) {
        let n = list.len() - 1;
        if list[n].0 != key {
            lemma_map_of_keys(list.drop_last(), key);
            let i = choose|i: int|
                0 <= i < list.drop_last().len() && #[trigger] list.drop_last()[i].0 == key;
            assert(list[i].0 == key);
        }
    }
}

/// Nothing leaks: a variable that the child sees is a shell default, the
/// sandbox marker or one of the container environment.
pub proof fn law_nothing_leaks(entries: Seq<(Seq<char>, Seq<char>)>, key: Seq<char>)
    requires
        map_of(baseline(entries)).dom().contains(key),
    ensures
        key == "HOME"@ || key == "PATH"@ || key == "TERM"@ || key == "OPENSHELL_SANDBOX"@ || exists|
            i: int,
        |
            0 <= i < entries.len() && #[trigger] entries[i].0 == key,
{
    let all = baseline(entries);
    lemma_map_of_keys(all, key);
    let i = choose|i: int| 0 <= i < all.len() && #[trigger] all[i].0 == key;
    if 3 <= i < 3 + entries.len() {
        assert(entries[i - 3] == all[i]);
    }
}

proof fn lemma_map_of_concat(
    a: Seq<(Seq<char>, Seq<char>)>,
    b: Seq<(Seq<char>, Seq<char>)>,
)
    ensures
        map_of(a + b) == map_of(a).union_prefer_right(map_of(b)),
    decreases b.len(),
{
    if b.len() == 0 {
        assert(a + b =~= a);
        assert(map_of(a).union_prefer_right(map_of(b)) =~= map_of(a));
    } else {
        lemma_map_of_concat(a, b.drop_last());
        assert((a + b).drop_last() =~= a + b.drop_last());
        assert(map_of(a + b) =~= map_of(a).union_prefer_right(map_of(b)));
    }
}

/// The container environment wins over the shell defaults: a key that it sets
/// has the value of its last entry, but for the marker.
pub proof fn law_container_env_wins(entries: Seq<(Seq<char>, Seq<char>)>, key: Seq<char>)
    requires
        map_of(entries).dom().contains(key),
        key != "OPENSHELL_SANDBOX"@,
    ensures
        map_of(baseline(entries)).dom().contains(key),
        map_of(baseline(entries))[key] == map_of(entries)[key],
{
    let all = baseline(entries);
    let defaults = seq![
        ("HOME"@, "/sandbox"@),
        ("PATH"@, DEFAULT_CONTAINER_PATH@),
        ("TERM"@, "xterm"@),
    ];
    assert(all.drop_last() =~= defaults + entries);
    lemma_map_of_concat(defaults, entries);
}

/// What was packed is read back: from an environment that holds the count and
/// each entry as `KEY=VALUE`, where keys are not empty and hold no `=`, the
/// same list comes out, whatever else the environment holds.
pub proof fn law_container_env_round_trip(
    environ: Map<Seq<char>, Seq<char>>,
    list: Seq<(Seq<char>, Seq<char>)>,
)
    requires
        list.len() <= usize::MAX,
        environ.dom().contains(CONTAINER_ENV_COUNT@),
        environ[CONTAINER_ENV_COUNT@] == decimal(list.len()),
        forall|i: nat|
            i < list.len() ==> environ.dom().contains(#[trigger] entry_name(i))
                && environ[entry_name(i)] == env_entry(list[i as int]),
        forall|i: int|
            0 <= i < list.len() ==> (#[trigger] list[i]).0.len() > 0 && !list[i].0.contains('='),
    ensures
        container_entries(environ) == list,
{
    lemma_parse_of_decimal(list.len());
    lemma_entries_read(environ, list, list.len());
    assert(list.take(list.len() as int) =~= list);
}

proof fn lemma_entries_read(
    environ: Map<Seq<char>, Seq<char>>,
    list: Seq<(Seq<char>, Seq<char>)>,
    n: nat,
)
    requires
        n <= list.len(),
        forall|i: nat|
            i < list.len() ==> environ.dom().contains(#[trigger] entry_name(i))
                && environ[entry_name(i)] == env_entry(list[i as int]),
        forall|i: int|
            0 <= i < list.len() ==> (#[trigger] list[i]).0.len() > 0 && !list[i].0.contains('='),
    ensures
        entries_below(environ, n) == list.take(n as int),
    decreases n,
{
    if n > 0 {
        let i = (n - 1) as nat;
        lemma_entries_read(environ, list, i);
        let pair = list[i as int];
        assert(environ.dom().contains(entry_name(i)));
        reveal_strlit("=");
        assert(env_entry(pair) =~= pair.0.push('=') + pair.1);
        lemma_split_at_first_of_join(pair.0, '=', pair.1);
        assert(list.take(n as int) =~= list.take(i as int).push(pair));
    } else {
        assert(list.take(0) =~= Seq::<(Seq<char>, Seq<char>)>::empty());
    }
}

/// Clean environments are on exactly where the variable for them is `1`: another
/// value does not turn them on, nor does any other variable.
pub proof fn law_container_mode(
    environ: Map<Seq<char>, Seq<char>>,
    key: Seq<char>,
    value: Seq<char>,
)
    ensures
        container_mode(environ.insert("OPENSHELL_CONTAINER_MODE"@, value)) <==> value == seq!['1'],
        key != "OPENSHELL_CONTAINER_MODE"@ ==> container_mode(environ.insert(key, value))
            == container_mode(environ),
        !container_mode(environ.remove("OPENSHELL_CONTAINER_MODE"@)),
{
    reveal_strlit("1");
    assert("1"@ =~= seq!['1']);
}

/// A text `KEY=VALUE` is its key and all of what follows the first `=`; a text
/// without `=`, or with nothing before it, is none.
pub proof fn law_key_value(key: Seq<char>, value: Seq<char>)
    requires
        !key.contains('='),
    ensures
        key.len() > 0 ==> key_value(key + seq!['='] + value) == Some((key, value)),
        key_value(seq!['='] + value) is None,
        key_value(key) is None,
{
    assert(key + seq!['='] + value =~= key.push('=') + value);
    lemma_split_at_first_of_join(key, '=', value);
    let none = Seq::<char>::empty();
    assert(seq!['='] + value =~= none.push('=') + value);
    lemma_split_at_first_of_join(none, '=', value);
    crate::text::lemma_first_index(key, '=');
    if crate::text::first_index(key, '=') < key.len() {
        assert(key[crate::text::first_index(key, '=')] == '=');
    }
}

/// Whether the variable with number `i` holds an entry.
pub open spec fn packed(
    environ: Map<Seq<char>, Seq<char>>,
    i: nat,
    key: Seq<char>,
    value: Seq<char>,
) -> bool {
    let name = "OPENSHELL_CONTAINER_ENV_"@ + decimal(i);
    environ.dom().contains(name) && key.len() > 0 && !key.contains('=') && environ[name] == key
        + seq!['='] + value
}

proof fn lemma_packed(
    environ: Map<Seq<char>, Seq<char>>,
    i: nat,
    key: Seq<char>,
    value: Seq<char>,
)
    ensures
        entry_at(environ, i) == Some((key, value)) <==> packed(environ, i, key, value),
{
    let name = entry_name(i);
    if environ.dom().contains(name) {
        let raw = environ[name];
        crate::text::lemma_first_index(raw, '=');
        let n = crate::text::first_index(raw, '=');
        if entry_at(environ, i) == Some((key, value)) {
            assert(raw =~= key + seq!['='] + value);
            if key.contains('=') {
                let k = choose|k: int| 0 <= k < key.len() && key[k] == '=';
                assert(raw[k] == '=');
            }
        }
        if packed(environ, i, key, value) {
            law_key_value(key, value);
        }
    }
}

proof fn lemma_entries_prefix(environ: Map<Seq<char>, Seq<char>>, i: nat, n: nat)
    requires
        i <= n,
    ensures
        entries_below(environ, i).len() <= entries_below(environ, n).len(),
        forall|k: int|
            0 <= k < entries_below(environ, i).len() ==> entries_below(environ, i)[k]
                == entries_below(environ, n)[k],
    decreases n,
{
    if i < n {
        lemma_entries_prefix(environ, i, (n - 1) as nat);
    }
}

/// Every entry that was packed is read, whole, in the order of the numbers, and a
/// variable between them that is missing or malformed costs no other: where the
/// entries with the numbers `i` and `j` are there, both are read, the lower
/// number first.
pub proof fn law_packed_entries_are_read(
    environ: Map<Seq<char>, Seq<char>>,
    i: nat,
    key: Seq<char>,
    value: Seq<char>,
    j: nat,
    other_key: Seq<char>,
    other_value: Seq<char>,
)
    requires
        i < j < entry_count(environ),
        packed(environ, i, key, value),
        packed(environ, j, other_key, other_value),
    ensures
        exists|k: int, l: int|
            0 <= k < l < container_entries(environ).len() && #[trigger] container_entries(
                environ,
            )[k] == (key, value) && #[trigger] container_entries(environ)[l] == (
                other_key,
                other_value,
            ),
{
    let n = entry_count(environ);
    lemma_packed(environ, i, key, value);
    lemma_packed(environ, j, other_key, other_value);
    lemma_entries_prefix(environ, i + 1, n);
    lemma_entries_prefix(environ, i + 1, j);
    lemma_entries_prefix(environ, j + 1, n);
    let k = entries_below(environ, i).len() as int;
    let l = entries_below(environ, j).len() as int;
    assert(entries_below(environ, i + 1)[k] == (key, value));
    assert(entries_below(environ, j + 1)[l] == (other_key, other_value));
    assert(container_entries(environ)[k] == (key, value));
    assert(container_entries(environ)[l] == (other_key, other_value));
}

proof fn lemma_entry_from(environ: Map<Seq<char>, Seq<char>>, n: nat, k: int)
    requires
        0 <= k < entries_below(environ, n).len(),
    ensures
        exists|i: nat|
            i < n && #[trigger] entry_at(environ, i) == Some(entries_below(environ, n)[k]),
    decreases n,
{
    let before = entries_below(environ, (n - 1) as nat);
    if k < before.len() {
        lemma_entry_from(environ, (n - 1) as nat, k);
        let i = choose|i: nat| i < n - 1 && #[trigger] entry_at(environ, i) == Some(before[k]);
        assert(i < n);
    } else {
        assert(entry_at(environ, (n - 1) as nat) == Some(entries_below(environ, n)[k]));
    }
}

/// Nothing is read that was not packed: each entry stands in the variable with
/// some number below the count. The count is what its variable says in decimal
/// digits; there are no entries where it is missing or says no number that a
/// `usize` can hold.
pub proof fn law_only_packed_entries_are_read(environ: Map<Seq<char>, Seq<char>>, k: int)
    requires
        0 <= k < container_entries(environ).len(),
    ensures
        exists|i: nat|
            i < entry_count(environ) && #[trigger] packed(
                environ,
                i,
                container_entries(environ)[k].0,
                container_entries(environ)[k].1,
            ),
        environ.dom().contains("OPENSHELL_CONTAINER_ENV_COUNT"@),
        parsed_number(environ["OPENSHELL_CONTAINER_ENV_COUNT"@]) == Some(entry_count(environ)),
        entry_count(environ) <= usize::MAX,
{
    let n = entry_count(environ);
    lemma_entry_from(environ, n, k);
    let pair = container_entries(environ)[k];
    let i = choose|i: nat| i < n && #[trigger] entry_at(environ, i) == Some(pair);
    lemma_packed(environ, i, pair.0, pair.1);
    assert(packed(environ, i, pair.0, pair.1));
}

/// What the child gets where its image says nothing: `/sandbox` as its home, the
/// usual search path and `xterm` as its terminal; each only where no entry sets
/// it.
pub proof fn law_container_defaults(entries: Seq<(Seq<char>, Seq<char>)>)
    ensures
        ({
            let seen = map_of(baseline(entries));
            let set = map_of(entries).dom();
            &&& !set.contains("HOME"@) ==> seen.dom().contains("HOME"@) && seen["HOME"@]
                == "/sandbox"@
            &&& !set.contains("PATH"@) ==> seen.dom().contains("PATH"@) && seen["PATH"@]
                == "/usr/local/sbin:/usr/local/bin:/usr/sbin:/usr/bin:/sbin:/bin"@
            &&& !set.contains("TERM"@) ==> seen.dom().contains("TERM"@) && seen["TERM"@]
                == "xterm"@
        }),
{
    reveal_strlit("HOME");
    reveal_strlit("PATH");
    reveal_strlit("TERM");
    reveal_strlit("OPENSHELL_SANDBOX");
    assert("HOME"@[0] == 'H' && "PATH"@[0] == 'P' && "TERM"@[0] == 'T'
        && "OPENSHELL_SANDBOX"@[0] == 'O');
    let head = seq![
        ("HOME"@, "/sandbox"@),
        ("PATH"@, DEFAULT_CONTAINER_PATH@),
        ("TERM"@, "xterm"@),
    ];
    let tail = seq![("OPENSHELL_SANDBOX"@, "1"@)];
    lemma_map_of_concat(head + entries, tail);
    lemma_map_of_concat(head, entries);
    reveal_with_fuel(map_of, 4);
    assert(head.drop_last().drop_last().drop_last().len() == 0);
    assert(tail.drop_last().len() == 0);
}

} // verus!
