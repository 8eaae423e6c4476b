//! Key-value file parsing, the alias table, and the typed configuration.
//!
//! A configuration or alias file is a sequence of lines; each line is split
//! on its first blank into a key and a value, both trimmed; lines without a
//! blank, or whose key or value trims to nothing, are skipped.  A key may
//! repeat: every pair is kept in file order, and the first pair wins where
//! a single value is wanted.

use vstd::prelude::*;
use vstd::string::*;

use crate::text::{
    find_char, has_prefix, lemma_find_char, str_eq, str_find_char, str_has_prefix, str_to_upper,
    str_trim, strs_view, trim_spec, upper_seq,
};

verus! {

/// One `KEY value` pair of a configuration or alias file.
pub struct KeyValue {
    pub key: String,
    pub value: String,
}

/// All pairs of one file, in file order.
pub type KeyValues = Vec<KeyValue>;

/// An alias table is a key-value file whose keys are raw device identity
/// strings and whose values are friendly labels.
pub type Aliases = KeyValues;

pub open spec fn kvs_view(kvs: Seq<KeyValue>) -> Seq<(Seq<char>, Seq<char>)> {
    kvs.map_values(|p: KeyValue| (p.key@, p.value@))
}

/// What one line contributes: its trimmed key and value when the line has
/// a blank and neither side trims to nothing, else nothing.
pub open spec fn parse_line(line: Seq<char>) -> Option<(Seq<char>, Seq<char>)> {
    match find_char(line, ' ') {
        Some(i) => {
            let k = trim_spec(line.subrange(0, i));
            let v = trim_spec(line.subrange(i + 1, line.len() as int));
            if k.len() > 0 && v.len() > 0 {
                Some((k, v))
            } else {
                None
            }
        },
        None => None,
    }
}

pub open spec fn parse_line_seq(line: Seq<char>) -> Seq<(Seq<char>, Seq<char>)> {
    match parse_line(line) {
        Some(p) => seq![p],
        None => Seq::empty(),
    }
}

/// The lines of a text, split on every newline character.
pub open spec fn split_lines(s: Seq<char>) -> Seq<Seq<char>>
    decreases s.len() via split_lines_decreases
{
    match find_char(s, '\n') {
        Some(i) => seq![s.subrange(0, i)] + split_lines(s.subrange(i + 1, s.len() as int)),
        None => seq![s],
    }
}

#[via_fn]
proof fn split_lines_decreases(s: Seq<char>) {
    lemma_find_char(s, '\n');
}

pub open spec fn parse_lines(ls: Seq<Seq<char>>) -> Seq<(Seq<char>, Seq<char>)>
    decreases ls.len(),
{
    if ls.len() == 0 {
        Seq::empty()
    } else {
        parse_line_seq(ls[0]) + parse_lines(ls.drop_first())
    }
}

/// The pairs a whole file yields, in file order.
pub open spec fn parse_kv(s: Seq<char>) -> Seq<(Seq<char>, Seq<char>)> {
    parse_lines(split_lines(s))
}

/// The value of the first pair whose key is `key`, if any.
pub open spec fn lookup(kvs: Seq<KeyValue>, key: Seq<char>) -> Option<Seq<char>>
    decreases kvs.len(),
{
    if kvs.len() == 0 {
        None
    } else if kvs[0].key@ == key {
        Some(kvs[0].value@)
    } else {
        lookup(kvs.drop_first(), key)
    }
}

/// Lookup falling back to the key itself when unmapped.
pub open spec fn lookup_or(kvs: Seq<KeyValue>, key: Seq<char>) -> Seq<char> {
    match lookup(kvs, key) {
        Some(v) => v,
        None => key,
    }
}

/// Lookup falling back to the empty string when unmapped.
pub open spec fn lookup_or_empty(kvs: Seq<KeyValue>, key: Seq<char>) -> Seq<char> {
    match lookup(kvs, key) {
        Some(v) => v,
        None => Seq::empty(),
    }
}

/// All values under `key`, in file order.
pub open spec fn values_of(kvs: Seq<KeyValue>, key: Seq<char>) -> Seq<Seq<char>>
    decreases kvs.len(),
{
    if kvs.len() == 0 {
        Seq::empty()
    } else {
        let front = values_of(kvs.drop_last(), key);
        if kvs.last().key@ == key {
            front + seq![kvs.last().value@]
        } else {
            front
        }
    }
}

/// Appends what one line contributes to the parsed pairs.
fn push_parsed_line(line: &str, kvs: &mut KeyValues)
    ensures
        kvs_view(final(kvs)@) == kvs_view(old(kvs)@) + parse_line_seq(line@),
{
    match str_find_char(line, ' ') {
        Some(i) => {
            proof {
                lemma_find_char(line@, ' ');
            }
            let n = line.unicode_len();
            let k = str_trim(line.substring_char(0, i));
            let v = str_trim(line.substring_char(i + 1, n));
            if !k.is_empty() && !v.is_empty() {
                kvs.push(KeyValue { key: k.to_owned(), value: v.to_owned() });
                proof {
                    assert(kvs_view(kvs@) =~= kvs_view(old(kvs)@) + parse_line_seq(line@));
                }
            } else {
                proof {
                    assert(kvs_view(kvs@) =~= kvs_view(old(kvs)@) + parse_line_seq(line@));
                }
            }
        },
        None => {
            proof {
                assert(kvs_view(kvs@) =~= kvs_view(old(kvs)@) + parse_line_seq(line@));
            }
        },
    }
}

/// Parses every line of `rest` and appends the pairs to `kvs`.
fn parse_into(rest: &str, kvs: &mut KeyValues)
    ensures
        kvs_view(final(kvs)@) == kvs_view(old(kvs)@) + parse_lines(split_lines(rest@)),
    decreases rest@.len(),
{
    let n = rest.unicode_len();
    match str_find_char(rest, '\n') {
        Some(i) => {
            proof {
                lemma_find_char(rest@, '\n');
            }
            let line = rest.substring_char(0, i);
            push_parsed_line(line, kvs);
            let tail = rest.substring_char(i + 1, n);
            parse_into(tail, kvs);
            proof {
                let ls = split_lines(rest@);
                assert(ls.drop_first() =~= split_lines(tail@));
                assert(kvs_view(kvs@) =~= kvs_view(old(kvs)@) + parse_lines(ls));
            }
        },
        None => {
            push_parsed_line(rest, kvs);
            proof {
                let ls = split_lines(rest@);
                assert(ls.drop_first() =~= Seq::<Seq<char>>::empty());
                assert(parse_lines(ls.drop_first()) =~= Seq::<(Seq<char>, Seq<char>)>::empty());
                assert(kvs_view(kvs@) =~= kvs_view(old(kvs)@) + parse_lines(ls));
            }
        },
    }
}

/// Parses the text of a key-value file into its pairs, in file order.
pub fn load_key_value_file(content: &str) -> (kvs: KeyValues)
    ensures
        kvs_view(kvs@) == parse_kv(content@),
{
    let mut kvs: KeyValues = Vec::new();
    parse_into(content, &mut kvs);
    proof {
        assert(kvs_view(Seq::<KeyValue>::empty()) =~= Seq::<(Seq<char>, Seq<char>)>::empty());
    }
    kvs
}

/// Parses the text of an alias file.  Reading the file itself is the
/// application's task; an unreadable file is handed in as empty text.
pub fn load_aliases(content: &str) -> (aliases: Aliases)
    ensures
        kvs_view(aliases@) == parse_kv(content@),
{
    load_key_value_file(content)
}

/// First value mapped to `name`, if any.
pub fn get_alias_opt(name: &str, aliases: &Aliases) -> (r: Option<String>)
    ensures
        match r {
            Some(v) => lookup(aliases@, name@) == Some(v@),
            None => lookup(aliases@, name@) is None,
        },
{
    proof {
        assert(aliases@.skip(0) =~= aliases@);
    }
    let mut i: usize = 0;
    while i < aliases.len()
        invariant
            i <= aliases@.len(),
            lookup(aliases@, name@) == lookup(aliases@.skip(i as int), name@),
        decreases aliases@.len() - i,
    {
        let e: &KeyValue = &aliases[i];
        proof {
            assert(aliases@.skip(i as int)[0] == aliases@[i as int]);
        }
        if str_eq(e.key.as_str(), name) {
            return Some(e.value.clone());
        }
        proof {
            assert(aliases@.skip(i as int).drop_first() =~= aliases@.skip(i as int + 1));
        }
        i = i + 1;
    }
    None
}

/// First value mapped to `name`, falling back to `name` itself.
pub fn get_alias_raw(name: &str, aliases: &Aliases) -> (r: String)
    ensures
        r@ == lookup_or(aliases@, name@),
{
    match get_alias_opt(name, aliases) {
        Some(v) => v,
        None => name.to_owned(),
    }
}

/// The long path marker some raw identities carry in front.
pub open spec fn path_prefix() -> Seq<char> {
    "\\\\?\\"@
}

/// The marker of an external HID identity.
pub open spec fn hid_prefix() -> Seq<char> {
    "HID#VID_"@
}

/// The table key that stands for every internal, non-removable device.
pub open spec fn internal_key() -> Seq<char> {
    "INTERNAL"@
}

/// `name` with every leading path marker removed.
pub open spec fn strip_path_prefix(s: Seq<char>) -> Seq<char>
    decreases s.len() via strip_path_prefix_decreases
{
    if has_prefix(s, path_prefix()) {
        strip_path_prefix(s.subrange(4, s.len() as int))
    } else {
        s
    }
}

#[via_fn]
proof fn strip_path_prefix_decreases(s: Seq<char>) {
    reveal_strlit("\\\\?\\");
}

/// The part of a marker-free HID identity that is looked up: the text after
/// the leading `HID#`, cut at the first `#`.
pub open spec fn hid_tail(n: Seq<char>) -> Seq<char> {
    let rest = n.subrange(4, n.len() as int);
    match find_char(rest, '#') {
        Some(i) => rest.subrange(0, i),
        None => rest,
    }
}

/// The reconstructed `VID&PID` grouping key: the first two `&`-separated
/// tokens joined again, when both are non-empty; else the whole text.
pub open spec fn vidpid_key(t: Seq<char>) -> Seq<char> {
    match find_char(t, '&') {
        Some(i) => {
            let rest = t.subrange(i + 1, t.len() as int);
            let plen = match find_char(rest, '&') {
                Some(j) => j,
                None => rest.len() as int,
            };
            if i > 0 && plen > 0 {
                t.subrange(0, i + 1 + plen)
            } else {
                t
            }
        },
        None => t,
    }
}

/// The full resolution pipeline: a direct table hit wins; else the path
/// marker is stripped; a non-HID identity resolves the internal key; an
/// HID identity is cut down to its `VID&PID` grouping key and resolved,
/// falling back to the cleaned text itself.
pub open spec fn resolve_spec(name: Seq<char>, table: Seq<KeyValue>) -> Seq<char> {
    match lookup(table, name) {
        Some(v) => v,
        None => {
            let n = strip_path_prefix(name);
            if !has_prefix(n, hid_prefix()) {
                lookup_or(table, internal_key())
            } else {
                lookup_or(table, vidpid_key(hid_tail(n)))
            }
        },
    }
}

/// `name` with every leading path marker removed.
fn strip_prefix_marker<'a>(s: &'a str) -> (r: &'a str)
    ensures
        r@ == strip_path_prefix(s@),
    decreases s@.len(),
{
    let p = "\\\\?\\";
    proof {
        reveal_strlit("\\\\?\\");
    }
    if str_has_prefix(s, p) {
        let n = s.unicode_len();
        strip_prefix_marker(s.substring_char(4, n))
    } else {
        s
    }
}

/// Resolves a raw device identity string to its friendly label.  Total for
/// every input string and table: some label always comes back.
pub fn get_alias(name: &str, aliases: &Aliases) -> (r: String)
    ensures
        r@ == resolve_spec(name@, aliases@),
{
    if let Some(v) = get_alias_opt(name, aliases) {
        return v;
    }
    let stripped = strip_prefix_marker(name);
    let hidp = "HID#VID_";
    if !str_has_prefix(stripped, hidp) {
        return get_alias_raw("INTERNAL", aliases);
    }
    proof {
        reveal_strlit("HID#VID_");
    }
    let n = stripped.unicode_len();
    let rest = stripped.substring_char(4, n);
    let trimmed: &str = match str_find_char(rest, '#') {
        Some(i) => {
            proof {
                lemma_find_char(rest@, '#');
            }
            rest.substring_char(0, i)
        },
        None => rest,
    };
    let tl = trimmed.unicode_len();
    let key: &str = match str_find_char(trimmed, '&') {
        Some(i) => {
            proof {
                lemma_find_char(trimmed@, '&');
            }
            let after = trimmed.substring_char(i + 1, tl);
            let plen = match str_find_char(after, '&') {
                Some(j) => {
                    proof {
                        lemma_find_char(after@, '&');
                    }
                    j
                },
                None => after.unicode_len(),
            };
            if i > 0 && plen > 0 {
                trimmed.substring_char(0, i + 1 + plen)
            } else {
                trimmed
            }
        },
        None => trimmed,
    };
    get_alias_raw(key, aliases)
}

/// The configuration the watcher runs with, filled from `config.txt` and
/// immutable for the rest of the run.
pub struct KBConfig {
    pub telegram_bot_token: String,
    pub telegram_chat_id: String,
    pub ignored_devices: Vec<String>,
}

pub open spec fn token_key() -> Seq<char> {
    "TELEGRAM_BOT_TOKEN"@
}

pub open spec fn chat_id_key() -> Seq<char> {
    "TELEGRAM_CHAT_ID"@
}

pub open spec fn ignore_key() -> Seq<char> {
    "IGNORE"@
}

pub open spec fn upper_all(ss: Seq<Seq<char>>) -> Seq<Seq<char>> {
    ss.map_values(|s: Seq<char>| upper_seq(s))
}

/// Upper-casing one more value keeps a list of upper-cased values in step.
proof fn lemma_upper_push(v: Seq<String>, ss: Seq<Seq<char>>, u: String, s: Seq<char>)
    requires
        strs_view(v) == upper_all(ss),
        u@ == upper_seq(s),
    ensures
        strs_view(v.push(u)) == upper_all(ss.push(s)),
{
    assert(strs_view(v).len() == v.len());
    assert(upper_all(ss).len() == ss.len());
    assert forall|j: int| 0 <= j < v.len() + 1 implies strs_view(v.push(u))[j] == upper_all(
        ss.push(s),
    )[j] by {
        if j < v.len() {
            assert(strs_view(v)[j] == upper_all(ss)[j]);
        }
    }
    assert(strs_view(v.push(u)) =~= upper_all(ss.push(s)));
}

/// Builds the typed configuration from the parsed pairs: first token and
/// chat id win, every `IGNORE` value is kept, upper-cased for the
/// case-insensitive match against device names.
pub fn config_from_key_values(kvs: &KeyValues) -> (c: KBConfig)
    ensures
        c.telegram_bot_token@ == lookup_or_empty(kvs@, token_key()),
        c.telegram_chat_id@ == lookup_or_empty(kvs@, chat_id_key()),
        strs_view(c.ignored_devices@) == upper_all(values_of(kvs@, ignore_key())),
{
    let telegram_bot_token = match get_alias_opt("TELEGRAM_BOT_TOKEN", kvs) {
        Some(v) => v,
        None => String::new(),
    };
    let telegram_chat_id = match get_alias_opt("TELEGRAM_CHAT_ID", kvs) {
        Some(v) => v,
        None => String::new(),
    };
    let mut ignored_devices: Vec<String> = Vec::new();
    proof {
        assert(kvs@.subrange(0, 0) =~= Seq::<KeyValue>::empty());
        assert(strs_view(ignored_devices@) =~= upper_all(
            values_of(kvs@.subrange(0, 0), ignore_key()),
        ));
    }
    let mut i: usize = 0;
    while i < kvs.len()
        invariant
            i <= kvs@.len(),
            strs_view(ignored_devices@) == upper_all(values_of(kvs@.subrange(0, i as int), ignore_key())),
        decreases kvs@.len() - i,
    {
        let ghost pre = kvs@.subrange(0, i as int);
        let ghost cur = kvs@.subrange(0, i as int + 1);
        proof {
            assert(cur.drop_last() =~= pre);
            assert(cur.last() == kvs@[i as int]);
        }
        let e: &KeyValue = &kvs[i];
        if str_eq(e.key.as_str(), "IGNORE") {
            let u = str_to_upper(e.value.as_str());
            proof {
                assert(values_of(cur, ignore_key()) =~= values_of(pre, ignore_key()).push(
                    e.value@,
                ));
                lemma_upper_push(ignored_devices@, values_of(pre, ignore_key()), u, e.value@);
            }
            ignored_devices.push(u);
        } else {
            proof {
                assert(values_of(cur, ignore_key()) == values_of(pre, ignore_key()));
            }
        }
        i = i + 1;
    }
    proof {
        assert(kvs@.subrange(0, kvs@.len() as int) =~= kvs@);
    }
    KBConfig { telegram_bot_token, telegram_chat_id, ignored_devices }
}

} // verus!
