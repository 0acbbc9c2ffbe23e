//! The on-disk format of the collection store, defined mathematically: a
//! compact JSON array of collection records, each
//! `{"title":...,"tasks":[{"title":...,"completed":...},...]}`.
//!
//! `store_json` gives the characters `save` writes; the `dec_*` family is
//! the deterministic reader of that format, consuming from the front and
//! returning the decoded value with the unread remainder. `load` accepts
//! exactly what `decode_store` accepts; [`lemma_decode_of_encode`] is the
//! round-trip law tying the two together.

use vstd::prelude::*;

use crate::model::{CollectionSpec, StoreSpec, TaskSpec};

verus! {

/// Lower-case hexadecimal digit of a value below 16.
pub open spec fn hex_digit(n: int) -> char {
    if n == 0 { '0' } else if n == 1 { '1' } else if n == 2 { '2' } else if n == 3 { '3' }
    else if n == 4 { '4' } else if n == 5 { '5' } else if n == 6 { '6' } else if n == 7 { '7' }
    else if n == 8 { '8' } else if n == 9 { '9' } else if n == 10 { 'a' } else if n == 11 { 'b' }
    else if n == 12 { 'c' } else if n == 13 { 'd' } else if n == 14 { 'e' } else { 'f' }
}

/// Value of a lower-case hexadecimal digit; 16 for any other character.
pub open spec fn hex_val(c: char) -> int {
    if c == '0' { 0 } else if c == '1' { 1 } else if c == '2' { 2 } else if c == '3' { 3 }
    else if c == '4' { 4 } else if c == '5' { 5 } else if c == '6' { 6 } else if c == '7' { 7 }
    else if c == '8' { 8 } else if c == '9' { 9 } else if c == 'a' { 10 } else if c == 'b' { 11 }
    else if c == 'c' { 12 } else if c == 'd' { 13 } else if c == 'e' { 14 } else if c == 'f' { 15 }
    else { 16 }
}

/// How one character of a title is written: quote and backslash get a
/// backslash escape, control characters a `\u00..` escape, and every other
/// character stands for itself.
pub open spec fn esc_char(c: char) -> Seq<char> {
    if c == '"' {
        seq!['\\', '"']
    } else if c == '\\' {
        seq!['\\', '\\']
    } else if (c as u32) < 32 {
        seq!['\\', 'u', '0', '0', hex_digit((c as u32) as int / 16), hex_digit(
            (c as u32) as int % 16,
        )]
    } else {
        seq![c]
    }
}

/// A title's characters, escaped one by one.
pub open spec fn esc_str(s: Seq<char>) -> Seq<char>
    decreases s.len(),
{
    if s.len() == 0 {
        Seq::empty()
    } else {
        esc_char(s.first()) + esc_str(s.drop_first())
    }
}

/// A JSON string: the escaped characters between two quotes.
pub open spec fn json_string(s: Seq<char>) -> Seq<char> {
    seq!['"'] + esc_str(s) + seq!['"']
}

/// A JSON boolean.
pub open spec fn json_bool(b: bool) -> Seq<char> {
    if b {
        seq!['t', 'r', 'u', 'e']
    } else {
        seq!['f', 'a', 'l', 's', 'e']
    }
}

/// The opening of a record: `{"title":`.
pub open spec fn title_key() -> Seq<char> {
    seq!['{', '"', 't', 'i', 't', 'l', 'e', '"', ':']
}

/// The second field of a task record: `,"completed":`.
pub open spec fn completed_key() -> Seq<char> {
    seq![',', '"', 'c', 'o', 'm', 'p', 'l', 'e', 't', 'e', 'd', '"', ':']
}

/// The second field of a collection record: `,"tasks":`.
pub open spec fn tasks_key() -> Seq<char> {
    seq![',', '"', 't', 'a', 's', 'k', 's', '"', ':']
}

/// One task record.
pub open spec fn task_json(t: TaskSpec) -> Seq<char> {
    title_key() + json_string(t.title) + completed_key() + json_bool(t.completed) + seq!['}']
}

/// The tasks after the first, each preceded by a comma.
pub open spec fn tasks_rest_json(ts: Seq<TaskSpec>) -> Seq<char>
    decreases ts.len(),
{
    if ts.len() == 0 {
        Seq::empty()
    } else {
        seq![','] + task_json(ts.first()) + tasks_rest_json(ts.drop_first())
    }
}

/// A task array.
pub open spec fn tasks_json(ts: Seq<TaskSpec>) -> Seq<char> {
    if ts.len() == 0 {
        seq!['[', ']']
    } else {
        seq!['['] + task_json(ts.first()) + tasks_rest_json(ts.drop_first()) + seq![']']
    }
}

/// One collection record.
pub open spec fn collection_json(c: CollectionSpec) -> Seq<char> {
    title_key() + json_string(c.title) + tasks_key() + tasks_json(c.tasks) + seq!['}']
}

/// The collections after the first, each preceded by a comma.
pub open spec fn collections_rest_json(cs: Seq<CollectionSpec>) -> Seq<char>
    decreases cs.len(),
{
    if cs.len() == 0 {
        Seq::empty()
    } else {
        seq![','] + collection_json(cs.first()) + collections_rest_json(cs.drop_first())
    }
}

/// The whole store: a JSON array of collection records.
pub open spec fn store_json(st: StoreSpec) -> Seq<char> {
    if st.collections.len() == 0 {
        seq!['[', ']']
    } else {
        seq!['['] + collection_json(st.collections.first()) + collections_rest_json(
            st.collections.drop_first(),
        ) + seq![']']
    }
}

/// Read the inside of a JSON string, the opening quote already consumed:
/// the decoded characters and what follows the closing quote. Accepts
/// exactly the escapes the writer produces.
pub open spec fn dec_str_body(s: Seq<char>) -> Option<(Seq<char>, Seq<char>)>
    decreases s.len(),
{
    if s.len() == 0 {
        Option::None
    } else if s.first() == '"' {
        Option::Some((Seq::empty(), s.drop_first()))
    } else if s.first() == '\\' {
        if s.len() < 2 {
            Option::None
        } else if s[1] == '"' || s[1] == '\\' {
            match dec_str_body(s.skip(2)) {
                Option::Some((v, r)) => Option::Some((seq![s[1]] + v, r)),
                Option::None => Option::None,
            }
        } else if s[1] == 'u' {
            if s.len() < 6 {
                Option::None
            } else if s[2] == '0' && s[3] == '0' && hex_val(s[4]) < 2 && hex_val(s[5]) < 16 {
                let c = ((hex_val(s[4]) * 16 + hex_val(s[5])) as u8) as char;
                match dec_str_body(s.skip(6)) {
                    Option::Some((v, r)) => Option::Some((seq![c] + v, r)),
                    Option::None => Option::None,
                }
            } else {
                Option::None
            }
        } else {
            Option::None
        }
    } else if (s.first() as u32) < 32 {
        Option::None
    } else {
        match dec_str_body(s.drop_first()) {
            Option::Some((v, r)) => Option::Some((seq![s.first()] + v, r)),
            Option::None => Option::None,
        }
    }
}

/// Read a JSON string, quotes included.
pub open spec fn dec_string(s: Seq<char>) -> Option<(Seq<char>, Seq<char>)> {
    if s.len() > 0 && s.first() == '"' {
        dec_str_body(s.drop_first())
    } else {
        Option::None
    }
}

/// Consume an exact sequence of characters.
pub open spec fn dec_key(s: Seq<char>, k: Seq<char>) -> Option<Seq<char>> {
    if s.len() >= k.len() && s.take(k.len() as int) == k {
        Option::Some(s.skip(k.len() as int))
    } else {
        Option::None
    }
}

/// Read a JSON boolean.
pub open spec fn dec_bool(s: Seq<char>) -> Option<(bool, Seq<char>)> {
    match dec_key(s, json_bool(true)) {
        Option::Some(r) => Option::Some((true, r)),
        Option::None => match dec_key(s, json_bool(false)) {
            Option::Some(r) => Option::Some((false, r)),
            Option::None => Option::None,
        },
    }
}

/// Read one task record.
pub open spec fn dec_task(s: Seq<char>) -> Option<(TaskSpec, Seq<char>)> {
    match dec_key(s, title_key()) {
        Option::Some(r1) => match dec_string(r1) {
            Option::Some((title, r2)) => match dec_key(r2, completed_key()) {
                Option::Some(r3) => match dec_bool(r3) {
                    Option::Some((completed, r4)) => if r4.len() > 0 && r4.first() == '}' {
                        Option::Some((TaskSpec { title, completed }, r4.drop_first()))
                    } else {
                        Option::None
                    },
                    Option::None => Option::None,
                },
                Option::None => Option::None,
            },
            Option::None => Option::None,
        },
        Option::None => Option::None,
    }
}

/// Read the rest of a task array: either its closing bracket, or a comma
/// and one more task, repeatedly.
pub open spec fn dec_tasks_rest(s: Seq<char>) -> Option<(Seq<TaskSpec>, Seq<char>)>
    decreases s.len(),
{
    if s.len() == 0 {
        Option::None
    } else if s.first() == ']' {
        Option::Some((Seq::empty(), s.drop_first()))
    } else if s.first() == ',' {
        match dec_task(s.drop_first()) {
            Option::Some((t, r)) => if r.len() < s.len() {
                match dec_tasks_rest(r) {
                    Option::Some((ts, r2)) => Option::Some((seq![t] + ts, r2)),
                    Option::None => Option::None,
                }
            } else {
                Option::None
            },
            Option::None => Option::None,
        }
    } else {
        Option::None
    }
}

/// Read a task array.
pub open spec fn dec_tasks(s: Seq<char>) -> Option<(Seq<TaskSpec>, Seq<char>)> {
    if s.len() == 0 || s.first() != '[' {
        Option::None
    } else {
        let r0 = s.drop_first();
        if r0.len() > 0 && r0.first() == ']' {
            Option::Some((Seq::empty(), r0.drop_first()))
        } else {
            match dec_task(r0) {
                Option::Some((t, r)) => match dec_tasks_rest(r) {
                    Option::Some((ts, r2)) => Option::Some((seq![t] + ts, r2)),
                    Option::None => Option::None,
                },
                Option::None => Option::None,
            }
        }
    }
}

/// Read one collection record.
pub open spec fn dec_collection(s: Seq<char>) -> Option<(CollectionSpec, Seq<char>)> {
    match dec_key(s, title_key()) {
        Option::Some(r1) => match dec_string(r1) {
            Option::Some((title, r2)) => match dec_key(r2, tasks_key()) {
                Option::Some(r3) => match dec_tasks(r3) {
                    Option::Some((tasks, r4)) => if r4.len() > 0 && r4.first() == '}' {
                        Option::Some((CollectionSpec { title, tasks }, r4.drop_first()))
                    } else {
                        Option::None
                    },
                    Option::None => Option::None,
                },
                Option::None => Option::None,
            },
            Option::None => Option::None,
        },
        Option::None => Option::None,
    }
}

/// Read the rest of the collection array.
pub open spec fn dec_collections_rest(s: Seq<char>) -> Option<(Seq<CollectionSpec>, Seq<char>)>
    decreases s.len(),
{
    if s.len() == 0 {
        Option::None
    } else if s.first() == ']' {
        Option::Some((Seq::empty(), s.drop_first()))
    } else if s.first() == ',' {
        match dec_collection(s.drop_first()) {
            Option::Some((c, r)) => if r.len() < s.len() {
                match dec_collections_rest(r) {
                    Option::Some((cs, r2)) => Option::Some((seq![c] + cs, r2)),
                    Option::None => Option::None,
                }
            } else {
                Option::None
            },
            Option::None => Option::None,
        }
    } else {
        Option::None
    }
}

/// Read the whole store array.
pub open spec fn dec_store(s: Seq<char>) -> Option<(StoreSpec, Seq<char>)> {
    if s.len() == 0 || s.first() != '[' {
        Option::None
    } else {
        let r0 = s.drop_first();
        if r0.len() > 0 && r0.first() == ']' {
            Option::Some((StoreSpec { collections: Seq::empty() }, r0.drop_first()))
        } else {
            match dec_collection(r0) {
                Option::Some((c, r)) => match dec_collections_rest(r) {
                    Option::Some((cs, r2)) => Option::Some(
                        (StoreSpec { collections: seq![c] + cs }, r2),
                    ),
                    Option::None => Option::None,
                },
                Option::None => Option::None,
            }
        }
    }
}

/// What a file's characters mean: a store exactly when the whole input is
/// one store array with nothing after it.
pub open spec fn decode_store(s: Seq<char>) -> Option<StoreSpec> {
    match dec_store(s) {
        Option::Some((st, r)) => if r.len() == 0 {
            Option::Some(st)
        } else {
            Option::None
        },
        Option::None => Option::None,
    }
}

/// A byte holding a character's code point casts back to that character.
proof fn lemma_low_char_roundtrip(c: char, x: u8)
    requires
        x as u32 == c as u32,
    ensures
        (x as char) == c,
{
}

/// Concatenation of character sequences is associative.
pub(crate) proof fn lemma_add_assoc(a: Seq<char>, b: Seq<char>, c: Seq<char>)
    ensures
        (a + b) + c == a + (b + c),
{
    assert((a + b) + c =~= a + (b + c));
}

/// A sequence with one character in front decomposes into that character
/// and the rest.
proof fn lemma_uncons(c: char, z: Seq<char>)
    ensures
        (seq![c] + z).len() == z.len() + 1,
        (seq![c] + z).first() == c,
        (seq![c] + z).drop_first() == z,
{
    assert((seq![c] + z).first() == c);
    assert((seq![c] + z).drop_first() =~= z);
}

/// The hexadecimal digits read back as the values they stand for.
proof fn lemma_hex_roundtrip(n: int)
    requires
        0 <= n < 16,
    ensures
        hex_val(hex_digit(n)) == n,
{
}

/// Consuming an exact prefix leaves exactly what follows it.
proof fn lemma_dec_key_of(k: Seq<char>, rest: Seq<char>)
    ensures
        dec_key(k + rest, k) == Option::Some(rest),
{
    let s = k + rest;
    assert(s.take(k.len() as int) =~= k);
    assert(s.skip(k.len() as int) =~= rest);
}

/// A written boolean reads back as itself.
proof fn lemma_dec_bool_of(b: bool, rest: Seq<char>)
    ensures
        dec_bool(json_bool(b) + rest) == Option::Some((b, rest)),
{
    let s = json_bool(b) + rest;
    if b {
        lemma_dec_key_of(json_bool(true), rest);
    } else {
        assert(s[0] == 'f');
        if s.len() >= json_bool(true).len() && s.take(json_bool(true).len() as int)
            == json_bool(true) {
            assert(s.take(4)[0] == 't');
            assert(false);
        }
        lemma_dec_key_of(json_bool(false), rest);
    }
}

/// A written string body reads back as itself, leaving what follows the
/// closing quote.
#[verifier::rlimit(100)]
#[verifier::spinoff_prover]
proof fn lemma_dec_str_body_of_esc(v: Seq<char>, rest: Seq<char>)
    ensures
        dec_str_body(esc_str(v) + seq!['"'] + rest) == Option::Some((v, rest)),
    decreases v.len(),
{
    let s = esc_str(v) + seq!['"'] + rest;
    if v.len() == 0 {
        assert(s =~= seq!['"'] + rest);
        assert(s.first() == '"');
        assert(s.drop_first() =~= rest);
    } else {
        let c = v.first();
        let v2 = v.drop_first();
        let tail = esc_str(v2) + seq!['"'] + rest;
        assert(esc_str(v) == esc_char(c) + esc_str(v2));
        assert(s =~= esc_char(c) + tail);
        lemma_dec_str_body_of_esc(v2, rest);
        assert(seq![c] + v2 =~= v);
        if c == '"' {
            assert(s =~= seq!['\\', '"'] + tail);
            assert(s.first() == '\\' && s[1] == '"');
            assert(s.skip(2) =~= tail);
        } else if c == '\\' {
            assert(s =~= seq!['\\', '\\'] + tail);
            assert(s.first() == '\\' && s[1] == '\\');
            assert(s.skip(2) =~= tail);
        } else if (c as u32) < 32 {
            let u = (c as u32) as int;
            assert(s =~= seq!['\\', 'u', '0', '0', hex_digit(u / 16), hex_digit(u % 16)] + tail);
            assert(s.first() == '\\' && s[1] == 'u' && s[2] == '0' && s[3] == '0');
            assert(s[4] == hex_digit(u / 16) && s[5] == hex_digit(u % 16));
            assert(0 <= u / 16 < 2);
            assert(0 <= u % 16 < 16);
            lemma_hex_roundtrip(u / 16);
            lemma_hex_roundtrip(u % 16);
            assert(hex_val(s[4]) * 16 + hex_val(s[5]) == u);
            let x = (hex_val(s[4]) * 16 + hex_val(s[5])) as u8;
            assert(x as u32 == c as u32);
            lemma_low_char_roundtrip(c, x);
            assert((x as char) == c);
            assert(s.skip(6) =~= tail);
        } else {
            assert(s =~= seq![c] + tail);
            assert(s.first() == c);
            assert(s.first() != '"' && s.first() != '\\' && (s.first() as u32) >= 32);
            assert(s.drop_first() =~= tail);
        }
    }
}

/// A written string, quotes included, reads back as itself.
proof fn lemma_dec_string_of(v: Seq<char>, rest: Seq<char>)
    ensures
        dec_string(json_string(v) + rest) == Option::Some((v, rest)),
{
    let s = json_string(v) + rest;
    assert(s.first() == '"');
    assert(s.drop_first() =~= esc_str(v) + seq!['"'] + rest);
    lemma_dec_str_body_of_esc(v, rest);
}

/// A written task record reads back as itself.
#[verifier::rlimit(100)]
#[verifier::spinoff_prover]
proof fn lemma_dec_task_of(t: TaskSpec, rest: Seq<char>)
    ensures
        dec_task(task_json(t) + rest) == Option::Some((t, rest)),
{
    let s = task_json(t) + rest;
    let y4 = seq!['}'] + rest;
    let y3 = json_bool(t.completed) + y4;
    let y2 = completed_key() + y3;
    let y1 = json_string(t.title) + y2;
    assert(s =~= title_key() + y1);
    lemma_dec_key_of(title_key(), y1);
    lemma_dec_string_of(t.title, y2);
    lemma_dec_key_of(completed_key(), y3);
    lemma_dec_bool_of(t.completed, y4);
    assert(y4.first() == '}');
    assert(y4.drop_first() =~= rest);
}

/// The written tail of a task array reads back as the tasks it came from.
#[verifier::rlimit(100)]
#[verifier::spinoff_prover]
proof fn lemma_dec_tasks_rest_of(ts: Seq<TaskSpec>, rest: Seq<char>)
    ensures
        dec_tasks_rest(tasks_rest_json(ts) + seq![']'] + rest) == Option::Some((ts, rest)),
    decreases ts.len(),
{
    let s = tasks_rest_json(ts) + seq![']'] + rest;
    if ts.len() == 0 {
        assert(tasks_rest_json(ts) + seq![']'] =~= seq![']']);
        lemma_uncons(']', rest);
        assert(Seq::<TaskSpec>::empty() =~= ts);
    } else {
        let t0 = ts.first();
        let ts2 = ts.drop_first();
        let b = task_json(t0);
        let c = tasks_rest_json(ts2);
        let y = c + seq![']'] + rest;
        assert(tasks_rest_json(ts) == seq![','] + b + c);
        lemma_add_assoc(seq![','] + b, c, seq![']']);
        lemma_add_assoc(seq![','] + b, c + seq![']'], rest);
        lemma_add_assoc(c, seq![']'], rest);
        lemma_add_assoc(seq![','], b, y);
        assert(s == seq![','] + (b + y));
        lemma_uncons(',', b + y);
        lemma_dec_task_of(t0, y);
        assert(y.len() < s.len());
        lemma_dec_tasks_rest_of(ts2, rest);
        assert(seq![t0] + ts2 =~= ts);
    }
}

/// A written task array reads back as the tasks it came from.
#[verifier::rlimit(100)]
#[verifier::spinoff_prover]
proof fn lemma_dec_tasks_of(ts: Seq<TaskSpec>, rest: Seq<char>)
    ensures
        dec_tasks(tasks_json(ts) + rest) == Option::Some((ts, rest)),
{
    let s = tasks_json(ts) + rest;
    if ts.len() == 0 {
        assert(s =~= seq!['[', ']'] + rest);
        assert(s.first() == '[');
        let r0 = s.drop_first();
        assert(r0 =~= seq![']'] + rest);
        assert(r0.first() == ']');
        assert(r0.drop_first() =~= rest);
        assert(dec_tasks(s) == Option::Some((Seq::<TaskSpec>::empty(), rest)));
        assert(Seq::<TaskSpec>::empty() =~= ts);
    } else {
        let t0 = ts.first();
        let ts2 = ts.drop_first();
        let b = task_json(t0);
        let c = tasks_rest_json(ts2);
        let y = c + seq![']'] + rest;
        assert(tasks_json(ts) == seq!['['] + b + c + seq![']']);
        lemma_add_assoc(seq!['['] + b, c, seq![']']);
        lemma_add_assoc(seq!['['] + b, c + seq![']'], rest);
        lemma_add_assoc(seq!['['], b, y);
        assert(s == seq!['['] + (b + y));
        lemma_uncons('[', b + y);
        assert(b[0] == '{') by {
            assert(title_key()[0] == '{');
        }
        assert((b + y).first() == '{');
        lemma_dec_task_of(t0, y);
        lemma_dec_tasks_rest_of(ts2, rest);
        assert(seq![t0] + ts2 =~= ts);
    }
}

/// A written collection record reads back as itself.
#[verifier::rlimit(100)]
#[verifier::spinoff_prover]
proof fn lemma_dec_collection_of(c: CollectionSpec, rest: Seq<char>)
    ensures
        dec_collection(collection_json(c) + rest) == Option::Some((c, rest)),
{
    let s = collection_json(c) + rest;
    let y4 = seq!['}'] + rest;
    let y3 = tasks_json(c.tasks) + y4;
    let y2 = tasks_key() + y3;
    let y1 = json_string(c.title) + y2;
    assert(s =~= title_key() + y1);
    lemma_dec_key_of(title_key(), y1);
    lemma_dec_string_of(c.title, y2);
    lemma_dec_key_of(tasks_key(), y3);
    lemma_dec_tasks_of(c.tasks, y4);
    assert(y4.first() == '}');
    assert(y4.drop_first() =~= rest);
}

/// The written tail of the collection array reads back as the collections
/// it came from.
#[verifier::rlimit(100)]
#[verifier::spinoff_prover]
proof fn lemma_dec_collections_rest_of(cs: Seq<CollectionSpec>, rest: Seq<char>)
    ensures
        dec_collections_rest(collections_rest_json(cs) + seq![']'] + rest)
            == Option::Some((cs, rest)),
    decreases cs.len(),
{
    let s = collections_rest_json(cs) + seq![']'] + rest;
    if cs.len() == 0 {
        assert(collections_rest_json(cs) + seq![']'] =~= seq![']']);
        lemma_uncons(']', rest);
        assert(Seq::<CollectionSpec>::empty() =~= cs);
    } else {
        let c0 = cs.first();
        let cs2 = cs.drop_first();
        let b = collection_json(c0);
        let c = collections_rest_json(cs2);
        let y = c + seq![']'] + rest;
        assert(collections_rest_json(cs) == seq![','] + b + c);
        lemma_add_assoc(seq![','] + b, c, seq![']']);
        lemma_add_assoc(seq![','] + b, c + seq![']'], rest);
        lemma_add_assoc(seq![','], b, y);
        assert(s == seq![','] + (b + y));
        lemma_uncons(',', b + y);
        lemma_dec_collection_of(c0, y);
        assert(y.len() < s.len());
        lemma_dec_collections_rest_of(cs2, rest);
        assert(seq![c0] + cs2 =~= cs);
    }
}

/// A written store reads back as itself, leaving what follows it.
#[verifier::rlimit(100)]
#[verifier::spinoff_prover]
proof fn lemma_dec_store_of(st: StoreSpec, rest: Seq<char>)
    ensures
        dec_store(store_json(st) + rest) == Option::Some((st, rest)),
{
    let s = store_json(st) + rest;
    if st.collections.len() == 0 {
        assert(s =~= seq!['[', ']'] + rest);
        assert(s.first() == '[');
        let r0 = s.drop_first();
        assert(r0 =~= seq![']'] + rest);
        assert(r0.first() == ']');
        assert(r0.drop_first() =~= rest);
        assert(dec_store(s) == Option::Some(
            (StoreSpec { collections: Seq::empty() }, rest),
        ));
        assert(Seq::<CollectionSpec>::empty() =~= st.collections);
    } else {
        let c0 = st.collections.first();
        let cs2 = st.collections.drop_first();
        let b = collection_json(c0);
        let c = collections_rest_json(cs2);
        let y = c + seq![']'] + rest;
        assert(store_json(st) == seq!['['] + b + c + seq![']']);
        lemma_add_assoc(seq!['['] + b, c, seq![']']);
        lemma_add_assoc(seq!['['] + b, c + seq![']'], rest);
        lemma_add_assoc(seq!['['], b, y);
        assert(s == seq!['['] + (b + y));
        lemma_uncons('[', b + y);
        assert(b[0] == '{') by {
            assert(title_key()[0] == '{');
        }
        assert((b + y).first() == '{');
        lemma_dec_collection_of(c0, y);
        lemma_dec_collections_rest_of(cs2, rest);
        assert(seq![c0] + cs2 =~= st.collections);
    }
}

/// Escaping distributes over concatenation.
pub(crate) proof fn lemma_esc_str_concat(a: Seq<char>, b: Seq<char>)
    ensures
        esc_str(a + b) == esc_str(a) + esc_str(b),
    decreases a.len(),
{
    if a.len() == 0 {
        assert(a + b =~= b);
        assert(Seq::<char>::empty() + esc_str(b) =~= esc_str(b));
    } else {
        assert((a + b).len() > 0);
        assert((a + b).first() == a.first());
        assert((a + b).drop_first() =~= a.drop_first() + b);
        lemma_esc_str_concat(a.drop_first(), b);
        lemma_add_assoc(esc_char(a.first()), esc_str(a.drop_first()), esc_str(b));
    }
}

/// Escaping one more character appends its escape.
pub(crate) proof fn lemma_esc_str_snoc(u: Seq<char>, c: char)
    ensures
        esc_str(u.push(c)) == esc_str(u) + esc_char(c),
{
    lemma_esc_str_concat(u, seq![c]);
    assert(u.push(c) =~= u + seq![c]);
    assert(seq![c].first() == c);
    assert(seq![c].drop_first() =~= Seq::<char>::empty());
    assert(esc_str(seq![c]) == esc_char(c) + esc_str(seq![c].drop_first()));
    assert(esc_char(c) + Seq::<char>::empty() =~= esc_char(c));
}

/// One more task in the tail of an array appends a comma and its record.
pub(crate) proof fn lemma_tasks_rest_snoc(u: Seq<TaskSpec>, t: TaskSpec)
    ensures
        tasks_rest_json(u.push(t)) == tasks_rest_json(u) + seq![','] + task_json(t),
    decreases u.len(),
{
    let w = u.push(t);
    if u.len() == 0 {
        assert(w.first() == t);
        assert(w.drop_first() =~= Seq::<TaskSpec>::empty());
        assert(tasks_rest_json(w) == seq![','] + task_json(t) + tasks_rest_json(
            Seq::<TaskSpec>::empty(),
        ));
        assert(seq![','] + task_json(t) + Seq::<char>::empty() =~= seq![','] + task_json(t));
        assert(tasks_rest_json(u) == Seq::<char>::empty());
        assert(Seq::<char>::empty() + seq![','] =~= seq![',']);
        assert(tasks_rest_json(u) + seq![','] + task_json(t) =~= seq![','] + task_json(t));
    } else {
        assert(w.first() == u.first());
        assert(w.drop_first() =~= u.drop_first().push(t));
        lemma_tasks_rest_snoc(u.drop_first(), t);
        let a = seq![','] + task_json(u.first());
        let c0 = tasks_rest_json(u.drop_first());
        let d = seq![','];
        let e = task_json(t);
        assert(tasks_rest_json(w) == a + (c0 + d + e));
        assert(tasks_rest_json(u) + d + e == (a + c0) + d + e);
        lemma_add_assoc(a, c0, d);
        lemma_add_assoc(a, c0 + d, e);
        lemma_add_assoc(c0, d, e);
    }
}

/// One more collection in the tail of the array appends a comma and its
/// record.
pub(crate) proof fn lemma_collections_rest_snoc(u: Seq<CollectionSpec>, c: CollectionSpec)
    ensures
        collections_rest_json(u.push(c)) == collections_rest_json(u) + seq![',']
            + collection_json(c),
    decreases u.len(),
{
    let w = u.push(c);
    if u.len() == 0 {
        assert(w.first() == c);
        assert(w.drop_first() =~= Seq::<CollectionSpec>::empty());
        assert(collections_rest_json(w) == seq![','] + collection_json(c)
            + collections_rest_json(Seq::<CollectionSpec>::empty()));
        assert(seq![','] + collection_json(c) + Seq::<char>::empty()
            =~= seq![','] + collection_json(c));
        assert(collections_rest_json(u) + seq![','] + collection_json(c)
            =~= seq![','] + collection_json(c));
    } else {
        assert(w.first() == u.first());
        assert(w.drop_first() =~= u.drop_first().push(c));
        lemma_collections_rest_snoc(u.drop_first(), c);
        let a = seq![','] + collection_json(u.first());
        let c0 = collections_rest_json(u.drop_first());
        let d = seq![','];
        let e = collection_json(c);
        assert(collections_rest_json(w) == a + (c0 + d + e));
        assert(collections_rest_json(u) + d + e == (a + c0) + d + e);
        lemma_add_assoc(a, c0, d);
        lemma_add_assoc(a, c0 + d, e);
        lemma_add_assoc(c0, d, e);
    }
}

/// Round trip: reading back a written store yields that store — every
/// title, every completion flag, and the order of both collections and
/// tasks included, since the two sides are equal as mathematical values.
pub proof fn lemma_decode_of_encode(st: StoreSpec)
    ensures
        decode_store(store_json(st)) == Option::Some(st),
{
    lemma_dec_store_of(st, Seq::empty());
    assert(store_json(st) + Seq::<char>::empty() =~= store_json(st));
}

/// A lower-case hexadecimal digit character reads back as itself.
proof fn lemma_hex_digit_of_val(c: char)
    requires
        hex_val(c) < 16,
    ensures
        hex_digit(hex_val(c)) == c,
{
}

/// What the string reader accepts is exactly an escaped string body and
/// its closing quote.
#[verifier::rlimit(100)]
#[verifier::spinoff_prover]
proof fn lemma_sound_str_body(s: Seq<char>, v: Seq<char>, r: Seq<char>)
    requires
        dec_str_body(s) == Option::Some((v, r)),
    ensures
        s == esc_str(v) + seq!['"'] + r,
    decreases s.len(),
{
    let q = seq!['"'];
    if s.first() == '"' {
        assert(esc_str(v) =~= Seq::<char>::empty());
        assert(esc_str(v) + q =~= q);
        assert(s =~= q + r);
    } else if s.first() == '\\' {
        if s[1] == '"' || s[1] == '\\' {
            let rec = dec_str_body(s.skip(2));
            let (v2, r2) = rec->Some_0;
            lemma_sound_str_body(s.skip(2), v2, r2);
            assert(v == seq![s[1]] + v2);
            assert(v.first() == s[1]);
            assert(v.drop_first() =~= v2);
            let unit = seq!['\\', s[1]];
            assert(esc_char(s[1]) == unit);
            assert(esc_str(v) == unit + esc_str(v2));
            assert(s.take(2) =~= unit);
            assert(s =~= s.take(2) + s.skip(2));
            lemma_add_assoc(esc_str(v2), q, r);
            assert(s == unit + (esc_str(v2) + (q + r)));
            lemma_add_assoc(unit, esc_str(v2), q + r);
            lemma_add_assoc(unit + esc_str(v2), q, r);
        } else {
            let code = hex_val(s[4]) * 16 + hex_val(s[5]);
            let c = (code as u8) as char;
            let rec = dec_str_body(s.skip(6));
            let (v2, r2) = rec->Some_0;
            lemma_sound_str_body(s.skip(6), v2, r2);
            assert(v == seq![c] + v2);
            assert(v.first() == c);
            assert(v.drop_first() =~= v2);
            assert(0 <= code < 32);
            assert((c as u32) == code);
            assert(c != '"' && c != '\\');
            lemma_hex_digit_of_val(s[4]);
            lemma_hex_digit_of_val(s[5]);
            assert((c as u32) as int / 16 == hex_val(s[4]));
            assert((c as u32) as int % 16 == hex_val(s[5]));
            let unit = seq!['\\', 'u', '0', '0', s[4], s[5]];
            assert(esc_char(c) == unit);
            assert(esc_str(v) == unit + esc_str(v2));
            assert(s.take(6) =~= unit);
            assert(s =~= s.take(6) + s.skip(6));
            lemma_add_assoc(esc_str(v2), q, r);
            assert(s == unit + (esc_str(v2) + (q + r)));
            lemma_add_assoc(unit, esc_str(v2), q + r);
            lemma_add_assoc(unit + esc_str(v2), q, r);
        }
    } else {
        let rec = dec_str_body(s.drop_first());
        let (v2, r2) = rec->Some_0;
        lemma_sound_str_body(s.drop_first(), v2, r2);
        assert(v == seq![s.first()] + v2);
        assert(v.first() == s.first());
        assert(v.drop_first() =~= v2);
        let unit = seq![s.first()];
        assert(esc_char(s.first()) == unit);
        assert(esc_str(v) == unit + esc_str(v2));
        assert(s =~= unit + s.drop_first());
        lemma_add_assoc(esc_str(v2), q, r);
        assert(s == unit + (esc_str(v2) + (q + r)));
        lemma_add_assoc(unit, esc_str(v2), q + r);
        lemma_add_assoc(unit + esc_str(v2), q, r);
    }
}

/// What the string reader accepts, quotes included, is exactly a written
/// string.
proof fn lemma_sound_string(s: Seq<char>, v: Seq<char>, r: Seq<char>)
    requires
        dec_string(s) == Option::Some((v, r)),
    ensures
        s == json_string(v) + r,
{
    lemma_sound_str_body(s.drop_first(), v, r);
    let q = seq!['"'];
    assert(s =~= q + s.drop_first());
    lemma_add_assoc(esc_str(v), q, r);
    assert(s == q + (esc_str(v) + (q + r)));
    lemma_add_assoc(q, esc_str(v), q + r);
    lemma_add_assoc(q + esc_str(v), q, r);
}

/// What the literal reader accepts is exactly that literal.
proof fn lemma_sound_key(s: Seq<char>, k: Seq<char>, r: Seq<char>)
    requires
        dec_key(s, k) == Option::Some(r),
    ensures
        s == k + r,
{
    assert(s =~= s.take(k.len() as int) + s.skip(k.len() as int));
}

/// What the boolean reader accepts is exactly a written boolean.
proof fn lemma_sound_bool(s: Seq<char>, b: bool, r: Seq<char>)
    requires
        dec_bool(s) == Option::Some((b, r)),
    ensures
        s == json_bool(b) + r,
{
    if dec_key(s, json_bool(true)) is Some {
        lemma_sound_key(s, json_bool(true), r);
    } else {
        lemma_sound_key(s, json_bool(false), r);
    }
}

/// What the task reader accepts is exactly a written task record.
#[verifier::rlimit(100)]
#[verifier::spinoff_prover]
proof fn lemma_sound_task(s: Seq<char>, t: TaskSpec, r: Seq<char>)
    requires
        dec_task(s) == Option::Some((t, r)),
    ensures
        s == task_json(t) + r,
{
    let r1 = dec_key(s, title_key())->Some_0;
    lemma_sound_key(s, title_key(), r1);
    let (title, r2) = dec_string(r1)->Some_0;
    lemma_sound_string(r1, title, r2);
    let r3 = dec_key(r2, completed_key())->Some_0;
    lemma_sound_key(r2, completed_key(), r3);
    let (b, r4) = dec_bool(r3)->Some_0;
    lemma_sound_bool(r3, b, r4);
    assert(r4 =~= seq!['}'] + r);
    let a1 = title_key();
    let a2 = json_string(t.title);
    let a3 = completed_key();
    let a4 = json_bool(t.completed);
    let a5 = seq!['}'];
    assert(s == a1 + (a2 + (a3 + (a4 + (a5 + r)))));
    lemma_add_assoc(a1, a2, a3 + (a4 + (a5 + r)));
    lemma_add_assoc(a1 + a2, a3, a4 + (a5 + r));
    lemma_add_assoc(a1 + a2 + a3, a4, a5 + r);
    lemma_add_assoc(a1 + a2 + a3 + a4, a5, r);
}

/// What the task-array tail reader accepts is exactly a written tail.
#[verifier::rlimit(100)]
#[verifier::spinoff_prover]
proof fn lemma_sound_tasks_rest(s: Seq<char>, ts: Seq<TaskSpec>, r: Seq<char>)
    requires
        dec_tasks_rest(s) == Option::Some((ts, r)),
    ensures
        s == tasks_rest_json(ts) + seq![']'] + r,
    decreases s.len(),
{
    let br = seq![']'];
    if s.first() == ']' {
        assert(tasks_rest_json(ts) =~= Seq::<char>::empty());
        assert(tasks_rest_json(ts) + br =~= br);
        assert(s =~= br + r);
    } else {
        let (t, r1) = dec_task(s.drop_first())->Some_0;
        lemma_sound_task(s.drop_first(), t, r1);
        let (ts2, r2) = dec_tasks_rest(r1)->Some_0;
        lemma_sound_tasks_rest(r1, ts2, r2);
        assert(ts == seq![t] + ts2);
        assert(ts.len() > 0);
        assert(ts.first() == t);
        assert(ts.drop_first() =~= ts2);
        let cm = seq![','];
        let tj = task_json(t);
        let rest2 = tasks_rest_json(ts2);
        assert(tasks_rest_json(ts) == cm + tj + rest2);
        assert(s =~= cm + s.drop_first());
        lemma_add_assoc(rest2, br, r);
        assert(s == cm + (tj + (rest2 + (br + r))));
        lemma_add_assoc(cm, tj, rest2 + (br + r));
        lemma_add_assoc(cm + tj, rest2, br + r);
        lemma_add_assoc(cm + tj + rest2, br, r);
    }
}

/// What the task-array reader accepts is exactly a written task array.
#[verifier::rlimit(100)]
#[verifier::spinoff_prover]
proof fn lemma_sound_tasks(s: Seq<char>, ts: Seq<TaskSpec>, r: Seq<char>)
    requires
        dec_tasks(s) == Option::Some((ts, r)),
    ensures
        s == tasks_json(ts) + r,
{
    let r0 = s.drop_first();
    let op = seq!['['];
    let br = seq![']'];
    if r0.len() > 0 && r0.first() == ']' {
        assert(ts.len() == 0);
        assert(r0 =~= br + r);
        assert(s =~= op + (br + r));
        assert(tasks_json(ts) =~= op + br);
        lemma_add_assoc(op, br, r);
    } else {
        let (t, r1) = dec_task(r0)->Some_0;
        lemma_sound_task(r0, t, r1);
        let (ts2, r2) = dec_tasks_rest(r1)->Some_0;
        lemma_sound_tasks_rest(r1, ts2, r2);
        assert(ts == seq![t] + ts2);
        assert(ts.len() > 0);
        assert(ts.first() == t);
        assert(ts.drop_first() =~= ts2);
        let tj = task_json(t);
        let rest2 = tasks_rest_json(ts2);
        assert(tasks_json(ts) == op + tj + rest2 + br);
        assert(s =~= op + r0);
        lemma_add_assoc(rest2, br, r);
        assert(s == op + (tj + (rest2 + (br + r))));
        lemma_add_assoc(op, tj, rest2 + (br + r));
        lemma_add_assoc(op + tj, rest2, br + r);
        lemma_add_assoc(op + tj + rest2, br, r);
    }
}

/// What the collection reader accepts is exactly a written collection
/// record.
#[verifier::rlimit(100)]
#[verifier::spinoff_prover]
proof fn lemma_sound_collection(s: Seq<char>, c: CollectionSpec, r: Seq<char>)
    requires
        dec_collection(s) == Option::Some((c, r)),
    ensures
        s == collection_json(c) + r,
{
    let r1 = dec_key(s, title_key())->Some_0;
    lemma_sound_key(s, title_key(), r1);
    let (title, r2) = dec_string(r1)->Some_0;
    lemma_sound_string(r1, title, r2);
    let r3 = dec_key(r2, tasks_key())->Some_0;
    lemma_sound_key(r2, tasks_key(), r3);
    let (tasks, r4) = dec_tasks(r3)->Some_0;
    lemma_sound_tasks(r3, tasks, r4);
    assert(r4 =~= seq!['}'] + r);
    let a1 = title_key();
    let a2 = json_string(c.title);
    let a3 = tasks_key();
    let a4 = tasks_json(c.tasks);
    let a5 = seq!['}'];
    assert(s == a1 + (a2 + (a3 + (a4 + (a5 + r)))));
    lemma_add_assoc(a1, a2, a3 + (a4 + (a5 + r)));
    lemma_add_assoc(a1 + a2, a3, a4 + (a5 + r));
    lemma_add_assoc(a1 + a2 + a3, a4, a5 + r);
    lemma_add_assoc(a1 + a2 + a3 + a4, a5, r);
}

/// What the collection-array tail reader accepts is exactly a written
/// tail.
#[verifier::rlimit(100)]
#[verifier::spinoff_prover]
proof fn lemma_sound_collections_rest(s: Seq<char>, cs: Seq<CollectionSpec>, r: Seq<char>)
    requires
        dec_collections_rest(s) == Option::Some((cs, r)),
    ensures
        s == collections_rest_json(cs) + seq![']'] + r,
    decreases s.len(),
{
    let br = seq![']'];
    if s.first() == ']' {
        assert(collections_rest_json(cs) =~= Seq::<char>::empty());
        assert(collections_rest_json(cs) + br =~= br);
        assert(s =~= br + r);
    } else {
        let (c, r1) = dec_collection(s.drop_first())->Some_0;
        lemma_sound_collection(s.drop_first(), c, r1);
        let (cs2, r2) = dec_collections_rest(r1)->Some_0;
        lemma_sound_collections_rest(r1, cs2, r2);
        assert(cs == seq![c] + cs2);
        assert(cs.len() > 0);
        assert(cs.first() == c);
        assert(cs.drop_first() =~= cs2);
        let cm = seq![','];
        let cj = collection_json(c);
        let rest2 = collections_rest_json(cs2);
        assert(collections_rest_json(cs) == cm + cj + rest2);
        assert(s =~= cm + s.drop_first());
        lemma_add_assoc(rest2, br, r);
        assert(s == cm + (cj + (rest2 + (br + r))));
        lemma_add_assoc(cm, cj, rest2 + (br + r));
        lemma_add_assoc(cm + cj, rest2, br + r);
        lemma_add_assoc(cm + cj + rest2, br, r);
    }
}

/// What the store reader accepts is exactly a written store.
#[verifier::rlimit(100)]
#[verifier::spinoff_prover]
proof fn lemma_sound_store(s: Seq<char>, st: StoreSpec, r: Seq<char>)
    requires
        dec_store(s) == Option::Some((st, r)),
    ensures
        s == store_json(st) + r,
{
    let r0 = s.drop_first();
    let op = seq!['['];
    let br = seq![']'];
    if r0.len() > 0 && r0.first() == ']' {
        assert(st.collections.len() == 0);
        assert(r0 =~= br + r);
        assert(s =~= op + (br + r));
        assert(store_json(st) =~= op + br);
        lemma_add_assoc(op, br, r);
    } else {
        let (c, r1) = dec_collection(r0)->Some_0;
        lemma_sound_collection(r0, c, r1);
        let (cs2, r2) = dec_collections_rest(r1)->Some_0;
        lemma_sound_collections_rest(r1, cs2, r2);
        assert(st.collections == seq![c] + cs2);
        assert(st.collections.len() > 0);
        assert(st.collections.first() == c);
        assert(st.collections.drop_first() =~= cs2);
        let cj = collection_json(c);
        let rest2 = collections_rest_json(cs2);
        assert(store_json(st) == op + cj + rest2 + br);
        assert(s =~= op + r0);
        lemma_add_assoc(rest2, br, r);
        assert(s == op + (cj + (rest2 + (br + r))));
        lemma_add_assoc(op, cj, rest2 + (br + r));
        lemma_add_assoc(op + cj, rest2, br + r);
        lemma_add_assoc(op + cj + rest2, br, r);
    }
}

/// The converse of the round trip: the only texts the reader accepts are
/// the ones the writer produces, so the file format is exactly the image
/// of `store_json`.
pub proof fn lemma_encode_of_decode(s: Seq<char>, st: StoreSpec)
    requires
        decode_store(s) == Option::Some(st),
    ensures
        s == store_json(st),
{
    let (st2, r) = dec_store(s)->Some_0;
    lemma_sound_store(s, st2, r);
    assert(store_json(st) + r =~= store_json(st));
}

/// Two different stores never share a file text.
pub proof fn lemma_store_json_injective(a: StoreSpec, b: StoreSpec)
    requires
        store_json(a) == store_json(b),
    ensures
        a == b,
{
    lemma_decode_of_encode(a);
    lemma_decode_of_encode(b);
}

} // verus!
