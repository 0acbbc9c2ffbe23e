//! The persistence gateway's pure halves: turning the store into its file
//! text and reading that text back. The caller owns the file itself: it
//! hands the file's text in (or `None` for a missing file, the first run)
//! and carries the returned text out, writing it to a temporary file and
//! renaming so a failed write cannot truncate the old data. A periodic
//! save and the close-time save go through the same [`save_to_string`],
//! on a snapshot of the store when the write happens off the UI thread.

use vstd::prelude::*;

use crate::codec::{
    collection_json, collections_rest_json, completed_key, dec_bool, dec_collection,
    dec_collections_rest, dec_key, dec_store, dec_str_body, dec_string, dec_task, dec_tasks,
    dec_tasks_rest, decode_store, esc_char, esc_str, hex_digit, hex_val, json_bool, json_string,
    lemma_collections_rest_snoc, lemma_decode_of_encode, lemma_esc_str_snoc, lemma_tasks_rest_snoc,
    store_json, task_json, tasks_json, tasks_key, tasks_rest_json, title_key,
};
use crate::model::{Collection, CollectionSpec, Store, StoreSpec, Task};

verus! {

/// Why a persisted file could not be turned back into a store.
#[derive(Clone, Copy, PartialEq, Eq, Structural, Debug)]
pub enum LoadError {
    /// The text is not a store the gateway ever writes.
    Deserialization,
}

/// Relies on std's `String::push`: appends exactly the one character.
#[verifier::external_body]
fn push_char(out: &mut String, c: char)
    ensures
        final(out)@ == old(out)@.push(c),
{
    out.push(c);
}

/// Lower-case hexadecimal digit of a value below 16.
fn hex_char(n: u8) -> (c: char)
    requires
        n < 16,
    ensures
        c == hex_digit(n as int),
{
    if n == 0 { '0' } else if n == 1 { '1' } else if n == 2 { '2' } else if n == 3 { '3' }
    else if n == 4 { '4' } else if n == 5 { '5' } else if n == 6 { '6' } else if n == 7 { '7' }
    else if n == 8 { '8' } else if n == 9 { '9' } else if n == 10 { 'a' } else if n == 11 { 'b' }
    else if n == 12 { 'c' } else if n == 13 { 'd' } else if n == 14 { 'e' } else { 'f' }
}

/// The literal pieces of the format are the sequences the codec names.
proof fn lemma_literals()
    ensures
        "{\"title\":"@ == title_key(),
        ",\"completed\":"@ == completed_key(),
        ",\"tasks\":"@ == tasks_key(),
        "true"@ == json_bool(true),
        "false"@ == json_bool(false),
        "[]"@ == seq!['[', ']'],
{
    reveal_strlit("{\"title\":");
    reveal_strlit(",\"completed\":");
    reveal_strlit(",\"tasks\":");
    reveal_strlit("true");
    reveal_strlit("false");
    reveal_strlit("[]");
    assert("{\"title\":"@ =~= title_key());
    assert(",\"completed\":"@ =~= completed_key());
    assert(",\"tasks\":"@ =~= tasks_key());
    assert("true"@ =~= json_bool(true));
    assert("false"@ =~= json_bool(false));
    assert("[]"@ =~= seq!['[', ']']);
}

/// Append one title as a JSON string, quotes and escapes included.
fn append_json_string(out: &mut String, s: &str)
    ensures
        final(out)@ == old(out)@ + json_string(s@),
{
    let ghost base = out@;
    push_char(out, '"');
    proof {
        assert(out@ =~= base + seq!['"'] + esc_str(s@.take(0)));
    }
    let n = s.unicode_len();
    let mut i: usize = 0;
    while i < n
        invariant
            n == s@.len(),
            i <= n,
            out@ == base + seq!['"'] + esc_str(s@.take(i as int)),
        decreases n - i,
    {
        let ghost pre = out@;
        let c = s.get_char(i);
        if c == '"' {
            push_char(out, '\\');
            push_char(out, '"');
            proof {
                assert(out@ =~= pre + esc_char(c));
            }
        } else if c == '\\' {
            push_char(out, '\\');
            push_char(out, '\\');
            proof {
                assert(out@ =~= pre + esc_char(c));
            }
        } else if (c as u32) < 32 {
            let u = c as u32;
            let d1 = (u / 16) as u8;
            let d2 = (u % 16) as u8;
            push_char(out, '\\');
            push_char(out, 'u');
            push_char(out, '0');
            push_char(out, '0');
            let h1 = hex_char(d1);
            let h2 = hex_char(d2);
            push_char(out, h1);
            push_char(out, h2);
            proof {
                assert(d1 as int == (c as u32) as int / 16);
                assert(d2 as int == (c as u32) as int % 16);
                assert(out@ =~= pre + esc_char(c));
            }
        } else {
            push_char(out, c);
            proof {
                assert(out@ =~= pre + esc_char(c));
            }
        }
        proof {
            lemma_esc_str_snoc(s@.take(i as int), s@[i as int]);
            assert(s@.take(i + 1) =~= s@.take(i as int).push(s@[i as int]));
            assert(out@ =~= base + seq!['"'] + esc_str(s@.take(i + 1)));
        }
        i = i + 1;
    }
    push_char(out, '"');
    proof {
        assert(s@.take(n as int) =~= s@);
        assert(out@ =~= base + json_string(s@));
    }
}

/// Append one task record.
fn append_task(out: &mut String, t: &Task)
    ensures
        final(out)@ == old(out)@ + task_json(t@),
{
    proof {
        lemma_literals();
    }
    let ghost base = out@;
    out.append("{\"title\":");
    append_json_string(out, t.title.as_str());
    out.append(",\"completed\":");
    if t.completed {
        out.append("true");
    } else {
        out.append("false");
    }
    push_char(out, '}');
    proof {
        assert(out@ =~= base + task_json(t@));
    }
}

/// Append a task array.
fn append_tasks(out: &mut String, ts: &Vec<Task>)
    ensures
        final(out)@ == old(out)@ + tasks_json(ts.deep_view()),
{
    let ghost base = out@;
    let ghost dv = ts.deep_view();
    let n = ts.len();
    if n == 0 {
        out.append("[]");
        proof {
            lemma_literals();
            assert(out@ =~= base + tasks_json(dv));
        }
        return;
    }
    push_char(out, '[');
    append_task(out, &ts[0]);
    proof {
        assert(dv[0] == ts@[0].deep_view());
        assert(dv.subrange(1, 1) =~= Seq::<crate::model::TaskSpec>::empty());
        assert(out@ =~= base + seq!['['] + task_json(dv.first()) + tasks_rest_json(
            dv.subrange(1, 1),
        ));
    }
    let mut i: usize = 1;
    while i < n
        invariant
            n == ts@.len(),
            dv == ts.deep_view(),
            dv.len() == n,
            1 <= i <= n,
            out@ == base + seq!['['] + task_json(dv.first()) + tasks_rest_json(
                dv.subrange(1, i as int),
            ),
        decreases n - i,
    {
        let ghost pre = out@;
        push_char(out, ',');
        append_task(out, &ts[i]);
        proof {
            assert(dv[i as int] == ts@[i as int].deep_view());
            lemma_tasks_rest_snoc(dv.subrange(1, i as int), dv[i as int]);
            assert(dv.subrange(1, i + 1) =~= dv.subrange(1, i as int).push(dv[i as int]));
            assert(out@ =~= pre + seq![','] + task_json(dv[i as int]));
            assert(out@ =~= base + seq!['['] + task_json(dv.first()) + tasks_rest_json(
                dv.subrange(1, i + 1),
            ));
        }
        i = i + 1;
    }
    push_char(out, ']');
    proof {
        assert(dv.subrange(1, n as int) =~= dv.drop_first());
        assert(out@ =~= base + tasks_json(dv));
    }
}

/// Append one collection record.
fn append_collection(out: &mut String, c: &Collection)
    ensures
        final(out)@ == old(out)@ + collection_json(c@),
{
    proof {
        lemma_literals();
    }
    let ghost base = out@;
    out.append("{\"title\":");
    append_json_string(out, c.title.as_str());
    out.append(",\"tasks\":");
    append_tasks(out, &c.tasks);
    push_char(out, '}');
    proof {
        assert(out@ =~= base + collection_json(c@));
    }
}

/// Serialize the whole store to the text of its file: a JSON array of
/// collection records, exactly the characters `store_json` names — which
/// the reader maps back to this very store.
pub fn save_to_string(store: &Store) -> (r: String)
    ensures
        r@ == store_json(store@),
        decode_store(r@) == Option::Some(store@),
{
    proof {
        lemma_decode_of_encode(store@);
    }
    let mut out = String::new();
    let ghost dv = store.collections.deep_view();
    let n = store.collections.len();
    if n == 0 {
        out.append("[]");
        proof {
            lemma_literals();
            assert(out@ =~= store_json(store@));
        }
        return out;
    }
    push_char(&mut out, '[');
    append_collection(&mut out, &store.collections[0]);
    proof {
        assert(dv[0] == store.collections@[0].deep_view());
        assert(dv.subrange(1, 1) =~= Seq::<CollectionSpec>::empty());
        assert(out@ =~= seq!['['] + collection_json(dv.first()) + collections_rest_json(
            dv.subrange(1, 1),
        ));
    }
    let mut i: usize = 1;
    while i < n
        invariant
            n == store.collections@.len(),
            dv == store.collections.deep_view(),
            dv.len() == n,
            1 <= i <= n,
            out@ == seq!['['] + collection_json(dv.first()) + collections_rest_json(
                dv.subrange(1, i as int),
            ),
        decreases n - i,
    {
        let ghost pre = out@;
        push_char(&mut out, ',');
        append_collection(&mut out, &store.collections[i]);
        proof {
            assert(dv[i as int] == store.collections@[i as int].deep_view());
            lemma_collections_rest_snoc(dv.subrange(1, i as int), dv[i as int]);
            assert(dv.subrange(1, i + 1) =~= dv.subrange(1, i as int).push(dv[i as int]));
            assert(out@ =~= pre + seq![','] + collection_json(dv[i as int]));
            assert(out@ =~= seq!['['] + collection_json(dv.first()) + collections_rest_json(
                dv.subrange(1, i + 1),
            ));
        }
        i = i + 1;
    }
    push_char(&mut out, ']');
    proof {
        assert(dv.subrange(1, n as int) =~= dv.drop_first());
        assert(out@ =~= store_json(store@));
    }
    out
}

/// The pieces of a suffix of the input, named once for the parsers.
proof fn lemma_skip_parts(s: Seq<char>, k: int)
    requires
        0 <= k < s.len(),
    ensures
        s.skip(k).len() == s.len() - k,
        s.skip(k).first() == s[k],
        s.skip(k).drop_first() == s.skip(k + 1),
{
    assert(s.skip(k).first() == s[k]);
    assert(s.skip(k).drop_first() =~= s.skip(k + 1));
}

/// Skipping twice skips the sum.
proof fn lemma_skip_skip(s: Seq<char>, k: int, d: int)
    requires
        0 <= k,
        0 <= d,
        k + d <= s.len(),
    ensures
        s.skip(k).skip(d) == s.skip(k + d),
{
    assert(s.skip(k).skip(d) =~= s.skip(k + d));
}

/// Reading a quoted string starts right after its opening quote.
proof fn lemma_dec_string_step(s: Seq<char>, i: int)
    requires
        0 <= i < s.len(),
        s[i] == '"',
    ensures
        dec_string(s.skip(i)) == dec_str_body(s.skip(i + 1)),
{
    lemma_skip_parts(s, i);
}

/// Value of a lower-case hexadecimal digit; 16 for any other character.
fn hex_value(c: char) -> (r: u8)
    ensures
        r as int == hex_val(c),
{
    if c == '0' { 0 } else if c == '1' { 1 } else if c == '2' { 2 } else if c == '3' { 3 }
    else if c == '4' { 4 } else if c == '5' { 5 } else if c == '6' { 6 } else if c == '7' { 7 }
    else if c == '8' { 8 } else if c == '9' { 9 } else if c == 'a' { 10 } else if c == 'b' { 11 }
    else if c == 'c' { 12 } else if c == 'd' { 13 } else if c == 'e' { 14 } else if c == 'f' { 15 }
    else { 16 }
}

/// Consume an exact literal at position `i`.
fn eat_lit(s: &str, i: usize, n: usize, lit: &str) -> (r: Option<usize>)
    requires
        n == s@.len(),
        i <= n,
    ensures
        match r {
            Option::Some(j) => i <= j <= n && j == i + lit@.len()
                && dec_key(s@.skip(i as int), lit@) == Option::Some(s@.skip(j as int)),
            Option::None => dec_key(s@.skip(i as int), lit@) is None,
        },
{
    let m_end = lit.unicode_len();
    if n - i < m_end {
        proof {
            assert(s@.skip(i as int).len() < lit@.len());
        }
        return None;
    }
    let mut m: usize = 0;
    while m < m_end
        invariant
            n == s@.len(),
            i <= n,
            m_end == lit@.len(),
            m <= m_end,
            m_end <= n - i,
            forall|q: int| 0 <= q < m ==> s@[i + q] == lit@[q],
        decreases m_end - m,
    {
        let a = s.get_char(i + m);
        let b = lit.get_char(m);
        if a != b {
            proof {
                let sk = s@.skip(i as int);
                if sk.len() >= lit@.len() && sk.take(lit@.len() as int) == lit@ {
                    assert(sk.take(lit@.len() as int)[m as int] == sk[m as int]);
                    assert(sk[m as int] == s@[i + m]);
                    assert(false);
                }
            }
            return None;
        }
        m = m + 1;
    }
    proof {
        let sk = s@.skip(i as int);
        assert(sk.take(lit@.len() as int) =~= lit@);
        assert(sk.skip(lit@.len() as int) =~= s@.skip(i + lit@.len()));
    }
    Some(i + m_end)
}

/// Read a JSON boolean at position `i`.
fn parse_bool_at(s: &str, i: usize, n: usize) -> (r: Option<(bool, usize)>)
    requires
        n == s@.len(),
        i <= n,
    ensures
        match r {
            Option::Some((b, j)) => i <= j <= n
                && dec_bool(s@.skip(i as int)) == Option::Some((b, s@.skip(j as int))),
            Option::None => dec_bool(s@.skip(i as int)) is None,
        },
{
    proof {
        lemma_literals();
    }
    match eat_lit(s, i, n, "true") {
        Some(j) => Some((true, j)),
        None => match eat_lit(s, i, n, "false") {
            Some(j) => Some((false, j)),
            None => None,
        },
    }
}

/// Read a JSON string at position `i`, unescaping as the writer escaped.
fn parse_string_at(s: &str, i: usize, n: usize) -> (r: Option<(String, usize)>)
    requires
        n == s@.len(),
        i <= n,
    ensures
        match r {
            Option::Some((v, j)) => i < j <= n
                && dec_string(s@.skip(i as int)) == Option::Some((v@, s@.skip(j as int))),
            Option::None => dec_string(s@.skip(i as int)) is None,
        },
{
    if i >= n {
        proof {
            assert(s@.skip(i as int).len() == 0);
        }
        return None;
    }
    if s.get_char(i) != '"' {
        proof {
            lemma_skip_parts(s@, i as int);
        }
        return None;
    }
    proof {
        lemma_dec_string_step(s@, i as int);
    }
    let mut v: String = String::new();
    let mut k = i + 1;
    while k < n
        invariant
            n == s@.len(),
            i < n,
            s@[i as int] == '"',
            i + 1 <= k <= n,
            dec_string(s@.skip(i as int)) == dec_str_body(s@.skip(i + 1)),
            dec_str_body(s@.skip(i + 1)) == (match dec_str_body(s@.skip(k as int)) {
                Option::Some((u, rr)) => Option::Some((v@ + u, rr)),
                Option::None => Option::<(Seq<char>, Seq<char>)>::None,
            }),
        decreases n - k,
    {
        let ghost pre = v@;
        let c = s.get_char(k);
        proof {
            lemma_skip_parts(s@, k as int);
        }
        if c == '"' {
            proof {
                assert(dec_str_body(s@.skip(k as int)) == Option::Some(
                    (Seq::<char>::empty(), s@.skip(k + 1)),
                ));
                assert(pre + Seq::<char>::empty() =~= pre);
            }
            return Some((v, k + 1));
        } else if c == '\\' {
            if k + 1 >= n {
                proof {
                    assert(s@.skip(k as int).len() < 2);
                    assert(dec_str_body(s@.skip(k as int)) is None);
                }
                return None;
            }
            let c2 = s.get_char(k + 1);
            proof {
                assert(s@.skip(k as int)[1] == s@[k + 1]);
            }
            if c2 == '"' || c2 == '\\' {
                proof {
                    lemma_skip_skip(s@, k as int, 2);
                    match dec_str_body(s@.skip(k + 2)) {
                        Option::Some((u, rr)) => {
                            assert(pre.push(c2) =~= pre + seq![c2]);
                            assert((pre + seq![c2]) + u =~= pre + (seq![c2] + u));
                        },
                        Option::None => {},
                    }
                }
                push_char(&mut v, c2);
                k = k + 2;
            } else if c2 == 'u' {
                if n - k < 6 {
                    proof {
                        assert(s@.skip(k as int).len() < 6);
                    }
                    return None;
                }
                let z2 = s.get_char(k + 2);
                let z3 = s.get_char(k + 3);
                let h1 = s.get_char(k + 4);
                let h2 = s.get_char(k + 5);
                let d1 = hex_value(h1);
                let d2 = hex_value(h2);
                proof {
                    assert(s@.skip(k as int)[2] == s@[k + 2]);
                    assert(s@.skip(k as int)[3] == s@[k + 3]);
                    assert(s@.skip(k as int)[4] == s@[k + 4]);
                    assert(s@.skip(k as int)[5] == s@[k + 5]);
                }
                if z2 == '0' && z3 == '0' && d1 < 2 && d2 < 16 {
                    let code: u8 = d1 * 16 + d2;
                    let ch = code as char;
                    proof {
                        let sk = s@.skip(k as int);
                        assert(code as int == hex_val(sk[4]) * 16 + hex_val(sk[5]));
                        assert(((hex_val(sk[4]) * 16 + hex_val(sk[5])) as u8) == code);
                        lemma_skip_skip(s@, k as int, 6);
                        match dec_str_body(s@.skip(k + 6)) {
                            Option::Some((u, rr)) => {
                                assert(pre.push(ch) =~= pre + seq![ch]);
                                assert((pre + seq![ch]) + u =~= pre + (seq![ch] + u));
                            },
                            Option::None => {},
                        }
                    }
                    push_char(&mut v, ch);
                    k = k + 6;
                } else {
                    proof {
                        assert(dec_str_body(s@.skip(k as int)) is None);
                    }
                    return None;
                }
            } else {
                proof {
                    assert(dec_str_body(s@.skip(k as int)) is None);
                }
                return None;
            }
        } else if (c as u32) < 32 {
            proof {
                assert(dec_str_body(s@.skip(k as int)) is None);
            }
            return None;
        } else {
            proof {
                lemma_skip_parts(s@, k as int);
                match dec_str_body(s@.skip(k + 1)) {
                    Option::Some((u, rr)) => {
                        assert(pre.push(c) =~= pre + seq![c]);
                        assert((pre + seq![c]) + u =~= pre + (seq![c] + u));
                    },
                    Option::None => {},
                }
            }
            push_char(&mut v, c);
            k = k + 1;
        }
    }
    proof {
        assert(s@.skip(k as int).len() == 0);
        assert(dec_str_body(s@.skip(k as int)) is None);
    }
    None
}

/// Read one task record at position `i`.
fn parse_task_at(s: &str, i: usize, n: usize) -> (r: Option<(Task, usize)>)
    requires
        n == s@.len(),
        i <= n,
    ensures
        match r {
            Option::Some((t, j)) => i < j <= n
                && dec_task(s@.skip(i as int)) == Option::Some((t@, s@.skip(j as int))),
            Option::None => dec_task(s@.skip(i as int)) is None,
        },
{
    proof {
        lemma_literals();
    }
    let j1 = match eat_lit(s, i, n, "{\"title\":") {
        Some(j) => j,
        None => {
            return None;
        },
    };
    let (title, j2) = match parse_string_at(s, j1, n) {
        Some(p) => p,
        None => {
            return None;
        },
    };
    let j3 = match eat_lit(s, j2, n, ",\"completed\":") {
        Some(j) => j,
        None => {
            return None;
        },
    };
    let (completed, j4) = match parse_bool_at(s, j3, n) {
        Some(p) => p,
        None => {
            return None;
        },
    };
    if j4 < n {
        let cc = s.get_char(j4);
        if cc == '}' {
            proof {
                lemma_skip_parts(s@, j4 as int);
            }
            let t = Task { title, completed };
            return Some((t, j4 + 1));
        }
        proof {
            lemma_skip_parts(s@, j4 as int);
        }
        return None;
    }
    proof {
        assert(s@.skip(j4 as int).len() == 0);
    }
    None
}

/// Read a task array at position `i`.
fn parse_tasks_at(s: &str, i: usize, n: usize) -> (r: Option<(Vec<Task>, usize)>)
    requires
        n == s@.len(),
        i <= n,
    ensures
        match r {
            Option::Some((ts, j)) => i < j <= n
                && dec_tasks(s@.skip(i as int)) == Option::Some(
                    (ts.deep_view(), s@.skip(j as int)),
                ),
            Option::None => dec_tasks(s@.skip(i as int)) is None,
        },
{
    if i >= n {
        proof {
            assert(s@.skip(i as int).len() == 0);
        }
        return None;
    }
    if s.get_char(i) != '[' {
        proof {
            lemma_skip_parts(s@, i as int);
        }
        return None;
    }
    proof {
        lemma_skip_parts(s@, i as int);
    }
    if i + 1 < n && s.get_char(i + 1) == ']' {
        proof {
            lemma_skip_parts(s@, i + 1);
        }
        let out: Vec<Task> = Vec::new();
        proof {
            assert(out.deep_view() =~= Seq::<crate::model::TaskSpec>::empty());
        }
        return Some((out, i + 2));
    }
    let (t0, k0) = match parse_task_at(s, i + 1, n) {
        Some(p) => p,
        None => {
            proof {
                if i + 1 < n {
                    lemma_skip_parts(s@, i + 1);
                }
            }
            return None;
        },
    };
    let mut ts: Vec<Task> = Vec::new();
    ts.push(t0);
    let mut k = k0;
    proof {
        assert(ts.deep_view() =~= seq![t0@]);
    }
    while k < n
        invariant
            n == s@.len(),
            i < k <= n,
            dec_tasks(s@.skip(i as int)) == (match dec_tasks_rest(s@.skip(k as int)) {
                Option::Some((u, rr)) => Option::Some((ts.deep_view() + u, rr)),
                Option::None => Option::<(Seq<crate::model::TaskSpec>, Seq<char>)>::None,
            }),
        decreases n - k,
    {
        let ghost pre = ts.deep_view();
        let c = s.get_char(k);
        proof {
            lemma_skip_parts(s@, k as int);
        }
        if c == ']' {
            proof {
                assert(pre + Seq::<crate::model::TaskSpec>::empty() =~= pre);
            }
            return Some((ts, k + 1));
        }
        if c != ',' {
            return None;
        }
        match parse_task_at(s, k + 1, n) {
            Some((t, k2)) => {
                proof {
                    match dec_tasks_rest(s@.skip(k2 as int)) {
                        Option::Some((u, rr)) => {
                            assert((pre + seq![t@]) + u =~= pre + (seq![t@] + u));
                        },
                        Option::None => {},
                    }
                }
                let ghost prev = ts;
                ts.push(t);
                proof {
                    crate::model::lemma_deep_view_push(ts, prev, t);
                }
                k = k2;
            },
            None => {
                return None;
            },
        }
    }
    proof {
        assert(s@.skip(k as int).len() == 0);
    }
    None
}

/// Read one collection record at position `i`.
fn parse_collection_at(s: &str, i: usize, n: usize) -> (r: Option<(Collection, usize)>)
    requires
        n == s@.len(),
        i <= n,
    ensures
        match r {
            Option::Some((c, j)) => i < j <= n
                && dec_collection(s@.skip(i as int)) == Option::Some((c@, s@.skip(j as int))),
            Option::None => dec_collection(s@.skip(i as int)) is None,
        },
{
    proof {
        lemma_literals();
    }
    let j1 = match eat_lit(s, i, n, "{\"title\":") {
        Some(j) => j,
        None => {
            return None;
        },
    };
    let (title, j2) = match parse_string_at(s, j1, n) {
        Some(p) => p,
        None => {
            return None;
        },
    };
    let j3 = match eat_lit(s, j2, n, ",\"tasks\":") {
        Some(j) => j,
        None => {
            return None;
        },
    };
    let (tasks, j4) = match parse_tasks_at(s, j3, n) {
        Some(p) => p,
        None => {
            return None;
        },
    };
    if j4 < n {
        let cc = s.get_char(j4);
        if cc == '}' {
            proof {
                lemma_skip_parts(s@, j4 as int);
            }
            let c = Collection { title, tasks };
            return Some((c, j4 + 1));
        }
        proof {
            lemma_skip_parts(s@, j4 as int);
        }
        return None;
    }
    proof {
        assert(s@.skip(j4 as int).len() == 0);
    }
    None
}

/// Read the whole store array at position `i`.
#[verifier::rlimit(100)]
fn parse_store_at(s: &str, i: usize, n: usize) -> (r: Option<(Store, usize)>)
    requires
        n == s@.len(),
        i <= n,
    ensures
        match r {
            Option::Some((st, j)) => i < j <= n
                && dec_store(s@.skip(i as int)) == Option::Some((st@, s@.skip(j as int))),
            Option::None => dec_store(s@.skip(i as int)) is None,
        },
{
    if i >= n {
        proof {
            assert(s@.skip(i as int).len() == 0);
        }
        return None;
    }
    if s.get_char(i) != '[' {
        proof {
            lemma_skip_parts(s@, i as int);
        }
        return None;
    }
    proof {
        lemma_skip_parts(s@, i as int);
    }
    if i + 1 < n && s.get_char(i + 1) == ']' {
        proof {
            lemma_skip_parts(s@, i + 1);
        }
        let out = Store { collections: Vec::new() };
        proof {
            assert(out@.collections =~= Seq::<CollectionSpec>::empty());
        }
        return Some((out, i + 2));
    }
    let (c0, k0) = match parse_collection_at(s, i + 1, n) {
        Some(p) => p,
        None => {
            proof {
                if i + 1 < n {
                    lemma_skip_parts(s@, i + 1);
                }
            }
            return None;
        },
    };
    let mut cols: Vec<Collection> = Vec::new();
    cols.push(c0);
    let mut k = k0;
    proof {
        assert(cols.deep_view() =~= seq![c0@]);
    }
    while k < n
        invariant
            n == s@.len(),
            i < k <= n,
            dec_store(s@.skip(i as int)) == (match dec_collections_rest(s@.skip(k as int)) {
                Option::Some((u, rr)) => Option::Some(
                    (StoreSpec { collections: cols.deep_view() + u }, rr),
                ),
                Option::None => Option::<(StoreSpec, Seq<char>)>::None,
            }),
        decreases n - k,
    {
        let ghost pre = cols.deep_view();
        let c = s.get_char(k);
        proof {
            lemma_skip_parts(s@, k as int);
        }
        if c == ']' {
            proof {
                assert(pre + Seq::<CollectionSpec>::empty() =~= pre);
            }
            let out = Store { collections: cols };
            return Some((out, k + 1));
        }
        if c != ',' {
            return None;
        }
        match parse_collection_at(s, k + 1, n) {
            Some((c1, k2)) => {
                proof {
                    assert(k2 > k);
                    assert(s@.skip(k2 as int).len() < s@.skip(k as int).len());
                    match dec_collections_rest(s@.skip(k2 as int)) {
                        Option::Some((u, rr)) => {
                            assert(pre.push(c1@) =~= pre + seq![c1@]);
                            assert((pre + seq![c1@]) + u =~= pre + (seq![c1@] + u));
                        },
                        Option::None => {},
                    }
                }
                let ghost prev = cols;
                cols.push(c1);
                proof {
                    crate::model::lemma_deep_view_push(cols, prev, c1);
                    assert(cols.deep_view() =~= pre + seq![c1@]);
                }
                k = k2;
            },
            None => {
                return None;
            },
        }
    }
    proof {
        assert(s@.skip(k as int).len() == 0);
    }
    None
}

/// Restore the store from its file's text. A missing file (`None`) is the
/// first run: it yields the empty store, not an error. Text that is not a
/// store the gateway writes fails with the deserialization error; text that
/// is one reconstructs every collection and task, order preserved.
pub fn load_from_str(contents: Option<&str>) -> (r: Result<Store, LoadError>)
    ensures
        contents is None ==> (r matches Ok(st)
            && st@.collections == Seq::<CollectionSpec>::empty()),
        contents matches Option::Some(s) ==> match r {
            Ok(st) => decode_store(s@) == Option::Some(st@) && s@ == store_json(st@),
            Err(e) => decode_store(s@) is None && e == LoadError::Deserialization,
        },
{
    match contents {
        None => Ok(Store::empty()),
        Some(s) => {
            let n = s.unicode_len();
            proof {
                assert(s@.skip(0) =~= s@);
            }
            match parse_store_at(s, 0, n) {
                Some((st, j)) => {
                    if j == n {
                        proof {
                            assert(s@.skip(j as int).len() == 0);
                            crate::codec::lemma_encode_of_decode(s@, st@);
                        }
                        Ok(st)
                    } else {
                        proof {
                            assert(s@.skip(j as int).len() > 0);
                        }
                        Err(LoadError::Deserialization)
                    }
                },
                None => Err(LoadError::Deserialization),
            }
        },
    }
}

/// Round trip at the gateway: loading what `save_to_string` wrote yields
/// the saved store back, titles, flags and order included.
pub proof fn lemma_save_load_round_trip(st: crate::model::StoreSpec)
    ensures
        decode_store(store_json(st)) == Option::Some(st),
{
    lemma_decode_of_encode(st);
}

} // verus!
