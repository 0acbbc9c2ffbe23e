//! Small helpers: exact string comparison, reading NUL-terminated text,
//! the timestamp used as a fallback export title, and the export-title
//! derivation itself.

use vstd::prelude::*;

verus! {

/// Whether two string slices hold the same characters.
pub fn str_eq(a: &str, b: &str) -> (r: bool)
    ensures
        r == (a@ == b@),
{
    let x = a.to_owned();
    let y = b.to_owned();
    x == y
}

/// Relies on chrono: `Local::now()` rendered with the fixed format
/// `%Y-%m-%d_%H:%M:%S`. The rendering always has at least four year digits
/// and the fixed separators, so at least 19 characters; nothing more can be
/// promised of a reading of the clock.
#[verifier::external_body]
pub fn now_formatted_string() -> (r: String)
    ensures
        r@.len() >= 19,
{
    chrono::Local::now().format("%Y-%m-%d_%H:%M:%S").to_string()
}

/// Relies on std's `str::from_utf8`: it succeeds exactly on valid UTF-8
/// and views the same bytes as characters, so those characters encode back
/// to the input.
#[verifier::external_body]
fn bytes_to_str(bytes: &[u8]) -> (r: Option<&str>)
    ensures
        match r {
            Option::Some(t) => vstd::utf8::valid_utf8(bytes@)
                && vstd::utf8::encode_utf8(t@) == bytes@,
            Option::None => !vstd::utf8::valid_utf8(bytes@),
        },
{
    std::str::from_utf8(bytes).ok()
}

/// Where a NUL-terminated buffer's text ends: at its first NUL byte, or at
/// the end when there is none.
pub open spec fn nul_range_end(bytes: Seq<u8>) -> int
    decreases bytes.len(),
{
    if bytes.len() == 0 {
        0
    } else if bytes.first() == 0 {
        0
    } else {
        1 + nul_range_end(bytes.drop_first())
    }
}

/// A position with no NUL before it, holding one or ending the buffer, is
/// where the text ends.
proof fn lemma_nul_end_at(bytes: Seq<u8>, i: int)
    requires
        0 <= i <= bytes.len(),
        forall|q: int| 0 <= q < i ==> bytes[q] != 0,
        i < bytes.len() ==> bytes[i] == 0,
    ensures
        nul_range_end(bytes) == i,
    decreases bytes.len(),
{
    if bytes.len() == 0 || i == 0 {
    } else {
        let d = bytes.drop_first();
        assert(forall|q: int| 0 <= q < d.len() ==> d[q] == bytes[q + 1]);
        lemma_nul_end_at(d, i - 1);
    }
}

/// The text of a NUL-terminated buffer: the characters its bytes encode up
/// to the first NUL (or the whole buffer without one), or nothing when
/// those bytes are not valid UTF-8.
pub fn str_from_u8_nul_utf8(utf8_src: &[u8]) -> (r: Option<&str>)
    ensures
        match r {
            Option::Some(t) => vstd::utf8::valid_utf8(
                utf8_src@.take(nul_range_end(utf8_src@)),
            ) && vstd::utf8::encode_utf8(t@) == utf8_src@.take(nul_range_end(utf8_src@)),
            Option::None => !vstd::utf8::valid_utf8(
                utf8_src@.take(nul_range_end(utf8_src@)),
            ),
        },
{
    let n = utf8_src.len();
    let mut i: usize = 0;
    while i < n && utf8_src[i] != 0
        invariant
            n == utf8_src@.len(),
            i <= n,
            forall|q: int| 0 <= q < i ==> utf8_src@[q] != 0,
        decreases n - i,
    {
        i = i + 1;
    }
    proof {
        lemma_nul_end_at(utf8_src@, i as int);
        assert(utf8_src@.subrange(0, i as int) =~= utf8_src@.take(i as int));
    }
    bytes_to_str(&utf8_src[0..i])
}

/// The suffix characters to append, if any.
pub open spec fn suffix_view(suffix: Option<Seq<char>>) -> Seq<char> {
    match suffix {
        Option::Some(x) => x,
        Option::None => Seq::empty(),
    }
}

/// The characters of an optional string slice, empty when absent.
pub open spec fn suffix_seq(suffix: Option<&str>) -> Seq<char> {
    match suffix {
        Option::Some(x) => x@,
        Option::None => Seq::empty(),
    }
}

/// The export title derived from a file stem, a fallback, and a timestamp:
/// the first of the three that is present, with the suffix appended.
pub open spec fn spec_file_title(
    stem: Option<Seq<char>>,
    fallback: Option<Seq<char>>,
    now: Seq<char>,
    suffix: Option<Seq<char>>,
) -> Seq<char> {
    (match stem {
        Option::Some(s) => s,
        Option::None => match fallback {
            Option::Some(f) => f,
            Option::None => now,
        },
    }) + suffix_view(suffix)
}

/// Derive an export title from an optional file stem, an optional fallback,
/// and the timestamp to use when both are absent.
pub fn default_file_title(
    stem: Option<&str>,
    fallback: Option<&str>,
    now: &str,
    suffix: Option<&str>,
) -> (r: String)
    ensures
        r@ == spec_file_title(
            match stem {
                Option::Some(s) => Option::Some(s@),
                Option::None => Option::None,
            },
            match fallback {
                Option::Some(f) => Option::Some(f@),
                Option::None => Option::None,
            },
            now@,
            match suffix {
                Option::Some(x) => Option::Some(x@),
                Option::None => Option::None,
            },
        ),
{
    let mut title = match stem {
        Some(s) => s.to_owned(),
        None => match fallback {
            Some(f) => f.to_owned(),
            None => now.to_owned(),
        },
    };
    match suffix {
        Some(x) => {
            title.append(x);
        },
        None => {
            proof {
                assert(title@ + Seq::<char>::empty() =~= title@);
            }
        },
    }
    title
}

/// Derive an export title as the close-time export dialog does: prefer the
/// output file's stem, then the fallback, and otherwise name the export
/// after the current time.
pub fn default_file_title_for_export(
    stem: Option<&str>,
    fallback: Option<&str>,
    suffix: Option<&str>,
) -> (r: String)
    ensures
        stem matches Option::Some(s) ==> r@ == s@ + suffix_seq(suffix),
        stem is None ==> (fallback matches Option::Some(f) ==> r@ == f@ + suffix_seq(suffix)),
        stem is None && fallback is None ==> exists|t: Seq<char>|
            t.len() >= 19 && r@ == t + suffix_seq(suffix),
{
    let now = now_formatted_string();
    let r = default_file_title(stem, fallback, now.as_str(), suffix);
    proof {
        let suf = suffix_seq(suffix);
        match stem {
            Option::Some(s) => {
                assert(r@ == s@ + suf);
            },
            Option::None => {
                match fallback {
                    Option::Some(f) => {
                        assert(r@ == f@ + suf);
                    },
                    Option::None => {
                        assert(now@.len() >= 19 && r@ == now@ + suf);
                    },
                }
            },
        }
    }
    r
}

} // verus!
