//! Text lines: decoding, white space and trimming.
//!
//! A line of a record is text in UTF-8. What is recorded of it is the line
//! without the white space at its two ends.

use vstd::prelude::*;
use vstd::string::*;
use vstd::utf8::*;

verus! {

/// The characters that count as white space: those with the Unicode property
/// `White_Space`.
pub open spec fn is_white_space(c: char) -> bool {
    ||| ('\u{9}' <= c && c <= '\u{d}')
    ||| c == ' '
    ||| c == '\u{85}'
    ||| c == '\u{a0}'
    ||| c == '\u{1680}'
    ||| ('\u{2000}' <= c && c <= '\u{200a}')
    ||| c == '\u{2028}'
    ||| c == '\u{2029}'
    ||| c == '\u{202f}'
    ||| c == '\u{205f}'
    ||| c == '\u{3000}'
}

/// `s` without the white space at its start.
pub open spec fn trim_start(s: Seq<char>) -> Seq<char>
    decreases s.len(),
{
    if s.len() > 0 && is_white_space(s[0]) {
        trim_start(s.drop_first())
    } else {
        s
    }
}

/// `s` without the white space at its end.
pub open spec fn trim_end(s: Seq<char>) -> Seq<char>
    decreases s.len(),
{
    if s.len() > 0 && is_white_space(s.last()) {
        trim_end(s.drop_last())
    } else {
        s
    }
}

/// `s` without the white space at its two ends.
pub open spec fn trim_white_space(s: Seq<char>) -> Seq<char> {
    trim_end(trim_start(s))
}

/// The bytes of a line's text without the white space at its two ends.
/// Meaningful for a line that is valid UTF-8.
pub open spec fn trimmed_text(line: Seq<u8>) -> Seq<u8> {
    encode_utf8(trim_white_space(decode_utf8(line)))
}

/// Tells whether a character is white space.
pub fn white_space(c: char) -> (b: bool)
    ensures
        b == is_white_space(c),
{
    ('\u{9}' <= c && c <= '\u{d}') || c == ' ' || c == '\u{85}' || c == '\u{a0}' || c
        == '\u{1680}' || ('\u{2000}' <= c && c <= '\u{200a}') || c == '\u{2028}' || c
        == '\u{2029}' || c == '\u{202f}' || c == '\u{205f}' || c == '\u{3000}'
}

/// Where the first `a` characters are white space and the next one is not,
/// trimming the start drops exactly those `a`.
pub proof fn lemma_trim_start_at(s: Seq<char>, a: int)
    requires
        0 <= a <= s.len(),
        forall|i: int| 0 <= i < a ==> is_white_space(#[trigger] s[i]),
        a < s.len() ==> !is_white_space(s[a]),
    ensures
        trim_start(s) == s.subrange(a, s.len() as int),
    decreases a,
{
    if a == 0 {
        assert(s.subrange(0, s.len() as int) =~= s);
    } else {
        let t = s.drop_first();
        assert forall|i: int| 0 <= i < a - 1 implies is_white_space(#[trigger] t[i]) by {
            assert(t[i] == s[i + 1]);
        }
        lemma_trim_start_at(t, a - 1);
        assert(t.subrange(a - 1, t.len() as int) =~= s.subrange(a, s.len() as int));
    }
}

/// Where all characters from `b` on are white space and the one before is
/// not, trimming the end keeps exactly the first `b`.
pub proof fn lemma_trim_end_at(s: Seq<char>, b: int)
    requires
        0 <= b <= s.len(),
        forall|i: int| b <= i < s.len() ==> is_white_space(#[trigger] s[i]),
        0 < b ==> !is_white_space(s[b - 1]),
    ensures
        trim_end(s) == s.subrange(0, b),
    decreases s.len() - b,
{
    if b == s.len() {
        assert(s.subrange(0, b) =~= s);
    } else {
        let t = s.drop_last();
        assert forall|i: int| b <= i < t.len() implies is_white_space(#[trigger] t[i]) by {
            assert(t[i] == s[i]);
        }
        lemma_trim_end_at(t, b);
        assert(t.subrange(0, b) =~= s.subrange(0, b));
    }
}

/// The text between the first and the last character of `s` that are not
/// white space; empty where there is none.
pub fn trim(s: &str) -> (t: &str)
    ensures
        t@ == trim_white_space(s@),
{
    let total = s.unicode_len();
    let mut start: usize = total;
    let mut end: usize = 0;
    let mut k: usize = 0;
    for c in it: s.chars()
        invariant
            it.seq() == s@,
            total == s@.len(),
            k == it.index(),
            k <= total,
            end <= k,
            forall|i: int| end <= i < k ==> is_white_space(#[trigger] s@[i]),
            0 < end ==> !is_white_space(s@[end - 1]),
            end == 0 ==> start == total,
            0 < end ==> start < end,
            0 < end ==> !is_white_space(s@[start as int]),
            0 < end ==> forall|i: int| 0 <= i < start ==> is_white_space(#[trigger] s@[i]),
    {
        if !white_space(c) {
            if end == 0 {
                start = k;
            }
            end = k + 1;
        }
        k = k + 1;
    }
    if end == 0 {
        start = 0;
        proof {
            // Every character is white space: nothing is kept.
            lemma_trim_start_at(s@, total as int);
            assert(s@.subrange(total as int, total as int) =~= Seq::<char>::empty());
            assert(s@.subrange(0, 0) =~= Seq::<char>::empty());
        }
    } else {
        proof {
            let kept = s@.subrange(start as int, total as int);
            lemma_trim_start_at(s@, start as int);
            lemma_trim_end_at(kept, end - start);
            assert(kept.subrange(0, end - start) =~= s@.subrange(start as int, end as int));
        }
    }
    s.substring_char(start, end)
}

/// Calls `std::str::from_utf8`: the text that the bytes spell where they are
/// valid UTF-8, and nothing where they are not.
#[verifier::external_body]
fn decode(bytes: &[u8]) -> (r: Option<&str>)
    ensures
        r is Some <==> valid_utf8(bytes@),
        r matches Some(s) ==> s.spec_bytes() == bytes@,
{
    std::str::from_utf8(bytes).ok()
}

/// The length in bytes of a line's trimmed text, or `None` for a line that
/// is not valid UTF-8.
pub fn trimmed_len(line: &[u8]) -> (r: Option<usize>)
    ensures
        r is Some <==> valid_utf8(line@),
        r matches Some(n) ==> n == trimmed_text(line@).len(),
{
    match decode(line) {
        Some(s) => {
            broadcast use encode_utf8_decode_utf8;

            let t = trim(s);
            let whole = line.len();
            proof {
                lemma_trimmed_no_longer(s@);
                assert(t.spec_bytes().len() <= whole);
            }
            Some(t.len())
        },
        None => None,
    }
}

/// The bytes of a line's trimmed text, or `None` for a line that is not
/// valid UTF-8.
pub fn trimmed_bytes(line: &[u8]) -> (r: Option<Vec<u8>>)
    ensures
        r is Some <==> valid_utf8(line@),
        r matches Some(v) ==> v@ == trimmed_text(line@),
{
    match decode(line) {
        Some(s) => {
            broadcast use encode_utf8_decode_utf8;

            let t = trim(s);
            Some(t.as_bytes_vec())
        },
        None => None,
    }
}

/// The encoding of a part of a text is no longer than that of the whole.
pub proof fn lemma_encode_subrange_len(s: Seq<char>, a: int, b: int)
    requires
        0 <= a <= b <= s.len(),
    ensures
        encode_utf8(s.subrange(a, b)).len() <= encode_utf8(s).len(),
    decreases s.len(),
{
    if s.len() == 0 {
        assert(s.subrange(a, b) =~= s);
    } else if a == 0 && b == 0 {
        assert(s.subrange(0, 0) =~= Seq::<char>::empty());
    } else if a == 0 {
        let t = s.drop_first();
        lemma_encode_subrange_len(t, 0, b - 1);
        assert(s.subrange(0, b).drop_first() =~= t.subrange(0, b - 1));
        assert(s.subrange(0, b)[0] == s[0]);
    } else {
        let t = s.drop_first();
        lemma_encode_subrange_len(t, a - 1, b - 1);
        assert(s.subrange(a, b) =~= t.subrange(a - 1, b - 1));
    }
}

/// Trimming keeps a contiguous part of the text.
pub proof fn lemma_trim_is_subrange(s: Seq<char>) -> (r: (int, int))
    ensures
        0 <= r.0 <= r.1 <= s.len(),
        trim_white_space(s) == s.subrange(r.0, r.1),
{
    let a = lemma_trim_start_is_suffix(s);
    let u = s.subrange(a, s.len() as int);
    let b = lemma_trim_end_is_prefix(u);
    assert(u.subrange(0, b) =~= s.subrange(a, a + b));
    (a, a + b)
}

/// Trimming the start keeps a suffix.
pub proof fn lemma_trim_start_is_suffix(s: Seq<char>) -> (a: int)
    ensures
        0 <= a <= s.len(),
        trim_start(s) == s.subrange(a, s.len() as int),
    decreases s.len(),
{
    if s.len() > 0 && is_white_space(s[0]) {
        let t = s.drop_first();
        let a = lemma_trim_start_is_suffix(t);
        assert(t.subrange(a, t.len() as int) =~= s.subrange(a + 1, s.len() as int));
        a + 1
    } else {
        assert(s.subrange(0, s.len() as int) =~= s);
        0
    }
}

/// Trimming the end keeps a prefix.
pub proof fn lemma_trim_end_is_prefix(s: Seq<char>) -> (b: int)
    ensures
        0 <= b <= s.len(),
        trim_end(s) == s.subrange(0, b),
    decreases s.len(),
{
    if s.len() > 0 && is_white_space(s.last()) {
        let t = s.drop_last();
        let b = lemma_trim_end_is_prefix(t);
        assert(t.subrange(0, b) =~= s.subrange(0, b));
        b
    } else {
        assert(s.subrange(0, s.len() as int) =~= s);
        s.len() as int
    }
}

/// The trimmed text is no longer, in bytes, than the text.
pub proof fn lemma_trimmed_no_longer(s: Seq<char>)
    ensures
        encode_utf8(trim_white_space(s)).len() <= encode_utf8(s).len(),
{
    let r = lemma_trim_is_subrange(s);
    lemma_encode_subrange_len(s, r.0, r.1);
}

} // verus!
