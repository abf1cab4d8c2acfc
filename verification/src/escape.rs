//! Unicode escapes in regular expressions.
//!
//! Rule files write a code point as `\uXXXX`; the `regex` crate writes it as `\x{XXXX}`.

use crate::text::{chars_of, cut};
use vstd::prelude::*;

verus! {

/// Whether a character is a hexadecimal digit.
pub open spec fn is_hex(c: char) -> bool {
    '0' <= c <= '9' || 'a' <= c <= 'f' || 'A' <= c <= 'F'
}

/// Whether a text begins with `\u` and four hexadecimal digits.
pub open spec fn begins_with_escape(text: Seq<char>) -> bool {
    text.len() >= 6 && text[0] == '\\' && text[1] == 'u' && is_hex(text[2]) && is_hex(text[3])
        && is_hex(text[4]) && is_hex(text[5])
}

/// A pattern with each `\uXXXX`, taken from left to right, written as `\x{XXXX}`.
pub open spec fn normalized(pattern: Seq<char>) -> Seq<char>
    decreases pattern.len(),
{
    if pattern.len() == 0 {
        Seq::empty()
    } else if begins_with_escape(pattern) {
        "\\x{"@ + pattern.subrange(2, 6) + "}"@ + normalized(pattern.skip(6))
    } else {
        seq![pattern[0]] + normalized(pattern.skip(1))
    }
}

/// Whether a character is a hexadecimal digit.
fn hex(c: char) -> (hit: bool)
    ensures
        hit == is_hex(c),
{
    ('0' <= c && c <= '9') || ('a' <= c && c <= 'f') || ('A' <= c && c <= 'F')
}

/// Writes each `\uXXXX` of a pattern as `\x{XXXX}`.
pub fn normalize_regex(pattern: &str) -> (out: String)
    ensures
        out@ == normalized(pattern@),
{
    let chars = chars_of(pattern);
    let n = chars.len();
    let mut out = String::new();
    let mut start: usize = 0;
    let mut i: usize = 0;
    assert(pattern@.skip(0) == pattern@);
    while i < n
        invariant
            start <= i <= n,
            n == chars.len(),
            chars@ == pattern@,
            normalized(pattern@) == out@ + pattern@.subrange(start as int, i as int)
                + normalized(pattern@.skip(i as int)),
        decreases n - i,
    {
        let ghost rest = pattern@.skip(i as int);
        if n - i >= 6 && chars[i] == '\\' && chars[i + 1] == 'u' && hex(chars[i + 2]) && hex(
            chars[i + 3],
        ) && hex(chars[i + 4]) && hex(chars[i + 5]) {
            let before = cut(pattern, start, i);
            let digits = cut(pattern, i + 2, i + 6);
            let ghost old_out = out@;
            out.append(before.as_str());
            out.append("\\x{");
            out.append(digits.as_str());
            out.append("}");
            assert(begins_with_escape(rest));
            assert(rest.subrange(2, 6) == digits@);
            assert(rest.skip(6) == pattern@.skip(i + 6));
            i = i + 6;
            start = i;
            assert(normalized(pattern@) == out@ + pattern@.subrange(start as int, i as int)
                + normalized(pattern@.skip(i as int)));
        } else {
            assert(!begins_with_escape(rest));
            assert(rest.skip(1) == pattern@.skip(i + 1));
            assert(pattern@.subrange(start as int, i + 1) == pattern@.subrange(
                start as int,
                i as int,
            ) + seq![rest[0]]);
            i = i + 1;
            assert(normalized(pattern@) == out@ + pattern@.subrange(start as int, i as int)
                + normalized(pattern@.skip(i as int)));
        }
    }
    let rest = cut(pattern, start, n);
    out.append(rest.as_str());
    assert(pattern@.skip(n as int) == Seq::<char>::empty());
    assert(normalized(Seq::<char>::empty()) == Seq::<char>::empty());
    assert(out@ == normalized(pattern@));
    out
}

/// A pattern that holds no `\uXXXX` stays as it is.
pub proof fn plain_patterns_stay(pattern: Seq<char>)
    requires
        forall|i: int| 0 <= i < pattern.len() ==> !begins_with_escape(#[trigger] pattern.skip(i)),
    ensures
        normalized(pattern) == pattern,
    decreases pattern.len(),
{
    if pattern.len() > 0 {
        assert(pattern.skip(0) == pattern);
        let rest = pattern.skip(1);
        assert forall|i: int| 0 <= i < rest.len() implies !begins_with_escape(
            #[trigger] rest.skip(i),
        ) by {
            assert(rest.skip(i) == pattern.skip(i + 1));
        }
        plain_patterns_stay(rest);
        assert(seq![pattern[0]] + rest == pattern);
    }
}

/// No `\uXXXX` is left once a pattern has been normalized.
pub proof fn no_escape_is_left(pattern: Seq<char>, i: int)
    requires
        0 <= i < normalized(pattern).len(),
    ensures
        !begins_with_escape(normalized(pattern).skip(i)),
    decreases pattern.len(),
{
    let out = normalized(pattern);
    reveal_strlit("\\x{");
    reveal_strlit("}");
    if begins_with_escape(pattern) {
        let rest = normalized(pattern.skip(6));
        let digits = pattern.subrange(2, 6);
        let head = "\\x{"@ + digits + "}"@;
        assert(out == head + rest);
        assert(head.len() == 8);
        if i >= 8 {
            no_escape_is_left(pattern.skip(6), i - 8);
            assert(out.skip(i) == rest.skip(i - 8));
        } else if begins_with_escape(out.skip(i)) {
            assert(out.skip(i)[0] == head[i]);
            if 3 <= i < 7 {
                assert(head[i] == pattern[i - 1]);
            }
            assert(i == 0);
            assert(out.skip(i)[1] == head[1]);
        }
    } else {
        let rest = normalized(pattern.skip(1));
        assert(out == seq![pattern[0]] + rest);
        if i >= 1 {
            no_escape_is_left(pattern.skip(1), i - 1);
            assert(out.skip(i) == rest.skip(i - 1));
        } else if begins_with_escape(out.skip(0)) {
            assert(out.skip(0) == out);
            lemma_head_is_kept(pattern.skip(1), 5);
            assert(forall|k: int| 1 <= k < 6 ==> out[k] == rest[k - 1]);
            assert(pattern.skip(1).take(5) == out.subrange(1, 6));
            assert(forall|k: int| 1 <= k < 6 ==> pattern[k] == pattern.skip(1).take(5)[k - 1]);
            assert(forall|k: int| 1 <= k < 6 ==> out.subrange(1, 6)[k - 1] == out[k]);
        }
    }
}

/// As far as a normalized pattern begins without a backslash, it begins as the pattern does.
proof fn lemma_head_is_kept(pattern: Seq<char>, n: int)
    requires
        0 <= n <= normalized(pattern).len(),
        forall|k: int| 0 <= k < n ==> normalized(pattern)[k] != '\\',
    ensures
        n <= pattern.len(),
        normalized(pattern).take(n) == pattern.take(n),
    decreases pattern.len(),
{
    reveal_strlit("\\x{");
    if n > 0 {
        if begins_with_escape(pattern) {
            assert(normalized(pattern)[0] == '\\');
        } else {
            let rest = normalized(pattern.skip(1));
            assert(normalized(pattern) == seq![pattern[0]] + rest);
            assert forall|k: int| 0 <= k < n - 1 implies rest[k] != '\\' by {
                assert(normalized(pattern)[k + 1] == rest[k]);
            }
            lemma_head_is_kept(pattern.skip(1), n - 1);
            assert forall|k: int| 0 <= k < n implies normalized(pattern).take(n)[k]
                == pattern.take(n)[k] by {
                if k > 0 {
                    assert(rest.take(n - 1)[k - 1] == pattern.skip(1).take(n - 1)[k - 1]);
                }
            }
        }
    }
}

/// Normalizing a second time changes nothing.
pub proof fn normalizing_twice_is_once(pattern: Seq<char>)
    ensures
        normalized(normalized(pattern)) == normalized(pattern),
{
    let out = normalized(pattern);
    assert forall|i: int| 0 <= i < out.len() implies !begins_with_escape(#[trigger] out.skip(i)) by {
        no_escape_is_left(pattern, i);
    }
    plain_patterns_stay(out);
}

/// What is taken for a hexadecimal digit.
pub proof fn hexadecimal_digits(c: char)
    ensures
        is_hex(c) <==> "0123456789abcdefABCDEF"@.contains(c),
{
    reveal_strlit("0123456789abcdefABCDEF");
    let all = "0123456789abcdefABCDEF"@;
    assert(all[0] == '0' && all[1] == '1' && all[2] == '2' && all[3] == '3' && all[4] == '4'
        && all[5] == '5' && all[6] == '6' && all[7] == '7' && all[8] == '8' && all[9] == '9'
        && all[10] == 'a' && all[11] == 'b' && all[12] == 'c' && all[13] == 'd' && all[14] == 'e'
        && all[15] == 'f' && all[16] == 'A' && all[17] == 'B' && all[18] == 'C' && all[19] == 'D'
        && all[20] == 'E' && all[21] == 'F');
    assert(all.len() == 22);
}

/// A pattern is normalized part by part: what stands before a backslash does not change what follows.
pub proof fn patterns_are_normalized_part_by_part(a: Seq<char>, b: Seq<char>)
    requires
        b.len() > 0 ==> b[0] == '\\',
    ensures
        normalized(a + b) == normalized(a) + normalized(b),
    decreases a.len(),
{
    let all = a + b;
    if a.len() == 0 {
        assert(all =~= b);
        assert(normalized(a) + normalized(b) =~= normalized(b));
    } else {
        assert(all[0] == a[0]);
        if begins_with_escape(all) {
            if a.len() < 6 {
                assert(all[a.len() as int] == '\\');
            }
            assert(begins_with_escape(a)) by {
                assert(a.len() >= 6);
                assert(all[1] == a[1] && all[2] == a[2] && all[3] == a[3] && all[4] == a[4]
                    && all[5] == a[5]);
            }
            assert(all.skip(6) =~= a.skip(6) + b);
            assert(all.subrange(2, 6) =~= a.subrange(2, 6));
            patterns_are_normalized_part_by_part(a.skip(6), b);
            assert(normalized(all) =~= normalized(a) + normalized(b));
        } else {
            if begins_with_escape(a) {
                assert(all[1] == a[1] && all[2] == a[2] && all[3] == a[3] && all[4] == a[4]
                    && all[5] == a[5]);
            }
            assert(all.skip(1) =~= a.skip(1) + b);
            patterns_are_normalized_part_by_part(a.skip(1), b);
            assert(normalized(all) =~= normalized(a) + normalized(b));
        }
    }
}

/// Wherever a code point is written as `\uXXXX`, it is written as `\x{XXXX}` afterwards; what stands
/// before it and behind it is normalized for itself.
pub proof fn a_code_point_is_written_in_braces(before: Seq<char>, digits: Seq<char>, after: Seq<char>)
    requires
        digits.len() == 4,
        forall|i: int| 0 <= i < 4 ==> is_hex(#[trigger] digits[i]),
    ensures
        normalized(before + "\\u"@ + digits + after) == normalized(before) + "\\x{"@ + digits + "}"@
            + normalized(after),
{
    reveal_strlit("\\u");
    let tail = "\\u"@ + digits + after;
    assert(before + "\\u"@ + digits + after =~= before + tail);
    assert(tail[0] == '\\' && tail[1] == 'u' && tail[2] == digits[0] && tail[3] == digits[1]
        && tail[4] == digits[2] && tail[5] == digits[3]);
    patterns_are_normalized_part_by_part(before, tail);
    assert(tail.skip(6) =~= after);
    assert(tail.subrange(2, 6) =~= digits);
    assert(normalized(tail) == "\\x{"@ + digits + "}"@ + normalized(after));
    assert(normalized(before) + ("\\x{"@ + digits + "}"@ + normalized(after)) =~= normalized(before)
        + "\\x{"@ + digits + "}"@ + normalized(after));
}

} // verus!
