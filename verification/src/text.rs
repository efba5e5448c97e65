//! Text as sequences of characters: whitespace-separated fields and
//! hexadecimal numbers.

use vstd::prelude::*;

verus! {

/// The characters with the Unicode property `White_Space`.
pub open spec fn is_whitespace(c: char) -> bool {
    ||| '\u{9}' <= c <= '\u{d}'
    ||| c == ' '
    ||| c == '\u{85}'
    ||| c == '\u{a0}'
    ||| c == '\u{1680}'
    ||| '\u{2000}' <= c <= '\u{200a}'
    ||| c == '\u{2028}'
    ||| c == '\u{2029}'
    ||| c == '\u{202f}'
    ||| c == '\u{205f}'
    ||| c == '\u{3000}'
}

/// The first position at or after `from` that holds no whitespace, or the
/// length of `s` if there is none.
pub open spec fn word_start(s: Seq<char>, from: int) -> int
    decreases s.len() - from,
{
    if 0 <= from < s.len() && is_whitespace(s[from]) {
        word_start(s, from + 1)
    } else {
        from
    }
}

/// The first position at or after `from` that holds whitespace, or the
/// length of `s` if there is none.
pub open spec fn word_end(s: Seq<char>, from: int) -> int
    decreases s.len() - from,
{
    if 0 <= from < s.len() && !is_whitespace(s[from]) {
        word_end(s, from + 1)
    } else {
        from
    }
}

/// `word_start` moves forward only, stays inside `s`, skips whitespace only
/// and stops on a character that is none.
pub proof fn lemma_word_start(s: Seq<char>, from: int)
    requires
        0 <= from <= s.len(),
    ensures
        from <= word_start(s, from) <= s.len(),
        forall|i: int| from <= i < word_start(s, from) ==> is_whitespace(s[i]),
        word_start(s, from) < s.len() ==> !is_whitespace(s[word_start(s, from)]),
    decreases s.len() - from,
{
    if from < s.len() && is_whitespace(s[from]) {
        lemma_word_start(s, from + 1);
    }
}

/// `word_end` moves forward only, stays inside `s`, passes over no
/// whitespace and stops on whitespace or at the end.
pub proof fn lemma_word_end(s: Seq<char>, from: int)
    requires
        0 <= from <= s.len(),
    ensures
        from <= word_end(s, from) <= s.len(),
        forall|i: int| from <= i < word_end(s, from) ==> !is_whitespace(s[i]),
        word_end(s, from) < s.len() ==> is_whitespace(s[word_end(s, from)]),
        from < s.len() && !is_whitespace(s[from]) ==> from < word_end(s, from),
    decreases s.len() - from,
{
    if from < s.len() && !is_whitespace(s[from]) {
        lemma_word_end(s, from + 1);
    }
}

/// The fields of `s` that begin at or after `from`, each as the pair of
/// the position where it begins and the position just after its end. A
/// field is a longest run of characters that are not whitespace.
pub open spec fn field_spans(s: Seq<char>, from: int) -> Seq<(int, int)>
    decreases s.len() - from,
{
    let begin = word_start(s, from);
    if 0 <= from && begin < s.len() {
        let end = word_end(s, begin);
        proof {
            lemma_word_start(s, from);
            lemma_word_end(s, begin);
        }
        seq![(begin, end)] + field_spans(s, end)
    } else {
        Seq::empty()
    }
}

/// The whitespace-separated fields of `s`, in order.
pub open spec fn fields(s: Seq<char>) -> Seq<Seq<char>> {
    field_spans(s, 0).map_values(|span: (int, int)| s.subrange(span.0, span.1))
}

/// Every span lies inside `s`, is not empty and holds no whitespace; the
/// spans come in order and whitespace alone lies between them.
pub proof fn lemma_field_spans(s: Seq<char>, from: int)
    requires
        0 <= from <= s.len(),
    ensures
        forall|k: int|
            0 <= k < field_spans(s, from).len() ==> {
                let span = #[trigger] field_spans(s, from)[k];
                &&& from <= span.0 < span.1 <= s.len()
                &&& forall|i: int| span.0 <= i < span.1 ==> !is_whitespace(s[i])
                &&& span.1 < s.len() ==> is_whitespace(s[span.1])
            },
        forall|k: int|
            0 <= k < field_spans(s, from).len() - 1 ==> (#[trigger] field_spans(s, from)[k]).1
                < field_spans(s, from)[k + 1].0,
    decreases s.len() - from,
{
    let begin = word_start(s, from);
    lemma_word_start(s, from);
    if begin < s.len() {
        let end = word_end(s, begin);
        lemma_word_end(s, begin);
        lemma_field_spans(s, end);
        let rest = field_spans(s, end);
        let all = field_spans(s, from);
        assert(all =~= seq![(begin, end)] + rest);
        assert forall|k: int| 0 <= k < all.len() implies {
            let span = #[trigger] all[k];
            &&& from <= span.0 < span.1 <= s.len()
            &&& forall|i: int| span.0 <= i < span.1 ==> !is_whitespace(s[i])
            &&& span.1 < s.len() ==> is_whitespace(s[span.1])
        } by {
            if k > 0 {
                assert(all[k] == rest[k - 1]);
            }
        }
        assert forall|k: int| 0 <= k < all.len() - 1 implies (#[trigger] all[k]).1 < all[k
            + 1].0 by {
            assert(all[k + 1] == rest[k]);
            if k > 0 {
                assert(all[k] == rest[k - 1]);
            }
        }
    }
}

/// Whether `c` is whitespace.
pub fn char_is_whitespace(c: char) -> (yes: bool)
    ensures
        yes == is_whitespace(c),
{
    ('\u{9}' <= c && c <= '\u{d}') || c == ' ' || c == '\u{85}' || c == '\u{a0}' || c
        == '\u{1680}' || ('\u{2000}' <= c && c <= '\u{200a}') || c == '\u{2028}' || c
        == '\u{2029}' || c == '\u{202f}' || c == '\u{205f}' || c == '\u{3000}'
}

/// The characters of `s`, one by one.
pub fn chars_of(s: &str) -> (chars: Vec<char>)
    ensures
        chars@ == s@,
{
    let mut chars: Vec<char> = Vec::new();
    for c in it: s.chars()
        invariant
            chars@ == it.seq().take(it.index() as int),
            it.seq() == s@,
    {
        chars.push(c);
    }
    chars
}

/// The spans as integers.
pub open spec fn spans_view(spans: Seq<(usize, usize)>) -> Seq<(int, int)> {
    spans.map_values(|span: (usize, usize)| (span.0 as int, span.1 as int))
}

/// Splits `chars` into its whitespace-separated fields and returns where
/// each begins and ends.
pub fn split_fields(chars: &Vec<char>) -> (spans: Vec<(usize, usize)>)
    ensures
        spans_view(spans@) == field_spans(chars@, 0),
{
    let n = chars.len();
    let mut spans: Vec<(usize, usize)> = Vec::new();
    let mut i: usize = 0;
    loop
        invariant_except_break
            n == chars.len(),
            i <= n,
            spans_view(spans@) + field_spans(chars@, i as int) == field_spans(chars@, 0),
        ensures
            spans_view(spans@) == field_spans(chars@, 0),
        decreases n - i,
    {
        let ghost from = i as int;
        while i < n && char_is_whitespace(chars[i])
            invariant
                n == chars.len(),
                from <= i <= n,
                word_start(chars@, i as int) == word_start(chars@, from),
            decreases n - i,
        {
            i += 1;
        }
        if i >= n {
            assert(field_spans(chars@, from) =~= Seq::empty());
            assert(spans_view(spans@) + Seq::<(int, int)>::empty() =~= spans_view(spans@));
            break;
        }
        let begin = i;
        while i < n && !char_is_whitespace(chars[i])
            invariant
                n == chars.len(),
                begin <= i <= n,
                begin < n,
                !is_whitespace(chars@[begin as int]),
                word_end(chars@, i as int) == word_end(chars@, begin as int),
            decreases n - i,
        {
            i += 1;
        }
        proof {
            assert(field_spans(chars@, from) =~= seq![(begin as int, i as int)] + field_spans(
                chars@,
                i as int,
            ));
            assert(spans_view(spans@.push((begin, i))) =~= spans_view(spans@) + seq![
                (begin as int, i as int),
            ]);
            assert(spans_view(spans@.push((begin, i))) + field_spans(chars@, i as int)
                =~= spans_view(spans@) + field_spans(chars@, from));
        }
        spans.push((begin, i));
    }
    spans
}

/// The value of `c` as a hexadecimal digit, in either case.
pub open spec fn hex_digit(c: char) -> Option<nat> {
    if '0' <= c <= '9' {
        Some((c as nat - '0' as nat) as nat)
    } else if 'a' <= c <= 'f' {
        Some((c as nat - 'a' as nat + 10) as nat)
    } else if 'A' <= c <= 'F' {
        Some((c as nat - 'A' as nat + 10) as nat)
    } else {
        None
    }
}

/// Every character of `s` is a hexadecimal digit.
pub open spec fn all_hex_digits(s: Seq<char>) -> bool {
    forall|i: int| 0 <= i < s.len() ==> (#[trigger] hex_digit(s[i])) is Some
}

/// The number that the hexadecimal digits `s` write, most significant
/// digit first.
pub open spec fn hex_value(s: Seq<char>) -> nat
    decreases s.len(),
{
    if s.len() == 0 {
        0
    } else {
        16 * hex_value(s.drop_last()) + hex_digit(s.last()).unwrap()
    }
}

/// The unsigned 64-bit number that `s` writes in hexadecimal, if it writes
/// one: an optional `+`, then at least one digit and nothing else, with a
/// value that fits.
pub open spec fn unsigned_hex(s: Seq<char>) -> Option<u64> {
    let digits = if s.len() > 0 && s[0] == '+' {
        s.drop_first()
    } else {
        s
    };
    if digits.len() > 0 && all_hex_digits(digits) && hex_value(digits) <= u64::MAX {
        Some(hex_value(digits) as u64)
    } else {
        None
    }
}

/// A number is no smaller than what any of its leading digits write.
pub proof fn lemma_hex_value_prefix(s: Seq<char>, k: int)
    requires
        0 <= k <= s.len(),
    ensures
        hex_value(s.take(k)) <= hex_value(s),
    decreases s.len(),
{
    if k == s.len() {
        assert(s.take(k) =~= s);
    } else {
        lemma_hex_value_prefix(s.drop_last(), k);
        assert(s.drop_last().take(k) =~= s.take(k));
    }
}

/// The value of `c` as a hexadecimal digit.
pub fn hex_digit_value(c: char) -> (value: Option<u8>)
    ensures
        match value {
            Some(d) => hex_digit(c) == Some(d as nat) && d < 16,
            None => hex_digit(c) is None,
        },
{
    let code: u32 = c as u32;
    if '0' <= c && c <= '9' {
        Some((code - 48) as u8)
    } else if 'a' <= c && c <= 'f' {
        Some((code - 97 + 10) as u8)
    } else if 'A' <= c && c <= 'F' {
        Some((code - 65 + 10) as u8)
    } else {
        None
    }
}

/// Reads the characters of `chars` from `from` up to `to` as an unsigned
/// hexadecimal number.
pub fn parse_hex(chars: &Vec<char>, from: usize, to: usize) -> (number: Option<u64>)
    requires
        from <= to <= chars.len(),
    ensures
        number == unsigned_hex(chars@.subrange(from as int, to as int)),
{
    let ghost text = chars@.subrange(from as int, to as int);
    let mut i: usize = from;
    if i < to && chars[i] == '+' {
        i += 1;
    }
    let first = i;
    let ghost digits = chars@.subrange(first as int, to as int);
    proof {
        if first > from {
            assert(text[0] == '+');
            assert(digits =~= text.drop_first());
        } else {
            assert(text.len() > 0 ==> text[0] == chars@[from as int]);
            assert(digits =~= text);
        }
    }
    if first == to {
        return None;
    }
    let ghost expected = unsigned_hex(text);
    let mut value: u64 = 0;
    while i < to
        invariant
            first <= i <= to <= chars.len(),
            digits == chars@.subrange(first as int, to as int),
            expected == if all_hex_digits(digits) && hex_value(digits) <= u64::MAX {
                Some(hex_value(digits) as u64)
            } else {
                None
            },
            expected == unsigned_hex(chars@.subrange(from as int, to as int)),
            all_hex_digits(digits.take(i - first)),
            value == hex_value(digits.take(i - first)),
        decreases to - i,
    {
        let ghost seen = digits.take(i - first);
        let ghost next = digits.take(i + 1 - first);
        proof {
            assert(next.drop_last() =~= seen);
            assert(next.last() == chars@[i as int]);
            lemma_hex_value_prefix(digits, i + 1 - first);
        }
        match hex_digit_value(chars[i]) {
            None => {
                assert(hex_digit(digits[i - first]) is None);
                return None;
            },
            Some(d) => {
                if value > (u64::MAX - d as u64) / 16 {
                    assert(hex_value(next) > u64::MAX);
                    return None;
                }
                value = value * 16 + d as u64;
                assert forall|j: int| 0 <= j < next.len() implies (#[trigger] hex_digit(
                    next[j],
                )) is Some by {
                    if j < seen.len() {
                        assert(next[j] == seen[j]);
                    }
                }
            },
        }
        i += 1;
    }
    assert(digits.take(to - first) =~= digits);
    Some(value)
}

} // verus!
