//! CRF extraction and validation from `ab-av1` output.

use crate::text::{
    ascii_lower, char_is_ascii_digit, char_is_whitespace, chars_of, digits_value,
    find, first_occurrence, is_ascii_digit, is_whitespace, lines,
    lines_of, lower_vec, occurs,
};
use vstd::prelude::*;

verus! {

broadcast use vstd::string::group_string_axioms;

/// The largest CRF that ab-av1 / SVT-AV1 accept.
pub const MAX_CRF: u32 = 63;

/// Characters skipped between `crf` and its value.
pub open spec fn is_crf_separator(c: char) -> bool {
    c == ':' || c == '=' || is_whitespace(c)
}

/// The number of leading characters of `s` satisfying the separator test.
pub open spec fn separator_run(s: Seq<char>) -> nat
    decreases s.len(),
{
    if s.len() > 0 && is_crf_separator(s[0]) {
        1 + separator_run(s.drop_first())
    } else {
        0
    }
}

/// The number of leading ASCII digits of `s`.
pub open spec fn digit_run(s: Seq<char>) -> nat
    decreases s.len(),
{
    if s.len() > 0 && is_ascii_digit(s[0]) {
        1 + digit_run(s.drop_first())
    } else {
        0
    }
}

/// The CRF that one line announces: after the first `crf` of the line
/// (ignoring ASCII case) and any run of `:`, `=` and whitespace, the ASCII
/// digits that follow, when there is at least one and their value is at
/// most 63.
pub open spec fn line_crf(line: Seq<char>) -> Option<u32> {
    let lower = ascii_lower(line);
    match first_occurrence(lower, seq!['c', 'r', 'f']) {
        None => None,
        Some(pos) => {
            let rest = lower.skip(pos + 3);
            let after = rest.skip(separator_run(rest) as int);
            let digits = after.take(digit_run(after) as int);
            if digits.len() > 0 && digits_value(digits) <= MAX_CRF {
                Some(digits_value(digits) as u32)
            } else {
                None
            }
        },
    }
}

/// The CRF of the first line, among `lines`, that announces one.
pub open spec fn first_line_crf(lines: Seq<Seq<char>>) -> Option<u32>
    decreases lines.len(),
{
    if lines.len() == 0 {
        None
    } else {
        match line_crf(lines[0]) {
            Some(v) => Some(v),
            None => first_line_crf(lines.drop_first()),
        }
    }
}

/// The CRF that ab-av1 output announces (see `line_crf`).
pub open spec fn output_crf(output: Seq<char>) -> Option<u32> {
    first_line_crf(lines(output))
}

/// ab-av1 said that no CRF meets the quality target.
pub open spec fn says_no_suitable_crf(output: Seq<char>) -> bool {
    occurs(
        ascii_lower(output),
        seq!['n', 'o', ' ', 's', 'u', 'i', 't', 'a', 'b', 'l', 'e', ' ', 'c', 'r', 'f'],
    )
}

/// A CRF announced in the output is always in range.
pub proof fn lemma_first_line_crf_in_range(lines: Seq<Seq<char>>)
    ensures
        first_line_crf(lines) matches Some(v) ==> v <= MAX_CRF,
    decreases lines.len(),
{
    if lines.len() > 0 {
        lemma_first_line_crf_in_range(lines.drop_first());
    }
}

proof fn lemma_run_skip(s: Seq<char>, k: int, sep: bool)
    requires
        0 <= k <= s.len(),
        forall|j: int|
            0 <= j < k ==> (if sep {
                is_crf_separator(#[trigger] s[j])
            } else {
                is_ascii_digit(s[j])
            }),
        k == s.len() || !(if sep {
            is_crf_separator(s[k])
        } else {
            is_ascii_digit(s[k])
        }),
    ensures
        sep ==> separator_run(s) == k,
        !sep ==> digit_run(s) == k,
    decreases k,
{
    if k > 0 {
        lemma_run_skip(s.drop_first(), k - 1, sep);
    }
}

fn is_separator(c: char) -> (r: bool)
    ensures
        r == is_crf_separator(c),
{
    c == ':' || c == '=' || char_is_whitespace(c)
}

/// The CRF announced by one line.
fn crf_of_line(line: &Vec<char>) -> (r: Option<u32>)
    ensures
        r == line_crf(line@),
{
    let lower = lower_vec(line);
    let mut pat: Vec<char> = Vec::new();
    pat.push('c');
    pat.push('r');
    pat.push('f');
    assert(pat@ =~= seq!['c', 'r', 'f']);
    let pos = match find(&lower, &pat) {
        None => {
            return None;
        },
        Some(p) => p,
    };
    let ghost rest = lower@.skip(pos + 3);
    assert(pos + 3 <= lower.len()) by {
        let k = choose|k: int| crate::text::is_first_occurrence(lower@, pat@, k);
        assert(crate::text::is_first_occurrence(lower@, pat@, k));
    }
    let mut i: usize = pos + 3;
    while i < lower.len() && is_separator(lower[i])
        invariant
            pos + 3 <= i <= lower.len(),
            rest == lower@.skip(pos + 3),
            forall|j: int| pos + 3 <= j < i ==> is_crf_separator(#[trigger] lower@[j]),
        decreases lower.len() - i,
    {
        i += 1;
    }
    proof {
        assert forall|j: int| 0 <= j < i - (pos + 3) implies is_crf_separator(#[trigger] rest[j]) by {
            assert(rest[j] == lower@[j + pos + 3]);
        }
        lemma_run_skip(rest, i - (pos + 3), true);
    }
    let ghost after = rest.skip(separator_run(rest) as int);
    assert(after =~= lower@.skip(i as int));
    let start = i;
    let mut value: u64 = 0;
    while i < lower.len() && char_is_ascii_digit(lower[i])
        invariant
            start <= i <= lower.len(),
            after == lower@.skip(start as int),
            forall|j: int| start <= j < i ==> is_ascii_digit(#[trigger] lower@[j]),
            value <= 64,
            value <= 63 ==> value == digits_value(lower@.subrange(start as int, i as int)),
            value == 64 ==> digits_value(lower@.subrange(start as int, i as int)) > 63,
        decreases lower.len() - i,
    {
        let d = (lower[i] as u32 - '0' as u32) as u64;
        let ghost prev = lower@.subrange(start as int, i as int);
        let ghost next = lower@.subrange(start as int, i + 1);
        assert(next.drop_last() =~= prev);
        assert(digits_value(next) == digits_value(prev) * 10 + d);
        if value <= 63 {
            let v = value * 10 + d;
            value = if v > 63 {
                64
            } else {
                v
            };
        }
        i += 1;
    }
    proof {
        assert forall|j: int| 0 <= j < i - start implies is_ascii_digit(#[trigger] after[j]) by {
            assert(after[j] == lower@[j + start]);
        }
        lemma_run_skip(after, i - start, false);
        assert(after.take(digit_run(after) as int) =~= lower@.subrange(start as int, i as int));
    }
    if i > start && value <= 63 {
        Some(value as u32)
    } else {
        None
    }
}

/// Extracts the CRF announced by ab-av1 output, in forms such as `crf 42`,
/// `CRF: 37` or `crf=20`; only values in `0..=63` count, and the first line
/// that announces one wins.
pub fn parse_crf(output: &str) -> (r: Option<u32>)
    ensures
        r == output_crf(output@),
        r matches Some(v) ==> v <= MAX_CRF,
{
    let v = chars_of(output);
    let ls = lines_of(&v);
    let mut k: usize = 0;
    assert(lines(output@).skip(0) =~= lines(output@));
    while k < ls.len()
        invariant
            k <= ls.len(),
            ls@.len() == lines(output@).len(),
            v@ == output@,
            forall|i: int| 0 <= i < ls@.len() ==> #[trigger] ls@[i]@ == lines(output@)[i],
            first_line_crf(lines(output@)) == first_line_crf(lines(output@).skip(k as int)),
        decreases ls.len() - k,
    {
        let ghost rest = lines(output@).skip(k as int);
        assert(rest.drop_first() =~= lines(output@).skip(k + 1));
        assert(rest[0] == ls@[k as int]@);
        match crf_of_line(&ls[k]) {
            Some(c) => {
                return Some(c);
            },
            None => {},
        }
        k += 1;
    }
    assert(lines(output@).skip(k as int).len() == 0);
    None
}

/// Whether ab-av1 reported that no CRF meets its quality target.
pub fn is_no_suitable_crf(output: &str) -> (r: bool)
    ensures
        r == says_no_suitable_crf(output@),
{
    let v = chars_of(output);
    let lower = lower_vec(&v);
    let pat = chars_of("no suitable crf");
    proof {
        reveal_strlit("no suitable crf");
    }
    assert(pat@ =~= seq!['n', 'o', ' ', 's', 'u', 'i', 't', 'a', 'b', 'l', 'e', ' ', 'c', 'r', 'f']);
    crate::text::contains_text(&lower, &pat)
}

} // verus!
