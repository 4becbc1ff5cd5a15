//! Character-level helpers over `str` and `String`, each tied to a
//! mathematical description over `Seq<char>`.

use vstd::multiset::Multiset;
use vstd::prelude::*;
use vstd::string::StringExecFns;

verus! {

broadcast use vstd::string::group_string_axioms;

// ---------------------------------------------------------------------
// Character classes
// ---------------------------------------------------------------------

/// `char::to_ascii_lowercase`: 'A'..='Z' map to 'a'..='z', all else is kept.
pub open spec fn ascii_lower_char(c: char) -> char {
    if 'A' <= c <= 'Z' {
        ((c as u32) + 32) as char
    } else {
        c
    }
}

/// The ASCII-lowercased copy of a character sequence.
pub open spec fn ascii_lower(s: Seq<char>) -> Seq<char> {
    s.map_values(|c: char| ascii_lower_char(c))
}

pub open spec fn is_ascii_digit(c: char) -> bool {
    '0' <= c <= '9'
}

pub open spec fn is_ascii_alphanumeric(c: char) -> bool {
    ||| '0' <= c <= '9'
    ||| 'a' <= c <= 'z'
    ||| 'A' <= c <= 'Z'
}

/// `char::is_whitespace`: the Unicode `White_Space` property.
pub open spec fn is_whitespace(c: char) -> bool {
    let u = c as u32;
    ||| 0x09 <= u <= 0x0d
    ||| u == 0x20
    ||| u == 0x85
    ||| u == 0xa0
    ||| u == 0x1680
    ||| 0x2000 <= u <= 0x200a
    ||| u == 0x2028
    ||| u == 0x2029
    ||| u == 0x202f
    ||| u == 0x205f
    ||| u == 0x3000
}

/// `char::is_control`: the Unicode general category `Cc`.
pub open spec fn is_control(c: char) -> bool {
    let u = c as u32;
    u <= 0x1f || (0x7f <= u <= 0x9f)
}

pub fn lower_char(c: char) -> (r: char)
    ensures
        r == ascii_lower_char(c),
{
    if 'A' <= c && c <= 'Z' {
        let b: u8 = (c as u32 + 32) as u8;
        b as char
    } else {
        c
    }
}

pub fn char_is_ascii_digit(c: char) -> (r: bool)
    ensures
        r == is_ascii_digit(c),
{
    '0' <= c && c <= '9'
}

pub fn char_is_ascii_alphanumeric(c: char) -> (r: bool)
    ensures
        r == is_ascii_alphanumeric(c),
{
    ('0' <= c && c <= '9') || ('a' <= c && c <= 'z') || ('A' <= c && c <= 'Z')
}

pub fn char_is_whitespace(c: char) -> (r: bool)
    ensures
        r == is_whitespace(c),
{
    let u = c as u32;
    (0x09 <= u && u <= 0x0d) || u == 0x20 || u == 0x85 || u == 0xa0 || u == 0x1680 || (0x2000
        <= u && u <= 0x200a) || u == 0x2028 || u == 0x2029 || u == 0x202f || u == 0x205f || u
        == 0x3000
}

pub fn char_is_control(c: char) -> (r: bool)
    ensures
        r == is_control(c),
{
    let u = c as u32;
    u <= 0x1f || (0x7f <= u && u <= 0x9f)
}

// ---------------------------------------------------------------------
// Conversions between strings and character vectors
// ---------------------------------------------------------------------

/// `a + b` as a new string.
pub fn concat_str(a: &str, b: &str) -> (r: String)
    ensures
        r@ == a@ + b@,
{
    String::from_str(a).concat(b)
}

/// The characters of `s`, in order.
pub fn chars_of(s: &str) -> (v: Vec<char>)
    ensures
        v@ == s@,
{
    let mut v: Vec<char> = Vec::new();
    for c in it: s.chars()
        invariant
            v@ == it.seq().take(it.index() as int),
    {
        v.push(c);
    }
    v
}

/// `String::from_iter` over the characters: the string made of exactly
/// these characters, in order.
#[verifier::external_body]
pub(crate) fn string_of(v: &[char]) -> (s: String)
    ensures
        s@ == v@,
{
    String::from_iter(v.iter())
}

/// The characters `v[from..to]` as a new vector.
pub fn copy_range(v: &Vec<char>, from: usize, to: usize) -> (r: Vec<char>)
    requires
        from <= to <= v.len(),
    ensures
        r@ == v@.subrange(from as int, to as int),
{
    let mut r: Vec<char> = Vec::new();
    let mut i = from;
    while i < to
        invariant
            from <= i <= to <= v.len(),
            r@ == v@.subrange(from as int, i as int),
        decreases to - i,
    {
        r.push(v[i]);
        i += 1;
        assert(r@ =~= v@.subrange(from as int, i as int));
    }
    r
}

/// The ASCII-lowercased copy of `v`.
pub fn lower_vec(v: &Vec<char>) -> (r: Vec<char>)
    ensures
        r@ == ascii_lower(v@),
{
    let mut r: Vec<char> = Vec::new();
    let mut i: usize = 0;
    while i < v.len()
        invariant
            i <= v.len(),
            r@ == ascii_lower(v@.take(i as int)),
        decreases v.len() - i,
    {
        let c = lower_char(v[i]);
        r.push(c);
        i += 1;
        assert(r@ =~= ascii_lower(v@.take(i as int)));
    }
    assert(v@.take(v.len() as int) =~= v@);
    r
}

// ---------------------------------------------------------------------
// Prefixes and occurrences
// ---------------------------------------------------------------------

/// `p` occurs in `s` starting at index `i`.
pub open spec fn occurs_at(s: Seq<char>, p: Seq<char>, i: int) -> bool {
    0 <= i && i + p.len() <= s.len() && s.subrange(i, i + p.len()) == p
}

pub open spec fn occurs(s: Seq<char>, p: Seq<char>) -> bool {
    exists|i: int| occurs_at(s, p, i)
}

/// `i` is the first index at which `p` occurs in `s`.
pub open spec fn is_first_occurrence(s: Seq<char>, p: Seq<char>, i: int) -> bool {
    &&& occurs_at(s, p, i)
    &&& forall|j: int| 0 <= j < i ==> !occurs_at(s, p, j)
}

/// The index of the first occurrence of `p` in `s`, as `str::find` gives it
/// (counted in characters).
pub open spec fn first_occurrence(s: Seq<char>, p: Seq<char>) -> Option<int> {
    if exists|i: int| is_first_occurrence(s, p, i) {
        Some(choose|i: int| is_first_occurrence(s, p, i))
    } else {
        None
    }
}

pub open spec fn starts_with(s: Seq<char>, p: Seq<char>) -> bool {
    occurs_at(s, p, 0)
}

proof fn lemma_first_occurrence_unique(s: Seq<char>, p: Seq<char>, i: int)
    requires
        is_first_occurrence(s, p, i),
    ensures
        first_occurrence(s, p) == Some(i),
{
    let k = choose|k: int| is_first_occurrence(s, p, k);
    assert(is_first_occurrence(s, p, k));
    if k < i {
        assert(!occurs_at(s, p, k));
    } else if i < k {
        assert(!occurs_at(s, p, i));
    }
}

/// Whether `p` occurs in `s` at index `i` (with `i` possibly out of range).
pub fn matches_at(s: &Vec<char>, p: &Vec<char>, i: usize) -> (r: bool)
    ensures
        r == occurs_at(s@, p@, i as int),
{
    if i > s.len() || p.len() > s.len() - i {
        return false;
    }
    let mut k: usize = 0;
    while k < p.len()
        invariant
            i + p.len() <= s.len(),
            k <= p.len(),
            forall|j: int| 0 <= j < k ==> s@[i + j] == p@[j],
        decreases p.len() - k,
    {
        if s[i + k] != p[k] {
            assert(s@.subrange(i as int, i + p.len())[k as int] != p@[k as int]);
            return false;
        }
        k += 1;
    }
    assert(s@.subrange(i as int, i + p.len()) =~= p@);
    true
}

/// The first index at which `p` occurs in `s`, if any.
pub fn find(s: &Vec<char>, p: &Vec<char>) -> (r: Option<usize>)
    ensures
        r matches Some(i) ==> first_occurrence(s@, p@) == Some(i as int),
        r is None ==> first_occurrence(s@, p@) is None && !occurs(s@, p@),
{
    let mut i: usize = 0;
    while i < s.len()
        invariant
            i <= s.len(),
            forall|j: int| 0 <= j < i ==> !occurs_at(s@, p@, j),
        decreases s.len() - i,
    {
        if matches_at(s, p, i) {
            proof {
                lemma_first_occurrence_unique(s@, p@, i as int);
            }
            return Some(i);
        }
        i += 1;
    }
    if matches_at(s, p, i) {
        proof {
            lemma_first_occurrence_unique(s@, p@, i as int);
        }
        return Some(i);
    }
    assert forall|j: int| !occurs_at(s@, p@, j) by {
        if 0 <= j && j + p@.len() <= s@.len() {
            assert(j <= i);
        }
    }
    None
}

/// Whether `s` begins with `p`.
pub fn has_prefix(s: &str, p: &str) -> (r: bool)
    ensures
        r == starts_with(s@, p@),
{
    let sv = chars_of(s);
    let pv = chars_of(p);
    matches_at(&sv, &pv, 0)
}

/// Whether `p` occurs anywhere in `s`.
pub fn contains_text(s: &Vec<char>, p: &Vec<char>) -> (r: bool)
    ensures
        r == occurs(s@, p@),
{
    match find(s, p) {
        Some(i) => {
            assert(is_first_occurrence(s@, p@, i as int));
            true
        },
        None => false,
    }
}

// ---------------------------------------------------------------------
// Lines (`str::lines`)
// ---------------------------------------------------------------------

/// The index of the first `c` in `s`.
pub open spec fn index_of_char(s: Seq<char>, c: char) -> Option<int>
    decreases s.len(),
{
    if s.len() == 0 {
        None
    } else if s[0] == c {
        Some(0)
    } else {
        match index_of_char(s.drop_first(), c) {
            Some(k) => Some(k + 1),
            None => None,
        }
    }
}

/// A line without its line terminator: a final `'\r'` is dropped.
pub open spec fn strip_cr(t: Seq<char>) -> Seq<char> {
    if t.len() > 0 && t.last() == '\r' {
        t.drop_last()
    } else {
        t
    }
}

/// `str::lines`: the pieces between `'\n'` characters, each without a
/// trailing `'\r'` when a `'\n'` follows it; no final empty line.
pub open spec fn lines(s: Seq<char>) -> Seq<Seq<char>>
    decreases s.len(),
{
    if s.len() == 0 {
        Seq::empty()
    } else {
        match index_of_char(s, '\n') {
            Some(k) => if 0 <= k < s.len() {
                seq![strip_cr(s.take(k))] + lines(s.skip(k + 1))
            } else {
                Seq::empty()
            },
            None => seq![s],
        }
    }
}

proof fn lemma_index_of_char(s: Seq<char>, c: char, k: int)
    requires
        0 <= k <= s.len(),
        forall|j: int| 0 <= j < k ==> s[j] != c,
    ensures
        k < s.len() && s[k] == c ==> index_of_char(s, c) == Some(k),
        k == s.len() ==> index_of_char(s, c) is None,
    decreases s.len(),
{
    if s.len() > 0 && k > 0 {
        lemma_index_of_char(s.drop_first(), c, k - 1);
    }
}

/// The lines of `s`, as `str::lines` yields them.
pub fn lines_of(s: &Vec<char>) -> (r: Vec<Vec<char>>)
    ensures
        r@.len() == lines(s@).len(),
        forall|i: int| 0 <= i < r@.len() ==> #[trigger] r@[i]@ == lines(s@)[i],
{
    let mut r: Vec<Vec<char>> = Vec::new();
    let mut start: usize = 0;
    assert(s@.skip(0) =~= s@);
    assert(r@.map_values(|l: Vec<char>| l@) + lines(s@) =~= lines(s@));
    let mut i: usize = 0;
    while i < s.len()
        invariant
            start <= i <= s.len(),
            forall|j: int| start <= j < i ==> s@[j] != '\n',
            r@.map_values(|l: Vec<char>| l@) + lines(s@.skip(start as int)) == lines(s@),
        decreases s.len() - i,
    {
        if s[i] == '\n' {
            let ghost rest = s@.skip(start as int);
            proof {
                lemma_index_of_char(rest, '\n', i - start);
                assert(rest.take(i - start) =~= s@.subrange(start as int, i as int));
                assert(rest.skip(i - start + 1) =~= s@.skip(i + 1));
            }
            let mut end = i;
            if end > start && s[end - 1] == '\r' {
                end = end - 1;
            }
            let line = copy_range(s, start, end);
            proof {
                assert(line@ == strip_cr(s@.subrange(start as int, i as int)));
            }
            let ghost before = r@;
            r.push(line);
            proof {
                assert(r@.map_values(|l: Vec<char>| l@) =~= before.map_values(|l: Vec<char>| l@)
                    + seq![line@]);
                assert(lines(rest) == seq![line@] + lines(s@.skip(i + 1)));
                assert(r@.map_values(|l: Vec<char>| l@) + lines(s@.skip(i + 1)) =~= before.map_values(
                    |l: Vec<char>| l@,
                ) + lines(rest));
            }
            start = i + 1;
        }
        i += 1;
    }
    let ghost rest = s@.skip(start as int);
    if start < s.len() {
        proof {
            lemma_index_of_char(rest, '\n', rest.len() as int);
        }
        let line = copy_range(s, start, s.len());
        let ghost before = r@;
        r.push(line);
        proof {
            assert(line@ =~= rest);
            assert(r@.map_values(|l: Vec<char>| l@) =~= before.map_values(|l: Vec<char>| l@)
                + lines(rest));
        }
    } else {
        assert(r@.map_values(|l: Vec<char>| l@) =~= r@.map_values(|l: Vec<char>| l@) + lines(
            rest,
        ));
    }
    assert forall|k: int| 0 <= k < r@.len() implies #[trigger] r@[k]@ == lines(s@)[k] by {
        assert(r@.map_values(|l: Vec<char>| l@)[k] == r@[k]@);
    }
    r
}

// ---------------------------------------------------------------------
// Decimal numbers
// ---------------------------------------------------------------------

pub open spec fn digit_value(c: char) -> nat {
    ((c as u32) - ('0' as u32)) as nat
}

pub open spec fn all_digits(d: Seq<char>) -> bool {
    forall|i: int| 0 <= i < d.len() ==> is_ascii_digit(#[trigger] d[i])
}

/// The number written by a sequence of decimal digits (0 for none).
pub open spec fn digits_value(d: Seq<char>) -> nat
    decreases d.len(),
{
    if d.len() == 0 {
        0
    } else {
        digits_value(d.drop_last()) * 10 + digit_value(d.last())
    }
}

pub open spec fn digit_char(d: nat) -> char {
    if d == 0 {
        '0'
    } else if d == 1 {
        '1'
    } else if d == 2 {
        '2'
    } else if d == 3 {
        '3'
    } else if d == 4 {
        '4'
    } else if d == 5 {
        '5'
    } else if d == 6 {
        '6'
    } else if d == 7 {
        '7'
    } else if d == 8 {
        '8'
    } else {
        '9'
    }
}

fn digit_to_char(d: u32) -> (c: char)
    requires
        d < 10,
    ensures
        c == digit_char(d as nat),
{
    if d == 0 {
        '0'
    } else if d == 1 {
        '1'
    } else if d == 2 {
        '2'
    } else if d == 3 {
        '3'
    } else if d == 4 {
        '4'
    } else if d == 5 {
        '5'
    } else if d == 6 {
        '6'
    } else if d == 7 {
        '7'
    } else if d == 8 {
        '8'
    } else {
        '9'
    }
}

/// The decimal text of `n` (`u32`'s `Display`): no sign, no leading zeros.
pub open spec fn decimal(n: nat) -> Seq<char>
    decreases n,
{
    if n < 10 {
        seq![digit_char(n)]
    } else {
        decimal(n / 10).push(digit_char(n % 10))
    }
}

/// `u32::from_str`: an optional `'+'`, then one or more ASCII digits whose
/// value fits in a `u32`.
pub open spec fn parse_u32_spec(s: Seq<char>) -> Option<u32> {
    let d = if s.len() > 0 && s[0] == '+' {
        s.drop_first()
    } else {
        s
    };
    if d.len() > 0 && all_digits(d) && digits_value(d) <= u32::MAX {
        Some(digits_value(d) as u32)
    } else {
        None
    }
}

/// Appending a digit never makes the value smaller.
pub proof fn lemma_digits_value_monotone(d: Seq<char>, k: int)
    requires
        0 <= k <= d.len(),
        all_digits(d),
    ensures
        digits_value(d.take(k)) <= digits_value(d),
    decreases d.len() - k,
{
    if k < d.len() {
        lemma_digits_value_monotone(d, k + 1);
        assert(d.take(k + 1).drop_last() =~= d.take(k));
        assert(d.take(k + 1).last() == d[k]);
        assert(is_ascii_digit(d[k]));
    } else {
        assert(d.take(k) =~= d);
    }
}

proof fn lemma_digit_char(d: nat)
    requires
        d < 10,
    ensures
        is_ascii_digit(digit_char(d)),
        digit_value(digit_char(d)) == d,
{
}

/// Reading back the decimal text of `n` gives `n`.
pub proof fn lemma_decimal_round_trip(n: nat)
    ensures
        all_digits(decimal(n)),
        decimal(n).len() > 0,
        digits_value(decimal(n)) == n,
    decreases n,
{
    lemma_digit_char(n % 10);
    if n < 10 {
        assert(decimal(n) == seq![digit_char(n)]);
        assert(decimal(n).drop_last() =~= Seq::<char>::empty());
        assert(digits_value(Seq::<char>::empty()) == 0);
        assert(digits_value(decimal(n)) == digits_value(decimal(n).drop_last()) * 10 + digit_value(decimal(n).last()));
    }
    if n >= 10 {
        lemma_decimal_round_trip(n / 10);
        assert(decimal(n).drop_last() =~= decimal(n / 10));
        assert(decimal(n).last() == digit_char(n % 10));
        assert(digits_value(decimal(n)) == digits_value(decimal(n / 10)) * 10 + (n % 10));
        assert((n / 10) * 10 + n % 10 == n);
    } else {
        assert(decimal(n).drop_last() =~= Seq::<char>::empty());
    }
}

fn decimal_chars(n: u32) -> (v: Vec<char>)
    ensures
        v@ == decimal(n as nat),
    decreases n,
{
    if n < 10 {
        let mut v: Vec<char> = Vec::new();
        v.push(digit_to_char(n));
        assert(v@ =~= decimal(n as nat));
        v
    } else {
        let mut v = decimal_chars(n / 10);
        v.push(digit_to_char(n % 10));
        v
    }
}

/// The decimal text of `n`, as `n.to_string()` writes it.
pub fn u32_text(n: u32) -> (s: String)
    ensures
        s@ == decimal(n as nat),
{
    let v = decimal_chars(n);
    string_of(v.as_slice())
}

/// `s.parse::<u32>()`, with the error collapsed to `None`.
pub fn parse_u32(s: &Vec<char>) -> (r: Option<u32>)
    ensures
        r == parse_u32_spec(s@),
{
    let start: usize = if s.len() > 0 && s[0] == '+' {
        1
    } else {
        0
    };
    let ghost d = s@.skip(start as int);
    assert(d =~= (if s@.len() > 0 && s@[0] == '+' {
        s@.drop_first()
    } else {
        s@
    }));
    if start >= s.len() {
        return None;
    }
    let mut acc: u64 = 0;
    let mut i: usize = start;
    while i < s.len()
        invariant
            start <= i <= s.len(),
            d == s@.skip(start as int),
            d == (if s@.len() > 0 && s@[0] == '+' {
                s@.drop_first()
            } else {
                s@
            }),
            all_digits(d.take(i - start)),
            acc == digits_value(d.take(i - start)),
            acc <= u32::MAX,
        decreases s.len() - i,
    {
        let c = s[i];
        if !char_is_ascii_digit(c) {
            assert(d[i - start] == c);
            assert(!all_digits(d));
            return None;
        }
        let dv = (c as u32 - '0' as u32) as u64;
        assert(d.take(i + 1 - start).drop_last() =~= d.take(i - start));
        let next = acc * 10 + dv;
        if next > u32::MAX as u64 {
            proof {
                assert(d.take(i + 1 - start).last() == c);
                assert(digits_value(d.take(i + 1 - start)) == acc * 10 + dv);
                assert(all_digits(d.take(i + 1 - start)));
                if all_digits(d) {
                    lemma_digits_value_monotone(d, i + 1 - start);
                }
            }
            return None;
        }
        acc = next;
        i += 1;
    }
    assert(d.take(i - start) =~= d);
    Some(acc as u32)
}

// ---------------------------------------------------------------------
// Ordering of strings (`Ord for String`: code point by code point)
// ---------------------------------------------------------------------

pub open spec fn text_lt(a: Seq<char>, b: Seq<char>) -> bool
    decreases a.len(),
{
    if a.len() == 0 {
        b.len() > 0
    } else if b.len() == 0 {
        false
    } else if a[0] != b[0] {
        a[0] < b[0]
    } else {
        text_lt(a.drop_first(), b.drop_first())
    }
}

pub open spec fn text_le(a: Seq<char>, b: Seq<char>) -> bool {
    a == b || text_lt(a, b)
}

/// Every pair of entries is in non-decreasing order.
pub open spec fn sorted_texts(s: Seq<Seq<char>>) -> bool {
    forall|i: int, j: int| 0 <= i < j < s.len() ==> text_le(s[i], s[j])
}

pub open spec fn views_of(v: Seq<String>) -> Seq<Seq<char>> {
    v.map_values(|x: String| x@)
}

pub proof fn lemma_text_lt_total(a: Seq<char>, b: Seq<char>)
    ensures
        a =~= b || text_lt(a, b) || text_lt(b, a),
        !(text_lt(a, b) && text_lt(b, a)),
        !text_lt(a, a),
    decreases a.len(),
{
    if a.len() == 0 && b.len() == 0 {
        assert(a =~= b);
    }
    if a.len() > 0 && b.len() > 0 && a[0] == b[0] {
        lemma_text_lt_total(a.drop_first(), b.drop_first());
        if a.drop_first() =~= b.drop_first() {
            assert(a =~= seq![a[0]] + a.drop_first());
            assert(b =~= seq![b[0]] + b.drop_first());
        }
    }
    if a.len() > 0 {
        lemma_text_lt_total(a.drop_first(), a.drop_first());
    }
}

pub proof fn lemma_text_lt_transitive(a: Seq<char>, b: Seq<char>, c: Seq<char>)
    requires
        text_lt(a, b),
        text_lt(b, c),
    ensures
        text_lt(a, c),
    decreases a.len(),
{
    if a.len() > 0 && b.len() > 0 && c.len() > 0 && a[0] == b[0] && b[0] == c[0] {
        lemma_text_lt_transitive(a.drop_first(), b.drop_first(), c.drop_first());
    }
}

/// `a < b` as `String`'s `Ord` decides it.
pub fn text_less(a: &Vec<char>, b: &Vec<char>) -> (r: bool)
    ensures
        r == text_lt(a@, b@),
{
    let mut i: usize = 0;
    assert(a@.skip(0) =~= a@);
    assert(b@.skip(0) =~= b@);
    while i < a.len() && i < b.len()
        invariant
            i <= a.len(),
            i <= b.len(),
            text_lt(a@, b@) == text_lt(a@.skip(i as int), b@.skip(i as int)),
        decreases a.len() - i,
    {
        if a[i] != b[i] {
            return a[i] < b[i];
        }
        assert(a@.skip(i as int).drop_first() =~= a@.skip(i + 1));
        assert(b@.skip(i as int).drop_first() =~= b@.skip(i + 1));
        i += 1;
    }
    i < b.len()
}

/// The strings of `v`, sorted as `Vec::sort` sorts them.
pub fn sort_strings(v: Vec<String>) -> (r: Vec<String>)
    ensures
        sorted_texts(views_of(r@)),
        r@.to_multiset() == v@.to_multiset(),
        r@.len() == v@.len(),
{
    broadcast use vstd::seq_lib::group_to_multiset_ensures;

    let mut rem = v;
    let mut keys: Vec<Vec<char>> = Vec::new();
    let mut k: usize = 0;
    while k < rem.len()
        invariant
            k <= rem.len(),
            keys@.len() == k,
            forall|j: int| 0 <= j < k ==> #[trigger] keys@[j]@ == rem@[j]@,
        decreases rem.len() - k,
    {
        keys.push(chars_of(rem[k].as_str()));
        k += 1;
    }
    let mut out: Vec<String> = Vec::new();
    let ghost all = rem@;
    while rem.len() > 0
        invariant
            keys@.len() == rem@.len(),
            forall|j: int| 0 <= j < rem@.len() ==> #[trigger] keys@[j]@ == rem@[j]@,
            out@.to_multiset().add(rem@.to_multiset()) == all.to_multiset(),
            out@.len() + rem@.len() == all.len(),
            sorted_texts(views_of(out@)),
            forall|i: int, j: int|
                0 <= i < out@.len() && 0 <= j < rem@.len() ==> text_le(out@[i]@, rem@[j]@),
        decreases rem.len(),
    {
        let mut m: usize = 0;
        let mut j: usize = 1;
        while j < rem.len()
            invariant
                keys@.len() == rem@.len(),
                forall|q: int| 0 <= q < rem@.len() ==> #[trigger] keys@[q]@ == rem@[q]@,
                0 <= m < j <= rem.len(),
                forall|q: int| 0 <= q < j ==> text_le(rem@[m as int]@, #[trigger] rem@[q]@),
            decreases rem.len() - j,
        {
            if text_less(&keys[j], &keys[m]) {
                proof {
                    assert forall|q: int| 0 <= q < j implies text_le(
                        rem@[j as int]@,
                        #[trigger] rem@[q]@,
                    ) by {
                        if rem@[m as int]@ != rem@[q]@ {
                            lemma_text_lt_transitive(rem@[j as int]@, rem@[m as int]@, rem@[q]@);
                        }
                    }
                    lemma_text_lt_total(rem@[j as int]@, rem@[j as int]@);
                }
                m = j;
            } else {
                proof {
                    lemma_text_lt_total(keys@[j as int]@, keys@[m as int]@);
                }
            }
            j += 1;
        }
        let ghost old_rem = rem@;
        let ghost old_out = out@;
        let x = rem.remove(m);
        let _ = keys.remove(m);
        out.push(x);
        proof {
            old_rem.to_multiset_ensures();
            old_out.to_multiset_ensures();
            assert(old_rem.remove(m as int).to_multiset() == old_rem.to_multiset().remove(x));
            assert(out@.to_multiset() == old_out.to_multiset().insert(x));
            assert(out@.to_multiset().add(rem@.to_multiset()) =~= old_out.to_multiset().add(
                old_rem.to_multiset(),
            ));
            assert forall|a: int, b: int| 0 <= a < b < out@.len() implies text_le(
                views_of(out@)[a],
                views_of(out@)[b],
            ) by {
                assert(views_of(out@)[a] == out@[a]@);
                assert(views_of(out@)[b] == out@[b]@);
                assert(out@[a] == old_out[a]);
                if b == out@.len() - 1 {
                    assert(out@[b] == old_rem[m as int]);
                    assert(text_le(old_out[a]@, old_rem[m as int]@));
                } else {
                    assert(out@[b] == old_out[b]);
                    assert(views_of(old_out)[a] == old_out[a]@);
                    assert(views_of(old_out)[b] == old_out[b]@);
                }
            }
            assert forall|a: int, b: int|
                0 <= a < out@.len() && 0 <= b < rem@.len() implies text_le(
                out@[a]@,
                rem@[b]@,
            ) by {
                let ob = if b < m {
                    b
                } else {
                    b + 1
                };
                assert(rem@[b] == old_rem[ob]);
                if a < out@.len() - 1 {
                } else {
                    assert(text_le(old_rem[m as int]@, old_rem[ob]@));
                }
            }
        }
    }
    assert(rem@.to_multiset() =~= Multiset::empty());
    assert(out@.to_multiset().add(Multiset::empty()) =~= out@.to_multiset());
    out
}

// ---------------------------------------------------------------------
// Bytes to text; joining lines
// ---------------------------------------------------------------------

/// The text `String::from_utf8_lossy` makes of some bytes: valid UTF-8 is
/// decoded, each invalid sequence becomes U+FFFD.
pub uninterp spec fn utf8_lossy(bytes: Seq<u8>) -> Seq<char>;

/// `String::from_utf8_lossy(bytes).into_owned()`: the result is the name
/// above applied to the bytes.
#[verifier::external_body]
pub(crate) fn lossy_text(bytes: &[u8]) -> (s: String)
    ensures
        s@ == utf8_lossy(bytes@),
{
    String::from_utf8_lossy(bytes).into_owned()
}

/// Lines joined with `'\n'` between them.
pub open spec fn join_lines(ls: Seq<Seq<char>>) -> Seq<char>
    decreases ls.len(),
{
    if ls.len() == 0 {
        Seq::empty()
    } else if ls.len() == 1 {
        ls[0]
    } else {
        join_lines(ls.drop_last()) + seq!['\n'] + ls.last()
    }
}

/// The last `n` entries of `ls` (all of them when there are fewer).
pub open spec fn last_n<A>(ls: Seq<A>, n: nat) -> Seq<A> {
    if ls.len() <= n {
        ls
    } else {
        ls.skip(ls.len() - n)
    }
}

/// The last ten lines of `s`, joined with `'\n'`.
pub open spec fn tail_spec(s: Seq<char>) -> Seq<char> {
    join_lines(last_n(lines(s), 10))
}

/// The last ten lines of `s`, joined with `'\n'` (what an error report
/// keeps of a process's output).
pub fn tail(s: &str) -> (r: String)
    ensures
        r@ == tail_spec(s@),
{
    let v = chars_of(s);
    let ls = lines_of(&v);
    let n = ls.len();
    let start: usize = if n > 10 {
        n - 10
    } else {
        0
    };
    let ghost all = lines(s@);
    let mut out: Vec<char> = Vec::new();
    let mut k: usize = start;
    assert(all.subrange(start as int, start as int) =~= Seq::<Seq<char>>::empty());
    while k < n
        invariant
            start <= k <= n,
            n == ls@.len(),
            all == lines(s@),
            all.len() == n,
            forall|i: int| 0 <= i < ls@.len() ==> #[trigger] ls@[i]@ == all[i],
            out@ == join_lines(all.subrange(start as int, k as int)),
        decreases n - k,
    {
        let ghost before = out@;
        if k > start {
            out.push('\n');
        }
        let line = &ls[k];
        let mut j: usize = 0;
        let ghost mid = out@;
        while j < line.len()
            invariant
                j <= line@.len(),
                out@ == mid + line@.take(j as int),
            decreases line@.len() - j,
        {
            out.push(line[j]);
            j += 1;
            assert(out@ =~= mid + line@.take(j as int));
        }
        assert(line@.take(j as int) =~= line@);
        let ghost part = all.subrange(start as int, k + 1);
        assert(part.drop_last() =~= all.subrange(start as int, k as int));
        assert(part.last() == line@);
        if k == start {
            assert(part.len() == 1);
            assert(out@ =~= part[0]);
        } else {
            assert(out@ =~= before + seq!['\n'] + part.last());
        }
        k += 1;
    }
    proof {
        if all.len() <= 10 {
            assert(all.subrange(0, n as int) =~= all);
        } else {
            assert(all.subrange(start as int, n as int) =~= all.skip(all.len() - 10));
        }
    }
    string_of(out.as_slice())
}

} // verus!
