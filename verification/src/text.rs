//! Character-level text utilities: ASCII case folding, case-insensitive
//! comparison and search, decimal rendering and parsing.

use vstd::prelude::*;

verus! {

/// Code point of `c` after ASCII case folding: upper-case ASCII letters map
/// to their lower-case counterparts, every other character is unchanged.
pub open spec fn lower_code(c: char) -> int {
    if 65 <= c as int && c as int <= 90 {
        c as int + 32
    } else {
        c as int
    }
}

/// Two character sequences are equal up to ASCII case.
pub open spec fn seq_eq_ignore_case(a: Seq<char>, b: Seq<char>) -> bool {
    a.len() == b.len() && forall|i: int| 0 <= i < a.len() ==> lower_code(a[i]) == lower_code(b[i])
}

/// `needle` occurs in `hay` at position `i`, comparing up to ASCII case.
pub open spec fn matches_ignore_case_at(hay: Seq<char>, needle: Seq<char>, i: int) -> bool {
    0 <= i && i + needle.len() <= hay.len() && forall|j: int|
        0 <= j < needle.len() ==> lower_code(hay[i + j]) == lower_code(needle[j])
}

/// `needle` occurs somewhere in `hay`, comparing up to ASCII case.
pub open spec fn seq_contains_ignore_case(hay: Seq<char>, needle: Seq<char>) -> bool {
    exists|i: int| matches_ignore_case_at(hay, needle, i)
}

/// ASCII-case-folded code point of one character.
pub fn char_lower_code(c: char) -> (r: u32)
    ensures
        r as int == lower_code(c),
{
    let u = c as u32;
    if 65 <= u && u <= 90 {
        u + 32
    } else {
        u
    }
}

/// Whether two strings hold exactly the same characters.
pub fn str_eq(a: &str, b: &str) -> (r: bool)
    ensures
        r == (a@ == b@),
{
    let a_len = a.unicode_len();
    let b_len = b.unicode_len();
    if a_len != b_len {
        return false;
    }
    let mut i: usize = 0;
    while i < a_len
        invariant
            a_len == a@.len(),
            b_len == b@.len(),
            a_len == b_len,
            i <= a_len,
            forall|k: int| 0 <= k < i ==> a@[k] == b@[k],
        decreases a_len - i,
    {
        if a.get_char(i) != b.get_char(i) {
            return false;
        }
        i = i + 1;
    }
    proof {
        assert(a@ =~= b@);
    }
    true
}

/// Whether two strings are equal up to ASCII case.
pub fn str_eq_ignore_case(a: &str, b: &str) -> (r: bool)
    ensures
        r == seq_eq_ignore_case(a@, b@),
{
    let a_len = a.unicode_len();
    let b_len = b.unicode_len();
    if a_len != b_len {
        return false;
    }
    let mut i: usize = 0;
    while i < a_len
        invariant
            a_len == a@.len(),
            b_len == b@.len(),
            a_len == b_len,
            i <= a_len,
            forall|k: int| 0 <= k < i ==> lower_code(a@[k]) == lower_code(b@[k]),
        decreases a_len - i,
    {
        let ca = a.get_char(i);
        let cb = b.get_char(i);
        if char_lower_code(ca) != char_lower_code(cb) {
            return false;
        }
        i = i + 1;
    }
    true
}

/// Whether `needle` occurs in `hay` at position `i`, up to ASCII case.
fn matches_at(hay: &str, needle: &str, i: usize) -> (r: bool)
    requires
        i + needle@.len() <= hay@.len(),
        hay@.len() <= usize::MAX,
    ensures
        r == matches_ignore_case_at(hay@, needle@, i as int),
{
    let n_len = needle.unicode_len();
    let mut j: usize = 0;
    while j < n_len
        invariant
            n_len == needle@.len(),
            i + n_len <= hay@.len(),
            hay@.len() <= usize::MAX,
            j <= n_len,
            forall|k: int| 0 <= k < j ==> lower_code(hay@[i + k]) == lower_code(needle@[k]),
        decreases n_len - j,
    {
        let ch = hay.get_char(i + j);
        let cn = needle.get_char(j);
        if char_lower_code(ch) != char_lower_code(cn) {
            return false;
        }
        j = j + 1;
    }
    true
}

/// Whether `needle` occurs anywhere in `hay`, up to ASCII case.
pub fn str_contains_ignore_case(hay: &str, needle: &str) -> (r: bool)
    ensures
        r == seq_contains_ignore_case(hay@, needle@),
{
    let h_len = hay.unicode_len();
    let n_len = needle.unicode_len();
    if n_len > h_len {
        assert(forall|i: int| !matches_ignore_case_at(hay@, needle@, i));
        return false;
    }
    let mut i: usize = 0;
    let last = h_len - n_len;
    while i <= last
        invariant
            h_len == hay@.len(),
            n_len == needle@.len(),
            n_len <= h_len,
            last == h_len - n_len,
            i <= last + 1,
            forall|k: int| 0 <= k < i ==> !matches_ignore_case_at(hay@, needle@, k),
        decreases last + 1 - i,
    {
        if matches_at(hay, needle, i) {
            return true;
        }
        i = i + 1;
    }
    assert(forall|k: int| !matches_ignore_case_at(hay@, needle@, k));
    false
}

/// The decimal digit character for `d`.
pub open spec fn digit_char(d: int) -> char {
    if d == 0 {
        '0'
    } else if d == 1 {
        '1'
    } else if d == 2 {
        '2'
    } else if d == 3 {
        '3'
    } else if d == 4 {
        '4'
    } else if d == 5 {
        '5'
    } else if d == 6 {
        '6'
    } else if d == 7 {
        '7'
    } else if d == 8 {
        '8'
    } else {
        '9'
    }
}

/// Decimal rendering of `n`, most significant digit first, no leading zeros
/// (except for `n == 0`, rendered as "0").
pub open spec fn dec_str(n: nat) -> Seq<char>
    decreases n,
{
    if n < 10 {
        seq![digit_char(n as int)]
    } else {
        dec_str(n / 10).push(digit_char((n % 10) as int))
    }
}

/// One decimal digit as a string slice.
pub fn digit_to_str(d: u64) -> (r: &'static str)
    requires
        d < 10,
    ensures
        r@ =~= seq![digit_char(d as int)],
{
    proof {
        reveal_strlit("0");
        reveal_strlit("1");
        reveal_strlit("2");
        reveal_strlit("3");
        reveal_strlit("4");
        reveal_strlit("5");
        reveal_strlit("6");
        reveal_strlit("7");
        reveal_strlit("8");
        reveal_strlit("9");
    }
    match d {
        0 => "0",
        1 => "1",
        2 => "2",
        3 => "3",
        4 => "4",
        5 => "5",
        6 => "6",
        7 => "7",
        8 => "8",
        _ => "9",
    }
}

/// Decimal rendering of a `u64`.
pub fn u64_to_string(n: u64) -> (r: String)
    ensures
        r@ =~= dec_str(n as nat),
    decreases n,
{
    if n < 10 {
        digit_to_str(n).to_owned()
    } else {
        let mut s = u64_to_string(n / 10);
        s.append(digit_to_str(n % 10));
        s
    }
}

/// Every character of a decimal rendering is a digit.
pub proof fn lemma_dec_str_digits(n: nat)
    ensures
        is_dec_digits(dec_str(n)),
    decreases n,
{
    if n >= 10 {
        lemma_dec_str_digits(n / 10);
        assert forall|i: int| 0 <= i < dec_str(n).len() implies is_digit(
            #[trigger] dec_str(n)[i],
        ) by {
            if i < dec_str(n).len() - 1 {
                assert(dec_str(n)[i] == dec_str(n / 10)[i]);
            }
        }
    }
}

/// A decimal rendering reads back as the number it renders.
pub proof fn lemma_dec_value_of_dec_str(n: nat)
    ensures
        dec_value(dec_str(n)) == n,
    decreases n,
{
    if n < 10 {
        assert(dec_str(n).drop_last() =~= Seq::<char>::empty());
        assert(dec_value(Seq::<char>::empty()) == 0);
        assert(dec_str(n).last() == digit_char(n as int));
        assert(dec_value(dec_str(n)) == dec_value(dec_str(n).drop_last()) * 10 + digit_val(
            dec_str(n).last(),
        ));
        assert(digit_val(digit_char(n as int)) == n);
    } else {
        lemma_dec_value_of_dec_str(n / 10);
        assert(dec_str(n).drop_last() =~= dec_str(n / 10));
        assert(dec_str(n).last() == digit_char((n % 10) as int));
        assert(digit_val(digit_char((n % 10) as int)) == n % 10);
        assert(dec_value(dec_str(n)) == dec_value(dec_str(n / 10)) * 10 + (n % 10));
    }
}

/// A decimal rendering never starts with a superfluous zero.
pub proof fn lemma_dec_str_no_leading_zero(n: nat)
    ensures
        dec_str(n).len() > 1 ==> dec_str(n)[0] != '0',
        dec_str(n).len() == 1 <==> n < 10,
        n >= 10 ==> dec_str(n)[0] == dec_str(n / 10)[0],
    decreases n,
{
    if n >= 10 {
        lemma_dec_str_no_leading_zero(n / 10);
        if n / 10 < 10 {
            assert(dec_str(n / 10) =~= seq![digit_char((n / 10) as int)]);
            assert(n / 10 >= 1);
        }
    }
}

/// A non-empty canonical digit string (no leading zero unless it is "0")
/// is the decimal rendering of its value.
pub proof fn lemma_canonical_digits(t: Seq<char>)
    requires
        is_dec_digits(t),
        t.len() > 1 ==> t[0] != '0',
    ensures
        dec_str(dec_value(t) as nat) =~= t,
    decreases t.len(),
{
    lemma_dec_value_nonneg(t);
    if t.len() == 1 {
        assert(t.drop_last() =~= Seq::<char>::empty());
        assert(dec_value(Seq::<char>::empty()) == 0);
        assert(t.last() == t[0]);
        assert(dec_value(t) == dec_value(t.drop_last()) * 10 + digit_val(t.last()));
        assert(dec_value(t) == digit_val(t[0]));
        assert(dec_str(dec_value(t) as nat) =~= seq![digit_char(digit_val(t[0]))]);
        assert(digit_char(digit_val(t[0])) == t[0]);
    } else {
        let head = t.drop_last();
        assert(is_dec_digits(head)) by {
            assert(forall|i: int| 0 <= i < head.len() ==> head[i] == t[i]);
        }
        lemma_canonical_digits(head);
        lemma_digits_nonzero_value(head);
        lemma_dec_value_nonneg(head);
        let v = dec_value(t);
        assert(v == dec_value(head) * 10 + digit_val(t.last()));
        assert(dec_value(head) >= 1);
        assert(v >= 10);
        assert(v as nat / 10 == dec_value(head)) by {
            assert(v == dec_value(head) * 10 + digit_val(t.last()));
            assert(0 <= digit_val(t.last()) < 10);
        }
        assert(v as nat % 10 == digit_val(t.last()));
        assert(dec_str(v as nat) =~= dec_str(dec_value(head) as nat).push(
            digit_char(digit_val(t.last())),
        ));
        assert(digit_char(digit_val(t.last())) == t.last());
    }
}

/// A digit string that does not start with zero has a positive value.
pub proof fn lemma_digits_nonzero_value(t: Seq<char>)
    requires
        is_dec_digits(t),
        t[0] != '0',
    ensures
        dec_value(t) >= 1,
    decreases t.len(),
{
    if t.len() == 1 {
        assert(t.last() == t[0]);
        assert(t.drop_last() =~= Seq::<char>::empty());
        assert(dec_value(Seq::<char>::empty()) == 0);
        assert(dec_value(t) == dec_value(t.drop_last()) * 10 + digit_val(t.last()));
        assert(digit_val(t[0]) >= 1);
    } else {
        let head = t.drop_last();
        assert(is_dec_digits(head)) by {
            assert(forall|i: int| 0 <= i < head.len() ==> head[i] == t[i]);
        }
        assert(head[0] == t[0]);
        lemma_digits_nonzero_value(head);
        assert(dec_value(t) == dec_value(head) * 10 + digit_val(t.last()));
        assert(digit_val(t.last()) >= 0);
    }
}

/// Whether `c` is a decimal digit.
pub open spec fn is_digit(c: char) -> bool {
    48 <= c as int <= 57
}

/// Numeric value of a digit character.
pub open spec fn digit_val(c: char) -> int {
    c as int - 48
}

/// A non-empty sequence of decimal digits.
pub open spec fn is_dec_digits(s: Seq<char>) -> bool {
    s.len() > 0 && forall|i: int| 0 <= i < s.len() ==> is_digit(#[trigger] s[i])
}

/// Value of a digit sequence read in base ten.
pub open spec fn dec_value(s: Seq<char>) -> int
    decreases s.len(),
{
    if s.len() == 0 {
        0
    } else {
        dec_value(s.drop_last()) * 10 + digit_val(s.last())
    }
}

/// Reading more digits can only increase the value.
proof fn lemma_dec_value_prefix_le(s: Seq<char>, i: int)
    requires
        0 <= i <= s.len(),
        forall|k: int| 0 <= k < s.len() ==> is_digit(#[trigger] s[k]),
    ensures
        dec_value(s.take(i)) <= dec_value(s),
    decreases s.len() - i,
{
    if i < s.len() {
        lemma_dec_value_prefix_le(s, i + 1);
        assert(s.take(i + 1).drop_last() =~= s.take(i));
        assert(dec_value(s.take(i + 1)) == dec_value(s.take(i)) * 10 + digit_val(s[i]));
        assert(dec_value(s.take(i)) >= 0 ==> dec_value(s.take(i)) <= dec_value(s.take(i)) * 10);
        lemma_dec_value_nonneg(s.take(i));
    } else {
        assert(s.take(i) =~= s);
    }
}

/// The value of a digit sequence is never negative.
proof fn lemma_dec_value_nonneg(s: Seq<char>)
    requires
        forall|k: int| 0 <= k < s.len() ==> is_digit(#[trigger] s[k]),
    ensures
        dec_value(s) >= 0,
    decreases s.len(),
{
    if s.len() > 0 {
        lemma_dec_value_nonneg(s.drop_last());
    }
}

/// Parse a string of decimal digits into a `u64`.  Returns `None` when the
/// string is empty, holds a non-digit, or encodes a value above `u64::MAX`.
pub fn parse_u64_digits(s: &str) -> (r: Option<u64>)
    ensures
        r is Some <==> is_dec_digits(s@) && dec_value(s@) <= u64::MAX,
        r is Some ==> r->0 == dec_value(s@),
{
    let len = s.unicode_len();
    if len == 0 {
        return None;
    }
    let mut acc: u64 = 0;
    let mut i: usize = 0;
    while i < len
        invariant
            len == s@.len(),
            len > 0,
            i <= len,
            forall|k: int| 0 <= k < i ==> is_digit(#[trigger] s@[k]),
            acc == dec_value(s@.take(i as int)),
        decreases len - i,
    {
        let c = s.get_char(i);
        let u = c as u32;
        if u < 48 || u > 57 {
            return None;
        }
        let d: u64 = (u - 48) as u64;
        if acc > (u64::MAX - d) / 10 {
            proof {
                assert(acc * 10 + d > u64::MAX) by {
                    assert(acc >= (u64::MAX - d) / 10 + 1);
                    assert(((u64::MAX - d) / 10 + 1) * 10 >= u64::MAX - d + 1) by (nonlinear_arith);
                    assert(acc * 10 >= ((u64::MAX - d) / 10 + 1) * 10) by (nonlinear_arith)
                        requires
                            acc >= (u64::MAX - d) / 10 + 1,
                    ;
                }
                assert(s@.take(i as int + 1).drop_last() =~= s@.take(i as int));
                assert(dec_value(s@.take(i as int + 1)) == acc * 10 + d);
                if is_dec_digits(s@) {
                    lemma_dec_value_prefix_le(s@, i as int + 1);
                }
            }
            return None;
        }
        proof {
            assert(acc * 10 + d <= u64::MAX) by {
                assert(acc <= (u64::MAX - d) / 10);
                assert(((u64::MAX - d) as int / 10) * 10 <= u64::MAX - d);
                assert(acc * 10 <= ((u64::MAX - d) as int / 10) * 10) by (nonlinear_arith)
                    requires
                        acc <= (u64::MAX - d) as int / 10,
                ;
            }
            assert(s@.take(i as int + 1).drop_last() =~= s@.take(i as int));
        }
        acc = acc * 10 + d;
        i = i + 1;
    }
    proof {
        assert(s@.take(len as int) =~= s@);
    }
    Some(acc)
}

/// `i` is the last occurrence of `c` in `s`.
pub open spec fn is_last_occurrence(s: Seq<char>, c: char, i: int) -> bool {
    0 <= i < s.len() && s[i] == c && forall|j: int| i < j < s.len() ==> s[j] != c
}

/// Position of the last occurrence of `c` in `s`, if any.
pub fn find_last_char(s: &str, c: char) -> (r: Option<usize>)
    ensures
        match r {
            Some(i) => is_last_occurrence(s@, c, i as int),
            None => forall|j: int| 0 <= j < s@.len() ==> s@[j] != c,
        },
{
    let len = s.unicode_len();
    let mut i: usize = len;
    while i > 0
        invariant
            len == s@.len(),
            i <= len,
            forall|j: int| i <= j < len ==> s@[j] != c,
        decreases i,
    {
        i = i - 1;
        if s.get_char(i) == c {
            return Some(i);
        }
    }
    None
}

/// `i` is the first occurrence of `c` in `s` at or after `start`.
pub open spec fn is_first_occurrence_from(s: Seq<char>, c: char, start: int, i: int) -> bool {
    start <= i < s.len() && s[i] == c && forall|j: int| start <= j < i ==> s[j] != c
}

/// Any two first occurrences of the same character coincide.
pub proof fn lemma_first_occurrence_unique(s: Seq<char>, c: char, start: int)
    ensures
        forall|i: int, j: int|
            is_first_occurrence_from(s, c, start, i) && is_first_occurrence_from(s, c, start, j)
                ==> i == j,
{
    assert forall|i: int, j: int|
        is_first_occurrence_from(s, c, start, i) && is_first_occurrence_from(
            s,
            c,
            start,
            j,
        ) implies i == j by {
        if i < j {
            assert(s[i] != c);
        } else if j < i {
            assert(s[j] != c);
        }
    }
}

/// Whether `s` is a non-empty string of decimal digits.
pub fn str_is_digits(s: &str) -> (r: bool)
    ensures
        r == is_dec_digits(s@),
{
    let len = s.unicode_len();
    if len == 0 {
        return false;
    }
    let mut i: usize = 0;
    while i < len
        invariant
            len == s@.len(),
            i <= len,
            forall|k: int| 0 <= k < i ==> is_digit(#[trigger] s@[k]),
        decreases len - i,
    {
        let u = s.get_char(i) as u32;
        if u < 48 || u > 57 {
            return false;
        }
        i = i + 1;
    }
    true
}

/// Position of the first occurrence of `c` in `s` at or after `start`.
pub fn find_first_char_from(s: &str, c: char, start: usize) -> (r: Option<usize>)
    ensures
        match r {
            Some(i) => is_first_occurrence_from(s@, c, start as int, i as int),
            None => forall|j: int| start <= j < s@.len() ==> s@[j] != c,
        },
{
    let len = s.unicode_len();
    let mut i: usize = start;
    while i < len
        invariant
            len == s@.len(),
            start <= i,
            forall|j: int| start <= j < i ==> s@[j] != c,
        decreases len - i,
    {
        if s.get_char(i) == c {
            return Some(i);
        }
        i = i + 1;
    }
    None
}

/// `s` starts with `prefix`.
pub open spec fn seq_starts_with(s: Seq<char>, prefix: Seq<char>) -> bool {
    prefix.len() <= s.len() && s.subrange(0, prefix.len() as int) =~= prefix
}

/// Whether `s` starts with `prefix` (exact character match).
pub fn str_starts_with(s: &str, prefix: &str) -> (r: bool)
    ensures
        r == seq_starts_with(s@, prefix@),
{
    let s_len = s.unicode_len();
    let p_len = prefix.unicode_len();
    if p_len > s_len {
        return false;
    }
    let mut j: usize = 0;
    while j < p_len
        invariant
            s_len == s@.len(),
            p_len == prefix@.len(),
            p_len <= s_len,
            j <= p_len,
            forall|k: int| 0 <= k < j ==> s@[k] == prefix@[k],
        decreases p_len - j,
    {
        if s.get_char(j) != prefix.get_char(j) {
            assert(s@.subrange(0, prefix@.len() as int)[j as int] != prefix@[j as int]);
            return false;
        }
        j = j + 1;
    }
    assert(s@.subrange(0, prefix@.len() as int) =~= prefix@);
    true
}

/// `needle` occurs in `hay` at position `i`, character for character.
pub open spec fn matches_exact_at(hay: Seq<char>, needle: Seq<char>, i: int) -> bool {
    0 <= i && i + needle.len() <= hay.len() && hay.subrange(i, i + needle.len()) =~= needle
}

/// `i` is the first exact occurrence of `needle` in `hay`.
pub open spec fn is_first_match(hay: Seq<char>, needle: Seq<char>, i: int) -> bool {
    matches_exact_at(hay, needle, i) && forall|q: int| 0 <= q < i ==> !matches_exact_at(
        hay,
        needle,
        q,
    )
}

/// Whether `needle` occurs at position `i` of `hay`.
fn matches_exact(hay: &str, needle: &str, i: usize) -> (r: bool)
    requires
        i + needle@.len() <= hay@.len(),
        hay@.len() <= usize::MAX,
    ensures
        r == matches_exact_at(hay@, needle@, i as int),
{
    let n_len = needle.unicode_len();
    let mut j: usize = 0;
    while j < n_len
        invariant
            n_len == needle@.len(),
            i + n_len <= hay@.len(),
            hay@.len() <= usize::MAX,
            j <= n_len,
            forall|k: int| 0 <= k < j ==> hay@[i + k] == needle@[k],
        decreases n_len - j,
    {
        if hay.get_char(i + j) != needle.get_char(j) {
            assert(hay@.subrange(i as int, i + needle@.len())[j as int] != needle@[j as int]);
            return false;
        }
        j = j + 1;
    }
    assert(hay@.subrange(i as int, i + needle@.len()) =~= needle@);
    true
}

/// Position of the first exact occurrence of `needle` in `hay`, if any.
pub fn find_first_substring(hay: &str, needle: &str) -> (r: Option<usize>)
    ensures
        match r {
            Some(i) => is_first_match(hay@, needle@, i as int),
            None => forall|q: int| !matches_exact_at(hay@, needle@, q),
        },
{
    let h_len = hay.unicode_len();
    let n_len = needle.unicode_len();
    if n_len > h_len {
        assert(forall|q: int| !matches_exact_at(hay@, needle@, q));
        return None;
    }
    let last = h_len - n_len;
    let mut i: usize = 0;
    while i <= last
        invariant
            h_len == hay@.len(),
            n_len == needle@.len(),
            n_len <= h_len,
            last == h_len - n_len,
            i <= last + 1,
            forall|q: int| 0 <= q < i ==> !matches_exact_at(hay@, needle@, q),
        decreases last + 1 - i,
    {
        if matches_exact(hay, needle, i) {
            return Some(i);
        }
        i = i + 1;
    }
    assert(forall|q: int| !matches_exact_at(hay@, needle@, q));
    None
}

/// `s` ends with `suffix`.
pub open spec fn seq_ends_with(s: Seq<char>, suffix: Seq<char>) -> bool {
    suffix.len() <= s.len() && s.subrange(s.len() - suffix.len(), s.len() as int) =~= suffix
}

/// Whether `s` ends with `suffix` (exact character match).
pub fn str_ends_with(s: &str, suffix: &str) -> (r: bool)
    ensures
        r == seq_ends_with(s@, suffix@),
{
    let s_len = s.unicode_len();
    let f_len = suffix.unicode_len();
    if f_len > s_len {
        return false;
    }
    let start = s_len - f_len;
    let mut j: usize = 0;
    while j < f_len
        invariant
            s_len == s@.len(),
            f_len == suffix@.len(),
            f_len <= s_len,
            start == s_len - f_len,
            j <= f_len,
            forall|k: int| 0 <= k < j ==> s@[start + k] == suffix@[k],
        decreases f_len - j,
    {
        if s.get_char(start + j) != suffix.get_char(j) {
            assert(s@.subrange(s@.len() - suffix@.len(), s@.len() as int)[j as int]
                != suffix@[j as int]);
            return false;
        }
        j = j + 1;
    }
    assert(s@.subrange(s@.len() - suffix@.len(), s@.len() as int) =~= suffix@);
    true
}

} // verus!
