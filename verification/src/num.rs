//! Decimal text for catalog indices.
//!
//! A grid cell holds a catalog index as decimal text. A value is numeric
//! when it is one or more digits, optionally followed by a dot and more
//! digits (a trailing fraction is tolerated and ignored); anything else,
//! including values beyond `u32::MAX`, is treated as absent.

use vstd::prelude::*;

verus! {

pub open spec fn is_digit_char(c: char) -> bool {
    '0' <= c && c <= '9'
}

pub open spec fn digit_val(c: char) -> int {
    c as int - '0' as int
}

/// Value of a pure digit string, most significant digit first.
pub open spec fn digits_value(s: Seq<char>) -> int
    decreases s.len(),
{
    if s.len() == 0 {
        0
    } else {
        digits_value(s.drop_last()) * 10 + digit_val(s.last())
    }
}

/// `i` is the length of the longest digit prefix of `s`.
pub open spec fn is_int_prefix_len(s: Seq<char>, i: int) -> bool {
    &&& 0 <= i <= s.len()
    &&& forall|j: int| 0 <= j < i ==> is_digit_char(s[j])
    &&& i == s.len() || !is_digit_char(s[i])
}

pub open spec fn int_prefix_len(s: Seq<char>) -> int {
    choose|i: int| is_int_prefix_len(s, i)
}

pub proof fn lemma_int_prefix_exists(s: Seq<char>)
    ensures
        exists|i: int| is_int_prefix_len(s, i),
    decreases s.len(),
{
    if s.len() == 0 || !is_digit_char(s[0]) {
        assert(is_int_prefix_len(s, 0));
    } else {
        let tail = s.subrange(1, s.len() as int);
        lemma_int_prefix_exists(tail);
        let i = choose|i: int| is_int_prefix_len(tail, i);
        assert forall|j: int| 0 <= j < i + 1 implies is_digit_char(s[j]) by {
            if j > 0 {
                assert(is_digit_char(tail[j - 1]));
            }
        }
        assert(i + 1 == s.len() || !is_digit_char(s[i + 1])) by {
            if i + 1 < s.len() {
                assert(tail[i] == s[i + 1]);
            }
        }
        assert(is_int_prefix_len(s, i + 1));
    }
}

pub proof fn lemma_int_prefix_unique(s: Seq<char>, i1: int, i2: int)
    requires
        is_int_prefix_len(s, i1),
        is_int_prefix_len(s, i2),
    ensures
        i1 == i2,
{
    if i1 < i2 {
        assert(is_digit_char(s[i1]));
    }
    if i2 < i1 {
        assert(is_digit_char(s[i2]));
    }
}

/// The text is a digit string, optionally followed by `.` and digits.
pub open spec fn valid_number_text(s: Seq<char>) -> bool {
    let i = int_prefix_len(s);
    &&& i > 0
    &&& i == s.len() || (s[i] == '.' && forall|j: int| i < j < s.len() ==> is_digit_char(s[j]))
}

/// The integer part of a numeric text.
pub open spec fn number_value(s: Seq<char>) -> int {
    digits_value(s.subrange(0, int_prefix_len(s)))
}

/// How a cell's text is read as a catalog index: `None` for anything that
/// is not numeric text or does not fit in `u32`.
pub open spec fn parse_index(s: Seq<char>) -> Option<u32> {
    if valid_number_text(s) && number_value(s) <= u32::MAX {
        Some(number_value(s) as u32)
    } else {
        None
    }
}

/// Numeric text is never empty.
pub proof fn lemma_parse_index_some_nonempty(s: Seq<char>)
    requires
        parse_index(s) is Some,
    ensures
        s.len() > 0,
{
    lemma_int_prefix_exists(s);
    lemma_int_prefix_unique(
        s,
        int_prefix_len(s),
        choose|i: int| is_int_prefix_len(s, i),
    );
}

/// Empty text is not numeric.
pub proof fn lemma_parse_index_empty()
    ensures
        parse_index(Seq::<char>::empty()) is None,
{
    let s = Seq::<char>::empty();
    assert(is_int_prefix_len(s, 0));
    lemma_int_prefix_unique(s, 0, int_prefix_len(s));
}

pub proof fn lemma_digits_value_nonneg(s: Seq<char>)
    requires
        forall|j: int| 0 <= j < s.len() ==> is_digit_char(s[j]),
    ensures
        digits_value(s) >= 0,
    decreases s.len(),
{
    if s.len() > 0 {
        lemma_digits_value_nonneg(s.drop_last());
    }
}

fn exec_is_digit(c: char) -> (r: bool)
    ensures
        r == is_digit_char(c),
{
    '0' <= c && c <= '9'
}

fn exec_digit_val(c: char) -> (r: u32)
    requires
        is_digit_char(c),
    ensures
        r == digit_val(c),
{
    c as u32 - '0' as u32
}

/// Reads a catalog index from a cell's text.
pub fn parse_index_str(s: &str) -> (r: Option<u32>)
    ensures
        r == parse_index(s@),
{
    let n: usize = s.unicode_len();
    let mut k: usize = 0;
    // One past `u32::MAX`, standing for "too large".
    let cap: u64 = 0x1_0000_0000;
    let mut val: u64 = 0;
    while k < n && exec_is_digit(s.get_char(k))
        invariant
            0 <= k <= n,
            n == s@.len(),
            cap == 0x1_0000_0000u64,
            forall|j: int| 0 <= j < k ==> is_digit_char(s@[j]),
            digits_value(s@.subrange(0, k as int)) <= u32::MAX ==> val == digits_value(
                s@.subrange(0, k as int),
            ),
            digits_value(s@.subrange(0, k as int)) > u32::MAX ==> val == cap,
            val <= cap,
        decreases n - k,
    {
        let d = exec_digit_val(s.get_char(k));
        proof {
            lemma_digits_value_nonneg(s@.subrange(0, k as int));
            assert(s@.subrange(0, k + 1 as int).drop_last() =~= s@.subrange(0, k as int));
            assert(s@.subrange(0, k + 1 as int).last() == s@[k as int]);
        }
        if val * 10 + (d as u64) > 0xffff_ffff {
            val = cap;
        } else {
            val = val * 10 + (d as u64);
        }
        k = k + 1;
    }
    proof {
        assert(is_int_prefix_len(s@, k as int));
        lemma_int_prefix_exists(s@);
        lemma_int_prefix_unique(s@, k as int, int_prefix_len(s@));
    }
    if k == 0 {
        assert(!valid_number_text(s@));
        return None;
    }
    if k < n {
        if s.get_char(k) != '.' {
            return None;
        }
        let mut j: usize = k + 1;
        while j < n
            invariant
                k < j <= n,
                n == s@.len(),
                0 < k < n,
                int_prefix_len(s@) == k as int,
                s@[k as int] == '.',
                forall|t: int| k < t < j ==> is_digit_char(s@[t]),
            decreases n - j,
        {
            if !exec_is_digit(s.get_char(j)) {
                return None;
            }
            j = j + 1;
        }
    }
    if val <= 0xffff_ffff {
        Some(val as u32)
    } else {
        None
    }
}

/// The digit part of plain decimal text: one optional leading plus
/// sign is skipped, as `u32::from_str` skips it.
pub open spec fn plain_digits(s: Seq<char>) -> Seq<char> {
    if s.len() > 0 && s[0] == '+' {
        s.subrange(1, s.len() as int)
    } else {
        s
    }
}

/// Plain decimal text: an optional leading plus sign, then digits.
pub open spec fn plain_number(s: Seq<char>) -> bool {
    plain_digits(s).len() > 0 && (forall|j: int|
        0 <= j < plain_digits(s).len() ==> is_digit_char(plain_digits(s)[j]))
}

/// How a settings field's text is read as a number, the way
/// `u32::from_str` reads it: an optional plus sign, then digits, and
/// only values that fit in `u32`.
pub open spec fn parse_plain(s: Seq<char>) -> Option<u32> {
    if plain_number(s) && digits_value(plain_digits(s)) <= u32::MAX {
        Some(digits_value(plain_digits(s)) as u32)
    } else {
        None
    }
}

/// Reads a plain decimal number, as settings input fields do.
pub fn parse_plain_u32(s: &str) -> (r: Option<u32>)
    ensures
        r == parse_plain(s@),
{
    let n: usize = s.unicode_len();
    if n == 0 {
        return None;
    }
    let start: usize = if s.get_char(0) == '+' {
        1
    } else {
        0
    };
    proof {
        assert(plain_digits(s@) =~= s@.subrange(start as int, n as int));
    }
    if start == n {
        return None;
    }
    let cap: u64 = 0x1_0000_0000;
    let mut val: u64 = 0;
    let mut k: usize = start;
    while k < n
        invariant
            start <= k <= n,
            start < n,
            n == s@.len(),
            cap == 0x1_0000_0000u64,
            plain_digits(s@) =~= s@.subrange(start as int, n as int),
            forall|j: int| start <= j < k ==> is_digit_char(s@[j]),
            digits_value(s@.subrange(start as int, k as int)) <= u32::MAX ==> val == digits_value(
                s@.subrange(start as int, k as int),
            ),
            digits_value(s@.subrange(start as int, k as int)) > u32::MAX ==> val == cap,
            val <= cap,
        decreases n - k,
    {
        let c = s.get_char(k);
        if !exec_is_digit(c) {
            proof {
                assert(plain_digits(s@)[k - start] == s@[k as int]);
            }
            return None;
        }
        let d = exec_digit_val(c);
        proof {
            lemma_digits_value_nonneg(s@.subrange(start as int, k as int));
            assert(s@.subrange(start as int, k + 1 as int).drop_last() =~= s@.subrange(
                start as int,
                k as int,
            ));
            assert(s@.subrange(start as int, k + 1 as int).last() == s@[k as int]);
        }
        if val * 10 + (d as u64) > 0xffff_ffff {
            val = cap;
        } else {
            val = val * 10 + (d as u64);
        }
        k = k + 1;
    }
    proof {
        assert forall|j: int| 0 <= j < plain_digits(s@).len() implies is_digit_char(
            plain_digits(s@)[j],
        ) by {
            assert(plain_digits(s@)[j] == s@[j + start]);
        }
        assert(plain_number(s@));
    }
    if val <= 0xffff_ffff {
        Some(val as u32)
    } else {
        None
    }
}

/// The digit for one value below ten.
pub open spec fn spec_digit_char(d: int) -> char {
    if d == 0 {
        '0'
    } else if d == 1 {
        '1'
    } else if d == 2 {
        '2'
    } else if d == 3 {
        '3'
    } else if d == 4 {
        '4'
    } else if d == 5 {
        '5'
    } else if d == 6 {
        '6'
    } else if d == 7 {
        '7'
    } else if d == 8 {
        '8'
    } else {
        '9'
    }
}

/// Decimal rendering of a number, most significant digit first.
pub open spec fn u32_digits(n: int) -> Seq<char>
    decreases n,
{
    if n < 10 {
        seq![spec_digit_char(n)]
    } else {
        u32_digits(n / 10).push(spec_digit_char(n % 10))
    }
}

fn digit_str(d: u32) -> (s: &'static str)
    requires
        d < 10,
    ensures
        s@ == seq![spec_digit_char(d as int)],
{
    proof {
        reveal_strlit("0");
        reveal_strlit("1");
        reveal_strlit("2");
        reveal_strlit("3");
        reveal_strlit("4");
        reveal_strlit("5");
        reveal_strlit("6");
        reveal_strlit("7");
        reveal_strlit("8");
        reveal_strlit("9");
    }
    if d == 0 {
        "0"
    } else if d == 1 {
        "1"
    } else if d == 2 {
        "2"
    } else if d == 3 {
        "3"
    } else if d == 4 {
        "4"
    } else if d == 5 {
        "5"
    } else if d == 6 {
        "6"
    } else if d == 7 {
        "7"
    } else if d == 8 {
        "8"
    } else {
        "9"
    }
}

/// Renders a catalog index as the decimal text stored in column 1.
pub fn u32_to_string(n: u32) -> (r: String)
    ensures
        r@ == u32_digits(n as int),
    decreases n,
{
    if n < 10 {
        String::from_str(digit_str(n))
    } else {
        let mut r = u32_to_string(n / 10);
        r.append(digit_str(n % 10));
        proof {
            assert(u32_digits((n / 10) as int).push(spec_digit_char((n % 10) as int)) =~= u32_digits(
                (n / 10) as int,
            ) + seq![spec_digit_char((n % 10) as int)]);
        }
        r
    }
}

/// Printing a number and reading it back yields the same number.
pub proof fn lemma_parse_of_digits(n: int)
    requires
        0 <= n <= u32::MAX,
    ensures
        parse_index(u32_digits(n)) == Some(n as u32),
{
    lemma_u32_digits_are_digits(n);
    let s = u32_digits(n);
    assert(is_int_prefix_len(s, s.len() as int));
    lemma_int_prefix_exists(s);
    lemma_int_prefix_unique(s, s.len() as int, int_prefix_len(s));
    assert(s.subrange(0, s.len() as int) =~= s);
    lemma_digits_value_of_digits(n);
}

pub proof fn lemma_u32_digits_are_digits(n: int)
    requires
        n >= 0,
    ensures
        u32_digits(n).len() >= 1,
        forall|j: int| 0 <= j < u32_digits(n).len() ==> is_digit_char(u32_digits(n)[j]),
    decreases n,
{
    if n < 10 {
        assert(is_digit_char(spec_digit_char(n)));
    } else {
        lemma_u32_digits_are_digits(n / 10);
        let s = u32_digits(n / 10);
        assert forall|j: int| 0 <= j < u32_digits(n).len() implies is_digit_char(
            u32_digits(n)[j],
        ) by {
            if j < s.len() {
                assert(u32_digits(n)[j] == s[j]);
            } else {
                assert(u32_digits(n)[j] == spec_digit_char(n % 10));
            }
        }
    }
}

pub proof fn lemma_digit_char_val(d: int)
    requires
        0 <= d < 10,
    ensures
        digit_val(spec_digit_char(d)) == d,
        is_digit_char(spec_digit_char(d)),
{
}

pub proof fn lemma_digits_value_of_digits(n: int)
    requires
        n >= 0,
    ensures
        digits_value(u32_digits(n)) == n,
    decreases n,
{
    if n < 10 {
        lemma_digit_char_val(n);
        assert(u32_digits(n) =~= seq![spec_digit_char(n)]);
        assert(u32_digits(n).drop_last() =~= Seq::<char>::empty());
        assert(u32_digits(n).last() == spec_digit_char(n));
        assert(digits_value(Seq::<char>::empty()) == 0);
        assert(digits_value(u32_digits(n)) == digits_value(Seq::<char>::empty()) * 10 + digit_val(
            spec_digit_char(n),
        ));
    } else {
        lemma_digits_value_of_digits(n / 10);
        lemma_digit_char_val(n % 10);
        assert(u32_digits(n).drop_last() =~= u32_digits(n / 10));
        assert(u32_digits(n).last() == spec_digit_char(n % 10));
    }
}

} // verus!
