use vstd::prelude::*;

verus! {

/// `c` is one of the ASCII digits `0` to `9`.
pub open spec fn is_digit(c: char) -> bool {
    '0' <= c <= '9'
}

/// Numeric value of one ASCII digit.
pub open spec fn digit_value(c: char) -> nat {
    (c as int - '0' as int) as nat
}

/// Every character of `s` is an ASCII digit.
pub open spec fn all_digits(s: Seq<char>) -> bool {
    forall|i: int| 0 <= i < s.len() ==> #[trigger] is_digit(s[i])
}

/// The number that the decimal digits `s` spell, most significant first.
pub open spec fn decimal_value(s: Seq<char>) -> nat
    decreases s.len(),
{
    if s.len() == 0 {
        0
    } else {
        decimal_value(s.drop_last()) * 10 + digit_value(s.last())
    }
}

/// Length of the run of ASCII digits that starts at position `i` of `s`.
pub open spec fn digit_run(s: Seq<char>, i: int) -> nat
    decreases s.len() - i,
{
    if 0 <= i < s.len() && is_digit(s[i]) {
        1 + digit_run(s, i + 1)
    } else {
        0
    }
}

/// `s` is an unsigned decimal number as `u64::from_str` reads it: an optional `+`,
/// then one or more ASCII digits, nothing else.
pub open spec fn decimal_text(s: Seq<char>) -> bool {
    let d = if s.len() > 0 && s[0] == '+' {
        s.drop_first()
    } else {
        s
    };
    d.len() > 0 && all_digits(d)
}

/// The digits of a decimal text, without its sign.
pub open spec fn decimal_digits(s: Seq<char>) -> Seq<char> {
    if s.len() > 0 && s[0] == '+' {
        s.drop_first()
    } else {
        s
    }
}

/// A `Content-Length` value read as a `u64`: the number when `s` is a decimal text
/// whose value fits, else nothing.
pub open spec fn content_length_of(s: Seq<char>) -> Option<u64> {
    if decimal_text(s) && decimal_value(decimal_digits(s)) <= u64::MAX {
        Some(decimal_value(decimal_digits(s)) as u64)
    } else {
        None
    }
}

/// `s` holds the word `bytes` and one space at position `i`.
pub open spec fn unit_at(s: Seq<char>, i: int) -> bool {
    &&& 0 <= i
    &&& i + 6 <= s.len()
    &&& s[i] == 'b'
    &&& s[i + 1] == 'y'
    &&& s[i + 2] == 't'
    &&& s[i + 3] == 'e'
    &&& s[i + 4] == 's'
    &&& s[i + 5] == ' '
}

/// Position of the first digit of the range's last byte, for a match at `i`.
pub open spec fn range_end_at(s: Seq<char>, i: int) -> int {
    i + 6 + digit_run(s, i + 6) + 1
}

/// Position of the first digit of the complete length, for a match at `i`.
pub open spec fn range_total_at(s: Seq<char>, i: int) -> int {
    range_end_at(s, i) + digit_run(s, range_end_at(s, i)) + 1
}

/// `s` holds `bytes <digits>-<digits>/<digits>` starting at position `i`.
pub open spec fn range_match_at(s: Seq<char>, i: int) -> bool {
    let a = i + 6;
    let b = range_end_at(s, i);
    let c = range_total_at(s, i);
    &&& unit_at(s, i)
    &&& digit_run(s, a) > 0
    &&& a + digit_run(s, a) < s.len()
    &&& s[a + digit_run(s, a)] == '-'
    &&& digit_run(s, b) > 0
    &&& b + digit_run(s, b) < s.len()
    &&& s[b + digit_run(s, b)] == '/'
    &&& digit_run(s, c) > 0
}

/// The complete length that a match at `i` names.
pub open spec fn range_total_value(s: Seq<char>, i: int) -> nat {
    let c = range_total_at(s, i);
    decimal_value(s.subrange(c, c + digit_run(s, c)))
}

/// The first position of `s` where `bytes <digits>-<digits>/<digits>` occurs, where one does.
pub open spec fn first_match(s: Seq<char>) -> int {
    choose|i: int|
        0 <= i < s.len() && #[trigger] range_match_at(s, i) && forall|j: int|
            0 <= j < i ==> !range_match_at(s, j)
}

/// The complete length that a `Content-Range` value names: the first match of
/// `bytes <digits>-<digits>/<digits>` in `s` decides, and gives a number when its
/// last digits fit a `u64`.
pub open spec fn content_range_total(s: Seq<char>) -> Option<u64> {
    if exists|i: int| 0 <= i < s.len() && #[trigger] range_match_at(s, i) {
        let i = first_match(s);
        if range_total_value(s, i) <= u64::MAX {
            Some(range_total_value(s, i) as u64)
        } else {
            None
        }
    } else {
        None
    }
}

proof fn lemma_digit_run_bounds(s: Seq<char>, i: int)
    requires
        0 <= i <= s.len(),
    ensures
        i + digit_run(s, i) <= s.len(),
        forall|k: int| i <= k < i + digit_run(s, i) ==> #[trigger] is_digit(s[k]),
        i + digit_run(s, i) < s.len() ==> !is_digit(s[i + digit_run(s, i)]),
    decreases s.len() - i,
{
    if i < s.len() && is_digit(s[i]) {
        lemma_digit_run_bounds(s, i + 1);
    }
}

proof fn lemma_decimal_step(s: Seq<char>, from: int, k: int)
    requires
        0 <= from <= k < s.len(),
    ensures
        decimal_value(s.subrange(from, k + 1)) == decimal_value(s.subrange(from, k)) * 10
            + digit_value(s[k]),
{
    assert(s.subrange(from, k + 1).drop_last() =~= s.subrange(from, k));
}

proof fn lemma_decimal_monotone(s: Seq<char>, from: int, k: int, to: int)
    requires
        0 <= from <= k <= to <= s.len(),
    ensures
        decimal_value(s.subrange(from, k)) <= decimal_value(s.subrange(from, to)),
    decreases to - k,
{
    if k < to {
        lemma_decimal_step(s, from, to - 1);
        lemma_decimal_monotone(s, from, k, to - 1);
    }
}

proof fn lemma_first_match(s: Seq<char>, i: int)
    requires
        0 <= i < s.len(),
        range_match_at(s, i),
        forall|j: int| 0 <= j < i ==> !range_match_at(s, j),
    ensures
        first_match(s) == i,
        content_range_total(s) == (if range_total_value(s, i) <= u64::MAX {
            Some(range_total_value(s, i) as u64)
        } else {
            None::<u64>
        }),
{
    let k = first_match(s);
    assert(k == i) by {
        if k < i {
            assert(!range_match_at(s, k));
        } else if k > i {
            assert(!range_match_at(s, i));
        }
    }
}

/// Index just past the run of ASCII digits that starts at `i`.
fn scan_digits(s: &str, len: usize, i: usize) -> (j: usize)
    requires
        len == s@.len(),
        i <= len,
    ensures
        j == i + digit_run(s@, i as int),
{
    proof {
        lemma_digit_run_bounds(s@, i as int);
    }
    let mut j = i;
    while j < len
        invariant
            len == s@.len(),
            i <= j <= i + digit_run(s@, i as int),
            digit_run(s@, j as int) + j == digit_run(s@, i as int) + i,
        ensures
            j == i + digit_run(s@, i as int),
        decreases len - j,
    {
        let c = s.get_char(j);
        if !('0' <= c && c <= '9') {
            break;
        }
        j = j + 1;
    }
    j
}

/// Value of the ASCII digits `s[from..to]`, or nothing when it does not fit a `u64`.
fn digits_to_u64(s: &str, from: usize, to: usize) -> (r: Option<u64>)
    requires
        from <= to <= s@.len(),
        all_digits(s@.subrange(from as int, to as int)),
    ensures
        r == (if decimal_value(s@.subrange(from as int, to as int)) <= u64::MAX {
            Some(decimal_value(s@.subrange(from as int, to as int)) as u64)
        } else {
            None::<u64>
        }),
{
    let mut v: u64 = 0;
    let mut k = from;
    assert(s@.subrange(from as int, from as int) =~= Seq::<char>::empty());
    while k < to
        invariant
            from <= k <= to <= s@.len(),
            all_digits(s@.subrange(from as int, to as int)),
            v == decimal_value(s@.subrange(from as int, k as int)),
        decreases to - k,
    {
        let c = s.get_char(k);
        assert(is_digit(s@.subrange(from as int, to as int)[k - from]));
        let d = (c as u32 - '0' as u32) as u64;
        proof {
            lemma_decimal_step(s@, from as int, k as int);
        }
        if v > (u64::MAX - d) / 10 {
            proof {
                assert(v * 10 + d > u64::MAX) by (nonlinear_arith)
                    requires
                        v > (u64::MAX - d) / 10,
                        d <= 9,
                ;
                lemma_decimal_monotone(s@, from as int, k as int + 1, to as int);
            }
            return None;
        }
        assert(v * 10 + d <= u64::MAX) by (nonlinear_arith)
            requires
                v <= (u64::MAX - d) / 10,
                d <= 9,
        ;
        v = v * 10 + d;
        k = k + 1;
    }
    Some(v)
}

/// Reads a `Content-Length` value the way `u64::from_str` does: an optional `+` and
/// one or more ASCII digits whose value fits a `u64`; anything else gives `None`.
pub fn parse_content_length(s: &str) -> (r: Option<u64>)
    ensures
        r == content_length_of(s@),
{
    let len = s.unicode_len();
    let from: usize = if len > 0 && s.get_char(0) == '+' {
        1
    } else {
        0
    };
    assert(decimal_digits(s@) =~= s@.subrange(from as int, len as int));
    let to = scan_digits(s, len, from);
    proof {
        lemma_digit_run_bounds(s@, from as int);
    }
    if to != len || to == from {
        proof {
            if decimal_text(s@) {
                assert(is_digit(decimal_digits(s@)[to - from]));
            }
        }
        return None;
    }
    assert(all_digits(s@.subrange(from as int, to as int)));
    digits_to_u64(s, from, to)
}

/// Whether `s` holds `bytes <digits>-<digits>/<digits>` at position `i`; when it does,
/// the bounds of the last digits.
fn range_match(s: &str, len: usize, i: usize) -> (r: Option<(usize, usize)>)
    requires
        len == s@.len(),
        i < len,
    ensures
        r is Some <==> range_match_at(s@, i as int),
        r matches Some((c, e)) ==> c == range_total_at(s@, i as int) && e == c + digit_run(
            s@,
            c as int,
        ) && e <= len,
{
    if len - i < 6 {
        return None;
    }
    if !(s.get_char(i) == 'b' && s.get_char(i + 1) == 'y' && s.get_char(i + 2) == 't'
        && s.get_char(i + 3) == 'e' && s.get_char(i + 4) == 's' && s.get_char(i + 5) == ' ') {
        return None;
    }
    let a = i + 6;
    let a_end = scan_digits(s, len, a);
    if a_end == a || a_end >= len || s.get_char(a_end) != '-' {
        return None;
    }
    let b = a_end + 1;
    let b_end = scan_digits(s, len, b);
    if b_end == b || b_end >= len || s.get_char(b_end) != '/' {
        return None;
    }
    let c = b_end + 1;
    let c_end = scan_digits(s, len, c);
    proof {
        lemma_digit_run_bounds(s@, c as int);
    }
    if c_end == c {
        return None;
    }
    Some((c, c_end))
}

/// Reads the complete length from a `Content-Range` value such as `bytes 0-1/5242880`.
/// The first place where `bytes <digits>-<digits>/<digits>` occurs decides: its last
/// digits give the length when they fit a `u64`.
pub fn parse_content_range(s: &str) -> (r: Option<u64>)
    ensures
        r == content_range_total(s@),
{
    let len = s.unicode_len();
    let mut i: usize = 0;
    while i < len
        invariant
            len == s@.len(),
            i <= len,
            forall|j: int| 0 <= j < i ==> !range_match_at(s@, j),
        decreases len - i,
    {
        match range_match(s, len, i) {
            Some((c, e)) => {
                proof {
                    lemma_digit_run_bounds(s@, c as int);
                    assert(all_digits(s@.subrange(c as int, e as int)));
                    lemma_first_match(s@, i as int);
                    assert(range_total_value(s@, i as int) == decimal_value(
                        s@.subrange(c as int, e as int),
                    ));
                }
                return digits_to_u64(s, c, e);
            },
            None => {},
        }
        i = i + 1;
    }
    None
}

} // verus!
