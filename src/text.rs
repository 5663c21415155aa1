//! Character-level building blocks: field splitting, whitespace trimming and
//! decimal number parsing over `Vec<char>` ranges.
use vstd::prelude::*;
use vstd::std_specs::iter::IteratorSpec;

verus! {

/// Why a numeric column could not be read.
#[derive(Debug, Clone, Copy, PartialEq, Eq, Structural)]
pub enum NumberError {
    /// The column holds no characters at all.
    Empty,
    /// The column holds a character that is not allowed in the number.
    InvalidDigit,
    /// The digits are well formed but the value does not fit the target type.
    Overflow,
}

pub open spec fn is_digit(c: char) -> bool {
    '0' <= c && c <= '9'
}

pub open spec fn digit_value(c: char) -> nat {
    (c as u32 - '0' as u32) as nat
}

pub open spec fn all_digits(s: Seq<char>) -> bool {
    forall|i: int| 0 <= i < s.len() ==> is_digit(#[trigger] s[i])
}

/// The value of a string of decimal digits, most significant first.
pub open spec fn digits_value(s: Seq<char>) -> nat
    decreases s.len(),
{
    if s.len() == 0 {
        0
    } else {
        digits_value(s.drop_last()) * 10 + digit_value(s.last())
    }
}

/// `char::is_whitespace`: the characters with the Unicode White_Space property.
pub open spec fn is_space(c: char) -> bool {
    let u = c as u32;
    (0x09 <= u && u <= 0x0d) || u == 0x20 || u == 0x85 || u == 0xa0 || u == 0x1680 || (0x2000
        <= u && u <= 0x200a) || u == 0x2028 || u == 0x2029 || u == 0x202f || u == 0x205f || u
        == 0x3000
}

/// `s` without its trailing whitespace.
pub open spec fn trim_end(s: Seq<char>) -> Seq<char>
    decreases s.len(),
{
    if s.len() > 0 && is_space(s.last()) {
        trim_end(s.drop_last())
    } else {
        s
    }
}

/// The pieces of `s` between occurrences of `d`, as `str::split` yields them:
/// always at least one piece, empty pieces included.
pub open spec fn split_fields(s: Seq<char>, d: char) -> Seq<Seq<char>>
    decreases s.len(),
{
    if s.len() == 0 {
        seq![Seq::empty()]
    } else {
        let p = split_fields(s.drop_last(), d);
        if s.last() == d {
            p.push(Seq::empty())
        } else {
            p.update(p.len() - 1, p.last().push(s.last()))
        }
    }
}

/// The text that each range of `rs` covers in `s`.
pub open spec fn range_texts(s: Seq<char>, rs: Seq<(usize, usize)>) -> Seq<Seq<char>> {
    rs.map_values(|r: (usize, usize)| s.subrange(r.0 as int, r.1 as int))
}

/// What `u64::from_str` makes of `s`: an optional `+`, then decimal digits.
pub open spec fn u64_of(s: Seq<char>) -> Result<u64, NumberError> {
    let b = if s.len() > 0 && s[0] == '+' {
        s.drop_first()
    } else {
        s
    };
    if s.len() == 0 {
        Err(NumberError::Empty)
    } else if b.len() == 0 || !all_digits(b) {
        Err(NumberError::InvalidDigit)
    } else if digits_value(b) > u64::MAX {
        Err(NumberError::Overflow)
    } else {
        Ok(digits_value(b) as u64)
    }
}

/// What `i64::from_str` makes of `s`: an optional `+` or `-`, then decimal digits.
pub open spec fn i64_of(s: Seq<char>) -> Result<i64, NumberError> {
    let neg = s.len() > 0 && s[0] == '-';
    let b = if s.len() > 0 && (s[0] == '+' || s[0] == '-') {
        s.drop_first()
    } else {
        s
    };
    if s.len() == 0 {
        Err(NumberError::Empty)
    } else if b.len() == 0 || !all_digits(b) {
        Err(NumberError::InvalidDigit)
    } else if neg {
        if digits_value(b) > 0x8000_0000_0000_0000 {
            Err(NumberError::Overflow)
        } else {
            Ok((0 - digits_value(b)) as i64)
        }
    } else if digits_value(b) > i64::MAX {
        Err(NumberError::Overflow)
    } else {
        Ok(digits_value(b) as i64)
    }
}

pub proof fn lemma_split_nonempty(s: Seq<char>, d: char)
    ensures
        split_fields(s, d).len() >= 1,
    decreases s.len(),
{
    if s.len() > 0 {
        lemma_split_nonempty(s.drop_last(), d);
    }
}

pub proof fn lemma_split_single(s: Seq<char>, d: char)
    requires
        split_fields(s, d).len() == 1,
    ensures
        split_fields(s, d)[0] == s,
    decreases s.len(),
{
    if s.len() > 0 {
        lemma_split_nonempty(s.drop_last(), d);
        lemma_split_single(s.drop_last(), d);
        assert(s.drop_last().push(s.last()) =~= s);
    }
}

pub proof fn lemma_digits_step(s: Seq<char>, lo: int, i: int)
    requires
        0 <= lo <= i < s.len(),
    ensures
        digits_value(s.subrange(lo, i + 1)) == digits_value(s.subrange(lo, i)) * 10
            + digit_value(s[i]),
{
    assert(s.subrange(lo, i + 1).drop_last() =~= s.subrange(lo, i));
}

pub proof fn lemma_digits_monotone(s: Seq<char>, lo: int, i: int, hi: int)
    requires
        0 <= lo <= i <= hi <= s.len(),
    ensures
        digits_value(s.subrange(lo, i)) <= digits_value(s.subrange(lo, hi)),
    decreases hi - i,
{
    if i < hi {
        lemma_digits_monotone(s, lo, i, hi - 1);
        lemma_digits_step(s, lo, hi - 1);
    }
}

/// Relies on std's `FromIterator<&char>` for `String`: the characters are
/// collected in order.
#[verifier::external_body]
pub fn string_of(cs: &Vec<char>) -> (r: String)
    ensures
        r@ == cs@,
{
    cs.iter().collect()
}

/// The characters of `s`, one by one.
pub fn chars_of(s: &str) -> (r: Vec<char>)
    ensures
        r@ == s@,
{
    broadcast use vstd::string::axiom_spec_iter, vstd::string::next_postcondition;
    let mut v: Vec<char> = Vec::new();
    let mut it = s.chars();
    loop
        invariant
            v@ + it.remaining() == s@,
        ensures
            v@ == s@,
        decreases s@.len() - v@.len(),
    {
        match it.next() {
            Some(c) => {
                v.push(c);
            },
            None => {
                break;
            },
        }
    }
    v
}

/// Splits `cs` at each `d` and returns the range of every piece.
pub fn split_ranges(cs: &Vec<char>, d: char) -> (r: Vec<(usize, usize)>)
    ensures
        range_texts(cs@, r@) == split_fields(cs@, d),
        forall|k: int| 0 <= k < r@.len() ==> (#[trigger] r@[k]).0 <= r@[k].1 <= cs.len(),
{
    let mut ranges: Vec<(usize, usize)> = Vec::new();
    let mut start: usize = 0;
    let mut i: usize = 0;
    assert(range_texts(cs@, ranges@).push(cs@.subrange(0, 0)) =~~= split_fields(cs@.take(0), d));
    while i < cs.len()
        invariant
            start <= i <= cs.len(),
            forall|k: int| 0 <= k < ranges@.len() ==> (#[trigger] ranges@[k]).0 <= ranges@[k].1 <= i,
            range_texts(cs@, ranges@).push(cs@.subrange(start as int, i as int)) == split_fields(
                cs@.take(i as int),
                d,
            ),
        decreases cs.len() - i,
    {
        let ghost before = range_texts(cs@, ranges@);
        assert(cs@.take(i + 1).drop_last() =~= cs@.take(i as int));
        proof {
            lemma_split_nonempty(cs@.take(i as int), d);
        }
        if cs[i] == d {
            ranges.push((start, i));
            start = i + 1;
            assert(range_texts(cs@, ranges@) =~= before.push(
                cs@.subrange(ranges@.last().0 as int, i as int),
            ));
        } else {
            assert(cs@.subrange(start as int, i + 1) =~= cs@.subrange(start as int, i as int).push(
                cs[i as int],
            ));
        }
        i = i + 1;
        assert(range_texts(cs@, ranges@).push(cs@.subrange(start as int, i as int))
            =~~= split_fields(cs@.take(i as int), d));
    }
    let ghost before = range_texts(cs@, ranges@);
    ranges.push((start, i));
    assert(range_texts(cs@, ranges@) =~= before.push(cs@.subrange(start as int, i as int)));
    assert(cs@.take(i as int) =~= cs@);
    ranges
}

pub fn is_space_char(c: char) -> (r: bool)
    ensures
        r == is_space(c),
{
    let u = c as u32;
    (0x09 <= u && u <= 0x0d) || u == 0x20 || u == 0x85 || u == 0xa0 || u == 0x1680 || (0x2000
        <= u && u <= 0x200a) || u == 0x2028 || u == 0x2029 || u == 0x202f || u == 0x205f || u
        == 0x3000
}

/// The end of `cs[lo..hi]` once trailing whitespace is cut off.
pub fn trim_end_in(cs: &Vec<char>, lo: usize, hi: usize) -> (r: usize)
    requires
        lo <= hi <= cs.len(),
    ensures
        lo <= r <= hi,
        cs@.subrange(lo as int, r as int) == trim_end(cs@.subrange(lo as int, hi as int)),
{
    let mut e = hi;
    while e > lo && is_space_char(cs[e - 1])
        invariant
            lo <= e <= hi <= cs.len(),
            trim_end(cs@.subrange(lo as int, e as int)) == trim_end(
                cs@.subrange(lo as int, hi as int),
            ),
        decreases e,
    {
        assert(cs@.subrange(lo as int, e as int).drop_last() =~= cs@.subrange(
            lo as int,
            e - 1,
        ));
        e = e - 1;
    }
    e
}

/// Whether `cs[lo..hi]` is exactly `w`.
pub fn range_is(cs: &Vec<char>, lo: usize, hi: usize, w: &[char]) -> (r: bool)
    requires
        lo <= hi <= cs.len(),
    ensures
        r == (cs@.subrange(lo as int, hi as int) == w@),
{
    if hi - lo != w.len() {
        return false;
    }
    let mut k: usize = 0;
    while k < w.len()
        invariant
            hi - lo == w.len(),
            lo <= hi <= cs.len(),
            k <= w.len(),
            forall|j: int| 0 <= j < k ==> cs@[lo + j] == w@[j],
        decreases w.len() - k,
    {
        if cs[lo + k] != w[k] {
            assert(cs@.subrange(lo as int, hi as int)[k as int] != w@[k as int]);
            return false;
        }
        k = k + 1;
    }
    assert(cs@.subrange(lo as int, hi as int) =~= w@);
    true
}

/// Whether every character of `cs[lo..hi]` is a decimal digit.
pub fn all_digits_in(cs: &Vec<char>, lo: usize, hi: usize) -> (r: bool)
    requires
        lo <= hi <= cs.len(),
    ensures
        r == all_digits(cs@.subrange(lo as int, hi as int)),
{
    let mut k: usize = lo;
    while k < hi
        invariant
            lo <= k <= hi <= cs.len(),
            all_digits(cs@.subrange(lo as int, k as int)),
        decreases hi - k,
    {
        if !('0' <= cs[k] && cs[k] <= '9') {
            assert(!is_digit(cs@.subrange(lo as int, hi as int)[k - lo]));
            return false;
        }
        k = k + 1;
        assert(forall|j: int|
            0 <= j < k - lo ==> #[trigger] cs@.subrange(lo as int, k as int)[j] == cs@.subrange(
                lo as int,
                k - 1,
            ).push(cs@[k - 1])[j]);
    }
    true
}

/// The value of the digits `cs[lo..hi]`, or `None` when it exceeds `u64::MAX`.
pub fn digits_value_in(cs: &Vec<char>, lo: usize, hi: usize) -> (r: Option<u64>)
    requires
        lo <= hi <= cs.len(),
        all_digits(cs@.subrange(lo as int, hi as int)),
    ensures
        match r {
            Some(v) => v == digits_value(cs@.subrange(lo as int, hi as int)),
            None => digits_value(cs@.subrange(lo as int, hi as int)) > u64::MAX,
        },
{
    let mut acc: u64 = 0;
    let mut k: usize = lo;
    while k < hi
        invariant
            lo <= k <= hi <= cs.len(),
            all_digits(cs@.subrange(lo as int, hi as int)),
            acc == digits_value(cs@.subrange(lo as int, k as int)),
        decreases hi - k,
    {
        assert(is_digit(cs@.subrange(lo as int, hi as int)[k - lo]));
        let d = (cs[k] as u32 - '0' as u32) as u64;
        proof {
            lemma_digits_step(cs@, lo as int, k as int);
        }
        let next: u128 = acc as u128 * 10 + d as u128;
        if next > u64::MAX as u128 {
            proof {
                lemma_digits_monotone(cs@, lo as int, k + 1, hi as int);
            }
            return None;
        }
        acc = next as u64;
        k = k + 1;
    }
    Some(acc)
}

/// Reads `cs[lo..hi]` as `u64::from_str` would.
pub fn parse_u64_in(cs: &Vec<char>, lo: usize, hi: usize) -> (r: Result<u64, NumberError>)
    requires
        lo <= hi <= cs.len(),
    ensures
        r == u64_of(cs@.subrange(lo as int, hi as int)),
{
    let ghost s = cs@.subrange(lo as int, hi as int);
    if lo == hi {
        return Err(NumberError::Empty);
    }
    let b = if cs[lo] == '+' {
        lo + 1
    } else {
        lo
    };
    assert(cs@.subrange(b as int, hi as int) =~= if s.len() > 0 && s[0] == '+' {
        s.drop_first()
    } else {
        s
    });
    if b == hi || !all_digits_in(cs, b, hi) {
        return Err(NumberError::InvalidDigit);
    }
    match digits_value_in(cs, b, hi) {
        Some(v) => Ok(v),
        None => Err(NumberError::Overflow),
    }
}

/// Reads `cs[lo..hi]` as `i64::from_str` would.
pub fn parse_i64_in(cs: &Vec<char>, lo: usize, hi: usize) -> (r: Result<i64, NumberError>)
    requires
        lo <= hi <= cs.len(),
    ensures
        r == i64_of(cs@.subrange(lo as int, hi as int)),
{
    let ghost s = cs@.subrange(lo as int, hi as int);
    if lo == hi {
        return Err(NumberError::Empty);
    }
    let neg = cs[lo] == '-';
    let b = if cs[lo] == '+' || cs[lo] == '-' {
        lo + 1
    } else {
        lo
    };
    assert(cs@.subrange(b as int, hi as int) =~= if s.len() > 0 && (s[0] == '+' || s[0] == '-') {
        s.drop_first()
    } else {
        s
    });
    if b == hi || !all_digits_in(cs, b, hi) {
        return Err(NumberError::InvalidDigit);
    }
    match digits_value_in(cs, b, hi) {
        Some(v) => {
            if neg {
                if v > 0x8000_0000_0000_0000 {
                    Err(NumberError::Overflow)
                } else if v == 0x8000_0000_0000_0000 {
                    Ok(i64::MIN)
                } else {
                    Ok(-(v as i64))
                }
            } else if v > i64::MAX as u64 {
                Err(NumberError::Overflow)
            } else {
                Ok(v as i64)
            }
        },
        None => Err(NumberError::Overflow),
    }
}

} // verus!
