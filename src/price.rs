//! Exact decimal prices and decimal text for integers.
use vstd::prelude::*;
use crate::text::{
    NumberError, all_digits, digits_value, digit_value, is_digit, split_fields, all_digits_in,
    digits_value_in,
};

verus! {

/// A non-negative decimal number `mantissa / 10^scale`, kept without trailing
/// zeros in its fraction (see `wf`), so that equal values have equal fields.
#[derive(Debug, Clone, Copy, PartialEq, Eq, Structural)]
pub struct Price {
    pub mantissa: u64,
    pub scale: usize,
}

impl Price {
    pub open spec fn wf(&self) -> bool {
        self.scale == 0 || self.mantissa % 10 != 0
    }

    /// The price `mantissa / 10^scale`, brought to its normal form.
    pub fn new(mantissa: u64, scale: usize) -> (r: Price)
        ensures
            r.wf(),
            scale_down(mantissa as nat, (scale - r.scale) as nat) == r.mantissa,
            r.scale <= scale,
            mantissa % 10 != 0 || scale == 0 ==> r == (Price { mantissa, scale }),
    {
        if scale == 0 || mantissa % 10 != 0 {
            return Price { mantissa, scale };
        }
        let mut m = mantissa;
        let mut s = scale;
        while s > 0 && m % 10 == 0
            invariant
                s <= scale,
                scale_down(mantissa as nat, (scale - s) as nat) == m,
            decreases s,
        {
            proof {
                lemma_scale_down_step(mantissa as nat, (scale - s) as nat);
            }
            m = m / 10;
            s = s - 1;
        }
        Price { mantissa: m, scale: s }
    }
}

/// `x` with its last `w` decimal digits dropped.
pub open spec fn scale_down(x: nat, w: nat) -> nat
    decreases w,
{
    if w == 0 {
        x
    } else {
        scale_down(x / 10, (w - 1) as nat)
    }
}

proof fn lemma_scale_down_step(x: nat, w: nat)
    ensures
        scale_down(x, w + 1) == scale_down(x, w) / 10,
    decreases w,
{
    if w > 0 {
        lemma_scale_down_step(x / 10, (w - 1) as nat);
    } else {
        assert(scale_down(x / 10, 0) == x / 10);
    }
}

pub open spec fn digit_char(d: nat) -> char {
    if d == 0 {
        '0'
    } else if d == 1 {
        '1'
    } else if d == 2 {
        '2'
    } else if d == 3 {
        '3'
    } else if d == 4 {
        '4'
    } else if d == 5 {
        '5'
    } else if d == 6 {
        '6'
    } else if d == 7 {
        '7'
    } else if d == 8 {
        '8'
    } else {
        '9'
    }
}

/// The decimal digits of `n`, without leading zeros.
pub open spec fn nat_text(n: nat) -> Seq<char>
    decreases n,
{
    if n < 10 {
        seq![digit_char(n)]
    } else {
        nat_text(n / 10).push(digit_char(n % 10))
    }
}

/// The last `w` decimal digits of `x`, with leading zeros.
pub open spec fn padded(x: nat, w: nat) -> Seq<char>
    decreases w,
{
    if w == 0 {
        Seq::empty()
    } else {
        padded(x / 10, (w - 1) as nat).push(digit_char(x % 10))
    }
}

/// The decimal text of an `i64`, with a leading `-` when it is negative.
pub open spec fn i64_text(x: i64) -> Seq<char> {
    if x < 0 {
        seq!['-'] + nat_text((0 - x) as nat)
    } else {
        nat_text(x as nat)
    }
}

/// The decimal text of a price: its integer part, and a point and exactly
/// `scale` fraction digits when `scale` is not zero.
pub open spec fn price_text(p: Price) -> Seq<char> {
    if p.scale == 0 {
        nat_text(p.mantissa as nat)
    } else {
        nat_text(scale_down(p.mantissa as nat, p.scale as nat)) + seq!['.'] + padded(
            p.mantissa as nat,
            p.scale as nat,
        )
    }
}

/// `s` without its trailing `'0'` characters.
pub open spec fn strip_zeros(s: Seq<char>) -> Seq<char>
    decreases s.len(),
{
    if s.len() > 0 && s.last() == '0' {
        strip_zeros(s.drop_last())
    } else {
        s
    }
}

/// What a price column means: digits, and optionally a point followed by
/// more digits. Trailing zeros of the fraction do not count.
pub open spec fn price_of(s: Seq<char>) -> Result<Price, NumberError> {
    let parts = split_fields(s, '.');
    let whole = parts[0];
    let frac = if parts.len() == 2 {
        parts[1]
    } else {
        Seq::empty()
    };
    let f = strip_zeros(frac);
    if s.len() == 0 {
        Err(NumberError::Empty)
    } else if parts.len() > 2 || whole.len() == 0 || !all_digits(whole) || (parts.len() == 2 && (
    frac.len() == 0 || !all_digits(frac))) {
        Err(NumberError::InvalidDigit)
    } else if digits_value(whole + f) > u64::MAX {
        Err(NumberError::Overflow)
    } else {
        Ok(Price { mantissa: digits_value(whole + f) as u64, scale: f.len() as usize })
    }
}

pub proof fn lemma_digit_char(d: nat)
    requires
        d < 10,
    ensures
        is_digit(digit_char(d)),
        digit_value(digit_char(d)) == d,
        digit_char(d) == '0' <==> d == 0,
        digit_char(d) != '.' && digit_char(d) != ',' && digit_char(d) != '-' && digit_char(d)
            != '+',
{
}

pub proof fn lemma_nat_text(n: nat)
    ensures
        nat_text(n).len() >= 1,
        all_digits(nat_text(n)),
        digits_value(nat_text(n)) == n,
    decreases n,
{
    lemma_digit_char(n % 10);
    if n >= 10 {
        lemma_nat_text(n / 10);
        assert(nat_text(n).drop_last() =~= nat_text(n / 10));
    } else {
        assert(seq![digit_char(n)].drop_last() =~= Seq::<char>::empty());
        assert(digits_value(Seq::<char>::empty()) == 0);
    }
}

pub proof fn lemma_padded_digits(x: nat, w: nat)
    ensures
        padded(x, w).len() == w,
        all_digits(padded(x, w)),
    decreases w,
{
    if w > 0 {
        lemma_padded_digits(x / 10, (w - 1) as nat);
        lemma_digit_char(x % 10);
    }
}

/// The integer part followed by the fraction digits spells the mantissa.
pub proof fn lemma_split_value(x: nat, w: nat)
    ensures
        digits_value(nat_text(scale_down(x, w)) + padded(x, w)) == x,
    decreases w,
{
    if w == 0 {
        lemma_nat_text(x);
        assert(nat_text(x) + padded(x, 0) =~= nat_text(x));
    } else {
        lemma_split_value(x / 10, (w - 1) as nat);
        lemma_digit_char(x % 10);
        let t = nat_text(scale_down(x, w)) + padded(x, w);
        assert(t.drop_last() =~= nat_text(scale_down(x / 10, (w - 1) as nat)) + padded(
            x / 10,
            (w - 1) as nat,
        ));
    }
}

pub proof fn lemma_no_sep(s: Seq<char>, d: char)
    requires
        forall|i: int| 0 <= i < s.len() ==> s[i] != d,
    ensures
        split_fields(s, d) == seq![s],
    decreases s.len(),
{
    if s.len() > 0 {
        lemma_no_sep(s.drop_last(), d);
        assert(s.drop_last().push(s.last()) =~= s);
    } else {
        assert(s =~= Seq::<char>::empty());
    }
}

proof fn lemma_digits_no_sep(s: Seq<char>)
    requires
        all_digits(s),
    ensures
        split_fields(s, '.') == seq![s],
        split_fields(s, ',') == seq![s],
{
    assert(forall|i: int| 0 <= i < s.len() ==> is_digit(s[i]));
    lemma_no_sep(s, '.');
    lemma_no_sep(s, ',');
}

/// Splitting at the one separator in `a + [d] + b` gives `a`'s pieces then `b`'s.
pub proof fn lemma_split_concat(a: Seq<char>, d: char, b: Seq<char>)
    ensures
        split_fields(a + seq![d] + b, d) == split_fields(a, d) + split_fields(b, d),
    decreases b.len(),
{
    crate::text::lemma_split_nonempty(a, d);
    if b.len() == 0 {
        assert((a + seq![d] + b).drop_last() =~= a);
        assert(split_fields(b, d) =~= seq![Seq::<char>::empty()]);
        assert(split_fields(a, d).push(Seq::empty()) =~= split_fields(a, d) + seq![
            Seq::<char>::empty(),
        ]);
    } else {
        lemma_split_concat(a, d, b.drop_last());
        crate::text::lemma_split_nonempty(b.drop_last(), d);
        assert((a + seq![d] + b).drop_last() =~= a + seq![d] + b.drop_last());
        let p = split_fields(a, d);
        let q = split_fields(b.drop_last(), d);
        if b.last() == d {
            assert((p + q).push(Seq::empty()) =~= p + q.push(Seq::empty()));
        } else {
            assert((p + q).update((p + q).len() - 1, (p + q).last().push(b.last())) =~= p
                + q.update(q.len() - 1, q.last().push(b.last())));
        }
    }
}

proof fn lemma_strip_nonzero_end(s: Seq<char>)
    requires
        s.len() > 0,
        s.last() != '0',
    ensures
        strip_zeros(s) == s,
{
}

/// The last digit of a normal price's fraction is not zero, so reading back
/// its text gives the same price.
pub proof fn lemma_price_round_trip(p: Price)
    requires
        p.wf(),
    ensures
        price_of(price_text(p)) == Ok::<Price, NumberError>(p),
{
    let m = p.mantissa as nat;
    let w = p.scale as nat;
    lemma_nat_text(m);
    if w == 0 {
        lemma_digits_no_sep(nat_text(m));
        assert(strip_zeros(Seq::<char>::empty()) =~= Seq::<char>::empty());
        assert(nat_text(m) + strip_zeros(Seq::<char>::empty()) =~= nat_text(m));
    } else {
        let a = nat_text(scale_down(m, w));
        let b = padded(m, w);
        lemma_nat_text(scale_down(m, w));
        lemma_padded_digits(m, w);
        lemma_digits_no_sep(a);
        lemma_digits_no_sep(b);
        lemma_split_concat(a, '.', b);
        assert(seq![a] + seq![b] =~= seq![a, b]);
        lemma_digit_char(m % 10);
        assert(b.last() == digit_char(m % 10));
        lemma_strip_nonzero_end(b);
        lemma_split_value(m, w);
        assert(price_text(p).len() > 0);
    }
}

/// The text of a non-negative integer reads back as that integer.
pub proof fn lemma_i64_round_trip(x: i64)
    ensures
        crate::text::i64_of(i64_text(x)) == Ok::<i64, NumberError>(x),
{
    if x < 0 {
        let n = (0 - x) as nat;
        lemma_nat_text(n);
        assert((seq!['-'] + nat_text(n)).drop_first() =~= nat_text(n));
    } else {
        lemma_nat_text(x as nat);
        lemma_digit_char(x as nat % 10);
        let t = nat_text(x as nat);
        assert(is_digit(t[0]));
    }
}

fn digit_char_of(d: u64) -> (c: char)
    requires
        d < 10,
    ensures
        c == digit_char(d as nat),
{
    if d == 0 {
        '0'
    } else if d == 1 {
        '1'
    } else if d == 2 {
        '2'
    } else if d == 3 {
        '3'
    } else if d == 4 {
        '4'
    } else if d == 5 {
        '5'
    } else if d == 6 {
        '6'
    } else if d == 7 {
        '7'
    } else if d == 8 {
        '8'
    } else {
        '9'
    }
}

/// Reads `cs[lo..hi]` as a price: digits, and optionally a point followed by
/// more digits.
pub fn parse_price_in(cs: &Vec<char>, lo: usize, hi: usize) -> (r: Result<Price, NumberError>)
    requires
        lo <= hi <= cs.len(),
    ensures
        r == price_of(cs@.subrange(lo as int, hi as int)),
        r matches Ok(p) ==> p.wf(),
{
    let ghost s = cs@.subrange(lo as int, hi as int);
    if lo == hi {
        return Err(NumberError::Empty);
    }
    let mut k: usize = lo;
    while k < hi && cs[k] != '.'
        invariant
            lo <= k <= hi <= cs.len(),
            forall|j: int| lo <= j < k ==> cs@[j] != '.',
        decreases hi - k,
    {
        k = k + 1;
    }
    let ghost whole = cs@.subrange(lo as int, k as int);
    let ghost rest = if k < hi {
        cs@.subrange(k + 1, hi as int)
    } else {
        Seq::empty()
    };
    proof {
        assert(forall|j: int| 0 <= j < whole.len() ==> whole[j] == cs@[lo + j]);
        lemma_no_sep(whole, '.');
        if k < hi {
            assert(s =~= whole + seq!['.'] + rest);
            lemma_split_concat(whole, '.', rest);
            crate::text::lemma_split_nonempty(rest, '.');
        } else {
            assert(s =~= whole);
        }
    }
    if k == lo || !all_digits_in(cs, lo, k) {
        return Err(NumberError::InvalidDigit);
    }
    let mut e: usize = hi;
    let fs: usize = if k < hi {
        k + 1
    } else {
        hi
    };
    if k < hi {
        if k + 1 == hi || !all_digits_in(cs, k + 1, hi) {
            proof {
                let parts = split_fields(s, '.');
                assert(parts =~= seq![whole] + split_fields(rest, '.'));
                if k + 1 == hi {
                    assert(rest =~= Seq::<char>::empty());
                    assert(split_fields(rest, '.') =~= seq![Seq::<char>::empty()]);
                    assert(parts[1] == rest);
                } else if split_fields(rest, '.').len() == 1 {
                    crate::text::lemma_split_single(rest, '.');
                    assert(parts[1] == rest);
                }
            }
            return Err(NumberError::InvalidDigit);
        }
        proof {
            lemma_digits_no_sep(rest);
            assert(split_fields(s, '.') =~= seq![whole, rest]);
        }
        while e > k + 1 && cs[e - 1] == '0'
            invariant
                k + 1 <= e <= hi <= cs.len(),
                strip_zeros(cs@.subrange(k + 1, e as int)) == strip_zeros(rest),
            decreases e,
        {
            assert(cs@.subrange(k + 1, e as int).drop_last() =~= cs@.subrange(k + 1, e - 1));
            e = e - 1;
        }
        assert(strip_zeros(cs@.subrange(k + 1, e as int)) == cs@.subrange(k + 1, e as int));
    } else {
        assert(strip_zeros(Seq::<char>::empty()) == Seq::<char>::empty());
        assert(cs@.subrange(fs as int, e as int) =~= Seq::<char>::empty());
    }
    let ghost f = cs@.subrange(fs as int, e as int);
    let mut digits: Vec<char> = Vec::new();
    let mut j: usize = lo;
    while j < k
        invariant
            lo <= j <= k <= cs.len(),
            digits@ == cs@.subrange(lo as int, j as int),
        decreases k - j,
    {
        digits.push(cs[j]);
        j = j + 1;
        assert(digits@ =~= cs@.subrange(lo as int, j as int));
    }
    let mut j: usize = fs;
    while j < e
        invariant
            fs <= j <= e <= hi <= cs.len(),
            digits@ == whole + cs@.subrange(fs as int, j as int),
        decreases e - j,
    {
        digits.push(cs[j]);
        j = j + 1;
        assert(digits@ =~= whole + cs@.subrange(fs as int, j as int));
    }
    assert(digits@ =~= digits@.subrange(0, digits@.len() as int));
    proof {
        assert(all_digits(whole + f)) by {
            assert(all_digits(whole));
            if k < hi {
                assert(forall|i: int| 0 <= i < f.len() ==> f[i] == rest[i]);
            }
        }
    }
    match digits_value_in(&digits, 0, digits.len()) {
        Some(v) => {
            let p = Price { mantissa: v, scale: e - fs };
            proof {
                if f.len() > 0 {
                    assert(f.last() != '0');
                    assert(is_digit(f.last()));
                    assert((whole + f).drop_last() =~= whole + f.drop_last());
                    assert((whole + f).last() == f.last());
                }
            }
            Ok(p)
        },
        None => Err(NumberError::Overflow),
    }
}

/// Appends the decimal digits of `n`.
pub fn push_nat_text(out: &mut Vec<char>, n: u64)
    ensures
        final(out)@ == old(out)@ + nat_text(n as nat),
    decreases n,
{
    if n >= 10 {
        push_nat_text(out, n / 10);
    }
    let ghost mid = out@;
    out.push(digit_char_of(n % 10));
    proof {
        if n >= 10 {
            assert(out@ =~= old(out)@ + nat_text(n as nat));
        } else {
            assert(out@ =~= old(out)@ + nat_text(n as nat));
        }
    }
}

/// Appends the last `w` digits of `x`, with leading zeros.
pub fn push_padded(out: &mut Vec<char>, x: u64, w: usize)
    ensures
        final(out)@ == old(out)@ + padded(x as nat, w as nat),
    decreases w,
{
    if w == 0 {
        assert(out@ =~= old(out)@ + padded(x as nat, w as nat));
    } else {
        push_padded(out, x / 10, w - 1);
        out.push(digit_char_of(x % 10));
        assert(out@ =~= old(out)@ + padded(x as nat, w as nat));
    }
}

/// Appends the decimal text of `x`.
pub fn push_i64_text(out: &mut Vec<char>, x: i64)
    ensures
        final(out)@ == old(out)@ + i64_text(x),
{
    if x < 0 {
        out.push('-');
        let n: u64 = if x == i64::MIN {
            0x8000_0000_0000_0000
        } else {
            (-x) as u64
        };
        push_nat_text(out, n);
        assert(out@ =~= old(out)@ + i64_text(x));
    } else {
        push_nat_text(out, x as u64);
    }
}

/// Appends the decimal text of `p`.
pub fn push_price_text(out: &mut Vec<char>, p: Price)
    ensures
        final(out)@ == old(out)@ + price_text(p),
{
    if p.scale == 0 {
        push_nat_text(out, p.mantissa);
    } else {
        let mut q = p.mantissa;
        let mut k: usize = 0;
        while k < p.scale
            invariant
                k <= p.scale,
                q == scale_down(p.mantissa as nat, k as nat),
            decreases p.scale - k,
        {
            proof {
                lemma_scale_down_step(p.mantissa as nat, k as nat);
            }
            q = q / 10;
            k = k + 1;
        }
        push_nat_text(out, q);
        out.push('.');
        push_padded(out, p.mantissa, p.scale);
        assert(out@ =~= old(out)@ + price_text(p));
    }
}

} // verus!
