//! Decimal rendering of integers and the zero padding used for dates and seeds.

use vstd::prelude::*;
use crate::decimal::pow10;
use crate::text::{all_digits, digits_value, is_digit, parsed_i32, parsed_u32, string_from_chars};

verus! {

/// The character of a decimal digit.
pub open spec fn digit_char(d: nat) -> char {
    if d == 0 { '0' } else if d == 1 { '1' } else if d == 2 { '2' } else if d == 3 { '3' }
    else if d == 4 { '4' } else if d == 5 { '5' } else if d == 6 { '6' } else if d == 7 { '7' }
    else if d == 8 { '8' } else { '9' }
}

fn digit_char_exec(d: u64) -> (c: char)
    requires
        d < 10,
    ensures
        c == digit_char(d as nat),
{
    if d == 0 { '0' } else if d == 1 { '1' } else if d == 2 { '2' } else if d == 3 { '3' }
    else if d == 4 { '4' } else if d == 5 { '5' } else if d == 6 { '6' } else if d == 7 { '7' }
    else if d == 8 { '8' } else { '9' }
}

/// Base-ten digits of `n`, without leading zeros (`"0"` for zero).
pub open spec fn decimal(n: nat) -> Seq<char>
    decreases n,
{
    if n < 10 {
        seq![digit_char(n)]
    } else {
        decimal(n / 10).push(digit_char(n % 10))
    }
}

/// `k` copies of `c`.
pub open spec fn fill(c: char, k: nat) -> Seq<char> {
    Seq::new(k, |_i: int| c)
}

/// `s` right-aligned in a field of `width` characters filled with `c`
/// (the `{:c>width}` format).
pub open spec fn pad_left(s: Seq<char>, c: char, width: nat) -> Seq<char> {
    if s.len() >= width {
        s
    } else {
        fill(c, (width - s.len()) as nat) + s
    }
}

/// The `{:0width}` rendering of an integer: a minus sign for negative values,
/// then the digits of the magnitude zero-padded so that the whole takes
/// at least `width` characters.
pub open spec fn zero_padded(n: int, width: nat) -> Seq<char> {
    if n < 0 {
        seq!['-'] + pad_left(decimal((-n) as nat), '0', if width >= 1 { (width - 1) as nat } else { 0 })
    } else {
        pad_left(decimal(n as nat), '0', width)
    }
}

fn push_decimal(n: u64, out: &mut Vec<char>)
    ensures
        final(out)@ == old(out)@ + decimal(n as nat),
    decreases n,
{
    if n >= 10 {
        push_decimal(n / 10, out);
    }
    let c = digit_char_exec(n % 10);
    out.push(c);
    proof {
        if n >= 10 {
            assert(old(out)@ + decimal((n / 10) as nat) + seq![digit_char((n % 10) as nat)]
                =~= old(out)@ + decimal(n as nat));
        } else {
            assert(old(out)@ + seq![digit_char(n as nat)] =~= old(out)@ + decimal(n as nat));
        }
    }
}

/// Appends `k` copies of `c`.
fn push_fill(out: &mut Vec<char>, c: char, k: usize)
    ensures
        final(out)@ == old(out)@ + fill(c, k as nat),
{
    let mut i: usize = 0;
    while i < k
        invariant
            i <= k,
            out@ == old(out)@ + fill(c, i as nat),
        decreases k - i,
    {
        out.push(c);
        i += 1;
        assert(out@ =~= old(out)@ + fill(c, i as nat));
    }
}

/// `s` right-aligned in `width` characters, filled with `c`.
pub fn pad_left_chars(s: &Vec<char>, c: char, width: usize) -> (r: Vec<char>)
    ensures
        r@ == pad_left(s@, c, width as nat),
{
    let mut out: Vec<char> = Vec::new();
    if s.len() < width {
        push_fill(&mut out, c, width - s.len());
    }
    let mut k: usize = 0;
    let ghost before = out@;
    while k < s.len()
        invariant
            k <= s.len(),
            out@ == before + s@.take(k as int),
        decreases s.len() - k,
    {
        out.push(s[k]);
        k += 1;
        assert(out@ =~= before + s@.take(k as int));
    }
    assert(s@.take(s.len() as int) =~= s@);
    assert(s.len() >= width ==> before =~= Seq::<char>::empty());
    out
}

/// Decimal digits of `n`.
pub fn decimal_chars(n: u64) -> (r: Vec<char>)
    ensures
        r@ == decimal(n as nat),
{
    let mut out: Vec<char> = Vec::new();
    push_decimal(n, &mut out);
    assert(out@ =~= decimal(n as nat));
    out
}

/// The `{:0width}` rendering of `n` as characters.
pub fn zero_padded_chars(n: i64, width: usize) -> (r: Vec<char>)
    ensures
        r@ == zero_padded(n as int, width as nat),
{
    if n < 0 {
        let mag: u64 = if n == i64::MIN { 9223372036854775808u64 } else { (-n) as u64 };
        let digits = decimal_chars(mag);
        let w: usize = if width >= 1 { width - 1 } else { 0 };
        let body = pad_left_chars(&digits, '0', w);
        let mut out: Vec<char> = vec!['-'];
        let mut k: usize = 0;
        while k < body.len()
            invariant
                k <= body.len(),
                out@ == seq!['-'] + body@.take(k as int),
            decreases body.len() - k,
        {
            out.push(body[k]);
            k += 1;
            assert(out@ =~= seq!['-'] + body@.take(k as int));
        }
        assert(body@.take(body.len() as int) =~= body@);
        out
    } else {
        let digits = decimal_chars(n as u64);
        pad_left_chars(&digits, '0', width)
    }
}

/// `format!("{:0width}", n)`.
pub fn zero_padded_string(n: i64, width: usize) -> (r: String)
    ensures
        r@ == zero_padded(n as int, width as nat),
{
    string_from_chars(&zero_padded_chars(n, width))
}

proof fn lemma_digit_char_value(d: nat)
    requires
        d < 10,
    ensures
        is_digit(digit_char(d)),
        ((digit_char(d) as u32) - ('0' as u32)) as nat == d,
{
    if d == 0 {} else if d == 1 {} else if d == 2 {} else if d == 3 {} else if d == 4 {}
    else if d == 5 {} else if d == 6 {} else if d == 7 {} else if d == 8 {} else {}
}

proof fn lemma_decimal_digits(n: nat)
    ensures
        all_digits(decimal(n)),
        digits_value(decimal(n)) == n,
    decreases n,
{
    lemma_digit_char_value(n % 10);
    if n < 10 {
        let s = decimal(n);
        assert(s.drop_last() =~= Seq::<char>::empty());
        assert(s[0] == digit_char(n));
        assert(n % 10 == n);
        assert(digits_value(s.drop_last()) == 0);
        assert(s.last() == digit_char(n));
        assert(digits_value(s) == digits_value(s.drop_last()) * 10 + ((s.last() as u32) - ('0' as u32)) as nat);
    } else {
        lemma_decimal_digits(n / 10);
        let s = decimal(n);
        assert(s.drop_last() =~= decimal(n / 10));
        assert(s.last() == digit_char(n % 10));
        assert forall|i: int| 0 <= i < s.len() implies is_digit(#[trigger] s[i]) by {
            if i < s.len() - 1 {
                assert(s[i] == decimal(n / 10)[i]);
            }
        }
    }
}

proof fn lemma_fill_value(k: nat)
    ensures
        digits_value(fill('0', k)) == 0,
        forall|i: int| 0 <= i < k ==> is_digit(#[trigger] fill('0', k)[i]),
    decreases k,
{
    if k > 0 {
        assert(fill('0', k).drop_last() =~= fill('0', (k - 1) as nat));
        lemma_fill_value((k - 1) as nat);
    }
}

proof fn lemma_leading_zeros(k: nat, s: Seq<char>)
    ensures
        digits_value(fill('0', k) + s) == digits_value(s),
    decreases s.len(),
{
    if s.len() == 0 {
        assert(fill('0', k) + s =~= fill('0', k));
        lemma_fill_value(k);
    } else {
        assert((fill('0', k) + s).drop_last() =~= fill('0', k) + s.drop_last());
        lemma_leading_zeros(k, s.drop_last());
    }
}

/// A number zero-padded to any width is a run of digits worth the number.
pub proof fn lemma_padded_digits(n: nat, w: nat)
    ensures
        all_digits(pad_left(decimal(n), '0', w)),
        digits_value(pad_left(decimal(n), '0', w)) == n,
        pad_left(decimal(n), '0', w)[0] != '+' && pad_left(decimal(n), '0', w)[0] != '-',
{
    lemma_decimal_digits(n);
    let d = decimal(n);
    if d.len() < w {
        let k = (w - d.len()) as nat;
        lemma_leading_zeros(k, d);
        lemma_fill_value(k);
        let p = fill('0', k) + d;
        assert forall|i: int| 0 <= i < p.len() implies is_digit(#[trigger] p[i]) by {
            if i < k {
                assert(p[i] == fill('0', k)[i]);
            } else {
                assert(p[i] == d[i - k]);
            }
        }
        assert(is_digit(p[0]));
    } else {
        assert(is_digit(d[0]));
    }
}

/// A number below `10^k` has at most `k` digits.
pub proof fn lemma_decimal_len(n: nat, k: nat)
    requires
        1 <= k,
        n < pow10(k),
    ensures
        decimal(n).len() <= k,
    decreases n,
{
    if n >= 10 {
        if k == 1 {
            assert(pow10(1) == 10 * pow10(0));
        }
        assert(pow10(k) == 10 * pow10((k - 1) as nat));
        lemma_decimal_len(n / 10, (k - 1) as nat);
    }
}

/// Law: `decimal` writes a number in base ten as `Display` does: digits only,
/// reading back as the number, and without a leading zero (zero itself is
/// the single digit `0`).
pub proof fn lemma_decimal_canonical(n: nat)
    ensures
        all_digits(decimal(n)),
        digits_value(decimal(n)) == n,
        n == 0 ==> decimal(n) == seq!['0'],
        n > 0 ==> decimal(n)[0] != '0',
    decreases n,
{
    lemma_decimal_digits(n);
    if n >= 10 {
        lemma_decimal_canonical(n / 10);
        lemma_decimal_len_pos(n / 10);
        assert(decimal(n)[0] == decimal(n / 10)[0]);
    }
}

proof fn lemma_decimal_len_pos(n: nat)
    ensures
        decimal(n).len() >= 1,
    decreases n,
{
    if n >= 10 {
        lemma_decimal_len_pos(n / 10);
    }
}

/// Law: padding keeps the text whole at the right end and only adds fill
/// characters on its left, as many as bring it to the width (none when it
/// is already that wide).
pub proof fn lemma_pad_left_shape(s: Seq<char>, c: char, width: nat)
    ensures
        pad_left(s, c, width).len() == if s.len() >= width { s.len() as int } else { width as int },
        pad_left(s, c, width).skip(pad_left(s, c, width).len() - s.len()) == s,
        forall|k: int| 0 <= k < pad_left(s, c, width).len() - s.len() ==> #[trigger] pad_left(s, c, width)[k] == c,
{
    let p = pad_left(s, c, width);
    assert(p.skip(p.len() - s.len()) =~= s);
}

/// Law: a number written with `{:0width}` reads back as itself, so the
/// zero-padded dates the calendar writes parse to the same numbers.
pub proof fn lemma_zero_padded_parses(n: int, w: nat)
    requires
        0 <= n <= i32::MAX,
    ensures
        parsed_u32(zero_padded(n, w)) == Some(n as u32),
        parsed_i32(zero_padded(n, w)) == Some(n as i32),
{
    lemma_padded_digits(n as nat, w);
}

} // verus!
