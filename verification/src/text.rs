//! Text building blocks: decimal rendering of integers, zero-padded fields,
//! and helpers for assembling `String`s from characters.

use vstd::prelude::*;
use vstd::string::StringExecFns;

verus! {

/// Relies on `String::push`: appends exactly the given character to the end
/// of the string.
#[verifier::external_body]
pub(crate) fn string_push(s: &mut String, c: char)
    ensures
        final(s)@ == old(s)@.push(c),
{
    s.push(c)
}

/// The decimal digit character for a value below ten.
pub open spec fn dec_digit(d: int) -> char {
    if d == 0 {
        '0'
    } else if d == 1 {
        '1'
    } else if d == 2 {
        '2'
    } else if d == 3 {
        '3'
    } else if d == 4 {
        '4'
    } else if d == 5 {
        '5'
    } else if d == 6 {
        '6'
    } else if d == 7 {
        '7'
    } else if d == 8 {
        '8'
    } else {
        '9'
    }
}

/// The decimal rendering of a non-negative integer, most significant digit
/// first, with no leading zeros (a single `'0'` for zero).
pub open spec fn dec_nat(n: nat) -> Seq<char>
    decreases n,
{
    if n < 10 {
        seq![dec_digit(n as int)]
    } else {
        dec_nat(n / 10).push(dec_digit((n % 10) as int))
    }
}

/// The decimal rendering of a signed integer: a leading `'-'` for negative
/// values, then the magnitude's digits.
pub open spec fn dec_int(x: int) -> Seq<char> {
    if x < 0 {
        seq!['-'] + dec_nat((-x) as nat)
    } else {
        dec_nat(x as nat)
    }
}

/// A run of `k` zero characters (empty when `k <= 0`).
pub open spec fn zeros(k: int) -> Seq<char>
    decreases k,
{
    if k <= 0 {
        Seq::empty()
    } else {
        zeros(k - 1).push('0')
    }
}

/// A signed integer rendered right-aligned in a field of width four, padded
/// with zeros after the sign, as the disassembler prints offsets.
pub open spec fn dec_pad4(x: int) -> Seq<char> {
    if x < 0 {
        let d = dec_nat((-x) as nat);
        seq!['-'] + zeros(3 - d.len()) + d
    } else {
        let d = dec_nat(x as nat);
        zeros(4 - d.len()) + d
    }
}

fn digit_char(d: u64) -> (c: char)
    requires
        d < 10,
    ensures
        c == dec_digit(d as int),
{
    match d {
        0 => '0',
        1 => '1',
        2 => '2',
        3 => '3',
        4 => '4',
        5 => '5',
        6 => '6',
        7 => '7',
        8 => '8',
        _ => '9',
    }
}

/// Appends the decimal rendering of `n` to `s`.
pub fn push_dec_u64(s: &mut String, n: u64)
    ensures
        final(s)@ == old(s)@ + dec_nat(n as nat),
    decreases n,
{
    if n < 10 {
        let c = digit_char(n);
        string_push(s, c);
        proof {
            assert(final(s)@ =~= old(s)@ + dec_nat(n as nat));
        }
    } else {
        push_dec_u64(s, n / 10);
        let c = digit_char(n % 10);
        string_push(s, c);
        proof {
            assert(final(s)@ =~= old(s)@ + dec_nat(n as nat));
        }
    }
}

/// Appends the decimal rendering of `x` to `s`, with a sign for negatives.
pub fn push_dec_i64(s: &mut String, x: i64)
    ensures
        final(s)@ == old(s)@ + dec_int(x as int),
{
    if x < 0 {
        string_push(s, '-');
        let m: u64 = ((-(x + 1)) as u64) + 1;
        assert(m == -(x as int));
        push_dec_u64(s, m);
        proof {
            assert(final(s)@ =~= old(s)@ + dec_int(x as int));
        }
    } else {
        push_dec_u64(s, x as u64);
    }
}

/// The number of digits in the decimal rendering of `n`.
fn dec_len(n: u64) -> (l: usize)
    ensures
        l == dec_nat(n as nat).len(),
        1 <= l <= 20,
    decreases n,
{
    proof {
        lemma_p10_twenty();
        lemma_dec_nat_len(n as nat, 20);
    }
    if n < 10 {
        1
    } else {
        let r = dec_len(n / 10);
        r + 1
    }
}

/// Ten to the `k`th power.
spec fn p10(k: nat) -> nat
    decreases k,
{
    if k == 0 {
        1
    } else {
        10 * p10((k - 1) as nat)
    }
}

proof fn lemma_p10_twenty()
    ensures
        p10(20) > u64::MAX,
{
    reveal_with_fuel(p10, 21);
}

/// A value below ten to the `k`th power renders in at most `k` digits.
proof fn lemma_dec_nat_len(n: nat, k: nat)
    requires
        k >= 1,
        n < p10(k),
    ensures
        dec_nat(n).len() <= k,
    decreases n,
{
    if n < 10 {
    } else {
        assert(k >= 2) by {
            if k == 1 {
                assert(p10(1) == 10);
            }
        }
        assert(n / 10 < p10((k - 1) as nat)) by {
            vstd::arithmetic::div_mod::lemma_multiply_divide_lt(
                n as int,
                10,
                p10((k - 1) as nat) as int,
            );
        }
        lemma_dec_nat_len(n / 10, (k - 1) as nat);
    }
}

/// Appends `k` zero characters to `s`.
fn push_zeros(s: &mut String, k: usize)
    ensures
        final(s)@ == old(s)@ + zeros(k as int),
    decreases k,
{
    if k > 0 {
        push_zeros(s, k - 1);
        string_push(s, '0');
        proof {
            assert(final(s)@ =~= old(s)@ + zeros(k as int));
        }
    } else {
        proof {
            assert(final(s)@ =~= old(s)@ + zeros(0));
        }
    }
}

/// Appends `x` right-aligned in a zero-padded field of width four, as the
/// disassembler prints offsets and jump targets.
pub fn push_dec_pad4(s: &mut String, x: i64)
    ensures
        final(s)@ == old(s)@ + dec_pad4(x as int),
{
    if x < 0 {
        string_push(s, '-');
        let m: u64 = ((-(x + 1)) as u64) + 1;
        assert(m == -(x as int));
        let l = dec_len(m);
        if l < 3 {
            push_zeros(s, 3 - l);
        }
        push_dec_u64(s, m);
        proof {
            assert(final(s)@ =~= old(s)@ + dec_pad4(x as int));
        }
    } else {
        let m = x as u64;
        let l = dec_len(m);
        if l < 4 {
            push_zeros(s, 4 - l);
        }
        push_dec_u64(s, m);
        proof {
            assert(final(s)@ =~= old(s)@ + dec_pad4(x as int));
        }
    }
}

/// Appends a non-negative value right-aligned in a zero-padded field of
/// width four, as the disassembler prints offsets and pool indexes.
pub fn push_dec_pad4_u64(s: &mut String, x: u64)
    ensures
        final(s)@ == old(s)@ + dec_pad4(x as int),
{
    let l = dec_len(x);
    if l < 4 {
        push_zeros(s, 4 - l);
    }
    push_dec_u64(s, x);
    proof {
        assert(final(s)@ =~= old(s)@ + dec_pad4(x as int));
    }
}

/// The characters of `cs` between `from` and `to`, gathered into a `String`.
pub fn chars_to_string(cs: &Vec<char>, from: usize, to: usize) -> (r: String)
    requires
        from <= to <= cs@.len(),
    ensures
        r@ == cs@.subrange(from as int, to as int),
{
    let mut r = String::new();
    let mut i: usize = from;
    while i < to
        invariant
            from <= i <= to <= cs@.len(),
            r@ == cs@.subrange(from as int, i as int),
        decreases to - i,
    {
        let c = cs[i];
        string_push(&mut r, c);
        proof {
            assert(cs@.subrange(from as int, (i + 1) as int) =~= cs@.subrange(
                from as int,
                i as int,
            ).push(cs@[i as int]));
        }
        i = i + 1;
    }
    r
}

} // verus!
