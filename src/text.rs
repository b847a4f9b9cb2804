//! Text rendering used in risk descriptions and details: decimal numbers,
//! digit grouping, basis points as percentages and hexadecimal identifiers.

use vstd::prelude::*;
use crate::codec::ObjectId;

verus! {

/// Relies on `String::push`: the character is appended at the end.
#[verifier::external_body]
pub(crate) fn push_char(s: &mut String, c: char)
    ensures
        final(s)@ == old(s)@.push(c),
{
    s.push(c);
}

/// Appends every character of `t` to `s`.
pub(crate) fn push_all(s: &mut String, t: &String)
    ensures
        final(s)@ == old(s)@ + t@,
{
    s.append(t.as_str());
}

/// The decimal digit `d` (below ten) as a character.
pub open spec fn digit_char(d: nat) -> char {
    if d == 0 { '0' } else if d == 1 { '1' } else if d == 2 { '2' } else if d == 3 { '3' }
    else if d == 4 { '4' } else if d == 5 { '5' } else if d == 6 { '6' } else if d == 7 { '7' }
    else if d == 8 { '8' } else { '9' }
}

/// The hexadecimal digit `d` (below sixteen) as a lower-case character.
pub open spec fn hex_char(d: nat) -> char {
    if d < 10 { digit_char(d) } else if d == 10 { 'a' } else if d == 11 { 'b' } else if d == 12 { 'c' }
    else if d == 13 { 'd' } else if d == 14 { 'e' } else { 'f' }
}

/// The decimal representation of `n`, without leading zeros.
pub open spec fn decimal(n: nat) -> Seq<char>
    decreases n,
{
    if n < 10 {
        seq![digit_char(n)]
    } else {
        decimal(n / 10).push(digit_char(n % 10))
    }
}

/// The decimal representation of `n` with a comma between groups of three digits.
pub open spec fn grouped(n: nat) -> Seq<char>
    decreases n,
{
    if n < 1000 {
        decimal(n)
    } else {
        grouped(n / 1000) + seq![',', digit_char((n % 1000) / 100), digit_char((n % 100) / 10), digit_char(n % 10)]
    }
}

/// A basis-point amount as a percentage with two decimals: 1234 is `12.34%`.
pub open spec fn percent_text(bps: nat) -> Seq<char> {
    decimal(bps / 100) + seq!['.', digit_char((bps % 100) / 10), digit_char(bps % 10), '%']
}

/// The `n` low hexadecimal digits of `v`, most significant first, zero-padded.
pub open spec fn hex_fixed(v: nat, n: nat) -> Seq<char>
    decreases n,
{
    if n == 0 {
        Seq::empty()
    } else {
        hex_fixed(v / 16, (n - 1) as nat).push(hex_char(v % 16))
    }
}

/// A signed integer in decimal, with a leading minus sign when negative.
pub open spec fn signed_decimal(v: int) -> Seq<char> {
    if v < 0 { seq!['-'] + decimal((-v) as nat) } else { decimal(v as nat) }
}

pub fn digit(d: u64) -> (c: char)
    requires
        d < 10,
    ensures
        c == digit_char(d as nat),
{
    if d == 0 { '0' } else if d == 1 { '1' } else if d == 2 { '2' } else if d == 3 { '3' }
    else if d == 4 { '4' } else if d == 5 { '5' } else if d == 6 { '6' } else if d == 7 { '7' }
    else if d == 8 { '8' } else { '9' }
}

fn hex_digit(d: u128) -> (c: char)
    requires
        d < 16,
    ensures
        c == hex_char(d as nat),
{
    if d < 10 { digit(d as u64) } else if d == 10 { 'a' } else if d == 11 { 'b' } else if d == 12 { 'c' }
    else if d == 13 { 'd' } else if d == 14 { 'e' } else { 'f' }
}

/// Appends the decimal representation of `n`.
pub fn push_decimal(s: &mut String, n: u64)
    ensures
        final(s)@ == old(s)@ + decimal(n as nat),
    decreases n,
{
    if n < 10 {
        push_char(s, digit(n));
    } else {
        push_decimal(s, n / 10);
        push_char(s, digit(n % 10));
    }
}

/// Appends the decimal representation of a signed integer.
pub fn push_signed(s: &mut String, v: i64)
    ensures
        final(s)@ == old(s)@ + signed_decimal(v as int),
{
    if v < 0 {
        push_char(s, '-');
        let m: u64 = if v == i64::MIN { 9223372036854775808u64 } else { (-v) as u64 };
        push_decimal(s, m);
        assert(final(s)@ =~= old(s)@ + signed_decimal(v as int));
    } else {
        push_decimal(s, v as u64);
    }
}

/// Appends `n` with its digits grouped by three.
fn push_grouped(s: &mut String, n: u64)
    ensures
        final(s)@ == old(s)@ + grouped(n as nat),
    decreases n,
{
    if n < 1000 {
        push_decimal(s, n);
    } else {
        push_grouped(s, n / 1000);
        push_char(s, ',');
        push_char(s, digit((n % 1000) / 100));
        push_char(s, digit((n % 100) / 10));
        push_char(s, digit(n % 10));
        assert(final(s)@ =~= old(s)@ + grouped(n as nat));
    }
}

/// An amount with its digits grouped by three: 1234567 is `1,234,567`.
pub fn format_currency(amount: u64) -> (r: String)
    ensures
        r@ == grouped(amount as nat),
{
    let mut s = String::new();
    push_grouped(&mut s, amount);
    assert(s@ =~= grouped(amount as nat));
    s
}

/// A basis-point amount as a percentage with two decimals.
pub fn format_bps(bps: u64) -> (r: String)
    ensures
        r@ == percent_text(bps as nat),
{
    let mut s = String::new();
    push_decimal(&mut s, bps / 100);
    push_char(&mut s, '.');
    push_char(&mut s, digit((bps % 100) / 10));
    push_char(&mut s, digit(bps % 10));
    push_char(&mut s, '%');
    assert(s@ =~= percent_text(bps as nat));
    s
}

/// Appends the `n` low hexadecimal digits of `v`, zero-padded.
pub fn push_hex_fixed(s: &mut String, v: u128, n: usize)
    ensures
        final(s)@ == old(s)@ + hex_fixed(v as nat, n as nat),
    decreases n,
{
    if n > 0 {
        push_hex_fixed(s, v / 16, n - 1);
        push_char(s, hex_digit(v % 16));
        assert(final(s)@ =~= old(s)@ + hex_fixed(v as nat, n as nat));
    } else {
        assert(final(s)@ =~= old(s)@ + hex_fixed(v as nat, n as nat));
    }
}

/// An identifier as `0x` followed by its 64 lower-case hexadecimal digits.
pub open spec fn hex_id(id: ObjectId) -> Seq<char> {
    seq!['0', 'x'] + hex_fixed(id.hi as nat, 32) + hex_fixed(id.lo as nat, 32)
}

/// An identifier as `0x` followed by its 64 lower-case hexadecimal digits.
pub fn id_text(id: ObjectId) -> (r: String)
    ensures
        r@ == hex_id(id),
{
    let mut s = String::new();
    push_char(&mut s, '0');
    push_char(&mut s, 'x');
    push_hex_fixed(&mut s, id.hi, 32);
    push_hex_fixed(&mut s, id.lo, 32);
    assert(s@ =~= hex_id(id));
    s
}

} // verus!
