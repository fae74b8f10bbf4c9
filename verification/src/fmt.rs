//! Number formatting for reports: hexadecimal with a `0x` prefix and decimal, optionally
//! zero-padded, as Rust's `{:#0Nx}` and `{:0N}` write them.

use vstd::prelude::*;

verus! {

/// Lower-case hexadecimal digit of `d`, for `0 <= d < 16`.
pub open spec fn hex_char(d: int) -> char {
    if d < 10 {
        (48 + d) as char
    } else {
        (87 + d) as char
    }
}

/// Decimal digit of `d`, for `0 <= d < 10`.
pub open spec fn dec_char(d: int) -> char {
    (48 + d) as char
}

/// Digits of `n` in base `base` (16 or 10), most significant first, without leading zeros;
/// `0` is one digit.
pub open spec fn digits(n: nat, base: nat) -> Seq<char>
    decreases n,
{
    if base < 2 {
        Seq::<char>::empty()
    } else if n < base {
        seq![if base == 16 { hex_char(n as int) } else { dec_char(n as int) }]
    } else {
        proof {
            assert(n / base < n) by (nonlinear_arith)
                requires
                    base >= 2,
                    n >= base,
            ;
        }
        digits(n / base, base).push(if base == 16 { hex_char((n % base) as int) } else { dec_char((n % base) as int) })
    }
}

/// `k` zeros, or none when `k <= 0`.
pub open spec fn zeros(k: int) -> Seq<char> {
    Seq::new(if k > 0 { k as nat } else { 0 }, |i: int| '0')
}

/// `s` preceded by zeros up to `width` characters.
pub open spec fn zero_pad(s: Seq<char>, width: int) -> Seq<char> {
    zeros(width - s.len()) + s
}

/// `n` as `{:#0<width>x}` writes it: `0x` then lower-case digits, zero-padded so that the
/// whole takes at least `width` characters.
pub open spec fn hex_text(n: nat, width: int) -> Seq<char> {
    seq!['0', 'x'] + zero_pad(digits(n, 16), width - 2)
}

/// `n` as `{:0<width>}` writes it.
pub open spec fn dec_text(n: nat, width: int) -> Seq<char> {
    zero_pad(digits(n, 10), width)
}

/// A signed number as `{}` writes it.
pub open spec fn signed_text(n: int) -> Seq<char> {
    if n < 0 {
        seq!['-'] + digits((-n) as nat, 10)
    } else {
        digits(n as nat, 10)
    }
}

/// Calls `String::push`; the contract claims that `c` is appended.
#[verifier::external_body]
pub(crate) fn push_char(s: &mut String, c: char)
    ensures
        final(s)@ == old(s)@.push(c),
{
    s.push(c)
}

/// Appends `text` to `s`.
pub(crate) fn push_str(s: &mut String, text: &str)
    ensures
        final(s)@ == old(s)@ + text@,
{
    s.append(text);
}

/// Appends the characters of `chars` to `s`.
fn push_chars(s: &mut String, chars: &Vec<char>)
    ensures
        final(s)@ == old(s)@ + chars@,
{
    let mut i: usize = 0;
    while i < chars.len()
        invariant
            i <= chars@.len(),
            s@ == old(s)@ + chars@.take(i as int),
        decreases chars@.len() - i,
    {
        push_char(s, chars[i]);
        assert(chars@.take(i + 1) == chars@.take(i as int).push(chars@[i as int]));
        i = i + 1;
    }
    assert(chars@.take(chars@.len() as int) == chars@);
}

proof fn lemma_digits_step(n: nat, base: nat)
    requires
        base == 10 || base == 16,
        n >= base,
    ensures
        digits(n, base) == digits(n / base, base).push(
            if base == 16 { hex_char((n % base) as int) } else { dec_char((n % base) as int) },
        ),
{
}

/// Digits of `n` in `base` (10 or 16) zero-padded to `width`.
fn padded_digits(n: u64, base: u64, width: usize) -> (out: Vec<char>)
    requires
        base == 10 || base == 16,
    ensures
        out@ == zero_pad(digits(n as nat, base as nat), width as int),
{
    // least significant digit first
    let mut rev: Vec<char> = Vec::new();
    let mut q = n;
    while q >= base
        invariant
            base == 10 || base == 16,
            digits(n as nat, base as nat) == digits(q as nat, base as nat) + rev@.reverse(),
        decreases q,
    {
        let d = q % base;
        let c = if base == 16 { if d < 10 { (48 + d as u8) as char } else { (87 + d as u8) as char } } else {
            (48 + d as u8) as char
        };
        proof {
            lemma_digits_step(q as nat, base as nat);
            assert(c == (if base == 16 { hex_char(d as int) } else { dec_char(d as int) }));
            assert(rev@.push(c).reverse() == seq![c] + rev@.reverse());
            assert(digits((q / base) as nat, base as nat).push(c) + rev@.reverse() == digits(
                (q / base) as nat,
                base as nat,
            ) + (seq![c] + rev@.reverse()));
        }
        rev.push(c);
        q = q / base;
    }
    let c = if base == 16 { if q < 10 { (48 + q as u8) as char } else { (87 + q as u8) as char } } else {
        (48 + q as u8) as char
    };
    assert(digits(q as nat, base as nat) == seq![c]);
    let ghost ds = digits(n as nat, base as nat);
    assert(ds == seq![c] + rev@.reverse());
    let count = rev.len();
    let mut out: Vec<char> = Vec::new();
    let mut k: usize = count;
    while k < width && width - k > 1
        invariant
            count + 1 == ds.len(),
            count <= k,
            k == count || k + 1 < width + 1,
            k == count || k < width,
            out@ == zeros(k - count),
        decreases width - k,
    {
        out.push('0');
        assert(zeros(k + 1 - count) =~= zeros(k - count).push('0'));
        k = k + 1;
    }
    assert(out@ =~= zeros(width - ds.len()));
    let ghost pad = out@;
    out.push(c);
    let mut j = rev.len();
    while j > 0
        invariant
            j <= rev@.len(),
            ds == seq![c] + rev@.reverse(),
            out@ == pad + seq![c] + rev@.reverse().take(rev@.len() - j),
        decreases j,
    {
        j = j - 1;
        out.push(rev[j]);
        assert(rev@.reverse()[rev@.len() - 1 - j] == rev@[j as int]);
        assert(rev@.reverse().take(rev@.len() - j) == rev@.reverse().take(rev@.len() - 1 - j).push(
            rev@[j as int],
        ));
    }
    assert(rev@.reverse().take(rev@.len() as int) == rev@.reverse());
    out
}

/// Appends `n` as `{:#0<width>x}` writes it.
pub fn push_hex(s: &mut String, n: u64, width: usize)
    ensures
        final(s)@ == old(s)@ + hex_text(n as nat, width as int),
{
    push_char(s, '0');
    push_char(s, 'x');
    let w = if width >= 2 { width - 2 } else { 0 };
    let ds = padded_digits(n, 16, w);
    push_chars(s, &ds);
    assert(zero_pad(digits(n as nat, 16), w as int) == zero_pad(digits(n as nat, 16), width - 2));
}

/// Appends `n` as `{:0<width>}` writes it.
pub fn push_decimal(s: &mut String, n: u64, width: usize)
    ensures
        final(s)@ == old(s)@ + dec_text(n as nat, width as int),
{
    let ds = padded_digits(n, 10, width);
    push_chars(s, &ds);
}

/// Appends a signed number as `{}` writes it.
pub fn push_signed(s: &mut String, n: i64)
    ensures
        final(s)@ == old(s)@ + signed_text(n as int),
{
    if n < 0 {
        push_char(s, '-');
        let magnitude: u64 = if n == i64::MIN { 0x8000_0000_0000_0000 } else { (-n) as u64 };
        let ds = padded_digits(magnitude, 10, 0);
        push_chars(s, &ds);
    } else {
        let ds = padded_digits(n as u64, 10, 0);
        push_chars(s, &ds);
    }
}

/// `n` as `{:#0<width>x}` writes it.
pub fn hex(n: u64, width: usize) -> (text: String)
    ensures
        text@ == hex_text(n as nat, width as int),
{
    let mut s = String::new();
    push_hex(&mut s, n, width);
    s
}

} // verus!
